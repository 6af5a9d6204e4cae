//! Where the rows of the overlay stand on the screen.

use crate::help;
use crate::help::{Area, ColumnModel, Face, LabelModel, RowModel};
use crate::text;
use vstd::prelude::*;

verus! {

// ---------------------------------------------------------------------------
// Columns

/// How wide the keys of a row are.
pub open spec fn keys_of(row: RowModel) -> int {
    if row is Entry {
        row->keys.len() as int
    } else {
        0
    }
}

/// How wide the other text of a row is.
pub open spec fn words_of(row: RowModel) -> int {
    match row {
        RowModel::Entry { keys, action } => action.len() as int,
        RowModel::Heading(title) => title.len() as int,
        RowModel::Blank => 0,
    }
}

/// The keys of rows are as wide as the widest of them, and so is the rest.
pub proof fn what_is_widest(rows: Seq<RowModel>, from: int, to: int, i: int)
    requires
        0 <= from <= to <= rows.len(),
    ensures
        from <= i < to ==> keys_of(rows[i]) <= help::widest_keys(rows, from, to),
        from <= i < to ==> words_of(rows[i]) <= help::widest_text(rows, from, to),
        help::widest_keys(rows, from, to) == 0 || exists|k: int|
            from <= k < to && help::widest_keys(rows, from, to) == keys_of(#[trigger] rows[k]),
        help::widest_text(rows, from, to) == 0 || exists|k: int|
            from <= k < to && help::widest_text(rows, from, to) == words_of(#[trigger] rows[k]),
    decreases to - from,
{
    if from < to {
        what_is_widest(rows, from, to - 1, i);
        let last = rows[to - 1];
        assert(keys_of(last) == help::keys_width(last));
        assert(words_of(last) == help::text_width(last));
        help::widths_are_not_negative(rows, from, to - 1);
    }
}

/// A quotient rounded up is the least that covers.
pub proof fn what_rounding_up_gives(n: int, d: int)
    requires
        n >= 0,
        d >= 1,
    ensures
        d * help::ceiling(n, d) >= n,
        d * (help::ceiling(n, d) - 1) < n || n == 0,
{
    help::rounding_up_covers(n, d);
    vstd::arithmetic::div_mod::lemma_fundamental_div_mod(n, d);
    vstd::arithmetic::div_mod::lemma_mod_bound(n, d);
    let q = n / d;
    assert(d * (q - 1) == d * q - d) by (nonlinear_arith);
    assert(d * ((q + 1) - 1) == d * q) by (nonlinear_arith);
}

/// How many rows a column holds: no more than the height, and as few as the
/// columns that are asked for can hold all rows with.
pub proof fn how_tall_columns_are(total: int, count: int, height: int)
    requires
        total >= 0,
        count >= 1,
        height >= 1,
    ensures
        ({
            let per = help::rows_per_column(total, count, height);
            &&& 1 <= per <= height
            &&& per < height ==> count * per >= total
            &&& per > 1 ==> count * (per - 1) < total
        }),
{
    what_rounding_up_gives(total, count);
    let all = help::ceiling(total, count);
    let per = help::rows_per_column(total, count, height);
    if per > 1 {
        assert(per <= all);
        assert(count * (per - 1) <= count * (all - 1)) by (nonlinear_arith)
            requires
                per <= all,
                count >= 1,
        ;
        if total == 0 {
            assert(count * (all - 1) >= total) by (nonlinear_arith)
                requires
                    all >= 2,
                    count >= 1,
                    total == 0,
            ;
            vstd::arithmetic::div_mod::lemma_fundamental_div_mod(total, count);
            vstd::arithmetic::div_mod::lemma_mod_bound(total, count);
            assert(total / count == 0) by (nonlinear_arith)
                requires
                    total == 0,
                    count >= 1,
            ;
        }
    }
    if per < height {
        assert(per >= all);
        assert(count * per >= count * all) by (nonlinear_arith)
            requires
                per >= all,
                count >= 1,
        ;
    }
}

/// What each of some columns is: it begins where the one before it ended, holds
/// as many rows as are left and fit, and is as wide as its widest keys, two
/// blanks and its widest text.
pub proof fn what_columns_are(rows: Seq<RowModel>, count: int, height: int, i: int)
    requires
        count >= 1,
        height >= 1,
        0 <= i < help::packed(rows, count, height).len(),
        rows.len() <= usize::MAX,
    ensures
        ({
            let columns = help::packed(rows, count, height);
            let per = help::rows_per_column(rows.len() as int, count, height);
            let column = columns[i];
            let (keys, words) = (
                help::widest_keys(rows, column.start, column.start + column.len),
                help::widest_text(rows, column.start, column.start + column.len),
            );
            &&& column.start == i * per
            &&& column.start < rows.len()
            &&& column.len == if rows.len() - column.start < per {
                rows.len() - column.start
            } else {
                per
            }
            &&& column.key_width == keys
            &&& keys + 2 + words <= usize::MAX ==> column.width == keys + 2 + words
            &&& i == 0 ==> column.x == 0
            &&& columns.len() == count || rows.len() <= columns.len() * per
        }),
{
    let per = help::rows_per_column(rows.len() as int, count, height);
    columns_from(rows, count, per, 0, 0, i);
    assert(0 + i * per == i * per);
}

proof fn columns_from(rows: Seq<RowModel>, left: int, per: int, start: int, x: int, i: int)
    requires
        per >= 1,
        start >= 0,
        left >= 0,
        0 <= i < help::packed_from(rows, left, per, start, x).len(),
    ensures
        ({
            let columns = help::packed_from(rows, left, per, start, x);
            let column = columns[i];
            let (keys, words) = (
                help::widest_keys(rows, column.start, column.start + column.len),
                help::widest_text(rows, column.start, column.start + column.len),
            );
            &&& column.start == start + i * per
            &&& column.start < rows.len()
            &&& column.len == if rows.len() - column.start < per {
                rows.len() - column.start
            } else {
                per
            }
            &&& column.key_width == keys
            &&& keys + 2 + words <= usize::MAX ==> column.width == keys + 2 + words
            &&& i == 0 ==> column.x == x
            &&& columns.len() == left || rows.len() <= start + columns.len() * per
        }),
    decreases left,
{
    let columns = help::packed_from(rows, left, per, start, x);
    let first = help::column_at(rows, start, help::smaller(per, rows.len() - start), x);
    let next = help::capped(help::capped(x + first.width) + help::GUTTER);
    let rest = help::packed_from(rows, left - 1, per, start + per, next);
    assert(columns == seq![first] + rest);
    help::widths_are_not_negative(rows, start, start + first.len);
    assert(0 * per == 0) by (nonlinear_arith);
    if i > 0 {
        columns_from(rows, left - 1, per, start + per, next, i - 1);
        assert(columns[i] == rest[i - 1]);
        assert(start + per + (i - 1) * per == start + i * per) by (nonlinear_arith);
    } else if rest.len() > 0 {
        columns_from(rows, left - 1, per, start + per, next, 0);
    }
    assert(start + per + rest.len() * per == start + (rest.len() + 1) * per) by (nonlinear_arith);
    if rest.len() == 0 {
        assert(rest.len() * per == 0) by (nonlinear_arith)
            requires
                rest.len() == 0,
        ;
    }
}

/// A number, or one where it is less.
pub open spec fn at_least_one(n: int) -> int {
    if n >= 1 {
        n
    } else {
        1
    }
}

/// Which columns are laid out: the most that fit the width, of no more than the
/// height calls for, and one where none fits.
pub proof fn which_columns_are_laid_out(rows: Seq<RowModel>, width: int, height: int)
    ensures
        ({
            let tall = at_least_one(height);
            let most = at_least_one(help::ceiling(rows.len() as int, tall));
            exists|count: int|
                {
                    &&& 1 <= count <= most
                    &&& help::layout_of(rows, width, height) == #[trigger] help::packed(
                        rows,
                        count,
                        tall,
                    )
                    &&& help::spanned(help::packed(rows, count, tall)) <= width || count == 1
                    &&& forall|more: int|
                        count < more <= most ==> help::spanned(
                            #[trigger] help::packed(rows, more, tall),
                        ) > width
                }
        }),
{
    let tall = at_least_one(height);
    let most = at_least_one(help::ceiling(rows.len() as int, tall));
    laid_out_from(rows, width, tall, most);
    let count = choose|count: int|
        {
            &&& 1 <= count <= most
            &&& help::laid_out(rows, width, tall, most) == #[trigger] help::packed(
                rows,
                count,
                tall,
            )
            &&& help::spanned(help::packed(rows, count, tall)) <= width || count == 1
            &&& forall|more: int|
                count < more <= most ==> help::spanned(
                    #[trigger] help::packed(rows, more, tall),
                ) > width
        };
    assert(help::layout_of(rows, width, height) == help::packed(rows, count, tall));
}

proof fn laid_out_from(rows: Seq<RowModel>, width: int, tall: int, most: int)
    requires
        most >= 1,
    ensures
        exists|count: int|
            {
                &&& 1 <= count <= most
                &&& help::laid_out(rows, width, tall, most) == #[trigger] help::packed(
                    rows,
                    count,
                    tall,
                )
                &&& help::spanned(help::packed(rows, count, tall)) <= width || count == 1
                &&& forall|more: int|
                    count < more <= most ==> help::spanned(
                        #[trigger] help::packed(rows, more, tall),
                    ) > width
            },
    decreases most,
{
    let laid = help::packed(rows, most, tall);
    if !(help::spanned(laid) <= width || most <= 1) {
        laid_out_from(rows, width, tall, most - 1);
        let count = choose|count: int|
            {
                &&& 1 <= count <= most - 1
                &&& help::laid_out(rows, width, tall, most - 1) == #[trigger] help::packed(
                    rows,
                    count,
                    tall,
                )
                &&& help::spanned(help::packed(rows, count, tall)) <= width || count == 1
                &&& forall|more: int|
                    count < more <= most - 1 ==> help::spanned(
                        #[trigger] help::packed(rows, more, tall),
                    ) > width
            };
        assert(help::laid_out(rows, width, tall, most) == help::packed(rows, count, tall));
        assert forall|more: int| count < more <= most implies help::spanned(
            #[trigger] help::packed(rows, more, tall),
        ) > width by {}
    } else {
        assert(help::laid_out(rows, width, tall, most) == help::packed(rows, most, tall));
    }
}

/// Columns reach as far as the last of them, hold as many rows as all of them,
/// and are as tall as the tallest.
pub proof fn what_columns_take_up(columns: Seq<ColumnModel>, column: ColumnModel, i: int)
    ensures
        help::spanned(Seq::empty()) == 0,
        column.x + column.width <= usize::MAX ==> help::spanned(columns.push(column)) == column.x
            + column.width,
        help::rows_held(Seq::empty()) == 0,
        help::rows_held(columns.push(column)) == help::rows_held(columns) + column.len,
        0 <= i < columns.len() ==> columns[i].len <= help::tallest(columns),
        help::tallest(columns) == 0 || exists|k: int|
            0 <= k < columns.len() && (#[trigger] columns[k]).len == help::tallest(columns),
    decreases columns.len(),
{
    assert(columns.push(column).drop_last() =~= columns);
    if columns.len() > 0 {
        let front = columns.drop_last();
        what_columns_take_up(front, column, i);
        if 0 <= i < front.len() {
            assert(front[i] == columns[i]);
        }
        if help::tallest(front) != 0 && help::tallest(columns) == help::tallest(front) {
            let k = choose|k: int|
                0 <= k < front.len() && (#[trigger] front[k]).len == help::tallest(front);
            assert(columns[k].len == help::tallest(columns));
        }
        if help::tallest(columns) == columns.last().len {
            assert(columns[columns.len() - 1].len == help::tallest(columns));
        }
    }
}

// ---------------------------------------------------------------------------
// The panel

/// The panel has room for the columns and a border on every side, or is as
/// large as the area where that is too small for them.
pub proof fn how_large_the_panel_is(area: Area, columns: Seq<ColumnModel>)
    requires
        help::spanned(columns) >= 0,
        help::tallest(columns) >= 0,
    ensures
        help::spanned(columns) + 2 <= area.width ==> help::panel_of(area, columns).width
            == help::spanned(columns) + 2,
        help::spanned(columns) + 2 > area.width ==> help::panel_of(area, columns).width
            == area.width,
        help::tallest(columns) + 2 <= area.height ==> help::panel_of(area, columns).height
            == help::tallest(columns) + 2,
        help::tallest(columns) + 2 > area.height ==> help::panel_of(area, columns).height
            == area.height,
{
}

/// The bottom border says how many rows are not shown, just where some are not.
pub proof fn what_the_bottom_border_says(area: Area, rows: Seq<RowModel>)
    ensures
        ({
            let outer = help::inside(area);
            let columns = help::layout_of(rows, outer.width as int, outer.height as int);
            let missing = rows.len() - help::rows_held(columns);
            &&& help::drawn(area, rows).panel == help::panel_of(area, columns)
            &&& missing > 0 ==> help::drawn(area, rows).bottom == Some(
                " "@ + text::decimal(missing as nat) + " more rows — see the README "@,
            )
            &&& missing <= 0 ==> help::drawn(area, rows).bottom is None
        }),
{
}

// ---------------------------------------------------------------------------
// Texts

/// Whether a label is one of the texts of a row: a title or keys at the start
/// of its column, or a description behind the widest keys and two blanks. Each
/// stands on the row's own line and has the room that is left of the panel.
pub open spec fn is_text_of(
    label: LabelModel,
    rows: Seq<RowModel>,
    inner: Area,
    column: ColumnModel,
    r: int,
) -> bool {
    let row = rows[column.start + r];
    let right = if inner.x + inner.width <= 65535 {
        inner.x + inner.width
    } else {
        65535
    };
    let x = inner.x + at_most(column.x);
    let behind = x + at_most(column.key_width + 2);
    &&& label.y == inner.y + at_most(r)
    &&& label.room == if label.x <= right {
        right - label.x
    } else {
        0
    }
    &&& match row {
        RowModel::Blank => false,
        RowModel::Heading(title) => label.x == x && label.text == title && label.face
            == Face::Heading,
        RowModel::Entry { keys, action } => {
            ||| label.x == x && label.text == keys && label.face == Face::Keys
            ||| label.x == behind && label.text == action && label.face == Face::Action
        },
    }
}

/// A number, or the largest coordinate of a screen.
pub open spec fn at_most(n: int) -> int {
    if n <= 65535 {
        n
    } else {
        65535
    }
}

/// How many texts a row has.
pub open spec fn texts_in(row: RowModel) -> int {
    match row {
        RowModel::Blank => 0,
        RowModel::Heading(_) => 1,
        RowModel::Entry { .. } => 2,
    }
}

/// How many texts the first `n` rows of a column have.
pub open spec fn texts_down_to(rows: Seq<RowModel>, column: ColumnModel, n: int) -> int
    decreases n,
{
    if n <= 0 {
        0
    } else {
        texts_down_to(rows, column, n - 1) + texts_in(rows[column.start + n - 1])
    }
}

/// How many texts the first `n` columns have.
pub open spec fn texts_across(rows: Seq<RowModel>, columns: Seq<ColumnModel>, n: int) -> int
    decreases n,
{
    if n <= 0 {
        0
    } else {
        texts_across(rows, columns, n - 1) + texts_down_to(
            rows,
            columns[n - 1],
            columns[n - 1].len,
        )
    }
}

proof fn counts_are_not_negative(
    rows: Seq<RowModel>,
    columns: Seq<ColumnModel>,
    column: ColumnModel,
    n: int,
)
    ensures
        texts_down_to(rows, column, n) >= 0,
        texts_across(rows, columns, n) >= 0,
    decreases n,
{
    if n > 0 {
        counts_are_not_negative(rows, columns, column, n - 1);
        counts_down(rows, columns[n - 1], columns[n - 1].len);
    }
}

proof fn counts_down(rows: Seq<RowModel>, column: ColumnModel, n: int)
    ensures
        texts_down_to(rows, column, n) >= 0,
    decreases n,
{
    if n > 0 {
        counts_down(rows, column, n - 1);
    }
}

proof fn texts_of_a_column(
    rows: Seq<RowModel>,
    inner: Area,
    column: ColumnModel,
    n: int,
    r: int,
    t: int,
)
    requires
        column.key_width + 2 <= usize::MAX,
        0 <= r < n,
        0 <= t < texts_in(rows[column.start + r]),
    ensures
        ({
            let labels = help::column_labels(rows, inner, column, n);
            let at = texts_down_to(rows, column, r) + t;
            &&& labels.len() == texts_down_to(rows, column, n)
            &&& 0 <= at < labels.len()
            &&& is_text_of(labels[at], rows, inner, column, r)
            &&& labels[at].face == if rows[column.start + r] is Heading {
                Face::Heading
            } else if t == 0 {
                Face::Keys
            } else {
                Face::Action
            }
        }),
    decreases n,
{
    counts_down(rows, column, r);
    let before = help::column_labels(rows, inner, column, n - 1);
    let own = help::row_labels(
        rows[column.start + n - 1],
        inner,
        column,
        inner.y + help::on_screen(n - 1),
    );
    let labels = help::column_labels(rows, inner, column, n);
    assert(labels == before + own);
    column_counts(rows, inner, column, n - 1);
    let at = texts_down_to(rows, column, r) + t;
    if r < n - 1 {
        texts_of_a_column(rows, inner, column, n - 1, r, t);
        assert(labels[at] == before[at]);
    } else {
        assert(labels[at] == own[t]);
    }
}

proof fn column_counts(rows: Seq<RowModel>, inner: Area, column: ColumnModel, n: int)
    ensures
        help::column_labels(rows, inner, column, n).len() == texts_down_to(rows, column, n),
    decreases n,
{
    if n > 0 {
        column_counts(rows, inner, column, n - 1);
    }
}

proof fn all_counts(rows: Seq<RowModel>, inner: Area, columns: Seq<ColumnModel>, n: int)
    ensures
        help::all_labels(rows, inner, columns, n).len() == texts_across(rows, columns, n),
    decreases n,
{
    if n > 0 {
        all_counts(rows, inner, columns, n - 1);
        column_counts(rows, inner, columns[n - 1], columns[n - 1].len);
    }
}

/// Where every text of the overlay stands: column by column, in each row by
/// row, and in a row its title, or its keys and then its description. Nothing
/// else is drawn.
pub proof fn where_texts_stand(
    rows: Seq<RowModel>,
    inner: Area,
    columns: Seq<ColumnModel>,
    n: int,
    c: int,
    r: int,
    t: int,
)
    requires
        0 <= c < n <= columns.len(),
        columns[c].key_width + 2 <= usize::MAX,
        0 <= r < columns[c].len,
        0 <= t < texts_in(rows[columns[c].start + r]),
    ensures
        ({
            let labels = help::all_labels(rows, inner, columns, n);
            let at = texts_across(rows, columns, c) + texts_down_to(rows, columns[c], r) + t;
            &&& labels.len() == texts_across(rows, columns, n)
            &&& 0 <= at < labels.len()
            &&& is_text_of(labels[at], rows, inner, columns[c], r)
            &&& labels[at].face == if rows[columns[c].start + r] is Heading {
                Face::Heading
            } else if t == 0 {
                Face::Keys
            } else {
                Face::Action
            }
        }),
    decreases n,
{
    counts_are_not_negative(rows, columns, columns[c], c);
    counts_down(rows, columns[c], r);
    all_counts(rows, inner, columns, n);
    all_counts(rows, inner, columns, n - 1);
    let before = help::all_labels(rows, inner, columns, n - 1);
    let own = help::column_labels(rows, inner, columns[n - 1], columns[n - 1].len);
    let labels = help::all_labels(rows, inner, columns, n);
    assert(labels == before + own);
    let at = texts_across(rows, columns, c) + texts_down_to(rows, columns[c], r) + t;
    if c < n - 1 {
        where_texts_stand(rows, inner, columns, n - 1, c, r, t);
        assert(labels[at] == before[at]);
    } else {
        texts_of_a_column(rows, inner, columns[c], columns[c].len, r, t);
        assert(labels[at] == own[texts_down_to(rows, columns[c], r) + t]);
    }
}

/// The texts of the overlay are those of the columns that are laid out, in what
/// the border leaves of the panel.
pub proof fn what_is_drawn(area: Area, rows: Seq<RowModel>)
    ensures
        ({
            let outer = help::inside(area);
            let columns = help::layout_of(rows, outer.width as int, outer.height as int);
            help::drawn(area, rows).labels == help::all_labels(
                rows,
                help::inside(help::panel_of(area, columns)),
                columns,
                columns.len() as int,
            )
        }),
{
}

/// Columns stand from left to right: each ends before the last one does.
proof fn columns_end_in_order(rows: Seq<RowModel>, count: int, height: int, i: int, last: int)
    requires
        count >= 1,
        height >= 1,
        0 <= i <= last < help::packed(rows, count, height).len(),
        help::packed(rows, count, height)[last].x < usize::MAX,
    ensures
        help::packed(rows, count, height)[i].x >= 0,
        help::packed(rows, count, height)[i].width >= 0,
        help::packed(rows, count, height)[i].x + help::packed(rows, count, height)[i].width
            <= help::packed(rows, count, height)[last].x + help::packed(
            rows,
            count,
            height,
        )[last].width,
        help::packed(rows, count, height)[i].x < usize::MAX,
    decreases last - i,
{
    let columns = help::packed(rows, count, height);
    let per = help::rows_per_column(rows.len() as int, count, height);
    help::packing_from(rows, count, per, 0, 0);
    assert(columns[i].x >= 0);
    assert(columns[last].width >= 0);
    if i < last {
        columns_end_in_order(rows, count, height, i + 1, last);
        help::columns_stand_side_by_side(rows, count, height, i);
    }
}

/// An overlay whose columns fit what the border leaves of an area, and whose
/// area is on the screen, can be drawn.
pub proof fn which_overlays_can_be_drawn(area: Area, rows: Seq<RowModel>)
    requires
        area.x + area.width <= 65535,
        area.y + area.height <= 65535,
        area.width >= 2,
        area.height >= 3,
        rows.len() <= 65535,
        help::spanned(
            help::layout_of(
                rows,
                help::inside(area).width as int,
                help::inside(area).height as int,
            ),
        ) <= help::inside(area).width,
    ensures
        help::drawable(area, rows),
{
    let outer = help::inside(area);
    let columns = help::layout_of(rows, outer.width as int, outer.height as int);
    let panel = help::panel_of(area, columns);
    let inner = help::inside(panel);
    let tall = at_least_one(outer.height as int);
    let most = at_least_one(help::ceiling(rows.len() as int, tall));
    which_columns_are_laid_out(rows, outer.width as int, outer.height as int);
    help::the_layout_holds_rows(rows, outer.width as int, outer.height as int);
    help::spans_are_not_negative(rows, outer.width as int, outer.height as int);
    let count = choose|count: int|
        {
            &&& 1 <= count <= most
            &&& columns == #[trigger] help::packed(rows, count, tall)
            &&& help::spanned(help::packed(rows, count, tall)) <= outer.width || count == 1
            &&& forall|more: int|
                count < more <= most ==> help::spanned(#[trigger] help::packed(rows, more, tall))
                    > outer.width
        };
    assert(columns == help::packed(rows, count, tall));
    tallest_is_a_column(columns, outer.height as int);
    how_large_the_panel_is(area, columns);
    assert(help::panel_fits(area, columns));
    assert forall|i: int| 0 <= i < columns.len() implies help::column_fits(
        inner,
        #[trigger] columns[i],
    ) by {
        let last = columns.len() - 1;
        help::packing_from(
            rows,
            count,
            help::rows_per_column(rows.len() as int, count, tall),
            0,
            0,
        );
        assert(columns[last].x >= 0 && columns[last].width >= 0);
        assert(columns[last].x + columns[last].width <= outer.width);
        columns_end_in_order(rows, count, tall, i, last);
        what_columns_are(rows, count, tall, i);
        let column = columns[i];
        help::widths_are_not_negative(rows, column.start, column.start + column.len);
        a_column_is_as_wide_as_its_keys(rows, count, tall, i);
        assert(column.x + column.key_width + 2 <= outer.width);
        what_columns_take_up(columns, column, i);
        assert(column.len <= help::tallest(columns));
    }
}

proof fn tallest_is_a_column(columns: Seq<ColumnModel>, height: int)
    requires
        height >= 0,
        forall|i: int| 0 <= i < columns.len() ==> (#[trigger] columns[i]).len <= height,
    ensures
        help::tallest(columns) <= height,
    decreases columns.len(),
{
    if columns.len() > 0 {
        let front = columns.drop_last();
        assert forall|i: int| 0 <= i < front.len() implies (#[trigger] front[i]).len <= height by {
            assert(front[i] == columns[i]);
        }
        tallest_is_a_column(front, height);
        assert(columns[columns.len() - 1].len <= height);
    }
}

proof fn a_column_is_as_wide_as_its_keys(rows: Seq<RowModel>, count: int, height: int, i: int)
    requires
        count >= 1,
        height >= 1,
        0 <= i < help::packed(rows, count, height).len(),
        help::packed(rows, count, height)[i].width < usize::MAX,
    ensures
        help::packed(rows, count, height)[i].key_width + 2 <= help::packed(
            rows,
            count,
            height,
        )[i].width,
{
    let per = help::rows_per_column(rows.len() as int, count, height);
    width_from(rows, count, per, 0, 0, i);
}

proof fn width_from(rows: Seq<RowModel>, left: int, per: int, start: int, x: int, i: int)
    requires
        0 <= i < help::packed_from(rows, left, per, start, x).len(),
        help::packed_from(rows, left, per, start, x)[i].width < usize::MAX,
    ensures
        help::packed_from(rows, left, per, start, x)[i].key_width + 2 <= help::packed_from(
            rows,
            left,
            per,
            start,
            x,
        )[i].width,
    decreases left,
{
    let columns = help::packed_from(rows, left, per, start, x);
    let first = help::column_at(rows, start, help::smaller(per, rows.len() - start), x);
    let next = help::capped(help::capped(x + first.width) + help::GUTTER);
    let rest = help::packed_from(rows, left - 1, per, start + per, next);
    assert(columns == seq![first] + rest);
    help::widths_are_not_negative(rows, start, start + first.len);
    if i > 0 {
        assert(columns[i] == rest[i - 1]);
        width_from(rows, left - 1, per, start + per, next, i - 1);
    }
}

} // verus!
