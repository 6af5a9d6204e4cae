//! What is drawn of the keys, whatever is asked for.

use crate::help;
use crate::help::{Area, Binding, Column, Overlay, Row};
use crate::keymap;
use crate::keymap::Keymap;
use crate::overlay_laws;
use crate::text;
use vstd::prelude::*;

verus! {

/// The keys of a row are those of the keymap, and its lines are those of the
/// table under it, against the keys that the actions come with.
pub proof fn which_keys_are_shown(
    binding: Binding,
    keymap: Keymap,
    defaults: Keymap,
    keys: String,
    rows: Vec<Row>,
)
    requires
        call_ensures(help::keys_for, (&binding, &keymap, &defaults), keys),
        call_ensures(help::rows, (&keymap,), rows),
    ensures
        keys@ == help::row_keys(binding@, keymap@, defaults@),
        help::row_models(rows@) == help::overlay_rows(
            help::table(),
            keymap@,
            keymap::default_labels(),
            8,
        ),
{
}

/// Columns that rows are packed into, and what they hold.
pub proof fn what_packing_gives(
    rows: Vec<Row>,
    count: usize,
    height: usize,
    columns: Vec<Column>,
    held: usize,
    i: int,
)
    requires
        count > 0,
        height > 0,
        call_ensures(help::pack, (&rows, count, height), columns),
        call_ensures(help::shown, (&columns,), held),
        0 <= i < columns@.len(),
    ensures
        columns@.len() <= count,
        held <= rows@.len(),
        ({
            let models = help::row_models(rows@);
            let per = help::rows_per_column(models.len() as int, count as int, height as int);
            let column = columns@[i];
            let keys = help::widest_keys(models, column.start as int, column.start + column.len);
            let words = help::widest_text(models, column.start as int, column.start + column.len);
            &&& column.start == i * per
            &&& column.len <= per <= height
            &&& column.key_width == keys
            &&& keys + 2 + words <= usize::MAX ==> column.width == keys + 2 + words
        }),
{
    let models = help::row_models(rows@);
    let packed = help::column_models(columns@);
    assert(models.len() == rows@.len());
    assert(rows@.len() == rows.len());
    assert(packed.len() == columns@.len());
    assert(packed[i] == columns@[i]@);
    overlay_laws::what_columns_are(models, count as int, height as int, i);
    overlay_laws::how_tall_columns_are(models.len() as int, count as int, height as int);
    help::columns_hold_the_rows_in_order(models, count as int, height as int);
}

/// The overlay in an area: its panel, what its border says and its texts.
pub proof fn what_drawing_gives(area: Area, rows: Vec<Row>, overlay: Overlay)
    requires
        call_ensures(help::draw, (area, &rows), overlay),
    ensures
        ({
            let models = help::row_models(rows@);
            let outer = help::inside(area);
            let columns = help::layout_of(models, outer.width as int, outer.height as int);
            let missing = rows@.len() - help::rows_held(columns);
            &&& overlay.panel == help::panel_of(area, columns)
            &&& missing > 0 <==> overlay.bottom is Some
            &&& missing > 0 ==> overlay.bottom->Some_0@ == " "@ + text::decimal(missing as nat)
                + " more rows — see the README "@
            &&& help::label_models(overlay.labels@) == help::all_labels(
                models,
                help::inside(help::panel_of(area, columns)),
                columns,
                columns.len() as int,
            )
        }),
{
    let models = help::row_models(rows@);
    assert(models.len() == rows@.len());
    overlay_laws::what_the_bottom_border_says(area, models);
}

} // verus!
