//! Which keys a row of the overlay shows, and where its lines stand.

use crate::help;
use crate::help::{BindingModel, RowModel, SectionModel};
use crate::keymap;
use crate::keymap::KeymapModel;
use vstd::prelude::*;

verus! {

/// How many lines the first `n` sections have: a title, their rows, and a blank
/// line behind them.
pub open spec fn lines_of(sections: Seq<SectionModel>, n: int) -> int
    decreases n,
{
    if n <= 0 {
        0
    } else {
        lines_of(sections, n - 1) + sections[n - 1].bindings.len() + 2
    }
}

/// Where lines stand in the overlay: every section has its title, behind it its
/// rows in order, each with its keys and its description, and a blank line
/// before the next title.
pub proof fn where_lines_stand(
    sections: Seq<SectionModel>,
    keymap: KeymapModel,
    defaults: KeymapModel,
    n: int,
    s: int,
    i: int,
)
    requires
        0 <= s < n <= sections.len(),
        0 <= i,
    ensures
        ({
            let rows = help::overlay_rows(sections, keymap, defaults, n);
            let at = lines_of(sections, s);
            &&& rows.len() == lines_of(sections, n) - 1
            &&& 0 <= at < rows.len()
            &&& rows[at] == RowModel::Heading(sections[s].title)
            &&& s > 0 ==> rows[at - 1] is Blank
            &&& i < sections[s].bindings.len() ==> {
                &&& at + 1 + i < rows.len()
                &&& rows[at + 1 + i] == (RowModel::Entry {
                    keys: help::row_keys(sections[s].bindings[i], keymap, defaults),
                    action: sections[s].bindings[i].action,
                })
            }
        }),
    decreases n,
{
    lines_grow(sections, s);
    if n > 1 {
        if s < n - 1 {
            where_lines_stand(sections, keymap, defaults, n - 1, s, i);
        } else {
            where_lines_stand(sections, keymap, defaults, n - 1, 0, 0);
        }
    } else {
        assert(help::overlay_rows(sections, keymap, defaults, 0) =~= Seq::empty());
    }
    let rows = help::overlay_rows(sections, keymap, defaults, n);
    let above = help::overlay_rows(sections, keymap, defaults, n - 1);
    let title = RowModel::Heading(sections[n - 1].title);
    let gap: Seq<RowModel> = if n > 1 {
        seq![RowModel::Blank]
    } else {
        Seq::empty()
    };
    let own = help::entries(sections[n - 1].bindings, keymap, defaults);
    assert(rows == above + gap + seq![title] + own);
    if s == n - 1 {
        assert(lines_of(sections, s) == above.len() + gap.len());
        if s > 0 {
            assert(rows[above.len() as int] == gap[0]);
        }
        assert(rows[(above.len() + gap.len()) as int] == title);
        if i < sections[s].bindings.len() {
            assert(rows[lines_of(sections, s) + 1 + i] == own[i]);
        }
    } else {
        let at = lines_of(sections, s);
        assert(rows[at] == above[at]);
        if s > 0 {
            lines_grow(sections, s - 1);
            assert(rows[at - 1] == above[at - 1]);
        }
        if i < sections[s].bindings.len() {
            assert(rows[at + 1 + i] == above[at + 1 + i]);
        }
    }
}

proof fn lines_grow(sections: Seq<SectionModel>, n: int)
    ensures
        0 <= lines_of(sections, n),
    decreases n,
{
    if n > 0 {
        lines_grow(sections, n - 1);
    }
}

// ---------------------------------------------------------------------------
// The keys in force

proof fn place_is_the_first(labels: Seq<Seq<char>>, key: Seq<char>, from: int)
    requires
        0 <= from <= labels.len(),
    ensures
        help::place_of(labels, key, from) matches Some(place) ==> {
            &&& from <= place < labels.len()
            &&& labels[place] == key
            &&& forall|i: int| from <= i < place ==> #[trigger] labels[i] != key
        },
        help::place_of(labels, key, from) is None ==> forall|i: int|
            from <= i < labels.len() ==> #[trigger] labels[i] != key,
    decreases labels.len() - from,
{
    if from < labels.len() && labels[from] != key {
        place_is_the_first(labels, key, from + 1);
    }
}

/// Whether a key is among those that an action comes with, at that place.
pub open spec fn reaches_at(
    key: Seq<char>,
    name: Seq<char>,
    defaults: KeymapModel,
    place: int,
) -> bool {
    &&& keymap::action_of(name) is Some
    &&& 0 <= place < defaults[keymap::action_of(name)->Some_0].len()
    &&& defaults[keymap::action_of(name)->Some_0][place] == key
    &&& forall|i: int|
        0 <= i < place ==> #[trigger] defaults[keymap::action_of(name)->Some_0][i] != key
}

proof fn a_claim_is_a_place(key: Seq<char>, name: Seq<char>, defaults: KeymapModel)
    ensures
        help::claim(key, name, defaults) matches Some(place) ==> reaches_at(
            key,
            name,
            defaults,
            place,
        ),
        forall|place: int| #[trigger]
            reaches_at(key, name, defaults, place) ==> help::claim(key, name, defaults) == Some(
                place,
            ),
{
    if keymap::action_of(name) is Some {
        let labels = defaults[keymap::action_of(name)->Some_0];
        place_is_the_first(labels, key, 0);
        assert forall|place: int| #[trigger] reaches_at(key, name, defaults, place) implies help::claim(
            key,
            name,
            defaults,
        ) == Some(place) by {
            if let Some(found) = help::claim(key, name, defaults) {
                if found < place {
                    assert(labels[found] != key);
                }
                if place < found {
                    assert(labels[place] != key);
                }
            } else {
                assert(labels[place] != key);
            }
        }
    }
}

/// Whether a label stands in place of a key of a row: it is what the keymap has
/// at the place where the key stood for one of the row's actions; or it is the
/// key, and the key stood for none of them.
pub open spec fn stands_for(
    label: Seq<char>,
    key: Seq<char>,
    names: Seq<Seq<char>>,
    keymap: KeymapModel,
    defaults: KeymapModel,
) -> bool {
    ||| exists|i: int, place: int|
        {
            &&& 0 <= i < names.len()
            &&& #[trigger] reaches_at(key, names[i], defaults, place)
            &&& place < keymap[keymap::action_of(names[i])->Some_0].len()
            &&& label == keymap[keymap::action_of(names[i])->Some_0][place]
        }
    ||| label == key && forall|i: int, place: int|
        0 <= i < names.len() ==> !(#[trigger] reaches_at(key, names[i], defaults, place))
}

proof fn found_are_those(
    key: Seq<char>,
    names: Seq<Seq<char>>,
    keymap: KeymapModel,
    defaults: KeymapModel,
    n: int,
    label: Seq<char>,
)
    requires
        0 <= n <= names.len(),
    ensures
        help::found_for(key, names, keymap, defaults, n).contains(label) <==> exists|
            i: int,
            place: int,
        |
            {
                &&& 0 <= i < n
                &&& #[trigger] reaches_at(key, names[i], defaults, place)
                &&& place < keymap[keymap::action_of(names[i])->Some_0].len()
                &&& label == keymap[keymap::action_of(names[i])->Some_0][place]
            },
    decreases n,
{
    if n > 0 {
        found_are_those(key, names, keymap, defaults, n - 1, label);
        a_claim_is_a_place(key, names[n - 1], defaults);
        let before = help::found_for(key, names, keymap, defaults, n - 1);
        let all = help::found_for(key, names, keymap, defaults, n);
        if before.contains(label) {
            let k = choose|k: int| 0 <= k < before.len() && before[k] == label;
            assert(all[k] == label);
        }
        if all.contains(label) && !before.contains(label) {
            let k = choose|k: int| 0 <= k < all.len() && all[k] == label;
            if k < before.len() {
                assert(before[k] == label);
            }
            let place = help::claim(key, names[n - 1], defaults)->Some_0;
            assert(reaches_at(key, names[n - 1], defaults, place));
        }
        if exists|i: int, place: int|
            {
                &&& 0 <= i < n
                &&& #[trigger] reaches_at(key, names[i], defaults, place)
                &&& place < keymap[keymap::action_of(names[i])->Some_0].len()
                &&& label == keymap[keymap::action_of(names[i])->Some_0][place]
            } {
            let (i, place) = choose|i: int, place: int|
                {
                    &&& 0 <= i < n
                    &&& #[trigger] reaches_at(key, names[i], defaults, place)
                    &&& place < keymap[keymap::action_of(names[i])->Some_0].len()
                    &&& label == keymap[keymap::action_of(names[i])->Some_0][place]
                };
            if i == n - 1 {
                assert(help::claim(key, names[n - 1], defaults) == Some(place));
                assert(all[before.len() as int] == label);
            } else {
                assert(before.contains(label));
            }
        }
    } else {
        assert(help::found_for(key, names, keymap, defaults, n) =~= Seq::empty());
    }
}

proof fn replacements_are_those(
    key: Seq<char>,
    names: Seq<Seq<char>>,
    keymap: KeymapModel,
    defaults: KeymapModel,
    label: Seq<char>,
)
    ensures
        help::replaced(key, names, keymap, defaults).contains(label) <==> stands_for(
            label,
            key,
            names,
            keymap,
            defaults,
        ),
{
    let n = names.len() as int;
    found_are_those(key, names, keymap, defaults, n, label);
    if help::claimed(key, names, defaults, n) {
        let i = choose|i: int| 0 <= i < n && #[trigger] help::claim(key, names[i], defaults) is Some;
        a_claim_is_a_place(key, names[i], defaults);
        assert(reaches_at(key, names[i], defaults, help::claim(key, names[i], defaults)->Some_0));
    } else {
        assert forall|i: int, place: int| 0 <= i < n implies !(#[trigger] reaches_at(
            key,
            names[i],
            defaults,
            place,
        )) by {
            a_claim_is_a_place(key, names[i], defaults);
            if reaches_at(key, names[i], defaults, place) {
                assert(help::claim(key, names[i], defaults) is Some);
            }
        }
        assert(seq![key][0] == key);
        assert(help::replaced(key, names, keymap, defaults).contains(label) <==> label == key);
    }
}

proof fn new_ones_are_added(shown: Seq<Seq<char>>, more: Seq<Seq<char>>, n: int, label: Seq<char>)
    requires
        0 <= n <= more.len(),
        shown.no_duplicates(),
    ensures
        ({
            let all = help::with_new(shown, more, n);
            &&& all.contains(label) <==> shown.contains(label) || more.take(n).contains(label)
            &&& all.no_duplicates()
            &&& all.len() >= shown.len()
            &&& all.take(shown.len() as int) == shown
        }),
    decreases n,
{
    let all = help::with_new(shown, more, n);
    if n > 0 {
        new_ones_are_added(shown, more, n - 1, label);
        let before = help::with_new(shown, more, n - 1);
        let last = more[n - 1];
        assert(more.take(n) =~= more.take(n - 1).push(last));
        if more.take(n - 1).contains(label) {
            let k = choose|k: int| 0 <= k < n - 1 && #[trigger] more.take(n - 1)[k] == label;
            assert(more.take(n)[k] == label);
        }
        if more.take(n).contains(label) {
            let k = choose|k: int| 0 <= k < n && #[trigger] more.take(n)[k] == label;
            if k < n - 1 {
                assert(more.take(n - 1)[k] == label);
            }
        }
        assert(more.take(n)[n - 1] == last);
        if before.contains(label) {
            let k = choose|k: int| 0 <= k < before.len() && before[k] == label;
            assert(all[k] == label);
        }
        if all.contains(label) {
            let k = choose|k: int| 0 <= k < all.len() && all[k] == label;
            if k < before.len() {
                assert(before[k] == label);
            }
        }
        if !before.contains(last) {
            assert(all[before.len() as int] == last);
            assert forall|i: int, j: int| 0 <= i < all.len() && 0 <= j < all.len() && i
                != j implies all[i] != all[j] by {
                if i < before.len() && j < before.len() {
                    assert(before[i] != before[j]);
                } else if i < before.len() {
                    assert(before.contains(before[i]));
                } else {
                    assert(before.contains(before[j]));
                }
            }
        }
        assert(all.take(shown.len() as int) =~= before.take(shown.len() as int));
    } else {
        assert(all.take(shown.len() as int) =~= shown);
        assert(more.take(0) =~= Seq::empty());
    }
}

/// The labels that the first keys of a row show: just those that stand for one
/// of the keys, each once, and those of a key behind those of the keys before
/// it.
pub proof fn which_labels_a_row_shows(
    row: BindingModel,
    keymap: KeymapModel,
    defaults: KeymapModel,
    n: int,
    label: Seq<char>,
)
    requires
        0 <= n <= row.keys.len(),
    ensures
        ({
            let shown = help::shown_labels(row, keymap, defaults, n);
            &&& shown.contains(label) <==> exists|k: int|
                0 <= k < n && stands_for(
                    label,
                    #[trigger] row.keys[k],
                    row.names,
                    keymap,
                    defaults,
                )
            &&& shown.no_duplicates()
            &&& n > 0 ==> {
                let before = help::shown_labels(row, keymap, defaults, n - 1);
                before.len() <= shown.len() && shown.take(before.len() as int) == before
            }
        }),
    decreases n,
{
    if n > 0 {
        which_labels_a_row_shows(row, keymap, defaults, n - 1, label);
        let before = help::shown_labels(row, keymap, defaults, n - 1);
        let more = help::replaced(row.keys[n - 1], row.names, keymap, defaults);
        replacements_are_those(row.keys[n - 1], row.names, keymap, defaults, label);
        new_ones_are_added(before, more, more.len() as int, label);
        assert(more.take(more.len() as int) =~= more);
    } else {
        assert(help::shown_labels(row, keymap, defaults, 0) =~= Seq::empty());
    }
}

/// The labels of a row stand in one line with a slash between each two. A row
/// that has actions and no label left says that it is unbound; one that has no
/// actions shows its own.
pub proof fn how_labels_are_listed(
    row: BindingModel,
    keymap: KeymapModel,
    defaults: KeymapModel,
    first: Seq<Seq<char>>,
    second: Seq<Seq<char>>,
    label: Seq<char>,
)
    requires
        first.len() > 0,
        second.len() > 0,
    ensures
        help::listed(seq![label]) == label,
        help::listed(first + second) == help::listed(first) + " / "@ + help::listed(second),
        ({
            let shown = help::shown_labels(row, keymap, defaults, row.keys.len() as int);
            &&& row.names.len() == 0 ==> help::row_keys(row, keymap, defaults) == help::listed(
                row.keys,
            )
            &&& row.names.len() > 0 && shown.len() == 0 ==> help::row_keys(row, keymap, defaults)
                == "unbound"@
            &&& row.names.len() > 0 && shown.len() > 0 ==> help::row_keys(row, keymap, defaults)
                == help::listed(shown)
        }),
    decreases second.len(),
{
    assert((first + second).drop_last() =~= first + second.drop_last());
    if second.len() > 1 {
        how_labels_are_listed(row, keymap, defaults, first, second.drop_last(), label);
    } else {
        assert(first + second.drop_last() =~= first);
    }
    assert(help::listed(first + second) =~= help::listed(first) + " / "@ + help::listed(second));
}

} // verus!
