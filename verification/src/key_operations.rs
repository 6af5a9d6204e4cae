//! What key bindings, names and texts come to, whatever is asked for.

use crate::fixtures;
use crate::fixtures::Registry;
use crate::help;
use crate::help::KeyModel;
use crate::key_laws;
use crate::keymap;
use crate::keymap::{Key, KeyCode, Keymap, KeymapConfig, KeymapError};
use crate::settings_laws;
use crate::syntax::{Kind, KindSet};
use crate::text;
use crate::text_laws;
use vstd::prelude::*;

verus! {

// ---------------------------------------------------------------------------
// Keys

/// A label is readable just where it documents a key, and a pressed key is one
/// of a label's just where the label documents it and has its modifiers.
pub proof fn which_keys_labels_match(
    label: &str,
    keys: Vec<help::Key>,
    readable: bool,
    key: Key,
    matched: bool,
)
    requires
        call_ensures(help::keys_for_label, (label,), keys),
        call_ensures(help::label_is_readable, (label,), readable),
        call_ensures(help::label_matches, (label, key), matched),
    ensures
        readable <==> keys@.len() > 0,
        matched <==> {
            &&& key.ctrl <==> label@.len() >= 5 && label@.take(5) == "Ctrl-"@
            &&& key.alt <==> label@.len() >= 4 && label@.take(4) == "Alt-"@
            &&& exists|i: int|
                0 <= i < keys@.len() && match (#[trigger] keys@[i])@ {
                    KeyModel::Char(c) => key.code == KeyCode::Char(c),
                    KeyModel::Named(name) => help::is_named(name, key.code),
                }
        },
{
    key_laws::which_keys_a_label_names(label@, key);
    let models = help::key_models(keys@);
    assert(models == help::documented(label@));
    assert(models.len() == keys@.len());
    if exists|i: int|
        0 <= i < keys@.len() && match (#[trigger] keys@[i])@ {
            KeyModel::Char(c) => key.code == KeyCode::Char(c),
            KeyModel::Named(name) => help::is_named(name, key.code),
        } {
        let i = choose|i: int|
            0 <= i < keys@.len() && match (#[trigger] keys@[i])@ {
                KeyModel::Char(c) => key.code == KeyCode::Char(c),
                KeyModel::Named(name) => help::is_named(name, key.code),
            };
        assert(help::documented(label@)[i] == keys@[i]@);
    }
    if exists|i: int|
        0 <= i < help::documented(label@).len() && match #[trigger] help::documented(label@)[i] {
            KeyModel::Char(c) => key.code == KeyCode::Char(c),
            KeyModel::Named(name) => help::is_named(name, key.code),
        } {
        let i = choose|i: int|
            0 <= i < help::documented(label@).len() && match #[trigger] help::documented(
                label@,
            )[i] {
                KeyModel::Char(c) => key.code == KeyCode::Char(c),
                KeyModel::Named(name) => help::is_named(name, key.code),
            };
        assert(help::documented(label@)[i] == keys@[i]@);
    }
}

/// The keys of an action are those of the last line that names it, or its own.
pub proof fn which_keys_are_bound(
    config: KeymapConfig,
    keymap: Result<Keymap, KeymapError>,
    labels: &Vec<String>,
    action: usize,
    last: int,
)
    requires
        call_ensures(Keymap::new, (&config,), keymap),
        action < keymap::ACTION_COUNT,
        keymap is Ok ==> call_ensures(Keymap::labels_for, (&keymap->Ok_0, action), labels),
        forall|i: int|
            0 <= i < action ==> keymap::ACTIONS[action as int].0@
                != (#[trigger] keymap::ACTIONS[i]).0@,
        -1 <= last < config.bindings@.len(),
        last >= 0 ==> config.bindings@[last].0@ == keymap::ACTIONS[action as int].0@,
        forall|i: int|
            last < i < config.bindings@.len() ==> (#[trigger] config.bindings@[i]).0@
                != keymap::ACTIONS[action as int].0@,
    ensures
        keymap is Ok <==> forall|i: int|
            0 <= i < config.bindings@.len() ==> settings_laws::can_be_bound(
                #[trigger] keymap::lines_of(config.bindings@)[i],
            ),
        keymap is Ok ==> text::texts(labels@) == if last >= 0 {
            text::texts(config.bindings@[last].1@)
        } else {
            keymap::filled(keymap::ACTIONS[action as int].1@)
        },
{
    let lines = keymap::lines_of(config.bindings@);
    assert forall|i: int| last < i < lines.len() implies (#[trigger] lines[i]).0
        != keymap::ACTIONS[action as int].0@ by {
        assert(lines[i].0 == config.bindings@[i].0@);
    }
    settings_laws::which_keys_reach_an_action(
        lines,
        config.bindings@.len(),
        action as int,
        last,
    );
}

/// An action goes by its name.
pub proof fn which_action_is_named(name: &str, action: Option<usize>, i: int)
    requires
        call_ensures(keymap::action_named, (name,), action),
        0 <= i < keymap::ACTION_COUNT,
    ensures
        action is None ==> keymap::ACTIONS[i].0@ != name@,
        action is Some ==> action->Some_0 < keymap::ACTION_COUNT && keymap::ACTIONS[
        action->Some_0 as int].0@ == name@,
        action is Some && i < action->Some_0 ==> keymap::ACTIONS[i].0@ != name@,
{
    settings_laws::which_action_a_name_means(name@);
}

// ---------------------------------------------------------------------------
// Names of fixtures

/// A name is taken just where it was claimed in some spelling of its case, and
/// what is claimed is taken behind it.
pub proof fn which_names_are_taken(
    registry: &mut Registry,
    name: &str,
    other: &str,
    taken: bool,
)
    requires
        call_ensures(Registry::claim, (registry, name), ()),
        call_ensures(Registry::is_claimed, (old(registry), other), taken),
    ensures
        taken <==> exists|i: int|
            0 <= i < old(registry)@.len() && fixtures::same_name(
                #[trigger] old(registry)@[i],
                other@,
            ),
        final(registry)@.len() == old(registry)@.len() + 1,
        final(registry)@.last() == name@,
        forall|i: int|
            0 <= i < old(registry)@.len() ==> #[trigger] final(registry)@[i] == old(registry)@[i],
{
}

// ---------------------------------------------------------------------------
// Kinds

/// A set of kinds holds those that it was made of.
pub proof fn which_kinds_are_held(kinds: &[Kind], set: KindSet, kind: Kind, yes: bool)
    requires
        call_ensures(KindSet::of, (kinds,), set),
        call_ensures(KindSet::contains, (set, kind), yes),
    ensures
        yes <==> exists|i: int| 0 <= i < kinds@.len() && #[trigger] kinds@[i] == kind,
{
    if yes {
        assert(set.has(kind));
        assert(kinds@.contains(kind));
        let i = choose|i: int| 0 <= i < kinds@.len() && kinds@[i] == kind;
        assert(kinds@[i] == kind);
    }
    if exists|i: int| 0 <= i < kinds@.len() && #[trigger] kinds@[i] == kind {
        assert(kinds@.contains(kind));
        assert(set.has(kind));
    }
}

// ---------------------------------------------------------------------------
// Texts

/// Texts are compared as in a dictionary, and a number is written in decimal.
pub proof fn how_texts_compare(left: &str, right: &str, less: bool, n: usize, digits: String)
    requires
        call_ensures(text::comes_before, (left, right), less),
        call_ensures(text::decimal_of, (n,), digits),
    ensures
        less <==> exists|at: int| #[trigger] text_laws::smaller_at(left@, right@, at),
        text_laws::number_of(digits@) == n,
        n > 0 ==> digits@[0] != '0',
{
    text_laws::texts_stand_as_in_a_dictionary(left@, right@);
    text_laws::numbers_are_written_in_decimal(n as nat);
}

/// What is asked of a text.
pub proof fn what_texts_hold(
    whole: &str,
    c: char,
    part: &str,
    has: bool,
    spaced: bool,
    blank: bool,
    head: bool,
    tail: bool,
)
    requires
        call_ensures(text::has_char, (whole, c), has),
        call_ensures(text::is_spaced, (whole,), spaced),
        call_ensures(text::is_blank, (whole,), blank),
        call_ensures(text::has_head, (whole, part), head),
        call_ensures(text::has_tail, (whole, part), tail),
    ensures
        has <==> exists|i: int| 0 <= i < whole@.len() && #[trigger] whole@[i] == c,
        spaced <==> exists|i: int| 0 <= i < whole@.len() && text::whitespace(#[trigger] whole@[i]),
        blank <==> forall|i: int| 0 <= i < whole@.len() ==> text::whitespace(#[trigger] whole@[i]),
        head <==> part@.len() <= whole@.len() && forall|i: int|
            0 <= i < part@.len() ==> #[trigger] part@[i] == whole@[i],
        tail <==> part@.len() <= whole@.len() && forall|i: int|
            0 <= i < part@.len() ==> #[trigger] part@[i] == whole@[whole@.len() - part@.len() + i],
{
    if has {
        let i = choose|i: int| 0 <= i < whole@.len() && whole@[i] == c;
        assert(whole@[i] == c);
    }
    if part@.len() <= whole@.len() {
        let front = whole@.take(part@.len() as int);
        let back = whole@.skip(whole@.len() - part@.len());
        if head {
            assert forall|i: int| 0 <= i < part@.len() implies #[trigger] part@[i] == whole@[i] by {
                assert(front[i] == whole@[i]);
            }
        } else {
            if forall|i: int| 0 <= i < part@.len() ==> #[trigger] part@[i] == whole@[i] {
                assert(front =~= part@);
            }
        }
        if tail {
            assert forall|i: int| 0 <= i < part@.len() implies #[trigger] part@[i]
                == whole@[whole@.len() - part@.len() + i] by {
                assert(back[i] == whole@[whole@.len() - part@.len() + i]);
            }
        } else {
            if forall|i: int|
                0 <= i < part@.len() ==> #[trigger] part@[i] == whole@[whole@.len() - part@.len()
                    + i] {
                assert(back =~= part@);
            }
        }
    }
}

} // verus!
