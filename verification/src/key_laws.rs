//! Which keys a label names.

use crate::help;
use crate::help::KeyModel;
use crate::keymap::{Key, KeyCode};
use crate::text;
use vstd::prelude::*;

verus! {

// ---------------------------------------------------------------------------
// Labels

/// A label without a modifier, and not one of the two that stand for a key by
/// another word.
pub open spec fn unmodified(key: Seq<char>) -> bool {
    &&& key != "space"@ && key != "Shift-Tab"@
    &&& !(key.len() >= 5 && key.take(5) == "Ctrl-"@)
    &&& !(key.len() >= 4 && key.take(4) == "Alt-"@)
}

/// Whether a label spells a function key: `F` and digits.
pub open spec fn f_and_digits(key: Seq<char>) -> bool {
    key.len() > 1 && key[0] == 'F' && forall|i: int|
        1 <= i < key.len() ==> '0' <= #[trigger] key[i] <= '9'
}

/// Whether a label spells a range: two characters in order, a dash between.
pub open spec fn a_range(key: Seq<char>) -> bool {
    key.len() == 3 && key[1] == '-' && key[0] < key[2]
}

proof fn modifiers()
    ensures
        "Ctrl-"@.len() == 5,
        "Alt-"@.len() == 4,
        "Ctrl-"@[0] == 'C',
        "Ctrl-"@[1] == 't',
        "Alt-"@[0] == 'A',
        "Alt-"@[1] == 'l',
        "space"@.len() == 5,
        "space"@[0] == 's',
        "Shift-Tab"@.len() == 9,
        "Shift-Tab"@[0] == 'S',
{
    reveal_strlit("Ctrl-");
    reveal_strlit("Alt-");
    reveal_strlit("space");
    reveal_strlit("Shift-Tab");
}

proof fn heads(key: Seq<char>)
    requires
        unmodified(key),
    ensures
        help::bare(key) == key,
        !text::begins_with(key, "Ctrl-"@),
        !text::begins_with(key, "Alt-"@),
        help::bare("Ctrl-"@ + key) == key,
        text::begins_with("Ctrl-"@ + key, "Ctrl-"@),
        !text::begins_with("Ctrl-"@ + key, "Alt-"@),
        help::bare("Alt-"@ + key) == key,
        text::begins_with("Alt-"@ + key, "Alt-"@),
        !text::begins_with("Alt-"@ + key, "Ctrl-"@),
        "Ctrl-"@ + key != "space"@ && "Ctrl-"@ + key != "Shift-Tab"@,
        "Alt-"@ + key != "space"@ && "Alt-"@ + key != "Shift-Tab"@,
{
    modifiers();
    let ctrl = "Ctrl-"@ + key;
    let alt = "Alt-"@ + key;
    assert(ctrl.take(5) =~= "Ctrl-"@);
    assert(ctrl.skip(5) =~= key);
    assert(ctrl[0] == 'C');
    assert(ctrl.take(4)[0] == 'C');
    assert(alt.take(4) =~= "Alt-"@);
    assert(alt.skip(4) =~= key);
    assert(alt[0] == 'A');
    if alt.len() >= 5 {
        assert(alt.take(5)[0] == 'A');
    }
}

/// What a label documents: a word for a key, a key's name, a function key, a
/// character, or every character of a range, and else nothing. A modifier in
/// front changes nothing of it.
pub proof fn which_keys_a_label_documents(key: Seq<char>)
    requires
        unmodified(key),
    ensures
        help::documented("space"@) == seq![KeyModel::Char(' ')],
        help::documented("Shift-Tab"@) == seq![KeyModel::Named("BackTab"@)],
        help::documented("Ctrl-"@ + key) == help::documented(key),
        help::documented("Alt-"@ + key) == help::documented(key),
        (exists|i: int| 0 <= i < help::NAMED_COUNT && #[trigger] help::NAMED_KEYS[i]@ == key)
            ==> help::documented(key) == seq![KeyModel::Named(key)],
        f_and_digits(key) ==> help::documented(key) == seq![KeyModel::Named("F"@)],
        key.len() == 1 ==> help::documented(key) == seq![KeyModel::Char(key[0])],
        help::documented(key).len() == 0 <==> !(exists|i: int|
            0 <= i < help::NAMED_COUNT && #[trigger] help::NAMED_KEYS[i]@ == key) && !f_and_digits(
            key,
        ) && key.len() != 1 && !a_range(key),
{
    heads(key);
    modifiers();
    names_are_words();
    assert(help::is_function_key(key) == f_and_digits(key));
    if help::is_name(key) {
        let i = choose|i: int| 0 <= i < help::NAMED_COUNT && #[trigger] help::NAMED_KEYS[i]@ == key;
        assert(help::NAMED_KEYS[i]@.len() > 1);
    }
    assert(help::is_name(key) == exists|i: int|
        0 <= i < help::NAMED_COUNT && #[trigger] help::NAMED_KEYS[i]@ == key);
    if key.len() == 1 {
        one_character_is_itself(key);
        vstd::utf8::char_is_scalar(key[0]);
        a_character_is_its_code(key[0]);
    }
    if !help::is_name(key) && !help::is_function_key(key) && key.len() != 1 && !a_range(key) {
        assert(help::documented(key) =~= Seq::empty());
    }
    if a_range(key) && !help::is_name(key) && !help::is_function_key(key) {
        let (first, last) = (key[0], key[2]);
        vstd::utf8::char_is_scalar(first);
        vstd::utf8::char_is_scalar(last);
        a_character_is_its_code(first);
        a_character_is_its_code(last);
        range_is_its_characters(first as int, last as int, first);
        assert(help::chars_between(key[0] as int, key[2] as int).contains(KeyModel::Char(key[0])));
    }
}

proof fn one_character_is_itself(key: Seq<char>)
    requires
        key.len() == 1,
    ensures
        help::documented(key) == seq![KeyModel::Char(key[0])],
{
    modifiers();
    names_are_words();
    assert(help::bare(key) == key);
    if help::is_name(key) {
        let i = choose|i: int| 0 <= i < help::NAMED_COUNT && #[trigger] help::NAMED_KEYS[i]@ == key;
        assert(help::NAMED_KEYS[i]@.len() > 1);
    }
    assert(!help::is_function_key(key));
    vstd::utf8::char_is_scalar(key[0]);
    a_character_is_its_code(key[0]);
}

proof fn a_character_is_its_code(c: char)
    ensures
        c as int == c as u32,
        0 <= c as u32 <= 0x10ffff,
{
    vstd::utf8::char_is_scalar(c);
}

proof fn names_are_words()
    ensures
        forall|i: int|
            0 <= i < help::NAMED_COUNT ==> (#[trigger] help::NAMED_KEYS[i])@.len() > 1 && (
            help::NAMED_KEYS[i]@[0] != 'F') && help::NAMED_KEYS[i]@[1] != '-',
{
    reveal_strlit("Backspace");
    reveal_strlit("Enter");
    reveal_strlit("Left");
    reveal_strlit("Right");
    reveal_strlit("Up");
    reveal_strlit("Down");
    reveal_strlit("Home");
    reveal_strlit("End");
    reveal_strlit("PageUp");
    reveal_strlit("PageDown");
    reveal_strlit("Tab");
    reveal_strlit("BackTab");
    reveal_strlit("Delete");
    reveal_strlit("Insert");
    reveal_strlit("Esc");
    assert forall|i: int| 0 <= i < help::NAMED_COUNT implies (#[trigger] help::NAMED_KEYS[i])@.len()
        > 1 && (help::NAMED_KEYS[i]@[0] != 'F') && help::NAMED_KEYS[i]@[1] != '-' by {
        if i == 0 {
        } else if i == 1 {
        } else if i == 2 {
        } else if i == 3 {
        } else if i == 4 {
        } else if i == 5 {
        } else if i == 6 {
        } else if i == 7 {
        } else if i == 8 {
        } else if i == 9 {
        } else if i == 10 {
        } else if i == 11 {
        } else if i == 12 {
        } else if i == 13 {
        } else {
            assert(i == 14);
        }
    }
}

proof fn range_is_its_characters(from: int, to: int, c: char)
    requires
        0 <= from,
        to <= 0x10ffff,
    ensures
        help::chars_between(from, to).contains(KeyModel::Char(c)) <==> from <= c as u32 <= to,
        forall|i: int|
            0 <= i < help::chars_between(from, to).len() ==> {
                let key = #[trigger] help::chars_between(from, to)[i];
                key is Char && from <= key->Char_0 as u32 <= to
            },
        forall|i: int, j: int|
            0 <= i < j < help::chars_between(from, to).len() ==> (#[trigger] help::chars_between(
                from,
                to,
            )[i])->Char_0 < (#[trigger] help::chars_between(from, to)[j])->Char_0,
    decreases to - from + 1,
{
    if from <= to {
        range_is_its_characters(from + 1, to, c);
        let rest = help::chars_between(from + 1, to);
        let all = help::chars_between(from, to);
        vstd::utf8::char_is_scalar(c);
        if 0xD800 <= from <= 0xDFFF {
            assert(c as u32 != from);
        } else {
            let first = from as char;
            assert(first as u32 == from);
            assert(all == seq![KeyModel::Char(first)] + rest);
            if c as u32 == from {
                vstd::utf8::char_u32_cast(c, from as u32);
                assert(c == first);
                assert(all[0] == KeyModel::Char(c));
            }
            if rest.contains(KeyModel::Char(c)) {
                let i = choose|i: int| 0 <= i < rest.len() && rest[i] == KeyModel::Char(c);
                assert(all[i + 1] == KeyModel::Char(c));
            }
            if all.contains(KeyModel::Char(c)) {
                let i = choose|i: int| 0 <= i < all.len() && all[i] == KeyModel::Char(c);
                if i > 0 {
                    assert(rest[i - 1] == KeyModel::Char(c));
                }
            }
            assert forall|i: int| 0 <= i < all.len() implies {
                let key = #[trigger] all[i];
                key is Char && from <= key->Char_0 as u32 <= to
            } by {
                if i > 0 {
                    assert(all[i] == rest[i - 1]);
                }
            }
            assert forall|i: int, j: int| 0 <= i < j < all.len() implies (#[trigger] all[i])->Char_0
                < (#[trigger] all[j])->Char_0 by {
                assert(all[j] == rest[j - 1]);
                if i > 0 {
                    assert(all[i] == rest[i - 1]);
                } else {
                    assert(all[0]->Char_0 as u32 == from);
                    assert(rest[j - 1]->Char_0 as u32 >= from + 1);
                }
            }
        }
    }
}

/// A range documents the characters from its first to its last and no others,
/// each once and in order.
pub proof fn which_keys_a_range_documents(first: char, last: char, c: char)
    requires
        first < last,
    ensures
        ({
            let keys = help::documented(seq![first, '-', last]);
            &&& keys.contains(KeyModel::Char(c)) <==> first <= c <= last
            &&& forall|i: int| 0 <= i < keys.len() ==> (#[trigger] keys[i]) is Char
            &&& forall|i: int, j: int|
                0 <= i < j < keys.len() ==> (#[trigger] keys[i])->Char_0 < (#[trigger] keys[j])->Char_0
        }),
{
    let key = seq![first, '-', last];
    modifiers();
    names_are_words();
    assert(unmodified(key)) by {
        if key.len() >= 4 {
            assert(false);
        }
    }
    heads(key);
    assert(!help::is_name(key)) by {
        if help::is_name(key) {
            let i = choose|i: int|
                0 <= i < help::NAMED_COUNT && #[trigger] help::NAMED_KEYS[i]@ == key;
            assert(help::NAMED_KEYS[i]@[1] != '-');
        }
    }
    assert(!help::is_function_key(key)) by {
        assert(key[1] == '-');
    }
    vstd::utf8::char_is_scalar(first);
    vstd::utf8::char_is_scalar(last);
    range_is_its_characters(first as int, last as int, c);
}

/// A label names a pressed key just where it documents it, by its character or
/// its name, and has the modifiers that are held.
pub proof fn which_keys_a_label_names(label: Seq<char>, key: Key)
    ensures
        help::names_key(label, key) <==> {
            &&& key.ctrl <==> label.len() >= 5 && label.take(5) == "Ctrl-"@
            &&& key.alt <==> label.len() >= 4 && label.take(4) == "Alt-"@
            &&& exists|i: int|
                0 <= i < help::documented(label).len() && match #[trigger] help::documented(
                    label,
                )[i] {
                    KeyModel::Char(c) => key.code == KeyCode::Char(c),
                    KeyModel::Named(name) => help::is_named(name, key.code),
                }
        },
{
    modifiers();
    if exists|i: int|
        0 <= i < help::documented(label).len() && match #[trigger] help::documented(label)[i] {
            KeyModel::Char(c) => key.code == KeyCode::Char(c),
            KeyModel::Named(name) => help::is_named(name, key.code),
        } {
        let i = choose|i: int|
            0 <= i < help::documented(label).len() && match #[trigger] help::documented(label)[i] {
                KeyModel::Char(c) => key.code == KeyCode::Char(c),
                KeyModel::Named(name) => help::is_named(name, key.code),
            };
        assert(help::is_key(help::documented(label)[i], key.code));
    }
}

/// A character names itself without a modifier, and a range each of its
/// characters.
pub proof fn which_keys_characters_name(c: char, last: char, key: Key)
    ensures
        help::names_key(seq![c], key) <==> !key.ctrl && !key.alt && key.code == KeyCode::Char(c),
        help::names_key("Ctrl-"@ + seq![c], key) <==> key.ctrl && !key.alt && key.code
            == KeyCode::Char(c),
        help::names_key("Alt-"@ + seq![c], key) <==> !key.ctrl && key.alt && key.code
            == KeyCode::Char(c),
        c < last ==> (help::names_key(seq![c, '-', last], key) <==> !key.ctrl && !key.alt
            && key.code is Char && c <= key.code->Char_0 <= last),
{
    modifiers();
    let one = seq![c];
    assert(unmodified(one));
    heads(one);
    which_keys_a_label_documents(one);
    assert(help::documented(one)[0] == KeyModel::Char(c));
    assert(help::documented("Ctrl-"@ + one)[0] == KeyModel::Char(c));
    assert(help::documented("Alt-"@ + one)[0] == KeyModel::Char(c));
    if c < last {
        let range = seq![c, '-', last];
        assert(unmodified(range));
        heads(range);
        let keys = help::documented(range);
        if let KeyCode::Char(pressed) = key.code {
            which_keys_a_range_documents(c, last, pressed);
            if c <= pressed <= last {
                let i = choose|i: int| 0 <= i < keys.len() && keys[i] == KeyModel::Char(pressed);
                assert(help::is_key(keys[i], key.code));
            }
            if help::names_key(range, key) {
                let i = choose|i: int| 0 <= i < keys.len() && help::is_key(#[trigger] keys[i], key.code);
                assert(keys[i] == KeyModel::Char(pressed));
            }
        } else {
            which_keys_a_range_documents(c, last, c);
        }
    }
}

/// Each key that is no character has the one name.
pub proof fn what_keys_are_called(code: KeyCode)
    ensures
        help::is_named("Backspace"@, code) <==> code == KeyCode::Backspace,
        help::is_named("Enter"@, code) <==> code == KeyCode::Enter,
        help::is_named("Left"@, code) <==> code == KeyCode::Left,
        help::is_named("Right"@, code) <==> code == KeyCode::Right,
        help::is_named("Up"@, code) <==> code == KeyCode::Up,
        help::is_named("Down"@, code) <==> code == KeyCode::Down,
        help::is_named("Home"@, code) <==> code == KeyCode::Home,
        help::is_named("End"@, code) <==> code == KeyCode::End,
        help::is_named("PageUp"@, code) <==> code == KeyCode::PageUp,
        help::is_named("PageDown"@, code) <==> code == KeyCode::PageDown,
        help::is_named("Tab"@, code) <==> code == KeyCode::Tab,
        help::is_named("BackTab"@, code) <==> code == KeyCode::BackTab,
        help::is_named("Delete"@, code) <==> code == KeyCode::Delete,
        help::is_named("Insert"@, code) <==> code == KeyCode::Insert,
        help::is_named("Esc"@, code) <==> code == KeyCode::Esc,
        help::is_named("F"@, code) <==> code is F,
{
    reveal_strlit("Backspace");
    reveal_strlit("Enter");
    reveal_strlit("Left");
    reveal_strlit("Right");
    reveal_strlit("Up");
    reveal_strlit("Down");
    reveal_strlit("Home");
    reveal_strlit("End");
    reveal_strlit("PageUp");
    reveal_strlit("PageDown");
    reveal_strlit("Tab");
    reveal_strlit("BackTab");
    reveal_strlit("Delete");
    reveal_strlit("Insert");
    reveal_strlit("Esc");
    reveal_strlit("F");
    assert("Backspace"@.len() == 9 && "PageDown"@.len() == 8 && "BackTab"@.len() == 7);
    assert("Up"@.len() == 2 && "F"@.len() == 1);
    assert("Enter"@.len() == 5 && "Right"@.len() == 5);
    assert("Left"@.len() == 4 && "Down"@.len() == 4 && "Home"@.len() == 4);
    assert("End"@.len() == 3 && "Tab"@.len() == 3 && "Esc"@.len() == 3);
    assert("PageUp"@.len() == 6 && "Delete"@.len() == 6 && "Insert"@.len() == 6);
    assert("Enter"@[0] == 'E' && "Right"@[0] == 'R');
    assert("Enter"@ != "Right"@);
    assert("Left"@[0] == 'L' && "Down"@[0] == 'D' && "Home"@[0] == 'H');
    assert("Left"@ != "Down"@ && "Left"@ != "Home"@ && "Down"@ != "Home"@);
    assert("End"@[0] == 'E' && "Tab"@[0] == 'T' && "Esc"@[0] == 'E');
    assert("End"@[1] == 'n' && "Esc"@[1] == 's');
    assert("End"@ != "Tab"@ && "End"@ != "Esc"@ && "Tab"@ != "Esc"@);
    assert("PageUp"@[0] == 'P' && "Delete"@[0] == 'D' && "Insert"@[0] == 'I');
    assert("PageUp"@ != "Delete"@ && "PageUp"@ != "Insert"@ && "Delete"@ != "Insert"@);
}

/// A row documents what its labels do, and nothing else.
pub proof fn which_keys_labels_document(labels: Seq<Seq<char>>, n: int, key: KeyModel)
    requires
        0 <= n <= labels.len(),
    ensures
        help::codes_of(labels, n).contains(key) <==> exists|i: int|
            0 <= i < n && help::documented(#[trigger] labels[i]).contains(key),
    decreases n,
{
    if n > 0 {
        which_keys_labels_document(labels, n - 1, key);
        let before = help::codes_of(labels, n - 1);
        let more = help::documented(labels[n - 1]);
        let all = before + more;
        if all.contains(key) {
            let i = choose|i: int| 0 <= i < all.len() && all[i] == key;
            if i < before.len() {
                assert(before[i] == key);
            } else {
                assert(more[i - before.len()] == key);
                assert(more.contains(key));
            }
        }
        if before.contains(key) {
            let i = choose|i: int| 0 <= i < before.len() && before[i] == key;
            assert(all[i] == key);
        }
        if more.contains(key) {
            let i = choose|i: int| 0 <= i < more.len() && more[i] == key;
            assert(all[before.len() + i] == key);
        }
    }
}

} // verus!
