//! The help overlay: the table of key bindings, the keys in force for each of
//! its rows, and where every row stands on the screen.

use crate::colour::Color;
use crate::keymap;
use crate::keymap::{Keymap, KeymapModel};
use crate::text;
use ratatui::layout::Rect;
use ratatui::widgets::Block;
use vstd::prelude::*;

verus! {

/// Columns between two columns of the overlay.
pub const GUTTER: usize = 3;

/// Columns between a row's keys and its description.
pub const KEY_GAP: usize = 2;

/// What a row shows when nothing reaches the actions it documents.
pub const UNBOUND: &'static str = "unbound";

/// What stands between two keys of a row.
pub const KEY_SEPARATOR: &'static str = " / ";

/// The title in the top border of the overlay.
pub const TITLE: &'static str = " Keys ";

/// How many sections the table has.
pub const SECTION_COUNT: usize = 8;

/// The sections' titles: one per layer that a key is looked up in, in the
/// order of the layers.
pub const TITLES: [&'static str; SECTION_COUNT] = [
    "Global",
    "Chains",
    "Shared motions",
    "Navigator",
    "File view",
    "Filter pane",
    "Profile picker",
    "While a prompt is open",
];

/// How many rows the table has.
pub const ROW_COUNT: usize = 73;

/// How many labels a row has at most.
pub const KEY_ROOM: usize = 4;

/// How many actions a row documents at most.
pub const NAME_ROOM: usize = 6;

/// The rows of the table: the place of the section, the labels of the keys,
/// what they do, and the names of the actions documented. Labels and names
/// end at the first empty one. A row without names documents no single
/// action: a chain, a reserved key, any character in a prompt.
pub const ROWS: [(usize, [&'static str; KEY_ROOM], &'static str, [&'static str; NAME_ROOM]);
    ROW_COUNT] = [
    (
        0,
        ["?", "", "", ""],
        "This help — any key closes it",
        ["global.help", "", "", "", "", ""],
    ),
    (
        0,
        ["q", "", "", ""],
        "Quit",
        ["global.quit", "", "", "", "", ""],
    ),
    (
        0,
        ["Q", "", "", ""],
        "Quit, emitting nothing",
        ["global.quit.silent", "", "", "", "", ""],
    ),
    (
        0,
        ["Tab", "Shift-Tab", "", ""],
        "Focus the next / previous pane",
        ["global.focus.next", "global.focus.prev", "", "", "", ""],
    ),
    (
        0,
        ["e", "", "", ""],
        "Focus the navigator",
        ["global.focus.nav", "", "", "", "", ""],
    ),
    (
        0,
        ["t", "", "", ""],
        "Focus the file view",
        ["global.focus.view", "", "", "", "", ""],
    ),
    (
        0,
        ["f", "", "", ""],
        "Focus the filter pane; f i / f x / f c return on commit",
        ["global.focus.filters", "", "", "", "", ""],
    ),
    (
        0,
        ["/", "", "", ""],
        "Search — filenames, or file contents",
        ["global.search", "", "", "", "", ""],
    ),
    (
        0,
        ["p", "", "", ""],
        "Promote the live search into the filter set",
        ["global.search.promote", "", "", "", "", ""],
    ),
    (
        0,
        ["Esc", "", "", ""],
        "Clear the pane's search, else the live search",
        ["global.escape", "", "", "", "", ""],
    ),
    (
        0,
        ["space", "", "", ""],
        "Peek at the plain file; press again to restore",
        ["global.peek", "", "", "", "", ""],
    ),
    (
        0,
        [".", ",", "", ""],
        "Next / previous file the filters match",
        ["global.file.next", "global.file.prev", "", "", "", ""],
    ),
    (
        0,
        ["[", "]", "", ""],
        "Page the file view up / down, from any pane",
        ["global.page.up", "global.page.down", "", "", "", ""],
    ),
    (
        0,
        ["1-9", "", "", ""],
        "Toggle the filter with that number",
        ["global.filters.toggle", "", "", "", "", ""],
    ),
    (
        0,
        ["u", "Ctrl-h", "H", ""],
        "Dim unmatched lines, or hide them",
        ["global.toggle.hide", "", "", "", "", ""],
    ),
    (
        0,
        ["!", "", "", ""],
        "Disable every filter, or put them back",
        ["global.filters.disable", "", "", "", "", ""],
    ),
    (
        0,
        ["&", "", "", ""],
        "AND the include filters instead of OR, or back",
        ["global.filters.and", "", "", "", "", ""],
    ),
    (
        0,
        ["b", "", "", ""],
        "Hide the left column, and focus the file view",
        ["global.zoom.view", "", "", "", "", ""],
    ),
    (
        0,
        ["z", "", "", ""],
        "Maximise the focused pane, or restore the split",
        ["global.zoom.focused", "", "", "", "", ""],
    ),
    (
        0,
        ["o", "", "", ""],
        "Open the file's project in your editor",
        ["global.editor.project", "", "", "", "", ""],
    ),
    (
        0,
        ["O", "", "", ""],
        "Open the file alone in your editor",
        ["global.editor.file", "", "", "", "", ""],
    ),
    (
        0,
        ["r", "", "", ""],
        "Refresh from disk — rescan the listing, reload the file",
        ["global.reload", "", "", "", "", ""],
    ),
    (
        0,
        ["-", "", "", ""],
        "Reserved — the hex view, in a later release",
        ["", "", "", "", "", ""],
    ),
    (
        0,
        [":", "", "", ""],
        "Reserved — a command palette, in a later release",
        ["", "", "", "", "", ""],
    ),
    (
        1,
        ["f i", "f x", "", ""],
        "Add an including / excluding filter; returns on commit",
        ["", "", "", "", "", ""],
    ),
    (
        1,
        ["f c", "", "", ""],
        "Change the selected filter — returns on commit",
        ["", "", "", "", "", ""],
    ),
    (
        1,
        ["f d", "f Enter", "", ""],
        "Delete / toggle the selected filter — focus stays",
        ["", "", "", "", "", ""],
    ),
    (
        1,
        ["f f", "", "", ""],
        "Stay in the filter pane",
        ["", "", "", "", "", ""],
    ),
    (
        1,
        ["e n", "", "", ""],
        "Navigator's n — search hit, else next matching file",
        ["", "", "", "", "", ""],
    ),
    (
        1,
        ["t *", "", "", ""],
        "Search the word under the view's cursor",
        ["", "", "", "", "", ""],
    ),
    (
        2,
        ["j", "k", "Down", "Up"],
        "Down / up a row",
        ["nav.up", "nav.down", "view.up", "view.down", "filters.up", "filters.down"],
    ),
    (
        2,
        ["g", "G", "", ""],
        "First / last row (also Home / End)",
        ["nav.goto.start", "nav.goto.end", "view.goto.start", "view.goto.end", "filters.goto.start", "filters.goto.end"],
    ),
    (
        2,
        ["Ctrl-d", "Ctrl-u", "", ""],
        "Half a page down / up",
        ["nav.halfpage.down", "nav.halfpage.up", "view.halfpage.down", "view.halfpage.up", "filters.halfpage.down", "filters.halfpage.up"],
    ),
    (
        2,
        ["PageDown", "PageUp", "", ""],
        "A page down / up",
        ["nav.page.down", "nav.page.up", "view.page.down", "view.page.up", "filters.page.down", "filters.page.up"],
    ),
    (
        2,
        ["n", "N", "", ""],
        "Next / previous hit, or matching file in the navigator",
        ["hit.next", "hit.prev", "nav.hit.next", "nav.hit.prev", "", ""],
    ),
    (
        2,
        ["Enter", "", "", ""],
        "Open entry; toggle filter, set or search; not the view",
        ["nav.open", "filters.toggle", "", "", "", ""],
    ),
    (
        3,
        ["h", "Left", "", ""],
        "Up to the parent directory",
        ["nav.parent", "", "", "", "", ""],
    ),
    (
        3,
        ["l", "Right", "", ""],
        "Open the entry",
        ["nav.open", "", "", "", "", ""],
    ),
    (
        4,
        ["h", "Left", "", ""],
        "Cursor back",
        ["view.left", "", "", "", "", ""],
    ),
    (
        4,
        ["l", "Right", "", ""],
        "Cursor forward",
        ["view.right", "", "", "", "", ""],
    ),
    (
        4,
        ["w", "", "", ""],
        "Next word",
        ["view.word.forward", "", "", "", "", ""],
    ),
    (
        4,
        ["0", "^", "", ""],
        "Start of the line",
        ["view.line.start", "", "", "", "", ""],
    ),
    (
        4,
        ["$", "", "", ""],
        "End of the line",
        ["view.line.end", "", "", "", "", ""],
    ),
    (
        4,
        ["{", "}", "", ""],
        "Previous / next paragraph",
        ["view.paragraph.prev", "view.paragraph.next", "", "", "", ""],
    ),
    (
        4,
        ["#", "", "", ""],
        "Toggle the line-number gutter",
        ["view.toggle.linenumbers", "", "", "", "", ""],
    ),
    (
        4,
        ["*", "", "", ""],
        "Search for the word under the cursor",
        ["global.search.word", "", "", "", "", ""],
    ),
    (
        4,
        ["v", "V", "", ""],
        "Select by character / by line; again to end",
        ["global.visual.char", "global.visual.line", "", "", "", ""],
    ),
    (
        4,
        ["y", "", "", ""],
        "Copy the selection to the clipboard",
        ["global.yank", "", "", "", "", ""],
    ),
    (
        4,
        ["Esc", "", "", ""],
        "End the selection",
        ["global.escape", "", "", "", "", ""],
    ),
    (
        4,
        ["Ctrl-e", "Ctrl-y", "", ""],
        "Scroll one line down / up",
        ["view.scroll.down", "view.scroll.up", "", "", "", ""],
    ),
    (
        4,
        ["Ctrl-f", "Ctrl-b", "", ""],
        "A page down / up (aliases)",
        ["view.page.down", "view.page.up", "", "", "", ""],
    ),
    (
        5,
        ["i", "", "", ""],
        "Add an including filter",
        ["filters.include", "", "", "", "", ""],
    ),
    (
        5,
        ["x", "", "", ""],
        "Add an excluding filter",
        ["filters.exclude", "", "", "", "", ""],
    ),
    (
        5,
        ["c", "", "", ""],
        "Change the selected filter's pattern",
        ["filters.edit", "", "", "", "", ""],
    ),
    (
        5,
        ["d", "", "", ""],
        "Delete the selected filter",
        ["filters.delete", "", "", "", "", ""],
    ),
    (
        5,
        ["m", "", "", ""],
        "Toggle the selected filter between include and context",
        ["filters.context", "", "", "", "", ""],
    ),
    (
        5,
        ["a", "", "", ""],
        "Pick a profile for the selected set",
        ["filters.profile", "", "", "", "", ""],
    ),
    (
        5,
        ["s", "", "", ""],
        "Solo the selected set — or un-solo it",
        ["filters.solo", "", "", "", "", ""],
    ),
    (
        5,
        ["R", "", "", ""],
        "Reset every set to its startup state",
        ["filters.reset", "", "", "", "", ""],
    ),
    (
        5,
        ["S", "", "", ""],
        "Save the scratch filters as a named set",
        ["filters.save.set", "", "", "", "", ""],
    ),
    (
        6,
        ["j", "k", "Down", "Up"],
        "Down / up a row",
        ["picker.up", "picker.down", "", "", "", ""],
    ),
    (
        6,
        ["Enter", "", "", ""],
        "Choose the profile set",
        ["picker.choose", "", "", "", "", ""],
    ),
    (
        6,
        ["Esc", "", "", ""],
        "Cancel",
        ["picker.cancel", "", "", "", "", ""],
    ),
    (
        7,
        ["printable", "", "", ""],
        "Insert at the cursor",
        ["", "", "", "", "", ""],
    ),
    (
        7,
        ["Left", "Right", "", ""],
        "Move the cursor",
        ["prompt.left", "prompt.right", "", "", "", ""],
    ),
    (
        7,
        ["Home", "Ctrl-a", "", ""],
        "Start of the pattern",
        ["prompt.start", "", "", "", "", ""],
    ),
    (
        7,
        ["End", "Ctrl-e", "", ""],
        "End of the pattern",
        ["prompt.end", "", "", "", "", ""],
    ),
    (
        7,
        ["Backspace", "", "", ""],
        "Delete before the cursor; cancel when empty",
        ["prompt.delete.back", "", "", "", "", ""],
    ),
    (
        7,
        ["Delete", "", "", ""],
        "Delete under the cursor",
        ["prompt.delete.forward", "", "", "", "", ""],
    ),
    (
        7,
        ["Ctrl-w", "", "", ""],
        "Delete the word before the cursor",
        ["prompt.delete.word", "", "", "", "", ""],
    ),
    (
        7,
        ["Ctrl-u", "", "", ""],
        "Delete everything before the cursor",
        ["prompt.delete.start", "", "", "", "", ""],
    ),
    (
        7,
        ["Enter", "", "", ""],
        "Run the search, or add the filter",
        ["prompt.commit", "", "", "", "", ""],
    ),
    (
        7,
        ["Esc", "", "", ""],
        "Cancel",
        ["prompt.cancel", "", "", "", "", ""],
    ),
];

// ---------------------------------------------------------------------------
// Labels

/// A key that a label documents: a character, or a key with a name of its own.
/// `F` stands for every function key.
#[derive(Debug, Clone, Copy, PartialEq, Eq, PartialOrd, Ord)]
pub enum Key {
    Char(char),
    Named(&'static str),
}

/// The model of a `Key`.
pub enum KeyModel {
    Char(char),
    Named(Seq<char>),
}

impl View for Key {
    type V = KeyModel;

    open spec fn view(&self) -> KeyModel {
        match self {
            Key::Char(c) => KeyModel::Char(*c),
            Key::Named(name) => KeyModel::Named(name@),
        }
    }
}

/// The models of a sequence of keys.
pub open spec fn key_models(keys: Seq<Key>) -> Seq<KeyModel> {
    Seq::new(keys.len(), |i: int| keys[i]@)
}

/// How many keys have a name of their own.
pub const NAMED_COUNT: usize = 15;

/// The names that a label may spell a key with.
pub const NAMED_KEYS: [&'static str; NAMED_COUNT] = [
    "Backspace",
    "Enter",
    "Left",
    "Right",
    "Up",
    "Down",
    "Home",
    "End",
    "PageUp",
    "PageDown",
    "Tab",
    "BackTab",
    "Delete",
    "Insert",
    "Esc",
];

/// The characters from one code up to and with another, in ascending order.
pub open spec fn chars_between(from: int, to: int) -> Seq<KeyModel>
    decreases to - from + 1,
{
    if from > to {
        Seq::empty()
    } else if 0xD800 <= from <= 0xDFFF {
        chars_between(from + 1, to)
    } else {
        seq![KeyModel::Char(from as char)] + chars_between(from + 1, to)
    }
}

/// A label without the modifier it may begin with.
pub open spec fn bare(label: Seq<char>) -> Seq<char> {
    if text::begins_with(label, "Ctrl-"@) {
        label.skip(5)
    } else if text::begins_with(label, "Alt-"@) {
        label.skip(4)
    } else {
        label
    }
}

/// Whether one of the keys' names is spelled like this.
pub open spec fn is_name(label: Seq<char>) -> bool {
    exists|i: int| 0 <= i < NAMED_COUNT && #[trigger] NAMED_KEYS[i]@ == label
}

/// Whether a label spells a function key: `F` and a number.
pub open spec fn is_function_key(label: Seq<char>) -> bool {
    &&& label.len() > 1
    &&& label[0] == 'F'
    &&& forall|i: int| 1 <= i < label.len() ==> '0' <= #[trigger] label[i] <= '9'
}

/// The keys that a label documents. `space` is the space character and
/// `Shift-Tab` is the key that terminals report as `BackTab`. Behind a
/// modifier stand a key's name, a function key, one character, or the first
/// and the last of a range of characters. Any other label documents no key.
pub open spec fn documented(label: Seq<char>) -> Seq<KeyModel> {
    if label == "space"@ {
        seq![KeyModel::Char(' ')]
    } else if label == "Shift-Tab"@ {
        seq![KeyModel::Named("BackTab"@)]
    } else {
        let key = bare(label);
        if is_name(key) {
            seq![KeyModel::Named(key)]
        } else if is_function_key(key) {
            seq![KeyModel::Named("F"@)]
        } else if key.len() == 1 {
            seq![KeyModel::Char(key[0])]
        } else if key.len() == 3 && key[1] == '-' && key[0] < key[2] {
            chars_between(key[0] as int, key[2] as int)
        } else {
            Seq::empty()
        }
    }
}

/// `char::from_u32` gives the character of a code, and gives none for a
/// surrogate or a code past the last character.
pub assume_specification[ char::from_u32 ](code: u32) -> (c: Option<char>)
    ensures
        c is Some <==> (code < 0xD800 || 0xDFFF < code <= 0x10FFFF),
        c matches Some(found) ==> found as u32 == code,
;

/// The characters from `from` up to and with `to`.
fn chars_in(from: char, to: char) -> (keys: Vec<Key>)
    ensures
        key_models(keys@) == chars_between(from as int, to as int),
{
    let mut keys: Vec<Key> = Vec::new();
    let last: u32 = to as u32;
    let mut code: u32 = from as u32;
    proof {
        assert(key_models(keys@) + chars_between(code as int, last as int) =~= chars_between(
            code as int,
            last as int,
        ));
    }
    while code <= last
        invariant
            last == to as u32,
            last <= 0x10FFFF,
            key_models(keys@) + chars_between(code as int, last as int) == chars_between(
                from as int,
                to as int,
            ),
        decreases last + 1 - code,
    {
        let ghost known = key_models(keys@);
        let ghost rest = chars_between(code + 1, last as int);
        if let Some(c) = char::from_u32(code) {
            keys.push(Key::Char(c));
            proof {
                vstd::utf8::char_u32_cast(c, code);
                assert(key_models(keys@) =~= known.push(KeyModel::Char(c)));
                assert(known + (seq![KeyModel::Char(c)] + rest) =~= known.push(KeyModel::Char(c))
                    + rest);
            }
        }
        code += 1;
    }
    proof {
        assert(key_models(keys@) + chars_between(code as int, last as int) =~= key_models(keys@));
    }
    keys
}

/// The name among `NAMED_KEYS` that is spelled like `label`.
fn name_of(label: &str) -> (name: Option<&'static str>)
    ensures
        match name {
            Some(name) => is_name(label@) && name@ == label@,
            None => !is_name(label@),
        },
{
    let mut i: usize = 0;
    while i < NAMED_COUNT
        invariant
            i <= NAMED_COUNT,
            forall|j: int| 0 <= j < i ==> #[trigger] NAMED_KEYS[j]@ != label@,
        decreases NAMED_COUNT - i,
    {
        if text::same(NAMED_KEYS[i], label) {
            assert(NAMED_KEYS[i as int]@ == label@);
            return Some(NAMED_KEYS[i]);
        }
        i += 1;
    }
    None
}

/// Whether `label` spells a function key.
fn function_key(label: &Vec<char>) -> (yes: bool)
    ensures
        yes == is_function_key(label@),
{
    if label.len() <= 1 || label[0] != 'F' {
        return false;
    }
    let mut i: usize = 1;
    while i < label.len()
        invariant
            1 <= i <= label@.len(),
            label@[0] == 'F',
            forall|j: int| 1 <= j < i ==> '0' <= #[trigger] label@[j] <= '9',
        decreases label@.len() - i,
    {
        if label[i] < '0' || '9' < label[i] {
            assert(!('0' <= label@[i as int] <= '9'));
            return false;
        }
        i += 1;
    }
    true
}

/// `label` without the modifier it may begin with.
fn bare_label(label: &str) -> (key: String)
    ensures
        key@ == bare(label@),
{
    proof {
        reveal_strlit("Ctrl-");
        reveal_strlit("Alt-");
    }
    let chars = text::chars_of(label);
    let from: usize = if text::has_head(label, "Ctrl-") {
        5
    } else if text::has_head(label, "Alt-") {
        4
    } else {
        0
    };
    let key = text::string_of(chars.as_slice(), from, chars.len());
    assert(key@ =~= bare(label@));
    key
}

/// The keys that `label` documents.
pub fn keys_for_label(label: &str) -> (keys: Vec<Key>)
    ensures
        key_models(keys@) == documented(label@),
{
    if text::same(label, "space") {
        let keys = vec![Key::Char(' ')];
        assert(key_models(keys@) =~= documented(label@));
        return keys;
    }
    if text::same(label, "Shift-Tab") {
        let keys = vec![Key::Named("BackTab")];
        assert(key_models(keys@) =~= documented(label@));
        return keys;
    }
    let key = bare_label(label);
    if let Some(name) = name_of(key.as_str()) {
        let keys = vec![Key::Named(name)];
        assert(key_models(keys@) =~= documented(label@));
        return keys;
    }
    let chars = text::chars_of(key.as_str());
    if function_key(&chars) {
        let keys = vec![Key::Named("F")];
        assert(key_models(keys@) =~= documented(label@));
        return keys;
    }
    if chars.len() == 1 {
        let keys = vec![Key::Char(chars[0])];
        assert(keys@[0]@ == KeyModel::Char(key@[0]));
        assert(key_models(keys@) =~= documented(label@));
        keys
    } else if chars.len() == 3 && chars[1] == '-' && chars[0] < chars[2] {
        chars_in(chars[0], chars[2])
    } else {
        let keys: Vec<Key> = Vec::new();
        assert(key_models(keys@) =~= documented(label@));
        keys
    }
}

/// Whether `label` documents any key at all.
pub fn label_is_readable(label: &str) -> (yes: bool)
    ensures
        yes == (documented(label@).len() > 0),
{
    let keys = keys_for_label(label);
    keys.len() > 0
}

/// Whether a key as a terminal reports it is the key of that name.
pub open spec fn is_named(name: Seq<char>, code: keymap::KeyCode) -> bool {
    match code {
        keymap::KeyCode::Backspace => name == "Backspace"@,
        keymap::KeyCode::Enter => name == "Enter"@,
        keymap::KeyCode::Left => name == "Left"@,
        keymap::KeyCode::Right => name == "Right"@,
        keymap::KeyCode::Up => name == "Up"@,
        keymap::KeyCode::Down => name == "Down"@,
        keymap::KeyCode::Home => name == "Home"@,
        keymap::KeyCode::End => name == "End"@,
        keymap::KeyCode::PageUp => name == "PageUp"@,
        keymap::KeyCode::PageDown => name == "PageDown"@,
        keymap::KeyCode::Tab => name == "Tab"@,
        keymap::KeyCode::BackTab => name == "BackTab"@,
        keymap::KeyCode::Delete => name == "Delete"@,
        keymap::KeyCode::Insert => name == "Insert"@,
        keymap::KeyCode::Esc => name == "Esc"@,
        keymap::KeyCode::F(_) => name == "F"@,
        keymap::KeyCode::Char(_) | keymap::KeyCode::Other => false,
    }
}

/// Whether `code` is the key of that name.
fn named_matches(name: &str, code: keymap::KeyCode) -> (yes: bool)
    ensures
        yes == is_named(name@, code),
{
    let spelled = match code {
        keymap::KeyCode::Backspace => "Backspace",
        keymap::KeyCode::Enter => "Enter",
        keymap::KeyCode::Left => "Left",
        keymap::KeyCode::Right => "Right",
        keymap::KeyCode::Up => "Up",
        keymap::KeyCode::Down => "Down",
        keymap::KeyCode::Home => "Home",
        keymap::KeyCode::End => "End",
        keymap::KeyCode::PageUp => "PageUp",
        keymap::KeyCode::PageDown => "PageDown",
        keymap::KeyCode::Tab => "Tab",
        keymap::KeyCode::BackTab => "BackTab",
        keymap::KeyCode::Delete => "Delete",
        keymap::KeyCode::Insert => "Insert",
        keymap::KeyCode::Esc => "Esc",
        keymap::KeyCode::F(_) => "F",
        keymap::KeyCode::Char(_) | keymap::KeyCode::Other => return false,
    };
    text::same(name, spelled)
}

/// Whether a documented key is the one that was pressed.
pub open spec fn is_key(documented: KeyModel, code: keymap::KeyCode) -> bool {
    match documented {
        KeyModel::Char(c) => code == keymap::KeyCode::Char(c),
        KeyModel::Named(name) => is_named(name, code),
    }
}

/// Whether a label names a key that was pressed: the modifiers have to be
/// those of the label, and the key one that the label documents.
pub open spec fn names_key(label: Seq<char>, key: keymap::Key) -> bool {
    &&& text::begins_with(label, "Ctrl-"@) == key.ctrl
    &&& text::begins_with(label, "Alt-"@) == key.alt
    &&& exists|i: int|
        0 <= i < documented(label).len() && is_key(#[trigger] documented(label)[i], key.code)
}

/// Whether `label` names the key `key`.
pub fn label_matches(label: &str, key: keymap::Key) -> (yes: bool)
    ensures
        yes == names_key(label@, key),
{
    let ctrl = text::has_head(label, "Ctrl-");
    let alt = text::has_head(label, "Alt-");
    if ctrl != key.ctrl || alt != key.alt {
        return false;
    }
    let keys = keys_for_label(label);
    let ghost models = documented(label@);
    let mut i: usize = 0;
    while i < keys.len()
        invariant
            i <= keys@.len(),
            models == key_models(keys@),
            models == documented(label@),
            text::begins_with(label@, "Ctrl-"@) == key.ctrl,
            text::begins_with(label@, "Alt-"@) == key.alt,
            forall|j: int| 0 <= j < i ==> !is_key(#[trigger] models[j], key.code),
        decreases keys@.len() - i,
    {
        let hit = match (keys[i], key.code) {
            (Key::Char(c), keymap::KeyCode::Char(pressed)) => c == pressed,
            (Key::Named(name), code) => named_matches(name, code),
            _ => false,
        };
        assert(models[i as int] == keys@[i as int]@);
        assert(hit == is_key(models[i as int], key.code));
        if hit {
            return true;
        }
        i += 1;
    }
    false
}

// ---------------------------------------------------------------------------
// The table

/// One row of the overlay: the labels of the keys that do a thing, the thing,
/// and the names of the actions that it documents.
#[derive(Debug)]
pub struct Binding {
    pub keys: Vec<&'static str>,
    pub action: &'static str,
    pub names: Vec<&'static str>,
}

/// The model of a `Binding`.
pub struct BindingModel {
    pub keys: Seq<Seq<char>>,
    pub action: Seq<char>,
    pub names: Seq<Seq<char>>,
}

impl View for Binding {
    type V = BindingModel;

    open spec fn view(&self) -> BindingModel {
        BindingModel {
            keys: text::slice_texts(self.keys@),
            action: self.action@,
            names: text::slice_texts(self.names@),
        }
    }
}

/// A group of rows under a title.
#[derive(Debug)]
pub struct Section {
    pub title: &'static str,
    pub bindings: Vec<Binding>,
}

/// The model of a `Section`.
pub struct SectionModel {
    pub title: Seq<char>,
    pub bindings: Seq<BindingModel>,
}

/// The models of a sequence of bindings.
pub open spec fn binding_models(bindings: Seq<Binding>) -> Seq<BindingModel> {
    Seq::new(bindings.len(), |i: int| bindings[i]@)
}

impl View for Section {
    type V = SectionModel;

    open spec fn view(&self) -> SectionModel {
        SectionModel { title: self.title@, bindings: binding_models(self.bindings@) }
    }
}

/// The models of a sequence of sections.
pub open spec fn section_models(sections: Seq<Section>) -> Seq<SectionModel> {
    Seq::new(sections.len(), |i: int| sections[i]@)
}

/// The row of the table at a place.
pub open spec fn table_row(i: int) -> BindingModel {
    BindingModel {
        keys: keymap::filled(ROWS[i].1@),
        action: ROWS[i].2@,
        names: keymap::filled(ROWS[i].3@),
    }
}

/// Those of the table's first `count` rows that stand in a section.
pub open spec fn section_rows(section: int, count: int) -> Seq<BindingModel>
    decreases count,
{
    if count <= 0 {
        Seq::empty()
    } else if ROWS[count - 1].0 == section {
        section_rows(section, count - 1).push(table_row(count - 1))
    } else {
        section_rows(section, count - 1)
    }
}

/// The whole table: every section with its rows.
pub open spec fn table() -> Seq<SectionModel> {
    Seq::new(
        SECTION_COUNT as nat,
        |s: int|
            SectionModel { title: TITLES[s]@, bindings: section_rows(s, ROW_COUNT as int) },
    )
}

/// The rows of one section of the table.
fn bindings_of(section: usize) -> (bindings: Vec<Binding>)
    ensures
        binding_models(bindings@) == section_rows(section as int, ROW_COUNT as int),
{
    let mut bindings: Vec<Binding> = Vec::new();
    let mut i: usize = 0;
    assert(binding_models(bindings@) =~= section_rows(section as int, 0));
    while i < ROW_COUNT
        invariant
            i <= ROW_COUNT,
            binding_models(bindings@) == section_rows(section as int, i as int),
        decreases ROW_COUNT - i,
    {
        if ROWS[i].0 == section {
            let ghost known = binding_models(bindings@);
            let binding = Binding {
                keys: keymap::filled_of(&ROWS[i].1),
                action: ROWS[i].2,
                names: keymap::filled_of(&ROWS[i].3),
            };
            bindings.push(binding);
            assert(binding_models(bindings@) =~= known.push(table_row(i as int)));
        }
        i += 1;
    }
    bindings
}

/// The whole table, in the order in which the overlay draws it.
pub fn sections() -> (sections: Vec<Section>)
    ensures
        section_models(sections@) == table(),
{
    let mut sections: Vec<Section> = Vec::new();
    let mut s: usize = 0;
    while s < SECTION_COUNT
        invariant
            s <= SECTION_COUNT,
            sections@.len() == s,
            forall|i: int| 0 <= i < s ==> (#[trigger] sections@[i])@ == table()[i],
        decreases SECTION_COUNT - s,
    {
        let section = Section { title: TITLES[s], bindings: bindings_of(s) };
        assert(section@ == table()[s as int]);
        sections.push(section);
        s += 1;
    }
    assert(section_models(sections@) =~= table());
    sections
}

/// The keys that the first `count` of some labels document.
pub open spec fn codes_of(labels: Seq<Seq<char>>, count: int) -> Seq<KeyModel>
    decreases count,
{
    if count <= 0 {
        Seq::empty()
    } else {
        codes_of(labels, count - 1) + documented(labels[count - 1])
    }
}

impl Binding {
    /// The keys that the row documents.
    pub fn codes(&self) -> (codes: Vec<Key>)
        ensures
            key_models(codes@) == codes_of(self@.keys, self@.keys.len() as int),
    {
        let mut codes: Vec<Key> = Vec::new();
        let mut i: usize = 0;
        assert(key_models(codes@) =~= codes_of(self@.keys, 0));
        while i < self.keys.len()
            invariant
                i <= self.keys@.len(),
                key_models(codes@) == codes_of(self@.keys, i as int),
            decreases self.keys@.len() - i,
        {
            let mut more = keys_for_label(self.keys[i]);
            let ghost known = key_models(codes@);
            let ghost added = key_models(more@);
            codes.append(&mut more);
            assert(key_models(codes@) =~= known + added);
            i += 1;
        }
        codes
    }
}

// ---------------------------------------------------------------------------
// The keys in force

/// The place of the first `key` from `i` on, if there is one.
pub open spec fn place_of(labels: Seq<Seq<char>>, key: Seq<char>, i: int) -> Option<int>
    decreases labels.len() - i,
{
    if i >= labels.len() {
        None
    } else if labels[i] == key {
        Some(i)
    } else {
        place_of(labels, key, i + 1)
    }
}

/// Where a key stands among the labels that the action of that name comes
/// with, if there is such an action and the key reaches it.
pub open spec fn claim(key: Seq<char>, name: Seq<char>, defaults: KeymapModel) -> Option<int> {
    match keymap::action_of(name) {
        Some(action) => place_of(defaults[action], key, 0),
        None => None,
    }
}

/// The labels in force that stand where `key` stood for the first `count` of
/// the actions named.
pub open spec fn found_for(
    key: Seq<char>,
    names: Seq<Seq<char>>,
    keymap: KeymapModel,
    defaults: KeymapModel,
    count: int,
) -> Seq<Seq<char>>
    decreases count,
{
    if count <= 0 {
        Seq::empty()
    } else {
        let found = found_for(key, names, keymap, defaults, count - 1);
        match claim(key, names[count - 1], defaults) {
            Some(place) => {
                let labels = keymap[keymap::action_of(names[count - 1])->Some_0];
                if place < labels.len() {
                    found.push(labels[place])
                } else {
                    found
                }
            },
            None => found,
        }
    }
}

/// Whether a key reaches one of the actions named before a configuration
/// changes it.
pub open spec fn claimed(
    key: Seq<char>,
    names: Seq<Seq<char>>,
    defaults: KeymapModel,
    count: int,
) -> bool {
    exists|i: int| 0 <= i < count && #[trigger] claim(key, names[i], defaults) is Some
}

/// What now reaches the actions that a key of a row used to reach. A key that
/// none of them claims is kept.
pub open spec fn replaced(
    key: Seq<char>,
    names: Seq<Seq<char>>,
    keymap: KeymapModel,
    defaults: KeymapModel,
) -> Seq<Seq<char>> {
    if claimed(key, names, defaults, names.len() as int) {
        found_for(key, names, keymap, defaults, names.len() as int)
    } else {
        seq![key]
    }
}

/// What now reaches the actions that `key` reached by default.
fn replacements(
    key: &str,
    names: &Vec<&'static str>,
    keymap: &Keymap,
    defaults: &Keymap,
) -> (found: Vec<String>)
    ensures
        text::texts(found@) == replaced(key@, text::slice_texts(names@), keymap@, defaults@),
{
    let ghost all = text::slice_texts(names@);
    let mut found: Vec<String> = Vec::new();
    let mut taken = false;
    let mut i: usize = 0;
    assert(text::texts(found@) =~= found_for(key@, all, keymap@, defaults@, 0));
    while i < names.len()
        invariant
            i <= names@.len(),
            all == text::slice_texts(names@),
            taken == claimed(key@, all, defaults@, i as int),
            text::texts(found@) == found_for(key@, all, keymap@, defaults@, i as int),
        decreases names@.len() - i,
    {
        let ghost known = found@;
        assert(all[i as int] == names@[i as int]@);
        if let Some(action) = keymap::action_named(names[i]) {
            if let Some(place) = position(defaults.labels_for(action), key) {
                taken = true;
                assert(claim(key@, all[i as int], defaults@) is Some);
                let labels = keymap.labels_for(action);
                if place < labels.len() {
                    found.push(labels[place].clone());
                    proof {
                        text::texts_push(known, labels@[place as int]);
                        assert(text::texts(labels@)[place as int] == labels@[place as int]@);
                    }
                }
            }
        }
        proof {
            assert(claimed(key@, all, defaults@, i + 1) == (claimed(key@, all, defaults@, i as int)
                || claim(key@, all[i as int], defaults@) is Some));
        }
        i += 1;
    }
    if taken {
        found
    } else {
        let kept = vec![key.to_owned()];
        assert(text::texts(kept@) =~= seq![key@]);
        kept
    }
}

/// The place of `key` among `labels`.
fn position(labels: &Vec<String>, key: &str) -> (place: Option<usize>)
    ensures
        match place {
            Some(place) => place_of(text::texts(labels@), key@, 0) == Some(place as int),
            None => place_of(text::texts(labels@), key@, 0) is None,
        },
{
    let ghost all = text::texts(labels@);
    let mut i: usize = 0;
    while i < labels.len()
        invariant
            i <= labels@.len(),
            all == text::texts(labels@),
            place_of(all, key@, 0) == place_of(all, key@, i as int),
        decreases labels@.len() - i,
    {
        assert(all[i as int] == labels@[i as int]@);
        if text::same(labels[i].as_str(), key) {
            return Some(i);
        }
        i += 1;
    }
    None
}

/// Labels with the first `count` of some more, each that is new.
pub open spec fn with_new(shown: Seq<Seq<char>>, more: Seq<Seq<char>>, count: int) -> Seq<Seq<char>>
    decreases count,
{
    if count <= 0 {
        shown
    } else {
        let before = with_new(shown, more, count - 1);
        if before.contains(more[count - 1]) {
            before
        } else {
            before.push(more[count - 1])
        }
    }
}

/// Adds to `shown` each label of `more` that it does not hold yet.
fn add_new(shown: &mut Vec<String>, more: &Vec<String>)
    ensures
        text::texts(final(shown)@) == with_new(
            text::texts(old(shown)@),
            text::texts(more@),
            more@.len() as int,
        ),
{
    let ghost first = text::texts(shown@);
    let ghost all = text::texts(more@);
    let mut i: usize = 0;
    while i < more.len()
        invariant
            i <= more@.len(),
            first == text::texts(old(shown)@),
            all == text::texts(more@),
            text::texts(shown@) == with_new(first, all, i as int),
        decreases more@.len() - i,
    {
        assert(all[i as int] == more@[i as int]@);
        if !text::has_text(shown, more[i].as_str()) {
            let ghost known = shown@;
            shown.push(more[i].clone());
            proof {
                text::texts_push(known, more@[i as int]);
            }
        }
        i += 1;
    }
}

/// The labels that the first `count` keys of a row now show.
pub open spec fn shown_labels(
    row: BindingModel,
    keymap: KeymapModel,
    defaults: KeymapModel,
    count: int,
) -> Seq<Seq<char>>
    decreases count,
{
    if count <= 0 {
        Seq::empty()
    } else {
        let more = replaced(row.keys[count - 1], row.names, keymap, defaults);
        with_new(shown_labels(row, keymap, defaults, count - 1), more, more.len() as int)
    }
}

/// Labels in one line.
pub open spec fn listed(labels: Seq<Seq<char>>) -> Seq<char>
    decreases labels.len(),
{
    if labels.len() == 0 {
        Seq::empty()
    } else if labels.len() == 1 {
        labels[0]
    } else {
        listed(labels.drop_last()) + KEY_SEPARATOR@ + labels.last()
    }
}

/// The keys that a row shows: its own labels, each replaced by what the
/// keymap in force puts in its place, and none twice.
pub open spec fn row_keys(row: BindingModel, keymap: KeymapModel, defaults: KeymapModel) -> Seq<char> {
    if row.names.len() == 0 {
        listed(row.keys)
    } else {
        let shown = shown_labels(row, keymap, defaults, row.keys.len() as int);
        if shown.len() == 0 {
            UNBOUND@
        } else {
            listed(shown)
        }
    }
}

/// One more label in a line.
proof fn one_more_listed(labels: Seq<Seq<char>>, count: int)
    requires
        0 <= count < labels.len(),
    ensures
        listed(labels.take(count + 1)) == if count == 0 {
            labels[0]
        } else {
            listed(labels.take(count)) + KEY_SEPARATOR@ + labels[count]
        },
{
    assert(labels.take(count + 1).drop_last() =~= labels.take(count));
}

/// `labels` in one line.
fn list_labels(labels: &Vec<String>) -> (line: String)
    ensures
        line@ == listed(text::texts(labels@)),
{
    let ghost all = text::texts(labels@);
    let mut line = String::new();
    let mut i: usize = 0;
    assert(line@ =~= listed(all.take(0)));
    while i < labels.len()
        invariant
            i <= labels@.len(),
            all == text::texts(labels@),
            line@ == listed(all.take(i as int)),
        decreases labels@.len() - i,
    {
        proof {
            one_more_listed(all, i as int);
            assert(all[i as int] == labels@[i as int]@);
        }
        if i > 0 {
            line.append(KEY_SEPARATOR);
        }
        line.append(labels[i].as_str());
        assert(line@ =~= listed(all.take(i + 1)));
        i += 1;
    }
    assert(all.take(i as int) =~= all);
    line
}

/// The keys that the row `binding` shows.
pub fn keys_for(binding: &Binding, keymap: &Keymap, defaults: &Keymap) -> (keys: String)
    ensures
        keys@ == row_keys(binding@, keymap@, defaults@),
{
    if binding.names.len() == 0 {
        let labels = keymap::owned_texts(&binding.keys);
        return list_labels(&labels);
    }
    let mut shown: Vec<String> = Vec::new();
    let mut i: usize = 0;
    assert(text::texts(shown@) =~= shown_labels(binding@, keymap@, defaults@, 0));
    while i < binding.keys.len()
        invariant
            i <= binding.keys@.len(),
            text::texts(shown@) == shown_labels(binding@, keymap@, defaults@, i as int),
        decreases binding.keys@.len() - i,
    {
        let more = replacements(binding.keys[i], &binding.names, keymap, defaults);
        assert(binding@.keys[i as int] == binding.keys@[i as int]@);
        add_new(&mut shown, &more);
        i += 1;
    }
    if shown.len() == 0 {
        UNBOUND.to_owned()
    } else {
        list_labels(&shown)
    }
}

// ---------------------------------------------------------------------------
// Rows

/// One line of the overlay.
#[derive(Debug)]
pub enum Row {
    Heading(&'static str),
    Blank,
    Entry { keys: String, action: &'static str },
}

/// The model of a `Row`.
pub enum RowModel {
    Heading(Seq<char>),
    Blank,
    Entry { keys: Seq<char>, action: Seq<char> },
}

impl View for Row {
    type V = RowModel;

    open spec fn view(&self) -> RowModel {
        match self {
            Row::Heading(title) => RowModel::Heading(title@),
            Row::Blank => RowModel::Blank,
            Row::Entry { keys, action } => RowModel::Entry { keys: keys@, action: action@ },
        }
    }
}

/// The models of a sequence of rows.
pub open spec fn row_models(rows: Seq<Row>) -> Seq<RowModel> {
    Seq::new(rows.len(), |i: int| rows[i]@)
}

/// The lines of some bindings.
pub open spec fn entries(bindings: Seq<BindingModel>, keymap: KeymapModel, defaults: KeymapModel) -> Seq<
    RowModel,
> {
    Seq::new(
        bindings.len(),
        |i: int|
            RowModel::Entry {
                keys: row_keys(bindings[i], keymap, defaults),
                action: bindings[i].action,
            },
    )
}

/// The lines of the first `count` sections: each has its title and its rows,
/// and a blank line stands between two of them.
pub open spec fn overlay_rows(
    sections: Seq<SectionModel>,
    keymap: KeymapModel,
    defaults: KeymapModel,
    count: int,
) -> Seq<RowModel>
    decreases count,
{
    if count <= 0 {
        Seq::empty()
    } else {
        let above = overlay_rows(sections, keymap, defaults, count - 1);
        let gap = if count > 1 {
            seq![RowModel::Blank]
        } else {
            Seq::empty()
        };
        above + gap + seq![RowModel::Heading(sections[count - 1].title)] + entries(
            sections[count - 1].bindings,
            keymap,
            defaults,
        )
    }
}

/// The lines of the whole table under a keymap.
pub open spec fn table_rows(keymap: KeymapModel) -> Seq<RowModel> {
    overlay_rows(table(), keymap, keymap::default_labels(), SECTION_COUNT as int)
}

/// The lines of the overlay, in order.
pub fn rows(keymap: &Keymap) -> (rows: Vec<Row>)
    ensures
        row_models(rows@) == table_rows(keymap@),
{
    let defaults = Keymap::default();
    let all = sections();
    let mut rows: Vec<Row> = Vec::new();
    let mut s: usize = 0;
    assert(row_models(rows@) =~= overlay_rows(table(), keymap@, defaults@, 0));
    while s < all.len()
        invariant
            s <= all@.len(),
            section_models(all@) == table(),
            defaults@ == keymap::default_labels(),
            row_models(rows@) == overlay_rows(table(), keymap@, defaults@, s as int),
        decreases all@.len() - s,
    {
        let ghost above = row_models(rows@);
        let ghost section = table()[s as int];
        assert(section == all@[s as int]@);
        if s > 0 {
            rows.push(Row::Blank);
        }
        rows.push(Row::Heading(all[s].title));
        let ghost gap = if s > 0 {
            seq![RowModel::Blank]
        } else {
            Seq::empty()
        };
        let ghost head = above + gap + seq![RowModel::Heading(section.title)];
        let ghost wanted = entries(section.bindings, keymap@, defaults@);
        assert(row_models(rows@) =~= head);
        let mut i: usize = 0;
        assert(head =~= head + wanted.take(0));
        while i < all[s].bindings.len()
            invariant
                s < all@.len(),
                section == all@[s as int]@,
                i <= all@[s as int].bindings@.len(),
                wanted == entries(section.bindings, keymap@, defaults@),
                row_models(rows@) == head + wanted.take(i as int),
            decreases all@[s as int].bindings@.len() - i,
        {
            let binding = &all[s].bindings[i];
            assert(section.bindings[i as int] == binding@);
            let keys = keys_for(binding, keymap, &defaults);
            let ghost known = row_models(rows@);
            rows.push(Row::Entry { keys, action: binding.action });
            assert(row_models(rows@) =~= known.push(wanted[i as int]));
            assert(row_models(rows@) =~= head + wanted.take(i + 1));
            i += 1;
        }
        assert(wanted.take(i as int) =~= wanted);
        s += 1;
    }
    assert(section_models(all@).len() == table().len());
    rows
}

// ---------------------------------------------------------------------------
// Columns

/// One column of the overlay: the rows it holds, how far it stands from the
/// left, how wide its keys are, and how wide it is.
#[derive(Debug, Clone, Copy, PartialEq, Eq, Structural)]
pub struct Column {
    pub start: usize,
    pub len: usize,
    pub x: usize,
    pub key_width: usize,
    pub width: usize,
}

/// The model of a `Column`.
pub struct ColumnModel {
    pub start: int,
    pub len: int,
    pub x: int,
    pub key_width: int,
    pub width: int,
}

impl View for Column {
    type V = ColumnModel;

    open spec fn view(&self) -> ColumnModel {
        ColumnModel {
            start: self.start as int,
            len: self.len as int,
            x: self.x as int,
            key_width: self.key_width as int,
            width: self.width as int,
        }
    }
}

/// The models of a sequence of columns.
pub open spec fn column_models(columns: Seq<Column>) -> Seq<ColumnModel> {
    Seq::new(columns.len(), |i: int| columns[i]@)
}

/// A width, or the largest there is.
pub open spec fn capped(width: int) -> int {
    if width > usize::MAX {
        usize::MAX as int
    } else {
        width
    }
}

/// How wide the keys of a row are.
pub open spec fn keys_width(row: RowModel) -> int {
    match row {
        RowModel::Entry { keys, .. } => keys.len() as int,
        RowModel::Heading(_) => 0,
        RowModel::Blank => 0,
    }
}

/// How wide the text of a row is that stands beside keys or in their place.
pub open spec fn text_width(row: RowModel) -> int {
    match row {
        RowModel::Entry { action, .. } => action.len() as int,
        RowModel::Heading(title) => title.len() as int,
        RowModel::Blank => 0,
    }
}

/// The larger of two numbers.
pub open spec fn larger(a: int, b: int) -> int {
    if a >= b {
        a
    } else {
        b
    }
}

/// The smaller of two numbers.
pub open spec fn smaller(a: int, b: int) -> int {
    if a <= b {
        a
    } else {
        b
    }
}

/// The widest keys of the rows from `from` up to, and not with, `to`.
pub open spec fn widest_keys(rows: Seq<RowModel>, from: int, to: int) -> int
    decreases to - from,
{
    if from >= to {
        0
    } else {
        larger(widest_keys(rows, from, to - 1), keys_width(rows[to - 1]))
    }
}

/// The widest text of the rows from `from` up to, and not with, `to`.
pub open spec fn widest_text(rows: Seq<RowModel>, from: int, to: int) -> int
    decreases to - from,
{
    if from >= to {
        0
    } else {
        larger(widest_text(rows, from, to - 1), text_width(rows[to - 1]))
    }
}

/// A quotient, rounded up.
pub open spec fn ceiling(n: int, d: int) -> int {
    if n % d == 0 {
        n / d
    } else {
        n / d + 1
    }
}

/// The column of `len` rows from `start` on, at a distance from the left.
pub open spec fn column_at(rows: Seq<RowModel>, start: int, len: int, x: int) -> ColumnModel {
    let key_width = widest_keys(rows, start, start + len);
    ColumnModel {
        start,
        len,
        x,
        key_width,
        width: capped(capped(key_width + KEY_GAP) + widest_text(rows, start, start + len)),
    }
}

/// At most `left` columns of `per` rows each, from `start` on.
pub open spec fn packed_from(
    rows: Seq<RowModel>,
    left: int,
    per: int,
    start: int,
    x: int,
) -> Seq<ColumnModel>
    decreases left,
{
    if left <= 0 || start >= rows.len() {
        Seq::empty()
    } else {
        let column = column_at(rows, start, smaller(per, rows.len() - start), x);
        seq![column] + packed_from(
            rows,
            left - 1,
            per,
            start + per,
            capped(capped(x + column.width) + GUTTER),
        )
    }
}

/// How many rows each of `count` columns holds: as many as balance them, but
/// no more than fit the height.
pub open spec fn rows_per_column(total: int, count: int, height: int) -> int {
    larger(smaller(ceiling(total, count), height), 1)
}

/// Rows in `count` balanced columns of no more than `height` rows.
pub open spec fn packed(rows: Seq<RowModel>, count: int, height: int) -> Seq<ColumnModel> {
    packed_from(rows, count, rows_per_column(rows.len() as int, count, height), 0, 0)
}

/// A quotient, rounded up.
fn div_ceil(n: usize, d: usize) -> (quotient: usize)
    requires
        d > 0,
    ensures
        quotient == ceiling(n as int, d as int),
{
    let quotient: usize = n / d;
    if n % d == 0 {
        quotient
    } else {
        proof {
            if quotient == usize::MAX {
                assert(d == 1 ==> n % d == 0);
                assert(quotient * d <= n) by {
                    vstd::arithmetic::div_mod::lemma_fundamental_div_mod(n as int, d as int);
                    assert(d * quotient == quotient * d) by (nonlinear_arith);
                }
                assert(d >= 2 ==> quotient * d > usize::MAX) by (nonlinear_arith)
                    requires
                        quotient == usize::MAX,
                ;
            }
        }
        quotient + 1
    }
}

/// The widest keys and the widest text among the rows from `from` to `to`.
fn widths(rows: &Vec<Row>, from: usize, to: usize) -> (widest: (usize, usize))
    requires
        from <= to <= rows@.len(),
    ensures
        widest.0 == widest_keys(row_models(rows@), from as int, to as int),
        widest.1 == widest_text(row_models(rows@), from as int, to as int),
{
    let ghost models = row_models(rows@);
    let mut keys_max: usize = 0;
    let mut text_max: usize = 0;
    let mut i: usize = from;
    while i < to
        invariant
            from <= i <= to <= rows@.len(),
            models == row_models(rows@),
            keys_max == widest_keys(models, from as int, i as int),
            text_max == widest_text(models, from as int, i as int),
        decreases to - i,
    {
        assert(models[i as int] == rows@[i as int]@);
        let (keys, beside): (usize, usize) = match &rows[i] {
            Row::Entry { keys, action } => (
                text::chars_of(keys.as_str()).len(),
                text::chars_of(action).len(),
            ),
            Row::Heading(title) => (0, text::chars_of(title).len()),
            Row::Blank => (0, 0),
        };
        if keys > keys_max {
            keys_max = keys;
        }
        if beside > text_max {
            text_max = beside;
        }
        i += 1;
    }
    (keys_max, text_max)
}

/// `rows` in `count` balanced columns of no more than `height` rows.
pub fn pack(rows: &Vec<Row>, count: usize, height: usize) -> (columns: Vec<Column>)
    requires
        count > 0,
    ensures
        column_models(columns@) == packed(row_models(rows@), count as int, height as int),
        rows_held(column_models(columns@)) <= rows@.len(),
{
    let ghost models = row_models(rows@);
    let balanced: usize = div_ceil(rows.len(), count);
    let capped_rows: usize = if balanced <= height {
        balanced
    } else {
        height
    };
    let per: usize = if capped_rows >= 1 {
        capped_rows
    } else {
        1
    };
    let ghost all = packed(models, count as int, height as int);
    let mut columns: Vec<Column> = Vec::new();
    let mut left: usize = count;
    let mut start: usize = 0;
    let mut x: usize = 0;
    assert(column_models(columns@) + all =~= all);
    while left > 0 && start < rows.len()
        invariant
            per >= 1,
            start <= rows@.len(),
            models == row_models(rows@),
            column_models(columns@) + packed_from(
                models,
                left as int,
                per as int,
                start as int,
                x as int,
            ) == all,
        decreases left,
    {
        let ahead: usize = rows.len() - start;
        let len: usize = if per <= ahead {
            per
        } else {
            ahead
        };
        let (key_width, beside) = widths(rows, start, start + len);
        let width: usize = key_width.saturating_add(KEY_GAP).saturating_add(beside);
        let column = Column { start, len, x, key_width, width };
        let ghost known = column_models(columns@);
        let ghost rest = packed_from(
            models,
            left - 1,
            per as int,
            start + per,
            capped(capped(x + width) + GUTTER),
        );
        columns.push(column);
        x = x.saturating_add(width).saturating_add(GUTTER);
        proof {
            assert(column@ == column_at(models, start as int, len as int, column.x as int));
            assert(column_models(columns@) =~= known.push(column@));
            assert(known + (seq![column@] + rest) =~= known.push(column@) + rest);
            if per > ahead {
                assert(packed_from(models, left - 1, per as int, start + per, x as int)
                    =~= packed_from(models, left - 1, per as int, start + len, x as int));
            }
        }
        start = start + len;
        left -= 1;
    }
    proof {
        packing_from(models, count as int, per as int, 0, 0);
    }
    assert(column_models(columns@) + packed_from(
        models,
        left as int,
        per as int,
        start as int,
        x as int,
    ) =~= column_models(columns@));
    columns
}

/// How many rows some columns hold.
pub open spec fn rows_held(columns: Seq<ColumnModel>) -> int
    decreases columns.len(),
{
    if columns.len() == 0 {
        0
    } else {
        rows_held(columns.drop_last()) + columns.last().len
    }
}

/// A part of some columns holds no more rows than all of them.
proof fn a_part_holds_no_more(columns: Seq<Column>, count: int)
    requires
        0 <= count <= columns.len(),
    ensures
        0 <= rows_held(column_models(columns).take(count)) <= rows_held(column_models(columns)),
    decreases columns.len() - count, count,
{
    let models = column_models(columns);
    if count < columns.len() {
        a_part_holds_no_more(columns, count + 1);
        assert(models.take(count + 1).drop_last() =~= models.take(count));
        assert(models.take(count + 1).last() == models[count]);
    } else {
        assert(models.take(count) =~= models);
    }
    columns_hold_something(columns, count);
}

/// No column holds fewer than no rows.
proof fn columns_hold_something(columns: Seq<Column>, count: int)
    requires
        0 <= count <= columns.len(),
    ensures
        rows_held(column_models(columns).take(count)) >= 0,
    decreases count,
{
    let models = column_models(columns);
    if count > 0 {
        columns_hold_something(columns, count - 1);
        assert(models.take(count).drop_last() =~= models.take(count - 1));
    }
}

/// How many rows `columns` hold.
pub fn shown(columns: &Vec<Column>) -> (count: usize)
    requires
        rows_held(column_models(columns@)) <= usize::MAX,
    ensures
        count == rows_held(column_models(columns@)),
{
    let ghost models = column_models(columns@);
    let mut count: usize = 0;
    let mut i: usize = 0;
    assert(models.take(0) =~= Seq::empty());
    while i < columns.len()
        invariant
            i <= columns@.len(),
            models == column_models(columns@),
            rows_held(models) <= usize::MAX,
            count == rows_held(models.take(i as int)),
        decreases columns@.len() - i,
    {
        proof {
            assert(models.take(i + 1).drop_last() =~= models.take(i as int));
            assert(models.take(i + 1).last() == columns@[i as int]@);
            a_part_holds_no_more(columns@, i + 1);
        }
        count += columns[i].len;
        i += 1;
    }
    assert(models.take(i as int) =~= models);
    count
}

/// How far it is from the left of the first column to the right of the last.
pub open spec fn spanned(columns: Seq<ColumnModel>) -> int {
    if columns.len() == 0 {
        0
    } else {
        capped(columns.last().x + columns.last().width)
    }
}

/// How far it is from the left of the first column to the right of the last.
pub fn total_width(columns: &Vec<Column>) -> (width: usize)
    ensures
        width == spanned(column_models(columns@)),
{
    if columns.len() == 0 {
        0
    } else {
        let last = columns[columns.len() - 1];
        last.x.saturating_add(last.width)
    }
}

/// The columns for an area: those that `count` calls for, or the most below
/// it that fit the width. One column is kept however wide it is.
pub open spec fn laid_out(rows: Seq<RowModel>, width: int, height: int, count: int) -> Seq<ColumnModel>
    decreases count,
{
    let laid = packed(rows, count, height);
    if spanned(laid) <= width || count <= 1 {
        laid
    } else {
        laid_out(rows, width, height, count - 1)
    }
}

/// The columns of the overlay in an area of that width and height.
pub open spec fn layout_of(rows: Seq<RowModel>, width: int, height: int) -> Seq<ColumnModel> {
    let tall = larger(height, 1);
    laid_out(rows, width, tall, larger(ceiling(rows.len() as int, tall), 1))
}

/// Flows `rows` into the fewest columns that fit the height of `inner`, or as
/// many of those as fit its width.
pub fn layout(rows: &Vec<Row>, inner: Area) -> (columns: Vec<Column>)
    ensures
        column_models(columns@) == layout_of(
            row_models(rows@),
            inner.width as int,
            inner.height as int,
        ),
        rows_held(column_models(columns@)) <= rows@.len(),
{
    let ghost models = row_models(rows@);
    let height: usize = if inner.height >= 1 {
        inner.height as usize
    } else {
        1
    };
    let width: usize = inner.width as usize;
    let wanted: usize = div_ceil(rows.len(), height);
    let mut count: usize = if wanted >= 1 {
        wanted
    } else {
        1
    };
    let mut laid = pack(rows, count, height);
    while total_width(&laid) > width && count > 1
        invariant
            count >= 1,
            height >= 1,
            models == row_models(rows@),
            width == inner.width,
            column_models(laid@) == packed(models, count as int, height as int),
            layout_of(models, inner.width as int, inner.height as int) == laid_out(
                models,
                width as int,
                height as int,
                count as int,
            ),
        decreases count,
    {
        count -= 1;
        laid = pack(rows, count, height);
    }
    proof {
        the_layout_holds_rows(models, inner.width as int, inner.height as int);
    }
    laid
}

// ---------------------------------------------------------------------------
// The overlay on the screen

/// A rectangle of the screen.
#[derive(Debug, Clone, Copy, PartialEq, Eq, Structural)]
pub struct Area {
    pub x: u16,
    pub y: u16,
    pub width: u16,
    pub height: u16,
}

/// A coordinate, or the largest there is.
pub open spec fn on_screen(n: int) -> int {
    smaller(n, u16::MAX as int)
}

/// What an edge of one cell leaves of an area, on all four sides.
pub open spec fn inside(area: Area) -> Area {
    Area {
        x: smaller(area.x + 1, on_screen(area.x + area.width)) as u16,
        y: smaller(area.y + 1, on_screen(area.y + area.height)) as u16,
        width: larger(area.width - 2, 0) as u16,
        height: larger(area.height - 2, 0) as u16,
    }
}

/// What the borders of a block leave of `area`, as `Block::bordered` and
/// `Block::inner` compute it: one cell less on each side, and a corner that
/// does not leave the area.
#[verifier::external_body]
pub(crate) fn inner_of(area: Area) -> (inner: Area)
    ensures
        inner == inside(area),
{
    let rect = Rect { x: area.x, y: area.y, width: area.width, height: area.height };
    let inner = Block::bordered().inner(rect);
    Area { x: inner.x, y: inner.y, width: inner.width, height: inner.height }
}

/// The rows of the column that holds the most.
pub open spec fn tallest(columns: Seq<ColumnModel>) -> int
    decreases columns.len(),
{
    if columns.len() == 0 {
        0
    } else {
        larger(tallest(columns.drop_last()), columns.last().len)
    }
}

/// How wide the panel round some columns is: the columns and two borders, in
/// no more than the area.
pub open spec fn panel_width(area: Area, columns: Seq<ColumnModel>) -> int {
    smaller(on_screen(capped(spanned(columns) + 2)), area.width as int)
}

/// How tall the panel round some columns is.
pub open spec fn panel_height(area: Area, columns: Seq<ColumnModel>) -> int {
    smaller(on_screen(capped(tallest(columns) + 2)), area.height as int)
}

/// Whether the panel's corner is on the screen.
pub open spec fn panel_fits(area: Area, columns: Seq<ColumnModel>) -> bool {
    &&& area.x + (area.width - panel_width(area, columns)) / 2 <= u16::MAX
    &&& area.y + (area.height - panel_height(area, columns)) / 2 <= u16::MAX
}

/// The panel round some columns, in the middle of an area.
pub open spec fn panel_of(area: Area, columns: Seq<ColumnModel>) -> Area {
    let width = panel_width(area, columns);
    let height = panel_height(area, columns);
    Area {
        x: (area.x + (area.width - width) / 2) as u16,
        y: (area.y + (area.height - height) / 2) as u16,
        width: width as u16,
        height: height as u16,
    }
}

/// A coordinate, or the largest there is.
fn coordinate(n: usize) -> (short: u16)
    ensures
        short == on_screen(n as int),
{
    if n > 65535 {
        65535
    } else {
        n as u16
    }
}

/// The rows of the column that holds the most.
fn tallest_of(columns: &Vec<Column>) -> (rows: usize)
    ensures
        rows == tallest(column_models(columns@)),
{
    let ghost models = column_models(columns@);
    let mut most: usize = 0;
    let mut i: usize = 0;
    assert(models.take(0) =~= Seq::empty());
    while i < columns.len()
        invariant
            i <= columns@.len(),
            models == column_models(columns@),
            most == tallest(models.take(i as int)),
        decreases columns@.len() - i,
    {
        proof {
            assert(models.take(i + 1).drop_last() =~= models.take(i as int));
            assert(models.take(i + 1).last() == columns@[i as int]@);
        }
        if columns[i].len > most {
            most = columns[i].len;
        }
        i += 1;
    }
    assert(models.take(i as int) =~= models);
    most
}

/// The bordered panel that `columns` need, in the middle of `area` and no
/// larger than it.
pub fn panel(area: Area, columns: &Vec<Column>) -> (panel: Area)
    requires
        panel_fits(area, column_models(columns@)),
    ensures
        panel == panel_of(area, column_models(columns@)),
{
    let wide: u16 = coordinate(total_width(columns).saturating_add(2));
    let width: u16 = if wide <= area.width {
        wide
    } else {
        area.width
    };
    let tall: u16 = coordinate(tallest_of(columns).saturating_add(2));
    let height: u16 = if tall <= area.height {
        tall
    } else {
        area.height
    };
    Area {
        x: area.x + (area.width - width) / 2,
        y: area.y + (area.height - height) / 2,
        width,
        height,
    }
}

/// What a text of the overlay is, which decides how it is drawn.
#[derive(Debug, Clone, Copy, PartialEq, Eq, Structural)]
pub enum Face {
    Heading,
    Keys,
    Action,
}

impl Face {
    /// The colour of such a text, if it has one of its own.
    pub fn colour(self) -> (colour: Option<Color>)
        ensures
            colour == match self {
                Face::Heading => Some(Color::Green),
                Face::Keys => Some(Color::Yellow),
                Face::Action => None,
            },
    {
        match self {
            Face::Heading => Some(Color::Green),
            Face::Keys => Some(Color::Yellow),
            Face::Action => None,
        }
    }

    /// Whether such a text is bold.
    pub fn is_bold(self) -> (bold: bool)
        ensures
            bold == (self == Face::Heading),
    {
        match self {
            Face::Heading => true,
            Face::Keys | Face::Action => false,
        }
    }
}

/// A text of the overlay: where it begins, how many columns it may fill, and
/// what it is.
#[derive(Debug)]
pub struct Label {
    pub x: u16,
    pub y: u16,
    pub text: String,
    pub room: usize,
    pub face: Face,
}

/// The model of a `Label`.
pub struct LabelModel {
    pub x: int,
    pub y: int,
    pub text: Seq<char>,
    pub room: int,
    pub face: Face,
}

impl View for Label {
    type V = LabelModel;

    open spec fn view(&self) -> LabelModel {
        LabelModel {
            x: self.x as int,
            y: self.y as int,
            text: self.text@,
            room: self.room as int,
            face: self.face,
        }
    }
}

/// The models of a sequence of labels.
pub open spec fn label_models(labels: Seq<Label>) -> Seq<LabelModel> {
    Seq::new(labels.len(), |i: int| labels[i]@)
}

/// Where a column begins.
pub open spec fn column_x(inner: Area, column: ColumnModel) -> int {
    inner.x + on_screen(column.x)
}

/// Where the descriptions of a column begin.
pub open spec fn action_x(inner: Area, column: ColumnModel) -> int {
    column_x(inner, column) + on_screen(capped(column.key_width + KEY_GAP))
}

/// How many columns are left to the right edge of an area.
pub open spec fn room_from(inner: Area, x: int) -> int {
    larger(on_screen(inner.x + inner.width) - x, 0)
}

/// The text of a face at a place, with the room that is left there.
pub open spec fn label_at(inner: Area, x: int, y: int, text: Seq<char>, face: Face) -> LabelModel {
    LabelModel { x, y, text, room: room_from(inner, x), face }
}

/// The texts of a row.
pub open spec fn row_labels(row: RowModel, inner: Area, column: ColumnModel, y: int) -> Seq<LabelModel> {
    let x = column_x(inner, column);
    match row {
        RowModel::Blank => Seq::empty(),
        RowModel::Heading(title) => seq![label_at(inner, x, y, title, Face::Heading)],
        RowModel::Entry { keys, action } => seq![
            label_at(inner, x, y, keys, Face::Keys),
            label_at(inner, action_x(inner, column), y, action, Face::Action),
        ],
    }
}

/// The texts of the first `count` rows of a column.
pub open spec fn column_labels(
    rows: Seq<RowModel>,
    inner: Area,
    column: ColumnModel,
    count: int,
) -> Seq<LabelModel>
    decreases count,
{
    if count <= 0 {
        Seq::empty()
    } else {
        column_labels(rows, inner, column, count - 1) + row_labels(
            rows[column.start + count - 1],
            inner,
            column,
            inner.y + on_screen(count - 1),
        )
    }
}

/// The texts of the first `count` columns.
pub open spec fn all_labels(
    rows: Seq<RowModel>,
    inner: Area,
    columns: Seq<ColumnModel>,
    count: int,
) -> Seq<LabelModel>
    decreases count,
{
    if count <= 0 {
        Seq::empty()
    } else {
        all_labels(rows, inner, columns, count - 1) + column_labels(
            rows,
            inner,
            columns[count - 1],
            columns[count - 1].len,
        )
    }
}

/// Whether every text of a column begins on the screen.
pub open spec fn column_fits(inner: Area, column: ColumnModel) -> bool {
    &&& action_x(inner, column) <= u16::MAX
    &&& inner.y + on_screen(column.len - 1) <= u16::MAX
}

/// Whether all of the overlay is on the screen: the panel and where every
/// text begins.
pub open spec fn drawable(area: Area, rows: Seq<RowModel>) -> bool {
    let outer = inside(area);
    let columns = layout_of(rows, outer.width as int, outer.height as int);
    let inner = inside(panel_of(area, columns));
    &&& panel_fits(area, columns)
    &&& forall|i: int| 0 <= i < columns.len() ==> column_fits(inner, #[trigger] columns[i])
}

/// What the bottom border says when some rows are not shown.
pub open spec fn missing_text(missing: nat) -> Seq<char> {
    " "@ + text::decimal(missing) + " more rows — see the README "@
}

/// The overlay as it is drawn: the bordered panel, what its bottom border
/// says, and the texts in it.
#[derive(Debug)]
pub struct Overlay {
    pub panel: Area,
    pub bottom: Option<String>,
    pub labels: Vec<Label>,
}

/// The model of an `Overlay`.
pub struct OverlayModel {
    pub panel: Area,
    pub bottom: Option<Seq<char>>,
    pub labels: Seq<LabelModel>,
}

impl View for Overlay {
    type V = OverlayModel;

    open spec fn view(&self) -> OverlayModel {
        OverlayModel {
            panel: self.panel,
            bottom: text::option_text(self.bottom),
            labels: label_models(self.labels@),
        }
    }
}

/// The overlay of some rows in an area.
pub open spec fn drawn(area: Area, rows: Seq<RowModel>) -> OverlayModel {
    let outer = inside(area);
    let columns = layout_of(rows, outer.width as int, outer.height as int);
    let panel = panel_of(area, columns);
    OverlayModel {
        panel,
        bottom: if rows_held(columns) < rows.len() {
            Some(missing_text((rows.len() - rows_held(columns)) as nat))
        } else {
            None
        },
        labels: all_labels(rows, inside(panel), columns, columns.len() as int),
    }
}

/// How many columns are left from `x` to the right edge of `inner`.
fn room(inner: Area, x: u16) -> (room: usize)
    ensures
        room == room_from(inner, x as int),
{
    inner.x.saturating_add(inner.width).saturating_sub(x) as usize
}

/// Adds the texts of the rows of `column`.
fn add_column(rows: &Vec<Row>, inner: Area, column: Column, labels: &mut Vec<Label>)
    requires
        column.start + column.len <= rows@.len(),
        column_fits(inner, column@),
    ensures
        label_models(final(labels)@) == label_models(old(labels)@) + column_labels(
            row_models(rows@),
            inner,
            column@,
            column.len as int,
        ),
{
    let ghost models = row_models(rows@);
    let ghost before = label_models(labels@);
    if column.len == 0 {
        assert(label_models(labels@) =~= before + column_labels(models, inner, column@, 0));
        return ;
    }
    let total: usize = rows.len();
    let x: u16 = inner.x + coordinate(column.x);
    let beside: u16 = x + coordinate(column.key_width.saturating_add(KEY_GAP));
    let mut offset: usize = 0;
    assert(label_models(labels@) =~= before + column_labels(models, inner, column@, 0));
    while offset < column.len
        invariant
            offset <= column.len,
            column.start + column.len <= total,
            total == rows@.len(),
            column_fits(inner, column@),
            models == row_models(rows@),
            x == column_x(inner, column@),
            beside == action_x(inner, column@),
            label_models(labels@) == before + column_labels(models, inner, column@, offset as int),
        decreases column.len - offset,
    {
        let y: u16 = inner.y + coordinate(offset);
        let ghost known = label_models(labels@);
        let ghost above = column_labels(models, inner, column@, offset as int);
        let ghost more = row_labels(models[column.start + offset], inner, column@, y as int);
        assert(models[column.start + offset] == rows@[column.start + offset]@);
        match &rows[column.start + offset] {
            Row::Blank => {
                assert(label_models(labels@) =~= known + more);
            },
            Row::Heading(title) => {
                let label = Label {
                    x,
                    y,
                    text: (*title).to_owned(),
                    room: room(inner, x),
                    face: Face::Heading,
                };
                labels.push(label);
                assert(label_models(labels@) =~= known + more);
            },
            Row::Entry { keys, action } => {
                let label = Label {
                    x,
                    y,
                    text: keys.clone(),
                    room: room(inner, x),
                    face: Face::Keys,
                };
                labels.push(label);
                let label = Label {
                    x: beside,
                    y,
                    text: (*action).to_owned(),
                    room: room(inner, beside),
                    face: Face::Action,
                };
                labels.push(label);
                assert(label_models(labels@) =~= known + more);
            },
        }
        assert(known + more =~= before + (above + more));
        offset += 1;
    }
}

/// The overlay for the keymap in force, in the middle of `area`.
///
/// The rows flow into as many columns as it takes to fit the height. Where
/// they do not fit, the bottom border says how many are missing.
pub fn overlay(area: Area, keymap: &Keymap) -> (overlay: Overlay)
    requires
        drawable(area, table_rows(keymap@)),
    ensures
        overlay@ == drawn(area, table_rows(keymap@)),
{
    let rows = rows(keymap);
    draw(area, &rows)
}

/// The texts of all columns.
fn labels_in(rows: &Vec<Row>, inner: Area, columns: &Vec<Column>) -> (labels: Vec<Label>)
    requires
        contiguous(row_models(rows@), column_models(columns@)),
        forall|i: int|
            0 <= i < columns@.len() ==> column_fits(inner, #[trigger] column_models(columns@)[i]),
    ensures
        label_models(labels@) == all_labels(
            row_models(rows@),
            inner,
            column_models(columns@),
            columns@.len() as int,
        ),
{
    let ghost models = row_models(rows@);
    let ghost laid = column_models(columns@);
    let mut labels: Vec<Label> = Vec::new();
    let mut i: usize = 0;
    assert(label_models(labels@) =~= all_labels(models, inner, laid, 0));
    while i < columns.len()
        invariant
            i <= columns@.len(),
            models == row_models(rows@),
            laid == column_models(columns@),
            forall|j: int| 0 <= j < laid.len() ==> column_fits(inner, #[trigger] laid[j]),
            contiguous(models, laid),
            label_models(labels@) == all_labels(models, inner, laid, i as int),
        decreases columns@.len() - i,
    {
        assert(laid[i as int] == columns@[i as int]@);
        add_column(rows, inner, columns[i], &mut labels);
        i += 1;
    }
    labels
}

/// What the bottom border says when `missing` rows are not shown.
fn missing_line(missing: usize) -> (line: String)
    ensures
        line@ == missing_text(missing as nat),
{
    let mut line = " ".to_owned();
    line.append(text::decimal_of(missing).as_str());
    line.append(" more rows — see the README ");
    line
}

/// Whether every text of `column` begins on the screen.
fn fits_column(inner: Area, column: Column) -> (yes: bool)
    ensures
        yes == column_fits(inner, column@),
{
    let beside: u16 = coordinate(column.key_width.saturating_add(KEY_GAP));
    let right: u32 = inner.x as u32 + coordinate(column.x) as u32 + beside as u32;
    let below: u32 = if column.len == 0 {
        0
    } else {
        inner.y as u32 + coordinate(column.len - 1) as u32
    };
    right <= 65535 && below <= 65535
}

/// Whether all of the overlay of `rows` in `area` is on the screen.
pub fn can_draw(area: Area, rows: &Vec<Row>) -> (yes: bool)
    ensures
        yes == drawable(area, row_models(rows@)),
{
    let columns = layout(rows, inner_of(area));
    let ghost laid = column_models(columns@);
    let wide: u32 = coordinate(total_width(&columns).saturating_add(2)) as u32;
    let tall: u32 = coordinate(tallest_of(&columns).saturating_add(2)) as u32;
    let spare: u32 = if wide <= area.width as u32 {
        area.width as u32 - wide
    } else {
        0
    };
    let below: u32 = if tall <= area.height as u32 {
        area.height as u32 - tall
    } else {
        0
    };
    if area.x as u32 + spare / 2 > 65535 || area.y as u32 + below / 2 > 65535 {
        assert(!panel_fits(area, laid));
        return false;
    }
    let inner = inner_of(panel(area, &columns));
    let mut i: usize = 0;
    while i < columns.len()
        invariant
            i <= columns@.len(),
            laid == column_models(columns@),
            forall|j: int| 0 <= j < i ==> column_fits(inner, #[trigger] laid[j]),
        ensures
            i <= columns@.len(),
            forall|j: int| 0 <= j < i ==> column_fits(inner, #[trigger] laid[j]),
            i < columns@.len() ==> !column_fits(inner, laid[i as int]),
        decreases columns@.len() - i,
    {
        assert(laid[i as int] == columns@[i as int]@);
        if !fits_column(inner, columns[i]) {
            break;
        }
        i += 1;
    }
    i == columns.len()
}

/// The overlay of `rows`, in the middle of `area`.
pub fn draw(area: Area, rows: &Vec<Row>) -> (overlay: Overlay)
    requires
        drawable(area, row_models(rows@)),
    ensures
        overlay@ == drawn(area, row_models(rows@)),
{
    let outer = inner_of(area);
    let columns = layout(rows, outer);
    proof {
        the_layout_holds_rows(row_models(rows@), outer.width as int, outer.height as int);
    }
    let panel = panel(area, &columns);
    let total: usize = rows.len();
    let held: usize = shown(&columns);
    let bottom = if held < total {
        Some(missing_line(total - held))
    } else {
        None
    };
    let labels = labels_in(rows, inner_of(panel), &columns);
    Overlay { panel, bottom, labels }
}

// ---------------------------------------------------------------------------
// Laws

/// Columns that hold the rows from the first on, in order and without a gap.
pub open spec fn contiguous(rows: Seq<RowModel>, columns: Seq<ColumnModel>) -> bool {
    &&& columns.len() > 0 ==> columns[0].start == 0
    &&& forall|i: int|
        0 <= i < columns.len() ==> {
            &&& 0 <= (#[trigger] columns[i]).start
            &&& 1 <= columns[i].len
            &&& columns[i].start + columns[i].len <= rows.len()
        }
    &&& forall|i: int, j: int|
        0 <= i && j == i + 1 && j < columns.len() ==> (#[trigger] columns[j]).start == (
        #[trigger] columns[i]).start + columns[i].len
}

/// What holds of the columns from `start` on.
pub proof fn packing_from(rows: Seq<RowModel>, left: int, per: int, start: int, x: int)
    requires
        per >= 1,
        start >= 0,
        x >= 0,
    ensures
        ({
            let columns = packed_from(rows, left, per, start, x);
            &&& columns.len() > 0 ==> columns[0].start == start && columns[0].x == x
            &&& columns.len() <= larger(left, 0)
            &&& forall|i: int|
                0 <= i < columns.len() ==> {
                    &&& start <= (#[trigger] columns[i]).start
                    &&& 1 <= columns[i].len <= per
                    &&& columns[i].start + columns[i].len <= rows.len()
                    &&& columns[i].x >= 0
                    &&& columns[i].width >= 0
                }
            &&& forall|i: int, j: int|
                0 <= i && j == i + 1 && j < columns.len() ==> {
                    &&& (#[trigger] columns[j]).start == (#[trigger] columns[i]).start
                        + columns[i].len
                    &&& columns[j].x == capped(capped(columns[i].x + columns[i].width) + GUTTER)
                }
            &&& rows_held(columns) == smaller(
                left_rows(left, per),
                larger(rows.len() - start, 0),
            )
        }),
    decreases left,
{
    let columns = packed_from(rows, left, per, start, x);
    if left > 0 && start < rows.len() {
        let column = column_at(rows, start, smaller(per, rows.len() - start), x);
        let next = capped(capped(x + column.width) + GUTTER);
        widths_are_not_negative(rows, start, start + column.len);
        packing_from(rows, left - 1, per, start + per, next);
        let rest = packed_from(rows, left - 1, per, start + per, next);
        assert(columns == seq![column] + rest);
        held_from_the_front(columns);
        assert(columns.drop_first() =~= rest);
        assert forall|i: int, j: int| 0 <= i && j == i + 1 && j < columns.len() implies {
            &&& (#[trigger] columns[j]).start == (#[trigger] columns[i]).start + columns[i].len
            &&& columns[j].x == capped(capped(columns[i].x + columns[i].width) + GUTTER)
        } by {
            assert(rest[j - 1] == columns[j]);
            if i > 0 {
                assert(rest[i - 1] == columns[i]);
            }
        }
        assert forall|i: int| 0 <= i < columns.len() implies {
            &&& start <= (#[trigger] columns[i]).start
            &&& 1 <= columns[i].len <= per
            &&& columns[i].start + columns[i].len <= rows.len()
            &&& columns[i].x >= 0
            &&& columns[i].width >= 0
        } by {
            if i > 0 {
                assert(rest[i - 1] == columns[i]);
            }
        }
        more_columns_more_rows(left, per);
    } else if left > 0 {
        more_columns_more_rows(left, per);
    }
}

/// How many rows `left` columns of `per` rows have room for.
pub open spec fn left_rows(left: int, per: int) -> int {
    if left <= 0 {
        0
    } else {
        left * per
    }
}

proof fn more_columns_more_rows(left: int, per: int)
    requires
        left > 0,
        per >= 1,
    ensures
        left_rows(left, per) == left_rows(left - 1, per) + per,
        left_rows(left - 1, per) >= 0,
{
    assert(left * per == (left - 1) * per + per) by (nonlinear_arith);
    assert((left - 1) * per >= 0) by (nonlinear_arith)
        requires
            left >= 1,
            per >= 1,
    ;
}

pub proof fn widths_are_not_negative(rows: Seq<RowModel>, from: int, to: int)
    ensures
        widest_keys(rows, from, to) >= 0,
        widest_text(rows, from, to) >= 0,
    decreases to - from,
{
    if from < to {
        widths_are_not_negative(rows, from, to - 1);
    }
}

/// The rows held are those of the first column and of the others.
proof fn held_from_the_front(columns: Seq<ColumnModel>)
    requires
        columns.len() > 0,
    ensures
        rows_held(columns) == columns[0].len + rows_held(columns.drop_first()),
    decreases columns.len(),
{
    if columns.len() > 1 {
        held_from_the_front(columns.drop_last());
        assert(columns.drop_last().drop_first() =~= columns.drop_first().drop_last());
        assert(columns.drop_first().last() == columns.last());
    } else {
        assert(columns.drop_last() =~= Seq::empty());
        assert(columns.drop_first() =~= Seq::empty());
    }
}

/// Balanced columns hold the rows from the first on, in order and without a
/// gap; there are no more columns than were asked for, and none is taller
/// than the height.
pub proof fn columns_hold_the_rows_in_order(rows: Seq<RowModel>, count: int, height: int)
    requires
        count >= 1,
        height >= 1,
    ensures
        contiguous(rows, packed(rows, count, height)),
        packed(rows, count, height).len() <= count,
        forall|i: int|
            0 <= i < packed(rows, count, height).len() ==> (#[trigger] packed(rows, count, height)[i]).len
                <= height,
        0 <= rows_held(packed(rows, count, height)) <= rows.len(),
{
    let per = rows_per_column(rows.len() as int, count, height);
    packing_from(rows, count, per, 0, 0);
    assert(count * per >= 0) by (nonlinear_arith)
        requires
            count >= 1,
            per >= 1,
    ;
}

/// No two columns overlap: each begins the width of a gutter behind the one
/// before it, as long as the screen's widths can be counted at all.
pub proof fn columns_stand_side_by_side(rows: Seq<RowModel>, count: int, height: int, i: int)
    requires
        count >= 1,
        height >= 1,
        0 <= i < packed(rows, count, height).len() - 1,
        packed(rows, count, height)[i + 1].x < usize::MAX,
    ensures
        packed(rows, count, height)[i + 1].x == packed(rows, count, height)[i].x + packed(
            rows,
            count,
            height,
        )[i].width + GUTTER,
{
    packing_from(rows, count, rows_per_column(rows.len() as int, count, height), 0, 0);
}

/// As many columns as the height calls for hold every row.
pub proof fn enough_columns_hold_every_row(rows: Seq<RowModel>, count: int, height: int)
    requires
        height >= 1,
        count >= 1,
        count >= ceiling(rows.len() as int, height),
    ensures
        rows_held(packed(rows, count, height)) == rows.len(),
{
    let total = rows.len() as int;
    let per = rows_per_column(total, count, height);
    packing_from(rows, count, per, 0, 0);
    assert(count * per >= total) by {
        rounding_up_covers(total, count);
        rounding_up_covers(total, height);
        if ceiling(total, count) <= height {
            assert(count * per >= count * ceiling(total, count)) by (nonlinear_arith)
                requires
                    per >= ceiling(total, count),
                    count >= 1,
            ;
        } else {
            assert(per == height);
            assert(count * height >= ceiling(total, height) * height) by (nonlinear_arith)
                requires
                    count >= ceiling(total, height),
                    height >= 1,
            ;
        }
    }
}

pub proof fn rounding_up_covers(n: int, d: int)
    requires
        n >= 0,
        d >= 1,
    ensures
        d * ceiling(n, d) >= n,
        ceiling(n, d) * d >= n,
        ceiling(n, d) >= 0,
{
    vstd::arithmetic::div_mod::lemma_fundamental_div_mod(n, d);
    vstd::arithmetic::div_mod::lemma_mod_bound(n, d);
    assert(n / d >= 0) by (nonlinear_arith)
        requires
            n >= 0,
            d >= 1,
    ;
    let q = n / d;
    assert(d * (q + 1) == d * q + d) by (nonlinear_arith);
    assert(d * ceiling(n, d) == ceiling(n, d) * d) by (nonlinear_arith);
}

/// The columns laid out are columns of the rows, and either fit the width or
/// are a single one.
proof fn laying_out(rows: Seq<RowModel>, width: int, height: int, count: int)
    requires
        height >= 1,
        count >= 1,
    ensures
        contiguous(rows, laid_out(rows, width, height, count)),
        0 <= rows_held(laid_out(rows, width, height, count)) <= rows.len(),
        spanned(laid_out(rows, width, height, count)) <= width || laid_out(
            rows,
            width,
            height,
            count,
        ).len() <= 1,
        forall|i: int|
            0 <= i < laid_out(rows, width, height, count).len() ==> (#[trigger] laid_out(
                rows,
                width,
                height,
                count,
            )[i]).len <= height,
    decreases count,
{
    columns_hold_the_rows_in_order(rows, count, height);
    if !(spanned(packed(rows, count, height)) <= width || count <= 1) {
        laying_out(rows, width, height, count - 1);
    }
}

/// The overlay shows rows from the first on, in order and without a gap, in
/// columns that fit the area; only a single column may be too wide for it.
pub proof fn the_layout_holds_rows(rows: Seq<RowModel>, width: int, height: int)
    ensures
        contiguous(rows, layout_of(rows, width, height)),
        0 <= rows_held(layout_of(rows, width, height)) <= rows.len(),
        spanned(layout_of(rows, width, height)) <= width || layout_of(rows, width, height).len() <= 1,
        forall|i: int|
            0 <= i < layout_of(rows, width, height).len() ==> (#[trigger] layout_of(
                rows,
                width,
                height,
            )[i]).len <= larger(height, 1),
{
    let tall = larger(height, 1);
    laying_out(rows, width, tall, larger(ceiling(rows.len() as int, tall), 1));
}

/// Where the columns that the height calls for fit the width, every row is
/// shown, and nothing is said to be missing.
pub proof fn a_large_area_shows_every_row(area: Area, rows: Seq<RowModel>)
    requires
        ({
            let tall = larger(inside(area).height as int, 1);
            spanned(packed(rows, larger(ceiling(rows.len() as int, tall), 1), tall)) <= inside(
                area,
            ).width
        }),
    ensures
        drawn(area, rows).bottom is None,
{
    let tall = larger(inside(area).height as int, 1);
    let count = larger(ceiling(rows.len() as int, tall), 1);
    enough_columns_hold_every_row(rows, count, tall);
    assert(layout_of(rows, inside(area).width as int, inside(area).height as int) == packed(
        rows,
        count,
        tall,
    ));
}

/// The overlay lies inside the area and in the middle of it: the margins on
/// opposite sides differ by no more than one cell.
pub proof fn the_panel_is_centred(area: Area, rows: Seq<RowModel>)
    requires
        drawable(area, rows),
    ensures
        ({
            let panel = drawn(area, rows).panel;
            let left = panel.x - area.x;
            let right = area.width - panel.width - left;
            let above = panel.y - area.y;
            let below = area.height - panel.height - above;
            &&& 0 <= left <= right <= left + 1
            &&& 0 <= above <= below <= above + 1
        }),
{
    let outer = inside(area);
    let columns = layout_of(rows, outer.width as int, outer.height as int);
    the_layout_holds_rows(rows, outer.width as int, outer.height as int);
    spans_are_not_negative(rows, outer.width as int, outer.height as int);
}

pub proof fn spans_are_not_negative(rows: Seq<RowModel>, width: int, height: int)
    ensures
        spanned(layout_of(rows, width, height)) >= 0,
        tallest(layout_of(rows, width, height)) >= 0,
{
    let tall = larger(height, 1);
    laid_out_spans(rows, width, tall, larger(ceiling(rows.len() as int, tall), 1));
    heights_are_not_negative(layout_of(rows, width, height));
}

proof fn laid_out_spans(rows: Seq<RowModel>, width: int, height: int, count: int)
    requires
        height >= 1,
        count >= 1,
    ensures
        spanned(laid_out(rows, width, height, count)) >= 0,
    decreases count,
{
    packing_from(rows, count, rows_per_column(rows.len() as int, count, height), 0, 0);
    if !(spanned(packed(rows, count, height)) <= width || count <= 1) {
        laid_out_spans(rows, width, height, count - 1);
    }
}

proof fn heights_are_not_negative(columns: Seq<ColumnModel>)
    ensures
        tallest(columns) >= 0,
    decreases columns.len(),
{
    if columns.len() > 0 {
        heights_are_not_negative(columns.drop_last());
    }
}

/// A row that documents no action shows its own labels, whatever is bound.
pub proof fn a_row_without_actions_stands(
    row: BindingModel,
    keymap: KeymapModel,
    defaults: KeymapModel,
)
    requires
        row.names.len() == 0,
    ensures
        row_keys(row, keymap, defaults) == listed(row.keys),
{
}

/// Under the bindings that the actions come with, a row shows the labels that
/// the table gives it, as the table orders them.
pub proof fn the_defaults_show_the_tables_own_keys(row: BindingModel, defaults: KeymapModel)
    requires
        row.keys.no_duplicates(),
        row.keys.len() > 0,
    ensures
        row_keys(row, defaults, defaults) == listed(row.keys),
{
    if row.names.len() > 0 {
        own_labels(row, defaults, row.keys.len() as int);
        assert(row.keys.take(row.keys.len() as int) =~= row.keys);
    }
}

proof fn own_labels(row: BindingModel, defaults: KeymapModel, count: int)
    requires
        row.keys.no_duplicates(),
        0 <= count <= row.keys.len(),
    ensures
        shown_labels(row, defaults, defaults, count) == row.keys.take(count),
    decreases count,
{
    if count > 0 {
        let key = row.keys[count - 1];
        let shown = row.keys.take(count - 1);
        own_labels(row, defaults, count - 1);
        let more = replaced(key, row.names, defaults, defaults);
        own_replacement(key, row.names, defaults, row.names.len() as int);
        assert(!shown.contains(key)) by {
            if shown.contains(key) {
                let i = choose|i: int| 0 <= i < shown.len() && shown[i] == key;
                assert(row.keys[i] == row.keys[count - 1]);
            }
        }
        one_new(shown, more, key, more.len() as int);
        assert(row.keys.take(count) =~= shown.push(key));
    } else {
        assert(row.keys.take(0) =~= shown_labels(row, defaults, defaults, 0));
    }
}

/// Whatever an action's own bindings put in place of a key is that key.
proof fn own_replacement(key: Seq<char>, names: Seq<Seq<char>>, defaults: KeymapModel, count: int)
    requires
        0 <= count <= names.len(),
    ensures
        ({
            let found = found_for(key, names, defaults, defaults, count);
            &&& forall|i: int| 0 <= i < found.len() ==> #[trigger] found[i] == key
            &&& claimed(key, names, defaults, count) ==> found.len() > 0
        }),
    decreases count,
{
    if count > 0 {
        own_replacement(key, names, defaults, count - 1);
        if let Some(action) = keymap::action_of(names[count - 1]) {
            place_is_the_keys(defaults[action], key, 0);
        }
        if claimed(key, names, defaults, count) {
            let i = choose|i: int|
                0 <= i < count && #[trigger] claim(key, names[i], defaults) is Some;
            if i < count - 1 {
                assert(claimed(key, names, defaults, count - 1));
            } else {
                assert(claim(key, names[count - 1], defaults) is Some);
            }
        }
    }
}

proof fn place_is_the_keys(labels: Seq<Seq<char>>, key: Seq<char>, i: int)
    requires
        0 <= i,
    ensures
        place_of(labels, key, i) matches Some(place) ==> i <= place < labels.len() && labels[place]
            == key,
    decreases labels.len() - i,
{
    if i < labels.len() && labels[i] != key {
        place_is_the_keys(labels, key, i + 1);
    }
}

/// The same label again and again is new once.
proof fn one_new(shown: Seq<Seq<char>>, more: Seq<Seq<char>>, key: Seq<char>, count: int)
    requires
        0 <= count <= more.len(),
        forall|i: int| 0 <= i < more.len() ==> #[trigger] more[i] == key,
        !shown.contains(key),
    ensures
        with_new(shown, more, count) == if count == 0 {
            shown
        } else {
            shown.push(key)
        },
    decreases count,
{
    if count > 0 {
        one_new(shown, more, key, count - 1);
        assert(shown.push(key)[shown.len() as int] == key);
        assert(shown.push(key).contains(key));
    }
}

/// A row follows the bindings of the actions that it names and of no others:
/// two keymaps that agree on those show the same keys.
pub proof fn a_row_follows_its_own_actions(
    row: BindingModel,
    one: KeymapModel,
    other: KeymapModel,
    defaults: KeymapModel,
)
    requires
        forall|i: int|
            0 <= i < row.names.len() ==> {
                let action = keymap::action_of(#[trigger] row.names[i]);
                action is Some ==> one[action->Some_0] == other[action->Some_0]
            },
    ensures
        row_keys(row, one, defaults) == row_keys(row, other, defaults),
{
    same_labels(row, one, other, defaults, row.keys.len() as int);
}

proof fn same_labels(
    row: BindingModel,
    one: KeymapModel,
    other: KeymapModel,
    defaults: KeymapModel,
    count: int,
)
    requires
        count <= row.keys.len(),
        forall|i: int|
            0 <= i < row.names.len() ==> {
                let action = keymap::action_of(#[trigger] row.names[i]);
                action is Some ==> one[action->Some_0] == other[action->Some_0]
            },
    ensures
        shown_labels(row, one, defaults, count) == shown_labels(row, other, defaults, count),
    decreases count,
{
    if count > 0 {
        same_labels(row, one, other, defaults, count - 1);
        same_found(row.keys[count - 1], row.names, one, other, defaults, row.names.len() as int);
    }
}

proof fn same_found(
    key: Seq<char>,
    names: Seq<Seq<char>>,
    one: KeymapModel,
    other: KeymapModel,
    defaults: KeymapModel,
    count: int,
)
    requires
        count <= names.len(),
        forall|i: int|
            0 <= i < names.len() ==> {
                let action = keymap::action_of(#[trigger] names[i]);
                action is Some ==> one[action->Some_0] == other[action->Some_0]
            },
    ensures
        found_for(key, names, one, defaults, count) == found_for(key, names, other, defaults, count),
    decreases count,
{
    if count > 0 {
        same_found(key, names, one, other, defaults, count - 1);
    }
}

/// No row is blank: it shows a key, or says that nothing reaches it.
pub proof fn an_action_left_without_keys_says_so(
    row: BindingModel,
    keymap: KeymapModel,
    defaults: KeymapModel,
)
    requires
        row.names.len() > 0,
        forall|k: int|
            0 <= k < row.keys.len() ==> claimed(
                #[trigger] row.keys[k],
                row.names,
                defaults,
                row.names.len() as int,
            ),
        forall|i: int|
            0 <= i < row.names.len() ==> {
                let action = keymap::action_of(#[trigger] row.names[i]);
                action is Some ==> keymap[action->Some_0].len() == 0
            },
    ensures
        row_keys(row, keymap, defaults) == UNBOUND@,
{
    nothing_shown(row, keymap, defaults, row.keys.len() as int);
}

proof fn nothing_shown(row: BindingModel, keymap: KeymapModel, defaults: KeymapModel, count: int)
    requires
        count <= row.keys.len(),
        forall|k: int|
            0 <= k < row.keys.len() ==> claimed(
                #[trigger] row.keys[k],
                row.names,
                defaults,
                row.names.len() as int,
            ),
        forall|i: int|
            0 <= i < row.names.len() ==> {
                let action = keymap::action_of(#[trigger] row.names[i]);
                action is Some ==> keymap[action->Some_0].len() == 0
            },
    ensures
        shown_labels(row, keymap, defaults, count).len() == 0,
    decreases count,
{
    if count > 0 {
        nothing_shown(row, keymap, defaults, count - 1);
        assert(claimed(row.keys[count - 1], row.names, defaults, row.names.len() as int));
        nothing_found(row.keys[count - 1], row.names, keymap, defaults, row.names.len() as int);
    }
}

proof fn nothing_found(
    key: Seq<char>,
    names: Seq<Seq<char>>,
    keymap: KeymapModel,
    defaults: KeymapModel,
    count: int,
)
    requires
        count <= names.len(),
        forall|i: int|
            0 <= i < names.len() ==> {
                let action = keymap::action_of(#[trigger] names[i]);
                action is Some ==> keymap[action->Some_0].len() == 0
            },
    ensures
        found_for(key, names, keymap, defaults, count).len() == 0,
    decreases count,
{
    if count > 0 {
        nothing_found(key, names, keymap, defaults, count - 1);
        if let Some(action) = keymap::action_of(names[count - 1]) {
            place_is_the_keys(defaults[action], key, 0);
        }
    }
}

} // verus!
