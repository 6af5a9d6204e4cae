//! Which keys reach which action: the bindings that come with the program,
//! and a configuration's changes to them.

use crate::help;
use crate::text;
use vstd::prelude::*;

verus! {

/// How many actions a key can be bound to.
pub const ACTION_COUNT: usize = 93;

/// How many labels an action has at most before a configuration changes them.
pub const LABEL_ROOM: usize = 3;

/// Every action by its name, with the labels of the keys that reach it. The
/// labels end at the first empty one.
pub const ACTIONS: [(&'static str, [&'static str; LABEL_ROOM]); ACTION_COUNT] = [
    ("global.help", ["?", "", ""]),
    ("global.quit", ["q", "", ""]),
    ("global.quit.silent", ["Q", "", ""]),
    ("global.focus.next", ["Tab", "", ""]),
    ("global.focus.prev", ["Shift-Tab", "", ""]),
    ("global.focus.nav", ["e", "", ""]),
    ("global.focus.view", ["t", "", ""]),
    ("global.focus.filters", ["f", "", ""]),
    ("global.search", ["/", "", ""]),
    ("global.search.promote", ["p", "", ""]),
    ("global.search.word", ["*", "", ""]),
    ("global.escape", ["Esc", "", ""]),
    ("global.peek", ["space", "", ""]),
    ("global.file.next", [".", "", ""]),
    ("global.file.prev", [",", "", ""]),
    ("global.page.up", ["[", "", ""]),
    ("global.page.down", ["]", "", ""]),
    ("global.filters.toggle", ["1-9", "", ""]),
    ("global.toggle.hide", ["u", "H", "Ctrl-h"]),
    ("global.filters.disable", ["!", "", ""]),
    ("global.filters.and", ["&", "", ""]),
    ("global.zoom.view", ["b", "", ""]),
    ("global.zoom.focused", ["z", "", ""]),
    ("global.editor.project", ["o", "", ""]),
    ("global.editor.file", ["O", "", ""]),
    ("global.reload", ["r", "", ""]),
    ("global.visual.char", ["v", "", ""]),
    ("global.visual.line", ["V", "", ""]),
    ("global.yank", ["y", "", ""]),
    ("hit.next", ["n", "", ""]),
    ("hit.prev", ["N", "", ""]),
    ("nav.up", ["k", "Up", ""]),
    ("nav.down", ["j", "Down", ""]),
    ("nav.goto.start", ["g", "Home", ""]),
    ("nav.goto.end", ["G", "End", ""]),
    ("nav.halfpage.down", ["Ctrl-d", "", ""]),
    ("nav.halfpage.up", ["Ctrl-u", "", ""]),
    ("nav.page.down", ["PageDown", "", ""]),
    ("nav.page.up", ["PageUp", "", ""]),
    ("nav.hit.next", ["n", "", ""]),
    ("nav.hit.prev", ["N", "", ""]),
    ("nav.open", ["Enter", "l", "Right"]),
    ("nav.parent", ["h", "Left", ""]),
    ("view.up", ["k", "Up", ""]),
    ("view.down", ["j", "Down", ""]),
    ("view.goto.start", ["g", "Home", ""]),
    ("view.goto.end", ["G", "End", ""]),
    ("view.halfpage.down", ["Ctrl-d", "", ""]),
    ("view.halfpage.up", ["Ctrl-u", "", ""]),
    ("view.page.down", ["PageDown", "Ctrl-f", ""]),
    ("view.page.up", ["PageUp", "Ctrl-b", ""]),
    ("view.left", ["h", "Left", ""]),
    ("view.right", ["l", "Right", ""]),
    ("view.word.forward", ["w", "", ""]),
    ("view.line.start", ["0", "^", ""]),
    ("view.line.end", ["$", "", ""]),
    ("view.paragraph.prev", ["{", "", ""]),
    ("view.paragraph.next", ["}", "", ""]),
    ("view.toggle.linenumbers", ["#", "", ""]),
    ("view.scroll.down", ["Ctrl-e", "", ""]),
    ("view.scroll.up", ["Ctrl-y", "", ""]),
    ("filters.up", ["k", "Up", ""]),
    ("filters.down", ["j", "Down", ""]),
    ("filters.goto.start", ["g", "Home", ""]),
    ("filters.goto.end", ["G", "End", ""]),
    ("filters.halfpage.down", ["Ctrl-d", "", ""]),
    ("filters.halfpage.up", ["Ctrl-u", "", ""]),
    ("filters.page.down", ["PageDown", "", ""]),
    ("filters.page.up", ["PageUp", "", ""]),
    ("filters.toggle", ["Enter", "", ""]),
    ("filters.include", ["i", "", ""]),
    ("filters.exclude", ["x", "", ""]),
    ("filters.edit", ["c", "", ""]),
    ("filters.delete", ["d", "", ""]),
    ("filters.context", ["m", "", ""]),
    ("filters.profile", ["a", "", ""]),
    ("filters.solo", ["s", "", ""]),
    ("filters.reset", ["R", "", ""]),
    ("filters.save.set", ["S", "", ""]),
    ("picker.up", ["k", "Up", ""]),
    ("picker.down", ["j", "Down", ""]),
    ("picker.choose", ["Enter", "", ""]),
    ("picker.cancel", ["Esc", "", ""]),
    ("prompt.left", ["Left", "", ""]),
    ("prompt.right", ["Right", "", ""]),
    ("prompt.start", ["Home", "Ctrl-a", ""]),
    ("prompt.end", ["End", "Ctrl-e", ""]),
    ("prompt.delete.back", ["Backspace", "", ""]),
    ("prompt.delete.forward", ["Delete", "", ""]),
    ("prompt.delete.word", ["Ctrl-w", "", ""]),
    ("prompt.delete.start", ["Ctrl-u", "", ""]),
    ("prompt.commit", ["Enter", "", ""]),
    ("prompt.cancel", ["Esc", "", ""]),
];

/// A key, as a terminal reports it.
#[derive(Debug, Clone, Copy, PartialEq, Eq, Structural)]
pub enum KeyCode {
    Char(char),
    F(u8),
    Backspace,
    Enter,
    Left,
    Right,
    Up,
    Down,
    Home,
    End,
    PageUp,
    PageDown,
    Tab,
    BackTab,
    Delete,
    Insert,
    Esc,
    /// Any key that no label names.
    Other,
}

/// A key together with the modifiers that bindings tell apart.
#[derive(Debug, Clone, Copy, PartialEq, Eq, Structural)]
pub struct Key {
    pub code: KeyCode,
    pub ctrl: bool,
    pub alt: bool,
}

// ---------------------------------------------------------------------------
// Lists with room to spare

/// The texts of a list from `i` on, up to its first empty one.
pub open spec fn filled_from(list: Seq<&'static str>, i: int) -> Seq<Seq<char>>
    decreases list.len() - i,
{
    if i >= list.len() || list[i]@.len() == 0 {
        Seq::empty()
    } else {
        seq![list[i]@] + filled_from(list, i + 1)
    }
}

/// The texts of a list, up to its first empty one.
pub open spec fn filled(list: Seq<&'static str>) -> Seq<Seq<char>> {
    filled_from(list, 0)
}

/// The texts of `list`, up to its first empty one.
pub fn filled_of<const N: usize>(list: &[&'static str; N]) -> (texts: Vec<&'static str>)
    ensures
        text::slice_texts(texts@) == filled(list@),
{
    let mut texts: Vec<&'static str> = Vec::new();
    let mut i: usize = 0;
    proof {
        assert(text::slice_texts(texts@) + filled_from(list@, 0) =~= filled(list@));
    }
    while i < N && !list[i].is_empty()
        invariant
            i <= N,
            text::slice_texts(texts@) + filled_from(list@, i as int) == filled(list@),
        decreases N - i,
    {
        let ghost known = text::slice_texts(texts@);
        let ghost rest = filled_from(list@, i + 1);
        texts.push(list[i]);
        proof {
            assert(text::slice_texts(texts@) =~= known.push(list@[i as int]@));
            assert(known + (seq![list@[i as int]@] + rest) =~= known.push(list@[i as int]@) + rest);
        }
        i += 1;
    }
    proof {
        assert(filled_from(list@, i as int) =~= Seq::empty());
        assert(text::slice_texts(texts@) + filled_from(list@, i as int) =~= text::slice_texts(texts@));
    }
    texts
}

// ---------------------------------------------------------------------------
// Actions

/// The place of the action of that name from `i` on, if there is one.
pub open spec fn action_from(name: Seq<char>, i: int) -> Option<int>
    decreases ACTION_COUNT - i,
{
    if i >= ACTION_COUNT {
        None
    } else if ACTIONS[i].0@ == name {
        Some(i)
    } else {
        action_from(name, i + 1)
    }
}

/// The place of the action of that name, if there is one.
pub open spec fn action_of(name: Seq<char>) -> Option<int> {
    action_from(name, 0)
}

/// An action that was found is among the actions.
pub proof fn an_action_is_listed(name: Seq<char>, i: int)
    requires
        0 <= i,
    ensures
        action_from(name, i) matches Some(place) ==> i <= place < ACTION_COUNT && ACTIONS[place].0@
            == name,
    decreases ACTION_COUNT - i,
{
    if i < ACTION_COUNT && ACTIONS[i].0@ != name {
        an_action_is_listed(name, i + 1);
    }
}

/// The place of the action that `name` names among `ACTIONS`.
pub fn action_named(name: &str) -> (action: Option<usize>)
    ensures
        match action {
            Some(place) => action_of(name@) == Some(place as int) && place < ACTION_COUNT,
            None => action_of(name@) is None,
        },
{
    let mut i: usize = 0;
    while i < ACTION_COUNT
        invariant
            i <= ACTION_COUNT,
            action_of(name@) == action_from(name@, i as int),
        decreases ACTION_COUNT - i,
    {
        if text::same(ACTIONS[i].0, name) {
            return Some(i);
        }
        i += 1;
    }
    None
}

// ---------------------------------------------------------------------------
// Keymaps

/// The labels of every action, by the action's place.
pub type KeymapModel = Seq<Seq<Seq<char>>>;

/// The labels that the actions come with.
pub open spec fn default_labels() -> KeymapModel {
    Seq::new(ACTION_COUNT as nat, |i: int| filled(ACTIONS[i].1@))
}

/// The lines of a `[keymap]` table: an action's name, and the labels of the
/// keys that are to reach it.
#[derive(Debug)]
pub struct KeymapConfig {
    pub bindings: Vec<(String, Vec<String>)>,
}

/// What is wrong with a `[keymap]` table.
#[derive(Debug)]
pub enum KeymapError {
    /// No action has this name.
    UnknownAction(String),
    /// No key is spelled like this.
    UnreadableLabel(String),
}

/// The model of a `KeymapError`.
pub enum KeymapErrorModel {
    UnknownAction(Seq<char>),
    UnreadableLabel(Seq<char>),
}

impl View for KeymapError {
    type V = KeymapErrorModel;

    open spec fn view(&self) -> KeymapErrorModel {
        match self {
            KeymapError::UnknownAction(name) => KeymapErrorModel::UnknownAction(name@),
            KeymapError::UnreadableLabel(label) => KeymapErrorModel::UnreadableLabel(label@),
        }
    }
}

/// The lines of a `[keymap]` table as texts.
pub open spec fn lines_of(bindings: Seq<(String, Vec<String>)>) -> Seq<(Seq<char>, Seq<Seq<char>>)> {
    Seq::new(bindings.len(), |i: int| (bindings[i].0@, text::texts(bindings[i].1@)))
}

/// The place of the first label from `i` on that no key is spelled like, or
/// the end.
pub open spec fn first_unreadable(labels: Seq<Seq<char>>, i: int) -> int
    decreases labels.len() - i,
{
    if i >= labels.len() {
        labels.len() as int
    } else if help::documented(labels[i]).len() == 0 {
        i
    } else {
        first_unreadable(labels, i + 1)
    }
}

/// A keymap changed by one line.
pub open spec fn rebound(
    labels: KeymapModel,
    line: (Seq<char>, Seq<Seq<char>>),
) -> Result<KeymapModel, KeymapErrorModel> {
    match action_of(line.0) {
        None => Err(KeymapErrorModel::UnknownAction(line.0)),
        Some(place) => {
            let bad = first_unreadable(line.1, 0);
            if 0 <= bad < line.1.len() {
                Err(KeymapErrorModel::UnreadableLabel(line.1[bad]))
            } else {
                Ok(labels.update(place, line.1))
            }
        },
    }
}

/// A keymap changed by the first `count` lines, up to the first bad one.
pub open spec fn configured(
    lines: Seq<(Seq<char>, Seq<Seq<char>>)>,
    count: nat,
) -> Result<KeymapModel, KeymapErrorModel>
    decreases count,
{
    if count == 0 {
        Ok(default_labels())
    } else {
        match configured(lines, (count - 1) as nat) {
            Ok(labels) => rebound(labels, lines[count - 1]),
            Err(error) => Err(error),
        }
    }
}

/// The bindings in force.
#[derive(Debug)]
pub struct Keymap {
    labels: Vec<Vec<String>>,
}

impl View for Keymap {
    type V = KeymapModel;

    closed spec fn view(&self) -> KeymapModel {
        Seq::new(self.labels@.len(), |i: int| text::texts(self.labels@[i]@))
    }
}

impl Default for Keymap {
    /// The bindings that the actions come with.
    fn default() -> (keymap: Keymap)
        ensures
            keymap@ == default_labels(),
    {
        let mut labels: Vec<Vec<String>> = Vec::new();
        let mut i: usize = 0;
        while i < ACTION_COUNT
            invariant
                i <= ACTION_COUNT,
                labels@.len() == i,
                forall|j: int|
                    0 <= j < i ==> text::texts((#[trigger] labels@[j])@) == filled(ACTIONS[j].1@),
            decreases ACTION_COUNT - i,
        {
            let known = filled_of(&ACTIONS[i].1);
            let owned = owned_texts(&known);
            labels.push(owned);
            i += 1;
        }
        let keymap = Keymap { labels };
        assert(keymap@ =~= default_labels());
        keymap
    }
}

impl Keymap {
    /// A keymap has a list of labels for every action.
    #[verifier::type_invariant]
    spec fn has_every_action(&self) -> bool {
        self.labels@.len() == ACTION_COUNT
    }

    /// The bindings that the actions come with, changed by the lines of a
    /// `[keymap]` table one after the other: each replaces all the labels of
    /// the action it names. The first line that names no action, or holds a
    /// label that no key is spelled like, is refused.
    pub fn new(config: &KeymapConfig) -> (keymap: Result<Keymap, KeymapError>)
        ensures
            match keymap {
                Ok(keymap) => configured(lines_of(config.bindings@), config.bindings@.len()) == Ok::<
                    KeymapModel,
                    KeymapErrorModel,
                >(keymap@),
                Err(error) => configured(lines_of(config.bindings@), config.bindings@.len()) == Err::<
                    KeymapModel,
                    KeymapErrorModel,
                >(error@),
            },
    {
        let mut keymap = Keymap::default();
        let ghost lines = lines_of(config.bindings@);
        let mut i: usize = 0;
        while i < config.bindings.len()
            invariant
                i <= config.bindings@.len(),
                lines == lines_of(config.bindings@),
                configured(lines, i as nat) == Ok::<KeymapModel, KeymapErrorModel>(keymap@),
            decreases config.bindings@.len() - i,
        {
            proof {
                assert(lines[i as int] == (
                    config.bindings@[i as int].0@,
                    text::texts(config.bindings@[i as int].1@),
                ));
            }
            if let Err(error) = keymap.rebind(&config.bindings[i].0, &config.bindings[i].1) {
                proof {
                    refused_once(lines, i as nat, lines.len());
                }
                return Err(error);
            }
            i += 1;
        }
        Ok(keymap)
    }

    /// Gives the action of that name these labels in place of its own.
    fn rebind(&mut self, name: &String, labels: &Vec<String>) -> (done: Result<(), KeymapError>)
        ensures
            match done {
                Ok(_) => rebound(old(self)@, (name@, text::texts(labels@))) == Ok::<
                    KeymapModel,
                    KeymapErrorModel,
                >(final(self)@),
                Err(error) => {
                    &&& rebound(old(self)@, (name@, text::texts(labels@))) == Err::<
                        KeymapModel,
                        KeymapErrorModel,
                    >(error@)
                    &&& final(self)@ == old(self)@
                },
            },
    {
        proof {
            use_type_invariant(&*self);
        }
        let ghost before = self@;
        let place: usize = match action_named(name.as_str()) {
            Some(place) => place,
            None => return Err(KeymapError::UnknownAction(name.clone())),
        };
        let ghost wanted = text::texts(labels@);
        let mut i: usize = 0;
        while i < labels.len()
            invariant
                i <= labels@.len(),
                wanted == text::texts(labels@),
                self@ == before,
                self.labels@.len() == ACTION_COUNT,
                place < ACTION_COUNT,
                action_of(name@) == Some(place as int),
                before == old(self)@,
                first_unreadable(wanted, 0) == first_unreadable(wanted, i as int),
            decreases labels@.len() - i,
        {
            assert(wanted[i as int] == labels@[i as int]@);
            if !help::label_is_readable(labels[i].as_str()) {
                return Err(KeymapError::UnreadableLabel(labels[i].clone()));
            }
            i += 1;
        }
        self.labels[place] = text::clone_texts(labels);
        assert(self@ =~= before.update(place as int, wanted));
        Ok(())
    }

    /// The labels of the keys that reach an action, given by its place.
    pub fn labels_for(&self, action: usize) -> (labels: &Vec<String>)
        requires
            action < ACTION_COUNT,
        ensures
            text::texts(labels@) == self@[action as int],
    {
        proof {
            use_type_invariant(self);
        }
        &self.labels[action]
    }
}

/// What a bad line refuses, no later line mends.
proof fn refused_once(lines: Seq<(Seq<char>, Seq<Seq<char>>)>, i: nat, count: nat)
    requires
        i < count,
        configured(lines, i + 1) is Err,
    ensures
        configured(lines, count) == configured(lines, i + 1),
    decreases count - i,
{
    if count > i + 1 {
        refused_once(lines, i, (count - 1) as nat);
    }
}

/// A string of each text.
pub fn owned_texts(known: &Vec<&'static str>) -> (owned: Vec<String>)
    ensures
        text::texts(owned@) == text::slice_texts(known@),
{
    let mut owned: Vec<String> = Vec::new();
    let mut i: usize = 0;
    while i < known.len()
        invariant
            i <= known@.len(),
            owned@.len() == i,
            forall|j: int| 0 <= j < i ==> (#[trigger] owned@[j])@ == known@[j]@,
        decreases known@.len() - i,
    {
        owned.push(known[i].to_owned());
        i += 1;
    }
    assert(text::texts(owned@) =~= text::slice_texts(known@));
    owned
}

// ---------------------------------------------------------------------------
// Laws

/// A line changes the labels of the action it names and of no other.
pub proof fn a_line_rebinds_one_action(
    labels: KeymapModel,
    line: (Seq<char>, Seq<Seq<char>>),
    other: int,
)
    requires
        labels.len() == ACTION_COUNT,
        0 <= other < ACTION_COUNT,
        action_of(line.0) != Some(other),
    ensures
        rebound(labels, line) matches Ok(after) ==> after.len() == ACTION_COUNT && after[other]
            == labels[other],
{
    an_action_is_listed(line.0, 0);
}

/// A `[keymap]` table is refused as soon as one of its lines is, and what is
/// said of it is what the first bad line calls for.
pub proof fn a_bad_line_refuses_the_table(
    lines: Seq<(Seq<char>, Seq<Seq<char>>)>,
    i: nat,
)
    requires
        i < lines.len(),
        configured(lines, i) is Ok,
        rebound(configured(lines, i)->Ok_0, lines[i as int]) is Err,
    ensures
        configured(lines, lines.len()) == rebound(configured(lines, i)->Ok_0, lines[i as int]),
{
    refused_once(lines, i, lines.len());
}

} // verus!
