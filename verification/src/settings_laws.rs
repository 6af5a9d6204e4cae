//! What settings, key bindings and the clipboard's command come to.

use crate::clipboard::{Platform, ProcessClipboard};
use crate::colour;
use crate::colour::Color;
use crate::config;
use crate::config::{ConfigError, FileConfig};
use crate::fixtures;
use crate::help;
use crate::keymap;
use crate::keymap::{KeymapErrorModel, KeymapModel};
use crate::text;
use vstd::prelude::*;

verus! {

// ---------------------------------------------------------------------------
// Paths of settings

/// A name goes behind a directory with one slash between them, unless one
/// stands there already; a name that begins at the root stands for itself, and
/// behind no directory goes no slash.
pub proof fn where_a_name_goes(dir: Seq<char>, name: Seq<char>, rest: Seq<char>)
    requires
        name.len() == 0 || name[0] != '/',
    ensures
        config::joined_path(dir, seq!['/'] + rest) == seq!['/'] + rest,
        config::joined_path(Seq::empty(), name) == name,
        config::joined_path(dir + seq!['/'], name) == dir + seq!['/'] + name,
        dir.len() > 0 && dir.last() != '/' ==> config::joined_path(dir, name) == dir + seq!['/']
            + name,
{
    reveal_strlit("/");
    assert("/"@ =~= seq!['/']);
    assert((seq!['/'] + rest)[0] == '/');
    assert(Seq::<char>::empty() + name =~= name);
    assert((dir + seq!['/']).last() == '/');
}

/// Settings lie in `recon`, in the directory that `XDG_CONFIG_HOME` names where
/// that begins at the root, and else in `.config` of the home directory, where
/// there is one.
pub proof fn where_settings_lie(xdg: Option<Seq<char>>, home: Option<Seq<char>>, name: Seq<char>)
    ensures
        ({
            let rooted = xdg is Some && xdg->Some_0.len() > 0 && xdg->Some_0[0] == '/';
            let housed = home is Some && home->Some_0.len() > 0;
            let there = config::config_home(xdg, home);
            &&& there is Some <==> rooted || housed
            &&& rooted ==> there == Some(config::joined_path(xdg->Some_0, "recon"@))
            &&& !rooted && housed && home->Some_0.last() != '/' ==> there == Some(
                home->Some_0 + "/.config/recon"@,
            )
            &&& there is Some ==> config::config_child(there, name) == Some(
                config::joined_path(there->Some_0, name),
            )
            &&& there is None ==> config::config_child(there, name) is None
        }),
{
    reveal_strlit("/");
    reveal_strlit(".config");
    reveal_strlit("recon");
    reveal_strlit("/.config/recon");
    if home is Some && home->Some_0.len() > 0 && home->Some_0.last() != '/' {
        let h = home->Some_0;
        let dir = config::joined_path(h, ".config"@);
        assert(dir == h + "/"@ + ".config"@);
        assert(".config"@[0] == '.');
        assert(dir.last() == 'g');
        assert(config::joined_path(dir, "recon"@) =~= h + "/.config/recon"@);
    }
}

/// Each setting of a file is what the file gives under that key, where it has
/// the table at all.
pub proof fn what_a_file_sets(file: FileConfig)
    ensures
        file.editor is None ==> config::file_project(file) is None && config::file_file(file) is None,
        file.editor matches Some(editor) ==> {
            &&& config::file_project(file) is Some == editor.project is Some
            &&& editor.project matches Some(project) ==> config::file_project(file) == Some(project@)
            &&& config::file_file(file) is Some == editor.file is Some
            &&& editor.file matches Some(template) ==> config::file_file(file) == Some(template@)
        },
        file.filters is None ==> config::file_palette(file) is None,
        file.filters matches Some(filters) ==> {
            &&& config::file_palette(file) is Some == filters.palette is Some
            &&& filters.palette matches Some(palette) ==> config::file_palette(file) == Some(
                palette@,
            )
        },
{
}

/// A later layer says something just where no earlier one does.
pub proof fn which_layer_speaks<T>(earlier: Option<T>, later: Option<T>, last: Option<T>)
    ensures
        config::layered(earlier, later) == match earlier {
            Some(value) => Some(value),
            None => later,
        },
        config::layered(config::layered(earlier, later), last) == config::layered(
            earlier,
            config::layered(later, last),
        ),
{
}

/// A palette has a colour for each spelling, the one that it stands for, and is
/// refused for the first that stands for none, by that spelling.
pub proof fn which_palettes_are_taken(
    spellings: Seq<String>,
    colours: Seq<Color>,
    message: Seq<char>,
)
    ensures
        config::all_colours(spellings, colours) ==> colours.len() == spellings.len() && forall|i: int|
            0 <= i < colours.len() ==> colour::spelled_colour(spellings[i]@) == Some(
                #[trigger] colours[i],
            ),
        config::first_complaint(spellings, message) ==> exists|i: int|
            {
                &&& 0 <= i < spellings.len()
                &&& colour::spelled_colour((#[trigger] spellings[i])@) is None
                &&& message.take(text::debug_text(spellings[i]@).len() as int) == text::debug_text(
                    spellings[i]@,
                )
                &&& forall|j: int|
                    0 <= j < i ==> colour::spelled_colour((#[trigger] spellings[j])@) is Some
            },
        !(config::all_colours(spellings, colours) && config::first_complaint(spellings, message)),
{
    if config::all_colours(spellings, colours) {
        assert forall|i: int| 0 <= i < colours.len() implies colour::spelled_colour(spellings[i]@)
            == Some(#[trigger] colours[i]) by {
            let spelling = spellings[i];
        }
    }
    if config::first_complaint(spellings, message) {
        let i = choose|i: int|
            {
                &&& 0 <= i < spellings.len()
                &&& colour::spelled_colour((#[trigger] spellings[i])@) is None
                &&& message == config::colour_complaint(spellings[i]@)
                &&& forall|j: int|
                    0 <= j < i ==> colour::spelled_colour((#[trigger] spellings[j])@) is Some
            };
        let shown = text::debug_text(spellings[i]@);
        assert(message.take(shown.len() as int) =~= shown);
    }
}

/// What is said of a configuration file names the file and holds the reason.
pub proof fn what_is_said_of_a_file(error: ConfigError)
    ensures
        error matches ConfigError::Read { path, source } ==> error.text()
            == "could not read config file "@ + path@ + ": "@ + source@,
        error matches ConfigError::Parse { path, source } ==> error.text()
            == "invalid config file "@ + path@ + "\n"@ + source@,
{
}

// ---------------------------------------------------------------------------
// The clipboard

/// The command that copies: the one that is configured where it says more than
/// white space, and else the one that the system has.
pub proof fn which_command_copies(clipboard: ProcessClipboard, platform: Platform, wayland: bool)
    ensures
        ({
            let given = clipboard.template_text();
            let used = clipboard.used_template(platform, wayland);
            if exists|i: int| 0 <= i < given.len() && !text::whitespace(#[trigger] given[i]) {
                used == given
            } else {
                &&& platform == Platform::MacOs ==> used == "pbcopy"@
                &&& platform == Platform::Windows ==> used == "clip"@
                &&& platform == Platform::Other && wayland ==> used == "wl-copy"@
                &&& platform == Platform::Other && !wayland ==> used
                    == "xclip -selection clipboard"@
            }
        }),
{
    let given = clipboard.template_text();
    if exists|i: int| 0 <= i < given.len() && !text::whitespace(#[trigger] given[i]) {
        assert(!text::blank(given));
    } else {
        assert(text::blank(given));
    }
}

// ---------------------------------------------------------------------------
// Names of fixtures

/// Two characters that are the same, or one letter of ASCII in both cases.
pub open spec fn same_letter(one: char, other: char) -> bool {
    ||| one == other
    ||| 'A' <= one <= 'Z' && other as u32 == one as u32 + 32
    ||| 'A' <= other <= 'Z' && one as u32 == other as u32 + 32
}

/// Two names are one just where they have the same letters, in whatever case.
pub proof fn which_names_are_one(one: Seq<char>, other: Seq<char>)
    ensures
        fixtures::same_name(one, other) <==> one.len() == other.len() && forall|i: int|
            0 <= i < one.len() ==> same_letter(#[trigger] one[i], other[i]),
{
    if one.len() == other.len() {
        assert forall|i: int| 0 <= i < one.len() implies same_letter(one[i], other[i]) == (
        fixtures::lower(#[trigger] one[i]) == fixtures::lower(other[i])) by {
            let (a, b) = (one[i], other[i]);
            letters_agree(a, b);
        }
        if fixtures::same_name(one, other) {
            assert forall|i: int| 0 <= i < one.len() implies same_letter(
                #[trigger] one[i],
                other[i],
            ) by {
                assert(fixtures::lower(one[i]) == fixtures::lower(other[i]));
            }
        }
    }
}

proof fn letters_agree(a: char, b: char)
    ensures
        same_letter(a, b) == (fixtures::lower(a) == fixtures::lower(b)),
{
    vstd::utf8::char_is_scalar(a);
    vstd::utf8::char_is_scalar(b);
    assert('A' <= a <= 'Z' ==> fixtures::lower(a) as u32 == a as u32 + 32);
    assert('A' <= b <= 'Z' ==> fixtures::lower(b) as u32 == b as u32 + 32);
    vstd::utf8::char_u32_cast(a, a as u32);
    vstd::utf8::char_u32_cast(b, b as u32);
    vstd::utf8::char_u32_cast(fixtures::lower(a), fixtures::lower(a) as u32);
    vstd::utf8::char_u32_cast(fixtures::lower(b), fixtures::lower(b) as u32);
}

/// Names lie behind one another in the directory of the fixtures.
pub proof fn where_a_fixture_lies(name: Seq<char>)
    requires
        name.len() == 0 || name[0] != '/',
    ensures
        fixtures::path_of(name) == "target/test-fixtures/"@ + name,
{
    reveal_strlit("target/test-fixtures");
    reveal_strlit("target/test-fixtures/");
    reveal_strlit("/");
    assert("target/test-fixtures"@ + "/"@ =~= "target/test-fixtures/"@);
}

// ---------------------------------------------------------------------------
// Key bindings

/// An action goes by its name, the first where several have it.
pub proof fn which_action_a_name_means(name: Seq<char>)
    ensures
        keymap::action_of(name) matches Some(place) ==> {
            &&& 0 <= place < keymap::ACTION_COUNT
            &&& keymap::ACTIONS[place].0@ == name
            &&& forall|i: int| 0 <= i < place ==> (#[trigger] keymap::ACTIONS[i]).0@ != name
        },
        keymap::action_of(name) is None ==> forall|i: int|
            0 <= i < keymap::ACTION_COUNT ==> (#[trigger] keymap::ACTIONS[i]).0@ != name,
{
    action_from_a_place(name, 0);
}

proof fn action_from_a_place(name: Seq<char>, from: int)
    requires
        0 <= from <= keymap::ACTION_COUNT,
    ensures
        keymap::action_from(name, from) matches Some(place) ==> {
            &&& from <= place < keymap::ACTION_COUNT
            &&& keymap::ACTIONS[place].0@ == name
            &&& forall|i: int| from <= i < place ==> (#[trigger] keymap::ACTIONS[i]).0@ != name
        },
        keymap::action_from(name, from) is None ==> forall|i: int|
            from <= i < keymap::ACTION_COUNT ==> (#[trigger] keymap::ACTIONS[i]).0@ != name,
    decreases keymap::ACTION_COUNT - from,
{
    if from < keymap::ACTION_COUNT && keymap::ACTIONS[from].0@ != name {
        action_from_a_place(name, from + 1);
    }
}

/// A list holds its texts up to the first empty one, in order.
pub proof fn which_texts_a_list_holds(list: Seq<&'static str>, i: int)
    ensures
        keymap::filled(list).len() <= list.len(),
        0 <= i < keymap::filled(list).len() ==> keymap::filled(list)[i] == list[i]@ && list[i]@.len()
            > 0,
        keymap::filled(list).len() < list.len() ==> list[keymap::filled(list).len() as int]@.len()
            == 0,
{
    filled_from_a_place(list, 0);
}

proof fn filled_from_a_place(list: Seq<&'static str>, from: int)
    requires
        0 <= from <= list.len(),
    ensures
        keymap::filled_from(list, from).len() <= list.len() - from,
        forall|i: int| #![trigger keymap::filled_from(list, from)[i]]
            0 <= i < keymap::filled_from(list, from).len() ==> keymap::filled_from(list, from)[i]
                == list[from + i]@ && list[from + i]@.len() > 0,
        keymap::filled_from(list, from).len() < list.len() - from ==> list[from
            + keymap::filled_from(list, from).len()]@.len() == 0,
    decreases list.len() - from,
{
    if from < list.len() && list[from]@.len() > 0 {
        filled_from_a_place(list, from + 1);
        let rest = keymap::filled_from(list, from + 1);
        assert forall|i: int| #![trigger keymap::filled_from(list, from)[i]] 0 <= i
            < keymap::filled_from(list, from).len() implies keymap::filled_from(list, from)[i]
            == list[from + i]@ && list[from + i]@.len() > 0 by {
            if i > 0 {
                assert(keymap::filled_from(list, from)[i] == rest[i - 1]);
            }
        }
    }
}

/// Whether a line of a `[keymap]` table names an action, and only keys that
/// there are.
pub open spec fn can_be_bound(line: (Seq<char>, Seq<Seq<char>>)) -> bool {
    &&& exists|a: int| 0 <= a < keymap::ACTION_COUNT && (#[trigger] keymap::ACTIONS[a]).0@ == line.0
    &&& forall|i: int| 0 <= i < line.1.len() ==> help::documented(#[trigger] line.1[i]).len() > 0
}

proof fn first_unreadable_finds(labels: Seq<Seq<char>>, from: int)
    requires
        0 <= from <= labels.len(),
    ensures
        from <= keymap::first_unreadable(labels, from) <= labels.len(),
        forall|i: int|
            from <= i < keymap::first_unreadable(labels, from) ==> help::documented(
                #[trigger] labels[i],
            ).len() > 0,
        keymap::first_unreadable(labels, from) < labels.len() ==> help::documented(
            labels[keymap::first_unreadable(labels, from)],
        ).len() == 0,
    decreases labels.len() - from,
{
    if from < labels.len() && help::documented(labels[from]).len() > 0 {
        first_unreadable_finds(labels, from + 1);
    }
}

/// What one line does: it is taken just where it names an action and only keys
/// that there are, and refused by its name or else by the first key that is
/// none.
pub proof fn what_a_line_binds(labels: KeymapModel, line: (Seq<char>, Seq<Seq<char>>), a: int)
    requires
        labels.len() == keymap::ACTION_COUNT,
        0 <= a < keymap::ACTION_COUNT,
        forall|i: int| 0 <= i < a ==> (#[trigger] keymap::ACTIONS[i]).0@ != line.0,
    ensures
        keymap::rebound(labels, line) is Ok <==> can_be_bound(line),
        keymap::rebound(labels, line) matches Ok(after) ==> {
            &&& after.len() == labels.len()
            &&& keymap::ACTIONS[a].0@ == line.0 ==> after[a] == line.1
            &&& keymap::ACTIONS[a].0@ == line.0 ==> forall|b: int|
                0 <= b < labels.len() && b != a ==> #[trigger] after[b] == labels[b]
        },
        keymap::rebound(labels, line) matches Err(KeymapErrorModel::UnknownAction(name)) ==> {
            &&& name == line.0
            &&& forall|i: int|
                0 <= i < keymap::ACTION_COUNT ==> (#[trigger] keymap::ACTIONS[i]).0@ != line.0
        },
        keymap::rebound(labels, line) matches Err(KeymapErrorModel::UnreadableLabel(label)) ==> {
            &&& exists|i: int|
                0 <= i < keymap::ACTION_COUNT && (#[trigger] keymap::ACTIONS[i]).0@ == line.0
            &&& exists|k: int|
                {
                    &&& 0 <= k < line.1.len()
                    &&& label == #[trigger] line.1[k]
                    &&& help::documented(label).len() == 0
                    &&& forall|j: int|
                        0 <= j < k ==> help::documented(#[trigger] line.1[j]).len() > 0
                }
        },
{
    which_action_a_name_means(line.0);
    first_unreadable_finds(line.1, 0);
    let bad = keymap::first_unreadable(line.1, 0);
    if let Some(place) = keymap::action_of(line.0) {
        assert(keymap::ACTIONS[place].0@ == line.0);
        assert(place >= a);
        if bad < line.1.len() {
            assert(help::documented(line.1[bad]).len() == 0);
        }
    }
}

/// The keys of an action are those of the last line that names it, and those
/// that it comes with where none does. All lines are taken, or none is.
pub proof fn which_keys_reach_an_action(
    lines: Seq<(Seq<char>, Seq<Seq<char>>)>,
    n: nat,
    a: int,
    last: int,
)
    requires
        n <= lines.len(),
        0 <= a < keymap::ACTION_COUNT,
        forall|i: int| 0 <= i < a ==> keymap::ACTIONS[a].0@ != (#[trigger] keymap::ACTIONS[i]).0@,
        -1 <= last < n,
        last >= 0 ==> lines[last].0 == keymap::ACTIONS[a].0@,
        forall|i: int| last < i < n ==> (#[trigger] lines[i]).0 != keymap::ACTIONS[a].0@,
    ensures
        keymap::configured(lines, n) is Ok <==> forall|i: int|
            0 <= i < n ==> can_be_bound(#[trigger] lines[i]),
        keymap::configured(lines, n) matches Ok(labels) ==> {
            &&& labels.len() == keymap::ACTION_COUNT
            &&& labels[a] == if last >= 0 {
                lines[last].1
            } else {
                keymap::filled(keymap::ACTIONS[a].1@)
            }
        },
    decreases n,
{
    if n > 0 {
        let line = lines[n - 1];
        let m = (n - 1) as nat;
        if last == n - 1 {
            lines_up_to(lines, m);
        } else {
            which_keys_reach_an_action(lines, m, a, last);
        }
        if keymap::configured(lines, m) is Ok {
            let labels = keymap::configured(lines, m)->Ok_0;
            if last == n - 1 {
                assert forall|i: int| 0 <= i < a implies (#[trigger] keymap::ACTIONS[i]).0@
                    != line.0 by {
                    assert(keymap::ACTIONS[a].0@ != keymap::ACTIONS[i].0@);
                }
                what_a_line_binds(labels, line, a);
            } else {
                which_action_a_name_means(line.0);
                what_a_line_binds(labels, line, 0);
            }
        }
    }
}

proof fn lines_up_to(lines: Seq<(Seq<char>, Seq<Seq<char>>)>, n: nat)
    requires
        n <= lines.len(),
    ensures
        keymap::configured(lines, n) is Ok <==> forall|i: int|
            0 <= i < n ==> can_be_bound(#[trigger] lines[i]),
        keymap::configured(lines, n) matches Ok(labels) ==> labels.len() == keymap::ACTION_COUNT,
    decreases n,
{
    if n > 0 {
        let m = (n - 1) as nat;
        lines_up_to(lines, m);
        if keymap::configured(lines, m) is Ok {
            what_a_line_binds(keymap::configured(lines, m)->Ok_0, lines[n - 1], 0);
        }
    }
}

} // verus!
