//! Where a setting's value comes from, and what is said when it is wrong.
//!
//! The command line and the environment come first, then the configuration
//! file, then what is built in. This module puts the file under the layers
//! before it.

use vstd::prelude::*;

use crate::colour;
use crate::colour::Color;
use crate::editor;
use crate::editor::Templates;
use crate::text;

verus! {

/// The directory under the configuration home.
pub const CONFIG_DIR: &'static str = "recon";

/// The configuration file in that directory.
pub const CONFIG_FILE: &'static str = "config.toml";

/// The names of colours, for a message.
pub const COLOUR_NAMES: &'static str =
    "black, red, green, yellow, blue, magenta, cyan, gray, dark-gray, light-red, light-green, light-yellow, light-blue, light-magenta, light-cyan, white";

/// The settings the program runs on.
#[derive(Debug, Clone, PartialEq, Eq)]
pub struct Config {
    /// What to open.
    pub path: String,
    /// The template that opens a file in its project.
    pub editor: Option<String>,
    /// The template that opens a file alone.
    pub file_editor: Option<String>,
    /// The flavour of editor configuration to print.
    pub print_editor_config: Option<String>,
    /// The colours of successive filters, where they are not the built-in ones.
    pub filter_palette: Option<Vec<Color>>,
}

impl Default for Config {
    /// The settings with no argument, no variable and no file.
    fn default() -> (config: Self)
        ensures
            config.path@ == "."@,
            config.editor is None,
            config.file_editor is None,
            config.print_editor_config is None,
            config.filter_palette is None,
    {
        Config {
            path: ".".to_owned(),
            editor: None,
            file_editor: None,
            print_editor_config: None,
            filter_palette: None,
        }
    }
}

/// What a configuration file says.
#[derive(Debug, Clone, PartialEq, Eq)]
pub struct FileConfig {
    pub editor: Option<EditorConfig>,
    pub filters: Option<FiltersConfig>,
}

impl Default for FileConfig {
    /// A file that says nothing.
    fn default() -> (file: Self)
        ensures
            file.editor is None,
            file.filters is None,
    {
        FileConfig { editor: None, filters: None }
    }
}

/// The `[editor]` table.
#[derive(Debug, Clone, PartialEq, Eq)]
pub struct EditorConfig {
    pub project: Option<String>,
    pub file: Option<String>,
}

/// The `[filters]` table.
#[derive(Debug, Clone, PartialEq, Eq)]
pub struct FiltersConfig {
    /// The colours in place of the built-in ones, all of them.
    pub palette: Option<Vec<Color>>,
}

/// A setting: what an earlier layer says, and only else what a later one says.
pub open spec fn layered<T>(earlier: Option<T>, later: Option<T>) -> Option<T> {
    if earlier is Some {
        earlier
    } else {
        later
    }
}

/// The project template of a file, where it gives one.
pub open spec fn file_project(file: FileConfig) -> Option<Seq<char>> {
    match file.editor {
        Some(editor) => text::option_text(editor.project),
        None => None,
    }
}

/// The file template of a file, where it gives one.
pub open spec fn file_file(file: FileConfig) -> Option<Seq<char>> {
    match file.editor {
        Some(editor) => text::option_text(editor.file),
        None => None,
    }
}

/// The palette of a file, where it gives one.
pub open spec fn file_palette(file: FileConfig) -> Option<Seq<Color>> {
    match file.filters {
        Some(filters) => colour::option_colours(filters.palette),
        None => None,
    }
}

/// A copy of the colours.
fn clone_colours(colours: &Vec<Color>) -> (copy: Vec<Color>)
    ensures
        copy@ == colours@,
{
    let mut copy: Vec<Color> = Vec::new();
    let mut i: usize = 0;
    while i < colours.len()
        invariant
            i <= colours@.len(),
            copy@ =~= colours@.take(i as int),
        decreases colours@.len() - i,
    {
        copy.push(colours[i]);
        i += 1;
    }
    copy
}

impl Config {
    /// Puts the file under the layers resolved already: the file fills the
    /// holes they left, and each table does so for itself.
    pub fn apply(&mut self, file: &FileConfig)
        ensures
            final(self).path == old(self).path,
            final(self).print_editor_config == old(self).print_editor_config,
            text::option_text(final(self).editor) == layered(
                text::option_text(old(self).editor),
                file_project(*file),
            ),
            text::option_text(final(self).file_editor) == layered(
                text::option_text(old(self).file_editor),
                file_file(*file),
            ),
            colour::option_colours(final(self).filter_palette) == layered(
                colour::option_colours(old(self).filter_palette),
                file_palette(*file),
            ),
    {
        if let Some(editor) = &file.editor {
            if self.editor.is_none() {
                if let Some(project) = &editor.project {
                    self.editor = Some(project.clone());
                }
            }
            if self.file_editor.is_none() {
                if let Some(template) = &editor.file {
                    self.file_editor = Some(template.clone());
                }
            }
        }
        if let Some(filters) = &file.filters {
            if self.filter_palette.is_none() {
                if let Some(palette) = &filters.palette {
                    self.filter_palette = Some(clone_colours(palette));
                }
            }
        }
    }

    /// Both editor templates, with what the environment says of editors.
    pub fn editor_templates(&self, visual: Option<&str>, editor: Option<&str>) -> (templates:
        Templates)
        ensures
            ({
                let environment = editor::environment_template(
                    text::option_str(visual),
                    text::option_str(editor),
                );
                &&& templates.project@ == editor::resolved_project(
                    text::option_text(self.editor),
                    environment,
                )
                &&& templates.file@ == editor::resolved_file(
                    text::option_text(self.editor),
                    text::option_text(self.file_editor),
                    environment,
                )
            }),
    {
        let project: Option<&str> = match &self.editor {
            Some(template) => Some(template.as_str()),
            None => None,
        };
        let file: Option<&str> = match &self.file_editor {
            Some(template) => Some(template.as_str()),
            None => None,
        };
        Templates::resolve(project, file, visual, editor)
    }
}

// ---------------------------------------------------------------------------
// Colours

/// What is said of a spelling that stands for no colour.
pub open spec fn colour_complaint(spelling: Seq<char>) -> Seq<char> {
    text::debug_text(spelling) + " is not a colour. Use a name ("@ + COLOUR_NAMES@
        + "), a hex triple (#RRGGBB), or a 256-colour index as a string (\"0-255\", e.g. \"220\")"@
}

/// The colour a spelling stands for, or what is to be said of it.
pub fn parse_colour(spelling: &str) -> (parsed: Result<Color, String>)
    ensures
        match parsed {
            Ok(colour) => colour::spelled_colour(spelling@) == Some(colour),
            Err(message) => {
                &&& colour::spelled_colour(spelling@) is None
                &&& message@ == colour_complaint(spelling@)
            },
        },
{
    parsed_colour(spelling, colour::read_colour(spelling))
}

/// The colour that was read from a spelling, or what is to be said of it.
pub fn parsed_colour(spelling: &str, read: Option<Color>) -> (parsed: Result<Color, String>)
    ensures
        match parsed {
            Ok(colour) => read == Some(colour),
            Err(message) => read is None && message@ == colour_complaint(spelling@),
        },
{
    match read {
        Some(colour) => Ok(colour),
        None => {
            let mut message = text::quoted(spelling);
            message.append(" is not a colour. Use a name (");
            message.append(COLOUR_NAMES);
            message.append(
                "), a hex triple (#RRGGBB), or a 256-colour index as a string (\"0-255\", e.g. \"220\")",
            );
            Err(message)
        },
    }
}

/// What is said of an empty palette.
pub const EMPTY_PALETTE: &'static str =
    "[filters] palette needs at least one colour; omit the key entirely to use recon's built-in palette";

/// The colours that all of the spellings stand for.
pub open spec fn all_colours(spellings: Seq<String>, colours: Seq<Color>) -> bool {
    colours.len() == spellings.len() && forall|i: int|
        0 <= i < spellings.len() ==> colour::spelled_colour((#[trigger] spellings[i])@) == Some(
            colours[i],
        )
}

/// What is said of the first of the spellings that stands for no colour.
pub open spec fn first_complaint(spellings: Seq<String>, message: Seq<char>) -> bool {
    exists|i: int|
        {
            &&& 0 <= i < spellings.len()
            &&& colour::spelled_colour((#[trigger] spellings[i])@) is None
            &&& message == colour_complaint(spellings[i]@)
            &&& forall|j: int|
                0 <= j < i ==> colour::spelled_colour((#[trigger] spellings[j])@) is Some
        }
}

/// The colours of the spellings, or what is said of the first that stands for
/// none.
fn colours_of(spellings: &Vec<String>) -> (parsed: Result<Vec<Color>, String>)
    ensures
        match parsed {
            Ok(colours) => all_colours(spellings@, colours@),
            Err(message) => first_complaint(spellings@, message@),
        },
{
    let mut colours: Vec<Color> = Vec::new();
    let mut i: usize = 0;
    while i < spellings.len()
        invariant
            i <= spellings@.len(),
            colours@.len() == i,
            forall|j: int|
                0 <= j < i ==> colour::spelled_colour((#[trigger] spellings@[j])@) == Some(
                    colours@[j],
                ),
        decreases spellings@.len() - i,
    {
        match parse_colour(spellings[i].as_str()) {
            Ok(colour) => {
                colours.push(colour);
            },
            Err(message) => {
                assert(colour::spelled_colour(spellings@[i as int]@) is None);
                return Err(message);
            },
        }
        i += 1;
    }
    Ok(colours)
}

/// The colours of a palette, none of which may be unknown and of which there
/// must be one: successive filters take them in turn.
pub fn non_empty_palette(spellings: Option<Vec<String>>) -> (palette: Result<
    Option<Vec<Color>>,
    String,
>)
    ensures
        match spellings {
            None => palette matches Ok(None),
            Some(given) => match palette {
                Ok(Some(colours)) => given@.len() > 0 && all_colours(given@, colours@),
                Ok(None) => false,
                Err(message) => if given@.len() == 0 {
                    message@ == EMPTY_PALETTE@
                } else {
                    first_complaint(given@, message@)
                },
            },
        },
{
    let given = match spellings {
        Some(given) => given,
        None => {
            return Ok(None);
        },
    };
    if given.len() == 0 {
        return Err(EMPTY_PALETTE.to_owned());
    }
    match colours_of(&given) {
        Ok(colours) => Ok(Some(colours)),
        Err(message) => Err(message),
    }
}

// ---------------------------------------------------------------------------
// Where the file is

/// A name behind a directory. A path from the root stands for itself.
pub open spec fn joined_path(dir: Seq<char>, name: Seq<char>) -> Seq<char> {
    if name.len() > 0 && name[0] == '/' {
        name
    } else if dir.len() == 0 || dir.last() == '/' {
        dir + name
    } else {
        dir + "/"@ + name
    }
}

/// A name behind a directory.
pub fn join_path(dir: &str, name: &str) -> (path: String)
    ensures
        path@ == joined_path(dir@, name@),
{
    let tail = text::chars_of(name);
    if tail.len() > 0 && tail[0] == '/' {
        return name.to_owned();
    }
    let chars = text::chars_of(dir);
    let mut path = dir.to_owned();
    if chars.len() > 0 && chars[chars.len() - 1] != '/' {
        path.append("/");
    }
    path.append(name);
    path
}

/// The directory of this program's configuration, from the two variables that
/// decide it: `XDG_CONFIG_HOME` where it is an absolute path, else `.config`
/// in `HOME`.
pub open spec fn config_home(
    xdg_config_home: Option<Seq<char>>,
    home: Option<Seq<char>>,
) -> Option<Seq<char>> {
    if xdg_config_home is Some && xdg_config_home->Some_0.len() > 0 && xdg_config_home->Some_0[0]
        == '/' {
        Some(joined_path(xdg_config_home->Some_0, CONFIG_DIR@))
    } else if home is Some && home->Some_0.len() > 0 {
        Some(joined_path(joined_path(home->Some_0, ".config"@), CONFIG_DIR@))
    } else {
        None
    }
}

/// A file in the configuration directory.
pub open spec fn config_child(directory: Option<Seq<char>>, name: Seq<char>) -> Option<Seq<char>> {
    match directory {
        Some(directory) => Some(joined_path(directory, name)),
        None => None,
    }
}

/// Whether a path begins at the root.
fn is_absolute(path: &str) -> (yes: bool)
    ensures
        yes == (path@.len() > 0 && path@[0] == '/'),
{
    let chars = text::chars_of(path);
    chars.len() > 0 && chars[0] == '/'
}

/// The directory of this program's configuration. An empty or relative
/// `XDG_CONFIG_HOME` is ignored, and so is an empty `HOME`.
pub fn config_home_from(xdg_config_home: Option<&str>, home: Option<&str>) -> (directory: Option<
    String,
>)
    ensures
        text::option_text(directory) == config_home(
            text::option_str(xdg_config_home),
            text::option_str(home),
        ),
{
    if let Some(dir) = xdg_config_home {
        if is_absolute(dir) {
            return Some(join_path(dir, CONFIG_DIR));
        }
    }
    if let Some(dir) = home {
        if !dir.is_empty() {
            let config = join_path(dir, ".config");
            return Some(join_path(config.as_str(), CONFIG_DIR));
        }
    }
    None
}

/// The path of the configuration file.
pub fn config_path_from(xdg_config_home: Option<&str>, home: Option<&str>) -> (path: Option<String>)
    ensures
        text::option_text(path) == config_child(
            config_home(text::option_str(xdg_config_home), text::option_str(home)),
            CONFIG_FILE@,
        ),
{
    match config_home_from(xdg_config_home, home) {
        Some(directory) => Some(join_path(directory.as_str(), CONFIG_FILE)),
        None => None,
    }
}

// ---------------------------------------------------------------------------
// Reading the file

/// What came of reading a file.
#[derive(Debug, Clone, PartialEq, Eq)]
pub enum ReadOutcome {
    Text(String),
    /// There is no such file.
    Missing,
    /// The file is there and could not be read, and why.
    Failed(String),
}

/// Why a configuration file could not be used.
#[derive(Debug, Clone, PartialEq, Eq)]
pub enum ConfigError {
    /// The file could not be read.
    Read { path: String, source: String },
    /// The file is not TOML, or holds a key that means nothing.
    Parse { path: String, source: String },
}

impl ConfigError {
    /// The message that names the file and what is wrong with it.
    pub open spec fn text(self) -> Seq<char> {
        match self {
            ConfigError::Read { path, source } => "could not read config file "@ + path@ + ": "@
                + source@,
            ConfigError::Parse { path, source } => "invalid config file "@ + path@ + "\n"@
                + source@,
        }
    }

    /// The message that names the file and what is wrong with it.
    pub fn message(&self) -> (message: String)
        ensures
            message@ == self.text(),
    {
        match self {
            ConfigError::Read { path, source } => {
                let mut message = "could not read config file ".to_owned();
                message.append(path.as_str());
                message.append(": ");
                message.append(source.as_str());
                message
            },
            ConfigError::Parse { path, source } => {
                let mut message = "invalid config file ".to_owned();
                message.append(path.as_str());
                message.append("\n");
                message.append(source.as_str());
                message
            },
        }
    }
}

/// The text to parse of a file that was read. A file that is not there says
/// nothing, and is no error; any other failure is one.
pub fn config_text(path: &str, outcome: ReadOutcome) -> (text: Result<Option<String>, ConfigError>)
    ensures
        match outcome {
            ReadOutcome::Text(found) => text matches Ok(Some(kept)) && kept == found,
            ReadOutcome::Missing => text matches Ok(None),
            ReadOutcome::Failed(why) => {
                &&& text matches Err(ConfigError::Read { path: named, source })
                &&& named@ == path@
                &&& source == why
            },
        },
{
    match outcome {
        ReadOutcome::Text(found) => Ok(Some(found)),
        ReadOutcome::Missing => Ok(None),
        ReadOutcome::Failed(source) => Err(ConfigError::Read { path: path.to_owned(), source }),
    }
}

// ---------------------------------------------------------------------------
// Laws

/// A file applied a second time changes nothing: every hole it can fill is
/// filled.
pub proof fn a_file_fills_holes_once<T>(earlier: Option<T>, file: Option<T>)
    ensures
        layered(layered(earlier, file), file) == layered(earlier, file),
{
}

/// What an earlier layer says stands, whatever the file says.
pub proof fn an_earlier_layer_wins<T>(value: T, file: Option<T>)
    ensures
        layered(Some(value), file) == Some(value),
{
}

/// Configuration of every kind lies beside `config.toml`.
pub proof fn configuration_lies_together(
    xdg_config_home: Option<Seq<char>>,
    home: Option<Seq<char>>,
    name: Seq<char>,
)
    ensures
        config_child(config_home(xdg_config_home, home), CONFIG_FILE@) is Some == config_child(
            config_home(xdg_config_home, home),
            name,
        ) is Some,
        config_home(xdg_config_home, home) is None <==> (xdg_config_home is None
            || xdg_config_home->Some_0.len() == 0 || xdg_config_home->Some_0[0] != '/') && (home
            is None || home->Some_0.len() == 0),
{
}

} // verus!
