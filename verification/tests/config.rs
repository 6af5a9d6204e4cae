use recon::colour::Color;
use recon::config::{
    config_home_from, config_path_from, config_text, non_empty_palette, parse_colour,
    parsed_colour, Config, ConfigError, EditorConfig, FileConfig, FiltersConfig, ReadOutcome,
    COLOUR_NAMES, EMPTY_PALETTE,
};

/// A path, and what came of reading it.
type Fixture = (&'static str, ReadOutcome);

fn fixture(name: &'static str, contents: &str) -> Fixture {
    (name, ReadOutcome::Text(contents.to_string()))
}

fn text_of(table: &toml::Table, key: &str) -> Option<String> {
    table
        .get(key)
        .map(|value| value.as_str().expect("a string").to_string())
}

/// What the file at a path says.
fn load_from(fixture: &Fixture) -> Result<FileConfig, ConfigError> {
    let (path, outcome) = fixture;
    let Some(text) = config_text(path, outcome.clone())? else {
        return Ok(FileConfig::default());
    };
    let refused = |source: String| ConfigError::Parse {
        path: path.to_string(),
        source,
    };
    let root: toml::Table = text.parse().map_err(|err: toml::de::Error| refused(err.to_string()))?;
    let editor = root
        .get("editor")
        .and_then(|editor| editor.as_table())
        .map(|editor| EditorConfig {
            project: text_of(editor, "project"),
            file: text_of(editor, "file"),
        });
    let filters = match root.get("filters").and_then(|filters| filters.as_table()) {
        Some(filters) => {
            let spellings = filters.get("palette").map(|palette| {
                palette
                    .as_array()
                    .expect("a list")
                    .iter()
                    .map(|entry| entry.as_str().expect("a string").to_string())
                    .collect()
            });
            Some(FiltersConfig {
                palette: non_empty_palette(spellings).map_err(refused)?,
            })
        }
        None => None,
    };
    Ok(FileConfig { editor, filters })
}

#[test]
fn xdg_config_home_wins_over_home() {
    let path = config_path_from(Some("/xdg"), Some("/home/pete"));
    assert_eq!(path, Some("/xdg/recon/config.toml".to_string()));
}

#[test]
fn falls_back_to_home_dot_config() {
    let path = config_path_from(None, Some("/home/pete"));
    assert_eq!(
        path,
        Some("/home/pete/.config/recon/config.toml".to_string())
    );
}

#[test]
fn macos_uses_dot_config_not_application_support() {
    let path = config_path_from(None, Some("/Users/pete"))
        .expect("a home directory yields a config path");
    assert_eq!(path, "/Users/pete/.config/recon/config.toml".to_string());
    assert!(
        !path.contains("Application Support"),
        "recon must not use the macOS app-support directory: {path:?}"
    );
}

#[test]
fn relative_xdg_config_home_is_ignored() {
    let path = config_path_from(Some("relative/dir"), Some("/home/pete"));
    assert_eq!(
        path,
        Some("/home/pete/.config/recon/config.toml".to_string())
    );
}

#[test]
fn empty_xdg_config_home_is_ignored() {
    let path = config_path_from(Some(""), Some("/home/pete"));
    assert_eq!(
        path,
        Some("/home/pete/.config/recon/config.toml".to_string())
    );
}

#[test]
fn empty_home_is_ignored() {
    assert_eq!(config_path_from(None, Some("")), None);
}

#[test]
fn no_home_yields_no_path() {
    assert_eq!(config_path_from(None, None), None);
}

#[test]
fn missing_file_is_not_an_error() {
    let path = ("target/test-config/definitely-not-here.toml", ReadOutcome::Missing);
    assert_eq!(
        load_from(&path).expect("missing file is fine"),
        FileConfig::default()
    );
}

#[test]
fn empty_file_parses_to_defaults() {
    let path = fixture("empty.toml", "");
    assert_eq!(
        load_from(&path).expect("empty file is valid"),
        FileConfig::default()
    );
}

#[test]
fn comments_only_file_parses_to_defaults() {
    let path = fixture("comments.toml", "# recon config\n# nothing set yet\n");
    assert_eq!(
        load_from(&path).expect("comments are valid"),
        FileConfig::default()
    );
}

#[test]
fn malformed_toml_is_a_parse_error_naming_the_file() {
    let path = fixture("malformed.toml", "this is not = = toml\n");
    let err = load_from(&path).expect_err("malformed TOML must fail");
    assert!(
        matches!(err, ConfigError::Parse { .. }),
        "expected a parse error, got {err:?}"
    );
    let rendered = err.message();
    assert!(
        rendered.contains("malformed.toml"),
        "the error must name the file it came from: {rendered}"
    );
}

#[test]
fn unreadable_file_is_a_read_error_naming_the_file() {
    let dir = (
        "target/test-config/a-directory.toml",
        ReadOutcome::Failed("Is a directory (os error 21)".to_string()),
    );
        let err = load_from(&dir).expect_err("a directory is not readable as a file");
    assert!(
        matches!(err, ConfigError::Read { .. }),
        "expected a read error, got {err:?}"
    );
    assert!(
        err.message().contains("a-directory.toml"),
        "the error must name the file: {err:?}"
    );
}

#[test]
fn apply_leaves_the_cli_layer_alone() {
    let mut config = Config {
        path: "src/lib.rs".to_string(),
        ..Config::default()
    };
    config.apply(&FileConfig::default());
    assert_eq!(config.path, "src/lib.rs");
}

#[test]
fn an_editor_section_parses() {
    let path = fixture(
        "editor.toml",
        "[editor]\nproject = 'zed {project} {file}:{line}'\nfile = 'zed -n {file}:{line}'\n",
    );
    let parsed = load_from(&path).expect("valid");
    let editor = parsed.editor.expect("the section is present");
    assert_eq!(
        editor.project.as_deref(),
        Some("zed {project} {file}:{line}")
    );
    assert_eq!(editor.file.as_deref(), Some("zed -n {file}:{line}"));
}

#[test]
fn an_editor_section_may_set_project_alone() {
    let path = fixture(
        "editor-project-only.toml",
        "[editor]\nproject = 'subl {file}'\n",
    );
    let editor = load_from(&path).expect("valid").editor.expect("present");
    assert_eq!(editor.project.as_deref(), Some("subl {file}"));
    assert_eq!(editor.file, None);
}

#[test]
fn the_file_only_fills_holes_the_cli_left() {
    let file = FileConfig {
        editor: Some(EditorConfig {
            project: Some("from-file {file}".to_string()),
            file: Some("from-file-solo {file}".to_string()),
        }),
        ..FileConfig::default()
    };

    let mut set_on_the_cli = Config {
        editor: Some("from-cli {file}".to_string()),
        ..Config::default()
    };
    set_on_the_cli.apply(&file);
    assert_eq!(set_on_the_cli.editor.as_deref(), Some("from-cli {file}"));
    assert_eq!(
        set_on_the_cli.file_editor.as_deref(),
        Some("from-file-solo {file}")
    );

    let mut unset = Config::default();
    unset.apply(&file);
    assert_eq!(unset.editor.as_deref(), Some("from-file {file}"));
}

#[test]
fn a_file_without_an_editor_section_changes_nothing() {
    let mut config = Config {
        editor: Some("from-cli {file}".to_string()),
        ..Config::default()
    };
    config.apply(&FileConfig::default());
    assert_eq!(config.editor.as_deref(), Some("from-cli {file}"));
}

#[test]
fn a_filters_palette_parses() {
    let path = fixture(
        "filters-palette.toml",
        "[filters]\npalette = ['red', 'blue', 'green']\n",
    );
    let filters = load_from(&path).expect("valid").filters.expect("present");
    assert_eq!(
        filters.palette,
        Some(vec![Color::Red, Color::Blue, Color::Green])
    );
}

#[test]
fn a_palette_entry_may_be_a_name_a_hex_or_an_index() {
    let path = fixture(
        "filters-palette-forms.toml",
        "[filters]\npalette = ['magenta', '#00FF00', '220']\n",
    );
    let filters = load_from(&path).expect("valid").filters.expect("present");
    assert_eq!(
        filters.palette,
        Some(vec![
            Color::Magenta,
            Color::Rgb(0, 255, 0),
            Color::Indexed(220),
        ])
    );
}

#[test]
fn an_unparseable_colour_is_a_parse_error_naming_the_file() {
    let path = fixture(
        "filters-palette-bad.toml",
        "[filters]\npalette = ['red', 'octarine']\n",
    );
    let err = load_from(&path).expect_err("an unknown colour must fail");
    assert!(
        matches!(err, ConfigError::Parse { .. }),
        "expected a parse error, got {err:?}"
    );
    assert!(
        err.message().contains("filters-palette-bad.toml"),
        "the error must name the file: {err:?}"
    );
}

#[test]
fn an_unparseable_colour_says_what_is_accepted() {
    let path = fixture(
        "filters-palette-guidance.toml",
        "[filters]\npalette = ['octarine']\n",
    );
    let rendered = load_from(&path)
        .expect_err("an unknown colour must fail")
        .message();

    assert!(
        rendered.contains("octarine"),
        "the error must quote the offending value: {rendered}"
    );
    for expected in ["#RRGGBB", "0-255", "magenta"] {
        assert!(
            rendered.contains(expected),
            "the error must show the {expected:?} form: {rendered}"
        );
    }
}

#[test]
fn an_empty_palette_is_rejected() {
    let path = fixture("filters-palette-empty.toml", "[filters]\npalette = []\n");
    let err = load_from(&path).expect_err("an empty palette must fail");
    let rendered = err.message();
    assert!(
        rendered.contains("at least one colour"),
        "the error must say what is wrong: {rendered}"
    );
}

#[test]
fn the_file_palette_reaches_the_resolved_config() {
    let file = FileConfig {
        filters: Some(FiltersConfig {
            palette: Some(vec![Color::Red, Color::Blue]),
        }),
        ..FileConfig::default()
    };

    let mut config = Config::default();
    config.apply(&file);
    assert_eq!(config.filter_palette, Some(vec![Color::Red, Color::Blue]));
}

#[test]
fn a_file_without_a_filters_section_leaves_the_palette_unset() {
    let mut config = Config::default();
    config.apply(&FileConfig::default());
    assert_eq!(config.filter_palette, None);
}

#[test]
fn a_colour_that_is_none_is_refused_with_what_is() {
    let complaint = parse_colour("octarine").expect_err("no colour");
    assert!(complaint.contains("octarine"), "{complaint}");
    assert!(complaint.contains(COLOUR_NAMES), "{complaint}");
    assert_eq!(parsed_colour("octarine", None), Err(complaint));
    assert_eq!(parsed_colour("octarine", Some(Color::Red)), Ok(Color::Red));
}

#[test]
fn every_listed_colour_name_is_read() {
    for name in COLOUR_NAMES.split(", ") {
        assert!(parse_colour(name).is_ok(), "{name}");
    }
    assert_eq!(parse_colour("light-red"), Ok(Color::LightRed));
    assert_eq!(parse_colour("#0a0B0c"), Ok(Color::Rgb(10, 11, 12)));
    assert_eq!(parse_colour("255"), Ok(Color::Indexed(255)));
    assert!(parse_colour("256").is_err());
}

#[test]
fn the_first_colour_that_is_none_is_the_one_complained_of() {
    let spellings = vec!["red".to_string(), "one".to_string(), "two".to_string()];
    let complaint = non_empty_palette(Some(spellings)).expect_err("two are none");
    assert_eq!(complaint, parse_colour("one").expect_err("no colour"));
    assert_eq!(non_empty_palette(Some(Vec::new())), Err(EMPTY_PALETTE.to_string()));
    assert_eq!(non_empty_palette(None), Ok(None));
}

#[test]
fn a_file_applied_twice_is_a_file_applied_once() {
    let file = FileConfig {
        editor: Some(EditorConfig {
            project: Some("zed {file}".to_string()),
            file: None,
        }),
        filters: None,
    };
    let mut once = Config::default();
    once.apply(&file);
    let mut twice = once.clone();
    twice.apply(&file);
    assert_eq!(once, twice);
    assert_eq!(once.editor.as_deref(), Some("zed {file}"));
}

#[test]
fn the_settings_outrank_the_environment() {
    let config = Config {
        editor: Some("subl {project} {file}".to_string()),
        ..Config::default()
    };
    let templates = config.editor_templates(Some("vim"), Some("ed"));
    assert_eq!(templates.project, "subl {project} {file}");
    assert_eq!(templates.file, "subl {file}");
    assert_eq!(Config::default().editor_templates(Some("vim"), None).project, "vim {file}");
}

#[test]
fn the_directory_is_the_one_the_file_is_in() {
    assert_eq!(
        config_home_from(Some("/xdg/"), None).as_deref(),
        Some("/xdg/recon")
    );
    assert_eq!(
        config_home_from(None, Some("/h")).as_deref(),
        Some("/h/.config/recon")
    );
}
