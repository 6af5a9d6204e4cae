use recon::colour::Color;
use recon::filter::{LoadedSet, Sense, DEFINITIONS_SET};
use recon::filtersets::{
    append_set, is_set_file, load_all, parse, path_from, search_path_from, set_files, DirOutcome,
    Error, FileOutcome, FileSchema, FilterSchema, SetSchema, SetToSave, SetsDir, SetsFile,
    DEFAULT_PRIORITY, FILE,
};
use std::collections::BTreeMap;
use std::path::{Path, PathBuf};

fn text_of(table: &toml::Table, key: &str) -> Option<String> {
    table
        .get(key)
        .map(|value| value.as_str().expect("a string").to_string())
}

fn texts_of(value: &toml::Value) -> Vec<String> {
    value
        .as_array()
        .expect("a list")
        .iter()
        .map(|entry| entry.as_str().expect("a string").to_string())
        .collect()
}

fn filter_schema(table: &toml::Table) -> FilterSchema {
    FilterSchema {
        pattern: text_of(table, "pattern").expect("a filter has a pattern"),
        name: text_of(table, "name"),
        sense: text_of(table, "sense").map(|sense| match sense.as_str() {
            "include" => Sense::Include,
            "exclude" => Sense::Exclude,
            "context" => Sense::Context,
            other => panic!("unknown sense {other}"),
        }),
        colour: text_of(table, "colour"),
    }
}

fn set_schema(table: &toml::Table) -> SetSchema {
    let profiles: BTreeMap<String, Vec<String>> = match table.get("profiles") {
        Some(profiles) => profiles
            .as_table()
            .expect("a table")
            .iter()
            .map(|(name, members)| (name.clone(), texts_of(members)))
            .collect(),
        None => BTreeMap::new(),
    };
    let filters = match table.get("filters") {
        Some(filters) => filters
            .as_array()
            .expect("an array of tables")
            .iter()
            .map(|filter| filter_schema(filter.as_table().expect("a table")))
            .collect(),
        None => Vec::new(),
    };
    let flag = |key: &str| table.get(key).map(|flag| flag.as_bool().expect("a flag"));
    SetSchema {
        priority: table.get("priority").map(|priority| {
            i32::try_from(priority.as_integer().expect("a number")).expect("a small number")
        }),
        autoload: flag("autoload"),
        listed: flag("listed"),
        description: text_of(table, "description"),
        mode: text_of(table, "mode"),
        profiles: profiles.into_iter().collect(),
        filters,
    }
}

fn schema(text: &str) -> FileSchema {
    let root: toml::Table = text.parse().expect("TOML");
    let sets: BTreeMap<String, SetSchema> = match root.get("sets") {
        Some(sets) => sets
            .as_table()
            .expect("a table")
            .iter()
            .map(|(name, set)| (name.clone(), set_schema(set.as_table().expect("a table"))))
            .collect(),
        None => BTreeMap::new(),
    };
    FileSchema {
        sets: sets.into_iter().collect(),
    }
}

fn parse_text(text: &str, path: &str) -> Result<Vec<LoadedSet>, Error> {
    parse(&schema(text), path)
}

fn parsed(text: &str) -> Vec<LoadedSet> {
    parse_text(text, "t/filters.toml").expect("valid file")
}

fn rejected(text: &str) -> String {
    parse_text(text, "t/filters.toml")
        .expect_err("invalid file")
        .message()
}

fn sets_file(path: &str, text: &str) -> SetsFile {
    SetsFile {
        path: path.to_string(),
        outcome: FileOutcome::Parsed(schema(text)),
    }
}

fn search_path(filter_path: Option<&str>, home: Option<&str>) -> Vec<PathBuf> {
    search_path_from(filter_path, home, "/work")
        .into_iter()
        .map(PathBuf::from)
        .collect()
}

const MINIMAL: &str = "[sets.a]\n[[sets.a.filters]]\npattern = 'foo'\n";

#[test]
fn an_empty_file_has_only_the_builtin_set() {
    let sets = parsed("");
    assert_eq!(sets.len(), 1);
    let builtin = &sets[0];
    assert!(builtin.builtin);
    assert_eq!(builtin.name, DEFINITIONS_SET);
    assert_eq!(builtin.priority, DEFAULT_PRIORITY);
    assert!(!builtin.autoload);
    assert!(builtin.profiles.is_empty());
    assert!(builtin.filters.is_empty());
}

#[test]
fn a_minimal_set_takes_every_default() {
    let sets = parsed(MINIMAL);
    assert_eq!(sets.len(), 2, "the set and the built-in one");
    let a = &sets[0];
    assert_eq!(a.name, "a");
    assert_eq!(a.path, "t/filters.toml");
    assert_eq!(a.priority, DEFAULT_PRIORITY);
    assert!(!a.autoload);
    assert!(a.profiles.is_empty());
    assert_eq!(a.filters[0].name, "foo", "name falls back to the pattern");
    assert_eq!(a.filters[0].sense, Sense::Include);
    assert_eq!(a.filters[0].colour, None);
}

#[test]
fn every_key_is_read() {
    let sets = parsed(
        r#"
[sets.w]
priority = 10
autoload = true
mode = "or"
[sets.w.profiles]
default = ["assoc"]
[[sets.w.filters]]
name = "assoc"
pattern = 'wlan\d+: associated'
colour = "red"
[[sets.w.filters]]
pattern = 'retry'
sense = "exclude"
[[sets.w.filters]]
pattern = 'beacon'
sense = "context"
"#,
    );
    let w = &sets[0];
    assert_eq!((w.priority, w.autoload), (10, true));
    assert_eq!(w.profiles.get("default"), Some(&vec!["assoc".to_string()]));
    assert_eq!(w.filters[0].colour, Some(Color::Red));
    assert_eq!(
        w.filters[0].predicate.display(),
        r"wlan\d+: associated",
        "a literal string keeps its backslashes"
    );
    assert_eq!(w.filters[1].sense, Sense::Exclude);
    assert_eq!(w.filters[1].name, "retry");
    assert_eq!(w.filters[2].sense, Sense::Context);
}

#[test]
fn sets_sort_by_priority_then_name() {
    let sets = parsed(
        "[sets.zebra]\npriority = 10\n[[sets.zebra.filters]]\npattern = 'z'\n\
         [sets.beta]\n[[sets.beta.filters]]\npattern = 'b'\n\
         [sets.alpha]\n[[sets.alpha.filters]]\npattern = 'a'\n",
    );
    let names: Vec<&str> = sets.iter().map(|s| s.name.as_str()).collect();
    assert_eq!(
        names,
        ["zebra", "alpha", "beta", "definitions"],
        "the built-in set sorts among the file's by the same rule"
    );
}

#[test]
fn a_bad_pattern_names_the_file_set_and_filter() {
    let message = rejected("[sets.a]\n[[sets.a.filters]]\npattern = '('\n");
    assert!(message.contains("t/filters.toml"), "{message}");
    assert!(message.contains("[sets.a]"), "{message}");
    assert!(message.contains("filter '('"), "{message}");
}

#[test]
fn a_bad_colour_explains_the_forms() {
    let message = rejected("[sets.a]\n[[sets.a.filters]]\npattern = 'x'\ncolour = 'reddish'\n");
    assert!(message.contains("hex triple"), "{message}");
    assert!(message.contains("filter 'x'"), "{message}");
}

#[test]
fn duplicate_names_are_rejected_after_the_fallback() {
    let message = rejected(
        "[sets.a]\n[[sets.a.filters]]\npattern = 'x'\n[[sets.a.filters]]\nname = 'x'\npattern = 'y'\n",
    );
    assert!(message.contains("two filters named \"x\""), "{message}");
}

#[test]
fn a_profile_must_name_real_filters() {
    let message = rejected(
        "[sets.a]\n[sets.a.profiles]\ndefault = ['nope']\n[[sets.a.filters]]\npattern = 'x'\n",
    );
    assert!(message.contains("profile \"default\""), "{message}");
    assert!(message.contains("\"nope\""), "{message}");
}

#[test]
fn a_builtin_set_table_carries_priority_autoload_and_profiles() {
    let sets = parsed("[sets.definitions]\npriority = 80\nautoload = true\n");
    assert_eq!(sets.len(), 1, "the table stands in for the default");
    assert!(sets[0].builtin);
    assert_eq!((sets[0].priority, sets[0].autoload), (80, true));
    assert!(sets[0].filters.is_empty());
    assert!(
        rejected("[sets.definitions]\n[[sets.definitions.filters]]\npattern = 'x'\n")
            .contains("built-in")
    );
    let sets = parsed(
        "[sets.definitions]\n[sets.definitions.profiles]\ndefault = ['functions']\n\
         types = ['types', 'structs', 'enums']\n",
    );
    assert_eq!(sets.len(), 1);
    assert_eq!(sets[0].profiles.get("default"), Some(&vec!["functions".to_string()]));
    assert_eq!(sets[0].profiles.get("types").map(Vec::len), Some(3));
    assert!(parsed("[sets.definitions]\n")[0].builtin);
}

#[test]
fn a_builtin_profile_must_name_definition_kinds() {
    let message = rejected(
        "[sets.definitions]\n[sets.definitions.profiles]\ntypes = ['types', 'nope']\n",
    );
    assert!(message.contains("[sets.definitions]"), "{message}");
    assert!(message.contains("profile \"types\""), "{message}");
    assert!(message.contains("\"nope\""), "{message}");
    assert!(message.contains("functions"), "lists the kinds: {message}");
    assert!(message.contains("sections"), "lists the kinds: {message}");
}

#[test]
fn a_bad_filter_is_named_by_its_name_when_it_has_one() {
    let message = rejected("[sets.a]\n[[sets.a.filters]]\nname = 'opener'\npattern = '('\n");
    assert!(message.contains("filter 'opener'"), "{message}");
    assert!(!message.contains("filter '('"), "{message}");
    let message = rejected(
        "[sets.a]\n[[sets.a.filters]]\nname = 'warm'\npattern = 'x'\ncolour = 'reddish'\n",
    );
    assert!(message.contains("filter 'warm'"), "{message}");
}

#[test]
fn a_set_needs_a_filter() {
    assert!(rejected("[sets.a]\n").contains("no filters"));
}

#[test]
fn mode_accepts_only_or() {
    assert!(
        parse_text(
            "[sets.a]\nmode = 'or'\n[[sets.a.filters]]\npattern = 'x'\n",
            "t"
        )
        .is_ok()
    );
    assert!(
        rejected("[sets.a]\nmode = 'and'\n[[sets.a.filters]]\npattern = 'x'\n")
            .contains("mode \"and\"")
    );
}

#[test]
fn an_empty_set_name_is_rejected() {
    assert!(rejected("[sets.\"\"]\n[[sets.\"\".filters]]\npattern = 'x'\n").contains("empty"));
}

#[test]
fn append_set_preserves_comments_and_other_sets() {
    let before = "# my sets\n[sets.a]\n# keep me\n[[sets.a.filters]]\npattern = 'x'\n";
    let after = append_set(
        before,
        &SetToSave {
            name: "bug 57",
            filters: vec![
                (r"\bERROR\b".into(), Sense::Include),
                ("DEBUG".into(), Sense::Exclude),
                ("ctx".into(), Sense::Context),
            ],
            default: vec![r"\bERROR\b".into()],
        },
    )
    .expect("edits");
    assert!(
        after.starts_with(before),
        "existing text is untouched:\n{after}"
    );
    assert!(after.contains("[sets.\"bug 57\"]"), "{after}");
    assert!(
        after.contains(r"pattern = '\bERROR\b'"),
        "single-quoted literal:\n{after}"
    );
    assert!(after.contains("sense = \"exclude\""), "{after}");
    assert!(after.contains("sense = \"context\""), "{after}");
    assert!(
        after.contains(r"default = ['\bERROR\b']"),
        "the profile member is a literal string too:\n{after}"
    );
    assert!(!after.contains("autoload"), "{after}");
    assert!(
        !after.contains("\n[sets]\n"),
        "no bare [sets] header:\n{after}"
    );
    let sets = parse_text(&after, "t").expect("round-trips");
    assert_eq!(sets.len(), 3, "a, bug 57 and the built-in set");
    assert_eq!(sets[1].name, "bug 57");
    assert_eq!(sets[1].filters[0].predicate.display(), r"\bERROR\b");
    assert_eq!(sets[1].profiles.get("default"), Some(&vec![r"\bERROR\b".to_string()]));
}

#[test]
fn append_set_starts_an_empty_file() {
    let after = append_set(
        "",
        &SetToSave {
            name: "n",
            filters: vec![("x".into(), Sense::Include)],
            default: vec![],
        },
    )
    .expect("edits");
    assert!(after.contains("[sets.n]"), "{after}");
    assert!(!after.contains("profiles"), "no empty default: {after}");
    assert!(parse_text(&after, "t").is_ok());
}

#[test]
fn append_set_refuses_a_name_the_file_already_holds() {
    let before = "# my file\n[sets.bug]\n[[sets.bug.filters]]\npattern = 'ORIGINAL'\n";
    let err = append_set(
        before,
        &SetToSave {
            name: "bug",
            filters: vec![("NEW".into(), Sense::Include)],
            default: vec![],
        },
    )
    .expect_err("refused");
    assert!(
        err.contains("a set named \"bug\" is already in filters.toml"),
        "{err}"
    );
    assert!(err.contains("since recon started"), "{err}");
}

#[test]
fn a_pattern_with_a_quote_falls_back_to_a_basic_string() {
    let after = append_set(
        "",
        &SetToSave {
            name: "q",
            filters: vec![("it's".into(), Sense::Include)],
            default: vec![],
        },
    )
    .expect("edits");
    assert!(after.contains("pattern = \"it's\""), "{after}");
    let sets = parse_text(&after, "t").expect("round-trips");
    let q = sets
        .iter()
        .find(|set| set.name == "q")
        .expect("q was appended");
    assert_eq!(q.filters[0].predicate.display(), "it's");
}

#[test]
fn the_path_sits_beside_config_toml() {
    assert_eq!(
        path_from(Some("/x"), Some("/h")),
        Some("/x/recon/filters.toml".to_string())
    );
    assert_eq!(
        path_from(None, Some("/h")),
        Some("/h/.config/recon/filters.toml".to_string())
    );
    assert_eq!(path_from(Some("relative"), None), None);
}

#[test]
fn a_missing_file_is_the_builtin_set_alone() {
    let sets = load_all(&vec![SetsFile {
        path: "target/test-config/no-such-filters.toml".to_string(),
        outcome: FileOutcome::Missing,
    }])
    .expect("not an error");
    assert_eq!(sets.len(), 1);
    assert!(sets[0].builtin);
}

#[test]
fn a_directory_in_the_files_place_is_an_error() {
    let err = load_all(&vec![SetsFile {
        path: "target/test-config/filters-as-a-dir.toml".to_string(),
        outcome: FileOutcome::Failed("Is a directory (os error 21)".to_string()),
    }])
    .expect_err("refused");
    assert!(matches!(err, Error::Read { .. }));
    assert_eq!(
        err.message(),
        "could not read filter sets file target/test-config/filters-as-a-dir.toml: \
         Is a directory (os error 21)"
    );
}

#[test]
fn listed_defaults_to_true_and_can_be_false() {
    let file = "[sets.a]\n[[sets.a.filters]]\npattern = 'x'\n";
    let sets = parsed(file);
    assert!(
        sets.iter().all(|set| set.listed),
        "a, and the default built-in"
    );
    let sets = parsed(&format!(
        "{file}[sets.b]\nlisted = false\n[[sets.b.filters]]\npattern = 'y'\n"
    ));
    let b = sets.iter().find(|set| set.name == "b").expect("b");
    assert!(!b.listed);
}

#[test]
fn listed_false_with_autoload_true_is_accepted() {
    let sets = parsed(
        "[sets.a]\nlisted = false\nautoload = true\n[[sets.a.filters]]\npattern = 'x'\n",
    );
    assert_eq!((sets[0].listed, sets[0].autoload), (false, true));
}

#[test]
fn a_builtin_set_table_accepts_listed() {
    let sets = parsed("[sets.definitions]\nlisted = false\n");
    assert!(sets[0].builtin);
    assert!(!sets[0].listed);
}

#[test]
fn description_is_optional() {
    let sets = parsed(&format!(
        "{MINIMAL}[sets.b]\ndescription = 'Rust source'\n[[sets.b.filters]]\npattern = 'y'\n"
    ));
    let a = sets.iter().find(|set| set.name == "a").expect("a");
    let b = sets.iter().find(|set| set.name == "b").expect("b");
    assert_eq!(a.description, None);
    assert_eq!(b.description.as_deref(), Some("Rust source"));
}

#[test]
fn a_builtin_set_table_accepts_description() {
    let sets = parsed("[sets.definitions]\ndescription = 'mine'\n");
    assert!(sets[0].builtin);
    assert_eq!(sets[0].description.as_deref(), Some("mine"));
}

#[test]
fn a_description_of_more_than_one_line_is_refused() {
    let message = rejected(
        "[sets.a]\ndescription = \"\"\"one\ntwo\"\"\"\n[[sets.a.filters]]\npattern = 'x'\n",
    );
    assert!(message.contains("one line"), "{message}");
}

fn set_file(name: &str, pattern: &str) -> String {
    format!("[sets.{name}]\n[[sets.{name}.filters]]\npattern = '{pattern}'\n")
}

#[test]
fn the_path_is_each_entry_in_order() {
    assert_eq!(
        search_path(Some("/team:/proj/.recon"), Some("/h")),
        [PathBuf::from("/team"), PathBuf::from("/proj/.recon")]
    );
    assert!(search_path(None, Some("/h")).is_empty());
    assert!(search_path(Some(""), Some("/h")).is_empty());
}

#[test]
fn an_empty_entry_is_not_the_current_directory() {
    assert_eq!(
        search_path(Some(":/team::"), None),
        [PathBuf::from("/team")]
    );
}

#[test]
fn a_leading_tilde_is_home() {
    assert_eq!(
        search_path(Some("~/team:~"), Some("/h")),
        [PathBuf::from("/h/team"), PathBuf::from("/h")]
    );
    assert_eq!(
        search_path(Some("~/team"), None),
        [PathBuf::from("~/team")],
        "with no home, the entry is left as written"
    );
}

#[test]
fn a_directory_named_twice_is_read_once() {
    assert_eq!(
        search_path(Some("/team:/other:/team/:/team/x/.."), None),
        [PathBuf::from("/team"), PathBuf::from("/other")]
    );
}

#[test]
fn a_directory_gives_its_set_files_in_name_order() {
    let team = "/team";
    let mut entries: Vec<(String, bool)> = [
        "triage.filters.toml",
        "deploy.filters.toml",
        "filters.toml",
        ".filters.toml",
        "notes.toml",
        "oldfilters.toml",
        "errors.filters.toml.bak",
    ]
    .iter()
    .map(|name| (name.to_string(), true))
    .collect();
    entries.push(("dir.filters.toml".to_string(), false));
    let own = format!("/own/{FILE}");
    let files = set_files(
        Some(own.clone()),
        &vec![SetsDir {
            path: team.to_string(),
            outcome: DirOutcome::Entries(entries),
        }],
    )
    .expect("lists");
    assert_eq!(
        files,
        [
            own,
            format!("{team}/deploy.filters.toml"),
            format!("{team}/filters.toml"),
            format!("{team}/triage.filters.toml"),
        ]
    );
}

#[test]
fn a_missing_directory_on_the_path_is_no_files() {
    let files = set_files(
        None,
        &vec![SetsDir {
            path: "/nowhere".to_string(),
            outcome: DirOutcome::Missing,
        }],
    )
    .expect("not an error");
    assert!(files.is_empty());
}

#[test]
fn a_file_in_a_directorys_place_is_an_error() {
    let err = set_files(
        None,
        &vec![SetsDir {
            path: "/team".to_string(),
            outcome: DirOutcome::Failed("Not a directory (os error 20)".to_string()),
        }],
    )
    .expect_err("refused");
    assert!(matches!(err, Error::ReadDir { .. }));
    assert!(err.message().contains("directory"), "{}", err.message());
}

#[test]
fn an_earlier_file_shadows_a_later_one() {
    let own = "/own/filters.toml";
    let files = vec![
        sets_file(own, &set_file("bug", "mine")),
        sets_file(
            "/team/a.filters.toml",
            &format!("{}{}", set_file("bug", "theirs"), set_file("wifi", "wlan")),
        ),
        sets_file("/team/b.filters.toml", &set_file("wifi", "later")),
    ];
    let sets = load_all(&files).expect("loads");
    let names: Vec<&str> = sets.iter().map(|set| set.name.as_str()).collect();
    assert_eq!(names, ["bug", "definitions", "wifi"]);
    assert_eq!(sets[0].filters[0].predicate.display(), "mine");
    assert_eq!(sets[0].path, own);
    assert_eq!(sets[2].filters[0].predicate.display(), "wlan");
    assert_eq!(sets[2].path, "/team/a.filters.toml");
}

#[test]
fn the_builtin_table_comes_from_the_first_file_that_names_it() {
    let files = vec![
        sets_file("own.toml", &set_file("a", "x")),
        sets_file("team.toml", "[sets.definitions]\npriority = 7\n"),
    ];
    let sets = load_all(&files).expect("loads");
    let builtins: Vec<&LoadedSet> = sets.iter().filter(|set| set.builtin).collect();
    assert_eq!(builtins.len(), 1);
    assert_eq!(builtins[0].priority, 7);
}

#[test]
fn a_bad_file_on_the_path_refuses_with_its_own_path() {
    let files = vec![
        sets_file("own.toml", &set_file("a", "x")),
        sets_file("team.toml", "[sets.b]\n"),
    ];
    let err = load_all(&files).expect_err("refused");
    assert!(err.message().contains("team.toml"), "{}", err.message());
}

#[test]
fn a_file_that_is_not_toml_is_refused_by_its_own_words() {
    let err = load_all(&vec![SetsFile {
        path: "t.toml".to_string(),
        outcome: FileOutcome::Unparsable("expected `=`".to_string()),
    }])
    .expect_err("refused");
    assert!(matches!(err, Error::Parse { .. }));
    assert!(err.message().contains("t.toml"), "{}", err.message());
    assert!(err.message().contains("expected `=`"), "{}", err.message());
}

#[test]
fn an_earlier_bad_file_is_the_one_complained_of() {
    let files = vec![
        sets_file("first.toml", "[sets.a]\n"),
        sets_file("second.toml", "[sets.b]\n"),
    ];
    let err = load_all(&files).expect_err("refused");
    assert!(err.message().contains("first.toml"), "{}", err.message());
}

#[test]
fn a_bad_set_is_refused_though_it_is_shadowed() {
    let files = vec![
        sets_file("own.toml", &set_file("a", "x")),
        sets_file("team.toml", &set_file("a", "(")),
    ];
    let err = load_all(&files).expect_err("refused");
    assert!(err.message().contains("team.toml"), "{}", err.message());
}

#[test]
fn only_names_of_set_files_are_set_files() {
    assert!(is_set_file("filters.toml"));
    assert!(is_set_file("a.filters.toml"));
    assert!(!is_set_file(".filters.toml"));
    assert!(!is_set_file("afilters.toml"));
    assert!(!is_set_file(""));
}

#[test]
fn text_that_is_not_toml_takes_no_set() {
    let err = append_set(
        "= =",
        &SetToSave {
            name: "n",
            filters: vec![("x".into(), Sense::Include)],
            default: vec![],
        },
    )
    .expect_err("refused");
    assert!(err.contains("TOML parse error"), "{err}");
}

#[test]
fn what_is_appended_reads_back_as_it_was_saved() {
    let before = "[sets.a]\n[[sets.a.filters]]\npattern = 'x'\n";
    let saved = SetToSave {
        name: "n",
        filters: vec![
            ("x".into(), Sense::Include),
            ("it's \"so\"".into(), Sense::Exclude),
            ("c".into(), Sense::Context),
        ],
        default: vec!["x".into(), "c".into()],
    };
    let after = append_set(before, &saved).expect("edits");
    let sets = parse_text(&after, "t").expect("reads back");
    let n = sets.iter().find(|set| set.name == "n").expect("n");
    let read: Vec<(String, Sense)> = n
        .filters
        .iter()
        .map(|filter| (filter.predicate.display(), filter.sense))
        .collect();
    assert_eq!(read, saved.filters);
    assert_eq!(n.profiles.get("default"), Some(&saved.default));
    assert!(sets.iter().any(|set| set.name == "a"));
    assert!(append_set(&after, &saved).is_err(), "the name is taken now");
}

#[test]
fn a_set_table_in_an_odd_place_takes_no_set() {
    let saved = SetToSave {
        name: "n",
        filters: vec![("x".into(), Sense::Include)],
        default: vec![],
    };
    assert!(append_set("sets = 3\n", &saved).is_err());
}

#[test]
fn a_home_entry_is_joined_as_a_path_is() {
    for rest in ["", "/", "/x", "//x", "/./x", "/x/", "/x/.", "/x/./y//", "/..", "/."] {
        let entry = format!("~{rest}");
        let stripped = Path::new(&entry).strip_prefix("~").expect("it begins so");
        assert_eq!(
            search_path_from(Some(&entry), Some("/h"), "/work"),
            [Path::new("/h").join(stripped).to_str().expect("UTF-8")],
            "{entry}"
        );
    }
}

#[test]
fn a_saved_set_leaves_the_values_of_others() {
    let before = "[sets.a]\npriority = 7\nautoload = true\nlisted = false\n\
                  description = 'd'\n[[sets.a.filters]]\npattern = 'x'\n\
                  colour = 'red'\n[sets]\nb = { priority = 3, filters = [{ pattern = 'y' }] }\n";
    let saved = SetToSave {
        name: "n",
        filters: vec![("z".into(), Sense::Include)],
        default: vec![],
    };
    let after = append_set(before, &saved).expect("edits");
    let old = parse_text(before, "t").expect("valid");
    let new = parse_text(&after, "t").expect("valid");
    assert_eq!(new.len(), old.len() + 1);
    for set in &old {
        let kept = new.iter().find(|kept| kept.name == set.name).expect("kept");
        assert_eq!(format!("{kept:?}"), format!("{set:?}"));
    }
}

#[test]
fn a_text_with_too_many_quotes_in_a_row_is_refused() {
    let saved = |pattern: String, default: Vec<String>| SetToSave {
        name: "n",
        filters: vec![(pattern, Sense::Include)],
        default,
    };
    for quote in ["'", "\""] {
        let longest = quote.repeat(255);
        let after = append_set("", &saved("x\n".to_string() + &longest, vec![longest.clone()]))
            .expect("as many as can be");
        let sets = parse_text(&after, "t");
        assert!(sets.is_err(), "the profile names no filter of the set");
        let longer = quote.repeat(256);
        let err = append_set("", &saved("x".to_string(), vec![longer.clone()]))
            .expect_err("one too many");
        assert!(err.contains("too many quotes in a row"), "{err}");
        assert!(append_set("", &saved("x\n".to_string() + &longer, vec![])).is_err());
    }
    assert!(
        append_set("", &saved("\"".repeat(256), vec![])).is_ok(),
        "between single quotes nothing is encoded"
    );
}

#[test]
fn a_header_of_the_users_own_keeps_its_comment() {
    let before = "# all of mine\n[sets]\n\n# the first\n[sets.a]\n[[sets.a.filters]]\npattern = 'x' # why\n# the end\n";
    let after = append_set(
        before,
        &SetToSave {
            name: "n",
            filters: vec![("y z".into(), Sense::Include)],
            default: vec![],
        },
    )
    .expect("edits");
    for comment in ["# all of mine\n[sets]\n", "# the first", "# why", "# the end"] {
        assert_eq!(after.matches(comment).count(), 1, "{after}");
    }
    assert!(after.contains("pattern = 'y z'"), "{after}");
    let place = after.find("\n[sets.n]").expect("a header");
    let piece = after.len() - before.len();
    assert_eq!(format!("{}{}", &after[..place], &after[place + piece..]), before);
}

#[test]
fn a_header_that_was_not_there_is_not_put_there() {
    for before in ["", "[sets.a]\n[[sets.a.filters]]\npattern = 'x'\n"] {
        let after = append_set(
            before,
            &SetToSave {
                name: "n",
                filters: vec![("y".into(), Sense::Include)],
                default: vec!["y".into()],
            },
        )
        .expect("edits");
        assert!(!after.contains("[sets]"), "{after}");
        assert!(after.starts_with(before), "{after}");
    }
}
