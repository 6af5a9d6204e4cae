use recon::editor::{
    derive_file_template, drop_project, editor_command, generic_editor_template, outcome_of,
    print_editor_config, program_of, project_root, shell_join, split_template, substitute,
    toml_string, TemplateError, Templates, DEFAULT_PROJECT_TEMPLATE, EMPTY_COMMAND, FLAVOURS,
    PROJECT_MARKERS,
};

/// Where the trees of these tests stand.
const WORK: &str = "/work";

/// Files and directories in memory. A name that ends in a slash is a directory.
struct Tree {
    root: String,
    files: Vec<String>,
    dirs: Vec<String>,
}

impl Tree {
    fn child(&self, path: &str) -> String {
        format!("{}/{path}", self.root)
    }

    fn project_root(&self, path: &str) -> String {
        self.root_of(&self.child(path))
    }

    fn root_of(&self, path: &str) -> String {
        let is_dir = self.dirs.iter().any(|dir| dir == path);
        let cwd = WORK.as_bytes().to_vec();
        let present = |asked: &Vec<u8>| {
            let here = |known: &String| known.as_bytes() == asked.as_slice();
            self.files.iter().any(here) || self.dirs.iter().any(here)
        };
        let root = project_root(path.as_bytes(), Some(&cwd), is_dir, present);
        String::from_utf8(root).expect("the trees are UTF-8")
    }
}

fn tree(name: &str, paths: &[&str]) -> Tree {
    let root = format!("{WORK}/target/test-editor/{name}");
    let mut files = Vec::new();
    let mut dirs = vec![root.clone()];
    for path in paths {
        let full = format!("{root}/{path}");
        match full.strip_suffix('/') {
            Some(dir) => dirs.push(dir.to_string()),
            None => files.push(full.clone()),
        }
        let parts: Vec<&str> = path.trim_end_matches('/').split('/').collect();
        for depth in 1..parts.len() {
            dirs.push(format!("{root}/{}", parts[..depth].join("/")));
        }
    }
    Tree { root, files, dirs }
}

#[test]
fn a_cargo_project_is_found_from_a_nested_file() {
    let tree = tree("cargo", &["Cargo.toml", "src/widgets/fileview.rs"]);
    assert_eq!(tree.project_root("src/widgets/fileview.rs"), tree.root);
}

#[test]
fn a_git_directory_marks_a_project() {
    let tree = tree("git-dir", &[".git/", "notes/today.log"]);
    assert_eq!(tree.project_root("notes/today.log"), tree.root);
}

#[test]
fn a_git_file_in_a_linked_worktree_marks_a_project() {
    let tree = tree("git-file", &["src/lib.rs", ".git"]);
    assert_eq!(tree.project_root("src/lib.rs"), tree.root);
}

#[test]
fn the_nearest_marker_wins() {
    let tree = tree(
        "nested",
        &["Cargo.toml", "vendor/inner/Cargo.toml", "vendor/inner/lib.rs"],
    );
    assert_eq!(
        tree.project_root("vendor/inner/lib.rs"),
        tree.child("vendor/inner")
    );
}

#[test]
fn every_marker_in_the_table_is_recognised() {
    for (index, marker) in PROJECT_MARKERS.iter().enumerate() {
        let tree = tree(
            &format!("marker-{index}"),
            &[marker, "deep/nested/file.txt"],
        );
        assert_eq!(
            tree.project_root("deep/nested/file.txt"),
            tree.root,
            "marker {marker} was not recognised"
        );
    }
}

#[test]
fn a_file_with_no_project_falls_back_to_its_directory() {
    let tree = tree("recon-no-marker", &["logs/today.log"]);
    assert_eq!(tree.project_root("logs/today.log"), tree.child("logs"));
}

#[test]
fn a_relative_path_does_not_climb_into_the_working_directory() {
    let tree = tree("relative", &["go.mod", "logs/today.log"]);
    let relative = "target/test-editor/relative/logs/today.log";
    assert_eq!(tree.root_of(relative), tree.root);
}

#[test]
fn a_directory_walks_up_from_itself() {
    let tree = tree("dir-arg", &["Cargo.toml", "src/"]);
    assert_eq!(tree.root_of(&tree.root), tree.root);
    assert_eq!(tree.project_root("src"), tree.root);
}

fn split(template: &str) -> Vec<String> {
    split_template(template).expect("template splits")
}

#[test]
fn a_plain_template_splits_on_whitespace() {
    assert_eq!(
        split("zed {project} {file}:{line}"),
        ["zed", "{project}", "{file}:{line}"]
    );
}

#[test]
fn the_osascript_form_survives_as_one_argv_entry() {
    let (_, project, _) = FLAVOURS
        .iter()
        .find(|(name, _, _)| *name == "terminal-nvim")
        .expect("terminal-nvim is a known flavour");
    let argv = split(project);
    assert_eq!(argv.len(), 3, "expected `osascript -e <script>`: {argv:?}");
    assert_eq!(argv[0], "osascript");
    assert_eq!(argv[1], "-e");
    assert!(
        argv[2].starts_with("tell app \"Terminal\""),
        "the script lost its quoting: {:?}",
        argv[2]
    );
    assert!(
        argv[2].contains("{project}") && argv[2].contains("{file}"),
        "the script lost its placeholders: {:?}",
        argv[2]
    );
}

#[test]
fn double_quotes_group_and_escape() {
    assert_eq!(
        split(r#"say "hello there" and \"quoted\""#),
        ["say", "hello there", "and", "\"quoted\""]
    );
}

#[test]
fn single_quotes_are_literal_throughout() {
    assert_eq!(split(r#"e 'a \b "c" '"#), ["e", r#"a \b "c" "#]);
}

#[test]
fn an_unterminated_quote_is_an_error() {
    assert_eq!(
        split_template("zed 'unclosed"),
        Err(TemplateError::UnterminatedQuote { quote: '\'' })
    );
    assert_eq!(
        split_template("zed \"unclosed"),
        Err(TemplateError::UnterminatedQuote { quote: '"' })
    );
}

#[test]
fn an_empty_template_is_an_error() {
    assert_eq!(split_template("   "), Err(TemplateError::Empty));
    assert_eq!(split_template(""), Err(TemplateError::Empty));
}

fn command(template: &str, project: &str, file: &str, line: usize) -> Vec<String> {
    editor_command(template, project, file, line)
        .expect("template builds a command")
}

#[test]
fn every_known_good_template_produces_its_documented_argv() {
    let cases: &[(&str, &[&str])] = &[
        (
            "zed {project} {file}:{line}",
            &["zed", "/proj", "/proj/src/lib.rs:42"],
        ),
        (
            "code {project} -g {file}:{line}",
            &["code", "/proj", "-g", "/proj/src/lib.rs:42"],
        ),
        (
            "subl {project} {file}:{line}",
            &["subl", "/proj", "/proj/src/lib.rs:42"],
        ),
        (
            "idea --line {line} {file}",
            &["idea", "--line", "42", "/proj/src/lib.rs"],
        ),
    ];
    for (template, expected) in cases {
        assert_eq!(
            command(template, "/proj", "/proj/src/lib.rs", 42),
            *expected,
            "template {template:?}"
        );
    }
}

#[test]
fn a_path_containing_a_space_stays_one_argv_entry() {
    let argv = command(
        "zed {project} {file}:{line}",
        "/My Projects/app",
        "/My Projects/app/src/main.rs",
        7,
    );
    assert_eq!(
        argv,
        ["zed", "/My Projects/app", "/My Projects/app/src/main.rs:7"]
    );
}

#[test]
fn quotes_and_dollars_in_a_path_pass_through_verbatim() {
    let argv = command("zed {project} {file}", "/p", r#"/p/we"ird/$HOME.log"#, 1);
    assert_eq!(argv, ["zed", "/p", r#"/p/we"ird/$HOME.log"#]);
}

#[test]
fn a_template_with_no_line_placeholder_still_works() {
    assert_eq!(
        command("mate {file}", "/p", "/p/a.rs", 9),
        ["mate", "/p/a.rs"]
    );
}

#[test]
fn an_unknown_placeholder_is_left_alone() {
    assert_eq!(
        command("ed --at {ln} {file}", "/p", "/p/a.rs", 3),
        ["ed", "--at", "{ln}", "/p/a.rs"]
    );
}

#[test]
fn substituted_text_is_not_re_scanned() {
    assert_eq!(
        command("zed {file}", "/p", "/p/{line}.log", 5),
        ["zed", "/p/{line}.log"]
    );
}

#[test]
fn an_unclosed_brace_is_ordinary_text() {
    assert_eq!(command("zed {fi", "/p", "/p/a.rs", 1), ["zed", "{fi"]);
}

#[test]
fn dropping_project_yields_the_documented_file_argv() {
    let cases: &[(&str, &str)] = &[
        ("zed {project} {file}:{line}", "zed {file}:{line}"),
        ("code {project} -g {file}:{line}", "code -g {file}:{line}"),
        ("subl {project} {file}:{line}", "subl {file}:{line}"),
        ("idea --line {line} {file}", "idea --line {line} {file}"),
    ];
    for (project, expected) in cases {
        assert_eq!(
            derive_file_template(project).as_deref(),
            Some(*expected),
            "deriving from {project:?}"
        );
    }
}

#[test]
fn nothing_configured_yields_the_compiled_in_defaults() {
    let templates = Templates::resolve(None, None, None, None);
    assert_eq!(templates.project, "zed {project} {file}:{line}");
    assert_eq!(templates.file, "zed {file}:{line}");
}

#[test]
fn recon_editor_wins_over_visual_and_editor() {
    let templates = Templates::resolve(
        Some("code {project} -g {file}:{line}"),
        None,
        Some("vim"),
        Some("ed"),
    );
    assert_eq!(templates.project, "code {project} -g {file}:{line}");
}

#[test]
fn visual_and_editor_rank_below_the_config_file() {
    let from_file = Templates::resolve(Some("subl {project} {file}"), None, Some("vim"), None);
    assert_eq!(from_file.project, "subl {project} {file}");

    let without_file = Templates::resolve(None, None, Some("vim"), None);
    assert_eq!(without_file.project, "vim {file}");
}

#[test]
fn visual_outranks_editor() {
    let templates = Templates::resolve(None, None, Some("nvim"), Some("ed"));
    assert_eq!(templates.project, "nvim {file}");
}

#[test]
fn a_placeholderless_editor_variable_gains_a_file_placeholder() {
    assert_eq!(generic_editor_template("vim"), "vim {file}");
    assert_eq!(
        generic_editor_template("emacsclient -nw"),
        "emacsclient -nw {file}"
    );
}

#[test]
fn an_editor_variable_that_is_already_a_template_is_untouched() {
    assert_eq!(
        generic_editor_template("nvim +{line} {file}"),
        "nvim +{line} {file}"
    );
}

#[test]
fn the_file_template_derives_from_the_project_one() {
    let templates =
        Templates::resolve(Some("code {project} -g {file}:{line}"), None, None, None);
    assert_eq!(templates.file, "code -g {file}:{line}");
}

#[test]
fn an_explicit_file_template_wins_over_the_derive() {
    let templates = Templates::resolve(
        Some("zed {project} {file}:{line}"),
        Some("zed -n {file}:{line}"),
        None,
        None,
    );
    assert_eq!(templates.file, "zed -n {file}:{line}");
}

#[test]
fn the_derive_outranks_visual_for_the_file_template() {
    let templates = Templates::resolve(Some("subl {project} {file}"), None, Some("vim"), None);
    assert_eq!(templates.file, "subl {file}");
}

#[test]
fn an_empty_editor_variable_is_ignored() {
    let templates = Templates::resolve(None, None, Some(""), Some("  "));
    assert_eq!(templates.project, DEFAULT_PROJECT_TEMPLATE);
}

#[test]
fn every_flavour_prints_a_stanza_the_config_parser_accepts() {
    for (name, _, _) in FLAVOURS {
        let snippet = print_editor_config(name, None).expect("known flavour");
        let parsed: toml::Table = snippet.parse().unwrap_or_else(|err| {
            panic!("the {name} snippet is not a valid config file: {err}\n{snippet}")
        });
        let editor = parsed
            .get("editor")
            .and_then(|editor| editor.as_table())
            .expect("the snippet sets [editor]");
        for key in ["project", "file"] {
            let template = editor
                .get(key)
                .and_then(|template| template.as_str())
                .expect("both keys are printed");
            split_template(template)
                .unwrap_or_else(|err| panic!("{name}: {template:?} does not split: {err:?}"));
        }
    }
}

#[test]
fn auto_guesses_from_term_program_and_falls_back_to_zed() {
    assert!(
        print_editor_config("auto", Some("WezTerm"))
            .expect("auto")
            .contains("wezterm")
    );
    assert!(
        print_editor_config("auto", Some("iTerm.app"))
            .expect("auto")
            .contains("iTerm2")
    );
    assert!(
        print_editor_config("auto", Some("Apple_Terminal"))
            .expect("auto")
            .contains("Terminal")
    );
    assert!(
        print_editor_config("auto", None)
            .expect("auto")
            .contains("zed")
    );
}

#[test]
fn an_unknown_flavour_is_reported_with_the_known_ones() {
    let err = print_editor_config("emacs", None).expect_err("emacs is not a flavour");
    let rendered = err.message();
    assert!(rendered.contains("emacs"), "{rendered}");
    assert!(
        rendered.contains("zed"),
        "the known list is missing: {rendered}"
    );
}

#[test]
fn joining_and_splitting_give_the_arguments_back() {
    let argv: Vec<String> = ["zed", "a b", "it's", "", "say \"hi\"", "back\\slash"]
        .iter()
        .map(|entry| entry.to_string())
        .collect();
    assert_eq!(split(&shell_join(&argv)), argv);
}

#[test]
fn an_entry_with_any_white_space_stays_one_argument() {
    let argv = vec!["a\nb".to_string(), "c\u{2003}d".to_string(), "\r".to_string()];
    assert_eq!(split(&shell_join(&argv)), argv);
    assert_eq!(derive_file_template("'b\nc'").as_deref(), Some("'b\nc'"));
    assert_eq!(
        split(&derive_file_template("{project} 'b\nc' d").expect("splits")),
        ["b\nc", "d"]
    );
}

#[test]
fn a_blank_visual_leaves_the_choice_to_editor() {
    for blank in ["", " \t"] {
        let templates = Templates::resolve(None, None, Some(blank), Some("vim"));
        assert_eq!(templates.project, "vim {file}");
        assert_eq!(templates.file, "vim {file}");
    }
}

#[test]
fn a_filled_template_has_as_many_arguments_as_the_template() {
    let argv = split("zed {project} {file}:{line} --at={line}");
    let filled = substitute(&argv, "/p q", "/p q/a b.rs", 12);
    assert_eq!(filled, ["zed", "/p q", "/p q/a b.rs:12", "--at=12"]);
}

#[test]
fn only_an_argument_that_is_the_project_is_dropped() {
    let argv = split("ed {project} x{project} {file}");
    assert_eq!(drop_project(&argv), ["ed", "x{project}", "{file}"]);
}

#[test]
fn template_errors_say_what_is_wrong() {
    assert_eq!(
        TemplateError::UnterminatedQuote { quote: '"' }.message(),
        "editor template has an unclosed \" quote"
    );
    assert_eq!(TemplateError::Empty.message(), "editor template is empty");
}

#[test]
fn an_unknown_flavour_is_quoted_as_a_string_is() {
    let err = print_editor_config("a\"b\n", None).expect_err("not a flavour");
    assert!(
        err.message().starts_with("unknown editor flavour \"a\\\"b\\n\"\nknown flavours: auto, zed, "),
        "{}",
        err.message()
    );
}

#[test]
fn a_toml_string_is_literal_until_it_holds_a_quote() {
    assert_eq!(toml_string("plain \\ \"text\""), "'plain \\ \"text\"'");
    assert_eq!(toml_string("it's \\ \"so\""), "\"it's \\\\ \\\"so\\\"\"");
}

#[test]
fn a_command_needs_a_program() {
    assert_eq!(program_of(&Vec::new()), Err(EMPTY_COMMAND.to_string()));
    assert_eq!(
        program_of(&vec!["zed".to_string(), "/p".to_string()]),
        Ok(("zed".to_string(), vec!["/p".to_string()]))
    );
}

#[test]
fn only_a_bad_end_is_reported() {
    assert_eq!(outcome_of("zed", true, "exit status: 0"), None);
    assert_eq!(
        outcome_of("zed", false, "exit status: 3"),
        Some("zed exited with exit status: 3".to_string())
    );
}

#[test]
fn words_between_single_quotes_come_back_as_they_are() {
    let words = ["", "a b", "\t\n", "\"\\$", "plain"];
    let template: Vec<String> = words.iter().map(|word| format!("'{word}'")).collect();
    assert_eq!(split(&template.join(" ")), words);
}

#[test]
fn an_empty_path_is_handed_back() {
    let tree = tree("empty-path", &["Cargo.toml"]);
    assert_eq!(tree.root_of(""), "");
}
