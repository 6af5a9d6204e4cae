use recon::document::{Document, Mode, ReadError, Target};
use recon::emit::Exit;
use recon::filter::ActiveFilters;
use recon::headless::{
    collect_cwd, collect_lines, count, inputs, reason, strip_line_end, summary, warn, Entry,
    Inputs, Source,
};
use recon::path::lexical_absolute;
use recon::syntax::{Kind, KindSet};

const CWD: &[u8] = b"/work";

/// Files and directories in memory.
#[derive(Default)]
struct Disk {
    files: Vec<(Vec<u8>, Vec<u8>)>,
    dirs: Vec<Vec<u8>>,
}

impl Disk {
    fn put(&mut self, path: &str, body: &[u8]) -> Vec<u8> {
        let path = lexical_absolute(path.as_bytes(), CWD);
        self.files.push((path.clone(), body.to_vec()));
        path
    }

    fn read(&self, asked: &Vec<u8>) -> Result<Document, ReadError> {
        let path = String::from_utf8_lossy(asked);
        if self.dirs.contains(asked) {
            return Document::read(&path, Some(Target::Directory), &Vec::new());
        }
        match self.files.iter().find(|(known, _)| known == asked) {
            Some((_, body)) => Document::read(&path, Some(Target::File), body),
            None => Err(ReadError::NotFound),
        }
    }
}

fn no_grammar(_: &String, _: &Vec<String>) -> Option<Vec<KindSet>> {
    None
}

fn nothing_there(_: &Vec<u8>) -> Result<Option<Vec<Entry>>, String> {
    Ok(None)
}

fn filters_matching(pattern: &str) -> ActiveFilters {
    let mut filters = ActiveFilters::new();
    filters.add(pattern).expect("valid pattern");
    filters
}

/// The parts of what is emitted, as strings.
fn emitted(exit: Exit) -> (Vec<String>, String, usize) {
    match exit {
        Exit::Emit {
            lines,
            summary,
            failed,
        } => {
            let lines = lines
                .into_iter()
                .map(|line| String::from_utf8(line).expect("UTF-8"))
                .collect();
            (lines, summary, failed)
        }
        Exit::Silent => panic!("something is always emitted"),
    }
}

fn name(inputs: &Inputs, i: usize) -> String {
    String::from_utf8(inputs.files[i].clone()).expect("UTF-8")
}

fn one_file(name: &str, body: &[u8]) -> (Disk, Inputs) {
    let mut disk = Disk::default();
    let file = disk.put(name, body);
    let inputs = Inputs {
        files: vec![file],
        from: Source::File,
    };
    (disk, inputs)
}

/// Files of a directory, listed as the standard input gives them.
fn from_stdin(dir: &str, files: &[(&str, &str)]) -> (Disk, Inputs) {
    let mut disk = Disk::default();
    let files = files
        .iter()
        .map(|(file, body)| disk.put(&format!("{dir}/{file}"), body.as_bytes()))
        .collect();
    let inputs = Inputs {
        files,
        from: Source::Stdin,
    };
    (disk, inputs)
}

#[test]
fn stdin_lines_are_paths_absolutised_in_order_with_blanks_skipped() {
    let got = inputs(b"b.log\n\n  \n/abs/a.log\r\nc.log", b".", CWD, nothing_there).expect("reads");

    assert_eq!(got.from, Source::Stdin);
    assert_eq!(
        got.files,
        vec![
            b"/work/b.log".to_vec(),
            b"/abs/a.log".to_vec(),
            b"/work/c.log".to_vec(),
        ]
    );
}

#[test]
fn a_path_directory_lists_its_files_in_navigator_order_without_directories() {
    let entry = |name: &str, directory: bool| Entry {
        name: name.as_bytes().to_vec(),
        directory,
    };
    let got = inputs(b"", b"headless_inputs_dir", CWD, |asked: &Vec<u8>| {
        assert_eq!(asked, b"/work/headless_inputs_dir");
        Ok(Some(vec![
            entry("..", true),
            entry("sub", true),
            entry("A.log", false),
            entry("b.log", false),
        ]))
    })
    .expect("reads");

    let dir = b"/work/headless_inputs_dir".to_vec();
    assert_eq!(got.from, Source::Directory(dir));
    assert_eq!(
        got.files,
        vec![
            b"/work/headless_inputs_dir/A.log".to_vec(),
            b"/work/headless_inputs_dir/b.log".to_vec(),
        ]
    );
}

#[test]
fn a_path_file_is_the_one_input_even_when_it_does_not_exist() {
    let got = inputs(b"\n", b"headless_inputs_file.log", CWD, nothing_there).expect("reads");

    assert_eq!(got.from, Source::File);
    assert_eq!(got.files, vec![b"/work/headless_inputs_file.log".to_vec()]);

    let missing = b"target/headless_inputs_no_such_file.log";
    let got = inputs(b"", missing, CWD, nothing_there).expect("reads");
    assert_eq!(got.from, Source::File);
    assert_eq!(got.files, vec![lexical_absolute(missing, CWD)]);
}

#[test]
fn stdin_wins_over_the_path_argument() {
    let got = inputs(b"/only/this.log\n", b"dir", CWD, |_: &Vec<u8>| {
        panic!("the path is not looked at")
    })
    .expect("reads");

    assert_eq!(got.from, Source::Stdin);
    assert_eq!(got.files, vec![b"/only/this.log".to_vec()]);
}

#[test]
fn lines_over_one_file_in_dim_mode_is_the_whole_file_with_the_match_count() {
    let (disk, inputs) = one_file("headless_lines_dim.log", b"hit\nmiss\nhit again\n");
    let (exit, warnings) = collect_lines(
        &inputs,
        &filters_matching("hit"),
        Mode::Dimmed,
        false,
        |asked: &Vec<u8>| disk.read(asked),
        no_grammar,
    );

    let (lines, summary, failed) = emitted(exit);
    assert_eq!(lines, ["hit", "miss", "hit again"]);
    assert_eq!(
        summary,
        "recon: emitted 3 lines of headless_lines_dim.log, dim mode (2 match) — pass --hide to emit matches only"
    );
    assert_eq!(failed, 0);
    assert!(warnings.is_empty());
}

#[test]
fn lines_over_one_file_in_hide_mode_is_the_matches() {
    let (disk, inputs) = one_file("headless_lines_hide.log", b"hit\nmiss\nhit again\n");

    let (exit, _) = collect_lines(
        &inputs,
        &filters_matching("hit"),
        Mode::FilteredOnly,
        false,
        |asked: &Vec<u8>| disk.read(asked),
        no_grammar,
    );

    let (lines, summary, _) = emitted(exit);
    assert_eq!(lines, ["hit", "hit again"]);
    assert_eq!(
        summary,
        "recon: emitted 2 lines of headless_lines_hide.log, hide mode"
    );
}

#[test]
fn line_numbers_are_the_file_s_own_with_a_tab() {
    let (disk, inputs) = one_file("headless_lines_numbered.log", b"hit\nmiss\nhit again\n");

    let (exit, _) = collect_lines(
        &inputs,
        &filters_matching("hit"),
        Mode::FilteredOnly,
        true,
        |asked: &Vec<u8>| disk.read(asked),
        no_grammar,
    );

    let (lines, _, _) = emitted(exit);
    assert_eq!(lines, ["1\thit", "3\thit again"]);
}

#[test]
fn several_files_prefix_each_line_with_its_path_in_input_order() {
    let (disk, inputs) = from_stdin(
        "headless_lines_several",
        &[("b.log", "miss\nhit\n"), ("a.log", "hit\n")],
    );
    let (b, a) = (name(&inputs, 0), name(&inputs, 1));

    let (exit, _) = collect_lines(
        &inputs,
        &filters_matching("hit"),
        Mode::FilteredOnly,
        true,
        |asked: &Vec<u8>| disk.read(asked),
        no_grammar,
    );

    let (lines, summary, _) = emitted(exit);
    assert_eq!(
        lines,
        [
            format!("{}\t2\thit", b),
            format!("{}\t1\thit", a),
        ],
        "b before a: the input order, not the navigator's"
    );
    assert_eq!(summary, "recon: emitted 2 lines of 2 files, hide mode");
}

#[test]
fn several_files_without_n_still_prefix_the_path() {
    let (disk, inputs) = from_stdin(
        "headless_lines_several_no_n",
        &[("a.log", "hit\n"), ("b.log", "hit\n")],
    );

    let (exit, _) = collect_lines(
        &inputs,
        &filters_matching("hit"),
        Mode::Dimmed,
        false,
        |asked: &Vec<u8>| disk.read(asked),
        no_grammar,
    );

    let (lines, summary, _) = emitted(exit);
    assert_eq!(
        lines,
        [
            format!("{}\thit", name(&inputs, 0)),
            format!("{}\thit", name(&inputs, 1)),
        ]
    );
    assert_eq!(
        summary,
        "recon: emitted 2 lines of 2 files, dim mode (2 match) — pass --hide to emit matches only"
    );
}

#[test]
fn an_unreadable_input_is_warned_about_skipped_and_counted() {
    let (disk, mut inputs) = from_stdin("headless_lines_unreadable", &[("a.log", "hit\n")]);
    let missing = "/work/headless_lines_unreadable/missing.log";
    inputs.files.insert(0, missing.as_bytes().to_vec());

    let (exit, warnings) = collect_lines(
        &inputs,
        &filters_matching("hit"),
        Mode::FilteredOnly,
        false,
        |asked: &Vec<u8>| disk.read(asked),
        no_grammar,
    );

    let (lines, summary, failed) = emitted(exit);
    assert_eq!(
        warnings,
        [format!("recon: cannot read {missing}: no such file\n")]
    );
    assert_eq!(lines, [format!("{}\thit", name(&inputs, 1))]);
    assert_eq!(summary, "recon: emitted 1 lines of 1 file, hide mode");
    assert_eq!(failed, 1);
}

#[test]
fn a_binary_input_and_a_directory_input_are_read_failures() {
    let mut disk = Disk::default();
    let binary = disk.put("headless_lines_binary_and_dir/core.bin", b"ab\0cd\n");
    let dir = b"/work/headless_lines_binary_and_dir".to_vec();
    disk.dirs.push(dir.clone());
    let inputs = Inputs {
        files: vec![binary, dir],
        from: Source::Stdin,
    };

    let (exit, warnings) = collect_lines(
        &inputs,
        &filters_matching("x"),
        Mode::Dimmed,
        false,
        |asked: &Vec<u8>| disk.read(asked),
        no_grammar,
    );

    let (lines, summary, failed) = emitted(exit);
    assert_eq!(
        warnings,
        [
            "recon: cannot read /work/headless_lines_binary_and_dir/core.bin: binary file\n",
            "recon: cannot read /work/headless_lines_binary_and_dir: is a directory\n",
        ]
    );
    assert!(lines.is_empty());
    assert_eq!(
        summary,
        "recon: emitted 0 lines of 0 files, dim mode (0 match) — pass --hide to emit matches only"
    );
    assert_eq!(failed, 2);
}

#[test]
fn cwd_is_the_path_directory_or_the_first_input_s_parent() {
    let dir = "/work/headless_cwd";

    let from_dir = Inputs {
        files: Vec::new(),
        from: Source::Directory(dir.as_bytes().to_vec()),
    };
    let (lines, summary, failed) = emitted(collect_cwd(&from_dir));
    assert_eq!(lines, [dir]);
    assert_eq!(summary, format!("recon: emitted {dir}"));
    assert_eq!(failed, 0);

    let from_stdin = Inputs {
        files: vec![
            format!("{dir}/a.log").into_bytes(),
            format!("{dir}/b.log").into_bytes(),
        ],
        from: Source::Stdin,
    };
    let (lines, _, _) = emitted(collect_cwd(&from_stdin));
    assert_eq!(lines, [dir], "the first input's directory");

    let from_file = Inputs {
        files: vec![format!("{dir}/a.log").into_bytes()],
        from: Source::File,
    };
    let (lines, _, _) = emitted(collect_cwd(&from_file));
    assert_eq!(lines, [dir]);
}

#[test]
fn a_directory_that_cannot_be_listed_says_why() {
    let got = inputs(b"", b"d", CWD, |_: &Vec<u8>| Err("permission denied".to_string()));
    assert_eq!(got, Err("permission denied".to_string()));
}

#[test]
fn a_line_loses_its_end_and_nothing_else() {
    assert_eq!(strip_line_end(b"a \r\n"), b"a ");
    assert_eq!(strip_line_end(b"a\n"), b"a");
    assert_eq!(strip_line_end(b"a\r"), b"a");
    assert_eq!(strip_line_end(b"a\n\n"), b"a\n");
    assert_eq!(strip_line_end(b""), b"");
}

#[test]
fn each_error_has_its_words() {
    assert_eq!(reason(&ReadError::NotFound), "no such file");
    assert_eq!(reason(&ReadError::PermissionDenied), "permission denied");
    assert_eq!(reason(&ReadError::IsADirectory), "is a directory");
    assert_eq!(reason(&ReadError::NotAFile), "not a regular file");
    assert_eq!(reason(&ReadError::Binary), "binary file");
    assert_eq!(reason(&ReadError::Os("disk on fire".to_string())), "disk on fire");
}

#[test]
fn a_warning_shows_a_name_that_is_not_text() {
    assert_eq!(
        warn(&b"/tmp/bad\xffname".to_vec(), &ReadError::NotFound),
        "recon: cannot read /tmp/bad\u{fffd}name: no such file\n"
    );
}

#[test]
fn one_of_a_thing_is_not_plural() {
    assert_eq!(count(0, "file"), "0 files");
    assert_eq!(count(1, "file"), "1 file");
    assert_eq!(count(12, "file"), "12 files");
}

#[test]
fn a_summary_gives_the_matches_when_lines_are_dimmed() {
    assert_eq!(
        summary(3, "a.log", Mode::FilteredOnly, 2),
        "recon: emitted 3 lines of a.log, hide mode"
    );
    assert_eq!(
        summary(3, "a.log", Mode::Dimmed, 2),
        "recon: emitted 3 lines of a.log, dim mode (2 match) — pass --hide to emit matches only"
    );
}

#[test]
fn a_context_line_is_emitted_and_not_counted() {
    let (disk, inputs) = one_file("context.log", b"hit\nctx\nmiss\n");
    let mut filters = filters_matching("hit");
    filters.add("ctx").expect("valid pattern");
    filters.toggle_context(1);

    let (exit, _) = collect_lines(&inputs, &filters, Mode::Dimmed, false, |asked: &Vec<u8>| disk.read(asked), no_grammar);
    let (lines, summary, _) = emitted(exit);
    assert_eq!(lines, ["hit", "ctx", "miss"]);
    assert!(summary.contains("(1 match)"), "{summary}");

    let (exit, _) = collect_lines(
        &inputs,
        &filters,
        Mode::FilteredOnly,
        false,
        |asked: &Vec<u8>| disk.read(asked),
        no_grammar,
    );
    let (lines, _, _) = emitted(exit);
    assert_eq!(lines, ["hit", "ctx"]);
}

#[test]
fn an_excluded_line_is_emitted_in_no_mode() {
    let (disk, inputs) = one_file("excluded.log", b"hit\nhit noise\n");
    let mut filters = filters_matching("hit");
    filters.add_excluding("noise").expect("valid pattern");
    for mode in [Mode::Dimmed, Mode::FilteredOnly] {
        let (exit, _) = collect_lines(&inputs, &filters, mode, false, |asked: &Vec<u8>| disk.read(asked), no_grammar);
        assert_eq!(emitted(exit).0, ["hit"]);
    }
}

#[test]
fn a_definition_filter_asks_the_grammar_of_every_file() {
    let (disk, inputs) = from_stdin("grammar", &[("a.rs", "fn a() {}\nx\n"), ("b.rs", "y\n")]);
    let mut filters = ActiveFilters::new();
    filters.add_definition(Kind::Function);
    let (exit, _) = collect_lines(
        &inputs,
        &filters,
        Mode::FilteredOnly,
        false,
        |asked: &Vec<u8>| disk.read(asked),
        |path: &String, lines: &Vec<String>| {
            assert!(path.ends_with(".rs"));
            let kinds = lines.iter().map(|line| {
                if line.starts_with("fn ") {
                    KindSet::of(&[Kind::Function])
                } else {
                    KindSet::empty()
                }
            });
            Some(kinds.collect())
        },
    );
    assert_eq!(emitted(exit).0, ["/work/grammar/a.rs\tfn a() {}"]);
}
