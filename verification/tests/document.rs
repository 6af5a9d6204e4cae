use recon::document::{
    is_binary, read_lines, Document, Endian, Mode, ReadError, Target, BINARY_FILE, NOT_A_FILE,
};
use recon::filter::{ActiveFilters, Verdict};
use recon::headless::reason;
use recon::syntax::{Kind, KindSet};

#[test]
fn evaluating_a_definition_filter_reads_the_grammar() {
    let mut filters = ActiveFilters::new();
    filters.add_definition(Kind::Function);
    let lines = vec![
        "// fn not_a_definition".to_string(),
        "fn real() {}".to_string(),
        "struct S;".to_string(),
    ];
    let mut document = Document::for_file("t.rs", lines);
    document.evaluate_with(&filters, |path: &String, lines: &Vec<String>| {
        assert_eq!(path, "t.rs");
        let kinds = lines.iter().map(|line| match line.split(' ').next() {
            Some("fn") => KindSet::of(&[Kind::Function]),
            Some("struct") => KindSet::of(&[Kind::Struct]),
            _ => KindSet::empty(),
        });
        Some(kinds.collect())
    });
    assert_eq!(
        document.verdicts().as_slice(),
        [Verdict::Unmatched, Verdict::Included(0), Verdict::Unmatched]
    );
    document.evaluate_with(&filters, |_: &String, _: &Vec<String>| {
        panic!("the pass ran and was kept")
    });
}

#[test]
fn without_a_grammar_a_definition_filter_matches_nothing() {
    let mut filters = ActiveFilters::new();
    filters.add_definition(Kind::Function);
    filters.add("real").expect("valid");
    let lines = vec!["fn real() {}".to_string()];
    for mut document in [
        Document::new(lines.clone()),
        Document::for_file("app.log", lines.clone()),
    ] {
        document.evaluate_with(&filters, |path: &String, _: &Vec<String>| {
            assert_eq!(path, "app.log");
            None
        });
        assert_eq!(document.verdicts().as_slice(), [Verdict::Included(1)]);
    }
}

#[test]
fn a_regex_only_set_does_not_run_the_grammar_pass() {
    let filters = {
        let mut set = ActiveFilters::new();
        set.add("fn").expect("valid");
        set
    };
    let mut document = Document::for_file("t.rs", vec!["fn x() {}".to_string()]);
    document.evaluate_with(&filters, |_: &String, _: &Vec<String>| {
        panic!("no filter asks for it")
    });
    assert_eq!(document.verdicts().as_slice(), [Verdict::Included(0)]);
}

fn doc(lines: &[&str]) -> Document {
    Document::new(
        lines
            .iter()
            .map(std::string::ToString::to_string)
            .collect::<Vec<_>>(),
    )
}

fn set_with(patterns: &[&str]) -> ActiveFilters {
    let mut set = ActiveFilters::new();
    for pattern in patterns {
        set.add(pattern).expect("valid pattern");
    }
    set
}

#[test]
fn a_new_document_has_a_verdict_for_every_line() {
    let document = doc(&["one", "two", "three"]);

    assert_eq!(document.verdicts().len(), document.lines().len());
}

#[test]
fn evaluating_records_each_line_s_verdict() {
    let mut document = doc(&["alpha", "beta", "gamma"]);
    let filters = set_with(&["beta"]);

    document.evaluate(&filters);

    assert_eq!(
        document.verdicts().as_slice(),
        &[Verdict::Unmatched, Verdict::Included(0), Verdict::Unmatched]
    );
}

#[test]
fn re_evaluating_replaces_the_previous_verdicts() {
    let mut document = doc(&["alpha", "beta"]);
    document.evaluate(&set_with(&["beta"]));

    document.evaluate(&set_with(&["alpha"]));

    assert_eq!(
        document.verdicts().as_slice(),
        &[Verdict::Included(0), Verdict::Unmatched]
    );
}

#[test]
fn re_evaluating_reuses_the_verdict_allocation() {
    let mut document = doc(&["alpha", "beta", "gamma"]);
    document.evaluate(&set_with(&["beta"]));
    let before = document.verdicts().as_ptr();

    document.evaluate(&set_with(&["alpha"]));

    assert_eq!(
        document.verdicts().as_ptr(),
        before,
        "evaluate allocated a fresh Vec<Verdict>"
    );
    assert_eq!(document.verdicts().len(), 3);
}

#[test]
fn the_generation_advances_only_when_the_visible_set_changes() {
    let mut document = doc(&["alpha", "beta", "gamma"]);
    let start = document.generation();

    document.evaluate(&set_with(&["beta"]));
    let after_first = document.generation();
    assert_ne!(after_first, start, "the first evaluate fills `visible`");

    document.evaluate(&set_with(&["gamma"]));
    assert_eq!(
        document.generation(),
        after_first,
        "same rows, same generation — the view must not be rebuilt"
    );

    document.set_mode(Mode::FilteredOnly);
    document.recompute_visible();
    assert_ne!(
        document.generation(),
        after_first,
        "hiding changed the rows"
    );
    assert_eq!(document.visible().as_slice(), &[2]);
}

#[test]
fn set_mode_alone_leaves_the_generation() {
    let mut document = doc(&["alpha"]);
    document.evaluate(&set_with(&["alpha"]));
    let generation = document.generation();
    document.set_mode(Mode::FilteredOnly);
    assert_eq!(document.generation(), generation);
}

fn shown(lines: &[&str]) -> Document {
    let mut document = doc(lines);
    document.evaluate(&ActiveFilters::new());
    document
}

#[test]
fn visible_lines_range_returns_only_the_window() {
    let document = shown(&["a", "b", "c", "d", "e"]);

    assert_eq!(
        document.visible_lines_range(1, 4),
        vec!["b".to_string(), "c".to_string(), "d".to_string()]
    );
}

#[test]
fn visible_lines_range_clamps_a_stale_end() {
    let document = shown(&["a", "b"]);

    assert_eq!(document.visible_lines_range(1, 999), vec!["b".to_string()]);
}

#[test]
fn visible_lines_range_clamps_a_start_past_the_end() {
    let document = shown(&["a", "b"]);

    assert!(document.visible_lines_range(9, 999).is_empty());
}

#[test]
fn visible_styles_range_lines_up_with_its_window() {
    let mut document = doc(&["alpha", "beta", "gamma"]);
    let filters = set_with(&["beta"]);
    document.evaluate(&filters);

    let windowed = document.visible_styles_range(&filters, 1, 3);

    assert_eq!(windowed.len(), 2);
    assert_eq!(windowed, document.visible_styles(&filters)[1..3].to_vec());
}

#[test]
fn visible_group_ends_range_peeks_past_the_window() {
    let mut document = doc(&["keep", "keep", "drop", "keep"]);
    document.set_mode(Mode::FilteredOnly);
    document.evaluate(&set_with(&["keep"]));

    assert_eq!(document.visible().as_slice(), &[0, 1, 3]);

    let windowed = document.visible_group_ends_range(0, 2);

    assert_eq!(
        windowed,
        vec![false, true],
        "row 1 is followed by a hidden line and must be marked a group end \
         even though the window stops there"
    );
    assert_eq!(windowed, document.visible_group_ends()[0..2].to_vec());
}

#[test]
fn visible_group_ends_range_clamps_a_stale_end() {
    let document = shown(&["a", "b"]);

    assert_eq!(document.visible_group_ends_range(0, 999).len(), 2);
}

#[test]
fn line_styles_covers_every_line() {
    let mut document = doc(&["alpha", "beta"]);
    let filters = set_with(&["beta"]);
    document.evaluate(&filters);

    let styles = document.line_styles(&filters);

    assert_eq!(styles.len(), 2);
}

#[test]
fn matching_lines_take_their_filter_s_colour_and_others_dim() {
    let mut document = doc(&["alpha", "beta"]);
    let filters = set_with(&["beta"]);
    document.evaluate(&filters);

    let styles = document.line_styles(&filters);

    assert_eq!(
        styles[1].expect("beta styled").fg,
        filters.filters()[0].style.fg
    );
    assert!(
        styles[0]
            .expect("alpha styled").dim,
        "unmatched line not dimmed"
    );
}

#[test]
fn an_unfiltered_document_styles_nothing() {
    let mut document = doc(&["alpha", "beta"]);
    let filters = ActiveFilters::new();
    document.evaluate(&filters);

    let styles = document.line_styles(&filters);

    assert!(styles.iter().all(Option::is_none));
}

#[test]
fn two_filters_colour_their_lines_differently() {
    let mut document = doc(&["alpha", "beta"]);
    let filters = set_with(&["alpha", "beta"]);
    document.evaluate(&filters);

    let styles = document.line_styles(&filters);

    assert_ne!(styles[0].unwrap().fg, styles[1].unwrap().fg);
}

fn set_excluding(patterns: &[&str]) -> ActiveFilters {
    let mut set = ActiveFilters::new();
    for pattern in patterns {
        set.add_excluding(pattern).expect("valid pattern");
    }
    set
}

#[test]
fn dimmed_mode_shows_every_line_that_is_not_excluded() {
    let mut document = doc(&["alpha", "beta", "gamma"]);
    document.evaluate(&set_with(&["beta"]));

    assert_eq!(document.visible().as_slice(), &[0, 1, 2]);
}

#[test]
fn excluded_lines_are_hidden_even_when_dimmed() {
    let mut document = doc(&["alpha", "noise", "gamma"]);
    document.evaluate(&set_excluding(&["noise"]));

    assert_eq!(document.mode(), Mode::Dimmed);
    assert_eq!(document.visible().as_slice(), &[0, 2]);
}

#[test]
fn hiding_with_no_filters_shows_the_whole_file() {
    let mut document = doc(&["alpha", "beta", "gamma"]);
    document.set_mode(Mode::FilteredOnly);
    document.evaluate(&ActiveFilters::new());

    assert_eq!(document.visible().as_slice(), &[0, 1, 2]);
}

#[test]
fn hiding_with_only_excluding_filters_shows_the_rest_of_the_file() {
    let mut document = doc(&["alpha", "noise here", "gamma"]);
    document.set_mode(Mode::FilteredOnly);
    document.evaluate(&set_excluding(&["noise"]));

    assert_eq!(document.visible().as_slice(), &[0, 2]);
}

#[test]
fn a_file_with_no_hits_is_still_blank_when_hiding() {
    let mut document = doc(&["alpha", "beta"]);
    document.set_mode(Mode::FilteredOnly);
    document.evaluate(&set_with(&["ERROR"]));

    assert!(document.visible().is_empty());
}

#[test]
fn the_guard_survives_a_mode_toggle_without_re_evaluating() {
    let mut document = doc(&["alpha", "beta"]);
    document.evaluate(&ActiveFilters::new());

    document.set_mode(Mode::FilteredOnly);
    document.recompute_visible();

    assert_eq!(document.visible().as_slice(), &[0, 1]);
}

#[test]
fn filtered_only_mode_shows_matches_alone() {
    let mut document = doc(&["alpha", "beta", "gamma", "beta again"]);
    document.set_mode(Mode::FilteredOnly);
    document.evaluate(&set_with(&["beta"]));

    assert_eq!(document.visible().as_slice(), &[1, 3]);
}

#[test]
fn visible_lines_are_the_text_of_the_visible_indices() {
    let mut document = doc(&["alpha", "beta", "gamma"]);
    document.set_mode(Mode::FilteredOnly);
    document.evaluate(&set_with(&["beta"]));

    assert_eq!(document.visible_lines(), vec!["beta".to_string()]);
}

#[test]
fn visible_styles_line_up_with_visible_lines() {
    let mut document = doc(&["alpha", "beta", "gamma"]);
    let filters = set_with(&["beta"]);
    document.evaluate(&filters);

    assert_eq!(
        document.visible_styles(&filters).len(),
        document.visible().len()
    );
}

#[test]
fn a_group_ends_where_the_next_source_line_is_hidden() {
    let mut document = doc(&["beta", "beta", "alpha", "beta", "beta"]);
    document.set_mode(Mode::FilteredOnly);
    document.evaluate(&set_with(&["beta"]));

    assert_eq!(document.visible().as_slice(), &[0, 1, 3, 4]);
    assert_eq!(
        document.visible_group_ends(),
        vec![false, true, false, false]
    );
}

#[test]
fn the_last_line_of_the_file_never_ends_a_group() {
    let mut document = doc(&["alpha", "beta"]);
    document.set_mode(Mode::FilteredOnly);
    document.evaluate(&set_with(&["beta"]));

    assert_eq!(document.visible_group_ends(), vec![false]);
}

#[test]
fn a_group_ends_where_the_rest_of_the_file_is_hidden() {
    let mut document = doc(&["beta", "alpha"]);
    document.set_mode(Mode::FilteredOnly);
    document.evaluate(&set_with(&["beta"]));

    assert_eq!(document.visible_group_ends(), vec![true]);
}

#[test]
fn nothing_ends_a_group_when_every_line_is_visible() {
    let mut document = doc(&["alpha", "beta", "gamma"]);
    document.evaluate(&set_with(&["beta"]));

    assert_eq!(document.visible_group_ends(), vec![false; 3]);
}

#[test]
fn group_ends_line_up_with_visible_lines() {
    let mut document = doc(&["alpha", "beta", "gamma", "beta again"]);
    document.set_mode(Mode::FilteredOnly);
    document.evaluate(&set_with(&["beta"]));

    assert_eq!(
        document.visible_group_ends().len(),
        document.visible().len()
    );
}

#[test]
fn source_and_visible_positions_map_both_ways() {
    let mut document = doc(&["alpha", "beta", "gamma", "beta again"]);
    document.set_mode(Mode::FilteredOnly);
    document.evaluate(&set_with(&["beta"]));

    assert_eq!(document.visible_position(3), Some(1));
    assert_eq!(document.source_at(1), Some(3));
    assert_eq!(document.visible_position(0), None, "line 0 is hidden");
}

#[test]
fn nearest_visible_snaps_forward() {
    let mut document = doc(&["alpha", "beta", "gamma", "beta again"]);
    document.set_mode(Mode::FilteredOnly);
    document.evaluate(&set_with(&["beta"]));

    assert_eq!(document.nearest_visible(0), Some(1));
    assert_eq!(document.nearest_visible(2), Some(3));
}

#[test]
fn nearest_visible_falls_back_to_the_previous_match() {
    let mut document = doc(&["beta", "alpha", "gamma"]);
    document.set_mode(Mode::FilteredOnly);
    document.evaluate(&set_with(&["beta"]));

    assert_eq!(document.nearest_visible(2), Some(0));
}

#[test]
fn nearest_visible_is_none_when_nothing_is_visible() {
    let mut document = doc(&["alpha", "beta"]);
    document.set_mode(Mode::FilteredOnly);
    document.evaluate(&set_with(&["zzz"]));

    assert!(document.visible().is_empty());
    assert_eq!(document.nearest_visible(0), None);
}

#[test]
fn set_mode_alone_does_not_change_what_is_visible() {
    let mut document = doc(&["alpha", "beta", "gamma"]);
    let filters = set_with(&["beta"]);
    document.evaluate(&filters);
    assert_eq!(document.visible().as_slice(), &[0, 1, 2]);

    document.set_mode(Mode::FilteredOnly);

    assert_eq!(
        document.mode(),
        Mode::FilteredOnly,
        "the mode was not recorded"
    );
    assert_eq!(
        document.visible().as_slice(),
        &[0, 1, 2],
        "visible changed before evaluate was called"
    );

    document.evaluate(&filters);
    assert_eq!(document.visible().as_slice(), &[1], "visible did not catch up");
}

#[test]
fn recompute_visible_updates_visible_without_rerunning_the_filters() {
    let mut document = doc(&["alpha", "beta", "gamma"]);
    let filters = set_with(&["beta"]);
    document.evaluate(&filters);
    let verdicts_before = document.verdicts().to_vec();

    document.set_mode(Mode::FilteredOnly);
    document.recompute_visible();

    assert_eq!(
        document.visible().as_slice(),
        &[1],
        "visible did not pick up the new mode"
    );
    assert_eq!(
        document.verdicts().as_slice(),
        verdicts_before.as_slice(),
        "recompute_visible must not touch the verdicts"
    );
}

#[test]
fn read_lines_strips_line_ends_and_decodes_lossily() {
    let file = b"one\r\ntwo\xff\nthree".to_vec();

    let lines = read_lines(&file).expect("readable");

    assert_eq!(lines, ["one", "two\u{FFFD}", "three"]);
}

#[test]
fn read_builds_a_document_over_the_file() {
    let document = Document::read("document_read_document.log", Some(Target::File), &b"a\nb\n".to_vec())
        .expect("readable");

    assert_eq!(document.lines().as_slice(), ["a", "b"]);
    assert_eq!(document.verdicts().len(), 2, "one verdict slot per line");
    assert_eq!(document.path(), Some("document_read_document.log"));
}

#[test]
fn read_lines_refuses_a_binary_file() {
    let file = b"abc\0def\n".to_vec();

    let err = read_lines(&file).expect_err("a NUL in the head is binary");

    assert!(is_binary(&err), "not the binary error: {err:?}");
    assert_eq!(reason(&err), BINARY_FILE);
}

#[test]
fn read_lines_decodes_utf16_with_a_byte_order_mark() {
    let le = utf16(Endian::Little, "hi\nthere\r\n");
    let be = utf16(Endian::Big, "hi\nthere\r\n");

    assert_eq!(read_lines(&le).expect("UTF-16 LE is text"), ["hi", "there"]);
    assert_eq!(read_lines(&be).expect("UTF-16 BE is text"), ["hi", "there"]);
}

#[test]
fn read_lines_decodes_damaged_utf16_lossily() {
    let mut bytes = utf16(Endian::Little, "ok\n");
    bytes.extend_from_slice(&[0x00, 0xd8]);
    bytes.extend_from_slice(&utf16_body(Endian::Little, "x\n"));
    bytes.push(0x41);
    let file = bytes;

    assert_eq!(
        read_lines(&file).expect("damage is lossy, not fatal"),
        ["ok", "\u{fffd}x", "\u{fffd}"]
    );
}

#[test]
fn read_lines_still_refuses_utf16_without_a_byte_order_mark() {
    let file = utf16_body(Endian::Little, "hi\n");

    let err = read_lines(&file).expect_err("no mark, so the NULs are binary");

    assert!(is_binary(&err), "not the binary error: {err:?}");
}

fn utf16(endian: Endian, text: &str) -> Vec<u8> {
    let mut bytes = match endian {
        Endian::Little => vec![0xff, 0xfe],
        Endian::Big => vec![0xfe, 0xff],
    };
    bytes.extend(utf16_body(endian, text));
    bytes
}

fn utf16_body(endian: Endian, text: &str) -> Vec<u8> {
    text.encode_utf16()
        .flat_map(|unit| match endian {
            Endian::Little => unit.to_le_bytes(),
            Endian::Big => unit.to_be_bytes(),
        })
        .collect()
}

#[test]
fn read_lines_refuses_a_directory_up_front() {
    let err = Document::read("document_read_dir", Some(Target::Directory), &Vec::new())
        .expect_err("a directory is not a file");

    assert_eq!(err, ReadError::IsADirectory);
    assert_eq!(reason(&err), "is a directory");
    assert!(!is_binary(&err));
}

#[test]
fn read_lines_refuses_a_non_regular_file_before_opening_it() {
    let err = Document::read("sock", Some(Target::Other), &Vec::new())
        .expect_err("a socket is not a file");

    assert_eq!(err, ReadError::NotAFile);
    assert_eq!(reason(&err), NOT_A_FILE);
    assert!(!is_binary(&err));
}
