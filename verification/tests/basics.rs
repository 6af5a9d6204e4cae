use recon::colour::{Color, Style};
use recon::document::{lines_of, read_lossy_line, sniff, Document, Endian, Mode, Sniff};
use recon::filter::profiles::Profiles;
use recon::filter::{ActiveFilters, Verdict};
use recon::fixtures::Registry;
use recon::path::lexical_absolute;
use recon::pattern::{Pattern, PatternSet};
use recon::syntax::{Kind, KindSet};
use recon::text::{comes_before, decimal_of, is_blank, is_whitespace, place_text};

#[test]
fn white_space_is_what_unicode_says_it_is() {
    for code in 0..=0x10FFFF_u32 {
        if let Some(c) = char::from_u32(code) {
            assert_eq!(is_whitespace(c), c.is_whitespace(), "{code:x}");
        }
    }
}

#[test]
fn a_text_is_blank_when_nothing_is_left_of_it_trimmed() {
    for text in ["", " ", "\t\u{a0}\n", " x ", "x"] {
        assert_eq!(is_blank(text), text.trim().is_empty(), "{text:?}");
    }
}

#[test]
fn texts_are_ordered_as_strings_are() {
    let texts = ["", "a", "ab", "b", "B", "é", "\u{10000}", "\u{ffff}", "a\0"];
    for left in texts {
        for right in texts {
            assert_eq!(comes_before(left, right), left < right, "{left:?} {right:?}");
        }
    }
}

#[test]
fn placed_texts_are_sorted() {
    let mut list = Vec::new();
    for text in ["b", "a", "c", "a", ""] {
        place_text(&mut list, text.to_string());
    }
    assert_eq!(list, ["", "a", "a", "b", "c"]);
}

#[test]
fn numbers_are_written_in_decimal() {
    for n in [0, 7, 10, 1234567890, usize::MAX] {
        assert_eq!(decimal_of(n), n.to_string());
    }
}

fn absolute(path: &str, cwd: &str) -> String {
    String::from_utf8(lexical_absolute(path.as_bytes(), cwd.as_bytes())).expect("UTF-8")
}

#[test]
fn a_path_is_made_absolute_without_looking_at_the_disk() {
    assert_eq!(absolute("a/b", "/w"), "/w/a/b");
    assert_eq!(absolute("./a/../b//c/.", "/w"), "/w/b/c");
    assert_eq!(absolute("/a/../../b", "/w"), "/b");
    assert_eq!(absolute("..", "/w/x"), "/w");
    assert_eq!(absolute(".", "/w"), "/w");
    assert_eq!(absolute("/", "/w"), "/");
}

#[test]
fn an_absolute_path_stays_as_it_is() {
    for path in ["a/b/../c", "../x", "/a/./b", ""] {
        let once = absolute(path, "/w/d");
        assert_eq!(absolute(&once, "/other"), once);
    }
}

#[test]
fn lines_end_at_line_feeds() {
    assert_eq!(lines_of("a\r\nb\n\nc"), ["a", "b", "", "c"]);
    assert!(lines_of("").is_empty());
    assert_eq!(lines_of("\n"), [""]);
    assert_eq!(lines_of("x\r\r\ny\r"), ["x", "y"]);
    for text in ["a\n", "a\rb\n", "\r\n", "one\ntwo"] {
        let std: Vec<String> = text.lines().map(|line| line.to_string()).collect();
        assert_eq!(lines_of(text), std, "{text:?}");
    }
}

#[test]
fn a_head_says_what_a_file_is() {
    assert_eq!(sniff(b"plain"), Sniff::Text);
    assert_eq!(sniff(b""), Sniff::Text);
    assert_eq!(sniff(b"a\0b"), Sniff::Binary);
    assert_eq!(sniff(b"\xff\xfea\0"), Sniff::Utf16(Endian::Little));
    assert_eq!(sniff(b"\xfe\xff\0a"), Sniff::Utf16(Endian::Big));
    assert_eq!(sniff(b"\xff"), Sniff::Text);
}

#[test]
fn bytes_that_are_no_text_are_replaced() {
    assert_eq!(read_lossy_line(&b"two\xff\r\n".to_vec()), "two\u{fffd}");
}

#[test]
fn evaluating_twice_changes_nothing_more() {
    let mut filters = ActiveFilters::new();
    filters.add("b").expect("valid pattern");
    let mut document = Document::new(vec!["a".to_string(), "b".to_string()]);
    document.set_mode(Mode::FilteredOnly);
    document.evaluate(&filters);
    let (verdicts, visible, generation) = (
        document.verdicts().clone(),
        document.visible().clone(),
        document.generation(),
    );
    document.evaluate(&filters);
    assert_eq!(document.verdicts(), &verdicts);
    assert_eq!(document.visible(), &visible);
    assert_eq!(document.generation(), generation);
    assert_eq!(verdicts, [Verdict::Unmatched, Verdict::Included(0)]);
}

#[test]
fn a_window_is_clamped_to_what_is_shown() {
    let mut document = Document::new(vec!["a".to_string(), "b".to_string(), "c".to_string()]);
    document.evaluate(&ActiveFilters::new());
    assert_eq!(document.window(1, 2), [1]);
    assert_eq!(document.window(2, 1), Vec::<usize>::new());
    assert_eq!(document.window(5, 9), Vec::<usize>::new());
}

#[test]
fn flags_come_back_as_they_were() {
    let mut filters = ActiveFilters::new();
    filters.add("a").expect("valid pattern");
    filters.add("b").expect("valid pattern");
    filters.set_enabled(1, false);
    let flags = filters.enabled_flags();
    filters.set_all_enabled(true);
    assert_ne!(filters.enabled_flags(), flags);
    filters.apply_enabled_flags(&flags);
    assert_eq!(filters.enabled_flags(), flags);
    assert!(filters.filters()[0].enabled);
    assert!(!filters.filters()[1].enabled);
}

#[test]
fn removing_the_filter_added_last_takes_it_back() {
    let mut filters = ActiveFilters::new();
    filters.add("a").expect("valid pattern");
    let keys = filters.pattern_key();
    filters.add("b").expect("valid pattern");
    assert_eq!(filters.len(), 2);
    assert!(filters.remove(1));
    assert_eq!(filters.pattern_key(), keys);
}

#[test]
fn a_bad_pattern_is_refused_in_the_words_of_its_compiler() {
    let mut filters = ActiveFilters::new();
    let error = filters.add("(").expect_err("not a pattern");
    assert_eq!(
        error.message,
        regex::Regex::new("(").expect_err("not a pattern").to_string()
    );
}

#[test]
fn kinds_are_named_in_the_plural() {
    let nouns: Vec<&str> = Kind::ALL.iter().map(|kind| kind.plural()).collect();
    assert_eq!(
        nouns,
        ["functions", "classes", "structs", "enums", "types", "sections"]
    );
}

#[test]
fn a_kind_set_holds_what_it_was_made_of() {
    let set = KindSet::of(&[Kind::Enum, Kind::Section, Kind::Enum]);
    for kind in Kind::ALL {
        assert_eq!(
            set.contains(kind),
            kind == Kind::Enum || kind == Kind::Section
        );
        assert!(!KindSet::empty().contains(kind));
    }
}

#[test]
fn a_profile_given_twice_is_the_later_one() {
    let mut profiles = Profiles::new();
    assert!(profiles.is_empty());
    profiles.insert("a".to_string(), vec!["x".to_string()]);
    profiles.insert("a".to_string(), vec!["y".to_string()]);
    assert_eq!(profiles.get("a"), Some(&vec!["y".to_string()]));
    assert_eq!(profiles.get("b"), None);
    assert!(profiles.contains_key("a"));
}

#[test]
fn a_style_of_a_colour_has_it_alone() {
    let style = Style::of(Color::Red);
    assert_eq!(style.fg, Some(Color::Red));
    assert!(!style.dim);
    assert_eq!(Style::default().fg, None);
}

#[test]
fn a_fixture_name_is_taken_in_every_case() {
    let mut registry = Registry::new();
    assert!(!registry.is_claimed("zz_case_probe"));
    registry.claim("zz_case_probe");
    assert!(registry.is_claimed("ZZ_CASE_PROBE"));
    assert!(!registry.is_claimed("zz_case_probes"));
    assert_eq!(
        registry.fixture_path("zz_case_probe"),
        "target/test-fixtures/zz_case_probe"
    );
}

#[test]
fn a_pattern_matches_alone_as_it_does_among_others() {
    let sources = ["^a", "b$", "a.*b"];
    let set = PatternSet::new(&sources.iter().map(|source| source.to_string()).collect())
        .expect("they compile together");
    for line in ["a", "ab", "ba", "xb", "", "a b c"] {
        let alone: Vec<usize> = sources
            .iter()
            .enumerate()
            .filter(|(_, source)| Pattern::new(source).expect("valid").is_match(line))
            .map(|(place, _)| place)
            .collect();
        assert_eq!(set.matches(line), alone, "{line:?}");
        assert_eq!(set.clone().matches(line), alone, "{line:?}");
    }
}

#[test]
fn a_copied_pattern_is_the_same_pattern() {
    let pattern = Pattern::new(r"\d+").expect("valid");
    let copy = pattern.clone();
    assert_eq!(copy.as_str(), r"\d+");
    assert!(copy.is_match("a1"));
    assert!(!copy.is_match("a"));
}

#[test]
fn patterns_that_do_not_compile_make_no_set() {
    assert!(PatternSet::new(&vec!["a".to_string(), "(".to_string()]).is_none());
}

#[test]
fn lines_are_counted_by_line_feeds() {
    for text in ["", "a", "a\n", "\n\n", "a\rb\r\r\nc", "a\n\r"] {
        let feeds = text.matches('\n').count();
        let rest = usize::from(!text.is_empty() && !text.ends_with('\n'));
        let lines = lines_of(text);
        assert_eq!(lines.len(), feeds + rest, "{text:?}");
        if rest == 1 {
            assert_eq!(lines_of(&format!("{text}\n")), lines, "{text:?}");
        }
    }
    assert_eq!(lines_of("a\rb\r\r\nc"), ["a\rb", "c"]);
}
