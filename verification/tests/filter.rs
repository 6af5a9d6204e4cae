use recon::colour::{Color, Style};
use recon::filter::{
    ActiveFilters, Background, Filter, Predicate, Sense, Verdict, DEFAULT_PALETTE,
};
use recon::syntax::{Kind, KindSet};

fn set_with(patterns: &[&str]) -> ActiveFilters {
    let mut set = ActiveFilters::new();
    for pattern in patterns {
        set.add(pattern).expect("valid pattern");
    }
    set
}

#[test]
fn a_definition_filter_matches_by_kind_not_by_text() {
    let mut set = ActiveFilters::new();
    set.add_definition(Kind::Function);
    let functions = KindSet::of(&[Kind::Function]);
    assert_eq!(
        set.verdict("anything at all", functions),
        Verdict::Included(0)
    );
    assert_eq!(
        set.verdict("fn looks_like_one() {}", KindSet::empty()),
        Verdict::Unmatched
    );
    assert_eq!(set.filters()[0].predicate.display(), "functions");
    assert!(set.needs_kinds());
    assert!(!set_with(&["fn"]).needs_kinds());
}

#[test]
fn definition_verdicts_agree_between_paths() {
    let mut set = set_with(&["foo"]);
    set.add_definition(Kind::Struct);
    let structs = KindSet::of(&[Kind::Struct]);
    for (line, k) in [("foo", KindSet::empty()), ("bar", structs), ("foo", structs)] {
        assert_eq!(
            set.verdict(line, k),
            set.verdict_by_scanning(line, k),
            "{line:?}"
        );
    }
    assert_eq!(set.verdict("bar", structs), Verdict::Included(1));
    assert_eq!(
        set.verdict("foo", structs),
        Verdict::Included(0),
        "first filter wins"
    );
}

#[test]
fn definition_filters_take_every_sense() {
    let mut set = set_with(&["foo"]);
    set.add_definition(Kind::Enum);
    let enums = KindSet::of(&[Kind::Enum]);
    set.toggle_context(1);
    assert_eq!(set.filters()[1].sense, Sense::Context);
    assert_eq!(set.verdict("plain", enums), Verdict::Context(1));
    assert_eq!(set.verdict_by_scanning("plain", enums), Verdict::Context(1));
    set.toggle_context(1);
    set.remove(1);
    set.insert_scratch(Filter {
        predicate: Predicate::Definition(Kind::Enum),
        sense: Sense::Exclude,
        enabled: true,
        style: Style::default(),
        name: None,
        set: 0,
    });
    assert_eq!(set.verdict("foo", enums), Verdict::Excluded);
    assert_eq!(set.verdict("foo", KindSet::empty()), Verdict::Included(0));
}

#[test]
fn definitions_are_terms_in_and_mode() {
    let mut set = set_with(&["pub"]);
    set.add_definition(Kind::Function);
    set.toggle_and();
    let functions = KindSet::of(&[Kind::Function]);
    assert_eq!(set.verdict("pub fn x()", functions), Verdict::Included(0));
    assert_eq!(
        set.verdict("pub struct", KindSet::empty()),
        Verdict::Unmatched
    );
    assert_eq!(set.verdict("fn x()", functions), Verdict::Unmatched);
}

#[test]
fn the_matcher_ignores_definition_filters() {
    let mut set = ActiveFilters::new();
    set.add_definition(Kind::Function);
    assert!(set.matcher().is_none(), "nothing a scan can evaluate");
    set.add("foo").expect("valid");
    let m = set.matcher().expect("foo selects");
    assert!(m.selects(m.bits("foo")));
    assert_eq!(m.owner(m.bits("foo")), Some(1));
    assert!(
        !m.selects(m.bits("fn nothing")),
        "the definition slot never matches text"
    );
    set.toggle_and();
    let m = set.matcher().expect("still selects under AND");
    assert!(
        m.selects(m.bits("foo")),
        "the definition is not a term of the scan's AND"
    );
}

#[test]
fn definition_keys_are_distinct() {
    let mut set = ActiveFilters::new();
    set.add_definition(Kind::Function);
    set.add_definition(Kind::Struct);
    set.add("functions").expect("valid");
    let key = set.pattern_key();
    assert_eq!(
        key.len(),
        3 + Kind::ALL.len(),
        "three typed, then every built-in"
    );
    assert_ne!(key[0], key[1]);
    assert_ne!(key[0], key[2]);
}

#[test]
fn set_pattern_turns_a_definition_into_a_regex() {
    let mut set = ActiveFilters::new();
    set.add_definition(Kind::Class);
    assert!(set.set_pattern(0, "class ").expect("valid"));
    assert!(set.filters()[0].predicate.as_regex().is_some());
    assert!(!set.needs_kinds());
}

#[test]
fn or_is_the_default() {
    let set = set_with(&["foo", "bar"]);
    assert!(!set.is_and());
    assert_eq!(
        set.verdict("foo only", KindSet::empty()),
        Verdict::Included(0)
    );
}

#[test]
fn and_requires_every_enabled_include_filter() {
    let mut set = set_with(&["foo", "bar"]);
    assert!(set.toggle_and());
    assert_eq!(set.verdict("foo only", KindSet::empty()), Verdict::Unmatched);
    assert_eq!(set.verdict("bar only", KindSet::empty()), Verdict::Unmatched);
    assert_eq!(
        set.verdict("bar then foo", KindSet::empty()),
        Verdict::Included(0)
    );
    assert!(!set.toggle_and(), "a second press turns it back off");
    assert_eq!(
        set.verdict("foo only", KindSet::empty()),
        Verdict::Included(0)
    );
}

#[test]
fn and_colours_by_the_first_enabled_include_filter() {
    let mut set = set_with(&["foo", "bar", "baz"]);
    set.toggle_and();
    set.set_enabled(0, false);
    assert_eq!(set.verdict("bar baz", KindSet::empty()), Verdict::Included(1));
    assert_eq!(
        set.verdict("foo bar baz", KindSet::empty()),
        Verdict::Included(1)
    );
}

#[test]
fn and_with_nothing_enabled_includes_nothing() {
    let mut set = set_with(&["foo"]);
    set.toggle_and();
    set.set_enabled(0, false);
    assert_eq!(set.verdict("foo", KindSet::empty()), Verdict::Unmatched);
}

#[test]
fn and_still_excludes() {
    let mut set = set_with(&["foo", "bar"]);
    set.add_excluding("skip").expect("valid");
    set.toggle_and();
    assert_eq!(
        set.verdict("foo bar skip", KindSet::empty()),
        Verdict::Excluded
    );
}

#[test]
fn context_filters_stay_or_ed_in_and_mode() {
    let mut set = set_with(&["foo", "bar", "ctx"]);
    set.toggle_context(2);
    set.toggle_and();
    assert_eq!(set.verdict("foo bar", KindSet::empty()), Verdict::Included(0));
    assert_eq!(
        set.verdict("ctx alone", KindSet::empty()),
        Verdict::Context(2)
    );
    assert_eq!(set.verdict("foo alone", KindSet::empty()), Verdict::Unmatched);
}

#[test]
fn and_agrees_between_compiled_and_scanning_paths() {
    let mut set = set_with(&["foo", "bar"]);
    set.add_excluding("skip").expect("valid");
    set.toggle_and();
    for line in ["foo", "bar foo", "foo bar skip", "nothing"] {
        assert_eq!(
            set.verdict(line, KindSet::empty()),
            set.verdict_by_scanning(line, KindSet::empty()),
            "{line:?}"
        );
    }
}

#[test]
fn the_matcher_ands_too() {
    let mut set = set_with(&["foo", "bar"]);
    set.toggle_and();
    let m = set.matcher().expect("something selects");
    assert!(!m.selects(m.bits("foo only")));
    assert!(m.selects(m.bits("foo bar")));
    assert_eq!(m.owner(m.bits("foo bar")), Some(0));
    set.set_enabled(0, false);
    let m = set.matcher().expect("bar still selects");
    assert!(m.selects(m.bits("bar only")));
    assert_eq!(m.owner(m.bits("bar only")), Some(1));
}

#[test]
fn toggling_and_changes_the_matcher_masks() {
    let mut set = set_with(&["foo", "bar"]);
    let before = set.matcher().expect("selects").masks();
    set.toggle_and();
    let after = set.matcher().expect("selects").masks();
    assert_ne!(before, after);
}

const CUBE_LEVELS: [u8; 6] = [0, 95, 135, 175, 215, 255];

fn indexed_rgb(index: u8) -> Option<(i32, i32, i32)> {
    match index {
        0..=15 => None,
        16..=231 => {
            let offset = usize::from(index - 16);
            Some((
                i32::from(CUBE_LEVELS[offset / 36]),
                i32::from(CUBE_LEVELS[(offset % 36) / 6]),
                i32::from(CUBE_LEVELS[offset % 6]),
            ))
        }
        _ => {
            let level = i32::from(8 + 10 * (index - 232));
            Some((level, level, level))
        }
    }
}

fn rgb_of(colour: Color) -> Option<(i32, i32, i32)> {
    match colour {
        Color::Indexed(index) => indexed_rgb(index),
        Color::Rgb(r, g, b) => Some((i32::from(r), i32::from(g), i32::from(b))),
        _ => None,
    }
}

fn distance(a: (i32, i32, i32), b: (i32, i32, i32)) -> f64 {
    let (dr, dg, db) = (a.0 - b.0, a.1 - b.1, a.2 - b.2);
    f64::from(dr * dr + dg * dg + db * db).sqrt()
}

#[test]
fn the_default_palette_names_no_theme_dependent_colour() {
    for background in [Background::Dark, Background::Light] {
        for (position, colour) in background.palette().iter().enumerate() {
            assert!(
                rgb_of(*colour).is_some(),
                "{background:?} palette entry {position} is {colour:?}, whose \
                 appearance the terminal theme decides; use an indexed or RGB colour"
            );
        }
    }
}

struct Promise {
    background: Background,
    first_six_apart: f64,
    every_pair_apart: f64,
    page: (i32, i32, i32),
    page_apart: f64,
    dim_apart: f64,
    white_apart: f64,
}

const PROMISES: [Promise; 2] = [
    Promise {
        background: Background::Dark,
        first_six_apart: 150.0,
        every_pair_apart: 90.0,
        page: (0, 0, 0),
        page_apart: 150.0,
        dim_apart: 150.0,
        white_apart: 150.0,
    },
    Promise {
        background: Background::Light,
        first_six_apart: 120.0,
        every_pair_apart: 80.0,
        page: (255, 255, 255),
        page_apart: 150.0,
        dim_apart: 120.0,
        white_apart: 150.0,
    },
];

fn fixed(colour: Color) -> (i32, i32, i32) {
    rgb_of(colour).expect("palette colours have fixed values")
}

#[test]
fn every_palette_pair_is_visibly_distinct() {
    for promise in &PROMISES {
        let palette = promise.background.palette();
        for (i, first) in palette.iter().enumerate() {
            for (j, second) in palette.iter().enumerate().skip(i + 1) {
                let (a, b) = (fixed(*first), fixed(*second));
                let apart = distance(a, b);
                let minimum = if j < 6 {
                    promise.first_six_apart
                } else {
                    promise.every_pair_apart
                };
                assert!(
                    apart >= minimum,
                    "{:?} filters {} and {} are only {apart:.0} apart ({first:?} {a:?} \
                     vs {second:?} {b:?}); {minimum} is the minimum",
                    promise.background,
                    i + 1,
                    j + 1,
                );
            }
        }
    }
}

#[test]
fn no_palette_entry_is_mistakable_for_page_dim_or_plain_text() {
    for promise in &PROMISES {
        let dim = fixed(promise.background.dim_style().fg.expect("dim has a colour"));
        let white = (255, 255, 255);
        for (position, colour) in promise.background.palette().iter().enumerate() {
            let c = fixed(*colour);
            for (name, other, minimum) in [
                ("the page", promise.page, promise.page_apart),
                ("dimmed text", dim, promise.dim_apart),
                ("white", white, promise.white_apart),
            ] {
                let apart = distance(c, other);
                assert!(
                    apart >= minimum,
                    "{:?} filter {} ({colour:?} {c:?}) is only {apart:.0} from {name} \
                     {other:?}; {minimum} is the minimum",
                    promise.background,
                    position + 1,
                );
            }
            if promise.background == Background::Light {
                assert!(
                    !(c.0 == c.1 && c.1 == c.2),
                    "light filter {} is a grey, which on white is plain text",
                    position + 1
                );
            }
        }
    }
}

#[test]
fn the_dark_palette_keeps_its_original_six_in_front() {
    assert_eq!(
        &Background::Dark.palette()[..6],
        &[
            Color::Indexed(220),
            Color::Indexed(51),
            Color::Indexed(46),
            Color::Indexed(201),
            Color::Indexed(105),
            Color::Indexed(196),
        ]
    );
}

#[test]
fn dimming_follows_the_background() {
    let mut set = set_with(&["alpha"]);
    assert_eq!(set.style_for(Verdict::Unmatched), Some(Background::Dark.dim_style()));
    set.set_background(Background::Light);
    assert_eq!(set.style_for(Verdict::Unmatched), Some(Background::Light.dim_style()));
    assert_eq!(set.dim_style(), Background::Light.dim_style());
    assert_ne!(Background::Dark.dim_style().fg, Background::Light.dim_style().fg);
}

#[test]
fn a_configured_palette_replaces_the_default() {
    let mut set = ActiveFilters::with_palette(vec![Color::Red, Color::Blue]);
    set.add("alpha").expect("valid pattern");
    set.add("beta").expect("valid pattern");

    assert_eq!(set.filters()[0].style.fg, Some(Color::Red));
    assert_eq!(set.filters()[1].style.fg, Some(Color::Blue));
}

#[test]
fn a_configured_palette_wraps_once_exhausted() {
    let mut set = ActiveFilters::with_palette(vec![Color::Red, Color::Blue]);
    for pattern in ["alpha", "beta", "gamma"] {
        set.add(pattern).expect("valid pattern");
    }

    assert_eq!(set.filters()[2].style.fg, Some(Color::Red));
}

#[test]
fn an_empty_configured_palette_falls_back_to_the_default() {
    let mut set = ActiveFilters::with_palette(Vec::new());
    set.add("alpha").expect("valid pattern");

    assert_eq!(set.filters()[0].style.fg, Some(Color::Indexed(DEFAULT_PALETTE[0])));
}

#[test]
fn an_empty_set_leaves_every_line_unmatched() {
    let set = ActiveFilters::new();

    assert_eq!(set.verdict("anything", KindSet::empty()), Verdict::Unmatched);
    assert!(set.is_empty());
}

#[test]
fn a_matching_line_is_included_with_its_filter_index() {
    let set = set_with(&["foo", "bar"]);

    assert_eq!(
        set.verdict("a bar line", KindSet::empty()),
        Verdict::Included(1)
    );
}

#[test]
fn a_non_matching_line_is_unmatched() {
    let set = set_with(&["foo"]);

    assert_eq!(
        set.verdict("nothing here", KindSet::empty()),
        Verdict::Unmatched
    );
}

#[test]
fn the_first_matching_filter_wins() {
    let set = set_with(&["foo", "foo.*bar"]);

    assert_eq!(
        set.verdict("foo and bar", KindSet::empty()),
        Verdict::Included(0)
    );
}

#[test]
fn a_context_filter_includes_its_lines() {
    let mut set = set_with(&["foo"]);
    assert!(set.toggle_context(0));

    assert_eq!(set.filters()[0].sense, Sense::Context);
    assert_eq!(set.verdict("foo", KindSet::empty()), Verdict::Context(0));
    assert_eq!(
        set.style_for(Verdict::Context(0)),
        set.style_for(Verdict::Included(0)),
        "context keeps the filter's colour"
    );
    assert_eq!(
        set.style_for(Verdict::Unmatched),
        Some(Background::Dark.dim_style()),
        "context dims the rest"
    );
}

#[test]
fn toggle_context_round_trips_without_touching_the_pattern() {
    let mut set = set_with(&["foo", "bar"]);
    let before = set.filters()[1].style;

    assert!(set.toggle_context(1));
    assert!(set.toggle_context(1));

    assert_eq!(set.filters()[1].sense, Sense::Include);
    assert_eq!(set.filters()[1].predicate.display(), "bar");
    assert_eq!(set.filters()[1].style, before);
    assert_eq!(set.verdict("bar", KindSet::empty()), Verdict::Included(1));
}

#[test]
fn toggle_context_leaves_excludes_and_missing_indices_alone() {
    let mut set = set_with(&["foo"]);
    set.add_excluding("noise").expect("valid pattern");

    assert!(!set.toggle_context(1));
    assert_eq!(set.filters()[1].sense, Sense::Exclude);
    assert!(!set.toggle_context(99));
}

#[test]
fn adding_a_filter_is_visible_to_verdict() {
    let mut set = set_with(&["foo"]);
    assert_eq!(set.verdict("bar", KindSet::empty()), Verdict::Unmatched);

    set.add("bar").expect("valid pattern");

    assert_eq!(set.verdict("bar", KindSet::empty()), Verdict::Included(1));
}

#[test]
fn adding_an_excluding_filter_is_visible_to_verdict() {
    let mut set = set_with(&["foo"]);
    assert_eq!(set.verdict("foo", KindSet::empty()), Verdict::Included(0));

    set.add_excluding("foo").expect("valid pattern");

    assert_eq!(set.verdict("foo", KindSet::empty()), Verdict::Excluded);
}

#[test]
fn removing_a_filter_is_visible_to_verdict() {
    let mut set = set_with(&["foo", "bar"]);

    assert!(set.remove(0));

    assert_eq!(set.verdict("foo", KindSet::empty()), Verdict::Unmatched);
    assert_eq!(set.verdict("bar", KindSet::empty()), Verdict::Included(0));
}

#[test]
fn editing_a_pattern_is_visible_to_verdict() {
    let mut set = set_with(&["foo"]);

    assert!(set.set_pattern(0, "bar").expect("valid pattern"));

    assert_eq!(set.verdict("foo", KindSet::empty()), Verdict::Unmatched);
    assert_eq!(set.verdict("bar", KindSet::empty()), Verdict::Included(0));
}

#[test]
fn a_rejected_pattern_leaves_the_compiled_set_alone() {
    let mut set = set_with(&["foo"]);

    assert!(set.set_pattern(0, "[").is_err());

    assert_eq!(
        set.verdict("foo", KindSet::empty()),
        Verdict::Included(0),
        "a pattern that would not compile disturbed the set it was rejected from"
    );
}

#[test]
fn toggling_enabled_is_visible_to_verdict() {
    let mut set = set_with(&["foo"]);

    assert!(set.set_enabled(0, false));
    assert_eq!(set.verdict("foo", KindSet::empty()), Verdict::Unmatched);

    assert!(set.set_enabled(0, true));
    assert_eq!(set.verdict("foo", KindSet::empty()), Verdict::Included(0));
}

#[test]
fn patterns_are_regular_expressions() {
    let set = set_with(&[r"^\d+ms$"]);

    assert_eq!(set.verdict("250ms", KindSet::empty()), Verdict::Included(0));
    assert_eq!(
        set.verdict("took 250ms", KindSet::empty()),
        Verdict::Unmatched
    );
}

#[test]
fn an_invalid_pattern_is_reported() {
    let mut set = ActiveFilters::new();

    assert!(set.add("[").is_err());
    assert!(set.is_empty(), "a rejected pattern must not be added");
}

#[test]
fn a_disabled_filter_does_not_match() {
    let mut set = set_with(&["foo"]);
    set.set_all_enabled(false);

    assert_eq!(set.verdict("foo", KindSet::empty()), Verdict::Unmatched);
    assert!(!set.any_enabled());
}

#[test]
fn disabling_and_restoring_round_trips() {
    let mut set = set_with(&["foo"]);
    assert!(set.any_enabled());

    set.set_all_enabled(false);
    set.set_all_enabled(true);

    assert_eq!(set.verdict("foo", KindSet::empty()), Verdict::Included(0));
}

#[test]
fn a_fully_disabled_set_leaves_lines_unmatched() {
    let mut set = set_with(&["foo"]);
    set.set_all_enabled(false);

    assert_eq!(set.verdict("bar", KindSet::empty()), Verdict::Unmatched);
}

#[test]
fn successive_filters_get_distinct_colours() {
    let mut set = ActiveFilters::new();
    set.add("a").expect("valid");
    set.add("b").expect("valid");

    assert_ne!(
        set.filters()[0].style,
        set.filters()[1].style,
        "two filters would be indistinguishable"
    );
}

fn set_excluding(patterns: &[&str]) -> ActiveFilters {
    let mut set = ActiveFilters::new();
    for pattern in patterns {
        set.add_excluding(pattern).expect("valid pattern");
    }
    set
}

#[test]
fn an_excluding_filter_excludes_its_matches() {
    let set = set_excluding(&["heartbeat"]);

    assert_eq!(
        set.verdict("a heartbeat line", KindSet::empty()),
        Verdict::Excluded
    );
}

#[test]
fn exclusion_beats_inclusion_on_the_same_line() {
    let mut set = set_with(&["foo"]);
    set.add_excluding("noisy").expect("valid pattern");

    assert_eq!(
        set.verdict("foo but noisy", KindSet::empty()),
        Verdict::Excluded
    );
    assert_eq!(
        set.verdict("foo alone", KindSet::empty()),
        Verdict::Included(0)
    );
}

#[test]
fn excluding_filters_alone_do_not_dim() {
    let set = set_excluding(&["heartbeat"]);

    assert_eq!(
        set.verdict("something else", KindSet::empty()),
        Verdict::Unmatched
    );
    assert_eq!(set.style_for(Verdict::Unmatched), None);
}

#[test]
fn a_disabled_excluding_filter_excludes_nothing() {
    let mut set = set_excluding(&["heartbeat"]);
    set.set_all_enabled(false);

    assert_eq!(
        set.verdict("a heartbeat line", KindSet::empty()),
        Verdict::Unmatched
    );
}

#[test]
fn an_invalid_excluding_pattern_is_reported() {
    let mut set = ActiveFilters::new();

    assert!(set.add_excluding("[").is_err());
    assert!(set.is_empty(), "a rejected pattern must not be added");
}

#[test]
fn any_excluding_reports_whether_one_is_enabled() {
    let mut set = set_with(&["foo"]);
    assert!(!set.any_excluding());

    set.add_excluding("bar").expect("valid pattern");
    assert!(set.any_excluding());

    set.set_all_enabled(false);
    assert!(!set.any_excluding(), "a disabled filter does not count");
}

#[test]
fn dimming_sets_a_colour_rather_than_only_an_attribute() {
    let set = set_with(&["foo"]);

    let style = set.style_for(Verdict::Unmatched).expect("unmatched dims");

    assert!(
        style.fg.is_some(),
        "dimming relies on the DIM attribute alone, which many terminals ignore"
    );
    assert!(style.dim);
}

#[test]
fn an_excluded_line_has_no_style() {
    let set = set_excluding(&["heartbeat"]);

    assert_eq!(set.style_for(Verdict::Excluded), None);
}

#[test]
fn removing_a_filter_drops_it() {
    let mut set = set_with(&["foo", "bar"]);

    assert!(set.remove(0));

    assert_eq!(set.len(), 1);
    assert_eq!(
        set.verdict("bar line", KindSet::empty()),
        Verdict::Included(0)
    );
}

#[test]
fn removing_a_filter_renumbers_the_rest() {
    let mut set = set_with(&["foo", "bar"]);
    assert_eq!(
        set.verdict("bar line", KindSet::empty()),
        Verdict::Included(1)
    );

    set.remove(0);

    assert_eq!(
        set.verdict("bar line", KindSet::empty()),
        Verdict::Included(0)
    );
}

#[test]
fn removing_out_of_range_reports_failure_and_changes_nothing() {
    let mut set = set_with(&["foo"]);

    assert!(!set.remove(5));
    assert_eq!(set.len(), 1);
}

#[test]
fn a_single_filter_can_be_disabled() {
    let mut set = set_with(&["foo", "bar"]);

    assert!(set.set_enabled(0, false));

    assert_eq!(set.verdict("foo line", KindSet::empty()), Verdict::Unmatched);
    assert_eq!(
        set.verdict("bar line", KindSet::empty()),
        Verdict::Included(1)
    );
}

#[test]
fn toggle_flips_one_filter_and_reports_its_new_state() {
    let mut set = set_with(&["foo"]);

    assert_eq!(
        set.toggle_enabled(0),
        Some(false),
        "was enabled, so is now disabled"
    );
    assert_eq!(set.toggle_enabled(0), Some(true), "and back on");
}

#[test]
fn toggling_a_missing_index_reports_none_and_changes_nothing() {
    let mut set = set_with(&["foo"]);

    assert_eq!(set.toggle_enabled(99), None);
    assert!(set.filters()[0].enabled, "nothing should have changed");
}

#[test]
fn disabling_all_remembers_the_previous_state() {
    let mut set = set_with(&["foo", "bar", "baz"]);
    set.set_enabled(1, false);

    set.disable_all_remembering();
    assert!(!set.any_enabled());

    set.restore_remembered();

    assert!(set.filters()[0].enabled);
    assert!(
        !set.filters()[1].enabled,
        "a filter the user had off came back on"
    );
    assert!(set.filters()[2].enabled);
}

#[test]
fn has_remembered_reports_whether_a_restore_is_pending() {
    let mut set = set_with(&["foo"]);
    assert!(!set.has_remembered());

    set.disable_all_remembering();
    assert!(set.has_remembered());

    set.restore_remembered();
    assert!(!set.has_remembered());
}

#[test]
fn removing_while_disabled_does_not_corrupt_the_restore() {
    let mut set = set_with(&["foo", "bar"]);
    set.disable_all_remembering();

    set.remove(0);
    set.restore_remembered();

    assert_eq!(set.len(), 1);
    assert!(set.filters()[0].enabled);
}

#[test]
fn disabling_all_twice_does_not_overwrite_the_capture() {
    let mut set = set_with(&["foo", "bar"]);
    set.set_enabled(1, false);

    set.disable_all_remembering();
    set.disable_all_remembering();

    set.restore_remembered();

    assert!(set.filters()[0].enabled);
    assert!(
        !set.filters()[1].enabled,
        "a filter the user had off came back on"
    );
}

#[test]
fn removing_down_to_an_empty_set_leaves_it_empty() {
    let mut set = set_with(&["foo"]);

    assert!(set.remove(0));

    assert!(set.is_empty());
    assert_eq!(set.verdict("foo", KindSet::empty()), Verdict::Unmatched);
}

#[test]
fn removing_from_an_already_empty_set_reports_failure() {
    let mut set = ActiveFilters::new();

    assert!(!set.remove(0));
    assert!(set.is_empty());
}

#[test]
fn restoring_with_nothing_captured_does_nothing() {
    let mut set = set_with(&["foo"]);
    set.set_enabled(0, false);

    set.restore_remembered();

    assert!(
        !set.filters()[0].enabled,
        "nothing was captured, so nothing should change"
    );
    assert!(!set.has_remembered());
}

#[test]
fn adding_while_a_restore_is_pending_drops_the_capture() {
    let mut set = set_with(&["foo"]);
    set.disable_all_remembering();

    set.add("bar").expect("valid pattern");
    assert!(
        set.filters()[1].enabled,
        "new filters are always added enabled"
    );
    assert!(
        !set.has_remembered(),
        "adding a filter should drop the now-stale capture"
    );

    set.restore_remembered();

    assert!(
        !set.filters()[0].enabled,
        "nothing was captured any more, so restore is a no-op"
    );
    assert!(set.filters()[1].enabled, "still enabled, exactly as added");
}

#[test]
fn toggling_a_filter_during_bang_does_not_leave_bang_inert() {
    let mut set = set_with(&["foo", "bar"]);
    set.set_enabled(1, false);
    set.disable_all_remembering();
    assert!(!set.any_enabled(), "sanity: the first ! disabled both");

    set.toggle_enabled(0);
    assert!(set.any_enabled(), "sanity: toggled back on by hand");

    set.disable_all_remembering();
    assert!(
        !set.any_enabled(),
        "! went inert: the hand-enabled filter stayed on"
    );

    set.restore_remembered();
    let flags: Vec<bool> = set.filters()[..2].iter().map(|f| f.enabled).collect();
    assert_eq!(
        flags,
        vec![true, false],
        "restore should bring back the state the second ! captured"
    );
}

#[test]
fn a_second_capture_while_everything_is_off_keeps_the_first() {
    let mut set = set_with(&["foo", "bar"]);
    set.set_enabled(1, false);
    set.disable_all_remembering();

    set.disable_all_remembering();

    set.restore_remembered();
    let flags: Vec<bool> = set.filters()[..2].iter().map(|f| f.enabled).collect();
    assert_eq!(flags, vec![true, false], "the real capture was overwritten");
}

#[test]
fn editing_a_pattern_keeps_the_filter_at_its_index() {
    let mut set = set_with(&["alpha", "beta"]);
    let colour = set.filters()[0].style;

    assert!(set.set_pattern(0, "gamma").expect("valid pattern"));

    assert_eq!(set.len(), 2, "editing must not grow the set");
    assert_eq!(
        set.verdict("gamma line", KindSet::empty()),
        Verdict::Included(0)
    );
    assert_eq!(
        set.verdict("beta line", KindSet::empty()),
        Verdict::Included(1)
    );
    assert_eq!(set.filters()[0].style, colour, "the colour moved with it");
}

#[test]
fn editing_a_pattern_replaces_the_old_one() {
    let mut set = set_with(&["alpha"]);

    set.set_pattern(0, "gamma").expect("valid pattern");

    assert_eq!(
        set.verdict("alpha line", KindSet::empty()),
        Verdict::Unmatched,
        "the old pattern still matches"
    );
}

#[test]
fn editing_preserves_the_sense_and_the_enabled_state() {
    let mut set = set_excluding(&["heartbeat"]);
    set.set_enabled(0, false);

    set.set_pattern(0, "keepalive").expect("valid pattern");

    assert!(!set.filters()[0].enabled, "a disabled filter came back on");
    assert_eq!(set.filters()[0].sense, Sense::Exclude);

    set.set_enabled(0, true);
    assert_eq!(
        set.verdict("a keepalive line", KindSet::empty()),
        Verdict::Excluded
    );
}

#[test]
fn an_invalid_edit_is_reported_and_leaves_the_filter_untouched() {
    let mut set = set_with(&["alpha"]);

    assert!(set.set_pattern(0, "[").is_err());

    assert_eq!(
        set.verdict("alpha line", KindSet::empty()),
        Verdict::Included(0)
    );
}

#[test]
fn editing_out_of_range_reports_failure_and_changes_nothing() {
    let mut set = set_with(&["alpha"]);

    assert!(!set.set_pattern(5, "gamma").expect("valid pattern"));
    assert_eq!(set.len(), 1);
    assert_eq!(
        set.verdict("alpha line", KindSet::empty()),
        Verdict::Included(0)
    );
}

#[test]
fn editing_keeps_a_pending_capture_valid() {
    let mut set = set_with(&["alpha", "beta"]);
    set.set_enabled(1, false);
    set.disable_all_remembering();

    set.set_pattern(0, "gamma").expect("valid pattern");
    assert!(set.has_remembered(), "the capture is still accurate");

    set.restore_remembered();

    assert!(set.filters()[0].enabled);
    assert!(
        !set.filters()[1].enabled,
        "a filter the user had off came back on"
    );
}
