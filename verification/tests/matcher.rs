use recon::filter::matcher::MAX_PATTERNS;
use recon::filter::{ActiveFilters, Sense, Verdict};
use recon::syntax::{Kind, KindSet};

fn set_with(patterns: &[&str]) -> ActiveFilters {
    let mut set = ActiveFilters::new();
    for pattern in patterns {
        set.add(pattern).expect("valid pattern");
    }
    set
}

#[test]
fn the_matcher_agrees_with_the_spec_on_what_selects_a_file() {
    let mut set = set_with(&["alpha", "beta", "delta"]);
    set.toggle_context(1);
    set.add_excluding("noise").expect("valid pattern");
    let matcher = set.matcher().expect("something selects");

    for line in [
        "alpha",
        "beta",
        "delta",
        "alpha noise",
        "beta delta",
        "gamma",
        "gamma noise",
        "beta gamma",
        "nothing here",
        "alpha beta",
        "beta noise",
        "delta noise",
    ] {
        let hit = |sense: Sense| {
            set.filters().iter().any(|f| {
                f.enabled && f.sense == sense && f.predicate.holds(line, KindSet::empty())
            })
        };
        let expected = hit(Sense::Include) && !hit(Sense::Exclude);

        assert_eq!(
            matcher.selects(matcher.bits(line)),
            expected,
            "matcher and the spec disagree on {line:?}"
        );
        if expected {
            assert!(
                matches!(set.verdict(line, KindSet::empty()), Verdict::Included(_)),
                "{line:?} selects its file but the view would not show it"
            );
        }
    }
}

#[test]
fn the_owner_is_the_lowest_selecting_filter() {
    let mut set = set_with(&["alpha", "beta", "delta"]);
    set.toggle_context(1);
    let matcher = set.matcher().expect("something selects");

    assert_eq!(matcher.owner(matcher.bits("beta")), None);
    assert_eq!(matcher.owner(matcher.bits("beta delta")), Some(2));
    assert_eq!(
        set.verdict("beta delta", KindSet::empty()),
        Verdict::Included(2),
        "the include filter outranks the context one, so the view's colour \
         is the navigator's"
    );
    assert_eq!(matcher.owner(matcher.bits("alpha delta")), Some(0));
}

#[test]
fn a_disabled_filter_neither_selects_nor_excludes() {
    let mut set = set_with(&["alpha"]);
    set.add_excluding("noise").expect("valid pattern");
    set.set_enabled(1, false);
    let matcher = set.matcher().expect("alpha selects");

    assert!(matcher.selects(matcher.bits("alpha noise")));
}

#[test]
fn no_matcher_without_a_selecting_filter() {
    assert!(ActiveFilters::new().matcher().is_none(), "empty set");

    let mut context_only = set_with(&["alpha"]);
    context_only.toggle_context(0);
    assert!(context_only.matcher().is_none(), "context only");

    let mut exclude_only = ActiveFilters::new();
    exclude_only.add_excluding("noise").expect("valid pattern");
    assert!(exclude_only.matcher().is_none(), "exclude only");

    let mut disabled = set_with(&["alpha"]);
    disabled.set_enabled(0, false);
    assert!(disabled.matcher().is_none(), "disabled");
}

#[test]
fn no_matcher_past_sixty_four_patterns() {
    let mut set = ActiveFilters::new();
    let room = 64 - Kind::ALL.len();
    for i in 0..room {
        set.add(&format!("p{i}")).expect("valid pattern");
    }
    assert!(set.matcher().is_some());

    set.add(&format!("p{room}")).expect("valid pattern");
    assert!(set.matcher().is_none());
}

#[test]
fn the_pattern_key_lists_every_pattern_in_compiled_order() {
    let mut set = set_with(&["alpha", "beta"]);
    let mut expected = vec!["alpha".to_string(), "beta".to_string()];
    expected.extend(Kind::ALL.iter().map(|kind| format!("\u{1}{}", kind.plural())));

    assert_eq!(set.pattern_key(), expected, "typed, then the built-in set");

    set.toggle_context(0);
    assert_eq!(set.pattern_key(), expected, "sense is not part of the key");
}

#[test]
fn is_scanning_agrees_with_the_matcher() {
    let agree = |set: &ActiveFilters| {
        assert_eq!(set.is_scanning(), set.matcher().is_some());
        set.is_scanning()
    };
    let mut set = ActiveFilters::new();
    assert!(!agree(&set), "no filters");
    set.add_definition(Kind::Function);
    assert!(!agree(&set), "a definition alone");
    let mut excluding = ActiveFilters::new();
    excluding.add_definition(Kind::Function);
    excluding.add_excluding("foo").expect("valid");
    assert!(!agree(&excluding), "exclude-only");
    set.add("foo").expect("valid");
    assert!(agree(&set), "an include");
    set.set_enabled(1, false);
    assert!(!agree(&set), "the include disabled");
    set.set_enabled(1, true);
    for n in 0..MAX_PATTERNS {
        set.add(&format!("p{n}")).expect("valid");
    }
    assert!(!agree(&set), "over the bitset width");
}

#[test]
fn a_cloned_matcher_answers_alike() {
    let mut set = set_with(&["foo", "bar"]);
    set.add_excluding("skip").expect("valid");
    set.toggle_and();
    let matcher = set.matcher().expect("something selects");
    let copy = matcher.clone();
    assert_eq!(copy.masks(), matcher.masks());
    for line in ["foo", "foo bar", "foo bar skip"] {
        assert_eq!(copy.bits(line), matcher.bits(line));
        assert_eq!(copy.selects(copy.bits(line)), matcher.selects(matcher.bits(line)));
    }
}
