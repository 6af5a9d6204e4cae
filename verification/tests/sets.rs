use recon::colour::{Color, Style};
use recon::filter::profiles::Profiles;
use recon::filter::sets::{
    EnableError, LoadedFilter, LoadedSet, Origin, DEFINITIONS_DESCRIPTION, DEFINITIONS_SET,
};
use recon::filter::{
    ActiveFilters, Background, Predicate, Sense, Verdict, DEFAULT_PALETTE,
};
use recon::filtersets::DEFAULT_PRIORITY;
use recon::syntax::{Kind, KindSet};
use recon::pattern::Pattern;

fn set_with(patterns: &[&str]) -> ActiveFilters {
    let mut set = ActiveFilters::new();
    for pattern in patterns {
        set.add(pattern).expect("valid pattern");
    }
    set
}

fn loaded(name: &str, priority: i32, autoload: bool, patterns: &[&str]) -> LoadedSet {
    LoadedSet {
        name: name.to_string(),
        path: "test/filters.toml".to_string(),
        priority,
        autoload,
        listed: true,
        description: None,
        profiles: Profiles::new(),
        filters: patterns
            .iter()
            .map(|pattern| LoadedFilter {
                name: (*pattern).to_string(),
                predicate: Predicate::Regex(Pattern::new(pattern).expect("valid")),
                sense: Sense::Include,
                colour: None,
            })
            .collect(),
        builtin: false,
    }
}

fn builtin_override(priority: i32, autoload: bool) -> LoadedSet {
    LoadedSet {
        priority,
        autoload,
        path: "test/filters.toml".to_string(),
        ..LoadedSet::builtin_default()
    }
}

fn builtin_with_profiles(autoload: bool, profiles: &[(&str, &[&str])]) -> LoadedSet {
    let mut set = builtin_override(DEFAULT_PRIORITY, autoload);
    for (profile, members) in profiles {
        set.profiles.insert(
            (*profile).to_string(),
            members.iter().map(|m| (*m).to_string()).collect(),
        );
    }
    set
}

fn flags(set: &ActiveFilters, of: usize) -> Vec<bool> {
    set.filters_in(of).into_iter().map(|(_, f)| f.enabled).collect()
}

fn with_default_profile() -> ActiveFilters {
    let mut a = loaded("a", 50, false, &["x", "y", "z"]);
    a.profiles
        .insert("default".into(), vec!["x".into(), "z".into()]);
    a.profiles
        .insert("loud".into(), vec!["x".into(), "y".into(), "z".into()]);
    ActiveFilters::with_sets(None, &[a])
}

#[test]
fn a_new_set_has_the_scratch_set_and_the_built_in_one() {
    let set = ActiveFilters::new();
    assert_eq!(
        set.sets().len(),
        2,
        "scratch, and the built-in definitions set"
    );
    assert_eq!(set.sets()[0].origin, Origin::Scratch);
    assert!(set.sets()[0].enabled);
    assert_eq!(set.sets()[0].name, "");
}

#[test]
fn typed_filters_belong_to_the_scratch_set_and_are_named_by_their_pattern() {
    let set = set_with(&["foo", "bar"]);
    assert_eq!(set.filters_in(0).len(), 2);
    assert_eq!(set.filters()[0].display_name(), "foo");
}

#[test]
fn loaded_sets_follow_scratch_in_the_known_list() {
    let set = ActiveFilters::with_sets(None, &[loaded("a", 50, false, &["x", "y"])]);
    assert_eq!(set.sets().len(), 3, "scratch, a, definitions");
    assert_eq!(set.sets()[1].name, "a");
    assert_eq!(
        set.sets()[1].origin,
        Origin::File("test/filters.toml".to_string())
    );
    assert_eq!(set.len(), 2);
    assert!(set.filters_in(1).into_iter().all(|(_, f)| !f.enabled));
    assert_eq!(set.filters()[0].display_name(), "x");
}

#[test]
fn loaded_filters_are_coloured_by_position_or_by_the_file() {
    let mut one = loaded("a", 50, false, &["x", "y"]);
    one.filters[1].colour = Some(Color::Red);
    let set = ActiveFilters::with_sets(None, &[one]);
    assert_eq!(
        set.filters()[0].style,
        Style::of(Color::Indexed(DEFAULT_PALETTE[0]))
    );
    assert_eq!(set.filters()[1].style, Style::of(Color::Red));
}

fn with_profiles() -> ActiveFilters {
    let mut set = loaded("a", 50, false, &["x", "y", "z"]);
    set.profiles
        .insert("default".to_string(), vec!["x".to_string()]);
    set.profiles
        .insert("p".to_string(), vec!["y".to_string(), "z".to_string()]);
    ActiveFilters::with_sets(None, &[set])
}

fn enabled_names(set: &ActiveFilters) -> Vec<String> {
    set.filters_in(1)
        .into_iter()
        .filter(|(_, filter)| filter.enabled)
        .map(|(_, filter)| filter.display_name())
        .collect()
}

#[test]
fn enable_named_turns_the_set_on_and_applies_default() {
    let mut set = with_profiles();

    set.enable_named("a", None).expect("known set");

    assert!(set.sets()[1].enabled);
    assert_eq!(enabled_names(&set), ["x"]);
}

#[test]
fn enable_named_without_a_default_moves_no_flag() {
    let mut set = ActiveFilters::with_sets(None, &[loaded("a", 50, false, &["x", "y"])]);

    set.enable_named("a", None).expect("known set");

    assert!(set.sets()[1].enabled);
    assert!(
        enabled_names(&set).is_empty(),
        "no default profile: the set comes on with the toggles it had"
    );
}

#[test]
fn enable_named_applies_the_named_profile_instead_of_default() {
    let mut set = with_profiles();

    set.enable_named("a", Some("p"))
        .expect("known set and profile");

    assert!(set.sets()[1].enabled);
    assert_eq!(enabled_names(&set), ["y", "z"]);
}

#[test]
fn enable_named_refuses_an_unknown_name_and_changes_nothing() {
    let mut set = with_profiles();

    assert_eq!(
        set.enable_named("b", None),
        Err(EnableError::UnknownSet("b".to_string()))
    );
    assert_eq!(
        set.enable_named("a", Some("nope")),
        Err(EnableError::UnknownProfile {
            set: "a".to_string(),
            profile: "nope".to_string(),
        })
    );
    assert_eq!(
        set.enable_named("", None),
        Err(EnableError::UnknownSet(String::new())),
        "the scratch set has no name and is never enabled this way"
    );
    assert!(!set.sets()[1].enabled, "a refused call enables nothing");
    assert!(enabled_names(&set).is_empty());
}

#[test]
fn autoload_sets_start_enabled() {
    let set = ActiveFilters::with_sets(
        None,
        &[
            loaded("a", 50, true, &["x"]),
            loaded("b", 50, false, &["y"]),
        ],
    );
    assert!(set.sets()[1].enabled);
    assert!(!set.sets()[2].enabled);
}

#[test]
fn a_typed_filter_lands_after_scratch_and_before_file_filters() {
    let mut set = ActiveFilters::with_sets(None, &[loaded("a", 50, true, &["x", "y"])]);
    set.add("typed").expect("valid");
    set.add_excluding("second").expect("valid");
    assert_eq!(set.filters()[0].display_name(), "typed");
    assert_eq!(set.filters()[1].display_name(), "second");
    assert_eq!(set.filters()[0].set, 0);
    assert_eq!(set.filters()[2].set, 1);
    assert_eq!(
        set.filters()[0].style,
        Style::of(Color::Indexed(DEFAULT_PALETTE[2]))
    );
    set.set_enabled(0, true);
    assert_eq!(set.verdict("typed", KindSet::empty()), Verdict::Included(0));
}

#[test]
fn a_filter_in_a_disabled_set_matches_nothing() {
    let mut set = ActiveFilters::with_sets(None, &[loaded("a", 50, true, &["foo"])]);
    set.set_enabled(0, true);
    assert_eq!(set.verdict("foo", KindSet::empty()), Verdict::Included(0));
    set.set_enabled_set(1, false);
    assert_eq!(set.verdict("foo", KindSet::empty()), Verdict::Unmatched);
    assert_eq!(
        set.verdict_by_scanning("foo", KindSet::empty()),
        Verdict::Unmatched
    );
    assert!(
        set.filters()[0].enabled,
        "the filter's own flag is untouched"
    );
}

#[test]
fn an_exclude_in_a_disabled_set_removes_nothing() {
    let mut a = loaded("a", 50, true, &["foo", "skip"]);
    a.filters[1].sense = Sense::Exclude;
    let mut set = ActiveFilters::with_sets(None, &[a]);
    set.set_all_enabled(true);
    assert_eq!(set.verdict("foo skip", KindSet::empty()), Verdict::Excluded);
    set.set_enabled_set(1, false);
    assert_eq!(set.verdict("foo skip", KindSet::empty()), Verdict::Unmatched);
    assert!(!set.any_excluding());
}

#[test]
fn the_matcher_and_dimming_ignore_filters_in_disabled_sets() {
    let mut set = ActiveFilters::with_sets(None, &[loaded("a", 50, true, &["foo"])]);
    set.set_enabled(0, true);
    assert!(set.matcher().is_some());
    assert_eq!(set.style_for(Verdict::Unmatched), Some(Background::Dark.dim_style()));
    set.set_enabled_set(1, false);
    assert!(
        set.matcher().is_none(),
        "nothing selects, so no scan to run"
    );
    assert_eq!(set.style_for(Verdict::Unmatched), None);
}

#[test]
fn bang_acts_on_filter_flags_across_sets_and_leaves_set_flags_alone() {
    let mut set = ActiveFilters::with_sets(None, &[loaded("a", 50, true, &["x"])]);
    set.add("typed").expect("valid");
    set.set_enabled(1, true);
    set.disable_all_remembering();
    assert_eq!(flags(&set, 0), vec![false]);
    assert_eq!(flags(&set, 1), vec![false]);
    assert!(set.sets()[1].enabled);
    set.restore_remembered();
    assert_eq!(flags(&set, 0), vec![true]);
    assert_eq!(flags(&set, 1), vec![true]);
}

#[test]
fn enabling_a_set_applies_its_default_profile() {
    let mut set = with_default_profile();
    assert!(set.set_enabled_set(1, true));
    assert_eq!(flags(&set, 1), vec![true, false, true]);
}

#[test]
fn autoload_without_a_default_starts_enabled_with_every_filter_off() {
    let set = ActiveFilters::with_sets(None, &[loaded("a", 50, true, &["x", "y"])]);
    assert!(set.sets()[1].enabled, "the set is enabled");
    assert_eq!(
        flags(&set, 1),
        vec![false, false],
        "and its filters are off"
    );
    assert!(!set.any_enabled(), "nothing filters until a row is toggled");
}

#[test]
fn autoload_applies_default() {
    let mut a = loaded("a", 50, true, &["x", "y"]);
    a.profiles.insert("default".into(), vec!["y".into()]);
    let set = ActiveFilters::with_sets(None, &[a]);
    assert_eq!(flags(&set, 1), vec![false, true]);
}

#[test]
fn enabling_a_set_without_default_keeps_the_flags() {
    let mut set = ActiveFilters::with_sets(None, &[loaded("a", 50, false, &["x", "y"])]);
    set.set_enabled(1, true);
    set.set_enabled_set(1, true);
    assert_eq!(flags(&set, 1), vec![false, true]);
    set.set_enabled_set(1, false);
    assert_eq!(flags(&set, 1), vec![false, true]);
    assert_eq!(set.toggle_set(1), Some(true));
    assert_eq!(flags(&set, 1), vec![false, true]);
}

#[test]
fn a_profile_is_exact_and_touches_one_set() {
    let mut set = with_default_profile();
    set.add("typed").expect("valid");
    set.set_enabled_set(1, true);
    assert!(set.apply_profile(1, "loud"));
    assert_eq!(flags(&set, 1), vec![true, true, true]);
    assert!(set.apply_profile(1, "default"));
    assert_eq!(flags(&set, 1), vec![true, false, true]);
    assert!(!set.apply_profile(1, "nope"));
    assert_eq!(flags(&set, 0), vec![true], "the scratch set is untouched");
}

#[test]
fn the_scratch_set_is_not_toggleable() {
    let mut set = set_with(&["foo"]);
    assert!(!set.set_enabled_set(0, false));
    assert_eq!(set.toggle_set(0), None);
    assert_eq!(set.toggle_set(7), None);
    assert!(set.sets()[0].enabled);
}

fn three_sets() -> ActiveFilters {
    let mut set = ActiveFilters::with_sets(
        None,
        &[
            loaded("a", 10, true, &["x"]),
            loaded("b", 20, true, &["y"]),
            loaded("c", 30, false, &["z"]),
        ],
    );
    set.add("scratch").expect("valid");
    set
}

fn set_flags(set: &ActiveFilters) -> Vec<bool> {
    set.sets().iter().map(|meta| meta.enabled).collect()
}

#[test]
fn solo_enables_one_set_and_suspends_the_rest_including_scratch() {
    let mut set = three_sets();
    assert!(set.solo(2));
    assert_eq!(set_flags(&set), vec![false, false, true, false, false]);
    assert_eq!(set.soloed(), Some(2));
    assert!(
        set.filters().iter().all(|f| f.enabled || f.set != 0),
        "scratch filter flags are untouched"
    );
    assert_eq!(
        set.verdict("scratch", KindSet::empty()),
        Verdict::Unmatched,
        "the scratch set is suspended, not just hidden"
    );
}

#[test]
fn solo_again_restores_the_snapshot() {
    let mut set = three_sets();
    set.solo(2);
    assert!(!set.solo(2));
    assert_eq!(set_flags(&set), vec![true, true, true, false, false]);
    assert_eq!(set.soloed(), None);
}

#[test]
fn moving_the_solo_keeps_the_first_snapshot() {
    let mut set = three_sets();
    set.solo(2);
    assert!(set.solo(3));
    assert_eq!(set_flags(&set), vec![false, false, false, true, false]);
    assert!(!set.solo(3));
    assert_eq!(set_flags(&set), vec![true, true, true, false, false]);
}

#[test]
fn soloing_a_disabled_set_applies_its_default() {
    let mut c = loaded("c", 30, false, &["z", "w"]);
    c.profiles.insert("default".into(), vec!["w".into()]);
    let mut set = ActiveFilters::with_sets(None, &[c]);
    set.solo(1);
    assert_eq!(flags(&set, 1), vec![false, true]);
}

#[test]
fn solo_refuses_the_scratch_set_and_bad_indices() {
    let mut set = three_sets();
    assert!(!set.solo(0));
    assert!(!set.solo(9));
    assert_eq!(set_flags(&set), vec![true, true, true, false, false]);
    set.solo(1);
    assert!(set.solo(0), "still soloed after a refused press");
}

#[test]
fn bang_inside_a_solo_acts_on_filter_flags_only() {
    let mut set = three_sets();
    set.set_enabled(1, true);
    set.solo(1);
    set.disable_all_remembering();
    assert_eq!(flags(&set, 1), vec![false]);
    assert_eq!(set.soloed(), Some(1));
    set.restore_remembered();
    assert_eq!(flags(&set, 1), vec![true]);
    assert_eq!(set_flags(&set), vec![false, true, false, false, false]);
}

#[test]
fn reset_returns_every_set_to_startup_and_leaves_scratch_alone() {
    let mut a = loaded("a", 10, true, &["x", "y"]);
    a.profiles.insert("default".into(), vec!["x".into()]);
    let mut set = ActiveFilters::with_sets(None, &[a, loaded("b", 20, false, &["z"])]);
    set.add("scratch").expect("valid");
    set.set_enabled(0, false);
    set.solo(2);
    set.set_enabled(3, true);
    set.set_enabled(1, false);
    set.disable_all_remembering();
    set.reset();
    assert_eq!(set_flags(&set), vec![true, true, false, false]);
    assert_eq!(flags(&set, 1), vec![true, false]);
    assert_eq!(flags(&set, 2), vec![false]);
    assert!(!set.filters()[0].enabled, "scratch flag untouched");
    assert_eq!(set.filters_in(0).len(), 1, "scratch filter not deleted");
    assert_eq!(set.soloed(), None);
    assert!(!set.has_remembered());
}

#[test]
fn adopt_moves_scratch_into_a_new_enabled_set_with_default_from_the_flags() {
    let mut set = ActiveFilters::with_sets(
        None,
        &[
            loaded("m", 10, true, &["q"]),
            loaded("z", 90, false, &["r"]),
        ],
    );
    set.add("a").expect("valid");
    set.add("b").expect("valid");
    set.set_enabled(1, false);
    let a_style = set.filters()[0].style;
    assert!(set.adopt_scratch_as("new", "t".to_string()));
    assert_eq!(set.filters_in(0).len(), 0);
    let names: Vec<&str> = set.sets().iter().map(|s| s.name.as_str()).collect();
    assert_eq!(
        names,
        ["", "m", "definitions", "new", "z"],
        "priority 50 sorts between 10 and 90"
    );
    let new = 3;
    assert!(set.sets()[new].enabled);
    assert_eq!(set.sets()[new].priority, 50);
    assert_eq!(set.sets()[new].profiles.get("default"), Some(&vec!["a".to_string()]));
    assert_eq!(flags(&set, new), vec![true, false]);
    let order: Vec<(usize, String)> = set
        .filters()
        .iter()
        .filter(|f| set.sets()[f.set].origin != Origin::BuiltIn)
        .map(|f| (f.set, f.display_name()))
        .collect();
    assert_eq!(set.filters_in(2).len(), Kind::ALL.len());
    assert_eq!(
        order,
        vec![
            (1, "q".into()),
            (3, "a".into()),
            (3, "b".into()),
            (4, "r".into())
        ]
    );
    assert_eq!(
        set.filters()[1 + Kind::ALL.len()].style,
        a_style,
        "colour travels with the filter"
    );
    assert_eq!(
        set.verdict("a", KindSet::empty()),
        Verdict::Included(1 + Kind::ALL.len())
    );
    assert!(
        !set.adopt_scratch_as("new", "t".to_string()),
        "name taken"
    );
    assert!(
        !set.adopt_scratch_as("other", "t".to_string()),
        "scratch is empty now"
    );
}

#[test]
fn adopt_keeps_a_live_solo_aligned() {
    let mut set = ActiveFilters::with_sets(None, &[loaded("z", 90, true, &["r"])]);
    set.add("a").expect("valid");
    set.solo(2); // z: the sets are "", definitions, z
    assert!(set.adopt_scratch_as("new", "t".to_string()));
    assert_eq!(set.soloed(), Some(3), "z moved from 2 to 3");
    set.solo(3);
    let flags: Vec<bool> = set.sets().iter().map(|s| s.enabled).collect();
    assert_eq!(
        flags,
        vec![true, false, false, true],
        "the snapshot restored z as it was and new as off"
    );
}

fn builtin_index(set: &ActiveFilters) -> usize {
    set.sets()
        .iter()
        .position(|meta| meta.origin == Origin::BuiltIn)
        .expect("the built-in set is always present")
}

#[test]
fn the_definitions_set_is_always_present_and_collapsed_by_default() {
    let set = ActiveFilters::new();
    assert_eq!(set.sets().len(), 2, "scratch and definitions");
    let index = builtin_index(&set);
    let meta = &set.sets()[index];
    assert_eq!(meta.name, DEFINITIONS_SET);
    assert!(!meta.enabled);
    assert!(!meta.autoload);
    assert_eq!(meta.priority, DEFAULT_PRIORITY);
    let kinds: Vec<String> = set
        .filters_in(index)
        .into_iter()
        .map(|(_, f)| f.display_name())
        .collect();
    let expected: Vec<&str> = Kind::ALL.iter().map(|kind| kind.plural()).collect();
    assert_eq!(kinds, expected);
    assert_eq!(kinds[..4], ["functions", "classes", "structs", "enums"]);
    assert!(set.filters_in(index).into_iter().all(|(_, f)| !f.enabled));
    assert!(
        set.filters_in(index)
            .into_iter()
            .all(|(_, f)| matches!(f.predicate, Predicate::Definition(_)))
    );
}

#[test]
fn builtin_filters_do_not_consume_the_palette() {
    let mut set = ActiveFilters::new();
    set.add("typed").expect("valid");
    assert_eq!(
        set.filters()[0].style,
        Style::of(Color::Indexed(DEFAULT_PALETTE[0]))
    );
    let index = builtin_index(&set);
    assert!(
        set.filters_in(index)
            .into_iter()
            .all(|(_, f)| f.style == Style::default())
    );
    assert!(set.is_user_authored(0));
    assert!(!set.is_user_authored(1));
}

#[test]
fn the_definitions_set_sorts_among_file_sets() {
    let set = ActiveFilters::with_sets(
        None,
        &[
            loaded("alpha", 50, false, &["a"]),
            loaded("zeta", 50, false, &["z"]),
        ],
    );
    let names: Vec<&str> = set.sets().iter().map(|s| s.name.as_str()).collect();
    assert_eq!(names, ["", "alpha", "definitions", "zeta"]);
}

#[test]
fn a_file_override_positions_and_switches_the_definitions_set() {
    let set = ActiveFilters::with_sets(
        None,
        &[
            loaded("alpha", 50, false, &["a"]),
            builtin_override(10, true),
        ],
    );
    let index = builtin_index(&set);
    assert_eq!(index, 1, "priority 10 sorts before alpha");
    assert!(set.sets()[index].enabled, "autoload");
    assert_eq!(set.filters_in(index).len(), Kind::ALL.len());
    assert_eq!(set.sets().len(), 3, "no second definitions set");
}

#[test]
fn a_file_override_gives_the_definitions_set_profiles() {
    let mut set = ActiveFilters::with_sets(
        None,
        &[builtin_with_profiles(
            true,
            &[
                ("default", &["functions"]),
                ("types", &["types", "structs", "enums"]),
            ],
        )],
    );
    let index = builtin_index(&set);
    assert_eq!(set.sets()[index].profiles.len(), 2);
    let on = |set: &ActiveFilters| -> Vec<String> {
        set.filters_in(index)
            .into_iter()
            .filter(|(_, f)| f.enabled)
            .map(|(_, f)| f.display_name())
            .collect()
    };
    assert_eq!(on(&set), ["functions"], "autoload applied `default`");
    assert!(set.apply_profile(index, "types"));
    assert_eq!(
        on(&set),
        ["structs", "enums", "types"],
        "in Kind::ALL order"
    );
    assert_eq!(
        set.enable_named(DEFINITIONS_SET, Some("nope")),
        Err(EnableError::UnknownProfile {
            set: DEFINITIONS_SET.to_string(),
            profile: "nope".to_string(),
        })
    );
}

#[test]
fn needs_kinds_is_false_until_a_definition_filter_is_effective() {
    let mut set = ActiveFilters::new();
    assert!(!set.needs_kinds(), "present is not effective");
    let index = builtin_index(&set);
    set.set_enabled(0, true);
    assert!(!set.needs_kinds());
    set.set_enabled_set(index, true);
    assert!(set.needs_kinds());
}

#[test]
fn needs_regex_is_false_until_a_regex_filter_is_effective() {
    let mut set = ActiveFilters::new();
    assert!(!set.needs_regex(), "the built-in set is all definitions");

    set.add("foo").expect("valid pattern");
    assert!(set.needs_regex());
    set.set_all_enabled(false);
    assert!(!set.needs_regex(), "present is not effective");

    set.add_excluding("noise").expect("valid pattern");
    assert!(set.needs_regex());
    set.set_all_enabled(false);
    assert!(!set.needs_regex());
}

#[test]
fn a_definition_filter_alone_is_answered_without_the_regex_pass() {
    let mut set = ActiveFilters::new();
    let index = builtin_index(&set);
    set.set_enabled(0, true);
    set.set_enabled_set(index, true);
    assert!(!set.needs_regex());

    let functions = KindSet::of(&[Kind::Function]);
    assert_eq!(
        set.verdict("anything at all", functions),
        Verdict::Included(0)
    );
    let structs = KindSet::of(&[Kind::Struct]);
    assert_eq!(set.verdict("a struct line", structs), Verdict::Unmatched);
    assert_eq!(
        set.verdict("plain text", KindSet::empty()),
        Verdict::Unmatched
    );
}

#[test]
fn the_definitions_set_is_an_ordinary_set_to_solo_and_reset() {
    let mut set = ActiveFilters::new();
    set.add("typed").expect("valid");
    let index = builtin_index(&set);
    assert!(set.solo(index));
    assert!(set.sets()[index].enabled);
    assert!(!set.sets()[0].enabled);
    set.reset();
    assert!(!set.sets()[index].enabled, "autoload is off");
    assert!(set.sets()[0].enabled);
}

fn unlisted(mut set: LoadedSet) -> LoadedSet {
    set.listed = false;
    set
}

#[test]
fn a_set_is_listed_unless_the_file_says_otherwise() {
    let set = ActiveFilters::with_sets(None, &[loaded("a", 50, true, &["x"])]);
    assert!(
        set.sets().iter().all(|meta| meta.listed),
        "scratch, a, definitions"
    );
    assert!(set.sets()[1].enabled);
}

#[test]
fn an_unlisted_autoload_set_starts_unlisted_and_disabled() {
    let set = ActiveFilters::with_sets(None, &[unlisted(loaded("a", 50, true, &["x"]))]);
    assert!(!set.sets()[1].listed);
    assert!(!set.sets()[1].enabled);
    assert!(set.matcher().is_none(), "its filter selects nothing");
    assert_eq!(set.row_count(), 0, "and has no row");
}

#[test]
fn unlisting_an_enabled_set_disables_it_and_keeps_its_flags() {
    let mut set = ActiveFilters::with_sets(
        None,
        &[
            loaded("a", 10, true, &["x", "y"]),
            loaded("b", 20, false, &["z"]),
        ],
    );
    set.set_enabled(0, true);
    set.set_enabled(1, true);
    assert!(set.needs_regex());

    assert!(set.set_listed(1, false));
    assert!(!set.sets()[1].listed);
    assert!(!set.sets()[1].enabled);
    assert!(!set.needs_regex(), "the visible lines change at once");
    assert_eq!(flags(&set, 1), vec![true, true], "flags kept");

    assert!(set.set_listed(1, true));
    assert_eq!(set.sets()[1].name, "a", "back in its priority position");
    assert!(set.sets()[1].listed);
    assert!(!set.sets()[1].enabled, "listing again gives a disabled set");
    assert_eq!(flags(&set, 1), vec![true, true], "with the flags it had");
}

#[test]
fn an_unlisted_set_cannot_be_enabled_toggled_or_soloed() {
    let mut set = ActiveFilters::with_sets(None, &[unlisted(loaded("a", 50, false, &["x"]))]);
    assert!(!set.set_enabled_set(1, true));
    assert_eq!(set.toggle_set(1), None);
    assert!(!set.solo(1));
    assert_eq!(set.soloed(), None);
    assert!(!set.sets()[1].enabled);
    assert!(set.set_enabled_set(1, false), "disabling is always allowed");
}

#[test]
fn the_scratch_set_cannot_be_unlisted() {
    let mut set = ActiveFilters::new();
    assert!(!set.set_listed(0, false));
    assert!(set.sets()[0].listed);
    assert!(!set.set_listed(99, false), "no such set");
}

#[test]
fn enable_named_lists_an_unlisted_set() {
    let mut a = unlisted(loaded("a", 50, false, &["x", "y"]));
    a.profiles.insert("default".into(), vec!["x".into()]);
    let mut set = ActiveFilters::with_sets(None, &[a]);

    set.enable_named("a", None).expect("known set");

    assert!(set.sets()[1].listed);
    assert!(set.sets()[1].enabled);
    assert_eq!(enabled_names(&set), ["x"]);
}

#[test]
fn unlist_named_unlists_an_autoload_set() {
    let mut a = loaded("a", 50, true, &["x"]);
    a.profiles.insert("default".into(), vec!["x".into()]);
    let mut set = ActiveFilters::with_sets(None, &[a]);
    assert!(set.matcher().is_some(), "autoload turned `x` on");

    set.unlist_named("a").expect("known set");

    assert!(!set.sets()[1].listed);
    assert!(!set.sets()[1].enabled);
    assert!(set.matcher().is_none(), "its filter selects nothing");
    assert_eq!(set.row_count(), 0, "and has no row");
}

#[test]
fn unlist_named_refuses_an_unknown_name_and_the_scratch_set() {
    let mut set = ActiveFilters::with_sets(None, &[loaded("a", 50, true, &["x"])]);
    let scratch = set.sets()[0].name.clone();

    assert_eq!(
        set.unlist_named("b"),
        Err(EnableError::UnknownSet("b".to_string()))
    );
    assert_eq!(
        set.unlist_named(&scratch),
        Err(EnableError::UnknownSet(scratch.clone()))
    );
    assert!(set.sets().iter().all(|meta| meta.listed), "nothing moved");
}

#[test]
fn un_solo_restores_only_sets_that_are_still_listed() {
    let mut set = ActiveFilters::with_sets(
        None,
        &[loaded("a", 10, true, &["x"]), loaded("b", 20, true, &["y"])],
    );
    set.solo(1);
    assert!(set.set_listed(2, false));
    assert!(!set.solo(1), "un-solo");
    assert!(set.sets()[1].enabled);
    assert!(!set.sets()[2].listed, "the snapshot does not list it");
    assert!(!set.sets()[2].enabled, "and so does not enable it");
}

#[test]
fn unlisting_the_soloed_set_ends_the_solo() {
    let mut set = ActiveFilters::with_sets(
        None,
        &[loaded("a", 10, true, &["x"]), loaded("b", 20, true, &["y"])],
    );
    set.solo(1);
    assert!(set.set_listed(1, false));
    assert_eq!(set.soloed(), None);
    assert!(!set.sets()[1].enabled);
    assert!(
        set.sets()[2].enabled,
        "the rest come back from the snapshot"
    );
}

#[test]
fn reset_keeps_the_listed_state_and_autoloads_only_listed_sets() {
    let mut set = ActiveFilters::with_sets(
        None,
        &[
            loaded("a", 10, true, &["x"]),
            unlisted(loaded("b", 20, true, &["y"])),
        ],
    );
    set.set_listed(1, false);
    set.set_listed(2, true);
    set.reset();
    assert!(!set.sets()[1].listed, "still unlisted");
    assert!(!set.sets()[1].enabled, "so autoload does not apply");
    assert!(set.sets()[2].listed, "still listed");
    assert!(set.sets()[2].enabled, "listed now, so autoload applies");
}

#[test]
fn the_definitions_set_can_be_unlisted() {
    let set = ActiveFilters::with_sets(
        None,
        &[unlisted(builtin_override(
            DEFAULT_PRIORITY,
            true,
        ))],
    );
    assert_eq!(set.sets()[1].origin, Origin::BuiltIn);
    assert!(!set.sets()[1].listed);
    assert!(!set.sets()[1].enabled);
    assert!(!set.needs_kinds());

    let mut set = ActiveFilters::new();
    assert!(set.set_listed(1, false), "and unlisted in a session");
    assert!(!set.sets()[1].listed);
}

#[test]
fn the_definitions_set_has_a_builtin_description_the_table_can_override() {
    let set = ActiveFilters::new();
    assert_eq!(
        set.sets()[1].description.as_deref(),
        Some(DEFINITIONS_DESCRIPTION)
    );

    let mut table = builtin_override(DEFAULT_PRIORITY, false);
    table.description = Some("mine".into());
    let set = ActiveFilters::with_sets(None, &[table]);
    assert_eq!(set.sets()[1].description.as_deref(), Some("mine"));
}

#[test]
fn a_file_set_carries_its_description() {
    let mut a = loaded("a", 50, false, &["x"]);
    a.description = Some("logs".into());
    let set = ActiveFilters::with_sets(None, &[a, loaded("b", 60, false, &["y"])]);
    let described = |name: &str| {
        let meta = set.sets().iter().find(|meta| meta.name == name);
        meta.expect("known").description.clone()
    };
    assert_eq!(described("a").as_deref(), Some("logs"));
    assert_eq!(described("b"), None);
}

#[test]
fn a_cloned_set_is_loaded_alike() {
    let mut one = loaded("a", 7, true, &["x", "y"]);
    one.description = Some("both".to_string());
    one.profiles.insert("default".to_string(), vec!["y".to_string()]);
    let copy = one.clone();
    assert_eq!(format!("{copy:?}"), format!("{one:?}"));
    let set = ActiveFilters::with_sets(None, &[copy]);
    assert_eq!(
        format!("{:?}", set.sets()[1].clone()),
        format!("{:?}", set.sets()[1])
    );
    assert_eq!(flags(&set, 1), [false, true]);
}
