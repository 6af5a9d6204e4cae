//! What every operation on the filters does, whatever is asked of it.

use crate::colour::{Color, Style};
use crate::counting;
use crate::filter::laws;
use crate::filter::matcher;
use crate::filter::matcher::Matcher;
use crate::filter::model;
use crate::filter::model::{ActiveModel, FilterModel, PredicateModel};
use crate::filter::outcomes;
use crate::filter::set_outcomes;
use crate::filter::sets;
use crate::filter::sets::{EnableError, LoadedSet};
use crate::filter::{ActiveFilters, Background, Combine, EnabledFlags, Filter, Sense, Verdict};
use crate::pattern;
use crate::pattern::PatternError;
use crate::syntax::{Kind, KindSet};
use crate::text;
use vstd::prelude::*;

verus! {

// ---------------------------------------------------------------------------
// Verdicts

/// Which filter selects a line that is not removed, by the hits of every filter.
pub proof fn what_including_gives(filters: ActiveFilters, hits: Vec<bool>, verdict: Verdict)
    requires
        filters.wf(),
        hits@.len() == filters@.filters.len(),
        call_ensures(ActiveFilters::include_verdict, (&filters, &hits), verdict),
    ensures
        verdict !is Excluded,
        verdict matches Verdict::Included(by) ==> {
            &&& outcomes::speaks_up(filters@, Sense::Include, hits@, by as int)
            &&& forall|j: int|
                0 <= j < by ==> !(#[trigger] outcomes::speaks_up(
                    filters@,
                    Sense::Include,
                    hits@,
                    j,
                ))
            &&& filters@.combine == Combine::And ==> forall|j: int| #[trigger]
                outcomes::has_say(filters@, Sense::Include, j) ==> hits@[j]
        },
        filters@.combine == Combine::Or && (exists|j: int| #[trigger]
            outcomes::speaks_up(filters@, Sense::Include, hits@, j)) ==> verdict is Included,
        filters@.combine == Combine::And && (exists|j: int| #[trigger]
            outcomes::has_say(filters@, Sense::Include, j)) && (forall|j: int| #[trigger]
            outcomes::has_say(filters@, Sense::Include, j) ==> hits@[j]) ==> verdict is Included,
        verdict matches Verdict::Context(by) ==> {
            &&& outcomes::speaks_up(filters@, Sense::Context, hits@, by as int)
            &&& forall|j: int|
                0 <= j < by ==> !(#[trigger] outcomes::speaks_up(
                    filters@,
                    Sense::Context,
                    hits@,
                    j,
                ))
        },
        verdict is Unmatched ==> forall|j: int|
            !(#[trigger] outcomes::speaks_up(filters@, Sense::Context, hits@, j)),
{
    assert(hits@.len() == hits.len());
    outcomes::who_includes_a_line(filters@, hits@);
}

/// A line is removed just where a filter that excludes hits it, whatever else
/// does, and is else what including gives it.
pub proof fn what_deciding_gives(
    filters: ActiveFilters,
    hits: Vec<bool>,
    verdict: Verdict,
    included: Verdict,
)
    requires
        filters.wf(),
        hits@.len() == filters@.filters.len(),
        call_ensures(ActiveFilters::decide, (&filters, &hits), verdict),
        call_ensures(ActiveFilters::include_verdict, (&filters, &hits), included),
    ensures
        verdict is Excluded <==> exists|i: int| #[trigger]
            outcomes::speaks_up(filters@, Sense::Exclude, hits@, i),
        verdict !is Excluded ==> verdict == included,
{
    outcomes::who_removes_a_line(filters@, hits@);
}

/// A verdict on a line is the decision on its hits: a pattern hits where it
/// matches, and a definition where the line starts one. Going through the
/// filters one by one gives the same.
pub proof fn what_a_verdict_is(
    filters: ActiveFilters,
    line: &str,
    kinds: KindSet,
    hits: Vec<bool>,
    verdict: Verdict,
    scanned: Verdict,
    decided: Verdict,
)
    requires
        filters.wf(),
        hits@.len() == filters@.filters.len(),
        forall|i: int|
            0 <= i < hits@.len() ==> #[trigger] hits@[i] == match filters@.filters[i].predicate {
                PredicateModel::Regex(pattern) => pattern::pattern_matches(pattern, line@),
                PredicateModel::Definition(kind) => kinds.has(kind),
            },
        call_ensures(ActiveFilters::verdict, (&filters, line, kinds), verdict),
        call_ensures(ActiveFilters::verdict_by_scanning, (&filters, line, kinds), scanned),
        call_ensures(ActiveFilters::decide, (&filters, &hits), decided),
    ensures
        verdict == decided,
        scanned == decided,
{
    outcomes::what_a_line_is_judged_by(filters@, line@, kinds, hits@);
}

/// What the filters ask for: a filter asks just where it is on, in a set that
/// is on.
pub proof fn what_filters_ask_for(
    filters: ActiveFilters,
    regex: bool,
    kinds: bool,
    including: bool,
    excluding: bool,
)
    requires
        filters.wf(),
        call_ensures(ActiveFilters::needs_regex, (&filters,), regex),
        call_ensures(ActiveFilters::needs_kinds, (&filters,), kinds),
        call_ensures(ActiveFilters::any_including, (&filters,), including),
        call_ensures(ActiveFilters::any_excluding, (&filters,), excluding),
    ensures
        regex <==> exists|i: int|
            0 <= i < filters@.filters.len() && (#[trigger] filters@.filters[i]).enabled
                && filters@.sets[filters@.filters[i].set].enabled
                && filters@.filters[i].predicate is Regex,
        kinds <==> exists|i: int|
            0 <= i < filters@.filters.len() && (#[trigger] filters@.filters[i]).enabled
                && filters@.sets[filters@.filters[i].set].enabled
                && filters@.filters[i].predicate is Definition,
        including <==> (exists|j: int| #[trigger] outcomes::has_say(filters@, Sense::Include, j))
            || (exists|j: int| #[trigger] outcomes::has_say(filters@, Sense::Context, j)),
        excluding <==> exists|j: int| #[trigger] outcomes::has_say(filters@, Sense::Exclude, j),
{
    let all = filters@;
    assert forall|i: int| 0 <= i < all.filters.len() implies #[trigger] all.effective(i) == (
    all.filters[i].enabled && all.sets[all.filters[i].set].enabled) by {}
    if regex {
        let i = choose|i: int|
            0 <= i < all.filters.len() && #[trigger] all.effective(i) && all.filters[i].predicate
                is Regex;
        assert(all.filters[i].enabled);
    }
    if kinds {
        let i = choose|i: int|
            0 <= i < all.filters.len() && #[trigger] all.effective(i) && all.filters[i].predicate
                is Definition;
        assert(all.filters[i].enabled);
    }
    assert forall|i: int|
        0 <= i < all.filters.len() && (#[trigger] all.filters[i]).enabled
            && all.sets[all.filters[i].set].enabled implies all.effective(i) by {}
    if exists|i: int|
        0 <= i < all.filters.len() && (#[trigger] all.filters[i]).enabled
            && all.sets[all.filters[i].set].enabled && all.filters[i].predicate is Regex {
        let i = choose|i: int|
            0 <= i < all.filters.len() && (#[trigger] all.filters[i]).enabled
                && all.sets[all.filters[i].set].enabled && all.filters[i].predicate is Regex;
        assert(all.effective(i));
    }
    if exists|i: int|
        0 <= i < all.filters.len() && (#[trigger] all.filters[i]).enabled
            && all.sets[all.filters[i].set].enabled && all.filters[i].predicate is Definition {
        let i = choose|i: int|
            0 <= i < all.filters.len() && (#[trigger] all.filters[i]).enabled
                && all.sets[all.filters[i].set].enabled && all.filters[i].predicate is Definition;
        assert(all.effective(i));
    }
    if all.filters.len() > 0 {
        outcomes::how_a_line_is_drawn(all, 0);
    } else {
        assert(!all.any_live(Sense::Include) && !all.any_live(Sense::Context) && !all.any_live(
            Sense::Exclude,
        ));
    }
}

/// How a line with a verdict is drawn.
pub proof fn how_a_verdict_is_drawn(
    filters: ActiveFilters,
    verdict: Verdict,
    style: Option<Style>,
    including: bool,
)
    requires
        filters.wf(),
        call_ensures(ActiveFilters::style_for, (&filters, verdict), style),
        call_ensures(ActiveFilters::any_including, (&filters,), including),
    ensures
        verdict matches Verdict::Included(i) ==> (i < filters@.filters.len() ==> style == Some(
            filters@.filters[i as int].style,
        )),
        verdict matches Verdict::Context(i) ==> (i < filters@.filters.len() ==> style == Some(
            filters@.filters[i as int].style,
        )),
        verdict is Excluded ==> style is None,
        verdict is Unmatched ==> style == if including {
            Some(outcomes::dimmed(filters@.background))
        } else {
            None
        },
{
}

// ---------------------------------------------------------------------------
// Scans

/// What a scan answers where all filters in effect are patterns: a line selects
/// its file just where the view includes the line, and the file is that filter's
/// by which the view does.
pub proof fn what_a_scan_answers(
    filters: ActiveFilters,
    scan: Matcher,
    line: &str,
    kinds: KindSet,
    bits: u64,
    selects: bool,
    owner: Option<usize>,
    verdict: Verdict,
)
    requires
        filters.wf(),
        call_ensures(ActiveFilters::matcher, (&filters,), Some(scan)),
        call_ensures(Matcher::bits, (&scan, line), bits),
        call_ensures(Matcher::selects, (&scan, bits), selects),
        call_ensures(Matcher::owner, (&scan, bits), owner),
        call_ensures(ActiveFilters::verdict, (&filters, line, kinds), verdict),
        forall|i: int|
            0 <= i < filters@.filters.len() && (#[trigger] filters@.filters[i]).enabled
                && filters@.sets[filters@.filters[i].set].enabled
                ==> filters@.filters[i].predicate is Regex,
    ensures
        selects <==> verdict is Included,
        selects <==> owner is Some,
        verdict matches Verdict::Included(by) ==> owner == Some(by),
{
    let all = filters@;
    assert forall|i: int| 0 <= i < all.filters.len() && #[trigger] all.effective(
        i,
    ) implies all.filters[i].predicate is Regex by {
        assert(all.filters[i].enabled);
    }
    matcher::lowest_bit(scan.selecting());
    assert(all.sources().len() == all.filters.len());
    laws::the_scan_agrees_with_the_view(
        all,
        line@,
        kinds,
        bits,
        scan.selecting(),
        scan.excluding(),
    );
    if let Verdict::Included(by) = verdict {
        let found = owner->Some_0;
        if found < by {
            assert(!(matcher::bit(bits, found as int) && matcher::bit(
                scan.selecting(),
                found as int,
            )));
        }
        if by < found {
            assert(!(matcher::bit(bits, by as int) && matcher::bit(scan.selecting(), by as int)));
        }
    }
}

/// When there is a scan: where the patterns fit one and a filter with a say
/// includes by a pattern.
pub proof fn when_there_is_a_scan(filters: ActiveFilters, scan: Option<Matcher>, scanning: bool)
    requires
        filters.wf(),
        call_ensures(ActiveFilters::matcher, (&filters,), scan),
        call_ensures(ActiveFilters::is_scanning, (&filters,), scanning),
    ensures
        scanning <==> scan is Some,
        scanning <==> {
            &&& pattern::set_compiles(filters@.sources())
            &&& filters@.filters.len() <= 64
            &&& exists|i: int| #[trigger]
                outcomes::has_say(filters@, Sense::Include, i) && filters@.filters[i].predicate
                    is Regex
        },
{
    if scanning {
        let i = choose|i: int| #[trigger] filters@.scans(Sense::Include, i);
        assert(outcomes::has_say(filters@, Sense::Include, i));
    }
    if exists|i: int| #[trigger]
        outcomes::has_say(filters@, Sense::Include, i) && filters@.filters[i].predicate is Regex {
        let i = choose|i: int| #[trigger]
            outcomes::has_say(filters@, Sense::Include, i) && filters@.filters[i].predicate
                is Regex;
        assert(filters@.scans(Sense::Include, i));
    }
}

/// Which filters are in a set: all that are, each with its place, in order.
pub proof fn which_filters_are_in_a_set(
    filters: ActiveFilters,
    set: usize,
    found: Vec<(usize, &Filter)>,
    k: int,
    i: int,
)
    requires
        call_ensures(ActiveFilters::filters_in, (&filters, set), found),
    ensures
        0 <= k < found@.len() ==> {
            &&& found@[k].0 < filters@.filters.len()
            &&& found@[k].1@ == filters@.filters[found@[k].0 as int]
            &&& found@[k].1@.set == set
        },
        0 <= k < i < found@.len() ==> found@[k].0 < found@[i].0,
        0 <= i < filters@.filters.len() && filters@.filters[i].set == set ==> exists|k: int|
            0 <= k < found@.len() && (#[trigger] found@[k]).0 == i,
{
}

/// What a filter goes by.
pub proof fn what_filters_go_by(filter: Filter, name: String)
    requires
        call_ensures(Filter::display_name, (&filter,), name),
    ensures
        name@ == set_outcomes::goes_by(filter@),
{
}

// ---------------------------------------------------------------------------
// Single filters

/// What is there once a filter was typed: it stands behind the scratch filters
/// there were, on, and everything else stands as it did.
pub open spec fn typed_behind(
    before: ActiveModel,
    after: ActiveModel,
    predicate: PredicateModel,
    sense: Sense,
    style: Style,
) -> bool {
    let at = counting::how_many(|i: int| before.filters[i].set == 0, before.filters.len() as int);
    &&& after.sets == before.sets && after.solo == before.solo
    &&& after.combine == before.combine && after.background == before.background
    &&& after.palette == before.palette && after.remembered is None
    &&& after.filters.len() == before.filters.len() + 1
    &&& 0 <= at <= before.filters.len()
    &&& forall|i: int| 0 <= i < at ==> #[trigger] after.filters[i] == before.filters[i]
    &&& forall|i: int|
        at < i < after.filters.len() ==> #[trigger] after.filters[i] == before.filters[i - 1]
    &&& after.filters[at] == (FilterModel {
        predicate,
        sense,
        enabled: true,
        style,
        name: None,
        set: 0,
    })
}

/// The colour behind those of the filters that the user wrote.
pub open spec fn next_colour(filters: ActiveModel) -> Style {
    Style {
        fg: Some(
            set_outcomes::cycled(
                filters.palette,
                set_outcomes::written(filters, filters.filters.len() as int),
            ),
        ),
        dim: false,
    }
}

/// Adding a pattern: it is refused just where the regex engine refuses it, with
/// what that says and with nothing changed, and else stands behind the scratch
/// filters with the next colour.
pub proof fn what_adding_does(
    filters: &mut ActiveFilters,
    pattern: &str,
    added: Result<(), PatternError>,
)
    requires
        old(filters).wf(),
        call_ensures(ActiveFilters::add, (filters, pattern), added),
    ensures
        added is Ok <==> pattern::refusal(pattern@) is None,
        added matches Err(error) ==> pattern::refusal(pattern@) == Some(error.message@)
            && final(filters)@ == old(filters)@,
        added is Ok ==> typed_behind(
            old(filters)@,
            final(filters)@,
            PredicateModel::Regex(pattern@),
            Sense::Include,
            next_colour(old(filters)@),
        ),
{
    set_outcomes::where_a_typed_filter_goes(
        old(filters)@,
        PredicateModel::Regex(pattern@),
        Sense::Include,
        next_colour(old(filters)@),
    );
}

/// Adding an excluding pattern does the same, and takes no colour.
pub proof fn what_adding_an_exclusion_does(
    filters: &mut ActiveFilters,
    pattern: &str,
    added: Result<(), PatternError>,
)
    requires
        old(filters).wf(),
        call_ensures(ActiveFilters::add_excluding, (filters, pattern), added),
    ensures
        added is Ok <==> pattern::refusal(pattern@) is None,
        added matches Err(error) ==> pattern::refusal(pattern@) == Some(error.message@)
            && final(filters)@ == old(filters)@,
        added is Ok ==> typed_behind(
            old(filters)@,
            final(filters)@,
            PredicateModel::Regex(pattern@),
            Sense::Exclude,
            (Style { fg: None, dim: false }),
        ),
{
    set_outcomes::where_a_typed_filter_goes(
        old(filters)@,
        PredicateModel::Regex(pattern@),
        Sense::Exclude,
        Style { fg: None, dim: false },
    );
}

/// Adding a definition always succeeds, and does the same with the next colour.
pub proof fn what_adding_a_definition_does(filters: &mut ActiveFilters, kind: Kind)
    requires
        old(filters).wf(),
        call_ensures(ActiveFilters::add_definition, (filters, kind), ()),
    ensures
        typed_behind(
            old(filters)@,
            final(filters)@,
            PredicateModel::Definition(kind),
            Sense::Include,
            next_colour(old(filters)@),
        ),
{
    set_outcomes::where_a_typed_filter_goes(
        old(filters)@,
        PredicateModel::Definition(kind),
        Sense::Include,
        next_colour(old(filters)@),
    );
}

/// Whether there is a filter at a place that the user wrote.
pub open spec fn users_own(filters: ActiveModel, i: int) -> bool {
    0 <= i < filters.filters.len() && filters.sets[filters.filters[i].set].origin !is BuiltIn
}

/// Removing takes out the filter at the place, where the user wrote it, and
/// leaves the others in their order; it leaves everything where they did not.
pub proof fn what_removing_does(filters: &mut ActiveFilters, index: usize, removed: bool, k: int)
    requires
        old(filters).wf(),
        call_ensures(ActiveFilters::remove, (filters, index), removed),
        0 <= k < old(filters)@.filters.len(),
    ensures
        removed <==> users_own(old(filters)@, index as int),
        !removed ==> final(filters)@ == old(filters)@,
        removed ==> {
            let (before, after) = (old(filters)@, final(filters)@);
            &&& after.filters.len() == before.filters.len() - 1
            &&& k < index ==> after.filters[k] == before.filters[k]
            &&& k > index ==> after.filters[k - 1] == before.filters[k]
            &&& after.sets == before.sets && after.solo == before.solo
            &&& after.combine == before.combine && after.palette == before.palette
            &&& after.remembered is Some == before.remembered is Some
        },
{
    if index < old(filters)@.filters.len() {
        set_outcomes::what_one_filter_changes(
            old(filters)@,
            index as int,
            k,
            PredicateModel::Definition(Kind::Function),
            Sense::Include,
        );
    }
}

/// Another pattern is refused where the regex engine refuses it, and else
/// changes what the filter at the place tests, where the user wrote it, and
/// nothing else.
pub proof fn what_another_pattern_does(
    filters: &mut ActiveFilters,
    index: usize,
    pattern: &str,
    changed: Result<bool, PatternError>,
    k: int,
)
    requires
        old(filters).wf(),
        call_ensures(ActiveFilters::set_pattern, (filters, index, pattern), changed),
        0 <= k < old(filters)@.filters.len(),
    ensures
        changed is Ok <==> pattern::refusal(pattern@) is None,
        changed matches Err(error) ==> pattern::refusal(pattern@) == Some(error.message@),
        changed matches Ok(yes) ==> yes == users_own(old(filters)@, index as int),
        !(changed matches Ok(true)) ==> final(filters)@ == old(filters)@,
        changed matches Ok(true) ==> {
            let (before, after) = (old(filters)@, final(filters)@);
            &&& after.filters.len() == before.filters.len()
            &&& k != index ==> after.filters[k] == before.filters[k]
            &&& after.filters[index as int] == (FilterModel {
                predicate: PredicateModel::Regex(pattern@),
                ..before.filters[index as int]
            })
            &&& after.sets == before.sets && after.remembered == before.remembered
            &&& after.solo == before.solo && after.combine == before.combine
        },
{
    if index < old(filters)@.filters.len() {
        set_outcomes::what_one_filter_changes(
            old(filters)@,
            index as int,
            k,
            PredicateModel::Regex(pattern@),
            Sense::Include,
        );
    }
}

/// An including filter becomes context and a context one includes; an excluding
/// one stays. Nothing else of any filter changes.
pub proof fn what_toggling_context_does(
    filters: &mut ActiveFilters,
    index: usize,
    changed: bool,
    k: int,
)
    requires
        old(filters).wf(),
        call_ensures(ActiveFilters::toggle_context, (filters, index), changed),
        0 <= k < old(filters)@.filters.len(),
    ensures
        changed <==> index < old(filters)@.filters.len() && old(filters)@.filters[index as int].sense
            != Sense::Exclude,
        !changed ==> final(filters)@ == old(filters)@,
        changed ==> {
            let (before, after) = (old(filters)@, final(filters)@);
            let (one, other) = (before.filters[index as int], after.filters[index as int]);
            &&& after.filters.len() == before.filters.len()
            &&& k != index ==> after.filters[k] == before.filters[k]
            &&& one.sense == Sense::Include ==> other.sense == Sense::Context
            &&& one.sense == Sense::Context ==> other.sense == Sense::Include
            &&& other == (FilterModel { sense: other.sense, ..one })
            &&& after.sets == before.sets && after.remembered == before.remembered
            &&& after.solo == before.solo && after.combine == before.combine
        },
{
}

/// How including filters are combined changes from one way to the other, and
/// what is said is whether all of them have to hit now.
pub proof fn what_toggling_and_does(filters: &mut ActiveFilters, all: bool)
    requires
        old(filters).wf(),
        call_ensures(ActiveFilters::toggle_and, (filters,), all),
    ensures
        old(filters)@.combine == Combine::Or <==> final(filters)@.combine == Combine::And,
        all <==> final(filters)@.combine == Combine::And,
        final(filters)@ == (ActiveModel {
            combine: final(filters)@.combine,
            ..old(filters)@
        }),
{
}

// ---------------------------------------------------------------------------
// Flags

/// Switching all filters, or one of them, changes flags and nothing else.
pub proof fn what_switching_does(filters: &mut ActiveFilters, enabled: bool, i: int)
    requires
        old(filters).wf(),
        call_ensures(ActiveFilters::set_all_enabled, (filters, enabled), ()),
        0 <= i < old(filters)@.filters.len(),
    ensures
        set_outcomes::same_but_flags(old(filters)@, final(filters)@),
        final(filters)@.sets == old(filters)@.sets,
        final(filters)@.filters[i].enabled == enabled,
{
    set_outcomes::where_flags_land(old(filters)@, Seq::empty(), i, enabled);
}

/// Switching one filter changes its flag to what was asked, and no other.
pub proof fn what_switching_one_does(
    filters: &mut ActiveFilters,
    index: usize,
    enabled: bool,
    there: bool,
    i: int,
)
    requires
        old(filters).wf(),
        call_ensures(ActiveFilters::set_enabled, (filters, index, enabled), there),
        0 <= i < old(filters)@.filters.len(),
    ensures
        there <==> index < old(filters)@.filters.len(),
        set_outcomes::same_but_flags(old(filters)@, final(filters)@),
        final(filters)@.sets == old(filters)@.sets,
        final(filters)@.remembered == old(filters)@.remembered,
        final(filters)@.filters[i].enabled == if i == index {
            enabled
        } else {
            old(filters)@.filters[i].enabled
        },
{
    if index < old(filters)@.filters.len() {
        set_outcomes::where_flags_land(old(filters)@, Seq::empty(), index as int, enabled);
    }
}

/// Toggling one filter turns its flag round and says what it is now.
pub proof fn what_toggling_one_does(
    filters: &mut ActiveFilters,
    index: usize,
    now: Option<bool>,
    i: int,
)
    requires
        old(filters).wf(),
        call_ensures(ActiveFilters::toggle_enabled, (filters, index), now),
        0 <= i < old(filters)@.filters.len(),
    ensures
        now is Some <==> index < old(filters)@.filters.len(),
        now is Some ==> now->Some_0 == !old(filters)@.filters[index as int].enabled,
        set_outcomes::same_but_flags(old(filters)@, final(filters)@),
        final(filters)@.sets == old(filters)@.sets,
        final(filters)@.remembered == old(filters)@.remembered,
        final(filters)@.filters[i].enabled == (old(filters)@.filters[i].enabled != (i == index)),
{
}

/// Switching all off keeps which were on, to be put back: a second time in a row
/// keeps what the first kept. Everything is off behind it.
pub proof fn what_switching_off_keeps(filters: &mut ActiveFilters, i: int)
    requires
        old(filters).wf(),
        call_ensures(ActiveFilters::disable_all_remembering, (filters,), ()),
        0 <= i < old(filters)@.filters.len(),
    ensures
        ({
            let (before, after) = (old(filters)@, final(filters)@);
            let some_on = exists|k: int|
                0 <= k < before.filters.len() && (#[trigger] before.filters[k]).enabled;
            &&& set_outcomes::same_but_flags(before, after)
            &&& after.sets == before.sets && after.solo == before.solo
            &&& !after.filters[i].enabled
            &&& after.remembered matches Some(kept)
            &&& kept.len() == before.filters.len()
            &&& kept[i] == if before.remembered is Some && !some_on {
                before.remembered->Some_0[i]
            } else {
                before.filters[i].enabled
            }
        }),
{
    let before = old(filters)@;
    let flags = before.flags();
    if flags.contains(true) {
        let k = choose|k: int| 0 <= k < flags.len() && flags[k];
        assert(before.filters[k].enabled);
    } else {
        assert forall|k: int| 0 <= k < before.filters.len() implies !(
        #[trigger] before.filters[k]).enabled by {
            assert(flags[k] == before.filters[k].enabled);
        }
    }
}

/// Putting back gives every filter the flag that was kept, and keeps no more.
pub proof fn what_putting_back_does(filters: &mut ActiveFilters, i: int)
    requires
        old(filters).wf(),
        call_ensures(ActiveFilters::restore_remembered, (filters,), ()),
        0 <= i < old(filters)@.filters.len(),
    ensures
        ({
            let (before, after) = (old(filters)@, final(filters)@);
            &&& before.remembered is None ==> after == before
            &&& before.remembered matches Some(kept) ==> {
                &&& set_outcomes::same_but_flags(before, after)
                &&& after.sets == before.sets && after.solo == before.solo
                &&& after.remembered is None
                &&& after.filters[i].enabled == kept[i]
            }
        }),
{
}

/// Flags that are captured are each filter's, and flags that are applied become
/// it, as far as they reach.
pub proof fn what_capturing_and_applying_do(
    filters: &mut ActiveFilters,
    other: ActiveFilters,
    captured: EnabledFlags,
    i: int,
)
    requires
        old(filters).wf(),
        call_ensures(ActiveFilters::enabled_flags, (&other,), captured),
        call_ensures(ActiveFilters::apply_enabled_flags, (filters, &captured), ()),
        0 <= i < old(filters)@.filters.len(),
    ensures
        set_outcomes::same_but_flags(old(filters)@, final(filters)@),
        final(filters)@.sets == old(filters)@.sets,
        final(filters)@.filters[i].enabled == if i < other@.filters.len() {
            other@.filters[i].enabled
        } else {
            old(filters)@.filters[i].enabled
        },
{
    set_outcomes::where_flags_land(old(filters)@, captured@, i, true);
}

/// What is counted: the filters that the user wrote, and the rows of those whose
/// set is listed.
pub proof fn what_is_counted(filters: ActiveFilters, count: usize, empty: bool, rows: usize, on: bool)
    requires
        filters.wf(),
        call_ensures(ActiveFilters::len, (&filters,), count),
        call_ensures(ActiveFilters::is_empty, (&filters,), empty),
        call_ensures(ActiveFilters::row_count, (&filters,), rows),
        call_ensures(ActiveFilters::any_enabled, (&filters,), on),
    ensures
        count == set_outcomes::written(filters@, filters@.filters.len() as int),
        empty <==> count == 0,
        rows == counting::how_many(
            |i: int|
                filters@.sets[filters@.filters[i].set].origin !is BuiltIn
                    && filters@.sets[filters@.filters[i].set].listed,
            filters@.filters.len() as int,
        ),
        on <==> exists|k: int|
            0 <= k < filters@.filters.len() && (#[trigger] filters@.filters[k]).enabled,
{
    let all = filters@;
    set_outcomes::who_is_counted(all);
    let flags = all.flags();
    if flags.contains(true) {
        let k = choose|k: int| 0 <= k < flags.len() && flags[k];
        assert(all.filters[k].enabled);
    }
    assert forall|k: int| 0 <= k < all.filters.len() && (
    #[trigger] all.filters[k]).enabled implies flags.contains(true) by {
        assert(flags[k]);
    }
}

// ---------------------------------------------------------------------------
// Sets

/// The program's filters at the start.
pub proof fn what_starting_gives(
    palette: Option<Vec<Color>>,
    sets: &[LoadedSet],
    filters: ActiveFilters,
)
    requires
        call_ensures(ActiveFilters::with_sets, (palette, sets), filters),
    ensures
        ({
            let given = model::in_order(model::with_builtin(sets::loaded_models(sets@)));
            let start = filters@;
            &&& set_outcomes::loaded_in_order(start, given)
            &&& start.solo is None && start.remembered is None
            &&& start.combine == Combine::Or && start.background == Background::Dark
            &&& palette is Some && palette->Some_0@.len() > 0 ==> start.palette == palette->Some_0@
            &&& forall|s: int|
                0 <= s < given.len() ==> {
                    let made = #[trigger] start.sets[s + 1];
                    &&& made.name == given[s].name
                    &&& made.listed == given[s].listed
                    &&& made.enabled == (given[s].autoload && given[s].listed)
                }
            &&& forall|i: int|
                0 <= i < start.filters.len() ==> {
                    let filter = #[trigger] start.filters[i];
                    &&& 0 < filter.set < start.sets.len()
                    &&& filter.enabled == (start.sets[filter.set].enabled
                        && set_outcomes::in_default(start.sets[filter.set], filter))
                }
        }),
{
    set_outcomes::what_the_program_starts_with(
        crate::colour::option_colours(palette),
        sets::loaded_models(sets@),
    );
}

/// Two filters of one file that stand next to each other, and that it gives no
/// colour, have colours of the palette that stand next to each other.
pub proof fn neighbours_have_neighbouring_colours(
    palette: Option<Seq<Color>>,
    given: Seq<model::LoadedModel>,
    s: int,
    j: int,
)
    requires
        0 <= s < model::in_order(model::with_builtin(given)).len(),
        ({
            let set = model::in_order(model::with_builtin(given))[s];
            &&& !set.builtin
            &&& 0 <= j < set.filters.len() - 1
            &&& set.filters[j].colour is None && set.filters[j + 1].colour is None
        }),
    ensures
        ({
            let start = ActiveModel::startup(palette, given);
            let at = set_outcomes::placed(model::in_order(model::with_builtin(given)), s, j);
            let k = set_outcomes::written(start, at);
            &&& 0 <= at < start.filters.len() - 1
            &&& start.filters[at].style.fg == Some(set_outcomes::cycled(start.palette, k))
            &&& start.filters[at + 1].style.fg == Some(set_outcomes::cycled(start.palette, k + 1))
        }),
{
    let all = model::in_order(model::with_builtin(given));
    let start = ActiveModel::startup(palette, given);
    set_outcomes::what_the_program_starts_with(palette, given);
    let at = set_outcomes::placed(all, s, j);
    let next = set_outcomes::placed(all, s, j + 1);
    assert(next == at + 1);
    assert(start.filters[at].set == s + 1);
    assert(start.filters[next].set == s + 1);
    assert(start.sets[s + 1].origin !is BuiltIn);
}

/// Applying a profile of a set.
pub proof fn what_applying_a_profile_does(
    filters: &mut ActiveFilters,
    set: usize,
    profile: &str,
    applied: bool,
    i: int,
)
    requires
        old(filters).wf(),
        call_ensures(ActiveFilters::apply_profile, (filters, set, profile), applied),
        0 <= i < old(filters)@.filters.len(),
    ensures
        applied <==> set < old(filters)@.sets.len()
            && old(filters)@.sets[set as int].profiles.contains_key(profile@),
        set_outcomes::same_but_flags(old(filters)@, final(filters)@),
        final(filters)@.sets == old(filters)@.sets,
        final(filters)@.filters[i].enabled == if applied && old(filters)@.filters[i].set == set {
            old(filters)@.sets[set as int].profiles[profile@].contains(
                set_outcomes::goes_by(old(filters)@.filters[i]),
            )
        } else {
            old(filters)@.filters[i].enabled
        },
{
    if applied {
        set_outcomes::whom_a_profile_switches(old(filters)@, set as int, profile@, i);
    }
}

/// Whether switching a set changed its flag and, switching it on, applied its
/// default profile.
pub open spec fn switched_to(
    before: ActiveModel,
    after: ActiveModel,
    set: int,
    enabled: bool,
) -> bool {
    &&& set_outcomes::same_but_flags(before, after)
    &&& after.solo == before.solo && after.remembered == before.remembered
    &&& forall|s: int|
        0 <= s < before.sets.len() ==> {
            &&& (#[trigger] after.sets[s]).listed == before.sets[s].listed
            &&& after.sets[s].enabled == if s == set {
                enabled
            } else {
                before.sets[s].enabled
            }
        }
    &&& forall|i: int|
        0 <= i < before.filters.len() ==> (#[trigger] after.filters[i]).enabled == if enabled
            && before.filters[i].set == set && set_outcomes::has_default(before.sets[set]) {
            set_outcomes::in_default(before.sets[set], before.filters[i])
        } else {
            before.filters[i].enabled
        }
}

proof fn switching_is(before: ActiveModel, set: int, enabled: bool)
    requires
        before.can_switch(set, enabled),
    ensures
        switched_to(before, before.set_switched(set, enabled), set, enabled),
{
}

/// Switching a set: a named one, and on only where it is listed.
pub proof fn what_switching_a_set_does(
    filters: &mut ActiveFilters,
    set: usize,
    enabled: bool,
    switched: bool,
)
    requires
        old(filters).wf(),
        call_ensures(ActiveFilters::set_enabled_set, (filters, set, enabled), switched),
    ensures
        switched <==> 0 < set < old(filters)@.sets.len() && (enabled ==> old(
            filters,
        )@.sets[set as int].listed),
        !switched ==> final(filters)@ == old(filters)@,
        switched ==> switched_to(old(filters)@, final(filters)@, set as int, enabled),
{
    if switched {
        switching_is(old(filters)@, set as int, enabled);
    }
}

/// Toggling a set switches it to what it is not.
pub proof fn what_toggling_a_set_does(filters: &mut ActiveFilters, set: usize, now: Option<bool>)
    requires
        old(filters).wf(),
        call_ensures(ActiveFilters::toggle_set, (filters, set), now),
    ensures
        now is Some <==> 0 < set < old(filters)@.sets.len() && (old(
            filters,
        )@.sets[set as int].enabled || old(filters)@.sets[set as int].listed),
        now is None ==> final(filters)@ == old(filters)@,
        now matches Some(enabled) ==> enabled == !old(filters)@.sets[set as int].enabled
            && switched_to(old(filters)@, final(filters)@, set as int, enabled),
{
    if now is Some {
        switching_is(old(filters)@, set as int, now->Some_0);
    }
}

/// Listing and unlisting a set: a named one. Unlisting switches it off, and ends
/// its solo.
pub proof fn what_listing_does(
    filters: &mut ActiveFilters,
    set: usize,
    listed: bool,
    there: bool,
    s: int,
)
    requires
        old(filters).wf(),
        call_ensures(ActiveFilters::set_listed, (filters, set, listed), there),
        0 <= s < old(filters)@.sets.len(),
    ensures
        there <==> 0 < set < old(filters)@.sets.len(),
        !there ==> final(filters)@ == old(filters)@,
        there ==> {
            let (before, after) = (old(filters)@, final(filters)@);
            let ends = !listed && before.solo is Some && before.solo->Some_0.set == set;
            &&& set_outcomes::same_but_flags(before, after)
            &&& after.filters == before.filters
            &&& after.sets[s].listed == if s == set {
                listed
            } else {
                before.sets[s].listed
            }
            &&& after.sets[s].enabled == if s == set {
                before.sets[s].enabled && listed
            } else if ends {
                before.solo->Some_0.snapshot[s] && before.sets[s].listed
            } else {
                before.sets[s].enabled
            }
            &&& after.solo == if ends {
                None
            } else {
                before.solo
            }
        },
{
    if there {
        set_outcomes::what_listing_a_set_does(old(filters)@, set as int, listed, s);
    }
}

/// Enabling by name: refused for a set that is not there or a profile that it
/// does not have, with nothing changed; else the set is listed and on, with the
/// filters of the profile.
pub proof fn what_enabling_does(
    filters: &mut ActiveFilters,
    name: &str,
    profile: Option<&str>,
    enabled: Result<(), EnableError>,
    set: int,
    i: int,
)
    requires
        old(filters).wf(),
        call_ensures(ActiveFilters::enable_named, (filters, name, profile), enabled),
        0 < set < old(filters)@.sets.len(),
        old(filters)@.sets[set].name == name@,
        forall|s: int| 0 <= s < set ==> (#[trigger] old(filters)@.sets[s]).name != name@,
        0 <= i < old(filters)@.filters.len(),
    ensures
        ({
            let (before, after) = (old(filters)@, final(filters)@);
            let filter = before.filters[i];
            let known = profile is None || before.sets[set].profiles.contains_key(
                profile->Some_0@,
            );
            &&& enabled is Ok <==> known
            &&& !known ==> after == before && (enabled matches Err(
                EnableError::UnknownProfile { set: named, profile: unknown },
            ) && named@ == name@ && unknown@ == profile->Some_0@)
            &&& known ==> {
                &&& set_outcomes::same_but_flags(before, after)
                &&& after.sets[set].listed && after.sets[set].enabled
                &&& after.filters[i].enabled == if filter.set != set {
                    filter.enabled
                } else if profile is Some {
                    before.sets[set].profiles[profile->Some_0@].contains(
                        set_outcomes::goes_by(filter),
                    )
                } else if set_outcomes::has_default(before.sets[set]) {
                    set_outcomes::in_default(before.sets[set], filter)
                } else {
                    filter.enabled
                }
            }
        }),
{
    let before = old(filters)@;
    set_outcomes::which_set_a_name_means(before, name@);
    let found = before.named(name@)->Some_0;
    assert(before.named(name@) is Some) by {
        if name@.len() == 0 {
            assert(before.sets[0].name =~= name@);
        }
    }
    if found < set {
        assert(before.sets[found].name != name@);
    }
    if set < found {
        assert(before.sets[set].name != name@);
    }
    if profile is None || before.sets[set].profiles.contains_key(profile->Some_0@) {
        set_outcomes::what_enabling_by_name_does(before, set, text::option_str(profile), i, 0);
    }
}

/// A name that no set has is refused by that name, in enabling and unlisting,
/// and nothing changes.
pub proof fn what_an_unknown_name_does(
    filters: &mut ActiveFilters,
    others: &mut ActiveFilters,
    name: &str,
    profile: Option<&str>,
    enabled: Result<(), EnableError>,
    unlisted: Result<(), EnableError>,
)
    requires
        old(filters).wf(),
        old(others).wf(),
        call_ensures(ActiveFilters::enable_named, (filters, name, profile), enabled),
        call_ensures(ActiveFilters::unlist_named, (others, name), unlisted),
    ensures
        (forall|s: int| 0 < s < old(filters)@.sets.len() ==> (#[trigger] old(filters)@.sets[s]).name
            != name@) ==> final(filters)@ == old(filters)@ && (enabled matches Err(
            EnableError::UnknownSet(unknown),
        ) && unknown@ == name@),
        (forall|s: int| 0 < s < old(others)@.sets.len() ==> (#[trigger] old(others)@.sets[s]).name
            != name@) ==> final(others)@ == old(others)@ && (unlisted matches Err(
            EnableError::UnknownSet(unknown),
        ) && unknown@ == name@),
{
    set_outcomes::which_set_a_name_means(old(filters)@, name@);
    set_outcomes::which_set_a_name_means(old(others)@, name@);
}

/// A solo leaves the one set on, and a second on the same set brings back what
/// was on before.
pub proof fn what_soloing_does(filters: &mut ActiveFilters, set: usize, on: bool, i: int, s: int)
    requires
        old(filters).wf(),
        call_ensures(ActiveFilters::solo, (filters, set), on),
        0 <= i < old(filters)@.filters.len(),
        0 <= s < old(filters)@.sets.len(),
    ensures
        ({
            let (before, after) = (old(filters)@, final(filters)@);
            let can = 0 < set < before.sets.len() && before.sets[set as int].listed;
            let ends = before.solo is Some && before.solo->Some_0.set == set;
            &&& on <==> after.solo is Some
            &&& !can ==> after == before
            &&& can ==> set_outcomes::same_but_flags(before, after) && after.sets[s].listed
                == before.sets[s].listed
            &&& can && ends ==> {
                &&& after.solo is None
                &&& after.sets[s].enabled == (before.solo->Some_0.snapshot[s]
                    && before.sets[s].listed)
                &&& after.filters[i].enabled == before.filters[i].enabled
            }
            &&& can && !ends ==> {
                &&& after.solo is Some && after.solo->Some_0.set == set
                &&& after.sets[s].enabled == (s == set)
                &&& after.solo->Some_0.snapshot[s] == if before.solo is Some {
                    before.solo->Some_0.snapshot[s]
                } else {
                    before.sets[s].enabled
                }
                &&& after.filters[i].enabled == if before.filters[i].set == set
                    && !before.sets[set as int].enabled && set_outcomes::has_default(
                    before.sets[set as int],
                ) {
                    set_outcomes::in_default(before.sets[set as int], before.filters[i])
                } else {
                    before.filters[i].enabled
                }
            }
        }),
{
    if 0 < set < old(filters)@.sets.len() {
        set_outcomes::what_a_solo_does(old(filters)@, set as int, i, s);
    }
}

/// A reset puts every named set and its filters back to how they start.
pub proof fn what_resetting_does(filters: &mut ActiveFilters, i: int, s: int)
    requires
        old(filters).wf(),
        call_ensures(ActiveFilters::reset, (filters,), ()),
        0 <= i < old(filters)@.filters.len(),
        0 <= s < old(filters)@.sets.len(),
    ensures
        ({
            let (before, after) = (old(filters)@, final(filters)@);
            let set = before.sets[before.filters[i].set];
            &&& set_outcomes::same_but_flags(before, after)
            &&& after.sets[s].listed == before.sets[s].listed
            &&& after.sets[s].enabled == (s == 0 || (before.sets[s].autoload
                && before.sets[s].listed))
            &&& after.filters[i].enabled == if before.filters[i].set == 0 {
                before.filters[i].enabled
            } else {
                set.autoload && set.listed && set_outcomes::in_default(set, before.filters[i])
            }
            &&& after.solo is None && after.remembered is None
        }),
{
    set_outcomes::what_a_reset_does(old(filters)@, i, s);
}

/// Adopting the scratch filters under a name is refused just where there are
/// none or the name is taken, with nothing changed.
pub proof fn what_adopting_does(
    filters: &mut ActiveFilters,
    name: &str,
    path: String,
    adopted: bool,
    i: int,
)
    requires
        old(filters).wf(),
        call_ensures(ActiveFilters::adopt_scratch_as, (filters, name, path), adopted),
        0 <= i < old(filters)@.filters.len(),
    ensures
        ({
            let (before, after) = (old(filters)@, final(filters)@);
            &&& adopted <==> {
                &&& exists|k: int|
                    0 <= k < before.filters.len() && (#[trigger] before.filters[k]).set == 0
                &&& forall|s: int|
                    0 <= s < before.sets.len() ==> (#[trigger] before.sets[s]).name != name@
            }
            &&& !adopted ==> after == before
            &&& adopted ==> {
                &&& after.filters.len() == before.filters.len()
                &&& after.sets.len() == before.sets.len() + 1
                &&& exists|k: int|
                    {
                        &&& 0 <= k < after.filters.len()
                        &&& (#[trigger] after.filters[k]) == (FilterModel {
                            set: after.filters[k].set,
                            ..before.filters[i]
                        })
                        &&& before.filters[i].set == 0 ==> after.sets[after.filters[k].set].name
                            == name@
                        &&& before.filters[i].set != 0 ==> after.sets[after.filters[k].set]
                            == before.sets[before.filters[i].set]
                    }
            }
        }),
{
    let before = old(filters)@;
    set_outcomes::where_adopted_filters_go(before, name@, path@, i);
    if adopted {
        let set = before.filters[i].set;
        set_outcomes::what_adopting_makes(before, name@, path@, set);
        let after = before.adopted(name@, path@);
        let place = before.adopting_place(name@);
        let scratch = counting::how_many(
            |k: int| before.filters[k].set == 0,
            before.filters.len() as int,
        );
        let ahead = counting::how_many(
            |k: int| 0 < before.filters[k].set < place,
            before.filters.len() as int,
        );
        let k = if set == 0 {
            i + ahead
        } else if set < place {
            i - scratch
        } else {
            i
        };
        assert(0 <= k < after.filters.len());
        assert(after.filters[k] == (FilterModel { set: after.filters[k].set, ..before.filters[i] }));
    }
}

} // verus!
