//! What the operations on filters have to do with each other.

use vstd::prelude::*;

use crate::colour::Color;
use crate::filter::matcher;
use crate::filter::model;
use crate::filter::model::{ActiveModel, FilterModel, LoadedModel, DEFAULT_PROFILE};
use crate::filter::{Combine, Sense, Verdict};
use crate::pattern;
use crate::syntax::KindSet;

verus! {

// ---------------------------------------------------------------------------
// Verdicts

/// A verdict that names a filter names one that takes effect and hit the line,
/// an including one or a context one as it says.
pub proof fn a_verdict_names_a_live_filter(filters: ActiveModel, hits: Seq<bool>)
    requires
        filters.filters.len() <= usize::MAX,
    ensures
        filters.decided(hits) matches Verdict::Included(i) ==> i < filters.filters.len()
            && filters.live(Sense::Include, i as int) && hits[i as int],
        filters.decided(hits) matches Verdict::Context(i) ==> i < filters.filters.len()
            && filters.live(Sense::Context, i as int) && hits[i as int],
{
    filters.first_hit_finds(Sense::Include, hits);
    filters.first_hit_finds(Sense::Context, hits);
    filters.first_live_finds(Sense::Include);
}

/// Where no filter takes effect, no line is touched.
pub proof fn switched_off_filters_touch_nothing(
    filters: ActiveModel,
    line: Seq<char>,
    kinds: KindSet,
)
    requires
        forall|i: int| 0 <= i < filters.filters.len() ==> !(#[trigger] filters.effective(i)),
    ensures
        filters.verdict(line, kinds) == Verdict::Unmatched,
        filters.style_for(Verdict::Unmatched) is None,
{
    assert forall|sense: Sense, i: int|
        0 <= i < filters.filters.len() implies !(#[trigger] filters.live(sense, i)) by {
        assert(!filters.effective(i));
    }
}

/// A line that an excluding filter hits is removed, whatever else hits it.
pub proof fn exclusion_overrides_inclusion(filters: ActiveModel, hits: Seq<bool>, i: int)
    requires
        0 <= i < filters.filters.len(),
        filters.live(Sense::Exclude, i),
        hits[i],
    ensures
        filters.decided(hits) == Verdict::Excluded,
{
}

/// An including filter that hits outranks every context filter.
pub proof fn inclusion_outranks_context(filters: ActiveModel, hits: Seq<bool>)
    requires
        !filters.any_hit(Sense::Exclude, hits),
        filters.selected(hits),
    ensures
        filters.decided(hits) is Included,
{
}

/// A filter of a set that is not listed never takes effect.
pub proof fn an_unlisted_set_has_no_effect(filters: ActiveModel, i: int)
    requires
        filters.well_formed(),
        0 <= i < filters.filters.len(),
        !filters.sets[filters.filters[i].set].listed,
    ensures
        !filters.effective(i),
{
}

/// The scan and the view agree: where only regular expressions take effect, a
/// line selects its file just where the view shows it as included, and the
/// file's owner is the filter that the view names.
///
/// A definition is left out: a scan does not know of definitions.
pub proof fn the_scan_agrees_with_the_view(
    filters: ActiveModel,
    line: Seq<char>,
    kinds: KindSet,
    bits: u64,
    selecting: u64,
    excluding: u64,
)
    requires
        filters.filters.len() <= matcher::MAX_PATTERNS,
        forall|i: int|
            0 <= i < filters.filters.len() && #[trigger] filters.effective(i)
                ==> filters.filters[i].predicate is Regex,
        forall|i: int| #[trigger]
            matcher::bit(bits, i) == (0 <= i < filters.filters.len() && pattern::pattern_matches(
                filters.sources()[i],
                line,
            )),
        forall|i: int| #[trigger]
            matcher::bit(selecting, i) == filters.scans(Sense::Include, i),
        forall|i: int| #[trigger]
            matcher::bit(excluding, i) == filters.scans(Sense::Exclude, i),
        selecting != 0 <==> exists|i: int| #[trigger] matcher::bit(selecting, i),
    ensures
        (filters.verdict(line, kinds) is Included) == (!matcher::meet(bits, excluding)
            && match filters.combine {
            Combine::Or => matcher::meet(bits, selecting),
            Combine::And => selecting != 0 && matcher::covers(bits, selecting),
        }),
        filters.verdict(line, kinds) matches Verdict::Included(owner) ==> {
            &&& matcher::bit(bits, owner as int) && matcher::bit(selecting, owner as int)
            &&& forall|i: int|
                i < owner ==> !((#[trigger] matcher::bit(bits, i)) && matcher::bit(selecting, i))
        },
{
    let hits = filters.hits(line, kinds);
    let len = filters.filters.len() as int;
    assert forall|i: int| 0 <= i < len && #[trigger] filters.effective(i) implies hits[i]
        == matcher::bit(bits, i) by {
        assert(filters.sources()[i] == filters.filters[i].predicate.source());
    }
    assert forall|sense: Sense, i: int|
        0 <= i < len && #[trigger] filters.live(sense, i) implies hits[i] == matcher::bit(bits, i)
        && filters.scans(sense, i) by {
        assert(filters.effective(i));
    }
    assert(filters.any_hit(Sense::Exclude, hits) == matcher::meet(bits, excluding)) by {
        if filters.any_hit(Sense::Exclude, hits) {
            let i = choose|i: int|
                0 <= i < len && #[trigger] filters.live(Sense::Exclude, i) && hits[i];
            assert(matcher::bit(bits, i) && matcher::bit(excluding, i));
        }
        if matcher::meet(bits, excluding) {
            let i = choose|i: int| #[trigger]
                matcher::bit(bits, i) && matcher::bit(excluding, i);
            assert(filters.live(Sense::Exclude, i) && hits[i]);
        }
    }
    assert(filters.any_hit(Sense::Include, hits) == matcher::meet(bits, selecting)) by {
        if filters.any_hit(Sense::Include, hits) {
            let i = choose|i: int|
                0 <= i < len && #[trigger] filters.live(Sense::Include, i) && hits[i];
            assert(matcher::bit(bits, i) && matcher::bit(selecting, i));
        }
        if matcher::meet(bits, selecting) {
            let i = choose|i: int| #[trigger]
                matcher::bit(bits, i) && matcher::bit(selecting, i);
            assert(filters.live(Sense::Include, i) && hits[i]);
        }
    }
    assert(filters.any_live(Sense::Include) == (selecting != 0)) by {
        if filters.any_live(Sense::Include) {
            let i = choose|i: int| 0 <= i < len && #[trigger] filters.live(Sense::Include, i);
            assert(matcher::bit(selecting, i));
        }
        if selecting != 0 {
            let i = choose|i: int| #[trigger] matcher::bit(selecting, i);
            assert(filters.live(Sense::Include, i));
        }
    }
    assert(filters.all_included(hits) == (selecting != 0 && matcher::covers(bits, selecting))) by {
        if filters.all_included(hits) {
            assert forall|i: int| #[trigger] matcher::bit(selecting, i) implies matcher::bit(
                bits,
                i,
            ) by {
                assert(filters.live(Sense::Include, i));
            }
        }
        if selecting != 0 && matcher::covers(bits, selecting) {
            assert forall|i: int|
                0 <= i < len && #[trigger] filters.live(Sense::Include, i) implies hits[i] by {
                assert(matcher::bit(selecting, i));
            }
        }
    }
    if filters.verdict(line, kinds) is Included {
        filters.first_hit_finds(Sense::Include, hits);
        filters.first_live_finds(Sense::Include);
        let first_hit = |i: int| filters.live(Sense::Include, i) && hits[i];
        let first_live = |i: int| filters.live(Sense::Include, i);
        model::first_index_finds(first_hit, 0, len);
        model::first_index_finds(first_live, 0, len);
        let owner = filters.verdict(line, kinds)->Included_0 as int;
        assert(filters.live(Sense::Include, owner) && hits[owner]);
        assert(matcher::bit(selecting, owner));
        assert forall|i: int| i < owner implies !((#[trigger] matcher::bit(bits, i))
            && matcher::bit(selecting, i)) by {
            if matcher::bit(bits, i) && matcher::bit(selecting, i) {
                assert(filters.live(Sense::Include, i) && hits[i]);
                match filters.combine {
                    Combine::Or => assert(first_hit(i)),
                    Combine::And => assert(first_live(i)),
                }
            }
        }
    }
}

// ---------------------------------------------------------------------------
// Flags

/// Flags that are put back are as they were when they were taken, whatever
/// they have been in between.
pub proof fn flags_come_back(filters: ActiveModel, between: Seq<bool>)
    ensures
        filters.with_flags(between).with_flags(filters.flags()) == filters,
{
    let back = filters.with_flags(between).with_flags(filters.flags());
    assert forall|i: int| 0 <= i < filters.filters.len() implies back.filters[i]
        == filters.filters[i] by {
        assert(filters.flags()[i] == filters.filters[i].enabled);
    }
    assert(back.filters =~= filters.filters);
}

/// What is switched off and remembered comes back as it was. Remembering again
/// while everything is off changes nothing.
pub proof fn remembering_comes_back(filters: ActiveModel)
    ensures
        ({
            let off = ActiveModel {
                remembered: Some(filters.flags()),
                ..filters.all_switched(false)
            };
            &&& !off.flags().contains(true)
            &&& (ActiveModel { remembered: None, ..off.with_flags(filters.flags()) }) == (
            ActiveModel { remembered: None, ..filters })
        }),
{
    let off = ActiveModel { remembered: Some(filters.flags()), ..filters.all_switched(false) };
    assert forall|i: int| 0 <= i < off.filters.len() implies off.flags()[i] == false by {}
    flags_come_back(filters, Seq::new(filters.filters.len(), |i: int| false));
    assert(off.with_flags(filters.flags()).filters =~= filters.filters) by {
        assert(off.filters =~= filters.all_switched(false).filters);
    }
}

/// Flipping a filter twice changes nothing.
pub proof fn flipping_twice_is_nothing(filters: ActiveModel, i: int, enabled: bool)
    requires
        0 <= i < filters.filters.len(),
        filters.filters[i].enabled == enabled,
    ensures
        filters.filter_switched(i, !enabled).filter_switched(i, enabled) == filters,
{
    let back = filters.filter_switched(i, !enabled).filter_switched(i, enabled);
    assert(back.filters =~= filters.filters);
}

/// Turning an including filter into a context filter and back changes nothing,
/// nor does the other way round.
pub proof fn context_and_back_is_nothing(filters: ActiveModel, i: int, other: Sense)
    requires
        0 <= i < filters.filters.len(),
    ensures
        filters.with_sense(i, other).with_sense(i, filters.filters[i].sense) == filters,
{
    let back = filters.with_sense(i, other).with_sense(i, filters.filters[i].sense);
    assert(back.filters =~= filters.filters);
}

/// A filter that is added and then removed leaves the filters as they were, but
/// for a capture of flags, which adding drops.
pub proof fn removing_undoes_adding(filters: ActiveModel, filter: FilterModel)
    requires
        filters.well_formed(),
    ensures
        filters.with_scratch(filter).without(filters.scratch_end()) == (ActiveModel {
            remembered: None,
            ..filters
        }),
{
    filters.scratch_end_divides();
    let back = filters.with_scratch(filter).without(filters.scratch_end());
    assert(back.filters =~= filters.filters);
}

/// Switching filters, or changing their sense, recolours none and moves none.
pub proof fn switching_keeps_colours(filters: ActiveModel, flags: Seq<bool>, i: int)
    requires
        0 <= i < filters.filters.len(),
    ensures
        filters.with_flags(flags).filters[i].style == filters.filters[i].style,
        filters.with_flags(flags).filters[i].predicate == filters.filters[i].predicate,
        filters.with_flags(flags).sources() == filters.sources(),
{
    assert(filters.with_flags(flags).sources() =~= filters.sources());
}

// ---------------------------------------------------------------------------
// Sets

/// A solo that is ended on the same set leaves every set as it was before. The
/// filters are as before too, where the set was on or has no default profile
/// to come on with.
pub proof fn solo_twice_is_nothing(filters: ActiveModel, set: int)
    requires
        filters.well_formed(),
        filters.can_solo(set),
        filters.solo is None,
    ensures
        ({
            let begun = filters.soloed(set);
            let ended = begun.soloed(set);
            &&& begun.can_solo(set)
            &&& ended.sets == filters.sets
            &&& ended.solo is None
            &&& filters.sets[set].enabled || !filters.sets[set].profiles.contains_key(
                DEFAULT_PROFILE@,
            ) ==> ended == filters
        }),
{
    let begun = filters.soloed(set);
    let ended = begun.soloed(set);
    assert(begun.solo->Some_0.snapshot == filters.set_flags());
    assert forall|i: int| 0 <= i < filters.sets.len() implies ended.sets[i] == filters.sets[i] by {
        assert(begun.sets[i] == filters.sets[i].switched(i == set));
        assert(filters.set_flags()[i] == filters.sets[i].enabled);
    }
    assert(ended.sets =~= filters.sets);
}

/// A solo that moves from set to set and is then ended leaves every set as it
/// was before the first solo.
pub proof fn a_moved_solo_goes_back_to_the_start(filters: ActiveModel, first: int, second: int)
    requires
        filters.well_formed(),
        filters.can_solo(first),
        filters.can_solo(second),
        first != second,
        filters.solo is None,
    ensures
        filters.soloed(first).soloed(second).soloed(second).sets == filters.sets,
        filters.soloed(first).soloed(second).soloed(second).solo is None,
{
    let begun = filters.soloed(first);
    let moved = begun.soloed(second);
    let ended = moved.soloed(second);
    assert(begun.solo->Some_0.snapshot == filters.set_flags());
    assert(moved.solo->Some_0.snapshot == filters.set_flags());
    assert forall|i: int| 0 <= i < filters.sets.len() implies ended.sets[i] == filters.sets[i] by {
        assert(begun.sets[i] == filters.sets[i].switched(i == first));
        assert(moved.sets[i] == begun.sets[i].switched(i == second));
        assert(filters.set_flags()[i] == filters.sets[i].enabled);
    }
    assert(ended.sets =~= filters.sets);
}

/// While a set is soloed, only its filters can take effect.
pub proof fn a_solo_silences_the_others(filters: ActiveModel, set: int, i: int)
    requires
        filters.well_formed(),
        filters.can_solo(set),
        filters.solo matches Some(solo) ==> solo.set != set,
        0 <= i < filters.filters.len(),
        filters.filters[i].set != set,
    ensures
        !filters.soloed(set).effective(i),
{
    let begun = filters.soloed(set);
    assert(begun.filters[i].set == filters.filters[i].set);
    assert(begun.sets[filters.filters[i].set].enabled == false);
}

/// A reset leaves nothing for a second reset to do.
pub proof fn reset_twice_is_reset(filters: ActiveModel)
    requires
        filters.well_formed(),
    ensures
        filters.restarted().restarted() == filters.restarted(),
{
    let once = filters.restarted();
    let twice = once.restarted();
    assert forall|i: int| 0 <= i < filters.sets.len() implies twice.sets[i] == once.sets[i] by {}
    assert(twice.sets =~= once.sets);
    assert forall|i: int| 0 <= i < filters.filters.len() implies twice.filters[i]
        == once.filters[i] by {
        assert(0 <= filters.filters[i].set < filters.sets.len());
        same_startup_flag(filters, once, i);
    }
    assert(twice.filters =~= once.filters);
}

/// A reset undoes the switching and the soloing of sets and the applying of
/// profiles.
pub proof fn reset_undoes_switching(
    filters: ActiveModel,
    set: int,
    enabled: bool,
    profile: Seq<char>,
)
    requires
        filters.well_formed(),
        filters.named_set(set),
    ensures
        filters.set_switched(set, enabled).restarted() == filters.restarted(),
        filters.with_profile(set, profile).restarted() == filters.restarted(),
        filters.soloed(set).restarted() == filters.restarted(),
{
    same_after_reset(filters, filters.set_switched(set, enabled));
    same_after_reset(filters, filters.with_profile(set, profile));
    same_after_reset(filters, filters.soloed(set));
}

/// A reset of the filters as the program starts changes nothing.
pub proof fn the_start_is_reset(palette: Option<Seq<Color>>, sets: Seq<LoadedModel>)
    ensures
        ActiveModel::startup(palette, sets).restarted() == ActiveModel::startup(palette, sets),
        ActiveModel::startup(palette, sets).well_formed(),
{
    let loaded = ActiveModel::bare(palette).with_all_loaded(
        model::in_order(model::with_builtin(sets)),
    );
    ActiveModel::loading_ends_well_formed(palette, sets);
    reset_twice_is_reset(loaded);
    let start = ActiveModel::startup(palette, sets);
    assert forall|i: int| 0 <= i < loaded.filters.len() implies (#[trigger] start.filters[i]).set
        == loaded.filters[i].set by {}
    let builtin = choose|i: int|
        1 <= i < loaded.sets.len() && (#[trigger] loaded.sets[i]).origin is BuiltIn;
    assert(start.sets[builtin].origin is BuiltIn);
    assert forall|i: int| 0 <= i < loaded.sets.len() implies (#[trigger] start.sets[i])
        == loaded.sets[i].switched(start.sets[i].enabled) by {}
}

proof fn same_startup_flag(left: ActiveModel, right: ActiveModel, i: int)
    requires
        0 <= i < left.filters.len(),
        left.filters.len() == right.filters.len(),
        right.filters[i] == left.filters[i].switched(right.filters[i].enabled),
        right.sets[left.filters[i].set] == left.sets[left.filters[i].set].switched(
            right.sets[left.filters[i].set].enabled,
        ),
    ensures
        left.startup_flag(i) == right.startup_flag(i),
{
}

/// Filters that differ in the flags of named sets and of their filters alone
/// are the same after a reset.
proof fn same_after_reset(left: ActiveModel, right: ActiveModel)
    requires
        left.well_formed(),
        right == (ActiveModel {
            sets: right.sets,
            filters: right.filters,
            solo: right.solo,
            remembered: right.remembered,
            ..left
        }),
        left.sets.len() == right.sets.len(),
        left.filters.len() == right.filters.len(),
        forall|i: int|
            0 <= i < left.sets.len() ==> (#[trigger] right.sets[i]) == left.sets[i].switched(
                right.sets[i].enabled,
            ),
        forall|i: int|
            0 <= i < left.filters.len() ==> (#[trigger] right.filters[i])
                == left.filters[i].switched(right.filters[i].enabled),
        forall|i: int|
            0 <= i < left.filters.len() && (#[trigger] left.filters[i]).set == 0
                ==> right.filters[i] == left.filters[i],
    ensures
        left.restarted() == right.restarted(),
{
    let a = left.restarted();
    let b = right.restarted();
    assert forall|i: int| 0 <= i < left.sets.len() implies a.sets[i] == b.sets[i] by {
        assert(right.sets[i] == left.sets[i].switched(right.sets[i].enabled));
    }
    assert(a.sets =~= b.sets);
    assert forall|i: int| 0 <= i < left.filters.len() implies a.filters[i] == b.filters[i] by {
        assert(right.filters[i] == left.filters[i].switched(right.filters[i].enabled));
        let set = left.filters[i].set;
        assert(right.sets[set] == left.sets[set].switched(right.sets[set].enabled));
        same_startup_flag(left, right, i);
    }
    assert(a.filters =~= b.filters);
}

/// Unlisting and listing a set again leaves it off, and leaves its filters'
/// flags as they were.
pub proof fn relisting_keeps_filter_flags(filters: ActiveModel, set: int)
    requires
        filters.well_formed(),
        filters.named_set(set),
    ensures
        filters.set_relisted(set, false).set_relisted(set, true).filters == filters.filters,
        !filters.set_relisted(set, false).set_relisted(set, true).sets[set].enabled,
        filters.set_relisted(set, false).set_relisted(set, true).sets[set].listed,
{
}

/// Adopting the scratch set leaves no scratch filter, and gives the name to the
/// new set. The adopted filters stand together in it, in their order, with
/// their flags, colours and patterns.
pub proof fn adopting_moves_the_scratch_filters(
    filters: ActiveModel,
    name: Seq<char>,
    path: Seq<char>,
    i: int,
)
    requires
        filters.well_formed(),
        filters.can_adopt(name),
        0 <= i < filters.scratch_end(),
    ensures
        ({
            let place = filters.adopting_place(name);
            let first = filters.adopting_split(place) - filters.scratch_end();
            let after = filters.adopted(name, path);
            &&& after.named(name) == Some(place)
            &&& after.scratch_end() == 0
            &&& after.filters.len() == filters.filters.len()
            &&& after.filters[first + i] == (FilterModel { set: place, ..filters.filters[i] })
        }),
{
    let place = filters.adopting_place(name);
    let after = filters.adopted(name, path);
    let end = filters.scratch_end();
    let split = filters.adopting_split(place);
    let len = filters.filters.len() as int;
    filters.adopting_keeps_form(name, path);
    filters.scratch_end_divides();
    model::first_index_finds(
        |i: int|
            model::sorts_before(
                crate::filtersets::DEFAULT_PRIORITY,
                name,
                filters.sets[i].priority,
                filters.sets[i].name,
            ),
        1,
        filters.sets.len() as int,
    );
    model::first_index_finds(|i: int| filters.filters[i].set >= place, end, len);
    let named = |i: int| after.sets[i].name == name;
    assert(after.sets[place] == filters.adopting_set(name, path));
    assert(named(place));
    assert forall|j: int| 0 <= j < place implies !(#[trigger] named(j)) by {
        assert(after.sets[j] == filters.sets[j]);
    }
    model::first_index_is(named, 0, after.sets.len() as int, place);
    let behind_scratch = |i: int| after.filters[i].set != 0;
    assert(after.filters[0].set != 0) by {
        if split - end > 0 {
            assert(after.filters[0] == filters.filters[end]);
        } else {
            assert(after.filters[0].set == place);
        }
    }
    assert(behind_scratch(0));
    model::first_index_is(behind_scratch, 0, len, 0);
}

} // verus!
