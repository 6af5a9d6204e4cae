//! What comes of loading, switching and saving sets, told of the single filter
//! and set.

use crate::colour::{Color, Style};
use crate::counting;
use crate::filter::model;
use crate::filter::model::{
    ActiveModel, FilterModel, LoadedModel, OriginModel, PredicateModel, SetModel,
};
use crate::filter::{Background, Combine, Sense};
use crate::syntax::{Kind, KIND_COUNT};
use crate::text;
use vstd::prelude::*;

verus! {

/// What a filter goes by: its name, or else its pattern or its kind's noun.
pub open spec fn goes_by(filter: FilterModel) -> Seq<char> {
    if filter.name is Some {
        filter.name->Some_0
    } else {
        match filter.predicate {
            PredicateModel::Regex(pattern) => pattern,
            PredicateModel::Definition(kind) => kind.noun(),
        }
    }
}

/// The same filter but for whether it is on.
pub open spec fn alike(before: FilterModel, after: FilterModel) -> bool {
    &&& after.predicate == before.predicate
    &&& after.sense == before.sense
    &&& after.style == before.style
    &&& after.name == before.name
    &&& after.set == before.set
}

/// The same set but for whether it is on and listed.
pub open spec fn alike_sets(before: SetModel, after: SetModel) -> bool {
    &&& after.name == before.name
    &&& after.origin == before.origin
    &&& after.priority == before.priority
    &&& after.autoload == before.autoload
    &&& after.description == before.description
    &&& after.profiles == before.profiles
}

/// The same filters and sets in the same order, but for what is on and listed.
pub open spec fn same_but_flags(before: ActiveModel, after: ActiveModel) -> bool {
    &&& after.filters.len() == before.filters.len()
    &&& after.sets.len() == before.sets.len()
    &&& after.palette == before.palette
    &&& after.background == before.background
    &&& after.combine == before.combine
    &&& forall|i: int|
        0 <= i < before.filters.len() ==> alike(before.filters[i], #[trigger] after.filters[i])
    &&& forall|i: int|
        0 <= i < before.sets.len() ==> alike_sets(before.sets[i], #[trigger] after.sets[i])
}

/// Whether a set has a default profile.
pub open spec fn has_default(set: SetModel) -> bool {
    set.profiles.contains_key("default"@)
}

/// Whether a filter of a set is in the set's default profile.
pub open spec fn in_default(set: SetModel, filter: FilterModel) -> bool {
    has_default(set) && set.profiles["default"@].contains(goes_by(filter))
}

// ---------------------------------------------------------------------------
// Starting

/// How many filters a set that a file gives comes with: its own, or one for
/// each kind where it is built in.
pub open spec fn room(loaded: LoadedModel) -> int {
    if loaded.builtin {
        KIND_COUNT as int
    } else {
        loaded.filters.len() as int
    }
}

/// How many filters come with the first `n` sets.
pub open spec fn rooms(given: Seq<LoadedModel>, n: int) -> int
    decreases n,
{
    if n <= 0 {
        0
    } else {
        rooms(given, n - 1) + room(given[n - 1])
    }
}

/// How many of the first `n` filters the user wrote.
pub open spec fn written(filters: ActiveModel, n: int) -> int {
    counting::how_many(|i: int| filters.sets[filters.filters[i].set].origin !is BuiltIn, n)
}

/// The colour of a palette at a place, beginning again at its end.
pub open spec fn cycled(palette: Seq<Color>, place: int) -> Color {
    palette[place % palette.len() as int]
}

/// The filter that a file's filter becomes, but for whether it is on: it keeps
/// what the file says of it, and where the file gives it no colour it has the
/// one behind those of the user's filters that stand before it.
pub open spec fn made_of(filters: ActiveModel, at: int, loaded: LoadedModel, j: int) -> bool {
    let made = filters.filters[at];
    let given = loaded.filters[j];
    &&& made.predicate == given.predicate
    &&& made.sense == given.sense
    &&& made.name == Some(given.name)
    &&& !made.style.dim
    &&& made.style.fg == Some(
        match given.colour {
            Some(colour) => colour,
            None => cycled(filters.palette, written(filters, at)),
        },
    )
}

/// The filter for a kind, but for whether it is on: it includes the lines that
/// start a definition of it, goes by its noun, and has no colour.
pub open spec fn made_of_kind(made: FilterModel, k: int) -> bool {
    &&& made.predicate == PredicateModel::Definition(Kind::ALL[k])
    &&& made.sense == Sense::Include
    &&& made.name == Some(Kind::ALL[k].noun())
    &&& made.style == (Style { fg: None, dim: false })
}

/// What holds of filters that sets have been loaded into: every set's filters
/// stand together behind those of the sets before it, in the order that the
/// file gives them.
pub open spec fn loaded_in_order(filters: ActiveModel, given: Seq<LoadedModel>) -> bool {
    &&& filters.sets.len() == given.len() + 1
    &&& filters.filters.len() == rooms(given, given.len() as int)
    &&& forall|s: int, j: int|
        0 <= s < given.len() && 0 <= j < room(given[s]) ==> {
            let at = #[trigger] placed(given, s, j);
            &&& 0 <= at < filters.filters.len()
            &&& filters.filters[at].set == s + 1
            &&& if given[s].builtin {
                made_of_kind(filters.filters[at], j)
            } else {
                made_of(filters, at, given[s], j)
            }
        }
}

/// Where the filter at `j` of the set at `s` stands.
pub open spec fn placed(given: Seq<LoadedModel>, s: int, j: int) -> int {
    rooms(given, s) + j
}

proof fn rooms_grow(given: Seq<LoadedModel>, s: int, n: int)
    requires
        0 <= s <= n <= given.len(),
    ensures
        0 <= rooms(given, s) <= rooms(given, n),
    decreases n,
{
    if s < n {
        rooms_grow(given, s, n - 1);
    } else if n > 0 {
        rooms_grow(given, n - 1, n - 1);
    }
}

proof fn rooms_alike(given: Seq<LoadedModel>, more: Seq<LoadedModel>, n: int)
    requires
        0 <= n <= given.len() <= more.len(),
        forall|i: int| 0 <= i < given.len() ==> given[i] == more[i],
    ensures
        rooms(given, n) == rooms(more, n),
    decreases n,
{
    if n > 0 {
        rooms_alike(given, more, n - 1);
    }
}

proof fn authored_is_written(filters: ActiveModel, n: int)
    requires
        0 <= n <= filters.filters.len(),
    ensures
        model::authored(filters.filters.take(n), filters.sets) == written(filters, n),
    decreases n,
{
    if n > 0 {
        authored_is_written(filters, n - 1);
        assert(filters.filters.take(n).drop_last() =~= filters.filters.take(n - 1));
        assert(filters.filters.take(n).last() == filters.filters[n - 1]);
    }
}

/// What a count says of filters does not change where more come behind them.
proof fn written_before_more(before: ActiveModel, after: ActiveModel, n: int)
    requires
        0 <= n <= before.filters.len() <= after.filters.len(),
        before.sets.len() <= after.sets.len(),
        forall|i: int|
            0 <= i < before.filters.len() ==> 0 <= (#[trigger] before.filters[i]).set
                < before.sets.len(),
        forall|i: int|
            0 <= i < before.filters.len() ==> (#[trigger] after.filters[i]).set
                == before.filters[i].set,
        forall|i: int|
            0 <= i < before.sets.len() ==> (#[trigger] after.sets[i]).origin
                == before.sets[i].origin,
    ensures
        written(before, n) == written(after, n),
{
    let one = |i: int| before.sets[before.filters[i].set].origin !is BuiltIn;
    let other = |i: int| after.sets[after.filters[i].set].origin !is BuiltIn;
    assert forall|i: int| 0 <= i < n implies #[trigger] one(i) == other(i) by {
        let set = before.filters[i].set;
        assert(after.filters[i].set == set);
        assert(after.sets[set].origin == before.sets[set].origin);
    }
    counting::agreeing_tests_count_alike(one, other, n);
}

proof fn loading_places(palette: Option<Seq<Color>>, given: Seq<LoadedModel>)
    ensures
        loaded_in_order(ActiveModel::bare(palette).with_all_loaded(given), given),
    decreases given.len(),
{
    let bare = ActiveModel::bare(palette);
    let after = bare.with_all_loaded(given);
    bare.all_loaded(given);
    if given.len() > 0 {
        let front = given.drop_last();
        let last = given.last();
        let n = front.len() as int;
        let before = bare.with_all_loaded(front);
        bare.all_loaded(front);
        loading_places(palette, front);
        rooms_alike(front, given, n);
        assert(after == before.with_loaded(last));
        let start = before.filters.len() as int;
        assert(start == rooms(given, n));
        assert(after.filters.len() == start + room(last));
        assert(after.sets[n + 1].origin == last.as_set().origin) by {
            assert(after.sets[bare.sets.len() + n] == given[n].as_set());
        }
        assert forall|i: int| 0 <= i < start implies (#[trigger] after.filters[i])
            == before.filters[i] by {}
        assert forall|s: int, j: int| 0 <= s < given.len() && 0 <= j < room(given[s]) implies {
            let at = #[trigger] placed(given, s, j);
            &&& 0 <= at < after.filters.len()
            &&& after.filters[at].set == s + 1
            &&& if given[s].builtin {
                made_of_kind(after.filters[at], j)
            } else {
                made_of(after, at, given[s], j)
            }
        } by {
            let at = placed(given, s, j);
            rooms_grow(given, s, n);
            if s < n {
                rooms_alike(front, given, s);
                assert(placed(front, s, j) == at);
                assert(front[s] == given[s]);
                assert(after.filters[at] == before.filters[at]);
                written_before_more(before, after, at);
            } else {
                assert(at == start + j);
                if last.builtin {
                    assert(after.filters[at] == model::builtin_filters(before.sets.len() as int)[j]);
                } else {
                    assert(after.filters[at] == before.file_filters(last)[j]);
                    authored_is_written(before, start);
                    assert(before.filters.take(start) =~= before.filters);
                    written_before_more(before, after, start);
                    let test = |i: int| after.sets[after.filters[i].set].origin !is BuiltIn;
                    assert forall|i: int| start <= i < at implies #[trigger] test(i) by {
                        assert(after.filters[i] == before.file_filters(last)[i - start]);
                        assert(after.filters[i].set == n + 1);
                    }
                    counting::all_of_the_rest_count(test, start, at);
                    assert(written(after, at) == before.user_count() + j);
                }
            }
        }
    }
}

/// What the program starts with: the scratch set, on and empty, and behind it
/// every set that was given, in order, on just where it loads by itself and is
/// listed. Every set has its filters, in the order of the file, with the colours
/// of the file or of the palette, which goes on from one of the user's filters
/// to the next; each is on just where its set is and its default profile names
/// it.
pub proof fn what_the_program_starts_with(palette: Option<Seq<Color>>, sets: Seq<LoadedModel>)
    ensures
        ({
            let start = ActiveModel::startup(palette, sets);
            let given = model::in_order(model::with_builtin(sets));
            &&& loaded_in_order(start, given)
            &&& start.sets[0].origin is Scratch
            &&& start.sets[0].name.len() == 0
            &&& start.sets[0].enabled && start.sets[0].listed
            &&& start.solo is None && start.remembered is None
            &&& start.combine == Combine::Or && start.background == Background::Dark
            &&& start.palette == if palette is Some && palette->Some_0.len() > 0 {
                palette->Some_0
            } else {
                Background::Dark.colours()
            }
            &&& forall|s: int|
                0 <= s < given.len() ==> {
                    let made = #[trigger] start.sets[s + 1];
                    &&& made.name == given[s].name
                    &&& made.priority == given[s].priority
                    &&& made.autoload == given[s].autoload
                    &&& made.listed == given[s].listed
                    &&& made.profiles == given[s].profiles
                    &&& made.enabled == (given[s].autoload && given[s].listed)
                    &&& made.origin == if given[s].builtin {
                        OriginModel::BuiltIn
                    } else {
                        OriginModel::File(given[s].path)
                    }
                    &&& given[s].description is Some || !given[s].builtin ==> made.description
                        == given[s].description
                    &&& given[s].builtin ==> made.description is Some
                }
            &&& forall|i: int|
                0 <= i < start.filters.len() ==> {
                    let filter = #[trigger] start.filters[i];
                    &&& 0 < filter.set < start.sets.len()
                    &&& filter.enabled == (start.sets[filter.set].enabled && in_default(
                        start.sets[filter.set],
                        filter,
                    ))
                }
        }),
{
    let given = model::in_order(model::with_builtin(sets));
    let bare = ActiveModel::bare(palette);
    let loaded = bare.with_all_loaded(given);
    let start = ActiveModel::startup(palette, sets);
    bare.all_loaded(given);
    loading_places(palette, given);
    assert(start == loaded.restarted());
    assert forall|s: int| 0 <= s < given.len() implies (#[trigger] start.sets[s + 1])
        == given[s].as_set().switched(given[s].autoload && given[s].listed) by {
        assert(loaded.sets[bare.sets.len() + s] == given[s].as_set());
    }
    assert(loaded.sets[0] == bare.sets[0]);
    assert forall|s: int, j: int| 0 <= s < given.len() && 0 <= j < room(given[s]) implies {
        let at = #[trigger] placed(given, s, j);
        &&& 0 <= at < start.filters.len()
        &&& start.filters[at].set == s + 1
        &&& if given[s].builtin {
            made_of_kind(start.filters[at], j)
        } else {
            made_of(start, at, given[s], j)
        }
    } by {
        let at = placed(given, s, j);
        assert(loaded.filters[at].set == s + 1);
        assert(alike(loaded.filters[at], start.filters[at]));
        written_before_more(loaded, start, at);
    }
    assert forall|i: int| 0 <= i < start.filters.len() implies {
        let filter = #[trigger] start.filters[i];
        &&& 0 < filter.set < start.sets.len()
        &&& filter.enabled == (start.sets[filter.set].enabled && in_default(
            start.sets[filter.set],
            filter,
        ))
    } by {
        every_filter_is_placed(given, i, given.len() as int);
        let (s, j) = choose|s: int, j: int|
            0 <= s < given.len() && 0 <= j < room(given[s]) && i == #[trigger] placed(given, s, j);
        assert(loaded.filters[placed(given, s, j)].set == s + 1);
        assert(start.sets[s + 1].profiles == loaded.sets[s + 1].profiles);
        assert(start.filters[i] == loaded.filters[i].switched(loaded.startup_flag(i)));
        assert(goes_by(start.filters[i]) == loaded.filters[i].display_name());
    }
}

proof fn every_filter_is_placed(given: Seq<LoadedModel>, i: int, n: int)
    requires
        0 <= n <= given.len(),
        0 <= i < rooms(given, n),
    ensures
        exists|s: int, j: int|
            0 <= s < n && 0 <= j < room(given[s]) && i == #[trigger] placed(given, s, j),
    decreases n,
{
    if n > 0 {
        if i < rooms(given, n - 1) {
            every_filter_is_placed(given, i, n - 1);
            let (s, j) = choose|s: int, j: int|
                0 <= s < n - 1 && 0 <= j < room(given[s]) && i == #[trigger] placed(given, s, j);
            assert(0 <= s < n && i == placed(given, s, j));
        } else {
            assert(i == placed(given, n - 1, i - rooms(given, n - 1)));
        }
    }
}

/// Sets stand by priority, the lowest first, and by name where that is the
/// same. None is lost, and none comes twice.
pub proof fn sets_stand_by_priority_and_name(sets: Seq<LoadedModel>, i: int, j: int)
    requires
        0 <= i < j < model::in_order(sets).len(),
    ensures
        ({
            let (one, other) = (model::in_order(sets)[i], model::in_order(sets)[j]);
            &&& one.priority <= other.priority
            &&& one.priority == other.priority ==> !text::before(other.name, one.name)
            &&& model::in_order(sets).to_multiset() == sets.to_multiset()
        }),
{
    model::ordering_sorts(sets);
    let all = model::in_order(sets);
    assert(!all[j].stands_before(all[i]));
}

/// Sets that agree in priority and name stand as they came.
pub proof fn equal_sets_keep_their_order(sets: Seq<LoadedModel>, priority: i32, name: Seq<char>)
    ensures
        ({
            let alike = |set: LoadedModel| set.priority == priority && set.name == name;
            model::in_order(sets).filter(alike) == sets.filter(alike)
        }),
    decreases sets.len(),
{
    let alike = |set: LoadedModel| set.priority == priority && set.name == name;
    reveal(Seq::filter);
    if sets.len() > 0 {
        let front = sets.drop_last();
        let last = sets.last();
        let others = model::in_order(front);
        equal_sets_keep_their_order(front, priority, name);
        model::ordering_sorts(front);
        model::placing_keeps_order(others, last);
        let place = model::place_among(others, last);
        let all = others.insert(place, last);
        let (ahead, behind) = (others.take(place), others.skip(place));
        assert(others =~= ahead + behind);
        assert(all =~= (ahead + seq![last]) + behind);
        Seq::filter_distributes_over_add(ahead, behind, alike);
        Seq::filter_distributes_over_add(ahead + seq![last], behind, alike);
        Seq::filter_distributes_over_add(ahead, seq![last], alike);
        assert(seq![last].drop_last() =~= Seq::empty());
        if alike(last) {
            let test = |i: int| last.stands_before(others[i]);
            model::first_index_finds(test, 0, others.len() as int);
            assert forall|i: int| 0 <= i < behind.len() implies !alike(#[trigger] behind[i]) by {
                let at = others[place];
                let set = others[place + i];
                assert(behind[i] == set);
                assert(test(place));
                if i > 0 {
                    assert(!set.stands_before(at));
                    model::order_carries(
                        last.priority,
                        last.name,
                        at.priority,
                        at.name,
                        set.priority,
                        set.name,
                    );
                }
                if alike(set) {
                    model::order_is_one_way(last.priority, last.name, set.priority, set.name);
                }
            }
            nothing_alike(behind, alike);
            assert(seq![last].filter(alike) =~= seq![last]);
            assert(all.filter(alike) =~= others.filter(alike).push(last));
        } else {
            nothing_alike(seq![last], alike);
            assert(all.filter(alike) =~= others.filter(alike));
        }
    } else {
        assert(model::in_order(sets) =~= sets);
    }
}

proof fn nothing_alike(sets: Seq<LoadedModel>, alike: spec_fn(LoadedModel) -> bool)
    requires
        forall|i: int| 0 <= i < sets.len() ==> !alike(#[trigger] sets[i]),
    ensures
        sets.filter(alike) == Seq::<LoadedModel>::empty(),
    decreases sets.len(),
{
    reveal(Seq::filter);
    if sets.len() > 0 {
        let front = sets.drop_last();
        assert forall|i: int| 0 <= i < front.len() implies !alike(#[trigger] front[i]) by {
            assert(front[i] == sets[i]);
        }
        nothing_alike(front, alike);
        assert(!alike(sets[sets.len() - 1]));
    }
    assert(sets.filter(alike) =~= Seq::<LoadedModel>::empty());
}

/// Where a file gives the built-in set, no other is added; where none does, one
/// of the default priority is, off and listed, without profiles.
pub proof fn the_builtin_set_comes_once(sets: Seq<LoadedModel>)
    ensures
        (exists|i: int| 0 <= i < sets.len() && (#[trigger] sets[i]).builtin) ==> model::with_builtin(
            sets,
        ) == sets,
        (forall|i: int| 0 <= i < sets.len() ==> !(#[trigger] sets[i]).builtin) ==> {
            let all = model::with_builtin(sets);
            let added = all.last();
            &&& all.len() == sets.len() + 1
            &&& all.drop_last() == sets
            &&& added.builtin && added.name == "definitions"@ && added.priority == 50
            &&& !added.autoload && added.listed
            &&& added.profiles == Map::<Seq<char>, Seq<Seq<char>>>::empty()
            &&& added.filters.len() == 0
        },
{
    assert(model::with_builtin(sets).drop_last() =~= sets || model::with_builtin(sets) == sets);
}

// ---------------------------------------------------------------------------
// Adding and removing

/// A filter that is typed goes behind the scratch filters and before all others,
/// and moves nothing else out of its order. It is on, and has the colour behind
/// those of the user's filters.
pub proof fn where_a_typed_filter_goes(
    filters: ActiveModel,
    predicate: PredicateModel,
    sense: Sense,
    style: Style,
)
    requires
        filters.well_formed(),
    ensures
        filters.next_style() == (Style {
            fg: Some(cycled(filters.palette, written(filters, filters.filters.len() as int))),
            dim: false,
        }),
        ({
            let after = filters.with_scratch(ActiveModel::typed(predicate, sense, style));
            let at = counting::how_many(
                |i: int| filters.filters[i].set == 0,
                filters.filters.len() as int,
            );
            &&& after.sets == filters.sets
            &&& after.filters.len() == filters.filters.len() + 1
            &&& 0 <= at <= filters.filters.len()
            &&& forall|i: int| 0 <= i < at ==> #[trigger] after.filters[i] == filters.filters[i]
            &&& forall|i: int|
                at < i < after.filters.len() ==> #[trigger] after.filters[i]
                    == filters.filters[i - 1]
            &&& after.filters[at] == (FilterModel {
                predicate,
                sense,
                enabled: true,
                style,
                name: None,
                set: 0,
            })
            &&& after.remembered is None
            &&& after.solo == filters.solo && after.combine == filters.combine
            &&& after.palette == filters.palette && after.background == filters.background
        }),
{
    let len = filters.filters.len() as int;
    authored_is_written(filters, len);
    assert(filters.filters.take(len) =~= filters.filters);
    filters.scratch_end_divides();
    let end = filters.scratch_end();
    let test = |i: int| filters.filters[i].set == 0;
    assert forall|i: int| 0 <= i < end implies #[trigger] test(i) by {}
    assert forall|i: int| end <= i < len implies !(#[trigger] test(i)) by {
        assert(filters.filters[i].set > 0);
    }
    counting::at_most_all(test, end);
    counting::none_of_the_rest_counts(test, end, len);
}

/// Removing a filter takes that one out and leaves the others in their order;
/// another pattern or another sense changes that of the one filter alone. The
/// user's own filters are those of no built-in set.
pub proof fn what_one_filter_changes(
    filters: ActiveModel,
    i: int,
    k: int,
    predicate: PredicateModel,
    sense: Sense,
)
    requires
        0 <= i < filters.filters.len(),
        0 <= k < filters.filters.len(),
        filters.remembered matches Some(flags) ==> flags.len() == filters.filters.len(),
    ensures
        filters.user_authored(i) <==> filters.sets[filters.filters[i].set].origin !is BuiltIn,
        filters.without(i).filters.len() == filters.filters.len() - 1,
        k < i ==> filters.without(i).filters[k] == filters.filters[k],
        k > i ==> filters.without(i).filters[k - 1] == filters.filters[k],
        filters.without(i).sets == filters.sets,
        filters.remembered is None ==> filters.without(i).remembered is None,
        filters.remembered matches Some(flags) ==> {
            &&& filters.without(i).remembered matches Some(left)
            &&& left.len() == flags.len() - 1
            &&& k < i ==> left[k] == flags[k]
            &&& k > i ==> left[k - 1] == flags[k]
        },
        filters.with_predicate(i, predicate).filters.len() == filters.filters.len(),
        filters.with_predicate(i, predicate).filters[i] == (FilterModel {
            predicate,
            ..filters.filters[i]
        }),
        k != i ==> filters.with_predicate(i, predicate).filters[k] == filters.filters[k],
        filters.with_predicate(i, predicate).remembered == filters.remembered,
        filters.with_sense(i, sense).filters.len() == filters.filters.len(),
        filters.with_sense(i, sense).filters[i] == (FilterModel { sense, ..filters.filters[i] }),
        k != i ==> filters.with_sense(i, sense).filters[k] == filters.filters[k],
        filters.with_sense(i, sense).remembered == filters.remembered,
{
}

/// How many filters there are, and how many rows they have: the user's own, and
/// those of them whose set is listed.
pub proof fn who_is_counted(filters: ActiveModel)
    ensures
        filters.user_count() == written(filters, filters.filters.len() as int),
        model::rows_of(filters.filters, filters.sets) == counting::how_many(
            |i: int|
                filters.sets[filters.filters[i].set].origin !is BuiltIn
                    && filters.sets[filters.filters[i].set].listed,
            filters.filters.len() as int,
        ),
{
    let len = filters.filters.len() as int;
    authored_is_written(filters, len);
    assert(filters.filters.take(len) =~= filters.filters);
    rows_counted(filters, len);
}

proof fn rows_counted(filters: ActiveModel, n: int)
    requires
        0 <= n <= filters.filters.len(),
    ensures
        model::rows_of(filters.filters.take(n), filters.sets) == counting::how_many(
            |i: int|
                filters.sets[filters.filters[i].set].origin !is BuiltIn
                    && filters.sets[filters.filters[i].set].listed,
            n,
        ),
    decreases n,
{
    if n > 0 {
        rows_counted(filters, n - 1);
        assert(filters.filters.take(n).drop_last() =~= filters.filters.take(n - 1));
        assert(filters.filters.take(n).last() == filters.filters[n - 1]);
    }
}

// ---------------------------------------------------------------------------
// Flags

/// Flags land on the filters that they are for, and nothing else changes.
pub proof fn where_flags_land(filters: ActiveModel, flags: Seq<bool>, i: int, enabled: bool)
    requires
        0 <= i < filters.filters.len(),
    ensures
        same_but_flags(filters, filters.with_flags(flags)),
        filters.with_flags(flags).sets == filters.sets,
        filters.with_flags(flags).filters[i].enabled == if i < flags.len() {
            flags[i]
        } else {
            filters.filters[i].enabled
        },
        filters.with_flags(flags).solo == filters.solo,
        filters.with_flags(flags).remembered == filters.remembered,
        filters.flags().len() == filters.filters.len(),
        filters.flags()[i] == filters.filters[i].enabled,
        same_but_flags(filters, filters.all_switched(enabled)),
        filters.all_switched(enabled).filters[i].enabled == enabled,
        filters.all_switched(enabled).sets == filters.sets,
        filters.all_switched(enabled).solo == filters.solo,
        same_but_flags(filters, filters.filter_switched(i, enabled)),
        filters.filter_switched(i, enabled).filters[i].enabled == enabled,
        filters.filter_switched(i, enabled).sets == filters.sets,
        filters.filter_switched(i, enabled).solo == filters.solo,
        filters.filter_switched(i, enabled).remembered == filters.remembered,
        forall|k: int|
            0 <= k < filters.filters.len() && k != i ==> (#[trigger] filters.filter_switched(
                i,
                enabled,
            ).filters[k]) == filters.filters[k],
{
}

/// A profile switches on the filters of its set that it names, and the set's
/// others off; no filter of another set changes, and no set does.
pub proof fn whom_a_profile_switches(filters: ActiveModel, set: int, profile: Seq<char>, i: int)
    requires
        0 <= i < filters.filters.len(),
        filters.sets[set].profiles.contains_key(profile),
    ensures
        same_but_flags(filters, filters.with_profile(set, profile)),
        filters.with_profile(set, profile).sets == filters.sets,
        filters.with_profile(set, profile).solo == filters.solo,
        filters.with_profile(set, profile).remembered == filters.remembered,
        filters.with_profile(set, profile).filters[i].enabled == if filters.filters[i].set == set {
            filters.sets[set].profiles[profile].contains(goes_by(filters.filters[i]))
        } else {
            filters.filters[i].enabled
        },
{
}

/// A set can be switched where it is a named one, and on only where it is
/// listed. Switching it changes its own flag and no other set's; switching it on
/// applies its default profile, where it has one, and switching it off leaves
/// every filter's flag as it is.
pub proof fn what_switching_a_set_does(filters: ActiveModel, set: int, enabled: bool, i: int, s: int)
    requires
        filters.can_switch(set, enabled),
        0 <= i < filters.filters.len(),
        0 <= s < filters.sets.len(),
    ensures
        0 < set < filters.sets.len(),
        enabled ==> filters.sets[set].listed,
        ({
            let after = filters.set_switched(set, enabled);
            &&& same_but_flags(filters, after)
            &&& after.sets[s].listed == filters.sets[s].listed
            &&& after.sets[s].enabled == if s == set {
                enabled
            } else {
                filters.sets[s].enabled
            }
            &&& after.filters[i].enabled == if enabled && filters.filters[i].set == set
                && has_default(filters.sets[set]) {
                in_default(filters.sets[set], filters.filters[i])
            } else {
                filters.filters[i].enabled
            }
            &&& after.solo == filters.solo && after.remembered == filters.remembered
        }),
{
}

/// The sets that cannot be switched: the scratch set, one that is not there, and
/// on, one that is not listed.
pub proof fn which_sets_cannot_be_switched(filters: ActiveModel, set: int, enabled: bool)
    ensures
        !filters.can_switch(set, enabled) <==> set <= 0 || set >= filters.sets.len() || (enabled
            && !filters.sets[set].listed),
        !filters.can_solo(set) <==> set <= 0 || set >= filters.sets.len()
            || !filters.sets[set].listed,
        !filters.named_set(set) <==> set <= 0 || set >= filters.sets.len(),
{
}

/// Listing a set changes that it is listed, and nothing else. Unlisting it also
/// switches it off, and where it is soloed ends the solo: every set that is
/// listed is then as it was before.
pub proof fn what_listing_a_set_does(filters: ActiveModel, set: int, listed: bool, s: int)
    requires
        filters.well_formed(),
        0 < set < filters.sets.len(),
        0 <= s < filters.sets.len(),
    ensures
        ({
            let after = filters.set_relisted(set, listed);
            let ends = !listed && filters.solo is Some && filters.solo->Some_0.set == set;
            &&& same_but_flags(filters, after)
            &&& after.filters == filters.filters
            &&& after.remembered == filters.remembered
            &&& after.sets[s].listed == if s == set {
                listed
            } else {
                filters.sets[s].listed
            }
            &&& after.sets[s].enabled == if s == set {
                filters.sets[s].enabled && listed
            } else if ends {
                filters.solo->Some_0.snapshot[s] && filters.sets[s].listed
            } else {
                filters.sets[s].enabled
            }
            &&& after.solo == if ends {
                None
            } else {
                filters.solo
            }
        }),
{
}

/// A solo leaves one set on, and keeps which sets were on before the first solo.
/// A set that was off comes on with its default profile. Soloing the soloed set
/// again brings every listed set back to what it was then, and leaves the
/// filters' flags.
pub proof fn what_a_solo_does(filters: ActiveModel, set: int, i: int, s: int)
    requires
        filters.well_formed(),
        0 < set < filters.sets.len(),
        0 <= i < filters.filters.len(),
        0 <= s < filters.sets.len(),
    ensures
        ({
            let after = filters.soloed(set);
            let ends = filters.solo is Some && filters.solo->Some_0.set == set;
            &&& same_but_flags(filters, after)
            &&& after.sets[s].listed == filters.sets[s].listed
            &&& after.remembered == filters.remembered
            &&& if ends {
                &&& after.solo is None
                &&& after.sets[s].enabled == (filters.solo->Some_0.snapshot[s]
                    && filters.sets[s].listed)
                &&& after.filters[i].enabled == filters.filters[i].enabled
            } else {
                &&& after.solo matches Some(solo)
                &&& solo.set == set
                &&& solo.snapshot.len() == filters.sets.len()
                &&& solo.snapshot[s] == if filters.solo is Some {
                    filters.solo->Some_0.snapshot[s]
                } else {
                    filters.sets[s].enabled
                }
                &&& after.sets[s].enabled == (s == set)
                &&& after.filters[i].enabled == if filters.filters[i].set == set
                    && !filters.sets[set].enabled && has_default(filters.sets[set]) {
                    in_default(filters.sets[set], filters.filters[i])
                } else {
                    filters.filters[i].enabled
                }
            }
        }),
{
}

/// A reset puts every named set back to how it starts: on just where it loads by
/// itself and is listed, and its filters on just where it is on and its default
/// profile names them. The scratch set is on, its filters stay as they are, and
/// neither a solo nor a capture is left.
pub proof fn what_a_reset_does(filters: ActiveModel, i: int, s: int)
    requires
        filters.well_formed(),
        0 <= i < filters.filters.len(),
        0 <= s < filters.sets.len(),
    ensures
        ({
            let after = filters.restarted();
            let set = filters.sets[filters.filters[i].set];
            &&& same_but_flags(filters, after)
            &&& after.sets[s].listed == filters.sets[s].listed
            &&& after.sets[s].enabled == (s == 0 || (filters.sets[s].autoload
                && filters.sets[s].listed))
            &&& after.filters[i].enabled == if filters.filters[i].set == 0 {
                filters.filters[i].enabled
            } else {
                set.autoload && set.listed && in_default(set, filters.filters[i])
            }
            &&& after.solo is None && after.remembered is None
        }),
{
}

/// A named set is found by its name, the first where several have it; the
/// scratch set has none.
pub proof fn which_set_a_name_means(filters: ActiveModel, name: Seq<char>)
    requires
        filters.well_formed(),
    ensures
        filters.named(name) matches Some(set) ==> {
            &&& 0 < set < filters.sets.len()
            &&& filters.sets[set].name == name
            &&& forall|s: int| 0 <= s < set ==> (#[trigger] filters.sets[s]).name != name
        },
        filters.named(name) is None <==> name.len() == 0 || forall|s: int|
            0 <= s < filters.sets.len() ==> (#[trigger] filters.sets[s]).name != name,
{
    let test = |i: int| filters.sets[i].name == name;
    let len = filters.sets.len() as int;
    model::first_index_finds(test, 0, len);
    let first = model::first_index(test, 0, len);
    if name.len() == 0 {
        assert(name =~= filters.sets[0].name);
        assert(test(0));
        if first > 0 {
            assert(!test(0));
        }
    }
    assert forall|s: int| 0 <= s < first implies (#[trigger] filters.sets[s]).name != name by {
        assert(!test(s));
    }
    if first == 0 && len > 0 {
        assert(test(0));
    }
}

/// Enabling a set by name lists it and switches it on. Its filters are those of
/// the profile that is named, or else of its default one, or else as they were;
/// no other set changes, and no filter of another.
pub proof fn what_enabling_by_name_does(
    filters: ActiveModel,
    set: int,
    profile: Option<Seq<char>>,
    i: int,
    s: int,
)
    requires
        filters.well_formed(),
        0 < set < filters.sets.len(),
        profile matches Some(name) ==> filters.sets[set].profiles.contains_key(name),
        0 <= i < filters.filters.len(),
        0 <= s < filters.sets.len(),
    ensures
        ({
            let after = filters.named_enabled(set, profile);
            let filter = filters.filters[i];
            &&& same_but_flags(filters, after)
            &&& after.sets[set].listed && after.sets[set].enabled
            &&& s != set ==> after.sets[s] == filters.sets[s]
            &&& after.solo == filters.solo && after.remembered == filters.remembered
            &&& after.filters[i].enabled == if filter.set != set {
                filter.enabled
            } else if profile is Some {
                filters.sets[set].profiles[profile->Some_0].contains(goes_by(filter))
            } else if has_default(filters.sets[set]) {
                in_default(filters.sets[set], filter)
            } else {
                filter.enabled
            }
        }),
{
    let listed = filters.set_relisted(set, true);
    let on = listed.set_switched(set, true);
    assert(on.sets[set].profiles == filters.sets[set].profiles);
    assert(goes_by(on.filters[i]) == goes_by(filters.filters[i]));
}

// ---------------------------------------------------------------------------
// Adopting

/// The scratch filters that are on, by what they go by, in their order.
pub open spec fn names_in_order(filters: Seq<FilterModel>, names: Seq<Seq<char>>, at: Seq<int>) -> bool {
    &&& at.len() == names.len()
    &&& forall|k: int|
        0 <= k < at.len() ==> {
            &&& 0 <= #[trigger] at[k] < filters.len()
            &&& filters[at[k]].enabled
            &&& names[k] == goes_by(filters[at[k]])
        }
    &&& forall|k: int, l: int| 0 <= k < l < at.len() ==> #[trigger] at[k] < #[trigger] at[l]
    &&& forall|i: int|
        0 <= i < filters.len() && (#[trigger] filters[i]).enabled ==> at.contains(i)
}

proof fn names_on_are_in_order(filters: Seq<FilterModel>) -> (at: Seq<int>)
    ensures
        names_in_order(filters, ActiveModel::names_on(filters), at),
    decreases filters.len(),
{
    if filters.len() == 0 {
        Seq::empty()
    } else {
        let front = filters.drop_last();
        let before = names_on_are_in_order(front);
        let last = filters.len() - 1;
        let names = ActiveModel::names_on(filters);
        let at = if filters.last().enabled {
            before.push(last)
        } else {
            before
        };
        assert forall|k: int| 0 <= k < at.len() implies {
            &&& 0 <= #[trigger] at[k] < filters.len()
            &&& filters[at[k]].enabled
            &&& names[k] == goes_by(filters[at[k]])
        } by {
            if k < before.len() {
                assert(0 <= before[k] < front.len());
                assert(front[before[k]] == filters[before[k]]);
            }
        }
        assert forall|k: int, l: int| 0 <= k < l < at.len() implies #[trigger] at[k]
            < #[trigger] at[l] by {
            if l < before.len() {
                assert(before[k] < before[l]);
            } else {
                assert(before[k] < front.len());
            }
        }
        assert forall|i: int| 0 <= i < filters.len() && (
        #[trigger] filters[i]).enabled implies at.contains(i) by {
            if i < last {
                assert(front[i].enabled);
                assert(before.contains(i));
                let k = choose|k: int| 0 <= k < before.len() && before[k] == i;
                assert(at[k] == i);
            } else {
                assert(at[before.len() as int] == i);
            }
        }
        at
    }
}

/// Adopting the scratch set makes a new set of the given name, on and listed, of
/// the default priority, behind every set that comes before it and before every
/// other. Its default profile is what was on, in order. The other sets stay as
/// they are, and a solo stays on its set.
pub proof fn what_adopting_makes(filters: ActiveModel, name: Seq<char>, path: Seq<char>, s: int)
    requires
        filters.well_formed(),
        filters.can_adopt(name),
        0 <= s < filters.sets.len(),
    ensures
        ({
            let after = filters.adopted(name, path);
            let place = filters.adopting_place(name);
            let made = after.sets[place];
            let scratch = filters.filters.take(filters.scratch_end());
            &&& 1 <= place <= filters.sets.len()
            &&& after.sets.len() == filters.sets.len() + 1
            &&& after.sets[if s < place {
                s
            } else {
                s + 1
            }] == filters.sets[s]
            &&& 1 <= s < place ==> filters.sets[s].priority < 50 || (filters.sets[s].priority == 50
                && !text::before(name, filters.sets[s].name))
            &&& s >= place ==> filters.sets[s].priority > 50 || (filters.sets[s].priority == 50
                && text::before(name, filters.sets[s].name))
            &&& made.name == name && made.origin == OriginModel::File(path)
            &&& made.priority == 50 && !made.autoload && made.listed && made.enabled
            &&& made.description is None
            &&& if exists|i: int| 0 <= i < scratch.len() && (#[trigger] scratch[i]).enabled {
                &&& made.profiles.dom() == Set::empty().insert("default"@)
                &&& exists|at: Seq<int>|
                    #![trigger names_in_order(scratch, made.profiles["default"@], at)]
                    names_in_order(scratch, made.profiles["default"@], at)
            } else {
                made.profiles == Map::<Seq<char>, Seq<Seq<char>>>::empty()
            }
            &&& after.solo is Some == filters.solo is Some
            &&& filters.solo matches Some(solo) ==> {
                &&& after.solo matches Some(moved)
                &&& after.sets[moved.set] == filters.sets[solo.set]
                &&& moved.snapshot.len() == after.sets.len()
                &&& !moved.snapshot[place]
                &&& moved.snapshot[if s < place {
                    s
                } else {
                    s + 1
                }] == solo.snapshot[s]
            }
            &&& after.remembered is None
            &&& after.combine == filters.combine && after.palette == filters.palette
        }),
{
    let after = filters.adopted(name, path);
    let place = filters.adopting_place(name);
    let scratch = filters.filters.take(filters.scratch_end());
    let len = filters.sets.len() as int;
    let test = |i: int| model::sorts_before(50, name, filters.sets[i].priority, filters.sets[i].name);
    model::first_index_finds(test, 1, len);
    assert(place == model::first_index(test, 1, len));
    if 1 <= s < place {
        assert(!test(s));
    }
    if s >= place {
        assert(test(place));
        if s > place {
            let (a, b) = (filters.sets[place], filters.sets[s]);
            assert(!model::sorts_before(b.priority, b.name, a.priority, a.name));
            model::order_carries(50, name, a.priority, a.name, b.priority, b.name);
        }
    }
    let at = names_on_are_in_order(scratch);
    let names = ActiveModel::names_on(scratch);
    let made = after.sets[place];
    assert(made == filters.adopting_set(name, path));
    if exists|i: int| 0 <= i < scratch.len() && (#[trigger] scratch[i]).enabled {
        let i = choose|i: int| 0 <= i < scratch.len() && (#[trigger] scratch[i]).enabled;
        assert(at.contains(i));
        assert(names.len() > 0);
        assert(made.profiles["default"@] == names);
        assert(made.profiles.dom() =~= Set::empty().insert("default"@));
        assert(names_in_order(scratch, made.profiles["default"@], at));
    } else if names.len() > 0 {
        assert(scratch[at[0]].enabled);
    }
}

/// Adopting is refused just where there is no scratch filter, or a set has the
/// name already. It loses no filter and changes none but for the set it is in:
/// the scratch filters go, in their order, to behind the filters of the sets
/// before the new one, and the others stay in their order.
pub proof fn where_adopted_filters_go(filters: ActiveModel, name: Seq<char>, path: Seq<char>, i: int)
    requires
        filters.well_formed(),
        0 <= i < filters.filters.len(),
    ensures
        filters.can_adopt(name) <==> {
            &&& exists|k: int| 0 <= k < filters.filters.len() && (#[trigger] filters.filters[k]).set == 0
            &&& forall|s: int| 0 <= s < filters.sets.len() ==> (#[trigger] filters.sets[s]).name != name
        },
        filters.can_adopt(name) ==> {
            let after = filters.adopted(name, path);
            let place = filters.adopting_place(name);
            let scratch = counting::how_many(
                |k: int| filters.filters[k].set == 0,
                filters.filters.len() as int,
            );
            let ahead = counting::how_many(
                |k: int| 0 < filters.filters[k].set < place,
                filters.filters.len() as int,
            );
            let goes_to = if filters.filters[i].set == 0 {
                i + ahead
            } else if filters.filters[i].set < place {
                i - scratch
            } else {
                i
            };
            let set = filters.filters[i].set;
            &&& after.filters.len() == filters.filters.len()
            &&& 0 <= goes_to < after.filters.len()
            &&& after.filters[goes_to] == (FilterModel {
                set: if set == 0 {
                    place
                } else if set < place {
                    set
                } else {
                    set + 1
                },
                ..filters.filters[i]
            })
        },
{
    let len = filters.filters.len() as int;
    filters.scratch_end_divides();
    let end = filters.scratch_end();
    if end > 0 {
        assert(filters.filters[0].set == 0);
    }
    if filters.can_adopt(name) {
        let place = filters.adopting_place(name);
        let sorts = |k: int| model::sorts_before(50, name, filters.sets[k].priority, filters.sets[k].name);
        model::first_index_finds(sorts, 1, filters.sets.len() as int);
        let behind = |k: int| filters.filters[k].set >= place;
        model::first_index_finds(behind, end, len);
        let split = filters.adopting_split(place);
        assert forall|k: int| end <= k < split implies 0 < (#[trigger] filters.filters[k]).set < place by {
            assert(!behind(k));
        }
        assert forall|k: int| split <= k < len implies (#[trigger] filters.filters[k]).set >= place by {
            assert(behind(split));
        }
        let first = |k: int| filters.filters[k].set == 0;
        assert forall|k: int| 0 <= k < end implies #[trigger] first(k) by {}
        assert forall|k: int| end <= k < len implies !(#[trigger] first(k)) by {
            assert(filters.filters[k].set > 0);
        }
        counting::at_most_all(first, end);
        counting::none_of_the_rest_counts(first, end, len);
        let middle = |k: int| 0 < filters.filters[k].set < place;
        assert forall|k: int| 0 <= k < end implies !(#[trigger] middle(k)) by {
            assert(filters.filters[k].set == 0);
        }
        counting::at_most_all(middle, end);
        assert forall|k: int| end <= k < split implies #[trigger] middle(k) by {
            assert(0 < filters.filters[k].set < place);
        }
        counting::all_of_the_rest_count(middle, end, split);
        assert forall|k: int| split <= k < len implies !(#[trigger] middle(k)) by {
            assert(filters.filters[k].set >= place);
        }
        counting::none_of_the_rest_counts(middle, split, len);
    }
}

} // verus!
