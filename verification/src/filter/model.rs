//! What the filters mean: the sets, the filters and the flags as values, and
//! every operation on them as a function from one value to the next.

use vstd::prelude::*;

use crate::colour;
use crate::colour::{Color, Style};
use crate::filter::sets::{DEFINITIONS_DESCRIPTION, DEFINITIONS_SET};
use crate::filter::{Background, Combine, Sense, Verdict};
use crate::filtersets::DEFAULT_PRIORITY;
use crate::pattern;
use crate::syntax::{Kind, KindSet, KIND_COUNT};

verus! {

/// The profile that switching a set on applies.
pub const DEFAULT_PROFILE: &'static str = "default";

/// A regular expression that matches nothing: an empty character class. It
/// stands in for a definition among the compiled patterns.
pub const NEVER: &'static str = "[^\\s\\S]";

/// What a filter tests a line against.
pub enum PredicateModel {
    /// The line matches a pattern.
    Regex(Seq<char>),
    /// The line starts a definition of a kind.
    Definition(Kind),
}

impl PredicateModel {
    /// What a predicate is shown as.
    pub open spec fn display(self) -> Seq<char> {
        match self {
            PredicateModel::Regex(pattern) => pattern,
            PredicateModel::Definition(kind) => kind.noun(),
        }
    }

    /// The pattern a predicate puts among the compiled ones.
    pub open spec fn source(self) -> Seq<char> {
        match self {
            PredicateModel::Regex(pattern) => pattern,
            PredicateModel::Definition(_) => NEVER@,
        }
    }

    /// The name a predicate has in a cache of scans. Definitions of different
    /// kinds have different ones.
    pub open spec fn key(self) -> Seq<char> {
        match self {
            PredicateModel::Regex(pattern) => pattern,
            PredicateModel::Definition(kind) => seq!['\u{1}'] + kind.noun(),
        }
    }

    /// Whether a predicate holds of a line that starts definitions of `kinds`.
    pub open spec fn holds(self, line: Seq<char>, kinds: KindSet) -> bool {
        match self {
            PredicateModel::Regex(pattern) => pattern::pattern_matches(pattern, line),
            PredicateModel::Definition(kind) => kinds.has(kind),
        }
    }
}

/// One filter.
#[verifier::ext_equal]
pub struct FilterModel {
    pub predicate: PredicateModel,
    pub sense: Sense,
    pub enabled: bool,
    pub style: Style,
    pub name: Option<Seq<char>>,
    pub set: int,
}

impl FilterModel {
    /// What a filter is called: its name, or what its predicate is shown as.
    pub open spec fn display_name(self) -> Seq<char> {
        match self.name {
            Some(name) => name,
            None => self.predicate.display(),
        }
    }

    /// The same filter with its flag set to `enabled`.
    pub open spec fn switched(self, enabled: bool) -> FilterModel {
        FilterModel { enabled, ..self }
    }
}

/// Where a set came from.
pub enum OriginModel {
    Scratch,
    File(Seq<char>),
    BuiltIn,
}

/// One set of filters.
#[verifier::ext_equal]
pub struct SetModel {
    pub name: Seq<char>,
    pub origin: OriginModel,
    pub priority: i32,
    pub autoload: bool,
    pub listed: bool,
    pub enabled: bool,
    pub description: Option<Seq<char>>,
    pub profiles: Map<Seq<char>, Seq<Seq<char>>>,
}

impl SetModel {
    /// The same set with its flag set to `enabled`.
    pub open spec fn switched(self, enabled: bool) -> SetModel {
        SetModel { enabled, ..self }
    }

    /// Whether the set is on when the program starts, as it is listed now.
    pub open spec fn starts_on(self) -> bool {
        self.autoload && self.listed
    }
}

/// A solo in force: which set, and every set's flag from before it.
#[verifier::ext_equal]
pub struct SoloModel {
    pub set: int,
    pub snapshot: Seq<bool>,
}

/// All filters and the state they are in.
#[verifier::ext_equal]
pub struct ActiveModel {
    pub sets: Seq<SetModel>,
    pub solo: Option<SoloModel>,
    pub palette: Seq<Color>,
    pub background: Background,
    pub combine: Combine,
    pub filters: Seq<FilterModel>,
    pub remembered: Option<Seq<bool>>,
}

/// The first number from `from` up to `to` of which `test` holds, or `to`.
pub open spec fn first_index(test: spec_fn(int) -> bool, from: int, to: int) -> int
    decreases to - from,
{
    if from >= to {
        to
    } else if test(from) {
        from
    } else {
        first_index(test, from + 1, to)
    }
}

/// The place of a set by priority and then by name.
pub open spec fn sorts_before(
    priority: i32,
    name: Seq<char>,
    other_priority: i32,
    other_name: Seq<char>,
) -> bool {
    priority < other_priority || (priority == other_priority && crate::text::before(
        name,
        other_name,
    ))
}

/// The filters of `filters` that the user wrote: those of no built-in set.
pub open spec fn authored(filters: Seq<FilterModel>, sets: Seq<SetModel>) -> nat
    decreases filters.len(),
{
    if filters.len() == 0 {
        0
    } else {
        authored(filters.drop_last(), sets) + if sets[filters.last().set].origin is BuiltIn {
            0nat
        } else {
            1nat
        }
    }
}

/// The filters of `filters` that have a row of their own: those that the user
/// wrote, in a listed set.
pub open spec fn rows_of(filters: Seq<FilterModel>, sets: Seq<SetModel>) -> nat
    decreases filters.len(),
{
    if filters.len() == 0 {
        0
    } else {
        let set = sets[filters.last().set];
        rows_of(filters.drop_last(), sets) + if set.origin is BuiltIn || !set.listed {
            0nat
        } else {
            1nat
        }
    }
}

impl ActiveModel {
    /// What holds of the filters at all times.
    pub open spec fn well_formed(self) -> bool {
        &&& self.palette.len() > 0
        &&& self.sets.len() > 0
        &&& self.sets[0].origin is Scratch
        &&& self.sets[0].name == Seq::<char>::empty()
        &&& self.sets[0].listed
        // A set that is on is listed.
        &&& forall|i: int|
            0 <= i < self.sets.len() && (#[trigger] self.sets[i]).enabled ==> self.sets[i].listed
        // The named sets stand in their order.
        &&& forall|i: int, j: int|
            1 <= i < j < self.sets.len() ==> !sorts_before(
                (#[trigger] self.sets[j]).priority,
                self.sets[j].name,
                (#[trigger] self.sets[i]).priority,
                self.sets[i].name,
            )
        // The built-in set is there.
        &&& exists|i: int| 1 <= i < self.sets.len() && (#[trigger] self.sets[i]).origin is BuiltIn
        // Every filter is in a set, and the filters stand set by set.
        &&& forall|i: int|
            0 <= i < self.filters.len() ==> 0 <= (#[trigger] self.filters[i]).set < self.sets.len()
        &&& forall|i: int, j: int|
            0 <= i < j < self.filters.len() ==> (#[trigger] self.filters[i]).set <= (
            #[trigger] self.filters[j]).set
        // A solo is of a listed set, and knows every set's flag.
        &&& self.solo matches Some(solo) ==> {
            &&& 0 < solo.set < self.sets.len()
            &&& self.sets[solo.set].listed
            &&& solo.snapshot.len() == self.sets.len()
        }
        // A capture knows every filter's flag.
        &&& self.remembered matches Some(flags) ==> flags.len() == self.filters.len()
    }

    /// Whether the filter at `i` takes effect: it is on, and its set is.
    pub open spec fn effective(self, i: int) -> bool {
        self.filters[i].enabled && self.sets[self.filters[i].set].enabled
    }

    /// Whether the user wrote the filter at `i`.
    pub open spec fn user_authored(self, i: int) -> bool {
        0 <= i < self.filters.len() && !(self.sets[self.filters[i].set].origin is BuiltIn)
    }

    /// How many filters the user wrote.
    pub open spec fn user_count(self) -> nat {
        authored(self.filters, self.sets)
    }

    /// The colour for the filter at `position`, which begins again when the
    /// palette runs out.
    pub open spec fn palette_colour(self, position: int) -> Color {
        self.palette[position % self.palette.len() as int]
    }

    /// The style of the next filter that is added.
    pub open spec fn next_style(self) -> Style {
        colour::coloured_style(self.palette_colour(self.user_count() as int))
    }

    /// The flags of the filters.
    pub open spec fn flags(self) -> Seq<bool> {
        Seq::new(self.filters.len(), |i: int| self.filters[i].enabled)
    }

    /// The flags of the sets.
    pub open spec fn set_flags(self) -> Seq<bool> {
        Seq::new(self.sets.len(), |i: int| self.sets[i].enabled)
    }

    /// The patterns of the filters, in their order.
    pub open spec fn sources(self) -> Seq<Seq<char>> {
        Seq::new(self.filters.len(), |i: int| self.filters[i].predicate.source())
    }

    /// The cache names of the filters, in their order.
    pub open spec fn keys(self) -> Seq<Seq<char>> {
        Seq::new(self.filters.len(), |i: int| self.filters[i].predicate.key())
    }

    // -----------------------------------------------------------------------
    // Verdicts

    /// Whether the filter at `i` is one of this sense and takes effect.
    pub open spec fn live(self, sense: Sense, i: int) -> bool {
        self.effective(i) && self.filters[i].sense == sense
    }

    /// Whether a filter of this sense takes effect.
    pub open spec fn any_live(self, sense: Sense) -> bool {
        exists|i: int| 0 <= i < self.filters.len() && #[trigger] self.live(sense, i)
    }

    /// Whether a filter of this sense takes effect and hits.
    pub open spec fn any_hit(self, sense: Sense, hits: Seq<bool>) -> bool {
        exists|i: int| 0 <= i < self.filters.len() && #[trigger] self.live(sense, i) && hits[i]
    }

    /// The first filter of this sense that takes effect and hits.
    pub open spec fn first_hit(self, sense: Sense, hits: Seq<bool>) -> int {
        first_index(|i: int| self.live(sense, i) && hits[i], 0, self.filters.len() as int)
    }

    /// The first filter of this sense that takes effect.
    pub open spec fn first_live(self, sense: Sense) -> int {
        first_index(|i: int| self.live(sense, i), 0, self.filters.len() as int)
    }

    /// Whether every including filter that takes effect hits, and there is one.
    pub open spec fn all_included(self, hits: Seq<bool>) -> bool {
        self.any_live(Sense::Include) && forall|i: int|
            0 <= i < self.filters.len() && #[trigger] self.live(Sense::Include, i) ==> hits[i]
    }

    /// Whether the including filters select a line with these hits.
    pub open spec fn selected(self, hits: Seq<bool>) -> bool {
        match self.combine {
            Combine::Or => self.any_hit(Sense::Include, hits),
            Combine::And => self.all_included(hits),
        }
    }

    /// What includes a line with these hits: an including filter before a
    /// context filter, and the first one of them.
    pub open spec fn include_verdict(self, hits: Seq<bool>) -> Verdict {
        if self.selected(hits) {
            match self.combine {
                Combine::Or => Verdict::Included(self.first_hit(Sense::Include, hits) as usize),
                Combine::And => Verdict::Included(self.first_live(Sense::Include) as usize),
            }
        } else if self.any_hit(Sense::Context, hits) {
            Verdict::Context(self.first_hit(Sense::Context, hits) as usize)
        } else {
            Verdict::Unmatched
        }
    }

    /// The verdict on a line with these hits. Exclusion overrides inclusion.
    pub open spec fn decided(self, hits: Seq<bool>) -> Verdict {
        if self.any_hit(Sense::Exclude, hits) {
            Verdict::Excluded
        } else {
            self.include_verdict(hits)
        }
    }

    /// Which filters' predicates hold of a line.
    pub open spec fn hits(self, line: Seq<char>, kinds: KindSet) -> Seq<bool> {
        Seq::new(self.filters.len(), |i: int| self.filters[i].predicate.holds(line, kinds))
    }

    /// The verdict on a line that starts definitions of `kinds`.
    pub open spec fn verdict(self, line: Seq<char>, kinds: KindSet) -> Verdict {
        self.decided(self.hits(line, kinds))
    }

    /// Whether a filter that marks lines takes effect.
    pub open spec fn any_including(self) -> bool {
        self.any_live(Sense::Include) || self.any_live(Sense::Context)
    }

    /// The style for a line with this verdict, where it is not left alone.
    pub open spec fn style_for(self, verdict: Verdict) -> Option<Style> {
        match verdict {
            Verdict::Included(i) | Verdict::Context(i) => if i < self.filters.len() {
                Some(self.filters[i as int].style)
            } else {
                None
            },
            Verdict::Unmatched => if self.any_including() {
                Some(self.background.dim())
            } else {
                None
            },
            Verdict::Excluded => None,
        }
    }

    // -----------------------------------------------------------------------
    // Flags

    /// Every filter's flag as `flags` has it, as far as that goes.
    pub open spec fn with_flags(self, flags: Seq<bool>) -> ActiveModel {
        ActiveModel {
            filters: Seq::new(
                self.filters.len(),
                |i: int|
                    if i < flags.len() {
                        self.filters[i].switched(flags[i])
                    } else {
                        self.filters[i]
                    },
            ),
            ..self
        }
    }

    /// Every filter switched to `enabled`.
    pub open spec fn all_switched(self, enabled: bool) -> ActiveModel {
        self.with_flags(Seq::new(self.filters.len(), |i: int| enabled))
    }

    /// The filter at `i` switched to `enabled`.
    pub open spec fn filter_switched(self, i: int, enabled: bool) -> ActiveModel {
        ActiveModel { filters: self.filters.update(i, self.filters[i].switched(enabled)), ..self }
    }

    /// Every set's flag as `flags` has it, but for sets that are not listed.
    pub open spec fn sets_restored(self, flags: Seq<bool>) -> ActiveModel {
        ActiveModel {
            sets: Seq::new(
                self.sets.len(),
                |i: int|
                    if i < flags.len() {
                        self.sets[i].switched(flags[i] && self.sets[i].listed)
                    } else {
                        self.sets[i]
                    },
            ),
            ..self
        }
    }

    /// The set's filters on that `members` names, and its others off.
    pub open spec fn with_members(self, set: int, members: Seq<Seq<char>>) -> ActiveModel {
        ActiveModel {
            filters: Seq::new(
                self.filters.len(),
                |i: int|
                    if self.filters[i].set == set {
                        self.filters[i].switched(members.contains(self.filters[i].display_name()))
                    } else {
                        self.filters[i]
                    },
            ),
            ..self
        }
    }

    /// A profile of a set applied, where the set has it.
    pub open spec fn with_profile(self, set: int, profile: Seq<char>) -> ActiveModel {
        if self.sets[set].profiles.contains_key(profile) {
            self.with_members(set, self.sets[set].profiles[profile])
        } else {
            self
        }
    }

    /// Whether there is a named set at `set`.
    pub open spec fn named_set(self, set: int) -> bool {
        0 < set < self.sets.len()
    }

    /// Whether `set_enabled_set` does anything.
    pub open spec fn can_switch(self, set: int, enabled: bool) -> bool {
        self.named_set(set) && (enabled ==> self.sets[set].listed)
    }

    /// A named set switched. Switching on applies the default profile.
    pub open spec fn set_switched(self, set: int, enabled: bool) -> ActiveModel {
        let flagged = ActiveModel {
            sets: self.sets.update(set, self.sets[set].switched(enabled)),
            ..self
        };
        if enabled {
            flagged.with_profile(set, DEFAULT_PROFILE@)
        } else {
            flagged
        }
    }

    /// A named set listed, or unlisted: unlisting switches it off, and ends a
    /// solo of it.
    pub open spec fn set_relisted(self, set: int, listed: bool) -> ActiveModel {
        let flagged = ActiveModel {
            sets: self.sets.update(
                set,
                SetModel { listed, enabled: self.sets[set].enabled && listed, ..self.sets[set] },
            ),
            ..self
        };
        match self.solo {
            Some(solo) => if !listed && solo.set == set {
                ActiveModel { solo: None, ..flagged.sets_restored(solo.snapshot) }
            } else {
                flagged
            },
            None => flagged,
        }
    }

    /// Only `set` on, with its default profile where it was off.
    pub open spec fn only_set(self, set: int) -> ActiveModel {
        let flagged = ActiveModel {
            sets: Seq::new(self.sets.len(), |i: int| self.sets[i].switched(i == set)),
            ..self
        };
        if self.sets[set].enabled {
            flagged
        } else {
            flagged.with_profile(set, DEFAULT_PROFILE@)
        }
    }

    /// Whether `solo` does anything.
    pub open spec fn can_solo(self, set: int) -> bool {
        self.named_set(set) && self.sets[set].listed
    }

    /// A solo of `set` begun, moved to it, or ended where `set` has it already.
    pub open spec fn soloed(self, set: int) -> ActiveModel {
        match self.solo {
            Some(solo) => if solo.set == set {
                ActiveModel { solo: None, ..self.sets_restored(solo.snapshot) }
            } else {
                ActiveModel {
                    solo: Some(SoloModel { set, snapshot: solo.snapshot }),
                    ..self.only_set(set)
                }
            },
            None => ActiveModel {
                solo: Some(SoloModel { set, snapshot: self.set_flags() }),
                ..self.only_set(set)
            },
        }
    }

    /// The flag that a filter of a named set has when the program starts.
    pub open spec fn startup_flag(self, i: int) -> bool {
        let set = self.sets[self.filters[i].set];
        set.starts_on() && set.profiles.contains_key(DEFAULT_PROFILE@)
            && set.profiles[DEFAULT_PROFILE@].contains(self.filters[i].display_name())
    }

    /// Every named set in its startup state, as it is listed now. The flags of
    /// the scratch filters stay.
    pub open spec fn restarted(self) -> ActiveModel {
        ActiveModel {
            sets: Seq::new(
                self.sets.len(),
                |i: int| self.sets[i].switched(i == 0 || self.sets[i].starts_on()),
            ),
            solo: None,
            filters: Seq::new(
                self.filters.len(),
                |i: int|
                    if self.filters[i].set == 0 {
                        self.filters[i]
                    } else {
                        self.filters[i].switched(self.startup_flag(i))
                    },
            ),
            remembered: None,
            ..self
        }
    }

    /// A named set listed and switched on, and a profile of it applied where
    /// one is named.
    pub open spec fn named_enabled(self, set: int, profile: Option<Seq<char>>) -> ActiveModel {
        let on = self.set_relisted(set, true).set_switched(set, true);
        match profile {
            Some(name) => on.with_profile(set, name),
            None => on,
        }
    }

    /// The set that a name stands for. The scratch set has no name.
    pub open spec fn named(self, name: Seq<char>) -> Option<int> {
        let first = first_index(
            |i: int| self.sets[i].name == name,
            0,
            self.sets.len() as int,
        );
        if 0 < first < self.sets.len() {
            Some(first)
        } else {
            None
        }
    }

    // -----------------------------------------------------------------------
    // Filters

    /// Where the scratch filters end.
    pub open spec fn scratch_end(self) -> int {
        first_index(|i: int| self.filters[i].set != 0, 0, self.filters.len() as int)
    }

    /// A filter put behind the other scratch filters.
    pub open spec fn with_scratch(self, filter: FilterModel) -> ActiveModel {
        ActiveModel {
            filters: self.filters.insert(self.scratch_end(), filter),
            remembered: None,
            ..self
        }
    }

    /// A filter that is typed: on, in the scratch set, and without a name.
    pub open spec fn typed(predicate: PredicateModel, sense: Sense, style: Style) -> FilterModel {
        FilterModel { predicate, sense, enabled: true, style, name: None, set: 0 }
    }

    /// The filter at `i` taken out, and out of a capture too.
    pub open spec fn without(self, i: int) -> ActiveModel {
        ActiveModel {
            filters: self.filters.remove(i),
            remembered: match self.remembered {
                Some(flags) => Some(flags.remove(i)),
                None => None,
            },
            ..self
        }
    }

    /// The filter at `i` with another predicate.
    pub open spec fn with_predicate(self, i: int, predicate: PredicateModel) -> ActiveModel {
        ActiveModel {
            filters: self.filters.update(i, FilterModel { predicate, ..self.filters[i] }),
            ..self
        }
    }

    /// The filter at `i` with another sense.
    pub open spec fn with_sense(self, i: int, sense: Sense) -> ActiveModel {
        ActiveModel {
            filters: self.filters.update(i, FilterModel { sense, ..self.filters[i] }),
            ..self
        }
    }
}

// ---------------------------------------------------------------------------
// Loading

/// One filter as a file gives it.
#[verifier::ext_equal]
pub struct LoadedFilterModel {
    pub name: Seq<char>,
    pub predicate: PredicateModel,
    pub sense: Sense,
    pub colour: Option<Color>,
}

/// One set as a file gives it.
#[verifier::ext_equal]
pub struct LoadedModel {
    pub name: Seq<char>,
    pub path: Seq<char>,
    pub priority: i32,
    pub autoload: bool,
    pub listed: bool,
    pub description: Option<Seq<char>>,
    pub profiles: Map<Seq<char>, Seq<Seq<char>>>,
    pub filters: Seq<LoadedFilterModel>,
    pub builtin: bool,
}

impl LoadedModel {
    /// The built-in set where no file names it.
    pub open spec fn builtin_default() -> LoadedModel {
        LoadedModel {
            name: DEFINITIONS_SET@,
            path: Seq::empty(),
            priority: DEFAULT_PRIORITY,
            autoload: false,
            listed: true,
            description: None,
            profiles: Map::empty(),
            filters: Seq::empty(),
            builtin: true,
        }
    }

    /// The set that is made of this one, off at first.
    pub open spec fn as_set(self) -> SetModel {
        SetModel {
            name: self.name,
            origin: if self.builtin {
                OriginModel::BuiltIn
            } else {
                OriginModel::File(self.path)
            },
            priority: self.priority,
            autoload: self.autoload,
            listed: self.listed,
            enabled: false,
            description: if self.builtin && self.description is None {
                Some(DEFINITIONS_DESCRIPTION@)
            } else {
                self.description
            },
            profiles: self.profiles,
        }
    }

    /// Whether this set stands before another: by priority, then by name.
    pub open spec fn stands_before(self, other: LoadedModel) -> bool {
        sorts_before(self.priority, self.name, other.priority, other.name)
    }
}

/// The place of a set among sets in order: behind those it does not stand
/// before.
pub open spec fn place_among(sets: Seq<LoadedModel>, set: LoadedModel) -> int {
    first_index(|i: int| set.stands_before(sets[i]), 0, sets.len() as int)
}

/// Sets in their order. Sets of one priority and name keep the order they
/// came in.
pub open spec fn in_order(sets: Seq<LoadedModel>) -> Seq<LoadedModel>
    decreases sets.len(),
{
    if sets.len() == 0 {
        Seq::empty()
    } else {
        let others = in_order(sets.drop_last());
        others.insert(place_among(others, sets.last()), sets.last())
    }
}

/// Sets with the built-in one among them.
pub open spec fn with_builtin(sets: Seq<LoadedModel>) -> Seq<LoadedModel> {
    if exists|i: int| 0 <= i < sets.len() && (#[trigger] sets[i]).builtin {
        sets
    } else {
        sets.push(LoadedModel::builtin_default())
    }
}

/// The built-in filters: one for each kind of definition, without a colour.
pub open spec fn builtin_filters(set: int) -> Seq<FilterModel> {
    Seq::new(
        KIND_COUNT as nat,
        |k: int|
            FilterModel {
                predicate: PredicateModel::Definition(Kind::ALL[k]),
                sense: Sense::Include,
                enabled: false,
                style: colour::plain_style(),
                name: Some(Kind::ALL[k].noun()),
                set,
            },
    )
}

impl ActiveModel {
    /// The filters of a set that a file gives, with the colours that the file
    /// gives or that come next.
    pub open spec fn file_filters(self, loaded: LoadedModel) -> Seq<FilterModel> {
        Seq::new(
            loaded.filters.len(),
            |j: int|
                FilterModel {
                    predicate: loaded.filters[j].predicate,
                    sense: loaded.filters[j].sense,
                    enabled: false,
                    style: colour::coloured_style(
                        match loaded.filters[j].colour {
                            Some(colour) => colour,
                            None => self.palette_colour(self.user_count() + j),
                        },
                    ),
                    name: Some(loaded.filters[j].name),
                    set: self.sets.len() as int,
                },
        )
    }

    /// One more set, behind the others, with its filters behind theirs.
    pub open spec fn with_loaded(self, loaded: LoadedModel) -> ActiveModel {
        ActiveModel {
            sets: self.sets.push(loaded.as_set()),
            filters: self.filters + if loaded.builtin {
                builtin_filters(self.sets.len() as int)
            } else {
                self.file_filters(loaded)
            },
            ..self
        }
    }

    /// More sets, one behind the other.
    pub open spec fn with_all_loaded(self, sets: Seq<LoadedModel>) -> ActiveModel
        decreases sets.len(),
    {
        if sets.len() == 0 {
            self
        } else {
            self.with_all_loaded(sets.drop_last()).with_loaded(sets.last())
        }
    }

    /// The scratch set and nothing else.
    pub open spec fn bare(palette: Option<Seq<Color>>) -> ActiveModel {
        ActiveModel {
            sets: seq![crate::filter::sets::scratch_model()],
            solo: None,
            palette: match palette {
                Some(colours) => if colours.len() == 0 {
                    Background::Dark.colours()
                } else {
                    colours
                },
                None => Background::Dark.colours(),
            },
            background: Background::Dark,
            combine: Combine::Or,
            filters: Seq::empty(),
            remembered: None,
        }
    }

    /// The filters as the program starts: the scratch set, then the sets in
    /// their order, the built-in one among them, each in its startup state.
    pub open spec fn startup(
        palette: Option<Seq<Color>>,
        sets: Seq<LoadedModel>,
    ) -> ActiveModel {
        ActiveModel::bare(palette).with_all_loaded(in_order(with_builtin(sets))).restarted()
    }

    // -----------------------------------------------------------------------
    // Adopting

    /// The names of the filters of `filters` that are on.
    pub open spec fn names_on(filters: Seq<FilterModel>) -> Seq<Seq<char>>
        decreases filters.len(),
    {
        if filters.len() == 0 {
            Seq::empty()
        } else if filters.last().enabled {
            ActiveModel::names_on(filters.drop_last()).push(filters.last().display_name())
        } else {
            ActiveModel::names_on(filters.drop_last())
        }
    }

    /// The set that the scratch filters become: on, and with a default profile
    /// of the filters that are on now.
    pub open spec fn adopting_set(self, name: Seq<char>, path: Seq<char>) -> SetModel {
        let members = ActiveModel::names_on(self.filters.take(self.scratch_end()));
        SetModel {
            name,
            origin: OriginModel::File(path),
            priority: DEFAULT_PRIORITY,
            autoload: false,
            listed: true,
            enabled: true,
            description: None,
            profiles: if members.len() == 0 {
                Map::empty()
            } else {
                Map::empty().insert(DEFAULT_PROFILE@, members)
            },
        }
    }

    /// The place of a new set of the default priority among the sets.
    pub open spec fn adopting_place(self, name: Seq<char>) -> int {
        first_index(
            |i: int|
                sorts_before(DEFAULT_PRIORITY, name, self.sets[i].priority, self.sets[i].name),
            1,
            self.sets.len() as int,
        )
    }

    /// Whether the scratch set can become a set of this name.
    pub open spec fn can_adopt(self, name: Seq<char>) -> bool {
        self.scratch_end() > 0 && forall|i: int|
            0 <= i < self.sets.len() ==> (#[trigger] self.sets[i]).name != name
    }

    /// The first filter behind the scratch filters whose set is at `place` or
    /// behind it.
    pub open spec fn adopting_split(self, place: int) -> int {
        first_index(
            |i: int| self.filters[i].set >= place,
            self.scratch_end(),
            self.filters.len() as int,
        )
    }

    /// The scratch set turned into a named one. Its filters go to where that
    /// set's filters belong, and keep their colours and flags.
    pub open spec fn adopted(self, name: Seq<char>, path: Seq<char>) -> ActiveModel {
        let place = self.adopting_place(name);
        let end = self.scratch_end();
        let split = self.adopting_split(place);
        let len = self.filters.len() as int;
        ActiveModel {
            sets: self.sets.insert(place, self.adopting_set(name, path)),
            solo: match self.solo {
                Some(solo) => Some(
                    SoloModel {
                        set: if solo.set >= place {
                            solo.set + 1
                        } else {
                            solo.set
                        },
                        snapshot: solo.snapshot.insert(place, false),
                    },
                ),
                None => None,
            },
            filters: Seq::new(
                self.filters.len(),
                |i: int|
                    if i < split - end {
                        self.filters[i + end]
                    } else if i < split {
                        FilterModel { set: place, ..self.filters[i - (split - end)] }
                    } else {
                        FilterModel { set: self.filters[i].set + 1, ..self.filters[i] }
                    },
            ),
            remembered: None,
            ..self
        }
    }
}

// ---------------------------------------------------------------------------
// Searching

/// `first_index` finds what it looks for, and nothing before that.
pub proof fn first_index_finds(test: spec_fn(int) -> bool, from: int, to: int)
    requires
        from <= to,
    ensures
        from <= first_index(test, from, to) <= to,
        first_index(test, from, to) < to ==> test(first_index(test, from, to)),
        forall|i: int| from <= i < first_index(test, from, to) ==> !(#[trigger] test(i)),
    decreases to - from,
{
    if from < to && !test(from) {
        first_index_finds(test, from + 1, to);
    }
}

/// There is one first place only.
pub proof fn first_index_is(test: spec_fn(int) -> bool, from: int, to: int, at: int)
    requires
        from <= at <= to,
        at < to ==> test(at),
        forall|i: int| from <= i < at ==> !(#[trigger] test(i)),
    ensures
        first_index(test, from, to) == at,
    decreases at - from,
{
    if from < at {
        assert(!test(from));
        first_index_is(test, from + 1, to, at);
    }
}

/// Tests that agree find the same place.
pub proof fn first_index_agrees(
    left: spec_fn(int) -> bool,
    right: spec_fn(int) -> bool,
    from: int,
    to: int,
)
    requires
        forall|i: int| from <= i < to ==> #[trigger] left(i) == right(i),
    ensures
        first_index(left, from, to) == first_index(right, from, to),
    decreases to - from,
{
    if from < to {
        assert(left(from) == right(from));
        if !left(from) {
            first_index_agrees(left, right, from + 1, to);
        }
    }
}

impl ActiveModel {
    /// The first hit is one where there is one, and the end where there is not.
    pub proof fn first_hit_finds(self, sense: Sense, hits: Seq<bool>)
        ensures
            0 <= self.first_hit(sense, hits) <= self.filters.len(),
            self.any_hit(sense, hits) == (self.first_hit(sense, hits) < self.filters.len()),
            self.any_hit(sense, hits) ==> {
                &&& self.live(sense, self.first_hit(sense, hits))
                &&& hits[self.first_hit(sense, hits)]
            },
    {
        let test = |i: int| self.live(sense, i) && hits[i];
        first_index_finds(test, 0, self.filters.len() as int);
        let at = self.first_hit(sense, hits);
        if at < self.filters.len() {
            assert(test(at));
            assert(self.live(sense, at) && hits[at]);
        }
        if self.any_hit(sense, hits) {
            let i = choose|i: int|
                0 <= i < self.filters.len() && #[trigger] self.live(sense, i) && hits[i];
            assert(test(i));
        }
    }

    /// The first filter that takes effect is one where there is one.
    pub proof fn first_live_finds(self, sense: Sense)
        ensures
            0 <= self.first_live(sense) <= self.filters.len(),
            self.any_live(sense) == (self.first_live(sense) < self.filters.len()),
            self.any_live(sense) ==> self.live(sense, self.first_live(sense)),
    {
        let test = |i: int| self.live(sense, i);
        first_index_finds(test, 0, self.filters.len() as int);
        let at = self.first_live(sense);
        if at < self.filters.len() {
            assert(test(at));
            assert(self.live(sense, at));
        }
        if self.any_live(sense) {
            let i = choose|i: int| 0 <= i < self.filters.len() && #[trigger] self.live(sense, i);
            assert(test(i));
        }
    }

    /// A verdict depends on the hits of the filters that take effect alone.
    pub proof fn only_effective_hits_decide(self, left: Seq<bool>, right: Seq<bool>)
        requires
            forall|i: int|
                0 <= i < self.filters.len() && #[trigger] self.effective(i) ==> left[i]
                    == right[i],
        ensures
            self.decided(left) == self.decided(right),
    {
        self.same_hits(Sense::Exclude, left, right);
        self.same_hits(Sense::Include, left, right);
        self.same_hits(Sense::Context, left, right);
        assert(self.all_included(left) == self.all_included(right)) by {
            assert forall|i: int|
                0 <= i < self.filters.len() && #[trigger] self.live(
                    Sense::Include,
                    i,
                ) implies left[i] == right[i] by {
                assert(self.effective(i));
            }
        }
    }

    proof fn same_hits(self, sense: Sense, left: Seq<bool>, right: Seq<bool>)
        requires
            forall|i: int|
                0 <= i < self.filters.len() && #[trigger] self.effective(i) ==> left[i]
                    == right[i],
        ensures
            self.first_hit(sense, left) == self.first_hit(sense, right),
            self.any_hit(sense, left) == self.any_hit(sense, right),
    {
        let a = |i: int| self.live(sense, i) && left[i];
        let b = |i: int| self.live(sense, i) && right[i];
        assert forall|i: int| 0 <= i < self.filters.len() implies #[trigger] a(i) == b(i) by {
            if self.live(sense, i) {
                assert(self.effective(i));
            }
        }
        first_index_agrees(a, b, 0, self.filters.len() as int);
        self.first_hit_finds(sense, left);
        self.first_hit_finds(sense, right);
    }
}

// ---------------------------------------------------------------------------
// What the operations keep

impl ActiveModel {
    /// Where the scratch filters end, all before are of the scratch set and
    /// none behind is.
    pub proof fn scratch_end_divides(self)
        requires
            self.well_formed(),
        ensures
            0 <= self.scratch_end() <= self.filters.len(),
            forall|i: int|
                0 <= i < self.scratch_end() ==> (#[trigger] self.filters[i]).set == 0,
            forall|i: int|
                self.scratch_end() <= i < self.filters.len() ==> (#[trigger] self.filters[i]).set
                    > 0,
    {
        let test = |i: int| self.filters[i].set != 0;
        let len = self.filters.len() as int;
        first_index_finds(test, 0, len);
        let end = self.scratch_end();
        assert forall|i: int| 0 <= i < end implies (#[trigger] self.filters[i]).set == 0 by {
            assert(!test(i));
        }
        if end < len {
            assert(test(end));
            assert(self.filters[end].set > 0);
        }
    }

    /// Putting a filter into the scratch set keeps the form.
    pub proof fn scratch_keeps_form(self, filter: FilterModel)
        requires
            self.well_formed(),
            filter.set == 0,
        ensures
            self.with_scratch(filter).well_formed(),
    {
        self.scratch_end_divides();
        let end = self.scratch_end();
        let after = self.with_scratch(filter);
        assert forall|i: int| 0 <= i < after.filters.len() implies (#[trigger] after.filters[i])
            == if i < end {
            self.filters[i]
        } else if i == end {
            filter
        } else {
            self.filters[i - 1]
        } by {}
    }

    /// Removing a filter keeps the form.
    pub proof fn removal_keeps_form(self, at: int)
        requires
            self.well_formed(),
            0 <= at < self.filters.len(),
        ensures
            self.without(at).well_formed(),
    {
        let after = self.without(at);
        assert forall|i: int| 0 <= i < after.filters.len() implies (#[trigger] after.filters[i])
            == if i < at {
            self.filters[i]
        } else {
            self.filters[i + 1]
        } by {}
    }

    /// Switching filters keeps the form.
    pub proof fn flags_keep_form(self, flags: Seq<bool>)
        requires
            self.well_formed(),
        ensures
            self.with_flags(flags).well_formed(),
    {
        let after = self.with_flags(flags);
        assert forall|i: int| 0 <= i < after.filters.len() implies (
        #[trigger] after.filters[i]).set == self.filters[i].set by {}
    }
}

impl ActiveModel {
    /// Other flags on the sets keep the form, where no set that is not listed
    /// is on.
    pub proof fn set_flags_keep_form(self, sets: Seq<SetModel>)
        requires
            self.well_formed(),
            sets.len() == self.sets.len(),
            forall|i: int|
                0 <= i < sets.len() ==> (#[trigger] sets[i]) == self.sets[i].switched(
                    sets[i].enabled,
                ),
            forall|i: int|
                0 <= i < sets.len() && (#[trigger] sets[i]).enabled ==> sets[i].listed,
        ensures
            (ActiveModel { sets, ..self }).well_formed(),
    {
        let after = ActiveModel { sets, ..self };
        let builtin = choose|i: int|
            1 <= i < self.sets.len() && (#[trigger] self.sets[i]).origin is BuiltIn;
        assert(after.sets[builtin].origin is BuiltIn);
        assert forall|i: int, j: int| 1 <= i < j < after.sets.len() implies !sorts_before(
            (#[trigger] after.sets[j]).priority,
            after.sets[j].name,
            (#[trigger] after.sets[i]).priority,
            after.sets[i].name,
        ) by {
            assert(after.sets[i].name == self.sets[i].name);
            assert(after.sets[j].name == self.sets[j].name);
        }
    }

    /// Switching one set keeps the form.
    pub proof fn set_flag_keeps_form(self, set: int, enabled: bool)
        requires
            self.well_formed(),
            self.can_switch(set, enabled),
        ensures
            (ActiveModel {
                sets: self.sets.update(set, self.sets[set].switched(enabled)),
                ..self
            }).well_formed(),
    {
        self.set_flags_keep_form(self.sets.update(set, self.sets[set].switched(enabled)));
    }

    /// Ending a solo keeps the form.
    pub proof fn ending_solo_keeps_form(self)
        requires
            self.well_formed(),
            self.solo is Some,
        ensures
            (ActiveModel {
                solo: None,
                ..self.sets_restored(self.solo->Some_0.snapshot)
            }).well_formed(),
    {
        let snapshot = self.solo->Some_0.snapshot;
        let ended = ActiveModel { solo: None, ..self };
        ended.set_flags_keep_form(self.sets_restored(snapshot).sets);
    }

    /// Listing or unlisting a set keeps the form.
    pub proof fn relisting_keeps_form(self, set: int, listed: bool)
        requires
            self.well_formed(),
            self.named_set(set),
        ensures
            self.set_relisted(set, listed).well_formed(),
    {
        let after = self.set_relisted(set, listed);
        let builtin = choose|i: int|
            1 <= i < self.sets.len() && (#[trigger] self.sets[i]).origin is BuiltIn;
        assert(after.sets[builtin].origin is BuiltIn);
        assert forall|i: int| 0 <= i < after.sets.len() implies (#[trigger] after.sets[i]).name
            == self.sets[i].name && after.sets[i].priority == self.sets[i].priority
            && after.sets[i].origin == self.sets[i].origin && after.sets[i].listed == (if i == set {
            listed
        } else {
            self.sets[i].listed
        }) by {}
    }

    /// A name stands for a named set.
    pub proof fn named_is_named_set(self, name: Seq<char>)
        ensures
            self.named(name) matches Some(set) ==> self.named_set(set) && self.sets[set].name
                == name,
    {
        let test = |i: int| self.sets[i].name == name;
        let len = self.sets.len() as int;
        first_index_finds(test, 0, len);
        let first = first_index(test, 0, len);
        if first < len {
            assert(test(first));
        }
    }
}

// ---------------------------------------------------------------------------
// The order of sets

/// No two sets stand before each other.
pub proof fn order_is_one_way(
    priority: i32,
    name: Seq<char>,
    other_priority: i32,
    other_name: Seq<char>,
)
    requires
        sorts_before(priority, name, other_priority, other_name),
    ensures
        !sorts_before(other_priority, other_name, priority, name),
{
    if crate::text::before(name, other_name) && crate::text::before(other_name, name) {
        crate::text::before_is_transitive(name, other_name, name);
        crate::text::before_is_irreflexive(name);
    }
}

/// What stands before a set stands before all that do not stand before it.
pub proof fn order_carries(
    first_priority: i32,
    first: Seq<char>,
    second_priority: i32,
    second: Seq<char>,
    third_priority: i32,
    third: Seq<char>,
)
    requires
        sorts_before(first_priority, first, second_priority, second),
        !sorts_before(third_priority, third, second_priority, second),
    ensures
        sorts_before(first_priority, first, third_priority, third),
{
    if first_priority == second_priority && second_priority == third_priority {
        crate::text::before_is_total(second, third);
        if second != third {
            crate::text::before_is_transitive(first, second, third);
        }
    }
}

/// Sets of which none stands before an earlier one.
pub open spec fn sorted(sets: Seq<LoadedModel>) -> bool {
    forall|i: int, j: int|
        0 <= i < j < sets.len() ==> !(#[trigger] sets[j]).stands_before(#[trigger] sets[i])
}

/// A set put in its place among sets in order leaves them in order.
pub proof fn placing_keeps_order(sets: Seq<LoadedModel>, set: LoadedModel)
    requires
        sorted(sets),
    ensures
        0 <= place_among(sets, set) <= sets.len(),
        sorted(sets.insert(place_among(sets, set), set)),
{
    let test = |i: int| set.stands_before(sets[i]);
    let len = sets.len() as int;
    first_index_finds(test, 0, len);
    let place = place_among(sets, set);
    let after = sets.insert(place, set);
    assert forall|i: int, j: int| 0 <= i < j < after.len() implies !(
    #[trigger] after[j]).stands_before(#[trigger] after[i]) by {
        if j < place {
        } else if j == place {
            assert(after[i] == sets[i]);
            assert(!test(i));
        } else if i < place {
            assert(after[i] == sets[i] && after[j] == sets[j - 1]);
        } else if i == place {
            assert(after[j] == sets[j - 1]);
            assert(test(place));
            let at = sets[place];
            if j - 1 > place {
                assert(!sets[j - 1].stands_before(sets[place]));
                order_carries(
                    set.priority,
                    set.name,
                    at.priority,
                    at.name,
                    sets[j - 1].priority,
                    sets[j - 1].name,
                );
            }
            order_is_one_way(set.priority, set.name, sets[j - 1].priority, sets[j - 1].name);
        } else {
            assert(after[i] == sets[i - 1] && after[j] == sets[j - 1]);
        }
    }
}

/// Sets in their order are in order, and are the sets that came.
pub proof fn ordering_sorts(sets: Seq<LoadedModel>)
    ensures
        sorted(in_order(sets)),
        in_order(sets).len() == sets.len(),
        in_order(sets).to_multiset() == sets.to_multiset(),
    decreases sets.len(),
{
    broadcast use vstd::seq_lib::group_to_multiset_ensures;

    if sets.len() > 0 {
        let others = in_order(sets.drop_last());
        ordering_sorts(sets.drop_last());
        placing_keeps_order(others, sets.last());
        let place = place_among(others, sets.last());
        assert(sets =~= sets.drop_last().push(sets.last()));
        assert(others.insert(place, sets.last()).to_multiset() == others.to_multiset().insert(
            sets.last(),
        ));
        assert(sets.to_multiset() == sets.drop_last().to_multiset().insert(sets.last()));
    } else {
        assert(in_order(sets) =~= sets);
    }
}

/// What ordering leaves of a set that is built in.
proof fn ordering_keeps_builtin(sets: Seq<LoadedModel>)
    requires
        exists|i: int| 0 <= i < sets.len() && (#[trigger] sets[i]).builtin,
    ensures
        exists|i: int| 0 <= i < in_order(sets).len() && (#[trigger] in_order(sets)[i]).builtin,
    decreases sets.len(),
{
    let others = in_order(sets.drop_last());
    ordering_sorts(sets.drop_last());
    placing_keeps_order(others, sets.last());
    let place = place_among(others, sets.last());
    let all = in_order(sets);
    assert(all[place] == sets.last());
    if !sets.last().builtin {
        let i = choose|i: int| 0 <= i < sets.len() && (#[trigger] sets[i]).builtin;
        assert(sets.drop_last()[i].builtin);
        ordering_keeps_builtin(sets.drop_last());
        let k = choose|k: int| 0 <= k < others.len() && (#[trigger] others[k]).builtin;
        if k < place {
            assert(all[k] == others[k]);
        } else {
            assert(all[k + 1] == others[k]);
        }
    }
}

impl ActiveModel {
    /// What holds while sets are being loaded.
    pub open spec fn loading(self) -> bool {
        &&& self.palette.len() > 0
        &&& self.sets.len() > 0
        &&& forall|i: int|
            0 <= i < self.filters.len() ==> 0 <= (#[trigger] self.filters[i]).set < self.sets.len()
        &&& forall|i: int, j: int|
            0 <= i < j < self.filters.len() ==> (#[trigger] self.filters[i]).set <= (
            #[trigger] self.filters[j]).set
    }

    /// Loading a set goes on loading.
    pub proof fn loading_goes_on(self, loaded: LoadedModel)
        requires
            self.loading(),
        ensures
            self.with_loaded(loaded).loading(),
    {
        let after = self.with_loaded(loaded);
        assert forall|i: int| 0 <= i < after.filters.len() implies (#[trigger] after.filters[i]).set
            == if i < self.filters.len() {
            self.filters[i].set
        } else {
            self.sets.len() as int
        } by {}
    }

    /// Loaded sets stand behind what was there, in the order they came.
    pub proof fn all_loaded(self, sets: Seq<LoadedModel>)
        requires
            self.loading(),
        ensures
            ({
                let after = self.with_all_loaded(sets);
                &&& after.loading()
                &&& after.sets.len() == self.sets.len() + sets.len()
                &&& forall|i: int|
                    0 <= i < self.sets.len() ==> (#[trigger] after.sets[i]) == self.sets[i]
                &&& forall|i: int|
                    0 <= i < sets.len() ==> #[trigger] after.sets[self.sets.len() + i]
                        == sets[i].as_set()
                &&& after == (ActiveModel { sets: after.sets, filters: after.filters, ..self })
            }),
        decreases sets.len(),
    {
        if sets.len() > 0 {
            let before = self.with_all_loaded(sets.drop_last());
            self.all_loaded(sets.drop_last());
            before.loading_goes_on(sets.last());
            let after = self.with_all_loaded(sets);
            assert forall|i: int| 0 <= i < sets.len() implies #[trigger] after.sets[self.sets.len()
                + i] == sets[i].as_set() by {
                if i < sets.len() - 1 {
                    assert(before.sets[self.sets.len() + i] == sets.drop_last()[i].as_set());
                }
            }
        }
    }

    /// What the program starts from is well formed.
    pub proof fn loading_ends_well_formed(palette: Option<Seq<Color>>, sets: Seq<LoadedModel>)
        ensures
            ActiveModel::bare(palette).with_all_loaded(in_order(with_builtin(sets))).well_formed(),
    {
        let bare = ActiveModel::bare(palette);
        let all = with_builtin(sets);
        let ordered = in_order(all);
        let after = bare.with_all_loaded(ordered);
        ordering_sorts(all);
        assert(exists|i: int| 0 <= i < all.len() && (#[trigger] all[i]).builtin) by {
            if !(exists|i: int| 0 <= i < sets.len() && (#[trigger] sets[i]).builtin) {
                assert(all[sets.len() as int].builtin);
            }
        }
        ordering_keeps_builtin(all);
        bare.all_loaded(ordered);
        let k = choose|k: int| 0 <= k < ordered.len() && (#[trigger] ordered[k]).builtin;
        assert(after.sets[1 + k] == ordered[k].as_set());
        assert(after.sets[1 + k].origin is BuiltIn);
        assert(after.sets[0] == bare.sets[0]);
        assert forall|i: int| 1 <= i < after.sets.len() implies (#[trigger] after.sets[i])
            == ordered[i - 1].as_set() by {
            assert(after.sets[1 + (i - 1)] == ordered[i - 1].as_set());
        }
        assert forall|i: int, j: int| 1 <= i < j < after.sets.len() implies !sorts_before(
            (#[trigger] after.sets[j]).priority,
            after.sets[j].name,
            (#[trigger] after.sets[i]).priority,
            after.sets[i].name,
        ) by {
            assert(!ordered[j - 1].stands_before(ordered[i - 1]));
        }
    }
}

impl ActiveModel {
    /// Adopting the scratch set keeps the form.
    pub proof fn adopting_keeps_form(self, name: Seq<char>, path: Seq<char>)
        requires
            self.well_formed(),
            self.can_adopt(name),
        ensures
            self.adopted(name, path).well_formed(),
    {
        let after = self.adopted(name, path);
        let place = self.adopting_place(name);
        let end = self.scratch_end();
        let split = self.adopting_split(place);
        let len = self.filters.len() as int;
        let count = self.sets.len() as int;
        self.scratch_end_divides();
        let goes_before = |i: int|
            sorts_before(DEFAULT_PRIORITY, name, self.sets[i].priority, self.sets[i].name);
        first_index_finds(goes_before, 1, count);
        let belongs_behind = |i: int| self.filters[i].set >= place;
        first_index_finds(belongs_behind, end, len);
        // The sets.
        assert forall|i: int| 0 <= i < after.sets.len() implies (#[trigger] after.sets[i]) == if i
            < place {
            self.sets[i]
        } else if i == place {
            self.adopting_set(name, path)
        } else {
            self.sets[i - 1]
        } by {}
        let builtin = choose|i: int|
            1 <= i < self.sets.len() && (#[trigger] self.sets[i]).origin is BuiltIn;
        if builtin < place {
            assert(after.sets[builtin].origin is BuiltIn);
        } else {
            assert(after.sets[builtin + 1].origin is BuiltIn);
        }
        assert forall|i: int, j: int| 1 <= i < j < after.sets.len() implies !sorts_before(
            (#[trigger] after.sets[j]).priority,
            after.sets[j].name,
            (#[trigger] after.sets[i]).priority,
            after.sets[i].name,
        ) by {
            if j == place {
                assert(!goes_before(i));
            } else if i == place {
                assert(goes_before(place));
                let at = self.sets[place];
                let other = self.sets[j - 1];
                if j - 1 > place {
                    order_carries(
                        DEFAULT_PRIORITY,
                        name,
                        at.priority,
                        at.name,
                        other.priority,
                        other.name,
                    );
                }
                order_is_one_way(DEFAULT_PRIORITY, name, other.priority, other.name);
            }
        }
        // The filters.
        assert forall|i: int| 0 <= i < len implies (#[trigger] after.filters[i]).set == if i < split
            - end {
            self.filters[i + end].set
        } else if i < split {
            place
        } else {
            self.filters[i].set + 1
        } by {}
        assert forall|i: int| 0 <= i < split - end implies 0 < (#[trigger] after.filters[i]).set
            < place by {
            assert(!belongs_behind(i + end));
        }
        assert forall|i: int| split <= i < len implies (#[trigger] after.filters[i]).set > place by {
            assert(belongs_behind(split));
            assert(self.filters[split].set <= self.filters[i].set);
        }
    }
}

} // verus!
