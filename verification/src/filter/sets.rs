//! The sets that filters come in: switching, listing, soloing, resetting and
//! adopting them, and the form in which a file's sets arrive.

use vstd::prelude::*;

use crate::colour::{Color, Style};
use crate::filter::model;
use crate::filter::model::{
    ActiveModel, FilterModel, LoadedFilterModel, LoadedModel, OriginModel, SetModel, SoloModel,
    DEFAULT_PROFILE,
};
use crate::filter::profiles::Profiles;
use crate::filter::{next_colour, ActiveFilters, Filter, Predicate, Sense};
use crate::filtersets::DEFAULT_PRIORITY;
use crate::syntax::{Kind, KIND_COUNT};
use crate::text;

verus! {

/// Where a set came from.
#[derive(Debug, Clone, PartialEq, Eq)]
pub enum Origin {
    /// The set without a name that typed filters land in. Always the first.
    Scratch,
    /// A file, by its path.
    File(String),
    /// A set that is always there, whose filters no file holds.
    BuiltIn,
}

impl View for Origin {
    type V = OriginModel;

    open spec fn view(&self) -> OriginModel {
        match self {
            Origin::Scratch => OriginModel::Scratch,
            Origin::File(path) => OriginModel::File(path@),
            Origin::BuiltIn => OriginModel::BuiltIn,
        }
    }
}

impl Origin {
    /// Whether this is the built-in origin.
    pub fn is_built_in(&self) -> (yes: bool)
        ensures
            yes == (self@ is BuiltIn),
    {
        match self {
            Origin::BuiltIn => true,
            _ => false,
        }
    }
}

/// The name of the built-in set.
pub const DEFINITIONS_SET: &'static str = "definitions";

/// What the built-in set says of itself where no file says otherwise.
pub const DEFINITIONS_DESCRIPTION: &'static str =
    "Functions, types and other definitions, found by the syntax grammar";

/// Whether `name` is the name of a built-in set.
pub fn is_builtin_name(name: &str) -> (yes: bool)
    ensures
        yes == (name@ == DEFINITIONS_SET@),
{
    text::same(name, DEFINITIONS_SET)
}

/// A named group of filters, switched as one. Its filters stand in the list of
/// all filters, each with the place of its set.
#[derive(Debug)]
pub struct FilterSet {
    pub name: String,
    pub origin: Origin,
    /// The place among the sets, lower first.
    pub priority: i32,
    /// On when the program starts, where it is listed.
    pub autoload: bool,
    /// Has a row. A set that has none is never on.
    pub listed: bool,
    pub enabled: bool,
    /// One line that describes the set.
    pub description: Option<String>,
    /// Named selections of the set's filters.
    pub profiles: Profiles,
}

impl View for FilterSet {
    type V = SetModel;

    open spec fn view(&self) -> SetModel {
        SetModel {
            name: self.name@,
            origin: self.origin@,
            priority: self.priority,
            autoload: self.autoload,
            listed: self.listed,
            enabled: self.enabled,
            description: text::option_text(self.description),
            profiles: self.profiles@,
        }
    }
}

impl Clone for FilterSet {
    /// The same set again.
    fn clone(&self) -> (copy: Self)
        ensures
            copy@ == self@,
    {
        FilterSet {
            name: self.name.clone(),
            origin: match &self.origin {
                Origin::Scratch => Origin::Scratch,
                Origin::File(path) => Origin::File(path.clone()),
                Origin::BuiltIn => Origin::BuiltIn,
            },
            priority: self.priority,
            autoload: self.autoload,
            listed: self.listed,
            enabled: self.enabled,
            description: match &self.description {
                Some(line) => Some(line.clone()),
                None => None,
            },
            profiles: self.profiles.clone(),
        }
    }
}

/// The models of sets.
pub open spec fn set_models(sets: Seq<FilterSet>) -> Seq<SetModel> {
    Seq::new(sets.len(), |i: int| sets[i]@)
}

/// The scratch set as it is at first.
pub open spec fn scratch_model() -> SetModel {
    SetModel {
        name: Seq::empty(),
        origin: OriginModel::Scratch,
        priority: i32::MIN,
        autoload: true,
        listed: true,
        enabled: true,
        description: None,
        profiles: Map::empty(),
    }
}

impl FilterSet {
    /// The scratch set as it is at first: on, listed, and before every other.
    pub fn scratch() -> (set: Self)
        ensures
            set@ == scratch_model(),
    {
        FilterSet {
            name: String::new(),
            origin: Origin::Scratch,
            priority: i32::MIN,
            autoload: true,
            listed: true,
            enabled: true,
            description: None,
            profiles: Profiles::new(),
        }
    }
}

/// A solo in force: which set, and every set's flag from before it. Moving a
/// solo keeps the flags, so that ending it goes back to before the first one.
#[derive(Debug)]
pub struct Solo {
    pub set: usize,
    pub snapshot: Vec<bool>,
}

impl View for Solo {
    type V = SoloModel;

    open spec fn view(&self) -> SoloModel {
        SoloModel { set: self.set as int, snapshot: self.snapshot@ }
    }
}

/// One filter as a file gives it, before it has a colour or a place.
#[derive(Debug)]
pub struct LoadedFilter {
    pub name: String,
    pub predicate: Predicate,
    pub sense: Sense,
    /// The file's colour, or none for the next one of the palette.
    pub colour: Option<Color>,
}

/// One set as a file gives it.
#[derive(Debug)]
pub struct LoadedSet {
    pub name: String,
    pub path: String,
    pub priority: i32,
    pub autoload: bool,
    /// Wins over `autoload`.
    pub listed: bool,
    pub description: Option<String>,
    pub profiles: Profiles,
    pub filters: Vec<LoadedFilter>,
    /// The table positions the built-in set, whose filters are not the file's.
    pub builtin: bool,
}

impl View for LoadedFilter {
    type V = LoadedFilterModel;

    open spec fn view(&self) -> LoadedFilterModel {
        LoadedFilterModel {
            name: self.name@,
            predicate: self.predicate@,
            sense: self.sense,
            colour: self.colour,
        }
    }
}

impl Clone for LoadedFilter {
    /// The same filter again.
    fn clone(&self) -> (copy: Self)
        ensures
            copy@ == self@,
    {
        LoadedFilter {
            name: self.name.clone(),
            predicate: self.predicate.clone(),
            sense: self.sense,
            colour: self.colour,
        }
    }
}

/// The models of loaded filters.
pub open spec fn loaded_filter_models(filters: Seq<LoadedFilter>) -> Seq<LoadedFilterModel> {
    Seq::new(filters.len(), |i: int| filters[i]@)
}

impl View for LoadedSet {
    type V = LoadedModel;

    open spec fn view(&self) -> LoadedModel {
        LoadedModel {
            name: self.name@,
            path: self.path@,
            priority: self.priority,
            autoload: self.autoload,
            listed: self.listed,
            description: text::option_text(self.description),
            profiles: self.profiles@,
            filters: loaded_filter_models(self.filters@),
            builtin: self.builtin,
        }
    }
}

impl Clone for LoadedSet {
    /// The same set again.
    fn clone(&self) -> (copy: Self)
        ensures
            copy@ == self@,
    {
        let mut filters: Vec<LoadedFilter> = Vec::new();
        let mut i: usize = 0;
        while i < self.filters.len()
            invariant
                i <= self.filters@.len(),
                filters@.len() == i,
                forall|j: int| 0 <= j < i ==> (#[trigger] filters@[j])@ == self.filters@[j]@,
            decreases self.filters@.len() - i,
        {
            filters.push(self.filters[i].clone());
            i += 1;
        }
        assert(loaded_filter_models(filters@) =~= loaded_filter_models(self.filters@));
        LoadedSet {
            name: self.name.clone(),
            path: self.path.clone(),
            priority: self.priority,
            autoload: self.autoload,
            listed: self.listed,
            description: match &self.description {
                Some(line) => Some(line.clone()),
                None => None,
            },
            profiles: self.profiles.clone(),
            filters,
            builtin: self.builtin,
        }
    }
}

/// The models of loaded sets.
pub open spec fn loaded_models(sets: Seq<LoadedSet>) -> Seq<LoadedModel> {
    Seq::new(sets.len(), |i: int| sets[i]@)
}

impl LoadedSet {
    /// The built-in set as it is where no file names it.
    pub fn builtin_default() -> (set: Self)
        ensures
            set@ == LoadedModel::builtin_default(),
    {
        let set = LoadedSet {
            name: DEFINITIONS_SET.to_owned(),
            path: String::new(),
            priority: DEFAULT_PRIORITY,
            autoload: false,
            listed: true,
            description: None,
            profiles: Profiles::new(),
            filters: Vec::new(),
            builtin: true,
        };
        assert(set@ =~= LoadedModel::builtin_default());
        set
    }

    /// Whether this set stands before another: by priority, then by name.
    pub fn stands_before(&self, other: &LoadedSet) -> (yes: bool)
        ensures
            yes == self@.stands_before(other@),
    {
        self.priority < other.priority || (self.priority == other.priority && text::comes_before(
            self.name.as_str(),
            other.name.as_str(),
        ))
    }
}

/// Why a set could not be switched by its name.
#[derive(Debug, Clone, PartialEq, Eq)]
pub enum EnableError {
    /// No named set has that name.
    UnknownSet(String),
    /// The set is there and has no such profile.
    UnknownProfile { set: String, profile: String },
}

impl EnableError {
    /// The message that says what is unknown.
    pub open spec fn text(self) -> Seq<char> {
        match self {
            EnableError::UnknownSet(name) => "unknown set "@ + text::debug_text(name@),
            EnableError::UnknownProfile { set, profile } => "unknown profile "@ + text::debug_text(
                profile@,
            ) + " for set "@ + text::debug_text(set@),
        }
    }

    /// The message that says what is unknown.
    pub fn message(&self) -> (message: String)
        ensures
            message@ == self.text(),
    {
        match self {
            EnableError::UnknownSet(name) => {
                let mut message = "unknown set ".to_owned();
                message.append(text::quoted(name.as_str()).as_str());
                message
            },
            EnableError::UnknownProfile { set, profile } => {
                let mut message = "unknown profile ".to_owned();
                message.append(text::quoted(profile.as_str()).as_str());
                message.append(" for set ");
                message.append(text::quoted(set.as_str()).as_str());
                message
            },
        }
    }
}

impl ActiveFilters {
    /// The scratch set, and behind it the named sets in their order.
    pub fn sets(&self) -> (sets: &Vec<FilterSet>)
        ensures
            set_models(sets@) == self@.sets,
    {
        &self.sets
    }

    /// The filters of `set`, each with its place among all filters.
    pub fn filters_in(&self, set: usize) -> (found: Vec<(usize, &Filter)>)
        ensures
            forall|k: int|
                0 <= k < found@.len() ==> {
                    &&& (#[trigger] found@[k]).0 < self@.filters.len()
                    &&& found@[k].1@ == self@.filters[found@[k].0 as int]
                    &&& found@[k].1@.set == set
                },
            forall|k: int, l: int| 0 <= k < l < found@.len() ==> found@[k].0 < found@[l].0,
            forall|i: int|
                0 <= i < self@.filters.len() && (#[trigger] self@.filters[i]).set == set ==> exists|
                    k: int,
                | 0 <= k < found@.len() && (#[trigger] found@[k]).0 == i,
    {
        let mut found: Vec<(usize, &Filter)> = Vec::new();
        let mut i: usize = 0;
        while i < self.filters.len()
            invariant
                i <= self@.filters.len(),
                forall|k: int|
                    0 <= k < found@.len() ==> {
                        &&& (#[trigger] found@[k]).0 < i
                        &&& found@[k].1@ == self@.filters[found@[k].0 as int]
                        &&& found@[k].1@.set == set
                    },
                forall|k: int, l: int| 0 <= k < l < found@.len() ==> found@[k].0 < found@[l].0,
                forall|j: int|
                    0 <= j < i && (#[trigger] self@.filters[j]).set == set ==> exists|k: int|
                        0 <= k < found@.len() && (#[trigger] found@[k]).0 == j,
            decreases self.filters@.len() - i,
        {
            let ghost before = found@;
            if self.filters[i].set == set {
                found.push((i, &self.filters[i]));
                assert(found@[before.len() as int].0 == i);
            }
            proof {
                assert(self@.filters[i as int] == self.filters@[i as int]@);
                assert forall|j: int|
                    0 <= j < i + 1 && (#[trigger] self@.filters[j]).set == set implies exists|
                    k: int,
                | 0 <= k < found@.len() && (#[trigger] found@[k]).0 == j by {
                    if j < i {
                        let k = choose|k: int|
                            0 <= k < before.len() && (#[trigger] before[k]).0 == j;
                        assert(found@[k].0 == j);
                    }
                }
            }
            i += 1;
        }
        found
    }

    /// Switches the filters of `set` on that `members` names, and its others
    /// off.
    fn apply_members(&mut self, set: usize, members: &Vec<String>)
        requires
            old(self).wf(),
        ensures
            final(self).wf(),
            final(self)@ == old(self)@.with_members(set as int, text::texts(members@)),
    {
        let ghost before = self@;
        let ghost names = text::texts(members@);
        let ghost after = before.with_members(set as int, names);
        let mut i: usize = 0;
        while i < self.filters.len()
            invariant
                before == old(self)@,
                before.well_formed(),
                names == text::texts(members@),
                after == before.with_members(set as int, names),
                i <= self.filters@.len(),
                self.in_step(),
                self@.sources() == before.sources(),
                self@ =~= (ActiveModel { filters: self@.filters, ..before }),
                self@.filters.len() == before.filters.len(),
                forall|j: int| 0 <= j < i ==> (#[trigger] self@.filters[j]) == after.filters[j],
                forall|j: int|
                    i <= j < before.filters.len() ==> (#[trigger] self@.filters[j])
                        == before.filters[j],
            decreases self.filters@.len() - i,
        {
            let ghost current = self@;
            assert(current.filters[i as int] == self.filters@[i as int]@);
            assert(current.filters[i as int] == before.filters[i as int]);
            if self.filters[i].set == set {
                let name = self.filters[i].display_name();
                let on = text::has_text(members, name.as_str());
                self.filters[i].enabled = on;
                assert(self@.filters =~= current.filters.update(
                    i as int,
                    current.filters[i as int].switched(on),
                ));
            }
            assert(self@.sources() =~= current.sources());
            i += 1;
        }
        assert(self@.filters =~= after.filters);
        assert(self@ =~= after);
        assert(after.well_formed()) by {
            assert forall|j: int| 0 <= j < after.filters.len() implies (
            #[trigger] after.filters[j]).set == before.filters[j].set by {}
        }
    }

    /// Switches the filters of `set` on that a profile names, and its others
    /// off, and says whether the set has the profile.
    pub fn apply_profile(&mut self, set: usize, profile: &str) -> (applied: bool)
        requires
            old(self).wf(),
        ensures
            final(self).wf(),
            applied == (set < old(self)@.sets.len()
                && old(self)@.sets[set as int].profiles.contains_key(profile@)),
            final(self)@ == if applied {
                old(self)@.with_profile(set as int, profile@)
            } else {
                old(self)@
            },
    {
        if set >= self.sets.len() {
            return false;
        }
        assert(self@.sets[set as int] == self.sets@[set as int]@);
        let members = match self.sets[set].profiles.get(profile) {
            Some(members) => text::clone_texts(members),
            None => {
                return false;
            },
        };
        self.apply_members(set, &members);
        true
    }

    /// Switches a named set, and says whether it did. Switching on applies the
    /// set's default profile, where it has one. The scratch set is not
    /// switched by hand, and a set that is not listed not switched on.
    pub fn set_enabled_set(&mut self, set: usize, enabled: bool) -> (switched: bool)
        requires
            old(self).wf(),
        ensures
            final(self).wf(),
            switched == old(self)@.can_switch(set as int, enabled),
            final(self)@ == if switched {
                old(self)@.set_switched(set as int, enabled)
            } else {
                old(self)@
            },
    {
        if set == 0 || set >= self.sets.len() || (enabled && !self.sets[set].listed) {
            return false;
        }
        let ghost before = self@;
        assert(before.sets[set as int] == self.sets@[set as int]@);
        self.sets[set].enabled = enabled;
        let ghost flagged = ActiveModel {
            sets: before.sets.update(set as int, before.sets[set as int].switched(enabled)),
            ..before
        };
        assert(self@.sets =~= flagged.sets);
        assert(self@ =~= flagged);
        assert(self@.sources() =~= before.sources());
        proof {
            before.set_flag_keeps_form(set as int, enabled);
        }
        if enabled {
            let _ = self.apply_profile(set, DEFAULT_PROFILE);
        }
        true
    }

    /// Flips a named set and says what it is now, or nothing where it cannot
    /// be flipped.
    pub fn toggle_set(&mut self, set: usize) -> (now: Option<bool>)
        requires
            old(self).wf(),
        ensures
            final(self).wf(),
            match now {
                Some(now) => {
                    &&& old(self)@.can_switch(set as int, now)
                    &&& now == !old(self)@.sets[set as int].enabled
                    &&& final(self)@ == old(self)@.set_switched(set as int, now)
                },
                None => {
                    &&& !old(self)@.can_switch(set as int, !old(self)@.sets[set as int].enabled)
                    &&& final(self)@ == old(self)@
                },
            },
    {
        if set >= self.sets.len() {
            return None;
        }
        assert(self@.sets[set as int] == self.sets@[set as int]@);
        let now = !self.sets[set].enabled;
        if self.set_enabled_set(set, now) {
            Some(now)
        } else {
            None
        }
    }

    /// Puts every set's flag back, but for sets that are not listed.
    fn restore(&mut self, snapshot: &Vec<bool>)
        requires
            old(self)@.sets_restored(snapshot@).well_formed(),
            old(self).in_step(),
        ensures
            final(self).wf(),
            final(self)@ == old(self)@.sets_restored(snapshot@),
    {
        let ghost before = self@;
        let ghost after = before.sets_restored(snapshot@);
        let mut i: usize = 0;
        while i < self.sets.len() && i < snapshot.len()
            invariant
                before == old(self)@,
                after == before.sets_restored(snapshot@),
                i <= self.sets@.len(),
                i <= snapshot@.len(),
                self.in_step(),
                self@ =~= (ActiveModel { sets: self@.sets, ..before }),
                self@.sets.len() == before.sets.len(),
                forall|j: int| 0 <= j < i ==> (#[trigger] self@.sets[j]) == after.sets[j],
                forall|j: int|
                    i <= j < before.sets.len() ==> (#[trigger] self@.sets[j]) == before.sets[j],
            decreases self.sets@.len() - i,
        {
            let ghost current = self@;
            assert(current.sets[i as int] == self.sets@[i as int]@);
            assert(current.sets[i as int] == before.sets[i as int]);
            let on = snapshot[i] && self.sets[i].listed;
            self.sets[i].enabled = on;
            assert(self@.sets =~= current.sets.update(
                i as int,
                current.sets[i as int].switched(on),
            ));
            assert(self@.sources() =~= current.sources());
            i += 1;
        }
        assert(self@.sets =~= after.sets);
        assert(self@ =~= after);
    }

    /// Lists or unlists a named set, and says whether there is one. Unlisting
    /// switches the set off and ends a solo of it; its filters' flags stay.
    pub fn set_listed(&mut self, set: usize, listed: bool) -> (there: bool)
        requires
            old(self).wf(),
        ensures
            final(self).wf(),
            there == old(self)@.named_set(set as int),
            final(self)@ == if there {
                old(self)@.set_relisted(set as int, listed)
            } else {
                old(self)@
            },
    {
        if set == 0 || set >= self.sets.len() {
            return false;
        }
        let ghost before = self@;
        let ghost after = before.set_relisted(set as int, listed);
        proof {
            before.relisting_keeps_form(set as int, listed);
        }
        assert(before.sets[set as int] == self.sets@[set as int]@);
        self.sets[set].listed = listed;
        if !listed {
            self.sets[set].enabled = false;
        }
        let ghost flagged = ActiveModel {
            sets: before.sets.update(
                set as int,
                SetModel {
                    listed,
                    enabled: before.sets[set as int].enabled && listed,
                    ..before.sets[set as int]
                },
            ),
            ..before
        };
        assert(self@.sets =~= flagged.sets);
        assert(self@ =~= flagged);
        assert(self@.sources() =~= before.sources());
        if !listed {
            let ends = match &self.solo {
                Some(solo) => solo.set == set,
                None => false,
            };
            if ends {
                match self.solo.take() {
                    Some(solo) => {
                        let ghost ended = ActiveModel { solo: None, ..flagged };
                        assert(self@ =~= ended);
                        assert(self@.sources() =~= before.sources());
                        assert(ended.sets_restored(solo.snapshot@) =~= after);
                        self.restore(&solo.snapshot);
                    },
                    None => {},
                }
            }
        }
        assert(self@ =~= after);
        true
    }

    /// The place of the set called `name`.
    fn named(&self, name: &str) -> (found: Result<usize, EnableError>)
        requires
            self.wf(),
        ensures
            match found {
                Ok(index) => self@.named(name@) == Some(index as int),
                Err(error) => {
                    &&& self@.named(name@) is None
                    &&& error matches EnableError::UnknownSet(unknown)
                    &&& unknown@ == name@
                },
            },
    {
        let ghost test = |i: int| self@.sets[i].name == name@;
        let ghost len = self@.sets.len() as int;
        let mut i: usize = 0;
        while i < self.sets.len()
            invariant
                self.wf(),
                len == self@.sets.len(),
                test == (|i: int| self@.sets[i].name == name@),
                i <= self@.sets.len(),
                forall|j: int| 0 <= j < i ==> !(#[trigger] test(j)),
            decreases self.sets@.len() - i,
        {
            assert(self@.sets[i as int] == self.sets@[i as int]@);
            if text::same(self.sets[i].name.as_str(), name) {
                assert(test(i as int));
                proof {
                    model::first_index_is(test, 0, len, i as int);
                }
                if i == 0 {
                    return Err(EnableError::UnknownSet(name.to_owned()));
                }
                return Ok(i);
            }
            assert(!test(i as int));
            i += 1;
        }
        proof {
            model::first_index_is(test, 0, len, i as int);
        }
        Err(EnableError::UnknownSet(name.to_owned()))
    }

    /// Lists the set called `set` and switches it on, and then applies
    /// `profile` where one is named. Both names are checked before anything
    /// moves.
    pub fn enable_named(&mut self, set: &str, profile: Option<&str>) -> (enabled: Result<
        (),
        EnableError,
    >)
        requires
            old(self).wf(),
        ensures
            final(self).wf(),
            match enabled {
                Ok(()) => {
                    &&& old(self)@.named(set@) is Some
                    &&& profile matches Some(name) ==> old(
                        self,
                    )@.sets[old(self)@.named(set@)->Some_0].profiles.contains_key(name@)
                    &&& final(self)@ == old(self)@.named_enabled(
                        old(self)@.named(set@)->Some_0,
                        text::option_str(profile),
                    )
                },
                Err(EnableError::UnknownSet(unknown)) => {
                    &&& old(self)@.named(set@) is None
                    &&& unknown@ == set@
                    &&& final(self)@ == old(self)@
                },
                Err(EnableError::UnknownProfile { set: known, profile: unknown }) => {
                    &&& old(self)@.named(set@) is Some
                    &&& profile is Some
                    &&& !old(
                        self,
                    )@.sets[old(self)@.named(set@)->Some_0].profiles.contains_key(profile->Some_0@)
                    &&& known@ == set@
                    &&& unknown@ == profile->Some_0@
                    &&& final(self)@ == old(self)@
                },
            },
    {
        let index = match self.named(set) {
            Ok(index) => index,
            Err(error) => {
                return Err(error);
            },
        };
        proof {
            self@.named_is_named_set(set@);
        }
        assert(self@.sets[index as int] == self.sets@[index as int]@);
        if let Some(name) = profile {
            if !self.sets[index].profiles.contains_key(name) {
                return Err(
                    EnableError::UnknownProfile {
                        set: set.to_owned(),
                        profile: name.to_owned(),
                    },
                );
            }
        }
        let _ = self.set_listed(index, true);
        let _ = self.set_enabled_set(index, true);
        if let Some(name) = profile {
            let _ = self.apply_profile(index, name);
        }
        Ok(())
    }

    /// Unlists the set called `set`.
    pub fn unlist_named(&mut self, set: &str) -> (unlisted: Result<(), EnableError>)
        requires
            old(self).wf(),
        ensures
            final(self).wf(),
            match unlisted {
                Ok(()) => {
                    &&& old(self)@.named(set@) is Some
                    &&& final(self)@ == old(self)@.set_relisted(
                        old(self)@.named(set@)->Some_0,
                        false,
                    )
                },
                Err(error) => {
                    &&& old(self)@.named(set@) is None
                    &&& error matches EnableError::UnknownSet(unknown)
                    &&& unknown@ == set@
                    &&& final(self)@ == old(self)@
                },
            },
    {
        let index = match self.named(set) {
            Ok(index) => index,
            Err(error) => {
                return Err(error);
            },
        };
        proof {
            self@.named_is_named_set(set@);
        }
        let _ = self.set_listed(index, false);
        Ok(())
    }

    /// Every set's flag.
    fn set_flags(&self) -> (flags: Vec<bool>)
        ensures
            flags@ == self@.set_flags(),
    {
        let mut flags: Vec<bool> = Vec::new();
        let mut i: usize = 0;
        while i < self.sets.len()
            invariant
                i <= self.sets@.len(),
                flags@ =~= self@.set_flags().take(i as int),
            decreases self.sets@.len() - i,
        {
            flags.push(self.sets[i].enabled);
            i += 1;
        }
        assert(flags@ =~= self@.set_flags());
        flags
    }

    /// Switches `set` on and every other set off, and applies its default
    /// profile where it was off.
    fn keep_only(&mut self, set: usize)
        requires
            old(self).wf(),
            old(self)@.can_solo(set as int),
        ensures
            final(self).wf(),
            final(self)@ == old(self)@.only_set(set as int),
    {
        let ghost before = self@;
        assert(before.sets[set as int] == self.sets@[set as int]@);
        let was_on = self.sets[set].enabled;
        let ghost flagged = ActiveModel {
            sets: Seq::new(before.sets.len(), |i: int| before.sets[i].switched(i == set)),
            ..before
        };
        let mut i: usize = 0;
        while i < self.sets.len()
            invariant
                before == old(self)@,
                flagged.sets == Seq::new(
                    before.sets.len(),
                    |i: int| before.sets[i].switched(i == set),
                ),
                i <= self.sets@.len(),
                self.in_step(),
                self@ =~= (ActiveModel { sets: self@.sets, ..before }),
                self@.sets.len() == before.sets.len(),
                forall|j: int| 0 <= j < i ==> (#[trigger] self@.sets[j]) == flagged.sets[j],
                forall|j: int|
                    i <= j < before.sets.len() ==> (#[trigger] self@.sets[j]) == before.sets[j],
            decreases self.sets@.len() - i,
        {
            let ghost current = self@;
            assert(current.sets[i as int] == self.sets@[i as int]@);
            assert(current.sets[i as int] == before.sets[i as int]);
            self.sets[i].enabled = i == set;
            assert(self@.sets =~= current.sets.update(
                i as int,
                current.sets[i as int].switched(i == set),
            ));
            assert(self@.sources() =~= current.sources());
            i += 1;
        }
        assert(self@.sets =~= flagged.sets);
        assert(self@ =~= flagged);
        assert(self@.well_formed()) by {
            before.set_flags_keep_form(flagged.sets);
        }
        if !was_on {
            let _ = self.apply_profile(set, DEFAULT_PROFILE);
        }
    }

    /// Solos a set: only it stays on, and every set's flag is kept to be put
    /// back. On the soloed set the flags are put back instead; on another set
    /// the solo moves there. Says whether there is a solo now.
    pub fn solo(&mut self, set: usize) -> (on: bool)
        requires
            old(self).wf(),
        ensures
            final(self).wf(),
            final(self)@ == if old(self)@.can_solo(set as int) {
                old(self)@.soloed(set as int)
            } else {
                old(self)@
            },
            on == (final(self)@.solo is Some),
    {
        if set == 0 || set >= self.sets.len() || !self.sets[set].listed {
            assert(set < self@.sets.len() ==> self@.sets[set as int] == self.sets@[set as int]@);
            return self.solo.is_some();
        }
        assert(self@.sets[set as int] == self.sets@[set as int]@);
        let ghost before = self@;
        match self.solo.take() {
            Some(current) => {
                let ghost ended = ActiveModel { solo: None, ..before };
                assert(self@ =~= ended);
                assert(self@.sources() =~= before.sources());
                if current.set == set {
                    proof {
                        before.ending_solo_keeps_form();
                    }
                    assert(ended.sets_restored(current.snapshot@) =~= (ActiveModel {
                        solo: None,
                        ..before.sets_restored(current.snapshot@)
                    }));
                    self.restore(&current.snapshot);
                    return false;
                }
                self.solo = Some(Solo { set, snapshot: current.snapshot });
            },
            None => {
                let snapshot = self.set_flags();
                self.solo = Some(Solo { set, snapshot });
            },
        }
        let ghost begun = self@;
        assert(begun =~= (ActiveModel { solo: begun.solo, ..before }));
        assert(begun.sources() =~= before.sources());
        assert(begun.well_formed());
        self.keep_only(set);
        assert(self@ =~= before.soloed(set as int));
        true
    }

    /// The soloed set, where there is one.
    pub fn soloed(&self) -> (set: Option<usize>)
        ensures
            match (set, self@.solo) {
                (Some(set), Some(solo)) => solo.set == set,
                (None, None) => true,
                _ => false,
            },
    {
        match &self.solo {
            Some(solo) => Some(solo.set),
            None => None,
        }
    }
}

impl ActiveFilters {
    /// Every named set back in its startup state, as it is listed now: on
    /// where it starts on, with the filters on that its default profile names.
    /// Scratch filters keep their flags.
    pub fn reset(&mut self)
        requires
            old(self).wf(),
        ensures
            final(self).wf(),
            final(self)@ == old(self)@.restarted(),
    {
        let ghost before = self@;
        let ghost after = before.restarted();
        self.solo = None;
        self.remembered = None;
        let ghost plain = ActiveModel { solo: None, remembered: None, ..before };
        assert(self@ =~= plain);
        assert(self@.sources() =~= before.sources());
        assert(self@.sets[0] == self.sets@[0]@);
        self.sets[0].enabled = true;
        assert(self@.sets =~= plain.sets.update(0, plain.sets[0].switched(true)));
        assert(self@.sources() =~= before.sources());
        proof {
            plain.set_flags_keep_form(plain.sets.update(0, plain.sets[0].switched(true)));
        }
        assert(self@.sets[0] =~= after.sets[0]);
        let mut set: usize = 1;
        while set < self.sets.len()
            invariant
                before == old(self)@,
                after == before.restarted(),
                plain == (ActiveModel { solo: None, remembered: None, ..before }),
                before.well_formed(),
                1 <= set <= self.sets@.len(),
                self.wf(),
                self@ =~= (ActiveModel { sets: self@.sets, filters: self@.filters, ..plain }),
                self@.sets.len() == before.sets.len(),
                self@.filters.len() == before.filters.len(),
                forall|j: int| 0 <= j < set ==> (#[trigger] self@.sets[j]) == after.sets[j],
                forall|j: int|
                    set <= j < before.sets.len() ==> (#[trigger] self@.sets[j]) == before.sets[j],
                forall|i: int|
                    0 <= i < before.filters.len() ==> (#[trigger] self@.filters[i])
                        == if before.filters[i].set < set {
                        after.filters[i]
                    } else {
                        before.filters[i]
                    },
            decreases self.sets@.len() - set,
        {
            let ghost current = self@;
            let nobody: Vec<String> = Vec::new();
            self.apply_members(set, &nobody);
            let ghost cleared = self@;
            assert forall|i: int| 0 <= i < before.filters.len() implies (
            #[trigger] cleared.filters[i]) == if before.filters[i].set == set {
                before.filters[i].switched(false)
            } else {
                current.filters[i]
            } by {
                assert(current.filters[i].set == before.filters[i].set);
            }
            assert(self@.sets[set as int] == self.sets@[set as int]@);
            assert(self@.sets[set as int] == before.sets[set as int]);
            let _ = self.set_enabled_set(set, false);
            let ghost off = self@;
            assert(off.sets =~= current.sets.update(
                set as int,
                current.sets[set as int].switched(false),
            ));
            assert(self@.sets[set as int] == self.sets@[set as int]@);
            if self.sets[set].autoload && self.sets[set].listed {
                let _ = self.set_enabled_set(set, true);
            }
            proof {
                let done = self@;
                assert(done.sets =~= current.sets.update(set as int, after.sets[set as int]));
                assert forall|i: int| 0 <= i < before.filters.len() implies (
                #[trigger] done.filters[i]) == if before.filters[i].set < set + 1 {
                    after.filters[i]
                } else {
                    before.filters[i]
                } by {
                    assert(off.filters[i] == cleared.filters[i]);
                    assert(before.filters[i].set == set ==> before.filters[i].display_name()
                        == off.filters[i].display_name());
                }
            }
            set += 1;
        }
        assert(self@.sets =~= after.sets);
        assert(self@.filters =~= after.filters) by {
            assert forall|i: int| 0 <= i < before.filters.len() implies self@.filters[i]
                == after.filters[i] by {
                assert(before.filters[i].set < before.sets.len());
            }
        }
        assert(self@ =~= after);
    }
}

/// The models of borrowed sets.
pub open spec fn borrowed_models(sets: Seq<&LoadedSet>) -> Seq<LoadedModel> {
    Seq::new(sets.len(), |i: int| sets[i]@)
}

/// The place of `set` among sets in order.
fn place_of(sets: &Vec<&LoadedSet>, set: &LoadedSet) -> (place: usize)
    ensures
        place == model::place_among(borrowed_models(sets@), set@),
        place <= sets@.len(),
{
    let ghost models = borrowed_models(sets@);
    let ghost test = |i: int| set@.stands_before(models[i]);
    let mut place: usize = 0;
    while place < sets.len()
        invariant
            models == borrowed_models(sets@),
            test == (|i: int| set@.stands_before(models[i])),
            place <= sets@.len(),
            forall|i: int| 0 <= i < place ==> !(#[trigger] test(i)),
        decreases sets@.len() - place,
    {
        assert(models[place as int] == sets@[place as int]@);
        if set.stands_before(sets[place]) {
            assert(test(place as int));
            proof {
                model::first_index_is(test, 0, models.len() as int, place as int);
            }
            return place;
        }
        assert(!test(place as int));
        place += 1;
    }
    proof {
        model::first_index_is(test, 0, models.len() as int, place as int);
    }
    place
}

/// The sets in their order, and `builtin` among them where none of them is
/// built in.
fn ordered<'a>(sets: &'a [LoadedSet], builtin: &'a LoadedSet) -> (found: Vec<&'a LoadedSet>)
    requires
        builtin@ == LoadedModel::builtin_default(),
    ensures
        borrowed_models(found@) == model::in_order(model::with_builtin(loaded_models(sets@))),
{
    let ghost all = loaded_models(sets@);
    let mut found: Vec<&'a LoadedSet> = Vec::new();
    let mut any_builtin = false;
    let mut i: usize = 0;
    assert(borrowed_models(found@) =~= model::in_order(all.take(0)));
    while i < sets.len()
        invariant
            all == loaded_models(sets@),
            i <= sets@.len(),
            borrowed_models(found@) == model::in_order(all.take(i as int)),
            any_builtin == exists|j: int| 0 <= j < i && (#[trigger] all[j]).builtin,
        decreases sets@.len() - i,
    {
        let ghost before = borrowed_models(found@);
        let set: &'a LoadedSet = &sets[i];
        proof {
            assert(all[i as int] == set@);
            assert(all.take(i + 1).drop_last() =~= all.take(i as int));
            assert(all.take(i + 1).last() == set@);
        }
        let place = place_of(&found, set);
        found.insert(place, set);
        assert(borrowed_models(found@) =~= before.insert(place as int, set@));
        if set.builtin {
            any_builtin = true;
        }
        i += 1;
    }
    assert(all.take(sets@.len() as int) =~= all);
    if !any_builtin {
        let ghost before = borrowed_models(found@);
        let place = place_of(&found, builtin);
        found.insert(place, builtin);
        assert(borrowed_models(found@) =~= before.insert(place as int, builtin@));
        assert(all.push(builtin@).drop_last() =~= all);
    }
    found
}

impl ActiveFilters {
    /// Puts a set behind the others, and its filters behind theirs.
    fn push_loaded(&mut self, loaded: &LoadedSet)
        requires
            old(self)@.loading(),
        ensures
            final(self)@ == old(self)@.with_loaded(loaded@),
            final(self)@.loading(),
    {
        let ghost before = self@;
        proof {
            before.loading_goes_on(loaded@);
        }
        let index: usize = self.sets.len();
        let count = self.authored_count();
        let description: Option<String> = match &loaded.description {
            Some(text) => Some(text.clone()),
            None => if loaded.builtin {
                Some(DEFINITIONS_DESCRIPTION.to_owned())
            } else {
                None
            },
        };
        let origin = if loaded.builtin {
            Origin::BuiltIn
        } else {
            Origin::File(loaded.path.clone())
        };
        self.sets.push(
            FilterSet {
                name: loaded.name.clone(),
                origin,
                priority: loaded.priority,
                autoload: loaded.autoload,
                listed: loaded.listed,
                enabled: false,
                description,
                profiles: loaded.profiles.clone(),
            },
        );
        let ghost after = before.with_loaded(loaded@);
        assert(self@.sets =~= after.sets);
        if loaded.builtin {
            let mut k: usize = 0;
            let ghost added = model::builtin_filters(index as int);
            assert(self@.filters =~= before.filters + added.take(0));
            while k < KIND_COUNT
                invariant
                    k <= KIND_COUNT,
                    index == before.sets.len(),
                    added == model::builtin_filters(index as int),
                    self@ =~= (ActiveModel { sets: after.sets, filters: self@.filters, ..before }),
                    self@.filters == before.filters + added.take(k as int),
                decreases KIND_COUNT - k,
            {
                let ghost current = self@;
                let kind = Kind::ALL[k];
                self.filters.push(
                    Filter {
                        predicate: Predicate::Definition(kind),
                        sense: Sense::Include,
                        enabled: false,
                        style: Style { fg: None, dim: false },
                        name: Some(kind.plural().to_owned()),
                        set: index,
                    },
                );
                assert(self@.filters =~= current.filters.push(added[k as int]));
                assert(added.take(k + 1) =~= added.take(k as int).push(added[k as int]));
                assert(self@.filters =~= before.filters + added.take(k + 1));
                k += 1;
            }
            assert(added.take(KIND_COUNT as int) =~= added);
        } else {
            let mut j: usize = 0;
            let ghost added = before.file_filters(loaded@);
            assert(self@.filters =~= before.filters + added.take(0));
            while j < loaded.filters.len()
                invariant
                    j <= loaded.filters@.len(),
                    index == before.sets.len(),
                    before.palette.len() > 0,
                    count == before.user_count(),
                    added == before.file_filters(loaded@),
                    self@ =~= (ActiveModel { sets: after.sets, filters: self@.filters, ..before }),
                    self@.filters == before.filters + added.take(j as int),
                decreases loaded.filters@.len() - j,
            {
                let ghost current = self@;
                let filter = &loaded.filters[j];
                assert(loaded@.filters[j as int] == filter@);
                let style = match filter.colour {
                    Some(colour) => Style::of(colour),
                    None => Style::of(
                        self.palette[next_colour(count, j, self.palette.len())],
                    ),
                };
                self.filters.push(
                    Filter {
                        predicate: filter.predicate.clone(),
                        sense: filter.sense,
                        enabled: false,
                        style,
                        name: Some(filter.name.clone()),
                        set: index,
                    },
                );
                assert(self@.filters =~= current.filters.push(added[j as int]));
                assert(added.take(j + 1) =~= added.take(j as int).push(added[j as int]));
                assert(self@.filters =~= before.filters + added.take(j + 1));
                j += 1;
            }
            assert(added.take(loaded.filters@.len() as int) =~= added);
        }
        assert(self@ =~= after);
    }

    /// The filters as the program starts: the scratch set, then the named sets
    /// in their order, the built-in one among them. A set that is to start on
    /// and is listed is on, with the filters that its default profile names.
    pub fn with_sets(palette: Option<Vec<Color>>, sets: &[LoadedSet]) -> (filters: Self)
        ensures
            filters.wf(),
            filters@ == ActiveModel::startup(
                crate::colour::option_colours(palette),
                loaded_models(sets@),
            ),
    {
        let ghost chosen = crate::colour::option_colours(palette);
        let builtin = LoadedSet::builtin_default();
        let found = ordered(sets, &builtin);
        let mut this = ActiveFilters::bare(palette);
        let ghost bare = this@;
        let ghost all = borrowed_models(found@);
        let mut i: usize = 0;
        while i < found.len()
            invariant
                i <= found@.len(),
                all == borrowed_models(found@),
                this@.loading(),
                this@ == bare.with_all_loaded(all.take(i as int)),
            decreases found@.len() - i,
        {
            proof {
                assert(all.take(i + 1).drop_last() =~= all.take(i as int));
                assert(all.take(i + 1).last() == found@[i as int]@);
            }
            this.push_loaded(found[i]);
            i += 1;
        }
        assert(all.take(found@.len() as int) =~= all);
        proof {
            ActiveModel::loading_ends_well_formed(chosen, loaded_models(sets@));
        }
        this.recompile();
        this.reset();
        this
    }
}

impl ActiveFilters {
    /// The names of the first `count` filters that are on.
    fn names_on(&self, count: usize) -> (names: Vec<String>)
        requires
            count <= self@.filters.len(),
        ensures
            text::texts(names@) == ActiveModel::names_on(self@.filters.take(count as int)),
    {
        let mut names: Vec<String> = Vec::new();
        let mut i: usize = 0;
        assert(text::texts(names@) =~= ActiveModel::names_on(self@.filters.take(0)));
        while i < count
            invariant
                i <= count <= self@.filters.len(),
                text::texts(names@) == ActiveModel::names_on(self@.filters.take(i as int)),
            decreases count - i,
        {
            proof {
                assert(self@.filters.take(i + 1).drop_last() =~= self@.filters.take(i as int));
                assert(self@.filters.take(i + 1).last() == self.filters@[i as int]@);
            }
            if self.filters[i].enabled {
                let name = self.filters[i].display_name();
                proof {
                    text::texts_push(names@, name);
                }
                names.push(name);
            }
            i += 1;
        }
        names
    }

    /// The place of a new set of the default priority among the sets.
    fn adopting_place(&self, name: &str) -> (place: usize)
        requires
            self.wf(),
        ensures
            place == self@.adopting_place(name@),
            1 <= place <= self@.sets.len(),
    {
        let ghost test = |i: int|
            model::sorts_before(
                DEFAULT_PRIORITY,
                name@,
                self@.sets[i].priority,
                self@.sets[i].name,
            );
        let ghost len = self@.sets.len() as int;
        let mut place: usize = 1;
        while place < self.sets.len()
            invariant
                self.wf(),
                len == self@.sets.len(),
                test == (|i: int|
                    model::sorts_before(
                        DEFAULT_PRIORITY,
                        name@,
                        self@.sets[i].priority,
                        self@.sets[i].name,
                    )),
                1 <= place <= self@.sets.len(),
                forall|i: int| 1 <= i < place ==> !(#[trigger] test(i)),
            decreases self.sets@.len() - place,
        {
            assert(self@.sets[place as int] == self.sets@[place as int]@);
            let set = &self.sets[place];
            let stands_before = DEFAULT_PRIORITY < set.priority || (DEFAULT_PRIORITY
                == set.priority && text::comes_before(name, set.name.as_str()));
            if stands_before {
                assert(test(place as int));
                proof {
                    model::first_index_is(test, 1, len, place as int);
                }
                return place;
            }
            assert(!test(place as int));
            place += 1;
        }
        proof {
            model::first_index_is(test, 1, len, place as int);
        }
        place
    }

    /// The first filter behind the scratch filters whose set is at `place` or
    /// behind it.
    fn adopting_split(&self, end: usize, place: usize) -> (split: usize)
        requires
            self.wf(),
            end == self@.scratch_end(),
            end <= self@.filters.len(),
        ensures
            split == self@.adopting_split(place as int),
            end <= split <= self@.filters.len(),
    {
        let ghost test = |i: int| self@.filters[i].set >= place;
        let ghost len = self@.filters.len() as int;
        let mut split: usize = end;
        while split < self.filters.len() && self.filters[split].set < place
            invariant
                self.wf(),
                len == self@.filters.len(),
                test == (|i: int| self@.filters[i].set >= place),
                end <= split <= self@.filters.len(),
                forall|i: int| end <= i < split ==> !(#[trigger] test(i)),
            decreases self.filters@.len() - split,
        {
            assert(self@.filters[split as int] == self.filters@[split as int]@);
            assert(!test(split as int));
            split += 1;
        }
        proof {
            if split < len {
                assert(self@.filters[split as int] == self.filters@[split as int]@);
                assert(test(split as int));
            }
            model::first_index_is(test, end as int, len, split as int);
        }
        split
    }

    /// Turns the scratch set into a named set that is on, and says whether it
    /// did: not where there is no scratch filter, nor where a set has the name
    /// already. The set's filters keep their colours and flags, and its
    /// default profile names those that are on now.
    pub fn adopt_scratch_as(&mut self, name: &str, path: String) -> (adopted: bool)
        requires
            old(self).wf(),
        ensures
            final(self).wf(),
            adopted == old(self)@.can_adopt(name@),
            final(self)@ == if adopted {
                old(self)@.adopted(name@, path@)
            } else {
                old(self)@
            },
    {
        let ghost before = self@;
        let end = self.scratch_end();
        if end == 0 {
            return false;
        }
        let mut i: usize = 0;
        while i < self.sets.len()
            invariant
                before == old(self)@,
                before == self@,
                self.wf(),
                i <= self.sets@.len(),
                forall|j: int| 0 <= j < i ==> (#[trigger] before.sets[j]).name != name@,
            decreases self.sets@.len() - i,
        {
            assert(before.sets[i as int] == self.sets@[i as int]@);
            if text::same(self.sets[i].name.as_str(), name) {
                assert(before.sets[i as int].name == name@);
                return false;
            }
            i += 1;
        }
        let count: usize = self.sets.len();
        let ghost where_from = path@;
        let ghost after = before.adopted(name@, where_from);
        proof {
            before.adopting_keeps_form(name@, where_from);
        }
        let members = self.names_on(end);
        let mut profiles = Profiles::new();
        if members.len() > 0 {
            profiles.insert(DEFAULT_PROFILE.to_owned(), members);
        }
        let place = self.adopting_place(name);
        let split = self.adopting_split(end, place);
        self.sets.insert(
            place,
            FilterSet {
                name: name.to_owned(),
                origin: Origin::File(path),
                priority: DEFAULT_PRIORITY,
                autoload: false,
                listed: true,
                enabled: true,
                description: None,
                profiles,
            },
        );
        assert(self@.sets =~= after.sets);
        match &mut self.solo {
            Some(solo) => {
                solo.snapshot.insert(place, false);
                if solo.set >= place {
                    solo.set = solo.set + 1;
                }
            },
            None => {},
        }
        assert(self@.solo =~= after.solo);
        self.remembered = None;
        let mut kept = self.filters.split_off(end);
        let mut behind = kept.split_off(split - end);
        let mut adopted: Vec<Filter> = Vec::new();
        adopted.append(&mut self.filters);
        let ghost moved = crate::filter::filter_models(adopted@);
        let ghost shifted = crate::filter::filter_models(behind@);
        let ghost stayed = crate::filter::filter_models(kept@);
        assert(moved =~= before.filters.take(end as int));
        assert(stayed =~= before.filters.subrange(end as int, split as int));
        assert(shifted =~= before.filters.skip(split as int));
        set_all_to(&mut adopted, place);
        assert forall|j: int| 0 <= j < behind@.len() implies (#[trigger] behind@[j]).set < count by {
            assert(shifted[j] == behind@[j]@);
            assert(before.filters[split + j].set < before.sets.len());
        }
        shift_all(&mut behind);
        kept.append(&mut adopted);
        kept.append(&mut behind);
        self.filters = kept;
        assert(self@.filters =~= after.filters);
        assert(self@ =~= after);
        self.recompile();
        true
    }
}

/// Puts every filter into the set at `place`.
fn set_all_to(filters: &mut Vec<Filter>, place: usize)
    ensures
        final(filters)@.len() == old(filters)@.len(),
        forall|i: int|
            0 <= i < old(filters)@.len() ==> (#[trigger] final(filters)@[i])@ == (FilterModel {
                set: place as int,
                ..old(filters)@[i]@
            }),
{
    let ghost before = filters@;
    let mut i: usize = 0;
    while i < filters.len()
        invariant
            i <= filters@.len(),
            filters@.len() == before.len(),
            forall|j: int|
                0 <= j < i ==> (#[trigger] filters@[j])@ == (FilterModel {
                    set: place as int,
                    ..before[j]@
                }),
            forall|j: int| i <= j < before.len() ==> (#[trigger] filters@[j]) == before[j],
        decreases filters@.len() - i,
    {
        filters[i].set = place;
        i += 1;
    }
}

/// Moves every filter to the set behind its own.
fn shift_all(filters: &mut Vec<Filter>)
    requires
        forall|i: int| 0 <= i < old(filters)@.len() ==> (#[trigger] old(filters)@[i]).set < usize::MAX,
    ensures
        final(filters)@.len() == old(filters)@.len(),
        forall|i: int|
            0 <= i < old(filters)@.len() ==> (#[trigger] final(filters)@[i])@ == (FilterModel {
                set: old(filters)@[i].set + 1,
                ..old(filters)@[i]@
            }),
{
    let ghost before = filters@;
    let mut i: usize = 0;
    while i < filters.len()
        invariant
            i <= filters@.len(),
            filters@.len() == before.len(),
            forall|j: int| 0 <= j < before.len() ==> (#[trigger] before[j]).set < usize::MAX,
            forall|j: int|
                0 <= j < i ==> (#[trigger] filters@[j])@ == (FilterModel {
                    set: before[j].set + 1,
                    ..before[j]@
                }),
            forall|j: int| i <= j < before.len() ==> (#[trigger] filters@[j]) == before[j],
        decreases filters@.len() - i,
    {
        let set = filters[i].set;
        filters[i].set = set + 1;
        i += 1;
    }
}

} // verus!
