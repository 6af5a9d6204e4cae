//! Filters decide how each line of a viewed file is presented.
//!
//! `model` says what the filters mean, this file holds the filters themselves
//! and the verdict on a line, `sets` the sets they come in, and `matcher` the
//! snapshot that a scan over many files matches with.

pub mod laws;
pub mod matcher;
pub mod model;
pub mod operations;
pub mod outcomes;
pub mod profiles;
pub mod set_outcomes;
pub mod sets;

pub use crate::filter::matcher::{Matcher, Owner};
pub use crate::filter::sets::{
    is_builtin_name, EnableError, FilterSet, LoadedFilter, LoadedSet, Origin,
    DEFINITIONS_DESCRIPTION, DEFINITIONS_SET,
};

use crate::colour::{Color, Style};
use crate::filter::model::{ActiveModel, FilterModel, PredicateModel, NEVER};
use crate::filter::sets::Solo;
use crate::pattern;
use crate::pattern::{Pattern, PatternError, PatternSet};
use crate::syntax::{Kind, KindSet};
use crate::text;
use vstd::prelude::*;

verus! {

/// How many colours a built-in palette has.
pub const PALETTE_SIZE: usize = 13;

/// The colours of successive filters on a dark background, as indices into the
/// 256 colours whose look no theme decides.
pub const DEFAULT_PALETTE: [u8; PALETTE_SIZE] = [
    220, 51, 46, 201, 105, 196, 120, 203, 42, 33, 161, 170, 202,
];

/// The colours of successive filters on a light background.
pub const LIGHT_PALETTE: [u8; PALETTE_SIZE] = [
    33, 124, 28, 55, 167, 24, 136, 65, 18, 69, 35, 126, 64,
];

/// The grey of dimmed text on a dark background.
pub const DIM_GREY: u8 = 240;

/// The grey of dimmed text on a light background.
pub const LIGHT_DIM_GREY: u8 = 250;

/// Whether the terminal's background is dark or light.
#[derive(Debug, Clone, Copy, PartialEq, Eq, Structural)]
pub enum Background {
    Dark,
    Light,
}

/// Whether a filter selects lines, shows them without counting them, or
/// removes them.
#[derive(Debug, Clone, Copy, PartialEq, Eq, Structural)]
pub enum Sense {
    Include,
    Context,
    Exclude,
}

/// What the filters decided about one line.
#[derive(Debug, Clone, Copy, PartialEq, Eq, Structural)]
pub enum Verdict {
    /// An including filter selected it; the filter's place gives the colour.
    Included(usize),
    /// A context filter matched it and no including one selected it.
    Context(usize),
    /// No including or context filter matched it.
    Unmatched,
    /// An excluding filter removed it.
    Excluded,
}

/// How the including filters that take effect combine.
#[derive(Debug, Clone, Copy, PartialEq, Eq, Structural)]
pub enum Combine {
    /// A line is included when one of them matches it.
    Or,
    /// A line is included when all of them match it.
    And,
}

/// The colours of a built-in palette.
pub open spec fn indexed(indices: Seq<u8>) -> Seq<Color> {
    Seq::new(indices.len(), |i: int| Color::Indexed(indices[i]))
}

impl Background {
    /// The colours for this background.
    pub open spec fn colours(self) -> Seq<Color> {
        match self {
            Background::Dark => indexed(DEFAULT_PALETTE@),
            Background::Light => indexed(LIGHT_PALETTE@),
        }
    }

    /// The style of dimmed text on this background.
    pub open spec fn dim(self) -> Style {
        let grey = match self {
            Background::Dark => DIM_GREY,
            Background::Light => LIGHT_DIM_GREY,
        };
        Style { fg: Some(Color::Indexed(grey)), dim: true }
    }
}

impl Default for Background {
    /// Light text on a dark background.
    fn default() -> (background: Self)
        ensures
            background == Background::Dark,
    {
        Background::Dark
    }
}

impl Default for Combine {
    /// One matching filter is enough.
    fn default() -> (combine: Self)
        ensures
            combine == Combine::Or,
    {
        Combine::Or
    }
}

/// The colours with these indices.
fn indexed_colours(indices: &[u8; PALETTE_SIZE]) -> (colours: Vec<Color>)
    ensures
        colours@ == indexed(indices@),
{
    let mut colours: Vec<Color> = Vec::new();
    let mut i: usize = 0;
    while i < PALETTE_SIZE
        invariant
            i <= PALETTE_SIZE,
            colours@ =~= indexed(indices@).take(i as int),
        decreases PALETTE_SIZE - i,
    {
        colours.push(Color::Indexed(indices[i]));
        i += 1;
    }
    colours
}

impl Background {
    /// The built-in palette for this background.
    pub fn palette(self) -> (colours: Vec<Color>)
        ensures
            colours@ == self.colours(),
    {
        match self {
            Background::Dark => indexed_colours(&DEFAULT_PALETTE),
            Background::Light => indexed_colours(&LIGHT_PALETTE),
        }
    }

    /// How dimmed text is drawn on this background. The grey does what the
    /// faint attribute alone does not in many terminals.
    pub fn dim_style(self) -> (style: Style)
        ensures
            style == self.dim(),
    {
        let grey: u8 = match self {
            Background::Dark => DIM_GREY,
            Background::Light => LIGHT_DIM_GREY,
        };
        Style { fg: Some(Color::Indexed(grey)), dim: true }
    }
}

/// What a filter tests a line against.
#[derive(Debug)]
pub enum Predicate {
    /// The line matches a regular expression.
    Regex(Pattern),
    /// The line starts a definition of this kind.
    Definition(Kind),
}

impl View for Predicate {
    type V = PredicateModel;

    open spec fn view(&self) -> PredicateModel {
        match self {
            Predicate::Regex(pattern) => PredicateModel::Regex(pattern@),
            Predicate::Definition(kind) => PredicateModel::Definition(*kind),
        }
    }
}

impl Clone for Predicate {
    /// A predicate that holds of the same lines.
    fn clone(&self) -> (copy: Self)
        ensures
            copy@ == self@,
    {
        match self {
            Predicate::Regex(pattern) => Predicate::Regex(pattern.clone()),
            Predicate::Definition(kind) => Predicate::Definition(*kind),
        }
    }
}

impl Predicate {
    /// What the predicate is shown as: its pattern, or the kind's plural noun.
    pub fn display(&self) -> (text: String)
        ensures
            text@ == self@.display(),
    {
        match self {
            Predicate::Regex(pattern) => pattern.as_str().to_owned(),
            Predicate::Definition(kind) => kind.plural().to_owned(),
        }
    }

    /// The regular expression, where there is one.
    pub fn as_regex(&self) -> (regex: Option<&Pattern>)
        ensures
            match regex {
                Some(pattern) => self@ == PredicateModel::Regex(pattern@),
                None => self@ is Definition,
            },
    {
        match self {
            Predicate::Regex(pattern) => Some(pattern),
            Predicate::Definition(_) => None,
        }
    }

    /// The pattern the predicate puts among the compiled ones.
    pub fn source(&self) -> (source: String)
        ensures
            source@ == self@.source(),
    {
        match self {
            Predicate::Regex(pattern) => pattern.as_str().to_owned(),
            Predicate::Definition(_) => NEVER.to_owned(),
        }
    }

    /// The name the predicate has in a cache of scans.
    pub fn key(&self) -> (key: String)
        ensures
            key@ == self@.key(),
    {
        match self {
            Predicate::Regex(pattern) => pattern.as_str().to_owned(),
            Predicate::Definition(kind) => {
                let mut key = String::new();
                key.push('\u{1}');
                key.append(kind.plural());
                assert(key@ =~= self@.key());
                key
            },
        }
    }

    /// Whether the predicate holds of a line that starts definitions of
    /// `kinds`.
    pub fn holds(&self, line: &str, kinds: KindSet) -> (hit: bool)
        ensures
            hit == self@.holds(line@, kinds),
    {
        match self {
            Predicate::Regex(pattern) => pattern.is_match(line),
            Predicate::Definition(kind) => kinds.contains(*kind),
        }
    }
}

/// One filter.
#[derive(Debug)]
pub struct Filter {
    pub predicate: Predicate,
    pub sense: Sense,
    pub enabled: bool,
    pub style: Style,
    /// The name that a file gives the filter. A typed filter has none.
    pub name: Option<String>,
    /// The place of the filter's set among the sets.
    pub set: usize,
}

impl View for Filter {
    type V = FilterModel;

    open spec fn view(&self) -> FilterModel {
        FilterModel {
            predicate: self.predicate@,
            sense: self.sense,
            enabled: self.enabled,
            style: self.style,
            name: text::option_text(self.name),
            set: self.set as int,
        }
    }
}

impl Filter {
    /// What the filter is called, by the pane and by a profile: its name, or
    /// what its predicate is shown as.
    pub fn display_name(&self) -> (name: String)
        ensures
            name@ == self@.display_name(),
    {
        match &self.name {
            Some(name) => name.clone(),
            None => self.predicate.display(),
        }
    }
}

/// The place in a palette of `len` colours of the filter at `position` behind
/// `count` others.
fn next_colour(count: usize, position: usize, len: usize) -> (place: usize)
    requires
        len > 0,
    ensures
        place == (count + position) % (len as int),
        place < len,
{
    let start: usize = count % len;
    let step: usize = position % len;
    proof {
        vstd::arithmetic::div_mod::lemma_add_mod_noop(
            count as int,
            position as int,
            len as int,
        );
    }
    if step < len - start {
        let place: usize = start + step;
        proof {
            vstd::arithmetic::div_mod::lemma_small_mod(place as nat, len as nat);
        }
        place
    } else {
        let place: usize = step - (len - start);
        proof {
            vstd::arithmetic::div_mod::lemma_small_mod(place as nat, len as nat);
            vstd::arithmetic::div_mod::lemma_mod_add_multiples_vanish(place as int, len as int);
        }
        place
    }
}

/// The models of filters.
pub open spec fn filter_models(filters: Seq<Filter>) -> Seq<FilterModel> {
    Seq::new(filters.len(), |i: int| filters[i]@)
}

/// Every filter's flag, captured to be put back.
#[derive(Debug, Clone, PartialEq, Eq)]
pub struct EnabledFlags {
    filters: Vec<bool>,
}

impl View for EnabledFlags {
    type V = Seq<bool>;

    closed spec fn view(&self) -> Seq<bool> {
        self.filters@
    }
}

/// All filters and the state they are in.
#[derive(Debug)]
pub struct ActiveFilters {
    /// The scratch set, and behind it the named sets in their order.
    sets: Vec<FilterSet>,
    solo: Option<Solo>,
    palette: Vec<Color>,
    background: Background,
    combine: Combine,
    /// Every filter, set by set.
    filters: Vec<Filter>,
    /// The flags that `disable_all_remembering` captured.
    remembered: Option<Vec<bool>>,
    /// Every pattern compiled into one set, the patterns in the filters'
    /// order, where they compile together.
    compiled: Option<PatternSet>,
}

impl View for ActiveFilters {
    type V = ActiveModel;

    closed spec fn view(&self) -> ActiveModel {
        ActiveModel {
            sets: sets::set_models(self.sets@),
            solo: match self.solo {
                Some(solo) => Some(solo@),
                None => None,
            },
            palette: self.palette@,
            background: self.background,
            combine: self.combine,
            filters: filter_models(self.filters@),
            remembered: match self.remembered {
                Some(flags) => Some(flags@),
                None => None,
            },
        }
    }
}

impl Default for ActiveFilters {
    /// The filters as the program starts with no file of sets.
    fn default() -> (filters: Self)
        ensures
            filters.wf(),
            filters@ == ActiveModel::startup(None, Seq::empty()),
    {
        ActiveFilters::new()
    }
}

impl ActiveFilters {
    /// The compiled patterns are those of the filters.
    pub closed spec fn in_step(&self) -> bool {
        match self.compiled {
            Some(set) => {
                &&& pattern::set_compiles(self@.sources())
                &&& set@ == self@.sources()
            },
            None => !pattern::set_compiles(self@.sources()),
        }
    }

    /// What holds of the filters at all times.
    pub open spec fn wf(&self) -> bool {
        self@.well_formed() && self.in_step()
    }

    /// The scratch set and nothing else.
    fn bare(palette: Option<Vec<Color>>) -> (filters: Self)
        ensures
            filters@ == ActiveModel::bare(crate::colour::option_colours(palette)),
            filters@.loading(),
    {
        let ghost chosen = crate::colour::option_colours(palette);
        let colours = match palette {
            Some(colours) => if colours.len() == 0 {
                Background::Dark.palette()
            } else {
                colours
            },
            None => Background::Dark.palette(),
        };
        let mut own: Vec<FilterSet> = Vec::new();
        own.push(FilterSet::scratch());
        let filters = ActiveFilters {
            sets: own,
            solo: None,
            palette: colours,
            background: Background::Dark,
            combine: Combine::Or,
            filters: Vec::new(),
            remembered: None,
            compiled: None,
        };
        assert(filters@ =~= ActiveModel::bare(chosen));
        filters
    }

    /// The filters as the program starts with no file of sets.
    pub fn new() -> (filters: Self)
        ensures
            filters.wf(),
            filters@ == ActiveModel::startup(None, Seq::empty()),
    {
        let nothing: Vec<LoadedSet> = Vec::new();
        let filters = ActiveFilters::with_sets(None, nothing.as_slice());
        assert(sets::loaded_models(nothing@) =~= Seq::empty());
        filters
    }

    /// The filters as the program starts with no file of sets and a palette.
    pub fn with_palette(palette: Vec<Color>) -> (filters: Self)
        ensures
            filters.wf(),
            filters@ == ActiveModel::startup(Some(palette@), Seq::empty()),
    {
        let nothing: Vec<LoadedSet> = Vec::new();
        let filters = ActiveFilters::with_sets(Some(palette), nothing.as_slice());
        assert(sets::loaded_models(nothing@) =~= Seq::empty());
        filters
    }

    /// Compiles the patterns of the filters together. Where they do not
    /// compile together, lines are matched against them one by one.
    fn recompile(&mut self)
        ensures
            final(self)@ == old(self)@,
            final(self).in_step(),
    {
        let mut patterns: Vec<String> = Vec::new();
        let mut i: usize = 0;
        while i < self.filters.len()
            invariant
                self@ == old(self)@,
                i <= self.filters@.len(),
                text::texts(patterns@) =~= self@.sources().take(i as int),
            decreases self.filters@.len() - i,
        {
            let source = self.filters[i].predicate.source();
            let ghost sources = self@.sources();
            assert(sources[i as int] == source@);
            assert(sources.take(i + 1) =~= sources.take(i as int).push(source@));
            proof {
                text::texts_push(patterns@, source);
            }
            patterns.push(source);
            i += 1;
        }
        assert(text::texts(patterns@) =~= self@.sources());
        self.compiled = PatternSet::new(&patterns);
    }

    /// How many filters are of no built-in set.
    fn authored_count(&self) -> (count: usize)
        requires
            self@.loading(),
        ensures
            count == self@.user_count(),
            count <= self@.filters.len(),
    {
        let mut count: usize = 0;
        let mut i: usize = 0;
        while i < self.filters.len()
            invariant
                self@.loading(),
                i <= self.filters@.len(),
                count <= i,
                count == model::authored(self@.filters.take(i as int), self@.sets),
            decreases self.filters@.len() - i,
        {
            proof {
                assert(self@.filters[i as int].set < self@.sets.len());
                assert(self@.filters.take(i + 1).drop_last() =~= self@.filters.take(i as int));
                assert(self@.filters.take(i + 1).last() == self.filters@[i as int]@);
            }
            if !self.sets[self.filters[i].set].origin.is_built_in() {
                count += 1;
            }
            i += 1;
        }
        assert(self@.filters.take(i as int) =~= self@.filters);
        count
    }

    /// How many filters the user wrote: those of no built-in set. They are
    /// what is numbered and coloured.
    pub fn len(&self) -> (count: usize)
        requires
            self.wf(),
        ensures
            count == self@.user_count(),
    {
        self.authored_count()
    }

    /// Whether the user wrote no filter.
    pub fn is_empty(&self) -> (empty: bool)
        requires
            self.wf(),
        ensures
            empty == (self@.user_count() == 0),
    {
        self.len() == 0
    }

    /// Every filter, set by set.
    pub fn filters(&self) -> (filters: &Vec<Filter>)
        ensures
            filter_models(filters@) == self@.filters,
    {
        &self.filters
    }

    /// The style of the next filter that is added.
    fn next_style(&self) -> (style: Style)
        requires
            self.wf(),
        ensures
            style == self@.next_style(),
    {
        let count = self.len();
        Style::of(self.palette[count % self.palette.len()])
    }

    /// Whether the user wrote the filter at `index`.
    pub fn is_user_authored(&self, index: usize) -> (yes: bool)
        requires
            self.wf(),
        ensures
            yes == self@.user_authored(index as int),
    {
        if index < self.filters.len() {
            assert(self@.filters[index as int].set < self@.sets.len());
            !self.sets[self.filters[index].set].origin.is_built_in()
        } else {
            false
        }
    }

    /// Whether the filter at `index` takes effect: it is on, and its set is.
    fn effective(&self, index: usize) -> (yes: bool)
        requires
            self.wf(),
            index < self@.filters.len(),
        ensures
            yes == self@.effective(index as int),
    {
        assert(self@.filters[index as int].set < self@.sets.len());
        self.filters[index].enabled && self.sets[self.filters[index].set].enabled
    }
}

impl ActiveFilters {
    // -----------------------------------------------------------------------
    // Verdicts

    /// The first filter of this sense that takes effect and hits, or the
    /// number of filters.
    fn first_hit(&self, sense: Sense, hits: &Vec<bool>) -> (at: usize)
        requires
            self.wf(),
            hits@.len() == self@.filters.len(),
        ensures
            at == self@.first_hit(sense, hits@),
            at <= self@.filters.len(),
    {
        let ghost test = |i: int| self@.live(sense, i) && hits@[i];
        let ghost len = self@.filters.len() as int;
        let mut at: usize = 0;
        while at < self.filters.len()
            invariant
                self.wf(),
                hits@.len() == self@.filters.len(),
                len == self@.filters.len(),
                test == (|i: int| self@.live(sense, i) && hits@[i]),
                at <= self@.filters.len(),
                forall|i: int| 0 <= i < at ==> !(#[trigger] test(i)),
            decreases self.filters@.len() - at,
        {
            if hits[at] && self.filters[at].sense == sense && self.effective(at) {
                assert(test(at as int));
                proof {
                    model::first_index_is(test, 0, len, at as int);
                }
                return at;
            }
            assert(!test(at as int));
            at += 1;
        }
        proof {
            model::first_index_is(test, 0, len, at as int);
        }
        at
    }

    /// The first filter of this sense that takes effect, or the number of
    /// filters.
    fn first_live(&self, sense: Sense) -> (at: usize)
        requires
            self.wf(),
        ensures
            at == self@.first_live(sense),
            at <= self@.filters.len(),
    {
        let ghost test = |i: int| self@.live(sense, i);
        let ghost len = self@.filters.len() as int;
        let mut at: usize = 0;
        while at < self.filters.len()
            invariant
                self.wf(),
                len == self@.filters.len(),
                test == (|i: int| self@.live(sense, i)),
                at <= self@.filters.len(),
                forall|i: int| 0 <= i < at ==> !(#[trigger] test(i)),
            decreases self.filters@.len() - at,
        {
            if self.filters[at].sense == sense && self.effective(at) {
                assert(test(at as int));
                proof {
                    model::first_index_is(test, 0, len, at as int);
                }
                return at;
            }
            assert(!test(at as int));
            at += 1;
        }
        proof {
            model::first_index_is(test, 0, len, at as int);
        }
        at
    }

    /// Whether every including filter that takes effect hits.
    fn all_hit(&self, hits: &Vec<bool>) -> (all: bool)
        requires
            self.wf(),
            hits@.len() == self@.filters.len(),
        ensures
            all == (forall|i: int|
                0 <= i < self@.filters.len() && #[trigger] self@.live(Sense::Include, i)
                    ==> hits@[i]),
    {
        let mut at: usize = 0;
        while at < self.filters.len()
            invariant
                self.wf(),
                hits@.len() == self@.filters.len(),
                at <= self@.filters.len(),
                forall|i: int|
                    0 <= i < at && #[trigger] self@.live(Sense::Include, i) ==> hits@[i],
            decreases self.filters@.len() - at,
        {
            if !hits[at] && self.filters[at].sense == Sense::Include && self.effective(at) {
                assert(self@.live(Sense::Include, at as int));
                return false;
            }
            at += 1;
        }
        true
    }

    /// What includes a line with these hits, once exclusion has had its say.
    pub fn include_verdict(&self, hits: &Vec<bool>) -> (verdict: Verdict)
        requires
            self.wf(),
            hits@.len() == self@.filters.len(),
        ensures
            verdict == self@.include_verdict(hits@),
    {
        let len: usize = self.filters.len();
        proof {
            self@.first_hit_finds(Sense::Include, hits@);
            self@.first_hit_finds(Sense::Context, hits@);
            self@.first_live_finds(Sense::Include);
        }
        match self.combine {
            Combine::Or => {
                let included = self.first_hit(Sense::Include, hits);
                if included < len {
                    return Verdict::Included(included);
                }
            },
            Combine::And => {
                let included = self.first_live(Sense::Include);
                if included < len && self.all_hit(hits) {
                    return Verdict::Included(included);
                }
            },
        }
        let context = self.first_hit(Sense::Context, hits);
        if context < len {
            Verdict::Context(context)
        } else {
            Verdict::Unmatched
        }
    }

    /// The verdict on a line of which it is known which filters hit it.
    pub fn decide(&self, hits: &Vec<bool>) -> (verdict: Verdict)
        requires
            self.wf(),
            hits@.len() == self@.filters.len(),
        ensures
            verdict == self@.decided(hits@),
    {
        proof {
            self@.first_hit_finds(Sense::Exclude, hits@);
        }
        if self.first_hit(Sense::Exclude, hits) < self.filters.len() {
            Verdict::Excluded
        } else {
            self.include_verdict(hits)
        }
    }

    /// Decides a line filter by filter. Only the filters that take effect are
    /// asked.
    pub fn verdict_by_scanning(&self, line: &str, kinds: KindSet) -> (verdict: Verdict)
        requires
            self.wf(),
        ensures
            verdict == self@.verdict(line@, kinds),
    {
        let mut hits: Vec<bool> = Vec::new();
        let mut i: usize = 0;
        while i < self.filters.len()
            invariant
                self.wf(),
                i <= self@.filters.len(),
                hits@.len() == i,
                forall|j: int|
                    0 <= j < i && #[trigger] self@.effective(j) ==> hits@[j] == self@.hits(
                        line@,
                        kinds,
                    )[j],
            decreases self.filters@.len() - i,
        {
            let hit = self.effective(i) && self.filters[i].predicate.holds(line, kinds);
            hits.push(hit);
            i += 1;
        }
        proof {
            self@.only_effective_hits_decide(hits@, self@.hits(line@, kinds));
        }
        self.decide(&hits)
    }

    /// Whether a line's verdict reads the compiled patterns: a filter with a
    /// regular expression takes effect, of whatever sense.
    pub fn needs_regex(&self) -> (yes: bool)
        requires
            self.wf(),
        ensures
            yes == (exists|i: int|
                0 <= i < self@.filters.len() && #[trigger] self@.effective(i)
                    && self@.filters[i].predicate is Regex),
    {
        let mut i: usize = 0;
        while i < self.filters.len()
            invariant
                self.wf(),
                i <= self@.filters.len(),
                forall|j: int|
                    0 <= j < i && #[trigger] self@.effective(j)
                        ==> !(self@.filters[j].predicate is Regex),
            decreases self.filters@.len() - i,
        {
            if self.filters[i].predicate.as_regex().is_some() && self.effective(i) {
                return true;
            }
            i += 1;
        }
        false
    }

    /// Whether a line's verdict asks which definitions it starts: a filter on
    /// definitions takes effect.
    pub fn needs_kinds(&self) -> (yes: bool)
        requires
            self.wf(),
        ensures
            yes == (exists|i: int|
                0 <= i < self@.filters.len() && #[trigger] self@.effective(i)
                    && self@.filters[i].predicate is Definition),
    {
        let mut i: usize = 0;
        while i < self.filters.len()
            invariant
                self.wf(),
                i <= self@.filters.len(),
                forall|j: int|
                    0 <= j < i && #[trigger] self@.effective(j)
                        ==> !(self@.filters[j].predicate is Definition),
            decreases self.filters@.len() - i,
        {
            if self.filters[i].predicate.as_regex().is_none() && self.effective(i) {
                return true;
            }
            i += 1;
        }
        false
    }

    /// Decides how a line that starts definitions of `kinds` is presented.
    ///
    /// One pass over the line for all patterns, where they compiled together
    /// and one of them takes effect.
    pub fn verdict(&self, line: &str, kinds: KindSet) -> (verdict: Verdict)
        requires
            self.wf(),
        ensures
            verdict == self@.verdict(line@, kinds),
    {
        if !self.needs_regex() {
            return self.verdict_by_scanning(line, kinds);
        }
        let set = match &self.compiled {
            Some(set) => set,
            None => {
                return self.verdict_by_scanning(line, kinds);
            },
        };
        let places = set.matches(line);
        let mut hits: Vec<bool> = Vec::new();
        let mut next: usize = 0;
        let mut i: usize = 0;
        let ghost sources = self@.sources();
        let ghost expected = self@.hits(line@, kinds);
        while i < self.filters.len()
            invariant
                self.wf(),
                sources == self@.sources(),
                expected == self@.hits(line@, kinds),
                pattern::places_of_matches(places@, sources, line@),
                i <= self@.filters.len(),
                next <= places@.len(),
                forall|k: int| 0 <= k < next ==> places@[k] < i,
                forall|k: int| next <= k < places@.len() ==> i <= places@[k],
                hits@ =~= expected.take(i as int),
            decreases self.filters@.len() - i,
        {
            let matched = next < places.len() && places[next] == i;
            proof {
                if matched {
                    assert(places@.contains(i));
                } else {
                    assert(!places@.contains(i));
                }
                assert(sources[i as int] == self@.filters[i as int].predicate.source());
            }
            let hit = match &self.filters[i].predicate {
                Predicate::Regex(_) => matched,
                Predicate::Definition(kind) => kinds.contains(*kind),
            };
            assert(hit == expected[i as int]);
            hits.push(hit);
            if matched {
                next += 1;
            }
            i += 1;
        }
        assert(hits@ =~= expected);
        self.decide(&hits)
    }

    /// Whether a filter that marks lines takes effect.
    pub fn any_including(&self) -> (yes: bool)
        requires
            self.wf(),
        ensures
            yes == self@.any_including(),
    {
        proof {
            self@.first_live_finds(Sense::Include);
            self@.first_live_finds(Sense::Context);
        }
        self.first_live(Sense::Include) < self.filters.len() || self.first_live(Sense::Context)
            < self.filters.len()
    }

    /// Whether a filter that removes lines takes effect.
    pub fn any_excluding(&self) -> (yes: bool)
        requires
            self.wf(),
        ensures
            yes == self@.any_live(Sense::Exclude),
    {
        proof {
            self@.first_live_finds(Sense::Exclude);
        }
        self.first_live(Sense::Exclude) < self.filters.len()
    }

    /// The style for a line with this verdict, or none where it is left alone.
    /// A line that nothing matched is dimmed only where something could have.
    pub fn style_for(&self, verdict: Verdict) -> (style: Option<Style>)
        requires
            self.wf(),
        ensures
            style == self@.style_for(verdict),
    {
        match verdict {
            Verdict::Included(index) | Verdict::Context(index) => if index < self.filters.len() {
                Some(self.filters[index].style)
            } else {
                None
            },
            Verdict::Unmatched => if self.any_including() {
                Some(self.dim_style())
            } else {
                None
            },
            Verdict::Excluded => None,
        }
    }

    /// Says which background dimmed text is drawn on.
    pub fn set_background(&mut self, background: Background)
        requires
            old(self).wf(),
        ensures
            final(self).wf(),
            final(self)@ == (ActiveModel { background, ..old(self)@ }),
    {
        self.background = background;
        assert(self@.sources() =~= old(self)@.sources());
    }

    /// How dimmed text is drawn.
    pub fn dim_style(&self) -> (style: Style)
        ensures
            style == self@.background.dim(),
    {
        self.background.dim_style()
    }
}

impl ActiveFilters {
    // -----------------------------------------------------------------------
    // Adding, changing and removing

    /// Where the scratch filters end.
    fn scratch_end(&self) -> (at: usize)
        requires
            self.wf(),
        ensures
            at == self@.scratch_end(),
            at <= self@.filters.len(),
            forall|i: int| 0 <= i < at ==> (#[trigger] self@.filters[i]).set == 0,
            forall|i: int| at <= i < self@.filters.len() ==> (#[trigger] self@.filters[i]).set > 0,
    {
        let ghost test = |i: int| self@.filters[i].set != 0;
        let ghost len = self@.filters.len() as int;
        let mut at: usize = 0;
        while at < self.filters.len() && self.filters[at].set == 0
            invariant
                self.wf(),
                test == (|i: int| self@.filters[i].set != 0),
                at <= self@.filters.len(),
                forall|i: int| 0 <= i < at ==> !(#[trigger] test(i)),
                forall|i: int| 0 <= i < at ==> (#[trigger] self@.filters[i]).set == 0,
            decreases self.filters@.len() - at,
        {
            assert(self@.filters[at as int] == self.filters@[at as int]@);
            assert(!test(at as int));
            at += 1;
        }
        proof {
            if at < len {
                assert(self@.filters[at as int] == self.filters@[at as int]@);
                assert(test(at as int));
            }
            model::first_index_is(test, 0, len, at as int);
        }
        at
    }

    /// Puts a filter behind the other scratch filters. A pending capture of
    /// flags does not fit the filters any more and is dropped.
    pub fn insert_scratch(&mut self, filter: Filter)
        requires
            old(self).wf(),
            filter.set == 0,
        ensures
            final(self).wf(),
            final(self)@ == old(self)@.with_scratch(filter@),
    {
        let at = self.scratch_end();
        let ghost before = self@;
        let ghost added = filter@;
        self.filters.insert(at, filter);
        self.remembered = None;
        assert(self@.filters =~= before.filters.insert(at as int, added));
        assert(self@ =~= before.with_scratch(added));
        proof {
            before.scratch_keeps_form(added);
        }
        self.recompile();
    }

    /// Adds an including filter in the next colour. A pattern that does not
    /// compile is refused, and nothing changes.
    pub fn add(&mut self, pattern: &str) -> (added: Result<(), PatternError>)
        requires
            old(self).wf(),
        ensures
            final(self).wf(),
            match added {
                Ok(()) => {
                    &&& pattern::refusal(pattern@) is None
                    &&& final(self)@ == old(self)@.with_scratch(
                        ActiveModel::typed(
                            PredicateModel::Regex(pattern@),
                            Sense::Include,
                            old(self)@.next_style(),
                        ),
                    )
                },
                Err(error) => {
                    &&& pattern::refusal(pattern@) == Some(error.message@)
                    &&& final(self)@ == old(self)@
                },
            },
    {
        let compiled = match Pattern::new(pattern) {
            Ok(compiled) => compiled,
            Err(error) => {
                return Err(error);
            },
        };
        let style = self.next_style();
        self.insert_scratch(
            Filter {
                predicate: Predicate::Regex(compiled),
                sense: Sense::Include,
                enabled: true,
                style,
                name: None,
                set: 0,
            },
        );
        Ok(())
    }

    /// Adds an excluding filter, which has no colour: a line it matches is not
    /// shown. A pattern that does not compile is refused, and nothing changes.
    pub fn add_excluding(&mut self, pattern: &str) -> (added: Result<(), PatternError>)
        requires
            old(self).wf(),
        ensures
            final(self).wf(),
            match added {
                Ok(()) => {
                    &&& pattern::refusal(pattern@) is None
                    &&& final(self)@ == old(self)@.with_scratch(
                        ActiveModel::typed(
                            PredicateModel::Regex(pattern@),
                            Sense::Exclude,
                            crate::colour::plain_style(),
                        ),
                    )
                },
                Err(error) => {
                    &&& pattern::refusal(pattern@) == Some(error.message@)
                    &&& final(self)@ == old(self)@
                },
            },
    {
        let compiled = match Pattern::new(pattern) {
            Ok(compiled) => compiled,
            Err(error) => {
                return Err(error);
            },
        };
        self.insert_scratch(
            Filter {
                predicate: Predicate::Regex(compiled),
                sense: Sense::Exclude,
                enabled: true,
                style: Style { fg: None, dim: false },
                name: None,
                set: 0,
            },
        );
        Ok(())
    }

    /// Adds an including filter on definitions of `kind`, in the next colour.
    pub fn add_definition(&mut self, kind: Kind)
        requires
            old(self).wf(),
        ensures
            final(self).wf(),
            final(self)@ == old(self)@.with_scratch(
                ActiveModel::typed(
                    PredicateModel::Definition(kind),
                    Sense::Include,
                    old(self)@.next_style(),
                ),
            ),
    {
        let style = self.next_style();
        self.insert_scratch(
            Filter {
                predicate: Predicate::Definition(kind),
                sense: Sense::Include,
                enabled: true,
                style,
                name: None,
                set: 0,
            },
        );
    }

    /// Removes the filter at `index`, and says whether it did. A built-in
    /// filter can be switched off and not removed. Every later filter moves up
    /// one place.
    pub fn remove(&mut self, index: usize) -> (removed: bool)
        requires
            old(self).wf(),
        ensures
            final(self).wf(),
            removed == old(self)@.user_authored(index as int),
            final(self)@ == if removed {
                old(self)@.without(index as int)
            } else {
                old(self)@
            },
    {
        if !self.is_user_authored(index) {
            return false;
        }
        let ghost before = self@;
        let _ = self.filters.remove(index);
        assert(self@.filters =~= before.filters.remove(index as int));
        match &mut self.remembered {
            Some(flags) => {
                let _ = flags.remove(index);
            },
            None => {},
        }
        assert(self@ =~= before.without(index as int));
        proof {
            before.removal_keeps_form(index as int);
        }
        self.recompile();
        true
    }

    /// Replaces the pattern of the filter at `index`, and says whether it did.
    /// The filter keeps its place, its colour and its flag. A pattern that
    /// does not compile is refused, and nothing changes.
    pub fn set_pattern(&mut self, index: usize, pattern: &str) -> (changed: Result<
        bool,
        PatternError,
    >)
        requires
            old(self).wf(),
        ensures
            final(self).wf(),
            match changed {
                Ok(changed) => {
                    &&& pattern::refusal(pattern@) is None
                    &&& changed == old(self)@.user_authored(index as int)
                    &&& final(self)@ == if changed {
                        old(self)@.with_predicate(index as int, PredicateModel::Regex(pattern@))
                    } else {
                        old(self)@
                    }
                },
                Err(error) => {
                    &&& pattern::refusal(pattern@) == Some(error.message@)
                    &&& final(self)@ == old(self)@
                },
            },
    {
        let compiled = match Pattern::new(pattern) {
            Ok(compiled) => compiled,
            Err(error) => {
                return Err(error);
            },
        };
        if !self.is_user_authored(index) {
            return Ok(false);
        }
        let ghost before = self@;
        self.filters[index].predicate = Predicate::Regex(compiled);
        let ghost after = before.with_predicate(index as int, PredicateModel::Regex(pattern@));
        assert(self@.filters =~= after.filters);
        assert(self@ =~= after);
        assert(after.well_formed()) by {
            assert forall|i: int| 0 <= i < after.filters.len() implies (
            #[trigger] after.filters[i]).set == before.filters[i].set by {}
        }
        self.recompile();
        Ok(true)
    }

    /// Turns an including filter into a context filter and back, and says
    /// whether it did. An excluding filter stays one.
    pub fn toggle_context(&mut self, index: usize) -> (changed: bool)
        requires
            old(self).wf(),
        ensures
            final(self).wf(),
            changed == (index < old(self)@.filters.len() && old(self)@.filters[index as int].sense
                != Sense::Exclude),
            final(self)@ == if changed {
                old(self)@.with_sense(
                    index as int,
                    if old(self)@.filters[index as int].sense == Sense::Include {
                        Sense::Context
                    } else {
                        Sense::Include
                    },
                )
            } else {
                old(self)@
            },
    {
        if index >= self.filters.len() {
            return false;
        }
        let ghost before = self@;
        let sense = match self.filters[index].sense {
            Sense::Include => Sense::Context,
            Sense::Context => Sense::Include,
            Sense::Exclude => {
                return false;
            },
        };
        self.filters[index].sense = sense;
        let ghost after = before.with_sense(index as int, sense);
        assert(self@.filters =~= after.filters);
        assert(self@ =~= after);
        assert(self@.sources() =~= before.sources());
        assert(after.well_formed()) by {
            assert forall|i: int| 0 <= i < after.filters.len() implies (
            #[trigger] after.filters[i]).set == before.filters[i].set by {}
        }
        true
    }

    /// Flips between one matching filter being enough and all having to match,
    /// and says whether all have to now.
    pub fn toggle_and(&mut self) -> (all: bool)
        requires
            old(self).wf(),
        ensures
            final(self).wf(),
            all == (old(self)@.combine == Combine::Or),
            final(self)@ == (ActiveModel {
                combine: if all {
                    Combine::And
                } else {
                    Combine::Or
                },
                ..old(self)@
            }),
    {
        self.combine = match self.combine {
            Combine::Or => Combine::And,
            Combine::And => Combine::Or,
        };
        assert(self@.sources() =~= old(self)@.sources());
        self.is_and()
    }

    /// Whether all including filters have to match.
    pub fn is_and(&self) -> (all: bool)
        ensures
            all == (self@.combine == Combine::And),
    {
        self.combine == Combine::And
    }

    // -----------------------------------------------------------------------
    // Flags

    /// Switches the filters as `flags` says, as far as that goes.
    fn put_flags(&mut self, flags: &Vec<bool>)
        requires
            old(self).wf(),
        ensures
            final(self).wf(),
            final(self)@ == old(self)@.with_flags(flags@),
    {
        let ghost before = self@;
        let mut i: usize = 0;
        while i < self.filters.len() && i < flags.len()
            invariant
                before == old(self)@,
                before.well_formed(),
                i <= self.filters@.len(),
                i <= flags@.len(),
                self.in_step(),
                self@.sources() == before.sources(),
                self@ =~= (ActiveModel { filters: self@.filters, ..before }),
                self@.filters.len() == before.filters.len(),
                forall|j: int|
                    0 <= j < i ==> (#[trigger] self@.filters[j]) == before.filters[j].switched(
                        flags@[j],
                    ),
                forall|j: int|
                    i <= j < before.filters.len() ==> (#[trigger] self@.filters[j])
                        == before.filters[j],
            decreases self.filters@.len() - i,
        {
            let ghost current = self@;
            self.filters[i].enabled = flags[i];
            assert(self@.filters =~= current.filters.update(
                i as int,
                current.filters[i as int].switched(flags@[i as int]),
            ));
            assert(self@.sources() =~= current.sources());
            i += 1;
        }
        assert(self@.filters =~= before.with_flags(flags@).filters);
        assert(self@ =~= before.with_flags(flags@));
        proof {
            before.flags_keep_form(flags@);
        }
    }

    /// Switches every filter to `enabled`.
    pub fn set_all_enabled(&mut self, enabled: bool)
        requires
            old(self).wf(),
        ensures
            final(self).wf(),
            final(self)@ == old(self)@.all_switched(enabled),
    {
        let mut flags: Vec<bool> = Vec::new();
        let mut i: usize = 0;
        while i < self.filters.len()
            invariant
                i <= self.filters@.len(),
                flags@ =~= Seq::new(i as nat, |j: int| enabled),
            decreases self.filters@.len() - i,
        {
            flags.push(enabled);
            i += 1;
        }
        self.put_flags(&flags);
    }

    /// Switches the filter at `index`, and says whether there is one.
    pub fn set_enabled(&mut self, index: usize, enabled: bool) -> (there: bool)
        requires
            old(self).wf(),
        ensures
            final(self).wf(),
            there == (index < old(self)@.filters.len()),
            final(self)@ == if there {
                old(self)@.filter_switched(index as int, enabled)
            } else {
                old(self)@
            },
    {
        if index >= self.filters.len() {
            return false;
        }
        let ghost before = self@;
        self.filters[index].enabled = enabled;
        let ghost after = before.filter_switched(index as int, enabled);
        assert(self@.filters =~= after.filters);
        assert(self@ =~= after);
        assert(self@.sources() =~= before.sources());
        assert(after.well_formed()) by {
            assert forall|i: int| 0 <= i < after.filters.len() implies (
            #[trigger] after.filters[i]).set == before.filters[i].set by {}
        }
        true
    }

    /// Flips the filter at `index` and says what it is now, or nothing where
    /// there is no such filter.
    pub fn toggle_enabled(&mut self, index: usize) -> (now: Option<bool>)
        requires
            old(self).wf(),
        ensures
            final(self).wf(),
            match now {
                Some(now) => {
                    &&& index < old(self)@.filters.len()
                    &&& now == !old(self)@.filters[index as int].enabled
                    &&& final(self)@ == old(self)@.filter_switched(index as int, now)
                },
                None => index >= old(self)@.filters.len() && final(self)@ == old(self)@,
            },
    {
        if index >= self.filters.len() {
            return None;
        }
        let now = !self.filters[index].enabled;
        assert(self@.filters[index as int].enabled == !now);
        let _ = self.set_enabled(index, now);
        Some(now)
    }

    /// Every filter's flag.
    fn flags(&self) -> (flags: Vec<bool>)
        ensures
            flags@ == self@.flags(),
    {
        let mut flags: Vec<bool> = Vec::new();
        let mut i: usize = 0;
        while i < self.filters.len()
            invariant
                i <= self.filters@.len(),
                flags@ =~= self@.flags().take(i as int),
            decreases self.filters@.len() - i,
        {
            flags.push(self.filters[i].enabled);
            i += 1;
        }
        assert(flags@ =~= self@.flags());
        flags
    }

    /// Whether a filter is on, whatever its set is.
    pub fn any_enabled(&self) -> (yes: bool)
        ensures
            yes == self@.flags().contains(true),
    {
        let mut i: usize = 0;
        while i < self.filters.len()
            invariant
                i <= self.filters@.len(),
                forall|j: int| 0 <= j < i ==> self@.flags()[j] == false,
            decreases self.filters@.len() - i,
        {
            assert(self@.flags()[i as int] == self.filters@[i as int].enabled);
            if self.filters[i].enabled {
                return true;
            }
            i += 1;
        }
        false
    }

    /// Switches every filter off and remembers which were on. Called again
    /// while all are off it does nothing, so that what is remembered is not
    /// lost.
    pub fn disable_all_remembering(&mut self)
        requires
            old(self).wf(),
        ensures
            final(self).wf(),
            final(self)@ == if old(self)@.remembered is Some && !old(self)@.flags().contains(true) {
                old(self)@
            } else {
                ActiveModel {
                    remembered: Some(old(self)@.flags()),
                    ..old(self)@.all_switched(false)
                }
            },
    {
        if self.remembered.is_some() && !self.any_enabled() {
            return;
        }
        let ghost before = self@;
        let flags = self.flags();
        self.remembered = Some(flags);
        assert(self@.sources() =~= before.sources());
        let ghost captured = self@;
        assert(captured =~= (ActiveModel { remembered: Some(before.flags()), ..before }));
        self.set_all_enabled(false);
        assert(self@ =~= (ActiveModel {
            remembered: Some(before.flags()),
            ..before.all_switched(false)
        }));
    }

    /// Puts back the flags that `disable_all_remembering` captured.
    pub fn restore_remembered(&mut self)
        requires
            old(self).wf(),
        ensures
            final(self).wf(),
            final(self)@ == match old(self)@.remembered {
                Some(flags) => ActiveModel { remembered: None, ..old(self)@.with_flags(flags) },
                None => old(self)@,
            },
    {
        let ghost before = self@;
        match self.remembered.take() {
            Some(flags) => {
                assert(self@.sources() =~= before.sources());
                assert(self@ =~= (ActiveModel { remembered: None, ..before }));
                self.put_flags(&flags);
                assert(self@ =~= (ActiveModel { remembered: None, ..before.with_flags(flags@) }));
            },
            None => {
                assert(self@ =~= before);
            },
        }
    }

    /// Whether flags are remembered.
    pub fn has_remembered(&self) -> (yes: bool)
        ensures
            yes == (self@.remembered is Some),
    {
        self.remembered.is_some()
    }

    /// Every filter's flag, to be handed back to `apply_enabled_flags`.
    pub fn enabled_flags(&self) -> (flags: EnabledFlags)
        ensures
            flags@ == self@.flags(),
    {
        EnabledFlags { filters: self.flags() }
    }

    /// Puts back what `enabled_flags` captured. A filter that came since keeps
    /// the flag it has.
    pub fn apply_enabled_flags(&mut self, flags: &EnabledFlags)
        requires
            old(self).wf(),
        ensures
            final(self).wf(),
            final(self)@ == old(self)@.with_flags(flags@),
    {
        self.put_flags(&flags.filters);
    }

    /// How many filters have a row: those that the user wrote, in a listed
    /// set.
    pub fn row_count(&self) -> (count: usize)
        requires
            self.wf(),
        ensures
            count == model::rows_of(self@.filters, self@.sets),
    {
        let mut count: usize = 0;
        let mut i: usize = 0;
        while i < self.filters.len()
            invariant
                self.wf(),
                i <= self.filters@.len(),
                count <= i,
                count == model::rows_of(self@.filters.take(i as int), self@.sets),
            decreases self.filters@.len() - i,
        {
            proof {
                assert(self@.filters[i as int].set < self@.sets.len());
                assert(self@.filters.take(i + 1).drop_last() =~= self@.filters.take(i as int));
                assert(self@.filters.take(i + 1).last() == self.filters@[i as int]@);
            }
            let set = self.filters[i].set;
            if !self.sets[set].origin.is_built_in() && self.sets[set].listed {
                count += 1;
            }
            i += 1;
        }
        assert(self@.filters.take(i as int) =~= self@.filters);
        count
    }
}

} // verus!
