//! The snapshot of the filters that a scan over whole files matches with.

use vstd::prelude::*;

use crate::filter::model;
use crate::filter::model::ActiveModel;
use crate::filter::{ActiveFilters, Combine, Sense};
use crate::pattern;
use crate::pattern::PatternSet;
use crate::text;

verus! {

/// The width of a set of hits. With more patterns there is no scan.
pub const MAX_PATTERNS: usize = 64;

/// The filter that selected a file, by its place among the filters.
pub type Owner = usize;

/// Whether bit `i` of a mask is set.
pub open spec fn bit(mask: u64, i: int) -> bool {
    0 <= i < MAX_PATTERNS && (mask >> (i as u64)) & 1u64 == 1u64
}

/// Whether two masks have a bit in common.
pub open spec fn meet(left: u64, right: u64) -> bool {
    exists|i: int| #[trigger] bit(left, i) && bit(right, i)
}

/// Whether every bit of `inner` is set in `outer`.
pub open spec fn covers(outer: u64, inner: u64) -> bool {
    forall|i: int| #[trigger] bit(inner, i) ==> bit(outer, i)
}

proof fn bit_of_none(i: u64)
    by (bit_vector)
    requires
        i < 64,
    ensures
        (0u64 >> i) & 1u64 != 1u64,
{
}

proof fn bit_of_both(left: u64, right: u64, i: u64)
    by (bit_vector)
    requires
        i < 64,
    ensures
        ((left & right) >> i) & 1u64 == 1u64 <==> ((left >> i) & 1u64 == 1u64 && (right >> i) & 1u64
            == 1u64),
{
}

proof fn bit_of_other(mask: u64, i: u64)
    by (bit_vector)
    requires
        i < 64,
    ensures
        ((!mask) >> i) & 1u64 == 1u64 <==> (mask >> i) & 1u64 != 1u64,
{
}

proof fn bit_added(mask: u64, added: u64, i: u64)
    by (bit_vector)
    requires
        i < 64,
        added < 64,
    ensures
        ((mask | (1u64 << added)) >> i) & 1u64 == 1u64 <==> ((mask >> i) & 1u64 == 1u64 || i
            == added),
{
}

proof fn covering_is_a_difference(outer: u64, inner: u64)
    by (bit_vector)
    ensures
        outer & inner == inner <==> inner & !outer == 0,
{
}

/// A mask has a bit where it is not zero, and its trailing zeros lead to the
/// first one.
pub proof fn lowest_bit(mask: u64)
    ensures
        mask != 0 <==> exists|i: int| #[trigger] bit(mask, i),
        mask != 0 ==> {
            &&& mask.trailing_zeros() < MAX_PATTERNS
            &&& bit(mask, mask.trailing_zeros() as int)
            &&& forall|i: int| i < mask.trailing_zeros() ==> !(#[trigger] bit(mask, i))
        },
{
    vstd::std_specs::bits::axiom_u64_trailing_zeros(mask);
    if mask != 0 {
        assert(bit(mask, mask.trailing_zeros() as int));
        assert forall|i: int| i < mask.trailing_zeros() implies !(#[trigger] bit(mask, i)) by {
            if i >= 0 {
                assert((mask >> (i as u64)) & 1u64 == 0u64);
            }
        }
    } else {
        assert forall|i: int| !(#[trigger] bit(mask, i)) by {
            if 0 <= i < MAX_PATTERNS {
                bit_of_none(i as u64);
            }
        }
    }
}

/// Masks meet where their common part is not zero.
proof fn meeting(left: u64, right: u64)
    ensures
        left & right != 0 <==> meet(left, right),
        forall|i: int| #[trigger] bit(left & right, i) == (bit(left, i) && bit(right, i)),
{
    assert forall|i: int| #[trigger] bit(left & right, i) == (bit(left, i) && bit(right, i)) by {
        if 0 <= i < MAX_PATTERNS {
            bit_of_both(left, right, i as u64);
        }
    }
    lowest_bit(left & right);
    if meet(left, right) {
        let i = choose|i: int| #[trigger] bit(left, i) && bit(right, i);
        assert(bit(left & right, i));
    }
}

/// A mask covers another where their common part is the other.
proof fn covering(outer: u64, inner: u64)
    ensures
        outer & inner == inner <==> covers(outer, inner),
{
    covering_is_a_difference(outer, inner);
    meeting(inner, !outer);
    assert forall|i: int| 0 <= i < MAX_PATTERNS implies #[trigger] bit(!outer, i) == !bit(
        outer,
        i,
    ) by {
        bit_of_other(outer, i as u64);
    }
    if inner & !outer != 0 {
        let i = choose|i: int| #[trigger] bit(inner, i) && bit(!outer, i);
        assert(bit(inner, i) && !bit(outer, i));
    } else {
        assert forall|i: int| #[trigger] bit(inner, i) implies bit(outer, i) by {
            if !bit(outer, i) {
                assert(bit(!outer, i));
            }
        }
    }
}

/// One more bit.
proof fn adding_bit(mask: u64, added: int)
    requires
        0 <= added < MAX_PATTERNS,
    ensures
        forall|i: int| #[trigger]
            bit(mask | (1u64 << (added as u64)), i) == (bit(mask, i) || i == added),
{
    assert forall|i: int| #[trigger]
        bit(mask | (1u64 << (added as u64)), i) == (bit(mask, i) || i == added) by {
        if 0 <= i < MAX_PATTERNS {
            bit_added(mask, added as u64, i as u64);
        }
    }
}

proof fn empty_mask()
    ensures
        forall|i: int| !(#[trigger] bit(0, i)),
{
    lowest_bit(0);
}

/// What a scan needs of the filters: the patterns, and which of them select
/// and exclude. The patterns are all of them, on or off, so the hits of a line
/// stay right when a filter is switched.
#[derive(Debug)]
pub struct Matcher {
    set: PatternSet,
    selects: u64,
    exclude: u64,
    combine: Combine,
}

impl Clone for Matcher {
    /// A matcher that answers alike.
    fn clone(&self) -> (copy: Self)
        ensures
            copy.patterns() == self.patterns(),
            copy.selecting() == self.selecting(),
            copy.excluding() == self.excluding(),
            copy.mode() == self.mode(),
    {
        Matcher {
            set: self.set.clone(),
            selects: self.selects,
            exclude: self.exclude,
            combine: self.combine,
        }
    }
}

impl Matcher {
    /// The patterns, in the filters' order.
    pub closed spec fn patterns(&self) -> Seq<Seq<char>> {
        self.set@
    }

    /// The filters that select.
    pub closed spec fn selecting(&self) -> u64 {
        self.selects
    }

    /// The filters that exclude.
    pub closed spec fn excluding(&self) -> u64 {
        self.exclude
    }

    /// How the selecting filters combine.
    pub closed spec fn mode(&self) -> Combine {
        self.combine
    }

    /// No more patterns than there are bits.
    pub open spec fn wf(&self) -> bool {
        self.patterns().len() <= MAX_PATTERNS
    }

    /// Whether a line with these hits selects its file: where one selecting
    /// filter hit it, or all of them, and no excluding one did.
    pub open spec fn selected(&self, bits: u64) -> bool {
        !meet(bits, self.excluding()) && match self.mode() {
            Combine::Or => meet(bits, self.selecting()),
            Combine::And => self.selecting() != 0 && covers(bits, self.selecting()),
        }
    }

    /// Which patterns hit a line, on or off.
    pub fn bits(&self, line: &str) -> (bits: u64)
        requires
            self.wf(),
        ensures
            forall|i: int| #[trigger]
                bit(bits, i) == (0 <= i < self.patterns().len() && pattern::pattern_matches(
                    self.patterns()[i],
                    line@,
                )),
    {
        let places = self.set.matches(line);
        let mut bits: u64 = 0;
        let mut k: usize = 0;
        proof {
            empty_mask();
        }
        while k < places.len()
            invariant
                self.wf(),
                pattern::places_of_matches(places@, self.patterns(), line@),
                k <= places@.len(),
                forall|i: int| #[trigger]
                    bit(bits, i) == exists|j: int| 0 <= j < k && (#[trigger] places@[j]) == i,
            decreases places@.len() - k,
        {
            let place = places[k];
            assert(places@.contains(place));
            proof {
                adding_bit(bits, place as int);
            }
            let ghost before = bits;
            bits = bits | (1u64 << (place as u64));
            proof {
                assert forall|i: int| #[trigger]
                    bit(bits, i) == exists|j: int|
                        0 <= j < k + 1 && (#[trigger] places@[j]) == i by {
                    if bit(before, i) {
                        let j = choose|j: int| 0 <= j < k && (#[trigger] places@[j]) == i;
                        assert(places@[j] == i);
                    }
                    if i == place {
                        assert(places@[k as int] == i);
                    }
                }
            }
            k += 1;
        }
        proof {
            assert forall|i: int| #[trigger]
                bit(bits, i) == (0 <= i < self.patterns().len() && pattern::pattern_matches(
                    self.patterns()[i],
                    line@,
                )) by {
                if bit(bits, i) {
                    let j = choose|j: int| 0 <= j < k && (#[trigger] places@[j]) == i;
                    assert(places@.contains(places@[j]));
                }
                if 0 <= i < self.patterns().len() && pattern::pattern_matches(
                    self.patterns()[i],
                    line@,
                ) {
                    assert(places@.contains(i as usize));
                }
            }
        }
        bits
    }

    /// Whether a line with these hits selects its file.
    pub fn selects(&self, bits: u64) -> (yes: bool)
        ensures
            yes == self.selected(bits),
    {
        proof {
            meeting(bits, self.exclude);
            meeting(bits, self.selects);
            covering(bits, self.selects);
        }
        if bits & self.exclude != 0 {
            return false;
        }
        match self.combine {
            Combine::Or => bits & self.selects != 0,
            Combine::And => self.selects != 0 && bits & self.selects == self.selects,
        }
    }

    /// Which filter selected a line with these hits: the first of those that
    /// select and hit.
    pub fn owner(&self, bits: u64) -> (owner: Option<Owner>)
        ensures
            match owner {
                Some(owner) => {
                    &&& self.selected(bits)
                    &&& bit(bits, owner as int) && bit(self.selecting(), owner as int)
                    &&& forall|i: int|
                        i < owner ==> !((#[trigger] bit(bits, i)) && bit(self.selecting(), i))
                },
                None => !self.selected(bits),
            },
    {
        if !self.selects(bits) {
            return None;
        }
        let both = bits & self.selects;
        proof {
            meeting(bits, self.selects);
            lowest_bit(both);
            if self.combine == Combine::And {
                lowest_bit(self.selects);
                let i = choose|i: int| #[trigger] bit(self.selects, i);
                assert(bit(bits, i));
                assert(meet(bits, self.selects));
            }
            assert forall|i: int| i < both.trailing_zeros() implies !((#[trigger] bit(bits, i))
                && bit(self.selects, i)) by {
                assert(!bit(both, i));
            }
        }
        Some(both.trailing_zeros() as usize)
    }

    /// The filters that select, those that exclude, and how the first combine:
    /// what changes where a switch changes anything a scan cares about.
    pub fn masks(&self) -> (masks: (u64, u64, Combine))
        ensures
            masks == (self.selecting(), self.excluding(), self.mode()),
    {
        (self.selects, self.exclude, self.combine)
    }
}

impl ActiveModel {
    /// Whether a filter takes part in a scan with this sense. A scan reads
    /// text and knows of no definitions.
    pub open spec fn scans(self, sense: Sense, i: int) -> bool {
        0 <= i < self.filters.len() && self.live(sense, i) && self.filters[i].predicate is Regex
    }

    /// Whether there is a scan to run: the patterns compile together, there
    /// are not too many of them, and one of them selects.
    pub open spec fn scanning(self) -> bool {
        &&& pattern::set_compiles(self.sources())
        &&& self.filters.len() <= MAX_PATTERNS
        &&& exists|i: int| #[trigger] self.scans(Sense::Include, i)
    }
}

impl ActiveFilters {
    /// The masks of the filters that select and of those that exclude, where
    /// there is a scan to run.
    fn scan_masks(&self) -> (masks: Option<(u64, u64)>)
        requires
            self.wf(),
        ensures
            match masks {
                Some((selects, exclude)) => {
                    &&& self@.scanning()
                    &&& forall|i: int| #[trigger]
                        bit(selects, i) == self@.scans(Sense::Include, i)
                    &&& forall|i: int| #[trigger]
                        bit(exclude, i) == self@.scans(Sense::Exclude, i)
                },
                None => !self@.scanning(),
            },
    {
        if self.compiled.is_none() || self.filters.len() > MAX_PATTERNS {
            return None;
        }
        let mut selects: u64 = 0;
        let mut exclude: u64 = 0;
        let mut index: usize = 0;
        proof {
            empty_mask();
        }
        while index < self.filters.len()
            invariant
                self.wf(),
                self@.filters.len() <= MAX_PATTERNS,
                index <= self@.filters.len(),
                forall|i: int| #[trigger]
                    bit(selects, i) == (i < index && self@.scans(Sense::Include, i)),
                forall|i: int| #[trigger]
                    bit(exclude, i) == (i < index && self@.scans(Sense::Exclude, i)),
            decreases self.filters@.len() - index,
        {
            assert(self@.filters[index as int] == self.filters@[index as int]@);
            if self.effective(index) && self.filters[index].predicate.as_regex().is_some() {
                proof {
                    adding_bit(selects, index as int);
                    adding_bit(exclude, index as int);
                }
                match self.filters[index].sense {
                    Sense::Include => {
                        selects = selects | (1u64 << (index as u64));
                    },
                    Sense::Exclude => {
                        exclude = exclude | (1u64 << (index as u64));
                    },
                    Sense::Context => {},
                }
            }
            index += 1;
        }
        proof {
            lowest_bit(selects);
            if selects != 0 {
                let i = choose|i: int| #[trigger] bit(selects, i);
                assert(self@.scans(Sense::Include, i));
            } else {
                assert forall|i: int| !(#[trigger] self@.scans(Sense::Include, i)) by {
                    assert(!bit(selects, i));
                }
            }
        }
        if selects == 0 {
            None
        } else {
            Some((selects, exclude))
        }
    }

    /// The snapshot a scan matches with, where there is a scan to run.
    pub fn matcher(&self) -> (matcher: Option<Matcher>)
        requires
            self.wf(),
        ensures
            match matcher {
                Some(matcher) => {
                    &&& self@.scanning()
                    &&& matcher.wf()
                    &&& matcher.patterns() == self@.sources()
                    &&& forall|i: int| #[trigger]
                        bit(matcher.selecting(), i) == self@.scans(Sense::Include, i)
                    &&& forall|i: int| #[trigger]
                        bit(matcher.excluding(), i) == self@.scans(Sense::Exclude, i)
                    &&& matcher.mode() == self@.combine
                },
                None => !self@.scanning(),
            },
    {
        let (selects, exclude) = match self.scan_masks() {
            Some(masks) => masks,
            None => {
                return None;
            },
        };
        match &self.compiled {
            Some(set) => Some(
                Matcher {
                    set: set.clone(),
                    selects,
                    exclude,
                    combine: self.combine,
                },
            ),
            None => None,
        }
    }

    /// Whether there is a scan to run.
    pub fn is_scanning(&self) -> (yes: bool)
        requires
            self.wf(),
        ensures
            yes == self@.scanning(),
    {
        self.scan_masks().is_some()
    }

    /// The name of every filter in a cache of scans. A change here moves bits,
    /// so that cached hits mean something else.
    pub fn pattern_key(&self) -> (keys: Vec<String>)
        ensures
            text::texts(keys@) == self@.keys(),
    {
        let mut keys: Vec<String> = Vec::new();
        let mut i: usize = 0;
        while i < self.filters.len()
            invariant
                i <= self.filters@.len(),
                text::texts(keys@) =~= self@.keys().take(i as int),
            decreases self.filters@.len() - i,
        {
            let key = self.filters[i].predicate.key();
            assert(self@.keys()[i as int] == key@);
            assert(self@.keys().take(i + 1) =~= self@.keys().take(i as int).push(key@));
            proof {
                text::texts_push(keys@, key);
            }
            keys.push(key);
            i += 1;
        }
        assert(self@.keys().take(i as int) =~= self@.keys());
        keys
    }
}

} // verus!
