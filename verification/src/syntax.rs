//! The kinds of definition that a line of source can start.

use vstd::prelude::*;

verus! {

/// A kind of definition, as a grammar finds them.
#[derive(Debug, Clone, Copy, PartialEq, Eq, Structural)]
pub enum Kind {
    Function,
    Class,
    Struct,
    Enum,
    Type,
    Section,
}

/// How many kinds there are.
pub const KIND_COUNT: usize = 6;

impl Kind {
    /// Every kind, in the order they are shown in.
    pub const ALL: [Kind; KIND_COUNT] = [
        Kind::Function,
        Kind::Class,
        Kind::Struct,
        Kind::Enum,
        Kind::Type,
        Kind::Section,
    ];

    /// The plural noun for a kind.
    pub open spec fn noun(self) -> Seq<char> {
        match self {
            Kind::Function => "functions"@,
            Kind::Class => "classes"@,
            Kind::Struct => "structs"@,
            Kind::Enum => "enums"@,
            Kind::Type => "types"@,
            Kind::Section => "sections"@,
        }
    }

    /// The plural noun by which a kind is shown and named in a profile.
    pub fn plural(self) -> (noun: &'static str)
        ensures
            noun@ == self.noun(),
    {
        match self {
            Kind::Function => "functions",
            Kind::Class => "classes",
            Kind::Struct => "structs",
            Kind::Enum => "enums",
            Kind::Type => "types",
            Kind::Section => "sections",
        }
    }

    /// The place of a kind among all of them.
    pub open spec fn place(self) -> int {
        match self {
            Kind::Function => 0,
            Kind::Class => 1,
            Kind::Struct => 2,
            Kind::Enum => 3,
            Kind::Type => 4,
            Kind::Section => 5,
        }
    }

    fn position(self) -> (place: usize)
        ensures
            place == self.place(),
            place < KIND_COUNT,
    {
        match self {
            Kind::Function => 0,
            Kind::Class => 1,
            Kind::Struct => 2,
            Kind::Enum => 3,
            Kind::Type => 4,
            Kind::Section => 5,
        }
    }
}

/// Every kind stands at its own place in `Kind::ALL`.
pub proof fn all_kinds_are_listed(kind: Kind)
    ensures
        0 <= kind.place() < KIND_COUNT,
        Kind::ALL[kind.place()] == kind,
{
}

/// The kinds of definition that one line starts.
#[derive(Debug, Clone, Copy, PartialEq, Eq)]
pub struct KindSet {
    flags: [bool; KIND_COUNT],
}

impl KindSet {
    /// The kinds in the set.
    pub closed spec fn has(self, kind: Kind) -> bool {
        self.flags[kind.place()]
    }

    /// The set of no kind.
    pub closed spec fn none() -> KindSet {
        KindSet { flags: [false, false, false, false, false, false] }
    }

    /// The set of no kind.
    pub fn empty() -> (set: Self)
        ensures
            set == KindSet::none(),
            forall|kind: Kind| !#[trigger] set.has(kind),
    {
        let set = KindSet { flags: [false, false, false, false, false, false] };
        assert forall|kind: Kind| !#[trigger] set.has(kind) by {
            all_kinds_are_listed(kind);
        }
        set
    }

    /// The set of the kinds in `kinds`.
    pub fn of(kinds: &[Kind]) -> (set: Self)
        ensures
            forall|kind: Kind| #[trigger] set.has(kind) == kinds@.contains(kind),
    {
        let mut set = KindSet::empty();
        let mut i: usize = 0;
        assert(forall|kind: Kind| #[trigger] set.has(kind) == kinds@.take(0).contains(kind));
        while i < kinds.len()
            invariant
                i <= kinds@.len(),
                forall|kind: Kind| #[trigger] set.has(kind) == kinds@.take(i as int).contains(kind),
            decreases kinds@.len() - i,
        {
            let ghost before = set;
            let kind = kinds[i];
            set.flags[kind.position()] = true;
            proof {
                assert(kinds@.take(i + 1) =~= kinds@.take(i as int).push(kind));
                assert forall|other: Kind| #[trigger] set.has(other) == kinds@.take(
                    i + 1,
                ).contains(other) by {
                    all_kinds_are_listed(other);
                    all_kinds_are_listed(kind);
                    assert(before.has(other) == kinds@.take(i as int).contains(other));
                    if other == kind {
                        assert(kinds@.take(i + 1)[i as int] == kind);
                    } else {
                        assert(set.has(other) == before.has(other));
                        if kinds@.take(i as int).contains(other) {
                            let j = choose|j: int|
                                0 <= j < i && kinds@.take(i as int)[j] == other;
                            assert(kinds@.take(i + 1)[j] == other);
                        }
                    }
                }
            }
            i += 1;
        }
        assert(kinds@.take(kinds@.len() as int) =~= kinds@);
        set
    }

    /// Whether `kind` is in the set.
    pub fn contains(self, kind: Kind) -> (yes: bool)
        ensures
            yes == self.has(kind),
    {
        self.flags[kind.position()]
    }
}

} // verus!
