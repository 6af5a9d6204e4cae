//! Named selections of a set's filters.

use vstd::prelude::*;

use crate::text;

verus! {

/// The members of the first profile called `name`.
pub open spec fn lookup(entries: Seq<(String, Vec<String>)>, name: Seq<char>) -> Option<
    Seq<Seq<char>>,
>
    decreases entries.len(),
{
    if entries.len() == 0 {
        None
    } else if entries[0].0@ == name {
        Some(text::texts(entries[0].1@))
    } else {
        lookup(entries.skip(1), name)
    }
}

/// Profiles by name, each a list of filter names.
#[derive(Debug)]
pub struct Profiles {
    entries: Vec<(String, Vec<String>)>,
}

/// The names of a list of profiles.
spec fn names_of(entries: Seq<(String, Vec<String>)>) -> Seq<Seq<char>> {
    Seq::new(entries.len(), |i: int| entries[i].0@)
}

impl View for Profiles {
    type V = Map<Seq<char>, Seq<Seq<char>>>;

    closed spec fn view(&self) -> Map<Seq<char>, Seq<Seq<char>>> {
        Map::new(
            |name: Seq<char>| lookup(self.entries@, name) is Some,
            |name: Seq<char>| lookup(self.entries@, name)->Some_0,
        )
    }
}

proof fn lookup_finds(entries: Seq<(String, Vec<String>)>, name: Seq<char>, at: int)
    requires
        0 <= at < entries.len(),
        entries[at].0@ == name,
        forall|i: int| 0 <= i < at ==> (#[trigger] entries[i]).0@ != name,
    ensures
        lookup(entries, name) == Some(text::texts(entries[at].1@)),
    decreases at,
{
    if at > 0 {
        assert(entries[0].0@ != name);
        assert forall|i: int| 0 <= i < at - 1 implies (#[trigger] entries.skip(1)[i]).0@ != name by {
            assert(entries[i + 1].0@ != name);
        }
        lookup_finds(entries.skip(1), name, at - 1);
    }
}

proof fn lookup_misses(entries: Seq<(String, Vec<String>)>, name: Seq<char>)
    requires
        forall|i: int| 0 <= i < entries.len() ==> (#[trigger] entries[i]).0@ != name,
    ensures
        lookup(entries, name) is None,
    decreases entries.len(),
{
    if entries.len() > 0 {
        assert(entries[0].0@ != name);
        assert forall|i: int| 0 <= i < entries.len() - 1 implies (#[trigger] entries.skip(
            1,
        )[i]).0@ != name by {
            assert(entries[i + 1].0@ != name);
        }
        lookup_misses(entries.skip(1), name);
    }
}

/// A name is looked up the same way in lists that hold it the same way.
proof fn lookup_agrees(
    left: Seq<(String, Vec<String>)>,
    right: Seq<(String, Vec<String>)>,
    name: Seq<char>,
)
    requires
        left.len() <= right.len(),
        forall|i: int|
            0 <= i < left.len() ==> (#[trigger] left[i]).0@ == right[i].0@ && (left[i].0@ == name
                ==> text::texts(left[i].1@) == text::texts(right[i].1@)),
        forall|i: int| left.len() <= i < right.len() ==> (#[trigger] right[i]).0@ != name,
    ensures
        lookup(left, name) == lookup(right, name),
    decreases left.len(),
{
    if left.len() == 0 {
        lookup_misses(right, name);
    } else if left[0].0@ != name {
        assert(right[0].0@ != name);
        assert forall|i: int| 0 <= i < left.len() - 1 implies (#[trigger] left.skip(1)[i]).0@
            == right.skip(1)[i].0@ && (left.skip(1)[i].0@ == name ==> text::texts(
            left.skip(1)[i].1@,
        ) == text::texts(right.skip(1)[i].1@)) by {
            assert(left[i + 1].0@ == right[i + 1].0@);
        }
        assert forall|i: int| left.len() - 1 <= i < right.len() - 1 implies (#[trigger] right.skip(
            1,
        )[i]).0@ != name by {
            assert(right[i + 1].0@ != name);
        }
        lookup_agrees(left.skip(1), right.skip(1), name);
    } else {
        assert(right[0].0@ == name);
    }
}

/// The names that are found are those that are listed.
proof fn lookup_is_listing(entries: Seq<(String, Vec<String>)>, name: Seq<char>)
    ensures
        lookup(entries, name) is Some <==> names_of(entries).contains(name),
    decreases entries.len(),
{
    if entries.len() > 0 {
        let rest = entries.skip(1);
        lookup_is_listing(rest, name);
        assert(names_of(entries)[0] == entries[0].0@);
        assert(names_of(rest) =~= names_of(entries).skip(1));
        if names_of(entries).contains(name) && entries[0].0@ != name {
            let i = choose|i: int| 0 <= i < entries.len() && names_of(entries)[i] == name;
            assert(names_of(rest)[i - 1] == name);
        }
        if names_of(rest).contains(name) {
            let i = choose|i: int| 0 <= i < rest.len() && names_of(rest)[i] == name;
            assert(names_of(entries)[i + 1] == name);
        }
    }
}

impl Profiles {
    /// No two profiles have one name.
    #[verifier::type_invariant]
    spec fn unique(&self) -> bool {
        names_of(self.entries@).no_duplicates()
    }

    /// How many profiles there are.
    pub fn len(&self) -> (count: usize)
        ensures
            self@.dom().finite(),
            count == self@.dom().len(),
    {
        proof {
            use_type_invariant(self);
            let names = names_of(self.entries@);
            names.unique_seq_to_set();
            assert forall|name: Seq<char>| self@.dom().contains(name) <==> names.to_set().contains(
                name,
            ) by {
                lookup_is_listing(self.entries@, name);
            }
            assert(self@.dom() =~= names.to_set());
        }
        self.entries.len()
    }

    /// No profiles.
    pub fn new() -> (profiles: Self)
        ensures
            profiles@ == Map::<Seq<char>, Seq<Seq<char>>>::empty(),
    {
        let profiles = Profiles { entries: Vec::new() };
        assert(profiles@ =~= Map::<Seq<char>, Seq<Seq<char>>>::empty());
        profiles
    }

    /// The place of the first profile called `name`, or the number of them.
    fn find(&self, name: &str) -> (at: usize)
        ensures
            at <= self.entries@.len(),
            at < self.entries@.len() ==> self.entries@[at as int].0@ == name@,
            forall|i: int| 0 <= i < at ==> (#[trigger] self.entries@[i]).0@ != name@,
    {
        let mut at: usize = 0;
        while at < self.entries.len()
            invariant
                at <= self.entries@.len(),
                forall|i: int| 0 <= i < at ==> (#[trigger] self.entries@[i]).0@ != name@,
            decreases self.entries@.len() - at,
        {
            if text::same(self.entries[at].0.as_str(), name) {
                return at;
            }
            at += 1;
        }
        at
    }

    /// The members of the profile called `name`.
    pub fn get(&self, name: &str) -> (members: Option<&Vec<String>>)
        ensures
            match members {
                Some(members) => {
                    &&& self@.contains_key(name@)
                    &&& text::texts(members@) == self@[name@]
                },
                None => !self@.contains_key(name@),
            },
    {
        let at = self.find(name);
        if at < self.entries.len() {
            proof {
                lookup_finds(self.entries@, name@, at as int);
            }
            Some(&self.entries[at].1)
        } else {
            proof {
                lookup_misses(self.entries@, name@);
            }
            None
        }
    }

    /// Whether there is a profile called `name`.
    pub fn contains_key(&self, name: &str) -> (yes: bool)
        ensures
            yes == self@.contains_key(name@),
    {
        self.get(name).is_some()
    }

    /// Whether there is no profile.
    pub fn is_empty(&self) -> (yes: bool)
        ensures
            yes == (self@ == Map::<Seq<char>, Seq<Seq<char>>>::empty()),
    {
        if self.entries.len() == 0 {
            assert(self@ =~= Map::<Seq<char>, Seq<Seq<char>>>::empty());
            true
        } else {
            proof {
                lookup_finds(self.entries@, self.entries@[0].0@, 0);
                assert(self@.contains_key(self.entries@[0].0@));
            }
            false
        }
    }

    /// Puts a profile in, in place of one of the same name.
    pub fn insert(&mut self, name: String, members: Vec<String>)
        ensures
            final(self)@ == old(self)@.insert(name@, text::texts(members@)),
    {
        proof {
            use_type_invariant(&*self);
        }
        let at = self.find(name.as_str());
        let ghost before = self.entries@;
        let ghost added = name@;
        let ghost listed = text::texts(members@);
        let mut entries: Vec<(String, Vec<String>)> = Vec::new();
        core::mem::swap(&mut entries, &mut self.entries);
        if at < entries.len() {
            entries[at].1 = members;
            assert(names_of(entries@) =~= names_of(before));
        } else {
            entries.push((name, members));
            assert(names_of(entries@) =~= names_of(before).push(added));
        }
        self.entries = entries;
        proof {
            let after = self.entries@;
            lookup_finds(after, added, at as int);
            assert forall|other: Seq<char>| other != added implies lookup(before, other) == lookup(
                after,
                other,
            ) by {
                lookup_agrees(before, after, other);
            }
            assert(self@ =~= old(self)@.insert(added, listed));
        }
    }
}

impl Clone for Profiles {
    /// The same profiles again.
    fn clone(&self) -> (copy: Self)
        ensures
            copy@ == self@,
    {
        let mut entries: Vec<(String, Vec<String>)> = Vec::new();
        let mut i: usize = 0;
        proof {
            use_type_invariant(self);
        }
        while i < self.entries.len()
            invariant
                i <= self.entries@.len(),
                entries@.len() == i,
                forall|j: int|
                    0 <= j < i ==> (#[trigger] entries@[j]).0@ == self.entries@[j].0@
                        && text::texts(entries@[j].1@) == text::texts(self.entries@[j].1@),
            decreases self.entries@.len() - i,
        {
            entries.push((self.entries[i].0.clone(), text::clone_texts(&self.entries[i].1)));
            i += 1;
        }
        assert(names_of(entries@) =~= names_of(self.entries@));
        let copy = Profiles { entries };
        proof {
            assert forall|name: Seq<char>| lookup(copy.entries@, name) == lookup(
                self.entries@,
                name,
            ) by {
                lookup_agrees(copy.entries@, self.entries@, name);
            }
            assert(copy@ =~= self@);
        }
        copy
    }
}

} // verus!
