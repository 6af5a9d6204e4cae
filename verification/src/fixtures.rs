//! The names that tests have taken for their files and directories. Names that
//! differ in the case of ASCII letters alone are one name, as they are one
//! path on some file systems.

use crate::config;
use crate::text;
use vstd::prelude::*;

verus! {

/// Where all of the files and directories are.
pub const ROOT: &'static str = "target/test-fixtures";

/// The lower-case letter of an ASCII capital; any other character as it is.
pub open spec fn lower(c: char) -> char {
    if 'A' <= c <= 'Z' {
        (c as u8 + 32) as char
    } else {
        c
    }
}

/// Two names that differ in the case of ASCII letters alone.
pub open spec fn same_name(one: Seq<char>, other: Seq<char>) -> bool {
    &&& one.len() == other.len()
    &&& forall|i: int| 0 <= i < one.len() ==> lower(#[trigger] one[i]) == lower(other[i])
}

/// The lower-case letter of an ASCII capital; any other character as it is.
fn lower_of(c: char) -> (small: char)
    ensures
        small == lower(c),
{
    if 'A' <= c && c <= 'Z' {
        let small: u8 = c as u8 + 32;
        small as char
    } else {
        c
    }
}

/// Whether two names differ in the case of ASCII letters alone.
fn is_same_name(one: &str, other: &str) -> (yes: bool)
    ensures
        yes == same_name(one@, other@),
{
    let a = text::chars_of(one);
    let b = text::chars_of(other);
    if a.len() != b.len() {
        return false;
    }
    let mut i: usize = 0;
    while i < a.len()
        invariant
            a@ == one@,
            b@ == other@,
            a@.len() == b@.len(),
            i <= a@.len(),
            forall|j: int| 0 <= j < i ==> lower(#[trigger] one@[j]) == lower(other@[j]),
        decreases a@.len() - i,
    {
        if lower_of(a[i]) != lower_of(b[i]) {
            assert(lower(one@[i as int]) != lower(other@[i as int]));
            return false;
        }
        i += 1;
    }
    true
}

/// The names taken so far.
#[derive(Debug)]
pub struct Registry {
    names: Vec<String>,
}

impl View for Registry {
    type V = Seq<Seq<char>>;

    closed spec fn view(&self) -> Seq<Seq<char>> {
        text::texts(self.names@)
    }
}

/// Whether a name was taken, in any spelling of its case.
pub open spec fn claimed(names: Seq<Seq<char>>, name: Seq<char>) -> bool {
    exists|i: int| 0 <= i < names.len() && same_name(#[trigger] names[i], name)
}

/// Where the file or directory of that name is.
pub open spec fn path_of(name: Seq<char>) -> Seq<char> {
    config::joined_path(ROOT@, name)
}

impl Registry {
    /// No name is taken yet.
    pub fn new() -> (registry: Registry)
        ensures
            registry@ == Seq::<Seq<char>>::empty(),
    {
        let registry = Registry { names: Vec::new() };
        assert(registry@ =~= Seq::<Seq<char>>::empty());
        registry
    }

    /// Whether `name` was taken, in any spelling of its case.
    pub fn is_claimed(&self, name: &str) -> (yes: bool)
        ensures
            yes == claimed(self@, name@),
    {
        let ghost names = text::texts(self.names@);
        let mut i: usize = 0;
        while i < self.names.len()
            invariant
                i <= self.names@.len(),
                names == text::texts(self.names@),
                names == self@,
                forall|j: int| 0 <= j < i ==> !same_name(#[trigger] names[j], name@),
            decreases self.names@.len() - i,
        {
            assert(names[i as int] == self.names@[i as int]@);
            if is_same_name(self.names[i].as_str(), name) {
                return true;
            }
            i += 1;
        }
        false
    }

    /// Takes `name`, which no test has taken before in any spelling of its
    /// case.
    pub fn claim(&mut self, name: &str)
        requires
            !claimed(old(self)@, name@),
        ensures
            final(self)@ == old(self)@.push(name@),
    {
        let ghost before = self.names@;
        let owned = name.to_owned();
        self.names.push(owned);
        proof {
            text::texts_push(before, owned);
        }
    }

    /// Where the file or directory is that was made under a name taken before.
    pub fn fixture_path(&self, name: &str) -> (path: String)
        requires
            claimed(self@, name@),
        ensures
            path@ == path_of(name@),
    {
        config::join_path(ROOT, name)
    }
}

/// A name taken is taken in every spelling of its case.
pub proof fn case_does_not_matter(names: Seq<Seq<char>>, name: Seq<char>, other: Seq<char>)
    requires
        same_name(name, other),
    ensures
        claimed(names, name) == claimed(names, other),
{
    assert forall|i: int| 0 <= i < names.len() implies same_name(#[trigger] names[i], name)
        == same_name(names[i], other) by {
        if same_name(names[i], name) {
            assert forall|j: int| 0 <= j < names[i].len() implies lower(#[trigger] names[i][j])
                == lower(other[j]) by {
                assert(lower(name[j]) == lower(other[j]));
            }
        }
        if same_name(names[i], other) {
            assert forall|j: int| 0 <= j < names[i].len() implies lower(#[trigger] names[i][j])
                == lower(name[j]) by {
                assert(lower(name[j]) == lower(other[j]));
            }
        }
    }
    if claimed(names, name) {
        let i = choose|i: int| 0 <= i < names.len() && same_name(#[trigger] names[i], name);
        assert(same_name(names[i], other));
    }
    if claimed(names, other) {
        let i = choose|i: int| 0 <= i < names.len() && same_name(#[trigger] names[i], other);
        assert(same_name(names[i], name));
    }
}

} // verus!
