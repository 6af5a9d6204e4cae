//! Paths as the bytes a file system holds, taken apart and put together
//! without looking at the disk.

use vstd::prelude::*;

verus! {

/// The byte between the parts of a path.
pub const SEPARATOR: u8 = 47;

/// The byte that a part for "here" consists of.
pub const DOT: u8 = 46;

/// The parts of a sequence of byte strings.
pub open spec fn byte_parts(parts: Seq<Vec<u8>>) -> Seq<Seq<u8>> {
    Seq::new(parts.len(), |i: int| parts[i]@)
}

/// The place of the first separator from `i` on, or the end.
pub open spec fn separator_from(path: Seq<u8>, i: int) -> int
    decreases path.len() - i,
{
    if i >= path.len() {
        path.len() as int
    } else if path[i] == SEPARATOR {
        i
    } else {
        separator_from(path, i + 1)
    }
}

/// A part that names something: not empty, and not the part for "here".
pub open spec fn names_something(part: Seq<u8>) -> bool {
    part.len() > 0 && part != seq![DOT]
}

/// The parts from `i` on that name something.
pub open spec fn parts_from(path: Seq<u8>, i: int) -> Seq<Seq<u8>>
    decreases path.len() - i + 1,
{
    proof {
        separator_is_ahead(path, i);
    }
    if i >= path.len() {
        Seq::empty()
    } else {
        let end = separator_from(path, i);
        let part = path.subrange(i, end);
        if names_something(part) {
            seq![part] + parts_from(path, end + 1)
        } else {
            parts_from(path, end + 1)
        }
    }
}

/// The parts of a path.
pub open spec fn parts(path: Seq<u8>) -> Seq<Seq<u8>> {
    parts_from(path, 0)
}

/// A path that begins at the root.
pub open spec fn rooted(path: Seq<u8>) -> bool {
    path.len() > 0 && path[0] == SEPARATOR
}

/// Parts with a separator between each two.
pub open spec fn joined(parts: Seq<Seq<u8>>) -> Seq<u8>
    decreases parts.len(),
{
    if parts.len() == 0 {
        Seq::empty()
    } else if parts.len() == 1 {
        parts[0]
    } else {
        joined(parts.drop_last()).push(SEPARATOR) + parts.last()
    }
}

/// The path that leads through `parts`, from the root or from where one stands.
pub open spec fn rendered(from_root: bool, parts: Seq<Seq<u8>>) -> Seq<u8> {
    if from_root {
        seq![SEPARATOR] + joined(parts)
    } else {
        joined(parts)
    }
}

/// `..`: the part that takes the one before it back.
pub open spec fn is_up(part: Seq<u8>) -> bool {
    part == seq![DOT, DOT]
}

/// Parts with every `..` carried out. Above the root is the root.
pub open spec fn resolved(parts: Seq<Seq<u8>>) -> Seq<Seq<u8>>
    decreases parts.len(),
{
    if parts.len() == 0 {
        Seq::empty()
    } else {
        let above = resolved(parts.drop_last());
        if !is_up(parts.last()) {
            above.push(parts.last())
        } else if above.len() > 0 {
            above.drop_last()
        } else {
            above
        }
    }
}

/// The parts of `path` seen from the root, with `cwd` in front where the path
/// does not begin at the root itself.
pub open spec fn absolute_parts(path: Seq<u8>, cwd: Seq<u8>) -> Seq<Seq<u8>> {
    if rooted(path) {
        parts(path)
    } else {
        parts(cwd) + parts(path)
    }
}

/// The one spelling of the path that `path` leads to from `cwd`, as far as the
/// text alone can tell.
pub open spec fn lexically_absolute(path: Seq<u8>, cwd: Seq<u8>) -> Seq<u8> {
    rendered(true, resolved(absolute_parts(path, cwd)))
}

/// A separator is found at `i` or behind it, and not behind the end.
pub proof fn separator_is_ahead(path: Seq<u8>, i: int)
    ensures
        i <= path.len() ==> i <= separator_from(path, i) <= path.len(),
        separator_from(path, i) < path.len() ==> path[separator_from(path, i)] == SEPARATOR,
        forall|j: int| i <= j < separator_from(path, i) && 0 <= j < path.len() ==> path[j] != SEPARATOR,
    decreases path.len() - i,
{
    if i < path.len() && path[i] != SEPARATOR {
        separator_is_ahead(path, i + 1);
    }
}

/// The bytes of `path` from `from` up to, and not with, `to`.
fn slice_of(path: &[u8], from: usize, to: usize) -> (bytes: Vec<u8>)
    requires
        from <= to <= path@.len(),
    ensures
        bytes@ == path@.subrange(from as int, to as int),
{
    let mut bytes: Vec<u8> = Vec::new();
    let mut i: usize = from;
    while i < to
        invariant
            from <= i <= to <= path@.len(),
            bytes@ =~= path@.subrange(from as int, i as int),
        decreases to - i,
    {
        bytes.push(path[i]);
        i += 1;
    }
    bytes
}

/// A copy of `part`.
pub fn copy_part(part: &Vec<u8>) -> (copy: Vec<u8>)
    ensures
        copy@ == part@,
{
    let copy = slice_of(part.as_slice(), 0, part.len());
    assert(part@.subrange(0, part@.len() as int) =~= part@);
    copy
}

/// The parts of `path` that name something, in order.
pub fn parts_of(path: &[u8]) -> (found: Vec<Vec<u8>>)
    ensures
        byte_parts(found@) == parts(path@),
{
    let mut found: Vec<Vec<u8>> = Vec::new();
    let mut i: usize = 0;
    let len: usize = path.len();
    assert(byte_parts(found@) + parts(path@) =~= parts(path@));
    while i < len
        invariant
            len == path@.len(),
            i <= len,
            parts(path@) == byte_parts(found@) + parts_from(path@, i as int),
        decreases len - i,
    {
        proof {
            separator_is_ahead(path@, i as int);
        }
        let mut end: usize = i;
        while end < len && path[end] != SEPARATOR
            invariant
                len == path@.len(),
                i <= end <= len,
                separator_from(path@, i as int) == separator_from(path@, end as int),
            decreases len - end,
        {
            end += 1;
        }
        assert(separator_from(path@, i as int) == end);
        let part = slice_of(path, i, end);
        let here = part.len() == 1 && part[0] == DOT;
        proof {
            if part@.len() == 1 && part@[0] == DOT {
                assert(part@ =~= seq![DOT]);
            }
        }
        if part.len() > 0 && !here {
            let ghost before = byte_parts(found@);
            let ghost rest = parts_from(path@, end + 1);
            assert(parts_from(path@, i as int) == seq![part@] + rest);
            let ghost text = part@;
            found.push(part);
            assert(byte_parts(found@) =~= before.push(text));
            assert(before + (seq![text] + rest) =~= before.push(text) + rest);
        }
        if end < len {
            i = end + 1;
        } else {
            assert(parts_from(path@, end + 1) =~= parts_from(path@, end as int));
            i = end;
        }
    }
    assert(byte_parts(found@) + parts_from(path@, len as int) =~= byte_parts(found@));
    found
}

/// The path through the first `count` of `parts`.
pub fn render(from_root: bool, found: &Vec<Vec<u8>>, count: usize) -> (path: Vec<u8>)
    requires
        count <= found@.len(),
    ensures
        path@ == rendered(from_root, byte_parts(found@).take(count as int)),
{
    let mut path: Vec<u8> = Vec::new();
    if from_root {
        path.push(SEPARATOR);
    }
    let ghost root = path@;
    let ghost all = byte_parts(found@);
    assert(root + joined(all.take(0)) =~= root);
    let mut i: usize = 0;
    while i < count
        invariant
            i <= count <= found@.len(),
            all == byte_parts(found@),
            path@ == root + joined(all.take(i as int)),
        decreases count - i,
    {
        proof {
            assert(all.take(i + 1).drop_last() =~= all.take(i as int));
            assert(all.take(i + 1).last() == found@[i as int]@);
        }
        if i > 0 {
            path.push(SEPARATOR);
        }
        let mut part = copy_part(&found[i]);
        path.append(&mut part);
        assert(path@ =~= root + joined(all.take(i + 1)));
        i += 1;
    }
    assert(from_root ==> root =~= seq![SEPARATOR]);
    assert(!from_root ==> path@ =~= joined(all.take(count as int)));
    path
}

/// Whether a part is `..`.
pub fn goes_up(part: &Vec<u8>) -> (yes: bool)
    ensures
        yes == is_up(part@),
{
    let yes = part.len() == 2 && part[0] == DOT && part[1] == DOT;
    assert(yes ==> part@ =~= seq![DOT, DOT]);
    yes
}

/// The parts of `path` seen from the root.
pub fn absolute_parts_of(path: &[u8], cwd: &[u8]) -> (found: Vec<Vec<u8>>)
    ensures
        byte_parts(found@) == absolute_parts(path@, cwd@),
{
    let mut own = parts_of(path);
    if path.len() > 0 && path[0] == SEPARATOR {
        own
    } else {
        let mut found = parts_of(cwd);
        let ghost above = found@;
        let ghost below = own@;
        found.append(&mut own);
        assert(byte_parts(found@) =~= byte_parts(above) + byte_parts(below));
        found
    }
}

/// The one spelling of the path that `path` leads to from `cwd`: absolute,
/// with no empty part, no `.` and no `..`.
pub fn lexical_absolute(path: &[u8], cwd: &[u8]) -> (spelling: Vec<u8>)
    ensures
        spelling@ == lexically_absolute(path@, cwd@),
{
    let found = absolute_parts_of(path, cwd);
    let ghost all = byte_parts(found@);
    let mut kept: Vec<Vec<u8>> = Vec::new();
    let mut i: usize = 0;
    assert(byte_parts(kept@) =~= resolved(all.take(0)));
    while i < found.len()
        invariant
            i <= found@.len(),
            all == byte_parts(found@),
            byte_parts(kept@) == resolved(all.take(i as int)),
        decreases found@.len() - i,
    {
        proof {
            assert(all.take(i + 1).drop_last() =~= all.take(i as int));
            assert(all.take(i + 1).last() == found@[i as int]@);
        }
        let ghost above = byte_parts(kept@);
        if !goes_up(&found[i]) {
            kept.push(copy_part(&found[i]));
            assert(byte_parts(kept@) =~= above.push(found@[i as int]@));
        } else if kept.len() > 0 {
            let _ = kept.pop();
            assert(byte_parts(kept@) =~= above.drop_last());
        }
        i += 1;
    }
    assert(all.take(found@.len() as int) =~= all);
    let spelling = render(true, &kept, kept.len());
    assert(byte_parts(kept@).take(kept@.len() as int) =~= byte_parts(kept@));
    spelling
}

/// The path of `name` in the directory of the first `count` of `parts`.
pub fn child(from_root: bool, found: &Vec<Vec<u8>>, count: usize, name: &[u8]) -> (path: Vec<u8>)
    requires
        count <= found@.len(),
    ensures
        path@ == rendered(from_root, byte_parts(found@).take(count as int).push(name@)),
{
    let ghost dir = byte_parts(found@).take(count as int);
    let mut path = render(from_root, found, count);
    if count > 0 {
        path.push(SEPARATOR);
    }
    let mut last = slice_of(name, 0, name.len());
    assert(last@ =~= name@);
    path.append(&mut last);
    assert(dir.push(name@).drop_last() =~= dir);
    assert(dir.push(name@).last() == name@);
    assert(path@ =~= rendered(from_root, dir.push(name@)));
    path
}

// ---------------------------------------------------------------------------
// Laws

/// A part as a path is taken apart into: it names something, and holds no
/// separator.
pub open spec fn plain(part: Seq<u8>) -> bool {
    names_something(part) && !part.contains(SEPARATOR)
}

/// Parts of which each is one that a path is taken apart into.
pub open spec fn all_plain(parts: Seq<Seq<u8>>) -> bool {
    forall|i: int| 0 <= i < parts.len() ==> plain(#[trigger] parts[i])
}

/// Parts of which none is `..`.
pub open spec fn none_up(parts: Seq<Seq<u8>>) -> bool {
    forall|i: int| 0 <= i < parts.len() ==> !is_up(#[trigger] parts[i])
}

/// A separator is found at the same place whatever stands in front.
proof fn separator_behind(head: Seq<u8>, path: Seq<u8>, i: int)
    requires
        0 <= i,
    ensures
        separator_from(head + path, head.len() + i) == head.len() + separator_from(path, i),
    decreases path.len() - i,
{
    if i < path.len() {
        assert((head + path)[head.len() + i] == path[i]);
        separator_behind(head, path, i + 1);
    }
}

/// Parts are the same whatever stands in front of where they begin.
proof fn parts_behind(head: Seq<u8>, path: Seq<u8>, i: int)
    requires
        0 <= i,
    ensures
        parts_from(head + path, head.len() + i) == parts_from(path, i),
    decreases path.len() - i + 1,
{
    if i < path.len() {
        separator_is_ahead(path, i);
        separator_behind(head, path, i);
        let end = separator_from(path, i);
        assert((head + path).subrange(head.len() + i, head.len() + end) =~= path.subrange(i, end));
        parts_behind(head, path, end + 1);
    }
}

/// A separator is found in front of whatever stands behind one.
proof fn separator_before(front: Seq<u8>, back: Seq<u8>, i: int)
    requires
        0 <= i <= front.len(),
    ensures
        separator_from(front.push(SEPARATOR) + back, i) == separator_from(front, i),
    decreases front.len() - i,
{
    let path = front.push(SEPARATOR) + back;
    if i < front.len() {
        assert(path[i] == front[i]);
        if front[i] != SEPARATOR {
            separator_before(front, back, i + 1);
        }
    } else {
        assert(path[i] == SEPARATOR);
    }
}

/// A separator divides the parts of a path.
pub proof fn parts_on_both_sides(front: Seq<u8>, back: Seq<u8>, i: int)
    requires
        0 <= i <= front.len(),
    ensures
        parts_from(front.push(SEPARATOR) + back, i) == parts_from(front, i) + parts(back),
    decreases front.len() - i,
{
    let path = front.push(SEPARATOR) + back;
    separator_is_ahead(front, i);
    separator_before(front, back, i);
    let end = separator_from(front, i);
    let part = front.subrange(i, end);
    assert(path.subrange(i, end) =~= part);
    if end < front.len() {
        parts_on_both_sides(front, back, end + 1);
    } else {
        parts_behind(front.push(SEPARATOR), back, 0);
        assert(parts_from(front, end + 1) =~= Seq::empty());
    }
    let rest = parts_from(path, end + 1);
    assert(rest == parts_from(front, end + 1) + parts(back));
    if i < front.len() {
        assert(seq![part] + (parts_from(front, end + 1) + parts(back)) =~= (seq![part] + parts_from(
            front,
            end + 1,
        )) + parts(back));
    } else {
        assert(part.len() == 0);
        assert(parts_from(front, i) =~= Seq::empty());
        assert(Seq::<Seq<u8>>::empty() + parts(back) =~= parts(back));
        assert(parts_from(path, i) == rest);
    }
}

/// A single part is taken apart into itself.
pub proof fn one_part(part: Seq<u8>)
    requires
        plain(part),
    ensures
        parts(part) == seq![part],
{
    separator_is_ahead(part, 0);
    let end = separator_from(part, 0);
    assert(end == part.len()) by {
        if end < part.len() {
            assert(part.contains(part[end]));
        }
    }
    assert(part.subrange(0, end) =~= part);
    assert(parts_from(part, end + 1) =~= Seq::empty());
    assert(seq![part] + Seq::<Seq<u8>>::empty() =~= seq![part]);
}

/// Taking a path apart undoes putting its parts together.
pub proof fn taking_apart_undoes_joining(all: Seq<Seq<u8>>)
    requires
        all_plain(all),
    ensures
        parts(joined(all)) == all,
    decreases all.len(),
{
    if all.len() == 0 {
        assert(parts(joined(all)) =~= all);
    } else if all.len() == 1 {
        one_part(all[0]);
        assert(seq![all[0]] =~= all);
    } else {
        let front = all.drop_last();
        assert forall|i: int| 0 <= i < front.len() implies plain(#[trigger] front[i]) by {
            assert(front[i] == all[i]);
        }
        taking_apart_undoes_joining(front);
        one_part(all.last());
        parts_on_both_sides(joined(front), all.last(), 0);
        assert(front + seq![all.last()] =~= all);
    }
}

/// What a path is taken apart into are parts.
proof fn parts_are_plain(path: Seq<u8>, i: int)
    requires
        0 <= i,
    ensures
        all_plain(parts_from(path, i)),
    decreases path.len() - i + 1,
{
    if i < path.len() {
        separator_is_ahead(path, i);
        let end = separator_from(path, i);
        let part = path.subrange(i, end);
        parts_are_plain(path, end + 1);
        assert(!part.contains(SEPARATOR)) by {
            if part.contains(SEPARATOR) {
                let k = choose|k: int| 0 <= k < part.len() && part[k] == SEPARATOR;
                assert(path[i + k] == SEPARATOR);
            }
        }
        let rest = parts_from(path, end + 1);
        assert forall|k: int| 0 <= k < parts_from(path, i).len() implies plain(
            #[trigger] parts_from(path, i)[k],
        ) by {
            if names_something(part) && k > 0 {
                assert(parts_from(path, i)[k] == rest[k - 1]);
            }
        }
    }
}

/// Parts with every `..` carried out hold none, and are parts.
proof fn resolving_carries_out(all: Seq<Seq<u8>>)
    requires
        all_plain(all),
    ensures
        all_plain(resolved(all)),
        none_up(resolved(all)),
    decreases all.len(),
{
    if all.len() > 0 {
        let front = all.drop_last();
        assert forall|i: int| 0 <= i < front.len() implies plain(#[trigger] front[i]) by {
            assert(front[i] == all[i]);
        }
        resolving_carries_out(front);
        assert(plain(all[all.len() - 1]));
    }
}

/// There is nothing to carry out in parts without `..`.
pub proof fn nothing_to_carry_out(all: Seq<Seq<u8>>)
    requires
        none_up(all),
    ensures
        resolved(all) == all,
    decreases all.len(),
{
    if all.len() > 0 {
        let front = all.drop_last();
        assert forall|i: int| 0 <= i < front.len() implies !is_up(#[trigger] front[i]) by {
            assert(front[i] == all[i]);
        }
        nothing_to_carry_out(front);
        assert(!is_up(all[all.len() - 1]));
        assert(front.push(all.last()) =~= all);
    } else {
        assert(resolved(all) =~= all);
    }
}

/// An absolute path is its own one spelling, wherever one stands.
pub proof fn an_absolute_path_stays(path: Seq<u8>, cwd: Seq<u8>, elsewhere: Seq<u8>)
    ensures
        rooted(lexically_absolute(path, cwd)),
        lexically_absolute(lexically_absolute(path, cwd), elsewhere) == lexically_absolute(
            path,
            cwd,
        ),
{
    let all = absolute_parts(path, cwd);
    parts_are_plain(path, 0);
    parts_are_plain(cwd, 0);
    assert(all_plain(all));
    resolving_carries_out(all);
    let clean = resolved(all);
    taking_apart_undoes_joining(clean);
    nothing_to_carry_out(clean);
    let empty: Seq<u8> = Seq::empty();
    parts_on_both_sides(empty, joined(clean), 0);
    assert(empty.push(SEPARATOR) =~= seq![SEPARATOR]);
    assert(parts_from(empty, 0) =~= Seq::empty());
    assert(Seq::<Seq<u8>>::empty() + clean =~= clean);
}

} // verus!
