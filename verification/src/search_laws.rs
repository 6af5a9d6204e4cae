//! Which directories and files of sets are read.

use crate::config;
use crate::counting;
use crate::filtersets;
use crate::filtersets::{DirOutcome, SetsDir};
use crate::text;
use vstd::prelude::*;

verus! {

// ---------------------------------------------------------------------------
// Entries of a search path

proof fn found_behind(head: Seq<char>, list: Seq<char>, c: char, i: int)
    requires
        0 <= i,
    ensures
        text::next_at(head + list, c, head.len() + i) == head.len() + text::next_at(list, c, i),
    decreases list.len() - i,
{
    if i < list.len() {
        assert((head + list)[head.len() + i] == list[i]);
        if list[i] != c {
            found_behind(head, list, c, i + 1);
        }
    } else {
        assert(text::next_at(head + list, c, head.len() + i) == (head + list).len());
    }
}

proof fn entries_behind(head: Seq<char>, list: Seq<char>, i: int)
    requires
        0 <= i <= list.len(),
    ensures
        filtersets::entries_from(head + list, head.len() + i) == filtersets::entries_from(list, i),
    decreases list.len() - i,
{
    let whole = head + list;
    let n = head.len() as int;
    text::next_at_is_ahead(list, ':', i);
    found_behind(head, list, ':', i);
    let end = text::next_at(list, ':', i);
    if end >= list.len() {
        assert(whole.skip(n + i) =~= list.skip(i));
    } else {
        assert(whole.subrange(n + i, n + end) =~= list.subrange(i, end));
        entries_behind(head, list, end + 1);
    }
}

/// The entries of a search path are what stands between its colons.
pub proof fn what_the_entries_are(entry: Seq<char>, rest: Seq<char>)
    requires
        forall|i: int| 0 <= i < entry.len() ==> #[trigger] entry[i] != ':',
    ensures
        filtersets::entries_from(entry, 0) == seq![entry],
        filtersets::entries_from(entry + seq![':'] + rest, 0) == seq![entry]
            + filtersets::entries_from(rest, 0),
{
    text::next_at_is_ahead(entry, ':', 0);
    assert(entry.skip(0) =~= entry);
    let head = entry + seq![':'];
    let whole = head + rest;
    text::next_at_is_ahead(whole, ':', 0);
    let end = text::next_at(whole, ':', 0);
    assert(whole[entry.len() as int] == ':');
    if end < entry.len() {
        assert(entry[end] == ':');
    }
    if end > entry.len() {
        assert(whole[entry.len() as int] != ':');
    }
    assert(whole.subrange(0, end) =~= entry);
    entries_behind(head, rest, 0);
}

// ---------------------------------------------------------------------------
// The home directory

/// Whether a part of a path leads nowhere else: it is empty, or a dot.
pub open spec fn leads_nowhere(part: Seq<char>) -> bool {
    part.len() == 0 || part == seq!['.']
}

/// Whether a text has no slash in it.
pub open spec fn no_slash(part: Seq<char>) -> bool {
    forall|i: int| 0 <= i < part.len() ==> #[trigger] part[i] != '/'
}

proof fn front_behind(head: Seq<char>, path: Seq<char>, i: int)
    requires
        0 <= i <= path.len(),
    ensures
        filtersets::front_of(head + path, head.len() + i) == head.len() + filtersets::front_of(
            path,
            i,
        ),
        i <= filtersets::front_of(path, i) <= path.len(),
    decreases path.len() - i,
{
    let whole = head + path;
    let n = head.len() as int;
    text::next_at_is_ahead(path, '/', i);
    found_behind(head, path, '/', i);
    let end = text::next_at(path, '/', i);
    if i < path.len() {
        assert(whole.subrange(n + i, n + end) =~= path.subrange(i, end));
        if filtersets::idle(path.subrange(i, end)) && end < path.len() {
            front_behind(head, path, end + 1);
        }
    }
}

proof fn last_behind(head: Seq<char>, path: Seq<char>, from: int, to: int)
    requires
        0 <= from <= to <= path.len(),
    ensures
        filtersets::last_part(head + path, head.len() + from, head.len() + to) == head.len()
            + filtersets::last_part(path, from, to),
    decreases to - from,
{
    if to > from {
        assert((head + path)[head.len() + to - 1] == path[to - 1]);
        if path[to - 1] != '/' {
            last_behind(head, path, from, to - 1);
        }
    }
}

proof fn back_behind(head: Seq<char>, path: Seq<char>, from: int, to: int)
    requires
        0 <= from <= to <= path.len(),
    ensures
        filtersets::back_of(head + path, head.len() + from, head.len() + to) == head.len()
            + filtersets::back_of(path, from, to),
        from <= filtersets::back_of(path, from, to) <= to,
    decreases to - from,
{
    let whole = head + path;
    let n = head.len() as int;
    filtersets::the_last_part_is_between(path, from, to);
    last_behind(head, path, from, to);
    let start = filtersets::last_part(path, from, to);
    if to > from {
        assert(whole.subrange(n + start, n + to) =~= path.subrange(start, to));
        if filtersets::idle(path.subrange(start, to)) && start > from {
            back_behind(head, path, from, start - 1);
        }
    }
}

proof fn last_in_front(path: Seq<char>, tail: Seq<char>, from: int, to: int)
    requires
        0 <= from <= to <= path.len(),
    ensures
        filtersets::last_part(path + tail, from, to) == filtersets::last_part(path, from, to),
    decreases to - from,
{
    if to > from {
        assert((path + tail)[to - 1] == path[to - 1]);
        if path[to - 1] != '/' {
            last_in_front(path, tail, from, to - 1);
        }
    }
}

proof fn back_in_front(path: Seq<char>, tail: Seq<char>, from: int, to: int)
    requires
        0 <= from <= to <= path.len(),
    ensures
        filtersets::back_of(path + tail, from, to) == filtersets::back_of(path, from, to),
        from <= filtersets::back_of(path, from, to) <= to,
    decreases to - from,
{
    filtersets::the_last_part_is_between(path, from, to);
    last_in_front(path, tail, from, to);
    let start = filtersets::last_part(path, from, to);
    if to > from {
        assert((path + tail).subrange(start, to) =~= path.subrange(start, to));
        if filtersets::idle(path.subrange(start, to)) && start > from {
            back_in_front(path, tail, from, start - 1);
        }
    }
}

/// A slash is found in front of what stands behind it.
proof fn found_in_front(path: Seq<char>, rest: Seq<char>, i: int)
    requires
        0 <= i <= path.len(),
    ensures
        text::next_at(path + seq!['/'] + rest, '/', i) == text::next_at(path, '/', i),
        i <= text::next_at(path, '/', i) <= path.len(),
    decreases path.len() - i,
{
    let whole = path + seq!['/'] + rest;
    if i < path.len() {
        assert(whole[i] == path[i]);
        if path[i] != '/' {
            found_in_front(path, rest, i + 1);
        }
    } else {
        assert(whole[i] == '/');
    }
}

proof fn front_in_front(path: Seq<char>, part: Seq<char>, i: int)
    requires
        0 <= i <= path.len(),
        leads_nowhere(part),
    ensures
        ({
            let whole = path + seq!['/'] + part;
            let front = filtersets::front_of(path, i);
            &&& i <= front <= path.len()
            &&& front < path.len() ==> filtersets::front_of(whole, i) == front
            &&& front == path.len() ==> filtersets::front_of(whole, i) == whole.len()
        }),
    decreases path.len() - i,
{
    let whole = path + seq!['/'] + part;
    found_in_front(path, part, i);
    let end = text::next_at(path, '/', i);
    assert(whole.subrange(i, end) =~= path.subrange(i, end));
    if end < path.len() {
        if filtersets::idle(path.subrange(i, end)) {
            front_in_front(path, part, end + 1);
        }
    } else {
        let last = path.len() + 1;
        let piece = path.subrange(i, end);
        if filtersets::idle(piece) {
            assert(filtersets::front_of(whole, i) == filtersets::front_of(whole, last as int));
            assert(no_slash(part)) by {
                assert forall|k: int| 0 <= k < part.len() implies #[trigger] part[k] != '/' by {}
            }
            if part.len() > 0 {
                text::next_at_is_ahead(whole, '/', last as int);
                let behind = text::next_at(whole, '/', last as int);
                if behind < whole.len() {
                    assert(whole[behind] == part[behind - last]);
                }
                assert(whole.subrange(last as int, behind) =~= part);
            }
        }
    }
}

/// What is taken off the ends of a path: parts that are empty or a dot, however
/// many, and nothing else. A path whose first and last parts lead somewhere
/// stays as it is.
pub proof fn what_is_trimmed(path: Seq<char>, part: Seq<char>, first: Seq<char>, last: Seq<char>)
    requires
        leads_nowhere(part),
        no_slash(first) && !leads_nowhere(first),
        no_slash(last) && !leads_nowhere(last),
    ensures
        filtersets::trimmed(part) == Seq::<char>::empty(),
        filtersets::trimmed(part + seq!['/'] + path) == filtersets::trimmed(path),
        filtersets::trimmed(path + seq!['/'] + part) == filtersets::trimmed(path),
        filtersets::trimmed(first) == first,
        filtersets::trimmed(first + seq!['/'] + last) == first + seq!['/'] + last,
        filtersets::trimmed(first + seq!['/'] + path + seq!['/'] + last) == first + seq!['/'] + path
            + seq!['/'] + last,
{
    nothing_is_left(part);
    let head = part + seq!['/'];
    let empty: Seq<char> = Seq::empty();
    {
        let whole = head + path;
        let n = head.len() as int;
        assert(no_slash(part)) by {
            assert forall|k: int| 0 <= k < part.len() implies #[trigger] part[k] != '/' by {}
        }
        text::next_at_is_ahead(whole, '/', 0);
        let end = text::next_at(whole, '/', 0);
        assert(whole[part.len() as int] == '/');
        if end < part.len() {
            assert(part[end] == '/');
        }
        if end > part.len() {
            assert(whole[part.len() as int] != '/');
        }
        assert(whole.subrange(0, end) =~= part);
        front_behind(head, path, 0);
        let from = filtersets::front_of(path, 0);
        assert(filtersets::front_of(whole, 0) == filtersets::front_of(whole, n));
        back_behind(head, path, from, path.len() as int);
        let to = filtersets::back_of(path, from, path.len() as int);
        assert(whole.subrange(n + from, n + to) =~= path.subrange(from, to));
    }
    {
        let tail = seq!['/'] + part;
        let whole = path + seq!['/'] + part;
        assert(path + tail =~= whole);
        front_in_front(path, part, 0);
        let from = filtersets::front_of(path, 0);
        let len = path.len() as int;
        if from < len {
            last_is_the_part(path, part, from, whole.len() as int);
            let start = filtersets::last_part(whole, from, whole.len() as int);
            assert(whole.subrange(start, whole.len() as int) =~= part);
            assert(filtersets::back_of(whole, from, whole.len() as int) == filtersets::back_of(
                whole,
                from,
                len,
            ));
            back_in_front(path, tail, from, len);
            let to = filtersets::back_of(path, from, len);
            assert(whole.subrange(from, to) =~= path.subrange(from, to));
        } else {
            assert(filtersets::trimmed(whole) =~= empty);
            assert(filtersets::trimmed(path) =~= empty);
        }
    }
    stays_as_it_is(empty, first, first, first);
    assert(empty + first =~= first);
    let two = first + seq!['/'] + last;
    assert(two.take(first.len() as int) =~= first);
    stays_as_it_is(first + seq!['/'], last, two, first);
    let three = first + seq!['/'] + path + seq!['/'] + last;
    assert(three.take(first.len() as int) =~= first);
    stays_as_it_is(first + seq!['/'] + path + seq!['/'], last, three, first);
}

proof fn nothing_is_left(part: Seq<char>)
    requires
        leads_nowhere(part),
    ensures
        filtersets::trimmed(part) == Seq::<char>::empty(),
{
    assert(no_slash(part)) by {
        assert forall|k: int| 0 <= k < part.len() implies #[trigger] part[k] != '/' by {}
    }
    text::next_at_is_ahead(part, '/', 0);
    let end = text::next_at(part, '/', 0);
    assert(end == part.len());
    assert(part.subrange(0, end) =~= part);
    assert(filtersets::front_of(part, 0) == part.len());
    assert(filtersets::trimmed(part) =~= Seq::<char>::empty());
}

proof fn last_is_the_part(path: Seq<char>, part: Seq<char>, from: int, to: int)
    requires
        no_slash(part),
        0 <= from <= path.len(),
        path.len() + 1 <= to <= path.len() + 1 + part.len(),
    ensures
        filtersets::last_part(path + seq!['/'] + part, from, to) == path.len() + 1,
    decreases to,
{
    let whole = path + seq!['/'] + part;
    if to > path.len() + 1 {
        assert(whole[to - 1] == part[to - 1 - path.len() - 1]);
        last_is_the_part(path, part, from, to - 1);
    } else {
        assert(whole[to - 1] == '/');
    }
}

proof fn stays_as_it_is(head: Seq<char>, last: Seq<char>, path: Seq<char>, first: Seq<char>)
    requires
        path == head + last,
        head.len() == 0 || head.last() == '/',
        no_slash(last) && !leads_nowhere(last),
        no_slash(first) && !leads_nowhere(first),
        path == first || (first.len() < path.len() && path.take(first.len() as int) == first
            && path[first.len() as int] == '/'),
    ensures
        filtersets::trimmed(path) == path,
{
    let len = path.len() as int;
    text::next_at_is_ahead(path, '/', 0);
    let end = text::next_at(path, '/', 0);
    let n = first.len() as int;
    assert(path.take(n) =~= first);
    if end < n {
        assert(path[end] == path.take(n)[end]);
        assert(first[end] == '/');
    }
    if end > n {
        assert(path[n] != '/');
    }
    assert(path.subrange(0, end) =~= first);
    assert(filtersets::front_of(path, 0) == 0);
    last_after_a_slash(head, last, len);
    let start = filtersets::last_part(path, 0, len);
    assert(start == head.len());
    assert(path.subrange(start, len) =~= last);
    assert(filtersets::back_of(path, 0, len) == len);
    assert(path.subrange(0, len) =~= path);
}

proof fn last_after_a_slash(head: Seq<char>, last: Seq<char>, to: int)
    requires
        head.len() == 0 || head.last() == '/',
        no_slash(last),
        head.len() <= to <= head.len() + last.len(),
    ensures
        filtersets::last_part(head + last, 0, to) == head.len(),
    decreases to,
{
    let path = head + last;
    if to > head.len() {
        assert(path[to - 1] == last[to - 1 - head.len()]);
        last_after_a_slash(head, last, to - 1);
    } else if to > 0 {
        assert(path[to - 1] == '/');
    }
}

/// A tilde that stands alone or before a slash is the home directory, where
/// there is one, and what follows lies in it. Every other entry stands as it is.
pub proof fn what_a_tilde_means(rest: Seq<char>, home: Seq<char>, entry: Seq<char>)
    requires
        rest.len() == 0 || rest[0] == '/',
        home.len() > 0,
        entry.len() == 0 || entry[0] != '~' || (entry.len() > 1 && entry[1] != '/'),
    ensures
        filtersets::expanded(seq!['~'] + rest, Some(home)) == config::joined_path(
            home,
            filtersets::trimmed(rest),
        ),
        filtersets::expanded(seq!['~'] + rest, None) == seq!['~'] + rest,
        filtersets::expanded(seq!['~'] + rest, Some(Seq::empty())) == seq!['~'] + rest,
        filtersets::expanded(entry, Some(home)) == entry,
        filtersets::expanded(entry, None) == entry,
{
    let whole = seq!['~'] + rest;
    assert(whole[0] == '~');
    assert(whole.skip(1) =~= rest);
    if rest.len() > 0 {
        assert(whole[1] == rest[0]);
    }
}

// ---------------------------------------------------------------------------
// Directories

/// Whether an entry is the first that leads to its directory: it is not empty,
/// and no entry before it that is not empty leads there too.
pub open spec fn leads_first(
    entries: Seq<Seq<char>>,
    home: Option<Seq<char>>,
    cwd: Seq<char>,
    i: int,
) -> bool {
    &&& entries[i].len() > 0
    &&& forall|j: int|
        0 <= j < i && (#[trigger] entries[j]).len() > 0 ==> filtersets::directory_key(
            filtersets::expanded(entries[j], home),
            cwd,
        ) != filtersets::directory_key(filtersets::expanded(entries[i], home), cwd)
}

/// How many of the first `n` entries are the first that lead to a directory.
pub open spec fn places_found(
    entries: Seq<Seq<char>>,
    home: Option<Seq<char>>,
    cwd: Seq<char>,
    n: int,
) -> int {
    counting::how_many(|i: int| leads_first(entries, home, cwd, i), n)
}

spec fn found_at(
    entries: Seq<Seq<char>>,
    home: Option<Seq<char>>,
    cwd: Seq<char>,
    n: int,
    i: int,
) -> bool {
    let dirs = filtersets::directories(entries.take(n), home, cwd);
    &&& 0 <= places_found(entries, home, cwd, i) < dirs.len()
    &&& dirs[places_found(entries, home, cwd, i)] == filtersets::expanded(entries[i], home)
}

/// The directories that are searched are those that the entries lead to, in
/// their order, each where an entry first leads to it.
pub proof fn which_directories_are_searched(
    entries: Seq<Seq<char>>,
    home: Option<Seq<char>>,
    cwd: Seq<char>,
    i: int,
)
    requires
        0 <= i < entries.len(),
    ensures
        filtersets::directories(entries, home, cwd).len() == places_found(
            entries,
            home,
            cwd,
            entries.len() as int,
        ),
        leads_first(entries, home, cwd, i) ==> {
            let at = places_found(entries, home, cwd, i);
            &&& 0 <= at < filtersets::directories(entries, home, cwd).len()
            &&& filtersets::directories(entries, home, cwd)[at] == filtersets::expanded(
                entries[i],
                home,
            )
        },
{
    searched_up_to(entries, home, cwd, entries.len() as int);
    assert(entries.take(entries.len() as int) =~= entries);
    assert(leads_first(entries, home, cwd, i) ==> found_at(
        entries,
        home,
        cwd,
        entries.len() as int,
        i,
    ));
}

proof fn searched_up_to(
    entries: Seq<Seq<char>>,
    home: Option<Seq<char>>,
    cwd: Seq<char>,
    n: int,
)
    requires
        0 <= n <= entries.len(),
    ensures
        filtersets::directories(entries.take(n), home, cwd).len() == places_found(
            entries,
            home,
            cwd,
            n,
        ),
        forall|d: int|
            0 <= d < filtersets::directories(entries.take(n), home, cwd).len() ==> #[trigger]
                comes_from(entries, home, cwd, n, d),
        forall|i: int|
            0 <= i < n && leads_first(entries, home, cwd, i) ==> #[trigger] found_at(
                entries,
                home,
                cwd,
                n,
                i,
            ),
    decreases n,
{
    if n > 0 {
        searched_up_to(entries, home, cwd, n - 1);
        let front = entries.take(n - 1);
        let known = filtersets::directories(front, home, cwd);
        let dirs = filtersets::directories(entries.take(n), home, cwd);
        let last = entries[n - 1];
        assert(entries.take(n).drop_last() =~= front);
        assert(entries.take(n).last() == last);
        counting::at_most_all(|i: int| leads_first(entries, home, cwd, i), n - 1);
        let dir = filtersets::expanded(last, home);
        let key = filtersets::directory_key(dir, cwd);
        if last.len() > 0 {
            let seen = exists|d: int|
                0 <= d < known.len() && filtersets::directory_key(#[trigger] known[d], cwd) == key;
            assert(seen == !leads_first(entries, home, cwd, n - 1)) by {
                if seen {
                    let d = choose|d: int|
                        0 <= d < known.len() && filtersets::directory_key(#[trigger] known[d], cwd)
                            == key;
                    assert(comes_from(entries, home, cwd, n - 1, d));
                    let j = choose|j: int|
                        0 <= j < n - 1 && (#[trigger] entries[j]).len() > 0 && known[d]
                            == filtersets::expanded(entries[j], home);
                    assert(entries[j].len() > 0);
                }
                if !leads_first(entries, home, cwd, n - 1) {
                    let j = choose|j: int|
                        0 <= j < n - 1 && (#[trigger] entries[j]).len() > 0
                            && filtersets::directory_key(
                            filtersets::expanded(entries[j], home),
                            cwd,
                        ) == key;
                    earliest_that_leads(entries, home, cwd, j);
                    let first = choose|first: int|
                        0 <= first <= j && filtersets::directory_key(
                            filtersets::expanded(entries[first], home),
                            cwd,
                        ) == filtersets::directory_key(
                            filtersets::expanded(entries[j], home),
                            cwd,
                        ) && #[trigger] leads_first(entries, home, cwd, first);
                    assert(found_at(entries, home, cwd, n - 1, first));
                    let d = places_found(entries, home, cwd, first);
                    assert(filtersets::directory_key(known[d], cwd) == key);
                }
            }
        }
        assert forall|i: int| 0 <= i < n && leads_first(
            entries,
            home,
            cwd,
            i,
        ) implies #[trigger] found_at(entries, home, cwd, n, i) by {
            if i < n - 1 {
                assert(found_at(entries, home, cwd, n - 1, i));
            }
        }
        assert forall|d: int| 0 <= d < dirs.len() implies #[trigger] comes_from(
            entries,
            home,
            cwd,
            n,
            d,
        ) by {
            if d < known.len() {
                assert(comes_from(entries, home, cwd, n - 1, d));
                let j = choose|j: int|
                    0 <= j < n - 1 && (#[trigger] entries[j]).len() > 0 && known[d]
                        == filtersets::expanded(entries[j], home);
                assert(entries[j].len() > 0 && dirs[d] == known[d]);
            } else {
                assert(entries[n - 1].len() > 0 && dirs[d] == dir);
            }
        }
    } else {
        assert(filtersets::directories(entries.take(0), home, cwd) =~= Seq::empty());
    }
}

spec fn comes_from(
    entries: Seq<Seq<char>>,
    home: Option<Seq<char>>,
    cwd: Seq<char>,
    n: int,
    d: int,
) -> bool {
    exists|j: int|
        0 <= j < n && (#[trigger] entries[j]).len() > 0 && filtersets::directories(
            entries.take(n),
            home,
            cwd,
        )[d] == filtersets::expanded(entries[j], home)
}

proof fn earliest_that_leads(
    entries: Seq<Seq<char>>,
    home: Option<Seq<char>>,
    cwd: Seq<char>,
    j: int,
)
    requires
        0 <= j < entries.len(),
        entries[j].len() > 0,
    ensures
        exists|first: int|
            0 <= first <= j && filtersets::directory_key(
                filtersets::expanded(entries[first], home),
                cwd,
            ) == filtersets::directory_key(filtersets::expanded(entries[j], home), cwd)
                && #[trigger] leads_first(entries, home, cwd, first),
    decreases j,
{
    if !leads_first(entries, home, cwd, j) {
        let i = choose|i: int|
            0 <= i < j && (#[trigger] entries[i]).len() > 0 && filtersets::directory_key(
                filtersets::expanded(entries[i], home),
                cwd,
            ) == filtersets::directory_key(filtersets::expanded(entries[j], home), cwd);
        earliest_that_leads(entries, home, cwd, i);
        let first = choose|first: int|
            0 <= first <= i && filtersets::directory_key(
                filtersets::expanded(entries[first], home),
                cwd,
            ) == filtersets::directory_key(filtersets::expanded(entries[i], home), cwd)
                && #[trigger] leads_first(entries, home, cwd, first);
        assert(leads_first(entries, home, cwd, first));
    } else {
        assert(leads_first(entries, home, cwd, j));
    }
}

/// Without a search path no directory is searched.
pub proof fn no_path_no_search(home: Option<Seq<char>>, cwd: Seq<char>, list: Seq<char>)
    ensures
        filtersets::search_path(None, home, cwd).len() == 0,
        filtersets::search_path(Some(list), home, cwd) == filtersets::directories(
            filtersets::entries_from(list, 0),
            home,
            cwd,
        ),
{
}

// ---------------------------------------------------------------------------
// Files

/// A file of sets is named `filters.toml`, or something before `.filters.toml`.
pub proof fn which_names_are_of_sets(name: Seq<char>, front: Seq<char>)
    ensures
        filtersets::set_file_name("filters.toml"@),
        filtersets::set_file_name(front + ".filters.toml"@) <==> front.len() > 0,
        filtersets::set_file_name(name) ==> name == "filters.toml"@ || (name.len() > 13
            && name.skip(name.len() - 13) == ".filters.toml"@),
{
    reveal_strlit("filters.toml");
    reveal_strlit(".filters.toml");
    let whole = front + ".filters.toml"@;
    assert(whole.skip(whole.len() - 13) =~= ".filters.toml"@);
    if front.len() == 0 {
        assert(whole =~= ".filters.toml"@);
    }
    if text::ends_in(name, ".filters.toml"@) && name.len() == 13 {
        assert(name.skip(0) =~= name);
    }
}

/// How many of the first `n` entries are files of sets.
pub open spec fn of_sets(entries: Seq<(String, bool)>, n: int) -> int {
    counting::how_many(|i: int| filtersets::set_file_name(entries[i].0@) && entries[i].1, n)
}

proof fn names_up_to(entries: Seq<(String, bool)>, n: int, i: int)
    requires
        0 <= n <= entries.len(),
    ensures
        filtersets::set_file_names(entries.take(n)).len() == of_sets(entries, n),
        0 <= i < n && filtersets::set_file_name(entries[i].0@) && entries[i].1 ==> {
            &&& 0 <= of_sets(entries, i) < filtersets::set_file_names(entries.take(n)).len()
            &&& filtersets::set_file_names(entries.take(n))[of_sets(entries, i)] == entries[i].0@
        },
    decreases n,
{
    if n > 0 {
        names_up_to(entries, n - 1, i);
        assert(entries.take(n).drop_last() =~= entries.take(n - 1));
        assert(entries.take(n).last() == entries[n - 1]);
        counting::at_most_all(
            |i: int| filtersets::set_file_name(entries[i].0@) && entries[i].1,
            n - 1,
        );
    }
}

/// The files of a directory are those of its entries that are named so and lead
/// to a file, as many as there are, each behind the directory, in the order of
/// their names.
pub proof fn which_files_a_directory_has(dir: SetsDir, entries: Seq<(String, bool)>, i: int, j: int)
    requires
        dir.outcome matches DirOutcome::Entries(found) && found@ == entries,
        0 <= i < entries.len(),
    ensures
        ({
            let names = text::in_order(filtersets::set_file_names(entries));
            let files = filtersets::files_in(dir);
            &&& files.len() == of_sets(entries, entries.len() as int)
            &&& files.len() == names.len()
            &&& 0 <= j < files.len() ==> files[j] == config::joined_path(dir.path@, names[j])
            &&& text::sorted(names)
            &&& filtersets::set_file_name(entries[i].0@) && entries[i].1 ==> files.contains(
                config::joined_path(dir.path@, entries[i].0@),
            )
        }),
{
    broadcast use vstd::seq_lib::group_to_multiset_ensures;

    let plain = filtersets::set_file_names(entries);
    let names = text::in_order(plain);
    text::ordering_sorts(plain);
    names_up_to(entries, entries.len() as int, i);
    assert(entries.take(entries.len() as int) =~= entries);
    let files = filtersets::files_in(dir);
    if filtersets::set_file_name(entries[i].0@) && entries[i].1 {
        let name = entries[i].0@;
        assert(plain[of_sets(entries, i)] == name);
        assert(plain.contains(name));
        assert(plain.to_multiset().count(name) > 0);
        assert(names.contains(name));
        let k = choose|k: int| 0 <= k < names.len() && names[k] == name;
        assert(files[k] == config::joined_path(dir.path@, name));
    }
}

/// The files of directories stand one directory behind the other; a directory
/// that is not there has none.
pub proof fn which_files_directories_have(first: Seq<SetsDir>, second: Seq<SetsDir>, dir: SetsDir)
    ensures
        filtersets::files_in_all(Seq::empty()).len() == 0,
        filtersets::files_in_all(seq![dir]) == filtersets::files_in(dir),
        filtersets::files_in_all(first + second) == filtersets::files_in_all(first)
            + filtersets::files_in_all(second),
        dir.outcome is Missing ==> filtersets::files_in(dir).len() == 0,
    decreases second.len(),
{
    assert(seq![dir].drop_last() =~= Seq::empty());
    assert(filtersets::files_in_all(seq![dir].drop_last()) =~= Seq::empty());
    assert(filtersets::files_in_all(seq![dir]) =~= filtersets::files_in(dir));
    if second.len() > 0 {
        which_files_directories_have(first, second.drop_last(), dir);
        assert((first + second).drop_last() =~= first + second.drop_last());
        assert((first + second).last() == second.last());
    } else {
        assert(first + second =~= first);
    }
    assert(filtersets::files_in_all(first + second) =~= filtersets::files_in_all(first)
        + filtersets::files_in_all(second));
}

} // verus!
