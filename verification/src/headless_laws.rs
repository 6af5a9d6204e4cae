//! Which files are read and what goes out of them, told of the single line.

use crate::counting;
use crate::document;
use crate::document::{DocumentModel, Mode, ReadError};
use crate::document_laws;
use crate::emit;
use crate::emit::Exit;
use crate::filter::model::ActiveModel;
use crate::filter::Verdict;
use crate::headless;
use crate::headless::{Entry, Gathered, Inputs, Source};
use crate::path;
use crate::text;
use vstd::prelude::*;

verus! {

// ---------------------------------------------------------------------------
// The input list

/// Whether bytes from one place up to another hold a byte that is not white
/// space of ASCII.
pub open spec fn says_something(list: Seq<u8>, from: int, to: int) -> bool {
    exists|i: int|
        from <= i < to && #[trigger] list[i] != 32 && list[i] != 9 && list[i] != 10 && list[i] != 12
            && list[i] != 13
}

/// The bytes of a line without its end: a carriage return and a line feed, or
/// one of the two.
pub open spec fn without_end(line: Seq<u8>) -> Seq<u8> {
    let n = line.len() as int;
    if n >= 2 && line[n - 2] == 13 && line[n - 1] == 10 {
        line.take(n - 2)
    } else if n >= 1 && (line[n - 1] == 10 || line[n - 1] == 13) {
        line.take(n - 1)
    } else {
        line
    }
}

/// Whether a line of a list says something.
pub open spec fn tells(list: Seq<u8>, cuts: Seq<int>, k: int) -> bool {
    says_something(list, cuts[k], cuts[k + 1])
}

/// How many of the first `n` lines of a list say something.
pub open spec fn telling_lines(list: Seq<u8>, cuts: Seq<int>, n: int) -> int {
    counting::how_many(|k: int| tells(list, cuts, k), n)
}

/// Every line of a list that says something gives one file, in the order of the
/// lines, and no other line gives any: the file is where the line leads from the
/// directory one stands in, without the line's end and with all else that stands
/// on it.
pub proof fn which_files_a_list_gives(list: Seq<u8>, cwd: Seq<u8>, cuts: Seq<int>, k: int)
    requires
        document_laws::cut_into_lines(list, cuts),
        0 <= k < cuts.len() - 1,
    ensures
        headless::listed_files(list, 0, cwd).len() == telling_lines(list, cuts, cuts.len() - 1),
        says_something(list, cuts[k], cuts[k + 1]) ==> {
            &&& 0 <= telling_lines(list, cuts, k) < headless::listed_files(list, 0, cwd).len()
            &&& headless::listed_files(list, 0, cwd)[telling_lines(list, cuts, k)]
                == path::lexically_absolute(
                without_end(list.subrange(cuts[k], cuts[k + 1])),
                cwd,
            )
        },
{
    files_from_a_cut(list, cwd, cuts, 0);
    let telling = |k: int| tells(list, cuts, k);
    counting::at_most_all(telling, k);
    if telling(k) {
        count_goes_on(telling, k + 1, cuts.len() - 1);
    }
}

/// A list of no bytes gives no file.
pub proof fn an_empty_list_gives_none(cwd: Seq<u8>)
    ensures
        headless::listed_files(Seq::empty(), 0, cwd).len() == 0,
{
}

proof fn count_goes_on(test: spec_fn(int) -> bool, n: int, m: int)
    requires
        0 <= n <= m,
    ensures
        counting::how_many(test, n) <= counting::how_many(test, m),
    decreases m - n,
{
    if n < m {
        count_goes_on(test, n, m - 1);
    }
}

pub proof fn ends_are_white(line: Seq<u8>)
    ensures
        headless::stripped(line) == without_end(line),
        headless::blank_line(headless::stripped(line)) == !says_something(
            line,
            0,
            line.len() as int,
        ),
{
    let left = headless::stripped(line);
    assert(left =~= without_end(line));
    assert forall|i: int| left.len() <= i < line.len() implies #[trigger] line[i] == 10 || line[i]
        == 13 by {}
    if headless::blank_line(left) {
        assert forall|i: int| 0 <= i < line.len() implies headless::white(#[trigger] line[i]) by {
            if i < left.len() {
                assert(headless::white(left[i]));
            }
        }
    } else {
        let i = choose|i: int| 0 <= i < left.len() && !headless::white(#[trigger] left[i]);
        assert(line[i] == left[i]);
        assert(0 <= i < line.len());
    }
}

proof fn a_line_says_what_its_bytes_say(list: Seq<u8>, from: int, to: int)
    requires
        0 <= from <= to <= list.len(),
    ensures
        says_something(list.subrange(from, to), 0, to - from) == says_something(list, from, to),
{
    let line = list.subrange(from, to);
    if says_something(list, from, to) {
        let i = choose|i: int|
            from <= i < to && #[trigger] list[i] != 32 && list[i] != 9 && list[i] != 10 && list[i]
                != 12 && list[i] != 13;
        assert(line[i - from] == list[i]);
    }
    if says_something(line, 0, to - from) {
        let i = choose|i: int|
            0 <= i < to - from && #[trigger] line[i] != 32 && line[i] != 9 && line[i] != 10
                && line[i] != 12 && line[i] != 13;
        assert(line[i] == list[from + i]);
    }
}

proof fn files_from_a_line(list: Seq<u8>, cwd: Seq<u8>, from: int, to: int)
    requires
        document_laws::one_line(list, from, to),
    ensures
        headless::listed_files(list, from, cwd) == if says_something(list, from, to) {
            seq![path::lexically_absolute(without_end(list.subrange(from, to)), cwd)]
        } else {
            Seq::empty()
        } + headless::listed_files(list, to, cwd),
{
    document_laws::a_line_reaches_its_feed(list, from, to);
    let line = list.subrange(from, to);
    ends_are_white(line);
    a_line_says_what_its_bytes_say(list, from, to);
    let rest = headless::listed_files(list, to, cwd);
    assert(Seq::<Seq<u8>>::empty() + rest =~= rest);
}

proof fn files_from_a_cut(list: Seq<u8>, cwd: Seq<u8>, cuts: Seq<int>, n: int)
    requires
        document_laws::cut_into_lines(list, cuts),
        0 <= n < cuts.len(),
    ensures
        headless::listed_files(list, cuts[n], cwd).len() == telling_lines(
            list,
            cuts,
            cuts.len() - 1,
        ) - telling_lines(list, cuts, n),
        forall|k: int|
            n <= k < cuts.len() - 1 && #[trigger] tells(list, cuts, k)
                ==> headless::listed_files(list, cuts[n], cwd)[telling_lines(list, cuts, k)
                - telling_lines(list, cuts, n)] == path::lexically_absolute(
                without_end(list.subrange(cuts[k], cuts[k + 1])),
                cwd,
            ),
    decreases cuts.len() - n,
{
    if n == cuts.len() - 1 {
        assert(headless::listed_files(list, cuts[n], cwd) =~= Seq::empty());
    } else {
        let (from, to) = (cuts[n], cuts[n + 1]);
        assert(document_laws::cut_line(list, cuts, n));
        files_from_a_line(list, cwd, from, to);
        files_from_a_cut(list, cwd, cuts, n + 1);
        let telling = |k: int| tells(list, cuts, k);
        assert(counting::how_many(telling, n + 1) == counting::how_many(telling, n) + if telling(n) {
            1int
        } else {
            0
        });
        let rest = headless::listed_files(list, to, cwd);
        let files = headless::listed_files(list, from, cwd);
        assert forall|k: int|
            n <= k < cuts.len() - 1 && #[trigger] tells(list, cuts, k) implies files[
        telling_lines(list, cuts, k) - telling_lines(list, cuts, n)] == path::lexically_absolute(
            without_end(list.subrange(cuts[k], cuts[k + 1])),
            cwd,
        ) by {
            if k > n {
                count_goes_on(telling, n + 1, k);
                count_goes_on(telling, k + 1, cuts.len() - 1);
                assert(telling(k));
                if telling(n) {
                    assert(files[telling_lines(list, cuts, k) - telling_lines(list, cuts, n)]
                        == rest[telling_lines(list, cuts, k) - telling_lines(list, cuts, n + 1)]);
                }
            }
        }
    }
}

/// Every entry of a directory that is not a directory itself is a file of it,
/// in the order of the entries, as the directory with the entry's name behind
/// it; no other entry is.
pub proof fn which_files_a_directory_gives(dir: Seq<u8>, entries: Seq<Entry>, k: int)
    requires
        0 <= k < entries.len(),
    ensures
        headless::files_of(dir, entries).len() == counting::how_many(
            |i: int| !entries[i].directory,
            entries.len() as int,
        ),
        !entries[k].directory ==> {
            let at = counting::how_many(|i: int| !entries[i].directory, k);
            &&& 0 <= at < headless::files_of(dir, entries).len()
            &&& headless::files_of(dir, entries)[at] == seq![47u8] + path::joined(
                path::parts(dir).push(entries[k].name@),
            )
        },
{
    files_up_to(dir, entries, entries.len() as int);
    assert(entries.take(entries.len() as int) =~= entries);
}

proof fn files_up_to(dir: Seq<u8>, entries: Seq<Entry>, n: int)
    requires
        0 <= n <= entries.len(),
    ensures
        headless::files_of(dir, entries.take(n)).len() == counting::how_many(
            |i: int| !entries[i].directory,
            n,
        ),
        forall|k: int| #![trigger entries[k]]
            0 <= k < n && !entries[k].directory ==> {
                let at = counting::how_many(|i: int| !entries[i].directory, k);
                &&& 0 <= at < headless::files_of(dir, entries.take(n)).len()
                &&& headless::files_of(dir, entries.take(n))[at] == seq![47u8] + path::joined(
                    path::parts(dir).push(entries[k].name@),
                )
            },
    decreases n,
{
    if n > 0 {
        files_up_to(dir, entries, n - 1);
        assert(entries.take(n).drop_last() =~= entries.take(n - 1));
        assert(entries.take(n).last() == entries[n - 1]);
        counting::at_most_all(|i: int| !entries[i].directory, n - 1);
    }
}

// ---------------------------------------------------------------------------
// Lines

/// How a line of a file goes out: behind its path and a tab where there are
/// several files, behind its number and a tab where numbers are asked for, and
/// then as it is.
pub open spec fn goes_out_as(
    out: Seq<u8>,
    path: Seq<u8>,
    line: Seq<char>,
    number: int,
    several: bool,
    numbers: bool,
) -> bool {
    let digits = vstd::utf8::encode_utf8(text::decimal(number as nat));
    let past_path = if several {
        path.len() as int + 1
    } else {
        0
    };
    let past_number = if numbers {
        past_path + digits.len() + 1
    } else {
        past_path
    };
    &&& out.len() == past_number + vstd::utf8::encode_utf8(line).len()
    &&& several ==> out.take(path.len() as int) == path && out[path.len() as int] == 9
    &&& numbers ==> out.subrange(past_path, past_path + digits.len()) == digits && out[past_path
        + digits.len()] == 9
    &&& out.skip(past_number) == vstd::utf8::encode_utf8(line)
}

/// A file as it is decided.
pub open spec fn as_decided(
    read: Result<DocumentModel, Seq<char>>,
    filters: ActiveModel,
    mode: Mode,
) -> DocumentModel {
    (DocumentModel { mode, ..read->Ok_0 }).evaluated(filters)
}

/// How many lines the first `n` files show.
pub open spec fn shown_of(
    read: Seq<Result<DocumentModel, Seq<char>>>,
    filters: ActiveModel,
    mode: Mode,
    n: int,
) -> int
    decreases n,
{
    if n <= 0 {
        0
    } else {
        shown_of(read, filters, mode, n - 1) + if read[n - 1] is Ok {
            as_decided(read[n - 1], filters, mode).visible.len() as int
        } else {
            0
        }
    }
}

/// How many of the first `n` verdicts are that a line is included.
pub open spec fn included_in(verdicts: Seq<Verdict>, n: int) -> int {
    counting::how_many(|i: int| verdicts[i] is Included, n)
}

/// How many lines of the first `n` files are included.
pub open spec fn included_of(
    read: Seq<Result<DocumentModel, Seq<char>>>,
    filters: ActiveModel,
    mode: Mode,
    n: int,
) -> int
    decreases n,
{
    if n <= 0 {
        0
    } else {
        included_of(read, filters, mode, n - 1) + if read[n - 1] is Ok {
            let verdicts = as_decided(read[n - 1], filters, mode).verdicts;
            included_in(verdicts, verdicts.len() as int)
        } else {
            0
        }
    }
}

/// How many of the first `n` files could not be read.
pub open spec fn unread(read: Seq<Result<DocumentModel, Seq<char>>>, n: int) -> int {
    counting::how_many(|i: int| read[i] is Err, n)
}

proof fn how_one_line_goes_out(
    path: Seq<u8>,
    line: Seq<char>,
    number: nat,
    several: bool,
    numbers: bool,
)
    ensures
        goes_out_as(
            headless::output_line(path, line, number, several, numbers),
            path,
            line,
            number as int,
            several,
            numbers,
        ),
{
    let digits = vstd::utf8::encode_utf8(text::decimal(number));
    let bytes = vstd::utf8::encode_utf8(line);
    let out = headless::output_line(path, line, number, several, numbers);
    let past_path = if several {
        path.len() as int + 1
    } else {
        0
    };
    if several {
        assert(out.take(path.len() as int) =~= path);
        assert(out[path.len() as int] == 9);
    }
    if numbers {
        assert(out.subrange(past_path, past_path + digits.len()) =~= digits);
        assert(out.skip(past_path + digits.len() + 1) =~= bytes);
    } else {
        assert(out.skip(past_path) =~= bytes);
    }
}

proof fn hits_are_included(verdicts: Seq<Verdict>, n: int)
    requires
        0 <= n <= verdicts.len(),
    ensures
        headless::hits(verdicts.take(n)) == included_in(verdicts, n),
    decreases n,
{
    if n > 0 {
        hits_are_included(verdicts, n - 1);
        assert(verdicts.take(n).drop_last() =~= verdicts.take(n - 1));
        assert(verdicts.take(n).last() == verdicts[n - 1]);
    }
}

/// What is gathered of files: every line that a file shows, at whatever row,
/// goes out behind those of the files before it and those of the rows before
/// it, and nothing else does; and every file that could not be read is warned
/// of, by its path and the reason, in the order of the files.
pub open spec fn gathered_in_order(
    whole: Gathered,
    files: Seq<Seq<u8>>,
    read: Seq<Result<DocumentModel, Seq<char>>>,
    filters: ActiveModel,
    mode: Mode,
    several: bool,
    numbers: bool,
) -> bool {
    let n = files.len() as int;
    &&& whole.lines.len() == shown_of(read, filters, mode, n)
    &&& whole.interesting == included_of(read, filters, mode, n)
    &&& whole.failed == unread(read, n)
    &&& whole.read == n - unread(read, n)
    &&& whole.warnings.len() == unread(read, n)
    &&& forall|f: int, row: int|
        0 <= f < n && read[f] is Ok && 0 <= row < as_decided(read[f], filters, mode).visible.len()
            ==> #[trigger] row_goes_out(whole, files, read, filters, mode, several, numbers, f, row)
    &&& forall|f: int| 0 <= f < n && read[f] is Err ==> #[trigger] warned_of(whole, files, read, f)
}

/// A row of a file goes out behind all rows before it and all files before.
pub open spec fn row_goes_out(
    whole: Gathered,
    files: Seq<Seq<u8>>,
    read: Seq<Result<DocumentModel, Seq<char>>>,
    filters: ActiveModel,
    mode: Mode,
    several: bool,
    numbers: bool,
    f: int,
    row: int,
) -> bool {
    let document = as_decided(read[f], filters, mode);
    let at = shown_of(read, filters, mode, f) + row;
    &&& 0 <= at < whole.lines.len()
    &&& goes_out_as(
        whole.lines[at],
        files[f],
        document.lines[document.visible[row] as int],
        document.visible[row] + 1,
        several,
        numbers,
    )
}

/// A file that could not be read is warned of behind those before it.
pub open spec fn warned_of(
    whole: Gathered,
    files: Seq<Seq<u8>>,
    read: Seq<Result<DocumentModel, Seq<char>>>,
    f: int,
) -> bool {
    &&& 0 <= unread(read, f) < whole.warnings.len()
    &&& whole.warnings[unread(read, f)] == "recon: cannot read "@ + document::utf8_text(files[f])
        + ": "@ + read[f]->Err_0 + "\n"@
}

proof fn counts_alike(
    front: Seq<Result<DocumentModel, Seq<char>>>,
    read: Seq<Result<DocumentModel, Seq<char>>>,
    filters: ActiveModel,
    mode: Mode,
    n: int,
)
    requires
        0 <= n <= front.len() <= read.len(),
        forall|i: int| 0 <= i < front.len() ==> front[i] == read[i],
    ensures
        shown_of(front, filters, mode, n) == shown_of(read, filters, mode, n),
        included_of(front, filters, mode, n) == included_of(read, filters, mode, n),
        unread(front, n) == unread(read, n),
        0 <= unread(read, n) <= n,
        0 <= shown_of(read, filters, mode, n),
    decreases n,
{
    counting::agreeing_tests_count_alike(|i: int| front[i] is Err, |i: int| read[i] is Err, n);
    counting::at_most_all(|i: int| read[i] is Err, n);
    if n > 0 {
        counts_alike(front, read, filters, mode, n - 1);
    }
}

/// What is gathered of files, line by line.
pub proof fn what_goes_out_of_files(
    files: Seq<Seq<u8>>,
    read: Seq<Result<DocumentModel, Seq<char>>>,
    filters: ActiveModel,
    mode: Mode,
    several: bool,
    numbers: bool,
)
    requires
        read.len() == files.len(),
    ensures
        gathered_in_order(
            headless::gathered(files, read, filters, mode, several, numbers),
            files,
            read,
            filters,
            mode,
            several,
            numbers,
        ),
    decreases files.len(),
{
    let whole = headless::gathered(files, read, filters, mode, several, numbers);
    let n = files.len() as int;
    if n > 0 {
        let (some, front) = (files.drop_last(), read.drop_last());
        let before = headless::gathered(some, front, filters, mode, several, numbers);
        what_goes_out_of_files(some, front, filters, mode, several, numbers);
        counts_alike(front, read, filters, mode, n - 1);
        let last = as_decided(read[n - 1], filters, mode);
        if read[n - 1] is Ok {
            hits_are_included(last.verdicts, last.verdicts.len() as int);
            assert(last.verdicts.take(last.verdicts.len() as int) =~= last.verdicts);
        }
        assert forall|f: int, row: int|
            0 <= f < n && read[f] is Ok && 0 <= row < as_decided(
                read[f],
                filters,
                mode,
            ).visible.len() implies #[trigger] row_goes_out(
            whole,
            files,
            read,
            filters,
            mode,
            several,
            numbers,
            f,
            row,
        ) by {
            let document = as_decided(read[f], filters, mode);
            let at = shown_of(read, filters, mode, f) + row;
            counts_alike(front, read, filters, mode, f);
            if f < n - 1 {
                assert(some[f] == files[f]);
                assert(front[f] == read[f]);
                assert(row_goes_out(
                    before,
                    some,
                    front,
                    filters,
                    mode,
                    several,
                    numbers,
                    f,
                    row,
                ));
                assert(whole.lines[at] == before.lines[at]);
            } else {
                how_one_line_goes_out(
                    files[f],
                    document.lines[document.visible[row] as int],
                    (document.visible[row] + 1) as nat,
                    several,
                    numbers,
                );
                assert(whole.lines[at] == headless::output_lines(
                    files[f],
                    document,
                    several,
                    numbers,
                )[row]);
            }
        }
        assert forall|f: int| 0 <= f < n && read[f] is Err implies #[trigger] warned_of(
            whole,
            files,
            read,
            f,
        ) by {
            counts_alike(front, read, filters, mode, f);
            if f < n - 1 {
                assert(some[f] == files[f]);
                assert(front[f] == read[f]);
                assert(warned_of(before, some, front, f));
                assert(whole.warnings[unread(read, f)] == before.warnings[unread(read, f)]);
            }
        }
    }
}

/// What the program hands back: where there is more than one file every line
/// carries its path, and where there is one none does. The number of lines that
/// went out, what they are of, and in dim mode how many are included, are summed
/// up.
pub proof fn what_is_handed_back(
    exit: Exit,
    warnings: Seq<Seq<char>>,
    files: Seq<Seq<u8>>,
    read: Seq<Result<DocumentModel, Seq<char>>>,
    filters: ActiveModel,
    mode: Mode,
    numbers: bool,
)
    requires
        read.len() == files.len(),
        headless::collected(exit, warnings, files, read, filters, mode, numbers),
    ensures
        exit matches Exit::Emit { lines, summary, failed } && {
            let n = files.len() as int;
            let emitted = text::decimal(lines@.len());
            let subject = headless::subject(files, (n - unread(read, n)) as nat);
            &&& gathered_in_order(
                Gathered {
                    lines: emit::line_bytes(lines@),
                    warnings,
                    read: (n - unread(read, n)) as nat,
                    failed: failed as nat,
                    interesting: included_of(read, filters, mode, n) as nat,
                },
                files,
                read,
                filters,
                mode,
                n > 1,
                numbers,
            )
            &&& mode == Mode::FilteredOnly ==> summary@ == "recon: emitted "@ + emitted
                + " lines of "@ + subject + ", hide mode"@
            &&& mode == Mode::Dimmed ==> summary@ == "recon: emitted "@ + emitted + " lines of "@
                + subject + ", dim mode ("@ + text::decimal(
                included_of(read, filters, mode, n) as nat,
            ) + " match) — pass --hide to emit matches only"@
        },
{
    let n = files.len() as int;
    let whole = headless::gathered(files, read, filters, mode, n > 1, numbers);
    what_goes_out_of_files(files, read, filters, mode, n > 1, numbers);
    if let Exit::Emit { lines, summary, failed } = exit {
        let back = Gathered {
            lines: emit::line_bytes(lines@),
            warnings,
            read: (n - unread(read, n)) as nat,
            failed: failed as nat,
            interesting: included_of(read, filters, mode, n) as nat,
        };
        assert(back =~= whole);
    }
}

/// What the lines are said to be of: one file by its last part, or all of it
/// where it has none, and any other number by how many were read.
pub proof fn what_lines_are_said_to_be_of(
    files: Seq<Seq<u8>>,
    dir: Seq<u8>,
    name: Seq<u8>,
    read: nat,
)
    requires
        path::plain(name),
        name != seq![46u8, 46u8],
    ensures
        headless::subject(seq![dir + seq![47u8] + name], read) == document::utf8_text(name),
        headless::subject(seq![seq![47u8]], read) == document::utf8_text(seq![47u8]),
        headless::subject(seq![dir + seq![47u8, 46u8, 46u8]], read) == document::utf8_text(
            dir + seq![47u8, 46u8, 46u8],
        ),
        files.len() != 1 && read == 1 ==> headless::subject(files, read) == "1 file"@,
        files.len() != 1 && read != 1 ==> headless::subject(files, read) == text::decimal(read)
            + " files"@,
{
    let whole = dir + seq![47u8] + name;
    path::parts_on_both_sides(dir, name, 0);
    assert(dir.push(path::SEPARATOR) + name =~= whole);
    path::one_part(name);
    assert(path::parts(whole).last() == name);
    let up = seq![46u8, 46u8];
    path::parts_on_both_sides(dir, up, 0);
    assert(dir.push(path::SEPARATOR) + up =~= dir + seq![47u8, 46u8, 46u8]);
    assert(path::plain(up)) by {
        assert(up[0] == 46 && up[1] == 46);
        assert(up != seq![path::DOT]) by {
            assert(up.len() == 2);
        }
    }
    path::one_part(up);
    assert(path::parts(dir + seq![47u8, 46u8, 46u8]).last() == up);
    let empty: Seq<u8> = Seq::empty();
    path::parts_on_both_sides(empty, empty, 0);
    assert(empty.push(path::SEPARATOR) + empty =~= seq![47u8]);
    assert(path::parts(empty) =~= Seq::empty());
    assert(path::parts(seq![47u8]) =~= Seq::empty());
    reveal_strlit("1 ");
    reveal_strlit("file");
    reveal_strlit("1 file");
    reveal_strlit(" ");
    reveal_strlit("s");
    reveal_strlit(" files");
    assert("1 "@ + "file"@ =~= "1 file"@);
    assert(text::decimal(read) + " "@ + "file"@ + "s"@ =~= text::decimal(read) + " files"@);
}

/// Of one thing there is no plural, and of every other number there is.
pub proof fn how_things_are_counted(n: nat, noun: Seq<char>)
    ensures
        n == 1 ==> headless::counted(n, noun) == seq!['1', ' '] + noun,
        n != 1 ==> headless::counted(n, noun) == text::decimal(n) + seq![' '] + noun + seq!['s'],
{
    reveal_strlit("1 ");
    reveal_strlit(" ");
    reveal_strlit("s");
    assert("1 "@ =~= seq!['1', ' ']);
    assert(" "@ =~= seq![' ']);
    assert("s"@ =~= seq!['s']);
}

/// Why a file was not read, in words.
pub proof fn what_is_said_of_an_unread_file(error: ReadError)
    ensures
        error is NotFound ==> headless::reason_text(error) == "no such file"@,
        error is PermissionDenied ==> headless::reason_text(error) == "permission denied"@,
        error is IsADirectory ==> headless::reason_text(error) == "is a directory"@,
        error is Binary ==> headless::reason_text(error) == "binary file"@,
        error is NotAFile ==> headless::reason_text(error) == "not a regular file"@,
        error matches ReadError::Os(message) ==> headless::reason_text(error) == message@,
{
}

// ---------------------------------------------------------------------------
// The directory

/// The directory of the inputs: the one that they were listed from, or the one
/// that the first of them is in, or the root where there is none.
pub proof fn which_directory_is_handed_back(
    inputs: Inputs,
    named: Seq<u8>,
    dir: Seq<u8>,
    name: Seq<u8>,
)
    requires
        path::plain(name),
        dir.len() > 0,
    ensures
        inputs.from matches Source::Directory(named) ==> headless::directory_of(inputs) == named@,
        inputs.from !is Directory && inputs.files@.len() == 0 ==> headless::directory_of(inputs)
            == seq![47u8],
        inputs.from !is Directory && inputs.files@.len() > 0 && inputs.files@[0]@ == dir
            + seq![47u8] + name ==> headless::directory_of(inputs) == (if dir[0] == 47 {
            seq![47u8]
        } else {
            Seq::empty()
        }) + path::joined(path::parts(dir)),
        inputs.from !is Directory && inputs.files@.len() > 0 && inputs.files@[0]@ == seq![47u8]
            + name ==> headless::directory_of(inputs) == seq![47u8],
        inputs.from !is Directory && inputs.files@.len() > 0 && inputs.files@[0]@ == seq![47u8]
            ==> headless::directory_of(inputs) == seq![47u8],
{
    let empty: Seq<u8> = Seq::empty();
    path::one_part(name);
    path::parts_on_both_sides(dir, name, 0);
    assert(dir.push(path::SEPARATOR) + name =~= dir + seq![47u8] + name);
    assert(path::parts(dir + seq![47u8] + name).drop_last() =~= path::parts(dir));
    assert((dir + seq![47u8] + name)[0] == dir[0]);
    assert(empty + path::joined(path::parts(dir)) =~= path::joined(path::parts(dir)));
    path::parts_on_both_sides(empty, name, 0);
    assert(empty.push(path::SEPARATOR) + name =~= seq![47u8] + name);
    assert(path::parts(empty) =~= Seq::empty());
    assert(path::parts(seq![47u8] + name).drop_last() =~= Seq::empty());
    assert((seq![47u8] + name)[0] == 47);
    assert(seq![47u8] + path::joined(Seq::empty()) =~= seq![47u8]);
    path::parts_on_both_sides(empty, empty, 0);
    assert(empty.push(path::SEPARATOR) + empty =~= seq![47u8]);
    assert(path::parts(seq![47u8]) =~= Seq::empty());
}

} // verus!
