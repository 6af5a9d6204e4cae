//! Running without a screen: files come from a list or a path, and lines go
//! out.

use vstd::prelude::*;

use crate::document;
use crate::document::{Document, DocumentModel, Mode, ReadError, BINARY_FILE, IS_A_DIRECTORY, NOT_A_FILE};
use crate::emit;
use crate::emit::Exit;
use crate::filter::model::ActiveModel;
use crate::filter::{ActiveFilters, Verdict};
use crate::path;
use crate::syntax::KindSet;
use crate::text;

verus! {

/// The files that are read, and where the list came from.
#[derive(Debug, Clone, PartialEq, Eq)]
pub struct Inputs {
    /// Absolute paths, in the order they came.
    pub files: Vec<Vec<u8>>,
    pub from: Source,
}

/// Where a list of files came from.
#[derive(Debug, Clone, PartialEq, Eq)]
pub enum Source {
    /// The standard input, one path to a line.
    Stdin,
    /// A directory: its files.
    Directory(Vec<u8>),
    /// A file, or what is not there: that path alone.
    File,
}

/// A name in a directory, and what it leads to.
#[derive(Debug, Clone, PartialEq, Eq)]
pub struct Entry {
    pub name: Vec<u8>,
    /// Whether it is a directory, the one above among them.
    pub directory: bool,
}

// ---------------------------------------------------------------------------
// The input list

/// Bytes without a line feed at the end.
pub open spec fn without_feed(line: Seq<u8>) -> Seq<u8> {
    if line.len() > 0 && line.last() == 10 {
        line.drop_last()
    } else {
        line
    }
}

/// Bytes without a carriage return at the end.
pub open spec fn without_return(line: Seq<u8>) -> Seq<u8> {
    if line.len() > 0 && line.last() == 13 {
        line.drop_last()
    } else {
        line
    }
}

/// A line without its end: a line feed, and a carriage return before it.
pub open spec fn stripped(line: Seq<u8>) -> Seq<u8> {
    without_return(without_feed(line))
}

/// The bytes of ASCII that are white space.
pub open spec fn white(byte: u8) -> bool {
    byte == 32 || byte == 9 || byte == 10 || byte == 12 || byte == 13
}

/// A line of nothing but white space.
pub open spec fn blank_line(line: Seq<u8>) -> bool {
    forall|i: int| 0 <= i < line.len() ==> white(#[trigger] line[i])
}

/// The paths on the lines from `i` on, seen from `cwd`. A blank line is none.
pub open spec fn listed_files(list: Seq<u8>, i: int, cwd: Seq<u8>) -> Seq<Seq<u8>>
    decreases list.len() - i + 1,
{
    proof {
        document::line_feed_is_ahead(list, i);
    }
    let end = document::line_feed_from(list, i);
    let next = if end < list.len() {
        end + 1
    } else {
        list.len() as int
    };
    if i >= list.len() {
        Seq::empty()
    } else {
        let line = stripped(list.subrange(i, next));
        if blank_line(line) {
            listed_files(list, next, cwd)
        } else {
            seq![path::lexically_absolute(line, cwd)] + listed_files(list, next, cwd)
        }
    }
}

/// The files among the entries of a directory, as paths.
pub open spec fn files_of(dir: Seq<u8>, entries: Seq<Entry>) -> Seq<Seq<u8>>
    decreases entries.len(),
{
    if entries.len() == 0 {
        Seq::empty()
    } else {
        let before = files_of(dir, entries.drop_last());
        if entries.last().directory {
            before
        } else {
            before.push(path::rendered(true, path::parts(dir).push(entries.last().name@)))
        }
    }
}

/// A line without its end. Nothing else is taken off: a name may end in a
/// blank.
pub fn strip_line_end(line: &[u8]) -> (name: Vec<u8>)
    ensures
        name@ == stripped(line@),
{
    let mut end: usize = line.len();
    if end > 0 && line[end - 1] == 10 {
        end -= 1;
    }
    assert(line@.take(end as int) =~= without_feed(line@));
    let ghost unfed = line@.take(end as int);
    if end > 0 && line[end - 1] == 13 {
        assert(unfed.last() == 13);
        end -= 1;
    }
    assert(line@.take(end as int) =~= without_return(unfed));
    let mut name: Vec<u8> = Vec::new();
    let mut i: usize = 0;
    while i < end
        invariant
            i <= end <= line@.len(),
            name@ =~= line@.take(i as int),
        decreases end - i,
    {
        name.push(line[i]);
        i += 1;
    }
    name
}

/// Whether a line holds nothing but white space.
fn is_blank_line(line: &Vec<u8>) -> (yes: bool)
    ensures
        yes == blank_line(line@),
{
    let mut i: usize = 0;
    while i < line.len()
        invariant
            i <= line@.len(),
            forall|j: int| 0 <= j < i ==> white(#[trigger] line@[j]),
        decreases line@.len() - i,
    {
        let byte = line[i];
        if !(byte == 32 || byte == 9 || byte == 10 || byte == 12 || byte == 13) {
            assert(!white(line@[i as int]));
            return false;
        }
        i += 1;
    }
    true
}

/// The paths of a list, one to a line, seen from `cwd`.
pub fn files_from(list: &[u8], cwd: &[u8]) -> (files: Vec<Vec<u8>>)
    ensures
        path::byte_parts(files@) == listed_files(list@, 0, cwd@),
{
    let len: usize = list.len();
    let mut files: Vec<Vec<u8>> = Vec::new();
    let mut i: usize = 0;
    assert(path::byte_parts(files@) + listed_files(list@, 0, cwd@) =~= listed_files(
        list@,
        0,
        cwd@,
    ));
    while i < len
        invariant
            len == list@.len(),
            i <= len,
            path::byte_parts(files@) + listed_files(list@, i as int, cwd@) == listed_files(
                list@,
                0,
                cwd@,
            ),
        decreases len - i,
    {
        let mut end: usize = i;
        while end < len && list[end] != 10
            invariant
                len == list@.len(),
                i <= end <= len,
                document::line_feed_from(list@, i as int) == document::line_feed_from(
                    list@,
                    end as int,
                ),
            decreases len - end,
        {
            end += 1;
        }
        let next: usize = if end < len {
            end + 1
        } else {
            len
        };
        let line = strip_line_end(vstd::slice::slice_subrange(list, i, next));
        let ghost before = path::byte_parts(files@);
        let ghost rest = listed_files(list@, next as int, cwd@);
        if !is_blank_line(&line) {
            let file = path::lexical_absolute(line.as_slice(), cwd);
            let ghost found = file@;
            files.push(file);
            proof {
                assert(path::byte_parts(files@) =~= before.push(found));
                assert(before + (seq![found] + rest) =~= before.push(found) + rest);
            }
        }
        i = next;
    }
    assert(path::byte_parts(files@) + Seq::<Seq<u8>>::empty() =~= path::byte_parts(files@));
    files
}

/// The files among the entries of a directory, in the order of the entries.
pub fn files_in(dir: &Vec<u8>, entries: &Vec<Entry>) -> (files: Vec<Vec<u8>>)
    ensures
        path::byte_parts(files@) == files_of(dir@, entries@),
{
    let parts = path::parts_of(dir.as_slice());
    let mut files: Vec<Vec<u8>> = Vec::new();
    let mut i: usize = 0;
    assert(path::byte_parts(files@) =~= files_of(dir@, entries@.take(0)));
    while i < entries.len()
        invariant
            path::byte_parts(parts@) == path::parts(dir@),
            i <= entries@.len(),
            path::byte_parts(files@) == files_of(dir@, entries@.take(i as int)),
        decreases entries@.len() - i,
    {
        proof {
            assert(entries@.take(i + 1).drop_last() =~= entries@.take(i as int));
            assert(entries@.take(i + 1).last() == entries@[i as int]);
        }
        if !entries[i].directory {
            let ghost before = path::byte_parts(files@);
            let file = path::child(true, &parts, parts.len(), entries[i].name.as_slice());
            assert(path::byte_parts(parts@).take(parts@.len() as int) =~= path::parts(dir@));
            let ghost found = file@;
            files.push(file);
            assert(path::byte_parts(files@) =~= before.push(found));
        }
        i += 1;
    }
    assert(entries@.take(i as int) =~= entries@);
    files
}

/// What a path stands for, once it is known what it leads to: `entries` are
/// those of a directory.
pub fn path_inputs(path: Vec<u8>, entries: Option<Vec<Entry>>) -> (inputs: Inputs)
    ensures
        match entries {
            Some(entries) => {
                &&& path::byte_parts(inputs.files@) == files_of(path@, entries@)
                &&& inputs.from matches Source::Directory(dir)
                &&& dir@ == path@
            },
            None => {
                &&& path::byte_parts(inputs.files@) == seq![path@]
                &&& inputs.from is File
            },
        },
{
    match entries {
        Some(entries) => {
            let files = files_in(&path, &entries);
            Inputs { files, from: Source::Directory(path) }
        },
        None => {
            let ghost alone = path@;
            let mut files: Vec<Vec<u8>> = Vec::new();
            files.push(path);
            assert(path::byte_parts(files@) =~= seq![alone]);
            Inputs { files, from: Source::File }
        },
    }
}

/// The input list: every line of `stdin` that is not blank as a path, or, where
/// there is none, what `path` stands for. `list` says what is in a directory in
/// the order it is shown in, that a path is none, or why it cannot be told.
pub fn inputs<L: FnOnce(&Vec<u8>) -> Result<Option<Vec<Entry>>, String>>(
    stdin: &[u8],
    path: &[u8],
    cwd: &[u8],
    list: L,
) -> (found: Result<Inputs, String>)
    requires
        listed_files(stdin@, 0, cwd@).len() == 0 ==> forall|asked: Vec<u8>|
            asked@ == path::lexically_absolute(path@, cwd@) ==> #[trigger] call_requires(
                list,
                (&asked,),
            ),
    ensures
        ({
            let listed = listed_files(stdin@, 0, cwd@);
            if listed.len() > 0 {
                &&& found matches Ok(inputs)
                &&& path::byte_parts(inputs.files@) == listed
                &&& inputs.from is Stdin
            } else {
                exists|asked: Vec<u8>, outcome: Result<Option<Vec<Entry>>, String>|
                    {
                        &&& asked@ == path::lexically_absolute(path@, cwd@)
                        &&& #[trigger] call_ensures(list, (&asked,), outcome)
                        &&& match (outcome, found) {
                            (Ok(Some(entries)), Ok(inputs)) => {
                                &&& path::byte_parts(inputs.files@) == files_of(asked@, entries@)
                                &&& inputs.from matches Source::Directory(dir)
                                &&& dir@ == asked@
                            },
                            (Ok(None), Ok(inputs)) => {
                                &&& path::byte_parts(inputs.files@) == seq![asked@]
                                &&& inputs.from is File
                            },
                            (Err(why), Err(message)) => message == why,
                            _ => false,
                        }
                    }
            }
        }),
{
    let files = files_from(stdin, cwd);
    assert(path::byte_parts(files@).len() == files@.len());
    if files.len() > 0 {
        return Ok(Inputs { files, from: Source::Stdin });
    }
    let absolute = path::lexical_absolute(path, cwd);
    let outcome = list(&absolute);
    let ghost asked = absolute;
    assert(call_ensures(list, (&asked,), outcome));
    match outcome {
        Ok(entries) => Ok(path_inputs(absolute, entries)),
        Err(why) => Err(why),
    }
}

// ---------------------------------------------------------------------------
// Lines

/// A line that is a hit: an including filter selected it.
pub open spec fn interesting(verdict: Verdict) -> bool {
    verdict is Included
}

/// How many of the verdicts are hits.
pub open spec fn hits(verdicts: Seq<Verdict>) -> nat
    decreases verdicts.len(),
{
    if verdicts.len() == 0 {
        0
    } else {
        hits(verdicts.drop_last()) + if interesting(verdicts.last()) {
            1nat
        } else {
            0nat
        }
    }
}

/// A line as it goes out: the path in front where there are several files, and
/// the line's number where numbers are asked for, a tab behind each.
pub open spec fn output_line(
    path: Seq<u8>,
    line: Seq<char>,
    number: nat,
    several: bool,
    numbers: bool,
) -> Seq<u8> {
    (if several {
        path.push(9)
    } else {
        Seq::empty()
    }) + (if numbers {
        vstd::utf8::encode_utf8(text::decimal(number)).push(9)
    } else {
        Seq::empty()
    }) + vstd::utf8::encode_utf8(line)
}

/// The lines of a document that go out.
pub open spec fn output_lines(
    path: Seq<u8>,
    document: DocumentModel,
    several: bool,
    numbers: bool,
) -> Seq<Seq<u8>> {
    Seq::new(
        document.visible.len(),
        |i: int|
            output_line(
                path,
                document.lines[document.visible[i] as int],
                (document.visible[i] + 1) as nat,
                several,
                numbers,
            ),
    )
}

/// A document that was read, as the filters decide it in a mode.
pub open spec fn decided(
    document: DocumentModel,
    filters: ActiveModel,
    mode: Mode,
) -> DocumentModel {
    (DocumentModel { mode, ..document }).evaluated(filters)
}

/// What has been gathered of some files.
#[verifier::ext_equal]
pub struct Gathered {
    pub lines: Seq<Seq<u8>>,
    pub warnings: Seq<Seq<char>>,
    pub read: nat,
    pub failed: nat,
    pub interesting: nat,
}

/// Nothing gathered yet.
pub open spec fn nothing_gathered() -> Gathered {
    Gathered { lines: Seq::empty(), warnings: Seq::empty(), read: 0, failed: 0, interesting: 0 }
}

/// What came of reading a file, as a value.
pub open spec fn read_model(outcome: Result<Document, ReadError>) -> Result<
    DocumentModel,
    Seq<char>,
> {
    match outcome {
        Ok(document) => Ok(document@),
        Err(error) => Err(reason_text(error)),
    }
}

/// What is gathered of the first files, by what came of reading them.
pub open spec fn gathered(
    files: Seq<Seq<u8>>,
    read: Seq<Result<DocumentModel, Seq<char>>>,
    filters: ActiveModel,
    mode: Mode,
    several: bool,
    numbers: bool,
) -> Gathered
    decreases files.len(),
{
    if files.len() == 0 {
        nothing_gathered()
    } else {
        let before = gathered(
            files.drop_last(),
            read.drop_last(),
            filters,
            mode,
            several,
            numbers,
        );
        match read.last() {
            Ok(document) => {
                let after = decided(document, filters, mode);
                Gathered {
                    lines: before.lines + output_lines(files.last(), after, several, numbers),
                    read: before.read + 1,
                    interesting: before.interesting + hits(after.verdicts),
                    ..before
                }
            },
            Err(reason) => Gathered {
                warnings: before.warnings.push(warning(files.last(), reason)),
                failed: before.failed + 1,
                ..before
            },
        }
    }
}

/// What is said of a file that cannot be read.
pub open spec fn warning(path: Seq<u8>, reason: Seq<char>) -> Seq<char> {
    "recon: cannot read "@ + document::utf8_text(path) + ": "@ + reason + "\n"@
}

/// Why a file was not read, in the words a person reads.
pub open spec fn reason_text(error: ReadError) -> Seq<char> {
    match error {
        ReadError::NotFound => "no such file"@,
        ReadError::PermissionDenied => "permission denied"@,
        ReadError::IsADirectory => IS_A_DIRECTORY@,
        ReadError::Binary => BINARY_FILE@,
        ReadError::NotAFile => NOT_A_FILE@,
        ReadError::Os(message) => message@,
    }
}

/// A number and its noun: `1 file`, `3 files`.
pub open spec fn counted(n: nat, noun: Seq<char>) -> Seq<char> {
    if n == 1 {
        "1 "@ + noun
    } else {
        text::decimal(n) + " "@ + noun + "s"@
    }
}

/// What the lines are of: the name of the one file, or how many were read.
pub open spec fn subject(files: Seq<Seq<u8>>, read: nat) -> Seq<char> {
    if files.len() == 1 {
        let parts = path::parts(files[0]);
        if parts.len() > 0 && !path::is_up(parts.last()) {
            document::utf8_text(parts.last())
        } else {
            document::utf8_text(files[0])
        }
    } else {
        counted(read, "file"@)
    }
}

/// The line that sums up what went out.
pub open spec fn summary_text(
    emitted: nat,
    subject: Seq<char>,
    mode: Mode,
    interesting: nat,
) -> Seq<char> {
    match mode {
        Mode::Dimmed => "recon: emitted "@ + text::decimal(emitted) + " lines of "@ + subject
            + ", dim mode ("@ + text::decimal(interesting)
            + " match) — pass --hide to emit matches only"@,
        Mode::FilteredOnly => "recon: emitted "@ + text::decimal(emitted) + " lines of "@ + subject
            + ", hide mode"@,
    }
}

/// Why a file was not read, in the words a person reads.
pub fn reason(error: &ReadError) -> (words: String)
    ensures
        words@ == reason_text(*error),
{
    match error {
        ReadError::NotFound => "no such file".to_owned(),
        ReadError::PermissionDenied => "permission denied".to_owned(),
        ReadError::IsADirectory => IS_A_DIRECTORY.to_owned(),
        ReadError::Binary => BINARY_FILE.to_owned(),
        ReadError::NotAFile => NOT_A_FILE.to_owned(),
        ReadError::Os(message) => message.clone(),
    }
}

/// What is said of a file that cannot be read.
pub fn warn(path: &Vec<u8>, error: &ReadError) -> (line: String)
    ensures
        line@ == warning(path@, reason_text(*error)),
{
    let mut line = "recon: cannot read ".to_owned();
    line.append(document::utf8_lossy(path).as_str());
    line.append(": ");
    line.append(reason(error).as_str());
    line.append("\n");
    line
}

/// A number and its noun.
pub fn count(n: usize, noun: &str) -> (words: String)
    ensures
        words@ == counted(n as nat, noun@),
{
    if n == 1 {
        let mut words = "1 ".to_owned();
        words.append(noun);
        words
    } else {
        let mut words = text::decimal_of(n);
        words.append(" ");
        words.append(noun);
        words.append("s");
        words
    }
}

/// Appends a copy of `more`.
fn extend(bytes: &mut Vec<u8>, more: &[u8])
    ensures
        final(bytes)@ == old(bytes)@ + more@,
{
    let ghost before = bytes@;
    let mut i: usize = 0;
    assert(bytes@ =~= before + more@.take(0));
    while i < more.len()
        invariant
            i <= more@.len(),
            bytes@ == before + more@.take(i as int),
        decreases more@.len() - i,
    {
        bytes.push(more[i]);
        assert(more@.take(i + 1) =~= more@.take(i as int).push(more@[i as int]));
        assert(bytes@ =~= before + more@.take(i + 1));
        i += 1;
    }
    assert(more@.take(i as int) =~= more@);
}

/// A line as it goes out.
fn make_line(path: &Vec<u8>, line: &str, row: usize, several: bool, numbers: bool) -> (out: Vec<u8>)
    requires
        row < usize::MAX,
    ensures
        out@ == output_line(path@, line@, (row + 1) as nat, several, numbers),
{
    let mut out: Vec<u8> = Vec::new();
    if several {
        extend(&mut out, path.as_slice());
        out.push(9);
    }
    assert(out@ =~= if several {
        path@.push(9)
    } else {
        Seq::empty()
    });
    let ghost front = out@;
    if numbers {
        let number = text::decimal_of(row + 1);
        extend(&mut out, number.as_str().as_bytes());
        out.push(9);
    }
    assert(out@ =~= front + if numbers {
        vstd::utf8::encode_utf8(text::decimal((row + 1) as nat)).push(9)
    } else {
        Seq::empty()
    });
    extend(&mut out, line.as_bytes());
    out
}

/// How many of the verdicts are hits.
fn count_hits(verdicts: &Vec<Verdict>) -> (count: usize)
    ensures
        count == hits(verdicts@),
        count <= verdicts@.len(),
{
    let mut count: usize = 0;
    let mut i: usize = 0;
    while i < verdicts.len()
        invariant
            i <= verdicts@.len(),
            count <= i,
            count == hits(verdicts@.take(i as int)),
        decreases verdicts@.len() - i,
    {
        proof {
            assert(verdicts@.take(i + 1).drop_last() =~= verdicts@.take(i as int));
            assert(verdicts@.take(i + 1).last() == verdicts@[i as int]);
        }
        match verdicts[i] {
            Verdict::Included(_) => {
                count += 1;
            },
            _ => {},
        }
        i += 1;
    }
    assert(verdicts@.take(i as int) =~= verdicts@);
    count
}

/// The lines of a document that go out.
fn push_lines(
    lines: &mut Vec<Vec<u8>>,
    path: &Vec<u8>,
    document: &Document,
    several: bool,
    numbers: bool,
)
    requires
        document.wf(),
    ensures
        emit::line_bytes(final(lines)@) == emit::line_bytes(old(lines)@) + output_lines(
            path@,
            document@,
            several,
            numbers,
        ),
{
    let ghost before = emit::line_bytes(lines@);
    let ghost all = output_lines(path@, document@, several, numbers);
    let visible = document.visible();
    let texts = document.lines();
    let count: usize = texts.len();
    let mut i: usize = 0;
    assert(emit::line_bytes(lines@) =~= before + all.take(0));
    while i < visible.len()
        invariant
            document.wf(),
            visible@ == document@.visible,
            text::texts(texts@) == document@.lines,
            count == texts@.len(),
            all == output_lines(path@, document@, several, numbers),
            i <= visible@.len(),
            emit::line_bytes(lines@) == before + all.take(i as int),
        decreases visible@.len() - i,
    {
        let row = visible[i];
        assert(document@.visible[i as int] < document@.lines.len());
        assert(document@.lines[row as int] == texts@[row as int]@);
        let line = make_line(path, texts[row].as_str(), row, several, numbers);
        let ghost found = line@;
        assert(all[i as int] == found);
        let ghost current = emit::line_bytes(lines@);
        lines.push(line);
        assert(emit::line_bytes(lines@) =~= current.push(found));
        assert(emit::line_bytes(lines@) =~= before + all.take(i + 1));
        i += 1;
    }
    assert(all.take(i as int) =~= all);
}

/// What the lines are of.
fn name_subject(files: &Vec<Vec<u8>>, read: usize) -> (words: String)
    ensures
        words@ == subject(path::byte_parts(files@), read as nat),
{
    if files.len() == 1 {
        let parts = path::parts_of(files[0].as_slice());
        let ghost models = path::byte_parts(parts@);
        if parts.len() > 0 {
            let last: usize = parts.len() - 1;
            assert(models.last() == parts@[last as int]@);
            if !path::goes_up(&parts[last]) {
                return document::utf8_lossy(&parts[last]);
            }
        }
        document::utf8_lossy(&files[0])
    } else {
        count(read, "file")
    }
}

/// The line that sums up what went out.
pub fn summary(emitted: usize, subject: &str, mode: Mode, interesting: usize) -> (words: String)
    ensures
        words@ == summary_text(emitted as nat, subject@, mode, interesting as nat),
{
    let mut words = "recon: emitted ".to_owned();
    words.append(text::decimal_of(emitted).as_str());
    words.append(" lines of ");
    words.append(subject);
    match mode {
        Mode::Dimmed => {
            words.append(", dim mode (");
            words.append(text::decimal_of(interesting).as_str());
            words.append(" match) — pass --hide to emit matches only");
        },
        Mode::FilteredOnly => {
            words.append(", hide mode");
        },
    }
    words
}

/// What goes out of all files, and the warnings for those that could not be
/// read, in the order of the files, by what came of reading each of them.
pub open spec fn collected(
    exit: Exit,
    warnings: Seq<Seq<char>>,
    files: Seq<Seq<u8>>,
    read: Seq<Result<DocumentModel, Seq<char>>>,
    filters: ActiveModel,
    mode: Mode,
    numbers: bool,
) -> bool {
    let whole = gathered(files, read, filters, mode, files.len() > 1, numbers);
    &&& exit matches Exit::Emit { lines, summary, failed }
    &&& emit::line_bytes(lines@) == whole.lines
    &&& summary@ == summary_text(
        whole.lines.len(),
        subject(files, whole.read),
        mode,
        whole.interesting,
    )
    &&& failed == whole.failed
    &&& warnings == whole.warnings
}

/// Each file was read in turn, with these outcomes.
pub open spec fn read_in_turn<R: Fn(&Vec<u8>) -> Result<Document, ReadError>>(
    read: R,
    files: Seq<Vec<u8>>,
    outcomes: Seq<Result<Document, ReadError>>,
) -> bool {
    outcomes.len() == files.len() && forall|i: int|
        0 <= i < files.len() ==> call_ensures(read, (&files[i],), #[trigger] outcomes[i])
}

/// The definitions that the lines of each file start were found, where a filter
/// asks for them.
pub open spec fn found_in_turn<G: Fn(&String, &Vec<String>) -> Option<Vec<KindSet>>>(
    grammar: G,
    outcomes: Seq<Result<Document, ReadError>>,
    filters: ActiveModel,
    kinds: Seq<Option<Seq<KindSet>>>,
) -> bool {
    kinds.len() == outcomes.len() && forall|i: int|
        0 <= i < outcomes.len() ==> found_of(grammar, outcomes[i], filters, #[trigger] kinds[i])
}

/// The definitions that the lines of a file start were found, where it was read
/// and a filter asks for them.
pub open spec fn found_of<G: Fn(&String, &Vec<String>) -> Option<Vec<KindSet>>>(
    grammar: G,
    outcome: Result<Document, ReadError>,
    filters: ActiveModel,
    kinds: Option<Seq<KindSet>>,
) -> bool {
    match outcome {
        Ok(document) => document::kinds_found(grammar, document@, filters, kinds),
        Err(_) => true,
    }
}

/// What came of reading a file, as a value with the definitions found in it.
pub open spec fn read_with(
    outcome: Result<Document, ReadError>,
    kinds: Option<Seq<KindSet>>,
) -> Result<DocumentModel, Seq<char>> {
    match read_model(outcome) {
        Ok(document) => Ok(DocumentModel { kinds, ..document }),
        Err(reason) => Err(reason),
    }
}

/// What came of reading files, as values with the definitions found in them.
pub open spec fn read_models(
    outcomes: Seq<Result<Document, ReadError>>,
    kinds: Seq<Option<Seq<KindSet>>>,
) -> Seq<Result<DocumentModel, Seq<char>>> {
    Seq::new(outcomes.len(), |i: int| read_with(outcomes[i], kinds[i]))
}

/// Every hit is shown, in whatever mode.
pub proof fn hits_are_shown(verdicts: Seq<Verdict>, mode: Mode, including: bool)
    ensures
        hits(verdicts) <= document::shown_lines(verdicts, mode, including).len(),
    decreases verdicts.len(),
{
    if verdicts.len() > 0 {
        hits_are_shown(verdicts.drop_last(), mode, including);
    }
}

/// The lines shown of every input, in the order of the inputs, and the warnings
/// for those that could not be read. `read` reads a file, and `grammar` says
/// which definitions the lines of one start.
pub fn collect_lines<
    R: Fn(&Vec<u8>) -> Result<Document, ReadError>,
    G: Fn(&String, &Vec<String>) -> Option<Vec<KindSet>>,
>(
    inputs: &Inputs,
    filters: &ActiveFilters,
    mode: Mode,
    line_numbers: bool,
    read: R,
    grammar: G,
) -> (result: (Exit, Vec<String>))
    requires
        filters.wf(),
        forall|i: int|
            0 <= i < inputs.files@.len() ==> call_requires(read, (&#[trigger] inputs.files@[i],)),
        document::asks_kinds(filters@) ==> forall|path: String, lines: Vec<String>| #[trigger]
            call_requires(grammar, (&path, &lines)),
        forall|asked: Vec<u8>, outcome: Result<Document, ReadError>| #[trigger]
            call_ensures(read, (&asked,), outcome) ==> (outcome matches Ok(document)
                ==> document.wf()),
    ensures
        exists|outcomes: Seq<Result<Document, ReadError>>, kinds: Seq<Option<Seq<KindSet>>>|
            {
                &&& read_in_turn(read, inputs.files@, outcomes)
                &&& #[trigger] found_in_turn(grammar, outcomes, filters@, kinds)
                &&& collected(
                    result.0,
                    text::texts(result.1@),
                    path::byte_parts(inputs.files@),
                    read_models(outcomes, kinds),
                    filters@,
                    mode,
                    line_numbers,
                )
            },
{
    let ghost mut kinds: Seq<Option<Seq<KindSet>>> = Seq::empty();
    let ghost files = path::byte_parts(inputs.files@);
    let ghost mut outcomes: Seq<Result<Document, ReadError>> = Seq::empty();
    let several = inputs.files.len() > 1;
    let mut lines: Vec<Vec<u8>> = Vec::new();
    let mut warnings: Vec<String> = Vec::new();
    let mut read_count: usize = 0;
    let mut failed: usize = 0;
    let mut hit_count: usize = 0;
    let mut i: usize = 0;
    assert(emit::line_bytes(lines@) =~= Seq::empty());
    assert(text::texts(warnings@) =~= Seq::empty());
    assert(files.take(0) =~= Seq::empty());
    assert(inputs.files@.take(0) =~= Seq::empty());
    while i < inputs.files.len()
        invariant
            filters.wf(),
            forall|k: int|
                0 <= k < inputs.files@.len() ==> call_requires(
                    read,
                    (&#[trigger] inputs.files@[k],),
                ),
            document::asks_kinds(filters@) ==> forall|path: String, lines: Vec<String>| #[trigger]
                call_requires(grammar, (&path, &lines)),
            found_in_turn(grammar, outcomes, filters@, kinds),
            forall|asked: Vec<u8>, outcome: Result<Document, ReadError>| #[trigger]
                call_ensures(read, (&asked,), outcome) ==> (outcome matches Ok(document)
                    ==> document.wf()),
            files == path::byte_parts(inputs.files@),
            i <= inputs.files@.len(),
            several == (files.len() > 1),
            read_in_turn(read, inputs.files@.take(i as int), outcomes),
            read_count <= i,
            failed <= i,
            hit_count <= lines@.len(),
            (Gathered {
                lines: emit::line_bytes(lines@),
                warnings: text::texts(warnings@),
                read: read_count as nat,
                failed: failed as nat,
                interesting: hit_count as nat,
            }) == gathered(
                files.take(i as int),
                read_models(outcomes, kinds),
                filters@,
                mode,
                several,
                line_numbers,
            ),
        decreases inputs.files@.len() - i,
    {
        let path = &inputs.files[i];
        let outcome = read(path);
        let ghost before = outcomes;
        let ghost known = kinds;
        proof {
            outcomes = outcomes.push(outcome);
            assert(files.take(i + 1).drop_last() =~= files.take(i as int));
            assert(files.take(i + 1).last() == path@);
            assert forall|k: int| 0 <= k < i + 1 implies call_ensures(
                read,
                (&inputs.files@.take(i + 1)[k],),
                #[trigger] outcomes[k],
            ) by {
                if k < i {
                    assert(outcomes[k] == before[k]);
                    assert(inputs.files@.take(i as int)[k] == inputs.files@.take(i + 1)[k]);
                }
            }
        }
        match outcome {
            Ok(found) => {
                let mut document = found;
                document.set_mode(mode);
                let ghost unread = document@;
                document.evaluate_with(filters, &grammar);
                proof {
                    let found = choose|found: Option<Seq<KindSet>>| #[trigger]
                        document::kinds_found(&grammar, unread, filters@, found) && document@ == (
                        DocumentModel { kinds: found, ..unread }).evaluated(filters@);
                    kinds = known.push(found);
                    assert(found_of(grammar, outcome, filters@, found));
                    hits_are_shown(document@.verdicts, document@.mode, document@.including);
                }
                let ghost lines_before = emit::line_bytes(lines@);
                push_lines(&mut lines, path, &document, several, line_numbers);
                assert(emit::line_bytes(lines@).len() == lines@.len());
                assert(lines@.len() == lines_before.len() + document@.visible.len());
                let total: usize = lines.len();
                let more = count_hits(document.verdicts());
                read_count += 1;
                hit_count += more;
            },
            Err(error) => {
                let warning = warn(path, &error);
                proof {
                    text::texts_push(warnings@, warning);
                }
                warnings.push(warning);
                failed += 1;
                proof {
                    kinds = known.push(None);
                }
            },
        }
        proof {
            let models = read_models(outcomes, kinds);
            assert(models.drop_last() =~= read_models(before, known));
            assert forall|k: int| 0 <= k < outcomes.len() implies found_of(
                grammar,
                outcomes[k],
                filters@,
                #[trigger] kinds[k],
            ) by {
                if k < i {
                    assert(found_of(grammar, before[k], filters@, known[k]));
                }
            }
        }
        i += 1;
    }
    assert(files.take(i as int) =~= files);
    assert(inputs.files@.take(i as int) =~= inputs.files@);
    let subject = name_subject(&inputs.files, read_count);
    let words = summary(lines.len(), subject.as_str(), mode, hit_count);
    assert(emit::line_bytes(lines@).len() == lines@.len());
    (Exit::Emit { lines, summary: words, failed }, warnings)
}

// ---------------------------------------------------------------------------
// The directory

/// The directory that a path is in, where it is in one.
pub open spec fn parent(path: Seq<u8>) -> Option<Seq<u8>> {
    let parts = path::parts(path);
    if parts.len() == 0 {
        None
    } else {
        Some(path::rendered(path::rooted(path), parts.drop_last()))
    }
}

/// The directory of the inputs: the one that was named, or that of the first
/// input, or else the root.
pub open spec fn directory_of(inputs: Inputs) -> Seq<u8> {
    match inputs.from {
        Source::Directory(dir) => dir@,
        Source::Stdin | Source::File => if inputs.files@.len() > 0 && parent(
            inputs.files@[0]@,
        ) is Some {
            parent(inputs.files@[0]@)->Some_0
        } else {
            seq![path::SEPARATOR]
        },
    }
}

/// The directory of the inputs. Nothing is read.
pub fn collect_cwd(inputs: &Inputs) -> (exit: Exit)
    ensures
        ({
            let dir = directory_of(*inputs);
            &&& exit matches Exit::Emit { lines, summary, failed }
            &&& emit::line_bytes(lines@) == seq![dir]
            &&& summary@ == "recon: emitted "@ + document::utf8_text(dir)
            &&& failed == 0
        }),
{
    let mut dir: Vec<u8> = Vec::new();
    dir.push(path::SEPARATOR);
    assert(dir@ =~= seq![path::SEPARATOR]);
    match &inputs.from {
        Source::Directory(named) => {
            dir = path::copy_part(named);
        },
        Source::Stdin | Source::File => {
            if inputs.files.len() > 0 {
                let first = &inputs.files[0];
                let parts = path::parts_of(first.as_slice());
                assert(path::byte_parts(parts@).len() == parts@.len());
                if parts.len() > 0 {
                    let from_root = first.len() > 0 && first[0] == path::SEPARATOR;
                    dir = path::render(from_root, &parts, parts.len() - 1);
                    assert(path::byte_parts(parts@).take(parts@.len() - 1) =~= path::byte_parts(
                        parts@,
                    ).drop_last());
                }
            }
        },
    }
    let mut words = "recon: emitted ".to_owned();
    words.append(document::utf8_lossy(&dir).as_str());
    let ghost found = dir@;
    let mut lines: Vec<Vec<u8>> = Vec::new();
    lines.push(dir);
    assert(emit::line_bytes(lines@) =~= seq![found]);
    Exit::Emit { lines, summary: words, failed: 0 }
}

// ---------------------------------------------------------------------------
// Laws

/// Every file is either read or warned of.
pub proof fn every_file_is_accounted_for(
    files: Seq<Seq<u8>>,
    read: Seq<Result<DocumentModel, Seq<char>>>,
    filters: ActiveModel,
    mode: Mode,
    several: bool,
    numbers: bool,
)
    ensures
        ({
            let whole = gathered(files, read, filters, mode, several, numbers);
            &&& whole.read + whole.failed == files.len()
            &&& whole.warnings.len() == whole.failed
            &&& whole.interesting <= whole.lines.len()
        }),
    decreases files.len(),
{
    if files.len() > 0 {
        every_file_is_accounted_for(
            files.drop_last(),
            read.drop_last(),
            filters,
            mode,
            several,
            numbers,
        );
        match read.last() {
            Ok(document) => {
                let after = decided(document, filters, mode);
                hits_are_shown(after.verdicts, after.mode, after.including);
            },
            Err(_) => {},
        }
    }
}

/// A single file without numbers goes out as its shown lines are.
pub proof fn one_file_goes_out_bare(path: Seq<u8>, document: DocumentModel, i: int)
    requires
        0 <= i < document.visible.len(),
    ensures
        output_lines(path, document, false, false)[i] == vstd::utf8::encode_utf8(
            document.lines[document.visible[i] as int],
        ),
{
    let line = vstd::utf8::encode_utf8(document.lines[document.visible[i] as int]);
    assert(Seq::<u8>::empty() + Seq::<u8>::empty() + line =~= line);
}

} // verus!
