//! Which files are read and what goes out, whatever is asked for.

use crate::counting;
use crate::document;
use crate::document::{Document, DocumentModel, Mode, ReadError};
use crate::document_laws;
use crate::emit;
use crate::emit::{Emit, Exit};
use crate::filter::ActiveFilters;
use crate::headless;
use crate::headless::{Entry, Inputs, Source};
use crate::headless_laws;
use crate::path;
use crate::syntax::KindSet;
use crate::text;
use vstd::prelude::*;

verus! {

// ---------------------------------------------------------------------------
// Which files are read

/// Every line of a list that says something gives one file, in order: where the
/// line leads, without its end and with all else that stands on it.
pub proof fn which_files_are_listed(
    list: &[u8],
    cwd: &[u8],
    files: Vec<Vec<u8>>,
    cuts: Seq<int>,
    k: int,
)
    requires
        call_ensures(headless::files_from, (list, cwd), files),
        document_laws::cut_into_lines(list@, cuts),
        0 <= k < cuts.len() - 1,
    ensures
        files@.len() == headless_laws::telling_lines(list@, cuts, cuts.len() - 1),
        headless_laws::says_something(list@, cuts[k], cuts[k + 1]) ==> {
            let at = headless_laws::telling_lines(list@, cuts, k);
            &&& 0 <= at < files@.len()
            &&& files@[at]@ == path::lexically_absolute(
                headless_laws::without_end(list@.subrange(cuts[k], cuts[k + 1])),
                cwd@,
            )
        },
{
    headless_laws::which_files_a_list_gives(list@, cwd@, cuts, k);
    let models = path::byte_parts(files@);
    assert(models.len() == files@.len());
    if headless_laws::says_something(list@, cuts[k], cuts[k + 1]) {
        let at = headless_laws::telling_lines(list@, cuts, k);
        assert(models[at] == files@[at]@);
    }
}

/// Every entry of a directory that is no directory itself is a file of it, in
/// order.
pub proof fn which_files_are_in_a_directory(
    dir: Vec<u8>,
    entries: Vec<Entry>,
    files: Vec<Vec<u8>>,
    k: int,
)
    requires
        call_ensures(headless::files_in, (&dir, &entries), files),
        0 <= k < entries@.len(),
    ensures
        files@.len() == counting::how_many(
            |i: int| !entries@[i].directory,
            entries@.len() as int,
        ),
        !entries@[k].directory ==> {
            let at = counting::how_many(|i: int| !entries@[i].directory, k);
            &&& 0 <= at < files@.len()
            &&& files@[at]@ == seq![47u8] + path::joined(
                path::parts(dir@).push(entries@[k].name@),
            )
        },
{
    headless_laws::which_files_a_directory_gives(dir@, entries@, k);
    let models = path::byte_parts(files@);
    assert(models.len() == files@.len());
    if !entries@[k].directory {
        let at = counting::how_many(|i: int| !entries@[i].directory, k);
        assert(models[at] == files@[at]@);
    }
}

/// A path that is no directory stands for itself alone, and a directory for its
/// files.
pub proof fn what_a_path_stands_for(
    path: Vec<u8>,
    entries: Option<Vec<Entry>>,
    inputs: Inputs,
    files: Vec<Vec<u8>>,
)
    requires
        call_ensures(headless::path_inputs, (path, entries), inputs),
        entries matches Some(entries) ==> call_ensures(
            headless::files_in,
            (&path, &entries),
            files,
        ),
    ensures
        entries is None ==> inputs.files@.len() == 1 && inputs.files@[0]@ == path@ && inputs.from
            is File,
        entries is Some ==> {
            &&& inputs.from matches Source::Directory(dir)
            &&& dir@ == path@
            &&& path::byte_parts(inputs.files@) == path::byte_parts(files@)
        },
{
    let models = path::byte_parts(inputs.files@);
    assert(models.len() == inputs.files@.len());
    if entries is None {
        assert(models[0] == inputs.files@[0]@);
    }
}

/// A list that gives a file is what is read, and the path is not looked at.
pub proof fn a_list_comes_first<L: FnOnce(&Vec<u8>) -> Result<Option<Vec<Entry>>, String>>(
    stdin: &[u8],
    path: &[u8],
    cwd: &[u8],
    list: L,
    found: Result<Inputs, String>,
    files: Vec<Vec<u8>>,
)
    requires
        call_ensures(headless::inputs, (stdin, path, cwd, list), found),
        call_ensures(headless::files_from, (stdin, cwd), files),
    ensures
        files@.len() > 0 ==> found is Ok && found->Ok_0.from is Stdin && path::byte_parts(
            found->Ok_0.files@,
        ) == path::byte_parts(files@),
        files@.len() == 0 ==> !(found is Ok && found->Ok_0.from is Stdin),
{
    assert(path::byte_parts(files@).len() == files@.len());
}

/// A line loses its end: a carriage return and a line feed, or one of the two.
pub proof fn what_a_line_loses(line: &[u8], name: Vec<u8>)
    requires
        call_ensures(headless::strip_line_end, (line,), name),
    ensures
        name@ == headless_laws::without_end(line@),
{
    headless_laws::ends_are_white(line@);
}

// ---------------------------------------------------------------------------
// What goes out

/// What goes out of files: with the outcomes of reading them, every line that a
/// file shows goes out, behind its path and a tab where there is more than one
/// file, and its number and a tab where numbers are asked for; and every file
/// that was not read is warned of.
pub proof fn what_collecting_gives<
    R: Fn(&Vec<u8>) -> Result<Document, ReadError>,
    G: Fn(&String, &Vec<String>) -> Option<Vec<KindSet>>,
>(
    inputs: Inputs,
    filters: ActiveFilters,
    mode: Mode,
    numbers: bool,
    read: R,
    grammar: G,
    result: (Exit, Vec<String>),
)
    requires
        filters.wf(),
        call_ensures(
            headless::collect_lines,
            (&inputs, &filters, mode, numbers, read, grammar),
            result,
        ),
    ensures
        exists|
            outcomes: Seq<Result<Document, ReadError>>,
            models: Seq<Result<DocumentModel, Seq<char>>>,
        | #[trigger]
            collected_from(inputs, filters, mode, numbers, read, result, outcomes, models),
{
    let (outcomes, kinds) = choose|
        outcomes: Seq<Result<Document, ReadError>>,
        kinds: Seq<Option<Seq<KindSet>>>,
    |
        {
            &&& headless::read_in_turn(read, inputs.files@, outcomes)
            &&& #[trigger] headless::found_in_turn(grammar, outcomes, filters@, kinds)
            &&& headless::collected(
                result.0,
                text::texts(result.1@),
                path::byte_parts(inputs.files@),
                headless::read_models(outcomes, kinds),
                filters@,
                mode,
                numbers,
            )
        };
    let models = headless::read_models(outcomes, kinds);
    let files = path::byte_parts(inputs.files@);
    assert(files.len() == inputs.files@.len());
    headless_laws::what_is_handed_back(
        result.0,
        text::texts(result.1@),
        files,
        models,
        filters@,
        mode,
        numbers,
    );
    assert forall|f: int| 0 <= f < inputs.files@.len() implies #[trigger] read_as(
        outcomes[f],
        models[f],
    ) by {}
    assert(collected_from(inputs, filters, mode, numbers, read, result, outcomes, models));
}

/// A file as it was read: its lines and its path as they were, or the reason in
/// words.
pub open spec fn read_as(
    outcome: Result<Document, ReadError>,
    model: Result<DocumentModel, Seq<char>>,
) -> bool {
    &&& outcome matches Ok(document) ==> {
        &&& model is Ok
        &&& model->Ok_0.lines == document@.lines
        &&& model->Ok_0.path == document@.path
    }
    &&& outcome matches Err(error) ==> model == Err::<DocumentModel, _>(
        match error {
            ReadError::NotFound => "no such file"@,
            ReadError::PermissionDenied => "permission denied"@,
            ReadError::IsADirectory => "is a directory"@,
            ReadError::Binary => "binary file"@,
            ReadError::NotAFile => "not a regular file"@,
            ReadError::Os(message) => message@,
        },
    )
}

/// What is handed back is what the files show, as they were read in turn.
pub open spec fn collected_from<R: Fn(&Vec<u8>) -> Result<Document, ReadError>>(
    inputs: Inputs,
    filters: ActiveFilters,
    mode: Mode,
    numbers: bool,
    read: R,
    result: (Exit, Vec<String>),
    outcomes: Seq<Result<Document, ReadError>>,
    models: Seq<Result<DocumentModel, Seq<char>>>,
) -> bool {
    let n = inputs.files@.len() as int;
    &&& outcomes.len() == n && models.len() == n
    &&& forall|f: int|
        0 <= f < n ==> call_ensures(read, (&inputs.files@[f],), #[trigger] outcomes[f])
    &&& forall|f: int| 0 <= f < n ==> #[trigger] read_as(outcomes[f], models[f])
    &&& result.0 matches Exit::Emit { lines, summary, failed }
    &&& failed == headless_laws::unread(models, n)
    &&& lines@.len() == headless_laws::shown_of(models, filters@, mode, n)
    &&& headless_laws::gathered_in_order(
        headless::Gathered {
            lines: emit::line_bytes(lines@),
            warnings: text::texts(result.1@),
            read: (n - failed) as nat,
            failed: failed as nat,
            interesting: headless_laws::included_of(models, filters@, mode, n) as nat,
        },
        path::byte_parts(inputs.files@),
        models,
        filters@,
        mode,
        n > 1,
        numbers,
    )
}

/// What is said: a number and its noun, a reason, a warning, and a summary.
pub proof fn what_is_said(
    n: usize,
    noun: &str,
    words: String,
    path: Vec<u8>,
    error: ReadError,
    line: String,
    emitted: usize,
    subject: &str,
    interesting: usize,
    dim: String,
    hide: String,
)
    requires
        call_ensures(headless::count, (n, noun), words),
        call_ensures(headless::warn, (&path, &error), line),
        call_ensures(headless::summary, (emitted, subject, Mode::Dimmed, interesting), dim),
        call_ensures(headless::summary, (emitted, subject, Mode::FilteredOnly, interesting), hide),
    ensures
        n == 1 ==> words@ == seq!['1', ' '] + noun@,
        n != 1 ==> words@ == text::decimal(n as nat) + seq![' '] + noun@ + seq!['s'],
        error is NotFound ==> line@ == "recon: cannot read "@ + document::utf8_text(path@) + ": "@
            + "no such file"@ + "\n"@,
        error matches ReadError::Os(message) ==> line@ == "recon: cannot read "@
            + document::utf8_text(path@) + ": "@ + message@ + "\n"@,
        dim@ == "recon: emitted "@ + text::decimal(emitted as nat) + " lines of "@ + subject@
            + ", dim mode ("@ + text::decimal(interesting as nat)
            + " match) — pass --hide to emit matches only"@,
        hide@ == "recon: emitted "@ + text::decimal(emitted as nat) + " lines of "@ + subject@
            + ", hide mode"@,
{
    headless_laws::how_things_are_counted(n as nat, noun@);
}

/// The directory that is handed back goes out as one line.
pub proof fn which_directory_goes_out(inputs: Inputs, exit: Exit)
    requires
        call_ensures(headless::collect_cwd, (&inputs,), exit),
    ensures
        exit matches Exit::Emit { lines, summary, failed } && {
            let dir = headless::directory_of(inputs);
            &&& lines@.len() == 1 && lines@[0]@ == dir
            &&& summary@ == "recon: emitted "@ + document::utf8_text(dir)
            &&& failed == 0
        },
{
    if let Exit::Emit { lines, summary, failed } = exit {
        let models = emit::line_bytes(lines@);
        assert(models.len() == lines@.len());
        assert(models[0] == lines@[0]@);
    }
}

/// What is written: the lines, each with a line feed behind it, once, and
/// nothing where nothing is handed back. A session that was asked for something
/// and hands nothing back fails.
pub proof fn what_is_written<W: FnOnce(Vec<u8>) -> Result<(), String>>(
    exit: Exit,
    requested: Option<Emit>,
    write: W,
    said: (String, bool),
)
    requires
        call_ensures(Exit::deliver, (exit, requested, write), said),
    ensures
        exit is Silent ==> said.0@.len() == 0 && (said.1 <==> requested is None),
        exit matches Exit::Emit { lines, summary, failed } ==> exists|
            bytes: Vec<u8>,
            outcome: Result<(), String>,
        |
            {
                &&& bytes@ == emit::terminated(emit::line_bytes(lines@))
                &&& #[trigger] call_ensures(write, (bytes,), outcome)
                &&& outcome is Ok ==> said.1 && said.0@ == summary@ + "\n"@
                &&& outcome matches Err(why) ==> !said.1 && said.0@
                    == "recon: could not write the output: "@ + why@ + "\n"@
            },
{
    if let Exit::Emit { lines, summary, failed } = exit {
        let (bytes, outcome) = choose|bytes: Vec<u8>, outcome: Result<(), String>|
            {
                &&& bytes@ == emit::terminated(emit::line_bytes(lines@))
                &&& #[trigger] call_ensures(write, (bytes,), outcome)
                &&& said.0@ == emit::told(summary@, emit::outcome_text(outcome))
                &&& said.1 == (outcome is Ok)
            };
        assert(call_ensures(write, (bytes,), outcome));
    }
}

// ---------------------------------------------------------------------------
// Paths

/// The parts of a path, the path that leads through parts, and the one spelling
/// of a path.
pub proof fn what_paths_are_made_into(
    path: &[u8],
    cwd: &[u8],
    parts: Vec<Vec<u8>>,
    given: Vec<Vec<u8>>,
    count: usize,
    from_root: bool,
    name: &[u8],
    rendered: Vec<u8>,
    child: Vec<u8>,
    spelling: Vec<u8>,
)
    requires
        call_ensures(path::parts_of, (path,), parts),
        count <= given@.len(),
        call_ensures(path::render, (from_root, &given, count), rendered),
        call_ensures(path::child, (from_root, &given, count, name), child),
        call_ensures(path::lexical_absolute, (path, cwd), spelling),
    ensures
        path::byte_parts(parts@) == path::parts(path@),
        rendered@ == (if from_root {
            seq![47u8]
        } else {
            Seq::empty()
        }) + path::joined(path::byte_parts(given@).take(count as int)),
        child@ == (if from_root {
            seq![47u8]
        } else {
            Seq::empty()
        }) + path::joined(path::byte_parts(given@).take(count as int).push(name@)),
        spelling@ == seq![47u8] + path::joined(
            path::resolved(
                if path@.len() > 0 && path@[0] == 47 {
                    path::parts(path@)
                } else {
                    path::parts(cwd@) + path::parts(path@)
                },
            ),
        ),
{
    let empty: Seq<u8> = Seq::empty();
    let one = path::joined(path::byte_parts(given@).take(count as int));
    let two = path::joined(path::byte_parts(given@).take(count as int).push(name@));
    assert(empty + one =~= one);
    assert(empty + two =~= two);
}

} // verus!
