//! What every operation on a document does, whatever is asked of it.

use crate::colour::Style;
use crate::document;
use crate::document::{Document, DocumentModel, Endian, Mode, ReadError, Sniff, Target};
use crate::document_laws;
use crate::filter::{ActiveFilters, Verdict};
use crate::syntax::KindSet;
use crate::text;
use vstd::prelude::*;

verus! {

// ---------------------------------------------------------------------------
// Evaluating

/// A document that was made of lines, with or without a file behind it.
pub proof fn what_a_new_document_is(
    lines: Vec<String>,
    path: &str,
    plain: Document,
    filed: Document,
    i: int,
)
    requires
        call_ensures(Document::new, (lines,), plain),
        call_ensures(Document::for_file, (path, lines), filed),
        0 <= i < lines@.len(),
    ensures
        plain@.lines.len() == lines@.len() && plain@.lines[i] == lines@[i]@,
        filed@.lines == plain@.lines,
        plain@.path is None && filed@.path == Some(path@),
        plain@.verdicts.len() == lines@.len() && plain@.verdicts[i] is Unmatched,
        filed@.verdicts == plain@.verdicts,
        plain@.visible.len() == 0 && filed@.visible.len() == 0,
        plain@.mode == Mode::Dimmed && filed@.mode == Mode::Dimmed,
        plain@.kinds is None && filed@.kinds is None,
{
}

/// Evaluating gives every line the filters' verdict, and shows the lines that
/// the verdicts and the mode call for, in their order.
pub proof fn what_evaluating_does(
    document: &mut Document,
    filters: ActiveFilters,
    line: usize,
    text: &str,
    kinds: KindSet,
    verdict: Verdict,
    including: bool,
)
    requires
        old(document).wf(),
        filters.wf(),
        call_ensures(Document::evaluate, (document, &filters), ()),
        line < old(document)@.lines.len(),
        text@ == old(document)@.lines[line as int],
        kinds == match old(document)@.kinds {
            Some(kinds) if line < kinds.len() => kinds[line as int],
            _ => KindSet::none(),
        },
        call_ensures(ActiveFilters::verdict, (&filters, text, kinds), verdict),
        call_ensures(ActiveFilters::any_including, (&filters,), including),
    ensures
        ({
            let (before, after) = (old(document)@, final(document)@);
            &&& after.lines == before.lines && after.path == before.path
            &&& after.kinds == before.kinds && after.mode == before.mode
            &&& after.verdicts.len() == before.lines.len()
            &&& after.verdicts[line as int] == verdict
            &&& after.visible.contains(line) <==> (verdict is Included || verdict is Context || (
            verdict is Unmatched && (before.mode == Mode::Dimmed || !including)))
            &&& forall|i: int, j: int|
                0 <= i < j < after.visible.len() ==> #[trigger] after.visible[i]
                    < #[trigger] after.visible[j]
            &&& after.generation == before.generation <==> after.visible == before.visible
        }),
{
    document_laws::which_lines_are_shown(old(document)@, filters@, line);
    assert(old(document)@.kinds_at(line as int) == kinds);
}

/// Gathering anew shows what the verdicts there are call for in the mode, and
/// asks no filter; setting the mode alone shows nothing new.
pub proof fn what_gathering_does(
    document: &mut Document,
    other: &mut Document,
    mode: Mode,
    line: usize,
)
    requires
        old(document).wf(),
        old(other).wf(),
        call_ensures(Document::recompute_visible, (document,), ()),
        call_ensures(Document::set_mode, (other, mode), ()),
        line < old(document)@.lines.len(),
    ensures
        ({
            let (before, after) = (old(document)@, final(document)@);
            let verdict = before.verdicts[line as int];
            &&& after == (DocumentModel {
                visible: after.visible,
                generation: after.generation,
                ..before
            })
            &&& after.visible.contains(line) <==> (verdict is Included || verdict is Context || (
            verdict is Unmatched && (before.mode == Mode::Dimmed || !before.including)))
            &&& after.generation == before.generation <==> after.visible == before.visible
        }),
        final(other)@ == (DocumentModel { mode, ..old(other)@ }),
{
    let before = old(document)@;
    document::shown_lines_are_those_to_show(
        before.verdicts,
        before.mode,
        before.including,
        line,
    );
    assert(before.generation.wrapping_add(1) != before.generation);
    assert(final(document)@ =~= (DocumentModel {
        visible: final(document)@.visible,
        generation: final(document)@.generation,
        ..before
    }));
}

/// The definitions in a file are wanted just where a filter that is on, in a set
/// that is on, asks for them and they are not known.
pub proof fn when_definitions_are_wanted(
    document: Document,
    filters: ActiveFilters,
    asked: bool,
    yes: bool,
)
    requires
        filters.wf(),
        call_ensures(ActiveFilters::needs_kinds, (&filters,), asked),
        call_ensures(Document::wants_kinds, (&document, &filters), yes),
    ensures
        yes <==> asked && document@.kinds is None,
{
}

/// The definitions that evaluating goes by: those that are known, or where a
/// filter asks and none are, what the grammar says of the file, and nothing
/// where there is no file or no grammar for it. The grammar is handed the file's
/// own path and lines.
pub proof fn which_definitions_evaluating_goes_by<
    G: FnOnce(&String, &Vec<String>) -> Option<Vec<KindSet>>,
>(
    document: &mut Document,
    filters: ActiveFilters,
    grammar: G,
    asked: bool,
)
    requires
        old(document).wf(),
        filters.wf(),
        call_ensures(ActiveFilters::needs_kinds, (&filters,), asked),
        call_ensures(Document::evaluate_with, (document, &filters, grammar), ()),
    ensures
        ({
            let (before, after) = (old(document)@, final(document)@);
            &&& !asked || before.kinds is Some ==> after.kinds == before.kinds
            &&& asked && before.kinds is None && before.path is None ==> after.kinds == Some(
                Seq::<KindSet>::empty(),
            )
            &&& asked && before.kinds is None && before.path is Some ==> exists|
                path: String,
                lines: Vec<String>,
                outcome: Option<Vec<KindSet>>,
            |
                {
                    &&& Some(path@) == before.path
                    &&& text::texts(lines@) == before.lines
                    &&& #[trigger] call_ensures(grammar, (&path, &lines), outcome)
                    &&& outcome is None ==> after.kinds == Some(Seq::<KindSet>::empty())
                    &&& outcome is Some ==> after.kinds == Some(outcome->Some_0@)
                }
            &&& after == (DocumentModel { kinds: after.kinds, ..before }).evaluated(filters@)
        }),
{
    let (before, after) = (old(document)@, final(document)@);
    let kinds = choose|kinds: Option<Seq<KindSet>>| #[trigger]
        document::kinds_found(grammar, before, filters@, kinds) && after == (DocumentModel {
            kinds,
            ..before
        }).evaluated(filters@);
    assert(after.kinds == kinds);
    assert(asked == document::asks_kinds(filters@));
    if asked && before.kinds is None && before.path is Some {
        let (path, lines, outcome) = choose|
            path: String,
            lines: Vec<String>,
            outcome: Option<Vec<KindSet>>,
        |
            {
                &&& path@ == before.path->Some_0
                &&& text::texts(lines@) == before.lines
                &&& #[trigger] call_ensures(grammar, (&path, &lines), outcome)
                &&& kinds == Some(document::found_or_none(outcome))
            };
        assert(call_ensures(grammar, (&path, &lines), outcome));
    }
}

// ---------------------------------------------------------------------------
// Rows

/// A group ends in a row just where the file goes on behind the row's line and
/// the next line is not shown; where the rows that are asked for stop has no say
/// in it.
pub proof fn where_groups_end(
    document: Document,
    start: usize,
    end: usize,
    ends: Vec<bool>,
    all: Vec<bool>,
    row: int,
)
    requires
        document.wf(),
        call_ensures(Document::visible_group_ends_range, (&document, start, end), ends),
        call_ensures(Document::visible_group_ends, (&document,), all),
        start <= row < end,
        row < document@.visible.len(),
    ensures
        all@.len() == document@.visible.len(),
        row - start < ends@.len(),
        ends@[row - start] == all@[row],
        all@[row] <==> document@.visible[row] + 1 < document@.lines.len() && forall|other: int|
            0 <= other < document@.visible.len() ==> #[trigger] document@.visible[other]
                != document@.visible[row] + 1,
{
    document_laws::where_a_group_ends(document@, row);
    document_laws::which_rows_are_in_a_window(document@, start as int, end as int, row - start);
}

/// No more rows are told of than are asked for and are there.
pub proof fn how_many_rows_are_told_of(
    document: Document,
    filters: ActiveFilters,
    start: usize,
    end: usize,
    ends: Vec<bool>,
    lines: Vec<String>,
    styles: Vec<Option<Style>>,
    window: Vec<usize>,
)
    requires
        document.wf(),
        filters.wf(),
        call_ensures(Document::visible_group_ends_range, (&document, start, end), ends),
        call_ensures(Document::visible_lines_range, (&document, start, end), lines),
        call_ensures(Document::visible_styles_range, (&document, &filters, start, end), styles),
        call_ensures(Document::window, (&document, start, end), window),
    ensures
        ({
            let last = if end < document@.visible.len() {
                end as int
            } else {
                document@.visible.len() as int
            };
            let count = if start < last {
                last - start
            } else {
                0
            };
            &&& ends@.len() == count
            &&& lines@.len() == count
            &&& styles@.len() == count
            &&& window@.len() == count
        }),
{
    assert(text::texts(lines@).len() == lines@.len());
}

/// What a row shows: the text of its line, in the style of the line's verdict.
pub proof fn what_a_row_shows(
    document: Document,
    filters: ActiveFilters,
    start: usize,
    end: usize,
    row: int,
    lines: Vec<String>,
    all: Vec<String>,
    styles: Vec<Option<Style>>,
    every: Vec<Option<Style>>,
    style: Option<Style>,
    source: Option<usize>,
)
    requires
        document.wf(),
        filters.wf(),
        start <= row < end,
        row < document@.visible.len(),
        call_ensures(Document::visible_lines_range, (&document, start, end), lines),
        call_ensures(Document::visible_lines, (&document,), all),
        call_ensures(Document::visible_styles_range, (&document, &filters, start, end), styles),
        call_ensures(Document::visible_styles, (&document, &filters), every),
        call_ensures(
            ActiveFilters::style_for,
            (&filters, document@.verdicts[document@.visible[row] as int]),
            style,
        ),
        call_ensures(Document::source_at, (&document, row as usize), source),
    ensures
        all@.len() == document@.visible.len() && every@.len() == document@.visible.len(),
        all@[row]@ == document@.lines[document@.visible[row] as int],
        lines@[row - start]@ == all@[row]@,
        every@[row] == style && styles@[row - start] == style,
        source == Some(document@.visible[row]),
{
    document_laws::which_rows_are_in_a_window(document@, start as int, end as int, row - start);
    let texts = text::texts(lines@);
    assert(texts.len() == lines@.len());
    assert(row - start < texts.len());
    assert(texts[row - start] == lines@[row - start]@);
    let whole = text::texts(all@);
    assert(whole.len() == all@.len());
    assert(whole[row] == all@[row]@);
}

/// Every line has a style, the one of its verdict.
pub proof fn how_lines_are_drawn(
    document: Document,
    filters: ActiveFilters,
    line: int,
    styles: Vec<Option<Style>>,
    style: Option<Style>,
)
    requires
        document.wf(),
        filters.wf(),
        0 <= line < document@.lines.len(),
        call_ensures(Document::line_styles, (&document, &filters), styles),
        call_ensures(ActiveFilters::style_for, (&filters, document@.verdicts[line]), style),
    ensures
        styles@.len() == document@.lines.len(),
        styles@[line] == style,
{
}

/// Rows and lines lead to each other: the row that a line is shown in shows the
/// line, and a line that is in no row is not shown.
pub proof fn how_rows_and_lines_meet(
    document: Document,
    source: usize,
    row: Option<usize>,
    other: usize,
    back: Option<usize>,
)
    requires
        document.wf(),
        call_ensures(Document::visible_position, (&document, source), row),
        call_ensures(Document::source_at, (&document, other), back),
    ensures
        row is Some <==> document@.visible.contains(source),
        row is Some && row->Some_0 == other ==> back == Some(source),
        back is Some <==> other < document@.visible.len(),
        back == Some(source) ==> row == Some(other),
{
    if back == Some(source) {
        assert(document@.visible[other as int] == source);
        assert(document@.visible.contains(source));
        document::rows_and_lines_map_both_ways(
            document@,
            row->Some_0 as int,
            other as int,
        );
    }
    if row is Some {
        assert(document@.visible[row->Some_0 as int] == source);
    }
}

/// The nearest line to one is itself where it is shown, else the next that is,
/// and else the last; there is none just where no line is shown.
pub proof fn which_line_is_nearest(document: Document, source: usize, nearest: Option<usize>, i: int)
    requires
        document.wf(),
        call_ensures(Document::nearest_visible, (&document, source), nearest),
        0 <= i < document@.visible.len(),
    ensures
        nearest is Some,
        document@.visible.contains(nearest->Some_0),
        document@.visible[i] == source ==> nearest == Some(source),
        document@.visible[i] >= source ==> source <= nearest->Some_0 <= document@.visible[i],
        nearest->Some_0 < source ==> document@.visible[i] <= nearest->Some_0,
{
}

/// Where nothing is shown, no line is nearest.
pub proof fn no_line_is_nearest_to_nothing(document: Document, source: usize, nearest: Option<usize>)
    requires
        document.wf(),
        call_ensures(Document::nearest_visible, (&document, source), nearest),
        document@.visible.len() == 0,
    ensures
        nearest is None,
{
    if nearest is Some {
        assert(document@.visible.contains(nearest->Some_0));
    }
}

// ---------------------------------------------------------------------------
// Reading

/// A file is read as its lines, or refused: a directory and what is no file
/// before it is opened, and one that holds no text for that.
pub proof fn what_reading_gives(
    path: &str,
    target: Option<Target>,
    bytes: Vec<u8>,
    document: Result<Document, ReadError>,
    lines: Result<Vec<String>, ReadError>,
)
    requires
        call_ensures(Document::read, (path, target, &bytes), document),
        call_ensures(document::read_lines, (&bytes,), lines),
    ensures
        target == Some(Target::Directory) ==> document matches Err(ReadError::IsADirectory),
        target == Some(Target::Other) ==> document matches Err(ReadError::NotAFile),
        ({
            let marked = bytes@.len() >= 2 && ((bytes@[0] == 255 && bytes@[1] == 254) || (bytes@[0]
                == 254 && bytes@[1] == 255));
            let zero = exists|i: int| 0 <= i < bytes@.len() && i < 8192 && #[trigger] bytes@[i] == 0;
            &&& lines is Err <==> !marked && zero
            &&& lines matches Err(error) ==> error is Binary
            &&& target is None || target == Some(Target::File) ==> {
                &&& document is Err <==> lines is Err
                &&& document matches Err(error) ==> error is Binary
                &&& document is Ok ==> {
                    &&& document->Ok_0@.lines == text::texts(lines->Ok_0@)
                    &&& document->Ok_0@.path == Some(path@)
                    &&& document->Ok_0@.visible.len() == 0
                }
            }
        }),
{
    document_laws::which_files_are_text(bytes@);
}

/// The lines of a file without a mark and without a zero byte: one for each
/// line of its bytes, without the line ends at its end.
pub proof fn which_lines_are_read(
    bytes: Vec<u8>,
    cuts: Seq<int>,
    lines: Result<Vec<String>, ReadError>,
    k: int,
)
    requires
        call_ensures(document::read_lines, (&bytes,), lines),
        document_laws::cut_into_lines(bytes@, cuts),
        0 <= k < cuts.len() - 1,
        forall|i: int| 0 <= i < bytes@.len() ==> #[trigger] bytes@[i] != 0,
        bytes@[0] != 255 && bytes@[0] != 254,
    ensures
        lines is Ok,
        lines->Ok_0@.len() == cuts.len() - 1,
        document_laws::bare(
            document::utf8_text(bytes@.subrange(cuts[k], cuts[k + 1])),
            lines->Ok_0@[k]@,
        ),
{
    document_laws::which_files_are_text(bytes@);
    document_laws::what_the_lines_of_a_file_are(bytes@, cuts, k);
    let texts = text::texts(lines->Ok_0@);
    assert(texts == document::byte_lines(bytes@, 0));
    assert(texts.len() == lines->Ok_0@.len());
    assert(texts[k] == lines->Ok_0@[k]@);
}

/// What the head of a file says of it.
pub proof fn what_a_head_says(head: &[u8], verdict: Sniff)
    requires
        call_ensures(document::sniff, (head,), verdict),
    ensures
        verdict == Sniff::Utf16(Endian::Little) <==> head@.len() >= 2 && head@[0] == 255 && head@[1]
            == 254,
        verdict == Sniff::Utf16(Endian::Big) <==> head@.len() >= 2 && head@[0] == 254 && head@[1]
            == 255,
        verdict == Sniff::Binary ==> exists|i: int| 0 <= i < head@.len() && #[trigger] head@[i] == 0,
        verdict == Sniff::Text ==> forall|i: int| 0 <= i < head@.len() ==> #[trigger] head@[i] != 0,
{
    if verdict == Sniff::Binary {
        let i = choose|i: int| 0 <= i < head@.len() && head@[i] == 0;
        assert(head@[i] == 0);
    }
    if verdict == Sniff::Text {
        assert forall|i: int| 0 <= i < head@.len() implies #[trigger] head@[i] != 0 by {
            if head@[i] == 0 {
                assert(head@.contains(0));
            }
        }
    }
}

/// A path is refused before it is opened just where it leads to something that
/// is no file, and a refusal for holding no text is known by that.
pub proof fn what_is_refused_unopened(
    target: Option<Target>,
    readable: Result<(), ReadError>,
    error: ReadError,
    binary: bool,
)
    requires
        call_ensures(document::refuse_unreadable, (target,), readable),
        call_ensures(document::is_binary, (&error,), binary),
    ensures
        readable is Ok <==> target is None || target == Some(Target::File),
        target == Some(Target::Directory) ==> readable matches Err(ReadError::IsADirectory),
        target == Some(Target::Other) ==> readable matches Err(ReadError::NotAFile),
        binary <==> error is Binary,
{
}

} // verus!
