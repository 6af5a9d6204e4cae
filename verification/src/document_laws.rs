//! What is shown of a file, and how a file is read, told of the single line.

use crate::document;
use crate::document::{DocumentModel, Endian, Mode};
use crate::filter::model::ActiveModel;
use crate::filter::outcomes;
use crate::filter::Sense;
use crate::syntax::KindSet;
use vstd::prelude::*;

verus! {

// ---------------------------------------------------------------------------
// Lines shown

/// Whether a filter that marks lines has a say.
pub open spec fn something_marks(filters: ActiveModel) -> bool {
    exists|i: int|
        #![trigger filters.filters[i]]
        outcomes::has_say(filters, Sense::Include, i) || outcomes::has_say(
            filters,
            Sense::Context,
            i,
        )
}

proof fn marking_is_including(filters: ActiveModel)
    ensures
        filters.any_including() == something_marks(filters),
{
    if filters.any_including() {
        if filters.any_live(Sense::Include) {
            let i = choose|i: int|
                0 <= i < filters.filters.len() && #[trigger] filters.live(Sense::Include, i);
            assert(outcomes::has_say(filters, Sense::Include, i));
            assert(filters.filters[i].enabled);
        } else {
            let i = choose|i: int|
                0 <= i < filters.filters.len() && #[trigger] filters.live(Sense::Context, i);
            assert(outcomes::has_say(filters, Sense::Context, i));
            assert(filters.filters[i].enabled);
        }
    }
    if something_marks(filters) {
        let i = choose|i: int|
            #![trigger filters.filters[i]]
            outcomes::has_say(filters, Sense::Include, i) || outcomes::has_say(
                filters,
                Sense::Context,
                i,
            );
        if outcomes::has_say(filters, Sense::Include, i) {
            assert(filters.live(Sense::Include, i));
        } else {
            assert(filters.live(Sense::Context, i));
        }
    }
}

/// What evaluating shows: every line that is included or context, no line that
/// is removed, and a line that nothing matched where lines are only dimmed or
/// nothing marks any. Rows keep the order of the lines. The lines themselves,
/// their file, the mode and the definitions stay.
pub proof fn which_lines_are_shown(document: DocumentModel, filters: ActiveModel, line: usize)
    requires
        document.well_formed(),
    ensures
        ({
            let after = document.evaluated(filters);
            let verdict = filters.verdict(
                document.lines[line as int],
                match document.kinds {
                    Some(kinds) if line < kinds.len() => kinds[line as int],
                    _ => KindSet::none(),
                },
            );
            &&& after.lines == document.lines && after.path == document.path
            &&& after.kinds == document.kinds && after.mode == document.mode
            &&& after.verdicts.len() == document.lines.len()
            &&& after.including == something_marks(filters)
            &&& line < document.lines.len() ==> after.verdicts[line as int] == verdict
            &&& after.visible.contains(line) <==> line < document.lines.len() && (verdict is Included
                || verdict is Context || (verdict is Unmatched && (document.mode == Mode::Dimmed
                || !something_marks(filters))))
            &&& forall|i: int, j: int|
                0 <= i < j < after.visible.len() ==> #[trigger] after.visible[i]
                    < #[trigger] after.visible[j]
            &&& after.generation == document.generation <==> after.visible == document.visible
        }),
{
    let after = document.evaluated(filters);
    marking_is_including(filters);
    document::shown_lines_ascend(after.verdicts, after.mode, after.including);
    document::shown_lines_are_those_to_show(after.verdicts, after.mode, after.including, line);
    assert(document.generation.wrapping_add(1) != document.generation);
}

/// A group ends in a row just where the file goes on behind the row's line and
/// the next line of the file is not among those shown.
pub proof fn where_a_group_ends(document: DocumentModel, row: int)
    requires
        document.well_formed(),
        0 <= row < document.visible.len(),
    ensures
        document.ends_group(row) <==> document.visible[row] + 1 < document.lines.len() && forall|
            other: int,
        |
            0 <= other < document.visible.len() ==> #[trigger] document.visible[other]
                != document.visible[row] + 1,
{
    let next = document.visible[row] + 1;
    if document.ends_group(row) {
        if row + 1 < document.visible.len() {
            assert(document.visible[row] < document.visible[row + 1]);
            assert(document.visible[row + 1] < document.lines.len());
        }
        assert forall|other: int| 0 <= other < document.visible.len() implies #[trigger]
            document.visible[other] != next by {
            if other < row {
                assert(document.visible[other] < document.visible[row]);
            } else if other > row {
                assert(document.visible[row] < document.visible[row + 1]);
                if other > row + 1 {
                    assert(document.visible[row + 1] < document.visible[other]);
                }
            }
        }
    } else if row + 1 < document.visible.len() {
        assert(document.visible[row + 1] == next);
    }
}

/// The rows from one up to another are those rows, in order, as far as there
/// are any.
pub proof fn which_rows_are_in_a_window(document: DocumentModel, start: int, end: int, i: int)
    requires
        0 <= start,
        0 <= end,
        0 <= i,
    ensures
        i < document.window(start, end).len() <==> start + i < end && start + i
            < document.visible.len(),
        start + i < end && start + i < document.visible.len() ==> document.window(start, end)[i]
            == document.visible[start + i],
{
}

/// A file that nothing was decided of: no line is shown yet, and none has
/// matched.
pub proof fn how_a_file_starts(lines: Seq<Seq<char>>, path: Option<Seq<char>>, i: int)
    requires
        0 <= i < lines.len(),
    ensures
        ({
            let document = DocumentModel::fresh(lines, path);
            &&& document.lines == lines && document.path == path
            &&& document.verdicts.len() == lines.len()
            &&& document.verdicts[i] is Unmatched
            &&& document.visible.len() == 0
            &&& document.mode == Mode::Dimmed
            &&& document.kinds is None && document.generation == 0
        }),
{
}

/// The definitions in a file are looked for just where a filter that asks for
/// them is on, in a set that is.
pub proof fn when_definitions_are_looked_for(filters: ActiveModel)
    ensures
        document::asks_kinds(filters) <==> exists|i: int|
            0 <= i < filters.filters.len() && (#[trigger] filters.filters[i]).enabled
                && filters.sets[filters.filters[i].set].enabled
                && filters.filters[i].predicate is Definition,
{
    if document::asks_kinds(filters) {
        let i = choose|i: int|
            0 <= i < filters.filters.len() && #[trigger] filters.effective(i)
                && filters.filters[i].predicate is Definition;
        assert(filters.filters[i].enabled);
    }
    if exists|i: int|
        0 <= i < filters.filters.len() && (#[trigger] filters.filters[i]).enabled
            && filters.sets[filters.filters[i].set].enabled
            && filters.filters[i].predicate is Definition {
        let i = choose|i: int|
            0 <= i < filters.filters.len() && (#[trigger] filters.filters[i]).enabled
                && filters.sets[filters.filters[i].set].enabled
                && filters.filters[i].predicate is Definition;
        assert(filters.effective(i));
    }
}

// ---------------------------------------------------------------------------
// Reading

/// Whether bytes from one place up to another are one line: no line feed but
/// at the end, and one there unless the file ends.
pub open spec fn one_line(bytes: Seq<u8>, from: int, to: int) -> bool {
    &&& 0 <= from < to <= bytes.len()
    &&& forall|i: int| from <= i < to - 1 ==> #[trigger] bytes[i] != 10
    &&& to < bytes.len() ==> bytes[to - 1] == 10
}

/// Whether the bytes between two places that follow each other are one line.
pub open spec fn cut_line(bytes: Seq<u8>, cuts: Seq<int>, k: int) -> bool {
    one_line(bytes, cuts[k], cuts[k + 1])
}

/// The places where the lines of a file begin, and its end.
pub open spec fn cut_into_lines(bytes: Seq<u8>, cuts: Seq<int>) -> bool {
    &&& cuts.len() > 0
    &&& cuts[0] == 0
    &&& cuts.last() == bytes.len()
    &&& forall|k: int| 0 <= k < cuts.len() - 1 ==> #[trigger] cut_line(bytes, cuts, k)
}

/// Every file can be cut into lines.
pub proof fn every_file_is_lines(bytes: Seq<u8>)
    ensures
        exists|cuts: Seq<int>| #[trigger] cut_into_lines(bytes, cuts),
{
    let cuts = cuts_from(bytes, 0);
    assert(cut_into_lines(bytes, cuts));
}

proof fn cuts_from(bytes: Seq<u8>, i: int) -> (cuts: Seq<int>)
    requires
        0 <= i <= bytes.len(),
    ensures
        cuts.len() > 0,
        cuts[0] == i,
        cuts.last() == bytes.len(),
        forall|k: int| 0 <= k < cuts.len() - 1 ==> #[trigger] cut_line(bytes, cuts, k),
    decreases bytes.len() - i,
{
    if i == bytes.len() {
        seq![i]
    } else {
        document::line_feed_is_ahead(bytes, i);
        let end = document::line_feed_from(bytes, i);
        let next = if end < bytes.len() {
            end + 1
        } else {
            bytes.len() as int
        };
        let rest = cuts_from(bytes, next);
        let cuts = seq![i] + rest;
        assert forall|k: int| 0 <= k < cuts.len() - 1 implies #[trigger] cut_line(
            bytes,
            cuts,
            k,
        ) by {
            assert(cuts[k + 1] == rest[k]);
            if k > 0 {
                assert(cut_line(bytes, rest, k - 1));
                assert(cuts[k] == rest[k - 1]);
            }
        }
        cuts
    }
}

/// The line feed that is found from the start of a line is that line's.
pub proof fn a_line_reaches_its_feed(bytes: Seq<u8>, from: int, to: int)
    requires
        one_line(bytes, from, to),
    ensures
        document::line_feed_from(bytes, from) == if bytes[to - 1] == 10 {
            to - 1
        } else {
            to
        },
        bytes[to - 1] != 10 ==> to == bytes.len(),
{
    document::line_feed_is_ahead(bytes, from);
    let end = document::line_feed_from(bytes, from);
    if end < to - 1 {
        assert(bytes[end] == 10);
    }
}

/// A text without the line feeds and carriage returns at its end: what is left
/// ends in neither, and behind it stands nothing else.
pub open spec fn bare(line: Seq<char>, left: Seq<char>) -> bool {
    &&& left.len() <= line.len()
    &&& left == line.take(left.len() as int)
    &&& left.len() > 0 ==> left.last() != '\n' && left.last() != '\r'
    &&& forall|i: int|
        left.len() <= i < line.len() ==> #[trigger] line[i] == '\n' || line[i] == '\r'
}

proof fn line_ends_are_taken_off(line: Seq<char>)
    ensures
        bare(line, document::without_line_end(line)),
    decreases line.len(),
{
    if line.len() > 0 && (line.last() == '\n' || line.last() == '\r') {
        let front = line.drop_last();
        line_ends_are_taken_off(front);
        let left = document::without_line_end(front);
        assert(front.take(left.len() as int) =~= line.take(left.len() as int));
        assert forall|i: int| left.len() <= i < line.len() implies #[trigger] line[i] == '\n'
            || line[i] == '\r' by {
            if i < front.len() {
                assert(front[i] == line[i]);
            }
        }
    } else {
        assert(line.take(line.len() as int) =~= line);
    }
}

/// A file without a mark has a line for each of its lines, in order: the text
/// of that line's own bytes, without the line ends at its end.
pub proof fn what_the_lines_of_a_file_are(bytes: Seq<u8>, cuts: Seq<int>, k: int)
    requires
        cut_into_lines(bytes, cuts),
        0 <= k < cuts.len() - 1,
    ensures
        document::byte_lines(bytes, 0).len() == cuts.len() - 1,
        bare(
            document::utf8_text(bytes.subrange(cuts[k], cuts[k + 1])),
            document::byte_lines(bytes, 0)[k],
        ),
{
    lines_from_a_cut(bytes, cuts, 0);
    line_ends_are_taken_off(document::utf8_text(bytes.subrange(cuts[k], cuts[k + 1])));
}

proof fn lines_from_a_cut(bytes: Seq<u8>, cuts: Seq<int>, n: int)
    requires
        cut_into_lines(bytes, cuts),
        0 <= n < cuts.len(),
    ensures
        document::byte_lines(bytes, cuts[n]).len() == cuts.len() - 1 - n,
        forall|k: int| #![trigger cuts[k]]
            n <= k < cuts.len() - 1 ==> document::byte_lines(bytes, cuts[n])[k - n]
                == document::without_line_end(
                document::utf8_text(bytes.subrange(cuts[k], cuts[k + 1])),
            ),
    decreases cuts.len() - n,
{
    if n == cuts.len() - 1 {
        assert(document::byte_lines(bytes, cuts[n]) =~= Seq::empty());
    } else {
        assert(cut_line(bytes, cuts, n));
        a_line_reaches_its_feed(bytes, cuts[n], cuts[n + 1]);
        lines_from_a_cut(bytes, cuts, n + 1);
        let line = bytes.subrange(cuts[n], cuts[n + 1]);
        let rest = document::byte_lines(bytes, cuts[n + 1]);
        let lines = document::byte_lines(bytes, cuts[n]);
        if bytes[cuts[n + 1] - 1] != 10 {
            assert(bytes.skip(cuts[n]) =~= line);
            if n + 1 < cuts.len() - 1 {
                assert(cut_line(bytes, cuts, n + 1));
            }
            assert(rest =~= Seq::empty());
            assert(lines =~= seq![document::byte_line(line)] + rest);
        }
        assert(lines == seq![document::byte_line(line)] + rest);
        assert forall|k: int| #![trigger cuts[k]] n <= k < cuts.len() - 1 implies lines[k - n]
            == document::without_line_end(
            document::utf8_text(bytes.subrange(cuts[k], cuts[k + 1])),
        ) by {
            if k > n {
                assert(lines[k - n] == rest[k - n - 1]);
            }
        }
    }
}

/// A file is refused just where it begins with no byte order mark of UTF-16 and
/// one of its first bytes is zero. A file without such a mark is read as bytes,
/// and one with it as the units behind it.
pub proof fn which_files_are_text(bytes: Seq<u8>)
    ensures
        ({
            let little = bytes.len() >= 2 && bytes[0] == 255 && bytes[1] == 254;
            let big = bytes.len() >= 2 && bytes[0] == 254 && bytes[1] == 255;
            let zero = exists|i: int| 0 <= i < bytes.len() && i < 8192 && #[trigger] bytes[i] == 0;
            &&& document::file_lines(bytes) is None <==> !little && !big && zero
            &&& !little && !big && !zero ==> document::file_lines(bytes) == Some(
                document::byte_lines(bytes, 0),
            )
            &&& little ==> document::file_lines(bytes) == Some(
                document::text_lines(
                    document::without_mark(
                        document::utf16_text(document::utf16_units(bytes, Endian::Little)),
                    ),
                    0,
                ),
            )
            &&& big ==> document::file_lines(bytes) == Some(
                document::text_lines(
                    document::without_mark(
                        document::utf16_text(document::utf16_units(bytes, Endian::Big)),
                    ),
                    0,
                ),
            )
        }),
{
    let head = document::head_of(bytes);
    let zero = exists|i: int| 0 <= i < bytes.len() && i < 8192 && #[trigger] bytes[i] == 0;
    assert(head.len() >= 2 <==> bytes.len() >= 2);
    if head.contains(0) {
        let i = choose|i: int| 0 <= i < head.len() && head[i] == 0;
        assert(bytes[i] == 0);
    }
    if zero {
        let i = choose|i: int| 0 <= i < bytes.len() && i < 8192 && #[trigger] bytes[i] == 0;
        assert(head[i] == 0);
    }
}

/// Two bytes make a unit, the lower one first or last as the mark says; a byte
/// that is left over becomes a replacement character.
pub proof fn what_two_bytes_make(bytes: Seq<u8>, i: int)
    requires
        0 <= i,
        2 * i < bytes.len(),
    ensures
        document::utf16_units(bytes, Endian::Little).len() * 2 == bytes.len() + bytes.len() % 2,
        document::utf16_units(bytes, Endian::Big).len() * 2 == bytes.len() + bytes.len() % 2,
        2 * i + 1 < bytes.len() ==> {
            let little = document::utf16_units(bytes, Endian::Little)[i];
            let big = document::utf16_units(bytes, Endian::Big)[i];
            &&& little % 256 == bytes[2 * i] && little / 256 == bytes[2 * i + 1]
            &&& big / 256 == bytes[2 * i] && big % 256 == bytes[2 * i + 1]
        },
        2 * i + 1 == bytes.len() ==> document::utf16_units(bytes, Endian::Little)[i] == 65533
            && document::utf16_units(bytes, Endian::Big)[i] == 65533,
{
}

/// One mark at the start of a text is taken off, and nothing else.
pub proof fn a_mark_is_taken_off_once(whole: Seq<char>)
    ensures
        document::without_mark(seq!['\u{feff}'] + whole) == whole,
        whole.len() == 0 || whole[0] != '\u{feff}' ==> document::without_mark(whole) == whole,
{
    assert((seq!['\u{feff}'] + whole).skip(1) =~= whole);
}

/// The units that a text is written with: one for a character of the basic
/// plane, and two halves for any other.
pub open spec fn written_in_units(whole: Seq<char>) -> Seq<u16>
    decreases whole.len(),
{
    if whole.len() == 0 {
        Seq::empty()
    } else {
        let scalar = whole[0] as u32;
        (if scalar < 0x10000 {
            seq![scalar as u16]
        } else {
            seq![
                (0xd800 + (scalar - 0x10000) / 0x400) as u16,
                (0xdc00 + (scalar - 0x10000) % 0x400) as u16,
            ]
        }) + written_in_units(whole.skip(1))
    }
}

/// A text that is written in units is read back from them.
pub proof fn units_read_back(whole: Seq<char>)
    ensures
        document::utf16_text(written_in_units(whole)) == whole,
    decreases whole.len(),
{
    if whole.len() > 0 {
        let rest = whole.skip(1);
        let units = written_in_units(whole);
        units_read_back(rest);
        let scalar = whole[0] as u32;
        let first = whole[0];
        vstd::utf8::char_is_scalar(first);
        assert(scalar <= 0x10ffff && !(0xd800 <= scalar <= 0xdfff));
        if scalar < 0x10000 {
            assert(units == seq![scalar as u16] + written_in_units(rest));
            assert(units.skip(1) =~= written_in_units(rest));
            assert(units[0] as u32 == scalar);
            vstd::utf8::char_u32_cast(first, scalar);
            assert(units[0] as char == whole[0]);
            assert(document::utf16_text(units) == seq![whole[0]] + document::utf16_text(
                units.skip(1),
            ));
        } else {
            assert(units.skip(2) =~= written_in_units(rest));
            assert(0xd800 <= units[0] < 0xdc00);
            assert(0xdc00 <= units[1] <= 0xdfff);
            let made = 0x10000 + (units[0] - 0xd800) * 0x400 + (units[1] - 0xdc00);
            assert(made == scalar);
            vstd::utf8::char_u32_cast(first, scalar);
            assert(made as char == scalar as char);
            assert(document::utf16_text(units) == seq![made as char] + document::utf16_text(
                units.skip(2),
            ));
        }
        assert(seq![whole[0]] + rest =~= whole);
    } else {
        assert(document::utf16_text(written_in_units(whole)) =~= whole);
    }
}

/// The bytes that units are written with.
pub open spec fn written_in_bytes(units: Seq<u16>, endian: Endian) -> Seq<u8> {
    Seq::new(
        (units.len() * 2) as nat,
        |i: int|
            if (i % 2 == 0) == (endian == Endian::Little) {
                (units[i / 2] % 256) as u8
            } else {
                (units[i / 2] / 256) as u8
            },
    )
}

/// A text that is written as UTF-16 with a mark, in either order of bytes, is
/// read back as its lines.
pub proof fn utf16_files_have_their_text(whole: Seq<char>, endian: Endian)
    ensures
        document::file_lines(written_in_bytes(written_in_units(seq!['\u{feff}'] + whole), endian))
            == Some(document::text_lines(whole, 0)),
{
    let marked = seq!['\u{feff}'] + whole;
    let units = written_in_units(marked);
    let bytes = written_in_bytes(units, endian);
    assert(marked[0] == '\u{feff}');
    assert('\u{feff}' as int == 0xfeff);
    assert(units[0] == 0xfeffu16);
    assert(units.len() >= 1);
    assert(bytes[0] == if endian == Endian::Little { 255u8 } else { 254u8 });
    assert(bytes[1] == if endian == Endian::Little { 254u8 } else { 255u8 });
    which_files_are_text(bytes);
    let back = document::utf16_units(bytes, endian);
    assert forall|i: int| 0 <= i < units.len() implies back[i] == units[i] by {
        assert((2 * i) / 2 == i && (2 * i + 1) / 2 == i);
        assert((2 * i) % 2 == 0 && (2 * i + 1) % 2 == 1);
        let unit = units[i];
        assert(unit as int == (unit % 256) + 256 * (unit / 256));
    }
    assert(back =~= units);
    units_read_back(marked);
    a_mark_is_taken_off_once(whole);
}

} // verus!
