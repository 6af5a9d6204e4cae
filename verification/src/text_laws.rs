//! What the operations on texts, numbers and paths come to.

use crate::emit;
use crate::path;
use crate::text;
use vstd::prelude::*;

verus! {

// ---------------------------------------------------------------------------
// Texts

/// Two texts agree up to a place, where the first has ended or has the smaller
/// character.
pub open spec fn smaller_at(left: Seq<char>, right: Seq<char>, at: int) -> bool {
    &&& 0 <= at <= left.len()
    &&& at < right.len()
    &&& forall|i: int| 0 <= i < at ==> #[trigger] left[i] == right[i]
    &&& at == left.len() || left[at] < right[at]
}

/// One text comes before another just where it is the other's beginning and
/// shorter, or has the smaller character in the first place where they differ.
pub proof fn texts_stand_as_in_a_dictionary(left: Seq<char>, right: Seq<char>)
    ensures
        text::before(left, right) <==> exists|at: int| #[trigger] smaller_at(left, right, at),
    decreases left.len(),
{
    if left.len() > 0 && right.len() > 0 && left[0] == right[0] {
        let (a, b) = (left.drop_first(), right.drop_first());
        texts_stand_as_in_a_dictionary(a, b);
        if text::before(left, right) {
            let at = choose|at: int| #[trigger] smaller_at(a, b, at);
            assert forall|i: int| 0 <= i < at + 1 implies #[trigger] left[i] == right[i] by {
                if i > 0 {
                    assert(a[i - 1] == b[i - 1]);
                }
            }
            assert(smaller_at(left, right, at + 1));
        }
        if exists|at: int| #[trigger] smaller_at(left, right, at) {
            let at = choose|at: int| #[trigger] smaller_at(left, right, at);
            assert(at > 0);
            assert forall|i: int| 0 <= i < at - 1 implies #[trigger] a[i] == b[i] by {
                assert(left[i + 1] == right[i + 1]);
            }
            assert(smaller_at(a, b, at - 1));
        }
    } else {
        if text::before(left, right) {
            assert(smaller_at(left, right, 0));
        }
        if exists|at: int| #[trigger] smaller_at(left, right, at) {
            let at = choose|at: int| #[trigger] smaller_at(left, right, at);
            if at > 0 {
                assert(left[0] == right[0]);
            }
        }
    }
}

/// The number that digits stand for.
pub open spec fn number_of(digits: Seq<char>) -> int
    decreases digits.len(),
{
    if digits.len() == 0 {
        0
    } else {
        number_of(digits.drop_last()) * 10 + (digits.last() as int - 48)
    }
}

/// A number is written with the digits that stand for it, and with no zero in
/// front of others.
pub proof fn numbers_are_written_in_decimal(n: nat)
    ensures
        number_of(text::decimal(n)) == n,
        text::decimal(n).len() > 0,
        n > 0 ==> text::decimal(n)[0] != '0',
        n == 0 ==> text::decimal(n) == seq!['0'],
        forall|i: int|
            0 <= i < text::decimal(n).len() ==> '0' <= #[trigger] text::decimal(n)[i] <= '9',
    decreases n,
{
    let digits = text::decimal(n);
    assert(forall|d: int|
        0 <= d < 10 ==> #[trigger] text::DIGITS[d] as int == 48 + d) by {
        assert(text::DIGITS[0] == '0' && text::DIGITS[1] == '1' && text::DIGITS[2] == '2');
        assert(text::DIGITS[3] == '3' && text::DIGITS[4] == '4' && text::DIGITS[5] == '5');
        assert(text::DIGITS[6] == '6' && text::DIGITS[7] == '7' && text::DIGITS[8] == '8');
        assert(text::DIGITS[9] == '9');
    }
    if n < 10 {
        assert(digits =~= seq![text::DIGITS[n as int]]);
        assert(digits.drop_last() =~= Seq::empty());
        assert(number_of(digits.drop_last()) == 0);
        if n == 0 {
            assert(digits =~= seq!['0']);
        }
    } else {
        numbers_are_written_in_decimal(n / 10);
        assert(digits.drop_last() =~= text::decimal(n / 10));
        assert(digits[0] == text::decimal(n / 10)[0]);
    }
}

/// What a number is written as tells it from every other number.
pub proof fn numbers_can_be_told_apart(one: nat, other: nat)
    requires
        text::decimal(one) == text::decimal(other),
    ensures
        one == other,
{
    numbers_are_written_in_decimal(one);
    numbers_are_written_in_decimal(other);
}

/// A character is looked for from a place on, and the first is found, or the
/// end where there is none.
pub proof fn the_first_from_there_is_found(whole: Seq<char>, c: char, from: int)
    requires
        0 <= from <= whole.len(),
    ensures
        from <= text::next_at(whole, c, from) <= whole.len(),
        text::next_at(whole, c, from) < whole.len() ==> whole[text::next_at(whole, c, from)] == c,
        forall|i: int| from <= i < text::next_at(whole, c, from) ==> #[trigger] whole[i] != c,
{
    text::next_at_is_ahead(whole, c, from);
}

/// White space is the space, the tab, the line ends, and the spaces of other
/// scripts; no letter, digit or sign of ASCII is.
pub proof fn what_white_space_is(c: char)
    ensures
        c == ' ' || c == '\t' || c == '\n' || c == '\r' || c == '\u{b}' || c == '\u{c}'
            ==> text::whitespace(c),
        c == '\u{85}' || c == '\u{a0}' || c == '\u{1680}' || c == '\u{2028}' || c == '\u{2029}'
            || c == '\u{202f}' || c == '\u{205f}' || c == '\u{3000}' ==> text::whitespace(c),
        '\u{2000}' <= c <= '\u{200a}' ==> text::whitespace(c),
        '!' <= c <= '~' ==> !text::whitespace(c),
        c < '\t' || ('\r' < c && c < ' ') ==> !text::whitespace(c),
        c > '\u{3000}' ==> !text::whitespace(c),
{
}

// ---------------------------------------------------------------------------
// Lines that go out

/// Lines go out one behind the other, each with a line feed behind it.
pub proof fn every_line_is_ended(first: Seq<Seq<u8>>, second: Seq<Seq<u8>>, line: Seq<u8>)
    ensures
        emit::terminated(Seq::empty()) == Seq::<u8>::empty(),
        emit::terminated(seq![line]) == line + seq![10u8],
        emit::terminated(first + second) == emit::terminated(first) + emit::terminated(second),
    decreases second.len(),
{
    assert(seq![line].drop_last() =~= Seq::empty());
    assert(emit::terminated(seq![line].drop_last()) =~= Seq::empty());
    assert(emit::terminated(seq![line]) =~= line + seq![10u8]);
    if second.len() > 0 {
        every_line_is_ended(first, second.drop_last(), line);
        assert((first + second).drop_last() =~= first + second.drop_last());
        assert(emit::terminated(first + second) =~= emit::terminated(first) + emit::terminated(
            second,
        ));
    } else {
        assert(first + second =~= first);
        assert(emit::terminated(first) + emit::terminated(second) =~= emit::terminated(first));
    }
}

/// What is said at the end: the summary on a line, or why nothing was written.
pub proof fn what_is_said_at_the_end(summary: Seq<char>, why: Seq<char>)
    ensures
        emit::told(summary, Ok(())) == summary.push('\n'),
        emit::told(summary, Err(why)).take(35) == "recon: could not write the output: "@,
        emit::told(summary, Err(why)).skip(35) == why.push('\n'),
{
    reveal_strlit("\n");
    reveal_strlit("recon: could not write the output: ");
    assert(emit::told(summary, Ok(())) =~= summary.push('\n'));
    assert(emit::told(summary, Err(why)).take(35) =~= "recon: could not write the output: "@);
    assert(emit::told(summary, Err(why)).skip(35) =~= why.push('\n'));
}

// ---------------------------------------------------------------------------
// Paths

/// A path is made of what stands between its slashes, but for what is empty or
/// a single dot.
pub proof fn what_a_path_is_made_of(front: Seq<u8>, back: Seq<u8>, part: Seq<u8>)
    requires
        forall|i: int| 0 <= i < part.len() ==> #[trigger] part[i] != 47,
    ensures
        path::parts(front + seq![47u8] + back) == path::parts(front) + path::parts(back),
        part.len() == 0 || part == seq![46u8] ==> path::parts(part) == Seq::<Seq<u8>>::empty(),
        part.len() > 0 && part != seq![46u8] ==> path::parts(part) == seq![part],
{
    path::parts_on_both_sides(front, back, 0);
    assert(front.push(path::SEPARATOR) + back =~= front + seq![47u8] + back);
    path::separator_is_ahead(part, 0);
    let end = path::separator_from(part, 0);
    assert(end == part.len());
    assert(part.subrange(0, end) =~= part);
    assert(path::parts_from(part, end + 1) =~= Seq::empty());
    assert(seq![part] + Seq::<Seq<u8>>::empty() =~= seq![part]);
}

/// Parts are put together with a slash between each two, and a slash in front
/// where the path begins at the root.
pub proof fn how_parts_are_put_together(first: Seq<Seq<u8>>, second: Seq<Seq<u8>>, part: Seq<u8>)
    requires
        first.len() > 0,
        second.len() > 0,
    ensures
        path::joined(seq![part]) == part,
        path::joined(first + second) == path::joined(first) + seq![47u8] + path::joined(second),
        path::rendered(true, first) == seq![47u8] + path::joined(first),
        path::rendered(false, first) == path::joined(first),
        path::rendered(true, Seq::empty()) == seq![47u8],
        path::rendered(false, Seq::empty()) == Seq::<u8>::empty(),
    decreases second.len(),
{
    assert((first + second).drop_last() =~= first + second.drop_last());
    assert(path::joined(Seq::empty()) =~= Seq::empty());
    assert(path::rendered(true, Seq::empty()) =~= seq![47u8]);
    if second.len() > 1 {
        how_parts_are_put_together(first, second.drop_last(), part);
    } else {
        assert(first + second.drop_last() =~= first);
        assert(path::joined(second) == second[0]);
    }
    assert(path::joined(first + second) =~= path::joined(first) + seq![47u8] + path::joined(second));
}

/// A step up takes back the step before it, one at the start takes back
/// nothing, and every other step is kept. No step up is left.
pub proof fn what_a_step_up_does(
    front: Seq<Seq<u8>>,
    step: Seq<u8>,
    back: Seq<Seq<u8>>,
    plain: Seq<Seq<u8>>,
)
    requires
        step != seq![46u8, 46u8],
        forall|i: int| 0 <= i < plain.len() ==> #[trigger] plain[i] != seq![46u8, 46u8],
    ensures
        path::resolved(front + seq![step, seq![46u8, 46u8]] + back) == path::resolved(front + back),
        path::resolved(seq![seq![46u8, 46u8]] + back) == path::resolved(back),
        path::resolved(plain) == plain,
    decreases back.len(),
{
    let up = seq![46u8, 46u8];
    path::nothing_to_carry_out(plain);
    if back.len() > 0 {
        what_a_step_up_does(front, step, back.drop_last(), plain);
        assert((front + seq![step, up] + back).drop_last() =~= front + seq![step, up]
            + back.drop_last());
        assert((front + back).drop_last() =~= front + back.drop_last());
        assert((seq![up] + back).drop_last() =~= seq![up] + back.drop_last());
    } else {
        let there = front + seq![step];
        let again = front + seq![step, up];
        assert(again + back =~= again);
        assert(front + back =~= front);
        assert(again.drop_last() =~= there);
        assert(there.drop_last() =~= front);
        assert(path::resolved(there).drop_last() =~= path::resolved(front));
        assert(seq![up] + back =~= seq![up]);
        assert(seq![up].drop_last() =~= Seq::empty());
        assert(path::resolved(seq![up].drop_last()) =~= Seq::empty());
        assert(path::resolved(back) =~= Seq::empty());
    }
}

/// A path that begins at the root leads to the same place from everywhere, and
/// another leads to where it leads behind the directory one stands in.
pub proof fn where_a_path_leads(path: Seq<u8>, cwd: Seq<u8>, elsewhere: Seq<u8>)
    ensures
        path.len() > 0 && path[0] == 47 ==> path::lexically_absolute(path, cwd)
            == path::lexically_absolute(path, elsewhere),
        path.len() == 0 || path[0] != 47 ==> path::lexically_absolute(path, cwd)
            == path::lexically_absolute(seq![47u8] + cwd + seq![47u8] + path, elsewhere),
        path::lexically_absolute(path, cwd).len() > 0,
        path::lexically_absolute(path, cwd)[0] == 47,
{
    let whole = seq![47u8] + cwd + seq![47u8] + path;
    let empty: Seq<u8> = Seq::empty();
    what_a_path_is_made_of(seq![47u8] + cwd, path, empty);
    what_a_path_is_made_of(empty, cwd, empty);
    assert(empty + seq![47u8] + cwd =~= seq![47u8] + cwd);
    assert(path::parts(empty) + path::parts(cwd) =~= path::parts(cwd));
    assert(whole[0] == 47);
}

} // verus!
