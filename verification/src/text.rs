//! Text as sequences of characters, and the string operations the other
//! modules are written with.

use vstd::prelude::*;

verus! {

/// `String::push` puts one character behind what the string holds already.
pub assume_specification[ String::push ](string: &mut String, c: char)
    ensures
        final(string)@ == old(string)@.push(c),
;

/// The text that `{:?}` writes for a string: the string between double
/// quotes, with what would not print escaped.
pub uninterp spec fn debug_text(text: Seq<char>) -> Seq<char>;

/// The `Debug` form of `text`, as `<str as core::fmt::Debug>` writes it.
#[verifier::external_body]
pub(crate) fn quoted(text: &str) -> (shown: String)
    ensures
        shown@ == debug_text(text@),
{
    format!("{:?}", text)
}

// ---------------------------------------------------------------------------
// Views

/// The texts of a sequence of strings.
pub open spec fn texts(strings: Seq<String>) -> Seq<Seq<char>> {
    Seq::new(strings.len(), |i: int| strings[i]@)
}

/// One more string has one more text.
pub proof fn texts_push(strings: Seq<String>, string: String)
    ensures
        texts(strings.push(string)) == texts(strings).push(string@),
{
    assert(texts(strings.push(string)) =~= texts(strings).push(string@));
}

/// The texts of a sequence of string slices.
pub open spec fn slice_texts(strings: Seq<&'static str>) -> Seq<Seq<char>> {
    Seq::new(strings.len(), |i: int| strings[i]@)
}

/// The text of an optional string.
pub open spec fn option_text(text: Option<String>) -> Option<Seq<char>> {
    match text {
        Some(text) => Some(text@),
        None => None,
    }
}

/// The text of an optional string slice.
pub open spec fn option_str(text: Option<&str>) -> Option<Seq<char>> {
    match text {
        Some(text) => Some(text@),
        None => None,
    }
}

// ---------------------------------------------------------------------------
// Conversions

/// The characters of `text`, in order.
pub fn chars_of(text: &str) -> (chars: Vec<char>)
    ensures
        chars@ == text@,
{
    let mut chars: Vec<char> = Vec::new();
    for c in it: text.chars()
        invariant
            chars@ =~= it.seq().take(it.index()),
            it.seq() == text@,
    {
        chars.push(c);
    }
    chars
}

/// The string of the characters of `chars` from `from` up to, and not with, `to`.
pub fn string_of(chars: &[char], from: usize, to: usize) -> (text: String)
    requires
        from <= to <= chars@.len(),
    ensures
        text@ == chars@.subrange(from as int, to as int),
{
    let mut text = String::new();
    let mut i: usize = from;
    while i < to
        invariant
            from <= i <= to <= chars@.len(),
            text@ =~= chars@.subrange(from as int, i as int),
        decreases to - i,
    {
        text.push(chars[i]);
        i += 1;
    }
    text
}

/// A copy of every string, in order.
pub fn clone_texts(strings: &Vec<String>) -> (copy: Vec<String>)
    ensures
        copy@ == strings@,
{
    let mut copy: Vec<String> = Vec::new();
    let mut i: usize = 0;
    while i < strings.len()
        invariant
            i <= strings@.len(),
            copy@ =~= strings@.take(i as int),
        decreases strings@.len() - i,
    {
        copy.push(strings[i].clone());
        i += 1;
    }
    copy
}

// ---------------------------------------------------------------------------
// Comparison

/// Whether two texts hold the same characters.
pub fn same(left: &str, right: &str) -> (equal: bool)
    ensures
        equal == (left@ == right@),
{
    left.to_owned() == right.to_owned()
}

/// The order of texts by their characters: the first place where they differ
/// decides, and a text comes before what it begins.
pub open spec fn before(left: Seq<char>, right: Seq<char>) -> bool
    decreases left.len(),
{
    if right.len() == 0 {
        false
    } else if left.len() == 0 {
        true
    } else if left[0] == right[0] {
        before(left.drop_first(), right.drop_first())
    } else {
        left[0] < right[0]
    }
}

/// Whether `left` comes before `right` in the order of `before`.
pub fn comes_before(left: &str, right: &str) -> (less: bool)
    ensures
        less == before(left@, right@),
{
    let a = chars_of(left);
    let b = chars_of(right);
    let mut i: usize = 0;
    proof {
        assert(a@.skip(0) =~= a@);
        assert(b@.skip(0) =~= b@);
    }
    while i < a.len() && i < b.len()
        invariant
            a@ == left@,
            b@ == right@,
            i <= a@.len(),
            i <= b@.len(),
            before(left@, right@) == before(a@.skip(i as int), b@.skip(i as int)),
        decreases a@.len() - i,
    {
        proof {
            assert(a@.skip(i as int)[0] == a@[i as int]);
            assert(b@.skip(i as int)[0] == b@[i as int]);
            assert(a@.skip(i as int).drop_first() =~= a@.skip(i + 1));
            assert(b@.skip(i as int).drop_first() =~= b@.skip(i + 1));
        }
        if a[i] != b[i] {
            return a[i] < b[i];
        }
        i += 1;
    }
    i < b.len()
}

/// No text comes before itself.
pub proof fn before_is_irreflexive(text: Seq<char>)
    ensures
        !before(text, text),
    decreases text.len(),
{
    if text.len() > 0 {
        before_is_irreflexive(text.drop_first());
    }
}

/// Of two different texts one comes before the other.
pub proof fn before_is_total(left: Seq<char>, right: Seq<char>)
    ensures
        left == right || before(left, right) || before(right, left),
    decreases left.len(),
{
    if left.len() > 0 && right.len() > 0 {
        if left[0] == right[0] {
            before_is_total(left.drop_first(), right.drop_first());
            if left.drop_first() == right.drop_first() {
                assert(left =~= seq![left[0]] + left.drop_first());
                assert(right =~= seq![right[0]] + right.drop_first());
            }
        }
    } else if left.len() == 0 && right.len() == 0 {
        assert(left =~= right);
    }
}

/// What comes before a text comes before all that the text comes before.
pub proof fn before_is_transitive(first: Seq<char>, second: Seq<char>, third: Seq<char>)
    requires
        before(first, second),
        before(second, third),
    ensures
        before(first, third),
    decreases first.len(),
{
    if first.len() > 0 && first[0] == second[0] && second[0] == third[0] {
        before_is_transitive(first.drop_first(), second.drop_first(), third.drop_first());
    }
}

/// The place of a text among texts in order: behind those it does not come
/// before.
pub open spec fn place_among(sorted: Seq<Seq<char>>, text: Seq<char>, i: int) -> int
    decreases sorted.len() - i,
{
    if i >= sorted.len() || before(text, sorted[i]) {
        i
    } else {
        place_among(sorted, text, i + 1)
    }
}

/// Texts in their order.
pub open spec fn in_order(texts: Seq<Seq<char>>) -> Seq<Seq<char>>
    decreases texts.len(),
{
    if texts.len() == 0 {
        Seq::empty()
    } else {
        let others = in_order(texts.drop_last());
        others.insert(place_among(others, texts.last(), 0), texts.last())
    }
}

/// Texts of which none comes before an earlier one.
pub open spec fn sorted(texts: Seq<Seq<char>>) -> bool {
    forall|i: int, j: int| 0 <= i < j < texts.len() ==> !before(#[trigger] texts[j], #[trigger] texts[i])
}

/// A place lies where it was looked for, behind what the text does not come
/// before, and in front of what it comes before.
pub proof fn place_divides(sorted: Seq<Seq<char>>, text: Seq<char>, i: int)
    requires
        0 <= i <= sorted.len(),
    ensures
        i <= place_among(sorted, text, i) <= sorted.len(),
        forall|j: int| i <= j < place_among(sorted, text, i) ==> !before(text, #[trigger] sorted[j]),
        place_among(sorted, text, i) < sorted.len() ==> before(
            text,
            sorted[place_among(sorted, text, i)],
        ),
    decreases sorted.len() - i,
{
    if i < sorted.len() && !before(text, sorted[i]) {
        place_divides(sorted, text, i + 1);
    }
}

/// Texts in their order are in order, and are the texts that came.
pub proof fn ordering_sorts(texts: Seq<Seq<char>>)
    ensures
        sorted(in_order(texts)),
        in_order(texts).len() == texts.len(),
        in_order(texts).to_multiset() == texts.to_multiset(),
    decreases texts.len(),
{
    broadcast use vstd::seq_lib::group_to_multiset_ensures;

    if texts.len() > 0 {
        let others = in_order(texts.drop_last());
        let last = texts.last();
        ordering_sorts(texts.drop_last());
        place_divides(others, last, 0);
        let place = place_among(others, last, 0);
        let all = others.insert(place, last);
        assert(texts =~= texts.drop_last().push(last));
        assert(all.to_multiset() == others.to_multiset().insert(last));
        assert forall|i: int, j: int| 0 <= i < j < all.len() implies !before(
            #[trigger] all[j],
            #[trigger] all[i],
        ) by {
            if i == place {
                let other = others[j - 1];
                assert(all[j] == other);
                if before(other, last) {
                    before_is_transitive(other, last, others[place]);
                    before_is_irreflexive(other);
                }
            }
        }
    } else {
        assert(in_order(texts) =~= texts);
    }
}

/// Puts a text in its place among texts in order.
pub fn place_text(list: &mut Vec<String>, text: String)
    ensures
        texts(final(list)@) == texts(old(list)@).insert(
            place_among(texts(old(list)@), text@, 0),
            text@,
        ),
{
    let ghost models = texts(list@);
    let ghost added = text@;
    let mut place: usize = 0;
    while place < list.len() && !comes_before(text.as_str(), list[place].as_str())
        invariant
            list@ == old(list)@,
            models == texts(list@),
            place <= list@.len(),
            place_among(models, text@, 0) == place_among(models, text@, place as int),
        decreases list@.len() - place,
    {
        assert(models[place as int] == list@[place as int]@);
        place += 1;
    }
    proof {
        if place < list@.len() {
            assert(models[place as int] == list@[place as int]@);
        }
    }
    list.insert(place, text);
    assert(texts(list@) =~= models.insert(place as int, added));
}

// ---------------------------------------------------------------------------
// White space

/// Unicode's `White_Space` property.
pub open spec fn whitespace(c: char) -> bool {
    ||| '\t' <= c <= '\r'
    ||| c == ' ' || c == '\u{85}' || c == '\u{a0}' || c == '\u{1680}'
    ||| '\u{2000}' <= c <= '\u{200a}'
    ||| c == '\u{2028}' || c == '\u{2029}' || c == '\u{202f}' || c == '\u{205f}'
    ||| c == '\u{3000}'
}

/// Whether `c` has Unicode's `White_Space` property.
pub fn is_whitespace(c: char) -> (yes: bool)
    ensures
        yes == whitespace(c),
{
    ('\t' <= c && c <= '\r') || c == ' ' || c == '\u{85}' || c == '\u{a0}' || c == '\u{1680}'
        || ('\u{2000}' <= c && c <= '\u{200a}') || c == '\u{2028}' || c == '\u{2029}'
        || c == '\u{202f}' || c == '\u{205f}' || c == '\u{3000}'
}

/// A text that white space stands in.
pub open spec fn spaced(text: Seq<char>) -> bool {
    exists|i: int| 0 <= i < text.len() && whitespace(#[trigger] text[i])
}

/// Whether white space stands anywhere in `text`.
pub fn is_spaced(text: &str) -> (yes: bool)
    ensures
        yes == spaced(text@),
{
    let chars = chars_of(text);
    let mut i: usize = 0;
    while i < chars.len()
        invariant
            chars@ == text@,
            i <= chars@.len(),
            forall|j: int| 0 <= j < i ==> !whitespace(#[trigger] text@[j]),
        decreases chars@.len() - i,
    {
        if is_whitespace(chars[i]) {
            assert(whitespace(text@[i as int]));
            return true;
        }
        i += 1;
    }
    false
}

/// A text of white space alone, the empty text among them.
pub open spec fn blank(text: Seq<char>) -> bool {
    forall|i: int| 0 <= i < text.len() ==> whitespace(#[trigger] text[i])
}

/// Whether nothing is left of `text` once white space is trimmed from its ends.
pub fn is_blank(text: &str) -> (yes: bool)
    ensures
        yes == blank(text@),
{
    let chars = chars_of(text);
    let mut i: usize = 0;
    while i < chars.len()
        invariant
            chars@ == text@,
            i <= chars@.len(),
            forall|j: int| 0 <= j < i ==> whitespace(#[trigger] text@[j]),
        decreases chars@.len() - i,
    {
        if !is_whitespace(chars[i]) {
            assert(!whitespace(text@[i as int]));
            return false;
        }
        i += 1;
    }
    true
}

// ---------------------------------------------------------------------------
// Searching

/// Whether `c` is among the characters of `text`.
pub fn has_char(text: &str, c: char) -> (yes: bool)
    ensures
        yes == text@.contains(c),
{
    let chars = chars_of(text);
    let mut i: usize = 0;
    while i < chars.len()
        invariant
            chars@ == text@,
            i <= chars@.len(),
            forall|j: int| 0 <= j < i ==> text@[j] != c,
        decreases chars@.len() - i,
    {
        if chars[i] == c {
            assert(text@[i as int] == c);
            return true;
        }
        i += 1;
    }
    false
}

/// Whether `text` is among `strings`.
pub fn has_text(strings: &Vec<String>, text: &str) -> (yes: bool)
    ensures
        yes == texts(strings@).contains(text@),
{
    let mut i: usize = 0;
    while i < strings.len()
        invariant
            i <= strings@.len(),
            forall|j: int| 0 <= j < i ==> texts(strings@)[j] != text@,
        decreases strings@.len() - i,
    {
        if same(strings[i].as_str(), text) {
            assert(texts(strings@)[i as int] == text@);
            return true;
        }
        i += 1;
    }
    false
}

/// A text that begins with another one.
pub open spec fn begins_with(text: Seq<char>, head: Seq<char>) -> bool {
    head.len() <= text.len() && text.take(head.len() as int) == head
}

/// Whether `text` begins with `head`.
pub fn has_head(text: &str, head: &str) -> (yes: bool)
    ensures
        yes == begins_with(text@, head@),
{
    let a = chars_of(text);
    let b = chars_of(head);
    if b.len() > a.len() {
        return false;
    }
    let start = string_of(a.as_slice(), 0, b.len());
    assert(start@ =~= text@.take(head@.len() as int));
    same(start.as_str(), head)
}

/// A text that ends in another one.
pub open spec fn ends_in(text: Seq<char>, tail: Seq<char>) -> bool {
    tail.len() <= text.len() && text.skip(text.len() - tail.len()) == tail
}

/// Whether `text` ends in `tail`.
pub fn has_tail(text: &str, tail: &str) -> (yes: bool)
    ensures
        yes == ends_in(text@, tail@),
{
    let a = chars_of(text);
    let b = chars_of(tail);
    if b.len() > a.len() {
        return false;
    }
    let start: usize = a.len() - b.len();
    let end = string_of(a.as_slice(), start, a.len());
    assert(end@ =~= text@.skip(text@.len() - tail@.len()));
    same(end.as_str(), tail)
}

/// The place of the first `c` from `i` on, or the end.
pub open spec fn next_at(text: Seq<char>, c: char, i: int) -> int
    decreases text.len() - i,
{
    if i >= text.len() {
        text.len() as int
    } else if text[i] == c {
        i
    } else {
        next_at(text, c, i + 1)
    }
}

/// The first `c` is at `i` or behind it, and not behind the end.
pub proof fn next_at_is_ahead(text: Seq<char>, c: char, i: int)
    ensures
        i <= text.len() ==> i <= next_at(text, c, i) <= text.len(),
        i <= next_at(text, c, i) < text.len() ==> text[next_at(text, c, i)] == c,
        forall|j: int| i <= j < next_at(text, c, i) && 0 <= j < text.len() ==> text[j] != c,
    decreases text.len() - i,
{
    if i < text.len() && text[i] != c {
        next_at_is_ahead(text, c, i + 1);
    }
}

/// Where the first `c` from `from` on is, or the end.
pub fn find_from(chars: &Vec<char>, c: char, from: usize) -> (at: usize)
    requires
        from <= chars@.len(),
    ensures
        at == next_at(chars@, c, from as int),
        from <= at <= chars@.len(),
{
    let mut at: usize = from;
    while at < chars.len() && chars[at] != c
        invariant
            from <= at <= chars@.len(),
            next_at(chars@, c, from as int) == next_at(chars@, c, at as int),
        decreases chars@.len() - at,
    {
        at += 1;
    }
    at
}

// ---------------------------------------------------------------------------
// Numbers

/// The ten decimal digits.
pub const DIGITS: [char; 10] = ['0', '1', '2', '3', '4', '5', '6', '7', '8', '9'];

/// `n` written in decimal, with no leading zero.
pub open spec fn decimal(n: nat) -> Seq<char>
    decreases n,
{
    if n < 10 {
        seq![DIGITS[n as int]]
    } else {
        decimal(n / 10).push(DIGITS[(n % 10) as int])
    }
}

/// `n` written in decimal.
pub fn decimal_of(n: usize) -> (text: String)
    ensures
        text@ == decimal(n as nat),
    decreases n,
{
    if n < 10 {
        let mut text = String::new();
        text.push(DIGITS[n]);
        text
    } else {
        let mut text = decimal_of(n / 10);
        text.push(DIGITS[n % 10]);
        text
    }
}

} // verus!
