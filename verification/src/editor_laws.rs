//! How a command is made from a template, told of every way to write one.

use crate::editor;
use crate::editor::TemplateError;
use crate::path;
use crate::text;
use vstd::prelude::*;

verus! {

// ---------------------------------------------------------------------------
// Splitting

/// A piece of an argument, as it can be written.
pub enum Bit {
    /// A character that stands for itself.
    Plain { c: char },
    /// A character behind a backslash.
    Escaped { c: char },
    /// A text between single quotes.
    Single { text: Seq<char> },
    /// Characters between double quotes, each with whether a backslash stands
    /// before it.
    Double { inner: Seq<(bool, char)> },
}

/// How characters between double quotes are written.
pub open spec fn inner_written(inner: Seq<(bool, char)>) -> Seq<char>
    decreases inner.len(),
{
    if inner.len() == 0 {
        Seq::empty()
    } else {
        (if inner[0].0 {
            seq!['\\', inner[0].1]
        } else {
            seq![inner[0].1]
        }) + inner_written(inner.skip(1))
    }
}

/// What characters between double quotes mean: a backslash is taken off before
/// a double quote or a backslash, and kept before all else.
pub open spec fn inner_meant(inner: Seq<(bool, char)>) -> Seq<char>
    decreases inner.len(),
{
    if inner.len() == 0 {
        Seq::empty()
    } else {
        (if inner[0].0 && inner[0].1 != '"' && inner[0].1 != '\\' {
            seq!['\\', inner[0].1]
        } else {
            seq![inner[0].1]
        }) + inner_meant(inner.skip(1))
    }
}

/// Characters that can be written between double quotes so: what ends the quote
/// or escapes has a backslash before it.
pub open spec fn inner_stands(inner: Seq<(bool, char)>) -> bool {
    forall|k: int|
        0 <= k < inner.len() ==> ((#[trigger] inner[k]).0 || (inner[k].1 != '"' && inner[k].1
            != '\\'))
}

impl Bit {
    /// How the piece is written.
    pub open spec fn written(self) -> Seq<char> {
        match self {
            Bit::Plain { c } => seq![c],
            Bit::Escaped { c } => seq!['\\', c],
            Bit::Single { text } => seq!['\''] + text + seq!['\''],
            Bit::Double { inner } => seq!['"'] + inner_written(inner) + seq!['"'],
        }
    }

    /// What the piece means.
    pub open spec fn meant(self) -> Seq<char> {
        match self {
            Bit::Plain { c } => seq![c],
            Bit::Escaped { c } => seq![c],
            Bit::Single { text } => text,
            Bit::Double { inner } => inner_meant(inner),
        }
    }

    /// Whether the piece can be written so.
    pub open spec fn stands(self) -> bool {
        match self {
            Bit::Plain { c } => !text::whitespace(c) && c != '\'' && c != '"' && c != '\\',
            Bit::Escaped { c } => true,
            Bit::Single { text } => !text.contains('\''),
            Bit::Double { inner } => inner_stands(inner),
        }
    }
}

/// How pieces next to each other are written.
pub open spec fn bits_written(bits: Seq<Bit>) -> Seq<char>
    decreases bits.len(),
{
    if bits.len() == 0 {
        Seq::empty()
    } else {
        bits[0].written() + bits_written(bits.skip(1))
    }
}

/// What pieces next to each other mean: one argument.
pub open spec fn bits_meant(bits: Seq<Bit>) -> Seq<char>
    decreases bits.len(),
{
    if bits.len() == 0 {
        Seq::empty()
    } else {
        bits[0].meant() + bits_meant(bits.skip(1))
    }
}

/// Whether pieces can be written so.
pub open spec fn bits_stand(bits: Seq<Bit>) -> bool {
    forall|k: int| 0 <= k < bits.len() ==> (#[trigger] bits[k]).stands()
}

/// An argument and the white space behind it.
pub struct Word {
    pub bits: Seq<Bit>,
    pub space: Seq<char>,
}

impl Word {
    /// Whether the argument can be written so: it has a piece, and white space
    /// behind it.
    pub open spec fn stands(self) -> bool {
        self.bits.len() > 0 && bits_stand(self.bits) && self.space.len() > 0 && text::blank(self.space)
    }
}

/// How arguments are written.
pub open spec fn words_written(words: Seq<Word>) -> Seq<char>
    decreases words.len(),
{
    if words.len() == 0 {
        Seq::empty()
    } else {
        bits_written(words[0].bits) + (words[0].space + words_written(words.skip(1)))
    }
}

/// What arguments mean.
pub open spec fn words_meant(words: Seq<Word>) -> Seq<Seq<char>> {
    Seq::new(words.len(), |k: int| bits_meant(words[k].bits))
}

/// Whether arguments can be written so.
pub open spec fn words_stand(words: Seq<Word>) -> bool {
    forall|k: int| 0 <= k < words.len() ==> (#[trigger] words[k]).stands()
}

spec fn at(s: Seq<char>, i: int, part: Seq<char>) -> bool {
    0 <= i && i + part.len() <= s.len() && s.subrange(i, i + part.len()) == part
}

proof fn at_both(s: Seq<char>, i: int, first: Seq<char>, second: Seq<char>)
    requires
        at(s, i, first + second),
    ensures
        at(s, i, first),
        at(s, i + first.len(), second),
{
    let both = s.subrange(i, i + first.len() + second.len());
    assert(both == first + second);
    assert(s.subrange(i, i + first.len()) =~= both.take(first.len() as int));
    assert(both.take(first.len() as int) =~= first);
    assert(s.subrange(i + first.len(), i + first.len() + second.len()) =~= both.skip(
        first.len() as int,
    ));
    assert(both.skip(first.len() as int) =~= second);
}

proof fn at_place(s: Seq<char>, i: int, part: Seq<char>, k: int)
    requires
        at(s, i, part),
        0 <= k < part.len(),
    ensures
        s[i + k] == part[k],
{
    assert(s.subrange(i, i + part.len())[k] == s[i + k]);
}

proof fn continued_with_nothing(next: Option<(Seq<char>, int)>)
    ensures
        editor::continued(Seq::empty(), next) == next,
{
    match next {
        Some((text, end)) => assert(Seq::<char>::empty() + text =~= text),
        None => {},
    }
}

proof fn single_is_read(s: Seq<char>, i: int, part: Seq<char>)
    requires
        at(s, i, part),
        !part.contains('\''),
    ensures
        editor::single_quoted(s, i) == editor::continued(
            part,
            editor::single_quoted(s, i + part.len()),
        ),
    decreases part.len(),
{
    if part.len() == 0 {
        assert(part =~= Seq::empty());
        continued_with_nothing(editor::single_quoted(s, i));
    } else {
        let rest = part.skip(1);
        assert(part =~= seq![part[0]] + rest);
        at_both(s, i, seq![part[0]], rest);
        at_place(s, i, part, 0);
        assert(part.contains(part[0]));
        assert forall|k: int| 0 <= k < rest.len() implies rest[k] != '\'' by {
            assert(part[k + 1] == rest[k]);
        }
        single_is_read(s, i + 1, rest);
        editor::continued_twice(seq![part[0]], rest, editor::single_quoted(s, i + part.len()));
    }
}

proof fn double_is_read(s: Seq<char>, i: int, inner: Seq<(bool, char)>)
    requires
        at(s, i, inner_written(inner)),
        inner_stands(inner),
    ensures
        editor::double_quoted(s, i) == editor::continued(
            inner_meant(inner),
            editor::double_quoted(s, i + inner_written(inner).len()),
        ),
    decreases inner.len(),
{
    if inner.len() == 0 {
        continued_with_nothing(editor::double_quoted(s, i));
    } else {
        let rest = inner.skip(1);
        let c = inner[0].1;
        let first = if inner[0].0 {
            seq!['\\', c]
        } else {
            seq![c]
        };
        let meant = if inner[0].0 && c != '"' && c != '\\' {
            seq!['\\', c]
        } else {
            seq![c]
        };
        at_both(s, i, first, inner_written(rest));
        at_place(s, i, first, 0);
        if inner[0].0 {
            at_place(s, i, first, 1);
        }
        assert forall|k: int| 0 <= k < rest.len() implies ((#[trigger] rest[k]).0 || (rest[k].1 != '"'
            && rest[k].1 != '\\')) by {
            assert(inner[k + 1] == rest[k]);
        }
        double_is_read(s, i + first.len(), rest);
        editor::continued_twice(
            meant,
            inner_meant(rest),
            editor::double_quoted(s, i + inner_written(inner).len()),
        );
    }
}

proof fn a_bit_is_read(s: Seq<char>, i: int, bit: Bit)
    requires
        at(s, i, bit.written()),
        bit.stands(),
    ensures
        0 <= i < s.len(),
        !text::whitespace(s[i]),
        editor::piece(s, i) == Ok::<_, TemplateError>((bit.meant(), i + bit.written().len())),
{
    at_place(s, i, bit.written(), 0);
    match bit {
        Bit::Plain { c } => {},
        Bit::Escaped { c } => {
            at_place(s, i, bit.written(), 1);
        },
        Bit::Single { text } => {
            at_both(s, i, seq!['\''] + text, seq!['\'']);
            at_both(s, i, seq!['\''], text);
            at_place(s, i + 1 + text.len(), seq!['\''], 0);
            single_is_read(s, i + 1, text);
            assert(text + Seq::<char>::empty() =~= text);
        },
        Bit::Double { inner } => {
            let written = inner_written(inner);
            at_both(s, i, seq!['"'] + written, seq!['"']);
            at_both(s, i, seq!['"'], written);
            at_place(s, i + 1 + written.len(), seq!['"'], 0);
            double_is_read(s, i + 1, inner);
            assert(inner_meant(inner) + Seq::<char>::empty() =~= inner_meant(inner));
        },
    }
}

spec fn prefixed(read: Seq<char>, next: Result<(Seq<char>, int), TemplateError>) -> Result<
    (Seq<char>, int),
    TemplateError,
> {
    match next {
        Ok((rest, end)) => Ok((read + rest, end)),
        Err(error) => Err(error),
    }
}

proof fn bits_are_read(s: Seq<char>, i: int, bits: Seq<Bit>)
    requires
        at(s, i, bits_written(bits)),
        bits_stand(bits),
    ensures
        editor::argument(s, i) == prefixed(
            bits_meant(bits),
            editor::argument(s, i + bits_written(bits).len()),
        ),
        bits.len() > 0 ==> i < s.len() && !text::whitespace(s[i]),
    decreases bits.len(),
{
    if bits.len() == 0 {
        match editor::argument(s, i) {
            Ok((rest, end)) => assert(Seq::<char>::empty() + rest =~= rest),
            Err(_) => {},
        }
    } else {
        let rest = bits.skip(1);
        at_both(s, i, bits[0].written(), bits_written(rest));
        a_bit_is_read(s, i, bits[0]);
        assert forall|k: int| 0 <= k < rest.len() implies (#[trigger] rest[k]).stands() by {
            assert(rest[k] == bits[k + 1]);
        }
        bits_are_read(s, i + bits[0].written().len(), rest);
        match editor::argument(s, i + bits_written(bits).len()) {
            Ok((more, end)) => assert(bits[0].meant() + (bits_meant(rest) + more) =~= (
            bits[0].meant() + bits_meant(rest)) + more),
            Err(_) => {},
        }
    }
}

proof fn space_is_passed(s: Seq<char>, i: int, space: Seq<char>)
    requires
        at(s, i, space),
        text::blank(space),
    ensures
        editor::arguments(s, i) == editor::arguments(s, i + space.len()),
    decreases space.len(),
{
    if space.len() > 0 {
        let rest = space.skip(1);
        assert(space =~= seq![space[0]] + rest);
        at_both(s, i, seq![space[0]], rest);
        at_place(s, i, space, 0);
        assert(text::whitespace(space[0]));
        assert forall|k: int| 0 <= k < rest.len() implies text::whitespace(#[trigger] rest[k]) by {
            assert(rest[k] == space[k + 1]);
        }
        space_is_passed(s, i + 1, rest);
    }
}

spec fn listed(read: Seq<Seq<char>>, next: Result<Seq<Seq<char>>, TemplateError>) -> Result<
    Seq<Seq<char>>,
    TemplateError,
> {
    match next {
        Ok(rest) => Ok(read + rest),
        Err(error) => Err(error),
    }
}

proof fn words_are_read(s: Seq<char>, i: int, words: Seq<Word>)
    requires
        at(s, i, words_written(words)),
        words_stand(words),
    ensures
        editor::arguments(s, i) == listed(
            words_meant(words),
            editor::arguments(s, i + words_written(words).len()),
        ),
    decreases words.len(),
{
    if words.len() == 0 {
        match editor::arguments(s, i) {
            Ok(rest) => assert(words_meant(words) + rest =~= rest),
            Err(_) => {},
        }
    } else {
        let word = words[0];
        let rest = words.skip(1);
        assert(word.stands());
        let written = bits_written(word.bits);
        at_both(s, i, written, word.space + words_written(rest));
        at_both(s, i + written.len(), word.space, words_written(rest));
        bits_are_read(s, i, word.bits);
        at_place(s, i + written.len(), word.space, 0);
        assert(text::whitespace(word.space[0]));
        let behind = i + written.len();
        assert(editor::argument(s, behind) == Ok::<_, TemplateError>(
            (Seq::<char>::empty(), behind),
        ));
        assert(bits_meant(word.bits) + Seq::<char>::empty() =~= bits_meant(word.bits));
        editor::argument_advances(s, i);
        space_is_passed(s, behind, word.space);
        assert forall|k: int| 0 <= k < rest.len() implies (#[trigger] rest[k]).stands() by {
            assert(rest[k] == words[k + 1]);
        }
        words_are_read(s, behind + word.space.len(), rest);
        assert(words_meant(words) =~= seq![bits_meant(word.bits)] + words_meant(rest));
        match editor::arguments(s, i + words_written(words).len()) {
            Ok(more) => assert(seq![bits_meant(word.bits)] + (words_meant(rest) + more) =~= (seq![
                bits_meant(word.bits),
            ] + words_meant(rest)) + more),
            Err(_) => {},
        }
    }
}

proof fn up_to_the_last(space: Seq<char>, words: Seq<Word>, rest: Seq<char>)
    requires
        text::blank(space),
        words_stand(words),
    ensures
        ({
            let s = space + (words_written(words) + rest);
            let i = (space.len() + words_written(words).len()) as int;
            &&& at(s, i, rest)
            &&& s.len() == i + rest.len()
            &&& editor::arguments(s, 0) == listed(words_meant(words), editor::arguments(s, i))
        }),
{
    let s = space + (words_written(words) + rest);
    assert(s.subrange(0, s.len() as int) =~= s);
    at_both(s, 0, space, words_written(words) + rest);
    at_both(s, space.len() as int, words_written(words), rest);
    space_is_passed(s, 0, space);
    words_are_read(s, space.len() as int, words);
}

/// How a template is split, however it is written: white space parts arguments,
/// pieces next to each other are one argument, quotes and backslashes say what
/// they say, and a backslash at the very end stands for itself. A template of
/// white space alone is refused.
pub proof fn how_a_template_is_split(
    space: Seq<char>,
    words: Seq<Word>,
    last: Seq<Bit>,
    dangling: bool,
)
    requires
        text::blank(space),
        words_stand(words),
        bits_stand(last),
    ensures
        ({
            let end = if dangling {
                seq!['\\']
            } else {
                Seq::empty()
            };
            let template = space + (words_written(words) + (bits_written(last) + end));
            let argv = if last.len() > 0 || dangling {
                words_meant(words).push(bits_meant(last) + end)
            } else {
                words_meant(words)
            };
            editor::template_arguments(template) == if argv.len() == 0 {
                Err(TemplateError::Empty)
            } else {
                Ok(argv)
            }
        }),
{
    let end: Seq<char> = if dangling {
        seq!['\\']
    } else {
        Seq::empty()
    };
    let tail = bits_written(last) + end;
    let s = space + (words_written(words) + tail);
    let i = (space.len() + words_written(words).len()) as int;
    up_to_the_last(space, words, tail);
    at_both(s, i, bits_written(last), end);
    bits_are_read(s, i, last);
    let behind = i + bits_written(last).len();
    let none: Seq<Seq<char>> = Seq::empty();
    if dangling {
        at_place(s, behind, end, 0);
        assert(s[behind] == '\\');
        assert(!text::whitespace('\\'));
        assert(editor::piece(s, behind) == Ok::<_, TemplateError>((seq!['\\'], behind + 1)));
        assert(editor::argument(s, behind + 1) == Ok::<_, TemplateError>(
            (Seq::<char>::empty(), behind + 1),
        ));
        assert(seq!['\\'] + Seq::<char>::empty() =~= end);
        assert(editor::argument(s, behind) == Ok::<_, TemplateError>((end, behind + 1)));
    } else {
        assert(editor::argument(s, behind) == Ok::<_, TemplateError>((end, behind)));
    }
    if last.len() > 0 || dangling {
        assert(i < s.len() && !text::whitespace(s[i]));
        editor::argument_advances(s, i);
        let arg = bits_meant(last) + end;
        assert(editor::argument(s, i) == Ok::<_, TemplateError>((arg, s.len() as int)));
        assert(editor::arguments(s, s.len() as int) == Ok::<_, TemplateError>(none));
        assert(seq![arg] + none =~= seq![arg]);
        assert(words_meant(words) + seq![arg] =~= words_meant(words).push(arg));
    } else {
        assert(tail =~= Seq::empty());
        assert(words_meant(words) + none =~= words_meant(words));
    }
}

/// A template with a quote that nothing closes is refused, for that quote.
pub proof fn a_quote_must_be_closed(
    space: Seq<char>,
    words: Seq<Word>,
    last: Seq<Bit>,
    single: Seq<char>,
    double: Seq<(bool, char)>,
    dangling: bool,
)
    requires
        text::blank(space),
        words_stand(words),
        bits_stand(last),
        !single.contains('\''),
        inner_stands(double),
    ensures
        editor::template_arguments(
            space + (words_written(words) + (bits_written(last) + (seq!['\''] + single))),
        ) == Err::<Seq<Seq<char>>, _>((TemplateError::UnterminatedQuote { quote: '\'' })),
        editor::template_arguments(
            space + (words_written(words) + (bits_written(last) + (seq!['"'] + (inner_written(
                double,
            ) + if dangling {
                seq!['\\']
            } else {
                Seq::empty()
            })))),
        ) == Err::<Seq<Seq<char>>, _>((TemplateError::UnterminatedQuote { quote: '"' })),
{
    let end: Seq<char> = if dangling {
        seq!['\\']
    } else {
        Seq::empty()
    };
    let i = (space.len() + words_written(words).len()) as int;
    let behind = i + bits_written(last).len();
    let rest = seq!['\''] + single;
    let s = space + (words_written(words) + (bits_written(last) + rest));
    up_to_the_last(space, words, bits_written(last) + rest);
    at_both(s, i, bits_written(last), rest);
    bits_are_read(s, i, last);
    at_both(s, behind, seq!['\''], single);
    at_place(s, behind, seq!['\''], 0);
    single_is_read(s, behind + 1, single);
    assert(editor::piece(s, behind) is Err);
    assert(!text::whitespace('\''));
    let other = seq!['"'] + (inner_written(double) + end);
    let t = space + (words_written(words) + (bits_written(last) + other));
    up_to_the_last(space, words, bits_written(last) + other);
    at_both(t, i, bits_written(last), other);
    bits_are_read(t, i, last);
    at_both(t, behind, seq!['"'], inner_written(double) + end);
    at_place(t, behind, seq!['"'], 0);
    at_both(t, behind + 1, inner_written(double), end);
    double_is_read(t, behind + 1, double);
    let last_place = behind + 1 + inner_written(double).len();
    if dangling {
        at_place(t, last_place, end, 0);
    }
    assert(editor::double_quoted(t, last_place) is None);
    assert(editor::piece(t, behind) is Err);
    assert(!text::whitespace('"'));
}

// ---------------------------------------------------------------------------
// Filling in

proof fn found_behind(head: Seq<char>, entry: Seq<char>, c: char, i: int)
    requires
        0 <= i,
    ensures
        text::next_at(head + entry, c, head.len() + i) == head.len() + text::next_at(entry, c, i),
    decreases entry.len() - i,
{
    if i < entry.len() {
        assert((head + entry)[head.len() + i] == entry[i]);
        if entry[i] != c {
            found_behind(head, entry, c, i + 1);
        }
    } else {
        assert(text::next_at(head + entry, c, head.len() + i) == (head + entry).len());
    }
}

proof fn filled_behind(
    head: Seq<char>,
    entry: Seq<char>,
    i: int,
    project: Seq<char>,
    file: Seq<char>,
    line: Seq<char>,
)
    requires
        0 <= i <= entry.len(),
    ensures
        editor::filled(head + entry, head.len() + i, project, file, line) == editor::filled(
            entry,
            i,
            project,
            file,
            line,
        ),
    decreases entry.len() - i,
{
    let whole = head + entry;
    let n = head.len() as int;
    text::next_at_is_ahead(entry, '{', i);
    let open = text::next_at(entry, '{', i);
    text::next_at_is_ahead(entry, '}', open);
    let close = text::next_at(entry, '}', open);
    found_behind(head, entry, '{', i);
    found_behind(head, entry, '}', open);
    if i >= entry.len() || close >= entry.len() {
        assert(whole.skip(n + i) =~= entry.skip(i));
    } else {
        assert(whole.subrange(n + i, n + open) =~= entry.subrange(i, open));
        assert(whole.subrange(n + open + 1, n + close) =~= entry.subrange(open + 1, close));
        filled_behind(head, entry, close + 1, project, file, line);
    }
}

/// How placeholders are filled in: what stands before the first brace is kept,
/// what stands between it and the next closing one says what takes their place,
/// and what stands behind is filled in for itself. A brace that nothing closes
/// is kept, with all that stands behind it.
pub proof fn how_placeholders_are_filled(
    front: Seq<char>,
    name: Seq<char>,
    rest: Seq<char>,
    open: Seq<char>,
    project: Seq<char>,
    file: Seq<char>,
    line: Seq<char>,
)
    requires
        !front.contains('{'),
        !name.contains('}'),
        !open.contains('}'),
    ensures
        editor::filled(front + seq!['{'] + name + seq!['}'] + rest, 0, project, file, line) == front
            + (if name == "project"@ {
            project
        } else if name == "file"@ {
            file
        } else if name == "line"@ {
            line
        } else {
            seq!['{'] + name + seq!['}']
        }) + editor::filled(rest, 0, project, file, line),
        editor::filled(front + seq!['{'] + open, 0, project, file, line) == front + seq!['{']
            + open,
        editor::filled(front, 0, project, file, line) == front,
{
    let head = front + seq!['{'] + name + seq!['}'];
    let entry = head + rest;
    let n = front.len() as int;
    text::next_at_is_ahead(entry, '{', 0);
    let opens = text::next_at(entry, '{', 0);
    assert(entry[n] == '{');
    if opens < n {
        assert(front.contains(entry[opens]));
    }
    if opens > n {
        assert(entry[n] != '{');
    }
    text::next_at_is_ahead(entry, '}', n);
    let closes = text::next_at(entry, '}', n);
    let m = n + 1 + name.len();
    assert(entry[m] == '}');
    if closes > m {
        assert(entry[m] != '}');
    }
    if n < closes < m {
        assert(name[closes - n - 1] == '}');
    }
    assert(entry.subrange(0, n) =~= front);
    assert(entry.subrange(n + 1, m) =~= name);
    filled_behind(head, rest, 0, project, file, line);
    assert(head.len() == m + 1);
    let unclosed = front + seq!['{'] + open;
    text::next_at_is_ahead(unclosed, '{', 0);
    let there = text::next_at(unclosed, '{', 0);
    assert(unclosed[n] == '{');
    if there < n {
        assert(front.contains(unclosed[there]));
    }
    if there > n {
        assert(unclosed[n] != '{');
    }
    text::next_at_is_ahead(unclosed, '}', n);
    let end = text::next_at(unclosed, '}', n);
    if n < end < unclosed.len() {
        assert(open[end - n - 1] == '}');
    }
    assert(unclosed.skip(0) =~= unclosed);
    editor::plain_text_is_kept(front, project, file, line);
}

/// Every argument is filled in for itself, with the line in decimal.
pub proof fn every_argument_is_filled(
    argv: Seq<Seq<char>>,
    project: Seq<char>,
    file: Seq<char>,
    line: nat,
    i: int,
)
    requires
        0 <= i < argv.len(),
    ensures
        editor::substituted(argv, project, file, line).len() == argv.len(),
        editor::substituted(argv, project, file, line)[i] == editor::filled(
            argv[i],
            0,
            project,
            file,
            text::decimal(line),
        ),
{
}

/// An argument that is the project and nothing else is dropped; every other
/// stays where it is.
pub proof fn which_arguments_are_dropped(
    first: Seq<Seq<char>>,
    second: Seq<Seq<char>>,
    entry: Seq<char>,
)
    ensures
        editor::without_project(first + second) == editor::without_project(first)
            + editor::without_project(second),
        entry == "{project}"@ ==> editor::without_project(seq![entry]).len() == 0,
        entry != "{project}"@ ==> editor::without_project(seq![entry]) == seq![entry],
{
    let keeps = |entry: Seq<char>| entry != "{project}"@;
    Seq::filter_distributes_over_add(first, second, keeps);
    reveal(Seq::filter);
    assert(seq![entry].drop_last() =~= Seq::empty());
    assert(seq![entry].drop_last().filter(keeps) =~= Seq::empty());
    assert(seq![entry].last() == entry);
    if entry != "{project}"@ {
        assert(seq![entry].filter(keeps) =~= seq![entry]);
    }
}

// ---------------------------------------------------------------------------
// Quoting

/// A backslash goes before every double quote and every backslash, and before
/// nothing else.
pub proof fn what_is_escaped(first: Seq<char>, second: Seq<char>, c: char)
    ensures
        editor::escaped(first + second) == editor::escaped(first) + editor::escaped(second),
        c == '"' || c == '\\' ==> editor::escaped(seq![c]) == seq!['\\', c],
        c != '"' && c != '\\' ==> editor::escaped(seq![c]) == seq![c],
    decreases second.len(),
{
    assert(seq![c].drop_last() =~= Seq::empty());
    assert(editor::escaped(seq![c].drop_last()) =~= Seq::empty());
    assert(editor::escaped(seq![c]) =~= if c == '"' || c == '\\' {
        seq!['\\', c]
    } else {
        seq![c]
    });
    if second.len() > 0 {
        what_is_escaped(first, second.drop_last(), c);
        assert((first + second).drop_last() =~= first + second.drop_last());
    } else {
        assert(first + second =~= first);
    }
    assert(editor::escaped(first + second) =~= editor::escaped(first) + editor::escaped(second));
}

/// How an argument stands in a template: as it is where it has a character and
/// none of them is white space, a quote or a backslash, between single quotes
/// where it has no single quote, and else between double ones.
pub proof fn how_an_argument_is_quoted(first: Seq<Seq<char>>, second: Seq<Seq<char>>, entry: Seq<char>)
    requires
        first.len() > 0,
        second.len() > 0,
    ensures
        ({
            let bare = entry.len() > 0 && forall|i: int|
                0 <= i < entry.len() ==> !text::whitespace(#[trigger] entry[i]) && entry[i] != '\''
                    && entry[i] != '"' && entry[i] != '\\';
            let single = exists|i: int| 0 <= i < entry.len() && #[trigger] entry[i] == '\'';
            let joined = editor::shell_joined(seq![entry]);
            &&& bare ==> joined == entry
            &&& !bare && !single ==> joined == seq!['\''] + entry + seq!['\'']
            &&& !bare && single ==> joined == seq!['"'] + editor::escaped(entry) + seq!['"']
            &&& editor::toml_text(entry) == if single {
                seq!['"'] + editor::escaped(entry) + seq!['"']
            } else {
                seq!['\''] + entry + seq!['\'']
            }
        }),
        editor::shell_joined(first + second) == editor::shell_joined(first) + seq![' ']
            + editor::shell_joined(second),
    decreases second.len(),
{
    let single = exists|i: int| 0 <= i < entry.len() && #[trigger] entry[i] == '\'';
    if single {
        let i = choose|i: int| 0 <= i < entry.len() && #[trigger] entry[i] == '\'';
        assert(entry.contains('\''));
    }
    if entry.contains('\'') {
        let i = choose|i: int| 0 <= i < entry.len() && entry[i] == '\'';
        assert(entry[i] == '\'');
    }
    let bare = entry.len() > 0 && forall|i: int|
        0 <= i < entry.len() ==> !text::whitespace(#[trigger] entry[i]) && entry[i] != '\''
            && entry[i] != '"' && entry[i] != '\\';
    if bare {
        assert(!editor::needs_quotes(entry));
    } else if entry.len() > 0 {
        let i = choose|i: int|
            0 <= i < entry.len() && !(!text::whitespace(#[trigger] entry[i]) && entry[i] != '\''
                && entry[i] != '"' && entry[i] != '\\');
        assert(entry.contains(entry[i]));
        assert(editor::needs_quotes(entry));
    }
    reveal_strlit(" ");
    assert(" "@ =~= seq![' ']);
    assert((first + second).drop_last() =~= first + second.drop_last());
    if second.len() > 1 {
        how_an_argument_is_quoted(first, second.drop_last(), entry);
    } else {
        assert(first + second.drop_last() =~= first);
    }
    assert(editor::shell_joined(first + second) =~= editor::shell_joined(first) + seq![' ']
        + editor::shell_joined(second));
}

// ---------------------------------------------------------------------------
// The two templates

/// Whether a variable is set to more than white space.
pub open spec fn says_more(variable: Option<Seq<char>>) -> bool {
    variable matches Some(value) && exists|i: int|
        0 <= i < value.len() && !text::whitespace(#[trigger] value[i])
}

/// The editor that the environment names: the one of `$VISUAL` where that says
/// more than white space, else the one of `$EDITOR` where that does. The file
/// goes behind it, unless it says where the file goes.
pub proof fn which_editor_the_environment_names(
    visual: Option<Seq<char>>,
    editor: Option<Seq<char>>,
)
    ensures
        ({
            let named = editor::environment_template(visual, editor);
            let chosen = if says_more(visual) {
                visual->Some_0
            } else {
                editor->Some_0
            };
            &&& named is Some <==> says_more(visual) || says_more(editor)
            &&& named is Some && chosen.contains('{') ==> named->Some_0 == chosen
            &&& named is Some && !chosen.contains('{') ==> named->Some_0 == chosen + " {file}"@
        }),
{
    assert(says_more(visual) == editor::names_editor(visual));
    assert(says_more(editor) == editor::names_editor(editor));
}

/// What is configured comes first, what the environment names next, and the
/// default last. Where no file template is configured, a configured project
/// template that can be split gives one, without the project.
pub proof fn which_templates_are_used(
    project: Option<Seq<char>>,
    file: Option<Seq<char>>,
    environment: Option<Seq<char>>,
)
    ensures
        project is Some ==> editor::resolved_project(project, environment) == project->Some_0,
        project is None && environment is Some ==> editor::resolved_project(project, environment)
            == environment->Some_0,
        project is None && environment is None ==> editor::resolved_project(project, environment)
            == "zed {project} {file}:{line}"@,
        file is Some ==> editor::resolved_file(project, file, environment) == file->Some_0,
        file is None && project is Some && editor::template_arguments(project->Some_0) is Ok
            ==> editor::resolved_file(project, file, environment) == editor::shell_joined(
            editor::without_project(editor::template_arguments(project->Some_0)->Ok_0),
        ),
        file is None && (project is None || editor::template_arguments(project->Some_0) is Err)
            && environment is Some ==> editor::resolved_file(project, file, environment)
            == environment->Some_0,
        file is None && (project is None || editor::template_arguments(project->Some_0) is Err)
            && environment is None ==> editor::resolved_file(project, file, environment)
            == "zed {file}:{line}"@,
{
    let whole = "zed {project} {file}:{line}"@;
    let argv = seq!["zed"@, "{project}"@, "{file}:{line}"@];
    reveal_strlit("zed {project} {file}:{line}");
    reveal_strlit("zed {file}:{line}");
    reveal_strlit("zed");
    reveal_strlit("{project}");
    reveal_strlit("{file}:{line}");
    let (a, b, c) = (seq!["zed"@], seq!["{project}"@], seq!["{file}:{line}"@]);
    assert(argv =~= (a + b) + c);
    how_an_argument_is_quoted(a + b, c, "zed"@);
    how_an_argument_is_quoted(a, b, "{project}"@);
    how_an_argument_is_quoted(a, c, "{file}:{line}"@);
    assert(editor::shell_joined(a) == "zed"@);
    assert(editor::shell_joined(b) == "{project}"@);
    assert(editor::shell_joined(c) == "{file}:{line}"@);
    assert(editor::shell_joined(argv) =~= whole);
    editor::splitting_undoes_joining(argv);
    which_arguments_are_dropped(a + b, c, "zed"@);
    which_arguments_are_dropped(a, b, "{project}"@);
    which_arguments_are_dropped(a, b, "{file}:{line}"@);
    assert("zed"@.len() != "{project}"@.len());
    assert("{file}:{line}"@.len() != "{project}"@.len());
    assert(editor::without_project(argv) =~= a + c);
    assert(editor::shell_joined(a + c) =~= "zed {file}:{line}"@);
}

/// A terminal suggests the editor that runs in it, and one that is not known
/// suggests the default.
pub proof fn which_flavour_a_terminal_suggests(terminal: Seq<char>, flavour: Seq<char>)
    ensures
        ({
            let suggested = editor::wanted_flavour("auto"@, Some(terminal));
            &&& terminal == "WezTerm"@ ==> suggested == "wezterm-nvim"@
            &&& terminal == "ghostty"@ ==> suggested == "ghostty-nvim"@
            &&& terminal == "iTerm.app"@ ==> suggested == "iterm-nvim"@
            &&& terminal == "Apple_Terminal"@ ==> suggested == "terminal-nvim"@
            &&& terminal != "WezTerm"@ && terminal != "ghostty"@ && terminal != "iTerm.app"@
                && terminal != "Apple_Terminal"@ ==> suggested == "zed"@
            &&& editor::wanted_flavour("auto"@, None) == "zed"@
            &&& flavour != "auto"@ ==> editor::wanted_flavour(flavour, Some(terminal)) == flavour
            &&& flavour != "auto"@ ==> editor::wanted_flavour(flavour, None) == flavour
        }),
{
    reveal_strlit("WezTerm");
    reveal_strlit("ghostty");
    reveal_strlit("iTerm.app");
    reveal_strlit("Apple_Terminal");
    assert("WezTerm"@[0] != "ghostty"@[0]);
    assert("WezTerm"@.len() != "iTerm.app"@.len());
    assert("ghostty"@.len() != "iTerm.app"@.len());
    assert("Apple_Terminal"@.len() != "iTerm.app"@.len());
    assert("Apple_Terminal"@.len() != "WezTerm"@.len());
}

/// What is said of a template that cannot be split.
pub proof fn what_is_said_of_a_template(quote: char)
    ensures
        TemplateError::Empty.text() == "editor template is empty"@,
        (TemplateError::UnterminatedQuote { quote }).text() == "editor template has an unclosed "@
            + seq![quote] + " quote"@,
{
    assert("editor template has an unclosed "@.push(quote) =~= "editor template has an unclosed "@
        + seq![quote]);
}

// ---------------------------------------------------------------------------
// The enclosing project

/// Whether a directory holds something that marks a project.
pub open spec fn holds_a_marker(
    present: spec_fn(Seq<u8>) -> bool,
    from_root: bool,
    dir: Seq<Seq<u8>>,
) -> bool {
    exists|marker: int|
        0 <= marker < 6 && present(
            path::rendered(
                from_root,
                dir.push(vstd::utf8::encode_utf8((#[trigger] editor::PROJECT_MARKERS[marker])@)),
            ),
        )
}

/// Where what is at a path does not change, the project is the deepest directory
/// on the way up that holds a marker, or where the walk began where none does.
pub proof fn where_the_project_is<F: Fn(&Vec<u8>) -> bool>(
    asked: F,
    present: spec_fn(Seq<u8>) -> bool,
    from_root: bool,
    start: Seq<Seq<u8>>,
    root: Seq<u8>,
)
    requires
        forall|path: Vec<u8>, answer: bool| #[trigger]
            call_ensures(asked, (&path,), answer) ==> answer == present(path@),
        editor::encloses(asked, from_root, start, root),
    ensures
        exists|depth: int|
            {
                &&& 0 <= depth <= start.len()
                &&& root == path::rendered(from_root, #[trigger] start.take(depth))
                &&& holds_a_marker(present, from_root, start.take(depth)) || (depth == start.len()
                    && forall|any: int|
                    0 <= any <= start.len() ==> !holds_a_marker(
                        present,
                        from_root,
                        #[trigger] start.take(any),
                    ))
                &&& forall|nearer: int|
                    depth < nearer <= start.len() ==> !holds_a_marker(
                        present,
                        from_root,
                        #[trigger] start.take(nearer),
                    )
            },
{
    assert forall|dir: Seq<Seq<u8>>| editor::unmarked(asked, from_root, dir) implies !(
    #[trigger] holds_a_marker(present, from_root, dir)) by {
        if holds_a_marker(present, from_root, dir) {
            let marker = choose|marker: int|
                0 <= marker < 6 && present(
                    path::rendered(
                        from_root,
                        dir.push(
                            vstd::utf8::encode_utf8((#[trigger] editor::PROJECT_MARKERS[marker])@),
                        ),
                    ),
                );
            let bytes = editor::marker_path(from_root, dir, marker);
            assert(editor::answers(asked, bytes, false));
            let path = choose|path: Vec<u8>|
                path@ == bytes && call_ensures(asked, (&path,), false);
            assert(!present(bytes));
        }
    }
    assert forall|dir: Seq<Seq<u8>>| editor::marked(
        asked,
        from_root,
        dir,
    ) implies #[trigger] holds_a_marker(present, from_root, dir) by {
        let marker = choose|marker: int|
            0 <= marker < editor::MARKER_COUNT && #[trigger] editor::answers(
                asked,
                editor::marker_path(from_root, dir, marker),
                true,
            );
        let bytes = editor::marker_path(from_root, dir, marker);
        let path = choose|path: Vec<u8>| path@ == bytes && call_ensures(asked, (&path,), true);
        assert(present(bytes));
        assert(editor::PROJECT_MARKERS[marker]@ == editor::PROJECT_MARKERS[marker]@);
    }
    if exists|depth: int|
        {
            &&& 0 <= depth <= start.len()
            &&& #[trigger] editor::marked(asked, from_root, start.take(depth))
            &&& root == path::rendered(from_root, start.take(depth))
            &&& forall|nearer: int|
                depth < nearer <= start.len() ==> #[trigger] editor::unmarked(
                    asked,
                    from_root,
                    start.take(nearer),
                )
        } {
        let depth = choose|depth: int|
            {
                &&& 0 <= depth <= start.len()
                &&& #[trigger] editor::marked(asked, from_root, start.take(depth))
                &&& root == path::rendered(from_root, start.take(depth))
                &&& forall|nearer: int|
                    depth < nearer <= start.len() ==> #[trigger] editor::unmarked(
                        asked,
                        from_root,
                        start.take(nearer),
                    )
            };
        assert(holds_a_marker(present, from_root, start.take(depth)));
        assert forall|nearer: int| depth < nearer <= start.len() implies !holds_a_marker(
            present,
            from_root,
            #[trigger] start.take(nearer),
        ) by {
            assert(editor::unmarked(asked, from_root, start.take(nearer)));
        }
    } else {
        assert(start.take(start.len() as int) =~= start);
        assert forall|any: int| 0 <= any <= start.len() implies !holds_a_marker(
            present,
            from_root,
            #[trigger] start.take(any),
        ) by {
            assert(editor::unmarked(asked, from_root, start.take(any)));
        }
    }
}

/// The walk begins in a directory: the path itself where it is one, and else
/// the one that it is in. A path is seen from where one stands, unless it
/// begins at the root.
pub proof fn where_the_walk_begins(path: Seq<u8>, cwd: Option<&Vec<u8>>, i: int)
    ensures
        ({
            let whole = if cwd is Some && (path.len() == 0 || path[0] != 47) {
                path::parts(cwd->Some_0@) + path::parts(path)
            } else {
                path::parts(path)
            };
            let above = editor::walk_parts(path, cwd, false);
            &&& editor::walk_parts(path, cwd, true) == whole
            &&& whole.len() == 0 ==> above == whole
            &&& whole.len() > 0 ==> above.len() == whole.len() - 1
            &&& 0 <= i < above.len() ==> above[i] == whole[i]
        }),
{
}

/// A directory is a project's just where it holds the repository, or the file
/// that a build of one of the known kinds begins with.
pub proof fn what_marks_a_project(
    present: spec_fn(Seq<u8>) -> bool,
    from_root: bool,
    dir: Seq<Seq<u8>>,
    name: Seq<char>,
)
    requires
        name == ".git"@ || name == "Cargo.toml"@ || name == "package.json"@ || name
            == "pyproject.toml"@ || name == "setup.py"@ || name == "go.mod"@,
        present(path::rendered(from_root, dir.push(vstd::utf8::encode_utf8(name)))),
    ensures
        holds_a_marker(present, from_root, dir),
{
    let i: int = if name == ".git"@ {
        0
    } else if name == "Cargo.toml"@ {
        1
    } else if name == "package.json"@ {
        2
    } else if name == "pyproject.toml"@ {
        3
    } else if name == "setup.py"@ {
        4
    } else {
        5
    };
    assert(editor::PROJECT_MARKERS[i]@ == name);
}

/// Every flavour that a terminal suggests is one that is known.
pub proof fn what_is_suggested_is_known(terminal: Option<Seq<char>>)
    ensures
        exists|i: int|
            0 <= i < editor::FLAVOUR_COUNT && (#[trigger] editor::FLAVOURS[i]).0@
                == editor::wanted_flavour("auto"@, terminal),
{
    let wanted = editor::wanted_flavour("auto"@, terminal);
    let i: int = if wanted == "wezterm-nvim"@ {
        6
    } else if wanted == "ghostty-nvim"@ {
        8
    } else if wanted == "iterm-nvim"@ {
        5
    } else if wanted == "terminal-nvim"@ {
        4
    } else {
        0
    };
    assert(editor::FLAVOURS[i].0@ == wanted);
}

} // verus!
