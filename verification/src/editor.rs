//! Handing the selected file off to an editor.
//!
//! A command template is split into arguments once, and only then are the
//! project, the file and the line filled into whole arguments. A path never
//! reaches the splitter, so no path can change how a command is split.

use vstd::prelude::*;

use crate::path;
use crate::text;

verus! {

// ---------------------------------------------------------------------------
// Splitting

/// Why a command template could not be turned into arguments.
#[derive(Debug, Clone, Copy, PartialEq, Eq, Structural)]
pub enum TemplateError {
    /// A `'` or `"` was opened and never closed.
    UnterminatedQuote { quote: char },
    /// The template is empty, or is nothing but white space, so there is no
    /// program to run.
    Empty,
}

/// Text read so far, put in front of what is read next.
pub open spec fn continued(
    read: Seq<char>,
    next: Option<(Seq<char>, int)>,
) -> Option<(Seq<char>, int)> {
    match next {
        Some((text, end)) => Some((read + text, end)),
        None => None,
    }
}

/// What stands between single quotes, from behind the opening one at `i`: the
/// text up to the closing quote, and the place behind that. Every character
/// stands for itself. `None` where no quote closes it.
pub open spec fn single_quoted(s: Seq<char>, i: int) -> Option<(Seq<char>, int)>
    decreases s.len() - i,
{
    if i >= s.len() {
        None
    } else if s[i] == '\'' {
        Some((Seq::empty(), i + 1))
    } else {
        continued(seq![s[i]], single_quoted(s, i + 1))
    }
}

/// What stands between double quotes, from behind the opening one at `i`. A
/// backslash escapes a `"` or a `\`, and stands for itself before anything
/// else. `None` where no quote closes it.
pub open spec fn double_quoted(s: Seq<char>, i: int) -> Option<(Seq<char>, int)>
    decreases s.len() - i,
{
    if i >= s.len() {
        None
    } else if s[i] == '"' {
        Some((Seq::empty(), i + 1))
    } else if s[i] != '\\' {
        continued(seq![s[i]], double_quoted(s, i + 1))
    } else if i + 1 >= s.len() {
        None
    } else if s[i + 1] == '"' || s[i + 1] == '\\' {
        continued(seq![s[i + 1]], double_quoted(s, i + 2))
    } else {
        continued(seq!['\\', s[i + 1]], double_quoted(s, i + 2))
    }
}

/// The piece of an argument that begins at `i`: a quoted text, an escaped
/// character or a character that stands for itself. A backslash at the very
/// end stands for itself.
pub open spec fn piece(s: Seq<char>, i: int) -> Result<(Seq<char>, int), TemplateError> {
    if s[i] == '\'' {
        match single_quoted(s, i + 1) {
            Some(read) => Ok(read),
            None => Err(TemplateError::UnterminatedQuote { quote: '\'' }),
        }
    } else if s[i] == '"' {
        match double_quoted(s, i + 1) {
            Some(read) => Ok(read),
            None => Err(TemplateError::UnterminatedQuote { quote: '"' }),
        }
    } else if s[i] == '\\' && i + 1 < s.len() {
        Ok((seq![s[i + 1]], i + 2))
    } else {
        Ok((seq![s[i]], i + 1))
    }
}

/// The argument from `i` on: its pieces joined, up to white space or the end,
/// and the place where it stopped.
pub open spec fn argument(s: Seq<char>, i: int) -> Result<(Seq<char>, int), TemplateError>
    decreases s.len() - i,
{
    proof {
        piece_advances(s, i);
    }
    if i >= s.len() || text::whitespace(s[i]) {
        Ok((Seq::empty(), i))
    } else {
        match piece(s, i) {
            Err(error) => Err(error),
            Ok((first, next)) => match argument(s, next) {
                Err(error) => Err(error),
                Ok((rest, end)) => Ok((first + rest, end)),
            },
        }
    }
}

/// The arguments from `i` on, white space between them.
pub open spec fn arguments(s: Seq<char>, i: int) -> Result<Seq<Seq<char>>, TemplateError>
    decreases s.len() - i,
{
    proof {
        argument_advances(s, i);
    }
    if i >= s.len() {
        Ok(Seq::empty())
    } else if text::whitespace(s[i]) {
        arguments(s, i + 1)
    } else {
        match argument(s, i) {
            Err(error) => Err(error),
            Ok((first, next)) => match arguments(s, next) {
                Err(error) => Err(error),
                Ok(rest) => Ok(seq![first] + rest),
            },
        }
    }
}

/// The arguments of a template, which must have one at least.
pub open spec fn template_arguments(template: Seq<char>) -> Result<Seq<Seq<char>>, TemplateError> {
    match arguments(template, 0) {
        Ok(argv) => if argv.len() == 0 {
            Err(TemplateError::Empty)
        } else {
            Ok(argv)
        },
        Err(error) => Err(error),
    }
}

proof fn single_quoted_advances(s: Seq<char>, i: int)
    ensures
        single_quoted(s, i) matches Some((text, end)) ==> i < end <= s.len(),
    decreases s.len() - i,
{
    if i < s.len() && s[i] != '\'' {
        single_quoted_advances(s, i + 1);
    }
}

proof fn double_quoted_advances(s: Seq<char>, i: int)
    ensures
        double_quoted(s, i) matches Some((text, end)) ==> i < end <= s.len(),
    decreases s.len() - i,
{
    if i < s.len() && s[i] != '"' {
        if s[i] != '\\' {
            double_quoted_advances(s, i + 1);
        } else if i + 1 < s.len() {
            double_quoted_advances(s, i + 2);
        }
    }
}

/// A piece ends behind where it began.
pub proof fn piece_advances(s: Seq<char>, i: int)
    ensures
        i < s.len() ==> (piece(s, i) matches Ok((text, end)) ==> i < end <= s.len()),
{
    single_quoted_advances(s, i + 1);
    double_quoted_advances(s, i + 1);
}

/// An argument ends behind where it began, unless white space stands there.
pub proof fn argument_advances(s: Seq<char>, i: int)
    ensures
        argument(s, i) matches Ok((text, end)) ==> {
            &&& i <= end
            &&& i <= s.len() ==> end <= s.len()
            &&& i < s.len() && !text::whitespace(s[i]) ==> i < end
        },
    decreases s.len() - i,
{
    if i < s.len() && !text::whitespace(s[i]) {
        piece_advances(s, i);
        match piece(s, i) {
            Ok((first, next)) => argument_advances(s, next),
            Err(_) => {},
        }
    }
}

pub proof fn continued_twice(a: Seq<char>, b: Seq<char>, next: Option<(Seq<char>, int)>)
    ensures
        continued(a, continued(b, next)) == continued(a + b, next),
{
    match next {
        Some((text, end)) => assert(a + (b + text) =~= (a + b) + text),
        None => {},
    }
}

/// Reads what `single_quoted` says stands from `from` on.
fn read_single_quoted(chars: &Vec<char>, from: usize) -> (read: Option<(Vec<char>, usize)>)
    requires
        from <= chars@.len(),
    ensures
        match read {
            Some((text, end)) => {
                &&& single_quoted(chars@, from as int) == Some((text@, end as int))
                &&& end <= chars@.len()
            },
            None => single_quoted(chars@, from as int) is None,
        },
{
    let mut text: Vec<char> = Vec::new();
    let mut i: usize = from;
    proof {
        match single_quoted(chars@, from as int) {
            Some((rest, end)) => assert(text@ + rest =~= rest),
            None => {},
        }
    }
    while i < chars.len()
        invariant
            from <= i <= chars@.len(),
            single_quoted(chars@, from as int) == continued(
                text@,
                single_quoted(chars@, i as int),
            ),
        decreases chars@.len() - i,
    {
        if chars[i] == '\'' {
            assert(text@ + Seq::<char>::empty() =~= text@);
            return Some((text, i + 1));
        }
        proof {
            continued_twice(text@, seq![chars@[i as int]], single_quoted(chars@, i + 1));
            assert(text@ + seq![chars@[i as int]] =~= text@.push(chars@[i as int]));
        }
        text.push(chars[i]);
        i += 1;
    }
    None
}

/// Reads what `double_quoted` says stands from `from` on.
fn read_double_quoted(chars: &Vec<char>, from: usize) -> (read: Option<(Vec<char>, usize)>)
    requires
        from <= chars@.len(),
    ensures
        match read {
            Some((text, end)) => {
                &&& double_quoted(chars@, from as int) == Some((text@, end as int))
                &&& end <= chars@.len()
            },
            None => double_quoted(chars@, from as int) is None,
        },
{
    let mut text: Vec<char> = Vec::new();
    let mut i: usize = from;
    proof {
        match double_quoted(chars@, from as int) {
            Some((rest, end)) => assert(text@ + rest =~= rest),
            None => {},
        }
    }
    while i < chars.len()
        invariant
            from <= i <= chars@.len(),
            double_quoted(chars@, from as int) == continued(
                text@,
                double_quoted(chars@, i as int),
            ),
        decreases chars@.len() - i,
    {
        let c = chars[i];
        if c == '"' {
            assert(text@ + Seq::<char>::empty() =~= text@);
            return Some((text, i + 1));
        }
        if c != '\\' {
            proof {
                continued_twice(text@, seq![c], double_quoted(chars@, i + 1));
                assert(text@ + seq![c] =~= text@.push(c));
            }
            text.push(c);
            i += 1;
        } else if i + 1 >= chars.len() {
            return None;
        } else {
            let escaped = chars[i + 1];
            if escaped == '"' || escaped == '\\' {
                proof {
                    continued_twice(text@, seq![escaped], double_quoted(chars@, i + 2));
                    assert(text@ + seq![escaped] =~= text@.push(escaped));
                }
                text.push(escaped);
            } else {
                proof {
                    continued_twice(text@, seq!['\\', escaped], double_quoted(chars@, i + 2));
                    assert(text@ + seq!['\\', escaped] =~= text@.push('\\').push(escaped));
                }
                text.push('\\');
                text.push(escaped);
            }
            i += 2;
        }
    }
    None
}

/// Reads the piece that begins at `from`.
fn read_piece(chars: &Vec<char>, from: usize) -> (read: Result<(Vec<char>, usize), TemplateError>)
    requires
        from < chars@.len(),
    ensures
        match read {
            Ok((text, end)) => {
                &&& piece(chars@, from as int) == Ok::<_, TemplateError>((text@, end as int))
                &&& from < end <= chars@.len()
            },
            Err(error) => piece(chars@, from as int) == Err::<(Seq<char>, int), _>(error),
        },
{
    proof {
        piece_advances(chars@, from as int);
    }
    let len: usize = chars.len();
    let c = chars[from];
    if c == '\'' {
        return match read_single_quoted(chars, from + 1) {
            Some(read) => Ok(read),
            None => Err(TemplateError::UnterminatedQuote { quote: '\'' }),
        };
    }
    if c == '"' {
        return match read_double_quoted(chars, from + 1) {
            Some(read) => Ok(read),
            None => Err(TemplateError::UnterminatedQuote { quote: '"' }),
        };
    }
    let mut text: Vec<char> = Vec::new();
    if c == '\\' && from + 1 < len {
        text.push(chars[from + 1]);
        assert(text@ =~= seq![chars@[from + 1]]);
        return Ok((text, from + 2));
    }
    text.push(c);
    assert(text@ =~= seq![c]);
    Ok((text, from + 1))
}

/// Reads the argument from `from` on.
fn read_argument(chars: &Vec<char>, from: usize) -> (read: Result<(String, usize), TemplateError>)
    requires
        from <= chars@.len(),
    ensures
        match read {
            Ok((text, end)) => {
                &&& argument(chars@, from as int) == Ok::<_, TemplateError>((text@, end as int))
                &&& end <= chars@.len()
            },
            Err(error) => argument(chars@, from as int) == Err::<(Seq<char>, int), _>(error),
        },
{
    let mut text: Vec<char> = Vec::new();
    let mut i: usize = from;
    proof {
        match argument(chars@, from as int) {
            Ok((rest, end)) => assert(text@ + rest =~= rest),
            Err(_) => {},
        }
    }
    while i < chars.len() && !text::is_whitespace(chars[i])
        invariant
            from <= i <= chars@.len(),
            match argument(chars@, i as int) {
                Ok((rest, end)) => argument(chars@, from as int) == Ok::<_, TemplateError>(
                    (text@ + rest, end),
                ),
                Err(error) => argument(chars@, from as int) == Err::<(Seq<char>, int), _>(error),
            },
        decreases chars@.len() - i,
    {
        match read_piece(chars, i) {
            Err(error) => {
                return Err(error);
            },
            Ok((more, next)) => {
                let ghost before = text@;
                let mut more = more;
                let ghost first = more@;
                text.append(&mut more);
                proof {
                    match argument(chars@, next as int) {
                        Ok((rest, end)) => assert(before + (first + rest) =~= text@ + rest),
                        Err(_) => {},
                    }
                }
                i = next;
            },
        }
    }
    assert(text@ + Seq::<char>::empty() =~= text@);
    assert(text@.subrange(0, text@.len() as int) =~= text@);
    Ok((text::string_of(text.as_slice(), 0, text.len()), i))
}

/// Splits a command template into arguments, honouring quotes.
///
/// The rules are a shell's grouping and nothing else: no variables, no
/// globbing, no operators.
pub fn split_template(template: &str) -> (split: Result<Vec<String>, TemplateError>)
    ensures
        match split {
            Ok(argv) => template_arguments(template@) == Ok::<_, TemplateError>(text::texts(argv@)),
            Err(error) => template_arguments(template@) == Err::<Seq<Seq<char>>, _>(error),
        },
{
    let chars = text::chars_of(template);
    let mut argv: Vec<String> = Vec::new();
    let mut i: usize = 0;
    proof {
        match arguments(chars@, 0) {
            Ok(rest) => assert(text::texts(argv@) + rest =~= rest),
            Err(_) => {},
        }
    }
    while i < chars.len()
        invariant
            chars@ == template@,
            i <= chars@.len(),
            match arguments(chars@, i as int) {
                Ok(rest) => arguments(chars@, 0) == Ok::<_, TemplateError>(
                    text::texts(argv@) + rest,
                ),
                Err(error) => arguments(chars@, 0) == Err::<Seq<Seq<char>>, _>(error),
            },
        decreases chars@.len() - i,
    {
        if text::is_whitespace(chars[i]) {
            i += 1;
        } else {
            proof {
                argument_advances(chars@, i as int);
            }
            match read_argument(&chars, i) {
                Err(error) => {
                    return Err(error);
                },
                Ok((first, next)) => {
                    let ghost before = argv@;
                    argv.push(first);
                    proof {
                        assert(text::texts(argv@) =~= text::texts(before) + seq![first@]);
                        match arguments(chars@, next as int) {
                            Ok(rest) => assert(text::texts(before) + (seq![first@] + rest)
                                =~= text::texts(argv@) + rest),
                            Err(_) => {},
                        }
                    }
                    i = next;
                },
            }
        }
    }
    assert(text::texts(argv@) + Seq::<Seq<char>>::empty() =~= text::texts(argv@));
    if argv.len() == 0 {
        return Err(TemplateError::Empty);
    }
    Ok(argv)
}

// ---------------------------------------------------------------------------
// Filling in

/// What a placeholder between braces stands for. An unknown one stands for
/// itself, braces and all.
pub open spec fn placeholder(
    name: Seq<char>,
    project: Seq<char>,
    file: Seq<char>,
    line: Seq<char>,
) -> Seq<char> {
    if name == "project"@ {
        project
    } else if name == "file"@ {
        file
    } else if name == "line"@ {
        line
    } else {
        seq!['{'] + name + seq!['}']
    }
}

/// `entry` from `i` on with its placeholders filled, in one pass from left to
/// right: what has been filled in is not looked at again. A brace that nothing
/// closes is ordinary text.
pub open spec fn filled(
    entry: Seq<char>,
    i: int,
    project: Seq<char>,
    file: Seq<char>,
    line: Seq<char>,
) -> Seq<char>
    decreases entry.len() - i,
{
    proof {
        text::next_at_is_ahead(entry, '{', i);
        text::next_at_is_ahead(entry, '}', text::next_at(entry, '{', i));
    }
    let open = text::next_at(entry, '{', i);
    let close = text::next_at(entry, '}', open);
    if i >= entry.len() || close >= entry.len() {
        entry.skip(i)
    } else {
        entry.subrange(i, open) + placeholder(
            entry.subrange(open + 1, close),
            project,
            file,
            line,
        ) + filled(entry, close + 1, project, file, line)
    }
}

/// Every argument with its placeholders filled, each for itself.
pub open spec fn substituted(
    argv: Seq<Seq<char>>,
    project: Seq<char>,
    file: Seq<char>,
    line: nat,
) -> Seq<Seq<char>> {
    Seq::new(argv.len(), |i: int| filled(argv[i], 0, project, file, text::decimal(line)))
}

/// One argument with its placeholders filled.
fn fill(entry: &str, project: &str, file: &str, line: &str) -> (out: String)
    ensures
        out@ == filled(entry@, 0, project@, file@, line@),
{
    let chars = text::chars_of(entry);
    let mut out = String::new();
    let mut i: usize = 0;
    assert(out@ + filled(chars@, 0, project@, file@, line@) =~= filled(
        chars@,
        0,
        project@,
        file@,
        line@,
    ));
    while i < chars.len()
        invariant_except_break
            out@ + filled(chars@, i as int, project@, file@, line@) == filled(
                chars@,
                0,
                project@,
                file@,
                line@,
            ),
        invariant
            chars@ == entry@,
            i <= chars@.len(),
        ensures
            out@ + chars@.skip(i as int) == filled(chars@, 0, project@, file@, line@),
        decreases chars@.len() - i,
    {
        let open = text::find_from(&chars, '{', i);
        let close = text::find_from(&chars, '}', open);
        if close >= chars.len() {
            break;
        }
        proof {
            text::next_at_is_ahead(chars@, '{', i as int);
            text::next_at_is_ahead(chars@, '}', open as int);
        }
        let ghost done = out@;
        let ghost rest = filled(chars@, close + 1, project@, file@, line@);
        let name = text::string_of(chars.as_slice(), open + 1, close);
        let plain = text::string_of(chars.as_slice(), i, open);
        out.append(plain.as_str());
        if text::same(name.as_str(), "project") {
            out.append(project);
        } else if text::same(name.as_str(), "file") {
            out.append(file);
        } else if text::same(name.as_str(), "line") {
            out.append(line);
        } else {
            let whole = text::string_of(chars.as_slice(), open, close + 1);
            assert(whole@ =~= seq!['{'] + name@ + seq!['}']);
            out.append(whole.as_str());
        }
        assert(out@ =~= done + (plain@ + placeholder(name@, project@, file@, line@)));
        assert(done + (plain@ + placeholder(name@, project@, file@, line@) + rest) =~= out@ + rest);
        i = close + 1;
    }
    let tail = text::string_of(chars.as_slice(), i, chars.len());
    assert(tail@ =~= chars@.skip(i as int));
    out.append(tail.as_str());
    out
}

/// Fills the placeholders in each argument: `{project}`, `{file}` and
/// `{line}`.
///
/// Arguments are filled whole and never split again, so `{file}:{line}` stays
/// one argument no matter what the path holds.
pub fn substitute(argv: &Vec<String>, project: &str, file: &str, line: usize) -> (out: Vec<String>)
    ensures
        text::texts(out@) == substituted(text::texts(argv@), project@, file@, line as nat),
{
    let line_text = text::decimal_of(line);
    let mut out: Vec<String> = Vec::new();
    let mut i: usize = 0;
    let ghost all = substituted(text::texts(argv@), project@, file@, line as nat);
    while i < argv.len()
        invariant
            i <= argv@.len(),
            line_text@ == text::decimal(line as nat),
            all == substituted(text::texts(argv@), project@, file@, line as nat),
            text::texts(out@) =~= all.take(i as int),
        decreases argv@.len() - i,
    {
        let ghost done = out@;
        let entry = fill(argv[i].as_str(), project, file, line_text.as_str());
        assert(all[i as int] == entry@);
        out.push(entry);
        assert(text::texts(out@) =~= text::texts(done).push(all[i as int]));
        assert(all.take(i + 1) =~= all.take(i as int).push(all[i as int]));
        i += 1;
    }
    out
}

/// Derives the arguments that open a file alone by dropping every argument
/// that is `{project}` and nothing else.
pub fn drop_project(argv: &Vec<String>) -> (out: Vec<String>)
    ensures
        text::texts(out@) == without_project(text::texts(argv@)),
{
    let mut out: Vec<String> = Vec::new();
    let mut i: usize = 0;
    let ghost all = text::texts(argv@);
    proof {
        reveal(Seq::filter);
        assert(text::texts(out@) =~= without_project(all.take(0)));
    }
    while i < argv.len()
        invariant
            i <= argv@.len(),
            all == text::texts(argv@),
            text::texts(out@) == without_project(all.take(i as int)),
        decreases argv@.len() - i,
    {
        proof {
            reveal(Seq::filter);
            assert(all.take(i + 1).drop_last() =~= all.take(i as int));
            assert(all.take(i + 1).last() == argv@[i as int]@);
        }
        if !text::same(argv[i].as_str(), "{project}") {
            let ghost done = text::texts(out@);
            out.push(argv[i].clone());
            assert(text::texts(out@) =~= done.push(argv@[i as int]@));
        }
        i += 1;
    }
    assert(all.take(argv@.len() as int) =~= all);
    out
}

/// The arguments other than `{project}`.
pub open spec fn without_project(argv: Seq<Seq<char>>) -> Seq<Seq<char>> {
    argv.filter(|entry: Seq<char>| entry != "{project}"@)
}

/// The whole way from a template to a command: split, then fill in.
pub fn editor_command(template: &str, project: &str, file: &str, line: usize) -> (command: Result<
    Vec<String>,
    TemplateError,
>)
    ensures
        match command {
            Ok(argv) => {
                &&& template_arguments(template@) is Ok
                &&& text::texts(argv@) == substituted(
                    template_arguments(template@)->Ok_0,
                    project@,
                    file@,
                    line as nat,
                )
            },
            Err(error) => template_arguments(template@) == Err::<Seq<Seq<char>>, _>(error),
        },
{
    match split_template(template) {
        Ok(argv) => Ok(substitute(&argv, project, file, line)),
        Err(error) => Err(error),
    }
}

// ---------------------------------------------------------------------------
// Quoting

/// A text with a backslash in front of every `"` and every `\`.
pub open spec fn escaped(text: Seq<char>) -> Seq<char>
    decreases text.len(),
{
    if text.len() == 0 {
        Seq::empty()
    } else if text.last() == '"' || text.last() == '\\' {
        escaped(text.drop_last()).push('\\').push(text.last())
    } else {
        escaped(text.drop_last()).push(text.last())
    }
}

/// A text between single quotes.
pub open spec fn in_single_quotes(text: Seq<char>) -> Seq<char> {
    seq!['\''] + text + seq!['\'']
}

/// A text between double quotes, escaped.
pub open spec fn in_double_quotes(text: Seq<char>) -> Seq<char> {
    seq!['"'] + escaped(text) + seq!['"']
}

/// An argument that would not come back from a template as it stands: it is
/// empty, or holds white space, a quote or a backslash.
pub open spec fn needs_quotes(entry: Seq<char>) -> bool {
    entry.len() == 0 || text::spaced(entry) || entry.contains('\'') || entry.contains('"')
        || entry.contains('\\')
}

/// An argument as it stands in a template: between single quotes where it
/// needs them, and between double quotes where it holds a single one.
pub open spec fn quoted_entry(entry: Seq<char>) -> Seq<char> {
    if !needs_quotes(entry) {
        entry
    } else if !entry.contains('\'') {
        in_single_quotes(entry)
    } else {
        in_double_quotes(entry)
    }
}

/// Arguments as one template, a blank between each two.
pub open spec fn shell_joined(argv: Seq<Seq<char>>) -> Seq<char>
    decreases argv.len(),
{
    if argv.len() == 0 {
        Seq::empty()
    } else if argv.len() == 1 {
        quoted_entry(argv[0])
    } else {
        shell_joined(argv.drop_last()) + " "@ + quoted_entry(argv.last())
    }
}

/// `text` with a backslash in front of every `"` and every `\`.
fn escape(text: &str) -> (out: String)
    ensures
        out@ == escaped(text@),
{
    let chars = text::chars_of(text);
    let mut out = String::new();
    let mut i: usize = 0;
    assert(out@ =~= escaped(chars@.take(0)));
    while i < chars.len()
        invariant
            chars@ == text@,
            i <= chars@.len(),
            out@ == escaped(chars@.take(i as int)),
        decreases chars@.len() - i,
    {
        proof {
            assert(chars@.take(i + 1).drop_last() =~= chars@.take(i as int));
            assert(chars@.take(i + 1).last() == chars@[i as int]);
        }
        let c = chars[i];
        if c == '"' || c == '\\' {
            out.push('\\');
        }
        out.push(c);
        i += 1;
    }
    assert(chars@.take(chars@.len() as int) =~= chars@);
    out
}

/// `text` between single quotes.
fn single_quotes_around(text: &str) -> (out: String)
    ensures
        out@ == in_single_quotes(text@),
{
    let mut out = String::new();
    out.push('\'');
    out.append(text);
    out.push('\'');
    assert(out@ =~= in_single_quotes(text@));
    out
}

/// `text` between double quotes, escaped.
fn double_quotes_around(text: &str) -> (out: String)
    ensures
        out@ == in_double_quotes(text@),
{
    let mut out = String::new();
    out.push('"');
    let inner = escape(text);
    out.append(inner.as_str());
    out.push('"');
    assert(out@ =~= in_double_quotes(text@));
    out
}

/// One argument as it stands in a template.
fn quote_entry(entry: &str) -> (out: String)
    ensures
        out@ == quoted_entry(entry@),
{
    let single = text::has_char(entry, '\'');
    let plain = !entry.is_empty() && !text::is_spaced(entry) && !single && !text::has_char(
        entry,
        '"',
    ) && !text::has_char(entry, '\\');
    if plain {
        entry.to_owned()
    } else if !single {
        single_quotes_around(entry)
    } else {
        double_quotes_around(entry)
    }
}

/// Quotes arguments back into one template.
pub fn shell_join(argv: &Vec<String>) -> (template: String)
    ensures
        template@ == shell_joined(text::texts(argv@)),
{
    let mut template = String::new();
    let mut i: usize = 0;
    let ghost all = text::texts(argv@);
    assert(template@ =~= shell_joined(all.take(0)));
    while i < argv.len()
        invariant
            i <= argv@.len(),
            all == text::texts(argv@),
            template@ == shell_joined(all.take(i as int)),
        decreases argv@.len() - i,
    {
        proof {
            assert(all.take(i + 1).drop_last() =~= all.take(i as int));
            assert(all.take(i + 1).last() == argv@[i as int]@);
        }
        let entry = quote_entry(argv[i].as_str());
        if i > 0 {
            template.append(" ");
        }
        template.append(entry.as_str());
        assert(template@ =~= shell_joined(all.take(i + 1)));
        i += 1;
    }
    assert(all.take(argv@.len() as int) =~= all);
    template
}

// ---------------------------------------------------------------------------
// The two templates

/// The template at the bottom of the project ladder.
pub const DEFAULT_PROJECT_TEMPLATE: &'static str = "zed {project} {file}:{line}";

/// A template for an editor that the environment names: the command with the
/// file behind it, or the value itself where it holds a brace already.
pub open spec fn generic_template(value: Seq<char>) -> Seq<char> {
    if value.contains('{') {
        value
    } else {
        value + " {file}"@
    }
}

/// The file template that a project template stands for, where that can be
/// split at all.
pub open spec fn derived_template(template: Seq<char>) -> Option<Seq<char>> {
    match template_arguments(template) {
        Ok(argv) => Some(shell_joined(without_project(argv))),
        Err(_) => None,
    }
}

/// Whether a variable names an editor: it is set, and to more than white space.
pub open spec fn names_editor(variable: Option<Seq<char>>) -> bool {
    variable is Some && !text::blank(variable->Some_0)
}

/// The template of the editor that the environment names: `$VISUAL` where it
/// names one, else `$EDITOR` where that does.
pub open spec fn environment_template(
    visual: Option<Seq<char>>,
    editor: Option<Seq<char>>,
) -> Option<Seq<char>> {
    if names_editor(visual) {
        Some(generic_template(visual->Some_0))
    } else if names_editor(editor) {
        Some(generic_template(editor->Some_0))
    } else {
        None
    }
}

/// The project template: what is configured, else what the environment names,
/// else the default.
pub open spec fn resolved_project(
    configured: Option<Seq<char>>,
    environment: Option<Seq<char>>,
) -> Seq<char> {
    match (configured, environment) {
        (Some(template), _) => template,
        (None, Some(template)) => template,
        (None, None) => DEFAULT_PROJECT_TEMPLATE@,
    }
}

/// The file template: what is configured, else what follows from a configured
/// project template, else what the environment names, else what follows from
/// the default.
pub open spec fn resolved_file(
    configured_project: Option<Seq<char>>,
    configured: Option<Seq<char>>,
    environment: Option<Seq<char>>,
) -> Seq<char> {
    let derived = match configured_project {
        Some(template) => derived_template(template),
        None => None,
    };
    match (configured, derived, environment) {
        (Some(template), _, _) => template,
        (None, Some(template), _) => template,
        (None, None, Some(template)) => template,
        (None, None, None) => match derived_template(DEFAULT_PROJECT_TEMPLATE@) {
            Some(template) => template,
            None => DEFAULT_PROJECT_TEMPLATE@,
        },
    }
}

/// Turns the value of `$VISUAL` or `$EDITOR`, a command, into a template.
pub fn generic_editor_template(value: &str) -> (template: String)
    ensures
        template@ == generic_template(value@),
{
    let mut template = value.to_owned();
    if !text::has_char(value, '{') {
        template.append(" {file}");
    }
    template
}

/// The template of the editor that a variable names, if it names one.
fn template_of(variable: Option<&str>) -> (template: Option<String>)
    ensures
        match template {
            Some(template) => {
                &&& names_editor(text::option_str(variable))
                &&& template@ == generic_template(text::option_str(variable)->Some_0)
            },
            None => !names_editor(text::option_str(variable)),
        },
{
    match variable {
        Some(value) => if text::is_blank(value) {
            None
        } else {
            Some(generic_editor_template(value))
        },
        None => None,
    }
}

/// `drop_project` on a template. `None` where the template cannot be split: a
/// broken template must not turn into a differently broken one.
pub fn derive_file_template(template: &str) -> (derived: Option<String>)
    ensures
        text::option_text(derived) == derived_template(template@),
{
    match split_template(template) {
        Ok(argv) => Some(shell_join(&drop_project(&argv))),
        Err(_) => None,
    }
}

/// The two templates, resolved.
#[derive(Debug, Clone, PartialEq, Eq)]
pub struct Templates {
    /// The template that opens a file in its project.
    pub project: String,
    /// The template that opens a file alone.
    pub file: String,
}

impl Default for Templates {
    /// Nothing configured anywhere.
    fn default() -> (templates: Self)
        ensures
            templates.project@ == resolved_project(None, None),
            templates.file@ == resolved_file(None, None, None),
    {
        Templates::resolve(None, None, None, None)
    }
}

impl Templates {
    /// Runs both ladders: the settings of this program first, then the
    /// variables that name an editor for every program, then the default.
    pub fn resolve(
        recon_project: Option<&str>,
        recon_file: Option<&str>,
        visual: Option<&str>,
        editor: Option<&str>,
    ) -> (templates: Self)
        ensures
            ({
                let environment = environment_template(
                    text::option_str(visual),
                    text::option_str(editor),
                );
                &&& templates.project@ == resolved_project(
                    text::option_str(recon_project),
                    environment,
                )
                &&& templates.file@ == resolved_file(
                    text::option_str(recon_project),
                    text::option_str(recon_file),
                    environment,
                )
            }),
    {
        let generic: Option<String> = match template_of(visual) {
            Some(template) => Some(template),
            None => template_of(editor),
        };
        let project: String = match recon_project {
            Some(template) => template.to_owned(),
            None => match &generic {
                Some(template) => template.clone(),
                None => DEFAULT_PROJECT_TEMPLATE.to_owned(),
            },
        };
        let derived: Option<String> = match recon_project {
            Some(template) => derive_file_template(template),
            None => None,
        };
        let file: String = match recon_file {
            Some(template) => template.to_owned(),
            None => match derived {
                Some(template) => template,
                None => match generic {
                    Some(template) => template,
                    None => match derive_file_template(DEFAULT_PROJECT_TEMPLATE) {
                        Some(template) => template,
                        None => DEFAULT_PROJECT_TEMPLATE.to_owned(),
                    },
                },
            },
        };
        Templates { project, file }
    }
}

// ---------------------------------------------------------------------------
// Running a command

/// What is said where there is no command to run.
pub const EMPTY_COMMAND: &'static str = "empty editor command";

/// A command parted into its program and the program's arguments, or what is
/// said where there is none.
pub fn program_of(argv: &Vec<String>) -> (command: Result<(String, Vec<String>), String>)
    ensures
        match command {
            Ok((program, arguments)) => {
                &&& argv@.len() > 0
                &&& program@ == argv@[0]@
                &&& text::texts(arguments@) == text::texts(argv@).skip(1)
            },
            Err(message) => argv@.len() == 0 && message@ == EMPTY_COMMAND@,
        },
{
    if argv.len() == 0 {
        return Err(EMPTY_COMMAND.to_owned());
    }
    let mut arguments: Vec<String> = Vec::new();
    let mut i: usize = 1;
    while i < argv.len()
        invariant
            1 <= i <= argv@.len(),
            text::texts(arguments@) =~= text::texts(argv@).subrange(1, i as int),
        decreases argv@.len() - i,
    {
        let argument = argv[i].clone();
        proof {
            text::texts_push(arguments@, argument);
        }
        arguments.push(argument);
        assert(text::texts(argv@).subrange(1, i + 1) =~= text::texts(argv@).subrange(
            1,
            i as int,
        ).push(argv@[i as int]@));
        i += 1;
    }
    assert(text::texts(argv@).subrange(1, argv@.len() as int) =~= text::texts(argv@).skip(1));
    Ok((argv[0].clone(), arguments))
}

/// What is said of a program that ended badly.
pub fn exit_message(program: &str, status: &str) -> (message: String)
    ensures
        message@ == program@ + " exited with "@ + status@,
{
    let mut message = program.to_owned();
    message.append(" exited with ");
    message.append(status);
    message
}

/// What is to be said of an editor that ended: nothing where all was well.
pub fn outcome_of(program: &str, succeeded: bool, status: &str) -> (message: Option<String>)
    ensures
        text::option_text(message) == if succeeded {
            None
        } else {
            Some(program@ + " exited with "@ + status@)
        },
{
    if succeeded {
        None
    } else {
        Some(exit_message(program, status))
    }
}

impl TemplateError {
    /// The message that says what is wrong with a template.
    pub open spec fn text(self) -> Seq<char> {
        match self {
            TemplateError::UnterminatedQuote { quote } => "editor template has an unclosed "@.push(
                quote,
            ) + " quote"@,
            TemplateError::Empty => "editor template is empty"@,
        }
    }

    /// The message that says what is wrong with a template.
    pub fn message(&self) -> (message: String)
        ensures
            message@ == self.text(),
    {
        match self {
            TemplateError::UnterminatedQuote { quote } => {
                let mut message = "editor template has an unclosed ".to_owned();
                message.push(*quote);
                message.append(" quote");
                message
            },
            TemplateError::Empty => "editor template is empty".to_owned(),
        }
    }
}

// ---------------------------------------------------------------------------
// Printing a configuration

/// How many templates are known.
pub const FLAVOUR_COUNT: usize = 9;

/// The known templates: a name, the project template and the file template.
pub const FLAVOURS: [(&'static str, &'static str, &'static str); FLAVOUR_COUNT] = [
    ("zed", "zed {project} {file}:{line}", "zed {file}:{line}"),
    ("vscode", "code {project} -g {file}:{line}", "code -g {file}:{line}"),
    ("sublime", "subl {project} {file}:{line}", "subl {file}:{line}"),
    ("idea", "idea --line {line} {file}", "idea --line {line} {file}"),
    (
        "terminal-nvim",
        "osascript -e 'tell app \"Terminal\" to do script \"cd \\\"{project}\\\" && nvim +{line} \\\"{file}\\\"\"'",
        "osascript -e 'tell app \"Terminal\" to do script \"nvim +{line} \\\"{file}\\\"\"'",
    ),
    (
        "iterm-nvim",
        "osascript -e 'tell app \"iTerm2\" to create window with default profile command \"nvim +{line} \\\"{file}\\\"\"'",
        "osascript -e 'tell app \"iTerm2\" to create window with default profile command \"nvim +{line} \\\"{file}\\\"\"'",
    ),
    (
        "wezterm-nvim",
        "wezterm cli spawn --cwd {project} -- nvim +{line} {file}",
        "wezterm cli spawn -- nvim +{line} {file}",
    ),
    (
        "kitty-nvim",
        "kitty @ launch --type=window --cwd {project} nvim +{line} {file}",
        "kitty @ launch --type=window nvim +{line} {file}",
    ),
    ("ghostty-nvim", "ghostty -e nvim +{line} {file}", "ghostty -e nvim +{line} {file}"),
];

/// A name that no known template has.
#[derive(Debug, Clone, PartialEq, Eq)]
pub struct UnknownFlavour(pub String);

/// The names of the first `count` known templates, a comma between each two.
pub open spec fn flavour_names(count: int) -> Seq<char>
    decreases count,
{
    if count <= 0 {
        Seq::empty()
    } else if count == 1 {
        FLAVOURS[0].0@
    } else {
        flavour_names(count - 1) + ", "@ + FLAVOURS[count - 1].0@
    }
}

impl UnknownFlavour {
    /// The message that names the unknown flavour and lists the known ones.
    pub fn message(&self) -> (message: String)
        ensures
            message@ == "unknown editor flavour "@ + text::debug_text(self.0@)
                + "\nknown flavours: auto, "@ + flavour_names(FLAVOUR_COUNT as int),
    {
        let mut known = String::new();
        let mut i: usize = 0;
        assert(known@ =~= flavour_names(0));
        while i < FLAVOUR_COUNT
            invariant
                i <= FLAVOUR_COUNT,
                known@ == flavour_names(i as int),
            decreases FLAVOUR_COUNT - i,
        {
            if i > 0 {
                known.append(", ");
            }
            known.append(FLAVOURS[i].0);
            assert(known@ =~= flavour_names(i + 1));
            i += 1;
        }
        let mut message = "unknown editor flavour ".to_owned();
        let shown = text::quoted(self.0.as_str());
        message.append(shown.as_str());
        message.append("\nknown flavours: auto, ");
        message.append(known.as_str());
        message
    }
}

/// The flavour that a terminal suggests.
pub open spec fn suggested_flavour(term_program: Option<Seq<char>>) -> Seq<char> {
    match term_program {
        Some(terminal) => if terminal == "WezTerm"@ {
            "wezterm-nvim"@
        } else if terminal == "ghostty"@ {
            "ghostty-nvim"@
        } else if terminal == "iTerm.app"@ {
            "iterm-nvim"@
        } else if terminal == "Apple_Terminal"@ {
            "terminal-nvim"@
        } else {
            "zed"@
        },
        None => "zed"@,
    }
}

/// Guesses a flavour from the terminal the program runs in.
pub fn guess_flavour(term_program: Option<&str>) -> (flavour: &'static str)
    ensures
        flavour@ == suggested_flavour(text::option_str(term_program)),
{
    match term_program {
        Some(terminal) => if text::same(terminal, "WezTerm") {
            "wezterm-nvim"
        } else if text::same(terminal, "ghostty") {
            "ghostty-nvim"
        } else if text::same(terminal, "iTerm.app") {
            "iterm-nvim"
        } else if text::same(terminal, "Apple_Terminal") {
            "terminal-nvim"
        } else {
            "zed"
        },
        None => "zed",
    }
}

/// A template as a TOML string: a literal one where it holds no single quote,
/// and a basic one with the escapes that asks for where it does.
pub open spec fn toml_text(value: Seq<char>) -> Seq<char> {
    if value.contains('\'') {
        in_double_quotes(value)
    } else {
        in_single_quotes(value)
    }
}

/// Quotes a template as a TOML string.
pub fn toml_string(value: &str) -> (quoted: String)
    ensures
        quoted@ == toml_text(value@),
{
    if text::has_char(value, '\'') {
        double_quotes_around(value)
    } else {
        single_quotes_around(value)
    }
}

/// The `[editor]` stanza for one flavour.
pub open spec fn stanza(name: Seq<char>, project: Seq<char>, file: Seq<char>) -> Seq<char> {
    "# recon editor templates ("@ + name
        + ")\n# Paste into ~/.config/recon/config.toml — recon never writes it for you.\n# {project} = project root, {file} = the file, {line} = the cursor's line.\n[editor]\nproject = "@
        + toml_text(project) + "\nfile = "@ + toml_text(file) + "\n"@
}

/// The flavour that a name asks for: `auto` asks for the one that the terminal
/// suggests.
pub open spec fn wanted_flavour(flavour: Seq<char>, term_program: Option<Seq<char>>) -> Seq<char> {
    if flavour == "auto"@ {
        suggested_flavour(term_program)
    } else {
        flavour
    }
}

/// Renders the `config.toml` stanza for one flavour. Both keys, always: the
/// file template is not always the project template without `{project}`.
pub fn print_editor_config(flavour: &str, term_program: Option<&str>) -> (printed: Result<
    String,
    UnknownFlavour,
>)
    ensures
        ({
            let wanted = wanted_flavour(flavour@, text::option_str(term_program));
            match printed {
                Ok(text) => exists|i: int|
                    {
                        &&& 0 <= i < FLAVOUR_COUNT
                        &&& #[trigger] FLAVOURS[i].0@ == wanted
                        &&& forall|j: int| 0 <= j < i ==> #[trigger] FLAVOURS[j].0@ != wanted
                        &&& text@ == stanza(wanted, FLAVOURS[i].1@, FLAVOURS[i].2@)
                    },
                Err(unknown) => {
                    &&& forall|i: int| 0 <= i < FLAVOUR_COUNT ==> #[trigger] FLAVOURS[i].0@ != wanted
                    &&& unknown.0@ == flavour@
                },
            }
        }),
{
    let wanted: String = if text::same(flavour, "auto") {
        guess_flavour(term_program).to_owned()
    } else {
        flavour.to_owned()
    };
    let mut i: usize = 0;
    while i < FLAVOUR_COUNT
        invariant
            wanted@ == wanted_flavour(flavour@, text::option_str(term_program)),
            i <= FLAVOUR_COUNT,
            forall|j: int| 0 <= j < i ==> #[trigger] FLAVOURS[j].0@ != wanted@,
        decreases FLAVOUR_COUNT - i,
    {
        if text::same(FLAVOURS[i].0, wanted.as_str()) {
            let mut out = "# recon editor templates (".to_owned();
            out.append(FLAVOURS[i].0);
            out.append(
                ")\n# Paste into ~/.config/recon/config.toml — recon never writes it for you.\n# {project} = project root, {file} = the file, {line} = the cursor's line.\n[editor]\nproject = ",
            );
            out.append(toml_string(FLAVOURS[i].1).as_str());
            out.append("\nfile = ");
            out.append(toml_string(FLAVOURS[i].2).as_str());
            out.append("\n");
            assert(FLAVOURS[i as int].0@ == wanted@);
            return Ok(out);
        }
        i += 1;
    }
    Err(UnknownFlavour(flavour.to_owned()))
}

// ---------------------------------------------------------------------------
// The enclosing project

/// How many names mark a project.
pub const MARKER_COUNT: usize = 6;

/// The names that mark the root of a project. A file or a directory of that
/// name will do: in a linked worktree `.git` is a file.
pub const PROJECT_MARKERS: [&'static str; MARKER_COUNT] = [
    ".git",
    "Cargo.toml",
    "package.json",
    "pyproject.toml",
    "setup.py",
    "go.mod",
];

/// The parts of a marker's path in the directory of parts `dir`.
pub open spec fn marker_path(from_root: bool, dir: Seq<Seq<u8>>, marker: int) -> Seq<u8> {
    path::rendered(from_root, dir.push(vstd::utf8::encode_utf8(PROJECT_MARKERS[marker]@)))
}

/// `present`, asked about the path of these bytes, may give this answer.
pub open spec fn answers<F: Fn(&Vec<u8>) -> bool>(present: F, bytes: Seq<u8>, answer: bool) -> bool {
    exists|asked: Vec<u8>| asked@ == bytes && call_ensures(present, (&asked,), answer)
}

/// A directory in which `present` found a marker.
pub open spec fn marked<F: Fn(&Vec<u8>) -> bool>(
    present: F,
    from_root: bool,
    dir: Seq<Seq<u8>>,
) -> bool {
    exists|marker: int|
        0 <= marker < MARKER_COUNT && #[trigger] answers(
            present,
            marker_path(from_root, dir, marker),
            true,
        )
}

/// A directory in which `present` found no marker.
pub open spec fn unmarked<F: Fn(&Vec<u8>) -> bool>(
    present: F,
    from_root: bool,
    dir: Seq<Seq<u8>>,
) -> bool {
    forall|marker: int|
        0 <= marker < MARKER_COUNT ==> #[trigger] answers(
            present,
            marker_path(from_root, dir, marker),
            false,
        )
}

/// The parts that the walk begins with: the path's own where it is a
/// directory, and those of its directory where it is not.
pub open spec fn walk_start(parts: Seq<Seq<u8>>, is_dir: bool) -> Seq<Seq<u8>> {
    if is_dir || parts.len() == 0 {
        parts
    } else {
        parts.drop_last()
    }
}

/// Whether the walk may ask for something at a path: a marker, in a directory
/// at `start` or above it.
pub open spec fn asks_for(from_root: bool, start: Seq<Seq<u8>>, asked: Seq<u8>) -> bool {
    exists|depth: int, marker: int|
        {
            &&& 0 <= depth <= start.len()
            &&& 0 <= marker < MARKER_COUNT
            &&& asked == #[trigger] marker_path(from_root, start.take(depth), marker)
        }
}

/// The parts of the path that a walk begins with, seen from `cwd` where there
/// is one.
pub open spec fn walk_parts(path: Seq<u8>, cwd: Option<&Vec<u8>>, is_dir: bool) -> Seq<Seq<u8>> {
    walk_start(
        match cwd {
            Some(cwd) => path::absolute_parts(path, cwd@),
            None => path::parts(path),
        },
        is_dir,
    )
}

/// `root` is the nearest directory at `start` or above it in which a marker was
/// found, or `start` itself where none was found on the way up.
pub open spec fn encloses<F: Fn(&Vec<u8>) -> bool>(
    present: F,
    from_root: bool,
    start: Seq<Seq<u8>>,
    root: Seq<u8>,
) -> bool {
    ||| exists|depth: int|
        {
            &&& 0 <= depth <= start.len()
            &&& #[trigger] marked(present, from_root, start.take(depth))
            &&& root == path::rendered(from_root, start.take(depth))
            &&& forall|nearer: int|
                depth < nearer <= start.len() ==> #[trigger] unmarked(
                    present,
                    from_root,
                    start.take(nearer),
                )
        }
    ||| {
        &&& root == path::rendered(from_root, start)
        &&& forall|any: int|
            0 <= any <= start.len() ==> #[trigger] unmarked(present, from_root, start.take(any))
    }
}

/// Whether one of the markers stands in the directory of the first `count`
/// parts.
fn holds_marker<F: Fn(&Vec<u8>) -> bool>(
    from_root: bool,
    parts: &Vec<Vec<u8>>,
    count: usize,
    present: &F,
) -> (found: bool)
    requires
        count <= parts@.len(),
        forall|asked: Vec<u8>|
            asks_for(from_root, path::byte_parts(parts@), asked@) ==> #[trigger] call_requires(
                *present,
                (&asked,),
            ),
    ensures
        found ==> marked(*present, from_root, path::byte_parts(parts@).take(count as int)),
        !found ==> unmarked(*present, from_root, path::byte_parts(parts@).take(count as int)),
{
    let ghost dir = path::byte_parts(parts@).take(count as int);
    let mut marker: usize = 0;
    while marker < MARKER_COUNT
        invariant
            marker <= MARKER_COUNT,
            count <= parts@.len(),
            dir == path::byte_parts(parts@).take(count as int),
            forall|asked: Vec<u8>|
                asks_for(from_root, path::byte_parts(parts@), asked@) ==> #[trigger] call_requires(
                    *present,
                    (&asked,),
                ),
            forall|m: int|
                0 <= m < marker ==> #[trigger] answers(
                    *present,
                    marker_path(from_root, dir, m),
                    false,
                ),
        decreases MARKER_COUNT - marker,
    {
        let asked = path::child(from_root, parts, count, PROJECT_MARKERS[marker].as_bytes());
        assert(asked@ == marker_path(from_root, dir, marker as int));
        assert(asks_for(from_root, path::byte_parts(parts@), asked@));
        let answer = present(&asked);
        assert(answers(*present, marker_path(from_root, dir, marker as int), answer));
        if answer {
            return true;
        }
        marker += 1;
    }
    false
}

/// Finds the project enclosing `path`.
///
/// Walks up from the path's directory, or from the path itself where it is
/// one, and stops at the first ancestor that holds a marker. Falls back to
/// where the walk began. A path that does not begin at the root is first put
/// behind `cwd`, so that the walk does not leave the path it was given; with
/// no `cwd` to be had the path is taken as it stands. An empty path leads
/// nowhere, and is handed back. `present` says whether there is anything at a
/// path.
pub fn project_root<F: Fn(&Vec<u8>) -> bool>(
    path: &[u8],
    cwd: Option<&Vec<u8>>,
    is_dir: bool,
    present: F,
) -> (root: Vec<u8>)
    requires
        path@.len() > 0 ==> forall|asked: Vec<u8>|
            asks_for(
                path::rooted(path@) || cwd is Some,
                walk_parts(path@, cwd, is_dir),
                asked@,
            ) ==> #[trigger] call_requires(present, (&asked,)),
    ensures
        path@.len() == 0 ==> root@.len() == 0,
        path@.len() > 0 ==> encloses(
            present,
            path::rooted(path@) || cwd is Some,
            walk_parts(path@, cwd, is_dir),
            root@,
        ),
{
    if path.len() == 0 {
        return Vec::new();
    }
    let from_root = (path.len() > 0 && path[0] == path::SEPARATOR) || cwd.is_some();
    let mut parts = match cwd {
        Some(cwd) => path::absolute_parts_of(path, cwd.as_slice()),
        None => path::parts_of(path),
    };
    let ghost all = path::byte_parts(parts@);
    if !is_dir && parts.len() > 0 {
        let _ = parts.pop();
    }
    let ghost start = path::byte_parts(parts@);
    assert(start =~= walk_start(all, is_dir));
    let mut depth: usize = parts.len();
    loop
        invariant
            depth <= parts@.len(),
            start == path::byte_parts(parts@),
            start == walk_start(all, is_dir),
            from_root == (path::rooted(path@) || cwd is Some),
            all == match cwd {
                Some(cwd) => path::absolute_parts(path@, cwd@),
                None => path::parts(path@),
            },
            path@.len() > 0,
            forall|asked: Vec<u8>|
                asks_for(from_root, start, asked@) ==> #[trigger] call_requires(
                    present,
                    (&asked,),
                ),
            forall|nearer: int|
                depth < nearer <= start.len() ==> #[trigger] unmarked(
                    present,
                    from_root,
                    start.take(nearer),
                ),
        decreases depth,
    {
        if holds_marker(from_root, &parts, depth, &present) {
            return path::render(from_root, &parts, depth);
        }
        if depth == 0 {
            let root = path::render(from_root, &parts, parts.len());
            assert(start.take(start.len() as int) =~= start);
            return root;
        }
        depth -= 1;
    }
}

// ---------------------------------------------------------------------------
// Laws

/// No path and no line changes how many arguments a command has, and an
/// argument depends on its own text in the template alone.
pub proof fn filling_keeps_arguments_apart(
    argv: Seq<Seq<char>>,
    project: Seq<char>,
    file: Seq<char>,
    line: nat,
)
    ensures
        substituted(argv, project, file, line).len() == argv.len(),
        forall|i: int|
            0 <= i < argv.len() ==> #[trigger] substituted(argv, project, file, line)[i]
                == substituted(seq![argv[i]], project, file, line)[0],
{
}

/// Text that holds no brace is passed on as it stands.
pub proof fn plain_text_is_kept(
    entry: Seq<char>,
    project: Seq<char>,
    file: Seq<char>,
    line: Seq<char>,
)
    requires
        !entry.contains('{'),
    ensures
        filled(entry, 0, project, file, line) == entry,
{
    text::next_at_is_ahead(entry, '{', 0);
    let open = text::next_at(entry, '{', 0);
    assert(open == entry.len()) by {
        if open < entry.len() {
            assert(entry[open] == '{');
        }
    }
    text::next_at_is_ahead(entry, '}', open);
    assert(entry.skip(0) =~= entry);
}

/// A placeholder alone becomes its value, whatever that value looks like: what
/// was filled in is not filled in again. An unknown placeholder stays.
pub proof fn a_placeholder_becomes_its_value(
    name: Seq<char>,
    project: Seq<char>,
    file: Seq<char>,
    line: Seq<char>,
)
    requires
        !name.contains('}'),
    ensures
        filled(seq!['{'] + name + seq!['}'], 0, project, file, line) == placeholder(
            name,
            project,
            file,
            line,
        ),
{
    let entry = seq!['{'] + name + seq!['}'];
    assert(entry[0] == '{');
    assert(text::next_at(entry, '{', 0) == 0);
    text::next_at_is_ahead(entry, '}', 0);
    let close = text::next_at(entry, '}', 0);
    assert(close == entry.len() - 1) by {
        assert(entry[entry.len() - 1] == '}');
        if close < entry.len() - 1 {
            assert(entry[close] == '}');
            assert(name[close - 1] == '}');
        }
    }
    assert(entry.subrange(1, close) =~= name);
    assert(filled(entry, close + 1, project, file, line) =~= Seq::<char>::empty());
    assert(filled(entry, 0, project, file, line) =~= placeholder(name, project, file, line));
}

/// Splitting a template that was joined gives the arguments back that it was
/// joined from.
pub proof fn splitting_undoes_joining(argv: Seq<Seq<char>>)
    requires
        argv.len() > 0,
    ensures
        template_arguments(shell_joined(argv)) == Ok::<_, TemplateError>(argv),
{
    joined_arguments(argv, 0);
    assert(argv.skip(0) =~= argv);
}

/// Words between single quotes, a blank between each two.
pub open spec fn single_quoted_words(words: Seq<Seq<char>>) -> Seq<char>
    decreases words.len(),
{
    if words.len() == 0 {
        Seq::empty()
    } else if words.len() == 1 {
        in_single_quotes(words[0])
    } else {
        single_quoted_words(words.drop_last()) + " "@ + in_single_quotes(words.last())
    }
}

/// What stands between single quotes is literal throughout: words that are each
/// put between them come back as they were, whatever they hold but a single
/// quote.
pub proof fn single_quotes_are_literal(words: Seq<Seq<char>>)
    requires
        words.len() > 0,
        forall|i: int| 0 <= i < words.len() ==> !(#[trigger] words[i]).contains('\''),
    ensures
        template_arguments(single_quoted_words(words)) == Ok::<_, TemplateError>(words),
{
    quoted_words(words, 0);
    assert(words.skip(0) =~= words);
}

/// Where the quoted text of the first `k` words ends.
spec fn words_end(words: Seq<Seq<char>>, k: int) -> int {
    single_quoted_words(words.take(k)).len() as int
}

proof fn words_prefix(words: Seq<Seq<char>>, k: int)
    requires
        0 <= k <= words.len(),
    ensures
        words_end(words, k) <= single_quoted_words(words).len(),
        single_quoted_words(words).take(words_end(words, k)) == single_quoted_words(words.take(k)),
    decreases words.len() - k,
{
    let s = single_quoted_words(words);
    if k == words.len() {
        assert(words.take(k) =~= words);
        assert(s.take(s.len() as int) =~= s);
    } else {
        words_prefix(words, k + 1);
        let longer = words.take(k + 1);
        assert(longer.drop_last() =~= words.take(k));
        let e = words_end(words, k);
        if k > 0 {
            assert(single_quoted_words(longer).take(e) =~= single_quoted_words(words.take(k)));
        } else {
            assert(single_quoted_words(words.take(0)) =~= Seq::<char>::empty());
        }
        assert(s.take(e) =~= s.take(words_end(words, k + 1)).take(e));
    }
}

proof fn quoted_words(words: Seq<Seq<char>>, k: int)
    requires
        0 <= k <= words.len(),
        forall|i: int| 0 <= i < words.len() ==> !(#[trigger] words[i]).contains('\''),
    ensures
        arguments(single_quoted_words(words), words_end(words, k)) == Ok::<_, TemplateError>(
            words.skip(k),
        ),
    decreases words.len() - k,
{
    let s = single_quoted_words(words);
    let e = words_end(words, k);
    words_prefix(words, k);
    if k == words.len() {
        assert(words.take(k) =~= words);
        assert(words.skip(k) =~= Seq::<Seq<char>>::empty());
    } else {
        words_prefix(words, k + 1);
        quoted_words(words, k + 1);
        let next = words_end(words, k + 1);
        let longer = words.take(k + 1);
        let q = in_single_quotes(words[k]);
        assert(longer.drop_last() =~= words.take(k));
        assert(longer.last() == words[k]);
        let start = if k == 0 {
            e
        } else {
            e + 1
        };
        reveal_strlit(" ");
        if k == 0 {
            assert(e == 0);
            assert(longer =~= seq![words[0]]);
            assert(single_quoted_words(longer) == q);
        } else {
            assert(single_quoted_words(longer) == single_quoted_words(words.take(k)) + " "@ + q);
            assert(single_quoted_words(longer)[e] == ' ');
            assert(s.take(next)[e] == ' ');
            assert(arguments(s, e) == arguments(s, start));
        }
        assert(next == start + q.len());
        assert(s.subrange(start, next) =~= q) by {
            assert(s.take(next).subrange(start, next) =~= s.subrange(start, next));
            assert(single_quoted_words(longer).subrange(start, next) =~= q);
        }
        assert(next == s.len() || s[next] == ' ') by {
            if k + 1 < words.len() {
                words_prefix(words, k + 2);
                let longest = words.take(k + 2);
                assert(longest.drop_last() =~= longer);
                assert(single_quoted_words(longest)[next] == ' ');
                assert(s.take(words_end(words, k + 2))[next] == ' ');
            } else {
                assert(longer =~= words);
            }
        }
        word_reads_back(s, start, words[k]);
        assert(words.skip(k) =~= seq![words[k]] + words.skip(k + 1));
    }
}

/// A word between single quotes reads back from where it stands in a template.
proof fn word_reads_back(s: Seq<char>, i: int, word: Seq<char>)
    requires
        !word.contains('\''),
        0 <= i,
        i + in_single_quotes(word).len() <= s.len(),
        s.subrange(i, i + in_single_quotes(word).len()) == in_single_quotes(word),
        i + in_single_quotes(word).len() == s.len() || s[i + in_single_quotes(word).len()] == ' ',
    ensures
        i < s.len(),
        !text::whitespace(s[i]),
        argument(s, i) == Ok::<_, TemplateError>((word, i + in_single_quotes(word).len())),
{
    let q = in_single_quotes(word);
    let end = i + q.len();
    assert forall|j: int| 0 <= j < q.len() implies s[i + j] == #[trigger] q[j] by {
        assert(s.subrange(i, end)[j] == s[i + j]);
    }
    assert(argument(s, end) == Ok::<_, TemplateError>((Seq::<char>::empty(), end)));
    assert(q[0] == '\'');
    assert(q[q.len() - 1] == '\'');
    assert(s[i + (q.len() - 1)] == '\'');
    assert forall|j: int| 0 <= j < word.len() implies s[i + 1 + j] == #[trigger] word[j] by {
        assert(q[1 + j] == word[j]);
    }
    single_reads_back(s, i + 1, word, 0);
    assert(word.skip(0) =~= word);
    assert(word + Seq::<char>::empty() =~= word);
}

/// A derived file template splits into the project template's arguments
/// without `{project}`.
pub proof fn a_derived_template_drops_the_project(template: Seq<char>)
    requires
        template_arguments(template) is Ok,
        without_project(template_arguments(template)->Ok_0).len() > 0,
    ensures
        derived_template(template) is Some,
        template_arguments(derived_template(template)->Some_0) == Ok::<_, TemplateError>(
            without_project(template_arguments(template)->Ok_0),
        ),
{
    splitting_undoes_joining(without_project(template_arguments(template)->Ok_0));
}

/// Where the joined text of the first `k` arguments ends.
spec fn joined_end(argv: Seq<Seq<char>>, k: int) -> int {
    shell_joined(argv.take(k)).len() as int
}

proof fn joined_prefix(argv: Seq<Seq<char>>, k: int)
    requires
        0 <= k <= argv.len(),
    ensures
        joined_end(argv, k) <= shell_joined(argv).len(),
        shell_joined(argv).take(joined_end(argv, k)) == shell_joined(argv.take(k)),
    decreases argv.len() - k,
{
    let s = shell_joined(argv);
    if k == argv.len() {
        assert(argv.take(k) =~= argv);
        assert(s.take(s.len() as int) =~= s);
    } else {
        joined_prefix(argv, k + 1);
        let longer = argv.take(k + 1);
        assert(longer.drop_last() =~= argv.take(k));
        let e = joined_end(argv, k);
        if k > 0 {
            assert(shell_joined(longer).take(e) =~= shell_joined(argv.take(k)));
        } else {
            assert(shell_joined(argv.take(0)) =~= Seq::<char>::empty());
        }
        assert(s.take(e) =~= s.take(joined_end(argv, k + 1)).take(e));
    }
}

proof fn joined_arguments(argv: Seq<Seq<char>>, k: int)
    requires
        0 <= k <= argv.len(),
    ensures
        arguments(shell_joined(argv), joined_end(argv, k)) == Ok::<_, TemplateError>(argv.skip(k)),
    decreases argv.len() - k,
{
    let s = shell_joined(argv);
    let e = joined_end(argv, k);
    joined_prefix(argv, k);
    if k == argv.len() {
        assert(argv.take(k) =~= argv);
        assert(argv.skip(k) =~= Seq::<Seq<char>>::empty());
    } else {
        joined_prefix(argv, k + 1);
        joined_arguments(argv, k + 1);
        let next = joined_end(argv, k + 1);
        let longer = argv.take(k + 1);
        let q = quoted_entry(argv[k]);
        assert(longer.drop_last() =~= argv.take(k));
        assert(longer.last() == argv[k]);
        let start = if k == 0 {
            e
        } else {
            e + 1
        };
        reveal_strlit(" ");
        if k == 0 {
            assert(e == 0);
            assert(longer =~= seq![argv[0]]);
            assert(shell_joined(longer) == q);
        } else {
            assert(shell_joined(longer) == shell_joined(argv.take(k)) + " "@ + q);
            assert(shell_joined(longer)[e] == ' ');
            assert(s.take(next)[e] == ' ');
            assert(arguments(s, e) == arguments(s, start));
        }
        assert(next == start + q.len());
        assert(s.subrange(start, next) =~= q) by {
            assert(s.take(next).subrange(start, next) =~= s.subrange(start, next));
            assert(shell_joined(longer).subrange(start, next) =~= q);
        }
        assert(next == s.len() || s[next] == ' ') by {
            if k + 1 < argv.len() {
                joined_prefix(argv, k + 2);
                let longest = argv.take(k + 2);
                assert(longest.drop_last() =~= longer);
                assert(shell_joined(longest)[next] == ' ');
                assert(s.take(joined_end(argv, k + 2))[next] == ' ');
            } else {
                assert(longer =~= argv);
            }
        }
        entry_reads_back(s, start, argv[k]);
        assert(argv.skip(k) =~= seq![argv[k]] + argv.skip(k + 1));
    }
}

/// One argument reads back from where it stands in a template.
proof fn entry_reads_back(s: Seq<char>, i: int, entry: Seq<char>)
    requires
        0 <= i,
        i + quoted_entry(entry).len() <= s.len(),
        s.subrange(i, i + quoted_entry(entry).len()) == quoted_entry(entry),
        i + quoted_entry(entry).len() == s.len() || s[i + quoted_entry(entry).len()] == ' ',
    ensures
        i < s.len(),
        !text::whitespace(s[i]),
        argument(s, i) == Ok::<_, TemplateError>((entry, i + quoted_entry(entry).len())),
{
    let q = quoted_entry(entry);
    let end = i + q.len();
    assert forall|j: int| 0 <= j < q.len() implies s[i + j] == #[trigger] q[j] by {
        assert(s.subrange(i, end)[j] == s[i + j]);
    }
    assert(argument(s, end) == Ok::<_, TemplateError>((Seq::<char>::empty(), end)));
    if !needs_quotes(entry) {
        assert(q[0] == entry[0]);
        plain_reads_back(s, i, entry, 0);
        assert(entry.skip(0) =~= entry);
    } else if !entry.contains('\'') {
        word_reads_back(s, i, entry);
    } else {
        assert(q[0] == '"');
        assert(q.subrange(1, q.len() - 1) =~= escaped(entry));
        assert(s.subrange(i + 1, end - 1) =~= escaped(entry)) by {
            assert(s.subrange(i, end).subrange(1, q.len() - 1) =~= s.subrange(i + 1, end - 1));
        }
        assert(q[q.len() - 1] == '"');
        assert(entry.take(0) =~= Seq::<char>::empty());
        double_reads_back(s, i + 1, entry, 0);
        assert(entry.skip(0) =~= entry);
        assert(entry + Seq::<char>::empty() =~= entry);
    }
}

proof fn plain_reads_back(s: Seq<char>, i: int, entry: Seq<char>, k: int)
    requires
        !needs_quotes(entry),
        0 <= i,
        0 <= k <= entry.len(),
        i + entry.len() <= s.len(),
        forall|j: int| 0 <= j < entry.len() ==> s[i + j] == #[trigger] entry[j],
        i + entry.len() == s.len() || s[i + entry.len()] == ' ',
    ensures
        argument(s, i + k) == Ok::<_, TemplateError>((entry.skip(k), i + entry.len())),
    decreases entry.len() - k,
{
    if k == entry.len() {
        assert(entry.skip(k) =~= Seq::<char>::empty());
    } else {
        plain_reads_back(s, i, entry, k + 1);
        let c = entry[k];
        assert(s[i + k] == c);
        assert(entry.contains(c));
        assert(!text::whitespace(c));
        assert(piece(s, i + k) == Ok::<_, TemplateError>((seq![c], i + k + 1)));
        assert(entry.skip(k) =~= seq![c] + entry.skip(k + 1));
    }
}

proof fn single_reads_back(s: Seq<char>, i: int, entry: Seq<char>, k: int)
    requires
        !entry.contains('\''),
        0 <= i,
        0 <= k <= entry.len(),
        i + entry.len() < s.len(),
        forall|j: int| 0 <= j < entry.len() ==> s[i + j] == #[trigger] entry[j],
        s[i + entry.len()] == '\'',
    ensures
        single_quoted(s, i + k) == Some((entry.skip(k), i + entry.len() + 1)),
    decreases entry.len() - k,
{
    if k == entry.len() {
        assert(entry.skip(k) =~= Seq::<char>::empty());
    } else {
        single_reads_back(s, i, entry, k + 1);
        assert(s[i + k] == entry[k]);
        assert(entry.contains(entry[k]));
        assert(entry.skip(k) =~= seq![entry[k]] + entry.skip(k + 1));
    }
}

proof fn escaped_prefix(entry: Seq<char>, k: int)
    requires
        0 <= k <= entry.len(),
    ensures
        escaped(entry.take(k)).len() <= escaped(entry).len(),
        escaped(entry).take(escaped(entry.take(k)).len() as int) == escaped(entry.take(k)),
    decreases entry.len() - k,
{
    if k == entry.len() {
        assert(entry.take(k) =~= entry);
        assert(escaped(entry).take(escaped(entry).len() as int) =~= escaped(entry));
    } else {
        escaped_prefix(entry, k + 1);
        let longer = entry.take(k + 1);
        assert(longer.drop_last() =~= entry.take(k));
        let shorter = escaped(entry.take(k)).len() as int;
        assert(escaped(longer).take(shorter) =~= escaped(entry.take(k)));
        assert(escaped(entry).take(escaped(longer).len() as int).take(shorter) =~= escaped(
            entry,
        ).take(shorter));
    }
}

proof fn double_reads_back(s: Seq<char>, i: int, entry: Seq<char>, k: int)
    requires
        0 <= i,
        0 <= k <= entry.len(),
        i + escaped(entry).len() < s.len(),
        s.subrange(i, i + escaped(entry).len()) == escaped(entry),
        s[i + escaped(entry).len()] == '"',
    ensures
        double_quoted(s, i + escaped(entry.take(k)).len()) == Some(
            (entry.skip(k), i + escaped(entry).len() + 1),
        ),
    decreases entry.len() - k,
{
    let whole = escaped(entry);
    let at = escaped(entry.take(k)).len() as int;
    if k == entry.len() {
        assert(entry.take(k) =~= entry);
        assert(entry.skip(k) =~= Seq::<char>::empty());
    } else {
        double_reads_back(s, i, entry, k + 1);
        escaped_prefix(entry, k + 1);
        let longer = entry.take(k + 1);
        assert(longer.drop_last() =~= entry.take(k));
        assert(longer.last() == entry[k]);
        let c = entry[k];
        assert(entry.skip(k) =~= seq![c] + entry.skip(k + 1));
        let next = escaped(longer).len() as int;
        assert forall|j: int| 0 <= j < next implies s[i + j] == #[trigger] escaped(longer)[j] by {
            assert(whole.take(next)[j] == whole[j]);
            assert(s.subrange(i, i + whole.len())[j] == s[i + j]);
        }
        if c == '"' || c == '\\' {
            assert(escaped(longer)[at] == '\\');
            assert(escaped(longer)[at + 1] == c);
        } else {
            assert(escaped(longer)[at] == c);
        }
    }
}

} // verus!
