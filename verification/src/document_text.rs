//! TOML documents that are edited in place, with what they say of keys and
//! values.

use crate::text;
use std::str::FromStr;
use toml_edit::{Array, ArrayOfTables, DocumentMut, Item, Table};
use vstd::multiset::Multiset;
use vstd::prelude::*;

verus! {

/// A TOML document.
#[verifier::external_type_specification]
#[verifier::external_body]
pub struct ExDocumentMut(toml_edit::DocumentMut);

/// A table of a document.
#[verifier::external_type_specification]
#[verifier::external_body]
pub struct ExTable(toml_edit::Table);

/// What stands behind a key.
#[verifier::external_type_specification]
#[verifier::external_body]
pub struct ExItem(toml_edit::Item);

/// An array of values.
#[verifier::external_type_specification]
#[verifier::external_body]
pub struct ExArray(toml_edit::Array);

/// A list of tables.
#[verifier::external_type_specification]
#[verifier::external_body]
pub struct ExArrayOfTables(toml_edit::ArrayOfTables);

/// What a key of a document says.
pub enum Toml {
    /// A string.
    Text(Seq<char>),
    /// A whole number.
    Integer(int),
    /// `true` or `false`.
    Boolean(bool),
    /// A number with a fraction or an exponent, a date or a time, as it is
    /// written.
    Other(Seq<char>),
    /// An array of values.
    Array(Seq<Toml>),
    /// A table between braces.
    Inline(Map<Seq<char>, Toml>),
    /// A table under a header of its own, or behind keys with dots in them.
    Table(Map<Seq<char>, Toml>),
    /// A list of tables, each under a header in double brackets.
    Tables(Seq<Toml>),
    /// A table without a header, with nothing in it.
    Hidden,
    /// Nothing at all.
    Nothing,
}

/// A value that a document writes out as it is: there is nothing in it that
/// has no text of its own, such as a list of no tables or a table with neither
/// a header nor a key.
pub open spec fn complete(value: Toml) -> bool
    decreases value,
{
    match value {
        Toml::Table(keys) => forall|key: Seq<char>| #[trigger]
            keys.contains_key(key) ==> complete(keys[key]),
        Toml::Inline(keys) => forall|key: Seq<char>| #[trigger]
            keys.contains_key(key) ==> complete(keys[key]),
        Toml::Array(values) => forall|i: int|
            0 <= i < values.len() ==> complete(#[trigger] values[i]),
        Toml::Tables(tables) => tables.len() > 0 && forall|i: int|
            0 <= i < tables.len() ==> complete(#[trigger] tables[i]),
        Toml::Hidden => false,
        Toml::Nothing => false,
        _ => true,
    }
}

/// A table that is written out as it is has nothing in it that is not.
pub proof fn complete_inside(keys: Map<Seq<char>, Toml>, key: Seq<char>)
    requires
        complete(Toml::Table(keys)),
        keys.contains_key(key),
    ensures
        complete(keys[key]),
{
    let value = Toml::Table(keys);
    assert(complete(value));
    match value {
        Toml::Table(inner) => {
            assert(forall|key: Seq<char>| #[trigger]
                inner.contains_key(key) ==> complete(inner[key]));
            assert(inner.contains_key(key));
        },
        _ => {},
    }
}

/// A table is written out as it is where everything in it is.
pub proof fn complete_outside(keys: Map<Seq<char>, Toml>)
    requires
        forall|key: Seq<char>| #[trigger] keys.contains_key(key) ==> complete(keys[key]),
    ensures
        complete(Toml::Table(keys)),
{
    reveal_with_fuel(complete, 2);
    assert forall|key: Seq<char>| #[trigger] keys.contains_key(key) implies complete(keys[key]) by {}
}

/// What a text says as a TOML document, or what the parser says against it.
pub uninterp spec fn document_keys(text: Seq<char>) -> Result<Map<Seq<char>, Toml>, Seq<char>>;

/// What a document says.
pub uninterp spec fn keys_of(document: DocumentMut) -> Map<Seq<char>, Toml>;

/// What a table says.
pub uninterp spec fn table_keys(table: Table) -> Map<Seq<char>, Toml>;

/// Whether a table goes without a header where it has no values of its own.
pub uninterp spec fn hidden(table: Table) -> bool;

/// What a key says that a table stands behind.
pub open spec fn table_value(table: Table) -> Toml {
    if hidden(table) && table_keys(table) == no_keys() {
        Toml::Hidden
    } else {
        Toml::Table(table_keys(table))
    }
}

/// What stands behind a key that this is put behind.
pub uninterp spec fn item_value(item: Item) -> Toml;

/// The values in an array.
pub uninterp spec fn values_of(array: Array) -> Seq<Toml>;

/// The tables in a list.
pub uninterp spec fn tables_of(tables: ArrayOfTables) -> Seq<Toml>;

// ---------------------------------------------------------------------------
// How it is written

/// What a text, or a part of a document, shows beside what it says.
pub struct Form {
    /// The comments, each as often as it stands there.
    pub comments: Multiset<Seq<char>>,
    /// The strings that stand between single quotes.
    pub literals: Set<Seq<char>>,
}

/// The comments and the literal strings of a text, as the parser finds them.
pub uninterp spec fn form_in(text: Seq<char>) -> Form;

/// The comments and the literal strings that a document is written with.
pub uninterp spec fn form_of(document: DocumentMut) -> Form;

/// The comments and the literal strings that a table is written with.
pub uninterp spec fn table_form(table: Table) -> Form;

/// The comments and the literal strings that an item is written with.
pub uninterp spec fn item_form(item: Item) -> Form;

/// The comments and the literal strings that an array is written with.
pub uninterp spec fn array_form(array: Array) -> Form;

/// The comments and the literal strings that a list of tables is written with.
pub uninterp spec fn list_form(tables: ArrayOfTables) -> Form;

/// Neither a comment nor a literal string.
pub open spec fn no_form() -> Form {
    Form { comments: Multiset::empty(), literals: Set::empty() }
}

/// The comments and the literal strings of two parts.
pub open spec fn both(one: Form, other: Form) -> Form {
    Form {
        comments: one.comments.add(other.comments),
        literals: one.literals.union(other.literals),
    }
}

/// A part with a string that was encoded: no comment comes with it, and
/// whether it is written between single quotes is the encoder's to say.
pub open spec fn with_encoded(before: Form, after: Form) -> bool {
    after.comments == before.comments && before.literals.subset_of(after.literals)
}

/// A part of which something inside has changed: its comments change by as much
/// as those inside, and it has the literal strings inside, and those that it
/// had before unless they are gone inside.
pub open spec fn changed_inside(before: Form, after: Form, inside: Form, now_inside: Form) -> bool {
    &&& after.comments.add(inside.comments) == before.comments.add(now_inside.comments)
    &&& now_inside.literals.subset_of(after.literals)
    &&& inside.literals.subset_of(now_inside.literals) ==> before.literals.subset_of(after.literals)
}

/// Where the same comes to two collections of comments and they are then the
/// same, they were the same before.
pub proof fn the_rest_is_the_same(
    one: Multiset<Seq<char>>,
    other: Multiset<Seq<char>>,
    common: Multiset<Seq<char>>,
)
    requires
        one.add(common) == other.add(common),
    ensures
        one == other,
{
    broadcast use vstd::multiset::group_multiset_axioms;

    assert forall|comment: Seq<char>| one.count(comment) == other.count(comment) by {
        assert(one.add(common).count(comment) == one.count(comment) + common.count(comment));
        assert(other.add(common).count(comment) == other.count(comment) + common.count(comment));
    }
    assert(one =~= other);
}

/// The keys that stand alone in a header of a text.
pub uninterp spec fn headers_in(text: Seq<char>) -> Set<Seq<char>>;

/// The keys that stand alone in a header of what a document is written as.
pub uninterp spec fn headers_of(document: DocumentMut) -> Set<Seq<char>>;

/// The keys of a table behind which a table under a header stands.
pub uninterp spec fn headed_keys(table: Table) -> Set<Seq<char>>;

/// Whether a table is written under a header.
pub uninterp spec fn headed(table: Table) -> bool;

/// Keys with one more, or with one less.
pub open spec fn with_header(keys: Set<Seq<char>>, key: Seq<char>, there: bool) -> Set<Seq<char>> {
    if there {
        keys.insert(key)
    } else {
        keys.remove(key)
    }
}

/// What a text comes out as that is parsed and written and not changed. The
/// order of the keys and the white space are those of the text, as far as a
/// document keeps them.
pub uninterp spec fn kept_text(text: Seq<char>) -> Seq<char>;

/// What a document is written as.
pub uninterp spec fn layout_of(document: DocumentMut) -> Seq<char>;

/// Whether one thing more was put behind all that a table, or one table in it,
/// held, and all else left as it was.
pub uninterp spec fn grown(before: Table, after: Table) -> bool;

/// Whether a table was made and filled anew, so that it and the tables in it
/// have no place in a text that was parsed.
pub uninterp spec fn fresh(table: Table) -> bool;

/// Whether the tables of a list were made and filled anew.
pub uninterp spec fn fresh_list(tables: ArrayOfTables) -> bool;

/// Whether a table is written under a header, and has nothing behind a key yet:
/// what is put there comes to what the table is written with.
pub open spec fn adds_key(table: Table, key: Seq<char>) -> bool {
    headed(table) && !table_keys(table).contains_key(key)
}

/// A text with a piece put in at one place.
pub open spec fn inserted(before: Seq<char>, after: Seq<char>) -> bool {
    exists|at: int, piece: Seq<char>|
        0 <= at <= before.len() && after == #[trigger] with_piece(before, at, piece)
}

/// A text with a piece put in at a place.
pub open spec fn with_piece(text: Seq<char>, at: int, piece: Seq<char>) -> Seq<char> {
    text.take(at) + piece + text.skip(at)
}

/// A document that says this.
pub open spec fn saying(keys: Map<Seq<char>, Toml>) -> Result<Map<Seq<char>, Toml>, Seq<char>> {
    Ok(keys)
}

/// No document, and the parser's message.
pub open spec fn refusing(message: Seq<char>) -> Result<Map<Seq<char>, Toml>, Seq<char>> {
    Err(message)
}

/// A table that says nothing.
pub open spec fn no_keys() -> Map<Seq<char>, Toml> {
    Map::empty()
}

/// An array of nothing.
pub open spec fn no_values() -> Seq<Toml> {
    Seq::empty()
}

/// The key of the one line of a literal snippet.
pub const LITERAL_KEY: &'static str = "pattern";

/// A text that may stand between single quotes: none of its characters ends
/// the string or the line.
pub open spec fn quotable(text: Seq<char>) -> bool {
    !text.contains('\'') && !text.contains('\n') && !text.contains('\r')
}

/// One line with a text between single quotes behind a key.
pub open spec fn literal_snippet(text: Seq<char>) -> Seq<char> {
    LITERAL_KEY@ + " = '"@ + text + "'\n"@
}

/// Where a text is a literal snippet, the keys are the one with the text
/// between the quotes: there every character stands for itself.
pub open spec fn reads_literally(source: Seq<char>, keys: Map<Seq<char>, Toml>) -> bool {
    forall|text: Seq<char>|
        #![trigger literal_snippet(text)]
        quotable(text) && source == literal_snippet(text) ==> keys == no_keys().insert(
            LITERAL_KEY@,
            Toml::Text(text),
        )
}

/// Where a text is a literal snippet, the string in it is all that stands
/// between single quotes, and there is no comment.
pub open spec fn shows_literally(source: Seq<char>, form: Form) -> bool {
    forall|text: Seq<char>|
        #![trigger literal_snippet(text)]
        quotable(text) && source == literal_snippet(text) ==> {
            &&& form.comments == no_form().comments
            &&& form.literals == no_form().literals.insert(text)
        }
}

/// How many quotes of one kind stand in a row at the end of a text.
pub open spec fn run_at_end(text: Seq<char>, quote: char) -> int
    decreases text.len(),
{
    if text.len() > 0 && text.last() == quote {
        run_at_end(text.drop_last(), quote) + 1
    } else {
        0
    }
}

/// The most quotes of one kind that a string may hold in a row and be encoded.
pub const LONGEST_RUN: usize = 255;

/// A text that can be encoded: it holds no more than `LONGEST_RUN` single
/// quotes in a row, and no more double ones.
pub open spec fn encodable(text: Seq<char>) -> bool {
    forall|end: int|
        0 <= end <= text.len() ==> run_at_end(#[trigger] text.take(end), '\'') <= LONGEST_RUN
            && run_at_end(text.take(end), '"') <= LONGEST_RUN
}

/// A short text can be encoded, whatever it holds.
pub proof fn short_texts_are_encodable(text: Seq<char>)
    requires
        text.len() <= LONGEST_RUN,
    ensures
        encodable(text),
{
    assert forall|end: int| 0 <= end <= text.len() implies run_at_end(
        #[trigger] text.take(end),
        '\'',
    ) <= LONGEST_RUN && run_at_end(text.take(end), '"') <= LONGEST_RUN by {
        a_run_is_no_longer_than_its_text(text.take(end), '\'');
        a_run_is_no_longer_than_its_text(text.take(end), '"');
    }
}

proof fn a_run_is_no_longer_than_its_text(text: Seq<char>, quote: char)
    ensures
        0 <= run_at_end(text, quote) <= text.len(),
    decreases text.len(),
{
    if text.len() > 0 {
        a_run_is_no_longer_than_its_text(text.drop_last(), quote);
    }
}

/// Whether `text` can be encoded.
pub fn is_encodable(text: &str) -> (yes: bool)
    ensures
        yes == encodable(text@),
{
    let chars = text::chars_of(text);
    let mut single: usize = 0;
    let mut double: usize = 0;
    let mut i: usize = 0;
    assert(chars@.take(0) =~= Seq::empty());
    while i < chars.len()
        invariant
            chars@ == text@,
            i <= chars@.len(),
            single == run_at_end(chars@.take(i as int), '\''),
            double == run_at_end(chars@.take(i as int), '"'),
            single <= LONGEST_RUN,
            double <= LONGEST_RUN,
            forall|end: int|
                0 <= end <= i ==> run_at_end(#[trigger] text@.take(end), '\'') <= LONGEST_RUN
                    && run_at_end(text@.take(end), '"') <= LONGEST_RUN,
        decreases chars@.len() - i,
    {
        proof {
            assert(chars@.take(i + 1).drop_last() =~= chars@.take(i as int));
            assert(chars@.take(i + 1).last() == chars@[i as int]);
        }
        single = if chars[i] == '\'' {
            single + 1
        } else {
            0
        };
        double = if chars[i] == '"' {
            double + 1
        } else {
            0
        };
        if single > LONGEST_RUN || double > LONGEST_RUN {
            assert(!encodable(text@)) by {
                assert(text@.take(i + 1) == chars@.take(i + 1));
            }
            return false;
        }
        i += 1;
    }
    true
}

/// A list of no tables.
pub open spec fn no_tables() -> Seq<Toml> {
    Seq::empty()
}

/// `DocumentMut::from_str`: the document of a text, or the parser's message. A
/// document that was parsed holds nothing that has no text of its own, and the
/// characters between single quotes stand for themselves. It is written with
/// the comments, the literal strings and the headers of the text.
#[verifier::external_body]
pub(crate) fn parse_document(text: &str) -> (parsed: Result<DocumentMut, String>)
    ensures
        match parsed {
            Ok(document) => {
                &&& document_keys(text@) == saying(keys_of(document))
                &&& complete(Toml::Table(keys_of(document)))
                &&& reads_literally(text@, keys_of(document))
                &&& form_of(document) == form_in(text@)
                &&& shows_literally(text@, form_of(document))
                &&& headers_of(document) == headers_in(text@)
                &&& layout_of(document) == kept_text(text@)
            },
            Err(message) => document_keys(text@) == refusing(message@),
        },
{
    DocumentMut::from_str(text).map_err(|err| err.to_string())
}

/// The `Display` of `DocumentMut`: a text that says what the document says,
/// where all of that has a text, and that shows the document's comments, literal
/// strings and headers.
#[verifier::external_body]
pub(crate) fn document_text(document: &DocumentMut) -> (text: String)
    requires
        complete(Toml::Table(keys_of(*document))),
    ensures
        document_keys(text@) == saying(keys_of(*document)),
        form_in(text@) == form_of(*document),
        headers_in(text@) == headers_of(*document),
        text@ == layout_of(*document),
{
    document.to_string()
}

/// `DocumentMut::as_table_mut`: the table that is the document. Beside it the
/// document holds what stands behind the last table, comments among it. One
/// thing more in the table is one piece more in the text.
#[verifier::external_body]
pub(crate) fn root_table(document: &mut DocumentMut) -> (root: &mut Table)
    ensures
        table_keys(*root) == keys_of(*old(document)),
        keys_of(*final(document)) == table_keys(*final(root)),
        changed_inside(
            form_of(*old(document)),
            form_of(*final(document)),
            table_form(*root),
            table_form(*final(root)),
        ),
        headed_keys(*root) == headers_of(*old(document)),
        headers_of(*final(document)) == headed_keys(*final(root)),
        table_form(*root).literals == form_of(*old(document)).literals,
        table_form(*root).comments.subset_of(form_of(*old(document)).comments),
        grown(*root, *final(root)) ==> inserted(
            layout_of(*old(document)),
            layout_of(*final(document)),
        ),
{
    document.as_table_mut()
}

/// `Table::get_mut` and `Item::as_table_mut`: the table behind a key, where
/// that is a table and no inline one.
#[verifier::external_body]
pub(crate) fn inner_table<'a>(table: &'a mut Table, key: &str) -> (inner: Option<&'a mut Table>)
    ensures
        match inner {
            Some(inner) => {
                &&& table_keys(*old(table)).contains_key(key@)
                &&& table_keys(*old(table))[key@] == table_value(*inner)
                &&& table_keys(*final(table)) == table_keys(*old(table)).insert(
                    key@,
                    table_value(*final(inner)),
                )
                &&& changed_inside(
                    table_form(*old(table)),
                    table_form(*final(table)),
                    table_form(*inner),
                    table_form(*final(inner)),
                )
                &&& headed_keys(*old(table)) == with_header(
                    headed_keys(*old(table)),
                    key@,
                    headed(*inner),
                )
                &&& headed_keys(*final(table)) == with_header(
                    headed_keys(*old(table)),
                    key@,
                    headed(*final(inner)),
                )
                &&& grown(*inner, *final(inner)) ==> grown(*old(table), *final(table))
            },
            None => {
                &&& table_keys(*old(table)).contains_key(key@) ==> {
                    &&& !(table_keys(*old(table))[key@] is Table)
                    &&& !(table_keys(*old(table))[key@] is Hidden)
                }
                &&& table_keys(*final(table)) == table_keys(*old(table))
            },
        },
{
    table.get_mut(key)?.as_table_mut()
}

/// `Table::contains_key`: whether something stands behind a key.
#[verifier::external_body]
pub(crate) fn has_key(table: &Table, key: &str) -> (yes: bool)
    ensures
        yes == (table_keys(*table).contains_key(key@) && !(table_keys(*table)[key@] is Nothing)),
{
    table.contains_key(key)
}

/// `Table::new`: a table that says nothing, under a header of its own.
#[verifier::external_body]
pub(crate) fn new_table() -> (table: Table)
    ensures
        table_keys(table) == no_keys(),
        !hidden(table),
        table_form(table) == no_form(),
        headed(table),
        fresh(table),
{
    Table::new()
}

/// `Table::new` and `Table::set_implicit`: a table that says nothing, whose
/// header is left out where it has no values of its own.
#[verifier::external_body]
pub(crate) fn new_hidden_table() -> (table: Table)
    ensures
        table_keys(table) == no_keys(),
        hidden(table),
        table_form(table) == no_form(),
        !headed(table),
        fresh(table),
{
    let mut table = Table::new();
    table.set_implicit(true);
    table
}

/// `Table::insert` of a string. The string is encoded when the document is
/// written, by an encoder that counts quotes in a row in eight bits.
#[verifier::external_body]
pub(crate) fn put_text(table: &mut Table, key: &str, text: &str)
    requires
        encodable(text@),
    ensures
        table_keys(*final(table)) == table_keys(*old(table)).insert(key@, Toml::Text(text@)),
        hidden(*final(table)) == hidden(*old(table)),
        adds_key(*old(table), key@) ==> with_encoded(
            table_form(*old(table)),
            table_form(*final(table)),
        ),
        headed(*old(table)) ==> headed(*final(table)),
        fresh(*old(table)) ==> fresh(*final(table)),
{
    table.insert(key, toml_edit::value(text));
}

/// `Table::remove`: takes out what stands behind a key, with the form that it
/// was written in.
#[verifier::external_body]
pub(crate) fn take_item(table: &mut Table, key: &str) -> (item: Item)
    requires
        table_keys(*old(table)).contains_key(key@),
    ensures
        item_value(item) == table_keys(*old(table))[key@],
        table_keys(*final(table)) == table_keys(*old(table)).remove(key@),
        hidden(*final(table)) == hidden(*old(table)),
        item_form(item).comments.subset_of(table_form(*old(table)).comments),
        table_keys(*old(table)) == no_keys().insert(key@, item_value(item)) ==> item_form(
            item,
        ).literals == table_form(*old(table)).literals,
{
    table.remove(key).unwrap_or_default()
}

/// `Table::insert` of what stood behind a key elsewhere.
#[verifier::external_body]
pub(crate) fn put_item(table: &mut Table, key: &str, item: Item)
    ensures
        table_keys(*final(table)) == table_keys(*old(table)).insert(key@, item_value(item)),
        hidden(*final(table)) == hidden(*old(table)),
        adds_key(*old(table), key@) ==> {
            &&& table_form(*final(table)) == both(table_form(*old(table)), item_form(item))
            &&& headed(*final(table))
        },
        fresh(*old(table)) && item_value(item) is Text ==> fresh(*final(table)),
{
    table.insert(key, item);
}

/// `Array::new`: an array of nothing.
#[verifier::external_body]
pub(crate) fn new_array() -> (array: Array)
    ensures
        values_of(array) == no_values(),
        array_form(array) == no_form(),
{
    Array::new()
}

/// `Array::push` of a string. The string is encoded when the document is
/// written, by an encoder that counts quotes in a row in eight bits.
#[verifier::external_body]
pub(crate) fn push_string(array: &mut Array, text: &str)
    requires
        encodable(text@),
    ensures
        values_of(*final(array)) == values_of(*old(array)).push(Toml::Text(text@)),
        with_encoded(array_form(*old(array)), array_form(*final(array))),
{
    array.push(text);
}

/// `Table::insert` of an array.
#[verifier::external_body]
pub(crate) fn put_array(table: &mut Table, key: &str, array: Array)
    ensures
        table_keys(*final(table)) == table_keys(*old(table)).insert(
            key@,
            Toml::Array(values_of(array)),
        ),
        hidden(*final(table)) == hidden(*old(table)),
        adds_key(*old(table), key@) ==> {
            &&& table_form(*final(table)) == both(table_form(*old(table)), array_form(array))
            &&& headed(*final(table))
        },
        fresh(*old(table)) ==> fresh(*final(table)),
{
    table.insert(key, toml_edit::value(array));
}

/// `Table::insert` of a table.
#[verifier::external_body]
pub(crate) fn put_table(table: &mut Table, key: &str, inner: Table)
    ensures
        table_keys(*final(table)) == table_keys(*old(table)).insert(
            key@,
            table_value(inner),
        ),
        hidden(*final(table)) == hidden(*old(table)),
        !table_keys(*old(table)).contains_key(key@) && fresh(inner) ==> {
            &&& table_form(*final(table)) == both(table_form(*old(table)), table_form(inner))
            &&& headed_keys(*final(table)) == if headed(inner) {
                headed_keys(*old(table)).insert(key@)
            } else {
                headed_keys(*old(table))
            }
            &&& headed(*final(table)) == headed(*old(table))
            &&& grown(*old(table), *final(table))
        },
        fresh(*old(table)) && fresh(inner) ==> fresh(*final(table)),
{
    table.insert(key, Item::Table(inner));
}

/// `ArrayOfTables::new`: a list of no tables.
#[verifier::external_body]
pub(crate) fn new_tables() -> (tables: ArrayOfTables)
    ensures
        tables_of(tables) == no_tables(),
        list_form(tables) == no_form(),
        fresh_list(tables),
{
    ArrayOfTables::new()
}

/// `ArrayOfTables::push`.
#[verifier::external_body]
pub(crate) fn push_table(tables: &mut ArrayOfTables, table: Table)
    ensures
        tables_of(*final(tables)) == tables_of(*old(tables)).push(Toml::Table(table_keys(table))),
        list_form(*final(tables)) == both(list_form(*old(tables)), table_form(table)),
        fresh_list(*old(tables)) && fresh(table) ==> fresh_list(*final(tables)),
{
    tables.push(table);
}

/// `Table::insert` of a list of tables.
#[verifier::external_body]
pub(crate) fn put_tables(table: &mut Table, key: &str, tables: ArrayOfTables)
    ensures
        table_keys(*final(table)) == table_keys(*old(table)).insert(
            key@,
            Toml::Tables(tables_of(tables)),
        ),
        hidden(*final(table)) == hidden(*old(table)),
        adds_key(*old(table), key@) ==> {
            &&& table_form(*final(table)) == both(table_form(*old(table)), list_form(tables))
            &&& headed(*final(table))
        },
        fresh(*old(table)) && fresh_list(tables) ==> fresh(*final(table)),
{
    table.insert(key, Item::ArrayOfTables(tables));
}

} // verus!
