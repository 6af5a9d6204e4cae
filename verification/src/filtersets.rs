//! Filter sets in files: where the files are, what they may say, and how a
//! set is saved.

use vstd::prelude::*;

use crate::colour;
use crate::colour::Color;
use crate::config;
use crate::document_text;
use crate::document_text::{Form, Toml};
use crate::filter::model;
use crate::filter::model::{LoadedFilterModel, LoadedModel, PredicateModel};
use crate::filter::profiles::Profiles;
use crate::filter::sets;
use crate::filter::sets::{LoadedFilter, LoadedSet, DEFINITIONS_SET};
use crate::filter::{Predicate, Sense};
use crate::path;
use crate::pattern;
use crate::pattern::{Pattern, PatternError};
use crate::syntax::{Kind, KIND_COUNT};
use crate::set_laws;
use crate::text;
use toml_edit::{Array, ArrayOfTables, Table};

verus! {

/// The file of the user's own sets, beside the configuration file.
pub const FILE: &'static str = "filters.toml";

/// What the name of another file of sets ends in.
pub const SUFFIX: &'static str = ".filters.toml";

/// The priority of a set that gives none.
pub const DEFAULT_PRIORITY: i32 = 50;

/// The one mode a set may ask for.
pub const ONLY_MODE: &'static str = "or";

// ---------------------------------------------------------------------------
// What a file says

/// A file of sets, as it was written.
pub struct FileSchema {
    /// The tables by their names, in the order of the names.
    pub sets: Vec<(String, SetSchema)>,
}

/// One table.
pub struct SetSchema {
    pub priority: Option<i32>,
    pub autoload: Option<bool>,
    pub listed: Option<bool>,
    pub description: Option<String>,
    pub mode: Option<String>,
    /// The profiles by their names, in the order of the names.
    pub profiles: Vec<(String, Vec<String>)>,
    pub filters: Vec<FilterSchema>,
}

/// One filter of a table.
pub struct FilterSchema {
    pub pattern: String,
    pub name: Option<String>,
    pub sense: Option<Sense>,
    pub colour: Option<String>,
}

/// What one filter of a table says.
#[verifier::ext_equal]
pub struct FilterSchemaModel {
    pub pattern: Seq<char>,
    pub name: Option<Seq<char>>,
    pub sense: Option<Sense>,
    pub colour: Option<Seq<char>>,
}

/// What one table says.
#[verifier::ext_equal]
pub struct SetSchemaModel {
    pub priority: Option<i32>,
    pub autoload: Option<bool>,
    pub listed: Option<bool>,
    pub description: Option<Seq<char>>,
    pub mode: Option<Seq<char>>,
    pub profiles: Seq<(Seq<char>, Seq<Seq<char>>)>,
    pub filters: Seq<FilterSchemaModel>,
}

impl View for FilterSchema {
    type V = FilterSchemaModel;

    open spec fn view(&self) -> FilterSchemaModel {
        FilterSchemaModel {
            pattern: self.pattern@,
            name: text::option_text(self.name),
            sense: self.sense,
            colour: text::option_text(self.colour),
        }
    }
}

/// The models of profiles.
pub open spec fn profile_models(profiles: Seq<(String, Vec<String>)>) -> Seq<
    (Seq<char>, Seq<Seq<char>>),
> {
    Seq::new(profiles.len(), |i: int| (profiles[i].0@, text::texts(profiles[i].1@)))
}

/// The models of a table's filters.
pub open spec fn filter_schema_models(filters: Seq<FilterSchema>) -> Seq<FilterSchemaModel> {
    Seq::new(filters.len(), |i: int| filters[i]@)
}

impl View for SetSchema {
    type V = SetSchemaModel;

    open spec fn view(&self) -> SetSchemaModel {
        SetSchemaModel {
            priority: self.priority,
            autoload: self.autoload,
            listed: self.listed,
            description: text::option_text(self.description),
            mode: text::option_text(self.mode),
            profiles: profile_models(self.profiles@),
            filters: filter_schema_models(self.filters@),
        }
    }
}

impl View for FileSchema {
    type V = Seq<(Seq<char>, SetSchemaModel)>;

    open spec fn view(&self) -> Seq<(Seq<char>, SetSchemaModel)> {
        Seq::new(self.sets@.len(), |i: int| (self.sets@[i].0@, self.sets@[i].1@))
    }
}

/// Profiles of which no two have one name.
pub open spec fn profiles_once(profiles: Seq<(Seq<char>, Seq<Seq<char>>)>) -> bool {
    forall|i: int, j: int|
        0 <= i < j < profiles.len() ==> (#[trigger] profiles[i]).0 != (#[trigger] profiles[j]).0
}

/// A file in which every name stands once: no two tables have one, and no two
/// profiles of a table.
pub open spec fn named_once(file: Seq<(Seq<char>, SetSchemaModel)>) -> bool {
    &&& forall|i: int, j: int|
        0 <= i < j < file.len() ==> (#[trigger] file[i]).0 != (#[trigger] file[j]).0
    &&& forall|i: int| 0 <= i < file.len() ==> profiles_once((#[trigger] file[i]).1.profiles)
}

// ---------------------------------------------------------------------------
// What is wrong with it

/// Why a file of sets could not be used.
#[derive(Debug, Clone, PartialEq, Eq)]
pub enum Error {
    /// The file could not be read.
    Read { path: String, source: String },
    /// A directory of set files could not be read.
    ReadDir { path: String, source: String },
    /// The file is not TOML, or holds a key that means nothing.
    Parse { path: String, source: String },
    /// The file says something that cannot be used.
    Invalid { path: String, set: String, filter: Option<String>, message: String },
}

impl Error {
    /// The message that names the file and what is wrong with it.
    pub open spec fn text(self) -> Seq<char> {
        match self {
            Error::Read { path, source } => "could not read filter sets file "@ + path@ + ": "@
                + source@,
            Error::ReadDir { path, source } => "could not read filter sets directory "@ + path@
                + ": "@ + source@,
            Error::Parse { path, source } => "invalid filter sets file "@ + path@ + "\n"@
                + source@,
            Error::Invalid { path, set, filter, message } => "invalid filter sets file "@ + path@
                + ": [sets."@ + set@ + "]"@ + (match filter {
                Some(filter) => " filter '"@ + filter@ + "'"@,
                None => ""@,
            }) + ": "@ + message@,
        }
    }

    /// The message that names the file and what is wrong with it.
    pub fn message(&self) -> (shown: String)
        ensures
            shown@ == self.text(),
    {
        match self {
            Error::Read { path, source } => {
                let mut shown = "could not read filter sets file ".to_owned();
                shown.append(path.as_str());
                shown.append(": ");
                shown.append(source.as_str());
                shown
            },
            Error::ReadDir { path, source } => {
                let mut shown = "could not read filter sets directory ".to_owned();
                shown.append(path.as_str());
                shown.append(": ");
                shown.append(source.as_str());
                shown
            },
            Error::Parse { path, source } => {
                let mut shown = "invalid filter sets file ".to_owned();
                shown.append(path.as_str());
                shown.append("\n");
                shown.append(source.as_str());
                shown
            },
            Error::Invalid { path, set, filter, message } => {
                let mut shown = "invalid filter sets file ".to_owned();
                shown.append(path.as_str());
                shown.append(": [sets.");
                shown.append(set.as_str());
                shown.append("]");
                let mut named = "".to_owned();
                if let Some(filter) = filter {
                    named = " filter '".to_owned();
                    named.append(filter.as_str());
                    named.append("'");
                }
                shown.append(named.as_str());
                shown.append(": ");
                shown.append(message.as_str());
                shown
            },
        }
    }
}

/// Something wrong in a table, and the filter it is wrong with, if it is one.
#[verifier::ext_equal]
pub struct Complaint {
    pub filter: Option<Seq<char>>,
    pub message: Seq<char>,
}

/// Something wrong in a file.
#[verifier::ext_equal]
pub struct FileComplaint {
    pub set: Seq<char>,
    pub complaint: Complaint,
}

/// A complaint about a table as a whole.
pub open spec fn about_table(message: Seq<char>) -> Option<Complaint> {
    Some(Complaint { filter: None, message })
}

/// What a filter of a table is called.
pub open spec fn display(filter: FilterSchemaModel) -> Seq<char> {
    match filter.name {
        Some(name) => name,
        None => filter.pattern,
    }
}

/// What is wrong with a table before its filters are looked at.
pub open spec fn head_complaint(name: Seq<char>, schema: SetSchemaModel) -> Option<Seq<char>> {
    if name.len() == 0 {
        Some("a set's name cannot be empty"@)
    } else if schema.description matches Some(line) && (line.contains('\n') || line.contains(
        '\r',
    )) {
        Some("`description` must be one line of text"@)
    } else if schema.mode matches Some(mode) && mode != ONLY_MODE@ {
        Some(
            "mode "@ + text::debug_text(schema.mode->Some_0) + " is not supported; only "@
                + text::debug_text(ONLY_MODE@) + " is"@,
        )
    } else {
        None
    }
}

/// The first of the members that is not known.
pub open spec fn first_unknown(members: Seq<Seq<char>>, known: Seq<Seq<char>>) -> int {
    model::first_index(|i: int| !known.contains(members[i]), 0, members.len() as int)
}

/// What is wrong with the profiles from `i` on: the first member that is not
/// known, in the first profile that has one.
pub open spec fn profiles_complaint(
    profiles: Seq<(Seq<char>, Seq<Seq<char>>)>,
    i: int,
    known: Seq<Seq<char>>,
    ending: Seq<char>,
) -> Option<Seq<char>>
    decreases profiles.len() - i,
{
    if i >= profiles.len() {
        None
    } else {
        let members = profiles[i].1;
        let at = first_unknown(members, known);
        if at < members.len() {
            Some(
                "profile "@ + text::debug_text(profiles[i].0) + " names "@ + text::debug_text(
                    members[at],
                ) + ", which is not a filter in this set"@ + ending,
            )
        } else {
            profiles_complaint(profiles, i + 1, known, ending)
        }
    }
}

/// The nouns of the first `count` kinds.
pub open spec fn kind_nouns(count: int) -> Seq<Seq<char>> {
    Seq::new(count as nat, |k: int| Kind::ALL[k].noun())
}

/// The nouns of the first `count` kinds, a comma between each two.
pub open spec fn kind_list(count: int) -> Seq<char>
    decreases count,
{
    if count <= 0 {
        Seq::empty()
    } else if count == 1 {
        Kind::ALL[0].noun()
    } else {
        kind_list(count - 1) + ", "@ + Kind::ALL[count - 1].noun()
    }
}

/// What is wrong with a table of the built-in set: it may not hold filters,
/// and its profiles may name kinds alone.
pub open spec fn builtin_complaint(name: Seq<char>, schema: SetSchemaModel) -> Option<Seq<char>> {
    if schema.filters.len() > 0 {
        Some(
            text::debug_text(name)
                + " is a built-in set; its table may set `priority`, `autoload`, `listed`, `description` and `profiles` only"@,
        )
    } else {
        profiles_complaint(
            schema.profiles,
            0,
            kind_nouns(KIND_COUNT as int),
            "; the built-in filters are "@ + kind_list(KIND_COUNT as int),
        )
    }
}

/// The names of the first `count` filters of a table.
pub open spec fn names_before(filters: Seq<FilterSchemaModel>, count: int) -> Seq<Seq<char>> {
    Seq::new(count as nat, |j: int| display(filters[j]))
}

/// What is wrong with one filter, where `refusal` is what the regex engine says
/// against its pattern, `read` the colour of its spelling, and `taken` the
/// names of the filters before it.
pub open spec fn filter_complaint(
    filter: FilterSchemaModel,
    refusal: Option<Seq<char>>,
    read: Option<Color>,
    taken: Seq<Seq<char>>,
) -> Option<Seq<char>> {
    if refusal is Some {
        refusal
    } else if filter.colour is Some && read is None {
        Some(config::colour_complaint(filter.colour->Some_0))
    } else if taken.contains(display(filter)) {
        Some(
            "two filters named "@ + text::debug_text(display(filter))
                + "; give one a distinct `name`"@,
        )
    } else {
        None
    }
}

/// The colour that a filter of a table asks for.
pub open spec fn asked_colour(filter: FilterSchemaModel) -> Option<Color> {
    match filter.colour {
        Some(spelling) => colour::spelled_colour(spelling),
        None => None,
    }
}

/// What is wrong with the filter at `j`.
pub open spec fn complaint_at(filters: Seq<FilterSchemaModel>, j: int) -> Option<Seq<char>> {
    filter_complaint(
        filters[j],
        pattern::refusal(filters[j].pattern),
        asked_colour(filters[j]),
        names_before(filters, j),
    )
}

/// The first filter that something is wrong with.
pub open spec fn first_bad_filter(filters: Seq<FilterSchemaModel>) -> int {
    model::first_index(|j: int| complaint_at(filters, j) is Some, 0, filters.len() as int)
}

/// What is wrong with a table of the user's.
pub open spec fn own_complaint(schema: SetSchemaModel) -> Option<Complaint> {
    let bad = first_bad_filter(schema.filters);
    if schema.filters.len() == 0 {
        about_table("a set with no filters; add at least one [[sets.<name>.filters]]"@)
    } else if bad < schema.filters.len() {
        Some(
            Complaint {
                filter: Some(display(schema.filters[bad])),
                message: complaint_at(schema.filters, bad)->Some_0,
            },
        )
    } else {
        match profiles_complaint(
            schema.profiles,
            0,
            names_before(schema.filters, schema.filters.len() as int),
            ""@,
        ) {
            Some(message) => about_table(message),
            None => None,
        }
    }
}

/// What is wrong with a table, if anything is.
pub open spec fn table_complaint(name: Seq<char>, schema: SetSchemaModel) -> Option<Complaint> {
    if head_complaint(name, schema) is Some {
        about_table(head_complaint(name, schema)->Some_0)
    } else if name == DEFINITIONS_SET@ {
        match builtin_complaint(name, schema) {
            Some(message) => about_table(message),
            None => None,
        }
    } else {
        own_complaint(schema)
    }
}

// ---------------------------------------------------------------------------
// What it comes to

/// Profiles by name.
pub open spec fn profile_map(profiles: Seq<(Seq<char>, Seq<Seq<char>>)>) -> Map<
    Seq<char>,
    Seq<Seq<char>>,
>
    decreases profiles.len(),
{
    if profiles.len() == 0 {
        Map::empty()
    } else {
        profile_map(profiles.drop_last()).insert(profiles.last().0, profiles.last().1)
    }
}

/// A filter of a table in use.
pub open spec fn loaded_filter(filter: FilterSchemaModel) -> LoadedFilterModel {
    LoadedFilterModel {
        name: display(filter),
        predicate: PredicateModel::Regex(filter.pattern),
        sense: match filter.sense {
            Some(sense) => sense,
            None => Sense::Include,
        },
        colour: asked_colour(filter),
    }
}

/// The filters of a table in use.
pub open spec fn loaded_filters(filters: Seq<FilterSchemaModel>) -> Seq<LoadedFilterModel> {
    Seq::new(filters.len(), |j: int| loaded_filter(filters[j]))
}

/// The set that a table says, with the defaults for what it leaves out.
pub open spec fn loaded_set(
    name: Seq<char>,
    schema: SetSchemaModel,
    path: Seq<char>,
) -> LoadedModel {
    LoadedModel {
        name,
        path,
        priority: match schema.priority {
            Some(priority) => priority,
            None => DEFAULT_PRIORITY,
        },
        autoload: schema.autoload == Some(true),
        listed: schema.listed != Some(false),
        description: schema.description,
        profiles: profile_map(schema.profiles),
        filters: loaded_filters(schema.filters),
        builtin: name == DEFINITIONS_SET@,
    }
}

/// The sets of a file in the order of its tables, or what is wrong with the
/// first table that something is wrong with.
pub open spec fn file_sets(
    file: Seq<(Seq<char>, SetSchemaModel)>,
    path: Seq<char>,
) -> Result<Seq<LoadedModel>, FileComplaint>
    decreases file.len(),
{
    if file.len() == 0 {
        Ok(Seq::empty())
    } else {
        match file_sets(file.drop_last(), path) {
            Err(complaint) => Err(complaint),
            Ok(sets) => {
                let (name, schema) = file.last();
                match table_complaint(name, schema) {
                    Some(complaint) => Err(FileComplaint { set: name, complaint }),
                    None => Ok(sets.push(loaded_set(name, schema, path))),
                }
            },
        }
    }
}

/// An error that says this of a file.
pub open spec fn says(error: Error, path: Seq<char>, complaint: FileComplaint) -> bool {
    error matches Error::Invalid { path: named, set, filter, message } && {
        &&& named@ == path
        &&& set@ == complaint.set
        &&& text::option_text(filter) == complaint.complaint.filter
        &&& message@ == complaint.complaint.message
    }
}

// ---------------------------------------------------------------------------
// Reading it

/// What is wrong with a table before its filters are looked at.
fn check_head(name: &str, schema: &SetSchema) -> (complaint: Option<String>)
    ensures
        text::option_text(complaint) == head_complaint(name@, schema@),
{
    if name.is_empty() {
        return Some("a set's name cannot be empty".to_owned());
    }
    if let Some(line) = &schema.description {
        if text::has_char(line.as_str(), '\n') || text::has_char(line.as_str(), '\r') {
            return Some("`description` must be one line of text".to_owned());
        }
    }
    if let Some(mode) = &schema.mode {
        if !text::same(mode.as_str(), ONLY_MODE) {
            let mut message = "mode ".to_owned();
            message.append(text::quoted(mode.as_str()).as_str());
            message.append(" is not supported; only ");
            message.append(text::quoted(ONLY_MODE).as_str());
            message.append(" is");
            return Some(message);
        }
    }
    None
}

/// The first of the members that is not known, or the number of them.
fn find_unknown(members: &Vec<String>, known: &Vec<String>) -> (at: usize)
    ensures
        at == first_unknown(text::texts(members@), text::texts(known@)),
        at <= members@.len(),
{
    let ghost names = text::texts(members@);
    let ghost all = text::texts(known@);
    let ghost test = |i: int| !all.contains(names[i]);
    let mut at: usize = 0;
    while at < members.len()
        invariant
            names == text::texts(members@),
            all == text::texts(known@),
            test == (|i: int| !all.contains(names[i])),
            at <= members@.len(),
            forall|i: int| 0 <= i < at ==> !(#[trigger] test(i)),
        decreases members@.len() - at,
    {
        assert(names[at as int] == members@[at as int]@);
        if !text::has_text(known, members[at].as_str()) {
            assert(test(at as int));
            proof {
                model::first_index_is(test, 0, names.len() as int, at as int);
            }
            return at;
        }
        assert(!test(at as int));
        at += 1;
    }
    proof {
        model::first_index_is(test, 0, names.len() as int, at as int);
    }
    at
}

/// What is wrong with the profiles of a table whose filters are `known`.
fn check_profiles(profiles: &Vec<(String, Vec<String>)>, known: &Vec<String>, ending: &str) -> (
    complaint: Option<String>)
    ensures
        text::option_text(complaint) == profiles_complaint(
            profile_models(profiles@),
            0,
            text::texts(known@),
            ending@,
        ),
{
    let ghost models = profile_models(profiles@);
    let ghost all = text::texts(known@);
    let mut i: usize = 0;
    while i < profiles.len()
        invariant
            models == profile_models(profiles@),
            all == text::texts(known@),
            i <= profiles@.len(),
            profiles_complaint(models, 0, all, ending@) == profiles_complaint(
                models,
                i as int,
                all,
                ending@,
            ),
        decreases profiles@.len() - i,
    {
        assert(models[i as int] == (profiles@[i as int].0@, text::texts(profiles@[i as int].1@)));
        let at = find_unknown(&profiles[i].1, known);
        if at < profiles[i].1.len() {
            let mut message = "profile ".to_owned();
            message.append(text::quoted(profiles[i].0.as_str()).as_str());
            message.append(" names ");
            message.append(text::quoted(profiles[i].1[at].as_str()).as_str());
            message.append(", which is not a filter in this set");
            message.append(ending);
            return Some(message);
        }
        i += 1;
    }
    None
}

/// The nouns of the kinds, by which the built-in filters are named.
fn kind_names() -> (names: Vec<String>)
    ensures
        text::texts(names@) == kind_nouns(KIND_COUNT as int),
{
    let mut names: Vec<String> = Vec::new();
    let mut k: usize = 0;
    assert(text::texts(names@) =~= kind_nouns(0));
    while k < KIND_COUNT
        invariant
            k <= KIND_COUNT,
            text::texts(names@) == kind_nouns(k as int),
        decreases KIND_COUNT - k,
    {
        let name = Kind::ALL[k].plural().to_owned();
        proof {
            text::texts_push(names@, name);
        }
        names.push(name);
        assert(text::texts(names@) =~= kind_nouns(k + 1));
        k += 1;
    }
    names
}

/// The nouns of the kinds, a comma between each two.
fn kind_names_listed() -> (list: String)
    ensures
        list@ == kind_list(KIND_COUNT as int),
{
    let mut list = String::new();
    let mut k: usize = 0;
    assert(list@ =~= kind_list(0));
    while k < KIND_COUNT
        invariant
            k <= KIND_COUNT,
            list@ == kind_list(k as int),
        decreases KIND_COUNT - k,
    {
        if k > 0 {
            list.append(", ");
        }
        list.append(Kind::ALL[k].plural());
        assert(list@ =~= kind_list(k + 1));
        k += 1;
    }
    list
}

/// What is wrong with a table of the built-in set.
fn check_builtin(name: &str, schema: &SetSchema) -> (complaint: Option<String>)
    ensures
        text::option_text(complaint) == builtin_complaint(name@, schema@),
{
    if schema.filters.len() > 0 {
        let mut message = text::quoted(name);
        message.append(
            " is a built-in set; its table may set `priority`, `autoload`, `listed`, `description` and `profiles` only",
        );
        return Some(message);
    }
    let mut ending = "; the built-in filters are ".to_owned();
    ending.append(kind_names_listed().as_str());
    check_profiles(&schema.profiles, &kind_names(), ending.as_str())
}

/// The names of filters.
pub open spec fn filter_names(filters: Seq<LoadedFilter>) -> Seq<Seq<char>> {
    Seq::new(filters.len(), |i: int| filters[i].name@)
}

/// The names of filters.
fn names_of(filters: &Vec<LoadedFilter>) -> (names: Vec<String>)
    ensures
        text::texts(names@) == filter_names(filters@),
{
    let mut names: Vec<String> = Vec::new();
    let mut i: usize = 0;
    while i < filters.len()
        invariant
            i <= filters@.len(),
            text::texts(names@) =~= filter_names(filters@).take(i as int),
        decreases filters@.len() - i,
    {
        let name = filters[i].name.clone();
        proof {
            text::texts_push(names@, name);
        }
        names.push(name);
        assert(filter_names(filters@).take(i + 1) =~= filter_names(filters@).take(i as int).push(
            filter_names(filters@)[i as int],
        ));
        i += 1;
    }
    assert(filter_names(filters@).take(i as int) =~= filter_names(filters@));
    names
}

/// The filter that a table's entry comes to, or what is wrong with it, once the
/// regex engine has said what it makes of the pattern, and what colour the
/// spelling stands for is known. `taken` are the names of the filters before.
pub fn checked_filter(
    entry: &FilterSchema,
    compiled: Result<Pattern, PatternError>,
    read: Option<Color>,
    taken: &Vec<String>,
) -> (checked: Result<LoadedFilter, String>)
    ensures
        ({
            let refusal = match compiled {
                Ok(_) => None,
                Err(error) => Some(error.message@),
            };
            match checked {
                Ok(filter) => {
                    &&& filter_complaint(entry@, refusal, read, text::texts(taken@)) is None
                    &&& filter.name@ == display(entry@)
                    &&& filter.predicate@ == PredicateModel::Regex(compiled->Ok_0@)
                    &&& filter.sense == (match entry@.sense {
                        Some(sense) => sense,
                        None => Sense::Include,
                    })
                    &&& filter.colour == (if entry@.colour is Some {
                        read
                    } else {
                        None
                    })
                },
                Err(message) => filter_complaint(entry@, refusal, read, text::texts(taken@)) == Some(
                    message@,
                ),
            }
        }),
{
    let name: String = match &entry.name {
        Some(name) => name.clone(),
        None => entry.pattern.clone(),
    };
    let pattern = match compiled {
        Ok(pattern) => pattern,
        Err(error) => {
            return Err(error.message);
        },
    };
    let colour: Option<Color> = match &entry.colour {
        Some(spelling) => match config::parsed_colour(spelling.as_str(), read) {
            Ok(colour) => Some(colour),
            Err(message) => {
                return Err(message);
            },
        },
        None => None,
    };
    if text::has_text(taken, name.as_str()) {
        let mut message = "two filters named ".to_owned();
        message.append(text::quoted(name.as_str()).as_str());
        message.append("; give one a distinct `name`");
        return Err(message);
    }
    let sense = match entry.sense {
        Some(sense) => sense,
        None => Sense::Include,
    };
    Ok(LoadedFilter { name, predicate: Predicate::Regex(pattern), sense, colour })
}

/// The filters that a table's entries come to, or the name of the first that
/// something is wrong with, and what.
fn check_filters(entries: &Vec<FilterSchema>) -> (checked: Result<
    Vec<LoadedFilter>,
    (String, String),
>)
    ensures
        ({
            let models = filter_schema_models(entries@);
            let bad = first_bad_filter(models);
            match checked {
                Ok(filters) => {
                    &&& bad == models.len()
                    &&& sets::loaded_filter_models(filters@) == loaded_filters(models)
                },
                Err((name, message)) => {
                    &&& bad < models.len()
                    &&& name@ == display(models[bad])
                    &&& Some(message@) == complaint_at(models, bad)
                },
            }
        }),
{
    let ghost models = filter_schema_models(entries@);
    let ghost test = |j: int| complaint_at(models, j) is Some;
    let ghost len = models.len() as int;
    let ghost all = loaded_filters(models);
    let mut filters: Vec<LoadedFilter> = Vec::new();
    let mut i: usize = 0;
    while i < entries.len()
        invariant
            models == filter_schema_models(entries@),
            test == (|j: int| complaint_at(models, j) is Some),
            len == models.len(),
            all == loaded_filters(models),
            i <= entries@.len(),
            forall|j: int| 0 <= j < i ==> !(#[trigger] test(j)),
            sets::loaded_filter_models(filters@) =~= all.take(i as int),
            filters@.len() == i,
        decreases entries@.len() - i,
    {
        let entry = &entries[i];
        assert(models[i as int] == entry@);
        let taken = names_of(&filters);
        assert(filter_names(filters@) =~= names_before(models, i as int)) by {
            assert forall|j: int| 0 <= j < i implies filter_names(filters@)[j] == names_before(
                models,
                i as int,
            )[j] by {
                assert(sets::loaded_filter_models(filters@)[j] == all[j]);
            }
        }
        let compiled = Pattern::new(entry.pattern.as_str());
        let read: Option<Color> = match &entry.colour {
            Some(spelling) => colour::read_colour(spelling.as_str()),
            None => None,
        };
        assert(read == asked_colour(models[i as int]));
        match checked_filter(entry, compiled, read, &taken) {
            Ok(filter) => {
                assert(!test(i as int));
                let ghost before = sets::loaded_filter_models(filters@);
                assert(filter@ =~= all[i as int]);
                filters.push(filter);
                assert(sets::loaded_filter_models(filters@) =~= before.push(all[i as int]));
                assert(all.take(i + 1) =~= all.take(i as int).push(all[i as int]));
            },
            Err(message) => {
                assert(test(i as int));
                proof {
                    model::first_index_is(test, 0, len, i as int);
                }
                let name: String = match &entry.name {
                    Some(name) => name.clone(),
                    None => entry.pattern.clone(),
                };
                return Err((name, message));
            },
        }
        i += 1;
    }
    proof {
        model::first_index_is(test, 0, len, i as int);
    }
    assert(all.take(i as int) =~= all);
    Ok(filters)
}

/// Profiles by name.
fn profiles_of(entries: &Vec<(String, Vec<String>)>) -> (profiles: Profiles)
    ensures
        profiles@ == profile_map(profile_models(entries@)),
{
    let ghost models = profile_models(entries@);
    let mut profiles = Profiles::new();
    let mut i: usize = 0;
    while i < entries.len()
        invariant
            models == profile_models(entries@),
            i <= entries@.len(),
            profiles@ == profile_map(models.take(i as int)),
        decreases entries@.len() - i,
    {
        proof {
            assert(models.take(i + 1).drop_last() =~= models.take(i as int));
            assert(models.take(i + 1).last() == models[i as int]);
        }
        profiles.insert(entries[i].0.clone(), text::clone_texts(&entries[i].1));
        i += 1;
    }
    assert(models.take(i as int) =~= models);
    profiles
}

/// A complaint, in the words of an error.
fn invalid(path: &str, set: &str, filter: Option<String>, message: String) -> (error: Error)
    ensures
        error == (Error::Invalid {
            path: error->Invalid_path,
            set: error->Invalid_set,
            filter,
            message,
        }),
        error->Invalid_path@ == path@,
        error->Invalid_set@ == set@,
{
    Error::Invalid { path: path.to_owned(), set: set.to_owned(), filter, message }
}

/// The set that a table comes to, or what is wrong with it.
fn parse_set(name: &str, schema: &SetSchema, path: &str) -> (parsed: Result<LoadedSet, Error>)
    ensures
        match parsed {
            Ok(set) => {
                &&& table_complaint(name@, schema@) is None
                &&& set@ == loaded_set(name@, schema@, path@)
            },
            Err(error) => {
                &&& table_complaint(name@, schema@) is Some
                &&& says(
                    error,
                    path@,
                    (FileComplaint {
                        set: name@,
                        complaint: table_complaint(name@, schema@)->Some_0,
                    }),
                )
            },
        },
{
    if let Some(message) = check_head(name, schema) {
        return Err(invalid(path, name, None, message));
    }
    let builtin = sets::is_builtin_name(name);
    let filters: Vec<LoadedFilter> = if builtin {
        if let Some(message) = check_builtin(name, schema) {
            return Err(invalid(path, name, None, message));
        }
        Vec::new()
    } else {
        if schema.filters.len() == 0 {
            return Err(
                invalid(
                    path,
                    name,
                    None,
                    "a set with no filters; add at least one [[sets.<name>.filters]]".to_owned(),
                ),
            );
        }
        let filters = match check_filters(&schema.filters) {
            Ok(filters) => filters,
            Err((filter, message)) => {
                return Err(invalid(path, name, Some(filter), message));
            },
        };
        let known = names_of(&filters);
        assert(sets::loaded_filter_models(filters@).len() == loaded_filters(schema@.filters).len());
        assert(filter_names(filters@) =~= names_before(
            schema@.filters,
            schema@.filters.len() as int,
        )) by {
            assert forall|j: int| 0 <= j < filters@.len() implies filter_names(filters@)[j]
                == names_before(schema@.filters, schema@.filters.len() as int)[j] by {
                assert(sets::loaded_filter_models(filters@)[j] == loaded_filters(
                    schema@.filters,
                )[j]);
            }
        }
        if let Some(message) = check_profiles(&schema.profiles, &known, "") {
            return Err(invalid(path, name, None, message));
        }
        filters
    };
    let description: Option<String> = match &schema.description {
        Some(line) => Some(line.clone()),
        None => None,
    };
    let set = LoadedSet {
        name: name.to_owned(),
        path: path.to_owned(),
        priority: match schema.priority {
            Some(priority) => priority,
            None => DEFAULT_PRIORITY,
        },
        autoload: match schema.autoload {
            Some(autoload) => autoload,
            None => false,
        },
        listed: match schema.listed {
            Some(listed) => listed,
            None => true,
        },
        description,
        profiles: profiles_of(&schema.profiles),
        filters,
        builtin,
    };
    assert(set@.filters =~= loaded_filters(schema@.filters));
    assert(set@ =~= loaded_set(name@, schema@, path@));
    Ok(set)
}

/// Sets of which no two have one name.
pub open spec fn names_differ(sets: Seq<LoadedModel>) -> bool {
    forall|i: int, j: int|
        0 <= i < j < sets.len() ==> (#[trigger] sets[i]).name != (#[trigger] sets[j]).name
}

/// Sets of which those with the built-in set's name are built in, and no
/// others.
pub open spec fn builtin_by_name(sets: Seq<LoadedModel>) -> bool {
    forall|i: int|
        0 <= i < sets.len() ==> (#[trigger] sets[i]).builtin == (sets[i].name == DEFINITIONS_SET@)
}

/// Sets of which exactly one is built in.
pub open spec fn one_builtin(sets: Seq<LoadedModel>) -> bool {
    exists|i: int|
        {
            &&& 0 <= i < sets.len()
            &&& (#[trigger] sets[i]).builtin
            &&& forall|j: int| 0 <= j < sets.len() && (#[trigger] sets[j]).builtin ==> j == i
        }
}

/// One file's sets as the file has them: in the order of its tables, and with
/// no built-in set added. The first table that something is wrong with refuses
/// the file.
pub fn parse_sets(file: &FileSchema, path: &str) -> (parsed: Result<Vec<LoadedSet>, Error>)
    requires
        named_once(file@),
    ensures
        match parsed {
            Ok(found) => {
                &&& file_sets(file@, path@) == Ok::<_, FileComplaint>(sets::loaded_models(found@))
                &&& names_differ(sets::loaded_models(found@))
                &&& builtin_by_name(sets::loaded_models(found@))
            },
            Err(error) => {
                &&& file_sets(file@, path@) is Err
                &&& says(error, path@, file_sets(file@, path@)->Err_0)
            },
        },
{
    let ghost tables = file@;
    let mut found: Vec<LoadedSet> = Vec::new();
    let mut i: usize = 0;
    assert(sets::loaded_models(found@) =~= Seq::empty());
    while i < file.sets.len()
        invariant
            tables == file@,
            i <= file.sets@.len(),
            file_sets(tables.take(i as int), path@) == Ok::<_, FileComplaint>(
                sets::loaded_models(found@),
            ),
        decreases file.sets@.len() - i,
    {
        proof {
            assert(tables.take(i + 1).drop_last() =~= tables.take(i as int));
            assert(tables.take(i + 1).last() == tables[i as int]);
        }
        let ghost before = sets::loaded_models(found@);
        match parse_set(file.sets[i].0.as_str(), &file.sets[i].1, path) {
            Ok(set) => {
                let ghost added = set@;
                found.push(set);
                assert(sets::loaded_models(found@) =~= before.push(added));
            },
            Err(error) => {
                proof {
                    later_tables_cannot_help(tables, i + 1, path@);
                }
                return Err(error);
            },
        }
        i += 1;
    }
    assert(tables.take(i as int) =~= tables);
    proof {
        set_laws::a_file_is_its_tables(tables, path@);
    }
    Ok(found)
}

/// What is wrong with a file's first tables is wrong with the file.
pub proof fn later_tables_cannot_help(
    file: Seq<(Seq<char>, SetSchemaModel)>,
    count: int,
    path: Seq<char>,
)
    requires
        0 <= count <= file.len(),
        file_sets(file.take(count), path) is Err,
    ensures
        file_sets(file, path) == file_sets(file.take(count), path),
    decreases file.len() - count,
{
    if count < file.len() {
        assert(file.take(count + 1).drop_last() =~= file.take(count));
        later_tables_cannot_help(file, count + 1, path);
    } else {
        assert(file.take(count) =~= file);
    }
}

// ---------------------------------------------------------------------------
// Putting files together

/// The place of `set` among sets in order.
fn place_of(found: &Vec<LoadedSet>, set: &LoadedSet) -> (place: usize)
    ensures
        place == model::place_among(sets::loaded_models(found@), set@),
        place <= found@.len(),
{
    let ghost models = sets::loaded_models(found@);
    let ghost test = |i: int| set@.stands_before(models[i]);
    let mut place: usize = 0;
    while place < found.len()
        invariant
            models == sets::loaded_models(found@),
            test == (|i: int| set@.stands_before(models[i])),
            place <= found@.len(),
            forall|i: int| 0 <= i < place ==> !(#[trigger] test(i)),
        decreases found@.len() - place,
    {
        assert(models[place as int] == found@[place as int]@);
        if set.stands_before(&found[place]) {
            assert(test(place as int));
            proof {
                model::first_index_is(test, 0, models.len() as int, place as int);
            }
            return place;
        }
        assert(!test(place as int));
        place += 1;
    }
    proof {
        model::first_index_is(test, 0, models.len() as int, place as int);
    }
    place
}

/// Makes a list of sets the list that is shown: the built-in set among them,
/// and all in their order.
pub fn finish(given: Vec<LoadedSet>) -> (finished: Vec<LoadedSet>)
    ensures
        sets::loaded_models(finished@) == model::in_order(
            model::with_builtin(sets::loaded_models(given@)),
        ),
{
    let ghost all = sets::loaded_models(given@);
    let mut left = given;
    let mut finished: Vec<LoadedSet> = Vec::new();
    let mut any_builtin = false;
    let ghost mut done: int = 0;
    assert(sets::loaded_models(finished@) =~= model::in_order(all.take(0)));
    assert(sets::loaded_models(left@) =~= all.skip(0));
    while left.len() > 0
        invariant
            0 <= done <= all.len(),
            sets::loaded_models(left@) == all.skip(done),
            sets::loaded_models(finished@) == model::in_order(all.take(done)),
            any_builtin == exists|j: int| 0 <= j < done && (#[trigger] all[j]).builtin,
        decreases left@.len(),
    {
        let ghost before = sets::loaded_models(finished@);
        let ghost rest = left@;
        assert(all.skip(done)[0] == rest[0]@);
        assert(all.skip(done).len() == rest.len());
        let set = left.remove(0);
        let ghost added = set@;
        proof {
            assert(added == all[done]);
            assert(all.take(done + 1).drop_last() =~= all.take(done));
            assert(all.take(done + 1).last() == added);
            assert(sets::loaded_models(left@) =~= all.skip(done + 1)) by {
                assert forall|k: int| 0 <= k < left@.len() implies sets::loaded_models(left@)[k]
                    == all.skip(done + 1)[k] by {
                    assert(left@[k] == rest[k + 1]);
                    assert(all.skip(done)[k + 1] == rest[k + 1]@);
                }
            }
        }
        if set.builtin {
            any_builtin = true;
        }
        let place = place_of(&finished, &set);
        finished.insert(place, set);
        assert(sets::loaded_models(finished@) =~= before.insert(place as int, added));
        proof {
            done = done + 1;
        }
    }
    assert(all.skip(done).len() == left@.len());
    assert(all.take(done) =~= all);
    if !any_builtin {
        let ghost before = sets::loaded_models(finished@);
        let set = LoadedSet::builtin_default();
        let ghost added = set@;
        let place = place_of(&finished, &set);
        finished.insert(place, set);
        assert(sets::loaded_models(finished@) =~= before.insert(place as int, added));
        assert(all.push(added).drop_last() =~= all);
    }
    finished
}

/// One file's sets as they are shown: in their order, with exactly one
/// built-in set among them.
pub fn parse(file: &FileSchema, path: &str) -> (parsed: Result<Vec<LoadedSet>, Error>)
    requires
        named_once(file@),
    ensures
        match parsed {
            Ok(found) => {
                &&& file_sets(file@, path@) is Ok
                &&& sets::loaded_models(found@) == model::in_order(
                    model::with_builtin(file_sets(file@, path@)->Ok_0),
                )
                &&& one_builtin(sets::loaded_models(found@))
                &&& model::sorted(sets::loaded_models(found@))
            },
            Err(error) => {
                &&& file_sets(file@, path@) is Err
                &&& says(error, path@, file_sets(file@, path@)->Err_0)
            },
        },
{
    match parse_sets(file, path) {
        Ok(found) => {
            proof {
                set_laws::one_builtin_set_is_loaded(sets::loaded_models(found@));
            }
            Ok(finish(found))
        },
        Err(error) => Err(error),
    }
}

/// What came of reading a file of sets.
pub enum FileOutcome {
    /// There is no such file.
    Missing,
    /// The file is there and could not be read, and why.
    Failed(String),
    /// The file is not TOML of the right form, and why.
    Unparsable(String),
    /// What the file says.
    Parsed(FileSchema),
}

/// A file of sets that was read.
pub struct SetsFile {
    pub path: String,
    pub outcome: FileOutcome,
}

/// The sets of a file that was read, where it can be used. A file that is not
/// there has none.
pub open spec fn usable_sets(file: SetsFile) -> Option<Seq<LoadedModel>> {
    match file.outcome {
        FileOutcome::Missing => Some(Seq::empty()),
        FileOutcome::Failed(_) => None,
        FileOutcome::Unparsable(_) => None,
        FileOutcome::Parsed(schema) => match file_sets(schema@, file.path@) {
            Ok(found) => Some(found),
            Err(_) => None,
        },
    }
}

/// Whether every name of a file that was read stands once.
pub open spec fn read_once(file: SetsFile) -> bool {
    match file.outcome {
        FileOutcome::Parsed(schema) => named_once(schema@),
        _ => true,
    }
}

/// An error that says why a file cannot be used.
pub open spec fn says_why(error: Error, file: SetsFile) -> bool {
    match file.outcome {
        FileOutcome::Missing => false,
        FileOutcome::Failed(why) => error matches Error::Read { path, source } && path@
            == file.path@ && source@ == why@,
        FileOutcome::Unparsable(why) => error matches Error::Parse { path, source } && path@
            == file.path@ && source@ == why@,
        FileOutcome::Parsed(schema) => file_sets(schema@, file.path@) is Err && says(
            error,
            file.path@,
            file_sets(schema@, file.path@)->Err_0,
        ),
    }
}

/// The sets of one file that was read.
pub fn read_sets(file: &SetsFile) -> (found: Result<Vec<LoadedSet>, Error>)
    requires
        read_once(*file),
    ensures
        match found {
            Ok(found) => usable_sets(*file) == Some(sets::loaded_models(found@)),
            Err(error) => usable_sets(*file) is None && says_why(error, *file),
        },
{
    match &file.outcome {
        FileOutcome::Missing => {
            let none: Vec<LoadedSet> = Vec::new();
            assert(sets::loaded_models(none@) =~= Seq::empty());
            Ok(none)
        },
        FileOutcome::Failed(why) => Err(
            Error::Read { path: file.path.clone(), source: why.clone() },
        ),
        FileOutcome::Unparsable(why) => Err(
            Error::Parse { path: file.path.clone(), source: why.clone() },
        ),
        FileOutcome::Parsed(schema) => parse_sets(schema, file.path.as_str()),
    }
}

/// A set behind others, unless one of them has its name.
pub open spec fn with_unshadowed(found: Seq<LoadedModel>, set: LoadedModel) -> Seq<LoadedModel> {
    if exists|i: int| 0 <= i < found.len() && (#[trigger] found[i]).name == set.name {
        found
    } else {
        found.push(set)
    }
}

/// Of sets of one name the first. The others are dropped whole.
pub open spec fn unshadowed(found: Seq<LoadedModel>) -> Seq<LoadedModel>
    decreases found.len(),
{
    if found.len() == 0 {
        Seq::empty()
    } else {
        with_unshadowed(unshadowed(found.drop_last()), found.last())
    }
}

/// All files can be used.
pub open spec fn all_usable(files: Seq<SetsFile>) -> bool {
    forall|i: int| 0 <= i < files.len() ==> usable_sets(#[trigger] files[i]) is Some
}

/// The sets of all files, one file behind the other.
pub open spec fn all_sets(files: Seq<SetsFile>) -> Seq<LoadedModel>
    decreases files.len(),
{
    if files.len() == 0 {
        Seq::empty()
    } else {
        all_sets(files.drop_last()) + usable_sets(files.last())->Some_0
    }
}

/// Puts a set behind others, unless one of them has its name.
fn push_unshadowed(found: &mut Vec<LoadedSet>, set: LoadedSet)
    ensures
        sets::loaded_models(final(found)@) == with_unshadowed(
            sets::loaded_models(old(found)@),
            set@,
        ),
{
    let ghost before = sets::loaded_models(found@);
    let mut i: usize = 0;
    while i < found.len()
        invariant
            found@ == old(found)@,
            before == sets::loaded_models(found@),
            i <= found@.len(),
            forall|j: int| 0 <= j < i ==> (#[trigger] before[j]).name != set@.name,
        decreases found@.len() - i,
    {
        assert(before[i as int] == found@[i as int]@);
        if text::same(found[i].name.as_str(), set.name.as_str()) {
            assert(before[i as int].name == set@.name);
            return;
        }
        i += 1;
    }
    let ghost added = set@;
    found.push(set);
    assert(sets::loaded_models(found@) =~= before.push(added));
}

/// Puts the sets of a file behind others, but for those whose names are there.
fn push_file(found: &mut Vec<LoadedSet>, file: Vec<LoadedSet>, Ghost(before): Ghost<
    Seq<LoadedModel>,
>)
    requires
        sets::loaded_models(old(found)@) == unshadowed(before),
    ensures
        sets::loaded_models(final(found)@) == unshadowed(
            before + sets::loaded_models(file@),
        ),
{
    let ghost all = sets::loaded_models(file@);
    let mut left = file;
    let ghost mut done: int = 0;
    assert(before + all.take(0) =~= before);
    assert(sets::loaded_models(left@) =~= all.skip(0));
    while left.len() > 0
        invariant
            0 <= done <= all.len(),
            sets::loaded_models(left@) == all.skip(done),
            sets::loaded_models(found@) == unshadowed(before + all.take(done)),
        decreases left@.len(),
    {
        let ghost rest = left@;
        assert(all.skip(done)[0] == rest[0]@);
        assert(all.skip(done).len() == rest.len());
        let set = left.remove(0);
        proof {
            assert((before + all.take(done + 1)).drop_last() =~= before + all.take(done));
            assert((before + all.take(done + 1)).last() == set@);
            assert(sets::loaded_models(left@) =~= all.skip(done + 1)) by {
                assert forall|k: int| 0 <= k < left@.len() implies sets::loaded_models(left@)[k]
                    == all.skip(done + 1)[k] by {
                    assert(left@[k] == rest[k + 1]);
                    assert(all.skip(done)[k + 1] == rest[k + 1]@);
                }
            }
        }
        push_unshadowed(found, set);
        proof {
            done = done + 1;
        }
    }
    assert(all.skip(done).len() == left@.len());
    assert(all.take(done) =~= all);
}

/// The sets of all files, of which earlier ones shadow later ones, as they are
/// shown. A file that cannot be used refuses all of them, shadowed or not.
pub fn load_all(files: &Vec<SetsFile>) -> (loaded: Result<Vec<LoadedSet>, Error>)
    requires
        forall|i: int| 0 <= i < files@.len() ==> read_once(#[trigger] files@[i]),
    ensures
        match loaded {
            Ok(found) => {
                &&& all_usable(files@)
                &&& sets::loaded_models(found@) == model::in_order(
                    model::with_builtin(unshadowed(all_sets(files@))),
                )
                &&& one_builtin(sets::loaded_models(found@))
                &&& model::sorted(sets::loaded_models(found@))
            },
            Err(error) => exists|i: int|
                {
                    &&& 0 <= i < files@.len()
                    &&& says_why(error, #[trigger] files@[i])
                    &&& usable_sets(files@[i]) is None
                    &&& all_usable(files@.take(i))
                },
        },
{
    let mut found: Vec<LoadedSet> = Vec::new();
    let mut i: usize = 0;
    assert(sets::loaded_models(found@) =~= unshadowed(all_sets(files@.take(0))));
    while i < files.len()
        invariant
            i <= files@.len(),
            forall|j: int| 0 <= j < files@.len() ==> read_once(#[trigger] files@[j]),
            all_usable(files@.take(i as int)),
            sets::loaded_models(found@) == unshadowed(all_sets(files@.take(i as int))),
        decreases files@.len() - i,
    {
        proof {
            assert(files@.take(i + 1).drop_last() =~= files@.take(i as int));
            assert(files@.take(i + 1).last() == files@[i as int]);
        }
        match read_sets(&files[i]) {
            Ok(more) => {
                let ghost before = all_sets(files@.take(i as int));
                push_file(&mut found, more, Ghost(before));
                assert(all_usable(files@.take(i + 1))) by {
                    assert forall|j: int| 0 <= j < i + 1 implies usable_sets(
                        #[trigger] files@.take(i + 1)[j],
                    ) is Some by {
                        if j < i {
                            assert(files@.take(i as int)[j] == files@[j]);
                        }
                    }
                }
            },
            Err(error) => {
                assert(says_why(error, files@[i as int]));
                return Err(error);
            },
        }
        i += 1;
    }
    assert(files@.take(i as int) =~= files@);
    proof {
        set_laws::all_sets_are_built_in_by_name(files@);
        set_laws::of_one_name_the_first_is_loaded(all_sets(files@));
        assert(builtin_by_name(unshadowed(all_sets(files@)))) by {
            let kept = unshadowed(all_sets(files@));
            assert forall|k: int| 0 <= k < kept.len() implies (#[trigger] kept[k]).builtin == (
            kept[k].name == DEFINITIONS_SET@) by {
                assert(all_sets(files@).contains(kept[k]));
                let m = choose|m: int|
                    0 <= m < all_sets(files@).len() && all_sets(files@)[m] == kept[k];
                assert(all_sets(files@)[m].builtin == (all_sets(files@)[m].name
                    == DEFINITIONS_SET@));
            }
        }
        set_laws::one_builtin_set_is_loaded(unshadowed(all_sets(files@)));
    }
    Ok(finish(found))
}

// ---------------------------------------------------------------------------
// Where the files are

/// The path of the user's own sets, beside the configuration file.
pub fn path_from(xdg_config_home: Option<&str>, home: Option<&str>) -> (path: Option<String>)
    ensures
        text::option_text(path) == config::config_child(
            config::config_home(text::option_str(xdg_config_home), text::option_str(home)),
            FILE@,
        ),
{
    match config::config_home_from(xdg_config_home, home) {
        Some(directory) => Some(config::join_path(directory.as_str(), FILE)),
        None => None,
    }
}

/// The entries of a search path from `i` on, a colon between each two.
pub open spec fn entries_from(list: Seq<char>, i: int) -> Seq<Seq<char>>
    decreases list.len() - i + 1,
{
    proof {
        text::next_at_is_ahead(list, ':', i);
    }
    let end = text::next_at(list, ':', i);
    if i > list.len() || end >= list.len() {
        seq![list.skip(i)]
    } else {
        seq![list.subrange(i, end)] + entries_from(list, end + 1)
    }
}

/// A part of a path that leads nowhere else.
pub open spec fn idle(part: Seq<char>) -> bool {
    part.len() == 0 || part == seq!['.']
}

/// Where the first part from `i` on begins that leads somewhere.
pub open spec fn front_of(path: Seq<char>, i: int) -> int
    decreases path.len() - i,
{
    proof {
        text::next_at_is_ahead(path, '/', i);
    }
    let end = text::next_at(path, '/', i);
    if i >= path.len() {
        path.len() as int
    } else if !idle(path.subrange(i, end)) {
        i
    } else if end < path.len() {
        front_of(path, end + 1)
    } else {
        path.len() as int
    }
}

/// Where the last part begins of those between two places.
pub open spec fn last_part(path: Seq<char>, from: int, to: int) -> int
    decreases to - from,
{
    if to <= from || path[to - 1] == '/' {
        to
    } else {
        last_part(path, from, to - 1)
    }
}

/// Where the last part ends, of those between two places, that leads somewhere.
pub open spec fn back_of(path: Seq<char>, from: int, to: int) -> int
    decreases to - from,
{
    proof {
        the_last_part_is_between(path, from, to);
    }
    let start = last_part(path, from, to);
    if to <= from {
        from
    } else if !idle(path.subrange(start, to)) {
        to
    } else if start > from {
        back_of(path, from, start - 1)
    } else {
        from
    }
}

/// The last part lies between the two places.
pub proof fn the_last_part_is_between(path: Seq<char>, from: int, to: int)
    ensures
        from <= to ==> from <= last_part(path, from, to) <= to,
    decreases to - from,
{
    if to > from && path[to - 1] != '/' {
        the_last_part_is_between(path, from, to - 1);
    }
}

/// A path without the parts at its ends that lead nowhere else.
pub open spec fn trimmed(path: Seq<char>) -> Seq<char> {
    let from = front_of(path, 0);
    path.subrange(from, back_of(path, from, path.len() as int))
}

/// An entry of a search path with a leading `~` taken for the home directory,
/// where there is one.
pub open spec fn expanded(entry: Seq<char>, home: Option<Seq<char>>) -> Seq<char> {
    if home is Some && home->Some_0.len() > 0 && entry.len() > 0 && entry[0] == '~' && (entry.len()
        == 1 || entry[1] == '/') {
        config::joined_path(home->Some_0, trimmed(entry.skip(1)))
    } else {
        entry
    }
}

/// The one spelling of a directory, by which it is known again.
pub open spec fn directory_key(dir: Seq<char>, cwd: Seq<char>) -> Seq<u8> {
    path::lexically_absolute(vstd::utf8::encode_utf8(dir), vstd::utf8::encode_utf8(cwd))
}

/// A directory behind others, unless it is one of them.
pub open spec fn with_directory(
    dirs: Seq<Seq<char>>,
    dir: Seq<char>,
    cwd: Seq<char>,
) -> Seq<Seq<char>> {
    if exists|i: int|
        0 <= i < dirs.len() && directory_key(#[trigger] dirs[i], cwd) == directory_key(dir, cwd) {
        dirs
    } else {
        dirs.push(dir)
    }
}

/// The directories that entries name: no empty one, and each of them once.
pub open spec fn directories(
    entries: Seq<Seq<char>>,
    home: Option<Seq<char>>,
    cwd: Seq<char>,
) -> Seq<Seq<char>>
    decreases entries.len(),
{
    if entries.len() == 0 {
        Seq::empty()
    } else {
        let before = directories(entries.drop_last(), home, cwd);
        if entries.last().len() == 0 {
            before
        } else {
            with_directory(before, expanded(entries.last(), home), cwd)
        }
    }
}

/// The directories of a search path, in order.
pub open spec fn search_path(
    filter_path: Option<Seq<char>>,
    home: Option<Seq<char>>,
    cwd: Seq<char>,
) -> Seq<Seq<char>> {
    match filter_path {
        Some(list) => directories(entries_from(list, 0), home, cwd),
        None => Seq::empty(),
    }
}

/// The entries of a search path.
fn split_entries(list: &str) -> (entries: Vec<String>)
    ensures
        text::texts(entries@) == entries_from(list@, 0),
{
    let chars = text::chars_of(list);
    let mut entries: Vec<String> = Vec::new();
    let mut i: usize = 0;
    assert(text::texts(entries@) + entries_from(list@, 0) =~= entries_from(list@, 0));
    loop
        invariant
            chars@ == list@,
            i <= chars@.len(),
            text::texts(entries@) + entries_from(list@, i as int) == entries_from(list@, 0),
        decreases chars@.len() - i,
    {
        let ghost before = text::texts(entries@);
        let end = text::find_from(&chars, ':', i);
        let entry = text::string_of(chars.as_slice(), i, end);
        let ghost found = entry@;
        proof {
            text::texts_push(entries@, entry);
            assert(chars@.subrange(i as int, chars@.len() as int) =~= chars@.skip(i as int));
        }
        entries.push(entry);
        if end >= chars.len() {
            assert(before + seq![found] =~= before.push(found));
            return entries;
        }
        proof {
            let rest = entries_from(list@, end + 1);
            assert(before + (seq![found] + rest) =~= before.push(found) + rest);
        }
        i = end + 1;
    }
}

/// An entry of a search path with a leading `~` taken for the home directory.
fn expand(entry: &str, home: Option<&str>) -> (dir: String)
    ensures
        dir@ == expanded(entry@, text::option_str(home)),
{
    let chars = text::chars_of(entry);
    let home: &str = match home {
        Some(home) => home,
        None => {
            return entry.to_owned();
        },
    };
    if home.is_empty() || chars.len() == 0 || chars[0] != '~' || (chars.len() > 1 && chars[1]
        != '/') {
        return entry.to_owned();
    }
    let rest = text::string_of(chars.as_slice(), 1, chars.len());
    assert(rest@ =~= entry@.skip(1));
    config::join_path(home, trim(rest.as_str()).as_str())
}

/// Whether the characters between two places are a part that leads nowhere
/// else.
fn is_idle(chars: &Vec<char>, from: usize, to: usize) -> (yes: bool)
    requires
        from <= to <= chars@.len(),
    ensures
        yes == idle(chars@.subrange(from as int, to as int)),
{
    if to - from == 1 && chars[from] == '.' {
        assert(chars@.subrange(from as int, to as int) =~= seq!['.']);
        true
    } else {
        proof {
            let part = chars@.subrange(from as int, to as int);
            if part == seq!['.'] {
                assert(part.len() == 1);
                assert(part[0] == '.');
            }
        }
        to == from
    }
}

/// A path without the parts at its ends that lead nowhere else.
fn trim(path: &str) -> (rest: String)
    ensures
        rest@ == trimmed(path@),
{
    let chars = text::chars_of(path);
    let len: usize = chars.len();
    let mut from: usize = 0;
    while from < len
        invariant
            chars@ == path@,
            len == chars@.len(),
            from <= len,
            front_of(path@, 0) == front_of(path@, from as int),
        ensures
            from <= len,
            front_of(path@, 0) == from,
        decreases len - from,
    {
        let end = text::find_from(&chars, '/', from);
        if !is_idle(&chars, from, end) {
            break;
        }
        from = if end < len {
            end + 1
        } else {
            len
        };
    }
    let mut to: usize = len;
    while to > from
        invariant
            chars@ == path@,
            len == chars@.len(),
            from <= to <= len,
            back_of(path@, from as int, len as int) == back_of(path@, from as int, to as int),
        ensures
            from <= to <= len,
            back_of(path@, from as int, len as int) == to,
        decreases to - from,
    {
        let start = part_before(&chars, from, to);
        if !is_idle(&chars, start, to) {
            break;
        }
        to = if start > from {
            start - 1
        } else {
            from
        };
    }
    text::string_of(chars.as_slice(), from, to)
}

/// Where the last part begins of those between two places.
fn part_before(chars: &Vec<char>, from: usize, to: usize) -> (start: usize)
    requires
        from <= to <= chars@.len(),
    ensures
        start == last_part(chars@, from as int, to as int),
        from <= start <= to,
{
    let mut start: usize = to;
    while start > from && chars[start - 1] != '/'
        invariant
            from <= start <= to <= chars@.len(),
            last_part(chars@, from as int, to as int) == last_part(
                chars@,
                from as int,
                start as int,
            ),
        decreases start,
    {
        start -= 1;
    }
    start
}

/// The one spelling of a directory.
fn key_of(dir: &str, cwd: &str) -> (key: Vec<u8>)
    ensures
        key@ == directory_key(dir@, cwd@),
{
    path::lexical_absolute(dir.as_bytes(), cwd.as_bytes())
}

/// Whether two byte strings are the same.
fn same_bytes(left: &Vec<u8>, right: &Vec<u8>) -> (equal: bool)
    ensures
        equal == (left@ == right@),
{
    if left.len() != right.len() {
        return false;
    }
    let mut i: usize = 0;
    while i < left.len()
        invariant
            left@.len() == right@.len(),
            i <= left@.len(),
            forall|j: int| 0 <= j < i ==> left@[j] == right@[j],
        decreases left@.len() - i,
    {
        if left[i] != right[i] {
            assert(left@[i as int] != right@[i as int]);
            return false;
        }
        i += 1;
    }
    assert(left@ =~= right@);
    true
}

/// The directories that a search path names, in order, seen from `cwd`. An
/// empty entry is skipped, a leading `~` taken for the home directory, and a
/// directory named twice kept at its first place.
pub fn search_path_from(filter_path: Option<&str>, home: Option<&str>, cwd: &str) -> (dirs: Vec<
    String,
>)
    ensures
        text::texts(dirs@) == search_path(
            text::option_str(filter_path),
            text::option_str(home),
            cwd@,
        ),
{
    let mut dirs: Vec<String> = Vec::new();
    let list = match filter_path {
        Some(list) => list,
        None => {
            assert(text::texts(dirs@) =~= Seq::empty());
            return dirs;
        },
    };
    let entries = split_entries(list);
    let ghost all = text::texts(entries@);
    let ghost at_home = text::option_str(home);
    let mut i: usize = 0;
    assert(text::texts(dirs@) =~= directories(all.take(0), at_home, cwd@));
    while i < entries.len()
        invariant
            all == text::texts(entries@),
            at_home == text::option_str(home),
            i <= entries@.len(),
            text::texts(dirs@) == directories(all.take(i as int), at_home, cwd@),
        decreases entries@.len() - i,
    {
        proof {
            assert(all.take(i + 1).drop_last() =~= all.take(i as int));
            assert(all.take(i + 1).last() == entries@[i as int]@);
        }
        if !entries[i].as_str().is_empty() {
            let dir = expand(entries[i].as_str(), home);
            push_directory(&mut dirs, dir, cwd);
        }
        i += 1;
    }
    assert(all.take(i as int) =~= all);
    dirs
}

/// Puts a directory behind others, unless it is one of them.
fn push_directory(dirs: &mut Vec<String>, dir: String, cwd: &str)
    ensures
        text::texts(final(dirs)@) == with_directory(text::texts(old(dirs)@), dir@, cwd@),
{
    let ghost before = text::texts(dirs@);
    let key = key_of(dir.as_str(), cwd);
    let mut i: usize = 0;
    while i < dirs.len()
        invariant
            dirs@ == old(dirs)@,
            before == text::texts(dirs@),
            key@ == directory_key(dir@, cwd@),
            i <= dirs@.len(),
            forall|j: int| 0 <= j < i ==> directory_key(#[trigger] before[j], cwd@) != key@,
        decreases dirs@.len() - i,
    {
        assert(before[i as int] == dirs@[i as int]@);
        let seen = key_of(dirs[i].as_str(), cwd);
        if same_bytes(&seen, &key) {
            assert(directory_key(before[i as int], cwd@) == directory_key(dir@, cwd@));
            return;
        }
        i += 1;
    }
    proof {
        text::texts_push(dirs@, dir);
    }
    dirs.push(dir);
}

/// What came of reading a directory.
pub enum DirOutcome {
    /// There is no such directory.
    Missing,
    /// The directory is there and could not be read, and why.
    Failed(String),
    /// The names in the directory that are text, each with whether it leads to
    /// a file.
    Entries(Vec<(String, bool)>),
}

/// A directory that was read.
pub struct SetsDir {
    pub path: String,
    pub outcome: DirOutcome,
}

/// A name of a file of sets: `filters.toml`, or one that ends in
/// `.filters.toml` with something in front.
pub open spec fn set_file_name(name: Seq<char>) -> bool {
    name == FILE@ || (text::ends_in(name, SUFFIX@) && name != SUFFIX@)
}

/// The names among the entries that are files of sets.
pub open spec fn set_file_names(entries: Seq<(String, bool)>) -> Seq<Seq<char>>
    decreases entries.len(),
{
    if entries.len() == 0 {
        Seq::empty()
    } else {
        let before = set_file_names(entries.drop_last());
        if set_file_name(entries.last().0@) && entries.last().1 {
            before.push(entries.last().0@)
        } else {
            before
        }
    }
}

/// The files of sets in a directory, in the order of their names.
pub open spec fn files_in(dir: SetsDir) -> Seq<Seq<char>> {
    match dir.outcome {
        DirOutcome::Entries(entries) => {
            let names = text::in_order(set_file_names(entries@));
            Seq::new(names.len(), |i: int| config::joined_path(dir.path@, names[i]))
        },
        _ => Seq::empty(),
    }
}

/// The files of sets in directories, one directory behind the other.
pub open spec fn files_in_all(dirs: Seq<SetsDir>) -> Seq<Seq<char>>
    decreases dirs.len(),
{
    if dirs.len() == 0 {
        Seq::empty()
    } else {
        files_in_all(dirs.drop_last()) + files_in(dirs.last())
    }
}

/// The user's own file, where there is one.
pub open spec fn own_file(own: Option<String>) -> Seq<Seq<char>> {
    match own {
        Some(own) => seq![own@],
        None => Seq::empty(),
    }
}

/// Directories of which none failed to be read.
pub open spec fn all_readable(dirs: Seq<SetsDir>) -> bool {
    forall|i: int| 0 <= i < dirs.len() ==> !((#[trigger] dirs[i]).outcome is Failed)
}

/// Whether a name is that of a file of sets. A name of nothing but the ending
/// is not.
pub fn is_set_file(name: &str) -> (yes: bool)
    ensures
        yes == set_file_name(name@),
{
    text::same(name, FILE) || (text::has_tail(name, SUFFIX) && !text::same(name, SUFFIX))
}

/// The names among the entries that are files of sets, in their order.
fn names_in(entries: &Vec<(String, bool)>) -> (names: Vec<String>)
    ensures
        text::texts(names@) == text::in_order(set_file_names(entries@)),
{
    let mut names: Vec<String> = Vec::new();
    let mut i: usize = 0;
    assert(text::texts(names@) =~= text::in_order(set_file_names(entries@.take(0))));
    while i < entries.len()
        invariant
            i <= entries@.len(),
            text::texts(names@) == text::in_order(set_file_names(entries@.take(i as int))),
        decreases entries@.len() - i,
    {
        proof {
            assert(entries@.take(i + 1).drop_last() =~= entries@.take(i as int));
            assert(entries@.take(i + 1).last() == entries@[i as int]);
            let before = set_file_names(entries@.take(i as int));
            assert(before.push(entries@[i as int].0@).drop_last() =~= before);
        }
        if is_set_file(entries[i].0.as_str()) && entries[i].1 {
            let name = entries[i].0.clone();
            text::place_text(&mut names, name);
        }
        i += 1;
    }
    assert(entries@.take(i as int) =~= entries@);
    names
}

/// Every file that sets are read from, the one that wins first: the user's
/// own, then the files of sets in each directory in the order of their names.
/// A directory that is not there is skipped; one that cannot be read is an
/// error.
pub fn set_files(own: Option<String>, dirs: &Vec<SetsDir>) -> (files: Result<Vec<String>, Error>)
    ensures
        match files {
            Ok(files) => {
                &&& all_readable(dirs@)
                &&& text::texts(files@) == own_file(own) + files_in_all(dirs@)
            },
            Err(error) => exists|i: int|
                {
                    &&& 0 <= i < dirs@.len()
                    &&& all_readable(dirs@.take(i))
                    &&& (#[trigger] dirs@[i]).outcome is Failed
                    &&& error matches Error::ReadDir { path, source }
                    &&& path@ == dirs@[i].path@
                    &&& source@ == dirs@[i].outcome->Failed_0@
                },
        },
{
    let ghost first = own_file(own);
    let mut files: Vec<String> = Vec::new();
    if let Some(own) = own {
        files.push(own);
    }
    let mut i: usize = 0;
    assert(text::texts(files@) =~= first + files_in_all(dirs@.take(0)));
    while i < dirs.len()
        invariant
            i <= dirs@.len(),
            all_readable(dirs@.take(i as int)),
            text::texts(files@) == first + files_in_all(dirs@.take(i as int)),
        decreases dirs@.len() - i,
    {
        proof {
            assert(dirs@.take(i + 1).drop_last() =~= dirs@.take(i as int));
            assert(dirs@.take(i + 1).last() == dirs@[i as int]);
        }
        let ghost before = text::texts(files@);
        match &dirs[i].outcome {
            DirOutcome::Missing => {
                assert(before + Seq::<Seq<char>>::empty() =~= before);
                assert(first + files_in_all(dirs@.take(i + 1)) =~= before);
            },
            DirOutcome::Failed(why) => {
                assert(dirs@[i as int].outcome is Failed);
                return Err(Error::ReadDir { path: dirs[i].path.clone(), source: why.clone() });
            },
            DirOutcome::Entries(entries) => {
                let names = names_in(entries);
                let ghost found = files_in(dirs@[i as int]);
                let mut k: usize = 0;
                assert(text::texts(files@) =~= before + found.take(0));
                while k < names.len()
                    invariant
                        i < dirs@.len(),
                        k <= names@.len(),
                        found.len() == names@.len(),
                        forall|j: int|
                            0 <= j < names@.len() ==> found[j] == config::joined_path(
                                dirs@[i as int].path@,
                                (#[trigger] names@[j])@,
                            ),
                        text::texts(files@) == before + found.take(k as int),
                    decreases names@.len() - k,
                {
                    let file = config::join_path(dirs[i].path.as_str(), names[k].as_str());
                    assert(found[k as int] == file@);
                    proof {
                        text::texts_push(files@, file);
                        assert(found.take(k + 1) =~= found.take(k as int).push(found[k as int]));
                    }
                    files.push(file);
                    assert(text::texts(files@) =~= before + found.take(k + 1));
                    k += 1;
                }
                assert(found.take(k as int) =~= found);
                assert(first + files_in_all(dirs@.take(i + 1)) =~= before + found);
            },
        }
        assert(all_readable(dirs@.take(i + 1))) by {
            assert forall|j: int| 0 <= j < i + 1 implies !((#[trigger] dirs@.take(
                i + 1,
            )[j]).outcome is Failed) by {
                if j < i {
                    assert(dirs@.take(i as int)[j] == dirs@[j]);
                }
            }
        }
        i += 1;
    }
    assert(dirs@.take(i as int) =~= dirs@);
    Ok(files)
}

// ---------------------------------------------------------------------------
// Saving a set

/// The key that the sets of a file stand under.
pub const SETS_KEY: &'static str = "sets";

/// The scratch filters under a name, to be saved.
#[derive(Debug, Clone, PartialEq, Eq)]
pub struct SetToSave<'a> {
    pub name: &'a str,
    /// Each filter's pattern and sense, in order.
    pub filters: Vec<(String, Sense)>,
    /// The patterns of the filters that are on, which become the default
    /// profile.
    pub default: Vec<String>,
}

/// The word for a sense, where it is not the one that goes without saying.
pub open spec fn sense_word(sense: Sense) -> Option<Seq<char>> {
    match sense {
        Sense::Include => None,
        Sense::Context => Some("context"@),
        Sense::Exclude => Some("exclude"@),
    }
}

/// What the table of a saved filter says.
pub open spec fn saved_filter(pattern: Seq<char>, sense: Sense) -> Toml {
    let keys = document_text::no_keys().insert("pattern"@, Toml::Text(pattern));
    match sense_word(sense) {
        Some(word) => Toml::Table(keys.insert("sense"@, Toml::Text(word))),
        None => Toml::Table(keys),
    }
}

/// What the tables of saved filters say.
pub open spec fn saved_filters(filters: Seq<(String, Sense)>) -> Seq<Toml> {
    Seq::new(filters.len(), |i: int| saved_filter(filters[i].0@, filters[i].1))
}

/// An array of strings.
pub open spec fn text_array(texts: Seq<Seq<char>>) -> Toml {
    Toml::Array(Seq::new(texts.len(), |i: int| Toml::Text(texts[i])))
}

/// What the table of a saved set says: a default profile where a filter is on,
/// and the filters.
pub open spec fn saved_set(set: SetToSave) -> Toml {
    let keys = if set.default@.len() == 0 {
        document_text::no_keys()
    } else {
        document_text::no_keys().insert(
            "profiles"@,
            Toml::Table(
                document_text::no_keys().insert(
                    "default"@,
                    text_array(text::texts(set.default@)),
                ),
            ),
        )
    };
    if set.filters@.len() == 0 {
        Toml::Table(keys)
    } else {
        Toml::Table(keys.insert("filters"@, Toml::Tables(saved_filters(set.filters@))))
    }
}

/// What is said of a text that cannot be encoded.
pub open spec fn run_complaint(text: Seq<char>) -> Seq<char> {
    text::debug_text(text) + " has too many quotes in a row to be saved"@
}

/// What is said against a text that is encoded, if anything is.
pub open spec fn encoding_refusal(text: Seq<char>) -> Option<Seq<char>> {
    if document_text::encodable(text) {
        None
    } else {
        Some(run_complaint(text))
    }
}

/// What is said against a pattern. It is written between single quotes, and
/// the parser may not take it there. One with a quote or a line break in it is
/// encoded.
pub open spec fn pattern_refusal(pattern: Seq<char>) -> Option<Seq<char>> {
    if document_text::quotable(pattern) {
        match document_text::document_keys(document_text::literal_snippet(pattern)) {
            Ok(_) => None,
            Err(message) => Some(message),
        }
    } else {
        encoding_refusal(pattern)
    }
}

/// The first of the filters that are on whose pattern cannot be encoded.
pub open spec fn first_unencodable(default: Seq<String>) -> int {
    model::first_index(
        |i: int| !document_text::encodable(default[i]@),
        0,
        default.len() as int,
    )
}

/// The first filter whose pattern cannot be written.
pub open spec fn first_refused(filters: Seq<(String, Sense)>) -> int {
    model::first_index(
        |i: int| pattern_refusal(filters[i].0@) is Some,
        0,
        filters.len() as int,
    )
}

/// What is said against the texts of a saved set, if anything is.
pub open spec fn saving_refusal(set: SetToSave) -> Option<Seq<char>> {
    let unencodable = first_unencodable(set.default@);
    let refused = first_refused(set.filters@);
    if unencodable < set.default@.len() {
        Some(run_complaint(set.default@[unencodable]@))
    } else if refused < set.filters@.len() {
        pattern_refusal(set.filters@[refused].0@)
    } else {
        None
    }
}

/// What a document says with a set appended, or why it is not: `sets` has to be
/// a table, where it is there, and may not hold a set of the name, and every
/// text has to be one that can be written.
pub open spec fn with_set_appended(keys: Map<Seq<char>, Toml>, set: SetToSave) -> Result<
    Map<Seq<char>, Toml>,
    Seq<char>,
> {
    let sets = if keys.contains_key(SETS_KEY@) {
        keys[SETS_KEY@]
    } else {
        Toml::Table(document_text::no_keys())
    };
    match sets {
        Toml::Table(sets) => if sets.contains_key(set.name@) {
            Err(
                "a set named "@ + text::debug_text(set.name@)
                    + " is already in filters.toml; it was added since recon started"@,
            )
        } else if saving_refusal(set) is Some {
            Err(saving_refusal(set)->Some_0)
        } else {
            Ok(keys.insert(SETS_KEY@, Toml::Table(sets.insert(set.name@, saved_set(set)))))
        },
        _ => Err("`sets` is not a table"@),
    }
}

/// What is said of a text that cannot be encoded.
fn run_message(text: &str) -> (message: String)
    ensures
        message@ == run_complaint(text@),
{
    let mut message = text::quoted(text);
    message.append(" has too many quotes in a row to be saved");
    message
}

/// A table with a pattern more: no comment came with it, nothing is no longer
/// between single quotes, and the pattern is, where it may be.
pub open spec fn shows_pattern(before: Table, after: Table, pattern: Seq<char>) -> bool {
    &&& document_text::with_encoded(
        document_text::table_form(before),
        document_text::table_form(after),
    )
    &&& document_text::quotable(pattern) ==> document_text::table_form(after).literals.contains(
        pattern,
    )
    &&& document_text::headed(after)
    &&& document_text::fresh(before) ==> document_text::fresh(after)
}

/// Patterns that are between single quotes wherever they may be.
pub open spec fn shows_patterns(form: Form, filters: Seq<(String, Sense)>) -> bool {
    forall|i: int|
        0 <= i < filters.len() && document_text::quotable((#[trigger] filters[i]).0@)
            ==> form.literals.contains(filters[i].0@)
}

/// One line with a pattern between single quotes.
fn snippet_of(pattern: &str) -> (snippet: String)
    ensures
        snippet@ == document_text::literal_snippet(pattern@),
{
    let mut snippet = document_text::LITERAL_KEY.to_owned();
    snippet.append(" = '");
    snippet.append(pattern);
    snippet.append("'\n");
    snippet
}

/// Writes a pattern into the table of a filter between single quotes, in the
/// form in which it is parsed from a text that has it so.
fn put_literal(table: &mut Table, pattern: &str) -> (put: Result<(), String>)
    requires
        document_text::quotable(pattern@),
    ensures
        match put {
            Ok(()) => {
                &&& pattern_refusal(pattern@) is None
                &&& document_text::table_keys(*final(table)) == document_text::table_keys(
                    *old(table),
                ).insert("pattern"@, Toml::Text(pattern@))
            },
            Err(message) => pattern_refusal(pattern@) == Some(message@),
        },
        document_text::hidden(*final(table)) == document_text::hidden(*old(table)),
        put is Ok && document_text::adds_key(*old(table), "pattern"@) ==> shows_pattern(
            *old(table),
            *final(table),
            pattern@,
        ),
{
    let snippet = snippet_of(pattern);
    match document_text::parse_document(snippet.as_str()) {
        Ok(document) => {
            let mut one = document;
            let ghost keys = document_text::keys_of(one);
            assert(keys == document_text::no_keys().insert(
                document_text::LITERAL_KEY@,
                Toml::Text(pattern@),
            ));
            let root = document_text::root_table(&mut one);
            let item = document_text::take_item(root, document_text::LITERAL_KEY);
            proof {
                let form = document_text::item_form(item);
                assert(form.comments =~= document_text::no_form().comments) by {
                    assert forall|comment: Seq<char>| form.comments.count(comment) == 0 by {}
                }
                assert(form.literals.contains(pattern@));
                let before = document_text::table_form(*table);
                assert(before.comments.add(form.comments) =~= before.comments);
            }
            document_text::put_item(table, "pattern", item);
            Ok(())
        },
        Err(message) => Err(message),
    }
}

/// Writes a pattern into the table of a filter: between single quotes, where
/// every character stands for itself, unless it holds a quote or a line break.
fn put_pattern(table: &mut Table, pattern: &str) -> (put: Result<(), String>)
    ensures
        match put {
            Ok(()) => {
                &&& pattern_refusal(pattern@) is None
                &&& document_text::table_keys(*final(table)) == document_text::table_keys(
                    *old(table),
                ).insert("pattern"@, Toml::Text(pattern@))
            },
            Err(message) => pattern_refusal(pattern@) == Some(message@),
        },
        document_text::hidden(*final(table)) == document_text::hidden(*old(table)),
        put is Ok && document_text::adds_key(*old(table), "pattern"@) ==> shows_pattern(
            *old(table),
            *final(table),
            pattern@,
        ),
{
    if !text::has_char(pattern, '\'') && !text::has_char(pattern, '\n') && !text::has_char(
        pattern,
        '\r',
    ) {
        put_literal(table, pattern)
    } else if document_text::is_encodable(pattern) {
        document_text::put_text(table, "pattern", pattern);
        Ok(())
    } else {
        Err(run_message(pattern))
    }
}

/// The array of the filters that are on, or what is said against the first
/// that cannot be encoded.
fn default_array(default: &Vec<String>) -> (array: Result<Array, String>)
    ensures
        match array {
            Ok(array) => {
                &&& first_unencodable(default@) == default@.len()
                &&& Toml::Array(document_text::values_of(array)) == text_array(
                    text::texts(default@),
                )
                &&& document_text::array_form(array).comments
                    == document_text::no_form().comments
            },
            Err(message) => {
                &&& first_unencodable(default@) < default@.len()
                &&& message@ == run_complaint(default@[first_unencodable(default@)]@)
            },
        },
{
    let ghost test = |i: int| !document_text::encodable(default@[i]@);
    let ghost all = text_array(text::texts(default@))->Array_0;
    let mut members = document_text::new_array();
    let mut i: usize = 0;
    assert(document_text::values_of(members) =~= all.take(0));
    while i < default.len()
        invariant
            test == (|i: int| !document_text::encodable(default@[i]@)),
            all == text_array(text::texts(default@))->Array_0,
            i <= default@.len(),
            forall|j: int| 0 <= j < i ==> !(#[trigger] test(j)),
            document_text::values_of(members) == all.take(i as int),
            document_text::array_form(members).comments == document_text::no_form().comments,
        decreases default@.len() - i,
    {
        if !document_text::is_encodable(default[i].as_str()) {
            assert(test(i as int));
            proof {
                model::first_index_is(test, 0, default@.len() as int, i as int);
            }
            return Err(run_message(default[i].as_str()));
        }
        assert(!test(i as int));
        document_text::push_string(&mut members, default[i].as_str());
        assert(all[i as int] == Toml::Text(default@[i as int]@));
        assert(all.take(i + 1) =~= all.take(i as int).push(all[i as int]));
        i += 1;
    }
    proof {
        model::first_index_is(test, 0, default@.len() as int, i as int);
    }
    assert(all.take(i as int) =~= all);
    Ok(members)
}

/// The tables of saved filters, or what is said against the first pattern that
/// cannot be written.
fn filter_tables(filters: &Vec<(String, Sense)>) -> (tables: Result<ArrayOfTables, String>)
    ensures
        match tables {
            Ok(tables) => {
                &&& first_refused(filters@) == filters@.len()
                &&& document_text::tables_of(tables) == saved_filters(filters@)
                &&& document_text::list_form(tables).comments == document_text::no_form().comments
                &&& shows_patterns(document_text::list_form(tables), filters@)
                &&& document_text::fresh_list(tables)
            },
            Err(message) => {
                &&& first_refused(filters@) < filters@.len()
                &&& pattern_refusal(filters@[first_refused(filters@)].0@) == Some(message@)
            },
        },
{
    let ghost test = |i: int| pattern_refusal(filters@[i].0@) is Some;
    let ghost all = saved_filters(filters@);
    let mut tables = document_text::new_tables();
    let mut i: usize = 0;
    assert(document_text::tables_of(tables) =~= all.take(0));
    while i < filters.len()
        invariant
            test == (|i: int| pattern_refusal(filters@[i].0@) is Some),
            all == saved_filters(filters@),
            i <= filters@.len(),
            forall|j: int| 0 <= j < i ==> !(#[trigger] test(j)),
            document_text::tables_of(tables) == all.take(i as int),
            document_text::list_form(tables).comments == document_text::no_form().comments,
            shows_patterns(document_text::list_form(tables), filters@.take(i as int)),
            document_text::fresh_list(tables),
        decreases filters@.len() - i,
    {
        let mut table = document_text::new_table();
        match put_pattern(&mut table, filters[i].0.as_str()) {
            Ok(()) => {},
            Err(message) => {
                assert(test(i as int));
                proof {
                    model::first_index_is(test, 0, filters@.len() as int, i as int);
                }
                return Err(message);
            },
        }
        assert(!test(i as int));
        proof {
            reveal_strlit("pattern");
            reveal_strlit("sense");
            assert("pattern"@.len() != "sense"@.len());
        }
        match filters[i].1 {
            Sense::Include => {},
            Sense::Context => {
                proof {
                    reveal_strlit("context");
                    document_text::short_texts_are_encodable("context"@);
                }
                document_text::put_text(&mut table, "sense", "context");
            },
            Sense::Exclude => {
                proof {
                    reveal_strlit("exclude");
                    document_text::short_texts_are_encodable("exclude"@);
                }
                document_text::put_text(&mut table, "sense", "exclude");
            },
        }
        assert(Toml::Table(document_text::table_keys(table)) == all[i as int]);
        let ghost shown = document_text::list_form(tables);
        let ghost added = document_text::table_form(table);
        document_text::push_table(&mut tables, table);
        proof {
            assert(shown.comments.add(added.comments) =~= shown.comments);
            let first = filters@.take(i + 1);
            assert forall|j: int| 0 <= j < first.len() && document_text::quotable(
                (#[trigger] first[j]).0@,
            ) implies document_text::list_form(tables).literals.contains(first[j].0@) by {
                if j < i {
                    assert(filters@.take(i as int)[j] == first[j]);
                }
            }
        }
        assert(all.take(i + 1) =~= all.take(i as int).push(all[i as int]));
        i += 1;
    }
    proof {
        model::first_index_is(test, 0, filters@.len() as int, i as int);
    }
    assert(all.take(i as int) =~= all);
    assert(filters@.take(i as int) =~= filters@);
    Ok(tables)
}

/// The table of a saved set.
fn set_table(set: &SetToSave) -> (table: Result<Table, String>)
    ensures
        match table {
            Ok(table) => {
                &&& saving_refusal(*set) is None
                &&& Toml::Table(document_text::table_keys(table)) == saved_set(*set)
                &&& !document_text::hidden(table)
                &&& document_text::table_form(table).comments == document_text::no_form().comments
                &&& shows_patterns(document_text::table_form(table), set.filters@)
                &&& document_text::headed(table)
                &&& document_text::fresh(table)
            },
            Err(message) => saving_refusal(*set) == Some(message@),
        },
{
    let mut table = document_text::new_table();
    let members = match default_array(&set.default) {
        Ok(members) => members,
        Err(message) => {
            return Err(message);
        },
    };
    if set.default.len() > 0 {
        let mut profiles = document_text::new_table();
        document_text::put_array(&mut profiles, "default", members);
        document_text::put_table(&mut table, "profiles", profiles);
        assert(document_text::table_form(table).comments
            =~= document_text::no_form().comments);
    }
    let filters = match filter_tables(&set.filters) {
        Ok(filters) => filters,
        Err(message) => {
            return Err(message);
        },
    };
    if set.filters.len() > 0 {
        proof {
            reveal_strlit("profiles");
            reveal_strlit("filters");
            assert("profiles"@.len() != "filters"@.len());
        }
        document_text::put_tables(&mut table, "filters", filters);
        assert(document_text::table_form(table).comments
            =~= document_text::no_form().comments);
    }
    Ok(table)
}

/// Whether a text is another one with a set appended and nothing else touched:
/// the comments are those that were there, what stood between single quotes
/// still does and so does every pattern that may, no header of one key comes or
/// goes, and the text as it would be kept has one piece put in.
pub open spec fn only_adds(text: Seq<char>, written: Seq<char>, set: SetToSave) -> bool {
    let (before, after) = (document_text::form_in(text), document_text::form_in(written));
    &&& after.comments == before.comments
    &&& before.literals.subset_of(after.literals)
    &&& shows_patterns(after, set.filters@)
    &&& document_text::headers_in(written) == document_text::headers_in(text)
    &&& document_text::inserted(document_text::kept_text(text), written)
}

/// Appends a set to the text of a file, and touches nothing else. A set of
/// that name in the text is not replaced.
pub fn append_set(text: &str, set: &SetToSave) -> (appended: Result<String, String>)
    ensures
        match (appended, document_text::document_keys(text@)) {
            (Ok(written), Ok(keys)) => {
                &&& with_set_appended(keys, *set) is Ok
                &&& document_text::document_keys(written@) == document_text::saying(
                    with_set_appended(keys, *set)->Ok_0,
                )
                &&& only_adds(text@, written@, *set)
            },
            (Err(message), Ok(keys)) => with_set_appended(keys, *set) == Err::<
                Map<Seq<char>, Toml>,
                _,
            >(message@),
            (Err(message), Err(refusal)) => message@ == refusal,
            (Ok(_), Err(_)) => false,
        },
{
    let mut document = match document_text::parse_document(text) {
        Ok(document) => document,
        Err(message) => {
            return Err(message);
        },
    };
    let ghost keys = document_text::keys_of(document);
    let ghost form = document_text::form_of(document);
    let root = document_text::root_table(&mut document);
    let ghost shown = document_text::table_form(*root);
    let ghost mut inside = document_text::no_form();
    if !document_text::has_key(root, SETS_KEY) {
        assert(!keys.contains_key(SETS_KEY@)) by {
            if keys.contains_key(SETS_KEY@) {
                document_text::complete_inside(keys, SETS_KEY@);
            }
        }
        let table = match set_table(set) {
            Ok(table) => table,
            Err(message) => {
                return Err(message);
            },
        };
        let mut sets = document_text::new_hidden_table();
        document_text::put_table(&mut sets, set.name, table);
        assert(document_text::table_keys(sets).contains_key(set.name@));
        assert(document_text::table_form(sets).comments =~= document_text::no_form().comments);
        document_text::put_table(root, SETS_KEY, sets);
        assert(document_text::table_form(*root).comments =~= shown.comments);
    } else {
        match document_text::inner_table(root, SETS_KEY) {
            None => {
                return Err("`sets` is not a table".to_owned());
            },
            Some(sets) => {
                let ghost before = document_text::table_keys(*sets);
                proof {
                    inside = document_text::table_form(*sets);
                    document_text::complete_inside(keys, SETS_KEY@);
                    assert(keys[SETS_KEY@] == Toml::Table(before));
                }
                if document_text::has_key(sets, set.name) {
                    let mut message = "a set named ".to_owned();
                    message.append(text::quoted(set.name).as_str());
                    message.append(
                        " is already in filters.toml; it was added since recon started",
                    );
                    return Err(message);
                }
                assert(!before.contains_key(set.name@)) by {
                    if before.contains_key(set.name@) {
                        document_text::complete_inside(before, set.name@);
                    }
                }
                let table = match set_table(set) {
                    Ok(table) => table,
                    Err(message) => {
                        return Err(message);
                    },
                };
                document_text::put_table(sets, set.name, table);
                assert(document_text::table_keys(*sets).contains_key(set.name@));
                assert(document_text::table_form(*sets).comments =~= inside.comments);
            },
        }
        proof {
            document_text::the_rest_is_the_same(
                document_text::table_form(*root).comments,
                shown.comments,
                inside.comments,
            );
        }
    }
    proof {
        let after = document_text::keys_of(document);
        assert(after =~= with_set_appended(keys, *set)->Ok_0);
        appending_keeps_complete(keys, *set);
        let now = document_text::form_of(document);
        document_text::the_rest_is_the_same(now.comments, form.comments, shown.comments);
    }
    Ok(document_text::document_text(&document))
}

/// A saved set can be written out as it is.
proof fn saved_set_is_complete(set: SetToSave)
    ensures
        document_text::complete(saved_set(set)),
{
    reveal_with_fuel(document_text::complete, 4);
    let filters = saved_filters(set.filters@);
    assert forall|i: int| 0 <= i < filters.len() implies document_text::complete(
        #[trigger] filters[i],
    ) by {
        let keys = filters[i]->Table_0;
        assert forall|key: Seq<char>| #[trigger] keys.contains_key(key) implies document_text::complete(
            keys[key],
        ) by {}
    }
    let keys = saved_set(set)->Table_0;
    assert forall|key: Seq<char>| #[trigger] keys.contains_key(key) implies document_text::complete(
        keys[key],
    ) by {
        if key == "filters"@ && set.filters@.len() > 0 {
            assert(document_text::complete(Toml::Tables(filters)));
        } else {
            let inner = keys[key]->Table_0;
            assert forall|name: Seq<char>| #[trigger]
                inner.contains_key(name) implies document_text::complete(inner[name]) by {}
        }
    }
}

/// A document with a set appended can be written out as it is, where it could
/// be before.
proof fn appending_keeps_complete(keys: Map<Seq<char>, Toml>, set: SetToSave)
    requires
        document_text::complete(Toml::Table(keys)),
        with_set_appended(keys, set) is Ok,
    ensures
        document_text::complete(Toml::Table(with_set_appended(keys, set)->Ok_0)),
{
    saved_set_is_complete(set);
    let after = with_set_appended(keys, set)->Ok_0;
    let sets = after[SETS_KEY@]->Table_0;
    assert forall|key: Seq<char>| #[trigger] sets.contains_key(key) implies document_text::complete(
        sets[key],
    ) by {
        if key != set.name@ && keys.contains_key(SETS_KEY@) {
            document_text::complete_inside(keys, SETS_KEY@);
            document_text::complete_inside(keys[SETS_KEY@]->Table_0, key);
        }
    }
    document_text::complete_outside(sets);
    assert forall|key: Seq<char>| #[trigger] after.contains_key(key) implies document_text::complete(
        after[key],
    ) by {
        if key != SETS_KEY@ {
            document_text::complete_inside(keys, key);
        }
    }
    document_text::complete_outside(after);
}

} // verus!
