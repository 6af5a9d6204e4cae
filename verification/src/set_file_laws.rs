//! Which tables of a file of sets are taken, and what is said of the others.

use crate::colour;
use crate::config;
use crate::counting;
use crate::document_text;
use crate::document_text::Toml;
use crate::filter::model;
use crate::filter::model::{LoadedModel, PredicateModel};
use crate::filter::Sense;
use crate::filtersets;
use crate::filtersets::{
    Error, FileComplaint, FileOutcome, FilterSchemaModel, SetSchemaModel, SetToSave, SetsFile,
};
use crate::pattern;
use crate::set_laws;
use crate::syntax::Kind;
use crate::text;
use vstd::prelude::*;

verus! {

// ---------------------------------------------------------------------------
// Tables

/// What a filter of a table goes by: its name, and else its pattern.
pub open spec fn called(filter: FilterSchemaModel) -> Seq<char> {
    if filter.name is Some {
        filter.name->Some_0
    } else {
        filter.pattern
    }
}

/// Whether the regex engine takes a filter's pattern, and its colour is one.
pub open spec fn can_be_used(filter: FilterSchemaModel) -> bool {
    &&& pattern::refusal(filter.pattern) is None
    &&& filter.colour is Some ==> colour::spelled_colour(filter.colour->Some_0) is Some
}

/// Whether a filter before the one at `j` goes by the same name.
pub open spec fn called_before(filters: Seq<FilterSchemaModel>, j: int) -> bool {
    exists|i: int| 0 <= i < j && called(#[trigger] filters[i]) == called(filters[j])
}

/// Whether one of the filters goes by a name.
pub open spec fn goes_by_one(filters: Seq<FilterSchemaModel>, name: Seq<char>) -> bool {
    exists|i: int| 0 <= i < filters.len() && called(#[trigger] filters[i]) == name
}

/// Whether a name is the noun of a kind.
pub open spec fn is_noun(name: Seq<char>) -> bool {
    exists|k: int| 0 <= k < 6 && (#[trigger] Kind::ALL[k]).noun() == name
}

/// Whether a line of text is one line.
pub open spec fn one_line(line: Seq<char>) -> bool {
    forall|i: int| 0 <= i < line.len() ==> #[trigger] line[i] != '\n' && line[i] != '\r'
}

/// Whether what a table says of itself can be used.
pub open spec fn good_head(name: Seq<char>, schema: SetSchemaModel) -> bool {
    &&& name.len() > 0
    &&& schema.description is Some ==> one_line(schema.description->Some_0)
    &&& schema.mode is Some ==> schema.mode->Some_0 == "or"@
}

proof fn lines_agree(line: Seq<char>)
    ensures
        one_line(line) == !(line.contains('\n') || line.contains('\r')),
{
    if !one_line(line) {
        let i = choose|i: int| 0 <= i < line.len() && !(#[trigger] line[i] != '\n' && line[i] != '\r');
        assert(line.contains(line[i]));
    }
}

proof fn heads_agree(name: Seq<char>, schema: SetSchemaModel)
    ensures
        filtersets::head_complaint(name, schema) is None == good_head(name, schema),
{
    if schema.description is Some {
        lines_agree(schema.description->Some_0);
    }
}

proof fn taken_agree(filters: Seq<FilterSchemaModel>, j: int)
    requires
        0 <= j < filters.len(),
    ensures
        filtersets::names_before(filters, j).contains(called(filters[j])) == called_before(
            filters,
            j,
        ),
        filtersets::complaint_at(filters, j) is None <==> can_be_used(filters[j]) && !called_before(
            filters,
            j,
        ),
{
    let names = filtersets::names_before(filters, j);
    assert forall|i: int| 0 <= i < filters.len() implies filtersets::display(#[trigger] filters[i])
        == called(filters[i]) by {}
    if names.contains(called(filters[j])) {
        let i = choose|i: int| 0 <= i < names.len() && names[i] == called(filters[j]);
        assert(called(filters[i]) == called(filters[j]));
    }
    if called_before(filters, j) {
        let i = choose|i: int| 0 <= i < j && called(#[trigger] filters[i]) == called(filters[j]);
        assert(names[i] == called(filters[j]));
    }
}

proof fn names_agree(filters: Seq<FilterSchemaModel>, name: Seq<char>)
    ensures
        filtersets::names_before(filters, filters.len() as int).contains(name) == goes_by_one(
            filters,
            name,
        ),
{
    let names = filtersets::names_before(filters, filters.len() as int);
    if names.contains(name) {
        let i = choose|i: int| 0 <= i < names.len() && names[i] == name;
        assert(called(filters[i]) == name);
    }
    if goes_by_one(filters, name) {
        let i = choose|i: int| 0 <= i < filters.len() && called(#[trigger] filters[i]) == name;
        assert(names[i] == name);
    }
}

proof fn nouns_agree(name: Seq<char>)
    ensures
        filtersets::kind_nouns(6).contains(name) == is_noun(name),
{
    let nouns = filtersets::kind_nouns(6);
    if nouns.contains(name) {
        let k = choose|k: int| 0 <= k < nouns.len() && nouns[k] == name;
        assert(Kind::ALL[k].noun() == name);
    }
    if is_noun(name) {
        let k = choose|k: int| 0 <= k < 6 && (#[trigger] Kind::ALL[k]).noun() == name;
        assert(nouns[k] == name);
    }
}

/// Whether every member of every profile is a name that is known.
pub open spec fn members_known(
    profiles: Seq<(Seq<char>, Seq<Seq<char>>)>,
    known: spec_fn(Seq<char>) -> bool,
) -> bool {
    forall|p: int, m: int|
        0 <= p < profiles.len() && 0 <= m < profiles[p].1.len() ==> known(
            #[trigger] profiles[p].1[m],
        )
}

proof fn members_agree(
    profiles: Seq<(Seq<char>, Seq<Seq<char>>)>,
    list: Seq<Seq<char>>,
    known: spec_fn(Seq<char>) -> bool,
)
    requires
        forall|name: Seq<char>| #[trigger] list.contains(name) == known(name),
    ensures
        members_known(profiles, known) <==> forall|p: int|
            0 <= p < profiles.len() ==> set_laws::all_known((#[trigger] profiles[p]).1, list),
{
    if members_known(profiles, known) {
        assert forall|p: int| 0 <= p < profiles.len() implies set_laws::all_known(
            (#[trigger] profiles[p]).1,
            list,
        ) by {
            assert forall|m: int| 0 <= m < profiles[p].1.len() implies list.contains(
                #[trigger] profiles[p].1[m],
            ) by {
                assert(known(profiles[p].1[m]));
            }
        }
    }
    if forall|p: int|
        0 <= p < profiles.len() ==> set_laws::all_known((#[trigger] profiles[p]).1, list) {
        assert forall|p: int, m: int| 0 <= p < profiles.len() && 0 <= m < profiles[p].1.len() implies known(
            #[trigger] profiles[p].1[m],
        ) by {
            assert(set_laws::all_known(profiles[p].1, list));
            assert(list.contains(profiles[p].1[m]));
        }
    }
}

/// A table is taken just where it has a name, a description of one line and the
/// one mode; where, unless it is the built-in set's, it has filters, each with a
/// pattern and a colour that can be used and a name of its own; where the
/// built-in set's has none; and where its profiles name only what there is.
pub proof fn which_tables_are_taken(name: Seq<char>, schema: SetSchemaModel)
    ensures
        filtersets::table_complaint(name, schema) is None <==> {
            &&& good_head(name, schema)
            &&& name == "definitions"@ ==> schema.filters.len() == 0 && members_known(
                schema.profiles,
                |member: Seq<char>| is_noun(member),
            )
            &&& name != "definitions"@ ==> {
                &&& schema.filters.len() > 0
                &&& forall|j: int|
                    0 <= j < schema.filters.len() ==> can_be_used(#[trigger] schema.filters[j])
                        && !called_before(schema.filters, j)
                &&& members_known(
                    schema.profiles,
                    |member: Seq<char>| goes_by_one(schema.filters, member),
                )
            }
        },
{
    heads_agree(name, schema);
    let filters = schema.filters;
    let nouns = filtersets::kind_nouns(6);
    assert forall|member: Seq<char>| #[trigger] nouns.contains(member) == is_noun(member) by {
        nouns_agree(member);
    }
    members_agree(schema.profiles, nouns, |member: Seq<char>| is_noun(member));
    let names = filtersets::names_before(filters, filters.len() as int);
    assert forall|member: Seq<char>| #[trigger] names.contains(member) == goes_by_one(
        filters,
        member,
    ) by {
        names_agree(filters, member);
    }
    members_agree(schema.profiles, names, |member: Seq<char>| goes_by_one(filters, member));
    set_laws::profiles_are_known(
        schema.profiles,
        0,
        nouns,
        "; the built-in filters are "@ + filtersets::kind_list(6),
    );
    set_laws::profiles_are_known(schema.profiles, 0, names, ""@);
    let test = |j: int| filtersets::complaint_at(filters, j) is Some;
    model::first_index_finds(test, 0, filters.len() as int);
    assert forall|j: int| 0 <= j < filters.len() implies (#[trigger] test(j)) == !(can_be_used(
        filters[j],
    ) && !called_before(filters, j)) by {
        taken_agree(filters, j);
    }
    let bad = filtersets::first_bad_filter(filters);
    assert(bad == model::first_index(test, 0, filters.len() as int));
    if bad < filters.len() {
        assert(test(bad));
    } else {
        assert forall|j: int| 0 <= j < filters.len() implies can_be_used(#[trigger] filters[j])
            && !called_before(filters, j) by {
            assert(!test(j));
        }
    }
}

/// What is said of a table whose head is wrong, in this order: its name, its
/// description, its mode. It is said of the table as a whole.
pub proof fn what_is_said_of_a_head(name: Seq<char>, schema: SetSchemaModel)
    requires
        !good_head(name, schema),
    ensures
        filtersets::table_complaint(name, schema) matches Some(complaint) && {
            &&& complaint.filter is None
            &&& complaint.message == if name.len() == 0 {
                "a set's name cannot be empty"@
            } else if schema.description is Some && !one_line(schema.description->Some_0) {
                "`description` must be one line of text"@
            } else {
                "mode "@ + text::debug_text(schema.mode->Some_0) + " is not supported; only "@
                    + text::debug_text("or"@) + " is"@
            }
        },
{
    heads_agree(name, schema);
    if schema.description is Some {
        lines_agree(schema.description->Some_0);
    }
}

/// What is said of the first filter that something is wrong with, by its name:
/// what the regex engine says of its pattern, else that its colour is none, else
/// that another has its name.
pub proof fn what_is_said_of_a_filter(name: Seq<char>, schema: SetSchemaModel, j: int)
    requires
        good_head(name, schema),
        name != "definitions"@,
        0 <= j < schema.filters.len(),
        !can_be_used(schema.filters[j]) || called_before(schema.filters, j),
        forall|i: int|
            0 <= i < j ==> can_be_used(#[trigger] schema.filters[i]) && !called_before(
                schema.filters,
                i,
            ),
    ensures
        filtersets::table_complaint(name, schema) matches Some(complaint) && {
            let filter = schema.filters[j];
            &&& complaint.filter == Some(called(filter))
            &&& complaint.message == if pattern::refusal(filter.pattern) is Some {
                pattern::refusal(filter.pattern)->Some_0
            } else if filter.colour is Some && colour::spelled_colour(filter.colour->Some_0)
                is None {
                config::colour_complaint(filter.colour->Some_0)
            } else {
                "two filters named "@ + text::debug_text(called(filter))
                    + "; give one a distinct `name`"@
            }
        },
{
    heads_agree(name, schema);
    let filters = schema.filters;
    let test = |k: int| filtersets::complaint_at(filters, k) is Some;
    assert forall|i: int| 0 <= i < j implies !(#[trigger] test(i)) by {
        taken_agree(filters, i);
        assert(can_be_used(filters[i]));
    }
    taken_agree(filters, j);
    assert(test(j));
    model::first_index_is(test, 0, filters.len() as int, j);
    assert(filtersets::first_bad_filter(filters) == j);
}

/// What is said of a table that has no filters, or of the built-in set's that
/// has some.
pub proof fn what_is_said_of_missing_filters(name: Seq<char>, schema: SetSchemaModel)
    requires
        good_head(name, schema),
    ensures
        name != "definitions"@ && schema.filters.len() == 0 ==> (filtersets::table_complaint(
            name,
            schema,
        ) matches Some(complaint) && complaint.filter is None && complaint.message
            == "a set with no filters; add at least one [[sets.<name>.filters]]"@),
        name == "definitions"@ && schema.filters.len() > 0 ==> (filtersets::table_complaint(
            name,
            schema,
        ) matches Some(complaint) && complaint.filter is None && complaint.message
            == text::debug_text(name)
            + " is a built-in set; its table may set `priority`, `autoload`, `listed`, `description` and `profiles` only"@),
{
    heads_agree(name, schema);
}

/// What is said of profiles: the first member that is not known, of the first
/// profile that has one.
pub proof fn what_is_said_of_a_profile(
    profiles: Seq<(Seq<char>, Seq<Seq<char>>)>,
    known: Seq<Seq<char>>,
    ending: Seq<char>,
    p: int,
    m: int,
)
    requires
        0 <= p < profiles.len(),
        0 <= m < profiles[p].1.len(),
        !known.contains(profiles[p].1[m]),
        forall|i: int| 0 <= i < m ==> known.contains(#[trigger] profiles[p].1[i]),
        forall|q: int| 0 <= q < p ==> set_laws::all_known((#[trigger] profiles[q]).1, known),
    ensures
        filtersets::profiles_complaint(profiles, 0, known, ending) == Some(
            "profile "@ + text::debug_text(profiles[p].0) + " names "@ + text::debug_text(
                profiles[p].1[m],
            ) + ", which is not a filter in this set"@ + ending,
        ),
{
    profile_from(profiles, known, ending, p, m, 0);
}

proof fn profile_from(
    profiles: Seq<(Seq<char>, Seq<Seq<char>>)>,
    known: Seq<Seq<char>>,
    ending: Seq<char>,
    p: int,
    m: int,
    from: int,
)
    requires
        0 <= from <= p < profiles.len(),
        0 <= m < profiles[p].1.len(),
        !known.contains(profiles[p].1[m]),
        forall|i: int| 0 <= i < m ==> known.contains(#[trigger] profiles[p].1[i]),
        forall|q: int| 0 <= q < p ==> set_laws::all_known((#[trigger] profiles[q]).1, known),
    ensures
        filtersets::profiles_complaint(profiles, from, known, ending) == Some(
            "profile "@ + text::debug_text(profiles[p].0) + " names "@ + text::debug_text(
                profiles[p].1[m],
            ) + ", which is not a filter in this set"@ + ending,
        ),
    decreases p - from,
{
    let members = profiles[from].1;
    let test = |i: int| !known.contains(members[i]);
    if from < p {
        assert(set_laws::all_known(profiles[from].1, known));
        assert forall|i: int| 0 <= i < members.len() implies !(#[trigger] test(i)) by {
            assert(known.contains(members[i]));
        }
        model::first_index_is(test, 0, members.len() as int, members.len() as int);
        profile_from(profiles, known, ending, p, m, from + 1);
    } else {
        assert forall|i: int| 0 <= i < m implies !(#[trigger] test(i)) by {
            assert(known.contains(profiles[p].1[i]));
        }
        model::first_index_is(test, 0, members.len() as int, m);
    }
    assert(filtersets::first_unknown(members, known) == model::first_index(
        test,
        0,
        members.len() as int,
    ));
}

/// What a table comes to: what it says, and where it says nothing the middle
/// priority, off, listed, and lines of its filters included.
pub proof fn what_a_table_comes_to(
    name: Seq<char>,
    schema: SetSchemaModel,
    path: Seq<char>,
    j: int,
    p: int,
)
    ensures
        ({
            let set = filtersets::loaded_set(name, schema, path);
            &&& set.name == name && set.path == path && set.description == schema.description
            &&& schema.priority is Some ==> set.priority == schema.priority->Some_0
            &&& schema.priority is None ==> set.priority == 50
            &&& schema.autoload is Some ==> set.autoload == schema.autoload->Some_0
            &&& schema.autoload is None ==> !set.autoload
            &&& schema.listed is Some ==> set.listed == schema.listed->Some_0
            &&& schema.listed is None ==> set.listed
            &&& set.builtin <==> name == "definitions"@
            &&& set.filters.len() == schema.filters.len()
            &&& 0 <= j < schema.filters.len() ==> {
                let (made, given) = (set.filters[j], schema.filters[j]);
                &&& made.name == called(given)
                &&& made.predicate == PredicateModel::Regex(given.pattern)
                &&& given.sense is Some ==> made.sense == given.sense->Some_0
                &&& given.sense is None ==> made.sense == Sense::Include
                &&& given.colour is Some ==> made.colour == colour::spelled_colour(
                    given.colour->Some_0,
                )
                &&& given.colour is None ==> made.colour is None
            }
            &&& 0 <= p < schema.profiles.len() && (forall|q: int|
                p < q < schema.profiles.len() ==> (#[trigger] schema.profiles[q]).0
                    != schema.profiles[p].0) ==> {
                &&& set.profiles.contains_key(schema.profiles[p].0)
                &&& set.profiles[schema.profiles[p].0] == schema.profiles[p].1
            }
        }),
{
    if 0 <= p < schema.profiles.len() {
        a_profile_is_mapped(schema.profiles, p);
    }
}

proof fn a_profile_is_mapped(profiles: Seq<(Seq<char>, Seq<Seq<char>>)>, p: int)
    requires
        0 <= p < profiles.len(),
    ensures
        (forall|q: int| p < q < profiles.len() ==> (#[trigger] profiles[q]).0 != profiles[p].0) ==> {
            &&& filtersets::profile_map(profiles).contains_key(profiles[p].0)
            &&& filtersets::profile_map(profiles)[profiles[p].0] == profiles[p].1
        },
    decreases profiles.len(),
{
    if p < profiles.len() - 1 {
        let front = profiles.drop_last();
        a_profile_is_mapped(front, p);
        if forall|q: int| p < q < profiles.len() ==> (#[trigger] profiles[q]).0 != profiles[p].0 {
            assert forall|q: int| p < q < front.len() implies (#[trigger] front[q]).0 != front[p].0 by {
                assert(profiles[q].0 != profiles[p].0);
            }
            assert(profiles[profiles.len() - 1].0 != profiles[p].0);
        }
    }
}

// ---------------------------------------------------------------------------
// Files

/// A file is refused for its first table that something is wrong with, by that
/// table's name.
pub proof fn which_table_a_file_is_refused_for(
    file: Seq<(Seq<char>, SetSchemaModel)>,
    path: Seq<char>,
    t: int,
)
    requires
        0 <= t < file.len(),
        filtersets::table_complaint(file[t].0, file[t].1) is Some,
        forall|i: int|
            0 <= i < t ==> filtersets::table_complaint((#[trigger] file[i]).0, file[i].1) is None,
    ensures
        filtersets::file_sets(file, path) == Err::<Seq<LoadedModel>, _>(
            (FileComplaint {
                set: file[t].0,
                complaint: filtersets::table_complaint(file[t].0, file[t].1)->Some_0,
            }),
        ),
    decreases file.len(),
{
    let front = file.drop_last();
    if t < file.len() - 1 {
        assert forall|i: int| 0 <= i < t implies filtersets::table_complaint(
            (#[trigger] front[i]).0,
            front[i].1,
        ) is None by {
            assert(file[i] == front[i]);
        }
        which_table_a_file_is_refused_for(front, path, t);
    } else {
        set_laws::a_file_is_its_tables(front, path);
        assert forall|i: int| 0 <= i < front.len() implies filtersets::table_complaint(
            (#[trigger] front[i]).0,
            front[i].1,
        ) is None by {
            assert(file[i] == front[i]);
        }
    }
}

/// The sets of files stand one file behind the other. A file that is not there
/// gives none, and one that cannot be read, or parsed, or used cannot be used.
pub proof fn which_sets_files_give(first: Seq<SetsFile>, second: Seq<SetsFile>, file: SetsFile)
    ensures
        filtersets::all_sets(Seq::empty()).len() == 0,
        filtersets::all_sets(seq![file]) == filtersets::usable_sets(file)->Some_0,
        filtersets::all_sets(first + second) == filtersets::all_sets(first) + filtersets::all_sets(
            second,
        ),
        file.outcome is Missing ==> filtersets::usable_sets(file) == Some(
            Seq::<LoadedModel>::empty(),
        ),
        file.outcome is Failed || file.outcome is Unparsable ==> filtersets::usable_sets(file)
            is None,
        file.outcome matches FileOutcome::Parsed(schema) ==> {
            &&& filtersets::usable_sets(file) is Some <==> filtersets::file_sets(
                schema@,
                file.path@,
            ) is Ok
            &&& filtersets::usable_sets(file) is Some ==> filtersets::usable_sets(file)->Some_0
                == filtersets::file_sets(schema@, file.path@)->Ok_0
        },
    decreases second.len(),
{
    assert(seq![file].drop_last() =~= Seq::empty());
    assert(filtersets::all_sets(seq![file].drop_last()) =~= Seq::empty());
    assert(filtersets::all_sets(seq![file]) =~= filtersets::usable_sets(file)->Some_0);
    if second.len() > 0 {
        which_sets_files_give(first, second.drop_last(), file);
        assert((first + second).drop_last() =~= first + second.drop_last());
        assert((first + second).last() == second.last());
    } else {
        assert(first + second =~= first);
    }
    assert(filtersets::all_sets(first + second) =~= filtersets::all_sets(first)
        + filtersets::all_sets(second));
}

/// What is said of a file names it and holds the reason.
pub proof fn what_is_said_of_a_file_of_sets(error: Error)
    ensures
        error matches Error::Read { path, source } ==> error.text()
            == "could not read filter sets file "@ + path@ + ": "@ + source@,
        error matches Error::ReadDir { path, source } ==> error.text()
            == "could not read filter sets directory "@ + path@ + ": "@ + source@,
        error matches Error::Parse { path, source } ==> error.text()
            == "invalid filter sets file "@ + path@ + "\n"@ + source@,
        error matches Error::Invalid { path, set, filter: None, message } ==> error.text()
            == "invalid filter sets file "@ + path@ + ": [sets."@ + set@ + "]"@ + ""@ + ": "@
            + message@,
        error matches Error::Invalid { path, set, filter: Some(filter), message } ==> error.text()
            == "invalid filter sets file "@ + path@ + ": [sets."@ + set@ + "]"@ + (" filter '"@
            + filter@ + "'"@) + ": "@ + message@,
{
}

/// How many of the first `n` sets are the first of their name.
pub open spec fn first_ones(found: Seq<LoadedModel>, n: int) -> int {
    counting::how_many(|k: int| set_laws::first_of_name(found, k), n)
}

/// The sets that stay are the first of each name, in the order in which they
/// were found, whole.
pub proof fn which_sets_stay(found: Seq<LoadedModel>, k: int)
    requires
        0 <= k < found.len(),
    ensures
        filtersets::unshadowed(found).len() == first_ones(found, found.len() as int),
        set_laws::first_of_name(found, k) ==> {
            &&& 0 <= first_ones(found, k) < filtersets::unshadowed(found).len()
            &&& filtersets::unshadowed(found)[first_ones(found, k)] == found[k]
        },
{
    stay_up_to(found, found.len() as int);
    assert(found.take(found.len() as int) =~= found);
    assert(set_laws::first_of_name(found, k) ==> stays_at(found, found.len() as int, k));
}

spec fn stays_at(found: Seq<LoadedModel>, n: int, k: int) -> bool {
    &&& 0 <= first_ones(found, k) < filtersets::unshadowed(found.take(n)).len()
    &&& filtersets::unshadowed(found.take(n))[first_ones(found, k)] == found[k]
}

proof fn stay_up_to(found: Seq<LoadedModel>, n: int)
    requires
        0 <= n <= found.len(),
    ensures
        filtersets::unshadowed(found.take(n)).len() == first_ones(found, n),
        forall|k: int|
            0 <= k < n && set_laws::first_of_name(found, k) ==> #[trigger] stays_at(found, n, k),
    decreases n,
{
    if n > 0 {
        stay_up_to(found, n - 1);
        let front = found.take(n - 1);
        let kept = filtersets::unshadowed(front);
        let last = found[n - 1];
        assert(found.take(n).drop_last() =~= front);
        assert(found.take(n).last() == last);
        set_laws::of_one_name_the_first_is_loaded(front);
        counting::at_most_all(|k: int| set_laws::first_of_name(found, k), n - 1);
        let shadowed = exists|i: int| 0 <= i < kept.len() && (#[trigger] kept[i]).name == last.name;
        assert(shadowed == !set_laws::first_of_name(found, n - 1)) by {
            if shadowed {
                let i = choose|i: int| 0 <= i < kept.len() && (#[trigger] kept[i]).name == last.name;
                assert(front.contains(kept[i]));
                let j = choose|j: int| 0 <= j < front.len() && front[j] == kept[i];
                assert(found[j].name == last.name);
            }
            if !set_laws::first_of_name(found, n - 1) {
                let j = choose|j: int| 0 <= j < n - 1 && (#[trigger] found[j]).name == last.name;
                earliest_of_a_name(found, j);
                let first = choose|first: int|
                    0 <= first <= j && found[first].name == found[j].name
                        && #[trigger] set_laws::first_of_name(found, first);
                assert(stays_at(found, n - 1, first));
                assert(kept[first_ones(found, first)].name == last.name);
            }
        }
        assert forall|k: int| 0 <= k < n && set_laws::first_of_name(
            found,
            k,
        ) implies #[trigger] stays_at(found, n, k) by {
            if k < n - 1 {
                assert(stays_at(found, n - 1, k));
            }
        }
    } else {
        assert(filtersets::unshadowed(found.take(0)) =~= Seq::empty());
    }
}

proof fn earliest_of_a_name(found: Seq<LoadedModel>, j: int)
    requires
        0 <= j < found.len(),
    ensures
        exists|first: int|
            0 <= first <= j && found[first].name == found[j].name
                && #[trigger] set_laws::first_of_name(found, first),
    decreases j,
{
    if !set_laws::first_of_name(found, j) {
        let i = choose|i: int| 0 <= i < j && (#[trigger] found[i]).name == found[j].name;
        earliest_of_a_name(found, i);
        let first = choose|first: int|
            0 <= first <= i && found[first].name == found[i].name
                && #[trigger] set_laws::first_of_name(found, first);
        assert(set_laws::first_of_name(found, first));
    } else {
        assert(set_laws::first_of_name(found, j));
    }
}

// ---------------------------------------------------------------------------
// Saving

/// A set can be appended just where `sets` is a table or missing, holds no set
/// of the name, and every text can be written.
pub proof fn which_sets_can_be_appended(keys: Map<Seq<char>, Toml>, set: SetToSave)
    ensures
        ({
            let there = keys.contains_key("sets"@);
            let appended = filtersets::with_set_appended(keys, set);
            let default = set.default@;
            let filters = set.filters@;
            &&& appended is Ok <==> {
                &&& there ==> keys["sets"@] is Table && !keys["sets"@]->Table_0.contains_key(
                    set.name@,
                )
                &&& forall|i: int|
                    0 <= i < default.len() ==> document_text::encodable((#[trigger] default[i])@)
                &&& forall|i: int|
                    0 <= i < filters.len() ==> filtersets::pattern_refusal(
                        (#[trigger] filters[i]).0@,
                    ) is None
            }
            &&& there && keys["sets"@] !is Table ==> appended == Err::<Map<Seq<char>, Toml>, _>(
                "`sets` is not a table"@,
            )
            &&& there && keys["sets"@] is Table && keys["sets"@]->Table_0.contains_key(set.name@)
                ==> appended == Err::<Map<Seq<char>, Toml>, _>(
                "a set named "@ + text::debug_text(set.name@)
                    + " is already in filters.toml; it was added since recon started"@,
            )
        }),
{
    let default = set.default@;
    let filters = set.filters@;
    let plain = |i: int| !document_text::encodable(default[i]@);
    let refused = |i: int| filtersets::pattern_refusal(filters[i].0@) is Some;
    model::first_index_finds(plain, 0, default.len() as int);
    model::first_index_finds(refused, 0, filters.len() as int);
    let a = filtersets::first_unencodable(default);
    let b = filtersets::first_refused(filters);
    assert(a == model::first_index(plain, 0, default.len() as int));
    assert(b == model::first_index(refused, 0, filters.len() as int));
    if a < default.len() {
        assert(plain(a));
    } else {
        assert forall|i: int| 0 <= i < default.len() implies document_text::encodable(
            (#[trigger] default[i])@,
        ) by {
            assert(!plain(i));
        }
    }
    if b < filters.len() {
        assert(refused(b));
    } else {
        assert forall|i: int| 0 <= i < filters.len() implies filtersets::pattern_refusal(
            (#[trigger] filters[i]).0@,
        ) is None by {
            assert(!refused(i));
        }
    }
}

/// Whether a text holds a quote so many times in a row, from a place on.
pub open spec fn in_a_row(text: Seq<char>, quote: char, from: int, times: int) -> bool {
    0 <= from && from + times <= text.len() && forall|i: int|
        from <= i < from + times ==> #[trigger] text[i] == quote
}

proof fn runs_are_in_a_row(text: Seq<char>, quote: char, times: int)
    requires
        times >= 0,
    ensures
        document_text::run_at_end(text, quote) >= times <==> in_a_row(
            text,
            quote,
            text.len() - times,
            times,
        ),
    decreases text.len(),
{
    if times > 0 && text.len() > 0 && text.last() == quote {
        let front = text.drop_last();
        runs_are_in_a_row(front, quote, times - 1);
        if in_a_row(front, quote, front.len() - (times - 1), times - 1) {
            assert forall|i: int| text.len() - times <= i < text.len() implies #[trigger] text[i]
                == quote by {
                if i < front.len() {
                    assert(front[i] == quote);
                }
            }
        }
        if in_a_row(text, quote, text.len() - times, times) {
            assert forall|i: int| text.len() - times <= i < front.len() implies #[trigger] front[i]
                == quote by {
                assert(text[i] == quote);
            }
        }
    } else if times > 0 {
        if text.len() > 0 && in_a_row(text, quote, text.len() - times, times) {
            assert(text[text.len() - 1] == quote);
        }
    } else {
        run_is_not_negative(text, quote);
    }
}

proof fn run_is_not_negative(text: Seq<char>, quote: char)
    ensures
        document_text::run_at_end(text, quote) >= 0,
    decreases text.len(),
{
    if text.len() > 0 && text.last() == quote {
        run_is_not_negative(text.drop_last(), quote);
    }
}

/// A text can be encoded just where it holds nowhere more quotes of one kind in
/// a row than can be counted in a byte.
pub proof fn which_texts_can_be_encoded(text: Seq<char>)
    ensures
        document_text::encodable(text) <==> forall|from: int|
            !(#[trigger] in_a_row(text, '\'', from, 256)) && !in_a_row(text, '"', from, 256),
{
    if document_text::encodable(text) {
        assert forall|from: int| !(#[trigger] in_a_row(text, '\'', from, 256)) && !in_a_row(
            text,
            '"',
            from,
            256,
        ) by {
            let end = from + 256;
            if 0 <= from && end <= text.len() {
                let head = text.take(end);
                assert(document_text::run_at_end(head, '\'') <= 255);
                runs_are_in_a_row(head, '\'', 256);
                runs_are_in_a_row(head, '"', 256);
                if in_a_row(text, '\'', from, 256) {
                    assert forall|i: int| from <= i < end implies #[trigger] head[i] == '\'' by {
                        assert(head[i] == text[i]);
                    }
                }
                if in_a_row(text, '"', from, 256) {
                    assert forall|i: int| from <= i < end implies #[trigger] head[i] == '"' by {
                        assert(head[i] == text[i]);
                    }
                }
            }
        }
    }
    if forall|from: int|
        !(#[trigger] in_a_row(text, '\'', from, 256)) && !in_a_row(text, '"', from, 256) {
        assert forall|end: int| 0 <= end <= text.len() implies document_text::run_at_end(
            #[trigger] text.take(end),
            '\'',
        ) <= 255 && document_text::run_at_end(text.take(end), '"') <= 255 by {
            let head = text.take(end);
            runs_are_in_a_row(head, '\'', 256);
            runs_are_in_a_row(head, '"', 256);
            let from = end - 256;
            assert(!in_a_row(text, '\'', from, 256));
            if in_a_row(head, '\'', from, 256) {
                assert forall|i: int| from <= i < end implies #[trigger] text[i] == '\'' by {
                    assert(head[i] == text[i]);
                }
            }
            if in_a_row(head, '"', from, 256) {
                assert forall|i: int| from <= i < end implies #[trigger] text[i] == '"' by {
                    assert(head[i] == text[i]);
                }
            }
        }
    }
}

} // verus!
