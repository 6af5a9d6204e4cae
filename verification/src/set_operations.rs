//! What loading and saving sets does, whatever is asked for.

use crate::colour::Color;
use crate::config;
use crate::document_text;
use crate::filter::model;
use crate::filter::model::PredicateModel;
use crate::filter::sets;
use crate::filter::sets::{LoadedFilter, LoadedSet};
use crate::filter::Sense;
use crate::filtersets;
use crate::filtersets::{
    DirOutcome, Error, FileOutcome, FileSchema, FilterSchema, SetToSave, SetsDir, SetsFile,
};
use crate::pattern::{Pattern, PatternError};
use crate::search_laws;
use crate::set_file_laws;
use crate::set_laws;
use crate::text;
use vstd::prelude::*;

verus! {

/// What one filter of a table comes to: it is refused for its pattern, else for
/// its colour, else for its name, and else kept as the table says.
pub proof fn what_checking_a_filter_gives(
    entry: FilterSchema,
    compiled: Result<Pattern, PatternError>,
    read: Option<Color>,
    taken: Vec<String>,
    checked: Result<LoadedFilter, String>,
)
    requires
        call_ensures(filtersets::checked_filter, (&entry, compiled, read, &taken), checked),
    ensures
        ({
            let name = set_file_laws::called(entry@);
            let known = exists|i: int| 0 <= i < taken@.len() && (#[trigger] taken@[i])@ == name;
            &&& compiled is Err ==> checked is Err && checked->Err_0@
                == compiled->Err_0.message@
            &&& compiled is Ok && entry.colour is Some && read is None ==> checked is Err
                && checked->Err_0@ == config::colour_complaint(entry.colour->Some_0@)
            &&& compiled is Ok && !(entry.colour is Some && read is None) && known ==> checked
                is Err
            &&& compiled is Ok && !(entry.colour is Some && read is None) && !known ==> {
                &&& checked is Ok
                &&& checked->Ok_0.name@ == name
                &&& checked->Ok_0.predicate@ == PredicateModel::Regex(compiled->Ok_0@)
                &&& entry.sense is Some ==> checked->Ok_0.sense == entry.sense->Some_0
                &&& entry.sense is None ==> checked->Ok_0.sense == Sense::Include
                &&& entry.colour is Some ==> checked->Ok_0.colour == read
                &&& entry.colour is None ==> checked->Ok_0.colour is None
            }
        }),
{
    let names = text::texts(taken@);
    let name = set_file_laws::called(entry@);
    if names.contains(name) {
        let i = choose|i: int| 0 <= i < names.len() && names[i] == name;
        assert(taken@[i]@ == name);
    }
    if exists|i: int| 0 <= i < taken@.len() && (#[trigger] taken@[i])@ == name {
        let i = choose|i: int| 0 <= i < taken@.len() && (#[trigger] taken@[i])@ == name;
        assert(names[i] == name);
    }
}

/// What a file comes to: a set for each table, where every table is taken, and
/// else a complaint of the first that is not, by the file, the set and, where
/// it is one, the filter.
pub proof fn what_parsing_gives(
    file: FileSchema,
    path: &str,
    parsed: Result<Vec<LoadedSet>, Error>,
    t: int,
)
    requires
        filtersets::named_once(file@),
        call_ensures(filtersets::parse_sets, (&file, path), parsed),
        0 <= t < file@.len(),
        forall|i: int|
            0 <= i < t ==> filtersets::table_complaint((#[trigger] file@[i]).0, file@[i].1) is None,
    ensures
        parsed is Ok <==> forall|i: int|
            0 <= i < file@.len() ==> filtersets::table_complaint((#[trigger] file@[i]).0, file@[i].1)
                is None,
        parsed is Ok ==> parsed->Ok_0@.len() == file@.len() && parsed->Ok_0@[t]@
            == filtersets::loaded_set(file@[t].0, file@[t].1, path@),
        filtersets::table_complaint(file@[t].0, file@[t].1) is Some ==> {
            let complaint = filtersets::table_complaint(file@[t].0, file@[t].1)->Some_0;
            &&& parsed matches Err(Error::Invalid { path: named, set, filter, message })
            &&& named@ == path@
            &&& set@ == file@[t].0
            &&& text::option_text(filter) == complaint.filter
            &&& message@ == complaint.message
        },
{
    set_laws::a_file_is_its_tables(file@, path@);
    if filtersets::table_complaint(file@[t].0, file@[t].1) is Some {
        set_file_laws::which_table_a_file_is_refused_for(file@, path@, t);
    }
    if parsed is Ok {
        let models = sets::loaded_models(parsed->Ok_0@);
        assert(models.len() == parsed->Ok_0@.len());
        assert(models[t] == parsed->Ok_0@[t]@);
    }
}

/// What loading files gives: of every name the first set, in order by priority
/// and name, with the built-in one; or the first file that cannot be used is
/// said why.
pub proof fn what_loading_gives(
    files: Vec<SetsFile>,
    loaded: Result<Vec<LoadedSet>, Error>,
    f: int,
    i: int,
    j: int,
)
    requires
        forall|i: int| 0 <= i < files@.len() ==> filtersets::read_once(#[trigger] files@[i]),
        call_ensures(filtersets::load_all, (&files,), loaded),
        0 <= f < files@.len(),
    ensures
        loaded is Ok ==> filtersets::usable_sets(files@[f]) is Some,
        loaded is Ok ==> {
            let all = model::with_builtin(filtersets::unshadowed(filtersets::all_sets(files@)));
            let found = loaded->Ok_0@;
            &&& sets::loaded_models(found).to_multiset() == all.to_multiset()
            &&& 0 <= i < j < found.len() ==> {
                &&& found[i]@.priority <= found[j]@.priority
                &&& found[i]@.priority == found[j]@.priority ==> !text::before(
                    found[j]@.name,
                    found[i]@.name,
                )
            }
        },
        (forall|k: int| 0 <= k < f ==> filtersets::usable_sets(#[trigger] files@[k]) is Some)
            && filtersets::usable_sets(files@[f]) is None ==> {
            &&& loaded is Err
            &&& files@[f].outcome matches FileOutcome::Failed(why) ==> (loaded->Err_0 matches Error::Read {
                path,
                source,
            } && path@ == files@[f].path@ && source@ == why@)
            &&& files@[f].outcome matches FileOutcome::Unparsable(why) ==> (
            loaded->Err_0 matches Error::Parse { path, source } && path@ == files@[f].path@
                && source@ == why@)
        },
{
    let first_bad = (forall|k: int|
        0 <= k < f ==> filtersets::usable_sets(#[trigger] files@[k]) is Some)
        && filtersets::usable_sets(files@[f]) is None;
    if loaded is Ok {
        let found = loaded->Ok_0@;
        let models = sets::loaded_models(found);
        let all = model::with_builtin(filtersets::unshadowed(filtersets::all_sets(files@)));
        model::ordering_sorts(all);
        assert(models == model::in_order(all));
        if 0 <= i < j < found.len() {
            crate::filter::set_outcomes::sets_stand_by_priority_and_name(all, i, j);
            assert(models[i] == found[i]@ && models[j] == found[j]@);
        }
    } else if first_bad {
        let error = loaded->Err_0;
        let k = choose|k: int|
            {
                &&& 0 <= k < files@.len()
                &&& filtersets::says_why(error, #[trigger] files@[k])
                &&& filtersets::usable_sets(files@[k]) is None
                &&& filtersets::all_usable(files@.take(k))
            };
        if k > f {
            assert(files@.take(k)[f] == files@[f]);
            assert(filtersets::usable_sets(files@.take(k)[f]) is Some);
        }
        assert(k == f);
    }
}

/// Which files are read: the user's own first, and behind it those of every
/// directory in turn; or the first directory that cannot be read is said so.
pub proof fn which_files_are_read(
    own: Option<String>,
    dirs: Vec<SetsDir>,
    files: Result<Vec<String>, Error>,
    d: int,
)
    requires
        call_ensures(filtersets::set_files, (own, &dirs), files),
        0 <= d < dirs@.len(),
        forall|k: int| 0 <= k < d ==> (#[trigger] dirs@[k]).outcome !is Failed,
    ensures
        dirs@[d].outcome matches DirOutcome::Failed(why) ==> (files matches Err(
            Error::ReadDir { path, source },
        ) && path@ == dirs@[d].path@ && source@ == why@),
        files is Ok ==> dirs@[d].outcome !is Failed,
        files is Ok ==> text::texts(files->Ok_0@) == (match own {
            Some(own) => seq![own@],
            None => Seq::empty(),
        }) + filtersets::files_in_all(dirs@),
{
    if dirs@[d].outcome is Failed && files is Err {
        let k = choose|k: int|
            {
                &&& 0 <= k < dirs@.len()
                &&& filtersets::all_readable(dirs@.take(k))
                &&& (#[trigger] dirs@[k]).outcome is Failed
                &&& files->Err_0 matches Error::ReadDir { path, source }
                &&& path@ == dirs@[k].path@
                &&& source@ == dirs@[k].outcome->Failed_0@
            };
        if k > d {
            assert(dirs@.take(k)[d] == dirs@[d]);
        }
        assert(k == d);
    }
}

/// Which directories are searched: those that the entries of the path first lead
/// to, in order.
pub proof fn which_directories_are_found(
    list: &str,
    home: Option<&str>,
    cwd: &str,
    dirs: Vec<String>,
    i: int,
)
    requires
        call_ensures(filtersets::search_path_from, (Some(list), home, cwd), dirs),
        0 <= i < filtersets::entries_from(list@, 0).len(),
    ensures
        ({
            let entries = filtersets::entries_from(list@, 0);
            let house = text::option_str(home);
            let at = search_laws::places_found(entries, house, cwd@, i);
            &&& dirs@.len() == search_laws::places_found(
                entries,
                house,
                cwd@,
                entries.len() as int,
            )
            &&& search_laws::leads_first(entries, house, cwd@, i) ==> 0 <= at < dirs@.len()
                && dirs@[at]@ == filtersets::expanded(entries[i], house)
        }),
{
    let entries = filtersets::entries_from(list@, 0);
    let house = text::option_str(home);
    search_laws::which_directories_are_searched(entries, house, cwd@, i);
    let models = text::texts(dirs@);
    assert(models.len() == dirs@.len());
    if search_laws::leads_first(entries, house, cwd@, i) {
        let at = search_laws::places_found(entries, house, cwd@, i);
        assert(models[at] == dirs@[at]@);
    }
}

/// Which names are of files of sets, and where the user's own file is.
pub proof fn which_file_is_the_users(
    name: &str,
    yes: bool,
    xdg: Option<&str>,
    home: Option<&str>,
    path: Option<String>,
    dir: Option<String>,
)
    requires
        call_ensures(filtersets::is_set_file, (name,), yes),
        call_ensures(filtersets::path_from, (xdg, home), path),
        call_ensures(config::config_home_from, (xdg, home), dir),
    ensures
        yes <==> name@ == "filters.toml"@ || (name@.len() > 13 && name@.skip(name@.len() - 13)
            == ".filters.toml"@),
        path is Some <==> dir is Some,
        path is Some ==> path->Some_0@ == config::joined_path(dir->Some_0@, "filters.toml"@),
{
    reveal_strlit(".filters.toml");
    search_laws::which_names_are_of_sets(name@, Seq::empty());
    if name@.len() > 13 && name@.skip(name@.len() - 13) == ".filters.toml"@ {
        assert(text::ends_in(name@, ".filters.toml"@));
    }
}

/// What appending a set does to a document that can be read: it says what it
/// said, and the set under its name; or nothing is written, for the reason.
pub proof fn what_appending_does(
    text: &str,
    set: SetToSave,
    appended: Result<String, String>,
    key: Seq<char>,
    other: Seq<char>,
)
    requires
        call_ensures(filtersets::append_set, (text, &set), appended),
        document_text::document_keys(text@) is Ok,
        key != "sets"@,
        other != set.name@,
    ensures
        ({
            let keys = document_text::document_keys(text@)->Ok_0;
            let taken = keys.contains_key("sets"@) && (keys["sets"@] !is Table
                || keys["sets"@]->Table_0.contains_key(set.name@));
            &&& taken ==> appended is Err
            &&& appended is Ok ==> {
                let after = document_text::document_keys(appended->Ok_0@);
                &&& after is Ok
                &&& after->Ok_0.contains_key(key) == keys.contains_key(key)
                &&& keys.contains_key(key) ==> after->Ok_0[key] == keys[key]
                &&& after->Ok_0.contains_key("sets"@)
                &&& after->Ok_0["sets"@] is Table
                &&& after->Ok_0["sets"@]->Table_0.contains_key(set.name@)
                &&& after->Ok_0["sets"@]->Table_0[set.name@] == filtersets::saved_set(set)
                &&& after->Ok_0["sets"@]->Table_0.contains_key(other) == (keys.contains_key(
                    "sets"@,
                ) && keys["sets"@]->Table_0.contains_key(other))
                &&& after->Ok_0["sets"@]->Table_0.contains_key(other)
                    ==> after->Ok_0["sets"@]->Table_0[other] == keys["sets"@]->Table_0[other]
            }
        }),
{
    let keys = document_text::document_keys(text@)->Ok_0;
    set_file_laws::which_sets_can_be_appended(keys, set);
    if appended is Ok {
        set_laws::appending_touches_nothing_else(keys, set, key, other);
        set_laws::an_appended_set_is_there(keys, set, set);
    }
}

} // verus!
