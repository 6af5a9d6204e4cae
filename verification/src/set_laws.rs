//! What holds of the loading and the saving of filter sets as a whole.

use crate::document_text;
use crate::document_text::Toml;
use crate::filter::model;
use crate::filter::model::{LoadedFilterModel, LoadedModel, PredicateModel};
use crate::filter::{Sense, DEFINITIONS_SET};
use crate::filtersets;
use crate::filtersets::{
    FileOutcome, FilterSchemaModel, SetSchemaModel, SetToSave, SetsFile, DEFAULT_PRIORITY, SETS_KEY,
};
use crate::pattern;
use crate::syntax::KIND_COUNT;
use crate::text;
use vstd::prelude::*;

verus! {

// ---------------------------------------------------------------------------
// Loading

/// Whether a set is the first of its name.
pub open spec fn first_of_name(found: Seq<LoadedModel>, k: int) -> bool {
    forall|j: int| 0 <= j < k ==> (#[trigger] found[j]).name != found[k].name
}

/// Of the sets of one name the first is loaded, whole, and no other: no name is
/// loaded twice, every set that is loaded is one that was found, and the first
/// set of every name is among them.
pub proof fn of_one_name_the_first_is_loaded(found: Seq<LoadedModel>)
    ensures
        filtersets::names_differ(filtersets::unshadowed(found)),
        forall|i: int|
            0 <= i < filtersets::unshadowed(found).len() ==> found.contains(
                #[trigger] filtersets::unshadowed(found)[i],
            ),
        forall|k: int|
            0 <= k < found.len() && #[trigger] first_of_name(found, k) ==> filtersets::unshadowed(
                found,
            ).contains(found[k]),
    decreases found.len(),
{
    let kept = filtersets::unshadowed(found);
    if found.len() > 0 {
        let before = found.drop_last();
        let last = found.last();
        let known = filtersets::unshadowed(before);
        of_one_name_the_first_is_loaded(before);
        assert(kept == filtersets::with_unshadowed(known, last));
        assert forall|i: int| 0 <= i < kept.len() implies found.contains(#[trigger] kept[i]) by {
            if i < known.len() {
                assert(before.contains(known[i]));
                let k = choose|k: int| 0 <= k < before.len() && before[k] == known[i];
                assert(found[k] == kept[i]);
            } else {
                assert(found[found.len() - 1] == kept[i]);
            }
        }
        assert forall|k: int| 0 <= k < found.len() && #[trigger] first_of_name(
            found,
            k,
        ) implies kept.contains(found[k]) by {
            if k < before.len() {
                assert(first_of_name(before, k)) by {
                    assert forall|j: int| 0 <= j < k implies (#[trigger] before[j]).name
                        != before[k].name by {
                        assert(found[j] == before[j]);
                    }
                }
                assert(known.contains(before[k]));
                let i = choose|i: int| 0 <= i < known.len() && known[i] == before[k];
                assert(kept[i] == found[k]);
            } else {
                assert forall|i: int| 0 <= i < known.len() implies (#[trigger] known[i]).name
                    != last.name by {
                    assert(before.contains(known[i]));
                    let j = choose|j: int| 0 <= j < before.len() && before[j] == known[i];
                    assert(found[j] == known[i]);
                }
                assert(kept == known.push(last));
                assert(kept[known.len() as int] == last);
            }
        }
    }
}

/// What is loaded are the sets that were given, in order by priority and then
/// by name, and the built-in set where none of them is it: exactly one set is
/// built in.
pub proof fn one_builtin_set_is_loaded(given: Seq<LoadedModel>)
    requires
        filtersets::names_differ(given),
        filtersets::builtin_by_name(given),
    ensures
        ({
            let loaded = model::in_order(model::with_builtin(given));
            &&& model::sorted(loaded)
            &&& filtersets::one_builtin(loaded)
            &&& loaded.to_multiset() == model::with_builtin(given).to_multiset()
            &&& forall|k: int| 0 <= k < given.len() ==> loaded.contains(#[trigger] given[k])
        }),
{
    broadcast use vstd::seq_lib::group_to_multiset_ensures;

    let all = model::with_builtin(given);
    let loaded = model::in_order(all);
    model::ordering_sorts(all);
    assert forall|k: int| 0 <= k < given.len() implies loaded.contains(#[trigger] given[k]) by {
        assert(all[k] == given[k]);
        assert(all.contains(given[k]));
        assert(all.to_multiset().count(given[k]) > 0);
    }
    let at = if exists|i: int| 0 <= i < given.len() && (#[trigger] given[i]).builtin {
        choose|i: int| 0 <= i < given.len() && (#[trigger] given[i]).builtin
    } else {
        given.len() as int
    };
    assert(all[at].builtin);
    assert(all.no_duplicates()) by {
        assert forall|i: int, j: int| 0 <= i < all.len() && 0 <= j < all.len() && i != j implies all[i]
            != all[j] by {
            if i < given.len() && j < given.len() {
                assert(given[i].name != given[j].name);
            }
        }
    }
    all.lemma_multiset_has_no_duplicates();
    loaded.lemma_multiset_has_no_duplicates_conv();
    assert(all.contains(all[at]));
    assert(all.to_multiset().count(all[at]) > 0);
    assert(loaded.contains(all[at]));
    let k = choose|k: int| 0 <= k < loaded.len() && loaded[k] == all[at];
    assert(loaded[k].builtin);
    assert forall|j: int| 0 <= j < loaded.len() && (#[trigger] loaded[j]).builtin implies j == k by {
        assert(loaded.contains(loaded[j]));
        assert(loaded.to_multiset().count(loaded[j]) > 0);
        assert(all.contains(loaded[j]));
        let m = choose|m: int| 0 <= m < all.len() && all[m] == loaded[j];
        assert(m == at) by {
            if m < given.len() && at < given.len() {
                assert(given[m].name == given[at].name);
            }
        }
        assert(loaded[j] == loaded[k]);
    }
}

/// The sets of files are built in where they have the built-in set's name.
pub proof fn all_sets_are_built_in_by_name(files: Seq<SetsFile>)
    requires
        filtersets::all_usable(files),
        forall|i: int| 0 <= i < files.len() ==> filtersets::read_once(#[trigger] files[i]),
    ensures
        filtersets::builtin_by_name(filtersets::all_sets(files)),
    decreases files.len(),
{
    if files.len() > 0 {
        let front = files.drop_last();
        assert forall|i: int| 0 <= i < front.len() implies filtersets::read_once(#[trigger] front[i])
            && filtersets::usable_sets(front[i]) is Some by {
            assert(front[i] == files[i]);
        }
        all_sets_are_built_in_by_name(front);
        let last = files[files.len() - 1];
        assert(filtersets::usable_sets(last) is Some && filtersets::read_once(last));
        if let FileOutcome::Parsed(schema) = last.outcome {
            a_file_is_its_tables(schema@, last.path@);
        }
    }
}

// ---------------------------------------------------------------------------
// Parsing

/// A file gives one set for each table, in the order of the tables, where
/// nothing is wrong with any of them, and else none; with every name standing
/// once no two sets have one name.
pub proof fn a_file_is_its_tables(file: Seq<(Seq<char>, SetSchemaModel)>, path: Seq<char>)
    ensures
        filtersets::file_sets(file, path) is Ok <==> forall|i: int|
            0 <= i < file.len() ==> filtersets::table_complaint(
                (#[trigger] file[i]).0,
                file[i].1,
            ) is None,
        filtersets::file_sets(file, path) matches Ok(sets) ==> {
            &&& sets.len() == file.len()
            &&& forall|i: int|
                0 <= i < file.len() ==> #[trigger] sets[i] == filtersets::loaded_set(
                    file[i].0,
                    file[i].1,
                    path,
                )
            &&& filtersets::builtin_by_name(sets)
            &&& filtersets::named_once(file) ==> filtersets::names_differ(sets)
        },
    decreases file.len(),
{
    if file.len() > 0 {
        let front = file.drop_last();
        a_file_is_its_tables(front, path);
        assert forall|i: int| 0 <= i < front.len() implies front[i] == file[i] by {}
        if forall|i: int|
            0 <= i < file.len() ==> filtersets::table_complaint(
                (#[trigger] file[i]).0,
                file[i].1,
            ) is None {
            assert forall|i: int| 0 <= i < front.len() implies filtersets::table_complaint(
                (#[trigger] front[i]).0,
                front[i].1,
            ) is None by {
                assert(file[i] == front[i]);
            }
            assert(filtersets::table_complaint(file[file.len() - 1].0, file[file.len() - 1].1) is None);
        }
        if filtersets::file_sets(file, path) is Ok {
            let sets = filtersets::file_sets(file, path)->Ok_0;
            let known = filtersets::file_sets(front, path)->Ok_0;
            assert(sets == known.push(filtersets::loaded_set(file.last().0, file.last().1, path)));
            assert forall|i: int| 0 <= i < file.len() implies filtersets::table_complaint(
                (#[trigger] file[i]).0,
                file[i].1,
            ) is None by {
                if i < front.len() {
                    assert(front[i] == file[i]);
                }
            }
            assert forall|i: int| 0 <= i < file.len() implies #[trigger] sets[i]
                == filtersets::loaded_set(file[i].0, file[i].1, path) by {
                if i < front.len() {
                    assert(sets[i] == known[i]);
                }
            }
            if filtersets::named_once(file) {
                assert forall|i: int, j: int| 0 <= i < j < sets.len() implies (#[trigger] sets[i]).name
                    != (#[trigger] sets[j]).name by {
                    assert(file[i].0 != file[j].0);
                }
            }
        }
    }
}

/// Nothing is wrong with profiles if and only if every member is known.
pub proof fn profiles_are_known(
    profiles: Seq<(Seq<char>, Seq<Seq<char>>)>,
    i: int,
    known: Seq<Seq<char>>,
    ending: Seq<char>,
)
    requires
        0 <= i,
    ensures
        filtersets::profiles_complaint(profiles, i, known, ending) is None <==> forall|p: int|
            i <= p < profiles.len() ==> all_known((#[trigger] profiles[p]).1, known),
    decreases profiles.len() - i,
{
    if i < profiles.len() {
        let members = profiles[i].1;
        let test = |k: int| !known.contains(members[k]);
        model::first_index_finds(test, 0, members.len() as int);
        let at = filtersets::first_unknown(members, known);
        assert(at == model::first_index(test, 0, members.len() as int));
        profiles_are_known(profiles, i + 1, known, ending);
        if at < members.len() {
            assert(test(at));
            assert(!all_known(profiles[i].1, known));
        } else {
            assert forall|k: int| 0 <= k < members.len() implies known.contains(
                #[trigger] members[k],
            ) by {
                assert(!test(k));
            }
            assert(all_known(profiles[i].1, known));
        }
    }
}

/// Whether every member of a profile is known.
pub open spec fn all_known(members: Seq<Seq<char>>, known: Seq<Seq<char>>) -> bool {
    forall|k: int| 0 <= k < members.len() ==> known.contains(#[trigger] members[k])
}

/// Profiles by name are the profiles, each under its name.
proof fn profiles_by_name(profiles: Seq<(Seq<char>, Seq<Seq<char>>)>)
    requires
        filtersets::profiles_once(profiles),
    ensures
        forall|i: int|
            0 <= i < profiles.len() ==> {
                &&& filtersets::profile_map(profiles).contains_key((#[trigger] profiles[i]).0)
                &&& filtersets::profile_map(profiles)[profiles[i].0] == profiles[i].1
            },
        forall|name: Seq<char>| #[trigger]
            filtersets::profile_map(profiles).contains_key(name) ==> has_profile(profiles, name),
    decreases profiles.len(),
{
    if profiles.len() > 0 {
        let front = profiles.drop_last();
        let last = profiles.last();
        assert forall|i: int, j: int| 0 <= i < j < front.len() implies (#[trigger] front[i]).0 != (
        #[trigger] front[j]).0 by {
            assert(profiles[i].0 != profiles[j].0);
        }
        profiles_by_name(front);
        assert forall|i: int| 0 <= i < profiles.len() implies {
            &&& filtersets::profile_map(profiles).contains_key((#[trigger] profiles[i]).0)
            &&& filtersets::profile_map(profiles)[profiles[i].0] == profiles[i].1
        } by {
            if i < front.len() {
                assert(front[i] == profiles[i]);
                assert(profiles[i].0 != profiles[profiles.len() - 1].0);
            }
        }
        assert forall|name: Seq<char>| #[trigger]
            filtersets::profile_map(profiles).contains_key(name) implies has_profile(
            profiles,
            name,
        ) by {
            if name == last.0 {
                assert(profiles[profiles.len() - 1].0 == name);
            } else {
                assert(filtersets::profile_map(front).contains_key(name));
                let i = choose|i: int| 0 <= i < front.len() && (#[trigger] front[i]).0 == name;
                assert(profiles[i].0 == name);
            }
        }
    }
}

/// Whether one of the profiles has a name.
pub open spec fn has_profile(profiles: Seq<(Seq<char>, Seq<Seq<char>>)>, name: Seq<char>) -> bool {
    exists|i: int| 0 <= i < profiles.len() && (#[trigger] profiles[i]).0 == name
}

/// What every set is that a file gives: it has a name, knows its file, and is
/// described in one line; only the built-in set has no filters of its own and
/// profiles of the kinds' nouns, and any other has filters with a name each
/// and profiles of those names.
pub open spec fn sound(set: LoadedModel, path: Seq<char>) -> bool {
    &&& set.name.len() > 0
    &&& set.path == path
    &&& set.description matches Some(line) ==> !line.contains('\n') && !line.contains('\r')
    &&& set.builtin == (set.name == DEFINITIONS_SET@)
    &&& set.builtin ==> set.filters.len() == 0
    &&& !set.builtin ==> set.filters.len() > 0
    &&& filter_names(set.filters).no_duplicates()
    &&& forall|profile: Seq<char>| #[trigger]
        set.profiles.contains_key(profile) ==> all_known(
            set.profiles[profile],
            if set.builtin {
                filtersets::kind_nouns(KIND_COUNT as int)
            } else {
                filter_names(set.filters)
            },
        )
}

/// The names of filters.
pub open spec fn filter_names(filters: Seq<LoadedFilterModel>) -> Seq<Seq<char>> {
    Seq::new(filters.len(), |i: int| filters[i].name)
}

/// Every set that a file gives is sound, and no two have one name.
pub proof fn what_is_parsed_is_sound(file: Seq<(Seq<char>, SetSchemaModel)>, path: Seq<char>)
    requires
        filtersets::named_once(file),
        filtersets::file_sets(file, path) is Ok,
    ensures
        filtersets::names_differ(filtersets::file_sets(file, path)->Ok_0),
        forall|i: int|
            0 <= i < filtersets::file_sets(file, path)->Ok_0.len() ==> sound(
                #[trigger] filtersets::file_sets(file, path)->Ok_0[i],
                path,
            ),
{
    a_file_is_its_tables(file, path);
    let sets = filtersets::file_sets(file, path)->Ok_0;
    assert forall|i: int| 0 <= i < sets.len() implies sound(#[trigger] sets[i], path) by {
        assert(filtersets::table_complaint(file[i].0, file[i].1) is None);
        assert(filtersets::profiles_once(file[i].1.profiles));
        a_good_table_is_sound(file[i].0, file[i].1, path);
    }
}

proof fn a_good_table_is_sound(name: Seq<char>, schema: SetSchemaModel, path: Seq<char>)
    requires
        filtersets::table_complaint(name, schema) is None,
        filtersets::profiles_once(schema.profiles),
    ensures
        sound(filtersets::loaded_set(name, schema, path), path),
{
    let set = filtersets::loaded_set(name, schema, path);
    let filters = schema.filters;
    let names = filtersets::names_before(filters, filters.len() as int);
    assert(filter_names(set.filters) =~= names);
    let known = if set.builtin {
        filtersets::kind_nouns(KIND_COUNT as int)
    } else {
        names
    };
    let ending = if set.builtin {
        "; the built-in filters are "@ + filtersets::kind_list(KIND_COUNT as int)
    } else {
        ""@
    };
    profiles_are_known(schema.profiles, 0, known, ending);
    profiles_by_name(schema.profiles);
    if !set.builtin {
        let test = |j: int| filtersets::complaint_at(filters, j) is Some;
        model::first_index_finds(test, 0, filters.len() as int);
        assert(filtersets::first_bad_filter(filters) == filters.len());
        assert forall|i: int, j: int| 0 <= i < names.len() && 0 <= j < names.len() && i
            != j implies names[i] != names[j] by {
            let (low, high) = if i < j {
                (i, j)
            } else {
                (j, i)
            };
            assert(!test(high));
            let taken = filtersets::names_before(filters, high);
            assert(taken[low] == names[low]);
            if names[low] == names[high] {
                assert(taken.contains(filtersets::display(filters[high])));
            }
        }
    } else {
        assert(filters.len() == 0);
    }
    assert(filtersets::profiles_complaint(schema.profiles, 0, known, ending) is None);
    assert forall|profile: Seq<char>| #[trigger] set.profiles.contains_key(profile) implies all_known(
        set.profiles[profile],
        known,
    ) by {
        let p = choose|p: int|
            0 <= p < schema.profiles.len() && (#[trigger] schema.profiles[p]).0 == profile;
        assert(all_known(schema.profiles[p].1, known));
    }
}

// ---------------------------------------------------------------------------
// Searching

/// A directory is read once however often a search path names it: no two of
/// the directories lead to one place, and each entry that is not empty leads
/// to the place of one of them.
pub proof fn a_directory_is_read_once(
    entries: Seq<Seq<char>>,
    home: Option<Seq<char>>,
    cwd: Seq<char>,
)
    ensures
        places_differ(filtersets::directories(entries, home, cwd), cwd),
        forall|i: int|
            0 <= i < entries.len() && (#[trigger] entries[i]).len() > 0 ==> leads_there(
                filtersets::directories(entries, home, cwd),
                filtersets::expanded(entries[i], home),
                cwd,
            ),
    decreases entries.len(),
{
    let dirs = filtersets::directories(entries, home, cwd);
    if entries.len() > 0 {
        let before = entries.drop_last();
        let known = filtersets::directories(before, home, cwd);
        a_directory_is_read_once(before, home, cwd);
        assert forall|i: int| 0 <= i < entries.len() && (#[trigger] entries[i]).len()
            > 0 implies leads_there(dirs, filtersets::expanded(entries[i], home), cwd) by {
            let dir = filtersets::expanded(entries[i], home);
            if i < before.len() {
                assert(before[i] == entries[i]);
                assert(leads_there(known, dir, cwd));
                let k = choose|k: int|
                    0 <= k < known.len() && filtersets::directory_key(#[trigger] known[k], cwd)
                        == filtersets::directory_key(dir, cwd);
                assert(dirs[k] == known[k]);
            } else if dirs.len() > known.len() {
                assert(dirs[known.len() as int] == dir);
            }
        }
    }
}

/// No two directories lead to one place.
pub open spec fn places_differ(dirs: Seq<Seq<char>>, cwd: Seq<char>) -> bool {
    forall|i: int, j: int|
        0 <= i < j < dirs.len() ==> filtersets::directory_key(#[trigger] dirs[i], cwd)
            != filtersets::directory_key(#[trigger] dirs[j], cwd)
}

/// One of the directories leads to the place that a directory leads to.
pub open spec fn leads_there(dirs: Seq<Seq<char>>, dir: Seq<char>, cwd: Seq<char>) -> bool {
    exists|i: int|
        0 <= i < dirs.len() && filtersets::directory_key(#[trigger] dirs[i], cwd)
            == filtersets::directory_key(dir, cwd)
}

// ---------------------------------------------------------------------------
// Saving

/// Appending a set touches nothing else that a document says: every other key
/// and every other set stays as it was.
pub proof fn appending_touches_nothing_else(
    keys: Map<Seq<char>, Toml>,
    set: SetToSave,
    key: Seq<char>,
    other: Seq<char>,
)
    requires
        filtersets::with_set_appended(keys, set) is Ok,
        key != SETS_KEY@,
        other != set.name@,
    ensures
        ({
            let after = filtersets::with_set_appended(keys, set)->Ok_0;
            &&& after.contains_key(key) == keys.contains_key(key)
            &&& keys.contains_key(key) ==> after[key] == keys[key]
            &&& after.contains_key(SETS_KEY@)
            &&& after[SETS_KEY@] matches Toml::Table(sets)
            &&& sets.contains_key(other) == (keys.contains_key(SETS_KEY@)
                && keys[SETS_KEY@]->Table_0.contains_key(other))
            &&& sets.contains_key(other) ==> sets[other] == keys[SETS_KEY@]->Table_0[other]
        }),
{
}

/// A set that was appended is there, as it was saved, and is not appended
/// again: its name is taken.
pub proof fn an_appended_set_is_there(
    keys: Map<Seq<char>, Toml>,
    set: SetToSave,
    again: SetToSave,
)
    requires
        filtersets::with_set_appended(keys, set) is Ok,
        again.name@ == set.name@,
    ensures
        ({
            let after = filtersets::with_set_appended(keys, set)->Ok_0;
            &&& after[SETS_KEY@] matches Toml::Table(sets)
            &&& sets.contains_key(set.name@)
            &&& sets[set.name@] == filtersets::saved_set(set)
            &&& filtersets::with_set_appended(after, again) is Err
        }),
{
}

/// The keys of a table, be it under a header or between braces.
pub open spec fn keys_in(value: Toml) -> Option<Map<Seq<char>, Toml>> {
    match value {
        Toml::Table(keys) => Some(keys),
        Toml::Inline(keys) => Some(keys),
        _ => None,
    }
}

/// The values of a list, be it an array or a list of tables.
pub open spec fn values_in(value: Toml) -> Option<Seq<Toml>> {
    match value {
        Toml::Array(values) => Some(values),
        Toml::Tables(tables) => Some(tables),
        _ => None,
    }
}

/// Whether a setting has been read as what its key says.
pub open spec fn reads_key(
    setting: Option<Toml>,
    keys: Map<Seq<char>, Toml>,
    key: Seq<char>,
) -> bool {
    if keys.contains_key(key) {
        setting == Some(keys[key])
    } else {
        setting is None
    }
}

/// What a number says.
pub open spec fn number(setting: Option<i32>) -> Option<Toml> {
    match setting {
        Some(value) => Some(Toml::Integer(value as int)),
        None => None,
    }
}

/// What a flag says.
pub open spec fn flag(setting: Option<bool>) -> Option<Toml> {
    match setting {
        Some(value) => Some(Toml::Boolean(value)),
        None => None,
    }
}

/// What a string says.
pub open spec fn string(setting: Option<Seq<char>>) -> Option<Toml> {
    match setting {
        Some(value) => Some(Toml::Text(value)),
        None => None,
    }
}

/// The word for a sense.
pub open spec fn sense_word(sense: Sense) -> Seq<char> {
    match sense {
        Sense::Include => "include"@,
        Sense::Context => "context"@,
        Sense::Exclude => "exclude"@,
    }
}

/// What a sense says.
pub open spec fn sense_text(sense: Option<Sense>) -> Option<Toml> {
    match sense {
        Some(sense) => Some(Toml::Text(sense_word(sense))),
        None => None,
    }
}

/// Whether a table of a file has been read as what it says.
pub open spec fn reads_table(schema: SetSchemaModel, value: Toml) -> bool {
    &&& keys_in(value) is Some
    &&& reads_keys(schema, keys_in(value)->Some_0)
}

/// Whether a table of a file has been read as what its keys say.
pub open spec fn reads_keys(schema: SetSchemaModel, keys: Map<Seq<char>, Toml>) -> bool {
    &&& reads_key(number(schema.priority), keys, "priority"@)
    &&& reads_key(flag(schema.autoload), keys, "autoload"@)
    &&& reads_key(flag(schema.listed), keys, "listed"@)
    &&& reads_key(string(schema.description), keys, "description"@)
    &&& reads_key(string(schema.mode), keys, "mode"@)
    &&& if keys.contains_key("profiles"@) {
        &&& keys_in(keys["profiles"@]) is Some
        &&& reads_profiles(schema.profiles, keys_in(keys["profiles"@])->Some_0)
    } else {
        schema.profiles.len() == 0
    }
    &&& if keys.contains_key("filters"@) {
        &&& values_in(keys["filters"@]) is Some
        &&& reads_filters(schema.filters, values_in(keys["filters"@])->Some_0)
    } else {
        schema.filters.len() == 0
    }
}

/// Whether profiles have been read as what their table says, each once.
pub open spec fn reads_profiles(
    profiles: Seq<(Seq<char>, Seq<Seq<char>>)>,
    keys: Map<Seq<char>, Toml>,
) -> bool {
    &&& filtersets::profiles_once(profiles)
    &&& forall|i: int|
        0 <= i < profiles.len() ==> {
            &&& keys.contains_key((#[trigger] profiles[i]).0)
            &&& keys[profiles[i].0] == filtersets::text_array(profiles[i].1)
        }
    &&& forall|name: Seq<char>| #[trigger] keys.contains_key(name) ==> has_profile(profiles, name)
}

/// Whether filters have been read as what their tables say.
pub open spec fn reads_filters(filters: Seq<FilterSchemaModel>, tables: Seq<Toml>) -> bool {
    &&& filters.len() == tables.len()
    &&& forall|i: int|
        0 <= i < filters.len() ==> (keys_in(#[trigger] tables[i]) is Some && reads_filter(
            filters[i],
            keys_in(tables[i])->Some_0,
        ))
}

/// Whether a filter has been read as what its table says.
pub open spec fn reads_filter(filter: FilterSchemaModel, keys: Map<Seq<char>, Toml>) -> bool {
    &&& reads_key(string(Some(filter.pattern)), keys, "pattern"@)
    &&& reads_key(string(filter.name), keys, "name"@)
    &&& reads_key(sense_text(filter.sense), keys, "sense"@)
    &&& reads_key(string(filter.colour), keys, "colour"@)
}

/// Whether a file has been read as what its keys say: a table for each key of
/// `sets`, and each once.
pub open spec fn reads_file(
    file: Seq<(Seq<char>, SetSchemaModel)>,
    keys: Map<Seq<char>, Toml>,
) -> bool {
    &&& filtersets::named_once(file)
    &&& if keys.contains_key(SETS_KEY@) {
        &&& keys_in(keys[SETS_KEY@]) is Some
        &&& reads_sets(file, keys_in(keys[SETS_KEY@])->Some_0)
    } else {
        file.len() == 0
    }
}

/// Whether tables have been read as what their keys say.
pub open spec fn reads_sets(
    file: Seq<(Seq<char>, SetSchemaModel)>,
    sets: Map<Seq<char>, Toml>,
) -> bool {
    &&& forall|i: int|
        0 <= i < file.len() ==> {
            &&& sets.contains_key((#[trigger] file[i]).0)
            &&& reads_table(file[i].1, sets[file[i].0])
        }
    &&& forall|name: Seq<char>| #[trigger] sets.contains_key(name) ==> has_table(file, name)
}

/// Whether one of the tables has a name.
pub open spec fn has_table(file: Seq<(Seq<char>, SetSchemaModel)>, name: Seq<char>) -> bool {
    exists|i: int| 0 <= i < file.len() && (#[trigger] file[i]).0 == name
}

/// A set that can be loaded again: it has a name that is not the built-in
/// set's, at least one filter, no pattern twice and none that is refused, and
/// the filters that are on are among its own.
pub open spec fn can_be_loaded(set: SetToSave) -> bool {
    let patterns = Seq::new(set.filters@.len(), |i: int| set.filters@[i].0@);
    &&& set.name@.len() > 0
    &&& set.name@ != DEFINITIONS_SET@
    &&& set.filters@.len() > 0
    &&& patterns.no_duplicates()
    &&& forall|i: int| 0 <= i < patterns.len() ==> pattern::refusal(#[trigger] patterns[i]) is None
    &&& forall|i: int|
        0 <= i < set.default@.len() ==> patterns.contains((#[trigger] set.default@[i])@)
}

/// The set that a saved one is when it is loaded.
pub open spec fn reloaded(set: SetToSave, path: Seq<char>) -> LoadedModel {
    LoadedModel {
        name: set.name@,
        path,
        priority: DEFAULT_PRIORITY,
        autoload: false,
        listed: true,
        description: None,
        profiles: if set.default@.len() == 0 {
            Map::empty()
        } else {
            Map::empty().insert("default"@, text::texts(set.default@))
        },
        filters: Seq::new(
            set.filters@.len(),
            |i: int|
                LoadedFilterModel {
                    name: set.filters@[i].0@,
                    predicate: PredicateModel::Regex(set.filters@[i].0@),
                    sense: set.filters@[i].1,
                    colour: None,
                },
        ),
        builtin: false,
    }
}

/// What is saved is what is loaded: a table that is read as what a saved set
/// says is refused for nothing, and is loaded with the filters, senses and
/// default profile that were saved.
pub proof fn what_is_saved_is_loaded(set: SetToSave, schema: SetSchemaModel, path: Seq<char>)
    requires
        can_be_loaded(set),
        reads_table(schema, filtersets::saved_set(set)),
    ensures
        filtersets::table_complaint(set.name@, schema) is None,
        filtersets::loaded_set(set.name@, schema, path) == reloaded(set, path),
{
    the_words_differ();
    let keys = filtersets::saved_set(set)->Table_0;
    let patterns = Seq::new(set.filters@.len(), |i: int| set.filters@[i].0@);
    let tables = filtersets::saved_filters(set.filters@);
    assert(keys["filters"@] == Toml::Tables(tables));
    let filters = schema.filters;
    assert forall|i: int| 0 <= i < filters.len() implies {
        &&& (#[trigger] filters[i]).pattern == patterns[i]
        &&& filters[i].name is None
        &&& filters[i].colour is None
        &&& filters[i].sense == if set.filters@[i].1 == Sense::Include {
            None
        } else {
            Some(set.filters@[i].1)
        }
    } by {
        assert(tables[i] == filtersets::saved_filter(set.filters@[i].0@, set.filters@[i].1));
        assert(reads_filter(filters[i], keys_in(tables[i])->Some_0));
    }
    assert forall|i: int| 0 <= i < filters.len() implies filtersets::complaint_at(
        filters,
        i,
    ) is None by {
        let taken = filtersets::names_before(filters, i);
        assert(pattern::refusal(patterns[i]) is None);
        assert(filters[i].pattern == patterns[i]);
        if taken.contains(filtersets::display(filters[i])) {
            let j = choose|j: int|
                0 <= j < taken.len() && taken[j] == filtersets::display(filters[i]);
            assert(filters[j].pattern == patterns[j]);
            assert(patterns[i] == patterns[j]);
        }
    }
    model::first_index_is(
        |j: int| filtersets::complaint_at(filters, j) is Some,
        0,
        filters.len() as int,
        filters.len() as int,
    );
    assert(filtersets::first_bad_filter(filters) == filters.len());
    let known = filtersets::names_before(filters, filters.len() as int);
    assert(known =~= patterns) by {
        assert forall|i: int| 0 <= i < patterns.len() implies known[i] == patterns[i] by {
            assert(filters[i].pattern == patterns[i]);
        }
    }
    saved_profiles(set, schema.profiles, patterns);
    let loaded = filtersets::loaded_set(set.name@, schema, path);
    assert(loaded.filters =~= reloaded(set, path).filters) by {
        assert forall|i: int| 0 <= i < filters.len() implies loaded.filters[i] == reloaded(
            set,
            path,
        ).filters[i] by {
            assert(filters[i].pattern == patterns[i]);
        }
    }
    assert(loaded.profiles =~= reloaded(set, path).profiles);
}

/// Arrays of the same strings hold the same strings.
proof fn text_arrays_are_their_texts(left: Seq<Seq<char>>, right: Seq<Seq<char>>)
    requires
        filtersets::text_array(left) == filtersets::text_array(right),
    ensures
        left == right,
{
    let a = filtersets::text_array(left)->Array_0;
    let b = filtersets::text_array(right)->Array_0;
    assert(a == b);
    assert(left.len() == a.len() && right.len() == b.len());
    assert forall|i: int| 0 <= i < left.len() implies left[i] == right[i] by {
        assert(a[i] == Toml::Text(left[i]));
        assert(b[i] == Toml::Text(right[i]));
    }
    assert(left =~= right);
}

/// The profiles of a saved set: none, or the default one with the filters that
/// are on.
proof fn saved_profiles(
    set: SetToSave,
    profiles: Seq<(Seq<char>, Seq<Seq<char>>)>,
    known: Seq<Seq<char>>,
)
    requires
        forall|i: int| 0 <= i < set.default@.len() ==> known.contains((#[trigger] set.default@[i])@),
        if set.default@.len() == 0 {
            profiles.len() == 0
        } else {
            reads_profiles(
                profiles,
                document_text::no_keys().insert(
                    "default"@,
                    filtersets::text_array(text::texts(set.default@)),
                ),
            )
        },
    ensures
        filtersets::profiles_complaint(profiles, 0, known, ""@) is None,
        filtersets::profile_map(profiles) == if set.default@.len() == 0 {
            Map::empty()
        } else {
            Map::empty().insert("default"@, text::texts(set.default@))
        },
{
    profiles_are_known(profiles, 0, known, ""@);
    if set.default@.len() > 0 {
        let members = text::texts(set.default@);
        let keys = document_text::no_keys().insert("default"@, filtersets::text_array(members));
        let expected = Map::empty().insert("default"@, members);
        assert forall|p: int| 0 <= p < profiles.len() implies (#[trigger] profiles[p]).0
            == "default"@ && profiles[p].1 == members by {
            assert(keys.contains_key(profiles[p].0));
            text_arrays_are_their_texts(profiles[p].1, members);
        }
        assert(keys.contains_key("default"@));
        assert(has_profile(profiles, "default"@));
        profiles_by_name(profiles);
        let i = choose|i: int| 0 <= i < profiles.len() && (#[trigger] profiles[i]).0 == "default"@;
        assert(filtersets::profile_map(profiles).contains_key(profiles[i].0));
        assert forall|p: int| 0 <= p < profiles.len() implies all_known(
            (#[trigger] profiles[p]).1,
            known,
        ) by {
            assert forall|k: int| 0 <= k < members.len() implies known.contains(
                #[trigger] members[k],
            ) by {
                assert(members[k] == set.default@[k]@);
            }
        }
        assert forall|name: Seq<char>| filtersets::profile_map(profiles).contains_key(name)
            <==> expected.contains_key(name) by {
            if filtersets::profile_map(profiles).contains_key(name) {
                let p = choose|p: int| 0 <= p < profiles.len() && (#[trigger] profiles[p]).0 == name;
                assert(profiles[p].0 == "default"@);
            }
        }
        assert(filtersets::profile_map(profiles) =~= expected);
    } else {
        assert(filtersets::profile_map(profiles) =~= Map::empty());
    }
}

/// A table has one meaning: read twice, it is refused both times or loaded as
/// the same set.
pub proof fn a_table_has_one_meaning(
    name: Seq<char>,
    value: Toml,
    one: SetSchemaModel,
    other: SetSchemaModel,
    path: Seq<char>,
)
    requires
        reads_table(one, value),
        reads_table(other, value),
    ensures
        filtersets::table_complaint(name, one) is None == filtersets::table_complaint(
            name,
            other,
        ) is None,
        filtersets::loaded_set(name, one, path) == filtersets::loaded_set(name, other, path),
{
    let keys = keys_in(value)->Some_0;
    assert(number(one.priority) == number(other.priority));
    assert(flag(one.autoload) == flag(other.autoload));
    assert(flag(one.listed) == flag(other.listed));
    assert(string(one.description) == string(other.description));
    assert(string(one.mode) == string(other.mode));
    assert(one.filters =~= other.filters) by {
        if keys.contains_key("filters"@) {
            let tables = values_in(keys["filters"@])->Some_0;
            assert forall|i: int| 0 <= i < one.filters.len() implies one.filters[i]
                == other.filters[i] by {
                the_words_differ();
                let (a, b) = (one.filters[i], other.filters[i]);
                assert(keys_in(tables[i]) is Some);
                assert(string(Some(a.pattern)) == string(Some(b.pattern)));
                assert(string(a.name) == string(b.name));
                assert(sense_text(a.sense) == sense_text(b.sense));
                assert(string(a.colour) == string(b.colour));
                assert(a =~= b);
            }
        }
    }
    let names = filtersets::names_before(one.filters, one.filters.len() as int);
    let nouns = filtersets::kind_nouns(KIND_COUNT as int);
    let ending = "; the built-in filters are "@ + filtersets::kind_list(KIND_COUNT as int);
    same_profiles(one.profiles, other.profiles, keys);
    profiles_are_known(one.profiles, 0, names, ""@);
    profiles_are_known(other.profiles, 0, names, ""@);
    profiles_are_known(one.profiles, 0, nouns, ending);
    profiles_are_known(other.profiles, 0, nouns, ending);
    assert(known_in_all(one.profiles, names) == known_in_all(other.profiles, names)) by {
        same_members(one.profiles, other.profiles, keys, names);
        same_members(other.profiles, one.profiles, keys, names);
    }
    assert(known_in_all(one.profiles, nouns) == known_in_all(other.profiles, nouns)) by {
        same_members(one.profiles, other.profiles, keys, nouns);
        same_members(other.profiles, one.profiles, keys, nouns);
    }
}

/// Whether every member of every profile is known.
spec fn known_in_all(
    profiles: Seq<(Seq<char>, Seq<Seq<char>>)>,
    known: Seq<Seq<char>>,
) -> bool {
    forall|p: int| 0 <= p < profiles.len() ==> all_known((#[trigger] profiles[p]).1, known)
}

/// Whether profiles have been read as what a table's keys say of them.
spec fn reads_profiles_in(
    profiles: Seq<(Seq<char>, Seq<Seq<char>>)>,
    keys: Map<Seq<char>, Toml>,
) -> bool {
    if keys.contains_key("profiles"@) {
        &&& keys_in(keys["profiles"@]) is Some
        &&& reads_profiles(profiles, keys_in(keys["profiles"@])->Some_0)
    } else {
        profiles.len() == 0
    }
}

proof fn same_members(
    one: Seq<(Seq<char>, Seq<Seq<char>>)>,
    other: Seq<(Seq<char>, Seq<Seq<char>>)>,
    keys: Map<Seq<char>, Toml>,
    known: Seq<Seq<char>>,
)
    requires
        reads_profiles_in(one, keys),
        reads_profiles_in(other, keys),
    ensures
        known_in_all(one, known) ==> known_in_all(other, known),
{
    if known_in_all(one, known) && keys.contains_key("profiles"@) {
        let inner = keys_in(keys["profiles"@])->Some_0;
        assert forall|p: int| 0 <= p < other.len() implies all_known(
            (#[trigger] other[p]).1,
            known,
        ) by {
            assert(inner.contains_key(other[p].0));
            assert(has_profile(one, other[p].0));
            let q = choose|q: int| 0 <= q < one.len() && (#[trigger] one[q]).0 == other[p].0;
            text_arrays_are_their_texts(one[q].1, other[p].1);
            assert(all_known(one[q].1, known));
        }
    }
}

proof fn same_profiles(
    one: Seq<(Seq<char>, Seq<Seq<char>>)>,
    other: Seq<(Seq<char>, Seq<Seq<char>>)>,
    keys: Map<Seq<char>, Toml>,
)
    requires
        reads_profiles_in(one, keys),
        reads_profiles_in(other, keys),
    ensures
        filtersets::profile_map(one) == filtersets::profile_map(other),
{
    if keys.contains_key("profiles"@) {
        profiles_by_name(one);
        profiles_by_name(other);
        profile_maps_agree(one, other, keys);
        profile_maps_agree(other, one, keys);
        let (a, b) = (filtersets::profile_map(one), filtersets::profile_map(other));
        assert forall|name: Seq<char>| a.contains_key(name) <==> b.contains_key(name) by {}
        assert(a =~= b);
    } else {
        assert(one =~= other);
    }
}

proof fn profile_maps_agree(
    one: Seq<(Seq<char>, Seq<Seq<char>>)>,
    other: Seq<(Seq<char>, Seq<Seq<char>>)>,
    keys: Map<Seq<char>, Toml>,
)
    requires
        reads_profiles_in(one, keys),
        reads_profiles_in(other, keys),
        keys.contains_key("profiles"@),
    ensures
        forall|name: Seq<char>| #[trigger]
            filtersets::profile_map(one).contains_key(name) ==> {
                &&& filtersets::profile_map(other).contains_key(name)
                &&& filtersets::profile_map(other)[name] == filtersets::profile_map(one)[name]
            },
{
    profiles_by_name(one);
    profiles_by_name(other);
    let inner = keys_in(keys["profiles"@])->Some_0;
    assert forall|name: Seq<char>| #[trigger]
        filtersets::profile_map(one).contains_key(name) implies {
        &&& filtersets::profile_map(other).contains_key(name)
        &&& filtersets::profile_map(other)[name] == filtersets::profile_map(one)[name]
    } by {
        let p = choose|p: int| 0 <= p < one.len() && (#[trigger] one[p]).0 == name;
        assert(inner.contains_key(one[p].0));
        assert(has_profile(other, name));
        let q = choose|q: int| 0 <= q < other.len() && (#[trigger] other[q]).0 == name;
        assert(filtersets::profile_map(other).contains_key(other[q].0));
        text_arrays_are_their_texts(one[p].1, other[q].1);
    }
}

/// Saving a set changes nothing else that is loaded: where a file can be used
/// before a set is appended to it, it can be used after, and gives the sets
/// that it gave before, each as it was, and the one that was saved.
pub proof fn saving_adds_one_set(
    keys: Map<Seq<char>, Toml>,
    set: SetToSave,
    before: Seq<(Seq<char>, SetSchemaModel)>,
    after: Seq<(Seq<char>, SetSchemaModel)>,
    path: Seq<char>,
)
    requires
        can_be_loaded(set),
        filtersets::with_set_appended(keys, set) is Ok,
        reads_file(before, keys),
        reads_file(after, filtersets::with_set_appended(keys, set)->Ok_0),
        filtersets::file_sets(before, path) is Ok,
    ensures
        filtersets::file_sets(after, path) is Ok,
        filtersets::names_differ(filtersets::file_sets(after, path)->Ok_0),
        forall|loaded: LoadedModel| #[trigger]
            filtersets::file_sets(after, path)->Ok_0.contains(loaded)
                <==> filtersets::file_sets(before, path)->Ok_0.contains(loaded) || loaded
                == reloaded(set, path),
{
    let old = if keys.contains_key(SETS_KEY@) {
        keys[SETS_KEY@]->Table_0
    } else {
        document_text::no_keys()
    };
    let new = old.insert(set.name@, filtersets::saved_set(set));
    let grown = filtersets::with_set_appended(keys, set)->Ok_0;
    assert(grown[SETS_KEY@] == Toml::Table(new));
    assert(reads_sets(after, new));
    assert(reads_sets(before, old));
    a_file_is_its_tables(before, path);
    a_file_is_its_tables(after, path);
    assert forall|i: int| 0 <= i < after.len() implies filtersets::table_complaint(
        (#[trigger] after[i]).0,
        after[i].1,
    ) is None by {
        let name = after[i].0;
        assert(new.contains_key(name));
        if name == set.name@ {
            what_is_saved_is_loaded(set, after[i].1, path);
        } else {
            assert(old.contains_key(name));
            assert(has_table(before, name));
            let j = choose|j: int| 0 <= j < before.len() && (#[trigger] before[j]).0 == name;
            assert(filtersets::table_complaint(before[j].0, before[j].1) is None);
            a_table_has_one_meaning(name, old[name], before[j].1, after[i].1, path);
        }
    }
    let was = filtersets::file_sets(before, path)->Ok_0;
    let is_now = filtersets::file_sets(after, path)->Ok_0;
    assert forall|loaded: LoadedModel| #[trigger] is_now.contains(loaded) implies was.contains(loaded)
        || loaded == reloaded(set, path) by {
        let i = choose|i: int| 0 <= i < is_now.len() && is_now[i] == loaded;
        let name = after[i].0;
        assert(new.contains_key(name));
        if name == set.name@ {
            what_is_saved_is_loaded(set, after[i].1, path);
        } else {
            assert(old.contains_key(name));
            assert(has_table(before, name));
            let j = choose|j: int| 0 <= j < before.len() && (#[trigger] before[j]).0 == name;
            a_table_has_one_meaning(name, old[name], before[j].1, after[i].1, path);
            assert(was[j] == loaded);
        }
    }
    assert forall|loaded: LoadedModel| was.contains(loaded) || loaded == reloaded(
        set,
        path,
    ) implies #[trigger] is_now.contains(loaded) by {
        if loaded == reloaded(set, path) {
            assert(new.contains_key(set.name@));
            assert(has_table(after, set.name@));
            let i = choose|i: int| 0 <= i < after.len() && (#[trigger] after[i]).0 == set.name@;
            what_is_saved_is_loaded(set, after[i].1, path);
            assert(is_now[i] == loaded);
        } else {
            let j = choose|j: int| 0 <= j < was.len() && was[j] == loaded;
            let name = before[j].0;
            assert(old.contains_key(name));
            assert(!old.contains_key(set.name@));
            assert(new.contains_key(name));
            assert(has_table(after, name));
            let i = choose|i: int| 0 <= i < after.len() && (#[trigger] after[i]).0 == name;
            a_table_has_one_meaning(name, old[name], before[j].1, after[i].1, path);
            assert(is_now[i] == loaded);
        }
    }
}

/// The keys of a set's table are different words.
proof fn the_words_differ()
    ensures
        "pattern"@ != "sense"@,
        "pattern"@ != "name"@,
        "pattern"@ != "colour"@,
        "sense"@ != "name"@,
        "sense"@ != "colour"@,
        "profiles"@ != "filters"@,
        "profiles"@ != "priority"@,
        "profiles"@ != "autoload"@,
        "profiles"@ != "listed"@,
        "profiles"@ != "description"@,
        "profiles"@ != "mode"@,
        "filters"@ != "priority"@,
        "filters"@ != "autoload"@,
        "filters"@ != "listed"@,
        "filters"@ != "description"@,
        "filters"@ != "mode"@,
        "context"@ != "include"@,
        "context"@ != "exclude"@,
        "include"@ != "exclude"@,
{
    reveal_strlit("pattern");
    reveal_strlit("sense");
    reveal_strlit("name");
    reveal_strlit("colour");
    reveal_strlit("profiles");
    reveal_strlit("filters");
    reveal_strlit("priority");
    reveal_strlit("autoload");
    reveal_strlit("listed");
    reveal_strlit("description");
    reveal_strlit("mode");
    reveal_strlit("context");
    reveal_strlit("include");
    reveal_strlit("exclude");
    assert("pattern"@.len() == 7);
    assert("sense"@.len() == 5);
    assert("name"@.len() == 4);
    assert("colour"@.len() == 6);
    assert("profiles"@.len() == 8);
    assert("filters"@.len() == 7);
    assert("listed"@.len() == 6);
    assert("description"@.len() == 11);
    assert("mode"@.len() == 4);
    assert("profiles"@[2] != "priority"@[2]);
    assert("profiles"@[0] != "autoload"@[0]);
    assert("filters"@.len() != "priority"@.len());
    assert("filters"@.len() != "autoload"@.len());
    assert("context"@[0] != "include"@[0]);
    assert("context"@[0] != "exclude"@[0]);
    assert("include"@[0] != "exclude"@[0]);
}

} // verus!
