//! The build-time pass: from what a walk of the asset directory found to the
//! fingerprint table, with one rebuild declaration for each path visited.

use crate::digest::{fingerprint, fingerprint_text};
use crate::failure::IoFailure;
use crate::paths::{is_relative_path, join, joined, lemma_joined_tells_paths_apart};
use crate::codegen::distinct_keys;
use crate::table::{entered, lemma_entered_table, lemma_table_of_len, table_of, FingerprintMap};
use crate::text::texts;
use vstd::prelude::*;
use vstd::string::StringExecFns;

verus! {

/// Why a generation run was given up.
#[derive(Debug, PartialEq, Eq)]
pub enum Error {
    /// The walk of the directory failed.
    WalkDir { message: String },
    /// A file could not be read.
    Io { failure: IoFailure },
    /// A path is not valid text; `path` is what can be shown of it.
    Unprintable { path: String },
}

/// What kind of thing a walk found at a path.
#[derive(Debug, PartialEq, Eq)]
pub enum EntryKind {
    /// A regular file, with the digest of its contents or the reason why it
    /// could not be read.
    File { digest: Result<u64, IoFailure> },
    /// A directory or a special file.
    Other,
}

/// One thing that a walk found.
#[derive(Debug, PartialEq, Eq)]
pub struct DirEntry {
    /// The path as text, or, where it is not valid text, what can be shown
    /// of it.
    pub path: Result<String, String>,
    /// The components of the path below the asset directory.
    pub relative: Vec<String>,
    /// What was found there.
    pub kind: EntryKind,
}

/// What a generation run produced.
pub struct Generated {
    /// The fingerprint of every file, under its relative path.
    pub files: FingerprintMap,
    /// One declaration for each path visited, in the order of the walk.
    pub declarations: Vec<String>,
}

/// The line that tells the build system to run again when a path changes.
pub open spec fn declaration_of(path: Seq<char>) -> Seq<char> {
    "cargo:rerun-if-changed="@ + path
}

/// The failure that a step of the walk brings, if it brings one: the walk's
/// own, a path that is not text, or a file that could not be read.
pub open spec fn failure_of(step: Result<DirEntry, String>) -> Option<Error> {
    match step {
        Err(message) => Some(Error::WalkDir { message }),
        Ok(entry) => match entry.path {
            Err(shown) => Some(Error::Unprintable { path: shown }),
            Ok(_) => match entry.kind {
                EntryKind::File { digest: Err(failure) } => Some(Error::Io { failure }),
                _ => None,
            },
        },
    }
}

/// Whether a step found a regular file and its digest.
pub open spec fn is_hashed(step: Result<DirEntry, String>) -> bool {
    step matches Ok(entry) && entry.kind matches EntryKind::File { digest: Ok(_) }
}

/// The key under which a file is entered: its relative path with forward
/// slashes.
pub open spec fn key_of(step: Result<DirEntry, String>) -> Seq<char> {
    joined(relative_of(step))
}

/// The fingerprint with which a file is entered.
pub open spec fn value_of(step: Result<DirEntry, String>) -> Seq<char> {
    fingerprint_text(step->Ok_0.kind->digest->Ok_0)
}

/// The entries after a walk, in order: every file entered in the order of
/// the walk, a later file in the place of an earlier one with the same key.
pub open spec fn listing(walk: Seq<Result<DirEntry, String>>) -> Seq<(Seq<char>, Seq<char>)>
    decreases walk.len(),
{
    if walk.len() == 0 {
        Seq::empty()
    } else if is_hashed(walk.last()) {
        entered(listing(walk.drop_last()), key_of(walk.last()), value_of(walk.last()))
    } else {
        listing(walk.drop_last())
    }
}

/// The table after a walk, as a map: every file entered in the order of
/// the walk, a later file in place of an earlier one with the same key.
pub open spec fn mapping(walk: Seq<Result<DirEntry, String>>) -> Map<Seq<char>, Seq<char>>
    decreases walk.len(),
{
    if walk.len() == 0 {
        Map::empty()
    } else if is_hashed(walk.last()) {
        mapping(walk.drop_last()).insert(key_of(walk.last()), value_of(walk.last()))
    } else {
        mapping(walk.drop_last())
    }
}

/// The path of a step, as text.
pub open spec fn path_of(step: Result<DirEntry, String>) -> Seq<char> {
    step->Ok_0.path->Ok_0@
}

/// The declarations after a walk: one for each step, in order.
pub open spec fn declarations_of(walk: Seq<Result<DirEntry, String>>) -> Seq<Seq<char>> {
    walk.map_values(|step: Result<DirEntry, String>| declaration_of(path_of(step)))
}

/// The rebuild declaration for a path, or the error for a path that is not
/// text.
pub fn rerun(path: &Result<String, String>) -> (declared: Result<String, Error>)
    ensures
        match *path {
            Ok(text) => declared matches Ok(line) && line@ == declaration_of(text@),
            Err(shown) => declared == Err::<String, Error>(Error::Unprintable { path: shown }),
        },
{
    match path {
        Ok(text) => {
            let mut line = String::from_str("cargo:rerun-if-changed=");
            line.append(text.as_str());
            Ok(line)
        },
        Err(shown) => Err(Error::Unprintable { path: shown.clone() }),
    }
}

/// Whether a step of the walk brings a failure. A run is given up at the
/// first step that does.
pub fn fails(step: &Result<DirEntry, String>) -> (failed: bool)
    ensures
        failed == failure_of(*step) is Some,
{
    match step {
        Err(_) => true,
        Ok(entry) => match &entry.path {
            Err(_) => true,
            Ok(_) => match &entry.kind {
                EntryKind::File { digest: Err(_) } => true,
                _ => false,
            },
        },
    }
}

/// Builds the fingerprint table from what a walk found. The first step that
/// brings a failure ends the run with that failure, and no table.
pub fn generate(walk: &Vec<Result<DirEntry, String>>) -> (outcome: Result<Generated, Error>)
    ensures
        match outcome {
            Ok(generated) => {
                &&& forall|i: int| 0 <= i < walk.len() ==> failure_of(#[trigger] walk@[i]) is None
                &&& generated.files@ == listing(walk@)
                &&& table_of(generated.files@) == mapping(walk@)
                &&& texts(generated.declarations@) == declarations_of(walk@)
            },
            Err(error) => exists|i: int|
                {
                    &&& 0 <= i < walk.len()
                    &&& failure_of(#[trigger] walk@[i]) == Some(error)
                    &&& forall|j: int| 0 <= j < i ==> failure_of(#[trigger] walk@[j]) is None
                },
        },
{
    let mut files = FingerprintMap::new();
    let mut declarations: Vec<String> = Vec::new();
    let mut at: usize = 0;
    while at < walk.len()
        invariant
            at <= walk.len(),
            forall|j: int| 0 <= j < at ==> failure_of(#[trigger] walk@[j]) is None,
            files@ == listing(walk@.take(at as int)),
            declarations.len() == at,
            texts(declarations@) == declarations_of(walk@.take(at as int)),
        decreases walk.len() - at,
    {
        let ghost done = walk@.take(at as int);
        let ghost next = walk@.take(at + 1);
        assert(next.drop_last() =~= done);
        assert(next.last() == walk@[at as int]);
        match &walk[at] {
            Err(message) => {
                return Err(Error::WalkDir { message: message.clone() });
            },
            Ok(entry) => {
                let ghost before = declarations@;
                match rerun(&entry.path) {
                    Err(error) => {
                        return Err(error);
                    },
                    Ok(line) => {
                        declarations.push(line);
                    },
                }
                assert forall|j: int| 0 <= j < next.len() implies texts(declarations@)[j]
                    == declarations_of(next)[j] by {
                    if j < at {
                        assert(texts(before)[j] == declarations_of(done)[j]);
                        assert(done[j] == next[j]);
                        assert(declarations@[j] == before[j]);
                    }
                }
                assert(texts(declarations@) =~= declarations_of(next));
                match &entry.kind {
                    EntryKind::Other => {},
                    EntryKind::File { digest } => match digest {
                        Err(failure) => {
                            return Err(Error::Io { failure: *failure });
                        },
                        Ok(digest) => {
                            files = files.insert(join(&entry.relative), fingerprint(*digest));
                        },
                    },
                }
            },
        }
        at = at + 1;
    }
    assert(walk@.take(at as int) =~= walk@);
    proof {
        lemma_listing_is_mapping(walk@);
    }
    Ok(Generated { files, declarations })
}

/// Whether no two files of a walk have the same key. A walk visits every
/// path once, so this holds of what it finds.
pub open spec fn distinct_files(walk: Seq<Result<DirEntry, String>>) -> bool {
    forall|i: int, j: int|
        0 <= i < j < walk.len() && is_hashed(#[trigger] walk[i]) && is_hashed(#[trigger] walk[j])
            ==> key_of(walk[i]) != key_of(walk[j])
}

/// The components of the path of a step below the asset directory.
pub open spec fn relative_of(step: Result<DirEntry, String>) -> Seq<Seq<char>> {
    texts(step->Ok_0.relative@)
}

/// Whether a walk came to every path once, as a walk of a directory tree
/// does: whatever it found has a relative path, and no two things the same.
pub open spec fn visits_once(walk: Seq<Result<DirEntry, String>>) -> bool {
    &&& forall|i: int|
        0 <= i < walk.len() && (#[trigger] walk[i]) is Ok ==> is_relative_path(
            relative_of(walk[i]),
        )
    &&& forall|i: int, j: int|
        0 <= i < j < walk.len() && (#[trigger] walk[i]) is Ok && (#[trigger] walk[j]) is Ok
            ==> relative_of(walk[i]) != relative_of(walk[j])
}

/// The files of a walk that came to every path once have keys of their own.
pub proof fn lemma_files_visited_once_are_distinct(walk: Seq<Result<DirEntry, String>>)
    requires
        visits_once(walk),
    ensures
        distinct_files(walk),
{
    assert forall|i: int, j: int|
        0 <= i < j < walk.len() && is_hashed(#[trigger] walk[i]) && is_hashed(
            #[trigger] walk[j],
        ) implies key_of(walk[i]) != key_of(walk[j]) by {
        if key_of(walk[i]) == key_of(walk[j]) {
            lemma_joined_tells_paths_apart(relative_of(walk[i]), relative_of(walk[j]));
        }
    }
}

/// The number of files among the steps of a walk.
pub open spec fn count_files(walk: Seq<Result<DirEntry, String>>) -> nat
    decreases walk.len(),
{
    if walk.len() == 0 {
        0
    } else if is_hashed(walk.last()) {
        count_files(walk.drop_last()) + 1
    } else {
        count_files(walk.drop_last())
    }
}

/// The table has an entry under a key exactly if the walk found a file with
/// that key: directories and special files bring no entries.
pub proof fn lemma_entries_are_the_files(walk: Seq<Result<DirEntry, String>>, key: Seq<char>)
    ensures
        mapping(walk).contains_key(key) <==> exists|i: int|
            0 <= i < walk.len() && is_hashed(#[trigger] walk[i]) && key_of(walk[i]) == key,
    decreases walk.len(),
{
    if walk.len() > 0 {
        let rest = walk.drop_last();
        lemma_entries_are_the_files(rest, key);
        if mapping(walk).contains_key(key) {
            if is_hashed(walk.last()) && key_of(walk.last()) == key {
                assert(is_hashed(walk[walk.len() - 1]));
            } else {
                let i = choose|i: int|
                    0 <= i < rest.len() && is_hashed(#[trigger] rest[i]) && key_of(rest[i]) == key;
                assert(walk[i] == rest[i]);
            }
        }
        if exists|i: int|
            0 <= i < walk.len() && is_hashed(#[trigger] walk[i]) && key_of(walk[i]) == key {
            let i = choose|i: int|
                0 <= i < walk.len() && is_hashed(#[trigger] walk[i]) && key_of(walk[i]) == key;
            if i < walk.len() - 1 {
                assert(rest[i] == walk[i]);
            }
        }
    }
}

/// The entry of a file holds the fingerprint of that file, as long as no
/// later step of the walk found a file with the same key.
pub proof fn lemma_entry_holds_fingerprint(walk: Seq<Result<DirEntry, String>>, at: int)
    requires
        0 <= at < walk.len(),
        is_hashed(walk[at]),
        forall|j: int|
            at < j < walk.len() && is_hashed(#[trigger] walk[j]) ==> key_of(walk[j]) != key_of(
                walk[at],
            ),
    ensures
        mapping(walk).contains_key(key_of(walk[at])),
        mapping(walk)[key_of(walk[at])] == value_of(walk[at]),
    decreases walk.len(),
{
    if at < walk.len() - 1 {
        let rest = walk.drop_last();
        assert(rest[at] == walk[at]);
        assert forall|j: int| at < j < rest.len() && is_hashed(#[trigger] rest[j]) implies key_of(
            rest[j],
        ) != key_of(rest[at]) by {
            assert(rest[j] == walk[j]);
        }
        lemma_entry_holds_fingerprint(rest, at);
        assert(is_hashed(walk[walk.len() - 1]) ==> key_of(walk[walk.len() - 1]) != key_of(walk[at]));
    }
}

/// Where no two files share a key, the table has exactly one entry for each
/// file.
pub proof fn lemma_one_entry_per_file(walk: Seq<Result<DirEntry, String>>)
    requires
        distinct_files(walk),
    ensures
        mapping(walk).dom().finite(),
        mapping(walk).len() == count_files(walk),
    decreases walk.len(),
{
    if walk.len() > 0 {
        let rest = walk.drop_last();
        assert forall|i: int, j: int|
            0 <= i < j < rest.len() && is_hashed(#[trigger] rest[i]) && is_hashed(
                #[trigger] rest[j],
            ) implies key_of(rest[i]) != key_of(rest[j]) by {
            assert(rest[i] == walk[i] && rest[j] == walk[j]);
        }
        lemma_one_entry_per_file(rest);
        if is_hashed(walk.last()) {
            let key = key_of(walk.last());
            assert(!mapping(rest).contains_key(key)) by {
                lemma_entries_are_the_files(rest, key);
                if mapping(rest).contains_key(key) {
                    let i = choose|i: int|
                        0 <= i < rest.len() && is_hashed(#[trigger] rest[i]) && key_of(rest[i])
                            == key;
                    assert(rest[i] == walk[i]);
                    assert(is_hashed(walk[walk.len() - 1]));
                }
            }
        }
    }
}

/// The entries after a walk name no path twice, and stand for the table
/// of the walk.
pub proof fn lemma_listing_is_mapping(walk: Seq<Result<DirEntry, String>>)
    ensures
        distinct_keys(listing(walk)),
        table_of(listing(walk)) == mapping(walk),
    decreases walk.len(),
{
    if walk.len() > 0 {
        lemma_listing_is_mapping(walk.drop_last());
        if is_hashed(walk.last()) {
            lemma_entered_table(
                listing(walk.drop_last()),
                key_of(walk.last()),
                value_of(walk.last()),
            );
        }
    }
}

/// After a walk that came to every path once, no directory and no special
/// file has an entry: the path of what is no file is no key of the table.
pub proof fn lemma_other_paths_are_no_keys(walk: Seq<Result<DirEntry, String>>, at: int)
    requires
        visits_once(walk),
        0 <= at < walk.len(),
        walk[at] is Ok,
        !is_hashed(walk[at]),
    ensures
        !mapping(walk).contains_key(joined(relative_of(walk[at]))),
{
    let key = joined(relative_of(walk[at]));
    lemma_entries_are_the_files(walk, key);
    if mapping(walk).contains_key(key) {
        let i = choose|i: int|
            0 <= i < walk.len() && is_hashed(#[trigger] walk[i]) && key_of(walk[i]) == key;
        lemma_joined_tells_paths_apart(relative_of(walk[i]), relative_of(walk[at]));
    }
}

/// After a walk that came to every path once, the table has exactly one
/// entry for each file: under the file's relative path, written with forward
/// slashes, stands the fingerprint of the file. Nothing else has an entry.
pub proof fn lemma_table_has_the_files(walk: Seq<Result<DirEntry, String>>)
    requires
        visits_once(walk),
    ensures
        mapping(walk).dom().finite(),
        mapping(walk).len() == count_files(walk),
        listing(walk).len() == count_files(walk),
        forall|i: int|
            0 <= i < walk.len() && is_hashed(#[trigger] walk[i]) ==> mapping(walk).contains_key(
                joined(relative_of(walk[i])),
            ) && mapping(walk)[joined(relative_of(walk[i]))] == value_of(walk[i]),
        forall|key: Seq<char>| #[trigger]
            mapping(walk).contains_key(key) ==> exists|i: int|
                0 <= i < walk.len() && is_hashed(#[trigger] walk[i]) && joined(
                    relative_of(walk[i]),
                ) == key,
{
    lemma_files_visited_once_are_distinct(walk);
    lemma_one_entry_per_file(walk);
    lemma_listing_is_mapping(walk);
    lemma_table_of_len(listing(walk));
    assert forall|i: int| 0 <= i < walk.len() && is_hashed(#[trigger] walk[i]) implies mapping(
        walk,
    ).contains_key(joined(relative_of(walk[i]))) && mapping(walk)[joined(relative_of(walk[i]))]
        == value_of(walk[i]) by {
        lemma_entry_holds_fingerprint(walk, i);
    }
    assert forall|key: Seq<char>| #[trigger] mapping(walk).contains_key(key) implies exists|
        i: int,
    |
        0 <= i < walk.len() && is_hashed(#[trigger] walk[i]) && joined(relative_of(walk[i]))
            == key by {
        lemma_entries_are_the_files(walk, key);
        let i = choose|i: int|
            0 <= i < walk.len() && is_hashed(#[trigger] walk[i]) && key_of(walk[i]) == key;
        assert(joined(relative_of(walk[i])) == key);
    }
}

/// Two walks that found the same things in the same order give the same
/// table and the same declarations, also where a key occurs twice: a run
/// over an unchanged directory repeats the run before.
pub proof fn lemma_same_walk_same_result(
    first: Seq<Result<DirEntry, String>>,
    second: Seq<Result<DirEntry, String>>,
)
    requires
        first.len() == second.len(),
        forall|i: int|
            0 <= i < first.len() ==> is_hashed(#[trigger] first[i]) == is_hashed(second[i]),
        forall|i: int|
            0 <= i < first.len() && is_hashed(#[trigger] first[i]) ==> key_of(first[i]) == key_of(
                second[i],
            ) && value_of(first[i]) == value_of(second[i]),
        forall|i: int| 0 <= i < first.len() ==> path_of(#[trigger] first[i]) == path_of(second[i]),
    ensures
        listing(first) == listing(second),
        mapping(first) == mapping(second),
        declarations_of(first) == declarations_of(second),
    decreases first.len(),
{
    if first.len() > 0 {
        let last = first.len() - 1;
        assert(first.last() == first[last] && second.last() == second[last]);
        assert forall|i: int| 0 <= i < first.drop_last().len() implies is_hashed(
            #[trigger] first.drop_last()[i],
        ) == is_hashed(second.drop_last()[i]) && (is_hashed(first.drop_last()[i]) ==> key_of(
            first.drop_last()[i],
        ) == key_of(second.drop_last()[i]) && value_of(first.drop_last()[i]) == value_of(
            second.drop_last()[i],
        )) && path_of(first.drop_last()[i]) == path_of(second.drop_last()[i]) by {
            assert(first.drop_last()[i] == first[i]);
            assert(second.drop_last()[i] == second[i]);
        }
        lemma_same_walk_same_result(first.drop_last(), second.drop_last());
    }
    assert(declarations_of(first) =~= declarations_of(second));
}

/// Two walks that found the same files, in whatever order, give the same
/// table, as long as each came to every file once.
pub proof fn lemma_same_files_same_table(
    first: Seq<Result<DirEntry, String>>,
    second: Seq<Result<DirEntry, String>>,
)
    requires
        distinct_files(first),
        distinct_files(second),
        forall|i: int|
            0 <= i < first.len() && is_hashed(#[trigger] first[i]) ==> exists|j: int|
                0 <= j < second.len() && is_hashed(#[trigger] second[j]) && key_of(second[j])
                    == key_of(first[i]) && value_of(second[j]) == value_of(first[i]),
        forall|j: int|
            0 <= j < second.len() && is_hashed(#[trigger] second[j]) ==> exists|i: int|
                0 <= i < first.len() && is_hashed(#[trigger] first[i]) && key_of(first[i])
                    == key_of(second[j]) && value_of(first[i]) == value_of(second[j]),
    ensures
        mapping(first) == mapping(second),
{
    assert forall|key: Seq<char>| #[trigger]
        mapping(first).dom().contains(key) implies mapping(second).dom().contains(key) && mapping(
        second,
    )[key] == mapping(first)[key] by {
        lemma_entries_are_the_files(first, key);
        let i = choose|i: int|
            0 <= i < first.len() && is_hashed(#[trigger] first[i]) && key_of(first[i]) == key;
        let j = choose|j: int|
            0 <= j < second.len() && is_hashed(#[trigger] second[j]) && key_of(second[j])
                == key_of(first[i]) && value_of(second[j]) == value_of(first[i]);
        lemma_entry_holds_fingerprint(first, i);
        lemma_entry_holds_fingerprint(second, j);
    }
    assert forall|key: Seq<char>| #[trigger]
        mapping(second).dom().contains(key) implies mapping(first).dom().contains(key) by {
        lemma_entries_are_the_files(second, key);
        let j = choose|j: int|
            0 <= j < second.len() && is_hashed(#[trigger] second[j]) && key_of(second[j]) == key;
        let i = choose|i: int|
            0 <= i < first.len() && is_hashed(#[trigger] first[i]) && key_of(first[i]) == key_of(
                second[j],
            ) && value_of(first[i]) == value_of(second[j]);
        lemma_entry_holds_fingerprint(first, i);
    }
    assert(mapping(first).dom() =~= mapping(second).dom());
    assert(mapping(first) =~= mapping(second));
}

} // verus!
