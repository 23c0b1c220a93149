//! The fingerprint table at serving time: a `phf::Map` that was compiled in.

use vstd::prelude::*;

verus! {

#[verifier::external_type_specification]
#[verifier::external_body]
#[verifier::reject_recursive_types(K)]
#[verifier::reject_recursive_types(V)]
pub struct ExTable<K: 'static, V: 'static>(phf::Map<K, V>);

/// The number of entries that a table stores.
pub uninterp spec fn stored(table: phf::Map<&'static str, &'static str>) -> nat;

/// What a table answers: the paths for which a lookup finds a fingerprint,
/// each with that fingerprint.
pub uninterp spec fn answers(table: phf::Map<&'static str, &'static str>) -> Map<Seq<char>, Seq<char>>;

/// `phf::Map::len`: the number of stored entries. In a table that stores
/// none, no lookup finds anything.
#[verifier::external_body]
fn table_len(table: &phf::Map<&'static str, &'static str>) -> (count: usize)
    ensures
        count == stored(*table),
        count == 0 ==> forall|path: Seq<char>| !answers(*table).contains_key(path),
{
    table.len()
}

/// `phf::Map::get`: the fingerprint that the table finds for a path. The
/// lookup takes a remainder by the number of stored entries, so there must
/// be one.
#[verifier::external_body]
fn table_get(table: &phf::Map<&'static str, &'static str>, path: &str) -> (found: Option<
    &'static str,
>)
    requires
        stored(*table) > 0,
    ensures
        match found {
            Some(fingerprint) => answers(*table).contains_key(path@) && answers(*table)[path@]
                == fingerprint@,
            None => !answers(*table).contains_key(path@),
        },
{
    match table.get(path) {
        Some(fingerprint) => Some(*fingerprint),
        None => None,
    }
}

/// The current fingerprint of a path, if the table holds the path.
pub fn current_fingerprint(table: &phf::Map<&'static str, &'static str>, path: &str) -> (found:
    Option<&'static str>)
    ensures
        match found {
            Some(fingerprint) => answers(*table).contains_key(path@) && answers(*table)[path@]
                == fingerprint@,
            None => !answers(*table).contains_key(path@),
        },
{
    if table_len(table) == 0 {
        None
    } else {
        table_get(table, path)
    }
}

} // verus!
