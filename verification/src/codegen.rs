//! The source text of a table: a `phf::Map` static that the serving crate
//! compiles in. The text is written by `phf_codegen`.

use crate::text::occurs_in;
use vstd::prelude::*;
use vstd::string::StringExecFns;

verus! {

#[verifier::external_type_specification]
#[verifier::external_body]
#[verifier::reject_recursive_types(K)]
pub struct ExBuilder<K>(phf_codegen::Map<K>);

/// The entries that a builder holds, in the order in which they were added:
/// each a key and the source text of its value.
pub uninterp spec fn staged(builder: phf_codegen::Map<&str>) -> Seq<(Seq<char>, Seq<char>)>;

/// Whether no key occurs twice among entries.
pub open spec fn distinct_keys(entries: Seq<(Seq<char>, Seq<char>)>) -> bool {
    forall|i: int, j: int| 0 <= i < j < entries.len() ==> entries[i].0 != entries[j].0
}

/// `phf_codegen::Map::new`: a builder without entries.
#[verifier::external_body]
pub(crate) fn builder_new<'a>() -> (builder: phf_codegen::Map<&'a str>)
    ensures
        staged(builder) == Seq::<(Seq<char>, Seq<char>)>::empty(),
{
    phf_codegen::Map::new()
}

/// `phf_codegen::Map::phf_path`: sets the path under which the written source
/// names the `phf` crate. The entries stay as they are.
#[verifier::external_body]
pub(crate) fn builder_phf_path<'a>(builder: &mut phf_codegen::Map<&'a str>, path: &str)
    ensures
        staged(*final(builder)) == staged(*old(builder)),
{
    builder.phf_path(path);
}

/// `phf_codegen::Map::entry`: adds one entry behind those already there.
#[verifier::external_body]
pub(crate) fn builder_entry<'a>(builder: &mut phf_codegen::Map<&'a str>, key: &'a str, value: &str)
    ensures
        staged(*final(builder)) == staged(*old(builder)).push((key@, value@)),
{
    builder.entry(key, value);
}

/// `phf_codegen::Map::build`, written out through its `Display`: the source
/// text of the map. The crate panics on a key that occurs twice. It writes
/// the value of every entry as it was given. Where in the text an entry
/// stands, and the hash parameters beside the entries, depend on the random
/// source of the crate's generator, which differs from one word size to
/// another, so no more is said of the text.
#[verifier::external_body]
pub(crate) fn builder_build<'a>(builder: &phf_codegen::Map<&'a str>) -> (source: String)
    requires
        distinct_keys(staged(*builder)),
    ensures
        forall|i: int|
            0 <= i < staged(*builder).len() ==> occurs_in(
                (#[trigger] staged(*builder)[i]).1,
                source@,
            ),
{
    format!("{}", builder.build())
}

/// The declaration of the table static around the source text of its value.
pub open spec fn static_item(value: Seq<char>) -> Seq<char> {
    "static STATIC_FILE_HASHES: ::rocket_static_files::phf::Map<&'static str, &'static str> = "@
        + value + ";"@
}

/// Wraps the source text of a map in the declaration of the table static.
pub fn declare_static(value: &str) -> (item: String)
    ensures
        item@ == static_item(value@),
{
    let mut item = String::from_str(
        "static STATIC_FILE_HASHES: ::rocket_static_files::phf::Map<&'static str, &'static str> = ",
    );
    item.append(value);
    item.append(";");
    item
}

} // verus!
