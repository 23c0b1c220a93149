//! The fingerprint table that a generation run builds: the relative path of
//! each file with its fingerprint, in the order in which the paths were
//! first entered.

use crate::codegen::{
    builder_build, builder_entry, builder_new, builder_phf_path, declare_static, distinct_keys,
    staged, static_item,
};
use crate::text::{lemma_occurs_in_the_middle, occurs_in, same_text};
use vstd::prelude::*;
use vstd::string::StringExecFns;

verus! {

/// A list of paths with their fingerprints. No path occurs twice.
pub struct FingerprintMap {
    keys: Vec<String>,
    values: Vec<String>,
}

/// Two lists read side by side as a list of pairs.
spec fn pairs(keys: Seq<String>, values: Seq<String>) -> Seq<(Seq<char>, Seq<char>)> {
    Seq::new(keys.len(), |i: int| (keys[i]@, values[i]@))
}

impl View for FingerprintMap {
    type V = Seq<(Seq<char>, Seq<char>)>;

    /// The entries in order: each a path and its fingerprint.
    closed spec fn view(&self) -> Seq<(Seq<char>, Seq<char>)> {
        pairs(self.keys@, self.values@)
    }
}

/// The map that a list of entries stands for: a later entry in place of an
/// earlier one with the same path.
pub open spec fn table_of(entries: Seq<(Seq<char>, Seq<char>)>) -> Map<Seq<char>, Seq<char>>
    decreases entries.len(),
{
    if entries.len() == 0 {
        Map::empty()
    } else {
        table_of(entries.drop_last()).insert(entries.last().0, entries.last().1)
    }
}

/// A list of entries after a fingerprint was entered for a path: in the
/// place of the first entry for that path, or at the end if there is none.
pub open spec fn entered(
    entries: Seq<(Seq<char>, Seq<char>)>,
    path: Seq<char>,
    fingerprint: Seq<char>,
) -> Seq<(Seq<char>, Seq<char>)>
    decreases entries.len(),
{
    if entries.len() == 0 {
        seq![(path, fingerprint)]
    } else if entries[0].0 == path {
        entries.update(0, (path, fingerprint))
    } else {
        seq![entries[0]] + entered(entries.skip(1), path, fingerprint)
    }
}

/// A text between double quotes, as a string literal is written in source.
pub open spec fn quoted_text(text: Seq<char>) -> Seq<char> {
    "\""@ + text + "\""@
}

/// Puts a text between double quotes.
pub fn quoted(text: &str) -> (literal: String)
    ensures
        literal@ == quoted_text(text@),
{
    let mut literal = String::from_str("\"");
    literal.append(text);
    literal.append("\"");
    literal
}

/// What is handed to `phf_codegen` for a list of entries: every path, with
/// its fingerprint as a string literal.
pub open spec fn literals(entries: Seq<(Seq<char>, Seq<char>)>) -> Seq<(Seq<char>, Seq<char>)> {
    entries.map_values(|entry: (Seq<char>, Seq<char>)| (entry.0, quoted_text(entry.1)))
}

impl FingerprintMap {
    #[verifier::type_invariant]
    spec fn consistent(self) -> bool {
        &&& self.keys.len() == self.values.len()
        &&& distinct_keys(pairs(self.keys@, self.values@))
    }

    /// The table without entries.
    pub fn new() -> (empty: FingerprintMap)
        ensures
            empty@ == Seq::<(Seq<char>, Seq<char>)>::empty(),
    {
        let empty = FingerprintMap { keys: Vec::new(), values: Vec::new() };
        assert(empty@ =~= Seq::<(Seq<char>, Seq<char>)>::empty());
        empty
    }

    /// The number of entries.
    pub fn len(&self) -> (count: usize)
        ensures
            count == self@.len(),
    {
        self.keys.len()
    }

    /// The fingerprint recorded for a path, if there is one.
    pub fn get(&self, path: &str) -> (found: Option<&String>)
        ensures
            match found {
                Some(fingerprint) => table_of(self@).contains_key(path@) && table_of(
                    self@,
                )[path@] == fingerprint@,
                None => !table_of(self@).contains_key(path@),
            },
    {
        proof {
            use_type_invariant(self);
        }
        let mut at: usize = 0;
        while at < self.keys.len()
            invariant
                at <= self.keys.len(),
                self.keys.len() == self.values.len(),
                distinct_keys(self@),
                forall|j: int| 0 <= j < at ==> (#[trigger] self.keys@[j])@ != path@,
            decreases self.keys.len() - at,
        {
            if same_text(self.keys[at].as_str(), path) {
                proof {
                    assert(self@[at as int] == (self.keys@[at as int]@, self.values@[at as int]@));
                    lemma_table_of_value(self@, at as int);
                }
                return Some(&self.values[at]);
            }
            at = at + 1;
        }
        proof {
            lemma_table_of_keys(self@, path@);
        }
        None
    }

    /// Records the fingerprint of a path: in place of the one recorded for
    /// that path, or behind all entries if there is none.
    pub fn insert(self, path: String, fingerprint: String) -> (next: FingerprintMap)
        ensures
            next@ == entered(self@, path@, fingerprint@),
    {
        proof {
            use_type_invariant(&self);
        }
        let ghost before = self@;
        let FingerprintMap { mut keys, mut values } = self;
        let mut at: usize = 0;
        while at < keys.len()
            invariant
                at <= keys.len(),
                keys.len() == values.len(),
                before == self@,
                before == pairs(keys@, values@),
                distinct_keys(before),
                forall|j: int| 0 <= j < at ==> (#[trigger] keys@[j])@ != path@,
            decreases keys.len() - at,
        {
            if keys[at] == path {
                values.set(at, fingerprint);
                proof {
                    lemma_entered_at(before, path@, fingerprint@, at as int);
                    assert(pairs(keys@, values@) =~= before.update(
                        at as int,
                        (path@, fingerprint@),
                    ));
                    lemma_entered_table(before, path@, fingerprint@);
                }
                return FingerprintMap { keys, values };
            }
            at = at + 1;
        }
        keys.push(path);
        values.push(fingerprint);
        proof {
            lemma_entered_absent(before, path@, fingerprint@);
            assert(pairs(keys@, values@) =~= before.push((path@, fingerprint@)));
            lemma_entered_table(before, path@, fingerprint@);
        }
        FingerprintMap { keys, values }
    }

    /// A builder that holds every entry of this table, in order.
    fn stage(&self) -> (builder: phf_codegen::Map<&str>)
        ensures
            staged(builder) == literals(self@),
            distinct_keys(staged(builder)),
    {
        proof {
            use_type_invariant(self);
        }
        let mut builder = builder_new();
        builder_phf_path(&mut builder, "::rocket_static_files::phf");
        let mut at: usize = 0;
        while at < self.keys.len()
            invariant
                at <= self.keys.len(),
                self.keys.len() == self.values.len(),
                staged(builder) == literals(self@).take(at as int),
            decreases self.keys.len() - at,
        {
            let literal = quoted(self.values[at].as_str());
            builder_entry(&mut builder, self.keys[at].as_str(), literal.as_str());
            assert(staged(builder) =~= literals(self@).take(at + 1));
            at = at + 1;
        }
        assert(staged(builder) =~= literals(self@));
        builder
    }

    /// The source text of a static that holds this table as a `phf::Map`:
    /// the declaration of the static around the map that `phf_codegen` writes
    /// for the entries. The fingerprint of every entry stands in the text as
    /// a string literal.
    pub fn render(&self) -> (source: String)
        ensures
            exists|value: Seq<char>| source@ == #[trigger] static_item(value),
            forall|i: int|
                0 <= i < self@.len() ==> occurs_in(quoted_text((#[trigger] self@[i]).1), source@),
    {
        let builder = self.stage();
        let value = builder_build(&builder);
        let source = declare_static(value.as_str());
        proof {
            assert forall|i: int| 0 <= i < self@.len() implies occurs_in(
                quoted_text((#[trigger] self@[i]).1),
                source@,
            ) by {
                assert(staged(builder)[i].1 == quoted_text(self@[i].1));
                lemma_occurs_in_the_middle(
                    quoted_text(self@[i].1),
                    "static STATIC_FILE_HASHES: ::rocket_static_files::phf::Map<&'static str, &'static str> = "@,
                    value@,
                    ";"@,
                );
            }
        }
        source
    }
}

/// The map of a list of entries holds a path exactly if the list does.
pub proof fn lemma_table_of_keys(entries: Seq<(Seq<char>, Seq<char>)>, path: Seq<char>)
    ensures
        table_of(entries).contains_key(path) <==> exists|i: int|
            0 <= i < entries.len() && (#[trigger] entries[i]).0 == path,
    decreases entries.len(),
{
    if entries.len() > 0 {
        let rest = entries.drop_last();
        lemma_table_of_keys(rest, path);
        if table_of(entries).contains_key(path) {
            if entries.last().0 == path {
                assert(entries[entries.len() - 1].0 == path);
            } else {
                let i = choose|i: int| 0 <= i < rest.len() && (#[trigger] rest[i]).0 == path;
                assert(entries[i] == rest[i]);
            }
        }
        if exists|i: int| 0 <= i < entries.len() && (#[trigger] entries[i]).0 == path {
            let i = choose|i: int| 0 <= i < entries.len() && (#[trigger] entries[i]).0 == path;
            if i < entries.len() - 1 {
                assert(rest[i] == entries[i]);
            }
        }
    }
}

/// In a list that names no path twice, the map gives every path the
/// fingerprint that stands beside it.
pub proof fn lemma_table_of_value(entries: Seq<(Seq<char>, Seq<char>)>, at: int)
    requires
        distinct_keys(entries),
        0 <= at < entries.len(),
    ensures
        table_of(entries).contains_key(entries[at].0),
        table_of(entries)[entries[at].0] == entries[at].1,
    decreases entries.len(),
{
    if at < entries.len() - 1 {
        let rest = entries.drop_last();
        assert(rest[at] == entries[at]);
        assert forall|i: int, j: int| 0 <= i < j < rest.len() implies rest[i].0 != rest[j].0 by {
            assert(rest[i] == entries[i] && rest[j] == entries[j]);
        }
        lemma_table_of_value(rest, at);
        assert(entries[entries.len() - 1].0 != entries[at].0);
    }
}

/// A list that names no path twice stands for a map with as many entries.
pub proof fn lemma_table_of_len(entries: Seq<(Seq<char>, Seq<char>)>)
    requires
        distinct_keys(entries),
    ensures
        table_of(entries).dom().finite(),
        table_of(entries).len() == entries.len(),
    decreases entries.len(),
{
    if entries.len() > 0 {
        let rest = entries.drop_last();
        assert forall|i: int, j: int| 0 <= i < j < rest.len() implies rest[i].0 != rest[j].0 by {
            assert(rest[i] == entries[i] && rest[j] == entries[j]);
        }
        lemma_table_of_len(rest);
        assert(!table_of(rest).contains_key(entries.last().0)) by {
            lemma_table_of_keys(rest, entries.last().0);
            if table_of(rest).contains_key(entries.last().0) {
                let i = choose|i: int|
                    0 <= i < rest.len() && (#[trigger] rest[i]).0 == entries.last().0;
                assert(rest[i] == entries[i]);
                assert(entries[entries.len() - 1].0 == entries.last().0);
            }
        }
    }
}

/// Entering a fingerprint for a path that the list holds puts it in the
/// place of the first entry for that path.
pub proof fn lemma_entered_at(
    entries: Seq<(Seq<char>, Seq<char>)>,
    path: Seq<char>,
    fingerprint: Seq<char>,
    at: int,
)
    requires
        0 <= at < entries.len(),
        entries[at].0 == path,
        forall|j: int| 0 <= j < at ==> (#[trigger] entries[j]).0 != path,
    ensures
        entered(entries, path, fingerprint) == entries.update(at, (path, fingerprint)),
    decreases at,
{
    if at > 0 {
        let rest = entries.skip(1);
        assert(entries[0].0 != path);
        assert(rest[at - 1] == entries[at]);
        assert forall|j: int| 0 <= j < at - 1 implies (#[trigger] rest[j]).0 != path by {
            assert(rest[j] == entries[j + 1]);
        }
        lemma_entered_at(rest, path, fingerprint, at - 1);
        assert(seq![entries[0]] + rest.update(at - 1, (path, fingerprint)) =~= entries.update(
            at,
            (path, fingerprint),
        ));
    }
}

/// Entering a fingerprint for a path that the list does not hold puts it
/// behind all entries.
pub proof fn lemma_entered_absent(
    entries: Seq<(Seq<char>, Seq<char>)>,
    path: Seq<char>,
    fingerprint: Seq<char>,
)
    requires
        forall|j: int| 0 <= j < entries.len() ==> (#[trigger] entries[j]).0 != path,
    ensures
        entered(entries, path, fingerprint) == entries.push((path, fingerprint)),
    decreases entries.len(),
{
    if entries.len() == 0 {
        assert(seq![(path, fingerprint)] =~= entries.push((path, fingerprint)));
    } else {
        let rest = entries.skip(1);
        assert(entries[0].0 != path);
        assert forall|j: int| 0 <= j < rest.len() implies (#[trigger] rest[j]).0 != path by {
            assert(rest[j] == entries[j + 1]);
        }
        lemma_entered_absent(rest, path, fingerprint);
        assert(seq![entries[0]] + rest.push((path, fingerprint)) =~= entries.push(
            (path, fingerprint),
        ));
    }
}

/// Entering a fingerprint keeps every path single in the list, and makes of
/// the map the map with that one entry put in.
pub proof fn lemma_entered_table(
    entries: Seq<(Seq<char>, Seq<char>)>,
    path: Seq<char>,
    fingerprint: Seq<char>,
)
    requires
        distinct_keys(entries),
    ensures
        distinct_keys(entered(entries, path, fingerprint)),
        table_of(entered(entries, path, fingerprint)) == table_of(entries).insert(
            path,
            fingerprint,
        ),
{
    let after = entered(entries, path, fingerprint);
    if exists|i: int| 0 <= i < entries.len() && (#[trigger] entries[i]).0 == path {
        let at = choose|i: int| 0 <= i < entries.len() && (#[trigger] entries[i]).0 == path;
        lemma_entered_at(entries, path, fingerprint, at);
        assert forall|i: int, j: int| 0 <= i < j < after.len() implies after[i].0
            != after[j].0 by {
            assert(after[i].0 == entries[i].0 && after[j].0 == entries[j].0);
        }
        assert forall|key: Seq<char>| #[trigger]
            table_of(after).dom().contains(key) <==> table_of(entries).insert(
                path,
                fingerprint,
            ).dom().contains(key) by {
            lemma_table_of_keys(after, key);
            lemma_table_of_keys(entries, key);
            if exists|i: int| 0 <= i < after.len() && (#[trigger] after[i]).0 == key {
                let i = choose|i: int| 0 <= i < after.len() && (#[trigger] after[i]).0 == key;
                assert(entries[i].0 == key);
            }
            if exists|i: int| 0 <= i < entries.len() && (#[trigger] entries[i]).0 == key {
                let i = choose|i: int| 0 <= i < entries.len() && (#[trigger] entries[i]).0 == key;
                assert(after[i].0 == key);
            }
            if key == path {
                assert(after[at].0 == key);
            }
        }
        assert forall|key: Seq<char>| #[trigger]
            table_of(after).dom().contains(key) implies table_of(after)[key] == table_of(
            entries,
        ).insert(path, fingerprint)[key] by {
            lemma_table_of_keys(after, key);
            let i = choose|i: int| 0 <= i < after.len() && (#[trigger] after[i]).0 == key;
            lemma_table_of_value(after, i);
            lemma_table_of_value(entries, i);
            if i == at {
            } else {
                assert(entries[i].0 != entries[at].0);
            }
        }
        assert(table_of(after) =~= table_of(entries).insert(path, fingerprint));
    } else {
        lemma_entered_absent(entries, path, fingerprint);
        assert(after.drop_last() =~= entries);
        assert forall|i: int, j: int| 0 <= i < j < after.len() implies after[i].0
            != after[j].0 by {
            if j < entries.len() {
                assert(after[i] == entries[i] && after[j] == entries[j]);
            } else {
                assert(after[i] == entries[i]);
            }
        }
    }
}

} // verus!
