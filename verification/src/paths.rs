//! Paths as lists of components. A canonical path is the list of its
//! components from the root down; a relative path is the list below some
//! directory. Separators never occur in this form, so the host's conventions
//! play no part.

use crate::text::texts;
use vstd::prelude::*;
use vstd::string::StrSliceExecFns;
use vstd::string::StringExecFns;

verus! {

/// The text of a relative path: its components with `/` between them.
pub open spec fn joined(components: Seq<Seq<char>>) -> Seq<char>
    decreases components.len(),
{
    if components.len() == 0 {
        Seq::empty()
    } else if components.len() == 1 {
        components[0]
    } else {
        joined(components.drop_last()) + "/"@ + components.last()
    }
}

/// Writes a relative path with forward slashes.
pub fn join(components: &Vec<String>) -> (text: String)
    ensures
        text@ == joined(texts(components@)),
{
    let mut text = String::new();
    let mut at: usize = 0;
    while at < components.len()
        invariant
            at <= components.len(),
            text@ == joined(texts(components@).take(at as int)),
        decreases components.len() - at,
    {
        let ghost before = texts(components@).take(at as int);
        let ghost after = texts(components@).take(at + 1);
        assert(after.drop_last() =~= before);
        assert(after.last() == components@[at as int]@);
        if at > 0 {
            text.append("/");
        }
        text.append(components[at].as_str());
        assert(text@ =~= joined(after));
        at = at + 1;
    }
    assert(texts(components@).take(at as int) =~= texts(components@));
    text
}

/// Whether the path `path` lies at or below the path `base`: the components
/// of `base` are the first components of `path`.
pub fn starts_with(path: &Vec<String>, base: &Vec<String>) -> (within: bool)
    ensures
        within == texts(base@).is_prefix_of(texts(path@)),
{
    if base.len() > path.len() {
        return false;
    }
    let mut at: usize = 0;
    while at < base.len()
        invariant
            at <= base.len() <= path.len(),
            forall|j: int| 0 <= j < at ==> (#[trigger] base@[j])@ == path@[j]@,
        decreases base.len() - at,
    {
        if base[at] != path[at] {
            assert(texts(path@).subrange(0, base.len() as int)[at as int] != texts(base@)[at as int]);
            return false;
        }
        at = at + 1;
    }
    assert(texts(base@) =~= texts(path@).subrange(0, base.len() as int));
    true
}

/// The position of the last occurrence of a character in a text, if it
/// occurs.
pub open spec fn last_index_of(text: Seq<char>, c: char) -> Option<int>
    decreases text.len(),
{
    if text.len() == 0 {
        None
    } else if text.last() == c {
        Some(text.len() - 1)
    } else {
        last_index_of(text.drop_last(), c)
    }
}

/// The position of the last `.` in a name, if it has one.
pub open spec fn last_dot(name: Seq<char>) -> Option<int> {
    last_index_of(name, '.')
}

/// The extension of a file name: what follows its last `.`, unless the name
/// has no `.`, has its only `.` in front, or is `..`.
pub open spec fn extension_of(name: Seq<char>) -> Option<Seq<char>> {
    match last_dot(name) {
        Some(dot) => if dot == 0 || name == ".."@ {
            None
        } else {
            Some(name.skip(dot + 1))
        },
        None => None,
    }
}

/// The extension of a file name.
pub fn extension(name: &str) -> (found: Option<&str>)
    ensures
        match found {
            Some(text) => extension_of(name@) == Some(text@),
            None => extension_of(name@) is None,
        },
{
    let length = name.unicode_len();
    let mut dot: Option<usize> = None;
    let mut at: usize = 0;
    let chars = name.chars();
    for c in it: chars
        invariant
            it.seq() == name@,
            at == it.index(),
            length == name@.len(),
            match dot {
                Some(position) => position < at && last_dot(name@.take(at as int)) == Some(
                    position as int,
                ),
                None => last_dot(name@.take(at as int)) is None,
            },
    {
        assert(name@.take(at + 1).drop_last() =~= name@.take(at as int));
        if c == '.' {
            dot = Some(at);
        }
        at = at + 1;
    }
    assert(name@.take(at as int) =~= name@);
    match dot {
        Some(position) => {
            if position == 0 || crate::text::same_text(name, "..") {
                None
            } else {
                Some(name.substring_char(position + 1, length))
            }
        },
        None => None,
    }
}

/// Whether a list of components is a relative path: no component is empty
/// or holds a separator. The empty list is the path of the directory itself.
pub open spec fn is_relative_path(components: Seq<Seq<char>>) -> bool {
    forall|i: int|
        0 <= i < components.len() ==> (#[trigger] components[i]).len() > 0 && !components[i].contains(
            '/',
        )
}

/// A text in which a character does not occur has no last occurrence of it.
pub proof fn lemma_last_index_of_absent(text: Seq<char>, c: char)
    requires
        !text.contains(c),
    ensures
        last_index_of(text, c) is None,
    decreases text.len(),
{
    if text.len() > 0 {
        assert(text[text.len() - 1] != c);
        assert forall|i: int| 0 <= i < text.drop_last().len() implies text.drop_last()[i] != c by {
            assert(text.drop_last()[i] == text[i]);
        }
        lemma_last_index_of_absent(text.drop_last(), c);
    }
}

/// The last occurrence of a character in a text is the one after which it
/// does not occur any more.
pub proof fn lemma_last_index_of_split(before: Seq<char>, c: char, after: Seq<char>)
    requires
        !after.contains(c),
    ensures
        last_index_of(before + seq![c] + after, c) == Some(before.len() as int),
    decreases after.len(),
{
    let text = before + seq![c] + after;
    if after.len() == 0 {
        assert(text.last() == c);
    } else {
        assert(text.last() == after.last());
        assert(after[after.len() - 1] != c);
        assert(text.drop_last() =~= before + seq![c] + after.drop_last());
        assert forall|i: int| 0 <= i < after.drop_last().len() implies after.drop_last()[i]
            != c by {
            assert(after.drop_last()[i] == after[i]);
        }
        lemma_last_index_of_split(before, c, after.drop_last());
    }
}

/// Relative paths with the same text are the same path: the text of a
/// relative path tells its components.
pub proof fn lemma_joined_tells_paths_apart(first: Seq<Seq<char>>, second: Seq<Seq<char>>)
    requires
        is_relative_path(first),
        is_relative_path(second),
        joined(first) == joined(second),
    ensures
        first == second,
    decreases first.len(),
{
    reveal_strlit("/");
    assert("/"@ =~= seq!['/']);
    let text = joined(first);
    if first.len() == 0 || second.len() == 0 {
        // The text of a path with components is not empty.
        if first.len() > 0 {
            assert(first.last().len() > 0);
        }
        if second.len() > 0 {
            assert(second.last().len() > 0);
        }
    } else if first.len() == 1 {
        lemma_last_index_of_absent(first[0], '/');
        if second.len() > 1 {
            assert(!second.last().contains('/'));
            lemma_last_index_of_split(joined(second.drop_last()), '/', second.last());
        }
    } else {
        assert(!first.last().contains('/'));
        lemma_last_index_of_split(joined(first.drop_last()), '/', first.last());
        if second.len() == 1 {
            lemma_last_index_of_absent(second[0], '/');
        } else {
            assert(!second.last().contains('/'));
            lemma_last_index_of_split(joined(second.drop_last()), '/', second.last());
            let cut = joined(first.drop_last()).len() as int;
            assert(joined(first.drop_last()) =~= text.take(cut));
            assert(joined(second.drop_last()) =~= text.take(cut));
            assert(first.last() =~= text.skip(cut + 1));
            assert(second.last() =~= text.skip(cut + 1));
            assert forall|i: int| 0 <= i < first.drop_last().len() implies (
            #[trigger] first.drop_last()[i]).len() > 0 && !first.drop_last()[i].contains('/') by {
                assert(first.drop_last()[i] == first[i]);
            }
            assert forall|i: int| 0 <= i < second.drop_last().len() implies (
            #[trigger] second.drop_last()[i]).len() > 0 && !second.drop_last()[i].contains(
                '/',
            ) by {
                assert(second.drop_last()[i] == second[i]);
            }
            lemma_joined_tells_paths_apart(first.drop_last(), second.drop_last());
            assert(first =~= first.drop_last().push(first.last()));
            assert(second =~= second.drop_last().push(second.last()));
        }
    }
    assert(first =~= second);
}

/// The extension of the file that a path names: that of its last component.
pub open spec fn path_extension(components: Seq<Seq<char>>) -> Option<Seq<char>> {
    if components.len() == 0 {
        None
    } else {
        extension_of(components.last())
    }
}

} // verus!
