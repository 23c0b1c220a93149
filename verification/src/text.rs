//! Text helpers shared by the generator and the resolver.

use vstd::prelude::*;
use vstd::string::StringSliceAdditionalSpecFns;
use vstd::utf8::encode_utf8_decode_utf8;

verus! {

/// The texts of a list of strings.
pub open spec fn texts(strings: Seq<String>) -> Seq<Seq<char>> {
    strings.map_values(|s: String| s@)
}

/// Whether two strings hold the same text.
pub fn same_text(a: &str, b: &str) -> (same: bool)
    ensures
        same == (a@ == b@),
{
    let left = a.as_bytes();
    let right = b.as_bytes();
    proof {
        encode_utf8_decode_utf8(a@);
        encode_utf8_decode_utf8(b@);
    }
    if left.len() != right.len() {
        return false;
    }
    let mut at: usize = 0;
    while at < left.len()
        invariant
            at <= left.len(),
            left.len() == right.len(),
            left@ == a.spec_bytes(),
            right@ == b.spec_bytes(),
            forall|j: int| 0 <= j < at ==> left@[j] == right@[j],
        decreases left.len() - at,
    {
        if left[at] != right[at] {
            return false;
        }
        at = at + 1;
    }
    assert(left@ =~= right@);
    true
}

/// Whether a text stands somewhere in another, whole and unbroken.
pub open spec fn occurs_in(part: Seq<char>, whole: Seq<char>) -> bool {
    exists|from: int|
        0 <= from && from + part.len() <= whole.len() && #[trigger] whole.subrange(
            from,
            from + part.len(),
        ) == part
}

/// What stands in a text stands in every text around it.
pub proof fn lemma_occurs_in_the_middle(
    part: Seq<char>,
    before: Seq<char>,
    middle: Seq<char>,
    after: Seq<char>,
)
    requires
        occurs_in(part, middle),
    ensures
        occurs_in(part, before + middle + after),
{
    let from = choose|from: int|
        0 <= from && from + part.len() <= middle.len() && #[trigger] middle.subrange(
            from,
            from + part.len(),
        ) == part;
    let whole = before + middle + after;
    let start = before.len() + from;
    assert(whole.subrange(start, start + part.len()) =~= middle.subrange(from, from + part.len()));
}

} // verus!
