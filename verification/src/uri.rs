//! What goes into a redirect URL: path segments and the fingerprint,
//! percent-encoded as Rocket encodes what it writes into a URL.

use crate::paths::{join, joined};
use crate::text::texts;
use vstd::prelude::*;
use vstd::string::StringExecFns;

verus! {

/// The percent-encoded form of a text, as Rocket writes a path segment or a
/// query value into a URL.
pub uninterp spec fn percent_encoded(text: Seq<char>) -> Seq<char>;

/// Whether a character is one that URLs leave as it is everywhere: a
/// letter, a digit, `-`, `.`, `_` or `~`.
pub open spec fn is_unreserved(c: char) -> bool {
    ||| 'A' <= c <= 'Z'
    ||| 'a' <= c <= 'z'
    ||| '0' <= c <= '9'
    ||| c == '-'
    ||| c == '.'
    ||| c == '_'
    ||| c == '~'
}

/// Whether a text needs no encoding: all its characters are unreserved.
pub open spec fn is_plain(text: Seq<char>) -> bool {
    forall|i: int| 0 <= i < text.len() ==> is_unreserved(#[trigger] text[i])
}

/// Whether no segment of a path needs encoding.
pub open spec fn all_plain(segments: Seq<Seq<char>>) -> bool {
    forall|i: int| 0 <= i < segments.len() ==> is_plain(#[trigger] segments[i])
}

/// `RawStr::percent_encode` of Rocket: the text with every byte outside
/// Rocket's set of characters that may stand in a URL written as `%` and two
/// hexadecimal digits. Letters, digits, `-`, `.`, `_` and `~` are in that
/// set, so a text made of them comes back as it is.
#[verifier::external_body]
pub(crate) fn percent_encode(text: &str) -> (encoded: String)
    ensures
        encoded@ == percent_encoded(text@),
        is_plain(text@) ==> encoded@ == text@,
{
    rocket::http::RawStr::new(text).percent_encode().to_string()
}

/// The segments of a path, each percent-encoded.
pub open spec fn encoded_segments(segments: Seq<Seq<char>>) -> Seq<Seq<char>> {
    segments.map_values(|segment: Seq<char>| percent_encoded(segment))
}

/// Percent-encodes every segment of a path. Segments that need no encoding
/// stay as they are.
pub fn encode_segments(segments: &Vec<String>) -> (encoded: Vec<String>)
    ensures
        texts(encoded@) == encoded_segments(texts(segments@)),
        all_plain(texts(segments@)) ==> texts(encoded@) == texts(segments@),
{
    let mut encoded: Vec<String> = Vec::new();
    let mut at: usize = 0;
    while at < segments.len()
        invariant
            at <= segments.len(),
            encoded.len() == at,
            forall|j: int|
                0 <= j < at ==> (#[trigger] encoded@[j])@ == percent_encoded(segments@[j]@),
            forall|j: int|
                0 <= j < at && is_plain(segments@[j]@) ==> (#[trigger] encoded@[j])@
                    == segments@[j]@,
        decreases segments.len() - at,
    {
        encoded.push(percent_encode(segments[at].as_str()));
        at = at + 1;
    }
    assert(texts(encoded@) =~= encoded_segments(texts(segments@)));
    proof {
        if all_plain(texts(segments@)) {
            assert forall|j: int| 0 <= j < segments.len() implies texts(encoded@)[j] == texts(
                segments@,
            )[j] by {
                assert(is_plain(texts(segments@)[j]));
            }
            assert(texts(encoded@) =~= texts(segments@));
        }
    }
    encoded
}

/// The query that carries a fingerprint.
pub open spec fn query_of(fingerprint: Seq<char>) -> Seq<char> {
    "?v="@ + fingerprint
}

/// A URL out of its parts: the mount prefix, the segments of the path with
/// a slash before them, and the query with the fingerprint. The segments and
/// the fingerprint stand in it as they are given.
pub open spec fn canonical_url(
    prefix: Seq<char>,
    segments: Seq<Seq<char>>,
    fingerprint: Seq<char>,
) -> Seq<char> {
    prefix + "/"@ + joined(segments) + query_of(fingerprint)
}

/// Puts a redirect URL together from parts that are encoded already.
pub fn redirect_url(prefix: &str, segments: &Vec<String>, fingerprint: &str) -> (url: String)
    ensures
        url@ == canonical_url(prefix@, texts(segments@), fingerprint@),
{
    let mut url = String::from_str(prefix);
    url.append("/");
    url.append(join(segments).as_str());
    url.append("?v=");
    url.append(fingerprint);
    assert(url@ =~= canonical_url(prefix@, texts(segments@), fingerprint@));
    url
}

} // verus!
