//! Content fingerprints: a 64-bit SipHash digest of a file's bytes, written
//! as eleven characters of URL-safe base64.

use siphasher::sip::SipHasher;
use vstd::bytes::spec_u64_to_le_bytes;
use vstd::prelude::*;

verus! {

#[verifier::external_type_specification]
#[verifier::external_body]
pub struct ExSipHasher(siphasher::sip::SipHasher);

/// The bytes that have been written to a hasher since it was created.
pub uninterp spec fn sip_written(hasher: SipHasher) -> Seq<u8>;

/// The SipHash-2-4 digest of a byte string under the all-zero key.
pub uninterp spec fn sip_digest(bytes: Seq<u8>) -> u64;

/// `SipHasher::new`: a hasher keyed with zeros, to which nothing has been
/// written yet.
#[verifier::external_body]
fn sip_new() -> (hasher: SipHasher)
    ensures
        sip_written(hasher) == Seq::<u8>::empty(),
{
    SipHasher::new()
}

/// `Hasher::write` of `SipHasher`: the hasher takes in `bytes` after what it
/// already holds. The hasher counts its input in a `usize`, so the total must
/// fit in one.
#[verifier::external_body]
fn sip_write(hasher: &mut SipHasher, bytes: &[u8])
    requires
        sip_written(*old(hasher)).len() + bytes@.len() <= usize::MAX,
    ensures
        sip_written(*final(hasher)) == sip_written(*old(hasher)) + bytes@,
{
    std::hash::Hasher::write(hasher, bytes)
}

/// `Hasher::finish` of `SipHasher`: the digest of everything written so far.
/// The hasher itself is left as it was.
#[verifier::external_body]
fn sip_finish(hasher: &SipHasher) -> (digest: u64)
    ensures
        digest == sip_digest(sip_written(*hasher)),
{
    std::hash::Hasher::finish(hasher)
}

/// A digest in progress: file contents are fed to it piece by piece, in the
/// order in which they were read.
pub struct Fingerprinter {
    hasher: SipHasher,
    length: usize,
}

impl View for Fingerprinter {
    type V = Seq<u8>;

    /// Everything that has been fed so far.
    closed spec fn view(&self) -> Seq<u8> {
        sip_written(self.hasher)
    }
}

impl Fingerprinter {
    #[verifier::type_invariant]
    spec fn counted(self) -> bool {
        self.length == sip_written(self.hasher).len()
    }

    /// A fingerprinter that has been fed nothing.
    pub fn new() -> (fresh: Fingerprinter)
        ensures
            fresh@ == Seq::<u8>::empty(),
    {
        Fingerprinter { hasher: sip_new(), length: 0 }
    }

    /// The number of bytes fed so far.
    pub fn len(&self) -> (n: usize)
        ensures
            n == self@.len(),
    {
        proof {
            use_type_invariant(self);
        }
        self.length
    }

    /// Feeds one more piece. The piece is refused, and nothing changes, when
    /// the total length would no longer fit in a `usize`.
    pub fn update(&mut self, piece: &[u8]) -> (accepted: bool)
        ensures
            accepted == (old(self)@.len() + piece@.len() <= usize::MAX),
            final(self)@ == if accepted {
                old(self)@ + piece@
            } else {
                old(self)@
            },
    {
        proof {
            use_type_invariant(&*self);
        }
        match self.length.checked_add(piece.len()) {
            Some(total) => {
                let mut hasher = self.hasher;
                sip_write(&mut hasher, piece);
                *self = Fingerprinter { hasher, length: total };
                true
            },
            None => false,
        }
    }

    /// The digest of everything fed so far.
    pub fn finish(&self) -> (digest: u64)
        ensures
            digest == sip_digest(self@),
    {
        sip_finish(&self.hasher)
    }
}

/// The digest of a file's contents.
pub fn hash(contents: &[u8]) -> (digest: u64)
    ensures
        digest == sip_digest(contents@),
{
    let mut state = Fingerprinter::new();
    assert(contents@.len() == contents.len());
    state.update(contents);
    assert(state@ =~= contents@);
    state.finish()
}

/// The character that URL-safe base64 writes for a six-bit value.
pub open spec fn base64_symbol(value: int) -> char {
    if value < 26 {
        ((0x41 + value) as u8) as char
    } else if value < 52 {
        ((0x61 + value - 26) as u8) as char
    } else if value < 62 {
        ((0x30 + value - 52) as u8) as char
    } else if value == 62 {
        '-'
    } else {
        '_'
    }
}

/// URL-safe base64 without padding: every three bytes become four symbols,
/// a last single byte two, a last pair three.
pub open spec fn base64_url(bytes: Seq<u8>) -> Seq<char>
    decreases bytes.len(),
{
    let first = bytes[0] as int;
    let second = bytes[1] as int;
    let third = bytes[2] as int;
    if bytes.len() == 0 {
        Seq::empty()
    } else if bytes.len() == 1 {
        seq![base64_symbol(first / 4), base64_symbol(first % 4 * 16)]
    } else if bytes.len() == 2 {
        seq![
            base64_symbol(first / 4),
            base64_symbol(first % 4 * 16 + second / 16),
            base64_symbol(second % 16 * 4),
        ]
    } else {
        seq![
            base64_symbol(first / 4),
            base64_symbol(first % 4 * 16 + second / 16),
            base64_symbol(second % 16 * 4 + third / 64),
            base64_symbol(third % 64),
        ] + base64_url(bytes.skip(3))
    }
}

/// `base64::encode_config` with `URL_SAFE_NO_PAD`: the URL-safe base64 of
/// `bytes`, without padding. The crate computes the length of the text
/// beforehand and allocates it at once, so that length must stay within
/// what one allocation may hold.
#[verifier::external_body]
fn base64_encode(bytes: &[u8]) -> (text: String)
    requires
        bytes@.len() / 3 * 4 + 3 <= isize::MAX,
    ensures
        text@ == base64_url(bytes@),
{
    base64::encode_config(bytes, base64::URL_SAFE_NO_PAD)
}

/// Whether a character may stand in a query string as it is: a letter, a
/// digit, `-` or `_`.
pub open spec fn is_url_safe(c: char) -> bool {
    ||| 'A' <= c <= 'Z'
    ||| 'a' <= c <= 'z'
    ||| '0' <= c <= '9'
    ||| c == '-'
    ||| c == '_'
}

/// The fingerprint that stands for a digest: the URL-safe base64 of its
/// eight bytes, lowest first.
pub open spec fn fingerprint_text(digest: u64) -> Seq<char> {
    base64_url(spec_u64_to_le_bytes(digest))
}

/// The fingerprint of a digest: eleven characters, each of which may stand
/// in a query string as it is.
pub fn fingerprint(digest: u64) -> (text: String)
    ensures
        text@ == fingerprint_text(digest),
        text@.len() == 11,
        forall|i: int| 0 <= i < text@.len() ==> is_url_safe(#[trigger] text@[i]),
{
    let bytes = vstd::bytes::u64_to_le_bytes(digest);
    proof {
        lemma_base64_url_shape(bytes@);
    }
    base64_encode(bytes.as_slice())
}

/// The number of symbols that base64 without padding writes for a number
/// of bytes.
pub open spec fn base64_len(bytes: nat) -> nat {
    if bytes % 3 == 0 {
        bytes / 3 * 4
    } else {
        bytes / 3 * 4 + bytes % 3 + 1
    }
}

/// The symbol of every six-bit value is URL-safe.
pub proof fn lemma_symbol_is_url_safe(value: int)
    requires
        0 <= value < 64,
    ensures
        is_url_safe(base64_symbol(value)),
{
}

/// URL-safe base64 writes only URL-safe characters, and four of them for
/// every three bytes.
pub proof fn lemma_base64_url_shape(bytes: Seq<u8>)
    ensures
        base64_url(bytes).len() == base64_len(bytes.len()),
        forall|i: int|
            0 <= i < base64_url(bytes).len() ==> is_url_safe(#[trigger] base64_url(bytes)[i]),
    decreases bytes.len(),
{
    let first = bytes[0] as int;
    let second = bytes[1] as int;
    let third = bytes[2] as int;
    if bytes.len() >= 1 {
        lemma_symbol_is_url_safe(first / 4);
        lemma_symbol_is_url_safe(first % 4 * 16);
    }
    if bytes.len() >= 2 {
        lemma_symbol_is_url_safe(first % 4 * 16 + second / 16);
        lemma_symbol_is_url_safe(second % 16 * 4);
    }
    if bytes.len() >= 3 {
        lemma_symbol_is_url_safe(second % 16 * 4 + third / 64);
        lemma_symbol_is_url_safe(third % 64);
        lemma_base64_url_shape(bytes.skip(3));
    }
}

/// Digests with the same fingerprint are the same digest.
pub proof fn lemma_fingerprint_tells_digests_apart(first: u64, second: u64)
    requires
        fingerprint_text(first) == fingerprint_text(second),
    ensures
        first == second,
{
    vstd::bytes::lemma_auto_spec_u64_to_from_le_bytes();
    lemma_base64_url_tells_bytes_apart(spec_u64_to_le_bytes(first), spec_u64_to_le_bytes(second));
}

/// Different six-bit values have different symbols.
pub proof fn lemma_symbol_tells_values_apart(first: int, second: int)
    requires
        0 <= first < 64,
        0 <= second < 64,
        base64_symbol(first) == base64_symbol(second),
    ensures
        first == second,
{
}

/// Byte strings of one length with the same base64 text are the same.
pub proof fn lemma_base64_url_tells_bytes_apart(first: Seq<u8>, second: Seq<u8>)
    requires
        first.len() == second.len(),
        base64_url(first) == base64_url(second),
    ensures
        first == second,
    decreases first.len(),
{
    let a = base64_url(first);
    let b = base64_url(second);
    if first.len() >= 1 {
        assert(a[0] == b[0]);
        assert(a[1] == b[1]);
        lemma_symbol_tells_values_apart(first[0] as int / 4, second[0] as int / 4);
    }
    if first.len() == 1 {
        lemma_symbol_tells_values_apart(first[0] as int % 4 * 16, second[0] as int % 4 * 16);
    }
    if first.len() >= 2 {
        assert(a[2] == b[2]);
        lemma_symbol_tells_values_apart(
            first[0] as int % 4 * 16 + first[1] as int / 16,
            second[0] as int % 4 * 16 + second[1] as int / 16,
        );
    }
    if first.len() == 2 {
        lemma_symbol_tells_values_apart(first[1] as int % 16 * 4, second[1] as int % 16 * 4);
    }
    if first.len() >= 3 {
        assert(a[3] == b[3]);
        lemma_symbol_tells_values_apart(
            first[1] as int % 16 * 4 + first[2] as int / 64,
            second[1] as int % 16 * 4 + second[2] as int / 64,
        );
        lemma_symbol_tells_values_apart(first[2] as int % 64, second[2] as int % 64);
        lemma_base64_url_shape(first.skip(3));
        lemma_base64_url_shape(second.skip(3));
        assert(base64_url(first.skip(3)) =~= a.skip(4));
        assert(base64_url(second.skip(3)) =~= b.skip(4));
        lemma_base64_url_tells_bytes_apart(first.skip(3), second.skip(3));
        assert forall|i: int| 3 <= i < first.len() implies first[i] == second[i] by {
            assert(first.skip(3)[i - 3] == second.skip(3)[i - 3]);
        }
    }
    assert(first =~= second);
}

} // verus!
