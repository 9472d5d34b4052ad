//! The fetch-hash worker's computational half: an incremental SHA-256
//! accumulator over the streamed bytes, and the formatting of a finished
//! digest as a checksum token.  The byte transfer itself belongs to the
//! caller, which feeds each received chunk here.

use vstd::prelude::*;

use sha2::Digest;

use crate::detect::good_token;
use crate::text::is_ws;

verus! {

/// The SHA-256 digest of a byte sequence.  The algorithm is the outside
/// crate's affair; the contracts only rely on the digest being a function
/// of the input bytes, 32 bytes long.
pub uninterp spec fn sha256_of(data: Seq<u8>) -> Seq<u8>;

/// Holds the outside crate's incremental SHA-256 state, opaque to the
/// verifier.  (The state's own type is a deep stack of generic wrappers
/// that cannot be declared one by one.)
#[verifier::external_body]
struct Sha256Inner {
    state: sha2::Sha256,
}

/// An incremental SHA-256 accumulator; its view is the byte sequence fed
/// so far.
pub struct Sha256Hasher {
    inner: Sha256Inner,
    fed: Ghost<Seq<u8>>,
}

impl View for Sha256Hasher {
    type V = Seq<u8>;

    closed spec fn view(&self) -> Seq<u8> {
        self.fed@
    }
}

/// Relies on `sha2::Sha256::new` for the hash state of the empty message;
/// nothing is claimed of the opaque state itself.
#[verifier::external_body]
fn sha256_new_inner() -> Sha256Inner {
    Sha256Inner { state: sha2::Sha256::new() }
}

/// Relies on `sha2::Sha256::update` absorbing exactly the given bytes;
/// nothing is claimed of the opaque state itself.
#[verifier::external_body]
fn sha256_update_inner(h: &mut Sha256Inner, chunk: &[u8]) {
    h.state.update(chunk);
}

impl Sha256Hasher {
    /// A fresh accumulator over no bytes.
    pub fn new() -> (r: Sha256Hasher)
        ensures
            r@ == Seq::<u8>::empty(),
    {
        Sha256Hasher { inner: sha256_new_inner(), fed: Ghost(Seq::empty()) }
    }

    /// Feeds one received chunk.
    pub fn update(&mut self, chunk: &[u8])
        ensures
            final(self)@ == old(self)@ + chunk@,
    {
        sha256_update_inner(&mut self.inner, chunk);
        self.fed = Ghost(self.fed@ + chunk@);
    }

    /// Finishes the hash.
    ///
    /// Relies on `sha2::Sha256::finalize` returning the 32-byte SHA-256
    /// digest of exactly the bytes fed since `new`, which the verified
    /// `new` and `update` mirror in the accumulator's view.
    #[verifier::external_body]
    pub fn finalize(self) -> (r: Vec<u8>)
        ensures
            r@ == sha256_of(self@),
            r@.len() == 32,
    {
        self.inner.state.finalize().to_vec()
    }
}

/// The lowercase hexadecimal digits.
pub const HEX_LOWER: [char; 16] = [
    '0',
    '1',
    '2',
    '3',
    '4',
    '5',
    '6',
    '7',
    '8',
    '9',
    'a',
    'b',
    'c',
    'd',
    'e',
    'f',
];

/// The lowercase hexadecimal encoding of a byte sequence: two digits per
/// byte, high nibble first.
pub closed spec fn hex_of(data: Seq<u8>) -> Seq<char>
    decreases data.len(),
{
    if data.len() == 0 {
        seq![]
    } else {
        seq![
            HEX_LOWER@[(data.first() >> 4) as int],
            HEX_LOWER@[(data.first() & 0x0f) as int],
        ] + hex_of(data.drop_first())
    }
}

/// Relies on `faster_hex::hex_string`: each byte becomes two lowercase hex
/// digits, high nibble first, in byte order.
#[verifier::external_body]
fn hex_lower(data: &Vec<u8>) -> (r: String)
    ensures
        r@ == hex_of(data@),
{
    faster_hex::hex_string(data)
}

/// Formats a finished digest as the checksum token stored in the recipe:
/// the algorithm tag, a double colon, and the lowercase hex digest.
pub fn checksum_string(digest: &Vec<u8>) -> (r: String)
    ensures
        r@ == "sha256::"@ + hex_of(digest@),
{
    let mut s = String::from_str("sha256::");
    let hex = hex_lower(digest);
    s.append(hex.as_str());
    s
}


/// No hexadecimal digit is whitespace.
proof fn lemma_hex_of_no_ws(data: Seq<u8>)
    ensures
        forall|i: int| 0 <= i < hex_of(data).len() ==> !is_ws(hex_of(data)[i]),
    decreases data.len(),
{
    if data.len() > 0 {
        let b = data.first();
        assert(0 <= (b >> 4) < 16 && 0 <= (b & 0x0f) < 16) by (bit_vector);
        lemma_hex_of_no_ws(data.drop_first());
        assert(forall|k: int| 0 <= k < 16 ==> !is_ws(HEX_LOWER@[k]));
        assert forall|i: int| 0 <= i < hex_of(data).len() implies !is_ws(hex_of(data)[i]) by {
            if i == 0 {
                assert(hex_of(data)[0] == HEX_LOWER@[(b >> 4) as int]);
            } else if i == 1 {
                assert(hex_of(data)[1] == HEX_LOWER@[(b & 0x0f) as int]);
            } else {
                assert(hex_of(data)[i] == hex_of(data.drop_first())[i - 2]);
            }
        }
    }
}

/// Every checksum token the pipeline produces is fit for a checksum field:
/// nonempty and whitespace-free, whether it is `SKIP` or a formatted
/// digest.
pub proof fn lemma_pipeline_tokens_good(digest: Seq<u8>)
    ensures
        good_token("SKIP"@),
        good_token("sha256::"@ + hex_of(digest)),
{
    reveal_strlit("SKIP");
    reveal_strlit("sha256::");
    lemma_hex_of_no_ws(digest);
}

} // verus!
