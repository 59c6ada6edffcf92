//! SHA-224 digests of credentials and their lower-case hexadecimal keys.

use sha2::Digest;
use vstd::prelude::*;
use crate::text::{ascii_string, ascii_text, hex_lower, to_hex_lower};

verus! {

/// The SHA-224 digest of a byte string, as `sha2::Sha224` computes it.
pub uninterp spec fn sha224_digest(data: Seq<u8>) -> Seq<u8>;

/// Calls `sha2::Sha224::digest`. Claimed: the result is the digest of
/// `data` (a function of `data` alone) and is 28 bytes long, the output
/// size of SHA-224.
#[verifier::external_body]
fn sha224(data: &[u8]) -> (digest: Vec<u8>)
    ensures
        digest@ == sha224_digest(data@),
        digest@.len() == 28,
{
    sha2::Sha224::digest(data).to_vec()
}

/// The bytes of the key under which a player is known: the lower-case
/// hexadecimal rendering of the SHA-224 digest of the UTF-8 bytes of the
/// identity followed by the secret.
pub open spec fn key_bytes(id: Seq<char>, secret: Seq<char>) -> Seq<u8> {
    hex_lower(sha224_digest(vstd::utf8::encode_utf8(id + secret)))
}

/// The player key as text.
pub open spec fn player_key(id: Seq<char>, secret: Seq<char>) -> Seq<char> {
    ascii_text(key_bytes(id, secret))
}

pub proof fn lemma_hex_lower_ascii(b: Seq<u8>)
    ensures
        forall|i: int| 0 <= i < hex_lower(b).len() ==> #[trigger] hex_lower(b)[i] < 128,
    decreases b.len(),
{
    if b.len() > 0 {
        lemma_hex_lower_ascii(b.drop_last());
        let h = hex_lower(b.drop_last());
        assert forall|i: int| 0 <= i < hex_lower(b).len() implies #[trigger] hex_lower(b)[i] < 128 by {
            if i < h.len() {
                assert(hex_lower(b)[i] == h[i]);
            }
        }
    }
}

/// A key made from a 28-byte digest has 56 characters, two hexadecimal
/// digits per byte, and every one is ASCII.
pub proof fn lemma_key_shape(id: Seq<char>, secret: Seq<char>)
    requires
        sha224_digest(vstd::utf8::encode_utf8(id + secret)).len() == 28,
    ensures
        key_bytes(id, secret).len() == 56,
        player_key(id, secret).len() == 56,
        forall|i: int| 0 <= i < 56 ==> #[trigger] key_bytes(id, secret)[i] < 128,
{
    let d = sha224_digest(vstd::utf8::encode_utf8(id + secret));
    crate::text::lemma_hex_lower_len(d);
    lemma_hex_lower_ascii(d);
}

/// A key is the lower-case hexadecimal of the SHA-224 digest of the
/// identity followed by the secret: two digits per digest byte, and each
/// pair read back as a hexadecimal number gives that byte.
pub proof fn key_reads_back_as_digest(id: Seq<char>, secret: Seq<char>)
    ensures
        key_bytes(id, secret).len() == 2 * sha224_digest(vstd::utf8::encode_utf8(id + secret)).len(),
        forall|i: int|
            0 <= i < sha224_digest(vstd::utf8::encode_utf8(id + secret)).len() ==> crate::text::hex_value(
                key_bytes(id, secret)[2 * i],
            ) * 16 + crate::text::hex_value(key_bytes(id, secret)[2 * i + 1])
                == #[trigger] sha224_digest(vstd::utf8::encode_utf8(id + secret))[i],
{
    crate::text::hex_lower_reads_back(sha224_digest(vstd::utf8::encode_utf8(id + secret)));
}

/// Computes the key bytes and the key text for an identity and a secret:
/// the secret prefixed with the identity, digested, rendered in hex.
pub fn make_key(id: &String, secret: &String) -> (r: (Vec<u8>, String))
    ensures
        r.0@ == key_bytes(id@, secret@),
        r.1@ == player_key(id@, secret@),
        r.0@.len() == 56,
        sha224_digest(vstd::utf8::encode_utf8(id@ + secret@)).len() == 28,
{
    let mut id_secret = id.clone();
    id_secret.append(secret.as_str());
    let digest = sha224(id_secret.as_str().as_bytes());
    let hex = to_hex_lower(digest.as_slice());
    proof {
        lemma_key_shape(id@, secret@);
    }
    let text = ascii_string(hex.as_slice());
    (hex, text)
}

} // verus!
