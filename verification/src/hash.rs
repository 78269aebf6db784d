//! Content hashes.

use sha2::Digest;
use vstd::prelude::*;

verus! {

/// The SHA-256 of some bytes, in lower-case hexadecimal.
pub uninterp spec fn sha256_hex(bytes: Seq<u8>) -> Seq<char>;

/// Whether a text could be a SHA-256: sixty-four lower-case hexadecimal
/// digits.
pub open spec fn is_sha256(s: Seq<char>) -> bool {
    &&& s.len() == 64
    &&& forall|i: int|
        0 <= i < s.len() ==> ('0' <= #[trigger] s[i] <= '9' || 'a' <= s[i] <= 'f')
}

/// The SHA-256 of some bytes.
///
/// Trusted: `sha2::Sha256::digest`, written with `{:x}`. The digest depends on
/// the bytes alone, and its 32 bytes become two lower-case digits each.
#[verifier::external_body]
pub fn hash_bytes(bytes: &[u8]) -> (r: String)
    ensures
        r@ == sha256_hex(bytes@),
        is_sha256(r@),
{
    format!("{:x}", sha2::Sha256::digest(bytes))
}

} // verus!
