//! Fingerprints of contents.
use crate::text::is_digit;
use sha2::Digest;
use vstd::prelude::*;

verus! {

/// The SHA-256 digest of some bytes, in hexadecimal notation.
pub uninterp spec fn sha256_hex(bytes: Seq<u8>) -> Seq<char>;

/// Whether all characters are hexadecimal digits in lower case.
pub open spec fn is_hex(s: Seq<char>) -> bool {
    forall|i: int| 0 <= i < s.len() ==> is_digit(#[trigger] s[i]) || 'a' <= s[i] <= 'f'
}

/// `sha2::Sha256::digest`, written out by `LowerHex`. The result depends on the bytes alone; it
/// is the digest of 32 bytes in 64 hexadecimal digits.
#[verifier::external_body]
pub(crate) fn digest_hex(bytes: &[u8]) -> (r: String)
    ensures
        r@ == sha256_hex(bytes@),
        r@.len() == 64,
        is_hex(r@),
{
    format!("{:x}", sha2::Sha256::digest(bytes))
}

} // verus!
