//! SHA-256 digests of text, as lowercase hexadecimal.
use vstd::prelude::*;

use crate::cli::is_lower_hex;

verus! {

/// The lowercase hexadecimal SHA-256 digest of the UTF-8 bytes of `text`.
pub uninterp spec fn sha256_hex(text: Seq<char>) -> Seq<char>;

/// Calls `sha2::Sha256::digest` on the UTF-8 bytes of `text` and formats
/// the 32-byte digest with `{:x}` (generic-array's `LowerHex`).  Claimed:
/// the result is the named digest of the text, 64 characters long, each a
/// lowercase hexadecimal digit.
#[verifier::external_body]
pub(crate) fn sha256_hex_of(text: &str) -> (result: String)
    ensures
        result@ == sha256_hex(text@),
        result@.len() == 64,
        forall|i: int| 0 <= i < result@.len() ==> is_lower_hex(#[trigger] result@[i]),
{
    format!("{:x}", <sha2::Sha256 as sha2::Digest>::digest(text.as_bytes()))
}

} // verus!
