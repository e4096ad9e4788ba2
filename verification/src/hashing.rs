//! SHA-256, which the `sha2` crate computes.

use vstd::prelude::*;

verus! {

/// The SHA-256 digest of `data`, written as lower-case hexadecimal text.
pub uninterp spec fn sha256_hex_of(data: Seq<u8>) -> Seq<char>;

/// Hashes `data` with `Sha256::digest` of the `sha2` crate and writes the
/// digest in lower-case hexadecimal. The digest depends on the bytes alone.
#[verifier::external_body]
pub(crate) fn sha256_hex(data: &[u8]) -> (r: String)
    ensures
        r@ == sha256_hex_of(data@),
{
    format!("{:x}", <sha2::Sha256 as sha2::Digest>::digest(data))
}

} // verus!
