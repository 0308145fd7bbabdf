//! SHA-256 digests of text, reached through the `sha2` crate.

use sha2::Digest;
use vstd::prelude::*;
use crate::text::{hex_lower, hex_string};

verus! {

/// The SHA-256 digest of the UTF-8 encoding of `text`, as `sha2::Sha256` computes it.
pub uninterp spec fn sha256_of(text: Seq<char>) -> Seq<u8>;

/// Hashes the UTF-8 bytes of `text` with `sha2::Sha256::digest`; the digest is
/// given by the name [`sha256_of`] and is 32 bytes long.
#[verifier::external_body]
fn sha256(text: &str) -> (r: Vec<u8>)
    ensures
        r@ == sha256_of(text@),
        r@.len() == 32,
{
    sha2::Sha256::digest(text.as_bytes()).to_vec()
}

/// The SHA-256 digest of `text` in lower-case hexadecimal.
pub open spec fn sha256_hex(text: Seq<char>) -> Seq<char> {
    hex_lower(sha256_of(text))
}

/// The SHA-256 digest of `text` in lower-case hexadecimal (`format!("{:x}", digest)`).
pub fn sha256_hex_of(text: &str) -> (r: String)
    ensures
        r@ == sha256_hex(text@),
{
    let d = sha256(text);
    hex_string(&d)
}

} // verus!
