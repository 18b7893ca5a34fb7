//! The cryptographic digest behind challenge derivation.
use vstd::prelude::*;
use sha2::{Digest, Sha256};

verus! {

/// The lowercase hexadecimal rendering of the SHA-256 digest of a string's
/// bytes. A pure function of the string's characters alone: equal strings
/// yield the byte-identical digest on every call, which is what keeps the
/// query path and the settlement path in sync.
pub uninterp spec fn sha256_hex_of(s: Seq<char>) -> Seq<char>;

/// Relies on sha2::Sha256::digest, whose 32-byte result depends on the input
/// bytes alone, and on generic-array's LowerHex formatting, which renders each
/// byte as exactly two lowercase hexadecimal digits (so 64 symbols in all).
#[verifier::external_body]
pub(crate) fn sha256_hex(s: &str) -> (r: Vec<char>)
    ensures
        r@ == sha256_hex_of(s@),
        r@.len() == 64,
{
    format!("{:x}", Sha256::digest(s.as_bytes())).chars().collect()
}

} // verus!
