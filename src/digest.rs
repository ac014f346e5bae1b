use sha2::{Digest, Sha256};
use vstd::prelude::*;

verus! {

/// The SHA-256 digest of the UTF-8 encoding of a string.
pub uninterp spec fn sha256_of(s: Seq<char>) -> Seq<u8>;

/// Relies on sha2's `Sha256::digest`: a 32-byte digest that depends on the
/// bytes of `s` alone.
#[verifier::external_body]
pub(crate) fn sha256(s: &str) -> (r: Vec<u8>)
    ensures
        r@ == sha256_of(s@),
        r@.len() == 32,
{
    Sha256::digest(s.as_bytes()).to_vec()
}

/// The value of the first eight bytes of `b`, read as a little-endian integer.
pub open spec fn le_u64_of(b: Seq<u8>) -> int
    recommends
        b.len() >= 8,
{
    b[0] + 256 * (b[1] + 256 * (b[2] + 256 * (b[3] + 256 * (b[4] + 256 * (b[5] + 256 * (b[6]
        + 256 * b[7]))))))
}

/// The seed that a passphrase stands for.
pub open spec fn seed_of(key: Seq<char>) -> u64 {
    le_u64_of(sha256_of(key)) as u64
}

/// Derives the 64-bit seed of a passphrase: the first eight bytes of its
/// SHA-256 digest, little-endian.
pub fn key_to_seed(key: &str) -> (r: u64)
    ensures
        r == seed_of(key@),
        r as int == le_u64_of(sha256_of(key@)),
{
    let h = sha256(key);
    let r: u64 = h[0] as u64 + 256 * (h[1] as u64 + 256 * (h[2] as u64 + 256 * (h[3] as u64 + 256
        * (h[4] as u64 + 256 * (h[5] as u64 + 256 * (h[6] as u64 + 256 * h[7] as u64))))));
    r
}

} // verus!
