//! EVM words: Keccak-256 hashing and 256-bit arithmetic, through `alloy-primitives`.

use vstd::prelude::*;

use crate::pipeline::pow256;
use crate::primitives::Word;

verus! {

/// Keccak-256 digest of `data`, as `alloy_primitives::keccak256` computes it.
pub uninterp spec fn keccak256_digest(data: Seq<u8>) -> Seq<u8>;

/// The 32-byte big-endian encoding of `n` modulo 2^256.
pub open spec fn word_bytes(n: nat) -> Seq<u8> {
    Seq::new(32, |i: int| ((n / pow256((31 - i) as nat)) % 256) as u8)
}

/// Calls `alloy_primitives::keccak256`. The digest is a function of `data`
/// alone, named `keccak256_digest`; nothing else is claimed of it.
#[verifier::external_body]
pub fn keccak256(data: &[u8]) -> (h: Word)
    ensures
        h@ == keccak256_digest(data@),
{
    alloy_primitives::keccak256(data).0
}

/// Calls `alloy_primitives::U256::from(x).to_be_bytes::<32>()`: the
/// big-endian 32-byte encoding of `x`.
#[verifier::external_body]
pub fn word_from_u128(x: u128) -> (w: Word)
    ensures
        w@ == word_bytes(x as nat),
{
    alloy_primitives::U256::from(x).to_be_bytes::<32>()
}

/// Calls `U256::from_be_bytes(a) + U256::from(b)` of `alloy_primitives`,
/// which wraps around at 2^256, and returns the big-endian bytes of the sum.
#[verifier::external_body]
pub fn word_add(a: &Word, b: u64) -> (w: Word)
    ensures
        w@ == word_bytes((crate::pipeline::be_value(a@) + b) as nat),
{
    (alloy_primitives::U256::from_be_bytes(*a) + alloy_primitives::U256::from(b)).to_be_bytes::<32>()
}

} // verus!
