//! Digests and the identifiers made of them.
use vstd::prelude::*;

verus! {

/// A digest of 32 bytes, held as its two halves, each read big end first.
#[derive(Clone, Copy, PartialEq, Eq, Structural, Debug, Hash)]
pub struct CryptoHash {
    pub hi: u128,
    pub lo: u128,
}

/// The digest whose bytes are all zero. No block and no chunk has it; as the
/// hash of a previous block it marks genesis.
pub open spec fn zero_hash() -> CryptoHash {
    CryptoHash { hi: 0, lo: 0 }
}

impl Default for CryptoHash {
    fn default() -> (r: Self)
        ensures
            r == zero_hash(),
    {
        CryptoHash { hi: 0, lo: 0 }
    }
}

/// The hash of a chunk header.
#[derive(Clone, Copy, PartialEq, Eq, Structural, Debug, Hash)]
pub struct ChunkHash(pub CryptoHash);

/// The identifier of an epoch.
#[derive(Clone, Copy, PartialEq, Eq, Structural, Debug, Hash)]
pub struct EpochId(pub CryptoHash);

/// The digest that `near_primitives::hash::hash` gives for these bytes.
pub uninterp spec fn digest(bytes: Seq<u8>) -> CryptoHash;

/// Calls `near_primitives::hash::hash`. Its result depends on the bytes alone
/// and is called `digest` of them.
#[verifier::external_body]
pub(crate) fn hash(bytes: &Vec<u8>) -> (r: CryptoHash)
    ensures
        r == digest(bytes@),
{
    let found: [u8; 32] = near_primitives::hash::hash(bytes).0;
    CryptoHash {
        hi: u128::from_be_bytes(found[..16].try_into().unwrap()),
        lo: u128::from_be_bytes(found[16..].try_into().unwrap()),
    }
}

} // verus!
