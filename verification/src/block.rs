//! Blocks, chunk headers and shards, as far as chunk execution reads them.
use vstd::prelude::*;
use crate::error::Error;
use crate::hash::{zero_hash, ChunkHash, CryptoHash, EpochId};

verus! {

/// The name of an account.
#[derive(Debug)]
pub struct AccountId(pub String);

impl AccountId {
    /// Whether two names are the same.
    pub fn same(&self, other: &AccountId) -> (r: bool)
        ensures
            r == (self.0@ == other.0@),
    {
        self.0 == other.0
    }
}

/// A shard together with the version of the layout that it belongs to.
#[derive(Clone, Copy, PartialEq, Eq, Structural, Debug, Hash)]
pub struct ShardUId {
    pub version: u32,
    pub shard_id: u32,
}

/// The order in which the shards of an epoch stand in a block.
#[derive(Debug)]
pub enum ShardLayout {
    /// The identifier of a shard is its index.
    Numbered { num_shards: u64 },
    /// The shards have these identifiers, in the order of their indices.
    Listed { shard_ids: Vec<u64> },
}

impl ShardLayout {
    /// The identifier of the shard at an index.
    pub open spec fn shard_id_at(self, shard_index: u64) -> Result<u64, Error> {
        match self {
            ShardLayout::Numbered { num_shards } => if shard_index < num_shards {
                Ok(shard_index)
            } else {
                Err(Error::InvalidShardIndex(shard_index))
            },
            ShardLayout::Listed { shard_ids } => if shard_index < shard_ids@.len() {
                Ok(shard_ids@[shard_index as int])
            } else {
                Err(Error::InvalidShardIndex(shard_index))
            },
        }
    }

    /// The index of a shard. Where the shards are numbered it is the
    /// identifier itself, whether or not there are so many shards.
    pub open spec fn shard_index_of(self, shard_id: u64) -> Result<u64, Error> {
        match self {
            ShardLayout::Numbered { .. } => Ok(shard_id),
            ShardLayout::Listed { shard_ids } => if shard_ids@.contains(shard_id) {
                Ok(first_place(shard_ids@, shard_id) as u64)
            } else {
                Err(Error::InvalidShardId(shard_id))
            },
        }
    }

    /// The identifier of the shard at an index.
    pub fn get_shard_id(&self, shard_index: u64) -> (r: Result<u64, Error>)
        ensures
            r == self.shard_id_at(shard_index),
    {
        match self {
            ShardLayout::Numbered { num_shards } => {
                if shard_index < *num_shards {
                    Ok(shard_index)
                } else {
                    Err(Error::InvalidShardIndex(shard_index))
                }
            },
            ShardLayout::Listed { shard_ids } => {
                if shard_index < shard_ids.len() as u64 {
                    Ok(shard_ids[shard_index as usize])
                } else {
                    Err(Error::InvalidShardIndex(shard_index))
                }
            },
        }
    }

    /// The index of a shard.
    pub fn get_shard_index(&self, shard_id: u64) -> (r: Result<u64, Error>)
        ensures
            r == self.shard_index_of(shard_id),
    {
        match self {
            ShardLayout::Numbered { num_shards: _ } => Ok(shard_id),
            ShardLayout::Listed { shard_ids } => {
                let mut i: usize = 0;
                while i < shard_ids.len()
                    invariant
                        i <= shard_ids.len(),
                        *self == (ShardLayout::Listed { shard_ids: *shard_ids }),
                        forall|j: int| 0 <= j < i ==> shard_ids@[j] != shard_id,
                    decreases shard_ids.len() - i,
                {
                    if shard_ids[i] == shard_id {
                        proof {
                            lemma_first_place(shard_ids@, shard_id, i as int);
                        }
                        return Ok(i as u64);
                    }
                    i = i + 1;
                }
                Err(Error::InvalidShardId(shard_id))
            },
        }
    }
}

/// The first place at which a number stands in a list that holds it.
pub open spec fn first_place(s: Seq<u64>, x: u64) -> int {
    choose|i: int| 0 <= i < s.len() && s[i] == x && forall|j: int| 0 <= j < i ==> s[j] != x
}

proof fn lemma_first_place(s: Seq<u64>, x: u64, i: int)
    requires
        0 <= i < s.len(),
        s[i] == x,
        forall|j: int| 0 <= j < i ==> s[j] != x,
    ensures
        first_place(s, x) == i,
        s.contains(x),
{
    let k = first_place(s, x);
    assert(0 <= k < s.len() && s[k] == x && forall|j: int| 0 <= j < k ==> s[j] != x);
}

/// How congested a shard was after a block.
#[derive(Clone, Copy, PartialEq, Eq, Structural, Debug)]
pub struct CongestionInfo {
    pub delayed_receipts_gas: u128,
    pub buffered_receipts_gas: u128,
    pub receipt_bytes: u64,
    pub allowed_shard: u16,
}

/// What the execution of a chunk leaves behind for the next chunk of its shard.
#[derive(Debug)]
pub struct ChunkExtra {
    /// The state root after the execution.
    pub state_root: CryptoHash,
    /// The whole of it, encoded.
    pub encoded: Vec<u8>,
}

/// The header of a chunk.
#[derive(Debug)]
pub struct ShardChunkHeader {
    pub chunk_hash: ChunkHash,
    pub prev_block_hash: CryptoHash,
    pub shard_id: u64,
    pub height_created: u64,
    /// The height of the block in which the chunk was new.
    pub height_included: u64,
    /// The merkle root of the transactions of the chunk.
    pub tx_root: CryptoHash,
    /// The whole header, signature and all, in its borsh encoding.
    pub encoded: Vec<u8>,
}

/// Whether the header with this encoding decodes and is of a version that the
/// protocol version allows.
pub uninterp spec fn header_version_allowed(encoded: Seq<u8>, protocol_version: u32) -> bool;

/// Calls `near_primitives::sharding::ShardChunkHeader::validate_version` on the
/// header that the bytes decode to. Whether it reports no error depends on the
/// bytes and the protocol version alone, and is called
/// `header_version_allowed`; bytes that do not decode count as not allowed.
#[verifier::external_body]
fn validate_encoded_version(encoded: &Vec<u8>, protocol_version: u32) -> (r: bool)
    ensures
        r == header_version_allowed(encoded@, protocol_version),
{
    match borsh::from_slice::<near_primitives::sharding::ShardChunkHeader>(encoded) {
        Ok(header) => header.validate_version(protocol_version).is_ok(),
        Err(_) => false,
    }
}

impl ShardChunkHeader {
    /// Two headers are the same if their encodings are, and all that is read
    /// from them.
    pub open spec fn spec_same(&self, other: &ShardChunkHeader) -> bool {
        &&& self.encoded@ == other.encoded@
        &&& self.chunk_hash == other.chunk_hash
        &&& self.prev_block_hash == other.prev_block_hash
        &&& self.shard_id == other.shard_id
        &&& self.height_created == other.height_created
        &&& self.height_included == other.height_included
        &&& self.tx_root == other.tx_root
    }

    /// Two headers are the same if their encodings are, and all that is read
    /// from them.
    #[verifier::when_used_as_spec(spec_same)]
    pub fn same(&self, other: &ShardChunkHeader) -> (r: bool)
        ensures
            r == self.same(other),
    {
        let same_encoding: bool = self.encoded == other.encoded;
        proof {
            if same_encoding {
                assert(self.encoded@ =~= other.encoded@);
            }
        }
        same_encoding && self.chunk_hash == other.chunk_hash && self.prev_block_hash
            == other.prev_block_hash && self.shard_id == other.shard_id && self.height_created
            == other.height_created && self.height_included == other.height_included
            && self.tx_root == other.tx_root
    }

    /// Whether the chunk stands in the genesis block.
    pub open spec fn spec_is_genesis(&self) -> bool {
        self.prev_block_hash == zero_hash()
    }

    /// Whether the chunk stands in the genesis block.
    #[verifier::when_used_as_spec(spec_is_genesis)]
    pub fn is_genesis(&self) -> (r: bool)
        ensures
            r == self.is_genesis(),
    {
        self.prev_block_hash == CryptoHash { hi: 0, lo: 0 }
    }

    /// Whether the chunk is new in the block of this height.
    pub open spec fn spec_is_new_chunk(&self, block_height: u64) -> bool {
        self.height_included == block_height
    }

    /// Whether the chunk is new in the block of this height.
    #[verifier::when_used_as_spec(spec_is_new_chunk)]
    pub fn is_new_chunk(&self, block_height: u64) -> (r: bool)
        ensures
            r == self.is_new_chunk(block_height),
    {
        self.height_included == block_height
    }

    /// What [`ShardChunkHeader::validate_version`] returns.
    pub open spec fn version_check(&self, protocol_version: u32) -> Result<(), Error> {
        if header_version_allowed(self.encoded@, protocol_version) {
            Ok(())
        } else {
            Err(Error::HeaderVersion { chunk_hash: self.chunk_hash, protocol_version })
        }
    }

    /// Refuses a header of a version that the protocol version does not allow.
    pub fn validate_version(&self, protocol_version: u32) -> (r: Result<(), Error>)
        ensures
            r == self.version_check(protocol_version),
    {
        if validate_encoded_version(&self.encoded, protocol_version) {
            Ok(())
        } else {
            Err(Error::HeaderVersion { chunk_hash: self.chunk_hash, protocol_version })
        }
    }
}

/// The header of a block.
#[derive(Clone, Copy, PartialEq, Eq, Structural, Debug)]
pub struct BlockHeader {
    pub hash: CryptoHash,
    pub prev_hash: CryptoHash,
    pub epoch_id: EpochId,
    pub height: u64,
}

impl BlockHeader {
    /// Whether this is the genesis block.
    pub open spec fn spec_is_genesis(&self) -> bool {
        self.prev_hash == zero_hash()
    }

    /// Whether this is the genesis block.
    #[verifier::when_used_as_spec(spec_is_genesis)]
    pub fn is_genesis(&self) -> (r: bool)
        ensures
            r == self.is_genesis(),
    {
        self.prev_hash == CryptoHash { hi: 0, lo: 0 }
    }
}

/// A block.
#[derive(Debug)]
pub struct Block {
    pub header: BlockHeader,
    /// One header per shard, in the order of the shard indices. Where the
    /// block brings no new chunk of a shard, the last one stands here again.
    pub chunks: Vec<ShardChunkHeader>,
    /// The congestion of the shards, as the block states it.
    pub congestion_info: Vec<(u64, CongestionInfo)>,
}

/// The first entry of a shard in a congestion list.
pub open spec fn congestion_in(list: Seq<(u64, CongestionInfo)>, shard_id: u64) -> Option<
    CongestionInfo,
>
    decreases list.len(),
{
    if list.len() == 0 {
        None
    } else if list[0].0 == shard_id {
        Some(list[0].1)
    } else {
        congestion_in(list.skip(1), shard_id)
    }
}

impl Block {
    /// The chunk header at a shard index.
    pub open spec fn chunk_at(self, shard_index: u64) -> Option<ShardChunkHeader> {
        if shard_index < self.chunks@.len() {
            Some(self.chunks@[shard_index as int])
        } else {
            None
        }
    }

    /// The chunk header at a shard index, for a shard that is then reported
    /// as unknown if there is none.
    pub open spec fn chunk_of(self, shard_index: u64, shard_id: u64) -> Result<
        ShardChunkHeader,
        Error,
    > {
        match self.chunk_at(shard_index) {
            Some(header) => Ok(header),
            None => Err(Error::InvalidShardId(shard_id)),
        }
    }

    /// The chunk header at a shard index, for a shard that is then reported
    /// as unknown if there is none.
    pub fn chunk(&self, shard_index: u64, shard_id: u64) -> (r: Result<&ShardChunkHeader, Error>)
        ensures
            match r {
                Ok(header) => self.chunk_of(shard_index, shard_id) == Ok::<
                    ShardChunkHeader,
                    Error,
                >(*header),
                Err(e) => self.chunk_of(shard_index, shard_id) == Err::<ShardChunkHeader, Error>(e),
            },
    {
        if shard_index < self.chunks.len() as u64 {
            Ok(&self.chunks[shard_index as usize])
        } else {
            Err(Error::InvalidShardId(shard_id))
        }
    }

    /// Whether a chunk header stands in the block.
    pub open spec fn spec_contains(&self, header: &ShardChunkHeader) -> bool {
        exists|i: int| 0 <= i < self.chunks@.len() && (#[trigger] self.chunks@[i]).same(header)
    }

    /// Whether a chunk header stands in the block.
    #[verifier::when_used_as_spec(spec_contains)]
    pub fn contains(&self, header: &ShardChunkHeader) -> (r: bool)
        ensures
            r == self.contains(header),
    {
        let mut i: usize = 0;
        while i < self.chunks.len()
            invariant
                i <= self.chunks.len(),
                forall|j: int| 0 <= j < i ==> !(#[trigger] self.chunks@[j]).same(header),
            decreases self.chunks.len() - i,
        {
            if self.chunks[i].same(header) {
                return true;
            }
            i = i + 1;
        }
        false
    }

    /// The congestion of a shard, as the block states it.
    pub fn congestion(&self, shard_id: u64) -> (r: Option<CongestionInfo>)
        ensures
            r == congestion_in(self.congestion_info@, shard_id),
    {
        let mut i: usize = 0;
        assert(self.congestion_info@.skip(0) =~= self.congestion_info@);
        while i < self.congestion_info.len()
            invariant
                i <= self.congestion_info.len(),
                congestion_in(self.congestion_info@, shard_id) == congestion_in(
                    self.congestion_info@.skip(i as int),
                    shard_id,
                ),
            decreases self.congestion_info.len() - i,
        {
            if self.congestion_info[i].0 == shard_id {
                return Some(self.congestion_info[i].1);
            }
            assert(self.congestion_info@.skip(i as int).skip(1) =~= self.congestion_info@.skip(
                i + 1,
            ));
            i = i + 1;
        }
        None
    }
}

} // verus!
