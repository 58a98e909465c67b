//! What the headers, blocks and layouts tell.
use vstd::prelude::*;
use crate::block::{
    congestion_in, header_version_allowed, Block, BlockHeader, CongestionInfo, ShardChunkHeader,
    ShardLayout,
};
use crate::data_distribution::SpiceDataIdentifier;
use crate::error::Error;
use crate::hash::{zero_hash, CryptoHash};

verus! {

/// A block, or a chunk, is that of genesis if all bytes of the hash of what comes
/// before it are zero.
pub proof fn genesis_follows_nothing(block: &BlockHeader, chunk: &ShardChunkHeader)
    ensures
        block.is_genesis() <==> block.prev_hash.hi == 0 && block.prev_hash.lo == 0,
        chunk.is_genesis() <==> chunk.prev_block_hash.hi == 0 && chunk.prev_block_hash.lo == 0,
        zero_hash().hi == 0 && zero_hash().lo == 0,
{
}

/// A chunk is new in the block at whose height it was included, and in no other.
pub proof fn chunk_is_new_where_it_was_included(chunk: &ShardChunkHeader, height: u64)
    ensures
        chunk.is_new_chunk(height) <==> chunk.height_included == height,
{
}

/// A header is accepted under a protocol version if and only if its version is
/// allowed under it; a refusal names the chunk and the protocol version.
pub proof fn header_version_is_checked(chunk: &ShardChunkHeader, protocol_version: u32)
    ensures
        chunk.version_check(protocol_version) is Ok <==> header_version_allowed(
            chunk.encoded@,
            protocol_version,
        ),
        chunk.version_check(protocol_version) matches Err(e) ==> e == (Error::HeaderVersion {
            chunk_hash: chunk.chunk_hash,
            protocol_version,
        }),
{
}

/// All that a header holds.
pub open spec fn parts_of(chunk: ShardChunkHeader) -> (
    Seq<u8>,
    CryptoHash,
    CryptoHash,
    u64,
    u64,
    u64,
    CryptoHash,
) {
    (
        chunk.encoded@,
        chunk.chunk_hash.0,
        chunk.prev_block_hash,
        chunk.shard_id,
        chunk.height_created,
        chunk.height_included,
        chunk.tx_root,
    )
}

/// A header stands in a block if and only if one of the headers of the block is
/// equal to it in every part.
pub proof fn block_contains_its_headers(block: &Block, chunk: &ShardChunkHeader)
    ensures
        block.contains(chunk) <==> exists|i: int|
            0 <= i < block.chunks@.len() && parts_of(#[trigger] block.chunks@[i]) == parts_of(
                *chunk,
            ),
{
    if block.contains(chunk) {
        let i = choose|i: int|
            0 <= i < block.chunks@.len() && (#[trigger] block.chunks@[i]).same(chunk);
        assert(parts_of(block.chunks@[i]) == parts_of(*chunk));
    }
    if exists|i: int|
        0 <= i < block.chunks@.len() && parts_of(#[trigger] block.chunks@[i]) == parts_of(*chunk) {
        let i = choose|i: int|
            0 <= i < block.chunks@.len() && parts_of(#[trigger] block.chunks@[i]) == parts_of(
                *chunk,
            );
        assert(block.chunks@[i].same(chunk));
    }
}

/// The chunk of a shard index is the header that stands there, and where none
/// does the shard is reported as unknown.
pub proof fn chunk_stands_at_its_index(block: Block, shard_index: u64, shard_id: u64)
    ensures
        shard_index < block.chunks@.len() ==> block.chunk_of(shard_index, shard_id) == Ok::<
            ShardChunkHeader,
            Error,
        >(block.chunks@[shard_index as int]),
        shard_index >= block.chunks@.len() ==> block.chunk_of(shard_index, shard_id) == Err::<
            ShardChunkHeader,
            Error,
        >(Error::InvalidShardId(shard_id)),
{
}

/// The identifier of the shard at an index: the index itself where the shards are
/// numbered, and what stands there where they are listed; none beyond the last.
pub proof fn shard_has_its_identifier(layout: ShardLayout, index: u64)
    ensures
        match layout {
            ShardLayout::Numbered { num_shards } => layout.shard_id_at(index) == (if index
                < num_shards {
                Ok::<u64, Error>(index)
            } else {
                Err(Error::InvalidShardIndex(index))
            }),
            ShardLayout::Listed { shard_ids } => layout.shard_id_at(index) == (if index
                < shard_ids@.len() {
                Ok::<u64, Error>(shard_ids@[index as int])
            } else {
                Err(Error::InvalidShardIndex(index))
            }),
        },
{
}

/// The index of a shard: its identifier where the shards are numbered, and the
/// first place at which it stands where they are listed; a shard that is not
/// listed is reported as unknown.
pub proof fn shard_has_its_index(layout: ShardLayout, shard_id: u64)
    requires
        layout matches ShardLayout::Listed { shard_ids } ==> shard_ids@.len() <= u64::MAX,
    ensures
        match (layout, layout.shard_index_of(shard_id)) {
            (ShardLayout::Numbered { .. }, found) => found == Ok::<u64, Error>(shard_id),
            (ShardLayout::Listed { shard_ids }, Ok(index)) => index < shard_ids@.len()
                && shard_ids@[index as int] == shard_id && (forall|j: int|
                0 <= j < index ==> shard_ids@[j] != shard_id),
            (ShardLayout::Listed { shard_ids }, Err(e)) => !shard_ids@.contains(shard_id) && e
                == Error::InvalidShardId(shard_id),
        },
{
    if let ShardLayout::Listed { shard_ids } = layout {
        let s = shard_ids@;
        if s.contains(shard_id) {
            let k = choose|k: int| 0 <= k < s.len() && s[k] == shard_id;
            lemma_first_exists(s, shard_id, k);
        }
    }
}

proof fn lemma_first_exists(s: Seq<u64>, x: u64, k: int)
    requires
        0 <= k < s.len(),
        s[k] == x,
    ensures
        exists|i: int| 0 <= i < s.len() && s[i] == x && forall|j: int| 0 <= j < i ==> s[j] != x,
    decreases k,
{
    if exists|j: int| 0 <= j < k && s[j] == x {
        let j = choose|j: int| 0 <= j < k && s[j] == x;
        lemma_first_exists(s, x, j);
    }
}

/// The congestion of a shard is that of the first entry of the shard, and there is
/// none without an entry.
pub proof fn congestion_is_of_the_shard(list: Seq<(u64, CongestionInfo)>, shard_id: u64)
    ensures
        match congestion_in(list, shard_id) {
            Some(info) => exists|i: int|
                0 <= i < list.len() && #[trigger] list[i] == (shard_id, info) && forall|j: int|
                    0 <= j < i ==> (#[trigger] list[j]).0 != shard_id,
            None => forall|i: int| 0 <= i < list.len() ==> (#[trigger] list[i]).0 != shard_id,
        },
    decreases list.len(),
{
    if list.len() > 0 && list[0].0 != shard_id {
        let rest = list.skip(1);
        congestion_is_of_the_shard(rest, shard_id);
        match congestion_in(rest, shard_id) {
            Some(info) => {
                let i = choose|i: int|
                    0 <= i < rest.len() && #[trigger] rest[i] == (shard_id, info) && forall|j: int|
                        0 <= j < i ==> (#[trigger] rest[j]).0 != shard_id;
                assert(list[i + 1] == (shard_id, info));
                assert forall|j: int| 0 <= j < i + 1 implies (#[trigger] list[j]).0
                    != shard_id by {
                    if j > 0 {
                        assert(rest[j - 1] == list[j]);
                    }
                }
            },
            None => {
                assert forall|i: int| 0 <= i < list.len() implies (#[trigger] list[i]).0
                    != shard_id by {
                    if i > 0 {
                        assert(rest[i - 1] == list[i]);
                    }
                }
            },
        }
    } else if list.len() > 0 {
        assert(list[0] == (shard_id, list[0].1));
    }
}

/// Data belongs to the block that its identifier names.
pub proof fn data_names_its_block(
    block_hash: CryptoHash,
    from_shard_id: u64,
    to_shard_id: u64,
    shard_id: u64,
)
    ensures
        (SpiceDataIdentifier::ReceiptProof { block_hash, from_shard_id, to_shard_id }).of_block()
            == block_hash,
        (SpiceDataIdentifier::Witness { block_hash, shard_id }).of_block() == block_hash,
{
}

} // verus!
