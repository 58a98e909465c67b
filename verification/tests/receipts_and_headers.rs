use near_primitives::hash::CryptoHash as NearHash;
use near_primitives::receipt::{Receipt as NearReceipt, ReceiptPriority};
use near_primitives::sharding::{
    ReceiptList, ShardChunkHeader as NearHeader, ShardChunkHeaderV2 as NearHeaderV2,
};
use spice::block::{
    AccountId, Block, BlockHeader, CongestionInfo, ShardChunkHeader, ShardLayout,
};
use spice::error::Error;
use spice::hash::{ChunkHash, CryptoHash, EpochId};
use spice::receipts::{
    collect_receipts, each_of, hash_receipts, Direction, MerklePathItem, Receipt, ReceiptProof,
    ShardProof, SignedTransaction,
};

fn h(n: u128) -> CryptoHash {
    CryptoHash { hi: 7, lo: n }
}

fn from_near(hash: NearHash) -> CryptoHash {
    CryptoHash {
        hi: u128::from_be_bytes(hash.0[..16].try_into().unwrap()),
        lo: u128::from_be_bytes(hash.0[16..].try_into().unwrap()),
    }
}

fn near_receipt(amount: u128) -> NearReceipt {
    NearReceipt::new_balance_refund(
        &"alice.near".parse().unwrap(),
        amount,
        ReceiptPriority::NoPriority,
    )
}

fn receipt(amount: u128) -> Receipt {
    Receipt::decode(borsh::to_vec(&near_receipt(amount)).unwrap()).unwrap()
}

fn transaction_bytes(base: CryptoHash) -> Vec<u8> {
    let mut bytes = Vec::new();
    bytes.extend(4u32.to_le_bytes());
    bytes.extend(b"near");
    bytes.push(0);
    bytes.extend([1u8; 32]);
    bytes.extend(9u64.to_le_bytes());
    bytes.extend(3u32.to_le_bytes());
    bytes.extend(b"bob");
    bytes.extend(base.hi.to_be_bytes());
    bytes.extend(base.lo.to_be_bytes());
    bytes.extend(0u32.to_le_bytes());
    bytes.push(0);
    bytes.extend([0u8; 64]);
    bytes
}

fn header(encoded: Vec<u8>, prev: CryptoHash, included: u64) -> ShardChunkHeader {
    ShardChunkHeader {
        chunk_hash: ChunkHash(h(1)),
        prev_block_hash: prev,
        shard_id: 0,
        height_created: included,
        height_included: included,
        tx_root: h(2),
        encoded,
    }
}

#[test]
fn bytes_that_are_no_receipt_are_refused() {
    assert!(Receipt::decode(vec![]).is_none());
    assert!(Receipt::decode(vec![255; 40]).is_none());
    let mut trailing = borsh::to_vec(&near_receipt(3)).unwrap();
    trailing.push(0);
    assert!(Receipt::decode(trailing).is_none());
}

#[test]
fn a_receipt_keeps_its_encoding() {
    let bytes = borsh::to_vec(&near_receipt(3)).unwrap();
    assert_eq!(Receipt::decode(bytes.clone()).unwrap().encoded(), &bytes);
}

#[test]
fn a_transaction_tells_the_block_it_is_based_on() {
    let bytes = transaction_bytes(h(77));
    let transaction = SignedTransaction::decode(bytes.clone()).unwrap();
    assert_eq!(transaction.base_block_hash(), h(77));
    assert_eq!(transaction.encoded(), &bytes);
    assert!(SignedTransaction::decode(vec![1, 2, 3]).is_none());
}

#[test]
fn the_digest_of_receipts_is_that_of_their_list() {
    let receipts = vec![receipt(1), receipt(2)];
    let list = vec![near_receipt(1), near_receipt(2)];
    let expected = from_near(near_primitives::hash::hash(&borsh::to_vec(&list).unwrap()));
    assert_eq!(hash_receipts(&each_of(&receipts)), expected);
}

#[test]
fn the_digest_of_no_receipts_is_that_of_four_zero_bytes() {
    let expected = from_near(near_primitives::hash::hash(&[0, 0, 0, 0]));
    assert_eq!(hash_receipts(&vec![]), expected);
}

#[test]
fn receipts_are_collected_proof_by_proof() {
    let proof = |amounts: Vec<u128>| ReceiptProof {
        receipts: amounts.into_iter().map(receipt).collect(),
        shard_proof: ShardProof { from_shard_id: 0, to_shard_id: 0, proof: vec![] },
    };
    let proofs = vec![proof(vec![1, 2]), proof(vec![]), proof(vec![3])];
    let collected = collect_receipts(&each_of(&proofs));
    let expected = [receipt(1), receipt(2), receipt(3)];
    assert_eq!(collected.len(), 3);
    for (found, wanted) in collected.iter().zip(expected.iter()) {
        assert_eq!(found.encoded(), wanted.encoded());
    }
}

#[test]
fn a_proof_leads_to_the_root_over_its_shard_and_receipts() {
    let digests = [
        NearHash::hash_borsh(ReceiptList(0.into(), &[near_receipt(1)])),
        NearHash::hash_borsh(ReceiptList(1.into(), &[near_receipt(2)])),
    ];
    let root = from_near(near_primitives::merkle::merklize(&digests).0);
    let left = NearHash::hash_borsh(digests[0]);
    let right = NearHash::hash_borsh(digests[1]);
    let proof_to = |to_shard_id: u64, amount: u128, other: NearHash, direction: Direction| {
        ReceiptProof {
            receipts: vec![receipt(amount)],
            shard_proof: ShardProof {
                from_shard_id: 5,
                to_shard_id,
                proof: vec![MerklePathItem { hash: from_near(other), direction }],
            },
        }
    };
    assert!(proof_to(0, 1, right, Direction::Right).verify_against_receipt_root(root));
    assert!(proof_to(1, 2, left, Direction::Left).verify_against_receipt_root(root));
    // another side, another shard, another receipt, another root
    assert!(!proof_to(0, 1, right, Direction::Left).verify_against_receipt_root(root));
    assert!(!proof_to(1, 1, right, Direction::Right).verify_against_receipt_root(root));
    assert!(!proof_to(0, 2, right, Direction::Right).verify_against_receipt_root(root));
    assert!(!proof_to(0, 1, right, Direction::Right).verify_against_receipt_root(h(1)));
}

#[test]
fn only_new_header_versions_are_allowed() {
    let new = NearHeader::new_dummy(3, 0.into(), NearHash::default());
    let old = NearHeader::V2(NearHeaderV2::new_dummy(3, 0.into(), NearHash::default()));
    let header_of = |bytes: Vec<u8>| header(bytes, h(3), 3);
    assert_eq!(header_of(borsh::to_vec(&new).unwrap()).validate_version(80), Ok(()));
    let refused = Err(Error::HeaderVersion { chunk_hash: ChunkHash(h(1)), protocol_version: 80 });
    assert_eq!(header_of(borsh::to_vec(&old).unwrap()).validate_version(80), refused);
    assert_eq!(header_of(vec![9]).validate_version(80), refused);
}

#[test]
fn genesis_and_new_chunks_are_told_by_their_headers() {
    assert!(header(vec![1], CryptoHash::default(), 3).is_genesis());
    assert!(!header(vec![1], h(3), 3).is_genesis());
    assert!(header(vec![1], h(3), 3).is_new_chunk(3));
    assert!(!header(vec![1], h(3), 3).is_new_chunk(4));
}

#[test]
fn headers_are_the_same_if_their_encodings_and_fields_are() {
    assert!(header(vec![1, 2], h(3), 3).same(&header(vec![1, 2], h(3), 3)));
    assert!(!header(vec![1, 2], h(3), 3).same(&header(vec![1, 2], h(4), 3)));
    assert!(!header(vec![1, 2], h(3), 3).same(&header(vec![1, 2], h(3), 4)));
    assert!(!header(vec![1, 2], h(3), 3).same(&header(vec![1, 3], h(3), 3)));
    let block = Block {
        header: BlockHeader {
            hash: h(9),
            prev_hash: h(8),
            epoch_id: EpochId(h(7)),
            height: 3,
        },
        chunks: vec![header(vec![1], h(8), 3), header(vec![2], h(8), 2)],
        congestion_info: vec![],
    };
    assert!(block.contains(&header(vec![2], h(8), 2)));
    assert!(!block.contains(&header(vec![2], h(8), 3)));
    assert!(!block.contains(&header(vec![3], h(8), 3)));
    assert!(block.chunk(1, 4).is_ok());
    assert_eq!(block.chunk(2, 4).err(), Some(Error::InvalidShardId(4)));
    assert!(!block.header.is_genesis());
}

#[test]
fn a_listed_layout_has_its_own_identifiers() {
    let layout = ShardLayout::Listed { shard_ids: vec![4, 9, 2] };
    assert_eq!(layout.get_shard_id(1), Ok(9));
    assert_eq!(layout.get_shard_id(3), Err(Error::InvalidShardIndex(3)));
    assert_eq!(layout.get_shard_index(2), Ok(2));
    assert_eq!(layout.get_shard_index(3), Err(Error::InvalidShardId(3)));
}

#[test]
fn a_numbered_layout_takes_the_index_for_the_identifier() {
    let layout = ShardLayout::Numbered { num_shards: 2 };
    assert_eq!(layout.get_shard_id(1), Ok(1));
    assert_eq!(layout.get_shard_id(2), Err(Error::InvalidShardIndex(2)));
    assert_eq!(layout.get_shard_index(5), Ok(5));
}

#[test]
fn the_congestion_of_a_shard_is_looked_up() {
    let info = |n: u64| CongestionInfo {
        delayed_receipts_gas: 0,
        buffered_receipts_gas: 0,
        receipt_bytes: n,
        allowed_shard: 0,
    };
    let block = Block {
        header: BlockHeader { hash: h(9), prev_hash: h(8), epoch_id: EpochId(h(7)), height: 3 },
        chunks: vec![],
        congestion_info: vec![(1, info(10)), (2, info(20))],
    };
    assert_eq!(block.congestion(2), Some(info(20)));
    assert_eq!(block.congestion(3), None);
}

#[test]
fn accounts_are_the_same_if_their_names_are() {
    let name = |s: &str| AccountId(s.to_string());
    assert!(name("a").same(&name("a")));
    assert!(!name("a").same(&name("b")));
}
