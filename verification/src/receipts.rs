//! Receipts, transactions and the proofs that they belong to a chunk.
use vstd::prelude::*;
use near_primitives::hash::CryptoHash as NearHash;
use near_primitives::merkle::{
    merklize, Direction as NearDirection, MerklePathItem as NearPathItem,
};
use near_primitives::sharding::{ReceiptProof as NearReceiptProof, ShardProof as NearShardProof};
use crate::hash::{digest, hash, CryptoHash};

verus! {

/// Whether borsh decodes a receipt from these bytes.
pub uninterp spec fn is_receipt(encoded: Seq<u8>) -> bool;

/// Calls `borsh::from_slice` for a `near_primitives::receipt::Receipt`. Whether
/// it gives a receipt depends on the bytes alone and is called `is_receipt`.
#[verifier::external_body]
fn decodes_as_receipt(encoded: &Vec<u8>) -> (r: bool)
    ensures
        r == is_receipt(encoded@),
{
    borsh::from_slice::<near_primitives::receipt::Receipt>(encoded).is_ok()
}

/// A receipt, held in the bytes that borsh decodes it from.
pub struct Receipt {
    encoded: Vec<u8>,
}

impl View for Receipt {
    type V = Seq<u8>;

    closed spec fn view(&self) -> Seq<u8> {
        self.encoded@
    }
}

impl Receipt {
    #[verifier::type_invariant]
    spec fn decodes(&self) -> bool {
        is_receipt(self.encoded@)
    }

    /// The receipt that these bytes decode to, if they do.
    pub fn decode(encoded: Vec<u8>) -> (r: Option<Receipt>)
        ensures
            match r {
                Some(receipt) => is_receipt(encoded@) && receipt@ == encoded@,
                None => !is_receipt(encoded@),
            },
    {
        if decodes_as_receipt(&encoded) {
            Some(Receipt { encoded })
        } else {
            None
        }
    }

    /// The encoding of the receipt.
    pub fn encoded(&self) -> (r: &Vec<u8>)
        ensures
            r@ == self@,
            is_receipt(self@),
    {
        proof {
            use_type_invariant(self);
        }
        &self.encoded
    }
}

/// The side of a merkle path from which a digest is added.
#[derive(Clone, Copy, PartialEq, Eq, Structural, Debug)]
pub enum Direction {
    Left,
    Right,
}

/// A step of a merkle path.
#[derive(Clone, Copy, PartialEq, Eq, Structural, Debug)]
pub struct MerklePathItem {
    pub hash: CryptoHash,
    pub direction: Direction,
}

/// Where receipts come from and go to, and the path from their digest to the
/// outgoing receipts root of the chunk that made them.
pub struct ShardProof {
    pub from_shard_id: u64,
    pub to_shard_id: u64,
    pub proof: Vec<MerklePathItem>,
}

/// The receipts that one chunk sends to one shard, with their proof.
pub struct ReceiptProof {
    pub receipts: Vec<Receipt>,
    pub shard_proof: ShardProof,
}

/// The encodings of receipts.
pub open spec fn encodings(receipts: Seq<Receipt>) -> Seq<Seq<u8>> {
    receipts.map_values(|receipt: Receipt| receipt@)
}

/// The root to which the path leads from the receipts with these encodings, as
/// sent to the shard.
pub uninterp spec fn path_root(
    receipts: Seq<Seq<u8>>,
    to_shard_id: u64,
    path: Seq<MerklePathItem>,
) -> CryptoHash;

/// Calls `near_primitives::sharding::ReceiptProof::verify_against_receipt_root`.
/// It computes a root from the receipts, the shard that they go to and the path,
/// which is called `path_root`, and says whether it is the one given. Every
/// `Receipt` decodes, so that decoding them here does not fail; a list too long
/// for its length to be encoded, on which the call would panic, is left out.
#[verifier::external_body]
fn verify_against_root(proof: &ReceiptProof, root: CryptoHash) -> (r: bool)
    requires
        proof.receipts@.len() <= u32::MAX,
    ensures
        r == (path_root(
            encodings(proof.receipts@),
            proof.shard_proof.to_shard_id,
            proof.shard_proof.proof@,
        ) == root),
{
    let near_hash = |h: &CryptoHash| NearHash(
        [h.hi.to_be_bytes(), h.lo.to_be_bytes()].concat().try_into().unwrap());
    let receipts = proof.receipts.iter().map(|r| borsh::from_slice(&r.encoded).unwrap()).collect();
    let shard = &proof.shard_proof;
    let path = shard.proof.iter().map(|item| NearPathItem {
        hash: near_hash(&item.hash),
        direction: match item.direction {
            Direction::Left => NearDirection::Left,
            Direction::Right => NearDirection::Right,
        },
    }).collect();
    let (from_shard_id, to_shard_id) = (shard.from_shard_id.into(), shard.to_shard_id.into());
    NearReceiptProof(receipts, NearShardProof { from_shard_id, to_shard_id, proof: path })
        .verify_against_receipt_root(near_hash(&root))
}

impl ReceiptProof {
    /// The one outgoing receipts root to which the proof leads.
    pub open spec fn root(&self) -> CryptoHash {
        path_root(
            encodings(self.receipts@),
            self.shard_proof.to_shard_id,
            self.shard_proof.proof@,
        )
    }

    /// Whether the proof leads to an outgoing receipts root.
    pub open spec fn leads_to(&self, root: CryptoHash) -> bool {
        self.root() == root
    }

    /// Whether the proof leads to an outgoing receipts root.
    pub fn verify_against_receipt_root(&self, receipt_root: CryptoHash) -> (r: bool)
        requires
            self.receipts@.len() <= u32::MAX,
        ensures
            r == self.leads_to(receipt_root),
    {
        verify_against_root(self, receipt_root)
    }
}

/// The receipts of a list of proofs, one proof after the other.
pub open spec fn receipts_of(proofs: Seq<ReceiptProof>) -> Seq<Receipt>
    decreases proofs.len(),
{
    if proofs.len() == 0 {
        Seq::empty()
    } else {
        receipts_of(proofs.drop_last()) + proofs.last().receipts@
    }
}

/// The receipts of a list of proofs, one proof after the other.
pub fn collect_receipts<'a>(proofs: &Vec<&'a ReceiptProof>) -> (r: Vec<&'a Receipt>)
    ensures
        r@.unref() == receipts_of(proofs@.unref()),
{
    let mut r: Vec<&'a Receipt> = Vec::new();
    let mut i: usize = 0;
    assert(r@.unref() =~= receipts_of(proofs@.unref().take(0)));
    while i < proofs.len()
        invariant
            i <= proofs.len(),
            r@.unref() == receipts_of(proofs@.unref().take(i as int)),
        decreases proofs.len() - i,
    {
        let proof: &'a ReceiptProof = proofs[i];
        let ghost before = r@;
        let mut j: usize = 0;
        assert(r@.unref() =~= before.unref() + proof.receipts@.take(0));
        while j < proof.receipts.len()
            invariant
                j <= proof.receipts.len(),
                r@.unref() == before.unref() + proof.receipts@.take(j as int),
            decreases proof.receipts.len() - j,
        {
            let ghost held = r@;
            r.push(&proof.receipts[j]);
            assert(r@.unref() =~= held.unref().push(proof.receipts@[j as int]));
            assert(proof.receipts@.take(j + 1) =~= proof.receipts@.take(j as int).push(
                proof.receipts@[j as int],
            ));
            assert(r@.unref() =~= before.unref() + proof.receipts@.take(j + 1));
            j = j + 1;
        }
        assert(proof.receipts@.take(j as int) =~= proof.receipts@);
        assert(proofs@.unref().take(i + 1).drop_last() =~= proofs@.unref().take(i as int));
        i = i + 1;
    }
    assert(proofs@.unref().take(i as int) =~= proofs@.unref());
    r
}

/// References to the items of a list, in its order.
pub fn each_of<T>(items: &Vec<T>) -> (r: Vec<&T>)
    ensures
        r@.unref() == items@,
{
    let mut r: Vec<&T> = Vec::new();
    let mut i: usize = 0;
    while i < items.len()
        invariant
            i <= items.len(),
            r@.len() == i,
            forall|j: int| 0 <= j < i ==> *(#[trigger] r@[j]) == items@[j],
        decreases items.len() - i,
    {
        r.push(&items[i]);
        i = i + 1;
    }
    assert(r@.unref() =~= items@);
    r
}

/// The borsh encoding of the list of the receipts with these encodings.
pub uninterp spec fn receipt_list_encoding(receipts: Seq<Seq<u8>>) -> Seq<u8>;

/// Calls `borsh::to_vec` for a slice of `near_primitives::receipt::Receipt`. Its
/// result depends on the receipts alone and is called `receipt_list_encoding`
/// of their encodings. Every `Receipt` decodes; a list too long for its length
/// to be encoded, on which the call would fail, is left out.
#[verifier::external_body]
fn encode_receipts(receipts: &Vec<&Receipt>) -> (r: Vec<u8>)
    requires
        receipts@.len() <= u32::MAX,
    ensures
        r@ == receipt_list_encoding(encodings(receipts@.unref())),
{
    let decoded: Vec<near_primitives::receipt::Receipt> =
        receipts.iter().map(|r| borsh::from_slice(&r.encoded).unwrap()).collect();
    borsh::to_vec(decoded.as_slice()).unwrap()
}

/// The digest of a list of receipts.
pub open spec fn receipts_digest(receipts: Seq<Receipt>) -> CryptoHash {
    digest(receipt_list_encoding(encodings(receipts)))
}

/// The digest of a list of receipts, which is that of its borsh encoding.
pub fn hash_receipts(receipts: &Vec<&Receipt>) -> (r: CryptoHash)
    requires
        receipts@.len() <= u32::MAX,
    ensures
        r == receipts_digest(receipts@.unref()),
{
    let encoded: Vec<u8> = encode_receipts(receipts);
    hash(&encoded)
}

/// The block on which the signed transaction is based that borsh decodes from
/// these bytes, if it decodes one.
pub uninterp spec fn transaction_base(encoded: Seq<u8>) -> Option<CryptoHash>;

/// Calls `borsh::from_slice` for a
/// `near_primitives::transaction::SignedTransaction` and reads the block hash of
/// the transaction. The result depends on the bytes alone and is called
/// `transaction_base`.
#[verifier::external_body]
fn read_transaction_base(encoded: &Vec<u8>) -> (r: Option<CryptoHash>)
    ensures
        r == transaction_base(encoded@),
{
    let signed: near_primitives::transaction::SignedTransaction = borsh::from_slice(encoded).ok()?;
    let base: [u8; 32] = signed.transaction.block_hash().0;
    Some(CryptoHash {
        hi: u128::from_be_bytes(base[..16].try_into().unwrap()),
        lo: u128::from_be_bytes(base[16..].try_into().unwrap()),
    })
}

/// A signed transaction, held in the bytes that borsh decodes it from.
pub struct SignedTransaction {
    encoded: Vec<u8>,
}

impl View for SignedTransaction {
    type V = Seq<u8>;

    closed spec fn view(&self) -> Seq<u8> {
        self.encoded@
    }
}

impl SignedTransaction {
    #[verifier::type_invariant]
    spec fn decodes(&self) -> bool {
        transaction_base(self.encoded@) is Some
    }

    /// The block on which the transaction is based.
    pub open spec fn base(&self) -> CryptoHash {
        transaction_base(self@)->0
    }

    /// The transaction that these bytes decode to, if they do.
    pub fn decode(encoded: Vec<u8>) -> (r: Option<SignedTransaction>)
        ensures
            match r {
                Some(transaction) => transaction_base(encoded@) == Some(transaction.base())
                    && transaction@ == encoded@,
                None => transaction_base(encoded@) is None,
            },
    {
        if read_transaction_base(&encoded).is_some() {
            Some(SignedTransaction { encoded })
        } else {
            None
        }
    }

    /// The block on which the transaction is based.
    pub fn base_block_hash(&self) -> (r: CryptoHash)
        ensures
            r == self.base(),
            transaction_base(self@) == Some(r),
    {
        proof {
            use_type_invariant(self);
        }
        read_transaction_base(&self.encoded).unwrap()
    }

    /// The encoding of the transaction.
    pub fn encoded(&self) -> (r: &Vec<u8>)
        ensures
            r@ == self@,
    {
        &self.encoded
    }
}

/// The merkle root of the transactions with these encodings.
pub uninterp spec fn transactions_root(transactions: Seq<Seq<u8>>) -> CryptoHash;

/// The merkle root of a list of transactions.
pub open spec fn root_of_transactions(transactions: Seq<SignedTransaction>) -> CryptoHash {
    transactions_root(transactions.map_values(|t: SignedTransaction| t@))
}

/// Calls `near_primitives::merkle::merklize` for a slice of
/// `near_primitives::transaction::SignedTransaction` and keeps the root. It
/// depends on the transactions alone and is called `transactions_root` of their
/// encodings. Every `SignedTransaction` decodes.
#[verifier::external_body]
pub(crate) fn merklize_transactions(transactions: &Vec<SignedTransaction>) -> (r: CryptoHash)
    ensures
        r == transactions_root(transactions@.map_values(|t: SignedTransaction| t@)),
{
    let decoded: Vec<near_primitives::transaction::SignedTransaction> =
        transactions.iter().map(|t| borsh::from_slice(&t.encoded).unwrap()).collect();
    let root: [u8; 32] = merklize(&decoded).0.0;
    CryptoHash {
        hi: u128::from_be_bytes(root[..16].try_into().unwrap()),
        lo: u128::from_be_bytes(root[16..].try_into().unwrap()),
    }
}

/// The merkle root of a list of digests.
pub uninterp spec fn digests_root(digests: Seq<CryptoHash>) -> CryptoHash;

/// Calls `near_primitives::merkle::merklize` for a slice of
/// `near_primitives::hash::CryptoHash` and keeps the root. It depends on the
/// digests alone and is called `digests_root`.
#[verifier::external_body]
pub(crate) fn merklize_digests(digests: &Vec<CryptoHash>) -> (r: CryptoHash)
    ensures
        r == digests_root(digests@),
{
    let items: Vec<NearHash> = digests.iter().map(|h| NearHash(
        [h.hi.to_be_bytes(), h.lo.to_be_bytes()].concat().try_into().unwrap())).collect();
    let root: [u8; 32] = merklize(&items).0.0;
    CryptoHash {
        hi: u128::from_be_bytes(root[..16].try_into().unwrap()),
        lo: u128::from_be_bytes(root[16..].try_into().unwrap()),
    }
}

} // verus!
