//! The chain's unit of storage: header fields, the embedded transaction
//! list, and the hash and nonce produced by the proof-of-work engine.

use vstd::prelude::*;

use crate::transaction::{Transaction, TransactionView, tx_wf, is_coinbase, check_tx_wf};
use crate::proof_of_work::{ProofOfWork, meets_target, verify_block};
use crate::{sha256_of, u64_be, clone_bytes, current_timestamp, ChainError, DIGEST_LEN};

verus! {

/// Mathematical model of a block.
pub ghost struct BlockView {
    pub timestamp: i64,
    pub prev_hash: Seq<u8>,
    pub transactions: Seq<TransactionView>,
    pub nonce: i64,
    pub height: usize,
    pub hash: Seq<u8>,
}

/// A block: its parent's hash, its transactions (the first of which is the
/// coinbase transaction), and the nonce and hash found by mining.
pub struct Block {
    pub timestamp: i64,
    pub prev_hash: Vec<u8>,
    pub transactions: Vec<Transaction>,
    pub nonce: i64,
    pub height: usize,
    pub hash: Vec<u8>,
}

impl View for Block {
    type V = BlockView;

    open spec fn view(&self) -> BlockView {
        BlockView {
            timestamp: self.timestamp,
            prev_hash: self.prev_hash@,
            transactions: self.transactions.deep_view(),
            nonce: self.nonce,
            height: self.height,
            hash: self.hash@,
        }
    }
}

impl DeepView for Block {
    type V = BlockView;

    open spec fn deep_view(&self) -> BlockView {
        self@
    }
}

/// The ordered transaction ids, concatenated, as hashed into the canonical
/// byte representation.
pub open spec fn txs_ids_concat(ts: Seq<TransactionView>) -> Seq<u8>
    decreases ts.len(),
{
    if ts.len() == 0 {
        Seq::empty()
    } else {
        txs_ids_concat(ts.drop_last()) + ts.last().id
    }
}

/// Canonical byte representation of a block under a candidate nonce:
/// `prev_hash`, then the digest of the concatenated transaction ids, then
/// `height`, `timestamp` and `nonce` in fixed-width big-endian form.
pub open spec fn block_payload(
    prev_hash: Seq<u8>,
    ts: Seq<TransactionView>,
    height: usize,
    timestamp: i64,
    nonce: i64,
) -> Seq<u8> {
    prev_hash + sha256_of(txs_ids_concat(ts)) + u64_be(height as u64) + u64_be(
        timestamp as u64,
    ) + u64_be(nonce as u64)
}

/// Canonical byte representation of a block's stored fields.
pub open spec fn payload_of(b: BlockView) -> Seq<u8> {
    block_payload(b.prev_hash, b.transactions, b.height, b.timestamp, b.nonce)
}

/// All transactions of a list are well-formed.
pub open spec fn txs_wf(ts: Seq<TransactionView>) -> bool {
    forall|i: int| 0 <= i < ts.len() ==> tx_wf(#[trigger] ts[i])
}

/// Well-formedness of a block: the stored hash is the digest of the
/// canonical bytes and satisfies the difficulty target; the transaction
/// list is non-empty, well-formed and led by a coinbase transaction; and
/// the parent hash is empty exactly for a height-zero (genesis) block.
pub open spec fn block_wf(b: BlockView) -> bool {
    &&& b.hash == sha256_of(payload_of(b))
    &&& b.hash.len() == DIGEST_LEN
    &&& meets_target(b.hash)
    &&& b.timestamp >= 0
    &&& b.nonce >= 0
    &&& b.transactions.len() >= 1
    &&& txs_wf(b.transactions)
    &&& is_coinbase(b.transactions[0])
    &&& (b.height == 0 <==> b.prev_hash.len() == 0)
}

impl Block {
    /// Assembles the header fields, delegates to the proof-of-work engine
    /// for `(nonce, hash)`, and returns the finished block. Fails with
    /// `MiningExhausted` when the nonce space holds no hit.
    pub fn new_block(prev_hash: Vec<u8>, transactions: Vec<Transaction>, height: usize) -> (r:
        Result<Block, ChainError>)
        requires
            prev_hash@.len() == DIGEST_LEN,
            height >= 1,
            transactions.deep_view().len() >= 1,
            txs_wf(transactions.deep_view()),
            is_coinbase(transactions.deep_view()[0]),
        ensures
            match r {
                Ok(b) => {
                    &&& block_wf(b@)
                    &&& b@.prev_hash == prev_hash@
                    &&& b@.transactions == transactions.deep_view()
                    &&& b@.height == height
                },
                Err(e) => e == ChainError::MiningExhausted,
            },
    {
        let timestamp = current_timestamp();
        let candidate = Block {
            timestamp,
            prev_hash,
            transactions,
            nonce: 0,
            height,
            hash: Vec::new(),
        };
        let pow = ProofOfWork::new_proof_of_work(candidate);
        match pow.run() {
            Ok(found) => {
                let mut block = pow.block;
                block.nonce = found.0;
                block.hash = found.1;
                Ok(block)
            },
            Err(e) => Err(e),
        }
    }

    /// Builds the genesis block: height zero, empty parent hash, and the
    /// given coinbase transaction as its only transaction.
    pub fn generate_genesis_block(coinbase: &Transaction) -> (r: Result<Block, ChainError>)
        requires
            tx_wf(coinbase@),
            is_coinbase(coinbase@),
        ensures
            match r {
                Ok(b) => {
                    &&& block_wf(b@)
                    &&& b@.height == 0
                    &&& b@.prev_hash.len() == 0
                    &&& b@.transactions == seq![coinbase@]
                },
                Err(e) => e == ChainError::MiningExhausted,
            },
    {
        let mut transactions: Vec<Transaction> = Vec::new();
        transactions.push(coinbase.clone());
        proof {
            assert(transactions.deep_view() =~= seq![coinbase@]);
        }
        let timestamp = current_timestamp();
        let candidate = Block {
            timestamp,
            prev_hash: Vec::new(),
            transactions,
            nonce: 0,
            height: 0,
            hash: Vec::new(),
        };
        let pow = ProofOfWork::new_proof_of_work(candidate);
        match pow.run() {
            Ok(found) => {
                let mut block = pow.block;
                block.nonce = found.0;
                block.hash = found.1;
                Ok(block)
            },
            Err(e) => Err(e),
        }
    }

    pub fn get_hash(&self) -> (r: &Vec<u8>)
        ensures
            r@ == self@.hash,
    {
        &self.hash
    }

    pub fn get_prev_block_hash(&self) -> (r: &Vec<u8>)
        ensures
            r@ == self@.prev_hash,
    {
        &self.prev_hash
    }

    pub fn get_transactions(&self) -> (r: &Vec<Transaction>)
        ensures
            r.deep_view() == self@.transactions,
    {
        &self.transactions
    }

    pub fn get_height(&self) -> (r: usize)
        ensures
            r == self@.height,
    {
        self.height
    }

    pub fn get_timestamp(&self) -> (r: i64)
        ensures
            r == self@.timestamp,
    {
        self.timestamp
    }

    pub fn get_nonce(&self) -> (r: i64)
        ensures
            r == self@.nonce,
    {
        self.nonce
    }
}

impl Clone for Block {
    fn clone(&self) -> (r: Self)
        ensures
            r@ == self@,
    {
        let mut transactions: Vec<Transaction> = Vec::new();
        let mut i: usize = 0;
        while i < self.transactions.len()
            invariant
                i <= self.transactions.len(),
                transactions.deep_view() == self.transactions.deep_view().take(i as int),
            decreases self.transactions.len() - i,
        {
            let e = self.transactions[i].clone();
            let ghost prev = transactions;
            let ghost ev = e;
            transactions.push(e);
            i = i + 1;
            proof {
                crate::lemma_deep_view_push(prev, transactions, ev);
                assert(transactions.deep_view() =~= self.transactions.deep_view().take(i as int));
            }
        }
        proof {
            let tv = self.transactions.deep_view();
            assert(tv.take(tv.len() as int) =~= tv);
        }
        Block {
            timestamp: self.timestamp,
            prev_hash: clone_bytes(&self.prev_hash),
            transactions,
            nonce: self.nonce,
            height: self.height,
            hash: clone_bytes(&self.hash),
        }
    }
}

/// Decides `block_wf` executably, so that externally supplied blocks can be
/// validated before acceptance.
pub fn check_block_wf(block: &Block) -> (r: bool)
    ensures
        r == block_wf(block@),
{
    if !verify_block(block) {
        return false;
    }
    if block.timestamp < 0 || block.nonce < 0 {
        return false;
    }
    if block.transactions.len() == 0 {
        return false;
    }
    let mut i: usize = 0;
    while i < block.transactions.len()
        invariant
            i <= block.transactions.len(),
            forall|j: int| 0 <= j < i ==> tx_wf(#[trigger] block.transactions.deep_view()[j]),
        decreases block.transactions.len() - i,
    {
        if !check_tx_wf(&block.transactions[i]) {
            proof {
                assert(!tx_wf(block@.transactions[i as int]));
                assert(!txs_wf(block@.transactions));
            }
            return false;
        }
        i = i + 1;
    }
    if !block.transactions[0].is_coinbase() {
        return false;
    }
    let genesis_shape = block.height == 0;
    let empty_prev = block.prev_hash.len() == 0;
    genesis_shape == empty_prev
}

} // verus!
