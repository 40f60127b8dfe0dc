//! The proof-of-work engine: the canonical byte representation of a block,
//! the difficulty target, the nonce search, and the verification predicate
//! used when accepting externally produced blocks.

use vstd::prelude::*;
use vstd::arithmetic::power2::{pow2, lemma_pow2_adds, lemma_pow2_pos};

use crate::block::{Block, block_payload, payload_of};
use crate::{sha256_digest, sha256_of, push_bytes, push_u64_be, bytes_equal, ChainError, DIGEST_LEN};
use crate::block::txs_ids_concat;

verus! {

/// Number of leading zero bits a digest must have. Part of the chain's
/// genesis parameters: changing it invalidates previously mined blocks.
pub const TARGET_BITS: usize = 8;

/// The nonce search covers the full width of the nonce field.
pub const MAX_NONCE: i64 = i64::MAX;

/// A byte sequence read as an unsigned big-endian integer.
pub open spec fn be_uint(s: Seq<u8>) -> nat
    decreases s.len(),
{
    if s.len() == 0 {
        0
    } else {
        (s[0] as nat) * pow2((8 * (s.len() - 1)) as nat) + be_uint(s.skip(1))
    }
}

/// The difficulty rule: a digest is acceptable iff, read as an unsigned
/// big-endian integer, it lies below `2^(256 - TARGET_BITS)`.
pub open spec fn meets_target(digest: Seq<u8>) -> bool {
    digest.len() == DIGEST_LEN && be_uint(digest) < pow2((8 * DIGEST_LEN - TARGET_BITS) as nat)
}

/// A byte sequence of length `n` denotes an integer below `2^(8n)`.
pub proof fn lemma_be_uint_bound(s: Seq<u8>)
    ensures
        be_uint(s) < pow2((8 * s.len()) as nat),
    decreases s.len(),
{
    if s.len() == 0 {
        vstd::arithmetic::power2::lemma2_to64();
    } else {
        let n = s.len() as int;
        let p = pow2((8 * (n - 1)) as nat);
        lemma_be_uint_bound(s.skip(1));
        lemma_pow2_adds((8 * (n - 1)) as nat, 8);
        vstd::arithmetic::power2::lemma2_to64();
        assert((s[0] as nat) * p + p <= 256 * p) by (nonlinear_arith)
            requires
                (s[0] as nat) < 256,
        ;
    }
}

/// With an 8-bit difficulty, a 32-byte digest meets the target exactly when
/// its leading byte is zero.
pub proof fn lemma_target_first_byte(d: Seq<u8>)
    requires
        d.len() == DIGEST_LEN,
    ensures
        meets_target(d) <==> d[0] == 0,
{
    let p = pow2((8 * DIGEST_LEN - TARGET_BITS) as nat);
    lemma_be_uint_bound(d.skip(1));
    assert(8 * (d.len() - 1) == 8 * DIGEST_LEN - TARGET_BITS);
    if d[0] == 0 {
        assert(be_uint(d) == be_uint(d.skip(1)));
    } else {
        lemma_pow2_pos((8 * DIGEST_LEN - TARGET_BITS) as nat);
        assert((d[0] as nat) * p >= p) by (nonlinear_arith)
            requires
                (d[0] as nat) >= 1,
                p >= 1,
        ;
    }
}

/// Tests a digest against the difficulty target.
pub fn check_target(digest: &Vec<u8>) -> (r: bool)
    ensures
        r == meets_target(digest@),
{
    if digest.len() != DIGEST_LEN {
        return false;
    }
    proof {
        lemma_target_first_byte(digest@);
    }
    digest[0] == 0
}

/// Builds the canonical byte representation of a block for a candidate
/// nonce: `prev_hash`, the digest of the concatenated transaction ids, then
/// `height`, `timestamp` and `nonce`, each fixed-width big-endian.
pub fn prepare_block_data(block: &Block, nonce: i64) -> (r: Vec<u8>)
    ensures
        r@ == block_payload(
            block@.prev_hash,
            block@.transactions,
            block@.height,
            block@.timestamp,
            nonce,
        ),
{
    let mut ids: Vec<u8> = Vec::new();
    let mut i: usize = 0;
    while i < block.transactions.len()
        invariant
            i <= block.transactions.len(),
            ids@ == txs_ids_concat(block.transactions.deep_view().take(i as int)),
        decreases block.transactions.len() - i,
    {
        push_bytes(&mut ids, block.transactions[i].get_id());
        i = i + 1;
        proof {
            let tv = block.transactions.deep_view();
            assert(tv.take(i as int).drop_last() =~= tv.take(i as int - 1));
            assert(ids@ =~= txs_ids_concat(tv.take(i as int)));
        }
    }
    proof {
        let tv = block.transactions.deep_view();
        assert(tv.take(tv.len() as int) =~= tv);
    }
    let tx_digest = sha256_digest(ids.as_slice());
    let mut data: Vec<u8> = Vec::new();
    push_bytes(&mut data, block.prev_hash.as_slice());
    push_bytes(&mut data, tx_digest.as_slice());
    push_u64_be(&mut data, block.height as u64);
    push_u64_be(&mut data, block.timestamp as u64);
    push_u64_be(&mut data, nonce as u64);
    proof {
        assert(data@ =~= block_payload(
            block@.prev_hash,
            block@.transactions,
            block@.height,
            block@.timestamp,
            nonce,
        ));
    }
    data
}

/// The engine mining one block: searches for a nonce whose digest over the
/// block's canonical bytes satisfies the difficulty target.
pub struct ProofOfWork {
    pub block: Block,
}

impl ProofOfWork {
    pub fn new_proof_of_work(block: Block) -> (r: ProofOfWork)
        ensures
            r.block == block,
    {
        ProofOfWork { block }
    }

    /// The canonical bytes of the held block under a candidate nonce.
    pub fn prepare_data(&self, nonce: i64) -> (r: Vec<u8>)
        ensures
            r@ == block_payload(
                self.block@.prev_hash,
                self.block@.transactions,
                self.block@.height,
                self.block@.timestamp,
                nonce,
            ),
    {
        prepare_block_data(&self.block, nonce)
    }

    /// The mining loop: starting at nonce zero, recompute the digest and
    /// test it against the target until a hit, or until the nonce space is
    /// exhausted. On success the returned nonce is the least valid one.
    pub fn run(&self) -> (r: Result<(i64, Vec<u8>), ChainError>)
        ensures
            match r {
                Ok(found) => {
                    &&& found.0 >= 0
                    &&& found.1@ == sha256_of(
                        block_payload(
                            self.block@.prev_hash,
                            self.block@.transactions,
                            self.block@.height,
                            self.block@.timestamp,
                            found.0,
                        ),
                    )
                    &&& meets_target(found.1@)
                    &&& forall|m: i64|
                        0 <= m < found.0 ==> !meets_target(
                            sha256_of(
                                block_payload(
                                    self.block@.prev_hash,
                                    self.block@.transactions,
                                    self.block@.height,
                                    self.block@.timestamp,
                                    m,
                                ),
                            ),
                        )
                },
                Err(e) => {
                    &&& e == ChainError::MiningExhausted
                    &&& forall|m: i64|
                        0 <= m < MAX_NONCE ==> !meets_target(
                            sha256_of(
                                block_payload(
                                    self.block@.prev_hash,
                                    self.block@.transactions,
                                    self.block@.height,
                                    self.block@.timestamp,
                                    m,
                                ),
                            ),
                        )
                },
            },
    {
        let mut nonce: i64 = 0;
        while nonce < MAX_NONCE
            invariant
                0 <= nonce <= MAX_NONCE,
                forall|m: i64|
                    0 <= m < nonce ==> !meets_target(
                        sha256_of(
                            block_payload(
                                self.block@.prev_hash,
                                self.block@.transactions,
                                self.block@.height,
                                self.block@.timestamp,
                                m,
                            ),
                        ),
                    ),
            decreases MAX_NONCE - nonce,
        {
            let data = self.prepare_data(nonce);
            let hash = sha256_digest(data.as_slice());
            if check_target(&hash) {
                return Ok((nonce, hash));
            }
            nonce = nonce + 1;
        }
        Err(ChainError::MiningExhausted)
    }
}

/// The verification predicate of block acceptance: re-derives the digest
/// from the block's stored fields, including its stored nonce, and checks
/// that it reproduces the stored hash and satisfies the target.
pub fn verify_block(block: &Block) -> (r: bool)
    ensures
        r == (block@.hash == sha256_of(payload_of(block@)) && meets_target(block@.hash)),
{
    let data = prepare_block_data(block, block.nonce);
    let digest = sha256_digest(data.as_slice());
    let matches_stored = bytes_equal(&digest, &block.hash);
    let meets = check_target(&block.hash);
    matches_stored && meets
}

} // verus!
