//! The chain store: all committed blocks plus the pointer to the current
//! tip, the consensus rule for accepting competing blocks, chain
//! traversal, and the derivation of the unspent-output set.

use vstd::prelude::*;

use crate::block::{Block, BlockView, block_wf};
use crate::transaction::{
    Transaction, TransactionView, TXOutput, TXOutputView, TXInputView, is_coinbase, tx_wf,
    check_tx_wf, signable_payload, ed25519_verifies, ed25519_verify,
};
use crate::block::txs_wf;
use crate::{clone_bytes, bytes_equal, slice_equal, sha256_of, sha256_digest, ChainError};

verus! {

/// Mathematical model of the chain store: the committed blocks in
/// insertion order, and the hash of the block at the tip.
pub ghost struct ChainView {
    pub blocks: Seq<BlockView>,
    pub tip_hash: Seq<u8>,
}

/// The chain store. Blocks are append-only and content-addressed by their
/// hash; `tip_hash` names the head of the accepted fork.
pub struct Blockchain {
    pub blocks: Vec<Block>,
    pub tip_hash: Vec<u8>,
}

impl View for Blockchain {
    type V = ChainView;

    open spec fn view(&self) -> ChainView {
        ChainView { blocks: self.blocks.deep_view(), tip_hash: self.tip_hash@ }
    }
}

/// Some committed block carries the hash `h`.
pub open spec fn contains_hash(bs: Seq<BlockView>, h: Seq<u8>) -> bool {
    exists|i: int| 0 <= i < bs.len() && (#[trigger] bs[i]).hash == h
}

/// The index of the block carrying hash `h` (unique when hashes are
/// distinct).
pub open spec fn index_of_hash(bs: Seq<BlockView>, h: Seq<u8>) -> int {
    choose|i: int| 0 <= i < bs.len() && (#[trigger] bs[i]).hash == h
}

/// The committed block carrying hash `h`.
pub open spec fn block_at(bs: Seq<BlockView>, h: Seq<u8>) -> BlockView {
    bs[index_of_hash(bs, h)]
}

/// No two committed blocks share a hash.
pub open spec fn unique_hashes(bs: Seq<BlockView>) -> bool {
    forall|i: int, j: int|
        0 <= i < bs.len() && 0 <= j < bs.len() && i != j ==> (#[trigger] bs[i]).hash != (
        #[trigger] bs[j]).hash
}

/// The block at position `i` references an already committed parent
/// exactly one height below it.
pub open spec fn linked_at(bs: Seq<BlockView>, i: int) -> bool {
    contains_hash(bs, bs[i].prev_hash) && block_at(bs, bs[i].prev_hash).height + 1 == bs[i].height
}

/// Well-formedness of the committed block set: every block is internally
/// well-formed; hashes are distinct; the first committed block is the
/// genesis block; and every later block references an already committed
/// parent exactly one height below it.
pub open spec fn blocks_wf(bs: Seq<BlockView>) -> bool {
    &&& bs.len() >= 1
    &&& forall|i: int| 0 <= i < bs.len() ==> #[trigger] block_wf(bs[i])
    &&& unique_hashes(bs)
    &&& bs[0].height == 0
    &&& bs[0].transactions.len() == 1
    &&& forall|i: int| 1 <= i < bs.len() ==> (#[trigger] bs[i].height) >= 1
    &&& forall|i: int| 1 <= i < bs.len() ==> #[trigger] linked_at(bs, i)
}

/// Height of the block at the tip.
pub open spec fn tip_height(s: ChainView) -> int {
    block_at(s.blocks, s.tip_hash).height as int
}

/// The block at the tip.
pub open spec fn tip_block(s: ChainView) -> BlockView {
    block_at(s.blocks, s.tip_hash)
}

/// Well-formedness of the whole store: the blocks are well-formed, the tip
/// names a committed block, and no committed block is higher than the tip.
pub open spec fn chain_wf(s: ChainView) -> bool {
    &&& blocks_wf(s.blocks)
    &&& contains_hash(s.blocks, s.tip_hash)
    &&& forall|i: int|
        0 <= i < s.blocks.len() ==> (#[trigger] s.blocks[i].height) <= tip_height(s)
    &&& tip_height(s) < s.blocks.len()
}

/// With distinct hashes, any index whose block carries `h` is the index
/// found by lookup.
pub proof fn lemma_index_of(bs: Seq<BlockView>, h: Seq<u8>, i: int)
    requires
        unique_hashes(bs),
        0 <= i < bs.len(),
        bs[i].hash == h,
    ensures
        contains_hash(bs, h),
        index_of_hash(bs, h) == i,
        block_at(bs, h) == bs[i],
{
    assert(contains_hash(bs, h));
    let j = index_of_hash(bs, h);
    assert(0 <= j < bs.len() && bs[j].hash == h);
    if j != i {
        assert(bs[i].hash != bs[j].hash);
    }
}

/// Appending a fresh block leaves every existing lookup unchanged.
pub proof fn lemma_lookup_after_push(bs: Seq<BlockView>, b: BlockView, h: Seq<u8>)
    requires
        unique_hashes(bs.push(b)),
        contains_hash(bs, h),
    ensures
        contains_hash(bs.push(b), h),
        block_at(bs.push(b), h) == block_at(bs, h),
        index_of_hash(bs.push(b), h) == index_of_hash(bs, h),
{
    assert(unique_hashes(bs)) by {
        assert forall|i: int, j: int|
            0 <= i < bs.len() && 0 <= j < bs.len() && i != j implies (#[trigger] bs[i]).hash != (
        #[trigger] bs[j]).hash by {
            assert(bs.push(b)[i] == bs[i]);
            assert(bs.push(b)[j] == bs[j]);
        }
    }
    let i = index_of_hash(bs, h);
    assert(0 <= i < bs.len() && bs[i].hash == h);
    assert(bs.push(b)[i] == bs[i]);
    lemma_index_of(bs.push(b), h, i);
}

/// Finds the position of the block carrying `hash`, if any.
fn find_block_index(blocks: &Vec<Block>, hash: &Vec<u8>) -> (r: Option<usize>)
    ensures
        match r {
            Some(i) => i < blocks.deep_view().len() && blocks.deep_view()[i as int].hash == hash@,
            None => !contains_hash(blocks.deep_view(), hash@),
        },
{
    let mut i: usize = 0;
    while i < blocks.len()
        invariant
            i <= blocks.len(),
            forall|j: int| 0 <= j < i ==> (#[trigger] blocks.deep_view()[j]).hash != hash@,
        decreases blocks.len() - i,
    {
        if bytes_equal(&blocks[i].hash, hash) {
            proof {
                assert(blocks.deep_view()[i as int].hash == hash@);
            }
            return Some(i);
        }
        i = i + 1;
    }
    proof {
        assert forall|k: int|
            0 <= k < blocks.deep_view().len() implies (#[trigger] blocks.deep_view()[k]).hash
            != hash@ by {}
    }
    None
}

/// Whether `add_block` accepts `b` on a store in state `s`: the block is
/// new, well-formed, its parent is already committed, and it extends that
/// parent by exactly one height.
pub open spec fn add_accepts(s: ChainView, b: BlockView) -> bool {
    &&& !contains_hash(s.blocks, b.hash)
    &&& block_wf(b)
    &&& contains_hash(s.blocks, b.prev_hash)
    &&& block_at(s.blocks, b.prev_hash).height + 1 == b.height
}

/// The state transition of `add_block`: a known hash is a no-op; an
/// accepted block is appended, and the tip advances to it exactly when its
/// height exceeds the current tip height (ties keep the existing tip); a
/// rejected block changes nothing.
pub open spec fn add_result(s: ChainView, b: BlockView) -> ChainView {
    if contains_hash(s.blocks, b.hash) {
        s
    } else if add_accepts(s, b) {
        ChainView {
            blocks: s.blocks.push(b),
            tip_hash: if b.height > tip_height(s) {
                b.hash
            } else {
                s.tip_hash
            },
        }
    } else {
        s
    }
}

impl Blockchain {
    /// Creates a fresh store: builds a coinbase transaction paying
    /// `genesis_address`, mines the genesis block, inserts it and points
    /// the tip at it.
    pub fn create_blockchain(genesis_address: &[u8]) -> (r: Result<Blockchain, ChainError>)
        ensures
            match r {
                Ok(c) => {
                    &&& chain_wf(c@)
                    &&& c@.blocks.len() == 1
                    &&& c@.blocks[0].height == 0
                    &&& c@.blocks[0].prev_hash.len() == 0
                    &&& c@.blocks[0].transactions.len() == 1
                    &&& is_coinbase(c@.blocks[0].transactions[0])
                    &&& c@.blocks[0].transactions[0].vout.len() == 1
                    &&& c@.blocks[0].transactions[0].vout[0].pub_key_hash == genesis_address@
                    &&& c@.blocks[0].transactions[0].vout[0].value
                        == crate::transaction::SUBSIDY as int
                    &&& c@.tip_hash == c@.blocks[0].hash
                },
                Err(e) => e == ChainError::MiningExhausted,
            },
    {
        let coinbase = crate::transaction::Transaction::new_coinbase_tx(genesis_address);
        let genesis = match Block::generate_genesis_block(&coinbase) {
            Ok(b) => b,
            Err(e) => {
                return Err(e);
            },
        };
        let tip_hash = clone_bytes(&genesis.hash);
        let ghost gv = genesis@;
        let ghost gb = genesis;
        let mut blocks: Vec<Block> = Vec::new();
        let ghost empty_blocks = blocks;
        blocks.push(genesis);
        let chain = Blockchain { blocks, tip_hash };
        proof {
            crate::lemma_deep_view_push(empty_blocks, chain.blocks, gb);
            assert(empty_blocks.deep_view() =~= Seq::<BlockView>::empty());
            assert(chain@.blocks =~= seq![gv]);
            lemma_index_of(chain@.blocks, chain@.tip_hash, 0);
        }
        Ok(chain)
    }

    /// The hash of the block at the current tip.
    pub fn get_tip_hash(&self) -> (r: Vec<u8>)
        ensures
            r@ == self@.tip_hash,
    {
        clone_bytes(&self.tip_hash)
    }

    /// The height of the block at the current tip, looked up from the
    /// stored block rather than any cached counter.
    pub fn get_best_height(&self) -> (r: usize)
        requires
            chain_wf(self@),
        ensures
            r as int == tip_height(self@),
    {
        match find_block_index(&self.blocks, &self.tip_hash) {
            Some(i) => {
                proof {
                    lemma_index_of(self@.blocks, self@.tip_hash, i as int);
                }
                self.blocks[i].height
            },
            None => {
                proof {
                    assert(false);
                }
                0
            },
        }
    }

    /// The committed block carrying `hash`, if any.
    pub fn get_block(&self, hash: &Vec<u8>) -> (r: Option<Block>)
        requires
            chain_wf(self@),
        ensures
            match r {
                Some(b) => contains_hash(self@.blocks, hash@) && b@ == block_at(
                    self@.blocks,
                    hash@,
                ),
                None => !contains_hash(self@.blocks, hash@),
            },
    {
        match find_block_index(&self.blocks, hash) {
            Some(i) => {
                proof {
                    lemma_index_of(self@.blocks, hash@, i as int);
                }
                Some(self.blocks[i].clone())
            },
            None => None,
        }
    }

    /// Decides whether `add_block` would accept `block` on this store.
    #[verifier::rlimit(100)]
    fn check_acceptable(&self, block: &Block) -> (r: bool)
        requires
            chain_wf(self@),
        ensures
            r == add_accepts(self@, block@),
    {
        let ghost s = self@;
        let ghost bv = block@;
        if find_block_index(&self.blocks, &block.hash).is_some() {
            return false;
        }
        if !crate::block::check_block_wf(block) {
            return false;
        }
        match find_block_index(&self.blocks, &block.prev_hash) {
            None => false,
            Some(i) => {
                proof {
                    lemma_index_of(s.blocks, bv.prev_hash, i as int);
                    assert(s.blocks[i as int].height <= tip_height(s));
                    assert(tip_height(s) < s.blocks.len());
                    assert(s.blocks.len() == self.blocks@.len());
                }
                let n = self.blocks.len();
                let prev_height = self.blocks[i].height;
                proof {
                    assert(prev_height < n);
                }
                block.height == prev_height + 1
            },
        }
    }

    /// Accepts an externally supplied, already-mined block. A block whose
    /// hash is already stored is a no-op; one that fails verification, or
    /// whose parent is unknown or not one height below it, is rejected
    /// with `Consistency` and changes nothing. An accepted block is
    /// inserted, and the tip advances to it exactly when it is strictly
    /// higher than the current tip.
    pub fn add_block(&mut self, block: &Block) -> (r: Result<(), ChainError>)
        requires
            chain_wf(old(self)@),
        ensures
            final(self)@ == add_result(old(self)@, block@),
            chain_wf(final(self)@),
            (r == Ok::<(), ChainError>(())) <==> (contains_hash(old(self)@.blocks, block@.hash)
                || add_accepts(old(self)@, block@)),
            r is Err ==> r == Err::<(), ChainError>(ChainError::Consistency),
    {
        let ghost s = self@;
        let ghost bv = block@;
        if find_block_index(&self.blocks, &block.hash).is_some() {
            return Ok(());
        }
        if !self.check_acceptable(block) {
            return Err(ChainError::Consistency);
        }
        let best = self.get_best_height();
        let b = block.clone();
        let ghost gb = b;
        let ghost prev_vec = self.blocks;
        self.blocks.push(b);
        proof {
            crate::lemma_deep_view_push(prev_vec, self.blocks, gb);
        }
        if block.height > best {
            self.tip_hash = clone_bytes(&block.hash);
        }
        proof {
            assert(self@.blocks == s.blocks.push(bv));
            lemma_add_preserves_wf(s, bv);
            assert(self@ == add_result(s, bv));
        }
        Ok(())
    }
}

/// The backward walk from the block carrying `h`, following `prev_hash`
/// links until the genesis block. The fuel bounds the recursion; any fuel
/// of at least the starting block's height plus one is enough.
pub open spec fn chain_from(bs: Seq<BlockView>, h: Seq<u8>, fuel: nat) -> Seq<BlockView>
    decreases fuel,
{
    if fuel == 0 || !contains_hash(bs, h) {
        Seq::empty()
    } else {
        let b = block_at(bs, h);
        if b.prev_hash.len() == 0 {
            seq![b]
        } else {
            seq![b] + chain_from(bs, b.prev_hash, (fuel - 1) as nat)
        }
    }
}

/// The chain as seen from the current tip: tip first, genesis last.
pub open spec fn chain_of(s: ChainView) -> Seq<BlockView> {
    chain_from(s.blocks, s.tip_hash, s.blocks.len())
}

/// Structure of the backward walk on a well-formed block set: it has
/// exactly `height + 1` entries, starts at the requested block, descends
/// one height per step, links each child to its parent, and ends at the
/// genesis block.
pub proof fn lemma_chain_from(bs: Seq<BlockView>, h: Seq<u8>, fuel: nat)
    requires
        blocks_wf(bs),
        contains_hash(bs, h),
        fuel >= block_at(bs, h).height + 1,
    ensures
        ({
            let c = chain_from(bs, h, fuel);
            &&& c.len() == block_at(bs, h).height + 1
            &&& c[0] == block_at(bs, h)
            &&& forall|k: int|
                0 <= k < c.len() ==> contains_hash(bs, (#[trigger] c[k]).hash) && block_at(
                    bs,
                    c[k].hash,
                ) == c[k]
            &&& forall|k: int| 0 <= k < c.len() ==> (#[trigger] c[k]).height == c[0].height - k
            &&& forall|k: int|
                0 <= k < c.len() - 1 ==> (#[trigger] c[k]).prev_hash == c[k + 1].hash
            &&& c[c.len() - 1].height == 0
            &&& c[c.len() - 1].prev_hash.len() == 0
        }),
    decreases fuel,
{
    let b = block_at(bs, h);
    let i = index_of_hash(bs, h);
    assert(0 <= i < bs.len() && bs[i].hash == h);
    assert(block_wf(bs[i]));
    let c = chain_from(bs, h, fuel);
    if b.prev_hash.len() == 0 {
        assert(b.height == 0);
        assert(c =~= seq![b]);
    } else {
        assert(b.height != 0);
        if i == 0 {
            assert(bs[0].height == 0);
        }
        assert(linked_at(bs, i));
        let pb = block_at(bs, b.prev_hash);
        assert(pb.height + 1 == b.height);
        lemma_chain_from(bs, b.prev_hash, (fuel - 1) as nat);
        let rest = chain_from(bs, b.prev_hash, (fuel - 1) as nat);
        assert(c == seq![b] + rest);
        assert(c.len() == rest.len() + 1);
        assert(c[0] == b);
        assert(rest[0] == pb);
        assert(pb.hash == b.prev_hash);
        assert forall|k: int|
            0 <= k < c.len() implies contains_hash(bs, (#[trigger] c[k]).hash) && block_at(
            bs,
            c[k].hash,
        ) == c[k] by {
            if k == 0 {
                lemma_index_of(bs, h, i);
            } else {
                assert(c[k] == rest[k - 1]);
            }
        }
        assert forall|k: int|
            0 <= k < c.len() implies (#[trigger] c[k]).height == c[0].height - k by {
            if k > 0 {
                assert(c[k] == rest[k - 1]);
                assert(rest[k - 1].height == rest[0].height - (k - 1));
            }
        }
        assert forall|k: int|
            0 <= k < c.len() - 1 implies (#[trigger] c[k]).prev_hash == c[k + 1].hash by {
            if k == 0 {
                assert(c[1] == rest[0]);
            } else {
                assert(c[k] == rest[k - 1]);
                assert(c[k + 1] == rest[k]);
            }
        }
        assert(c[c.len() - 1] == rest[rest.len() - 1]);
    }
}

/// The backward walk does not depend on the fuel, once the fuel suffices.
pub proof fn lemma_chain_fuel(bs: Seq<BlockView>, h: Seq<u8>, f1: nat, f2: nat)
    requires
        blocks_wf(bs),
        contains_hash(bs, h),
        f1 >= block_at(bs, h).height + 1,
        f2 >= block_at(bs, h).height + 1,
    ensures
        chain_from(bs, h, f1) == chain_from(bs, h, f2),
    decreases f1,
{
    let b = block_at(bs, h);
    let i = index_of_hash(bs, h);
    assert(0 <= i < bs.len() && bs[i].hash == h);
    assert(block_wf(bs[i]));
    if b.prev_hash.len() == 0 {
    } else {
        assert(b.height != 0);
        if i == 0 {
            assert(bs[0].height == 0);
        }
        assert(linked_at(bs, i));
        lemma_chain_fuel(bs, b.prev_hash, (f1 - 1) as nat, (f2 - 1) as nat);
    }
}

/// Law: a fresh traversal of a well-formed store yields exactly
/// `tip_height + 1` blocks, the tip first; every consecutive pair
/// satisfies `child.prev_hash == parent.hash`; and the walk ends at the
/// genesis block.
pub proof fn lemma_chain_structure(s: ChainView)
    requires
        chain_wf(s),
    ensures
        chain_of(s).len() == tip_height(s) + 1,
        chain_of(s)[0] == tip_block(s),
        forall|k: int|
            0 <= k < chain_of(s).len() - 1 ==> (#[trigger] chain_of(s)[k]).prev_hash == chain_of(
                s,
            )[k + 1].hash,
        chain_of(s)[chain_of(s).len() - 1].height == 0,
        chain_of(s)[chain_of(s).len() - 1].prev_hash.len() == 0,
        forall|k: int|
            0 <= k < chain_of(s).len() ==> contains_hash(s.blocks, (#[trigger] chain_of(s)[k]).hash),
{
    lemma_chain_from(s.blocks, s.tip_hash, s.blocks.len());
}

/// Copies the block list, preserving its abstraction.
fn clone_blocks(v: &Vec<Block>) -> (r: Vec<Block>)
    ensures
        r.deep_view() == v.deep_view(),
{
    let mut r: Vec<Block> = Vec::new();
    let mut i: usize = 0;
    while i < v.len()
        invariant
            i <= v.len(),
            r.deep_view() == v.deep_view().take(i as int),
        decreases v.len() - i,
    {
        let e = v[i].clone();
        let ghost prev = r;
        let ghost ev = e;
        r.push(e);
        i = i + 1;
        proof {
            crate::lemma_deep_view_push(prev, r, ev);
            assert(r.deep_view() =~= v.deep_view().take(i as int));
        }
    }
    proof {
        assert(v.deep_view().take(v.deep_view().len() as int) =~= v.deep_view());
    }
    r
}

/// A lazy backward traversal of the chain, from a snapshot of the tip
/// taken at creation down to the genesis block.
pub struct BlockchainIterator {
    pub blocks: Vec<Block>,
    pub current_hash: Vec<u8>,
}

/// Well-formedness of an iterator: its snapshot of the block set is
/// well-formed, and its cursor is either finished (empty) or names a
/// committed block whose height the snapshot's size exceeds.
pub open spec fn iter_wf(it: BlockchainIterator) -> bool {
    &&& blocks_wf(it.blocks.deep_view())
    &&& (it.current_hash@.len() == 0 || (contains_hash(it.blocks.deep_view(), it.current_hash@)
        && block_at(it.blocks.deep_view(), it.current_hash@).height < it.blocks.deep_view().len()))
}

/// The blocks the iterator has yet to yield, in order.
pub open spec fn iter_remaining(it: BlockchainIterator) -> Seq<BlockView> {
    if it.current_hash@.len() == 0 {
        Seq::empty()
    } else {
        chain_from(it.blocks.deep_view(), it.current_hash@, it.blocks.deep_view().len())
    }
}

impl BlockchainIterator {
    /// Starts a traversal at `tip_hash` over the given snapshot.
    pub fn new(tip_hash: Vec<u8>, blocks: Vec<Block>) -> (r: BlockchainIterator)
        requires
            blocks_wf(blocks.deep_view()),
            tip_hash@.len() == 0 || (contains_hash(blocks.deep_view(), tip_hash@) && block_at(
                blocks.deep_view(),
                tip_hash@,
            ).height < blocks.deep_view().len()),
        ensures
            iter_wf(r),
            r.blocks == blocks,
            r.current_hash == tip_hash,
    {
        BlockchainIterator { blocks, current_hash: tip_hash }
    }

    /// Yields the block at the cursor and moves the cursor to its parent;
    /// `None` once the walk has passed the genesis block.
    pub fn next(&mut self) -> (r: Option<Block>)
        requires
            iter_wf(*old(self)),
        ensures
            iter_wf(*final(self)),
            final(self).blocks == old(self).blocks,
            match r {
                None => iter_remaining(*old(self)).len() == 0 && *final(self) == *old(self),
                Some(b) => {
                    &&& iter_remaining(*old(self)).len() > 0
                    &&& b@ == iter_remaining(*old(self))[0]
                    &&& iter_remaining(*final(self)) == iter_remaining(*old(self)).skip(1)
                },
            },
    {
        let ghost bs = self.blocks.deep_view();
        let ghost cur = self.current_hash@;
        if self.current_hash.len() == 0 {
            return None;
        }
        match find_block_index(&self.blocks, &self.current_hash) {
            Some(i) => {
                proof {
                    lemma_index_of(bs, cur, i as int);
                    lemma_chain_from(bs, cur, bs.len());
                }
                let b = self.blocks[i].clone();
                self.current_hash = clone_bytes(&b.prev_hash);
                proof {
                    let old_rem = chain_from(bs, cur, bs.len());
                    if b@.prev_hash.len() == 0 {
                        assert(old_rem =~= seq![b@]);
                        assert(iter_remaining(*self) =~= old_rem.skip(1));
                    } else {
                        assert(b@.height != 0);
                        if i as int == 0 {
                            assert(bs[0].height == 0);
                        }
                        assert(linked_at(bs, i as int));
                        let pb = block_at(bs, b@.prev_hash);
                        assert(pb.height + 1 == b@.height);
                        assert(bs.len() >= 1);
                        lemma_chain_fuel(bs, b@.prev_hash, (bs.len() - 1) as nat, bs.len());
                        assert(old_rem == seq![b@] + chain_from(
                            bs,
                            b@.prev_hash,
                            (bs.len() - 1) as nat,
                        ));
                        assert(iter_remaining(*self) =~= old_rem.skip(1));
                    }
                }
                Some(b)
            },
            None => {
                proof {
                    assert(false);
                }
                None
            },
        }
    }
}

impl Blockchain {
    /// A fresh iterator over a snapshot of the current tip: later tip
    /// moves do not affect a traversal in progress.
    pub fn iterator(&self) -> (r: BlockchainIterator)
        requires
            chain_wf(self@),
        ensures
            iter_wf(r),
            iter_remaining(r) == chain_of(self@),
    {
        let ghost s = self@;
        proof {
            let ti = index_of_hash(s.blocks, s.tip_hash);
            assert(0 <= ti < s.blocks.len() && s.blocks[ti].hash == s.tip_hash);
            assert(block_wf(s.blocks[ti]));
            assert(s.tip_hash.len() == crate::DIGEST_LEN);
        }
        BlockchainIterator::new(self.get_tip_hash(), clone_blocks(&self.blocks))
    }

    /// Walks the chain from the tip and returns the first transaction
    /// whose id is `txid`; `None` when the chain holds none.
    pub fn find_transaction(&self, txid: &[u8]) -> (r: Option<Transaction>)
        requires
            chain_wf(self@),
        ensures
            match r {
                Some(t) => find_tx_in_chain(chain_of(self@), txid@) == Some(t@),
                None => find_tx_in_chain(chain_of(self@), txid@) is None,
            },
    {
        let mut iterator = self.iterator();
        loop
            invariant
                iter_wf(iterator),
                find_tx_in_chain(chain_of(self@), txid@) == find_tx_in_chain(
                    iter_remaining(iterator),
                    txid@,
                ),
            decreases iter_remaining(iterator).len(),
        {
            let ghost rem = iter_remaining(iterator);
            let option = iterator.next();
            if option.is_none() {
                return None;
            }
            let block = option.unwrap();
            let ghost ts = block@.transactions;
            let mut j: usize = 0;
            while j < block.transactions.len()
                invariant
                    j <= block.transactions.len(),
                    ts == block@.transactions,
                    rem.len() > 0,
                    rem[0] == block@,
                    iter_wf(iterator),
                    iter_remaining(iterator) == rem.skip(1),
                    find_tx_in_chain(chain_of(self@), txid@) == find_tx_in_chain(rem, txid@),
                    forall|k: int| 0 <= k < j ==> (#[trigger] ts[k]).id != txid@,
                decreases block.transactions.len() - j,
            {
                let tx = &block.transactions[j];
                if crate::slice_equal(tx.id.as_slice(), txid) {
                    proof {
                        lemma_find_tx_at(ts, txid@, j as int);
                        assert(find_tx_in_chain(rem, txid@) == Some(ts[j as int]));
                    }
                    return Some(tx.clone());
                }
                j = j + 1;
            }
            proof {
                lemma_find_tx_none(ts, txid@);
                assert(find_tx_in_chain(rem, txid@) == find_tx_in_chain(rem.skip(1), txid@));
            }
        }
    }
}

/// First match among a transaction list.
pub open spec fn find_tx_in_txs(ts: Seq<crate::transaction::TransactionView>, id: Seq<u8>) -> Option<
    crate::transaction::TransactionView,
>
    decreases ts.len(),
{
    if ts.len() == 0 {
        None
    } else if ts[0].id == id {
        Some(ts[0])
    } else {
        find_tx_in_txs(ts.skip(1), id)
    }
}

/// First match along the chain, walking from the tip.
pub open spec fn find_tx_in_chain(c: Seq<BlockView>, id: Seq<u8>) -> Option<
    crate::transaction::TransactionView,
>
    decreases c.len(),
{
    if c.len() == 0 {
        None
    } else {
        match find_tx_in_txs(c[0].transactions, id) {
            Some(t) => Some(t),
            None => find_tx_in_chain(c.skip(1), id),
        }
    }
}

/// The first index whose id matches determines the search result.
proof fn lemma_find_tx_at(ts: Seq<crate::transaction::TransactionView>, id: Seq<u8>, j: int)
    requires
        0 <= j < ts.len(),
        ts[j].id == id,
        forall|k: int| 0 <= k < j ==> (#[trigger] ts[k]).id != id,
    ensures
        find_tx_in_txs(ts, id) == Some(ts[j]),
    decreases j,
{
    if j > 0 {
        lemma_find_tx_at(ts.skip(1), id, j - 1);
    }
}

/// Without a matching id the search yields nothing.
proof fn lemma_find_tx_none(ts: Seq<crate::transaction::TransactionView>, id: Seq<u8>)
    requires
        forall|k: int| 0 <= k < ts.len() ==> (#[trigger] ts[k]).id != id,
    ensures
        find_tx_in_txs(ts, id) is None,
    decreases ts.len(),
{
    if ts.len() > 0 {
        lemma_find_tx_none(ts.skip(1), id);
    }
}

// ---------------------------------------------------------------------
// The unspent-output set
// ---------------------------------------------------------------------

/// Mathematical model of one unspent output: its position in the defining
/// transaction's output list, and the output itself.
pub ghost struct IndexedOutputView {
    pub index: int,
    pub output: TXOutputView,
}

/// Mathematical model of one entry of the unspent set: the defining
/// transaction's id and its still unspent outputs, in index order.
pub ghost struct UtxoEntryView {
    pub txid: Seq<u8>,
    pub outputs: Seq<IndexedOutputView>,
}

/// An unspent output together with its index in the defining transaction.
pub struct IndexedOutput {
    pub index: usize,
    pub output: TXOutput,
}

/// The unspent outputs of one transaction, grouped under its id.
pub struct UtxoEntry {
    pub txid: Vec<u8>,
    pub outputs: Vec<IndexedOutput>,
}

impl View for IndexedOutput {
    type V = IndexedOutputView;

    open spec fn view(&self) -> IndexedOutputView {
        IndexedOutputView { index: self.index as int, output: self.output@ }
    }
}

impl DeepView for IndexedOutput {
    type V = IndexedOutputView;

    open spec fn deep_view(&self) -> IndexedOutputView {
        self@
    }
}

impl View for UtxoEntry {
    type V = UtxoEntryView;

    open spec fn view(&self) -> UtxoEntryView {
        UtxoEntryView { txid: self.txid@, outputs: self.outputs.deep_view() }
    }
}

impl DeepView for UtxoEntry {
    type V = UtxoEntryView;

    open spec fn deep_view(&self) -> UtxoEntryView {
        self@
    }
}

/// A spent-output reference: the defining transaction's id and the output
/// index within it.
pub struct OutPoint {
    pub txid: Vec<u8>,
    pub index: usize,
}

impl View for OutPoint {
    type V = (Seq<u8>, int);

    open spec fn view(&self) -> (Seq<u8>, int) {
        (self.txid@, self.index as int)
    }
}

impl DeepView for OutPoint {
    type V = (Seq<u8>, int);

    open spec fn deep_view(&self) -> (Seq<u8>, int) {
        self@
    }
}

/// The output references spent by the first `k` inputs of a transaction.
pub open spec fn spends_of_tx_upto(t: TransactionView, k: int) -> Set<(Seq<u8>, int)> {
    Set::new(
        |p: (Seq<u8>, int)|
            exists|i: int| 0 <= i < k && p == ((#[trigger] t.vin[i]).txid, t.vin[i].vout),
    )
}

/// The output references spent by a transaction. Coinbase inputs never
/// mark anything spent.
pub open spec fn spends_of_tx(t: TransactionView) -> Set<(Seq<u8>, int)> {
    if is_coinbase(t) {
        Set::empty()
    } else {
        spends_of_tx_upto(t, t.vin.len() as int)
    }
}

/// The output references spent by a transaction list.
pub open spec fn spends_of_txs(ts: Seq<TransactionView>) -> Set<(Seq<u8>, int)>
    decreases ts.len(),
{
    if ts.len() == 0 {
        Set::empty()
    } else {
        spends_of_txs(ts.drop_last()).union(spends_of_tx(ts.last()))
    }
}

/// The still unspent outputs among the first `n` outputs of `t`, given the
/// spent set.
pub open spec fn unspent_upto(t: TransactionView, spent: Set<(Seq<u8>, int)>, n: int) -> Seq<
    IndexedOutputView,
>
    decreases n,
{
    if n <= 0 {
        Seq::empty()
    } else {
        unspent_upto(t, spent, n - 1) + if spent.contains((t.id, n - 1)) {
            Seq::empty()
        } else {
            seq![IndexedOutputView { index: n - 1, output: t.vout[n - 1] }]
        }
    }
}

/// The still unspent outputs of a transaction.
pub open spec fn unspent_of_tx(t: TransactionView, spent: Set<(Seq<u8>, int)>) -> Seq<
    IndexedOutputView,
> {
    unspent_upto(t, spent, t.vout.len() as int)
}

/// One unspent-set entry per transaction that still has unspent outputs,
/// in list order.
pub open spec fn entries_of_txs(ts: Seq<TransactionView>, spent: Set<(Seq<u8>, int)>) -> Seq<
    UtxoEntryView,
>
    decreases ts.len(),
{
    if ts.len() == 0 {
        Seq::empty()
    } else {
        let outs = unspent_of_tx(ts[0], spent);
        (if outs.len() == 0 {
            Seq::empty()
        } else {
            seq![UtxoEntryView { txid: ts[0].id, outputs: outs }]
        }) + entries_of_txs(ts.skip(1), spent)
    }
}

/// The single backward pass of the unspent-output derivation: visiting a
/// block first records every output reference its inputs spend, then
/// includes each of its outputs not spent by anything seen so far. Since
/// all spends of an output sit at heights at or above its defining
/// transaction, the spent set is complete for a transaction by the time
/// the walk reaches it.
pub open spec fn utxo_walk(c: Seq<BlockView>, spent: Set<(Seq<u8>, int)>) -> Seq<UtxoEntryView>
    decreases c.len(),
{
    if c.len() == 0 {
        Seq::empty()
    } else {
        let spent2 = spent.union(spends_of_txs(c[0].transactions));
        entries_of_txs(c[0].transactions, spent2) + utxo_walk(c.skip(1), spent2)
    }
}

/// The unspent-output set implied by the chain at the current tip.
pub open spec fn utxo_of(s: ChainView) -> Seq<UtxoEntryView> {
    utxo_walk(chain_of(s), Set::empty())
}

/// The first output listed under `txid` at index `idx` among an entry's
/// outputs.
pub open spec fn find_indexed(outs: Seq<IndexedOutputView>, idx: int) -> Option<TXOutputView>
    decreases outs.len(),
{
    if outs.len() == 0 {
        None
    } else if outs[0].index == idx {
        Some(outs[0].output)
    } else {
        find_indexed(outs.skip(1), idx)
    }
}

/// The first unspent output registered under `(txid, idx)`.
pub open spec fn utxo_find(u: Seq<UtxoEntryView>, txid: Seq<u8>, idx: int) -> Option<TXOutputView>
    decreases u.len(),
{
    if u.len() == 0 {
        None
    } else if u[0].txid == txid && find_indexed(u[0].outputs, idx) is Some {
        find_indexed(u[0].outputs, idx)
    } else {
        utxo_find(u.skip(1), txid, idx)
    }
}

/// Membership of `(txid, index)` in the recorded spends.
fn spent_contains(spent: &Vec<OutPoint>, txid: &Vec<u8>, index: usize) -> (r: bool)
    ensures
        r == spent.deep_view().to_set().contains((txid@, index as int)),
{
    let ghost target = (txid@, index as int);
    let mut i: usize = 0;
    while i < spent.len()
        invariant
            i <= spent.len(),
            target == (txid@, index as int),
            forall|j: int| 0 <= j < i ==> (#[trigger] spent.deep_view()[j]) != target,
        decreases spent.len() - i,
    {
        if bytes_equal(&spent[i].txid, txid) && spent[i].index == index {
            proof {
                assert(spent.deep_view()[i as int] == target);
                assert(spent.deep_view().contains(target));
            }
            return true;
        }
        i = i + 1;
    }
    proof {
        if spent.deep_view().to_set().contains(target) {
            let j = choose|j: int|
                0 <= j < spent.deep_view().len() && spent.deep_view()[j] == target;
            assert(spent.deep_view()[j] != target);
        }
    }
    false
}

/// Records every output reference spent by the inputs of `txs`.
fn record_spends(spent: &mut Vec<OutPoint>, txs: &Vec<Transaction>)
    ensures
        final(spent).deep_view().to_set() == old(spent).deep_view().to_set().union(
            spends_of_txs(txs.deep_view()),
        ),
{
    let ghost start = old(spent).deep_view().to_set();
    let ghost ts = txs.deep_view();
    let mut j: usize = 0;
    while j < txs.len()
        invariant
            j <= txs.len(),
            ts == txs.deep_view(),
            spent.deep_view().to_set() == start.union(spends_of_txs(ts.take(j as int))),
        decreases txs.len() - j,
    {
        let tx = &txs[j];
        let ghost before_tx = spent.deep_view().to_set();
        if !tx.is_coinbase() {
            let mut k: usize = 0;
            while k < tx.vin.len()
                invariant
                    k <= tx.vin.len(),
                    !is_coinbase(tx@),
                    spent.deep_view().to_set() == before_tx.union(spends_of_tx_upto(
                        tx@,
                        k as int,
                    )),
                decreases tx.vin.len() - k,
            {
                let inp = &tx.vin[k];
                let e = OutPoint { txid: clone_bytes(&inp.txid), index: inp.vout };
                let ghost prev = *spent;
                let ghost ev = e;
                spent.push(e);
                k = k + 1;
                proof {
                    crate::lemma_deep_view_push(prev, *spent, ev);
                    crate::lemma_to_set_push(prev.deep_view(), ev@);
                    assert(ev@ == (tx@.vin[k as int - 1].txid, tx@.vin[k as int - 1].vout));
                    assert(spent.deep_view().to_set() =~= before_tx.union(spends_of_tx_upto(
                        tx@,
                        k as int,
                    )));
                }
            }
            proof {
                assert(spends_of_tx_upto(tx@, tx@.vin.len() as int) == spends_of_tx(tx@));
            }
        } else {
            proof {
                assert(before_tx.union(spends_of_tx(tx@)) =~= before_tx);
            }
        }
        j = j + 1;
        proof {
            assert(ts.take(j as int).drop_last() =~= ts.take(j as int - 1));
            assert(ts.take(j as int).last() == ts[j as int - 1]);
            assert(spent.deep_view().to_set() =~= start.union(spends_of_txs(ts.take(j as int))));
        }
    }
    proof {
        assert(ts.take(ts.len() as int) =~= ts);
    }
}

/// The first output with index `idx` determines the lookup result.
proof fn lemma_find_indexed_at(outs: Seq<IndexedOutputView>, idx: int, j: int)
    requires
        0 <= j < outs.len(),
        outs[j].index == idx,
        forall|k: int| 0 <= k < j ==> (#[trigger] outs[k]).index != idx,
    ensures
        find_indexed(outs, idx) == Some(outs[j].output),
    decreases j,
{
    if j > 0 {
        lemma_find_indexed_at(outs.skip(1), idx, j - 1);
    }
}

/// Without the index present the lookup yields nothing.
proof fn lemma_find_indexed_none(outs: Seq<IndexedOutputView>, idx: int)
    requires
        forall|k: int| 0 <= k < outs.len() ==> (#[trigger] outs[k]).index != idx,
    ensures
        find_indexed(outs, idx) is None,
    decreases outs.len(),
{
    if outs.len() > 0 {
        lemma_find_indexed_none(outs.skip(1), idx);
    }
}

/// Finds the first unspent output registered under `(txid, index)`.
fn utxo_lookup(utxo: &Vec<UtxoEntry>, txid: &Vec<u8>, index: usize) -> (r: Option<TXOutput>)
    ensures
        match r {
            Some(o) => utxo_find(utxo.deep_view(), txid@, index as int) == Some(o@),
            None => utxo_find(utxo.deep_view(), txid@, index as int) is None,
        },
{
    let ghost uv = utxo.deep_view();
    proof {
        assert(uv.skip(0) =~= uv);
    }
    let mut i: usize = 0;
    while i < utxo.len()
        invariant
            i <= utxo.len(),
            uv == utxo.deep_view(),
            utxo_find(uv, txid@, index as int) == utxo_find(uv.skip(i as int), txid@, index as int),
        decreases utxo.len() - i,
    {
        let entry = &utxo[i];
        let ghost rest = uv.skip(i as int);
        proof {
            assert(rest[0] == entry@);
        }
        if bytes_equal(&entry.txid, txid) {
            let mut k: usize = 0;
            while k < entry.outputs.len()
                invariant
                    k <= entry.outputs.len(),
                    i < utxo.len(),
                    uv == utxo.deep_view(),
                    rest == uv.skip(i as int),
                    rest[0] == entry@,
                    entry@.txid == txid@,
                    utxo_find(uv, txid@, index as int) == utxo_find(rest, txid@, index as int),
                    forall|m: int| 0 <= m < k ==> (#[trigger] entry@.outputs[m]).index != index as int,
                decreases entry.outputs.len() - k,
            {
                if entry.outputs[k].index == index {
                    proof {
                        lemma_find_indexed_at(entry@.outputs, index as int, k as int);
                    }
                    let out = entry.outputs[k].output.clone();
                    proof {
                        assert(find_indexed(rest[0].outputs, index as int) == Some(out@));
                    }
                    return Some(out);
                }
                k = k + 1;
            }
            proof {
                lemma_find_indexed_none(entry@.outputs, index as int);
                assert(rest.skip(1) =~= uv.skip(i as int + 1));
            }
        } else {
            proof {
                assert(rest.skip(1) =~= uv.skip(i as int + 1));
            }
        }
        i = i + 1;
    }
    proof {
        assert(uv.skip(uv.len() as int) =~= Seq::<UtxoEntryView>::empty());
    }
    None
}

/// An input is authorized against the unspent set when the referenced
/// output exists and is unspent, the spender's public key hashes to the
/// output's owner hash, and the signature verifies over the transaction's
/// signable digest.
pub open spec fn input_authorized(
    inp: TXInputView,
    digest: Seq<u8>,
    u: Seq<UtxoEntryView>,
) -> bool {
    match utxo_find(u, inp.txid, inp.vout) {
        Some(out) => out.pub_key_hash == sha256_of(inp.pub_key) && ed25519_verifies(
            inp.pub_key,
            digest,
            inp.signature,
        ),
        None => false,
    }
}

/// A transaction is valid against the unspent set: coinbase transactions
/// need no authorization; every input of any other transaction must be
/// authorized.
pub open spec fn tx_valid(t: TransactionView, u: Seq<UtxoEntryView>) -> bool {
    is_coinbase(t) || (forall|i: int|
        0 <= i < t.vin.len() ==> input_authorized(
            #[trigger] t.vin[i],
            sha256_of(signable_payload(t)),
            u,
        ))
}

/// A candidate transaction list is acceptable for mining: non-empty, led
/// by a coinbase transaction, well-formed, and valid against the unspent
/// set at the current tip.
pub open spec fn txs_acceptable(ts: Seq<TransactionView>, u: Seq<UtxoEntryView>) -> bool {
    &&& ts.len() >= 1
    &&& txs_wf(ts)
    &&& is_coinbase(ts[0])
    &&& forall|i: int| 0 <= i < ts.len() ==> tx_valid(#[trigger] ts[i], u)
}

/// Decides `tx_valid` executably.
pub fn verify_transaction(tx: &Transaction, utxo: &Vec<UtxoEntry>) -> (r: bool)
    requires
        crate::transaction::outputs_wf(tx@.vout),
    ensures
        r == tx_valid(tx@, utxo.deep_view()),
{
    let ghost uv = utxo.deep_view();
    if tx.is_coinbase() {
        return true;
    }
    let digest = tx.signable_digest();
    let mut i: usize = 0;
    while i < tx.vin.len()
        invariant
            i <= tx.vin.len(),
            uv == utxo.deep_view(),
            !is_coinbase(tx@),
            digest@ == sha256_of(signable_payload(tx@)),
            forall|k: int|
                0 <= k < i ==> input_authorized(
                    #[trigger] tx@.vin[k],
                    sha256_of(signable_payload(tx@)),
                    uv,
                ),
        decreases tx.vin.len() - i,
    {
        let inp = &tx.vin[i];
        let authorized = match utxo_lookup(utxo, &inp.txid, inp.vout) {
            None => false,
            Some(out) => {
                let owner = sha256_digest(inp.pub_key.as_slice());
                bytes_equal(&out.pub_key_hash, &owner) && ed25519_verify(
                    inp.pub_key.as_slice(),
                    digest.as_slice(),
                    inp.signature.as_slice(),
                )
            },
        };
        if !authorized {
            proof {
                assert(!input_authorized(tx@.vin[i as int], sha256_of(signable_payload(tx@)), uv));
            }
            return false;
        }
        i = i + 1;
    }
    true
}

/// Copies a transaction list, preserving its abstraction.
fn clone_transactions(v: &Vec<Transaction>) -> (r: Vec<Transaction>)
    ensures
        r.deep_view() == v.deep_view(),
{
    let mut r: Vec<Transaction> = Vec::new();
    let mut i: usize = 0;
    while i < v.len()
        invariant
            i <= v.len(),
            r.deep_view() == v.deep_view().take(i as int),
        decreases v.len() - i,
    {
        let e = v[i].clone();
        let ghost prev = r;
        let ghost ev = e;
        r.push(e);
        i = i + 1;
        proof {
            crate::lemma_deep_view_push(prev, r, ev);
            assert(r.deep_view() =~= v.deep_view().take(i as int));
        }
    }
    proof {
        assert(v.deep_view().take(v.deep_view().len() as int) =~= v.deep_view());
    }
    r
}

/// Decides `txs_acceptable` executably.
fn check_txs_acceptable(transactions: &Vec<Transaction>, utxo: &Vec<UtxoEntry>) -> (r: bool)
    ensures
        r == txs_acceptable(transactions.deep_view(), utxo.deep_view()),
{
    let ghost tsv = transactions.deep_view();
    let ghost uv = utxo.deep_view();
    if transactions.len() == 0 {
        return false;
    }
    if !transactions[0].is_coinbase() {
        return false;
    }
    let mut i: usize = 0;
    while i < transactions.len()
        invariant
            i <= transactions.len(),
            tsv == transactions.deep_view(),
            uv == utxo.deep_view(),
            tsv.len() >= 1,
            is_coinbase(tsv[0]),
            forall|k: int| 0 <= k < i ==> tx_wf(#[trigger] tsv[k]) && tx_valid(tsv[k], uv),
        decreases transactions.len() - i,
    {
        let tx = &transactions[i];
        if !check_tx_wf(tx) {
            proof {
                assert(!tx_wf(tsv[i as int]));
                assert(!txs_wf(tsv));
            }
            return false;
        }
        if !verify_transaction(tx, utxo) {
            proof {
                assert(!tx_valid(tsv[i as int], uv));
            }
            return false;
        }
        i = i + 1;
    }
    proof {
        assert(txs_wf(tsv));
    }
    true
}

impl Blockchain {
    /// Derives the unspent-output set by a single backward walk from the
    /// tip to the genesis block, recording spends as they are encountered
    /// and finalizing each transaction's outputs when the walk visits it.
    pub fn compute_utxo_set(&self) -> (r: Vec<UtxoEntry>)
        requires
            chain_wf(self@),
        ensures
            r.deep_view() == utxo_of(self@),
    {
        let mut utxo: Vec<UtxoEntry> = Vec::new();
        let mut spent: Vec<OutPoint> = Vec::new();
        let mut iterator = self.iterator();
        proof {
            assert(spent.deep_view() =~= Seq::<(Seq<u8>, int)>::empty());
            assert(spent.deep_view().to_set() =~= Set::<(Seq<u8>, int)>::empty());
            assert(utxo.deep_view() =~= Seq::<UtxoEntryView>::empty());
            assert(utxo.deep_view() + utxo_walk(iter_remaining(iterator), spent.deep_view().to_set())
                =~= utxo_walk(chain_of(self@), Set::empty()));
        }
        loop
            invariant
                iter_wf(iterator),
                utxo_of(self@) == utxo.deep_view() + utxo_walk(
                    iter_remaining(iterator),
                    spent.deep_view().to_set(),
                ),
            decreases iter_remaining(iterator).len(),
        {
            let ghost rem = iter_remaining(iterator);
            let ghost spent0 = spent.deep_view().to_set();
            let ghost acc0 = utxo.deep_view();
            let option = iterator.next();
            if option.is_none() {
                proof {
                    assert(utxo.deep_view() =~= utxo.deep_view() + utxo_walk(rem, spent0));
                }
                return utxo;
            }
            let block = option.unwrap();
            let ghost ts = block@.transactions;
            record_spends(&mut spent, &block.transactions);
            let ghost spent2 = spent.deep_view().to_set();
            proof {
                assert(rem[0] == block@);
                assert(spent2 == spent0.union(spends_of_txs(ts)));
                assert(utxo_walk(rem, spent0) == entries_of_txs(ts, spent2) + utxo_walk(
                    rem.skip(1),
                    spent2,
                ));
                assert(ts.skip(0) =~= ts);
                assert(acc0 + (entries_of_txs(ts, spent2) + utxo_walk(rem.skip(1), spent2)) =~= (
                acc0 + entries_of_txs(ts, spent2)) + utxo_walk(rem.skip(1), spent2));
            }
            let mut j: usize = 0;
            while j < block.transactions.len()
                invariant
                    j <= block.transactions.len(),
                    ts == block.transactions.deep_view(),
                    spent2 == spent.deep_view().to_set(),
                    iter_wf(iterator),
                    iter_remaining(iterator) == rem.skip(1),
                    utxo.deep_view() + entries_of_txs(ts.skip(j as int), spent2) == acc0
                        + entries_of_txs(ts, spent2),
                    utxo_of(self@) == (acc0 + entries_of_txs(ts, spent2)) + utxo_walk(
                        rem.skip(1),
                        spent2,
                    ),
                decreases block.transactions.len() - j,
            {
                let tx = &block.transactions[j];
                let ghost tv = tx@;
                let mut outs: Vec<IndexedOutput> = Vec::new();
                let mut k: usize = 0;
                while k < tx.vout.len()
                    invariant
                        k <= tx.vout.len(),
                        tv == tx@,
                        spent2 == spent.deep_view().to_set(),
                        outs.deep_view() == unspent_upto(tv, spent2, k as int),
                    decreases tx.vout.len() - k,
                {
                    if !spent_contains(&spent, &tx.id, k) {
                        let e = IndexedOutput { index: k, output: tx.vout[k].clone() };
                        let ghost prev = outs;
                        let ghost ev = e;
                        outs.push(e);
                        proof {
                            crate::lemma_deep_view_push(prev, outs, ev);
                        }
                    }
                    k = k + 1;
                    proof {
                        assert(outs.deep_view() =~= unspent_upto(tv, spent2, k as int));
                    }
                }
                proof {
                    assert(outs.deep_view() == unspent_of_tx(tv, spent2));
                    assert(ts.skip(j as int)[0] == tv);
                    assert(ts.skip(j as int).skip(1) =~= ts.skip(j as int + 1));
                }
                if outs.len() > 0 {
                    let entry = UtxoEntry { txid: clone_bytes(&tx.id), outputs: outs };
                    let ghost prev = utxo;
                    let ghost ev = entry;
                    utxo.push(entry);
                    proof {
                        crate::lemma_deep_view_push(prev, utxo, ev);
                        assert(utxo.deep_view() + entries_of_txs(ts.skip(j as int + 1), spent2)
                            =~= prev.deep_view() + entries_of_txs(ts.skip(j as int), spent2));
                    }
                } else {
                    proof {
                        assert(unspent_of_tx(ts.skip(j as int)[0], spent2).len() == 0);
                        assert(utxo.deep_view() + entries_of_txs(ts.skip(j as int + 1), spent2)
                            =~= utxo.deep_view() + entries_of_txs(ts.skip(j as int), spent2));
                    }
                }
                j = j + 1;
            }
            proof {
                assert(ts.skip(ts.len() as int) =~= Seq::<TransactionView>::empty());
                assert(utxo.deep_view() + entries_of_txs(ts.skip(ts.len() as int), spent2)
                    =~= utxo.deep_view());
                assert(utxo.deep_view() + utxo_walk(iter_remaining(iterator), spent2) =~= (acc0
                    + entries_of_txs(ts, spent2)) + utxo_walk(rem.skip(1), spent2));
            }
        }
    }

    /// Validates the candidate transactions against the unspent set at the
    /// current tip, mines a block extending the tip, and commits it: the
    /// block is inserted and the tip advanced to it in one step.
    #[verifier::rlimit(100)]
    pub fn mine_block(&mut self, transactions: &Vec<Transaction>) -> (r: Result<Block, ChainError>)
        requires
            chain_wf(old(self)@),
        ensures
            chain_wf(final(self)@),
            match r {
                Ok(b) => {
                    &&& txs_acceptable(transactions.deep_view(), utxo_of(old(self)@))
                    &&& block_wf(b@)
                    &&& b@.prev_hash == old(self)@.tip_hash
                    &&& b@.height == tip_height(old(self)@) + 1
                    &&& b@.transactions == transactions.deep_view()
                    &&& final(self)@.blocks == old(self)@.blocks.push(b@)
                    &&& final(self)@.tip_hash == b@.hash
                },
                Err(e) => {
                    &&& final(self)@ == old(self)@
                    &&& (e == ChainError::Validation <==> !txs_acceptable(
                        transactions.deep_view(),
                        utxo_of(old(self)@),
                    ))
                    &&& (e == ChainError::Validation || e == ChainError::MiningExhausted || e
                        == ChainError::Consistency)
                },
            },
    {
        let ghost s = self@;
        let utxo = self.compute_utxo_set();
        if !check_txs_acceptable(transactions, &utxo) {
            return Err(ChainError::Validation);
        }
        let best = self.get_best_height();
        let tip = self.get_tip_hash();
        proof {
            let ti = index_of_hash(s.blocks, s.tip_hash);
            assert(0 <= ti < s.blocks.len() && s.blocks[ti].hash == s.tip_hash);
            assert(block_wf(s.blocks[ti]));
            assert(tip@.len() == crate::DIGEST_LEN);
            assert(best < s.blocks.len());
            assert(s.blocks.len() == self.blocks@.len());
        }
        let n = self.blocks.len();
        proof {
            assert(best < n);
        }
        let txs_copy = clone_transactions(transactions);
        let block = match crate::block::Block::new_block(tip, txs_copy, best + 1) {
            Ok(b) => b,
            Err(e) => {
                proof {
                    assert(e == ChainError::MiningExhausted);
                }
                return Err(e);
            },
        };
        if find_block_index(&self.blocks, &block.hash).is_some() {
            return Err(ChainError::Consistency);
        }
        let ghost bv = block@;
        proof {
            lemma_index_of(s.blocks, s.tip_hash, index_of_hash(s.blocks, s.tip_hash));
            assert(add_accepts(s, bv));
        }
        let b2 = block.clone();
        let ghost gb = b2;
        let ghost prev_vec = self.blocks;
        self.blocks.push(b2);
        self.tip_hash = clone_bytes(&block.hash);
        proof {
            crate::lemma_deep_view_push(prev_vec, self.blocks, gb);
            assert(self@.blocks == s.blocks.push(bv));
            lemma_add_preserves_wf(s, bv);
            assert(bv.height > tip_height(s));
            assert(self@ == add_result(s, bv));
        }
        Ok(block)
    }
}

/// One unspent-set entry keyed by the lowercase hexadecimal rendering of
/// the defining transaction's id.
pub struct HexUtxoEntry {
    pub txid_hex: String,
    pub outputs: Vec<TXOutput>,
}

/// Mathematical model of a hex-keyed unspent-set entry.
pub ghost struct HexUtxoEntryView {
    pub txid_hex: Seq<char>,
    pub outputs: Seq<TXOutputView>,
}

impl View for HexUtxoEntry {
    type V = HexUtxoEntryView;

    open spec fn view(&self) -> HexUtxoEntryView {
        HexUtxoEntryView { txid_hex: self.txid_hex@, outputs: self.outputs.deep_view() }
    }
}

impl DeepView for HexUtxoEntry {
    type V = HexUtxoEntryView;

    open spec fn deep_view(&self) -> HexUtxoEntryView {
        self@
    }
}

impl Blockchain {
    /// The unspent-output set keyed by the hexadecimal form of each
    /// transaction id, with each entry's outputs in index order.
    pub fn find_utxo(&self) -> (r: Vec<HexUtxoEntry>)
        requires
            chain_wf(self@),
        ensures
            r.deep_view().len() == utxo_of(self@).len(),
            forall|i: int|
                0 <= i < r.deep_view().len() ==> {
                    let e = #[trigger] r.deep_view()[i];
                    let u = utxo_of(self@)[i];
                    &&& e.txid_hex == crate::hex_lower(u.txid)
                    &&& e.outputs.len() == u.outputs.len()
                    &&& forall|j: int|
                        0 <= j < e.outputs.len() ==> #[trigger] e.outputs[j] == u.outputs[j].output
                },
    {
        let ghost uview = utxo_of(self@);
        let utxo = self.compute_utxo_set();
        let mut r: Vec<HexUtxoEntry> = Vec::new();
        let mut i: usize = 0;
        while i < utxo.len()
            invariant
                i <= utxo.len(),
                uview == utxo.deep_view(),
                r.deep_view().len() == i,
                forall|m: int|
                    0 <= m < i ==> {
                        let e = #[trigger] r.deep_view()[m];
                        let u = uview[m];
                        &&& e.txid_hex == crate::hex_lower(u.txid)
                        &&& e.outputs.len() == u.outputs.len()
                        &&& forall|j: int|
                            0 <= j < e.outputs.len() ==> #[trigger] e.outputs[j] == u.outputs[j].output
                    },
            decreases utxo.len() - i,
        {
            let entry = &utxo[i];
            let txid_hex = crate::hex_encode(entry.txid.as_slice());
            let mut outputs: Vec<TXOutput> = Vec::new();
            let mut j: usize = 0;
            while j < entry.outputs.len()
                invariant
                    j <= entry.outputs.len(),
                    outputs.deep_view().len() == j,
                    forall|m: int|
                        0 <= m < j ==> #[trigger] outputs.deep_view()[m] == entry@.outputs[m].output,
                decreases entry.outputs.len() - j,
            {
                let e = entry.outputs[j].output.clone();
                let ghost prev = outputs;
                let ghost ev = e;
                outputs.push(e);
                j = j + 1;
                proof {
                    crate::lemma_deep_view_push(prev, outputs, ev);
                }
            }
            let he = HexUtxoEntry { txid_hex, outputs };
            let ghost prev = r;
            let ghost ev = he;
            r.push(he);
            i = i + 1;
            proof {
                crate::lemma_deep_view_push(prev, r, ev);
            }
        }
        r
    }
}

/// With no recorded spend touching `t`, every one of its first `n` outputs
/// is unspent.
proof fn lemma_unspent_all(t: TransactionView, spent: Set<(Seq<u8>, int)>, n: int)
    requires
        0 <= n,
        forall|k: int| 0 <= k < n ==> !spent.contains((t.id, k)),
    ensures
        unspent_upto(t, spent, n).len() == n,
        forall|j: int|
            0 <= j < n ==> (#[trigger] unspent_upto(t, spent, n)[j]).index == j && unspent_upto(
                t,
                spent,
                n,
            )[j].output == t.vout[j],
    decreases n,
{
    if n > 0 {
        lemma_unspent_all(t, spent, n - 1);
    }
}

/// Law: on a store holding only the genesis block, the unspent set has
/// exactly one entry: the coinbase transaction's id mapped to all of its
/// outputs, in index order.
pub proof fn lemma_utxo_of_genesis_store(s: ChainView)
    requires
        chain_wf(s),
        s.blocks.len() == 1,
    ensures
        utxo_of(s).len() == 1,
        utxo_of(s)[0].txid == s.blocks[0].transactions[0].id,
        utxo_of(s)[0].outputs.len() == s.blocks[0].transactions[0].vout.len(),
        forall|j: int|
            0 <= j < s.blocks[0].transactions[0].vout.len() ==> (#[trigger] utxo_of(
                s,
            )[0].outputs[j]).index == j && utxo_of(s)[0].outputs[j].output
                == s.blocks[0].transactions[0].vout[j],
{
    let g = s.blocks[0];
    let cb = g.transactions[0];
    let ti = index_of_hash(s.blocks, s.tip_hash);
    assert(0 <= ti < s.blocks.len() && s.blocks[ti].hash == s.tip_hash);
    assert(block_at(s.blocks, s.tip_hash) == g);
    assert(block_wf(g));
    assert(g.prev_hash.len() == 0);
    assert(chain_of(s) =~= seq![g]);
    assert(g.transactions =~= seq![cb]);

    // the coinbase transaction spends nothing
    let ghost empty_spent = Set::<(Seq<u8>, int)>::empty();
    assert(is_coinbase(cb));
    assert(g.transactions.drop_last() =~= Seq::<TransactionView>::empty());
    assert(g.transactions.last() == cb);
    assert(spends_of_txs(g.transactions.drop_last()) == empty_spent);
    assert(spends_of_tx(cb) == empty_spent);
    assert(spends_of_txs(g.transactions) =~= empty_spent);
    let spent2 = empty_spent.union(spends_of_txs(g.transactions));
    assert(spent2 =~= empty_spent);

    // so every output of it is unspent
    assert(tx_wf(cb));
    lemma_unspent_all(cb, spent2, cb.vout.len() as int);
    let outs = unspent_of_tx(cb, spent2);
    assert(outs.len() == cb.vout.len());
    assert(outs.len() >= 1);

    // the walk over the one-block chain yields that single entry
    assert(seq![g].skip(1) =~= Seq::<BlockView>::empty());
    assert(g.transactions.skip(1) =~= Seq::<TransactionView>::empty());
    assert(utxo_walk(seq![g], empty_spent) == entries_of_txs(g.transactions, spent2) + utxo_walk(
        seq![g].skip(1),
        spent2,
    ));
    assert(g.transactions[0] == cb);
    assert(unspent_of_tx(g.transactions[0], spent2) == outs);
    assert(entries_of_txs(g.transactions.skip(1), spent2) =~= Seq::<UtxoEntryView>::empty());
    assert(entries_of_txs(g.transactions, spent2) =~= seq![
        UtxoEntryView { txid: cb.id, outputs: outs },
    ]);
    assert(utxo_of(s) =~= seq![UtxoEntryView { txid: cb.id, outputs: outs }]);
}

/// Law: on an accepted block the tip moves to it exactly when its height
/// exceeds the current tip height; ties and lower heights keep the
/// existing tip, and duplicates or rejected blocks change nothing.
pub proof fn lemma_add_block_tip_rule(s: ChainView, b: BlockView)
    requires
        chain_wf(s),
    ensures
        !contains_hash(s.blocks, b.hash) && add_accepts(s, b) && b.height <= tip_height(s)
            ==> add_result(s, b).tip_hash == s.tip_hash,
        !contains_hash(s.blocks, b.hash) && add_accepts(s, b) && b.height > tip_height(s)
            ==> add_result(s, b).tip_hash == b.hash,
        contains_hash(s.blocks, b.hash) || !add_accepts(s, b) ==> add_result(s, b) == s,
{
}

/// Law: adding the same block twice yields the same store state as adding
/// it once.
pub proof fn lemma_add_block_idempotent(s: ChainView, b: BlockView)
    requires
        chain_wf(s),
    ensures
        add_result(add_result(s, b), b) == add_result(s, b),
{
    let s1 = add_result(s, b);
    if !contains_hash(s.blocks, b.hash) && add_accepts(s, b) {
        assert(s1.blocks == s.blocks.push(b));
        assert(s1.blocks[s.blocks.len() as int] == b);
        assert(contains_hash(s1.blocks, b.hash));
    }
}

/// Law: every committed block of a well-formed store carries a hash that
/// re-hashing its stored fields reproduces, and that hash lies below the
/// difficulty target.
pub proof fn lemma_committed_blocks_valid(s: ChainView, i: int)
    requires
        chain_wf(s),
        0 <= i < s.blocks.len(),
    ensures
        s.blocks[i].hash == sha256_of(crate::block::payload_of(s.blocks[i])),
        crate::proof_of_work::meets_target(s.blocks[i].hash),
{
    assert(block_wf(s.blocks[i]));
}

/// Accepting a block preserves well-formedness of the store.
proof fn lemma_add_preserves_wf(s: ChainView, b: BlockView)
    requires
        chain_wf(s),
        add_accepts(s, b),
    ensures
        chain_wf(add_result(s, b)),
        add_result(s, b).blocks == s.blocks.push(b),
        tip_height(add_result(s, b)) == if b.height > tip_height(s) {
            b.height as int
        } else {
            tip_height(s)
        },
{
    let bs = s.blocks;
    let nbs = bs.push(b);
    let s2 = add_result(s, b);
    assert(s2.blocks == nbs);

    // hashes stay distinct: the new block's hash was not present
    assert forall|i: int, j: int|
        0 <= i < nbs.len() && 0 <= j < nbs.len() && i != j implies (#[trigger] nbs[i]).hash != (
    #[trigger] nbs[j]).hash by {
        if i < bs.len() && j < bs.len() {
            assert(nbs[i] == bs[i] && nbs[j] == bs[j]);
        } else if j == bs.len() {
            assert(nbs[j] == b && nbs[i] == bs[i]);
            if bs[i].hash == b.hash {
                assert(contains_hash(bs, b.hash));
            }
        } else {
            assert(nbs[i] == b && nbs[j] == bs[j]);
            if bs[j].hash == b.hash {
                assert(contains_hash(bs, b.hash));
            }
        }
    }

    // every block, old or new, is well-formed
    assert forall|i: int| 0 <= i < nbs.len() implies block_wf(#[trigger] nbs[i]) by {
        if i < bs.len() {
            assert(nbs[i] == bs[i]);
        } else {
            assert(nbs[i] == b);
        }
    }
    assert(nbs[0] == bs[0]);

    // the parent of the new block has height one below it, so the new
    // block sits at height at least one
    let pb = block_at(bs, b.prev_hash);
    assert(pb.height >= 0);
    assert forall|i: int| 1 <= i < nbs.len() implies (#[trigger] nbs[i].height) >= 1 by {
        if i < bs.len() {
            assert(nbs[i] == bs[i]);
        } else {
            assert(nbs[i] == b);
        }
    }

    // parent links still resolve, to the same parents as before
    assert forall|i: int| 1 <= i < nbs.len() implies #[trigger] linked_at(nbs, i) by {
        if i < bs.len() {
            assert(nbs[i] == bs[i]);
            assert(linked_at(bs, i));
            lemma_lookup_after_push(bs, b, bs[i].prev_hash);
        } else {
            assert(nbs[i] == b);
            lemma_lookup_after_push(bs, b, b.prev_hash);
        }
    }

    // the tip still names a block, and remains the highest one
    let old_tip_i = index_of_hash(bs, s.tip_hash);
    assert(0 <= old_tip_i < bs.len() && bs[old_tip_i].hash == s.tip_hash);
    lemma_lookup_after_push(bs, b, s.tip_hash);
    if b.height > tip_height(s) {
        lemma_index_of(nbs, b.hash, bs.len() as int);
        assert(s2.tip_hash == b.hash);
        assert(tip_height(s2) == b.height as int);
        assert forall|i: int|
            0 <= i < nbs.len() implies (#[trigger] nbs[i].height) <= tip_height(s2) by {
            if i < bs.len() {
                assert(nbs[i] == bs[i]);
                assert(bs[i].height <= tip_height(s));
            } else {
                assert(nbs[i] == b);
            }
        }
        assert(b.height == pb.height + 1);
        assert(pb.height <= tip_height(s) < bs.len());
    } else {
        assert(s2.tip_hash == s.tip_hash);
        assert(tip_height(s2) == tip_height(s));
        assert forall|i: int|
            0 <= i < nbs.len() implies (#[trigger] nbs[i].height) <= tip_height(s2) by {
            if i < bs.len() {
                assert(nbs[i] == bs[i]);
            } else {
                assert(nbs[i] == b);
            }
        }
    }
}

} // verus!
