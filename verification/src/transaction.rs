//! The transaction model: immutable value types for transactions, inputs
//! and outputs, their canonical byte encoding, and the signable digest used
//! to authorize spends.

use vstd::prelude::*;

use crate::{sha256_digest, sha256_of, u64_be, push_bytes, push_u64_be, clone_bytes, DIGEST_LEN};

verus! {

/// The block reward paid by a coinbase transaction.
pub const SUBSIDY: i32 = 10;

/// Mathematical model of a transaction input.
pub ghost struct TXInputView {
    pub txid: Seq<u8>,
    pub vout: int,
    pub signature: Seq<u8>,
    pub pub_key: Seq<u8>,
}

/// Mathematical model of a transaction output.
pub ghost struct TXOutputView {
    pub value: int,
    pub pub_key_hash: Seq<u8>,
}

/// Mathematical model of a transaction.
pub ghost struct TransactionView {
    pub id: Seq<u8>,
    pub vin: Seq<TXInputView>,
    pub vout: Seq<TXOutputView>,
}

/// A reference to an output of an earlier transaction, together with the
/// material needed to prove authorization. An empty `txid` is the coinbase
/// sentinel: no real predecessor is spent.
pub struct TXInput {
    pub txid: Vec<u8>,
    pub vout: usize,
    pub signature: Vec<u8>,
    pub pub_key: Vec<u8>,
}

/// A value owned by whoever can present a public key hashing to
/// `pub_key_hash`.
pub struct TXOutput {
    pub value: i32,
    pub pub_key_hash: Vec<u8>,
}

/// A transaction: an ordered list of inputs spending earlier outputs and an
/// ordered list of newly produced outputs, identified by the digest of its
/// canonical encoding.
pub struct Transaction {
    pub id: Vec<u8>,
    pub vin: Vec<TXInput>,
    pub vout: Vec<TXOutput>,
}

impl View for TXInput {
    type V = TXInputView;

    open spec fn view(&self) -> TXInputView {
        TXInputView {
            txid: self.txid@,
            vout: self.vout as int,
            signature: self.signature@,
            pub_key: self.pub_key@,
        }
    }
}

impl DeepView for TXInput {
    type V = TXInputView;

    open spec fn deep_view(&self) -> TXInputView {
        self@
    }
}

impl View for TXOutput {
    type V = TXOutputView;

    open spec fn view(&self) -> TXOutputView {
        TXOutputView { value: self.value as int, pub_key_hash: self.pub_key_hash@ }
    }
}

impl DeepView for TXOutput {
    type V = TXOutputView;

    open spec fn deep_view(&self) -> TXOutputView {
        self@
    }
}

impl View for Transaction {
    type V = TransactionView;

    open spec fn view(&self) -> TransactionView {
        TransactionView { id: self.id@, vin: self.vin.deep_view(), vout: self.vout.deep_view() }
    }
}

impl DeepView for Transaction {
    type V = TransactionView;

    open spec fn deep_view(&self) -> TransactionView {
        self@
    }
}

/// Canonical encoding of one input: each variable-width field is preceded
/// by its big-endian length.
pub open spec fn input_bytes(i: TXInputView) -> Seq<u8> {
    u64_be(i.txid.len() as u64) + i.txid + u64_be(i.vout as u64) + u64_be(
        i.signature.len() as u64,
    ) + i.signature + u64_be(i.pub_key.len() as u64) + i.pub_key
}

/// Canonical encoding of one output.
pub open spec fn output_bytes(o: TXOutputView) -> Seq<u8> {
    u64_be(o.value as u64) + u64_be(o.pub_key_hash.len() as u64) + o.pub_key_hash
}

pub open spec fn inputs_bytes(s: Seq<TXInputView>) -> Seq<u8>
    decreases s.len(),
{
    if s.len() == 0 {
        Seq::empty()
    } else {
        inputs_bytes(s.drop_last()) + input_bytes(s.last())
    }
}

pub open spec fn outputs_bytes(s: Seq<TXOutputView>) -> Seq<u8>
    decreases s.len(),
{
    if s.len() == 0 {
        Seq::empty()
    } else {
        outputs_bytes(s.drop_last()) + output_bytes(s.last())
    }
}

/// Canonical encoding of a transaction body: the inputs and outputs, each
/// list preceded by its length. The `id` field is excluded to avoid
/// circularity.
pub open spec fn tx_payload(vin: Seq<TXInputView>, vout: Seq<TXOutputView>) -> Seq<u8> {
    u64_be(vin.len() as u64) + inputs_bytes(vin) + u64_be(vout.len() as u64) + outputs_bytes(vout)
}

/// Every output carries a non-negative amount.
pub open spec fn outputs_wf(vout: Seq<TXOutputView>) -> bool {
    forall|i: int| 0 <= i < vout.len() ==> (#[trigger] vout[i]).value >= 0
}

/// Well-formedness of a transaction: non-empty inputs and outputs,
/// non-negative amounts, and an `id` that is the digest of the canonical
/// encoding of the inputs and outputs.
pub open spec fn tx_wf(t: TransactionView) -> bool {
    &&& t.vin.len() >= 1
    &&& t.vout.len() >= 1
    &&& outputs_wf(t.vout)
    &&& t.id == sha256_of(tx_payload(t.vin, t.vout))
    &&& t.id.len() == DIGEST_LEN
}

/// A coinbase transaction has exactly one input, carrying the sentinel
/// (empty) predecessor id.
pub open spec fn is_coinbase(t: TransactionView) -> bool {
    t.vin.len() == 1 && t.vin[0].txid.len() == 0
}

/// The inputs of `vin` with every signature cleared, as used for the
/// signable digest.
pub open spec fn cleared_inputs(vin: Seq<TXInputView>) -> Seq<TXInputView> {
    vin.map(
        |i: int, x: TXInputView|
            TXInputView { txid: x.txid, vout: x.vout, signature: Seq::empty(), pub_key: x.pub_key },
    )
}

/// The digest a spender signs: the transaction re-encoded with all
/// signature fields cleared, so that no signature covers its own value.
pub open spec fn signable_payload(t: TransactionView) -> Seq<u8> {
    tx_payload(cleared_inputs(t.vin), t.vout)
}

impl TXInput {
    pub fn new(txid: Vec<u8>, vout: usize, signature: Vec<u8>, pub_key: Vec<u8>) -> (r: TXInput)
        ensures
            r@ == (TXInputView {
                txid: txid@,
                vout: vout as int,
                signature: signature@,
                pub_key: pub_key@,
            }),
    {
        TXInput { txid, vout, signature, pub_key }
    }
}

impl Clone for TXInput {
    fn clone(&self) -> (r: Self)
        ensures
            r@ == self@,
    {
        TXInput {
            txid: clone_bytes(&self.txid),
            vout: self.vout,
            signature: clone_bytes(&self.signature),
            pub_key: clone_bytes(&self.pub_key),
        }
    }
}

impl TXOutput {
    pub fn new(value: i32, pub_key_hash: Vec<u8>) -> (r: TXOutput)
        requires
            value >= 0,
        ensures
            r@ == (TXOutputView { value: value as int, pub_key_hash: pub_key_hash@ }),
    {
        TXOutput { value, pub_key_hash }
    }

    pub fn get_value(&self) -> (r: i32)
        ensures
            r as int == self@.value,
    {
        self.value
    }

    pub fn get_pub_key_hash(&self) -> (r: &[u8])
        ensures
            r@ == self@.pub_key_hash,
    {
        self.pub_key_hash.as_slice()
    }
}

impl Clone for TXOutput {
    fn clone(&self) -> (r: Self)
        ensures
            r@ == self@,
    {
        TXOutput { value: self.value, pub_key_hash: clone_bytes(&self.pub_key_hash) }
    }
}

/// Encodes the canonical transaction body.
fn tx_payload_bytes(vin: &Vec<TXInput>, vout: &Vec<TXOutput>) -> (r: Vec<u8>)
    requires
        outputs_wf(vout.deep_view()),
    ensures
        r@ == tx_payload(vin.deep_view(), vout.deep_view()),
{
    let ghost vinv = vin.deep_view();
    let ghost voutv = vout.deep_view();
    let mut r: Vec<u8> = Vec::new();
    push_u64_be(&mut r, vin.len() as u64);
    let mut i: usize = 0;
    while i < vin.len()
        invariant
            i <= vin.len(),
            vinv == vin.deep_view(),
            r@ == u64_be(vinv.len() as u64) + inputs_bytes(vinv.take(i as int)),
        decreases vin.len() - i,
    {
        let x = &vin[i];
        push_u64_be(&mut r, x.txid.len() as u64);
        push_bytes(&mut r, x.txid.as_slice());
        push_u64_be(&mut r, x.vout as u64);
        push_u64_be(&mut r, x.signature.len() as u64);
        push_bytes(&mut r, x.signature.as_slice());
        push_u64_be(&mut r, x.pub_key.len() as u64);
        push_bytes(&mut r, x.pub_key.as_slice());
        i = i + 1;
        proof {
            assert(vinv.take(i as int).drop_last() =~= vinv.take(i as int - 1));
            assert(r@ =~= u64_be(vinv.len() as u64) + inputs_bytes(vinv.take(i as int)));
        }
    }
    proof {
        assert(vinv.take(vinv.len() as int) =~= vinv);
    }
    push_u64_be(&mut r, vout.len() as u64);
    let ghost mid = u64_be(vinv.len() as u64) + inputs_bytes(vinv) + u64_be(voutv.len() as u64);
    let mut j: usize = 0;
    while j < vout.len()
        invariant
            j <= vout.len(),
            voutv == vout.deep_view(),
            outputs_wf(voutv),
            r@ == mid + outputs_bytes(voutv.take(j as int)),
        decreases vout.len() - j,
    {
        let o = &vout[j];
        push_u64_be(&mut r, o.value as u64);
        push_u64_be(&mut r, o.pub_key_hash.len() as u64);
        push_bytes(&mut r, o.pub_key_hash.as_slice());
        j = j + 1;
        proof {
            assert(voutv.take(j as int).drop_last() =~= voutv.take(j as int - 1));
            assert(r@ =~= mid + outputs_bytes(voutv.take(j as int)));
        }
    }
    proof {
        assert(voutv.take(voutv.len() as int) =~= voutv);
        assert(r@ =~= tx_payload(vinv, voutv));
    }
    r
}

impl Transaction {
    /// Assembles a transaction from its inputs and outputs and computes its
    /// id as the digest of the canonical encoding.
    pub fn new(vin: Vec<TXInput>, vout: Vec<TXOutput>) -> (r: Transaction)
        requires
            vin.deep_view().len() >= 1,
            vout.deep_view().len() >= 1,
            outputs_wf(vout.deep_view()),
        ensures
            tx_wf(r@),
            r@.vin == vin.deep_view(),
            r@.vout == vout.deep_view(),
            r@.id == sha256_of(tx_payload(vin.deep_view(), vout.deep_view())),
    {
        let payload = tx_payload_bytes(&vin, &vout);
        let id = sha256_digest(payload.as_slice());
        Transaction { id, vin, vout }
    }

    /// Builds the coinbase transaction of a new block: a single sentinel
    /// input and a single output paying the fixed reward to `to`.
    pub fn new_coinbase_tx(to: &[u8]) -> (r: Transaction)
        ensures
            tx_wf(r@),
            is_coinbase(r@),
            r@.vout.len() == 1,
            r@.vout[0].value == SUBSIDY as int,
            r@.vout[0].pub_key_hash == to@,
    {
        let mut to_bytes: Vec<u8> = Vec::new();
        push_bytes(&mut to_bytes, to);
        let input = TXInput::new(Vec::new(), 0, Vec::new(), Vec::new());
        let output = TXOutput::new(SUBSIDY, to_bytes);
        let mut vin: Vec<TXInput> = Vec::new();
        vin.push(input);
        let mut vout: Vec<TXOutput> = Vec::new();
        vout.push(output);
        Transaction::new(vin, vout)
    }

    pub fn get_id(&self) -> (r: &[u8])
        ensures
            r@ == self@.id,
    {
        self.id.as_slice()
    }

    pub fn get_vout(&self) -> (r: Vec<TXOutput>)
        ensures
            r.deep_view() == self@.vout,
    {
        let mut r: Vec<TXOutput> = Vec::new();
        let mut i: usize = 0;
        while i < self.vout.len()
            invariant
                i <= self.vout.len(),
                r.deep_view() == self.vout.deep_view().take(i as int),
        decreases self.vout.len() - i,
        {
            let e = self.vout[i].clone();
            let ghost prev = r;
            let ghost ev = e;
            r.push(e);
            i = i + 1;
            proof {
                crate::lemma_deep_view_push(prev, r, ev);
                assert(r.deep_view() =~= self.vout.deep_view().take(i as int));
            }
        }
        proof {
            assert(self.vout.deep_view().take(self.vout.deep_view().len() as int) =~= self@.vout);
        }
        r
    }

    /// Whether this transaction is a coinbase transaction.
    pub fn is_coinbase(&self) -> (r: bool)
        ensures
            r == is_coinbase(self@),
    {
        self.vin.len() == 1 && self.vin[0].txid.len() == 0
    }

    /// The digest a spender signs: this transaction re-encoded with every
    /// input's signature cleared, then hashed.
    pub fn signable_digest(&self) -> (r: Vec<u8>)
        requires
            outputs_wf(self@.vout),
        ensures
            r@ == sha256_of(signable_payload(self@)),
            r@.len() == DIGEST_LEN,
    {
        let mut cleared: Vec<TXInput> = Vec::new();
        let mut i: usize = 0;
        while i < self.vin.len()
            invariant
                i <= self.vin.len(),
                cleared.deep_view() == cleared_inputs(self.vin.deep_view()).take(i as int),
            decreases self.vin.len() - i,
        {
            let x = &self.vin[i];
            let e = TXInput::new(clone_bytes(&x.txid), x.vout, Vec::new(), clone_bytes(&x.pub_key));
            let ghost prev = cleared;
            let ghost ev = e;
            cleared.push(e);
            i = i + 1;
            proof {
                crate::lemma_deep_view_push(prev, cleared, ev);
                assert(cleared.deep_view() =~= cleared_inputs(self.vin.deep_view()).take(i as int));
            }
        }
        proof {
            let ci = cleared_inputs(self.vin.deep_view());
            assert(ci.take(ci.len() as int) =~= ci);
        }
        let mut vout_copy: Vec<TXOutput> = Vec::new();
        let mut j: usize = 0;
        while j < self.vout.len()
            invariant
                j <= self.vout.len(),
                outputs_wf(self@.vout),
                vout_copy.deep_view() == self.vout.deep_view().take(j as int),
            decreases self.vout.len() - j,
        {
            let e = self.vout[j].clone();
            let ghost prev = vout_copy;
            let ghost ev = e;
            vout_copy.push(e);
            j = j + 1;
            proof {
                crate::lemma_deep_view_push(prev, vout_copy, ev);
                assert(vout_copy.deep_view() =~= self.vout.deep_view().take(j as int));
            }
        }
        proof {
            assert(self.vout.deep_view().take(self.vout.deep_view().len() as int) =~= self@.vout);
        }
        let payload = tx_payload_bytes(&cleared, &vout_copy);
        sha256_digest(payload.as_slice())
    }
}

/// Named result of Ed25519 signature verification: acceptance is a pure
/// function of the public key, message and signature bytes.
pub uninterp spec fn ed25519_verifies(pub_key: Seq<u8>, msg: Seq<u8>, sig: Seq<u8>) -> bool;

/// Relies on ring's `signature::UnparsedPublicKey::verify` with the
/// `ED25519` algorithm: deterministic acceptance or rejection of a
/// signature over a message under a public key.
#[verifier::external_body]
pub fn ed25519_verify(pub_key: &[u8], msg: &[u8], sig: &[u8]) -> (r: bool)
    ensures
        r == ed25519_verifies(pub_key@, msg@, sig@),
{
    let key = ring::signature::UnparsedPublicKey::new(&ring::signature::ED25519, pub_key);
    key.verify(msg, sig).is_ok()
}

/// Decides `tx_wf` executably by recomputing the id from the canonical
/// encoding, so that externally supplied data can be validated.
pub fn check_tx_wf(tx: &Transaction) -> (r: bool)
    ensures
        r == tx_wf(tx@),
{
    if tx.vin.len() == 0 || tx.vout.len() == 0 {
        return false;
    }
    let mut i: usize = 0;
    while i < tx.vout.len()
        invariant
            i <= tx.vout.len(),
            forall|j: int| 0 <= j < i ==> (#[trigger] tx.vout.deep_view()[j]).value >= 0,
        decreases tx.vout.len() - i,
    {
        if tx.vout[i].value < 0 {
            proof {
                assert(tx@.vout[i as int].value < 0);
                assert(!outputs_wf(tx@.vout));
            }
            return false;
        }
        i = i + 1;
    }
    let payload = tx_payload_bytes(&tx.vin, &tx.vout);
    let expected = sha256_digest(payload.as_slice());
    crate::bytes_equal(&tx.id, &expected)
}

impl Clone for Transaction {
    fn clone(&self) -> (r: Self)
        ensures
            r@ == self@,
    {
        let mut vin: Vec<TXInput> = Vec::new();
        let mut i: usize = 0;
        while i < self.vin.len()
            invariant
                i <= self.vin.len(),
                vin.deep_view() == self.vin.deep_view().take(i as int),
            decreases self.vin.len() - i,
        {
            let e = self.vin[i].clone();
            let ghost prev = vin;
            let ghost ev = e;
            vin.push(e);
            i = i + 1;
            proof {
                crate::lemma_deep_view_push(prev, vin, ev);
                assert(vin.deep_view() =~= self.vin.deep_view().take(i as int));
            }
        }
        let mut vout: Vec<TXOutput> = Vec::new();
        let mut j: usize = 0;
        while j < self.vout.len()
            invariant
                j <= self.vout.len(),
                vout.deep_view() == self.vout.deep_view().take(j as int),
            decreases self.vout.len() - j,
        {
            let e = self.vout[j].clone();
            let ghost prev = vout;
            let ghost ev = e;
            vout.push(e);
            j = j + 1;
            proof {
                crate::lemma_deep_view_push(prev, vout, ev);
                assert(vout.deep_view() =~= self.vout.deep_view().take(j as int));
            }
        }
        proof {
            assert(self.vin.deep_view().take(self.vin.deep_view().len() as int) =~= self@.vin);
            assert(self.vout.deep_view().take(self.vout.deep_view().len() as int) =~= self@.vout);
        }
        Transaction { id: clone_bytes(&self.id), vin, vout }
    }
}

} // verus!
