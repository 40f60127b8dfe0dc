//! A single-node ledger engine: blocks are mined under a proof-of-work
//! constraint, kept in a tamper-evident hash chain, and the set of unspent
//! transaction outputs is derived by replaying the committed chain.

use vstd::prelude::*;

pub mod block;
pub mod blockchain;
pub mod proof_of_work;
pub mod transaction;

verus! {

/// The failure taxonomy of the ledger engine.
///
/// `Validation`, `Consistency` and `MiningExhausted` are recoverable and
/// leave stored state unchanged; `NotFound` and `Storage` are reported by
/// persistence layers built on top of this crate.
#[derive(Clone, Copy, Debug, PartialEq, Eq, Structural)]
pub enum ChainError {
    NotFound,
    Validation,
    Consistency,
    MiningExhausted,
    Storage,
}

/// A SHA-256 digest is always 32 bytes wide.
pub const DIGEST_LEN: usize = 32;

/// Named result of the SHA-256 digest of a byte sequence. The digest is a
/// pure function of the input bytes; its value is not further specified.
pub uninterp spec fn sha256_of(data: Seq<u8>) -> Seq<u8>;

/// Relies on ring's `digest::Context` with `digest::SHA256`: the digest is a
/// pure function of the input bytes and is 32 bytes long
/// (`ring::digest::SHA256_OUTPUT_LEN`).
#[verifier::external_body]
pub fn sha256_digest(data: &[u8]) -> (r: Vec<u8>)
    ensures
        r@ == sha256_of(data@),
        r@.len() == DIGEST_LEN,
{
    let mut context = ring::digest::Context::new(&ring::digest::SHA256);
    context.update(data);
    let digest = context.finish();
    digest.as_ref().to_vec()
}

/// Relies on `std::time::SystemTime::now` and `Duration::as_millis`: the
/// wall-clock time in milliseconds since the Unix epoch. Nothing can be
/// promised of the clock beyond the result being non-negative.
#[verifier::external_body]
pub fn current_timestamp() -> (r: i64)
    ensures
        r >= 0,
{
    match std::time::SystemTime::now().duration_since(std::time::UNIX_EPOCH) {
        Ok(d) => i64::try_from(d.as_millis()).unwrap_or(i64::MAX),
        Err(_) => 0,
    }
}

/// The sixteen lowercase hexadecimal digit characters.
pub open spec fn hex_chars() -> Seq<char> {
    seq!['0', '1', '2', '3', '4', '5', '6', '7', '8', '9', 'a', 'b', 'c', 'd', 'e', 'f']
}

/// Lowercase hexadecimal rendering of a byte sequence: two digits per
/// byte, high nibble first.
pub open spec fn hex_lower(s: Seq<u8>) -> Seq<char>
    decreases s.len(),
{
    if s.len() == 0 {
        Seq::empty()
    } else {
        seq![hex_chars()[(s[0] / 16) as int], hex_chars()[(s[0] % 16) as int]] + hex_lower(
            s.skip(1),
        )
    }
}

/// Relies on data_encoding's `HEXLOWER.encode`: lowercase hexadecimal,
/// two digits per byte, high nibble first (symbols "0123456789abcdef").
#[verifier::external_body]
pub fn hex_encode(data: &[u8]) -> (r: String)
    ensures
        r@ == hex_lower(data@),
{
    data_encoding::HEXLOWER.encode(data)
}

/// Pushing onto a sequence inserts the element into the sequence's set of
/// values.
pub proof fn lemma_to_set_push<T>(s: Seq<T>, x: T)
    ensures
        s.push(x).to_set() == s.to_set().insert(x),
{
    let sp = s.push(x);
    assert forall|a: T| #[trigger] sp.to_set().contains(a) implies s.to_set().insert(x).contains(
        a,
    ) by {
        let i = choose|i: int| 0 <= i < sp.len() && sp[i] == a;
        if i < s.len() {
            assert(s[i] == a);
            assert(s.contains(a));
        }
    }
    assert forall|a: T| #[trigger] s.to_set().insert(x).contains(a) implies sp.to_set().contains(
        a,
    ) by {
        if a == x {
            assert(sp[s.len() as int] == a);
            assert(sp.contains(a));
        } else {
            assert(s.contains(a));
            let i = choose|i: int| 0 <= i < s.len() && s[i] == a;
            assert(sp[i] == a);
            assert(sp.contains(a));
        }
    }
    assert(sp.to_set() =~= s.to_set().insert(x));
}

/// Fixed-width big-endian encoding of a 64-bit value, most significant
/// byte first. This layout is part of the chain's canonical byte
/// representation and must never change once a chain has been created.
pub open spec fn u64_be(n: u64) -> Seq<u8> {
    seq![
        ((n >> 56) & 0xff) as u8,
        ((n >> 48) & 0xff) as u8,
        ((n >> 40) & 0xff) as u8,
        ((n >> 32) & 0xff) as u8,
        ((n >> 24) & 0xff) as u8,
        ((n >> 16) & 0xff) as u8,
        ((n >> 8) & 0xff) as u8,
        (n & 0xff) as u8,
    ]
}

/// Appends the big-endian bytes of `n` to `dst`.
pub fn push_u64_be(dst: &mut Vec<u8>, n: u64)
    ensures
        final(dst)@ == old(dst)@ + u64_be(n),
{
    dst.push(((n >> 56) & 0xff) as u8);
    dst.push(((n >> 48) & 0xff) as u8);
    dst.push(((n >> 40) & 0xff) as u8);
    dst.push(((n >> 32) & 0xff) as u8);
    dst.push(((n >> 24) & 0xff) as u8);
    dst.push(((n >> 16) & 0xff) as u8);
    dst.push(((n >> 8) & 0xff) as u8);
    dst.push((n & 0xff) as u8);
    proof {
        assert(dst@ =~= old(dst)@ + u64_be(n));
    }
}

/// Appends all bytes of `src` to `dst`.
pub fn push_bytes(dst: &mut Vec<u8>, src: &[u8])
    ensures
        final(dst)@ == old(dst)@ + src@,
{
    let mut i: usize = 0;
    while i < src.len()
        invariant
            i <= src.len(),
            dst@ == old(dst)@ + src@.take(i as int),
        decreases src.len() - i,
    {
        dst.push(src[i]);
        i = i + 1;
        proof {
            assert(dst@ =~= old(dst)@ + src@.take(i as int));
        }
    }
    proof {
        assert(src@.take(src@.len() as int) =~= src@);
    }
}

/// Byte-for-byte copy of a vector.
pub fn clone_bytes(v: &Vec<u8>) -> (r: Vec<u8>)
    ensures
        r@ == v@,
{
    let mut r: Vec<u8> = Vec::new();
    push_bytes(&mut r, v.as_slice());
    proof {
        assert(r@ =~= v@);
    }
    r
}

/// Pushing onto a vector pushes the element's abstraction onto the
/// vector's abstraction.
pub proof fn lemma_deep_view_push<T: DeepView>(a: Vec<T>, b: Vec<T>, x: T)
    requires
        b@ == a@.push(x),
    ensures
        b.deep_view() == a.deep_view().push(x.deep_view()),
{
    let av = a.deep_view();
    let bv = b.deep_view();
    assert forall|i: int| 0 <= i < bv.len() implies bv[i] == av.push(x.deep_view())[i] by {
        assert(b@[i] == a@.push(x)[i]);
    }
    assert(bv =~= av.push(x.deep_view()));
}

/// Exact equality of two byte slices.
pub fn slice_equal(a: &[u8], b: &[u8]) -> (r: bool)
    ensures
        r <==> a@ == b@,
{
    if a.len() != b.len() {
        return false;
    }
    let mut i: usize = 0;
    while i < a.len()
        invariant
            i <= a.len(),
            a@.len() == b@.len(),
            forall|j: int| 0 <= j < i ==> a@[j] == b@[j],
        decreases a.len() - i,
    {
        if a[i] != b[i] {
            return false;
        }
        i = i + 1;
    }
    proof {
        assert(a@ =~= b@);
    }
    true
}

/// Exact equality of two byte vectors.
pub fn bytes_equal(a: &Vec<u8>, b: &Vec<u8>) -> (r: bool)
    ensures
        r <==> a@ == b@,
{
    if a.len() != b.len() {
        return false;
    }
    let mut i: usize = 0;
    while i < a.len()
        invariant
            i <= a.len(),
            a@.len() == b@.len(),
            forall|j: int| 0 <= j < i ==> a@[j] == b@[j],
        decreases a.len() - i,
    {
        if a[i] != b[i] {
            return false;
        }
        i = i + 1;
    }
    proof {
        assert(a@ =~= b@);
    }
    true
}

} // verus!
