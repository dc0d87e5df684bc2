//! The 96-bit big-endian message counter used as the AEAD nonce.

use vstd::prelude::*;

verus! {

/// Number of bytes in a nonce.
pub const NONCE_LEN: usize = 12;

/// `256` raised to the power `n`.
pub open spec fn byte_pow(n: nat) -> nat
    decreases n,
{
    if n == 0 {
        1
    } else {
        256 * byte_pow((n - 1) as nat)
    }
}

/// The number that a byte string denotes when read big-endian.
pub open spec fn be_value(s: Seq<u8>) -> nat
    decreases s.len(),
{
    if s.len() == 0 {
        0
    } else {
        be_value(s.drop_last()) * 256 + s.last() as nat
    }
}

/// The number of distinct nonce values: `2^96`.
pub open spec fn nonce_space() -> nat {
    byte_pow(NONCE_LEN as nat)
}

/// The value of a nonce as a counter.
pub open spec fn nonce_value(n: [u8; NONCE_LEN]) -> nat {
    be_value(n@)
}

/// The largest nonce: every byte is `0xff`.
pub open spec fn is_last_nonce(n: [u8; NONCE_LEN]) -> bool {
    nonce_value(n) + 1 == nonce_space()
}

/// A byte string of `n` bytes denotes a number below `256^n`.
pub proof fn lemma_be_value_bound(s: Seq<u8>)
    ensures
        be_value(s) < byte_pow(s.len()),
    decreases s.len(),
{
    if s.len() > 0 {
        let init = s.drop_last();
        lemma_be_value_bound(init);
        let a = be_value(init);
        let b = byte_pow(init.len());
        let l = s.last() as nat;
        assert(a * 256 + l < b * 256) by (nonlinear_arith)
            requires
                a < b,
                l < 256,
        ;
    }
}

/// Appending `k` bytes multiplies the value of the prefix by `256^k`.
pub proof fn lemma_be_value_append(a: Seq<u8>, b: Seq<u8>)
    ensures
        be_value(a + b) == be_value(a) * byte_pow(b.len()) + be_value(b),
    decreases b.len(),
{
    if b.len() == 0 {
        assert(a + b =~= a);
        assert(byte_pow(0) == 1);
        assert(be_value(a) * 1 == be_value(a));
    } else {
        let b0 = b.drop_last();
        lemma_be_value_append(a, b0);
        assert((a + b).drop_last() =~= a + b0);
        let va = be_value(a);
        let p = byte_pow(b0.len());
        let vb0 = be_value(b0);
        let l = b.last() as nat;
        assert((a + b).last() == b.last());
        assert(byte_pow(b.len()) == 256 * p);
        assert((va * p + vb0) * 256 + l == va * (256 * p) + (vb0 * 256 + l)) by (nonlinear_arith);
        assert(be_value(a + b) == be_value(a + b0) * 256 + l);
        assert(be_value(b) == vb0 * 256 + l);
    }
}

/// A run of `n` bytes equal to `0xff` denotes `256^n - 1`.
pub proof fn lemma_be_value_all_ff(s: Seq<u8>)
    requires
        forall|i: int| 0 <= i < s.len() ==> s[i] == 0xffu8,
    ensures
        be_value(s) + 1 == byte_pow(s.len()),
    decreases s.len(),
{
    if s.len() > 0 {
        lemma_be_value_all_ff(s.drop_last());
    }
}

/// A run of zero bytes denotes zero.
pub proof fn lemma_be_value_all_zero(s: Seq<u8>)
    requires
        forall|i: int| 0 <= i < s.len() ==> s[i] == 0u8,
    ensures
        be_value(s) == 0,
    decreases s.len(),
{
    if s.len() > 0 {
        lemma_be_value_all_zero(s.drop_last());
    }
}

/// The nonce whose every byte is zero, where each direction's counter starts.
pub fn zero_nonce() -> (r: [u8; NONCE_LEN])
    ensures
        nonce_value(r) == 0,
        forall|i: int| 0 <= i < NONCE_LEN ==> r[i] == 0u8,
{
    let r = [0u8; NONCE_LEN];
    proof {
        lemma_be_value_all_zero(r@);
    }
    r
}

/// Advances the counter by one: from the last byte towards the first, a byte
/// that is `0xff` becomes zero and carries into the byte before it; the first
/// byte below `0xff` is raised by one and the carry stops there. The largest
/// nonce wraps to zero.
pub fn increment_nonce(nonce: &mut [u8; NONCE_LEN])
    ensures
        nonce_value(*final(nonce)) == (nonce_value(*old(nonce)) + 1) % nonce_space(),
        !is_last_nonce(*old(nonce)) ==> nonce_value(*final(nonce)) == nonce_value(*old(nonce)) + 1,
{
    let ghost orig = nonce@;
    let mut i: usize = NONCE_LEN;
    let mut carried_out = true;
    while i > 0 && carried_out
        invariant
            0 <= i <= NONCE_LEN,
            carried_out ==> nonce@.subrange(0, i as int) == orig.subrange(0, i as int),
            carried_out ==> forall|j: int| i <= j < NONCE_LEN ==> nonce@[j] == 0u8,
            carried_out ==> forall|j: int| i <= j < NONCE_LEN ==> orig[j] == 0xffu8,
            !carried_out ==> be_value(nonce@) == be_value(orig) + 1,
            nonce@.len() == NONCE_LEN,
            orig.len() == NONCE_LEN,
        decreases i + if carried_out { 1int } else { 0int },
    {
        let k = i - 1;
        assert(nonce@[k as int] == nonce@.subrange(0, i as int)[k as int]);
        assert(orig[k as int] == orig.subrange(0, i as int)[k as int]);
        if nonce[k] == 0xff {
            assert(nonce@.subrange(0, k as int) =~= nonce@.subrange(0, i as int).subrange(0, k as int));
            assert(orig.subrange(0, k as int) =~= orig.subrange(0, i as int).subrange(0, k as int));
            nonce[k] = 0;
            i = k;
        } else {
            let ghost before = nonce@;
            nonce[k] = nonce[k] + 1;
            proof {
                let pre = orig.subrange(0, k as int);
                assert(pre =~= before.subrange(0, i as int).subrange(0, k as int));
                assert(nonce@.subrange(0, k as int) =~= pre);
                let tail = orig.subrange(k as int + 1, NONCE_LEN as int);
                let newtail = nonce@.subrange(k as int + 1, NONCE_LEN as int);
                assert(orig =~= pre + seq![orig[k as int]] + tail);
                assert(nonce@ =~= pre + seq![nonce@[k as int]] + newtail);
                lemma_be_value_all_ff(tail);
                lemma_be_value_all_zero(newtail);
                lemma_be_value_append(pre + seq![orig[k as int]], tail);
                lemma_be_value_append(pre + seq![nonce@[k as int]], newtail);
                assert((pre + seq![orig[k as int]]).drop_last() =~= pre);
                assert((pre + seq![nonce@[k as int]]).drop_last() =~= pre);
                let vp = be_value(pre);
                let o = orig[k as int] as nat;
                let p = byte_pow(tail.len());
                assert((vp * 256 + o) * p + (p - 1) + 1 == (vp * 256 + o + 1) * p + 0)
                    by (nonlinear_arith);
            }
            carried_out = false;
        }
    }
    proof {
        lemma_be_value_bound(orig);
        lemma_be_value_bound(nonce@);
        if carried_out {
            assert(i == 0);
            assert(orig =~= orig.subrange(0, 0) + orig);
            lemma_be_value_all_ff(orig);
            lemma_be_value_all_zero(nonce@);
            assert(nonce_space() % nonce_space() == 0) by (nonlinear_arith)
                requires nonce_space() > 0;
        } else {
            vstd::arithmetic::div_mod::lemma_small_mod(be_value(orig) + 1, nonce_space());
        }
    }
}

} // verus!
