//! TCP sequence-number arithmetic: 32-bit unsigned values with wrapping
//! addition and subtraction, and an ordering that treats distances of
//! 2^31 or more as "in the past".

use vstd::prelude::*;

verus! {

/// One past the largest sequence number: sequence arithmetic is modulo this.
pub const SEQ_SPACE: u64 = 0x1_0000_0000;

/// Half the sequence space; distances at or beyond this are "in the past".
pub const SEQ_HALF: u64 = 0x8000_0000;

/// `a + b` modulo the sequence space.
pub open spec fn seq_add(a: u32, b: u32) -> u32 {
    ((a + b) % (SEQ_SPACE as int)) as u32
}

/// The distance from `b` forward to `a`, modulo the sequence space.
pub open spec fn seq_sub(a: u32, b: u32) -> u32 {
    ((a - b) % (SEQ_SPACE as int)) as u32
}

/// `a` is strictly before `b` in sequence order: the forward distance from
/// `a` to `b` is non-zero and less than half the space.
pub open spec fn seq_lt(a: u32, b: u32) -> bool {
    0 < seq_sub(b, a) < SEQ_HALF
}

/// `a` is before or equal to `b` in sequence order.
pub open spec fn seq_le(a: u32, b: u32) -> bool {
    a == b || seq_lt(a, b)
}

pub fn seq_number_add(a: u32, b: u32) -> (r: u32)
    ensures
        r == seq_add(a, b),
{
    a.wrapping_add(b)
}

pub fn seq_number_sub(a: u32, b: u32) -> (r: u32)
    ensures
        r == seq_sub(a, b),
{
    a.wrapping_sub(b)
}

pub fn seq_number_lt(a: u32, b: u32) -> (r: bool)
    ensures
        r == seq_lt(a, b),
{
    let d = b.wrapping_sub(a);
    0 < d && d < 0x8000_0000
}

pub fn seq_number_le(a: u32, b: u32) -> (r: bool)
    ensures
        r == seq_le(a, b),
{
    a == b || seq_number_lt(a, b)
}

/// The wrapped difference written without the modulus: the plain difference,
/// shifted up by the sequence space when it would be negative.
pub proof fn lemma_seq_sub_cases(a: u32, b: u32)
    ensures
        a >= b ==> seq_sub(a, b) == a - b,
        a < b ==> seq_sub(a, b) == a - b + SEQ_SPACE,
{
    if a >= b {
        assert((a - b) % (SEQ_SPACE as int) == a - b);
    } else {
        assert((a - b) % (SEQ_SPACE as int) == a - b + SEQ_SPACE);
    }
}

/// The wrapped sum written without the modulus.
pub proof fn lemma_seq_add_cases(a: u32, b: u32)
    ensures
        a + b < SEQ_SPACE ==> seq_add(a, b) == a + b,
        a + b >= SEQ_SPACE ==> seq_add(a, b) == a + b - SEQ_SPACE,
{
    if a + b < SEQ_SPACE {
        assert((a + b) % (SEQ_SPACE as int) == a + b);
    } else {
        assert((a + b) % (SEQ_SPACE as int) == a + b - SEQ_SPACE);
    }
}

/// An acknowledgment inside the window `(una, nxt]` is at a forward distance
/// from `una` no greater than `nxt` is.
pub proof fn lemma_ack_bound(una: u32, nxt: u32, ack: u32)
    requires
        seq_sub(nxt, una) < SEQ_HALF,
        seq_lt(una, ack),
        seq_le(ack, nxt),
    ensures
        0 < seq_sub(ack, una) <= seq_sub(nxt, una),
        seq_sub(nxt, ack) == seq_sub(nxt, una) - seq_sub(ack, una),
{
    lemma_seq_sub_cases(nxt, una);
    lemma_seq_sub_cases(ack, una);
    lemma_seq_sub_cases(nxt, ack);
    lemma_seq_sub_cases(una, ack);
}

/// Advancing `nxt` forward by `d` grows its distance from `una` by `d`,
/// as long as the plain sum stays inside the sequence space.
pub proof fn lemma_seq_add_grows(una: u32, nxt: u32, d: u32)
    requires
        seq_sub(nxt, una) + d < SEQ_SPACE,
    ensures
        seq_sub(seq_add(nxt, d), una) == seq_sub(nxt, una) + d,
{
    lemma_seq_add_cases(nxt, d);
    lemma_seq_sub_cases(nxt, una);
    lemma_seq_sub_cases(seq_add(nxt, d), una);
}

/// `a` advanced forward by an unbounded count, modulo the sequence space.
pub open spec fn seq_add_nat(a: u32, n: nat) -> u32 {
    ((a + n) % (SEQ_SPACE as int)) as u32
}

/// Advancing by `l` and then by `k` is advancing by `l + k`.
pub proof fn lemma_seq_add_nat_step(b: u32, l: nat, k: u32)
    ensures
        seq_add(seq_add_nat(b, l), k) == seq_add_nat(b, (l + k) as nat),
{
    let m = SEQ_SPACE as int;
    vstd::arithmetic::div_mod::lemma_add_mod_noop(b + l, k as int, m);
    vstd::arithmetic::div_mod::lemma_small_mod(k as nat, SEQ_SPACE as nat);
}

/// Advancing the reference point by `d` shortens a forward distance by `d`.
pub proof fn lemma_seq_sub_shift(s: u32, r: u32, d: u32)
    requires
        d <= seq_sub(s, r),
    ensures
        seq_sub(s, seq_add(r, d)) == seq_sub(s, r) - d,
{
    lemma_seq_sub_cases(s, r);
    lemma_seq_add_cases(r, d);
    lemma_seq_sub_cases(s, seq_add(r, d));
}

/// Adding and then subtracting the same amount returns to the start.
pub proof fn lemma_seq_add_sub(a: u32, b: u32)
    ensures
        seq_sub(seq_add(a, b), a) == b,
        seq_add(seq_sub(a, b), b) == a,
{
    assert(seq_sub(seq_add(a, b), a) == b) by (nonlinear_arith)
        requires seq_add(a, b) == ((a + b) % (SEQ_SPACE as int)) as u32,
                 seq_sub(seq_add(a, b), a) == ((seq_add(a, b) - a) % (SEQ_SPACE as int)) as u32;
    assert(seq_add(seq_sub(a, b), b) == a) by (nonlinear_arith)
        requires seq_sub(a, b) == ((a - b) % (SEQ_SPACE as int)) as u32,
                 seq_add(seq_sub(a, b), b) == ((seq_sub(a, b) + b) % (SEQ_SPACE as int)) as u32;
}

} // verus!
