//! The Internet checksum: the 16-bit one's-complement sum of 16-bit words,
//! complemented. Used by the IPv4 header and (over a pseudo-header) by TCP
//! when the NIC does not compute it.

use vstd::prelude::*;
use crate::bytes::spec_be16;

verus! {

/// The plain (unbounded) sum of the big-endian 16-bit words of `s`; an odd
/// trailing byte counts as the high byte of a final word.
pub open spec fn spec_word_sum(s: Seq<u8>) -> int
    decreases s.len(),
{
    if s.len() == 0 {
        0
    } else if s.len() == 1 {
        s[0] * 0x100
    } else {
        spec_be16(s[0], s[1]) + spec_word_sum(s.skip(2))
    }
}

/// Folds the carries of an unbounded word sum until it fits 16 bits: the
/// one's-complement sum.
pub open spec fn spec_fold_carries(x: int) -> int
    decreases x,
{
    if x < 0 {
        0
    } else if x < 0x10000 {
        x
    } else {
        spec_fold_carries(x % 0x10000 + x / 0x10000)
    }
}

/// The Internet checksum of `s`: the folded word sum, complemented.
pub open spec fn spec_checksum(s: Seq<u8>) -> u16 {
    (0xffff - spec_fold_carries(spec_word_sum(s))) as u16
}

/// The word sum never goes negative.
pub proof fn lemma_word_sum_nonneg(s: Seq<u8>)
    ensures
        0 <= spec_word_sum(s) <= 0xffff * s.len(),
    decreases s.len(),
{
    if s.len() >= 2 {
        lemma_word_sum_nonneg(s.skip(2));
    }
}

/// Computes the Internet checksum of `data`.
pub fn internet_checksum(data: &[u8]) -> (r: u16)
    requires
        data@.len() <= 0x20000,
    ensures
        r == spec_checksum(data@),
{
    let n = data.len();
    let mut acc: u64 = 0;
    let mut i: usize = 0;
    proof {
        assert(data@.skip(0) =~= data@);
    }
    while i + 1 < n
        invariant
            i <= n == data@.len() <= 0x20000,
            i % 2 == 0,
            acc <= 0xffff * i,
            spec_word_sum(data@) == acc + spec_word_sum(data@.skip(i as int)),
        decreases n - i,
    {
        let ghost pre = data@.skip(i as int);
        acc = acc + (data[i] as u64) * 0x100 + (data[i + 1] as u64);
        proof {
            assert(pre[0] == data@[i as int] && pre[1] == data@[i + 1]);
            assert(pre.skip(2) =~= data@.skip(i + 2));
            lemma_word_sum_nonneg(data@.skip(i + 2));
        }
        i = i + 2;
    }
    if i < n {
        let ghost pre = data@.skip(i as int);
        acc = acc + (data[i] as u64) * 0x100;
        proof {
            assert(pre[0] == data@[i as int]);
            assert(pre.len() == 1);
        }
        i = i + 1;
    } else {
        proof {
            assert(data@.skip(i as int).len() == 0);
        }
    }
    proof {
        assert(spec_word_sum(data@) == acc);
        lemma_word_sum_nonneg(data@);
    }
    // Fold the carries; three rounds reach 16 bits from any sum this size.
    let ghost a0 = acc as int;
    let mut folded: u64 = acc % 0x10000 + acc / 0x10000;
    let ghost a1 = folded as int;
    folded = folded % 0x10000 + folded / 0x10000;
    let ghost a2 = folded as int;
    folded = folded % 0x10000 + folded / 0x10000;
    let ghost a3 = folded as int;
    proof {
        assert(a0 <= 0xffff * 0x20000 + 0xff00);
        assert(a1 == a0 % 0x10000 + a0 / 0x10000);
        assert(a1 <= 0xffff + 0x2_0000);
        assert(a2 == a1 % 0x10000 + a1 / 0x10000);
        assert(a2 <= 0xffff + 2);
        assert(a3 == a2 % 0x10000 + a2 / 0x10000);
        assert(a3 < 0x10000);
        if a0 >= 0x10000 {
            assert(spec_fold_carries(a0) == spec_fold_carries(a1));
        } else {
            assert(a1 == a0);
        }
        if a1 >= 0x10000 {
            assert(spec_fold_carries(a1) == spec_fold_carries(a2));
        } else {
            assert(a2 == a1);
        }
        if a2 >= 0x10000 {
            assert(spec_fold_carries(a2) == spec_fold_carries(a3));
        } else {
            assert(a3 == a2);
        }
        assert(spec_fold_carries(a3) == a3);
        assert(spec_fold_carries(a0) == a3);
    }
    0xffff - (folded as u16)
}

} // verus!
