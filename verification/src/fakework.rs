//! The synthetic compute workload: a CPU-bound inner loop chosen by a spec
//! string (`sqrt`, `multiplication`, `stridedmem:<N>:<stride>`,
//! `randmem:<N>`, `memstream:<N>`, `pointerchase:<N>:<seed>`), parameterized
//! per request by an iteration count and a randomness word. Each integer
//! variant returns a digest of the cells it visits, which pins the walk:
//! `work(iters, rnd)` is deterministic in `(iters, rnd)` for a given spec.
//!
//! The working buffers are filled from a seeded random-number generator;
//! their contents are arbitrary, only their shape matters.

use vstd::prelude::*;
use crate::fail::{Fail, EINVAL};

verus! {

/// Relies on `rand::rngs::StdRng::from_seed` (via `SeedableRng`): builds a
/// deterministic generator from the 32-byte seed `[seed; 32]`.
#[verifier::external_body]
fn rng_from_seed(seed: u8) -> rand::rngs::StdRng {
    <rand::rngs::StdRng as rand::SeedableRng>::from_seed([seed; 32])
}

/// Relies on `rand::Rng::gen::<u8>`: one byte from the generator. Nothing is
/// promised of the value.
#[verifier::external_body]
fn rng_next_u8(rng: &mut rand::rngs::StdRng) -> u8 {
    rand::Rng::gen(rng)
}

/// Relies on `rand::Rng::gen::<usize>`: one machine word from the
/// generator. Nothing is promised of the value.
#[verifier::external_body]
fn rng_next_usize(rng: &mut rand::rngs::StdRng) -> usize {
    rand::Rng::gen(rng)
}

/// The `rand::rngs::StdRng` generator, opaque to the logic here.
#[verifier::external_type_specification]
#[verifier::external_body]
pub struct ExStdRng(rand::rngs::StdRng);

/// One synthetic workload.
pub enum FakeWorker {
    /// Floating-point square roots; the spin itself is outside this core.
    Sqrt,
    /// Integer multiplications of the randomness word.
    Multiplication,
    /// Strided reads over a byte buffer.
    StridedMem(Vec<u8>, usize),
    /// Pointer chasing through an index buffer.
    PointerChase(Vec<usize>),
    /// Reads at pre-drawn random positions.
    RandomMem(Vec<u8>, Vec<usize>),
    /// Streaming reads, one per cache line.
    StreamingMem(Vec<u8>),
}

/// The next index of a strided walk.
pub open spec fn spec_stride_step(len: int, stride: int, idx: int) -> int {
    if idx + stride >= len { idx + stride - len } else { idx + stride }
}

/// The digest and final index after `n` strided reads.
pub open spec fn spec_strided_walk(buf: Seq<u8>, stride: int, idx: int, n: nat)
    -> (u64, int)
    decreases n,
{
    if n == 0 {
        (0u64, idx)
    } else {
        let (acc, i) = spec_strided_walk(buf, stride, idx, (n - 1) as nat);
        (((acc + buf[i]) % 0x1_0000_0000_0000_0000) as u64,
            spec_stride_step(buf.len() as int, stride, i))
    }
}

/// The digest and final index after `n` pointer-chase steps.
pub open spec fn spec_chase_walk(buf: Seq<usize>, idx: int, n: nat) -> (u64, int)
    decreases n,
{
    if n == 0 {
        (0u64, idx)
    } else {
        let (acc, i) = spec_chase_walk(buf, idx, (n - 1) as nat);
        (((acc + buf[i]) % 0x1_0000_0000_0000_0000) as u64, buf[i] as int)
    }
}

/// The digest after `n` reads at the pre-drawn positions.
pub open spec fn spec_randmem_digest(buf: Seq<u8>, sched: Seq<usize>, n: nat) -> u64
    decreases n,
{
    if n == 0 {
        0u64
    } else {
        ((spec_randmem_digest(buf, sched, (n - 1) as nat)
            + buf[sched[((n - 1) as int) % (sched.len() as int)] as int])
            % 0x1_0000_0000_0000_0000) as u64
    }
}

/// The sum of every 64th byte from `pos` on.
pub open spec fn spec_stream_sum(buf: Seq<u8>, pos: int) -> int
    decreases (if pos <= buf.len() { buf.len() - pos } else { 0 }),
{
    if pos >= buf.len() {
        0
    } else {
        buf[pos] + spec_stream_sum(buf, pos + 64)
    }
}

/// The digest after `n` streaming sweeps.
pub open spec fn spec_stream_digest(buf: Seq<u8>, n: nat) -> u64
    decreases n,
{
    if n == 0 {
        0u64
    } else {
        ((spec_stream_digest(buf, (n - 1) as nat) + spec_stream_sum(buf, 0))
            % 0x1_0000_0000_0000_0000) as u64
    }
}

/// The digest after `n` multiplications of `rnd`.
pub open spec fn spec_mult_digest(rnd: u64, n: nat) -> u64
    decreases n,
{
    if n == 0 {
        0u64
    } else {
        ((spec_mult_digest(rnd, (n - 1) as nat)
            + (rnd * ((n - 1) as int)) % 0x1_0000_0000_0000_0000)
            % 0x1_0000_0000_0000_0000) as u64
    }
}

/// What `work` returns for a given workload and parameters.
pub open spec fn spec_work(w: FakeWorker, iters: u64, rnd: u64) -> u64 {
    match w {
        FakeWorker::Sqrt => 0u64,
        FakeWorker::Multiplication => spec_mult_digest(rnd, iters as nat),
        FakeWorker::StridedMem(buf, stride) => spec_strided_walk(
            buf@, stride as int, (rnd as int) % (buf@.len() as int), iters as nat).0,
        FakeWorker::PointerChase(buf) => spec_chase_walk(
            buf@, (rnd as int) % (buf@.len() as int), iters as nat).0,
        FakeWorker::RandomMem(buf, sched) => spec_randmem_digest(buf@, sched@, iters as nat),
        FakeWorker::StreamingMem(buf) => spec_stream_digest(buf@, iters as nat),
    }
}

impl FakeWorker {
    /// The shape every constructed workload has: buffers non-empty where
    /// they are indexed, strides within the buffer, chase and schedule
    /// entries in range.
    pub open spec fn wf(self) -> bool {
        match self {
            FakeWorker::Sqrt => true,
            FakeWorker::Multiplication => true,
            FakeWorker::StridedMem(buf, stride) =>
                1 <= buf@.len() <= 0x10_0000 && stride <= buf@.len(),
            FakeWorker::PointerChase(buf) => buf@.len() >= 1
                && forall|i: int| 0 <= i < buf@.len()
                    ==> (#[trigger] buf@[i]) < buf@.len(),
            FakeWorker::RandomMem(buf, sched) => buf@.len() >= 1 && sched@.len() >= 1
                && forall|i: int| 0 <= i < sched@.len()
                    ==> (#[trigger] sched@[i]) < buf@.len(),
            FakeWorker::StreamingMem(buf) => buf@.len() <= 0x10_0000,
        }
    }

    /// Runs the workload for `iters` iterations with randomness `rnd` and
    /// returns its digest: a function of `(iters, rnd)` alone for a given
    /// spec. The square-root variant spins on floating point, which lives
    /// outside this core; its digest is zero.
    pub fn work(&self, iters: u64, rnd: u64) -> (r: u64)
        requires
            self.wf(),
        ensures
            r == spec_work(*self, iters, rnd),
    {
        match self {
            FakeWorker::Sqrt => 0,
            FakeWorker::Multiplication => {
                let mut acc: u64 = 0;
                let mut i: u64 = 0;
                while i < iters
                    invariant
                        i <= iters,
                        acc == spec_mult_digest(rnd, i as nat),
                    decreases iters - i,
                {
                    acc = acc.wrapping_add(rnd.wrapping_mul(i));
                    i = i + 1;
                }
                acc
            },
            FakeWorker::StridedMem(buf, stride) => {
                let len = buf.len();
                let mut idx: usize = (rnd % (len as u64)) as usize;
                let mut acc: u64 = 0;
                let mut i: u64 = 0;
                while i < iters
                    invariant
                        i <= iters,
                        1 <= len == buf@.len() <= 0x10_0000,
                        *stride <= len,
                        idx < len,
                        (acc, idx as int) == spec_strided_walk(
                            buf@, *stride as int, (rnd as int) % (len as int), i as nat),
                    decreases iters - i,
                {
                    acc = acc.wrapping_add(buf[idx] as u64);
                    idx = idx + *stride;
                    if idx >= len {
                        idx = idx - len;
                    }
                    i = i + 1;
                }
                acc
            },
            FakeWorker::PointerChase(buf) => {
                let len = buf.len();
                let mut idx: usize = (rnd % (len as u64)) as usize;
                let mut acc: u64 = 0;
                let mut i: u64 = 0;
                while i < iters
                    invariant
                        i <= iters,
                        len == buf@.len() >= 1,
                        forall|j: int| 0 <= j < buf@.len()
                            ==> (#[trigger] buf@[j]) < buf@.len(),
                        idx < len,
                        (acc, idx as int) == spec_chase_walk(
                            buf@, (rnd as int) % (len as int), i as nat),
                    decreases iters - i,
                {
                    acc = acc.wrapping_add(buf[idx] as u64);
                    idx = buf[idx];
                    i = i + 1;
                }
                acc
            },
            FakeWorker::RandomMem(buf, sched) => {
                let slen = sched.len();
                let mut acc: u64 = 0;
                let mut i: u64 = 0;
                while i < iters
                    invariant
                        i <= iters,
                        slen == sched@.len() >= 1,
                        buf@.len() >= 1,
                        forall|j: int| 0 <= j < sched@.len()
                            ==> (#[trigger] sched@[j]) < buf@.len(),
                        acc == spec_randmem_digest(buf@, sched@, i as nat),
                    decreases iters - i,
                {
                    let pos = sched[(i % (slen as u64)) as usize];
                    acc = acc.wrapping_add(buf[pos] as u64);
                    i = i + 1;
                }
                acc
            },
            FakeWorker::StreamingMem(buf) => {
                let len = buf.len();
                let mut acc: u64 = 0;
                let mut i: u64 = 0;
                while i < iters
                    invariant
                        i <= iters,
                        len == buf@.len() <= 0x10_0000,
                        acc == spec_stream_digest(buf@, i as nat),
                    decreases iters - i,
                {
                    let mut inner: u64 = 0;
                    let ghost total = spec_stream_sum(buf@, 0);
                    let mut pos: usize = 0;
                    proof {
                        lemma_stream_sum_bounds(buf@, 0);
                    }
                    while pos < len
                        invariant
                            len == buf@.len() <= 0x10_0000,
                            0 <= pos,
                            total == spec_stream_sum(buf@, 0),
                            0 <= total <= 0xff * buf@.len(),
                            inner + spec_stream_sum(buf@, pos as int) == total,
                            inner <= total,
                        decreases (if pos <= len { len - pos } else { 0 }),
                    {
                        proof {
                            lemma_stream_sum_bounds(buf@, pos + 64);
                        }
                        inner = inner + (buf[pos] as u64);
                        pos = pos + 64;
                    }
                    proof {
                        assert(spec_stream_sum(buf@, pos as int) == 0);
                        assert(inner == total);
                    }
                    acc = acc.wrapping_add(inner);
                    i = i + 1;
                }
                acc
            },
        }
    }
}

/// The decimal value of a run of digit bytes.
pub open spec fn spec_dec_value(s: Seq<u8>) -> int
    decreases s.len(),
{
    if s.len() == 0 {
        0
    } else {
        spec_dec_value(s.take(s.len() - 1)) * 10 + (s.last() - 48)
    }
}

/// Every byte is an ASCII digit.
pub open spec fn spec_all_digits(s: Seq<u8>) -> bool {
    forall|i: int| 0 <= i < s.len() ==> 48 <= #[trigger] s[i] <= 57
}

/// The largest size a workload buffer may have (and so the largest number
/// the spec string may carry).
pub const MAX_BUFFER: usize = 0x10_0000;

/// Reads a decimal number. Succeeds exactly on a non-empty all-digit run
/// whose value is at most the buffer cap.
fn parse_decimal(s: &[u8]) -> (r: Option<usize>)
    ensures
        r is Some <==> (s@.len() > 0 && spec_all_digits(s@)
            && spec_dec_value(s@) <= MAX_BUFFER),
        r matches Some(v) ==> v == spec_dec_value(s@),
{
    let n = s.len();
    if n == 0 {
        return None;
    }
    let mut acc: u64 = 0;
    let mut i: usize = 0;
    proof {
        assert(s@.take(0) =~= Seq::<u8>::empty());
    }
    while i < n
        invariant
            i <= n == s@.len(),
            acc == spec_dec_value(s@.take(i as int)),
            acc <= MAX_BUFFER,
            spec_all_digits(s@.take(i as int)),
        decreases n - i,
    {
        let c = s[i];
        if c < 48 || c > 57 {
            proof {
                assert(!spec_all_digits(s@));
            }
            return None;
        }
        acc = acc * 10 + ((c - 48) as u64);
        proof {
            assert(s@.take(i + 1).take(i as int) =~= s@.take(i as int));
            assert(s@.take(i + 1).last() == s@[i as int]);
            assert(acc == spec_dec_value(s@.take(i + 1)));
            assert forall|j: int| 0 <= j < i + 1
                implies 48 <= #[trigger] s@.take(i + 1)[j] <= 57 by {
                if j < i {
                    assert(s@.take(i as int)[j] == s@.take(i + 1)[j]);
                }
            }
        }
        if acc > MAX_BUFFER as u64 {
            proof {
                if spec_all_digits(s@) {
                    lemma_dec_prefix_le(s@, i + 1);
                }
            }
            return None;
        }
        i = i + 1;
    }
    proof {
        assert(s@.take(n as int) =~= s@);
    }
    Some(acc as usize)
}

/// A digit run's value only grows as digits are appended.
proof fn lemma_dec_prefix_le(s: Seq<u8>, i: int)
    requires
        0 <= i <= s.len(),
        spec_all_digits(s),
    ensures
        spec_dec_value(s.take(i)) <= spec_dec_value(s),
    decreases s.len() - i,
{
    assert forall|j: int| 0 <= j < i
        implies 48 <= #[trigger] s.take(i)[j] <= 57 by {
        assert(s.take(i)[j] == s[j]);
    }
    lemma_dec_nonneg(s.take(i));
    if i < s.len() {
        assert(s.take(i + 1).take(i) =~= s.take(i));
        assert(s.take(i + 1).last() == s[i]);
        assert(spec_dec_value(s.take(i + 1))
            == spec_dec_value(s.take(i)) * 10 + (s[i] - 48));
        lemma_dec_prefix_le(s, i + 1);
    } else {
        assert(s.take(i) =~= s);
    }
}

/// A digit run's value is non-negative.
proof fn lemma_dec_nonneg(s: Seq<u8>)
    requires
        spec_all_digits(s),
    ensures
        spec_dec_value(s) >= 0,
    decreases s.len(),
{
    if s.len() > 0 {
        assert forall|j: int| 0 <= j < s.len() - 1
            implies 48 <= #[trigger] s.take(s.len() - 1)[j] <= 57 by {
            assert(s.take(s.len() - 1)[j] == s[j]);
        }
        lemma_dec_nonneg(s.take(s.len() - 1));
    }
}

/// Whether two byte strings are equal.
fn bytes_eq(a: &[u8], b: &[u8]) -> (r: bool)
    ensures
        r == (a@ == b@),
{
    if a.len() != b.len() {
        return false;
    }
    let n = a.len();
    for i in 0..n
        invariant
            n == a@.len() == b@.len(),
            forall|j: int| 0 <= j < i ==> a@[j] == b@[j],
    {
        if a[i] != b[i] {
            return false;
        }
    }
    proof {
        assert(a@ =~= b@);
    }
    true
}

/// The first separator at or after `from`, or the end of the string.
pub open spec fn spec_token_end(s: Seq<u8>, from: int) -> int
    decreases (if from <= s.len() { s.len() - from } else { 0 }),
{
    if from >= s.len() {
        s.len() as int
    } else if s[from] == 58 {
        from
    } else {
        spec_token_end(s, from + 1)
    }
}

/// A number token is good: a non-empty digit run whose value fits the
/// buffer cap (exactly what `parse_decimal` accepts).
pub open spec fn spec_num_ok(s: Seq<u8>) -> bool {
    s.len() > 0 && spec_all_digits(s) && spec_dec_value(s) <= MAX_BUFFER
}

/// The grammar's names, as byte strings.
pub open spec fn spec_sqrt_name() -> Seq<u8> {
    seq![115u8, 113u8, 114u8, 116u8]
}

pub open spec fn spec_mult_name() -> Seq<u8> {
    seq![109u8, 117u8, 108u8, 116u8, 105u8, 112u8, 108u8, 105u8, 99u8, 97u8, 116u8,
        105u8, 111u8, 110u8]
}

pub open spec fn spec_strided_name() -> Seq<u8> {
    seq![115u8, 116u8, 114u8, 105u8, 100u8, 101u8, 100u8, 109u8, 101u8, 109u8]
}

pub open spec fn spec_randmem_name() -> Seq<u8> {
    seq![114u8, 97u8, 110u8, 100u8, 109u8, 101u8, 109u8]
}

pub open spec fn spec_memstream_name() -> Seq<u8> {
    seq![109u8, 101u8, 109u8, 115u8, 116u8, 114u8, 101u8, 97u8, 109u8]
}

pub open spec fn spec_chase_name() -> Seq<u8> {
    seq![112u8, 111u8, 105u8, 110u8, 116u8, 101u8, 114u8, 99u8, 104u8, 97u8, 115u8, 101u8]
}

/// A spec string is in the fake-work grammar: one of the six names, with
/// the numbers its form requires — a size for every buffer-backed form (at
/// least one byte where the buffer is indexed, at least one word for the
/// pointer chase), and a stride no longer than the buffer.
pub open spec fn spec_grammar_ok(s: Seq<u8>) -> bool {
    let c1 = spec_token_end(s, 0);
    let head = s.subrange(0, c1);
    if head == spec_sqrt_name() || head == spec_mult_name() {
        true
    } else if c1 >= s.len() {
        false
    } else {
        let c2 = spec_token_end(s, c1 + 1);
        let size_tok = s.subrange(c1 + 1, c2);
        if !spec_num_ok(size_tok) {
            false
        } else {
            let size = spec_dec_value(size_tok);
            if head == spec_randmem_name() {
                size >= 1
            } else if head == spec_memstream_name() {
                true
            } else if head == spec_strided_name() {
                c2 < s.len() && {
                    let c3 = spec_token_end(s, c2 + 1);
                    let stride_tok = s.subrange(c2 + 1, c3);
                    spec_num_ok(stride_tok) && size >= 1
                        && spec_dec_value(stride_tok) <= size
                }
            } else if head == spec_chase_name() {
                c2 < s.len() && {
                    let c3 = spec_token_end(s, c2 + 1);
                    let seed_tok = s.subrange(c2 + 1, c3);
                    spec_num_ok(seed_tok) && size / 8 >= 1
                }
            } else {
                false
            }
        }
    }
}

/// The workload a spec string names, by variant and shape: the buffer
/// lengths and the stride come from the parsed numbers. (The buffers'
/// contents come from the seeded generator and are not pinned.)
pub open spec fn spec_workload_matches(w: FakeWorker, s: Seq<u8>) -> bool {
    let c1 = spec_token_end(s, 0);
    let head = s.subrange(0, c1);
    let c2 = spec_token_end(s, c1 + 1);
    let size_tok = s.subrange(c1 + 1, c2);
    let size = spec_dec_value(size_tok);
    let c3 = spec_token_end(s, c2 + 1);
    if head == spec_sqrt_name() {
        w is Sqrt
    } else if head == spec_mult_name() {
        w is Multiplication
    } else if head == spec_randmem_name() {
        w matches FakeWorker::RandomMem(buf, sched)
            && buf@.len() == size && sched@.len() == size
    } else if head == spec_memstream_name() {
        w matches FakeWorker::StreamingMem(buf) && buf@.len() == size
    } else if head == spec_strided_name() {
        w matches FakeWorker::StridedMem(buf, stride)
            && buf@.len() == size
            && stride == spec_dec_value(s.subrange(c2 + 1, c3))
    } else if head == spec_chase_name() {
        w matches FakeWorker::PointerChase(buf) && buf@.len() == size / 8
    } else {
        false
    }
}

/// A position with no separator before it and a separator (or the end) at
/// it is where the token ends.
proof fn lemma_token_end_agrees(s: Seq<u8>, from: int, r: int)
    requires
        0 <= from <= r <= s.len(),
        forall|i: int| from <= i < r ==> s[i] != 58,
        r < s.len() ==> s[r] == 58,
    ensures
        spec_token_end(s, from) == r,
    decreases r - from,
{
    if from < r {
        lemma_token_end_agrees(s, from + 1, r);
    }
}

/// The index of the first separator at or after `from`, or the length.
fn find_colon(s: &[u8], from: usize) -> (r: usize)
    requires
        from <= s@.len(),
    ensures
        from <= r <= s@.len(),
        r == spec_token_end(s@, from as int),
        forall|i: int| from <= i < r ==> s@[i] != 58,
        r < s@.len() ==> s@[r as int] == 58,
{
    let n = s.len();
    let mut i = from;
    while i < n
        invariant
            from <= i <= n == s@.len(),
            forall|j: int| from <= j < i ==> s@[j] != 58,
        decreases n - i,
    {
        if s[i] == 58 {
            proof {
                lemma_token_end_agrees(s@, from as int, i as int);
            }
            return i;
        }
        i = i + 1;
    }
    proof {
        lemma_token_end_agrees(s@, from as int, i as int);
    }
    i
}

impl FakeWorker {
    /// Builds the workload a spec string names: `sqrt`, `multiplication`,
    /// `stridedmem:<N>:<stride>`, `randmem:<N>`, `memstream:<N>` or
    /// `pointerchase:<N>:<seed>`. Buffers are drawn from a generator seeded
    /// with zero (the pointer-chase schedule from the given seed). A name
    /// outside the grammar, a missing or malformed number, an oversized or
    /// empty buffer, or a stride beyond the buffer is refused.
    pub fn create(spec: &[u8]) -> (r: Result<FakeWorker, Fail>)
        ensures
            r is Ok <==> spec_grammar_ok(spec@),
            r matches Ok(w) ==> w.wf() && spec_workload_matches(w, spec@),
            r matches Err(e) ==> e.errno == EINVAL,
    {
        let c1 = find_colon(spec, 0);
        let head = crate::bytes::copy_range(spec, 0, c1);

        // The grammar's names, as ASCII bytes.
        let sqrt_name: [u8; 4] = [115, 113, 114, 116];  // "sqrt"
        let mult_name: [u8; 14] = [109, 117, 108, 116, 105, 112, 108, 105, 99, 97, 116,
            105, 111, 110];  // "multiplication"
        let strided_name: [u8; 10] =
            [115, 116, 114, 105, 100, 101, 100, 109, 101, 109];  // "stridedmem"
        let randmem_name: [u8; 7] = [114, 97, 110, 100, 109, 101, 109];  // "randmem"
        let memstream_name: [u8; 9] =
            [109, 101, 109, 115, 116, 114, 101, 97, 109];  // "memstream"
        let chase_name: [u8; 12] = [112, 111, 105, 110, 116, 101, 114, 99, 104, 97, 115,
            101];  // "pointerchase"


        proof {
            assert(head@ == spec@.subrange(0, c1 as int));
            assert(sqrt_name@ =~= spec_sqrt_name());
            assert(mult_name@ =~= spec_mult_name());
            assert(strided_name@ =~= spec_strided_name());
            assert(randmem_name@ =~= spec_randmem_name());
            assert(memstream_name@ =~= spec_memstream_name());
            assert(chase_name@ =~= spec_chase_name());
        }
        if bytes_eq(head.as_slice(), sqrt_name.as_slice()) {
            return Ok(FakeWorker::Sqrt);
        }
        if bytes_eq(head.as_slice(), mult_name.as_slice()) {
            return Ok(FakeWorker::Multiplication);
        }

        // All remaining forms carry a size token.
        if c1 >= spec.len() {
            return Err(Fail::new(EINVAL));
        }
        let c2 = find_colon(spec, c1 + 1);
        let size_tok = crate::bytes::copy_range(spec, c1 + 1, c2);
        let size = match parse_decimal(size_tok.as_slice()) {
            Some(v) => v,
            None => {
                return Err(Fail::new(EINVAL));
            },
        };

        if bytes_eq(head.as_slice(), randmem_name.as_slice()) {
            if size == 0 {
                return Err(Fail::new(EINVAL));
            }
            let mut rng = rng_from_seed(0);
            let buf = random_bytes(&mut rng, size);
            let sched = random_indices(&mut rng, size, size);
            return Ok(FakeWorker::RandomMem(buf, sched));
        }
        if bytes_eq(head.as_slice(), memstream_name.as_slice()) {
            let mut rng = rng_from_seed(0);
            let buf = random_bytes(&mut rng, size);
            return Ok(FakeWorker::StreamingMem(buf));
        }
        if bytes_eq(head.as_slice(), strided_name.as_slice()) {
            if c2 >= spec.len() {
                return Err(Fail::new(EINVAL));
            }
            let c3 = find_colon(spec, c2 + 1);
            let stride_tok = crate::bytes::copy_range(spec, c2 + 1, c3);
            let stride = match parse_decimal(stride_tok.as_slice()) {
                Some(v) => v,
                None => {
                    return Err(Fail::new(EINVAL));
                },
            };
            if size == 0 || stride > size {
                return Err(Fail::new(EINVAL));
            }
            let mut rng = rng_from_seed(0);
            let buf = random_bytes(&mut rng, size);
            return Ok(FakeWorker::StridedMem(buf, stride));
        }
        if bytes_eq(head.as_slice(), chase_name.as_slice()) {
            if c2 >= spec.len() {
                return Err(Fail::new(EINVAL));
            }
            let c3 = find_colon(spec, c2 + 1);
            let seed_tok = crate::bytes::copy_range(spec, c2 + 1, c3);
            let seed = match parse_decimal(seed_tok.as_slice()) {
                Some(v) => v,
                None => {
                    return Err(Fail::new(EINVAL));
                },
            };
            let nwords = size / 8;
            if nwords == 0 {
                return Err(Fail::new(EINVAL));
            }
            let mut rng = rng_from_seed(seed as u8);
            let buf = random_indices(&mut rng, nwords, nwords);
            return Ok(FakeWorker::PointerChase(buf));
        }
        Err(Fail::new(EINVAL))
    }
}

/// `n` bytes from the generator.
fn random_bytes(rng: &mut rand::rngs::StdRng, n: usize) -> (r: Vec<u8>)
    ensures
        r@.len() == n,
{
    let mut buf: Vec<u8> = Vec::new();
    let mut i: usize = 0;
    while i < n
        invariant
            i <= n,
            buf@.len() == i,
        decreases n - i,
    {
        buf.push(rng_next_u8(rng));
        i = i + 1;
    }
    buf
}

/// `n` indices from the generator, each below `bound`.
fn random_indices(rng: &mut rand::rngs::StdRng, n: usize, bound: usize) -> (r: Vec<usize>)
    requires
        bound >= 1,
    ensures
        r@.len() == n,
        forall|i: int| 0 <= i < n ==> (#[trigger] r@[i]) < bound,
{
    let mut buf: Vec<usize> = Vec::new();
    let mut i: usize = 0;
    while i < n
        invariant
            i <= n,
            bound >= 1,
            buf@.len() == i,
            forall|j: int| 0 <= j < i ==> (#[trigger] buf@[j]) < bound,
        decreases n - i,
    {
        let v = rng_next_usize(rng) % bound;
        buf.push(v);
        i = i + 1;
    }
    buf
}

/// The streaming sum is non-negative and bounded by the buffer size.
pub proof fn lemma_stream_sum_bounds(buf: Seq<u8>, pos: int)
    requires
        0 <= pos,
    ensures
        0 <= spec_stream_sum(buf, pos)
            <= 0xff * (if pos <= buf.len() { buf.len() - pos } else { 0 }),
    decreases (if pos <= buf.len() { buf.len() - pos } else { 0 }),
{
    if pos < buf.len() {
        lemma_stream_sum_bounds(buf, pos + 64);
    }
}

} // verus!
