//! The buffer manager, modeled over plain handles: a fixed population of
//! packet buffers, a free list, and the headroom guarantee. The DMA memory
//! behind a handle belongs to the driver; what is verified here is the
//! accounting — allocation fails with a resource error rather than
//! blocking, release is idempotent per handle, and the headroom always
//! fits the worst-case outbound header stack.

use vstd::prelude::*;
use crate::fail::{Fail, EAGAIN, EINVAL};

verus! {

/// The worst-case outbound header stack: Ethernet, IPv4 and TCP.
pub const WORST_CASE_HEADROOM: usize = 54;

/// One pool of packet buffers, tracked by handle.
pub struct MbufPool {
    /// How many buffers the pool was built with; handles are below this.
    pub capacity: usize,
    /// Handles currently free, each at most once.
    pub free: Vec<u32>,
    /// Bytes reserved in front of every buffer's payload area.
    pub headroom: usize,
}

impl MbufPool {
    /// A handle is on the free list.
    pub open spec fn is_free(self, h: u32) -> bool {
        exists|i: int| 0 <= i < self.free@.len() && self.free@[i] == h
    }

    /// Free handles are unique and within the population, and the headroom
    /// fits the worst-case outbound header stack.
    pub open spec fn wf(self) -> bool {
        &&& forall|i: int, j: int| 0 <= i < j < self.free@.len()
            ==> #[trigger] self.free@[i] != #[trigger] self.free@[j]
        &&& forall|i: int| 0 <= i < self.free@.len()
            ==> (#[trigger] self.free@[i]) < self.capacity
        &&& self.free@.len() <= self.capacity
        &&& self.headroom >= WORST_CASE_HEADROOM
        &&& self.capacity <= 0xffff_ffff
    }

    /// A full pool of `capacity` buffers, all free.
    pub fn new(capacity: usize, headroom: usize) -> (r: MbufPool)
        requires
            headroom >= WORST_CASE_HEADROOM,
            capacity <= 0xffff_ffff,
        ensures
            r.wf(),
            r.capacity == capacity,
            r.headroom == headroom,
            r.free@.len() == capacity,
    {
        let mut free: Vec<u32> = Vec::new();
        let mut h: usize = 0;
        while h < capacity
            invariant
                h <= capacity <= 0xffff_ffff,
                free@.len() == h,
                forall|i: int| 0 <= i < h ==> (#[trigger] free@[i]) == i,
            decreases capacity - h,
        {
            free.push(h as u32);
            h = h + 1;
        }
        proof {
            assert forall|i: int, j: int| 0 <= i < j < free@.len()
                implies #[trigger] free@[i] != #[trigger] free@[j] by {
            }
        }
        MbufPool { capacity, free, headroom }
    }

    /// How many buffers are free.
    pub fn available(&self) -> (r: usize)
        ensures
            r == self.free@.len(),
    {
        self.free.len()
    }

    /// Takes a buffer off the free list. An exhausted pool is a resource
    /// error, never a wait.
    pub fn alloc_mbuf(&mut self) -> (r: Result<u32, Fail>)
        requires
            old(self).wf(),
        ensures
            final(self).wf(),
            final(self).capacity == old(self).capacity,
            final(self).headroom == old(self).headroom,
            old(self).free@.len() == 0 ==> (r matches Err(e) && e.errno == EAGAIN)
                && *final(self) == *old(self),
            old(self).free@.len() > 0 ==> {
                &&& r == Ok::<u32, Fail>(old(self).free@.last())
                &&& final(self).free@ == old(self).free@.drop_last()
            },
    {
        if self.free.len() == 0 {
            return Err(Fail::new(EAGAIN));
        }
        let popped = self.free.pop();
        match popped {
            Some(h) => Ok(h),
            None => Err(Fail::new(EAGAIN)),
        }
    }

    /// Returns a buffer to the free list. Releasing a handle that is
    /// already free changes nothing: release is idempotent per handle. A
    /// handle outside the population is refused.
    pub fn release(&mut self, h: u32) -> (r: Result<(), Fail>)
        requires
            old(self).wf(),
        ensures
            final(self).wf(),
            final(self).capacity == old(self).capacity,
            final(self).headroom == old(self).headroom,
            (h as int) >= old(self).capacity ==> (r matches Err(e) && e.errno == EINVAL)
                && *final(self) == *old(self),
            ((h as int) < old(self).capacity && old(self).is_free(h))
                ==> r is Ok && *final(self) == *old(self),
            ((h as int) < old(self).capacity && !old(self).is_free(h))
                ==> r is Ok && final(self).free@ == old(self).free@.push(h),
    {
        if h as usize >= self.capacity {
            return Err(Fail::new(EINVAL));
        }
        let n = self.free.len();
        for i in 0..n
            invariant
                n == self.free@.len(),
                *self == *old(self),
                old(self).wf(),
                (h as int) < old(self).capacity,
                forall|j: int| 0 <= j < i ==> #[trigger] self.free@[j] != h,
        {
            if self.free[i] == h {
                proof {
                    assert(self.free@[i as int] == h);
                }
                return Ok(());
            }
        }
        proof {
            if old(self).is_free(h) {
                let w = choose|i: int| 0 <= i < old(self).free@.len()
                    && old(self).free@[i] == h;
                assert(old(self).free@[w] == h);
            }
            assert(self.free@.len() < self.capacity) by {
                let p = self.free@.push(h);
                assert forall|a: int, b: int| 0 <= a < b < p.len()
                    implies #[trigger] p[a] != #[trigger] p[b] by {
                    if b < p.len() - 1 {
                        assert(self.free@[a] != self.free@[b]);
                    } else {
                        assert(self.free@[a] != h);
                    }
                }
                assert forall|a: int| 0 <= a < p.len()
                    implies (#[trigger] p[a]) < self.capacity by {
                    if a < p.len() - 1 {
                        assert(self.free@[a] < self.capacity);
                    }
                }
                lemma_unique_below_bound(p, self.capacity as int);
            }
        }
        self.free.push(h);
        proof {
            assert forall|i: int, j: int| 0 <= i < j < self.free@.len()
                implies #[trigger] self.free@[i] != #[trigger] self.free@[j] by {
                if j < self.free@.len() - 1 {
                    assert(old(self).free@[i] != old(self).free@[j]);
                } else {
                    assert(old(self).free@[i] != h);
                }
            }
        }
        Ok(())
    }
}

/// A sequence of distinct values below a bound cannot outnumber the bound.
pub proof fn lemma_unique_below_bound(s: Seq<u32>, bound: int)
    requires
        forall|i: int, j: int| 0 <= i < j < s.len() ==> #[trigger] s[i] != #[trigger] s[j],
        forall|i: int| 0 <= i < s.len() ==> (#[trigger] s[i]) < bound,
        bound >= 0,
    ensures
        s.len() <= bound,
    decreases bound,
{
    if s.len() > bound {
        if bound == 0 {
            assert(s[0] < 0);
        } else {
            // Remove the occurrence of value bound - 1, if any (there is at
            // most one), and recurse on the rest, which lies below bound - 1.
            let v = (bound - 1) as u32;
            if exists|i: int| 0 <= i < s.len() && s[i] == v {
                let w = choose|i: int| 0 <= i < s.len() && s[i] == v;
                let t = s.remove(w);
                assert forall|i: int, j: int| 0 <= i < j < t.len()
                    implies #[trigger] t[i] != #[trigger] t[j] by {
                    if j < w {
                        assert(s[i] != s[j]);
                    } else if i < w {
                        assert(s[i] != s[j + 1]);
                    } else {
                        assert(s[i + 1] != s[j + 1]);
                    }
                }
                assert forall|i: int| 0 <= i < t.len()
                    implies (#[trigger] t[i]) < bound - 1 by {
                    if i < w {
                        assert(s[i] < bound && s[i] != v);
                    } else {
                        assert(s[i + 1] < bound && s[i + 1] != v);
                    }
                }
                lemma_unique_below_bound(t, bound - 1);
            } else {
                assert forall|i: int| 0 <= i < s.len()
                    implies (#[trigger] s[i]) < bound - 1 by {
                    assert(s[i] < bound && s[i] != v);
                }
                lemma_unique_below_bound(s, bound - 1);
            }
        }
    }
}

} // verus!
