//! The test-and-set flag used once per core spawn: the child sets it when it
//! has copied its argument block, and the parent spins on it before reusing
//! the block. Not a mutual-exclusion lock; the name is historical.

use vstd::prelude::*;
use core::sync::atomic::{AtomicBool, Ordering};

verus! {

/// A one-bit handshake flag shared across cores.
pub struct TASLock {
    /// The flag; set while the guarded side is busy.
    pub busy: AtomicBool,
}

impl TASLock {
    /// A fresh, clear flag.
    pub fn new() -> TASLock {
        TASLock { busy: AtomicBool::new(false) }
    }

    /// Raises the flag.
    pub fn set(&self) {
        self.busy.store(true, Ordering::SeqCst);
    }

    /// Spins until the flag can be taken: waits for it to be clear, raising
    /// it in the same step. The spin is bounded, but by a count no machine
    /// exhausts.
    pub fn lock(&self) {
        let mut spins: u64 = 0;
        while spins < u64::MAX
            decreases u64::MAX - spins,
        {
            let won = self.busy.compare_exchange(
                false, true, Ordering::SeqCst, Ordering::SeqCst);
            if won.is_ok() {
                return;
            }
            spins = spins + 1;
        }
    }

    /// Reads the flag.
    pub fn test(&self) -> bool {
        self.busy.load(Ordering::SeqCst)
    }

    /// Reads the flag.
    pub fn check(&self) -> bool {
        self.busy.load(Ordering::SeqCst)
    }

    /// Clears the flag.
    pub fn unlock(&self) {
        self.busy.store(false, Ordering::SeqCst);
    }
}

} // verus!
