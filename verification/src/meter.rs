//! Lock-free single-value audio→UI channel for meters.
//!
//! The audio thread stores a level, the editor loads the latest one. The level
//! travels as the bit pattern of a 32-bit float in one atomic word, so each
//! side is a single relaxed atomic operation: no allocation, no lock.
use vstd::prelude::*;
use std::sync::Arc;
use std::sync::atomic::AtomicU32;
use std::sync::atomic::Ordering;

verus! {

/// Lock-free peak-level channel: audio thread writes, editor reads. Cheap
/// clone (the clones share one word).
#[derive(Clone)]
pub struct PeakLevel {
    bits: Arc<AtomicU32>,
}

impl PeakLevel {
    /// Create a new channel holding the level 0.0 (bit pattern 0).
    ///
    /// std's atomics carry no specification of the value they hold, so no
    /// clause here states the initial word.
    pub fn new() -> Self {
        PeakLevel { bits: Arc::new(AtomicU32::new(0)) }
    }

    /// Store the bit pattern of a level for the reader (audio-thread side).
    pub fn write_bits(&self, bits: u32) {
        self.bits.store(bits, Ordering::Relaxed);
    }

    /// Load the bit pattern most recently stored by any clone (editor side).
    ///
    /// Which pattern that is depends on the timing of the other threads that
    /// share the word, so the result is any `u32` as far as a clause can say.
    pub fn read_bits(&self) -> u32 {
        self.bits.load(Ordering::Relaxed)
    }
}

} // verus!
