//! The live playback level the waveform rides on: one value shared between
//! the audio thread that writes it and the interface that reads it.
use vstd::prelude::*;
use std::sync::Arc;
use std::sync::atomic::AtomicU32;

verus! {

/// A shared level, held as the bits of an `f32` in an atomic so that the
/// audio thread never waits for the interface.
#[derive(Clone)]
pub struct LiveLevel(Arc<AtomicU32>);

impl LiveLevel {
    /// A level of 0.0 (the `f32` whose bits are all zero).
    pub fn new() -> (r: Self) {
        LiveLevel(Arc::new(AtomicU32::new(0)))
    }

    /// The bits of the level last written, by any thread.
    pub fn get_bits(&self) -> (r: u32) {
        self.0.load(std::sync::atomic::Ordering::Relaxed)
    }

    /// Writes the bits of a new level.
    pub fn set_bits(&self, bits: u32) {
        self.0.store(bits, std::sync::atomic::Ordering::Relaxed);
    }
}

} // verus!
