//! Oscillator waveform selection.
use vstd::prelude::*;

verus! {

/// Oscillator waveform selection.
#[derive(Clone, Copy, PartialEq, Eq, Structural, Debug)]
pub enum Waveform {
    Sine,
    Saw,
}

} // verus!
