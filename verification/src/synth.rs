//! The synth's waveform parameter and its mapping onto the oscillator waveform.
use vstd::prelude::*;
use crate::oscillator::Waveform;

verus! {

/// Oscillator waveform as the synth offers it to the host (saw first, the
/// default). Maps one-to-one onto [`Waveform`].
#[derive(Debug, Clone, Copy, PartialEq, Eq, Structural)]
pub enum WaveformChoice {
    Saw,
    Sine,
}

impl From<WaveformChoice> for Waveform {
    fn from(w: WaveformChoice) -> (r: Waveform) {
        match w {
            WaveformChoice::Saw => Waveform::Saw,
            WaveformChoice::Sine => Waveform::Sine,
        }
    }
}

impl vstd::std_specs::convert::FromSpecImpl<WaveformChoice> for Waveform {
    open spec fn obeys_from_spec() -> bool {
        true
    }

    open spec fn from_spec(w: WaveformChoice) -> Waveform {
        match w {
            WaveformChoice::Saw => Waveform::Saw,
            WaveformChoice::Sine => Waveform::Sine,
        }
    }
}

/// The mapping is one-to-one: distinct choices select distinct waveforms.
pub proof fn lemma_choice_is_faithful(a: WaveformChoice, b: WaveformChoice)
    ensures
        <Waveform as vstd::std_specs::convert::FromSpec<WaveformChoice>>::from_spec(a)
            == <Waveform as vstd::std_specs::convert::FromSpec<WaveformChoice>>::from_spec(b) ==> a == b,
{
}

} // verus!
