use daudio::oscillator::Waveform;
use daudio::synth::WaveformChoice;

#[test]
fn waveform_choice_maps_one_to_one() {
    assert_eq!(Waveform::from(WaveformChoice::Saw), Waveform::Saw);
    assert_eq!(Waveform::from(WaveformChoice::Sine), Waveform::Sine);
}
