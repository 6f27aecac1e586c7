use daudio::preview::{analyzer_demo, effect_demo, interleaved_to_frames, AnalyzerDemo, EffectDemo};

fn args(a: &[&str]) -> Vec<String> {
    a.iter().map(|x| x.to_string()).collect()
}

#[test]
fn effect_demo_dispatch() {
    assert_eq!(effect_demo(args(&[])), Some(EffectDemo::Tone));
    assert_eq!(effect_demo(args(&["in.wav"])), Some(EffectDemo::Play("in.wav".into())));
    assert_eq!(
        effect_demo(args(&["in.wav", "out.wav"])),
        Some(EffectDemo::Render("in.wav".into(), "out.wav".into()))
    );
    assert_eq!(effect_demo(args(&["a", "b", "c"])), None);
}

#[test]
fn analyzer_demo_dispatch() {
    assert_eq!(analyzer_demo(args(&[])), Some(AnalyzerDemo::Live(None)));
    assert_eq!(analyzer_demo(args(&["--list"])), Some(AnalyzerDemo::List));
    assert_eq!(analyzer_demo(args(&["--input", "Mic"])), Some(AnalyzerDemo::Live(Some("Mic".into()))));
    assert_eq!(analyzer_demo(args(&["tone.wav"])), Some(AnalyzerDemo::File("tone.wav".into())));
    // A lone `--input` is taken as a file name.
    assert_eq!(analyzer_demo(args(&["--input"])), Some(AnalyzerDemo::File("--input".into())));
    assert_eq!(analyzer_demo(args(&["x.wav", "y.wav"])), None);
}

#[test]
fn frames_from_interleaved_samples() {
    let mono = vec![1.0f32, 2.0, 3.0];
    assert_eq!(interleaved_to_frames(&mono, 1), vec![(1.0, 1.0), (2.0, 2.0), (3.0, 3.0)]);
    let stereo = vec![1, 2, 3, 4];
    assert_eq!(interleaved_to_frames(&stereo, 2), vec![(1, 2), (3, 4)]);
    let quad = vec![1, 2, 3, 4, 5, 6, 7, 8, 9, 10];
    // A trailing partial frame with two samples still counts.
    assert_eq!(interleaved_to_frames(&quad, 4), vec![(1, 2), (5, 6), (9, 10)]);
    let empty: Vec<i16> = vec![];
    assert_eq!(interleaved_to_frames(&empty, 2), vec![]);
}
