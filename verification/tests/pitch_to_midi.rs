use daudio::notes::quantize;
use daudio::pitch_to_midi::{
    is_bend, preset_toggles, readout_name, root_pc, trigger_target, BendMode, PitchToMidiParams, Response, Root,
};

#[test]
fn continuous_volume_small_step_is_a_bend() {
    // No dip, new note within the bend range → treat as a bend.
    assert!(is_bend(false, 60, 62, 2)); // whole step up, range 2
    assert!(is_bend(false, 60, 58, 2)); // whole step down
}

#[test]
fn volume_dip_is_a_separate_note() {
    // A re-articulation (dip) is never a bend, even for a small step.
    assert!(!is_bend(true, 60, 62, 2));
}

#[test]
fn jump_beyond_range_is_a_separate_note() {
    // Too far to bend even with continuous volume.
    assert!(!is_bend(false, 60, 67, 2)); // 7 semis, range 2
    assert!(is_bend(false, 60, 67, 7)); // but bendable with a wide range
}

#[test]
fn dip_short_circuits_out_of_range_targets() {
    // With a dip nothing is computed, so even the extreme target is fine.
    assert!(!is_bend(true, 127, i32::MIN, 12));
}

#[test]
fn responses_map_to_window_and_hop() {
    assert_eq!(Response::Fast.window_hop(), (512, 64));
    assert_eq!(Response::Balanced.window_hop(), (1024, 128));
    assert_eq!(Response::Full.window_hop(), (2048, 256));
}

#[test]
fn roots_map_to_pitch_classes() {
    let roots = [
        Root::C, Root::Cs, Root::D, Root::Ds, Root::E, Root::F, Root::Fs, Root::G, Root::Gs, Root::A, Root::As, Root::B,
    ];
    for (i, r) in roots.iter().enumerate() {
        assert_eq!(root_pc(*r) as usize, i);
    }
}

#[test]
fn default_params_are_c_major() {
    let p = PitchToMidiParams::default();
    assert_eq!(p.degree_mask(), 0b1010_1011_0101);
    assert_eq!(p.root_pc(), 0);
    assert_eq!(p.response, Response::Balanced);
    assert_eq!(p.bend_mode, BendMode::Off);
    assert_eq!((p.max_jump, p.bend_range, p.vel_min, p.vel_max), (7, 2, 1, 127));
    // The default scale quantizes like the C major mask.
    assert_eq!(quantize(61, p.root_pc(), p.degree_mask()), Some(62));
}

#[test]
fn degree_mask_sets_one_bit_per_degree() {
    let mut p = PitchToMidiParams::default();
    p.degrees = [false; 12];
    assert_eq!(p.degree_mask(), 0);
    p.degrees[11] = true;
    assert_eq!(p.degree_mask(), 1 << 11);
    p.degrees = [true; 12];
    assert_eq!(p.degree_mask(), 0x0fff);
    p.root = Root::A;
    assert_eq!(p.root_pc(), 9);
}

#[test]
fn auto_mode_keeps_the_held_note_on_a_bend() {
    assert_eq!(trigger_target(BendMode::Auto, Some(60), Some(62), false, 2), Some(60));
    assert_eq!(trigger_target(BendMode::Auto, Some(60), Some(62), true, 2), Some(62));
    assert_eq!(trigger_target(BendMode::Auto, Some(60), Some(67), false, 2), Some(67));
    assert_eq!(trigger_target(BendMode::On, Some(60), Some(62), false, 2), Some(62));
    assert_eq!(trigger_target(BendMode::Off, Some(60), Some(62), false, 2), Some(62));
    assert_eq!(trigger_target(BendMode::Auto, None, Some(62), false, 2), Some(62));
    assert_eq!(trigger_target(BendMode::Auto, Some(60), None, false, 2), None);
}

#[test]
fn presets_set_their_degrees() {
    let major = preset_toggles(&[0, 2, 4, 5, 7, 9, 11]);
    assert_eq!(
        major,
        vec![true, false, true, false, true, true, false, true, false, true, false, true]
    );
    assert_eq!(preset_toggles(&[]), vec![false; 12]);
    assert_eq!(preset_toggles(&[0, 1, 2, 3, 4, 5, 6, 7, 8, 9, 10, 11]), vec![true; 12]);
    // Entries outside 0..12 toggle nothing.
    assert_eq!(preset_toggles(&[12, 200]), vec![false; 12]);
}

#[test]
fn readout_shows_dash_for_no_note() {
    assert_eq!(readout_name(-1), "\u{2014}");
    assert_eq!(readout_name(69), "A4");
    assert_eq!(readout_name(0), "C-1");
}
