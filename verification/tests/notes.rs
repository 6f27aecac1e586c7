use daudio::notes::{degree_caption, note_name, quantize, quantize_in_range};

const MAJOR: u16 = 0b1010_1011_0101; // degrees 0,2,4,5,7,9,11

#[test]
fn workspace_builds() {
    assert_eq!(2 + 2, 4);
}

#[test]
fn note_names() {
    assert_eq!(note_name(69), "A4");
    assert_eq!(note_name(60), "C4");
    assert_eq!(note_name(61), "C#4");
}

#[test]
fn in_scale_notes_pass_through() {
    assert_eq!(quantize(60, 0, MAJOR), Some(60));
    assert_eq!(quantize(64, 0, MAJOR), Some(64));
}

#[test]
fn out_of_scale_snaps_upward_on_tie() {
    assert_eq!(quantize(61, 0, MAJOR), Some(62));
}

#[test]
fn root_shifts_the_scale() {
    assert_eq!(quantize(69, 9, MAJOR), Some(69));
    assert_eq!(quantize(60, 9, MAJOR), Some(61));
}

#[test]
fn empty_mask_is_none() {
    assert_eq!(quantize(60, 0, 0), None);
}

#[test]
fn note_names_at_the_edges() {
    assert_eq!(note_name(0), "C-1");
    assert_eq!(note_name(11), "B-1");
    assert_eq!(note_name(12), "C0");
    assert_eq!(note_name(-1), "B-2");
    assert_eq!(note_name(-12), "C-2");
    assert_eq!(note_name(127), "G9");
    assert_eq!(note_name(130), "A#9");
    assert_eq!(note_name(i32::MAX), "G178956969");
    assert_eq!(note_name(i32::MIN), "E-178956972");
}

#[test]
fn octave_name_follows_note() {
    // One octave up keeps the pitch class and raises the octave number.
    assert_eq!(note_name(57), "A3");
    assert_eq!(note_name(57 + 12), "A4");
}

#[test]
fn nearest_note_below_wins_without_a_tie() {
    // C minor pentatonic-ish mask {0, 3}: from 1 the nearest is 0 (distance 1)
    // rather than 3 (distance 2).
    let mask: u16 = 0b1001;
    assert_eq!(quantize(61, 0, mask), Some(60));
    assert_eq!(quantize(62, 0, mask), Some(63));
}

#[test]
fn single_degree_scale_snaps_within_six() {
    // Only C allowed: F# (66) is a tie between 60 and 72 and resolves upward.
    let mask: u16 = 0b1;
    assert_eq!(quantize(66, 0, mask), Some(72));
    assert_eq!(quantize(65, 0, mask), Some(60));
    assert_eq!(quantize(67, 0, mask), Some(72));
}

#[test]
fn quantize_is_idempotent_and_octave_periodic() {
    for midi in 40..90 {
        let q = quantize(midi, 2, MAJOR).unwrap();
        assert_eq!(quantize(q, 2, MAJOR), Some(q));
        assert_eq!(quantize(midi + 12, 2, MAJOR), Some(q + 12));
        // Transposition: raising the root by 3 moves every result by 3.
        assert_eq!(quantize(midi + 3, 5, MAJOR), Some(q + 3));
    }
}

#[test]
fn mask_bits_above_twelve_are_ignored() {
    assert_eq!(quantize(60, 0, 0xf000), None);
    assert_eq!(quantize(61, 0, 0xf000 | MAJOR), Some(62));
}

#[test]
fn negative_notes_quantize() {
    assert_eq!(quantize(-1, 0, MAJOR), Some(-1)); // B is in C major
    assert_eq!(quantize(-2, 0, MAJOR), Some(-1)); // A# snaps up to B
}

#[test]
fn range_check_matches_overflow_points() {
    assert!(quantize_in_range(60, 0, MAJOR));
    assert!(quantize_in_range(i32::MAX, 0, 0));
    // i32::MAX is G; in C major it is in the scale itself.
    assert!(quantize_in_range(i32::MAX, 0, MAJOR));
    // i32::MAX - 1 is F#: the search steps up to i32::MAX (G) and stops.
    assert!(quantize_in_range(i32::MAX - 1, 0, MAJOR));
    // With only C allowed, the search from i32::MAX would step past the top.
    assert!(!quantize_in_range(i32::MAX, 0, 0b1));
    // Below: the root subtraction overflows for the lowest notes.
    assert!(!quantize_in_range(i32::MIN, 5, MAJOR));
    assert_eq!(quantize(i32::MAX - 1, 0, MAJOR), Some(i32::MAX));
}

#[test]
fn degree_captions_follow_the_root() {
    assert_eq!(degree_caption(0, 0), "C");
    assert_eq!(degree_caption(9, 3), "C");
    assert_eq!(degree_caption(11, 1), "C");
    assert_eq!(degree_caption(2, 11), "C#");
}
