use daudio::pitch::{clamped_window, pack_bits, unpack_bits, HopGate, SampleWindow, DEFAULT_HOP, HOP, MAX_WINDOW};

fn pack(freq: f32, clarity: f32) -> u64 {
    pack_bits(freq.to_bits(), clarity.to_bits())
}

fn unpack(bits: u64) -> (f32, f32) {
    let (f, c) = unpack_bits(bits);
    (f32::from_bits(f), f32::from_bits(c))
}

#[test]
fn pack_unpack_roundtrips() {
    let (f, c) = unpack(pack(261.63, 0.93));
    assert!((f - 261.63).abs() < 1e-2 && (c - 0.93).abs() < 1e-3);
    assert!(unpack(pack(f32::NAN, 0.0)).0.is_nan());
}

#[test]
fn packing_puts_frequency_high() {
    assert_eq!(pack_bits(1, 2), (1u64 << 32) | 2);
    assert_eq!(unpack_bits(0xdead_beef_0000_0001), (0xdead_beef, 1));
}

#[test]
fn window_is_clamped() {
    assert_eq!(clamped_window(10), 256);
    assert_eq!(clamped_window(4096), MAX_WINDOW);
    assert_eq!(clamped_window(512), 512);
    assert_eq!(HOP, DEFAULT_HOP);
}

#[test]
fn gate_fires_every_hop() {
    let mut g = HopGate::new();
    let fired: Vec<bool> = (0..7).map(|_| g.tick(3)).collect();
    assert_eq!(fired, vec![false, false, true, false, false, true, false]);
    assert_eq!(g.count(), 1);
    g.reset();
    assert_eq!(g.count(), 0);
    assert!(g.tick(0));
}

#[test]
fn completed_hop_lays_out_the_last_window() {
    let mut w = SampleWindow::new(256, -1i32);
    w.set_hop(100);
    let mut ready_at = Vec::new();
    for n in 0..3000i32 {
        if w.push(n) {
            ready_at.push(n);
            let win = &w.scratch()[..w.window()];
            let expected: Vec<i32> = ((n - 255).max(0)..=n).collect();
            if n >= 255 {
                assert_eq!(win, &expected[..]);
            } else {
                // Samples before the first push read as the fill value.
                assert_eq!(win[255], n);
                assert_eq!(win[0], -1);
            }
        }
    }
    assert_eq!(ready_at.len(), 30);
    assert_eq!(ready_at[0], 99);
}

#[test]
fn window_change_keeps_samples() {
    let mut w = SampleWindow::new(2048, 0u16);
    for n in 0..3000u16 {
        w.push(n);
    }
    assert!(w.set_window(512));
    assert!(!w.set_window(512));
    assert_eq!(w.window(), 512);
    w.set_hop(1);
    assert!(w.push(3000));
    let win = &w.scratch()[..512];
    assert_eq!(win[0], 3000 - 511);
    assert_eq!(win[511], 3000);
}

#[test]
fn zero_hop_becomes_one() {
    let mut w = SampleWindow::new(300, 0u8);
    assert_eq!(w.window(), 300);
    assert_eq!(w.hop(), DEFAULT_HOP);
    w.set_hop(0);
    assert_eq!(w.hop(), 1);
    assert!(w.push(1));
}
