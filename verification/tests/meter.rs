use daudio::meter::PeakLevel;

#[test]
fn write_then_read_roundtrips() {
    let p = PeakLevel::new();
    assert_eq!(f32::from_bits(p.read_bits()), 0.0);
    p.write_bits(0.5f32.to_bits());
    assert_eq!(f32::from_bits(p.read_bits()), 0.5);
    let clone = p.clone();
    p.write_bits(0.25f32.to_bits());
    assert_eq!(f32::from_bits(clone.read_bits()), 0.25);
}
