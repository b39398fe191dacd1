use gpu_host::half::{f16_to_f32, f32_to_f16, pack_f16x2, pack_halves};

fn half(x: f32) -> u16 {
    f32_to_f16(x.to_bits())
}

#[test]
fn small_numbers_are_exact() {
    assert_eq!(half(1.0), 0x3C00);
    assert_eq!(half(-2.0), 0xC000);
    assert_eq!(half(0.5), 0x3800);
    assert_eq!(half(7.0), 0x4700);
    assert_eq!(f32::from_bits(f16_to_f32(0x4700)), 7.0);
}

#[test]
fn the_fraction_is_cut_off() {
    assert_eq!(half(1.0 + 1.0 / 1024.0 + 1.0 / 2048.0), 0x3C01);
    assert_eq!(half(65504.0), 0x7BFF);
}

#[test]
fn the_ends_of_the_range() {
    assert_eq!(half(0.0), 0);
    assert_eq!(half(-0.0), 0x8000);
    assert_eq!(half(1.0e-6), 0);
    assert_eq!(half(-1.0e-6), 0x8000);
    assert_eq!(half(65536.0), 0x7C00);
    assert_eq!(half(f32::NEG_INFINITY), 0xFC00);
}

#[test]
fn widening() {
    assert_eq!(f16_to_f32(0x7C00), 0x7F80_0000);
    assert_eq!(f16_to_f32(0xFC00), 0xFF80_0000);
    assert!(f32::from_bits(f16_to_f32(0x7C01)).is_nan());
    assert_eq!(f16_to_f32(0x8000), 0x8000_0000);
}

#[test]
fn normal_halves_survive_widening() {
    for bits in 0x0400..0x7C00u16 {
        assert_eq!(f32_to_f16(f16_to_f32(bits)), bits);
    }
}

#[test]
fn two_halves_make_a_word() {
    assert_eq!(pack_f16x2(1.0f32.to_bits(), 2.0f32.to_bits()), 0x4000_3C00);
    assert_eq!(pack_halves(0x1234, 0x5678), 0x5678_1234);
}
