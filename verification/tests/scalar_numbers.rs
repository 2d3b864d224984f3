use scene_layout::scalar::Scalar;

fn s(x: f32) -> Scalar {
    Scalar::from_bits(x.to_bits())
}

fn reference_cells(x: f32) -> i32 {
    x.max(1.0) as i32
}

fn same_number(ours: Scalar, theirs: f32) -> bool {
    if theirs.is_nan() {
        ours.check_nan()
    } else {
        ours.to_bits() == theirs.to_bits()
    }
}

fn next_pattern(state: &mut u64) -> u32 {
    *state = state.wrapping_mul(6364136223846793005).wrapping_add(1442695040888963407);
    (*state >> 32) as u32
}

#[test]
fn extent_below_one_unit_takes_one_cell() {
    assert_eq!(s(0.3).cells(), 1);
}

#[test]
fn extent_is_cut_to_whole_cells_after_the_clamp() {
    assert_eq!(s(5.7).cells(), 5);
}

#[test]
fn cells_of_whole_and_fractional_extents() {
    assert_eq!(s(1.0).cells(), 1);
    assert_eq!(s(1.999_999_9).cells(), 1);
    assert_eq!(s(2.0).cells(), 2);
    assert_eq!(s(2.5).cells(), 2);
    assert_eq!(s(1024.75).cells(), 1024);
    assert_eq!(s(16_777_216.0).cells(), 16_777_216);
    assert_eq!(s(2_147_483_520.0).cells(), 2_147_483_520);
}

#[test]
fn cells_of_degenerate_extents() {
    assert_eq!(s(0.0).cells(), 1);
    assert_eq!(s(-0.0).cells(), 1);
    assert_eq!(s(-3.5).cells(), 1);
    assert_eq!(s(f32::NAN).cells(), 1);
    assert_eq!(s(f32::NEG_INFINITY).cells(), 1);
    assert_eq!(s(f32::MIN_POSITIVE).cells(), 1);
    assert_eq!(s(1.0e-45).cells(), 1);
}

#[test]
fn cells_are_held_to_the_largest_i32() {
    assert_eq!(s(f32::INFINITY).cells(), i32::MAX);
    assert_eq!(s(2_147_483_648.0).cells(), i32::MAX);
    assert_eq!(s(1.0e10).cells(), i32::MAX);
    assert_eq!(s(f32::MAX).cells(), i32::MAX);
}

#[test]
fn cells_agree_with_clamp_then_cast_on_many_patterns() {
    let mut state: u64 = 7;
    for _ in 0..200_000 {
        let bits = next_pattern(&mut state);
        let x = f32::from_bits(bits);
        assert_eq!(Scalar::from_bits(bits).cells(), reference_cells(x), "bits {:#x}", bits);
    }
}

#[test]
fn named_numbers_have_their_patterns() {
    assert_eq!(Scalar::zero().to_bits(), 0.0f32.to_bits());
    assert_eq!(Scalar::one().to_bits(), 1.0f32.to_bits());
    assert_eq!(Scalar::infinity().to_bits(), f32::INFINITY.to_bits());
    assert_eq!(Scalar::negative_infinity().to_bits(), f32::NEG_INFINITY.to_bits());
    assert_eq!(Scalar::from_bits(0x4000_0000).to_bits(), 2.0f32.to_bits());
}

#[test]
fn nan_is_recognised() {
    assert!(s(f32::NAN).check_nan());
    assert!(Scalar::from_bits(0xffc0_0001).check_nan());
    assert!(!s(f32::INFINITY).check_nan());
    assert!(!s(0.0).check_nan());
}

#[test]
fn less_orders_numbers_and_no_nan() {
    assert!(s(1.0).less(s(2.0)));
    assert!(!s(2.0).less(s(1.0)));
    assert!(s(-2.0).less(s(-1.0)));
    assert!(s(-1.0).less(s(0.5)));
    assert!(!s(0.0).less(s(-0.0)));
    assert!(!s(-0.0).less(s(0.0)));
    assert!(s(f32::NEG_INFINITY).less(s(f32::MIN)));
    assert!(s(f32::MAX).less(s(f32::INFINITY)));
    assert!(!s(f32::NAN).less(s(1.0)));
    assert!(!s(1.0).less(s(f32::NAN)));
}

#[test]
fn less_agrees_with_the_machine_on_many_patterns() {
    let mut state: u64 = 11;
    for _ in 0..200_000 {
        let a = next_pattern(&mut state);
        let b = next_pattern(&mut state);
        let expected = f32::from_bits(a) < f32::from_bits(b);
        assert_eq!(Scalar::from_bits(a).less(Scalar::from_bits(b)), expected);
    }
}

#[test]
fn lesser_and_greater_ignore_nan() {
    assert_eq!(s(f32::NAN).lesser(s(3.0)).to_bits(), 3.0f32.to_bits());
    assert_eq!(s(3.0).lesser(s(f32::NAN)).to_bits(), 3.0f32.to_bits());
    assert_eq!(s(f32::NAN).greater(s(3.0)).to_bits(), 3.0f32.to_bits());
    assert_eq!(s(3.0).greater(s(f32::NAN)).to_bits(), 3.0f32.to_bits());
}

#[test]
fn lesser_and_greater_agree_with_min_and_max() {
    let mut state: u64 = 13;
    for _ in 0..200_000 {
        let a = f32::from_bits(next_pattern(&mut state));
        let b = f32::from_bits(next_pattern(&mut state));
        if a == b {
            continue;
        }
        assert!(same_number(s(a).lesser(s(b)), a.min(b)));
        assert!(same_number(s(a).greater(s(b)), a.max(b)));
    }
}

#[test]
fn minus_of_simple_numbers() {
    assert_eq!(s(5.0).minus(s(3.0)).to_bits(), 2.0f32.to_bits());
    assert_eq!(s(3.0).minus(s(5.0)).to_bits(), (-2.0f32).to_bits());
    assert_eq!(s(1.5).minus(s(-0.25)).to_bits(), 1.75f32.to_bits());
    assert_eq!(s(0.1).minus(s(0.3)).to_bits(), (0.1f32 - 0.3f32).to_bits());
    assert_eq!(s(7.0).minus(s(7.0)).to_bits(), 0.0f32.to_bits());
}

#[test]
fn minus_of_zeros_keeps_the_sign_rule() {
    assert_eq!(s(0.0).minus(s(0.0)).to_bits(), (0.0f32 - 0.0f32).to_bits());
    assert_eq!(s(-0.0).minus(s(0.0)).to_bits(), (-0.0f32 - 0.0f32).to_bits());
    assert_eq!(s(0.0).minus(s(-0.0)).to_bits(), (0.0f32 - -0.0f32).to_bits());
    assert_eq!(s(-0.0).minus(s(-0.0)).to_bits(), (-0.0f32 - -0.0f32).to_bits());
    assert_eq!(s(-0.0).minus(s(0.0)).to_bits(), 0x8000_0000);
}

#[test]
fn minus_with_infinities_and_nan() {
    let inf = f32::INFINITY;
    assert_eq!(s(inf).minus(s(1.0)).to_bits(), inf.to_bits());
    assert_eq!(s(1.0).minus(s(inf)).to_bits(), (-inf).to_bits());
    assert_eq!(s(1.0).minus(s(-inf)).to_bits(), inf.to_bits());
    assert_eq!(s(-inf).minus(s(inf)).to_bits(), (-inf).to_bits());
    assert!(s(inf).minus(s(inf)).check_nan());
    assert!(s(-inf).minus(s(-inf)).check_nan());
    assert!(s(f32::NAN).minus(s(1.0)).check_nan());
    assert!(s(1.0).minus(s(f32::NAN)).check_nan());
}

#[test]
fn minus_rounds_ties_to_even_and_overflows_to_infinity() {
    let cases: [(f32, f32); 10] = [
        (16_777_216.0, -1.0),
        (16_777_218.0, -1.0),
        (16_777_216.0, 1.0),
        (1.0, 5.960_464_5e-8),
        (1.0, 2.980_232_2e-8),
        (f32::MAX, -f32::MAX),
        (f32::MAX, -1.0e31),
        (f32::MIN_POSITIVE, 1.0e-45),
        (1.0e-45, 3.0e-45),
        (1.0e30, 1.0e-30),
    ];
    for (a, b) in cases {
        assert!(same_number(s(a).minus(s(b)), a - b), "{} - {}", a, b);
        assert!(same_number(s(b).minus(s(a)), b - a), "{} - {}", b, a);
    }
}

#[test]
fn minus_agrees_with_the_machine_on_many_patterns() {
    let mut state: u64 = 17;
    for _ in 0..400_000 {
        let a = next_pattern(&mut state);
        let b = next_pattern(&mut state);
        let expected = f32::from_bits(a) - f32::from_bits(b);
        let ours = Scalar::from_bits(a).minus(Scalar::from_bits(b));
        assert!(same_number(ours, expected), "{:#x} - {:#x}", a, b);
    }
}

#[test]
fn minus_agrees_with_the_machine_on_close_exponents() {
    let mut state: u64 = 19;
    for _ in 0..400_000 {
        let a = next_pattern(&mut state);
        let shift = next_pattern(&mut state) % 60;
        let fraction = next_pattern(&mut state) & 0x007f_ffff;
        let sign = next_pattern(&mut state) & 0x8000_0000;
        let exponent = ((a >> 23) & 0xff).saturating_sub(30).saturating_add(shift).min(254);
        let b = sign | (exponent << 23) | fraction;
        let expected = f32::from_bits(a) - f32::from_bits(b);
        let ours = Scalar::from_bits(a).minus(Scalar::from_bits(b));
        assert!(same_number(ours, expected), "{:#x} - {:#x}", a, b);
    }
}

#[test]
fn unpack_gives_significand_and_scale() {
    assert_eq!(s(1.0).unpack(), (0x80_0000, 126));
    assert_eq!(s(1.0e-45).unpack(), (1, 0));
    assert_eq!(s(f32::MIN_POSITIVE).unpack(), (0x80_0000, 0));
    assert_eq!(s(-6.0).unpack(), (0xc0_0000, 128));
    assert_eq!(s(f32::MAX).unpack(), (0xff_ffff, 253));
    assert_eq!(s(f32::INFINITY).unpack(), (0x80_0000, 254));
}
