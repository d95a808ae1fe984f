use debug_overlay::binary64::Binary64;

fn shown(x: f64) -> String {
    Binary64::from_bits(x.to_bits()).format_two_decimals()
}

fn next(state: &mut u64) -> u64 {
    *state ^= *state << 13;
    *state ^= *state >> 7;
    *state ^= *state << 17;
    *state
}

#[test]
fn rounds_up_to_the_nearest_hundredth() {
    assert_eq!(shown(59.987), "59.99");
}

#[test]
fn rounds_down_to_the_nearest_hundredth() {
    assert_eq!(shown(59.984), "59.98");
    assert_eq!(shown(144.0011), "144.00");
}

#[test]
fn whole_numbers_get_two_zeros() {
    assert_eq!(shown(0.0), "0.00");
    assert_eq!(shown(1.0), "1.00");
    assert_eq!(shown(60.0), "60.00");
    assert_eq!(shown(1000000.0), "1000000.00");
}

#[test]
fn ties_go_to_the_even_hundredth() {
    assert_eq!(shown(0.125), "0.12");
    assert_eq!(shown(0.375), "0.38");
    assert_eq!(shown(0.625), "0.62");
    assert_eq!(shown(0.875), "0.88");
    assert_eq!(shown(2.5 / 512.0), "0.00");
    assert_eq!(shown(7.5 / 512.0), "0.01");
}

#[test]
fn the_sign_bit_gives_a_minus() {
    assert_eq!(shown(-59.987), "-59.99");
    assert_eq!(shown(-0.0), "-0.00");
    assert_eq!(shown(-0.001), "-0.00");
}

#[test]
fn what_is_not_a_number_has_no_sign() {
    assert_eq!(shown(f64::NAN), "NaN");
    assert_eq!(shown(-f64::NAN), "NaN");
    assert_eq!(Binary64::from_bits(0x7ff0_0000_0000_0001).format_two_decimals(), "NaN");
    assert_eq!(Binary64::from_bits(0xffff_ffff_ffff_ffff).format_two_decimals(), "NaN");
}

#[test]
fn infinities_are_spelled_out() {
    assert_eq!(shown(f64::INFINITY), "inf");
    assert_eq!(shown(f64::NEG_INFINITY), "-inf");
}

#[test]
fn subnormal_numbers_round_to_zero() {
    assert_eq!(Binary64::from_bits(1).format_two_decimals(), "0.00");
    assert_eq!(shown(f64::MIN_POSITIVE), "0.00");
    assert_eq!(shown(-f64::MIN_POSITIVE / 2.0), "-0.00");
}

#[test]
fn numbers_beyond_a_machine_word_keep_every_digit() {
    assert_eq!(shown(9007199254740992.0), "9007199254740992.00");
    assert_eq!(shown(18446744073709551616.0), "18446744073709551616.00");
    assert_eq!(shown(1e22), "10000000000000000000000.00");
    assert_eq!(shown(1e23), "99999999999999991611392.00");
    assert_eq!(shown(f64::MAX), format!("{:.2}", f64::MAX));
    assert_eq!(shown(f64::MAX).len(), 312);
}

#[test]
fn the_last_fraction_bits_are_not_lost() {
    assert_eq!(shown(4503599627370495.5), "4503599627370495.50");
    assert_eq!(shown(2251799813685247.75), "2251799813685247.75");
    assert_eq!(shown(1125899906842623.875), "1125899906842623.88");
    assert_eq!(shown(1125899906842623.625), "1125899906842623.62");
}

#[test]
fn bits_round_trip() {
    assert_eq!(Binary64::from_bits(0x404d_fe56_0418_9375).to_bits(), 0x404d_fe56_0418_9375);
    assert_eq!(Binary64::from_bits(59.987f64.to_bits()), Binary64 { bits: 0x404d_fe56_0418_9375 });
}

#[test]
fn agrees_with_the_standard_formatter_on_scattered_bit_patterns() {
    let mut state: u64 = 0x9e37_79b9_7f4a_7c15;
    for _ in 0..20000 {
        let bits = next(&mut state);
        let x = f64::from_bits(bits);
        assert_eq!(shown(x), format!("{:.2}", x), "bits {:#018x}", bits);
    }
}

#[test]
fn agrees_with_the_standard_formatter_on_frame_rates() {
    let mut state: u64 = 0x2545_f491_4f6c_dd1d;
    for _ in 0..20000 {
        let r = next(&mut state);
        let x = (r % 100_000_000) as f64 / 65536.0;
        assert_eq!(shown(x), format!("{:.2}", x));
        let y = 1.0 / (1.0 + (r % 1_000_000) as f64 * 1e-6);
        assert_eq!(shown(y * 240.0), format!("{:.2}", y * 240.0));
    }
}

#[test]
fn agrees_with_the_standard_formatter_near_every_power_of_two() {
    for biased in 0..2047u64 {
        for fraction in [0u64, 1, 2, 0x8_0000_0000_0000, 0xf_ffff_ffff_ffff, 0x4_0000_0000_0000, 0x3_3333_3333_3333] {
            let bits = (biased << 52) | fraction;
            let x = f64::from_bits(bits);
            assert_eq!(shown(x), format!("{:.2}", x), "bits {:#018x}", bits);
        }
    }
}

#[test]
fn agrees_with_the_standard_formatter_on_ties() {
    for eighths in 0..4096u64 {
        let x = eighths as f64 / 8.0;
        assert_eq!(shown(x), format!("{:.2}", x));
        let y = eighths as f64 / 1024.0;
        assert_eq!(shown(y), format!("{:.2}", y));
    }
}
