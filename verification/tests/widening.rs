use rhai_sci::float::{float_bits_from_int, HIDDEN_BIT, SIGN_BIT};

fn hardware(i: i64) -> u64 {
    (i as f64).to_bits()
}

#[test]
fn zero_is_positive_zero() {
    assert_eq!(float_bits_from_int(0), 0);
    assert_eq!(float_bits_from_int(0), 0.0f64.to_bits());
}

#[test]
fn small_integers_have_their_exact_doubles() {
    assert_eq!(float_bits_from_int(1), 0x3FF0_0000_0000_0000);
    assert_eq!(float_bits_from_int(2), 0x4000_0000_0000_0000);
    assert_eq!(float_bits_from_int(3), 0x4008_0000_0000_0000);
    assert_eq!(float_bits_from_int(-1), 0xBFF0_0000_0000_0000);
    assert_eq!(f64::from_bits(float_bits_from_int(-2)), -2.0);
    assert_eq!(f64::from_bits(float_bits_from_int(10)), 10.0);
    for i in -1000..=1000 {
        assert_eq!(float_bits_from_int(i), hardware(i), "{}", i);
    }
}

#[test]
fn constants_are_the_sign_and_the_hidden_bit() {
    assert_eq!(SIGN_BIT, 1u64 << 63);
    assert_eq!(HIDDEN_BIT, 1u64 << 52);
    assert_eq!(float_bits_from_int(-1) & SIGN_BIT, SIGN_BIT);
    assert_eq!(float_bits_from_int(1) & SIGN_BIT, 0);
}

#[test]
fn ties_round_to_the_even_neighbour() {
    let two_53: i64 = 1 << 53;
    // 2^53 + 1 lies half way between 2^53 and 2^53 + 2: the even one wins.
    assert_eq!(f64::from_bits(float_bits_from_int(two_53 + 1)), 9007199254740992.0);
    // 2^53 + 3 lies half way between 2^53 + 2 and 2^53 + 4.
    assert_eq!(f64::from_bits(float_bits_from_int(two_53 + 3)), 9007199254740996.0);
    assert_eq!(float_bits_from_int(two_53 + 2), hardware(two_53 + 2));
    for d in -8..=8 {
        assert_eq!(float_bits_from_int(two_53 + d), hardware(two_53 + d), "{}", d);
        assert_eq!(float_bits_from_int(-two_53 + d), hardware(-two_53 + d), "{}", d);
    }
}

#[test]
fn extremes_agree_with_the_hardware() {
    assert_eq!(float_bits_from_int(i64::MAX), hardware(i64::MAX));
    assert_eq!(float_bits_from_int(i64::MIN), hardware(i64::MIN));
    assert_eq!(float_bits_from_int(i64::MIN + 1), hardware(i64::MIN + 1));
    assert_eq!(float_bits_from_int(i64::MAX - 1), hardware(i64::MAX - 1));
    // i64::MAX rounds up to 2^63: the significand carries into the exponent.
    assert_eq!(f64::from_bits(float_bits_from_int(i64::MAX)), 9223372036854775808.0);
    assert_eq!(f64::from_bits(float_bits_from_int(i64::MIN)), -9223372036854775808.0);
}

#[test]
fn neighbours_of_every_power_of_two_agree_with_the_hardware() {
    for e in 0..63 {
        let p: i64 = 1 << e;
        for d in -5..=5i64 {
            let i = p.wrapping_add(d);
            assert_eq!(float_bits_from_int(i), hardware(i), "{}", i);
            let n = i.wrapping_neg();
            assert_eq!(float_bits_from_int(n), hardware(n), "{}", n);
        }
    }
}

#[test]
fn a_spread_of_integers_agrees_with_the_hardware() {
    let mut state: u64 = 0x9E37_79B9_7F4A_7C15;
    for _ in 0..200_000 {
        state = state
            .wrapping_mul(6364136223846793005)
            .wrapping_add(1442695040888963407);
        let shift = (state >> 58) as u32;
        let i = (state as i64) >> shift;
        assert_eq!(float_bits_from_int(i), hardware(i), "{}", i);
    }
}
