use charge_sim::polarity::{polarity, Polarity};

fn by_comparison(q: f64) -> Polarity {
    if q > 0.0 {
        Polarity::Positive
    } else if q == 0.0 {
        Polarity::Neutral
    } else {
        Polarity::Negative
    }
}

#[test]
fn signs_of_plain_values() {
    assert_eq!(polarity(1.0f64.to_bits()), Polarity::Positive);
    assert_eq!(polarity((-1.0f64).to_bits()), Polarity::Negative);
    assert_eq!(polarity(0.0f64.to_bits()), Polarity::Neutral);
    assert_eq!(polarity((-0.0f64).to_bits()), Polarity::Neutral);
}

#[test]
fn signs_at_the_edges() {
    for q in [f64::MIN_POSITIVE, f64::MAX, f64::INFINITY, 5e-324, f64::EPSILON] {
        assert_eq!(polarity(q.to_bits()), Polarity::Positive, "{}", q);
        assert_eq!(polarity((-q).to_bits()), Polarity::Negative, "{}", q);
    }
    assert_eq!(polarity(f64::NAN.to_bits()), Polarity::Negative);
    assert_eq!(polarity((-f64::NAN).to_bits()), Polarity::Negative);
    assert_eq!(polarity(0x7ff0_0000_0000_0001), Polarity::Negative);
    assert_eq!(polarity(0xffff_ffff_ffff_ffff), Polarity::Negative);
}

#[test]
fn agrees_with_comparison() {
    let mut bits: u64 = 0x9e37_79b9_7f4a_7c15;
    for _ in 0..200_000u32 {
        bits ^= bits << 13;
        bits ^= bits >> 7;
        bits ^= bits << 17;
        assert_eq!(polarity(bits), by_comparison(f64::from_bits(bits)), "{:x}", bits);
    }
    for exponent in 0..0x800u64 {
        for fraction in [0u64, 1, 0x8_0000_0000_0000, 0xf_ffff_ffff_ffff] {
            for sign in [0u64, 1] {
                let bits: u64 = (sign << 63) | (exponent << 52) | fraction;
                assert_eq!(polarity(bits), by_comparison(f64::from_bits(bits)), "{:x}", bits);
            }
        }
    }
}
