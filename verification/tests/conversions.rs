use price_tick_conversions::bigint::{BigNat, bn_eq, bn_from_u64, bn_pow10};
use price_tick_conversions::dec::{BigDec, dec_eq, dec_le, dec_neg, dec_sub, dec_mul, dec_add, dec_div, dec_round_half_up, dec_from_u64};
use price_tick_conversions::tokens::{Token, FeeAmount, Fraction, Price};
use price_tick_conversions::conversions::{min_price, max_price, tick_to_price, sqrt_ratio_x96_to_price, fraction_to_big_decimal, tick_to_big_price, price_to_sqrt_ratio_x96, price_to_closest_tick, price_to_closest_tick_safe, price_to_closest_usable_tick, nearest_usable_tick};
use price_tick_conversions::ratio::{token0_ratio_to_price, token0_price_to_ratio, tick_range_from_width_and_ratio};
use price_tick_conversions::parse::parse_price;
use price_tick_conversions::ConvError;

fn bn(digits: &str) -> BigNat {
    BigNat {
        limbs: num_bigint::BigUint::parse_bytes(digits.as_bytes(), 10)
            .unwrap()
            .to_u64_digits(),
    }
}

fn dec(decimal: &str) -> BigDec {
    let neg = decimal.starts_with('-');
    let body = if neg { &decimal[1..] } else { decimal };
    let (digits, scale) = match body.split_once('.') {
        Some((w, f)) => (format!("{}{}", w, f), f.len() as u32),
        None => (body.to_string(), 0),
    };
    let mag = bn(&digits);
    let neg = neg && !mag.limbs.is_empty();
    BigDec { neg, mag, scale }
}

fn token0() -> Token {
    Token { chain_id: 1, address_hi: 0, address_lo: 0x100, decimals: 8 }
}

fn token1() -> Token {
    Token { chain_id: 1, address_hi: 0, address_lo: 0x200, decimals: 18 }
}

#[test]
fn test_token0_ratio_to_price_conversion() {
    let tick_lower = 253320;
    let tick_upper = 264600;
    let at_zero = token0_ratio_to_price(&dec("0"), tick_lower, tick_upper).unwrap();
    let upper_price = tick_to_big_price(tick_upper).unwrap();
    assert!(dec_eq(&at_zero, &upper_price));
    let at_one = token0_ratio_to_price(&dec("1"), tick_lower, tick_upper).unwrap();
    let lower_price = tick_to_big_price(tick_lower).unwrap();
    assert!(dec_eq(&at_one, &lower_price));
    let price = token0_ratio_to_price(&dec("0.3"), tick_lower, tick_upper).unwrap();
    let rounded = dec_round_half_up(&price, 30);
    assert!(dec_eq(&rounded, &dec("226996287752.678057810335753063814266625941")));
    let token0_ratio = token0_price_to_ratio(&price, tick_lower, tick_upper).unwrap();
    let rounded_ratio = dec_round_half_up(&token0_ratio, 30);
    assert!(dec_eq(&rounded_ratio, &dec("0.299999999999999999999998780740")));
}

#[test]
fn test_parse_price_exact() {
    let price = parse_price(token0(), token1(), "10.23").unwrap();
    let expected_num = bn("1023000000000000000000");
    let expected_den = bn("10000000000");
    assert!(bn_eq(&price.fraction.numerator, &expected_num));
    assert!(bn_eq(&price.fraction.denominator, &expected_den));
}

#[test]
fn test_parse_price_no_fraction() {
    let price = parse_price(token0(), token1(), "5").unwrap();
    assert!(bn_eq(&price.fraction.numerator, &bn("5000000000000000000")));
    assert!(bn_eq(&price.fraction.denominator, &bn("100000000")));
}

#[test]
fn test_parse_price_invalid_format() {
    assert_eq!(parse_price(token0(), token1(), "").unwrap_err(), ConvError::InvalidFormat);
    assert_eq!(parse_price(token0(), token1(), "1.").unwrap_err(), ConvError::InvalidFormat);
    assert_eq!(parse_price(token0(), token1(), ".").unwrap_err(), ConvError::InvalidFormat);
    assert_eq!(parse_price(token0(), token1(), "1.2.3").unwrap_err(), ConvError::InvalidFormat);
    assert_eq!(parse_price(token0(), token1(), "-1.2").unwrap_err(), ConvError::InvalidFormat);
    assert_eq!(parse_price(token0(), token1(), "1e5").unwrap_err(), ConvError::InvalidFormat);
    assert!(parse_price(token0(), token1(), ".5").is_ok());
}

#[test]
fn test_price_to_sqrt_ratio_x96_negative() {
    let negative = dec("-0.5");
    assert_eq!(price_to_sqrt_ratio_x96(&negative).unwrap_err(), ConvError::DomainViolation);
}

#[test]
fn test_price_to_sqrt_ratio_x96_max() {
    let price = tick_to_big_price(887272).unwrap();
    let sqrt = price_to_sqrt_ratio_x96(&price).unwrap();
    assert!(bn_eq(&sqrt, &bn("1461446703485210103287273052203988822378723970342")));
}

#[test]
fn test_price_to_sqrt_ratio_x96_min_clamp() {
    let tiny = dec("0.000000000000000000000000000000000000000000000001");
    let sqrt = price_to_sqrt_ratio_x96(&tiny).unwrap();
    assert!(bn_eq(&sqrt, &bn("4295128739")));
}

#[test]
fn test_token0_price_to_ratio_invalid_range() {
    let price = dec("100");
    assert_eq!(token0_price_to_ratio(&price, 10, 10).unwrap_err(), ConvError::InvalidRange);
    assert_eq!(token0_price_to_ratio(&price, 10, 5).unwrap_err(), ConvError::InvalidRange);
}

#[test]
fn test_token0_ratio_to_price_errors() {
    assert_eq!(
        token0_ratio_to_price(&dec("0.5"), 10, 10).unwrap_err(),
        ConvError::InvalidRange
    );
    assert_eq!(
        token0_ratio_to_price(&dec("1.5"), 0, 10).unwrap_err(),
        ConvError::DomainViolation
    );
    assert_eq!(
        token0_ratio_to_price(&dec("-0.5"), 0, 10).unwrap_err(),
        ConvError::DomainViolation
    );
}

#[test]
fn test_tick_roundtrip_sorted() {
    for t in [-887272, -100000, -1, 0, 1, 12345, 887271, 887272] {
        let price = tick_to_price(token0(), token1(), t).unwrap();
        assert_eq!(price_to_closest_tick_safe(&price).unwrap(), t, "tick {}", t);
    }
}

#[test]
fn test_tick_roundtrip_inverted() {
    for t in [-887272, -100000, 0, 12345, 887272] {
        let price = tick_to_price(token1(), token0(), t).unwrap();
        assert_eq!(price_to_closest_tick_safe(&price).unwrap(), t, "tick {}", t);
    }
}

#[test]
fn test_clamp_outside_bounds() {
    // A price far below MIN_PRICE clamps to MIN_TICK, mirrored when the base
    // token sorts second.
    let below = Fraction { numerator: bn_from_u64(1), denominator: bn_pow10(60) };
    let price = Price { base: token0(), quote: token1(), fraction: below };
    assert_eq!(price_to_closest_tick_safe(&price).unwrap(), -887272);
    let below2 = Fraction { numerator: bn_from_u64(1), denominator: bn_pow10(60) };
    let mirrored = Price { base: token1(), quote: token0(), fraction: below2 };
    assert_eq!(price_to_closest_tick_safe(&mirrored).unwrap(), 887272);
    // A price far above MAX_PRICE clamps to MAX_TICK, mirrored likewise.
    let above = Fraction { numerator: bn_pow10(60), denominator: bn_from_u64(1) };
    let price2 = Price { base: token0(), quote: token1(), fraction: above };
    assert_eq!(price_to_closest_tick_safe(&price2).unwrap(), 887272);
    let above2 = Fraction { numerator: bn_pow10(60), denominator: bn_from_u64(1) };
    let mirrored2 = Price { base: token1(), quote: token0(), fraction: above2 };
    assert_eq!(price_to_closest_tick_safe(&mirrored2).unwrap(), -887272);
}

#[test]
fn test_range_width_exact() {
    let (lo, hi) = tick_range_from_width_and_ratio(1000, 200000, &dec("0.3")).unwrap();
    assert_eq!(hi - lo, 1000);
    let (lo0, hi0) = tick_range_from_width_and_ratio(500, 1000, &dec("0")).unwrap();
    assert_eq!((lo0, hi0), (500, 1000));
    let (lo1, hi1) = tick_range_from_width_and_ratio(500, 1000, &dec("1")).unwrap();
    assert_eq!((lo1, hi1), (1000, 1500));
    let (lo2, hi2) = tick_range_from_width_and_ratio(777, -5000, &dec("0.5")).unwrap();
    assert_eq!(hi2 - lo2, 777);
}

#[test]
fn test_range_ratio_recovered() {
    // The range found for a ratio reproduces that ratio at the current price.
    let (lo, hi) = tick_range_from_width_and_ratio(1000, 200000, &dec("0.3")).unwrap();
    let price = tick_to_big_price(200000).unwrap();
    let back = token0_price_to_ratio(&price, lo, hi).unwrap();
    let diff = dec_sub(&back, &dec("0.3"));
    let tol = dec("0.001");
    let neg_tol = dec_neg(&tol);
    assert!(dec_le(&neg_tol, &diff) && dec_le(&diff, &tol));
}

#[test]
fn test_ratio_price_roundtrip_tolerance() {
    // Inverting the solver recovers the ratio within 1e-18.
    let r = dec("0.42");
    let price = token0_ratio_to_price(&r, -1000, 5000).unwrap();
    let back = token0_price_to_ratio(&price, -1000, 5000).unwrap();
    let diff = dec_sub(&back, &r);
    let tol = dec("0.000000000000000001");
    let neg_tol = dec_neg(&tol);
    assert!(dec_le(&neg_tol, &diff) && dec_le(&diff, &tol));
}

#[test]
fn test_sqrt_ratio_x96_to_price_min() {
    let min_sqrt = bn("4295128739");
    let price = sqrt_ratio_x96_to_price(&min_sqrt, token0(), token1()).unwrap();
    let by_tick = tick_to_price(token0(), token1(), -887272).unwrap();
    assert!(bn_eq(&price.fraction.numerator, &by_tick.fraction.numerator));
    assert!(bn_eq(&price.fraction.denominator, &by_tick.fraction.denominator));
}

#[test]
fn test_nearest_usable_tick_values() {
    assert_eq!(nearest_usable_tick(0, 60), 0);
    assert_eq!(nearest_usable_tick(31, 60), 60);
    assert_eq!(nearest_usable_tick(30, 60), 60);
    assert_eq!(nearest_usable_tick(29, 60), 0);
    assert_eq!(nearest_usable_tick(-30, 60), 0);
    assert_eq!(nearest_usable_tick(-31, 60), -60);
    assert_eq!(nearest_usable_tick(-887272, 60), -887220);
    assert_eq!(nearest_usable_tick(887272, 60), 887220);
    assert_eq!(nearest_usable_tick(7, 1), 7);
}

#[test]
fn test_price_to_closest_usable_tick() {
    let below = Fraction { numerator: bn_from_u64(1), denominator: bn_pow10(60) };
    let price = Price { base: token0(), quote: token1(), fraction: below };
    assert_eq!(price_to_closest_usable_tick(&price, FeeAmount::Medium).unwrap(), -887220);
    assert_eq!(FeeAmount::Lowest.tick_spacing(), 1);
    assert_eq!(FeeAmount::Low.tick_spacing(), 10);
    assert_eq!(FeeAmount::Medium.tick_spacing(), 60);
    assert_eq!(FeeAmount::High.tick_spacing(), 200);
}

#[test]
fn test_incomparable_tokens() {
    let other_chain = Token { chain_id: 2, address_hi: 0, address_lo: 0x300, decimals: 6 };
    assert_eq!(
        tick_to_price(token0(), other_chain, 0).unwrap_err(),
        ConvError::IncomparableTokens
    );
    assert_eq!(
        tick_to_price(token0(), token0(), 0).unwrap_err(),
        ConvError::IncomparableTokens
    );
    let price = tick_to_price(token0(), token1(), 0).unwrap();
    assert!(price_to_closest_tick(&price).is_ok());
}

#[test]
fn test_tick_to_big_price_out_of_range() {
    assert_eq!(tick_to_big_price(887273).unwrap_err(), ConvError::OracleFailure);
    assert_eq!(tick_to_big_price(-887273).unwrap_err(), ConvError::OracleFailure);
}

#[test]
fn test_tick_to_big_price_value() {
    // 1.0001^0 == 1, truncated at 96 fractional digits.
    let one_price = tick_to_big_price(0).unwrap();
    assert!(dec_eq(&one_price, &dec("1")));
}

#[test]
fn test_fraction_to_big_decimal_exact() {
    let f = Fraction { numerator: bn_from_u64(1), denominator: bn_from_u64(8) };
    let d = fraction_to_big_decimal(&f);
    assert!(dec_eq(&d, &dec("0.125")));
}

#[test]
fn test_dec_arithmetic_exact() {
    let half = dec("0.5");
    let quarter = dec("0.25");
    assert!(dec_eq(&dec_mul(&half, &quarter), &dec("0.125")));
    assert!(dec_eq(&dec_add(&half, &quarter), &dec("0.75")));
    assert!(dec_eq(&dec_sub(&quarter, &half), &dec("-0.25")));
    assert!(dec_eq(&dec_div(&dec_from_u64(1), &dec_from_u64(8), 6), &dec("0.125")));
}

#[test]
fn test_dec_round_half_up_ties() {
    assert!(dec_eq(&dec_round_half_up(&dec("0.25"), 1), &dec("0.3")));
    assert!(dec_eq(&dec_round_half_up(&dec("0.24"), 1), &dec("0.2")));
    assert!(dec_eq(&dec_round_half_up(&dec("0.15"), 1), &dec("0.2")));
    assert!(dec_eq(&dec_round_half_up(&dec("2.5"), 0), &dec("3")));
    assert!(dec_eq(&dec_round_half_up(&dec("0.5"), 3), &dec("0.500")));
}

#[test]
fn test_boundary_price_ticks() {
    let mp = min_price();
    let price = Price { base: token0(), quote: token1(), fraction: mp };
    assert_eq!(price_to_closest_tick_safe(&price).unwrap(), -887272);
    assert_eq!(
        price_to_closest_usable_tick(&price, FeeAmount::Medium).unwrap(),
        nearest_usable_tick(-887272, 60)
    );
    // The same price seen from the other orientation still lands on MIN_TICK.
    let mp2 = min_price();
    let inverted = Price {
        base: token1(),
        quote: token0(),
        fraction: Fraction { numerator: mp2.denominator, denominator: mp2.numerator },
    };
    assert_eq!(price_to_closest_tick_safe(&inverted).unwrap(), -887272);
    let xp = max_price();
    let inverted_max = Price {
        base: token1(),
        quote: token0(),
        fraction: Fraction { numerator: xp.denominator, denominator: xp.numerator },
    };
    assert_eq!(price_to_closest_tick_safe(&inverted_max).unwrap(), 887272);
}
