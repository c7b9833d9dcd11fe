use vstd::prelude::*;
use crate::bigint::{big_mul, big_div, bn_pow10, bn_q96, big_lt, lemma_limbs_len_le_3};
use crate::dec::{BigDec, DecV, p10, dv, dv_int, dv_mul, dv_add, dv_sub, dv_div, dv_sqrt, dec_from_bignat, dec_from_u64, dec_zero, dec_mul, dec_add, dec_sub, dec_div, dec_sqrt, dec_neg, dec_is_zero, dec_is_neg, dec_le, dec_eq};
use crate::oracle::{MIN_TICK, MAX_TICK, min_sqrt_ratio, max_sqrt_ratio, sqrt_ratio_at_tick, oracle_sqrt_ratio_at_tick, oracle_tick_at_sqrt_ratio, oracle_amount0_delta, oracle_amount1_delta, bn_max_sqrt_ratio};
use crate::conversions::{DEC_SCALE, tick_price_mant, tick_to_big_price, price_to_sqrt_ratio_x96, sqrt_ratio_from_dec};
use crate::ConvError;

verus! {

/// 2^96, the Q64.96 unit.
pub open spec fn q96n() -> nat {
    0x1_0000_0000_0000_0000_0000_0000nat
}

/// The nominal liquidity (2^97) under which value ratios are computed; the
/// ratio itself is liquidity-independent.
pub const NOMINAL_LIQUIDITY: u128 = 0x2_0000_0000_0000_0000_0000_0000;

/// Whether a decimal mantissa/scale pair lies in [0, 1].
pub open spec fn in_unit_interval(d: &BigDec) -> bool {
    0 <= d.ival() <= p10(d.scale as nat)
}

/// The unitless decimal sqrt price of a tick: the oracle sqrt ratio divided
/// by 2^96, truncated at 96 fractional digits.
pub open spec fn sqrt_price_dec(t: int) -> DecV {
    DecV { i: sqrt_ratio_at_tick(t) * p10(96) / (q96n() as int), s: 96 }
}

/// The discriminant of the ratio-to-price quadratic, at the executable
/// truncation points.
pub open spec fn ratio_price_disc(r: DecV, lo: int, hi: int) -> DecV {
    let l = sqrt_price_dec(lo);
    let u = sqrt_price_dec(hi);
    let a = dv_sub(r, dv_int(1));
    let b = dv_mul(u, dv_sub(dv_int(1), dv_mul(dv_int(2), r)));
    let c = dv_mul(dv_mul(r, l), u);
    dv_sub(dv_mul(b, b), dv_mul(dv_mul(dv_int(4), a), c))
}

/// The price that the ratio-to-price quadratic yields for an interior ratio:
/// the square of the positive root `(b + sqrt(b^2 - 4ac)) / (-2a)`.
pub open spec fn ratio_price_chain(r: DecV, lo: int, hi: int) -> DecV {
    let u = sqrt_price_dec(hi);
    let a = dv_sub(r, dv_int(1));
    let b = dv_mul(u, dv_sub(dv_int(1), dv_mul(dv_int(2), r)));
    let disc = ratio_price_disc(r, lo, hi);
    let sq = dv_sqrt(disc, 96);
    let numer = dv_add(b, sq);
    let denom = dv_mul(dv_int(-2), a);
    let root = dv_div(numer, denom, 96);
    dv_mul(root, root)
}

/// 10^e is at least 2^e.
proof fn lemma_p10_ge_pow2(e: nat)
    ensures
        p10(e) >= vstd::arithmetic::power2::pow2(e),
    decreases e,
{
    vstd::arithmetic::power2::lemma_pow2(e);
    if e == 0 {
        vstd::arithmetic::power::lemma_pow0(10);
        vstd::arithmetic::power::lemma_pow0(2);
    } else {
        let e1 = (e - 1) as nat;
        lemma_p10_ge_pow2(e1);
        vstd::arithmetic::power2::lemma_pow2(e1);
        vstd::arithmetic::power::lemma_pow_positive(2, e1);
        reveal(vstd::arithmetic::power::pow);
        assert(p10(e) >= vstd::arithmetic::power::pow(2, e)) by (nonlinear_arith)
            requires
                p10(e) == 10 * p10(e1),
                vstd::arithmetic::power::pow(2, e) == 2 * vstd::arithmetic::power::pow(2, e1),
                p10(e1) >= vstd::arithmetic::power::pow(2, e1),
                vstd::arithmetic::power::pow(2, e1) > 0,
        ;
    }
}

/// For an interior ratio the discriminant of the value quadratic is strictly
/// positive: `a < 0 < c` makes `-4ac` positive, so the negative-discriminant
/// failure of the solver cannot occur. The hypotheses on the oracle ratios
/// are part of the oracle's contract at any tick.
pub proof fn lemma_ratio_price_disc_pos(r: DecV, lo: int, hi: int)
    requires
        0 < r.i < p10(r.s),
        sqrt_ratio_at_tick(lo) >= 1,
        sqrt_ratio_at_tick(hi) >= 1,
    ensures
        ratio_price_disc(r, lo, hi).i > 0,
{
    let l = sqrt_price_dec(lo);
    let u = sqrt_price_dec(hi);
    lemma_p10_ge_pow2(96);
    vstd::arithmetic::power2::lemma_pow2_adds(64, 32);
    vstd::arithmetic::power2::lemma2_to64();
    assert(p10(96) >= 0x1_0000_0000_0000_0000_0000_0000);
    assert(sqrt_ratio_at_tick(lo) * p10(96) >= 1 * p10(96)) by (nonlinear_arith)
        requires
            sqrt_ratio_at_tick(lo) >= 1,
            p10(96) > 0,
    ;
    vstd::arithmetic::div_mod::lemma_div_is_ordered(
        q96n() as int,
        sqrt_ratio_at_tick(lo) * p10(96),
        q96n() as int,
    );
    vstd::arithmetic::div_mod::lemma_div_basics_3(q96n() as int);
    assert(l.i >= 1);
    assert(sqrt_ratio_at_tick(hi) * p10(96) >= 1 * p10(96)) by (nonlinear_arith)
        requires
            sqrt_ratio_at_tick(hi) >= 1,
            p10(96) > 0,
    ;
    vstd::arithmetic::div_mod::lemma_div_is_ordered(
        q96n() as int,
        sqrt_ratio_at_tick(hi) * p10(96),
        q96n() as int,
    );
    assert(u.i >= 1);
    let a = dv_sub(r, dv_int(1));
    crate::dec::lemma_p10_pos(r.s);
    vstd::arithmetic::power::lemma_pow0(10);
    assert(a.i == r.i - p10(r.s) && a.i < 0);
    let c = dv_mul(dv_mul(r, l), u);
    assert(c.i > 0) by (nonlinear_arith)
        requires
            c.i == (r.i * l.i) * u.i,
            r.i > 0,
            l.i >= 1,
            u.i >= 1,
    ;
    let b = dv_mul(u, dv_sub(dv_int(1), dv_mul(dv_int(2), r)));
    let b2 = dv_mul(b, b);
    let t4 = dv_mul(dv_mul(dv_int(4), a), c);
    assert(b2.i >= 0) by (nonlinear_arith)
        requires
            b2.i == b.i * b.i,
    ;
    assert(t4.i < 0) by (nonlinear_arith)
        requires
            t4.i == (4 * a.i) * c.i,
            a.i < 0,
            c.i > 0,
    ;
    let disc = dv_sub(b2, t4);
    let s = if b2.s >= t4.s {
        b2.s
    } else {
        t4.s
    };
    crate::dec::lemma_p10_pos((s - b2.s) as nat);
    crate::dec::lemma_p10_pos((s - t4.s) as nat);
    assert(disc.i == b2.i * p10((s - b2.s) as nat) - t4.i * p10((s - t4.s) as nat));
    assert(disc.i > 0) by (nonlinear_arith)
        requires
            disc.i == b2.i * p10((s - b2.s) as nat) - t4.i * p10((s - t4.s) as nat),
            b2.i >= 0,
            t4.i < 0,
            p10((s - b2.s) as nat) > 0,
            p10((s - t4.s) as nat) > 0,
    ;
}

/// For a tick range and the proportion of position value held in token0, the
/// price of token0 in token1: the upper boundary price at ratio 0, the lower
/// at ratio 1, and the positive root of the value quadratic between. The
/// asymmetric boundary convention (ratio 0 maps to the upper tick, ratio 1 to
/// the lower) is deliberate: the round-trip behaviour depends on it.
pub fn token0_ratio_to_price(token0_ratio: &BigDec, tick_lower: i32, tick_upper: i32) -> (r:
    Result<BigDec, ConvError>)
    requires
        token0_ratio.wf(),
        token0_ratio.scale <= 1000000,
    ensures
        tick_upper <= tick_lower <==> r == Err::<BigDec, ConvError>(ConvError::InvalidRange),
        tick_upper > tick_lower && !in_unit_interval(token0_ratio) ==> r == Err::<
            BigDec,
            ConvError,
        >(ConvError::DomainViolation),
        tick_upper > tick_lower && in_unit_interval(token0_ratio) && token0_ratio.ival() == 0
            ==> if MIN_TICK <= tick_upper <= MAX_TICK {
            r matches Ok(d) && d.wf() && !d.neg && d.scale == DEC_SCALE && d.ival()
                == tick_price_mant(tick_upper as int)
        } else {
            r == Err::<BigDec, ConvError>(ConvError::OracleFailure)
        },
        tick_upper > tick_lower && in_unit_interval(token0_ratio) && token0_ratio.ival() == p10(
            token0_ratio.scale as nat,
        ) ==> if MIN_TICK <= tick_lower <= MAX_TICK {
            r matches Ok(d) && d.wf() && !d.neg && d.scale == DEC_SCALE && d.ival()
                == tick_price_mant(tick_lower as int)
        } else {
            r == Err::<BigDec, ConvError>(ConvError::OracleFailure)
        },
        tick_upper > tick_lower && in_unit_interval(token0_ratio) && 0 < token0_ratio.ival() < p10(
            token0_ratio.scale as nat,
        ) ==> if !(MIN_TICK <= tick_lower && tick_upper <= MAX_TICK) {
            r == Err::<BigDec, ConvError>(ConvError::OracleFailure)
        } else {
            r matches Ok(d) && d.wf() && dv(&d) == ratio_price_chain(
                dv(token0_ratio),
                tick_lower as int,
                tick_upper as int,
            )
        },
{
    if tick_upper <= tick_lower {
        return Err(ConvError::InvalidRange);
    }
    let one = dec_from_u64(1);
    proof {
        vstd::arithmetic::power::lemma_pow0(10);
        crate::dec::lemma_p10_pos(token0_ratio.scale as nat);
    }
    if dec_is_neg(token0_ratio) || !dec_le(token0_ratio, &one) {
        return Err(ConvError::DomainViolation);
    }
    if dec_is_zero(token0_ratio) {
        return tick_to_big_price(tick_upper);
    }
    if dec_eq(token0_ratio, &one) {
        return tick_to_big_price(tick_lower);
    }
    if !(MIN_TICK <= tick_lower && tick_upper <= MAX_TICK) {
        return Err(ConvError::OracleFailure);
    }
    let s_lo = oracle_sqrt_ratio_at_tick(tick_lower);
    let s_hi = oracle_sqrt_ratio_at_tick(tick_upper);
    let q96 = bn_q96();
    let q96_dec = dec_from_bignat(q96, 0);
    let l = dec_div(&dec_from_bignat(s_lo, 0), &q96_dec, 96);
    let u = dec_div(&dec_from_bignat(s_hi, 0), &q96_dec, 96);
    proof {
        crate::dec::lemma_p10_adds(96, 0);
        assert(dv(&l) == sqrt_price_dec(tick_lower as int));
        assert(dv(&u) == sqrt_price_dec(tick_upper as int));
    }
    let two = dec_from_u64(2);
    let four = dec_from_u64(4);
    let a = dec_sub(token0_ratio, &one);
    let b = dec_mul(&u, &dec_sub(&one, &dec_mul(&two, token0_ratio)));
    let c = dec_mul(&dec_mul(token0_ratio, &l), &u);
    let disc = dec_sub(&dec_mul(&b, &b), &dec_mul(&dec_mul(&four, &a), &c));
    proof {
        assert(dv(&disc) == ratio_price_disc(
            dv(token0_ratio),
            tick_lower as int,
            tick_upper as int,
        ));
    }
    proof {
        lemma_ratio_price_disc_pos(dv(token0_ratio), tick_lower as int, tick_upper as int);
    }
    let sq = dec_sqrt(&disc, 96);
    let numer = dec_add(&b, &sq);
    let neg_two = dec_neg(&two);
    let denom = dec_mul(&neg_two, &a);
    proof {
        assert(a.ival() == token0_ratio.ival() - p10(token0_ratio.scale as nat));
        assert(a.ival() < 0);
        assert(denom.ival() == -2 * a.ival()) by (nonlinear_arith)
            requires
                denom.ival() == neg_two.ival() * a.ival(),
                neg_two.ival() == -2,
        ;
        assert(denom.ival() > 0) by (nonlinear_arith)
            requires
                denom.ival() == -2 * a.ival(),
                a.ival() < 0,
        ;
        assert(denom.mag.val() > 0);
    }
    let root = dec_div(&numer, &denom, 96);
    let price = dec_mul(&root, &root);
    proof {
        assert(dv(&price) == ratio_price_chain(
            dv(token0_ratio),
            tick_lower as int,
            tick_upper as int,
        ));
    }
    Ok(price)
}

/// Whether `t` is the oracle's bracket tick for the sqrt ratio `x`: the
/// greatest tick whose ratio does not exceed `x`.
pub open spec fn bracket_tick(t: int, x: nat) -> bool {
    &&& MIN_TICK <= t < MAX_TICK
    &&& sqrt_ratio_at_tick(t) <= x
    &&& x < sqrt_ratio_at_tick(t + 1)
}

/// The token0 amount between the sqrt ratios `x` and `shi` at the nominal
/// liquidity, rounded down as the oracle rounds.
pub open spec fn amount0_spec(x: nat, shi: nat) -> int {
    (NOMINAL_LIQUIDITY * q96n()) * (shi - x) / (shi as int) / (x as int)
}

/// The token1 amount between the sqrt ratios `slo` and `x` at the nominal
/// liquidity, rounded down.
pub open spec fn amount1_spec(x: nat, slo: nat) -> int {
    NOMINAL_LIQUIDITY * (x - slo) / (q96n() as int)
}

/// What the price-to-ratio conversion yields once the bracket tick `t` of the
/// price's sqrt ratio is known: all token0 below the range, all token1 above,
/// and the value share `value0 / (value0 + amount1)` within.
pub open spec fn price_ratio_case(
    pm: nat,
    ps: nat,
    lo: int,
    hi: int,
    t: int,
    r: Result<BigDec, ConvError>,
) -> bool {
    if t < lo {
        r matches Ok(d) && d.wf() && d.ival() == 1 && d.scale == 0
    } else if t >= hi {
        r matches Ok(d) && d.wf() && d.ival() == 0 && d.scale == 0
    } else if !(MIN_TICK <= lo && hi <= MAX_TICK) {
        r == Err::<BigDec, ConvError>(ConvError::OracleFailure)
    } else {
        let x = sqrt_ratio_from_dec(pm, ps);
        let a0 = amount0_spec(x, sqrt_ratio_at_tick(hi));
        let a1 = amount1_spec(x, sqrt_ratio_at_tick(lo));
        let v0 = dv_mul(dv_int(a0), DecV { i: pm as int, s: ps });
        let sum = dv_add(v0, dv_int(a1));
        if sum.i == 0 {
            r == Err::<BigDec, ConvError>(ConvError::DomainViolation)
        } else {
            r matches Ok(d) && d.wf() && dv(&d) == dv_div(v0, sum, 192)
        }
    }
}

/// For a price of token1/token0 and a tick range, the proportion of the
/// position value held in token0: the inverse direction of the solver, taken
/// through the oracle's tick lookup and amount deltas.
pub fn token0_price_to_ratio(price: &BigDec, tick_lower: i32, tick_upper: i32) -> (r: Result<
    BigDec,
    ConvError,
>)
    requires
        price.wf(),
        price.scale <= 1000000,
    ensures
        tick_upper <= tick_lower <==> r == Err::<BigDec, ConvError>(ConvError::InvalidRange),
        tick_upper > tick_lower && price.ival() < 0 ==> r == Err::<BigDec, ConvError>(
            ConvError::DomainViolation,
        ),
        tick_upper > tick_lower && price.ival() >= 0 && sqrt_ratio_from_dec(
            price.mag.val(),
            price.scale as nat,
        ) == max_sqrt_ratio() ==> r == Err::<BigDec, ConvError>(ConvError::OracleFailure),
        tick_upper > tick_lower && price.ival() >= 0 && sqrt_ratio_from_dec(
            price.mag.val(),
            price.scale as nat,
        ) < max_sqrt_ratio() ==> exists|t: int|
            #[trigger] bracket_tick(t, sqrt_ratio_from_dec(price.mag.val(), price.scale as nat))
                && price_ratio_case(
                price.mag.val(),
                price.scale as nat,
                tick_lower as int,
                tick_upper as int,
                t,
                r,
            ),
{
    if tick_upper <= tick_lower {
        return Err(ConvError::InvalidRange);
    }
    let sqrt_x96 = match price_to_sqrt_ratio_x96(price) {
        Ok(x) => x,
        Err(e) => { return Err(e) },
    };
    let max_bn = bn_max_sqrt_ratio();
    if !big_lt(&sqrt_x96, &max_bn) {
        return Err(ConvError::OracleFailure);
    }
    let tick = oracle_tick_at_sqrt_ratio(&sqrt_x96);
    let ghost x = sqrt_x96.val();
    if tick < tick_lower {
        let d = dec_from_u64(1);
        proof {
            assert(bracket_tick(tick as int, x));
        }
        return Ok(d);
    }
    if tick >= tick_upper {
        let d = dec_zero();
        proof {
            assert(bracket_tick(tick as int, x));
        }
        return Ok(d);
    }
    if !(MIN_TICK <= tick_lower && tick_upper <= MAX_TICK) {
        proof {
            assert(bracket_tick(tick as int, x));
        }
        return Err(ConvError::OracleFailure);
    }
    let s_hi = oracle_sqrt_ratio_at_tick(tick_upper);
    let s_lo = oracle_sqrt_ratio_at_tick(tick_lower);
    proof {
        assert(x < sqrt_ratio_at_tick(tick as int + 1));
        if tick + 1 < tick_upper {
            assert(sqrt_ratio_at_tick(tick as int + 1) < s_hi.val());
        }
        assert(x < s_hi.val());
        if tick_lower < tick {
            assert(s_lo.val() < sqrt_ratio_at_tick(tick as int));
        }
        assert(s_lo.val() <= x);
        assert(max_sqrt_ratio() < 0x1_0000_0000_0000_0000_0000_0000_0000_0000_0000_0000nat);
    }
    let a0 = oracle_amount0_delta(&sqrt_x96, &s_hi, NOMINAL_LIQUIDITY);
    let a1 = oracle_amount1_delta(&s_lo, &sqrt_x96, NOMINAL_LIQUIDITY);
    let v0 = dec_mul(&dec_from_bignat(a0, 0), price);
    let a1d = dec_from_bignat(a1, 0);
    let sum = dec_add(&v0, &a1d);
    proof {
        vstd::arithmetic::power::lemma_pow0(10);
    }
    if dec_is_zero(&sum) {
        proof {
            assert(bracket_tick(tick as int, x));
        }
        return Err(ConvError::DomainViolation);
    }
    let ratio = dec_div(&v0, &sum, DEC_SCALE);
    proof {
        assert(bracket_tick(tick as int, x));
    }
    Ok(ratio)
}

/// The decimal price of a tick, as the decimal bridge produces it.
pub open spec fn range_price(t: int) -> DecV {
    DecV { i: tick_price_mant(t), s: 192 }
}

/// The `b` coefficient of the range-search quadratic.
pub open spec fn range_b(r: DecV, cur: int) -> DecV {
    dv_mul(dv_sub(dv_int(1), dv_mul(r, dv_int(2))), dv_sqrt(range_price(cur), 96))
}

/// The `c` coefficient of the range-search quadratic, the width price taken
/// as a multiplicative span.
pub open spec fn range_c(r: DecV, cur: int, w: int) -> DecV {
    dv_div(dv_mul(range_price(cur), dv_sub(r, dv_int(1))), dv_sqrt(range_price(w), 96), 192)
}

/// The discriminant of the range-search quadratic.
pub open spec fn range_disc(r: DecV, cur: int, w: int) -> DecV {
    let b = range_b(r, cur);
    dv_sub(dv_mul(b, b), dv_mul(dv_mul(r, range_c(r, cur, w)), dv_int(4)))
}

/// The root `(sqrt(b^2 - 4ac) - b) / (2a)` of the range-search quadratic: the
/// decimal sqrt price of the lower tick.
pub open spec fn range_root(r: DecV, cur: int, w: int) -> DecV {
    dv_div(dv_sub(dv_sqrt(range_disc(r, cur, w), 96), range_b(r, cur)), dv_mul(r, dv_int(2)), 96)
}

/// The root encoded as a Q64.96 integer sqrt ratio, truncated.
pub open spec fn range_sqrt_lower(r: DecV, cur: int, w: int) -> int {
    range_root(r, cur, w).i * (q96n() as int) / p10(96)
}

/// What the range search yields for an interior ratio, once the boundary
/// conventions are out of the way.
pub open spec fn range_case(r: DecV, cur: int, w: int, res: Result<(i32, i32), ConvError>) -> bool {
    if w > MAX_TICK {
        res == Err::<(i32, i32), ConvError>(ConvError::OracleFailure)
    } else if dv_sqrt(range_price(w), 96).i == 0 {
        res == Err::<(i32, i32), ConvError>(ConvError::DomainViolation)
    } else if range_disc(r, cur, w).i < 0 {
        res == Err::<(i32, i32), ConvError>(ConvError::DomainViolation)
    } else if range_root(r, cur, w).i < 0 {
        res == Err::<(i32, i32), ConvError>(ConvError::DomainViolation)
    } else if !(min_sqrt_ratio() <= range_sqrt_lower(r, cur, w) < max_sqrt_ratio()) {
        res == Err::<(i32, i32), ConvError>(ConvError::OracleFailure)
    } else {
        exists|t: int|
            #[trigger] bracket_tick(t, range_sqrt_lower(r, cur, w) as nat) && res == Ok::<
                (i32, i32),
                ConvError,
            >((t as i32, (t + w) as i32))
    }
}

/// The tick range for a position of the given width whose value is split at
/// the given token0 ratio around the current tick: the boundary conventions
/// at ratio 0 and 1, and the second quadratic between.
pub fn tick_range_from_width_and_ratio(width: i32, tick_current: i32, token0_ratio: &BigDec) -> (r:
    Result<(i32, i32), ConvError>)
    requires
        token0_ratio.wf(),
        token0_ratio.scale <= 1000000,
        MIN_TICK <= tick_current <= MAX_TICK,
        1 <= width <= MAX_TICK - MIN_TICK,
    ensures
        r matches Ok(p) ==> p.1 - p.0 == width,
        !in_unit_interval(token0_ratio) <==> r == Err::<(i32, i32), ConvError>(
            ConvError::DomainViolation,
        ) && !(in_unit_interval(token0_ratio) && 0 < token0_ratio.ival() < p10(
            token0_ratio.scale as nat,
        )),
        in_unit_interval(token0_ratio) && token0_ratio.ival() == 0 ==> r == Ok::<
            (i32, i32),
            ConvError,
        >(((tick_current - width) as i32, tick_current)),
        in_unit_interval(token0_ratio) && token0_ratio.ival() == p10(token0_ratio.scale as nat)
            ==> r == Ok::<(i32, i32), ConvError>((tick_current, (tick_current + width) as i32)),
        in_unit_interval(token0_ratio) && 0 < token0_ratio.ival() < p10(token0_ratio.scale as nat)
            ==> range_case(dv(token0_ratio), tick_current as int, width as int, r),
{
    let one = dec_from_u64(1);
    proof {
        vstd::arithmetic::power::lemma_pow0(10);
        crate::dec::lemma_p10_pos(token0_ratio.scale as nat);
    }
    if dec_is_neg(token0_ratio) || !dec_le(token0_ratio, &one) {
        return Err(ConvError::DomainViolation);
    }
    if dec_is_zero(token0_ratio) {
        return Ok((tick_current - width, tick_current));
    }
    if dec_eq(token0_ratio, &one) {
        return Ok((tick_current, tick_current + width));
    }
    let price = match tick_to_big_price(tick_current) {
        Ok(p) => p,
        Err(e) => { return Err(e) },
    };
    let pw = match tick_to_big_price(width) {
        Ok(p) => p,
        Err(e) => { return Err(e) },
    };
    let two = dec_from_u64(2);
    let four = dec_from_u64(4);
    let spd = dec_sqrt(&price, 96);
    let b = dec_mul(&dec_sub(&one, &dec_mul(token0_ratio, &two)), &spd);
    let cnum = dec_mul(&price, &dec_sub(token0_ratio, &one));
    let sqw = dec_sqrt(&pw, 96);
    if dec_is_zero(&sqw) {
        return Err(ConvError::DomainViolation);
    }
    let c = dec_div(&cnum, &sqw, 192);
    let disc = dec_sub(&dec_mul(&b, &b), &dec_mul(&dec_mul(token0_ratio, &c), &four));
    proof {
        assert(dv(&disc) == range_disc(dv(token0_ratio), tick_current as int, width as int));
    }
    if disc.neg {
        return Err(ConvError::DomainViolation);
    }
    let sqd = dec_sqrt(&disc, 96);
    let num2 = dec_sub(&sqd, &b);
    let den2 = dec_mul(token0_ratio, &two);
    proof {
        assert(den2.ival() == 2 * token0_ratio.ival()) by (nonlinear_arith)
            requires
                den2.ival() == token0_ratio.ival() * two.ival(),
                two.ival() == 2,
        ;
        assert(den2.mag.val() > 0);
    }
    let root = dec_div(&num2, &den2, 96);
    proof {
        assert(dv(&root) == range_root(dv(token0_ratio), tick_current as int, width as int));
    }
    if root.neg {
        return Err(ConvError::DomainViolation);
    }
    let q96b = bn_q96();
    let p96 = bn_pow10(96);
    proof {
        crate::dec::lemma_p10_pos(96);
    }
    let srl = big_div(&big_mul(&root.mag, &q96b), &p96);
    proof {
        assert(srl.val() == range_sqrt_lower(dv(token0_ratio), tick_current as int, width as int));
    }
    let min_bn = crate::oracle::bn_min_sqrt_ratio();
    let max_bn = bn_max_sqrt_ratio();
    if big_lt(&srl, &min_bn) || !big_lt(&srl, &max_bn) {
        return Err(ConvError::OracleFailure);
    }
    proof {
        lemma_limbs_len_le_3(srl.limbs@);
    }
    let lower = oracle_tick_at_sqrt_ratio(&srl);
    proof {
        assert(bracket_tick(lower as int, srl.val()));
    }
    Ok((lower, lower + width))
}

} // verus!
