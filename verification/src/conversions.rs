use vstd::prelude::*;
use vstd::arithmetic::div_mod::{lemma_fundamental_div_mod, lemma_mod_bound};
use crate::bigint::{BigNat, big_mul, big_div, big_sqrt, big_lt, bn_le, bn_is_zero, bn_pow10, bn_q192, sqrt_floor, lemma_sqrt_floor_is, lemma_limbs_len_le_3};
use crate::dec::{BigDec, p10, dec_from_bignat, dec_div};
use crate::oracle::{MIN_TICK, MAX_TICK, min_sqrt_ratio, max_sqrt_ratio, sqrt_ratio_at_tick, oracle_sqrt_ratio_at_tick, oracle_tick_at_sqrt_ratio, bn_min_sqrt_ratio, bn_max_sqrt_ratio};
use crate::tokens::{Token, Price, Fraction, FeeAmount};
use crate::ConvError;

verus! {

/// The fractional scale at which decimal prices are produced: 192 digits,
/// so that a ratio with denominator 2^192 is represented exactly.
pub const DEC_SCALE: u32 = 192;

/// 2^192, the square of the Q64.96 unit.
pub open spec fn q192n() -> nat {
    0x1_0000_0000_0000_0000_0000_0000_0000_0000_0000_0000_0000_0000nat
}

/// Whether the base token of a price sorts before its quote token.
pub open spec fn base_sorted(p: &Price) -> bool {
    p.base.address() < p.quote.address()
}

/// The token1/token0 ratio numerator of a price, independent of orientation.
pub open spec fn ratio_num(p: &Price) -> nat {
    if base_sorted(p) {
        p.num()
    } else {
        p.den()
    }
}

/// The token1/token0 ratio denominator of a price.
pub open spec fn ratio_den(p: &Price) -> nat {
    if base_sorted(p) {
        p.den()
    } else {
        p.num()
    }
}

/// The Q64.96 encoding of the square root of the ratio `rn / rd`.
pub open spec fn encoded_sqrt(rn: nat, rd: nat) -> nat {
    sqrt_floor(rn * q192n() / rd)
}

/// The self-consistent rounding step of the nearest-tick lookup: move to the
/// next tick when the price is at least the next tick's price.
pub open spec fn refined_tick(t0: int, rn: nat, rd: nat) -> int {
    if rn * q192n() >= rd * (sqrt_ratio_at_tick(t0 + 1) * sqrt_ratio_at_tick(t0 + 1)) {
        t0 + 1
    } else {
        t0
    }
}

/// What the nearest-tick lookup returns for the ratio `rn / rd`: the bracket
/// tick of the encoded square root, refined by one, or an oracle failure when
/// the encoding leaves the oracle's domain.
pub open spec fn closest_tick_result(rn: nat, rd: nat, r: Result<i32, ConvError>) -> bool {
    if rd > 0 && min_sqrt_ratio() <= encoded_sqrt(rn, rd) < max_sqrt_ratio() {
        exists|t0: int|
            {
                &&& MIN_TICK <= t0 < MAX_TICK
                &&& #[trigger] sqrt_ratio_at_tick(t0) <= encoded_sqrt(rn, rd)
                &&& encoded_sqrt(rn, rd) < sqrt_ratio_at_tick(t0 + 1)
                &&& r == Ok::<i32, ConvError>(refined_tick(t0, rn, rd) as i32)
            }
    } else {
        r == Err::<i32, ConvError>(ConvError::OracleFailure)
    }
}

/// MIN_PRICE, the token1/token0 ratio of the lowest tick:
/// MIN_SQRT_RATIO^2 / 2^192.
pub fn min_price() -> (r: Fraction)
    ensures
        r.wf(),
        r.numerator.val() == min_sqrt_ratio() * min_sqrt_ratio(),
        r.denominator.val() == q192n(),
{
    let mn = bn_min_sqrt_ratio();
    Fraction { numerator: big_mul(&mn, &mn), denominator: bn_q192() }
}

/// MAX_PRICE, the greatest in-range token1/token0 ratio:
/// (MAX_SQRT_RATIO^2 - 1) / 2^192.
pub fn max_price() -> (r: Fraction)
    ensures
        r.wf(),
        r.numerator.val() == max_sqrt_ratio() * max_sqrt_ratio() - 1,
        r.denominator.val() == q192n(),
{
    let mx = bn_max_sqrt_ratio();
    let sq = big_mul(&mx, &mx);
    proof {
        assert(max_sqrt_ratio() * max_sqrt_ratio() >= 1) by (nonlinear_arith);
    }
    let one = crate::bigint::bn_from_u64(1);
    Fraction { numerator: crate::bigint::big_sub(&sq, &one), denominator: bn_q192() }
}

/// Given a tick, the price of the base token in terms of the quote token,
/// exact: the ratio of the squared oracle sqrt ratio and 2^192, oriented by
/// the token sort order.
pub fn tick_to_price(base: Token, quote: Token, tick: i32) -> (r: Result<Price, ConvError>)
    ensures
        !base.comparable(&quote) ==> r == Err::<Price, ConvError>(ConvError::IncomparableTokens),
        base.comparable(&quote) && !(MIN_TICK <= tick <= MAX_TICK) ==> r == Err::<
            Price,
            ConvError,
        >(ConvError::OracleFailure),
        base.comparable(&quote) && MIN_TICK <= tick <= MAX_TICK ==> (r matches Ok(p) && {
            let s = sqrt_ratio_at_tick(tick as int);
            &&& p.base == base
            &&& p.quote == quote
            &&& p.wf()
            &&& if base.address() < quote.address() {
                p.num() == s * s && p.den() == q192n()
            } else {
                p.num() == q192n() && p.den() == s * s
            }
        }),
{
    let sorted = match base.sorts_before(&quote) {
        Ok(b) => b,
        Err(e) => { return Err(e) },
    };
    if !(MIN_TICK <= tick && tick <= MAX_TICK) {
        return Err(ConvError::OracleFailure);
    }
    let s = oracle_sqrt_ratio_at_tick(tick);
    let ratio_x192 = big_mul(&s, &s);
    let q = bn_q192();
    proof {
        vstd::arithmetic::mul::lemma_mul_strictly_positive(s.val() as int, s.val() as int);
    }
    if sorted {
        Ok(Price { base, quote, fraction: Fraction { numerator: ratio_x192, denominator: q } })
    } else {
        Ok(Price { base, quote, fraction: Fraction { numerator: q, denominator: ratio_x192 } })
    }
}

/// Given a sqrt ratio, the price of the base token in terms of the quote
/// token: the exact square over 2^192, oriented by the token sort order.
pub fn sqrt_ratio_x96_to_price(sqrt_ratio_x96: &BigNat, base: Token, quote: Token) -> (r: Result<
    Price,
    ConvError,
>)
    requires
        sqrt_ratio_x96.val() > 0,
    ensures
        !base.comparable(&quote) ==> r == Err::<Price, ConvError>(ConvError::IncomparableTokens),
        base.comparable(&quote) ==> (r matches Ok(p) && {
            let s = sqrt_ratio_x96.val();
            &&& p.base == base
            &&& p.quote == quote
            &&& p.wf()
            &&& if base.address() < quote.address() {
                p.num() == s * s && p.den() == q192n()
            } else {
                p.num() == q192n() && p.den() == s * s
            }
        }),
{
    let sorted = match base.sorts_before(&quote) {
        Ok(b) => b,
        Err(e) => { return Err(e) },
    };
    let ratio_x192 = big_mul(sqrt_ratio_x96, sqrt_ratio_x96);
    let q = bn_q192();
    proof {
        vstd::arithmetic::mul::lemma_mul_strictly_positive(
            sqrt_ratio_x96.val() as int,
            sqrt_ratio_x96.val() as int,
        );
    }
    if sorted {
        Ok(Price { base, quote, fraction: Fraction { numerator: ratio_x192, denominator: q } })
    } else {
        Ok(Price { base, quote, fraction: Fraction { numerator: q, denominator: ratio_x192 } })
    }
}

/// A fraction as a decimal at DEC_SCALE fractional digits, truncated.
pub fn fraction_to_big_decimal(f: &Fraction) -> (r: BigDec)
    requires
        f.wf(),
    ensures
        r.wf(),
        !r.neg,
        r.scale == DEC_SCALE,
        r.ival() == f.numerator.val() * p10(192) / (f.denominator.val() as int),
{
    let a = dec_from_bignat(BigNat { limbs: f.numerator.limbs.clone() }, 0);
    let b = dec_from_bignat(BigNat { limbs: f.denominator.limbs.clone() }, 0);
    let r = dec_div(&a, &b, DEC_SCALE);
    proof {
        crate::dec::lemma_p10_adds(192, 0);
        assert(p10(0) == 1) by {
            vstd::arithmetic::power::lemma_pow0(10);
        }
    }
    r
}

/// The decimal mantissa of the price of token0 in token1 at a tick, at
/// DEC_SCALE digits.
pub open spec fn tick_price_mant(t: int) -> int {
    sqrt_ratio_at_tick(t) * sqrt_ratio_at_tick(t) * p10(192) / (q192n() as int)
}

/// Given a tick, the price of token0 in terms of token1 as a decimal: the
/// squared oracle sqrt ratio divided by 2^192, truncated at DEC_SCALE
/// fractional digits.
pub fn tick_to_big_price(tick: i32) -> (r: Result<BigDec, ConvError>)
    ensures
        r is Ok <==> MIN_TICK <= tick <= MAX_TICK,
        r matches Err(e) ==> e == ConvError::OracleFailure,
        r matches Ok(d) ==> {
            &&& d.wf()
            &&& !d.neg
            &&& d.scale == DEC_SCALE
            &&& d.ival() == tick_price_mant(tick as int)
        },
{
    if !(MIN_TICK <= tick && tick <= MAX_TICK) {
        return Err(ConvError::OracleFailure);
    }
    let s = oracle_sqrt_ratio_at_tick(tick);
    let sq = big_mul(&s, &s);
    let p = bn_pow10(DEC_SCALE);
    let num = big_mul(&sq, &p);
    let q = bn_q192();
    let m = big_div(&num, &q);
    Ok(BigDec { neg: false, mag: m, scale: DEC_SCALE })
}

/// The Q64.96 sqrt ratio of a non-negative decimal price: the integer square
/// root of the truncated `price * 2^192`, clamped into the oracle's range.
pub open spec fn sqrt_ratio_from_dec(m: nat, sc: nat) -> nat {
    let s = sqrt_floor(m * q192n() / (p10(sc) as nat));
    if s < min_sqrt_ratio() {
        min_sqrt_ratio()
    } else if s > max_sqrt_ratio() {
        max_sqrt_ratio()
    } else {
        s
    }
}

/// Given a decimal price of token1/token0, the sqrt ratio of token1/token0 as
/// a Q64.96 value, clamped into [MIN_SQRT_RATIO, MAX_SQRT_RATIO]; a negative
/// price is a domain violation.
pub fn price_to_sqrt_ratio_x96(price: &BigDec) -> (r: Result<BigNat, ConvError>)
    requires
        price.wf(),
    ensures
        r is Err <==> price.ival() < 0,
        r matches Err(e) ==> e == ConvError::DomainViolation,
        r matches Ok(x) ==> {
            &&& x.wf()
            &&& x.limbs@.len() <= 4
            &&& x.val() == sqrt_ratio_from_dec(price.mag.val(), price.scale as nat)
            &&& min_sqrt_ratio() <= x.val() <= max_sqrt_ratio()
        },
{
    if crate::dec::dec_is_neg(price) {
        return Err(ConvError::DomainViolation);
    }
    let q = bn_q192();
    let d = bn_pow10(price.scale);
    let num = big_mul(&price.mag, &q);
    proof {
        crate::dec::lemma_p10_pos(price.scale as nat);
    }
    let t = big_div(&num, &d);
    let s = big_sqrt(&t);
    proof {
        lemma_sqrt_floor_is(t.val(), s.val());
    }
    let min_bn = bn_min_sqrt_ratio();
    let max_bn = bn_max_sqrt_ratio();
    if big_lt(&s, &min_bn) {
        Ok(min_bn)
    } else if big_lt(&max_bn, &s) {
        Ok(max_bn)
    } else {
        proof {
            lemma_limbs_len_le_3(s.limbs@);
        }
        Ok(s)
    }
}

/// The exact nearest-tick lookup for an in-bounds rational price: encode the
/// oriented ratio as a sqrt ratio, take the oracle's bracket tick, and round
/// up by one tick when the price has reached the next tick's price.
pub fn price_to_closest_tick(price: &Price) -> (r: Result<i32, ConvError>)
    requires
        price.wf(),
    ensures
        !price.base.comparable(&price.quote) ==> r == Err::<i32, ConvError>(
            ConvError::IncomparableTokens,
        ),
        price.base.comparable(&price.quote) ==> closest_tick_result(
            ratio_num(price),
            ratio_den(price),
            r,
        ),
{
    let sorted = match price.base.sorts_before(&price.quote) {
        Ok(b) => b,
        Err(e) => { return Err(e) },
    };
    let q = bn_q192();
    let (rn, rd) = if sorted {
        (&price.fraction.numerator, &price.fraction.denominator)
    } else {
        (&price.fraction.denominator, &price.fraction.numerator)
    };
    if bn_is_zero(rd) {
        return Err(ConvError::OracleFailure);
    }
    let lhs = big_mul(rn, &q);
    let t = big_div(&lhs, rd);
    let enc = big_sqrt(&t);
    proof {
        lemma_sqrt_floor_is(t.val(), enc.val());
    }
    let min_bn = bn_min_sqrt_ratio();
    let max_bn = bn_max_sqrt_ratio();
    if big_lt(&enc, &min_bn) || !big_lt(&enc, &max_bn) {
        return Err(ConvError::OracleFailure);
    }
    proof {
        lemma_limbs_len_le_3(enc.limbs@);
    }
    let t0 = oracle_tick_at_sqrt_ratio(&enc);
    let s1 = oracle_sqrt_ratio_at_tick(t0 + 1);
    let s1sq = big_mul(&s1, &s1);
    let rhs = big_mul(rd, &s1sq);
    let res = if bn_le(&rhs, &lhs) {
        t0 + 1
    } else {
        t0
    };
    proof {
        assert(MIN_TICK <= t0 < MAX_TICK);
        assert(sqrt_ratio_at_tick(t0 as int) <= encoded_sqrt(ratio_num(price), ratio_den(price)));
        assert(res as int == refined_tick(t0 as int, ratio_num(price), ratio_den(price)));
    }
    Ok(res)
}

/// Whether the price fraction lies strictly below MIN_PRICE, the ratio
/// MIN_SQRT_RATIO^2 / 2^192.
pub open spec fn below_min_price(p: &Price) -> bool {
    p.num() * q192n() < min_sqrt_ratio() * min_sqrt_ratio() * p.den()
}

/// Whether the price fraction lies strictly above MAX_PRICE, the ratio
/// (MAX_SQRT_RATIO^2 - 1) / 2^192.
pub open spec fn above_max_price(p: &Price) -> bool {
    p.num() * q192n() > (max_sqrt_ratio() * max_sqrt_ratio() - 1) * p.den()
}

/// What the clamped nearest-tick lookup returns: the boundary tick (mirrored
/// for a base token that sorts second) outside [MIN_PRICE, MAX_PRICE], and
/// the exact nearest-tick lookup within.
pub open spec fn safe_tick_result(price: &Price, r: Result<i32, ConvError>) -> bool {
    if !price.base.comparable(&price.quote) {
        r == Err::<i32, ConvError>(ConvError::IncomparableTokens)
    } else if below_min_price(price) {
        r == Ok::<i32, ConvError>(
            if base_sorted(price) {
                MIN_TICK
            } else {
                MAX_TICK
            },
        )
    } else if above_max_price(price) {
        r == Ok::<i32, ConvError>(
            if base_sorted(price) {
                MAX_TICK
            } else {
                MIN_TICK
            },
        )
    } else {
        closest_tick_result(ratio_num(price), ratio_den(price), r)
    }
}

pub proof fn lemma_closest_ok_bounds(rn: nat, rd: nat, t: i32)
    requires
        closest_tick_result(rn, rd, Ok(t)),
    ensures
        MIN_TICK <= t <= MAX_TICK,
{
    if rd > 0 && min_sqrt_ratio() <= encoded_sqrt(rn, rd) < max_sqrt_ratio() {
        let t0 = choose|t0: int|
            {
                &&& MIN_TICK <= t0 < MAX_TICK
                &&& #[trigger] sqrt_ratio_at_tick(t0) <= encoded_sqrt(rn, rd)
                &&& encoded_sqrt(rn, rd) < sqrt_ratio_at_tick(t0 + 1)
                &&& Ok::<i32, ConvError>(refined_tick(t0, rn, rd) as i32) == Ok::<i32, ConvError>(
                    t,
                )
            };
        assert(t == refined_tick(t0, rn, rd) as i32);
    }
}

pub proof fn lemma_safe_ok_bounds(price: &Price, t: i32)
    requires
        safe_tick_result(price, Ok(t)),
    ensures
        MIN_TICK <= t <= MAX_TICK,
{
    if price.base.comparable(&price.quote) && !below_min_price(price) && !above_max_price(price) {
        lemma_closest_ok_bounds(ratio_num(price), ratio_den(price), t);
    }
}

/// The nearest-tick lookup with clamping: a price below MIN_PRICE or above
/// MAX_PRICE maps to the corresponding boundary tick, mirrored when the base
/// token does not sort first.
pub fn price_to_closest_tick_safe(price: &Price) -> (r: Result<i32, ConvError>)
    requires
        price.wf(),
    ensures
        safe_tick_result(price, r),
{
    let sorted = match price.base.sorts_before(&price.quote) {
        Ok(b) => b,
        Err(e) => { return Err(e) },
    };
    let q = bn_q192();
    let lhs = big_mul(&price.fraction.numerator, &q);
    let min_bn = bn_min_sqrt_ratio();
    let max_bn = bn_max_sqrt_ratio();
    let min_sq = big_mul(&min_bn, &min_bn);
    let max_sq = big_mul(&max_bn, &max_bn);
    let one = crate::bigint::bn_from_u64(1);
    proof {
        assert(min_sqrt_ratio() * min_sqrt_ratio() > 0) by (nonlinear_arith);
        assert(max_sqrt_ratio() * max_sqrt_ratio() >= 1) by (nonlinear_arith);
    }
    let max_sq_m1 = crate::bigint::big_sub(&max_sq, &one);
    let below_rhs = big_mul(&min_sq, &price.fraction.denominator);
    let above_rhs = big_mul(&max_sq_m1, &price.fraction.denominator);
    if big_lt(&lhs, &below_rhs) {
        Ok(
            if sorted {
                MIN_TICK
            } else {
                MAX_TICK
            },
        )
    } else if big_lt(&above_rhs, &lhs) {
        Ok(
            if sorted {
                MAX_TICK
            } else {
                MIN_TICK
            },
        )
    } else {
        price_to_closest_tick(price)
    }
}

/// The tick, snapped to the nearest multiple of the spacing (half away rounds
/// up) and clamped so that the result stays within the tick bounds.
pub open spec fn nearest_usable_spec(tick: int, spacing: int) -> int {
    let rounded = ((2 * tick + spacing) / (2 * spacing)) * spacing;
    if rounded < MIN_TICK {
        rounded + spacing
    } else if rounded > MAX_TICK {
        rounded - spacing
    } else {
        rounded
    }
}

/// The nearest tick that is a multiple of the spacing, clamped into the tick
/// bounds.
pub fn nearest_usable_tick(tick: i32, tick_spacing: i32) -> (r: i32)
    requires
        1 <= tick_spacing <= 200,
        MIN_TICK <= tick <= MAX_TICK,
    ensures
        r == nearest_usable_spec(tick as int, tick_spacing as int),
{
    let t: i64 = tick as i64;
    let sp: i64 = tick_spacing as i64;
    let d: i64 = 2 * sp;
    let shift: i64 = 1774544 * d;
    let y: i64 = 2 * t + sp + shift;
    assert(y >= 0);
    let qd: i64 = y / d;
    proof {
        let x = 2 * (tick as int) + (tick_spacing as int);
        let di = d as int;
        vstd::arithmetic::div_mod::lemma_hoist_over_denominator(x, 1774544, di as nat);
        assert(x + 1774544 * di == y as int);
        assert(qd as int == x / di + 1774544);
        let q2 = x / di;
        lemma_fundamental_div_mod(x, di);
        lemma_mod_bound(x, di);
        assert(-887473 <= q2 * (tick_spacing as int) && q2 * (tick_spacing as int) <= 887372)
            by (nonlinear_arith)
            requires
                di == 2 * (tick_spacing as int),
                1 <= tick_spacing as int <= 200,
                x == di * q2 + (x % di),
                0 <= x % di < di,
                -1774544 <= x <= 1774744,
        ;
        assert((qd as int - 1774544) * (tick_spacing as int) == q2 * (tick_spacing as int));
    }
    let rounded: i64 = (qd - 1774544) * sp;
    let res: i64 = if rounded < (MIN_TICK as i64) {
        rounded + sp
    } else if rounded > (MAX_TICK as i64) {
        rounded - sp
    } else {
        rounded
    };
    res as i32
}

/// The round-trip law of tick inversion: for a price built from a tick `t`
/// within the tick bounds, whose base token sorts before its quote token, the
/// clamped nearest-tick lookup returns exactly `t`. The hypotheses about
/// `sqrt_ratio_at_tick` are what the oracle's own contract gives at `t`: its
/// ratio lies within the global bounds, strictly within them away from the
/// boundary ticks, equals the boundary value at MAX_TICK, and is strictly
/// monotone relative to `t`.
pub proof fn lemma_tick_price_roundtrip(p: Price, t: int, r: Result<i32, ConvError>)
    requires
        MIN_TICK <= t <= MAX_TICK,
        p.base.comparable(&p.quote),
        base_sorted(&p),
        p.num() == sqrt_ratio_at_tick(t) * sqrt_ratio_at_tick(t),
        p.den() == q192n(),
        min_sqrt_ratio() <= sqrt_ratio_at_tick(t) <= max_sqrt_ratio(),
        t == MAX_TICK ==> sqrt_ratio_at_tick(t) == max_sqrt_ratio(),
        t < MAX_TICK ==> sqrt_ratio_at_tick(t) < max_sqrt_ratio(),
        forall|t2: int| t < t2 <= MAX_TICK ==> sqrt_ratio_at_tick(t) < sqrt_ratio_at_tick(t2),
        forall|t2: int| MIN_TICK <= t2 < t ==> sqrt_ratio_at_tick(t2) < sqrt_ratio_at_tick(t),
        safe_tick_result(&p, r),
    ensures
        r == Ok::<i32, ConvError>(t as i32),
{
    let s = sqrt_ratio_at_tick(t);
    let q = q192n();
    let mn = min_sqrt_ratio();
    let mx = max_sqrt_ratio();
    assert(!below_min_price(&p)) by (nonlinear_arith)
        requires
            p.num() == s * s,
            p.den() == q,
            q > 0,
            s >= mn,
            mn >= 0,
            below_min_price(&p) == (p.num() * q < mn * mn * p.den()),
    ;
    if t == MAX_TICK {
        assert(above_max_price(&p)) by (nonlinear_arith)
            requires
                p.num() == s * s,
                p.den() == q,
                q > 0,
                s == mx,
                mx >= 1,
                above_max_price(&p) == (p.num() * q > (mx * mx - 1) * p.den()),
        ;
        assert(r == Ok::<i32, ConvError>(MAX_TICK));
    } else {
        assert(!above_max_price(&p)) by (nonlinear_arith)
            requires
                p.num() == s * s,
                p.den() == q,
                q > 0,
                0 <= s < mx,
                above_max_price(&p) == (p.num() * q > (mx * mx - 1) * p.den()),
        ;
        let rn = ratio_num(&p);
        let rd = ratio_den(&p);
        assert(rn == s * s && rd == q);
        assert(closest_tick_result(rn, rd, r));
        vstd::arithmetic::div_mod::lemma_div_by_multiple((s * s) as int, q as int);
        assert(rn * q / rd == s * s);
        assert(s * s <= s * s && s * s < (s + 1) * (s + 1)) by (nonlinear_arith)
            requires
                s >= 0,
        ;
        lemma_sqrt_floor_is(s * s, s);
        assert(encoded_sqrt(rn, rd) == s);
        assert(mn <= s < mx);
        let t0 = choose|t0: int|
            {
                &&& MIN_TICK <= t0 < MAX_TICK
                &&& #[trigger] sqrt_ratio_at_tick(t0) <= encoded_sqrt(rn, rd)
                &&& encoded_sqrt(rn, rd) < sqrt_ratio_at_tick(t0 + 1)
                &&& r == Ok::<i32, ConvError>(refined_tick(t0, rn, rd) as i32)
            };
        assert(sqrt_ratio_at_tick(t0) <= s < sqrt_ratio_at_tick(t0 + 1));
        if t0 < t {
            if t0 + 1 < t {
                assert(sqrt_ratio_at_tick(t0 + 1) < s);
            }
            assert(false);
        }
        if t0 > t {
            assert(s < sqrt_ratio_at_tick(t0));
            assert(false);
        }
        assert(t0 == t);
        let s1 = sqrt_ratio_at_tick(t + 1);
        assert(s < s1);
        assert(!(rn * q192n() >= rd * (s1 * s1))) by (nonlinear_arith)
            requires
                rn == s * s,
                rd == q,
                q == q192n(),
                q > 0,
                0 <= s < s1,
        ;
        assert(refined_tick(t0, rn, rd) == t);
    }
}

/// The closest usable tick for a price and a fee tier: the nearest-tick
/// lookup with clamping, snapped to the tier's tick spacing.
pub fn price_to_closest_usable_tick(price: &Price, fee: FeeAmount) -> (r: Result<i32, ConvError>)
    requires
        price.wf(),
    ensures
        r matches Err(e) ==> safe_tick_result(price, Err(e)),
        r matches Ok(u) ==> exists|t0: i32|
            {
                &&& #[trigger] safe_tick_result(price, Ok(t0))
                &&& u == nearest_usable_spec(t0 as int, fee.spacing())
            },
{
    let t = match price_to_closest_tick_safe(price) {
        Ok(t) => t,
        Err(e) => { return Err(e) },
    };
    proof {
        lemma_safe_ok_bounds(price, t);
    }
    let r = nearest_usable_tick(t, fee.tick_spacing());
    Ok(r)
}

} // verus!
