use vstd::prelude::*;
use vstd::arithmetic::power::{pow, lemma_pow_adds, lemma_pow_positive};
use vstd::arithmetic::mul::{lemma_mul_unary_negation, lemma_mul_strictly_positive};
use crate::bigint::{BigNat, big_add, big_sub, big_mul, big_div, big_sqrt, big_lt, bn_zero, bn_from_u64, bn_le, bn_eq, bn_is_zero, bn_pow10, sqrt_floor, lemma_sqrt_floor_is};

verus! {

/// 10^e, the scale factor of a decimal with `e` fractional digits.
pub open spec fn p10(e: nat) -> int {
    pow(10, e)
}

pub proof fn lemma_p10_pos(e: nat)
    ensures
        p10(e) > 0,
{
    lemma_pow_positive(10, e);
}

pub proof fn lemma_p10_adds(a: nat, b: nat)
    ensures
        p10(a + b) == p10(a) * p10(b),
{
    lemma_pow_adds(10, a, b);
}

proof fn lemma_mul_le_cancel(x: int, y: int, c: int)
    requires
        c > 0,
    ensures
        x <= y <==> x * c <= y * c,
{
    assert(x <= y <==> x * c <= y * c) by (nonlinear_arith)
        requires
            c > 0,
    ;
}

/// An arbitrary-precision decimal: the signed value `ival() / 10^scale`.
/// A zero magnitude is never marked negative.
#[derive(Debug, Clone)]
pub struct BigDec {
    pub neg: bool,
    pub mag: BigNat,
    pub scale: u32,
}

impl BigDec {
    pub open spec fn wf(&self) -> bool {
        self.mag.val() == 0 ==> !self.neg
    }

    /// The signed mantissa; the decimal's value is `ival() / 10^scale`.
    pub open spec fn ival(&self) -> int {
        if self.neg {
            -(self.mag.val() as int)
        } else {
            self.mag.val() as int
        }
    }

    /// `self` and `other` denote the same rational number.
    pub open spec fn same_value(&self, other: &BigDec) -> bool {
        self.ival() * p10(other.scale as nat) == other.ival() * p10(self.scale as nat)
    }
}

pub fn dec_zero() -> (r: BigDec)
    ensures
        r.wf(),
        r.ival() == 0,
        r.scale == 0,
{
    BigDec { neg: false, mag: bn_zero(), scale: 0 }
}

pub fn dec_from_u64(x: u64) -> (r: BigDec)
    ensures
        r.wf(),
        r.ival() == x,
        r.scale == 0,
{
    BigDec { neg: false, mag: bn_from_u64(x), scale: 0 }
}

/// A decimal from an integer magnitude at a given scale: `n / 10^scale`.
pub fn dec_from_bignat(n: BigNat, scale: u32) -> (r: BigDec)
    ensures
        r.wf(),
        r.ival() == n.val(),
        r.scale == scale,
{
    BigDec { neg: false, mag: n, scale }
}

pub fn dec_is_zero(a: &BigDec) -> (r: bool)
    requires
        a.wf(),
    ensures
        r <==> a.ival() == 0,
{
    bn_is_zero(&a.mag)
}

pub fn dec_is_neg(a: &BigDec) -> (r: bool)
    requires
        a.wf(),
    ensures
        r <==> a.ival() < 0,
{
    a.neg
}

pub fn dec_neg(a: &BigDec) -> (r: BigDec)
    requires
        a.wf(),
    ensures
        r.wf(),
        r.ival() == -a.ival(),
        r.scale == a.scale,
{
    let z = bn_is_zero(&a.mag);
    BigDec {
        neg: if z { false } else { !a.neg },
        mag: BigNat { limbs: a.mag.limbs.clone() },
        scale: a.scale,
    }
}

/// The product; scales add, signs multiply.
pub fn dec_mul(a: &BigDec, b: &BigDec) -> (r: BigDec)
    requires
        a.wf(),
        b.wf(),
        a.scale + b.scale <= u32::MAX,
    ensures
        r.wf(),
        r.scale == a.scale + b.scale,
        r.ival() == a.ival() * b.ival(),
{
    let mag = big_mul(&a.mag, &b.mag);
    let z = bn_is_zero(&mag);
    let neg = if z { false } else { a.neg != b.neg };
    let r = BigDec { neg, mag, scale: a.scale + b.scale };
    proof {
        let av = a.mag.val() as int;
        let bv = b.mag.val() as int;
        let mv = r.mag.val() as int;
        let aneg = a.neg;
        let bneg = b.neg;
        let rneg = r.neg;
        assert((if rneg { -mv } else { mv }) == (if aneg { -av } else { av }) * (if bneg {
            -bv
        } else {
            bv
        })) by (nonlinear_arith)
            requires
                mv == av * bv,
                av >= 0,
                bv >= 0,
                rneg == (mv != 0 && aneg != bneg),
        ;
    }
    r
}

/// The sum, at the larger of the two scales.
pub fn dec_add(a: &BigDec, b: &BigDec) -> (r: BigDec)
    requires
        a.wf(),
        b.wf(),
    ensures
        r.wf(),
        r.scale == if a.scale >= b.scale { a.scale } else { b.scale },
        r.ival() == a.ival() * p10((r.scale - a.scale) as nat) + b.ival() * p10(
            (r.scale - b.scale) as nat,
        ),
{
    let s: u32 = if a.scale >= b.scale {
        a.scale
    } else {
        b.scale
    };
    let pa = bn_pow10(s - a.scale);
    let pb = bn_pow10(s - b.scale);
    let ma = big_mul(&a.mag, &pa);
    let mb = big_mul(&b.mag, &pb);
    proof {
        lemma_p10_pos((s - a.scale) as nat);
        lemma_p10_pos((s - b.scale) as nat);
        lemma_mul_unary_negation(a.mag.val() as int, pa.val() as int);
        lemma_mul_unary_negation(b.mag.val() as int, pb.val() as int);
    }
    let ghost aval = a.ival() * p10((s - a.scale) as nat);
    let ghost bval = b.ival() * p10((s - b.scale) as nat);
    proof {
        assert(aval == if a.neg { -(ma.val() as int) } else { ma.val() as int });
        assert(bval == if b.neg { -(mb.val() as int) } else { mb.val() as int });
    }
    if a.neg == b.neg {
        let mag = big_add(&ma, &mb);
        let z = bn_is_zero(&mag);
        let neg = if z { false } else { a.neg };
        BigDec { neg, mag, scale: s }
    } else {
        if big_lt(&ma, &mb) {
            let mag = big_sub(&mb, &ma);
            let z = bn_is_zero(&mag);
            let neg = if z { false } else { b.neg };
            BigDec { neg, mag, scale: s }
        } else {
            let mag = big_sub(&ma, &mb);
            let z = bn_is_zero(&mag);
            let neg = if z { false } else { a.neg };
            BigDec { neg, mag, scale: s }
        }
    }
}

/// The difference `a - b`, at the larger of the two scales.
pub fn dec_sub(a: &BigDec, b: &BigDec) -> (r: BigDec)
    requires
        a.wf(),
        b.wf(),
    ensures
        r.wf(),
        r.scale == if a.scale >= b.scale { a.scale } else { b.scale },
        r.ival() == a.ival() * p10((r.scale - a.scale) as nat) - b.ival() * p10(
            (r.scale - b.scale) as nat,
        ),
{
    let nb = dec_neg(b);
    let r = dec_add(a, &nb);
    proof {
        lemma_mul_unary_negation(b.ival(), p10((r.scale - b.scale) as nat));
    }
    r
}

/// The quotient truncated toward zero at the requested scale: the magnitude of
/// the result is exactly `|a| * 10^(scale + b.scale) / (|b| * 10^(a.scale))`,
/// integer division.
pub fn dec_div(a: &BigDec, b: &BigDec, scale: u32) -> (r: BigDec)
    requires
        a.wf(),
        b.wf(),
        b.mag.val() > 0,
        scale + b.scale <= u32::MAX,
    ensures
        r.wf(),
        r.scale == scale,
        r.mag.val() == (a.mag.val() * p10((scale + b.scale) as nat)) as int / (b.mag.val() * p10(
            a.scale as nat,
        )),
        r.neg == ((a.neg != b.neg) && r.mag.val() != 0),
{
    let pn = bn_pow10(scale + b.scale);
    let pd = bn_pow10(a.scale);
    let num = big_mul(&a.mag, &pn);
    let den = big_mul(&b.mag, &pd);
    proof {
        lemma_p10_pos(a.scale as nat);
        lemma_mul_strictly_positive(b.mag.val() as int, pd.val() as int);
    }
    let q = big_div(&num, &den);
    let z = bn_is_zero(&q);
    let neg = if z { false } else { a.neg != b.neg };
    BigDec { neg, mag: q, scale }
}

/// The square root truncated at the requested scale: for a non-negative input
/// the result magnitude `m` satisfies
/// `m^2 * 10^a.scale <= a.mag * 10^(2*scale) < (m+1)^2 * 10^a.scale`.
pub fn dec_sqrt(a: &BigDec, scale: u32) -> (r: BigDec)
    requires
        a.wf(),
        !a.neg,
        scale <= 0x7fff_ffff,
    ensures
        r.wf(),
        !r.neg,
        r.scale == scale,
        r.mag.val() == sqrt_floor((a.mag.val() * p10((2 * scale) as nat) / p10(a.scale as nat)) as nat),
        r.mag.val() * r.mag.val() * p10(a.scale as nat) <= a.mag.val() * p10((2 * scale) as nat),
        a.mag.val() * p10((2 * scale) as nat) < (r.mag.val() + 1) * (r.mag.val() + 1) * p10(
            a.scale as nat,
        ),
{
    let pn = bn_pow10(2 * scale);
    let pd = bn_pow10(a.scale);
    let num = big_mul(&a.mag, &pn);
    proof {
        lemma_p10_pos(a.scale as nat);
        lemma_p10_pos((2 * scale) as nat);
    }
    let t = big_div(&num, &pd);
    let q = big_sqrt(&t);
    proof {
        lemma_sqrt_floor_is(t.val(), q.val());
        let x = num.val() as int;
        let d = pd.val() as int;
        let tv = t.val() as int;
        let qv = q.val() as int;
        assert(tv == x / d);
        vstd::arithmetic::div_mod::lemma_fundamental_div_mod(x, d);
        vstd::arithmetic::div_mod::lemma_mod_bound(x, d);
        let rem = x % d;
        assert(qv * qv * d <= x && x < (qv + 1) * (qv + 1) * d) by (nonlinear_arith)
            requires
                x == d * tv + rem,
                0 <= rem < d,
                qv * qv <= tv,
                tv < (qv + 1) * (qv + 1),
                qv >= 0,
                tv >= 0,
                d > 0,
        ;
    }
    BigDec { neg: false, mag: q, scale }
}

/// The decimal brought to exactly `scale` fractional digits: exact when the
/// scale grows, rounded to the nearest (halves away from zero) when it
/// shrinks.
pub fn dec_round_half_up(a: &BigDec, scale: u32) -> (r: BigDec)
    requires
        a.wf(),
    ensures
        r.wf(),
        r.scale == scale,
        scale >= a.scale ==> r.ival() == a.ival() * p10((scale - a.scale) as nat),
        scale < a.scale ==> {
            &&& r.mag.val() == (a.mag.val() + p10((a.scale - scale) as nat) / 2) as int / p10(
                (a.scale - scale) as nat,
            )
            &&& r.neg == (a.neg && r.mag.val() != 0)
        },
{
    if scale >= a.scale {
        let f = bn_pow10(scale - a.scale);
        let mag = big_mul(&a.mag, &f);
        proof {
            lemma_p10_pos((scale - a.scale) as nat);
            lemma_mul_unary_negation(a.mag.val() as int, f.val() as int);
            if mag.val() == 0 {
                assert(a.mag.val() == 0) by (nonlinear_arith)
                    requires
                        a.mag.val() * f.val() == 0,
                        f.val() > 0,
                        a.mag.val() >= 0,
                ;
            }
        }
        let z = bn_is_zero(&mag);
        BigDec { neg: if z { false } else { a.neg }, mag, scale }
    } else {
        let d = bn_pow10(a.scale - scale);
        let two = bn_from_u64(2);
        let half = big_div(&d, &two);
        let t = big_add(&a.mag, &half);
        proof {
            lemma_p10_pos((a.scale - scale) as nat);
        }
        let q = big_div(&t, &d);
        let z = bn_is_zero(&q);
        BigDec { neg: if z { false } else { a.neg }, mag: q, scale }
    }
}

/// Whether `a <= b` as rational numbers (cross-multiplied comparison).
pub fn dec_le(a: &BigDec, b: &BigDec) -> (r: bool)
    requires
        a.wf(),
        b.wf(),
    ensures
        r <==> a.ival() * p10(b.scale as nat) <= b.ival() * p10(a.scale as nat),
{
    let s: u32 = if a.scale >= b.scale {
        a.scale
    } else {
        b.scale
    };
    let pa = bn_pow10(s - a.scale);
    let pb = bn_pow10(s - b.scale);
    let ma = big_mul(&a.mag, &pa);
    let mb = big_mul(&b.mag, &pb);
    proof {
        lemma_p10_pos((s - a.scale) as nat);
        lemma_p10_pos((s - b.scale) as nat);
        lemma_mul_unary_negation(a.mag.val() as int, pa.val() as int);
        lemma_mul_unary_negation(b.mag.val() as int, pb.val() as int);
    }
    let ghost aval = a.ival() * p10((s - a.scale) as nat);
    let ghost bval = b.ival() * p10((s - b.scale) as nat);
    proof {
        assert(aval == if a.neg { -(ma.val() as int) } else { ma.val() as int });
        assert(bval == if b.neg { -(mb.val() as int) } else { mb.val() as int });
        let c = p10(((a.scale + b.scale) - s) as nat);
        lemma_p10_pos(((a.scale + b.scale) - s) as nat);
        lemma_p10_adds((s - a.scale) as nat, ((a.scale + b.scale) - s) as nat);
        lemma_p10_adds((s - b.scale) as nat, ((a.scale + b.scale) - s) as nat);
        assert(aval * c == a.ival() * p10(b.scale as nat)) by (nonlinear_arith)
            requires
                aval == a.ival() * p10((s - a.scale) as nat),
                p10((s - a.scale) as nat) * c == p10(b.scale as nat),
        ;
        assert(bval * c == b.ival() * p10(a.scale as nat)) by (nonlinear_arith)
            requires
                bval == b.ival() * p10((s - b.scale) as nat),
                p10((s - b.scale) as nat) * c == p10(a.scale as nat),
        ;
        lemma_mul_le_cancel(aval, bval, c);
        if a.neg {
            lemma_mul_strictly_positive(a.mag.val() as int, pa.val() as int);
        }
        if b.neg {
            lemma_mul_strictly_positive(b.mag.val() as int, pb.val() as int);
        }
    }
    if a.neg && !b.neg {
        true
    } else if !a.neg && b.neg {
        false
    } else if !a.neg {
        bn_le(&ma, &mb)
    } else {
        bn_le(&mb, &ma)
    }
}

/// The mathematical content of a decimal: the signed mantissa and the scale.
/// The spec operations below mirror the executable ones exactly, truncation
/// included.
pub ghost struct DecV {
    pub i: int,
    pub s: nat,
}

pub open spec fn dv(d: &BigDec) -> DecV {
    DecV { i: d.ival(), s: d.scale as nat }
}

pub open spec fn dv_int(i: int) -> DecV {
    DecV { i, s: 0 }
}

pub open spec fn dv_mul(a: DecV, b: DecV) -> DecV {
    DecV { i: a.i * b.i, s: a.s + b.s }
}

pub open spec fn dv_add(a: DecV, b: DecV) -> DecV {
    let s = if a.s >= b.s {
        a.s
    } else {
        b.s
    };
    DecV { i: a.i * p10((s - a.s) as nat) + b.i * p10((s - b.s) as nat), s }
}

pub open spec fn dv_sub(a: DecV, b: DecV) -> DecV {
    let s = if a.s >= b.s {
        a.s
    } else {
        b.s
    };
    DecV { i: a.i * p10((s - a.s) as nat) - b.i * p10((s - b.s) as nat), s }
}

pub open spec fn dv_abs(i: int) -> int {
    if i < 0 {
        -i
    } else {
        i
    }
}

/// The quotient truncated toward zero at scale `s`.
pub open spec fn dv_div(a: DecV, b: DecV, s: nat) -> DecV {
    let q = dv_abs(a.i) * p10(s + b.s) / (dv_abs(b.i) * p10(a.s));
    DecV { i: if (a.i < 0) != (b.i < 0) { -q } else { q }, s }
}

/// The square root truncated at scale `s`, for a non-negative value.
pub open spec fn dv_sqrt(a: DecV, s: nat) -> DecV {
    DecV { i: sqrt_floor((a.i * p10(2 * s) / p10(a.s)) as nat) as int, s }
}

/// Whether `a == b` as rational numbers.
pub fn dec_eq(a: &BigDec, b: &BigDec) -> (r: bool)
    requires
        a.wf(),
        b.wf(),
    ensures
        r <==> a.same_value(b),
{
    dec_le(a, b) && dec_le(b, a)
}

} // verus!
