use vstd::prelude::*;
use vstd::arithmetic::power::pow;

verus! {

/// An arbitrary-precision natural number, held as little-endian 64-bit limbs
/// with no leading zero limb. The arithmetic itself is carried out by
/// `num_bigint::BigUint`; each operation below states exactly what it returns
/// in terms of `val`.
#[derive(Debug, Clone)]
pub struct BigNat {
    pub limbs: Vec<u64>,
}

pub open spec fn limbs_val(s: Seq<u64>) -> nat
    decreases s.len(),
{
    if s.len() == 0 {
        0
    } else {
        (s[0] + limbs_val(s.skip(1)) * 0x1_0000_0000_0000_0000) as nat
    }
}

pub open spec fn limbs_wf(s: Seq<u64>) -> bool {
    s.len() == 0 || s[s.len() - 1] != 0
}

impl BigNat {
    pub open spec fn val(&self) -> nat {
        limbs_val(self.limbs@)
    }

    pub open spec fn wf(&self) -> bool {
        limbs_wf(self.limbs@)
    }
}

/// The integer square root: the greatest `r` with `r * r <= n`.
pub open spec fn sqrt_floor(n: nat) -> nat {
    choose|r: nat| #[trigger] (r * r) <= n && n < (r + 1) * (r + 1)
}

pub proof fn lemma_sqrt_floor_is(n: nat, q: nat)
    requires
        q * q <= n,
        n < (q + 1) * (q + 1),
    ensures
        sqrt_floor(n) == q,
{
    assert(exists|r: nat| #[trigger] (r * r) <= n && n < (r + 1) * (r + 1)) by {
        assert(q * q <= n && n < (q + 1) * (q + 1));
    }
    let c = sqrt_floor(n);
    assert(c * c <= n && n < (c + 1) * (c + 1));
    assert(c == q) by (nonlinear_arith)
        requires
            c * c <= n,
            n < (c + 1) * (c + 1),
            q * q <= n,
            n < (q + 1) * (q + 1),
            c >= 0,
            q >= 0,
    ;
}

pub proof fn lemma_limbs_val_nonzero(s: Seq<u64>)
    requires
        limbs_wf(s),
        s.len() > 0,
    ensures
        limbs_val(s) > 0,
    decreases s.len(),
{
    if s.len() == 1 {
        assert(s[0] != 0);
    } else {
        let t = s.skip(1);
        assert(t[t.len() - 1] == s[s.len() - 1]);
        lemma_limbs_val_nonzero(t);
        assert(limbs_val(s) > 0) by (nonlinear_arith)
            requires
                limbs_val(s) == s[0] + limbs_val(s.skip(1)) * 0x1_0000_0000_0000_0000,
                limbs_val(s.skip(1)) > 0,
                s[0] >= 0,
        ;
    }
}

/// A well-formed limb sequence whose value is below 2^192 has at most three
/// limbs.
pub proof fn lemma_limbs_len_le_3(s: Seq<u64>)
    requires
        limbs_wf(s),
        limbs_val(s) < 0x1_0000_0000_0000_0000_0000_0000_0000_0000_0000_0000_0000_0000,
    ensures
        s.len() <= 3,
{
    if s.len() >= 4 {
        let s1 = s.skip(1);
        let s2 = s1.skip(1);
        let s3 = s2.skip(1);
        assert(s1[s1.len() - 1] == s[s.len() - 1]);
        assert(s2[s2.len() - 1] == s[s.len() - 1]);
        assert(s3[s3.len() - 1] == s[s.len() - 1]);
        lemma_limbs_val_nonzero(s3);
        assert(limbs_val(s) >= 0x1_0000_0000_0000_0000_0000_0000_0000_0000_0000_0000_0000_0000)
            by (nonlinear_arith)
            requires
                limbs_val(s) == s[0] + limbs_val(s1) * 0x1_0000_0000_0000_0000,
                limbs_val(s1) == s1[0] + limbs_val(s2) * 0x1_0000_0000_0000_0000,
                limbs_val(s2) == s2[0] + limbs_val(s3) * 0x1_0000_0000_0000_0000,
                limbs_val(s3) >= 1,
                s[0] >= 0,
                s1[0] >= 0,
                s2[0] >= 0,
        ;
    }
}

/// Relies on num_bigint::BigUint addition; from_bytes_le reads the limbs'
/// bytes least significant first, and to_u64_digits returns the little-endian
/// digits of the result without a trailing zero digit.
#[verifier::external_body]
pub(crate) fn big_add(a: &BigNat, b: &BigNat) -> (r: BigNat)
    ensures
        r.val() == a.val() + b.val(),
        r.wf(),
{
    let au = num_bigint::BigUint::from_bytes_le(&a.limbs.iter().flat_map(|x| x.to_le_bytes()).collect::<Vec<u8>>());
    let bu = num_bigint::BigUint::from_bytes_le(&b.limbs.iter().flat_map(|x| x.to_le_bytes()).collect::<Vec<u8>>());
    BigNat { limbs: (au + bu).to_u64_digits() }
}

/// Relies on num_bigint::BigUint subtraction, which requires the minuend to be
/// at least the subtrahend (it panics otherwise, which the precondition rules
/// out).
#[verifier::external_body]
pub(crate) fn big_sub(a: &BigNat, b: &BigNat) -> (r: BigNat)
    requires
        b.val() <= a.val(),
    ensures
        r.val() == a.val() - b.val(),
        r.wf(),
{
    let au = num_bigint::BigUint::from_bytes_le(&a.limbs.iter().flat_map(|x| x.to_le_bytes()).collect::<Vec<u8>>());
    let bu = num_bigint::BigUint::from_bytes_le(&b.limbs.iter().flat_map(|x| x.to_le_bytes()).collect::<Vec<u8>>());
    BigNat { limbs: (au - bu).to_u64_digits() }
}

/// Relies on num_bigint::BigUint multiplication.
#[verifier::external_body]
pub(crate) fn big_mul(a: &BigNat, b: &BigNat) -> (r: BigNat)
    ensures
        r.val() == a.val() * b.val(),
        r.wf(),
{
    let au = num_bigint::BigUint::from_bytes_le(&a.limbs.iter().flat_map(|x| x.to_le_bytes()).collect::<Vec<u8>>());
    let bu = num_bigint::BigUint::from_bytes_le(&b.limbs.iter().flat_map(|x| x.to_le_bytes()).collect::<Vec<u8>>());
    BigNat { limbs: (au * bu).to_u64_digits() }
}

/// Relies on num_bigint::BigUint division, which truncates toward zero (the
/// floor, for naturals) and panics on a zero divisor, which the precondition
/// rules out.
#[verifier::external_body]
pub(crate) fn big_div(a: &BigNat, b: &BigNat) -> (r: BigNat)
    requires
        b.val() > 0,
    ensures
        r.val() == a.val() / b.val(),
        r.wf(),
{
    let au = num_bigint::BigUint::from_bytes_le(&a.limbs.iter().flat_map(|x| x.to_le_bytes()).collect::<Vec<u8>>());
    let bu = num_bigint::BigUint::from_bytes_le(&b.limbs.iter().flat_map(|x| x.to_le_bytes()).collect::<Vec<u8>>());
    BigNat { limbs: (au / bu).to_u64_digits() }
}

/// Relies on num_bigint::BigUint::sqrt, the truncated principal square root.
#[verifier::external_body]
pub(crate) fn big_sqrt(a: &BigNat) -> (r: BigNat)
    ensures
        r.val() * r.val() <= a.val(),
        a.val() < (r.val() + 1) * (r.val() + 1),
        r.wf(),
{
    let au = num_bigint::BigUint::from_bytes_le(&a.limbs.iter().flat_map(|x| x.to_le_bytes()).collect::<Vec<u8>>());
    BigNat { limbs: au.sqrt().to_u64_digits() }
}

/// Relies on num_bigint::BigUint's ordering, which compares the encoded
/// values.
#[verifier::external_body]
pub(crate) fn big_lt(a: &BigNat, b: &BigNat) -> (r: bool)
    ensures
        r <==> a.val() < b.val(),
{
    let au = num_bigint::BigUint::from_bytes_le(&a.limbs.iter().flat_map(|x| x.to_le_bytes()).collect::<Vec<u8>>());
    let bu = num_bigint::BigUint::from_bytes_le(&b.limbs.iter().flat_map(|x| x.to_le_bytes()).collect::<Vec<u8>>());
    au < bu
}

pub fn bn_zero() -> (r: BigNat)
    ensures
        r.val() == 0,
        r.wf(),
        r.limbs@.len() == 0,
{
    let v: Vec<u64> = Vec::new();
    BigNat { limbs: v }
}

pub fn bn_from_u64(x: u64) -> (r: BigNat)
    ensures
        r.val() == x,
        r.wf(),
        r.limbs@.len() <= 1,
{
    if x == 0 {
        bn_zero()
    } else {
        let mut v: Vec<u64> = Vec::new();
        v.push(x);
        proof {
            assert(limbs_val(Seq::<u64>::empty()) == 0);
            assert(v@.skip(1) =~= Seq::<u64>::empty());
        }
        BigNat { limbs: v }
    }
}

pub fn bn_le(a: &BigNat, b: &BigNat) -> (r: bool)
    ensures
        r <==> a.val() <= b.val(),
{
    !big_lt(b, a)
}

pub fn bn_eq(a: &BigNat, b: &BigNat) -> (r: bool)
    ensures
        r <==> a.val() == b.val(),
{
    !big_lt(a, b) && !big_lt(b, a)
}

pub fn bn_is_zero(a: &BigNat) -> (r: bool)
    ensures
        r <==> a.val() == 0,
{
    let z = bn_zero();
    bn_eq(a, &z)
}

/// 10^k as a big natural.
pub fn bn_pow10(k: u32) -> (r: BigNat)
    ensures
        r.val() == pow(10, k as nat),
        r.wf(),
{
    let ten = bn_from_u64(10);
    let mut r = bn_from_u64(1);
    let mut i: u32 = 0;
    proof {
        vstd::arithmetic::power::lemma_pow0(10);
    }
    while i < k
        invariant
            i <= k,
            r.val() == pow(10, i as nat),
            r.wf(),
            ten.val() == 10,
        decreases k - i,
    {
        r = big_mul(&r, &ten);
        proof {
            vstd::arithmetic::power::lemma_pow_adds(10, i as nat, 1);
            vstd::arithmetic::power::lemma_pow1(10);
        }
        i = i + 1;
    }
    r
}

/// 2^96 as a big natural.
pub fn bn_q96() -> (r: BigNat)
    ensures
        r.val() == 0x1_0000_0000_0000_0000_0000_0000,
        r.wf(),
{
    let mut v: Vec<u64> = Vec::new();
    v.push(0);
    v.push(0x1_0000_0000);
    proof {
        assert(limbs_val(v@) == 0x1_0000_0000_0000_0000_0000_0000) by {
            assert(limbs_val(Seq::<u64>::empty()) == 0);
            assert(v@.skip(1).skip(1) =~= Seq::<u64>::empty());
            assert(limbs_val(v@.skip(1)) == 0x1_0000_0000) by {
                assert(v@.skip(1)[0] == 0x1_0000_0000);
            }
        }
    }
    BigNat { limbs: v }
}

/// 2^192 as a big natural.
pub fn bn_q192() -> (r: BigNat)
    ensures
        r.val() == 0x1_0000_0000_0000_0000_0000_0000_0000_0000_0000_0000_0000_0000,
        r.wf(),
{
    let mut v: Vec<u64> = Vec::new();
    v.push(0);
    v.push(0);
    v.push(0);
    v.push(1);
    proof {
        assert(limbs_val(v@) == 0x1_0000_0000_0000_0000_0000_0000_0000_0000_0000_0000_0000_0000) by {
            let s = v@;
            assert(limbs_val(Seq::<u64>::empty()) == 0);
            assert(s.skip(1).skip(1).skip(1).skip(1) =~= Seq::<u64>::empty());
            assert(limbs_val(s.skip(1).skip(1).skip(1)) == 1) by {
                assert(s.skip(1).skip(1).skip(1)[0] == 1);
            }
            assert(limbs_val(s.skip(1).skip(1)) == 0x1_0000_0000_0000_0000) by {
                assert(s.skip(1).skip(1)[0] == 0);
            }
            assert(limbs_val(s.skip(1)) == 0x1_0000_0000_0000_0000_0000_0000_0000_0000) by {
                assert(s.skip(1)[0] == 0);
            }
        }
    }
    BigNat { limbs: v }
}

} // verus!
