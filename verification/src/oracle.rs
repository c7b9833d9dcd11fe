use vstd::prelude::*;
use crate::bigint::BigNat;

verus! {

pub const MIN_TICK: i32 = -887272;

pub const MAX_TICK: i32 = 887272;

/// sqrt ratio of the lowest tick, 4295128739.
pub open spec fn min_sqrt_ratio() -> nat {
    4295128739
}

/// sqrt ratio of the highest tick, 1461446703485210103287273052203988822378723970342.
pub open spec fn max_sqrt_ratio() -> nat {
    1461446703485210103287273052203988822378723970342nat
}

/// The Q64.96 square-root ratio that the tick-math oracle assigns to a tick.
/// It depends on the tick alone.
pub uninterp spec fn sqrt_ratio_at_tick(tick: int) -> nat;

/// MIN_SQRT_RATIO as a big natural.
pub fn bn_min_sqrt_ratio() -> (r: BigNat)
    ensures
        r.val() == min_sqrt_ratio(),
        r.wf(),
        r.limbs@.len() <= 4,
{
    let r = crate::bigint::bn_from_u64(4295128739);
    assert(r.limbs@.len() <= 4);
    r
}

/// MAX_SQRT_RATIO as a big natural.
pub fn bn_max_sqrt_ratio() -> (r: BigNat)
    ensures
        r.val() == max_sqrt_ratio(),
        r.wf(),
        r.limbs@.len() <= 4,
{
    let mut v: Vec<u64> = Vec::new();
    v.push(6743328256752651558);
    v.push(17280870778742802505);
    v.push(4294805859);
    proof {
        let s = v@;
        assert(crate::bigint::limbs_val(Seq::<u64>::empty()) == 0);
        assert(s.skip(1).skip(1).skip(1) =~= Seq::<u64>::empty());
        assert(crate::bigint::limbs_val(s.skip(1).skip(1)) == 4294805859) by {
            assert(s.skip(1).skip(1)[0] == 4294805859);
        }
        assert(crate::bigint::limbs_val(s.skip(1)) == 17280870778742802505 + 4294805859
            * 0x1_0000_0000_0000_0000) by {
            assert(s.skip(1)[0] == 17280870778742802505);
        }
        assert(crate::bigint::limbs_val(s) == max_sqrt_ratio());
    }
    BigNat { limbs: v }
}

/// Relies on uniswap_v3_math::tick_math::get_sqrt_ratio_at_tick: defined on
/// [MIN_TICK, MAX_TICK] (it errors outside, which the precondition rules out),
/// it returns the oracle's sqrt ratio, a function of the tick alone, strictly
/// increasing in the tick, equal to MIN_SQRT_RATIO at the lowest tick and to
/// MAX_SQRT_RATIO at the highest.
#[verifier::external_body]
pub(crate) fn oracle_sqrt_ratio_at_tick(tick: i32) -> (r: BigNat)
    requires
        MIN_TICK <= tick <= MAX_TICK,
    ensures
        r.val() == sqrt_ratio_at_tick(tick as int),
        r.limbs@.len() <= 4,
        min_sqrt_ratio() <= r.val() <= max_sqrt_ratio(),
        tick == MIN_TICK ==> r.val() == min_sqrt_ratio(),
        tick == MAX_TICK ==> r.val() == max_sqrt_ratio(),
        tick > MIN_TICK ==> r.val() > min_sqrt_ratio(),
        tick < MAX_TICK ==> r.val() < max_sqrt_ratio(),
        forall|t2: int| MIN_TICK <= t2 < tick ==> sqrt_ratio_at_tick(t2) < r.val(),
        forall|t2: int| tick < t2 <= MAX_TICK ==> r.val() < sqrt_ratio_at_tick(t2),
{
    let u = uniswap_v3_math::tick_math::get_sqrt_ratio_at_tick(tick).unwrap();
    BigNat { limbs: u.as_limbs().to_vec() }
}

/// Relies on uniswap_v3_math::tick_math::get_tick_at_sqrt_ratio: defined on
/// [MIN_SQRT_RATIO, MAX_SQRT_RATIO) (it errors outside, which the
/// precondition rules out), it returns the greatest tick whose oracle sqrt
/// ratio does not exceed the argument.
#[verifier::external_body]
pub(crate) fn oracle_tick_at_sqrt_ratio(x: &BigNat) -> (r: i32)
    requires
        x.limbs@.len() <= 4,
        min_sqrt_ratio() <= x.val() < max_sqrt_ratio(),
    ensures
        MIN_TICK <= r < MAX_TICK,
        sqrt_ratio_at_tick(r as int) <= x.val(),
        x.val() < sqrt_ratio_at_tick(r as int + 1),
{
    let mut arr = [0u64; 4];
    for (i, l) in x.limbs.iter().enumerate() {
        arr[i] = *l;
    }
    uniswap_v3_math::tick_math::get_tick_at_sqrt_ratio(alloy_primitives::U256::from_limbs(arr)).unwrap()
}

/// Relies on uniswap_v3_math::sqrt_price_math::_get_amount_0_delta with
/// round_up = false: for sqrt ratios 0 < a <= b < 2^160 and liquidity L it
/// returns floor(floor(L * 2^96 * (b - a) / b) / a), the token0 amount of the
/// standard concentrated-liquidity formula rounded down.
#[verifier::external_body]
pub(crate) fn oracle_amount0_delta(a: &BigNat, b: &BigNat, liquidity: u128) -> (r: BigNat)
    requires
        a.limbs@.len() <= 4,
        b.limbs@.len() <= 4,
        0 < a.val() <= b.val(),
        b.val() < 0x1_0000_0000_0000_0000_0000_0000_0000_0000_0000_0000nat,
    ensures
        r.val() == (liquidity * 0x1_0000_0000_0000_0000_0000_0000) * (b.val() - a.val()) / (
        b.val() as int) / (a.val() as int),
        r.wf(),
{
    let mut aa = [0u64; 4];
    for (i, l) in a.limbs.iter().enumerate() {
        aa[i] = *l;
    }
    let mut bb = [0u64; 4];
    for (i, l) in b.limbs.iter().enumerate() {
        bb[i] = *l;
    }
    let u = uniswap_v3_math::sqrt_price_math::_get_amount_0_delta(
        alloy_primitives::U256::from_limbs(aa),
        alloy_primitives::U256::from_limbs(bb),
        liquidity,
        false,
    ).unwrap();
    BigNat { limbs: num_bigint::BigUint::from_bytes_le(&u.as_le_bytes()).to_u64_digits() }
}

/// Relies on uniswap_v3_math::sqrt_price_math::_get_amount_1_delta with
/// round_up = false: for sqrt ratios 0 < a <= b < 2^160 and liquidity L it
/// returns floor(L * (b - a) / 2^96), the token1 amount of the standard
/// concentrated-liquidity formula rounded down.
#[verifier::external_body]
pub(crate) fn oracle_amount1_delta(a: &BigNat, b: &BigNat, liquidity: u128) -> (r: BigNat)
    requires
        a.limbs@.len() <= 4,
        b.limbs@.len() <= 4,
        0 < a.val() <= b.val(),
        b.val() < 0x1_0000_0000_0000_0000_0000_0000_0000_0000_0000_0000nat,
    ensures
        r.val() == liquidity * (b.val() - a.val()) / 0x1_0000_0000_0000_0000_0000_0000,
        r.wf(),
{
    let mut aa = [0u64; 4];
    for (i, l) in a.limbs.iter().enumerate() {
        aa[i] = *l;
    }
    let mut bb = [0u64; 4];
    for (i, l) in b.limbs.iter().enumerate() {
        bb[i] = *l;
    }
    let u = uniswap_v3_math::sqrt_price_math::_get_amount_1_delta(
        alloy_primitives::U256::from_limbs(aa),
        alloy_primitives::U256::from_limbs(bb),
        liquidity,
        false,
    ).unwrap();
    BigNat { limbs: num_bigint::BigUint::from_bytes_le(&u.as_le_bytes()).to_u64_digits() }
}

} // verus!
