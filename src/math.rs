use vstd::prelude::*;
use vstd::arithmetic::div_mod::lemma_fundamental_div_mod;
use crate::error::AmmError;

verus! {

/// Basis points in one whole: a fee of `fee_bps` takes `fee_bps / BPS_DENOMINATOR` of the input.
pub const BPS_DENOMINATOR: u128 = 10_000;

/// `s` squared.
pub open spec fn square(s: int) -> int {
    s * s
}

/// `r` is the floor of the square root of `v`.
pub open spec fn is_floor_sqrt(r: int, v: int) -> bool {
    0 <= r && r * r <= v && v < (r + 1) * (r + 1)
}

/// The floor of the square root of `v`.
pub open spec fn floor_sqrt(v: nat) -> nat {
    choose|r: nat| is_floor_sqrt(r as int, v as int)
}

/// `floor(a * b / c)` narrowed to 64 bits, or the overflow error.
pub open spec fn mul_div_result(a: u64, b: u64, c: u64) -> Result<u64, AmmError> {
    if c == 0 || (a as int) * (b as int) / (c as int) > u64::MAX {
        Err(AmmError::MathOverflow)
    } else {
        Ok(((a as int) * (b as int) / (c as int)) as u64)
    }
}

/// What `quote` returns.
pub open spec fn quote_result(amount_a: u64, reserve_a: u64, reserve_b: u64) -> Result<u64, AmmError> {
    if reserve_a == 0 {
        Err(AmmError::InsufficientLiquidity)
    } else {
        mul_div_result(amount_a, reserve_b, reserve_a)
    }
}

/// The input that counts toward pricing once the fee is taken out, scaled by `BPS_DENOMINATOR`.
pub open spec fn net_input(amount_in: int, fee_bps: int) -> int {
    amount_in * (10_000 - fee_bps)
}

/// The fee-adjusted constant-product output, over the integers.
pub open spec fn amount_out(amount_in: int, reserve_in: int, reserve_out: int, fee_bps: int) -> int {
    reserve_out * net_input(amount_in, fee_bps) / (reserve_in * 10_000 + net_input(amount_in, fee_bps))
}

/// What `get_amount_out` returns.
pub open spec fn amount_out_result(amount_in: u64, reserve_in: u64, reserve_out: u64, fee_bps: u16) -> Result<
    u64,
    AmmError,
> {
    if reserve_in == 0 || reserve_out == 0 {
        Err(AmmError::InsufficientLiquidity)
    } else if amount_in == 0 {
        Err(AmmError::ZeroLiquidity)
    } else if fee_bps > 10_000 {
        Err(AmmError::MathOverflow)
    } else if (reserve_out as int) * net_input(amount_in as int, fee_bps as int) > u128::MAX {
        Err(AmmError::MathOverflow)
    } else {
        Ok(amount_out(amount_in as int, reserve_in as int, reserve_out as int, fee_bps as int) as u64)
    }
}

proof fn lemma_product_fits(a: u64, b: u64)
    ensures
        0 <= (a as int) * (b as int) <= u128::MAX,
{
    assert(0 <= (a as int) * (b as int) <= (u64::MAX as int) * (u64::MAX as int)) by (nonlinear_arith);
}

/// `x / d < bound` whenever `x < bound * d`.
pub proof fn lemma_div_below(x: int, d: int, bound: int)
    requires
        0 <= x,
        0 < d,
        x < bound * d,
    ensures
        x / d < bound,
{
    lemma_fundamental_div_mod(x, d);
    assert(x / d < bound) by (nonlinear_arith)
        requires
            x == d * (x / d) + x % d,
            0 <= x % d,
            x < bound * d,
            0 < d,
    ;
}

/// Computes `floor(a * b / c)` with the product held in 128 bits.
pub fn checked_mul_div(a: u64, b: u64, c: u64) -> (r: Result<u64, AmmError>)
    ensures
        r == mul_div_result(a, b, c),
{
    proof {
        lemma_product_fits(a, b);
    }
    let product: u128 = (a as u128) * (b as u128);
    if c == 0 {
        return Err(AmmError::MathOverflow);
    }
    let q = product / (c as u128);
    if q > u64::MAX as u128 {
        Err(AmmError::MathOverflow)
    } else {
        Ok(q as u64)
    }
}

/// Converts `amount_a` of the first asset to the second at the reserve ratio, rounding down.
pub fn quote(amount_a: u64, reserve_a: u64, reserve_b: u64) -> (r: Result<u64, AmmError>)
    ensures
        r == quote_result(amount_a, reserve_a, reserve_b),
        r is Ok ==> r->Ok_0 as int == (amount_a as int) * (reserve_b as int) / (reserve_a as int),
{
    if reserve_a == 0 {
        return Err(AmmError::InsufficientLiquidity);
    }
    checked_mul_div(amount_a, reserve_b, reserve_a)
}

/// The output of a swap of `amount_in` against reserves `reserve_in` and `reserve_out`,
/// with `fee_bps` of the input kept by the pool.
pub fn get_amount_out(amount_in: u64, reserve_in: u64, reserve_out: u64, fee_bps: u16) -> (r: Result<
    u64,
    AmmError,
>)
    ensures
        r == amount_out_result(amount_in, reserve_in, reserve_out, fee_bps),
        r is Ok ==> r->Ok_0 < reserve_out,
{
    if reserve_in == 0 || reserve_out == 0 {
        return Err(AmmError::InsufficientLiquidity);
    }
    if amount_in == 0 {
        return Err(AmmError::ZeroLiquidity);
    }
    let fee_complement: u128 = match BPS_DENOMINATOR.checked_sub(fee_bps as u128) {
        Some(v) => v,
        None => return Err(AmmError::MathOverflow),
    };
    proof {
        assert((amount_in as int) * (fee_complement as int) <= (u64::MAX as int) * 10_000)
            by (nonlinear_arith)
            requires
                fee_complement <= 10_000,
        ;
    }
    let amount_in_with_fee: u128 = (amount_in as u128) * fee_complement;
    let numerator: u128 = match (reserve_out as u128).checked_mul(amount_in_with_fee) {
        Some(v) => v,
        None => return Err(AmmError::MathOverflow),
    };
    let denominator: u128 = (reserve_in as u128) * BPS_DENOMINATOR + amount_in_with_fee;
    proof {
        let d = denominator as int;
        assert(numerator < (reserve_out as int) * d) by (nonlinear_arith)
            requires
                numerator == (reserve_out as int) * (amount_in_with_fee as int),
                d == (reserve_in as int) * 10_000 + amount_in_with_fee,
                reserve_in > 0,
                reserve_out > 0,
        ;
        lemma_div_below(numerator as int, d, reserve_out as int);
    }
    let out = numerator / denominator;
    Ok(out as u64)
}

/// A valid swap never shrinks the product of the reserves, and grows it strictly when a
/// fee is charged: the pool receives `amount_in` and pays out what `get_amount_out` gives.
pub proof fn lemma_swap_invariant_growth(amount_in: u64, reserve_in: u64, reserve_out: u64, fee_bps: u16)
    requires
        amount_out_result(amount_in, reserve_in, reserve_out, fee_bps) is Ok,
    ensures
        ({
            let out = amount_out_result(amount_in, reserve_in, reserve_out, fee_bps)->Ok_0 as int;
            let before = (reserve_in as int) * (reserve_out as int);
            let after = (reserve_in as int + amount_in as int) * (reserve_out as int - out);
            after >= before && (fee_bps > 0 ==> after > before)
        }),
{
    let ri = reserve_in as int;
    let ro = reserve_out as int;
    let ai = amount_in as int;
    let f = fee_bps as int;
    let net = net_input(ai, f);
    let d = ri * 10_000 + net;
    let x = ro * net;
    let out = x / d;
    assert(net >= 0) by (nonlinear_arith)
        requires
            net == ai * (10_000 - f),
            ai > 0,
            f <= 10_000,
    ;
    assert(d > 0) by (nonlinear_arith)
        requires
            d == ri * 10_000 + net,
            ri > 0,
            net >= 0,
    ;
    assert(x < ro * d) by (nonlinear_arith)
        requires
            x == ro * net,
            d == ri * 10_000 + net,
            ri > 0,
            ro > 0,
    ;
    lemma_div_below(x, d, ro);
    assert(amount_out_result(amount_in, reserve_in, reserve_out, fee_bps)->Ok_0 as int == out);
    lemma_fundamental_div_mod(x, d);
    let after = (ri + ai) * (ro - out);
    let before = ri * ro;
    let gain = ri * ro * ai * f;
    assert(after * d >= (ri + ai) * (ro * d - x)) by (nonlinear_arith)
        requires
            x == d * out + x % d,
            0 <= x % d,
            after == (ri + ai) * (ro - out),
            ri + ai >= 0,
    ;
    assert((ri + ai) * (ro * d - x) == before * d + gain) by (nonlinear_arith)
        requires
            d == ri * 10_000 + net,
            net == ai * (10_000 - f),
            x == ro * net,
            before == ri * ro,
            gain == ri * ro * ai * f,
    ;
    assert(gain >= 0 && (f > 0 ==> gain > 0)) by (nonlinear_arith)
        requires
            gain == ri * ro * ai * f,
            ri > 0,
            ro > 0,
            ai > 0,
            f >= 0,
    ;
    assert(after >= before && (f > 0 ==> after > before)) by (nonlinear_arith)
        requires
            after * d >= before * d + gain,
            d > 0,
            gain >= 0,
            f > 0 ==> gain > 0,
    ;
}

proof fn lemma_floor_sqrt_unique(r1: int, r2: int, v: int)
    requires
        is_floor_sqrt(r1, v),
        is_floor_sqrt(r2, v),
    ensures
        r1 == r2,
{
    if r1 < r2 {
        assert((r1 + 1) * (r1 + 1) <= r2 * r2) by (nonlinear_arith)
            requires
                0 <= r1 + 1 <= r2,
        ;
    } else if r2 < r1 {
        assert((r2 + 1) * (r2 + 1) <= r1 * r1) by (nonlinear_arith)
            requires
                0 <= r2 + 1 <= r1,
        ;
    }
}

/// A witness of the floor square root is the one `floor_sqrt` names.
pub proof fn lemma_floor_sqrt_is(r: int, v: int)
    requires
        0 <= v,
        is_floor_sqrt(r, v),
    ensures
        floor_sqrt(v as nat) == r,
{
    assert(is_floor_sqrt((r as nat) as int, v));
    let c = floor_sqrt(v as nat);
    lemma_floor_sqrt_unique(c as int, r, v);
}

/// Every natural number has a floor square root, and `floor_sqrt` names it.
pub proof fn lemma_floor_sqrt_exists(v: int)
    requires
        0 <= v,
    ensures
        is_floor_sqrt(floor_sqrt(v as nat) as int, v),
    decreases v,
{
    if v == 0 {
        lemma_floor_sqrt_is(0, 0);
    } else {
        lemma_floor_sqrt_exists(v - 1);
        let r = floor_sqrt((v - 1) as nat) as int;
        if (r + 1) * (r + 1) <= v {
            assert(v < (r + 2) * (r + 2)) by (nonlinear_arith)
                requires
                    v - 1 < (r + 1) * (r + 1),
                    r >= 0,
            ;
            lemma_floor_sqrt_is(r + 1, v);
        } else {
            lemma_floor_sqrt_is(r, v);
        }
    }
}

/// One Newton step from any positive `x` never falls below a root candidate `s`.
proof fn lemma_newton_step_bound(v: int, x: int, s: int)
    requires
        0 < x,
        0 <= s,
        s * s <= v,
    ensures
        s <= (x + v / x) / 2,
{
    let q = v / x;
    lemma_fundamental_div_mod(v, x);
    assert(v < (q + 1) * x) by (nonlinear_arith)
        requires
            v == x * q + v % x,
            v % x < x,
    ;
    if x + q < 2 * s {
        assert(false) by (nonlinear_arith)
            requires
                x + q <= 2 * s - 1,
                0 <= q,
                0 < x,
                s * s <= v,
                v < (q + 1) * x,
        ;
    }
}

/// A Newton step from `x` on `v` fits in 128 bits when `x` is not below the root.
proof fn lemma_newton_step_fits(v: int, x: int)
    requires
        0 < x <= 0x8000_0000_0000_0000_0000_0000_0000_0000,
        0 <= v <= u128::MAX,
        v < (x + 1) * (x + 1),
    ensures
        x + v / x <= u128::MAX,
{
    let q = v / x;
    lemma_fundamental_div_mod(v, x);
    assert(q * x <= v) by (nonlinear_arith)
        requires
            v == x * q + v % x,
            0 <= v % x,
    ;
    if x >= 0x1_0000_0000_0000_0000 {
        assert(q < 0x1_0000_0000_0000_0000) by (nonlinear_arith)
            requires
                q * x <= v,
                v <= u128::MAX,
                x >= 0x1_0000_0000_0000_0000,
        ;
    } else {
        assert(q <= x + 2) by (nonlinear_arith)
            requires
                q * x <= v,
                v < (x + 1) * (x + 1),
                0 < x,
        ;
    }
}

/// The floor of the square root of `value`, by Newton's method seeded at `(value + 1) / 2`.
pub fn integer_sqrt(value: u128) -> (r: u128)
    ensures
        is_floor_sqrt(r as int, value as int),
        r == floor_sqrt(value as nat),
{
    if value == 0 {
        proof {
            lemma_floor_sqrt_is(0, 0);
        }
        return 0;
    }
    let mut x: u128 = value;
    // (value + 1) / 2, written so that it cannot overflow
    let mut y: u128 = value / 2 + value % 2;
    proof {
        vstd::arithmetic::div_mod::lemma_div_by_self(value as int);
        assert forall|s: int| 0 <= s && #[trigger] square(s) <= value implies s <= value by {
            if s > value {
                assert(s * s > value) by (nonlinear_arith)
                    requires
                        s > value,
                        value > 0,
                ;
            }
        }
    }
    while y < x
        invariant
            0 < x <= value,
            y as int == (x + value / x) / 2,
            y <= 0x8000_0000_0000_0000_0000_0000_0000_0000,
            forall|s: int| 0 <= s && #[trigger] square(s) <= value ==> s <= x,
        decreases x,
    {
        proof {
            assert forall|s: int| 0 <= s && #[trigger] square(s) <= value implies s <= y by {
                lemma_newton_step_bound(value as int, x as int, s);
            }
            lemma_newton_step_bound(value as int, x as int, 1);
            assert(square(1) <= value);
        }
        x = y;
        proof {
            if (x + 1) * (x + 1) <= value {
                assert(square(x + 1) <= value);
            }
            lemma_newton_step_fits(value as int, x as int);
        }
        y = (x + value / x) / 2;
    }
    proof {
        if (x + 1) * (x + 1) <= value {
            assert(square(x + 1) <= value);
        }
        if x * x > value {
            let q = value / x;
            lemma_fundamental_div_mod(value as int, x as int);
            assert(q < x) by (nonlinear_arith)
                requires
                    value == x * q + value % x,
                    0 <= value % x,
                    x * x > value,
                    x > 0,
            ;
        }
        lemma_floor_sqrt_is(x as int, value as int);
    }
    x
}

} // verus!
