use vstd::prelude::*;
use vstd::arithmetic::div_mod::lemma_fundamental_div_mod;
use crate::error::AmmError;
use crate::math::{checked_mul_div, floor_sqrt, integer_sqrt, is_floor_sqrt};

verus! {

/// The smaller of two integers.
pub open spec fn min_int(x: int, y: int) -> int {
    if x <= y {
        x
    } else {
        y
    }
}

/// What `compute_mint_amount` returns: the geometric mean of the deposit on an empty pool,
/// otherwise the smaller of the two proportional shares.
pub open spec fn mint_amount_result(
    amount_a: u64,
    amount_b: u64,
    reserve_a: u64,
    reserve_b: u64,
    lp_supply: u64,
) -> Result<u64, AmmError> {
    if lp_supply == 0 {
        let lp = floor_sqrt(((amount_a as int) * (amount_b as int)) as nat);
        if lp == 0 {
            Err(AmmError::ZeroLiquidity)
        } else {
            Ok(lp as u64)
        }
    } else if reserve_a == 0 || reserve_b == 0 {
        Err(AmmError::MathOverflow)
    } else {
        let lp = min_int(
            (amount_a as int) * (lp_supply as int) / (reserve_a as int),
            (amount_b as int) * (lp_supply as int) / (reserve_b as int),
        );
        if lp > u64::MAX {
            Err(AmmError::MathOverflow)
        } else {
            Ok(lp as u64)
        }
    }
}

/// What `compute_withdraw_amounts` returns: the share of each reserve that `lp_amount`
/// of `lp_supply` stands for, rounded down.
pub open spec fn withdraw_result(lp_amount: u64, reserve_a: u64, reserve_b: u64, lp_supply: u64) -> Result<
    (u64, u64),
    AmmError,
> {
    if lp_amount == 0 {
        Err(AmmError::ZeroLiquidity)
    } else if lp_supply == 0 || lp_amount > lp_supply {
        Err(AmmError::InsufficientLiquidity)
    } else {
        let a = (lp_amount as int) * (reserve_a as int) / (lp_supply as int);
        let b = (lp_amount as int) * (reserve_b as int) / (lp_supply as int);
        if a == 0 || b == 0 {
            Err(AmmError::InsufficientLiquidity)
        } else {
            Ok((a as u64, b as u64))
        }
    }
}

/// `x * part / whole <= x` when `part <= whole`.
proof fn lemma_share_at_most(part: int, x: int, whole: int)
    requires
        0 <= part <= whole,
        0 < whole,
        0 <= x,
    ensures
        0 <= part * x / whole <= x,
{
    let p = part * x;
    lemma_fundamental_div_mod(p, whole);
    assert(0 <= p && p < (x + 1) * whole) by (nonlinear_arith)
        requires
            p == part * x,
            0 <= part <= whole,
            0 < whole,
            0 <= x,
    ;
    assert(0 <= p / whole <= x) by (nonlinear_arith)
        requires
            p == whole * (p / whole) + p % whole,
            0 <= p % whole < whole,
            0 <= p,
            p < (x + 1) * whole,
            0 < whole,
    ;
}

/// The LP tokens to mint for a deposit of `amount_a` and `amount_b` into a pool with the
/// given reserves and LP supply.
pub fn compute_mint_amount(
    amount_a: u64,
    amount_b: u64,
    reserve_a: u64,
    reserve_b: u64,
    lp_supply: u64,
) -> (r: Result<u64, AmmError>)
    ensures
        r == mint_amount_result(amount_a, amount_b, reserve_a, reserve_b, lp_supply),
{
    if lp_supply == 0 {
        proof {
            assert(0 <= (amount_a as int) * (amount_b as int) <= (u64::MAX as int) * (u64::MAX as int))
                by (nonlinear_arith);
        }
        let product: u128 = (amount_a as u128) * (amount_b as u128);
        let liquidity = integer_sqrt(product);
        proof {
            if liquidity > u64::MAX as u128 {
                assert(liquidity * liquidity > product) by (nonlinear_arith)
                    requires
                        liquidity > u64::MAX,
                        product <= (u64::MAX as int) * (u64::MAX as int),
                ;
            }
        }
        let lp = liquidity as u64;
        if lp == 0 {
            return Err(AmmError::ZeroLiquidity);
        }
        return Ok(lp);
    }
    if reserve_a == 0 || reserve_b == 0 {
        return Err(AmmError::MathOverflow);
    }
    proof {
        assert(0 <= (amount_a as int) * (lp_supply as int) <= (u64::MAX as int) * (u64::MAX as int))
            by (nonlinear_arith);
        assert(0 <= (amount_b as int) * (lp_supply as int) <= (u64::MAX as int) * (u64::MAX as int))
            by (nonlinear_arith);
    }
    let lp_a: u128 = (amount_a as u128) * (lp_supply as u128) / (reserve_a as u128);
    let lp_b: u128 = (amount_b as u128) * (lp_supply as u128) / (reserve_b as u128);
    let lp: u128 = if lp_a <= lp_b {
        lp_a
    } else {
        lp_b
    };
    if lp > u64::MAX as u128 {
        Err(AmmError::MathOverflow)
    } else {
        Ok(lp as u64)
    }
}

/// The amounts of each asset that redeeming `lp_amount` LP tokens pays out.
pub fn compute_withdraw_amounts(lp_amount: u64, reserve_a: u64, reserve_b: u64, lp_supply: u64) -> (r:
    Result<(u64, u64), AmmError>)
    ensures
        r == withdraw_result(lp_amount, reserve_a, reserve_b, lp_supply),
        r is Ok ==> 0 < r->Ok_0.0 <= reserve_a && 0 < r->Ok_0.1 <= reserve_b,
{
    if lp_amount == 0 {
        return Err(AmmError::ZeroLiquidity);
    }
    if lp_supply == 0 || lp_amount > lp_supply {
        return Err(AmmError::InsufficientLiquidity);
    }
    proof {
        lemma_share_at_most(lp_amount as int, reserve_a as int, lp_supply as int);
        lemma_share_at_most(lp_amount as int, reserve_b as int, lp_supply as int);
    }
    let amount_a = match checked_mul_div(lp_amount, reserve_a, lp_supply) {
        Ok(v) => v,
        Err(e) => return Err(e),
    };
    let amount_b = match checked_mul_div(lp_amount, reserve_b, lp_supply) {
        Ok(v) => v,
        Err(e) => return Err(e),
    };
    if amount_a == 0 || amount_b == 0 {
        return Err(AmmError::InsufficientLiquidity);
    }
    Ok((amount_a, amount_b))
}

/// The floor square root of the product of two 64-bit amounts fits in 64 bits.
pub proof fn lemma_root_of_product_fits(amount_a: u64, amount_b: u64)
    ensures
        is_floor_sqrt(floor_sqrt(((amount_a as int) * (amount_b as int)) as nat) as int, (amount_a as int) * (amount_b as int)),
        floor_sqrt(((amount_a as int) * (amount_b as int)) as nat) <= u64::MAX,
{
    let a = amount_a as int;
    let b = amount_b as int;
    let v = a * b;
    assert(0 <= v <= (u64::MAX as int) * (u64::MAX as int)) by (nonlinear_arith)
        requires
            v == a * b,
            0 <= a <= u64::MAX,
            0 <= b <= u64::MAX,
    ;
    crate::math::lemma_floor_sqrt_exists(v);
    let r = floor_sqrt(v as nat) as int;
    if r > u64::MAX {
        assert(r * r > v) by (nonlinear_arith)
            requires
                r > u64::MAX,
                v <= (u64::MAX as int) * (u64::MAX as int),
        ;
    }
}

/// On an empty pool the LP tokens minted are the floor square root of the product of the
/// two amounts, whatever the reserves say.
pub proof fn lemma_bootstrap_mint_is_sqrt(
    amount_a: u64,
    amount_b: u64,
    reserve_a: u64,
    reserve_b: u64,
    other_reserve_a: u64,
    other_reserve_b: u64,
)
    ensures
        mint_amount_result(amount_a, amount_b, reserve_a, reserve_b, 0) == mint_amount_result(
            amount_a,
            amount_b,
            other_reserve_a,
            other_reserve_b,
            0,
        ),
        mint_amount_result(amount_a, amount_b, reserve_a, reserve_b, 0) is Ok ==> mint_amount_result(
            amount_a,
            amount_b,
            reserve_a,
            reserve_b,
            0,
        )->Ok_0 == floor_sqrt(((amount_a as int) * (amount_b as int)) as nat),
{
    lemma_root_of_product_fits(amount_a, amount_b);
}

/// Depositing `amount_a` and `amount_b`, then at once redeeming the LP tokens that the
/// deposit minted, returns no more of either asset than was put in. This holds on a pool
/// with LP supply, and on a fresh pool whose reserves are empty, where exactly the
/// deposit comes back.
pub proof fn lemma_deposit_withdraw_round_trip(
    amount_a: u64,
    amount_b: u64,
    reserve_a: u64,
    reserve_b: u64,
    lp_supply: u64,
)
    requires
        mint_amount_result(amount_a, amount_b, reserve_a, reserve_b, lp_supply) is Ok,
        lp_supply == 0 ==> reserve_a == 0 && reserve_b == 0,
        reserve_a + amount_a <= u64::MAX,
        reserve_b + amount_b <= u64::MAX,
        lp_supply + mint_amount_result(amount_a, amount_b, reserve_a, reserve_b, lp_supply)->Ok_0
            <= u64::MAX,
    ensures
        ({
            let lp = mint_amount_result(amount_a, amount_b, reserve_a, reserve_b, lp_supply)->Ok_0;
            let back = withdraw_result(
                lp,
                (reserve_a + amount_a) as u64,
                (reserve_b + amount_b) as u64,
                (lp_supply + lp) as u64,
            );
            (back is Ok ==> back->Ok_0.0 <= amount_a && back->Ok_0.1 <= amount_b) && (lp_supply
                == 0 ==> back == Ok::<(u64, u64), AmmError>((amount_a, amount_b)))
        }),
{
    let lp = mint_amount_result(amount_a, amount_b, reserve_a, reserve_b, lp_supply)->Ok_0 as int;
    let a = amount_a as int;
    let b = amount_b as int;
    let ra = reserve_a as int;
    let rb = reserve_b as int;
    let s = lp_supply as int;
    if s == 0 {
        let v = a * b;
        lemma_root_of_product_fits(amount_a, amount_b);
        assert(lp > 0);
        assert(a > 0 && b > 0) by (nonlinear_arith)
            requires
                lp * lp <= v,
                lp > 0,
                v == a * b,
                a >= 0,
                b >= 0,
        ;
        assert(lp * a / lp == a) by (nonlinear_arith)
            requires
                lp > 0,
        ;
        assert(lp * b / lp == b) by (nonlinear_arith)
            requires
                lp > 0,
        ;
    } else {
        let qa = a * s / ra;
        let qb = b * s / rb;
        lemma_fundamental_div_mod(a * s, ra);
        lemma_fundamental_div_mod(b * s, rb);
        assert(lp * ra <= a * s) by (nonlinear_arith)
            requires
                lp <= qa,
                a * s == ra * qa + (a * s) % ra,
                0 <= (a * s) % ra,
                ra > 0,
        ;
        assert(lp * rb <= b * s) by (nonlinear_arith)
            requires
                lp <= qb,
                b * s == rb * qb + (b * s) % rb,
                0 <= (b * s) % rb,
                rb > 0,
        ;
        let total = s + lp;
        let xa = lp * (ra + a);
        let xb = lp * (rb + b);
        assert(0 <= xa < (a + 1) * total) by (nonlinear_arith)
            requires
                xa == lp * (ra + a),
                lp * ra <= a * s,
                total == s + lp,
                0 <= lp,
                0 <= ra,
                0 <= a,
                s > 0,
        ;
        assert(0 <= xb < (b + 1) * total) by (nonlinear_arith)
            requires
                xb == lp * (rb + b),
                lp * rb <= b * s,
                total == s + lp,
                0 <= lp,
                0 <= rb,
                0 <= b,
                s > 0,
        ;
        crate::math::lemma_div_below(xa, total, a + 1);
        crate::math::lemma_div_below(xb, total, b + 1);
    }
}

} // verus!
