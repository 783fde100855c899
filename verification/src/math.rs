//! Pricing and share arithmetic: the integer square root and the
//! constant-product quote with fee.

use crate::swap::SwapContract;
use crate::types::ContractError;
use vstd::prelude::*;

verus! {

/// `root` is the floor of the square root of `y`.
pub open spec fn is_floor_sqrt(root: int, y: int) -> bool {
    0 <= root && root * root <= y < (root + 1) * (root + 1)
}

/// The floor of the square root of `y`, for `y >= 0`.
pub open spec fn floor_sqrt(y: int) -> int {
    choose|root: int| is_floor_sqrt(root, y)
}

/// Every natural number has a floor square root.
pub proof fn lemma_floor_sqrt_exists(y: int)
    requires
        0 <= y,
    ensures
        is_floor_sqrt(floor_sqrt(y), y),
    decreases y,
{
    if y == 0 {
        assert(is_floor_sqrt(0, 0));
    } else {
        lemma_floor_sqrt_exists(y - 1);
        let r = floor_sqrt(y - 1);
        if (r + 1) * (r + 1) <= y {
            assert((r + 1) * (r + 1) == y) by (nonlinear_arith)
                requires
                    (r + 1) * (r + 1) <= y,
                    y - 1 < (r + 1) * (r + 1),
            ;
            assert(y < (r + 2) * (r + 2)) by (nonlinear_arith)
                requires
                    (r + 1) * (r + 1) == y,
                    0 <= r,
            ;
            assert(is_floor_sqrt(r + 1, y));
        } else {
            assert(is_floor_sqrt(r, y));
        }
    }
}

/// The floor square root is unique.
pub proof fn lemma_floor_sqrt_unique(root: int, y: int)
    requires
        is_floor_sqrt(root, y),
    ensures
        root == floor_sqrt(y),
{
    let other = floor_sqrt(y);
    assert(is_floor_sqrt(other, y));
    assert(root == other) by (nonlinear_arith)
        requires
            0 <= root,
            0 <= other,
            root * root <= y < (root + 1) * (root + 1),
            other * other <= y < (other + 1) * (other + 1),
    ;
}

/// `v` can be held in a signed 128-bit integer.
pub open spec fn fits_i128(v: int) -> bool {
    i128::MIN <= v <= i128::MAX
}

/// The quotient of `n` by `d` rounded toward zero, for `d != 0`.
pub open spec fn trunc_div(n: int, d: int) -> int {
    if n >= 0 && d > 0 {
        n / d
    } else if n < 0 && d < 0 {
        (-n) / (-d)
    } else if n < 0 {
        -((-n) / d)
    } else {
        -(n / (-d))
    }
}

/// The constant-product quote: what `amount_in` buys from a pool that holds
/// `reserve_in` and `reserve_out`, after a fee of `fee_bps` basis points is
/// taken from the input.
pub open spec fn amount_out(amount_in: int, reserve_in: int, reserve_out: int, fee_bps: int) -> int {
    let amount_in_with_fee = amount_in * (10000 - fee_bps);
    trunc_div(amount_in_with_fee * reserve_out, reserve_in * 10000 + amount_in_with_fee)
}

/// The quote as the machine computes it: every intermediate value is held in
/// a signed 128-bit integer, and the quote fails where one does not fit or
/// where the denominator is zero.
pub open spec fn amount_out_result(
    amount_in: int,
    reserve_in: int,
    reserve_out: int,
    fee_bps: int,
) -> Result<i128, ContractError> {
    let amount_in_with_fee = amount_in * (10000 - fee_bps);
    let numerator = amount_in_with_fee * reserve_out;
    let denominator = reserve_in * 10000 + amount_in_with_fee;
    if fee_bps > 10000 || !fits_i128(amount_in_with_fee) || !fits_i128(numerator) || !fits_i128(
        reserve_in * 10000,
    ) || !fits_i128(denominator) {
        Err(ContractError::ArithmeticOverflow)
    } else if denominator == 0 {
        Err(ContractError::DivisionByZero)
    } else if !fits_i128(trunc_div(numerator, denominator)) {
        Err(ContractError::ArithmeticOverflow)
    } else {
        Ok(trunc_div(numerator, denominator) as i128)
    }
}

/// A quote on a funded pool pays out less than the whole output reserve, and
/// the product of the reserves does not fall: the fee stays in the pool and
/// the division rounds in the pool's favour.
pub proof fn lemma_amount_out_bounds(amount_in: int, reserve_in: int, reserve_out: int, fee_bps: int)
    requires
        0 < amount_in,
        0 < reserve_in,
        0 < reserve_out,
        0 <= fee_bps <= 10000,
    ensures
        0 <= amount_out(amount_in, reserve_in, reserve_out, fee_bps) < reserve_out,
        (reserve_in + amount_in) * (reserve_out - amount_out(
            amount_in,
            reserve_in,
            reserve_out,
            fee_bps,
        )) >= reserve_in * reserve_out,
{
    let f = 10000 - fee_bps;
    let x = amount_in * f;
    let n = x * reserve_out;
    let d = reserve_in * 10000 + x;
    let out = amount_out(amount_in, reserve_in, reserve_out, fee_bps);
    assert(x >= 0) by (nonlinear_arith)
        requires
            x == amount_in * f,
            amount_in > 0,
            f >= 0,
    ;
    assert(n >= 0) by (nonlinear_arith)
        requires
            n == x * reserve_out,
            x >= 0,
            reserve_out > 0,
    ;
    assert(d > 0);
    assert(out == n / d);
    assert(0 <= out && out * d <= n) by (nonlinear_arith)
        requires
            out == n / d,
            n >= 0,
            d > 0,
    ;
    assert(out < reserve_out) by (nonlinear_arith)
        requires
            out * d <= n,
            n == x * reserve_out,
            d == reserve_in * 10000 + x,
            x >= 0,
            reserve_in > 0,
            reserve_out > 0,
            out >= 0,
    ;
    // out * (reserve_in + amount_in) * f <= out * d <= amount_in * f * reserve_out
    let lhs = out * (reserve_in + amount_in);
    let rhs = amount_in * reserve_out;
    assert(lhs * f <= out * d) by (nonlinear_arith)
        requires
            lhs == out * (reserve_in + amount_in),
            d == reserve_in * 10000 + x,
            x == amount_in * f,
            0 <= f <= 10000,
            out >= 0,
            reserve_in > 0,
    ;
    assert(n == rhs * f) by (nonlinear_arith)
        requires
            n == x * reserve_out,
            x == amount_in * f,
            rhs == amount_in * reserve_out,
    ;
    if f == 0 {
        assert(n == 0) by (nonlinear_arith)
            requires
                n == rhs * f,
                f == 0,
        ;
        assert(out == 0);
        assert(lhs == 0) by (nonlinear_arith)
            requires
                lhs == out * (reserve_in + amount_in),
                out == 0,
        ;
        assert(rhs >= 0) by (nonlinear_arith)
            requires
                rhs == amount_in * reserve_out,
                amount_in > 0,
                reserve_out > 0,
        ;
    } else {
        assert(lhs <= rhs) by (nonlinear_arith)
            requires
                lhs * f <= rhs * f,
                f > 0,
        ;
    }
    assert((reserve_in + amount_in) * (reserve_out - out) == reserve_in * reserve_out + rhs - lhs)
        by (nonlinear_arith)
        requires
            lhs == out * (reserve_in + amount_in),
            rhs == amount_in * reserve_out,
    ;
}

/// Redeeming `shares` out of `total` against `reserve` never pays more than
/// the reserve holds, nor more than the part of the reserve that the shares
/// are of the total. It leaves a funded reserve funded unless all shares are
/// redeemed, and then it pays the whole reserve.
pub proof fn lemma_redeem_bounds(shares: int, reserve: int, total: int)
    requires
        0 < shares <= total,
        0 <= reserve,
    ensures
        0 <= shares * reserve / total <= reserve,
        (shares * reserve / total) * total <= shares * reserve,
        shares < total && reserve > 0 ==> shares * reserve / total < reserve,
        shares == total ==> shares * reserve / total == reserve,
{
    let n = shares * reserve;
    let q = n / total;
    assert(0 <= n <= total * reserve) by (nonlinear_arith)
        requires
            n == shares * reserve,
            0 < shares <= total,
            0 <= reserve,
    ;
    assert(0 <= q && q * total <= n < (q + 1) * total) by (nonlinear_arith)
        requires
            q == n / total,
            0 <= n,
            0 < total,
    ;
    assert(q <= reserve) by (nonlinear_arith)
        requires
            q * total <= n,
            n <= total * reserve,
            0 < total,
    ;
    if shares < total && reserve > 0 {
        assert(n < total * reserve) by (nonlinear_arith)
            requires
                n == shares * reserve,
                0 < shares < total,
                0 < reserve,
        ;
        assert(q < reserve) by (nonlinear_arith)
            requires
                q * total <= n,
                n < total * reserve,
                0 < total,
        ;
    }
    if shares == total {
        assert(q == reserve) by (nonlinear_arith)
            requires
                q * total <= n < (q + 1) * total,
                n == total * reserve,
                0 < total,
        ;
    }
}

/// Shares minted in proportion to a deposit of `amount` redeem, right after
/// the deposit, no more than `amount`: both divisions round in the pool's
/// favour.
pub proof fn lemma_round_trip(amount: int, reserve: int, total: int, shares: int)
    requires
        0 < amount,
        0 < reserve,
        0 < total,
        0 < shares <= amount * total / reserve,
    ensures
        shares * (reserve + amount) / (total + shares) <= amount,
{
    let k = amount * total / reserve;
    assert(0 <= amount * total) by (nonlinear_arith)
        requires
            0 < amount,
            0 < total,
    ;
    assert(k * reserve <= amount * total) by (nonlinear_arith)
        requires
            k == amount * total / reserve,
            0 < reserve,
            0 <= amount * total,
    ;
    assert(shares * reserve <= k * reserve) by (nonlinear_arith)
        requires
            shares <= k,
            0 < reserve,
    ;
    let n = shares * (reserve + amount);
    let d = total + shares;
    assert(n <= amount * d) by (nonlinear_arith)
        requires
            n == shares * (reserve + amount),
            d == total + shares,
            shares * reserve <= amount * total,
    ;
    assert(n / d <= amount) by (nonlinear_arith)
        requires
            n <= amount * d,
            0 < d,
    ;
}

/// One Newton step from `z` does not fall below the floor square root of `n`.
proof fn lemma_newton_step(n: int, z: int, next: int)
    requires
        1 <= z,
        0 <= n,
        next == (n / z + z) / 2,
    ensures
        n < (next + 1) * (next + 1),
        next >= 0,
{
    let q = n / z;
    assert(0 <= q && q * z <= n < (q + 1) * z) by (nonlinear_arith)
        requires
            1 <= z,
            0 <= n,
            q == n / z,
    ;
    let s = q + 1 + z;
    assert(s * s >= 4 * ((q + 1) * z)) by (nonlinear_arith)
        requires
            s == q + 1 + z,
    ;
    let t = 2 * next + 2;
    assert(t >= s);
    assert(t * t >= s * s) by (nonlinear_arith)
        requires
            t >= s,
            s >= 0,
    ;
    assert(t * t == 4 * ((next + 1) * (next + 1))) by (nonlinear_arith)
        requires
            t == 2 * next + 2,
    ;
}

/// When a Newton step from `x` does not go down, `x` squared is at most `n`.
proof fn lemma_newton_stop(n: int, x: int)
    requires
        1 <= x,
        0 <= n,
        (n / x + x) / 2 >= x,
    ensures
        x * x <= n,
{
    let q = n / x;
    assert(q >= x);
    assert(x * x <= n) by (nonlinear_arith)
        requires
            1 <= x,
            0 <= n,
            q == n / x,
            q >= x,
    ;
}

impl SwapContract {
    /// The constant-product quote with fee, in signed 128-bit arithmetic:
    /// `amount_in * (10000 - fee_bps) * reserve_out` divided, rounding toward
    /// zero, by `reserve_in * 10000 + amount_in * (10000 - fee_bps)`.
    pub fn get_amount_out(amount_in: i128, reserve_in: i128, reserve_out: i128, fee_bps: u32) -> (r:
        Result<i128, ContractError>)
        ensures
            r == amount_out_result(
                amount_in as int,
                reserve_in as int,
                reserve_out as int,
                fee_bps as int,
            ),
    {
        if fee_bps > 10000 {
            return Err(ContractError::ArithmeticOverflow);
        }
        let fee_factor: i128 = (10000 - fee_bps) as i128;
        let amount_in_with_fee: i128 = match amount_in.checked_mul(fee_factor) {
            Some(v) => v,
            None => {
                return Err(ContractError::ArithmeticOverflow);
            },
        };
        let numerator: i128 = match amount_in_with_fee.checked_mul(reserve_out) {
            Some(v) => v,
            None => {
                return Err(ContractError::ArithmeticOverflow);
            },
        };
        let scaled_reserve: i128 = match reserve_in.checked_mul(10000) {
            Some(v) => v,
            None => {
                return Err(ContractError::ArithmeticOverflow);
            },
        };
        let denominator: i128 = match scaled_reserve.checked_add(amount_in_with_fee) {
            Some(v) => v,
            None => {
                return Err(ContractError::ArithmeticOverflow);
            },
        };
        if denominator == 0 {
            return Err(ContractError::DivisionByZero);
        }
        match numerator.checked_div(denominator) {
            Some(v) => Ok(v),
            None => Err(ContractError::ArithmeticOverflow),
        }
    }

    /// The integer square root by Newton's method, from `x = y` and
    /// `z = (y + 1) / 2`, stepping `x = z; z = (y / z + z) / 2` while `z < x`.
    pub fn sqrt(y: i128) -> (r: Result<i128, ContractError>)
        ensures
            y < 0 ==> r == Err::<i128, ContractError>(ContractError::NegativeInput),
            y >= 0 ==> r == Ok::<i128, ContractError>(floor_sqrt(y as int) as i128),
            y >= 0 ==> is_floor_sqrt(floor_sqrt(y as int), y as int) && floor_sqrt(y as int) <= y,
    {
        if y < 0 {
            return Err(ContractError::NegativeInput);
        }
        if y == 0 {
            proof {
                assert(is_floor_sqrt(0, 0));
                lemma_floor_sqrt_unique(0, 0);
            }
            return Ok(0);
        }
        let n: u128 = y as u128;
        let mut x: u128 = n;
        let mut z: u128 = (n + 1) / 2;
        proof {
            assert(n as int / n as int == 1) by (nonlinear_arith)
                requires
                    n >= 1,
            ;
            lemma_newton_step(n as int, n as int, z as int);
            assert(n < (x + 1) * (x + 1)) by (nonlinear_arith)
                requires
                    x == n,
            ;
        }
        while z < x
            invariant
                1 <= n <= i128::MAX,
                1 <= x <= n,
                z <= n,
                z == (n / x + x) / 2,
                n < (x + 1) * (x + 1),
                n < (z + 1) * (z + 1),
            decreases x,
        {
            proof {
                assert(z >= 1) by (nonlinear_arith)
                    requires
                        n < (z + 1) * (z + 1),
                        n >= 1,
                ;
                assert(n as int / z as int <= n) by (nonlinear_arith)
                    requires
                        z >= 1,
                ;
                lemma_newton_step(n as int, z as int, (n as int / z as int + z) / 2);
            }
            x = z;
            z = (n / z + z) / 2;
        }
        proof {
            lemma_newton_stop(n as int, x as int);
            assert(is_floor_sqrt(x as int, y as int));
            lemma_floor_sqrt_unique(x as int, y as int);
        }
        Ok(x as i128)
    }
}

} // verus!
