use vstd::prelude::*;
use vstd::arithmetic::div_mod::{
    lemma_div_denominator, lemma_div_is_ordered, lemma_fundamental_div_mod,
    lemma_fundamental_div_mod_converse,
};
use vstd::arithmetic::mul::lemma_mul_inequality;
use crate::constants::{PERCENTAGE_PRECISION, SHARE_DECIMALS};
use crate::error::ErrorCode;
use vstd::arithmetic::power2::{lemma2_to64, lemma2_to64_rest, lemma_pow2_pos, lemma_pow2_unfold, pow2};

verus! {

/// `floor(x * y / d)` over the integers.
pub open spec fn mul_div(x: int, y: int, d: int) -> int {
    (x * y) / d
}

proof fn lemma_quotient_at_least(a: int, d: int, q: int)
    requires
        d > 0,
        a >= q * d,
        q >= 0,
    ensures
        a / d >= q,
{
    lemma_div_is_ordered(q * d, a, d);
    vstd::arithmetic::div_mod::lemma_div_by_multiple(q, d);
}

/// `floor(x * y / d)`, computed exactly without a wider integer type;
/// `None` where the quotient does not fit in a `u128`.
pub fn checked_mul_div(x: u128, y: u64, d: u128) -> (r: Option<u128>)
    requires
        d > 0,
    ensures
        r matches Some(q) ==> q == mul_div(x as int, y as int, d as int),
        r is None <==> mul_div(x as int, y as int, d as int) > u128::MAX,
{
    let xq: u128 = x / d;
    let xr: u128 = x % d;
    proof {
        lemma_fundamental_div_mod(x as int, d as int);
        assert(x == xq * d + xr) by (nonlinear_arith)
            requires x == d * xq + xr;
        lemma2_to64();
        lemma2_to64_rest();
    }
    // Long multiplication over the bits of `y`, most significant first:
    // `p` is the part of `y` read so far, and `p * x == q * d + r`.
    let mut pow: u64 = 0x8000_0000_0000_0000;
    let ghost mut k: nat = 63;
    let mut p: u64 = 0;
    let mut q: u128 = 0;
    let mut r: u128 = 0;
    proof {
        assert(pow2(64) == 0x1_0000_0000_0000_0000);
        assert(y as int / pow2(64) as int == 0);
    }
    loop
        invariant
            d > 0,
            x == xq * d + xr,
            xr < d,
            k <= 63,
            pow as int == pow2(k),
            p as int == y as int / pow2(k + 1) as int,
            p * x == q * d + r,
            r < d,
        decreases k,
    {
        let ghost p_old = p as int;
        let ghost q_old = q as int;
        let ghost r_old = r as int;
        proof {
            lemma_pow2_pos(k);
        }
        let p_new: u64 = y / pow;
        proof {
            lemma_pow2_unfold(k + 1);
            lemma_div_denominator(y as int, pow as int, 2);
            assert(p_old == (p_new as int) / 2);
            lemma_fundamental_div_mod(p_new as int, 2);
            lemma_div_is_ordered(pow as int, pow as int * 1, pow as int);
        }
        let bit: u64 = p_new % 2;
        // p_new * x == 2 * (q * d + r) + bit * x
        let carry: u128;
        if r >= d - r {
            r = r - (d - r);
            carry = 1;
        } else {
            r = r + r;
            carry = 0;
        }
        let ghost q_doubled = 2 * q_old + carry;
        proof {
            assert(2 * p_old * x == 2 * (q_old * d) + 2 * r_old) by (nonlinear_arith)
                requires p_old * x == q_old * d + r_old;
            assert(2 * p_old * x == q_doubled * d + r) by (nonlinear_arith)
                requires
                    2 * p_old * x == 2 * (q_old * d) + 2 * r_old,
                    q_doubled == 2 * q_old + carry,
                    2 * r_old == carry * d + r;
        }
        let q2: u128 = if q <= (u128::MAX - carry) / 2 {
            2 * q + carry
        } else {
            proof {
                assert(p_new as int * x >= q_doubled * d) by (nonlinear_arith)
                    requires
                        p_new == 2 * p_old + bit,
                        2 * p_old * x == q_doubled * d + r,
                        r >= 0,
                        x >= 0,
                        bit >= 0;
                lemma_quotient_at_least(p_new as int * x, d as int, q_doubled);
                assert(p_new <= y) by {
                    vstd::arithmetic::div_mod::lemma_div_is_ordered_by_denominator(
                        y as int, 1, pow as int);
                }
                lemma_mul_inequality(p_new as int, y as int, x as int);
                lemma_div_is_ordered(p_new as int * x, y as int * x, d as int);
                assert(x * y == y * x) by (nonlinear_arith);
            }
            return None;
        };
        q = q2;
        let ghost r_mid = r as int;
        if bit == 1 {
            let extra: u128;
            if r >= d - xr {
                r = r - (d - xr);
                extra = 1;
            } else {
                r = r + xr;
                extra = 0;
            }
            let ghost q_sum = q2 as int + xq + extra;
            proof {
                assert(p_new as int * x == q_sum * d + r) by (nonlinear_arith)
                    requires
                        p_new == 2 * p_old + 1,
                        2 * p_old * x == q2 * d + r_mid,
                        r_mid + xr == extra * d + r,
                        x == xq * d + xr,
                        q_sum == q2 + xq + extra;
            }
            if q <= u128::MAX - xq - extra {
                q = q + xq + extra;
            } else {
                proof {
                    lemma_quotient_at_least(p_new as int * x, d as int, q_sum);
                    assert(p_new <= y) by {
                        vstd::arithmetic::div_mod::lemma_div_is_ordered_by_denominator(
                            y as int, 1, pow as int);
                    }
                    lemma_mul_inequality(p_new as int, y as int, x as int);
                    lemma_div_is_ordered(p_new as int * x, y as int * x, d as int);
                    assert(x * y == y * x) by (nonlinear_arith);
                }
                return None;
            }
        } else {
            proof {
                assert(p_new as int * x == q * d + r) by (nonlinear_arith)
                    requires
                        p_new == 2 * p_old,
                        2 * p_old * x == q * d + r;
            }
        }
        p = p_new;
        if pow == 1 {
            proof {
                assert(p == y);
                assert(x * y == y * x) by (nonlinear_arith);
                lemma_fundamental_div_mod_converse(y as int * x, d as int, q as int, r as int);
            }
            return Some(q);
        }
        proof {
            lemma2_to64();
            assert(k > 0);
            lemma_pow2_unfold(k);
        }
        pow = pow / 2;
        proof {
            k = (k - 1) as nat;
        }
    }
}

/// `10^n`.
pub open spec fn pow10(n: nat) -> nat
    decreases n,
{
    if n == 0 {
        1
    } else {
        10 * pow10((n - 1) as nat)
    }
}

/// Shares per asset unit in a pool with no shares yet: price per share 1,
/// the asset's `asset_decimals` decimals scaled to the 18 of a share.
pub open spec fn bootstrap_scale(asset_decimals: u32) -> nat {
    pow10((SHARE_DECIMALS - asset_decimals) as nat)
}

/// Shares that `amount` of the asset buys in a pool of `total_shares`
/// shares worth `equity`: proportional and rounded down, or, in a pool
/// with no shares yet, the amount scaled from the asset's decimals to 18.
pub open spec fn shares_for_amount(
    amount: int,
    total_shares: int,
    equity: int,
    asset_decimals: u32,
) -> int {
    if total_shares == 0 {
        amount * bootstrap_scale(asset_decimals)
    } else {
        mul_div(amount, total_shares, equity)
    }
}

/// What `calculate_amount_to_shares` returns.
pub open spec fn amount_to_shares_result(
    amount: u64,
    total_shares: u128,
    equity: u64,
    asset_decimals: u32,
) -> Result<u128, ErrorCode> {
    if asset_decimals > SHARE_DECIMALS {
        Err(ErrorCode::MathError)
    } else if total_shares > 0 && equity == 0 {
        Err(ErrorCode::InvalidEquityValue)
    } else if shares_for_amount(amount as int, total_shares as int, equity as int, asset_decimals)
        > u128::MAX {
        Err(ErrorCode::MathError)
    } else {
        Ok(
            shares_for_amount(
                amount as int,
                total_shares as int,
                equity as int,
                asset_decimals,
            ) as u128,
        )
    }
}

/// Asset value of `shares` out of `total_shares` shares worth `equity`,
/// rounded down; nothing where there are no shares.
pub open spec fn amount_for_shares(shares: int, total_shares: int, equity: int) -> int {
    if total_shares == 0 {
        0
    } else {
        mul_div(shares, equity, total_shares)
    }
}

/// Management fee on `amount` at `fee` parts per million, rounded up.
pub open spec fn management_fee_of(amount: int, fee: int) -> int {
    (amount * fee + (PERCENTAGE_PRECISION - 1)) / (PERCENTAGE_PRECISION as int)
}

/// Profit share on a withdrawal of `amount` out of a position worth
/// `total_value` with `net_deposits` paid in: `profit_share` parts per
/// million of the gain, scaled to the part of the position withdrawn.
/// Nothing is charged on a position that is not in gain.
pub open spec fn profit_share_of(
    total_value: int,
    net_deposits: int,
    profit_share: int,
    amount: int,
) -> int {
    if total_value <= net_deposits {
        0
    } else {
        (((total_value - net_deposits) * profit_share) / (PERCENTAGE_PRECISION as int)) * amount
            / total_value
    }
}

/// The management fee never exceeds the amount, at fees up to 100%.
pub proof fn lemma_management_fee_at_most_amount(amount: int, fee: int)
    requires
        amount >= 0,
        0 <= fee <= PERCENTAGE_PRECISION,
    ensures
        0 <= management_fee_of(amount, fee) <= amount,
{
    assert(amount * fee <= amount * PERCENTAGE_PRECISION) by (nonlinear_arith)
        requires
            0 <= fee <= PERCENTAGE_PRECISION,
            amount >= 0,
    ;
    assert(0 <= (amount * fee + (PERCENTAGE_PRECISION - 1)) / (PERCENTAGE_PRECISION as int)
        <= amount) by (nonlinear_arith)
        requires
            amount * fee <= amount * PERCENTAGE_PRECISION,
            amount * fee >= 0,
    ;
}

/// The profit share on a withdrawal never exceeds the amount withdrawn,
/// at profit shares up to 100%.
pub proof fn lemma_profit_share_at_most_amount(
    total_value: int,
    net_deposits: int,
    profit_share: int,
    amount: int,
)
    requires
        net_deposits >= 0,
        0 <= profit_share <= PERCENTAGE_PRECISION,
        0 <= amount <= total_value,
    ensures
        0 <= profit_share_of(total_value, net_deposits, profit_share, amount) <= amount,
{
    if total_value > net_deposits {
        let gain = total_value - net_deposits;
        let cut = (gain * profit_share) / (PERCENTAGE_PRECISION as int);
        assert(0 <= cut <= gain) by (nonlinear_arith)
            requires
                gain > 0,
                0 <= profit_share <= PERCENTAGE_PRECISION,
                cut == (gain * profit_share) / (PERCENTAGE_PRECISION as int),
        {
            assert(gain * profit_share <= gain * PERCENTAGE_PRECISION);
        }
        assert(0 <= cut * amount / total_value <= amount) by (nonlinear_arith)
            requires
                0 <= cut <= total_value,
                0 <= amount,
                total_value > 0,
        {
            assert(cut * amount <= total_value * amount);
            vstd::arithmetic::div_mod::lemma_multiply_divide_le(
                cut * amount,
                total_value,
                amount,
            );
        }
    }
}

/// More shares are worth no less, and no part of the shares is worth more
/// than the equity.
pub proof fn lemma_amount_for_shares_monotone(s1: int, s2: int, total_shares: int, equity: int)
    requires
        0 <= s1 <= s2 <= total_shares,
        equity >= 0,
    ensures
        0 <= amount_for_shares(s1, total_shares, equity) <= amount_for_shares(
            s2,
            total_shares,
            equity,
        ),
        amount_for_shares(s2, total_shares, equity) <= equity,
{
    if total_shares > 0 {
        lemma_mul_inequality(s1, s2, equity);
        lemma_mul_inequality(s2, total_shares, equity);
        lemma_div_is_ordered(s1 * equity, s2 * equity, total_shares);
        lemma_div_is_ordered(0, s1 * equity, total_shares);
        vstd::arithmetic::div_mod::lemma_multiply_divide_le(s2 * equity, total_shares, equity);
        assert(total_shares * equity == equity * total_shares) by (nonlinear_arith);
        assert(0 * equity == 0);
    }
}

/// `10^(18 - asset_decimals)`: shares per asset unit in an empty pool.
fn bootstrap_shares_per_unit(asset_decimals: u32) -> (r: u128)
    requires
        asset_decimals <= SHARE_DECIMALS,
    ensures
        r == bootstrap_scale(asset_decimals),
        r <= 1_000_000_000_000_000_000,
{
    proof {
        lemma_pow10_18_bound((SHARE_DECIMALS - asset_decimals) as nat);
    }
    let mut r: u128 = 1;
    let mut i: u32 = asset_decimals;
    while i < SHARE_DECIMALS
        invariant
            asset_decimals <= i <= SHARE_DECIMALS,
            r == pow10((i - asset_decimals) as nat),
            r * pow10((SHARE_DECIMALS - i) as nat) == pow10(
                (SHARE_DECIMALS - asset_decimals) as nat,
            ),
            pow10((SHARE_DECIMALS - asset_decimals) as nat) <= 1_000_000_000_000_000_000,
        decreases SHARE_DECIMALS - i,
    {
        proof {
            let k = (SHARE_DECIMALS - i) as nat;
            assert(pow10(k) == 10 * pow10((k - 1) as nat));
            assert(pow10((i + 1 - asset_decimals) as nat) == 10 * pow10(
                (i - asset_decimals) as nat,
            ));
            lemma_pow10_pos((k - 1) as nat);
            assert(r * 10 <= 1_000_000_000_000_000_000) by (nonlinear_arith)
                requires
                    r * (10 * pow10((k - 1) as nat)) <= 1_000_000_000_000_000_000,
                    pow10((k - 1) as nat) >= 1,
                    r >= 0,
            ;
            assert(r * pow10(k) == (r * 10) * pow10((k - 1) as nat)) by (nonlinear_arith)
                requires
                    pow10(k) == 10 * pow10((k - 1) as nat),
            ;
        }
        r = r * 10;
        i = i + 1;
    }
    proof {
        assert(pow10(0) == 1);
    }
    r
}

proof fn lemma_pow10_pos(n: nat)
    ensures
        pow10(n) >= 1,
    decreases n,
{
    if n > 0 {
        lemma_pow10_pos((n - 1) as nat);
    }
}

proof fn lemma_pow10_18_bound(n: nat)
    requires
        n <= 18,
    ensures
        pow10(n) <= 1_000_000_000_000_000_000,
    decreases 18 - n,
{
    if n < 18 {
        lemma_pow10_18_bound(n + 1);
        lemma_pow10_pos(n);
    } else {
        reveal_with_fuel(pow10, 19);
    }
}

/// Converts an amount of the asset to shares at the given equity (see
/// `shares_for_amount`). Fails where the pool has shares but no equity,
/// where the shares do not fit in a `u128`, or where the asset has more
/// decimals than a share.
pub fn calculate_amount_to_shares(
    amount: u64,
    total_vault_shares: u128,
    total_value_locked: u64,
    asset_decimals: u32,
) -> (r: Result<u128, ErrorCode>)
    ensures
        r == amount_to_shares_result(
            amount,
            total_vault_shares,
            total_value_locked,
            asset_decimals,
        ),
{
    if asset_decimals > SHARE_DECIMALS {
        Err(ErrorCode::MathError)
    } else if total_vault_shares == 0 {
        proof {
            lemma_pow10_18_bound((SHARE_DECIMALS - asset_decimals) as nat);
        }
        let scale = bootstrap_shares_per_unit(asset_decimals);
        proof {
            assert(amount * scale <= u64::MAX * 1_000_000_000_000_000_000) by (nonlinear_arith)
                requires
                    scale <= 1_000_000_000_000_000_000,
                    amount <= u64::MAX,
                    scale >= 0,
                    amount >= 0,
            ;
        }
        Ok(amount as u128 * scale)
    } else if total_value_locked == 0 {
        Err(ErrorCode::InvalidEquityValue)
    } else {
        match checked_mul_div(total_vault_shares, amount, total_value_locked as u128) {
            Some(shares) => {
                proof {
                    assert(total_vault_shares * amount == amount * total_vault_shares)
                        by (nonlinear_arith);
                }
                Ok(shares)
            },
            None => {
                proof {
                    assert(total_vault_shares * amount == amount * total_vault_shares)
                        by (nonlinear_arith);
                }
                Err(ErrorCode::MathError)
            },
        }
    }
}

} // verus!
