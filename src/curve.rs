//! Pure constant-product arithmetic over the reserves `x`, `y` and the share
//! supply `l`. Products are formed in 128 bits and narrowed back with the
//! rounding direction that favours the pool.
use vstd::prelude::*;
use vstd::arithmetic::div_mod::{
    lemma_div_is_ordered, lemma_div_multiples_vanish, lemma_div_pos_is_pos, lemma_fundamental_div_mod,
    lemma_mod_pos_bound, lemma_multiply_divide_le,
};
use vstd::arithmetic::mul::{lemma_mul_inequality, lemma_mul_strict_inequality};

use crate::error::AmmError;

verus! {

/// The fee is given in basis points of this denominator.
pub const BPS_DENOMINATOR: u16 = 10_000;

/// `r` is the integer square root of `n`: `r * r <= n < (r + 1) * (r + 1)`.
pub open spec fn is_isqrt(n: int, r: int) -> bool {
    0 <= r && r * r <= n && n < (r + 1) * (r + 1)
}

/// The integer square root of `n`.
pub open spec fn isqrt_spec(n: int) -> int {
    choose|r: int| is_isqrt(n, r)
}

/// A number has at most one integer square root.
pub proof fn lemma_isqrt_unique(n: int, a: int, b: int)
    requires
        is_isqrt(n, a),
        is_isqrt(n, b),
    ensures
        a == b,
{
    if a < b {
        assert((a + 1) * (a + 1) <= b * b) by (nonlinear_arith)
            requires
                0 <= a,
                a + 1 <= b,
        ;
    } else if b < a {
        assert((b + 1) * (b + 1) <= a * a) by (nonlinear_arith)
            requires
                0 <= b,
                b + 1 <= a,
        ;
    }
}

/// Every natural number has an integer square root.
pub proof fn lemma_isqrt_exists(n: int)
    requires
        n >= 0,
    ensures
        is_isqrt(n, isqrt_spec(n)),
    decreases n,
{
    if n == 0 {
        assert(is_isqrt(0, 0));
    } else {
        lemma_isqrt_exists(n - 1);
        let r = isqrt_spec(n - 1);
        if (r + 1) * (r + 1) <= n {
            assert(n < (r + 2) * (r + 2)) by (nonlinear_arith)
                requires
                    n - 1 < (r + 1) * (r + 1),
                    r >= 0,
            ;
            assert(is_isqrt(n, r + 1));
        } else {
            assert(is_isqrt(n, r));
        }
    }
}

/// The share grant of a bootstrap from two positive 64-bit amounts is a
/// positive 64-bit number.
pub proof fn lemma_initial_shares_range(x: u64, y: u64)
    requires
        x > 0,
        y > 0,
    ensures
        1 <= isqrt_spec(x * y) <= u64::MAX,
{
    let n = x * y;
    assert(1 <= n <= u64::MAX * u64::MAX) by (nonlinear_arith)
        requires
            0 < x <= u64::MAX,
            0 < y <= u64::MAX,
            n == x * y,
    ;
    lemma_isqrt_exists(n);
    let r = isqrt_spec(n);
    if r == 0 {
        assert((r + 1) * (r + 1) == 1) by (nonlinear_arith)
            requires
                r == 0,
        ;
    }
    if r > u64::MAX {
        assert(r * r > u64::MAX * u64::MAX) by (nonlinear_arith)
            requires
                r > u64::MAX,
        ;
    }
}

/// `a / b` rounded up.
pub open spec fn ceil_div(a: int, b: int) -> int {
    (a + b - 1) / b
}

/// The part of `a_in` that is priced after the fee is taken off.
pub open spec fn fee_adjusted(a_in: int, fee_bps: int) -> int {
    a_in * (10_000 - fee_bps) / 10_000
}

/// What a swap of `a_in` against reserves `(r_in, r_out)` pays out.
pub open spec fn swap_out(a_in: int, r_in: int, r_out: int, fee_bps: int) -> int {
    r_out * fee_adjusted(a_in, fee_bps) / (r_in + fee_adjusted(a_in, fee_bps))
}

/// `q = num / d` is bracketed by multiples of `d`.
pub proof fn lemma_div_bracket(num: int, d: int)
    requires
        0 <= num,
        0 < d,
    ensures
        d * (num / d) <= num,
        num < d * (num / d) + d,
        0 <= num / d,
{
    lemma_fundamental_div_mod(num, d);
    lemma_mod_pos_bound(num, d);
    lemma_div_pos_is_pos(num, d);
}

/// Rounding a positive quotient up gives at least one.
pub proof fn lemma_ceil_div_pos(a: int, b: int)
    requires
        a > 0,
        b > 0,
    ensures
        ceil_div(a, b) >= 1,
{
    lemma_div_is_ordered(b, a + b - 1, b);
    lemma_div_multiples_vanish(1, b);
}

/// `(x * k) / l` does not exceed `x` when `k <= l`.
pub proof fn lemma_scaled_floor_le(x: int, k: int, l: int)
    requires
        0 <= x,
        0 <= k <= l,
        0 < l,
    ensures
        x * k / l <= x,
        0 <= x * k / l,
{
    lemma_mul_inequality(k, l, x);
    assert(x * k <= l * x) by (nonlinear_arith)
        requires
            k * x <= l * x,
    ;
    lemma_multiply_divide_le(x * k, l, x);
    assert(0 <= x * k) by (nonlinear_arith)
        requires
            0 <= x,
            0 <= k,
    ;
    lemma_div_pos_is_pos(x * k, l);
}

/// Integer square root, rounded down.
pub fn isqrt(n: u128) -> (r: u64)
    ensures
        is_isqrt(n as int, r as int),
        r == isqrt_spec(n as int),
{
    let mut lo: u128 = 0;
    let mut hi: u128 = 0x1_0000_0000_0000_0000;
    assert(n < hi * hi) by (nonlinear_arith)
        requires
            hi == 0x1_0000_0000_0000_0000u128,
            n <= u128::MAX,
    ;
    while hi - lo > 1
        invariant
            lo < hi,
            hi <= 0x1_0000_0000_0000_0000u128,
            lo * lo <= n,
            n < hi * hi,
        decreases hi - lo,
    {
        let mid: u128 = lo + (hi - lo) / 2;
        assert(mid * mid < 0x1_0000_0000_0000_0000 * 0x1_0000_0000_0000_0000) by (nonlinear_arith)
            requires
                0 <= mid < 0x1_0000_0000_0000_0000u128,
        ;
        if mid * mid <= n {
            lo = mid;
        } else {
            hi = mid;
        }
    }
    proof {
        lemma_isqrt_unique(n as int, lo as int, isqrt_spec(n as int));
    }
    lo as u64
}

/// Share grant of the first deposit into an empty pool: the geometric mean
/// of the two amounts, rounded down.
pub fn initial_shares(x_in: u64, y_in: u64) -> (r: u64)
    ensures
        is_isqrt(x_in * y_in, r as int),
        r == isqrt_spec(x_in * y_in),
        x_in > 0 && y_in > 0 ==> r > 0,
{
    assert(x_in as int * y_in as int <= u128::MAX) by (nonlinear_arith)
        requires
            x_in <= u64::MAX,
            y_in <= u64::MAX,
            0 <= x_in,
            0 <= y_in,
    ;
    let r = isqrt(x_in as u128 * y_in as u128);
    proof {
        if x_in > 0 && y_in > 0 {
            assert(x_in * y_in >= 1) by (nonlinear_arith)
                requires
                    x_in > 0,
                    y_in > 0,
            ;
            if r == 0 {
                assert((r + 1) * (r + 1) == 1) by (nonlinear_arith)
                    requires
                        r == 0,
                ;
            }
        }
    }
    r
}

/// Amounts a depositor pays for `dl` new shares of a seeded pool, each
/// rounded up: `ceil(x * dl / l)` and `ceil(y * dl / l)`. Fails with
/// `ArithmeticOverflow` exactly when one of them does not fit in 64 bits.
pub fn deposit_amounts(x: u64, y: u64, l: u64, dl: u64) -> (r: Result<(u64, u64), AmmError>)
    requires
        l > 0,
    ensures
        match r {
            Ok((dx, dy)) => dx == ceil_div(x * dl, l as int) && dy == ceil_div(y * dl, l as int),
            Err(e) => e == AmmError::ArithmeticOverflow && (ceil_div(x * dl, l as int) > u64::MAX
                || ceil_div(y * dl, l as int) > u64::MAX),
        },
{
    let dx = ceil_scaled(x, dl, l);
    let dy = ceil_scaled(y, dl, l);
    if dx > u64::MAX as u128 || dy > u64::MAX as u128 {
        Err(AmmError::ArithmeticOverflow)
    } else {
        Ok((dx as u64, dy as u64))
    }
}

/// `ceil(v * k / l)` in 128 bits.
fn ceil_scaled(v: u64, k: u64, l: u64) -> (r: u128)
    requires
        l > 0,
    ensures
        r == ceil_div(v * k, l as int),
{
    assert(v as int * k as int <= 0xffff_ffff_ffff_fffe_0000_0000_0000_0001) by (nonlinear_arith)
        requires
            0 <= v <= u64::MAX,
            0 <= k <= u64::MAX,
    ;
    (v as u128 * k as u128 + (l as u128 - 1)) / l as u128
}

/// Amounts paid out for burning `dl` of the `l` shares, each rounded down:
/// `floor(x * dl / l)` and `floor(y * dl / l)`. They never exceed the reserves.
pub fn withdraw_amounts(x: u64, y: u64, l: u64, dl: u64) -> (r: (u64, u64))
    requires
        0 < l,
        dl <= l,
    ensures
        r.0 == x * dl / (l as int),
        r.1 == y * dl / (l as int),
        r.0 <= x,
        r.1 <= y,
{
    proof {
        lemma_scaled_floor_le(x as int, dl as int, l as int);
        lemma_scaled_floor_le(y as int, dl as int, l as int);
        assert(x as int * dl as int <= u128::MAX) by (nonlinear_arith)
            requires
                0 <= x <= u64::MAX,
                0 <= dl <= u64::MAX,
        ;
        assert(y as int * dl as int <= u128::MAX) by (nonlinear_arith)
            requires
                0 <= y <= u64::MAX,
                0 <= dl <= u64::MAX,
        ;
    }
    let dx = (x as u128 * dl as u128) / l as u128;
    let dy = (y as u128 * dl as u128) / l as u128;
    (dx as u64, dy as u64)
}

/// Output of a swap of `a_in` against reserves `(r_in, r_out)` with a fee
/// of `fee_bps` basis points: `floor(r_out * e / (r_in + e))` where
/// `e = floor(a_in * (10_000 - fee_bps) / 10_000)`. It stays below `r_out`.
pub fn swap_amount_out(a_in: u64, r_in: u64, r_out: u64, fee_bps: u16) -> (r: u64)
    requires
        fee_bps <= 10_000,
        r_in > 0,
    ensures
        r == swap_out(a_in as int, r_in as int, r_out as int, fee_bps as int),
        r_out > 0 ==> r < r_out,
        r_out == 0 ==> r == 0,
{
    let keep: u64 = (BPS_DENOMINATOR - fee_bps) as u64;
    proof {
        lemma_scaled_floor_le(a_in as int, keep as int, 10_000);
        assert(a_in as int * keep as int <= u128::MAX) by (nonlinear_arith)
            requires
                0 <= a_in <= u64::MAX,
                0 <= keep <= 10_000,
        ;
    }
    let eff: u128 = (a_in as u128 * keep as u128) / BPS_DENOMINATOR as u128;
    let den: u128 = r_in as u128 + eff;
    proof {
        assert(r_out as int * eff as int <= u128::MAX) by (nonlinear_arith)
            requires
                0 <= r_out <= u64::MAX,
                0 <= eff <= u64::MAX,
        ;
    }
    let num: u128 = r_out as u128 * eff;
    let out: u128 = num / den;
    proof {
        lemma_div_bracket(num as int, den as int);
        if r_out > 0 {
            lemma_mul_strict_inequality(eff as int, den as int, r_out as int);
            assert(den * out <= num < den * r_out) by (nonlinear_arith)
                requires
                    den * out <= num,
                    eff * r_out < den * r_out,
                    num == r_out * eff,
            ;
            assert(out < r_out) by (nonlinear_arith)
                requires
                    den * out < den * r_out,
                    den > 0,
            ;
        } else {
            assert(num == 0);
        }
    }
    out as u64
}

} // verus!
