//! What holds of the pool across its operations.
use vstd::prelude::*;
use vstd::arithmetic::div_mod::{lemma_div_multiples_vanish, lemma_multiply_divide_le, lemma_multiply_divide_lt};

use crate::curve::{
    ceil_div, fee_adjusted, isqrt_spec, lemma_ceil_div_pos, lemma_div_bracket, lemma_initial_shares_range,
    lemma_scaled_floor_le, swap_out,
};
use crate::instructions::swap::Swap;
use crate::instructions::withdraw::{lemma_share_of, share_of};
use crate::state::Pool;

verus! {

/// Facts about one swap of `a` against reserves `(r_in, r_out)`: the priced
/// input is at most `a`, and less when a fee is charged; the output, priced
/// at `(r_in + e) * out <= r_out * e`, stays below `r_out`.
proof fn lemma_swap_facts(a: int, r_in: int, r_out: int, f: int)
    requires
        a > 0,
        r_in > 0,
        r_out > 0,
        0 <= f <= 10_000,
    ensures
        0 <= fee_adjusted(a, f) <= a,
        f > 0 ==> fee_adjusted(a, f) < a,
        0 <= swap_out(a, r_in, r_out, f) < r_out,
        (r_in + fee_adjusted(a, f)) * swap_out(a, r_in, r_out, f) <= r_out * fee_adjusted(a, f),
{
    let e = fee_adjusted(a, f);
    lemma_scaled_floor_le(a, 10_000 - f, 10_000);
    if f > 0 {
        assert(a * (10_000 - f) < 10_000 * a) by (nonlinear_arith)
            requires
                a > 0,
                f > 0,
        ;
        lemma_multiply_divide_lt(a * (10_000 - f), 10_000, a);
    }
    let d = r_in + e;
    assert(0 <= r_out * e) by (nonlinear_arith)
        requires
            r_out > 0,
            e >= 0,
    ;
    lemma_div_bracket(r_out * e, d);
    let out = swap_out(a, r_in, r_out, f);
    assert(d * out <= r_out * e);
    assert(r_out * e < r_out * d) by (nonlinear_arith)
        requires
            r_out > 0,
            e < d,
    ;
    assert(out < r_out) by (nonlinear_arith)
        requires
            d * out < d * r_out,
            d > 0,
    ;
}

/// A swap of `a` in at reserves `(r_in, r_out)` does not lower their
/// product, and raises it when a fee is charged.
proof fn lemma_swap_product(a: int, r_in: int, r_out: int, f: int)
    requires
        a > 0,
        r_in > 0,
        r_out > 0,
        0 <= f <= 10_000,
    ensures
        (r_in + a) * (r_out - swap_out(a, r_in, r_out, f)) >= r_in * r_out,
        f > 0 ==> (r_in + a) * (r_out - swap_out(a, r_in, r_out, f)) > r_in * r_out,
{
    lemma_swap_facts(a, r_in, r_out, f);
    let e = fee_adjusted(a, f);
    let out = swap_out(a, r_in, r_out, f);
    assert((r_in + a) * (r_out - out) - r_in * r_out == (a - e) * (r_out - out) + (r_out * e - (r_in
        + e) * out)) by (nonlinear_arith);
    assert(0 <= (a - e) * (r_out - out)) by (nonlinear_arith)
        requires
            e <= a,
            out < r_out,
    ;
    if f > 0 {
        assert(0 < (a - e) * (r_out - out)) by (nonlinear_arith)
            requires
                e < a,
                out < r_out,
        ;
    }
}

/// A swap committed at the curve's price never lowers the product of the
/// reserves, and raises it whenever the fee is positive.
proof fn lemma_committed_swap_product(p: Pool, s: Swap)
    requires
        p.wf(),
        p.swap_fits(s),
        s.amount_out == swap_out(
            s.amount_in as int,
            p.reserve_in(s.is_x) as int,
            p.reserve_out(s.is_x) as int,
            p.fee as int,
        ),
    ensures
        p.after_swap(s).reserve_x * p.after_swap(s).reserve_y >= p.reserve_x * p.reserve_y,
        p.fee > 0 ==> p.after_swap(s).reserve_x * p.after_swap(s).reserve_y > p.reserve_x
            * p.reserve_y,
{
    let q = p.after_swap(s);
    lemma_swap_product(s.amount_in as int, p.reserve_in(s.is_x) as int, p.reserve_out(s.is_x) as int, p.fee as int);
    if !s.is_x {
        assert(q.reserve_x * q.reserve_y == q.reserve_y * q.reserve_x) by (nonlinear_arith);
        assert(p.reserve_x * p.reserve_y == p.reserve_y * p.reserve_x) by (nonlinear_arith);
    }
}

/// Every successful swap plan, once committed, keeps the product of the
/// reserves from falling, and raises it whenever the fee is positive.
pub proof fn law_swap_plan_product_monotone(p: Pool, is_x: bool, amount: u64, min: u64)
    requires
        p.wf(),
        p.swap_plan(is_x, amount, min) is Ok,
    ensures
        ({
            let q = p.after_swap(p.swap_plan(is_x, amount, min)->Ok_0);
            &&& q.reserve_x * q.reserve_y >= p.reserve_x * p.reserve_y
            &&& p.fee > 0 ==> q.reserve_x * q.reserve_y > p.reserve_x * p.reserve_y
        }),
{
    let s = p.swap_plan(is_x, amount, min)->Ok_0;
    lemma_swap_facts(amount as int, p.reserve_in(is_x) as int, p.reserve_out(is_x) as int, p.fee as int);
    lemma_committed_swap_product(p, s);
}

/// The smaller of two integers.
pub open spec fn min_int(a: int, b: int) -> int {
    if a <= b {
        a
    } else {
        b
    }
}

/// Each reserve per share does not fall from `p` to `q`, compared across
/// multiplication: `q.reserve * p.supply >= p.reserve * q.supply`.
pub open spec fn per_share_kept(p: Pool, q: Pool) -> bool {
    &&& q.reserve_x * p.share_supply >= p.reserve_x * q.share_supply
    &&& q.reserve_y * p.share_supply >= p.reserve_y * q.share_supply
    &&& min_int(q.reserve_x * p.share_supply, q.reserve_y * p.share_supply) >= min_int(
        p.reserve_x * q.share_supply,
        p.reserve_y * q.share_supply,
    )
}

/// Paying `ceil(r * s / l)` for `s` new shares keeps `r` per share.
proof fn lemma_ceil_keeps_share(r: int, s: int, l: int)
    requires
        r >= 0,
        s >= 0,
        l > 0,
    ensures
        (r + ceil_div(r * s, l)) * l >= r * (l + s),
{
    assert(r * s >= 0) by (nonlinear_arith)
        requires
            r >= 0,
            s >= 0,
    ;
    lemma_div_bracket(r * s + l - 1, l);
    let c = ceil_div(r * s, l);
    assert(r * s <= l * c);
    assert((r + c) * l - r * (l + s) == l * c - r * s) by (nonlinear_arith);
}

/// Receiving `floor(r * s / l)` for `s` burnt shares keeps `r` per share.
proof fn lemma_floor_keeps_share(r: int, s: int, l: int)
    requires
        r >= 0,
        0 <= s <= l,
        l > 0,
    ensures
        (r - r * s / l) * l >= r * (l - s),
{
    assert(r * s >= 0) by (nonlinear_arith)
        requires
            r >= 0,
            s >= 0,
    ;
    lemma_div_bracket(r * s, l);
    let f = r * s / l;
    assert((r - f) * l - r * (l - s) == r * s - l * f) by (nonlinear_arith);
}

/// A provide into a seeded pool does not lower any reserve per share.
pub proof fn law_deposit_keeps_share_value(p: Pool, amount: u64, max_x: u64, max_y: u64)
    requires
        p.wf(),
        p.share_supply > 0,
        p.deposit_plan(amount, max_x, max_y) is Ok,
    ensures
        per_share_kept(p, p.after_deposit(p.deposit_plan(amount, max_x, max_y)->Ok_0)),
{
    lemma_ceil_keeps_share(p.reserve_x as int, amount as int, p.share_supply as int);
    lemma_ceil_keeps_share(p.reserve_y as int, amount as int, p.share_supply as int);
}

/// A withdraw that leaves shares outstanding does not lower any reserve per
/// share.
pub proof fn law_withdraw_keeps_share_value(p: Pool, amount: u64, min_x: u64, min_y: u64)
    requires
        p.wf(),
        p.withdraw_plan(amount, min_x, min_y) is Ok,
        p.after_withdraw(p.withdraw_plan(amount, min_x, min_y)->Ok_0).share_supply > 0,
    ensures
        per_share_kept(p, p.after_withdraw(p.withdraw_plan(amount, min_x, min_y)->Ok_0)),
{
    lemma_floor_keeps_share(p.reserve_x as int, amount as int, p.share_supply as int);
    lemma_floor_keeps_share(p.reserve_y as int, amount as int, p.share_supply as int);
    lemma_scaled_floor_le(p.reserve_x as int, amount as int, p.share_supply as int);
    lemma_scaled_floor_le(p.reserve_y as int, amount as int, p.share_supply as int);
}

/// Burning right away the shares just bought returns no more of a reserve
/// than was paid in for them.
proof fn lemma_deposit_round_trip(r: int, c: int, s: int, l: int)
    requires
        r >= 0,
        s > 0,
        l > 0,
        r * s <= l * c,
    ensures
        (r + c) * s / (l + s) <= c,
{
    assert((r + c) * s <= (l + s) * c) by (nonlinear_arith)
        requires
            r * s <= l * c,
    ;
    lemma_multiply_divide_le((r + c) * s, l + s, c);
}

/// Withdrawing the shares that a provide has just minted returns no more X
/// and no more Y than the provide took.
pub proof fn law_deposit_withdraw_round_trip(
    p: Pool,
    amount: u64,
    max_x: u64,
    max_y: u64,
    min_x: u64,
    min_y: u64,
)
    requires
        p.wf(),
        p.deposit_plan(amount, max_x, max_y) is Ok,
    ensures
        ({
            let d = p.deposit_plan(amount, max_x, max_y)->Ok_0;
            let q = p.after_deposit(d);
            &&& 0 < d.shares <= q.share_supply
            &&& share_of(q.reserve_x, d.shares, q.share_supply) <= d.x
            &&& share_of(q.reserve_y, d.shares, q.share_supply) <= d.y
            &&& q.withdraw_plan(d.shares, min_x, min_y) matches Ok(w) ==> w.x <= d.x && w.y <= d.y
        }),
{
    let d = p.deposit_plan(amount, max_x, max_y)->Ok_0;
    let q = p.after_deposit(d);
    if p.share_supply == 0 {
        lemma_initial_shares_range(max_x, max_y);
        let s = isqrt_spec(max_x * max_y);
        lemma_div_multiples_vanish(max_x as int, s);
        lemma_div_multiples_vanish(max_y as int, s);
        assert(max_x * s == s * max_x) by (nonlinear_arith);
        assert(max_y * s == s * max_y) by (nonlinear_arith);
    } else {
        lemma_ceil_keeps_share(p.reserve_x as int, amount as int, p.share_supply as int);
        lemma_ceil_keeps_share(p.reserve_y as int, amount as int, p.share_supply as int);
        let cx = d.x as int;
        let cy = d.y as int;
        assert(p.reserve_x * amount <= p.share_supply * cx) by (nonlinear_arith)
            requires
                (p.reserve_x + cx) * p.share_supply >= p.reserve_x * (p.share_supply + amount),
        ;
        assert(p.reserve_y * amount <= p.share_supply * cy) by (nonlinear_arith)
            requires
                (p.reserve_y + cy) * p.share_supply >= p.reserve_y * (p.share_supply + amount),
        ;
        lemma_deposit_round_trip(p.reserve_x as int, cx, amount as int, p.share_supply as int);
        lemma_deposit_round_trip(p.reserve_y as int, cy, amount as int, p.share_supply as int);
    }
}

/// Swapping `a` in at reserves `(x, y)` for `b`, then `b` back at the
/// reserves that result, returns at most `a`, and less than `a` when a fee
/// is charged.
proof fn lemma_swap_round_trip(a: int, x: int, y: int, f: int)
    requires
        a > 0,
        x > 0,
        y > 0,
        0 <= f <= 10_000,
        swap_out(a, x, y, f) > 0,
    ensures
        swap_out(swap_out(a, x, y, f), y - swap_out(a, x, y, f), x + a, f) <= a,
        f > 0 ==> swap_out(swap_out(a, x, y, f), y - swap_out(a, x, y, f), x + a, f) < a,
{
    lemma_swap_facts(a, x, y, f);
    let e1 = fee_adjusted(a, f);
    let b = swap_out(a, x, y, f);
    lemma_swap_facts(b, y - b, x + a, f);
    let e2 = fee_adjusted(b, f);
    let out = swap_out(b, y - b, x + a, f);
    // What the first swap pays is at most its fair share of `y`.
    assert((x + a) * b <= y * a) by (nonlinear_arith)
        requires
            (x + e1) * b <= y * e1,
            e1 <= a,
            b < y,
            b >= 0,
    ;
    if f > 0 {
        assert((x + a) * b < y * a) by (nonlinear_arith)
            requires
                (x + e1) * b <= y * e1,
                e1 < a,
                b < y,
                b >= 0,
        ;
        if out >= a {
            assert((y - b) * a <= x * e2) by (nonlinear_arith)
                requires
                    (y - b + e2) * out <= (x + a) * e2,
                    out >= a,
                    y - b > 0,
                    e2 >= 0,
            ;
            assert(x * e2 <= x * b) by (nonlinear_arith)
                requires
                    e2 <= b,
                    x > 0,
            ;
            assert((x + a) * b == x * b + a * b) by (nonlinear_arith);
            assert(y * a == (y - b) * a + b * a) by (nonlinear_arith);
        }
    }
    if out > a {
        assert((y - b) * (a + 1) + e2 <= x * e2) by (nonlinear_arith)
            requires
                (y - b + e2) * out <= (x + a) * e2,
                out >= a + 1,
                y - b > 0,
                e2 >= 0,
        ;
        assert(x * e2 <= x * b) by (nonlinear_arith)
            requires
                e2 <= b,
                x > 0,
        ;
        assert((y - b) * (a + 1) == (y - b) * a + (y - b)) by (nonlinear_arith);
        assert((x + a) * b == x * b + a * b) by (nonlinear_arith);
        assert(y * a == (y - b) * a + b * a) by (nonlinear_arith);
    }
}

/// Swapping `amount` one way and then all of what came out back the other
/// way returns at most `amount`, and strictly less whenever the fee is
/// positive.
pub proof fn law_swap_round_trip(p: Pool, is_x: bool, amount: u64, min: u64, back_min: u64)
    requires
        p.wf(),
        p.swap_plan(is_x, amount, min) is Ok,
        p.after_swap(p.swap_plan(is_x, amount, min)->Ok_0).swap_plan(
            !is_x,
            p.swap_plan(is_x, amount, min)->Ok_0.amount_out,
            back_min,
        ) is Ok,
    ensures
        ({
            let s = p.swap_plan(is_x, amount, min)->Ok_0;
            let t = p.after_swap(s).swap_plan(!is_x, s.amount_out, back_min)->Ok_0;
            &&& t.amount_out <= amount
            &&& p.fee > 0 ==> t.amount_out < amount
        }),
{
    let s = p.swap_plan(is_x, amount, min)->Ok_0;
    let q = p.after_swap(s);
    lemma_swap_facts(amount as int, p.reserve_in(is_x) as int, p.reserve_out(is_x) as int, p.fee as int);
    assert(q.reserve_in(!is_x) == p.reserve_out(is_x) - s.amount_out);
    assert(q.reserve_out(!is_x) == p.reserve_in(is_x) + amount);
    lemma_swap_round_trip(amount as int, p.reserve_in(is_x) as int, p.reserve_out(is_x) as int, p.fee as int);
}

/// Committing a successful provide plan keeps the pool well formed: both
/// reserves and the supply stay zero together or positive together.
pub proof fn law_deposit_keeps_invariants(p: Pool, amount: u64, max_x: u64, max_y: u64)
    requires
        p.wf(),
        p.deposit_plan(amount, max_x, max_y) is Ok,
    ensures
        p.deposit_fits(p.deposit_plan(amount, max_x, max_y)->Ok_0),
        p.after_deposit(p.deposit_plan(amount, max_x, max_y)->Ok_0).wf(),
{
    if p.share_supply == 0 {
        lemma_initial_shares_range(max_x, max_y);
    } else {
        assert(p.reserve_x * amount >= 1 && p.reserve_y * amount >= 1) by (nonlinear_arith)
            requires
                p.reserve_x >= 1,
                p.reserve_y >= 1,
                amount >= 1,
        ;
        lemma_ceil_div_pos(p.reserve_x * amount, p.share_supply as int);
        lemma_ceil_div_pos(p.reserve_y * amount, p.share_supply as int);
    }
}

/// Committing a successful withdraw plan keeps the pool well formed: it
/// empties the reserves exactly when it burns the whole supply.
pub proof fn law_withdraw_keeps_invariants(p: Pool, amount: u64, min_x: u64, min_y: u64)
    requires
        p.wf(),
        p.withdraw_plan(amount, min_x, min_y) is Ok,
    ensures
        p.withdraw_fits(p.withdraw_plan(amount, min_x, min_y)->Ok_0),
        p.after_withdraw(p.withdraw_plan(amount, min_x, min_y)->Ok_0).wf(),
{
    lemma_share_of(p.reserve_x, amount, p.share_supply);
    lemma_share_of(p.reserve_y, amount, p.share_supply);
    lemma_scaled_floor_le(p.reserve_x as int, amount as int, p.share_supply as int);
    lemma_scaled_floor_le(p.reserve_y as int, amount as int, p.share_supply as int);
}

/// Committing a successful swap plan keeps the pool well formed: no swap
/// drains a reserve.
pub proof fn law_swap_keeps_invariants(p: Pool, is_x: bool, amount: u64, min: u64)
    requires
        p.wf(),
        p.swap_plan(is_x, amount, min) is Ok,
    ensures
        p.swap_fits(p.swap_plan(is_x, amount, min)->Ok_0),
        p.after_swap(p.swap_plan(is_x, amount, min)->Ok_0).wf(),
{
    lemma_swap_facts(amount as int, p.reserve_in(is_x) as int, p.reserve_out(is_x) as int, p.fee as int);
}

} // verus!
