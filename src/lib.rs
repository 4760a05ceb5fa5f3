//! Constant-product automated market maker: a two-asset liquidity pool with
//! integer-only pricing, proportional share accounting and a swap fee.
use vstd::prelude::*;

pub mod curve;
pub mod custody;
pub mod error;
pub mod instructions;
pub mod laws;
pub mod state;

use crate::custody::Custodian;
use crate::error::AmmError;
use crate::instructions::deposit::{deposit_done, Deposit};
use crate::instructions::initialize::Initialize;
use crate::instructions::swap::{swap_done, Swap};
use crate::instructions::withdraw::{withdraw_done, Withdraw};
use crate::state::Pool;

verus! {

/// Create an empty pool for two distinct assets with a fee of at most
/// 10 000 basis points.
pub fn initialize(seed: u64, mint_x: u64, mint_y: u64, fee: u16, authority: Option<u64>) -> (r: Result<
    Pool,
    AmmError,
>)
    ensures
        r == (Initialize { seed, mint_x, mint_y, fee, authority }).init_result(),
        r matches Ok(p) ==> p.wf(),
{
    instructions::initialize::handler(seed, mint_x, mint_y, fee, authority)
}

/// Provide liquidity for `amount` shares, paying at most `max_x` and `max_y`:
/// the custodian takes X, takes Y and mints the shares, in that order.
pub fn deposit<C: Custodian>(pool: &mut Pool, custodian: &mut C, amount: u64, max_x: u64, max_y: u64) -> (r:
    Result<Deposit, AmmError>)
    requires
        old(pool).wf(),
    ensures
        final(pool).wf(),
        deposit_done(*old(pool), *final(pool), old(custodian).log(), final(custodian).log(), r, amount, max_x, max_y),
        old(pool).deposit_plan(amount, max_x, max_y) is Err ==> *final(custodian) == *old(custodian),
{
    instructions::deposit::handler(pool, custodian, amount, max_x, max_y)
}

/// Burn `amount` shares for at least `min_x` of X and `min_y` of Y: the
/// custodian burns the shares, pays X and pays Y, in that order.
pub fn withdraw<C: Custodian>(pool: &mut Pool, custodian: &mut C, amount: u64, min_x: u64, min_y: u64) -> (r:
    Result<Withdraw, AmmError>)
    requires
        old(pool).wf(),
    ensures
        final(pool).wf(),
        withdraw_done(*old(pool), *final(pool), old(custodian).log(), final(custodian).log(), r, amount, min_x, min_y),
        old(pool).withdraw_plan(amount, min_x, min_y) is Err ==> *final(custodian) == *old(custodian),
{
    instructions::withdraw::handler(pool, custodian, amount, min_x, min_y)
}

/// Swap `amount` of X (`is_x`) or Y for at least `min` of the other asset:
/// the custodian takes the input, then pays the output.
pub fn swap<C: Custodian>(pool: &mut Pool, custodian: &mut C, is_x: bool, amount: u64, min: u64) -> (r:
    Result<Swap, AmmError>)
    requires
        old(pool).wf(),
    ensures
        final(pool).wf(),
        swap_done(*old(pool), *final(pool), old(custodian).log(), final(custodian).log(), r, is_x, amount, min),
        old(pool).swap_plan(is_x, amount, min) is Err ==> *final(custodian) == *old(custodian),
{
    instructions::swap::handler(pool, custodian, is_x, amount, min)
}

} // verus!
