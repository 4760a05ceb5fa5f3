//! Providing liquidity.
use vstd::prelude::*;

use crate::curve::{ceil_div, deposit_amounts, initial_shares, isqrt_spec, lemma_ceil_div_pos};
use crate::custody::{lemma_appended, ran, Call, Custodian};
use crate::error::AmmError;
use crate::state::Pool;

verus! {

/// A planned provide: the amounts of X and Y taken from the depositor and
/// the shares minted to them.
#[derive(Clone, Copy, Debug, PartialEq, Eq, Structural)]
pub struct Deposit {
    pub x: u64,
    pub y: u64,
    pub shares: u64,
}

impl Pool {
    /// The outcome of planning a provide of `amount` shares, paying at most
    /// `max_x` and `max_y`. An empty pool ignores `amount` and grants the
    /// integer square root of `max_x * max_y` for both maxima.
    pub open spec fn deposit_plan(self, amount: u64, max_x: u64, max_y: u64) -> Result<Deposit, AmmError> {
        if self.locked {
            Err(AmmError::PoolLocked)
        } else if amount == 0 {
            Err(AmmError::InvalidAmount)
        } else if self.share_supply == 0 {
            if max_x == 0 || max_y == 0 {
                Err(AmmError::InvalidAmount)
            } else {
                Ok(Deposit { x: max_x, y: max_y, shares: isqrt_spec(max_x * max_y) as u64 })
            }
        } else {
            let dx = ceil_div(self.reserve_x * amount, self.share_supply as int);
            let dy = ceil_div(self.reserve_y * amount, self.share_supply as int);
            if dx > u64::MAX || dy > u64::MAX {
                Err(AmmError::ArithmeticOverflow)
            } else if dx > max_x || dy > max_y {
                Err(AmmError::SlippageExceeded)
            } else if self.reserve_x + dx > u64::MAX || self.reserve_y + dy > u64::MAX
                || self.share_supply + amount > u64::MAX {
                Err(AmmError::ArithmeticOverflow)
            } else {
                Ok(Deposit { x: dx as u64, y: dy as u64, shares: amount })
            }
        }
    }

    /// `d` can be added to the pool: all three parts are positive and the
    /// new totals fit in 64 bits.
    pub open spec fn deposit_fits(self, d: Deposit) -> bool {
        &&& d.x > 0 && d.y > 0 && d.shares > 0
        &&& self.reserve_x + d.x <= u64::MAX
        &&& self.reserve_y + d.y <= u64::MAX
        &&& self.share_supply + d.shares <= u64::MAX
    }

    /// The pool after `d` is committed.
    pub open spec fn after_deposit(self, d: Deposit) -> Pool {
        Pool {
            reserve_x: (self.reserve_x + d.x) as u64,
            reserve_y: (self.reserve_y + d.y) as u64,
            share_supply: (self.share_supply + d.shares) as u64,
            ..self
        }
    }

    /// Plan a provide without changing the pool.
    pub fn plan_deposit(&self, amount: u64, max_x: u64, max_y: u64) -> (r: Result<Deposit, AmmError>)
        requires
            self.wf(),
        ensures
            r == self.deposit_plan(amount, max_x, max_y),
            r matches Ok(d) ==> self.deposit_fits(d),
    {
        if self.locked {
            return Err(AmmError::PoolLocked);
        }
        if amount == 0 {
            return Err(AmmError::InvalidAmount);
        }
        if self.share_supply == 0 {
            if max_x == 0 || max_y == 0 {
                return Err(AmmError::InvalidAmount);
            }
            let shares = initial_shares(max_x, max_y);
            return Ok(Deposit { x: max_x, y: max_y, shares });
        }
        let (dx, dy) = match deposit_amounts(self.reserve_x, self.reserve_y, self.share_supply, amount) {
            Ok(a) => a,
            Err(e) => {
                return Err(e);
            },
        };
        if dx > max_x || dy > max_y {
            return Err(AmmError::SlippageExceeded);
        }
        if dx > u64::MAX - self.reserve_x || dy > u64::MAX - self.reserve_y || amount > u64::MAX
            - self.share_supply {
            return Err(AmmError::ArithmeticOverflow);
        }
        proof {
            assert(self.reserve_x * amount >= 1) by (nonlinear_arith)
                requires
                    self.reserve_x >= 1,
                    amount >= 1,
            ;
            assert(self.reserve_y * amount >= 1) by (nonlinear_arith)
                requires
                    self.reserve_y >= 1,
                    amount >= 1,
            ;
            lemma_ceil_div_pos(self.reserve_x * amount, self.share_supply as int);
            lemma_ceil_div_pos(self.reserve_y * amount, self.share_supply as int);
        }
        Ok(Deposit { x: dx, y: dy, shares: amount })
    }

    /// Add a planned provide to the reserves and the share supply.
    pub fn commit_deposit(&mut self, d: Deposit)
        requires
            old(self).deposit_fits(d),
        ensures
            *final(self) == old(self).after_deposit(d),
            old(self).wf() ==> final(self).wf(),
    {
        self.reserve_x = self.reserve_x + d.x;
        self.reserve_y = self.reserve_y + d.y;
        self.share_supply = self.share_supply + d.shares;
    }
}

/// The custodian calls that carry out `d`: take X, take Y, mint the shares.
pub open spec fn deposit_calls(d: Deposit) -> Seq<Call> {
    seq![
        Call::DepositToken { is_x: true, amount: d.x },
        Call::DepositToken { is_x: false, amount: d.y },
        Call::MintLpTokens { amount: d.shares },
    ]
}

/// What a provide did, from pool `pre` and custodian log `pre_log` to `post`
/// and `post_log`. Where planning fails, it returns that error and touches
/// neither. Where the plan `d` stands, it makes the calls of `d` in order up
/// to the first refusal; if all are accepted it commits `d` and returns it,
/// else it returns `CustodianFailure` with the pool unchanged.
pub open spec fn deposit_done(
    pre: Pool,
    post: Pool,
    pre_log: Seq<(Call, bool)>,
    post_log: Seq<(Call, bool)>,
    r: Result<Deposit, AmmError>,
    amount: u64,
    max_x: u64,
    max_y: u64,
) -> bool {
    match pre.deposit_plan(amount, max_x, max_y) {
        Err(pe) => r == Err::<Deposit, AmmError>(pe) && post == pre && post_log == pre_log,
        Ok(d) => ran(pre_log, post_log, deposit_calls(d), r is Ok) && match r {
            Ok(rd) => rd == d && post == pre.after_deposit(d),
            Err(e) => e == AmmError::CustodianFailure && post == pre,
        },
    }
}

/// Provide liquidity: plan, take X then Y from the caller, mint the shares,
/// and commit. A planning failure leaves the custodian untouched.
pub fn handler<C: Custodian>(pool: &mut Pool, custodian: &mut C, amount: u64, max_x: u64, max_y: u64) -> (r:
    Result<Deposit, AmmError>)
    requires
        old(pool).wf(),
    ensures
        final(pool).wf(),
        deposit_done(*old(pool), *final(pool), old(custodian).log(), final(custodian).log(), r, amount, max_x, max_y),
        old(pool).deposit_plan(amount, max_x, max_y) is Err ==> *final(custodian) == *old(custodian),
{
    let d = match pool.plan_deposit(amount, max_x, max_y) {
        Ok(d) => d,
        Err(e) => {
            return Err(e);
        },
    };
    let c0 = Call::DepositToken { is_x: true, amount: d.x };
    let c1 = Call::DepositToken { is_x: false, amount: d.y };
    let c2 = Call::MintLpTokens { amount: d.shares };
    let ok0 = custodian.deposit_token(true, d.x);
    if !ok0 {
        proof {
            assert(custodian.log() =~= old(custodian).log() + seq![(c0, ok0)]);
            lemma_appended(old(custodian).log(), seq![(c0, ok0)]);
        }
        return Err(AmmError::CustodianFailure);
    }
    let ok1 = custodian.deposit_token(false, d.y);
    if !ok1 {
        proof {
            assert(custodian.log() =~= old(custodian).log() + seq![(c0, ok0), (c1, ok1)]);
            lemma_appended(old(custodian).log(), seq![(c0, ok0), (c1, ok1)]);
        }
        return Err(AmmError::CustodianFailure);
    }
    let ok2 = custodian.mint_lp_tokens(d.shares);
    proof {
        assert(custodian.log() =~= old(custodian).log() + seq![(c0, ok0), (c1, ok1), (c2, ok2)]);
        lemma_appended(old(custodian).log(), seq![(c0, ok0), (c1, ok1), (c2, ok2)]);
    }
    if !ok2 {
        return Err(AmmError::CustodianFailure);
    }
    pool.commit_deposit(d);
    Ok(d)
}

} // verus!
