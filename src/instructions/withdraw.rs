//! Withdrawing liquidity.
use vstd::prelude::*;
use vstd::arithmetic::div_mod::{lemma_div_multiples_vanish, lemma_multiply_divide_lt};

use crate::curve::withdraw_amounts;
use crate::custody::{lemma_appended, ran, Call, Custodian};
use crate::error::AmmError;
use crate::state::Pool;

verus! {

/// A planned withdraw: the amounts of X and Y paid out and the shares burnt.
#[derive(Clone, Copy, Debug, PartialEq, Eq, Structural)]
pub struct Withdraw {
    pub x: u64,
    pub y: u64,
    pub shares: u64,
}

/// A reserve's part of `shares` out of `supply`, rounded down.
pub open spec fn share_of(reserve: u64, shares: u64, supply: u64) -> int {
    reserve * shares / (supply as int)
}

/// The part is the whole reserve when all shares are burnt, and less than
/// a positive reserve otherwise.
pub proof fn lemma_share_of(reserve: u64, shares: u64, supply: u64)
    requires
        0 < shares <= supply,
    ensures
        shares == supply ==> share_of(reserve, shares, supply) == reserve,
        shares < supply && reserve > 0 ==> share_of(reserve, shares, supply) < reserve,
{
    if shares == supply {
        lemma_div_multiples_vanish(reserve as int, supply as int);
        assert(reserve * shares == supply * reserve) by (nonlinear_arith)
            requires
                shares == supply,
        ;
    } else if reserve > 0 {
        assert(reserve * shares < supply * reserve) by (nonlinear_arith)
            requires
                shares < supply,
                reserve > 0,
        ;
        lemma_multiply_divide_lt(reserve * shares, supply as int, reserve as int);
    }
}

impl Pool {
    /// The outcome of planning a burn of `amount` shares for at least `min_x`
    /// of X and `min_y` of Y.
    pub open spec fn withdraw_plan(self, amount: u64, min_x: u64, min_y: u64) -> Result<Withdraw, AmmError> {
        if self.locked {
            Err(AmmError::PoolLocked)
        } else if amount == 0 || amount > self.share_supply || min_x == 0 || min_y == 0 {
            Err(AmmError::InvalidAmount)
        } else {
            let dx = share_of(self.reserve_x, amount, self.share_supply);
            let dy = share_of(self.reserve_y, amount, self.share_supply);
            if dx < min_x || dy < min_y {
                Err(AmmError::SlippageExceeded)
            } else {
                Ok(Withdraw { x: dx as u64, y: dy as u64, shares: amount })
            }
        }
    }

    /// `w` can be taken from the pool: it burns some but not more than all
    /// shares, and empties a reserve exactly when it burns them all.
    pub open spec fn withdraw_fits(self, w: Withdraw) -> bool {
        &&& 0 < w.shares <= self.share_supply
        &&& w.x <= self.reserve_x
        &&& w.y <= self.reserve_y
        &&& (w.x == self.reserve_x <==> w.shares == self.share_supply)
        &&& (w.y == self.reserve_y <==> w.shares == self.share_supply)
    }

    /// The pool after `w` is committed.
    pub open spec fn after_withdraw(self, w: Withdraw) -> Pool {
        Pool {
            reserve_x: (self.reserve_x - w.x) as u64,
            reserve_y: (self.reserve_y - w.y) as u64,
            share_supply: (self.share_supply - w.shares) as u64,
            ..self
        }
    }

    /// Plan a withdraw without changing the pool.
    pub fn plan_withdraw(&self, amount: u64, min_x: u64, min_y: u64) -> (r: Result<Withdraw, AmmError>)
        requires
            self.wf(),
        ensures
            r == self.withdraw_plan(amount, min_x, min_y),
            r matches Ok(w) ==> self.withdraw_fits(w),
    {
        if self.locked {
            return Err(AmmError::PoolLocked);
        }
        if amount == 0 || amount > self.share_supply || min_x == 0 || min_y == 0 {
            return Err(AmmError::InvalidAmount);
        }
        let (dx, dy) = withdraw_amounts(self.reserve_x, self.reserve_y, self.share_supply, amount);
        if dx < min_x || dy < min_y {
            return Err(AmmError::SlippageExceeded);
        }
        proof {
            lemma_share_of(self.reserve_x, amount, self.share_supply);
            lemma_share_of(self.reserve_y, amount, self.share_supply);
        }
        Ok(Withdraw { x: dx, y: dy, shares: amount })
    }

    /// Take a planned withdraw out of the reserves and the share supply.
    pub fn commit_withdraw(&mut self, w: Withdraw)
        requires
            old(self).withdraw_fits(w),
        ensures
            *final(self) == old(self).after_withdraw(w),
            old(self).wf() ==> final(self).wf(),
    {
        self.reserve_x = self.reserve_x - w.x;
        self.reserve_y = self.reserve_y - w.y;
        self.share_supply = self.share_supply - w.shares;
    }
}

/// The custodian calls that carry out `w`: burn the shares, pay X, pay Y.
pub open spec fn withdraw_calls(w: Withdraw) -> Seq<Call> {
    seq![
        Call::BurnLpTokens { amount: w.shares },
        Call::WithdrawToken { is_x: true, amount: w.x },
        Call::WithdrawToken { is_x: false, amount: w.y },
    ]
}

/// What a withdraw did, from pool `pre` and custodian log `pre_log` to
/// `post` and `post_log`. Where planning fails, it returns that error and
/// touches neither. Where the plan `w` stands, it makes the calls of `w` in
/// order up to the first refusal; if all are accepted it commits `w` and
/// returns it, else it returns `CustodianFailure` with the pool unchanged.
pub open spec fn withdraw_done(
    pre: Pool,
    post: Pool,
    pre_log: Seq<(Call, bool)>,
    post_log: Seq<(Call, bool)>,
    r: Result<Withdraw, AmmError>,
    amount: u64,
    min_x: u64,
    min_y: u64,
) -> bool {
    match pre.withdraw_plan(amount, min_x, min_y) {
        Err(pe) => r == Err::<Withdraw, AmmError>(pe) && post == pre && post_log == pre_log,
        Ok(w) => ran(pre_log, post_log, withdraw_calls(w), r is Ok) && match r {
            Ok(rw) => rw == w && post == pre.after_withdraw(w),
            Err(e) => e == AmmError::CustodianFailure && post == pre,
        },
    }
}

/// Withdraw liquidity: plan, burn the caller's shares, pay out X then Y, and
/// commit. A planning failure leaves the custodian untouched.
pub fn handler<C: Custodian>(pool: &mut Pool, custodian: &mut C, amount: u64, min_x: u64, min_y: u64) -> (r:
    Result<Withdraw, AmmError>)
    requires
        old(pool).wf(),
    ensures
        final(pool).wf(),
        withdraw_done(*old(pool), *final(pool), old(custodian).log(), final(custodian).log(), r, amount, min_x, min_y),
        old(pool).withdraw_plan(amount, min_x, min_y) is Err ==> *final(custodian) == *old(custodian),
{
    let w = match pool.plan_withdraw(amount, min_x, min_y) {
        Ok(w) => w,
        Err(e) => {
            return Err(e);
        },
    };
    let c0 = Call::BurnLpTokens { amount: w.shares };
    let c1 = Call::WithdrawToken { is_x: true, amount: w.x };
    let c2 = Call::WithdrawToken { is_x: false, amount: w.y };
    let ok0 = custodian.burn_lp_tokens(w.shares);
    if !ok0 {
        proof {
            assert(custodian.log() =~= old(custodian).log() + seq![(c0, ok0)]);
            lemma_appended(old(custodian).log(), seq![(c0, ok0)]);
        }
        return Err(AmmError::CustodianFailure);
    }
    let ok1 = custodian.withdraw_token(true, w.x);
    if !ok1 {
        proof {
            assert(custodian.log() =~= old(custodian).log() + seq![(c0, ok0), (c1, ok1)]);
            lemma_appended(old(custodian).log(), seq![(c0, ok0), (c1, ok1)]);
        }
        return Err(AmmError::CustodianFailure);
    }
    let ok2 = custodian.withdraw_token(false, w.y);
    proof {
        assert(custodian.log() =~= old(custodian).log() + seq![(c0, ok0), (c1, ok1), (c2, ok2)]);
        lemma_appended(old(custodian).log(), seq![(c0, ok0), (c1, ok1), (c2, ok2)]);
    }
    if !ok2 {
        return Err(AmmError::CustodianFailure);
    }
    pool.commit_withdraw(w);
    Ok(w)
}

} // verus!
