//! Swapping one asset for the other.
use vstd::prelude::*;

use crate::curve::{swap_amount_out, swap_out};
use crate::custody::{lemma_appended, ran, Call, Custodian};
use crate::error::AmmError;
use crate::state::Pool;

verus! {

/// A planned swap: `amount_in` of X (`is_x`) or Y goes in, `amount_out` of
/// the other asset comes out.
#[derive(Clone, Copy, Debug, PartialEq, Eq, Structural)]
pub struct Swap {
    pub is_x: bool,
    pub amount_in: u64,
    pub amount_out: u64,
}

impl Pool {
    /// The reserve that a swap from X (`is_x`) or Y takes in.
    pub open spec fn reserve_in(self, is_x: bool) -> u64 {
        if is_x {
            self.reserve_x
        } else {
            self.reserve_y
        }
    }

    /// The reserve that a swap from X (`is_x`) or Y pays out of.
    pub open spec fn reserve_out(self, is_x: bool) -> u64 {
        if is_x {
            self.reserve_y
        } else {
            self.reserve_x
        }
    }

    /// The outcome of planning a swap of `amount` for at least `min` of the
    /// other asset.
    pub open spec fn swap_plan(self, is_x: bool, amount: u64, min: u64) -> Result<Swap, AmmError> {
        if self.locked {
            Err(AmmError::PoolLocked)
        } else if amount == 0 || self.share_supply == 0 {
            Err(AmmError::InvalidAmount)
        } else {
            let out = swap_out(
                amount as int,
                self.reserve_in(is_x) as int,
                self.reserve_out(is_x) as int,
                self.fee as int,
            );
            if out == 0 {
                Err(AmmError::InvalidAmount)
            } else if out < min {
                Err(AmmError::SlippageExceeded)
            } else if self.reserve_in(is_x) + amount > u64::MAX {
                Err(AmmError::ArithmeticOverflow)
            } else {
                Ok(Swap { is_x, amount_in: amount, amount_out: out as u64 })
            }
        }
    }

    /// `s` can be applied to the pool: the pool is seeded, the input is
    /// positive and fits, and the output leaves some of its reserve.
    pub open spec fn swap_fits(self, s: Swap) -> bool {
        &&& self.share_supply > 0
        &&& s.amount_in > 0
        &&& self.reserve_in(s.is_x) + s.amount_in <= u64::MAX
        &&& s.amount_out < self.reserve_out(s.is_x)
    }

    /// The pool after `s` is committed.
    pub open spec fn after_swap(self, s: Swap) -> Pool {
        if s.is_x {
            Pool {
                reserve_x: (self.reserve_x + s.amount_in) as u64,
                reserve_y: (self.reserve_y - s.amount_out) as u64,
                ..self
            }
        } else {
            Pool {
                reserve_x: (self.reserve_x - s.amount_out) as u64,
                reserve_y: (self.reserve_y + s.amount_in) as u64,
                ..self
            }
        }
    }

    /// Plan a swap without changing the pool.
    pub fn plan_swap(&self, is_x: bool, amount: u64, min: u64) -> (r: Result<Swap, AmmError>)
        requires
            self.wf(),
        ensures
            r == self.swap_plan(is_x, amount, min),
            r matches Ok(s) ==> self.swap_fits(s),
    {
        if self.locked {
            return Err(AmmError::PoolLocked);
        }
        if amount == 0 || self.share_supply == 0 {
            return Err(AmmError::InvalidAmount);
        }
        let (r_in, r_out) = if is_x {
            (self.reserve_x, self.reserve_y)
        } else {
            (self.reserve_y, self.reserve_x)
        };
        let out = swap_amount_out(amount, r_in, r_out, self.fee);
        if out == 0 {
            return Err(AmmError::InvalidAmount);
        }
        if out < min {
            return Err(AmmError::SlippageExceeded);
        }
        if amount > u64::MAX - r_in {
            return Err(AmmError::ArithmeticOverflow);
        }
        Ok(Swap { is_x, amount_in: amount, amount_out: out })
    }

    /// Apply a planned swap to the reserves.
    pub fn commit_swap(&mut self, s: Swap)
        requires
            old(self).swap_fits(s),
        ensures
            *final(self) == old(self).after_swap(s),
            old(self).wf() ==> final(self).wf(),
    {
        if s.is_x {
            self.reserve_x = self.reserve_x + s.amount_in;
            self.reserve_y = self.reserve_y - s.amount_out;
        } else {
            self.reserve_x = self.reserve_x - s.amount_out;
            self.reserve_y = self.reserve_y + s.amount_in;
        }
    }
}

/// The custodian calls that carry out `s`: take the input asset, pay the
/// other one.
pub open spec fn swap_calls(s: Swap) -> Seq<Call> {
    seq![
        Call::DepositToken { is_x: s.is_x, amount: s.amount_in },
        Call::WithdrawToken { is_x: !s.is_x, amount: s.amount_out },
    ]
}

/// What a swap did, from pool `pre` and custodian log `pre_log` to `post`
/// and `post_log`. Where planning fails, it returns that error and touches
/// neither. Where the plan `s` stands, it makes the calls of `s` in order up
/// to the first refusal; if both are accepted it commits `s` and returns it,
/// else it returns `CustodianFailure` with the pool unchanged.
pub open spec fn swap_done(
    pre: Pool,
    post: Pool,
    pre_log: Seq<(Call, bool)>,
    post_log: Seq<(Call, bool)>,
    r: Result<Swap, AmmError>,
    is_x: bool,
    amount: u64,
    min: u64,
) -> bool {
    match pre.swap_plan(is_x, amount, min) {
        Err(pe) => r == Err::<Swap, AmmError>(pe) && post == pre && post_log == pre_log,
        Ok(s) => ran(pre_log, post_log, swap_calls(s), r is Ok) && match r {
            Ok(rs) => rs == s && post == pre.after_swap(s),
            Err(e) => e == AmmError::CustodianFailure && post == pre,
        },
    }
}

/// Swap: plan, take the input from the caller, pay the output in the other
/// asset, and commit. A planning failure leaves the custodian untouched.
pub fn handler<C: Custodian>(pool: &mut Pool, custodian: &mut C, is_x: bool, amount: u64, min: u64) -> (r:
    Result<Swap, AmmError>)
    requires
        old(pool).wf(),
    ensures
        final(pool).wf(),
        swap_done(*old(pool), *final(pool), old(custodian).log(), final(custodian).log(), r, is_x, amount, min),
        old(pool).swap_plan(is_x, amount, min) is Err ==> *final(custodian) == *old(custodian),
{
    let s = match pool.plan_swap(is_x, amount, min) {
        Ok(s) => s,
        Err(e) => {
            return Err(e);
        },
    };
    let c0 = Call::DepositToken { is_x: s.is_x, amount: s.amount_in };
    let c1 = Call::WithdrawToken { is_x: !s.is_x, amount: s.amount_out };
    let ok0 = custodian.deposit_token(s.is_x, s.amount_in);
    if !ok0 {
        proof {
            assert(custodian.log() =~= old(custodian).log() + seq![(c0, ok0)]);
            lemma_appended(old(custodian).log(), seq![(c0, ok0)]);
        }
        return Err(AmmError::CustodianFailure);
    }
    let ok1 = custodian.withdraw_token(!s.is_x, s.amount_out);
    proof {
        assert(custodian.log() =~= old(custodian).log() + seq![(c0, ok0), (c1, ok1)]);
        lemma_appended(old(custodian).log(), seq![(c0, ok0), (c1, ok1)]);
    }
    if !ok1 {
        return Err(AmmError::CustodianFailure);
    }
    pool.commit_swap(s);
    Ok(s)
}

} // verus!
