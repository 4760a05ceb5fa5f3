//! The pool record and its well-formedness.
use vstd::prelude::*;

use crate::error::AmmError;

verus! {

/// Decimal precision of the share token.
pub const SHARE_DECIMALS: u8 = 6;

/// One trading pair: the two reserves, the outstanding shares and the
/// configuration fixed at creation.
#[derive(Clone, Copy, Debug)]
pub struct Pool {
    /// Names the pool.
    pub seed: u64,
    /// Identifier of asset X.
    pub mint_x: u64,
    /// Identifier of asset Y.
    pub mint_y: u64,
    pub reserve_x: u64,
    pub reserve_y: u64,
    pub share_supply: u64,
    /// Swap fee in basis points of the input.
    pub fee: u16,
    pub share_decimals: u8,
    /// The principal that may lock and unlock the pool, if any.
    pub authority: Option<u64>,
    pub locked: bool,
}

impl Pool {
    /// The pool is either wholly empty or holds both assets and some shares,
    /// and its fee is at most the whole input.
    pub open spec fn wf(&self) -> bool {
        &&& self.fee <= 10_000
        &&& self.share_decimals == SHARE_DECIMALS
        &&& self.mint_x != self.mint_y
        &&& (self.reserve_x == 0 <==> self.share_supply == 0)
        &&& (self.reserve_y == 0 <==> self.share_supply == 0)
    }

    /// Lock or unlock the pool; only its authority may do so.
    pub fn set_lock(&mut self, caller: u64, locked: bool) -> (r: Result<(), AmmError>)
        ensures
            old(self).authority == Some(caller) ==> r is Ok && *final(self) == (Pool {
                locked,
                ..*old(self)
            }),
            old(self).authority != Some(caller) ==> r == Err::<(), AmmError>(AmmError::Unauthorized)
                && *final(self) == *old(self),
            old(self).wf() ==> final(self).wf(),
    {
        let permitted = match self.authority {
            Some(a) => a == caller,
            None => false,
        };
        if permitted {
            self.locked = locked;
            Ok(())
        } else {
            Err(AmmError::Unauthorized)
        }
    }
}

} // verus!
