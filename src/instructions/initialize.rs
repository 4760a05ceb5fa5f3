//! Creating a pool.
use vstd::prelude::*;

use crate::error::AmmError;
use crate::state::{Pool, SHARE_DECIMALS};

verus! {

/// The configuration a pool is created with.
#[derive(Clone, Copy, Debug)]
pub struct Initialize {
    pub seed: u64,
    pub mint_x: u64,
    pub mint_y: u64,
    pub fee: u16,
    pub authority: Option<u64>,
}

impl Initialize {
    /// The configuration names two distinct assets and a fee of at most the
    /// whole input.
    pub open spec fn admissible(self) -> bool {
        self.mint_x != self.mint_y && self.fee <= 10_000
    }

    /// The empty, unlocked pool of this configuration.
    pub open spec fn empty_pool(self) -> Pool {
        Pool {
            seed: self.seed,
            mint_x: self.mint_x,
            mint_y: self.mint_y,
            reserve_x: 0,
            reserve_y: 0,
            share_supply: 0,
            fee: self.fee,
            share_decimals: SHARE_DECIMALS,
            authority: self.authority,
            locked: false,
        }
    }

    /// What `init` returns.
    pub open spec fn init_result(self) -> Result<Pool, AmmError> {
        if self.admissible() {
            Ok(self.empty_pool())
        } else {
            Err(AmmError::InvalidAmount)
        }
    }

    /// Create the empty pool, or fail with `InvalidAmount` where the two
    /// assets are the same or the fee exceeds 10 000 basis points.
    pub fn init(&self) -> (r: Result<Pool, AmmError>)
        ensures
            r == self.init_result(),
            r matches Ok(p) ==> p.wf(),
    {
        if self.mint_x == self.mint_y || self.fee > 10_000 {
            return Err(AmmError::InvalidAmount);
        }
        Ok(
            Pool {
                seed: self.seed,
                mint_x: self.mint_x,
                mint_y: self.mint_y,
                reserve_x: 0,
                reserve_y: 0,
                share_supply: 0,
                fee: self.fee,
                share_decimals: SHARE_DECIMALS,
                authority: self.authority,
                locked: false,
            },
        )
    }
}

/// Create a pool for the pair `(mint_x, mint_y)`.
pub fn handler(seed: u64, mint_x: u64, mint_y: u64, fee: u16, authority: Option<u64>) -> (r: Result<
    Pool,
    AmmError,
>)
    ensures
        r == (Initialize { seed, mint_x, mint_y, fee, authority }).init_result(),
        r matches Ok(p) ==> p.wf(),
{
    let config = Initialize { seed, mint_x, mint_y, fee, authority };
    config.init()
}

} // verus!
