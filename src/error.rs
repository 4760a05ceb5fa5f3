use vstd::prelude::*;

verus! {

/// The ways in which a pool operation can be refused.
#[derive(Clone, Copy, Debug, PartialEq, Eq, Structural)]
pub enum AmmError {
    /// A zero or otherwise inadmissible amount.
    InvalidAmount,
    /// The pool is locked and accepts no state-changing operation.
    PoolLocked,
    /// A computed amount falls outside the caller's bounds.
    SlippageExceeded,
    /// An amount or a new balance does not fit in 64 bits.
    ArithmeticOverflow,
    /// The caller is not the pool's authority.
    Unauthorized,
    /// The custodian refused to move assets or shares.
    CustodianFailure,
}

} // verus!
