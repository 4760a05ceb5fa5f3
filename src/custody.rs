//! What the pool asks of the layer that holds the assets and the share token.
use vstd::prelude::*;

verus! {

/// One request made to a custodian.
#[derive(Clone, Copy, Debug, PartialEq, Eq, Structural)]
pub enum Call {
    /// Move `amount` of asset X (`is_x`) or Y from the caller to the pool.
    DepositToken { is_x: bool, amount: u64 },
    /// Move `amount` of asset X (`is_x`) or Y from the pool to the caller.
    WithdrawToken { is_x: bool, amount: u64 },
    /// Mint `amount` shares to the caller's share account.
    MintLpTokens { amount: u64 },
    /// Burn `amount` shares from the caller's share account.
    BurnLpTokens { amount: u64 },
}

/// Moves asset balances between the caller's accounts and the pool's vaults,
/// and mints and burns shares. Each call either completes or returns `false`
/// having moved nothing. `log` is every call made so far, each with whether
/// it was accepted.
pub trait Custodian {
    spec fn log(&self) -> Seq<(Call, bool)>;

    fn deposit_token(&mut self, is_x: bool, amount: u64) -> (ok: bool)
        ensures
            final(self).log() == old(self).log().push((Call::DepositToken { is_x, amount }, ok)),
    ;

    fn withdraw_token(&mut self, is_x: bool, amount: u64) -> (ok: bool)
        ensures
            final(self).log() == old(self).log().push((Call::WithdrawToken { is_x, amount }, ok)),
    ;

    fn mint_lp_tokens(&mut self, amount: u64) -> (ok: bool)
        ensures
            final(self).log() == old(self).log().push((Call::MintLpTokens { amount }, ok)),
    ;

    fn burn_lp_tokens(&mut self, amount: u64) -> (ok: bool)
        ensures
            final(self).log() == old(self).log().push((Call::BurnLpTokens { amount }, ok)),
    ;
}

/// The calls made from `pre` to `post` carry out `planned` up to the first
/// refusal: `post` extends `pre` by a non-empty leading part of `planned`,
/// every call but the last was accepted, the last was accepted only if it
/// ends the plan, and `ok` tells whether it was accepted.
pub open spec fn ran(pre: Seq<(Call, bool)>, post: Seq<(Call, bool)>, planned: Seq<Call>, ok: bool) -> bool {
    let made = post.subrange(pre.len() as int, post.len() as int);
    &&& pre.len() <= post.len()
    &&& post.subrange(0, pre.len() as int) == pre
    &&& 0 < made.len() <= planned.len()
    &&& forall|i: int| 0 <= i < made.len() ==> #[trigger] made[i].0 == planned[i]
    &&& forall|i: int| 0 <= i < made.len() - 1 ==> #[trigger] made[i].1
    &&& made.last().1 ==> made.len() == planned.len()
    &&& ok == made.last().1
}

/// `pre` and what was appended to it can be read back from `pre + made`.
pub proof fn lemma_appended(pre: Seq<(Call, bool)>, made: Seq<(Call, bool)>)
    ensures
        (pre + made).subrange(0, pre.len() as int) == pre,
        (pre + made).subrange(pre.len() as int, (pre + made).len() as int) == made,
{
    assert((pre + made).subrange(0, pre.len() as int) =~= pre);
    assert((pre + made).subrange(pre.len() as int, (pre + made).len() as int) =~= made);
}

/// A custodian that records every call and refuses the one at position
/// `refuse_at`, if any.
pub struct Ledger {
    pub entries: Vec<(Call, bool)>,
    pub refuse_at: Option<usize>,
}

impl Ledger {
    /// A ledger that accepts every call.
    pub fn new() -> (r: Ledger)
        ensures
            r.entries@ == Seq::<(Call, bool)>::empty(),
            r.refuse_at == None::<usize>,
    {
        Ledger { entries: Vec::new(), refuse_at: None }
    }

    /// A ledger that refuses its call at position `i`.
    pub fn refusing(i: usize) -> (r: Ledger)
        ensures
            r.entries@ == Seq::<(Call, bool)>::empty(),
            r.refuse_at == Some(i),
    {
        Ledger { entries: Vec::new(), refuse_at: Some(i) }
    }

    /// Record `c`; it is refused exactly at position `refuse_at`.
    fn record(&mut self, c: Call) -> (ok: bool)
        ensures
            ok == (old(self).refuse_at != Some(old(self).entries.len())),
            final(self).entries@ == old(self).entries@.push((c, ok)),
            final(self).refuse_at == old(self).refuse_at,
    {
        let ok = match self.refuse_at {
            Some(i) => i != self.entries.len(),
            None => true,
        };
        self.entries.push((c, ok));
        ok
    }
}

impl Custodian for Ledger {
    open spec fn log(&self) -> Seq<(Call, bool)> {
        self.entries@
    }

    fn deposit_token(&mut self, is_x: bool, amount: u64) -> (ok: bool) {
        self.record(Call::DepositToken { is_x, amount })
    }

    fn withdraw_token(&mut self, is_x: bool, amount: u64) -> (ok: bool) {
        self.record(Call::WithdrawToken { is_x, amount })
    }

    fn mint_lp_tokens(&mut self, amount: u64) -> (ok: bool) {
        self.record(Call::MintLpTokens { amount })
    }

    fn burn_lp_tokens(&mut self, amount: u64) -> (ok: bool) {
        self.record(Call::BurnLpTokens { amount })
    }
}

} // verus!
