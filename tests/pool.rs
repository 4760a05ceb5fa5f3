use amm::curve::{deposit_amounts, initial_shares, isqrt, swap_amount_out, withdraw_amounts};
use amm::custody::{Call, Ledger};
use amm::error::AmmError;
use amm::instructions::deposit::Deposit;
use amm::instructions::initialize::Initialize;
use amm::instructions::swap::Swap;
use amm::instructions::withdraw::Withdraw;
use amm::state::Pool;
use amm::{deposit, initialize, swap, withdraw};

const ADMIN: u64 = 7;

fn empty_pool(fee: u16) -> Pool {
    initialize(1, 10, 20, fee, Some(ADMIN)).unwrap()
}

/// The pool after the bootstrap scenario: reserves (1_000_000, 4_000_000),
/// supply 2_000_000.
fn seeded_pool(fee: u16) -> Pool {
    let mut pool = empty_pool(fee);
    deposit(&mut pool, &mut Ledger::new(), 1, 1_000_000, 4_000_000).unwrap();
    pool
}

fn balances(p: &Pool) -> (u64, u64, u64) {
    (p.reserve_x, p.reserve_y, p.share_supply)
}

#[test]
fn initialize_makes_empty_unlocked_pool() {
    let pool = empty_pool(30);
    assert_eq!(balances(&pool), (0, 0, 0));
    assert!(!pool.locked);
    assert_eq!(pool.fee, 30);
    assert_eq!(pool.share_decimals, 6);
    assert_eq!(pool.authority, Some(ADMIN));
}

#[test]
fn initialize_rejects_same_assets_and_large_fee() {
    assert_eq!(initialize(1, 10, 10, 30, None).unwrap_err(), AmmError::InvalidAmount);
    assert_eq!(initialize(1, 10, 20, 10_001, None).unwrap_err(), AmmError::InvalidAmount);
    assert!(initialize(1, 10, 20, 10_000, None).is_ok());
    let config = Initialize { seed: 3, mint_x: 1, mint_y: 2, fee: 0, authority: None };
    assert_eq!(config.init().unwrap().seed, 3);
}

#[test]
fn bootstrap_grants_geometric_mean() {
    let mut pool = empty_pool(30);
    let mut ledger = Ledger::new();
    let d = deposit(&mut pool, &mut ledger, 123, 1_000_000, 4_000_000).unwrap();
    assert_eq!(d, Deposit { x: 1_000_000, y: 4_000_000, shares: 2_000_000 });
    assert_eq!(balances(&pool), (1_000_000, 4_000_000, 2_000_000));
    assert_eq!(
        ledger.entries,
        vec![
            (Call::DepositToken { is_x: true, amount: 1_000_000 }, true),
            (Call::DepositToken { is_x: false, amount: 4_000_000 }, true),
            (Call::MintLpTokens { amount: 2_000_000 }, true),
        ]
    );
}

#[test]
fn bootstrap_rejects_zero_maximum() {
    let pool = empty_pool(30);
    assert_eq!(pool.plan_deposit(5, 0, 10).unwrap_err(), AmmError::InvalidAmount);
    assert_eq!(pool.plan_deposit(5, 10, 0).unwrap_err(), AmmError::InvalidAmount);
}

#[test]
fn proportional_provide_rounds_up() {
    let mut pool = seeded_pool(30);
    let mut ledger = Ledger::new();
    let d = deposit(&mut pool, &mut ledger, 1_000_000, 600_000, 2_100_000).unwrap();
    assert_eq!(d, Deposit { x: 500_000, y: 2_000_000, shares: 1_000_000 });
    assert_eq!(
        ledger.entries,
        vec![
            (Call::DepositToken { is_x: true, amount: 500_000 }, true),
            (Call::DepositToken { is_x: false, amount: 2_000_000 }, true),
            (Call::MintLpTokens { amount: 1_000_000 }, true),
        ]
    );
    assert_eq!(balances(&pool), (1_500_000, 6_000_000, 3_000_000));
    // 3 * 1 / 2 rounds up to 2.
    let mut small = empty_pool(0);
    deposit(&mut small, &mut Ledger::new(), 1, 3, 3).unwrap();
    assert_eq!(small.share_supply, 3);
    assert_eq!(small.plan_deposit(1, 10, 10).unwrap(), Deposit { x: 1, y: 1, shares: 1 });
    assert_eq!(deposit_amounts(3, 5, 2, 1), Ok((2, 3)));
}

#[test]
fn provide_slippage_leaves_pool_unchanged() {
    let mut pool = seeded_pool(30);
    let before = balances(&pool);
    let mut ledger = Ledger::new();
    let r = deposit(&mut pool, &mut ledger, 1_000_000, 400_000, 2_100_000);
    assert_eq!(r, Err(AmmError::SlippageExceeded));
    assert_eq!(balances(&pool), before);
    assert!(ledger.entries.is_empty());
}

#[test]
fn provide_rejects_zero_amount() {
    let mut pool = seeded_pool(30);
    let mut ledger = Ledger::new();
    let r = deposit(&mut pool, &mut ledger, 0, 10, 10);
    assert_eq!(r, Err(AmmError::InvalidAmount));
    assert!(ledger.entries.is_empty());
}

#[test]
fn planning_errors_make_no_custodian_call() {
    let mut pool = seeded_pool(30);
    let mut ledger = Ledger::new();
    assert_eq!(withdraw(&mut pool, &mut ledger, 0, 1, 1), Err(AmmError::InvalidAmount));
    assert_eq!(withdraw(&mut pool, &mut ledger, 1, 1, 1), Err(AmmError::SlippageExceeded));
    assert_eq!(swap(&mut pool, &mut ledger, true, 0, 0), Err(AmmError::InvalidAmount));
    assert_eq!(swap(&mut pool, &mut ledger, true, 10_000, 40_000), Err(AmmError::SlippageExceeded));
    assert_eq!(
        deposit(&mut pool, &mut ledger, u64::MAX, u64::MAX, u64::MAX),
        Err(AmmError::ArithmeticOverflow)
    );
    assert!(ledger.entries.is_empty());
}

#[test]
fn provide_overflow_is_reported() {
    let mut pool = seeded_pool(30);
    let r = deposit(&mut pool, &mut Ledger::new(), u64::MAX, u64::MAX, u64::MAX);
    assert_eq!(r, Err(AmmError::ArithmeticOverflow));
    assert_eq!(deposit_amounts(u64::MAX, 1, 1, 2), Err(AmmError::ArithmeticOverflow));
    // Amounts that fit but would overflow the reserves.
    let mut big = empty_pool(0);
    deposit(&mut big, &mut Ledger::new(), 1, u64::MAX - 1, 1).unwrap();
    assert_eq!(big.share_supply, 4_294_967_295);
    let r = big.plan_deposit(4_294_967_295, u64::MAX, u64::MAX);
    assert_eq!(r, Err(AmmError::ArithmeticOverflow));
}

#[test]
fn swap_x_for_y() {
    let mut pool = seeded_pool(30);
    let mut ledger = Ledger::new();
    let s = swap(&mut pool, &mut ledger, true, 10_000, 0).unwrap();
    assert_eq!(s, Swap { is_x: true, amount_in: 10_000, amount_out: 39_486 });
    assert_eq!(balances(&pool), (1_010_000, 3_960_514, 2_000_000));
    assert!(1_010_000u128 * 3_960_514 >= 1_000_000u128 * 4_000_000);
    assert_eq!(
        ledger.entries,
        vec![
            (Call::DepositToken { is_x: true, amount: 10_000 }, true),
            (Call::WithdrawToken { is_x: false, amount: 39_486 }, true),
        ]
    );
}

#[test]
fn swap_y_for_x() {
    let mut pool = seeded_pool(0);
    let s = swap(&mut pool, &mut Ledger::new(), false, 4_000_000, 0).unwrap();
    assert_eq!(s.amount_out, 500_000);
    assert_eq!(balances(&pool), (500_000, 8_000_000, 2_000_000));
}

#[test]
fn swap_rejections() {
    let pool = seeded_pool(30);
    assert_eq!(pool.plan_swap(true, 0, 0).unwrap_err(), AmmError::InvalidAmount);
    assert_eq!(empty_pool(30).plan_swap(true, 10, 0).unwrap_err(), AmmError::InvalidAmount);
    // Too small to pay anything.
    assert_eq!(pool.plan_swap(true, 1, 0).unwrap_err(), AmmError::InvalidAmount);
    assert_eq!(pool.plan_swap(true, 10_000, 39_487).unwrap_err(), AmmError::SlippageExceeded);
    assert_eq!(pool.plan_swap(true, 10_000, 39_486).unwrap().amount_out, 39_486);
    assert_eq!(pool.plan_swap(true, u64::MAX, 0).unwrap_err(), AmmError::ArithmeticOverflow);
}

#[test]
fn full_fee_swap_pays_nothing() {
    let pool = seeded_pool(10_000);
    assert_eq!(pool.plan_swap(true, 10_000, 0).unwrap_err(), AmmError::InvalidAmount);
    assert_eq!(swap_amount_out(10_000, 1_000_000, 4_000_000, 10_000), 0);
}

#[test]
fn withdraw_rounds_down() {
    let mut pool = seeded_pool(30);
    let mut ledger = Ledger::new();
    let w = withdraw(&mut pool, &mut ledger, 500_000, 1, 1).unwrap();
    assert_eq!(w, Withdraw { x: 250_000, y: 1_000_000, shares: 500_000 });
    assert_eq!(balances(&pool), (750_000, 3_000_000, 1_500_000));
    assert_eq!(
        ledger.entries,
        vec![
            (Call::BurnLpTokens { amount: 500_000 }, true),
            (Call::WithdrawToken { is_x: true, amount: 250_000 }, true),
            (Call::WithdrawToken { is_x: false, amount: 1_000_000 }, true),
        ]
    );
    assert_eq!(withdraw_amounts(5, 7, 3, 1), (1, 2));
}

#[test]
fn withdraw_everything_empties_pool() {
    let mut pool = seeded_pool(30);
    withdraw(&mut pool, &mut Ledger::new(), 2_000_000, 1, 1).unwrap();
    assert_eq!(balances(&pool), (0, 0, 0));
}

#[test]
fn withdraw_rejections() {
    let pool = seeded_pool(30);
    assert_eq!(pool.plan_withdraw(0, 1, 1).unwrap_err(), AmmError::InvalidAmount);
    assert_eq!(pool.plan_withdraw(2_000_001, 1, 1).unwrap_err(), AmmError::InvalidAmount);
    assert_eq!(pool.plan_withdraw(10, 0, 1).unwrap_err(), AmmError::InvalidAmount);
    assert_eq!(pool.plan_withdraw(10, 1, 0).unwrap_err(), AmmError::InvalidAmount);
    assert_eq!(pool.plan_withdraw(500_000, 250_001, 1).unwrap_err(), AmmError::SlippageExceeded);
    assert_eq!(pool.plan_withdraw(500_000, 1, 1_000_001).unwrap_err(), AmmError::SlippageExceeded);
    // One share is worth less than one unit of X: nothing comes out.
    assert_eq!(pool.plan_withdraw(1, 1, 1).unwrap_err(), AmmError::SlippageExceeded);
}

#[test]
fn locked_pool_rejects_every_operation() {
    let mut pool = seeded_pool(30);
    let before = balances(&pool);
    assert_eq!(pool.set_lock(ADMIN, true), Ok(()));
    assert!(pool.locked);
    let mut ledger = Ledger::new();
    assert_eq!(deposit(&mut pool, &mut ledger, 1, 10, 10), Err(AmmError::PoolLocked));
    assert_eq!(withdraw(&mut pool, &mut ledger, 1, 1, 1), Err(AmmError::PoolLocked));
    assert_eq!(swap(&mut pool, &mut ledger, true, 10_000, 0), Err(AmmError::PoolLocked));
    assert_eq!(balances(&pool), before);
    assert!(ledger.entries.is_empty());
}

#[test]
fn unlocked_pool_accepts_operations() {
    let mut pool = seeded_pool(30);
    pool.set_lock(ADMIN, true).unwrap();
    pool.set_lock(ADMIN, false).unwrap();
    assert!(swap(&mut pool, &mut Ledger::new(), true, 10_000, 0).is_ok());
    assert!(withdraw(&mut pool, &mut Ledger::new(), 10, 1, 1).is_ok());
    assert!(deposit(&mut pool, &mut Ledger::new(), 10, 100, 100).is_ok());
}

#[test]
fn only_authority_may_lock() {
    let mut pool = seeded_pool(30);
    assert_eq!(pool.set_lock(ADMIN + 1, true), Err(AmmError::Unauthorized));
    assert!(!pool.locked);
    let mut open = initialize(1, 10, 20, 30, None).unwrap();
    assert_eq!(open.set_lock(ADMIN, true), Err(AmmError::Unauthorized));
}

#[test]
fn custodian_failure_leaves_pool_unchanged() {
    for i in 0..3 {
        let mut pool = seeded_pool(30);
        let before = balances(&pool);
        let mut ledger = Ledger::refusing(i);
        let r = deposit(&mut pool, &mut ledger, 1_000, 10_000, 10_000);
        assert_eq!(r, Err(AmmError::CustodianFailure));
        assert_eq!(balances(&pool), before);
        assert_eq!(ledger.entries.len(), i + 1);
        assert!(!ledger.entries[i].1);
        let mut ledger = Ledger::refusing(i);
        let r = withdraw(&mut pool, &mut ledger, 1_000, 1, 1);
        assert_eq!(r, Err(AmmError::CustodianFailure));
        assert_eq!(balances(&pool), before);
        assert_eq!(ledger.entries.len(), i + 1);
        assert_eq!(ledger.entries[0].0, Call::BurnLpTokens { amount: 1_000 });
    }
    for i in 0..2 {
        let mut pool = seeded_pool(30);
        let before = balances(&pool);
        let mut ledger = Ledger::refusing(i);
        let r = swap(&mut pool, &mut ledger, false, 10_000, 0);
        assert_eq!(r, Err(AmmError::CustodianFailure));
        assert_eq!(balances(&pool), before);
        assert_eq!(ledger.entries.len(), i + 1);
        assert_eq!(ledger.entries[0].0, Call::DepositToken { is_x: false, amount: 10_000 });
    }
}

#[test]
fn integer_square_root() {
    assert_eq!(isqrt(0), 0);
    assert_eq!(isqrt(1), 1);
    assert_eq!(isqrt(15), 3);
    assert_eq!(isqrt(16), 4);
    assert_eq!(isqrt(4_000_000_000_000), 2_000_000);
    assert_eq!(isqrt(u128::MAX), u64::MAX);
    assert_eq!(initial_shares(2, 8), 4);
    assert_eq!(initial_shares(u64::MAX, u64::MAX), u64::MAX);
}

#[test]
fn swap_raises_product_with_fee() {
    let mut pool = seeded_pool(30);
    let before = pool.reserve_x as u128 * pool.reserve_y as u128;
    swap(&mut pool, &mut Ledger::new(), false, 123_456, 0).unwrap();
    assert!(pool.reserve_x as u128 * pool.reserve_y as u128 > before);
}

#[test]
fn provide_and_withdraw_keep_share_value() {
    let mut pool = seeded_pool(30);
    swap(&mut pool, &mut Ledger::new(), true, 77_777, 0).unwrap();
    let (x0, y0, l0) = balances(&pool);
    deposit(&mut pool, &mut Ledger::new(), 333_333, u64::MAX, u64::MAX).unwrap();
    let (x1, y1, l1) = balances(&pool);
    assert!(x1 as u128 * l0 as u128 >= x0 as u128 * l1 as u128);
    assert!(y1 as u128 * l0 as u128 >= y0 as u128 * l1 as u128);
    withdraw(&mut pool, &mut Ledger::new(), 444_444, 1, 1).unwrap();
    let (x2, y2, l2) = balances(&pool);
    assert!(x2 as u128 * l1 as u128 >= x1 as u128 * l2 as u128);
    assert!(y2 as u128 * l1 as u128 >= y1 as u128 * l2 as u128);
}

#[test]
fn provide_then_withdraw_returns_no_more() {
    let mut pool = seeded_pool(30);
    swap(&mut pool, &mut Ledger::new(), true, 12_345, 0).unwrap();
    let d = deposit(&mut pool, &mut Ledger::new(), 333_333, u64::MAX, u64::MAX).unwrap();
    let w = withdraw(&mut pool, &mut Ledger::new(), d.shares, 1, 1).unwrap();
    assert!(w.x <= d.x);
    assert!(w.y <= d.y);
}

#[test]
fn swap_back_returns_less() {
    let mut pool = seeded_pool(30);
    let s = swap(&mut pool, &mut Ledger::new(), true, 10_000, 0).unwrap();
    let t = swap(&mut pool, &mut Ledger::new(), false, s.amount_out, 0).unwrap();
    assert_eq!(t.amount_out, 9_940);
    assert!(t.amount_out < 10_000);
}

#[test]
fn swap_back_without_fee_may_return_all() {
    let mut pool = empty_pool(0);
    deposit(&mut pool, &mut Ledger::new(), 1, 1, 2).unwrap();
    let s = swap(&mut pool, &mut Ledger::new(), true, 1, 0).unwrap();
    assert_eq!(s.amount_out, 1);
    let t = swap(&mut pool, &mut Ledger::new(), false, 1, 0).unwrap();
    assert_eq!(t.amount_out, 1);
}
