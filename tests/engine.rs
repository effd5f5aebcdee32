use masterchef::chef::MasterChef;
use masterchef::types::{Address, MasterChefError};
use masterchef::word::Word;

fn w(x: u64) -> Word {
    Word::from_u64(x)
}

fn addr(n: u64) -> Address {
    Address { high: 0, mid: 0, low: n }
}

const OWNER: u64 = 1;
const DEV: u64 = 2;
const SUSHI: u64 = 3;
const LP: u64 = 4;
const ALICE: u64 = 5;
const CHEF: u64 = 6;

/// An initialized ledger: bonus ends at `bonus_end`, 10 units per checkpoint.
fn chef(bonus_end: u64) -> MasterChef {
    let mut c = MasterChef::new();
    c.initialize(addr(OWNER), addr(SUSHI), addr(DEV), w(bonus_end), w(10), w(0)).unwrap();
    c
}

/// An initialized ledger with no bonus and one pool of weight 100 that
/// starts accruing at checkpoint 1.
fn chef_with_pool() -> MasterChef {
    let mut c = chef(0);
    c.add(addr(OWNER), w(100), addr(LP), false, w(1), &vec![]).unwrap();
    c
}

#[test]
fn multiplier_straddling_bonus_end() {
    let c = chef(100);
    assert_eq!(c.get_multiplier(w(90), w(110)).unwrap(), w(110));
}

#[test]
fn multiplier_inside_and_after_bonus() {
    let c = chef(100);
    assert_eq!(c.get_multiplier(w(10), w(20)).unwrap(), w(100));
    assert_eq!(c.get_multiplier(w(100), w(130)).unwrap(), w(30));
    assert_eq!(c.get_multiplier(w(50), w(50)).unwrap(), w(0));
}

#[test]
fn multiplier_is_additive_on_examples() {
    let c = chef(100);
    for (from, mid, to) in [(90u64, 95u64, 110u64), (90, 100, 110), (90, 105, 110), (0, 50, 300)] {
        let a = c.get_multiplier(w(from), w(mid)).unwrap();
        let b = c.get_multiplier(w(mid), w(to)).unwrap();
        let whole = c.get_multiplier(w(from), w(to)).unwrap();
        assert_eq!(a.l0 + b.l0, whole.l0);
    }
}

#[test]
fn multiplier_across_limbs() {
    let c = chef(u64::MAX);
    // (2^64 - 1 - 0) * 10 spills into the second limb.
    let m = c.get_multiplier(w(0), w(u64::MAX)).unwrap();
    assert_eq!(m, Word { l0: u64::MAX - 9, l1: 9, l2: 0, l3: 0 });
}

#[test]
fn multiplier_overflow_is_reported() {
    let mut c = MasterChef::new();
    let top = Word { l0: 0, l1: 0, l2: 0, l3: u64::MAX };
    c.initialize(addr(OWNER), addr(SUSHI), addr(DEV), top, w(10), w(0)).unwrap();
    assert_eq!(c.get_multiplier(w(0), top), Err(MasterChefError::ArithmeticOverflow));
}

#[test]
fn initialize_only_once() {
    let mut c = chef(100);
    assert_eq!(c.owner, addr(OWNER));
    assert_eq!(c.bonus_multiplier, w(10));
    let again = c.initialize(addr(ALICE), addr(SUSHI), addr(DEV), w(1), w(1), w(1));
    assert_eq!(again, Err(MasterChefError::AlreadyInitialized));
    assert_eq!(c.owner, addr(OWNER));
}

#[test]
fn add_and_set_track_total_weight() {
    let mut c = chef(0);
    c.add(addr(OWNER), w(30), addr(LP), false, w(1), &vec![]).unwrap();
    c.add(addr(OWNER), w(70), addr(LP + 10), false, w(1), &vec![]).unwrap();
    assert_eq!(c.total_alloc_point, w(100));
    assert_eq!(c.pool_length(), 2);
    c.set(addr(OWNER), 0, w(50), false, w(1), &vec![]).unwrap();
    assert_eq!(c.total_alloc_point, w(120));
    assert_eq!(c.pool_info[0].alloc_point, w(50));
}

#[test]
fn add_start_checkpoint_rule() {
    let mut c = MasterChef::new();
    c.initialize(addr(OWNER), addr(SUSHI), addr(DEV), w(0), w(10), w(50)).unwrap();
    // Before the start checkpoint: the pool starts at the start checkpoint.
    c.add(addr(OWNER), w(1), addr(LP), false, w(7), &vec![]).unwrap();
    assert_eq!(c.pool_info[0].last_reward_block, w(50));
    // At it: still the start checkpoint.
    c.add(addr(OWNER), w(1), addr(LP), false, w(50), &vec![]).unwrap();
    assert_eq!(c.pool_info[1].last_reward_block, w(50));
    // Past it: the pool starts now.
    c.add(addr(OWNER), w(1), addr(LP), false, w(60), &vec![]).unwrap();
    assert_eq!(c.pool_info[2].last_reward_block, w(60));
}

#[test]
fn admin_operations_need_the_owner() {
    let mut c = chef_with_pool();
    assert_eq!(c.add(addr(ALICE), w(1), addr(LP), false, w(1), &vec![]), Err(MasterChefError::NonOwner));
    assert_eq!(c.set(addr(ALICE), 0, w(1), false, w(1), &vec![]), Err(MasterChefError::NonOwner));
    assert_eq!(c.set_migrator(addr(ALICE), addr(9)), Err(MasterChefError::NonOwner));
    assert_eq!(c.set(addr(OWNER), 3, w(1), false, w(1), &vec![]), Err(MasterChefError::PoolDoesNotExist));
    assert_eq!(c.total_alloc_point, w(100));
}

#[test]
fn dev_role_moves_only_by_itself() {
    let mut c = chef(0);
    assert_eq!(c.dev(addr(OWNER), addr(ALICE)), Err(MasterChefError::NotDevAddress));
    assert_eq!(c.dev(addr(DEV), addr(ALICE)), Ok(()));
    assert_eq!(c.dev_addr, addr(ALICE));
}

#[test]
fn update_pool_accrues_and_mints() {
    let mut c = chef_with_pool();
    // Empty pool: only the checkpoint moves.
    assert_eq!(c.update_pool(0, w(10), w(0)), Ok(None));
    assert_eq!(c.pool_info[0].last_reward_block, w(10));
    assert_eq!(c.pool_info[0].acc_sushi_per_share, w(0));
    // 10 checkpoints * 10 units, all weight in this pool, 50 staked.
    let e = c.update_pool(0, w(20), w(50)).unwrap().unwrap();
    assert_eq!(e.to_chef, w(100));
    assert_eq!(e.to_dev, w(10));
    assert_eq!(c.pool_info[0].acc_sushi_per_share, w(2_000_000_000_000));
    // Same checkpoint again: nothing.
    assert_eq!(c.update_pool(0, w(20), w(50)), Ok(None));
    assert_eq!(c.update_pool(1, w(20), w(50)), Err(MasterChefError::PoolDoesNotExist));
}

#[test]
fn mass_update_refreshes_every_pool() {
    let mut c = chef(0);
    c.add(addr(OWNER), w(30), addr(LP), false, w(1), &vec![]).unwrap();
    c.add(addr(OWNER), w(70), addr(LP + 1), false, w(1), &vec![]).unwrap();
    let out = c.mass_update_pools(w(11), &vec![w(10), w(0)]).unwrap();
    assert_eq!(out.len(), 2);
    // 10 checkpoints * 10 units * 30/100.
    assert_eq!(out[0].unwrap().to_chef, w(30));
    assert_eq!(out[1], None);
    assert_eq!(c.pool_info[0].acc_sushi_per_share, w(3_000_000_000_000));
    assert_eq!(c.pool_info[1].last_reward_block, w(11));
}

#[test]
fn deposit_zero_then_withdraw() {
    let mut c = chef_with_pool();
    let d1 = c.deposit(0, addr(ALICE), w(100), w(10), w(0), true).unwrap();
    assert_eq!(d1.reward, w(0));
    let d2 = c.deposit(0, addr(ALICE), w(0), w(20), w(100), true).unwrap();
    assert_eq!(d2.reward, w(100));
    let pos = c.user_info.get(0, addr(ALICE));
    assert_eq!(pos.amount, w(100));
    assert_eq!(pos.reward_debt, w(100));
    let out = c.withdraw(0, addr(ALICE), w(100), w(30), w(100)).unwrap();
    assert_eq!(out.amount, w(100));
    assert_eq!(out.reward, w(100));
    // Everything emitted over checkpoints 10..30 was paid once, no more.
    assert_eq!(d1.reward.l0 + d2.reward.l0 + out.reward.l0, 200);
    assert_eq!(c.user_info.get(0, addr(ALICE)).amount, w(0));
}

#[test]
fn deposit_then_withdraw_same_checkpoint() {
    let mut c = chef_with_pool();
    c.update_pool(0, w(5), w(40)).unwrap();
    c.deposit(0, addr(ALICE), w(1000), w(9), w(40), true).unwrap();
    let out = c.withdraw(0, addr(ALICE), w(1000), w(9), w(1040)).unwrap();
    assert_eq!(out.reward, w(0));
    assert_eq!(out.amount, w(1000));
    assert_eq!(out.emission, None);
}

#[test]
fn pending_matches_withdraw_payout() {
    let mut c = chef_with_pool();
    c.deposit(0, addr(ALICE), w(300), w(10), w(0), true).unwrap();
    let seen = c.pending_sushi(0, addr(ALICE), w(25), w(300)).unwrap();
    assert_eq!(seen, w(150));
    let out = c.withdraw(0, addr(ALICE), w(300), w(25), w(300)).unwrap();
    assert_eq!(out.reward, seen);
    assert_eq!(c.pending_sushi(7, addr(ALICE), w(25), w(300)), Ok(w(0)));
}

#[test]
fn emergency_withdraw_forfeits_reward() {
    let mut c = chef_with_pool();
    c.deposit(0, addr(ALICE), w(300), w(10), w(0), true).unwrap();
    c.deposit(0, addr(ALICE), w(200), w(20), w(300), true).unwrap();
    assert_eq!(c.emergency_withdraw(0, addr(ALICE)), Ok(w(500)));
    let pos = c.user_info.get(0, addr(ALICE));
    assert_eq!(pos.amount, w(0));
    assert_eq!(pos.reward_debt, w(0));
    assert_eq!(c.pending_sushi(0, addr(ALICE), w(40), w(0)), Ok(w(0)));
    assert_eq!(c.emergency_withdraw(4, addr(ALICE)), Err(MasterChefError::PoolDoesNotExist));
}

#[test]
fn withdraw_errors() {
    let mut c = chef_with_pool();
    c.deposit(0, addr(ALICE), w(10), w(10), w(0), true).unwrap();
    assert_eq!(c.withdraw(0, addr(ALICE), w(11), w(10), w(10)).map(|o| o.amount), Err(MasterChefError::UserNotStaked));
    assert_eq!(c.withdraw(3, addr(ALICE), w(0), w(10), w(10)).map(|o| o.amount), Err(MasterChefError::PoolDoesNotExist));
}

#[test]
fn deposit_fails_without_stake_or_pool() {
    let mut c = chef_with_pool();
    assert_eq!(
        c.deposit(0, addr(ALICE), w(10), w(10), w(0), false).map(|o| o.reward),
        Err(MasterChefError::InternalCallError)
    );
    assert_eq!(c.user_info.get(0, addr(ALICE)).amount, w(0));
    assert_eq!(
        c.deposit(2, addr(ALICE), w(10), w(10), w(0), true).map(|o| o.reward),
        Err(MasterChefError::PoolDoesNotExist)
    );
}

#[test]
fn deposit_overflow_is_reported() {
    let mut c = chef_with_pool();
    let top = Word { l0: u64::MAX, l1: u64::MAX, l2: u64::MAX, l3: u64::MAX };
    c.deposit(0, addr(ALICE), top, w(10), w(0), true).unwrap();
    assert_eq!(
        c.deposit(0, addr(ALICE), w(1), w(10), w(0), true).map(|o| o.reward),
        Err(MasterChefError::ArithmeticOverflow)
    );
}

#[test]
fn migrate_checks_balances() {
    let mut c = chef_with_pool();
    assert_eq!(c.migration_source(0), Err(MasterChefError::NoMigratorExist));
    assert_eq!(c.migrate(0, w(5), addr(77), w(5)), Err(MasterChefError::NoMigratorExist));
    c.set_migrator(addr(OWNER), addr(99)).unwrap();
    assert_eq!(c.migration_source(0), Ok(addr(LP)));
    assert_eq!(c.migration_source(1), Err(MasterChefError::PoolDoesNotExist));
    assert_eq!(c.migrate(0, w(5), addr(77), w(4)), Err(MasterChefError::NotMigrated));
    assert_eq!(c.pool_info[0].lp_token, addr(LP));
    assert_eq!(c.migrate(0, w(5), addr(77), w(5)), Ok(()));
    assert_eq!(c.pool_info[0].lp_token, addr(77));
}

#[test]
fn safe_transfer_clamps_to_balance() {
    let c = chef(0);
    assert_eq!(c.safe_sushi_transfer(addr(CHEF), addr(CHEF), w(50), w(20)), Ok(w(20)));
    assert_eq!(c.safe_sushi_transfer(addr(CHEF), addr(CHEF), w(10), w(20)), Ok(w(10)));
    assert_eq!(c.safe_sushi_transfer(addr(ALICE), addr(CHEF), w(10), w(20)), Err(MasterChefError::InternalCallError));
}
