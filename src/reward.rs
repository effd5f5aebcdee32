use crate::types::{PoolInfo, PoolModel, UserModel};
use crate::word::word_modulus;
use vstd::arithmetic::div_mod::lemma_div_is_ordered;
use vstd::arithmetic::mul::lemma_mul_inequality;
use vstd::prelude::*;

verus! {

/// Fixed-point scale of the reward accumulator.
pub const SCALE: u64 = 1_000_000_000_000;

/// Emission multiplier during the bonus period.
pub const BONUS_MULTIPLIER: u64 = 10;

/// The dev address receives one part in this many of each emission.
pub const DEV_DIVISOR: u64 = 10;

/// The global settings that the accrual of a pool reads.
pub struct RewardParams {
    pub bonus_end_block: nat,
    pub bonus_multiplier: nat,
    pub sushi_per_block: nat,
    pub total_alloc_point: nat,
}

pub open spec fn fits(x: nat) -> bool {
    x < word_modulus()
}

/// Bonus-weighted number of emission units in the checkpoints `from..to`.
pub open spec fn multiplier(from: nat, to: nat, bonus_end: nat, bonus: nat) -> nat {
    if to <= bonus_end {
        ((to - from) * bonus) as nat
    } else if from >= bonus_end {
        (to - from) as nat
    } else {
        ((bonus_end - from) * bonus + (to - bonus_end)) as nat
    }
}

/// Reward that a pool earns from its last checkpoint up to `now`
/// (`None` where an intermediate product leaves 256 bits).
pub open spec fn pool_reward(pool: PoolModel, now: nat, p: RewardParams) -> Option<nat> {
    let m = multiplier(pool.last_reward_block, now, p.bonus_end_block, p.bonus_multiplier);
    let a = m * p.sushi_per_block;
    let b = a * pool.alloc_point;
    if !fits(m) || !fits(a) || !fits(b) {
        None
    } else if p.total_alloc_point == 0 {
        Some(0)
    } else {
        Some(b / p.total_alloc_point)
    }
}

/// The reward minted by bringing `pool` current at `now`, when it accrues.
pub open spec fn emission(pool: PoolModel, now: nat, supply: nat, p: RewardParams) -> Option<nat> {
    if now <= pool.last_reward_block || supply == 0 {
        None
    } else {
        pool_reward(pool, now, p)
    }
}

/// `pool` brought current at `now`, given the ledger's balance `supply` of its
/// staked asset (`None` where the arithmetic leaves 256 bits).
pub open spec fn refresh(pool: PoolModel, now: nat, supply: nat, p: RewardParams) -> Option<PoolModel> {
    if now <= pool.last_reward_block {
        Some(pool)
    } else if supply == 0 {
        Some(PoolModel { last_reward_block: now, ..pool })
    } else {
        match pool_reward(pool, now, p) {
            None => None,
            Some(reward) => {
                let x: nat = reward * (SCALE as nat);
                let acc: nat = pool.acc_sushi_per_share + x / supply;
                if !fits(x) || !fits(acc) {
                    None
                } else {
                    Some(PoolModel { acc_sushi_per_share: acc, last_reward_block: now, ..pool })
                }
            },
        }
    }
}

/// `pool` refreshed where that succeeds, else as it was.
pub open spec fn refresh_or_keep(pool: PoolModel, now: nat, supply: nat, p: RewardParams) -> PoolModel {
    match refresh(pool, now, supply, p) {
        Some(q) => q,
        None => pool,
    }
}

/// Reward units credited to a position at accumulator value `acc`.
pub open spec fn accrued(u: UserModel, acc: nat) -> nat {
    u.amount * acc / (SCALE as nat)
}

/// Reward owed to a position at accumulator value `acc`.
pub open spec fn pending(u: UserModel, acc: nat) -> int {
    accrued(u, acc) - u.reward_debt
}

/// Sum of the pools' allocation weights.
pub open spec fn alloc_sum(s: Seq<PoolInfo>) -> nat
    decreases s.len(),
{
    if s.len() == 0 {
        0
    } else {
        alloc_sum(s.drop_last()) + s.last().alloc_point@
    }
}

pub proof fn lemma_alloc_sum_push(s: Seq<PoolInfo>, p: PoolInfo)
    ensures
        alloc_sum(s.push(p)) == alloc_sum(s) + p.alloc_point@,
{
    assert(s.push(p).drop_last() =~= s);
}

pub proof fn lemma_alloc_sum_update(s: Seq<PoolInfo>, i: int, p: PoolInfo)
    requires
        0 <= i < s.len(),
    ensures
        alloc_sum(s.update(i, p)) == alloc_sum(s) - s[i].alloc_point@ + p.alloc_point@,
        s[i].alloc_point@ <= alloc_sum(s),
    decreases s.len(),
{
    if i == s.len() - 1 {
        assert(s.update(i, p).drop_last() =~= s.drop_last());
    } else {
        lemma_alloc_sum_update(s.drop_last(), i, p);
        assert(s.update(i, p).drop_last() =~= s.drop_last().update(i, p));
    }
}

pub proof fn lemma_alloc_sum_same(s: Seq<PoolInfo>, t: Seq<PoolInfo>)
    requires
        s.len() == t.len(),
        forall|i: int| 0 <= i < s.len() ==> #[trigger] s[i].alloc_point@ == t[i].alloc_point@,
    ensures
        alloc_sum(s) == alloc_sum(t),
    decreases s.len(),
{
    if s.len() > 0 {
        lemma_alloc_sum_same(s.drop_last(), t.drop_last());
    }
}

/// The credited reward never falls as the accumulator grows.
pub proof fn lemma_accrued_monotone(u: UserModel, acc1: nat, acc2: nat)
    requires
        acc1 <= acc2,
    ensures
        accrued(u, acc1) <= accrued(u, acc2),
{
    lemma_mul_inequality(acc1 as int, acc2 as int, u.amount as int);
    assert(u.amount * acc1 == acc1 * u.amount) by (nonlinear_arith);
    assert(u.amount * acc2 == acc2 * u.amount) by (nonlinear_arith);
    lemma_div_is_ordered((u.amount * acc1) as int, (u.amount * acc2) as int, SCALE as int);
}

/// Refreshing only moves a pool's checkpoint and accumulator forward.
pub proof fn lemma_refresh_keeps(pool: PoolModel, now: nat, supply: nat, p: RewardParams)
    ensures
        ({
            let q = refresh_or_keep(pool, now, supply, p);
            &&& q.lp_token == pool.lp_token
            &&& q.alloc_point == pool.alloc_point
            &&& q.acc_sushi_per_share >= pool.acc_sushi_per_share
            &&& q.last_reward_block >= pool.last_reward_block
        }),
{
}

} // verus!
