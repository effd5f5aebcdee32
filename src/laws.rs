use crate::chef::{deposited, withdrawn, MasterChef};
use crate::reward::{
    accrued, lemma_accrued_monotone, multiplier, pending, refresh, refresh_or_keep, RewardParams,
};
use crate::types::{Address, PoolModel, UserModel};
use vstd::prelude::*;

verus! {

/// The multiplier is additive: splitting `from..to` at any `mid` between
/// them neither loses nor double-counts a checkpoint.
pub proof fn lemma_multiplier_additive(from: nat, mid: nat, to: nat, bonus_end: nat, bonus: nat)
    requires
        from <= mid <= to,
    ensures
        multiplier(from, mid, bonus_end, bonus) + multiplier(mid, to, bonus_end, bonus) == multiplier(
            from,
            to,
            bonus_end,
            bonus,
        ),
{
    let b = bonus as int;
    let (f, m, t, e) = (from as int, mid as int, to as int, bonus_end as int);
    if to <= bonus_end {
        assert((m - f) * b + (t - m) * b == (t - f) * b) by (nonlinear_arith);
    } else if mid <= bonus_end {
        assert((m - f) * b + (e - m) * b == (e - f) * b) by (nonlinear_arith);
    }
}

/// Depositing `d` and withdrawing `d` again with no checkpoint in between
/// pays no reward and leaves the staked amount where it was: the pool, once
/// brought current at `now`, does not change when brought current at `now`
/// again, and the fresh position owes nothing at that accumulator.
pub proof fn lemma_deposit_withdraw_round_trip(
    pool: PoolModel,
    u: UserModel,
    d: nat,
    now: nat,
    supply_before: nat,
    supply_after: nat,
    p: RewardParams,
)
    requires
        refresh(pool, now, supply_before, p) is Some,
    ensures
        ({
            let q = refresh(pool, now, supply_before, p)->0;
            let u1 = deposited(u, d, q.acc_sushi_per_share);
            &&& refresh(q, now, supply_after, p) == Some(q)
            &&& refresh_or_keep(q, now, supply_after, p) == q
            &&& pending(u1, q.acc_sushi_per_share) == 0
            &&& withdrawn(u1, d, q.acc_sushi_per_share).amount == u.amount
        }),
{
}

/// Depositing `d` into an empty position, depositing nothing later, and
/// withdrawing `d` later still hands back exactly the stake, and the two
/// payouts together are the reward credited to `d` over the whole span,
/// computed once: nothing is paid twice.
pub proof fn lemma_deposit_zero_then_withdraw(
    pool: PoolModel,
    d: nat,
    t1: nat,
    s1: nat,
    t2: nat,
    s2: nat,
    t3: nat,
    s3: nat,
    p: RewardParams,
)
    requires
        refresh(pool, t1, s1, p) is Some,
        refresh(refresh(pool, t1, s1, p)->0, t2, s2, p) is Some,
    ensures
        ({
            let q1 = refresh(pool, t1, s1, p)->0;
            let q2 = refresh(q1, t2, s2, p)->0;
            let q3 = refresh_or_keep(q2, t3, s3, p);
            let u1 = deposited(UserModel { amount: 0, reward_debt: 0 }, d, q1.acc_sushi_per_share);
            let u2 = deposited(u1, 0, q2.acc_sushi_per_share);
            let paid = (if u1.amount > 0 {
                pending(u1, q2.acc_sushi_per_share)
            } else {
                0
            }) + pending(u2, q3.acc_sushi_per_share);
            let stake = UserModel { amount: d, reward_debt: 0 };
            &&& paid == accrued(stake, q3.acc_sushi_per_share) - accrued(stake, q1.acc_sushi_per_share)
            &&& paid >= 0
            &&& withdrawn(u2, d, q3.acc_sushi_per_share).amount == 0
        }),
{
    let q1 = refresh(pool, t1, s1, p)->0;
    let q2 = refresh(q1, t2, s2, p)->0;
    let q3 = refresh_or_keep(q2, t3, s3, p);
    let stake = UserModel { amount: d, reward_debt: 0 };
    let u1 = deposited(UserModel { amount: 0, reward_debt: 0 }, d, q1.acc_sushi_per_share);
    let u2 = deposited(u1, 0, q2.acc_sushi_per_share);
    assert(UserModel { amount: 0 + d, reward_debt: 0 } == stake);
    assert(UserModel { amount: u1.amount + 0, reward_debt: 0 } == stake);
    assert(u1 == UserModel { amount: d, reward_debt: accrued(stake, q1.acc_sushi_per_share) });
    assert(u2 == UserModel { amount: d, reward_debt: accrued(stake, q2.acc_sushi_per_share) });
    assert(accrued(u1, q2.acc_sushi_per_share) == accrued(stake, q2.acc_sushi_per_share));
    assert(accrued(u2, q3.acc_sushi_per_share) == accrued(stake, q3.acc_sushi_per_share));
    lemma_accrued_monotone(stake, q1.acc_sushi_per_share, q3.acc_sushi_per_share);
    if d == 0 {
        assert(forall|acc: nat| #[trigger] (0 * acc) == 0) by (nonlinear_arith);
        assert(accrued(stake, q1.acc_sushi_per_share) == 0);
        assert(accrued(stake, q2.acc_sushi_per_share) == 0);
        assert(accrued(stake, q3.acc_sushi_per_share) == 0);
    }
}

/// What the read-only projection reports as owed to `user` in pool `pid`
/// equals what a withdrawal of the user's whole position at the same
/// checkpoint and balance pays out, wherever the projection succeeds; and
/// that amount is never negative.
pub proof fn lemma_pending_matches_withdraw(c: MasterChef, pid: nat, user: Address, now: nat, supply: nat)
    requires
        c.wf(),
        pid < c.pools().len(),
        c.refresh_at(pid as int, now, supply) is Some,
    ensures
        ({
            let u = c.position(pid, user);
            let reported = pending(u, c.refresh_at(pid as int, now, supply)->0.acc_sushi_per_share);
            let paid = pending(
                u,
                refresh_or_keep(c.pools()[pid as int], now, supply, c.params()).acc_sushi_per_share,
            );
            &&& reported == paid
            &&& reported >= 0
        }),
{
    let q = c.refresh_at(pid as int, now, supply)->0;
    c.lemma_debt_covered(pid, user, q);
}

} // verus!
