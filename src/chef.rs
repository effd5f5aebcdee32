use crate::ledger::PositionLedger;
use crate::reward::{
    accrued, alloc_sum, pending, emission, lemma_accrued_monotone, lemma_alloc_sum_push,
    lemma_alloc_sum_same, lemma_alloc_sum_update, lemma_refresh_keeps, multiplier, refresh,
    refresh_or_keep, RewardParams, BONUS_MULTIPLIER, DEV_DIVISOR, SCALE,
};
use crate::types::{Address, Emission, MasterChefError, PoolInfo, PoolModel, UserInfo, UserModel};
use crate::word::{checked_add, checked_div, checked_mul, checked_sub, word_modulus, Word};
use vstd::arithmetic::mul::lemma_mul_inequality;
use vstd::prelude::*;

verus! {

/// The scalar settings of the ledger, as numbers.
pub struct Config {
    pub owner: Address,
    pub sushi: Address,
    pub dev_addr: Address,
    pub bonus_end_block: nat,
    pub sushi_per_block: nat,
    pub bonus_multiplier: nat,
    pub migrator: Address,
    pub total_alloc_point: nat,
    pub start_block: nat,
}

/// The staking and reward ledger: its settings, its pools, and every
/// holder's position in them.
pub struct MasterChef {
    pub owner: Address,
    pub sushi: Address,
    pub dev_addr: Address,
    pub bonus_end_block: Word,
    pub sushi_per_block: Word,
    pub bonus_multiplier: Word,
    pub migrator: Address,
    pub pool_info: Vec<PoolInfo>,
    pub user_info: PositionLedger,
    pub total_alloc_point: Word,
    pub start_block: Word,
}

/// What a deposit asks the caller to carry out: the mint of the pool's
/// emission and the payout of the reward owed.
#[derive(Clone, Copy, Debug)]
pub struct DepositOutcome {
    pub emission: Option<Emission>,
    pub reward: Word,
}

/// What a withdrawal asks the caller to carry out: the mint of the pool's
/// emission, the payout of the reward owed, and the return of `amount` of
/// the staked asset.
#[derive(Clone, Copy, Debug)]
pub struct WithdrawOutcome {
    pub emission: Option<Emission>,
    pub reward: Word,
    pub amount: Word,
}

/// `e` is the emission that bringing `pool` current at `now` mints.
pub open spec fn emits(e: Option<Emission>, pool: PoolModel, now: nat, supply: nat, p: RewardParams) -> bool {
    &&& e is Some <==> emission(pool, now, supply, p) is Some
    &&& e is Some ==> e->0.to_chef@ == emission(pool, now, supply, p)->0
    &&& e is Some ==> e->0.to_dev@ == e->0.to_chef@ / (DEV_DIVISOR as nat)
}

/// A position after depositing `amount` at accumulator value `acc`.
pub open spec fn deposited(u: UserModel, amount: nat, acc: nat) -> UserModel {
    UserModel {
        amount: u.amount + amount,
        reward_debt: accrued(UserModel { amount: u.amount + amount, reward_debt: 0 }, acc),
    }
}

/// A position after withdrawing `amount` at accumulator value `acc`.
pub open spec fn withdrawn(u: UserModel, amount: nat, acc: nat) -> UserModel {
    UserModel {
        amount: (u.amount - amount) as nat,
        reward_debt: accrued(UserModel { amount: (u.amount - amount) as nat, reward_debt: 0 }, acc),
    }
}

/// `amount * acc / SCALE`, or `None` where the product leaves 256 bits.
fn scaled_share(amount: Word, acc: Word) -> (r: Option<Word>)
    ensures
        r is Some <==> amount@ * acc@ < word_modulus(),
        r is Some ==> r->0@ == accrued(UserModel { amount: amount@, reward_debt: 0 }, acc@),
{
    match checked_mul(amount, acc) {
        Some(x) => checked_div(x, Word::from_u64(SCALE)),
        None => None,
    }
}

/// The reward owed to `u` at accumulator value `acc`, or `None` where the
/// arithmetic leaves 256 bits or the debt exceeds the credit.
fn owed(u: UserInfo, acc: Word) -> (r: Option<Word>)
    ensures
        r is Some <==> u.amount@ * acc@ < word_modulus() && u.reward_debt@ <= accrued(u@, acc@),
        r is Some ==> r->0@ == pending(u@, acc@),
{
    match scaled_share(u.amount, acc) {
        Some(x) => checked_sub(x, u.reward_debt),
        None => None,
    }
}

/// A state that differs from a well-formed one only by pools whose weights
/// are kept and whose accumulators grew is well-formed.
pub proof fn lemma_wf_pools_grow(a: MasterChef, b: MasterChef)
    requires
        a.wf(),
        b.user_info == a.user_info,
        b.total_alloc_point == a.total_alloc_point,
        b.pool_info@.len() == a.pool_info@.len(),
        forall|i: int|
            0 <= i < a.pool_info@.len() ==> #[trigger] b.pool_info@[i].alloc_point@
                == a.pool_info@[i].alloc_point@ && b.pool_info@[i].acc_sushi_per_share@
                >= a.pool_info@[i].acc_sushi_per_share@,
    ensures
        b.wf(),
{
    lemma_alloc_sum_same(a.pool_info@, b.pool_info@);
    assert forall|k: (nat, Address)| #[trigger] b.users().contains_key(k) implies k.0 < b.pool_info@.len()
        && b.users()[k].reward_debt <= accrued(
        b.users()[k],
        b.pool_info@[k.0 as int].acc_sushi_per_share@,
    ) by {
        assert(a.users().contains_key(k));
        let i = k.0 as int;
        assert(b.pool_info@[i].alloc_point@ == a.pool_info@[i].alloc_point@);
        lemma_accrued_monotone(
            a.users()[k],
            a.pool_info@[i].acc_sushi_per_share@,
            b.pool_info@[i].acc_sushi_per_share@,
        );
    }
}

impl MasterChef {
    pub open spec fn config(&self) -> Config {
        Config {
            owner: self.owner,
            sushi: self.sushi,
            dev_addr: self.dev_addr,
            bonus_end_block: self.bonus_end_block@,
            sushi_per_block: self.sushi_per_block@,
            bonus_multiplier: self.bonus_multiplier@,
            migrator: self.migrator,
            total_alloc_point: self.total_alloc_point@,
            start_block: self.start_block@,
        }
    }

    pub open spec fn params(&self) -> RewardParams {
        RewardParams {
            bonus_end_block: self.bonus_end_block@,
            bonus_multiplier: self.bonus_multiplier@,
            sushi_per_block: self.sushi_per_block@,
            total_alloc_point: self.total_alloc_point@,
        }
    }

    /// The pools, as numbers.
    pub open spec fn pools(&self) -> Seq<PoolModel> {
        self.pool_info@.map_values(|p: PoolInfo| p@)
    }

    /// The positions that were ever written.
    pub open spec fn users(&self) -> Map<(nat, Address), UserModel> {
        self.user_info.map@
    }

    /// The position of `user` in pool `pid`.
    pub open spec fn position(&self, pid: nat, user: Address) -> UserModel {
        self.user_info.at(pid, user)
    }

    /// Pool `pid` brought current at `now` with staked balance `supply`.
    pub open spec fn refresh_at(&self, pid: int, now: nat, supply: nat) -> Option<PoolModel> {
        refresh(self.pools()[pid], now, supply, self.params())
    }

    /// Every pool can be brought current at `now` with the balances `supplies`.
    pub open spec fn all_refresh(&self, now: nat, supplies: Seq<Word>) -> bool {
        forall|i: int| 0 <= i < self.pools().len() ==> #[trigger] self.refresh_at(i, now, supplies[i]@) is Some
    }

    /// The pools, each brought current where that succeeds.
    pub open spec fn refreshed_pools(&self, now: nat, supplies: Seq<Word>) -> Seq<PoolModel> {
        Seq::new(
            self.pools().len(),
            |i: int| refresh_or_keep(self.pools()[i], now, supplies[i]@, self.params()),
        )
    }

    /// The pools after an optional refresh of all of them, which is applied
    /// only where every pool succeeds.
    pub open spec fn base_pools(&self, with_update: bool, now: nat, supplies: Seq<Word>) -> Seq<PoolModel> {
        if with_update && self.all_refresh(now, supplies) {
            self.refreshed_pools(now, supplies)
        } else {
            self.pools()
        }
    }

    /// `out` is what an optional refresh of all pools asks to mint.
    pub open spec fn emissions_of(
        &self,
        out: Seq<Option<Emission>>,
        with_update: bool,
        now: nat,
        supplies: Seq<Word>,
    ) -> bool {
        if with_update && self.all_refresh(now, supplies) {
            &&& out.len() == self.pools().len()
            &&& forall|i: int|
                0 <= i < out.len() ==> emits(
                    #[trigger] out[i],
                    self.pools()[i],
                    now,
                    supplies[i]@,
                    self.params(),
                )
        } else {
            out.len() == 0
        }
    }

    pub open spec fn wf(&self) -> bool {
        &&& self.user_info.wf()
        &&& self.total_alloc_point@ == alloc_sum(self.pool_info@)
        &&& forall|k: (nat, Address)| #[trigger]
            self.users().contains_key(k) ==> k.0 < self.pool_info@.len()
                && self.users()[k].reward_debt <= accrued(
                self.users()[k],
                self.pool_info@[k.0 as int].acc_sushi_per_share@,
            )
    }

    /// A ledger before initialization: nothing set, no pools.
    pub fn new() -> (r: MasterChef)
        ensures
            r.wf(),
            r.config() == (Config {
                owner: Address::spec_null(),
                sushi: Address::spec_null(),
                dev_addr: Address::spec_null(),
                bonus_end_block: 0,
                sushi_per_block: 0,
                bonus_multiplier: 0,
                migrator: Address::spec_null(),
                total_alloc_point: 0,
                start_block: 0,
            }),
            r.pools() == Seq::<PoolModel>::empty(),
            r.users() == Map::<(nat, Address), UserModel>::empty(),
    {
        let r = MasterChef {
            owner: Address::null(),
            sushi: Address::null(),
            dev_addr: Address::null(),
            bonus_end_block: Word::zero(),
            sushi_per_block: Word::zero(),
            bonus_multiplier: Word::zero(),
            migrator: Address::null(),
            pool_info: Vec::new(),
            user_info: PositionLedger::new(),
            total_alloc_point: Word::zero(),
            start_block: Word::zero(),
        };
        assert(r.pools() =~= Seq::<PoolModel>::empty());
        r
    }

    pub fn pool_length(&self) -> (r: usize)
        ensures
            r == self.pool_info@.len(),
    {
        self.pool_info.len()
    }

    /// One-time set-up; `sender` becomes the owner.
    pub fn initialize(
        &mut self,
        sender: Address,
        sushi: Address,
        dev_addr: Address,
        bonus_end_block: Word,
        sushi_per_block: Word,
        start_block: Word,
    ) -> (r: Result<(), MasterChefError>)
        requires
            old(self).wf(),
        ensures
            final(self).wf(),
            final(self).pools() == old(self).pools(),
            final(self).users() == old(self).users(),
            old(self).owner != Address::spec_null() ==> r == Err::<(), MasterChefError>(
                MasterChefError::AlreadyInitialized,
            ) && final(self).config() == old(self).config(),
            old(self).owner == Address::spec_null() ==> r is Ok && final(self).config() == (Config {
                owner: sender,
                sushi,
                dev_addr,
                bonus_end_block: bonus_end_block@,
                sushi_per_block: sushi_per_block@,
                bonus_multiplier: BONUS_MULTIPLIER as nat,
                start_block: start_block@,
                ..old(self).config()
            }),
    {
        if !self.owner.is_null() {
            return Err(MasterChefError::AlreadyInitialized);
        }
        self.owner = sender;
        self.sushi = sushi;
        self.dev_addr = dev_addr;
        self.bonus_end_block = bonus_end_block;
        self.sushi_per_block = sushi_per_block;
        self.bonus_multiplier = Word::from_u64(BONUS_MULTIPLIER);
        self.start_block = start_block;
        assert(self.users() == old(self).users());
        assert(self.pool_info@ == old(self).pool_info@);
        Ok(())
    }

    /// Sets the migration authority; owner only.
    pub fn set_migrator(&mut self, sender: Address, migrator: Address) -> (r: Result<(), MasterChefError>)
        requires
            old(self).wf(),
        ensures
            final(self).wf(),
            final(self).pools() == old(self).pools(),
            final(self).users() == old(self).users(),
            sender != old(self).owner ==> r == Err::<(), MasterChefError>(MasterChefError::NonOwner)
                && final(self).config() == old(self).config(),
            sender == old(self).owner ==> r is Ok && final(self).config() == (Config {
                migrator,
                ..old(self).config()
            }),
    {
        if self.owner != sender {
            return Err(MasterChefError::NonOwner);
        }
        self.migrator = migrator;
        assert(self.users() == old(self).users());
        assert(self.pool_info@ == old(self).pool_info@);
        Ok(())
    }

    /// Hands the dev role to `dev_addr`; only the current dev address may.
    pub fn dev(&mut self, sender: Address, dev_addr: Address) -> (r: Result<(), MasterChefError>)
        requires
            old(self).wf(),
        ensures
            final(self).wf(),
            final(self).pools() == old(self).pools(),
            final(self).users() == old(self).users(),
            sender != old(self).dev_addr ==> r == Err::<(), MasterChefError>(
                MasterChefError::NotDevAddress,
            ) && final(self).config() == old(self).config(),
            sender == old(self).dev_addr ==> r is Ok && final(self).config() == (Config {
                dev_addr,
                ..old(self).config()
            }),
    {
        if self.dev_addr != sender {
            return Err(MasterChefError::NotDevAddress);
        }
        self.dev_addr = dev_addr;
        assert(self.users() == old(self).users());
        assert(self.pool_info@ == old(self).pool_info@);
        Ok(())
    }

    /// The bonus-weighted number of emission units in `from..to`.
    pub fn get_multiplier(&self, from: Word, to: Word) -> (r: Result<Word, MasterChefError>)
        requires
            from@ <= to@,
        ensures
            ({
                let m = multiplier(from@, to@, self.bonus_end_block@, self.bonus_multiplier@);
                &&& m < word_modulus() ==> r is Ok && r->Ok_0@ == m
                &&& m >= word_modulus() ==> r == Err::<Word, MasterChefError>(
                    MasterChefError::ArithmeticOverflow,
                )
            }),
    {
        let end = self.bonus_end_block;
        let bonus = self.bonus_multiplier;
        if to.le(&end) {
            let d = match checked_sub(to, from) {
                Some(d) => d,
                None => return Err(MasterChefError::ArithmeticOverflow),
            };
            match checked_mul(d, bonus) {
                Some(m) => Ok(m),
                None => Err(MasterChefError::ArithmeticOverflow),
            }
        } else if end.le(&from) {
            match checked_sub(to, from) {
                Some(m) => Ok(m),
                None => Err(MasterChefError::ArithmeticOverflow),
            }
        } else {
            let d = match checked_sub(end, from) {
                Some(d) => d,
                None => return Err(MasterChefError::ArithmeticOverflow),
            };
            let b = match checked_mul(d, bonus) {
                Some(b) => b,
                None => return Err(MasterChefError::ArithmeticOverflow),
            };
            let tail = match checked_sub(to, end) {
                Some(t) => t,
                None => return Err(MasterChefError::ArithmeticOverflow),
            };
            match checked_add(b, tail) {
                Some(m) => Ok(m),
                None => Err(MasterChefError::ArithmeticOverflow),
            }
        }
    }

    /// `pool` brought current at `now`, and the emission that this mints.
    fn refreshed_info(&self, pool: PoolInfo, now: Word, supply: Word) -> (r: Option<
        (PoolInfo, Option<Emission>),
    >)
        ensures
            match r {
                None => refresh(pool@, now@, supply@, self.params()) is None,
                Some((q, e)) => {
                    &&& refresh(pool@, now@, supply@, self.params()) == Some(q@)
                    &&& q.alloc_point == pool.alloc_point
                    &&& emits(e, pool@, now@, supply@, self.params())
                },
            },
    {
        if now.le(&pool.last_reward_block) {
            return Some((pool, None));
        }
        if supply.is_zero() {
            return Some((PoolInfo { last_reward_block: now, ..pool }, None));
        }
        let m = match self.get_multiplier(pool.last_reward_block, now) {
            Ok(m) => m,
            Err(_) => return None,
        };
        let a = match checked_mul(m, self.sushi_per_block) {
            Some(a) => a,
            None => return None,
        };
        let b = match checked_mul(a, pool.alloc_point) {
            Some(b) => b,
            None => return None,
        };
        let reward = if self.total_alloc_point.is_zero() {
            Word::zero()
        } else {
            match checked_div(b, self.total_alloc_point) {
                Some(q) => q,
                None => return None,
            }
        };
        let x = match checked_mul(reward, Word::from_u64(SCALE)) {
            Some(x) => x,
            None => return None,
        };
        let inc = match checked_div(x, supply) {
            Some(i) => i,
            None => return None,
        };
        let acc = match checked_add(pool.acc_sushi_per_share, inc) {
            Some(acc) => acc,
            None => return None,
        };
        let to_dev = match checked_div(reward, Word::from_u64(DEV_DIVISOR)) {
            Some(d) => d,
            None => return None,
        };
        Some(
            (
                PoolInfo { acc_sushi_per_share: acc, last_reward_block: now, ..pool },
                Some(Emission { to_dev, to_chef: reward }),
            ),
        )
    }

    /// Brings pool `pid` current at checkpoint `now`, where `lp_supply` is the
    /// ledger's balance of the pool's staked asset. Returns what to mint.
    pub fn update_pool(&mut self, pid: usize, now: Word, lp_supply: Word) -> (r: Result<
        Option<Emission>,
        MasterChefError,
    >)
        requires
            old(self).wf(),
        ensures
            final(self).wf(),
            final(self).config() == old(self).config(),
            final(self).users() == old(self).users(),
            pid >= old(self).pools().len() ==> r == Err::<Option<Emission>, MasterChefError>(
                MasterChefError::PoolDoesNotExist,
            ) && final(self).pools() == old(self).pools(),
            pid < old(self).pools().len() ==> match old(self).refresh_at(pid as int, now@, lp_supply@) {
                None => r == Err::<Option<Emission>, MasterChefError>(
                    MasterChefError::ArithmeticOverflow,
                ) && final(self).pools() == old(self).pools(),
                Some(q) => r is Ok && final(self).pools() == old(self).pools().update(pid as int, q)
                    && emits(r->Ok_0, old(self).pools()[pid as int], now@, lp_supply@, old(self).params()),
            },
    {
        if pid >= self.pool_info.len() {
            return Err(MasterChefError::PoolDoesNotExist);
        }
        let pool = self.pool_info[pid];
        match self.refreshed_info(pool, now, lp_supply) {
            None => Err(MasterChefError::ArithmeticOverflow),
            Some((q, e)) => {
                let ghost a = *self;
                proof {
                    lemma_refresh_keeps(pool@, now@, lp_supply@, self.params());
                }
                self.pool_info.set(pid, q);
                proof {
                    lemma_wf_pools_grow(a, *self);
                }
                assert(self.pools() =~= a.pools().update(pid as int, q@));
                Ok(e)
            },
        }
    }

    /// Brings every pool current at `now`; `supplies[i]` is the ledger's
    /// balance of pool `i`'s staked asset. All or nothing: where one pool
    /// fails, no pool changes. Returns what to mint for each pool.
    pub fn mass_update_pools(&mut self, now: Word, supplies: &Vec<Word>) -> (r: Result<
        Vec<Option<Emission>>,
        MasterChefError,
    >)
        requires
            old(self).wf(),
            supplies@.len() == old(self).pools().len(),
        ensures
            final(self).wf(),
            final(self).config() == old(self).config(),
            final(self).users() == old(self).users(),
            !old(self).all_refresh(now@, supplies@) ==> r == Err::<Vec<Option<Emission>>, MasterChefError>(
                MasterChefError::InternalCallError,
            ) && final(self).pools() == old(self).pools(),
            old(self).all_refresh(now@, supplies@) ==> r is Ok && final(self).pools() == old(
                self,
            ).refreshed_pools(now@, supplies@) && r->Ok_0@.len() == supplies@.len() && forall|i: int|
                0 <= i < supplies@.len() ==> emits(
                    #[trigger] r->Ok_0@[i],
                    old(self).pools()[i],
                    now@,
                    supplies@[i]@,
                    old(self).params(),
                ),
    {
        let mut pools: Vec<PoolInfo> = Vec::new();
        let mut out: Vec<Option<Emission>> = Vec::new();
        let n = self.pool_info.len();
        let mut i: usize = 0;
        while i < n
            invariant
                *self == *old(self),
                self.wf(),
                n == self.pool_info@.len(),
                n == supplies@.len(),
                i <= n,
                pools@.len() == i,
                out@.len() == i,
                forall|j: int|
                    #![trigger pools@[j]]
                    #![trigger out@[j]]
                    #![trigger self.refresh_at(j, now@, supplies@[j]@)]
                    0 <= j < i ==> self.refresh_at(j, now@, supplies@[j]@) is Some
                        && pools@[j]@ == refresh_or_keep(self.pools()[j], now@, supplies@[j]@, self.params())
                        && pools@[j].alloc_point == self.pool_info@[j].alloc_point
                        && emits(out@[j], self.pools()[j], now@, supplies@[j]@, self.params()),
            decreases n - i,
        {
            match self.refreshed_info(self.pool_info[i], now, supplies[i]) {
                None => {
                    assert(self.refresh_at(i as int, now@, supplies@[i as int]@) is None);
                    return Err(MasterChefError::InternalCallError);
                },
                Some((q, e)) => {
                    pools.push(q);
                    out.push(e);
                },
            }
            i += 1;
        }
        let ghost a = *self;
        let ghost ps = pools@;
        proof {
            assert forall|j: int| 0 <= j < n implies #[trigger] ps[j].alloc_point@
                == a.pool_info@[j].alloc_point@ && ps[j].acc_sushi_per_share@
                >= a.pool_info@[j].acc_sushi_per_share@ by {
                assert(a.refresh_at(j, now@, supplies@[j]@) is Some);
                assert(a.pools()[j] == a.pool_info@[j]@);
                lemma_refresh_keeps(a.pools()[j], now@, supplies@[j]@, a.params());
            }
        }
        self.pool_info = pools;
        proof {
            lemma_wf_pools_grow(a, *self);
            assert forall|j: int| 0 <= j < n implies #[trigger] self.pools()[j] == a.refreshed_pools(
                now@,
                supplies@,
            )[j] by {
                assert(ps[j] == self.pool_info@[j]);
            }
            assert(self.pools() =~= a.refreshed_pools(now@, supplies@));
        }
        Ok(out)
    }

    /// Runs the optional refresh of all pools that `add` and `set` begin
    /// with; a failure there leaves the pools as they were.
    fn refresh_all_if(&mut self, with_update: bool, now: Word, supplies: &Vec<Word>) -> (r: Vec<
        Option<Emission>,
    >)
        requires
            old(self).wf(),
            with_update ==> supplies@.len() == old(self).pools().len(),
        ensures
            final(self).wf(),
            final(self).config() == old(self).config(),
            final(self).users() == old(self).users(),
            final(self).pools() == old(self).base_pools(with_update, now@, supplies@),
            old(self).emissions_of(r@, with_update, now@, supplies@),
            final(self).pool_info@.len() == old(self).pool_info@.len(),
            forall|i: int|
                0 <= i < old(self).pool_info@.len() ==> #[trigger] final(self).pool_info@[i].alloc_point@
                    == old(self).pool_info@[i].alloc_point@,
    {
        let r = if with_update {
            match self.mass_update_pools(now, supplies) {
                Ok(e) => e,
                Err(_) => Vec::new(),
            }
        } else {
            Vec::new()
        };
        proof {
            assert(self.pools().len() == old(self).pools().len());
            assert(self.pool_info@.len() == old(self).pool_info@.len());
            assert forall|i: int| 0 <= i < old(self).pool_info@.len() implies #[trigger] self.pool_info@[i].alloc_point@
                == old(self).pool_info@[i].alloc_point@ by {
                assert(self.pools()[i] == self.pool_info@[i]@);
                assert(old(self).pools()[i] == old(self).pool_info@[i]@);
                if with_update && old(self).all_refresh(now@, supplies@) {
                    lemma_refresh_keeps(old(self).pools()[i], now@, supplies@[i]@, old(self).params());
                }
            }
        }
        r
    }

    /// Appends a pool for `lp_token` with weight `alloc_point`; owner only.
    /// The pool starts accruing at the later of `now` and the start
    /// checkpoint. Returns what the optional refresh of all pools asks to mint.
    pub fn add(
        &mut self,
        sender: Address,
        alloc_point: Word,
        lp_token: Address,
        with_update: bool,
        now: Word,
        supplies: &Vec<Word>,
    ) -> (r: Result<Vec<Option<Emission>>, MasterChefError>)
        requires
            old(self).wf(),
            with_update ==> supplies@.len() == old(self).pools().len(),
        ensures
            final(self).wf(),
            final(self).users() == old(self).users(),
            sender != old(self).owner ==> r == Err::<Vec<Option<Emission>>, MasterChefError>(
                MasterChefError::NonOwner,
            ) && final(self).pools() == old(self).pools() && final(self).config() == old(self).config(),
            sender == old(self).owner && old(self).total_alloc_point@ + alloc_point@ >= word_modulus()
                ==> r == Err::<Vec<Option<Emission>>, MasterChefError>(
                MasterChefError::ArithmeticOverflow,
            ) && final(self).pools() == old(self).pools() && final(self).config() == old(self).config(),
            sender == old(self).owner && old(self).total_alloc_point@ + alloc_point@ < word_modulus()
                ==> r is Ok && old(self).emissions_of(r->Ok_0@, with_update, now@, supplies@)
                && final(self).config() == (Config {
                total_alloc_point: old(self).total_alloc_point@ + alloc_point@,
                ..old(self).config()
            }) && final(self).pools() == old(self).base_pools(with_update, now@, supplies@).push(
                PoolModel {
                    lp_token,
                    alloc_point: alloc_point@,
                    last_reward_block: if now@ > old(self).start_block@ {
                        now@
                    } else {
                        old(self).start_block@
                    },
                    acc_sushi_per_share: 0,
                },
            ),
    {
        if self.owner != sender {
            return Err(MasterChefError::NonOwner);
        }
        let total = match checked_add(self.total_alloc_point, alloc_point) {
            Some(t) => t,
            None => return Err(MasterChefError::ArithmeticOverflow),
        };
        let emissions = self.refresh_all_if(with_update, now, supplies);
        let last_reward_block = if self.start_block.lt(&now) {
            now
        } else {
            self.start_block
        };
        let pool = PoolInfo {
            lp_token,
            alloc_point,
            last_reward_block,
            acc_sushi_per_share: Word::zero(),
        };
        let ghost a = *self;
        self.total_alloc_point = total;
        self.pool_info.push(pool);
        proof {
            lemma_alloc_sum_push(a.pool_info@, pool);
            assert forall|k: (nat, Address)| #[trigger] self.users().contains_key(k) implies k.0
                < self.pool_info@.len() && self.users()[k].reward_debt <= accrued(
                self.users()[k],
                self.pool_info@[k.0 as int].acc_sushi_per_share@,
            ) by {
                assert(a.users().contains_key(k));
                assert(self.pool_info@[k.0 as int] == a.pool_info@[k.0 as int]);
            }
            assert(self.pools() =~= a.pools().push(pool@));
        }
        Ok(emissions)
    }

    /// Sets the weight of pool `pid`; owner only. Returns what the optional
    /// refresh of all pools asks to mint.
    pub fn set(
        &mut self,
        sender: Address,
        pid: usize,
        alloc_point: Word,
        with_update: bool,
        now: Word,
        supplies: &Vec<Word>,
    ) -> (r: Result<Vec<Option<Emission>>, MasterChefError>)
        requires
            old(self).wf(),
            with_update ==> supplies@.len() == old(self).pools().len(),
        ensures
            final(self).wf(),
            final(self).users() == old(self).users(),
            sender != old(self).owner ==> r == Err::<Vec<Option<Emission>>, MasterChefError>(
                MasterChefError::NonOwner,
            ) && final(self).pools() == old(self).pools() && final(self).config() == old(self).config(),
            sender == old(self).owner && pid >= old(self).pools().len() ==> r == Err::<
                Vec<Option<Emission>>,
                MasterChefError,
            >(MasterChefError::PoolDoesNotExist) && final(self).pools() == old(self).pools()
                && final(self).config() == old(self).config(),
            sender == old(self).owner && pid < old(self).pools().len() ==> {
                let total = old(self).total_alloc_point@ - old(self).pools()[pid as int].alloc_point
                    + alloc_point@;
                &&& total >= word_modulus() ==> r == Err::<Vec<Option<Emission>>, MasterChefError>(
                    MasterChefError::ArithmeticOverflow,
                ) && final(self).pools() == old(self).pools() && final(self).config() == old(
                    self,
                ).config()
                &&& total < word_modulus() ==> {
                    let base = old(self).base_pools(with_update, now@, supplies@);
                    &&& r is Ok
                    &&& old(self).emissions_of(r->Ok_0@, with_update, now@, supplies@)
                    &&& final(self).config() == (Config {
                        total_alloc_point: total as nat,
                        ..old(self).config()
                    })
                    &&& final(self).pools() == base.update(
                        pid as int,
                        PoolModel { alloc_point: alloc_point@, ..base[pid as int] },
                    )
                }
            },
    {
        if self.owner != sender {
            return Err(MasterChefError::NonOwner);
        }
        if pid >= self.pool_info.len() {
            return Err(MasterChefError::PoolDoesNotExist);
        }
        proof {
            lemma_alloc_sum_update(self.pool_info@, pid as int, self.pool_info@[pid as int]);
        }
        let rest = match checked_sub(self.total_alloc_point, self.pool_info[pid].alloc_point) {
            Some(x) => x,
            None => return Err(MasterChefError::ArithmeticOverflow),
        };
        let total = match checked_add(rest, alloc_point) {
            Some(t) => t,
            None => return Err(MasterChefError::ArithmeticOverflow),
        };
        let ghost a0 = *self;
        let emissions = self.refresh_all_if(with_update, now, supplies);
        proof {
            lemma_alloc_sum_same(a0.pool_info@, self.pool_info@);
        }
        let ghost a = *self;
        let mut pool = self.pool_info[pid];
        pool.alloc_point = alloc_point;
        self.pool_info.set(pid, pool);
        self.total_alloc_point = total;
        proof {
            lemma_alloc_sum_update(a.pool_info@, pid as int, pool);
            assert forall|k: (nat, Address)| #[trigger] self.users().contains_key(k) implies k.0
                < self.pool_info@.len() && self.users()[k].reward_debt <= accrued(
                self.users()[k],
                self.pool_info@[k.0 as int].acc_sushi_per_share@,
            ) by {
                assert(a.users().contains_key(k));
                assert(self.pool_info@[k.0 as int].acc_sushi_per_share
                    == a.pool_info@[k.0 as int].acc_sushi_per_share);
            }
            assert(self.pools() =~= a.pools().update(pid as int, pool@));
        }
        Ok(emissions)
    }

    /// The reward that `user` would be owed in pool `pid` if the pool were
    /// brought current at `now` with staked balance `lp_supply`. Changes nothing.
    pub fn pending_sushi(&self, pid: usize, user: Address, now: Word, lp_supply: Word) -> (r: Result<
        Word,
        MasterChefError,
    >)
        requires
            self.wf(),
        ensures
            pid >= self.pools().len() ==> r is Ok && r->Ok_0@ == 0,
            pid < self.pools().len() ==> match self.refresh_at(pid as int, now@, lp_supply@) {
                None => r == Err::<Word, MasterChefError>(MasterChefError::ArithmeticOverflow),
                Some(q) => {
                    let u = self.position(pid as nat, user);
                    &&& u.amount * q.acc_sushi_per_share >= word_modulus() ==> r == Err::<
                        Word,
                        MasterChefError,
                    >(MasterChefError::ArithmeticOverflow)
                    &&& u.amount * q.acc_sushi_per_share < word_modulus() ==> r is Ok && r->Ok_0@
                        == pending(u, q.acc_sushi_per_share)
                },
            },
    {
        if pid >= self.pool_info.len() {
            return Ok(Word::zero());
        }
        let pool = self.pool_info[pid];
        let q = match self.refreshed_info(pool, now, lp_supply) {
            Some((q, _)) => q,
            None => return Err(MasterChefError::ArithmeticOverflow),
        };
        let u = self.user_info.get(pid, user);
        proof {
            self.lemma_debt_covered(pid as nat, user, q@);
        }
        match owed(u, q.acc_sushi_per_share) {
            Some(p) => Ok(p),
            None => Err(MasterChefError::ArithmeticOverflow),
        }
    }

    /// A position's debt stays covered by its credit at any refreshed
    /// accumulator of its pool.
    pub proof fn lemma_debt_covered(&self, pid: nat, user: Address, q: PoolModel)
        requires
            self.wf(),
            pid < self.pools().len(),
            q.acc_sushi_per_share >= self.pools()[pid as int].acc_sushi_per_share,
        ensures
            self.position(pid, user).reward_debt <= accrued(self.position(pid, user), q.acc_sushi_per_share),
    {
        let k = (pid, user);
        if self.users().contains_key(k) {
            assert(self.pools()[pid as int] == self.pool_info@[pid as int]@);
            lemma_accrued_monotone(
                self.users()[k],
                self.pool_info@[pid as int].acc_sushi_per_share@,
                q.acc_sushi_per_share,
            );
        }
    }

    /// Stakes `amount` of pool `pid`'s asset for `user`, after the pool is
    /// brought current at `now` (`lp_supply`: the ledger's balance of the
    /// asset before the deposit). `pulled` tells whether the transfer of the
    /// stake from `user` to the ledger succeeded; without it nothing changes.
    /// Returns the emission to mint and the reward owed to `user`.
    pub fn deposit(
        &mut self,
        pid: usize,
        user: Address,
        amount: Word,
        now: Word,
        lp_supply: Word,
        pulled: bool,
    ) -> (r: Result<DepositOutcome, MasterChefError>)
        requires
            old(self).wf(),
        ensures
            final(self).wf(),
            final(self).config() == old(self).config(),
            r is Err ==> final(self).pools() == old(self).pools() && final(self).users() == old(self).users(),
            pid >= old(self).pools().len() ==> r == Err::<DepositOutcome, MasterChefError>(
                MasterChefError::PoolDoesNotExist,
            ),
            pid < old(self).pools().len() && (old(self).refresh_at(pid as int, now@, lp_supply@) is None
                || !pulled) ==> r == Err::<DepositOutcome, MasterChefError>(
                MasterChefError::InternalCallError,
            ),
            pid < old(self).pools().len() && pulled ==> match old(self).refresh_at(pid as int, now@, lp_supply@) {
                None => true,
                Some(q) => {
                    let u = old(self).position(pid as nat, user);
                    let acc = q.acc_sushi_per_share;
                    let overflow = (u.amount > 0 && u.amount * acc >= word_modulus()) || u.amount
                        + amount@ >= word_modulus() || (u.amount + amount@) * acc >= word_modulus();
                    &&& overflow ==> r == Err::<DepositOutcome, MasterChefError>(
                        MasterChefError::ArithmeticOverflow,
                    )
                    &&& !overflow ==> {
                        &&& r is Ok
                        &&& r->Ok_0.reward@ == if u.amount > 0 {
                            pending(u, acc)
                        } else {
                            0
                        }
                        &&& emits(r->Ok_0.emission, old(self).pools()[pid as int], now@, lp_supply@, old(self).params())
                        &&& final(self).pools() == old(self).pools().update(pid as int, q)
                        &&& final(self).users() == old(self).users().insert(
                            (pid as nat, user),
                            deposited(u, amount@, acc),
                        )
                    }
                },
            },
    {
        if pid >= self.pool_info.len() {
            return Err(MasterChefError::PoolDoesNotExist);
        }
        let pool = self.pool_info[pid];
        let (q, emission) = match self.refreshed_info(pool, now, lp_supply) {
            Some(x) => x,
            None => return Err(MasterChefError::InternalCallError),
        };
        if !pulled {
            return Err(MasterChefError::InternalCallError);
        }
        let acc = q.acc_sushi_per_share;
        let u = self.user_info.get(pid, user);
        proof {
            self.lemma_debt_covered(pid as nat, user, q@);
        }
        let reward = if u.amount.is_zero() {
            Word::zero()
        } else {
            match owed(u, acc) {
                Some(p) => p,
                None => return Err(MasterChefError::ArithmeticOverflow),
            }
        };
        let total = match checked_add(u.amount, amount) {
            Some(t) => t,
            None => return Err(MasterChefError::ArithmeticOverflow),
        };
        let debt = match scaled_share(total, acc) {
            Some(d) => d,
            None => return Err(MasterChefError::ArithmeticOverflow),
        };
        let ghost a = *self;
        self.pool_info.set(pid, q);
        self.user_info.set(pid, user, UserInfo { amount: total, reward_debt: debt });
        proof {
            lemma_alloc_sum_update(a.pool_info@, pid as int, q);
            self.lemma_commit(a, pid as nat, user);
            assert(self.pools() =~= a.pools().update(pid as int, q@));
        }
        Ok(DepositOutcome { emission, reward })
    }

    /// Well-formedness after pool `pid` was refreshed and the position of
    /// `user` in it set to a debt equal to its credit.
    proof fn lemma_commit(&self, a: MasterChef, pid: nat, user: Address)
        requires
            a.wf(),
            pid < a.pool_info@.len(),
            self.pool_info@ == a.pool_info@.update(pid as int, self.pool_info@[pid as int]),
            self.pool_info@[pid as int].alloc_point@ == a.pool_info@[pid as int].alloc_point@,
            self.pool_info@[pid as int].acc_sushi_per_share@ >= a.pool_info@[pid as int].acc_sushi_per_share@,
            self.total_alloc_point == a.total_alloc_point,
            self.user_info.wf(),
            self.users().contains_key((pid, user)),
            self.users() == a.users().insert((pid, user), self.users()[(pid, user)]),
            self.users()[(pid, user)].reward_debt == accrued(
                self.users()[(pid, user)],
                self.pool_info@[pid as int].acc_sushi_per_share@,
            ),
        ensures
            self.wf(),
    {
        lemma_alloc_sum_update(a.pool_info@, pid as int, self.pool_info@[pid as int]);
        assert forall|k: (nat, Address)| #[trigger] self.users().contains_key(k) implies k.0
            < self.pool_info@.len() && self.users()[k].reward_debt <= accrued(
            self.users()[k],
            self.pool_info@[k.0 as int].acc_sushi_per_share@,
        ) by {
            if k != (pid, user) {
                assert(a.users().contains_key(k));
                lemma_accrued_monotone(
                    a.users()[k],
                    a.pool_info@[k.0 as int].acc_sushi_per_share@,
                    self.pool_info@[k.0 as int].acc_sushi_per_share@,
                );
            }
        }
    }

    /// Returns `amount` of pool `pid`'s asset to `user`, after the pool is
    /// brought current at `now` where that succeeds. Returns the emission to
    /// mint, the reward owed to `user`, and the stake to send back.
    pub fn withdraw(&mut self, pid: usize, user: Address, amount: Word, now: Word, lp_supply: Word) -> (r:
        Result<WithdrawOutcome, MasterChefError>)
        requires
            old(self).wf(),
        ensures
            final(self).wf(),
            final(self).config() == old(self).config(),
            r is Err ==> final(self).pools() == old(self).pools() && final(self).users() == old(self).users(),
            amount@ > old(self).position(pid as nat, user).amount ==> r == Err::<
                WithdrawOutcome,
                MasterChefError,
            >(MasterChefError::UserNotStaked),
            amount@ <= old(self).position(pid as nat, user).amount && pid >= old(self).pools().len()
                ==> r == Err::<WithdrawOutcome, MasterChefError>(MasterChefError::PoolDoesNotExist),
            amount@ <= old(self).position(pid as nat, user).amount && pid < old(self).pools().len()
                ==> {
                let u = old(self).position(pid as nat, user);
                let p = old(self).pools()[pid as int];
                let q = refresh_or_keep(p, now@, lp_supply@, old(self).params());
                let acc = q.acc_sushi_per_share;
                &&& u.amount * acc >= word_modulus() ==> r == Err::<WithdrawOutcome, MasterChefError>(
                    MasterChefError::ArithmeticOverflow,
                )
                &&& u.amount * acc < word_modulus() ==> {
                    &&& r is Ok
                    &&& r->Ok_0.reward@ == pending(u, acc)
                    &&& r->Ok_0.amount == amount
                    &&& old(self).refresh_at(pid as int, now@, lp_supply@) is Some ==> emits(
                        r->Ok_0.emission,
                        p,
                        now@,
                        lp_supply@,
                        old(self).params(),
                    )
                    &&& old(self).refresh_at(pid as int, now@, lp_supply@) is None
                        ==> r->Ok_0.emission is None
                    &&& final(self).pools() == old(self).pools().update(pid as int, q)
                    &&& final(self).users() == old(self).users().insert(
                        (pid as nat, user),
                        withdrawn(u, amount@, acc),
                    )
                }
            },
    {
        let u = self.user_info.get(pid, user);
        if u.amount.lt(&amount) {
            return Err(MasterChefError::UserNotStaked);
        }
        if pid >= self.pool_info.len() {
            return Err(MasterChefError::PoolDoesNotExist);
        }
        let pool = self.pool_info[pid];
        let (q, emission) = match self.refreshed_info(pool, now, lp_supply) {
            Some(x) => x,
            None => (pool, None),
        };
        proof {
            lemma_refresh_keeps(pool@, now@, lp_supply@, self.params());
            self.lemma_debt_covered(pid as nat, user, q@);
        }
        let acc = q.acc_sushi_per_share;
        let reward = match owed(u, acc) {
            Some(p) => p,
            None => return Err(MasterChefError::ArithmeticOverflow),
        };
        let rest = match checked_sub(u.amount, amount) {
            Some(x) => x,
            None => return Err(MasterChefError::ArithmeticOverflow),
        };
        proof {
            lemma_mul_inequality(rest@ as int, u.amount@ as int, acc@ as int);
        }
        let debt = match scaled_share(rest, acc) {
            Some(d) => d,
            None => return Err(MasterChefError::ArithmeticOverflow),
        };
        let ghost a = *self;
        self.pool_info.set(pid, q);
        self.user_info.set(pid, user, UserInfo { amount: rest, reward_debt: debt });
        proof {
            self.lemma_commit(a, pid as nat, user);
            assert(self.pools() =~= a.pools().update(pid as int, q@));
        }
        Ok(WithdrawOutcome { emission, reward, amount })
    }

    /// Gives up the reward of `user` in pool `pid`: the position is zeroed
    /// and its whole staked amount is returned, to be sent back.
    pub fn emergency_withdraw(&mut self, pid: usize, user: Address) -> (r: Result<Word, MasterChefError>)
        requires
            old(self).wf(),
        ensures
            final(self).wf(),
            final(self).config() == old(self).config(),
            final(self).pools() == old(self).pools(),
            pid >= old(self).pools().len() ==> r == Err::<Word, MasterChefError>(
                MasterChefError::PoolDoesNotExist,
            ) && final(self).users() == old(self).users(),
            pid < old(self).pools().len() ==> r is Ok && r->Ok_0@ == old(self).position(pid as nat, user).amount
                && final(self).users() == old(self).users().insert(
                (pid as nat, user),
                UserModel { amount: 0, reward_debt: 0 },
            ),
    {
        if pid >= self.pool_info.len() {
            return Err(MasterChefError::PoolDoesNotExist);
        }
        let u = self.user_info.get(pid, user);
        let ghost a = *self;
        self.user_info.set(pid, user, UserInfo::empty());
        proof {
            assert forall|k: (nat, Address)| #[trigger] self.users().contains_key(k) implies k.0
                < self.pool_info@.len() && self.users()[k].reward_debt <= accrued(
                self.users()[k],
                self.pool_info@[k.0 as int].acc_sushi_per_share@,
            ) by {
                if k != (pid as nat, user) {
                    assert(a.users().contains_key(k));
                }
            }
        }
        Ok(u.amount)
    }

    /// The staked asset that migrating pool `pid` would hand to the
    /// migration authority. Changes nothing.
    pub fn migration_source(&self, pid: usize) -> (r: Result<Address, MasterChefError>)
        ensures
            self.migrator == Address::spec_null() ==> r == Err::<Address, MasterChefError>(
                MasterChefError::NoMigratorExist,
            ),
            self.migrator != Address::spec_null() && pid >= self.pools().len() ==> r == Err::<
                Address,
                MasterChefError,
            >(MasterChefError::PoolDoesNotExist),
            self.migrator != Address::spec_null() && pid < self.pools().len() ==> r == Ok::<
                Address,
                MasterChefError,
            >(self.pools()[pid as int].lp_token),
    {
        if self.migrator.is_null() {
            return Err(MasterChefError::NoMigratorExist);
        }
        if pid >= self.pool_info.len() {
            return Err(MasterChefError::PoolDoesNotExist);
        }
        Ok(self.pool_info[pid].lp_token)
    }

    /// Commits the migration of pool `pid` to `new_lp_token`: `balance` is
    /// the ledger's balance of the old asset before the migration authority
    /// ran, `new_balance` its balance of the new one after. The swap is made
    /// only where the two are equal.
    pub fn migrate(&mut self, pid: usize, balance: Word, new_lp_token: Address, new_balance: Word) -> (r:
        Result<(), MasterChefError>)
        requires
            old(self).wf(),
        ensures
            final(self).wf(),
            final(self).config() == old(self).config(),
            final(self).users() == old(self).users(),
            r is Err ==> final(self).pools() == old(self).pools(),
            old(self).migrator == Address::spec_null() ==> r == Err::<(), MasterChefError>(
                MasterChefError::NoMigratorExist,
            ),
            old(self).migrator != Address::spec_null() && pid >= old(self).pools().len() ==> r == Err::<
                (),
                MasterChefError,
            >(MasterChefError::PoolDoesNotExist),
            old(self).migrator != Address::spec_null() && pid < old(self).pools().len() ==> {
                &&& new_balance@ != balance@ ==> r == Err::<(), MasterChefError>(
                    MasterChefError::NotMigrated,
                )
                &&& new_balance@ == balance@ ==> r is Ok && final(self).pools() == old(
                    self,
                ).pools().update(
                    pid as int,
                    PoolModel { lp_token: new_lp_token, ..old(self).pools()[pid as int] },
                )
            },
    {
        if self.migrator.is_null() {
            return Err(MasterChefError::NoMigratorExist);
        }
        if pid >= self.pool_info.len() {
            return Err(MasterChefError::PoolDoesNotExist);
        }
        if !new_balance.eq(&balance) {
            return Err(MasterChefError::NotMigrated);
        }
        let mut pool = self.pool_info[pid];
        pool.lp_token = new_lp_token;
        let ghost a = *self;
        self.pool_info.set(pid, pool);
        proof {
            lemma_wf_pools_grow(a, *self);
            assert(self.pools() =~= a.pools().update(pid as int, pool@));
        }
        Ok(())
    }

    /// The reward-asset units a payout of `amount` sends, where `balance` is
    /// the ledger's own reward-asset balance: never more than that balance.
    /// Only the ledger itself (`caller == this`) may pay out.
    pub fn safe_sushi_transfer(&self, caller: Address, this: Address, amount: Word, balance: Word) -> (r:
        Result<Word, MasterChefError>)
        ensures
            caller != this ==> r == Err::<Word, MasterChefError>(MasterChefError::InternalCallError),
            caller == this ==> r is Ok && r->Ok_0@ == if amount@ > balance@ {
                balance@
            } else {
                amount@
            },
    {
        if caller != this {
            return Err(MasterChefError::InternalCallError);
        }
        if balance.lt(&amount) {
            Ok(balance)
        } else {
            Ok(amount)
        }
    }
}

} // verus!