use crate::word::Word;
use vstd::prelude::*;

verus! {

/// A 160-bit account or contract identity, as three big-endian pieces:
/// bytes 0..4, 4..12 and 12..20.
#[derive(Clone, Copy, Debug, PartialEq, Eq, Structural)]
pub struct Address {
    pub high: u32,
    pub mid: u64,
    pub low: u64,
}

impl Address {
    pub open spec fn spec_null() -> Address {
        Address { high: 0, mid: 0, low: 0 }
    }

    /// The null identity, which stands for "unset".
    pub fn null() -> (r: Address)
        ensures
            r == Address::spec_null(),
    {
        Address { high: 0, mid: 0, low: 0 }
    }

    pub fn is_null(&self) -> (r: bool)
        ensures
            r == (*self == Address::spec_null()),
    {
        self.high == 0 && self.mid == 0 && self.low == 0
    }
}

/// Why an operation of the ledger was refused.
#[derive(Clone, Copy, Debug, PartialEq, Eq, Structural)]
pub enum MasterChefError {
    AlreadyInitialized,
    NonOwner,
    NotDevAddress,
    PoolDoesNotExist,
    UserNotStaked,
    NoMigratorExist,
    NotMigrated,
    InternalCallError,
    ArithmeticOverflow,
}

/// A holder's position in one pool, as numbers.
pub struct UserModel {
    pub amount: nat,
    pub reward_debt: nat,
}

/// A pool, as numbers.
pub struct PoolModel {
    pub lp_token: Address,
    pub alloc_point: nat,
    pub last_reward_block: nat,
    pub acc_sushi_per_share: nat,
}

/// A holder's staked amount and reward debt in one pool.
#[derive(Clone, Copy, Debug, PartialEq, Eq, Structural)]
pub struct UserInfo {
    pub amount: Word,
    pub reward_debt: Word,
}

impl View for UserInfo {
    type V = UserModel;

    open spec fn view(&self) -> UserModel {
        UserModel { amount: self.amount@, reward_debt: self.reward_debt@ }
    }
}

impl UserInfo {
    pub fn empty() -> (r: UserInfo)
        ensures
            r@ == (UserModel { amount: 0, reward_debt: 0 }),
    {
        UserInfo { amount: Word::zero(), reward_debt: Word::zero() }
    }
}

/// One staking pool: its asset, weight and reward accumulator.
#[derive(Clone, Copy, Debug, PartialEq, Eq, Structural)]
pub struct PoolInfo {
    pub lp_token: Address,
    pub alloc_point: Word,
    pub last_reward_block: Word,
    pub acc_sushi_per_share: Word,
}

impl View for PoolInfo {
    type V = PoolModel;

    open spec fn view(&self) -> PoolModel {
        PoolModel {
            lp_token: self.lp_token,
            alloc_point: self.alloc_point@,
            last_reward_block: self.last_reward_block@,
            acc_sushi_per_share: self.acc_sushi_per_share@,
        }
    }
}

/// Reward-asset units to mint after a pool accrued: a tenth to the dev
/// address, the whole reward to the ledger itself.
#[derive(Clone, Copy, Debug, PartialEq, Eq, Structural)]
pub struct Emission {
    pub to_dev: Word,
    pub to_chef: Word,
}

} // verus!
