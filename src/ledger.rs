use crate::types::{Address, UserInfo, UserModel};
use vstd::prelude::*;

verus! {

/// One stored position, keyed by pool id and holder.
#[derive(Clone, Copy, Debug)]
pub struct Position {
    pub pid: usize,
    pub user: Address,
    pub info: UserInfo,
}

/// The position ledger: every (pool, holder) pair that was ever written.
/// A pair never written holds an empty position.
pub struct PositionLedger {
    pub entries: Vec<Position>,
    pub map: Ghost<Map<(nat, Address), UserModel>>,
}

impl PositionLedger {
    pub open spec fn key_at(&self, i: int) -> (nat, Address) {
        (self.entries@[i].pid as nat, self.entries@[i].user)
    }

    pub open spec fn wf(&self) -> bool {
        &&& forall|i: int, j: int|
            0 <= i < j < self.entries@.len() ==> #[trigger] self.key_at(i) != #[trigger] self.key_at(j)
        &&& forall|i: int|
            0 <= i < self.entries@.len() ==> self.map@.contains_key(#[trigger] self.key_at(i))
                && self.map@[self.key_at(i)] == self.entries@[i].info@
        &&& forall|k: (nat, Address)|
            #[trigger] self.map@.contains_key(k) ==> exists|i: int|
                0 <= i < self.entries@.len() && #[trigger] self.key_at(i) == k
    }

    /// The position of `user` in pool `pid`.
    pub open spec fn at(&self, pid: nat, user: Address) -> UserModel {
        if self.map@.contains_key((pid, user)) {
            self.map@[(pid, user)]
        } else {
            UserModel { amount: 0, reward_debt: 0 }
        }
    }

    pub fn new() -> (r: PositionLedger)
        ensures
            r.wf(),
            r.map@ == Map::<(nat, Address), UserModel>::empty(),
    {
        PositionLedger { entries: Vec::new(), map: Ghost(Map::empty()) }
    }

    fn find(&self, pid: usize, user: Address) -> (r: Option<usize>)
        requires
            self.wf(),
        ensures
            match r {
                Some(i) => i < self.entries@.len() && self.key_at(i as int) == (pid as nat, user),
                None => !self.map@.contains_key((pid as nat, user)),
            },
    {
        let mut i: usize = 0;
        while i < self.entries.len()
            invariant
                i <= self.entries@.len(),
                forall|j: int| 0 <= j < i ==> #[trigger] self.key_at(j) != (pid as nat, user),
            decreases self.entries@.len() - i,
        {
            if self.entries[i].pid == pid && self.entries[i].user == user {
                return Some(i);
            }
            i += 1;
        }
        None
    }

    pub fn get(&self, pid: usize, user: Address) -> (r: UserInfo)
        requires
            self.wf(),
        ensures
            r@ == self.at(pid as nat, user),
    {
        match self.find(pid, user) {
            Some(i) => self.entries[i].info,
            None => UserInfo::empty(),
        }
    }

    pub fn set(&mut self, pid: usize, user: Address, info: UserInfo)
        requires
            old(self).wf(),
        ensures
            final(self).wf(),
            final(self).map@ == old(self).map@.insert((pid as nat, user), info@),
    {
        let ghost k = (pid as nat, user);
        let ghost mut idx: int = 0;
        match self.find(pid, user) {
            Some(i) => {
                self.entries.set(i, Position { pid, user, info });
                proof {
                    idx = i as int;
                }
            },
            None => {
                self.entries.push(Position { pid, user, info });
                proof {
                    idx = self.entries@.len() - 1;
                    assert forall|j: int| 0 <= j < idx implies #[trigger] old(self).key_at(j) != k by {
                        assert(old(self).map@.contains_key(old(self).key_at(j)));
                    }
                }
            },
        }
        self.map = Ghost(self.map@.insert(k, info@));
        assert(self.key_at(idx) == k);
        assert forall|j: int| 0 <= j < self.entries@.len() && j != idx implies #[trigger] self.key_at(j)
            == old(self).key_at(j) && self.entries@[j] == old(self).entries@[j] by {}
        assert forall|k2: (nat, Address)| #[trigger] self.map@.contains_key(k2) implies exists|i: int|
            0 <= i < self.entries@.len() && #[trigger] self.key_at(i) == k2 by {
            if k2 != k {
                let j = choose|j: int|
                    0 <= j < old(self).entries@.len() && #[trigger] old(self).key_at(j) == k2;
                assert(self.key_at(j) == k2);
            } else {
                assert(self.key_at(idx) == k2);
            }
        }
    }
}

} // verus!
