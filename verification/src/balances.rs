//! The host runtime's currency collaborator, as the staking ledger consumes
//! it: free balances, and per-account balance freezes keyed by the freeze
//! identity that a staking pool derives from its operator identifier.
//!
//! An account's usable (reducible) balance is its free balance minus its
//! aggregate frozen balance. Freeze identities overlap rather than add up, so
//! the aggregate is the maximum of the per-identity freezes; the staking
//! ledger only ever raises a freeze, and `set_freeze` maintains the aggregate
//! under exactly that monotone use. The host caps how many distinct freeze
//! identities one account may carry; `set_freeze` refuses a new identity past
//! that cap, which is how a freeze can fail.

use vstd::prelude::*;

use crate::id_map::{IdMap, IdPairMap};

verus! {

struct AccountBalance {
    free: u128,
    frozen: u128,
}

pub struct Balances {
    accounts: IdMap<AccountBalance>,
    freezes: IdPairMap<u128>,
    freeze_slots: IdMap<u64>,
    max_freezes: u64,
}

/// How one `set_freeze(operator_id, who, amount)` call relates the currency
/// state after it to the state before it.
pub open spec fn freeze_applied(
    pre: Balances,
    post: Balances,
    operator_id: u64,
    who: u64,
    amount: u128,
) -> bool {
    &&& post.freeze_of(operator_id, who) == amount
    &&& forall|o: u64, a: u64|
        !(o == operator_id && a == who) ==> post.freeze_of(o, a) == pre.freeze_of(o, a)
    &&& forall|a: u64| post.free_of(a) == pre.free_of(a)
    &&& post.frozen_of(who) == if amount > pre.frozen_of(who) {
        amount
    } else {
        pre.frozen_of(who)
    }
    &&& forall|a: u64| a != who ==> post.frozen_of(a) == pre.frozen_of(a)
    &&& post.freeze_slot_count(who) == pre.freeze_slot_count(who) + (
    if pre.has_freeze(operator_id, who) {
        0int
    } else {
        1int
    })
    &&& forall|a: u64| a != who ==> post.freeze_slot_count(a) == pre.freeze_slot_count(a)
    &&& forall|o: u64, a: u64| post.has_freeze(o, a) == (
    (o == operator_id && a == who) || pre.has_freeze(o, a))
    &&& post.freeze_limit() == pre.freeze_limit()
}

impl Balances {
    /// The free balance of an account; an unknown account holds nothing.
    pub closed spec fn free_of(&self, who: u64) -> u128 {
        if self.accounts@.contains_key(who) {
            self.accounts@[who].free
        } else {
            0
        }
    }

    /// The aggregate frozen balance of an account.
    pub closed spec fn frozen_of(&self, who: u64) -> u128 {
        if self.accounts@.contains_key(who) {
            self.accounts@[who].frozen
        } else {
            0
        }
    }

    /// The balance frozen under one freeze identity.
    pub closed spec fn freeze_of(&self, operator_id: u64, who: u64) -> u128 {
        if self.freezes@.contains_key((operator_id, who)) {
            self.freezes@[(operator_id, who)]
        } else {
            0
        }
    }

    pub closed spec fn has_freeze(&self, operator_id: u64, who: u64) -> bool {
        self.freezes@.contains_key((operator_id, who))
    }

    /// How many distinct freeze identities the account carries.
    pub closed spec fn freeze_slot_count(&self, who: u64) -> u64 {
        if self.freeze_slots@.contains_key(who) {
            self.freeze_slots@[who]
        } else {
            0
        }
    }

    /// The host's cap on freeze identities per account.
    pub closed spec fn freeze_limit(&self) -> u64 {
        self.max_freezes
    }

    /// What the account can still spend: free minus frozen, never negative.
    pub open spec fn usable_of(&self, who: u64) -> u128 {
        if self.free_of(who) >= self.frozen_of(who) {
            (self.free_of(who) - self.frozen_of(who)) as u128
        } else {
            0
        }
    }

    pub fn new(max_freezes: u64) -> (r: Self)
        ensures
            forall|a: u64| r.free_of(a) == 0 && r.frozen_of(a) == 0,
            forall|o: u64, a: u64| r.freeze_of(o, a) == 0 && !r.has_freeze(o, a),
            forall|a: u64| r.freeze_slot_count(a) == 0,
            r.freeze_limit() == max_freezes,
    {
        Balances {
            accounts: IdMap::new(),
            freezes: IdPairMap::new(),
            freeze_slots: IdMap::new(),
            max_freezes,
        }
    }

    /// Sets the free balance of an account outright, as the host's
    /// balance-minting facility does in tests.
    pub fn set_balance(&mut self, who: u64, amount: u128)
        ensures
            final(self).free_of(who) == amount,
            forall|a: u64| a != who ==> final(self).free_of(a) == old(self).free_of(a),
            forall|a: u64| final(self).frozen_of(a) == old(self).frozen_of(a),
            forall|o: u64, a: u64| final(self).freeze_of(o, a) == old(self).freeze_of(o, a),
            forall|o: u64, a: u64| final(self).has_freeze(o, a) == old(self).has_freeze(o, a),
            forall|a: u64| final(self).freeze_slot_count(a) == old(self).freeze_slot_count(a),
            final(self).freeze_limit() == old(self).freeze_limit(),
    {
        let frozen = match self.accounts.get(who) {
            Some(ab) => ab.frozen,
            None => 0,
        };
        self.accounts.insert(who, AccountBalance { free: amount, frozen });
    }

    /// The usable balance: free minus aggregate frozen.
    pub fn reducible_balance(&self, who: u64) -> (r: u128)
        ensures
            r == self.usable_of(who),
    {
        match self.accounts.get(who) {
            Some(ab) => {
                if ab.free >= ab.frozen {
                    ab.free - ab.frozen
                } else {
                    0
                }
            },
            None => 0,
        }
    }

    /// The balance frozen under the freeze identity of one operator.
    pub fn balance_frozen(&self, operator_id: u64, who: u64) -> (r: u128)
        ensures
            r == self.freeze_of(operator_id, who),
    {
        match self.freezes.get(operator_id, who) {
            Some(v) => *v,
            None => 0,
        }
    }

    /// Whether `set_freeze` for this identity would succeed: the identity is
    /// already in place, or the account has a freeze slot left.
    pub fn can_set_freeze(&self, operator_id: u64, who: u64) -> (r: bool)
        ensures
            r == (self.has_freeze(operator_id, who) || self.freeze_slot_count(who)
                < self.freeze_limit()),
    {
        if self.freezes.contains_key(operator_id, who) {
            return true;
        }
        let slots = match self.freeze_slots.get(who) {
            Some(n) => *n,
            None => 0,
        };
        slots < self.max_freezes
    }

    /// Sets the freeze under one identity to `amount` and raises the
    /// account's aggregate to match. Fails if and only if the identity is new
    /// to this account and the account already carries the host's maximum
    /// number of freeze identities; nothing changes then.
    pub fn set_freeze(&mut self, operator_id: u64, who: u64, amount: u128) -> (r: Result<(), ()>)
        ensures
            match r {
                Ok(()) => freeze_applied(*old(self), *final(self), operator_id, who, amount) && !(
                !old(self).has_freeze(operator_id, who) && old(self).freeze_slot_count(who)
                    >= old(self).freeze_limit()),
                Err(()) => *final(self) == *old(self) && !old(self).has_freeze(operator_id, who)
                    && old(self).freeze_slot_count(who) >= old(self).freeze_limit(),
            },
    {
        let is_new = !self.freezes.contains_key(operator_id, who);
        if is_new {
            let slots = match self.freeze_slots.get(who) {
                Some(n) => *n,
                None => 0,
            };
            if slots >= self.max_freezes {
                return Err(());
            }
            self.freeze_slots.insert(who, slots + 1);
        }
        self.freezes.insert(operator_id, who, amount);
        let (free, frozen) = match self.accounts.get(who) {
            Some(ab) => (ab.free, ab.frozen),
            None => (0, 0),
        };
        let new_frozen = if amount > frozen {
            amount
        } else {
            frozen
        };
        self.accounts.insert(who, AccountBalance { free, frozen: new_frozen });
        Ok(())
    }
}

} // verus!
