//! Balances and the two named locks that hold pledged funds.
use vstd::prelude::*;
use std::collections::HashMap;

verus! {

broadcast use vstd::std_specs::hash::group_hash_axioms;

/// The two tags under which pledged funds are held.
#[derive(Clone, Copy, Debug, PartialEq, Eq, Structural)]
pub enum LockId {
    /// Held while a pledge backs a candidate of the running round.
    Election,
    /// Held while a pledge backs a member of the current validator set.
    Session,
}

/// One named lock on an account.
#[derive(Clone, Copy, Debug, PartialEq, Eq, Structural)]
pub struct BalanceLock {
    pub id: LockId,
    pub amount: u64,
}

/// What the ledger records for one account.
#[derive(Clone, Copy, Debug, PartialEq, Eq, Structural)]
pub struct AccountData {
    /// Total balance of the account, locked or not.
    pub total: u64,
    /// Amount held under the election tag, if that lock is set.
    pub election: Option<u64>,
    /// Amount held under the session tag, if that lock is set.
    pub session: Option<u64>,
}

impl AccountData {
    pub open spec fn lock_spec(self, id: LockId) -> Option<u64> {
        match id {
            LockId::Election => self.election,
            LockId::Session => self.session,
        }
    }

    pub open spec fn with_lock(self, id: LockId, v: Option<u64>) -> AccountData {
        match id {
            LockId::Election => AccountData { election: v, ..self },
            LockId::Session => AccountData { session: v, ..self },
        }
    }
}

/// The locks of an account in the order the ledger lists them.
pub open spec fn locks_spec(d: AccountData) -> Seq<BalanceLock> {
    let s = match d.session {
        Some(a) => seq![BalanceLock { id: LockId::Session, amount: a }],
        None => Seq::empty(),
    };
    match d.election {
        Some(a) => s.push(BalanceLock { id: LockId::Election, amount: a }),
        None => s,
    }
}

/// The balance of `d` that no lock holds, zero when the locks exceed it.
pub open spec fn usable_spec(d: AccountData) -> u64 {
    let e: u64 = match d.election {
        Some(a) => a,
        None => 0,
    };
    let s: u64 = match d.session {
        Some(a) => a,
        None => 0,
    };
    let held: u64 = if e > s { e } else { s };
    if d.total > held { (d.total - held) as u64 } else { 0 }
}

pub open spec fn empty_account() -> AccountData {
    AccountData { total: 0, election: None, session: None }
}

/// Balances and named locks per account.
pub struct Ledger {
    accounts: HashMap<u64, AccountData>,
}

impl Ledger {
    pub closed spec fn view_map(&self) -> Map<u64, AccountData> {
        self.accounts@
    }

    /// What the ledger holds for `who`; an unknown account is empty.
    pub open spec fn data(&self, who: u64) -> AccountData {
        if self.view_map().contains_key(who) {
            self.view_map()[who]
        } else {
            empty_account()
        }
    }

    pub open spec fn lock_spec(&self, id: LockId, who: u64) -> Option<u64> {
        self.data(who).lock_spec(id)
    }

    /// A ledger in which every account is empty.
    pub fn new() -> (r: Ledger)
        ensures
            forall|w: u64| #[trigger] r.data(w) == empty_account(),
    {
        Ledger { accounts: HashMap::new() }
    }

    fn get(&self, who: u64) -> (r: AccountData)
        ensures
            r == self.data(who),
    {
        match self.accounts.get(&who) {
            Some(d) => *d,
            None => AccountData { total: 0, election: None, session: None },
        }
    }

    fn put(&mut self, who: u64, d: AccountData)
        ensures
            final(self).view_map() == old(self).view_map().insert(who, d),
            forall|w: u64| #[trigger] final(self).data(w) == if w == who { d } else { old(self).data(w) },
    {
        self.accounts.insert(who, d);
    }

    /// Sets the total balance of `who`, leaving its locks as they are.
    pub fn set_balance(&mut self, who: u64, total: u64)
        ensures
            final(self).data(who) == (AccountData { total, ..old(self).data(who) }),
            forall|w: u64| w != who ==> #[trigger] final(self).data(w) == old(self).data(w),
    {
        let d = self.get(who);
        self.put(who, AccountData { total, ..d });
    }

    /// Total balance of `who`, locked or not.
    pub fn total_balance(&self, who: u64) -> (r: u64)
        ensures
            r == self.data(who).total,
    {
        self.get(who).total
    }

    /// The part of the balance of `who` that no lock holds: locks overlap,
    /// so the largest one counts.
    pub fn usable_balance(&self, who: u64) -> (r: u64)
        ensures
            r == usable_spec(self.data(who)),
    {
        let d = self.get(who);
        let e = match d.election {
            Some(a) => a,
            None => 0,
        };
        let s = match d.session {
            Some(a) => a,
            None => 0,
        };
        let held = if e > s { e } else { s };
        d.total.saturating_sub(held)
    }

    /// The amount held on `who` under `id`, if that lock is set.
    pub fn lock_of(&self, id: LockId, who: u64) -> (r: Option<u64>)
        ensures
            r == self.lock_spec(id, who),
    {
        let d = self.get(who);
        match id {
            LockId::Election => d.election,
            LockId::Session => d.session,
        }
    }

    /// The locks set on `who`: the session lock first, then the election lock.
    pub fn locks(&self, who: u64) -> (r: Vec<BalanceLock>)
        ensures
            r@ == locks_spec(self.data(who)),
    {
        let d = self.get(who);
        let mut r: Vec<BalanceLock> = Vec::new();
        if let Some(a) = d.session {
            r.push(BalanceLock { id: LockId::Session, amount: a });
        }
        if let Some(a) = d.election {
            r.push(BalanceLock { id: LockId::Election, amount: a });
        }
        assert(r@ =~= locks_spec(d));
        r
    }

    /// Sets the lock `id` on `who` to `amount`, replacing any earlier amount.
    pub fn set_lock(&mut self, id: LockId, who: u64, amount: u64)
        ensures
            final(self).data(who) == old(self).data(who).with_lock(id, Some(amount)),
            forall|w: u64| w != who ==> #[trigger] final(self).data(w) == old(self).data(w),
    {
        let d = self.get(who);
        let n = match id {
            LockId::Election => AccountData { election: Some(amount), ..d },
            LockId::Session => AccountData { session: Some(amount), ..d },
        };
        self.put(who, n);
    }

    /// Removes the lock `id` from `who`; nothing happens if it is not set.
    pub fn remove_lock(&mut self, id: LockId, who: u64)
        ensures
            final(self).data(who) == old(self).data(who).with_lock(id, None),
            forall|w: u64| w != who ==> #[trigger] final(self).data(w) == old(self).data(w),
    {
        let d = self.get(who);
        let n = match id {
            LockId::Election => AccountData { election: None, ..d },
            LockId::Session => AccountData { session: None, ..d },
        };
        self.put(who, n);
    }
}

} // verus!
