//! Selection of the validator set at the close of a round, and the lock
//! releases and migrations that go with it.
use vstd::prelude::*;
use crate::ledger::{Ledger, LockId, AccountData};
use crate::ranking::{Pledger, Voter, accounts_unique, same_voters, same_voter, copy_prefix};
use crate::elections::unique_accounts;
use crate::elections::Referendum;

verus! {

/// All pledges of a sequence of entries, entry after entry.
pub open spec fn flatten(s: Seq<Voter>) -> Seq<Pledger>
    decreases s.len(),
{
    if s.len() == 0 {
        Seq::empty()
    } else {
        flatten(s.drop_last()) + s.last().pledger@
    }
}

/// `w` holds a pledge in `ps`.
pub open spec fn backs(ps: Seq<Pledger>, w: u64) -> bool {
    exists|j: int| 0 <= j < ps.len() && #[trigger] ps[j].account == w
}

/// The accounts of a sequence of entries.
pub open spec fn accounts_of(s: Seq<Voter>) -> Seq<u64> {
    s.map_values(|v: Voter| v.account)
}

/// `d` without its `tag` lock when `w` holds a pledge in `ps`.
pub open spec fn dropped(d: AccountData, tag: LockId, ps: Seq<Pledger>, w: u64) -> AccountData {
    if backs(ps, w) {
        d.with_lock(tag, None)
    } else {
        d
    }
}

/// An election lock `l` after the pledge `p` is released from it: reduced
/// by the pledge, or removed when the pledge covers it.
pub open spec fn release_step(l: Option<u64>, p: Pledger, w: u64) -> Option<u64> {
    if p.account != w {
        l
    } else {
        match l {
            None => None,
            Some(x) => if x > p.amount {
                Some((x - p.amount) as u64)
            } else {
                None
            },
        }
    }
}

/// The election lock `l` of `w` after the pledges `ps` are released in turn.
pub open spec fn released(l: Option<u64>, ps: Seq<Pledger>, w: u64) -> Option<u64>
    decreases ps.len(),
{
    if ps.len() == 0 {
        l
    } else {
        release_step(released(l, ps.drop_last(), w), ps.last(), w)
    }
}

/// `d` with its election lock moved to the session tag.
pub open spec fn migrated(d: AccountData) -> AccountData {
    match d.election {
        Some(a) => d.with_lock(LockId::Election, None).with_lock(LockId::Session, Some(a)),
        None => d,
    }
}

pub proof fn lemma_backs_concat(a: Seq<Pledger>, b: Seq<Pledger>, w: u64)
    ensures
        backs(a + b, w) == (backs(a, w) || backs(b, w)),
{
    if backs(a, w) {
        let j = choose|j: int| 0 <= j < a.len() && #[trigger] a[j].account == w;
        assert((a + b)[j].account == w);
    }
    if backs(b, w) {
        let j = choose|j: int| 0 <= j < b.len() && #[trigger] b[j].account == w;
        assert((a + b)[a.len() + j].account == w);
    }
    if backs(a + b, w) {
        let j = choose|j: int| 0 <= j < (a + b).len() && #[trigger] (a + b)[j].account == w;
        if j < a.len() {
            assert(a[j].account == w);
        } else {
            assert(b[j - a.len()].account == w);
        }
    }
}

pub proof fn lemma_released_concat(l: Option<u64>, a: Seq<Pledger>, b: Seq<Pledger>, w: u64)
    ensures
        released(l, a + b, w) == released(released(l, a, w), b, w),
    decreases b.len(),
{
    if b.len() == 0 {
        assert(a + b =~= a);
    } else {
        lemma_released_concat(l, a, b.drop_last(), w);
        assert((a + b).drop_last() =~= a + b.drop_last());
    }
}

proof fn lemma_flatten_step(s: Seq<Voter>, from: int, i: int)
    requires
        0 <= from <= i < s.len(),
    ensures
        flatten(s.subrange(from, i + 1)) == flatten(s.subrange(from, i)) + s[i].pledger@,
        flatten(s.subrange(from, from)) == Seq::<Pledger>::empty(),
{
    assert(s.subrange(from, i + 1).drop_last() =~= s.subrange(from, i));
    assert(s.subrange(from, from).len() == 0);
}

/// Removes the `id` lock of `who`.
fn unlock_currency(ledger: &mut Ledger, id: LockId, who: u64)
    ensures
        final(ledger).data(who) == old(ledger).data(who).with_lock(id, None),
        forall|w: u64| w != who ==> #[trigger] final(ledger).data(w) == old(ledger).data(w),
{
    ledger.remove_lock(id, who);
}

/// Releases the election locks of the supporters in `pledger`: entirely
/// when `is_unlock_all`, else by each pledge's amount in turn.
pub fn unlock_pledger_currency(ledger: &mut Ledger, pledger: &Vec<Pledger>, is_unlock_all: bool)
    ensures
        forall|w: u64|
            #[trigger] final(ledger).data(w) == if is_unlock_all {
                dropped(old(ledger).data(w), LockId::Election, pledger@, w)
            } else {
                old(ledger).data(w).with_lock(
                    LockId::Election,
                    released(old(ledger).data(w).election, pledger@, w),
                )
            },
{
    let ghost l0 = *ledger;
    let mut j: usize = 0;
    while j < pledger.len()
        invariant
            j <= pledger@.len(),
            forall|w: u64|
                #[trigger] ledger.data(w) == if is_unlock_all {
                    dropped(l0.data(w), LockId::Election, pledger@.take(j as int), w)
                } else {
                    l0.data(w).with_lock(
                        LockId::Election,
                        released(l0.data(w).election, pledger@.take(j as int), w),
                    )
                },
        decreases pledger@.len() - j,
    {
        let p = pledger[j];
        let ghost pre = pledger@.take(j as int);
        assert(pledger@.take(j as int + 1) =~= pre.push(p));
        assert(pre.push(p).drop_last() =~= pre);
        if is_unlock_all {
            ledger.remove_lock(LockId::Election, p.account);
            assert forall|w: u64| #[trigger] ledger.data(w) == dropped(l0.data(w), LockId::Election, pre.push(p), w) by {
                lemma_backs_concat(pre, seq![p], w);
                assert(pre + seq![p] =~= pre.push(p));
                if w == p.account {
                    assert(seq![p][0].account == w);
                } else {
                    if backs(seq![p], w) {
                        let k = choose|k: int| 0 <= k < seq![p].len() && #[trigger] seq![p][k].account == w;
                        assert(k == 0);
                    }
                }
            }
        } else {
            match ledger.lock_of(LockId::Election, p.account) {
                Some(l) => {
                    if l > p.amount {
                        ledger.set_lock(LockId::Election, p.account, l - p.amount);
                    } else {
                        ledger.remove_lock(LockId::Election, p.account);
                    }
                },
                None => {},
            }
        }
        j += 1;
    }
    assert(pledger@.take(pledger@.len() as int) =~= pledger@);
}

/// Releases the election locks of the supporters of the entries of `s` from
/// index `from` on: entirely when `is_unlock_all`, else by each pledge's
/// amount in turn.
pub fn unlock_entries(ledger: &mut Ledger, s: &Vec<Voter>, from: usize, is_unlock_all: bool)
    requires
        from <= s@.len(),
    ensures
        forall|w: u64|
            #[trigger] final(ledger).data(w) == if is_unlock_all {
                dropped(old(ledger).data(w), LockId::Election, flatten(s@.subrange(from as int, s@.len() as int)), w)
            } else {
                old(ledger).data(w).with_lock(
                    LockId::Election,
                    released(old(ledger).data(w).election, flatten(s@.subrange(from as int, s@.len() as int)), w),
                )
            },
{
    let ghost l0 = *ledger;
    let mut i: usize = from;
    proof {
        if from < s@.len() {
            lemma_flatten_step(s@, from as int, from as int);
        } else {
            assert(s@.subrange(from as int, from as int).len() == 0);
        }
    }
    while i < s.len()
        invariant
            from <= i <= s@.len(),
            forall|w: u64|
                #[trigger] ledger.data(w) == if is_unlock_all {
                    dropped(l0.data(w), LockId::Election, flatten(s@.subrange(from as int, i as int)), w)
                } else {
                    l0.data(w).with_lock(
                        LockId::Election,
                        released(l0.data(w).election, flatten(s@.subrange(from as int, i as int)), w),
                    )
                },
        decreases s@.len() - i,
    {
        let ghost pre = flatten(s@.subrange(from as int, i as int));
        unlock_pledger_currency(ledger, &s[i].pledger, is_unlock_all);
        proof {
            lemma_flatten_step(s@, from as int, i as int);
            assert forall|w: u64| #[trigger] ledger.data(w) == if is_unlock_all {
                dropped(l0.data(w), LockId::Election, pre + s@[i as int].pledger@, w)
            } else {
                l0.data(w).with_lock(
                    LockId::Election,
                    released(l0.data(w).election, pre + s@[i as int].pledger@, w),
                )
            } by {
                lemma_backs_concat(pre, s@[i as int].pledger@, w);
                lemma_released_concat(l0.data(w).election, pre, s@[i as int].pledger@, w);
            }
        }
        i += 1;
    }
}

/// Moves the election lock of `who`, if any, to the session tag.
pub fn change_lock_id(ledger: &mut Ledger, who: u64)
    ensures
        final(ledger).data(who) == migrated(old(ledger).data(who)),
        forall|w: u64| w != who ==> #[trigger] final(ledger).data(w) == old(ledger).data(w),
{
    if let Some(amount) = ledger.lock_of(LockId::Election, who) {
        unlock_currency(ledger, LockId::Election, who);
        ledger.set_lock(LockId::Session, who, amount);
    }
}

/// `d` migrated when `w` holds a pledge in `ps`.
pub open spec fn migrated_if(d: AccountData, ps: Seq<Pledger>, w: u64) -> AccountData {
    if backs(ps, w) {
        migrated(d)
    } else {
        d
    }
}

/// What settling a supporter does to its account: its election lock moves
/// to the session tag when `migrate`, else its session lock is removed.
pub open spec fn settled(d: AccountData, migrate: bool) -> AccountData {
    if migrate {
        migrated(d)
    } else {
        d.with_lock(LockId::Session, None)
    }
}

/// `d` settled when `w` holds a pledge in `ps`.
pub open spec fn settled_if(d: AccountData, ps: Seq<Pledger>, w: u64, migrate: bool) -> AccountData {
    if backs(ps, w) {
        settled(d, migrate)
    } else {
        d
    }
}

/// Settles every supporter of the entries of `s` once: when `migrate`, its
/// election lock moves to the session tag; otherwise its session lock is
/// removed.
pub fn settle_supporters(ledger: &mut Ledger, s: &Vec<Voter>, migrate: bool)
    ensures
        forall|w: u64|
            #[trigger] final(ledger).data(w) == if migrate {
                migrated_if(old(ledger).data(w), flatten(s@), w)
            } else {
                dropped(old(ledger).data(w), LockId::Session, flatten(s@), w)
            },
{
    let ghost l0 = *ledger;
    let mut i: usize = 0;
    proof {
        if 0 < s@.len() {
            lemma_flatten_step(s@, 0, 0);
        } else {
            assert(s@.subrange(0, 0).len() == 0);
        }
    }
    while i < s.len()
        invariant
            i <= s@.len(),
            forall|w: u64|
                #[trigger] ledger.data(w) == settled_if(l0.data(w), flatten(s@.subrange(0, i as int)), w, migrate),
        decreases s@.len() - i,
    {
        let ghost pre = flatten(s@.subrange(0, i as int));
        let ghost mid = *ledger;
        let mut j: usize = 0;
        while j < s[i].pledger.len()
            invariant
                i < s@.len(),
                j <= s@[i as int].pledger@.len(),
                forall|w: u64|
                    #[trigger] ledger.data(w) == settled_if(mid.data(w), s@[i as int].pledger@.take(j as int), w, migrate),
            decreases s@[i as int].pledger@.len() - j,
        {
            let who = s[i].pledger[j].account;
            let ghost pj = s@[i as int].pledger@.take(j as int);
            let ghost one = seq![s@[i as int].pledger@[j as int]];
            if migrate {
                change_lock_id(ledger, who);
            } else {
                unlock_currency(ledger, LockId::Session, who);
            }
            proof {
                assert(s@[i as int].pledger@.take(j as int + 1) =~= pj + one);
                assert forall|w: u64| #[trigger] ledger.data(w) == settled_if(mid.data(w), pj + one, w, migrate) by {
                    lemma_backs_concat(pj, one, w);
                    if backs(one, w) {
                        let k = choose|k: int| 0 <= k < 1 && #[trigger] one[k].account == w;
                        assert(k == 0);
                    }
                    if w == who {
                        assert(one[0].account == w);
                    }
                }
            }
            j += 1;
        }
        proof {
            assert(s@[i as int].pledger@.take(s@[i as int].pledger@.len() as int) =~= s@[i as int].pledger@);
            lemma_flatten_step(s@, 0, i as int);
            assert forall|w: u64| #[trigger] ledger.data(w) == settled_if(l0.data(w), pre + s@[i as int].pledger@, w, migrate) by {
                lemma_backs_concat(pre, s@[i as int].pledger@, w);
            }
        }
        i += 1;
    }
    assert(s@.subrange(0, s@.len() as int) =~= s@);
}

/// How many entries are selected out of `n` with at most `max` validators.
pub open spec fn selected_count(n: nat, max: u32) -> int {
    if n > max {
        max as int
    } else {
        n as int
    }
}

/// Height at which term `round` ends, saturating at `u64::MAX`.
pub open spec fn term_end(start: u64, term: u64, round: u32) -> u64 {
    let span = if round * term > u64::MAX { u64::MAX as int } else { round * term };
    (if start + span > u64::MAX { u64::MAX as int } else { start + span }) as u64
}

pub proof fn lemma_flatten_same(a: Seq<Voter>, b: Seq<Voter>)
    requires
        same_voters(a, b),
    ensures
        flatten(a) == flatten(b),
    decreases a.len(),
{
    if a.len() > 0 {
        assert(same_voter(a[a.len() - 1], b[b.len() - 1]));
        lemma_flatten_same(a.drop_last(), b.drop_last());
    }
}

proof fn lemma_same_voters_parts(a: Seq<Voter>, b: Seq<Voter>, k: int)
    requires
        same_voters(a, b),
        0 <= k <= a.len(),
    ensures
        flatten(a) == flatten(b),
        flatten(a.subrange(k, a.len() as int)) == flatten(b.subrange(k, b.len() as int)),
        accounts_of(a.take(k)) == accounts_of(b.take(k)),
        same_voters(a.take(k), b.take(k)),
{
    lemma_flatten_same(a, b);
    assert(same_voters(a.subrange(k, a.len() as int), b.subrange(k, b.len() as int))) by {
        assert forall|i: int| 0 <= i < a.len() - k implies same_voter(
            #[trigger] a.subrange(k, a.len() as int)[i],
            b.subrange(k, b.len() as int)[i],
        ) by {
            assert(same_voter(a[k + i], b[k + i]));
        }
    }
    lemma_flatten_same(a.subrange(k, a.len() as int), b.subrange(k, b.len() as int));
    assert forall|i: int| 0 <= i < k implies same_voter(#[trigger] a.take(k)[i], b.take(k)[i]) by {
        assert(same_voter(a[i], b[i]));
    }
    assert forall|i: int| 0 <= i < k implies #[trigger] accounts_of(a.take(k))[i] == accounts_of(b.take(k))[i] by {
        assert(same_voter(a[i], b[i]));
    }
    assert(accounts_of(a.take(k)) =~= accounts_of(b.take(k)));
}

proof fn lemma_same_voters_trans(x: Seq<Voter>, y: Seq<Voter>, z: Seq<Voter>)
    requires
        same_voters(x, y),
        same_voters(y, z),
    ensures
        same_voters(x, z),
{
    assert forall|i: int| 0 <= i < x.len() implies same_voter(#[trigger] x[i], z[i]) by {
        assert(same_voter(x[i], y[i]));
        assert(same_voter(y[i], z[i]));
    }
}

/// The validator selector and the set it installs.
pub struct Council {
    /// The ranked entries that back the current validators.
    pub members: Vec<Voter>,
    /// The current validator set, without duplicates.
    pub validators: Vec<u64>,
    /// Height at which the first term ends.
    pub start_council: u64,
    /// Length of a term in blocks.
    pub council_term: u64,
    pub min_validators: u32,
    pub max_validators: u32,
}

/// The accounts of the first `n` entries of `s`.
fn accounts_prefix(s: &Vec<Voter>, n: usize) -> (r: Vec<u64>)
    requires
        n <= s@.len(),
    ensures
        r@ == accounts_of(s@.take(n as int)),
{
    let mut r: Vec<u64> = Vec::new();
    let mut i: usize = 0;
    while i < n
        invariant
            n <= s@.len(),
            i <= n,
            r@ == accounts_of(s@.take(i as int)),
        decreases n - i,
    {
        r.push(s[i].account);
        i += 1;
        assert(r@ =~= accounts_of(s@.take(i as int)));
    }
    r
}

proof fn lemma_accounts_unique(s: Seq<Voter>, n: int)
    requires
        accounts_unique(s),
        0 <= n <= s.len(),
    ensures
        unique_accounts(accounts_of(s.take(n))),
{
    let a = accounts_of(s.take(n));
    assert forall|i: int, j: int| 0 <= i < j < a.len() implies #[trigger] a[i] != #[trigger] a[j] by {
        assert(a[i] == s[i].account && a[j] == s[j].account);
    }
}

impl Council {
    /// The installed validators are distinct and the bounds on the size of
    /// the set are ordered.
    pub open spec fn wf(&self) -> bool {
        &&& unique_accounts(self.validators@)
        &&& self.min_validators <= self.max_validators
    }

    /// The account data of `w` once the session locks of the supporters of
    /// the current members are released.
    pub open spec fn session_released(&self, ledger: &Ledger, w: u64) -> AccountData {
        dropped(ledger.data(w), LockId::Session, flatten(self.members@), w)
    }

    /// A council whose validator set is `validators` without duplicates and
    /// which has no members yet.
    pub fn new(
        start_council: u64,
        council_term: u64,
        min_validators: u32,
        max_validators: u32,
        validators: &Vec<u64>,
    ) -> (r: Council)
        requires
            min_validators <= max_validators,
        ensures
            r.wf(),
            r.validators@.to_set() == validators@.to_set(),
            r.members@.len() == 0,
            r.start_council == start_council,
            r.council_term == council_term,
            r.min_validators == min_validators,
            r.max_validators == max_validators,
    {
        let mut c = Council {
            members: Vec::new(),
            validators: Vec::new(),
            start_council,
            council_term,
            min_validators,
            max_validators,
        };
        c.initialize_validators(validators);
        c
    }

    /// Installs `validators`, each account once, in order of first appearance.
    pub fn initialize_validators(&mut self, validators: &Vec<u64>)
        requires
            old(self).min_validators <= old(self).max_validators,
        ensures
            final(self).wf(),
            final(self).validators@.to_set() == validators@.to_set(),
            final(self).members == old(self).members,
            final(self).start_council == old(self).start_council,
            final(self).council_term == old(self).council_term,
            final(self).min_validators == old(self).min_validators,
            final(self).max_validators == old(self).max_validators,
    {
        let mut init: Vec<u64> = Vec::new();
        let mut i: usize = 0;
        while i < validators.len()
            invariant
                i <= validators@.len(),
                unique_accounts(init@),
                init@.to_set() == validators@.take(i as int).to_set(),
            decreases validators@.len() - i,
        {
            let v = validators[i];
            let mut found = false;
            let mut k: usize = 0;
            while k < init.len()
                invariant
                    k <= init@.len(),
                    found == exists|m: int| 0 <= m < k && init@[m] == v,
                decreases init@.len() - k,
            {
                if init[k] == v {
                    found = true;
                }
                k += 1;
            }
            let ghost before = init@;
            assert(validators@.take(i as int + 1) =~= validators@.take(i as int).push(v));
            if !found {
                init.push(v);
                assert forall|a: int, b: int| 0 <= a < b < init@.len() implies #[trigger] init@[a] != #[trigger] init@[b] by {
                    if b == before.len() {
                        assert(before[a] != v);
                    }
                }
                proof {
                    before.lemma_push_to_set_commute(v);
                }
            } else {
                assert(before.to_set().contains(v)) by {
                    let m = choose|m: int| 0 <= m < before.len() && before[m] == v;
                    assert(before.contains(v));
                }
                assert(before.to_set().insert(v) =~= before.to_set());
            }
            proof {
                validators@.take(i as int).lemma_push_to_set_commute(v);
            }
            i += 1;
        }
        assert(validators@.take(validators@.len() as int) =~= validators@);
        self.validators = init;
    }

    /// The settings of `other`.
    pub open spec fn same_settings(&self, other: Council) -> bool {
        &&& self.start_council == other.start_council
        &&& self.council_term == other.council_term
        &&& self.min_validators == other.min_validators
        &&& self.max_validators == other.max_validators
    }

    /// Selects the validators of round `index` from the ranking of
    /// `elections`, when it is the current round.
    ///
    /// With fewer entries than `min_validators` every election lock of their
    /// supporters is removed and nothing is selected. Otherwise the session
    /// locks of the supporters of the current members are removed, and the
    /// first `max_validators` entries (all of them, if fewer) become the
    /// members; the supporters of the entries left out have their election
    /// locks reduced by their pledges to them.
    pub fn update_validators<R: Referendum>(&mut self, ledger: &mut Ledger, elections: &R, index: u32) -> (r: Option<Vec<u64>>)
        requires
            elections.inv(),
        ensures
            ({
                let vm = elections.ranking();
                let n = vm.len();
                let k = selected_count(n, old(self).max_validators);
                if index != elections.round_spec() {
                    &&& r is None
                    &&& *final(self) == *old(self)
                    &&& *final(ledger) == *old(ledger)
                } else if n < old(self).min_validators {
                    &&& r is None
                    &&& *final(self) == *old(self)
                    &&& forall|w: u64| #[trigger] final(ledger).data(w)
                        == dropped(old(ledger).data(w), LockId::Election, flatten(vm), w)
                } else {
                    &&& r matches Some(v) && v@ == accounts_of(vm.take(k)) && unique_accounts(v@)
                    &&& same_voters(final(self).members@, vm.take(k))
                    &&& final(self).validators == old(self).validators
                    &&& final(self).same_settings(*old(self))
                    &&& forall|w: u64| #[trigger] final(ledger).data(w) == old(self).session_released(old(ledger), w).with_lock(
                        LockId::Election,
                        released(old(self).session_released(old(ledger), w).election, flatten(vm.subrange(k, n as int)), w),
                    )
                }
            }),
    {
        let voter_members = match elections.get_result(index) {
            Some(v) => v,
            None => {
                return None;
            },
        };
        let ghost vm = elections.ranking();
        let n = voter_members.len();
        proof {
            elections.lemma_ranking();
            lemma_same_voters_parts(voter_members@, vm, 0);
            assert(voter_members@.subrange(0, n as int) =~= voter_members@);
        }
        if n < self.min_validators as usize {
            unlock_entries(ledger, &voter_members, 0, true);
            return None;
        }
        settle_supporters(ledger, &self.members, false);
        let k = if n > self.max_validators as usize { self.max_validators as usize } else { n };
        proof {
            lemma_same_voters_parts(voter_members@, vm, k as int);
        }
        unlock_entries(ledger, &voter_members, k, false);
        self.members = copy_prefix(&voter_members, k);
        proof {
            lemma_same_voters_trans(self.members@, voter_members@.take(k as int), vm.take(k as int));
            lemma_accounts_unique(vm, k as int);
        }
        Some(accounts_prefix(&voter_members, k))
    }

    /// Moves the election locks of the current members' supporters to the
    /// session tag.
    pub fn to_change_id(&self, ledger: &mut Ledger)
        ensures
            forall|w: u64| #[trigger] final(ledger).data(w) == migrated_if(old(ledger).data(w), flatten(self.members@), w),
    {
        settle_supporters(ledger, &self.members, true);
    }

    /// `next` and `next_ledger` are this council and `ledger` after round
    /// `index` is closed against the ranking of `elections`.
    pub open spec fn round_closed<R: Referendum>(&self, next: Council, ledger: Ledger, next_ledger: Ledger, elections: R, index: u32) -> bool {
        let vm = elections.ranking();
        let n = vm.len();
        let k = selected_count(n, self.max_validators);
        if index != elections.round_spec() {
            &&& next == *self
            &&& next_ledger == ledger
        } else if n < self.min_validators {
            &&& next == *self
            &&& forall|w: u64| #[trigger] next_ledger.data(w)
                == dropped(ledger.data(w), LockId::Election, flatten(vm), w)
        } else {
            &&& same_voters(next.members@, vm.take(k))
            &&& next.validators@ == if k >= self.min_validators {
                accounts_of(vm.take(k))
            } else {
                self.validators@
            }
            &&& forall|w: u64| #[trigger] next_ledger.data(w) == migrated_if(
                self.session_released(&ledger, w).with_lock(
                    LockId::Election,
                    released(self.session_released(&ledger, w).election, flatten(vm.subrange(k, n as int)), w),
                ),
                flatten(vm.take(k)),
                w,
            )
        }
    }

    /// Closes round `index`: selects the validators from the ranking of
    /// `elections`, moves the election locks of the new members' supporters
    /// to the session tag, and installs the selected set when it has at
    /// least `min_validators` accounts.
    pub fn close_round<R: Referendum>(&mut self, ledger: &mut Ledger, elections: &R, index: u32)
        requires
            old(self).wf(),
            elections.inv(),
        ensures
            final(self).wf(),
            final(self).same_settings(*old(self)),
            old(self).round_closed(*final(self), *old(ledger), *final(ledger), *elections, index),
    {
        let ghost vm = elections.ranking();
        let members = self.update_validators(ledger, elections, index);
        if let Some(validators) = members {
            proof {
                lemma_flatten_same(self.members@, vm.take(selected_count(vm.len(), self.max_validators)));
            }
            self.to_change_id(ledger);
            if validators.len() >= self.min_validators as usize {
                self.validators = validators;
            }
        }
    }

    /// Height at which term `round` ends: `start_council + round * council_term`,
    /// saturating.
    pub fn end_session_block(&self, round: u32) -> (r: u64)
        ensures
            r == term_end(self.start_council, self.council_term, round),
    {
        let index = round as u64;
        let span = match index.checked_mul(self.council_term) {
            Some(m) => m,
            None => u64::MAX,
        };
        self.start_council.saturating_add(span)
    }

    /// Whether the session ends at height `now` while round `round` is current.
    pub fn should_end_session(&self, round: u32, now: u64) -> (r: bool)
        ensures
            r == (now == term_end(self.start_council, self.council_term, round)),
    {
        self.end_session_block(round) == now
    }

    /// The validator set handed to the session for its next term.
    pub fn new_session(&self) -> (r: Vec<u64>)
        ensures
            r@ == self.validators@,
    {
        let r = self.validators.clone();
        assert(r@ =~= self.validators@);
        r
    }

    /// When the next session is expected to start; this council gives no
    /// estimate.
    pub fn estimate_next_session_rotation(&self, now: u64) -> (r: Option<u64>)
        ensures
            r is None,
    {
        None
    }
}

} // verus!
