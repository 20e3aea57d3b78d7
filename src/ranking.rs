//! Pledges, ranked entries, and the ordering of entries by total.
use vstd::prelude::*;

verus! {

/// One supporter's pledge toward a candidate.
#[derive(Clone, Copy, Debug, PartialEq, Eq, Structural)]
pub struct Pledger {
    pub account: u64,
    /// Height of the block that last added to this pledge.
    pub block_number: u64,
    pub amount: u64,
}

/// A ranked candidate: the pledges it holds and their total.
#[derive(Debug)]
pub struct Voter {
    /// The round in which the candidate received its first pledge.
    pub round: u32,
    pub account: u64,
    /// The sum of the pledges' amounts; the ranking key.
    pub amount: u64,
    pub pledger: Vec<Pledger>,
}

/// Sum of the amounts of a sequence of pledges.
pub open spec fn sum_pledges(s: Seq<Pledger>) -> nat
    decreases s.len(),
{
    if s.len() == 0 {
        0
    } else {
        sum_pledges(s.drop_last()) + s.last().amount as nat
    }
}

/// No supporter holds two pledges in `s`.
pub open spec fn pledgers_unique(s: Seq<Pledger>) -> bool {
    forall|i: int, j: int|
        0 <= i < j < s.len() ==> #[trigger] s[i].account != #[trigger] s[j].account
}

impl Voter {
    /// The total equals the sum of the pledges, one pledge per supporter.
    pub open spec fn wf(&self) -> bool {
        &&& self.amount == sum_pledges(self.pledger@)
        &&& pledgers_unique(self.pledger@)
    }
}

/// Ranked entries stand in non-increasing order of their totals.
pub open spec fn sorted_desc(s: Seq<Voter>) -> bool {
    forall|i: int, j: int| 0 <= i < j < s.len() ==> #[trigger] s[i].amount >= #[trigger] s[j].amount
}

/// No candidate is ranked twice.
pub open spec fn accounts_unique(s: Seq<Voter>) -> bool {
    forall|i: int, j: int|
        0 <= i < j < s.len() ==> #[trigger] s[i].account != #[trigger] s[j].account
}

/// Every ranked entry is well formed.
pub open spec fn all_wf(s: Seq<Voter>) -> bool {
    forall|i: int| 0 <= i < s.len() ==> (#[trigger] s[i]).wf()
}

/// The ranking invariant of a sequence of entries.
pub open spec fn ranking_wf(s: Seq<Voter>) -> bool {
    &&& sorted_desc(s)
    &&& accounts_unique(s)
    &&& all_wf(s)
}

/// Whether `who` has an entry in `s`.
pub open spec fn is_ranked(s: Seq<Voter>, who: u64) -> bool {
    exists|i: int| 0 <= i < s.len() && #[trigger] s[i].account == who
}

/// `p` is where an entry with total `a` goes in `s`: after every entry whose
/// total is at least `a`, before the first with a smaller one.
pub open spec fn is_insert_pos(s: Seq<Voter>, a: u64, p: int) -> bool {
    &&& 0 <= p <= s.len()
    &&& forall|j: int| 0 <= j < p ==> #[trigger] s[j].amount >= a
    &&& p < s.len() ==> s[p].amount < a
}

/// The pledges after `who` adds `amount` at height `h`: an existing pledge of
/// `who` grows and is stamped with `h`, otherwise a new one is appended.
pub open spec fn pledges_after(s: Seq<Pledger>, who: u64, amount: u64, h: u64, r: Seq<Pledger>) -> bool {
    if exists|i: int| 0 <= i < s.len() && #[trigger] s[i].account == who {
        exists|i: int|
            0 <= i < s.len() && #[trigger] s[i].account == who && r == s.update(
                i,
                Pledger { account: who, block_number: h, amount: (s[i].amount + amount) as u64 },
            )
    } else {
        r == s.push(Pledger { account: who, block_number: h, amount })
    }
}

pub proof fn lemma_sum_push(s: Seq<Pledger>, p: Pledger)
    ensures
        sum_pledges(s.push(p)) == sum_pledges(s) + p.amount,
{
    assert(s.push(p).drop_last() =~= s);
}

pub proof fn lemma_sum_update(s: Seq<Pledger>, i: int, p: Pledger)
    requires
        0 <= i < s.len(),
    ensures
        sum_pledges(s.update(i, p)) == sum_pledges(s) - s[i].amount + p.amount,
        s[i].amount <= sum_pledges(s),
    decreases s.len(),
{
    if i == s.len() - 1 {
        assert(s.update(i, p).drop_last() =~= s.drop_last());
    } else {
        lemma_sum_update(s.drop_last(), i, p);
        assert(s.update(i, p).drop_last() =~= s.drop_last().update(i, p));
    }
}

/// Index of the entry of `who` in `members`, if it has one.
pub fn find_voter(members: &Vec<Voter>, who: u64) -> (r: Option<usize>)
    ensures
        match r {
            Some(k) => k < members@.len() && members@[k as int].account == who,
            None => !is_ranked(members@, who),
        },
{
    let mut i: usize = 0;
    while i < members.len()
        invariant
            i <= members@.len(),
            forall|j: int| 0 <= j < i ==> #[trigger] members@[j].account != who,
        decreases members@.len() - i,
    {
        if members[i].account == who {
            return Some(i);
        }
        i += 1;
    }
    None
}

/// Where an entry with total `a` is inserted into `members`.
pub fn insert_position(members: &Vec<Voter>, a: u64) -> (p: usize)
    requires
        sorted_desc(members@),
    ensures
        is_insert_pos(members@, a, p as int),
{
    let mut i: usize = 0;
    while i < members.len() && members[i].amount >= a
        invariant
            i <= members@.len(),
            forall|j: int| 0 <= j < i ==> #[trigger] members@[j].amount >= a,
        decreases members@.len() - i,
    {
        i += 1;
    }
    i
}

proof fn lemma_insert_keeps_ranking(s: Seq<Voter>, v: Voter, p: int)
    requires
        ranking_wf(s),
        v.wf(),
        !is_ranked(s, v.account),
        is_insert_pos(s, v.amount, p),
    ensures
        ranking_wf(s.insert(p, v)),
{
    let t = s.insert(p, v);
    assert forall|i: int, j: int| 0 <= i < j < t.len() implies #[trigger] t[i].amount >= #[trigger] t[j].amount by {
        if j < p {
        } else if j == p {
        } else if i < p {
            assert(s[i].amount >= v.amount);
            assert(s[p].amount < v.amount || p == s.len());
            assert(s[p].amount >= s[j - 1].amount);
        } else if i == p {
            assert(s[p].amount >= s[j - 1].amount);
        } else {
        }
    }
    assert forall|i: int, j: int| 0 <= i < j < t.len() implies #[trigger] t[i].account != #[trigger] t[j].account by {
        if i == p {
            assert(s[j - 1].account != v.account);
        } else if j == p {
            assert(s[i].account != v.account);
        }
    }
}

/// Inserts `v` into `members` at its place by total: after every entry whose
/// total is at least as large.
pub fn insert_ranked(members: &mut Vec<Voter>, v: Voter)
    requires
        ranking_wf(old(members)@),
        v.wf(),
        !is_ranked(old(members)@, v.account),
    ensures
        ranking_wf(final(members)@),
        exists|p: int|
            is_insert_pos(old(members)@, v.amount, p) && final(members)@ == old(members)@.insert(p, v),
{
    let p = insert_position(members, v.amount);
    proof {
        lemma_insert_keeps_ranking(members@, v, p as int);
    }
    members.insert(p, v);
}

/// Adds `amount` from `who` at height `h` to the entry `v`. Returns false,
/// leaving `v` as it was, when the new total would not fit in a `u64`.
pub fn add_pledge(v: &mut Voter, who: u64, amount: u64, h: u64) -> (ok: bool)
    requires
        old(v).wf(),
    ensures
        ok == (old(v).amount + amount <= u64::MAX),
        !ok ==> *final(v) == *old(v),
        ok ==> {
            &&& final(v).wf()
            &&& final(v).amount == old(v).amount + amount
            &&& final(v).account == old(v).account
            &&& final(v).round == old(v).round
            &&& pledges_after(old(v).pledger@, who, amount, h, final(v).pledger@)
        },
{
    let total = match v.amount.checked_add(amount) {
        Some(t) => t,
        None => {
            return false;
        },
    };
    let ghost s = v.pledger@;
    let mut i: usize = 0;
    while i < v.pledger.len()
        invariant
            i <= s.len(),
            *v == *old(v),
            s == old(v).pledger@,
            pledgers_unique(s),
            v.amount + amount <= u64::MAX,
            total == v.amount + amount,
            sum_pledges(s) == v.amount,
            forall|j: int| 0 <= j < i ==> #[trigger] s[j].account != who,
        decreases s.len() - i,
    {
        if v.pledger[i].account == who {
            let old_amount = v.pledger[i].amount;
            proof {
                lemma_sum_update(s, i as int, s[i as int]);
            }
            let p = Pledger { account: who, block_number: h, amount: old_amount + amount };
            proof {
                lemma_sum_update(s, i as int, p);
            }
            v.pledger.set(i, p);
            v.amount = total;
            assert(s[i as int].account == who);
            assert(v.pledger@ == s.update(i as int, p));
            assert forall|a: int, b: int| 0 <= a < b < v.pledger@.len() implies
                #[trigger] v.pledger@[a].account != #[trigger] v.pledger@[b].account by {
                if a != i && b != i {
                    assert(s[a].account != s[b].account);
                }
            }
            return true;
        }
        i += 1;
    }
    let p = Pledger { account: who, block_number: h, amount };
    proof {
        lemma_sum_push(s, p);
    }
    v.pledger.push(p);
    v.amount = total;
    assert forall|a: int, b: int| 0 <= a < b < v.pledger@.len() implies
        #[trigger] v.pledger@[a].account != #[trigger] v.pledger@[b].account by {
        if b == s.len() {
            assert(s[a].account != who);
        } else {
            assert(s[a].account != s[b].account);
        }
    }
    true
}

proof fn lemma_remove_keeps_ranking(s: Seq<Voter>, k: int)
    requires
        ranking_wf(s),
        0 <= k < s.len(),
    ensures
        ranking_wf(s.remove(k)),
        !is_ranked(s.remove(k), s[k].account),
{
    let t = s.remove(k);
    assert forall|i: int, j: int| 0 <= i < j < t.len() implies #[trigger] t[i].amount >= #[trigger] t[j].amount by {
        let si = if i < k { i } else { i + 1 };
        let sj = if j < k { j } else { j + 1 };
        assert(t[i] == s[si] && t[j] == s[sj]);
    }
    assert forall|i: int, j: int| 0 <= i < j < t.len() implies #[trigger] t[i].account != #[trigger] t[j].account by {
        let si = if i < k { i } else { i + 1 };
        let sj = if j < k { j } else { j + 1 };
        assert(t[i] == s[si] && t[j] == s[sj]);
    }
    assert forall|i: int| 0 <= i < t.len() implies (#[trigger] t[i]).wf() by {
        let si = if i < k { i } else { i + 1 };
        assert(t[i] == s[si]);
    }
    if is_ranked(t, s[k].account) {
        let i = choose|i: int| 0 <= i < t.len() && #[trigger] t[i].account == s[k].account;
        let si = if i < k { i } else { i + 1 };
        assert(t[i] == s[si]);
    }
}

/// Adds a pledge to the entry at index `k` and moves the entry to its new
/// place: after every other entry whose total is at least the new total.
/// Returns false, leaving `members` as it was, on overflow of the total.
pub fn repledge(members: &mut Vec<Voter>, k: usize, who: u64, amount: u64, h: u64) -> (ok: bool)
    requires
        ranking_wf(old(members)@),
        k < old(members)@.len(),
    ensures
        ok == (old(members)@[k as int].amount + amount <= u64::MAX),
        !ok ==> *final(members) == *old(members),
        ok ==> ranking_wf(final(members)@),
        ok ==> exists|v: Voter, p: int|
            {
                &&& v.account == old(members)@[k as int].account
                &&& v.round == old(members)@[k as int].round
                &&& v.amount == old(members)@[k as int].amount + amount
                &&& pledges_after(old(members)@[k as int].pledger@, who, amount, h, v.pledger@)
                &&& is_insert_pos(old(members)@.remove(k as int), v.amount, p)
                &&& final(members)@ == old(members)@.remove(k as int).insert(p, v)
            },
{
    if members[k].amount.checked_add(amount).is_none() {
        return false;
    }
    proof {
        lemma_remove_keeps_ranking(members@, k as int);
    }
    let mut v = members.remove(k);
    assert(v.wf());
    let ok = add_pledge(&mut v, who, amount, h);
    assert(ok);
    insert_ranked(members, v);
    true
}

/// `a` and `b` hold the same entry.
pub open spec fn same_voter(a: Voter, b: Voter) -> bool {
    &&& a.round == b.round
    &&& a.account == b.account
    &&& a.amount == b.amount
    &&& a.pledger@ == b.pledger@
}

/// `s` and `t` hold the same entries in the same order.
pub open spec fn same_voters(s: Seq<Voter>, t: Seq<Voter>) -> bool {
    &&& s.len() == t.len()
    &&& forall|i: int| 0 <= i < s.len() ==> same_voter(#[trigger] s[i], t[i])
}

impl Voter {
    /// A copy of the entry.
    pub fn duplicate(&self) -> (r: Voter)
        ensures
            same_voter(r, *self),
    {
        let pledger = self.pledger.clone();
        assert(pledger@ =~= self.pledger@);
        Voter { round: self.round, account: self.account, amount: self.amount, pledger }
    }
}

/// A copy of a sequence of entries.
pub fn copy_voters(s: &Vec<Voter>) -> (r: Vec<Voter>)
    ensures
        same_voters(r@, s@),
{
    let r = copy_prefix(s, s.len());
    assert(s@.take(s@.len() as int) =~= s@);
    r
}

/// A copy of the first `n` entries of `s`.
pub fn copy_prefix(s: &Vec<Voter>, n: usize) -> (r: Vec<Voter>)
    requires
        n <= s@.len(),
    ensures
        same_voters(r@, s@.take(n as int)),
{
    let mut r: Vec<Voter> = Vec::new();
    let mut i: usize = 0;
    while i < n
        invariant
            n <= s@.len(),
            i <= n,
            r@.len() == i,
            forall|j: int| 0 <= j < i ==> same_voter(#[trigger] r@[j], s@[j]),
        decreases n - i,
    {
        r.push(s[i].duplicate());
        i += 1;
    }
    r
}

} // verus!
