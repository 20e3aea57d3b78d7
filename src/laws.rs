//! Properties that hold across operations of the engine.
use vstd::prelude::*;
use crate::ledger::{Ledger, LockId, usable_spec};
use crate::ranking::{Pledger, sum_pledges, pledges_after, is_ranked, lemma_sum_push, lemma_sum_update};
use crate::elections::Elections;
use crate::council::{Council, accounts_of, backs, flatten, released, selected_count};

verus! {

/// A pledge of `amount` adds exactly `amount` to the sum of a candidate's
/// pledges, whether it grows the supporter's pledge or adds a new one. As a
/// vote grows the entry's total by the same amount, the total stays the
/// sum of its pledges.
pub proof fn law_pledge_conserves_total(s: Seq<Pledger>, who: u64, amount: u64, h: u64, r: Seq<Pledger>)
    requires
        pledges_after(s, who, amount, h, r),
        sum_pledges(s) + amount <= u64::MAX,
    ensures
        sum_pledges(r) == sum_pledges(s) + amount,
{
    if exists|i: int| 0 <= i < s.len() && #[trigger] s[i].account == who {
        let i = choose|i: int|
            0 <= i < s.len() && #[trigger] s[i].account == who && r == s.update(
                i,
                Pledger { account: who, block_number: h, amount: (s[i].amount + amount) as u64 },
            );
        lemma_sum_update(s, i, s[i]);
        lemma_sum_update(s, i, r[i]);
    } else {
        lemma_sum_push(s, Pledger { account: who, block_number: h, amount });
    }
}

/// In every well-formed state, each ranked entry's total is the sum of its
/// pledges.
pub proof fn law_total_is_sum_of_pledges(e: Elections, i: int)
    requires
        e.wf(),
        0 <= i < e.voter_members@.len(),
    ensures
        e.voter_members@[i].amount == sum_pledges(e.voter_members@[i].pledger@),
{
}

/// In every well-formed state, no account is both a candidate and ranked.
pub proof fn law_candidate_or_ranked(e: Elections, who: u64)
    requires
        e.wf(),
    ensures
        !(e.candidates@.contains(who) && is_ranked(e.voter_members@, who)),
{
}

/// Closing a round with between `min_validators` and `max_validators`
/// entries installs all of them: the new set has one validator per entry,
/// and every supporter's election lock moves whole to the session tag.
pub proof fn law_selection_within_bounds(
    c: Council,
    next: Council,
    ledger: Ledger,
    next_ledger: Ledger,
    e: Elections,
    w: u64,
    a: u64,
)
    requires
        c.round_closed(next, ledger, next_ledger, e, e.vote_round_count),
        c.min_validators <= e.voter_members@.len() <= c.max_validators,
        backs(flatten(e.voter_members@), w),
        ledger.data(w).election == Some(a),
    ensures
        next.validators@ == accounts_of(e.voter_members@),
        next.validators@.len() == e.voter_members@.len(),
        next.members@.len() == e.voter_members@.len(),
        next_ledger.data(w).session == Some(a),
        next_ledger.data(w).election.is_none(),
{
    let vm = e.voter_members@;
    assert(vm.take(vm.len() as int) =~= vm);
    assert(vm.subrange(vm.len() as int, vm.len() as int).len() == 0);
    assert(flatten(vm.subrange(vm.len() as int, vm.len() as int)) =~= Seq::<Pledger>::empty());
}

/// Closing a round with fewer entries than `min_validators` leaves the
/// council as it was, and every supporter of the round loses its election
/// lock, so its whole balance is usable again.
pub proof fn law_selection_below_minimum(
    c: Council,
    next: Council,
    ledger: Ledger,
    next_ledger: Ledger,
    e: Elections,
    w: u64,
)
    requires
        c.round_closed(next, ledger, next_ledger, e, e.vote_round_count),
        e.voter_members@.len() < c.min_validators,
        backs(flatten(e.voter_members@), w),
    ensures
        next == c,
        next_ledger.data(w).election.is_none(),
        next_ledger.data(w).session == ledger.data(w).session,
        next_ledger.data(w).total == ledger.data(w).total,
        usable_spec(next_ledger.data(w)) == usable_spec(ledger.data(w).with_lock(LockId::Election, None)),
{
}

/// Closing a round with more entries than `max_validators` selects exactly
/// `max_validators` of them, each backed by at least as much as any entry
/// left out. A supporter that backs only entries left out has its election
/// lock reduced by its pledges to them, and removed when they cover it.
pub proof fn law_selection_above_maximum(
    c: Council,
    next: Council,
    ledger: Ledger,
    next_ledger: Ledger,
    e: Elections,
    w: u64,
)
    requires
        e.wf(),
        c.round_closed(next, ledger, next_ledger, e, e.vote_round_count),
        c.wf(),
        e.voter_members@.len() > c.max_validators,
        !backs(flatten(e.voter_members@.take(c.max_validators as int)), w),
        !backs(flatten(c.members@), w),
    ensures
        next.members@.len() == c.max_validators,
        next.validators@ == accounts_of(e.voter_members@.take(c.max_validators as int)),
        forall|i: int, j: int|
            0 <= i < c.max_validators <= j < e.voter_members@.len() ==> #[trigger] e.voter_members@[i].amount
                >= #[trigger] e.voter_members@[j].amount,
        next_ledger.data(w).election == released(
            ledger.data(w).election,
            flatten(e.voter_members@.subrange(c.max_validators as int, e.voter_members@.len() as int)),
            w,
        ),
        next_ledger.data(w).session == ledger.data(w).session,
{
}

} // verus!
