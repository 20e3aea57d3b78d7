//! Rounds, candidacy, and votes that pledge locked balance.
use vstd::prelude::*;
use crate::ledger::{Ledger, LockId};
use crate::ranking::{
    Pledger, Voter, ranking_wf, is_ranked, is_insert_pos, pledges_after, find_voter, insert_ranked,
    repledge, copy_voters, same_voters, sum_pledges,
};

verus! {

/// Why a candidacy or a vote was refused.
#[derive(Clone, Copy, Debug, PartialEq, Eq, Structural)]
pub enum Error {
    /// No round has been opened yet.
    NoProposalStarted,
    /// The current round's voting window has closed.
    ProposalOver,
    /// A vote of nothing.
    AmountZero,
    /// A vote below the minimum voting lock.
    AmountTooLow,
    /// The supporter's balance outside its election lock is below the vote.
    InsufficientBalance,
    /// The account already has a ranked entry.
    AlreadyIsVoter,
    /// The account is already a candidate.
    AlreadyIsCandidate,
    /// The account is neither a candidate nor ranked.
    NotCandidate,
    /// An amount would not fit in a `u64`.
    Overflow,
    /// The vote names a round other than the current one.
    NotCurrentVoteRound,
    /// The account to promote is not a candidate.
    InvalidCandidate,
}

/// Rounds, candidates and the ranking of pledged candidates.
pub struct Elections {
    /// Accounts nominated in the current round that hold no pledge yet.
    pub candidates: Vec<u64>,
    /// Ranked entries, by non-increasing total.
    pub voter_members: Vec<Voter>,
    /// Index of the current round; 0 before the first one opens.
    pub vote_round_count: u32,
    pub start_block_number: Option<u64>,
    pub end_block_number: Option<u64>,
    /// Length of a round's voting window in blocks.
    pub vote_period: u64,
    /// The smallest amount a single vote may pledge.
    pub minimum_voting_lock: u64,
}

/// No account is listed twice.
pub open spec fn unique_accounts(s: Seq<u64>) -> bool {
    forall|i: int, j: int| 0 <= i < j < s.len() ==> #[trigger] s[i] != #[trigger] s[j]
}

/// The result of an operation refused with `e`, if any.
pub open spec fn outcome(e: Option<Error>) -> Result<(), Error> {
    match e {
        Some(e) => Err(e),
        None => Ok(()),
    }
}

impl Elections {
    /// The candidate list and the ranking are consistent: no duplicates, no
    /// account in both, and a round is either open with both bounds or not
    /// opened at all.
    pub open spec fn wf(&self) -> bool {
        &&& ranking_wf(self.voter_members@)
        &&& unique_accounts(self.candidates@)
        &&& forall|i: int|
            0 <= i < self.candidates@.len() ==> !is_ranked(self.voter_members@, #[trigger] self.candidates@[i])
        &&& self.start_block_number.is_some() == self.end_block_number.is_some()
    }

    /// The refusal, if any, of an operation at height `now`.
    pub open spec fn phase_error(&self, now: u64) -> Option<Error> {
        if self.start_block_number.is_none() {
            Some(Error::NoProposalStarted)
        } else if now > self.end_block_number.unwrap() {
            Some(Error::ProposalOver)
        } else {
            None
        }
    }

    /// The refusal, if any, of adding `who` to the candidate list.
    pub open spec fn registry_error(&self, who: u64) -> Option<Error> {
        if is_ranked(self.voter_members@, who) {
            Some(Error::AlreadyIsVoter)
        } else if self.candidates@.contains(who) {
            Some(Error::AlreadyIsCandidate)
        } else {
            None
        }
    }

    /// The refusal, if any, of nominating `who` at height `now`.
    pub open spec fn candidacy_error(&self, now: u64, who: u64) -> Option<Error> {
        if self.phase_error(now).is_some() {
            self.phase_error(now)
        } else {
            self.registry_error(who)
        }
    }

    /// The refusal, if any, of a vote of `amount` by `sender` for `voter`
    /// in round `round` at height `now`.
    pub open spec fn vote_error(
        &self,
        ledger: &Ledger,
        now: u64,
        sender: u64,
        voter: u64,
        round: u32,
        amount: u64,
    ) -> Option<Error> {
        if self.phase_error(now).is_some() {
            self.phase_error(now)
        } else if round != self.vote_round_count {
            Some(Error::NotCurrentVoteRound)
        } else if !is_ranked(self.voter_members@, voter) && !self.candidates@.contains(voter) {
            Some(Error::NotCandidate)
        } else if amount == 0 {
            Some(Error::AmountZero)
        } else if amount < self.minimum_voting_lock {
            Some(Error::AmountTooLow)
        } else {
            self.funds_error(ledger, sender, voter, amount)
        }
    }

    /// The refusal, if any, of an admissible vote for lack of funds or on
    /// overflow: the supporter's balance outside its election lock must
    /// cover the vote, and the candidate's new total must fit.
    pub open spec fn funds_error(&self, ledger: &Ledger, sender: u64, voter: u64, amount: u64) -> Option<Error> {
        if ledger.data(sender).total - Self::election_held(ledger, sender) < amount {
            Some(Error::InsufficientBalance)
        } else if exists|k: int|
            0 <= k < self.voter_members@.len() && #[trigger] self.voter_members@[k].account == voter
                && self.voter_members@[k].amount + amount > u64::MAX {
            Some(Error::Overflow)
        } else {
            None
        }
    }

    /// A state in which no round has opened yet.
    pub fn new(vote_period: u64, minimum_voting_lock: u64) -> (r: Elections)
        ensures
            r.wf(),
            r.candidates@.len() == 0,
            r.voter_members@.len() == 0,
            r.vote_round_count == 0,
            r.start_block_number.is_none(),
            r.end_block_number.is_none(),
            r.vote_period == vote_period,
            r.minimum_voting_lock == minimum_voting_lock,
    {
        Elections {
            candidates: Vec::new(),
            voter_members: Vec::new(),
            vote_round_count: 0,
            start_block_number: None,
            end_block_number: None,
            vote_period,
            minimum_voting_lock,
        }
    }

    /// Whether operations are open at height `now`.
    pub fn is_proposal(&self, now: u64) -> (r: Result<(), Error>)
        requires
            self.wf(),
        ensures
            r == outcome(self.phase_error(now)),
    {
        match self.end_block_number {
            None => Err(Error::NoProposalStarted),
            Some(end) => {
                if now <= end {
                    Ok(())
                } else {
                    Err(Error::ProposalOver)
                }
            },
        }
    }

    fn contains_candidate(&self, who: u64) -> (r: Option<usize>)
        ensures
            match r {
                Some(i) => i < self.candidates@.len() && self.candidates@[i as int] == who,
                None => !self.candidates@.contains(who),
            },
    {
        let mut i: usize = 0;
        while i < self.candidates.len()
            invariant
                i <= self.candidates@.len(),
                forall|j: int| 0 <= j < i ==> #[trigger] self.candidates@[j] != who,
            decreases self.candidates@.len() - i,
        {
            if self.candidates[i] == who {
                return Some(i);
            }
            i += 1;
        }
        None
    }

    /// Nominates `who`, refused when it is ranked or already a candidate.
    pub fn set_candidate(&mut self, who: u64) -> (r: Result<(), Error>)
        requires
            old(self).wf(),
        ensures
            final(self).wf(),
            r == outcome(old(self).registry_error(who)),
            r is Err ==> *final(self) == *old(self),
            r is Ok ==> final(self).candidates@ == old(self).candidates@.push(who),
            final(self).voter_members == old(self).voter_members,
            final(self).vote_round_count == old(self).vote_round_count,
            final(self).start_block_number == old(self).start_block_number,
            final(self).end_block_number == old(self).end_block_number,
            final(self).vote_period == old(self).vote_period,
            final(self).minimum_voting_lock == old(self).minimum_voting_lock,
    {
        if find_voter(&self.voter_members, who).is_some() {
            return Err(Error::AlreadyIsVoter);
        }
        if self.contains_candidate(who).is_some() {
            return Err(Error::AlreadyIsCandidate);
        }
        self.candidates.push(who);
        Ok(())
    }

    /// The settings and the round are those of `other`.
    pub open spec fn same_round(&self, other: Elections) -> bool {
        &&& self.vote_round_count == other.vote_round_count
        &&& self.start_block_number == other.start_block_number
        &&& self.end_block_number == other.end_block_number
        &&& self.vote_period == other.vote_period
        &&& self.minimum_voting_lock == other.minimum_voting_lock
    }

    /// `next` is this state after `sender` pledged `amount` to `voter` at
    /// height `now`. A ranked candidate's entry grows and moves to its new
    /// place; a candidate leaves the list and enters the ranking with one
    /// pledge.
    pub open spec fn pledged(&self, next: Elections, sender: u64, voter: u64, amount: u64, now: u64) -> bool {
        &&& next.same_round(*self)
        &&& if is_ranked(self.voter_members@, voter) {
            &&& next.candidates@ == self.candidates@
            &&& exists|k: int|
                0 <= k < self.voter_members@.len() && #[trigger] self.voter_members@[k].account == voter
                    && exists|v: Voter, p: int|
                {
                    &&& v.account == voter
                    &&& v.round == self.voter_members@[k].round
                    &&& v.amount == self.voter_members@[k].amount + amount
                    &&& pledges_after(self.voter_members@[k].pledger@, sender, amount, now, v.pledger@)
                    &&& is_insert_pos(self.voter_members@.remove(k), v.amount, p)
                    &&& next.voter_members@ == self.voter_members@.remove(k).insert(p, v)
                }
        } else {
            &&& exists|i: int|
                0 <= i < self.candidates@.len() && #[trigger] self.candidates@[i] == voter
                    && next.candidates@ == self.candidates@.remove(i)
            &&& exists|v: Voter, p: int|
                {
                    &&& v.account == voter
                    &&& v.round == self.vote_round_count
                    &&& v.amount == amount
                    &&& v.pledger@ == seq![Pledger { account: sender, block_number: now, amount }]
                    &&& is_insert_pos(self.voter_members@, amount, p)
                    &&& next.voter_members@ == self.voter_members@.insert(p, v)
                }
        }
    }

    /// Nominates `who` at height `now`.
    pub fn add_candidate(&mut self, now: u64, who: u64) -> (r: Result<(), Error>)
        requires
            old(self).wf(),
        ensures
            final(self).wf(),
            r == outcome(old(self).candidacy_error(now, who)),
            r is Err ==> *final(self) == *old(self),
            r is Ok ==> final(self).candidates@ == old(self).candidates@.push(who),
            final(self).voter_members == old(self).voter_members,
            final(self).same_round(*old(self)),
    {
        self.is_proposal(now)?;
        self.set_candidate(who)
    }

    /// Promotes the candidate `voter` into the ranking with one pledge.
    fn insert_vote(&mut self, sender: u64, voter: u64, amount: u64, now: u64) -> (r: Result<(), Error>)
        requires
            old(self).wf(),
            !is_ranked(old(self).voter_members@, voter),
        ensures
            final(self).wf(),
            r is Err <==> !old(self).candidates@.contains(voter),
            r is Err ==> r == Err::<(), Error>(Error::InvalidCandidate) && *final(self) == *old(self),
            r is Ok ==> old(self).pledged(*final(self), sender, voter, amount, now),
    {
        let i = match self.contains_candidate(voter) {
            Some(i) => i,
            None => {
                return Err(Error::InvalidCandidate);
            },
        };
        let ghost old_c = self.candidates@;
        self.candidates.remove(i);
        assert forall|a: int, b: int| 0 <= a < b < self.candidates@.len() implies
            #[trigger] self.candidates@[a] != #[trigger] self.candidates@[b] by {
            let sa = if a < i { a } else { a + 1 };
            let sb = if b < i { b } else { b + 1 };
            assert(self.candidates@[a] == old_c[sa] && self.candidates@[b] == old_c[sb]);
        }
        assert forall|a: int| 0 <= a < self.candidates@.len() implies !is_ranked(
            self.voter_members@,
            #[trigger] self.candidates@[a],
        ) by {
            let sa = if a < i { a } else { a + 1 };
            assert(self.candidates@[a] == old_c[sa]);
        }
        let mut pledger: Vec<Pledger> = Vec::new();
        pledger.push(Pledger { account: sender, block_number: now, amount });
        let v = Voter { round: self.vote_round_count, account: voter, amount, pledger };
        proof {
            crate::ranking::lemma_sum_push(Seq::empty(), v.pledger@[0]);
            assert(Seq::<Pledger>::empty().push(v.pledger@[0]) =~= v.pledger@);
        }
        assert(v.pledger@ =~= seq![Pledger { account: sender, block_number: now, amount }]);
        let ghost old_m = self.voter_members@;
        insert_ranked(&mut self.voter_members, v);
        assert forall|a: int| 0 <= a < self.candidates@.len() implies !is_ranked(
            self.voter_members@,
            #[trigger] self.candidates@[a],
        ) by {
            let c = self.candidates@[a];
            let sa = if a < i { a } else { a + 1 };
            assert(c == old_c[sa]);
            assert(c != voter);
            if is_ranked(self.voter_members@, c) {
                let j = choose|j: int| 0 <= j < self.voter_members@.len() && #[trigger] self.voter_members@[j].account == c;
                let p = choose|p: int| is_insert_pos(old_m, v.amount, p) && self.voter_members@ == old_m.insert(p, v);
                if j < p {
                    assert(old_m[j].account == c);
                } else if j > p {
                    assert(old_m[j - 1].account == c);
                }
            }
        }
        Ok(())
    }

    /// Adds `amount` to the election lock of `who`, setting the lock when
    /// there is none.
    fn lock_currency(ledger: &mut Ledger, who: u64, amount: u64) -> (r: Result<(), Error>)
        ensures
            r is Err <==> (old(ledger).lock_spec(LockId::Election, who) matches Some(l) && l + amount > u64::MAX),
            r is Err ==> r == Err::<(), Error>(Error::Overflow) && *final(ledger) == *old(ledger),
            r is Ok ==> final(ledger).data(who) == old(ledger).data(who).with_lock(
                LockId::Election,
                Some(
                    (match old(ledger).lock_spec(LockId::Election, who) {
                        Some(l) => l + amount,
                        None => amount as int,
                    }) as u64,
                ),
            ),
            r is Ok ==> forall|w: u64| w != who ==> #[trigger] final(ledger).data(w) == old(ledger).data(w),
    {
        match ledger.lock_of(LockId::Election, who) {
            Some(l) => {
                let total = match l.checked_add(amount) {
                    Some(t) => t,
                    None => {
                        return Err(Error::Overflow);
                    },
                };
                ledger.set_lock(LockId::Election, who, total);
            },
            None => ledger.set_lock(LockId::Election, who, amount),
        }
        Ok(())
    }

    /// The amount held on `who` under the election tag, 0 without that lock.
    pub open spec fn election_held(ledger: &Ledger, who: u64) -> int {
        match ledger.lock_spec(LockId::Election, who) {
            Some(l) => l as int,
            None => 0,
        }
    }

    /// The election lock of `who` after a pledge of `amount`.
    pub open spec fn lock_after(ledger: &Ledger, who: u64, amount: u64) -> u64 {
        (match ledger.lock_spec(LockId::Election, who) {
            Some(l) => l + amount,
            None => amount as int,
        }) as u64
    }

    /// Records a pledge that passed the phase and amount checks.
    fn try_vote(&mut self, ledger: &mut Ledger, now: u64, sender: u64, voter: u64, amount: u64) -> (r: Result<(), Error>)
        requires
            old(self).wf(),
            is_ranked(old(self).voter_members@, voter) || old(self).candidates@.contains(voter),
        ensures
            final(self).wf(),
            r == outcome(old(self).funds_error(old(ledger), sender, voter, amount)),
            r is Err ==> *final(self) == *old(self) && *final(ledger) == *old(ledger),
            r is Ok ==> old(self).pledged(*final(self), sender, voter, amount, now),
            r is Ok ==> final(ledger).data(sender) == old(ledger).data(sender).with_lock(
                LockId::Election,
                Some(Self::lock_after(old(ledger), sender, amount)),
            ),
            r is Ok ==> forall|w: u64| w != sender ==> #[trigger] final(ledger).data(w) == old(ledger).data(w),
    {
        let total_balance = ledger.total_balance(sender);
        let held = match ledger.lock_of(LockId::Election, sender) {
            Some(l) => l,
            None => 0,
        };
        if total_balance < held || total_balance - held < amount {
            return Err(Error::InsufficientBalance);
        }
        match find_voter(&self.voter_members, voter) {
            Some(k) => {
                let ghost old_m = self.voter_members@;
                if !repledge(&mut self.voter_members, k, sender, amount, now) {
                    return Err(Error::Overflow);
                }
                assert(old_m[k as int].account == voter);
                assert forall|a: int| 0 <= a < self.candidates@.len() implies !is_ranked(
                    self.voter_members@,
                    #[trigger] self.candidates@[a],
                ) by {
                    let c = self.candidates@[a];
                    assert(!is_ranked(old_m, c));
                    if is_ranked(self.voter_members@, c) {
                        let j = choose|j: int| 0 <= j < self.voter_members@.len() && #[trigger] self.voter_members@[j].account == c;
                        let (v, p) = choose|v: Voter, p: int| {
                            &&& v.account == old_m[k as int].account
                            &&& is_insert_pos(old_m.remove(k as int), v.amount, p)
                            &&& self.voter_members@ == old_m.remove(k as int).insert(p, v)
                            &&& v.round == old_m[k as int].round
                            &&& v.amount == old_m[k as int].amount + amount
                            &&& pledges_after(old_m[k as int].pledger@, sender, amount, now, v.pledger@)
                        };
                        let rm = old_m.remove(k as int);
                        if j < p {
                            assert(rm[j].account == c);
                            let sj = if j < k { j } else { j + 1 };
                            assert(rm[j] == old_m[sj]);
                        } else if j > p {
                            assert(rm[j - 1].account == c);
                            let sj = if j - 1 < k { j - 1 } else { j };
                            assert(rm[j - 1] == old_m[sj]);
                        } else {
                            assert(c == voter);
                            assert(old_m[k as int].account == c);
                        }
                    }
                }
            },
            None => {
                let res = self.insert_vote(sender, voter, amount, now);
                assert(res is Ok);
            },
        }
        let locked = Self::lock_currency(ledger, sender, amount);
        assert(locked is Ok);
        Ok(())
    }

    /// A vote by `sender` of `amount` for `voter` in round `vote_round` at
    /// height `now`: the pledge is recorded and added to the sender's
    /// election lock, or the vote is refused and nothing changes.
    pub fn vote(
        &mut self,
        ledger: &mut Ledger,
        now: u64,
        sender: u64,
        voter: u64,
        vote_round: u32,
        amount: u64,
    ) -> (r: Result<(), Error>)
        requires
            old(self).wf(),
        ensures
            final(self).wf(),
            r == outcome(old(self).vote_error(old(ledger), now, sender, voter, vote_round, amount)),
            r is Err ==> *final(self) == *old(self) && *final(ledger) == *old(ledger),
            r is Ok ==> old(self).pledged(*final(self), sender, voter, amount, now),
            r is Ok ==> final(ledger).data(sender) == old(ledger).data(sender).with_lock(
                LockId::Election,
                Some(Self::lock_after(old(ledger), sender, amount)),
            ),
            r is Ok ==> forall|w: u64| w != sender ==> #[trigger] final(ledger).data(w) == old(ledger).data(w),
    {
        self.is_proposal(now)?;
        if vote_round != self.vote_round_count {
            return Err(Error::NotCurrentVoteRound);
        }
        if find_voter(&self.voter_members, voter).is_none() && self.contains_candidate(voter).is_none() {
            return Err(Error::NotCandidate);
        }
        if amount == 0 {
            return Err(Error::AmountZero);
        }
        if amount < self.minimum_voting_lock {
            return Err(Error::AmountTooLow);
        }
        self.try_vote(ledger, now, sender, voter, amount)
    }

    /// Opens the next round at height `start`: the candidate list and the
    /// ranking are emptied, voting stays open up to `start + vote_period`
    /// (saturating), and the round index grows by one.
    pub fn start_proposal(&mut self, start: u64) -> (r: u32)
        requires
            old(self).wf(),
            old(self).vote_round_count < u32::MAX,
        ensures
            final(self).wf(),
            r == final(self).vote_round_count,
            final(self).vote_round_count == old(self).vote_round_count + 1,
            final(self).candidates@.len() == 0,
            final(self).voter_members@.len() == 0,
            final(self).start_block_number == Some(start),
            final(self).end_block_number == Some(
                (if start + old(self).vote_period > u64::MAX { u64::MAX as int } else { start + old(self).vote_period }) as u64,
            ),
            final(self).vote_period == old(self).vote_period,
            final(self).minimum_voting_lock == old(self).minimum_voting_lock,
    {
        let end_block = start.saturating_add(self.vote_period);
        self.candidates.clear();
        self.voter_members.clear();
        self.start_block_number = Some(start);
        self.end_block_number = Some(end_block);
        self.vote_round_count = self.vote_round_count + 1;
        self.vote_round_count
    }
}

/// What the council needs of an election: opening rounds, the current round
/// index, and the ranking of a round.
pub trait Referendum {
    /// The state is consistent.
    spec fn inv(&self) -> bool;

    /// Index of the current round.
    spec fn round_spec(&self) -> u32;

    /// The ranked entries of the current round.
    spec fn ranking(&self) -> Seq<Voter>;

    /// A consistent state ranks well-formed entries by non-increasing total.
    proof fn lemma_ranking(&self)
        requires
            self.inv(),
        ensures
            ranking_wf(self.ranking()),
    ;

    /// Opens the next round at height `start` with an empty ranking.
    fn proposal(&mut self, start: u64) -> (r: u32)
        requires
            old(self).inv(),
            old(self).round_spec() < u32::MAX,
        ensures
            final(self).inv(),
            r == final(self).round_spec(),
            final(self).round_spec() == old(self).round_spec() + 1,
            final(self).ranking().len() == 0,
    ;

    /// The index of the current round.
    fn get_round(&self) -> (r: u32)
        ensures
            r == self.round_spec(),
    ;

    /// The ranked entries of round `index`, if it is the current one.
    fn get_result(&self, index: u32) -> (r: Option<Vec<Voter>>)
        ensures
            r is Some <==> index == self.round_spec(),
            r matches Some(v) ==> same_voters(v@, self.ranking()),
    ;
}

impl Referendum for Elections {
    open spec fn inv(&self) -> bool {
        self.wf()
    }

    open spec fn round_spec(&self) -> u32 {
        self.vote_round_count
    }

    open spec fn ranking(&self) -> Seq<Voter> {
        self.voter_members@
    }

    proof fn lemma_ranking(&self) {
    }

    fn proposal(&mut self, start: u64) -> (r: u32) {
        self.start_proposal(start)
    }

    fn get_round(&self) -> (r: u32) {
        self.vote_round_count
    }

    fn get_result(&self, index: u32) -> (r: Option<Vec<Voter>>) {
        if self.vote_round_count == index {
            Some(copy_voters(&self.voter_members))
        } else {
            None
        }
    }
}

} // verus!
