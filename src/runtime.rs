//! The block-by-block driver that ties the ledger, the elections, the
//! council and the sessions together.
use vstd::prelude::*;
use crate::ledger::{Ledger, BalanceLock, locks_spec};
use crate::ranking::Voter;
use crate::elections::{Elections, Error, Referendum, outcome};
use crate::council::{Council, term_end};

verus! {

/// The whole engine, advanced one block at a time: the ledger, the rounds
/// and ranking, the council, and the validator sets of the sessions that
/// consume the council's choice.
pub struct Runtime {
    /// Height of the current block.
    pub block_number: u64,
    pub ledger: Ledger,
    pub elections: Elections,
    pub council: Council,
    /// Validators of the running session.
    pub session_validators: Vec<u64>,
    /// Validators queued for the next session.
    pub queued_validators: Vec<u64>,
}

impl Runtime {
    pub open spec fn wf(&self) -> bool {
        &&& self.elections.wf()
        &&& self.council.wf()
    }

    /// An engine at height 1 with an empty ledger, no round opened, the
    /// given initial validators and no session validators yet.
    pub fn new(
        vote_period: u64,
        minimum_voting_lock: u64,
        start_council: u64,
        council_term: u64,
        min_validators: u32,
        max_validators: u32,
        validators: &Vec<u64>,
    ) -> (r: Runtime)
        requires
            min_validators <= max_validators,
        ensures
            r.wf(),
            r.block_number == 1,
            r.elections.vote_round_count == 0,
            r.elections.start_block_number.is_none(),
            r.elections.candidates@.len() == 0,
            r.elections.voter_members@.len() == 0,
            r.elections.vote_period == vote_period,
            r.elections.minimum_voting_lock == minimum_voting_lock,
            r.council.start_council == start_council,
            r.council.council_term == council_term,
            r.council.min_validators == min_validators,
            r.council.max_validators == max_validators,
            r.council.validators@.to_set() == validators@.to_set(),
            r.council.members@.len() == 0,
            r.session_validators@.len() == 0,
            r.queued_validators@.len() == 0,
    {
        Runtime {
            block_number: 1,
            ledger: Ledger::new(),
            elections: Elections::new(vote_period, minimum_voting_lock),
            council: Council::new(start_council, council_term, min_validators, max_validators, validators),
            session_validators: Vec::new(),
            queued_validators: Vec::new(),
        }
    }

    /// Ends the running session: the queued validators take over and the
    /// council's current set is queued for the next session.
    pub fn rotate_session(&mut self)
        ensures
            final(self).session_validators@ == old(self).queued_validators@,
            final(self).queued_validators@ == old(self).council.validators@,
            final(self).block_number == old(self).block_number,
            final(self).ledger == old(self).ledger,
            final(self).elections == old(self).elections,
            final(self).council == old(self).council,
    {
        let next = self.council.new_session();
        let queued = self.queued_validators.clone();
        assert(queued@ =~= self.queued_validators@);
        self.session_validators = queued;
        self.queued_validators = next;
    }

    /// `next` is this engine after the start-of-block work of height `now`,
    /// the height itself aside. At the end of a term the session rotates and
    /// the next round opens (while the round index can still grow); one
    /// block before the end of the then current term, the round that was
    /// current at the start of the block is closed.
    pub open spec fn initialized(&self, next: Runtime, now: u64) -> bool {
        let round = self.elections.vote_round_count;
        let c = self.council;
        let rotating = now == term_end(c.start_council, c.council_term, round);
        let opening = rotating && round < u32::MAX;
        let current = if opening { (round + 1) as u32 } else { round };
        let end = term_end(c.start_council, c.council_term, current);
        let closing = round > 0 && now == (if end == 0 { 0 } else { end - 1 });
        &&& if rotating {
            &&& next.session_validators@ == self.queued_validators@
            &&& next.queued_validators@ == c.validators@
        } else {
            &&& next.session_validators == self.session_validators
            &&& next.queued_validators == self.queued_validators
        }
        &&& if opening {
            &&& next.elections.vote_round_count == current
            &&& next.elections.start_block_number == Some(now)
            &&& next.elections.end_block_number == Some(
                (if now + self.elections.vote_period > u64::MAX {
                    u64::MAX as int
                } else {
                    now + self.elections.vote_period
                }) as u64,
            )
            &&& next.elections.candidates@.len() == 0
            &&& next.elections.voter_members@.len() == 0
            &&& next.elections.vote_period == self.elections.vote_period
            &&& next.elections.minimum_voting_lock == self.elections.minimum_voting_lock
        } else {
            next.elections == self.elections
        }
        &&& if closing {
            c.round_closed(next.council, self.ledger, next.ledger, next.elections, round)
        } else {
            &&& next.council == c
            &&& next.ledger == self.ledger
        }
    }

    /// `next` is this engine moved to height `now` and through that height's
    /// start-of-block work.
    pub open spec fn block_step(&self, next: Runtime, now: u64) -> bool {
        &&& next.block_number == now
        &&& self.initialized(next, now)
    }

    /// The work done at the start of block `now`, as `initialized` states it.
    pub fn on_initialize(&mut self, now: u64)
        requires
            old(self).wf(),
        ensures
            final(self).wf(),
            final(self).block_number == old(self).block_number,
            old(self).initialized(*final(self), now),
    {
        let round = self.elections.get_round();
        if self.council.should_end_session(round, now) {
            self.rotate_session();
            if round < u32::MAX {
                self.elections.start_proposal(now);
            }
        }
        if round > 0 {
            let block = self.council.end_session_block(self.elections.get_round()).saturating_sub(1);
            if block == now {
                self.council.close_round(&mut self.ledger, &self.elections, round);
            }
        }
    }

    /// Nominates `who` as a candidate at the current height. `sender` is
    /// the account that submits the nomination; it plays no further part.
    pub fn add_candidate(&mut self, sender: u64, who: u64) -> (r: Result<(), Error>)
        requires
            old(self).wf(),
        ensures
            final(self).wf(),
            r == outcome(old(self).elections.candidacy_error(old(self).block_number, who)),
            r is Err ==> final(self).elections == old(self).elections,
            r is Ok ==> final(self).elections.candidates@ == old(self).elections.candidates@.push(who),
            final(self).elections.voter_members == old(self).elections.voter_members,
            final(self).elections.same_round(old(self).elections),
            final(self).block_number == old(self).block_number,
            final(self).ledger == old(self).ledger,
            final(self).council == old(self).council,
    {
        let now = self.block_number;
        self.elections.add_candidate(now, who)
    }

    /// A vote by `sender` of `amount` for `voter` in round `vote_round` at
    /// the current height.
    pub fn vote(&mut self, sender: u64, voter: u64, vote_round: u32, amount: u64) -> (r: Result<(), Error>)
        requires
            old(self).wf(),
        ensures
            final(self).wf(),
            r == outcome(
                old(self).elections.vote_error(&old(self).ledger, old(self).block_number, sender, voter, vote_round, amount),
            ),
            r is Err ==> final(self).elections == old(self).elections && final(self).ledger == old(self).ledger,
            r is Ok ==> old(self).elections.pledged(final(self).elections, sender, voter, amount, old(self).block_number),
            r is Ok ==> final(self).ledger.data(sender) == old(self).ledger.data(sender).with_lock(
                crate::ledger::LockId::Election,
                Some(Elections::lock_after(&old(self).ledger, sender, amount)),
            ),
            r is Ok ==> forall|w: u64| w != sender ==> #[trigger] final(self).ledger.data(w) == old(self).ledger.data(w),
            final(self).block_number == old(self).block_number,
            final(self).council == old(self).council,
    {
        let now = self.block_number;
        self.elections.vote(&mut self.ledger, now, sender, voter, vote_round, amount)
    }

    /// The locks set on `who`: the session lock first, then the election lock.
    pub fn locks(&self, who: u64) -> (r: Vec<BalanceLock>)
        ensures
            r@ == locks_spec(self.ledger.data(who)),
    {
        self.ledger.locks(who)
    }

    /// Height at which the current term ends.
    pub fn end_session_block(&self) -> (r: u64)
        ensures
            r == term_end(self.council.start_council, self.council.council_term, self.elections.vote_round_count),
    {
        self.council.end_session_block(self.elections.get_round())
    }
}

/// Advances `runtime` block by block until its height reaches `block`:
/// for each height from the current one plus one up to `block`, in order,
/// the height is set and that block's start-of-block work runs once.
/// Nothing changes when `block` is not above the current height.
pub fn run_to_block(runtime: &mut Runtime, block: u64)
    requires
        old(runtime).wf(),
    ensures
        final(runtime).wf(),
        block <= old(runtime).block_number ==> *final(runtime) == *old(runtime),
        old(runtime).block_number < block ==> exists|s: Seq<Runtime>|
            {
                &&& s.len() == block - old(runtime).block_number + 1
                &&& s[0] == *old(runtime)
                &&& s.last() == *final(runtime)
                &&& forall|i: int|
                    0 <= i < s.len() - 1 ==> (#[trigger] s[i]).block_step(
                        s[i + 1],
                        (old(runtime).block_number + i + 1) as u64,
                    )
            },
{
    let ghost start = *old(runtime);
    let ghost mut s: Seq<Runtime> = seq![*runtime];
    while runtime.block_number < block
        invariant
            runtime.wf(),
            start.block_number <= runtime.block_number,
            runtime.block_number <= block || runtime.block_number == start.block_number,
            s.len() == runtime.block_number - start.block_number + 1,
            s[0] == start,
            s.last() == *runtime,
            forall|i: int|
                0 <= i < s.len() - 1 ==> (#[trigger] s[i]).block_step(s[i + 1], (start.block_number + i + 1) as u64),
        decreases block - runtime.block_number,
    {
        let ghost before = *runtime;
        runtime.block_number = runtime.block_number + 1;
        let now = runtime.block_number;
        let ghost moved = *runtime;
        runtime.on_initialize(now);
        proof {
            assert(moved.initialized(*runtime, now));
            assert(before.initialized(*runtime, now));
            let t = s.push(*runtime);
            assert forall|i: int| 0 <= i < t.len() - 1 implies (#[trigger] t[i]).block_step(
                t[i + 1],
                (start.block_number + i + 1) as u64,
            ) by {
                if i < s.len() - 1 {
                    assert(t[i] == s[i] && t[i + 1] == s[i + 1]);
                } else {
                    assert(t[i] == before);
                }
            }
            s = t;
        }
    }
}

} // verus!
