//! The vote ledger: the votes cast on each event, in the order in which they
//! were cast. It is the sole gate against a second vote of one voter on one
//! event; votes are never changed or taken out.

use std::collections::HashMap;
use vstd::prelude::*;
use crate::types::AccountId;
use crate::types::Vote;

verus! {

broadcast use vstd::std_specs::hash::group_hash_axioms;

/// The votes recorded on an event: none for an event that the ledger does
/// not know.
pub open spec fn votes_on(ledger: Map<u64, Seq<Vote>>, event_id: u64) -> Seq<Vote> {
    if ledger.contains_key(event_id) {
        ledger[event_id]
    } else {
        Seq::empty()
    }
}

/// Whether some vote in a list is by a voter.
pub open spec fn cast_by(votes: Seq<Vote>, voter: AccountId) -> bool {
    exists|i: int| 0 <= i < votes.len() && votes[i].voter == voter
}

/// Whether the ledger holds a vote of a voter on an event.
pub open spec fn has_vote(ledger: Map<u64, Seq<Vote>>, event_id: u64, voter: AccountId) -> bool {
    cast_by(votes_on(ledger, event_id), voter)
}

/// The ledger after one more vote was recorded, after the earlier votes on
/// the same event.
pub open spec fn with_vote(ledger: Map<u64, Seq<Vote>>, vote: Vote) -> Map<u64, Seq<Vote>> {
    ledger.insert(vote.event_id, votes_on(ledger, vote.event_id).push(vote))
}

/// The number of supporting votes in a list.
pub open spec fn support_count(votes: Seq<Vote>) -> nat {
    votes.filter(|vote: Vote| vote.support).len()
}

/// The number of challenging votes in a list.
pub open spec fn challenge_count(votes: Seq<Vote>) -> nat {
    votes.filter(|vote: Vote| !vote.support).len()
}

/// A list without votes counts none of either kind.
pub proof fn lemma_count_none()
    ensures
        support_count(Seq::empty()) == 0,
        challenge_count(Seq::empty()) == 0,
{
    reveal(Seq::filter);
}

/// One more vote raises the count of its own kind by one and leaves the
/// other count as it was.
pub proof fn lemma_count_next(votes: Seq<Vote>, vote: Vote)
    ensures
        support_count(votes.push(vote)) == support_count(votes) + if vote.support {
            1nat
        } else {
            0nat
        },
        challenge_count(votes.push(vote)) == challenge_count(votes) + if vote.support {
            0nat
        } else {
            1nat
        },
{
    reveal(Seq::filter);
    assert(votes.push(vote).drop_last() =~= votes);
    assert(votes.push(vote).last() == vote);
}

/// Every vote of a list is counted once: as supporting or as challenging.
pub proof fn lemma_counts_add_up(votes: Seq<Vote>)
    ensures
        support_count(votes) + challenge_count(votes) == votes.len(),
    decreases votes.len(),
{
    if votes.len() == 0 {
        assert(votes =~= Seq::<Vote>::empty());
        lemma_count_none();
    } else {
        lemma_counts_add_up(votes.drop_last());
        lemma_count_next(votes.drop_last(), votes.last());
        assert(votes.drop_last().push(votes.last()) =~= votes);
    }
}

/// The record of all votes, by event.
pub struct VoteLedger {
    ballots: HashMap<u64, Vec<Vote>>,
}

impl View for VoteLedger {
    type V = Map<u64, Seq<Vote>>;

    closed spec fn view(&self) -> Map<u64, Seq<Vote>> {
        Map::new(
            |event_id: u64| self.ballots@.contains_key(event_id),
            |event_id: u64| self.ballots@[event_id]@,
        )
    }
}

impl VoteLedger {
    /// A ledger without votes.
    pub fn new() -> (ledger: Self)
        ensures
            ledger@ == Map::<u64, Seq<Vote>>::empty(),
    {
        let ledger = VoteLedger { ballots: HashMap::new() };
        proof {
            assert(ledger@ =~= Map::<u64, Seq<Vote>>::empty());
        }
        ledger
    }

    /// Whether a voter has a vote on an event. An event without votes, or
    /// one that was never submitted, gives `false`.
    pub fn has_voted(&self, event_id: u64, voter: AccountId) -> (voted: bool)
        ensures
            voted == has_vote(self@, event_id, voter),
    {
        match self.ballots.get(&event_id) {
            Some(votes) => {
                let mut i: usize = 0;
                while i < votes.len()
                    invariant
                        i <= votes.len(),
                        votes@ == votes_on(self@, event_id),
                        forall|j: int| 0 <= j < i ==> votes[j].voter != voter,
                    decreases votes.len() - i,
                {
                    if votes[i].voter == voter {
                        proof {
                            assert(votes@[i as int].voter == voter);
                        }
                        return true;
                    }
                    i += 1;
                }
                false
            },
            None => false,
        }
    }

    /// Records a vote after the earlier votes on its event.
    pub fn record(&mut self, vote: Vote)
        ensures
            final(self)@ == with_vote(old(self)@, vote),
    {
        let mut votes: Vec<Vote> = match self.ballots.remove(&vote.event_id) {
            Some(earlier) => earlier,
            None => Vec::new(),
        };
        votes.push(vote);
        self.ballots.insert(vote.event_id, votes);
        proof {
            assert(self@ =~= with_vote(old(self)@, vote));
        }
    }
}

} // verus!
