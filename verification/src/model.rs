//! The registry as a mathematical state machine: what the registry holds,
//! and what each operation makes of it.

use vstd::prelude::*;
use crate::consensus::score_of;
use crate::consensus::timeline_of;
use crate::event_store::Catalog;
use crate::timeline_index::Buckets;
use crate::types::AccountId;
use crate::types::Error;
use crate::types::EventData;
use crate::types::Timeline;
use crate::types::Vote;
use crate::user_index::ids_of;
use crate::user_index::recorded;
use crate::vote_ledger::has_vote;
use crate::vote_ledger::with_vote;

verus! {

/// The largest number of tags that an event may carry.
pub const MAX_TAGS: usize = 5;

/// Whether a submission has the shape that the registry accepts: a title, a
/// description, at least one evidence source, and one to five tags.
pub open spec fn acceptable(
    title: Seq<char>,
    description: Seq<char>,
    evidence_sources: Seq<Seq<char>>,
    tags: Seq<Seq<char>>,
) -> bool {
    &&& title.len() > 0
    &&& description.len() > 0
    &&& evidence_sources.len() > 0
    &&& 1 <= tags.len() <= MAX_TAGS
}

/// An event as it is at submission: disputed, with score 0 and no votes.
pub open spec fn fresh_event(
    id: u64,
    title: Seq<char>,
    date: u64,
    description: Seq<char>,
    evidence_sources: Seq<Seq<char>>,
    tags: Seq<Seq<char>>,
    submitter: AccountId,
    now: u64,
) -> EventData {
    EventData {
        id,
        title,
        date,
        description,
        evidence_sources,
        tags,
        submitter,
        timeline: Timeline::Disputed,
        consensus_score: 0,
        support_votes: 0,
        challenge_votes: 0,
        created_at: now,
    }
}

/// A vote count with one more vote, which stays at the largest `u32` once
/// it is there.
pub open spec fn one_more(count: u32) -> u32 {
    if count == u32::MAX {
        u32::MAX
    } else {
        (count + 1) as u32
    }
}

/// An event after one more vote was counted: the counter of the vote's
/// kind goes up by one, nothing else changes.
pub open spec fn counted(event: EventData, support: bool) -> EventData {
    if support {
        EventData { support_votes: one_more(event.support_votes), ..event }
    } else {
        EventData { challenge_votes: one_more(event.challenge_votes), ..event }
    }
}

/// An event after one more vote: the vote is counted, and score and
/// category follow from the new counts.
pub open spec fn after_vote(event: EventData, support: bool) -> EventData {
    let tallied = counted(event, support);
    let consensus_score = score_of(tallied.support_votes, tallied.challenge_votes);
    EventData { consensus_score, timeline: timeline_of(consensus_score), ..tallied }
}

/// The ids from 1 up to a count, ascending.
pub open spec fn ids_up_to(count: u64) -> Seq<u64> {
    Seq::new(count as nat, |i: int| (i + 1) as u64)
}

/// All that the registry holds.
pub struct RegistryState {
    pub catalog: Catalog,
    pub votes: Map<u64, Seq<Vote>>,
    pub timelines: Buckets,
    pub users: Map<AccountId, Seq<u64>>,
}

impl RegistryState {
    /// The registry before any submission.
    pub open spec fn init() -> RegistryState {
        RegistryState {
            catalog: Catalog::empty(),
            votes: Map::empty(),
            timelines: Buckets::empty(),
            users: Map::empty(),
        }
    }

    /// The registry after an acceptable submission: the event is stored
    /// under the next id, and that id is appended to the disputed bucket
    /// and to the submitter's list.
    pub open spec fn submit(
        self,
        title: Seq<char>,
        date: u64,
        description: Seq<char>,
        evidence_sources: Seq<Seq<char>>,
        tags: Seq<Seq<char>>,
        submitter: AccountId,
        now: u64,
    ) -> RegistryState {
        let id = self.catalog.next_id();
        let event = fresh_event(
            id,
            title,
            date,
            description,
            evidence_sources,
            tags,
            submitter,
            now,
        );
        RegistryState {
            catalog: self.catalog.advanced().stored(id, event),
            votes: self.votes,
            timelines: self.timelines.appended(Timeline::Disputed, id),
            users: recorded(self.users, submitter, id),
        }
    }

    /// Why a vote is refused, if it is: the event was never submitted, or
    /// the voter has a vote on it already.
    pub open spec fn vote_refusal(self, event_id: u64, voter: AccountId) -> Option<Error> {
        if !self.catalog.events.contains_key(event_id) {
            Some(Error::EventNotFound)
        } else if has_vote(self.votes, event_id, voter) {
            Some(Error::AlreadyVoted)
        } else {
            None
        }
    }

    /// The registry after a vote that is not refused: the vote is recorded,
    /// the event counts it and is rescored, and its id moves to the bucket
    /// of its new category where that differs from the old one.
    pub open spec fn vote(self, event_id: u64, voter: AccountId, support: bool, now: u64) -> RegistryState {
        let before = self.catalog.events[event_id];
        let after = after_vote(before, support);
        RegistryState {
            catalog: self.catalog.stored(event_id, after),
            votes: with_vote(self.votes, Vote { voter, event_id, support, timestamp: now }),
            timelines: self.timelines.moved(before.timeline, after.timeline, before.id),
            users: self.users,
        }
    }

    /// The events of the bucket of a category, in the order of the bucket.
    pub open spec fn events_in(self, timeline: Timeline) -> Seq<EventData> {
        self.catalog.resolve(self.timelines.of(timeline))
    }

    /// The events that a user submitted, in submission order.
    pub open spec fn events_of(self, user: AccountId) -> Seq<EventData> {
        self.catalog.resolve(ids_of(self.users, user))
    }

    /// Among the events with the first ids up to a count, those that carry
    /// a tag, by ascending id.
    pub open spec fn tagged_among(self, tag: Seq<char>, count: u64) -> Seq<EventData> {
        self.catalog.resolve(ids_up_to(count)).filter(|event: EventData| event.tags.contains(tag))
    }

    /// The events that carry a tag, each once, by ascending id.
    pub open spec fn tagged(self, tag: Seq<char>) -> Seq<EventData> {
        self.tagged_among(tag, self.catalog.event_count)
    }
}

/// Looking at one more id adds its event to the tagged ones exactly if
/// there is such an event and it carries the tag.
pub proof fn lemma_tagged_next(state: RegistryState, tag: Seq<char>, count: u64)
    requires
        count < u64::MAX,
    ensures
        ({
            let id = (count + 1) as u64;
            let events = state.catalog.events;
            state.tagged_among(tag, id) == if events.contains_key(id) && events[id].tags.contains(
                tag,
            ) {
                state.tagged_among(tag, count).push(events[id])
            } else {
                state.tagged_among(tag, count)
            }
        }),
{
    reveal(Seq::filter);
    let id = (count + 1) as u64;
    let ids = ids_up_to(id);
    let carries = |event: EventData| event.tags.contains(tag);
    assert(ids.take(count as int) =~= ids_up_to(count));
    assert(ids.take(count + 1) =~= ids);
    assert(ids[count as int] == id);
    crate::event_store::lemma_resolve_next(state.catalog, ids, count as int);
    let earlier = state.catalog.resolve(ids_up_to(count));
    if state.catalog.events.contains_key(id) {
        let event = state.catalog.events[id];
        assert(state.catalog.resolve(ids) == earlier.push(event));
        assert(earlier.push(event).drop_last() =~= earlier);
        assert(earlier.push(event).last() == event);
    }
}

/// Among no events none carries a tag.
pub proof fn lemma_tagged_among_none(state: RegistryState, tag: Seq<char>)
    ensures
        state.tagged_among(tag, 0) == Seq::<EventData>::empty(),
{
    reveal(Seq::filter);
    assert(ids_up_to(0) =~= Seq::<u64>::empty());
    crate::event_store::lemma_resolve_nothing(state.catalog);
    let carries = |event: EventData| event.tags.contains(tag);
    assert(Seq::<EventData>::empty().filter(carries).len() == 0);
    assert(state.tagged_among(tag, 0) =~= Seq::<EventData>::empty());
}

} // verus!
