//! The registry itself: one explicit state object through which every
//! submission, vote and query passes. The identity of the caller and the
//! current time are arguments of each call; the registry keeps no clock and
//! derives no identity by itself.

use vstd::prelude::*;
use crate::consensus::calculate_consensus_score;
use crate::event_store::EventStore;
use crate::invariants::lemma_init_wf;
use crate::invariants::lemma_submit_keeps_wf;
use crate::invariants::lemma_vote_keeps_wf;
use crate::model::acceptable;
use crate::model::counted;
use crate::model::fresh_event;
use crate::model::lemma_tagged_among_none;
use crate::model::lemma_tagged_next;
use crate::model::RegistryState;
use crate::model::MAX_TAGS;
use crate::timeline_index::TimelineIndex;
use crate::types::texts;
use crate::types::views;
use crate::types::AccountId;
use crate::types::Error;
use crate::types::EventData;
use crate::types::HistoricalEvent;
use crate::types::Timeline;
use crate::types::Vote;
use crate::user_index::UserIndex;
use crate::vote_ledger::has_vote;
use crate::vote_ledger::VoteLedger;

verus! {

/// Whether an event carries a tag, by exact comparison.
pub fn has_tag(event: &HistoricalEvent, tag: &String) -> (found: bool)
    ensures
        found == event@.tags.contains(tag@),
{
    let mut i: usize = 0;
    while i < event.tags.len()
        invariant
            i <= event.tags.len(),
            forall|j: int| 0 <= j < i ==> event.tags[j]@ != tag@,
        decreases event.tags.len() - i,
    {
        if event.tags[i] == *tag {
            proof {
                assert(event@.tags[i as int] == tag@);
            }
            return true;
        }
        i += 1;
    }
    false
}

/// Checks the shape of a submission, in this order: title, description,
/// evidence sources, tags.
pub fn validate_submission(
    title: &String,
    description: &String,
    evidence_sources: &Vec<String>,
    tags: &Vec<String>,
) -> (result: Result<(), Error>)
    ensures
        result == if acceptable(title@, description@, texts(evidence_sources@), texts(tags@)) {
            Ok::<(), Error>(())
        } else {
            Err::<(), Error>(Error::InvalidEventData)
        },
{
    if title.as_str().is_empty() {
        return Err(Error::InvalidEventData);
    }
    if description.as_str().is_empty() {
        return Err(Error::InvalidEventData);
    }
    if evidence_sources.len() == 0 {
        return Err(Error::InvalidEventData);
    }
    if tags.len() == 0 {
        return Err(Error::InvalidEventData);
    }
    if tags.len() > MAX_TAGS {
        return Err(Error::InvalidEventData);
    }
    Ok(())
}

/// Builds an event as it is at submission: disputed, with score 0 and no
/// votes.
pub fn new_event(
    id: u64,
    title: String,
    date: u64,
    description: String,
    evidence_sources: Vec<String>,
    tags: Vec<String>,
    submitter: AccountId,
    now: u64,
) -> (event: HistoricalEvent)
    ensures
        event@ == fresh_event(
            id,
            title@,
            date,
            description@,
            texts(evidence_sources@),
            texts(tags@),
            submitter,
            now,
        ),
{
    HistoricalEvent {
        id,
        title,
        date,
        description,
        evidence_sources,
        tags,
        submitter,
        timeline: Timeline::Disputed,
        consensus_score: 0,
        support_votes: 0,
        challenge_votes: 0,
        created_at: now,
    }
}

/// Counts one more vote on an event: a supporting or a challenging one.
/// A counter that has reached the largest `u32` stays there.
pub fn count_vote(event: &mut HistoricalEvent, support: bool)
    ensures
        final(event)@ == counted(old(event)@, support),
{
    if support {
        event.support_votes = event.support_votes.saturating_add(1);
    } else {
        event.challenge_votes = event.challenge_votes.saturating_add(1);
    }
}

/// The registry of events, votes and indexes.
pub struct HistoryProtocol {
    events: EventStore,
    votes: VoteLedger,
    timeline_events: TimelineIndex,
    user_events: UserIndex,
}

impl View for HistoryProtocol {
    type V = RegistryState;

    closed spec fn view(&self) -> RegistryState {
        RegistryState {
            catalog: self.events@,
            votes: self.votes@,
            timelines: self.timeline_events@,
            users: self.user_events@,
        }
    }
}

impl HistoryProtocol {
    /// A registry without events or votes.
    pub fn new() -> (registry: Self)
        ensures
            registry@ == RegistryState::init(),
            registry@.wf(),
    {
        proof {
            lemma_init_wf();
        }
        HistoryProtocol {
            events: EventStore::new(),
            votes: VoteLedger::new(),
            timeline_events: TimelineIndex::new(),
            user_events: UserIndex::new(),
        }
    }

    /// The number of events submitted so far, which is also the id of the
    /// latest one.
    pub fn event_count(&self) -> (count: u64)
        ensures
            count == self@.catalog.event_count,
    {
        self.events.event_count()
    }

    /// Submits an event in the name of `caller` at time `now`.
    ///
    /// A submission without title, description or evidence source, or with
    /// no tag or more than five, is refused and changes nothing. Any other
    /// is stored under the next id, which is returned.
    pub fn submit_event(
        &mut self,
        title: String,
        date: u64,
        description: String,
        evidence_sources: Vec<String>,
        tags: Vec<String>,
        caller: AccountId,
        now: u64,
    ) -> (result: Result<u64, Error>)
        ensures
            acceptable(title@, description@, texts(evidence_sources@), texts(tags@)) ==> result
                == Ok::<u64, Error>(old(self)@.catalog.next_id()) && final(self)@ == old(
                self,
            )@.submit(
                title@,
                date,
                description@,
                texts(evidence_sources@),
                texts(tags@),
                caller,
                now,
            ),
            !acceptable(title@, description@, texts(evidence_sources@), texts(tags@)) ==> result
                == Err::<u64, Error>(Error::InvalidEventData) && final(self)@ == old(self)@,
            old(self)@.wf() && old(self)@.catalog.event_count < u64::MAX ==> final(self)@.wf(),
    {
        proof {
            if old(self)@.wf() && old(self)@.catalog.event_count < u64::MAX && acceptable(
                title@,
                description@,
                texts(evidence_sources@),
                texts(tags@),
            ) {
                lemma_submit_keeps_wf(
                    old(self)@,
                    title@,
                    date,
                    description@,
                    texts(evidence_sources@),
                    texts(tags@),
                    caller,
                    now,
                );
            }
        }
        match validate_submission(&title, &description, &evidence_sources, &tags) {
            Ok(()) => {},
            Err(error) => {
                return Err(error);
            },
        }
        let event_id: u64 = self.events.generate_event_id();
        let event: HistoricalEvent = new_event(
            event_id,
            title,
            date,
            description,
            evidence_sources,
            tags,
            caller,
            now,
        );
        self.events.insert(event_id, event);
        self.timeline_events.append(Timeline::Disputed, event_id);
        self.user_events.record(caller, event_id);
        Ok(event_id)
    }

    /// Whether a voter has a vote on an event; `false` for an event that
    /// was never submitted.
    pub fn has_voted(&self, event_id: u64, voter: AccountId) -> (voted: bool)
        ensures
            voted == has_vote(self@.votes, event_id, voter),
    {
        self.votes.has_voted(event_id, voter)
    }

    /// Casts the vote of `caller` on an event at time `now`: in support of
    /// it, or as a challenge.
    ///
    /// A vote on an event that was never submitted, or a second vote of one
    /// voter on one event, is refused and changes nothing. Any other is
    /// recorded and counted, and the event is rescored and reclassified.
    pub fn vote(&mut self, event_id: u64, support: bool, caller: AccountId, now: u64) -> (result:
        Result<(), Error>)
        ensures
            match old(self)@.vote_refusal(event_id, caller) {
                Some(error) => result == Err::<(), Error>(error) && final(self)@ == old(self)@,
                None => result == Ok::<(), Error>(()) && final(self)@ == old(self)@.vote(
                    event_id,
                    caller,
                    support,
                    now,
                ),
            },
            old(self)@.wf() ==> final(self)@.wf(),
    {
        proof {
            if old(self)@.wf() && old(self)@.vote_refusal(event_id, caller).is_none() {
                lemma_vote_keeps_wf(old(self)@, event_id, caller, support, now);
            }
        }
        let mut event: HistoricalEvent = match self.events.get(event_id) {
            Some(found) => found,
            None => {
                return Err(Error::EventNotFound);
            },
        };
        if self.has_voted(event_id, caller) {
            return Err(Error::AlreadyVoted);
        }
        self.votes.record(Vote { voter: caller, event_id, support, timestamp: now });
        count_vote(&mut event, support);
        calculate_consensus_score(&mut event);
        self.timeline_events.check_timeline_movement(&mut event);
        self.events.insert(event_id, event);
        Ok(())
    }

    /// A copy of the event of an id, if one was submitted under it.
    pub fn get_event(&self, event_id: u64) -> (found: Option<HistoricalEvent>)
        ensures
            match found {
                Some(event) => self@.catalog.get(event_id) == Some(event@),
                None => self@.catalog.get(event_id).is_none(),
            },
    {
        self.events.get(event_id)
    }

    /// Copies of the events of a timeline category, in the order in which
    /// they entered it.
    pub fn get_events_by_timeline(&self, timeline: Timeline) -> (events: Vec<HistoricalEvent>)
        ensures
            views(events@) == self@.events_in(timeline),
    {
        self.events.resolve(self.timeline_events.ids(timeline))
    }

    /// Copies of the events that a user submitted, in submission order;
    /// none for a user who submitted nothing.
    pub fn get_user_events(&self, user: AccountId) -> (events: Vec<HistoricalEvent>)
        ensures
            views(events@) == self@.events_of(user),
    {
        let ids: Vec<u64> = self.user_events.events_of(user);
        self.events.resolve(&ids)
    }

    /// Copies of the events that carry a tag, by ascending id. The tag is
    /// compared exactly, and an event that carries it more than once is
    /// given once. Every event is looked at: there is no index by tag.
    pub fn get_events_by_tag(&self, tag: String) -> (events: Vec<HistoricalEvent>)
        ensures
            views(events@) == self@.tagged(tag@),
    {
        let count: u64 = self.events.event_count();
        let mut matching: Vec<HistoricalEvent> = Vec::new();
        let mut seen: u64 = 0;
        proof {
            lemma_tagged_among_none(self@, tag@);
            assert(views(matching@) =~= Seq::<EventData>::empty());
        }
        while seen < count
            invariant
                seen <= count,
                count == self@.catalog.event_count,
                views(matching@) == self@.tagged_among(tag@, seen),
            decreases count - seen,
        {
            proof {
                lemma_tagged_next(self@, tag@, seen);
            }
            seen += 1;
            let ghost before = matching@;
            match self.events.get(seen) {
                Some(event) => {
                    if has_tag(&event, &tag) {
                        matching.push(event);
                        proof {
                            assert(views(matching@) =~= views(before).push(event@));
                        }
                    }
                },
                None => {},
            }
        }
        matching
    }
}

} // verus!
