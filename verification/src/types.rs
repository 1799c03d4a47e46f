//! Shared data types: identities, categories, votes and errors.

use vstd::prelude::*;

verus! {

/// An opaque 32-byte identity token of a submitter or voter.
#[derive(Clone, Copy, Debug, Eq, Hash)]
pub struct AccountId {
    pub bytes: [u8; 32],
}

impl PartialEq for AccountId {
    fn eq(&self, other: &Self) -> (r: bool) {
        let mut i: usize = 0;
        while i < 32
            invariant
                i <= 32,
                forall|j: int| 0 <= j < i ==> self.bytes[j] == other.bytes[j],
            decreases 32 - i,
        {
            if self.bytes[i] != other.bytes[i] {
                return false;
            }
            i += 1;
        }
        proof {
            assert(self.bytes =~= other.bytes);
        }
        true
    }
}

impl vstd::std_specs::cmp::PartialEqSpecImpl for AccountId {
    open spec fn obeys_eq_spec() -> bool {
        true
    }

    open spec fn eq_spec(&self, other: &Self) -> bool {
        *self == *other
    }
}

/// The timeline categories an event can be classified into.
#[derive(Clone, Copy, Debug, PartialEq, Eq, Structural)]
pub enum Timeline {
    Canonical,
    Disputed,
    Alternative,
}

/// A single voter's support or challenge decision on one event.
#[derive(Clone, Copy, Debug, PartialEq, Eq)]
pub struct Vote {
    pub voter: AccountId,
    pub event_id: u64,
    pub support: bool,
    pub timestamp: u64,
}

/// The caller-correctable failures of the registry.
#[derive(Clone, Copy, Debug, PartialEq, Eq, Structural)]
pub enum Error {
    EventNotFound,
    AlreadyVoted,
    InvalidEventData,
}

/// The text of every string of a list, in order.
pub open spec fn texts(list: Seq<String>) -> Seq<Seq<char>> {
    list.map_values(|s: String| s@)
}

/// A submitted historical claim with its evidence, tags and accumulated votes.
#[derive(Debug)]
pub struct HistoricalEvent {
    pub id: u64,
    pub title: String,
    pub date: u64,
    pub description: String,
    pub evidence_sources: Vec<String>,
    pub tags: Vec<String>,
    pub submitter: AccountId,
    pub timeline: Timeline,
    pub consensus_score: u8,
    pub support_votes: u32,
    pub challenge_votes: u32,
    pub created_at: u64,
}

/// What an event holds, as mathematical values.
pub struct EventData {
    pub id: u64,
    pub title: Seq<char>,
    pub date: u64,
    pub description: Seq<char>,
    pub evidence_sources: Seq<Seq<char>>,
    pub tags: Seq<Seq<char>>,
    pub submitter: AccountId,
    pub timeline: Timeline,
    pub consensus_score: u8,
    pub support_votes: u32,
    pub challenge_votes: u32,
    pub created_at: u64,
}

impl View for HistoricalEvent {
    type V = EventData;

    open spec fn view(&self) -> EventData {
        EventData {
            id: self.id,
            title: self.title@,
            date: self.date,
            description: self.description@,
            evidence_sources: texts(self.evidence_sources@),
            tags: texts(self.tags@),
            submitter: self.submitter,
            timeline: self.timeline,
            consensus_score: self.consensus_score,
            support_votes: self.support_votes,
            challenge_votes: self.challenge_votes,
            created_at: self.created_at,
        }
    }
}

/// What each event of a list holds, in order.
pub open spec fn views(events: Seq<HistoricalEvent>) -> Seq<EventData> {
    events.map_values(|event: HistoricalEvent| event@)
}

/// Copies a list of strings, string by string.
pub fn clone_strings(list: &Vec<String>) -> (copy: Vec<String>)
    ensures
        copy@ == list@,
{
    let mut copy: Vec<String> = Vec::new();
    let mut i: usize = 0;
    while i < list.len()
        invariant
            i <= list.len(),
            copy@ == list@.take(i as int),
        decreases list.len() - i,
    {
        copy.push(list[i].clone());
        proof {
            assert(list@.take(i + 1) =~= list@.take(i as int).push(list@[i as int]));
        }
        i += 1;
    }
    proof {
        assert(list@.take(list.len() as int) =~= list@);
    }
    copy
}

impl Clone for HistoricalEvent {
    fn clone(&self) -> (copy: Self)
        ensures
            copy@ == self@,
    {
        HistoricalEvent {
            id: self.id,
            title: self.title.clone(),
            date: self.date,
            description: self.description.clone(),
            evidence_sources: clone_strings(&self.evidence_sources),
            tags: clone_strings(&self.tags),
            submitter: self.submitter,
            timeline: self.timeline,
            consensus_score: self.consensus_score,
            support_votes: self.support_votes,
            challenge_votes: self.challenge_votes,
            created_at: self.created_at,
        }
    }
}

} // verus!
