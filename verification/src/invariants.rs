//! What holds of the registry after every successful call, and the proofs
//! that the operations keep it so.

use vstd::prelude::*;
use crate::consensus::lemma_score_in_range;
use crate::consensus::score_of;
use crate::consensus::timeline_of;
use crate::model::acceptable;
use crate::model::after_vote;
use crate::model::fresh_event;
use crate::model::RegistryState;
use crate::types::AccountId;
use crate::types::EventData;
use crate::types::Timeline;
use crate::types::Vote;
use crate::user_index::ids_of;
use crate::user_index::recorded;
use crate::vote_ledger::lemma_count_none;
use crate::timeline_index::lemma_without_id;
use crate::timeline_index::without_id;
use crate::vote_ledger::cast_by;
use crate::vote_ledger::challenge_count;
use crate::vote_ledger::lemma_count_next;
use crate::vote_ledger::support_count;
use crate::vote_ledger::votes_on;

verus! {

/// A number of votes as a counter holds it: capped at the largest `u32`.
pub open spec fn capped(count: nat) -> u32 {
    if count > u32::MAX {
        u32::MAX
    } else {
        count as u32
    }
}

/// Whether an event has the shape that submission asks for, and a score in
/// range.
pub open spec fn well_shaped(event: EventData) -> bool {
    &&& acceptable(event.title, event.description, event.evidence_sources, event.tags)
    &&& event.consensus_score <= 100
}

/// Whether score and category of an event follow from its vote counts: an
/// event without votes is disputed with score 0, any other has the score
/// of its counts and the category of its score.
pub open spec fn well_scored(event: EventData) -> bool {
    if event.support_votes == 0 && event.challenge_votes == 0 {
        event.consensus_score == 0 && event.timeline == Timeline::Disputed
    } else {
        event.consensus_score == score_of(event.support_votes, event.challenge_votes)
            && event.timeline == timeline_of(event.consensus_score)
    }
}

impl RegistryState {
    /// The ids of the events are exactly 1 up to the count, and every event
    /// is stored under its own id.
    pub open spec fn ids_dense(self) -> bool {
        &&& forall|id: u64| #[trigger]
            self.catalog.events.contains_key(id) <==> 1 <= id <= self.catalog.event_count
        &&& forall|id: u64| #[trigger]
            self.catalog.events.contains_key(id) ==> self.catalog.events[id].id == id
    }

    /// Every event is well shaped and well scored.
    pub open spec fn events_sound(self) -> bool {
        forall|id: u64| #[trigger]
            self.catalog.events.contains_key(id) ==> well_shaped(self.catalog.events[id])
                && well_scored(self.catalog.events[id])
    }

    /// Votes exist for submitted events only, each under the event that it
    /// names, at most one per voter and event; and every event's counters
    /// hold the numbers of its supporting and challenging votes.
    pub open spec fn votes_counted(self) -> bool {
        &&& forall|id: u64| #[trigger]
            self.votes.contains_key(id) ==> self.catalog.events.contains_key(id)
        &&& forall|id: u64, i: int|
            0 <= i < votes_on(self.votes, id).len() ==> (#[trigger] votes_on(
                self.votes,
                id,
            )[i]).event_id == id
        &&& forall|id: u64, i: int, j: int|
            0 <= i < j < votes_on(self.votes, id).len() ==> (#[trigger] votes_on(
                self.votes,
                id,
            )[i]).voter != (#[trigger] votes_on(self.votes, id)[j]).voter
        &&& forall|id: u64| #[trigger]
            self.catalog.events.contains_key(id) ==> {
                &&& self.catalog.events[id].support_votes == capped(
                    support_count(votes_on(self.votes, id)),
                )
                &&& self.catalog.events[id].challenge_votes == capped(
                    challenge_count(votes_on(self.votes, id)),
                )
            }
    }

    /// Every event's id is in exactly one bucket, once: the bucket of the
    /// event's category.
    pub open spec fn bucketed(self) -> bool {
        &&& forall|timeline: Timeline| #[trigger] self.timelines.of(timeline).no_duplicates()
        &&& forall|timeline: Timeline, i: int|
            0 <= i < self.timelines.of(timeline).len() ==> {
                let id = #[trigger] self.timelines.of(timeline)[i];
                self.catalog.events.contains_key(id) && self.catalog.events[id].timeline
                    == timeline
            }
        &&& forall|id: u64| #[trigger]
            self.catalog.events.contains_key(id) ==> self.timelines.of(
                self.catalog.events[id].timeline,
            ).contains(id)
    }

    /// Every user's list holds exactly the ids of the events that the user
    /// submitted, ascending, which is the order of submission.
    pub open spec fn attributed(self) -> bool {
        &&& forall|user: AccountId, i: int|
            0 <= i < ids_of(self.users, user).len() ==> {
                let id = #[trigger] ids_of(self.users, user)[i];
                self.catalog.events.contains_key(id) && self.catalog.events[id].submitter == user
            }
        &&& forall|user: AccountId, i: int, j: int|
            0 <= i < j < ids_of(self.users, user).len() ==> (#[trigger] ids_of(
                self.users,
                user,
            )[i]) < (#[trigger] ids_of(self.users, user)[j])
        &&& forall|id: u64| #[trigger]
            self.catalog.events.contains_key(id) ==> ids_of(
                self.users,
                self.catalog.events[id].submitter,
            ).contains(id)
    }

    /// All that holds of a registry between calls.
    pub open spec fn wf(self) -> bool {
        &&& self.ids_dense()
        &&& self.events_sound()
        &&& self.votes_counted()
        &&& self.bucketed()
        &&& self.attributed()
    }
}

/// The registry before any submission is well formed.
pub proof fn lemma_init_wf()
    ensures
        RegistryState::init().wf(),
{
    let state = RegistryState::init();
    assert forall|timeline: Timeline| #[trigger] state.timelines.of(timeline).len() == 0 by {}
    assert forall|user: AccountId| #[trigger] ids_of(state.users, user).len() == 0 by {}
    assert forall|id: u64| #[trigger] votes_on(state.votes, id).len() == 0 by {}
}

/// Whether `after` is `before` with one new event: stored under the next
/// id, appended to the disputed bucket and to its submitter's list.
spec fn adds_event(before: RegistryState, after: RegistryState, event: EventData) -> bool {
    let id = before.catalog.next_id();
    &&& before.catalog.event_count < u64::MAX
    &&& event.id == id
    &&& event.timeline == Timeline::Disputed
    &&& event.consensus_score == 0
    &&& event.support_votes == 0
    &&& event.challenge_votes == 0
    &&& after.catalog == before.catalog.advanced().stored(id, event)
    &&& after.votes == before.votes
    &&& after.timelines == before.timelines.appended(Timeline::Disputed, id)
    &&& after.users == recorded(before.users, event.submitter, id)
}

/// A new event keeps the ids dense.
proof fn lemma_added_ids_dense(before: RegistryState, after: RegistryState, event: EventData)
    requires
        before.wf(),
        adds_event(before, after, event),
    ensures
        after.ids_dense(),
{
    let id = before.catalog.next_id();
    assert forall|other: u64| #[trigger]
        after.catalog.events.contains_key(other) <==> 1 <= other
            <= after.catalog.event_count by {
        assert(before.catalog.events.contains_key(other) <==> 1 <= other
            <= before.catalog.event_count);
    }
    assert forall|other: u64| #[trigger]
        after.catalog.events.contains_key(other) implies after.catalog.events[other].id
        == other by {
        if other != id {
            assert(before.catalog.events.contains_key(other));
        }
    }
}

/// A new event that is well shaped keeps the events sound.
proof fn lemma_added_events_sound(before: RegistryState, after: RegistryState, event: EventData)
    requires
        before.wf(),
        adds_event(before, after, event),
        well_shaped(event),
    ensures
        after.events_sound(),
{
    let id = before.catalog.next_id();
    assert forall|other: u64| #[trigger]
        after.catalog.events.contains_key(other) implies well_shaped(
        after.catalog.events[other],
    ) && well_scored(after.catalog.events[other]) by {
        if other != id {
            assert(before.catalog.events.contains_key(other));
        }
    }
}

/// A new event has no votes, and the votes of the others stay counted.
proof fn lemma_added_votes_counted(before: RegistryState, after: RegistryState, event: EventData)
    requires
        before.wf(),
        adds_event(before, after, event),
    ensures
        after.votes_counted(),
{
    let id = before.catalog.next_id();
    assert(!before.catalog.events.contains_key(id));
    assert(!before.votes.contains_key(id));
    lemma_count_none();
    assert(votes_on(after.votes, id) =~= Seq::<Vote>::empty());
    assert forall|other: u64| #[trigger]
        after.votes.contains_key(other) implies after.catalog.events.contains_key(other) by {
        assert(before.catalog.events.contains_key(other));
    }
    assert forall|other: u64| #[trigger] after.catalog.events.contains_key(other) implies {
        &&& after.catalog.events[other].support_votes == capped(
            support_count(votes_on(after.votes, other)),
        )
        &&& after.catalog.events[other].challenge_votes == capped(
            challenge_count(votes_on(after.votes, other)),
        )
    } by {
        if other != id {
            assert(before.catalog.events.contains_key(other));
        }
    }
}

/// A new event is in the disputed bucket only, and the others stay where
/// they were.
proof fn lemma_added_bucketed(before: RegistryState, after: RegistryState, event: EventData)
    requires
        before.wf(),
        adds_event(before, after, event),
    ensures
        after.bucketed(),
{
    let id = before.catalog.next_id();
    let disputed = before.timelines.of(Timeline::Disputed);
    assert(!before.catalog.events.contains_key(id));
    assert(!disputed.contains(id)) by {
        if disputed.contains(id) {
            let i = choose|i: int| 0 <= i < disputed.len() && disputed[i] == id;
            assert(before.catalog.events.contains_key(before.timelines.of(Timeline::Disputed)[i]));
        }
    }
    assert forall|timeline: Timeline| #[trigger]
        after.timelines.of(timeline).no_duplicates() by {
        assert(before.timelines.of(timeline).no_duplicates());
        if timeline == Timeline::Disputed {
            assert(after.timelines.of(timeline) == disputed.push(id));
            assert forall|i: int, j: int| 0 <= i < j < disputed.push(id).len() implies disputed.push(
                id,
            )[i] != disputed.push(id)[j] by {
                if j == disputed.len() {
                    assert(disputed.contains(disputed[i]));
                }
            }
        } else {
            assert(after.timelines.of(timeline) == before.timelines.of(timeline));
        }
    }
    assert forall|timeline: Timeline, i: int|
        0 <= i < after.timelines.of(timeline).len() implies {
        let other = #[trigger] after.timelines.of(timeline)[i];
        after.catalog.events.contains_key(other) && after.catalog.events[other].timeline
            == timeline
    } by {
        let other = after.timelines.of(timeline)[i];
        if timeline == Timeline::Disputed && i == disputed.len() {
            assert(other == id);
        } else {
            assert(other == before.timelines.of(timeline)[i]);
            assert(before.catalog.events.contains_key(other));
        }
    }
    assert forall|other: u64| #[trigger]
        after.catalog.events.contains_key(other) implies after.timelines.of(
        after.catalog.events[other].timeline,
    ).contains(other) by {
        if other == id {
            assert(disputed.push(id)[disputed.len() as int] == id);
        } else {
            assert(before.catalog.events.contains_key(other));
            let timeline = before.catalog.events[other].timeline;
            let bucket = before.timelines.of(timeline);
            assert(bucket.contains(other));
            let i = choose|i: int| 0 <= i < bucket.len() && bucket[i] == other;
            assert(after.timelines.of(timeline)[i] == other);
        }
    }
}

/// A new event is the last of its submitter's list, and the lists of the
/// others stay as they were.
proof fn lemma_added_attributed(before: RegistryState, after: RegistryState, event: EventData)
    requires
        before.wf(),
        adds_event(before, after, event),
    ensures
        after.attributed(),
{
    let id = before.catalog.next_id();
    let submitter = event.submitter;
    let mine = ids_of(before.users, submitter);
    assert(!before.catalog.events.contains_key(id));
    assert(ids_of(after.users, submitter) == mine.push(id));
    assert forall|user: AccountId| user != submitter implies #[trigger] ids_of(after.users, user)
        == ids_of(before.users, user) by {}
    assert forall|i: int| 0 <= i < mine.len() implies #[trigger] mine[i] < id by {
        assert(before.catalog.events.contains_key(ids_of(before.users, submitter)[i]));
    }
    assert forall|user: AccountId, i: int| 0 <= i < ids_of(after.users, user).len() implies {
        let other = #[trigger] ids_of(after.users, user)[i];
        after.catalog.events.contains_key(other) && after.catalog.events[other].submitter == user
    } by {
        let other = ids_of(after.users, user)[i];
        if user == submitter && i == mine.len() {
            assert(other == id);
        } else {
            assert(other == ids_of(before.users, user)[i]);
            assert(before.catalog.events.contains_key(other));
        }
    }
    assert forall|user: AccountId, i: int, j: int|
        0 <= i < j < ids_of(after.users, user).len() implies (#[trigger] ids_of(
        after.users,
        user,
    )[i]) < (#[trigger] ids_of(after.users, user)[j]) by {
        if user == submitter && j == mine.len() {
            assert(ids_of(after.users, user)[i] == mine[i]);
        } else {
            assert(ids_of(after.users, user)[i] == ids_of(before.users, user)[i]);
            assert(ids_of(after.users, user)[j] == ids_of(before.users, user)[j]);
        }
    }
    assert forall|other: u64| #[trigger]
        after.catalog.events.contains_key(other) implies ids_of(
        after.users,
        after.catalog.events[other].submitter,
    ).contains(other) by {
        if other == id {
            assert(mine.push(id)[mine.len() as int] == id);
        } else {
            assert(before.catalog.events.contains_key(other));
            let user = before.catalog.events[other].submitter;
            let list = ids_of(before.users, user);
            assert(list.contains(other));
            let i = choose|i: int| 0 <= i < list.len() && list[i] == other;
            assert(ids_of(after.users, user)[i] == other);
        }
    }
}

/// An acceptable submission to a well-formed registry whose counter has
/// not reached the largest `u64` leaves the registry well formed.
pub proof fn lemma_submit_keeps_wf(
    state: RegistryState,
    title: Seq<char>,
    date: u64,
    description: Seq<char>,
    evidence_sources: Seq<Seq<char>>,
    tags: Seq<Seq<char>>,
    submitter: AccountId,
    now: u64,
)
    requires
        state.wf(),
        state.catalog.event_count < u64::MAX,
        acceptable(title, description, evidence_sources, tags),
    ensures
        state.submit(title, date, description, evidence_sources, tags, submitter, now).wf(),
{
    let after = state.submit(title, date, description, evidence_sources, tags, submitter, now);
    let event = fresh_event(
        state.catalog.next_id(),
        title,
        date,
        description,
        evidence_sources,
        tags,
        submitter,
        now,
    );
    lemma_added_ids_dense(state, after, event);
    lemma_added_events_sound(state, after, event);
    lemma_added_votes_counted(state, after, event);
    lemma_added_bucketed(state, after, event);
    lemma_added_attributed(state, after, event);
}

/// Whether `after` is `before` with one more vote on an event that
/// `before` holds, by a voter without an earlier vote on it.
spec fn counts_vote(before: RegistryState, after: RegistryState, vote: Vote) -> bool {
    &&& before.vote_refusal(vote.event_id, vote.voter).is_none()
    &&& after == before.vote(vote.event_id, vote.voter, vote.support, vote.timestamp)
}

/// A vote keeps the ids dense, the events sound and the user lists right.
proof fn lemma_voted_events(before: RegistryState, after: RegistryState, vote: Vote)
    requires
        before.wf(),
        counts_vote(before, after, vote),
    ensures
        after.ids_dense(),
        after.events_sound(),
        after.attributed(),
{
    let id = vote.event_id;
    let event = before.catalog.events[id];
    lemma_score_in_range(
        after_vote(event, vote.support).support_votes,
        after_vote(event, vote.support).challenge_votes,
    );
    assert(well_shaped(event) && well_scored(event));
    assert forall|other: u64| #[trigger]
        after.catalog.events.contains_key(other) <==> 1 <= other
            <= after.catalog.event_count by {
        assert(before.catalog.events.contains_key(other) <==> 1 <= other
            <= before.catalog.event_count);
    }
    assert forall|other: u64| #[trigger]
        after.catalog.events.contains_key(other) implies after.catalog.events[other].id == other
        && well_shaped(after.catalog.events[other]) && well_scored(
        after.catalog.events[other],
    ) by {
        assert(before.catalog.events.contains_key(other));
    }
    assert forall|user: AccountId, i: int| 0 <= i < ids_of(after.users, user).len() implies {
        let other = #[trigger] ids_of(after.users, user)[i];
        after.catalog.events.contains_key(other) && after.catalog.events[other].submitter == user
    } by {
        let other = ids_of(before.users, user)[i];
        assert(before.catalog.events.contains_key(other));
    }
    assert forall|other: u64| #[trigger]
        after.catalog.events.contains_key(other) implies ids_of(
        after.users,
        after.catalog.events[other].submitter,
    ).contains(other) by {
        assert(before.catalog.events.contains_key(other));
    }
}

/// A vote keeps the votes counted: the event's list grows by a vote of a
/// new voter, and the counter of its kind by one.
proof fn lemma_voted_votes_counted(before: RegistryState, after: RegistryState, vote: Vote)
    requires
        before.wf(),
        counts_vote(before, after, vote),
    ensures
        after.votes_counted(),
{
    let id = vote.event_id;
    let earlier = votes_on(before.votes, id);
    lemma_count_next(earlier, vote);
    assert(votes_on(after.votes, id) == earlier.push(vote));
    assert forall|other: u64| other != id implies #[trigger] votes_on(after.votes, other)
        == votes_on(before.votes, other) by {}
    assert forall|other: u64| #[trigger]
        after.votes.contains_key(other) implies after.catalog.events.contains_key(other) by {
        if other != id {
            assert(before.votes.contains_key(other));
        }
    }
    assert forall|other: u64, i: int| 0 <= i < votes_on(after.votes, other).len() implies (
    #[trigger] votes_on(after.votes, other)[i]).event_id == other by {
        if other == id {
            if i < earlier.len() {
                assert(votes_on(before.votes, id)[i].event_id == id);
            }
        } else {
            assert(votes_on(before.votes, other)[i].event_id == other);
        }
    }
    assert forall|other: u64, i: int, j: int|
        0 <= i < j < votes_on(after.votes, other).len() implies (#[trigger] votes_on(
        after.votes,
        other,
    )[i]).voter != (#[trigger] votes_on(after.votes, other)[j]).voter by {
        if other == id {
            if j < earlier.len() {
                assert(votes_on(before.votes, id)[i].voter != votes_on(before.votes, id)[j].voter);
            } else {
                assert(!cast_by(earlier, vote.voter));
                assert(earlier[i].voter != vote.voter);
            }
        } else {
            assert(votes_on(before.votes, other)[i].voter != votes_on(
                before.votes,
                other,
            )[j].voter);
        }
    }
    assert forall|other: u64| #[trigger] after.catalog.events.contains_key(other) implies {
        &&& after.catalog.events[other].support_votes == capped(
            support_count(votes_on(after.votes, other)),
        )
        &&& after.catalog.events[other].challenge_votes == capped(
            challenge_count(votes_on(after.votes, other)),
        )
    } by {
        assert(before.catalog.events.contains_key(other));
    }
}

/// A vote keeps every id in the one bucket of its event's category.
proof fn lemma_voted_bucketed(before: RegistryState, after: RegistryState, vote: Vote)
    requires
        before.wf(),
        counts_vote(before, after, vote),
    ensures
        after.bucketed(),
{
    let id = vote.event_id;
    let event = before.catalog.events[id];
    let from = event.timeline;
    let to = after_vote(event, vote.support).timeline;
    assert(event.id == id);
    assert forall|other: u64| #[trigger]
        after.catalog.events.contains_key(other) == before.catalog.events.contains_key(
            other,
        ) by {}
    if from == to {
        assert(after.timelines == before.timelines);
        assert forall|timeline: Timeline, i: int|
            0 <= i < after.timelines.of(timeline).len() implies {
            let other = #[trigger] after.timelines.of(timeline)[i];
            after.catalog.events.contains_key(other) && after.catalog.events[other].timeline
                == timeline
        } by {
            let other = before.timelines.of(timeline)[i];
            assert(before.catalog.events.contains_key(other));
        }
        assert forall|other: u64| #[trigger]
            after.catalog.events.contains_key(other) implies after.timelines.of(
            after.catalog.events[other].timeline,
        ).contains(other) by {
            assert(before.catalog.events.contains_key(other));
        }
    } else {
        let source = before.timelines.of(from);
        let target = before.timelines.of(to);
        lemma_without_id(source, id);
        assert(after.timelines.of(from) == without_id(source, id));
        assert(after.timelines.of(to) == target.push(id));
        assert(!target.contains(id)) by {
            if target.contains(id) {
                let i = choose|i: int| 0 <= i < target.len() && target[i] == id;
                assert(before.catalog.events[before.timelines.of(to)[i]].timeline == to);
            }
        }
        assert(source.no_duplicates());
        assert(target.no_duplicates());
        assert forall|timeline: Timeline| #[trigger]
            after.timelines.of(timeline).no_duplicates() by {
            assert(before.timelines.of(timeline).no_duplicates());
            if timeline == to {
                assert forall|i: int, j: int| 0 <= i < j < target.push(id).len() implies target.push(
                    id,
                )[i] != target.push(id)[j] by {
                    if j == target.len() {
                        assert(target.contains(target[i]));
                    }
                }
            } else if timeline != from {
                assert(after.timelines.of(timeline) == before.timelines.of(timeline));
            }
        }
        assert forall|timeline: Timeline, i: int|
            0 <= i < after.timelines.of(timeline).len() implies {
            let other = #[trigger] after.timelines.of(timeline)[i];
            after.catalog.events.contains_key(other) && after.catalog.events[other].timeline
                == timeline
        } by {
            let other = after.timelines.of(timeline)[i];
            if timeline == to {
                if i < target.len() {
                    assert(other == before.timelines.of(to)[i]);
                    assert(target.contains(other));
                    assert(before.catalog.events.contains_key(other));
                }
            } else if timeline == from {
                assert(without_id(source, id).contains(other));
                assert(source.contains(other) && other != id);
                let j = choose|j: int| 0 <= j < source.len() && source[j] == other;
                assert(before.catalog.events.contains_key(before.timelines.of(from)[j]));
            } else {
                assert(other == before.timelines.of(timeline)[i]);
                assert(before.timelines.of(timeline).contains(other));
                assert(before.catalog.events.contains_key(other));
                assert(before.catalog.events[other].timeline == timeline);
            }
        }
        assert forall|other: u64| #[trigger]
            after.catalog.events.contains_key(other) implies after.timelines.of(
            after.catalog.events[other].timeline,
        ).contains(other) by {
            if other == id {
                assert(target.push(id)[target.len() as int] == id);
            } else {
                assert(before.catalog.events.contains_key(other));
                let timeline = before.catalog.events[other].timeline;
                let bucket = before.timelines.of(timeline);
                assert(bucket.contains(other));
                if timeline == to {
                    let i = choose|i: int| 0 <= i < bucket.len() && bucket[i] == other;
                    assert(target.push(id)[i] == other);
                } else if timeline == from {
                    assert(without_id(source, id).contains(other));
                }
            }
        }
    }
}

/// A vote that is not refused leaves a well-formed registry well formed.
pub proof fn lemma_vote_keeps_wf(
    state: RegistryState,
    event_id: u64,
    voter: AccountId,
    support: bool,
    now: u64,
)
    requires
        state.wf(),
        state.vote_refusal(event_id, voter).is_none(),
    ensures
        state.vote(event_id, voter, support, now).wf(),
{
    let after = state.vote(event_id, voter, support, now);
    let vote = Vote { voter, event_id, support, timestamp: now };
    lemma_voted_events(state, after, vote);
    lemma_voted_votes_counted(state, after, vote);
    lemma_voted_bucketed(state, after, vote);
}

} // verus!
