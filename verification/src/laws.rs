//! Laws of the registry: what follows, for every state and every input,
//! from the operations and from well-formedness.

use vstd::prelude::*;
use crate::consensus::lemma_score_is_truncated_percentage;
use crate::consensus::score_of;
use crate::invariants::well_scored;
use crate::invariants::well_shaped;
use crate::model::one_more;
use crate::types::EventData;
use crate::event_store::lemma_resolve_all_held;
use crate::model::lemma_tagged_among_none;
use crate::model::lemma_tagged_next;
use crate::user_index::ids_of;
use crate::vote_ledger::lemma_counts_add_up;
use crate::consensus::timeline_of;
use crate::model::after_vote;
use crate::model::RegistryState;
use crate::types::AccountId;
use crate::types::Error;
use crate::types::Timeline;
use crate::vote_ledger::has_vote;
use crate::vote_ledger::votes_on;

verus! {

/// The first id is 1.
pub proof fn lemma_first_id()
    ensures
        RegistryState::init().catalog.next_id() == 1,
{
}

/// Ids are assigned in the order of the accepted submissions, without gaps
/// and without reuse, whoever submits: as long as the counter has not
/// reached the largest `u64`, a submission gets the id after the count, an
/// id that no event had before; the count becomes that id; and every
/// earlier event stays as it was.
pub proof fn lemma_ids_in_order(
    state: RegistryState,
    title: Seq<char>,
    date: u64,
    description: Seq<char>,
    evidence_sources: Seq<Seq<char>>,
    tags: Seq<Seq<char>>,
    submitter: AccountId,
    now: u64,
)
    requires
        state.wf(),
        state.catalog.event_count < u64::MAX,
    ensures
        ({
            let id = state.catalog.next_id();
            let after = state.submit(
                title,
                date,
                description,
                evidence_sources,
                tags,
                submitter,
                now,
            );
            &&& id == state.catalog.event_count + 1
            &&& !state.catalog.events.contains_key(id)
            &&& after.catalog.event_count == id
            &&& after.catalog.events.contains_key(id)
            &&& after.catalog.events[id].id == id
            &&& forall|earlier: u64| #[trigger]
                state.catalog.events.contains_key(earlier) ==> after.catalog.events.contains_key(
                    earlier,
                ) && after.catalog.events[earlier] == state.catalog.events[earlier]
        }),
{
    let id = state.catalog.next_id();
    assert(state.catalog.events.contains_key(id) <==> 1 <= id <= state.catalog.event_count);
}

/// A vote is refused for want of the event exactly if the id was never
/// assigned: it is 0, or above the count.
pub proof fn lemma_unknown_event_iff_unassigned(
    state: RegistryState,
    event_id: u64,
    voter: AccountId,
)
    requires
        state.wf(),
    ensures
        state.vote_refusal(event_id, voter) == Some(Error::EventNotFound) <==> (event_id == 0
            || event_id > state.catalog.event_count),
{
    assert(state.catalog.events.contains_key(event_id) <==> 1 <= event_id
        <= state.catalog.event_count);
}

/// After a vote of a voter on an event, a second vote of that voter on
/// that event is refused as already cast, whichever way either vote goes.
pub proof fn lemma_second_vote_refused(
    state: RegistryState,
    event_id: u64,
    voter: AccountId,
    support: bool,
    now: u64,
)
    requires
        state.vote_refusal(event_id, voter).is_none(),
    ensures
        state.vote(event_id, voter, support, now).vote_refusal(event_id, voter) == Some(
            Error::AlreadyVoted,
        ),
{
    let after = state.vote(event_id, voter, support, now);
    let earlier = votes_on(state.votes, event_id);
    assert(votes_on(after.votes, event_id)[earlier.len() as int].voter == voter);
}

/// A vote is never lost: whoever has a vote on an event still has it after
/// any later vote and after any later submission.
pub proof fn lemma_votes_persist(
    state: RegistryState,
    event_id: u64,
    voter: AccountId,
    other_event: u64,
    other_voter: AccountId,
    support: bool,
    now: u64,
    title: Seq<char>,
    date: u64,
    description: Seq<char>,
    evidence_sources: Seq<Seq<char>>,
    tags: Seq<Seq<char>>,
)
    requires
        has_vote(state.votes, event_id, voter),
    ensures
        has_vote(state.vote(other_event, other_voter, support, now).votes, event_id, voter),
        has_vote(
            state.submit(
                title,
                date,
                description,
                evidence_sources,
                tags,
                other_voter,
                now,
            ).votes,
            event_id,
            voter,
        ),
{
    let earlier = votes_on(state.votes, event_id);
    let i = choose|i: int| 0 <= i < earlier.len() && earlier[i].voter == voter;
    let after = state.vote(other_event, other_voter, support, now);
    assert(votes_on(after.votes, event_id)[i].voter == voter);
}

/// Immediately after a vote, the event's score is the score of its new
/// counts, between 0 and 100, and its category is the category of that
/// score: canonical exactly from 75 up, alternative exactly from 25 down,
/// disputed exactly in between.
pub proof fn lemma_vote_rescores(
    state: RegistryState,
    event_id: u64,
    voter: AccountId,
    support: bool,
    now: u64,
)
    requires
        state.vote_refusal(event_id, voter).is_none(),
    ensures
        ({
            let event = state.vote(event_id, voter, support, now).catalog.events[event_id];
            &&& event == after_vote(state.catalog.events[event_id], support)
            &&& event.consensus_score == score_of(event.support_votes, event.challenge_votes)
            &&& event.consensus_score <= 100
            &&& event.timeline == timeline_of(event.consensus_score)
            &&& event.timeline == Timeline::Canonical <==> event.consensus_score >= 75
            &&& event.timeline == Timeline::Alternative <==> event.consensus_score <= 25
            &&& event.timeline == Timeline::Disputed <==> 25 < event.consensus_score < 75
        }),
{
}

/// In a well-formed registry every event's score lies between 0 and 100
/// and follows from its counts: 0 without votes, and else, as long as a
/// hundred times the support count fits in a `u32`, the truncated
/// percentage of support among all votes.
pub proof fn lemma_event_scores(state: RegistryState, event_id: u64)
    requires
        state.wf(),
        state.catalog.events.contains_key(event_id),
    ensures
        ({
            let event = state.catalog.events[event_id];
            let support = event.support_votes;
            let challenge = event.challenge_votes;
            &&& event.consensus_score <= 100
            &&& support + challenge == 0 ==> event.consensus_score == 0
            &&& support + challenge > 0 && support * 100 <= u32::MAX ==> event.consensus_score
                == (support * 100) / (support + challenge)
        }),
{
    let event = state.catalog.events[event_id];
    assert(well_shaped(event) && well_scored(event));
    if event.support_votes + event.challenge_votes > 0 && event.support_votes * 100 <= u32::MAX {
        lemma_score_is_truncated_percentage(event.support_votes, event.challenge_votes);
    }
}

/// The count of events never goes down: a submission raises it or leaves
/// it at the largest `u64`, and a vote leaves it as it is.
pub proof fn lemma_count_only_grows(
    state: RegistryState,
    title: Seq<char>,
    date: u64,
    description: Seq<char>,
    evidence_sources: Seq<Seq<char>>,
    tags: Seq<Seq<char>>,
    account: AccountId,
    now: u64,
    event_id: u64,
    support: bool,
)
    ensures
        state.submit(
            title,
            date,
            description,
            evidence_sources,
            tags,
            account,
            now,
        ).catalog.event_count >= state.catalog.event_count,
        state.vote(event_id, account, support, now).catalog.event_count
            == state.catalog.event_count,
{
}

/// A vote changes one event only, and of that event only the counter of
/// the vote's kind, the score and the category.
pub proof fn lemma_vote_changes_one_event(
    state: RegistryState,
    event_id: u64,
    voter: AccountId,
    support: bool,
    now: u64,
)
    requires
        state.vote_refusal(event_id, voter).is_none(),
    ensures
        ({
            let after = state.vote(event_id, voter, support, now);
            let old_event = state.catalog.events[event_id];
            let new_event = after.catalog.events[event_id];
            &&& forall|other: u64|
                other != event_id ==> (#[trigger] after.catalog.events.contains_key(other))
                    == state.catalog.events.contains_key(other)
            &&& forall|other: u64|
                other != event_id && state.catalog.events.contains_key(other)
                    ==> (#[trigger] after.catalog.events[other]) == state.catalog.events[other]
            &&& new_event == (EventData {
                support_votes: new_event.support_votes,
                challenge_votes: new_event.challenge_votes,
                consensus_score: new_event.consensus_score,
                timeline: new_event.timeline,
                ..old_event
            })
            &&& support ==> new_event.challenge_votes == old_event.challenge_votes
                && new_event.support_votes == one_more(old_event.support_votes)
            &&& !support ==> new_event.support_votes == old_event.support_votes
                && new_event.challenge_votes == one_more(old_event.challenge_votes)
            &&& after.users == state.users
        }),
{
}

/// In a well-formed registry the three buckets together hold exactly the
/// ids from 1 to the count, no id is in two buckets, and none is twice in
/// one.
pub proof fn lemma_buckets_partition_ids(state: RegistryState)
    requires
        state.wf(),
    ensures
        forall|id: u64|
            1 <= id <= state.catalog.event_count <==> (#[trigger] state.timelines.canonical.contains(
                id,
            ) || #[trigger] state.timelines.disputed.contains(id)
                || #[trigger] state.timelines.alternative.contains(id)),
        forall|id: u64|
            !(#[trigger] state.timelines.canonical.contains(id)
                && #[trigger] state.timelines.disputed.contains(id)),
        forall|id: u64|
            !(#[trigger] state.timelines.canonical.contains(id)
                && #[trigger] state.timelines.alternative.contains(id)),
        forall|id: u64|
            !(#[trigger] state.timelines.disputed.contains(id)
                && #[trigger] state.timelines.alternative.contains(id)),
        state.timelines.canonical.no_duplicates(),
        state.timelines.disputed.no_duplicates(),
        state.timelines.alternative.no_duplicates(),
{
    assert(state.timelines.of(Timeline::Canonical).no_duplicates());
    assert(state.timelines.of(Timeline::Disputed).no_duplicates());
    assert(state.timelines.of(Timeline::Alternative).no_duplicates());
    assert forall|timeline: Timeline, id: u64| #[trigger]
        state.timelines.of(timeline).contains(id) implies state.catalog.events.contains_key(id)
        && state.catalog.events[id].timeline == timeline by {
        let bucket = state.timelines.of(timeline);
        let i = choose|i: int| 0 <= i < bucket.len() && bucket[i] == id;
        assert(state.catalog.events.contains_key(state.timelines.of(timeline)[i]));
    }
    assert forall|id: u64|
        1 <= id <= state.catalog.event_count <==> (#[trigger] state.timelines.canonical.contains(
            id,
        ) || #[trigger] state.timelines.disputed.contains(id)
            || #[trigger] state.timelines.alternative.contains(id)) by {
        assert(state.catalog.events.contains_key(id) <==> 1 <= id <= state.catalog.event_count);
        if state.catalog.events.contains_key(id) {
            assert(state.timelines.of(state.catalog.events[id].timeline).contains(id));
        }
        if state.timelines.canonical.contains(id) {
            assert(state.timelines.of(Timeline::Canonical).contains(id));
        }
        if state.timelines.disputed.contains(id) {
            assert(state.timelines.of(Timeline::Disputed).contains(id));
        }
        if state.timelines.alternative.contains(id) {
            assert(state.timelines.of(Timeline::Alternative).contains(id));
        }
    }
    assert forall|id: u64|
        !(#[trigger] state.timelines.canonical.contains(id)
            && #[trigger] state.timelines.disputed.contains(id)) by {
        if state.timelines.canonical.contains(id) && state.timelines.disputed.contains(id) {
            assert(state.timelines.of(Timeline::Canonical).contains(id));
            assert(state.timelines.of(Timeline::Disputed).contains(id));
        }
    }
    assert forall|id: u64|
        !(#[trigger] state.timelines.canonical.contains(id)
            && #[trigger] state.timelines.alternative.contains(id)) by {
        if state.timelines.canonical.contains(id) && state.timelines.alternative.contains(id) {
            assert(state.timelines.of(Timeline::Canonical).contains(id));
            assert(state.timelines.of(Timeline::Alternative).contains(id));
        }
    }
    assert forall|id: u64|
        !(#[trigger] state.timelines.disputed.contains(id)
            && #[trigger] state.timelines.alternative.contains(id)) by {
        if state.timelines.disputed.contains(id) && state.timelines.alternative.contains(id) {
            assert(state.timelines.of(Timeline::Disputed).contains(id));
            assert(state.timelines.of(Timeline::Alternative).contains(id));
        }
    }
}

/// In a well-formed registry, as long as an event has no more votes than a
/// `u32` can count, its two counters together are the number of votes
/// recorded on it.
pub proof fn lemma_counters_match_ledger(state: RegistryState, event_id: u64)
    requires
        state.wf(),
        state.catalog.events.contains_key(event_id),
        votes_on(state.votes, event_id).len() <= u32::MAX,
    ensures
        state.catalog.events[event_id].support_votes
            + state.catalog.events[event_id].challenge_votes == votes_on(
            state.votes,
            event_id,
        ).len(),
{
    lemma_counts_add_up(votes_on(state.votes, event_id));
}

/// In a well-formed registry the events of a category are exactly the
/// events of the ids in its bucket, one for each id and in that order,
/// and each of them is of that category.
pub proof fn lemma_timeline_events(state: RegistryState, timeline: Timeline)
    requires
        state.wf(),
    ensures
        state.events_in(timeline).len() == state.timelines.of(timeline).len(),
        forall|i: int|
            0 <= i < state.timelines.of(timeline).len() ==> {
                let event = #[trigger] state.events_in(timeline)[i];
                &&& event == state.catalog.events[state.timelines.of(timeline)[i]]
                &&& event.id == state.timelines.of(timeline)[i]
                &&& event.timeline == timeline
            },
{
    let ids = state.timelines.of(timeline);
    assert forall|i: int| 0 <= i < ids.len() implies state.catalog.events.contains_key(
        #[trigger] ids[i],
    ) by {
        assert(state.catalog.events.contains_key(state.timelines.of(timeline)[i]));
    }
    lemma_resolve_all_held(state.catalog, ids);
    assert forall|i: int| 0 <= i < ids.len() implies {
        let event = #[trigger] state.events_in(timeline)[i];
        &&& event == state.catalog.events[ids[i]]
        &&& event.id == ids[i]
        &&& event.timeline == timeline
    } by {
        assert(state.catalog.resolve(ids)[i] == state.catalog.events[ids[i]]);
        assert(state.catalog.events.contains_key(state.timelines.of(timeline)[i]));
    }
}

/// In a well-formed registry the events of a user are exactly the events
/// of the ids in the user's list, one for each id and in that order, each
/// of them submitted by that user, by ascending id.
pub proof fn lemma_user_events(state: RegistryState, user: AccountId)
    requires
        state.wf(),
    ensures
        state.events_of(user).len() == ids_of(state.users, user).len(),
        forall|i: int|
            0 <= i < ids_of(state.users, user).len() ==> {
                let event = #[trigger] state.events_of(user)[i];
                &&& event == state.catalog.events[ids_of(state.users, user)[i]]
                &&& event.id == ids_of(state.users, user)[i]
                &&& event.submitter == user
            },
        forall|i: int, j: int|
            0 <= i < j < state.events_of(user).len() ==> (#[trigger] state.events_of(user)[i]).id
                < (#[trigger] state.events_of(user)[j]).id,
{
    let ids = ids_of(state.users, user);
    assert forall|i: int| 0 <= i < ids.len() implies state.catalog.events.contains_key(
        #[trigger] ids[i],
    ) by {
        assert(state.catalog.events.contains_key(ids_of(state.users, user)[i]));
    }
    lemma_resolve_all_held(state.catalog, ids);
    assert forall|i: int| 0 <= i < ids.len() implies {
        let event = #[trigger] state.events_of(user)[i];
        &&& event == state.catalog.events[ids[i]]
        &&& event.id == ids[i]
        &&& event.submitter == user
    } by {
        assert(state.catalog.resolve(ids)[i] == state.catalog.events[ids[i]]);
        assert(state.catalog.events.contains_key(ids_of(state.users, user)[i]));
    }
    assert forall|i: int, j: int| 0 <= i < j < state.events_of(user).len() implies (
    #[trigger] state.events_of(user)[i]).id < (#[trigger] state.events_of(user)[j]).id by {
        assert(state.catalog.resolve(ids)[i] == state.catalog.events[ids[i]]);
        assert(state.catalog.resolve(ids)[j] == state.catalog.events[ids[j]]);
        assert(state.catalog.events.contains_key(ids_of(state.users, user)[i]));
        assert(state.catalog.events.contains_key(ids_of(state.users, user)[j]));
        assert(ids_of(state.users, user)[i] < ids_of(state.users, user)[j]);
    }
}

/// What holds of the tagged events among the first ids.
spec fn tagged_exactly(state: RegistryState, tag: Seq<char>, count: u64) -> bool {
    let found = state.tagged_among(tag, count);
    &&& forall|i: int|
        0 <= i < found.len() ==> {
            let event = #[trigger] found[i];
            &&& 1 <= event.id <= count
            &&& state.catalog.events[event.id] == event
            &&& event.tags.contains(tag)
        }
    &&& forall|i: int, j: int|
        0 <= i < j < found.len() ==> (#[trigger] found[i]).id < (#[trigger] found[j]).id
    &&& forall|id: u64|
        1 <= id <= count && (#[trigger] state.catalog.events[id]).tags.contains(tag)
            ==> found.contains(state.catalog.events[id])
}

/// The tagged events among the first ids are exactly the events of those
/// ids that carry the tag, by ascending id.
proof fn lemma_tagged_among(state: RegistryState, tag: Seq<char>, count: u64)
    requires
        state.ids_dense(),
        count <= state.catalog.event_count,
    ensures
        tagged_exactly(state, tag, count),
    decreases count,
{
    if count == 0 {
        lemma_tagged_among_none(state, tag);
    } else {
        let earlier = (count - 1) as u64;
        lemma_tagged_among(state, tag, earlier);
        lemma_tagged_next(state, tag, earlier);
        let before = state.tagged_among(tag, earlier);
        let found = state.tagged_among(tag, count);
        let event = state.catalog.events[count];
        assert(state.catalog.events.contains_key(count));
        assert(event.id == count);
        if event.tags.contains(tag) {
            assert(found == before.push(event));
            assert forall|i: int| 0 <= i < found.len() implies {
                let other = #[trigger] found[i];
                &&& 1 <= other.id <= count
                &&& state.catalog.events[other.id] == other
                &&& other.tags.contains(tag)
            } by {
                if i < before.len() {
                    assert(found[i] == before[i]);
                }
            }
            assert forall|i: int, j: int| 0 <= i < j < found.len() implies (#[trigger] found[i]).id
                < (#[trigger] found[j]).id by {
                assert(found[i] == before[i]);
                if j < before.len() {
                    assert(found[j] == before[j]);
                }
            }
            assert forall|id: u64|
                1 <= id <= count && (#[trigger] state.catalog.events[id]).tags.contains(
                    tag,
                ) implies found.contains(state.catalog.events[id]) by {
                if id == count {
                    assert(found[before.len() as int] == event);
                } else {
                    assert(before.contains(state.catalog.events[id]));
                    let i = choose|i: int|
                        0 <= i < before.len() && before[i] == state.catalog.events[id];
                    assert(found[i] == state.catalog.events[id]);
                }
            }
        } else {
            assert(found == before);
            assert forall|i: int| 0 <= i < found.len() implies {
                let other = #[trigger] found[i];
                &&& 1 <= other.id <= count
                &&& state.catalog.events[other.id] == other
                &&& other.tags.contains(tag)
            } by {
                assert(found[i] == before[i]);
            }
        }
    }
}

/// In a well-formed registry the events found for a tag are exactly the
/// events that carry the tag, whatever their category: each of them is a
/// stored event that carries it, every stored event that carries it is
/// among them, and they come by ascending id, so that none comes twice.
pub proof fn lemma_tagged_events(state: RegistryState, tag: Seq<char>)
    requires
        state.wf(),
    ensures
        forall|i: int|
            0 <= i < state.tagged(tag).len() ==> {
                let event = #[trigger] state.tagged(tag)[i];
                &&& state.catalog.events.contains_key(event.id)
                &&& state.catalog.events[event.id] == event
                &&& event.tags.contains(tag)
            },
        forall|i: int, j: int|
            0 <= i < j < state.tagged(tag).len() ==> (#[trigger] state.tagged(tag)[i]).id < (
            #[trigger] state.tagged(tag)[j]).id,
        forall|id: u64| #[trigger]
            state.catalog.events.contains_key(id) && state.catalog.events[id].tags.contains(tag)
                ==> state.tagged(tag).contains(state.catalog.events[id]),
{
    let count = state.catalog.event_count;
    lemma_tagged_among(state, tag, count);
    let found = state.tagged(tag);
    assert forall|i: int| 0 <= i < found.len() implies {
        let event = #[trigger] found[i];
        &&& state.catalog.events.contains_key(event.id)
        &&& state.catalog.events[event.id] == event
        &&& event.tags.contains(tag)
    } by {
        let event = found[i];
        assert(1 <= event.id <= count);
        assert(state.catalog.events.contains_key(event.id) <==> 1 <= event.id <= count);
    }
    assert forall|id: u64| #[trigger]
        state.catalog.events.contains_key(id) && state.catalog.events[id].tags.contains(
            tag,
        ) implies found.contains(state.catalog.events[id]) by {
        assert(1 <= id <= count);
    }
}

} // verus!
