//! The timeline index: for each timeline category the ids of the events that
//! are classified into it, in the order in which they entered it.

use vstd::prelude::*;
use crate::consensus::classify;
use crate::consensus::timeline_of;
use crate::types::EventData;
use crate::types::HistoricalEvent;
use crate::types::Timeline;

verus! {

/// A list of ids with every occurrence of one id taken out, the rest in
/// their order.
pub open spec fn without_id(ids: Seq<u64>, id: u64) -> Seq<u64> {
    ids.filter(|other: u64| other != id)
}

/// The three buckets of the index, as sequences of event ids.
pub struct Buckets {
    pub canonical: Seq<u64>,
    pub disputed: Seq<u64>,
    pub alternative: Seq<u64>,
}

impl Buckets {
    /// Three empty buckets.
    pub open spec fn empty() -> Buckets {
        Buckets { canonical: Seq::empty(), disputed: Seq::empty(), alternative: Seq::empty() }
    }

    /// The bucket of one category.
    pub open spec fn of(self, timeline: Timeline) -> Seq<u64> {
        match timeline {
            Timeline::Canonical => self.canonical,
            Timeline::Disputed => self.disputed,
            Timeline::Alternative => self.alternative,
        }
    }

    /// These buckets with the bucket of one category replaced.
    pub open spec fn with(self, timeline: Timeline, ids: Seq<u64>) -> Buckets {
        match timeline {
            Timeline::Canonical => Buckets { canonical: ids, ..self },
            Timeline::Disputed => Buckets { disputed: ids, ..self },
            Timeline::Alternative => Buckets { alternative: ids, ..self },
        }
    }

    /// These buckets after an id was appended to one of them.
    pub open spec fn appended(self, timeline: Timeline, id: u64) -> Buckets {
        self.with(timeline, self.of(timeline).push(id))
    }

    /// These buckets after every occurrence of an id was taken out of one of
    /// them.
    pub open spec fn removed(self, timeline: Timeline, id: u64) -> Buckets {
        self.with(timeline, without_id(self.of(timeline), id))
    }

    /// These buckets after an event moved from one category to another:
    /// unchanged where the two are the same, else the id leaves the old
    /// bucket and is appended to the new one.
    pub open spec fn moved(self, from: Timeline, to: Timeline, id: u64) -> Buckets {
        if from == to {
            self
        } else {
            self.removed(from, id).appended(to, id)
        }
    }
}

/// Taking an id out of a list leaves exactly the other ids of the list, and
/// brings in no id twice that was not there twice.
pub proof fn lemma_without_id(ids: Seq<u64>, id: u64)
    ensures
        forall|other: u64|
            #[trigger] without_id(ids, id).contains(other) <==> ids.contains(other) && other != id,
        ids.no_duplicates() ==> without_id(ids, id).no_duplicates(),
    decreases ids.len(),
{
    reveal(Seq::filter);
    let kept = without_id(ids, id);
    if ids.len() > 0 {
        let rest = ids.drop_last();
        let last = ids.last();
        let kept_rest = without_id(rest, id);
        lemma_without_id(rest, id);
        assert forall|other: u64| #[trigger] kept.contains(other) <==> ids.contains(other) && other
            != id by {
            if kept.contains(other) {
                let i = choose|i: int| 0 <= i < kept.len() && kept[i] == other;
                if last != id && i == kept.len() - 1 {
                    assert(ids[ids.len() - 1] == other);
                } else {
                    assert(kept_rest[i] == other);
                    assert(kept_rest.contains(other));
                    let j = choose|j: int| 0 <= j < rest.len() && rest[j] == other;
                    assert(ids[j] == other);
                }
            }
            if ids.contains(other) && other != id {
                let j = choose|j: int| 0 <= j < ids.len() && ids[j] == other;
                if j == ids.len() - 1 {
                    assert(kept[kept.len() - 1] == other);
                } else {
                    assert(rest[j] == other);
                    assert(rest.contains(other));
                    assert(kept_rest.contains(other));
                    let i = choose|i: int| 0 <= i < kept_rest.len() && kept_rest[i] == other;
                    assert(kept[i] == other);
                }
            }
        }
        if ids.no_duplicates() {
            assert(rest.no_duplicates());
            if last != id {
                assert(!rest.contains(last)) by {
                    if rest.contains(last) {
                        let j = choose|j: int| 0 <= j < rest.len() && rest[j] == last;
                        assert(ids[j] == ids[ids.len() - 1]);
                    }
                }
                assert(!kept_rest.contains(last));
                assert forall|i: int, j: int| 0 <= i < j < kept.len() implies kept[i]
                    != kept[j] by {
                    if j == kept.len() - 1 {
                        assert(kept_rest[i] == kept[i]);
                        assert(kept_rest.contains(kept[i]));
                    } else {
                        assert(kept_rest[i] == kept[i]);
                        assert(kept_rest[j] == kept[j]);
                    }
                }
            }
        }
    }
}

/// Copies a list of ids without the occurrences of one id.
fn copy_without(ids: &Vec<u64>, id: u64) -> (kept: Vec<u64>)
    ensures
        kept@ == without_id(ids@, id),
{
    let mut kept: Vec<u64> = Vec::new();
    let mut i: usize = 0;
    proof {
        reveal(Seq::filter);
        assert(ids@.take(0).len() == 0);
    }
    while i < ids.len()
        invariant
            i <= ids.len(),
            kept@ == without_id(ids@.take(i as int), id),
        decreases ids.len() - i,
    {
        proof {
            reveal(Seq::filter);
            assert(ids@.take(i + 1).drop_last() =~= ids@.take(i as int));
            assert(ids@.take(i + 1).last() == ids@[i as int]);
        }
        if ids[i] != id {
            kept.push(ids[i]);
        }
        i += 1;
    }
    proof {
        assert(ids@.take(ids.len() as int) =~= ids@);
    }
    kept
}

/// The secondary index from timeline category to event ids.
pub struct TimelineIndex {
    canonical: Vec<u64>,
    disputed: Vec<u64>,
    alternative: Vec<u64>,
}

impl View for TimelineIndex {
    type V = Buckets;

    closed spec fn view(&self) -> Buckets {
        Buckets {
            canonical: self.canonical@,
            disputed: self.disputed@,
            alternative: self.alternative@,
        }
    }
}

impl TimelineIndex {
    /// An index with three empty buckets.
    pub fn new() -> (index: Self)
        ensures
            index@ == Buckets::empty(),
    {
        TimelineIndex { canonical: Vec::new(), disputed: Vec::new(), alternative: Vec::new() }
    }

    /// An index with the three buckets given.
    pub fn from_buckets(canonical: Vec<u64>, disputed: Vec<u64>, alternative: Vec<u64>) -> (index:
        Self)
        ensures
            index@ == (Buckets {
                canonical: canonical@,
                disputed: disputed@,
                alternative: alternative@,
            }),
    {
        TimelineIndex { canonical, disputed, alternative }
    }

    /// The ids in the bucket of one category, in stored order.
    pub fn ids(&self, timeline: Timeline) -> (ids: &Vec<u64>)
        ensures
            ids@ == self@.of(timeline),
    {
        match timeline {
            Timeline::Canonical => &self.canonical,
            Timeline::Disputed => &self.disputed,
            Timeline::Alternative => &self.alternative,
        }
    }

    /// Appends an id to the bucket of one category.
    pub fn append(&mut self, timeline: Timeline, id: u64)
        ensures
            final(self)@ == old(self)@.appended(timeline, id),
    {
        match timeline {
            Timeline::Canonical => self.canonical.push(id),
            Timeline::Disputed => self.disputed.push(id),
            Timeline::Alternative => self.alternative.push(id),
        }
    }

    /// Takes every occurrence of an id out of the bucket of one category.
    pub fn remove(&mut self, timeline: Timeline, id: u64)
        ensures
            final(self)@ == old(self)@.removed(timeline, id),
    {
        match timeline {
            Timeline::Canonical => {
                self.canonical = copy_without(&self.canonical, id);
            },
            Timeline::Disputed => {
                self.disputed = copy_without(&self.disputed, id);
            },
            Timeline::Alternative => {
                self.alternative = copy_without(&self.alternative, id);
            },
        }
    }

    /// Reclassifies an event by its current score. Where the category
    /// changes, the event's id leaves the old bucket, is appended to the new
    /// one, and the event takes the new category; else nothing changes.
    pub fn check_timeline_movement(&mut self, event: &mut HistoricalEvent)
        ensures
            final(self)@ == old(self)@.moved(
                old(event).timeline,
                timeline_of(old(event).consensus_score),
                old(event).id,
            ),
            final(event)@ == (EventData {
                timeline: timeline_of(old(event).consensus_score),
                ..old(event)@
            }),
    {
        let old_timeline: Timeline = event.timeline;
        let new_timeline: Timeline = classify(event.consensus_score);
        if old_timeline != new_timeline {
            self.remove(old_timeline, event.id);
            self.append(new_timeline, event.id);
            event.timeline = new_timeline;
        }
    }
}

} // verus!
