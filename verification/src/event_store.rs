//! The event store: the primary store of events by id, and the counter from
//! which ids are assigned. Events are never taken out.

use std::collections::HashMap;
use vstd::prelude::*;
use crate::types::views;
use crate::types::EventData;
use crate::types::HistoricalEvent;

verus! {

broadcast use vstd::std_specs::hash::group_hash_axioms;

/// The id that follows a count of ids: one more, or the largest `u64` once
/// the count is there.
pub open spec fn id_after(count: u64) -> u64 {
    if count == u64::MAX {
        u64::MAX
    } else {
        (count + 1) as u64
    }
}

/// Computes the id that follows a count of ids.
pub fn next_event_id(count: u64) -> (id: u64)
    ensures
        id == id_after(count),
{
    count.saturating_add(1)
}

/// What the store holds: the events by id, and the number of ids assigned.
pub struct Catalog {
    pub events: Map<u64, EventData>,
    pub event_count: u64,
}

impl Catalog {
    /// A store without events, whose first id will be 1.
    pub open spec fn empty() -> Catalog {
        Catalog { events: Map::empty(), event_count: 0 }
    }

    /// The id that the next submission gets: one more than the count, which
    /// stays at the largest `u64` once it is there.
    pub open spec fn next_id(self) -> u64 {
        id_after(self.event_count)
    }

    /// The store after the next id was assigned.
    pub open spec fn advanced(self) -> Catalog {
        Catalog { event_count: self.next_id(), ..self }
    }

    /// The store after an event was stored under an id, in place of an
    /// earlier event under that id.
    pub open spec fn stored(self, id: u64, event: EventData) -> Catalog {
        Catalog { events: self.events.insert(id, event), ..self }
    }

    /// The event of an id, if the store holds one.
    pub open spec fn get(self, id: u64) -> Option<EventData> {
        if self.events.contains_key(id) {
            Some(self.events[id])
        } else {
            None
        }
    }

    /// The events of a list of ids, in the order of the list, without the
    /// ids that the store holds no event for.
    pub open spec fn resolve(self, ids: Seq<u64>) -> Seq<EventData> {
        ids.filter(|id: u64| self.events.contains_key(id)).map_values(|id: u64| self.events[id])
    }
}

/// Resolving one more id of a list adds its event, if there is one, after
/// the events of the ids before it.
pub proof fn lemma_resolve_next(catalog: Catalog, ids: Seq<u64>, i: int)
    requires
        0 <= i < ids.len(),
    ensures
        catalog.resolve(ids.take(i + 1)) == if catalog.events.contains_key(ids[i]) {
            catalog.resolve(ids.take(i)).push(catalog.events[ids[i]])
        } else {
            catalog.resolve(ids.take(i))
        },
{
    reveal(Seq::filter);
    let held = |id: u64| catalog.events.contains_key(id);
    let event_of = |id: u64| catalog.events[id];
    assert(ids.take(i + 1).drop_last() =~= ids.take(i));
    assert(ids.take(i + 1).last() == ids[i]);
    if catalog.events.contains_key(ids[i]) {
        assert(ids.take(i + 1).filter(held) == ids.take(i).filter(held).push(ids[i]));
        assert(ids.take(i).filter(held).push(ids[i]).map_values(event_of) =~= ids.take(
            i,
        ).filter(held).map_values(event_of).push(catalog.events[ids[i]]));
    } else {
        assert(ids.take(i + 1).filter(held) == ids.take(i).filter(held));
    }
}

/// Resolving no ids gives no events.
pub proof fn lemma_resolve_nothing(catalog: Catalog)
    ensures
        catalog.resolve(Seq::empty()) == Seq::<EventData>::empty(),
{
    reveal(Seq::filter);
    let held = |id: u64| catalog.events.contains_key(id);
    assert(Seq::<u64>::empty().filter(held).len() == 0);
    assert(catalog.resolve(Seq::empty()) =~= Seq::<EventData>::empty());
}

/// Where the store holds an event for every id of a list, resolving the
/// list gives one event for each id, in order, and passes over none.
pub proof fn lemma_resolve_all_held(catalog: Catalog, ids: Seq<u64>)
    requires
        forall|i: int| 0 <= i < ids.len() ==> catalog.events.contains_key(#[trigger] ids[i]),
    ensures
        catalog.resolve(ids).len() == ids.len(),
        forall|i: int|
            0 <= i < ids.len() ==> (#[trigger] catalog.resolve(ids)[i]) == catalog.events[ids[i]],
    decreases ids.len(),
{
    if ids.len() == 0 {
        assert(ids =~= Seq::<u64>::empty());
        lemma_resolve_nothing(catalog);
    } else {
        let last = ids.len() - 1;
        let rest = ids.take(last);
        assert forall|i: int| 0 <= i < rest.len() implies catalog.events.contains_key(
            #[trigger] rest[i],
        ) by {
            assert(rest[i] == ids[i]);
        }
        lemma_resolve_all_held(catalog, rest);
        lemma_resolve_next(catalog, ids, last);
        assert(ids.take(last + 1) =~= ids);
        assert(catalog.events.contains_key(ids[last]));
        assert forall|i: int| 0 <= i < ids.len() implies (#[trigger] catalog.resolve(ids)[i])
            == catalog.events[ids[i]] by {
            if i < last {
                assert(catalog.resolve(rest)[i] == catalog.events[rest[i]]);
            }
        }
    }
}

/// The primary store of events.
pub struct EventStore {
    events: HashMap<u64, HistoricalEvent>,
    event_count: u64,
}

impl View for EventStore {
    type V = Catalog;

    closed spec fn view(&self) -> Catalog {
        Catalog {
            events: Map::new(
                |id: u64| self.events@.contains_key(id),
                |id: u64| self.events@[id]@,
            ),
            event_count: self.event_count,
        }
    }
}

impl EventStore {
    /// A store without events.
    pub fn new() -> (store: Self)
        ensures
            store@ == Catalog::empty(),
    {
        let store = EventStore { events: HashMap::new(), event_count: 0 };
        proof {
            assert(store@.events =~= Map::<u64, EventData>::empty());
        }
        store
    }

    /// The number of ids assigned so far.
    pub fn event_count(&self) -> (count: u64)
        ensures
            count == self@.event_count,
    {
        self.event_count
    }

    /// Assigns the next id and returns it.
    pub fn generate_event_id(&mut self) -> (id: u64)
        ensures
            id == old(self)@.next_id(),
            final(self)@ == old(self)@.advanced(),
    {
        self.event_count = next_event_id(self.event_count);
        self.event_count
    }

    /// Stores an event under an id, in place of an earlier event under
    /// that id.
    pub fn insert(&mut self, id: u64, event: HistoricalEvent)
        ensures
            final(self)@ == old(self)@.stored(id, event@),
    {
        self.events.insert(id, event);
        proof {
            assert(self@.events =~= old(self)@.stored(id, event@).events);
        }
    }

    /// A copy of the event of an id, if the store holds one.
    pub fn get(&self, id: u64) -> (found: Option<HistoricalEvent>)
        ensures
            match found {
                Some(event) => self@.get(id) == Some(event@),
                None => self@.get(id).is_none(),
            },
    {
        match self.events.get(&id) {
            Some(event) => Some(event.clone()),
            None => None,
        }
    }

    /// Copies of the events of a list of ids, in the order of the list. An
    /// id that the store holds no event for is passed over.
    pub fn resolve(&self, ids: &Vec<u64>) -> (found: Vec<HistoricalEvent>)
        ensures
            views(found@) == self@.resolve(ids@),
    {
        let mut found: Vec<HistoricalEvent> = Vec::new();
        let mut i: usize = 0;
        proof {
            lemma_resolve_nothing(self@);
            assert(ids@.take(0) =~= Seq::<u64>::empty());
            assert(views(found@) =~= Seq::<EventData>::empty());
        }
        while i < ids.len()
            invariant
                i <= ids.len(),
                views(found@) == self@.resolve(ids@.take(i as int)),
            decreases ids.len() - i,
        {
            let ghost before = found@;
            proof {
                lemma_resolve_next(self@, ids@, i as int);
            }
            match self.get(ids[i]) {
                Some(event) => {
                    found.push(event);
                    proof {
                        assert(views(found@) =~= views(before).push(event@));
                    }
                },
                None => {},
            }
            i += 1;
        }
        proof {
            assert(ids@.take(ids.len() as int) =~= ids@);
        }
        found
    }
}

} // verus!
