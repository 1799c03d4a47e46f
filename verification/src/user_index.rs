//! The user index: for each submitter the ids of the events that they
//! created, in submission order. Entries are only ever added to.

use vstd::prelude::*;
use crate::types::AccountId;

verus! {

/// The ids recorded for a user: empty for a user that the index does not
/// know.
pub open spec fn ids_of(index: Map<AccountId, Seq<u64>>, user: AccountId) -> Seq<u64> {
    if index.contains_key(user) {
        index[user]
    } else {
        Seq::empty()
    }
}

/// The index after one more id was recorded for a user.
pub open spec fn recorded(index: Map<AccountId, Seq<u64>>, user: AccountId, id: u64) -> Map<
    AccountId,
    Seq<u64>,
> {
    index.insert(user, ids_of(index, user).push(id))
}

/// One submitter with the ids of their events.
struct UserEntry {
    user: AccountId,
    ids: Vec<u64>,
}

/// Whether the entry at a position is the first one of a user.
spec fn is_slot(entries: Seq<UserEntry>, user: AccountId, i: int) -> bool {
    &&& 0 <= i < entries.len()
    &&& entries[i].user == user
    &&& forall|j: int| 0 <= j < i ==> entries[j].user != user
}

/// The position of the first entry of a user.
spec fn slot(entries: Seq<UserEntry>, user: AccountId) -> int {
    choose|i: int| is_slot(entries, user, i)
}

/// The index that a list of entries stands for: each user with the ids of
/// their first entry.
spec fn index_of(entries: Seq<UserEntry>) -> Map<AccountId, Seq<u64>> {
    Map::new(
        |user: AccountId| exists|i: int| is_slot(entries, user, i),
        |user: AccountId| entries[slot(entries, user)].ids@,
    )
}

/// A user has at most one first entry, and the index holds its ids.
proof fn lemma_slot_is_unique(entries: Seq<UserEntry>, user: AccountId, i: int)
    requires
        is_slot(entries, user, i),
    ensures
        slot(entries, user) == i,
        index_of(entries).contains_key(user),
        index_of(entries)[user] == entries[i].ids@,
{
    let k = slot(entries, user);
    assert(is_slot(entries, user, k));
    if k < i {
        assert(entries[k].user != user);
    }
    if i < k {
        assert(entries[i].user != user);
    }
}

/// A user without any entry is unknown to the index.
proof fn lemma_no_entry_no_key(entries: Seq<UserEntry>, user: AccountId)
    requires
        forall|j: int| 0 <= j < entries.len() ==> entries[j].user != user,
    ensures
        !index_of(entries).contains_key(user),
{
    if index_of(entries).contains_key(user) {
        let k = slot(entries, user);
        assert(is_slot(entries, user, k));
        assert(entries[k].user != user);
    }
}

/// Entries that agree on another user's slots agree on what the index holds
/// for that user.
proof fn lemma_other_user_kept(
    before: Seq<UserEntry>,
    after: Seq<UserEntry>,
    other: AccountId,
)
    requires
        forall|k: int| is_slot(before, other, k) ==> is_slot(after, other, k) && after[k].ids@
            == before[k].ids@,
        forall|k: int| is_slot(after, other, k) ==> is_slot(before, other, k),
    ensures
        index_of(after).contains_key(other) == index_of(before).contains_key(other),
        index_of(before).contains_key(other) ==> index_of(after)[other] == index_of(
            before,
        )[other],
{
    if index_of(before).contains_key(other) {
        let k = slot(before, other);
        assert(is_slot(before, other, k));
        lemma_slot_is_unique(before, other, k);
        lemma_slot_is_unique(after, other, k);
    }
    if index_of(after).contains_key(other) {
        let k = slot(after, other);
        assert(is_slot(after, other, k));
        assert(is_slot(before, other, k));
    }
}

/// Appending an id to the first entry of a user records it for that user.
proof fn lemma_entry_extended(
    before: Seq<UserEntry>,
    after: Seq<UserEntry>,
    user: AccountId,
    i: int,
    id: u64,
)
    requires
        is_slot(before, user, i),
        after.len() == before.len(),
        after[i].user == user,
        after[i].ids@ == before[i].ids@.push(id),
        forall|j: int| 0 <= j < before.len() && j != i ==> after[j] == before[j],
    ensures
        index_of(after) == recorded(index_of(before), user, id),
{
    assert forall|j: int| 0 <= j < before.len() implies #[trigger] after[j].user
        == before[j].user by {
        if j != i {
            assert(after[j] == before[j]);
        }
    }
    lemma_slot_is_unique(before, user, i);
    assert(is_slot(after, user, i));
    lemma_slot_is_unique(after, user, i);
    assert forall|other: AccountId| other != user implies (#[trigger] index_of(
        after,
    ).contains_key(other) == index_of(before).contains_key(other) && (index_of(
        before,
    ).contains_key(other) ==> index_of(after)[other] == index_of(before)[other])) by {
        assert forall|k: int| is_slot(before, other, k) implies is_slot(after, other, k)
            && after[k].ids@ == before[k].ids@ by {
            assert(after[k].user == before[k].user);
            assert(k != i);
            assert(after[k] == before[k]);
        }
        assert forall|k: int| is_slot(after, other, k) implies is_slot(before, other, k) by {
            assert(after[k].user == before[k].user);
        }
        lemma_other_user_kept(before, after, other);
    }
    let target = recorded(index_of(before), user, id);
    assert forall|who: AccountId| index_of(after).dom().contains(who) == target.dom().contains(
        who,
    ) by {
        if who != user {
            assert(index_of(after).contains_key(who) == index_of(before).contains_key(who));
        }
    }
    assert forall|who: AccountId| index_of(after).dom().contains(who) implies index_of(
        after,
    )[who] == target[who] by {
        if who != user {
            assert(index_of(after).contains_key(who) == index_of(before).contains_key(who));
        }
    }
    assert(index_of(after) =~= target);
}

/// A new entry for a user without one records its id for that user.
proof fn lemma_entry_added(
    before: Seq<UserEntry>,
    after: Seq<UserEntry>,
    user: AccountId,
    id: u64,
)
    requires
        forall|j: int| 0 <= j < before.len() ==> before[j].user != user,
        after.len() == before.len() + 1,
        after.last().user == user,
        after.last().ids@ == Seq::<u64>::empty().push(id),
        forall|j: int| 0 <= j < before.len() ==> after[j] == before[j],
    ensures
        index_of(after) == recorded(index_of(before), user, id),
{
    let last = before.len() as int;
    lemma_no_entry_no_key(before, user);
    assert forall|j: int| 0 <= j < last implies after[j].user != user by {
        assert(after[j] == before[j]);
    }
    assert(is_slot(after, user, last));
    lemma_slot_is_unique(after, user, last);
    assert forall|other: AccountId| other != user implies (#[trigger] index_of(
        after,
    ).contains_key(other) == index_of(before).contains_key(other) && (index_of(
        before,
    ).contains_key(other) ==> index_of(after)[other] == index_of(before)[other])) by {
        assert forall|k: int| is_slot(before, other, k) implies is_slot(after, other, k)
            && after[k].ids@ == before[k].ids@ by {
            assert(after[k] == before[k]);
            assert forall|j: int| 0 <= j < k implies after[j].user != other by {
                assert(after[j] == before[j]);
            }
        }
        assert forall|k: int| is_slot(after, other, k) implies is_slot(before, other, k) by {
            assert(k != last);
            assert(after[k] == before[k]);
            assert forall|j: int| 0 <= j < k implies before[j].user != other by {
                assert(after[j] == before[j]);
            }
        }
        lemma_other_user_kept(before, after, other);
    }
    let target = recorded(index_of(before), user, id);
    assert forall|who: AccountId| index_of(after).dom().contains(who) == target.dom().contains(
        who,
    ) by {
        if who != user {
            assert(index_of(after).contains_key(who) == index_of(before).contains_key(who));
        }
    }
    assert forall|who: AccountId| index_of(after).dom().contains(who) implies index_of(
        after,
    )[who] == target[who] by {
        if who != user {
            assert(index_of(after).contains_key(who) == index_of(before).contains_key(who));
        }
    }
    assert(index_of(after) =~= target);
}

/// The secondary index from submitter to event ids.
pub struct UserIndex {
    entries: Vec<UserEntry>,
}

impl View for UserIndex {
    type V = Map<AccountId, Seq<u64>>;

    closed spec fn view(&self) -> Map<AccountId, Seq<u64>> {
        index_of(self.entries@)
    }
}

impl UserIndex {
    /// An index that knows no user.
    pub fn new() -> (index: Self)
        ensures
            index@ == Map::<AccountId, Seq<u64>>::empty(),
    {
        let index = UserIndex { entries: Vec::new() };
        proof {
            assert(index@ =~= Map::<AccountId, Seq<u64>>::empty());
        }
        index
    }

    /// The position of a user's first entry, if the user has one.
    fn find(&self, user: AccountId) -> (found: Option<usize>)
        ensures
            match found {
                Some(i) => is_slot(self.entries@, user, i as int),
                None => forall|j: int| 0 <= j < self.entries.len() ==> self.entries[j].user != user,
            },
    {
        let mut i: usize = 0;
        while i < self.entries.len()
            invariant
                i <= self.entries.len(),
                forall|j: int| 0 <= j < i ==> self.entries[j].user != user,
            decreases self.entries.len() - i,
        {
            if self.entries[i].user == user {
                return Some(i);
            }
            i += 1;
        }
        None
    }

    /// The ids recorded for a user, in the order in which they were
    /// recorded; empty for an unknown user.
    pub fn events_of(&self, user: AccountId) -> (ids: Vec<u64>)
        ensures
            ids@ == ids_of(self@, user),
    {
        match self.find(user) {
            Some(i) => {
                proof {
                    lemma_slot_is_unique(self.entries@, user, i as int);
                }
                self.entries[i].ids.clone()
            },
            None => {
                proof {
                    lemma_no_entry_no_key(self.entries@, user);
                }
                Vec::new()
            },
        }
    }

    /// Records one more id for a user, after those already recorded.
    pub fn record(&mut self, user: AccountId, id: u64)
        ensures
            final(self)@ == recorded(old(self)@, user, id),
    {
        match self.find(user) {
            Some(i) => {
                self.entries[i].ids.push(id);
                proof {
                    lemma_entry_extended(old(self).entries@, self.entries@, user, i as int, id);
                }
            },
            None => {
                let mut ids: Vec<u64> = Vec::new();
                ids.push(id);
                self.entries.push(UserEntry { user, ids });
                proof {
                    lemma_entry_added(old(self).entries@, self.entries@, user, id);
                }
            },
        }
    }
}

} // verus!
