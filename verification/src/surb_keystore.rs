//! Store of the payload decryption keys of the SURBs that the node has
//! handed out.

use crate::random::random_bytes;
use crate::sphinx::{SurbId, SURB_ID_SIZE};
use std::collections::VecDeque;
use vstd::prelude::*;

verus! {

/// The keys kept for one SURB.
pub struct SurbEntry {
    pub id: SurbId,
    /// The payload decryption keys, as the Sphinx primitive wrote them.
    pub keys: Vec<u8>,
}

/// What the store holds for one SURB: its identifier and its keys.
pub struct SurbEntryView {
    pub id: SurbId,
    pub keys: Seq<u8>,
}

impl View for SurbEntry {
    type V = SurbEntryView;

    open spec fn view(&self) -> SurbEntryView {
        SurbEntryView { id: self.id, keys: self.keys@ }
    }
}

/// Whether no identifier occurs twice in `entries`.
pub open spec fn distinct_ids(entries: Seq<SurbEntryView>) -> bool {
    forall|i: int, j: int| 0 <= i < j < entries.len() ==> entries[i].id != entries[j].id
}

/// Whether `entries` holds an entry for `id`.
pub open spec fn holds_id(entries: Seq<SurbEntryView>, id: SurbId) -> bool {
    exists|i: int| 0 <= i < entries.len() && (#[trigger] entries[i]).id == id
}

/// The position of the entry for `id`.
pub open spec fn position_of(entries: Seq<SurbEntryView>, id: SurbId) -> int {
    choose|i: int| 0 <= i < entries.len() && (#[trigger] entries[i]).id == id
}

/// `entries` without the entry for `id`.
pub open spec fn without_id(entries: Seq<SurbEntryView>, id: SurbId) -> Seq<SurbEntryView> {
    if holds_id(entries, id) {
        entries.remove(position_of(entries, id))
    } else {
        entries
    }
}

/// The entries after an insertion into a store of the given capacity: an
/// older entry under the same identifier goes, then the oldest entry if there
/// is no room, and the new entry becomes the youngest.
pub open spec fn spec_insert(entries: Seq<SurbEntryView>, capacity: nat, entry: SurbEntryView) -> Seq<
    SurbEntryView,
> {
    let kept = without_id(entries, entry.id);
    if capacity == 0 {
        kept
    } else if kept.len() >= capacity {
        kept.drop_first().push(entry)
    } else {
        kept.push(entry)
    }
}

proof fn lemma_position_unique(entries: Seq<SurbEntryView>, id: SurbId, i: int)
    requires
        distinct_ids(entries),
        0 <= i < entries.len(),
        entries[i].id == id,
    ensures
        holds_id(entries, id),
        position_of(entries, id) == i,
{
}

proof fn lemma_remove_keeps_distinct(entries: Seq<SurbEntryView>, i: int)
    requires
        distinct_ids(entries),
        0 <= i < entries.len(),
    ensures
        distinct_ids(entries.remove(i)),
        !holds_id(entries.remove(i), entries[i].id),
{
    let after = entries.remove(i);
    assert forall|a: int, b: int| 0 <= a < b < after.len() implies after[a].id != after[b].id by {
        let a0 = if a < i { a } else { a + 1 };
        let b0 = if b < i { b } else { b + 1 };
        assert(after[a] == entries[a0]);
        assert(after[b] == entries[b0]);
    }
    assert forall|a: int| 0 <= a < after.len() implies (#[trigger] after[a]).id != entries[i].id by {
        let a0 = if a < i { a } else { a + 1 };
        assert(after[a] == entries[a0]);
    }
}

/// Bounded store of SURB keys, oldest entry first. An entry leaves the store
/// the first time it is looked up, so that no SURB can be answered twice.
pub struct SurbKeystore {
    capacity: usize,
    entries: VecDeque<SurbEntry>,
}

impl View for SurbKeystore {
    type V = Seq<SurbEntryView>;

    /// The entries held, oldest first.
    closed spec fn view(&self) -> Seq<SurbEntryView> {
        self.entries@.map_values(|e: SurbEntry| e@)
    }
}

impl SurbKeystore {
    /// Maximum number of entries.
    pub closed spec fn spec_capacity(&self) -> nat {
        self.capacity as nat
    }

    /// The store holds no more than its capacity, and no identifier twice.
    pub open spec fn wf(&self) -> bool {
        &&& self@.len() <= self.spec_capacity()
        &&& distinct_ids(self@)
    }

    pub fn new(capacity: usize) -> (r: SurbKeystore)
        ensures
            r.wf(),
            r@ == Seq::<SurbEntryView>::empty(),
            r.spec_capacity() == capacity,
    {
        let r = SurbKeystore { capacity, entries: VecDeque::new() };
        assert(r@ =~= Seq::<SurbEntryView>::empty());
        r
    }

    /// Returns a random identifier for a new SURB.
    pub fn gen_id() -> SurbId {
        random_bytes::<SURB_ID_SIZE>()
    }

    /// Returns the number of entries held.
    pub fn len(&self) -> (r: usize)
        ensures
            r == self@.len(),
    {
        self.entries.len()
    }

    fn find(&self, id: &SurbId) -> (r: Option<usize>)
        ensures
            match r {
                Some(i) => i < self@.len() && self@[i as int].id == *id,
                None => !holds_id(self@, *id),
            },
    {
        let mut i: usize = 0;
        while i < self.entries.len()
            invariant
                i <= self.entries@.len(),
                self@.len() == self.entries@.len(),
                forall|j: int| 0 <= j < i ==> (#[trigger] self@[j]).id != *id,
            decreases self.entries@.len() - i,
        {
            if same_id(&self.entries[i].id, id) {
                assert(self@[i as int].id == self.entries@[i as int].id);
                return Some(i);
            }
            assert(self@[i as int].id == self.entries@[i as int].id);
            i += 1;
        }
        None
    }

    /// Returns whether the store holds an entry for `id`.
    pub fn contains(&self, id: &SurbId) -> (r: bool)
        ensures
            r == holds_id(self@, *id),
    {
        self.find(id).is_some()
    }

    /// Stores `keys` under `id`. An older entry under the same identifier is
    /// dropped, and so is the oldest entry when the store is full.
    pub fn insert(&mut self, id: SurbId, keys: Vec<u8>)
        requires
            old(self).wf(),
        ensures
            final(self).wf(),
            final(self).spec_capacity() == old(self).spec_capacity(),
            final(self)@ == spec_insert(
                old(self)@,
                old(self).spec_capacity(),
                SurbEntryView { id, keys: keys@ },
            ),
    {
        let ghost entry = SurbEntryView { id, keys: keys@ };
        match self.find(&id) {
            Some(i) => {
                proof {
                    lemma_position_unique(self@, id, i as int);
                    lemma_remove_keeps_distinct(self@, i as int);
                }
                self.entries.remove(i);
                assert(self@ =~= old(self)@.remove(i as int));
            },
            None => {},
        }
        let ghost kept = self@;
        assert(kept == without_id(old(self)@, id));
        assert(!holds_id(kept, id));
        assert(distinct_ids(kept));
        if self.capacity == 0 {
            return ;
        }
        if self.entries.len() >= self.capacity {
            proof {
                lemma_remove_keeps_distinct(kept, 0);
            }
            self.entries.pop_front();
            assert(self@ =~= kept.drop_first());
            assert(kept.drop_first() =~= kept.remove(0));
        }
        let ghost room = self@;
        assert(distinct_ids(room));
        assert(!holds_id(room, id)) by {
            if holds_id(room, id) {
                let i = choose|i: int| 0 <= i < room.len() && (#[trigger] room[i]).id == id;
                if room.len() == kept.len() {
                    assert(kept[i].id == id);
                } else {
                    assert(kept[i + 1].id == id);
                }
            }
        }
        self.entries.push_back(SurbEntry { id, keys });
        assert(self@ =~= room.push(entry));
        assert(distinct_ids(self@)) by {
            assert forall|a: int, b: int| 0 <= a < b < self@.len() implies self@[a].id
                != self@[b].id by {
                if b == room.len() {
                    assert(room[a].id != id);
                } else {
                    assert(room[a].id != room[b].id);
                }
            }
        }
    }

    /// Removes the entry for `id` and returns its keys, if there is such an
    /// entry. The identifier is not recognised again afterwards.
    pub fn take(&mut self, id: &SurbId) -> (r: Option<Vec<u8>>)
        requires
            old(self).wf(),
        ensures
            final(self).wf(),
            final(self).spec_capacity() == old(self).spec_capacity(),
            final(self)@ == without_id(old(self)@, *id),
            !holds_id(final(self)@, *id),
            match r {
                Some(keys) => holds_id(old(self)@, *id) && keys@ == old(self)@[position_of(
                    old(self)@,
                    *id,
                )].keys,
                None => !holds_id(old(self)@, *id),
            },
    {
        match self.find(id) {
            Some(i) => {
                proof {
                    lemma_position_unique(self@, *id, i as int);
                    lemma_remove_keeps_distinct(self@, i as int);
                }
                let removed = self.entries.remove(i);
                assert(self@ =~= old(self)@.remove(i as int));
                match removed {
                    Some(entry) => {
                        assert(entry@ == old(self)@[i as int]);
                        Some(entry.keys)
                    },
                    None => None,
                }
            },
            None => None,
        }
    }
}

/// Whether two SURB identifiers are the same.
pub fn same_id(a: &SurbId, b: &SurbId) -> (r: bool)
    ensures
        r == (*a == *b),
{
    let mut i: usize = 0;
    while i < SURB_ID_SIZE
        invariant
            i <= SURB_ID_SIZE,
            forall|j: int| 0 <= j < i ==> a[j] == b[j],
        decreases SURB_ID_SIZE - i,
    {
        if a[i] != b[i] {
            return false;
        }
        i += 1;
    }
    assert(a@ =~= b@);
    assert(*a =~= *b);
    true
}

} // verus!
