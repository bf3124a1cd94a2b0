//! Store of the per-session key-exchange key pairs of the local node.
//!
//! Key pairs are made by the Sphinx primitive, outside this crate; the store
//! keeps track of which sessions have one, and drops those of sessions that
//! are no longer needed.

use crate::sessions::SessionIndex;
use crate::sphinx::{KxPublic, KxSecret};
use vstd::prelude::*;

verus! {

/// The key-exchange key pair of the local node for one session.
#[derive(Clone, Copy, Debug, PartialEq, Eq)]
pub struct SessionKeys {
    pub session_index: SessionIndex,
    pub secret: KxSecret,
    pub public: KxPublic,
}

/// What the store holds.
pub struct KxStoreView {
    /// Sessions before this one are no longer served.
    pub discarded_before: SessionIndex,
    /// Key pairs whose secrets are not yet used for incoming packets.
    pub pending: Seq<SessionKeys>,
    /// Key pairs whose secrets are used for incoming packets.
    pub active: Seq<SessionKeys>,
}

/// Whether `keys` holds a key pair for session `index`.
pub open spec fn holds_session(keys: Seq<SessionKeys>, index: SessionIndex) -> bool {
    exists|i: int| 0 <= i < keys.len() && (#[trigger] keys[i]).session_index == index
}

/// The first key pair for session `index` in `keys`, if there is one.
pub open spec fn keys_for_session(keys: Seq<SessionKeys>, index: SessionIndex) -> Option<SessionKeys>
    decreases keys.len(),
{
    if keys.len() == 0 {
        None
    } else if keys[0].session_index == index {
        Some(keys[0])
    } else {
        keys_for_session(keys.drop_first(), index)
    }
}

/// The key pairs in `keys` of the sessions from `index` on, in their order.
pub open spec fn from_session(keys: Seq<SessionKeys>, index: SessionIndex) -> Seq<SessionKeys>
    decreases keys.len(),
{
    if keys.len() == 0 {
        keys
    } else if keys.last().session_index >= index {
        from_session(keys.drop_last(), index).push(keys.last())
    } else {
        from_session(keys.drop_last(), index)
    }
}

/// Whether no session has two key pairs in `keys`.
pub open spec fn distinct_sessions(keys: Seq<SessionKeys>) -> bool {
    forall|i: int, j: int| 0 <= i < j < keys.len() ==> keys[i].session_index != keys[j].session_index
}

impl KxStoreView {
    /// No key pair belongs to a discarded session, and no session has two.
    pub open spec fn wf(self) -> bool {
        &&& forall|i: int|
            0 <= i < self.active.len() ==> (#[trigger] self.active[i]).session_index
                >= self.discarded_before
        &&& forall|i: int|
            0 <= i < self.pending.len() ==> (#[trigger] self.pending[i]).session_index
                >= self.discarded_before
        &&& distinct_sessions(self.active)
        &&& distinct_sessions(self.pending)
        &&& forall|i: int, j: int|
            0 <= i < self.active.len() && 0 <= j < self.pending.len() ==> (
            #[trigger] self.active[i]).session_index != (#[trigger] self.pending[j]).session_index
    }

    /// The key pair that the store holds for session `index`, in use or not.
    pub open spec fn keys(self, index: SessionIndex) -> Option<SessionKeys> {
        keys_for_session(self.active + self.pending, index)
    }

    /// Whether a key pair for session `index` can be added.
    pub open spec fn accepts(self, index: SessionIndex) -> bool {
        index >= self.discarded_before && !holds_session(self.active + self.pending, index)
    }

    /// The store after `keys` has been offered to it.
    pub open spec fn add(self, keys: SessionKeys) -> KxStoreView {
        if self.accepts(keys.session_index) {
            KxStoreView { pending: self.pending.push(keys), ..self }
        } else {
            self
        }
    }

    /// The store after the pending secrets have been taken into use.
    pub open spec fn promote(self) -> KxStoreView {
        KxStoreView { pending: Seq::empty(), active: self.active + self.pending, ..self }
    }

    /// The store after the sessions before `index` have been discarded.
    pub open spec fn discard_before(self, index: SessionIndex) -> KxStoreView {
        if index <= self.discarded_before {
            self
        } else {
            KxStoreView {
                discarded_before: index,
                pending: from_session(self.pending, index),
                active: from_session(self.active, index),
            }
        }
    }
}

/// `keys_for_session` finds a key pair exactly when there is one.
pub proof fn lemma_keys_for_session(keys: Seq<SessionKeys>, index: SessionIndex)
    ensures
        keys_for_session(keys, index).is_some() == holds_session(keys, index),
        match keys_for_session(keys, index) {
            Some(k) => k.session_index == index && keys.contains(k),
            None => true,
        },
    decreases keys.len(),
{
    if keys.len() == 0 {
    } else if keys[0].session_index == index {
        assert(keys[0].session_index == index);
    } else {
        let rest = keys.drop_first();
        lemma_keys_for_session(rest, index);
        if holds_session(rest, index) {
            let i = choose|i: int| 0 <= i < rest.len() && (#[trigger] rest[i]).session_index == index;
            assert(keys[i + 1].session_index == index);
        }
        if holds_session(keys, index) {
            let i = choose|i: int| 0 <= i < keys.len() && (#[trigger] keys[i]).session_index == index;
            assert(rest[i - 1].session_index == index);
        }
        match keys_for_session(rest, index) {
            Some(k) => {
                let i = choose|i: int| 0 <= i < rest.len() && rest[i] == k;
                assert(keys[i + 1] == k);
            },
            None => {},
        }
    }
}

fn find(keys: &Vec<SessionKeys>, index: SessionIndex) -> (r: Option<SessionKeys>)
    ensures
        r == keys_for_session(keys@, index),
{
    let mut i: usize = 0;
    assert(keys@.skip(0) =~= keys@);
    while i < keys.len()
        invariant
            i <= keys@.len(),
            keys_for_session(keys@, index) == keys_for_session(keys@.skip(i as int), index),
        decreases keys@.len() - i,
    {
        if keys[i].session_index == index {
            assert(keys@.skip(i as int)[0] == keys@[i as int]);
            return Some(keys[i]);
        }
        proof {
            assert(keys@.skip(i as int)[0] == keys@[i as int]);
            assert(keys@.skip(i as int).drop_first() =~= keys@.skip(i + 1));
        }
        i += 1;
    }
    assert(keys@.skip(i as int).len() == 0);
    None
}

fn retain_from(keys: &Vec<SessionKeys>, index: SessionIndex) -> (r: Vec<SessionKeys>)
    ensures
        r@ == from_session(keys@, index),
{
    let mut kept: Vec<SessionKeys> = Vec::new();
    let mut i: usize = 0;
    while i < keys.len()
        invariant
            i <= keys@.len(),
            kept@ == from_session(keys@.take(i as int), index),
        decreases keys@.len() - i,
    {
        proof {
            assert(keys@.take(i + 1).drop_last() =~= keys@.take(i as int));
            assert(keys@.take(i + 1).last() == keys@[i as int]);
        }
        if keys[i].session_index >= index {
            kept.push(keys[i]);
        }
        i += 1;
    }
    proof {
        assert(keys@.take(keys@.len() as int) =~= keys@);
    }
    kept
}

/// The key-exchange key pairs of the local node, by session.
#[derive(Debug)]
pub struct KxStore {
    discarded_before: SessionIndex,
    pending: Vec<SessionKeys>,
    active: Vec<SessionKeys>,
}

impl View for KxStore {
    type V = KxStoreView;

    closed spec fn view(&self) -> KxStoreView {
        KxStoreView {
            discarded_before: self.discarded_before,
            pending: self.pending@,
            active: self.active@,
        }
    }
}

impl KxStore {
    /// Returns a store that holds no keys and has discarded no session.
    pub fn new() -> (r: KxStore)
        ensures
            r@ == (KxStoreView { discarded_before: 0, pending: Seq::empty(), active: Seq::empty() }),
            r@.wf(),
    {
        KxStore { discarded_before: 0, pending: Vec::new(), active: Vec::new() }
    }

    /// Returns whether the keys of session `index` have been discarded.
    pub fn is_discarded(&self, index: SessionIndex) -> (r: bool)
        ensures
            r == (index < self@.discarded_before),
    {
        index < self.discarded_before
    }

    /// Returns the key pair held for session `index`, in use or not.
    pub fn keys_for_session(&self, index: SessionIndex) -> (r: Option<SessionKeys>)
        ensures
            r == self@.keys(index),
    {
        proof {
            lemma_find_in_concat(self.active@, self.pending@, index);
        }
        match find(&self.active, index) {
            Some(keys) => Some(keys),
            None => find(&self.pending, index),
        }
    }

    /// Returns the public key of the local node for session `index`, if the
    /// store holds a key pair for that session.
    pub fn public_for_session(&self, index: SessionIndex) -> (r: Option<KxPublic>)
        ensures
            r == match self@.keys(index) {
                Some(keys) => Some(keys.public),
                None => None,
            },
    {
        match self.keys_for_session(index) {
            Some(keys) => Some(keys.public),
            None => None,
        }
    }

    /// Returns the secret key that is used for incoming packets of session
    /// `index`, if there is one.
    pub fn session_secret(&self, index: SessionIndex) -> (r: Option<KxSecret>)
        ensures
            r == match keys_for_session(self@.active, index) {
                Some(keys) => Some(keys.secret),
                None => None,
            },
    {
        match find(&self.active, index) {
            Some(keys) => Some(keys.secret),
            None => None,
        }
    }

    /// Offers a key pair to the store. It is kept, as pending, if its session
    /// has not been discarded and has no key pair yet. Returns whether it was
    /// kept.
    pub fn add_session_keys(&mut self, keys: SessionKeys) -> (kept: bool)
        requires
            old(self)@.wf(),
        ensures
            final(self)@.wf(),
            kept == old(self)@.accepts(keys.session_index),
            final(self)@ == old(self)@.add(keys),
    {
        proof {
            lemma_keys_for_session(self.active@ + self.pending@, keys.session_index);
        }
        if keys.session_index < self.discarded_before {
            return false;
        }
        if self.keys_for_session(keys.session_index).is_some() {
            return false;
        }
        proof {
            let all = self.active@ + self.pending@;
            assert forall|i: int| 0 <= i < self.active@.len() implies (
            #[trigger] self.active@[i]).session_index != keys.session_index by {
                assert(all[i].session_index != keys.session_index);
            }
            assert forall|i: int| 0 <= i < self.pending@.len() implies (
            #[trigger] self.pending@[i]).session_index != keys.session_index by {
                assert(all[self.active@.len() + i].session_index != keys.session_index);
            }
        }
        self.pending.push(keys);
        true
    }

    /// Takes the pending secrets into use for incoming packets.
    pub fn add_pending_session_secrets(&mut self)
        requires
            old(self)@.wf(),
        ensures
            final(self)@.wf(),
            final(self)@ == old(self)@.promote(),
    {
        self.active.append(&mut self.pending);
    }

    /// Discards the key pairs of the sessions before `index`. Key pairs for
    /// those sessions are not accepted any more.
    pub fn discard_sessions_before(&mut self, index: SessionIndex)
        requires
            old(self)@.wf(),
        ensures
            final(self)@.wf(),
            final(self)@ == old(self)@.discard_before(index),
    {
        if index <= self.discarded_before {
            return ;
        }
        let pending = retain_from(&self.pending, index);
        let active = retain_from(&self.active, index);
        proof {
            lemma_from_session(self.active@, index);
            lemma_from_session(self.pending@, index);
        }
        self.discarded_before = index;
        self.pending = pending;
        self.active = active;
    }
}

/// Looking a session up in two lists, one after the other, is looking it up
/// in their concatenation.
pub proof fn lemma_find_in_concat(a: Seq<SessionKeys>, b: Seq<SessionKeys>, index: SessionIndex)
    ensures
        keys_for_session(a + b, index) == match keys_for_session(a, index) {
            Some(k) => Some(k),
            None => keys_for_session(b, index),
        },
    decreases a.len(),
{
    if a.len() == 0 {
        assert(a + b =~= b);
    } else {
        assert((a + b)[0] == a[0]);
        assert((a + b).drop_first() =~= a.drop_first() + b);
        lemma_find_in_concat(a.drop_first(), b, index);
    }
}

/// What is kept of `keys` are key pairs of `keys`, for sessions from `index`
/// on, and no session has two of them unless it had two before.
pub proof fn lemma_from_session(keys: Seq<SessionKeys>, index: SessionIndex)
    ensures
        forall|i: int|
            0 <= i < from_session(keys, index).len() ==> {
                &&& (#[trigger] from_session(keys, index)[i]).session_index >= index
                &&& keys.contains(from_session(keys, index)[i])
            },
        distinct_sessions(keys) ==> distinct_sessions(from_session(keys, index)),
    decreases keys.len(),
{
    if keys.len() > 0 {
        let front = keys.drop_last();
        let kept_front = from_session(front, index);
        let kept = from_session(keys, index);
        lemma_from_session(front, index);
        assert forall|i: int| 0 <= i < kept.len() implies {
            &&& (#[trigger] kept[i]).session_index >= index
            &&& keys.contains(kept[i])
        } by {
            if i < kept_front.len() {
                assert(kept[i] == kept_front[i]);
                let j = choose|j: int| 0 <= j < front.len() && front[j] == kept_front[i];
                assert(keys[j] == kept[i]);
            } else {
                assert(keys[keys.len() - 1] == kept[i]);
            }
        }
        if distinct_sessions(keys) {
            assert(distinct_sessions(front)) by {
                assert forall|i: int, j: int| 0 <= i < j < front.len() implies front[i].session_index
                    != front[j].session_index by {
                    assert(keys[i].session_index != keys[j].session_index);
                }
            }
            assert forall|i: int, j: int| 0 <= i < j < kept.len() implies kept[i].session_index
                != kept[j].session_index by {
                if j == kept_front.len() {
                    let k = choose|k: int| 0 <= k < front.len() && front[k] == kept_front[i];
                    assert(keys[k].session_index != keys[keys.len() - 1].session_index);
                }
            }
        }
    }
}

} // verus!
