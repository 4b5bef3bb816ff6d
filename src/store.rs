use vstd::prelude::*;

use crate::object_ref::{ref_of, Object, ObjectRef, ObjectView, RefKey};

verus! {

/// A change delivered by the event source.
#[derive(Debug, PartialEq, Eq)]
pub enum WatchEvent {
    /// The object was created or updated.
    Applied(Object),
    /// The object was removed.
    Deleted(Object),
    /// The watch was re-established; the list is the full current membership.
    Restarted(Vec<Object>),
}

pub open spec fn objects_view(s: Seq<Object>) -> Seq<ObjectView> {
    s.map_values(|o: Object| o@)
}

/// The contents of a store filled from `s` in order: a later snapshot of an
/// identity replaces an earlier one.
pub open spec fn restart_map(s: Seq<ObjectView>) -> Map<RefKey, ObjectView>
    decreases s.len(),
{
    if s.len() == 0 {
        Map::empty()
    } else {
        restart_map(s.drop_last()).insert(ref_of(s.last()), s.last())
    }
}

/// The store contents after one event.
pub open spec fn apply_event_spec(m: Map<RefKey, ObjectView>, e: WatchEvent) -> Map<
    RefKey,
    ObjectView,
> {
    match e {
        WatchEvent::Applied(o) => m.insert(ref_of(o@), o@),
        WatchEvent::Deleted(o) => m.remove(ref_of(o@)),
        WatchEvent::Restarted(l) => restart_map(objects_view(l@)),
    }
}

/// The store contents after a sequence of events, in order.
pub open spec fn apply_events_spec(m: Map<RefKey, ObjectView>, es: Seq<WatchEvent>) -> Map<
    RefKey,
    ObjectView,
>
    decreases es.len(),
{
    if es.len() == 0 {
        m
    } else {
        apply_event_spec(apply_events_spec(m, es.drop_last()), es.last())
    }
}

/// A keyed cache holding the latest known snapshot of each identity.
pub struct Store {
    entries: Vec<Object>,
    model: Ghost<Map<RefKey, ObjectView>>,
}

impl View for Store {
    type V = Map<RefKey, ObjectView>;

    closed spec fn view(&self) -> Map<RefKey, ObjectView> {
        self.model@
    }
}

impl Store {
    /// Entries are unique by identity and are exactly the model's contents.
    pub closed spec fn wf(&self) -> bool {
        &&& forall|i: int, j: int|
            0 <= i < j < self.entries@.len() ==> ref_of(#[trigger] self.entries@[i]@) != ref_of(
                #[trigger] self.entries@[j]@,
            )
        &&& forall|i: int|
            0 <= i < self.entries@.len() ==> {
                &&& self.model@.contains_key(ref_of(#[trigger] self.entries@[i]@))
                &&& self.model@[ref_of(self.entries@[i]@)] == self.entries@[i]@
            }
        &&& forall|k: RefKey|
            #[trigger] self.model@.contains_key(k) ==> exists|i: int|
                0 <= i < self.entries@.len() && ref_of(#[trigger] self.entries@[i]@) == k
    }

    /// An empty store.
    pub fn new() -> (r: Store)
        ensures
            r.wf(),
            r@ == Map::<RefKey, ObjectView>::empty(),
    {
        Store { entries: Vec::new(), model: Ghost(Map::empty()) }
    }

    fn find(&self, key: &ObjectRef) -> (r: Option<usize>)
        requires
            self.wf(),
        ensures
            match r {
                Some(i) => i < self.entries@.len() && ref_of(self.entries@[i as int]@) == key@,
                None => !self@.contains_key(key@),
            },
    {
        let mut i: usize = 0;
        while i < self.entries.len()
            invariant
                self.wf(),
                i <= self.entries@.len(),
                forall|j: int| 0 <= j < i ==> ref_of(#[trigger] self.entries@[j]@) != key@,
            decreases self.entries@.len() - i,
        {
            if key.matches(&self.entries[i]) {
                return Some(i);
            }
            i = i + 1;
        }
        None
    }

    /// The latest snapshot held for `key`, if any.
    pub fn get(&self, key: &ObjectRef) -> (r: Option<Object>)
        requires
            self.wf(),
        ensures
            match r {
                Some(o) => self@.contains_key(key@) && o@ == self@[key@],
                None => !self@.contains_key(key@),
            },
    {
        match self.find(key) {
            Some(i) => Some(self.entries[i].clone()),
            None => None,
        }
    }

    /// A point-in-time copy of every snapshot held.
    pub fn state(&self) -> (r: Vec<Object>)
        requires
            self.wf(),
        ensures
            r@.len() == self@.len(),
            forall|i: int| 0 <= i < r@.len() ==> self@.contains_key(ref_of(#[trigger] r@[i]@))
                && self@[ref_of(r@[i]@)] == r@[i]@,
            forall|k: RefKey| #[trigger] self@.contains_key(k) ==> exists|i: int|
                0 <= i < r@.len() && ref_of(#[trigger] r@[i]@) == k,
    {
        let mut r: Vec<Object> = Vec::new();
        let mut i: usize = 0;
        while i < self.entries.len()
            invariant
                self.wf(),
                i <= self.entries@.len(),
                r@.len() == i,
                forall|j: int| 0 <= j < i ==> (#[trigger] r@[j])@ == self.entries@[j]@,
            decreases self.entries@.len() - i,
        {
            r.push(self.entries[i].clone());
            i = i + 1;
        }
        proof {
            self.lemma_len();
            assert forall|k: RefKey| #[trigger] self@.contains_key(k) implies exists|i: int|
                0 <= i < r@.len() && ref_of(#[trigger] r@[i]@) == k by {
                let i = choose|i: int| 0 <= i < self.entries@.len() && ref_of(#[trigger] self.entries@[i]@) == k;
                assert(r@[i]@ == self.entries@[i]@);
            }
        }
        r
    }

    proof fn lemma_len(&self)
        requires
            self.wf(),
        ensures
            self@.len() == self.entries@.len(),
            self@.dom().finite(),
    {
        let keys = Seq::new(self.entries@.len(), |i: int| ref_of(self.entries@[i]@));
        assert(keys.no_duplicates());
        keys.unique_seq_to_set();
        assert(keys.to_set() =~= self@.dom()) by {
            assert forall|k: RefKey| self@.dom().contains(k) implies keys.to_set().contains(k) by {
                let i = choose|i: int| 0 <= i < self.entries@.len() && ref_of(#[trigger] self.entries@[i]@) == k;
                assert(keys[i] == k);
            }
        }
    }

    /// Records `o` as the latest snapshot of its identity.
    pub fn apply_applied(&mut self, o: &Object)
        requires
            old(self).wf(),
        ensures
            final(self).wf(),
            final(self)@ == old(self)@.insert(ref_of(o@), o@),
    {
        let key = ObjectRef::from_obj(o);
        let ghost m0 = self.model@;
        let ghost e0 = self.entries@;
        match self.find(&key) {
            Some(i) => {
                self.entries.set(i, o.clone());
                self.model = Ghost(m0.insert(ref_of(o@), o@));
                proof {
                    assert forall|k: RefKey| #[trigger] self.model@.contains_key(k) implies exists|j: int|
                        0 <= j < self.entries@.len() && ref_of(#[trigger] self.entries@[j]@) == k by {
                        if k != ref_of(o@) {
                            let j = choose|j: int| 0 <= j < e0.len() && ref_of(#[trigger] e0[j]@) == k;
                            assert(self.entries@[j] == e0[j]);
                        } else {
                            assert(ref_of(self.entries@[i as int]@) == k);
                        }
                    }
                }
            },
            None => {
                self.entries.push(o.clone());
                self.model = Ghost(m0.insert(ref_of(o@), o@));
                proof {
                    assert forall|k: RefKey| #[trigger] self.model@.contains_key(k) implies exists|j: int|
                        0 <= j < self.entries@.len() && ref_of(#[trigger] self.entries@[j]@) == k by {
                        if k != ref_of(o@) {
                            let j = choose|j: int| 0 <= j < e0.len() && ref_of(#[trigger] e0[j]@) == k;
                            assert(self.entries@[j] == e0[j]);
                        } else {
                            assert(ref_of(self.entries@[e0.len() as int]@) == k);
                        }
                    }
                    assert forall|j: int| 0 <= j < e0.len() implies ref_of(#[trigger] self.entries@[j]@) != ref_of(o@) by {
                        assert(m0.contains_key(ref_of(e0[j]@)));
                    }
                }
            },
        }
    }

    /// Forgets the snapshot held for the identity of `o`.
    pub fn apply_deleted(&mut self, o: &Object)
        requires
            old(self).wf(),
        ensures
            final(self).wf(),
            final(self)@ == old(self)@.remove(ref_of(o@)),
    {
        let key = ObjectRef::from_obj(o);
        let ghost m0 = self.model@;
        let ghost e0 = self.entries@;
        match self.find(&key) {
            Some(i) => {
                self.entries.remove(i);
                self.model = Ghost(m0.remove(ref_of(o@)));
                proof {
                    assert forall|j: int| 0 <= j < self.entries@.len() implies #[trigger] self.entries@[j] == (if j < i { e0[j] } else { e0[j + 1] }) by {}
                    assert forall|k: RefKey| #[trigger] self.model@.contains_key(k) implies exists|j: int|
                        0 <= j < self.entries@.len() && ref_of(#[trigger] self.entries@[j]@) == k by {
                        let j = choose|j: int| 0 <= j < e0.len() && ref_of(#[trigger] e0[j]@) == k;
                        if j < i {
                            assert(self.entries@[j] == e0[j]);
                        } else {
                            assert(j != i);
                            assert(self.entries@[j - 1] == e0[j]);
                        }
                    }
                }
            },
            None => {
                assert(m0.remove(ref_of(o@)) =~= m0);
            },
        }
    }

    /// Replaces the whole contents by the snapshots of `list`.
    pub fn apply_restarted(&mut self, list: &Vec<Object>)
        requires
            old(self).wf(),
        ensures
            final(self).wf(),
            final(self)@ == restart_map(objects_view(list@)),
    {
        let mut fresh = Store::new();
        let mut i: usize = 0;
        while i < list.len()
            invariant
                fresh.wf(),
                i <= list@.len(),
                fresh@ == restart_map(objects_view(list@.subrange(0, i as int))),
            decreases list@.len() - i,
        {
            fresh.apply_applied(&list[i]);
            proof {
                let s = objects_view(list@.subrange(0, i + 1));
                assert(s.drop_last() =~= objects_view(list@.subrange(0, i as int)));
                assert(s.last() == list@[i as int]@);
            }
            i = i + 1;
        }
        assert(list@.subrange(0, list@.len() as int) =~= list@);
        *self = fresh;
    }

    /// A copy of the store that later changes to this one do not reach.
    pub fn snapshot(&self) -> (r: Store)
        requires
            self.wf(),
        ensures
            r.wf(),
            r@ == self@,
    {
        let mut entries: Vec<Object> = Vec::new();
        let mut i: usize = 0;
        while i < self.entries.len()
            invariant
                self.wf(),
                i <= self.entries@.len(),
                entries@.len() == i,
                forall|j: int| 0 <= j < i ==> (#[trigger] entries@[j])@ == self.entries@[j]@,
            decreases self.entries@.len() - i,
        {
            entries.push(self.entries[i].clone());
            i = i + 1;
        }
        let r = Store { entries, model: Ghost(self.model@) };
        proof {
            assert forall|k: RefKey| #[trigger] r.model@.contains_key(k) implies exists|j: int|
                0 <= j < r.entries@.len() && ref_of(#[trigger] r.entries@[j]@) == k by {
                let j = choose|j: int| 0 <= j < self.entries@.len() && ref_of(#[trigger] self.entries@[j]@) == k;
                assert(r.entries@[j]@ == self.entries@[j]@);
            }
        }
        r
    }

    /// Applies one event: the only way the contents change.
    pub fn apply_watcher_event(&mut self, event: &WatchEvent)
        requires
            old(self).wf(),
        ensures
            final(self).wf(),
            final(self)@ == apply_event_spec(old(self)@, *event),
    {
        match event {
            WatchEvent::Applied(o) => self.apply_applied(o),
            WatchEvent::Deleted(o) => self.apply_deleted(o),
            WatchEvent::Restarted(l) => self.apply_restarted(l),
        }
    }
}

/// The identities of a sequence of snapshots.
pub open spec fn refs_of(s: Seq<ObjectView>) -> Set<RefKey> {
    Set::new(|k: RefKey| exists|i: int| 0 <= i < s.len() && ref_of(#[trigger] s[i]) == k)
}

proof fn lemma_restart_map_dom(s: Seq<ObjectView>)
    ensures
        restart_map(s).dom() == refs_of(s),
    decreases s.len(),
{
    if s.len() > 0 {
        lemma_restart_map_dom(s.drop_last());
        assert forall|k: RefKey| refs_of(s).contains(k) implies restart_map(s).dom().contains(k) by {
            let i = choose|i: int| 0 <= i < s.len() && ref_of(#[trigger] s[i]) == k;
            if i < s.len() - 1 {
                assert(s.drop_last()[i] == s[i]);
            }
        }
        assert forall|k: RefKey| restart_map(s).dom().contains(k) implies refs_of(s).contains(k) by {
            if k != ref_of(s.last()) {
                let i = choose|i: int| 0 <= i < s.len() - 1 && ref_of(#[trigger] s.drop_last()[i]) == k;
                assert(s[i] == s.drop_last()[i]);
            }
        }
        assert(restart_map(s).dom() =~= refs_of(s));
    } else {
        assert(restart_map(s).dom() =~= refs_of(s));
    }
}

/// For any sequence of `Applied` and `Deleted` events that all concern one
/// identity, the store ends holding the last applied snapshot for it, or
/// nothing if the last event was a deletion.
pub proof fn lemma_last_event_wins(m: Map<RefKey, ObjectView>, es: Seq<WatchEvent>, k: RefKey)
    requires
        es.len() > 0,
        forall|i: int|
            0 <= i < es.len() ==> match #[trigger] es[i] {
                WatchEvent::Applied(o) => ref_of(o@) == k,
                WatchEvent::Deleted(o) => ref_of(o@) == k,
                WatchEvent::Restarted(_) => false,
            },
    ensures
        apply_events_spec(m, es).contains_key(k) == (es.last() is Applied),
        match es.last() {
            WatchEvent::Applied(o) => apply_events_spec(m, es)[k] == o@,
            _ => true,
        },
{
    assert(es[es.len() - 1] == es.last());
}

/// A restart leaves exactly the identities of its list in the store,
/// whatever the store held before.
pub proof fn lemma_restart_replaces_keys(m: Map<RefKey, ObjectView>, list: Vec<Object>)
    ensures
        apply_event_spec(m, WatchEvent::Restarted(list)).dom() == refs_of(objects_view(list@)),
{
    lemma_restart_map_dom(objects_view(list@));
}

} // verus!
