use vstd::prelude::*;

use crate::object_ref::{ref_of, Object, ObjectRef, ObjectView, RefKey};
use crate::store::{apply_event_spec, apply_events_spec, Store, WatchEvent};

verus! {

/// The single writing handle of a store.
pub struct Writer {
    store: Store,
}

impl View for Writer {
    type V = Map<RefKey, ObjectView>;

    closed spec fn view(&self) -> Map<RefKey, ObjectView> {
        self.store@
    }
}

impl Default for Writer {
    fn default() -> (r: Writer)
        ensures
            r.wf(),
            r@ == Map::<RefKey, ObjectView>::empty(),
    {
        Writer::new()
    }
}

impl Writer {
    pub closed spec fn wf(&self) -> bool {
        self.store.wf()
    }

    /// A writer over an empty store.
    pub fn new() -> (r: Writer)
        ensures
            r.wf(),
            r@ == Map::<RefKey, ObjectView>::empty(),
    {
        Writer { store: Store::new() }
    }

    /// A read-only copy of the current contents.
    pub fn as_reader(&self) -> (r: Store)
        requires
            self.wf(),
        ensures
            r.wf(),
            r@ == self@,
    {
        self.store.snapshot()
    }

    /// The latest snapshot held for `key`, if any.
    pub fn get(&self, key: &ObjectRef) -> (r: Option<Object>)
        requires
            self.wf(),
        ensures
            match r {
                Some(o) => self@.contains_key(key@) && o@ == self@[key@],
                None => !self@.contains_key(key@),
            },
    {
        self.store.get(key)
    }

    /// Applies one event to the store.
    pub fn apply_watcher_event(&mut self, event: &WatchEvent)
        requires
            old(self).wf(),
        ensures
            final(self).wf(),
            final(self)@ == apply_event_spec(old(self)@, *event),
    {
        self.store.apply_watcher_event(event);
    }
}

/// The store contents after the successful items of a stream, in order;
/// failed items leave the store as it is.
pub open spec fn apply_results_spec<E>(m: Map<RefKey, ObjectView>, s: Seq<Result<WatchEvent, E>>) -> Map<
    RefKey,
    ObjectView,
>
    decreases s.len(),
{
    if s.len() == 0 {
        m
    } else {
        let before = apply_results_spec(m, s.drop_last());
        match s.last() {
            Ok(e) => apply_event_spec(before, e),
            Err(_) => before,
        }
    }
}

/// Caches the events of a stream into `store`, applying each successful item
/// before it is passed on, and hands every item on unchanged and in order.
pub fn reflector<E>(store: &mut Writer, stream: Vec<Result<WatchEvent, E>>) -> (r: Vec<
    Result<WatchEvent, E>,
>)
    requires
        old(store).wf(),
    ensures
        final(store).wf(),
        r == stream,
        final(store)@ == apply_results_spec(old(store)@, stream@),
{
    let mut i: usize = 0;
    while i < stream.len()
        invariant
            store.wf(),
            i <= stream@.len(),
            store@ == apply_results_spec(old(store)@, stream@.subrange(0, i as int)),
        decreases stream@.len() - i,
    {
        proof {
            assert(stream@.subrange(0, i + 1).drop_last() =~= stream@.subrange(0, i as int));
        }
        match &stream[i] {
            Ok(e) => store.apply_watcher_event(e),
            Err(_) => {},
        }
        i = i + 1;
    }
    assert(stream@.subrange(0, stream@.len() as int) =~= stream@);
    stream
}

/// A stream whose items all succeed leaves the store as its events applied
/// in order would.
pub proof fn lemma_successful_stream<E>(
    m: Map<RefKey, ObjectView>,
    s: Seq<Result<WatchEvent, E>>,
    es: Seq<WatchEvent>,
)
    requires
        s.len() == es.len(),
        forall|i: int| 0 <= i < s.len() ==> #[trigger] s[i] == Ok::<WatchEvent, E>(es[i]),
    ensures
        apply_results_spec(m, s) == apply_events_spec(m, es),
    decreases s.len(),
{
    if s.len() > 0 {
        assert forall|i: int| 0 <= i < s.drop_last().len() implies #[trigger] s.drop_last()[i] == Ok::<
            WatchEvent,
            E,
        >(es.drop_last()[i]) by {
            assert(s[i] == Ok::<WatchEvent, E>(es[i]));
        }
        lemma_successful_stream(m, s.drop_last(), es.drop_last());
        assert(s[s.len() - 1] == Ok::<WatchEvent, E>(es[es.len() - 1]));
    }
}

/// Two updates of one object followed by a restart listing only another
/// object leave exactly that other object in the store.
pub proof fn lemma_restart_after_updates(
    m: Map<RefKey, ObjectView>,
    a: Object,
    a2: Object,
    b: Object,
    list: Vec<Object>,
)
    requires
        ref_of(a@) == ref_of(a2@),
        ref_of(a@) != ref_of(b@),
        list@ == seq![b],
    ensures
        ({
            let s = apply_events_spec(
                m,
                seq![WatchEvent::Applied(a), WatchEvent::Applied(a2), WatchEvent::Restarted(list)],
            );
            &&& s == map![ref_of(b@) => b@]
            &&& !s.contains_key(ref_of(a@))
        }),
{
    let es = seq![WatchEvent::Applied(a), WatchEvent::Applied(a2), WatchEvent::Restarted(list)];
    assert(es.drop_last().drop_last().drop_last() =~= Seq::<WatchEvent>::empty());
    let ov = crate::store::objects_view(list@);
    assert(ov =~= seq![b@]);
    assert(ov.drop_last() =~= Seq::<ObjectView>::empty());
    assert(es.last() == WatchEvent::Restarted(list));
    assert(crate::store::restart_map(ov.drop_last()) == Map::<RefKey, ObjectView>::empty());
    assert(crate::store::restart_map(ov) =~= map![ref_of(b@) => b@]);
    assert(apply_events_spec(m, es) == apply_event_spec(apply_events_spec(m, es.drop_last()), es.last()));
}

} // verus!
