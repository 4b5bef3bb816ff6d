use vstd::prelude::*;

use crate::finalizer::Action;
use crate::object_ref::{Object, ObjectRef, RefKey};
use crate::store::Store;

verus! {

/// The scheduler's bookkeeping as mathematical values: the identities
/// waiting to run, in order, and the identities whose reconciliation is in
/// flight, each with whether a trigger arrived while it ran.
pub ghost struct SchedulerView {
    pub queue: Seq<RefKey>,
    pub running: Map<RefKey, bool>,
}

/// No identity waits twice, and none both waits and runs.
pub open spec fn view_wf(s: SchedulerView) -> bool {
    &&& s.queue.no_duplicates()
    &&& forall|i: int| 0 <= i < s.queue.len() ==> !s.running.contains_key(#[trigger] s.queue[i])
}

/// A trigger for `k`: coalesced into the pending work if `k` waits, recorded
/// as a retrigger if it runs, queued otherwise.
pub open spec fn trigger_spec(s: SchedulerView, k: RefKey) -> SchedulerView {
    if s.running.contains_key(k) {
        SchedulerView { running: s.running.insert(k, true), ..s }
    } else if s.queue.contains(k) {
        s
    } else {
        SchedulerView { queue: s.queue.push(k), ..s }
    }
}

/// The end of a reconciliation of `k`: queued again if a trigger arrived
/// meanwhile.
pub open spec fn finish_spec(s: SchedulerView, k: RefKey) -> SchedulerView {
    SchedulerView {
        queue: if s.running[k] {
            s.queue.push(k)
        } else {
            s.queue
        },
        running: s.running.remove(k),
    }
}

/// When the identity should be triggered again, in milliseconds, after a run
/// that returned `result`; failures wait `error_delay`.
pub open spec fn requeue_spec<E>(result: Result<Action, E>, error_delay: u64) -> Option<u64> {
    match result {
        Ok(Action::Await) => None,
        Ok(Action::RequeueAfter(d)) => Some(d),
        Err(_) => Some(error_delay),
    }
}

/// The requeue directive that follows a run's result.
pub fn requeue_after<E>(result: &Result<Action, E>, error_delay: u64) -> (r: Option<u64>)
    ensures
        r == requeue_spec(*result, error_delay),
{
    match result {
        Ok(Action::Await) => None,
        Ok(Action::RequeueAfter(d)) => Some(*d),
        Err(_) => Some(error_delay),
    }
}

/// Per-identity work queue with debounce and a bound on the number of
/// reconciliations in flight.
pub struct Scheduler {
    queue: Vec<ObjectRef>,
    running: Vec<(ObjectRef, bool)>,
    max_concurrent: usize,
    model: Ghost<SchedulerView>,
}

impl View for Scheduler {
    type V = SchedulerView;

    closed spec fn view(&self) -> SchedulerView {
        self.model@
    }
}

impl Scheduler {
    pub closed spec fn wf(&self) -> bool {
        &&& view_wf(self.model@)
        &&& self.model@.queue == self.queue@.map_values(|r: ObjectRef| r@)
        &&& forall|i: int, j: int|
            0 <= i < j < self.running@.len() ==> (#[trigger] self.running@[i]).0@ != (
            #[trigger] self.running@[j]).0@
        &&& forall|i: int|
            0 <= i < self.running@.len() ==> {
                &&& self.model@.running.contains_key((#[trigger] self.running@[i]).0@)
                &&& self.model@.running[self.running@[i].0@] == self.running@[i].1
            }
        &&& forall|k: RefKey|
            #[trigger] self.model@.running.contains_key(k) ==> exists|i: int|
                0 <= i < self.running@.len() && (#[trigger] self.running@[i]).0@ == k
    }

    /// The most reconciliations that may be in flight at once.
    pub closed spec fn limit(&self) -> nat {
        self.max_concurrent as nat
    }

    /// The number of reconciliations in flight.
    pub closed spec fn in_flight(&self) -> nat {
        self.running@.len()
    }

    /// An idle scheduler running at most `max_concurrent` reconciliations at once.
    pub fn new(max_concurrent: usize) -> (r: Scheduler)
        ensures
            r.wf(),
            r@.queue == Seq::<RefKey>::empty(),
            r@.running == Map::<RefKey, bool>::empty(),
            r.limit() == max_concurrent,
            r.in_flight() == 0,
    {
        let r = Scheduler {
            queue: Vec::new(),
            running: Vec::new(),
            max_concurrent,
            model: Ghost(SchedulerView { queue: Seq::empty(), running: Map::empty() }),
        };
        assert(r.queue@.map_values(|r: ObjectRef| r@) =~= Seq::<RefKey>::empty());
        r
    }

    fn find_running(&self, key: &ObjectRef) -> (r: Option<usize>)
        requires
            self.wf(),
        ensures
            match r {
                Some(i) => i < self.running@.len() && self.running@[i as int].0@ == key@,
                None => !self@.running.contains_key(key@),
            },
    {
        let mut i: usize = 0;
        while i < self.running.len()
            invariant
                self.wf(),
                i <= self.running@.len(),
                forall|j: int| 0 <= j < i ==> (#[trigger] self.running@[j]).0@ != key@,
            decreases self.running@.len() - i,
        {
            if self.running[i].0 == *key {
                return Some(i);
            }
            i = i + 1;
        }
        None
    }

    fn queued(&self, key: &ObjectRef) -> (r: bool)
        requires
            self.wf(),
        ensures
            r == self@.queue.contains(key@),
    {
        let mut i: usize = 0;
        while i < self.queue.len()
            invariant
                self.wf(),
                i <= self.queue@.len(),
                forall|j: int| 0 <= j < i ==> self@.queue[j] != key@,
            decreases self.queue@.len() - i,
        {
            if self.queue[i] == *key {
                assert(self@.queue[i as int] == key@);
                return true;
            }
            i = i + 1;
        }
        false
    }

    /// Records a trigger for `key`.
    pub fn trigger(&mut self, key: &ObjectRef)
        requires
            old(self).wf(),
        ensures
            final(self).wf(),
            final(self)@ == trigger_spec(old(self)@, key@),
            final(self).limit() == old(self).limit(),
            final(self).in_flight() == old(self).in_flight(),
    {
        let ghost s0 = self.model@;
        let ghost r0 = self.running@;
        match self.find_running(key) {
            Some(i) => {
                let k = self.running[i].0.clone();
                self.running.set(i, (k, true));
                self.model = Ghost(SchedulerView { running: s0.running.insert(key@, true), ..s0 });
                proof {
                    assert forall|k: RefKey| #[trigger] self.model@.running.contains_key(k) implies exists|j: int|
                        0 <= j < self.running@.len() && (#[trigger] self.running@[j]).0@ == k by {
                        let j = choose|j: int| 0 <= j < r0.len() && (#[trigger] r0[j]).0@ == k;
                        assert(self.running@[j].0@ == r0[j].0@);
                    }
                    assert forall|j: int| 0 <= j < self.model@.queue.len() implies !self.model@.running.contains_key(
                        #[trigger] self.model@.queue[j]) by {
                        assert(!s0.running.contains_key(s0.queue[j]));
                    }
                    assert forall|a: int, b: int|
                        0 <= a < b < self.running@.len() implies (#[trigger] self.running@[a]).0@ != (
                        #[trigger] self.running@[b]).0@ by {
                        assert(r0[a].0@ != r0[b].0@);
                    }
                    assert(self.model@.queue == self.queue@.map_values(|r: ObjectRef| r@));
                    assert(self.wf());
                }
            },
            None => {
                if !self.queued(key) {
                    self.queue.push(key.clone());
                    self.model = Ghost(SchedulerView { queue: s0.queue.push(key@), ..s0 });
                    proof {
                        assert(self.model@.queue =~= self.queue@.map_values(|r: ObjectRef| r@));
                        assert forall|i: int, j: int| 0 <= i < j < self.model@.queue.len() implies self.model@.queue[i]
                            != self.model@.queue[j] by {
                            if j == s0.queue.len() {
                                assert(s0.queue.contains(s0.queue[i]));
                            }
                        }
                        assert(self.wf());
                    }
                } else {
                    assert(self.wf());
                }
            },
        }
    }

    /// Takes the next waiting identity, if the bound on work in flight allows,
    /// and reads its current snapshot from `store`. An identity no longer in
    /// the store is dropped instead of run.
    pub fn next(&mut self, store: &Store) -> (r: Option<(ObjectRef, Option<Object>)>)
        requires
            old(self).wf(),
            store.wf(),
        ensures
            final(self).wf(),
            final(self).limit() == old(self).limit(),
            old(self).in_flight() <= old(self).limit() ==> final(self).in_flight()
                <= final(self).limit(),
            match r {
                None => {
                    &&& final(self)@ == old(self)@
                    &&& final(self).in_flight() == old(self).in_flight()
                    &&& (old(self)@.queue.len() == 0 || old(self).in_flight() >= old(self).limit())
                },
                Some((k, o)) => {
                    &&& old(self)@.queue.len() > 0
                    &&& old(self).in_flight() < old(self).limit()
                    &&& k@ == old(self)@.queue[0]
                    &&& final(self)@.queue == old(self)@.queue.drop_first()
                    &&& match o {
                        Some(obj) => {
                            &&& store@.contains_key(k@)
                            &&& obj@ == store@[k@]
                            &&& final(self)@.running == old(self)@.running.insert(k@, false)
                            &&& final(self).in_flight() == old(self).in_flight() + 1
                        },
                        None => {
                            &&& !store@.contains_key(k@)
                            &&& final(self)@.running == old(self)@.running
                            &&& final(self).in_flight() == old(self).in_flight()
                        },
                    }
                },
            },
    {
        if self.queue.len() == 0 || self.running.len() >= self.max_concurrent {
            return None;
        }
        let ghost s0 = self.model@;
        let ghost r0 = self.running@;
        let key = self.queue.remove(0);
        proof {
            assert(key@ == s0.queue[0]);
            assert(self.queue@.map_values(|r: ObjectRef| r@) =~= s0.queue.drop_first());
            assert(!s0.running.contains_key(key@));
        }
        let obj = store.get(&key);
        match obj {
            Some(_) => {
                self.running.push((key.clone(), false));
                self.model = Ghost(SchedulerView { queue: s0.queue.drop_first(), running: s0.running.insert(key@, false) });
                proof {
                    assert forall|k: RefKey| #[trigger] self.model@.running.contains_key(k) implies exists|j: int|
                        0 <= j < self.running@.len() && (#[trigger] self.running@[j]).0@ == k by {
                        if k == key@ {
                            assert(self.running@[r0.len() as int].0@ == k);
                        } else {
                            let j = choose|j: int| 0 <= j < r0.len() && (#[trigger] r0[j]).0@ == k;
                            assert(self.running@[j] == r0[j]);
                        }
                    }
                    assert forall|j: int| 0 <= j < r0.len() implies (#[trigger] self.running@[j]).0@ != key@ by {
                        assert(self.running@[j] == r0[j]);
                        assert(s0.running.contains_key(r0[j].0@));
                    }
                    assert forall|i: int| 0 <= i < self.model@.queue.len() implies !self.model@.running.contains_key(
                        #[trigger] self.model@.queue[i]) by {
                        assert(self.model@.queue[i] == s0.queue[i + 1]);
                        assert(!s0.running.contains_key(s0.queue[i + 1]));
                    }
                }
            },
            None => {
                self.model = Ghost(SchedulerView { queue: s0.queue.drop_first(), ..s0 });
                proof {
                    assert forall|i: int| 0 <= i < self.model@.queue.len() implies !self.model@.running.contains_key(
                        #[trigger] self.model@.queue[i]) by {
                        assert(self.model@.queue[i] == s0.queue[i + 1]);
                    }
                }
            },
        }
        Some((key, obj))
    }
}

impl Scheduler {
    /// Ends the reconciliation of `key` that returned `result`: the identity
    /// waits again if a trigger arrived while it ran, and the result gives
    /// when it should be triggered again (`error_delay` after a failure).
    pub fn complete<E>(&mut self, key: &ObjectRef, result: &Result<Action, E>, error_delay: u64) -> (r:
        Option<u64>)
        requires
            old(self).wf(),
            old(self)@.running.contains_key(key@),
        ensures
            final(self).wf(),
            final(self)@ == finish_spec(old(self)@, key@),
            final(self).limit() == old(self).limit(),
            final(self).in_flight() + 1 == old(self).in_flight(),
            r == requeue_spec(*result, error_delay),
    {
        let ghost s0 = self.model@;
        let ghost r0 = self.running@;
        let i = match self.find_running(key) {
            Some(i) => i,
            None => {
                // the key runs, so this arm is never taken
                return requeue_after(result, error_delay);
            },
        };
        let (k, again) = self.running.remove(i);
        proof {
            assert forall|j: int| 0 <= j < self.running@.len() implies #[trigger] self.running@[j] == (if j < i {
                r0[j]
            } else {
                r0[j + 1]
            }) by {}
        }
        if again {
            self.queue.push(k);
        }
        self.model = Ghost(finish_spec(s0, key@));
        proof {
            assert(s0.running[key@] == again);
            assert(self.model@.queue =~= self.queue@.map_values(|r: ObjectRef| r@));
            assert forall|kk: RefKey| #[trigger] self.model@.running.contains_key(kk) implies exists|j: int|
                0 <= j < self.running@.len() && (#[trigger] self.running@[j]).0@ == kk by {
                let j = choose|j: int| 0 <= j < r0.len() && (#[trigger] r0[j]).0@ == kk;
                if j < i {
                    assert(self.running@[j] == r0[j]);
                } else {
                    assert(j != i);
                    assert(self.running@[j - 1] == r0[j]);
                }
            }
            assert forall|a: int, b: int|
                0 <= a < b < self.running@.len() implies (#[trigger] self.running@[a]).0@ != (
                #[trigger] self.running@[b]).0@ by {
                let a2 = if a < i { a } else { a + 1 };
                let b2 = if b < i { b } else { b + 1 };
                assert(r0[a2].0@ != r0[b2].0@);
            }
            assert forall|j: int| 0 <= j < self.running@.len() implies {
                &&& self.model@.running.contains_key((#[trigger] self.running@[j]).0@)
                &&& self.model@.running[self.running@[j].0@] == self.running@[j].1
            } by {
                let j2 = if j < i { j } else { j + 1 };
                assert(r0[j2].0@ != r0[i as int].0@);
            }
            let q = self.model@.queue;
            if again {
                assert forall|a: int, b: int| 0 <= a < b < q.len() implies q[a] != q[b] by {
                    if b == s0.queue.len() {
                        assert(!s0.running.contains_key(s0.queue[a]));
                    }
                }
            }
            assert forall|j: int| 0 <= j < q.len() implies !self.model@.running.contains_key(#[trigger] q[j]) by {
                if j < s0.queue.len() {
                    assert(!s0.running.contains_key(s0.queue[j]));
                }
            }
        }
        requeue_after(result, error_delay)
    }
}

/// Two triggers for one identity before its reconciliation starts amount to
/// a single trigger: the identity waits exactly once.
pub proof fn lemma_trigger_debounce(s: SchedulerView, k: RefKey)
    requires
        view_wf(s),
    ensures
        trigger_spec(trigger_spec(s, k), k) == trigger_spec(s, k),
        !s.running.contains_key(k) ==> trigger_spec(s, k).queue.contains(k)
            && trigger_spec(s, k).queue.no_duplicates(),
{
    let t = trigger_spec(s, k);
    if !s.running.contains_key(k) && !s.queue.contains(k) {
        assert(t.queue[t.queue.len() - 1] == k);
        assert forall|i: int, j: int| 0 <= i < j < t.queue.len() implies t.queue[i] != t.queue[j] by {
            if j == s.queue.len() {
                assert(s.queue.contains(s.queue[i]));
            }
        }
    }
    if s.running.contains_key(k) {
        assert(t.running.insert(k, true) =~= t.running);
    }
}

} // verus!
