use vstd::prelude::*;

use crate::object_ref::{Object, ObjectView};

verus! {

/// What a reconciler asks of the scheduler after a successful run.
#[derive(Debug, Clone, Copy, PartialEq, Eq, Structural)]
pub enum Action {
    /// No further action until the next change.
    Await,
    /// Run again after this many milliseconds.
    RequeueAfter(u64),
}

/// The four reachable states of the protocol, from "is deletion requested"
/// and "does the object carry this controller's token".
#[derive(Debug, Clone, Copy, PartialEq, Eq, Structural)]
pub enum FinalizerState {
    /// Not being deleted, token absent: the token must be added first.
    Unmarked,
    /// Not being deleted, token present: the apply branch runs.
    Active,
    /// Being deleted, token present: the cleanup branch runs.
    Finalizing,
    /// Being deleted, token absent: nothing is left to do here.
    Released,
}

/// The step a cycle takes in a given state.
#[derive(Debug, Clone, Copy, PartialEq, Eq, Structural)]
pub enum FinalizerStep {
    /// Persist the token; no user branch runs in this cycle.
    AddToken,
    /// Run the apply branch.
    RunApply,
    /// Run the cleanup branch, then remove the token if it succeeded.
    RunCleanup,
    /// Do nothing.
    Nothing,
}

pub open spec fn state_of(deleting: bool, has_token: bool) -> FinalizerState {
    if !deleting {
        if has_token {
            FinalizerState::Active
        } else {
            FinalizerState::Unmarked
        }
    } else if has_token {
        FinalizerState::Finalizing
    } else {
        FinalizerState::Released
    }
}

pub open spec fn object_state(o: ObjectView, token: Seq<char>) -> FinalizerState {
    state_of(o.deletion_timestamp is Some, o.finalizers.contains(token))
}

pub open spec fn step_of(s: FinalizerState) -> FinalizerStep {
    match s {
        FinalizerState::Unmarked => FinalizerStep::AddToken,
        FinalizerState::Active => FinalizerStep::RunApply,
        FinalizerState::Finalizing => FinalizerStep::RunCleanup,
        FinalizerState::Released => FinalizerStep::Nothing,
    }
}

/// The object with `token` appended to its finalizers, unless already there.
pub open spec fn with_token(o: ObjectView, token: Seq<char>) -> ObjectView {
    if o.finalizers.contains(token) {
        o
    } else {
        ObjectView { finalizers: o.finalizers.push(token), ..o }
    }
}

/// The object with every occurrence of `token` taken out of its finalizers.
pub open spec fn without_token(o: ObjectView, token: Seq<char>) -> ObjectView {
    ObjectView { finalizers: o.finalizers.filter(|t: Seq<char>| t != token), ..o }
}

/// Whether the object's finalizers hold `token`.
pub fn has_finalizer(o: &Object, token: &String) -> (r: bool)
    ensures
        r == o@.finalizers.contains(token@),
{
    let mut i: usize = 0;
    while i < o.metadata.finalizers.len()
        invariant
            i <= o.metadata.finalizers@.len(),
            forall|j: int| 0 <= j < i ==> o@.finalizers[j] != token@,
        decreases o.metadata.finalizers@.len() - i,
    {
        if o.metadata.finalizers[i] == *token {
            assert(o@.finalizers[i as int] == token@);
            return true;
        }
        i = i + 1;
    }
    false
}

/// The protocol state of an object for the controller owning `token`.
pub fn finalizer_state(o: &Object, token: &String) -> (r: FinalizerState)
    ensures
        r == object_state(o@, token@),
{
    let deleting = o.metadata.deletion_timestamp.is_some();
    let has_token = has_finalizer(o, token);
    if !deleting {
        if has_token {
            FinalizerState::Active
        } else {
            FinalizerState::Unmarked
        }
    } else if has_token {
        FinalizerState::Finalizing
    } else {
        FinalizerState::Released
    }
}

/// The step to take for an object in this cycle.
pub fn plan(o: &Object, token: &String) -> (r: FinalizerStep)
    ensures
        r == step_of(object_state(o@, token@)),
{
    match finalizer_state(o, token) {
        FinalizerState::Unmarked => FinalizerStep::AddToken,
        FinalizerState::Active => FinalizerStep::RunApply,
        FinalizerState::Finalizing => FinalizerStep::RunCleanup,
        FinalizerState::Released => FinalizerStep::Nothing,
    }
}

/// Adds `token` to the object's finalizers, unless already there.
pub fn add_finalizer(o: &mut Object, token: &String)
    ensures
        final(o)@ == with_token(old(o)@, token@),
{
    if !has_finalizer(o, token) {
        o.metadata.finalizers.push(token.clone());
        proof {
            assert(final(o)@.finalizers =~= old(o)@.finalizers.push(token@));
        }
    }
}

/// Takes every occurrence of `token` out of the object's finalizers.
pub fn remove_finalizer(o: &mut Object, token: &String)
    ensures
        final(o)@ == without_token(old(o)@, token@),
{
    let ghost before = o@.finalizers;
    let mut kept: Vec<String> = Vec::new();
    let mut i: usize = 0;
    while i < o.metadata.finalizers.len()
        invariant
            i <= o.metadata.finalizers@.len(),
            before == o@.finalizers,
            crate::object_ref::strings_view(kept@) == before.subrange(0, i as int).filter(
                |t: Seq<char>| t != token@,
            ),
        decreases o.metadata.finalizers@.len() - i,
    {
        proof {
            let f = |t: Seq<char>| t != token@;
            assert(before.subrange(0, i + 1).drop_last() =~= before.subrange(0, i as int));
            assert(before.subrange(0, i + 1).last() == before[i as int]);
            reveal(Seq::filter);
            assert(before.subrange(0, i + 1).filter(f) == if f(before[i as int]) {
                before.subrange(0, i as int).filter(f).push(before[i as int])
            } else {
                before.subrange(0, i as int).filter(f)
            });
        }
        if o.metadata.finalizers[i] != *token {
            let t = o.metadata.finalizers[i].clone();
            kept.push(t);
            proof {
                assert(crate::object_ref::strings_view(kept@) =~= before.subrange(0, i as int).filter(
                    |t: Seq<char>| t != token@,
                ).push(before[i as int]));
            }
        }
        i = i + 1;
    }
    assert(before.subrange(0, before.len() as int) =~= before);
    o.metadata.finalizers = kept;
    proof {
        assert(final(o)@ =~= without_token(old(o)@, token@));
    }
}

/// The patch that follows a cleanup run: the object without the token on
/// success, none on failure.
pub open spec fn cleanup_patch<E>(o: ObjectView, token: Seq<char>, cleanup: Result<Action, E>) -> Option<
    ObjectView,
> {
    match cleanup {
        Ok(_) => Some(without_token(o, token)),
        Err(_) => None,
    }
}

/// The object as persisted after a cycle that sent `patch`, if any.
pub open spec fn persisted(o: ObjectView, patch: Option<ObjectView>) -> ObjectView {
    match patch {
        Some(p) => p,
        None => o,
    }
}

/// The outcome of a cleanup run: on success the object with its token
/// removed (the patch to persist) and the reconciler's action; on failure no
/// patch, and the error handed on for a retry.
pub fn finish_cleanup<E>(o: &Object, token: &String, cleanup: Result<Action, E>) -> (r: (
    Option<Object>,
    Result<Action, E>,
))
    ensures
        r.1 == cleanup,
        match r.0 {
            Some(p) => cleanup_patch(o@, token@, cleanup) == Some(p@),
            None => cleanup_patch(o@, token@, cleanup) is None,
        },
{
    match cleanup {
        Ok(a) => {
            let mut patched = o.clone();
            remove_finalizer(&mut patched, token);
            (Some(patched), Ok(a))
        },
        Err(e) => (None, Err(e)),
    }
}

/// The object with the token added (the patch to persist) when the object
/// is new to this controller, `None` otherwise.
pub fn mark(o: &Object, token: &String) -> (r: Option<Object>)
    ensures
        match r {
            Some(p) => object_state(o@, token@) == FinalizerState::Unmarked && p@ == with_token(
                o@,
                token@,
            ),
            None => object_state(o@, token@) != FinalizerState::Unmarked,
        },
{
    if plan(o, token) == FinalizerStep::AddToken {
        let mut patched = o.clone();
        add_finalizer(&mut patched, token);
        Some(patched)
    } else {
        None
    }
}

/// An object that is not being deleted and does not carry the token gets the
/// token in its first cycle without running the apply branch; in the next
/// cycle the apply branch runs.
pub proof fn lemma_first_cycle_marks(o: ObjectView, token: Seq<char>)
    requires
        o.deletion_timestamp is None,
        !o.finalizers.contains(token),
    ensures
        step_of(object_state(o, token)) == FinalizerStep::AddToken,
        with_token(o, token).finalizers.contains(token),
        step_of(object_state(with_token(o, token), token)) == FinalizerStep::RunApply,
{
    let f = o.finalizers.push(token);
    assert(f[f.len() - 1] == token);
}

/// An object being deleted whose cleanup succeeds loses the token, and no
/// later cycle of this controller runs a branch for it again.
pub proof fn lemma_cleanup_releases(o: ObjectView, token: Seq<char>)
    requires
        o.deletion_timestamp is Some,
        o.finalizers.contains(token),
    ensures
        step_of(object_state(o, token)) == FinalizerStep::RunCleanup,
        !without_token(o, token).finalizers.contains(token),
        step_of(object_state(without_token(o, token), token)) == FinalizerStep::Nothing,
{
    let f = o.finalizers.filter(|t: Seq<char>| t != token);
    if f.contains(token) {
        let i = choose|i: int| 0 <= i < f.len() && f[i] == token;
        broadcast use vstd::seq_lib::group_filter_ensures;

        assert(f.contains(f[i]));
    }
}

/// What the external system answered to a delete request.
#[derive(Debug, PartialEq, Eq)]
pub enum DeleteOutcome {
    Deleted,
    NotFound,
    Rejected(String),
}

/// Whether a cleanup that deleted an external side effect succeeded: a
/// side effect that was already gone counts as deleted, so running the
/// cleanup again is harmless.
pub fn delete_result(outcome: DeleteOutcome) -> (r: Result<(), String>)
    ensures
        r is Ok <==> !(outcome is Rejected),
        match outcome {
            DeleteOutcome::Rejected(m) => r == Err::<(), String>(m),
            _ => true,
        },
{
    match outcome {
        DeleteOutcome::Deleted => Ok(()),
        DeleteOutcome::NotFound => Ok(()),
        DeleteOutcome::Rejected(m) => Err(m),
    }
}

/// A cleanup that fails leaves the token on the object, so the next cycle
/// runs the cleanup again, and the object is requeued after the error delay.
pub proof fn lemma_failed_cleanup_requeued<E>(o: ObjectView, token: Seq<char>, e: E, error_delay: u64)
    requires
        o.deletion_timestamp is Some,
        o.finalizers.contains(token),
    ensures
        ({
            let after = persisted(o, cleanup_patch(o, token, Err::<Action, E>(e)));
            &&& after.finalizers.contains(token)
            &&& step_of(object_state(after, token)) == FinalizerStep::RunCleanup
        }),
        crate::controller::requeue_spec(Err::<Action, E>(e), error_delay) == Some(error_delay),
{
}

} // verus!
