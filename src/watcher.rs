use vstd::prelude::*;

use crate::backoff::{backoff_spec, error_backoff};
use crate::object_ref::Object;
use crate::store::WatchEvent;

verus! {

/// Where the event source stands.
#[derive(Debug, PartialEq, Eq)]
pub enum WatcherState {
    /// A full list is due; `failures` counts the failed attempts in a row.
    Initializing { failures: u32 },
    /// A watch is open from this resource version.
    Streaming { resource_version: String },
}

/// What the remote store answered.
#[derive(Debug, PartialEq, Eq)]
pub enum WatcherInput {
    /// A full list succeeded.
    Listed { resource_version: String, objects: Vec<Object> },
    /// A list call failed on the transport.
    ListFailed,
    /// The watch reported a new object.
    Added(Object),
    /// The watch reported a changed object.
    Modified(Object),
    /// The watch reported a removed object.
    Removed(Object),
    /// The watch moved on to a newer resource version without a change.
    Bookmark { resource_version: String },
    /// The watch's resource version is too old to resume from.
    Expired,
    /// The watch connection was lost.
    Disconnected,
}

/// The remote call the event source makes next.
#[derive(Debug, PartialEq, Eq)]
pub enum Request {
    /// List everything after waiting this many milliseconds.
    List { delay_ms: u64 },
    /// Watch from this resource version.
    Watch { resource_version: String },
}

/// The next state and the event emitted, if any.
pub open spec fn step_spec(state: WatcherState, input: WatcherInput) -> (WatcherState, Option<WatchEvent>) {
    match state {
        WatcherState::Initializing { failures } => match input {
            WatcherInput::Listed { resource_version, objects } => (
                WatcherState::Streaming { resource_version },
                Some(WatchEvent::Restarted(objects)),
            ),
            WatcherInput::ListFailed => (
                WatcherState::Initializing {
                    failures: if failures < u32::MAX {
                        (failures + 1) as u32
                    } else {
                        failures
                    },
                },
                None,
            ),
            _ => (WatcherState::Initializing { failures }, None),
        },
        WatcherState::Streaming { resource_version } => match input {
            WatcherInput::Added(o) => (
                WatcherState::Streaming { resource_version: o.metadata.resource_version },
                Some(WatchEvent::Applied(o)),
            ),
            WatcherInput::Modified(o) => (
                WatcherState::Streaming { resource_version: o.metadata.resource_version },
                Some(WatchEvent::Applied(o)),
            ),
            WatcherInput::Removed(o) => (
                WatcherState::Streaming { resource_version: o.metadata.resource_version },
                Some(WatchEvent::Deleted(o)),
            ),
            WatcherInput::Bookmark { resource_version } => (
                WatcherState::Streaming { resource_version },
                None,
            ),
            WatcherInput::Expired => (WatcherState::Initializing { failures: 0 }, None),
            WatcherInput::Disconnected => (WatcherState::Initializing { failures: 1 }, None),
            _ => (WatcherState::Streaming { resource_version }, None),
        },
    }
}

/// The HTTP status with which the remote store reports an expired resource
/// version.
pub const GONE: u16 = 410;

/// The input that an error reported on an open watch stands for: an expired
/// version asks for a fresh list at once, anything else is a transport
/// failure.
pub fn watch_error_input(code: u16) -> (r: WatcherInput)
    ensures
        r == (if code == GONE {
            WatcherInput::Expired
        } else {
            WatcherInput::Disconnected
        }),
{
    if code == GONE {
        WatcherInput::Expired
    } else {
        WatcherInput::Disconnected
    }
}

/// Advances the event source by one answer of the remote store. A list
/// turns into a `Restarted` event carrying the full membership; watch
/// changes turn into `Applied` and `Deleted`; an expired version or a lost
/// connection leads back to listing, so a gap only ever shows as a restart.
pub fn step(state: WatcherState, input: WatcherInput) -> (r: (WatcherState, Option<WatchEvent>))
    ensures
        r == step_spec(state, input),
{
    match state {
        WatcherState::Initializing { failures } => match input {
            WatcherInput::Listed { resource_version, objects } => (
                WatcherState::Streaming { resource_version },
                Some(WatchEvent::Restarted(objects)),
            ),
            WatcherInput::ListFailed => {
                let f = if failures < u32::MAX {
                    failures + 1
                } else {
                    failures
                };
                (WatcherState::Initializing { failures: f }, None)
            },
            _ => (WatcherState::Initializing { failures }, None),
        },
        WatcherState::Streaming { resource_version } => match input {
            WatcherInput::Added(o) => {
                let rv = o.metadata.resource_version.clone();
                (WatcherState::Streaming { resource_version: rv }, Some(WatchEvent::Applied(o)))
            },
            WatcherInput::Modified(o) => {
                let rv = o.metadata.resource_version.clone();
                (WatcherState::Streaming { resource_version: rv }, Some(WatchEvent::Applied(o)))
            },
            WatcherInput::Removed(o) => {
                let rv = o.metadata.resource_version.clone();
                (WatcherState::Streaming { resource_version: rv }, Some(WatchEvent::Deleted(o)))
            },
            WatcherInput::Bookmark { resource_version } => (
                WatcherState::Streaming { resource_version },
                None,
            ),
            WatcherInput::Expired => (WatcherState::Initializing { failures: 0 }, None),
            WatcherInput::Disconnected => (WatcherState::Initializing { failures: 1 }, None),
            _ => (WatcherState::Streaming { resource_version }, None),
        },
    }
}

/// The remote call to make in `state`: a list, delayed by the backoff for
/// the failures so far (none after no failure), or a watch from the last
/// version seen.
pub fn next_request(state: &WatcherState, base_ms: u64, ceiling_ms: u64) -> (r: Request)
    ensures
        match *state {
            WatcherState::Initializing { failures } => r == (Request::List {
                delay_ms: if failures == 0 {
                    0
                } else {
                    backoff_spec(base_ms as nat, ceiling_ms as nat, (failures - 1) as nat) as u64
                },
            }),
            WatcherState::Streaming { resource_version } => r == (Request::Watch {
                resource_version,
            }),
        },
{
    match state {
        WatcherState::Initializing { failures } => {
            let delay_ms = if *failures == 0 {
                0
            } else {
                error_backoff(base_ms, ceiling_ms, *failures - 1)
            };
            Request::List { delay_ms }
        },
        WatcherState::Streaming { resource_version } => Request::Watch {
            resource_version: resource_version.clone(),
        },
    }
}

/// Outside a watch, the event source emits nothing but a restart.
pub proof fn lemma_gaps_surface_as_restarts(failures: u32, input: WatcherInput)
    ensures
        ({
            let (_, e) = step_spec(WatcherState::Initializing { failures }, input);
            e is None || e->Some_0 is Restarted
        }),
{
}

} // verus!
