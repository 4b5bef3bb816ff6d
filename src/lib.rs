//! A reconciliation runtime core: object identities, a keyed store fed by
//! watch events, the watch-stream state machine, a per-key debouncing
//! scheduler and the finalizer protocol.
pub mod object_ref;
pub mod store;
pub mod reflector;
pub mod finalizer;
pub mod backoff;
pub mod controller;
pub mod watcher;
