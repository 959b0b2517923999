//! In-process instrumentation engine: an event-description registry, per-thread
//! event and tag buffers, a frame tracker, and a capture-session state machine
//! that turns live scope instrumentation into a serialized binary trace.
//!
//! The engine is deliberately fail-open: every operation is total, and a call
//! that cannot be honoured (no active session, exhausted buffer, malformed pop)
//! degrades to a no-op instead of disturbing the host application.

use vstd::prelude::*;

pub mod capture;
pub mod codec;
pub mod engine;
pub mod model;
pub mod nesting;
pub mod recorder;
pub mod session;
pub mod tags;

verus! {

/// Whether profiling instrumentation is compiled in. This build always
/// records when a capture session is active.
pub fn enabled() -> (r: bool)
    ensures
        r,
{
    true
}

/// Handle for one open scope: holds the value returned by a matching
/// `push_event` call (an event handle, or 0 when nothing was recorded) until
/// the scope exits and hands it back to `pop_event`.
pub struct OptickCounter {
    /// Event handle returned by `push_event`; 0 means no event was recorded.
    pub event_data: u64,
}

} // verus!
