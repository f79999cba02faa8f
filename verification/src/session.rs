//! The per-session lifecycle.
//!
//! A session pairs one registry entry with one reader and one writer
//! over a single transport. Its life is a short state machine:
//! `Connecting` until the registry insert succeeds, `Active` while both
//! loops run, `Closing` from the first read or write failure, `Removed`
//! once the registry entry is gone. Either the reader or the writer may
//! notice the failure first, so deregistration must be safe to request
//! twice; `Removed` is terminal.

use vstd::prelude::*;

verus! {

/// Where a session stands in its life.
#[derive(Clone, Copy, Debug, PartialEq, Eq, Structural)]
pub enum SessionState {
    /// Created, not yet in the registry.
    Connecting,
    /// In the registry; reader and writer are running.
    Active,
    /// A read or write failed, or the stream ended; teardown has begun.
    Closing,
    /// Out of the registry. Terminal: nothing is ever enqueued again.
    Removed,
}

/// What a session's reader or writer observed.
#[derive(Clone, Copy, Debug, PartialEq, Eq, Structural)]
pub enum SessionEvent {
    /// The registry insert succeeded.
    Registered,
    /// The reader produced a buffer; the session keeps running.
    ReadOk,
    /// The reader failed.
    ReadFailed,
    /// The reader saw a zero-length read.
    EndOfStream,
    /// The writer saw a terminal write error.
    WriteFailed,
    /// The registry entry was removed, by whichever path failed first.
    Deregistered,
}

/// The lifecycle's transition relation. A failure anywhere starts the
/// close; deregistration from any state lands in `Removed`, so the
/// reader's and the writer's teardown paths may both request it.
pub open spec fn spec_session_step(s: SessionState, e: SessionEvent) -> SessionState {
    match e {
        SessionEvent::Deregistered => SessionState::Removed,
        SessionEvent::Registered => match s {
            SessionState::Connecting => SessionState::Active,
            _ => s,
        },
        SessionEvent::ReadOk => s,
        SessionEvent::ReadFailed | SessionEvent::EndOfStream | SessionEvent::WriteFailed => match s {
            SessionState::Connecting | SessionState::Active => SessionState::Closing,
            _ => s,
        },
    }
}

/// Advances a session's lifecycle by one observed event.
pub fn session_step(s: SessionState, e: SessionEvent) -> (r: SessionState)
    ensures
        r == spec_session_step(s, e),
{
    match e {
        SessionEvent::Deregistered => SessionState::Removed,
        SessionEvent::Registered => match s {
            SessionState::Connecting => SessionState::Active,
            _ => s,
        },
        SessionEvent::ReadOk => s,
        SessionEvent::ReadFailed | SessionEvent::EndOfStream | SessionEvent::WriteFailed => match s {
            SessionState::Connecting | SessionState::Active => SessionState::Closing,
            _ => s,
        },
    }
}

/// Law: `Removed` is terminal — no event leaves it.
pub proof fn lemma_removed_terminal(e: SessionEvent)
    ensures
        spec_session_step(SessionState::Removed, e) == SessionState::Removed,
{
}

/// Law: deregistration is idempotent — requesting it twice, from
/// whichever of the reader and writer paths, ends in the same state.
pub proof fn lemma_deregister_idempotent(s: SessionState)
    ensures
        spec_session_step(
            spec_session_step(s, SessionEvent::Deregistered),
            SessionEvent::Deregistered,
        ) == spec_session_step(s, SessionEvent::Deregistered),
{
}

} // verus!
