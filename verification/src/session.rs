//! The sessions of the guilds: at most one synchronisation runs for a guild
//! at a time, and a running one can be asked to stop.

use std::collections::HashMap;
use vstd::prelude::*;

verus! {

/// Where the session of a guild stands.
#[derive(Clone, Copy, Debug, PartialEq, Eq, Structural)]
pub enum SessionState {
    /// No synchronisation runs.
    Idle,
    /// A synchronisation runs.
    Running,
    /// A synchronisation runs and has been asked to stop.
    Cancelling,
}

/// How a session ended.
#[derive(Clone, Copy, Debug, PartialEq, Eq, Structural)]
pub enum SessionEnd {
    Completed,
    Cancelled,
    Failed,
}

/// Why a synchronisation was given up. None of these is retried: the caller
/// that owns the connection decides whether to try again.
#[derive(Clone, Copy, Debug, PartialEq, Eq, Structural)]
pub enum SyncFailure {
    /// A call to the platform failed.
    Transport,
    /// The session was asked to stop.
    Cancelled,
    /// The store failed.
    Persistence,
}

/// How a session ends: completed where nothing failed, cancelled where it
/// was asked to stop, failed on any other failure.
pub open spec fn end_of(failure: Option<SyncFailure>) -> SessionEnd {
    match failure {
        None => SessionEnd::Completed,
        Some(SyncFailure::Cancelled) => SessionEnd::Cancelled,
        Some(_) => SessionEnd::Failed,
    }
}

/// How a session ends.
pub fn session_end(failure: Option<SyncFailure>) -> (end: SessionEnd)
    ensures
        end == end_of(failure),
{
    match failure {
        None => SessionEnd::Completed,
        Some(SyncFailure::Cancelled) => SessionEnd::Cancelled,
        Some(_) => SessionEnd::Failed,
    }
}

/// What happens to a session.
#[derive(Clone, Copy, Debug, PartialEq, Eq, Structural)]
pub enum SessionEvent {
    Start,
    Cancel,
    End(SessionEnd),
}

/// Why a session could not be started.
#[derive(Clone, Copy, Debug, PartialEq, Eq, Structural)]
pub enum SessionError {
    AlreadyRunning,
}

/// Whether a synchronisation holds the session.
pub open spec fn is_active(s: SessionState) -> bool {
    s != SessionState::Idle
}

/// The state machine of one guild: a session starts from idle only, a
/// running one can be asked to stop, and the end of a session, however it
/// ended, leaves the guild idle. Any other event changes nothing.
pub open spec fn session_step(s: SessionState, e: SessionEvent) -> SessionState {
    match (s, e) {
        (SessionState::Idle, SessionEvent::Start) => SessionState::Running,
        (SessionState::Running, SessionEvent::Cancel) => SessionState::Cancelling,
        (SessionState::Running, SessionEvent::End(_)) => SessionState::Idle,
        (SessionState::Cancelling, SessionEvent::End(_)) => SessionState::Idle,
        _ => s,
    }
}

/// The state of a guild in a table of sessions: idle where it has no entry.
pub open spec fn state_in(m: Map<u64, SessionState>, guild: u64) -> SessionState {
    if m.dom().contains(guild) {
        m[guild]
    } else {
        SessionState::Idle
    }
}

/// The sessions of all guilds.
pub struct SessionManager {
    pub slots: HashMap<u64, SessionState>,
}

impl SessionManager {
    /// The state of a guild.
    pub open spec fn state(self, guild: u64) -> SessionState {
        state_in(self.slots@, guild)
    }

    /// The table after an event for one guild: that guild steps, every
    /// other guild stays.
    pub open spec fn stepped(self, before: SessionManager, guild: u64, e: SessionEvent) -> bool {
        forall|g: u64|
            #[trigger] self.state(g) == (if g == guild {
                session_step(before.state(g), e)
            } else {
                before.state(g)
            })
    }

    pub fn new() -> (m: SessionManager)
        ensures
            forall|g: u64| #[trigger] m.state(g) == SessionState::Idle,
    {
        SessionManager { slots: HashMap::new() }
    }

    /// The state of a guild.
    pub fn state_of(&self, guild: u64) -> (s: SessionState)
        ensures
            s == self.state(guild),
    {
        match self.slots.get(&guild) {
            Some(s) => *s,
            None => SessionState::Idle,
        }
    }

    /// Claims the session of a guild for a full rescan. Fails, without
    /// waiting, where a synchronisation holds it.
    pub fn start_full_rescan(&mut self, guild: u64) -> (r: Result<(), SessionError>)
        ensures
            r is Err <==> is_active(old(self).state(guild)),
            r is Err ==> r == Err::<(), SessionError>(SessionError::AlreadyRunning),
            final(self).stepped(*old(self), guild, SessionEvent::Start),
    {
        match self.state_of(guild) {
            SessionState::Idle => {
                self.slots.insert(guild, SessionState::Running);
                Ok(())
            },
            _ => Err(SessionError::AlreadyRunning),
        }
    }

    /// Claims the session of a guild for an incremental sync. Where a
    /// synchronisation holds it, the sync is skipped: nothing is queued.
    pub fn start_incremental_sync(&mut self, guild: u64) -> (started: bool)
        ensures
            started == !is_active(old(self).state(guild)),
            final(self).stepped(*old(self), guild, SessionEvent::Start),
    {
        match self.state_of(guild) {
            SessionState::Idle => {
                self.slots.insert(guild, SessionState::Running);
                true
            },
            _ => false,
        }
    }

    /// Asks the running synchronisation of a guild to stop. Returns whether
    /// there was one.
    pub fn cancel(&mut self, guild: u64) -> (was_active: bool)
        ensures
            was_active == is_active(old(self).state(guild)),
            final(self).stepped(*old(self), guild, SessionEvent::Cancel),
    {
        match self.state_of(guild) {
            SessionState::Idle => false,
            SessionState::Running => {
                self.slots.insert(guild, SessionState::Cancelling);
                true
            },
            SessionState::Cancelling => true,
        }
    }

    /// Whether the synchronisation of a guild has been asked to stop. It is
    /// to ask between two batches of messages.
    pub fn is_cancelled(&self, guild: u64) -> (b: bool)
        ensures
            b == (self.state(guild) == SessionState::Cancelling),
    {
        match self.state_of(guild) {
            SessionState::Cancelling => true,
            _ => false,
        }
    }

    /// Releases the session of a guild at the end of its synchronisation.
    pub fn finish(&mut self, guild: u64, end: SessionEnd)
        ensures
            final(self).state(guild) == SessionState::Idle,
            final(self).stepped(*old(self), guild, SessionEvent::End(end)),
    {
        self.slots.remove(&guild);
    }
}

/// Exclusion: while a session is held, a start changes nothing, whatever
/// was asked for before; only the end of the session frees the guild.
pub proof fn lemma_one_session(s: SessionState)
    requires
        is_active(s),
    ensures
        session_step(s, SessionEvent::Start) == s,
        is_active(session_step(s, SessionEvent::Cancel)),
        forall|end: SessionEnd| !is_active(#[trigger] session_step(s, SessionEvent::End(end))),
{
}

} // verus!
