//! The lifecycle controller: exactly-once startup and exactly-once
//! shutdown of a recording session.

use vstd::prelude::*;

verus! {

/// Why a recording session failed.
#[derive(Debug)]
pub enum ProfileError {
    /// The output sink could not be created or opened.
    StartupIo,
    /// Appending to or flushing the output failed; the stream is
    /// considered terminated at the last record written.
    WriteFailed,
    /// The event stream was malformed: the channel closed while tasks
    /// were still open (starts without matching ends).
    ProtocolViolation,
    /// Shutdown was requested twice.
    DoubleShutdown,
}

/// The lifecycle controller's state: recording has not started, is
/// running, or has been shut down for good. The transition to
/// `Finished` is one-way and exactly-once.
pub enum Lifecycle {
    Idle,
    Running,
    Finished,
}

impl Lifecycle {
    /// A controller that has not started recording yet.
    pub fn new() -> (r: Lifecycle)
        ensures
            r is Idle,
    {
        Lifecycle::Idle
    }

    /// Whether recording is running.
    pub fn is_running(&self) -> (r: bool)
        ensures
            r == (self is Running),
    {
        matches!(self, Lifecycle::Running)
    }

    /// Whether the session has been shut down.
    pub fn is_finished(&self) -> (r: bool)
        ensures
            r == (self is Finished),
    {
        matches!(self, Lifecycle::Finished)
    }

    /// Starts the session if it has not started yet; idempotent while
    /// running. A finished session never restarts: recording after
    /// shutdown stays refused.
    pub fn ensure_started(&mut self) -> (started_now: bool)
        ensures
            (*final(self)) is Running <==> ((*old(self)) is Idle || (*old(self)) is Running),
            (*final(self)) is Finished <==> (*old(self)) is Finished,
            started_now == ((*old(self)) is Idle),
    {
        match self {
            Lifecycle::Idle => {
                *self = Lifecycle::Running;
                true
            },
            _ => false,
        }
    }

    /// Shuts the session down, exactly once: the first call finishes
    /// the session; a second call fails loudly and changes nothing.
    pub fn shutdown(&mut self) -> (r: Result<(), ProfileError>)
        ensures
            (*old(self)) is Finished ==> r == Err::<(), ProfileError>(ProfileError::DoubleShutdown)
                && *final(self) == *old(self),
            !((*old(self)) is Finished) ==> r == Ok::<(), ProfileError>(()) && (*final(self))
                is Finished,
    {
        match self {
            Lifecycle::Finished => Err(ProfileError::DoubleShutdown),
            _ => {
                *self = Lifecycle::Finished;
                Ok(())
            },
        }
    }
}

/// The exactly-once take at the heart of shutdown: the first call
/// hands out what the slot held and empties it; a second call finds
/// it empty and fails loudly, disturbing nothing.
pub fn take_handle<T>(slot: &mut Option<T>) -> (r: Result<T, ProfileError>)
    ensures
        (*old(slot)) is Some ==> r == Ok::<T, ProfileError>((*old(slot))->0),
        (*old(slot)) is None ==> r == Err::<T, ProfileError>(ProfileError::DoubleShutdown),
        (*final(slot)) is None,
{
    match slot.take() {
        Some(h) => Ok(h),
        None => Err(ProfileError::DoubleShutdown),
    }
}

} // verus!
