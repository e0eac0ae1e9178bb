//! The life of a server: how it starts, and how it is stopped once.

use vstd::prelude::*;

verus! {

/// The port of the loopback address on which a server listens by default.
pub const DEFAULT_PORT: u16 = 50051;

/// How many seconds a command waits for the engine's acknowledgement by default.
pub const DEFAULT_COMMAND_TIMEOUT_SECS: u64 = 5;

/// How many seconds a server that shuts down waits for its connections to drain
/// before it forces them closed. Without this bound, a client that never closes
/// its connection would make the shutdown hang forever.
pub const SHUTDOWN_GRACE_PERIOD_SECS: u64 = 2;

/// Why a server did not come up.
#[derive(Debug, PartialEq, Eq)]
pub enum NotReady<E> {
    /// It reported a failure.
    Failed(E),
    /// Its thread ended without a report.
    Exited,
}

/// What the report of a server's thread comes to; there is none when the thread
/// ended before it could make one.
pub fn readiness<A, E>(report: Option<Result<A, E>>) -> (ready: Result<A, NotReady<E>>)
    ensures
        ready == match report {
            Some(Ok(address)) => Ok::<A, NotReady<E>>(address),
            Some(Err(failure)) => Err(NotReady::Failed(failure)),
            None => Err(NotReady::Exited),
        },
{
    match report {
        Some(Ok(address)) => Ok(address),
        Some(Err(failure)) => Err(NotReady::Failed(failure)),
        None => Err(NotReady::Exited),
    }
}

/// What it takes to stop a running server: a signal to give and a thread to wait
/// for, each good for one use.
#[derive(Debug)]
pub struct Lifecycle<T, H> {
    signal: Option<T>,
    thread: Option<H>,
}

impl<T, H> Lifecycle<T, H> {
    pub closed spec fn signal_left(&self) -> Option<T> {
        self.signal
    }

    pub closed spec fn thread_left(&self) -> Option<H> {
        self.thread
    }

    /// The life of a server that was just started.
    pub fn started(signal: T, thread: H) -> (life: Self)
        ensures
            life.signal_left() == Some(signal),
            life.thread_left() == Some(thread),
    {
        Lifecycle { signal: Some(signal), thread: Some(thread) }
    }

    /// Hands out what is left to stop the server: all of it at the first call,
    /// nothing at any later one.
    pub fn stop(&mut self) -> (left: (Option<T>, Option<H>))
        ensures
            left == (old(self).signal_left(), old(self).thread_left()),
            final(self).signal_left() is None,
            final(self).thread_left() is None,
    {
        (self.signal.take(), self.thread.take())
    }
}

/// Law: unless told otherwise a server listens on port 50051 and gives a command five
/// seconds; when it shuts down it gives its connections two.
pub proof fn law_defaults()
    ensures
        DEFAULT_PORT == 50051,
        DEFAULT_COMMAND_TIMEOUT_SECS == 5,
        SHUTDOWN_GRACE_PERIOD_SECS == 2,
        crate::services::group::SUBSCRIBER_CHANNEL_CAPACITY == 16,
        crate::state::BROADCAST_CAPACITY == 256,
{
}

} // verus!
