//! What can keep a value from being sent or received.
use vstd::prelude::*;

verus! {

/// Why a value was not sent. The value is handed back.
#[derive(Debug, PartialEq, Eq)]
pub enum TrySendError<T> {
    /// The slowest stream has to receive something first.
    Full(T),
    /// No stream is left.
    Disconnected(T),
}

/// Why no value was received.
#[derive(Clone, Copy, Debug, PartialEq, Eq, Structural)]
pub enum TryRecvError {
    /// The next value is not there yet.
    Empty,
    /// The next value is not there, and no sender is left.
    Disconnected,
}

/// No value was received, since none is left and no sender is.
#[derive(Clone, Copy, Debug, PartialEq, Eq, Structural)]
pub struct RecvError;

/// Error for sending, when no stream is left. The value is handed back.
#[derive(Debug, PartialEq, Eq)]
pub struct SendError<T>(pub T);

impl<T> SendError<T> {
    /// The value that could not be sent.
    pub fn into_inner(self) -> (res: T)
        ensures
            res == self.0,
    {
        self.0
    }
}

} // verus!
