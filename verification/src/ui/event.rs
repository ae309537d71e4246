//! What the terminal reports, sorted into what the interface reacts to.

use crate::ui::KeyCode;
use vstd::prelude::*;

verus! {

/// How long the interface waits for a key before it draws again, in
/// milliseconds.
pub const TICK_DURATION_MS: u64 = 1_000;

/// What the interface reacts to.
#[derive(Debug, Copy, Clone, PartialEq, Eq, Structural)]
pub enum EventKind {
    Key(KeyCode),
    Tick,
}

/// Why the interface has nothing more to react to.
#[derive(Debug, Clone, PartialEq, Eq)]
pub enum ErrorKind {
    /// The terminal has no more events: the program is to end.
    ExitRequest,
    /// Reading an event failed, with the text of the failure.
    Other(String),
}

/// What came first while the interface waited.
#[derive(Debug, Clone, PartialEq, Eq)]
pub enum Incoming {
    /// The time of a tick passed without an event.
    Tick,
    /// A key was pressed.
    Key(KeyCode),
    /// The terminal had another event, such as a new size.
    Ignored,
    /// Reading an event failed, with the text of the failure.
    Failed(String),
    /// The terminal has no more events.
    Closed,
}

/// Sorts what came in: a tick and a key are events, other events of the
/// terminal are none, and a closed terminal asks for the end of the program.
pub fn next(incoming: Incoming) -> (event: Result<Option<EventKind>, ErrorKind>)
    ensures
        event == match incoming {
            Incoming::Tick => Ok::<Option<EventKind>, ErrorKind>(Some(EventKind::Tick)),
            Incoming::Key(key) => Ok(Some(EventKind::Key(key))),
            Incoming::Ignored => Ok(None),
            Incoming::Failed(text) => Err(ErrorKind::Other(text)),
            Incoming::Closed => Err(ErrorKind::ExitRequest),
        },
{
    match incoming {
        Incoming::Tick => Ok(Some(EventKind::Tick)),
        Incoming::Key(key) => Ok(Some(EventKind::Key(key))),
        Incoming::Ignored => Ok(None),
        Incoming::Failed(text) => Err(ErrorKind::Other(text)),
        Incoming::Closed => Err(ErrorKind::ExitRequest),
    }
}

} // verus!
