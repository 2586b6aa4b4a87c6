//! How a child process ended, and the events that report it.

use vstd::prelude::*;

use crate::protocol::{Event, EventV};
use crate::transport::codec::error;

verus! {

/// How a child process ended: a normal exit `code`, or the `signal` that
/// terminated it. Exactly one is `Some` (a signal death carries no exit code),
/// except after a failed spawn, when both are `None`.
#[derive(Debug, PartialEq, Eq)]
pub struct Exit {
    pub code: Option<i32>,
    pub signal: Option<String>,
}

/// How a waited-for child ended: the signal name when a signal terminated it,
/// otherwise its exit code.
pub fn exit_of(signal: Option<String>, exit_code: u32) -> (exit: Exit)
    ensures
        match signal {
            Some(name) => exit.code is None && (exit.signal matches Some(s) && s@ == name@),
            None => exit.code == Some(exit_code as i32) && exit.signal is None,
        },
{
    match signal {
        Some(name) => Exit { code: None, signal: Some(name) },
        None => Exit { code: Some(exit_code as i32), signal: None },
    }
}

/// The exit reported when waiting for the child failed: code -1.
pub fn failed_wait() -> (exit: Exit)
    ensures
        exit.code == Some(-1i32),
        exit.signal is None,
{
    Exit { code: Some(-1), signal: None }
}

/// The `child_exit` event for an exit.
pub fn child_exit_event(exit: Exit) -> (event: Event)
    ensures
        event@ == (EventV::ChildExit {
            code: exit.code,
            signal: match exit.signal {
                Some(s) => Some(s@),
                None => None,
            },
        }),
{
    Event::ChildExit { code: exit.code, signal: exit.signal }
}

/// The events that report a failed spawn: a `spawn` error with the failure's
/// message, then a `child_exit` with neither code nor signal.
pub fn spawn_failure_events(message: String) -> (events: Vec<Event>)
    ensures
        events@.len() == 2,
        events@[0]@ == (EventV::Error { code: "spawn"@, message: message@ }),
        events@[1]@ == (EventV::ChildExit { code: None, signal: None }),
{
    let mut events: Vec<Event> = Vec::new();
    events.push(error("spawn", message));
    events.push(Event::ChildExit { code: None, signal: None });
    events
}

} // verus!
