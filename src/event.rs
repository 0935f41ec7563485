//! What flows between the state machine, the background worker and the input
//! source: operation requests, their results, and key presses.
use vstd::prelude::*;

use crate::nmcli::{ConnectionStatus, Network, SavedNetwork};

verus! {

/// An operation request for the background worker.
pub enum Task {
    /// Scan on a device.
    Scan(String),
    /// Join a network: a non-empty password joins a secured network, an empty
    /// one an open network, none brings up the saved profile.
    Connect(String, Option<String>),
    /// Disconnect a device.
    Disconnect(String),
    /// Delete a saved profile by name.
    Forget(String),
    /// Read the connection status of a device.
    RefreshStatus(String),
    /// List the saved profiles.
    RefreshSaved,
}

/// A request as plain values.
pub enum TaskView {
    Scan(Seq<char>),
    Connect(Seq<char>, Option<Seq<char>>),
    Disconnect(Seq<char>),
    Forget(Seq<char>),
    RefreshStatus(Seq<char>),
    RefreshSaved,
}

impl vstd::prelude::View for Task {
    type V = TaskView;

    open spec fn view(&self) -> TaskView {
        match self {
            Task::Scan(d) => TaskView::Scan(d@),
            Task::Connect(n, p) => TaskView::Connect(
                n@,
                match p {
                    Some(x) => Some(x@),
                    None => None,
                },
            ),
            Task::Disconnect(d) => TaskView::Disconnect(d@),
            Task::Forget(n) => TaskView::Forget(n@),
            Task::RefreshStatus(d) => TaskView::RefreshStatus(d@),
            Task::RefreshSaved => TaskView::RefreshSaved,
        }
    }
}

pub open spec fn task_views(v: Seq<Task>) -> Seq<TaskView> {
    v.map_values(|t: Task| t@)
}

/// The result of one request, success or friendly error.
pub enum TaskResult {
    ScanComplete(Result<Vec<Network>, String>),
    /// The outcome, and the name that was joined (kept for a retry with a password).
    ConnectComplete(Result<String, String>, String),
    DisconnectComplete(Result<String, String>),
    ForgetComplete(Result<String, String>),
    StatusUpdate(ConnectionStatus),
    SavedUpdate(Result<Vec<SavedNetwork>, String>),
}

/// The keys the state machine tells apart.
#[derive(Clone, Copy, Debug, PartialEq, Eq, Structural)]
pub enum Key {
    Char(char),
    Enter,
    Esc,
    Backspace,
    Tab,
    BackTab,
    Up,
    Down,
    Other,
}

/// A key press, and whether Control was held.
#[derive(Clone, Copy, Debug, PartialEq, Eq, Structural)]
pub struct KeyPress {
    pub code: Key,
    pub ctrl: bool,
}

/// The input multiplexer's clock, in milliseconds since it started: the next
/// tick is due at `deadline`, and ticks come every `interval`.
#[derive(Clone, Copy, Debug, PartialEq, Eq, Structural)]
pub struct TickClock {
    pub deadline: u64,
    pub interval: u64,
}

impl TickClock {
    /// A clock started at time 0, whose first tick is due after one interval.
    pub fn new(interval: u64) -> (r: TickClock)
        ensures
            r.deadline == interval,
            r.interval == interval,
    {
        TickClock { deadline: interval, interval }
    }
}

/// How long to wait for a key at time `now`: the time left until the next
/// tick, or nothing once it is due.
pub fn wait_for(clock: &TickClock, now: u64) -> (r: u64)
    ensures
        r == if now < clock.deadline {
            (clock.deadline - now) as u64
        } else {
            0
        },
{
    if now < clock.deadline {
        clock.deadline - now
    } else {
        0
    }
}

/// When a wait ends at `now` (a key came or the time ran out): a tick is due
/// exactly when the deadline has passed, and the deadline then moves on by one
/// interval, so the cadence does not depend on how often keys come.
pub fn after_wait(clock: &TickClock, now: u64) -> (r: (bool, TickClock))
    requires
        clock.deadline + clock.interval <= u64::MAX,
    ensures
        r.0 == (now >= clock.deadline),
        r.1.interval == clock.interval,
        r.1.deadline == if now >= clock.deadline {
            (clock.deadline + clock.interval) as u64
        } else {
            clock.deadline
        },
{
    if now >= clock.deadline {
        (true, TickClock { deadline: clock.deadline + clock.interval, interval: clock.interval })
    } else {
        (false, *clock)
    }
}

} // verus!
