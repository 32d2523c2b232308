//! The events that are broadcast.

use vstd::prelude::*;

verus! {

/// What kind of state transition an event records.
#[derive(Clone, Copy, Debug, PartialEq, Eq, Structural)]
pub enum EventKind {
    Heartbeat,
    Started,
    Split,
    Reset,
    Paused,
    Resumed,
    SplitUndone,
    SplitSkipped,
}

/// The mathematical value of an [`Event`]: the same variants, with the name
/// of a split as a sequence of characters.
pub enum EventModel {
    Heartbeat { timestamp: u64 },
    Started { timestamp: u64 },
    Split { index: u32, name: Seq<char>, timestamp: u64 },
    Reset { timestamp: u64 },
    Paused { timestamp: u64 },
    Resumed { timestamp: u64 },
    SplitUndone { timestamp: u64 },
    SplitSkipped { timestamp: u64 },
}

impl EventModel {
    /// The kind of the event.
    pub open spec fn kind(self) -> EventKind {
        match self {
            EventModel::Heartbeat { .. } => EventKind::Heartbeat,
            EventModel::Started { .. } => EventKind::Started,
            EventModel::Split { .. } => EventKind::Split,
            EventModel::Reset { .. } => EventKind::Reset,
            EventModel::Paused { .. } => EventKind::Paused,
            EventModel::Resumed { .. } => EventKind::Resumed,
            EventModel::SplitUndone { .. } => EventKind::SplitUndone,
            EventModel::SplitSkipped { .. } => EventKind::SplitSkipped,
        }
    }

    /// Milliseconds since the epoch at which the event was observed.
    pub open spec fn timestamp(self) -> u64 {
        match self {
            EventModel::Heartbeat { timestamp } => timestamp,
            EventModel::Started { timestamp } => timestamp,
            EventModel::Split { timestamp, .. } => timestamp,
            EventModel::Reset { timestamp } => timestamp,
            EventModel::Paused { timestamp } => timestamp,
            EventModel::Resumed { timestamp } => timestamp,
            EventModel::SplitUndone { timestamp } => timestamp,
            EventModel::SplitSkipped { timestamp } => timestamp,
        }
    }
}

/// One observed state transition of the timer, or a keep-alive pulse.
///
/// Every event carries the wall-clock time at which it was observed, in
/// milliseconds since the epoch. An event is made once and never changed;
/// each subscriber gets a copy of its own.
#[derive(Clone, Debug, PartialEq, Eq)]
pub enum Event {
    Heartbeat { timestamp: u64 },
    Started { timestamp: u64 },
    Split { index: u32, name: String, timestamp: u64 },
    Reset { timestamp: u64 },
    Paused { timestamp: u64 },
    Resumed { timestamp: u64 },
    SplitUndone { timestamp: u64 },
    SplitSkipped { timestamp: u64 },
}

impl View for Event {
    type V = EventModel;

    open spec fn view(&self) -> EventModel {
        match self {
            Event::Heartbeat { timestamp } => EventModel::Heartbeat { timestamp: *timestamp },
            Event::Started { timestamp } => EventModel::Started { timestamp: *timestamp },
            Event::Split { index, name, timestamp } => EventModel::Split {
                index: *index,
                name: name@,
                timestamp: *timestamp,
            },
            Event::Reset { timestamp } => EventModel::Reset { timestamp: *timestamp },
            Event::Paused { timestamp } => EventModel::Paused { timestamp: *timestamp },
            Event::Resumed { timestamp } => EventModel::Resumed { timestamp: *timestamp },
            Event::SplitUndone { timestamp } => EventModel::SplitUndone { timestamp: *timestamp },
            Event::SplitSkipped { timestamp } => EventModel::SplitSkipped { timestamp: *timestamp },
        }
    }
}

impl Event {
    /// The kind of the event.
    pub fn kind(&self) -> (kind: EventKind)
        ensures
            kind == self@.kind(),
    {
        match self {
            Event::Heartbeat { .. } => EventKind::Heartbeat,
            Event::Started { .. } => EventKind::Started,
            Event::Split { .. } => EventKind::Split,
            Event::Reset { .. } => EventKind::Reset,
            Event::Paused { .. } => EventKind::Paused,
            Event::Resumed { .. } => EventKind::Resumed,
            Event::SplitUndone { .. } => EventKind::SplitUndone,
            Event::SplitSkipped { .. } => EventKind::SplitSkipped,
        }
    }

    /// Milliseconds since the epoch at which the event was observed.
    pub fn timestamp(&self) -> (timestamp: u64)
        ensures
            timestamp == self@.timestamp(),
    {
        match self {
            Event::Heartbeat { timestamp } => *timestamp,
            Event::Started { timestamp } => *timestamp,
            Event::Split { timestamp, .. } => *timestamp,
            Event::Reset { timestamp } => *timestamp,
            Event::Paused { timestamp } => *timestamp,
            Event::Resumed { timestamp } => *timestamp,
            Event::SplitUndone { timestamp } => *timestamp,
            Event::SplitSkipped { timestamp } => *timestamp,
        }
    }

    /// A copy of the event, for one more subscriber.
    pub fn duplicate(&self) -> (copy: Event)
        ensures
            copy@ == self@,
    {
        match self {
            Event::Heartbeat { timestamp } => Event::Heartbeat { timestamp: *timestamp },
            Event::Started { timestamp } => Event::Started { timestamp: *timestamp },
            Event::Split { index, name, timestamp } => Event::Split {
                index: *index,
                name: name.clone(),
                timestamp: *timestamp,
            },
            Event::Reset { timestamp } => Event::Reset { timestamp: *timestamp },
            Event::Paused { timestamp } => Event::Paused { timestamp: *timestamp },
            Event::Resumed { timestamp } => Event::Resumed { timestamp: *timestamp },
            Event::SplitUndone { timestamp } => Event::SplitUndone { timestamp: *timestamp },
            Event::SplitSkipped { timestamp } => Event::SplitSkipped { timestamp: *timestamp },
        }
    }
}

} // verus!
