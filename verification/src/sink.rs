//! The command sink: where an action of the timing engine becomes a
//! notification for the user interface and an event for the network.
//!
//! The timing engine calls one operation for each action. Every operation
//! returns the [`Command`] that is to be forwarded to the user interface.
//! Where the action is one of the state transitions that subscribers are
//! told of, the operation also publishes the [`Event`] on the bus, stamped
//! with the time that the caller gives. A sink that was made without the
//! broadcast publishes nothing.
//!
//! | action | event |
//! |---|---|
//! | start | `Started` |
//! | split, split or start | `Split`, with the index and the name of the current split |
//! | reset | `Reset` |
//! | undo split | `SplitUndone` |
//! | skip split | `SplitSkipped` |
//! | pause | `Paused` |
//! | resume | `Resumed` |
//! | any other | none |

use crate::bus::{BusModel, EventBus};
use crate::command::{Command, CommandModel, TimeSpan, TimingMethod};
use crate::event::{Event, EventModel};
use vstd::prelude::*;

verus! {

/// The event that subscribers are told of when `command` is carried out at
/// the time `now`, while the split with the given index and name is the
/// current one.
pub open spec fn event_of(command: CommandModel, index: u32, name: Seq<char>, now: u64) -> Option<
    EventModel,
> {
    match command {
        CommandModel::Start => Some(EventModel::Started { timestamp: now }),
        CommandModel::Split => Some(EventModel::Split { index, name, timestamp: now }),
        CommandModel::SplitOrStart => Some(EventModel::Split { index, name, timestamp: now }),
        CommandModel::Reset { .. } => Some(EventModel::Reset { timestamp: now }),
        CommandModel::UndoSplit => Some(EventModel::SplitUndone { timestamp: now }),
        CommandModel::SkipSplit => Some(EventModel::SplitSkipped { timestamp: now }),
        CommandModel::Pause => Some(EventModel::Paused { timestamp: now }),
        CommandModel::Resume => Some(EventModel::Resumed { timestamp: now }),
        _ => None,
    }
}

/// The bus after a sink has carried out an action whose event is `event`.
pub open spec fn broadcast(enabled: bool, bus: BusModel, event: Option<EventModel>) -> BusModel {
    match event {
        Some(e) => if enabled {
            bus.publish(e)
        } else {
            bus
        },
        None => bus,
    }
}

/// How many subscribers were handed the event of an action.
pub open spec fn reached(enabled: bool, bus: BusModel, event: Option<EventModel>) -> nat {
    if enabled && event is Some && !bus.closed {
        bus.subscribers.len()
    } else {
        0
    }
}

/// What became of one action.
#[derive(Debug, PartialEq, Eq)]
pub struct Dispatch {
    /// What is to be forwarded to the user interface.
    pub notification: Command,
    /// How many subscribers were handed the event of the action.
    pub receivers: usize,
}

/// The event that subscribers are told of when `command` is carried out.
pub fn event_for(command: &Command, index: u32, name: &str, now: u64) -> (event: Option<Event>)
    ensures
        match event {
            Some(e) => event_of(command@, index, name@, now) == Some(e@),
            None => event_of(command@, index, name@, now) is None,
        },
{
    match command {
        Command::Start => Some(Event::Started { timestamp: now }),
        Command::Split => Some(Event::Split { index, name: name.to_owned(), timestamp: now }),
        Command::SplitOrStart => Some(
            Event::Split { index, name: name.to_owned(), timestamp: now },
        ),
        Command::Reset { .. } => Some(Event::Reset { timestamp: now }),
        Command::UndoSplit => Some(Event::SplitUndone { timestamp: now }),
        Command::SkipSplit => Some(Event::SplitSkipped { timestamp: now }),
        Command::Pause => Some(Event::Paused { timestamp: now }),
        Command::Resume => Some(Event::Resumed { timestamp: now }),
        _ => None,
    }
}

/// The bridge between the timing engine, the user interface and the bus.
#[derive(Clone, Copy, Debug, PartialEq, Eq)]
pub struct CommandSink {
    enabled: bool,
}

impl CommandSink {
    /// Whether the sink publishes events.
    pub closed spec fn broadcasts(&self) -> bool {
        self.enabled
    }

    /// A sink that publishes events on the bus it is handed, if
    /// `broadcast` says so, and only notifies the user interface if not.
    pub fn new(broadcast: bool) -> (sink: CommandSink)
        ensures
            sink.broadcasts() == broadcast,
    {
        CommandSink { enabled: broadcast }
    }

    /// Whether the sink publishes events.
    pub fn is_broadcasting(&self) -> (enabled: bool)
        ensures
            enabled == self.broadcasts(),
    {
        self.enabled
    }

    /// Carries out `command` at the time `now`, while the split with the
    /// given index and name is the current one: publishes its event, if it
    /// has one, and returns the command for the user interface.
    pub fn dispatch(
        &self,
        bus: &mut EventBus,
        command: Command,
        index: u32,
        name: &str,
        now: u64,
    ) -> (done: Dispatch)
        requires
            old(bus).wf(),
        ensures
            final(bus).wf(),
            done.notification@ == command@,
            final(bus)@ == broadcast(
                self.broadcasts(),
                old(bus)@,
                event_of(command@, index, name@, now),
            ),
            done.receivers == reached(
                self.broadcasts(),
                old(bus)@,
                event_of(command@, index, name@, now),
            ),
    {
        let receivers = if self.enabled {
            match event_for(&command, index, name, now) {
                Some(event) => bus.publish(&event),
                None => 0,
            }
        } else {
            0
        };
        Dispatch { notification: command, receivers }
    }

    /// The timer is started.
    pub fn start(&self, bus: &mut EventBus, now: u64) -> (done: Dispatch)
        requires
            old(bus).wf(),
        ensures
            final(bus).wf(),
            done.notification@ == CommandModel::Start,
            final(bus)@ == broadcast(
                self.broadcasts(),
                old(bus)@,
                Some(EventModel::Started { timestamp: now }),
            ),
            done.receivers == reached(
                self.broadcasts(),
                old(bus)@,
                Some(EventModel::Started { timestamp: now }),
            ),
    {
        self.dispatch(bus, Command::Start, 0, "", now)
    }

    /// The current split, with the given index and name, is completed.
    pub fn split(&self, bus: &mut EventBus, index: u32, name: &str, now: u64) -> (done: Dispatch)
        requires
            old(bus).wf(),
        ensures
            final(bus).wf(),
            done.notification@ == CommandModel::Split,
            final(bus)@ == broadcast(
                self.broadcasts(),
                old(bus)@,
                Some(EventModel::Split { index, name: name@, timestamp: now }),
            ),
            done.receivers == reached(
                self.broadcasts(),
                old(bus)@,
                Some(EventModel::Split { index, name: name@, timestamp: now }),
            ),
    {
        self.dispatch(bus, Command::Split, index, name, now)
    }

    /// The current split, with the given index and name, is completed, or
    /// the timer is started if it does not run.
    pub fn split_or_start(&self, bus: &mut EventBus, index: u32, name: &str, now: u64) -> (done:
        Dispatch)
        requires
            old(bus).wf(),
        ensures
            final(bus).wf(),
            done.notification@ == CommandModel::SplitOrStart,
            final(bus)@ == broadcast(
                self.broadcasts(),
                old(bus)@,
                Some(EventModel::Split { index, name: name@, timestamp: now }),
            ),
            done.receivers == reached(
                self.broadcasts(),
                old(bus)@,
                Some(EventModel::Split { index, name: name@, timestamp: now }),
            ),
    {
        self.dispatch(bus, Command::SplitOrStart, index, name, now)
    }

    /// The attempt is reset, and kept or not as `save_attempt` says.
    pub fn reset(&self, bus: &mut EventBus, save_attempt: Option<bool>, now: u64) -> (done:
        Dispatch)
        requires
            old(bus).wf(),
        ensures
            final(bus).wf(),
            done.notification@ == (CommandModel::Reset { save_attempt }),
            final(bus)@ == broadcast(
                self.broadcasts(),
                old(bus)@,
                Some(EventModel::Reset { timestamp: now }),
            ),
            done.receivers == reached(
                self.broadcasts(),
                old(bus)@,
                Some(EventModel::Reset { timestamp: now }),
            ),
    {
        self.dispatch(bus, Command::Reset { save_attempt }, 0, "", now)
    }

    /// The last split is undone.
    pub fn undo_split(&self, bus: &mut EventBus, now: u64) -> (done: Dispatch)
        requires
            old(bus).wf(),
        ensures
            final(bus).wf(),
            done.notification@ == CommandModel::UndoSplit,
            final(bus)@ == broadcast(
                self.broadcasts(),
                old(bus)@,
                Some(EventModel::SplitUndone { timestamp: now }),
            ),
            done.receivers == reached(
                self.broadcasts(),
                old(bus)@,
                Some(EventModel::SplitUndone { timestamp: now }),
            ),
    {
        self.dispatch(bus, Command::UndoSplit, 0, "", now)
    }

    /// The current split is skipped.
    pub fn skip_split(&self, bus: &mut EventBus, now: u64) -> (done: Dispatch)
        requires
            old(bus).wf(),
        ensures
            final(bus).wf(),
            done.notification@ == CommandModel::SkipSplit,
            final(bus)@ == broadcast(
                self.broadcasts(),
                old(bus)@,
                Some(EventModel::SplitSkipped { timestamp: now }),
            ),
            done.receivers == reached(
                self.broadcasts(),
                old(bus)@,
                Some(EventModel::SplitSkipped { timestamp: now }),
            ),
    {
        self.dispatch(bus, Command::SkipSplit, 0, "", now)
    }

    /// The timer is paused.
    pub fn pause(&self, bus: &mut EventBus, now: u64) -> (done: Dispatch)
        requires
            old(bus).wf(),
        ensures
            final(bus).wf(),
            done.notification@ == CommandModel::Pause,
            final(bus)@ == broadcast(
                self.broadcasts(),
                old(bus)@,
                Some(EventModel::Paused { timestamp: now }),
            ),
            done.receivers == reached(
                self.broadcasts(),
                old(bus)@,
                Some(EventModel::Paused { timestamp: now }),
            ),
    {
        self.dispatch(bus, Command::Pause, 0, "", now)
    }

    /// The timer is resumed.
    pub fn resume(&self, bus: &mut EventBus, now: u64) -> (done: Dispatch)
        requires
            old(bus).wf(),
        ensures
            final(bus).wf(),
            done.notification@ == CommandModel::Resume,
            final(bus)@ == broadcast(
                self.broadcasts(),
                old(bus)@,
                Some(EventModel::Resumed { timestamp: now }),
            ),
            done.receivers == reached(
                self.broadcasts(),
                old(bus)@,
                Some(EventModel::Resumed { timestamp: now }),
            ),
    {
        self.dispatch(bus, Command::Resume, 0, "", now)
    }

    /// The timer is paused if it runs, resumed if it is paused, and started
    /// if it does not run. Which of the three happens is for the timing
    /// engine to say: the sink publishes nothing.
    pub fn toggle_pause_or_start(&self) -> (notification: Command)
        ensures
            notification@ == CommandModel::TogglePauseOrStart,
    {
        Command::TogglePauseOrStart
    }

    /// All pauses of the attempt are undone.
    pub fn undo_all_pauses(&self) -> (notification: Command)
        ensures
            notification@ == CommandModel::UndoAllPauses,
    {
        Command::UndoAllPauses
    }

    /// The comparison before the current one is chosen.
    pub fn switch_to_previous_comparison(&self) -> (notification: Command)
        ensures
            notification@ == CommandModel::SwitchToPreviousComparison,
    {
        Command::SwitchToPreviousComparison
    }

    /// The comparison after the current one is chosen.
    pub fn switch_to_next_comparison(&self) -> (notification: Command)
        ensures
            notification@ == CommandModel::SwitchToNextComparison,
    {
        Command::SwitchToNextComparison
    }

    /// The comparison of the given name is chosen.
    pub fn set_current_comparison(&self, comparison: &str) -> (notification: Command)
        ensures
            notification@ == (CommandModel::SetCurrentComparison { comparison: comparison@ }),
    {
        Command::SetCurrentComparison { comparison: comparison.to_owned() }
    }

    /// The other timing method is chosen.
    pub fn toggle_timing_method(&self) -> (notification: Command)
        ensures
            notification@ == CommandModel::ToggleTimingMethod,
    {
        Command::ToggleTimingMethod
    }

    /// The given timing method is chosen.
    pub fn set_current_timing_method(&self, method: TimingMethod) -> (notification: Command)
        ensures
            notification@ == (CommandModel::SetCurrentTimingMethod { timing_method: method }),
    {
        Command::SetCurrentTimingMethod { timing_method: method }
    }

    /// The game time is set up.
    pub fn initialize_game_time(&self) -> (notification: Command)
        ensures
            notification@ == CommandModel::InitializeGameTime,
    {
        Command::InitializeGameTime
    }

    /// The game time is set.
    pub fn set_game_time(&self, time: TimeSpan) -> (notification: Command)
        ensures
            notification@ == (CommandModel::SetGameTime { time }),
    {
        Command::SetGameTime { time }
    }

    /// The game time is paused.
    pub fn pause_game_time(&self) -> (notification: Command)
        ensures
            notification@ == CommandModel::PauseGameTime,
    {
        Command::PauseGameTime
    }

    /// The game time is resumed.
    pub fn resume_game_time(&self) -> (notification: Command)
        ensures
            notification@ == CommandModel::ResumeGameTime,
    {
        Command::ResumeGameTime
    }

    /// The loading times are set.
    pub fn set_loading_times(&self, time: TimeSpan) -> (notification: Command)
        ensures
            notification@ == (CommandModel::SetLoadingTimes { time }),
    {
        Command::SetLoadingTimes { time }
    }

    /// A custom variable is set.
    pub fn set_custom_variable(&self, key: &str, value: &str) -> (notification: Command)
        ensures
            notification@ == (CommandModel::SetCustomVariable { key: key@, value: value@ }),
    {
        Command::SetCustomVariable { key: key.to_owned(), value: value.to_owned() }
    }
}

} // verus!
