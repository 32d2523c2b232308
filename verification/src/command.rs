//! The actions that the timing engine can be asked for.

use vstd::prelude::*;

verus! {

/// Which clock a time is measured by.
#[derive(Clone, Copy, Debug, PartialEq, Eq, Structural)]
pub enum TimingMethod {
    RealTime,
    GameTime,
}

/// A span of time: whole seconds and the nanoseconds on top of them.
#[derive(Clone, Copy, Debug, PartialEq, Eq, Structural)]
pub struct TimeSpan {
    pub seconds: i64,
    pub nanoseconds: i32,
}

/// The mathematical value of a [`Command`].
pub enum CommandModel {
    Start,
    Split,
    SplitOrStart,
    Reset { save_attempt: Option<bool> },
    UndoSplit,
    SkipSplit,
    TogglePauseOrStart,
    Pause,
    Resume,
    UndoAllPauses,
    SwitchToPreviousComparison,
    SwitchToNextComparison,
    SetCurrentComparison { comparison: Seq<char> },
    ToggleTimingMethod,
    SetCurrentTimingMethod { timing_method: TimingMethod },
    InitializeGameTime,
    SetGameTime { time: TimeSpan },
    PauseGameTime,
    ResumeGameTime,
    SetLoadingTimes { time: TimeSpan },
    SetCustomVariable { key: Seq<char>, value: Seq<char> },
}

/// One action, as it is told to the user interface.
#[derive(Clone, Debug, PartialEq, Eq)]
pub enum Command {
    Start,
    Split,
    SplitOrStart,
    Reset { save_attempt: Option<bool> },
    UndoSplit,
    SkipSplit,
    TogglePauseOrStart,
    Pause,
    Resume,
    UndoAllPauses,
    SwitchToPreviousComparison,
    SwitchToNextComparison,
    SetCurrentComparison { comparison: String },
    ToggleTimingMethod,
    SetCurrentTimingMethod { timing_method: TimingMethod },
    InitializeGameTime,
    SetGameTime { time: TimeSpan },
    PauseGameTime,
    ResumeGameTime,
    SetLoadingTimes { time: TimeSpan },
    SetCustomVariable { key: String, value: String },
}

impl View for Command {
    type V = CommandModel;

    open spec fn view(&self) -> CommandModel {
        match self {
            Command::Start => CommandModel::Start,
            Command::Split => CommandModel::Split,
            Command::SplitOrStart => CommandModel::SplitOrStart,
            Command::Reset { save_attempt } => CommandModel::Reset { save_attempt: *save_attempt },
            Command::UndoSplit => CommandModel::UndoSplit,
            Command::SkipSplit => CommandModel::SkipSplit,
            Command::TogglePauseOrStart => CommandModel::TogglePauseOrStart,
            Command::Pause => CommandModel::Pause,
            Command::Resume => CommandModel::Resume,
            Command::UndoAllPauses => CommandModel::UndoAllPauses,
            Command::SwitchToPreviousComparison => CommandModel::SwitchToPreviousComparison,
            Command::SwitchToNextComparison => CommandModel::SwitchToNextComparison,
            Command::SetCurrentComparison { comparison } => CommandModel::SetCurrentComparison {
                comparison: comparison@,
            },
            Command::ToggleTimingMethod => CommandModel::ToggleTimingMethod,
            Command::SetCurrentTimingMethod { timing_method } => {
                CommandModel::SetCurrentTimingMethod { timing_method: *timing_method }
            },
            Command::InitializeGameTime => CommandModel::InitializeGameTime,
            Command::SetGameTime { time } => CommandModel::SetGameTime { time: *time },
            Command::PauseGameTime => CommandModel::PauseGameTime,
            Command::ResumeGameTime => CommandModel::ResumeGameTime,
            Command::SetLoadingTimes { time } => CommandModel::SetLoadingTimes { time: *time },
            Command::SetCustomVariable { key, value } => CommandModel::SetCustomVariable {
                key: key@,
                value: value@,
            },
        }
    }
}

} // verus!
