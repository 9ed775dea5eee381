//! Driver commands and logging levels.
use vstd::prelude::*;
use vstd::string::StrSliceExecFns;

verus! {

/// What the driver is asked to do next.
#[derive(Clone, Copy, Debug, PartialEq, Eq, Structural)]
pub enum StepCommand {
    /// "s": step one phase.
    StepPhase,
    /// "t": step one whole turn.
    StepTurn,
    /// "g": run the current match to its end.
    RunGame,
    /// "d": run all matches of the current deck.
    RunDeck,
    /// "r": run everything.
    RunAll,
    /// "q": quit.
    Quit,
    /// Anything else.
    Invalid,
}

/// The command that a line of input names.
pub open spec fn command_of(s: Seq<char>) -> StepCommand {
    if s.len() != 1 {
        StepCommand::Invalid
    } else if s[0] == 's' {
        StepCommand::StepPhase
    } else if s[0] == 't' {
        StepCommand::StepTurn
    } else if s[0] == 'g' {
        StepCommand::RunGame
    } else if s[0] == 'd' {
        StepCommand::RunDeck
    } else if s[0] == 'r' {
        StepCommand::RunAll
    } else if s[0] == 'q' {
        StepCommand::Quit
    } else {
        StepCommand::Invalid
    }
}

pub fn parse_command(input: &str) -> (r: StepCommand)
    ensures
        r == command_of(input@),
{
    if input.unicode_len() != 1 {
        return StepCommand::Invalid;
    }
    let c = input.get_char(0);
    if c == 's' {
        StepCommand::StepPhase
    } else if c == 't' {
        StepCommand::StepTurn
    } else if c == 'g' {
        StepCommand::RunGame
    } else if c == 'd' {
        StepCommand::RunDeck
    } else if c == 'r' {
        StepCommand::RunAll
    } else if c == 'q' {
        StepCommand::Quit
    } else {
        StepCommand::Invalid
    }
}

/// The driver's mode.
pub struct ProgramState {
    pub step_mode: StepCommand,
}

impl ProgramState {
    /// Starts stepping one phase at a time.
    pub fn new() -> (r: ProgramState)
        ensures
            r.step_mode == StepCommand::StepPhase,
    {
        ProgramState { step_mode: StepCommand::StepPhase }
    }
}

/// How much the driver prints, from least to most.
#[derive(Clone, Copy, Debug, PartialEq, Eq, PartialOrd, Ord, Structural)]
pub enum ELoggingVerbosity {
    Error,
    Warning,
    Normal,
    Verbose,
    VeryVerbose,
}

impl ELoggingVerbosity {
    pub open spec fn spec_level(self) -> usize {
        match self {
            ELoggingVerbosity::Error => 0,
            ELoggingVerbosity::Warning => 1,
            ELoggingVerbosity::Normal => 2,
            ELoggingVerbosity::Verbose => 3,
            ELoggingVerbosity::VeryVerbose => 4,
        }
    }

    /// The numeric level, 0 for `Error` up to 4 for `VeryVerbose`.
    pub fn level(&self) -> (r: usize)
        ensures
            r == self.spec_level(),
    {
        match self {
            ELoggingVerbosity::Error => 0,
            ELoggingVerbosity::Warning => 1,
            ELoggingVerbosity::Normal => 2,
            ELoggingVerbosity::Verbose => 3,
            ELoggingVerbosity::VeryVerbose => 4,
        }
    }

    /// The verbosity of a numeric level; levels past 4 are `VeryVerbose`.
    pub fn from_level(level: usize) -> (r: ELoggingVerbosity)
        ensures
            level <= 4 ==> r.spec_level() == level,
            level > 4 ==> r == ELoggingVerbosity::VeryVerbose,
    {
        if level == 0 {
            ELoggingVerbosity::Error
        } else if level == 1 {
            ELoggingVerbosity::Warning
        } else if level == 2 {
            ELoggingVerbosity::Normal
        } else if level == 3 {
            ELoggingVerbosity::Verbose
        } else {
            ELoggingVerbosity::VeryVerbose
        }
    }

    /// Whether a message of `message` level is printed under this verbosity.
    pub fn allows(&self, message: ELoggingVerbosity) -> (r: bool)
        ensures
            r == (message.spec_level() <= self.spec_level()),
    {
        message.level() <= self.level()
    }
}

} // verus!
