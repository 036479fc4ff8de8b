// Command dispatcher: maps an incoming slash command to the handler it
// belongs to. Starting a game is rejected while a round is already active
// in the context; everything else is stateless routing. The error taxonomy
// for per-request failures lives here too.

use vstd::prelude::*;

verus! {

/// The slash commands the bot serves.
#[derive(Clone, Copy, Debug, PartialEq, Eq, Structural)]
pub enum Command {
    StartGame,
    Scoreboard,
    Version,
    RaceInfo,
}

/// What the dispatcher decides for one incoming command.
#[derive(Clone, Copy, Debug, PartialEq, Eq, Structural)]
pub enum Action {
    BeginRound,
    RejectAlreadyActive,
    ShowScoreboard,
    ShowVersion,
    ShowRaceInfo,
}

/// Which command a slash-command name denotes, if any.
pub open spec fn spec_parse_command(name: Seq<char>) -> Option<Command> {
    if name == "guessquote"@ {
        Some(Command::StartGame)
    } else if name == "scoreboard"@ {
        Some(Command::Scoreboard)
    } else if name == "version"@ {
        Some(Command::Version)
    } else if name == "f1"@ {
        Some(Command::RaceInfo)
    } else {
        None
    }
}

/// Maps a slash-command name to the command it denotes.
pub fn parse_command(name: &str) -> (c: Option<Command>)
    ensures
        c == spec_parse_command(name@),
{
    let n = name.to_owned();
    if n.eq(&"guessquote".to_owned()) {
        Some(Command::StartGame)
    } else if n.eq(&"scoreboard".to_owned()) {
        Some(Command::Scoreboard)
    } else if n.eq(&"version".to_owned()) {
        Some(Command::Version)
    } else if n.eq(&"f1".to_owned()) {
        Some(Command::RaceInfo)
    } else {
        None
    }
}

/// The routing rule: a new game only when no round is active; the rest is
/// stateless.
pub open spec fn spec_dispatch(cmd: Command, round_active: bool) -> Action {
    match cmd {
        Command::StartGame => if round_active {
            Action::RejectAlreadyActive
        } else {
            Action::BeginRound
        },
        Command::Scoreboard => Action::ShowScoreboard,
        Command::Version => Action::ShowVersion,
        Command::RaceInfo => Action::ShowRaceInfo,
    }
}

/// Routes one command given whether a round is active in the context.
pub fn dispatch_command(cmd: Command, round_active: bool) -> (a: Action)
    ensures
        a == spec_dispatch(cmd, round_active),
{
    match cmd {
        Command::StartGame => {
            if round_active {
                Action::RejectAlreadyActive
            } else {
                Action::BeginRound
            }
        },
        Command::Scoreboard => Action::ShowScoreboard,
        Command::Version => Action::ShowVersion,
        Command::RaceInfo => Action::ShowRaceInfo,
    }
}

/// Per-request failures, caught at the dispatcher boundary and turned into
/// a user-facing message; only configuration failures are fatal, and those
/// never reach this type.
#[derive(Clone, Copy, Debug, PartialEq, Eq, Structural)]
pub enum BotError {
    /// The store could not be read or written.
    Store,
    /// A message could not be sent.
    Transport,
    /// No row matched the request.
    NotFound,
    /// A second round was started in a context with one already active.
    RoundAlreadyActive,
}

impl BotError {
    /// The user-facing text for the failure.
    pub fn user_message(&self) -> (m: &'static str)
        ensures
            *self == BotError::Store ==> m@ == "Sorry, something went wrong talking to the store."@,
            *self == BotError::Transport ==> m@ == "The message could not be sent."@,
            *self == BotError::NotFound ==> m@ == "Nothing matched that request."@,
            *self == BotError::RoundAlreadyActive ==> m@
                == "A round is already running in this channel."@,
    {
        match self {
            BotError::Store => "Sorry, something went wrong talking to the store.",
            BotError::Transport => "The message could not be sent.",
            BotError::NotFound => "Nothing matched that request.",
            BotError::RoundAlreadyActive => "A round is already running in this channel.",
        }
    }
}

/// The archiving filter: an observed message is stored exactly when its
/// timestamp lies strictly between the configured bounds.
pub fn should_archive(timestamp: i64, start: i64, end: i64) -> (r: bool)
    ensures
        r == (start < timestamp && timestamp < end),
{
    start < timestamp && timestamp < end
}

} // verus!
