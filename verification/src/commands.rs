//! The commands of a session, whose names no variable may take.

use crate::chars::same_text;
use crate::store::VariableStore;
use vstd::prelude::*;

verus! {

/// How a session shows a value.
#[derive(Debug, Clone, Copy, PartialEq, Eq, Structural)]
pub enum DisplayMode {
    Binary,
    Decimal,
    Hex,
}

/// A command of the session.
#[derive(Debug, Clone, Copy, PartialEq, Eq, Structural)]
pub enum Command {
    Exit,
    Vars,
    Bin,
    Dec,
    Hex,
    Clear,
}

/// The command that a text names, if it names one.
pub open spec fn command_of(text: Seq<char>) -> Option<Command> {
    if text == "exit"@ {
        Some(Command::Exit)
    } else if text == "vars"@ {
        Some(Command::Vars)
    } else if text == "bin"@ {
        Some(Command::Bin)
    } else if text == "dec"@ {
        Some(Command::Dec)
    } else if text == "hex"@ {
        Some(Command::Hex)
    } else if text == "clear"@ {
        Some(Command::Clear)
    } else {
        None
    }
}

/// The command that `text` names, if it names one. The match is exact: no
/// other case, no surrounding blanks.
pub fn parse_command(text: &str) -> (r: Option<Command>)
    ensures
        r == command_of(text@),
{
    if same_text(text, "exit") {
        Some(Command::Exit)
    } else if same_text(text, "vars") {
        Some(Command::Vars)
    } else if same_text(text, "bin") {
        Some(Command::Bin)
    } else if same_text(text, "dec") {
        Some(Command::Dec)
    } else if same_text(text, "hex") {
        Some(Command::Hex)
    } else if same_text(text, "clear") {
        Some(Command::Clear)
    } else {
        None
    }
}

/// Whether `text` is the name of a command, and so cannot name a variable.
pub open spec fn is_reserved(text: Seq<char>) -> bool {
    command_of(text).is_some()
}

/// Whether `text` is the name of a command.
pub fn is_command_name(text: &str) -> (r: bool)
    ensures
        r == is_reserved(text@),
{
    parse_command(text).is_some()
}

/// The state of a session: how values are shown, and the variables.
#[derive(Debug)]
pub struct RuntimeVariables {
    pub display_mode: DisplayMode,
    pub vars: VariableStore,
}

/// What a command leaves for the caller to do, once the state is changed.
#[derive(Debug, Clone, Copy, PartialEq, Eq, Structural)]
pub enum CommandEffect {
    /// End the session.
    Exit,
    /// Show every variable.
    PrintVariables,
    /// Clear the screen.
    ClearScreen,
    /// Nothing is left to do.
    Done,
}

/// The display mode after a command.
pub open spec fn mode_after(command: Command, mode: DisplayMode) -> DisplayMode {
    match command {
        Command::Bin => DisplayMode::Binary,
        Command::Dec => DisplayMode::Decimal,
        Command::Hex => DisplayMode::Hex,
        _ => mode,
    }
}

/// The variables after a command.
pub open spec fn vars_after_command(command: Command, vars: Map<Seq<char>, int>) -> Map<
    Seq<char>,
    int,
> {
    match command {
        Command::Clear => Map::empty(),
        _ => vars,
    }
}

/// What a command leaves for the caller to do.
pub open spec fn effect_of(command: Command) -> CommandEffect {
    match command {
        Command::Exit => CommandEffect::Exit,
        Command::Vars => CommandEffect::PrintVariables,
        Command::Clear => CommandEffect::ClearScreen,
        _ => CommandEffect::Done,
    }
}

impl RuntimeVariables {
    /// The state at the start of a session: decimal display, no variables.
    pub fn new() -> (state: RuntimeVariables)
        ensures
            state.display_mode == DisplayMode::Decimal,
            state.vars@ == Map::<Seq<char>, int>::empty(),
    {
        RuntimeVariables { display_mode: DisplayMode::Decimal, vars: VariableStore::new() }
    }

    /// Carries out the part of a command that changes the state, and says
    /// what is left for the caller to do.
    pub fn run_command(&mut self, command: Command) -> (effect: CommandEffect)
        ensures
            final(self).display_mode == mode_after(command, old(self).display_mode),
            final(self).vars@ == vars_after_command(command, old(self).vars@),
            effect == effect_of(command),
    {
        match command {
            Command::Exit => CommandEffect::Exit,
            Command::Vars => CommandEffect::PrintVariables,
            Command::Bin => {
                self.display_mode = DisplayMode::Binary;
                CommandEffect::Done
            },
            Command::Dec => {
                self.display_mode = DisplayMode::Decimal;
                CommandEffect::Done
            },
            Command::Hex => {
                self.display_mode = DisplayMode::Hex;
                CommandEffect::Done
            },
            Command::Clear => {
                self.vars.clear();
                CommandEffect::ClearScreen
            },
        }
    }
}

} // verus!
