//! Declarative description of the bot's chat commands.
//!
//! The command tree itself — registration with the chat platform and
//! dispatch of incoming interactions — lives with the platform bindings;
//! the library only describes the option shapes the commands use.

use vstd::prelude::*;

use crate::activity::ActivityType;

verus! {

/// The value type of a command option, with any fixed choices the type
/// supports.
#[derive(Debug)]
pub enum OptionType {
    /// Free or choice-restricted text; up to 25 choices of (label, value).
    Text(Vec<(String, String)>),
    /// An integer; up to 25 choices of (label, value).
    Integer(Vec<(String, i32)>),
    Boolean,
    User,
    Channel,
    Role,
    Mentionable,
}

/// One option of a chat command.
#[derive(Debug)]
pub struct CommandOption {
    pub name: String,
    pub description: String,
    pub required: bool,
    pub option_type: OptionType,
}

impl CommandOption {
    /// Builds an option description.
    pub fn new(name: String, description: String, required: bool, option_type: OptionType) -> (r:
        CommandOption)
        ensures
            r.name@ == name@,
            r.description@ == description@,
            r.required == required,
    {
        CommandOption { name, description, required, option_type }
    }
}

/// Marker for the per-activity-type create commands.
pub trait LfgCreateActivity {
    /// The activity type the command creates events for.
    fn activity_type(&self) -> ActivityType;
}

/// Manages the bot's chat commands: the set of commands is fixed, so the
/// manager itself carries no state.
#[derive(Debug)]
pub struct CommandManager;

impl CommandManager {
    /// Builds the command manager.
    pub fn new() -> (r: CommandManager)
        ensures
            r == CommandManager,
    {
        CommandManager
    }
}

} // verus!
