//! Which filter tool is run, and with which arguments.

use vstd::prelude::*;
use vstd::string::*;

verus! {

/// The settings of one source: the stored ones, or those of the command line.
pub struct TabConfig {
    /// The command of the filter tool.
    pub filter_command: Option<String>,
    /// The arguments handed to the filter tool.
    pub filter_command_args: Option<Vec<String>>,
}

/// The filter tool that is run where nothing else is said.
pub open spec fn default_filter_command() -> Seq<char> {
    "fzf"@
}

impl TabConfig {
    /// Takes over from `other_config` each setting that it holds, and keeps
    /// its own where `other_config` holds none.
    pub fn merge(&mut self, other_config: Self)
        ensures
            final(self).filter_command == if other_config.filter_command is Some {
                other_config.filter_command
            } else {
                old(self).filter_command
            },
            final(self).filter_command_args == if other_config.filter_command_args is Some {
                other_config.filter_command_args
            } else {
                old(self).filter_command_args
            },
    {
        if other_config.filter_command.is_some() {
            self.filter_command = other_config.filter_command;
        }
        if other_config.filter_command_args.is_some() {
            self.filter_command_args = other_config.filter_command_args;
        }
    }
}

impl Default for TabConfig {
    /// The settings where nothing is stored: the default filter tool, with no
    /// arguments.
    fn default() -> (config: Self)
        ensures
            config.filter_command is Some,
            config.filter_command->0@ == default_filter_command(),
            config.filter_command_args is None,
    {
        Self { filter_command: Some(String::from_str("fzf")), filter_command_args: None }
    }
}

} // verus!
