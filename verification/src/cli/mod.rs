//! The commands that deal with a plugin project, and what each of them decides.

use vstd::prelude::*;

pub mod publish;
pub mod sync;
pub mod validate;

verus! {

/// A command with its arguments.
#[derive(Debug, Clone, PartialEq, Eq)]
pub enum Commands {
    /// Checks a plugin before it is published.
    Validate(validate::Validate),
    /// Sends the code of a plugin to Studio.
    Sync(sync::Sync),
    /// Asks Studio to publish a plugin.
    Publish(publish::Publish),
}

impl Commands {
    /// The path of the project that the command is about, if one was given.
    pub open spec fn spec_project(&self) -> Option<Seq<char>> {
        match self {
            Commands::Validate(command) => crate::event::text_view(command.project),
            Commands::Sync(command) => crate::event::text_view(command.project),
            Commands::Publish(command) => crate::event::text_view(command.project),
        }
    }

    /// The path of the project that the command is about, if one was given.
    pub fn project(&self) -> (project: Option<&String>)
        ensures
            match project {
                Some(path) => self.spec_project() == Some(path@),
                None => self.spec_project() is None,
            },
    {
        match self {
            Commands::Validate(command) => command.project.as_ref(),
            Commands::Sync(command) => command.project.as_ref(),
            Commands::Publish(command) => command.project.as_ref(),
        }
    }
}

} // verus!
