//! Sending the code of a plugin to Studio.

use vstd::prelude::*;
use vstd::string::StringExecFns;

verus! {

/// How far above the port of the command the plugin in Studio listens.
pub const STUDIO_PORT_OFFSET: u16 = 1000;

/// The port on which the plugin in Studio listens, if there is such a port.
pub open spec fn spec_studio_port(port: u16) -> Option<u16> {
    if port + STUDIO_PORT_OFFSET <= u16::MAX {
        Some((port + STUDIO_PORT_OFFSET) as u16)
    } else {
        None
    }
}

/// The port on which the plugin in Studio listens, if there is such a port.
pub fn studio_port(port: u16) -> (studio: Option<u16>)
    ensures
        studio == spec_studio_port(port),
{
    if port <= u16::MAX - STUDIO_PORT_OFFSET {
        Some(port + STUDIO_PORT_OFFSET)
    } else {
        None
    }
}

/// What came back from Studio for a request.
#[derive(Debug, Clone, PartialEq, Eq)]
pub enum Reply {
    /// The request could not be sent.
    Unreachable,
    /// Studio answered with a status that is no success.
    Refused,
    /// Studio answered with success, and with a body that could not be read.
    Unreadable,
    /// Studio answered with success, and said whether it did what was asked.
    Body { success: bool, error: Option<String> },
}

/// What a request to Studio came to.
#[derive(Debug, Clone, PartialEq, Eq)]
pub enum Outcome {
    /// Studio did what was asked.
    Done,
    /// Studio could not do it, for the reason given.
    Failed(String),
    /// The request arrived; what became of it is not known.
    Sent,
    /// Studio refused the request.
    Refused,
    /// Studio could not be reached.
    Unreachable,
}

/// What a request to Studio came to, with the reason of a failure as characters.
pub enum OutcomeView {
    Done,
    Failed(Seq<char>),
    Sent,
    Refused,
    Unreachable,
}

impl View for Outcome {
    type V = OutcomeView;

    open spec fn view(&self) -> OutcomeView {
        match self {
            Outcome::Done => OutcomeView::Done,
            Outcome::Failed(reason) => OutcomeView::Failed(reason@),
            Outcome::Sent => OutcomeView::Sent,
            Outcome::Refused => OutcomeView::Refused,
            Outcome::Unreachable => OutcomeView::Unreachable,
        }
    }
}

/// What a reply comes to. A failure for which Studio gave no reason has an unknown error
/// for its reason; a body that could not be read after a success counts as sent.
pub open spec fn spec_outcome(reply: Reply) -> OutcomeView {
    match reply {
        Reply::Unreachable => OutcomeView::Unreachable,
        Reply::Refused => OutcomeView::Refused,
        Reply::Unreadable => OutcomeView::Sent,
        Reply::Body { success, error } => if success {
            OutcomeView::Done
        } else {
            OutcomeView::Failed(
                match error {
                    Some(reason) => reason@,
                    None => "Unknown error"@,
                },
            )
        },
    }
}

/// What a reply of Studio comes to.
pub fn outcome(reply: Reply) -> (result: Outcome)
    ensures
        result@ == spec_outcome(reply),
{
    match reply {
        Reply::Unreachable => Outcome::Unreachable,
        Reply::Refused => Outcome::Refused,
        Reply::Unreadable => Outcome::Sent,
        Reply::Body { success, error } => if success {
            Outcome::Done
        } else {
            match error {
                Some(reason) => Outcome::Failed(reason),
                None => Outcome::Failed(String::from_str("Unknown error")),
            }
        },
    }
}

/// Whether Studio is there: it answered the health check with success.
pub fn is_connected(health: &Reply) -> (connected: bool)
    ensures
        connected == !(health is Unreachable || health is Refused),
{
    match health {
        Reply::Unreachable => false,
        Reply::Refused => false,
        _ => true,
    }
}

/// The arguments of the command that sends the code of a plugin to Studio.
#[derive(Debug, Clone, PartialEq, Eq)]
pub struct Sync {
    /// The path of the project.
    pub project: Option<String>,
    /// Whether to watch for changes and send them as they come.
    pub watch: bool,
    /// The port of the command; Studio listens above it.
    pub port: u16,
}

impl Sync {
    /// The port on which the plugin in Studio listens, if there is such a port.
    pub fn studio_port(&self) -> (studio: Option<u16>)
        ensures
            studio == spec_studio_port(self.port),
    {
        studio_port(self.port)
    }
}

} // verus!
