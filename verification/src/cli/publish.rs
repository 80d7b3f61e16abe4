//! Asking Studio to publish a plugin.

use vstd::prelude::*;

use crate::cli::sync::{spec_studio_port, studio_port};
use crate::path::str_eq;

verus! {

/// Whether an answer to the question before publishing says yes. The answer is expected
/// trimmed and in lower case, as [`confirms`] makes it: `Y` says nothing here.
pub open spec fn spec_is_affirmative(answer: Seq<char>) -> bool {
    answer == "y"@ || answer == "yes"@
}

/// Whether an answer to the question before publishing says yes. The answer is expected
/// trimmed and in lower case, as [`confirms`] makes it: `Y` says nothing here.
pub fn is_affirmative(answer: &str) -> (yes: bool)
    ensures
        yes == spec_is_affirmative(answer@),
{
    str_eq(answer, "y") || str_eq(answer, "yes")
}

/// What `str::trim` makes of a text: the text without the white space around it.
pub uninterp spec fn spec_trimmed(text: Seq<char>) -> Seq<char>;

/// What `str::to_lowercase` makes of a text: the text in lower case.
pub uninterp spec fn spec_lower_case(text: Seq<char>) -> Seq<char>;

/// Calls `str::trim`: the text without the white space around it. The contract names the
/// result `spec_trimmed(text)`; it says nothing of what it is.
#[verifier::external_body]
fn trimmed(text: &str) -> (out: &str)
    ensures
        out@ == spec_trimmed(text@),
{
    text.trim()
}

/// Calls `str::to_lowercase`: the text in lower case. The contract names the result
/// `spec_lower_case(text)`; it says nothing of what it is.
#[verifier::external_body]
fn lower_case(text: &str) -> (out: String)
    ensures
        out@ == spec_lower_case(text@),
{
    text.to_lowercase()
}

/// Whether an answer as it was typed says yes: trimmed and in lower case it is `y` or `yes`.
pub fn confirms(answer: &str) -> (yes: bool)
    ensures
        yes == spec_is_affirmative(spec_lower_case(spec_trimmed(answer@))),
{
    let plain = lower_case(trimmed(answer));
    is_affirmative(plain.as_str())
}

/// The arguments of the command that asks Studio to publish a plugin.
#[derive(Debug, Clone, PartialEq, Eq)]
pub struct Publish {
    /// The path of the project.
    pub project: Option<String>,
    /// The version to publish, in place of the one in the metadata.
    pub version: Option<String>,
    /// The release notes.
    pub notes: Option<String>,
    /// Whether to publish without asking.
    pub yes: bool,
    /// The port of the command; Studio listens above it.
    pub port: u16,
}

impl Publish {
    /// The port on which the plugin in Studio listens, if there is such a port.
    pub fn studio_port(&self) -> (studio: Option<u16>)
        ensures
            studio == spec_studio_port(self.port),
    {
        studio_port(self.port)
    }

    /// Whether to go on and publish: the command says so, or the answer to the question, as
    /// it was typed, does. The question is asked only where the command does not say so.
    pub fn proceeds(&self, answer: Option<&str>) -> (go: bool)
        ensures
            go == (self.yes || match answer {
                Some(text) => spec_is_affirmative(spec_lower_case(spec_trimmed(text@))),
                None => false,
            }),
    {
        if self.yes {
            true
        } else {
            match answer {
                Some(text) => confirms(text),
                None => false,
            }
        }
    }
}

} // verus!
