//! The fatal conditions the launcher can meet. None of them is recovered:
//! each is carried to the top of the invocation, rendered as a
//! human-readable message, and ends the run.

use vstd::prelude::*;
use vstd::string::*;

verus! {

/// A fatal condition of one invocation.
///
/// The library's own functions return only `Argument` and `InvalidPath`;
/// `Configuration` (a required environment value is missing) and `Launch`
/// (the editor process could not be spawned) arise at the edges of the
/// program, which report them with the same messages.
#[derive(Clone, Copy, Debug, PartialEq, Eq, Structural)]
pub enum LauncherError {
    /// A required environment value is missing.
    Configuration,
    /// An option that requires a value was given none.
    Argument,
    /// The project path cannot be decomposed into a usable base name.
    InvalidPath,
    /// The editor process could not be spawned.
    Launch,
}

/// The diagnostic text of a `Configuration` error.
pub open spec fn configuration_message() -> Seq<char> {
    "Missing the TMP env var"@
}

/// The diagnostic text of an `Argument` error.
pub open spec fn argument_message() -> Seq<char> {
    "Target requires a value"@
}

/// The diagnostic text of an `InvalidPath` error.
pub open spec fn invalid_path_message() -> Seq<char> {
    "Not a valid path"@
}

/// The diagnostic text of a `Launch` error.
pub open spec fn launch_message() -> Seq<char> {
    "Failed to launch VsCode"@
}

impl LauncherError {
    /// The human-readable message shown for this condition.
    pub fn message(&self) -> (r: String)
        ensures
            *self == LauncherError::Configuration ==> r@ == configuration_message(),
            *self == LauncherError::Argument ==> r@ == argument_message(),
            *self == LauncherError::InvalidPath ==> r@ == invalid_path_message(),
            *self == LauncherError::Launch ==> r@ == launch_message(),
    {
        match self {
            LauncherError::Configuration => String::from_str("Missing the TMP env var"),
            LauncherError::Argument => String::from_str("Target requires a value"),
            LauncherError::InvalidPath => String::from_str("Not a valid path"),
            LauncherError::Launch => String::from_str("Failed to launch VsCode"),
        }
    }
}

} // verus!
