//! Errors of the target tracker.
use vstd::prelude::*;

verus! {

/// The tracker entity could not be set up.
#[derive(Debug, PartialEq, Eq, Structural)]
pub struct TrackerSetupError;

impl TrackerSetupError {
    /// The error's message.
    pub fn message(&self) -> (m: &'static str)
        ensures
            m@ == "Could not setup tracker entity correctly"@,
    {
        "Could not setup tracker entity correctly"
    }
}

}
