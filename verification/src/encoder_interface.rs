//! The rotary encoder's GPIO interface.
use vstd::prelude::*;

verus! {

/// The GPIO line of the encoder could not be set up.
#[derive(Debug, PartialEq, Eq, Structural)]
pub struct GPIOConfigError;

impl GPIOConfigError {
    /// The error's message.
    pub fn message(&self) -> (m: &'static str)
        ensures
            m@ == "Unable to setup GPIO"@,
    {
        "Unable to setup GPIO"
    }
}

}
