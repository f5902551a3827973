//! The front display of the controller.
use vstd::prelude::*;

verus! {

/// The I2C device of the front display could not be reached.
#[derive(Debug, PartialEq, Eq, Structural)]
pub struct FrontDisplayError;

impl FrontDisplayError {
    /// The error's message.
    pub fn message(&self) -> (m: &'static str)
        ensures
            m@ == "Could not access I2C-Device"@,
    {
        "Could not access I2C-Device"
    }
}

/// The front display. Font loading and printing do nothing yet.
pub struct FrontDisplay {}

impl FrontDisplay {
    /// Loads the display's font; does nothing.
    pub fn load_font() {
    }

    /// Prints a line; does nothing.
    pub fn println() {
    }

    /// Prints one character; does nothing.
    fn print_char(c: char) {
    }
}

}
