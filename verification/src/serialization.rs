//! The values that the controller reads from and writes to JSON and its
//! database, and the errors of doing so.
use vstd::prelude::*;

verus! {

/// A configuration file could not be parsed.
#[derive(Debug, PartialEq, Eq, Structural)]
pub struct ParseConfigError;

impl ParseConfigError {
    /// The error's message.
    pub fn message(&self) -> (m: &'static str)
        ensures
            m@ == "Could not parse configuration file"@,
    {
        "Could not parse configuration file"
    }
}

/// A database transaction failed.
#[derive(Debug, PartialEq, Eq, Structural)]
pub struct DBTransactionError;

impl DBTransactionError {
    /// The error's message.
    pub fn message(&self) -> (m: &'static str)
        ensures
            m@ == "Could not parse configuration file"@,
    {
        "Could not parse configuration file"
    }
}

/// A stored constellation: a named, timestamped position and rotation.
#[derive(Debug)]
pub struct TimedCoordinates {
    pub name: String,
    pub timestamp: u8,
    pub vector: Vec<i32>,
    pub rotation: Vec<i32>,
}

/// A list of position components as read from or written to JSON.
pub struct SerdeVector {
    pub vectors: Vec<i32>,
}

/// A list of rotation components as read from or written to JSON.
pub struct SerdeRotations {
    rotations: Vec<i32>,
}

impl SerdeRotations {
    /// Rotation components `rotations`.
    pub fn new(rotations: Vec<i32>) -> (r: SerdeRotations)
        ensures
            r.spec_rotations() == rotations@,
    {
        SerdeRotations { rotations }
    }

    /// The rotation components.
    pub closed spec fn spec_rotations(&self) -> Seq<i32> {
        self.rotations@
    }

    /// The rotation components, handed back.
    pub fn into_rotations(self) -> (v: Vec<i32>)
        ensures
            v@ == self.spec_rotations(),
    {
        self.rotations
    }
}

/// The checkbox configuration of the tracker.
#[derive(Debug)]
pub struct CheckboxConfig {
    pub checkbox_enabled: Vec<bool>,
    pub checkbox_types: Vec<String>,
    pub checkbox_vector: Vec<u32>,
    pub checkbox_rotation: Vec<u32>,
}

}
