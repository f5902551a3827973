//! The commands that the command-line tool publishes to the controller.
use vstd::prelude::*;

verus! {

/// What to do with a stored constellation.
#[derive(Debug, Clone, Copy, PartialEq, Eq, PartialOrd, Ord, Structural)]
pub enum DbAction {
    /// Add
    New,
    /// Unregister
    Remove,
    /// EnQueue
    Queue,
}

/// How the arm moves.
#[derive(Debug, Clone, Copy, PartialEq, Eq, PartialOrd, Ord, Structural)]
pub enum Mode {
    /// Teach some moves
    TorqueFree,
    /// Run swiftly
    Fast,
    /// Crawl slowly but steadily
    Slow,
}

impl DbAction {
    /// The action's wire value: 110, 111 or 112.
    pub open spec fn spec_int_value(self) -> u32 {
        match self {
            DbAction::New => 110,
            DbAction::Remove => 111,
            DbAction::Queue => 112,
        }
    }

    /// The action's wire value.
    pub fn int_value(self) -> (v: u32)
        ensures
            v == self.spec_int_value(),
    {
        match self {
            DbAction::New => 110,
            DbAction::Remove => 111,
            DbAction::Queue => 112,
        }
    }
}

impl Mode {
    /// The mode's wire value: 10, 11 or 12.
    pub open spec fn spec_int_value(self) -> u32 {
        match self {
            Mode::TorqueFree => 10,
            Mode::Fast => 11,
            Mode::Slow => 12,
        }
    }

    /// The mode's wire value.
    pub fn int_value(self) -> (v: u32)
        ensures
            v == self.spec_int_value(),
    {
        match self {
            Mode::TorqueFree => 10,
            Mode::Fast => 11,
            Mode::Slow => 12,
        }
    }
}

/// Distinct actions, and distinct modes, have distinct wire values, and no
/// action shares its value with a mode.
pub proof fn lemma_wire_values_distinct(a: DbAction, b: DbAction, m: Mode, n: Mode)
    ensures
        a.spec_int_value() == b.spec_int_value() ==> a == b,
        m.spec_int_value() == n.spec_int_value() ==> m == n,
        a.spec_int_value() != m.spec_int_value(),
{
}

}
