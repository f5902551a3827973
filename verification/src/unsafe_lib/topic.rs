//! The samples exchanged over shared memory between the command-line tool and
//! the controller.
use vstd::prelude::*;
use crate::shared_types::{DbAction, Mode};

verus! {

/// A command sample: a running count and the wire values of a mode and an action.
#[derive(Default, Debug, Clone, Copy, PartialEq, Eq, Structural)]
pub struct Counter {
    pub counter: u32,
    pub mode: u32,
    pub action: u32,
}

/// The controller's answer to a command.
#[derive(Default, Debug, Clone, Copy, PartialEq, Eq, Structural)]
pub struct Response {
    pub result: u32,
}

/// The sample that the command-line tool publishes as its `counter`-th: the
/// wire value of `mode`, and that of `action` or 0 when there is none.
pub fn command_sample(counter: u32, mode: Mode, action: Option<DbAction>) -> (c: Counter)
    ensures
        c.counter == counter,
        c.mode == mode.spec_int_value(),
        c.action == match action {
            Some(a) => a.spec_int_value(),
            None => 0,
        },
{
    let t_action = match action {
        Some(a) => a.int_value(),
        None => 0,
    };
    let t_mode = mode.int_value();
    Counter { counter, mode: t_mode, action: t_action }
}

}
