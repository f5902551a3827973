//! The verified core of a robot-arm controller: the job dispatcher's rings,
//! the boot state machine, the dot display's frame buffer and the command
//! values shared with the command-line tool.
pub mod encoder_interface;
pub mod front_display;
pub mod job_dispatcher;
pub mod refill_laws;
pub mod ll_display;
pub mod rings;
pub mod serialization;
pub mod shared_types;
pub mod ssd1306_driver;
pub mod state_server;
pub mod tracker;
pub mod unsafe_lib;
