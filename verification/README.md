# lpb

The verified core of a small robot-arm controller, written in Verus.

- `src/job_dispatcher.rs`: the dispatcher that trickles jobs through three
  bounded rings (jobs, coordinates, poses), with a model of its state and
  laws about the order in which poses leave it.
- `src/refill_laws.rs`: direct statements of what the refills move, in which
  order, and when they can be called without a panic.
- `src/rings.rs`: the three rings, each an `AllocRingBuffer` of the
  `ringbuffer` crate behind trusted wrappers.
- `src/state_server.rs`: the boot state machine and its word splitting.
- `src/ssd1306_driver.rs`: the dot display's frame buffer and refresh chunks.
- `src/shared_types.rs`, `src/unsafe_lib/topic.rs`: command values and samples.
- `app/`: the program around it: argument parsing, JSON and database I/O,
  I2C and GPIO access, and the floating-point kinematics and tracking.
