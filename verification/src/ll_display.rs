//! Low-level operations shared by dot displays.
use vstd::prelude::*;

verus! {

/// A display made of dots that can be set one by one and sent to the device.
pub trait DotDisplay {
    /// Sends the frame buffer to the display at `path`.
    fn refresh(&mut self, path: &str);

    /// Sets the dot at `(x, y)`.
    fn draw_pixel(&mut self, x: i32, y: i32, on: bool);

    /// Prints the frame buffer.
    fn print_fb(&mut self);
}

}
