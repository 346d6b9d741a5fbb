use vstd::prelude::*;

verus! {

/// Width of the screen in pixels.
pub const WIDTH: usize = 500;

/// Height of the screen in pixels.
pub const HEIGHT: usize = 500;

/// Size of one pixel in bytes (one byte each for red, green and blue).
pub const PX_SIZE: usize = 3;

/// Number of workers the application uses to save and convert frames.
pub const NUM_WORKERS: usize = 8;

} // verus!
