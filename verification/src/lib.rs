//! Workshop timer logic: durations, segment lists, the countdown state and
//! the text that the overlay shows.

pub mod capture;
pub mod clock;
pub mod duration;
pub mod number;
pub mod overlay;
pub mod screenshot;
pub mod segments;
pub mod text;
pub mod timer;
pub mod laws;
