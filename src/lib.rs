//! Camera zoom interpolation for a video timeline.
//!
//! Given a playback time, an ordered list of zoom segments and optional cursor
//! data, the engine computes the crop rectangle to show and how far the current
//! zoom transition has progressed. All quantities are fixed-point integers:
//! times are microseconds and coordinates, amounts and progress values are
//! millionths of a unit (see [`fixed`]).

pub mod fixed;
pub mod segment;
pub mod cursor;
pub mod bounds;
pub mod easing;
pub mod zoom;
pub mod flags;
