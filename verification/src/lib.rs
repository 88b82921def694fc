//! The core of an explorer of escape-time fractals: the colour palette and its
//! interpolation, the grid of escape-time values and its histogram, the naming and
//! drawing of images, and the session that ties them together.
//!
//! The library computes on integers and text only. Numbers of the complex plane
//! pass through it as bit patterns; the sampling of the plane is the caller's.

pub mod error;
pub mod filename;
pub mod fractals;
pub mod grid;
pub mod histogram;
pub mod palette;
pub mod position;
pub mod raster;
pub mod settings;
pub mod viewport;
