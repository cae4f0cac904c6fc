//! A small image-filtering toolkit: border-aware 2D convolution and the
//! building blocks of Canny's edge detector, over dense row-major grids.
//!
//! Samples are any type implementing [`sample::Sample`]; the library itself
//! provides an exact integer instance, and callers may supply their own.
use vstd::prelude::*;

pub mod grid;
pub mod border;
pub mod sample;
pub mod filter;
pub mod canny;
pub mod hysteresis;
