//! Grid logic of the beams screensaver: spotlights sweeping a starfield,
//! dust that lights up in the beams, lens flares on excited stars, and the
//! centred system logo on top.
//!
//! The library works on a terminal grid of `GridCell`s, a `cols` by `rows`
//! field laid out row after row. Each frame is drawn in layers (backdrop,
//! stars with flares, dust, logo); every layer is specified as a function of
//! the grid before it, and the laws of a frame (what stays untouched, what
//! always shows) are proved over those specifications.

use vstd::prelude::*;

pub mod backdrop;
pub mod cell;
pub mod dust;
pub mod flare;
pub mod frame;
pub mod host;
pub mod logo;
pub mod population;
pub mod settings;
pub mod stars;

verus! {
} // verus!
