//! A verified color-transform engine: builds a discretized color lookup
//! cube that remaps RGB colors onto a fixed target palette, and applies
//! that cube to recolor an image buffer.
#![verifier::loop_isolation(false)]

use vstd::prelude::*;

pub mod color;
pub mod math;
pub mod palette;
pub mod rng;
pub mod generation;
pub mod remap;
pub mod lut;
pub mod correct;
pub mod laws;
pub mod error;

verus! {

} // verus!
