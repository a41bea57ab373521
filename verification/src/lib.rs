//! Procedural generation core for an endlessly scrolling city skyline.
//!
//! The crate produces an unbounded, column-by-column stream of building
//! silhouettes (borders and windows) together with the two sampling
//! primitives it depends on: blue-noise point placement (Poisson-disc
//! sampling) and filled-disc rasterization for a decorative moon.
//! Randomness is injected through the [`random::RandomSource`] trait, so a
//! seeded source reproduces the same column sequence.

pub mod color;
pub mod random;
pub mod skyline;
pub mod util;

use vstd::prelude::*;

verus! {

/// Error reported when a configuration parameter is rejected before any
/// generation starts. Generation itself never fails: every such condition
/// is checked eagerly at construction or call time.
#[derive(Clone, Copy, Debug, PartialEq, Eq, Structural)]
pub enum ConfigError {
    /// A range does not hold enough values for the draw it configures: too
    /// few distinct heights for the no-repeat rule, no positive width, an
    /// empty sampling domain, or a zero spacing (under which rejection
    /// sampling would never finish).
    RangeConfiguration,
    /// A parameter is so large that signed coordinate arithmetic could
    /// overflow.
    ArithmeticPrecondition,
}

} // verus!
