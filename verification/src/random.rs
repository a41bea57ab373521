//! Injected source of randomness.
//!
//! The generation core never reaches for an ambient generator: every draw
//! goes through a [`RandomSource`] handed in by the caller. A seeded
//! implementation therefore reproduces the exact same skyline, which is how
//! the deterministic tests drive the generator.

use vstd::prelude::*;

verus! {

/// The source-of-randomness capability that the generation core consumes.
///
/// Implementations live outside the verified core (they typically wrap a
/// seeded generator and floating-point trigonometry for the annulus draw);
/// each method's contract states what the core relies on: only ranges and
/// distinctness, never a distribution.
pub trait RandomSource {
    /// Draws a uniformly distributed integer from `[lo, hi)`.
    fn next_in_range(&mut self, lo: u32, hi: u32) -> (r: u32)
        requires
            lo < hi,
        ensures
            lo <= r < hi,
    ;

    /// Draws a uniformly distributed index from `[0, n)`.
    fn next_index(&mut self, n: usize) -> (r: usize)
        requires
            1 <= n,
        ensures
            r < n,
    ;

    /// Draws a lattice offset from a uniformly random angle in `[0, 2*pi)`
    /// and a radius uniform in `[min_distance, 2*min_distance]`, truncated
    /// to integer coordinates; each component is therefore at most
    /// `2*min_distance` in magnitude.
    fn annulus_offset(&mut self, min_distance: u32) -> (r: (i32, i32))
        requires
            1 <= min_distance <= 0x3FFF_FFFF,
        ensures
            -2 * (min_distance as int) <= r.0 <= 2 * (min_distance as int),
            -2 * (min_distance as int) <= r.1 <= 2 * (min_distance as int),
    ;

    /// Chooses `k` distinct indices into a collection of `n` elements,
    /// uniformly and without replacement; when `k >= n` every index is
    /// returned.
    fn choose_indices(&mut self, n: usize, k: usize) -> (r: Vec<usize>)
        ensures
            r@.len() == if k <= n {
                k as int
            } else {
                n as int
            },
            forall|i: int| 0 <= i < r@.len() ==> #[trigger] r@[i] < n,
            forall|i: int, j: int| 0 <= i < j < r@.len() ==> r@[i] != r@[j],
    ;
}

} // verus!
