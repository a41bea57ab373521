//! Building silhouettes, their rasterization into pixel columns, and the
//! continuous skyline column stream.

use core::ops::Range;

use vstd::prelude::*;

use crate::random::RandomSource;
use crate::util::dist2;
use crate::util::points_spaced;
use crate::util::sample_poisson_disc_2d;
use crate::ConfigError;

verus! {

/// One cell of a rasterized column.
#[derive(Clone, Copy, Debug, PartialEq, Eq, Structural)]
pub enum Pixel {
    Background,
    Border,
    Window,
}

/// Whether a window lies strictly inside a building's interior: not on the
/// two outer border columns, not on the rooftop row, and within the height.
pub open spec fn window_in_interior(w: (u32, u32), height: u32, width: u32) -> bool {
    &&& 1 <= w.0
    &&& w.0 + 1 < width
    &&& 1 <= w.1
    &&& w.1 < height
}

/// One generated building: a silhouette of `height` rows by `width` columns
/// with windows at the recorded `(column, row)` positions.
#[derive(Debug)]
pub struct Building {
    pub height: u32,
    pub width: u32,
    pub windows: Vec<(u32, u32)>,
}

/// Whether one of the first `upto` windows sits at `(col, row)`.
pub open spec fn has_window_upto(windows: Seq<(u32, u32)>, col: int, row: int, upto: int) -> bool {
    exists|i: int| 0 <= i < upto && windows[i].0 == col && windows[i].1 == row
}

/// Taking one more window into account changes nothing at a cell that the
/// newly considered window does not sit on.
proof fn lemma_window_prefix_step(windows: Seq<(u32, u32)>, col: int, row: int, k: int)
    requires
        0 <= k < windows.len(),
        !(windows[k].0 == col && windows[k].1 == row),
    ensures
        has_window_upto(windows, col, row, k + 1) == has_window_upto(windows, col, row, k),
{
    if has_window_upto(windows, col, row, k + 1) {
        let i = choose|i: int| 0 <= i < k + 1 && windows[i].0 == col && windows[i].1 == row;
        assert(i < k);
        assert(has_window_upto(windows, col, row, k));
    }
    if has_window_upto(windows, col, row, k) {
        let i = choose|i: int| 0 <= i < k && windows[i].0 == col && windows[i].1 == row;
        assert(has_window_upto(windows, col, row, k + 1));
    }
}

/// The pixel that column `col` of building `b` holds at `row`, once the
/// first `upto` windows have been drawn.
pub open spec fn cell_spec(b: Building, col: int, row: int, upto: int) -> Pixel {
    if col == 0 || col == b.width - 1 {
        Pixel::Border
    } else if row == 0 {
        Pixel::Border
    } else if has_window_upto(b.windows@, col, row, upto) {
        Pixel::Window
    } else {
        Pixel::Background
    }
}

/// The finished pixel column `col` of building `b`: empty for a building of
/// height zero; otherwise the two outer columns are all border, and interior
/// columns carry the rooftop border at row zero, a window where one is
/// recorded, and background everywhere else.
pub open spec fn column_spec(b: Building, col: int) -> Seq<Pixel> {
    if b.height == 0 {
        Seq::empty()
    } else {
        Seq::new(b.height as nat, |row: int| cell_spec(b, col, row, b.windows@.len() as int))
    }
}

impl Building {
    /// Whether every recorded window lies strictly inside the interior.
    pub open spec fn wf(self) -> bool {
        forall|i: int|
            0 <= i < self.windows@.len() ==> window_in_interior(
                #[trigger] self.windows@[i],
                self.height,
                self.width,
            )
    }

    pub fn new(height: u32, width: u32, windows: Vec<(u32, u32)>) -> (b: Building)
        requires
            forall|i: int|
                0 <= i < windows@.len() ==> window_in_interior(
                    #[trigger] windows@[i],
                    height,
                    width,
                ),
        ensures
            b.height == height,
            b.width == width,
            b.windows@ == windows@,
            b.wf(),
    {
        Building { height, width, windows }
    }

    /// Rasterizes one column of the building.
    pub fn column(&self, col: u32) -> (pixels: Vec<Pixel>)
        requires
            self.wf(),
            col < self.width,
        ensures
            pixels@ == column_spec(*self, col as int),
    {
        let mut pixels: Vec<Pixel> = Vec::new();
        if self.height == 0 {
            proof {
                assert(pixels@ =~= column_spec(*self, col as int));
            }
            return pixels;
        }
        let border = col == 0 || col == self.width - 1;
        let mut row: u32 = 0;
        while row < self.height
            invariant
                self.wf(),
                col < self.width,
                0 < self.height,
                row <= self.height,
                border == (col == 0 || col == self.width - 1),
                pixels@.len() == row as int,
                forall|r: int|
                    0 <= r < row as int ==> #[trigger] pixels@[r] == cell_spec(
                        *self,
                        col as int,
                        r,
                        0,
                    ),
            decreases self.height - row,
        {
            if border || row == 0 {
                pixels.push(Pixel::Border);
            } else {
                pixels.push(Pixel::Background);
            }
            row = row + 1;
        }
        let mut k: usize = 0;
        while k < self.windows.len()
            invariant
                self.wf(),
                col < self.width,
                0 < self.height,
                k <= self.windows@.len(),
                pixels@.len() == self.height as int,
                forall|r: int|
                    0 <= r < pixels@.len() ==> #[trigger] pixels@[r] == cell_spec(
                        *self,
                        col as int,
                        r,
                        k as int,
                    ),
            decreases self.windows@.len() - k,
        {
            let w = self.windows[k];
            if w.0 == col {
                let ghost old_pixels = pixels@;
                pixels[w.1 as usize] = Pixel::Window;
                proof {
                    assert forall|r: int| 0 <= r < pixels@.len() implies #[trigger] pixels@[r]
                        == cell_spec(*self, col as int, r, k as int + 1) by {
                        if r == w.1 as int {
                            assert(self.windows@[k as int].0 == col as int);
                            assert(has_window_upto(self.windows@, col as int, r, k as int + 1));
                        } else {
                            assert(pixels@[r] == old_pixels[r]);
                            lemma_window_prefix_step(self.windows@, col as int, r, k as int);
                        }
                    }
                }
            } else {
                proof {
                    assert forall|r: int| 0 <= r < pixels@.len() implies #[trigger] pixels@[r]
                        == cell_spec(*self, col as int, r, k as int + 1) by {
                        lemma_window_prefix_step(self.windows@, col as int, r, k as int);
                    }
                }
            }
            k = k + 1;
        }
        proof {
            assert(pixels@ =~= column_spec(*self, col as int));
        }
        pixels
    }

    /// Rasterizes the whole building, one column per width unit, left to
    /// right.
    pub fn iter_columns(self) -> (columns: Vec<Vec<Pixel>>)
        requires
            self.wf(),
        ensures
            columns@.len() == self.width as int,
            forall|c: int|
                0 <= c < columns@.len() ==> #[trigger] columns@[c]@ == column_spec(self, c),
    {
        let mut columns: Vec<Vec<Pixel>> = Vec::new();
        let mut c: u32 = 0;
        while c < self.width
            invariant
                self.wf(),
                c <= self.width,
                columns@.len() == c as int,
                forall|k: int|
                    0 <= k < c as int ==> #[trigger] columns@[k]@ == column_spec(self, k),
            decreases self.width - c,
        {
            let col = self.column(c);
            columns.push(col);
            c = c + 1;
        }
        columns
    }
}

/// Whether both draw ranges hold enough values: the height range at least
/// two distinct ones (the no-repeat rule needs an alternative) and the
/// width range at least one positive width — a zero-width building would
/// contribute no column at all, and a stream of such buildings would never
/// have a next column to offer.
pub open spec fn ranges_ok(height_range: Range<u32>, width_range: Range<u32>) -> bool {
    &&& height_range.start + 2 <= height_range.end
    &&& 1 <= width_range.start
    &&& width_range.start < width_range.end
}

/// The error reported for a rejected generator configuration: too few
/// heights, an empty or zero-touching width range, or a zero window
/// spacing (under which window sampling would never finish) are
/// configuration problems; an oversize bound is an overflow risk.
pub open spec fn generator_error(
    height_range: Range<u32>,
    width_range: Range<u32>,
    min_window_distance: u32,
) -> ConfigError {
    if !ranges_ok(height_range, width_range) || min_window_distance == 0 {
        ConfigError::RangeConfiguration
    } else {
        ConfigError::ArithmeticPrecondition
    }
}

/// Whether the configured bounds keep the window sampler's coordinate
/// arithmetic within signed 32-bit range for every drawable building size.
pub open spec fn generator_arith_ok(
    height_hi: u32,
    width_hi: u32,
    min_window_distance: u32,
) -> bool {
    &&& min_window_distance <= 0x3FFF_FFFF
    &&& width_hi - 5 <= 0x7FFF_FFFF
    &&& height_hi - 4 <= 0x7FFF_FFFF
}

/// An endless producer of random buildings: each building's height is drawn
/// under the no-immediate-repeat rule, its width independently, and its
/// windows by Poisson-disc sampling over the inset interior.
pub struct RandomBuildingGenerator<R: RandomSource> {
    pub height_lo: u32,
    pub height_hi: u32,
    pub width_lo: u32,
    pub width_hi: u32,
    pub max_windows: usize,
    pub min_window_distance: u32,
    pub previous_height: u32,
    pub rng: R,
}

impl<R: RandomSource> RandomBuildingGenerator<R> {
    /// Whether the configuration was validated: enough distinct heights for
    /// the no-repeat rule, positive widths, a positive spacing, and bounds
    /// small enough for the sampler's signed arithmetic.
    pub open spec fn wf(self) -> bool {
        &&& self.height_lo + 2 <= self.height_hi
        &&& 1 <= self.width_lo
        &&& self.width_lo < self.width_hi
        &&& 1 <= self.min_window_distance
        &&& generator_arith_ok(self.height_hi, self.width_hi, self.min_window_distance)
    }

    /// Whether `other` carries the same configuration: everything except the
    /// random state and the previously emitted height.
    pub open spec fn same_config(self, other: Self) -> bool {
        &&& self.height_lo == other.height_lo
        &&& self.height_hi == other.height_hi
        &&& self.width_lo == other.width_lo
        &&& self.width_hi == other.width_hi
        &&& self.max_windows == other.max_windows
        &&& self.min_window_distance == other.min_window_distance
    }

    /// Validates the configuration eagerly and builds the generator; after
    /// a successful construction, generation itself can no longer fail.
    pub fn new(
        height_range: Range<u32>,
        width_range: Range<u32>,
        max_windows: usize,
        min_window_distance: u32,
        rng: R,
    ) -> (result: Result<Self, ConfigError>)
        ensures
            match result {
                Ok(g) => {
                    &&& ranges_ok(height_range, width_range)
                    &&& 1 <= min_window_distance
                    &&& generator_arith_ok(height_range.end, width_range.end, min_window_distance)
                    &&& g.wf()
                    &&& g.height_lo == height_range.start
                    &&& g.height_hi == height_range.end
                    &&& g.width_lo == width_range.start
                    &&& g.width_hi == width_range.end
                    &&& g.max_windows == max_windows
                    &&& g.min_window_distance == min_window_distance
                    &&& g.previous_height == 0
                },
                Err(e) => {
                    &&& !(ranges_ok(height_range, width_range) && 1 <= min_window_distance
                        && generator_arith_ok(
                        height_range.end,
                        width_range.end,
                        min_window_distance,
                    ))
                    &&& e == generator_error(height_range, width_range, min_window_distance)
                },
            },
    {
        if height_range.end < 2 || height_range.start > height_range.end - 2 {
            return Err(ConfigError::RangeConfiguration);
        }
        if width_range.start == 0 || width_range.start >= width_range.end {
            return Err(ConfigError::RangeConfiguration);
        }
        if min_window_distance == 0 {
            return Err(ConfigError::RangeConfiguration);
        }
        if min_window_distance > 0x3FFF_FFFF {
            return Err(ConfigError::ArithmeticPrecondition);
        }
        if width_range.end > 0x8000_0004 {
            return Err(ConfigError::ArithmeticPrecondition);
        }
        if height_range.end > 0x8000_0003 {
            return Err(ConfigError::ArithmeticPrecondition);
        }
        Ok(
            RandomBuildingGenerator {
                height_lo: height_range.start,
                height_hi: height_range.end,
                width_lo: width_range.start,
                width_hi: width_range.end,
                max_windows,
                min_window_distance,
                previous_height: 0,
                rng,
            },
        )
    }

    /// Draws the next building height: uniform over the configured range
    /// with the previously emitted height removed, so that no two
    /// consecutive heights are ever equal.
    pub fn next_height(&mut self) -> (h: u32)
        requires
            old(self).wf(),
        ensures
            final(self).wf(),
            final(self).same_config(*old(self)),
            old(self).height_lo <= h < old(self).height_hi,
            h != old(self).previous_height,
            final(self).previous_height == h,
    {
        let lo = self.height_lo;
        let hi = self.height_hi;
        let prev = self.previous_height;
        let h: u32 = if prev < lo || prev >= hi {
            self.rng.next_in_range(lo, hi)
        } else {
            // One draw from the range with the previous height taken out:
            // the values above it shift up by one.
            let v = self.rng.next_in_range(lo, hi - 1);
            if v >= prev {
                v + 1
            } else {
                v
            }
        };
        self.previous_height = h;
        h
    }

    /// Scatters window positions over the building interior inset by a
    /// two-pixel horizontal and three-pixel vertical margin, keeps a random
    /// subset of at most `max_windows` of them, and shifts them back into
    /// building coordinates. Buildings too small for the margins get no
    /// windows.
    fn gen_windows(&mut self, width: u32, height: u32) -> (windows: Vec<(u32, u32)>)
        requires
            old(self).wf(),
            width < old(self).width_hi,
            height < old(self).height_hi,
        ensures
            final(self).wf(),
            final(self).same_config(*old(self)),
            final(self).previous_height == old(self).previous_height,
            windows@.len() <= old(self).max_windows,
            (width < 5 || height < 4) ==> windows@.len() == 0,
            (5 <= width && 4 <= height && 1 <= old(self).max_windows) ==> 1 <= windows@.len(),
            points_spaced(windows@, old(self).min_window_distance),
            windows@.no_duplicates(),
            forall|i: int|
                0 <= i < windows@.len() ==> window_in_interior(
                    #[trigger] windows@[i],
                    height,
                    width,
                ),
            forall|i: int|
                0 <= i < windows@.len() ==> 2 <= (#[trigger] windows@[i]).0 && windows@[i].0 + 2
                    < width && 2 <= windows@[i].1 && windows@[i].1 + 1 < height,
    {
        if width < 5 || height < 4 {
            let windows: Vec<(u32, u32)> = Vec::new();
            return windows;
        }
        let points = match sample_poisson_disc_2d(
            &mut self.rng,
            self.min_window_distance,
            width - 4,
            height - 3,
        ) {
            Ok(points) => points,
            Err(_) => {
                proof {
                    assert(false);
                }
                Vec::new()
            },
        };
        let indices = self.rng.choose_indices(points.len(), self.max_windows);
        let ghost d = self.min_window_distance;
        let mut windows: Vec<(u32, u32)> = Vec::new();
        let mut t: usize = 0;
        while t < indices.len()
            invariant
                5 <= width,
                4 <= height,
                t <= indices@.len(),
                indices@.len() <= self.max_windows,
                forall|i: int| 0 <= i < indices@.len() ==> #[trigger] indices@[i] < points@.len(),
                forall|i: int, j: int| 0 <= i < j < indices@.len() ==> indices@[i] != indices@[j],
                forall|i: int|
                    0 <= i < points@.len() ==> (#[trigger] points@[i]).0 < width - 4
                        && points@[i].1 < height - 3,
                points_spaced(points@, d),
                windows@.len() == t as int,
                forall|i: int|
                    0 <= i < windows@.len() ==> 2 <= (#[trigger] windows@[i]).0 && windows@[i].0
                        + 2 < width && 2 <= windows@[i].1 && windows@[i].1 + 1 < height,
                forall|a: int|
                    0 <= a < t as int ==> (#[trigger] windows@[a]).0 == points@[indices@[a] as int].0
                        + 2 && windows@[a].1 == points@[indices@[a] as int].1 + 2,
            decreases indices@.len() - t,
        {
            let idx = indices[t];
            let p = points[idx];
            windows.push((p.0 + 2, p.1 + 2));
            t = t + 1;
        }
        proof {
            // Shifting every point by the same offset keeps all pairwise
            // distances, so the chosen subset inherits the sample's spacing.
            assert forall|a: int, b: int|
                0 <= a < windows@.len() && 0 <= b < windows@.len() && a != b implies #[trigger] dist2(
                windows@[a],
                windows@[b],
            ) >= d * d by {
                let pa = points@[indices@[a] as int];
                let pb = points@[indices@[b] as int];
                assert(indices@[a] != indices@[b]);
                assert(dist2(pa, pb) >= d * d);
                assert(dist2(windows@[a], windows@[b]) == dist2(pa, pb));
            }
            assert(d * d >= 1) by (nonlinear_arith)
                requires
                    d >= 1,
            ;
            assert forall|a: int, b: int| 0 <= a < b < windows@.len() implies windows@[a]
                != windows@[b] by {
                assert(dist2(windows@[a], windows@[b]) >= d * d);
                if windows@[a] == windows@[b] {
                    assert(dist2(windows@[a], windows@[b]) == 0) by (nonlinear_arith)
                        requires
                            windows@[a] == windows@[b],
                    ;
                }
            }
        }
        windows
    }

    /// Produces the next building: a fresh height (never repeating the
    /// previous one), an independent width, and a sampled set of windows.
    pub fn next(&mut self) -> (b: Building)
        requires
            old(self).wf(),
        ensures
            final(self).wf(),
            final(self).same_config(*old(self)),
            b.wf(),
            old(self).height_lo <= b.height < old(self).height_hi,
            b.height != old(self).previous_height,
            final(self).previous_height == b.height,
            old(self).width_lo <= b.width < old(self).width_hi,
            b.windows@.len() <= old(self).max_windows,
            (b.width < 5 || b.height < 4) ==> b.windows@.len() == 0,
            (5 <= b.width && 4 <= b.height && 1 <= old(self).max_windows) ==> 1
                <= b.windows@.len(),
            points_spaced(b.windows@, old(self).min_window_distance),
            b.windows@.no_duplicates(),
            forall|i: int|
                0 <= i < b.windows@.len() ==> 2 <= (#[trigger] b.windows@[i]).0 && b.windows@[i].0
                    + 2 < b.width && 2 <= b.windows@[i].1 && b.windows@[i].1 + 1 < b.height,
    {
        let height = self.next_height();
        let width = self.rng.next_in_range(self.width_lo, self.width_hi);
        let windows = self.gen_windows(width, height);
        Building::new(height, width, windows)
    }
}

/// Whether the column at position `i` of the pulled column sequence `hist`
/// is a local maximum: at least as long as both of its neighbours.
pub open spec fn local_max(hist: Seq<Seq<Pixel>>, i: int) -> bool {
    &&& hist[i].len() >= hist[i - 1].len()
    &&& hist[i].len() >= hist[i + 1].len()
}

/// Whether `c` is a genuine rasterized building column for a height range
/// `[height_lo, height_hi)`: the pixel column of some well-formed building
/// whose height the range admits. Such a column is empty only when the
/// range admits height zero; otherwise its length lies in the range and its
/// top pixel is the rooftop border.
pub open spec fn building_column(c: Seq<Pixel>, height_lo: int, height_hi: int) -> bool {
    &&& (if c.len() == 0 {
        height_lo == 0
    } else {
        height_lo <= c.len() < height_hi && c[0] == Pixel::Border
    })
    &&& exists|b: Building, col: int|
        {
            &&& #[trigger] column_spec(b, col) == c
            &&& b.wf()
            &&& height_lo <= b.height < height_hi
            &&& 1 <= b.width
            &&& 0 <= col < b.width
        }
}

/// The continuous skyline: buildings are generated, rasterized and
/// flattened into one endless sequence of columns, seeded with one leading
/// empty column, and a column is emitted only when it is at least as long
/// as both of its neighbours. A column strictly shorter than its
/// predecessor or its successor is consumed but never surfaces.
pub struct SkylineStream<R: RandomSource> {
    generator: RandomBuildingGenerator<R>,
    /// Rasterized columns of the current building that have not entered the
    /// sliding window yet, in reverse order: the next one is the last.
    pending: Vec<Vec<Pixel>>,
    /// Length of the column pulled just before the current one.
    win_prev_len: usize,
    /// The current column: the candidate considered for emission next.
    win_cur: Vec<Pixel>,
    /// False until a real column has entered the window; the seed column
    /// itself is never emitted.
    primed: bool,
    /// Every column that has entered the sliding window so far, the seed
    /// column first.
    hist: Ghost<Seq<Seq<Pixel>>>,
    /// Positions in `hist` of the emitted columns, in emission order.
    emitted: Ghost<Seq<int>>,
}

impl<R: RandomSource> SkylineStream<R> {
    /// The sequence of all columns pulled into the sliding window so far,
    /// beginning with the leading empty seed column.
    pub closed spec fn hist_view(self) -> Seq<Seq<Pixel>> {
        self.hist@
    }

    /// The positions in `hist_view()` of the emitted columns, in order.
    pub closed spec fn emitted_view(self) -> Seq<int> {
        self.emitted@
    }

    /// A strict upper bound on the length of every pulled column: the
    /// exclusive end of the configured height range.
    pub closed spec fn height_bound(self) -> int {
        self.generator.height_hi as int
    }

    /// The inclusive start of the configured height range; an emitted
    /// column is empty only when this is zero.
    pub closed spec fn height_floor(self) -> int {
        self.generator.height_lo as int
    }

    /// The stream invariant. Beyond the plumbing of the three-column
    /// sliding window it pins the filter exactly: a pulled column with both
    /// neighbours available has been emitted if and only if it is a local
    /// maximum of the pulled sequence.
    pub closed spec fn wf(self) -> bool {
        &&& self.generator.wf()
        &&& 1 <= self.hist@.len()
        &&& self.hist@[0].len() == 0
        &&& forall|i: int|
            0 <= i < self.hist@.len() ==> (#[trigger] self.hist@[i]).len()
                < self.generator.height_hi
        &&& forall|i: int|
            1 <= i < self.hist@.len() ==> building_column(
                #[trigger] self.hist@[i],
                self.generator.height_lo as int,
                self.generator.height_hi as int,
            )
        &&& forall|i: int|
            0 <= i < self.pending@.len() ==> (#[trigger] self.pending@[i])@.len()
                < self.generator.height_hi
        &&& forall|i: int|
            0 <= i < self.pending@.len() ==> building_column(
                (#[trigger] self.pending@[i])@,
                self.generator.height_lo as int,
                self.generator.height_hi as int,
            )
        &&& self.win_cur@ == self.hist@.last()
        &&& self.primed == (self.hist@.len() >= 2)
        &&& (if self.primed {
            self.win_prev_len == self.hist@[self.hist@.len() - 2].len()
        } else {
            self.win_prev_len == 0
        })
        &&& forall|k: int|
            0 <= k < self.emitted@.len() ==> 1 <= #[trigger] self.emitted@[k] <= self.hist@.len()
                - 2
        &&& forall|k1: int, k2: int|
            0 <= k1 < k2 < self.emitted@.len() ==> self.emitted@[k1] < self.emitted@[k2]
        &&& forall|i: int|
            1 <= i <= self.hist@.len() - 2 ==> (#[trigger] self.emitted@.contains(i)
                <==> local_max(self.hist@, i))
    }

    /// Remaining work before the next emission is owed: a descending run
    /// may first sink to the ground and then climb back up to the height
    /// bound, an ascending run only climb.
    closed spec fn measure(self) -> int {
        (if self.win_cur@.len() < self.win_prev_len {
            self.win_cur@.len() + self.generator.height_hi + 1
        } else {
            self.generator.height_hi - self.win_cur@.len()
        }) + (if self.primed {
            0int
        } else {
            1int
        })
    }

    /// Pulls the next column of the underlying flattened building sequence,
    /// rasterizing a fresh building when the current one is used up.
    fn pull(&mut self) -> (c: Vec<Pixel>)
        requires
            old(self).wf(),
        ensures
            final(self).wf(),
            c@.len() < final(self).height_bound(),
            building_column(c@, final(self).height_floor(), final(self).height_bound()),
            final(self).height_floor() == old(self).height_floor(),
            final(self).hist@ == old(self).hist@,
            final(self).emitted@ == old(self).emitted@,
            final(self).win_cur@ == old(self).win_cur@,
            final(self).win_prev_len == old(self).win_prev_len,
            final(self).primed == old(self).primed,
            final(self).generator.same_config(old(self).generator),
    {
        if self.pending.len() == 0 {
            let b = self.generator.next();
            let ghost bb = b;
            let mut cols = b.iter_columns();
            while cols.len() > 0
                invariant
                    self.wf(),
                    bb.wf(),
                    1 <= bb.width,
                    self.generator.height_lo <= bb.height < self.generator.height_hi,
                    self.hist@ == old(self).hist@,
                    self.emitted@ == old(self).emitted@,
                    self.win_cur@ == old(self).win_cur@,
                    self.win_prev_len == old(self).win_prev_len,
                    self.primed == old(self).primed,
                    self.generator.same_config(old(self).generator),
                    forall|i: int|
                        0 <= i < cols@.len() ==> (#[trigger] cols@[i])@ == column_spec(bb, i),
                    cols@.len() + self.pending@.len() == bb.width as int,
                decreases cols@.len(),
            {
                let ghost idx = cols@.len() - 1;
                let col = match cols.pop() {
                    Some(col) => col,
                    None => {
                        proof {
                            assert(false);
                        }
                        Vec::new()
                    },
                };
                proof {
                    assert(col@ == column_spec(bb, idx));
                    if bb.height != 0 {
                        assert(column_spec(bb, idx)[0] == cell_spec(
                            bb,
                            idx,
                            0,
                            bb.windows@.len() as int,
                        ));
                        assert(cell_spec(bb, idx, 0, bb.windows@.len() as int) == Pixel::Border);
                    }
                    assert(building_column(
                        col@,
                        self.generator.height_lo as int,
                        self.generator.height_hi as int,
                    ));
                }
                self.pending.push(col);
            }
        }
        let c = match self.pending.pop() {
            Some(c) => c,
            None => {
                proof {
                    assert(false);
                }
                Vec::new()
            },
        };
        c
    }

    /// Produces the next visible column of the skyline. Columns are pulled
    /// from the underlying building sequence until one is at least as long
    /// as both of its neighbours; that one is emitted and everything pulled
    /// before it is dropped for good.
    pub fn next_column(&mut self) -> (column: Vec<Pixel>)
        requires
            old(self).wf(),
        ensures
            final(self).wf(),
            final(self).height_bound() == old(self).height_bound(),
            final(self).height_floor() == old(self).height_floor(),
            building_column(column@, old(self).height_floor(), old(self).height_bound()),
            old(self).hist_view().len() < final(self).hist_view().len(),
            final(self).hist_view().subrange(0, old(self).hist_view().len() as int) == old(
                self,
            ).hist_view(),
            final(self).emitted_view().len() == old(self).emitted_view().len() + 1,
            final(self).emitted_view().drop_last() == old(self).emitted_view(),
            old(self).hist_view().len() - 2 < final(self).emitted_view().last(),
            column@ == final(self).hist_view()[final(self).emitted_view().last()],
    {
        proof {
            assert(self.hist@.subrange(0, self.hist@.len() as int) =~= self.hist@);
        }
        loop
            invariant
                self.wf(),
                self.height_bound() == old(self).height_bound(),
                self.height_floor() == old(self).height_floor(),
                self.emitted@ == old(self).emitted@,
                old(self).hist@.len() <= self.hist@.len(),
                self.hist@.subrange(0, old(self).hist@.len() as int) == old(self).hist@,
            decreases self.measure(),
        {
            let ghost at_entry = *self;
            let c = self.pull();
            let ghost c_view = c@;
            let emit = self.primed && self.win_cur.len() >= self.win_prev_len && self.win_cur.len()
                >= c.len();
            let ghost old_hist = self.hist@;
            let ghost n = self.hist@.len();
            self.hist = Ghost(self.hist@.push(c_view));
            proof {
                assert(self.hist@.subrange(0, old(self).hist@.len() as int) =~= old(self).hist@);
                assert forall|i: int|
                    0 <= i < self.hist@.len() implies (#[trigger] self.hist@[i]).len()
                    < self.generator.height_hi by {
                    if i < n {
                        assert(self.hist@[i] == old_hist[i]);
                    }
                }
                assert forall|i: int| 1 <= i < self.hist@.len() implies building_column(
                    #[trigger] self.hist@[i],
                    self.generator.height_lo as int,
                    self.generator.height_hi as int,
                ) by {
                    if i < n {
                        assert(self.hist@[i] == old_hist[i]);
                    } else {
                        assert(self.hist@[i] == c_view);
                    }
                }
            }
            if emit {
                let mut taken = c;
                core::mem::swap(&mut self.win_cur, &mut taken);
                self.win_prev_len = taken.len();
                let ghost e = self.hist@.len() - 2;
                let ghost old_emitted = self.emitted@;
                self.emitted = Ghost(self.emitted@.push(e));
                proof {
                    assert(n >= 2);
                    assert(e == n - 1);
                    assert(taken@ == old_hist.last());
                    assert(self.hist@[e] == old_hist[n - 1]);
                    assert(self.hist@[e - 1] == old_hist[n - 2]);
                    assert(self.hist@[e + 1] == c_view);
                    assert(local_max(self.hist@, e));
                    assert(building_column(
                        taken@,
                        self.generator.height_lo as int,
                        self.generator.height_hi as int,
                    ));
                    assert(self.emitted@[self.emitted@.len() - 1] == e);
                    assert(self.emitted@.contains(e));
                    assert(self.emitted@.drop_last() =~= old_emitted);
                    // Each previously tested position keeps its status: the
                    // pulled prefix is unchanged and the new index is past
                    // every old one.
                    assert forall|i: int|
                        1 <= i <= self.hist@.len() - 2 implies (#[trigger] self.emitted@.contains(
                        i,
                    ) <==> local_max(self.hist@, i)) by {
                        if i == e {
                        } else {
                            assert(i <= n - 2);
                            assert(self.hist@[i - 1] == old_hist[i - 1]);
                            assert(self.hist@[i] == old_hist[i]);
                            assert(self.hist@[i + 1] == old_hist[i + 1]);
                            assert(local_max(self.hist@, i) == local_max(old_hist, i));
                            if self.emitted@.contains(i) {
                                let k = choose|k: int|
                                    0 <= k < self.emitted@.len() && self.emitted@[k] == i;
                                assert(k < old_emitted.len());
                                assert(old_emitted.contains(i));
                            }
                            if old_emitted.contains(i) {
                                let k = choose|k: int|
                                    0 <= k < old_emitted.len() && old_emitted[k] == i;
                                assert(self.emitted@[k] == i);
                                assert(self.emitted@.contains(i));
                            }
                        }
                    }
                    assert(self.wf());
                }
                return taken;
            } else {
                self.win_prev_len = self.win_cur.len();
                self.win_cur = c;
                self.primed = true;
                proof {
                    // The discarded position fails the emission test, so the
                    // exact-filter clause extends to it.
                    let i0 = n - 1;
                    assert forall|i: int|
                        1 <= i <= self.hist@.len() - 2 implies (#[trigger] self.emitted@.contains(
                        i,
                    ) <==> local_max(self.hist@, i)) by {
                        if i == i0 {
                            assert(!local_max(self.hist@, i0));
                            if self.emitted@.contains(i0) {
                                let k = choose|k: int|
                                    0 <= k < self.emitted@.len() && self.emitted@[k] == i0;
                                assert(self.emitted@[k] <= old_hist.len() - 2);
                            }
                        } else {
                            assert(i <= n - 2);
                            assert(self.hist@[i - 1] == old_hist[i - 1]);
                            assert(self.hist@[i] == old_hist[i]);
                            assert(self.hist@[i + 1] == old_hist[i + 1]);
                            assert(local_max(self.hist@, i) == local_max(old_hist, i));
                        }
                    }
                    assert(self.wf());
                    assert(self.measure() < at_entry.measure());
                }
            }
        }
    }
}

/// Builds the continuous skyline stream after validating every
/// configuration parameter; once the construction succeeds the stream is
/// infallible and endless.
pub fn skyline<R: RandomSource>(
    height_range: Range<u32>,
    width_range: Range<u32>,
    max_windows: usize,
    min_window_distance: u32,
    rng: R,
) -> (result: Result<SkylineStream<R>, ConfigError>)
    ensures
        match result {
            Ok(stream) => {
                &&& ranges_ok(height_range, width_range)
                &&& 1 <= min_window_distance
                &&& generator_arith_ok(height_range.end, width_range.end, min_window_distance)
                &&& stream.wf()
                &&& stream.hist_view() == seq![Seq::<Pixel>::empty()]
                &&& stream.emitted_view() == Seq::<int>::empty()
                &&& stream.height_bound() == height_range.end as int
                &&& stream.height_floor() == height_range.start as int
            },
            Err(e) => {
                &&& !(ranges_ok(height_range, width_range) && 1 <= min_window_distance
                    && generator_arith_ok(
                    height_range.end,
                    width_range.end,
                    min_window_distance,
                ))
                &&& e == generator_error(height_range, width_range, min_window_distance)
            },
        },
{
    let generator = match RandomBuildingGenerator::new(
        height_range,
        width_range,
        max_windows,
        min_window_distance,
        rng,
    ) {
        Ok(generator) => generator,
        Err(e) => {
            return Err(e);
        },
    };
    let ghost seed_hist: Seq<Seq<Pixel>> = seq![Seq::<Pixel>::empty()];
    let ghost no_emissions: Seq<int> = Seq::<int>::empty();
    let stream = SkylineStream {
        generator,
        pending: Vec::new(),
        win_prev_len: 0,
        win_cur: Vec::new(),
        primed: false,
        hist: Ghost(seed_hist),
        emitted: Ghost(no_emissions),
    };
    proof {
        assert(stream.hist@[0].len() == 0);
        assert(stream.win_cur@ =~= stream.hist@.last());
        assert(stream.wf());
    }
    Ok(stream)
}

/// Every column the stream has pulled after the seed is a genuine
/// rasterized building column of the configured height range; the stream
/// never fabricates, truncates or pads a column.
pub proof fn lemma_pulled_are_building_columns<R: RandomSource>(s: SkylineStream<R>, i: int)
    requires
        s.wf(),
        1 <= i < s.hist_view().len(),
    ensures
        building_column(s.hist_view()[i], s.height_floor(), s.height_bound()),
{
}

/// Monotonic-dip elimination: every column the stream has emitted is a
/// local maximum of the pulled column sequence — at least as long as the
/// column pulled just before it and the column pulled just after it. No
/// emitted column is strictly shorter than either of its neighbours, and
/// each one is a genuine building column.
pub proof fn lemma_emitted_columns_are_local_maxima<R: RandomSource>(s: SkylineStream<R>, k: int)
    requires
        s.wf(),
        0 <= k < s.emitted_view().len(),
    ensures
        1 <= s.emitted_view()[k] <= s.hist_view().len() - 2,
        local_max(s.hist_view(), s.emitted_view()[k]),
        building_column(s.hist_view()[s.emitted_view()[k]], s.height_floor(), s.height_bound()),
{
    let e = s.emitted_view()[k];
    assert(s.emitted_view().contains(e));
    lemma_pulled_are_building_columns(s, e);
}

/// The filter is exact: a pulled column with both neighbours available has
/// been emitted if and only if it is a local maximum of the pulled sequence
/// — nothing eligible is withheld and nothing ineligible surfaces.
pub proof fn lemma_filter_is_exact<R: RandomSource>(s: SkylineStream<R>, i: int)
    requires
        s.wf(),
        1 <= i <= s.hist_view().len() - 2,
    ensures
        s.emitted_view().contains(i) <==> local_max(s.hist_view(), i),
{
}

/// Emissions keep the order of the underlying pulled sequence.
pub proof fn lemma_emissions_in_order<R: RandomSource>(s: SkylineStream<R>, k1: int, k2: int)
    requires
        s.wf(),
        0 <= k1 < k2 < s.emitted_view().len(),
    ensures
        s.emitted_view()[k1] < s.emitted_view()[k2],
{
}

/// The pulled sequence opens with a virtual predecessor of length zero, so
/// the seed column is never emitted, and the first real column is emitted
/// only when its successor is no longer than it.
pub proof fn lemma_first_emission<R: RandomSource>(s: SkylineStream<R>)
    requires
        s.wf(),
        0 < s.emitted_view().len(),
    ensures
        s.hist_view()[0].len() == 0,
        1 <= s.emitted_view()[0],
        s.hist_view()[s.emitted_view()[0]].len() >= s.hist_view()[s.emitted_view()[0] + 1].len(),
{
    lemma_emitted_columns_are_local_maxima(s, 0);
}

} // verus!
