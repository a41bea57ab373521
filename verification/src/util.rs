//! Sampling primitives: filled-disc rasterization and, further down,
//! Poisson-disc sampling over a rectangular domain.

use vstd::prelude::*;
use vstd::set_lib::lemma_int_range;
use vstd::set_lib::lemma_len_subset;
use vstd::set_lib::set_int_range;

use crate::random::RandomSource;
use crate::ConfigError;

verus! {

/// The squared Euclidean distance between two lattice points.
pub open spec fn dist2(p: (u32, u32), q: (u32, u32)) -> int {
    (p.0 - q.0) * (p.0 - q.0) + (p.1 - q.1) * (p.1 - q.1)
}

/// Whether `p` lies strictly inside the disc of the given radius around
/// `center`; boundary points are excluded.
pub open spec fn in_disc(center: (i32, i32), radius: u32, p: (i32, i32)) -> bool {
    (p.0 - center.0) * (p.0 - center.0) + (p.1 - center.1) * (p.1 - center.1) < radius * radius
}

/// Whether the disc parameters keep every shifted coordinate and every
/// squared term within `i32`: the radius may not exceed 32767 (so that
/// `2 * radius^2` stays below `i32::MAX`) and the center must be at least
/// `radius` away from both `i32` extremes.
pub open spec fn circle_params_ok(center: (i32, i32), radius: u32) -> bool {
    &&& radius <= 32767
    &&& center.0 + radius <= i32::MAX
    &&& center.0 - radius >= i32::MIN
    &&& center.1 + radius <= i32::MAX
    &&& center.1 - radius >= i32::MIN
}

/// Both offsets of a disc point from the disc's center are smaller than the
/// radius in magnitude.
proof fn lemma_disc_bounds(center: (i32, i32), radius: u32, p: (i32, i32))
    requires
        in_disc(center, radius, p),
    ensures
        -(radius as int) < p.0 - center.0 < radius,
        -(radius as int) < p.1 - center.1 < radius,
{
    assert(-(radius as int) < p.0 - center.0 < radius && -(radius as int) < p.1 - center.1
        < radius) by (nonlinear_arith)
        requires
            (p.0 - center.0) * (p.0 - center.0) + (p.1 - center.1) * (p.1 - center.1) < radius
                * radius,
    ;
}

/// Squares a value that fits in 32 bits, staying within `i64`.
fn square_of(v: i64) -> (r: i64)
    requires
        -0x7FFF_FFFF <= v <= 0x7FFF_FFFF,
    ensures
        r == v * v,
        0 <= r <= 0x3FFF_FFFF_0000_0001,
{
    proof {
        assert(0 <= v * v <= 0x3FFF_FFFF_0000_0001) by (nonlinear_arith)
            requires -0x7FFF_FFFF <= v <= 0x7FFF_FFFF;
    }
    v * v
}

/// Generates the coordinates of all lattice points strictly within a circle
/// of a given `radius` centered at `center`, in column-major order over the
/// bounding square. Parameters that would overflow signed coordinate
/// arithmetic are rejected eagerly.
pub fn filled_circle(center: (i32, i32), radius: u32) -> (result: Result<
    Vec<(i32, i32)>,
    ConfigError,
>)
    ensures
        match result {
            Ok(points) => {
                &&& circle_params_ok(center, radius)
                &&& points@.no_duplicates()
                &&& forall|i: int|
                    0 <= i < points@.len() ==> in_disc(center, radius, #[trigger] points@[i])
                &&& forall|x: i32, y: i32|
                    #[trigger] in_disc(center, radius, (x, y)) ==> points@.contains((x, y))
            },
            Err(e) => !circle_params_ok(center, radius) && e == ConfigError::ArithmeticPrecondition,
        },
{
    if radius > 32767 {
        return Err(ConfigError::ArithmeticPrecondition);
    }
    let r = radius as i32;
    let (cx, cy) = center;
    if cx > i32::MAX - r || cx < i32::MIN + r || cy > i32::MAX - r || cy < i32::MIN + r {
        return Err(ConfigError::ArithmeticPrecondition);
    }
    let mut points: Vec<(i32, i32)> = Vec::new();
    let mut dx: i32 = -r;
    proof {
        assert forall|x: i32, y: i32|
            #[trigger] in_disc((cx, cy), radius, (x, y)) && x < cx + dx implies points@.contains(
            (x, y),
        ) by {
            lemma_disc_bounds((cx, cy), radius, (x, y));
        }
    }
    while dx <= r
        invariant
            0 <= r <= 32767,
            cx + r <= i32::MAX,
            cx - r >= i32::MIN,
            cy + r <= i32::MAX,
            cy - r >= i32::MIN,
            r == radius,
            -r <= dx <= r + 1,
            points@.no_duplicates(),
            forall|i: int|
                0 <= i < points@.len() ==> in_disc((cx, cy), radius, #[trigger] points@[i]),
            forall|i: int| 0 <= i < points@.len() ==> (#[trigger] points@[i]).0 < cx + dx,
            forall|x: i32, y: i32|
                #[trigger] in_disc((cx, cy), radius, (x, y)) && x < cx + dx ==> points@.contains(
                    (x, y),
                ),
        decreases r + 1 - dx,
    {
        let mut dy: i32 = -r;
        proof {
            assert forall|x: i32, y: i32|
                #[trigger] in_disc((cx, cy), radius, (x, y)) && (x < cx + dx || (x == cx + dx && y
                < cy + dy)) implies points@.contains((x, y)) by {
                lemma_disc_bounds((cx, cy), radius, (x, y));
            }
        }
        while dy <= r
            invariant
                0 <= r <= 32767,
                cx + r <= i32::MAX,
                cx - r >= i32::MIN,
                cy + r <= i32::MAX,
                cy - r >= i32::MIN,
                r == radius,
                -r <= dx <= r,
                -r <= dy <= r + 1,
                points@.no_duplicates(),
                forall|i: int|
                    0 <= i < points@.len() ==> in_disc((cx, cy), radius, #[trigger] points@[i]),
                forall|i: int|
                    0 <= i < points@.len() ==> (#[trigger] points@[i]).0 < cx + dx || (
                    points@[i].0 == cx + dx && points@[i].1 < cy + dy),
                forall|x: i32, y: i32|
                    #[trigger] in_disc((cx, cy), radius, (x, y)) && (x < cx + dx || (x == cx + dx
                        && y < cy + dy)) ==> points@.contains((x, y)),
            decreases r + 1 - dy,
        {
            let sq = square_of(dx as i64) + square_of(dy as i64);
            if sq < square_of(r as i64) {
                let px: i32 = dx + cx;
                let py: i32 = dy + cy;
                let ghost old_points = points@;
                points.push((px, py));
                proof {
                    assert(points@ == old_points.push((px, py)));
                    assert(forall|x: i32, y: i32|
                        old_points.contains((x, y)) ==> points@.contains((x, y))) by {
                        assert(forall|i: int|
                            0 <= i < old_points.len() ==> points@[i] == old_points[i]);
                    }
                    assert(points@.contains((px, py))) by {
                        assert(points@[points@.len() - 1] == (px, py));
                    }
                }
            }
            dy = dy + 1;
        }
        proof {
            // A point of the disc in column `cx + dx` has a vertical offset
            // below the radius, so the finished inner sweep covered it.
            assert forall|x: i32, y: i32|
                #[trigger] in_disc((cx, cy), radius, (x, y)) && x < cx + dx + 1 implies (x < cx
                + dx || (x == cx + dx && y < cy + dy)) by {
                assert(y - cy < r) by (nonlinear_arith)
                    requires
                        (x - cx) * (x - cx) + (y - cy) * (y - cy) < r * r,
                        0 <= r,
                ;
            }
        }
        dx = dx + 1;
    }
    proof {
        // Every disc point lies in some swept column: its horizontal offset
        // is below the radius in magnitude.
        assert forall|x: i32, y: i32| #[trigger]
            in_disc((cx, cy), radius, (x, y)) implies x - cx < r + 1 by {
            assert(x - cx < r) by (nonlinear_arith)
                requires
                    (x - cx) * (x - cx) + (y - cy) * (y - cy) < r * r,
                    0 <= r,
            ;
        }
    }
    Ok(points)
}

/// The squared distance is symmetric in its two points.
proof fn lemma_dist2_comm(p: (u32, u32), q: (u32, u32))
    ensures
        dist2(p, q) == dist2(q, p),
{
    assert((p.0 - q.0) * (p.0 - q.0) == (q.0 - p.0) * (q.0 - p.0)) by (nonlinear_arith);
    assert((p.1 - q.1) * (p.1 - q.1) == (q.1 - p.1) * (q.1 - p.1)) by (nonlinear_arith);
}

/// Pairwise distinct lattice points of the rectangle `[0, width) x
/// [0, height)` number at most `width * height`.
proof fn lemma_distinct_points_bound(s: Seq<(u32, u32)>, width: int, height: int)
    requires
        1 <= width,
        1 <= height,
        forall|i: int| 0 <= i < s.len() ==> (#[trigger] s[i]).0 < width && s[i].1 < height,
        forall|i: int, j: int| 0 <= i < j < s.len() ==> s[i] != s[j],
    ensures
        s.len() <= width * height,
{
    let keys = s.map_values(|p: (u32, u32)| p.0 * height + p.1);
    assert forall|i: int, j: int| 0 <= i < j < keys.len() implies keys[i] != keys[j] by {
        let p = s[i];
        let q = s[j];
        assert(p.0 * height + p.1 != q.0 * height + q.1) by (nonlinear_arith)
            requires
                0 <= p.1 < height,
                0 <= q.1 < height,
                0 <= p.0,
                0 <= q.0,
                !(p.0 == q.0 && p.1 == q.1),
        ;
    }
    assert(keys.no_duplicates());
    assert forall|i: int| 0 <= i < keys.len() implies 0 <= #[trigger] keys[i] < width * height by {
        let p = s[i];
        assert(0 <= p.0 * height + p.1 < width * height) by (nonlinear_arith)
            requires
                0 <= p.0 < width,
                0 <= p.1 < height,
        ;
    }
    keys.unique_seq_to_set();
    assert(keys.to_set().subset_of(set_int_range(0, width * height)));
    lemma_int_range(0, width * height);
    lemma_len_subset(keys.to_set(), set_int_range(0, width * height));
}

/// Whether the Poisson-disc parameters admit sampling at all: the domain
/// and the spacing must be positive (an empty domain has no seed point, and
/// with spacing zero the dart-throwing rounds never exhaust), and all three
/// must stay within signed 32-bit range — the domain below `i32::MAX` in
/// either direction, the minimum distance below half of `i32::MAX`.
pub open spec fn poisson_params_ok(min_distance: u32, width: u32, height: u32) -> bool {
    &&& 1 <= min_distance <= 0x3FFF_FFFF
    &&& 1 <= width <= 0x7FFF_FFFF
    &&& 1 <= height <= 0x7FFF_FFFF
}

/// The error reported for rejected Poisson-disc parameters: an empty domain
/// or a zero spacing is a configuration problem, anything else that fails
/// is an overflow risk.
pub open spec fn poisson_error(min_distance: u32, width: u32, height: u32) -> ConfigError {
    if min_distance == 0 || width == 0 || height == 0 {
        ConfigError::RangeConfiguration
    } else {
        ConfigError::ArithmeticPrecondition
    }
}

/// Whether every point of `s` lies in the rectangle `[0, width) x [0, height)`.
pub open spec fn points_in_domain(s: Seq<(u32, u32)>, width: u32, height: u32) -> bool {
    forall|i: int| 0 <= i < s.len() ==> (#[trigger] s[i]).0 < width && s[i].1 < height
}

/// Whether every pair of distinct points of `s` is at least `min_distance`
/// apart in Euclidean distance (stated over the squared distance).
pub open spec fn points_spaced(s: Seq<(u32, u32)>, min_distance: u32) -> bool {
    forall|i: int, j: int|
        0 <= i < s.len() && 0 <= j < s.len() && i != j ==> #[trigger] dist2(s[i], s[j])
            >= min_distance * min_distance
}

/// Whether the candidate `(x, y)` is at least `min_distance` away from every
/// accepted sample.
fn far_from_all(samples: &Vec<(u32, u32)>, x: u32, y: u32, min_distance: u32) -> (far: bool)
    requires
        x <= 0x7FFF_FFFF,
        y <= 0x7FFF_FFFF,
        min_distance <= 0x3FFF_FFFF,
        forall|i: int|
            0 <= i < samples@.len() ==> (#[trigger] samples@[i]).0 <= 0x7FFF_FFFF
                && samples@[i].1 <= 0x7FFF_FFFF,
    ensures
        far <==> forall|i: int|
            0 <= i < samples@.len() ==> #[trigger] dist2(samples@[i], (x, y)) >= min_distance
                * min_distance,
{
    let mut i: usize = 0;
    while i < samples.len()
        invariant
            0 <= i <= samples@.len(),
            x <= 0x7FFF_FFFF,
            y <= 0x7FFF_FFFF,
            min_distance <= 0x3FFF_FFFF,
            forall|k: int|
                0 <= k < samples@.len() ==> (#[trigger] samples@[k]).0 <= 0x7FFF_FFFF
                    && samples@[k].1 <= 0x7FFF_FFFF,
            forall|k: int|
                0 <= k < i ==> #[trigger] dist2(samples@[k], (x, y)) >= min_distance
                    * min_distance,
        decreases samples@.len() - i,
    {
        let sample = samples[i];
        let ddx = sample.0 as i64 - x as i64;
        let ddy = sample.1 as i64 - y as i64;
        let d2 = square_of(ddx) + square_of(ddy);
        if d2 < square_of(min_distance as i64) {
            proof {
                assert(dist2(samples@[i as int], (x, y)) < min_distance * min_distance);
            }
            return false;
        }
        i = i + 1;
    }
    true
}

/// Tries up to a fixed budget of candidate points around the center
/// `(cx, cy)`: a candidate is kept when it falls inside the domain and is at
/// least `min_distance` away from every accepted sample.
fn place_candidate<R: RandomSource>(
    rng: &mut R,
    samples: &Vec<(u32, u32)>,
    cx: u32,
    cy: u32,
    min_distance: u32,
    width: u32,
    height: u32,
) -> (candidate: Option<(u32, u32)>)
    requires
        1 <= min_distance,
        1 <= width,
        1 <= height,
        poisson_params_ok(min_distance, width, height),
        points_in_domain(samples@, width, height),
    ensures
        match candidate {
            Some(p) => p.0 < width && p.1 < height && forall|i: int|
                0 <= i < samples@.len() ==> #[trigger] dist2(samples@[i], p) >= min_distance
                    * min_distance,
            None => true,
        },
{
    let mut attempt: u32 = 0;
    while attempt < 30
        invariant
            1 <= min_distance,
            1 <= width,
            1 <= height,
            poisson_params_ok(min_distance, width, height),
            points_in_domain(samples@, width, height),
        decreases 30 - attempt,
    {
        let offset = rng.annulus_offset(min_distance);
        let x = cx as i64 + offset.0 as i64;
        let y = cy as i64 + offset.1 as i64;
        if 0 <= x && x < width as i64 && 0 <= y && y < height as i64 {
            let xu = x as u32;
            let yu = y as u32;
            if far_from_all(samples, xu, yu, min_distance) {
                return Some((xu, yu));
            }
        }
        attempt = attempt + 1;
    }
    None
}

/// Performs Poisson-disc sampling over the rectangle `[0, width) x
/// [0, height)` with the dart-throwing-with-active-list scheme: a random
/// seed point starts both the sample list and the active worklist; each
/// round spends a budget of candidates around a random active sample and
/// either accepts one (keeping it active) or retires the exhausted center.
/// Points are returned in insertion order and every returned pair of
/// distinct points is at least `min_distance` apart.
///
/// Every invalid parameter set is rejected eagerly, before any draw: an
/// empty domain or a zero spacing (under which the rounds would never
/// exhaust) as a configuration error, and sizes so large that signed
/// coordinate arithmetic could overflow as an arithmetic one.
pub fn sample_poisson_disc_2d<R: RandomSource>(
    rng: &mut R,
    min_distance: u32,
    width: u32,
    height: u32,
) -> (result: Result<Vec<(u32, u32)>, ConfigError>)
    ensures
        match result {
            Ok(points) => {
                &&& poisson_params_ok(min_distance, width, height)
                &&& 1 <= points@.len()
                &&& points_in_domain(points@, width, height)
                &&& points_spaced(points@, min_distance)
                &&& points@.no_duplicates()
            },
            Err(e) => !poisson_params_ok(min_distance, width, height) && e == poisson_error(
                min_distance,
                width,
                height,
            ),
        },
{
    if min_distance == 0 || width == 0 || height == 0 {
        return Err(ConfigError::RangeConfiguration);
    }
    if min_distance > 0x3FFF_FFFF || width > 0x7FFF_FFFF || height > 0x7FFF_FFFF {
        return Err(ConfigError::ArithmeticPrecondition);
    }
    let mut samples: Vec<(u32, u32)> = Vec::new();
    let mut active: Vec<usize> = Vec::new();
    let sx = rng.next_in_range(0, width);
    let sy = rng.next_in_range(0, height);
    samples.push((sx, sy));
    active.push(0);
    proof {
        assert(1 <= width as int * height as int) by (nonlinear_arith)
            requires
                1 <= width as int,
                1 <= height as int,
        ;
    }
    while active.len() > 0
        invariant
            1 <= min_distance,
            1 <= width,
            1 <= height,
            poisson_params_ok(min_distance, width, height),
            1 <= samples@.len() <= width as int * height as int,
            points_in_domain(samples@, width, height),
            forall|i: int, j: int|
                0 <= i < j < samples@.len() ==> #[trigger] dist2(samples@[i], samples@[j])
                    >= min_distance * min_distance,
            forall|k: int| 0 <= k < active@.len() ==> #[trigger] active@[k] < samples@.len(),
        decreases width as int * height as int - samples@.len(), active@.len(),
    {
        let center_index = rng.next_index(active.len());
        let center = active[center_index];
        let sample = samples[center];
        match place_candidate(rng, &samples, sample.0, sample.1, min_distance, width, height) {
            Some(p) => {
                proof {
                    // The new point is distinct from every accepted sample
                    // (their squared distance is at least 1), so the extended
                    // list still fits in the domain.
                    assert(min_distance * min_distance >= 1) by (nonlinear_arith)
                        requires
                            min_distance >= 1,
                    ;
                    assert forall|i: int, j: int|
                        0 <= i < j < samples@.push(p).len() implies samples@.push(p)[i]
                        != samples@.push(p)[j] by {
                        let a = samples@.push(p)[i];
                        let b = samples@.push(p)[j];
                        if j < samples@.len() {
                            assert(dist2(samples@[i], samples@[j]) >= min_distance
                                * min_distance);
                        } else {
                            assert(b == p);
                            assert(dist2(samples@[i], p) >= min_distance * min_distance);
                        }
                        assert(dist2(a, b) >= 1);
                        if a == b {
                            assert(dist2(a, b) == 0) by (nonlinear_arith)
                                requires
                                    a == b,
                            ;
                        }
                    }
                    lemma_distinct_points_bound(samples@.push(p), width as int, height as int);
                }
                active.push(samples.len());
                samples.push(p);
            },
            None => {
                active.swap_remove(center_index);
            },
        }
    }
    proof {
        assert forall|i: int, j: int|
            0 <= i < samples@.len() && 0 <= j < samples@.len() && i != j implies #[trigger] dist2(
            samples@[i],
            samples@[j],
        ) >= min_distance * min_distance by {
            if j < i {
                lemma_dist2_comm(samples@[i], samples@[j]);
            }
        }
        assert(min_distance * min_distance >= 1) by (nonlinear_arith)
            requires
                min_distance >= 1,
        ;
        assert forall|i: int, j: int| 0 <= i < j < samples@.len() implies samples@[i]
            != samples@[j] by {
            assert(dist2(samples@[i], samples@[j]) >= min_distance * min_distance);
            if samples@[i] == samples@[j] {
                assert(dist2(samples@[i], samples@[j]) == 0) by (nonlinear_arith)
                    requires
                        samples@[i] == samples@[j],
                ;
            }
        }
    }
    Ok(samples)
}

/// Bakes the static night-sky decoration for a canvas: a blue-noise star
/// field of at most `stars` points spaced at least `star_distance` apart,
/// and the filled disc of the moon. Both parameter sets are validated
/// eagerly; the returned point sets are consumed once by a renderer.
pub fn generate_sky<R: RandomSource>(
    rng: &mut R,
    width: u32,
    height: u32,
    stars: usize,
    star_distance: u32,
    moon_radius: u32,
    moon_center: (i32, i32),
) -> (result: Result<(Vec<(u32, u32)>, Vec<(i32, i32)>), ConfigError>)
    ensures
        match result {
            Ok(sky) => {
                &&& poisson_params_ok(star_distance, width, height)
                &&& circle_params_ok(moon_center, moon_radius)
                &&& sky.0@.len() <= stars
                &&& 1 <= stars ==> 1 <= sky.0@.len()
                &&& points_in_domain(sky.0@, width, height)
                &&& points_spaced(sky.0@, star_distance)
                &&& sky.1@.no_duplicates()
                &&& forall|i: int|
                    0 <= i < sky.1@.len() ==> in_disc(moon_center, moon_radius, #[trigger] sky.1@[i])
                &&& forall|x: i32, y: i32|
                    #[trigger] in_disc(moon_center, moon_radius, (x, y)) ==> sky.1@.contains(
                        (x, y),
                    )
            },
            Err(e) => {
                &&& !(poisson_params_ok(star_distance, width, height) && circle_params_ok(
                    moon_center,
                    moon_radius,
                ))
                &&& e == if !poisson_params_ok(star_distance, width, height) {
                    poisson_error(star_distance, width, height)
                } else {
                    ConfigError::ArithmeticPrecondition
                }
            },
        },
{
    let points = match sample_poisson_disc_2d(rng, star_distance, width, height) {
        Ok(points) => points,
        Err(e) => {
            return Err(e);
        },
    };
    let moon = match filled_circle(moon_center, moon_radius) {
        Ok(moon) => moon,
        Err(e) => {
            return Err(e);
        },
    };
    let indices = rng.choose_indices(points.len(), stars);
    let mut chosen: Vec<(u32, u32)> = Vec::new();
    let mut t: usize = 0;
    while t < indices.len()
        invariant
            t <= indices@.len(),
            indices@.len() <= stars,
            forall|i: int| 0 <= i < indices@.len() ==> #[trigger] indices@[i] < points@.len(),
            points_in_domain(points@, width, height),
            points_spaced(points@, star_distance),
            chosen@.len() == t as int,
            forall|a: int| 0 <= a < t as int ==> #[trigger] chosen@[a] == points@[indices@[a] as int],
        decreases indices@.len() - t,
    {
        let idx = indices[t];
        chosen.push(points[idx]);
        t = t + 1;
    }
    proof {
        assert forall|a: int, b: int|
            0 <= a < chosen@.len() && 0 <= b < chosen@.len() && a != b implies #[trigger] dist2(
            chosen@[a],
            chosen@[b],
        ) >= star_distance * star_distance by {
            assert(chosen@[a] == points@[indices@[a] as int]);
            assert(chosen@[b] == points@[indices@[b] as int]);
            assert(indices@[a] != indices@[b]);
            assert(dist2(points@[indices@[a] as int], points@[indices@[b] as int]) >= star_distance
                * star_distance);
        }
        assert(points_in_domain(chosen@, width, height)) by {
            assert(forall|a: int|
                0 <= a < chosen@.len() ==> (#[trigger] chosen@[a]) == points@[indices@[a] as int]);
        }
    }
    Ok((chosen, moon))
}

} // verus!
