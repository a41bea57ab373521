use rand::rngs::StdRng;
use rand::{Rng, SeedableRng};

use skyline::color::parse_hex_color;
use skyline::random::RandomSource;
use skyline::skyline::{skyline, Building, Pixel, RandomBuildingGenerator};
use skyline::util::{filled_circle, generate_sky, sample_poisson_disc_2d};
use skyline::ConfigError;

/// A seeded random source: the same seed reproduces the same draws.
struct SeededSource {
    rng: StdRng,
}

impl SeededSource {
    fn new(seed: u64) -> Self {
        SeededSource { rng: StdRng::seed_from_u64(seed) }
    }
}

impl RandomSource for SeededSource {
    fn next_in_range(&mut self, lo: u32, hi: u32) -> u32 {
        self.rng.gen_range(lo..hi)
    }

    fn next_index(&mut self, n: usize) -> usize {
        self.rng.gen_range(0..n)
    }

    fn annulus_offset(&mut self, min_distance: u32) -> (i32, i32) {
        let angle: f64 = self.rng.gen_range(0.0..(2.0 * std::f64::consts::PI));
        let radius: f64 = self.rng.gen_range(min_distance as f64..=2.0 * min_distance as f64);
        ((radius * angle.cos()) as i32, (radius * angle.sin()) as i32)
    }

    fn choose_indices(&mut self, n: usize, k: usize) -> Vec<usize> {
        rand::seq::index::sample(&mut self.rng, n, k.min(n)).into_vec()
    }
}

fn squared_distance(a: (u32, u32), b: (u32, u32)) -> i64 {
    let dx = a.0 as i64 - b.0 as i64;
    let dy = a.1 as i64 - b.1 as i64;
    dx * dx + dy * dy
}

#[test]
fn no_consecutive_equal_heights() {
    let rng = SeededSource::new(7);
    let mut generator = RandomBuildingGenerator::new(5..51, 5..11, 5, 2, rng).unwrap();
    let mut previous: Option<u32> = None;
    for _ in 0..200 {
        let b = generator.next();
        assert!((5..51).contains(&b.height));
        assert!((5..11).contains(&b.width));
        if let Some(p) = previous {
            assert_ne!(p, b.height);
        }
        previous = Some(b.height);
    }
}

#[test]
fn no_consecutive_equal_heights_tiny_range() {
    // With exactly two heights the draw must alternate.
    let rng = SeededSource::new(11);
    let mut generator = RandomBuildingGenerator::new(3..5, 1..2, 0, 1, rng).unwrap();
    let mut previous: Option<u32> = None;
    for _ in 0..50 {
        let b = generator.next();
        assert!(b.height == 3 || b.height == 4);
        if let Some(p) = previous {
            assert_ne!(p, b.height);
        }
        previous = Some(b.height);
    }
}

#[test]
fn poisson_points_spaced_and_in_domain() {
    let mut rng = SeededSource::new(42);
    let points = sample_poisson_disc_2d(&mut rng, 5, 40, 30).unwrap();
    assert!(!points.is_empty());
    for &(x, y) in &points {
        assert!(x < 40);
        assert!(y < 30);
    }
    for i in 0..points.len() {
        for j in 0..points.len() {
            if i != j {
                assert!(squared_distance(points[i], points[j]) >= 25);
            }
        }
    }
}

#[test]
fn poisson_rejects_huge_min_distance() {
    let mut rng = SeededSource::new(1);
    let result = sample_poisson_disc_2d(&mut rng, 0x4000_0000, 10, 10);
    assert_eq!(result.unwrap_err(), ConfigError::ArithmeticPrecondition);
}

#[test]
fn poisson_rejects_zero_min_distance() {
    let mut rng = SeededSource::new(1);
    let result = sample_poisson_disc_2d(&mut rng, 0, 10, 10);
    assert_eq!(result.unwrap_err(), ConfigError::RangeConfiguration);
}

#[test]
fn poisson_rejects_empty_domain() {
    let mut rng = SeededSource::new(1);
    let result = sample_poisson_disc_2d(&mut rng, 2, 0, 10);
    assert_eq!(result.unwrap_err(), ConfigError::RangeConfiguration);
    let result = sample_poisson_disc_2d(&mut rng, 2, 10, 0);
    assert_eq!(result.unwrap_err(), ConfigError::RangeConfiguration);
}

#[test]
fn moon_disc_radius_three() {
    let mut points = filled_circle((0, 0), 3).unwrap();
    let mut expected: Vec<(i32, i32)> = Vec::new();
    for x in -3i32..=3 {
        for y in -3i32..=3 {
            if x * x + y * y < 9 {
                expected.push((x, y));
            }
        }
    }
    points.sort();
    expected.sort();
    assert_eq!(points, expected);
}

#[test]
fn moon_disc_is_translated() {
    let mut points = filled_circle((20, 20), 2).unwrap();
    let mut expected: Vec<(i32, i32)> = Vec::new();
    for x in -2i32..=2 {
        for y in -2i32..=2 {
            if x * x + y * y < 4 {
                expected.push((x + 20, y + 20));
            }
        }
    }
    points.sort();
    expected.sort();
    assert_eq!(points, expected);
}

#[test]
fn moon_disc_rejects_huge_radius() {
    let result = filled_circle((0, 0), 32768);
    assert_eq!(result.unwrap_err(), ConfigError::ArithmeticPrecondition);
}

#[test]
fn moon_disc_rejects_center_near_extremes() {
    let result = filled_circle((i32::MAX - 1, 0), 3);
    assert_eq!(result.unwrap_err(), ConfigError::ArithmeticPrecondition);
}

#[test]
fn column_rasterizer_five_by_three() {
    let b = Building::new(5, 3, vec![]);
    let columns = b.iter_columns();
    let border = vec![Pixel::Border; 5];
    let interior = vec![
        Pixel::Border,
        Pixel::Background,
        Pixel::Background,
        Pixel::Background,
        Pixel::Background,
    ];
    assert_eq!(columns, vec![border.clone(), interior, border]);
}

#[test]
fn column_rasterizer_zero_height() {
    let b = Building::new(0, 4, vec![]);
    let columns = b.iter_columns();
    assert_eq!(columns, vec![vec![], vec![], vec![], vec![]]);
}

#[test]
fn column_rasterizer_draws_windows() {
    let b = Building::new(6, 5, vec![(2, 3), (3, 2)]);
    let columns = b.iter_columns();
    assert_eq!(columns.len(), 5);
    assert_eq!(columns[0], vec![Pixel::Border; 6]);
    assert_eq!(columns[4], vec![Pixel::Border; 6]);
    assert_eq!(columns[2][0], Pixel::Border);
    assert_eq!(columns[2][3], Pixel::Window);
    assert_eq!(columns[2][1], Pixel::Background);
    assert_eq!(columns[3][2], Pixel::Window);
    assert_eq!(columns[1], vec![
        Pixel::Border,
        Pixel::Background,
        Pixel::Background,
        Pixel::Background,
        Pixel::Background,
        Pixel::Background,
    ]);
}

#[test]
fn generator_rejects_single_height() {
    let rng = SeededSource::new(3);
    let result = RandomBuildingGenerator::new(5..6, 5..11, 5, 2, rng);
    assert_eq!(result.err().unwrap(), ConfigError::RangeConfiguration);
}

#[test]
fn generator_rejects_empty_width_range() {
    let rng = SeededSource::new(3);
    let result = RandomBuildingGenerator::new(5..51, 7..7, 5, 2, rng);
    assert_eq!(result.err().unwrap(), ConfigError::RangeConfiguration);
}

#[test]
fn generator_rejects_huge_window_distance() {
    let rng = SeededSource::new(3);
    let result = RandomBuildingGenerator::new(5..51, 5..11, 5, 0x4000_0000, rng);
    assert_eq!(result.err().unwrap(), ConfigError::ArithmeticPrecondition);
}

#[test]
fn generator_rejects_zero_window_distance() {
    let rng = SeededSource::new(3);
    let result = RandomBuildingGenerator::new(5..51, 5..11, 5, 0, rng);
    assert_eq!(result.err().unwrap(), ConfigError::RangeConfiguration);
}

#[test]
fn generator_rejects_width_range_with_zero() {
    let rng = SeededSource::new(3);
    let result = RandomBuildingGenerator::new(5..51, 0..5, 5, 2, rng);
    assert_eq!(result.err().unwrap(), ConfigError::RangeConfiguration);
}

#[test]
fn stream_rejects_zero_window_distance() {
    let rng = SeededSource::new(3);
    assert_eq!(
        skyline(5..51, 5..11, 5, 0, rng).err().unwrap(),
        ConfigError::RangeConfiguration
    );
}

#[test]
fn small_buildings_get_no_windows() {
    let rng = SeededSource::new(9);
    // Widths below five and heights below four leave no room for the inset
    // sampling rectangle.
    let mut generator = RandomBuildingGenerator::new(2..4, 3..5, 8, 1, rng).unwrap();
    for _ in 0..50 {
        let b = generator.next();
        assert!(b.windows.is_empty());
    }
}

#[test]
fn windows_lie_strictly_inside() {
    let rng = SeededSource::new(13);
    let mut generator = RandomBuildingGenerator::new(10..40, 8..16, 6, 2, rng).unwrap();
    for _ in 0..100 {
        let b = generator.next();
        assert!(b.windows.len() <= 6);
        for &(x, y) in &b.windows {
            assert!(x >= 2 && x + 2 < b.width);
            assert!(y >= 2 && y + 1 < b.height);
        }
    }
}

#[test]
fn windows_keep_the_minimum_spacing() {
    let rng = SeededSource::new(17);
    let mut generator = RandomBuildingGenerator::new(12..40, 10..20, 8, 3, rng).unwrap();
    for _ in 0..100 {
        let b = generator.next();
        for i in 0..b.windows.len() {
            for j in 0..b.windows.len() {
                if i != j {
                    assert!(squared_distance(b.windows[i], b.windows[j]) >= 9);
                }
            }
        }
    }
}

#[test]
fn large_buildings_get_at_least_one_window() {
    let rng = SeededSource::new(19);
    // Every drawn building is at least 5 wide and 4 tall here.
    let mut generator = RandomBuildingGenerator::new(4..30, 5..12, 3, 2, rng).unwrap();
    for _ in 0..100 {
        let b = generator.next();
        if b.height >= 4 {
            assert!(!b.windows.is_empty());
        }
    }
}

/// Replays the generator with the same seed and applies the three-column
/// sliding-window filter directly to the flattened column sequence.
fn reference_columns(seed: u64, count: usize) -> Vec<Vec<Pixel>> {
    let rng = SeededSource::new(seed);
    let mut generator = RandomBuildingGenerator::new(5..51, 5..11, 5, 2, rng).unwrap();
    let mut flat: Vec<Vec<Pixel>> = vec![vec![]];
    let mut out: Vec<Vec<Pixel>> = Vec::new();
    let mut pos = 0usize;
    while out.len() < count {
        while flat.len() < pos + 3 {
            let b = generator.next();
            flat.extend(b.iter_columns());
        }
        let current = &flat[pos + 1];
        if current.len() >= flat[pos].len() && current.len() >= flat[pos + 2].len() {
            out.push(current.clone());
        }
        pos += 1;
    }
    out
}

fn stream_columns(seed: u64, count: usize) -> Vec<Vec<Pixel>> {
    let rng = SeededSource::new(seed);
    let mut stream = skyline(5..51, 5..11, 5, 2, rng).unwrap();
    let mut out: Vec<Vec<Pixel>> = Vec::new();
    for _ in 0..count {
        out.push(stream.next_column());
    }
    out
}

#[test]
fn stream_matches_reference_filter() {
    // The stream emits exactly the local maxima of the seeded column
    // sequence, in order, with everything else dropped.
    let expected = reference_columns(2024, 200);
    let actual = stream_columns(2024, 200);
    assert_eq!(expected, actual);
}

#[test]
fn stream_first_column_respects_empty_predecessor() {
    // The flattened sequence is seeded with one empty column, so the first
    // real column survives only if it is at least as tall as its successor;
    // the reference replay makes that visible for the first emission too.
    let expected = reference_columns(77, 1);
    let actual = stream_columns(77, 1);
    assert_eq!(expected, actual);
    assert!(!actual[0].is_empty());
}

#[test]
fn stream_is_deterministic_for_a_fixed_seed() {
    let first = stream_columns(123456, 300);
    let second = stream_columns(123456, 300);
    assert_eq!(first, second);
}

#[test]
fn sky_has_spaced_stars_and_a_round_moon() {
    let mut rng = SeededSource::new(5);
    let (stars, moon) = generate_sky(&mut rng, 128, 96, 20, 5, 12, (20, 20)).unwrap();
    assert!(!stars.is_empty());
    assert!(stars.len() <= 20);
    for &(x, y) in &stars {
        assert!(x < 128);
        assert!(y < 96);
    }
    for i in 0..stars.len() {
        for j in 0..stars.len() {
            if i != j {
                assert!(squared_distance(stars[i], stars[j]) >= 25);
            }
        }
    }
    let mut moon_sorted = moon;
    let mut expected: Vec<(i32, i32)> = Vec::new();
    for x in -12i32..=12 {
        for y in -12i32..=12 {
            if x * x + y * y < 144 {
                expected.push((x + 20, y + 20));
            }
        }
    }
    moon_sorted.sort();
    expected.sort();
    assert_eq!(moon_sorted, expected);
}

#[test]
fn sky_rejects_overflowing_moon() {
    let mut rng = SeededSource::new(5);
    let result = generate_sky(&mut rng, 128, 96, 20, 5, 40000, (20, 20));
    assert_eq!(result.unwrap_err(), ConfigError::ArithmeticPrecondition);
}

#[test]
fn parses_plain_hex_color() {
    assert_eq!(parse_hex_color(b"#3f3f74"), Some((63, 63, 116)));
}

#[test]
fn parses_embedded_hex_color() {
    assert_eq!(parse_hex_color(b"color: #fbf236 tail"), Some((251, 242, 54)));
}

#[test]
fn parses_leftmost_hex_color() {
    assert_eq!(parse_hex_color(b"#000000 and #ffffff"), Some((0, 0, 0)));
}

#[test]
fn rejects_uppercase_hex_color() {
    assert_eq!(parse_hex_color(b"#AABBCC"), None);
}

#[test]
fn rejects_short_hex_color() {
    assert_eq!(parse_hex_color(b"#12345"), None);
}

#[test]
fn rejects_text_without_hex_color() {
    assert_eq!(parse_hex_color(b"midnight blue"), None);
}
