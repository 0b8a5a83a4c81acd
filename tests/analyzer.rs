use std::io::Cursor;

use image_dataset_analyzer::benchmark::timeit;
use image_dataset_analyzer::{
    describe_rgb8, get_dataset_description, get_pixels_description,
    integer_sqrt, matches_extension, probe_dimensions, AggregationError, DecodeError,
    DirEntryInfo, DirectoryScanner, MinMaxValues, PixelDescription, FIXED_ONE,
};

const ONE: u32 = FIXED_ONE as u32;

fn encode_png(width: u32, height: u32, raster: Vec<u8>) -> Vec<u8> {
    let img = image::RgbImage::from_raw(width, height, raster).unwrap();
    let mut out = Cursor::new(Vec::new());
    img.write_to(&mut out, image::ImageFormat::Png).unwrap();
    out.into_inner()
}

fn described(raster: &[u8]) -> PixelDescription {
    describe_rgb8(raster).unwrap()
}

#[test]
fn minmax_empty_is_sentinel() {
    let m = MinMaxValues::empty();
    assert_eq!(m, MinMaxValues { min: u32::MAX, max: 0 });
}

#[test]
fn minmax_observe_tracks_extremes() {
    let mut m = MinMaxValues::empty();
    m.observe(7);
    assert_eq!(m, MinMaxValues { min: 7, max: 7 });
    m.observe(3);
    m.observe(9);
    assert_eq!(m, MinMaxValues { min: 3, max: 9 });
    assert_eq!(MinMaxValues::of_values(&[5, 1, 8, 2]), MinMaxValues { min: 1, max: 8 });
    assert_eq!(MinMaxValues::of_values(&[]), MinMaxValues::empty());
}

#[test]
fn describe_rgb8_gives_averages_and_ranges() {
    let d = described(&[10, 20, 30, 20, 40, 50]);
    assert_eq!(d.r_avg, 15 * ONE);
    assert_eq!(d.g_avg, 30 * ONE);
    assert_eq!(d.b_avg, 40 * ONE);
    assert_eq!(d.r_val, MinMaxValues { min: 10, max: 20 });
    assert_eq!(d.g_val, MinMaxValues { min: 20, max: 40 });
    assert_eq!(d.b_val, MinMaxValues { min: 30, max: 50 });
}

#[test]
fn describe_rgb8_rounds_averages_down() {
    // red readings 0, 0, 1: a third, in fixed point with 24 fractional bits
    let d = described(&[0, 255, 0, 0, 255, 0, 1, 255, 0]);
    assert_eq!(d.r_avg, 5592405);
    assert_eq!(d.g_avg, 255 * ONE);
    assert_eq!(d.b_avg, 0);
}

#[test]
fn describe_rgb8_ignores_trailing_partial_pixel() {
    let d = described(&[100, 100, 100, 7, 7]);
    assert_eq!(d.r_avg, 100 * ONE);
    assert_eq!(d.r_val, MinMaxValues { min: 100, max: 100 });
}

#[test]
fn describe_rgb8_without_pixels_fails() {
    assert!(matches!(describe_rgb8(&[]), Err(DecodeError::NoPixels)));
    assert!(matches!(describe_rgb8(&[1, 2]), Err(DecodeError::NoPixels)));
}

#[test]
fn averages_lie_within_channel_ranges() {
    let raster: Vec<u8> = (0..300u32).map(|i| ((i * 37 + 11) % 256) as u8).collect();
    let d = described(&raster);
    for (avg, range) in [(d.r_avg, d.r_val), (d.g_avg, d.g_val), (d.b_avg, d.b_val)] {
        assert!(range.min <= range.max);
        assert!((range.min as u64) * (ONE as u64) <= avg as u64);
        assert!(avg as u64 <= (range.max as u64) * (ONE as u64));
    }
}

#[test]
fn get_pixels_description_decodes_png() {
    // 2x1 image: pixels (10, 20, 30) and (30, 60, 90)
    let png = encode_png(2, 1, vec![10, 20, 30, 30, 60, 90]);
    let d = get_pixels_description(&png).unwrap();
    assert_eq!(d.r_avg, 20 * ONE);
    assert_eq!(d.g_avg, 40 * ONE);
    assert_eq!(d.b_avg, 60 * ONE);
    assert_eq!(d.b_val, MinMaxValues { min: 30, max: 90 });
}

#[test]
fn get_pixels_description_rejects_garbage() {
    let r = get_pixels_description(b"definitely not an image");
    assert!(matches!(r, Err(DecodeError::Codec(_))));
}

#[test]
fn probe_dimensions_reads_png_header() {
    let png = encode_png(7, 3, vec![0; 7 * 3 * 3]);
    assert_eq!(probe_dimensions(&png).unwrap(), (7, 3));
    assert!(matches!(probe_dimensions(&[0, 1, 2, 3]), Err(DecodeError::Codec(_))));
}

#[test]
fn dataset_without_images_is_aggregation_error() {
    let r = get_dataset_description(&vec![], &vec![]);
    assert_eq!(r, Err(AggregationError::NoImages));
    let r = get_dataset_description(&vec![(4, 5)], &vec![]);
    assert_eq!(r, Err(AggregationError::NoImages));
}

#[test]
fn dataset_of_one_image_has_zero_deviation() {
    let d = described(&[0, 255, 0, 0, 255, 0, 1, 255, 0]);
    let r = get_dataset_description(&vec![(3, 1)], &vec![d]).unwrap();
    assert_eq!(r.size, 1);
    assert_eq!(r.pixels_description.r_avg, d.r_avg);
    assert_eq!(r.pixels_description.g_avg, d.g_avg);
    assert_eq!(r.pixels_description.b_avg, d.b_avg);
    assert_eq!(r.pixels_description.r_std, 0);
    assert_eq!(r.pixels_description.g_std, 0);
    assert_eq!(r.pixels_description.b_std, 0);
    assert_eq!(r.images_height, MinMaxValues { min: 3, max: 3 });
    assert_eq!(r.images_length, MinMaxValues { min: 1, max: 1 });
}

#[test]
fn dataset_of_two_images_scenario() {
    // channel averages (15, 30, 40) and (25, 50, 60)
    let a = described(&[10, 20, 30, 20, 40, 50]);
    let b = described(&[25, 50, 60]);
    let r = get_dataset_description(&vec![(720, 4000), (2667, 896)], &vec![a, b]).unwrap();
    assert_eq!(r.images_height, MinMaxValues { min: 720, max: 2667 });
    assert_eq!(r.images_length, MinMaxValues { min: 896, max: 4000 });
    assert_eq!(r.size, 2);
    let p = r.pixels_description;
    assert_eq!((p.r_avg, p.g_avg, p.b_avg), (20 * ONE, 40 * ONE, 50 * ONE));
    assert_eq!((p.r_std, p.g_std, p.b_std), (5 * ONE, 10 * ONE, 10 * ONE));
    let tolerance = 1e-4f64;
    let to_real = |x: u32| x as f64 / FIXED_ONE as f64;
    assert!((to_real(p.r_avg) - 20.0).abs() < tolerance);
    assert!((to_real(p.b_std) - 10.0).abs() < tolerance);
}

#[test]
fn dataset_deviation_is_population_deviation() {
    // red averages 0, 0, 0, 4: mean 1, variance (1 + 1 + 1 + 9) / 4 = 3
    let zero = described(&[0, 0, 0]);
    let four = described(&[4, 0, 0]);
    let r = get_dataset_description(&vec![], &vec![zero, zero, zero, four]).unwrap();
    assert_eq!(r.pixels_description.r_avg, ONE);
    let std = r.pixels_description.r_std as f64 / FIXED_ONE as f64;
    assert!((std - 3f64.sqrt()).abs() < 1e-6);
    assert_eq!(r.images_height, MinMaxValues::empty());
}

#[test]
fn repeated_aggregation_gives_identical_results() {
    let images: Vec<PixelDescription> = (0..50u32)
        .map(|i| described(&[(i * 5) as u8, (i * 3 % 256) as u8, (255 - i) as u8, 9, 9, 9]))
        .collect();
    let dims: Vec<(u32, u32)> = (0..50u32).map(|i| (100 + i, 300 - i)).collect();
    let first = get_dataset_description(&dims, &images).unwrap();
    let second = get_dataset_description(&dims, &images).unwrap();
    assert_eq!(first, second);
    let single = rayon::ThreadPoolBuilder::new().num_threads(1).build().unwrap();
    let many = rayon::ThreadPoolBuilder::new().num_threads(4).build().unwrap();
    let on_one = single.install(|| get_dataset_description(&dims, &images)).unwrap();
    let on_four = many.install(|| get_dataset_description(&dims, &images)).unwrap();
    assert_eq!(on_one, first);
    assert_eq!(on_four, first);
}

#[test]
fn integer_sqrt_is_floor_of_root() {
    assert_eq!(integer_sqrt(0), 0);
    assert_eq!(integer_sqrt(1), 1);
    assert_eq!(integer_sqrt(15), 3);
    assert_eq!(integer_sqrt(16), 4);
    assert_eq!(integer_sqrt(u64::MAX), u32::MAX);
}

#[test]
fn extension_match_is_plain_case_sensitive_suffix() {
    let jpg = vec!["jpg".to_string()];
    let png = vec!["png".to_string()];
    assert!(matches_extension(b"photo.jpg", &jpg));
    assert!(!matches_extension(b"photo.JPG", &jpg));
    assert!(matches_extension(b"xpng", &png));
    assert!(matches_extension(b"bitmapjpg", &jpg));
    assert!(!matches_extension(b"jp", &jpg));
    assert!(!matches_extension(b"photo.jpg", &vec![]));
}

fn entry(path: &str, is_dir: bool) -> DirEntryInfo {
    let name = path.rsplit('/').next().unwrap().as_bytes().to_vec();
    DirEntryInfo { path: path.to_string(), name, is_dir }
}

fn listing(dir: &str) -> Vec<DirEntryInfo> {
    match dir {
        "root" => vec![entry("root/a.jpg", false), entry("root/sub", true), entry("root/notes.txt", false)],
        "root/sub" => vec![entry("root/sub/deeper", true), entry("root/sub/b.png", false)],
        "root/sub/deeper" => vec![entry("root/sub/deeper/deepest", true), entry("root/sub/deeper/c.JPG", false)],
        "root/sub/deeper/deepest" => vec![entry("root/sub/deeper/deepest/d.jpg", false), entry("root/sub/deeper/deepest/e.jpg", true)],
        "root/sub/deeper/deepest/e.jpg" => vec![],
        _ => panic!("unexpected directory {dir}"),
    }
}

#[test]
fn scanner_finds_nested_images_and_no_directories() {
    let mut scanner = DirectoryScanner::new("root".to_string(), vec!["jpg".to_string(), "png".to_string()]);
    let mut listed = Vec::new();
    while let Some(dir) = scanner.next_directory() {
        scanner.add_entries(&listing(&dir));
        listed.push(dir);
    }
    assert!(scanner.is_done());
    assert_eq!(listed.len(), 5);
    let mut found = scanner.found.clone();
    found.sort();
    assert_eq!(found, vec!["root/a.jpg", "root/sub/b.png", "root/sub/deeper/deepest/d.jpg"]);
}

#[test]
fn scanner_walks_last_in_first_out() {
    let mut scanner = DirectoryScanner::new("r".to_string(), vec!["jpg".to_string()]);
    assert_eq!(scanner.next_directory(), Some("r".to_string()));
    scanner.add_entries(&vec![entry("r/x", true), entry("r/y", true)]);
    assert_eq!(scanner.unvisited, vec!["r/x".to_string(), "r/y".to_string()]);
    assert_eq!(scanner.next_directory(), Some("r/y".to_string()));
    assert_eq!(scanner.next_directory(), Some("r/x".to_string()));
    assert_eq!(scanner.next_directory(), None);
}

#[test]
fn timeit_returns_the_result() {
    let (value, _elapsed) = timeit(|| 6 * 7);
    assert_eq!(value, 42);
}
