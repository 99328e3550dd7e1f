use fractal::band_layout::{ith_window, MINIMUM_LAST_BAND_HEIGHT};
use fractal::recursive_mandelbrot_engine::{calculate_recursive, unique_escape_for};
use fractal::{
    verify_band_height, BandConfigError, MandelbrotEngine, PixelBand, RecursiveMandelbrotEngine,
    SimpleMandelbrotEngine, Window,
};
use num::complex::Complex64;

fn escape_time(c: Complex64, max_iterations: u8) -> u8 {
    let mut point = c;
    for escape in 1..max_iterations {
        point = point * point + c;
        if point.norm_sqr() > 4.0 {
            return escape;
        }
    }
    max_iterations
}

/// Escape values of the view from -2 - i to 1 + i on a `width` by `height` grid.
fn default_view(width: u32, height: u32, max_iterations: u8) -> impl Fn(u32, u32) -> u8 + Sync {
    move |x: u32, y: u32| {
        let c = Complex64::new(
            -2.0 + (x as f64) * 3.0 / (width as f64),
            -1.0 + (y as f64) * 2.0 / (height as f64),
        );
        escape_time(c, max_iterations)
    }
}

fn render<E: MandelbrotEngine, F: Fn(u32, u32) -> u8 + Sync>(
    engine: &E,
    f: &F,
    width: u32,
    height: u32,
) -> Result<Vec<u8>, BandConfigError> {
    let mut pixels = vec![0u8; (width * height) as usize];
    engine.calculate(f, width, height, &mut pixels)?;
    Ok(pixels)
}

fn every_pixel<F: Fn(u32, u32) -> u8>(f: &F, width: u32, height: u32) -> Vec<u8> {
    let mut out = Vec::new();
    for y in 0..height {
        for x in 0..width {
            out.push(f(x, y));
        }
    }
    out
}

#[test]
fn engines_agree_on_default_view() {
    let (width, height) = (64, 64);
    let f = default_view(width, height, 50);

    let simple = render(&SimpleMandelbrotEngine::new(false), &f, width, height).unwrap();
    let recursive = render(&RecursiveMandelbrotEngine::new(false, 16), &f, width, height).unwrap();
    let banded = render(&RecursiveMandelbrotEngine::new(true, 16), &f, width, height).unwrap();

    assert_eq!(simple, every_pixel(&f, width, height));
    assert_eq!(recursive, simple);
    assert_eq!(banded, simple);
}

#[test]
fn simple_engine_parallel_matches_serial() {
    let f = |x: u32, y: u32| ((x * 7 + y * 3) % 50 + 1) as u8;
    let serial = render(&SimpleMandelbrotEngine::new(false), &f, 37, 23).unwrap();
    let parallel = render(&SimpleMandelbrotEngine::new(true), &f, 37, 23).unwrap();
    assert_eq!(serial, every_pixel(&f, 37, 23));
    assert_eq!(parallel, serial);
}

#[test]
fn recursive_engine_is_exact_where_no_window_hides_an_island() {
    // Escape values that only grow away from the corner: a uniform border
    // means a uniform window.
    let f = |x: u32, y: u32| if x + y < 40 { 3 } else { 200 };
    let (width, height) = (100, 70);
    let expected = every_pixel(&f, width, height);
    assert_eq!(render(&RecursiveMandelbrotEngine::new(false, 10), &f, width, height).unwrap(), expected);
    assert_eq!(render(&RecursiveMandelbrotEngine::new(true, 10), &f, width, height).unwrap(), expected);
    assert_eq!(render(&RecursiveMandelbrotEngine::new(true, 14), &f, width, height).unwrap(), expected);
}

#[test]
fn recursive_engine_fills_window_with_uniform_border() {
    // An island enclosed by one value is not seen: the border decides.
    let f = |x: u32, y: u32| if x == 2 && y == 2 { 9 } else { 1 };
    let recursive = render(&RecursiveMandelbrotEngine::new(false, 8), &f, 5, 5).unwrap();
    assert_eq!(recursive, vec![1u8; 25]);
    let simple = render(&SimpleMandelbrotEngine::new(false), &f, 5, 5).unwrap();
    assert_eq!(simple[12], 9);
}

#[test]
fn parallel_render_repeats_itself() {
    let f = default_view(80, 48, 30);
    let engine = RecursiveMandelbrotEngine::new(true, 8);
    let first = render(&engine, &f, 80, 48).unwrap();
    let second = render(&engine, &f, 80, 48).unwrap();
    assert_eq!(first, second);
    assert!(first.iter().all(|&v| (1..=30).contains(&v)));
}

#[test]
fn parallel_render_with_short_last_band_fails_untouched() {
    let f = |_x: u32, _y: u32| 5u8;
    let engine = RecursiveMandelbrotEngine::new(true, 64);
    let mut pixels = vec![0u8; 10 * 70];
    assert_eq!(engine.calculate(&f, 10, 70, &mut pixels), Err(BandConfigError::LastBandTooShort));
    assert!(pixels.iter().all(|&v| v == 0));
}

#[test]
fn parallel_render_with_zero_band_height_fails() {
    let f = |_x: u32, _y: u32| 5u8;
    let engine = RecursiveMandelbrotEngine::new(true, 0);
    let mut pixels = vec![0u8; 10 * 10];
    assert_eq!(engine.calculate(&f, 10, 10, &mut pixels), Err(BandConfigError::ZeroBandHeight));
}

#[test]
fn band_taller_than_canvas_is_one_band() {
    let f = |x: u32, y: u32| (x % 3 + y % 5 + 1) as u8;
    let banded = render(&RecursiveMandelbrotEngine::new(true, 500), &f, 20, 12).unwrap();
    let serial = render(&RecursiveMandelbrotEngine::new(false, 500), &f, 20, 12).unwrap();
    assert_eq!(banded, serial);
}

#[test]
fn verify_band_height_counts_bands() {
    assert_eq!(verify_band_height(16, 64), Ok(4));
    assert_eq!(verify_band_height(64, 768), Ok(12));
    assert_eq!(verify_band_height(64, 72), Ok(2));
    assert_eq!(verify_band_height(100, 8), Ok(1));
}

#[test]
fn verify_band_height_rejects_bad_configurations() {
    assert_eq!(verify_band_height(0, 64), Err(BandConfigError::ZeroBandHeight));
    assert_eq!(verify_band_height(16, 0), Err(BandConfigError::NoBands));
    assert_eq!(verify_band_height(64, 70), Err(BandConfigError::LastBandTooShort));
    assert_eq!(verify_band_height(64, 64 + MINIMUM_LAST_BAND_HEIGHT - 1), Err(BandConfigError::LastBandTooShort));
    assert_eq!(verify_band_height(100, 7), Err(BandConfigError::LastBandTooShort));
}

#[test]
fn ith_window_starts_at_band_row() {
    assert_eq!(ith_window(3, 640, 64, 20), Window { min_x: 0, min_y: 192, width: 640, height: 20 });
}

#[test]
fn unique_escape_reads_the_border() {
    let window = Window::new(1, 1, 3, 3);
    let uniform_border = |x: u32, y: u32| if x == 2 && y == 2 { 7 } else { 4 };
    assert_eq!(unique_escape_for(&uniform_border, &window), Some(4));
    let broken_border = |x: u32, y: u32| if x == 3 && y == 2 { 7 } else { 4 };
    assert_eq!(unique_escape_for(&broken_border, &window), None);
}

#[test]
fn calculate_recursive_writes_only_its_window() {
    let f = |x: u32, y: u32| (x + 10 * y) as u8;
    let mut pixels = vec![0u8; 6 * 4];
    {
        let mut band = PixelBand::new(&mut pixels[6..], 6);
        calculate_recursive(&f, 6, &Window::new(2, 1, 3, 2), &mut band);
    }
    let mut expected = vec![0u8; 24];
    for y in 1..3u32 {
        for x in 2..5u32 {
            expected[(y * 6 + x) as usize] = (x + 10 * y) as u8;
        }
    }
    assert_eq!(pixels, expected);
}

#[test]
fn worker_count_does_not_change_the_render() {
    let f = default_view(96, 40, 60);
    let one = rayon::ThreadPoolBuilder::new().num_threads(1).build().unwrap();
    let four = rayon::ThreadPoolBuilder::new().num_threads(4).build().unwrap();
    let recursive = RecursiveMandelbrotEngine::new(true, 8);
    let simple = SimpleMandelbrotEngine::new(true);

    let recursive_one = one.install(|| render(&recursive, &f, 96, 40)).unwrap();
    let recursive_four = four.install(|| render(&recursive, &f, 96, 40)).unwrap();
    assert_eq!(recursive_one, recursive_four);

    let simple_one = one.install(|| render(&simple, &f, 96, 40)).unwrap();
    let simple_four = four.install(|| render(&simple, &f, 96, 40)).unwrap();
    assert_eq!(simple_one, simple_four);
    assert_eq!(simple_one, render(&SimpleMandelbrotEngine::new(false), &f, 96, 40).unwrap());
}
