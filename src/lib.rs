//! Escape-time fractal rendering: windows over the pixel grid, their recursive
//! subdivision, pixel iterators, and engines that fill a row-major pixel buffer
//! from a per-pixel escape-time function.
pub mod arguments;
pub mod band_fill;
pub mod band_layout;
pub mod canvas;
pub mod equivalence;
pub mod escape_map;
pub mod grid;
pub mod mandelbrot_engine;
pub mod parallel;
pub mod pixel;
pub mod pixel_band;
pub mod recursive_mandelbrot_engine;
pub mod simple_mandelbrot_engine;
pub mod window;
pub mod window_iterator;

pub use arguments::{parsed_max_iterations, parsed_resolution, ArgumentError};
pub use band_layout::{verify_band_height, BandConfigError};
pub use mandelbrot_engine::MandelbrotEngine;
pub use pixel::Pixel;
pub use pixel_band::PixelBand;
pub use recursive_mandelbrot_engine::RecursiveMandelbrotEngine;
pub use simple_mandelbrot_engine::SimpleMandelbrotEngine;
pub use window::Window;
pub use window_iterator::{WindowAreaIterator, WindowBorderIterator, WindowLineIterator};
