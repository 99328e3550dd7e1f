use vstd::prelude::*;
use crate::band_fill::calculate_window;
use crate::band_layout::BandConfigError;
use crate::canvas::{image_of, lemma_painted_canvas};
use crate::escape_map::escape_map;
use crate::mandelbrot_engine::MandelbrotEngine;
use crate::parallel::{
    banded_values,
    calculate_bands_in_parallel,
    lemma_chunks_image,
    lemma_chunks_ok,
    BandFill,
};
use crate::pixel_band::PixelBand;
use crate::window::Window;

verus! {

/// Computes every pixel's escape value on its own; in parallel, one task per
/// row.
pub struct SimpleMandelbrotEngine {
    in_parallel: bool,
}

impl SimpleMandelbrotEngine {
    pub fn new(in_parallel: bool) -> (r: SimpleMandelbrotEngine)
        ensures
            r.runs_in_parallel() == in_parallel,
    {
        SimpleMandelbrotEngine { in_parallel }
    }
}

impl MandelbrotEngine for SimpleMandelbrotEngine {
    closed spec fn runs_in_parallel(&self) -> bool {
        self.in_parallel
    }

    open spec fn serial_image(&self, e: spec_fn(u32, u32) -> u8, width: u32, height: u32) -> Seq<u8> {
        image_of(width, height, e)
    }

    open spec fn parallel_image(&self, e: spec_fn(u32, u32) -> u8, width: u32, height: u32) -> Seq<u8> {
        image_of(width, height, e)
    }

    open spec fn parallel_error(&self, height: u32) -> Option<BandConfigError> {
        None
    }

    fn should_calculate_in_parallel(&self) -> (r: bool) {
        self.in_parallel
    }

    fn calculate_serially<F: Fn(u32, u32) -> u8 + Sync>(
        &self,
        f: &F,
        width: u32,
        height: u32,
        pixels: &mut Vec<u8>,
    ) {
        let ghost start = pixels@;
        let length = pixels.len();
        let window = Window::new(0, 0, width, height);
        let mut pixel_band = PixelBand::new(pixels.as_mut_slice(), 0);
        proof {
            assert(pixel_band.pixels@.len() == length);
            assert(window.min_y * width == 0);
            assert((window.min_y + window.height) * width == width * height) by (nonlinear_arith)
                requires
                    window.min_y == 0,
                    window.height == height,
            ;
        }
        calculate_window(f, width, &window, &mut pixel_band);
        proof {
            lemma_painted_canvas(start, width, height, escape_map(*f));
        }
    }

    fn calculate_in_parallel<F: Fn(u32, u32) -> u8 + Sync>(
        &self,
        f: &F,
        width: u32,
        height: u32,
        pixels: &mut Vec<u8>,
    ) -> (r: Result<(), BandConfigError>) {
        let ghost start = pixels@;
        let length = pixels.len();
        let chunk_size = width as usize;
        proof {
            assert(start.len() == length);
            lemma_chunks_ok(start, BandFill::Line, width, height, 1);
        }
        calculate_bands_in_parallel(f, BandFill::Line, width, 1, chunk_size, pixels.as_mut_slice());
        proof {
            lemma_chunks_image(start, pixels@, escape_map(*f), BandFill::Line, width, height, 1);
            assert(image_of(width, height, banded_values(escape_map(*f), BandFill::Line, width, height, 1))
                =~= image_of(width, height, escape_map(*f)));
        }
        Ok(())
    }
}

} // verus!
