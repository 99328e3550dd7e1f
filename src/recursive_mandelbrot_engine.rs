use vstd::prelude::*;
use crate::band_fill::{calculate_window, fill_window};
use crate::band_layout::{band_config_error, verify_band_height, BandConfigError};
use crate::canvas::{
    canvas,
    fits,
    image_of,
    lemma_fits_parts,
    lemma_painted_agree,
    lemma_painted_canvas,
    lemma_painted_parts,
    painted,
};
use crate::mandelbrot_engine::MandelbrotEngine;
use crate::parallel::{
    banded_values,
    calculate_bands_in_parallel,
    lemma_chunks_image,
    lemma_chunks_ok,
    BandFill,
};
use crate::escape_map::{escape_at, escape_map, is_escape_fn};
use crate::pixel_band::PixelBand;
use crate::window::Window;
use crate::window_iterator::{border_pixels, WindowBorderIterator};

verus! {

/// Every border pixel of `window` has the escape value of its top-left corner.
pub open spec fn border_uniform(e: spec_fn(u32, u32) -> u8, window: Window) -> bool {
    forall|k: int|
        0 <= k < border_pixels(window).len() ==> e(
            #[trigger] border_pixels(window)[k].x,
            border_pixels(window)[k].y,
        ) == e(window.min_x, window.min_y)
}

/// The value that the recursive subdivision gives pixel `(x, y)` of `window`: a
/// window with a uniform border takes its corner's value throughout; otherwise
/// a window that can be split hands the pixel to the part that holds it; a
/// window too small to split has every pixel's own escape value.
pub open spec fn recursive_value(e: spec_fn(u32, u32) -> u8, window: Window, x: u32, y: u32) -> u8
    decreases window.width + window.height,
{
    if !window.wf() {
        e(x, y)
    } else if border_uniform(e, window) {
        e(window.min_x, window.min_y)
    } else if window.split().1 is Some {
        let first = window.split().0;
        let second = window.split().1.unwrap();
        if first.contains(x as int, y as int) {
            proof {
                window.lemma_split_partitions();
            }
            recursive_value(e, first, x, y)
        } else {
            proof {
                window.lemma_split_partitions();
            }
            recursive_value(e, second, x, y)
        }
    } else {
        e(x, y)
    }
}

pub open spec fn recursive_values(e: spec_fn(u32, u32) -> u8, window: Window) -> spec_fn(u32, u32) -> u8 {
    |x: u32, y: u32| recursive_value(e, window, x, y)
}

/// The escape value shared by the corner and the whole border of `window`, if
/// there is one.
pub fn unique_escape_for<F: Fn(u32, u32) -> u8>(f: &F, window: &Window) -> (r: Option<u8>)
    requires
        is_escape_fn(*f),
        window.wf(),
    ensures
        r == (if border_uniform(escape_map(*f), *window) {
            Some(escape_map(*f)(window.min_x, window.min_y))
        } else {
            None
        }),
{
    let ghost e = escape_map(*f);
    let unique_escape = escape_at(f, window.min_x, window.min_y);
    let mut border = WindowBorderIterator::new(window);
    loop
        invariant
            is_escape_fn(*f),
            border.wf(),
            border.pixels() == border_pixels(*window),
            0 <= border.position() <= border.pixels().len(),
            e == escape_map(*f),
            unique_escape == e(window.min_x, window.min_y),
            forall|k: int|
                0 <= k < border.position() ==> e(
                    #[trigger] border_pixels(*window)[k].x,
                    border_pixels(*window)[k].y,
                ) == unique_escape,
        ensures
            border.position() >= border.pixels().len(),
        decreases border.pixels().len() - border.position(),
    {
        let ghost k = border.position();
        match border.next() {
            None => break,
            Some(pixel) => {
                let escape = escape_at(f, pixel.x, pixel.y);
                if escape != unique_escape {
                    assert(!border_uniform(e, *window)) by {
                        assert(border_pixels(*window)[k] == pixel);
                        assert(e(border_pixels(*window)[k].x, border_pixels(*window)[k].y)
                            != e(window.min_x, window.min_y));
                    }
                    return None;
                }
            },
        }
    }
    Some(unique_escape)
}

/// Fills `window` by recursive subdivision: one value for a window with a
/// uniform border, the two parts in turn for a window that splits, each
/// pixel's own escape value otherwise.
pub fn calculate_recursive<F: Fn(u32, u32) -> u8>(
    f: &F,
    width: u32,
    window: &Window,
    pixel_band: &mut PixelBand,
)
    requires
        is_escape_fn(*f),
        old(pixel_band).wf(),
        fits(old(pixel_band).offset as int, old(pixel_band).pixels@.len() as int, width as int, *window),
    ensures
        final(pixel_band).offset == old(pixel_band).offset,
        final(pixel_band).pixels@ == painted(
            old(pixel_band).pixels@,
            old(pixel_band).offset as int,
            width as int,
            *window,
            recursive_values(escape_map(*f), *window),
        ),
        final(final(pixel_band).pixels)@ == final(old(pixel_band).pixels)@,
    decreases window.width + window.height,
{
    let ghost e = escape_map(*f);
    let ghost start = pixel_band.pixels@;
    let ghost offset = pixel_band.offset as int;
    let unique_escape = unique_escape_for(f, window);
    if let Some(escape) = unique_escape {
        fill_window(width, window, escape, pixel_band);
        proof {
            lemma_painted_agree(start, offset, width as int, *window, |x: u32, y: u32| escape,
                recursive_values(e, *window));
        }
        return;
    }
    let (part1, optional_part2) = window.split_if_sensible();
    proof {
        window.lemma_split_partitions();
    }
    if let Some(part2) = optional_part2 {
        proof {
            lemma_fits_parts(offset, start.len() as int, width as int, *window);
        }
        calculate_recursive(f, width, &part1, pixel_band);
        calculate_recursive(f, width, &part2, pixel_band);
        proof {
            lemma_painted_parts(start, offset, width as int, *window, recursive_values(e, *window),
                part1, recursive_values(e, part1), part2, recursive_values(e, part2));
        }
        return;
    }
    calculate_window(f, width, window, pixel_band);
    proof {
        lemma_painted_agree(start, offset, width as int, *window, e, recursive_values(e, *window));
    }
}

} // verus!

verus! {

/// Fills windows by recursive subdivision; in parallel, one task per band of
/// `band_height` rows.
pub struct RecursiveMandelbrotEngine {
    in_parallel: bool,
    band_height: u32,
}

impl RecursiveMandelbrotEngine {
    pub fn new(in_parallel: bool, band_height: u32) -> (r: RecursiveMandelbrotEngine)
        ensures
            r.runs_in_parallel() == in_parallel,
            r.band_height() == band_height,
    {
        RecursiveMandelbrotEngine { in_parallel, band_height }
    }

    pub closed spec fn band_height(&self) -> u32 {
        self.band_height
    }
}

impl MandelbrotEngine for RecursiveMandelbrotEngine {
    closed spec fn runs_in_parallel(&self) -> bool {
        self.in_parallel
    }

    open spec fn serial_image(&self, e: spec_fn(u32, u32) -> u8, width: u32, height: u32) -> Seq<u8> {
        image_of(width, height, recursive_values(e, canvas(width, height)))
    }

    open spec fn parallel_image(&self, e: spec_fn(u32, u32) -> u8, width: u32, height: u32) -> Seq<u8> {
        image_of(
            width,
            height,
            banded_values(e, BandFill::Recursive, width, height, self.band_height()),
        )
    }

    open spec fn parallel_error(&self, height: u32) -> Option<BandConfigError> {
        band_config_error(height as int, self.band_height() as int)
    }

    fn should_calculate_in_parallel(&self) -> (r: bool) {
        self.in_parallel
    }

    fn calculate_serially<F: Fn(u32, u32) -> u8 + Sync>(
        &self,
        f: &F,
        width: u32,
        height: u32,
        pixels: &mut Vec<u8>,
    ) {
        let ghost start = pixels@;
        let length = pixels.len();
        let window = Window::new(0, 0, width, height);
        let mut pixel_band = PixelBand::new(pixels.as_mut_slice(), 0);
        proof {
            assert(pixel_band.pixels@.len() == length);
            assert(window.min_y * width == 0);
            assert((window.min_y + window.height) * width == width * height) by (nonlinear_arith)
                requires
                    window.min_y == 0,
                    window.height == height,
            ;
        }
        calculate_recursive(f, width, &window, &mut pixel_band);
        proof {
            lemma_painted_canvas(start, width, height, recursive_values(escape_map(*f), window));
        }
    }

    fn calculate_in_parallel<F: Fn(u32, u32) -> u8 + Sync>(
        &self,
        f: &F,
        width: u32,
        height: u32,
        pixels: &mut Vec<u8>,
    ) -> (r: Result<(), BandConfigError>) {
        if let Err(error) = verify_band_height(self.band_height, height) {
            return Err(error);
        }
        let ghost start = pixels@;
        let length = pixels.len();
        let band_height = if self.band_height > height {
            height
        } else {
            self.band_height
        };
        proof {
            assert(start.len() == length);
            lemma_chunks_ok(start, BandFill::Recursive, width, height, band_height);
            assert(width * band_height >= 1) by (nonlinear_arith)
                requires
                    width >= 1,
                    band_height >= 1,
            ;
        }
        let chunk_size = (width as usize) * (band_height as usize);
        calculate_bands_in_parallel(
            f,
            BandFill::Recursive,
            width,
            band_height,
            chunk_size,
            pixels.as_mut_slice(),
        );
        proof {
            let e = escape_map(*f);
            lemma_chunks_image(start, pixels@, e, BandFill::Recursive, width, height, band_height);
            let ours = image_of(width, height, banded_values(e, BandFill::Recursive, width, height, band_height));
            let wanted = self.parallel_image(e, width, height);
            assert forall|g: int| 0 <= g < ours.len() implies ours[g] == wanted[g] by {
                crate::grid::lemma_index_bounds(g, width as int, height as int);
                let y = g / (width as int);
                if self.band_height > height {
                    vstd::arithmetic::div_mod::lemma_fundamental_div_mod_converse(y, height as int, 0, y);
                    vstd::arithmetic::div_mod::lemma_fundamental_div_mod_converse(
                        y,
                        self.band_height as int,
                        0,
                        y,
                    );
                }
            }
            assert(ours =~= wanted);
        }
        Ok(())
    }
}

} // verus!
