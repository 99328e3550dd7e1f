use vstd::prelude::*;
use crate::canvas::{
    fits,
    lemma_painted_all,
    lemma_painted_none,
    lemma_painted_step,
    painted,
    painted_first,
};
use crate::escape_map::{escape_at, escape_map, is_escape_fn};
use crate::pixel_band::PixelBand;
use crate::window::Window;
use crate::window_iterator::{
    area_pixel,
    area_pixels,
    line_pixels,
    WindowAreaIterator,
    WindowLineIterator,
};
use vstd::arithmetic::div_mod::lemma_fundamental_div_mod_converse;

verus! {

/// Gives every pixel of `window` the value `color`.
pub fn fill_window(width: u32, window: &Window, color: u8, pixel_band: &mut PixelBand)
    requires
        old(pixel_band).wf(),
        fits(old(pixel_band).offset as int, old(pixel_band).pixels@.len() as int, width as int, *window),
    ensures
        final(pixel_band).offset == old(pixel_band).offset,
        final(pixel_band).pixels@ == painted(
            old(pixel_band).pixels@,
            old(pixel_band).offset as int,
            width as int,
            *window,
            |x: u32, y: u32| color,
        ),
        final(final(pixel_band).pixels)@ == final(old(pixel_band).pixels)@,
{
    let ghost start = pixel_band.pixels@;
    let ghost offset = pixel_band.offset as int;
    let ghost value = |x: u32, y: u32| color;
    let mut pixels = WindowAreaIterator::new(window);
    proof {
        lemma_painted_none(start, offset, width as int, *window, value);
    }
    loop
        invariant
            pixels.wf(),
            pixels.pixels() == area_pixels(*window),
            0 <= pixels.position() <= window.area(),
            pixel_band.wf(),
            value == (|x: u32, y: u32| color),
            start == old(pixel_band).pixels@,
            offset == old(pixel_band).offset,
            pixel_band.offset == offset,
            pixel_band.pixels@.len() == start.len(),
            fits(offset, start.len() as int, width as int, *window),
            pixel_band.pixels@ == painted_first(start, offset, width as int, *window, value, pixels.position()),
            final(pixel_band.pixels)@ == final(old(pixel_band).pixels)@,
        ensures
            pixels.position() >= window.area(),
        decreases window.area() - pixels.position(),
    {
        let ghost k = pixels.position();
        match pixels.next() {
            None => break,
            Some(pixel) => {
                proof {
                    lemma_painted_step(start, offset, width as int, *window, value, k);
                    assert(pixel == area_pixel(*window, k));
                }
                pixel_band.set_color_of_pixel(color, &pixel, width);
            },
        }
    }
    proof {
        lemma_painted_all(start, offset, width as int, *window, value);
    }
}

/// Gives every pixel of `window` its own escape value.
pub fn calculate_window<F: Fn(u32, u32) -> u8>(f: &F, width: u32, window: &Window, pixel_band: &mut PixelBand)
    requires
        is_escape_fn(*f),
        old(pixel_band).wf(),
        fits(old(pixel_band).offset as int, old(pixel_band).pixels@.len() as int, width as int, *window),
    ensures
        final(pixel_band).offset == old(pixel_band).offset,
        final(pixel_band).pixels@ == painted(
            old(pixel_band).pixels@,
            old(pixel_band).offset as int,
            width as int,
            *window,
            escape_map(*f),
        ),
        final(final(pixel_band).pixels)@ == final(old(pixel_band).pixels)@,
{
    let ghost start = pixel_band.pixels@;
    let ghost offset = pixel_band.offset as int;
    let ghost value = escape_map(*f);
    let mut pixels = WindowAreaIterator::new(window);
    proof {
        lemma_painted_none(start, offset, width as int, *window, value);
    }
    loop
        invariant
            is_escape_fn(*f),
            pixels.wf(),
            pixels.pixels() == area_pixels(*window),
            0 <= pixels.position() <= window.area(),
            pixel_band.wf(),
            value == escape_map(*f),
            start == old(pixel_band).pixels@,
            offset == old(pixel_band).offset,
            pixel_band.offset == offset,
            pixel_band.pixels@.len() == start.len(),
            fits(offset, start.len() as int, width as int, *window),
            pixel_band.pixels@ == painted_first(start, offset, width as int, *window, value, pixels.position()),
            final(pixel_band.pixels)@ == final(old(pixel_band).pixels)@,
        ensures
            pixels.position() >= window.area(),
        decreases window.area() - pixels.position(),
    {
        let ghost k = pixels.position();
        match pixels.next() {
            None => break,
            Some(pixel) => {
                proof {
                    lemma_painted_step(start, offset, width as int, *window, value, k);
                }
                let color = escape_at(f, pixel.x, pixel.y);
                pixel_band.set_color_of_pixel(color, &pixel, width);
            },
        }
    }
    proof {
        lemma_painted_all(start, offset, width as int, *window, value);
    }
}

/// Row `y` across the columns of `window`.
pub open spec fn line_window(window: Window, y: u32) -> Window {
    Window { min_x: window.min_x, min_y: y, width: window.width, height: 1 }
}

/// Gives every pixel of row `y` across the columns of `window` its own escape
/// value.
pub fn calculate_line<F: Fn(u32, u32) -> u8>(
    f: &F,
    width: u32,
    window: &Window,
    y: u32,
    pixel_band: &mut PixelBand,
)
    requires
        is_escape_fn(*f),
        window.wf(),
        old(pixel_band).wf(),
        fits(
            old(pixel_band).offset as int,
            old(pixel_band).pixels@.len() as int,
            width as int,
            line_window(*window, y),
        ),
    ensures
        final(pixel_band).offset == old(pixel_band).offset,
        final(pixel_band).pixels@ == painted(
            old(pixel_band).pixels@,
            old(pixel_band).offset as int,
            width as int,
            line_window(*window, y),
            escape_map(*f),
        ),
        final(final(pixel_band).pixels)@ == final(old(pixel_band).pixels)@,
{
    let ghost start = pixel_band.pixels@;
    let ghost offset = pixel_band.offset as int;
    let ghost value = escape_map(*f);
    let ghost line = line_window(*window, y);
    let mut pixels = WindowLineIterator::new(window, y);
    proof {
        lemma_painted_none(start, offset, width as int, line, value);
        assert(line.area() == window.width) by (nonlinear_arith)
            requires
                line.height == 1,
                line.width == window.width,
        ;
    }
    loop
        invariant
            is_escape_fn(*f),
            pixels.wf(),
            pixels.pixels() == line_pixels(*window, y),
            0 <= pixels.position() <= line.area(),
            line.area() == window.width,
            line == line_window(*window, y),
            pixel_band.wf(),
            value == escape_map(*f),
            start == old(pixel_band).pixels@,
            offset == old(pixel_band).offset,
            pixel_band.offset == offset,
            pixel_band.pixels@.len() == start.len(),
            fits(offset, start.len() as int, width as int, line),
            pixel_band.pixels@ == painted_first(start, offset, width as int, line, value, pixels.position()),
            final(pixel_band.pixels)@ == final(old(pixel_band).pixels)@,
        ensures
            pixels.position() >= line.area(),
        decreases line.area() - pixels.position(),
    {
        let ghost k = pixels.position();
        match pixels.next() {
            None => break,
            Some(pixel) => {
                proof {
                    lemma_fundamental_div_mod_converse(k, line.width as int, 0, k);
                    assert(pixel == area_pixel(line, k));
                    lemma_painted_step(start, offset, width as int, line, value, k);
                }
                let color = escape_at(f, pixel.x, pixel.y);
                pixel_band.set_color_of_pixel(color, &pixel, width);
            },
        }
    }
    proof {
        lemma_painted_all(start, offset, width as int, line, value);
    }
}

} // verus!
