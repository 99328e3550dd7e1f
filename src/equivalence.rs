use vstd::prelude::*;
use crate::band_layout::band_window;
use crate::canvas::{canvas, image_of};
use crate::mandelbrot_engine::MandelbrotEngine;
use crate::parallel::{banded_values, BandFill};
use crate::recursive_mandelbrot_engine::{
    border_uniform,
    recursive_value,
    recursive_values,
    RecursiveMandelbrotEngine,
};
use crate::simple_mandelbrot_engine::SimpleMandelbrotEngine;
use crate::window::Window;

verus! {

/// The border heuristic is right about `window`: where its border is uniform,
/// so is the whole window.
pub open spec fn uniform_border_is_right(e: spec_fn(u32, u32) -> u8, window: Window) -> bool {
    border_uniform(e, window) ==> forall|x: u32, y: u32|
        window.contains(x as int, y as int) ==> #[trigger] e(x, y) == e(window.min_x, window.min_y)
}

/// The heuristic is right about every window that the recursive subdivision of
/// `window` looks at.
pub open spec fn heuristic_holds(e: spec_fn(u32, u32) -> u8, window: Window) -> bool
    decreases window.width + window.height,
{
    if !window.wf() {
        true
    } else if border_uniform(e, window) {
        uniform_border_is_right(e, window)
    } else if window.split().1 is Some {
        proof {
            window.lemma_split_partitions();
        }
        heuristic_holds(e, window.split().0) && heuristic_holds(e, window.split().1.unwrap())
    } else {
        true
    }
}

/// Where the heuristic holds for a window, recursive subdivision gives every
/// pixel of it its own escape value.
pub proof fn lemma_recursive_value_exact(e: spec_fn(u32, u32) -> u8, window: Window, x: u32, y: u32)
    requires
        window.wf(),
        heuristic_holds(e, window),
        window.contains(x as int, y as int),
    ensures
        recursive_value(e, window, x, y) == e(x, y),
    decreases window.width + window.height,
{
    window.lemma_split_partitions();
    if border_uniform(e, window) {
    } else if window.split().1 is Some {
        let first = window.split().0;
        let second = window.split().1.unwrap();
        if first.contains(x as int, y as int) {
            lemma_recursive_value_exact(e, first, x, y);
        } else {
            lemma_recursive_value_exact(e, second, x, y);
        }
    }
}

/// A heuristic that is right about every window holds for every window.
pub proof fn lemma_heuristic_holds_everywhere(e: spec_fn(u32, u32) -> u8, window: Window)
    requires
        forall|w: Window| #[trigger] uniform_border_is_right(e, w),
    ensures
        heuristic_holds(e, window),
    decreases window.width + window.height,
{
    if window.wf() {
        window.lemma_split_partitions();
        assert(uniform_border_is_right(e, window));
        if !border_uniform(e, window) && window.split().1 is Some {
            lemma_heuristic_holds_everywhere(e, window.split().0);
            lemma_heuristic_holds_everywhere(e, window.split().1.unwrap());
        }
    }
}

/// Where the heuristic holds for the whole canvas, the serial recursive
/// engine leaves the same buffer as the simple engine.
pub proof fn lemma_serial_recursive_matches_simple(
    simple: SimpleMandelbrotEngine,
    recursive: RecursiveMandelbrotEngine,
    e: spec_fn(u32, u32) -> u8,
    width: u32,
    height: u32,
)
    requires
        width >= 1,
        height >= 1,
        heuristic_holds(e, canvas(width, height)),
    ensures
        recursive.serial_image(e, width, height) == simple.serial_image(e, width, height),
{
    let ours = image_of(width, height, recursive_values(e, canvas(width, height)));
    let theirs = image_of(width, height, e);
    assert forall|g: int| 0 <= g < ours.len() implies ours[g] == theirs[g] by {
        crate::grid::lemma_index_bounds(g, width as int, height as int);
        lemma_recursive_value_exact(
            e,
            canvas(width, height),
            (g % (width as int)) as u32,
            (g / (width as int)) as u32,
        );
    }
    assert(ours =~= theirs);
}

/// Where the heuristic holds for every band, the recursive engine run in
/// bands leaves the same buffer as the simple engine.
pub proof fn lemma_banded_recursive_matches_simple(
    simple: SimpleMandelbrotEngine,
    recursive: RecursiveMandelbrotEngine,
    e: spec_fn(u32, u32) -> u8,
    width: u32,
    height: u32,
)
    requires
        width >= 1,
        height >= 1,
        recursive.band_height() >= 1,
        forall|i: int| heuristic_holds(e, #[trigger] band_window(width, height, recursive.band_height(), i)),
    ensures
        recursive.parallel_image(e, width, height) == simple.serial_image(e, width, height),
{
    let b = recursive.band_height() as int;
    let ours = image_of(width, height, banded_values(e, BandFill::Recursive, width, height, recursive.band_height()));
    let theirs = image_of(width, height, e);
    assert forall|g: int| 0 <= g < ours.len() implies ours[g] == theirs[g] by {
        crate::grid::lemma_index_bounds(g, width as int, height as int);
        let y = g / (width as int);
        let i = y / b;
        vstd::arithmetic::div_mod::lemma_fundamental_div_mod(y, b);
        vstd::arithmetic::div_mod::lemma_mod_bound(y, b);
        assert(i * b <= y < i * b + b) by (nonlinear_arith)
            requires
                y == b * i + y % b,
                0 <= y % b < b,
        ;
        assert(i >= 0) by (nonlinear_arith)
            requires
                y >= 0,
                b >= 1,
                i == y / b,
        ;
        let window = band_window(width, height, recursive.band_height(), i);
        assert(heuristic_holds(e, window));
        lemma_recursive_value_exact(e, window, (g % (width as int)) as u32, y as u32);
    }
    assert(ours =~= theirs);
}

/// Where the border heuristic is right about every window, the simple engine,
/// the serial recursive engine and the recursive engine run in bands all leave
/// the same buffer.
pub proof fn lemma_engines_agree(
    simple: SimpleMandelbrotEngine,
    recursive: RecursiveMandelbrotEngine,
    e: spec_fn(u32, u32) -> u8,
    width: u32,
    height: u32,
)
    requires
        width >= 1,
        height >= 1,
        recursive.band_height() >= 1,
        forall|w: Window| #[trigger] uniform_border_is_right(e, w),
    ensures
        recursive.serial_image(e, width, height) == simple.serial_image(e, width, height),
        recursive.parallel_image(e, width, height) == simple.serial_image(e, width, height),
        recursive.parallel_image(e, width, height) == recursive.serial_image(e, width, height),
{
    lemma_heuristic_holds_everywhere(e, canvas(width, height));
    lemma_serial_recursive_matches_simple(simple, recursive, e, width, height);
    assert forall|i: int| heuristic_holds(e, #[trigger] band_window(width, height, recursive.band_height(), i)) by {
        lemma_heuristic_holds_everywhere(e, band_window(width, height, recursive.band_height(), i));
    }
    lemma_banded_recursive_matches_simple(simple, recursive, e, width, height);
}

/// The simple engine leaves the same buffer whether it runs serially or in
/// parallel, for every escape map.
pub proof fn lemma_simple_parallel_matches_serial(
    simple: SimpleMandelbrotEngine,
    e: spec_fn(u32, u32) -> u8,
    width: u32,
    height: u32,
)
    ensures
        simple.parallel_image(e, width, height) == simple.serial_image(e, width, height),
{
}

} // verus!
