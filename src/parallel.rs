use vstd::prelude::*;
use rayon::prelude::{IndexedParallelIterator, ParallelIterator, ParallelSliceMut};
use crate::band_fill::{calculate_line, line_window};
use crate::band_layout::ith_window;
use crate::canvas::{image_of, painted};
use crate::escape_map::{escape_map, is_escape_fn};
use crate::pixel_band::PixelBand;
use crate::recursive_mandelbrot_engine::{calculate_recursive, recursive_value, recursive_values};
use crate::band_layout::band_window;
use crate::window::Window;

verus! {

/// How the worker of a parallel render fills its band.
#[derive(Debug, PartialEq, Eq, Structural, Copy, Clone)]
pub enum BandFill {
    /// The band is one row; each pixel gets its own escape value.
    Line,
    /// The band is filled by recursive subdivision.
    Recursive,
}

/// Part `i` of `s` when it is cut into consecutive chunks of `chunk_len`
/// entries, the last one possibly shorter.
pub open spec fn chunk_of(s: Seq<u8>, chunk_len: int, i: int) -> Seq<u8> {
    s.subrange(
        i * chunk_len,
        if (i + 1) * chunk_len < s.len() {
            (i + 1) * chunk_len
        } else {
            s.len() as int
        },
    )
}

/// Chunks of `chunk_len` entries needed to cover `len` entries.
pub open spec fn chunk_count(len: int, chunk_len: int) -> int {
    (len + chunk_len - 1) / chunk_len
}

/// The window of band `i` whose part of a buffer with rows `width` long is
/// `chunk`.
pub open spec fn chunk_window(width: u32, band_height: u32, i: int, chunk: Seq<u8>) -> Window {
    Window {
        min_x: 0,
        min_y: (i * band_height) as u32,
        width,
        height: ((chunk.len() as int) / (width as int)) as u32,
    }
}

/// `chunk`, the part of the buffer that starts at band `i`, once the band is
/// filled.
pub open spec fn filled_band(
    e: spec_fn(u32, u32) -> u8,
    fill: BandFill,
    width: u32,
    band_height: u32,
    i: int,
    chunk: Seq<u8>,
) -> Seq<u8> {
    let window = chunk_window(width, band_height, i, chunk);
    painted(
        chunk,
        i * (width * band_height),
        width as int,
        window,
        match fill {
            BandFill::Line => e,
            BandFill::Recursive => recursive_values(e, window),
        },
    )
}

/// What a chunk handed to a band worker satisfies.
pub open spec fn band_chunk_ok(
    fill: BandFill,
    width: u32,
    band_height: u32,
    i: int,
    chunk: Seq<u8>,
) -> bool {
    &&& width >= 1
    &&& band_height >= 1
    &&& fill == BandFill::Line ==> band_height == 1
    &&& width * band_height <= usize::MAX
    &&& chunk.len() >= 1
    &&& (chunk.len() as int) % (width as int) == 0
    &&& chunk.len() <= width * band_height
    &&& 0 <= i
    &&& i * (width * band_height) + chunk.len() <= usize::MAX
    &&& i * band_height + (chunk.len() as int) / (width as int) <= u32::MAX
}

/// The value each pixel gets when the canvas is cut into bands of
/// `band_height` rows and each band is filled on its own.
pub open spec fn banded_values(
    e: spec_fn(u32, u32) -> u8,
    fill: BandFill,
    width: u32,
    height: u32,
    band_height: u32,
) -> spec_fn(u32, u32) -> u8 {
    |x: u32, y: u32|
        match fill {
            BandFill::Line => e(x, y),
            BandFill::Recursive => recursive_value(
                e,
                band_window(width, height, band_height, (y as int) / (band_height as int)),
                x,
                y,
            ),
        }
}

/// A view of `pixel_chunk` as band `i` of a buffer cut into chunks of
/// `chunk_size` entries.
pub fn ith_pixel_band<'a>(i: usize, pixel_chunk: &'a mut [u8], chunk_size: usize) -> (r: PixelBand<'a>)
    requires
        i * chunk_size <= usize::MAX,
    ensures
        r.pixels@ == old(pixel_chunk)@,
        r.offset == i * chunk_size,
        final(pixel_chunk)@ == final(r.pixels)@,
{
    PixelBand::new(pixel_chunk, i * chunk_size)
}

/// Fills band `i`, held in `pixel_chunk`, of a canvas `width` wide cut into
/// bands of `band_height` rows.
pub fn calculate_band<F: Fn(u32, u32) -> u8>(
    f: &F,
    fill: BandFill,
    width: u32,
    band_height: u32,
    i: usize,
    pixel_chunk: &mut [u8],
)
    requires
        is_escape_fn(*f),
        band_chunk_ok(fill, width, band_height, i as int, old(pixel_chunk)@),
    ensures
        final(pixel_chunk)@ == filled_band(
            escape_map(*f),
            fill,
            width,
            band_height,
            i as int,
            old(pixel_chunk)@,
        ),
{
    let ghost start = pixel_chunk@;
    let chunk_size = (width as usize) * (band_height as usize);
    let current_band_height = (pixel_chunk.len() / (width as usize)) as u32;
    let ghost rows = current_band_height as int;
    proof {
        let w = width as int;
        let b = band_height as int;
        vstd::arithmetic::div_mod::lemma_fundamental_div_mod(start.len() as int, w);
        let n = start.len() as int;
        assert(i <= u32::MAX) by (nonlinear_arith)
            requires
                i * b + (start.len() as int) / w <= u32::MAX,
                b >= 1,
                (start.len() as int) / w >= 0,
                i >= 0,
        ;
        assert(rows >= 1) by (nonlinear_arith)
            requires
                n >= 1,
                n == w * rows,
                w >= 1,
        ;
        assert(i * b * w == i * (w * b)) by (nonlinear_arith);
        if fill == BandFill::Line {
            assert(rows == 1) by (nonlinear_arith)
                requires
                    n == w * rows,
                    n <= w * b,
                    b == 1,
                    rows >= 1,
                    w >= 1,
            ;
        }
        assert((i * b + rows) * w == i * (w * b) + n) by (nonlinear_arith)
            requires
                n == w * rows,
        ;
    }
    let window = ith_window(i, width, band_height, current_band_height);
    let mut pixel_band = ith_pixel_band(i, pixel_chunk, chunk_size);
    match fill {
        BandFill::Line => {
            assert(line_window(window, window.min_y) == window);
            calculate_line(f, width, &window, window.min_y, &mut pixel_band);
        },
        BandFill::Recursive => {
            calculate_recursive(f, width, &window, &mut pixel_band);
        },
    }
}

/// Relies on rayon's `par_chunks_mut`, `enumerate` and `for_each`: `pixels` is
/// cut into consecutive chunks of `chunk_len` entries, the last one possibly
/// shorter, and `calculate_band` runs once on each chunk, given the chunk's
/// index.
#[verifier::external_body]
pub(crate) fn calculate_bands_in_parallel<F: Fn(u32, u32) -> u8 + Sync>(
    f: &F,
    fill: BandFill,
    width: u32,
    band_height: u32,
    chunk_len: usize,
    pixels: &mut [u8],
)
    requires
        is_escape_fn(*f),
        chunk_len == width * band_height,
        chunk_len >= 1,
        forall|i: int|
            0 <= i < chunk_count(old(pixels)@.len() as int, chunk_len as int) ==> band_chunk_ok(
                fill,
                width,
                band_height,
                i,
                #[trigger] chunk_of(old(pixels)@, chunk_len as int, i),
            ),
    ensures
        final(pixels)@.len() == old(pixels)@.len(),
        forall|i: int|
            0 <= i < chunk_count(old(pixels)@.len() as int, chunk_len as int) ==> #[trigger] chunk_of(
                final(pixels)@,
                chunk_len as int,
                i,
            ) == filled_band(
                escape_map(*f),
                fill,
                width,
                band_height,
                i,
                chunk_of(old(pixels)@, chunk_len as int, i),
            ),
{
    pixels.par_chunks_mut(chunk_len).enumerate().for_each(
        |(i, chunk)| calculate_band(f, fill, width, band_height, i, chunk),
    );
}

} // verus!

verus! {

/// Chunk `i` of a buffer of `height` rows `width` long, cut into chunks of
/// `band_height` rows, starts at row `i * band_height` and holds
/// `rows` whole rows: `band_height` of them, or what is left.
pub proof fn lemma_chunk_shape(width: int, height: int, band_height: int, i: int)
    requires
        width >= 1,
        height >= 1,
        1 <= band_height <= height,
        0 <= i < chunk_count(width * height, width * band_height),
    ensures
        ({
            let chunk_len = width * band_height;
            let len = width * height;
            let rows = if height - i * band_height < band_height {
                height - i * band_height
            } else {
                band_height
            };
            let end = if (i + 1) * chunk_len < len {
                (i + 1) * chunk_len
            } else {
                len
            };
            &&& 0 <= i * band_height < height
            &&& 1 <= rows <= band_height
            &&& i * band_height + rows <= height
            &&& i * chunk_len == (i * band_height) * width
            &&& end - i * chunk_len == width * rows
            &&& end <= len
            &&& 0 <= i * chunk_len
        }),
{
    let chunk_len = width * band_height;
    let len = width * height;
    assert(chunk_len >= 1) by (nonlinear_arith)
        requires
            chunk_len == width * band_height,
            width >= 1,
            band_height >= 1,
    ;
    assert(len >= 1) by (nonlinear_arith)
        requires
            len == width * height,
            width >= 1,
            height >= 1,
    ;
    let count = chunk_count(len, chunk_len);
    vstd::arithmetic::div_mod::lemma_fundamental_div_mod(len + chunk_len - 1, chunk_len);
    let r = (len + chunk_len - 1) % chunk_len;
    assert(0 <= r < chunk_len) by {
        vstd::arithmetic::div_mod::lemma_mod_bound(len + chunk_len - 1, chunk_len);
    }
    // i < count, so i * chunk_len < len
    assert(i * chunk_len < len) by (nonlinear_arith)
        requires
            i < count,
            len + chunk_len - 1 == chunk_len * count + r,
            0 <= r < chunk_len,
            i >= 0,
            chunk_len >= 1,
    ;
    assert(i * chunk_len == (i * band_height) * width) by (nonlinear_arith)
        requires
            chunk_len == width * band_height,
    ;
    assert(i * band_height < height) by (nonlinear_arith)
        requires
            (i * band_height) * width < width * height,
            width >= 1,
    ;
    assert(i * band_height >= 0) by (nonlinear_arith)
        requires
            i >= 0,
            band_height >= 1,
    ;
    assert((i + 1) * chunk_len == (i * band_height + band_height) * width) by (nonlinear_arith)
        requires
            chunk_len == width * band_height,
    ;
    assert(len == height * width) by (nonlinear_arith)
        requires
            len == width * height,
    ;
    let rows = if height - i * band_height < band_height {
        height - i * band_height
    } else {
        band_height
    };
    if height - i * band_height < band_height {
        assert(len - i * chunk_len == width * rows) by (nonlinear_arith)
            requires
                i * chunk_len == (i * band_height) * width,
                len == height * width,
                rows == height - i * band_height,
        ;
        assert((i + 1) * chunk_len >= len) by (nonlinear_arith)
            requires
                (i + 1) * chunk_len == (i * band_height + band_height) * width,
                len == height * width,
                height < i * band_height + band_height,
                width >= 1,
        ;
    } else {
        assert((i + 1) * chunk_len <= len) by (nonlinear_arith)
            requires
                (i + 1) * chunk_len == (i * band_height + band_height) * width,
                len == height * width,
                height >= i * band_height + band_height,
                width >= 1,
        ;
        assert((i + 1) * chunk_len - i * chunk_len == width * rows) by (nonlinear_arith)
            requires
                chunk_len == width * band_height,
                rows == band_height,
        ;
    }
}

/// Where each chunk of a `width` by `height` buffer holds band `i` filled,
/// the buffer holds the image in which each pixel has the value its band gives
/// it.
pub proof fn lemma_chunks_image(
    before: Seq<u8>,
    after: Seq<u8>,
    e: spec_fn(u32, u32) -> u8,
    fill: BandFill,
    width: u32,
    height: u32,
    band_height: u32,
)
    requires
        width >= 1,
        height >= 1,
        1 <= band_height <= height,
        before.len() == width * height,
        after.len() == before.len(),
        forall|i: int|
            0 <= i < chunk_count(before.len() as int, width * band_height) ==> #[trigger] chunk_of(
                after,
                width * band_height,
                i,
            ) == filled_band(e, fill, width, band_height, i, chunk_of(before, width * band_height, i)),
    ensures
        after == image_of(width, height, banded_values(e, fill, width, height, band_height)),
{
    let w = width as int;
    let h = height as int;
    let b = band_height as int;
    let chunk_len = w * b;
    let len = w * h;
    let image = image_of(width, height, banded_values(e, fill, width, height, band_height));
    assert(chunk_len >= 1) by (nonlinear_arith)
        requires
            chunk_len == w * b,
            w >= 1,
            b >= 1,
    ;
    assert forall|g: int| 0 <= g < len implies after[g] == image[g] by {
        let i = g / chunk_len;
        let j = g % chunk_len;
        vstd::arithmetic::div_mod::lemma_fundamental_div_mod(g, chunk_len);
        vstd::arithmetic::div_mod::lemma_mod_bound(g, chunk_len);
        assert(i >= 0) by (nonlinear_arith)
            requires
                g >= 0,
                chunk_len >= 1,
                i == g / chunk_len,
        ;
        assert(g == i * chunk_len + j) by (nonlinear_arith)
            requires
                g == chunk_len * (g / chunk_len) + g % chunk_len,
                i == g / chunk_len,
                j == g % chunk_len,
        ;
        // chunk i exists
        vstd::arithmetic::div_mod::lemma_fundamental_div_mod(len + chunk_len - 1, chunk_len);
        vstd::arithmetic::div_mod::lemma_mod_bound(len + chunk_len - 1, chunk_len);
        let count = chunk_count(len, chunk_len);
        assert(i < count) by (nonlinear_arith)
            requires
                g == i * chunk_len + j,
                0 <= j < chunk_len,
                g < len,
                len + chunk_len - 1 == chunk_len * count + (len + chunk_len - 1) % chunk_len,
                0 <= (len + chunk_len - 1) % chunk_len < chunk_len,
                chunk_len >= 1,
        ;
        lemma_chunk_shape(w, h, b, i);
        let rows = if h - i * b < b {
            h - i * b
        } else {
            b
        };
        let start = i * chunk_len;
        let end = if (i + 1) * chunk_len < len {
            (i + 1) * chunk_len
        } else {
            len
        };
        assert((i + 1) * chunk_len == start + chunk_len) by (nonlinear_arith)
            requires
                start == i * chunk_len,
        ;
        assert(j < end - start) by (nonlinear_arith)
            requires
                g == start + j,
                g < len,
                0 <= j < chunk_len,
                end == len || end == (i + 1) * chunk_len,
                (i + 1) * chunk_len == start + chunk_len,
        ;
        let chunk_before = chunk_of(before, chunk_len, i);
        assert(after[g] == chunk_of(after, chunk_len, i)[j]);
        assert(chunk_before.len() == w * rows);
        assert(w * rows == rows * w) by (nonlinear_arith);
        vstd::arithmetic::div_mod::lemma_fundamental_div_mod_converse(
            chunk_before.len() as int,
            w,
            rows,
            0,
        );
        let window = chunk_window(width, band_height, i, chunk_before);
        assert(window.height == rows);
        let x = g % w;
        let y = g / w;
        vstd::arithmetic::div_mod::lemma_fundamental_div_mod(g, w);
        vstd::arithmetic::div_mod::lemma_mod_bound(g, w);
        // row y lies in rows i * b .. i * b + rows
        assert(i * b <= y < i * b + rows) by (nonlinear_arith)
            requires
                g == w * y + x,
                0 <= x < w,
                start == (i * b) * w,
                start <= g < start + w * rows,
                w >= 1,
        ;
        assert(y / b == i) by {
            vstd::arithmetic::div_mod::lemma_fundamental_div_mod_converse(y, b, i, y - i * b);
        }
        assert(window.contains(x, y));
        assert(window == band_window(width, height, band_height, i));
        assert(i * (w * b) == start);
    }
    assert(after =~= image);
}

} // verus!

verus! {

/// The chunks of a `width` by `height` buffer cut into bands of
/// `band_height` rows all meet what a band worker asks of its chunk.
pub proof fn lemma_chunks_ok(
    pixels: Seq<u8>,
    fill: BandFill,
    width: u32,
    height: u32,
    band_height: u32,
)
    requires
        width >= 1,
        height >= 1,
        1 <= band_height <= height,
        fill == BandFill::Line ==> band_height == 1,
        pixels.len() == width * height,
        pixels.len() <= usize::MAX,
    ensures
        width * band_height <= usize::MAX,
        forall|i: int|
            0 <= i < chunk_count(pixels.len() as int, width * band_height) ==> band_chunk_ok(
                fill,
                width,
                band_height,
                i,
                #[trigger] chunk_of(pixels, width * band_height, i),
            ),
{
    let w = width as int;
    let h = height as int;
    let b = band_height as int;
    assert(w * b <= w * h) by (nonlinear_arith)
        requires
            w >= 1,
            b <= h,
    ;
    assert forall|i: int|
        0 <= i < chunk_count(pixels.len() as int, width * band_height) implies band_chunk_ok(
        fill,
        width,
        band_height,
        i,
        #[trigger] chunk_of(pixels, width * band_height, i),
    ) by {
        lemma_chunk_shape(w, h, b, i);
        let rows = if h - i * b < b {
            h - i * b
        } else {
            b
        };
        let chunk = chunk_of(pixels, w * b, i);
        assert(chunk.len() == w * rows);
        assert(w * rows == rows * w) by (nonlinear_arith);
        vstd::arithmetic::div_mod::lemma_fundamental_div_mod_converse(chunk.len() as int, w, rows, 0);
        assert(w * rows >= 1 && w * rows <= w * b) by (nonlinear_arith)
            requires
                w >= 1,
                1 <= rows <= b,
        ;
    }
}

} // verus!
