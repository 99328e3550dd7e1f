use vstd::prelude::*;
use crate::grid::{lemma_index_bounds, lemma_index_in_rows, lemma_index_pixel};
use crate::window::Window;
use crate::window_iterator::area_pixel;
use vstd::arithmetic::div_mod::{lemma_fundamental_div_mod, lemma_fundamental_div_mod_converse};
use vstd::arithmetic::mul::lemma_mul_inequality;

verus! {

/// Position of pixel `(x, y)` within `window` in row-major order.
pub open spec fn rank_in(window: Window, x: int, y: int) -> int {
    (y - window.min_y) * window.width + (x - window.min_x)
}

/// `contents`, the part of a row-major buffer with rows `width` long that starts
/// at flat index `offset`, after the first `k` pixels of `window` in row-major
/// order got `value` of that pixel.
pub open spec fn painted_first(
    contents: Seq<u8>,
    offset: int,
    width: int,
    window: Window,
    value: spec_fn(u32, u32) -> u8,
    k: int,
) -> Seq<u8> {
    Seq::new(
        contents.len(),
        |i: int|
            {
                let x = (offset + i) % width;
                let y = (offset + i) / width;
                if window.contains(x, y) && rank_in(window, x, y) < k {
                    value(x as u32, y as u32)
                } else {
                    contents[i]
                }
            },
    )
}

/// `contents`, the part of a row-major buffer with rows `width` long that starts
/// at flat index `offset`, after each pixel of `window` got `value` of that
/// pixel.
pub open spec fn painted(
    contents: Seq<u8>,
    offset: int,
    width: int,
    window: Window,
    value: spec_fn(u32, u32) -> u8,
) -> Seq<u8> {
    Seq::new(
        contents.len(),
        |i: int|
            {
                let x = (offset + i) % width;
                let y = (offset + i) / width;
                if window.contains(x, y) {
                    value(x as u32, y as u32)
                } else {
                    contents[i]
                }
            },
    )
}

/// A buffer part of `len` entries from flat index `offset` holds every row that
/// `window` spans, in a buffer with rows `width` long that `window` does not
/// stick out of.
pub open spec fn fits(offset: int, len: int, width: int, window: Window) -> bool {
    &&& window.wf()
    &&& width > 0
    &&& window.min_x + window.width <= width
    &&& offset <= window.min_y * width
    &&& (window.min_y + window.height) * width <= offset + len
}

/// Both parts of a split window fit where the window fits.
pub proof fn lemma_fits_parts(offset: int, len: int, width: int, window: Window)
    requires
        fits(offset, len, width, window),
        window.split().1 is Some,
    ensures
        fits(offset, len, width, window.split().0),
        fits(offset, len, width, window.split().1.unwrap()),
{
    window.lemma_split_partitions();
    let first = window.split().0;
    let second = window.split().1.unwrap();
    lemma_mul_inequality(window.min_y as int, second.min_y as int, width);
    lemma_mul_inequality(first.min_y + first.height, window.min_y + window.height, width);
}

/// Painting a window with two value maps that agree on it gives the same result.
pub proof fn lemma_painted_agree(
    contents: Seq<u8>,
    offset: int,
    width: int,
    window: Window,
    value: spec_fn(u32, u32) -> u8,
    other: spec_fn(u32, u32) -> u8,
)
    requires
        window.wf(),
        forall|x: u32, y: u32| window.contains(x as int, y as int) ==> #[trigger] value(x, y) == other(x, y),
    ensures
        painted(contents, offset, width, window, value) == painted(contents, offset, width, window, other),
{
    assert forall|i: int| 0 <= i < contents.len() implies painted(contents, offset, width, window, value)[i]
        == painted(contents, offset, width, window, other)[i] by {
        let x = (offset + i) % width;
        let y = (offset + i) / width;
        if window.contains(x, y) {
            assert(value(x as u32, y as u32) == other(x as u32, y as u32));
        }
    }
    assert(painted(contents, offset, width, window, value) =~= painted(contents, offset, width, window, other));
}

/// Every pixel of a window that fits has its flat index inside the buffer part.
pub proof fn lemma_fits_covers(offset: int, len: int, width: int, window: Window, x: int, y: int)
    requires
        fits(offset, len, width, window),
        window.contains(x, y),
    ensures
        offset <= y * width + x < offset + len,
        (y * width + x) % width == x,
        (y * width + x) / width == y,
{
    lemma_index_in_rows(width, x, y, window.min_y as int, window.min_y + window.height);
    lemma_index_pixel(width, x, y);
}

/// Nothing painted yet leaves the contents as they were.
pub proof fn lemma_painted_none(
    contents: Seq<u8>,
    offset: int,
    width: int,
    window: Window,
    value: spec_fn(u32, u32) -> u8,
)
    requires
        window.wf(),
    ensures
        painted_first(contents, offset, width, window, value, 0) == contents,
{
    assert forall|i: int| 0 <= i < contents.len() implies painted_first(
        contents,
        offset,
        width,
        window,
        value,
        0,
    )[i] == contents[i] by {
        let x = (offset + i) % width;
        let y = (offset + i) / width;
        if window.contains(x, y) {
            assert(rank_in(window, x, y) >= 0) by (nonlinear_arith)
                requires
                    y - window.min_y >= 0,
                    x - window.min_x >= 0,
                    window.width >= 0,
            ;
        }
    }
    assert(painted_first(contents, offset, width, window, value, 0) =~= contents);
}

/// Once all of a window's pixels are painted, the window is painted.
pub proof fn lemma_painted_all(
    contents: Seq<u8>,
    offset: int,
    width: int,
    window: Window,
    value: spec_fn(u32, u32) -> u8,
)
    requires
        window.wf(),
    ensures
        painted_first(contents, offset, width, window, value, window.area()) == painted(
            contents,
            offset,
            width,
            window,
            value,
        ),
{
    assert forall|i: int| 0 <= i < contents.len() implies painted_first(
        contents,
        offset,
        width,
        window,
        value,
        window.area(),
    )[i] == painted(contents, offset, width, window, value)[i] by {
        let x = (offset + i) % width;
        let y = (offset + i) / width;
        if window.contains(x, y) {
            let r = y - window.min_y;
            let c = x - window.min_x;
            let w = window.width as int;
            let h = window.height as int;
            assert(r * w + c < h * w) by (nonlinear_arith)
                requires
                    0 <= r < h,
                    0 <= c < w,
            ;
            assert(h * w == window.area()) by (nonlinear_arith)
                requires
                    h == window.height,
                    w == window.width,
            ;
        }
    }
    assert(painted_first(contents, offset, width, window, value, window.area()) =~= painted(
        contents,
        offset,
        width,
        window,
        value,
    ));
}

/// Painting the next pixel in row-major order extends the painted prefix by
/// one.
pub proof fn lemma_painted_step(
    contents: Seq<u8>,
    offset: int,
    width: int,
    window: Window,
    value: spec_fn(u32, u32) -> u8,
    k: int,
)
    requires
        fits(offset, contents.len() as int, width, window),
        0 <= k < window.area(),
    ensures
        ({
            let p = area_pixel(window, k);
            &&& window.contains(p.x as int, p.y as int)
            &&& offset <= p.flat_index(width) < offset + contents.len()
            &&& painted_first(contents, offset, width, window, value, k).update(
                p.flat_index(width) - offset,
                value(p.x, p.y),
            ) == painted_first(contents, offset, width, window, value, k + 1)
        }),
{
    let p = area_pixel(window, k);
    let w = window.width as int;
    lemma_index_bounds(k, w, window.height as int);
    assert(window.contains(p.x as int, p.y as int));
    lemma_fits_covers(offset, contents.len() as int, width, window, p.x as int, p.y as int);
    let idx = p.flat_index(width) - offset;
    let before = painted_first(contents, offset, width, window, value, k);
    let after = painted_first(contents, offset, width, window, value, k + 1);
    assert forall|i: int| 0 <= i < contents.len() implies before.update(idx, value(p.x, p.y))[i]
        == after[i] by {
        let x = (offset + i) % width;
        let y = (offset + i) / width;
        if i == idx {
            assert(rank_in(window, x, y) == k);
        } else if window.contains(x, y) && rank_in(window, x, y) == k {
            lemma_fundamental_div_mod_converse(k, w, y - window.min_y, x - window.min_x);
            lemma_fundamental_div_mod(offset + i, width);
            assert(offset + i == y * width + x) by (nonlinear_arith)
                requires
                    offset + i == width * ((offset + i) / width) + (offset + i) % width,
                    x == (offset + i) % width,
                    y == (offset + i) / width,
            ;
            assert(false);
        }
    }
    assert(before.update(idx, value(p.x, p.y)) =~= after);
}

/// Painting two windows that split a third one, each with values that agree
/// with the third one's on it, paints the third one.
pub proof fn lemma_painted_parts(
    contents: Seq<u8>,
    offset: int,
    width: int,
    whole: Window,
    value: spec_fn(u32, u32) -> u8,
    first: Window,
    first_value: spec_fn(u32, u32) -> u8,
    second: Window,
    second_value: spec_fn(u32, u32) -> u8,
)
    requires
        first.wf(),
        second.wf(),
        forall|x: int, y: int|
            #[trigger] whole.contains(x, y) <==> (first.contains(x, y) || second.contains(x, y)),
        forall|x: int, y: int| !(#[trigger] first.contains(x, y) && second.contains(x, y)),
        forall|x: u32, y: u32|
            first.contains(x as int, y as int) ==> #[trigger] first_value(x, y) == value(x, y),
        forall|x: u32, y: u32|
            second.contains(x as int, y as int) ==> #[trigger] second_value(x, y) == value(x, y),
    ensures
        painted(
            painted(contents, offset, width, first, first_value),
            offset,
            width,
            second,
            second_value,
        ) == painted(contents, offset, width, whole, value),
{
    let lhs = painted(
        painted(contents, offset, width, first, first_value),
        offset,
        width,
        second,
        second_value,
    );
    let rhs = painted(contents, offset, width, whole, value);
    assert forall|i: int| 0 <= i < contents.len() implies lhs[i] == rhs[i] by {
        let x = (offset + i) % width;
        let y = (offset + i) / width;
        assert(whole.contains(x, y) <==> (first.contains(x, y) || second.contains(x, y)));
        if first.contains(x, y) {
            assert(first_value(x as u32, y as u32) == value(x as u32, y as u32));
        }
        if second.contains(x, y) {
            assert(second_value(x as u32, y as u32) == value(x as u32, y as u32));
        }
    }
    assert(lhs =~= rhs);
}

/// The whole canvas of `width` columns and `height` rows.
pub open spec fn canvas(width: u32, height: u32) -> Window {
    Window { min_x: 0, min_y: 0, width, height }
}

/// Every pixel of a canvas with `width` columns and `height` rows, each with
/// `value` of that pixel, in row-major order.
pub open spec fn image_of(width: u32, height: u32, value: spec_fn(u32, u32) -> u8) -> Seq<u8> {
    Seq::new(
        (width * height) as nat,
        |g: int| value((g % (width as int)) as u32, (g / (width as int)) as u32),
    )
}

/// Painting the whole canvas into a buffer of exactly its size gives the
/// canvas image.
pub proof fn lemma_painted_canvas(
    contents: Seq<u8>,
    width: u32,
    height: u32,
    value: spec_fn(u32, u32) -> u8,
)
    requires
        width >= 1,
        height >= 1,
        contents.len() == width * height,
    ensures
        painted(contents, 0, width as int, canvas(width, height), value) == image_of(width, height, value),
{
    assert forall|g: int| 0 <= g < contents.len() implies painted(
        contents,
        0,
        width as int,
        canvas(width, height),
        value,
    )[g] == image_of(width, height, value)[g] by {
        lemma_index_bounds(g, width as int, height as int);
    }
    assert(painted(contents, 0, width as int, canvas(width, height), value) =~= image_of(
        width,
        height,
        value,
    ));
}

} // verus!
