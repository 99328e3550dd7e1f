use vstd::prelude::*;
use vstd::arithmetic::div_mod::{
    lemma_fundamental_div_mod,
    lemma_fundamental_div_mod_converse,
    lemma_multiply_divide_lt,
};
use vstd::arithmetic::mul::lemma_mul_inequality;

verus! {

/// Row-major addressing: the pixel at column `x < width` of row `y` sits at
/// `y * width + x`, and that index gives the column and row back.
pub proof fn lemma_index_pixel(width: int, x: int, y: int)
    requires
        0 <= x < width,
    ensures
        (y * width + x) % width == x,
        (y * width + x) / width == y,
{
    lemma_fundamental_div_mod_converse(y * width + x, width, y, x);
}

/// An index below `width * height` has a column below `width` and a row below
/// `height`.
pub proof fn lemma_index_bounds(k: int, width: int, height: int)
    requires
        0 <= k < width * height,
        width > 0,
    ensures
        0 <= k % width < width,
        0 <= k / width < height,
        k == (k / width) * width + k % width,
{
    lemma_fundamental_div_mod(k, width);
    lemma_multiply_divide_lt(k, width, height);
    assert(k / width >= 0) by (nonlinear_arith)
        requires
            k >= 0,
            width > 0,
    ;
    assert(width * (k / width) == (k / width) * width) by (nonlinear_arith);
}

/// A pixel of rows `min_y .. end_y`, at a column below `width`, lies at a
/// row-major index in `min_y * width .. end_y * width`.
pub proof fn lemma_index_in_rows(width: int, x: int, y: int, min_y: int, end_y: int)
    requires
        0 <= x < width,
        0 <= min_y <= y < end_y,
    ensures
        min_y * width <= y * width + x < end_y * width,
{
    lemma_mul_inequality(min_y, y, width);
    lemma_mul_inequality(y + 1, end_y, width);
    assert((y + 1) * width == y * width + width) by (nonlinear_arith);
}

} // verus!
