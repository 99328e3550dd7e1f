use vstd::prelude::*;
use crate::window::Window;

verus! {

/// The last band of a parallel render must have at least this many rows.
pub const MINIMUM_LAST_BAND_HEIGHT: u32 = 8;

/// Why a canvas cannot be cut into bands for a parallel render.
#[derive(Debug, PartialEq, Eq, Structural, Copy, Clone)]
pub enum BandConfigError {
    /// A band must have at least one row.
    ZeroBandHeight,
    /// The canvas has no rows, so it gives no band.
    NoBands,
    /// The last band, which holds the rows left over, is shorter than the
    /// minimum.
    LastBandTooShort,
}

/// Bands of `band_height` rows needed to cover `height` rows.
pub open spec fn number_of_bands(height: int, band_height: int) -> int {
    (height + band_height - 1) / band_height
}

/// Rows of the last band: what is left after all the full bands before it.
pub open spec fn last_band_height(height: int, band_height: int) -> int {
    height - (number_of_bands(height, band_height) - 1) * band_height
}

/// What is wrong with cutting `height` rows into bands of `band_height`, if
/// anything.
pub open spec fn band_config_error(height: int, band_height: int) -> Option<BandConfigError> {
    if band_height == 0 {
        Some(BandConfigError::ZeroBandHeight)
    } else if number_of_bands(height, band_height) == 0 {
        Some(BandConfigError::NoBands)
    } else if last_band_height(height, band_height) < MINIMUM_LAST_BAND_HEIGHT {
        Some(BandConfigError::LastBandTooShort)
    } else {
        None
    }
}

/// The window of band `i` of a canvas `width` wide: `band_height` rows from row
/// `i * band_height`, or as many rows as are left.
pub open spec fn band_window(width: u32, height: u32, band_height: u32, i: int) -> Window {
    let rest = height - i * band_height;
    Window {
        min_x: 0,
        min_y: (i * band_height) as u32,
        width,
        height: (if rest < band_height { rest } else { band_height as int }) as u32,
    }
}

/// Checks that `mandelbrot_height` rows can be cut into bands of `band_height`
/// rows, and gives the number of bands.
pub fn verify_band_height(band_height: u32, mandelbrot_height: u32) -> (r: Result<u32, BandConfigError>)
    ensures
        match band_config_error(mandelbrot_height as int, band_height as int) {
            Some(error) => r == Err::<u32, BandConfigError>(error),
            None => r == Ok::<u32, BandConfigError>(
                number_of_bands(mandelbrot_height as int, band_height as int) as u32,
            ),
        },
{
    if band_height == 0 {
        return Err(BandConfigError::ZeroBandHeight);
    }
    let full = mandelbrot_height / band_height;
    let rest = mandelbrot_height % band_height;
    proof {
        vstd::arithmetic::div_mod::lemma_fundamental_div_mod(
            mandelbrot_height as int,
            band_height as int,
        );
    }
    if rest != 0 {
        assert(full < u32::MAX) by (nonlinear_arith)
            requires
                band_height * full <= mandelbrot_height,
                band_height >= 2,
        ;
    }
    let bands = if rest == 0 {
        full
    } else {
        full + 1
    };
    assert(bands == number_of_bands(mandelbrot_height as int, band_height as int)) by {
        let h = mandelbrot_height as int;
        let b = band_height as int;
        if rest == 0 {
            assert(full * b == b * full) by (nonlinear_arith);
            vstd::arithmetic::div_mod::lemma_fundamental_div_mod_converse(h + b - 1, b, full as int, b - 1);
        } else {
            assert((full + 1) * b == b * full + b) by (nonlinear_arith);
            vstd::arithmetic::div_mod::lemma_fundamental_div_mod_converse(
                h + b - 1,
                b,
                full + 1,
                rest - 1,
            );
        }
    }
    if bands == 0 {
        return Err(BandConfigError::NoBands);
    }
    assert((bands - 1) * band_height <= mandelbrot_height) by (nonlinear_arith)
        requires
            bands >= 1,
            bands <= full + 1,
            band_height * full <= mandelbrot_height,
    {
    }
    let last_band_height = mandelbrot_height - (bands - 1) * band_height;
    if last_band_height < MINIMUM_LAST_BAND_HEIGHT {
        return Err(BandConfigError::LastBandTooShort);
    }
    Ok(bands)
}

/// The window of band `i`, which has `current_band_height` rows.
pub fn ith_window(i: usize, width: u32, band_height: u32, current_band_height: u32) -> (r: Window)
    requires
        i <= u32::MAX,
        i * band_height <= u32::MAX,
    ensures
        r == (Window { min_x: 0, min_y: (i * band_height) as u32, width, height: current_band_height }),
{
    Window::new(0, (i as u32) * band_height, width, current_band_height)
}

} // verus!
