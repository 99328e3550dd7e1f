use vstd::prelude::*;

verus! {

/// A pixel position: column `x`, row `y`.
#[derive(Debug, PartialEq, Eq, Structural, Copy, Clone)]
pub struct Pixel {
    pub x: u32,
    pub y: u32,
}

impl Pixel {
    /// Position of the pixel in a row-major buffer whose rows are `width` long.
    pub open spec fn flat_index(self, width: int) -> int {
        self.y * width + self.x
    }

    /// Writes `color` at the pixel's row-major index, less `offset_in_pixels_slice`,
    /// in `pixels`.
    pub fn draw(&self, color: u8, region_width: u32, offset_in_pixels_slice: u32, pixels: &mut [u8])
        requires
            self.flat_index(region_width as int) <= u32::MAX,
            offset_in_pixels_slice <= self.flat_index(region_width as int),
            self.flat_index(region_width as int) - offset_in_pixels_slice < old(pixels)@.len(),
        ensures
            final(pixels)@ == old(pixels)@.update(
                self.flat_index(region_width as int) - offset_in_pixels_slice,
                color,
            ),
    {
        let idx = (self.y * region_width) + self.x - offset_in_pixels_slice;
        pixels[idx as usize] = color;
    }
}

} // verus!
