use vstd::prelude::*;
use crate::pixel::Pixel;

verus! {

/// A mutable view of a contiguous part of a row-major pixel buffer: `pixels`
/// holds the buffer's entries from flat index `offset` on.
pub struct PixelBand<'a> {
    pub pixels: &'a mut [u8],
    pub offset: usize,
}

impl<'a> PixelBand<'a> {
    /// The flat indices that the band covers fit in a `usize`.
    pub open spec fn wf(&self) -> bool {
        self.offset + self.pixels@.len() <= usize::MAX
    }

    /// The band covers flat index `index` of the whole buffer.
    pub open spec fn covers(&self, index: int) -> bool {
        self.offset <= index < self.offset + self.pixels@.len()
    }

    pub fn new(pixels: &'a mut [u8], offset: usize) -> (r: Self)
        ensures
            r.pixels@ == old(pixels)@,
            r.offset == offset,
            final(pixels)@ == final(r.pixels)@,
    {
        PixelBand { pixels, offset }
    }

    /// Writes `color` for `pixel` of a buffer whose rows are
    /// `whole_display_width` long.
    pub fn set_color_of_pixel(&mut self, color: u8, pixel: &Pixel, whole_display_width: u32)
        requires
            old(self).wf(),
            old(self).covers(pixel.flat_index(whole_display_width as int)),
        ensures
            final(self).offset == old(self).offset,
            final(self).pixels@ == old(self).pixels@.update(
                pixel.flat_index(whole_display_width as int) - old(self).offset,
                color,
            ),
            final(final(self).pixels)@ == final(old(self).pixels)@,
    {
        let index = (pixel.y as usize) * (whole_display_width as usize) + (pixel.x as usize);
        self.pixels[index - self.offset] = color;
    }
}

} // verus!
