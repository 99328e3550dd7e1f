use vstd::prelude::*;
use crate::band_layout::BandConfigError;
use crate::escape_map::{escape_map, is_escape_fn};

verus! {

/// A strategy that fills a row-major pixel buffer, `width` by `height`, with
/// escape values, either serially or in parallel.
pub trait MandelbrotEngine {
    /// Whether `calculate` takes the parallel path.
    spec fn runs_in_parallel(&self) -> bool;

    /// The buffer that a serial render leaves, where `e` gives each pixel's
    /// escape value.
    spec fn serial_image(&self, e: spec_fn(u32, u32) -> u8, width: u32, height: u32) -> Seq<u8>;

    /// The buffer that a parallel render leaves.
    spec fn parallel_image(&self, e: spec_fn(u32, u32) -> u8, width: u32, height: u32) -> Seq<u8>;

    /// Why a parallel render of a canvas with `height` rows cannot start, if
    /// it cannot.
    spec fn parallel_error(&self, height: u32) -> Option<BandConfigError>;

    fn should_calculate_in_parallel(&self) -> (r: bool)
        ensures
            r == self.runs_in_parallel(),
    ;

    fn calculate_serially<F: Fn(u32, u32) -> u8 + Sync>(
        &self,
        f: &F,
        width: u32,
        height: u32,
        pixels: &mut Vec<u8>,
    )
        requires
            is_escape_fn(*f),
            width >= 1,
            height >= 1,
            old(pixels)@.len() == width * height,
        ensures
            final(pixels)@ == self.serial_image(escape_map(*f), width, height),
    ;

    /// Checks the parallel configuration before any work is handed out; on an
    /// error the buffer is left as it was.
    fn calculate_in_parallel<F: Fn(u32, u32) -> u8 + Sync>(
        &self,
        f: &F,
        width: u32,
        height: u32,
        pixels: &mut Vec<u8>,
    ) -> (r: Result<(), BandConfigError>)
        requires
            is_escape_fn(*f),
            width >= 1,
            height >= 1,
            old(pixels)@.len() == width * height,
        ensures
            match self.parallel_error(height) {
                Some(error) => r == Err::<(), BandConfigError>(error) && final(pixels)@ == old(
                    pixels,
                )@,
                None => r is Ok && final(pixels)@ == self.parallel_image(
                    escape_map(*f),
                    width,
                    height,
                ),
            },
    ;

    /// Renders on the path the engine was configured for.
    fn calculate<F: Fn(u32, u32) -> u8 + Sync>(
        &self,
        f: &F,
        width: u32,
        height: u32,
        pixels: &mut Vec<u8>,
    ) -> (r: Result<(), BandConfigError>)
        requires
            is_escape_fn(*f),
            width >= 1,
            height >= 1,
            old(pixels)@.len() == width * height,
        ensures
            !self.runs_in_parallel() ==> r is Ok && final(pixels)@ == self.serial_image(
                escape_map(*f),
                width,
                height,
            ),
            self.runs_in_parallel() ==> match self.parallel_error(height) {
                Some(error) => r == Err::<(), BandConfigError>(error) && final(pixels)@ == old(
                    pixels,
                )@,
                None => r is Ok && final(pixels)@ == self.parallel_image(
                    escape_map(*f),
                    width,
                    height,
                ),
            },
    {
        if self.should_calculate_in_parallel() {
            self.calculate_in_parallel(f, width, height, pixels)
        } else {
            self.calculate_serially(f, width, height, pixels);
            Ok(())
        }
    }
}

} // verus!
