use vstd::prelude::*;

verus! {

/// `f` gives an escape value for every pixel, and always the same one for the
/// same pixel: escape time is a pure function of the point.
pub open spec fn is_escape_fn<F: Fn(u32, u32) -> u8>(f: F) -> bool {
    &&& forall|x: u32, y: u32| #[trigger] f.requires((x, y))
    &&& forall|x: u32, y: u32, a: u8, b: u8|
        #[trigger] f.ensures((x, y), a) && #[trigger] f.ensures((x, y), b) ==> a == b
}

/// The escape value that `f` gives at pixel `(x, y)`.
pub open spec fn escape_of<F: Fn(u32, u32) -> u8>(f: F, x: u32, y: u32) -> u8 {
    choose|r: u8| f.ensures((x, y), r)
}

/// The escape values of `f` as a map over the pixel grid.
pub open spec fn escape_map<F: Fn(u32, u32) -> u8>(f: F) -> spec_fn(u32, u32) -> u8 {
    |x: u32, y: u32| escape_of(f, x, y)
}

/// Asks `f` for the escape value of pixel `(x, y)`.
pub fn escape_at<F: Fn(u32, u32) -> u8>(f: &F, x: u32, y: u32) -> (r: u8)
    requires
        is_escape_fn(*f),
    ensures
        r == escape_map(*f)(x, y),
{
    let r = f(x, y);
    proof {
        assert(f.ensures((x, y), r));
        assert(f.ensures((x, y), escape_of(*f, x, y)));
    }
    r
}

} // verus!
