use vstd::prelude::*;
use crate::grid::lemma_index_bounds;
use crate::pixel::Pixel;
use crate::window::Window;

verus! {

/// The `k`-th pixel of `window` in row-major order.
pub open spec fn area_pixel(window: Window, k: int) -> Pixel {
    Pixel {
        x: (window.min_x + k % (window.width as int)) as u32,
        y: (window.min_y + k / (window.width as int)) as u32,
    }
}

/// Every pixel of `window`, row by row, each row left to right.
pub open spec fn area_pixels(window: Window) -> Seq<Pixel> {
    Seq::new(window.area() as nat, |k: int| area_pixel(window, k))
}

/// The pixels of row `y` across the columns of `window`, left to right.
pub open spec fn line_pixels(window: Window, y: u32) -> Seq<Pixel> {
    Seq::new(window.width as nat, |k: int| Pixel { x: (window.min_x + k) as u32, y })
}

/// A window one pixel wide or tall consists of its border alone.
pub open spec fn is_thin(window: Window) -> bool {
    window.width == 1 || window.height == 1
}

pub open spec fn border_len(window: Window) -> int {
    if is_thin(window) {
        window.area()
    } else {
        2 * window.width + 2 * window.height - 4
    }
}

/// The `k`-th border pixel: the top row left to right, then the left and the
/// right pixel of each inner row from top to bottom, then the bottom row left
/// to right.
pub open spec fn border_pixel(window: Window, k: int) -> Pixel {
    let w = window.width as int;
    let h = window.height as int;
    if is_thin(window) {
        area_pixel(window, k)
    } else if k < w {
        Pixel { x: (window.min_x + k) as u32, y: window.min_y }
    } else if k < w + 2 * (h - 2) {
        let j = k - w;
        Pixel {
            x: (if j % 2 == 0 { window.min_x as int } else { window.min_x + w - 1 }) as u32,
            y: (window.min_y + 1 + j / 2) as u32,
        }
    } else {
        Pixel { x: (window.min_x + (k - w - 2 * (h - 2))) as u32, y: (window.min_y + h - 1) as u32 }
    }
}

pub open spec fn border_pixels(window: Window) -> Seq<Pixel> {
    Seq::new(border_len(window) as nat, |k: int| border_pixel(window, k))
}

/// A window at least two pixels wide and tall has `2 * width + 2 * height - 4`
/// border pixels, each of them inside the window and on one of its four
/// sides.
pub proof fn lemma_border_pixels(window: Window)
    requires
        window.wf(),
    ensures
        window.width >= 2 && window.height >= 2 ==> border_pixels(window).len() == 2 * window.width
            + 2 * window.height - 4,
        forall|k: int|
            0 <= k < border_pixels(window).len() ==> {
                let p = #[trigger] border_pixels(window)[k];
                &&& window.contains(p.x as int, p.y as int)
                &&& (p.x == window.min_x || p.x == window.min_x + window.width - 1 || p.y
                    == window.min_y || p.y == window.min_y + window.height - 1)
            },
{
    assert forall|k: int| 0 <= k < border_pixels(window).len() implies {
        let p = #[trigger] border_pixels(window)[k];
        &&& window.contains(p.x as int, p.y as int)
        &&& (p.x == window.min_x || p.x == window.min_x + window.width - 1 || p.y == window.min_y
            || p.y == window.min_y + window.height - 1)
    } by {
        if is_thin(window) {
            assert(window.area() == window.width * window.height);
            lemma_index_bounds(k, window.width as int, window.height as int);
            if window.width == 1 {
                assert(k % 1 == 0);
            } else {
                assert(k < window.width * 1);
                vstd::arithmetic::div_mod::lemma_fundamental_div_mod_converse(
                    k,
                    window.width as int,
                    0,
                    k,
                );
            }
        } else if k >= window.width && k < window.width + 2 * (window.height - 2) {
            let j = k - window.width;
            vstd::arithmetic::div_mod::lemma_fundamental_div_mod(j, 2);
            vstd::arithmetic::div_mod::lemma_mod_bound(j, 2);
        }
    }
}

/// Every pixel of a window is listed by its row-major rank among the window's
/// pixels.
pub proof fn lemma_area_pixel_listed(window: Window, x: u32, y: u32)
    requires
        window.wf(),
        window.contains(x as int, y as int),
    ensures
        ({
            let k = (y - window.min_y) * window.width + (x - window.min_x);
            &&& 0 <= k < area_pixels(window).len()
            &&& area_pixels(window)[k] == (Pixel { x, y })
        }),
{
    let w = window.width as int;
    let r = y - window.min_y;
    let c = x - window.min_x;
    let k = r * w + c;
    vstd::arithmetic::div_mod::lemma_fundamental_div_mod_converse(k, w, r, c);
    assert(k < window.height * w) by (nonlinear_arith)
        requires
            0 <= r < window.height,
            0 <= c < w,
            k == r * w + c,
    ;
    assert(0 <= k) by (nonlinear_arith)
        requires
            0 <= r,
            0 <= c,
            w >= 1,
            k == r * w + c,
    ;
}

/// Every pixel on one of the four sides of a window is a border pixel.
pub proof fn lemma_border_pixel_listed(window: Window, x: u32, y: u32)
    requires
        window.wf(),
        window.contains(x as int, y as int),
        x == window.min_x || x == window.min_x + window.width - 1 || y == window.min_y || y
            == window.min_y + window.height - 1,
    ensures
        exists|k: int|
            0 <= k < border_pixels(window).len() && #[trigger] border_pixels(window)[k] == (Pixel { x, y }),
{
    let w = window.width as int;
    let h = window.height as int;
    if is_thin(window) {
        lemma_area_pixel_listed(window, x, y);
        let k = (y - window.min_y) * w + (x - window.min_x);
        assert(border_pixels(window)[k] == Pixel { x, y });
    } else if y == window.min_y {
        let k = x - window.min_x;
        assert(border_pixels(window)[k] == Pixel { x, y });
    } else if y == window.min_y + h - 1 {
        let k = w + 2 * (h - 2) + (x - window.min_x);
        assert(border_pixels(window)[k] == Pixel { x, y });
    } else {
        let r = y - window.min_y - 1;
        let side = if x == window.min_x { 0int } else { 1int };
        let j = 2 * r + side;
        vstd::arithmetic::div_mod::lemma_fundamental_div_mod_converse(j, 2, r, side);
        let k = w + j;
        assert(border_pixels(window)[k] == Pixel { x, y });
    }
}

/// The pixels of one row of a window, left to right.
pub struct WindowLineIterator {
    min_x: u32,
    width: u32,
    fixed_y: u32,
    index: u32,
}

impl WindowLineIterator {
    pub closed spec fn pixels(&self) -> Seq<Pixel> {
        line_pixels(Window { min_x: self.min_x, min_y: self.fixed_y, width: self.width, height: 1 }, self.fixed_y)
    }

    pub closed spec fn position(&self) -> int {
        self.index as int
    }

    pub closed spec fn wf(&self) -> bool {
        &&& self.min_x + self.width <= u32::MAX
        &&& self.index <= self.width
    }

    pub fn new(window: &Window, fixed_y: u32) -> (r: Self)
        requires
            window.wf(),
        ensures
            r.wf(),
            r.pixels() == line_pixels(*window, fixed_y),
            r.position() == 0,
    {
        let r = WindowLineIterator { min_x: window.min_x, width: window.width, fixed_y, index: 0 };
        assert(r.pixels() =~= line_pixels(*window, fixed_y));
        r
    }

    pub fn next(&mut self) -> (r: Option<Pixel>)
        requires
            old(self).wf(),
        ensures
            final(self).wf(),
            final(self).pixels() == old(self).pixels(),
            old(self).position() < old(self).pixels().len() ==> r == Some(
                old(self).pixels()[old(self).position()],
            ) && final(self).position() == old(self).position() + 1,
            old(self).position() >= old(self).pixels().len() ==> r is None && final(self).position()
                == old(self).position(),
    {
        if self.index >= self.width {
            return None;
        }
        let pixel = Pixel { x: self.min_x + self.index, y: self.fixed_y };
        self.index = self.index + 1;
        Some(pixel)
    }
}

/// Every pixel of a window in row-major order.
pub struct WindowAreaIterator {
    window: Window,
    total: u64,
    index: u64,
}

impl WindowAreaIterator {
    pub closed spec fn pixels(&self) -> Seq<Pixel> {
        area_pixels(self.window)
    }

    pub closed spec fn position(&self) -> int {
        self.index as int
    }

    pub closed spec fn wf(&self) -> bool {
        &&& self.window.wf()
        &&& self.total == self.window.area()
        &&& self.index <= self.total
    }

    pub fn new(window: &Window) -> (r: Self)
        requires
            window.wf(),
        ensures
            r.wf(),
            r.pixels() == area_pixels(*window),
            r.position() == 0,
    {
        let w = window.width as u64;
        let h = window.height as u64;
        assert(w * h <= u32::MAX * u32::MAX) by (nonlinear_arith)
            requires
                w <= u32::MAX,
                h <= u32::MAX,
        ;
        WindowAreaIterator { window: *window, total: w * h, index: 0 }
    }

    pub fn next(&mut self) -> (r: Option<Pixel>)
        requires
            old(self).wf(),
        ensures
            final(self).wf(),
            final(self).pixels() == old(self).pixels(),
            old(self).position() < old(self).pixels().len() ==> r == Some(
                old(self).pixels()[old(self).position()],
            ) && final(self).position() == old(self).position() + 1,
            old(self).position() >= old(self).pixels().len() ==> r is None && final(self).position()
                == old(self).position(),
    {
        if self.index >= self.total {
            return None;
        }
        let k = self.index;
        let w = self.window.width as u64;
        proof {
            lemma_index_bounds(k as int, w as int, self.window.height as int);
        }
        let pixel = Pixel {
            x: self.window.min_x + (k % w) as u32,
            y: self.window.min_y + (k / w) as u32,
        };
        self.index = k + 1;
        Some(pixel)
    }
}

/// The border pixels of a window, each once.
pub struct WindowBorderIterator {
    window: Window,
    total: u64,
    index: u64,
}

impl WindowBorderIterator {
    pub closed spec fn pixels(&self) -> Seq<Pixel> {
        border_pixels(self.window)
    }

    pub closed spec fn position(&self) -> int {
        self.index as int
    }

    pub closed spec fn wf(&self) -> bool {
        &&& self.window.wf()
        &&& self.total == border_len(self.window)
        &&& self.index <= self.total
    }

    pub fn new(window: &Window) -> (r: Self)
        requires
            window.wf(),
        ensures
            r.wf(),
            r.pixels() == border_pixels(*window),
            r.position() == 0,
    {
        let w = window.width as u64;
        let h = window.height as u64;
        assert(w * h <= u32::MAX * u32::MAX) by (nonlinear_arith)
            requires
                w <= u32::MAX,
                h <= u32::MAX,
        ;
        let total = if w == 1 || h == 1 {
            w * h
        } else {
            2 * w + 2 * h - 4
        };
        WindowBorderIterator { window: *window, total, index: 0 }
    }

    pub fn next(&mut self) -> (r: Option<Pixel>)
        requires
            old(self).wf(),
        ensures
            final(self).wf(),
            final(self).pixels() == old(self).pixels(),
            old(self).position() < old(self).pixels().len() ==> r == Some(
                old(self).pixels()[old(self).position()],
            ) && final(self).position() == old(self).position() + 1,
            old(self).position() >= old(self).pixels().len() ==> r is None && final(self).position()
                == old(self).position(),
    {
        if self.index >= self.total {
            return None;
        }
        let k = self.index;
        let w = self.window.width as u64;
        let h = self.window.height as u64;
        let min_x = self.window.min_x;
        let min_y = self.window.min_y;
        let pixel = if w == 1 || h == 1 {
            proof {
                lemma_index_bounds(k as int, w as int, h as int);
            }
            Pixel { x: min_x + (k % w) as u32, y: min_y + (k / w) as u32 }
        } else if k < w {
            Pixel { x: min_x + k as u32, y: min_y }
        } else if k < w + 2 * (h - 2) {
            let j = k - w;
            let x = if j % 2 == 0 {
                min_x
            } else {
                min_x + (w - 1) as u32
            };
            Pixel { x, y: min_y + 1 + (j / 2) as u32 }
        } else {
            Pixel { x: min_x + (k - w - 2 * (h - 2)) as u32, y: min_y + (h - 1) as u32 }
        };
        self.index = k + 1;
        Some(pixel)
    }
}

} // verus!
