use vstd::prelude::*;

verus! {

/// A window whose width and height are both at most this many pixels is never
/// split further.
pub const MINIMUM_WINDOW_SIZE: u32 = 32;

/// An axis-aligned rectangle in pixel-index space.
#[derive(Debug, PartialEq, Eq, Structural, Copy, Clone)]
pub struct Window {
    pub min_x: u32,
    pub min_y: u32,
    pub width: u32,
    pub height: u32,
}

impl Window {
    /// Non-empty, and every pixel of it has coordinates that fit in a `u32`.
    pub open spec fn wf(self) -> bool {
        &&& self.width >= 1
        &&& self.height >= 1
        &&& self.min_x + self.width <= u32::MAX
        &&& self.min_y + self.height <= u32::MAX
    }

    pub open spec fn contains(self, x: int, y: int) -> bool {
        &&& self.min_x <= x < self.min_x + self.width
        &&& self.min_y <= y < self.min_y + self.height
    }

    pub open spec fn area(self) -> int {
        self.width * self.height
    }

    /// Left part of `width / 2` columns, right part of the remaining columns.
    pub open spec fn left_right(self) -> (Window, Window) {
        let half = self.width / 2;
        (
            Window { min_x: self.min_x, min_y: self.min_y, width: half, height: self.height },
            Window {
                min_x: (self.min_x + half) as u32,
                min_y: self.min_y,
                width: (self.width - half) as u32,
                height: self.height,
            },
        )
    }

    /// Upper part of `height / 2` rows, lower part of the remaining rows.
    pub open spec fn upper_lower(self) -> (Window, Window) {
        let half = self.height / 2;
        (
            Window { min_x: self.min_x, min_y: self.min_y, width: self.width, height: half },
            Window {
                min_x: self.min_x,
                min_y: (self.min_y + half) as u32,
                width: self.width,
                height: (self.height - half) as u32,
            },
        )
    }

    /// The subdivision policy: split the longer side when it exceeds the minimum
    /// size (the width wins a tie), otherwise keep the window whole.
    pub open spec fn split(self) -> (Window, Option<Window>) {
        if self.width > MINIMUM_WINDOW_SIZE && self.width >= self.height {
            (self.left_right().0, Some(self.left_right().1))
        } else if self.height > MINIMUM_WINDOW_SIZE && self.height >= self.width {
            (self.upper_lower().0, Some(self.upper_lower().1))
        } else {
            (self, None)
        }
    }

    /// A split cuts a window into two smaller windows that cover it without
    /// overlapping; a window that is not split comes back unchanged.
    pub proof fn lemma_split_partitions(self)
        requires
            self.wf(),
        ensures
            self.split().1 is None ==> self.split().0 == self,
            self.split().1 is Some ==> {
                let first = self.split().0;
                let second = self.split().1.unwrap();
                &&& first.wf()
                &&& second.wf()
                &&& first.width + first.height < self.width + self.height
                &&& second.width + second.height < self.width + self.height
                &&& first.area() + second.area() == self.area()
                &&& forall|x: int, y: int|
                    #[trigger] self.contains(x, y) <==> (first.contains(x, y) || second.contains(
                        x,
                        y,
                    ))
                &&& forall|x: int, y: int| !(#[trigger] first.contains(x, y) && second.contains(x, y))
            },
    {
        let (first, second) = self.split();
        if second is Some {
            let second = second.unwrap();
            assert(first.area() + second.area() == self.area()) by (nonlinear_arith)
                requires
                    first.width + second.width == self.width && first.height == self.height
                        && second.height == self.height || first.height + second.height
                        == self.height && first.width == self.width && second.width == self.width,
            ;
        }
    }

    /// A window no wider and no taller than the minimum size is never split.
    pub proof fn lemma_small_window_not_split(self)
        requires
            self.wf(),
            self.width <= MINIMUM_WINDOW_SIZE,
            self.height <= MINIMUM_WINDOW_SIZE,
        ensures
            self.split() == (self, None::<Window>),
    {
    }

    pub fn new(min_x: u32, min_y: u32, width: u32, height: u32) -> (r: Window)
        ensures
            r == (Window { min_x, min_y, width, height }),
    {
        Window { min_x, min_y, width, height }
    }

    pub fn split_if_sensible(&self) -> (r: (Window, Option<Window>))
        requires
            self.wf(),
        ensures
            r == self.split(),
    {
        if self.width > MINIMUM_WINDOW_SIZE && self.width >= self.height {
            let (left, right) = self.horizontally_split();
            return (left, Some(right));
        }
        if self.height > MINIMUM_WINDOW_SIZE && self.height >= self.width {
            let (upper, lower) = self.vertically_split();
            return (upper, Some(lower));
        }
        (*self, None)
    }

    fn horizontally_split(self) -> (r: (Window, Window))
        requires
            self.wf(),
        ensures
            r == self.left_right(),
    {
        let left = Window { width: self.width / 2, ..self };
        let right = Window { min_x: left.min_x + left.width, width: self.width - left.width, ..self };
        (left, right)
    }

    pub fn vertically_split(self) -> (r: (Window, Window))
        requires
            self.wf(),
        ensures
            r == self.upper_lower(),
    {
        let upper = Window { height: self.height / 2, ..self };
        let lower = Window { min_y: upper.min_y + upper.height, height: self.height - upper.height, ..self };
        (upper, lower)
    }
}

} // verus!
