use vstd::prelude::*;

verus! {

/// A cell position on a screen: column `x`, row `y`.
#[derive(Debug, Clone, Copy, PartialEq, Eq, Structural, Default)]
pub struct Pos {
    pub x: usize,
    pub y: usize,
}

/// A size in cells: `width` columns by `height` rows.
#[derive(Debug, Clone, Copy, PartialEq, Eq, Structural, Default)]
pub struct Size {
    pub width: usize,
    pub height: usize,
}

/// A screen size in rows and columns.
#[derive(Debug, Clone, Copy, PartialEq, Eq, Structural, Default)]
pub struct ScreenSize {
    pub rows: usize,
    pub cols: usize,
}

/// A rectangle of cells: `size` cells from `origin`.
#[derive(Debug, Clone, Copy, PartialEq, Eq, Structural, Default)]
pub struct Rect {
    pub origin: Pos,
    pub size: Size,
}

impl Pos {
    pub fn new(x: usize, y: usize) -> (r: Pos)
        ensures
            r == (Pos { x: x, y: y }),
    {
        Pos { x: x, y: y }
    }
}

impl Size {
    pub fn new(width: usize, height: usize) -> (r: Size)
        ensures
            r == (Size { width: width, height: height }),
    {
        Size { width: width, height: height }
    }
}

impl Rect {
    pub fn new(origin: Pos, size: Size) -> (r: Rect)
        ensures
            r == (Rect { origin: origin, size: size }),
    {
        Rect { origin: origin, size: size }
    }

    /// The rectangle holds the position.
    pub open spec fn holds(self, p: Pos) -> bool {
        &&& self.origin.x <= p.x < self.origin.x + self.size.width
        &&& self.origin.y <= p.y < self.origin.y + self.size.height
    }

    /// One past the rightmost column, as `euclid`'s `max_x`.
    pub open spec fn right(self) -> int {
        self.origin.x + self.size.width
    }

    /// One past the bottom row, as `euclid`'s `max_y`.
    pub open spec fn bottom(self) -> int {
        self.origin.y + self.size.height
    }

    /// The rectangle's far edges fit a `usize`.
    pub open spec fn fits(self) -> bool {
        self.right() <= usize::MAX && self.bottom() <= usize::MAX
    }

    /// The rectangles share at least one cell, as `euclid`'s `Rect::intersects` says.
    pub open spec fn overlaps(self, o: Rect) -> bool {
        &&& self.origin.x < o.right()
        &&& o.origin.x < self.right()
        &&& self.origin.y < o.bottom()
        &&& o.origin.y < self.bottom()
    }

    /// The cells both rectangles cover, when they overlap.
    pub open spec fn meet(self, o: Rect) -> Rect {
        let x = if self.origin.x > o.origin.x { self.origin.x } else { o.origin.x };
        let y = if self.origin.y > o.origin.y { self.origin.y } else { o.origin.y };
        let r = if self.right() < o.right() { self.right() } else { o.right() };
        let b = if self.bottom() < o.bottom() { self.bottom() } else { o.bottom() };
        Rect { origin: Pos { x: x, y: y }, size: Size { width: (r - x) as usize, height: (b - y) as usize } }
    }

    /// The cells both rectangles cover, `None` when they share none (`euclid`'s
    /// `Rect::intersection`).
    pub fn intersection(&self, other: &Rect) -> (r: Option<Rect>)
        requires
            self.fits(),
            other.fits(),
        ensures
            r == if self.overlaps(*other) {
                Some(self.meet(*other))
            } else {
                None::<Rect>
            },
    {
        let self_right = self.origin.x + self.size.width;
        let self_bottom = self.origin.y + self.size.height;
        let other_right = other.origin.x + other.size.width;
        let other_bottom = other.origin.y + other.size.height;
        if !(self.origin.x < other_right && other.origin.x < self_right && self.origin.y < other_bottom
            && other.origin.y < self_bottom) {
            return None;
        }
        let x = if self.origin.x > other.origin.x { self.origin.x } else { other.origin.x };
        let y = if self.origin.y > other.origin.y { self.origin.y } else { other.origin.y };
        let r = if self_right < other_right { self_right } else { other_right };
        let b = if self_bottom < other_bottom { self_bottom } else { other_bottom };
        Some(Rect { origin: Pos { x: x, y: y }, size: Size { width: r - x, height: b - y } })
    }

    /// The rectangle holds the position (`euclid`'s `Rect::contains`).
    pub fn contains(&self, p: &Pos) -> (r: bool)
        requires
            self.fits(),
        ensures
            r == self.holds(*p),
    {
        self.origin.x <= p.x && p.x < self.origin.x + self.size.width && self.origin.y <= p.y && p.y
            < self.origin.y + self.size.height
    }
}

} // verus!
