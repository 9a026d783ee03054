//! Points and axis-aligned rectangles on the signed integer grid.
//!
//! A rectangle is given by its origin (top-left corner) and a non-negative
//! size; it covers the half-open area `[origin, origin + size)` on both axes.

use vstd::prelude::*;

verus! {

/// Every coordinate the library works with is bounded by this constant, so
/// that sums and differences of two coordinates always fit in an `i64`.
pub const COORD_LIMIT: i64 = 0x1000_0000_0000_0000;

/// A point of the grid, or a two-dimensional extent.
#[derive(Clone, Copy, PartialEq, Eq, Structural, Debug)]
pub struct Xy {
    pub x: i64,
    pub y: i64,
}

impl Xy {
    pub fn new(x: i64, y: i64) -> (r: Xy)
        ensures
            r.x == x,
            r.y == y,
    {
        Xy { x, y }
    }
}

/// An axis-aligned rectangle with half-open extent.
#[derive(Clone, Copy, PartialEq, Eq, Structural, Debug)]
pub struct Rectangle {
    pub origin: Xy,
    pub size: Xy,
}

impl Rectangle {
    /// The size is non-negative and all corners stay within `COORD_LIMIT`.
    pub open spec fn wf(self) -> bool {
        &&& 0 <= self.size.x
        &&& 0 <= self.size.y
        &&& -(COORD_LIMIT as int) <= self.origin.x
        &&& -(COORD_LIMIT as int) <= self.origin.y
        &&& self.origin.x + self.size.x <= COORD_LIMIT as int
        &&& self.origin.y + self.size.y <= COORD_LIMIT as int
    }

    /// Half-open containment: `p` lies in `[origin, origin + size)`.
    pub open spec fn spec_contains(self, p: Xy) -> bool {
        &&& self.origin.x <= p.x < self.origin.x + self.size.x
        &&& self.origin.y <= p.y < self.origin.y + self.size.y
    }

    /// Two rectangles overlap when some point lies in both.
    pub open spec fn spec_overlaps(self, other: Rectangle) -> bool {
        exists|p: Xy| self.spec_contains(p) && other.spec_contains(p)
    }

    /// The largest rectangle contained in both arguments; a rectangle with a
    /// zero side when the arguments are disjoint.
    pub open spec fn spec_intersect(self, other: Rectangle) -> Rectangle {
        let ox = if self.origin.x >= other.origin.x {
            self.origin.x
        } else {
            other.origin.x
        };
        let oy = if self.origin.y >= other.origin.y {
            self.origin.y
        } else {
            other.origin.y
        };
        let ex = if self.origin.x + self.size.x <= other.origin.x + other.size.x {
            self.origin.x + self.size.x
        } else {
            other.origin.x + other.size.x
        };
        let ey = if self.origin.y + self.size.y <= other.origin.y + other.size.y {
            self.origin.y + self.size.y
        } else {
            other.origin.y + other.size.y
        };
        Rectangle {
            origin: Xy { x: ox as i64, y: oy as i64 },
            size: Xy {
                x: if ex >= ox { (ex - ox) as i64 } else { 0 },
                y: if ey >= oy { (ey - oy) as i64 } else { 0 },
            },
        }
    }

    pub fn new(origin: Xy, size: Xy) -> (r: Rectangle)
        ensures
            r.origin == origin,
            r.size == size,
    {
        Rectangle { origin, size }
    }

    pub fn contains(&self, p: &Xy) -> (r: bool)
        requires
            self.wf(),
        ensures
            r == self.spec_contains(*p),
    {
        self.origin.x <= p.x && p.x < self.origin.x + self.size.x && self.origin.y <= p.y && p.y
            < self.origin.y + self.size.y
    }

    pub fn overlaps(&self, other: &Rectangle) -> (r: bool)
        requires
            self.wf(),
            other.wf(),
        ensures
            r == self.spec_overlaps(*other),
    {
        let ox = if self.origin.x >= other.origin.x {
            self.origin.x
        } else {
            other.origin.x
        };
        let oy = if self.origin.y >= other.origin.y {
            self.origin.y
        } else {
            other.origin.y
        };
        let sex = self.origin.x + self.size.x;
        let oex = other.origin.x + other.size.x;
        let ex = if sex <= oex {
            sex
        } else {
            oex
        };
        let sey = self.origin.y + self.size.y;
        let oey = other.origin.y + other.size.y;
        let ey = if sey <= oey {
            sey
        } else {
            oey
        };
        let r = ox < ex && oy < ey;
        proof {
            if r {
                let w = Xy { x: ox, y: oy };
                assert(self.spec_contains(w) && other.spec_contains(w));
            }
        }
        r
    }

    pub fn intersect(&self, other: &Rectangle) -> (r: Rectangle)
        requires
            self.wf(),
            other.wf(),
        ensures
            r == self.spec_intersect(*other),
            r.wf(),
            forall|p: Xy| r.spec_contains(p) <==> self.spec_contains(p) && other.spec_contains(p),
    {
        let ox = if self.origin.x >= other.origin.x {
            self.origin.x
        } else {
            other.origin.x
        };
        let oy = if self.origin.y >= other.origin.y {
            self.origin.y
        } else {
            other.origin.y
        };
        let sex = self.origin.x + self.size.x;
        let oex = other.origin.x + other.size.x;
        let ex = if sex <= oex {
            sex
        } else {
            oex
        };
        let sey = self.origin.y + self.size.y;
        let oey = other.origin.y + other.size.y;
        let ey = if sey <= oey {
            sey
        } else {
            oey
        };
        Rectangle {
            origin: Xy { x: ox, y: oy },
            size: Xy {
                x: if ex >= ox {
                    ex - ox
                } else {
                    0
                },
                y: if ey >= oy {
                    ey - oy
                } else {
                    0
                },
            },
        }
    }
}

} // verus!
