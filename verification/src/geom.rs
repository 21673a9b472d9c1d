//! Points, cardinal directions and room rectangles.

use vstd::prelude::*;

verus! {

/// A grid coordinate, also used as a direction-scaled offset. Points
/// order lexicographically by `x`, then `y`; candidate lists are built
/// in that order so random choices stay seed-reproducible.
#[derive(Clone, Copy, Debug, PartialEq, Eq, PartialOrd, Ord, Hash, Structural)]
pub struct Point {
    pub x: i32,
    pub y: i32,
}

impl Point {
    pub fn new(x: i32, y: i32) -> (p: Point)
        ensures
            p.x == x,
            p.y == y,
    {
        Point { x, y }
    }
}

/// The four cardinal directions of the square grid.
#[derive(Clone, Copy, Debug, PartialEq, Eq, Structural)]
pub enum Directions {
    NORTH,
    SOUTH,
    EAST,
    WEST,
}

/// The unit offset of a cardinal direction, `(dx, dy)` with y growing
/// southward.
pub open spec fn spec_direction(d: Directions) -> (int, int) {
    match d {
        Directions::NORTH => (0int, -1int),
        Directions::SOUTH => (0int, 1int),
        Directions::EAST => (1int, 0int),
        Directions::WEST => (-1int, 0int),
    }
}

/// The unit offset of a cardinal direction.
pub fn get_direction(d: &Directions) -> (r: (i32, i32))
    ensures
        (r.0 as int, r.1 as int) == spec_direction(*d),
{
    match d {
        Directions::NORTH => (0, -1),
        Directions::SOUTH => (0, 1),
        Directions::EAST => (1, 0),
        Directions::WEST => (-1, 0),
    }
}

impl Directions {
    /// The four directions in the fixed scan order used everywhere:
    /// north, south, east, west.
    pub fn iterator() -> (r: Vec<Directions>)
        ensures
            r@.len() == 4,
            r@[0] == Directions::NORTH,
            r@[1] == Directions::SOUTH,
            r@[2] == Directions::EAST,
            r@[3] == Directions::WEST,
    {
        let mut v: Vec<Directions> = Vec::new();
        v.push(Directions::NORTH);
        v.push(Directions::SOUTH);
        v.push(Directions::EAST);
        v.push(Directions::WEST);
        v
    }

    /// The direction at a position of the fixed scan order.
    pub fn by_index(i: usize) -> (d: Directions)
        requires
            i < 4,
        ensures
            i == 0 ==> d == Directions::NORTH,
            i == 1 ==> d == Directions::SOUTH,
            i == 2 ==> d == Directions::EAST,
            i == 3 ==> d == Directions::WEST,
    {
        if i == 0 {
            Directions::NORTH
        } else if i == 1 {
            Directions::SOUTH
        } else if i == 2 {
            Directions::EAST
        } else {
            Directions::WEST
        }
    }
}

/// An axis-aligned room rectangle. `x2`/`y2` are exclusive upper bounds:
/// the room's cells are `x1 <= x < x2`, `y1 <= y < y2`.
#[derive(Clone, Copy, Debug, PartialEq, Eq, Structural)]
pub struct Rect {
    pub x1: i32,
    pub y1: i32,
    pub x2: i32,
    pub y2: i32,
}

/// The inclusive-boundary intersection test: rectangles that merely touch
/// edges count as intersecting, which enforces the one-cell gap between
/// accepted rooms.
pub open spec fn spec_intersects(a: Rect, b: Rect) -> bool {
    a.x1 <= b.x2 && a.x2 >= b.x1 && a.y1 <= b.y2 && a.y2 >= b.y1
}

/// Whether the cell `(a, b)` lies inside the rectangle.
pub open spec fn in_rect(r: Rect, a: int, b: int) -> bool {
    r.x1 <= a < r.x2 && r.y1 <= b < r.y2
}

impl Rect {
    pub fn new(x: i32, y: i32, w: i32, h: i32) -> (r: Rect)
        requires
            i32::MIN <= x + w <= i32::MAX,
            i32::MIN <= y + h <= i32::MAX,
        ensures
            r.x1 == x,
            r.y1 == y,
            r.x2 == x + w,
            r.y2 == y + h,
    {
        Rect { x1: x, y1: y, x2: x + w, y2: y + h }
    }

    /// The room's center cell, the midpoint rounded down on each axis.
    pub fn center(&self) -> (c: (i32, i32))
        requires
            0 <= self.x1 <= self.x2,
            0 <= self.y1 <= self.y2,
            self.x1 + self.x2 <= i32::MAX,
            self.y1 + self.y2 <= i32::MAX,
        ensures
            c.0 as int == (self.x1 + self.x2) / 2,
            c.1 as int == (self.y1 + self.y2) / 2,
            self.x1 <= c.0 <= self.x2,
            self.y1 <= c.1 <= self.y2,
    {
        let center_x = (self.x1 + self.x2) / 2;
        let center_y = (self.y1 + self.y2) / 2;
        (center_x, center_y)
    }

    /// Inclusive-boundary overlap test; see `spec_intersects`.
    pub fn intersects_with(&self, other: &Rect) -> (r: bool)
        ensures
            r == spec_intersects(*self, *other),
    {
        (self.x1 <= other.x2) && (self.x2 >= other.x1) && (self.y1 <= other.y2) && (self.y2
            >= other.y1)
    }
}

} // verus!
