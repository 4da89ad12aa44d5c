use vstd::prelude::*;

verus! {

/// A single outline vertex, in absolute font units.
#[derive(Clone, Copy, Debug, PartialEq, Eq, Structural)]
pub struct Point {
    /// Horizontal coordinate
    pub x: i16,
    /// Vertical coordinate
    pub y: i16,
    /// Whether the point lies on the rendered path (as opposed to being a
    /// quadratic control point)
    pub on_curve: bool,
}

/// The integer midpoint of two coordinates: their sum halved, rounded
/// towards zero.
pub open spec fn midpoint(a: int, b: int) -> int {
    if a + b >= 0 {
        (a + b) / 2
    } else {
        -((-(a + b)) / 2)
    }
}

impl Point {
    /// The on-curve point implied halfway between two off-curve points.
    pub open spec fn implied_between(p: Point, q: Point) -> Point {
        Point {
            x: midpoint(p.x as int, q.x as int) as i16,
            y: midpoint(p.y as int, q.y as int) as i16,
            on_curve: true,
        }
    }

    /// Computes the on-curve point implied halfway between two points.
    pub fn between(p: Point, q: Point) -> (m: Point)
        ensures
            m == Point::implied_between(p, q),
            m.x == midpoint(p.x as int, q.x as int),
            m.y == midpoint(p.y as int, q.y as int),
    {
        let sx: i32 = p.x as i32 + q.x as i32;
        let sy: i32 = p.y as i32 + q.y as i32;
        Point { x: (sx / 2) as i16, y: (sy / 2) as i16, on_curve: true }
    }
}

} // verus!
