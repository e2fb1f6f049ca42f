//! Shapes, their axis-aligned boxes, and the closed-interval overlap test.
use vstd::prelude::*;

verus! {

/// A point on the world grid.
#[derive(Clone, Copy, Debug, PartialEq, Eq, Structural)]
pub struct Position {
    pub x: i64,
    pub y: i64,
}

impl Position {
    pub fn new(x: i64, y: i64) -> (r: Position)
        ensures
            r.x == x,
            r.y == y,
    {
        Position { x, y }
    }
}

/// The static extent of a shape, centred on its position.
#[derive(Clone, Copy, Debug, PartialEq, Eq, Structural)]
pub enum Geometry {
    /// A circle of the given radius.
    Circle(u32),
    /// A square of the given side length.
    Square(u32),
}

impl Geometry {
    /// Sizes are positive.
    pub open spec fn wf(self) -> bool {
        match self {
            Geometry::Circle(r) => r > 0,
            Geometry::Square(s) => s > 0,
        }
    }

    /// How far the box reaches from the centre along each axis, in half grid units.
    pub open spec fn reach_in_half_units(self) -> int {
        match self {
            Geometry::Circle(r) => 2 * r,
            Geometry::Square(s) => s as int,
        }
    }
}

/// An axis-aligned box with closed extents.
///
/// Box coordinates are counted in half grid units (twice the grid value), so
/// that a square of odd side is still bounded exactly.
#[derive(Clone, Copy, Debug, PartialEq, Eq, Structural)]
pub struct Aabb {
    pub min_x: i128,
    pub min_y: i128,
    pub max_x: i128,
    pub max_y: i128,
}

/// The box of `g` centred at `p`: a circle of radius r spans `[c - r, c + r]`
/// on each axis, a square of side s spans `[c - s/2, c + s/2]`.
pub open spec fn box_of(g: Geometry, p: Position) -> Aabb {
    let h = g.reach_in_half_units();
    Aabb {
        min_x: (2 * p.x - h) as i128,
        min_y: (2 * p.y - h) as i128,
        max_x: (2 * p.x + h) as i128,
        max_y: (2 * p.y + h) as i128,
    }
}

/// Two boxes interfere when their closed projections meet on both axes.
pub open spec fn overlaps(a: Aabb, b: Aabb) -> bool {
    a.min_x <= b.max_x && b.min_x <= a.max_x && a.min_y <= b.max_y && b.min_y <= a.max_y
}

/// Computes the bounding box of `g` centred at `p`.
pub fn bounding_box(g: &Geometry, p: &Position) -> (r: Aabb)
    ensures
        r == box_of(*g, *p),
{
    let h: i128 = match g {
        Geometry::Circle(r) => 2 * (*r as i128),
        Geometry::Square(s) => *s as i128,
    };
    let cx: i128 = 2 * (p.x as i128);
    let cy: i128 = 2 * (p.y as i128);
    Aabb { min_x: cx - h, min_y: cy - h, max_x: cx + h, max_y: cy + h }
}

/// Tests whether two boxes interfere.
pub fn intersects(a: &Aabb, b: &Aabb) -> (r: bool)
    ensures
        r == overlaps(*a, *b),
{
    a.min_x <= b.max_x && b.min_x <= a.max_x && a.min_y <= b.max_y && b.min_y <= a.max_y
}

/// Interference is symmetric.
pub proof fn lemma_overlaps_symmetric(a: Aabb, b: Aabb)
    ensures
        overlaps(a, b) == overlaps(b, a),
{
}

/// Every shape's box interferes with itself.
pub proof fn lemma_box_overlaps_itself(g: Geometry, p: Position)
    ensures
        overlaps(box_of(g, p), box_of(g, p)),
{
}

/// Computing a box is a pure function of the shape and its centre: two
/// computations on the same inputs give the same box.
pub proof fn lemma_box_deterministic(g1: Geometry, p1: Position, g2: Geometry, p2: Position)
    requires
        g1 == g2,
        p1 == p2,
    ensures
        box_of(g1, p1) == box_of(g2, p2),
{
}

} // verus!
