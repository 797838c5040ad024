//! Points on an integer grid and the exact geometric predicates built on them.
//!
//! Coordinates are whole grid units, so every predicate below is evaluated in
//! exact integer arithmetic: a value is "degenerate" (collinear, cocircular)
//! only when it is exactly zero, and no tolerance band is needed.

use rand::Rng;
use vstd::prelude::*;

verus! {

/// Grid units per unit length of the normalized `[-1, 1]` display square.
pub const UNITS_PER_ONE: i32 = 1_000_000;

/// Largest coordinate magnitude for which the in-circle determinant fits in
/// 128-bit arithmetic.
pub const COORD_LIMIT: i32 = 268_435_456;

/// Half the side of the square, centred on the origin, that random points are drawn from.
pub const RANDOM_EXTENT: i32 = 800_000;

/// Relies on rand's `thread_rng().gen_range(low, high)`: a value in `low..high`.
/// It panics when `low >= high`, which `requires` rules out, and when the
/// system's random source cannot seed the generator, which no argument decides.
#[verifier::external_body]
fn random_in(low: i32, high: i32) -> (r: i32)
    requires
        low < high,
    ensures
        low <= r < high,
{
    rand::thread_rng().gen_range(low, high)
}

/// A point, or a direction, on the integer grid.
#[derive(Clone, Copy, Debug, PartialEq, Eq, Structural)]
pub struct Vec2 {
    pub x: i32,
    pub y: i32,
}

impl Default for Vec2 {
    /// The origin.
    fn default() -> (r: Self)
        ensures
            r.x == 0 && r.y == 0,
    {
        Vec2 { x: 0, y: 0 }
    }
}

/// Which way a triple of points turns.
#[derive(Clone, Copy, Debug, PartialEq, Eq, Structural)]
pub enum Orientation {
    Cw,
    Ccw,
    Collinear,
}

/// Twice the signed area of the triangle `(a, b, c)`: positive when the
/// triangle turns counter-clockwise, negative when it turns clockwise.
pub open spec fn shoelace_of(a: Vec2, b: Vec2, c: Vec2) -> int {
    a.x * b.y - b.x * a.y + b.x * c.y - c.x * b.y + c.x * a.y - a.x * c.y
}

/// The cross product of the directions `(ux, uy)` and `(vx, vy)`.
pub open spec fn cross_of(ux: int, uy: int, vx: int, vy: int) -> int {
    ux * vy - uy * vx
}

/// Two directions lie on one line through the origin: equal slopes, where a
/// direction with no horizontal extent only matches another such direction.
pub open spec fn collinear_dirs(ux: int, uy: int, vx: int, vy: int) -> bool {
    if ux == 0 || vx == 0 {
        ux == vx
    } else {
        uy * vx == vy * ux
    }
}

impl Vec2 {
    /// The point lies within `COORD_LIMIT` of the origin on both axes.
    pub open spec fn bounded(self) -> bool {
        -COORD_LIMIT <= self.x <= COORD_LIMIT && -COORD_LIMIT <= self.y <= COORD_LIMIT
    }

    /// Lexicographic order on `(x, y)`: left to right, then bottom to top.
    pub open spec fn lex_lt(self, other: Vec2) -> bool {
        self.x < other.x || (self.x == other.x && self.y < other.y)
    }

    pub fn new(x: i32, y: i32) -> (r: Self)
        ensures
            r.x == x,
            r.y == y,
    {
        Vec2 { x, y }
    }

    /// Whether the point lies within `COORD_LIMIT` of the origin on both axes.
    pub fn is_bounded(self) -> (r: bool)
        ensures
            r == self.bounded(),
    {
        -COORD_LIMIT <= self.x && self.x <= COORD_LIMIT && -COORD_LIMIT <= self.y && self.y
            <= COORD_LIMIT
    }

    /// A point drawn at random with `x` in `x_min..x_max` and `y` in `y_min..y_max`.
    pub fn random_range(x_min: i32, x_max: i32, y_min: i32, y_max: i32) -> (r: Self)
        requires
            x_min < x_max,
            y_min < y_max,
        ensures
            x_min <= r.x < x_max,
            y_min <= r.y < y_max,
    {
        let mut v = Vec2 { x: 0, y: 0 };
        v.randomize_range(x_min, x_max, y_min, y_max);
        v
    }

    /// Sets random values for `x` in `x_min..x_max` and for `y` in `y_min..y_max`.
    pub fn randomize_range(&mut self, x_min: i32, x_max: i32, y_min: i32, y_max: i32)
        requires
            x_min < x_max,
            y_min < y_max,
        ensures
            x_min <= final(self).x < x_max,
            y_min <= final(self).y < y_max,
    {
        self.x = random_in(x_min, x_max);
        self.y = random_in(y_min, y_max);
    }

    /// Sets random values in `[0, 1)`, in grid units, for `x` and `y`.
    pub fn randomize(&mut self)
        ensures
            0 <= final(self).x < UNITS_PER_ONE,
            0 <= final(self).y < UNITS_PER_ONE,
    {
        self.randomize_range(0, UNITS_PER_ONE, 0, UNITS_PER_ONE);
    }

    /// A point drawn at random in the unit square `[0, 1)²`, in grid units.
    pub fn random() -> (r: Self)
        ensures
            0 <= r.x < UNITS_PER_ONE,
            0 <= r.y < UNITS_PER_ONE,
    {
        Self::random_range(0, UNITS_PER_ONE, 0, UNITS_PER_ONE)
    }

    /// A point drawn at random in the square of half side `RANDOM_EXTENT`.
    pub fn random_in_extent() -> (r: Self)
        ensures
            -RANDOM_EXTENT <= r.x < RANDOM_EXTENT,
            -RANDOM_EXTENT <= r.y < RANDOM_EXTENT,
            r.bounded(),
    {
        Self::random_range(-RANDOM_EXTENT, RANDOM_EXTENT, -RANDOM_EXTENT, RANDOM_EXTENT)
    }

    /// Whether both coordinates are zero.
    pub fn is_zero(self) -> (r: bool)
        ensures
            r == (self.x == 0 && self.y == 0),
    {
        self.x == 0 && self.y == 0
    }

    /// The squared length `x² + y²`.
    pub fn sqr_length(self) -> (r: i128)
        ensures
            r == self.x * self.x + self.y * self.y,
    {
        proof {
            lemma_i32_product(self.x as int, self.x as int);
            lemma_i32_product(self.y as int, self.y as int);
        }
        (self.x as i128) * (self.x as i128) + (self.y as i128) * (self.y as i128)
    }

    /// The dot product `x·x' + y·y'`.
    pub fn dot(self, other: Self) -> (r: i128)
        ensures
            r == self.x * other.x + self.y * other.y,
    {
        proof {
            lemma_i32_product(self.x as int, other.x as int);
            lemma_i32_product(self.y as int, other.y as int);
        }
        (self.x as i128) * (other.x as i128) + (self.y as i128) * (other.y as i128)
    }

    /// Whether two directions are collinear (see `collinear_dirs`).
    pub fn collinear(self, other: Self) -> (r: bool)
        ensures
            r == collinear_dirs(self.x as int, self.y as int, other.x as int, other.y as int),
    {
        if self.x == 0 || other.x == 0 {
            self.x == other.x
        } else {
            proof {
                lemma_i32_product(self.y as int, other.x as int);
                lemma_i32_product(other.y as int, self.x as int);
            }
            (self.y as i128) * (other.x as i128) == (other.y as i128) * (self.x as i128)
        }
    }

    /// Same as `collinear`.
    pub fn parallel(self, other: Self) -> (r: bool)
        ensures
            r == collinear_dirs(self.x as int, self.y as int, other.x as int, other.y as int),
    {
        self.collinear(other)
    }

    /// Whether the lines along two directions cross: they are not collinear.
    pub fn intersects(self, other: Self) -> (r: bool)
        ensures
            r == !collinear_dirs(self.x as int, self.y as int, other.x as int, other.y as int),
    {
        !self.collinear(other)
    }

    /// Twice the signed area of the triangle `(a, b, c)`.
    pub fn shoelace(a: Self, b: Self, c: Self) -> (r: i128)
        ensures
            r == shoelace_of(a, b, c),
    {
        proof {
            lemma_i32_product(a.x as int, b.y as int);
            lemma_i32_product(b.x as int, a.y as int);
            lemma_i32_product(b.x as int, c.y as int);
            lemma_i32_product(c.x as int, b.y as int);
            lemma_i32_product(c.x as int, a.y as int);
            lemma_i32_product(a.x as int, c.y as int);
        }
        let ax = a.x as i128;
        let ay = a.y as i128;
        let bx = b.x as i128;
        let by = b.y as i128;
        let cx = c.x as i128;
        let cy = c.y as i128;
        ax * by - bx * ay + bx * cy - cx * by + cx * ay - ax * cy
    }

    /// Which way `(a, b, c)` turns, by the sign of the shoelace value.
    pub fn orientation(a: Self, b: Self, c: Self) -> (r: Orientation)
        ensures
            r == Orientation::Cw <==> shoelace_of(a, b, c) < 0,
            r == Orientation::Ccw <==> shoelace_of(a, b, c) > 0,
            r == Orientation::Collinear <==> shoelace_of(a, b, c) == 0,
    {
        let s = Self::shoelace(a, b, c);
        if s < 0 {
            Orientation::Cw
        } else if s > 0 {
            Orientation::Ccw
        } else {
            Orientation::Collinear
        }
    }

    /// Whether `(a, b, c)` turns clockwise.
    pub fn cw(a: Self, b: Self, c: Self) -> (r: bool)
        ensures
            r == (shoelace_of(a, b, c) < 0),
    {
        Self::shoelace(a, b, c) < 0
    }

    /// Whether `(a, b, c)` turns counter-clockwise.
    pub fn ccw(a: Self, b: Self, c: Self) -> (r: bool)
        ensures
            r == (shoelace_of(a, b, c) > 0),
    {
        Self::shoelace(a, b, c) > 0
    }
}

/// The product of two `i32` values lies within `2^62` of zero.
pub proof fn lemma_i32_product(a: int, b: int)
    requires
        -0x8000_0000 <= a <= 0x7fff_ffff,
        -0x8000_0000 <= b <= 0x7fff_ffff,
    ensures
        -0x4000_0000_0000_0000 <= a * b <= 0x4000_0000_0000_0000,
{
    lemma_product_bound(a, b, 0x8000_0000, 0x8000_0000);
}

/// `|a| <= m` and `|b| <= n` give `|a * b| <= m * n`.
pub proof fn lemma_product_bound(a: int, b: int, m: int, n: int)
    requires
        -m <= a <= m,
        -n <= b <= n,
    ensures
        -(m * n) <= a * b <= m * n,
{
    assert(-(m * n) <= a * b <= m * n) by (nonlinear_arith)
        requires
            -m <= a <= m,
            -n <= b <= n,
    ;
}

} // verus!
