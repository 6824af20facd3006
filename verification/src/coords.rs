//! Hex-grid coordinates: axial and cube representations, adjacency,
//! straight-line (axis) predicates and the cells strictly between two
//! collinear coordinates.
//!
//! Axial coordinates are the canonical lookup key; cube coordinates
//! (three components summing to zero) are the wire representation.

use vstd::prelude::*;

verus! {

/// Largest coordinate magnitude the engine works with.  The game board is
/// a small fixed hex, so this bound is generous; it exists only so that
/// neighbor arithmetic on `i32` provably cannot overflow.
pub const COORD_LIMIT: i32 = 1_000_000;

/// A hex cell addressed by two axial components.
#[derive(Debug, Clone, Copy, PartialEq, Eq, Hash, Structural)]
pub struct AxialCoords {
    pub x: i32,
    pub y: i32,
}

/// A hex cell addressed by three cube components; a valid cube
/// coordinate satisfies `x + y + z == 0`.
#[derive(Debug, Clone, Copy, PartialEq, Eq, Hash, Structural)]
pub struct CubeCoords {
    pub x: i32,
    pub y: i32,
    pub z: i32,
}

/// Whether both axial components are within `COORD_LIMIT`.
pub open spec fn in_coord_range(c: AxialCoords) -> bool {
    &&& -COORD_LIMIT <= c.x <= COORD_LIMIT
    &&& -COORD_LIMIT <= c.y <= COORD_LIMIT
}

/// A cube coordinate is well formed when its components sum to zero.
pub open spec fn cube_valid(c: CubeCoords) -> bool {
    c.x + c.y + c.z == 0
}

/// The cube coordinate equivalent to an axial coordinate.
pub open spec fn spec_to_cube(a: AxialCoords) -> CubeCoords {
    CubeCoords { x: a.x, y: a.y, z: (-a.x - a.y) as i32 }
}

/// The axial coordinate equivalent to a cube coordinate.
pub open spec fn spec_to_axial(c: CubeCoords) -> AxialCoords {
    AxialCoords { x: c.x, y: c.y }
}

/// `b` is one of the six hex neighbors of `a`.
pub open spec fn spec_adjacent(a: AxialCoords, b: AxialCoords) -> bool {
    let dx = b.x - a.x;
    let dy = b.y - a.y;
    ||| dx == 1 && dy == 0
    ||| dx == 0 && dy == 1
    ||| dx == -1 && dy == 1
    ||| dx == -1 && dy == 0
    ||| dx == 0 && dy == -1
    ||| dx == 1 && dy == -1
}

/// `a` and `b` share one of the three hex axes.
pub open spec fn spec_forms_line(a: AxialCoords, b: AxialCoords) -> bool {
    let dx = b.x - a.x;
    let dy = b.y - a.y;
    dx == 0 || dy == 0 || dx + dy == 0
}

/// Mathematical sign of an integer.
pub open spec fn sign(v: int) -> int {
    if v > 0 {
        1
    } else if v < 0 {
        -1
    } else {
        0
    }
}

/// Per-component unit step leading from `a` toward `b` along their axis.
pub open spec fn line_step(a: AxialCoords, b: AxialCoords) -> (int, int) {
    (sign(b.x - a.x), sign(b.y - a.y))
}

/// Number of unit steps from `a` to `b` along a shared axis.
pub open spec fn line_dist(a: AxialCoords, b: AxialCoords) -> int {
    let dx = b.x - a.x;
    let dy = b.y - a.y;
    let ax = if dx >= 0 { dx } else { -dx };
    let ay = if dy >= 0 { dy } else { -dy };
    if ax >= ay {
        ax
    } else {
        ay
    }
}

/// The point reached from `(x, y)` after `k` steps of `(sx, sy)`.
pub open spec fn walk(x: int, y: int, sx: int, sy: int, k: nat) -> (int, int)
    decreases k,
{
    if k == 0 {
        (x, y)
    } else {
        walk(x + sx, y + sy, sx, sy, (k - 1) as nat)
    }
}

/// The `k`-th point on the line from `a` toward `b` (`k == 0` is `a`).
pub open spec fn line_point(a: AxialCoords, b: AxialCoords, k: nat) -> (int, int) {
    walk(a.x as int, a.y as int, line_step(a, b).0, line_step(a, b).1, k)
}

/// `c` lies strictly between `a` and `b` on their shared axis.
pub open spec fn on_open_segment(c: AxialCoords, a: AxialCoords, b: AxialCoords) -> bool {
    &&& spec_forms_line(a, b)
    &&& exists|k: nat|
        1 <= k < line_dist(a, b) && line_point(a, b, k) == (c.x as int, c.y as int)
}

/// Walking the full distance along a shared axis lands exactly on `b`.
pub proof fn lemma_line_point_reaches(a: AxialCoords, b: AxialCoords)
    requires
        spec_forms_line(a, b),
    ensures
        line_point(a, b, line_dist(a, b) as nat) == (b.x as int, b.y as int),
    decreases line_dist(a, b),
{
    if line_dist(a, b) == 0 {
        assert(a.x == b.x && a.y == b.y);
    } else {
        let (sx, sy) = line_step(a, b);
        let a2 = AxialCoords { x: (a.x + sx) as i32, y: (a.y + sy) as i32 };
        assert(a2.x == a.x + sx && a2.y == a.y + sy);
        assert(spec_forms_line(a2, b));
        assert(line_dist(a2, b) == line_dist(a, b) - 1);
        if line_dist(a2, b) > 0 {
            assert(line_step(a2, b) == (sx, sy));
        }
        lemma_line_point_reaches(a2, b);
        assert(line_point(a, b, line_dist(a, b) as nat) == walk(
            a.x + sx,
            a.y + sy,
            sx,
            sy,
            (line_dist(a, b) - 1) as nat,
        ));
    }
}

impl AxialCoords {
    /// Builds an axial coordinate from its two components.
    pub fn new(x: i32, y: i32) -> (r: AxialCoords)
        ensures
            r == (AxialCoords { x, y }),
    {
        AxialCoords { x, y }
    }

    /// Converts to the equivalent cube coordinate (lossless).
    pub fn to_cube(self) -> (r: CubeCoords)
        requires
            in_coord_range(self),
        ensures
            r == spec_to_cube(self),
            cube_valid(r),
    {
        CubeCoords { x: self.x, y: self.y, z: -self.x - self.y }
    }

    /// Tests whether `other` is one of this cell's six neighbors.
    pub fn is_adjacent_to(self, other: AxialCoords) -> (r: bool)
        ensures
            r == spec_adjacent(self, other),
    {
        let dx: i64 = other.x as i64 - self.x as i64;
        let dy: i64 = other.y as i64 - self.y as i64;
        (dx == 1 && dy == 0) || (dx == 0 && dy == 1) || (dx == -1 && dy == 1) || (dx == -1 && dy
            == 0) || (dx == 0 && dy == -1) || (dx == 1 && dy == -1)
    }

    /// Tests whether this cell and `other` share one of the three hex axes.
    pub fn forms_line_with(self, other: AxialCoords) -> (r: bool)
        ensures
            r == spec_forms_line(self, other),
    {
        let dx: i64 = other.x as i64 - self.x as i64;
        let dy: i64 = other.y as i64 - self.y as i64;
        dx == 0 || dy == 0 || dx + dy == 0
    }

    /// The six neighboring cells, before any board clipping.
    pub fn coord_neighbors(self) -> (r: Vec<AxialCoords>)
        requires
            in_coord_range(self),
        ensures
            r@.len() == 6,
            r@.no_duplicates(),
            forall|d: AxialCoords| r@.contains(d) <==> spec_adjacent(self, d),
    {
        let r: Vec<AxialCoords> = vec![
            AxialCoords { x: self.x + 1, y: self.y },
            AxialCoords { x: self.x, y: self.y + 1 },
            AxialCoords { x: self.x - 1, y: self.y + 1 },
            AxialCoords { x: self.x - 1, y: self.y },
            AxialCoords { x: self.x, y: self.y - 1 },
            AxialCoords { x: self.x + 1, y: self.y - 1 },
        ];
        proof {
            assert(forall|d: AxialCoords| spec_adjacent(self, d) ==> r@.contains(d)) by {
                assert(forall|d: AxialCoords| #[trigger] spec_adjacent(self, d) ==> d == r@[0]
                    || d == r@[1] || d == r@[2] || d == r@[3] || d == r@[4] || d == r@[5]);
            }
        }
        r
    }

    /// The ordered cells strictly between this cell and `other` along
    /// their shared axis (empty when the cells touch or coincide).
    pub fn line_between(self, other: AxialCoords) -> (r: Vec<AxialCoords>)
        requires
            spec_forms_line(self, other),
            in_coord_range(self),
            in_coord_range(other),
        ensures
            r@.len() == if line_dist(self, other) == 0 {
                0int
            } else {
                line_dist(self, other) - 1
            },
            forall|i: int|
                0 <= i < r@.len() ==> line_point(self, other, (i + 1) as nat) == (
                #[trigger] r@[i].x as int,
                r@[i].y as int,
            ),
            line_point(self, other, line_dist(self, other) as nat) == (
                other.x as int,
                other.y as int,
            ),
    {
        proof {
            lemma_line_point_reaches(self, other);
        }
        let mut r: Vec<AxialCoords> = Vec::new();
        let dx: i64 = other.x as i64 - self.x as i64;
        let dy: i64 = other.y as i64 - self.y as i64;
        let sx: i64 = if dx > 0 {
            1
        } else if dx < 0 {
            -1
        } else {
            0
        };
        let sy: i64 = if dy > 0 {
            1
        } else if dy < 0 {
            -1
        } else {
            0
        };
        let adx: i64 = if dx >= 0 {
            dx
        } else {
            -dx
        };
        let ady: i64 = if dy >= 0 {
            dy
        } else {
            -dy
        };
        let dist: i64 = if adx >= ady {
            adx
        } else {
            ady
        };
        proof {
            assert(sx == line_step(self, other).0);
            assert(sy == line_step(self, other).1);
            assert(dist == line_dist(self, other));
        }
        if dist == 0 {
            return r;
        }
        let mut cx: i64 = self.x as i64;
        let mut cy: i64 = self.y as i64;
        let mut k: i64 = 1;
        proof {
            assert(line_point(self, other, 1) == walk(
                self.x + sx,
                self.y + sy,
                sx as int,
                sy as int,
                0,
            ));
            assert(line_point(self, other, 1) == (self.x + sx, self.y + sy));
        }
        while k < dist
            invariant
                1 <= k <= dist,
                dist == line_dist(self, other),
                sx == line_step(self, other).0,
                sy == line_step(self, other).1,
                in_coord_range(self),
                in_coord_range(other),
                spec_forms_line(self, other),
                (cx + sx, cy + sy) == line_point(self, other, k as nat),
                cx == self.x + (k - 1) * sx,
                cy == self.y + (k - 1) * sy,
                r@.len() == k - 1,
                forall|i: int|
                    0 <= i < r@.len() ==> line_point(self, other, (i + 1) as nat) == (
                    #[trigger] r@[i].x as int,
                    r@[i].y as int,
                ),
            decreases dist - k,
        {
            cx = cx + sx;
            cy = cy + sy;
            proof {
                lemma_walk_bounds(self, other, k as nat);
            }
            r.push(AxialCoords { x: cx as i32, y: cy as i32 });
            k = k + 1;
            proof {
                lemma_walk_unfold_back(self.x as int, self.y as int, sx as int, sy as int, k as nat);
            }
        }
        r
    }
}

/// Unfolds one step of `walk` at the far end:
/// `walk(k) == walk(k - 1) + (sx, sy)`.
pub proof fn lemma_walk_unfold_back(x: int, y: int, sx: int, sy: int, k: nat)
    requires
        k >= 1,
    ensures
        walk(x, y, sx, sy, k).0 == walk(x, y, sx, sy, (k - 1) as nat).0 + sx,
        walk(x, y, sx, sy, k).1 == walk(x, y, sx, sy, (k - 1) as nat).1 + sy,
    decreases k,
{
    assert(walk(x, y, sx, sy, k) == walk(x + sx, y + sy, sx, sy, (k - 1) as nat));
    if k == 1 {
        assert(walk(x + sx, y + sy, sx, sy, 0) == (x + sx, y + sy));
        assert(walk(x, y, sx, sy, 0) == (x, y));
    } else {
        lemma_walk_unfold_back(x + sx, y + sy, sx, sy, (k - 1) as nat);
        assert(walk(x, y, sx, sy, (k - 1) as nat) == walk(
            x + sx,
            y + sy,
            sx,
            sy,
            (k - 2) as nat,
        ));
    }
}

/// Every point on the segment between two in-range collinear cells has
/// both components between the corresponding endpoint components.
pub proof fn lemma_walk_bounds(a: AxialCoords, b: AxialCoords, k: nat)
    requires
        spec_forms_line(a, b),
        0 <= k <= line_dist(a, b),
    ensures
        line_point(a, b, k).0 == a.x + k * line_step(a, b).0,
        line_point(a, b, k).1 == a.y + k * line_step(a, b).1,
        -COORD_LIMIT <= line_point(a, b, k).0 <= COORD_LIMIT || !in_coord_range(a) || !in_coord_range(b),
        -COORD_LIMIT <= line_point(a, b, k).1 <= COORD_LIMIT || !in_coord_range(a) || !in_coord_range(b),
    decreases k,
{
    let (sx, sy) = line_step(a, b);
    if k == 0 {
    } else {
        lemma_walk_bounds(a, b, (k - 1) as nat);
        lemma_walk_unfold_back(a.x as int, a.y as int, sx, sy, k);
        assert(k * sx == (k - 1) * sx + sx) by (nonlinear_arith);
        assert(k * sy == (k - 1) * sy + sy) by (nonlinear_arith);
        if in_coord_range(a) && in_coord_range(b) {
            lemma_step_component_bounds(a, b, k);
        }
    }
}

/// Arithmetic helper: after `k <= line_dist` unit steps each component
/// stays between the endpoints' components.
proof fn lemma_step_component_bounds(a: AxialCoords, b: AxialCoords, k: nat)
    requires
        spec_forms_line(a, b),
        1 <= k <= line_dist(a, b),
        in_coord_range(a),
        in_coord_range(b),
    ensures
        -COORD_LIMIT <= a.x + k * line_step(a, b).0 <= COORD_LIMIT,
        -COORD_LIMIT <= a.y + k * line_step(a, b).1 <= COORD_LIMIT,
{
    let (sx, sy) = line_step(a, b);
    let d = line_dist(a, b);
    if sx == 0 {
        assert(k * sx == 0) by (nonlinear_arith)
            requires
                sx == 0,
        ;
    } else if sx == 1 {
        assert(k * sx == k) by (nonlinear_arith)
            requires
                sx == 1,
        ;
        assert(d == b.x - a.x);
        assert(a.x + k <= b.x);
    } else {
        assert(sx == -1);
        assert(k * sx == -(k as int)) by (nonlinear_arith)
            requires
                sx == -1,
        ;
        assert(d == a.x - b.x);
    }
    if sy == 0 {
        assert(k * sy == 0) by (nonlinear_arith)
            requires
                sy == 0,
        ;
    } else if sy == 1 {
        assert(k * sy == k) by (nonlinear_arith)
            requires
                sy == 1,
        ;
        assert(d == b.y - a.y);
    } else {
        assert(sy == -1);
        assert(k * sy == -(k as int)) by (nonlinear_arith)
            requires
                sy == -1,
        ;
        assert(d == a.y - b.y);
    }
}

impl CubeCoords {
    /// Builds a cube coordinate from its three components.
    pub fn new(x: i32, y: i32, z: i32) -> (r: CubeCoords)
        ensures
            r == (CubeCoords { x, y, z }),
    {
        CubeCoords { x, y, z }
    }

    /// Converts to the equivalent axial coordinate by dropping the
    /// redundant third component (lossless on valid cube coordinates).
    pub fn to_axial(self) -> (r: AxialCoords)
        ensures
            r == spec_to_axial(self),
    {
        AxialCoords { x: self.x, y: self.y }
    }
}

/// Converting an axial coordinate to cube form and back is the identity,
/// and likewise starting from any in-range valid cube coordinate: the
/// two representations are in lossless bijection.
pub proof fn lemma_cube_axial_round_trip(a: AxialCoords, c: CubeCoords)
    requires
        in_coord_range(a),
        cube_valid(c),
    ensures
        spec_to_axial(spec_to_cube(a)) == a,
        spec_to_cube(spec_to_axial(c)) == c,
{
    assert(spec_to_cube(spec_to_axial(c)).z == c.z) by {
        assert(c.z == -c.x - c.y);
    }
}

} // verus!
