//! Fixed-point world geometry.
//!
//! Positions are measured in nano-units (one world unit is `NANO_PER_UNIT`),
//! speeds in milli-units per second, durations in microseconds.  With those
//! scales a speed times a duration is directly a distance in nano-units.

use vstd::prelude::*;

verus! {

/// Nano-units in one world unit.
pub const NANO_PER_UNIT: i64 = 1_000_000_000;

/// Bound on the magnitude of any world coordinate, in nano-units.
pub const POS_LIMIT_NANO: i64 = 1_000_000_000_000_000;

/// Bound on a hitbox half-extent, in nano-units.
pub const HITBOX_LIMIT_NANO: i64 = 1_000_000_000_000;

/// Bound on a speed, in milli-units per second.
pub const SPEED_LIMIT_MILLI: u32 = 1_000_000;

/// Bound on one tick's duration, in microseconds.
pub const TICK_LIMIT_US: u32 = 10_000_000;

/// A cardinal orientation.
#[derive(Clone, Copy, Debug, PartialEq, Eq, Structural)]
pub enum Direction {
    North,
    South,
    East,
    West,
}

/// A two-dimensional fixed-point vector.  The unit depends on the context:
/// nano-units for positions, milli-units per second for speeds.
#[derive(Clone, Copy, Debug, PartialEq, Eq, Structural)]
pub struct Vec2 {
    pub x: i64,
    pub y: i64,
}

impl Vec2 {
    pub open spec fn spec_zero() -> Vec2 {
        Vec2 { x: 0, y: 0 }
    }

    pub fn zero() -> (r: Vec2)
        ensures
            r == Vec2::spec_zero(),
    {
        Vec2 { x: 0, y: 0 }
    }

    /// Whether both coordinates are within `limit` in magnitude.
    pub open spec fn bounded(self, limit: int) -> bool {
        -limit <= self.x <= limit && -limit <= self.y <= limit
    }
}

/// The unit vector of a direction, with north pointing towards positive y.
pub open spec fn spec_direction_unit(d: Direction) -> Vec2 {
    match d {
        Direction::North => Vec2 { x: 0, y: 1 },
        Direction::South => Vec2 { x: 0, y: -1i64 },
        Direction::East => Vec2 { x: 1, y: 0 },
        Direction::West => Vec2 { x: -1i64, y: 0 },
    }
}

pub fn direction_unit(d: Direction) -> (r: Vec2)
    ensures
        r == spec_direction_unit(d),
{
    match d {
        Direction::North => Vec2 { x: 0, y: 1 },
        Direction::South => Vec2 { x: 0, y: -1 },
        Direction::East => Vec2 { x: 1, y: 0 },
        Direction::West => Vec2 { x: -1, y: 0 },
    }
}

/// The squared distance between two positions, in nano-units squared.
pub open spec fn spec_square_distance(a: Vec2, b: Vec2) -> int {
    (a.x - b.x) * (a.x - b.x) + (a.y - b.y) * (a.y - b.y)
}

/// Computes the squared distance of two bounded positions exactly, using
/// 128-bit intermediates so nothing overflows.
pub fn square_distance(a: Vec2, b: Vec2) -> (r: i128)
    requires
        a.bounded(POS_LIMIT_NANO as int),
        b.bounded(POS_LIMIT_NANO as int),
    ensures
        r == spec_square_distance(a, b),
{
    let dx: i128 = a.x as i128 - b.x as i128;
    let dy: i128 = a.y as i128 - b.y as i128;
    proof {
        assert(dx * dx <= 4_000_000_000_000_000_000_000_000_000_000i128 && dx * dx >= 0)
            by (nonlinear_arith)
            requires
                -2_000_000_000_000_000 <= dx <= 2_000_000_000_000_000,
        ;
        assert(dy * dy <= 4_000_000_000_000_000_000_000_000_000_000i128 && dy * dy >= 0)
            by (nonlinear_arith)
            requires
                -2_000_000_000_000_000 <= dy <= 2_000_000_000_000_000,
        ;
    }
    dx * dx + dy * dy
}

/// An axis-aligned hitbox given by its half extents, in nano-units.
#[derive(Clone, Copy, Debug, PartialEq, Eq, Structural)]
pub struct RectangleHitbox {
    pub half_width: i64,
    pub half_height: i64,
}

impl RectangleHitbox {
    /// A well-formed hitbox has non-negative, bounded half extents.
    pub open spec fn wf(self) -> bool {
        0 <= self.half_width <= HITBOX_LIMIT_NANO && 0 <= self.half_height
            <= HITBOX_LIMIT_NANO
    }

    pub fn new(h_width: i64, h_height: i64) -> (r: RectangleHitbox)
        requires
            0 <= h_width <= HITBOX_LIMIT_NANO,
            0 <= h_height <= HITBOX_LIMIT_NANO,
        ensures
            r.half_width == h_width,
            r.half_height == h_height,
            r.wf(),
    {
        RectangleHitbox { half_width: h_width, half_height: h_height }
    }

    /// The default body hitbox: 0.75 units wide, 1 unit tall, per half extent.
    pub fn new_default() -> (r: RectangleHitbox)
        ensures
            r.half_width == 750_000_000,
            r.half_height == 1_000_000_000,
            r.wf(),
    {
        RectangleHitbox { half_width: 750_000_000, half_height: 1_000_000_000 }
    }

    /// The same box rotated by a quarter turn.
    pub fn rotated(&self) -> (r: RectangleHitbox)
        ensures
            r.half_width == self.half_height,
            r.half_height == self.half_width,
    {
        RectangleHitbox { half_width: self.half_height, half_height: self.half_width }
    }

    /// Whether this box at `pos` overlaps `other` at `pos_other`.  Boxes
    /// that merely touch count as overlapping.
    pub fn collision(&self, pos: Vec2, other: &RectangleHitbox, pos_other: Vec2) -> (r:
        bool)
        requires
            self.wf(),
            other.wf(),
            pos.bounded(POS_LIMIT_NANO + HITBOX_LIMIT_NANO),
            pos_other.bounded(POS_LIMIT_NANO + HITBOX_LIMIT_NANO),
        ensures
            r == spec_boxes_overlap(*self, pos, *other, pos_other),
    {
        let bot1: i64 = pos.y - self.half_height;
        let top1: i64 = pos.y + self.half_height;
        let bot2: i64 = pos_other.y - other.half_height;
        let top2: i64 = pos_other.y + other.half_height;
        if bot1 > top2 {
            return false;
        }
        if top1 < bot2 {
            return false;
        }
        let left1: i64 = pos.x - self.half_width;
        let right1: i64 = pos.x + self.half_width;
        let left2: i64 = pos_other.x - other.half_width;
        let right2: i64 = pos_other.x + other.half_width;
        if right1 < left2 {
            return false;
        }
        if left1 > right2 {
            return false;
        }
        true
    }
}

/// Axis-aligned overlap of two boxes placed at two positions.
pub open spec fn spec_boxes_overlap(a: RectangleHitbox, pa: Vec2, b: RectangleHitbox, pb: Vec2) -> bool {
    &&& pa.y - a.half_height <= pb.y + b.half_height
    &&& pa.y + a.half_height >= pb.y - b.half_height
    &&& pa.x + a.half_width >= pb.x - b.half_width
    &&& pa.x - a.half_width <= pb.x + b.half_width
}

/// Clamps a coordinate into `[0, limit]`.
pub open spec fn spec_clamp(x: int, limit: int) -> int {
    if x < 0 {
        0
    } else if x > limit {
        limit
    } else {
        x
    }
}

pub fn clamp_coordinate(x: i64, limit: i64) -> (r: i64)
    requires
        0 <= limit,
    ensures
        r == spec_clamp(x as int, limit as int),
{
    if x < 0 {
        0
    } else if x > limit {
        limit
    } else {
        x
    }
}

} // verus!
