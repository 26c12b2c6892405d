//! Small shared helpers: the vertical bias a generator steers by, yaw
//! sampling, and block-edge geometry.

use vstd::prelude::*;
use crate::geom::{BlockPos, Vec3Fx, SCALE};
use crate::rng::random_in_range;
use crate::trig::{sin_mdeg, cos_mdeg, spec_sin_mdeg, spec_cos_mdeg};

verus! {

/// Which way the generator steers the next jump's height.
#[derive(Clone, Copy, Debug, PartialEq, Eq, Structural)]
pub enum JumpDirection {
    Up,
    Down,
    DoesntMatter,
}

/// The block-height offset a bias direction steers toward.
pub open spec fn spec_y_offset(d: JumpDirection) -> int {
    match d {
        JumpDirection::Up => 1,
        JumpDirection::Down => -1,
        JumpDirection::DoesntMatter => 0,
    }
}

impl JumpDirection {
    /// The block-height offset this bias steers toward.
    pub fn get_y_offset(&self) -> (r: i64)
        ensures
            r == spec_y_offset(*self),
    {
        match self {
            JumpDirection::Up => 1,
            JumpDirection::Down => -1,
            JumpDirection::DoesntMatter => 0,
        }
    }
}

/// The widest yaw cone a running jump is sampled from, in millidegrees
/// to either side of straight ahead.
pub const YAW_CONE_MDEG: i64 = 60_000;

/// A random yaw within `dist` millidegrees of straight ahead.
pub fn random_yaw_dist(dist: i64) -> (r: i64)
    requires
        0 <= dist <= 180_000,
    ensures
        -dist <= r <= dist,
{
    random_in_range(-dist, dist)
}

/// A random yaw within the standard cone of a running jump.
pub fn random_yaw() -> (r: i64)
    ensures
        -YAW_CONE_MDEG <= r <= YAW_CONE_MDEG,
{
    random_yaw_dist(YAW_CONE_MDEG)
}

/// A straight segment between two continuous points.
#[derive(Clone, Copy, Debug, PartialEq, Eq, Structural)]
pub struct Line3Fx {
    pub a: Vec3Fx,
    pub b: Vec3Fx,
}

/// Whether a continuous point is one of the eight corners of a block's
/// unit cube.
pub open spec fn is_corner_of(b: BlockPos, p: Vec3Fx) -> bool {
    &&& (p.x == (b.x as int) * (SCALE as int) || p.x == (b.x as int) * (SCALE as int) + SCALE)
    &&& (p.y == (b.y as int) * (SCALE as int) || p.y == (b.y as int) * (SCALE as int) + SCALE)
    &&& (p.z == (b.z as int) * (SCALE as int) || p.z == (b.z as int) * (SCALE as int) + SCALE)
}

/// Whether a segment is an edge of a block's unit cube: both endpoints
/// are corners, differing in exactly one coordinate.
pub open spec fn is_cube_edge(b: BlockPos, l: Line3Fx) -> bool {
    &&& is_corner_of(b, l.a)
    &&& is_corner_of(b, l.b)
    &&& (if l.a.x == l.b.x {
        0int
    } else {
        1int
    }) + (if l.a.y == l.b.y {
        0int
    } else {
        1int
    }) + (if l.a.z == l.b.z {
        0int
    } else {
        1int
    }) == 1
}

/// The twelve edges of a block's unit cube, for a host that draws a
/// debug outline.
pub fn get_lines_for_block(pos: BlockPos) -> (r: Vec<Line3Fx>)
    requires
        -1_000_000_000 <= pos.x <= 1_000_000_000,
        -1_000_000_000 <= pos.y <= 1_000_000_000,
        -1_000_000_000 <= pos.z <= 1_000_000_000,
    ensures
        r@.len() == 12,
        forall|i: int| 0 <= i < r@.len() ==> is_cube_edge(pos, #[trigger] r@[i]),
        forall|i: int, j: int| 0 <= i < j < r@.len() ==> #[trigger] r@[i] != #[trigger] r@[j],
{
    let x0: i64 = (pos.x as i64) * SCALE;
    let y0: i64 = (pos.y as i64) * SCALE;
    let z0: i64 = (pos.z as i64) * SCALE;
    let x1: i64 = x0 + SCALE;
    let y1: i64 = y0 + SCALE;
    let z1: i64 = z0 + SCALE;
    let mut r: Vec<Line3Fx> = Vec::new();
    r.push(Line3Fx { a: Vec3Fx { x: x0, y: y0, z: z0 }, b: Vec3Fx { x: x1, y: y0, z: z0 } });
    r.push(Line3Fx { a: Vec3Fx { x: x0, y: y0, z: z0 }, b: Vec3Fx { x: x0, y: y1, z: z0 } });
    r.push(Line3Fx { a: Vec3Fx { x: x0, y: y0, z: z0 }, b: Vec3Fx { x: x0, y: y0, z: z1 } });
    r.push(Line3Fx { a: Vec3Fx { x: x1, y: y0, z: z0 }, b: Vec3Fx { x: x1, y: y1, z: z0 } });
    r.push(Line3Fx { a: Vec3Fx { x: x1, y: y0, z: z0 }, b: Vec3Fx { x: x1, y: y0, z: z1 } });
    r.push(Line3Fx { a: Vec3Fx { x: x0, y: y1, z: z0 }, b: Vec3Fx { x: x1, y: y1, z: z0 } });
    r.push(Line3Fx { a: Vec3Fx { x: x0, y: y1, z: z0 }, b: Vec3Fx { x: x0, y: y1, z: z1 } });
    r.push(Line3Fx { a: Vec3Fx { x: x0, y: y0, z: z1 }, b: Vec3Fx { x: x1, y: y0, z: z1 } });
    r.push(Line3Fx { a: Vec3Fx { x: x0, y: y0, z: z1 }, b: Vec3Fx { x: x0, y: y1, z: z1 } });
    r.push(Line3Fx { a: Vec3Fx { x: x1, y: y1, z: z0 }, b: Vec3Fx { x: x1, y: y1, z: z1 } });
    r.push(Line3Fx { a: Vec3Fx { x: x1, y: y0, z: z1 }, b: Vec3Fx { x: x1, y: y1, z: z1 } });
    r.push(Line3Fx { a: Vec3Fx { x: x0, y: y1, z: z1 }, b: Vec3Fx { x: x1, y: y1, z: z1 } });
    r
}

/// The point `dist` milli-blocks out from the centre of a block's top
/// edge, along the direction a given yaw faces.
pub open spec fn spec_edge_of_block_dist(pos: BlockPos, yaw_mdeg: int, dist: int) -> Vec3Fx {
    Vec3Fx {
        x: (pos.x * (SCALE as int) + (SCALE as int) / 2 + -spec_sin_mdeg(yaw_mdeg) * dist / (
        SCALE as int)) as i64,
        y: (pos.y * (SCALE as int)) as i64,
        z: (pos.z * (SCALE as int) + (SCALE as int) / 2 + spec_cos_mdeg(yaw_mdeg) * dist / (
        SCALE as int)) as i64,
    }
}

/// The point `dist` milli-blocks from a block's centre along a yaw.
pub fn get_edge_of_block_dist(pos: BlockPos, yaw_mdeg: i64, dist: i64) -> (r: Vec3Fx)
    requires
        -180_000 <= yaw_mdeg <= 180_000,
        0 <= dist <= 1_000_000_000,
        -1_000_000_000 <= pos.x <= 1_000_000_000,
        -1_000_000_000 <= pos.y <= 1_000_000_000,
        -1_000_000_000 <= pos.z <= 1_000_000_000,
    ensures
        r == spec_edge_of_block_dist(pos, yaw_mdeg as int, dist as int),
{
    let s: i64 = sin_mdeg(yaw_mdeg);
    let c: i64 = cos_mdeg(yaw_mdeg);
    proof {
        assert(-1000 * dist <= -s * dist <= 1000 * dist) by (nonlinear_arith)
            requires
                -1000 <= s <= 1000,
                dist >= 0,
        ;
        assert(-1000 * dist <= c * dist <= 1000 * dist) by (nonlinear_arith)
            requires
                -1000 <= c <= 1000,
                dist >= 0,
        ;
        vstd::arithmetic::div_mod::lemma_div_is_ordered(-s * dist, 1000 * dist, SCALE as int);
        vstd::arithmetic::div_mod::lemma_div_is_ordered(-1000 * dist, -s * dist, SCALE as int);
        vstd::arithmetic::div_mod::lemma_div_is_ordered(c * dist, 1000 * dist, SCALE as int);
        vstd::arithmetic::div_mod::lemma_div_is_ordered(-1000 * dist, c * dist, SCALE as int);
        vstd::arithmetic::div_mod::lemma_div_multiples_vanish(dist as int, SCALE as int);
        vstd::arithmetic::div_mod::lemma_div_multiples_vanish(-(dist as int), SCALE as int);
    }
    let dx: i64 = crate::geom::floor_div_scale(-s * dist);
    let dz: i64 = crate::geom::floor_div_scale(c * dist);
    Vec3Fx {
        x: (pos.x as i64) * SCALE + SCALE / 2 + dx,
        y: (pos.y as i64) * SCALE,
        z: (pos.z as i64) * SCALE + SCALE / 2 + dz,
    }
}

/// The centre of a block's top edge: distance zero along any yaw.
pub fn get_edge_of_block(pos: BlockPos, yaw_mdeg: i64) -> (r: Vec3Fx)
    requires
        -180_000 <= yaw_mdeg <= 180_000,
        -1_000_000_000 <= pos.x <= 1_000_000_000,
        -1_000_000_000 <= pos.y <= 1_000_000_000,
        -1_000_000_000 <= pos.z <= 1_000_000_000,
    ensures
        r == spec_edge_of_block_dist(pos, yaw_mdeg as int, 0),
{
    get_edge_of_block_dist(pos, yaw_mdeg, 0)
}

} // verus!
