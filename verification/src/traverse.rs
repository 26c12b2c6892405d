//! Walking the blocks a straight line segment passes through.
//!
//! The walk starts in the cell holding the segment's start, ends in the
//! cell holding its end, and moves one block along one axis at a time,
//! choosing the axis whose cell boundary the line crosses first by
//! comparing scaled error accumulators.

use vstd::prelude::*;
use crate::geom::{BlockPos, Vec3Fx, SCALE, in_world, block_of, spec_block_of};

verus! {

/// Whether two block positions are one block apart along one axis.
pub open spec fn unit_step(a: BlockPos, b: BlockPos) -> bool {
    let dx = if b.x >= a.x {
        b.x - a.x
    } else {
        a.x - b.x
    };
    let dy = if b.y >= a.y {
        b.y - a.y
    } else {
        a.y - b.y
    };
    let dz = if b.z >= a.z {
        b.z - a.z
    } else {
        a.z - b.z
    };
    dx + dy + dz == 1
}

/// The distance between two integers.
pub open spec fn dist(a: int, b: int) -> int {
    if b >= a {
        b - a
    } else {
        a - b
    }
}

/// The sign of an integer.
pub open spec fn spec_sign(d: int) -> int {
    if d > 0 {
        1
    } else if d < 0 {
        -1
    } else {
        0
    }
}

/// Whether a move from `a` to `b` is one block along exactly one axis,
/// in the direction that axis runs from the start cell `s` toward the
/// end cell `e`.
pub open spec fn directed_step(a: BlockPos, b: BlockPos, s: BlockPos, e: BlockPos) -> bool {
    ||| (e.x != s.x && b.x == a.x + spec_sign(e.x - s.x) && b.y == a.y && b.z == a.z)
    ||| (e.y != s.y && b.y == a.y + spec_sign(e.y - s.y) && b.x == a.x && b.z == a.z)
    ||| (e.z != s.z && b.z == a.z + spec_sign(e.z - s.z) && b.x == a.x && b.y == a.y)
}

/// Whether a cell lies in the closed box spanned by two cells.
pub open spec fn in_box(p: BlockPos, s: BlockPos, e: BlockPos) -> bool {
    &&& (s.x <= p.x <= e.x || e.x <= p.x <= s.x)
    &&& (s.y <= p.y <= e.y || e.y <= p.y <= s.y)
    &&& (s.z <= p.z <= e.z || e.z <= p.z <= s.z)
}

/// The sign of the difference, as an exec step direction.
fn step_sign(from: i64, to: i64) -> (r: i64)
    ensures
        to > from ==> r == 1,
        to < from ==> r == -1,
        to == from ==> r == 0,
{
    if to > from {
        1
    } else if to < from {
        -1
    } else {
        0
    }
}

/// Every block cell a straight line from `start` to `end` passes
/// through, in order: the walk begins in the start's cell, ends in the
/// end's cell, and each move is one block along one axis.
#[verifier::rlimit(80)]
pub fn get_blocks_between(start: Vec3Fx, end: Vec3Fx) -> (r: Vec<BlockPos>)
    requires
        in_world(start),
        in_world(end),
    ensures
        r@.len() >= 1,
        r@[0] == start.spec_block_pos(),
        r@.last() == end.spec_block_pos(),
        forall|i: int| 0 <= i < r@.len() - 1 ==> unit_step(r@[i], #[trigger] r@[i + 1]),
        forall|i: int|
            0 <= i < r@.len() - 1 ==> directed_step(
                r@[i],
                #[trigger] r@[i + 1],
                start.spec_block_pos(),
                end.spec_block_pos(),
            ),
        r@.len() == 1 + dist(
            start.spec_block_pos().x as int,
            end.spec_block_pos().x as int,
        ) + dist(start.spec_block_pos().y as int, end.spec_block_pos().y as int) + dist(
            start.spec_block_pos().z as int,
            end.spec_block_pos().z as int,
        ),
        forall|i: int|
            0 <= i < r@.len() ==> in_box(
                #[trigger] r@[i],
                start.spec_block_pos(),
                end.spec_block_pos(),
            ),
        forall|i: int|
            0 <= i < r@.len() ==> dist(start.spec_block_pos().x as int, (#[trigger] r@[i]).x as int)
                + dist(start.spec_block_pos().y as int, r@[i].y as int) + dist(
                start.spec_block_pos().z as int,
                r@[i].z as int,
            ) == i,
        forall|i: int, j: int| 0 <= i < j < r@.len() ==> #[trigger] r@[i] != #[trigger] r@[j],
{
    let gx0idx: i64 = block_of(start.x);
    let gy0idx: i64 = block_of(start.y);
    let gz0idx: i64 = block_of(start.z);
    let gx1idx: i64 = block_of(end.x);
    let gy1idx: i64 = block_of(end.y);
    let gz1idx: i64 = block_of(end.z);
    proof {
        crate::geom::lemma_block_of_range(start.x);
        crate::geom::lemma_block_of_range(start.y);
        crate::geom::lemma_block_of_range(start.z);
        crate::geom::lemma_block_of_range(end.x);
        crate::geom::lemma_block_of_range(end.y);
        crate::geom::lemma_block_of_range(end.z);
    }

    let sx: i64 = step_sign(gx0idx, gx1idx);
    let sy: i64 = step_sign(gy0idx, gy1idx);
    let sz: i64 = step_sign(gz0idx, gz1idx);

    // Planes for each axis that the walk will next cross.
    let gxp: i64 = gx0idx + (if gx1idx > gx0idx { 1 } else { 0 });
    let gyp: i64 = gy0idx + (if gy1idx > gy0idx { 1 } else { 0 });
    let gzp: i64 = gz0idx + (if gz1idx > gz0idx { 1 } else { 0 });

    // Distances along each axis; a degenerate axis counts one block so
    // the error products stay meaningful.
    let vx: i64 = if end.x == start.x { SCALE } else { end.x - start.x };
    let vy: i64 = if end.y == start.y { SCALE } else { end.y - start.y };
    let vz: i64 = if end.z == start.z { SCALE } else { end.z - start.z };

    // Error accumulators, normalized to vx*vy*vz.
    proof {
        assert(-4000000000000000000000001int <= (vx as i128) * (vy as i128) <= 4000000000000000000000001int) by (nonlinear_arith)
            requires
                                -2_000_000_000_000 <= vx <= 2_000_000_000_000,
                -2_000_000_000_000 <= vy <= 2_000_000_000_000,
        ;
        assert(-4000000000000000000000001int <= (vx as i128) * (vz as i128) <= 4000000000000000000000001int) by (nonlinear_arith)
            requires
                                -2_000_000_000_000 <= vx <= 2_000_000_000_000,
                -2_000_000_000_000 <= vz <= 2_000_000_000_000,
        ;
        assert(-4000000000000000000000001int <= (vy as i128) * (vz as i128) <= 4000000000000000000000001int) by (nonlinear_arith)
            requires
                                -2_000_000_000_000 <= vy <= 2_000_000_000_000,
                -2_000_000_000_000 <= vz <= 2_000_000_000_000,
        ;
    }
    let vxvy: i128 = (vx as i128) * (vy as i128);
    let vxvz: i128 = (vx as i128) * (vz as i128);
    let vyvz: i128 = (vy as i128) * (vz as i128);

    let ex0: i128 = (gxp * SCALE - start.x) as i128;
    let ey0: i128 = (gyp * SCALE - start.y) as i128;
    let ez0: i128 = (gzp * SCALE - start.z) as i128;
    proof {
        assert(-8400000000000000000000002100000000000int <= ex0 * vyvz <= 8400000000000000000000002100000000000int) by (nonlinear_arith)
            requires
                                -2_100_000_000_000 <= ex0 <= 2_100_000_000_000,
                -4000000000000000000000001int <= vyvz <= 4000000000000000000000001int,
                        ;
        assert(-8400000000000000000000002100000000000int <= ey0 * vxvz <= 8400000000000000000000002100000000000int) by (nonlinear_arith)
            requires
                                -2_100_000_000_000 <= ey0 <= 2_100_000_000_000,
                -4000000000000000000000001int <= vxvz <= 4000000000000000000000001int,
                        ;
        assert(-8400000000000000000000002100000000000int <= ez0 * vxvy <= 8400000000000000000000002100000000000int) by (nonlinear_arith)
            requires
                                -2_100_000_000_000 <= ez0 <= 2_100_000_000_000,
                -4000000000000000000000001int <= vxvy <= 4000000000000000000000001int,
                        ;
    }
    let mut errx: i128 = ex0 * vyvz;
    let mut erry: i128 = ey0 * vxvz;
    let mut errz: i128 = ez0 * vxvy;

    proof {
        assert(-4000000000000000000000001int <= (sx as i128) * vyvz <= 4000000000000000000000001int) by (nonlinear_arith)
            requires
                -1 <= sx <= 1,
                -4000000000000000000000001int <= vyvz <= 4000000000000000000000001int,
                        ;
        assert(-4000000000000000000000001int <= (sy as i128) * vxvz <= 4000000000000000000000001int) by (nonlinear_arith)
            requires
                -1 <= sy <= 1,
                -4000000000000000000000001int <= vxvz <= 4000000000000000000000001int,
                        ;
        assert(-4000000000000000000000001int <= (sz as i128) * vxvy <= 4000000000000000000000001int) by (nonlinear_arith)
            requires
                -1 <= sz <= 1,
                -4000000000000000000000001int <= vxvy <= 4000000000000000000000001int,
                        ;
    }
    let derrx: i128 = (sx as i128) * vyvz;
    let derry: i128 = (sy as i128) * vxvz;
    let derrz: i128 = (sz as i128) * vxvy;

    let mut gx: i64 = gx0idx;
    let mut gy: i64 = gy0idx;
    let mut gz: i64 = gz0idx;

    let mut blocks: Vec<BlockPos> = Vec::new();
    blocks.push(BlockPos { x: gx0idx as i32, y: gy0idx as i32, z: gz0idx as i32 });

    while gx != gx1idx || gy != gy1idx || gz != gz1idx
        invariant
            -1_000_000_001 <= gx0idx <= 1_000_000_001,
            -1_000_000_001 <= gy0idx <= 1_000_000_001,
            -1_000_000_001 <= gz0idx <= 1_000_000_001,
            -1_000_000_001 <= gx1idx <= 1_000_000_001,
            -1_000_000_001 <= gy1idx <= 1_000_000_001,
            -1_000_000_001 <= gz1idx <= 1_000_000_001,
            gx1idx == spec_block_of(end.x as int),
            gy1idx == spec_block_of(end.y as int),
            gz1idx == spec_block_of(end.z as int),
            -1 <= sx <= 1,
            -1 <= sy <= 1,
            -1 <= sz <= 1,
            sx == 1 ==> gx0idx <= gx <= gx1idx,
            sx == -1 ==> gx1idx <= gx <= gx0idx,
            sx == 0 ==> gx == gx0idx && gx1idx == gx0idx,
            sy == 1 ==> gy0idx <= gy <= gy1idx,
            sy == -1 ==> gy1idx <= gy <= gy0idx,
            sy == 0 ==> gy == gy0idx && gy1idx == gy0idx,
            sz == 1 ==> gz0idx <= gz <= gz1idx,
            sz == -1 ==> gz1idx <= gz <= gz0idx,
            sz == 0 ==> gz == gz0idx && gz1idx == gz0idx,
                                    -4000000000000000000000001int <= derrx <= 4000000000000000000000001int,
            -4000000000000000000000001int <= derry <= 4000000000000000000000001int,
            -4000000000000000000000001int <= derrz <= 4000000000000000000000001int,
            -8400000000000000000000002100000000000int - (if gx >= gx0idx { gx - gx0idx } else { gx0idx - gx }) * 4000000000000000000000001int
                <= errx <= 8400000000000000000000002100000000000int + (if gx >= gx0idx { gx - gx0idx } else { gx0idx - gx })
                * 4000000000000000000000001int,
            -8400000000000000000000002100000000000int - (if gy >= gy0idx { gy - gy0idx } else { gy0idx - gy }) * 4000000000000000000000001int
                <= erry <= 8400000000000000000000002100000000000int + (if gy >= gy0idx { gy - gy0idx } else { gy0idx - gy })
                * 4000000000000000000000001int,
            -8400000000000000000000002100000000000int - (if gz >= gz0idx { gz - gz0idx } else { gz0idx - gz }) * 4000000000000000000000001int
                <= errz <= 8400000000000000000000002100000000000int + (if gz >= gz0idx { gz - gz0idx } else { gz0idx - gz })
                * 4000000000000000000000001int,
            gx0idx == spec_block_of(start.x as int),
            gy0idx == spec_block_of(start.y as int),
            gz0idx == spec_block_of(start.z as int),
            sx == spec_sign(gx1idx - gx0idx),
            sy == spec_sign(gy1idx - gy0idx),
            sz == spec_sign(gz1idx - gz0idx),
            blocks@.len() >= 1,
            blocks@[0] == start.spec_block_pos(),
            blocks@.last() == (BlockPos { x: gx as i32, y: gy as i32, z: gz as i32 }),
            blocks@.len() == 1 + dist(gx0idx as int, gx as int) + dist(gy0idx as int, gy as int)
                + dist(gz0idx as int, gz as int),
            forall|i: int|
                0 <= i < blocks@.len() - 1 ==> unit_step(blocks@[i], #[trigger] blocks@[i + 1]),
            forall|i: int|
                0 <= i < blocks@.len() - 1 ==> directed_step(
                    blocks@[i],
                    #[trigger] blocks@[i + 1],
                    start.spec_block_pos(),
                    end.spec_block_pos(),
                ),
            forall|i: int|
                0 <= i < blocks@.len() ==> in_box(
                    #[trigger] blocks@[i],
                    start.spec_block_pos(),
                    end.spec_block_pos(),
                ),
            forall|i: int|
                0 <= i < blocks@.len() ==> dist(
                    start.spec_block_pos().x as int,
                    (#[trigger] blocks@[i]).x as int,
                ) + dist(start.spec_block_pos().y as int, blocks@[i].y as int) + dist(
                    start.spec_block_pos().z as int,
                    blocks@[i].z as int,
                ) == i,
        decreases
                (if gx1idx >= gx {
                    gx1idx - gx
                } else {
                    gx - gx1idx
                }) + (if gy1idx >= gy {
                    gy1idx - gy
                } else {
                    gy - gy1idx
                }) + (if gz1idx >= gz {
                    gz1idx - gz
                } else {
                    gz - gz1idx
                }),
    {
        let xr: i128 = if errx >= 0 {
            errx
        } else {
            -errx
        };
        let yr: i128 = if erry >= 0 {
            erry
        } else {
            -erry
        };
        let zr: i128 = if errz >= 0 {
            errz
        } else {
            -errz
        };

        let step_x: bool = sx != 0 && gx != gx1idx;
        let step_y: bool = sy != 0 && gy != gy1idx;
        let step_z: bool = sz != 0 && gz != gz1idx;

        if step_x && (!step_y || xr < yr) && (!step_z || xr < zr) {
            gx = gx + sx;
            errx = errx + derrx;
        } else if step_y && (!step_z || yr < zr) {
            gy = gy + sy;
            erry = erry + derry;
        } else if step_z {
            gz = gz + sz;
            errz = errz + derrz;
        } else {
            proof {
                assert(false);
            }
        }
        blocks.push(BlockPos { x: gx as i32, y: gy as i32, z: gz as i32 });
    }
    blocks
}

} // verus!
