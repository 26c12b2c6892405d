//! Integer geometry: block positions and fixed-point 3D vectors.
//!
//! Continuous positions and velocities are held in milli-blocks (one block
//! is `SCALE` units), so that the movement model is exact integer
//! arithmetic and every trajectory is reproducible.

use vstd::prelude::*;

verus! {

/// Number of fixed-point units in one block.
pub const SCALE: i64 = 1000;

/// Bound on the magnitude of any coordinate a position may hold
/// (in milli-blocks); keeps every block index within `i32`.
pub const POS_LIMIT: i64 = 1_000_000_000_000;

/// Half the player's footprint width, in milli-blocks.
pub const HALF_WIDTH: i64 = 300;

/// A world block position (integer lattice coordinates).
#[derive(Clone, Copy, Debug, PartialEq, Eq, Hash, Structural)]
pub struct BlockPos {
    pub x: i32,
    pub y: i32,
    pub z: i32,
}

impl BlockPos {
    pub fn new(x: i32, y: i32, z: i32) -> (r: BlockPos)
        ensures
            r == (BlockPos { x, y, z }),
    {
        BlockPos { x, y, z }
    }

    /// The continuous position of this block's lower corner.
    pub fn to_vec3fx(self) -> (r: Vec3Fx)
        ensures
            r.x == self.x * SCALE,
            r.y == self.y * SCALE,
            r.z == self.z * SCALE,
    {
        Vec3Fx { x: (self.x as i64) * SCALE, y: (self.y as i64) * SCALE, z: (self.z as i64) * SCALE }
    }

    /// Component-wise sum; the inputs must be small enough not to wrap.
    pub fn offset_by(self, other: BlockPos) -> (r: BlockPos)
        requires
            i32::MIN <= self.x + other.x <= i32::MAX,
            i32::MIN <= self.y + other.y <= i32::MAX,
            i32::MIN <= self.z + other.z <= i32::MAX,
        ensures
            r.x == self.x + other.x,
            r.y == self.y + other.y,
            r.z == self.z + other.z,
    {
        BlockPos { x: self.x + other.x, y: self.y + other.y, z: self.z + other.z }
    }
}

/// The block index that a fixed-point coordinate falls in (floor division).
pub open spec fn spec_block_of(a: int) -> int {
    a / (SCALE as int)
}

/// Floor division of a fixed-point coordinate down to its block index.
pub fn block_of(a: i64) -> (r: i64)
    ensures
        r == spec_block_of(a as int),
{
    floor_div_scale(a)
}

/// Division by `SCALE` rounding toward negative infinity, as spec-level
/// `/` does.
pub fn floor_div_scale(a: i64) -> (r: i64)
    ensures
        r == a as int / (SCALE as int),
{
    let q: i64 = a / SCALE;
    let m: i64 = a % SCALE;
    if a >= 0 || m == 0 {
        q
    } else {
        q - 1
    }
}

/// A coordinate within `POS_LIMIT` falls in a block index within a
/// billion blocks of the origin.
pub proof fn lemma_block_of_range(a: i64)
    requires
        -POS_LIMIT <= a <= POS_LIMIT,
    ensures
        -1_000_000_000 <= spec_block_of(a as int) <= 1_000_000_000,
{
    vstd::arithmetic::div_mod::lemma_div_is_ordered(a as int, POS_LIMIT as int, SCALE as int);
    vstd::arithmetic::div_mod::lemma_div_is_ordered(-(POS_LIMIT as int), a as int, SCALE as int);
    vstd::arithmetic::div_mod::lemma_div_multiples_vanish(1_000_000_000, SCALE as int);
    vstd::arithmetic::div_mod::lemma_div_multiples_vanish(-1_000_000_000, SCALE as int);
}

/// A fixed-point 3D vector in milli-block units.
#[derive(Clone, Copy, Debug, PartialEq, Eq, Structural)]
pub struct Vec3Fx {
    pub x: i64,
    pub y: i64,
    pub z: i64,
}

/// Whether every coordinate of a fixed-point vector is within `POS_LIMIT`.
pub open spec fn in_world(v: Vec3Fx) -> bool {
    &&& -POS_LIMIT <= v.x <= POS_LIMIT
    &&& -POS_LIMIT <= v.y <= POS_LIMIT
    &&& -POS_LIMIT <= v.z <= POS_LIMIT
}

impl Vec3Fx {
    pub fn new(x: i64, y: i64, z: i64) -> (r: Vec3Fx)
        ensures
            r == (Vec3Fx { x, y, z }),
    {
        Vec3Fx { x, y, z }
    }

    /// The continuous position at the centre of a block's top face:
    /// half a block in along `x` and `z`, one block up.
    pub fn block_top_center(b: BlockPos) -> (r: Vec3Fx)
        ensures
            r.x == b.x * SCALE + SCALE / 2,
            r.y == (b.y + 1) * SCALE,
            r.z == b.z * SCALE + SCALE / 2,
    {
        Vec3Fx {
            x: (b.x as i64) * SCALE + SCALE / 2,
            y: ((b.y as i64) + 1) * SCALE,
            z: (b.z as i64) * SCALE + SCALE / 2,
        }
    }

    /// The same vector with its first coordinate replaced.
    pub fn with_x(self, x: i64) -> (r: Vec3Fx)
        ensures
            r == (Vec3Fx { x, y: self.y, z: self.z }),
    {
        Vec3Fx { x, y: self.y, z: self.z }
    }

    /// The same vector with its second coordinate replaced.
    pub fn with_y(self, y: i64) -> (r: Vec3Fx)
        ensures
            r == (Vec3Fx { x: self.x, y, z: self.z }),
    {
        Vec3Fx { x: self.x, y, z: self.z }
    }

    /// The same vector with its third coordinate replaced.
    pub fn with_z(self, z: i64) -> (r: Vec3Fx)
        ensures
            r == (Vec3Fx { x: self.x, y: self.y, z }),
    {
        Vec3Fx { x: self.x, y: self.y, z }
    }

    /// Component-wise sum.
    pub fn add(self, other: Vec3Fx) -> (r: Vec3Fx)
        requires
            i64::MIN <= self.x + other.x <= i64::MAX,
            i64::MIN <= self.y + other.y <= i64::MAX,
            i64::MIN <= self.z + other.z <= i64::MAX,
        ensures
            r.x == self.x + other.x,
            r.y == self.y + other.y,
            r.z == self.z + other.z,
    {
        Vec3Fx { x: self.x + other.x, y: self.y + other.y, z: self.z + other.z }
    }

    /// Component-wise difference.
    pub fn sub(self, other: Vec3Fx) -> (r: Vec3Fx)
        requires
            i64::MIN <= self.x - other.x <= i64::MAX,
            i64::MIN <= self.y - other.y <= i64::MAX,
            i64::MIN <= self.z - other.z <= i64::MAX,
        ensures
            r.x == self.x - other.x,
            r.y == self.y - other.y,
            r.z == self.z - other.z,
    {
        Vec3Fx { x: self.x - other.x, y: self.y - other.y, z: self.z - other.z }
    }

    /// The block a continuous position falls in, as a spec value.
    pub open spec fn spec_block_pos(self) -> BlockPos {
        BlockPos {
            x: spec_block_of(self.x as int) as i32,
            y: spec_block_of(self.y as int) as i32,
            z: spec_block_of(self.z as int) as i32,
        }
    }

    /// The block this continuous position falls in (floor of each coordinate).
    pub fn block_pos(self) -> (r: BlockPos)
        requires
            in_world(self),
        ensures
            r.x == spec_block_of(self.x as int),
            r.y == spec_block_of(self.y as int),
            r.z == spec_block_of(self.z as int),
            r == self.spec_block_pos(),
    {
        BlockPos {
            x: block_of(self.x) as i32,
            y: block_of(self.y) as i32,
            z: block_of(self.z) as i32,
        }
    }
}

/// Whether `b` lies one block beneath the footprint of a player whose feet
/// stand at the continuous position `rel`.
pub open spec fn is_floor_block(rel: Vec3Fx, b: BlockPos) -> bool {
    &&& (b.x == spec_block_of(rel.x - HALF_WIDTH) || b.x == spec_block_of(rel.x + HALF_WIDTH))
    &&& b.y == spec_block_of(rel.y as int) - 1
    &&& (b.z == spec_block_of(rel.z - HALF_WIDTH) || b.z == spec_block_of(rel.z + HALF_WIDTH))
}

/// The block positions directly beneath a player's feet: every block the
/// square footprint overlaps, one block below the feet.
pub fn player_floor_blocks(rel: Vec3Fx) -> (r: Vec<BlockPos>)
    requires
        -POS_LIMIT + HALF_WIDTH <= rel.x <= POS_LIMIT - HALF_WIDTH,
        -POS_LIMIT <= rel.y <= POS_LIMIT,
        -POS_LIMIT + HALF_WIDTH <= rel.z <= POS_LIMIT - HALF_WIDTH,
        spec_block_of(rel.y as int) - 1 >= i32::MIN,
    ensures
        forall|i: int| 0 <= i < r@.len() ==> is_floor_block(rel, r@[i]),
        forall|b: BlockPos| is_floor_block(rel, b) ==> r@.contains(b),
    {
    let x0: i64 = block_of(rel.x - HALF_WIDTH);
    let x1: i64 = block_of(rel.x + HALF_WIDTH);
    let z0: i64 = block_of(rel.z - HALF_WIDTH);
    let z1: i64 = block_of(rel.z + HALF_WIDTH);
    let by: i32 = (block_of(rel.y) - 1) as i32;

    let mut r: Vec<BlockPos> = Vec::new();
    r.push(BlockPos { x: x0 as i32, y: by, z: z0 as i32 });
    r.push(BlockPos { x: x0 as i32, y: by, z: z1 as i32 });
    r.push(BlockPos { x: x1 as i32, y: by, z: z0 as i32 });
    r.push(BlockPos { x: x1 as i32, y: by, z: z1 as i32 });
    proof {
        assert forall|b: BlockPos| is_floor_block(rel, b) implies r@.contains(b) by {
            if b.x == x0 as i32 && b.z == z0 as i32 {
                assert(r@[0] == b);
            } else if b.x == x0 as i32 && b.z == z1 as i32 {
                assert(r@[1] == b);
            } else if b.x == x1 as i32 && b.z == z0 as i32 {
                assert(r@[2] == b);
            } else {
                assert(r@[3] == b);
            }
        }
    }
    r
}

} // verus!
