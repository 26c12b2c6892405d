//! One placed parkour segment: its block layout, its sub-regions with
//! reachability bookkeeping, and the block writes that place it into or
//! remove it from the world.
//!
//! Placement and removal do not touch the world themselves: they return
//! the writes for the host to apply, and removal writes the empty
//! identifier at exactly the positions placement wrote.

use vstd::prelude::*;
use crate::geom::{
    BlockPos, Vec3Fx, SCALE, POS_LIMIT, HALF_WIDTH, in_world, is_floor_block, player_floor_blocks,
    spec_block_of,
};
use crate::palette::{BlockId, AIR};
use crate::physics::PredictionState;

verus! {

/// The player's position expressed in a segment's local frame.
pub open spec fn spec_rel(pos: Vec3Fx, off: BlockPos) -> Vec3Fx {
    Vec3Fx {
        x: (pos.x - (off.x as int) * (SCALE as int)) as i64,
        y: (pos.y - (off.y as int) * (SCALE as int)) as i64,
        z: (pos.z - (off.z as int) * (SCALE as int)) as i64,
    }
}

/// Bounds under which a reachability query cannot overflow: the player
/// stands in the world, the offset is lawful, and the player lands in
/// range of the segment's local frame.
pub open spec fn reach_inputs_ok(pos: Vec3Fx, off: BlockPos) -> bool {
    &&& in_world(pos)
    &&& offset_bounded(off)
    &&& -POS_LIMIT + HALF_WIDTH <= pos.x - (off.x as int) * (SCALE as int) <= POS_LIMIT
        - HALF_WIDTH
    &&& -POS_LIMIT <= pos.y - (off.y as int) * (SCALE as int) <= POS_LIMIT
    &&& -POS_LIMIT + HALF_WIDTH <= pos.z - (off.z as int) * (SCALE as int) <= POS_LIMIT
        - HALF_WIDTH
}

/// Exec form of `spec_rel`.
fn rel_of(pos: Vec3Fx, off: BlockPos) -> (r: Vec3Fx)
    requires
        reach_inputs_ok(pos, off),
    ensures
        r == spec_rel(pos, off),
{
    Vec3Fx {
        x: pos.x - (off.x as i64) * SCALE,
        y: pos.y - (off.y as i64) * SCALE,
        z: pos.z - (off.z as i64) * SCALE,
    }
}

/// Bound on the magnitude of a segment-local block coordinate.
pub const KEY_LIMIT: i32 = 100_000;

/// Bound on the magnitude of a segment offset coordinate; keeps every
/// offset-shifted key within `i32`.
pub const OFFSET_LIMIT: i32 = 2_000_000_000;

/// One block write for the host to apply to the world surface.
#[derive(Clone, Copy, Debug, PartialEq, Eq, Structural)]
pub struct BlockWrite {
    pub pos: BlockPos,
    pub block: BlockId,
}

/// Whether a local key is small enough to shift by any lawful offset.
pub open spec fn key_bounded(p: BlockPos) -> bool {
    &&& -KEY_LIMIT <= p.x <= KEY_LIMIT
    &&& -KEY_LIMIT <= p.y <= KEY_LIMIT
    &&& -KEY_LIMIT <= p.z <= KEY_LIMIT
}

/// Whether an offset is small enough to shift any lawful key.
pub open spec fn offset_bounded(p: BlockPos) -> bool {
    &&& -OFFSET_LIMIT <= p.x <= OFFSET_LIMIT
    &&& -OFFSET_LIMIT <= p.y <= OFFSET_LIMIT
    &&& -OFFSET_LIMIT <= p.z <= OFFSET_LIMIT
}

/// A local key shifted by a segment offset into world space.
pub open spec fn spec_shift(p: BlockPos, off: BlockPos) -> BlockPos {
    BlockPos { x: (p.x + off.x) as i32, y: (p.y + off.y) as i32, z: (p.z + off.z) as i32 }
}

/// Whether a key occurs in a block mapping.
pub open spec fn key_in(blocks: Seq<(BlockPos, BlockId)>, p: BlockPos) -> bool {
    exists|i: int| 0 <= i < blocks.len() && (#[trigger] blocks[i]).0 == p
}

/// Whether a position occurs in a position list.
pub open spec fn pos_in(list: Seq<BlockPos>, p: BlockPos) -> bool {
    exists|i: int| 0 <= i < list.len() && list[i] == p
}

/// Whether a sub-region's footprint contains the player: some block
/// beneath the player's feet is one of its blocks or trigger positions.
pub open spec fn spec_child_touches(c: ChildGeneration, rel: Vec3Fx) -> bool {
    exists|b: BlockPos|
        #[trigger] is_floor_block(rel, b) && (key_in(c.blocks@, b) || pos_in(c.check_blocks@, b))
}

/// The first sub-region that is not yet reached and whose footprint
/// contains the player.
pub open spec fn first_new_hit(cs: Seq<ChildGeneration>, rel: Vec3Fx) -> Option<int>
    decreases cs.len(),
{
    if cs.len() == 0 {
        None
    } else if !cs[0].reached && spec_child_touches(cs[0], rel) {
        Some(0)
    } else {
        match first_new_hit(cs.drop_first(), rel) {
            None => None,
            Some(i) => Some(i + 1),
        }
    }
}

/// How many sub-regions in the sequence are already reached.
pub open spec fn count_reached(cs: Seq<ChildGeneration>) -> int
    decreases cs.len(),
{
    if cs.len() == 0 {
        0
    } else {
        (if cs[0].reached {
            1int
        } else {
            0int
        }) + count_reached(cs.drop_first())
    }
}

/// How many sub-regions are newly triggered: not yet reached, footprint
/// containing the player.
pub open spec fn count_new_hits(cs: Seq<ChildGeneration>, rel: Vec3Fx) -> int
    decreases cs.len(),
{
    if cs.len() == 0 {
        0
    } else {
        (if !cs[0].reached && spec_child_touches(cs[0], rel) {
            1int
        } else {
            0int
        }) + count_new_hits(cs.drop_first(), rel)
    }
}

/// How many sub-regions in the sequence are still unreached.
pub open spec fn count_unreached(cs: Seq<ChildGeneration>) -> int
    decreases cs.len(),
{
    if cs.len() == 0 {
        0
    } else {
        (if cs[0].reached {
            0int
        } else {
            1int
        }) + count_unreached(cs.drop_first())
    }
}

/// Appending a sub-region adds its contribution to each count.
pub proof fn lemma_counts_push(cs: Seq<ChildGeneration>, c: ChildGeneration, rel: Vec3Fx)
    ensures
        count_reached(cs.push(c)) == count_reached(cs) + if c.reached {
            1int
        } else {
            0int
        },
        count_new_hits(cs.push(c), rel) == count_new_hits(cs, rel) + if !c.reached
            && spec_child_touches(c, rel) {
            1int
        } else {
            0int
        },
        count_unreached(cs.push(c)) == count_unreached(cs) + if c.reached {
            0int
        } else {
            1int
        },
    decreases cs.len(),
{
    if cs.len() == 0 {
        assert(cs.push(c).drop_first() =~= cs);
    } else {
        assert(cs.push(c).drop_first() =~= cs.drop_first().push(c));
        lemma_counts_push(cs.drop_first(), c, rel);
    }
}

/// Each count stays between zero and the sequence's length.
pub proof fn lemma_counts_bound(cs: Seq<ChildGeneration>, rel: Vec3Fx)
    ensures
        0 <= count_reached(cs) <= cs.len(),
        0 <= count_new_hits(cs, rel) <= cs.len(),
        0 <= count_unreached(cs) <= cs.len(),
    decreases cs.len(),
{
    if cs.len() > 0 {
        lemma_counts_bound(cs.drop_first(), rel);
    }
}

/// A zero new-hit count means no sub-region is newly triggered.
pub proof fn lemma_count_new_hits_zero(cs: Seq<ChildGeneration>, rel: Vec3Fx)
    requires
        count_new_hits(cs, rel) == 0,
    ensures
        forall|j: int|
            0 <= j < cs.len() ==> ((#[trigger] cs[j]).reached || !spec_child_touches(cs[j], rel)),
    decreases cs.len(),
{
    if cs.len() > 0 {
        lemma_counts_bound(cs.drop_first(), rel);
        lemma_count_new_hits_zero(cs.drop_first(), rel);
        assert forall|j: int|
            0 <= j < cs.len() implies ((#[trigger] cs[j]).reached || !spec_child_touches(
            cs[j],
            rel,
        )) by {
            if j > 0 {
                assert(cs.drop_first()[j - 1] == cs[j]);
            }
        }
    }
}

/// If every sub-region before `i` is reached or missed, and `i` is an
/// unreached hit, then `i` is the first new hit.
pub proof fn lemma_first_new_hit_at(cs: Seq<ChildGeneration>, rel: Vec3Fx, i: int)
    requires
        0 <= i < cs.len(),
        forall|j: int|
            0 <= j < i ==> ((#[trigger] cs[j]).reached || !spec_child_touches(cs[j], rel)),
        !cs[i].reached,
        spec_child_touches(cs[i], rel),
    ensures
        first_new_hit(cs, rel) == Some(i),
    decreases i,
{
    if i > 0 {
        lemma_first_new_hit_at(cs.drop_first(), rel, i - 1);
    }
}

/// A first new hit lies in range, is unreached, and is a hit.
pub proof fn lemma_first_new_hit_some(cs: Seq<ChildGeneration>, rel: Vec3Fx, i: int)
    requires
        first_new_hit(cs, rel) == Some(i),
    ensures
        0 <= i < cs.len(),
        !cs[i].reached,
        spec_child_touches(cs[i], rel),
    decreases cs.len(),
{
    if cs.len() > 0 && !(!cs[0].reached && spec_child_touches(cs[0], rel)) {
        match first_new_hit(cs.drop_first(), rel) {
            None => {},
            Some(j) => {
                lemma_first_new_hit_some(cs.drop_first(), rel, j);
            },
        }
    }
}

/// If every sub-region is reached or missed, there is no new hit.
pub proof fn lemma_first_new_hit_none(cs: Seq<ChildGeneration>, rel: Vec3Fx)
    requires
        forall|j: int|
            0 <= j < cs.len() ==> ((#[trigger] cs[j]).reached || !spec_child_touches(cs[j], rel)),
    ensures
        first_new_hit(cs, rel) is None,
    decreases cs.len(),
{
    if cs.len() > 0 {
        lemma_first_new_hit_none(cs.drop_first(), rel);
    }
}

/// Whether a key occurs in a block mapping (linear scan).
fn keys_contain(blocks: &Vec<(BlockPos, BlockId)>, p: BlockPos) -> (r: bool)
    ensures
        r == key_in(blocks@, p),
{
    let n: usize = blocks.len();
    let mut i: usize = 0;
    while i < n
        invariant
            n == blocks@.len(),
            i <= n,
            forall|j: int| 0 <= j < i ==> (#[trigger] blocks@[j]).0 != p,
        decreases n - i,
    {
        if blocks[i].0 == p {
            return true;
        }
        i = i + 1;
    }
    false
}

/// Whether a position occurs in a position list (linear scan).
fn list_contains(list: &Vec<BlockPos>, p: BlockPos) -> (r: bool)
    ensures
        r == pos_in(list@, p),
{
    let n: usize = list.len();
    let mut i: usize = 0;
    while i < n
        invariant
            n == list@.len(),
            i <= n,
            forall|j: int| 0 <= j < i ==> list@[j] != p,
        decreases n - i,
    {
        if list[i] == p {
            return true;
        }
        i = i + 1;
    }
    false
}

/// The writes that place a block mapping at an offset.
pub open spec fn spec_place_writes(
    blocks: Seq<(BlockPos, BlockId)>,
    off: BlockPos,
) -> Seq<BlockWrite> {
    blocks.map_values(|b: (BlockPos, BlockId)| BlockWrite { pos: spec_shift(b.0, off), block: b.1 })
}

/// The writes that clear the same mapping: the same positions, `AIR`.
pub open spec fn spec_remove_writes(
    blocks: Seq<(BlockPos, BlockId)>,
    off: BlockPos,
) -> Seq<BlockWrite> {
    blocks.map_values(|b: (BlockPos, BlockId)| BlockWrite { pos: spec_shift(b.0, off), block: AIR })
}

/// A sub-region of a segment: its own block mapping, extra trigger
/// positions that count as reaching it, and a monotonic `reached` flag.
#[derive(Clone, Debug)]
#[verifier::ext_equal]
pub struct ChildGeneration {
    pub blocks: Vec<(BlockPos, BlockId)>,
    pub check_blocks: Vec<BlockPos>,
    pub reached: bool,
}

impl ChildGeneration {
    /// Whether every local key is bounded and the keys form a mapping:
    /// no key occurs twice.
    pub open spec fn wf(&self) -> bool {
        &&& forall|i: int|
            0 <= i < self.blocks@.len() ==> key_bounded((#[trigger] self.blocks@[i]).0)
        &&& forall|i: int, j: int|
            0 <= i < j < self.blocks@.len() ==> (#[trigger] self.blocks@[i]).0 != (
            #[trigger] self.blocks@[j]).0
    }

    /// An unreached sub-region over the given mappings.
    pub fn new(blocks: Vec<(BlockPos, BlockId)>, check_blocks: Vec<BlockPos>) -> (r:
        ChildGeneration)
        ensures
            r.blocks@ == blocks@,
            r.check_blocks@ == check_blocks@,
            !r.reached,
    {
        ChildGeneration { blocks, check_blocks, reached: false }
    }

    /// The writes that place this sub-region at a segment's offset.
    pub fn place(&self, offset: BlockPos) -> (r: Vec<BlockWrite>)
        requires
            self.wf(),
            offset_bounded(offset),
        ensures
            r@ == spec_place_writes(self.blocks@, offset),
    {
        place_writes(&self.blocks, offset)
    }

    /// The writes that clear this sub-region at a segment's offset.
    pub fn remove(&self, offset: BlockPos) -> (r: Vec<BlockWrite>)
        requires
            self.wf(),
            offset_bounded(offset),
        ensures
            r@ == spec_remove_writes(self.blocks@, offset),
    {
        remove_writes(&self.blocks, offset)
    }

    /// Whether the player newly reaches this sub-region; a reached
    /// sub-region stays reached and never triggers again.
    pub fn has_reached(&mut self, pos: Vec3Fx, offset: BlockPos) -> (r: bool)
        requires
            reach_inputs_ok(pos, offset),
        ensures
            final(self).blocks == old(self).blocks,
            final(self).check_blocks == old(self).check_blocks,
            old(self).reached ==> !r && final(self).reached,
            !old(self).reached ==> r == spec_child_touches(*old(self), spec_rel(pos, offset))
                && final(self).reached == r,
    {
        if self.reached {
            return false;
        }
        let rel = rel_of(pos, offset);
        let ghost rel_g = spec_rel(pos, offset);
        let poses = player_floor_blocks(rel);
        let m: usize = poses.len();
        let mut k: usize = 0;
        while k < m
            invariant
                *self == *old(self),
                !self.reached,
                m == poses@.len(),
                k <= m,
                rel == rel_g,
                rel_g == spec_rel(pos, offset),
                forall|i: int| 0 <= i < poses@.len() ==> is_floor_block(rel_g, #[trigger] poses@[i]),
                forall|b: BlockPos| is_floor_block(rel_g, b) ==> poses@.contains(b),
                forall|j: int|
                    0 <= j < k ==> !key_in(self.blocks@, #[trigger] poses@[j]) && !pos_in(
                        self.check_blocks@,
                        poses@[j],
                    ),
            decreases m - k,
        {
            let p = poses[k];
            if keys_contain(&self.blocks, p) || list_contains(&self.check_blocks, p) {
                self.reached = true;
                proof {
                    assert(is_floor_block(rel_g, p));
                    assert(spec_child_touches(*old(self), rel_g));
                }
                return true;
            }
            k = k + 1;
        }
        proof {
            assert(!spec_child_touches(*old(self), rel_g)) by {
                if spec_child_touches(*old(self), rel_g) {
                    let b = choose|b: BlockPos|
                        #[trigger] is_floor_block(rel_g, b) && (key_in(old(self).blocks@, b)
                            || pos_in(old(self).check_blocks@, b));
                    assert(poses@.contains(b));
                    let j = choose|j: int| 0 <= j < poses@.len() && poses@[j] == b;
                    assert(!key_in(self.blocks@, poses@[j]) && !pos_in(
                        self.check_blocks@,
                        poses@[j],
                    ));
                }
            }
        }
        false
    }
}

/// Writes that place a block mapping at an offset.
fn place_writes(blocks: &Vec<(BlockPos, BlockId)>, off: BlockPos) -> (r: Vec<BlockWrite>)
    requires
        forall|i: int| 0 <= i < blocks@.len() ==> key_bounded((#[trigger] blocks@[i]).0),
        offset_bounded(off),
    ensures
        r@ == spec_place_writes(blocks@, off),
{
    let mut r: Vec<BlockWrite> = Vec::new();
    let n: usize = blocks.len();
    let mut i: usize = 0;
    while i < n
        invariant
            n == blocks@.len(),
            i <= n,
            forall|j: int| 0 <= j < n ==> key_bounded((#[trigger] blocks@[j]).0),
            offset_bounded(off),
            r@ == spec_place_writes(blocks@.take(i as int), off),
        decreases n - i,
    {
        let (p, b) = blocks[i];
        r.push(BlockWrite { pos: p.offset_by(off), block: b });
        proof {
            assert(blocks@.take(i + 1) =~= blocks@.take(i as int).push(blocks@[i as int]));
            assert(r@ =~= spec_place_writes(blocks@.take(i + 1), off));
        }
        i = i + 1;
    }
    proof {
        assert(blocks@.take(n as int) =~= blocks@);
    }
    r
}

/// Writes that clear a block mapping at an offset.
fn remove_writes(blocks: &Vec<(BlockPos, BlockId)>, off: BlockPos) -> (r: Vec<BlockWrite>)
    requires
        forall|i: int| 0 <= i < blocks@.len() ==> key_bounded((#[trigger] blocks@[i]).0),
        offset_bounded(off),
    ensures
        r@ == spec_remove_writes(blocks@, off),
{
    let mut r: Vec<BlockWrite> = Vec::new();
    let n: usize = blocks.len();
    let mut i: usize = 0;
    while i < n
        invariant
            n == blocks@.len(),
            i <= n,
            forall|j: int| 0 <= j < n ==> key_bounded((#[trigger] blocks@[j]).0),
            offset_bounded(off),
            r@ == spec_remove_writes(blocks@.take(i as int), off),
        decreases n - i,
    {
        let (p, _) = blocks[i];
        r.push(BlockWrite { pos: p.offset_by(off), block: AIR });
        proof {
            assert(blocks@.take(i + 1) =~= blocks@.take(i as int).push(blocks@[i as int]));
            assert(r@ =~= spec_remove_writes(blocks@.take(i + 1), off));
        }
        i = i + 1;
    }
    proof {
        assert(blocks@.take(n as int) =~= blocks@);
    }
    r
}

/// A placed parkour segment: an immutable blueprint, ordered
/// sub-regions, the world offset it anchors at, and the state the
/// player is expected to end it in.
#[derive(Clone, Debug)]
#[verifier::ext_equal]
pub struct Generation {
    pub blocks: Vec<(BlockPos, BlockId)>,
    pub children: Vec<ChildGeneration>,
    pub ordered: bool,
    pub offset: BlockPos,
    pub end_state: PredictionState,
}

impl Generation {
    /// Whether the segment's keys and offset are bounded, its own keys
    /// form a mapping with no key occurring twice, and every sub-region
    /// is likewise consistent.
    pub open spec fn wf(&self) -> bool {
        &&& forall|i: int|
            0 <= i < self.blocks@.len() ==> key_bounded((#[trigger] self.blocks@[i]).0)
        &&& forall|i: int, j: int|
            0 <= i < j < self.blocks@.len() ==> (#[trigger] self.blocks@[i]).0 != (
            #[trigger] self.blocks@[j]).0
        &&& forall|i: int| 0 <= i < self.children@.len() ==> (#[trigger] self.children@[i]).wf()
        &&& offset_bounded(self.offset)
    }

    /// All writes that place the segment: its own blocks, then every
    /// sub-region's, all shifted by the segment's offset.
    pub open spec fn spec_place(&self) -> Seq<BlockWrite> {
        spec_place_writes(self.blocks@, self.offset) + concat_child_place(
            self.children@,
            self.offset,
        )
    }

    /// All writes that remove the segment: the same positions, `AIR`.
    pub open spec fn spec_remove(&self) -> Seq<BlockWrite> {
        spec_remove_writes(self.blocks@, self.offset) + concat_child_remove(
            self.children@,
            self.offset,
        )
    }

    /// The writes that place the segment into the world.
    pub fn place(&self) -> (r: Vec<BlockWrite>)
        requires
            self.wf(),
        ensures
            r@ == self.spec_place(),
    {
        let mut r: Vec<BlockWrite> = place_writes(&self.blocks, self.offset);
        let n: usize = self.children.len();
        let mut i: usize = 0;
        while i < n
            invariant
                self.wf(),
                n == self.children@.len(),
                i <= n,
                r@ == spec_place_writes(self.blocks@, self.offset) + concat_child_place(
                    self.children@.take(i as int),
                    self.offset,
                ),
            decreases n - i,
        {
            let mut w: Vec<BlockWrite> = self.children[i].place(self.offset);
            r.append(&mut w);
            proof {
                assert(self.children@.take(i + 1) =~= self.children@.take(i as int).push(
                    self.children@[i as int],
                ));
                lemma_concat_child_place_push(
                    self.children@.take(i as int),
                    self.children@[i as int],
                    self.offset,
                );
                assert(r@ =~= spec_place_writes(self.blocks@, self.offset) + concat_child_place(
                    self.children@.take(i + 1),
                    self.offset,
                ));
            }
            i = i + 1;
        }
        proof {
            assert(self.children@.take(n as int) =~= self.children@);
        }
        r
    }

    /// The writes that remove the segment from the world.
    pub fn remove(&self) -> (r: Vec<BlockWrite>)
        requires
            self.wf(),
        ensures
            r@ == self.spec_remove(),
    {
        let mut r: Vec<BlockWrite> = remove_writes(&self.blocks, self.offset);
        let n: usize = self.children.len();
        let mut i: usize = 0;
        while i < n
            invariant
                self.wf(),
                n == self.children@.len(),
                i <= n,
                r@ == spec_remove_writes(self.blocks@, self.offset) + concat_child_remove(
                    self.children@.take(i as int),
                    self.offset,
                ),
            decreases n - i,
        {
            let mut w: Vec<BlockWrite> = self.children[i].remove(self.offset);
            r.append(&mut w);
            proof {
                assert(self.children@.take(i + 1) =~= self.children@.take(i as int).push(
                    self.children@[i as int],
                ));
                lemma_concat_child_remove_push(
                    self.children@.take(i as int),
                    self.children@[i as int],
                    self.offset,
                );
                assert(r@ =~= spec_remove_writes(self.blocks@, self.offset) + concat_child_remove(
                    self.children@.take(i + 1),
                    self.offset,
                ));
            }
            i = i + 1;
        }
        proof {
            assert(self.children@.take(n as int) =~= self.children@);
        }
        r
    }
}

/// Whether any sub-region's block mapping holds the key.
pub open spec fn child_key_in(cs: Seq<ChildGeneration>, b: BlockPos) -> bool {
    exists|j: int| 0 <= j < cs.len() && key_in((#[trigger] cs[j]).blocks@, b)
}

/// Whether any sub-region's block mapping holds the key (linear scan).
fn children_contain(children: &Vec<ChildGeneration>, p: BlockPos) -> (r: bool)
    ensures
        r == child_key_in(children@, p),
{
    let n: usize = children.len();
    let mut i: usize = 0;
    while i < n
        invariant
            n == children@.len(),
            i <= n,
            forall|j: int| 0 <= j < i ==> !key_in((#[trigger] children@[j]).blocks@, p),
        decreases n - i,
    {
        if keys_contain(&children[i].blocks, p) {
            return true;
        }
        i = i + 1;
    }
    false
}

impl Generation {
    /// Whether the player stands on any block of the segment or of its
    /// sub-regions: a pure read, no flag changes.
    pub open spec fn spec_has_reached(&self, pos: Vec3Fx) -> bool {
        exists|b: BlockPos|
            #[trigger] is_floor_block(spec_rel(pos, self.offset), b) && (key_in(self.blocks@, b)
                || child_key_in(self.children@, b))
    }

    /// Whether the player stands on any block of the segment or of its
    /// sub-regions.
    pub fn has_reached(&self, pos: Vec3Fx) -> (r: bool)
        requires
            reach_inputs_ok(pos, self.offset),
        ensures
            r == self.spec_has_reached(pos),
    {
        let rel = rel_of(pos, self.offset);
        let ghost rel_g = spec_rel(pos, self.offset);
        let poses = player_floor_blocks(rel);
        let m: usize = poses.len();
        let mut k: usize = 0;
        while k < m
            invariant
                m == poses@.len(),
                k <= m,
                rel == rel_g,
                rel_g == spec_rel(pos, self.offset),
                forall|i: int| 0 <= i < poses@.len() ==> is_floor_block(rel_g, #[trigger] poses@[i]),
                forall|b: BlockPos| is_floor_block(rel_g, b) ==> poses@.contains(b),
                forall|j: int|
                    0 <= j < k ==> !key_in(self.blocks@, #[trigger] poses@[j]) && !child_key_in(
                        self.children@,
                        poses@[j],
                    ),
            decreases m - k,
        {
            let p = poses[k];
            if keys_contain(&self.blocks, p) || children_contain(&self.children, p) {
                proof {
                    assert(is_floor_block(rel_g, p));
                }
                return true;
            }
            k = k + 1;
        }
        proof {
            assert(!self.spec_has_reached(pos)) by {
                if self.spec_has_reached(pos) {
                    let b = choose|b: BlockPos|
                        #[trigger] is_floor_block(rel_g, b) && (key_in(self.blocks@, b)
                            || child_key_in(self.children@, b));
                    assert(poses@.contains(b));
                    let j = choose|j: int| 0 <= j < poses@.len() && poses@[j] == b;
                    assert(!key_in(self.blocks@, poses@[j]) && !child_key_in(
                        self.children@,
                        poses@[j],
                    ));
                }
            }
        }
        false
    }

    /// The score delta the player's position earns from the segment's
    /// sub-regions, marking what was newly reached.
    ///
    /// When the sub-regions are ordered, the first unreached one whose
    /// footprint holds the player scores one point for itself and one
    /// for each unreached sub-region skipped before it, and all of them
    /// up to it become reached. When unordered, every newly triggered
    /// sub-region scores one point. A `reached` flag never goes back to
    /// false.
    pub fn has_reached_child(&mut self, pos: Vec3Fx) -> (r: u32)
        requires
            reach_inputs_ok(pos, old(self).offset),
            old(self).children@.len() <= u32::MAX,
        ensures
            final(self).blocks == old(self).blocks,
            final(self).ordered == old(self).ordered,
            final(self).offset == old(self).offset,
            final(self).end_state == old(self).end_state,
            final(self).children@.len() == old(self).children@.len(),
            forall|j: int|
                0 <= j < old(self).children@.len() ==> {
                    &&& (#[trigger] final(self).children@[j]).blocks == old(
                        self,
                    ).children@[j].blocks
                    &&& final(self).children@[j].check_blocks == old(
                        self,
                    ).children@[j].check_blocks
                    &&& (old(self).children@[j].reached ==> final(self).children@[j].reached)
                },
            old(self).ordered ==> match first_new_hit(
                old(self).children@,
                spec_rel(pos, old(self).offset),
            ) {
                None => r == 0 && final(self).children@ == old(self).children@,
                Some(i) => {
                    &&& r == i - count_reached(old(self).children@.take(i)) + 1
                    &&& forall|j: int|
                        0 <= j < old(self).children@.len()
                            ==> (#[trigger] final(self).children@[j]).reached == (j <= i || old(
                            self,
                        ).children@[j].reached)
                },
            },
            !old(self).ordered ==> {
                &&& r == count_new_hits(old(self).children@, spec_rel(pos, old(self).offset))
                &&& forall|j: int|
                    0 <= j < old(self).children@.len()
                        ==> (#[trigger] final(self).children@[j]).reached == (old(
                        self,
                    ).children@[j].reached || spec_child_touches(
                        old(self).children@[j],
                        spec_rel(pos, old(self).offset),
                    ))
            },
    {
        let ghost cs = self.children@;
        let ghost rel_g = spec_rel(pos, self.offset);
        let n: usize = self.children.len();
        if self.ordered {
            let mut reached_count: u32 = 0;
            let mut i: usize = 0;
            while i < n
                invariant
                    self.blocks == old(self).blocks,
                    self.ordered == old(self).ordered,
                    self.offset == old(self).offset,
                    self.end_state == old(self).end_state,
                    self.ordered,
                    cs == old(self).children@,
                    self.children@ == cs,
                    rel_g == spec_rel(pos, old(self).offset),
                    reach_inputs_ok(pos, old(self).offset),
                    n == cs.len(),
                    n <= u32::MAX,
                    i <= n,
                    reached_count == count_reached(cs.take(i as int)),
                    reached_count <= i,
                    forall|j: int|
                        0 <= j < i ==> ((#[trigger] cs[j]).reached || !spec_child_touches(
                            cs[j],
                            rel_g,
                        )),
                decreases n - i,
            {
                proof {
                    assert(cs.take(i + 1) =~= cs.take(i as int).push(cs[i as int]));
                    lemma_counts_push(cs.take(i as int), cs[i as int], rel_g);
                    lemma_counts_bound(cs.take(i as int), rel_g);
                }
                if self.children[i].reached {
                    reached_count = reached_count + 1;
                } else {
                    let off = self.offset;
                    let hit = self.children[i].has_reached(pos, off);
                    if hit {
                        proof {
                            lemma_first_new_hit_at(cs, rel_g, i as int);
                        }
                        let mut j: usize = 0;
                        while j < i
                            invariant
                                j <= i,
                                i < n,
                                n == self.children@.len(),
                                cs == old(self).children@,
                                n == cs.len(),
                                self.blocks == old(self).blocks,
                                self.ordered == old(self).ordered,
                                self.offset == old(self).offset,
                                self.end_state == old(self).end_state,
                                forall|k: int|
                                    0 <= k < n ==> {
                                        &&& (#[trigger] self.children@[k]).blocks == cs[k].blocks
                                        &&& self.children@[k].check_blocks == cs[k].check_blocks
                                        &&& self.children@[k].reached == (k < j || k == i
                                            || cs[k].reached)
                                    },
                            decreases i - j,
                        {
                            let c = &mut self.children[j];
                            c.reached = true;
                            j = j + 1;
                        }
                        return (i as u32) - reached_count + 1;
                    }
                    proof {
                        assert(self.children@[i as int] == cs[i as int]);
                        assert(self.children@ =~= cs);
                    }
                }
                i = i + 1;
            }
            proof {
                lemma_first_new_hit_none(cs, rel_g);
            }
            0
        } else {
            let mut count: u32 = 0;
            let mut i: usize = 0;
            while i < n
                invariant
                    self.blocks == old(self).blocks,
                    self.ordered == old(self).ordered,
                    self.offset == old(self).offset,
                    self.end_state == old(self).end_state,
                    !self.ordered,
                    cs == old(self).children@,
                    rel_g == spec_rel(pos, old(self).offset),
                    reach_inputs_ok(pos, old(self).offset),
                    n == cs.len(),
                    n == self.children@.len(),
                    n <= u32::MAX,
                    i <= n,
                    count == count_new_hits(cs.take(i as int), rel_g),
                    count <= i,
                    forall|k: int| i <= k < n ==> #[trigger] self.children@[k] == cs[k],
                    forall|k: int|
                        0 <= k < i ==> {
                            &&& (#[trigger] self.children@[k]).blocks == cs[k].blocks
                            &&& self.children@[k].check_blocks == cs[k].check_blocks
                            &&& self.children@[k].reached == (cs[k].reached || spec_child_touches(
                                cs[k],
                                rel_g,
                            ))
                        },
                decreases n - i,
            {
                proof {
                    assert(self.children@[i as int] == cs[i as int]);
                    assert(cs.take(i + 1) =~= cs.take(i as int).push(cs[i as int]));
                    lemma_counts_push(cs.take(i as int), cs[i as int], rel_g);
                    lemma_counts_bound(cs.take(i as int), rel_g);
                }
                let off = self.offset;
                let hit = self.children[i].has_reached(pos, off);
                if hit {
                    count = count + 1;
                }
                i = i + 1;
            }
            proof {
                assert(cs.take(n as int) =~= cs);
            }
            count
        }
    }

    /// How many sub-regions are still unreached when the segment is
    /// ordered; an unordered segment has already scored its sub-regions
    /// and reports zero.
    pub fn get_unreached_child_count(&self) -> (r: u32)
        requires
            self.children@.len() <= u32::MAX,
        ensures
            r == if self.ordered {
                count_unreached(self.children@)
            } else {
                0int
            },
    {
        if !self.ordered {
            return 0;
        }
        let ghost cs = self.children@;
        let ghost rel_g = Vec3Fx { x: 0, y: 0, z: 0 };
        let n: usize = self.children.len();
        let mut count: u32 = 0;
        let mut i: usize = 0;
        while i < n
            invariant
                cs == self.children@,
                n == cs.len(),
                n <= u32::MAX,
                i <= n,
                count == count_unreached(cs.take(i as int)),
                count <= i,
            decreases n - i,
        {
            proof {
                assert(cs.take(i + 1) =~= cs.take(i as int).push(cs[i as int]));
                lemma_counts_push(cs.take(i as int), cs[i as int], rel_g);
                lemma_counts_bound(cs.take(i as int), rel_g);
            }
            if !self.children[i].reached {
                count = count + 1;
            }
            i = i + 1;
        }
        proof {
            assert(cs.take(n as int) =~= cs);
        }
        count
    }
}

/// The concatenated placement writes of a sequence of sub-regions.
pub open spec fn concat_child_place(cs: Seq<ChildGeneration>, off: BlockPos) -> Seq<BlockWrite>
    decreases cs.len(),
{
    if cs.len() == 0 {
        Seq::empty()
    } else {
        concat_child_place(cs.drop_last(), off) + spec_place_writes(cs.last().blocks@, off)
    }
}

/// The concatenated removal writes of a sequence of sub-regions.
pub open spec fn concat_child_remove(cs: Seq<ChildGeneration>, off: BlockPos) -> Seq<BlockWrite>
    decreases cs.len(),
{
    if cs.len() == 0 {
        Seq::empty()
    } else {
        concat_child_remove(cs.drop_last(), off) + spec_remove_writes(cs.last().blocks@, off)
    }
}

/// Appending one sub-region appends its writes.
proof fn lemma_concat_child_place_push(cs: Seq<ChildGeneration>, c: ChildGeneration, off: BlockPos)
    ensures
        concat_child_place(cs.push(c), off) == concat_child_place(cs, off) + spec_place_writes(
            c.blocks@,
            off,
        ),
{
    assert(cs.push(c).drop_last() =~= cs);
    assert(cs.push(c).last() == c);
}

/// Appending one sub-region appends its writes.
proof fn lemma_concat_child_remove_push(cs: Seq<ChildGeneration>, c: ChildGeneration, off: BlockPos)
    ensures
        concat_child_remove(cs.push(c), off) == concat_child_remove(cs, off) + spec_remove_writes(
            c.blocks@,
            off,
        ),
{
    assert(cs.push(c).drop_last() =~= cs);
    assert(cs.push(c).last() == c);
}

} // verus!
