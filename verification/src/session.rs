//! The per-player session state machine: a bounded lookahead queue of
//! live segments, score and combo tracking, and the steering bias the
//! generator follows.
//!
//! The session never touches the world or the player itself: every
//! operation returns the block writes and feedback requests for the
//! host to apply.

use vstd::prelude::*;
use std::collections::VecDeque;
use crate::errors::GenerationError;
use crate::generation::{
    Generation, BlockWrite, reach_inputs_ok, spec_rel, first_new_hit, count_reached,
    count_new_hits, count_unreached,
};
use crate::generator::{Generator, GenerationTheme, sim_start_ok, anchor_ok, gtype_key, generated_ok};
use crate::palette::{
    BuiltBlockCollectionMap, built_matches, has_empty_uniform, resolvable, present_empty,
    spec_find,
};
use crate::physics::spec_trajectory;
use crate::geom::{BlockPos, Vec3Fx, SCALE, POS_LIMIT, HALF_WIDTH, in_world};
use crate::physics::PredictionState;
use crate::utils::JumpDirection;

verus! {

/// A counter sum clipped at what a `u32` can hold.
pub open spec fn clip_u32(x: int) -> int {
    if x > u32::MAX {
        u32::MAX as int
    } else {
        x
    }
}

/// Whether the player's position counts as having reached a segment:
/// in range of its local frame and standing on one of its blocks.
pub open spec fn seg_reached(g: Generation, pos: Vec3Fx) -> bool {
    reach_inputs_ok(pos, g.offset) && g.spec_has_reached(pos)
}

/// The furthest queued segment the player's position has reached.
pub open spec fn furthest_reached(gens: Seq<Generation>, pos: Vec3Fx) -> Option<int>
    decreases gens.len(),
{
    if gens.len() == 0 {
        None
    } else if seg_reached(gens.last(), pos) {
        Some(gens.len() - 1)
    } else {
        furthest_reached(gens.drop_last(), pos)
    }
}

/// If everything above `i` is unreached and `i` is reached, `i` is the
/// furthest reached index.
pub proof fn lemma_furthest_at(gens: Seq<Generation>, pos: Vec3Fx, i: int)
    requires
        0 <= i < gens.len(),
        seg_reached(gens[i], pos),
        forall|j: int| i < j < gens.len() ==> !seg_reached(#[trigger] gens[j], pos),
    ensures
        furthest_reached(gens, pos) == Some(i),
    decreases gens.len(),
{
    if i < gens.len() - 1 {
        assert(!seg_reached(gens.last(), pos));
        assert(gens.drop_last()[i] == gens[i]);
        assert forall|j: int| i < j < gens.drop_last().len() implies !seg_reached(
            #[trigger] gens.drop_last()[j],
            pos,
        ) by {
            assert(gens.drop_last()[j] == gens[j]);
        }
        lemma_furthest_at(gens.drop_last(), pos, i);
    }
}

/// If no segment is reached, there is no furthest reached index.
pub proof fn lemma_furthest_none(gens: Seq<Generation>, pos: Vec3Fx)
    requires
        forall|j: int| 0 <= j < gens.len() ==> !seg_reached(#[trigger] gens[j], pos),
    ensures
        furthest_reached(gens, pos) is None,
    decreases gens.len(),
{
    if gens.len() > 0 {
        lemma_furthest_none(gens.drop_last(), pos);
    }
}

/// A furthest reached index is in range, reached, and maximal.
pub proof fn lemma_furthest_some(gens: Seq<Generation>, pos: Vec3Fx, i: int)
    requires
        furthest_reached(gens, pos) == Some(i),
    ensures
        0 <= i < gens.len(),
        seg_reached(gens[i], pos),
        forall|j: int| i < j < gens.len() ==> !seg_reached(#[trigger] gens[j], pos),
    decreases gens.len(),
{
    if gens.len() > 0 && !seg_reached(gens.last(), pos) {
        lemma_furthest_some(gens.drop_last(), pos, i);
        assert(gens.drop_last()[i] == gens[i]);
        assert forall|j: int| i < j < gens.len() implies !seg_reached(#[trigger] gens[j], pos) by {
            if j < gens.len() - 1 {
                assert(gens.drop_last()[j] == gens[j]);
            }
        }
    }
}

/// The score delta the front segment's sub-regions yield at a position.
pub open spec fn child_delta(g: Generation, pos: Vec3Fx) -> int {
    let rel = spec_rel(pos, g.offset);
    if g.ordered {
        match first_new_hit(g.children@, rel) {
            None => 0,
            Some(i) => i - count_reached(g.children@.take(i)) + 1,
        }
    } else {
        count_new_hits(g.children@, rel)
    }
}

/// The unreached sub-regions a skipped segment still owes.
pub open spec fn seg_unreached(g: Generation) -> int {
    if g.ordered {
        count_unreached(g.children@)
    } else {
        0
    }
}

/// The unreached sub-regions a queue of skipped segments still owes.
pub open spec fn unreached_sum(gens: Seq<Generation>) -> int
    decreases gens.len(),
{
    if gens.len() == 0 {
        0
    } else {
        seg_unreached(gens[0]) + unreached_sum(gens.drop_first())
    }
}

/// Appending a segment adds its owed sub-regions to the sum.
pub proof fn lemma_unreached_sum_push(gens: Seq<Generation>, g: Generation)
    ensures
        unreached_sum(gens.push(g)) == unreached_sum(gens) + seg_unreached(g),
    decreases gens.len(),
{
    if gens.len() == 0 {
        assert(gens.push(g).drop_first() =~= gens);
    } else {
        assert(gens.push(g).drop_first() =~= gens.drop_first().push(g));
        lemma_unreached_sum_push(gens.drop_first(), g);
    }
}

/// The owed sum is never negative.
pub proof fn lemma_unreached_sum_nonneg(gens: Seq<Generation>)
    ensures
        unreached_sum(gens) >= 0,
    decreases gens.len(),
{
    if gens.len() > 0 {
        crate::generation::lemma_counts_bound(
            gens[0].children@,
            Vec3Fx { x: 0, y: 0, z: 0 },
        );
        lemma_unreached_sum_nonneg(gens.drop_first());
    }
}

/// The writes an advance emits: each popped segment's removal followed
/// by the placement of the segment generated in its stead.
pub open spec fn advance_writes(popped: Seq<Generation>, added: Seq<Generation>) -> Seq<BlockWrite>
    decreases popped.len(),
{
    if popped.len() == 0 || added.len() == 0 {
        Seq::empty()
    } else {
        popped[0].spec_remove() + added[0].spec_place() + advance_writes(
            popped.drop_first(),
            added.drop_first(),
        )
    }
}

/// Appending one popped/added pair appends its writes.
pub proof fn lemma_advance_writes_push(
    popped: Seq<Generation>,
    added: Seq<Generation>,
    p: Generation,
    a: Generation,
)
    requires
        popped.len() == added.len(),
    ensures
        advance_writes(popped.push(p), added.push(a)) == advance_writes(popped, added)
            + p.spec_remove() + a.spec_place(),
    decreases popped.len(),
{
    if popped.len() == 0 {
        assert(popped.push(p).drop_first() =~= popped);
        assert(added.push(a).drop_first() =~= added);
        assert(advance_writes(popped.push(p), added.push(a)) =~= p.spec_remove() + a.spec_place());
        assert(advance_writes(popped, added) + p.spec_remove() + a.spec_place() =~= p.spec_remove()
            + a.spec_place());
    } else {
        assert(popped.push(p).drop_first() =~= popped.drop_first().push(p));
        assert(added.push(a).drop_first() =~= added.drop_first().push(a));
        lemma_advance_writes_push(popped.drop_first(), added.drop_first(), p, a);
        assert(advance_writes(popped.push(p), added.push(a)) =~= advance_writes(popped, added)
            + p.spec_remove() + a.spec_place());
    }
}

/// Appending a segment appends its placement writes.
pub proof fn lemma_concat_places_push(gens: Seq<Generation>, g: Generation)
    ensures
        concat_places(gens.push(g)) == concat_places(gens) + g.spec_place(),
    decreases gens.len(),
{
    if gens.len() == 0 {
        assert(gens.push(g).drop_first() =~= gens);
        assert(concat_places(gens.push(g)) =~= concat_places(gens) + g.spec_place());
    } else {
        assert(gens.push(g).drop_first() =~= gens.drop_first().push(g));
        lemma_concat_places_push(gens.drop_first(), g);
        assert(concat_places(gens.push(g)) =~= concat_places(gens) + g.spec_place());
    }
}

/// Whether a reachability query at this position and offset stays in
/// bounds (exec check).
pub fn fits_reach(pos: Vec3Fx, off: BlockPos) -> (r: bool)
    requires
        in_world(pos),
    ensures
        r == reach_inputs_ok(pos, off),
{
    if !(-crate::generation::OFFSET_LIMIT <= off.x && off.x <= crate::generation::OFFSET_LIMIT
        && -crate::generation::OFFSET_LIMIT <= off.y && off.y <= crate::generation::OFFSET_LIMIT
        && -crate::generation::OFFSET_LIMIT <= off.z && off.z
        <= crate::generation::OFFSET_LIMIT) {
        return false;
    }
    let ox: i64 = (off.x as i64) * SCALE;
    let oy: i64 = (off.y as i64) * SCALE;
    let oz: i64 = (off.z as i64) * SCALE;
    -POS_LIMIT + HALF_WIDTH <= pos.x - ox && pos.x - ox <= POS_LIMIT - HALF_WIDTH && -POS_LIMIT
        <= pos.y - oy && pos.y - oy <= POS_LIMIT && -POS_LIMIT + HALF_WIDTH <= pos.z - oz && pos.z
        - oz <= POS_LIMIT - HALF_WIDTH
}

/// What one steady-state tick asks of the host: block writes to apply,
/// the score delta awarded, a sound cue carrying the combo it should be
/// pitched by, and a score display when a milestone was crossed.
pub struct TickOutcome {
    pub writes: Vec<BlockWrite>,
    pub scored: u32,
    pub sound_combo: Option<u32>,
    pub show_score: Option<u32>,
}

/// The spawn height a session steers back toward.
pub const START_Y: i32 = 100;

/// Half the height band around spawn inside which no bias is applied.
pub const Y_BAND: i32 = 10;

/// How many segments are generated beyond the first at reset; the
/// steady-state queue holds one more than this.
pub const LOOKAHEAD_EXTRA: usize = 10;

/// The steady-state queue depth a completed reset establishes.
pub const LOOKAHEAD_DEPTH: usize = 11;

/// How far below spawn height a player must fall to trigger a reset.
pub const FALL_MARGIN: i32 = 40;

/// The concatenated removal writes of a queue of segments.
pub open spec fn concat_removes(gens: Seq<Generation>) -> Seq<BlockWrite>
    decreases gens.len(),
{
    if gens.len() == 0 {
        Seq::empty()
    } else {
        gens[0].spec_remove() + concat_removes(gens.drop_first())
    }
}

/// The concatenated placement writes of a queue of segments.
pub open spec fn concat_places(gens: Seq<Generation>) -> Seq<BlockWrite>
    decreases gens.len(),
{
    if gens.len() == 0 {
        Seq::empty()
    } else {
        gens[0].spec_place() + concat_places(gens.drop_first())
    }
}

/// Saturating addition of two counters at `u32::MAX`.
pub open spec fn sat_add(a: int, b: int) -> int {
    if a + b > u32::MAX {
        u32::MAX as int
    } else {
        a + b
    }
}

/// Whether a score sits on a display milestone: every ten below fifty,
/// seventy-five, and every fifty from one hundred on.
pub open spec fn spec_milestone(s: int) -> bool {
    ||| (0 < s < 50 && s % 10 == 0)
    ||| s == 75
    ||| (s >= 100 && s % 50 == 0)
}

/// Whether a score sits on a display milestone.
pub fn is_milestone(s: u32) -> (r: bool)
    ensures
        r == spec_milestone(s as int),
{
    (0 < s && s < 50 && s % 10 == 0) || s == 75 || (s >= 100 && s % 50 == 0)
}

/// The bias and target after one steering step: outside the band
/// around spawn height the bias points back toward spawn; inside it, a
/// bias whose target was met or passed relaxes.
pub open spec fn spec_steered(d: JumpDirection, ty: int, by: int) -> (JumpDirection, int) {
    if by < START_Y - Y_BAND {
        (JumpDirection::Up, START_Y as int)
    } else if by > START_Y + Y_BAND {
        (JumpDirection::Down, START_Y as int)
    } else {
        match d {
            JumpDirection::Up => if by >= ty {
                (JumpDirection::DoesntMatter, ty)
            } else {
                (d, ty)
            },
            JumpDirection::Down => if by <= ty {
                (JumpDirection::DoesntMatter, ty)
            } else {
                (d, ty)
            },
            JumpDirection::DoesntMatter => (d, ty),
        }
    }
}

/// Whether a state is the start of a fresh running jump: the fixed
/// vertical impulse and a horizontal speed within the run speed.
pub open spec fn jump_state(s: PredictionState) -> bool {
    &&& s.vel.y == crate::physics::JUMP_IMPULSE
    &&& -crate::physics::RUN_SPEED <= s.vel.x <= crate::physics::RUN_SPEED
    &&& -crate::physics::RUN_SPEED <= s.vel.z <= crate::physics::RUN_SPEED
}

/// The conditions under which a reset is owed success: the spawn sits
/// well inside the world, the type table can be drawn from, and every
/// type that can be drawn names a palette entry that resolves.
pub open spec fn reset_viable(theme: GenerationTheme, spawn: BlockPos) -> bool {
    &&& -899_000_000 <= spawn.x <= 899_000_000
    &&& -899_000_000 <= spawn.y <= 899_000_000
    &&& -899_000_000 <= spawn.z <= 899_000_000
    &&& theme.generation_types.total > 0
    &&& theme.generation_types.entries@.len() > 0
    &&& resolvable(
        theme.block_map.collections@,
        gtype_key(theme.generation_types.entries@[0].0),
    )
    &&& forall|i: int|
        0 <= i < theme.generation_types.entries@.len() && (
        #[trigger] theme.generation_types.entries@[i]).1 > 0 ==> resolvable(
            theme.block_map.collections@,
            gtype_key(theme.generation_types.entries@[i].0),
        )
}

/// One player's live session.
pub struct GameState {
    pub generations: VecDeque<Generation>,
    pub target_y: i32,
    pub direction: JumpDirection,
    pub theme: GenerationTheme,
    pub block_map: BuiltBlockCollectionMap,
    pub score: u32,
    pub combo: u32,
    pub stopped_running: bool,
    pub tick: usize,
    pub prev_pos: Vec3Fx,
    pub test_state: PredictionState,
}

impl GameState {
    /// Whether the theme and every queued segment are consistent.
    pub open spec fn wf(&self) -> bool {
        &&& self.theme.wf()
        &&& self.theme.generation_types.entries@.len() > 0
        &&& self.block_map.wf()
        &&& built_matches(self.theme.block_map.collections@, self.block_map.collections@)
        &&& forall|i: int|
            0 <= i < self.generations@.len() ==> (#[trigger] self.generations@[i]).wf()
                && self.generations@[i].children@.len() <= u32::MAX
    }

    /// A fresh session over a theme: empty queue, zero counters, no
    /// bias, and the palette frozen once for the session's lifetime, so
    /// a uniform entry keeps one block through the whole run. Fails
    /// exactly when a uniform palette entry has zero total weight.
    pub fn new(theme: GenerationTheme, spawn_top: Vec3Fx) -> (r: Result<
        GameState,
        GenerationError,
    >)
        requires
            theme.wf(),
            theme.generation_types.entries@.len() > 0,
        ensures
            r is Ok <==> !has_empty_uniform(theme.block_map.collections@),
            r is Err ==> r == Err::<GameState, GenerationError>(GenerationError::EmptyCollection),
            r matches Ok(st) ==> {
                &&& st.wf()
                &&& st.generations@.len() == 0
                &&& st.score == 0
                &&& st.combo == 0
                &&& st.target_y == 0
                &&& st.direction is DoesntMatter
                &&& !st.stopped_running
                &&& st.tick == 0
                &&& st.prev_pos == spawn_top
                &&& st.theme == theme
            },
    {
        let block_map = match theme.block_map.build() {
            Ok(b) => b,
            Err(e) => {
                return Err(e);
            },
        };
        Ok(
            GameState {
                generations: VecDeque::new(),
                target_y: 0,
                direction: JumpDirection::DoesntMatter,
                theme,
                block_map,
                score: 0,
                combo: 0,
                stopped_running: false,
                tick: 0,
                prev_pos: spawn_top,
                test_state: PredictionState::new(spawn_top, Vec3Fx::new(0, 0, 0), 0),
            },
        )
    }

    /// Record the player's observed position and yaw for the pre-tick
    /// pass, and estimate their velocity from the previous observation.
    pub fn observe_position(&mut self, pos: Vec3Fx, yaw_mdeg: i64)
        requires
            i64::MIN <= pos.x - old(self).prev_pos.x <= i64::MAX,
            i64::MIN <= pos.y - old(self).prev_pos.y <= i64::MAX,
            i64::MIN <= pos.z - old(self).prev_pos.z <= i64::MAX,
        ensures
            final(self).prev_pos == pos,
            final(self).test_state.pos == pos,
            final(self).test_state.yaw_mdeg == yaw_mdeg,
            final(self).test_state.vel.x == pos.x - old(self).prev_pos.x,
            final(self).test_state.vel.y == pos.y - old(self).prev_pos.y,
            final(self).test_state.vel.z == pos.z - old(self).prev_pos.z,
            final(self).generations == old(self).generations,
            final(self).score == old(self).score,
            final(self).combo == old(self).combo,
            final(self).stopped_running == old(self).stopped_running,
            final(self).theme == old(self).theme,
            final(self).block_map == old(self).block_map,
            final(self).target_y == old(self).target_y,
            final(self).direction == old(self).direction,
    {
        let vel = pos.sub(self.prev_pos);
        self.test_state = PredictionState::new(pos, vel, yaw_mdeg);
        self.prev_pos = pos;
    }

    /// Whether an observed height has fallen far enough below spawn
    /// that the session must be reset.
    pub fn needs_reset(&self, pos: Vec3Fx) -> (r: bool)
        ensures
            r == (pos.y < ((START_Y - FALL_MARGIN) as int) * (SCALE as int)),
    {
        pos.y < ((START_Y - FALL_MARGIN) as i64) * SCALE
    }

    /// Consume the edge-triggered sprint-stop signal: the streak is at
    /// risk until the next segment is generated.
    pub fn on_sprint_stop(&mut self)
        ensures
            final(self).stopped_running,
            final(self).generations == old(self).generations,
            final(self).score == old(self).score,
            final(self).combo == old(self).combo,
            final(self).theme == old(self).theme,
            final(self).block_map == old(self).block_map,
            final(self).target_y == old(self).target_y,
            final(self).direction == old(self).direction,
            final(self).prev_pos == old(self).prev_pos,
    {
        self.stopped_running = true;
    }

    /// Award a scoring event: the score always rises by the delta, and
    /// the combo rises with it unless the player had stopped running,
    /// which breaks the streak to zero.
    pub fn apply_score(&mut self, delta: u32)
        ensures
            final(self).score == sat_add(old(self).score as int, delta as int),
            old(self).stopped_running ==> final(self).combo == 0,
            !old(self).stopped_running ==> final(self).combo == sat_add(
                old(self).combo as int,
                delta as int,
            ),
            final(self).stopped_running == old(self).stopped_running,
            final(self).generations == old(self).generations,
            final(self).theme == old(self).theme,
            final(self).block_map == old(self).block_map,
            final(self).target_y == old(self).target_y,
            final(self).direction == old(self).direction,
            final(self).prev_pos == old(self).prev_pos,
            final(self).test_state == old(self).test_state,
    {
        if self.stopped_running {
            self.combo = 0;
        } else {
            self.combo = self.combo.saturating_add(delta);
        }
        self.score = self.score.saturating_add(delta);
    }

    /// Steer the bias: outside the band around spawn height the bias
    /// points back toward spawn; inside it, a bias that met its target
    /// relaxes.
    fn update_direction(&mut self)
        requires
            old(self).generations@.len() > 0,
        ensures
            final(self).generations == old(self).generations,
            final(self).score == old(self).score,
            final(self).combo == old(self).combo,
            final(self).stopped_running == old(self).stopped_running,
            final(self).theme == old(self).theme,
            final(self).block_map == old(self).block_map,
            final(self).prev_pos == old(self).prev_pos,
            final(self).test_state == old(self).test_state,
            ({
                let back = old(self).generations@.last();
                let by = crate::geom::spec_block_of(back.end_state.pos.y as int);
                let steered = spec_steered(old(self).direction, old(self).target_y as int, by);
                final(self).direction == steered.0 && final(self).target_y == steered.1
            }),
    {
        let n: usize = self.generations.len();
        let back: &Generation = &self.generations[n - 1];
        let by: i64 = crate::geom::block_of(back.end_state.pos.y);
        if by < (START_Y - Y_BAND) as i64 {
            self.target_y = START_Y;
            self.direction = JumpDirection::Up;
        } else if by > (START_Y + Y_BAND) as i64 {
            self.target_y = START_Y;
            self.direction = JumpDirection::Down;
        } else {
            match self.direction {
                JumpDirection::Up => {
                    if by >= self.target_y as i64 {
                        self.direction = JumpDirection::DoesntMatter;
                    }
                },
                JumpDirection::Down => {
                    if by <= self.target_y as i64 {
                        self.direction = JumpDirection::DoesntMatter;
                    }
                },
                JumpDirection::DoesntMatter => {},
            }
        }
    }

    /// Generate one segment at the back of the queue, steered by the
    /// bias, and return the writes that place it. Every generation
    /// resets the sprint-stop flag: a fresh segment is a fresh chance
    /// at a streak.
    pub fn generate_next(&mut self) -> (r: Result<Vec<BlockWrite>, GenerationError>)
        requires
            old(self).wf(),
            old(self).generations@.len() > 0,
            old(self).generations@.len() < usize::MAX,
        ensures
            final(self).wf(),
            final(self).score == old(self).score,
            final(self).combo == old(self).combo,
            final(self).theme == old(self).theme,
            final(self).block_map == old(self).block_map,
            final(self).prev_pos == old(self).prev_pos,
            final(self).test_state == old(self).test_state,
            ({
                let back = old(self).generations@.last();
                let by = crate::geom::spec_block_of(back.end_state.pos.y as int);
                let steered = spec_steered(old(self).direction, old(self).target_y as int, by);
                let target = Generator::spec_target_y(back.end_state, steered.0);
                &&& final(self).direction == steered.0
                &&& final(self).target_y == steered.1
                &&& (r == Err::<Vec<BlockWrite>, GenerationError>(
                    GenerationError::TrajectoryDivergence,
                ) <==> (!sim_start_ok(back.end_state) || Generator::spec_diverges(
                    back.end_state,
                    target,
                )))
                &&& sim_start_ok(back.end_state) && !Generator::spec_diverges(
                    back.end_state,
                    target,
                ) && old(self).theme.generation_types.total > 0 && (forall|i: int|
                    0 <= i < old(self).theme.generation_types.entries@.len() && (
                    #[trigger] old(self).theme.generation_types.entries@[i]).1 > 0 ==> resolvable(
                        old(self).theme.block_map.collections@,
                        gtype_key(old(self).theme.generation_types.entries@[i].0),
                    )) ==> r is Ok
                &&& jump_state(back.end_state) && sim_start_ok(back.end_state) && old(
                    self,
                ).theme.generation_types.total > 0 && (forall|i: int|
                    0 <= i < old(self).theme.generation_types.entries@.len() && (
                    #[trigger] old(self).theme.generation_types.entries@[i]).1 > 0 ==> resolvable(
                        old(self).theme.block_map.collections@,
                        gtype_key(old(self).theme.generation_types.entries@[i].0),
                    )) ==> r is Ok
                &&& r is Ok && jump_state(back.end_state) && sim_start_ok(back.end_state) ==> ({
                    let ne = final(self).generations@.last().end_state;
                    &&& jump_state(ne)
                    &&& back.end_state.pos.x - 20000 <= ne.pos.x <= back.end_state.pos.x + 20000
                    &&& back.end_state.pos.y - 20000 <= ne.pos.y <= back.end_state.pos.y + 20000
                    &&& back.end_state.pos.z - 20000 <= ne.pos.z <= back.end_state.pos.z + 20000
                })
                &&& r == Err::<Vec<BlockWrite>, GenerationError>(GenerationError::EmptyCollection)
                    ==> old(self).theme.generation_types.total == 0 || exists|i: int|
                    0 <= i < old(self).theme.generation_types.entries@.len() && (
                    #[trigger] old(self).theme.generation_types.entries@[i]).1 > 0
                        && present_empty(
                        old(self).theme.block_map.collections@,
                        gtype_key(old(self).theme.generation_types.entries@[i].0),
                    )
                &&& r == Err::<Vec<BlockWrite>, GenerationError>(GenerationError::PaletteLookup)
                    ==> exists|i: int|
                    0 <= i < old(self).theme.generation_types.entries@.len() && (
                    #[trigger] old(self).theme.generation_types.entries@[i]).1 > 0 && spec_find(
                        old(self).theme.block_map.collections@,
                        gtype_key(old(self).theme.generation_types.entries@[i].0),
                    ) is None
                &&& r matches Ok(w) ==> {
                    &&& final(self).generations@.len() == old(self).generations@.len() + 1
                    &&& final(self).generations@.subrange(0, old(self).generations@.len() as int)
                        == old(self).generations@
                    &&& !final(self).stopped_running
                    &&& w@ == final(self).generations@.last().spec_place()
                    &&& exists|n: int, i: int|
                        {
                            &&& 1 <= n <= crate::generator::MAX_SIM_TICKS
                            &&& Generator::spec_landed(
                                #[trigger] spec_trajectory(back.end_state, n as nat),
                                target,
                            )
                            &&& forall|m: int|
                                1 <= m < n ==> !Generator::spec_landed(
                                    #[trigger] spec_trajectory(back.end_state, m as nat),
                                    target,
                                )
                            &&& 0 <= i < old(self).theme.generation_types.entries@.len()
                            &&& (#[trigger] old(self).theme.generation_types.entries@[i]).1 > 0
                            &&& generated_ok(
                                final(self).generations@.last(),
                                old(self).theme,
                                gtype_key(old(self).theme.generation_types.entries@[i].0),
                                Vec3Fx {
                                    x: spec_trajectory(back.end_state, n as nat).pos.x,
                                    y: spec_trajectory(back.end_state, n as nat).pos.y,
                                    z: spec_trajectory(back.end_state, n as nat).pos.z,
                                }.spec_block_pos(),
                            )
                        }
                }
                &&& r is Err ==> final(self).generations@ == old(self).generations@ && final(self).stopped_running == old(self).stopped_running
            }),
    {
        self.update_direction();
        let n: usize = self.generations.len();
        let ghost s0 = old(self).generations@.last().end_state;
        let ghost dir1 = self.direction;
        let ghost tgt = Generator::spec_target_y(s0, dir1);
        proof {
            assert(-1 <= crate::utils::spec_y_offset(dir1) <= 1);
            if jump_state(s0) && sim_start_ok(s0) {
                Generator::lemma_jump_lands(s0, tgt);
            }
        }
        let back: &Generation = &self.generations[n - 1];
        if !sim_startable(&back.end_state) {
            return Err(GenerationError::TrajectoryDivergence);
        }
        let next = match Generator::next_in_generation(
            self.direction,
            &self.theme,
            &self.block_map,
            back,
        ) {
            Ok(g) => g,
            Err(e) => {
                return Err(e);
            },
        };
        let ghost next0 = next;
        let writes = next.place();
        self.generations.push_back(next);
        self.stopped_running = false;
        proof {
            if jump_state(s0) && sim_start_ok(s0) {
                let (ln, li): (int, int) = choose|ln: int, li: int|
                    {
                        &&& 1 <= ln <= crate::generator::MAX_SIM_TICKS
                        &&& Generator::spec_landed(
                            #[trigger] spec_trajectory(s0, ln as nat),
                            tgt,
                        )
                        &&& (forall|m: int|
                            1 <= m < ln ==> !Generator::spec_landed(
                                #[trigger] spec_trajectory(s0, m as nat),
                                tgt,
                            ))
                        &&& 0 <= li < self.theme.generation_types.entries@.len()
                        &&& (#[trigger] self.theme.generation_types.entries@[li]).1 > 0
                        &&& generated_ok(
                            next0,
                            self.theme,
                            gtype_key(self.theme.generation_types.entries@[li].0),
                            Vec3Fx {
                                x: spec_trajectory(s0, ln as nat).pos.x,
                                y: spec_trajectory(s0, ln as nat).pos.y,
                                z: spec_trajectory(s0, ln as nat).pos.z,
                            }.spec_block_pos(),
                        )
                    };
                assert(ln <= 14);
                crate::physics::lemma_vertical_profile(s0, ln as nat);
                crate::physics::lemma_horizontal_profile(
                    s0,
                    ln as nat,
                    crate::physics::RUN_SPEED as int,
                );
                let tp = spec_trajectory(s0, ln as nat).pos;
                assert(0 <= 40 * (ln as nat) * ((ln as nat) + 1) <= 8400 && -5880 <= (ln as nat)
                    * s0.vel.y <= 5880 && 0 <= (ln as nat) * (crate::physics::RUN_SPEED as int)
                    <= 3920) by (nonlinear_arith)
                    requires
                        1 <= ln <= 14,
                        s0.vel.y == 420,
                ;
                vstd::arithmetic::div_mod::lemma_fundamental_div_mod(tp.x as int, SCALE as int);
                vstd::arithmetic::div_mod::lemma_mod_bound(tp.x as int, SCALE as int);
                vstd::arithmetic::div_mod::lemma_fundamental_div_mod(tp.y as int, SCALE as int);
                vstd::arithmetic::div_mod::lemma_mod_bound(tp.y as int, SCALE as int);
                vstd::arithmetic::div_mod::lemma_fundamental_div_mod(tp.z as int, SCALE as int);
                vstd::arithmetic::div_mod::lemma_mod_bound(tp.z as int, SCALE as int);
                crate::geom::lemma_block_of_range(tp.x);
                crate::geom::lemma_block_of_range(tp.y);
                crate::geom::lemma_block_of_range(tp.z);
                assert(self.generations@.last() == next0);
            }
        }
        Ok(writes)
    }

    /// Rebuild the session: zero the counters, unplace everything
    /// queued, and reseed the queue with a first segment at the spawn
    /// anchor plus the lookahead. A generation failure aborts the reset
    /// cleanly, leaving the queue empty.
    pub fn reset(&mut self, spawn: BlockPos) -> (r: (Vec<BlockWrite>, Result<(), GenerationError>))
        requires
            old(self).wf(),
            anchor_ok(spawn),
        ensures
            final(self).wf(),
            final(self).score == 0,
            final(self).combo == 0,
            final(self).theme == old(self).theme,
            final(self).block_map == old(self).block_map,
            r.1 is Ok ==> final(self).generations@.len() == LOOKAHEAD_DEPTH && !final(self).stopped_running,
            reset_viable(old(self).theme, spawn) ==> r.1 is Ok,
            r.1 is Ok ==> final(self).generations@[0].offset == spawn,
            r.1 is Err ==> final(self).generations@.len() == 0,
            r.1 is Ok ==> r.0@ == concat_removes(old(self).generations@) + concat_places(
                final(self).generations@,
            ),
            r.1 is Err ==> exists|placed: Seq<Generation>|
                r.0@ == concat_removes(old(self).generations@) + #[trigger] concat_places(placed)
                    + concat_removes(placed),
            r.1 == Err::<(), GenerationError>(GenerationError::PaletteLookup) ==> spec_find(
                old(self).theme.block_map.collections@,
                gtype_key(old(self).theme.generation_types.entries@[0].0),
            ) is None || exists|i: int|
                0 <= i < old(self).theme.generation_types.entries@.len() && (#[trigger] old(
                    self,
                ).theme.generation_types.entries@[i]).1 > 0 && spec_find(
                    old(self).theme.block_map.collections@,
                    gtype_key(old(self).theme.generation_types.entries@[i].0),
                ) is None,
            r.1 == Err::<(), GenerationError>(GenerationError::EmptyCollection) ==> old(
                self,
            ).theme.generation_types.total == 0 || present_empty(
                old(self).theme.block_map.collections@,
                gtype_key(old(self).theme.generation_types.entries@[0].0),
            ) || exists|i: int|
                0 <= i < old(self).theme.generation_types.entries@.len() && (#[trigger] old(
                    self,
                ).theme.generation_types.entries@[i]).1 > 0 && present_empty(
                    old(self).theme.block_map.collections@,
                    gtype_key(old(self).theme.generation_types.entries@[i].0),
                ),
    {
        self.score = 0;
        self.combo = 0;
        let mut writes = self.drain_removes();
        let first = match Generator::first_in_generation(spawn, &self.theme, &self.block_map) {
            Ok(g) => g,
            Err(e) => {
                proof {
                    assert(!reset_viable(old(self).theme, spawn));
                    assert(writes@ =~= concat_removes(old(self).generations@) + concat_places(
                        Seq::<Generation>::empty(),
                    ) + concat_removes(Seq::<Generation>::empty()));
                    match spec_find(
                        self.theme.block_map.collections@,
                        gtype_key(self.theme.generation_types.entries@[0].0),
                    ) {
                        Some(idx) => {
                            crate::palette::lemma_find_some(
                                self.theme.block_map.collections@,
                                gtype_key(self.theme.generation_types.entries@[0].0),
                                idx,
                            );
                            crate::weighted::lemma_total_nonneg(
                                self.theme.block_map.collections@[idx].1.0.blocks.entries@,
                            );
                        },
                        None => {},
                    }
                }
                return (writes, Err(e));
            },
        };
        let mut w1 = first.place();
        writes.append(&mut w1);
        self.generations.push_back(first);
        proof {
            assert(concat_places(self.generations@) =~= self.generations@[0].spec_place()
                + concat_places(self.generations@.drop_first()));
            assert(writes@ =~= concat_removes(old(self).generations@) + concat_places(
                self.generations@,
            ));
        }
        let mut i: usize = 0;
        while i < LOOKAHEAD_EXTRA
            invariant
                self.wf(),
                i <= LOOKAHEAD_EXTRA,
                self.generations@.len() == i + 1,
                self.generations@[0].offset == spawn,
                reset_viable(old(self).theme, spawn) ==> ({
                    let le = self.generations@.last().end_state;
                    &&& jump_state(le)
                    &&& (spawn.x as int) * (SCALE as int) + 500 - 20000 * i <= le.pos.x <= (
                    spawn.x as int) * (SCALE as int) + 500 + 20000 * i
                    &&& (spawn.y as int) * (SCALE as int) + 1000 - 20000 * i <= le.pos.y <= (
                    spawn.y as int) * (SCALE as int) + 1000 + 20000 * i
                    &&& (spawn.z as int) * (SCALE as int) + 500 - 20000 * i <= le.pos.z <= (
                    spawn.z as int) * (SCALE as int) + 500 + 20000 * i
                }),
                self.score == 0,
                self.combo == 0,
                self.theme == old(self).theme,
                self.block_map == old(self).block_map,
                writes@ == concat_removes(old(self).generations@) + concat_places(
                    self.generations@,
                ),
                i >= 1 ==> !self.stopped_running,
            decreases LOOKAHEAD_EXTRA - i,
        {
            let ghost pregens = self.generations@;
            proof {
                if reset_viable(old(self).theme, spawn) {
                    assert(jump_state(pregens.last().end_state));
                    assert(sim_start_ok(pregens.last().end_state));
                }
            }
            match self.generate_next() {
                Ok(mut w) => {
                    writes.append(&mut w);
                    proof {
                        assert(self.generations@ =~= pregens.push(self.generations@.last()));
                        assert(self.generations@[0] == pregens[0]);
                        lemma_concat_places_push(pregens, self.generations@.last());
                    }
                },
                Err(e) => {
                    proof {
                        assert(!reset_viable(old(self).theme, spawn));
                    }
                    let ghost placed = self.generations@;
                    let mut wr = self.drain_removes();
                    writes.append(&mut wr);
                    proof {
                        assert(writes@ =~= concat_removes(old(self).generations@) + concat_places(
                            placed,
                        ) + concat_removes(placed));
                    }
                    return (writes, Err(e));
                },
            }
            i = i + 1;
        }
        (writes, Ok(()))
    }

    /// Find the furthest queued segment the player has reached.
    fn find_furthest(&self, pos: Vec3Fx) -> (r: Option<usize>)
        requires
            self.wf(),
            in_world(pos),
        ensures
            match r {
                None => furthest_reached(self.generations@, pos) is None,
                Some(u) => furthest_reached(self.generations@, pos) == Some(u as int),
            },
    {
        let ghost gens = self.generations@;
        let n: usize = self.generations.len();
        let mut i: usize = n;
        while i > 0
            invariant
                gens == self.generations@,
                self.wf(),
                in_world(pos),
                n == gens.len(),
                i <= n,
                forall|j: int| i <= j < n ==> !seg_reached(#[trigger] gens[j], pos),
            decreases i,
        {
            i = i - 1;
            let g: &Generation = &self.generations[i];
            if fits_reach(pos, g.offset) {
                if g.has_reached(pos) {
                    proof {
                        lemma_furthest_at(gens, pos, i as int);
                    }
                    return Some(i);
                }
            }
        }
        proof {
            lemma_furthest_none(gens, pos);
        }
        None
    }

    /// One steady-state tick at the player's observed position.
    ///
    /// If the furthest reached segment is the front one, its
    /// sub-regions are scored in place and the queue is untouched. If
    /// it lies further on, every segment before it is unplaced and
    /// popped, a fresh segment is generated at the back for each, and
    /// the advance is scored: one point per segment passed (one fewer
    /// when the landed segment is unordered) plus every sub-region the
    /// skipped segments still owed. Scoring raises the combo with the
    /// score unless the player had stopped running, which breaks it.
    pub fn on_tick(&mut self, pos: Vec3Fx) -> (r: Result<TickOutcome, GenerationError>)
        requires
            old(self).wf(),
            in_world(pos),
            old(self).generations@.len() <= u32::MAX,
            old(self).generations@.len() < usize::MAX,
        ensures
            final(self).wf(),
            final(self).theme == old(self).theme,
            final(self).block_map == old(self).block_map,
            furthest_reached(old(self).generations@, pos) is None ==> r is Ok,
            (match furthest_reached(old(self).generations@, pos) {
                Some(i) => i == 0,
                None => false,
            }) ==> r is Ok,
            r is Err ==> (match furthest_reached(old(self).generations@, pos) {
                Some(i) => i > 0,
                None => false,
            }),
            r == Err::<TickOutcome, GenerationError>(GenerationError::EmptyCollection) ==> old(
                self,
            ).theme.generation_types.total == 0 || exists|i: int|
                0 <= i < old(self).theme.generation_types.entries@.len() && (#[trigger] old(
                    self,
                ).theme.generation_types.entries@[i]).1 > 0 && present_empty(
                    old(self).theme.block_map.collections@,
                    gtype_key(old(self).theme.generation_types.entries@[i].0),
                ),
            r == Err::<TickOutcome, GenerationError>(GenerationError::PaletteLookup) ==> exists|
                i: int,
            |
                0 <= i < old(self).theme.generation_types.entries@.len() && (#[trigger] old(
                    self,
                ).theme.generation_types.entries@[i]).1 > 0 && spec_find(
                    old(self).theme.block_map.collections@,
                    gtype_key(old(self).theme.generation_types.entries@[i].0),
                ) is None,
            r matches Ok(out) ==> ({
                let gens = old(self).generations@;
                match furthest_reached(gens, pos) {
                    None => {
                        &&& out.scored == 0
                        &&& out.writes@.len() == 0
                        &&& final(self).generations@ == gens
                        &&& final(self).score == old(self).score
                        &&& final(self).combo == old(self).combo
                        &&& final(self).stopped_running == old(self).stopped_running
                    },
                    Some(i) => if i == 0 {
                        let d = child_delta(gens[0], pos);
                        &&& out.scored == d
                        &&& out.writes@.len() == 0
                        &&& final(self).generations@.len() == gens.len()
                        &&& forall|j: int|
                            1 <= j < gens.len() ==> final(self).generations@[j] == gens[j]
                        &&& forall|j: int|
                            0 <= j < gens[0].children@.len() ==> ((#[trigger] gens[0].children@[j]).reached
                                ==> final(self).generations@[0].children@[j].reached)
                        &&& (d == 0 ==> final(self).score == old(self).score && final(self).combo
                            == old(self).combo && final(self).generations@[0].children@
                            == gens[0].children@)
                        &&& (d > 0 ==> {
                            &&& final(self).score == clip_u32(old(self).score + d)
                            &&& (old(self).stopped_running ==> final(self).combo == 0)
                            &&& (!old(self).stopped_running ==> final(self).combo == clip_u32(
                                old(self).combo + d,
                            ))
                            &&& out.sound_combo == Some(final(self).combo)
                            &&& out.show_score == if spec_milestone(final(self).score as int) {
                                Some(final(self).score)
                            } else {
                                Option::<u32>::None
                            }
                        })
                        &&& final(self).stopped_running == old(self).stopped_running
                    } else {
                        let d = clip_u32(
                            i - (if gens[i].ordered {
                                0int
                            } else {
                                1int
                            }) + unreached_sum(gens.take(i)),
                        );
                        &&& out.scored == d
                        &&& final(self).generations@.len() == gens.len()
                        &&& final(self).generations@.subrange(0, gens.len() - i) == gens.subrange(
                            i,
                            gens.len() as int,
                        )
                        &&& !final(self).stopped_running
                        &&& final(self).score == clip_u32(old(self).score + d)
                        &&& final(self).combo == clip_u32(old(self).combo + d)
                        &&& out.writes@ == advance_writes(
                            gens.take(i),
                            final(self).generations@.skip(gens.len() - i),
                        )
                        &&& out.sound_combo == Some(final(self).combo)
                        &&& out.show_score == if spec_milestone(final(self).score as int) {
                            Some(final(self).score)
                        } else {
                            Option::<u32>::None
                        }
                    },
                }
            }),
    {
        let ghost gens0 = self.generations@;
        let n: usize = self.generations.len();
        match self.find_furthest(pos) {
            None => Ok(
                TickOutcome {
                    writes: Vec::new(),
                    scored: 0,
                    sound_combo: None,
                    show_score: None,
                },
            ),
            Some(idx) => {
                proof {
                    lemma_furthest_some(gens0, pos, idx as int);
                }
                if idx == 0 {
                    let popped = self.generations.pop_front();
                    let mut front = match popped {
                        Some(g) => g,
                        None => {
                            proof {
                                assert(false);
                            }
                            return Err(GenerationError::TrajectoryDivergence);
                        },
                    };
                    let d = front.has_reached_child(pos);
                    self.generations.push_front(front);
                    proof {
                        assert(self.generations@ =~= seq![front] + gens0.drop_first());
                        assert(self.generations@.len() == gens0.len());
                        assert forall|j: int| 1 <= j < gens0.len() implies self.generations@[j]
                            == gens0[j] by {}
                        if d == 0 {
                            let rel = spec_rel(pos, gens0[0].offset);
                            if gens0[0].ordered {
                                match first_new_hit(gens0[0].children@, rel) {
                                    None => {},
                                    Some(fi) => {
                                        crate::generation::lemma_first_new_hit_some(
                                            gens0[0].children@,
                                            rel,
                                            fi,
                                        );
                                        crate::generation::lemma_counts_bound(
                                            gens0[0].children@.take(fi),
                                            rel,
                                        );
                                    },
                                }
                            }
                            if !gens0[0].ordered {
                                crate::generation::lemma_count_new_hits_zero(
                                    gens0[0].children@,
                                    rel,
                                );
                                assert forall|j: int|
                                    0 <= j < gens0[0].children@.len() implies front.children@[j]
                                    == gens0[0].children@[j] by {
                                    assert((#[trigger] front.children@[j]).blocks
                                        == gens0[0].children@[j].blocks);
                                }
                                assert(front.children@ =~= gens0[0].children@);
                            }
                        }
                    }
                    if d > 0 {
                        self.apply_score(d);
                        let show: Option<u32> = if is_milestone(self.score) {
                            Some(self.score)
                        } else {
                            None
                        };
                        Ok(
                            TickOutcome {
                                writes: Vec::new(),
                                scored: d,
                                sound_combo: Some(self.combo),
                                show_score: show,
                            },
                        )
                    } else {
                        Ok(
                            TickOutcome {
                                writes: Vec::new(),
                                scored: 0,
                                sound_combo: None,
                                show_score: None,
                            },
                        )
                    }
                } else {
                    let mut acc: u32 = idx as u32;
                    if !self.generations[idx].ordered {
                        acc = acc - 1;
                    }
                    let ghost base: int = idx as int - (if gens0[idx as int].ordered {
                        0int
                    } else {
                        1int
                    });
                    let mut j: usize = 0;
                    while j < idx
                        invariant
                            gens0 == self.generations@,
                            self.wf(),
                            n == gens0.len(),
                            0 < idx < n,
                            n <= u32::MAX,
                            j <= idx,
                            base == idx as int - (if gens0[idx as int].ordered {
                                0int
                            } else {
                                1int
                            }),
                            0 <= base <= idx,
                            acc == clip_u32(base + unreached_sum(gens0.take(j as int))),
                        decreases idx - j,
                    {
                        proof {
                            assert(gens0.take(j + 1) =~= gens0.take(j as int).push(
                                gens0[j as int],
                            ));
                            lemma_unreached_sum_push(gens0.take(j as int), gens0[j as int]);
                            lemma_unreached_sum_nonneg(gens0.take(j as int));
                            crate::generation::lemma_counts_bound(
                                gens0[j as int].children@,
                                Vec3Fx { x: 0, y: 0, z: 0 },
                            );
                        }
                        let u = self.generations[j].get_unreached_child_count();
                        acc = acc.saturating_add(u);
                        j = j + 1;
                    }
                    let mut writes: Vec<BlockWrite> = Vec::new();
                    let mut p: usize = 0;
                    while p < idx
                        invariant
                            self.wf(),
                            gens0 == old(self).generations@,
                            furthest_reached(gens0, pos) == Some(idx as int),
                            n == gens0.len(),
                            0 < idx < n,
                            n < usize::MAX,
                            p <= idx,
                            in_world(pos),
                            self.theme == old(self).theme,
                            self.block_map == old(self).block_map,
                            self.score == old(self).score,
                            self.combo == old(self).combo,
                            p >= 1 ==> !self.stopped_running,
                            p == 0 ==> self.stopped_running == old(self).stopped_running,
                            self.generations@.len() == n,
                            self.generations@.subrange(0, n - p) =~= gens0.subrange(
                                p as int,
                                n as int,
                            ),
                            writes@ == advance_writes(
                                gens0.take(p as int),
                                self.generations@.skip(n - p),
                            ),
                        decreases idx - p,
                    {
                        let ghost pregens = self.generations@;
                        let popped = self.generations.pop_front();
                        let g = match popped {
                            Some(g) => g,
                            None => {
                                proof {
                                    assert(false);
                                }
                                return Err(GenerationError::TrajectoryDivergence);
                            },
                        };
                        proof {
                            assert(g == pregens[0]);
                            assert(pregens.subrange(0, n - p)[0] == pregens[0]);
                            assert(g == gens0[p as int]);
                            assert(g.wf());
                        }
                        let mut wr = g.remove();
                        writes.append(&mut wr);
                        let ghost mid = self.generations@;
                        let w2 = match self.generate_next() {
                            Ok(w) => w,
                            Err(e) => {
                                return Err(e);
                            },
                        };
                        let mut w2m = w2;
                        writes.append(&mut w2m);
                        proof {
                            assert(self.generations@.len() == n);
                            assert(self.generations@ =~= mid.push(self.generations@.last()));
                            assert(mid =~= pregens.drop_first());
                            assert(pregens.skip(n - p).push(self.generations@.last())
                                =~= self.generations@.skip(n - p - 1));
                            assert(gens0.take(p + 1) =~= gens0.take(p as int).push(
                                gens0[p as int],
                            ));
                            lemma_advance_writes_push(
                                gens0.take(p as int),
                                pregens.skip(n - p),
                                g,
                                self.generations@.last(),
                            );
                            assert forall|ii: int| 0 <= ii < n - p - 1 implies #[trigger] self.generations@[ii]
                                == gens0[p + 1 + ii] by {
                                assert(self.generations@[ii] == pregens[ii + 1]);
                                assert(pregens.subrange(0, n - p)[ii + 1] == pregens[ii + 1]);
                                assert(gens0.subrange(p as int, n as int)[ii + 1] == gens0[p + 1
                                    + ii]);
                            }
                        }
                        p = p + 1;
                        proof {
                            assert(self.generations@.subrange(0, n - p) =~= gens0.subrange(
                                p as int,
                                n as int,
                            ));
                            assert(writes@ =~= advance_writes(
                                gens0.take(p as int),
                                self.generations@.skip(n - p),
                            ));
                        }
                    }
                    self.apply_score(acc);
                    let show: Option<u32> = if is_milestone(self.score) {
                        Some(self.score)
                    } else {
                        None
                    };
                    Ok(
                        TickOutcome {
                            writes,
                            scored: acc,
                            sound_combo: Some(self.combo),
                            show_score: show,
                        },
                    )
                }
            },
        }
    }

    /// Tear the session down: drop every queued segment and return the
    /// writes that clear them from the world.
    pub fn on_disconnect(&mut self) -> (r: Vec<BlockWrite>)
        requires
            old(self).wf(),
        ensures
            final(self).wf(),
            final(self).generations@.len() == 0,
            r@ == concat_removes(old(self).generations@),
            final(self).score == old(self).score,
            final(self).theme == old(self).theme,
            final(self).block_map == old(self).block_map,
    {
        self.drain_removes()
    }

    /// Pop every queued segment, returning their removal writes.
    fn drain_removes(&mut self) -> (r: Vec<BlockWrite>)
        requires
            old(self).wf(),
        ensures
            final(self).wf(),
            final(self).generations@.len() == 0,
            r@ == concat_removes(old(self).generations@),
            final(self).score == old(self).score,
            final(self).combo == old(self).combo,
            final(self).stopped_running == old(self).stopped_running,
            final(self).theme == old(self).theme,
            final(self).block_map == old(self).block_map,
            final(self).target_y == old(self).target_y,
            final(self).direction == old(self).direction,
            final(self).prev_pos == old(self).prev_pos,
            final(self).test_state == old(self).test_state,
    {
        let ghost orig = self.generations@;
        let mut writes: Vec<BlockWrite> = Vec::new();
        loop
            invariant
                old(self).wf(),
                self.theme == old(self).theme,
                self.block_map == old(self).block_map,
                self.score == old(self).score,
                self.combo == old(self).combo,
                self.stopped_running == old(self).stopped_running,
                self.target_y == old(self).target_y,
                self.direction == old(self).direction,
                self.prev_pos == old(self).prev_pos,
                self.test_state == old(self).test_state,
                orig == old(self).generations@,
                self.generations@.len() <= orig.len(),
                self.generations@ =~= orig.skip(orig.len() - self.generations@.len()),
                writes@ + concat_removes(self.generations@) =~= concat_removes(orig),
            decreases self.generations@.len(),
        {
            let ghost prepop = self.generations@;
            let popped = self.generations.pop_front();
            match popped {
                None => {
                    proof {
                        assert(concat_removes(self.generations@) =~= Seq::<BlockWrite>::empty());
                        assert(writes@ =~= concat_removes(orig));
                    }
                    return writes;
                },
                Some(g) => {
                    proof {
                        let m = orig.len() - prepop.len();
                        assert(prepop =~= orig.skip(m));
                        assert(orig.skip(m)[0] == orig[m]);
                        assert(g == orig[m]);
                        assert(g.wf());
                    }
                    let mut w = g.remove();
                    writes.append(&mut w);
                    proof {
                        let j = orig.len() - self.generations@.len();
                        assert(self.generations@ =~= orig.skip(j));
                    }
                },
            }
        }
    }
}

/// Whether a state may start a trajectory simulation (exec check).
pub fn sim_startable(s: &PredictionState) -> (r: bool)
    ensures
        r == sim_start_ok(*s),
{
    -999_000_000_000 <= s.pos.x && s.pos.x <= 999_000_000_000 && -999_000_000_000 <= s.pos.y
        && s.pos.y <= 999_000_000_000 && -999_000_000_000 <= s.pos.z && s.pos.z
        <= 999_000_000_000 && -1000 <= s.vel.x && s.vel.x <= 1000 && -1000 <= s.vel.y && s.vel.y
        <= 1000 && -1000 <= s.vel.z && s.vel.z <= 1000
}

} // verus!
