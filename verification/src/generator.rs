//! The segment generator: simulate the previous segment's end
//! trajectory to a landing anchor, pick a generation type by weighted
//! draw, and produce the next placed segment there.

use vstd::prelude::*;
use crate::errors::GenerationError;
use crate::geom::{BlockPos, Vec3Fx, SCALE, in_world};
use crate::generation::Generation;
use crate::palette::{
    BlockCollectionMap, BuiltBlockCollectionMap, resolvable, present_empty, spec_find,
    built_matches, lemma_find_corresponds, lemma_find_built_some, lemma_find_some,
};
use crate::physics::{PredictionState, spec_trajectory, GRAVITY};
use crate::utils::{JumpDirection, spec_y_offset, random_yaw, YAW_CONE_MDEG};
use crate::weighted::WeightedVec;

verus! {

/// The hard ceiling on trajectory simulation ticks; past it the
/// generator reports divergence instead of looping on.
pub const MAX_SIM_TICKS: usize = 1000;

/// Bound on an anchor's block coordinates: a running jump from its top
/// face stays inside the world.
pub const ANCHOR_LIMIT: i32 = 999_500_000;

/// The kinds of segment the generator can produce; each carries the
/// palette entry name its blocks are resolved through.
#[derive(Clone, Debug)]
pub enum GenerationType {
    Single(String),
}

/// The palette entry name a generation type resolves its blocks by.
pub open spec fn gtype_key(t: GenerationType) -> Seq<char> {
    match t {
        GenerationType::Single(key) => key@,
    }
}

impl GenerationType {
    /// An equal copy of this generation type.
    pub fn duplicate(&self) -> (r: GenerationType)
        ensures
            r == *self,
    {
        match self {
            GenerationType::Single(key) => GenerationType::Single(key.clone()),
        }
    }
}

/// A session's immutable generation configuration: a named palette and
/// the weighted table of generation types.
#[derive(Clone, Debug)]
pub struct GenerationTheme {
    pub name: String,
    pub block_map: BlockCollectionMap,
    pub generation_types: WeightedVec<GenerationType>,
}

impl GenerationTheme {
    /// Whether the palette and the type table are consistent.
    pub open spec fn wf(&self) -> bool {
        &&& self.block_map.wf()
        &&& self.generation_types.wf()
    }

    /// A theme from its parts.
    pub fn new(
        name: String,
        block_map: BlockCollectionMap,
        generation_types: WeightedVec<GenerationType>,
    ) -> (r: GenerationTheme)
        ensures
            r == (GenerationTheme { name, block_map, generation_types }),
    {
        GenerationTheme { name, block_map, generation_types }
    }

    /// A weighted random generation type; fails exactly when the type
    /// table's total weight is zero.
    pub fn get_random_generation_type(&self) -> (r: Result<GenerationType, GenerationError>)
        requires
            self.generation_types.wf(),
        ensures
            r is Ok <==> self.generation_types.total > 0,
            r matches Ok(t) ==> exists|i: int|
                0 <= i < self.generation_types.entries@.len()
                    && (#[trigger] self.generation_types.entries@[i]).1 > 0
                    && t == self.generation_types.entries@[i].0,
            r is Err ==> r == Err::<GenerationType, GenerationError>(
                GenerationError::EmptyCollection,
            ),
    {
        match self.generation_types.get_random() {
            Some(t) => Ok(t.duplicate()),
            None => Err(GenerationError::EmptyCollection),
        }
    }
}

/// Whether a block position may anchor a segment.
pub open spec fn anchor_ok(b: BlockPos) -> bool {
    &&& -ANCHOR_LIMIT <= b.x <= ANCHOR_LIMIT
    &&& -ANCHOR_LIMIT <= b.y <= ANCHOR_LIMIT
    &&& -ANCHOR_LIMIT <= b.z <= ANCHOR_LIMIT
}

/// Whether a state may start a trajectory simulation: well inside the
/// world, with a running jump's modest velocity.
pub open spec fn sim_start_ok(s: PredictionState) -> bool {
    &&& -999_000_000_000 <= s.pos.x <= 999_000_000_000
    &&& -999_000_000_000 <= s.pos.y <= 999_000_000_000
    &&& -999_000_000_000 <= s.pos.z <= 999_000_000_000
    &&& -1000 <= s.vel.x <= 1000
    &&& -1000 <= s.vel.y <= 1000
    &&& -1000 <= s.vel.z <= 1000
}

/// Whether a block with positive weight under the palette entry of the
/// given name reads `b`.
pub open spec fn block_from_palette(
    s: Seq<(String, crate::palette::BlockCollection)>,
    name: Seq<char>,
    b: crate::palette::BlockId,
) -> bool {
    match spec_find(s, name) {
        None => false,
        Some(i) => exists|j: int|
            0 <= j < s[i].1.0.blocks.entries@.len() && (#[trigger] s[i].1.0.blocks.entries@[j]).1
                > 0 && b == s[i].1.0.blocks.entries@[j].0,
    }
}

/// The shape every successfully generated segment has: anchored at
/// `start`, one block at the local origin drawn from the palette entry
/// the type names, no sub-regions, and an end state that is a running
/// jump from the anchor's top face at some yaw inside the cone.
pub open spec fn generated_ok(
    g: Generation,
    theme: GenerationTheme,
    key: Seq<char>,
    start: BlockPos,
) -> bool {
    &&& g.offset == start
    &&& g.ordered
    &&& g.children@.len() == 0
    &&& g.blocks@.len() == 1
    &&& g.blocks@[0].0 == (BlockPos { x: 0, y: 0, z: 0 })
    &&& block_from_palette(theme.block_map.collections@, key, g.blocks@[0].1)
    &&& exists|yaw: int|
        -YAW_CONE_MDEG <= yaw <= YAW_CONE_MDEG && g.end_state
            == #[trigger] crate::physics::spec_running_jump(
            Vec3Fx {
                x: (start.x * (SCALE as int) + (SCALE as int) / 2) as i64,
                y: ((start.y + 1) * (SCALE as int)) as i64,
                z: (start.z * (SCALE as int) + (SCALE as int) / 2) as i64,
            },
            yaw,
        )
    &&& g.wf()
    &&& in_world(g.end_state.pos)
    &&& g.end_state.vel.y == crate::physics::JUMP_IMPULSE
    &&& -crate::physics::RUN_SPEED <= g.end_state.vel.x <= crate::physics::RUN_SPEED
    &&& -crate::physics::RUN_SPEED <= g.end_state.vel.z <= crate::physics::RUN_SPEED
}

/// The resolved inputs a block generator works from: the steering bias
/// and the session's frozen palette.
pub struct BlockGenParams<'a> {
    pub direction: JumpDirection,
    pub block_map: &'a BuiltBlockCollectionMap,
}

/// Resolve one segment of the given type at the given anchor, drawing
/// its blocks from the palette frozen at session creation.
fn gen_from(
    theme: &GenerationTheme,
    block_map: &BuiltBlockCollectionMap,
    gtype: &GenerationType,
    start: BlockPos,
    direction: JumpDirection,
) -> (r: Result<Generation, GenerationError>)
    requires
        theme.wf(),
        block_map.wf(),
        built_matches(theme.block_map.collections@, block_map.collections@),
        anchor_ok(start),
    ensures
        spec_find(theme.block_map.collections@, gtype_key(*gtype)) is None ==> r == Err::<
            Generation,
            GenerationError,
        >(GenerationError::PaletteLookup),
        present_empty(theme.block_map.collections@, gtype_key(*gtype)) ==> r == Err::<
            Generation,
            GenerationError,
        >(GenerationError::EmptyCollection),
        resolvable(theme.block_map.collections@, gtype_key(*gtype)) ==> r is Ok,
        r matches Ok(g) ==> generated_ok(g, *theme, gtype_key(*gtype), start),
{
    let params = BlockGenParams { direction, block_map };
    let ghost src = theme.block_map.collections@;
    let ghost dst = params.block_map.collections@;
    let GenerationType::Single(key) = gtype;
    proof {
        assert forall|i: int| 0 <= i < src.len() implies (#[trigger] dst[i]).0 == src[i].0 by {
            assert(built_matches(src, dst));
            assert((src[i].0, src[i].1) == src[i]);
        }
        lemma_find_corresponds(src, dst, key@);
        match spec_find(src, key@) {
            Some(i) => {
                lemma_find_some(src, key@, i);
                lemma_find_built_some(dst, key@, i);
            },
            None => {},
        }
    }
    let block = match params.block_map.get_block(key) {
        Ok(b) => b,
        Err(e) => {
            return Err(e);
        },
    };
    let yaw = random_yaw();
    let end_state = PredictionState::running_jump_block(start, yaw);
    let mut blocks: Vec<(BlockPos, crate::palette::BlockId)> = Vec::new();
    blocks.push((BlockPos::new(0, 0, 0), block));
    let g = Generation {
        blocks,
        children: Vec::new(),
        ordered: true,
        offset: start,
        end_state,
    };
    Ok(g)
}

/// A parkour segment generator: a theme, the type of segment it emits,
/// and the anchor it emits the next segment at.
#[derive(Clone, Debug)]
pub struct Generator {
    pub theme: GenerationTheme,
    pub generation_type: GenerationType,
    pub start: BlockPos,
}

impl Generator {
    /// Generate one segment of this generator's type at its anchor,
    /// drawing blocks from the session's frozen palette.
    pub fn generate(
        &self,
        block_map: &BuiltBlockCollectionMap,
        direction: JumpDirection,
    ) -> (r: Result<Generation, GenerationError>)
        requires
            self.theme.wf(),
            block_map.wf(),
            built_matches(self.theme.block_map.collections@, block_map.collections@),
            anchor_ok(self.start),
        ensures
            spec_find(self.theme.block_map.collections@, gtype_key(self.generation_type)) is None
                ==> r == Err::<Generation, GenerationError>(GenerationError::PaletteLookup),
            present_empty(self.theme.block_map.collections@, gtype_key(self.generation_type))
                ==> r == Err::<Generation, GenerationError>(GenerationError::EmptyCollection),
            resolvable(self.theme.block_map.collections@, gtype_key(self.generation_type))
                ==> r is Ok,
            r matches Ok(g) ==> generated_ok(
                g,
                self.theme,
                gtype_key(self.generation_type),
                self.start,
            ),
    {
        gen_from(&self.theme, block_map, &self.generation_type, self.start, direction)
    }

    /// The first segment of a session, anchored directly at the
    /// configured start position with the theme's first generation
    /// type.
    pub fn first_in_generation(
        start: BlockPos,
        theme: &GenerationTheme,
        block_map: &BuiltBlockCollectionMap,
    ) -> (r: Result<Generation, GenerationError>)
        requires
            theme.wf(),
            block_map.wf(),
            built_matches(theme.block_map.collections@, block_map.collections@),
            anchor_ok(start),
            theme.generation_types.entries@.len() > 0,
        ensures
            spec_find(
                theme.block_map.collections@,
                gtype_key(theme.generation_types.entries@[0].0),
            ) is None ==> r == Err::<Generation, GenerationError>(GenerationError::PaletteLookup),
            present_empty(
                theme.block_map.collections@,
                gtype_key(theme.generation_types.entries@[0].0),
            ) ==> r == Err::<Generation, GenerationError>(GenerationError::EmptyCollection),
            resolvable(
                theme.block_map.collections@,
                gtype_key(theme.generation_types.entries@[0].0),
            ) ==> r is Ok,
            r matches Ok(g) ==> generated_ok(
                g,
                *theme,
                gtype_key(theme.generation_types.entries@[0].0),
                start,
            ),
    {
        gen_from(
            theme,
            block_map,
            theme.generation_types.get_at(0),
            start,
            JumpDirection::DoesntMatter,
        )
    }

    /// The vertical landing target steered toward from a state.
    pub open spec fn spec_target_y(s: PredictionState, direction: JumpDirection) -> int {
        (crate::geom::spec_block_of(s.pos.y as int) + spec_y_offset(direction)) * (SCALE as int)
    }

    /// Whether a state has landed: vertical velocity no longer positive
    /// and height at or below the target.
    pub open spec fn spec_landed(s: PredictionState, target: int) -> bool {
        s.vel.y <= 0 && s.pos.y <= target
    }

    /// No state along the first `MAX_SIM_TICKS` trajectory ticks lands.
    pub open spec fn spec_diverges(s0: PredictionState, target: int) -> bool {
        forall|m: int|
            1 <= m <= MAX_SIM_TICKS ==> !Self::spec_landed(
                #[trigger] spec_trajectory(s0, m as nat),
                target,
            )
    }

    /// A sprint-jump trajectory always lands: its vertical impulse is
    /// spent within thirteen ticks and it then falls below any target at
    /// most one block above its start height, so the first landing tick
    /// comes within fourteen ticks and the bounded simulation never
    /// reaches its ceiling.
    pub proof fn lemma_jump_lands(s: PredictionState, target: int)
        requires
            s.vel.y == crate::physics::JUMP_IMPULSE,
            -999_500_000_000 <= s.pos.y <= 999_500_000_000,
            target >= crate::geom::spec_block_of(s.pos.y as int) * (SCALE as int) - SCALE,
        ensures
            !Self::spec_diverges(s, target),
            forall|n: int|
                1 <= n <= MAX_SIM_TICKS && Self::spec_landed(
                    #[trigger] spec_trajectory(s, n as nat),
                    target,
                ) && (forall|m: int|
                    1 <= m < n ==> !Self::spec_landed(
                        #[trigger] spec_trajectory(s, m as nat),
                        target,
                    )) ==> n <= 14,
    {
        crate::physics::lemma_vertical_profile(s, 14);
        assert(spec_trajectory(s, 14).vel.y == s.vel.y - GRAVITY * 14);
        assert(spec_trajectory(s, 14).pos.y == s.pos.y + 14 * s.vel.y - 40 * 14 * (14 + 1));
        assert(14 * s.vel.y == 5880 && 40 * 14 * (14 + 1) == 8400) by (nonlinear_arith)
            requires
                s.vel.y == 420,
        ;
        vstd::arithmetic::div_mod::lemma_fundamental_div_mod(s.pos.y as int, SCALE as int);
        vstd::arithmetic::div_mod::lemma_mod_bound(s.pos.y as int, SCALE as int);
        assert(crate::geom::spec_block_of(s.pos.y as int) * (SCALE as int) >= s.pos.y - 999)
            by (nonlinear_arith)
            requires
                s.pos.y as int == (SCALE as int) * crate::geom::spec_block_of(s.pos.y as int) + (
                s.pos.y as int) % (SCALE as int),
                0 <= (s.pos.y as int) % (SCALE as int) < (SCALE as int),
                SCALE == 1000,
        ;
        assert(Self::spec_landed(spec_trajectory(s, 14), target));
        assert(!Self::spec_diverges(s, target)) by {
            assert(1 <= 14int <= MAX_SIM_TICKS && Self::spec_landed(
                #[trigger] spec_trajectory(s, (14int) as nat),
                target,
            ));
        }
        assert forall|n: int|
            1 <= n <= MAX_SIM_TICKS && Self::spec_landed(
                #[trigger] spec_trajectory(s, n as nat),
                target,
            ) && (forall|m: int|
                1 <= m < n ==> !Self::spec_landed(
                    #[trigger] spec_trajectory(s, m as nat),
                    target,
                )) implies n <= 14 by {
            if n > 14 {
                assert(!Self::spec_landed(spec_trajectory(s, (14int) as nat), target));
            }
        }
    }

    /// The next segment after a finished one: simulate the previous end
    /// trajectory to its landing anchor, then generate there with a
    /// weighted-random type.
    pub fn next_in_generation(
        direction: JumpDirection,
        theme: &GenerationTheme,
        block_map: &BuiltBlockCollectionMap,
        generation: &Generation,
    ) -> (r: Result<Generation, GenerationError>)
        requires
            theme.wf(),
            block_map.wf(),
            built_matches(theme.block_map.collections@, block_map.collections@),
            sim_start_ok(generation.end_state),
        ensures
            ({
                let s0 = generation.end_state;
                let target = Self::spec_target_y(s0, direction);
                &&& (r == Err::<Generation, GenerationError>(GenerationError::TrajectoryDivergence)
                    <==> Self::spec_diverges(s0, target))
                &&& r matches Ok(g) ==> exists|n: int, i: int|
                    {
                        &&& 1 <= n <= MAX_SIM_TICKS
                        &&& Self::spec_landed(#[trigger] spec_trajectory(s0, n as nat), target)
                        &&& forall|m: int|
                            1 <= m < n ==> !Self::spec_landed(
                                #[trigger] spec_trajectory(s0, m as nat),
                                target,
                            )
                        &&& 0 <= i < theme.generation_types.entries@.len()
                        &&& (#[trigger] theme.generation_types.entries@[i]).1 > 0
                        &&& generated_ok(
                            g,
                            *theme,
                            gtype_key(theme.generation_types.entries@[i].0),
                            Vec3Fx {
                                x: spec_trajectory(s0, n as nat).pos.x,
                                y: spec_trajectory(s0, n as nat).pos.y,
                                z: spec_trajectory(s0, n as nat).pos.z,
                            }.spec_block_pos(),
                        )
                    }
                &&& !Self::spec_diverges(s0, target) && theme.generation_types.total > 0 && (
                forall|i: int|
                    0 <= i < theme.generation_types.entries@.len()
                        && (#[trigger] theme.generation_types.entries@[i]).1 > 0 ==> resolvable(
                        theme.block_map.collections@,
                        gtype_key(theme.generation_types.entries@[i].0),
                    )) ==> r is Ok
                &&& r == Err::<Generation, GenerationError>(GenerationError::EmptyCollection)
                    ==> theme.generation_types.total == 0 || exists|i: int|
                    0 <= i < theme.generation_types.entries@.len()
                        && (#[trigger] theme.generation_types.entries@[i]).1 > 0 && present_empty(
                        theme.block_map.collections@,
                        gtype_key(theme.generation_types.entries@[i].0),
                    )
                &&& r == Err::<Generation, GenerationError>(GenerationError::PaletteLookup)
                    ==> exists|i: int|
                    0 <= i < theme.generation_types.entries@.len()
                        && (#[trigger] theme.generation_types.entries@[i]).1 > 0 && spec_find(
                        theme.block_map.collections@,
                        gtype_key(theme.generation_types.entries@[i].0),
                    ) is None
            }),
    {
        let s0: PredictionState = generation.end_state;
        let ghost target_g = Self::spec_target_y(s0, direction);
        let dy: i64 = direction.get_y_offset();
        let by: i64 = crate::geom::block_of(s0.pos.y);
        let target: i64 = (by + dy) * SCALE;
        let mut state: PredictionState = s0;
        let mut k: usize = 0;
        while k < MAX_SIM_TICKS
            invariant
                theme.wf(),
                block_map.wf(),
                built_matches(theme.block_map.collections@, block_map.collections@),
                s0 == generation.end_state,
                sim_start_ok(s0),
                state == spec_trajectory(s0, k as nat),
                k <= MAX_SIM_TICKS,
                target == target_g,
                target_g == Self::spec_target_y(s0, direction),
                -999_001_000_000 <= target <= 999_001_000_000,
                forall|m: int|
                    1 <= m <= k ==> !Self::spec_landed(
                        #[trigger] spec_trajectory(s0, m as nat),
                        target_g,
                    ),
                state.vel.y == s0.vel.y - GRAVITY * k,
                -1000 <= state.vel.x <= 1000,
                -1000 <= state.vel.z <= 1000,
                s0.pos.x - 1000 * k <= state.pos.x <= s0.pos.x + 1000 * k,
                s0.pos.z - 1000 * k <= state.pos.z <= s0.pos.z + 1000 * k,
                s0.pos.y - 81080 * k <= state.pos.y <= s0.pos.y + 81080 * k,
            decreases MAX_SIM_TICKS - k,
        {
            let mut ns: PredictionState = state;
            proof {
                crate::physics::lemma_drag_shrinks(state.vel.x as int);
                crate::physics::lemma_drag_shrinks(state.vel.z as int);
            }
            ns.advance_tick();
            k = k + 1;
            proof {
                assert(ns == spec_trajectory(s0, k as nat));
            }
            if ns.vel.y <= 0 && ns.pos.y <= target {
                let ghost kk: int = k as int;
                proof {
                    assert(Self::spec_landed(spec_trajectory(s0, kk as nat), target_g));
                    assert(!Self::spec_diverges(s0, target_g)) by {
                        assert(1 <= kk <= MAX_SIM_TICKS && Self::spec_landed(
                            #[trigger] spec_trajectory(s0, kk as nat),
                            target_g,
                        ));
                    }
                }
                let anchor: BlockPos = ns.current_block_position();
                proof {
                    assert(ns.pos == (Vec3Fx { x: ns.pos.x, y: ns.pos.y, z: ns.pos.z }));
                    assert(anchor == (Vec3Fx {
                        x: spec_trajectory(s0, k as nat).pos.x,
                        y: spec_trajectory(s0, k as nat).pos.y,
                        z: spec_trajectory(s0, k as nat).pos.z,
                    }).spec_block_pos());
                }
                let gtype = match theme.get_random_generation_type() {
                    Ok(t) => t,
                    Err(e) => {
                        return Err(e);
                    },
                };
                let ghost ti = choose|i: int|
                    0 <= i < theme.generation_types.entries@.len()
                        && (#[trigger] theme.generation_types.entries@[i]).1 > 0 && gtype
                        == theme.generation_types.entries@[i].0;
                let res = gen_from(theme, block_map, &gtype, anchor, direction);
                proof {
                    match spec_find(theme.block_map.collections@, gtype_key(gtype)) {
                        Some(fi) => {
                            lemma_find_some(theme.block_map.collections@, gtype_key(gtype), fi);
                            crate::weighted::lemma_total_nonneg(
                                theme.block_map.collections@[fi].1.0.blocks.entries@,
                            );
                        },
                        None => {},
                    }
                    if res == Err::<Generation, GenerationError>(GenerationError::EmptyCollection) {
                        assert(present_empty(theme.block_map.collections@, gtype_key(gtype)));
                        assert(gtype == theme.generation_types.entries@[ti].0);
                        assert(exists|i: int|
                            0 <= i < theme.generation_types.entries@.len() && (
                            #[trigger] theme.generation_types.entries@[i]).1 > 0 && present_empty(
                                theme.block_map.collections@,
                                gtype_key(theme.generation_types.entries@[i].0),
                            ));
                    }
                    if res == Err::<Generation, GenerationError>(GenerationError::PaletteLookup) {
                        assert(spec_find(theme.block_map.collections@, gtype_key(gtype)) is None);
                        assert(exists|i: int|
                            0 <= i < theme.generation_types.entries@.len() && (
                            #[trigger] theme.generation_types.entries@[i]).1 > 0 && spec_find(
                                theme.block_map.collections@,
                                gtype_key(theme.generation_types.entries@[i].0),
                            ) is None);
                    }
                    if res is Ok {
                        let g = res->Ok_0;
                        assert(generated_ok(g, *theme, gtype_key(gtype), anchor));
                        assert(gtype_key(gtype) == gtype_key(
                            theme.generation_types.entries@[ti].0,
                        ));
                        assert(1 <= kk <= MAX_SIM_TICKS && Self::spec_landed(
                            spec_trajectory(s0, kk as nat),
                            target_g,
                        ) && (forall|m: int|
                            1 <= m < kk ==> !Self::spec_landed(
                                #[trigger] spec_trajectory(s0, m as nat),
                                target_g,
                            )) && 0 <= ti < theme.generation_types.entries@.len()
                            && theme.generation_types.entries@[ti].1 > 0 && generated_ok(
                            g,
                            *theme,
                            gtype_key(theme.generation_types.entries@[ti].0),
                            (Vec3Fx {
                                x: spec_trajectory(s0, kk as nat).pos.x,
                                y: spec_trajectory(s0, kk as nat).pos.y,
                                z: spec_trajectory(s0, kk as nat).pos.z,
                            }).spec_block_pos(),
                        ));
                    }
                }
                return res;
            }
            state = ns;
        }
        Err(GenerationError::TrajectoryDivergence)
    }
}

} // verus!
