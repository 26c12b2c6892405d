//! The movement simulator: a discrete-time model of a sprint-jumping
//! player, advanced one tick at a time.
//!
//! Each tick, velocity first accumulates a constant downward acceleration,
//! then position integrates the velocity, then the horizontal velocity is
//! scaled by a constant drag factor (drag is applied after moving). All
//! quantities are fixed-point milli-blocks, so a trajectory is a pure
//! function of its starting state.

use vstd::prelude::*;
use crate::geom::{Vec3Fx, BlockPos, floor_div_scale, spec_block_of, in_world, SCALE, POS_LIMIT};
use crate::trig::{sin_mdeg, cos_mdeg, spec_sin_mdeg, spec_cos_mdeg};

verus! {

/// Downward acceleration per tick, in milli-blocks per tick squared.
pub const GRAVITY: i64 = 80;

/// Horizontal drag multiplier applied after each move: `DRAG_NUM / DRAG_DEN`.
pub const DRAG_NUM: i64 = 91;

/// Horizontal drag divisor.
pub const DRAG_DEN: i64 = 100;

/// Vertical impulse of a running jump, in milli-blocks per tick.
pub const JUMP_IMPULSE: i64 = 420;

/// Horizontal speed of a running jump, in milli-blocks per tick.
pub const RUN_SPEED: i64 = 280;

/// Coordinate bound under which one simulated tick cannot overflow.
pub const SIM_POS_LIMIT: i64 = 1_000_000_000_000_000;

/// Velocity bound under which one simulated tick cannot overflow.
pub const SIM_VEL_LIMIT: i64 = 1_000_000_000_000;

/// The simulator's state: continuous position and velocity in
/// milli-blocks, and the facing yaw in millidegrees.
#[derive(Clone, Copy, Debug, PartialEq, Eq, Structural)]
pub struct PredictionState {
    pub pos: Vec3Fx,
    pub vel: Vec3Fx,
    pub yaw_mdeg: i64,
}

/// Horizontal drag applied to one velocity component.
pub open spec fn spec_drag(v: int) -> int {
    v * (DRAG_NUM as int) / (DRAG_DEN as int)
}

/// One tick of the movement model: gravity, then integration, then drag.
pub open spec fn spec_tick(s: PredictionState) -> PredictionState {
    let vy = (s.vel.y - GRAVITY) as i64;
    PredictionState {
        pos: Vec3Fx {
            x: (s.pos.x + s.vel.x) as i64,
            y: (s.pos.y + vy) as i64,
            z: (s.pos.z + s.vel.z) as i64,
        },
        vel: Vec3Fx { x: spec_drag(s.vel.x as int) as i64, y: vy, z: spec_drag(s.vel.z as int) as i64 },
        yaw_mdeg: s.yaw_mdeg,
    }
}

/// The state after `n` ticks from `s`.
pub open spec fn spec_trajectory(s: PredictionState, n: nat) -> PredictionState
    decreases n,
{
    if n == 0 {
        s
    } else {
        spec_tick(spec_trajectory(s, (n - 1) as nat))
    }
}

/// The state a running jump starts in: the given origin, a fixed
/// horizontal speed along the yaw, and a fixed upward impulse.
pub open spec fn spec_running_jump(origin: Vec3Fx, yaw_mdeg: int) -> PredictionState {
    PredictionState {
        pos: origin,
        vel: Vec3Fx {
            x: (-spec_sin_mdeg(yaw_mdeg) * (RUN_SPEED as int) / (SCALE as int)) as i64,
            y: JUMP_IMPULSE,
            z: (spec_cos_mdeg(yaw_mdeg) * (RUN_SPEED as int) / (SCALE as int)) as i64,
        },
        yaw_mdeg: yaw_mdeg as i64,
    }
}

/// Whether a state is within the bounds that one tick keeps free of
/// overflow.
pub open spec fn sim_bounded(s: PredictionState) -> bool {
    &&& -SIM_POS_LIMIT <= s.pos.x <= SIM_POS_LIMIT
    &&& -SIM_POS_LIMIT <= s.pos.y <= SIM_POS_LIMIT
    &&& -SIM_POS_LIMIT <= s.pos.z <= SIM_POS_LIMIT
    &&& -SIM_VEL_LIMIT <= s.vel.x <= SIM_VEL_LIMIT
    &&& -SIM_VEL_LIMIT <= s.vel.y <= SIM_VEL_LIMIT
    &&& -SIM_VEL_LIMIT <= s.vel.z <= SIM_VEL_LIMIT
}

/// Drag never raises a component's magnitude, and keeps its sign.
pub proof fn lemma_drag_shrinks(v: int)
    ensures
        v >= 0 ==> 0 <= spec_drag(v) <= v,
        v <= 0 ==> v <= spec_drag(v) <= 0,
{
    if v >= 0 {
        vstd::arithmetic::div_mod::lemma_div_pos_is_pos(v * DRAG_NUM, DRAG_DEN as int);
        assert(v * DRAG_NUM <= v * DRAG_DEN) by (nonlinear_arith)
            requires
                v >= 0,
        ;
        vstd::arithmetic::div_mod::lemma_div_is_ordered(v * DRAG_NUM, v * DRAG_DEN, DRAG_DEN as int);
        vstd::arithmetic::div_mod::lemma_div_multiples_vanish(v, DRAG_DEN as int);
    } else {
        assert(v * DRAG_DEN <= v * DRAG_NUM) by (nonlinear_arith)
            requires
                v <= 0,
        ;
        vstd::arithmetic::div_mod::lemma_div_is_ordered(v * DRAG_DEN, v * DRAG_NUM, DRAG_DEN as int);
        vstd::arithmetic::div_mod::lemma_div_multiples_vanish(v, DRAG_DEN as int);
        assert(v * DRAG_NUM <= 0) by (nonlinear_arith)
            requires
                v <= 0,
        ;
        vstd::arithmetic::div_mod::lemma_div_is_ordered(v * DRAG_NUM, 0, DRAG_DEN as int);
        vstd::arithmetic::div_mod::lemma_div_of0(DRAG_DEN as int);
    }
}

/// Exec form of `spec_drag`: scale a velocity component by the drag
/// factor, rounding toward negative infinity as spec-level `/` does.
fn drag_component(v: i64) -> (r: i64)
    requires
        -SIM_VEL_LIMIT <= v <= SIM_VEL_LIMIT,
    ensures
        r == spec_drag(v as int),
{
    let p: i64 = v * DRAG_NUM;
    let q: i64 = p / DRAG_DEN;
    let m: i64 = p % DRAG_DEN;
    if p >= 0 || m == 0 {
        q
    } else {
        q - 1
    }
}

impl PredictionState {
    /// A state assembled from explicit position, velocity and yaw.
    pub fn new(pos: Vec3Fx, vel: Vec3Fx, yaw_mdeg: i64) -> (r: PredictionState)
        ensures
            r == (PredictionState { pos, vel, yaw_mdeg }),
    {
        PredictionState { pos, vel, yaw_mdeg }
    }

    /// The start of a standing sprint-jump from a continuous origin:
    /// deterministic in the origin and yaw alone.
    pub fn running_jump(origin: Vec3Fx, yaw_mdeg: i64) -> (r: PredictionState)
        requires
            -180000 <= yaw_mdeg <= 180000,
        ensures
            r == spec_running_jump(origin, yaw_mdeg as int),
            -RUN_SPEED <= r.vel.x <= RUN_SPEED,
            -RUN_SPEED <= r.vel.z <= RUN_SPEED,
            r.vel.y == JUMP_IMPULSE,
            r.pos == origin,
    {
        let s: i64 = sin_mdeg(yaw_mdeg);
        let c: i64 = cos_mdeg(yaw_mdeg);
        let vx: i64 = floor_div_scale(-s * RUN_SPEED);
        let vz: i64 = floor_div_scale(c * RUN_SPEED);
        proof {
            assert(-1000 * RUN_SPEED <= -s * RUN_SPEED <= 1000 * RUN_SPEED) by (nonlinear_arith)
                requires
                    -1000 <= s <= 1000,
            ;
            assert(-1000 * RUN_SPEED <= c * RUN_SPEED <= 1000 * RUN_SPEED) by (nonlinear_arith)
                requires
                    -1000 <= c <= 1000,
            ;
            vstd::arithmetic::div_mod::lemma_div_is_ordered(-s * RUN_SPEED, 1000 * RUN_SPEED, SCALE as int);
            vstd::arithmetic::div_mod::lemma_div_is_ordered(-1000 * RUN_SPEED, -s * RUN_SPEED, SCALE as int);
            vstd::arithmetic::div_mod::lemma_div_is_ordered(c * RUN_SPEED, 1000 * RUN_SPEED, SCALE as int);
            vstd::arithmetic::div_mod::lemma_div_is_ordered(-1000 * RUN_SPEED, c * RUN_SPEED, SCALE as int);
        }
        PredictionState {
            pos: origin,
            vel: Vec3Fx { x: vx, y: JUMP_IMPULSE, z: vz },
            yaw_mdeg,
        }
    }

    /// A running jump whose origin is the centre of a block's top face.
    pub fn running_jump_block(start: BlockPos, yaw_mdeg: i64) -> (r: PredictionState)
        requires
            -180000 <= yaw_mdeg <= 180000,
        ensures
            r == spec_running_jump(
                Vec3Fx {
                    x: (start.x * SCALE + SCALE / 2) as i64,
                    y: ((start.y + 1) * SCALE) as i64,
                    z: (start.z * SCALE + SCALE / 2) as i64,
                },
                yaw_mdeg as int,
            ),
            -RUN_SPEED <= r.vel.x <= RUN_SPEED,
            -RUN_SPEED <= r.vel.z <= RUN_SPEED,
            r.vel.y == JUMP_IMPULSE,
    {
        PredictionState::running_jump(Vec3Fx::block_top_center(start), yaw_mdeg)
    }

    /// One discrete step of the movement model.
    pub fn advance_tick(&mut self)
        requires
            sim_bounded(*old(self)),
        ensures
            *final(self) == spec_tick(*old(self)),
    {
        self.vel.y = self.vel.y - GRAVITY;
        self.pos.x = self.pos.x + self.vel.x;
        self.pos.y = self.pos.y + self.vel.y;
        self.pos.z = self.pos.z + self.vel.z;
        proof {
            lemma_drag_shrinks(self.vel.x as int);
            lemma_drag_shrinks(self.vel.z as int);
        }
        self.vel.x = drag_component(self.vel.x);
        self.vel.z = drag_component(self.vel.z);
    }

    /// The block the simulated player currently occupies.
    pub fn current_block_position(&self) -> (r: BlockPos)
        requires
            in_world(self.pos),
        ensures
            r.x == spec_block_of(self.pos.x as int),
            r.y == spec_block_of(self.pos.y as int),
            r.z == spec_block_of(self.pos.z as int),
            r == self.pos.spec_block_pos(),
    {
        self.pos.block_pos()
    }
}

/// The simulation tick ceiling shared by reachability prediction.
pub const PREDICT_TICKS: usize = 1000;

/// Integer square root: the greatest value whose square is at most `n`.
pub fn isqrt(n: u128) -> (r: u128)
    ensures
        r * r <= n < (r + 1) * (r + 1),
{
    if n == 0 {
        return 0;
    }
    let mut lo: u128 = 0;
    let mut hi: u128 = 18_446_744_073_709_551_616;
    proof {
        assert(18_446_744_073_709_551_616int * 18_446_744_073_709_551_616int > n)
            by (nonlinear_arith)
            requires
                n <= 0xffff_ffff_ffff_ffff_ffff_ffff_ffff_ffffu128,
        ;
        assert((n + 1) * (n + 1) > n) by (nonlinear_arith);
    }
    if n < hi {
        hi = n + 1;
    }
    while lo + 1 < hi
        invariant
            lo < hi,
            hi <= 18_446_744_073_709_551_616,
            lo * lo <= n,
            hi * hi > n,
        decreases hi - lo,
    {
        let mid: u128 = lo + (hi - lo) / 2;
        proof {
            assert(mid * mid <= 0x1_0000_0000_0000_0000_0000_0000_0000_0000int - 1)
                by (nonlinear_arith)
                requires
                    0 <= mid < 18_446_744_073_709_551_616,
            ;
        }
        if mid * mid <= n {
            lo = mid;
        } else {
            hi = mid;
        }
    }
    lo
}

/// The block column test a reachability prediction succeeds on: the
/// simulated player is at or above the target height and inside the
/// target column.
pub open spec fn spec_hit(s: PredictionState, to: BlockPos) -> bool {
    let b = s.pos.spec_block_pos();
    &&& b.y >= to.y
    &&& to.x <= b.x <= to.x + 1
    &&& to.z <= b.z <= to.z + 1
}

/// The condition under which a prediction gives up: the player has
/// fallen below the target while still descending.
pub open spec fn spec_fall_short(s: PredictionState, to: BlockPos) -> bool {
    s.pos.spec_block_pos().y < to.y && s.vel.y < 0
}

/// The state a reachability prediction starts in: a running jump from
/// `from` whose horizontal velocity points at the target's corner,
/// scaled by the horizontal distance `h`.
pub open spec fn spec_aim(from: Vec3Fx, to: BlockPos, h: int) -> PredictionState {
    let dx = (to.x as int) * (SCALE as int) - from.x;
    let dz = (to.z as int) * (SCALE as int) - from.z;
    PredictionState {
        pos: from,
        vel: Vec3Fx {
            x: (if h == 0 {
                0int
            } else if dx >= 0 {
                dx * (RUN_SPEED as int) / h
            } else {
                -((-dx) * (RUN_SPEED as int) / h)
            }) as i64,
            y: JUMP_IMPULSE,
            z: (if h == 0 {
                RUN_SPEED as int
            } else if dz >= 0 {
                dz * (RUN_SPEED as int) / h
            } else {
                -((-dz) * (RUN_SPEED as int) / h)
            }) as i64,
        },
        yaw_mdeg: 0,
    }
}

/// Whether `h` is the integer horizontal distance from `from` to the
/// target's corner.
pub open spec fn aim_dist_ok(from: Vec3Fx, to: BlockPos, h: int) -> bool {
    let dx = (to.x as int) * (SCALE as int) - from.x;
    let dz = (to.z as int) * (SCALE as int) - from.z;
    h >= 0 && h * h <= dx * dx + dz * dz < (h + 1) * (h + 1)
}

/// Whether a sprint-jump from `from` can land on the block `to`: the
/// trajectory aimed at the target is simulated until it either enters
/// the target column at or above its height, or falls below it while
/// descending, within the tick ceiling.
pub fn prediction_can_reach(from: Vec3Fx, to: BlockPos) -> (r: bool)
    requires
        -999_000_000_000 <= from.x <= 999_000_000_000,
        -999_000_000_000 <= from.y <= 999_000_000_000,
        -999_000_000_000 <= from.z <= 999_000_000_000,
        -999_000_000 <= to.x <= 999_000_000,
        -999_000_000 <= to.y <= 999_000_000,
        -999_000_000 <= to.z <= 999_000_000,
    ensures
        exists|h: int|
            #[trigger] aim_dist_ok(from, to, h) && (r <==> exists|n: int|
                0 <= n <= PREDICT_TICKS && #[trigger] spec_hit(
                    spec_trajectory(spec_aim(from, to, h), n as nat),
                    to,
                ) && (forall|m: int|
                    0 <= m < n ==> !spec_hit(
                        #[trigger] spec_trajectory(spec_aim(from, to, h), m as nat),
                        to,
                    ) && !spec_fall_short(spec_trajectory(spec_aim(from, to, h), m as nat), to))),
{
    let dx: i64 = (to.x as i64) * SCALE - from.x;
    let dz: i64 = (to.z as i64) * SCALE - from.z;
    let adx: i64 = if dx >= 0 {
        dx
    } else {
        -dx
    };
    let adz: i64 = if dz >= 0 {
        dz
    } else {
        -dz
    };
    proof {
        assert((adx as u128) * (adx as u128) <= 4_000_000_000_000_000_000_000_000u128
            && (adz as u128) * (adz as u128) <= 4_000_000_000_000_000_000_000_000u128)
            by (nonlinear_arith)
            requires
                0 <= adx <= 2_000_000_000_000,
                0 <= adz <= 2_000_000_000_000,
        ;
    }
    let sq: u128 = (adx as u128) * (adx as u128) + (adz as u128) * (adz as u128);
    let h128: u128 = isqrt(sq);
    proof {
        assert(h128 * h128 <= sq);
        assert((adx as int) * (adx as int) <= sq && (adz as int) * (adz as int) <= sq);
        assert(h128 <= 4_000_000_000_000) by (nonlinear_arith)
            requires
                h128 * h128 <= sq,
                sq <= 8_000_000_000_000_000_000_000_000u128,
        ;
        assert(adx <= h128 && adz <= h128) by (nonlinear_arith)
            requires
                sq < (h128 + 1) * (h128 + 1),
                (adx as int) * (adx as int) <= sq,
                (adz as int) * (adz as int) <= sq,
                adx >= 0,
                adz >= 0,
                h128 >= 0,
        ;
        assert((dx as int) * (dx as int) == (adx as int) * (adx as int)) by (nonlinear_arith)
            requires
                adx == (if dx >= 0 { dx as int } else { -(dx as int) }),
        ;
        assert((dz as int) * (dz as int) == (adz as int) * (adz as int)) by (nonlinear_arith)
            requires
                adz == (if dz >= 0 { dz as int } else { -(dz as int) }),
        ;
        assert(aim_dist_ok(from, to, h128 as int));
    }
    let h: i64 = h128 as i64;
    let vx: i64 = if h == 0 {
        0
    } else {
        let m: i64 = (adx * RUN_SPEED) / h;
        proof {
            vstd::arithmetic::div_mod::lemma_div_is_ordered(
                adx * (RUN_SPEED as int),
                h as int * (RUN_SPEED as int),
                h as int,
            );
            vstd::arithmetic::div_mod::lemma_div_multiples_vanish(RUN_SPEED as int, h as int);
            vstd::arithmetic::div_mod::lemma_div_pos_is_pos(adx * (RUN_SPEED as int), h as int);
            assert(adx * (RUN_SPEED as int) <= h as int * (RUN_SPEED as int)) by (nonlinear_arith)
                requires
                    0 <= adx <= h,
            ;
        }
        if dx >= 0 {
            m
        } else {
            -m
        }
    };
    let vz: i64 = if h == 0 {
        RUN_SPEED
    } else {
        let m: i64 = (adz * RUN_SPEED) / h;
        proof {
            vstd::arithmetic::div_mod::lemma_div_is_ordered(
                adz * (RUN_SPEED as int),
                h as int * (RUN_SPEED as int),
                h as int,
            );
            vstd::arithmetic::div_mod::lemma_div_multiples_vanish(RUN_SPEED as int, h as int);
            vstd::arithmetic::div_mod::lemma_div_pos_is_pos(adz * (RUN_SPEED as int), h as int);
            assert(adz * (RUN_SPEED as int) <= h as int * (RUN_SPEED as int)) by (nonlinear_arith)
                requires
                    0 <= adz <= h,
            ;
        }
        if dz >= 0 {
            m
        } else {
            -m
        }
    };
    let s0 = PredictionState {
        pos: from,
        vel: Vec3Fx { x: vx, y: JUMP_IMPULSE, z: vz },
        yaw_mdeg: 0,
    };
    let ghost hh: int = h as int;
    proof {
        assert(s0 == spec_aim(from, to, hh));
    }
    let mut state: PredictionState = s0;
    let mut k: usize = 0;
    loop
        invariant
            s0 == spec_aim(from, to, hh),
            hh >= 0,
            aim_dist_ok(from, to, hh),
            -999_000_000_000 <= from.x <= 999_000_000_000,
            -999_000_000_000 <= from.y <= 999_000_000_000,
            -999_000_000_000 <= from.z <= 999_000_000_000,
            state == spec_trajectory(s0, k as nat),
            k <= PREDICT_TICKS,
            forall|m: int|
                0 <= m < k ==> !spec_hit(
                    #[trigger] spec_trajectory(s0, m as nat),
                    to,
                ) && !spec_fall_short(spec_trajectory(s0, m as nat), to),
            state.vel.y == s0.vel.y - GRAVITY * k,
            s0.vel.y == JUMP_IMPULSE,
            -RUN_SPEED <= state.vel.x <= RUN_SPEED,
            -RUN_SPEED <= state.vel.z <= RUN_SPEED,
            -RUN_SPEED <= s0.vel.x <= RUN_SPEED,
            -RUN_SPEED <= s0.vel.z <= RUN_SPEED,
            s0.pos == from,
            from.x - 1000 * k <= state.pos.x <= from.x + 1000 * k,
            from.z - 1000 * k <= state.pos.z <= from.z + 1000 * k,
            from.y - 81080 * k <= state.pos.y <= from.y + 81080 * k,
        decreases PREDICT_TICKS - k,
    {
        let b: BlockPos = state.current_block_position();
        let ghost kk: int = k as int;
        if b.y >= to.y && b.x >= to.x && b.x <= to.x + 1 && b.z >= to.z && b.z <= to.z + 1 {
            proof {
                assert(spec_hit(spec_trajectory(s0, kk as nat), to));
            }
            return true;
        }
        if b.y < to.y && state.vel.y < 0 {
            proof {
                assert(spec_fall_short(spec_trajectory(s0, kk as nat), to));
                assert forall|n: int|
                    0 <= n <= PREDICT_TICKS && #[trigger] spec_hit(
                        spec_trajectory(s0, n as nat),
                        to,
                    ) implies !(forall|m: int|
                    0 <= m < n ==> !spec_hit(#[trigger] spec_trajectory(s0, m as nat), to)
                        && !spec_fall_short(spec_trajectory(s0, m as nat), to)) by {
                    if n <= kk {
                    } else {
                        assert(spec_fall_short(spec_trajectory(s0, kk as nat), to));
                    }
                }
            }
            return false;
        }
        if k == PREDICT_TICKS {
            proof {
                assert forall|n: int|
                    0 <= n <= PREDICT_TICKS implies !#[trigger] spec_hit(
                    spec_trajectory(s0, n as nat),
                    to,
                ) by {
                    if n < kk {
                    } else {
                    }
                }
            }
            return false;
        }
        proof {
            lemma_drag_shrinks(state.vel.x as int);
            lemma_drag_shrinks(state.vel.z as int);
        }
        state.advance_tick();
        k = k + 1;
    }
}

/// Exact vertical dynamics: gravity is the only vertical force, so the
/// height and vertical velocity after `n` ticks are closed forms of the
/// start state.
pub proof fn lemma_vertical_profile(s: PredictionState, n: nat)
    requires
        -1_000_000_000_000 <= s.pos.y <= 1_000_000_000_000,
        -1000 <= s.vel.y <= 1000,
        n <= 1000,
    ensures
        spec_trajectory(s, n).vel.y == s.vel.y - GRAVITY * n,
        spec_trajectory(s, n).pos.y == s.pos.y + n * s.vel.y - 40 * n * (n + 1),
        s.pos.y - 100_000_000 <= spec_trajectory(s, n).pos.y <= s.pos.y + 100_000_000,
    decreases n,
{
    if n == 0 {
        assert(n * s.vel.y == 0 && 40 * n * (n + 1) == 0) by (nonlinear_arith)
            requires
                n == 0,
        ;
    }
    if n > 0 {
        let m = (n - 1) as nat;
        lemma_vertical_profile(s, m);
        let prev = spec_trajectory(s, m);
        assert(0 <= 40 * m * (m + 1) <= 40_040_000 && 0 <= 40 * n * (n + 1) <= 40_040_000
            && -1_000_000 <= m * s.vel.y <= 1_000_000 && -1_000_000 <= n * s.vel.y <= 1_000_000
            && m * s.vel.y + s.vel.y == n * s.vel.y && 40 * m * (m + 1) + 80 * n == 40 * n * (n
            + 1)) by (nonlinear_arith)
            requires
                m == n - 1,
                0 <= m < n <= 1000,
                -1000 <= s.vel.y <= 1000,
        ;
        assert(-90_000 <= prev.vel.y - GRAVITY <= 1000);
        assert(spec_trajectory(s, n) == spec_tick(prev));
        assert(spec_tick(prev).vel.y == prev.vel.y - GRAVITY);
        assert(spec_tick(prev).pos.y == prev.pos.y + (prev.vel.y - GRAVITY));
        assert(prev.pos.y + (prev.vel.y - GRAVITY) == s.pos.y + m * s.vel.y - 40 * m * (m + 1)
            + s.vel.y - GRAVITY * m - GRAVITY);
        assert(prev.pos.y + (prev.vel.y - GRAVITY) == s.pos.y + n * s.vel.y - 40 * n * (n + 1))
            by (nonlinear_arith)
            requires
                m == n - 1,
                0 <= m < n <= 1000,
                -1000 <= s.vel.y <= 1000,
                prev.pos.y + (prev.vel.y - GRAVITY) == s.pos.y + m * s.vel.y - 40 * m * (m + 1)
                    + s.vel.y - GRAVITY * m - GRAVITY,
        ;
    }
}

/// Horizontal drag only shrinks speed, so horizontal drift after `n`
/// ticks is bounded by the starting speed times the tick count.
pub proof fn lemma_horizontal_profile(s: PredictionState, n: nat, b: int)
    requires
        -1_000_000_000_000 <= s.pos.x <= 1_000_000_000_000,
        -1_000_000_000_000 <= s.pos.z <= 1_000_000_000_000,
        0 <= b <= 1000,
        -b <= s.vel.x <= b,
        -b <= s.vel.z <= b,
        n <= 1000,
    ensures
        -b <= spec_trajectory(s, n).vel.x <= b,
        -b <= spec_trajectory(s, n).vel.z <= b,
        s.pos.x - n * b <= spec_trajectory(s, n).pos.x <= s.pos.x + n * b,
        s.pos.z - n * b <= spec_trajectory(s, n).pos.z <= s.pos.z + n * b,
    decreases n,
{
    if n == 0 {
        assert(n * b == 0) by (nonlinear_arith)
            requires
                n == 0,
        ;
    }
    if n > 0 {
        let m = (n - 1) as nat;
        lemma_horizontal_profile(s, m, b);
        let prev = spec_trajectory(s, m);
        lemma_drag_shrinks(prev.vel.x as int);
        lemma_drag_shrinks(prev.vel.z as int);
        assert(0 <= m * b <= 1_000_000 && 0 <= n * b <= 1_000_000 && m * b + b == n * b)
            by (nonlinear_arith)
            requires
                m == n - 1,
                0 <= m < n <= 1000,
                0 <= b <= 1000,
        ;
    }
}

/// The trajectory law: a running jump advanced any number of ticks
/// depends on nothing but the origin, the yaw and the tick count, so two
/// runs with the same inputs traverse identical states.
pub proof fn lemma_trajectory_deterministic(a: PredictionState, b: PredictionState, n: nat)
    requires
        a == b,
    ensures
        spec_trajectory(a, n) == spec_trajectory(b, n),
{
}

} // verus!
