use parkour_core::generation::{ChildGeneration, Generation};
use parkour_core::geom::{BlockPos, Vec3Fx};
use parkour_core::physics::PredictionState;
use parkour_core::palette::AIR;
use std::collections::HashMap;

fn child_at(x: i32, z: i32) -> ChildGeneration {
    ChildGeneration::new(vec![(BlockPos::new(x, 0, z), 7u16)], Vec::new())
}

fn segment(children: Vec<ChildGeneration>, ordered: bool) -> Generation {
    Generation {
        blocks: vec![(BlockPos::new(0, 0, 0), 5u16)],
        children,
        ordered,
        offset: BlockPos::new(0, 100, 0),
        end_state: PredictionState::new(Vec3Fx::new(0, 0, 0), Vec3Fx::new(0, 0, 0), 0),
    }
}

/// The continuous position of a player standing on the local block
/// (x, 0, z) of a segment anchored at (0, 100, 0).
fn standing_on(x: i32, z: i32) -> Vec3Fx {
    Vec3Fx::new(
        (x as i64) * 1000 + 500,
        101_000,
        (z as i64) * 1000 + 500,
    )
}

#[test]
fn has_reached_sees_own_and_child_blocks() {
    let g = segment(vec![child_at(2, 2)], true);
    assert!(g.has_reached(standing_on(0, 0)));
    assert!(g.has_reached(standing_on(2, 2)));
    assert!(!g.has_reached(standing_on(5, 5)));
}

#[test]
fn ordered_skip_ahead_scores_for_skipped_sub_regions() {
    // Three ordered sub-regions; landing directly on index 2 yields a
    // delta of three and marks all three reached.
    let mut g = segment(vec![child_at(1, 1), child_at(2, 2), child_at(3, 3)], true);
    let delta = g.has_reached_child(standing_on(3, 3));
    assert_eq!(delta, 3);
    assert!(g.children[0].reached);
    assert!(g.children[1].reached);
    assert!(g.children[2].reached);
}

#[test]
fn ordered_sequential_landing_scores_one_each() {
    let mut g = segment(vec![child_at(1, 1), child_at(2, 2)], true);
    assert_eq!(g.has_reached_child(standing_on(1, 1)), 1);
    assert_eq!(g.has_reached_child(standing_on(2, 2)), 1);
    // Landing again on a reached sub-region scores nothing.
    assert_eq!(g.has_reached_child(standing_on(2, 2)), 0);
}

#[test]
fn unordered_landing_scores_every_newly_triggered_sub_region() {
    // Two sub-regions share a footprint column, the third stands apart:
    // one landing triggers exactly the two, the third stays unreached.
    let mut g = segment(
        vec![child_at(1, 1), child_at(1, 1), child_at(4, 4)],
        false,
    );
    let delta = g.has_reached_child(standing_on(1, 1));
    assert_eq!(delta, 2);
    assert!(g.children[0].reached);
    assert!(g.children[1].reached);
    assert!(!g.children[2].reached);
}

#[test]
fn reached_flags_never_revert() {
    let mut g = segment(vec![child_at(1, 1), child_at(2, 2)], false);
    g.has_reached_child(standing_on(1, 1));
    assert!(g.children[0].reached);
    // Ticks that hit nothing, then the other sub-region: the first
    // flag stays set throughout.
    g.has_reached_child(standing_on(9, 9));
    assert!(g.children[0].reached);
    g.has_reached_child(standing_on(2, 2));
    assert!(g.children[0].reached && g.children[1].reached);
}

#[test]
fn unreached_child_count_counts_only_ordered_segments() {
    let mut g = segment(vec![child_at(1, 1), child_at(2, 2)], true);
    assert_eq!(g.get_unreached_child_count(), 2);
    g.has_reached_child(standing_on(1, 1));
    assert_eq!(g.get_unreached_child_count(), 1);
    let u = segment(vec![child_at(1, 1)], false);
    assert_eq!(u.get_unreached_child_count(), 0);
}

#[test]
fn place_then_remove_restores_air_and_is_idempotent() {
    let g = segment(vec![child_at(1, 1)], true);
    let mut world: HashMap<BlockPos, u16> = HashMap::new();
    let apply = |world: &mut HashMap<BlockPos, u16>, g: &Generation| {
        for w in g.place() {
            world.insert(w.pos, w.block);
        }
        for w in g.remove() {
            world.insert(w.pos, w.block);
        }
    };
    apply(&mut world, &g);
    let touched: Vec<BlockPos> = world.keys().cloned().collect();
    assert_eq!(touched.len(), 2);
    for p in &touched {
        assert_eq!(world[p], AIR);
    }
    let snapshot = world.clone();
    apply(&mut world, &g);
    assert_eq!(world, snapshot);
}

#[test]
fn place_writes_shift_by_the_offset() {
    let g = segment(vec![child_at(1, 1)], true);
    let writes = g.place();
    assert_eq!(writes.len(), 2);
    assert_eq!(writes[0].pos, BlockPos::new(0, 100, 0));
    assert_eq!(writes[0].block, 5);
    assert_eq!(writes[1].pos, BlockPos::new(1, 100, 1));
    assert_eq!(writes[1].block, 7);
    let removes = g.remove();
    assert_eq!(removes[0].pos, writes[0].pos);
    assert_eq!(removes[1].pos, writes[1].pos);
    assert!(removes.iter().all(|w| w.block == AIR));
}

#[test]
fn trigger_positions_count_as_reaching_without_blocks() {
    let c = ChildGeneration::new(Vec::new(), vec![BlockPos::new(2, 0, 2)]);
    let mut g = segment(vec![c], true);
    assert_eq!(g.has_reached_child(standing_on(2, 2)), 1);
    assert!(g.children[0].reached);
}
