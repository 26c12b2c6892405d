use parkour_core::errors::GenerationError;
use parkour_core::geom::{BlockPos, Vec3Fx, block_of, player_floor_blocks};
use parkour_core::palette::{BlockChoice, BlockCollection, BlockCollectionMap, AIR};
use parkour_core::physics::{PredictionState, isqrt, prediction_can_reach};
use parkour_core::trig::{sin_mdeg, cos_mdeg};
use parkour_core::weighted::WeightedVec;

fn collection(weights: &[(u16, u32)], uniform: bool) -> BlockCollection {
    let mut v: WeightedVec<u16> = WeightedVec::new();
    for (b, w) in weights {
        v.push(*b, *w);
    }
    BlockCollection(BlockChoice { blocks: v, uniform })
}

#[test]
fn block_of_floors_negative_coordinates() {
    assert_eq!(block_of(1500), 1);
    assert_eq!(block_of(-1500), -2);
    assert_eq!(block_of(-1000), -1);
    assert_eq!(block_of(0), 0);
    assert_eq!(block_of(999), 0);
}

#[test]
fn sine_has_exact_landmarks() {
    assert_eq!(sin_mdeg(0), 0);
    assert_eq!(sin_mdeg(30_000), 500);
    assert_eq!(sin_mdeg(90_000), 1000);
    assert_eq!(sin_mdeg(-30_000), -500);
    assert_eq!(cos_mdeg(0), 1000);
    assert_eq!(cos_mdeg(90_000), 0);
    assert_eq!(cos_mdeg(-90_000), 0);
}

#[test]
fn isqrt_exact_values() {
    assert_eq!(isqrt(0), 0);
    assert_eq!(isqrt(1), 1);
    assert_eq!(isqrt(3), 1);
    assert_eq!(isqrt(4), 2);
    assert_eq!(isqrt(999_999), 999);
    assert_eq!(isqrt(1_000_000), 1000);
}

#[test]
fn advance_tick_applies_gravity_then_moves_then_drags() {
    let mut s = PredictionState::new(
        Vec3Fx::new(0, 100_000, 0),
        Vec3Fx::new(280, 420, 100),
        0,
    );
    s.advance_tick();
    // Gravity first: vy = 420 - 80 = 340; position integrates (280, 340, 100);
    // then horizontal drag: 280*91/100 = 254 (floored), 100*91/100 = 91.
    assert_eq!(s.pos.x, 280);
    assert_eq!(s.pos.y, 100_340);
    assert_eq!(s.pos.z, 100);
    assert_eq!(s.vel.x, 254);
    assert_eq!(s.vel.y, 340);
    assert_eq!(s.vel.z, 91);
}

#[test]
fn trajectories_are_reproducible() {
    let a0 = PredictionState::running_jump(Vec3Fx::new(500, 101_000, 500), 31_337);
    let b0 = PredictionState::running_jump(Vec3Fx::new(500, 101_000, 500), 31_337);
    let mut a = a0;
    let mut b = b0;
    for _ in 0..64 {
        a.advance_tick();
        b.advance_tick();
        assert_eq!(a.pos, b.pos);
        assert_eq!(a.vel, b.vel);
    }
}

#[test]
fn running_jump_direction_follows_yaw() {
    // Yaw zero faces positive z.
    let s = PredictionState::running_jump(Vec3Fx::new(0, 0, 0), 0);
    assert_eq!(s.vel.x, 0);
    assert_eq!(s.vel.z, 280);
    assert_eq!(s.vel.y, 420);
    // Ninety degrees turns the jump toward negative x.
    let w = PredictionState::running_jump(Vec3Fx::new(0, 0, 0), 90_000);
    assert_eq!(w.vel.x, -280);
    assert_eq!(w.vel.z, 0);
}

#[test]
fn player_floor_blocks_cover_footprint() {
    // Standing at a block centre: one block beneath the feet.
    let r = player_floor_blocks(Vec3Fx::new(500, 1000, 500));
    assert!(r.iter().all(|b| *b == BlockPos::new(0, 0, 0)));
    // Standing on a cell edge: the footprint overlaps two columns.
    let r = player_floor_blocks(Vec3Fx::new(1000, 1000, 500));
    assert!(r.contains(&BlockPos::new(0, 0, 0)));
    assert!(r.contains(&BlockPos::new(1, 0, 0)));
}

#[test]
fn weighted_pick_index_follows_cumulative_ranges() {
    let mut v: WeightedVec<u16> = WeightedVec::new();
    v.push(7, 2);
    v.push(8, 0);
    v.push(9, 3);
    assert_eq!(v.pick_index(0), 0);
    assert_eq!(v.pick_index(1), 0);
    assert_eq!(v.pick_index(2), 2);
    assert_eq!(v.pick_index(4), 2);
}

#[test]
fn weighted_random_index_skips_zero_weights() {
    let mut v: WeightedVec<u16> = WeightedVec::new();
    v.push(1, 0);
    v.push(2, 5);
    v.push(3, 0);
    for _ in 0..50 {
        assert_eq!(v.get_random_index(), Some(1));
    }
}

#[test]
fn empty_weighted_vec_yields_nothing() {
    let v: WeightedVec<u16> = WeightedVec::new();
    assert_eq!(v.get_random_index(), None);
    assert!(v.get_random().is_none());
}

#[test]
fn uniform_palette_entry_is_frozen_at_build() {
    let mut map = BlockCollectionMap::new();
    map.add(
        String::from("concrete"),
        collection(&[(11, 1), (12, 1), (13, 1)], true),
    );
    let built = map.build().unwrap();
    let name = String::from("concrete");
    let first = built.get_block(&name).unwrap();
    for _ in 0..100 {
        assert_eq!(built.get_block(&name).unwrap(), first);
    }
}

#[test]
fn non_uniform_palette_entry_varies() {
    let mut map = BlockCollectionMap::new();
    map.add(
        String::from("concrete"),
        collection(&[(11, 1), (12, 1), (13, 1)], false),
    );
    let built = map.build().unwrap();
    let name = String::from("concrete");
    let mut seen = std::collections::HashSet::new();
    for _ in 0..100 {
        seen.insert(built.get_block(&name).unwrap());
    }
    assert!(seen.len() >= 2);
}

#[test]
fn missing_palette_entry_is_a_lookup_error() {
    let mut map = BlockCollectionMap::new();
    map.add(String::from("stone"), collection(&[(5, 1)], false));
    let built = map.build().unwrap();
    let absent = String::from("granite");
    assert_eq!(
        built.get_block(&absent),
        Err(GenerationError::PaletteLookup)
    );
    assert_eq!(built.get_block_opt(&absent), None);
}

#[test]
fn zero_weight_uniform_entry_fails_the_build() {
    let mut map = BlockCollectionMap::new();
    map.add(String::from("void"), collection(&[(5, 0)], true));
    assert_eq!(map.build().unwrap_err(), GenerationError::EmptyCollection);
}

#[test]
fn zero_weight_non_uniform_entry_is_an_empty_collection() {
    // A present entry that no weighted draw can serve fails as an
    // empty collection, not as a missing name.
    let mut map = BlockCollectionMap::new();
    map.add(String::from("void"), collection(&[(5, 0)], false));
    let built = map.build().unwrap();
    let name = String::from("void");
    assert_eq!(built.get_block(&name), Err(GenerationError::EmptyCollection));
}

#[test]
fn adding_a_name_twice_replaces_the_first_binding() {
    let mut map = BlockCollectionMap::new();
    map.add(String::from("a"), collection(&[(1, 1)], true));
    map.add(String::from("a"), collection(&[(2, 1)], true));
    let built = map.build().unwrap();
    let name = String::from("a");
    assert_eq!(built.get_block(&name).unwrap(), 2);
}

#[test]
fn air_is_the_empty_identifier() {
    assert_eq!(AIR, 0);
}

#[test]
fn prediction_reaches_a_close_block_and_not_an_unreachable_one() {
    // A block straight ahead at the same height is reachable.
    let from = Vec3Fx::new(0, 101_000, 500);
    assert!(prediction_can_reach(from, BlockPos::new(0, 100, 2)));
    // A block far above the jump's apex is not.
    assert!(!prediction_can_reach(from, BlockPos::new(0, 150, 2)));
}
