use parkour_core::errors::GenerationError;
use parkour_core::generation::ChildGeneration;
use parkour_core::generator::{GenerationTheme, GenerationType, Generator};
use parkour_core::geom::{BlockPos, Vec3Fx};
use parkour_core::palette::{BlockChoice, BlockCollection, BlockCollectionMap};
use parkour_core::physics::PredictionState;
use parkour_core::session::{GameState, is_milestone, LOOKAHEAD_DEPTH};
use parkour_core::traverse::get_blocks_between;
use parkour_core::weighted::WeightedVec;

fn theme() -> GenerationTheme {
    let mut blocks: WeightedVec<u16> = WeightedVec::new();
    blocks.push(21, 1);
    blocks.push(22, 1);
    blocks.push(23, 1);
    let mut map = BlockCollectionMap::new();
    map.add(
        String::from("concrete"),
        BlockCollection(BlockChoice { blocks, uniform: true }),
    );
    let mut types: WeightedVec<GenerationType> = WeightedVec::new();
    types.push(GenerationType::Single(String::from("concrete")), 100);
    GenerationTheme::new(String::from("standard"), map, types)
}

fn spawn() -> BlockPos {
    BlockPos::new(0, 100, 0)
}

fn spawn_top() -> Vec3Fx {
    Vec3Fx::new(500, 101_000, 500)
}

fn fresh_session() -> GameState {
    let mut state = GameState::new(theme(), spawn_top()).unwrap();
    let (_, r) = state.reset(spawn());
    r.unwrap();
    state
}

/// The continuous position standing on top of a segment's anchor block.
fn on_top_of(b: BlockPos) -> Vec3Fx {
    Vec3Fx::new(
        (b.x as i64) * 1000 + 500,
        (b.y as i64) * 1000 + 1000,
        (b.z as i64) * 1000 + 500,
    )
}

#[test]
fn reset_fills_the_queue_to_the_lookahead_depth() {
    let state = fresh_session();
    assert_eq!(state.generations.len(), LOOKAHEAD_DEPTH);
    assert_eq!(state.score, 0);
    assert_eq!(state.combo, 0);
}

#[test]
fn reset_places_the_first_segment_at_the_spawn_anchor() {
    let state = fresh_session();
    assert_eq!(state.generations[0].offset, spawn());
}

#[test]
fn a_tick_away_from_the_course_changes_nothing() {
    let mut state = fresh_session();
    let out = state.on_tick(Vec3Fx::new(500_000, 500_000, 500_000)).unwrap();
    assert_eq!(out.scored, 0);
    assert!(out.writes.is_empty());
    assert_eq!(state.generations.len(), LOOKAHEAD_DEPTH);
    assert_eq!(state.score, 0);
}

#[test]
fn advancing_to_the_next_segment_scores_and_restores_the_queue() {
    let mut state = fresh_session();
    let target = state.generations[1].offset;
    let out = state.on_tick(on_top_of(target)).unwrap();
    assert_eq!(out.scored, 1);
    assert_eq!(state.score, 1);
    assert_eq!(state.combo, 1);
    assert_eq!(state.generations.len(), LOOKAHEAD_DEPTH);
    assert!(!out.writes.is_empty());
    // The old front was unplaced and the landed segment is now first.
    assert_eq!(state.generations[0].offset, target);
}

#[test]
fn skipping_segments_scores_one_per_segment_passed() {
    let mut state = fresh_session();
    let target = state.generations[3].offset;
    let out = state.on_tick(on_top_of(target)).unwrap();
    assert_eq!(out.scored, 3);
    assert_eq!(state.score, 3);
    assert_eq!(state.generations.len(), LOOKAHEAD_DEPTH);
    assert_eq!(state.generations[0].offset, target);
}

#[test]
fn child_scoring_on_the_front_segment_keeps_the_queue() {
    let mut state = fresh_session();
    let front_off = state.generations[0].offset;
    state.generations[0]
        .children
        .push(ChildGeneration::new(vec![(BlockPos::new(0, 0, -3), 7u16)], Vec::new()));
    let pos = on_top_of(BlockPos::new(front_off.x, front_off.y, front_off.z - 3));
    let out = state.on_tick(pos).unwrap();
    assert_eq!(out.scored, 1);
    assert_eq!(state.score, 1);
    assert_eq!(state.combo, 1);
    assert_eq!(state.generations.len(), LOOKAHEAD_DEPTH);
    assert!(state.generations[0].children[0].reached);
    assert!(out.writes.is_empty());
}

#[test]
fn child_scoring_after_a_sprint_stop_breaks_the_combo() {
    let mut state = fresh_session();
    let front_off = state.generations[0].offset;
    state.generations[0]
        .children
        .push(ChildGeneration::new(vec![(BlockPos::new(0, 0, -3), 7u16)], Vec::new()));
    state.combo = 5;
    state.score = 5;
    state.on_sprint_stop();
    let pos = on_top_of(BlockPos::new(front_off.x, front_off.y, front_off.z - 3));
    let out = state.on_tick(pos).unwrap();
    assert_eq!(out.scored, 1);
    assert_eq!(state.score, 6);
    assert_eq!(state.combo, 0);
    assert_eq!(out.sound_combo, Some(0));
}

#[test]
fn combo_breaks_when_the_player_stopped_running() {
    let mut state = fresh_session();
    state.combo = 9;
    state.score = 9;
    state.on_sprint_stop();
    state.apply_score(4);
    assert_eq!(state.combo, 0);
    assert_eq!(state.score, 13);
}

#[test]
fn combo_rises_with_score_while_running() {
    let mut state = fresh_session();
    state.apply_score(4);
    assert_eq!(state.combo, 4);
    assert_eq!(state.score, 4);
}

#[test]
fn generation_resets_the_sprint_stop_flag() {
    let mut state = fresh_session();
    state.on_sprint_stop();
    assert!(state.stopped_running);
    state.generate_next().unwrap();
    assert!(!state.stopped_running);
}

#[test]
fn disconnect_clears_the_queue_and_returns_removals() {
    let mut state = fresh_session();
    let writes = state.on_disconnect();
    assert_eq!(state.generations.len(), 0);
    assert_eq!(writes.len(), LOOKAHEAD_DEPTH);
    assert!(writes.iter().all(|w| w.block == 0));
}

#[test]
fn an_empty_type_table_fails_generation() {
    let mut blocks: WeightedVec<u16> = WeightedVec::new();
    blocks.push(21, 1);
    let mut map = BlockCollectionMap::new();
    map.add(
        String::from("concrete"),
        BlockCollection(BlockChoice { blocks, uniform: false }),
    );
    let mut types: WeightedVec<GenerationType> = WeightedVec::new();
    types.push(GenerationType::Single(String::from("concrete")), 0);
    let t = GenerationTheme::new(String::from("empty"), map, types);
    let built = t.block_map.build().unwrap();
    let g = Generator::first_in_generation(spawn(), &t, &built).unwrap();
    let err = Generator::next_in_generation(
        parkour_core::utils::JumpDirection::DoesntMatter,
        &t,
        &built,
        &g,
    )
    .unwrap_err();
    assert_eq!(err, GenerationError::EmptyCollection);
}

#[test]
fn a_type_naming_a_missing_entry_fails_generation() {
    let mut blocks: WeightedVec<u16> = WeightedVec::new();
    blocks.push(21, 1);
    let mut map = BlockCollectionMap::new();
    map.add(
        String::from("concrete"),
        BlockCollection(BlockChoice { blocks, uniform: false }),
    );
    let mut types: WeightedVec<GenerationType> = WeightedVec::new();
    types.push(GenerationType::Single(String::from("granite")), 100);
    let t = GenerationTheme::new(String::from("broken"), map, types);
    let built = t.block_map.build().unwrap();
    let err = Generator::first_in_generation(spawn(), &t, &built).unwrap_err();
    assert_eq!(err, GenerationError::PaletteLookup);
}

#[test]
fn an_out_of_range_end_state_reports_divergence() {
    let mut state = fresh_session();
    let n = state.generations.len();
    state.generations[n - 1].end_state =
        PredictionState::new(Vec3Fx::new(0, 0, 0), Vec3Fx::new(0, 999_999, 0), 0);
    let err = state.generate_next().unwrap_err();
    assert_eq!(err, GenerationError::TrajectoryDivergence);
}

#[test]
fn milestones_are_every_ten_then_seventy_five_then_every_fifty() {
    for s in [10u32, 20, 30, 40, 75, 100, 150, 200, 500] {
        assert!(is_milestone(s));
    }
    for s in [0u32, 5, 45, 50, 60, 70, 80, 99, 101, 120, 151] {
        assert!(!is_milestone(s));
    }
}

#[test]
fn generated_segments_stay_reachable_by_prediction() {
    // Every segment the generator emits was anchored by simulating the
    // previous end state, so each anchor is where that trajectory lands.
    let state = fresh_session();
    for i in 1..4 {
        let prev = &state.generations[i - 1];
        let g = &state.generations[i];
        assert!((g.offset.y as i64) <= prev.end_state.pos.y / 1000 + 1);
    }
}

#[test]
fn blocks_between_walks_unit_steps_from_start_to_end() {
    let r = get_blocks_between(Vec3Fx::new(500, 500, 500), Vec3Fx::new(3500, 500, 500));
    assert_eq!(r.first().copied(), Some(BlockPos::new(0, 0, 0)));
    assert_eq!(r.last().copied(), Some(BlockPos::new(3, 0, 0)));
    assert_eq!(r.len(), 4);
    let d = get_blocks_between(Vec3Fx::new(500, 500, 500), Vec3Fx::new(2500, 500, 2500));
    assert_eq!(d.first().copied(), Some(BlockPos::new(0, 0, 0)));
    assert_eq!(d.last().copied(), Some(BlockPos::new(2, 0, 2)));
    // One cell per unit of block distance walked, plus the start cell.
    assert_eq!(d.len(), 5);
    for w in d.windows(2) {
        let dx = (w[1].x - w[0].x).abs();
        let dy = (w[1].y - w[0].y).abs();
        let dz = (w[1].z - w[0].z).abs();
        assert_eq!(dx + dy + dz, 1);
    }
}

#[test]
fn uniform_palette_is_frozen_for_the_whole_session() {
    // The palette is built once at session creation, so every segment
    // of a run drawn from a uniform entry shares one block identifier.
    let state = fresh_session();
    let first_block = state.generations[0].blocks[0].1;
    for i in 1..state.generations.len() {
        assert_eq!(state.generations[i].blocks[0].1, first_block);
    }
}

#[test]
fn a_session_over_an_empty_uniform_entry_cannot_be_created() {
    let mut blocks: WeightedVec<u16> = WeightedVec::new();
    blocks.push(21, 0);
    let mut map = BlockCollectionMap::new();
    map.add(
        String::from("concrete"),
        BlockCollection(BlockChoice { blocks, uniform: true }),
    );
    let mut types: WeightedVec<GenerationType> = WeightedVec::new();
    types.push(GenerationType::Single(String::from("concrete")), 100);
    let t = GenerationTheme::new(String::from("void"), map, types);
    match GameState::new(t, spawn_top()) {
        Ok(_) => panic!("session creation must fail"),
        Err(e) => assert_eq!(e, GenerationError::EmptyCollection),
    }
}
