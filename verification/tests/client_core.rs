use cobble::block::{BlockId, AIR, GRASS, STONE};
use cobble::chunk::{Chunk, MAX_LIGHT};
use cobble::chunk_column::{ChunkColumn, WORLD_HEIGHT};
use cobble::physics::{solid_blocks_in, Axis};
use cobble::connection::{apply_event, EventOutcome, GameEvent};
use cobble::world::World;

#[test]
fn a_freshly_allocated_chunks_light_is_unset_zero_in_bounds() {
    let chunk = Chunk::empty();
    assert_eq!(chunk.block_light(1, 2, 3), 0);
    assert_eq!(chunk.sky_light(1, 2, 3), 0);
}

#[test]
fn out_of_bounds_sky_light_defaults_to_max_even_within_a_real_chunk() {
    let chunk = Chunk::empty();
    assert_eq!(chunk.sky_light(99, 0, 0), MAX_LIGHT);
}

#[test]
fn set_and_get_light_round_trips() {
    let mut chunk = Chunk::empty();
    chunk.set_block_light(1, 2, 3, 7);
    chunk.set_sky_light(1, 2, 3, 4);
    assert_eq!(chunk.block_light(1, 2, 3), 7);
    assert_eq!(chunk.sky_light(1, 2, 3), 4);
    assert_eq!(chunk.block_light(1, 2, 4), 0);
}

#[test]
fn light_levels_are_clamped_to_max_light() {
    let mut chunk = Chunk::empty();
    chunk.set_block_light(0, 0, 0, 200);
    assert_eq!(chunk.block_light(0, 0, 0), MAX_LIGHT);
}

#[test]
fn out_of_bounds_light_queries_use_the_same_defaults() {
    let chunk = Chunk::empty();
    assert_eq!(chunk.block_light(99, 0, 0), 0);
    assert_eq!(chunk.sky_light(99, 0, 0), MAX_LIGHT);
}

#[test]
fn hardcoded_demo_is_lit_as_full_outdoor_daylight() {
    let chunk = Chunk::hardcoded_demo();
    assert_eq!(chunk.sky_light(0, 0, 0), MAX_LIGHT);
    assert_eq!(chunk.sky_light(15, 15, 15), MAX_LIGHT);
    assert_eq!(chunk.block_light(8, 8, 8), 0);
}

#[test]
fn missing_section_defaults_to_open_sky_light() {
    let column = ChunkColumn::empty(0, 0);
    assert_eq!(column.get_light(0, 80, 0), (0, MAX_LIGHT));
}

#[test]
fn present_section_returns_its_actual_light_values() {
    let mut column = ChunkColumn::empty(0, 0);
    column.set_block_light(1, 20, 1, 12);
    column.set_sky_light(1, 20, 1, 3);
    assert_eq!(column.get_light(1, 20, 1), (12, 3));
}

#[test]
fn beyond_world_height_defaults_to_open_sky_light() {
    let column = ChunkColumn::empty(0, 0);
    assert_eq!(column.get_light(0, WORLD_HEIGHT, 0), (0, MAX_LIGHT));
}

#[test]
fn only_air_is_transparent() {
    assert!(BlockId(AIR).is_air());
    assert!(!BlockId(AIR).is_opaque());
    assert!(BlockId(STONE).is_opaque());
    assert!(BlockId(9999).is_opaque());
}

#[test]
fn chunk_set_then_get_returns_the_block_and_leaves_neighbors() {
    let mut chunk = Chunk::empty();
    chunk.set(3, 4, 5, BlockId(STONE));
    assert_eq!(chunk.get(3, 4, 5), BlockId(STONE));
    assert_eq!(chunk.get(3, 4, 6), BlockId(AIR));
    assert_eq!(chunk.get(16, 0, 0), BlockId(AIR));
}

#[test]
fn hardcoded_demo_has_bedrock_floor_and_grass_top() {
    let chunk = Chunk::hardcoded_demo();
    assert_eq!(chunk.get(0, 0, 0), BlockId(7));
    assert_eq!(chunk.get(10, 7, 10), BlockId(GRASS));
    assert_eq!(chunk.get(1, 7, 1), BlockId(12));
    assert_eq!(chunk.get(8, 9, 8), BlockId(17));
}

#[test]
fn column_set_block_allocates_its_section() {
    let mut column = ChunkColumn::empty(2, -3);
    assert!(column.section(4).is_none());
    column.set_block(1, 70, 2, BlockId(STONE));
    assert!(column.section(4).is_some());
    assert_eq!(column.get_block(1, 70, 2), BlockId(STONE));
    assert_eq!(column.get_block(1, 71, 2), BlockId(AIR));
    assert_eq!(column.get_block(1, 300, 2), BlockId(AIR));
}

#[test]
fn world_reads_back_a_write_across_negative_coordinates() {
    let mut world = World::new();
    world.insert_column(ChunkColumn::empty(-1, 0));
    world.set_block(-1, 64, 5, BlockId(STONE));
    assert_eq!(world.get_block(-1, 64, 5), BlockId(STONE));
    assert_eq!(world.column(-1, 0).unwrap().get_block(15, 64, 5), BlockId(STONE));
    assert_eq!(world.get_block(-1, -1, 5), BlockId(AIR));
}

#[test]
fn writes_into_unloaded_columns_are_dropped() {
    let mut world = World::new();
    world.set_block(100, 10, 100, BlockId(STONE));
    assert_eq!(world.get_block(100, 10, 100), BlockId(AIR));
    assert!(world.is_empty());
}

#[test]
fn inserting_a_column_twice_replaces_it() {
    let mut world = World::new();
    let mut first = ChunkColumn::empty(0, 0);
    first.set_block(0, 0, 0, BlockId(STONE));
    world.insert_column(first);
    world.insert_column(ChunkColumn::empty(0, 0));
    assert_eq!(world.len(), 1);
    assert_eq!(world.get_block(0, 0, 0), BlockId(AIR));
    world.remove_column(0, 0);
    assert_eq!(world.len(), 0);
    assert!(world.column(0, 0).is_none());
}

#[test]
fn unloaded_world_light_is_open_sky() {
    let world = World::new();
    assert_eq!(world.get_light(5, 5, 5), (0, MAX_LIGHT));
}

#[test]
fn axis_others_lists_the_remaining_two() {
    assert_eq!(Axis::X.others(), (Axis::Y, Axis::Z));
    assert_eq!(Axis::Y.others(), (Axis::X, Axis::Z));
    assert_eq!(Axis::Z.others(), (Axis::X, Axis::Y));
}

#[test]
fn solid_blocks_in_a_box_are_listed_x_then_y_then_z() {
    let mut world = World::new();
    let mut column = ChunkColumn::empty(0, 0);
    column.set_block(1, 0, 1, BlockId(STONE));
    column.set_block(0, 0, 1, BlockId(STONE));
    column.set_block(0, 1, 0, BlockId(STONE));
    world.insert_column(column);
    let solids = solid_blocks_in(&world, 0, 2, 0, 2, 0, 2);
    assert_eq!(solids, vec![(0, 0, 1), (0, 1, 0), (1, 0, 1)]);
    assert!(solid_blocks_in(&world, 3, 2, 0, 2, 0, 2).is_empty());
}

#[test]
fn events_that_touch_the_world_are_applied_and_the_rest_handed_back() {
    let mut world = World::new();
    let outcome = apply_event(&mut world, GameEvent::ChunkColumnLoaded(ChunkColumn::empty(-2, 3)));
    assert!(matches!(outcome, EventOutcome::WorldChanged));
    assert_eq!(world.len(), 1);
    let outcome = apply_event(&mut world, GameEvent::BlockChange { x: -20, y: 5, z: 50, block: BlockId(STONE) });
    assert!(matches!(outcome, EventOutcome::WorldChanged));
    assert_eq!(world.get_block(-20, 5, 50), BlockId(STONE));
    let outcome = apply_event(&mut world, GameEvent::ChatMessage("hi".to_string()));
    assert!(matches!(outcome, EventOutcome::Other(GameEvent::ChatMessage(ref m)) if m == "hi"));
    assert_eq!(world.len(), 1);
    let outcome = apply_event(&mut world, GameEvent::ChunkColumnUnloaded { chunk_x: -2, chunk_z: 3 });
    assert!(matches!(outcome, EventOutcome::WorldChanged));
    assert!(world.is_empty());
}

#[test]
fn columns_at_extreme_coordinates_are_kept_apart() {
    let mut world = World::new();
    let corners = [(i32::MIN, i32::MAX), (i32::MAX, i32::MIN), (i32::MIN, i32::MIN), (i32::MAX, i32::MAX), (0, -1), (-1, 0)];
    for (x, z) in corners {
        world.insert_column(ChunkColumn::empty(x, z));
    }
    assert_eq!(world.len(), corners.len());
    for (x, z) in corners {
        let c = world.column(x, z).unwrap();
        assert_eq!((c.chunk_x, c.chunk_z), (x, z));
    }
    assert_eq!(world.columns().len(), corners.len());
}
