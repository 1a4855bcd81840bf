use bloksel::voxel::block::{Block, BlockProperties, Chunk};
use bloksel::voxel::world::{World, WorldError};

fn test_world() -> World {
    World::new(12345, 10, 100)
}

fn test_block() -> Block {
    Block::new(
        "1FNM1.0S".to_string(),
        (0, 0, 0),
        BlockProperties {
            friction: 600,
            restitution: 100,
            density: 1000,
            viscosity: 0,
            is_solid: true,
            is_liquid: false,
            is_transparent: false,
            break_time: 1000,
            light_emission: 0,
            texture_path: "stone.png".to_string(),
            collision_box: ((0, 0, 0), (1000, 1000, 1000)),
        },
    )
    .unwrap()
}

fn empty_chunk(x: i32, z: i32) -> Chunk {
    Chunk::new(x, z)
}

#[test]
fn test_chunk_loading() {
    let mut world = test_world();
    assert!(world.load_chunk(0, 0, &empty_chunk).is_ok());
    assert!(matches!(
        world.load_chunk(0, 0, &empty_chunk),
        Err(WorldError::ChunkAlreadyLoaded)
    ));
}

#[test]
fn test_block_placement() {
    let mut world = test_world();
    world.load_chunk(0, 0, &empty_chunk).unwrap();

    let block = test_block();
    let id = block.id.clone();
    assert!(world.set_block(5, 60, 5, block).is_ok());
    assert_eq!(world.get_block(5, 60, 5).unwrap().id, id);
}

#[test]
fn test_position_conversion() {
    let world = test_world();
    let (chunk_pos, local_pos) = world.world_to_chunk_pos(35, 60, -12);
    assert_eq!(chunk_pos, (2, -1));
    assert_eq!(local_pos, (3, 60, 4));

    let world_pos = world.chunk_to_world_pos(chunk_pos, local_pos);
    assert_eq!(world_pos, (35, 60, -12));
}

#[test]
fn chunk_outside_world_is_refused() {
    let mut world = test_world();
    assert!(matches!(world.load_chunk(11, 0, &empty_chunk), Err(WorldError::OutOfBounds)));
    assert!(matches!(world.load_chunk(0, -11, &empty_chunk), Err(WorldError::OutOfBounds)));
    assert!(world.load_chunk(-10, 10, &empty_chunk).is_ok());
}

#[test]
fn block_in_unloaded_chunk_is_refused() {
    let mut world = test_world();
    assert!(matches!(world.set_block(40, 60, 40, test_block()), Err(WorldError::ChunkNotLoaded)));
    assert!(world.get_block(40, 60, 40).is_none());
}

#[test]
fn unloading_twice_fails_the_second_time() {
    let mut world = test_world();
    world.load_chunk(1, 2, &empty_chunk).unwrap();
    assert!(world.unload_chunk(1, 2).is_ok());
    assert!(matches!(world.unload_chunk(1, 2), Err(WorldError::ChunkNotLoaded)));
    assert!(world.get_chunk(1, 2).is_none());
}

#[test]
fn negative_positions_convert_with_euclidean_division() {
    let world = test_world();
    let (c, l) = world.world_to_chunk_pos(-1, 5, -16);
    assert_eq!(c, (-1, -1));
    assert_eq!(l, (15, 5, 0));
    assert_eq!(world.chunk_to_world_pos(c, l), (-1, 5, -16));
}

#[test]
fn spawn_point_is_kept() {
    let mut world = test_world();
    world.set_spawn_point((7, 80, -3));
    assert_eq!(world.get_spawn_point(), (7, 80, -3));
}

#[test]
fn loaded_chunks_are_listed() {
    let mut world = test_world();
    world.load_chunk(0, 0, &empty_chunk).unwrap();
    world.load_chunk(1, 0, &empty_chunk).unwrap();
    let loaded = world.get_loaded_chunks();
    assert_eq!(loaded.len(), 2);
    assert!(loaded.contains(&(0, 0)));
    assert!(loaded.contains(&(1, 0)));
}

use bloksel::terrain::loader::ChunkLoader;

#[test]
fn loader_keeps_the_square_around_the_center_loaded() {
    let mut world = test_world();
    let mut loader = ChunkLoader::new(1);
    loader.update((0, 64, 0), &mut world, &empty_chunk);
    assert_eq!(loader.active_chunks.len(), 9);
    assert_eq!(world.get_loaded_chunks().len(), 9);
    assert!(loader.load_queue.is_empty());
    // move two chunks east: the western column unloads, a new one loads
    loader.update((40, 64, 5), &mut world, &empty_chunk);
    assert_eq!(loader.active_chunks.len(), 9);
    let loaded = world.get_loaded_chunks();
    assert_eq!(loaded.len(), 9);
    assert!(loaded.contains(&(3, 1)));
    assert!(!loaded.contains(&(-1, 0)));
    assert!(loaded.contains(&(1, 0)));
}

#[test]
fn loader_skips_chunks_outside_the_world() {
    let mut world = World::new(1, 1, 100);
    let mut loader = ChunkLoader::new(2);
    loader.update((0, 0, 0), &mut world, &empty_chunk);
    assert_eq!(loader.active_chunks.len(), 25);
    assert_eq!(world.get_loaded_chunks().len(), 9);
}

#[test]
fn test_streaming_queues() {
    let mut world = World::new(1, 10, 100);
    world.update_chunks_around((0, 0, 0), 1);
    assert_eq!(world.process_queues(&empty_chunk), 9);
    assert_eq!(world.get_loaded_chunks().len(), 9);
    // Moving to x = 100 (chunk 6) makes every loaded chunk far; unloading
    // stops once at most half the limit is loaded, then the new square loads.
    world.update_chunks_around((100, 0, 0), 1);
    assert_eq!(world.process_queues(&empty_chunk), 10);
    let loaded = world.get_loaded_chunks();
    assert_eq!(loaded.len(), 17);
    assert!(loaded.contains(&(6, 0)));
    assert!(!loaded.contains(&(-1, -1)));
}

#[test]
fn test_recalculate_lighting() {
    let mut chunk = Chunk::new(0, 0);
    let mut glowing = test_block();
    glowing.light_level = 12;
    chunk.set_block(1, 2, 3, glowing).unwrap();
    chunk.set_light(4, 4, 4, 9);
    chunk.mark_clean();
    chunk.recalculate_lighting();
    assert_eq!(chunk.get_light(1, 2, 3), 12);
    assert_eq!(chunk.get_light(4, 4, 4), 0);
    assert!(chunk.is_dirty());
}
