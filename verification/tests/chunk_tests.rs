use bloksel::voxel::block::{Block, BlockProperties, Chunk, ChunkError};

fn stone(x: i32, y: i32, z: i32) -> Block {
    Block::new(
        "1FNM1.0S".to_string(),
        (x, y, z),
        BlockProperties {
            friction: 600,
            restitution: 100,
            density: 2700,
            viscosity: 0,
            is_solid: true,
            is_liquid: false,
            is_transparent: false,
            break_time: 1500,
            light_emission: 0,
            texture_path: "stone.png".to_string(),
            collision_box: ((0, 0, 0), (1000, 1000, 1000)),
        },
    )
    .unwrap()
}

#[test]
fn new_chunk_is_empty_and_dirty() {
    let chunk = Chunk::new(3, -4);
    assert!(chunk.is_empty());
    assert!(chunk.is_dirty());
    assert!(chunk.is_mesh_dirty());
    assert!(chunk.is_collision_dirty());
    assert_eq!(chunk.position, (3, -4));
    assert_eq!(chunk.get_height(0, 0), 0);
}

#[test]
fn set_then_get_returns_the_block_and_raises_the_height() {
    let mut chunk = Chunk::new(0, 0);
    assert!(chunk.set_block(2, 10, 3, stone(2, 10, 3)).unwrap().is_none());
    assert_eq!(chunk.get_block(2, 10, 3).unwrap().position, (2, 10, 3));
    assert_eq!(chunk.get_height(2, 3), 10);
    assert!(!chunk.is_empty());
    assert!(chunk.set_block(2, 4, 3, stone(2, 4, 3)).unwrap().is_none());
    assert_eq!(chunk.get_height(2, 3), 10);
}

#[test]
fn setting_out_of_bounds_fails() {
    let mut chunk = Chunk::new(0, 0);
    assert!(matches!(chunk.set_block(16, 0, 0, stone(16, 0, 0)), Err(ChunkError::OutOfBounds)));
    assert!(matches!(chunk.set_block(0, 256, 0, stone(0, 256, 0)), Err(ChunkError::OutOfBounds)));
    assert!(matches!(chunk.set_block(0, -1, 0, stone(0, -1, 0)), Err(ChunkError::OutOfBounds)));
    assert!(chunk.is_empty());
}

#[test]
fn removing_the_top_block_lowers_the_height() {
    let mut chunk = Chunk::new(0, 0);
    chunk.set_block(1, 5, 1, stone(1, 5, 1)).unwrap();
    chunk.set_block(1, 9, 1, stone(1, 9, 1)).unwrap();
    assert_eq!(chunk.get_height(1, 1), 9);
    let removed = chunk.remove_block(1, 9, 1).unwrap();
    assert_eq!(removed.unwrap().position, (1, 9, 1));
    assert_eq!(chunk.get_height(1, 1), 5);
    assert!(chunk.remove_block(1, 9, 1).unwrap().is_none());
}

#[test]
fn clean_marks_clear_the_flags() {
    let mut chunk = Chunk::new(0, 0);
    chunk.mark_clean();
    assert!(!chunk.is_dirty());
    chunk.mark_mesh_clean();
    assert!(!chunk.is_mesh_dirty());
    chunk.mark_collision_clean();
    assert!(!chunk.is_collision_dirty());
    chunk.set_block(0, 0, 0, stone(0, 0, 0)).unwrap();
    assert!(chunk.is_dirty());
}

#[test]
fn light_is_stored_per_cell() {
    let mut chunk = Chunk::new(0, 0);
    chunk.set_light(4, 100, 4, 12);
    assert_eq!(chunk.get_light(4, 100, 4), 12);
    assert_eq!(chunk.get_light(4, 101, 4), 0);
}
