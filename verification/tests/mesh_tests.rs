use bloksel::chunk_renderer::{
    add_cube_to_mesh, add_partial_block, chunk_mesh_name, find_contiguous_blocks, plan_solid_mesh, solidify_chunk, BlockOrientation,
    BlockState, GridBlock, MeshBox,
};

fn air() -> GridBlock {
    GridBlock { id: 0, solid: false, state: BlockState::Full }
}

fn full(id: u32) -> GridBlock {
    GridBlock { id, solid: true, state: BlockState::Full }
}

fn idx(x: usize, y: usize, z: usize) -> usize {
    (x * 30 + y) * 30 + z
}

#[test]
fn a_cube_of_equal_blocks_is_one_box() {
    let mut blocks = vec![air(); 27000];
    for x in 0..2 {
        for y in 0..2 {
            for z in 0..2 {
                blocks[idx(x, y, z)] = full(1);
            }
        }
    }
    let plan = plan_solid_mesh(&blocks);
    assert_eq!(plan.boxes.len(), 1);
    let b = plan.boxes[0];
    assert_eq!((b.x, b.y, b.z, b.width, b.height, b.depth), (0, 0, 0, 2, 2, 2));
    assert!(plan.partials.is_empty());
}

#[test]
fn different_ids_make_different_boxes() {
    let mut blocks = vec![air(); 27000];
    blocks[idx(0, 0, 0)] = full(1);
    blocks[idx(1, 0, 0)] = full(2);
    blocks[idx(2, 0, 0)] = full(2);
    let plan = plan_solid_mesh(&blocks);
    assert_eq!(plan.boxes.len(), 2);
    assert_eq!(plan.boxes[0].width, 1);
    assert_eq!((plan.boxes[1].x, plan.boxes[1].width), (1, 2));
}

#[test]
fn partial_blocks_are_listed_in_order() {
    let mut blocks = vec![air(); 27000];
    blocks[idx(3, 4, 5)] = GridBlock { id: 7, solid: true, state: BlockState::Half(BlockOrientation::Up) };
    blocks[idx(1, 0, 0)] = GridBlock { id: 7, solid: true, state: BlockState::Quarter(BlockOrientation::North) };
    blocks[idx(2, 0, 0)] = GridBlock { id: 7, solid: false, state: BlockState::Half(BlockOrientation::Up) };
    let plan = plan_solid_mesh(&blocks);
    assert!(plan.boxes.is_empty());
    assert_eq!(plan.partials.len(), 2);
    assert_eq!((plan.partials[0].x, plan.partials[0].y, plan.partials[0].z), (1, 0, 0));
    assert_eq!((plan.partials[1].x, plan.partials[1].y, plan.partials[1].z), (3, 4, 5));
}

#[test]
fn every_full_block_is_in_exactly_one_box() {
    let mut blocks = vec![air(); 27000];
    for x in 0..30 {
        for y in 0..30 {
            for z in 0..30 {
                if (x * 7 + y * 3 + z) % 5 < 2 {
                    blocks[idx(x, y, z)] = full(((x + z) % 2) as u32 + 1);
                }
            }
        }
    }
    let plan = plan_solid_mesh(&blocks);
    let mut count = vec![0u32; 27000];
    for b in plan.boxes.iter() {
        for x in b.x..b.x + b.width {
            for y in b.y..b.y + b.height {
                for z in b.z..b.z + b.depth {
                    count[idx(x, y, z)] += 1;
                    assert_eq!(blocks[idx(x, y, z)].id, b.block.id);
                }
            }
        }
    }
    for i in 0..27000 {
        let expected = if blocks[i].solid { 1 } else { 0 };
        assert_eq!(count[i], expected);
    }
}

#[test]
fn growth_stops_at_visited_cells() {
    let blocks = vec![full(4); 27000];
    let mut visited = vec![false; 27000];
    visited[idx(3, 0, 0)] = true;
    let (w, h, d) = find_contiguous_blocks(&blocks, &mut visited, 0, 0, 0, full(4));
    assert_eq!((w, h, d), (3, 30, 30));
    assert!(visited[idx(2, 29, 29)]);
    assert!(!visited[idx(4, 0, 0)]);
}

#[test]
fn cube_geometry_of_a_box() {
    let b = MeshBox { x: 1, y: 2, z: 3, width: 2, height: 1, depth: 4, block: full(1) };
    let cube = add_cube_to_mesh(&b, 8);
    assert_eq!(cube.corners, [(1, 2, 3), (3, 2, 3), (3, 3, 3), (1, 3, 3), (1, 2, 7), (3, 2, 7), (3, 3, 7), (1, 3, 7)]);
    assert_eq!(&cube.indices[0..6], &[8, 9, 10, 10, 11, 8]);
    assert_eq!(&cube.indices[30..36], &[8, 9, 13, 13, 12, 8]);
}

#[test]
fn partial_block_quads() {
    // A half block facing up in cell (1, 2, 3): its quad lies half a block up.
    let q = add_partial_block(1, 2, 3, 2, BlockOrientation::Up, 4);
    assert_eq!(q.corners, [(4, 10, 12), (8, 10, 12), (8, 10, 16), (4, 10, 16)]);
    assert_eq!(q.normal, (0, 1, 0));
    assert_eq!(q.indices, [4, 5, 6, 6, 7, 4]);
    // A quarter block facing west: a quarter in from the high x side.
    let q = add_partial_block(0, 0, 0, 1, BlockOrientation::West, 0);
    assert_eq!(q.corners, [(3, 0, 0), (3, 0, 4), (3, 4, 4), (3, 4, 0)]);
    assert_eq!(q.normal, (-1, 0, 0));
}

#[test]
fn solidified_chunk_numbers_vertices_in_order() {
    let mut blocks = vec![air(); 27000];
    blocks[idx(0, 0, 0)] = full(1);
    blocks[idx(5, 5, 5)] = full(2);
    blocks[idx(9, 9, 9)] = GridBlock { id: 3, solid: true, state: BlockState::Quarter(BlockOrientation::North) };
    let mesh = solidify_chunk(&blocks);
    assert_eq!(mesh.cubes.len(), 2);
    assert_eq!(mesh.quads.len(), 1);
    assert_eq!(mesh.cubes[1].indices[0], 8);
    assert_eq!(mesh.quads[0].indices[0], 16);
    assert_eq!(mesh.quads[0].corners[0], (36, 36, 37));
}

#[test]
fn every_mesh_index_names_a_vertex() {
    let mut blocks = vec![air(); 27000];
    for x in 0..30 {
        for z in 0..30 {
            blocks[idx(x, 0, z)] = full(1 + ((x + z) % 3) as u32);
        }
    }
    blocks[idx(3, 4, 5)] = GridBlock { id: 7, solid: true, state: BlockState::Half(BlockOrientation::Up) };
    blocks[idx(29, 29, 29)] = GridBlock { id: 8, solid: true, state: BlockState::Quarter(BlockOrientation::West) };
    let mesh = solidify_chunk(&blocks);
    let vertices = 8 * mesh.cubes.len() + 4 * mesh.quads.len();
    assert_eq!(mesh.quads.len(), 2);
    let mut largest = 0u32;
    for cube in &mesh.cubes {
        for &i in cube.indices.iter() {
            assert!((i as usize) < vertices);
            largest = largest.max(i);
        }
    }
    for quad in &mesh.quads {
        for &i in quad.indices.iter() {
            assert!((i as usize) < vertices);
            largest = largest.max(i);
        }
    }
    assert_eq!(largest as usize, vertices - 1);
}

#[test]
fn chunk_meshes_are_named_by_position() {
    assert_eq!(chunk_mesh_name(0, 0), "chunk_0_0");
    assert_eq!(chunk_mesh_name(3, -7), "chunk_3_-7");
    assert_eq!(chunk_mesh_name(-120, 45), "chunk_-120_45");
    assert_eq!(chunk_mesh_name(i32::MIN, i32::MAX), "chunk_-2147483648_2147483647");
}
