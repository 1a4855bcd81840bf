use bloksel::chunk_faces::fixed_layout_is_safe;
use bloksel::chunk_faces::{
    add_block_face, adjust_for_integrity, generate_mesh, get_texture_coords, load_textures, material_for, FaceBlock,
    FaceChunk, FaceColor, FaceQuad, Integrity, TextureSlot,
};

fn two_block_chunk() -> FaceChunk {
    let mut cells = vec![None; 8];
    cells[0] = Some(FaceBlock { id: 1, integrity: Integrity::Full });
    cells[4] = Some(FaceBlock { id: 2, integrity: Integrity::Full });
    FaceChunk { size: 2, cells }
}

#[test]
fn test_generate_mesh_culls_shared_faces() {
    let quads = generate_mesh(&two_block_chunk());
    assert_eq!(quads.len(), 10);
    let faces: Vec<(usize, usize)> = quads.iter().map(|q| (q.x, q.face)).collect();
    assert_eq!(faces, vec![(0, 0), (0, 2), (0, 3), (0, 4), (0, 5), (1, 1), (1, 2), (1, 3), (1, 4), (1, 5)]);
    for (i, q) in quads.iter().enumerate() {
        assert_eq!(q.base_index, 4 * i as u32);
    }
    assert_eq!(quads[5].block.id, 2);
}

#[test]
fn test_generate_mesh_empty() {
    assert!(generate_mesh(&FaceChunk { size: 3, cells: vec![None; 27] }).is_empty());
}

#[test]
fn test_add_block_face() {
    let block = FaceBlock { id: 2, integrity: Integrity::Full };
    let quad = FaceQuad { x: 1, y: 0, z: 0, face: 3, block, base_index: 8 };
    let v = add_block_face(&quad, true);
    assert_eq!(v.positions, [(4, 4, 4), (8, 4, 4), (8, 4, 0), (4, 4, 0)]);
    assert_eq!(v.normal, (0, 1, 0));
    assert_eq!(v.color, FaceColor::Top);
    assert_eq!(v.tex_coords, [(0, 0), (1, 0), (1, 1), (0, 1)]);
    assert_eq!(v.indices, [8, 9, 10, 8, 10, 11]);
    assert!(v.textured);
    let half = FaceQuad { block: FaceBlock { id: 2, integrity: Integrity::Half }, ..quad };
    let v = add_block_face(&half, false);
    assert_eq!(v.positions, [(4, 4, 4), (8, 2, 4), (8, 2, 0), (4, 2, 0)]);
    assert_eq!(v.tex_coords, [(0, 0); 4]);
    let side = FaceQuad { face: 0, ..quad };
    assert_eq!(add_block_face(&side, false).color, FaceColor::Side);
}

#[test]
fn test_adjust_for_integrity() {
    let corners = [(0, 0, 4), (0, 4, 4), (0, 4, 8), (8, 8, 8)];
    assert_eq!(adjust_for_integrity(corners, Integrity::Quarter, 4), [(0, 0, 4), (0, 4, 4), (0, 4, 8), (2, 8, 8)]);
    assert_eq!(adjust_for_integrity(corners, Integrity::Half, 1), [(0, 0, 4), (0, 4, 2), (0, 4, 4), (8, 8, 4)]);
    assert_eq!(adjust_for_integrity(corners, Integrity::Special, 1), corners);
}

#[test]
fn test_texture_coords_and_materials() {
    assert_eq!(get_texture_coords(3, 5), [(0, 0), (1, 0), (1, 1), (0, 1)]);
    assert_eq!(get_texture_coords(3, 6), [(0, 0); 4]);
    let known = vec![1, 2, 3, 4];
    assert_eq!(material_for(&known, 3), 3);
    assert_eq!(material_for(&known, 9), 1);
}

#[test]
fn test_load_textures() {
    let items = vec![(1, Some((512, 512))), (2, None), (3, Some((600, 100))), (4, Some((100, 600)))];
    let packing = load_textures(&items);
    assert!(packing.full);
    assert_eq!(
        packing.slots,
        vec![
            TextureSlot { block_id: 1, loaded: true, x: 0, y: 0, width: 512, height: 512 },
            TextureSlot { block_id: 2, loaded: false, x: 0, y: 0, width: 0, height: 0 },
            TextureSlot { block_id: 3, loaded: true, x: 0, y: 512, width: 600, height: 100 },
        ]
    );
    let small = load_textures(&vec![(1, Some((16, 16))), (2, Some((16, 8)))]);
    assert!(!small.full);
    assert_eq!(small.slots[1], TextureSlot { block_id: 2, loaded: true, x: 16, y: 0, width: 16, height: 8 });
}

#[test]
fn test_fixed_layout_is_safe() {
    assert!(fixed_layout_is_safe(&vec![(1, Some((512, 512))), (2, None), (3, Some((600, 100))), (4, Some((100, 600)))]));
    assert!(!fixed_layout_is_safe(&vec![(1, Some((2000, 10)))]));
    assert!(fixed_layout_is_safe(&vec![(1, Some((10, 2000)))]));
}
