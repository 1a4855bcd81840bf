use bloksel::render::pipeline::pack_is_safe;
use bloksel::render::pipeline::{add_face, face_frame, pack_textures, AtlasSlot, MAX_ATLAS_SIZE};

#[test]
fn test_pack_textures_grows() {
    let packing = pack_textures(&vec![(1, 8, 8), (2, 8, 8)]);
    assert_eq!(
        packing.slots,
        vec![
            AtlasSlot { block_id: 1, x: 2, y: 2, width: 8, height: 8, atlas_size: 16 },
            AtlasSlot { block_id: 2, x: 2, y: 2, width: 8, height: 8, atlas_size: 32 },
        ]
    );
    assert_eq!(packing.atlas_size, 32);
    assert!(!packing.full);
}

#[test]
fn test_pack_textures_rows() {
    let packing = pack_textures(&vec![(1, 4, 4), (2, 6, 6), (3, 4, 3)]);
    // The second texture ends at 8 + 6 + 2 = 16, leaving no room for padding:
    // the next row starts at 2 + 6 + 2.
    assert_eq!(packing.slots[0], AtlasSlot { block_id: 1, x: 2, y: 2, width: 4, height: 4, atlas_size: 16 });
    assert_eq!(packing.slots[1], AtlasSlot { block_id: 2, x: 8, y: 2, width: 6, height: 6, atlas_size: 16 });
    assert_eq!(packing.slots[2], AtlasSlot { block_id: 3, x: 2, y: 10, width: 4, height: 3, atlas_size: 16 });
    assert_eq!(packing.atlas_size, 16);
    // A texture that does not fit the rest of the row grows the atlas instead.
    let grown = pack_textures(&vec![(1, 4, 4), (2, 4, 6), (3, 4, 3)]);
    assert_eq!(grown.slots[2], AtlasSlot { block_id: 3, x: 2, y: 2, width: 4, height: 3, atlas_size: 32 });
}

#[test]
fn test_pack_textures_full() {
    let widths = [13u32, 29, 61, 125, 253, 509, 1021, 2045];
    let items: Vec<(u16, u32, u32)> = widths.iter().enumerate().map(|(i, w)| (i as u16, *w, 1)).collect();
    let packing = pack_textures(&items);
    assert!(packing.full);
    assert_eq!(packing.slots.len(), 7);
    assert_eq!(packing.atlas_size, MAX_ATLAS_SIZE);
    assert_eq!(packing.slots[6].atlas_size, 2048);
}

#[test]
fn test_add_face() {
    let plan = add_face(0, 0);
    assert_eq!(plan.indices, [4, 5, 6, 6, 7, 4]);
    assert_eq!(plan.vertex_len, 160);
    assert_eq!(plan.frame.normal, (-1, 0, 0));
    let plan = add_face(160, 3);
    assert_eq!(plan.indices, [13, 14, 15, 15, 16, 13]);
    assert_eq!(plan.frame.corners, [(0, 1, 1), (1, 1, 1), (1, 1, 0), (0, 1, 0)]);
    assert_eq!(face_frame(5).tangent, (1, 0, 0));
}

#[test]
fn test_pack_is_safe() {
    assert!(pack_is_safe(&vec![(1, 8, 8), (2, 8, 8)]));
    assert!(pack_is_safe(&vec![]));
    // A texture larger than the grown atlas would be written out of bounds.
    assert!(!pack_is_safe(&vec![(1, 3000, 3000)]));
    // An empty texture writes no pixel.
    assert!(pack_is_safe(&vec![(1, 3000, 0)]));
}

#[test]
fn test_texture_handle() {
    let texture = bloksel::render::texture::Texture::from_parts(7, 64, 32);
    assert_eq!(texture.id(), 7);
}
