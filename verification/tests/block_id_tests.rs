use bloksel::block::{
    generate_texture_name, Block, BlockError, BlockFacing, BlockId, BlockOrientation, ConnectedDirections,
    SubBlock,
};

#[test]
fn block_id_text_round_trips() {
    for id in [
        BlockId::new(7),
        BlockId::with_variation(12, 3),
        BlockId::with_color(5, 9),
        BlockId { base_id: 4_000_000_000, variation: 65535, color_id: 1 },
        BlockId::air(),
    ] {
        let text = id.to_string();
        assert_eq!(BlockId::from_str(&text).unwrap(), id);
    }
}

#[test]
fn block_id_text_forms() {
    assert_eq!(BlockId::new(7).to_string(), "7");
    assert_eq!(BlockId::with_variation(12, 3).to_string(), "12:3");
    assert_eq!(BlockId::with_color(5, 9).to_string(), "5:0:C9");
}

#[test]
fn block_id_parts_in_any_order() {
    assert_eq!(
        BlockId::from_str("5:C9:2").unwrap(),
        BlockId { base_id: 5, variation: 2, color_id: 9 }
    );
    assert_eq!(
        BlockId::from_str("5:1:2").unwrap(),
        BlockId { base_id: 5, variation: 2, color_id: 0 }
    );
    assert_eq!(BlockId::from_str("+8").unwrap(), BlockId::new(8));
}

#[test]
fn malformed_block_ids_are_refused() {
    for text in ["", "x", "1:", "1:C", "1:Cx", "4294967296", "1:65536", "1:C65536", "-1"] {
        assert!(matches!(BlockId::from_str(text), Err(BlockError::InvalidIdFormat)), "{}", text);
    }
}

#[test]
fn combined_id_packs_the_parts() {
    let id = BlockId { base_id: 1, variation: 2, color_id: 3 };
    assert_eq!(id.to_combined(), (1u64 << 32) | (2u64 << 16) | 3);
    assert!(id.is_colored());
    assert!(!BlockId::new(1).is_colored());
}

#[test]
fn facings_have_opposites() {
    assert_eq!(BlockFacing::North.opposite(), BlockFacing::South);
    assert_eq!(BlockFacing::Up.opposite(), BlockFacing::Down);
    assert_eq!(BlockFacing::East.opposite().opposite(), BlockFacing::East);
    assert_eq!(BlockFacing::NoFacing.opposite(), BlockFacing::NoFacing);
    assert_eq!(BlockFacing::default(), BlockFacing::NoFacing);
}

#[test]
fn texture_names_join_id_and_face() {
    assert_eq!(generate_texture_name(1, BlockFacing::North), "1_north.png");
    assert_eq!(generate_texture_name(42, BlockFacing::Down), "42_down.png");
}

#[test]
fn connections_combine_as_bits() {
    let ns = ConnectedDirections::north().union(ConnectedDirections::south());
    assert_eq!(ns.bits(), 3);
    assert!(ns.contains(ConnectedDirections::north()));
    assert!(!ns.contains(ConnectedDirections::up()));
    assert_eq!(ConnectedDirections::from_bits_truncate(0xff).bits(), 0x3f);
}

#[test]
fn sub_blocks_keep_their_settings() {
    let mut sub = SubBlock::new(BlockId::new(3));
    assert_eq!(sub.facing, BlockFacing::NoFacing);
    assert!(!sub.has_connection(ConnectedDirections::east()));
    sub.update_connections(ConnectedDirections::east().union(ConnectedDirections::west()));
    assert!(sub.has_connection(ConnectedDirections::east()));
    sub.set_facing(BlockFacing::West);
    sub.set_orientation(BlockOrientation::Custom(7));
    assert_eq!(sub.facing, BlockFacing::West);
    assert!(matches!(sub.orientation, BlockOrientation::Custom(7)));
    assert_eq!(sub.id, BlockId::new(3));
}

#[test]
fn placing_sub_blocks_replaces_by_position() {
    let mut block = Block::new(BlockId::new(1), 4);
    assert_eq!(block.get_primary_id(), BlockId::new(0));
    block.place_sub_block(1, 2, 3, SubBlock::new(BlockId::new(5)));
    assert_eq!(block.get_primary_id(), BlockId::new(5));
    block.place_sub_block(1, 2, 3, SubBlock::new(BlockId::new(6)));
    assert_eq!(block.sub_blocks.len(), 1);
    assert_eq!(block.get_primary_id(), BlockId::new(6));
    block.place_sub_block(0, 0, 0, SubBlock::new(BlockId::new(7)));
    assert_eq!(block.sub_blocks.len(), 2);
    assert_eq!(block.resolution, 4);
}
