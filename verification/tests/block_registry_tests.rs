use bloksel::block::{BlockCategory, BlockFacing, BlockId, BlockOrientation};
use bloksel::block_registry::{BlockDefinition, BlockFlags, BlockRegistry, BlockVariant, ColorVariant};

fn flags() -> BlockFlags {
    BlockFlags {
        transparent: false,
        emissive: false,
        flammable: false,
        conductive: false,
        magnetic: false,
        liquid: false,
        climbable: false,
        occludes: true,
        solid: true,
    }
}

fn wool() -> BlockDefinition {
    BlockDefinition {
        id: BlockId::new(5),
        name: "wool".to_string(),
        category: BlockCategory::Decorative,
        default_facing: BlockFacing::NoFacing,
        default_orientation: BlockOrientation::Wall,
        connects_to: vec![],
        texture_faces: vec![(BlockFacing::Up, "wool.png".to_string())],
        flags: flags(),
        variations: vec![BlockVariant {
            id: 1,
            name: "striped wool".to_string(),
            texture_overrides: vec![(BlockFacing::Up, "striped.png".to_string())],
        }],
        color_variations: vec![ColorVariant { id: 2, name: "red".to_string(), color: [1000, 0, 0, 1000] }],
    }
}

#[test]
fn default_registry_has_stone_and_grass() {
    let r = BlockRegistry::initialize_default();
    assert_eq!(r.get(BlockId::new(1)).unwrap().name, "stone");
    assert_eq!(r.get_by_name("grass").unwrap().id, BlockId::new(2));
    assert!(r.get(BlockId::new(3)).is_none());
    assert!(r.get_by_name("dirt").is_none());
    let stone = r.get_base(1).unwrap();
    assert_eq!(stone.texture_faces[0], (BlockFacing::North, "1_north.png".to_string()));
    assert_eq!(stone.texture_faces.len(), 6);
}

#[test]
fn variations_and_colors_get_their_own_definitions() {
    let mut r = BlockRegistry::new();
    r.add_block(wool());
    let striped = r.get(BlockId::with_variation(5, 1)).unwrap();
    assert_eq!(striped.name, "striped wool");
    assert_eq!(striped.texture_faces.last().unwrap().1, "striped.png");
    let red = r.get(BlockId::with_color(5, 2)).unwrap();
    assert_eq!(red.name, "wool red");
    assert_eq!(r.get_variant(BlockId::with_variation(5, 1)).unwrap().name, "striped wool");
    assert_eq!(r.get_color_variant(BlockId::with_color(5, 2)).unwrap().color, [1000, 0, 0, 1000]);
    assert!(r.get_variant(BlockId::new(5)).is_none());
    assert!(r.get_by_name("striped wool").is_none());
}

#[test]
fn palettes_add_numbered_colors() {
    let mut r = BlockRegistry::new();
    r.add_block(wool());
    let palette = vec![([0, 0, 1000, 1000], "blue".to_string()), ([0, 1000, 0, 1000], "green".to_string())];
    r.add_color_palette(5, &palette);
    let blue = r.get(BlockId::with_color(5, 1)).unwrap();
    assert_eq!(blue.name, "wool blue");
    assert_eq!(blue.color_variations.len(), 2);
    assert_eq!(r.get(BlockId::with_color(5, 2)).unwrap().name, "wool green");
    // the green definition keeps wool's own color 2 (red) first, which the
    // color lookup finds
    let colors = r.get_all_colors(5);
    assert_eq!(colors, vec![(BlockId::with_color(5, 1), [0, 0, 1000, 1000]), (BlockId::with_color(5, 2), [1000, 0, 0, 1000])]);
}

#[test]
fn palette_for_an_unknown_base_changes_nothing() {
    let mut r = BlockRegistry::new();
    r.add_color_palette(9, &vec![([0, 0, 0, 0], "black".to_string())]);
    assert!(r.get(BlockId::with_color(9, 1)).is_none());
    assert!(r.get_all_colors(9).is_empty());
}
