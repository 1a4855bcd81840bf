use bloksel::voxel::block::BlockError;
use bloksel::voxel::registry::{BlockRegistry, RawBlockProperties};

fn setup_test_registry() -> BlockRegistry {
    BlockRegistry::new("textures").unwrap()
}

#[test]
fn test_property_lookup() {
    let registry = setup_test_registry();

    // Default stone
    assert!(registry.get_properties("1FNM1.0S").is_some());

    // Half stone variant
    assert!(registry.get_properties("1HNM1.0S").is_some());

    // Invalid ID
    assert!(registry.get_properties("XZZZ").is_none());
}

#[test]
fn test_block_creation() {
    let registry = setup_test_registry();
    let block = registry.create_block("1FNM1.0S", (0, 0, 0)).unwrap();
    assert_eq!(block.id, "1FNM1.0S");
}

#[test]
fn half_stone_is_half_height_and_not_solid() {
    let registry = setup_test_registry();
    let half = registry.get_properties("1HNM1.0S").unwrap();
    assert!(!half.is_solid);
    assert_eq!(half.collision_box, ((0, 0, 0), (1000, 500, 1000)));
    let full = registry.get_properties("1FNM1.0S").unwrap();
    assert!(full.is_solid);
    assert_eq!(full.density, 2700);
    assert_eq!(full.collision_box, ((0, 0, 0), (1000, 1000, 1000)));
}

#[test]
fn stone_texture_lies_in_texture_dir() {
    let registry = setup_test_registry();
    let full = registry.get_properties("1FNM1.0S").unwrap();
    assert_eq!(full.texture_path, "textures/stone.png");
}

#[test]
fn air_is_transparent() {
    let registry = setup_test_registry();
    let air = registry.get_properties("0").unwrap();
    assert!(air.is_transparent);
    assert!(!air.is_solid);
}

#[test]
fn unknown_block_type_is_an_error() {
    let registry = setup_test_registry();
    let r = registry.create_block("9FNM1.0S", (1, 2, 3));
    assert!(matches!(r, Err(BlockError::UnknownType)));
    assert!(registry.get_properties("").is_none());
}

#[test]
fn created_block_has_position_and_full_health() {
    let registry = setup_test_registry();
    let block = registry.create_block("1HNM1.0S", (4, 5, 6)).unwrap();
    assert_eq!(block.position, (4, 5, 6));
    assert_eq!(block.health, 1000);
    assert!(!block.properties.is_solid);
}

#[test]
fn variant_ids_are_validated() {
    let registry = setup_test_registry();
    assert!(registry.validate_variant_id("FNMS"));
    assert!(registry.validate_variant_id("HSLY"));
    assert!(!registry.validate_variant_id("XNMS"));
    assert!(!registry.validate_variant_id("FN"));
    assert!(!registry.validate_variant_id("FNMZ"));
}

#[test]
fn variant_ids_follow_the_documented_format() {
    let registry = setup_test_registry();
    assert!(registry.validate_variant_id("HNM1.0S"));
    assert!(registry.validate_variant_id("FNM1.5S"));
    assert!(registry.validate_variant_id("QUI.5C42"));
    assert!(registry.validate_variant_id("SDH12B7"));
    assert!(!registry.validate_variant_id("FNM1.0"));
    assert!(!registry.validate_variant_id("FNM1.0SX"));
    assert!(!registry.validate_variant_id("FNM1.0S1.5"));
    assert!(!registry.validate_variant_id("FNMx1.0S"));
    assert!(!registry.validate_variant_id("FXM1.0S"));
}

use bloksel::physics::material::{MaterialProperties, PhysicsMaterials};

#[test]
fn materials_are_found_by_the_name_before_the_first_dot() {
    let registry = setup_test_registry();
    let materials = PhysicsMaterials::new(&registry);
    assert_eq!(materials.get("stone.polished").unwrap().density, 2700);
    assert_eq!(materials.get("water").unwrap().viscosity, 700);
    assert!(materials.get("lava.hot").is_none());
    assert_eq!(
        materials.get_for_block("lava.hot"),
        MaterialProperties { density: 1000, friction: 500, restitution: 200, viscosity: 0, break_threshold: 15000 }
    );
    assert_eq!(materials.get_for_block("dirt").break_threshold, 10000);
}

#[test]
fn absolute_texture_paths_replace_the_texture_dir() {
    let registry = setup_test_registry();
    let raw = RawBlockProperties {
        friction: 500,
        restitution: 0,
        density: 1000,
        viscosity: 0,
        is_solid: false,
        is_liquid: false,
        is_transparent: true,
        break_time: 0,
        light_emission: 0,
        texture: "/opt/pack/glass.png".to_string(),
        collision_box: [0, 0, 0, 1000, 1000, 1000],
    };
    let props = registry.convert_properties(&raw, None).unwrap();
    assert_eq!(props.texture_path, "/opt/pack/glass.png");
}

#[test]
fn texture_dirs_ending_in_a_separator_get_no_second_one() {
    let registry = BlockRegistry::new("textures/").unwrap();
    let full = registry.get_properties("1FNM1.0S").unwrap();
    assert_eq!(full.texture_path, "textures/stone.png");
    let registry = BlockRegistry::new("").unwrap();
    let full = registry.get_properties("1FNM1.0S").unwrap();
    assert_eq!(full.texture_path, "stone.png");
}
