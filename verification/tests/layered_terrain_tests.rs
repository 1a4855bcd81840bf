use bloksel::terrain::generator::TerrainGenerator;
use bloksel::voxel::registry::{BlockRegistry, RawBlockDefinition, RawBlockProperties};

fn transparent(base: &str) -> RawBlockDefinition {
    RawBlockDefinition {
        base_id: base.to_string(),
        default_properties: RawBlockProperties {
            friction: 500,
            restitution: 0,
            density: 1500,
            viscosity: 0,
            is_solid: true,
            is_liquid: false,
            is_transparent: true,
            break_time: 500,
            light_emission: 0,
            texture: "none.png".to_string(),
            collision_box: [0, 0, 0, 1000, 1000, 1000],
        },
        variants: None,
    }
}

fn registry() -> BlockRegistry {
    let mut r = BlockRegistry::new("textures").unwrap();
    r.load_block_definition(transparent("2")).unwrap();
    r.load_block_definition(transparent("3")).unwrap();
    r
}

#[test]
fn layered_columns_stack_grass_dirt_and_stone() {
    let registry = registry();
    let g = TerrainGenerator::new(7);
    let heights = vec![60; 256];
    let mut slopes = vec![false; 256];
    slopes[1] = true;
    let mut dense = vec![false; 65536];
    dense[10 * 256] = true;
    let chunk = g.generate_chunk(0, 0, &heights, &slopes, &dense, &registry);
    assert_eq!(chunk.get_block(0, 59, 0).unwrap().id, "3FNM1.0S");
    assert_eq!(chunk.get_block(0, 58, 0).unwrap().id, "2FNM1.0S");
    assert_eq!(chunk.get_block(0, 56, 0).unwrap().id, "2FNM1.0S");
    assert_eq!(chunk.get_block(0, 55, 0).unwrap().id, "1FNM1.0S");
    assert_eq!(chunk.get_block(0, 10, 0).unwrap().id, "1FNM1.5S");
    assert_eq!(chunk.get_block(0, 11, 0).unwrap().id, "1FNM1.0S");
    assert!(chunk.get_block(0, 60, 0).is_none());
    // column x = 1 lies on a slope and 1 + 0 + 59 is a multiple of 4
    assert_eq!(chunk.get_block(1, 59, 0).unwrap().id, "3HNM1.0S");
    assert_eq!(chunk.get_block(1, 59, 0).unwrap().position, (1, 59, 0));
    assert_eq!(chunk.get_height(0, 0), 59);
}

#[test]
fn layered_chunk_positions_are_world_positions() {
    let registry = registry();
    let g = TerrainGenerator::new(7);
    let heights = vec![3; 256];
    let chunk = g.generate_chunk(-1, 2, &heights, &vec![false; 256], &vec![false; 65536], &registry);
    assert_eq!(chunk.get_block(5, 2, 7).unwrap().position, (-11, 2, 39));
    assert!(chunk.get_block(5, 3, 7).is_none());
}

#[test]
fn surface_and_stone_ids() {
    let g = TerrainGenerator::new(0);
    assert_eq!(g.get_surface_block(0, 63, 1, 64, true), "3HNM1.0S");
    assert_eq!(g.get_surface_block(0, 63, 0, 64, true), "3FNM1.0S");
    assert_eq!(g.get_surface_block(0, 60, 0, 64, false), "2FNM1.0S");
    assert_eq!(g.get_surface_block(0, 59, 0, 64, false), "1FNM1.0S");
    assert_eq!(g.get_stone_block(true), "1FNM1.5S");
    assert_eq!(g.get_stone_block(false), "1FNM1.0S");
}
