use bloksel::block::{Block, BlockId};
use bloksel::terrain_generator::{chunk_seed, BiomeType, ChunkCoord, RandomStream, TerrainGenerator, CHUNK_SIZE, SEA_LEVEL};

fn names() -> Vec<(String, BlockId)> {
    [("stone", 1), ("dirt", 2), ("grass", 3), ("sand", 4), ("water", 5), ("gravel", 6), ("snow", 7), ("log", 8), ("leaves", 9)]
        .iter()
        .map(|(n, id)| (n.to_string(), BlockId::new(*id)))
        .collect()
}

fn generator() -> TerrainGenerator {
    TerrainGenerator::new(12345, names())
}

#[test]
fn test_chunk_generation() {
    let generator = generator();
    let coord = ChunkCoord::new(0, 0, 0);
    let columns = vec![(BiomeType::Plains, 64); CHUNK_SIZE * CHUNK_SIZE];
    let caves = vec![false; CHUNK_SIZE * CHUNK_SIZE * CHUNK_SIZE];
    let chunk = generator.generate_chunk(coord, &columns, &caves);
    assert!(chunk.blocks.iter().any(|b| b.is_some()));
}

#[test]
fn chunk_coord_new_keeps_coordinates() {
    let c = ChunkCoord::new(1, -2, 3);
    assert_eq!((c.x, c.y, c.z), (1, -2, 3));
}

#[test]
fn unknown_names_fall_back_to_base_ten() {
    let g = TerrainGenerator::new(1, vec![]);
    assert_eq!(g.id_by_name("stone"), BlockId::new(10));
    assert_eq!(generator().id_by_name("grass"), BlockId::new(3));
}

#[test]
fn biomes_have_base_and_top_blocks() {
    let g = generator();
    assert_eq!(g.get_biome_blocks(BiomeType::Plains), (BlockId::new(2), BlockId::new(3)));
    assert_eq!(g.get_biome_blocks(BiomeType::Tundra), (BlockId::new(1), BlockId::new(7)));
    assert_eq!(g.get_biome_blocks(BiomeType::Desert), (BlockId::new(4), BlockId::new(4)));
    assert_eq!(g.get_biome_blocks(BiomeType::Ocean), (BlockId::new(4), BlockId::new(6)));
}

#[test]
fn column_layers_top_base_and_stone() {
    let g = generator();
    let (base, top) = g.get_biome_blocks(BiomeType::Forest);
    assert_eq!(g.get_block_for_depth(70, 70, base, top, BiomeType::Forest), top);
    assert_eq!(g.get_block_for_depth(67, 70, base, top, BiomeType::Forest), base);
    assert_eq!(g.get_block_for_depth(66, 70, base, top, BiomeType::Forest), BlockId::new(1));
    assert_eq!(g.get_block_for_depth(SEA_LEVEL - 8, SEA_LEVEL - 8, base, top, BiomeType::Ocean), BlockId::new(1));
}

#[test]
fn cells_above_the_surface_are_air_except_ocean_water() {
    let g = generator();
    assert_eq!(g.cell_block_id(80, 70, BiomeType::Plains, false), BlockId::air());
    assert_eq!(g.cell_block_id(60, 50, BiomeType::Ocean, false), BlockId::new(5));
    assert_eq!(g.cell_block_id(63, 50, BiomeType::Ocean, false), BlockId::air());
    assert_eq!(g.cell_block_id(40, 50, BiomeType::Plains, true), BlockId::air());
    assert_eq!(g.cell_block_id(50, 50, BiomeType::Ocean, true), BlockId::new(5));
}

#[test]
fn generated_columns_follow_the_rule() {
    let g = generator();
    let coord = ChunkCoord::new(0, 2, 0);
    let columns = vec![(BiomeType::Desert, 70); CHUNK_SIZE * CHUNK_SIZE];
    let caves = vec![false; CHUNK_SIZE * CHUNK_SIZE * CHUNK_SIZE];
    let chunk = g.generate_chunk(coord, &columns, &caves);
    let at = |x: usize, y: usize, z: usize| &chunk.blocks[(x * CHUNK_SIZE + y) * CHUNK_SIZE + z];
    // world y = 64 + y; the surface is at 70
    assert!(at(0, 6, 0).is_some());
    assert!(at(0, 7, 0).is_none());
    assert!(at(31, 0, 31).is_some());
    assert_eq!(chunk.blocks.len(), CHUNK_SIZE * CHUNK_SIZE * CHUNK_SIZE);
}

#[test]
fn trees_have_a_trunk_and_a_crown() {
    let g = generator();
    let tree = g.generate_tree((0, 10, 0));
    // height 4: trunk y 10..14, crown centred at y 12
    let has = |p: (i32, i32, i32)| tree.iter().any(|(q, _)| *q == p);
    assert!(has((0, 10, 0)));
    assert!(has((0, 13, 0)));
    assert!(has((2, 12, 0)));
    assert!(has((1, 13, 1)));
    assert!(!has((2, 13, 0)));
    assert!(!has((0, 14, 0)));
    let mut positions: Vec<_> = tree.iter().map(|(p, _)| *p).collect();
    let n = positions.len();
    positions.sort();
    positions.dedup();
    assert_eq!(positions.len(), n);
    // the trunk cell below the crown, and the 31 crown cells
    assert_eq!(n, 32);
}

#[test]
fn tree_height_follows_base_x() {
    let g = generator();
    let tall = g.generate_tree((2, 0, 0));
    assert!(tall.iter().any(|(p, _)| *p == (2, 5, 0)));
    assert!(!tall.iter().any(|(p, _)| *p == (2, 6, 0)));
}

#[test]
fn strata_draws_place_deposits() {
    let mut ids = names();
    ids.push(("coal_ore".to_string(), BlockId::new(20)));
    ids.push(("gold_ore".to_string(), BlockId::new(22)));
    let gen = TerrainGenerator::new(1, ids);
    let deep = SEA_LEVEL - 20;
    // Roll 3 is coal ore; a repeated cell holds one deposit.
    let mut block = Block::new(BlockId::new(1), 4);
    gen.place_strata(&mut block, deep, true, 3, &vec![(1, 1, 1), (2, 0, 3), (1, 1, 1)]);
    assert_eq!(block.sub_blocks.len(), 2);
    assert!(block.sub_blocks.iter().all(|(_, sub)| sub.id == BlockId::new(20)));
    assert!(block.sub_blocks.iter().any(|(pos, _)| *pos == (2, 0, 3)));
    // Roll 10 is gold ore.
    let mut block = Block::new(BlockId::new(1), 4);
    gen.place_strata(&mut block, deep, true, 10, &vec![(0, 0, 0)]);
    assert_eq!(block.sub_blocks[0].1.id, BlockId::new(22));
    // No hit, or above the strata line: nothing changes.
    let mut block = Block::new(BlockId::new(1), 4);
    gen.place_strata(&mut block, deep, false, 3, &vec![(0, 0, 0)]);
    gen.place_strata(&mut block, SEA_LEVEL, true, 3, &vec![(0, 0, 0)]);
    assert!(block.sub_blocks.is_empty());
}

#[test]
fn chunk_seeds_wrap() {
    // 12345 + 341873128712 - 132897987541, as z = -1 wraps.
    assert_eq!(chunk_seed(12345, 1, -1), 208975153516);
    assert_eq!(chunk_seed(7, -3, 2), 18446743313886140569);
    assert_eq!(chunk_seed(5, 0, 0), 5);
}

fn sub_ids(chunk: &bloksel::terrain_generator::Chunk) -> Vec<Option<Vec<((u8, u8, u8), BlockId)>>> {
    chunk
        .blocks
        .iter()
        .map(|cell| {
            cell.as_ref().map(|b| {
                let mut v: Vec<((u8, u8, u8), BlockId)> = b.sub_blocks.iter().map(|(p, s)| (*p, s.id)).collect();
                v.sort_by_key(|e| e.0);
                v
            })
        })
        .collect()
}

#[test]
fn generation_is_deterministic() {
    let g = generator();
    let coord = ChunkCoord::new(2, 0, -5);
    let columns = vec![(BiomeType::Forest, 40); CHUNK_SIZE * CHUNK_SIZE];
    let caves = vec![false; CHUNK_SIZE * CHUNK_SIZE * CHUNK_SIZE];
    let a = g.generate_chunk(coord, &columns, &caves);
    let b = g.generate_chunk(coord, &columns, &caves);
    assert_eq!(sub_ids(&a), sub_ids(&b));
    // Deep stone below the strata line gets deposits in some cells.
    assert!(a.blocks.iter().any(|c| c.as_ref().map_or(false, |blk| !blk.sub_blocks.is_empty())));
}

#[test]
fn swamp_water_always_gets_a_water_cell() {
    let g = generator();
    let mut stream = RandomStream::new(99);
    for _ in 0..20 {
        let block = g.create_block(BlockId::new(5), BiomeType::Swamp, &mut stream);
        assert_eq!(block.sub_blocks.len(), 1);
        assert_eq!(block.sub_blocks[0].1.id, BlockId::new(5));
    }
    let plain = g.create_block(BlockId::new(2), BiomeType::Plains, &mut stream);
    assert!(plain.sub_blocks.is_empty());
}
