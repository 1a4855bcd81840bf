//! Terrain of stacked layers over a height field: grass on top (half blocks
//! on some slopes), dirt below, then stone with denser deposits. The height
//! field and the slope and deposit fields are sampled from noise by the
//! caller and handed in per column and per cell.
use vstd::prelude::*;
use crate::voxel::block::{AMBIENT_TEMPERATURE, Block, Chunk, FULL_HEALTH, spec_in_bounds};
use crate::voxel::registry::BlockRegistry;

verus! {

/// The id of a surface-layer block at height `y` of a column whose surface
/// is at `height`: grass at the top (a half block on a slope where
/// x + z + y is a multiple of 4), dirt in the three layers below, stone
/// beneath.
pub open spec fn surface_id(wx: int, y: int, wz: int, height: int, slope: bool) -> Seq<char> {
    if y == height - 1 {
        if slope && (wx + wz + y) % 4 == 0 {
            "3HNM1.0S"@
        } else {
            "3FNM1.0S"@
        }
    } else if y >= height - 4 {
        "2FNM1.0S"@
    } else {
        "1FNM1.0S"@
    }
}

/// The id of the block at height `y` of a column: the surface layers in the
/// top five, denser stone where the deposit field says so below them, stone
/// elsewhere.
pub open spec fn layer_id(wx: int, y: int, wz: int, height: int, slope: bool, dense: bool) -> Seq<char> {
    if y >= height - 5 {
        surface_id(wx, y, wz, height, slope)
    } else if dense {
        "1FNM1.5S"@
    } else {
        "1FNM1.0S"@
    }
}

/// Whether `b` is what the registry's `create_block` makes for `id` at `pos`.
pub open spec fn made_by(registry: BlockRegistry, id: Seq<char>, pos: (i32, i32, i32), b: Block) -> bool {
    registry.lookup(id) matches Some(p) && b.id@ == id && b.position == pos && b.properties == p
        && b.health == FULL_HEALTH && b.light_level == p.light_emission && b.temperature
        == AMBIENT_TEMPERATURE && b.last_updated == 0
}

/// Whether the registry knows every id that layered terrain uses.
pub open spec fn knows_layer_ids(registry: BlockRegistry) -> bool {
    &&& registry.lookup("1FNM1.0S"@) is Some
    &&& registry.lookup("1FNM1.5S"@) is Some
    &&& registry.lookup("2FNM1.0S"@) is Some
    &&& registry.lookup("3FNM1.0S"@) is Some
    &&& registry.lookup("3HNM1.0S"@) is Some
}

/// What the cell (x, y, z) of the chunk at (cx, cz) holds after generation:
/// below the column's height, the block of its layer at its world position;
/// nothing above.
pub open spec fn layered_cell(
    registry: BlockRegistry,
    cx: int,
    cz: int,
    heights: Seq<i32>,
    slopes: Seq<bool>,
    dense: Seq<bool>,
    x: int,
    y: int,
    z: int,
    cell: Option<Block>,
) -> bool {
    let h = heights[z * 16 + x] as int;
    let wx = cx * 16 + x;
    let wz = cz * 16 + z;
    if 0 <= y < h {
        cell matches Some(b) && made_by(
            registry,
            layer_id(wx, y, wz, h, slopes[z * 16 + x], dense[y * 256 + z * 16 + x]),
            (wx as i32, y as i32, wz as i32),
            b,
        )
    } else {
        cell is None
    }
}

/// Whether the cell (a, b, c) comes before column (x0, z0) at height y0 in
/// generation order (x, then z, then y).
pub open spec fn layered_before(x0: int, z0: int, y0: int, a: int, b: int, c: int) -> bool {
    a < x0 || (a == x0 && c < z0) || (a == x0 && c == z0 && b < y0)
}

/// A chunk under generation: the cells before (x0, z0, y0) are generated,
/// the others empty.
pub open spec fn layered_progress(
    registry: BlockRegistry,
    cx: int,
    cz: int,
    heights: Seq<i32>,
    slopes: Seq<bool>,
    dense: Seq<bool>,
    chunk: Chunk,
    x0: int,
    z0: int,
    y0: int,
) -> bool {
    &&& chunk.wf()
    &&& chunk.coords() == (cx as i32, cz as i32)
    &&& forall|a: int, b: int, c: int|
        spec_in_bounds(a, b, c) ==> {
            &&& layered_before(x0, z0, y0, a, b, c) ==> layered_cell(
                registry,
                cx,
                cz,
                heights,
                slopes,
                dense,
                a,
                b,
                c,
                #[trigger] chunk.block_at(a, b, c),
            )
            &&& !layered_before(x0, z0, y0, a, b, c) ==> chunk.block_at(a, b, c) is None
        }
}

/// Whether the sum of the world coordinates of column (x, z) of the chunk at
/// (cx, cz), and that sum plus `y`, fit in an `i32`: the sum that decides
/// half blocks on slopes.
pub open spec fn column_sum_fits(cx: int, cz: int, x: int, z: int, y: int) -> bool {
    let s = (cx * 16 + x) + (cz * 16 + z);
    i32::MIN <= s && s + y <= i32::MAX
}

/// Whether the slope sum fits for every surface-layer cell of a slope
/// column that generation fills.
pub open spec fn slope_sums_fit(cx: int, cz: int, heights: Seq<i32>, slopes: Seq<bool>) -> bool {
    forall|x: int, z: int, y: int|
        0 <= x < 16 && 0 <= z < 16 && slopes[z * 16 + x] && 0 <= y < 256 && heights[z * 16 + x] - 5 <= y
            < heights[z * 16 + x] ==> #[trigger] column_sum_fits(cx, cz, x, z, y)
}

/// The terrain generator of layered terrain; the noise fields it reads are
/// sampled by the caller.
pub struct TerrainGenerator {
    pub seed: u32,
}

impl TerrainGenerator {
    pub fn new(seed: u32) -> (r: Self)
        ensures
            r.seed == seed,
    {
        TerrainGenerator { seed }
    }

    /// The id of a surface-layer block (see `surface_id`).
    pub fn get_surface_block(&self, x: i32, y: i32, z: i32, height: i32, is_slope: bool) -> (r: &'static str)
        requires
            is_slope ==> i32::MIN <= x + z <= i32::MAX && i32::MIN <= x + z + y <= i32::MAX,
            height > i32::MIN,
            y != height - 1 ==> height - 4 >= i32::MIN,
        ensures
            r@ == surface_id(x as int, y as int, z as int, height as int, is_slope),
    {
        let is_half_block = is_slope && (x + z + y) % 4 == 0;
        proof {
            if is_slope {
                assert(((x + z + y) as i32 % 4 == 0) == ((x + z + y) % 4 == 0)) by (nonlinear_arith)
                    requires
                        i32::MIN <= x + z + y <= i32::MAX,
                ;
            }
        }
        if y == height - 1 {
            if is_half_block {
                "3HNM1.0S"
            } else {
                "3FNM1.0S"
            }
        } else if y >= height - 4 {
            "2FNM1.0S"
        } else {
            "1FNM1.0S"
        }
    }

    /// The id of a stone block: denser stone where the deposit field says so.
    pub fn get_stone_block(&self, dense: bool) -> (r: &'static str)
        ensures
            r@ == (if dense { "1FNM1.5S"@ } else { "1FNM1.0S"@ }),
    {
        if dense {
            "1FNM1.5S"
        } else {
            "1FNM1.0S"
        }
    }

    /// Generates the chunk at (chunk_x, chunk_z) from the registry's blocks.
    /// `heights` and `slopes` give, for each column (x, z) at z * 16 + x, its
    /// height and whether it lies on a slope; `dense` gives, for each cell
    /// (x, y, z) at y * 256 + z * 16 + x, whether the deposit field makes it
    /// denser stone. Each column is filled from the bottom up to its height
    /// (see `layered_cell`). The world coordinates of the chunk's columns,
    /// and their sums on slopes, must fit in an `i32`.
    #[verifier::spinoff_prover]
    pub fn generate_chunk(
        &self,
        chunk_x: i32,
        chunk_z: i32,
        heights: &Vec<i32>,
        slopes: &Vec<bool>,
        dense: &Vec<bool>,
        registry: &BlockRegistry,
    ) -> (r: Chunk)
        requires
            -0x800_0000 <= chunk_x < 0x800_0000,
            -0x800_0000 <= chunk_z < 0x800_0000,
            heights@.len() == 256,
            slopes@.len() == 256,
            dense@.len() == 65536,
            slope_sums_fit(chunk_x as int, chunk_z as int, heights@, slopes@),
            knows_layer_ids(*registry),
        ensures
            r.wf(),
            r.coords() == (chunk_x, chunk_z),
            forall|x: int, y: int, z: int|
                spec_in_bounds(x, y, z) ==> layered_cell(
                    *registry,
                    chunk_x as int,
                    chunk_z as int,
                    heights@,
                    slopes@,
                    dense@,
                    x,
                    y,
                    z,
                    #[trigger] r.block_at(x, y, z),
                ),
    {
        let mut chunk = Chunk::new(chunk_x, chunk_z);
        let ghost cx = chunk_x as int;
        let ghost cz = chunk_z as int;
        let mut x: i32 = 0;
        while x < 16
            invariant
                0 <= x <= 16,
                cx == chunk_x,
                cz == chunk_z,
                -0x800_0000 <= chunk_x < 0x800_0000,
                -0x800_0000 <= chunk_z < 0x800_0000,
                slope_sums_fit(cx, cz, heights@, slopes@),
                heights@.len() == 256,
                slopes@.len() == 256,
                dense@.len() == 65536,
                knows_layer_ids(*registry),
                layered_progress(*registry, cx, cz, heights@, slopes@, dense@, chunk, x as int, 0, 0),
            decreases 16 - x,
        {
            let mut z: i32 = 0;
            while z < 16
                invariant
                    0 <= x < 16,
                    0 <= z <= 16,
                    cx == chunk_x,
                    cz == chunk_z,
                    -0x800_0000 <= chunk_x < 0x800_0000,
                    -0x800_0000 <= chunk_z < 0x800_0000,
                    slope_sums_fit(cx, cz, heights@, slopes@),
                    heights@.len() == 256,
                    slopes@.len() == 256,
                    dense@.len() == 65536,
                    knows_layer_ids(*registry),
                    layered_progress(*registry, cx, cz, heights@, slopes@, dense@, chunk, x as int, z as int, 0),
                decreases 16 - z,
            {
                let world_x = chunk_x * 16 + x;
                let world_z = chunk_z * 16 + z;
                let column = (z * 16 + x) as usize;
                let height = heights[column];
                let slope = slopes[column];
                let top: i32 = if height < 256 {
                    height
                } else {
                    256
                };
                let mut y: i32 = 0;
                while y < top
                    invariant
                        0 <= x < 16,
                        0 <= z < 16,
                        0 <= y,
                        y <= (if top < 0 { 0 } else { top }),
                        top <= 256,
                        top == (if height < 256 { height } else { 256i32 }),
                        cx == chunk_x,
                        cz == chunk_z,
                        world_x == cx * 16 + x,
                        world_z == cz * 16 + z,
                        column == z * 16 + x,
                        height == heights@[column as int],
                        slope == slopes@[column as int],
                        -0x800_0000 <= chunk_x < 0x800_0000,
                        -0x800_0000 <= chunk_z < 0x800_0000,
                        slope_sums_fit(cx, cz, heights@, slopes@),
                        heights@.len() == 256,
                        slopes@.len() == 256,
                        dense@.len() == 65536,
                        knows_layer_ids(*registry),
                        layered_progress(*registry, cx, cz, heights@, slopes@, dense@, chunk, x as int, z as int, y as int),
                    decreases top - y,
                {
                    let id: &str = if y >= height - 5 {
                        proof {
                            if slope {
                                assert(column_sum_fits(cx, cz, x as int, z as int, y as int));
                            }
                        }
                        self.get_surface_block(world_x, y, world_z, height, slope)
                    } else {
                        self.get_stone_block(dense[(y * 256 + z * 16 + x) as usize])
                    };
                    let ghost c0 = chunk;
                    match registry.create_block(id, (world_x, y, world_z)) {
                        Ok(block) => {
                            let _ = chunk.set_block(x, y, z, block);
                        },
                        Err(_) => {},
                    }
                    proof {
                        assert(layer_id(world_x as int, y as int, world_z as int, height as int, slope, dense@[y * 256 + z * 16 + x]) == id@);
                        assert forall|a: int, b: int, c: int| spec_in_bounds(a, b, c) implies {
                            &&& layered_before(x as int, z as int, y + 1, a, b, c) ==> layered_cell(
                                *registry,
                                cx,
                                cz,
                                heights@,
                                slopes@,
                                dense@,
                                a,
                                b,
                                c,
                                #[trigger] chunk.block_at(a, b, c),
                            )
                            &&& !layered_before(x as int, z as int, y + 1, a, b, c) ==> chunk.block_at(a, b, c) is None
                        } by {
                            if (a, b, c) != (x as int, y as int, z as int) {
                                assert(chunk.block_at(a, b, c) == c0.block_at(a, b, c));
                            }
                        }
                    }
                    y = y + 1;
                }
                proof {
                    assert forall|a: int, b: int, c: int| spec_in_bounds(a, b, c) implies {
                        &&& layered_before(x as int, z + 1, 0, a, b, c) ==> layered_cell(
                            *registry,
                            cx,
                            cz,
                            heights@,
                            slopes@,
                            dense@,
                            a,
                            b,
                            c,
                            #[trigger] chunk.block_at(a, b, c),
                        )
                        &&& !layered_before(x as int, z + 1, 0, a, b, c) ==> chunk.block_at(a, b, c) is None
                    } by {
                        if a == x && c == z && b >= y {
                            assert(!layered_before(x as int, z as int, y as int, a, b, c));
                        }
                    }
                }
                z = z + 1;
            }
            proof {
                assert forall|a: int, b: int, c: int| spec_in_bounds(a, b, c) implies
                    layered_before(x as int, 16, 0, a, b, c) == layered_before(x + 1, 0, 0, a, b, c) by {}
            }
            x = x + 1;
        }
        chunk
    }
}

} // verus!
