//! Terrain generation: biomes, the blocks each biome is made of, the column
//! rule that turns a biome and a surface height into blocks, the random
//! details of the blocks, and trees.
//!
//! The noise fields (biome, surface height, caves) are sampled outside this
//! module; the generator takes their values per column and per cell.
use vstd::prelude::*;
use crate::assoc::{assoc, find_key};
use crate::block::{Block, BlockFacing, BlockId, BlockOrientation, GridPos, SubBlock};
use crate::text::chars_of;
use vstd::arithmetic::div_mod::lemma_fundamental_div_mod_converse;
use rand::Rng;
use rand::SeedableRng;
use rand_chacha::ChaCha12Rng;

verus! {

/// The random stream that generation draws block details from.
#[verifier::external_type_specification]
#[verifier::external_body]
pub struct ExChaCha12Rng(rand_chacha::ChaCha12Rng);

/// A request made of the random stream: a chance of numerator in
/// denominator, or a value in a half-open range of `i32` or of `u8`.
#[derive(Debug, Clone, Copy, PartialEq, Eq, Structural)]
pub enum DrawRequest {
    Ratio(u32, u32),
    RangeI32(i32, i32),
    RangeU8(u8, u8),
}

/// What `gen_ratio(numerator, denominator)` gives on a ChaCha12 stream
/// seeded from `seed` after the requests `history`.
pub uninterp spec fn ratio_draw(seed: u64, history: Seq<DrawRequest>, numerator: u32, denominator: u32) -> bool;

/// What `gen_range(low..high)` gives for `i32` on a ChaCha12 stream seeded
/// from `seed` after the requests `history`.
pub uninterp spec fn range_i32_draw(seed: u64, history: Seq<DrawRequest>, low: i32, high: i32) -> i32;

/// What `gen_range(low..high)` gives for `u8` on a ChaCha12 stream seeded
/// from `seed` after the requests `history`.
pub uninterp spec fn range_u8_draw(seed: u64, history: Seq<DrawRequest>, low: u8, high: u8) -> u8;

/// The random stream that generation draws block details from: a ChaCha12
/// stream seeded from a `u64`. Its seed and the requests made of it since
/// seeding are kept for the contracts; a seeded stream's draws are a
/// function of these.
pub struct RandomStream {
    rng: ChaCha12Rng,
    seed: Ghost<u64>,
    requests: Ghost<Seq<DrawRequest>>,
}

/// A ChaCha12 stream seeded with `seed` (`SeedableRng::seed_from_u64`).
/// Nothing is stated of the value itself; `RandomStream::new` records the
/// seed it was made from.
#[verifier::external_body]
fn seeded_rng(seed: u64) -> (r: ChaCha12Rng) {
    ChaCha12Rng::seed_from_u64(seed)
}

impl RandomStream {
    /// The seed the stream was made from.
    pub closed spec fn seed(&self) -> u64 {
        self.seed@
    }

    /// The requests made of the stream since it was seeded, in order.
    pub closed spec fn requests(&self) -> Seq<DrawRequest> {
        self.requests@
    }

    /// A stream seeded with `seed`, no request made yet.
    pub fn new(seed: u64) -> (r: Self)
        ensures
            r.seed() == seed,
            r.requests() == Seq::<DrawRequest>::empty(),
    {
        RandomStream { rng: seeded_rng(seed), seed: Ghost(seed), requests: Ghost(Seq::empty()) }
    }
}

/// `Rng::gen_ratio` on the stream: true with chance numerator / denominator;
/// always true when the two are equal and always false when the numerator
/// is 0. The result is named by the seed, the earlier requests and this
/// one, and the request is recorded. It panics when the denominator is 0 or
/// below the numerator.
#[verifier::external_body]
fn gen_ratio(stream: &mut RandomStream, numerator: u32, denominator: u32) -> (r: bool)
    requires
        0 < denominator,
        numerator <= denominator,
    ensures
        r == ratio_draw(old(stream).seed(), old(stream).requests(), numerator, denominator),
        final(stream).seed() == old(stream).seed(),
        final(stream).requests() == old(stream).requests().push(DrawRequest::Ratio(numerator, denominator)),
        numerator == denominator ==> r,
        numerator == 0 ==> !r,
{
    stream.rng.gen_ratio(numerator, denominator)
}

/// `Rng::gen_range` over `low..high` for `i32` on the stream: a value in
/// that range, named by the seed, the earlier requests and this one; the
/// request is recorded. It panics on an empty range.
#[verifier::external_body]
fn gen_range_i32(stream: &mut RandomStream, low: i32, high: i32) -> (r: i32)
    requires
        low < high,
    ensures
        r == range_i32_draw(old(stream).seed(), old(stream).requests(), low, high),
        final(stream).seed() == old(stream).seed(),
        final(stream).requests() == old(stream).requests().push(DrawRequest::RangeI32(low, high)),
        low <= r < high,
{
    stream.rng.gen_range(low..high)
}

/// `Rng::gen_range` over `low..high` for `u8` on the stream: a value in
/// that range, named by the seed, the earlier requests and this one; the
/// request is recorded. It panics on an empty range.
#[verifier::external_body]
fn gen_range_u8(stream: &mut RandomStream, low: u8, high: u8) -> (r: u8)
    requires
        low < high,
    ensures
        r == range_u8_draw(old(stream).seed(), old(stream).requests(), low, high),
        final(stream).seed() == old(stream).seed(),
        final(stream).requests() == old(stream).requests().push(DrawRequest::RangeU8(low, high)),
        low <= r < high,
{
    stream.rng.gen_range(low..high)
}

/// The unsigned 64-bit value of a signed 32-bit one, as a cast gives it:
/// negative values wrap around.
pub open spec fn u64_bits(v: i32) -> int {
    if v >= 0 {
        v as int
    } else {
        v + 0x1_0000_0000_0000_0000
    }
}

/// The seed of the random stream of the chunk at (x, z): the world seed
/// plus x times 341873128712 plus z times 132897987541, all wrapping at 64
/// bits.
pub open spec fn seed_of_chunk(seed: u32, x: i32, z: i32) -> u64 {
    ((seed + u64_bits(x) * 341873128712 + u64_bits(z) * 132897987541) % 0x1_0000_0000_0000_0000) as u64
}

/// The seed of the random stream of the chunk at (x, z) (see
/// `seed_of_chunk`).
pub fn chunk_seed(seed: u32, x: i32, z: i32) -> (r: u64)
    ensures
        r == seed_of_chunk(seed, x, z),
{
    let sx = x as u64;
    let sz = z as u64;
    assert(sx == u64_bits(x)) by (bit_vector)
        requires
            sx == x as u64,
    ;
    assert(sz == u64_bits(z)) by (bit_vector)
        requires
            sz == z as u64,
    ;
    let a = sx.wrapping_mul(341873128712u64);
    let b = sz.wrapping_mul(132897987541u64);
    let t = (seed as u64).wrapping_add(a);
    let r = t.wrapping_add(b);
    proof {
        let m: int = 0x1_0000_0000_0000_0000;
        let x1 = sx as int * 341873128712;
        let z1 = sz as int * 132897987541;
        assert(a as int == x1 % m);
        assert(b as int == z1 % m);
        assert(t as int == (seed + x1 % m) % m);
        vstd::arithmetic::div_mod::lemma_add_mod_noop_right(seed as int, x1, m);
        assert(r as int == (t + z1 % m) % m);
        vstd::arithmetic::div_mod::lemma_add_mod_noop_right(t as int, z1, m);
        vstd::arithmetic::div_mod::lemma_add_mod_noop(seed + x1, z1, m);
        vstd::arithmetic::div_mod::lemma_add_mod_noop(seed + x1 % m, z1, m);
        vstd::arithmetic::div_mod::lemma_add_mod_noop(seed as int, x1, m);
        assert(r as int == (seed + x1 + z1) % m);
    }
    r
}

/// Cells along each side of a chunk.
pub const CHUNK_SIZE: usize = 32;

/// Sub-block cells along each side of a block.
pub const SUB_RESOLUTION: usize = 4;

/// The height of the sea surface.
pub const SEA_LEVEL: i32 = 62;

/// The id a block name falls back to when the registry does not know it.
pub const FALLBACK_BASE_ID: u32 = 10;

/// The kinds of landscape.
#[derive(Debug, Clone, Copy, PartialEq, Eq, Structural)]
pub enum BiomeType {
    Plains,
    Mountains,
    Desert,
    Forest,
    Ocean,
    Tundra,
    Swamp,
}

/// The position of a chunk in the grid of chunks.
#[derive(Debug, Clone, Copy, PartialEq, Eq, Structural, Hash)]
pub struct ChunkCoord {
    pub x: i32,
    pub y: i32,
    pub z: i32,
}

impl ChunkCoord {
    pub fn new(x: i32, y: i32, z: i32) -> (r: Self)
        ensures
            r == (ChunkCoord { x, y, z }),
    {
        ChunkCoord { x, y, z }
    }
}

/// The id of the block named `name`, or the fallback id when there is none.
pub open spec fn named_id(ids: Seq<(String, BlockId)>, name: Seq<char>) -> BlockId {
    if assoc(ids).contains_key(name) {
        assoc(ids)[name]
    } else {
        BlockId::new_spec(FALLBACK_BASE_ID)
    }
}

/// The base and top blocks of a biome.
pub open spec fn biome_blocks(ids: Seq<(String, BlockId)>, biome: BiomeType) -> (BlockId, BlockId) {
    match biome {
        BiomeType::Plains | BiomeType::Swamp | BiomeType::Forest => (
            named_id(ids, "dirt"@),
            named_id(ids, "grass"@),
        ),
        BiomeType::Mountains | BiomeType::Tundra => (named_id(ids, "stone"@), named_id(ids, "snow"@)),
        BiomeType::Desert => (named_id(ids, "sand"@), named_id(ids, "sand"@)),
        BiomeType::Ocean => (named_id(ids, "sand"@), named_id(ids, "gravel"@)),
    }
}

/// The block at height `y` of a column whose surface is at `height`: stone
/// deep under the ocean, the top block at the surface, the base block in the
/// three layers below it, stone further down.
pub open spec fn depth_block(
    ids: Seq<(String, BlockId)>,
    y: int,
    height: int,
    base: BlockId,
    top: BlockId,
    biome: BiomeType,
) -> BlockId {
    if biome == BiomeType::Ocean && y <= SEA_LEVEL - 8 {
        named_id(ids, "stone"@)
    } else if y == height {
        top
    } else if y > height - 4 {
        base
    } else {
        named_id(ids, "stone"@)
    }
}

/// The block of the cell at height `y` of a column: air above the surface
/// and in caves, the depth block below, and water filling the air of an
/// ocean up to the sea level.
pub open spec fn cell_block(
    ids: Seq<(String, BlockId)>,
    y: int,
    height: int,
    biome: BiomeType,
    cave: bool,
) -> BlockId {
    let (base, top) = biome_blocks(ids, biome);
    let solid = if y <= height && !cave {
        depth_block(ids, y, height, base, top, biome)
    } else {
        BlockId::new_spec(0)
    };
    if biome == BiomeType::Ocean && y <= SEA_LEVEL && solid == BlockId::new_spec(0) {
        named_id(ids, "water"@)
    } else {
        solid
    }
}

/// What a column is made of at and just below its surface, for every
/// biome: the surface cell of a column (not carved by a cave, and for the
/// ocean above the sea) holds grass in plains, swamp and forest, snow in
/// mountains and tundra, sand in the desert and gravel in the ocean; the
/// three cells below it hold dirt in plains, swamp and forest, stone in
/// mountains and tundra, and sand in the desert and the ocean.
pub proof fn lemma_column_surface(ids: Seq<(String, BlockId)>, biome: BiomeType, height: int, y: int)
    requires
        biome == BiomeType::Ocean ==> height - 3 > SEA_LEVEL,
    ensures
        cell_block(ids, height, height, biome, false) == match biome {
            BiomeType::Plains | BiomeType::Swamp | BiomeType::Forest => named_id(ids, "grass"@),
            BiomeType::Mountains | BiomeType::Tundra => named_id(ids, "snow"@),
            BiomeType::Desert => named_id(ids, "sand"@),
            BiomeType::Ocean => named_id(ids, "gravel"@),
        },
        height - 3 <= y < height ==> cell_block(ids, y, height, biome, false) == match biome {
            BiomeType::Plains | BiomeType::Swamp | BiomeType::Forest => named_id(ids, "dirt"@),
            BiomeType::Mountains | BiomeType::Tundra => named_id(ids, "stone"@),
            BiomeType::Desert | BiomeType::Ocean => named_id(ids, "sand"@),
        },
{
}

/// A land column (any biome but the ocean) is stone more than three cells
/// below its surface and air above it and wherever a cave carves it.
pub proof fn lemma_land_column(ids: Seq<(String, BlockId)>, biome: BiomeType, height: int, y: int, cave: bool)
    requires
        biome != BiomeType::Ocean,
    ensures
        y < height - 3 && !cave ==> cell_block(ids, y, height, biome, cave) == named_id(ids, "stone"@),
        (y > height || cave) ==> cell_block(ids, y, height, biome, cave) == BlockId::new_spec(0),
{
}

/// Plains, swamp and forest columns are built alike, and so are mountain
/// and tundra columns: each cell holds the same block whatever the biome
/// of the group.
pub proof fn lemma_biomes_alike(ids: Seq<(String, BlockId)>, y: int, height: int, cave: bool)
    ensures
        cell_block(ids, y, height, BiomeType::Swamp, cave) == cell_block(ids, y, height, BiomeType::Plains, cave),
        cell_block(ids, y, height, BiomeType::Forest, cave) == cell_block(ids, y, height, BiomeType::Plains, cave),
        cell_block(ids, y, height, BiomeType::Tundra, cave) == cell_block(
            ids,
            y,
            height,
            BiomeType::Mountains,
            cave,
        ),
{
}

/// A chunk of generated terrain: `chunk_size` cells along each side, the
/// cell (x, y, z) stored at (x * chunk_size + y) * chunk_size + z.
pub struct Chunk {
    pub blocks: Vec<Option<Block>>,
    pub sub_resolution: usize,
    pub coord: ChunkCoord,
    pub chunk_size: usize,
}

/// The storage index of a cell.
pub open spec fn cell_index(size: int, x: int, y: int, z: int) -> int {
    (x * size + y) * size + z
}

/// Distinct cells of a chunk have distinct storage indices inside it.
proof fn lemma_cell_index(size: int, x: int, y: int, z: int)
    requires
        0 <= x < size,
        0 <= y < size,
        0 <= z < size,
    ensures
        0 <= cell_index(size, x, y, z) < size * size * size,
        forall|a: int, b: int, c: int|
            0 <= a < size && 0 <= b < size && 0 <= c < size && cell_index(size, a, b, c)
                == cell_index(size, x, y, z) ==> a == x && b == y && c == z,
{
    assert(0 <= cell_index(size, x, y, z) < size * size * size) by (nonlinear_arith)
        requires
            0 <= x < size,
            0 <= y < size,
            0 <= z < size,
    ;
    assert forall|a: int, b: int, c: int|
        0 <= a < size && 0 <= b < size && 0 <= c < size && cell_index(size, a, b, c)
            == cell_index(size, x, y, z) implies a == x && b == y && c == z by {
        assert(a == x && b == y && c == z) by (nonlinear_arith)
            requires
                0 <= x < size,
                0 <= y < size,
                0 <= z < size,
                0 <= a < size,
                0 <= b < size,
                0 <= c < size,
                (a * size + b) * size + c == (x * size + y) * size + z,
        ;
    }
}

impl Chunk {
    /// The storage holds one entry per cell.
    pub open spec fn wf(&self) -> bool {
        self.blocks@.len() == self.chunk_size * self.chunk_size * self.chunk_size
    }

    /// The block of a cell.
    pub open spec fn cell(&self, x: int, y: int, z: int) -> Option<Block> {
        self.blocks@[cell_index(self.chunk_size as int, x, y, z)]
    }

    /// An empty chunk with `size` cells along each side.
    pub fn new(size: usize, sub_resolution: usize, coord: ChunkCoord) -> (r: Self)
        requires
            size * size * size <= usize::MAX,
        ensures
            r.wf(),
            r.chunk_size == size,
            r.sub_resolution == sub_resolution,
            r.coord == coord,
            forall|i: int| 0 <= i < r.blocks@.len() ==> r.blocks@[i] is None,
    {
        proof {
            assert(size * size <= usize::MAX) by (nonlinear_arith)
                requires
                    size * size * size <= usize::MAX,
            ;
        }
        let total = size * size * size;
        let mut blocks: Vec<Option<Block>> = Vec::new();
        let mut i: usize = 0;
        while i < total
            invariant
                i <= total,
                blocks@.len() == i,
                forall|j: int| 0 <= j < i ==> blocks@[j] is None,
            decreases total - i,
        {
            blocks.push(None);
            i = i + 1;
        }
        Chunk { blocks, sub_resolution, coord, chunk_size: size }
    }

    /// Puts `block` in the cell (x, y, z); a position outside the chunk is
    /// ignored.
    pub fn set_block(&mut self, x: usize, y: usize, z: usize, block: Option<Block>)
        requires
            old(self).wf(),
        ensures
            final(self).wf(),
            final(self).chunk_size == old(self).chunk_size,
            final(self).sub_resolution == old(self).sub_resolution,
            final(self).coord == old(self).coord,
            (x < old(self).chunk_size && y < old(self).chunk_size && z < old(self).chunk_size)
                ==> final(self).blocks@ == old(self).blocks@.update(
                cell_index(old(self).chunk_size as int, x as int, y as int, z as int),
                block,
            ),
            !(x < old(self).chunk_size && y < old(self).chunk_size && z < old(self).chunk_size)
                ==> final(self).blocks@ == old(self).blocks@,
    {
        let size = self.chunk_size;
        let n = self.blocks.len();
        if x < size && y < size && z < size {
            proof {
                lemma_cell_index(size as int, x as int, y as int, z as int);
                assert(x * size + y < size * size && x * size <= size * size && (x * size + y) * size
                    <= (size * size) * size) by (nonlinear_arith)
                    requires
                        x < size,
                        y < size,
                ;
                assert(self.blocks@.len() == size * size * size);
                assert(n == self.blocks@.len());
                assert(size * size <= size * size * size) by (nonlinear_arith)
                    requires
                        x < size,
                ;
            }
            let i = (x * size + y) * size + z;
            self.blocks.set(i, block);
        }
    }
}

/// The generator's view of the block registry: block names and their ids.
pub struct TerrainGenerator {
    pub seed: u32,
    pub block_ids: Vec<(String, BlockId)>,
}

impl TerrainGenerator {
    /// A generator for a world seed over a table of block names.
    pub fn new(seed: u32, block_ids: Vec<(String, BlockId)>) -> (r: Self)
        ensures
            r.seed == seed,
            r.block_ids@ == block_ids@,
    {
        TerrainGenerator { seed, block_ids }
    }

    /// The id of the block named `name`, or the fallback id.
    pub fn id_by_name(&self, name: &str) -> (r: BlockId)
        ensures
            r == named_id(self.block_ids@, name@),
    {
        let key = chars_of(name);
        match find_key(&self.block_ids, &key) {
            Some(i) => self.block_ids[i].1,
            None => BlockId::new(FALLBACK_BASE_ID),
        }
    }

    /// The base and top blocks of a biome.
    pub fn get_biome_blocks(&self, biome: BiomeType) -> (r: (BlockId, BlockId))
        ensures
            r == biome_blocks(self.block_ids@, biome),
    {
        match biome {
            BiomeType::Plains | BiomeType::Swamp | BiomeType::Forest => (
                self.id_by_name("dirt"),
                self.id_by_name("grass"),
            ),
            BiomeType::Mountains | BiomeType::Tundra => (
                self.id_by_name("stone"),
                self.id_by_name("snow"),
            ),
            BiomeType::Desert => (self.id_by_name("sand"), self.id_by_name("sand")),
            BiomeType::Ocean => (self.id_by_name("sand"), self.id_by_name("gravel")),
        }
    }

    /// The block at height `y` of a column whose surface is at `height`.
    pub fn get_block_for_depth(
        &self,
        y: i32,
        height: i32,
        base: BlockId,
        top: BlockId,
        biome: BiomeType,
    ) -> (r: BlockId)
        ensures
            r == depth_block(self.block_ids@, y as int, height as int, base, top, biome),
    {
        if biome == BiomeType::Ocean && y <= SEA_LEVEL - 8 {
            self.id_by_name("stone")
        } else if y == height {
            top
        } else if y as i64 > height as i64 - 4 {
            base
        } else {
            self.id_by_name("stone")
        }
    }

    /// The block of the cell at height `world_y` of a column with the given
    /// biome and surface height; `cave` says whether the cave field carves
    /// the cell out.
    pub fn cell_block_id(&self, world_y: i32, height: i32, biome: BiomeType, cave: bool) -> (r:
        BlockId)
        ensures
            r == cell_block(self.block_ids@, world_y as int, height as int, biome, cave),
    {
        let (base, top) = self.get_biome_blocks(biome);
        let mut block_id = BlockId::air();
        if world_y <= height {
            block_id = self.get_block_for_depth(world_y, height, base, top, biome);
            if cave {
                block_id = BlockId::air();
            }
        }
        if biome == BiomeType::Ocean && world_y <= SEA_LEVEL && block_id.base_id == 0
            && block_id.variation == 0 && block_id.color_id == 0 {
            block_id = self.id_by_name("water");
        }
        block_id
    }
}

/// Whether a sub-block is a plain one of `id`: no metadata, no facing, the
/// wall orientation and no connection.
pub open spec fn plain_sub(sb: SubBlock, id: BlockId) -> bool {
    &&& sb.id == id
    &&& sb.metadata == 0
    &&& sb.facing == BlockFacing::NoFacing
    &&& sb.orientation == BlockOrientation::Wall
    &&& sb.connections.spec_bits() == 0
}

/// The ids of the deposits that strata details are made of.
pub open spec fn strata_id(ids: Seq<(String, BlockId)>, id: BlockId) -> bool {
    ||| id == named_id(ids, "coal_ore"@)
    ||| id == named_id(ids, "iron_ore"@)
    ||| id == named_id(ids, "gold_ore"@)
    ||| id == named_id(ids, "diamond_ore"@)
    ||| id == named_id(ids, "stone"@)
}

/// The details a block of `id` in `biome` may get from `create_block`: a
/// grass tuft on forest grass, water in swamp water.
pub open spec fn biome_detail(ids: Seq<(String, BlockId)>, biome: BiomeType, id: BlockId, sub_id: BlockId) -> bool {
    ||| (biome == BiomeType::Forest && id == named_id(ids, "grass"@) && sub_id == named_id(ids, "grass"@))
    ||| (biome == BiomeType::Swamp && id == named_id(ids, "water"@) && sub_id == named_id(ids, "water"@))
}

/// Whether every sub-block of `b` lies in its grid of `SUB_RESOLUTION` cells
/// a side and is a plain sub-block whose id `allowed` accepts.
pub open spec fn details_within(b: Block, allowed: spec_fn(BlockId) -> bool) -> bool {
    forall|k: GridPos|
        #[trigger] b.grid().contains_key(k) ==> {
            &&& k.0 < SUB_RESOLUTION
            &&& k.1 < SUB_RESOLUTION
            &&& k.2 < SUB_RESOLUTION
            &&& plain_sub(b.grid()[k], b.grid()[k].id)
            &&& allowed(b.grid()[k].id)
        }
}

/// What a generated block of `id` at height `world_y` in `biome` is: a
/// well-formed block of `SUB_RESOLUTION` without connections, whose
/// sub-blocks are biome details or, below the strata line, deposits.
pub open spec fn generated_block(
    ids: Seq<(String, BlockId)>,
    biome: BiomeType,
    id: BlockId,
    world_y: int,
    b: Block,
) -> bool {
    &&& b.wf()
    &&& b.resolution == SUB_RESOLUTION
    &&& b.current_connections.spec_bits() == 0
    &&& details_within(
        b,
        |sub_id: BlockId|
            biome_detail(ids, biome, id, sub_id) || (world_y < SEA_LEVEL - 8 && strata_id(ids, sub_id)),
    )
}

/// The request for one coordinate of a grid cell: a value below
/// `SUB_RESOLUTION`.
pub open spec fn coordinate_request() -> DrawRequest {
    DrawRequest::RangeU8(0, SUB_RESOLUTION as u8)
}

/// The grid cell drawn after the requests `h` (x, then y, then z, each
/// below `SUB_RESOLUTION`), and the requests after it.
pub open spec fn cell_draw(seed: u64, h: Seq<DrawRequest>) -> (GridPos, Seq<DrawRequest>) {
    let r = SUB_RESOLUTION as u8;
    let x = range_u8_draw(seed, h, 0, r);
    let h1 = h.push(coordinate_request());
    let y = range_u8_draw(seed, h1, 0, r);
    let h2 = h1.push(coordinate_request());
    let z = range_u8_draw(seed, h2, 0, r);
    ((x, y, z), h2.push(coordinate_request()))
}

/// The biome detail a new block of `id` in `biome` gets, drawn after the
/// requests `h`, and the requests after it: forest grass asks a chance of
/// 1 in 10 and, on a hit, a cell for a grass tuft; swamp water asks a cell
/// for water; other blocks ask nothing.
pub open spec fn detail_draws(ids: Seq<(String, BlockId)>, biome: BiomeType, id: BlockId, seed: u64, h: Seq<DrawRequest>) -> (
    Option<(GridPos, BlockId)>,
    Seq<DrawRequest>,
) {
    if biome == BiomeType::Forest && id == named_id(ids, "grass"@) {
        let h1 = h.push(DrawRequest::Ratio(1, 10));
        if ratio_draw(seed, h, 1, 10) {
            let (p, h2) = cell_draw(seed, h1);
            (Some((p, named_id(ids, "grass"@))), h2)
        } else {
            (None, h1)
        }
    } else if biome == BiomeType::Swamp && id == named_id(ids, "water"@) {
        let (p, h1) = cell_draw(seed, h);
        (Some((p, named_id(ids, "water"@))), h1)
    } else {
        (None, h)
    }
}

/// Whether grid `g` holds exactly the detail `d`: nothing, or one plain
/// sub-block of the detail's id at its cell.
pub open spec fn holds_detail(g: Map<GridPos, SubBlock>, d: Option<(GridPos, BlockId)>) -> bool {
    match d {
        None => g == Map::<GridPos, SubBlock>::empty(),
        Some((p, sid)) => g.dom() == set![p] && plain_sub(g[p], sid),
    }
}

impl TerrainGenerator {
    /// A block of `id` for `biome`: forest grass gets a grass tuft one time
    /// in ten and swamp water always gets a water cell, each at a random
    /// grid position (see `detail_draws` for the requests made of `rng`).
    pub fn create_block(&self, id: BlockId, biome: BiomeType, rng: &mut RandomStream) -> (r: Block)
        ensures
            r.wf(),
            r.resolution == SUB_RESOLUTION,
            r.current_connections.spec_bits() == 0,
            forall|k1: GridPos, k2: GridPos|
                #[trigger] r.grid().contains_key(k1) && #[trigger] r.grid().contains_key(k2) ==> k1 == k2,
            details_within(r, |sub_id: BlockId| biome_detail(self.block_ids@, biome, id, sub_id)),
            biome == BiomeType::Swamp && id == named_id(self.block_ids@, "water"@) ==> exists|k: GridPos|
                #[trigger] r.grid().contains_key(k),
            final(rng).seed() == old(rng).seed(),
            ({
                let (d, h) = detail_draws(self.block_ids@, biome, id, old(rng).seed(), old(rng).requests());
                final(rng).requests() == h && holds_detail(r.grid(), d)
            }),
    {
        let mut block = Block::new(id, SUB_RESOLUTION as u8);
        let res = SUB_RESOLUTION as u8;
        if biome == BiomeType::Forest && id == self.id_by_name("grass") {
            if gen_ratio(rng, 1, 10) {
                let gx = gen_range_u8(rng, 0, res);
                let gy = gen_range_u8(rng, 0, res);
                let gz = gen_range_u8(rng, 0, res);
                let sub = SubBlock::new(self.id_by_name("grass"));
                block.place_sub_block(gx, gy, gz, sub);
                proof {
                    assert(block.grid() =~= Map::<GridPos, SubBlock>::empty().insert((gx, gy, gz), sub));
                    assert(block.grid().contains_key((gx, gy, gz)));
                }
            }
        } else if biome == BiomeType::Swamp && id == self.id_by_name("water") {
            let gx = gen_range_u8(rng, 0, res);
            let gy = gen_range_u8(rng, 0, res);
            let gz = gen_range_u8(rng, 0, res);
            let sub = SubBlock::new(self.id_by_name("water"));
            block.place_sub_block(gx, gy, gz, sub);
            proof {
                assert(block.grid() =~= Map::<GridPos, SubBlock>::empty().insert((gx, gy, gz), sub));
                assert(block.grid().contains_key((gx, gy, gz)));
            }
        }
        block
    }
}

/// The deposit that a strata roll (0 to 99) calls for: coal ore up to 5,
/// iron ore up to 8, gold ore up to 10, diamond ore up to 12, else stone.
pub open spec fn strata_ore(roll: int) -> Seq<char> {
    if roll <= 5 {
        "coal_ore"@
    } else if roll <= 8 {
        "iron_ore"@
    } else if roll <= 10 {
        "gold_ore"@
    } else if roll <= 12 {
        "diamond_ore"@
    } else {
        "stone"@
    }
}

/// Whether grid `after` is grid `before` with a plain deposit of `ore` put
/// at each of `cells`.
pub open spec fn deposits_placed(
    before: Map<GridPos, SubBlock>,
    after: Map<GridPos, SubBlock>,
    ore: BlockId,
    cells: Seq<GridPos>,
) -> bool {
    &&& forall|k: GridPos| #[trigger] after.contains_key(k) <==> (before.contains_key(k) || cells.contains(k))
    &&& forall|k: GridPos| #[trigger] cells.contains(k) ==> plain_sub(after[k], ore)
    &&& forall|k: GridPos|
        #[trigger] before.contains_key(k) && !cells.contains(k) ==> after[k] == before[k]
}

/// Whether grid `after` is what strata details make of grid `before` at
/// height `world_y` for the draws `hit`, `roll` and `cells`: below the
/// strata line, on a hit, a deposit of the roll's ore at each cell; else
/// no change.
pub open spec fn strata_outcome(
    ids: Seq<(String, BlockId)>,
    before: Map<GridPos, SubBlock>,
    after: Map<GridPos, SubBlock>,
    world_y: int,
    hit: bool,
    roll: int,
    cells: Seq<GridPos>,
) -> bool {
    if world_y < SEA_LEVEL - 8 && hit {
        deposits_placed(before, after, named_id(ids, strata_ore(roll)), cells)
    } else {
        after == before
    }
}

/// The `n` grid cells drawn one after another after the requests `h`,
/// and the requests after them.
pub open spec fn cells_draw(seed: u64, h: Seq<DrawRequest>, n: int) -> (Seq<GridPos>, Seq<DrawRequest>)
    decreases n,
{
    if n <= 0 {
        (Seq::empty(), h)
    } else {
        let (cells, h1) = cells_draw(seed, h, n - 1);
        let (p, h2) = cell_draw(seed, h1);
        (cells.push(p), h2)
    }
}

/// The strata details drawn for a block at height `world_y` after the
/// requests `h`, and the requests after them: below the strata line a
/// chance of 1 in 10; on a hit an ore roll in 0..100, a cell count in
/// 1..4 and that many cells; the details are the roll's ore at those cells.
pub open spec fn strata_draws(ids: Seq<(String, BlockId)>, world_y: int, seed: u64, h: Seq<DrawRequest>) -> (
    Option<(BlockId, Seq<GridPos>)>,
    Seq<DrawRequest>,
) {
    if world_y < SEA_LEVEL - 8 {
        let h1 = h.push(DrawRequest::Ratio(1, 10));
        if ratio_draw(seed, h, 1, 10) {
            let roll = range_i32_draw(seed, h1, 0, 100);
            let h2 = h1.push(DrawRequest::RangeI32(0, 100));
            let count = range_i32_draw(seed, h2, 1, 4);
            let h3 = h2.push(DrawRequest::RangeI32(1, 4));
            let (cells, h4) = cells_draw(seed, h3, count as int);
            (Some((named_id(ids, strata_ore(roll as int)), cells)), h4)
        } else {
            (None, h1)
        }
    } else {
        (None, h)
    }
}

/// Whether grid `after` is grid `before` given the strata details `s`.
pub open spec fn holds_strata(before: Map<GridPos, SubBlock>, after: Map<GridPos, SubBlock>, s: Option<(BlockId, Seq<GridPos>)>) -> bool {
    match s {
        None => after == before,
        Some((ore, cells)) => deposits_placed(before, after, ore, cells),
    }
}

impl TerrainGenerator {
    /// Gives `block`, at height `world_y`, the strata details that the draws
    /// call for (see `strata_outcome`): below the strata line, when `hit`, a
    /// deposit of the ore of `roll` at each of `cells`, in order.
    pub fn place_strata(&self, block: &mut Block, world_y: i32, hit: bool, roll: i32, cells: &Vec<GridPos>)
        requires
            old(block).wf(),
        ensures
            final(block).wf(),
            final(block).resolution == old(block).resolution,
            final(block).current_connections == old(block).current_connections,
            strata_outcome(self.block_ids@, old(block).grid(), final(block).grid(), world_y as int, hit, roll as int, cells@),
    {
        if !(world_y < SEA_LEVEL - 8 && hit) {
            return;
        }
        let ore: &str = if roll <= 5 {
            "coal_ore"
        } else if roll <= 8 {
            "iron_ore"
        } else if roll <= 10 {
            "gold_ore"
        } else if roll <= 12 {
            "diamond_ore"
        } else {
            "stone"
        };
        assert(ore@ == strata_ore(roll as int));
        let id = self.id_by_name(ore);
        let ghost g0 = block.grid();
        let mut i: usize = 0;
        assert(cells@.take(0) =~= Seq::<GridPos>::empty());
        while i < cells.len()
            invariant
                i <= cells@.len(),
                block.wf(),
                block.resolution == old(block).resolution,
                block.current_connections == old(block).current_connections,
                g0 == old(block).grid(),
                deposits_placed(g0, block.grid(), id, cells@.take(i as int)),
            decreases cells@.len() - i,
        {
            let (gx, gy, gz) = cells[i];
            let sub = SubBlock::new(id);
            let ghost before = block.grid();
            block.place_sub_block(gx, gy, gz, sub);
            proof {
                let c = cells@[i as int];
                assert(c == (gx, gy, gz));
                assert(cells@.take(i as int + 1) =~= cells@.take(i as int).push(c));
                assert forall|k: GridPos| #[trigger] cells@.take(i as int + 1).contains(k)
                    <==> (cells@.take(i as int).contains(k) || k == c) by {
                    if k == c {
                        assert(cells@.take(i as int + 1)[i as int] == c);
                    }
                    if cells@.take(i as int).contains(k) {
                        let j = choose|j: int| #![trigger cells@.take(i as int)[j]] 0 <= j < i && cells@.take(i as int)[j] == k;
                        assert(cells@.take(i as int + 1)[j] == k);
                    }
                    if cells@.take(i as int + 1).contains(k) {
                        let j = choose|j: int| #![trigger cells@.take(i as int + 1)[j]] 0 <= j < i + 1 && cells@.take(i as int + 1)[j] == k;
                        if j < i {
                            assert(cells@.take(i as int)[j] == k);
                        }
                    }
                }
                assert(deposits_placed(g0, block.grid(), id, cells@.take(i as int + 1)));
            }
            i = i + 1;
        }
        assert(cells@.take(i as int) =~= cells@);
    }

    /// Below the strata line (eight under the sea level), one block in ten
    /// gets one to three deposit cells of one kind at random grid positions:
    /// coal, iron, gold or diamond ore, or denser stone. The draws come from
    /// `rng` in the order chance of a hit, ore roll, cell count, then each
    /// cell's x, y and z (see `strata_draws`); what they make of the block
    /// is `place_strata`'s.
    pub fn add_strata_details(&self, block: &mut Block, world_y: i32, rng: &mut RandomStream)
        requires
            old(block).wf(),
        ensures
            final(block).wf(),
            final(block).resolution == old(block).resolution,
            final(block).current_connections == old(block).current_connections,
            final(rng).seed() == old(rng).seed(),
            ({
                let (st, h) = strata_draws(self.block_ids@, world_y as int, old(rng).seed(), old(rng).requests());
                final(rng).requests() == h && holds_strata(old(block).grid(), final(block).grid(), st)
            }),
            forall|k: GridPos| #[trigger] old(block).grid().contains_key(k) ==> final(block).grid().contains_key(k),
            forall|k: GridPos|
                #[trigger] final(block).grid().contains_key(k) ==> {
                    ||| (old(block).grid().contains_key(k) && final(block).grid()[k] == old(block).grid()[k])
                    ||| {
                        &&& k.0 < SUB_RESOLUTION
                        &&& k.1 < SUB_RESOLUTION
                        &&& k.2 < SUB_RESOLUTION
                        &&& plain_sub(final(block).grid()[k], final(block).grid()[k].id)
                        &&& strata_id(self.block_ids@, final(block).grid()[k].id)
                    }
                },
            world_y >= SEA_LEVEL - 8 ==> final(block).grid() == old(block).grid(),
    {
        let ghost g0 = block.grid();
        let ghost seed = rng.seed();
        let ghost h0 = rng.requests();
        if world_y < SEA_LEVEL - 8 && gen_ratio(rng, 1, 10) {
            let roll = gen_range_i32(rng, 0, 100);
            let count = gen_range_i32(rng, 1, 4);
            let ghost h3 = rng.requests();
            let res = SUB_RESOLUTION as u8;
            let mut cells: Vec<GridPos> = Vec::new();
            let mut i: i32 = 0;
            while i < count
                invariant
                    0 <= i <= count,
                    1 <= count < 4,
                    res == SUB_RESOLUTION,
                    rng.seed() == seed,
                    (cells@, rng.requests()) == cells_draw(seed, h3, i as int),
                    cells@.len() == i,
                    forall|j: int|
                        0 <= j < cells@.len() ==> (#[trigger] cells@[j]).0 < SUB_RESOLUTION && cells@[j].1
                            < SUB_RESOLUTION && cells@[j].2 < SUB_RESOLUTION,
                decreases count - i,
            {
                let gx = gen_range_u8(rng, 0, res);
                let gy = gen_range_u8(rng, 0, res);
                let gz = gen_range_u8(rng, 0, res);
                cells.push((gx, gy, gz));
                i = i + 1;
            }
            self.place_strata(block, world_y, true, roll, &cells);
            proof {
                assert(cells@.len() == count);
                assert(strata_outcome(self.block_ids@, g0, block.grid(), world_y as int, true, roll as int, cells@));
                let ore = named_id(self.block_ids@, strata_ore(roll as int));
                assert(strata_id(self.block_ids@, ore));
                assert forall|k: GridPos| #[trigger] block.grid().contains_key(k) implies {
                    ||| (g0.contains_key(k) && block.grid()[k] == g0[k])
                    ||| {
                        &&& k.0 < SUB_RESOLUTION
                        &&& k.1 < SUB_RESOLUTION
                        &&& k.2 < SUB_RESOLUTION
                        &&& plain_sub(block.grid()[k], block.grid()[k].id)
                        &&& strata_id(self.block_ids@, block.grid()[k].id)
                    }
                } by {
                    if cells@.contains(k) {
                        let j = choose|j: int| #![trigger cells@[j]] 0 <= j < cells@.len() && cells@[j] == k;
                        assert(cells@[j] == k);
                    }
                }
            }
        }
    }

    /// The id of the block named `name`, or the fallback id.
    pub open spec fn id_by_name_spec(&self, name: Seq<char>) -> BlockId {
        named_id(self.block_ids@, name)
    }
}

/// What the cell (x, y, z) of a chunk generated at `coord` holds: nothing
/// where the column rule gives air, else a generated block of the rule's id.
pub open spec fn generated_cell(
    ids: Seq<(String, BlockId)>,
    coord: ChunkCoord,
    columns: Seq<(BiomeType, i32)>,
    caves: Seq<bool>,
    x: int,
    y: int,
    z: int,
    cell: Option<Block>,
) -> bool {
    let (biome, height) = columns[x * CHUNK_SIZE + z];
    let world_y = coord.y * CHUNK_SIZE + y;
    let id = cell_block(ids, world_y, height as int, biome, caves[cell_index(CHUNK_SIZE as int, x, y, z)]);
    if id == BlockId::new_spec(0) {
        cell is None
    } else {
        cell matches Some(b) && generated_block(ids, biome, id, world_y, b)
    }
}

/// Whether the cell (a, y, c) comes before column (x0, z0) at height y0 in
/// generation order (x, then z, then y).
pub open spec fn generated_before(x0: int, z0: int, y0: int, a: int, b: int, c: int) -> bool {
    a < x0 || (a == x0 && c < z0) || (a == x0 && c == z0 && b < y0)
}

/// A chunk under generation: the cells before (x0, z0, y0) are generated,
/// the others empty.
pub open spec fn generation_progress(
    ids: Seq<(String, BlockId)>,
    coord: ChunkCoord,
    columns: Seq<(BiomeType, i32)>,
    caves: Seq<bool>,
    chunk: Chunk,
    x0: int,
    z0: int,
    y0: int,
) -> bool {
    &&& chunk.wf()
    &&& chunk.chunk_size == CHUNK_SIZE
    &&& chunk.sub_resolution == SUB_RESOLUTION
    &&& chunk.coord == coord
    &&& forall|a: int, b: int, c: int|
        0 <= a < CHUNK_SIZE && 0 <= b < CHUNK_SIZE && 0 <= c < CHUNK_SIZE ==> {
            &&& generated_before(x0, z0, y0, a, b, c) ==> generated_cell(
                ids,
                coord,
                columns,
                caves,
                a,
                b,
                c,
                #[trigger] chunk.cell(a, b, c),
            )
            &&& !generated_before(x0, z0, y0, a, b, c) ==> chunk.cell(a, b, c) is None
        }
}

/// Setting the cell (x, y, z) leaves every other cell as it was.
proof fn lemma_set_cell(c0: Chunk, c1: Chunk, x: int, y: int, z: int, v: Option<Block>)
    requires
        c0.wf(),
        c1.chunk_size == c0.chunk_size,
        0 <= x < c0.chunk_size,
        0 <= y < c0.chunk_size,
        0 <= z < c0.chunk_size,
        c1.blocks@ == c0.blocks@.update(cell_index(c0.chunk_size as int, x, y, z), v),
    ensures
        c1.cell(x, y, z) == v,
        forall|a: int, b: int, c: int|
            0 <= a < c0.chunk_size && 0 <= b < c0.chunk_size && 0 <= c < c0.chunk_size && !(a == x && b
                == y && c == z) ==> #[trigger] c1.cell(a, b, c) == c0.cell(a, b, c),
{
    lemma_cell_index(c0.chunk_size as int, x, y, z);
    assert forall|a: int, b: int, c: int|
        0 <= a < c0.chunk_size && 0 <= b < c0.chunk_size && 0 <= c < c0.chunk_size && !(a == x && b
            == y && c == z) implies #[trigger] c1.cell(a, b, c) == c0.cell(a, b, c) by {
        lemma_cell_index(c0.chunk_size as int, a, b, c);
    }
}

/// Filling the cell (x, y, z) with what generation gives it moves the
/// progress past that cell.
proof fn lemma_progress_step(
    ids: Seq<(String, BlockId)>,
    coord: ChunkCoord,
    columns: Seq<(BiomeType, i32)>,
    caves: Seq<bool>,
    c0: Chunk,
    c1: Chunk,
    x: int,
    z: int,
    y: int,
)
    requires
        0 <= x < CHUNK_SIZE,
        0 <= y < CHUNK_SIZE,
        0 <= z < CHUNK_SIZE,
        generation_progress(ids, coord, columns, caves, c0, x, z, y),
        c1.chunk_size == c0.chunk_size,
        c1.sub_resolution == c0.sub_resolution,
        c1.coord == c0.coord,
        c1.blocks@ == c0.blocks@.update(cell_index(CHUNK_SIZE as int, x, y, z), c1.cell(x, y, z)),
        generated_cell(ids, coord, columns, caves, x, y, z, c1.cell(x, y, z)),
    ensures
        generation_progress(ids, coord, columns, caves, c1, x, z, y + 1),
{
    lemma_set_cell(c0, c1, x, y, z, c1.cell(x, y, z));
    assert forall|a: int, b: int, c: int|
        0 <= a < CHUNK_SIZE && 0 <= b < CHUNK_SIZE && 0 <= c < CHUNK_SIZE implies {
            &&& generated_before(x, z, y + 1, a, b, c) ==> generated_cell(
                ids,
                coord,
                columns,
                caves,
                a,
                b,
                c,
                #[trigger] c1.cell(a, b, c),
            )
            &&& !generated_before(x, z, y + 1, a, b, c) ==> c1.cell(a, b, c) is None
        } by {
        if !(a == x && b == y && c == z) {
            assert(c1.cell(a, b, c) == c0.cell(a, b, c));
        }
    }
}

/// The ids of the sub-blocks of a new block that has the biome detail `d`
/// and is given the strata details `st`.
pub open spec fn cell_detail_ids(d: Option<(GridPos, BlockId)>, st: Option<(BlockId, Seq<GridPos>)>) -> Map<GridPos, BlockId> {
    let m0 = match d {
        Some((p, sid)) => Map::<GridPos, BlockId>::empty().insert(p, sid),
        None => Map::<GridPos, BlockId>::empty(),
    };
    match st {
        None => m0,
        Some((ore, cells)) => Map::new(
            |k: GridPos| m0.contains_key(k) || cells.contains(k),
            |k: GridPos|
                if cells.contains(k) {
                    ore
                } else {
                    m0[k]
                },
        ),
    }
}

/// Whether grid `g` holds plain sub-blocks with exactly the ids of `m`.
pub open spec fn grid_ids(g: Map<GridPos, SubBlock>, m: Map<GridPos, BlockId>) -> bool {
    &&& g.dom() == m.dom()
    &&& forall|k: GridPos| #[trigger] m.contains_key(k) ==> plain_sub(g[k], m[k])
}

/// What a cell whose column rule gives `id` holds, drawn after the requests
/// `h`, and the requests after it: nothing for air; else a block whose
/// sub-blocks are its biome detail and then its strata details.
pub open spec fn cell_outcome(
    ids: Seq<(String, BlockId)>,
    biome: BiomeType,
    id: BlockId,
    world_y: int,
    seed: u64,
    h: Seq<DrawRequest>,
) -> (Option<Map<GridPos, BlockId>>, Seq<DrawRequest>) {
    if id == BlockId::new_spec(0) {
        (None, h)
    } else {
        let (d, h1) = detail_draws(ids, biome, id, seed, h);
        let (st, h2) = strata_draws(ids, world_y, seed, h1);
        (Some(cell_detail_ids(d, st)), h2)
    }
}

/// Whether `cell` is what `o` says: empty, or a well-formed block of
/// `SUB_RESOLUTION` without connections whose sub-blocks have the ids of `o`.
pub open spec fn cell_is(cell: Option<Block>, o: Option<Map<GridPos, BlockId>>) -> bool {
    match o {
        None => cell is None,
        Some(m) => cell matches Some(b) && b.wf() && b.resolution == SUB_RESOLUTION
            && b.current_connections.spec_bits() == 0 && grid_ids(b.grid(), m),
    }
}

proof fn lemma_cell_grid(
    g0: Map<GridPos, SubBlock>,
    g1: Map<GridPos, SubBlock>,
    d: Option<(GridPos, BlockId)>,
    st: Option<(BlockId, Seq<GridPos>)>,
)
    requires
        holds_detail(g0, d),
        holds_strata(g0, g1, st),
    ensures
        grid_ids(g1, cell_detail_ids(d, st)),
{
    let m = cell_detail_ids(d, st);
    assert forall|k: GridPos| g1.contains_key(k) <==> m.contains_key(k) by {
        match d {
            Some((p, sid)) => {
                assert(g0.contains_key(k) <==> k == p);
            },
            None => {},
        }
    }
    assert(g1.dom() =~= m.dom());
}

/// The position of cell (x, y, z) in generation order: x, then z, then y.
pub open spec fn gen_index(x: int, y: int, z: int) -> int {
    (x * CHUNK_SIZE + z) * CHUNK_SIZE + y
}

/// The cell (x, y, z) at position `t` of generation order.
pub open spec fn gen_cell(t: int) -> (int, int, int) {
    (t / (CHUNK_SIZE * CHUNK_SIZE) as int, t % CHUNK_SIZE as int, (t / CHUNK_SIZE as int) % CHUNK_SIZE as int)
}

/// The column rule of cell (x, y, z) of the chunk at `coord`: its biome,
/// the id of its block, and its height in the world.
pub open spec fn cell_rule(
    ids: Seq<(String, BlockId)>,
    coord: ChunkCoord,
    columns: Seq<(BiomeType, i32)>,
    caves: Seq<bool>,
    x: int,
    y: int,
    z: int,
) -> (BiomeType, BlockId, int) {
    let (biome, height) = columns[x * CHUNK_SIZE + z];
    let world_y = coord.y * CHUNK_SIZE + y;
    (biome, cell_block(ids, world_y, height as int, biome, caves[cell_index(CHUNK_SIZE as int, x, y, z)]), world_y)
}

/// The requests that generating the first `t` cells (in generation order)
/// of the chunk at `coord` makes of a stream seeded with `seed`.
pub open spec fn requests_before(
    ids: Seq<(String, BlockId)>,
    coord: ChunkCoord,
    columns: Seq<(BiomeType, i32)>,
    caves: Seq<bool>,
    seed: u64,
    t: int,
) -> Seq<DrawRequest>
    decreases t,
{
    if t <= 0 {
        Seq::empty()
    } else {
        let (x, y, z) = gen_cell(t - 1);
        let (biome, id, world_y) = cell_rule(ids, coord, columns, caves, x, y, z);
        cell_outcome(ids, biome, id, world_y, seed, requests_before(ids, coord, columns, caves, seed, t - 1)).1
    }
}

/// What cell (x, y, z) of the chunk at `coord` holds when the chunk is
/// generated from a stream seeded with `seed`: its `cell_outcome`, drawn
/// after the requests of the cells before it.
#[verifier::opaque]
pub open spec fn chunk_cell_outcome(
    ids: Seq<(String, BlockId)>,
    coord: ChunkCoord,
    columns: Seq<(BiomeType, i32)>,
    caves: Seq<bool>,
    seed: u64,
    x: int,
    y: int,
    z: int,
) -> Option<Map<GridPos, BlockId>> {
    let (biome, id, world_y) = cell_rule(ids, coord, columns, caves, x, y, z);
    cell_outcome(ids, biome, id, world_y, seed, requests_before(ids, coord, columns, caves, seed, gen_index(x, y, z))).0
}

proof fn lemma_gen_cell(x: int, y: int, z: int)
    requires
        0 <= x < CHUNK_SIZE,
        0 <= y < CHUNK_SIZE,
        0 <= z < CHUNK_SIZE,
    ensures
        gen_cell(gen_index(x, y, z)) == (x, y, z),
{
    let t = gen_index(x, y, z);
    lemma_fundamental_div_mod_converse(t, CHUNK_SIZE as int, x * CHUNK_SIZE + z, y);
    lemma_fundamental_div_mod_converse(x * CHUNK_SIZE + z, CHUNK_SIZE as int, x, z);
    lemma_fundamental_div_mod_converse(t, (CHUNK_SIZE * CHUNK_SIZE) as int, x, z * CHUNK_SIZE + y);
}

/// Whether the cells of `chunk` before (x0, z0, y0) in generation order hold
/// their exact outcomes.
pub open spec fn exact_progress(
    ids: Seq<(String, BlockId)>,
    coord: ChunkCoord,
    columns: Seq<(BiomeType, i32)>,
    caves: Seq<bool>,
    seed: u64,
    chunk: Chunk,
    x0: int,
    z0: int,
    y0: int,
) -> bool {
    forall|a: int, b: int, c: int|
        0 <= a < CHUNK_SIZE && 0 <= b < CHUNK_SIZE && 0 <= c < CHUNK_SIZE && generated_before(x0, z0, y0, a, b, c)
            ==> cell_is(#[trigger] chunk.cell(a, b, c), chunk_cell_outcome(ids, coord, columns, caves, seed, a, b, c))
}

/// Generation is deterministic: two chunks generated by generators with the
/// same world seed and block names, at the same position, from the same
/// column and cave values, hold at every cell the same thing: both nothing,
/// or blocks whose sub-blocks lie at the same cells with the same ids.
pub proof fn lemma_generation_deterministic(
    ids: Seq<(String, BlockId)>,
    seed: u32,
    coord: ChunkCoord,
    columns: Seq<(BiomeType, i32)>,
    caves: Seq<bool>,
    r1: Chunk,
    r2: Chunk,
    x: int,
    y: int,
    z: int,
)
    requires
        cell_is(r1.cell(x, y, z), chunk_cell_outcome(ids, coord, columns, caves, seed_of_chunk(seed, coord.x, coord.z), x, y, z)),
        cell_is(r2.cell(x, y, z), chunk_cell_outcome(ids, coord, columns, caves, seed_of_chunk(seed, coord.x, coord.z), x, y, z)),
    ensures
        r1.cell(x, y, z) is None <==> r2.cell(x, y, z) is None,
        r1.cell(x, y, z) is Some && r2.cell(x, y, z) is Some ==> {
            let b1 = r1.cell(x, y, z).unwrap();
            let b2 = r2.cell(x, y, z).unwrap();
            &&& b1.grid().dom() == b2.grid().dom()
            &&& forall|k: GridPos| #[trigger] b1.grid().contains_key(k) ==> b1.grid()[k].id == b2.grid()[k].id
        },
{
}

proof fn lemma_exact_step(
    ids: Seq<(String, BlockId)>,
    coord: ChunkCoord,
    columns: Seq<(BiomeType, i32)>,
    caves: Seq<bool>,
    seed: u64,
    c0: Chunk,
    c1: Chunk,
    x: int,
    z: int,
    y: int,
)
    requires
        0 <= x < CHUNK_SIZE,
        0 <= y < CHUNK_SIZE,
        0 <= z < CHUNK_SIZE,
        c0.wf(),
        c0.chunk_size == CHUNK_SIZE,
        c1.chunk_size == c0.chunk_size,
        exact_progress(ids, coord, columns, caves, seed, c0, x, z, y),
        c1.blocks@ == c0.blocks@.update(cell_index(CHUNK_SIZE as int, x, y, z), c1.cell(x, y, z)),
        cell_is(c1.cell(x, y, z), chunk_cell_outcome(ids, coord, columns, caves, seed, x, y, z)),
    ensures
        exact_progress(ids, coord, columns, caves, seed, c1, x, z, y + 1),
{
    lemma_set_cell(c0, c1, x, y, z, c1.cell(x, y, z));
    assert forall|a: int, b: int, c: int|
        0 <= a < CHUNK_SIZE && 0 <= b < CHUNK_SIZE && 0 <= c < CHUNK_SIZE && generated_before(x, z, y + 1, a, b, c)
            implies cell_is(#[trigger] c1.cell(a, b, c), chunk_cell_outcome(ids, coord, columns, caves, seed, a, b, c)) by {
        if !(a == x && b == y && c == z) {
            assert(c1.cell(a, b, c) == c0.cell(a, b, c));
        }
    }
}

impl TerrainGenerator {
    /// What generation puts in a cell whose column rule gives `block_id`:
    /// nothing for air, else a block made by `create_block` and given strata
    /// details.
    fn generate_cell(&self, block_id: BlockId, biome: BiomeType, world_y: i32, rng: &mut RandomStream) -> (r:
        Option<Block>)
        ensures
            block_id == BlockId::new_spec(0) ==> r is None,
            block_id != BlockId::new_spec(0) ==> (r matches Some(b) && generated_block(
                self.block_ids@,
                biome,
                block_id,
                world_y as int,
                b,
            )),
            final(rng).seed() == old(rng).seed(),
            ({
                let (o, h) = cell_outcome(self.block_ids@, biome, block_id, world_y as int, old(rng).seed(), old(rng).requests());
                final(rng).requests() == h && cell_is(r, o)
            }),
    {
        if block_id == BlockId::air() {
            return None;
        }
        let mut block = self.create_block(block_id, biome, rng);
        let ghost g0 = block.grid();
        self.add_strata_details(&mut block, world_y, rng);
        proof {
            let (d, h1) = detail_draws(self.block_ids@, biome, block_id, old(rng).seed(), old(rng).requests());
            let (st, h2) = strata_draws(self.block_ids@, world_y as int, old(rng).seed(), h1);
            lemma_cell_grid(g0, block.grid(), d, st);
        }
        proof {
            let ids = self.block_ids@;
            assert forall|k: GridPos| #[trigger] block.grid().contains_key(k) implies {
                &&& k.0 < SUB_RESOLUTION
                &&& k.1 < SUB_RESOLUTION
                &&& k.2 < SUB_RESOLUTION
                &&& plain_sub(block.grid()[k], block.grid()[k].id)
                &&& biome_detail(ids, biome, block_id, block.grid()[k].id) || (world_y < SEA_LEVEL - 8
                    && strata_id(ids, block.grid()[k].id))
            } by {}
        }
        Some(block)
    }

    /// Generates the chunk at `coord`. `columns` gives, for each column
    /// (x, z) at x * 32 + z, its biome and surface height; `caves` gives, for
    /// each cell at its storage index, whether the cave field carves it out.
    /// Each cell gets the block of the column rule (`cell_block`), made by
    /// `create_block` and given strata details, from a random stream seeded
    /// by the world seed and the chunk's position (`chunk_seed`); the cells
    /// draw from it in generation order (see `chunk_cell_outcome`).
    #[verifier::spinoff_prover]
    pub fn generate_chunk(&self, coord: ChunkCoord, columns: &Vec<(BiomeType, i32)>, caves: &Vec<bool>) -> (r: Chunk)
        requires
            columns@.len() == CHUNK_SIZE * CHUNK_SIZE,
            caves@.len() == CHUNK_SIZE * CHUNK_SIZE * CHUNK_SIZE,
            -0x400_0000 <= coord.y < 0x400_0000,
        ensures
            r.wf(),
            r.chunk_size == CHUNK_SIZE,
            r.sub_resolution == SUB_RESOLUTION,
            r.coord == coord,
            forall|x: int, y: int, z: int|
                0 <= x < CHUNK_SIZE && 0 <= y < CHUNK_SIZE && 0 <= z < CHUNK_SIZE ==> generated_cell(
                    self.block_ids@,
                    coord,
                    columns@,
                    caves@,
                    x,
                    y,
                    z,
                    #[trigger] r.cell(x, y, z),
                ),
            forall|x: int, y: int, z: int|
                0 <= x < CHUNK_SIZE && 0 <= y < CHUNK_SIZE && 0 <= z < CHUNK_SIZE ==> cell_is(
                    #[trigger] r.cell(x, y, z),
                    chunk_cell_outcome(
                        self.block_ids@,
                        coord,
                        columns@,
                        caves@,
                        seed_of_chunk(self.seed, coord.x, coord.z),
                        x,
                        y,
                        z,
                    ),
                ),
    {
        let mut chunk = Chunk::new(CHUNK_SIZE, SUB_RESOLUTION, coord);
        let seed = chunk_seed(self.seed, coord.x, coord.z);
        let mut rng = RandomStream::new(seed);
        let ghost ids = self.block_ids@;
        let mut x: usize = 0;
        while x < CHUNK_SIZE
            invariant
                x <= CHUNK_SIZE,
                ids == self.block_ids@,
                columns@.len() == CHUNK_SIZE * CHUNK_SIZE,
                caves@.len() == CHUNK_SIZE * CHUNK_SIZE * CHUNK_SIZE,
                -0x400_0000 <= coord.y < 0x400_0000,
                generation_progress(ids, coord, columns@, caves@, chunk, x as int, 0, 0),
                seed == seed_of_chunk(self.seed, coord.x, coord.z),
                rng.seed() == seed,
                rng.requests() == requests_before(ids, coord, columns@, caves@, seed, gen_index(x as int, 0, 0)),
                exact_progress(ids, coord, columns@, caves@, seed, chunk, x as int, 0, 0),
            decreases CHUNK_SIZE - x,
        {
            let mut z: usize = 0;
            while z < CHUNK_SIZE
                invariant
                    x < CHUNK_SIZE,
                    z <= CHUNK_SIZE,
                    ids == self.block_ids@,
                    columns@.len() == CHUNK_SIZE * CHUNK_SIZE,
                    caves@.len() == CHUNK_SIZE * CHUNK_SIZE * CHUNK_SIZE,
                    -0x400_0000 <= coord.y < 0x400_0000,
                    generation_progress(ids, coord, columns@, caves@, chunk, x as int, z as int, 0),
                    seed == seed_of_chunk(self.seed, coord.x, coord.z),
                    rng.seed() == seed,
                    rng.requests() == requests_before(ids, coord, columns@, caves@, seed, gen_index(x as int, 0, z as int)),
                    exact_progress(ids, coord, columns@, caves@, seed, chunk, x as int, z as int, 0),
                decreases CHUNK_SIZE - z,
            {
                let (biome, height) = columns[x * CHUNK_SIZE + z];
                let mut y: usize = 0;
                while y < CHUNK_SIZE
                    invariant
                        x < CHUNK_SIZE,
                        z < CHUNK_SIZE,
                        y <= CHUNK_SIZE,
                        ids == self.block_ids@,
                        columns@.len() == CHUNK_SIZE * CHUNK_SIZE,
                        caves@.len() == CHUNK_SIZE * CHUNK_SIZE * CHUNK_SIZE,
                        -0x400_0000 <= coord.y < 0x400_0000,
                        (biome, height) == columns@[x * CHUNK_SIZE + z],
                        generation_progress(ids, coord, columns@, caves@, chunk, x as int, z as int, y as int),
                        seed == seed_of_chunk(self.seed, coord.x, coord.z),
                        rng.seed() == seed,
                        rng.requests() == requests_before(ids, coord, columns@, caves@, seed, gen_index(x as int, y as int, z as int)),
                        exact_progress(ids, coord, columns@, caves@, seed, chunk, x as int, z as int, y as int),
                    decreases CHUNK_SIZE - y,
                {
                    let world_y = coord.y * 32i32 + y as i32;
                    let cave = caves[(x * CHUNK_SIZE + y) * CHUNK_SIZE + z];
                    let block_id = self.cell_block_id(world_y, height, biome, cave);
                    let cell = self.generate_cell(block_id, biome, world_y, &mut rng);
                    let ghost c0 = chunk;
                    if cell.is_some() {
                        chunk.set_block(x, y, z, cell);
                    }
                    proof {
                        lemma_cell_index(CHUNK_SIZE as int, x as int, y as int, z as int);
                        if cell.is_none() {
                            assert(c0.cell(x as int, y as int, z as int) is None);
                            assert(chunk.blocks@ =~= c0.blocks@.update(
                                cell_index(CHUNK_SIZE as int, x as int, y as int, z as int),
                                chunk.cell(x as int, y as int, z as int),
                            ));
                        }
                        lemma_progress_step(ids, coord, columns@, caves@, c0, chunk, x as int, z as int, y as int);
                        lemma_gen_cell(x as int, y as int, z as int);
                        assert(gen_index(x as int, y as int, z as int) + 1 == gen_index(x as int, y + 1, z as int));
                        reveal(chunk_cell_outcome);
                        lemma_exact_step(ids, coord, columns@, caves@, seed, c0, chunk, x as int, z as int, y as int);
                    }
                    y = y + 1;
                }
                proof {
                    assert forall|a: int, b: int, c: int|
                        0 <= a < CHUNK_SIZE && 0 <= b < CHUNK_SIZE && 0 <= c < CHUNK_SIZE implies
                        generated_before(x as int, z as int, CHUNK_SIZE as int, a, b, c)
                        == generated_before(x as int, z + 1, 0, a, b, c) by {}
                }
                z = z + 1;
            }
            proof {
                assert forall|a: int, b: int, c: int|
                    0 <= a < CHUNK_SIZE && 0 <= b < CHUNK_SIZE && 0 <= c < CHUNK_SIZE implies
                    generated_before(x as int, CHUNK_SIZE as int, 0, a, b, c)
                    == generated_before(x + 1, 0, 0, a, b, c) by {}
            }
            x = x + 1;
        }
        chunk
    }
}

/// A position in the world, in blocks.
pub type WorldPos = (i32, i32, i32);

/// Whether some entry of `s` is at `p`.
pub open spec fn has_pos(s: Seq<(WorldPos, Block)>, p: WorldPos) -> bool {
    exists|i: int| 0 <= i < s.len() && (#[trigger] s[i]).0 == p
}

/// Whether no two entries of `s` are at the same position.
pub open spec fn world_positions_unique(s: Seq<(WorldPos, Block)>) -> bool {
    forall|i: int, j: int| 0 <= i < j < s.len() ==> (#[trigger] s[i]).0 != (#[trigger] s[j]).0
}

/// Whether a block is empty: no sub-block, `SUB_RESOLUTION`, no connection.
pub open spec fn empty_block(b: Block) -> bool {
    &&& b.sub_blocks@.len() == 0
    &&& b.resolution == SUB_RESOLUTION
    &&& b.current_connections.spec_bits() == 0
}

/// Puts an empty block at `pos`, replacing the entry there if there is one.
fn put_empty_block(blocks: &mut Vec<(WorldPos, Block)>, pos: WorldPos, block: Block)
    requires
        world_positions_unique(old(blocks)@),
        empty_block(block),
        forall|i: int| 0 <= i < old(blocks)@.len() ==> empty_block(#[trigger] old(blocks)@[i].1),
    ensures
        world_positions_unique(final(blocks)@),
        forall|i: int| 0 <= i < final(blocks)@.len() ==> empty_block(#[trigger] final(blocks)@[i].1),
        forall|q: WorldPos| #[trigger] has_pos(final(blocks)@, q) <==> (has_pos(old(blocks)@, q) || q == pos),
{
    let mut i: usize = 0;
    while i < blocks.len()
        invariant
            i <= blocks@.len(),
            blocks@ == old(blocks)@,
            world_positions_unique(old(blocks)@),
            empty_block(block),
            forall|j: int| 0 <= j < old(blocks)@.len() ==> empty_block(#[trigger] old(blocks)@[j].1),
            forall|j: int| 0 <= j < i ==> (#[trigger] blocks@[j]).0 != pos,
        decreases blocks@.len() - i,
    {
        let p: WorldPos = blocks[i].0;
        if p.0 == pos.0 && p.1 == pos.1 && p.2 == pos.2 {
            let ghost s0 = blocks@;
            blocks.set(i, (pos, block));
            proof {
                assert(p == pos);
                assert forall|q: WorldPos| #[trigger] has_pos(blocks@, q) <==> (has_pos(s0, q) || q == pos) by {
                    if has_pos(s0, q) {
                        let k = choose|k: int| 0 <= k < s0.len() && (#[trigger] s0[k]).0 == q;
                        assert(blocks@[k].0 == q);
                    }
                    if q == pos {
                        assert(blocks@[i as int].0 == q);
                    }
                    if has_pos(blocks@, q) {
                        let k = choose|k: int| 0 <= k < blocks@.len() && (#[trigger] blocks@[k]).0 == q;
                        assert(s0[k].0 == q);
                    }
                }
                assert forall|a: int, b: int| 0 <= a < b < blocks@.len() implies (#[trigger] blocks@[a]).0
                    != (#[trigger] blocks@[b]).0 by {
                    assert(blocks@[a].0 == s0[a].0);
                    assert(blocks@[b].0 == s0[b].0);
                }
                assert forall|a: int| 0 <= a < blocks@.len() implies empty_block(#[trigger] blocks@[a].1) by {
                    if a != i {
                        assert(blocks@[a] == s0[a]);
                    }
                }
            }
            return;
        }
        i = i + 1;
    }
    let ghost s0 = blocks@;
    blocks.push((pos, block));
    proof {
        assert forall|q: WorldPos| #[trigger] has_pos(blocks@, q) <==> (has_pos(s0, q) || q == pos) by {
            if has_pos(s0, q) {
                let k = choose|k: int| 0 <= k < s0.len() && (#[trigger] s0[k]).0 == q;
                assert(blocks@[k].0 == q);
            }
            if q == pos {
                assert(blocks@[s0.len() as int].0 == q);
            }
            if has_pos(blocks@, q) {
                let k = choose|k: int| 0 <= k < blocks@.len() && (#[trigger] blocks@[k]).0 == q;
                if k < s0.len() {
                    assert(s0[k].0 == q);
                }
            }
        }
        assert forall|a: int, b: int| 0 <= a < b < blocks@.len() implies (#[trigger] blocks@[a]).0
            != (#[trigger] blocks@[b]).0 by {
            if b < s0.len() {
                assert(blocks@[a] == s0[a] && blocks@[b] == s0[b]);
            } else {
                assert(blocks@[a] == s0[a]);
            }
        }
    }
}

/// The trunk height of a tree: four to six, by the base's x.
pub open spec fn tree_height(base: WorldPos) -> int {
    4 + (if base.0 < 0 { -base.0 } else { base.0 as int }) % 3
}

/// Whether `p` is in the trunk: the column above the base, as high as the
/// tree.
pub open spec fn in_trunk(base: WorldPos, p: WorldPos) -> bool {
    p.0 == base.0 && p.2 == base.2 && base.1 <= p.1 < base.1 + tree_height(base)
}

/// Whether `p` is in the crown: the cells within distance 2 of the point two
/// below the trunk's top, at most 2 away in x and z and 1 in y.
pub open spec fn in_crown(base: WorldPos, p: WorldPos) -> bool {
    let dx = p.0 - base.0;
    let dy = p.1 - (base.1 + tree_height(base) - 2);
    let dz = p.2 - base.2;
    &&& -2 <= dx <= 2
    &&& -2 <= dz <= 2
    &&& -1 <= dy <= 1
    &&& dx * dx + dz * dz + dy * dy <= 4
}

/// The crown offset that step `t` of the crown loop visits: x outermost,
/// then z, then y.
pub open spec fn crown_offset(t: int) -> (int, int, int) {
    (t / 15 - 2, t % 3 - 1, (t / 3) % 5 - 2)
}

/// The step of the crown loop that visits an offset.
pub open spec fn crown_step(dx: int, dy: int, dz: int) -> int {
    (dx + 2) * 15 + (dz + 2) * 3 + (dy + 1)
}

/// Steps and offsets correspond one to one.
proof fn lemma_crown_step(t: int)
    requires
        0 <= t < 75,
    ensures
        -2 <= crown_offset(t).0 <= 2,
        -1 <= crown_offset(t).1 <= 1,
        -2 <= crown_offset(t).2 <= 2,
        crown_step(crown_offset(t).0, crown_offset(t).1, crown_offset(t).2) == t,
{
}

impl TerrainGenerator {
    /// The blocks of a tree standing on `base`: a trunk of logs four to six
    /// high, and a crown of leaves around the point two below its top, which
    /// replaces the trunk where they meet. Each position holds one block.
    pub fn generate_tree(&self, base: WorldPos) -> (r: Vec<(WorldPos, Block)>)
        requires
            i32::MIN + 2 <= base.0 <= i32::MAX - 2,
            i32::MIN <= base.1,
            base.1 + 6 <= i32::MAX,
            i32::MIN + 2 <= base.2 <= i32::MAX - 2,
        ensures
            world_positions_unique(r@),
            forall|i: int| 0 <= i < r@.len() ==> empty_block(#[trigger] r@[i].1),
            forall|p: WorldPos| #[trigger] has_pos(r@, p) <==> (in_trunk(base, p) || in_crown(base, p)),
    {
        let trunk_id = self.id_by_name("log");
        let leaves_id = self.id_by_name("leaves");
        let ax: i32 = if base.0 < 0 {
            -base.0
        } else {
            base.0
        };
        let height: i32 = 4 + ax % 3;
        let mut blocks: Vec<(WorldPos, Block)> = Vec::new();
        let mut y: i32 = 0;
        while y < height
            invariant
                0 <= y <= height,
                height == tree_height(base),
                base.1 + 6 <= i32::MAX,
                world_positions_unique(blocks@),
                forall|i: int| 0 <= i < blocks@.len() ==> empty_block(#[trigger] blocks@[i].1),
                forall|p: WorldPos| #[trigger]
                    has_pos(blocks@, p) <==> (in_trunk(base, p) && p.1 < base.1 + y),
            decreases height - y,
        {
            let block = Block::new(trunk_id, SUB_RESOLUTION as u8);
            put_empty_block(&mut blocks, (base.0, base.1 + y, base.2), block);
            y = y + 1;
        }
        let cy = base.1 + height - 2;
        let mut t: i32 = 0;
        while t < 75
            invariant
                0 <= t <= 75,
                height == tree_height(base),
                cy == base.1 + height - 2,
                i32::MIN + 2 <= base.0 <= i32::MAX - 2,
                i32::MIN <= base.1,
                base.1 + 6 <= i32::MAX,
                i32::MIN + 2 <= base.2 <= i32::MAX - 2,
                world_positions_unique(blocks@),
                forall|i: int| 0 <= i < blocks@.len() ==> empty_block(#[trigger] blocks@[i].1),
                forall|p: WorldPos| #[trigger]
                    has_pos(blocks@, p) <==> (in_trunk(base, p) || (in_crown(base, p) && crown_step(
                        p.0 - base.0,
                        p.1 - cy,
                        p.2 - base.2,
                    ) < t)),
            decreases 75 - t,
        {
            proof {
                lemma_crown_step(t as int);
            }
            let dx = t / 15 - 2;
            let dy = t % 3 - 1;
            let dz = (t / 3) % 5 - 2;
            proof {
                assert(0 <= dx * dx <= 4 && 0 <= dy * dy <= 4 && 0 <= dz * dz <= 4) by (nonlinear_arith)
                    requires
                        -2 <= dx <= 2,
                        -2 <= dy <= 2,
                        -2 <= dz <= 2,
                ;
            }
            if dx * dx + dz * dz + dy * dy <= 4 {
                let block = Block::new(leaves_id, SUB_RESOLUTION as u8);
                put_empty_block(&mut blocks, (base.0 + dx, cy + dy, base.2 + dz), block);
            }
            proof {
                assert forall|p: WorldPos| #[trigger]
                    has_pos(blocks@, p) <==> (in_trunk(base, p) || (in_crown(base, p) && crown_step(
                        p.0 - base.0,
                        p.1 - cy,
                        p.2 - base.2,
                    ) < t + 1)) by {
                    if in_crown(base, p) && crown_step(p.0 - base.0, p.1 - cy, p.2 - base.2) == t {
                        assert(p.0 - base.0 == dx && p.1 - cy == dy && p.2 - base.2 == dz) by (nonlinear_arith)
                            requires
                                crown_step(p.0 - base.0, p.1 - cy, p.2 - base.2) == t,
                                -2 <= p.0 - base.0 <= 2,
                                -1 <= p.1 - cy <= 1,
                                -2 <= p.2 - base.2 <= 2,
                                dx == t / 15 - 2,
                                dy == t % 3 - 1,
                                dz == (t / 3) % 5 - 2,
                                0 <= t < 75,
                        ;
                    }
                }
            }
            t = t + 1;
        }
        proof {
            assert forall|p: WorldPos| in_crown(base, p) implies crown_step(
                p.0 - base.0,
                p.1 - cy,
                p.2 - base.2,
            ) < 75 by {}
        }
        blocks
    }
}

} // verus!
