//! Blocks placed in the world, and the chunk: a 16 x 256 x 16 column of cells
//! that holds blocks, a height map and a light map.
use std::collections::HashMap;
use vstd::prelude::*;

verus! {

broadcast use {vstd::std_specs::hash::group_hash_axioms, vstd::set::group_set_axioms};

/// Width and depth of a chunk, in cells.
pub const CHUNK_SIZE: i32 = 16;

/// Height of a chunk, in cells.
pub const CHUNK_HEIGHT: i32 = 256;

/// Number of cells in a chunk.
pub const CHUNK_VOLUME: usize = 65536;

/// Physical properties of a block. Quantities that are real numbers
/// (friction, restitution, density, viscosity, break time, collision box)
/// are kept in thousandths.
pub struct BlockProperties {
    pub friction: i32,
    pub restitution: i32,
    pub density: i32,
    pub viscosity: i32,
    pub is_solid: bool,
    pub is_liquid: bool,
    pub is_transparent: bool,
    pub break_time: i32,
    pub light_emission: u8,
    pub texture_path: String,
    /// (min corner, max corner), in thousandths of a cell.
    pub collision_box: ((i32, i32, i32), (i32, i32, i32)),
}

impl BlockProperties {
    /// An equal copy of these properties.
    pub fn duplicate(&self) -> (r: Self)
        ensures
            r == *self,
    {
        BlockProperties {
            friction: self.friction,
            restitution: self.restitution,
            density: self.density,
            viscosity: self.viscosity,
            is_solid: self.is_solid,
            is_liquid: self.is_liquid,
            is_transparent: self.is_transparent,
            break_time: self.break_time,
            light_emission: self.light_emission,
            texture_path: self.texture_path.clone(),
            collision_box: self.collision_box,
        }
    }
}

/// A block placed in the world. `health` (1000 is intact) and `temperature`
/// (in thousandths of a kelvin) are kept in thousandths.
pub struct Block {
    pub id: String,
    pub position: (i32, i32, i32),
    pub properties: BlockProperties,
    pub health: i32,
    pub light_level: u8,
    pub temperature: i32,
    pub last_updated: u64,
}

/// Full health of a block, in thousandths.
pub const FULL_HEALTH: i32 = 1000;

/// Temperature of a new block (293 K), in thousandths of a kelvin.
pub const AMBIENT_TEMPERATURE: i32 = 293000;

impl Block {
    /// A new, intact block at ambient temperature, lit by its own emission.
    pub fn new(id: String, position: (i32, i32, i32), properties: BlockProperties) -> (r: Result<
        Block,
        BlockError,
    >)
        ensures
            r matches Ok(b) && b.id@ == id@ && b.position == position && b.properties
                == properties && b.health == FULL_HEALTH && b.light_level
                == properties.light_emission && b.temperature == AMBIENT_TEMPERATURE
                && b.last_updated == 0,
    {
        let light = properties.light_emission;
        Ok(
            Block {
                id,
                position,
                properties,
                health: FULL_HEALTH,
                light_level: light,
                temperature: AMBIENT_TEMPERATURE,
                last_updated: 0,
            },
        )
    }

    /// Whether the block stops movement.
    pub fn is_solid(&self) -> (r: bool)
        ensures
            r == self.properties.is_solid,
    {
        self.properties.is_solid
    }
}

/// Errors of block operations.
#[derive(Debug, PartialEq, Eq)]
pub enum BlockError {
    InvalidIdFormat,
    UnknownType,
    BlockNotFound(String),
    ConnectionError(String),
    MaterialError(String),
    ColorVariantError(String),
}

/// Errors of chunk operations.
#[derive(Debug, PartialEq, Eq)]
pub enum ChunkError {
    OutOfBounds,
    BlockError(BlockError),
    NotLoaded,
    AlreadyExists,
}

/// Whether a local position lies inside a chunk.
pub open spec fn spec_in_bounds(x: int, y: int, z: int) -> bool {
    0 <= x < 16 && 0 <= y < 256 && 0 <= z < 16
}

/// The cell number of a local position: layers of 16 x 16 cells, bottom up.
pub open spec fn cell_index(x: int, y: int, z: int) -> int {
    y * 256 + z * 16 + x
}

/// The column number of a local (x, z) position.
pub open spec fn column_index(x: int, z: int) -> int {
    z * 16 + x
}

/// The block of `cells` at a local position, if any.
pub open spec fn cell_block(cells: Map<u32, Block>, x: int, y: int, z: int) -> Option<Block> {
    if spec_in_bounds(x, y, z) && cells.contains_key(cell_index(x, y, z) as u32) {
        Some(cells[cell_index(x, y, z) as u32])
    } else {
        None
    }
}

/// The highest y at or below `y` whose cell in column (x, z) holds a block,
/// or -1 when there is none.
pub open spec fn top_in(cells: Map<u32, Block>, x: int, z: int, y: int) -> int
    decreases y + 1,
{
    if y < 0 {
        -1
    } else if cell_block(cells, x, y, z) is Some {
        y
    } else {
        top_in(cells, x, z, y - 1)
    }
}

/// A chunk: the blocks of a 16 x 256 x 16 region, with a height map and a
/// light map.
pub struct Chunk {
    /// Chunk coordinates (x, z).
    pub position: (i32, i32),
    blocks: HashMap<u32, Block>,
    block_count: usize,
    dirty: bool,
    light_map: Vec<u8>,
    height_map: Vec<i16>,
    mesh_dirty: bool,
    collision_dirty: bool,
}

/// The set of the numbers below `n`.
proof fn lemma_u32_range_len(n: u32)
    ensures
        Set::new(|k: u32| k < n).finite(),
        Set::new(|k: u32| k < n).len() == n,
    decreases n,
{
    if n == 0 {
        assert(Set::new(|k: u32| k < n) =~= Set::<u32>::empty());
    } else {
        let m = (n - 1) as u32;
        lemma_u32_range_len(m);
        assert(Set::new(|k: u32| k < n) =~= Set::new(|k: u32| k < m).insert(m));
    }
}

impl Chunk {
    /// The blocks of the chunk, by cell number.
    pub closed spec fn cells(&self) -> Map<u32, Block> {
        self.blocks@
    }

    /// The block in a cell, if any.
    pub open spec fn block_at(&self, x: int, y: int, z: int) -> Option<Block> {
        cell_block(self.cells(), x, y, z)
    }

    /// The height recorded for a column.
    pub closed spec fn height_at(&self, x: int, z: int) -> int {
        self.height_map@[column_index(x, z)] as int
    }

    /// The light level recorded for a cell.
    pub closed spec fn light_at(&self, x: int, y: int, z: int) -> u8 {
        self.light_map@[cell_index(x, y, z)]
    }

    /// The number of blocks in the chunk.
    pub closed spec fn count(&self) -> nat {
        self.blocks@.len()
    }

    /// Two chunks hold the same blocks, heights and light levels at the same
    /// coordinates.
    pub closed spec fn same_contents(&self, other: &Chunk) -> bool {
        &&& self.blocks == other.blocks
        &&& self.block_count == other.block_count
        &&& self.light_map == other.light_map
        &&& self.height_map == other.height_map
        &&& self.position == other.position
    }

    /// Two chunks are in the same observable state: same blocks, heights,
    /// light levels, coordinates and flags.
    pub closed spec fn same_state(&self, other: &Chunk) -> bool {
        &&& self.blocks@ == other.blocks@
        &&& self.block_count == other.block_count
        &&& self.light_map@ == other.light_map@
        &&& self.height_map@ == other.height_map@
        &&& self.position == other.position
        &&& self.dirty == other.dirty
        &&& self.mesh_dirty == other.mesh_dirty
        &&& self.collision_dirty == other.collision_dirty
    }

    /// The chunk coordinates (x, z).
    pub closed spec fn coords(&self) -> (i32, i32) {
        self.position
    }

    pub closed spec fn spec_dirty(&self) -> bool {
        self.dirty
    }

    pub closed spec fn spec_mesh_dirty(&self) -> bool {
        self.mesh_dirty
    }

    pub closed spec fn spec_collision_dirty(&self) -> bool {
        self.collision_dirty
    }

    /// The highest y at or below `y` whose cell in column (x, z) holds a block,
    /// or -1 when there is none.
    pub open spec fn top_below(&self, x: int, z: int, y: int) -> int {
        top_in(self.cells(), x, z, y)
    }

    /// The highest y whose cell in column (x, z) holds a block, or -1.
    pub open spec fn column_top(&self, x: int, z: int) -> int {
        self.top_below(x, z, 255)
    }

    /// The chunk's internal invariant. The recorded height of a column is the
    /// top of the column when the column holds a block, and 0 or -1 otherwise.
    pub closed spec fn wf(&self) -> bool {
        &&& self.light_map@.len() == CHUNK_VOLUME
        &&& self.height_map@.len() == 256
        &&& forall|k: u32| #[trigger] self.blocks@.contains_key(k) ==> k < 65536
        &&& self.block_count == self.blocks@.len()
        &&& self.blocks@.dom().finite()
        &&& forall|x: int, z: int|
            0 <= x < 16 && 0 <= z < 16 ==> #[trigger] self.height_consistent(x, z)
    }

    /// The recorded height of a column agrees with its contents.
    pub open spec fn height_consistent(&self, x: int, z: int) -> bool {
        if self.column_top(x, z) >= 0 {
            self.height_at(x, z) == self.column_top(x, z)
        } else {
            self.height_at(x, z) == 0 || self.height_at(x, z) == -1
        }
    }

    proof fn lemma_top_below_bounds(&self, x: int, z: int, y: int)
        ensures
            -1 <= self.top_below(x, z, y),
            y >= -1 ==> self.top_below(x, z, y) <= y,
            self.top_below(x, z, y) >= 0 ==> self.block_at(x, self.top_below(x, z, y), z) is Some,
            forall|t: int|
                self.top_below(x, z, y) < t <= y ==> #[trigger] self.block_at(x, t, z) is None,
        decreases y + 1,
    {
        if y >= 0 {
            self.lemma_top_below_bounds(x, z, y - 1);
        }
    }

    proof fn lemma_top_below_at_least(&self, x: int, z: int, y: int, t: int)
        requires
            0 <= t <= y,
            self.block_at(x, t, z) is Some,
        ensures
            self.top_below(x, z, y) >= t,
        decreases y + 1,
    {
        if y > t && self.block_at(x, y, z) is None {
            self.lemma_top_below_at_least(x, z, y - 1, t);
        }
    }

    /// Two chunks with the same blocks in column (x, z) up to y have the same top there.
    proof fn lemma_top_below_frame(c1: &Chunk, c2: &Chunk, x: int, z: int, y: int)
        requires
            forall|t: int| 0 <= t <= y ==> #[trigger] c1.block_at(x, t, z) == c2.block_at(x, t, z),
        ensures
            c1.top_below(x, z, y) == c2.top_below(x, z, y),
        decreases y + 1,
    {
        if y >= 0 {
            assert(c1.block_at(x, y, z) == c2.block_at(x, y, z));
            Self::lemma_top_below_frame(c1, c2, x, z, y - 1);
        }
    }

    /// A chunk holds at most one block per cell.
    proof fn lemma_count_bound(&self)
        requires
            self.wf(),
        ensures
            self.blocks@.len() <= 65536,
    {
        lemma_u32_range_len(65536);
        vstd::set_lib::lemma_len_subset(self.blocks@.dom(), Set::new(|k: u32| k < 65536));
    }

    /// Putting a block in cell (x, y, z) keeps every recorded height consistent,
    /// when the height of column (x, z) is raised to y if y is at or above it.
    proof fn lemma_insert_heights(pre: &Chunk, post: &Chunk, x: int, y: int, z: int)
        requires
            pre.wf(),
            spec_in_bounds(x, y, z),
            post.block_at(x, y, z) is Some,
            forall|a: int, b: int, c: int|
                (a, b, c) != (x, y, z) ==> #[trigger] post.block_at(a, b, c) == pre.block_at(a, b, c),
            post.height_at(x, z) == if y >= pre.height_at(x, z) {
                y
            } else {
                pre.height_at(x, z)
            },
            forall|a: int, c: int|
                0 <= a < 16 && 0 <= c < 16 && (a, c) != (x, z) ==> #[trigger] post.height_at(a, c)
                    == pre.height_at(a, c),
        ensures
            forall|a: int, c: int|
                0 <= a < 16 && 0 <= c < 16 ==> #[trigger] post.height_consistent(a, c),
    {
        assert forall|a: int, c: int| 0 <= a < 16 && 0 <= c < 16 implies #[trigger] post.height_consistent(
            a,
            c,
        ) by {
            assert(pre.height_consistent(a, c));
            if (a, c) != (x, z) {
                assert forall|t: int| 0 <= t <= 255 implies #[trigger] post.block_at(a, t, c)
                    == pre.block_at(a, t, c) by {}
                Self::lemma_top_below_frame(post, pre, a, c, 255);
            } else {
                pre.lemma_top_below_bounds(a, c, 255);
                post.lemma_top_below_bounds(a, c, 255);
                post.lemma_top_below_at_least(a, c, 255, y);
                if pre.column_top(a, c) >= 0 {
                    assert(post.block_at(a, pre.column_top(a, c), c) is Some);
                    post.lemma_top_below_at_least(a, c, 255, pre.column_top(a, c));
                }
                let nt = post.column_top(a, c);
                if nt != y {
                    assert(post.block_at(a, nt, c) == pre.block_at(a, nt, c));
                    pre.lemma_top_below_at_least(a, c, 255, nt);
                }
            }
        }
    }

    /// A new, empty chunk at chunk coordinates (x, z). All flags start dirty.
    pub fn new(x: i32, z: i32) -> (r: Self)
        ensures
            r.wf(),
            r.coords() == (x, z),
            r.count() == 0,
            forall|a: int, b: int, c: int| #[trigger] r.block_at(a, b, c) is None,
            forall|a: int, c: int|
                0 <= a < 16 && 0 <= c < 16 ==> #[trigger] r.height_at(a, c) == 0,
            forall|a: int, b: int, c: int|
                spec_in_bounds(a, b, c) ==> #[trigger] r.light_at(a, b, c) == 0,
            r.spec_dirty(),
            r.spec_mesh_dirty(),
            r.spec_collision_dirty(),
    {
        let mut light_map: Vec<u8> = Vec::new();
        let mut i: usize = 0;
        while i < CHUNK_VOLUME
            invariant
                i <= CHUNK_VOLUME,
                light_map@.len() == i,
                forall|j: int| 0 <= j < i ==> light_map@[j] == 0,
            decreases CHUNK_VOLUME - i,
        {
            light_map.push(0);
            i = i + 1;
        }
        let mut height_map: Vec<i16> = Vec::new();
        let mut j: usize = 0;
        while j < 256
            invariant
                j <= 256,
                height_map@.len() == j,
                forall|k: int| 0 <= k < j ==> height_map@[k] == 0,
            decreases 256 - j,
        {
            height_map.push(0);
            j = j + 1;
        }
        let r = Chunk {
            position: (x, z),
            blocks: HashMap::new(),
            block_count: 0,
            dirty: true,
            light_map,
            height_map,
            mesh_dirty: true,
            collision_dirty: true,
        };
        assert forall|a: int, c: int| 0 <= a < 16 && 0 <= c < 16 implies #[trigger] r.height_consistent(
            a,
            c,
        ) by {
            r.lemma_top_below_bounds(a, c, 255);
        }
        r
    }

    /// Whether a local position lies inside the chunk.
    pub fn in_bounds(&self, x: i32, y: i32, z: i32) -> (r: bool)
        ensures
            r == spec_in_bounds(x as int, y as int, z as int),
    {
        x >= 0 && x < CHUNK_SIZE && y >= 0 && y < CHUNK_HEIGHT && z >= 0 && z < CHUNK_SIZE
    }

    /// Puts a block in a cell and returns the block that was there. Raises the
    /// column's recorded height to `y` when `y` is at or above it, and marks
    /// the chunk, its mesh and its collision data dirty.
    #[verifier::spinoff_prover]
    #[verifier::rlimit(80)]
    pub fn set_block(&mut self, x: i32, y: i32, z: i32, block: Block) -> (r: Result<
        Option<Block>,
        ChunkError,
    >)
        requires
            old(self).wf(),
        ensures
            final(self).wf(),
            !spec_in_bounds(x as int, y as int, z as int) ==> r == Err::<Option<Block>, ChunkError>(
                ChunkError::OutOfBounds,
            ) && *final(self) == *old(self),
            spec_in_bounds(x as int, y as int, z as int) ==> {
                &&& r == Ok::<Option<Block>, ChunkError>(old(self).block_at(x as int, y as int, z as int))
                &&& final(self).block_at(x as int, y as int, z as int) == Some(block)
                &&& forall|a: int, b: int, c: int|
                    (a, b, c) != (x as int, y as int, z as int)
                        ==> #[trigger] final(self).block_at(a, b, c) == old(self).block_at(a, b, c)
                &&& final(self).count() == old(self).count() + (if old(self).block_at(
                    x as int,
                    y as int,
                    z as int,
                ) is Some {
                    0int
                } else {
                    1int
                })
                &&& final(self).height_at(x as int, z as int) == if y as int >= old(self).height_at(
                    x as int,
                    z as int,
                ) {
                    y as int
                } else {
                    old(self).height_at(x as int, z as int)
                }
                &&& forall|a: int, c: int|
                    0 <= a < 16 && 0 <= c < 16 && (a, c) != (x as int, z as int)
                        ==> #[trigger] final(self).height_at(a, c) == old(self).height_at(a, c)
                &&& forall|a: int, b: int, c: int| #[trigger]
                    final(self).light_at(a, b, c) == old(self).light_at(a, b, c)
                &&& final(self).spec_dirty() && final(self).spec_mesh_dirty()
                    && final(self).spec_collision_dirty()
                &&& final(self).coords() == old(self).coords()
            },
    {
        if !self.in_bounds(x, y, z) {
            return Err(ChunkError::OutOfBounds);
        }
        let ghost pre = *self;
        let idx: u32 = (y * CHUNK_SIZE * CHUNK_SIZE + z * CHUNK_SIZE + x) as u32;
        proof {
            self.lemma_count_bound();
        }
        let old_block = self.blocks.insert(idx, block);
        if old_block.is_none() {
            self.block_count = self.block_count + 1;
        }
        self.dirty = true;
        self.mesh_dirty = true;
        self.collision_dirty = true;
        let col: usize = (z * CHUNK_SIZE + x) as usize;
        if y >= self.height_map[col] as i32 {
            self.height_map.set(col, y as i16);
        }
        proof {
            assert forall|a: int, b: int, c: int|
                (a, b, c) != (x as int, y as int, z as int) implies #[trigger] self.block_at(a, b, c)
                == pre.block_at(a, b, c) by {
                if spec_in_bounds(a, b, c) {
                    assert(cell_index(a, b, c) != cell_index(x as int, y as int, z as int));
                }
            }
            assert forall|a: int, c: int|
                0 <= a < 16 && 0 <= c < 16 && (a, c) != (x as int, z as int) implies #[trigger] self.height_at(
                a,
                c,
            ) == pre.height_at(a, c) by {
                assert(column_index(a, c) != column_index(x as int, z as int));
            }
            Self::lemma_insert_heights(&pre, self, x as int, y as int, z as int);
        }
        Ok(old_block)
    }

    /// The block in a cell, if any; `None` outside the chunk.
    pub fn get_block(&self, x: i32, y: i32, z: i32) -> (r: Option<&Block>)
        requires
            self.wf(),
        ensures
            match self.block_at(x as int, y as int, z as int) {
                Some(b) => r == Some(&b),
                None => r is None,
            },
    {
        if !self.in_bounds(x, y, z) {
            return None;
        }
        let idx: u32 = (y * CHUNK_SIZE * CHUNK_SIZE + z * CHUNK_SIZE + x) as u32;
        self.blocks.get(&idx)
    }

    /// The invariant depends only on the blocks, the recorded heights, the
    /// block count and the size of the light map.
    proof fn lemma_wf_same_blocks(pre: &Chunk, post: &Chunk)
        requires
            pre.wf(),
            post.blocks@ == pre.blocks@,
            post.height_map@ == pre.height_map@,
            post.block_count == pre.block_count,
            post.light_map@.len() == pre.light_map@.len(),
        ensures
            post.wf(),
    {
        assert forall|a: int, c: int| 0 <= a < 16 && 0 <= c < 16 implies #[trigger] post.height_consistent(
            a,
            c,
        ) by {
            assert(pre.height_consistent(a, c));
        }
    }

    /// Taking out a block below the recorded height of its column keeps
    /// that height consistent.
    proof fn lemma_remove_below_top(pre: &Chunk, post: &Chunk, x: int, y: int, z: int)
        requires
            pre.wf(),
            spec_in_bounds(x, y, z),
            pre.block_at(x, y, z) is Some,
            post.block_at(x, y, z) is None,
            forall|a: int, b: int, c: int|
                (a, b, c) != (x, y, z) ==> #[trigger] post.block_at(a, b, c) == pre.block_at(a, b, c),
            pre.height_at(x, z) != y,
            post.height_at(x, z) == pre.height_at(x, z),
        ensures
            post.height_consistent(x, z),
    {
        assert(pre.height_consistent(x, z));
        pre.lemma_top_below_at_least(x, z, 255, y);
        pre.lemma_top_below_bounds(x, z, 255);
        let t = pre.column_top(x, z);
        assert(post.block_at(x, t, z) == pre.block_at(x, t, z));
        post.lemma_top_below_at_least(x, z, 255, t);
        post.lemma_top_below_bounds(x, z, 255);
        let nt = post.column_top(x, z);
        if nt != t {
            assert(post.block_at(x, nt, z) == pre.block_at(x, nt, z));
            pre.lemma_top_below_at_least(x, z, 255, nt);
        }
    }

    /// Columns other than (x, z) stay consistent when only column (x, z)
    /// changes, in its blocks and its recorded height.
    proof fn lemma_heights_frame(pre: &Chunk, post: &Chunk, x: int, z: int)
        requires
            pre.wf(),
            forall|a: int, b: int, c: int|
                (a, c) != (x, z) ==> #[trigger] post.block_at(a, b, c) == pre.block_at(a, b, c),
            forall|a: int, c: int|
                0 <= a < 16 && 0 <= c < 16 && (a, c) != (x, z) ==> #[trigger] post.height_at(a, c)
                    == pre.height_at(a, c),
        ensures
            forall|a: int, c: int|
                0 <= a < 16 && 0 <= c < 16 && (a, c) != (x, z) ==> #[trigger] post.height_consistent(
                    a,
                    c,
                ),
    {
        assert forall|a: int, c: int|
            0 <= a < 16 && 0 <= c < 16 && (a, c) != (x, z) implies #[trigger] post.height_consistent(
            a,
            c,
        ) by {
            assert(pre.height_consistent(a, c));
            assert forall|t: int| 0 <= t <= 255 implies #[trigger] post.block_at(a, t, c)
                == pre.block_at(a, t, c) by {}
            Self::lemma_top_below_frame(post, pre, a, c, 255);
        }
    }

    /// Recomputes the recorded height of column (x, z) from its blocks.
    fn recalculate_heightmap_column(&mut self, x: i32, z: i32)
        requires
            0 <= x < 16,
            0 <= z < 16,
            old(self).height_map@.len() == 256,
        ensures
            final(self).blocks == old(self).blocks,
            final(self).block_count == old(self).block_count,
            final(self).light_map == old(self).light_map,
            final(self).position == old(self).position,
            final(self).dirty == old(self).dirty,
            final(self).mesh_dirty == old(self).mesh_dirty,
            final(self).collision_dirty == old(self).collision_dirty,
            final(self).height_map@.len() == 256,
            final(self).height_at(x as int, z as int) == final(self).column_top(x as int, z as int),
            forall|a: int, c: int|
                0 <= a < 16 && 0 <= c < 16 && (a, c) != (x as int, z as int)
                    ==> #[trigger] final(self).height_at(a, c) == old(self).height_at(a, c),
    {
        let mut max_y: i32 = -1;
        let mut y: i32 = CHUNK_HEIGHT - 1;
        while y >= 0 && max_y < 0
            invariant
                0 <= x < 16,
                0 <= z < 16,
                -1 <= y <= 255,
                max_y < 0 ==> max_y == -1 && self.column_top(x as int, z as int) == self.top_below(
                    x as int,
                    z as int,
                    y as int,
                ),
                max_y >= 0 ==> max_y <= 255 && self.column_top(x as int, z as int) == max_y,
            decreases y + 1,
        {
            let idx: u32 = (y * CHUNK_SIZE * CHUNK_SIZE + z * CHUNK_SIZE + x) as u32;
            if self.blocks.contains_key(&idx) {
                max_y = y;
            }
            y = y - 1;
        }
        let col: usize = (z * CHUNK_SIZE + x) as usize;
        self.height_map.set(col, max_y as i16);
        proof {
            assert forall|a: int, c: int|
                0 <= a < 16 && 0 <= c < 16 && (a, c) != (x as int, z as int) implies #[trigger] self.height_at(
                a,
                c,
            ) == old(self).height_at(a, c) by {
                assert(column_index(a, c) != column_index(x as int, z as int));
            }
        }
    }

    /// Takes the block out of a cell and returns it. When a block was there,
    /// marks the chunk, its mesh and its collision data dirty, and when it
    /// stood at the column's recorded height, recomputes that height (-1 for
    /// a column left empty).
    #[verifier::spinoff_prover]
    #[verifier::rlimit(80)]
    pub fn remove_block(&mut self, x: i32, y: i32, z: i32) -> (r: Result<Option<Block>, ChunkError>)
        requires
            old(self).wf(),
        ensures
            final(self).wf(),
            !spec_in_bounds(x as int, y as int, z as int) ==> r == Err::<Option<Block>, ChunkError>(
                ChunkError::OutOfBounds,
            ) && *final(self) == *old(self),
            spec_in_bounds(x as int, y as int, z as int) ==> {
                &&& r == Ok::<Option<Block>, ChunkError>(old(self).block_at(x as int, y as int, z as int))
                &&& old(self).block_at(x as int, y as int, z as int) is None ==> final(self).same_state(
                    old(self),
                )
                &&& old(self).block_at(x as int, y as int, z as int) is Some ==> {
                    &&& final(self).block_at(x as int, y as int, z as int) is None
                    &&& forall|a: int, b: int, c: int|
                        (a, b, c) != (x as int, y as int, z as int)
                            ==> #[trigger] final(self).block_at(a, b, c) == old(self).block_at(a, b, c)
                    &&& final(self).count() + 1 == old(self).count()
                    &&& final(self).height_at(x as int, z as int) == if y as int == old(self).height_at(
                        x as int,
                        z as int,
                    ) {
                        final(self).column_top(x as int, z as int)
                    } else {
                        old(self).height_at(x as int, z as int)
                    }
                    &&& forall|a: int, c: int|
                        0 <= a < 16 && 0 <= c < 16 && (a, c) != (x as int, z as int)
                            ==> #[trigger] final(self).height_at(a, c) == old(self).height_at(a, c)
                    &&& forall|a: int, b: int, c: int| #[trigger]
                        final(self).light_at(a, b, c) == old(self).light_at(a, b, c)
                    &&& final(self).spec_dirty() && final(self).spec_mesh_dirty()
                        && final(self).spec_collision_dirty()
                    &&& final(self).coords() == old(self).coords()
                }
            },
    {
        if !self.in_bounds(x, y, z) {
            return Err(ChunkError::OutOfBounds);
        }
        let ghost pre = *self;
        let idx: u32 = (y * CHUNK_SIZE * CHUNK_SIZE + z * CHUNK_SIZE + x) as u32;
        let removed = self.blocks.remove(&idx);
        proof {
            assert(self.blocks@ == pre.blocks@.remove(idx));
            assert(self.blocks@.dom() == pre.blocks@.dom().remove(idx));
        }
        if removed.is_some() {
            self.block_count = self.block_count - 1;
            self.dirty = true;
            self.mesh_dirty = true;
            self.collision_dirty = true;
            proof {
                assert forall|a: int, b: int, c: int|
                    (a, b, c) != (x as int, y as int, z as int) implies #[trigger] self.block_at(
                    a,
                    b,
                    c,
                ) == pre.block_at(a, b, c) by {
                    if spec_in_bounds(a, b, c) {
                        assert(cell_index(a, b, c) != cell_index(x as int, y as int, z as int));
                    }
                }
            }
            let col: usize = (z * CHUNK_SIZE + x) as usize;
            if y == self.height_map[col] as i32 {
                self.recalculate_heightmap_column(x, z);
                proof {
                    Self::lemma_heights_frame(&pre, self, x as int, z as int);
                    self.lemma_top_below_bounds(x as int, z as int, 255);
                    assert(self.height_consistent(x as int, z as int));
                }
            } else {
                proof {
                    Self::lemma_heights_frame(&pre, self, x as int, z as int);
                    Self::lemma_remove_below_top(&pre, self, x as int, y as int, z as int);
                }
            }
        } else {
            proof {
                assert(self.blocks@ == pre.blocks@);
                Self::lemma_wf_same_blocks(&pre, self);
            }
        }
        Ok(removed)
    }

    /// Whether the chunk holds no block.
    pub fn is_empty(&self) -> (r: bool)
        requires
            self.wf(),
        ensures
            r == (self.count() == 0),
    {
        self.block_count == 0
    }

    pub fn is_dirty(&self) -> (r: bool)
        ensures
            r == self.spec_dirty(),
    {
        self.dirty
    }

    pub fn is_mesh_dirty(&self) -> (r: bool)
        ensures
            r == self.spec_mesh_dirty(),
    {
        self.mesh_dirty
    }

    pub fn is_collision_dirty(&self) -> (r: bool)
        ensures
            r == self.spec_collision_dirty(),
    {
        self.collision_dirty
    }

    pub fn mark_clean(&mut self)
        requires
            old(self).wf(),
        ensures
            final(self).wf(),
            final(self).same_contents(old(self)),
            !final(self).spec_dirty(),
            final(self).spec_mesh_dirty() == old(self).spec_mesh_dirty(),
            final(self).spec_collision_dirty() == old(self).spec_collision_dirty(),
    {
        self.dirty = false;
        proof {
            Self::lemma_wf_same_blocks(old(self), self);
        }
    }

    pub fn mark_mesh_clean(&mut self)
        requires
            old(self).wf(),
        ensures
            final(self).wf(),
            final(self).same_contents(old(self)),
            !final(self).spec_mesh_dirty(),
            final(self).spec_dirty() == old(self).spec_dirty(),
            final(self).spec_collision_dirty() == old(self).spec_collision_dirty(),
    {
        self.mesh_dirty = false;
        proof {
            Self::lemma_wf_same_blocks(old(self), self);
        }
    }

    pub fn mark_collision_clean(&mut self)
        requires
            old(self).wf(),
        ensures
            final(self).wf(),
            final(self).same_contents(old(self)),
            !final(self).spec_collision_dirty(),
            final(self).spec_dirty() == old(self).spec_dirty(),
            final(self).spec_mesh_dirty() == old(self).spec_mesh_dirty(),
    {
        self.collision_dirty = false;
        proof {
            Self::lemma_wf_same_blocks(old(self), self);
        }
    }

    /// The recorded height of column (x, z); 0 outside the chunk.
    pub fn get_height(&self, x: i32, z: i32) -> (r: i32)
        requires
            self.wf(),
        ensures
            r == if 0 <= x < 16 && 0 <= z < 16 {
                self.height_at(x as int, z as int)
            } else {
                0
            },
    {
        if x < 0 || x >= CHUNK_SIZE || z < 0 || z >= CHUNK_SIZE {
            return 0;
        }
        self.height_map[(z * CHUNK_SIZE + x) as usize] as i32
    }

    /// The light level of a cell; 0 outside the chunk.
    pub fn get_light(&self, x: i32, y: i32, z: i32) -> (r: u8)
        requires
            self.wf(),
        ensures
            r == if spec_in_bounds(x as int, y as int, z as int) {
                self.light_at(x as int, y as int, z as int)
            } else {
                0
            },
    {
        if !self.in_bounds(x, y, z) {
            return 0;
        }
        self.light_map[(y * CHUNK_SIZE * CHUNK_SIZE + z * CHUNK_SIZE + x) as usize]
    }

    /// Sets the light level of a cell and marks the chunk dirty; does nothing
    /// outside the chunk.
    #[verifier::spinoff_prover]
    #[verifier::rlimit(80)]
    pub fn set_light(&mut self, x: i32, y: i32, z: i32, value: u8)
        requires
            old(self).wf(),
        ensures
            final(self).wf(),
            !spec_in_bounds(x as int, y as int, z as int) ==> *final(self) == *old(self),
            spec_in_bounds(x as int, y as int, z as int) ==> {
                &&& final(self).light_at(x as int, y as int, z as int) == value
                &&& forall|a: int, b: int, c: int|
                    spec_in_bounds(a, b, c) && (a, b, c) != (x as int, y as int, z as int)
                        ==> #[trigger] final(self).light_at(a, b, c) == old(self).light_at(a, b, c)
                &&& forall|a: int, b: int, c: int| #[trigger]
                    final(self).block_at(a, b, c) == old(self).block_at(a, b, c)
                &&& forall|a: int, c: int| #[trigger]
                    final(self).height_at(a, c) == old(self).height_at(a, c)
                &&& final(self).count() == old(self).count()
                &&& final(self).spec_dirty()
                &&& final(self).spec_mesh_dirty() == old(self).spec_mesh_dirty()
                &&& final(self).spec_collision_dirty() == old(self).spec_collision_dirty()
                &&& final(self).coords() == old(self).coords()
            },
    {
        if self.in_bounds(x, y, z) {
            let i: usize = (y * CHUNK_SIZE * CHUNK_SIZE + z * CHUNK_SIZE + x) as usize;
            self.light_map.set(i, value);
            self.dirty = true;
            proof {
                assert forall|a: int, b: int, c: int|
                    spec_in_bounds(a, b, c) && (a, b, c) != (x as int, y as int, z as int) implies #[trigger] self.light_at(
                    a,
                    b,
                    c,
                ) == old(self).light_at(a, b, c) by {
                    assert(cell_index(a, b, c) != cell_index(x as int, y as int, z as int));
                }
                Self::lemma_wf_same_blocks(old(self), self);
            }
        }
    }

    /// Sets the light level of every cell to the light level of its block,
    /// or 0 for an empty cell, and marks the chunk dirty.
    pub fn recalculate_lighting(&mut self)
        requires
            old(self).wf(),
        ensures
            final(self).wf(),
            forall|a: int, b: int, c: int|
                spec_in_bounds(a, b, c) ==> #[trigger] final(self).light_at(a, b, c) == match old(self).block_at(a, b, c) {
                    Some(blk) => blk.light_level,
                    None => 0u8,
                },
            forall|a: int, b: int, c: int| #[trigger]
                final(self).block_at(a, b, c) == old(self).block_at(a, b, c),
            forall|a: int, c: int| #[trigger] final(self).height_at(a, c) == old(self).height_at(a, c),
            final(self).count() == old(self).count(),
            final(self).spec_dirty(),
            final(self).spec_mesh_dirty() == old(self).spec_mesh_dirty(),
            final(self).spec_collision_dirty() == old(self).spec_collision_dirty(),
            final(self).coords() == old(self).coords(),
    {
        let mut i: usize = 0;
        while i < CHUNK_VOLUME
            invariant
                i <= CHUNK_VOLUME,
                self.light_map@.len() == CHUNK_VOLUME,
                self.blocks == old(self).blocks,
                self.height_map == old(self).height_map,
                self.block_count == old(self).block_count,
                self.position == old(self).position,
                self.dirty == old(self).dirty,
                self.mesh_dirty == old(self).mesh_dirty,
                self.collision_dirty == old(self).collision_dirty,
                forall|j: int|
                    0 <= j < i ==> #[trigger] self.light_map@[j] == if self.blocks@.contains_key(
                        j as u32,
                    ) {
                        self.blocks@[j as u32].light_level
                    } else {
                        0u8
                    },
            decreases CHUNK_VOLUME - i,
        {
            let key: u32 = i as u32;
            let level: u8 = match self.blocks.get(&key) {
                Some(b) => b.light_level,
                None => 0,
            };
            self.light_map.set(i, level);
            i = i + 1;
        }
        self.dirty = true;
        proof {
            assert forall|a: int, b: int, c: int| spec_in_bounds(a, b, c) implies #[trigger] self.light_at(
                a,
                b,
                c,
            ) == match old(self).block_at(a, b, c) {
                Some(blk) => blk.light_level,
                None => 0u8,
            } by {
                let j = cell_index(a, b, c);
                assert(0 <= j < 65536);
                assert(self.light_map@[j] == self.light_at(a, b, c));
            }
            Self::lemma_wf_same_blocks(old(self), self);
        }
    }
}

} // verus!
