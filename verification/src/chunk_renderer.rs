//! Greedy meshing of a chunk of 30 x 30 x 30 cells: runs of equal full
//! blocks are merged into boxes, so that each box becomes one cube of the
//! mesh; partial blocks are meshed one by one. This module plans the mesh;
//! the vertices of each box and partial block are emitted by the renderer.
use vstd::prelude::*;
use crate::number::{decimal, decimal_chars};
use crate::text::string_of;

verus! {

/// Cells along each side of a meshed chunk.
pub const GRID: usize = 30;

/// The side of its cell that a partial block covers.
#[derive(Debug, Clone, Copy, PartialEq, Eq, Structural)]
pub enum BlockOrientation {
    Up,
    Down,
    North,
    South,
    East,
    West,
}

/// How much of its cell a block fills.
#[derive(Debug, Clone, Copy, PartialEq, Eq, Structural)]
pub enum BlockState {
    Full,
    Half(BlockOrientation),
    Quarter(BlockOrientation),
}

/// A cell of a meshed chunk.
#[derive(Debug, Clone, Copy, PartialEq, Eq, Structural)]
pub struct GridBlock {
    pub id: u32,
    pub solid: bool,
    pub state: BlockState,
}

/// Whether cell block `b` can join a box of `other`: it is a solid full
/// block of the same id.
pub open spec fn merges(b: GridBlock, other: GridBlock) -> bool {
    b.solid && b.state == BlockState::Full && b.id == other.id
}

impl GridBlock {
    /// Whether the block is solid.
    pub fn is_solid(&self) -> (r: bool)
        ensures
            r == self.solid,
    {
        self.solid
    }

    /// Whether this block can join a box of `other` (see `merges`).
    pub fn can_merge(&self, other: &GridBlock) -> (r: bool)
        ensures
            r == merges(*self, *other),
    {
        self.solid && self.state == BlockState::Full && self.id == other.id
    }
}

/// The storage index of the cell (x, y, z).
pub open spec fn grid_index(x: int, y: int, z: int) -> int {
    (x * 30 + y) * 30 + z
}

/// Whether (x, y, z) lies in the grid.
pub open spec fn in_grid(x: int, y: int, z: int) -> bool {
    0 <= x < 30 && 0 <= y < 30 && 0 <= z < 30
}

/// Distinct cells have distinct indices, all below 27000.
proof fn lemma_grid_index(x: int, y: int, z: int)
    requires
        in_grid(x, y, z),
    ensures
        0 <= grid_index(x, y, z) < 27000,
        grid_index(x, y, z) / 900 == x,
        (grid_index(x, y, z) / 30) % 30 == y,
        grid_index(x, y, z) % 30 == z,
{
    assert(0 <= grid_index(x, y, z) < 27000) by (nonlinear_arith)
        requires
            in_grid(x, y, z),
    ;
    let i = grid_index(x, y, z);
    assert(i == x * 900 + y * 30 + z);
    vstd::arithmetic::div_mod::lemma_fundamental_div_mod_converse(i, 900, x, y * 30 + z);
    vstd::arithmetic::div_mod::lemma_fundamental_div_mod_converse(i, 30, x * 30 + y, z);
    vstd::arithmetic::div_mod::lemma_fundamental_div_mod_converse(x * 30 + y, 30, x, y);
}

/// The cell of an index below 27000.
pub open spec fn cell_of(i: int) -> (int, int, int) {
    (i / 900, (i / 30) % 30, i % 30)
}

/// Decoding an index gives a cell of the grid with that index.
proof fn lemma_cell_of(i: int)
    requires
        0 <= i < 27000,
    ensures
        in_grid(cell_of(i).0, cell_of(i).1, cell_of(i).2),
        grid_index(cell_of(i).0, cell_of(i).1, cell_of(i).2) == i,
{
    let (x, y, z) = cell_of(i);
    vstd::arithmetic::div_mod::lemma_fundamental_div_mod(i, 30);
    vstd::arithmetic::div_mod::lemma_fundamental_div_mod(i / 30, 30);
    assert(i / 30 / 30 == i / 900) by {
        vstd::arithmetic::div_mod::lemma_div_denominator(i, 30, 30);
    }
    assert(0 <= x < 30) by {
        vstd::arithmetic::div_mod::lemma_div_is_ordered(i, 26999, 900);
    }
}

/// Whether the cell (x, y, z) can join a box of `block` that is being
/// grown: it merges with `block` and is not yet in a box.
pub open spec fn joinable(blocks: Seq<GridBlock>, visited: Seq<bool>, block: GridBlock, x: int, y: int, z: int) -> bool {
    merges(blocks[grid_index(x, y, z)], block) && !visited[grid_index(x, y, z)]
}

/// Whether the cells x0..x0 + w of row (y, z) can all join.
pub open spec fn row_joinable(
    blocks: Seq<GridBlock>,
    visited: Seq<bool>,
    block: GridBlock,
    x0: int,
    w: int,
    y: int,
    z: int,
) -> bool {
    forall|i: int| 0 <= i < w ==> #[trigger] joinable(blocks, visited, block, x0 + i, y, z)
}

/// Whether the cells of the w x h rectangle at (x0, y0) in layer z can all
/// join.
pub open spec fn slab_joinable(
    blocks: Seq<GridBlock>,
    visited: Seq<bool>,
    block: GridBlock,
    x0: int,
    w: int,
    y0: int,
    h: int,
    z: int,
) -> bool {
    forall|i: int, j: int|
        0 <= i < w && 0 <= j < h ==> #[trigger] joinable(blocks, visited, block, x0 + i, y0 + j, z)
}

/// Whether (x, y, z) lies in the box of size (w, h, d) at (x0, y0, z0).
pub open spec fn in_box(x0: int, y0: int, z0: int, w: int, h: int, d: int, x: int, y: int, z: int) -> bool {
    x0 <= x < x0 + w && y0 <= y < y0 + h && z0 <= z < z0 + d
}

/// Whether the cells x0..x0 + w of row (y, z) can all join.
fn row_ok(
    blocks: &Vec<GridBlock>,
    visited: &Vec<bool>,
    block: &GridBlock,
    x0: usize,
    w: usize,
    y: usize,
    z: usize,
) -> (r: bool)
    requires
        blocks@.len() == 27000,
        visited@.len() == 27000,
        x0 + w <= 30,
        y < 30,
        z < 30,
    ensures
        r == row_joinable(blocks@, visited@, *block, x0 as int, w as int, y as int, z as int),
{
    let mut i: usize = 0;
    while i < w
        invariant
            i <= w,
            x0 + w <= 30,
            y < 30,
            z < 30,
            blocks@.len() == 27000,
            visited@.len() == 27000,
            row_joinable(blocks@, visited@, *block, x0 as int, i as int, y as int, z as int),
        decreases w - i,
    {
        proof {
            lemma_grid_index((x0 + i) as int, y as int, z as int);
        }
        let k = ((x0 + i) * 30 + y) * 30 + z;
        if !(blocks[k].can_merge(block) && !visited[k]) {
            assert(!joinable(blocks@, visited@, *block, x0 + i, y as int, z as int));
            return false;
        }
        i = i + 1;
    }
    true
}

/// Whether the cells of the w x h rectangle at (x0, y0) in layer z can all
/// join.
fn slab_ok(
    blocks: &Vec<GridBlock>,
    visited: &Vec<bool>,
    block: &GridBlock,
    x0: usize,
    w: usize,
    y0: usize,
    h: usize,
    z: usize,
) -> (r: bool)
    requires
        blocks@.len() == 27000,
        visited@.len() == 27000,
        x0 + w <= 30,
        y0 + h <= 30,
        z < 30,
    ensures
        r == slab_joinable(blocks@, visited@, *block, x0 as int, w as int, y0 as int, h as int, z as int),
{
    let mut j: usize = 0;
    while j < h
        invariant
            j <= h,
            x0 + w <= 30,
            y0 + h <= 30,
            z < 30,
            blocks@.len() == 27000,
            visited@.len() == 27000,
            slab_joinable(blocks@, visited@, *block, x0 as int, w as int, y0 as int, j as int, z as int),
        decreases h - j,
    {
        if !row_ok(blocks, visited, block, x0, w, y0 + j, z) {
            proof {
                let i = choose|i: int|
                    0 <= i < w && !#[trigger] joinable(blocks@, visited@, *block, x0 + i, (y0 + j) as int, z as int);
                assert(!joinable(blocks@, visited@, *block, x0 + i, y0 + j, z as int));
            }
            return false;
        }
        proof {
            assert forall|i: int, jj: int| 0 <= i < w && 0 <= jj < j + 1 implies #[trigger] joinable(
                blocks@,
                visited@,
                *block,
                x0 + i,
                y0 + jj,
                z as int,
            ) by {
                if jj == j {
                    assert(joinable(blocks@, visited@, *block, x0 + i, (y0 + j) as int, z as int));
                }
            }
        }
        j = j + 1;
    }
    true
}

/// The box that greedy growth from (sx, sy, sz) reaches: along x while the
/// next cell can join, then along y while the next row can join, then along z
/// while the next layer can join, each time up to the grid's edge.
pub open spec fn grown_box(
    blocks: Seq<GridBlock>,
    visited: Seq<bool>,
    block: GridBlock,
    sx: int,
    sy: int,
    sz: int,
    w: int,
    h: int,
    d: int,
) -> bool {
    &&& 1 <= w && sx + w <= 30
    &&& 1 <= h && sy + h <= 30
    &&& 1 <= d && sz + d <= 30
    &&& forall|i: int| 1 <= i < w ==> #[trigger] joinable(blocks, visited, block, sx + i, sy, sz)
    &&& (sx + w == 30 || !joinable(blocks, visited, block, sx + w, sy, sz))
    &&& forall|j: int| 1 <= j < h ==> #[trigger] row_joinable(blocks, visited, block, sx, w, sy + j, sz)
    &&& (sy + h == 30 || !row_joinable(blocks, visited, block, sx, w, sy + h, sz))
    &&& forall|k: int| 1 <= k < d ==> #[trigger] slab_joinable(blocks, visited, block, sx, w, sy, h, sz + k)
    &&& (sz + d == 30 || !slab_joinable(blocks, visited, block, sx, w, sy, h, sz + d))
}

/// Whether cell (x, y, z) comes before (x0, y0, z0) in box order.
pub open spec fn marked_before(x0: int, y0: int, z0: int, x: int, y: int, z: int) -> bool {
    x < x0 || (x == x0 && y < y0) || (x == x0 && y == y0 && z < z0)
}

/// Grows a box of blocks that merge with `block` from (start_x, start_y,
/// start_z) (see `grown_box`), marks its cells visited and returns its size.
pub fn find_contiguous_blocks(
    blocks: &Vec<GridBlock>,
    visited: &mut Vec<bool>,
    start_x: usize,
    start_y: usize,
    start_z: usize,
    block: GridBlock,
) -> (r: (usize, usize, usize))
    requires
        blocks@.len() == 27000,
        old(visited)@.len() == 27000,
        start_x < 30,
        start_y < 30,
        start_z < 30,
    ensures
        grown_box(
            blocks@,
            old(visited)@,
            block,
            start_x as int,
            start_y as int,
            start_z as int,
            r.0 as int,
            r.1 as int,
            r.2 as int,
        ),
        final(visited)@.len() == 27000,
        forall|x: int, y: int, z: int|
            in_grid(x, y, z) ==> #[trigger] final(visited)@[grid_index(x, y, z)] == (old(visited)@[grid_index(x, y, z)]
                || in_box(start_x as int, start_y as int, start_z as int, r.0 as int, r.1 as int, r.2 as int, x, y, z)),
{
    let mut width: usize = 1;
    loop
        invariant
            1 <= width,
            start_x + width <= 30,
            start_x < 30,
            start_y < 30,
            start_z < 30,
            blocks@.len() == 27000,
            visited@.len() == 27000,
            forall|i: int| 1 <= i < width ==> #[trigger] joinable(blocks@, visited@, block, start_x + i, start_y as int, start_z as int),
        ensures
            1 <= width,
            start_x + width <= 30,
            forall|i: int| 1 <= i < width ==> #[trigger] joinable(blocks@, visited@, block, start_x + i, start_y as int, start_z as int),
            start_x + width == 30 || !joinable(blocks@, visited@, block, start_x + width, start_y as int, start_z as int),
        decreases 30 - start_x - width,
    {
        if start_x + width >= 30 {
            break;
        }
        proof {
            lemma_grid_index((start_x + width) as int, start_y as int, start_z as int);
        }
        let k = ((start_x + width) * 30 + start_y) * 30 + start_z;
        if !(blocks[k].can_merge(&block) && !visited[k]) {
            break;
        }
        width = width + 1;
    }
    let mut height: usize = 1;
    loop
        invariant
            1 <= height,
            start_y + height <= 30,
            start_x + width <= 30,
            start_z < 30,
            blocks@.len() == 27000,
            visited@.len() == 27000,
            forall|j: int| 1 <= j < height ==> #[trigger] row_joinable(blocks@, visited@, block, start_x as int, width as int, start_y + j, start_z as int),
        ensures
            1 <= height,
            start_y + height <= 30,
            forall|j: int| 1 <= j < height ==> #[trigger] row_joinable(blocks@, visited@, block, start_x as int, width as int, start_y + j, start_z as int),
            start_y + height == 30 || !row_joinable(blocks@, visited@, block, start_x as int, width as int, start_y + height, start_z as int),
        decreases 30 - start_y - height,
    {
        if start_y + height >= 30 {
            break;
        }
        if !row_ok(blocks, visited, &block, start_x, width, start_y + height, start_z) {
            break;
        }
        height = height + 1;
    }
    let mut depth: usize = 1;
    loop
        invariant
            1 <= depth,
            start_z + depth <= 30,
            start_x + width <= 30,
            start_y + height <= 30,
            blocks@.len() == 27000,
            visited@.len() == 27000,
            forall|k: int| 1 <= k < depth ==> #[trigger] slab_joinable(blocks@, visited@, block, start_x as int, width as int, start_y as int, height as int, start_z + k),
        ensures
            1 <= depth,
            start_z + depth <= 30,
            forall|k: int| 1 <= k < depth ==> #[trigger] slab_joinable(blocks@, visited@, block, start_x as int, width as int, start_y as int, height as int, start_z + k),
            start_z + depth == 30 || !slab_joinable(blocks@, visited@, block, start_x as int, width as int, start_y as int, height as int, start_z + depth),
        decreases 30 - start_z - depth,
    {
        if start_z + depth >= 30 {
            break;
        }
        if !slab_ok(blocks, visited, &block, start_x, width, start_y, height, start_z + depth) {
            break;
        }
        depth = depth + 1;
    }
    let ghost v0 = visited@;
    let ghost (sx, sy, sz, w, h, d) = (start_x as int, start_y as int, start_z as int, width as int, height as int, depth as int);
    let mut x: usize = start_x;
    while x < start_x + width
        invariant
            start_x <= x <= start_x + width,
            start_x + width <= 30,
            start_y + height <= 30,
            start_z + depth <= 30,
            sx == start_x && sy == start_y && sz == start_z && w == width && h == height && d == depth,
            visited@.len() == 27000,
            forall|a: int, b: int, c: int|
                in_grid(a, b, c) ==> #[trigger] visited@[grid_index(a, b, c)] == (v0[grid_index(a, b, c)]
                    || (in_box(sx, sy, sz, w, h, d, a, b, c) && marked_before(x as int, start_y as int, start_z as int, a, b, c))),
        decreases start_x + width - x,
    {
        let mut y: usize = start_y;
        while y < start_y + height
            invariant
                start_x <= x < start_x + width,
                start_y <= y <= start_y + height,
                start_x + width <= 30,
                start_y + height <= 30,
                start_z + depth <= 30,
                sx == start_x && sy == start_y && sz == start_z && w == width && h == height && d == depth,
                visited@.len() == 27000,
                forall|a: int, b: int, c: int|
                    in_grid(a, b, c) ==> #[trigger] visited@[grid_index(a, b, c)] == (v0[grid_index(a, b, c)]
                        || (in_box(sx, sy, sz, w, h, d, a, b, c) && marked_before(x as int, y as int, start_z as int, a, b, c))),
            decreases start_y + height - y,
        {
            let mut z: usize = start_z;
            while z < start_z + depth
                invariant
                    start_x <= x < start_x + width,
                    start_y <= y < start_y + height,
                    start_z <= z <= start_z + depth,
                    start_x + width <= 30,
                    start_y + height <= 30,
                    start_z + depth <= 30,
                    sx == start_x && sy == start_y && sz == start_z && w == width && h == height && d == depth,
                    visited@.len() == 27000,
                    forall|a: int, b: int, c: int|
                        in_grid(a, b, c) ==> #[trigger] visited@[grid_index(a, b, c)] == (v0[grid_index(a, b, c)]
                            || (in_box(sx, sy, sz, w, h, d, a, b, c) && marked_before(x as int, y as int, z as int, a, b, c))),
                decreases start_z + depth - z,
            {
                proof {
                    lemma_grid_index(x as int, y as int, z as int);
                }
                let k = (x * 30 + y) * 30 + z;
                let ghost before = visited@;
                visited.set(k, true);
                proof {
                    assert forall|a: int, b: int, c: int| in_grid(a, b, c) implies #[trigger] visited@[grid_index(a, b, c)]
                        == (v0[grid_index(a, b, c)] || (in_box(sx, sy, sz, w, h, d, a, b, c) && marked_before(
                        x as int,
                        y as int,
                        z + 1,
                        a,
                        b,
                        c,
                    ))) by {
                        lemma_grid_index(a, b, c);
                        if grid_index(a, b, c) == k {
                            assert(a == x && b == y && c == z);
                        } else {
                            assert(visited@[grid_index(a, b, c)] == before[grid_index(a, b, c)]);
                        }
                    }
                }
                z = z + 1;
            }
            y = y + 1;
        }
        x = x + 1;
    }
    proof {
        assert forall|i: int| 1 <= i < w implies #[trigger] joinable(blocks@, old(visited)@, block, sx + i, sy, sz) by {
            assert(joinable(blocks@, v0, block, sx + i, sy, sz));
        }
    }
    (width, height, depth)
}

/// A box of equal full blocks: its corner, its size and its block.
#[derive(Debug, Clone, Copy, PartialEq, Eq, Structural)]
pub struct MeshBox {
    pub x: usize,
    pub y: usize,
    pub z: usize,
    pub width: usize,
    pub height: usize,
    pub depth: usize,
    pub block: GridBlock,
}

/// A partial block, meshed on its own: its cell and its block.
#[derive(Debug, Clone, Copy, PartialEq, Eq, Structural)]
pub struct PartialBlock {
    pub x: usize,
    pub y: usize,
    pub z: usize,
    pub block: GridBlock,
}

/// The plan of a chunk's mesh: the boxes of full blocks and the partial
/// blocks.
pub struct MeshPlan {
    pub boxes: Vec<MeshBox>,
    pub partials: Vec<PartialBlock>,
}

/// Whether (x, y, z) lies in box `b`.
pub open spec fn in_mesh_box(b: MeshBox, x: int, y: int, z: int) -> bool {
    in_box(b.x as int, b.y as int, b.z as int, b.width as int, b.height as int, b.depth as int, x, y, z)
}

/// Whether some box holds (x, y, z).
pub open spec fn covered(boxes: Seq<MeshBox>, x: int, y: int, z: int) -> bool {
    exists|k: int| 0 <= k < boxes.len() && #[trigger] in_mesh_box(boxes[k], x, y, z)
}

/// Whether a box lies in the grid and holds only blocks that merge with its
/// block.
pub open spec fn box_ok(blocks: Seq<GridBlock>, b: MeshBox) -> bool {
    &&& 1 <= b.width && b.x + b.width <= 30
    &&& 1 <= b.height && b.y + b.height <= 30
    &&& 1 <= b.depth && b.z + b.depth <= 30
    &&& forall|x: int, y: int, z: int| #[trigger] in_mesh_box(b, x, y, z) ==> merges(blocks[grid_index(x, y, z)], b.block)
}

/// Whether a cell holds a solid full block.
pub open spec fn solid_full(blocks: Seq<GridBlock>, x: int, y: int, z: int) -> bool {
    blocks[grid_index(x, y, z)].solid && blocks[grid_index(x, y, z)].state == BlockState::Full
}

/// The partial blocks among the first `n` cells, in index order: the solid
/// blocks that are not full.
pub open spec fn partial_list(blocks: Seq<GridBlock>, n: int) -> Seq<PartialBlock>
    decreases n,
{
    if n <= 0 {
        Seq::empty()
    } else {
        let (x, y, z) = cell_of(n - 1);
        let b = blocks[n - 1];
        let rest = partial_list(blocks, n - 1);
        if b.solid && b.state != BlockState::Full {
            rest.push(PartialBlock { x: x as usize, y: y as usize, z: z as usize, block: b })
        } else {
            rest
        }
    }
}

/// Every cell of a grown box can join it, but its start.
proof fn lemma_box_cells(
    blocks: Seq<GridBlock>,
    visited: Seq<bool>,
    block: GridBlock,
    sx: int,
    sy: int,
    sz: int,
    w: int,
    h: int,
    d: int,
    x: int,
    y: int,
    z: int,
)
    requires
        grown_box(blocks, visited, block, sx, sy, sz, w, h, d),
        in_box(sx, sy, sz, w, h, d, x, y, z),
        !(x == sx && y == sy && z == sz),
    ensures
        joinable(blocks, visited, block, x, y, z),
{
    if z > sz {
        assert(slab_joinable(blocks, visited, block, sx, w, sy, h, sz + (z - sz)));
        assert(joinable(blocks, visited, block, sx + (x - sx), sy + (y - sy), z));
    } else if y > sy {
        assert(row_joinable(blocks, visited, block, sx, w, sy + (y - sy), sz));
        assert(joinable(blocks, visited, block, sx + (x - sx), y, sz));
    } else {
        assert(joinable(blocks, visited, block, sx + (x - sx), sy, sz));
    }
}

/// Plans the mesh of a chunk: going through the cells in order, each solid
/// full block not yet in a box starts a box grown greedily from it (see
/// `find_contiguous_blocks`); then the solid blocks that are not full are
/// listed in order. The boxes lie in the grid, hold only blocks that merge
/// with their own, do not overlap, and together hold exactly the solid full
/// blocks.
pub fn plan_solid_mesh(blocks: &Vec<GridBlock>) -> (r: MeshPlan)
    requires
        blocks@.len() == 27000,
    ensures
        forall|k: int| 0 <= k < r.boxes@.len() ==> box_ok(blocks@, #[trigger] r.boxes@[k]),
        forall|k1: int, k2: int, x: int, y: int, z: int|
            0 <= k1 < k2 < r.boxes@.len() ==> !(#[trigger] in_mesh_box(r.boxes@[k1], x, y, z) && #[trigger] in_mesh_box(
                r.boxes@[k2],
                x,
                y,
                z,
            )),
        forall|x: int, y: int, z: int|
            in_grid(x, y, z) ==> (#[trigger] solid_full(blocks@, x, y, z) <==> covered(r.boxes@, x, y, z)),
        r.partials@ == partial_list(blocks@, 27000),
        r.boxes@.len() <= 27000,
{
    let mut visited: Vec<bool> = Vec::new();
    let mut n: usize = 0;
    while n < 27000
        invariant
            n <= 27000,
            visited@.len() == n,
            forall|t: int| 0 <= t < n ==> !visited@[t],
        decreases 27000 - n,
    {
        visited.push(false);
        n = n + 1;
    }
    let mut boxes: Vec<MeshBox> = Vec::new();
    let mut i: usize = 0;
    while i < 27000
        invariant
            i <= 27000,
            boxes@.len() <= i,
            blocks@.len() == 27000,
            visited@.len() == 27000,
            forall|x: int, y: int, z: int|
                in_grid(x, y, z) ==> (#[trigger] visited@[grid_index(x, y, z)] <==> covered(boxes@, x, y, z)),
            forall|k: int| 0 <= k < boxes@.len() ==> box_ok(blocks@, #[trigger] boxes@[k]),
            forall|k1: int, k2: int, x: int, y: int, z: int|
                0 <= k1 < k2 < boxes@.len() ==> !(#[trigger] in_mesh_box(boxes@[k1], x, y, z) && #[trigger] in_mesh_box(
                    boxes@[k2],
                    x,
                    y,
                    z,
                )),
            forall|t: int|
                0 <= t < i ==> (#[trigger] solid_full(blocks@, cell_of(t).0, cell_of(t).1, cell_of(t).2)
                    ==> visited@[t]),
        decreases 27000 - i,
    {
        proof {
            lemma_cell_of(i as int);
        }
        let x = i / 900;
        let y = (i / 30) % 30;
        let z = i % 30;
        let block = blocks[i];
        if !visited[i] && block.is_solid() && block.state == BlockState::Full {
            let ghost v0 = visited@;
            let ghost b0 = boxes@;
            let (w, h, d) = find_contiguous_blocks(blocks, &mut visited, x, y, z, block);
            let new_box = MeshBox { x, y, z, width: w, height: h, depth: d, block };
            boxes.push(new_box);
            proof {
                assert forall|a: int, b: int, c: int| #[trigger] in_mesh_box(new_box, a, b, c) implies merges(
                    blocks@[grid_index(a, b, c)],
                    block,
                ) && !v0[grid_index(a, b, c)] by {
                    if !(a == x && b == y && c == z) {
                        lemma_box_cells(blocks@, v0, block, x as int, y as int, z as int, w as int, h as int, d as int, a, b, c);
                    }
                }
                assert(box_ok(blocks@, new_box));
                assert forall|k: int| 0 <= k < boxes@.len() implies box_ok(blocks@, #[trigger] boxes@[k]) by {
                    if k < b0.len() {
                        assert(boxes@[k] == b0[k]);
                    }
                }
                assert forall|a: int, b: int, c: int|
                    in_grid(a, b, c) implies (#[trigger] visited@[grid_index(a, b, c)] <==> covered(boxes@, a, b, c)) by {
                    if covered(b0, a, b, c) {
                        let k = choose|k: int| 0 <= k < b0.len() && #[trigger] in_mesh_box(b0[k], a, b, c);
                        assert(in_mesh_box(boxes@[k], a, b, c));
                    }
                    if in_mesh_box(new_box, a, b, c) {
                        assert(in_mesh_box(boxes@[b0.len() as int], a, b, c));
                    }
                    if covered(boxes@, a, b, c) {
                        let k = choose|k: int| 0 <= k < boxes@.len() && #[trigger] in_mesh_box(boxes@[k], a, b, c);
                        if k < b0.len() {
                            assert(in_mesh_box(b0[k], a, b, c));
                        }
                    }
                }
                assert forall|k1: int, k2: int, a: int, b: int, c: int|
                    0 <= k1 < k2 < boxes@.len() implies !(#[trigger] in_mesh_box(boxes@[k1], a, b, c) && #[trigger] in_mesh_box(
                        boxes@[k2],
                        a,
                        b,
                        c,
                    )) by {
                    if k2 == b0.len() && in_mesh_box(boxes@[k1], a, b, c) && in_mesh_box(new_box, a, b, c) {
                        assert(in_mesh_box(b0[k1], a, b, c));
                        assert(covered(b0, a, b, c));
                        assert(in_grid(a, b, c));
                        assert(v0[grid_index(a, b, c)]);
                    }
                    if k2 < b0.len() {
                        assert(boxes@[k1] == b0[k1] && boxes@[k2] == b0[k2]);
                    }
                }
            }
        }
        proof {
            assert forall|t: int|
                0 <= t < i + 1 implies (#[trigger] solid_full(blocks@, cell_of(t).0, cell_of(t).1, cell_of(t).2)
                ==> visited@[t]) by {
                lemma_cell_of(t);
                if t == i {
                    assert(grid_index(x as int, y as int, z as int) == i);
                }
            }
        }
        i = i + 1;
    }
    proof {
        assert forall|a: int, b: int, c: int|
            in_grid(a, b, c) implies (#[trigger] solid_full(blocks@, a, b, c) <==> covered(boxes@, a, b, c)) by {
            lemma_grid_index(a, b, c);
            let t = grid_index(a, b, c);
            lemma_cell_of(t);
            if covered(boxes@, a, b, c) {
                let k = choose|k: int| 0 <= k < boxes@.len() && #[trigger] in_mesh_box(boxes@[k], a, b, c);
                assert(box_ok(blocks@, boxes@[k]));
            }
        }
    }
    let mut partials: Vec<PartialBlock> = Vec::new();
    let mut i: usize = 0;
    while i < 27000
        invariant
            i <= 27000,
            blocks@.len() == 27000,
            visited@.len() == 27000,
            forall|x: int, y: int, z: int|
                in_grid(x, y, z) ==> (#[trigger] visited@[grid_index(x, y, z)] <==> solid_full(blocks@, x, y, z)),
            partials@ == partial_list(blocks@, i as int),
        decreases 27000 - i,
    {
        proof {
            lemma_cell_of(i as int);
        }
        let x = i / 900;
        let y = (i / 30) % 30;
        let z = i % 30;
        let block = blocks[i];
        proof {
            assert(grid_index(x as int, y as int, z as int) == i);
            assert(visited@[i as int] == solid_full(blocks@, x as int, y as int, z as int));
        }
        if !visited[i] && block.is_solid() {
            match block.state {
                BlockState::Half(_) => {
                    partials.push(PartialBlock { x, y, z, block });
                },
                BlockState::Quarter(_) => {
                    partials.push(PartialBlock { x, y, z, block });
                },
                _ => {},
            }
        }
        i = i + 1;
    }
    MeshPlan { boxes, partials }
}

/// The corners of the cube of a box, in blocks: the near face (low z)
/// counter-clockwise from the low corner, then the far face likewise.
pub open spec fn cube_corners(b: MeshBox) -> Seq<(int, int, int)> {
    let (px, py, pz) = (b.x as int, b.y as int, b.z as int);
    let (nx, ny, nz) = (px + b.width, py + b.height, pz + b.depth);
    seq![(px, py, pz), (nx, py, pz), (nx, ny, pz), (px, ny, pz), (px, py, nz), (nx, py, nz), (nx, ny, nz), (px, ny, nz)]
}

/// The corners of the twelve triangles of a cube: near, far, left, right,
/// top and bottom faces, two triangles each.
pub open spec fn cube_triangles() -> Seq<int> {
    seq![0, 1, 2, 2, 3, 0, 4, 5, 6, 6, 7, 4, 0, 3, 7, 7, 4, 0, 1, 2, 6, 6, 5, 1, 2, 3, 7, 7, 6, 2, 0, 1, 5, 5, 4, 0]
}

/// The mesh of a box: its eight corners, in blocks, and the indices of its
/// twelve triangles. The near four corners face -z, the far four +z.
#[derive(Debug, Clone, Copy, PartialEq, Eq)]
pub struct CubeGeometry {
    pub corners: [(u32, u32, u32); 8],
    pub indices: [u32; 36],
}

/// Whether `g` is the cube of box `b` with first index `base`.
pub open spec fn cube_matches(g: CubeGeometry, b: MeshBox, base: int) -> bool {
    &&& forall|i: int| 0 <= i < 8 ==> ({
        let c = cube_corners(b)[i];
        (#[trigger] g.corners@[i]).0 == c.0 && g.corners@[i].1 == c.1 && g.corners@[i].2 == c.2
    })
    &&& forall|i: int| 0 <= i < 36 ==> #[trigger] g.indices@[i] == base + cube_triangles()[i]
}

/// The cube of box `b`, its vertices numbered from `base`.
pub fn add_cube_to_mesh(b: &MeshBox, base: u32) -> (r: CubeGeometry)
    requires
        base + 7 <= u32::MAX,
        b.x + b.width <= u32::MAX,
        b.y + b.height <= u32::MAX,
        b.z + b.depth <= u32::MAX,
    ensures
        cube_matches(r, *b, base as int),
{
    let (px, py, pz) = (b.x as u32, b.y as u32, b.z as u32);
    let (nx, ny, nz) = (px + b.width as u32, py + b.height as u32, pz + b.depth as u32);
    let corners = [(px, py, pz), (nx, py, pz), (nx, ny, pz), (px, ny, pz), (px, py, nz), (nx, py, nz), (nx, ny, nz), (px, ny, nz)];
    let indices: [u32; 36] = [
        base, base + 1, base + 2, base + 2, base + 3, base,
        base + 4, base + 5, base + 6, base + 6, base + 7, base + 4,
        base, base + 3, base + 7, base + 7, base + 4, base,
        base + 1, base + 2, base + 6, base + 6, base + 5, base + 1,
        base + 2, base + 3, base + 7, base + 7, base + 6, base + 2,
        base, base + 1, base + 5, base + 5, base + 4, base,
    ];
    let r = CubeGeometry { corners, indices };
    assert forall|i: int| 0 <= i < 36 implies #[trigger] r.indices@[i] == base + cube_triangles()[i] by {
        assert(r.indices@ =~= seq![
            base, (base + 1) as u32, (base + 2) as u32, (base + 2) as u32, (base + 3) as u32, base,
            (base + 4) as u32, (base + 5) as u32, (base + 6) as u32, (base + 6) as u32, (base + 7) as u32, (base + 4) as u32,
            base, (base + 3) as u32, (base + 7) as u32, (base + 7) as u32, (base + 4) as u32, base,
            (base + 1) as u32, (base + 2) as u32, (base + 6) as u32, (base + 6) as u32, (base + 5) as u32, (base + 1) as u32,
            (base + 2) as u32, (base + 3) as u32, (base + 7) as u32, (base + 7) as u32, (base + 6) as u32, (base + 2) as u32,
            base, (base + 1) as u32, (base + 5) as u32, (base + 5) as u32, (base + 4) as u32, base,
        ]);
    }
    r
}

/// The quad of a partial block: its four corners in quarter blocks, its
/// normal, and the indices of its two triangles.
#[derive(Debug, Clone, Copy, PartialEq, Eq)]
pub struct QuadGeometry {
    pub corners: [(u32, u32, u32); 4],
    pub normal: (i32, i32, i32),
    pub indices: [u32; 6],
}

/// The corners, in quarter blocks, of the quad of a partial block of cell
/// (x, y, z) that is `s` quarter blocks thick on side `o`: the quad lies `s`
/// in from the low side for up, north and east, and `s` in from the high
/// side for down, south and west.
pub open spec fn partial_corners(x: int, y: int, z: int, s: int, o: BlockOrientation) -> Seq<(int, int, int)> {
    let (px, py, pz) = (4 * x, 4 * y, 4 * z);
    let (nx, ny, nz) = (px + 4, py + 4, pz + 4);
    match o {
        BlockOrientation::Up => seq![(px, py + s, pz), (nx, py + s, pz), (nx, py + s, nz), (px, py + s, nz)],
        BlockOrientation::Down => seq![(px, ny - s, pz), (nx, ny - s, pz), (nx, ny - s, nz), (px, ny - s, nz)],
        BlockOrientation::North => seq![(px, py, pz + s), (nx, py, pz + s), (nx, ny, pz + s), (px, ny, pz + s)],
        BlockOrientation::South => seq![(px, py, nz - s), (nx, py, nz - s), (nx, ny, nz - s), (px, ny, nz - s)],
        BlockOrientation::East => seq![(px + s, py, pz), (px + s, py, nz), (px + s, ny, nz), (px + s, ny, pz)],
        BlockOrientation::West => seq![(nx - s, py, pz), (nx - s, py, nz), (nx - s, ny, nz), (nx - s, ny, pz)],
    }
}

/// The normal of the quad of a partial block on side `o`.
pub open spec fn partial_normal(o: BlockOrientation) -> (i32, i32, i32) {
    match o {
        BlockOrientation::Up => (0i32, 1i32, 0i32),
        BlockOrientation::Down => (0i32, -1i32, 0i32),
        BlockOrientation::North => (0i32, 0i32, 1i32),
        BlockOrientation::South => (0i32, 0i32, -1i32),
        BlockOrientation::East => (1i32, 0i32, 0i32),
        BlockOrientation::West => (-1i32, 0i32, 0i32),
    }
}

/// Whether `g` is the quad of a partial block of cell (x, y, z), `s` quarter
/// blocks thick on side `o`, with first index `base`.
pub open spec fn quad_matches(g: QuadGeometry, x: int, y: int, z: int, s: int, o: BlockOrientation, base: int) -> bool {
    &&& forall|i: int| 0 <= i < 4 ==> ({
        let c = partial_corners(x, y, z, s, o)[i];
        (#[trigger] g.corners@[i]).0 == c.0 && g.corners@[i].1 == c.1 && g.corners@[i].2 == c.2
    })
    &&& g.normal == partial_normal(o)
    &&& g.indices@ == seq![base, base + 1, base + 2, base + 2, base + 3, base].map_values(|v: int| v as u32)
}

/// The quad of a partial block of cell (x, y, z), `size` quarter blocks
/// thick on side `orientation`, its vertices numbered from `base`.
pub fn add_partial_block(x: usize, y: usize, z: usize, size: u32, orientation: BlockOrientation, base: u32) -> (r: QuadGeometry)
    requires
        size <= 4,
        x < 0x1000_0000,
        y < 0x1000_0000,
        z < 0x1000_0000,
        base + 3 <= u32::MAX,
    ensures
        quad_matches(r, x as int, y as int, z as int, size as int, orientation, base as int),
{
    let (px, py, pz) = (4 * x as u32, 4 * y as u32, 4 * z as u32);
    let (nx, ny, nz) = (px + 4, py + 4, pz + 4);
    let s = size;
    let corners = match orientation {
        BlockOrientation::Up => [(px, py + s, pz), (nx, py + s, pz), (nx, py + s, nz), (px, py + s, nz)],
        BlockOrientation::Down => [(px, ny - s, pz), (nx, ny - s, pz), (nx, ny - s, nz), (px, ny - s, nz)],
        BlockOrientation::North => [(px, py, pz + s), (nx, py, pz + s), (nx, ny, pz + s), (px, ny, pz + s)],
        BlockOrientation::South => [(px, py, nz - s), (nx, py, nz - s), (nx, ny, nz - s), (px, ny, nz - s)],
        BlockOrientation::East => [(px + s, py, pz), (px + s, py, nz), (px + s, ny, nz), (px + s, ny, pz)],
        BlockOrientation::West => [(nx - s, py, pz), (nx - s, py, nz), (nx - s, ny, nz), (nx - s, ny, pz)],
    };
    let normal = match orientation {
        BlockOrientation::Up => (0, 1, 0),
        BlockOrientation::Down => (0, -1, 0),
        BlockOrientation::North => (0, 0, 1),
        BlockOrientation::South => (0, 0, -1),
        BlockOrientation::East => (1, 0, 0),
        BlockOrientation::West => (-1, 0, 0),
    };
    let indices: [u32; 6] = [base, base + 1, base + 2, base + 2, base + 3, base];
    let r = QuadGeometry { corners, normal, indices };
    assert(r.indices@ =~= seq![base as int, base + 1, base + 2, base + 2, base + 3, base as int].map_values(|v: int| v as u32));
    r
}

/// The thickness, in quarter blocks, of a partial block: 2 for a half
/// block, 1 for a quarter block.
pub open spec fn partial_size(s: BlockState) -> int {
    match s {
        BlockState::Half(_) => 2,
        BlockState::Quarter(_) => 1,
        BlockState::Full => 0,
    }
}

/// The side a partial block covers.
pub open spec fn partial_side(s: BlockState) -> BlockOrientation {
    match s {
        BlockState::Half(o) => o,
        BlockState::Quarter(o) => o,
        BlockState::Full => BlockOrientation::Up,
    }
}

/// The mesh of a chunk: its plan, one cube for each box and one quad for
/// each partial block.
pub struct ChunkGeometry {
    pub plan: MeshPlan,
    pub cubes: Vec<CubeGeometry>,
    pub quads: Vec<QuadGeometry>,
}

/// The number of vertices of a chunk's mesh: eight for each cube, four for
/// each quad.
pub open spec fn vertex_count(g: ChunkGeometry) -> int {
    (8 * g.cubes@.len() + 4 * g.quads@.len()) as int
}

/// Every corner that a triangle of a cube names is one of its eight.
proof fn lemma_cube_triangles_bounded()
    ensures
        forall|i: int| 0 <= i < 36 ==> 0 <= #[trigger] cube_triangles()[i] < 8,
{
}

/// Meshes a chunk (see `plan_solid_mesh`): the cubes of the boxes, in
/// order, numbered eight vertices apart from 0, then the quads of the
/// partial blocks, in order, four vertices apart. Every index of the mesh
/// names one of its vertices.
pub fn solidify_chunk(blocks: &Vec<GridBlock>) -> (r: ChunkGeometry)
    requires
        blocks@.len() == 27000,
    ensures
        forall|k: int| 0 <= k < r.plan.boxes@.len() ==> box_ok(blocks@, #[trigger] r.plan.boxes@[k]),
        forall|k1: int, k2: int, x: int, y: int, z: int|
            0 <= k1 < k2 < r.plan.boxes@.len() ==> !(#[trigger] in_mesh_box(r.plan.boxes@[k1], x, y, z)
                && #[trigger] in_mesh_box(r.plan.boxes@[k2], x, y, z)),
        forall|x: int, y: int, z: int|
            in_grid(x, y, z) ==> (#[trigger] solid_full(blocks@, x, y, z) <==> covered(r.plan.boxes@, x, y, z)),
        r.plan.partials@ == partial_list(blocks@, 27000),
        r.cubes@.len() == r.plan.boxes@.len(),
        r.quads@.len() == r.plan.partials@.len(),
        forall|k: int| 0 <= k < r.cubes@.len() ==> cube_matches(#[trigger] r.cubes@[k], r.plan.boxes@[k], 8 * k),
        forall|j: int| 0 <= j < r.quads@.len() ==> ({
            let p = r.plan.partials@[j];
            quad_matches(
                #[trigger] r.quads@[j],
                p.x as int,
                p.y as int,
                p.z as int,
                partial_size(p.block.state),
                partial_side(p.block.state),
                8 * r.cubes@.len() + 4 * j,
            )
        }),
        forall|k: int, i: int|
            0 <= k < r.cubes@.len() && 0 <= i < 36 ==> #[trigger] r.cubes@[k].indices@[i] < vertex_count(r),
        forall|j: int, i: int|
            0 <= j < r.quads@.len() && 0 <= i < 6 ==> #[trigger] r.quads@[j].indices@[i] < vertex_count(r),
{
    let plan = plan_solid_mesh(blocks);
    proof {
        lemma_partial_list_facts(blocks@, 27000);
    }
    let mut cubes: Vec<CubeGeometry> = Vec::new();
    let mut current: u32 = 0;
    let mut k: usize = 0;
    while k < plan.boxes.len()
        invariant
            k <= plan.boxes@.len() <= 27000,
            forall|i: int| 0 <= i < plan.boxes@.len() ==> box_ok(blocks@, #[trigger] plan.boxes@[i]),
            cubes@.len() == k,
            current == 8 * k,
            forall|i: int| 0 <= i < k ==> cube_matches(#[trigger] cubes@[i], plan.boxes@[i], 8 * i),
        decreases plan.boxes@.len() - k,
    {
        let b = plan.boxes[k];
        assert(box_ok(blocks@, plan.boxes@[k as int]));
        cubes.push(add_cube_to_mesh(&b, current));
        current = current + 8;
        k = k + 1;
    }
    let mut quads: Vec<QuadGeometry> = Vec::new();
    let mut j: usize = 0;
    while j < plan.partials.len()
        invariant
            j <= plan.partials@.len() <= 27000,
            plan.partials@ == partial_list(blocks@, 27000),
            forall|i: int| 0 <= i < plan.partials@.len() ==> partial_ok(#[trigger] plan.partials@[i]),
            cubes@.len() <= 27000,
            quads@.len() == j,
            current == 8 * cubes@.len() + 4 * j,
            forall|i: int| 0 <= i < j ==> ({
                let p = plan.partials@[i];
                quad_matches(
                    #[trigger] quads@[i],
                    p.x as int,
                    p.y as int,
                    p.z as int,
                    partial_size(p.block.state),
                    partial_side(p.block.state),
                    8 * cubes@.len() + 4 * i,
                )
            }),
        decreases plan.partials@.len() - j,
    {
        let p = plan.partials[j];
        assert(partial_ok(plan.partials@[j as int]));
        let (size, side) = match p.block.state {
            BlockState::Half(o) => (2u32, o),
            BlockState::Quarter(o) => (1u32, o),
            BlockState::Full => (0u32, BlockOrientation::Up),
        };
        quads.push(add_partial_block(p.x, p.y, p.z, size, side, current));
        current = current + 4;
        j = j + 1;
    }
    let r = ChunkGeometry { plan, cubes, quads };
    proof {
        lemma_cube_triangles_bounded();
        assert forall|k: int, i: int| 0 <= k < r.cubes@.len() && 0 <= i < 36 implies #[trigger] r.cubes@[k].indices@[i]
            < vertex_count(r) by {
            assert(cube_matches(r.cubes@[k], r.plan.boxes@[k], 8 * k));
            assert(r.cubes@[k].indices@[i] == 8 * k + cube_triangles()[i]);
        }
        assert forall|j: int, i: int| 0 <= j < r.quads@.len() && 0 <= i < 6 implies #[trigger] r.quads@[j].indices@[i]
            < vertex_count(r) by {
            let p = r.plan.partials@[j];
            let base = 8 * r.cubes@.len() + 4 * j;
            assert(quad_matches(
                r.quads@[j],
                p.x as int,
                p.y as int,
                p.z as int,
                partial_size(p.block.state),
                partial_side(p.block.state),
                base,
            ));
            let ofs = seq![0int, 1, 2, 2, 3, 0];
            assert(seq![base, base + 1, base + 2, base + 2, base + 3, base] =~= ofs.map_values(|t: int| base + t));
            assert(0 <= ofs[i] <= 3);
            assert(base + 3 <= u32::MAX);
        }
    }
    r
}

/// Whether quad `q` of cell (x, y, z) faces side `o` and lies `s` quarter
/// blocks in from it: its normal points out of that side, and each of its
/// corners sits on the plane `s` quarter blocks inside the cell from it.
pub open spec fn quad_on_side(q: QuadGeometry, x: int, y: int, z: int, o: BlockOrientation, s: int) -> bool {
    match o {
        BlockOrientation::Up => q.normal == (0i32, 1i32, 0i32) && forall|i: int|
            0 <= i < 4 ==> (#[trigger] q.corners@[i]).1 == 4 * y + s,
        BlockOrientation::Down => q.normal == (0i32, -1i32, 0i32) && forall|i: int|
            0 <= i < 4 ==> (#[trigger] q.corners@[i]).1 == 4 * y + 4 - s,
        BlockOrientation::North => q.normal == (0i32, 0i32, 1i32) && forall|i: int|
            0 <= i < 4 ==> (#[trigger] q.corners@[i]).2 == 4 * z + s,
        BlockOrientation::South => q.normal == (0i32, 0i32, -1i32) && forall|i: int|
            0 <= i < 4 ==> (#[trigger] q.corners@[i]).2 == 4 * z + 4 - s,
        BlockOrientation::East => q.normal == (1i32, 0i32, 0i32) && forall|i: int|
            0 <= i < 4 ==> (#[trigger] q.corners@[i]).0 == 4 * x + s,
        BlockOrientation::West => q.normal == (-1i32, 0i32, 0i32) && forall|i: int|
            0 <= i < 4 ==> (#[trigger] q.corners@[i]).0 == 4 * x + 4 - s,
    }
}

/// A partial block's quad lies on the side its own orientation names: for
/// a half block facing `o` the quad has the normal of `o` and lies two
/// quarter blocks in from that side, for a quarter block facing `o` one
/// quarter block in. The quads follow the cubes, four vertices apart.
pub proof fn lemma_partial_quads_face_their_side(blocks: Seq<GridBlock>, r: ChunkGeometry)
    requires
        r.quads@.len() == r.plan.partials@.len(),
        forall|j: int| 0 <= j < r.quads@.len() ==> ({
            let p = r.plan.partials@[j];
            quad_matches(
                #[trigger] r.quads@[j],
                p.x as int,
                p.y as int,
                p.z as int,
                partial_size(p.block.state),
                partial_side(p.block.state),
                8 * r.cubes@.len() + 4 * j,
            )
        }),
    ensures
        forall|j: int| 0 <= j < r.quads@.len() ==> ({
            let p = r.plan.partials@[j];
            let q = #[trigger] r.quads@[j];
            let base = 8 * r.cubes@.len() + 4 * j;
            match p.block.state {
                BlockState::Half(o) => quad_on_side(q, p.x as int, p.y as int, p.z as int, o, 2) && quad_matches(
                    q,
                    p.x as int,
                    p.y as int,
                    p.z as int,
                    2,
                    o,
                    base,
                ),
                BlockState::Quarter(o) => quad_on_side(q, p.x as int, p.y as int, p.z as int, o, 1) && quad_matches(
                    q,
                    p.x as int,
                    p.y as int,
                    p.z as int,
                    1,
                    o,
                    base,
                ),
                BlockState::Full => true,
            }
        }),
{
}

/// The decimal form of a signed number: a minus sign before the digits of
/// a negative one.
pub open spec fn signed_decimal(v: int) -> Seq<char> {
    if v < 0 {
        seq!['-'] + decimal((-v) as nat)
    } else {
        decimal(v as nat)
    }
}

/// The name of the mesh of the chunk at (x, z): `chunk_{x}_{z}`.
pub open spec fn mesh_name(x: int, z: int) -> Seq<char> {
    seq!['c', 'h', 'u', 'n', 'k', '_'] + signed_decimal(x) + seq!['_'] + signed_decimal(z)
}

fn push_signed(out: &mut Vec<char>, v: i32)
    ensures
        final(out)@ == old(out)@ + signed_decimal(v as int),
{
    let wide = v as i64;
    let digits = if wide < 0 {
        out.push('-');
        decimal_chars((-wide) as u64)
    } else {
        decimal_chars(wide as u64)
    };
    let ghost head = out@;
    let mut i: usize = 0;
    while i < digits.len()
        invariant
            0 <= i <= digits@.len(),
            out@ == head + digits@.subrange(0, i as int),
        decreases digits@.len() - i,
    {
        out.push(digits[i]);
        i = i + 1;
        proof {
            assert(digits@.subrange(0, i as int) =~= digits@.subrange(0, i - 1).push(digits@[i - 1]));
        }
    }
    proof {
        assert(digits@.subrange(0, digits@.len() as int) =~= digits@);
        assert(out@ =~= old(out)@ + signed_decimal(v as int));
    }
}

/// The name of the mesh of the chunk at (x, z) (see `mesh_name`).
pub fn chunk_mesh_name(x: i32, z: i32) -> (r: String)
    ensures
        r@ == mesh_name(x as int, z as int),
{
    let mut out: Vec<char> = Vec::new();
    out.push('c');
    out.push('h');
    out.push('u');
    out.push('n');
    out.push('k');
    out.push('_');
    push_signed(&mut out, x);
    out.push('_');
    push_signed(&mut out, z);
    proof {
        assert(out@ =~= mesh_name(x as int, z as int));
    }
    string_of(&out)
}

/// Whether a listed partial block lies in the grid.
pub open spec fn partial_ok(p: PartialBlock) -> bool {
    p.x < 30 && p.y < 30 && p.z < 30
}

proof fn lemma_partial_list_facts(blocks: Seq<GridBlock>, n: int)
    requires
        0 <= n <= 27000,
    ensures
        partial_list(blocks, n).len() <= n,
        forall|i: int| 0 <= i < partial_list(blocks, n).len() ==> partial_ok(#[trigger] partial_list(blocks, n)[i]),
    decreases n,
{
    if n > 0 {
        lemma_partial_list_facts(blocks, n - 1);
        lemma_cell_of(n - 1);
    }
}

} // verus!
