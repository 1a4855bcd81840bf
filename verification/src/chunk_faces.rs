//! Face-by-face meshing of a cubic chunk: every face of a block that no
//! neighbouring block covers becomes a quad of the mesh. Partial blocks
//! (half or quarter integrity) have their quads shrunk. Positions are in
//! quarter-block units, so that every corner is a whole number. Block
//! textures are laid into a fixed 1024-pixel atlas.
use vstd::prelude::*;
use vstd::arithmetic::div_mod::{lemma_fundamental_div_mod, lemma_fundamental_div_mod_converse, lemma_mod_pos_bound};

verus! {

/// How much of its cell a block fills.
#[derive(Debug, Clone, Copy, PartialEq, Eq, Structural)]
pub enum Integrity {
    Full,
    Half,
    Quarter,
    Special,
}

/// A block of a meshed chunk: its id and integrity.
#[derive(Debug, Clone, Copy, PartialEq, Eq, Structural)]
pub struct FaceBlock {
    pub id: u16,
    pub integrity: Integrity,
}

/// A cubic chunk of `size` cells a side; cell (x, y, z) is at
/// `(x * size + y) * size + z` in `cells`.
#[derive(Debug, Clone)]
pub struct FaceChunk {
    pub size: usize,
    pub cells: Vec<Option<FaceBlock>>,
}

/// The position of cell (x, y, z) in a chunk of side `n`.
pub open spec fn cell_index(n: int, x: int, y: int, z: int) -> int {
    (x * n + y) * n + z
}

/// The cell at a position: (x, y, z).
pub open spec fn cell_coords(n: int, k: int) -> (int, int, int) {
    (k / n / n, (k / n) % n, k % n)
}

impl FaceChunk {
    /// The chunk holds one cell for each position.
    pub open spec fn wf(&self) -> bool {
        self.cells@.len() == self.size * self.size * self.size
    }

    /// Whether (x, y, z) is inside the chunk and holds a block.
    pub open spec fn occupied(&self, x: int, y: int, z: int) -> bool {
        let n = self.size as int;
        &&& 0 <= x < n
        &&& 0 <= y < n
        &&& 0 <= z < n
        &&& self.cells@[cell_index(n, x, y, z)] is Some
    }

    /// Whether face `f` of cell (x, y, z) is covered by a neighbour: faces
    /// 0 to 5 look west, east, down, up, south and north.
    pub open spec fn covered(&self, x: int, y: int, z: int, f: int) -> bool {
        let n = self.size as int;
        if f == 0 {
            x > 0 && self.occupied(x - 1, y, z)
        } else if f == 1 {
            x < n - 1 && self.occupied(x + 1, y, z)
        } else if f == 2 {
            y > 0 && self.occupied(x, y - 1, z)
        } else if f == 3 {
            y < n - 1 && self.occupied(x, y + 1, z)
        } else if f == 4 {
            z > 0 && self.occupied(x, y, z - 1)
        } else {
            z < n - 1 && self.occupied(x, y, z + 1)
        }
    }

    /// The uncovered faces of cell (x, y, z) from face `f` on, in order.
    pub open spec fn open_faces(&self, x: int, y: int, z: int, f: int) -> Seq<(int, int, int, int)>
        decreases 6 - f,
    {
        if f >= 6 {
            Seq::empty()
        } else {
            let rest = self.open_faces(x, y, z, f + 1);
            if self.covered(x, y, z, f) {
                rest
            } else {
                seq![(x, y, z, f)] + rest
            }
        }
    }

    /// The quads of cell `k`: its uncovered faces when it holds a block.
    pub open spec fn cell_faces(&self, k: int) -> Seq<(int, int, int, int)> {
        let (x, y, z) = cell_coords(self.size as int, k);
        if self.cells@[k] is Some {
            self.open_faces(x, y, z, 0)
        } else {
            Seq::empty()
        }
    }

    /// The quads of the first `k` cells, in order.
    pub open spec fn faces_upto(&self, k: int) -> Seq<(int, int, int, int)>
        decreases k,
    {
        if k <= 0 {
            Seq::empty()
        } else {
            self.faces_upto(k - 1) + self.cell_faces(k - 1)
        }
    }

    /// The quads of the chunk: each uncovered face of each block, cells in
    /// order of x, then y, then z, faces in order.
    pub open spec fn visible_faces(&self) -> Seq<(int, int, int, int)> {
        self.faces_upto(self.cells@.len() as int)
    }
}

proof fn lemma_cell_coords(n: int, x: int, y: int, z: int)
    requires
        0 <= x < n,
        0 <= y < n,
        0 <= z < n,
    ensures
        cell_coords(n, cell_index(n, x, y, z)) == (x, y, z),
        0 <= cell_index(n, x, y, z) < n * n * n,
        0 <= x * n <= x * n + y < n * n,
        0 <= (x * n + y) * n <= cell_index(n, x, y, z),
        n * n <= n * n * n,
{
    let k = cell_index(n, x, y, z);
    lemma_fundamental_div_mod_converse(k, n, x * n + y, z);
    lemma_fundamental_div_mod_converse(x * n + y, n, x, y);
    assert(0 <= cell_index(n, x, y, z) < n * n * n && 0 <= x * n <= x * n + y < n * n
        && 0 <= (x * n + y) * n <= cell_index(n, x, y, z) && n * n <= n * n * n) by (nonlinear_arith)
        requires
            0 <= x < n,
            0 <= y < n,
            0 <= z < n,
    ;
}

/// A quad of the mesh: the cell and face it shows, the block there, and
/// the index of its first vertex.
#[derive(Debug, Clone, Copy, PartialEq, Eq, Structural)]
pub struct FaceQuad {
    pub x: usize,
    pub y: usize,
    pub z: usize,
    pub face: usize,
    pub block: FaceBlock,
    pub base_index: u32,
}

fn occupied_at(chunk: &FaceChunk, x: usize, y: usize, z: usize) -> (r: bool)
    requires
        chunk.wf(),
        x < chunk.size,
        y < chunk.size,
        z < chunk.size,
    ensures
        r == chunk.occupied(x as int, y as int, z as int),
{
    let n = chunk.size;
    proof {
        lemma_cell_coords(n as int, x as int, y as int, z as int);
    }
    assert(chunk.cells@.len() == chunk.cells.len());
    let k = (x * n + y) * n + z;
    chunk.cells[k].is_some()
}

fn covered_at(chunk: &FaceChunk, x: usize, y: usize, z: usize, f: usize) -> (r: bool)
    requires
        chunk.wf(),
        x < chunk.size,
        y < chunk.size,
        z < chunk.size,
    ensures
        r == chunk.covered(x as int, y as int, z as int, f as int),
{
    let n = chunk.size;
    if f == 0 {
        x > 0 && occupied_at(chunk, x - 1, y, z)
    } else if f == 1 {
        x < n - 1 && occupied_at(chunk, x + 1, y, z)
    } else if f == 2 {
        y > 0 && occupied_at(chunk, x, y - 1, z)
    } else if f == 3 {
        y < n - 1 && occupied_at(chunk, x, y + 1, z)
    } else if f == 4 {
        z > 0 && occupied_at(chunk, x, y, z - 1)
    } else {
        z < n - 1 && occupied_at(chunk, x, y, z + 1)
    }
}

/// The quad made of the `i`-th visible face.
pub open spec fn quad_matches(q: FaceQuad, f: (int, int, int, int), chunk: FaceChunk, i: int) -> bool {
    &&& q.x == f.0
    &&& q.y == f.1
    &&& q.z == f.2
    &&& q.face == f.3
    &&& chunk.cells@[cell_index(chunk.size as int, f.0, f.1, f.2)] == Some(q.block)
    &&& q.base_index == 4 * i
}

proof fn lemma_faces_upto_len(chunk: FaceChunk, a: int, b: int)
    requires
        0 <= a <= b,
    ensures
        chunk.faces_upto(a).len() <= chunk.faces_upto(b).len(),
    decreases b,
{
    if b > a {
        lemma_faces_upto_len(chunk, a, b - 1);
    }
}

fn push_cell_faces(chunk: &FaceChunk, x: usize, y: usize, z: usize, block: FaceBlock, quads: &mut Vec<FaceQuad>, current: &mut u32)
    requires
        chunk.wf(),
        x < chunk.size,
        y < chunk.size,
        z < chunk.size,
        chunk.cells@[cell_index(chunk.size as int, x as int, y as int, z as int)] == Some(block),
        *old(current) == 4 * old(quads)@.len(),
        4 * (old(quads)@.len() + chunk.open_faces(x as int, y as int, z as int, 0).len()) <= u32::MAX,
    ensures
        final(quads)@.len() == old(quads)@.len() + chunk.open_faces(x as int, y as int, z as int, 0).len(),
        forall|i: int| 0 <= i < old(quads)@.len() ==> final(quads)@[i] == old(quads)@[i],
        forall|j: int| 0 <= j < chunk.open_faces(x as int, y as int, z as int, 0).len() ==> quad_matches(
            #[trigger] final(quads)@[old(quads)@.len() + j],
            chunk.open_faces(x as int, y as int, z as int, 0)[j],
            *chunk,
            old(quads)@.len() + j,
        ),
        *final(current) == 4 * final(quads)@.len(),
{
    let ghost all = chunk.open_faces(x as int, y as int, z as int, 0);
    let ghost base = quads@.len();
    let ghost mut pushed: Seq<(int, int, int, int)> = Seq::empty();
    let mut f: usize = 0;
    while f < 6
        invariant
            chunk.wf(),
            x < chunk.size,
            y < chunk.size,
            z < chunk.size,
            chunk.cells@[cell_index(chunk.size as int, x as int, y as int, z as int)] == Some(block),
            f <= 6,
            all == chunk.open_faces(x as int, y as int, z as int, 0),
            all == pushed + chunk.open_faces(x as int, y as int, z as int, f as int),
            4 * (base + all.len()) <= u32::MAX,
            quads@.len() == base + pushed.len(),
            *current == 4 * quads@.len(),
            forall|i: int| 0 <= i < base ==> quads@[i] == old(quads)@[i],
            base == old(quads)@.len(),
            forall|j: int| 0 <= j < pushed.len() ==> quad_matches(#[trigger] quads@[base + j], pushed[j], *chunk, base + j),
        decreases 6 - f,
    {
        let ghost rest = chunk.open_faces(x as int, y as int, z as int, f as int + 1);
        if !covered_at(chunk, x, y, z, f) {
            let ghost face = (x as int, y as int, z as int, f as int);
            assert(chunk.open_faces(x as int, y as int, z as int, f as int) == seq![face] + rest);
            assert(all == pushed.push(face) + rest) by {
                assert(pushed + (seq![face] + rest) =~= pushed.push(face) + rest);
            }
            quads.push(FaceQuad { x, y, z, face: f, block, base_index: *current });
            *current = *current + 4;
            proof {
                pushed = pushed.push(face);
            }
        }
        f = f + 1;
    }
    assert(pushed =~= all);
}

/// Meshes the chunk: one quad for each visible face (see
/// `visible_faces`), four vertices apart.
pub fn generate_mesh(chunk: &FaceChunk) -> (r: Vec<FaceQuad>)
    requires
        chunk.wf(),
        chunk.visible_faces().len() * 4 <= u32::MAX,
    ensures
        r@.len() == chunk.visible_faces().len(),
        forall|i: int| 0 <= i < r@.len() ==> quad_matches(#[trigger] r@[i], chunk.visible_faces()[i], *chunk, i),
{
    let n = chunk.size;
    let ghost total = chunk.cells@.len() as int;
    let mut quads: Vec<FaceQuad> = Vec::new();
    let mut current: u32 = 0;
    let mut x: usize = 0;
    let ghost mut k: int = 0;
    while x < n
        invariant
            chunk.wf(),
            n == chunk.size,
            total == chunk.cells@.len(),
            x <= n,
            k == x * n * n,
            chunk.visible_faces().len() * 4 <= u32::MAX,
            quads@.len() == chunk.faces_upto(k).len(),
            current == 4 * quads@.len(),
            forall|i: int| 0 <= i < quads@.len() ==> quad_matches(#[trigger] quads@[i], chunk.faces_upto(k)[i], *chunk, i),
        decreases n - x,
    {
        let mut y: usize = 0;
        while y < n
            invariant
                chunk.wf(),
                n == chunk.size,
                total == chunk.cells@.len(),
                x < n,
                y <= n,
                k == x * n * n + y * n,
                chunk.visible_faces().len() * 4 <= u32::MAX,
                quads@.len() == chunk.faces_upto(k).len(),
                current == 4 * quads@.len(),
                forall|i: int| 0 <= i < quads@.len() ==> quad_matches(#[trigger] quads@[i], chunk.faces_upto(k)[i], *chunk, i),
            decreases n - y,
        {
            let mut z: usize = 0;
            while z < n
                invariant
                    chunk.wf(),
                    n == chunk.size,
                    total == chunk.cells@.len(),
                    x < n,
                    y < n,
                    z <= n,
                    k == x * n * n + y * n + z,
                    chunk.visible_faces().len() * 4 <= u32::MAX,
                    quads@.len() == chunk.faces_upto(k).len(),
                    current == 4 * quads@.len(),
                    forall|i: int| 0 <= i < quads@.len() ==> quad_matches(#[trigger] quads@[i], chunk.faces_upto(k)[i], *chunk, i),
                decreases n - z,
            {
                proof {
                    lemma_cell_coords(n as int, x as int, y as int, z as int);
                    assert(cell_index(n as int, x as int, y as int, z as int) == k) by (nonlinear_arith)
                        requires
                            k == x * n * n + y * n + z,
                    ;
                    lemma_faces_upto_len(*chunk, k + 1, total);
                }
                let ghost before = quads@;
                assert(chunk.cells@.len() == chunk.cells.len());
                let idx = (x * n + y) * n + z;
                match chunk.cells[idx] {
                    Some(block) => {
                        push_cell_faces(chunk, x, y, z, block, &mut quads, &mut current);
                    },
                    None => {},
                }
                proof {
                    let cf = chunk.cell_faces(k);
                    assert(chunk.faces_upto(k + 1) == chunk.faces_upto(k) + cf);
                    assert forall|i: int| 0 <= i < quads@.len() implies quad_matches(#[trigger] quads@[i], chunk.faces_upto(k + 1)[i], *chunk, i) by {
                        if i < before.len() {
                            assert(quads@[i] == before[i]);
                        } else {
                            let j = i - before.len();
                            assert(quads@[before.len() + j] == quads@[i]);
                        }
                    }
                    k = k + 1;
                }
                z = z + 1;
            }
            assert(k == x * n * n + (y + 1) * n) by (nonlinear_arith)
                requires
                    k == x * n * n + y * n + n,
            ;
            y = y + 1;
        }
        assert(k == (x + 1) * n * n) by (nonlinear_arith)
            requires
                k == x * n * n + n * n,
        ;
        x = x + 1;
    }
    assert(k == total) by (nonlinear_arith)
        requires
            k == n * n * n,
            total == n * n * n,
    ;
    quads
}

proof fn lemma_index_coords(n: int, k: int)
    requires
        0 < n,
        0 <= k < n * n * n,
    ensures
        0 <= cell_coords(n, k).0 < n,
        0 <= cell_coords(n, k).1 < n,
        0 <= cell_coords(n, k).2 < n,
        cell_index(n, cell_coords(n, k).0, cell_coords(n, k).1, cell_coords(n, k).2) == k,
{
    let q = k / n;
    let x = q / n;
    let y = q % n;
    let z = k % n;
    lemma_fundamental_div_mod(k, n);
    lemma_fundamental_div_mod(q, n);
    lemma_mod_pos_bound(k, n);
    lemma_mod_pos_bound(q, n);
    assert(0 <= q < n * n) by (nonlinear_arith)
        requires
            k == n * q + z,
            0 <= z < n,
            0 <= k < n * n * n,
            0 < n,
    ;
    assert(0 <= x < n) by (nonlinear_arith)
        requires
            q == n * x + y,
            0 <= y < n,
            0 <= q < n * n,
            0 < n,
    ;
    assert((x * n + y) * n + z == k) by (nonlinear_arith)
        requires
            k == n * q + z,
            q == n * x + y,
    ;
}

proof fn lemma_add_contains<A>(a: Seq<A>, b: Seq<A>, t: A)
    ensures
        (a + b).contains(t) <==> (a.contains(t) || b.contains(t)),
{
    if (a + b).contains(t) {
        let i = choose|i: int| 0 <= i < (a + b).len() && (a + b)[i] == t;
        if i < a.len() {
            assert(a[i] == t);
        } else {
            assert(b[i - a.len()] == t);
        }
    }
    if a.contains(t) {
        let i = choose|i: int| 0 <= i < a.len() && a[i] == t;
        assert((a + b)[i] == t);
    }
    if b.contains(t) {
        let j = choose|j: int| 0 <= j < b.len() && b[j] == t;
        assert((a + b)[a.len() + j] == t);
    }
}

proof fn lemma_open_faces_contain(chunk: FaceChunk, x: int, y: int, z: int, f: int, t: (int, int, int, int))
    requires
        0 <= f,
    ensures
        chunk.open_faces(x, y, z, f).contains(t) <==> (t.0 == x && t.1 == y && t.2 == z && f <= t.3 < 6
            && !chunk.covered(x, y, z, t.3)),
    decreases 6 - f,
{
    if f < 6 {
        lemma_open_faces_contain(chunk, x, y, z, f + 1, t);
        if !chunk.covered(x, y, z, f) {
            lemma_add_contains(seq![(x, y, z, f)], chunk.open_faces(x, y, z, f + 1), t);
            assert(seq![(x, y, z, f)].contains(t) <==> t == (x, y, z, f)) by {
                if t == (x, y, z, f) {
                    assert(seq![(x, y, z, f)][0] == t);
                }
            }
        }
    }
}

proof fn lemma_faces_upto_contain(chunk: FaceChunk, k: int, t: (int, int, int, int))
    requires
        chunk.wf(),
        chunk.size > 0,
        0 <= k <= chunk.cells@.len(),
    ensures
        chunk.faces_upto(k).contains(t) <==> ({
            let n = chunk.size as int;
            &&& 0 <= t.0 < n
            &&& 0 <= t.1 < n
            &&& 0 <= t.2 < n
            &&& cell_index(n, t.0, t.1, t.2) < k
            &&& chunk.cells@[cell_index(n, t.0, t.1, t.2)] is Some
            &&& 0 <= t.3 < 6
            &&& !chunk.covered(t.0, t.1, t.2, t.3)
        }),
    decreases k,
{
    let n = chunk.size as int;
    if k > 0 {
        lemma_faces_upto_contain(chunk, k - 1, t);
        lemma_add_contains(chunk.faces_upto(k - 1), chunk.cell_faces(k - 1), t);
        lemma_index_coords(n, k - 1);
        let c = cell_coords(n, k - 1);
        lemma_open_faces_contain(chunk, c.0, c.1, c.2, 0, t);
        if 0 <= t.0 < n && 0 <= t.1 < n && 0 <= t.2 < n {
            lemma_cell_coords(n, t.0, t.1, t.2);
        }
    }
}

/// Which faces a chunk's mesh shows: there is a quad for face `f` (0 to 5:
/// west, east, down, up, south, north) of cell (x, y, z) exactly when the
/// cell holds a block and the cell next to it on that side, one step along
/// -x, +x, -y, +y, -z or +z, holds none (or lies outside the chunk). So a
/// face between two blocks is never drawn, and the up face of the topmost
/// block of a column always is.
pub proof fn lemma_mesh_shows_open_faces(chunk: FaceChunk, r: Seq<FaceQuad>, x: int, y: int, z: int, f: int)
    requires
        chunk.wf(),
        0 <= f < 6,
        r.len() == chunk.visible_faces().len(),
        forall|i: int| 0 <= i < r.len() ==> quad_matches(#[trigger] r[i], chunk.visible_faces()[i], chunk, i),
    ensures
        (exists|i: int| 0 <= i < r.len() && r[i].x == x && r[i].y == y && r[i].z == z && r[i].face == f)
            <==> (chunk.occupied(x, y, z) && !chunk.occupied(
            face_neighbour(x, y, z, f).0,
            face_neighbour(x, y, z, f).1,
            face_neighbour(x, y, z, f).2,
        )),
{
    let t = (x, y, z, f);
    let vf = chunk.visible_faces();
    if chunk.size == 0 {
        assert(chunk.cells@.len() == 0);
        assert(vf.len() == 0);
    } else {
        lemma_faces_upto_contain(chunk, chunk.cells@.len() as int, t);
        if 0 <= x < chunk.size && 0 <= y < chunk.size && 0 <= z < chunk.size {
            lemma_cell_coords(chunk.size as int, x, y, z);
        }
        if exists|i: int| 0 <= i < r.len() && r[i].x == x && r[i].y == y && r[i].z == z && r[i].face == f {
            let i = choose|i: int| 0 <= i < r.len() && r[i].x == x && r[i].y == y && r[i].z == z && r[i].face == f;
            assert(quad_matches(r[i], vf[i], chunk, i));
            assert(vf[i] == t);
            assert(vf.contains(t));
        }
        if vf.contains(t) {
            let i = choose|i: int| 0 <= i < vf.len() && vf[i] == t;
            assert(quad_matches(r[i], vf[i], chunk, i));
        }
    }
}

/// The cell next to (x, y, z) across face `f`: one step along -x, +x, -y,
/// +y, -z or +z for faces 0 to 5.
pub open spec fn face_neighbour(x: int, y: int, z: int, f: int) -> (int, int, int) {
    if f == 0 {
        (x - 1, y, z)
    } else if f == 1 {
        (x + 1, y, z)
    } else if f == 2 {
        (x, y - 1, z)
    } else if f == 3 {
        (x, y + 1, z)
    } else if f == 4 {
        (x, y, z - 1)
    } else {
        (x, y, z + 1)
    }
}

/// Which of a material's colours a face takes.
#[derive(Debug, Clone, Copy, PartialEq, Eq, Structural)]
pub enum FaceColor {
    Side,
    Bottom,
    Top,
}

/// The colour of face `f`: the bottom and top faces have their own, the
/// four upright faces share the side colour.
pub open spec fn face_color(f: int) -> FaceColor {
    if f == 2 {
        FaceColor::Bottom
    } else if f == 3 {
        FaceColor::Top
    } else {
        FaceColor::Side
    }
}

/// The outward normal of face `f`.
pub open spec fn face_normal(f: int) -> (i32, i32, i32) {
    if f == 0 {
        (-1i32, 0i32, 0i32)
    } else if f == 1 {
        (1i32, 0i32, 0i32)
    } else if f == 2 {
        (0i32, -1i32, 0i32)
    } else if f == 3 {
        (0i32, 1i32, 0i32)
    } else if f == 4 {
        (0i32, 0i32, -1i32)
    } else {
        (0i32, 0i32, 1i32)
    }
}

/// The corners of face `f` of the cell at the origin, in whole blocks.
pub open spec fn face_offsets(f: int) -> Seq<(int, int, int)> {
    if f == 0 {
        seq![(0, 0, 1), (0, 1, 1), (0, 1, 0), (0, 0, 0)]
    } else if f == 1 {
        seq![(1, 0, 0), (1, 1, 0), (1, 1, 1), (1, 0, 1)]
    } else if f == 2 {
        seq![(0, 0, 0), (1, 0, 0), (1, 0, 1), (0, 0, 1)]
    } else if f == 3 {
        seq![(0, 1, 1), (1, 1, 1), (1, 1, 0), (0, 1, 0)]
    } else if f == 4 {
        seq![(1, 0, 0), (1, 1, 0), (0, 1, 0), (0, 0, 0)]
    } else {
        seq![(0, 0, 1), (0, 1, 1), (1, 1, 1), (1, 0, 1)]
    }
}

/// The divisor that a partial block applies to one coordinate of the last
/// three corners of a face: a half block halves it, a quarter block
/// quarters it; full and special blocks keep their corners.
pub open spec fn integrity_divisor(integrity: Integrity) -> int {
    match integrity {
        Integrity::Half => 2,
        Integrity::Quarter => 4,
        _ => 1,
    }
}

/// Corner `i` of a face after the integrity of its block: the first corner
/// stays; on the others, upright faces across x scale z, the bottom and top
/// scale y, and upright faces across z scale x.
pub open spec fn adjusted_corner(p: (int, int, int), integrity: Integrity, f: int, i: int) -> (int, int, int) {
    let d = integrity_divisor(integrity);
    if i == 0 || d == 1 {
        p
    } else if f == 0 || f == 1 {
        (p.0, p.1, p.2 / d)
    } else if f == 2 || f == 3 {
        (p.0, p.1 / d, p.2)
    } else if f == 4 || f == 5 {
        (p.0 / d, p.1, p.2)
    } else {
        p
    }
}

/// The corners of face `f` of cell (x, y, z) for a block of the given
/// integrity, in quarter-block units.
pub open spec fn face_positions(x: int, y: int, z: int, f: int, integrity: Integrity) -> Seq<(int, int, int)> {
    Seq::new(4, |i: int| {
        let o = face_offsets(f)[i];
        adjusted_corner((4 * (x + o.0), 4 * (y + o.1), 4 * (z + o.2)), integrity, f, i)
    })
}

/// The vertex data of a quad: its corners in quarter-block units, normal,
/// colour, texture coordinates, block id, whether it is textured, and the
/// indices of its two triangles.
#[derive(Debug, Clone, Copy, PartialEq, Eq)]
pub struct FaceVertices {
    pub positions: [(u64, u64, u64); 4],
    pub normal: (i32, i32, i32),
    pub color: FaceColor,
    pub tex_coords: [(u32, u32); 4],
    pub block_id: u16,
    pub textured: bool,
    pub indices: [u32; 6],
}

/// Whether the coordinates are whole blocks in quarter-block units.
pub open spec fn whole_blocks(ps: Seq<(u64, u64, u64)>) -> bool {
    forall|i: int| 0 <= i < ps.len() ==> (#[trigger] ps[i]).0 % 4 == 0 && ps[i].1 % 4 == 0 && ps[i].2 % 4 == 0
}

/// Shrinks the corners of face `face` (in quarter-block units, at whole
/// blocks) for a block of the given integrity (see `adjusted_corner`).
pub fn adjust_for_integrity(positions: [(u64, u64, u64); 4], integrity: Integrity, face: usize) -> (r: [(u64, u64, u64); 4])
    requires
        whole_blocks(positions@),
    ensures
        forall|i: int| 0 <= i < 4 ==> ({
            let p = positions@[i];
            let q = adjusted_corner((p.0 as int, p.1 as int, p.2 as int), integrity, face as int, i);
            (#[trigger] r@[i]).0 == q.0 && r@[i].1 == q.1 && r@[i].2 == q.2
        }),
{
    let d: u64 = match integrity {
        Integrity::Half => 2,
        Integrity::Quarter => 4,
        _ => 1,
    };
    if d == 1 {
        return positions;
    }
    let mut r = positions;
    let mut i: usize = 1;
    while i < 4
        invariant
            1 <= i <= 4,
            d == integrity_divisor(integrity),
            d != 1,
            r@.len() == 4,
            r@[0] == positions@[0],
            forall|j: int| i <= j < 4 ==> r@[j] == positions@[j],
            forall|j: int| 1 <= j < i ==> ({
                let p = positions@[j];
                let q = adjusted_corner((p.0 as int, p.1 as int, p.2 as int), integrity, face as int, j);
                (#[trigger] r@[j]).0 == q.0 && r@[j].1 == q.1 && r@[j].2 == q.2
            }),
        decreases 4 - i,
    {
        let (px, py, pz) = r[i];
        let q = if face == 0 || face == 1 {
            (px, py, pz / d)
        } else if face == 2 || face == 3 {
            (px, py / d, pz)
        } else if face == 4 || face == 5 {
            (px / d, py, pz)
        } else {
            (px, py, pz)
        };
        r.set(i, q);
        i = i + 1;
    }
    r
}

/// The texture coordinates of face `face` of a block: the whole texture for
/// each of the six faces, nothing for any other face number.
pub fn get_texture_coords(block_id: u16, face: usize) -> (r: [(u32, u32); 4])
    ensures
        face < 6 ==> r@ == seq![(0u32, 0u32), (1u32, 0u32), (1u32, 1u32), (0u32, 1u32)],
        face >= 6 ==> r@ == seq![(0u32, 0u32), (0u32, 0u32), (0u32, 0u32), (0u32, 0u32)],
{
    let r = if face < 6 {
        [(0, 0), (1, 0), (1, 1), (0, 1)]
    } else {
        [(0, 0), (0, 0), (0, 0), (0, 0)]
    };
    assert(face < 6 ==> r@ =~= seq![(0u32, 0u32), (1u32, 0u32), (1u32, 1u32), (0u32, 1u32)]);
    assert(face >= 6 ==> r@ =~= seq![(0u32, 0u32), (0u32, 0u32), (0u32, 0u32), (0u32, 0u32)]);
    r
}

/// The material a block is drawn with: its own when the renderer knows its
/// id, else stone's (id 1).
pub fn material_for(known: &Vec<u16>, id: u16) -> (r: u16)
    ensures
        r == if known@.contains(id) {
            id
        } else {
            1u16
        },
{
    let mut i: usize = 0;
    while i < known.len()
        invariant
            i <= known@.len(),
            forall|j: int| 0 <= j < i ==> known@[j] != id,
        decreases known@.len() - i,
    {
        if known[i] == id {
            return id;
        }
        i = i + 1;
    }
    1
}

/// The vertex data of quad `quad`, textured when its material has a texture
/// and the atlas is on the device (`textured`).
pub fn add_block_face(quad: &FaceQuad, textured: bool) -> (r: FaceVertices)
    requires
        quad.face < 6,
        quad.x < u64::MAX / 4 - 1,
        quad.y < u64::MAX / 4 - 1,
        quad.z < u64::MAX / 4 - 1,
        quad.base_index + 3 <= u32::MAX,
    ensures
        forall|i: int| 0 <= i < 4 ==> ({
            let q = face_positions(quad.x as int, quad.y as int, quad.z as int, quad.face as int, quad.block.integrity)[i];
            (#[trigger] r.positions@[i]).0 == q.0 && r.positions@[i].1 == q.1 && r.positions@[i].2 == q.2
        }),
        r.normal == face_normal(quad.face as int),
        r.color == face_color(quad.face as int),
        textured ==> r.tex_coords@ == seq![(0u32, 0u32), (1u32, 0u32), (1u32, 1u32), (0u32, 1u32)],
        !textured ==> r.tex_coords@ == seq![(0u32, 0u32), (0u32, 0u32), (0u32, 0u32), (0u32, 0u32)],
        r.block_id == quad.block.id,
        r.textured == textured,
        ({
            let b = quad.base_index;
            r.indices@ == seq![b, (b + 1) as u32, (b + 2) as u32, b, (b + 2) as u32, (b + 3) as u32]
        }),
{
    let f = quad.face;
    let x = quad.x as u64;
    let y = quad.y as u64;
    let z = quad.z as u64;
    let corners: [(u64, u64, u64); 4] = if f == 0 {
        [(x, y, z + 1), (x, y + 1, z + 1), (x, y + 1, z), (x, y, z)]
    } else if f == 1 {
        [(x + 1, y, z), (x + 1, y + 1, z), (x + 1, y + 1, z + 1), (x + 1, y, z + 1)]
    } else if f == 2 {
        [(x, y, z), (x + 1, y, z), (x + 1, y, z + 1), (x, y, z + 1)]
    } else if f == 3 {
        [(x, y + 1, z + 1), (x + 1, y + 1, z + 1), (x + 1, y + 1, z), (x, y + 1, z)]
    } else if f == 4 {
        [(x + 1, y, z), (x + 1, y + 1, z), (x, y + 1, z), (x, y, z)]
    } else {
        [(x, y, z + 1), (x, y + 1, z + 1), (x + 1, y + 1, z + 1), (x + 1, y, z + 1)]
    };
    let ghost offs = face_offsets(f as int);
    assert(forall|i: int| 0 <= i < 4 ==> (#[trigger] corners@[i]).0 == x + offs[i].0 && corners@[i].1 == y + offs[i].1
        && corners@[i].2 == z + offs[i].2);
    let scaled: [(u64, u64, u64); 4] = [
        (4 * corners[0].0, 4 * corners[0].1, 4 * corners[0].2),
        (4 * corners[1].0, 4 * corners[1].1, 4 * corners[1].2),
        (4 * corners[2].0, 4 * corners[2].1, 4 * corners[2].2),
        (4 * corners[3].0, 4 * corners[3].1, 4 * corners[3].2),
    ];
    assert(whole_blocks(scaled@));
    let positions = adjust_for_integrity(scaled, quad.block.integrity, f);
    let normal: (i32, i32, i32) = if f == 0 {
        (-1, 0, 0)
    } else if f == 1 {
        (1, 0, 0)
    } else if f == 2 {
        (0, -1, 0)
    } else if f == 3 {
        (0, 1, 0)
    } else if f == 4 {
        (0, 0, -1)
    } else {
        (0, 0, 1)
    };
    let color = if f == 2 {
        FaceColor::Bottom
    } else if f == 3 {
        FaceColor::Top
    } else {
        FaceColor::Side
    };
    let tex_coords = if textured {
        get_texture_coords(quad.block.id, f)
    } else {
        [(0, 0), (0, 0), (0, 0), (0, 0)]
    };
    assert(!textured ==> tex_coords@ =~= seq![(0u32, 0u32), (0u32, 0u32), (0u32, 0u32), (0u32, 0u32)]);
    let b = quad.base_index;
    let indices: [u32; 6] = [b, b + 1, b + 2, b, b + 2, b + 3];
    assert(indices@ =~= seq![b, (b + 1) as u32, (b + 2) as u32, b, (b + 2) as u32, (b + 3) as u32]);
    FaceVertices { positions, normal, color, tex_coords, block_id: quad.block.id, textured, indices }
}

/// The side of the fixed texture atlas, in pixels.
pub const FIXED_ATLAS_SIZE: u32 = 1024;

/// What became of a material's texture: placed at a corner with its size,
/// or not loaded.
#[derive(Debug, Clone, Copy, PartialEq, Eq, Structural)]
pub struct TextureSlot {
    pub block_id: u16,
    pub loaded: bool,
    pub x: u32,
    pub y: u32,
    pub width: u32,
    pub height: u32,
}

/// The outcome of laying textures into the fixed atlas: what became of
/// each texture taken, in order, and whether laying stopped because the
/// atlas was full (the textures after that are not taken).
#[derive(Debug, Clone)]
pub struct FixedPacking {
    pub slots: Vec<TextureSlot>,
    pub full: bool,
}

/// The laying cursor: next corner and the tallest texture of the row.
pub ghost struct RowCursor {
    pub x: int,
    pub y: int,
    pub row: int,
}

/// The corner at which a texture of width `w` is tried: the cursor, or the
/// start of the next row when the texture would pass the right edge.
pub open spec fn row_start(c: RowCursor, w: int) -> RowCursor {
    if c.x + w > FIXED_ATLAS_SIZE {
        RowCursor { x: 0, y: c.y + c.row, row: 0 }
    } else {
        c
    }
}

/// Laying the textures `items` (block, size when loaded) from cursor `c`:
/// the slots and whether the atlas filled up.
pub open spec fn fixed_run(c: RowCursor, items: Seq<(u16, Option<(u32, u32)>)>) -> (Seq<TextureSlot>, bool)
    decreases items.len(),
{
    if items.len() == 0 {
        (Seq::empty(), false)
    } else {
        let (id, dims) = items[0];
        match dims {
            None => {
                let rest = fixed_run(c, items.drop_first());
                (seq![TextureSlot { block_id: id, loaded: false, x: 0, y: 0, width: 0, height: 0 }] + rest.0, rest.1)
            },
            Some((w, h)) => {
                let p = row_start(c, w as int);
                if p.y + h > FIXED_ATLAS_SIZE {
                    (Seq::empty(), true)
                } else {
                    let next = RowCursor { x: p.x + w, y: p.y, row: if p.row >= h { p.row } else { h as int } };
                    let rest = fixed_run(next, items.drop_first());
                    (seq![TextureSlot { block_id: id, loaded: true, x: p.x as u32, y: p.y as u32, width: w, height: h }] + rest.0, rest.1)
                }
            },
        }
    }
}

/// Whether laying `items` from `c` stays within the machine's integers and,
/// for textures with pixels, within the atlas image.
pub open spec fn fixed_run_safe(c: RowCursor, items: Seq<(u16, Option<(u32, u32)>)>) -> bool
    decreases items.len(),
{
    if items.len() == 0 {
        true
    } else {
        let (id, dims) = items[0];
        match dims {
            None => fixed_run_safe(c, items.drop_first()),
            Some((w, h)) => {
                let p = row_start(c, w as int);
                &&& c.x + w <= u32::MAX
                &&& c.y + c.row <= u32::MAX
                &&& p.y + h <= u32::MAX
                &&& (p.y + h <= FIXED_ATLAS_SIZE ==> {
                    &&& (w > 0 && h > 0 ==> p.x + w <= FIXED_ATLAS_SIZE)
                    &&& p.x + w <= u32::MAX
                    &&& fixed_run_safe(
                        RowCursor { x: p.x + w, y: p.y, row: if p.row >= h { p.row } else { h as int } },
                        items.drop_first(),
                    )
                })
            },
        }
    }
}

/// Whether laying `items` stays safe (`fixed_run_safe` from the corner):
/// the test to make before `load_textures`.
pub fn fixed_layout_is_safe(items: &Vec<(u16, Option<(u32, u32)>)>) -> (r: bool)
    ensures
        r == fixed_run_safe(RowCursor { x: 0, y: 0, row: 0 }, items@),
{
    let mut x: u64 = 0;
    let mut y: u64 = 0;
    let mut row: u64 = 0;
    let mut i: usize = 0;
    assert(items@.skip(0) =~= items@);
    while i < items.len()
        invariant
            i <= items@.len(),
            x <= u32::MAX,
            y <= u32::MAX,
            row <= u32::MAX,
            fixed_run_safe(RowCursor { x: 0, y: 0, row: 0 }, items@)
                == fixed_run_safe(RowCursor { x: x as int, y: y as int, row: row as int }, items@.skip(i as int)),
        decreases items@.len() - i,
    {
        let ghost tail = items@.skip(i as int);
        assert(tail[0] == items@[i as int]);
        assert(tail.drop_first() =~= items@.skip(i as int + 1));
        let (_, dims) = items[i];
        match dims {
            None => {},
            Some((w, h)) => {
                let wide = w as u64;
                let tall = h as u64;
                let max = u32::MAX as u64;
                if x + wide > max || y + row > max {
                    return false;
                }
                if x + wide > FIXED_ATLAS_SIZE as u64 {
                    x = 0;
                    y = y + row;
                    row = 0;
                }
                if y + tall > max {
                    return false;
                }
                if y + tall > FIXED_ATLAS_SIZE as u64 {
                    return true;
                }
                if wide > 0 && tall > 0 && x + wide > FIXED_ATLAS_SIZE as u64 {
                    return false;
                }
                if x + wide > max {
                    return false;
                }
                x = x + wide;
                if tall > row {
                    row = tall;
                }
            },
        }
        i = i + 1;
    }
    true
}

/// Two placed textures do not overlap: side by side in a row, or the first
/// in an earlier row.
pub open spec fn disjoint(a: TextureSlot, b: TextureSlot) -> bool {
    ||| a.y + a.height <= b.y
    ||| (a.y == b.y && a.x + a.width <= b.x)
}

/// Whether the cursor lies past a placed texture.
pub open spec fn past(s: TextureSlot, x: int, y: int, row: int) -> bool {
    s.loaded ==> {
        ||| s.y + s.height <= y
        ||| (s.y == y && s.x + s.width <= x && s.height <= row)
    }
}

/// Lays the materials' textures, in the order they are taken, into the
/// fixed atlas (see `fixed_run`): each loaded texture (block, width,
/// height) goes at the cursor, or at the start of the next row when it
/// would pass the right edge; laying stops when one would pass the bottom.
/// A texture that did not load is marked so. Placed textures never overlap
/// and those with pixels lie inside the atlas.
pub fn load_textures(items: &Vec<(u16, Option<(u32, u32)>)>) -> (r: FixedPacking)
    requires
        fixed_run_safe(RowCursor { x: 0, y: 0, row: 0 }, items@),
    ensures
        r.slots@ == fixed_run(RowCursor { x: 0, y: 0, row: 0 }, items@).0,
        r.full == fixed_run(RowCursor { x: 0, y: 0, row: 0 }, items@).1,
        forall|i: int, j: int| 0 <= i < j < r.slots@.len() && r.slots@[i].loaded && r.slots@[j].loaded
            ==> disjoint(#[trigger] r.slots@[i], #[trigger] r.slots@[j]),
        forall|i: int| 0 <= i < r.slots@.len() && r.slots@[i].loaded && r.slots@[i].width > 0 && r.slots@[i].height > 0
            ==> (#[trigger] r.slots@[i]).x + r.slots@[i].width <= FIXED_ATLAS_SIZE
                && r.slots@[i].y + r.slots@[i].height <= FIXED_ATLAS_SIZE,
{
    let mut slots: Vec<TextureSlot> = Vec::new();
    let mut x: u64 = 0;
    let mut y: u64 = 0;
    let mut row: u64 = 0;
    let mut i: usize = 0;
    assert(items@.skip(0) =~= items@);
    while i < items.len()
        invariant
            i <= items@.len(),
            fixed_run_safe(RowCursor { x: x as int, y: y as int, row: row as int }, items@.skip(i as int)),
            fixed_run(RowCursor { x: 0, y: 0, row: 0 }, items@) == ({
                let rest = fixed_run(RowCursor { x: x as int, y: y as int, row: row as int }, items@.skip(i as int));
                (slots@ + rest.0, rest.1)
            }),
            forall|k: int| 0 <= k < slots@.len() ==> past(#[trigger] slots@[k], x as int, y as int, row as int),
            forall|a: int, b: int| 0 <= a < b < slots@.len() && slots@[a].loaded && slots@[b].loaded
                ==> disjoint(#[trigger] slots@[a], #[trigger] slots@[b]),
            forall|k: int| 0 <= k < slots@.len() && slots@[k].loaded && slots@[k].width > 0 && slots@[k].height > 0
                ==> (#[trigger] slots@[k]).x + slots@[k].width <= FIXED_ATLAS_SIZE
                    && slots@[k].y + slots@[k].height <= FIXED_ATLAS_SIZE,
        decreases items@.len() - i,
    {
        let ghost c = RowCursor { x: x as int, y: y as int, row: row as int };
        let ghost tail = items@.skip(i as int);
        assert(tail[0] == items@[i as int]);
        assert(tail.drop_first() =~= items@.skip(i as int + 1));
        let ghost before = slots@;
        let (id, dims) = items[i];
        match dims {
            None => {
                let slot = TextureSlot { block_id: id, loaded: false, x: 0, y: 0, width: 0, height: 0 };
                slots.push(slot);
                assert(before.push(slot) + fixed_run(c, items@.skip(i as int + 1)).0
                    =~= before + (seq![slot] + fixed_run(c, items@.skip(i as int + 1)).0));
                assert forall|a: int, b: int| 0 <= a < b < slots@.len() && slots@[a].loaded && slots@[b].loaded
                    implies disjoint(#[trigger] slots@[a], #[trigger] slots@[b]) by {
                    assert(slots@[a] == before[a] && slots@[b] == before[b]);
                }
                assert forall|k: int| 0 <= k < slots@.len() implies past(#[trigger] slots@[k], x as int, y as int, row as int) by {
                    if k < before.len() {
                        assert(slots@[k] == before[k]);
                    }
                }
            },
            Some((w, h)) => {
                let wide = w as u64;
                let tall = h as u64;
                if x + wide > FIXED_ATLAS_SIZE as u64 {
                    x = 0;
                    y = y + row;
                    row = 0;
                }
                let ghost p = RowCursor { x: x as int, y: y as int, row: row as int };
                assert(p == row_start(c, w as int));
                assert forall|k: int| 0 <= k < before.len() implies past(#[trigger] before[k], x as int, y as int, row as int) by {
                    assert(past(before[k], c.x, c.y, c.row));
                }
                if y + tall > FIXED_ATLAS_SIZE as u64 {
                    assert(fixed_run(c, tail) == (Seq::<TextureSlot>::empty(), true));
                    assert(slots@ + Seq::<TextureSlot>::empty() =~= slots@);
                    return FixedPacking { slots, full: true };
                }
                let slot = TextureSlot { block_id: id, loaded: true, x: x as u32, y: y as u32, width: w, height: h };
                slots.push(slot);
                assert forall|a: int, b: int| 0 <= a < b < slots@.len() && slots@[a].loaded && slots@[b].loaded
                    implies disjoint(#[trigger] slots@[a], #[trigger] slots@[b]) by {
                    if b < before.len() {
                        assert(slots@[a] == before[a] && slots@[b] == before[b]);
                    } else {
                        assert(slots@[a] == before[a] && slots@[b] == slot);
                        assert(past(before[a], p.x, p.y, p.row));
                    }
                }
                let ghost (px, py, prow) = (x as int, y as int, row as int);
                x = x + wide;
                if tall > row {
                    row = tall;
                }
                let ghost next = RowCursor { x: x as int, y: y as int, row: row as int };
                assert forall|k: int| 0 <= k < slots@.len() implies past(#[trigger] slots@[k], x as int, y as int, row as int) by {
                    if k < before.len() {
                        assert(slots@[k] == before[k]);
                        assert(past(before[k], px, py, prow));
                    }
                }
                assert(before.push(slot) + fixed_run(next, items@.skip(i as int + 1)).0
                    =~= before + (seq![slot] + fixed_run(next, items@.skip(i as int + 1)).0));
            },
        }
        i = i + 1;
    }
    assert(items@.skip(i as int).len() == 0);
    assert(slots@ + Seq::<TextureSlot>::empty() =~= slots@);
    FixedPacking { slots, full: false }
}

} // verus!
