//! The render pipeline's errors, and the packing of block textures into
//! one atlas image: textures are laid left to right in rows, each with a
//! border of padding, and the atlas doubles in size (up to a limit) when
//! the next texture does not fit.
use vstd::prelude::*;

verus! {

/// Errors of the render pipeline.
#[derive(Debug, PartialEq, Eq)]
pub enum RenderError {
    AtlasFull,
    TextureLoadError(String),
    OpenGLError(String),
}

/// The side of a new atlas, in pixels.
pub const ATLAS_START_SIZE: u32 = 16;
/// The largest side an atlas grows to.
pub const MAX_ATLAS_SIZE: u32 = 2048;
/// The gap left around each texture.
pub const TEXTURE_PADDING: u32 = 2;

/// Where a texture went: its block, its corner and size in pixels, and the
/// side of the atlas it was placed in.
#[derive(Debug, Clone, Copy, PartialEq, Eq, Structural)]
pub struct AtlasSlot {
    pub block_id: u16,
    pub x: u32,
    pub y: u32,
    pub width: u32,
    pub height: u32,
    pub atlas_size: u32,
}

/// The outcome of packing: the slots placed, in order, the side of the
/// final atlas, and whether packing stopped because the atlas could not
/// grow (the slots placed before that are kept).
#[derive(Debug, Clone)]
pub struct AtlasPacking {
    pub slots: Vec<AtlasSlot>,
    pub atlas_size: u32,
    pub full: bool,
}

/// The packing cursor: atlas side, next corner, and the tallest texture of
/// the current row.
pub ghost struct Cursor {
    pub size: int,
    pub x: int,
    pub y: int,
    pub row: int,
}

pub open spec fn start_cursor() -> Cursor {
    Cursor { size: ATLAS_START_SIZE as int, x: TEXTURE_PADDING as int, y: TEXTURE_PADDING as int, row: 0 }
}

/// Whether a texture of `w` by `h` does not fit at the cursor.
pub open spec fn needs_room(c: Cursor, w: int, h: int) -> bool {
    c.x + w + TEXTURE_PADDING > c.size || c.y + h + TEXTURE_PADDING > c.size
}

/// The next atlas side: double, but not past the largest.
pub open spec fn grown_size(size: int) -> int {
    if size * 2 < MAX_ATLAS_SIZE {
        size * 2
    } else {
        MAX_ATLAS_SIZE as int
    }
}

/// The cursor at which a texture is placed: the current one when it fits,
/// else the start of a larger atlas; `None` when the atlas cannot grow.
pub open spec fn placement(c: Cursor, w: int, h: int) -> Option<Cursor> {
    if needs_room(c, w, h) {
        if grown_size(c.size) > c.size {
            Some(Cursor { size: grown_size(c.size), x: TEXTURE_PADDING as int, y: TEXTURE_PADDING as int, row: 0 })
        } else {
            None
        }
    } else {
        Some(c)
    }
}

/// The cursor after placing a texture of `w` by `h` at `p`: further along
/// the row, or at the start of the next row when the row is used up.
pub open spec fn advance(p: Cursor, w: int, h: int) -> Cursor {
    let x1 = p.x + w + TEXTURE_PADDING;
    let row = if p.row >= h {
        p.row
    } else {
        h
    };
    if x1 + TEXTURE_PADDING > p.size {
        Cursor { size: p.size, x: TEXTURE_PADDING as int, y: p.y + row + TEXTURE_PADDING, row: 0 }
    } else {
        Cursor { size: p.size, x: x1, y: p.y, row }
    }
}

/// Whether placing a texture of `w` by `h` at cursor `c` stays within the
/// machine's integers and, when it has pixels, within the atlas image.
pub open spec fn step_safe(c: Cursor, w: int, h: int) -> bool {
    &&& c.x + w + TEXTURE_PADDING <= u32::MAX
    &&& (c.x + w + TEXTURE_PADDING > c.size || c.y + h + TEXTURE_PADDING <= u32::MAX)
    &&& (placement(c, w, h) matches Some(p) ==> {
        &&& (w > 0 && h > 0 ==> p.x + w <= p.size && p.y + h <= p.size)
        &&& p.x + w + TEXTURE_PADDING + TEXTURE_PADDING <= u32::MAX
        &&& p.y + h <= u32::MAX
        &&& p.y + (if p.row >= h { p.row } else { h }) + TEXTURE_PADDING <= u32::MAX
    })
}

/// The slot of a texture placed at `p`.
pub open spec fn slot_at(id: u16, p: Cursor, w: u32, h: u32) -> AtlasSlot {
    AtlasSlot { block_id: id, x: p.x as u32, y: p.y as u32, width: w, height: h, atlas_size: p.size as u32 }
}

/// Packing `items` (block, width, height) from cursor `c`: the slots, the
/// final cursor, and whether the atlas ran out of room.
pub open spec fn pack_run(c: Cursor, items: Seq<(u16, u32, u32)>) -> (Seq<AtlasSlot>, Cursor, bool)
    decreases items.len(),
{
    if items.len() == 0 {
        (Seq::empty(), c, false)
    } else {
        let (id, w, h) = items[0];
        match placement(c, w as int, h as int) {
            None => (Seq::empty(), c, true),
            Some(p) => {
                let rest = pack_run(advance(p, w as int, h as int), items.drop_first());
                (seq![slot_at(id, p, w, h)] + rest.0, rest.1, rest.2)
            },
        }
    }
}

/// Whether packing `items` from `c` stays safe at every step it takes.
pub open spec fn run_safe(c: Cursor, items: Seq<(u16, u32, u32)>) -> bool
    decreases items.len(),
{
    if items.len() == 0 {
        true
    } else {
        let (id, w, h) = items[0];
        &&& step_safe(c, w as int, h as int)
        &&& (placement(c, w as int, h as int) matches Some(p) ==> run_safe(advance(p, w as int, h as int), items.drop_first()))
    }
}

/// Two slots of one atlas are apart, with padding between them: side by
/// side in a row, or the first in an earlier row.
pub open spec fn apart(a: AtlasSlot, b: AtlasSlot) -> bool {
    ||| a.y + a.height + TEXTURE_PADDING <= b.y
    ||| (a.y == b.y && a.x + a.width + TEXTURE_PADDING <= b.x)
}

/// Whether the cursor lies past a slot of its atlas: the slot is in an
/// earlier row, or earlier in the current row and no taller than the row.
pub open spec fn behind(s: AtlasSlot, size: int, x: int, y: int, row: int) -> bool {
    s.atlas_size == size ==> {
        ||| s.y + s.height + TEXTURE_PADDING <= y
        ||| (s.y == y && s.x + s.width + TEXTURE_PADDING <= x && s.height <= row)
    }
}

/// Packs textures, given as (block, width, height) in the order they are
/// taken, into an atlas that starts at 16 pixels a side (see `pack_run`).
/// Two textures placed in the same atlas never overlap, and a texture with
/// pixels lies inside its atlas.
pub fn pack_textures(items: &Vec<(u16, u32, u32)>) -> (r: AtlasPacking)
    requires
        run_safe(start_cursor(), items@),
    ensures
        r.slots@ == pack_run(start_cursor(), items@).0,
        r.atlas_size == pack_run(start_cursor(), items@).1.size,
        r.full == pack_run(start_cursor(), items@).2,
        forall|i: int, j: int| 0 <= i < j < r.slots@.len() && r.slots@[i].atlas_size == r.slots@[j].atlas_size
            ==> apart(#[trigger] r.slots@[i], #[trigger] r.slots@[j]),
        forall|i: int| 0 <= i < r.slots@.len() && r.slots@[i].width > 0 && r.slots@[i].height > 0
            ==> (#[trigger] r.slots@[i]).x + r.slots@[i].width <= r.slots@[i].atlas_size
                && r.slots@[i].y + r.slots@[i].height <= r.slots@[i].atlas_size,
{
    let mut slots: Vec<AtlasSlot> = Vec::new();
    let mut size: u64 = ATLAS_START_SIZE as u64;
    let mut x: u64 = TEXTURE_PADDING as u64;
    let mut y: u64 = TEXTURE_PADDING as u64;
    let mut row: u64 = 0;
    let mut i: usize = 0;
    assert(items@.skip(0) =~= items@);
    while i < items.len()
        invariant
            i <= items@.len(),
            size <= MAX_ATLAS_SIZE,
            run_safe(Cursor { size: size as int, x: x as int, y: y as int, row: row as int }, items@.skip(i as int)),
            pack_run(start_cursor(), items@) == ({
                let rest = pack_run(Cursor { size: size as int, x: x as int, y: y as int, row: row as int }, items@.skip(i as int));
                (slots@ + rest.0, rest.1, rest.2)
            }),
            forall|k: int| 0 <= k < slots@.len() ==> (#[trigger] slots@[k]).atlas_size <= size,
            forall|k: int| 0 <= k < slots@.len() ==> behind(#[trigger] slots@[k], size as int, x as int, y as int, row as int),
            forall|a: int, b: int| 0 <= a < b < slots@.len() && slots@[a].atlas_size == slots@[b].atlas_size
                ==> apart(#[trigger] slots@[a], #[trigger] slots@[b]),
            forall|k: int| 0 <= k < slots@.len() && slots@[k].width > 0 && slots@[k].height > 0
                ==> (#[trigger] slots@[k]).x + slots@[k].width <= slots@[k].atlas_size
                    && slots@[k].y + slots@[k].height <= slots@[k].atlas_size,
        decreases items@.len() - i,
    {
        let ghost c = Cursor { size: size as int, x: x as int, y: y as int, row: row as int };
        let ghost tail = items@.skip(i as int);
        assert(tail[0] == items@[i as int]);
        assert(tail.drop_first() =~= items@.skip(i as int + 1));
        let (id, w, h) = items[i];
        let wide = w as u64;
        let tall = h as u64;
        if x + wide + (TEXTURE_PADDING as u64) > size || y + tall + (TEXTURE_PADDING as u64) > size {
            let doubled = size * 2;
            let new_size = if doubled < MAX_ATLAS_SIZE as u64 {
                doubled
            } else {
                MAX_ATLAS_SIZE as u64
            };
            if new_size > size {
                size = new_size;
                x = TEXTURE_PADDING as u64;
                y = TEXTURE_PADDING as u64;
                row = 0;
            } else {
                assert(pack_run(c, tail) == (Seq::<AtlasSlot>::empty(), c, true));
                assert(slots@ + Seq::<AtlasSlot>::empty() =~= slots@);
                return AtlasPacking { slots, atlas_size: size as u32, full: true };
            }
        }
        let ghost p = Cursor { size: size as int, x: x as int, y: y as int, row: row as int };
        assert(placement(c, w as int, h as int) == Some(p));
        let slot = AtlasSlot { block_id: id, x: x as u32, y: y as u32, width: w, height: h, atlas_size: size as u32 };
        assert(slot == slot_at(id, p, w, h));
        let ghost before = slots@;
        let ghost (px, py, prow) = (x as int, y as int, row as int);
        slots.push(slot);
        assert forall|k: int| 0 <= k < before.len() && before[k].atlas_size == size implies apart(before[k], slot) by {
            assert(behind(before[k], size as int, px, py, prow));
        }
        x = x + wide + (TEXTURE_PADDING as u64);
        if tall > row {
            row = tall;
        }
        if x + (TEXTURE_PADDING as u64) > size {
            x = TEXTURE_PADDING as u64;
            y = y + row + (TEXTURE_PADDING as u64);
            row = 0;
        }
        let ghost next = Cursor { size: size as int, x: x as int, y: y as int, row: row as int };
        assert forall|k: int| 0 <= k < slots@.len() implies behind(#[trigger] slots@[k], size as int, x as int, y as int, row as int) by {
            if k < before.len() {
                assert(slots@[k] == before[k]);
                assert(behind(before[k], size as int, px, py, prow));
            }
        }
        assert forall|a: int, b: int| 0 <= a < b < slots@.len() && slots@[a].atlas_size == slots@[b].atlas_size
            implies apart(#[trigger] slots@[a], #[trigger] slots@[b]) by {
            if b < before.len() {
                assert(slots@[a] == before[a] && slots@[b] == before[b]);
            } else {
                assert(slots@[a] == before[a] && slots@[b] == slot);
            }
        }
        assert(next == advance(p, w as int, h as int));
        assert(before.push(slot) + pack_run(next, items@.skip(i as int + 1)).0
            =~= before + (seq![slot] + pack_run(next, items@.skip(i as int + 1)).0));
        i = i + 1;
    }
    assert(items@.skip(i as int).len() == 0);
    assert(slots@ + Seq::<AtlasSlot>::empty() =~= slots@);
    AtlasPacking { slots, atlas_size: size as u32, full: false }
}

/// Whether packing `items` stays safe at every step (`run_safe` from the
/// start): the test to make before `pack_textures`.
pub fn pack_is_safe(items: &Vec<(u16, u32, u32)>) -> (r: bool)
    ensures
        r == run_safe(start_cursor(), items@),
{
    let mut size: u64 = ATLAS_START_SIZE as u64;
    let mut x: u64 = TEXTURE_PADDING as u64;
    let mut y: u64 = TEXTURE_PADDING as u64;
    let mut row: u64 = 0;
    let mut i: usize = 0;
    assert(items@.skip(0) =~= items@);
    while i < items.len()
        invariant
            i <= items@.len(),
            size <= MAX_ATLAS_SIZE,
            x <= u32::MAX,
            y <= u32::MAX,
            row <= u32::MAX,
            run_safe(start_cursor(), items@)
                == run_safe(Cursor { size: size as int, x: x as int, y: y as int, row: row as int }, items@.skip(i as int)),
        decreases items@.len() - i,
    {
        let ghost tail = items@.skip(i as int);
        assert(tail[0] == items@[i as int]);
        assert(tail.drop_first() =~= items@.skip(i as int + 1));
        let (_, w, h) = items[i];
        let wide = w as u64;
        let tall = h as u64;
        let pad = TEXTURE_PADDING as u64;
        let max = u32::MAX as u64;
        if x + wide + pad > max {
            return false;
        }
        let short = x + wide + pad > size;
        if !short && y + tall + pad > max {
            return false;
        }
        if short || y + tall + pad > size {
            let doubled = size * 2;
            let new_size = if doubled < MAX_ATLAS_SIZE as u64 {
                doubled
            } else {
                MAX_ATLAS_SIZE as u64
            };
            if new_size > size {
                size = new_size;
                x = pad;
                y = pad;
                row = 0;
            } else {
                return true;
            }
        }
        let tallest = if row >= tall {
            row
        } else {
            tall
        };
        if wide > 0 && tall > 0 && (x + wide > size || y + tall > size) {
            return false;
        }
        if x + wide + pad + pad > max || y + tall > max || y + tallest + pad > max {
            return false;
        }
        x = x + wide + pad;
        row = tallest;
        if x + pad > size {
            x = pad;
            y = y + row + pad;
            row = 0;
        }
        i = i + 1;
    }
    true
}

/// The number of floats written for each vertex of a face.
pub const FACE_VERTEX_FLOATS: usize = 20;
/// The vertex stride by which the first index of a face is counted.
pub const INDEX_STRIDE: usize = 18;

/// The geometry of one face of the unit cube: its corners (offsets of 0 or
/// 1 along each axis), its outward normal, and its tangent and bitangent,
/// as axis vectors.
#[derive(Debug, Clone, Copy, PartialEq, Eq)]
pub struct FaceFrame {
    pub corners: [(i32, i32, i32); 4],
    pub normal: (i32, i32, i32),
    pub tangent: (i32, i32, i32),
    pub bitangent: (i32, i32, i32),
}

/// What adding a face writes: its geometry, the six indices of its two
/// triangles, and the number of vertex floats afterwards.
#[derive(Debug, Clone, Copy, PartialEq, Eq)]
pub struct FacePlan {
    pub frame: FaceFrame,
    pub indices: [u32; 6],
    pub vertex_len: usize,
}

/// The corners of face `face`: west, east, bottom, top, north, south.
pub open spec fn face_corners(face: int) -> Seq<(i32, i32, i32)> {
    if face == 0 {
        seq![(0i32, 0i32, 0i32), (0i32, 1i32, 0i32), (0i32, 1i32, 1i32), (0i32, 0i32, 1i32)]
    } else if face == 1 {
        seq![(1i32, 0i32, 1i32), (1i32, 1i32, 1i32), (1i32, 1i32, 0i32), (1i32, 0i32, 0i32)]
    } else if face == 2 {
        seq![(0i32, 0i32, 0i32), (1i32, 0i32, 0i32), (1i32, 0i32, 1i32), (0i32, 0i32, 1i32)]
    } else if face == 3 {
        seq![(0i32, 1i32, 1i32), (1i32, 1i32, 1i32), (1i32, 1i32, 0i32), (0i32, 1i32, 0i32)]
    } else if face == 4 {
        seq![(1i32, 0i32, 0i32), (1i32, 1i32, 0i32), (0i32, 1i32, 0i32), (0i32, 0i32, 0i32)]
    } else {
        seq![(0i32, 0i32, 1i32), (0i32, 1i32, 1i32), (1i32, 1i32, 1i32), (1i32, 0i32, 1i32)]
    }
}

/// The normal, tangent and bitangent of face `face`.
pub open spec fn face_axes(face: int) -> ((i32, i32, i32), (i32, i32, i32), (i32, i32, i32)) {
    if face == 0 {
        ((-1i32, 0i32, 0i32), (0i32, 0i32, -1i32), (0i32, -1i32, 0i32))
    } else if face == 1 {
        ((1i32, 0i32, 0i32), (0i32, 0i32, 1i32), (0i32, 1i32, 0i32))
    } else if face == 2 {
        ((0i32, -1i32, 0i32), (1i32, 0i32, 0i32), (0i32, 0i32, 1i32))
    } else if face == 3 {
        ((0i32, 1i32, 0i32), (1i32, 0i32, 0i32), (0i32, 0i32, -1i32))
    } else if face == 4 {
        ((0i32, 0i32, -1i32), (1i32, 0i32, 0i32), (0i32, 1i32, 0i32))
    } else {
        ((0i32, 0i32, 1i32), (1i32, 0i32, 0i32), (0i32, 1i32, 0i32))
    }
}

/// The geometry of face `face` (0 to 5).
pub fn face_frame(face: usize) -> (r: FaceFrame)
    requires
        face < 6,
    ensures
        r.corners@ == face_corners(face as int),
        (r.normal, r.tangent, r.bitangent) == face_axes(face as int),
{
    let r = if face == 0 {
        FaceFrame { corners: [(0, 0, 0), (0, 1, 0), (0, 1, 1), (0, 0, 1)], normal: (-1, 0, 0), tangent: (0, 0, -1), bitangent: (0, -1, 0) }
    } else if face == 1 {
        FaceFrame { corners: [(1, 0, 1), (1, 1, 1), (1, 1, 0), (1, 0, 0)], normal: (1, 0, 0), tangent: (0, 0, 1), bitangent: (0, 1, 0) }
    } else if face == 2 {
        FaceFrame { corners: [(0, 0, 0), (1, 0, 0), (1, 0, 1), (0, 0, 1)], normal: (0, -1, 0), tangent: (1, 0, 0), bitangent: (0, 0, 1) }
    } else if face == 3 {
        FaceFrame { corners: [(0, 1, 1), (1, 1, 1), (1, 1, 0), (0, 1, 0)], normal: (0, 1, 0), tangent: (1, 0, 0), bitangent: (0, 0, -1) }
    } else if face == 4 {
        FaceFrame { corners: [(1, 0, 0), (1, 1, 0), (0, 1, 0), (0, 0, 0)], normal: (0, 0, -1), tangent: (1, 0, 0), bitangent: (0, 1, 0) }
    } else {
        FaceFrame { corners: [(0, 0, 1), (0, 1, 1), (1, 1, 1), (1, 0, 1)], normal: (0, 0, 1), tangent: (1, 0, 0), bitangent: (0, 1, 0) }
    };
    assert(r.corners@ =~= face_corners(face as int));
    r
}

/// Adds face `face` to a mesh that holds `vertex_len` vertex floats: four
/// vertices at the cube's corners and four more offset to the block, then
/// two triangles whose first index is the float count after the first four
/// vertices over the index stride (each index taken to 32 bits).
pub fn add_face(vertex_len: usize, face: usize) -> (r: FacePlan)
    requires
        face < 6,
        vertex_len + 8 * FACE_VERTEX_FLOATS <= usize::MAX,
    ensures
        r.frame.corners@ == face_corners(face as int),
        (r.frame.normal, r.frame.tangent, r.frame.bitangent) == face_axes(face as int),
        r.vertex_len == vertex_len + 8 * FACE_VERTEX_FLOATS,
        ({
            let b = (vertex_len + 4 * FACE_VERTEX_FLOATS) / INDEX_STRIDE as int;
            r.indices@ == seq![b as u32, (b + 1) as u32, (b + 2) as u32, (b + 2) as u32, (b + 3) as u32, b as u32]
        }),
{
    let frame = face_frame(face);
    let base = (vertex_len + 4 * FACE_VERTEX_FLOATS) / INDEX_STRIDE;
    let indices: [u32; 6] = [
        base as u32,
        (base + 1) as u32,
        (base + 2) as u32,
        (base + 2) as u32,
        (base + 3) as u32,
        base as u32,
    ];
    let r = FacePlan { frame, indices, vertex_len: vertex_len + 8 * FACE_VERTEX_FLOATS };
    assert(r.indices@ =~= seq![base as u32, (base + 1) as u32, (base + 2) as u32, (base + 2) as u32, (base + 3) as u32, base as u32]);
    r
}

} // verus!
