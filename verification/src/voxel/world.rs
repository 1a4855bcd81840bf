//! The world: the loaded chunks, keyed by chunk coordinates, within fixed
//! world bounds, with queues of chunks to load and to unload.
use std::collections::VecDeque;
use vstd::prelude::*;
use crate::voxel::block::{Block, Chunk, ChunkError, spec_in_bounds};

verus! {

/// Errors of world operations.
#[derive(Debug, PartialEq, Eq)]
pub enum WorldError {
    ChunkError(ChunkError),
    ChunkNotLoaded,
    ChunkAlreadyLoaded,
    OutOfBounds,
}

/// The chunk coordinates and the local position of a world position:
/// x and z are split by Euclidean division by the chunk size, y is kept.
pub open spec fn spec_world_to_chunk(x: int, y: int, z: int) -> ((int, int), (int, int, int)) {
    ((x / 16, z / 16), (x % 16, y, z % 16))
}

/// The world position of a local position in a chunk.
pub open spec fn spec_chunk_to_world(c: (int, int), l: (int, int, int)) -> (int, int, int) {
    (c.0 * 16 + l.0, l.1, c.1 * 16 + l.2)
}

/// Whether chunk coordinates lie within world bounds (min corner, max corner), inclusive.
pub open spec fn in_world(b: ((i32, i32), (i32, i32)), k: (i32, i32)) -> bool {
    b.0.0 <= k.0 <= b.1.0 && b.0.1 <= k.1 <= b.1.1
}

/// Converting a world position to chunk and local coordinates and back gives
/// the same position.
pub proof fn lemma_world_chunk_round_trip(x: int, y: int, z: int)
    ensures
        ({
            let (c, l) = spec_world_to_chunk(x, y, z);
            spec_chunk_to_world(c, l) == (x, y, z)
        }),
        0 <= spec_world_to_chunk(x, y, z).1.0 < 16,
        0 <= spec_world_to_chunk(x, y, z).1.2 < 16,
{
}

/// Converting chunk coordinates and a local position inside the chunk's
/// columns to a world position and back gives the same coordinates.
pub proof fn lemma_chunk_world_round_trip(c: (int, int), l: (int, int, int))
    requires
        0 <= l.0 < 16,
        0 <= l.2 < 16,
    ensures
        ({
            let (x, y, z) = spec_chunk_to_world(c, l);
            spec_world_to_chunk(x, y, z) == (c, l)
        }),
{
    let (x, y, z) = spec_chunk_to_world(c, l);
    assert((c.0 * 16 + l.0) / 16 == c.0 && (c.0 * 16 + l.0) % 16 == l.0) by (nonlinear_arith)
        requires
            0 <= l.0 < 16,
    ;
    assert((c.1 * 16 + l.2) / 16 == c.1 && (c.1 * 16 + l.2) % 16 == l.2) by (nonlinear_arith)
        requires
            0 <= l.2 < 16,
    ;
}

/// Euclidean quotient of `x` by 16.
pub(crate) fn div_euclid_16(x: i32) -> (q: i32)
    ensures
        q == x as int / 16,
{
    if x >= 0 {
        ((x as u32) / 16) as i32
    } else {
        let t: u32 = (-(x + 1)) as u32;
        let q: i32 = -((t / 16) as i32) - 1;
        assert(q == x as int / 16) by (nonlinear_arith)
            requires
                x < 0,
                t == -(x + 1),
                q == -(t as int / 16) - 1,
        ;
        q
    }
}

/// Euclidean remainder of `x` by 16.
fn rem_euclid_16(x: i32) -> (r: i32)
    ensures
        r == x as int % 16,
        0 <= r < 16,
{
    let q = div_euclid_16(x);
    assert(x - q * 16 == x as int % 16) by (nonlinear_arith)
        requires
            q == x as int / 16,
    ;
    x - q * 16
}

/// Absolute value.
pub open spec fn abs_int(v: int) -> int {
    if v < 0 {
        -v
    } else {
        v
    }
}

/// Division truncated toward zero, as Rust's `/` on integers.
pub open spec fn trunc_div(a: int, d: int) -> int {
    if a >= 0 {
        a / d
    } else {
        -((-a) / d)
    }
}

/// Whether the loaded chunk `k` lies farther than `radius` chunks from
/// `center` along x or along z, measured from the chunk's corner.
pub open spec fn is_far(k: (i32, i32), center: (i32, i32, i32), radius: i32) -> bool {
    abs_int(k.0 * 16 - center.0) > radius * 16 || abs_int(k.1 * 16 - center.2) > radius * 16
}

/// The predicate of `is_far` for a center and a radius.
pub open spec fn far_from(center: (i32, i32, i32), radius: i32) -> spec_fn((i32, i32)) -> bool {
    |k: (i32, i32)| is_far(k, center, radius)
}

/// Whether chunk coordinates are not among `loaded` and lie within bounds `b`.
pub open spec fn loadable(loaded: Seq<(i32, i32)>, b: ((i32, i32), (i32, i32))) -> spec_fn(
    (i32, i32),
) -> bool {
    |k: (i32, i32)| !loaded.contains(k) && in_world(b, k)
}

/// The chunk coordinates around (cx, cz) within `radius` chunks along x and
/// along z, x-major: (cx - r, cz - r), (cx - r, cz - r + 1), ...
pub open spec fn chunk_candidates(cx: int, cz: int, r: int) -> Seq<(i32, i32)> {
    let n = 2 * r + 1;
    if r < 0 {
        Seq::empty()
    } else {
        Seq::new((n * n) as nat, |i: int| ((cx + i / n - r) as i32, (cz + i % n - r) as i32))
    }
}

/// Quotient of `x` by 16, truncated toward zero.
fn div_trunc_16(x: i32) -> (q: i32)
    ensures
        q == trunc_div(x as int, 16),
{
    if x >= 0 {
        ((x as u32) / 16) as i32
    } else {
        let t: u32 = ((-(x + 1)) as u32) + 1;
        -((t / 16) as i32)
    }
}

/// The unloading pass over `queue`: each queued chunk is unloaded if loaded,
/// and the pass stops once at most half of `max` chunks are loaded, or when
/// the queue is empty. Gives the loaded chunks, the rest of the queue, and
/// the number of chunks unloaded.
pub open spec fn unload_pass(keys: Seq<(i32, i32)>, queue: Seq<(i32, i32)>, max: nat) -> (Seq<
    (i32, i32),
>, Seq<(i32, i32)>, nat)
    decreases queue.len(),
{
    if queue.len() == 0 {
        (keys, queue, 0)
    } else {
        let k = queue[0];
        let keys2 = if keys.contains(k) {
            keys.remove(keys.index_of(k))
        } else {
            keys
        };
        let n: nat = if keys.contains(k) {
            1
        } else {
            0
        };
        if keys2.len() <= max / 2 {
            (keys2, queue.drop_first(), n)
        } else {
            let r = unload_pass(keys2, queue.drop_first(), max);
            (r.0, r.1, r.2 + n)
        }
    }
}

/// The loading pass over `queue`: each queued chunk is loaded if it lies
/// within bounds `b` and is not loaded, and the pass stops once at least
/// `max` chunks are loaded, or when the queue is empty. Gives the loaded
/// chunks, the rest of the queue, and the number of chunks loaded.
pub open spec fn load_pass(
    keys: Seq<(i32, i32)>,
    queue: Seq<(i32, i32)>,
    b: ((i32, i32), (i32, i32)),
    max: nat,
) -> (Seq<(i32, i32)>, Seq<(i32, i32)>, nat)
    decreases queue.len(),
{
    if queue.len() == 0 {
        (keys, queue, 0)
    } else {
        let k = queue[0];
        let ok = !keys.contains(k) && in_world(b, k);
        let keys2 = if ok {
            keys.push(k)
        } else {
            keys
        };
        let n: nat = if ok {
            1
        } else {
            0
        };
        if keys2.len() >= max {
            (keys2, queue.drop_first(), n)
        } else {
            let r = load_pass(keys2, queue.drop_first(), b, max);
            (r.0, r.1, r.2 + n)
        }
    }
}

proof fn lemma_unload_shrinks(keys: Seq<(i32, i32)>, queue: Seq<(i32, i32)>, max: nat)
    ensures
        unload_pass(keys, queue, max).0.len() <= keys.len(),
    decreases queue.len(),
{
    if queue.len() > 0 {
        let k = queue[0];
        let keys2 = if keys.contains(k) {
            keys.remove(keys.index_of(k))
        } else {
            keys
        };
        if keys.contains(k) {
            let j = keys.index_of(k);
            assert(0 <= j < keys.len() && keys[j] == k);
        }
        lemma_unload_shrinks(keys2, queue.drop_first(), max);
    }
}

proof fn lemma_load_bounded(keys: Seq<(i32, i32)>, queue: Seq<(i32, i32)>, b: ((i32, i32), (i32, i32)), max: nat)
    requires
        keys.len() < max,
    ensures
        load_pass(keys, queue, b, max).0.len() <= max,
    decreases queue.len(),
{
    if queue.len() > 0 {
        let k = queue[0];
        let ok = !keys.contains(k) && in_world(b, k);
        let keys2 = if ok {
            keys.push(k)
        } else {
            keys
        };
        if keys2.len() < max {
            lemma_load_bounded(keys2, queue.drop_first(), b, max);
        }
    }
}

/// Working through the queues never loads past the limit: when fewer than
/// `max` chunks are loaded, the unloading pass and then the loading pass
/// leave at most `max` loaded.
pub proof fn lemma_queues_respect_limit(
    keys: Seq<(i32, i32)>,
    unload_queue: Seq<(i32, i32)>,
    load_queue: Seq<(i32, i32)>,
    b: ((i32, i32), (i32, i32)),
    max: nat,
)
    requires
        keys.len() < max,
    ensures
        load_pass(unload_pass(keys, unload_queue, max).0, load_queue, b, max).0.len() <= max,
{
    lemma_unload_shrinks(keys, unload_queue, max);
    lemma_load_bounded(unload_pass(keys, unload_queue, max).0, load_queue, b, max);
}

/// The loaded chunks of a world and the queues of chunks to load and unload.
pub struct World {
    keys: Vec<(i32, i32)>,
    chunks: Vec<Chunk>,
    seed: u64,
    spawn_point: (i32, i32, i32),
    world_bounds: ((i32, i32), (i32, i32)),
    loaded_chunks: usize,
    max_loaded_chunks: usize,
    chunk_load_queue: VecDeque<(i32, i32)>,
    chunk_unload_queue: VecDeque<(i32, i32)>,
}

impl World {
    /// The coordinates of the loaded chunks, in the order they were loaded.
    pub closed spec fn loaded_keys(&self) -> Seq<(i32, i32)> {
        self.keys@
    }

    /// No chunk position is loaded twice.
    pub proof fn lemma_loaded_once(&self)
        requires
            self.wf(),
        ensures
            self.loaded_keys().no_duplicates(),
    {
    }

    /// Whether the chunk at chunk coordinates `k` is loaded.
    pub open spec fn is_loaded(&self, k: (i32, i32)) -> bool {
        self.loaded_keys().contains(k)
    }

    /// The loaded chunk at chunk coordinates `k`.
    pub closed spec fn chunk_of(&self, k: (i32, i32)) -> Chunk {
        self.chunks@[self.keys@.index_of(k)]
    }

    /// The world bounds, in chunk coordinates: (min corner, max corner).
    pub closed spec fn bounds(&self) -> ((i32, i32), (i32, i32)) {
        self.world_bounds
    }

    pub closed spec fn spawn(&self) -> (i32, i32, i32) {
        self.spawn_point
    }

    pub closed spec fn world_seed(&self) -> u64 {
        self.seed
    }

    pub closed spec fn max_loaded(&self) -> nat {
        self.max_loaded_chunks as nat
    }

    pub closed spec fn load_queue(&self) -> Seq<(i32, i32)> {
        self.chunk_load_queue@
    }

    pub closed spec fn unload_queue(&self) -> Seq<(i32, i32)> {
        self.chunk_unload_queue@
    }

    /// The world's internal invariant: each loaded chunk is recorded once,
    /// lies within the world bounds and is a well-formed chunk.
    pub closed spec fn wf(&self) -> bool {
        &&& self.keys@.len() == self.chunks@.len()
        &&& self.loaded_chunks == self.keys@.len()
        &&& self.keys@.no_duplicates()
        &&& forall|i: int| 0 <= i < self.keys@.len() ==> in_world(self.world_bounds, #[trigger] self.keys@[i])
        &&& forall|i: int| 0 <= i < self.chunks@.len() ==> (#[trigger] self.chunks@[i]).wf()
    }

    /// The block at a world position: the block of the loaded chunk that holds
    /// the position, if any.
    pub open spec fn world_block(&self, x: int, y: int, z: int) -> Option<Block> {
        let (c, l) = spec_world_to_chunk(x, y, z);
        if c.0 == c.0 as i32 && c.1 == c.1 as i32 && self.is_loaded((c.0 as i32, c.1 as i32)) {
            self.chunk_of((c.0 as i32, c.1 as i32)).block_at(l.0, l.1, l.2)
        } else {
            None
        }
    }

    proof fn lemma_index_of(&self, i: int)
        requires
            self.wf(),
            0 <= i < self.keys@.len(),
        ensures
            self.keys@.index_of(self.keys@[i]) == i,
            self.is_loaded(self.keys@[i]),
            self.chunk_of(self.keys@[i]) == self.chunks@[i],
    {
        let k = self.keys@[i];
        assert(self.keys@.contains(k));
        let j = self.keys@.index_of(k);
        assert(0 <= j < self.keys@.len() && self.keys@[j] == k);
    }

    /// A world of chunks from -`world_size` to `world_size` in x and z, with
    /// spawn point (0, 70, 0), no loaded chunk and empty queues.
    pub fn new(seed: u64, world_size: i32, max_loaded_chunks: usize) -> (r: Self)
        requires
            world_size > i32::MIN,
        ensures
            r.wf(),
            r.loaded_keys() == Seq::<(i32, i32)>::empty(),
            r.bounds() == (((-world_size) as i32, (-world_size) as i32), (world_size, world_size)),
            r.spawn() == (0i32, 70i32, 0i32),
            r.world_seed() == seed,
            r.max_loaded() == max_loaded_chunks,
            r.load_queue() == Seq::<(i32, i32)>::empty(),
            r.unload_queue() == Seq::<(i32, i32)>::empty(),
    {
        World {
            keys: Vec::new(),
            chunks: Vec::new(),
            seed,
            spawn_point: (0, 70, 0),
            world_bounds: ((-world_size, -world_size), (world_size, world_size)),
            loaded_chunks: 0,
            max_loaded_chunks,
            chunk_load_queue: VecDeque::new(),
            chunk_unload_queue: VecDeque::new(),
        }
    }

    pub fn get_spawn_point(&self) -> (r: (i32, i32, i32))
        ensures
            r == self.spawn(),
    {
        self.spawn_point
    }

    pub fn set_spawn_point(&mut self, pos: (i32, i32, i32))
        requires
            old(self).wf(),
        ensures
            final(self).wf(),
            final(self).spawn() == pos,
            final(self).loaded_keys() == old(self).loaded_keys(),
            forall|k: (i32, i32)| #[trigger] final(self).chunk_of(k) == old(self).chunk_of(k),
            final(self).bounds() == old(self).bounds(),
            final(self).load_queue() == old(self).load_queue(),
            final(self).unload_queue() == old(self).unload_queue(),
    {
        self.spawn_point = pos;
    }

    /// The position of chunk `k` among the loaded chunks, if it is loaded.
    fn find(&self, k: (i32, i32)) -> (r: Option<usize>)
        requires
            self.wf(),
        ensures
            match r {
                Some(i) => i < self.keys@.len() && self.keys@[i as int] == k
                    && self.keys@.index_of(k) == i,
                None => !self.is_loaded(k),
            },
    {
        let mut i: usize = 0;
        while i < self.keys.len()
            invariant
                self.wf(),
                i <= self.keys@.len(),
                forall|j: int| 0 <= j < i ==> self.keys@[j] != k,
            decreases self.keys@.len() - i,
        {
            let (a, b) = self.keys[i];
            if a == k.0 && b == k.1 {
                proof {
                    self.lemma_index_of(i as int);
                }
                return Some(i);
            }
            i = i + 1;
        }
        None
    }

    /// Loads the chunk at (chunk_x, chunk_z), made by `generate`. Fails when
    /// the coordinates lie outside the world bounds or the chunk is loaded.
    pub fn load_chunk<F: Fn(i32, i32) -> Chunk>(&mut self, chunk_x: i32, chunk_z: i32, generate: &F) -> (r:
        Result<(), WorldError>)
        requires
            old(self).wf(),
            forall|x: i32, z: i32| generate.requires((x, z)),
            forall|x: i32, z: i32, c: Chunk| generate.ensures((x, z), c) ==> c.wf(),
        ensures
            final(self).wf(),
            final(self).bounds() == old(self).bounds(),
            final(self).spawn() == old(self).spawn(),
            final(self).max_loaded() == old(self).max_loaded(),
            final(self).load_queue() == old(self).load_queue(),
            final(self).unload_queue() == old(self).unload_queue(),
            !in_world(old(self).bounds(), (chunk_x, chunk_z)) ==> r == Err::<(), WorldError>(
                WorldError::OutOfBounds,
            ) && final(self).loaded_keys() == old(self).loaded_keys(),
            in_world(old(self).bounds(), (chunk_x, chunk_z)) && old(self).is_loaded((chunk_x, chunk_z))
                ==> r == Err::<(), WorldError>(WorldError::ChunkAlreadyLoaded)
                && final(self).loaded_keys() == old(self).loaded_keys(),
            in_world(old(self).bounds(), (chunk_x, chunk_z)) && !old(self).is_loaded((chunk_x, chunk_z))
                ==> r == Ok::<(), WorldError>(()) && final(self).loaded_keys() == old(self).loaded_keys().push((chunk_x, chunk_z)) && generate.ensures(
                (chunk_x, chunk_z),
                final(self).chunk_of((chunk_x, chunk_z)),
            ),
            forall|k: (i32, i32)|
                #![trigger old(self).is_loaded(k)]
                old(self).is_loaded(k) ==> final(self).chunk_of(k) == old(self).chunk_of(k),
    {
        let (lo, hi) = self.world_bounds;
        if chunk_x < lo.0 || chunk_x > hi.0 || chunk_z < lo.1 || chunk_z > hi.1 {
            return Err(WorldError::OutOfBounds);
        }
        let pos = (chunk_x, chunk_z);
        if self.find(pos).is_some() {
            return Err(WorldError::ChunkAlreadyLoaded);
        }
        let chunk = generate(chunk_x, chunk_z);
        let ghost pre = *self;
        self.keys.push(pos);
        self.chunks.push(chunk);
        let count = self.keys.len();
        assert(self.loaded_chunks + 1 == count);
        self.loaded_chunks = self.loaded_chunks + 1;
        proof {
            assert forall|i: int, j: int|
                0 <= i < self.keys@.len() && 0 <= j < self.keys@.len() && i != j implies self.keys@[i]
                != self.keys@[j] by {
                if i < pre.keys@.len() && j < pre.keys@.len() {
                } else if i < pre.keys@.len() {
                    assert(pre.keys@[i] == self.keys@[i]);
                    assert(pre.keys@.contains(pre.keys@[i]));
                } else {
                    assert(pre.keys@[j] == self.keys@[j]);
                    assert(pre.keys@.contains(pre.keys@[j]));
                }
            }
            let n = pre.keys@.len() as int;
            self.lemma_index_of(n);
            assert forall|k: (i32, i32)|
                #![trigger pre.is_loaded(k)]
                pre.is_loaded(k) implies self.chunk_of(k) == pre.chunk_of(k) by {
                let i = pre.keys@.index_of(k);
                pre.lemma_index_of(i);
                self.lemma_index_of(i);
            }
        }
        Ok(())
    }

    /// Unloads the chunk at (chunk_x, chunk_z). Fails when it is not loaded.
    pub fn unload_chunk(&mut self, chunk_x: i32, chunk_z: i32) -> (r: Result<(), WorldError>)
        requires
            old(self).wf(),
        ensures
            final(self).wf(),
            final(self).bounds() == old(self).bounds(),
            final(self).spawn() == old(self).spawn(),
            final(self).max_loaded() == old(self).max_loaded(),
            final(self).load_queue() == old(self).load_queue(),
            final(self).unload_queue() == old(self).unload_queue(),
            old(self).is_loaded((chunk_x, chunk_z)) ==> r == Ok::<(), WorldError>(())
                && final(self).loaded_keys() == old(self).loaded_keys().remove(
                old(self).loaded_keys().index_of((chunk_x, chunk_z)),
            ),
            !old(self).is_loaded((chunk_x, chunk_z)) ==> r == Err::<(), WorldError>(
                WorldError::ChunkNotLoaded,
            ) && final(self).loaded_keys() == old(self).loaded_keys(),
            old(self).is_loaded((chunk_x, chunk_z)) ==> final(self).loaded_keys().len() == old(self).loaded_keys().len() - 1,
            forall|k: (i32, i32)|
                #![trigger final(self).is_loaded(k)]
                final(self).is_loaded(k) <==> old(self).is_loaded(k) && k != (chunk_x, chunk_z),
            forall|k: (i32, i32)|
                #![trigger final(self).is_loaded(k)]
                final(self).is_loaded(k) ==> final(self).chunk_of(k) == old(self).chunk_of(k),
    {
        match self.find((chunk_x, chunk_z)) {
            Some(i) => {
                let ghost pre = *self;
                self.keys.remove(i);
                self.chunks.remove(i);
                self.loaded_chunks = self.loaded_chunks - 1;
                proof {
                    Self::lemma_remove_at(&pre, self, i as int);
                    let key = (chunk_x, chunk_z);
                    assert(pre.keys@[i as int] == key);
                    assert forall|k: (i32, i32)| #[trigger] self.is_loaded(k) <==> pre.is_loaded(k) && k != key by {
                        if self.is_loaded(k) {
                            let j = choose|j: int| 0 <= j < self.keys@.len() && self.keys@[j] == k;
                            let jj = if j < i { j } else { j + 1 };
                            assert(pre.keys@[jj] == k);
                            assert(jj != i);
                            assert(pre.keys@.no_duplicates());
                        }
                        if pre.is_loaded(k) && k != key {
                            let j = choose|j: int| 0 <= j < pre.keys@.len() && pre.keys@[j] == k;
                            assert(j != i);
                            if j < i {
                                assert(self.keys@[j] == k);
                            } else {
                                assert(self.keys@[j - 1] == k);
                            }
                        }
                    }
                }
                Ok(())
            },
            None => Err(WorldError::ChunkNotLoaded),
        }
    }

    /// Removing the chunk recorded at position `i` keeps the invariant and the
    /// other chunks.
    proof fn lemma_remove_at(pre: &World, post: &World, i: int)
        requires
            pre.wf(),
            0 <= i < pre.keys@.len(),
            post.keys@ == pre.keys@.remove(i),
            post.chunks@ == pre.chunks@.remove(i),
            post.loaded_chunks == pre.loaded_chunks - 1,
            post.world_bounds == pre.world_bounds,
        ensures
            post.wf(),
            forall|k: (i32, i32)|
                #![trigger post.is_loaded(k)]
                post.is_loaded(k) ==> post.chunk_of(k) == pre.chunk_of(k),
    {
        assert forall|a: int, b: int|
            0 <= a < post.keys@.len() && 0 <= b < post.keys@.len() && a != b implies post.keys@[a]
            != post.keys@[b] by {
            let pa = if a < i { a } else { a + 1 };
            let pb = if b < i { b } else { b + 1 };
            assert(post.keys@[a] == pre.keys@[pa]);
            assert(post.keys@[b] == pre.keys@[pb]);
        }
        assert forall|a: int| 0 <= a < post.keys@.len() implies in_world(
            post.world_bounds,
            #[trigger] post.keys@[a],
        ) by {
            let pa = if a < i { a } else { a + 1 };
            assert(post.keys@[a] == pre.keys@[pa]);
        }
        assert forall|a: int| 0 <= a < post.chunks@.len() implies (#[trigger] post.chunks@[a]).wf() by {
            let pa = if a < i { a } else { a + 1 };
            assert(post.chunks@[a] == pre.chunks@[pa]);
        }
        assert forall|k: (i32, i32)|
            #![trigger post.is_loaded(k)]
            post.is_loaded(k) implies post.chunk_of(k) == pre.chunk_of(k) by {
            let a = post.keys@.index_of(k);
            post.lemma_index_of(a);
            let pa = if a < i { a } else { a + 1 };
            assert(post.keys@[a] == pre.keys@[pa]);
            pre.lemma_index_of(pa);
        }
    }

    /// The loaded chunk at (chunk_x, chunk_z), if any.
    pub fn get_chunk(&self, chunk_x: i32, chunk_z: i32) -> (r: Option<&Chunk>)
        requires
            self.wf(),
        ensures
            self.is_loaded((chunk_x, chunk_z)) ==> r == Some(&self.chunk_of((chunk_x, chunk_z))),
            !self.is_loaded((chunk_x, chunk_z)) ==> r is None,
    {
        match self.find((chunk_x, chunk_z)) {
            Some(i) => Some(&self.chunks[i]),
            None => None,
        }
    }

    /// The chunk coordinates (x, z) and the local position of a world position.
    pub fn world_to_chunk_pos(&self, x: i32, y: i32, z: i32) -> (r: ((i32, i32), (i32, i32, i32)))
        ensures
            ({
                let (c, l) = spec_world_to_chunk(x as int, y as int, z as int);
                r.0.0 == c.0 && r.0.1 == c.1 && r.1.0 == l.0 && r.1.1 == l.1 && r.1.2 == l.2
            }),
    {
        let chunk_x = div_euclid_16(x);
        let chunk_z = div_euclid_16(z);
        let local_x = rem_euclid_16(x);
        let local_z = rem_euclid_16(z);
        ((chunk_x, chunk_z), (local_x, y, local_z))
    }

    /// The world position of a local position in the chunk at `chunk_pos`.
    pub fn chunk_to_world_pos(&self, chunk_pos: (i32, i32), local_pos: (i32, i32, i32)) -> (r: (
        i32,
        i32,
        i32,
    ))
        requires
            i32::MIN <= chunk_pos.0 * 16 + local_pos.0 <= i32::MAX,
            i32::MIN <= chunk_pos.1 * 16 + local_pos.2 <= i32::MAX,
            i32::MIN <= chunk_pos.0 * 16 <= i32::MAX,
            i32::MIN <= chunk_pos.1 * 16 <= i32::MAX,
        ensures
            ({
                let w = spec_chunk_to_world(
                    (chunk_pos.0 as int, chunk_pos.1 as int),
                    (local_pos.0 as int, local_pos.1 as int, local_pos.2 as int),
                );
                r.0 == w.0 && r.1 == w.1 && r.2 == w.2
            }),
    {
        (chunk_pos.0 * 16 + local_pos.0, local_pos.1, chunk_pos.1 * 16 + local_pos.2)
    }

    /// The block at a world position, if its chunk is loaded and holds one.
    pub fn get_block(&self, world_x: i32, world_y: i32, world_z: i32) -> (r: Option<&Block>)
        requires
            self.wf(),
        ensures
            match self.world_block(world_x as int, world_y as int, world_z as int) {
                Some(b) => r == Some(&b),
                None => r is None,
            },
    {
        let (chunk_pos, local_pos) = self.world_to_chunk_pos(world_x, world_y, world_z);
        match self.find(chunk_pos) {
            Some(i) => {
                proof {
                    self.lemma_index_of(i as int);
                }
                self.chunks[i].get_block(local_pos.0, local_pos.1, local_pos.2)
            },
            None => None,
        }
    }

    /// Puts a block at a world position and returns the block that was there.
    /// Fails when the position's chunk is not loaded, or when y lies outside
    /// the chunk's height.
    pub fn set_block(&mut self, world_x: i32, world_y: i32, world_z: i32, block: Block) -> (r: Result<
        Option<Block>,
        WorldError,
    >)
        requires
            old(self).wf(),
        ensures
            final(self).wf(),
            final(self).loaded_keys() == old(self).loaded_keys(),
            final(self).bounds() == old(self).bounds(),
            final(self).spawn() == old(self).spawn(),
            final(self).max_loaded() == old(self).max_loaded(),
            final(self).load_queue() == old(self).load_queue(),
            final(self).unload_queue() == old(self).unload_queue(),
            ({
                let (c, l) = spec_world_to_chunk(world_x as int, world_y as int, world_z as int);
                let key = (c.0 as i32, c.1 as i32);
                &&& !old(self).is_loaded(key) ==> r == Err::<Option<Block>, WorldError>(
                    WorldError::ChunkNotLoaded,
                ) && forall|k: (i32, i32)| #[trigger] final(self).chunk_of(k) == old(self).chunk_of(k)
                &&& old(self).is_loaded(key) && !(0 <= world_y < 256) ==> r == Err::<
                    Option<Block>,
                    WorldError,
                >(WorldError::ChunkError(ChunkError::OutOfBounds)) && forall|k: (i32, i32)| #[trigger]
                    final(self).chunk_of(k) == old(self).chunk_of(k)
                &&& old(self).is_loaded(key) && 0 <= world_y < 256 ==> {
                    &&& r == Ok::<Option<Block>, WorldError>(
                        old(self).world_block(world_x as int, world_y as int, world_z as int),
                    )
                    &&& final(self).world_block(world_x as int, world_y as int, world_z as int)
                        == Some(block)
                    &&& forall|a: int, b: int, cc: int|
                        (a, b, cc) != (world_x as int, world_y as int, world_z as int)
                            ==> #[trigger] final(self).world_block(a, b, cc) == old(self).world_block(
                            a,
                            b,
                            cc,
                        )
                    &&& forall|k: (i32, i32)|
                        #![trigger old(self).is_loaded(k)]
                        old(self).is_loaded(k) && k != key ==> final(self).chunk_of(k)
                            == old(self).chunk_of(k)
                }
            }),
    {
        let (chunk_pos, local_pos) = self.world_to_chunk_pos(world_x, world_y, world_z);
        let i = match self.find(chunk_pos) {
            Some(i) => i,
            None => {
                return Err(WorldError::ChunkNotLoaded);
            },
        };
        let ghost pre = *self;
        proof {
            pre.lemma_index_of(i as int);
        }
        let res = self.chunks[i].set_block(local_pos.0, local_pos.1, local_pos.2, block);
        proof {
            assert(self.keys@ == pre.keys@);
            assert forall|a: int| 0 <= a < self.chunks@.len() implies (#[trigger] self.chunks@[a]).wf() by {
                if a != i {
                    assert(self.chunks@[a] == pre.chunks@[a]);
                }
            }
            assert forall|k: (i32, i32)|
                #![trigger pre.is_loaded(k)]
                pre.is_loaded(k) && k != chunk_pos implies self.chunk_of(k) == pre.chunk_of(k) by {
                let a = pre.keys@.index_of(k);
                pre.lemma_index_of(a);
                assert(a != i);
            }
            self.lemma_index_of(i as int);
        }
        match res {
            Ok(old_block) => {
                proof {
                    assert forall|a: int, b: int, cc: int|
                        (a, b, cc) != (world_x as int, world_y as int, world_z as int) implies #[trigger] self.world_block(
                        a,
                        b,
                        cc,
                    ) == pre.world_block(a, b, cc) by {
                        lemma_world_chunk_round_trip(a, b, cc);
                        lemma_world_chunk_round_trip(world_x as int, world_y as int, world_z as int);
                    }
                }
                Ok(old_block)
            },
            Err(e) => {
                proof {
                    assert(self.chunks@ =~= pre.chunks@);
                }
                Err(WorldError::ChunkError(e))
            },
        }
    }

    /// The coordinates of the loaded chunks.
    pub fn get_loaded_chunks(&self) -> (r: Vec<(i32, i32)>)
        requires
            self.wf(),
        ensures
            r@ == self.loaded_keys(),
    {
        let mut r: Vec<(i32, i32)> = Vec::new();
        let mut i: usize = 0;
        while i < self.keys.len()
            invariant
                i <= self.keys@.len(),
                r@ == self.keys@.subrange(0, i as int),
            decreases self.keys@.len() - i,
        {
            r.push(self.keys[i]);
            i = i + 1;
        }
        assert(r@ =~= self.keys@);
        r
    }

    /// Queues for unloading every loaded chunk that lies farther than `radius`
    /// chunks from `center`, in load order, and queues for loading every chunk
    /// around `center` within `radius` chunks that is within the world bounds
    /// and not loaded, x-major. The center's chunk coordinates are its x and z
    /// divided by the chunk size, truncated toward zero.
    pub fn update_chunks_around(&mut self, center: (i32, i32, i32), radius: i32)
        requires
            old(self).wf(),
            i32::MIN <= radius * 16 <= i32::MAX,
            forall|k: (i32, i32)|
                #![trigger old(self).is_loaded(k)]
                old(self).is_loaded(k) ==> i32::MIN < k.0 * 16 - center.0 <= i32::MAX && i32::MIN
                    < k.1 * 16 - center.2 <= i32::MAX && i32::MIN <= k.0 * 16 <= i32::MAX
                    && i32::MIN <= k.1 * 16 <= i32::MAX,
            radius >= 0 ==> i32::MIN <= trunc_div(center.0 as int, 16) - radius && trunc_div(
                center.0 as int,
                16,
            ) + radius <= i32::MAX && i32::MIN <= trunc_div(center.2 as int, 16) - radius
                && trunc_div(center.2 as int, 16) + radius <= i32::MAX,
        ensures
            final(self).wf(),
            final(self).loaded_keys() == old(self).loaded_keys(),
            forall|k: (i32, i32)| #[trigger] final(self).chunk_of(k) == old(self).chunk_of(k),
            final(self).bounds() == old(self).bounds(),
            final(self).spawn() == old(self).spawn(),
            final(self).max_loaded() == old(self).max_loaded(),
            final(self).unload_queue() == old(self).unload_queue() + old(self).loaded_keys().filter(
                far_from(center, radius),
            ),
            final(self).load_queue() == old(self).load_queue() + chunk_candidates(
                trunc_div(center.0 as int, 16),
                trunc_div(center.2 as int, 16),
                radius as int,
            ).filter(loadable(old(self).loaded_keys(), old(self).bounds())),
    {
        let ghost far = far_from(center, radius);
        let ghost unload0 = self.chunk_unload_queue@;
        let mut i: usize = 0;
        while i < self.keys.len()
            invariant
                self.wf(),
                self.keys == old(self).keys,
                self.chunks == old(self).chunks,
                self.world_bounds == old(self).world_bounds,
                self.spawn_point == old(self).spawn_point,
                self.max_loaded_chunks == old(self).max_loaded_chunks,
                self.chunk_load_queue == old(self).chunk_load_queue,
                i <= self.keys@.len(),
                i32::MIN <= radius * 16 <= i32::MAX,
                forall|k: (i32, i32)|
                    #![trigger old(self).is_loaded(k)]
                    old(self).is_loaded(k) ==> i32::MIN < k.0 * 16 - center.0 <= i32::MAX
                        && i32::MIN < k.1 * 16 - center.2 <= i32::MAX && i32::MIN <= k.0 * 16
                        <= i32::MAX && i32::MIN <= k.1 * 16 <= i32::MAX,
                far == far_from(center, radius),
                self.chunk_unload_queue@ == unload0 + self.keys@.take(i as int).filter(far),
            decreases self.keys@.len() - i,
        {
            let pos = self.keys[i];
            proof {
                assert(old(self).is_loaded(pos)) by {
                    assert(old(self).keys@[i as int] == pos);
                }
            }
            let dx = pos.0 * 16 - center.0;
            let dz = pos.1 * 16 - center.2;
            let dist_x = if dx < 0 {
                -dx
            } else {
                dx
            };
            let dist_z = if dz < 0 {
                -dz
            } else {
                dz
            };
            let ghost q = self.chunk_unload_queue@;
            if dist_x > radius * 16 || dist_z > radius * 16 {
                self.chunk_unload_queue.push_back(pos);
            }
            proof {
                assert(self.keys@.take(i + 1) =~= self.keys@.take(i as int).push(pos));
                self.keys@.take(i as int).lemma_filter_push(pos, far);
                assert(dist_x == abs_int(pos.0 * 16 - center.0));
                assert(dist_z == abs_int(pos.1 * 16 - center.2));
                assert(far(pos) == is_far(pos, center, radius));
            }
            i = i + 1;
        }
        proof {
            assert(self.keys@.take(self.keys@.len() as int) =~= self.keys@);
        }
        let cx0 = div_trunc_16(center.0);
        let cz0 = div_trunc_16(center.2);
        let ghost keep = loadable(old(self).loaded_keys(), old(self).bounds());
        let ghost cands = chunk_candidates(cx0 as int, cz0 as int, radius as int);
        let ghost load0 = self.chunk_load_queue@;
        let ghost n: int = 2 * radius + 1;
        let ghost mut count: int = 0;
        let mut x: i32 = -radius;
        assert(count == (x + radius) * n) by (nonlinear_arith)
            requires
                count == 0,
                x == -radius,
        ;
        while x <= radius
            invariant
                self.wf(),
                self.keys == old(self).keys,
                self.chunks == old(self).chunks,
                self.world_bounds == old(self).world_bounds,
                self.spawn_point == old(self).spawn_point,
                self.max_loaded_chunks == old(self).max_loaded_chunks,
                self.chunk_unload_queue@ == unload0 + old(self).keys@.filter(far),
                cands == chunk_candidates(cx0 as int, cz0 as int, radius as int),
                keep == loadable(old(self).loaded_keys(), old(self).bounds()),
                n == 2 * radius + 1,
                radius >= 0 ==> -radius <= x <= radius + 1 && count == (x + radius) * n,
                radius < 0 ==> count == 0 && x == -radius,
                i32::MIN <= radius * 16 <= i32::MAX,
                radius >= 0 ==> i32::MIN <= cx0 - radius && cx0 + radius <= i32::MAX && i32::MIN
                    <= cz0 - radius && cz0 + radius <= i32::MAX,
                self.chunk_load_queue@ == load0 + cands.take(count).filter(keep),
            decreases radius - x + 1,
        {
            let mut z: i32 = -radius;
            while z <= radius
                invariant
                    self.wf(),
                    self.keys == old(self).keys,
                    self.chunks == old(self).chunks,
                    self.world_bounds == old(self).world_bounds,
                    self.spawn_point == old(self).spawn_point,
                    self.max_loaded_chunks == old(self).max_loaded_chunks,
                    self.chunk_unload_queue@ == unload0 + old(self).keys@.filter(far),
                    cands == chunk_candidates(cx0 as int, cz0 as int, radius as int),
                    keep == loadable(old(self).loaded_keys(), old(self).bounds()),
                    n == 2 * radius + 1,
                    radius >= 0,
                    i32::MIN <= radius * 16 <= i32::MAX,
                    -radius <= x <= radius,
                    -radius <= z <= radius + 1,
                    count == (x + radius) * n + (z + radius),
                    i32::MIN <= cx0 - radius && cx0 + radius <= i32::MAX && i32::MIN <= cz0 - radius
                        && cz0 + radius <= i32::MAX,
                    self.chunk_load_queue@ == load0 + cands.take(count).filter(keep),
                decreases radius - z + 1,
            {
                let chunk_x = cx0 + x;
                let chunk_z = cz0 + z;
                let chunk_pos = (chunk_x, chunk_z);
                proof {
                    assert(0 <= count < n * n) by (nonlinear_arith)
                        requires
                            count == (x + radius) * n + (z + radius),
                            n == 2 * radius + 1,
                            -radius <= x <= radius,
                            -radius <= z <= radius,
                    ;
                    vstd::arithmetic::div_mod::lemma_fundamental_div_mod_converse(
                        count,
                        n,
                        x + radius,
                        z + radius,
                    );
                    assert(cands[count] == chunk_pos);
                    assert(cands.take(count + 1) =~= cands.take(count).push(chunk_pos));
                    cands.take(count).lemma_filter_push(chunk_pos, keep);
                }
                let (lo, hi) = self.world_bounds;
                assert(self.is_loaded(chunk_pos) == old(self).is_loaded(chunk_pos));
                assert(keep(chunk_pos) == (!self.is_loaded(chunk_pos) && in_world(self.world_bounds, chunk_pos)));
                if self.find(chunk_pos).is_none() && chunk_x >= lo.0 && chunk_x <= hi.0 && chunk_z
                    >= lo.1 && chunk_z <= hi.1 {
                    self.chunk_load_queue.push_back(chunk_pos);
                }
                proof {
                    count = count + 1;
                }
                z = z + 1;
            }
            proof {
                assert(count == (x + 1 + radius) * n) by (nonlinear_arith)
                    requires
                        count == (x + radius) * n + (radius + 1 + radius),
                        n == 2 * radius + 1,
                ;
            }
            x = x + 1;
        }
        proof {
            if radius >= 0 {
                assert(count == n * n) by (nonlinear_arith)
                    requires
                        count == (radius + 1 + radius) * n,
                        n == 2 * radius + 1,
                ;
            }
            assert(cands.take(count) =~= cands);
        }
    }

    /// Works through the unload queue, then the load queue (see `unload_pass`
    /// and `load_pass`), with chunks made by `generate`; returns the number of
    /// chunks unloaded and loaded.
    pub fn process_queues<F: Fn(i32, i32) -> Chunk>(&mut self, generate: &F) -> (r: usize)
        requires
            old(self).wf(),
            old(self).unload_queue().len() + old(self).load_queue().len() <= usize::MAX,
            forall|x: i32, z: i32| generate.requires((x, z)),
            forall|x: i32, z: i32, c: Chunk| generate.ensures((x, z), c) ==> c.wf(),
        ensures
            final(self).wf(),
            final(self).bounds() == old(self).bounds(),
            final(self).spawn() == old(self).spawn(),
            final(self).max_loaded() == old(self).max_loaded(),
            ({
                let u = unload_pass(old(self).loaded_keys(), old(self).unload_queue(), old(self).max_loaded());
                let l = load_pass(u.0, old(self).load_queue(), old(self).bounds(), old(self).max_loaded());
                &&& final(self).loaded_keys() == l.0
                &&& final(self).unload_queue() == u.1
                &&& final(self).load_queue() == l.1
                &&& r == u.2 + l.2
                &&& forall|k: (i32, i32)|
                    #![trigger u.0.contains(k)]
                    u.0.contains(k) ==> final(self).chunk_of(k) == old(self).chunk_of(k)
                &&& forall|k: (i32, i32)|
                    #![trigger final(self).is_loaded(k)]
                    final(self).is_loaded(k) && !u.0.contains(k) ==> generate.ensures(
                        (k.0, k.1),
                        final(self).chunk_of(k),
                    )
            }),
        old(self).loaded_keys().len() < old(self).max_loaded() ==> final(self).loaded_keys().len()
            <= old(self).max_loaded(),
    {
        let ghost entry = *self;
        let ghost max = self.max_loaded_chunks as nat;
        let ghost uq0 = self.chunk_unload_queue@;
        let ghost lq0 = self.chunk_load_queue@;
        let ghost target_u = unload_pass(self.keys@, uq0, max);
        let mut processed: usize = 0;
        let mut done = false;
        while !done
            invariant
                self.wf(),
                entry == *old(self),
                self.world_bounds == entry.world_bounds,
                self.spawn_point == entry.spawn_point,
                self.max_loaded_chunks == entry.max_loaded_chunks,
                max == self.max_loaded_chunks as nat,
                self.chunk_load_queue@ == lq0,
                lq0 == entry.load_queue(),
                uq0 == entry.unload_queue(),
                uq0.len() + lq0.len() <= usize::MAX,
                target_u == unload_pass(entry.loaded_keys(), uq0, max),
                processed + self.chunk_unload_queue@.len() <= uq0.len(),
                !done ==> ({
                    let t = unload_pass(self.keys@, self.chunk_unload_queue@, max);
                    target_u == (t.0, t.1, (t.2 + processed) as nat)
                }),
                done ==> target_u == (self.keys@, self.chunk_unload_queue@, processed as nat),
                forall|k: (i32, i32)|
                    #![trigger self.is_loaded(k)]
                    self.is_loaded(k) ==> (entry.is_loaded(k) && self.chunk_of(k) == entry.chunk_of(k)),
            decreases self.chunk_unload_queue@.len() + (if done {
                0int
            } else {
                1int
            }),
        {
            let ghost head = *self;
            let popped = self.chunk_unload_queue.pop_front();
            proof {
                assert(self.keys == head.keys && self.chunks == head.chunks);
                assert forall|k: (i32, i32)|
                    #![trigger self.is_loaded(k)]
                    self.is_loaded(k) implies (entry.is_loaded(k) && self.chunk_of(k) == entry.chunk_of(k)) by {
                    assert(self.loaded_keys() == head.loaded_keys());
                    assert(head.is_loaded(k));
                    assert(head.chunk_of(k) == entry.chunk_of(k));
                    assert(self.chunk_of(k) == head.chunk_of(k));
                }
            }
            match popped {
                None => {
                    done = true;
                },
                Some(pos) => {
                    let ghost pre = *self;
                    assert(forall|k: (i32, i32)|
                        #![trigger self.is_loaded(k)]
                        self.is_loaded(k) ==> (entry.is_loaded(k) && self.chunk_of(k) == entry.chunk_of(k)));
                    assert(forall|k: (i32, i32)|
                        #![trigger pre.is_loaded(k)]
                        pre.is_loaded(k) ==> (entry.is_loaded(k) && pre.chunk_of(k) == entry.chunk_of(k)));
                    let res = self.unload_chunk(pos.0, pos.1);
                    if res.is_ok() {
                        processed = processed + 1;
                    }
                    proof {
                        assert forall|k: (i32, i32)|
                            #![trigger self.is_loaded(k)]
                            self.is_loaded(k) implies (entry.is_loaded(k) && self.chunk_of(k) == entry.chunk_of(k)) by {
                            Self::lemma_unload_frame_at(&pre, self, &entry, pos, k);
                        }
                    }
                    if self.loaded_chunks <= self.max_loaded_chunks / 2 {
                        done = true;
                    }
                },
            }
        }
        let ghost mid = *self;
        let ghost target_l = load_pass(self.keys@, lq0, self.world_bounds, max);
        let mut loaded: usize = 0;
        let mut done2 = false;
        while !done2
            invariant
                self.wf(),
                self.world_bounds == old(self).world_bounds,
                self.spawn_point == old(self).spawn_point,
                self.max_loaded_chunks == old(self).max_loaded_chunks,
                max == self.max_loaded_chunks as nat,
                self.chunk_unload_queue@ == mid.chunk_unload_queue@,
                mid.wf(),
                target_l == load_pass(mid.keys@, lq0, old(self).world_bounds, max),
                forall|x: i32, z: i32| generate.requires((x, z)),
                forall|x: i32, z: i32, c: Chunk| generate.ensures((x, z), c) ==> c.wf(),
                processed + loaded + self.chunk_load_queue@.len() <= uq0.len() + lq0.len(),
                uq0.len() + lq0.len() <= usize::MAX,
                !done2 ==> ({
                    let t = load_pass(self.keys@, self.chunk_load_queue@, self.world_bounds, max);
                    target_l == (t.0, t.1, (t.2 + loaded) as nat)
                }),
                done2 ==> target_l == (self.keys@, self.chunk_load_queue@, loaded as nat),
                forall|k: (i32, i32)|
                    #![trigger mid.is_loaded(k)]
                    mid.is_loaded(k) ==> (self.is_loaded(k) && self.chunk_of(k) == mid.chunk_of(k)),
                forall|k: (i32, i32)|
                    #![trigger self.is_loaded(k)]
                    self.is_loaded(k) && !mid.is_loaded(k) ==> generate.ensures((k.0, k.1), self.chunk_of(k)),
            decreases self.chunk_load_queue@.len() + (if done2 {
                0int
            } else {
                1int
            }),
        {
            let ghost head = *self;
            let popped = self.chunk_load_queue.pop_front();
            proof {
                assert(self.keys == head.keys && self.chunks == head.chunks);
                assert forall|k: (i32, i32)|
                    #![trigger mid.is_loaded(k)]
                    mid.is_loaded(k) implies (self.is_loaded(k) && self.chunk_of(k) == mid.chunk_of(k)) by {
                    assert(self.loaded_keys() == head.loaded_keys());
                    assert(head.chunk_of(k) == mid.chunk_of(k));
                    assert(self.chunk_of(k) == head.chunk_of(k));
                }
                assert forall|k: (i32, i32)|
            #![trigger self.is_loaded(k)]
            self.is_loaded(k) && !mid.is_loaded(k) implies generate.ensures((k.0, k.1), self.chunk_of(k)) by {
                    assert(self.loaded_keys() == head.loaded_keys());
                    assert(head.is_loaded(k));
                    assert(generate.ensures((k.0, k.1), head.chunk_of(k)));
                    assert(self.chunk_of(k) == head.chunk_of(k));
                }
            }
            match popped {
                None => {
                    done2 = true;
                },
                Some(pos) => {
                    let ghost pre = *self;
                    let res = self.load_chunk(pos.0, pos.1, generate);
                    if res.is_ok() {
                        loaded = loaded + 1;
                    }
                    proof {
                        Self::lemma_load_frame(&pre, self, &mid, pos, generate);
                    }
                    if self.loaded_chunks >= self.max_loaded_chunks {
                        done2 = true;
                    }
                },
            }
        }
        proof {
            assert(mid.loaded_keys() == target_u.0);
            assert forall|k: (i32, i32)|
                #![trigger target_u.0.contains(k)]
                target_u.0.contains(k) implies self.chunk_of(k) == old(self).chunk_of(k) by {
                assert(mid.is_loaded(k));
                assert(entry.is_loaded(k) && mid.chunk_of(k) == entry.chunk_of(k));
            }
            assert forall|k: (i32, i32)|
                #![trigger self.is_loaded(k)]
                self.is_loaded(k) && !target_u.0.contains(k) implies generate.ensures(
                (k.0, k.1),
                self.chunk_of(k),
            ) by {
                assert(!mid.is_loaded(k));
            }
            if entry.loaded_keys().len() < max {
                lemma_queues_respect_limit(entry.loaded_keys(), uq0, lq0, entry.bounds(), max);
            }
        }
        processed + loaded
    }

    /// After unloading `pos` from `head`, a chunk still loaded was loaded at
    /// `entry` with the same contents, when that held of `head`.
    proof fn lemma_unload_frame_at(head: &World, post: &World, entry: &World, pos: (i32, i32), k: (i32, i32))
        requires
            head.wf(),
            post.wf(),
            forall|k: (i32, i32)|
                #![trigger head.is_loaded(k)]
                head.is_loaded(k) ==> (entry.is_loaded(k) && head.chunk_of(k) == entry.chunk_of(k)),
            head.is_loaded(pos) ==> post.loaded_keys() == head.loaded_keys().remove(
                head.loaded_keys().index_of(pos),
            ),
            !head.is_loaded(pos) ==> post.loaded_keys() == head.loaded_keys(),
            forall|k: (i32, i32)|
                #![trigger post.is_loaded(k)]
                post.is_loaded(k) ==> post.chunk_of(k) == head.chunk_of(k),
            post.is_loaded(k),
        ensures
            entry.is_loaded(k),
            post.chunk_of(k) == entry.chunk_of(k),
    {
        if head.is_loaded(pos) {
            let i = head.keys@.index_of(pos);
            head.lemma_index_of_contains(pos);
            let j = post.keys@.index_of(k);
            assert(post.keys@[j] == k);
            if j < i {
                assert(head.keys@[j] == k);
            } else {
                assert(head.keys@[j + 1] == k);
            }
        }
        assert(head.is_loaded(k));
        assert(head.chunk_of(k) == entry.chunk_of(k));
        assert(post.chunk_of(k) == head.chunk_of(k));
    }

    /// After loading `pos` into `head`, the chunks loaded at `mid` keep their
    /// contents and every chunk loaded since `mid` was made by `generate`,
    /// when that held of `head`.
    proof fn lemma_load_frame<F: Fn(i32, i32) -> Chunk>(
        head: &World,
        post: &World,
        mid: &World,
        pos: (i32, i32),
        generate: &F,
    )
        requires
            head.wf(),
            post.wf(),
            forall|k: (i32, i32)|
                #![trigger mid.is_loaded(k)]
                mid.is_loaded(k) ==> (head.is_loaded(k) && head.chunk_of(k) == mid.chunk_of(k)),
            forall|k: (i32, i32)|
                #![trigger head.is_loaded(k)]
                head.is_loaded(k) && !mid.is_loaded(k) ==> generate.ensures((k.0, k.1), head.chunk_of(k)),
            !(!head.is_loaded(pos) && in_world(head.bounds(), pos)) ==> post.loaded_keys()
                == head.loaded_keys(),
            (!head.is_loaded(pos) && in_world(head.bounds(), pos)) ==> post.loaded_keys()
                == head.loaded_keys().push(pos) && generate.ensures(
                (pos.0, pos.1),
                post.chunk_of(pos),
            ),
            forall|k: (i32, i32)|
                #![trigger head.is_loaded(k)]
                head.is_loaded(k) ==> post.chunk_of(k) == head.chunk_of(k),
        ensures
            forall|k: (i32, i32)|
                #![trigger mid.is_loaded(k)]
                mid.is_loaded(k) ==> (post.is_loaded(k) && post.chunk_of(k) == mid.chunk_of(k)),
            forall|k: (i32, i32)|
                #![trigger post.is_loaded(k)]
                post.is_loaded(k) && !mid.is_loaded(k) ==> generate.ensures((k.0, k.1), post.chunk_of(k)),
    {
        assert forall|k: (i32, i32)|
            #![trigger mid.is_loaded(k)]
            mid.is_loaded(k) implies (post.is_loaded(k) && post.chunk_of(k) == mid.chunk_of(k)) by {
            assert(head.chunk_of(k) == mid.chunk_of(k));
            if !head.is_loaded(pos) && in_world(head.bounds(), pos) {
                let i = head.keys@.index_of(k);
                head.lemma_index_of_contains(k);
                assert(post.keys@[i] == k);
            }
        }
        assert forall|k: (i32, i32)|
            #![trigger post.is_loaded(k)]
            post.is_loaded(k) && !mid.is_loaded(k) implies generate.ensures((k.0, k.1), post.chunk_of(k)) by {
            if head.is_loaded(k) {
                assert(generate.ensures((k.0, k.1), head.chunk_of(k)));
            } else {
                let j = post.keys@.index_of(k);
                assert(post.keys@[j] == k);
                if j < head.keys@.len() {
                    assert(head.keys@[j] == k);
                }
            }
        }
    }

    proof fn lemma_index_of_contains(&self, k: (i32, i32))
        requires
            self.wf(),
            self.is_loaded(k),
        ensures
            0 <= self.keys@.index_of(k) < self.keys@.len(),
            self.keys@[self.keys@.index_of(k)] == k,
    {
    }
}

} // verus!
