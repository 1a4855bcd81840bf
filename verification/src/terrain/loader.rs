//! The chunk loader: keeps the chunks within a radius of the player active,
//! queues the chunks to load and to unload, and works through the queues on
//! the world.
use std::collections::VecDeque;
use vstd::prelude::*;
use crate::voxel::block::Chunk;
use crate::voxel::world::{World, abs_int, chunk_candidates, div_euclid_16, in_world};

verus! {

/// Whether `p` lies within `radius` chunks of (cx, cz) along x and along z.
pub open spec fn within(p: (i32, i32), cx: int, cz: int, radius: int) -> bool {
    abs_int(p.0 - cx) <= radius && abs_int(p.1 - cz) <= radius
}

/// The predicate of `within` for a center and a radius.
pub open spec fn within_of(cx: int, cz: int, radius: int) -> spec_fn((i32, i32)) -> bool {
    |p: (i32, i32)| within(p, cx, cz, radius)
}

/// The predicate of lying outside the radius.
pub open spec fn beyond_of(cx: int, cz: int, radius: int) -> spec_fn((i32, i32)) -> bool {
    |p: (i32, i32)| !within(p, cx, cz, radius)
}

/// The predicate of not being among `active`.
pub open spec fn fresh_in(active: Seq<(i32, i32)>) -> spec_fn((i32, i32)) -> bool {
    |p: (i32, i32)| !active.contains(p)
}

/// The chunks loaded after `load_chunk` on each queued chunk in turn: a chunk
/// within bounds `b` that is not loaded yet is added.
pub open spec fn loads_after(keys: Seq<(i32, i32)>, queue: Seq<(i32, i32)>, b: ((i32, i32), (i32, i32))) -> Seq<
    (i32, i32),
>
    decreases queue.len(),
{
    if queue.len() == 0 {
        keys
    } else {
        let before = loads_after(keys, queue.drop_last(), b);
        let k = queue.last();
        if in_world(b, k) && !before.contains(k) {
            before.push(k)
        } else {
            before
        }
    }
}

/// The chunks loaded after `unload_chunk` on each queued chunk in turn: a
/// loaded chunk is removed.
pub open spec fn unloads_after(keys: Seq<(i32, i32)>, queue: Seq<(i32, i32)>) -> Seq<(i32, i32)>
    decreases queue.len(),
{
    if queue.len() == 0 {
        keys
    } else {
        let before = unloads_after(keys, queue.drop_last());
        let k = queue.last();
        if before.contains(k) {
            before.remove(before.index_of(k))
        } else {
            before
        }
    }
}

/// The active chunks and the queues of chunks to load and to unload.
pub struct ChunkLoader {
    pub load_queue: VecDeque<(i32, i32)>,
    pub unloading_queue: VecDeque<(i32, i32)>,
    pub active_chunks: Vec<(i32, i32)>,
    pub load_radius: i32,
}

/// Whether `s` holds no chunk twice.
pub open spec fn distinct(s: Seq<(i32, i32)>) -> bool {
    forall|i: int, j: int| 0 <= i < j < s.len() ==> s[i] != s[j]
}

/// Whether `p` is among the first `n` entries of `v`.
fn contains_pos(v: &Vec<(i32, i32)>, p: (i32, i32)) -> (r: bool)
    ensures
        r == v@.contains(p),
{
    let mut i: usize = 0;
    while i < v.len()
        invariant
            i <= v@.len(),
            forall|j: int| 0 <= j < i ==> v@[j] != p,
        decreases v@.len() - i,
    {
        let q = v[i];
        if q.0 == p.0 && q.1 == p.1 {
            assert(v@[i as int] == p);
            return true;
        }
        i = i + 1;
    }
    false
}

/// Distinct steps of the square of candidates give distinct chunks.
proof fn lemma_candidates_distinct(cx: int, cz: int, r: int, i: int, j: int)
    requires
        r >= 0,
        0 <= i < (2 * r + 1) * (2 * r + 1),
        0 <= j < (2 * r + 1) * (2 * r + 1),
        i != j,
        i32::MIN <= cx - r && cx + r <= i32::MAX,
        i32::MIN <= cz - r && cz + r <= i32::MAX,
    ensures
        chunk_candidates(cx, cz, r)[i] != chunk_candidates(cx, cz, r)[j],
{
    let n = 2 * r + 1;
    assert(0 <= i / n < n && 0 <= j / n < n) by (nonlinear_arith)
        requires
            n > 0,
            0 <= i < n * n,
            0 <= j < n * n,
    ;
    if i / n == j / n && i % n == j % n {
        vstd::arithmetic::div_mod::lemma_fundamental_div_mod(i, n);
        vstd::arithmetic::div_mod::lemma_fundamental_div_mod(j, n);
    }
}

/// Every candidate lies within the radius of the center.
proof fn lemma_candidates_within(cx: int, cz: int, r: int, p: (i32, i32))
    requires
        r >= 0,
        chunk_candidates(cx, cz, r).contains(p),
        i32::MIN <= cx - r && cx + r <= i32::MAX,
        i32::MIN <= cz - r && cz + r <= i32::MAX,
    ensures
        within(p, cx, cz, r),
        p.0 - cx == p.0 as int - cx,
{
    let n = 2 * r + 1;
    let c = chunk_candidates(cx, cz, r);
    let i = c.index_of(p);
    assert(0 <= i / n < n && 0 <= i % n < n) by (nonlinear_arith)
        requires
            n > 0,
            0 <= i < n * n,
    ;
}

impl ChunkLoader {
    /// A loader with nothing active or queued.
    pub fn new(load_radius: i32) -> (r: Self)
        ensures
            r.load_queue@.len() == 0,
            r.unloading_queue@.len() == 0,
            r.active_chunks@.len() == 0,
            r.load_radius == load_radius,
    {
        ChunkLoader {
            load_queue: VecDeque::new(),
            unloading_queue: VecDeque::new(),
            active_chunks: Vec::new(),
            load_radius,
        }
    }

    /// Queues the chunks around `center` for loading and the others for
    /// unloading. The chunks of the square of `load_radius` around the
    /// center's chunk (x-major) that are not active are queued for loading
    /// and become active; then the active chunks outside the square leave the
    /// active list, in order, for the unload queue.
    pub fn queue_chunks(&mut self, center: (i32, i32, i32))
        requires
            old(self).load_radius >= 0,
            distinct(old(self).active_chunks@),
            i32::MIN <= center.0 as int / 16 - old(self).load_radius,
            center.0 as int / 16 + old(self).load_radius <= i32::MAX,
            i32::MIN <= center.2 as int / 16 - old(self).load_radius,
            center.2 as int / 16 + old(self).load_radius <= i32::MAX,
            forall|i: int|
                0 <= i < old(self).active_chunks@.len() ==> i32::MIN < #[trigger] old(self).active_chunks@[i].0
                    - center.0 as int / 16 <= i32::MAX && i32::MIN < old(self).active_chunks@[i].1
                    - center.2 as int / 16 <= i32::MAX,
        ensures
            ({
                let cx = center.0 as int / 16;
                let cz = center.2 as int / 16;
                let r = old(self).load_radius as int;
                let cands = chunk_candidates(cx, cz, r);
                let added = cands.filter(fresh_in(old(self).active_chunks@));
                let all = old(self).active_chunks@ + added;
                &&& final(self).load_queue@ == old(self).load_queue@ + added
                &&& final(self).active_chunks@ == all.filter(within_of(cx, cz, r))
                &&& final(self).unloading_queue@ == old(self).unloading_queue@ + all.filter(beyond_of(cx, cz, r))
            }),
            final(self).load_radius == old(self).load_radius,
            distinct(final(self).active_chunks@),
    {
        let radius = self.load_radius;
        let cx0 = div_euclid_16(center.0);
        let cz0 = div_euclid_16(center.2);
        let ghost cands = chunk_candidates(cx0 as int, cz0 as int, radius as int);
        let ghost old_active = self.active_chunks@;
        let ghost fresh = fresh_in(old_active);
        let ghost load0 = self.load_queue@;
        let ghost n: int = 2 * radius + 1;
        let ghost mut count: int = 0;
        let r64 = radius as i64;
        let mut x: i64 = -r64;
        assert(count == (x + radius) * n) by (nonlinear_arith)
            requires
                count == 0,
                x == -radius,
        ;
        while x <= r64
            invariant
                radius == self.load_radius,
                r64 == radius,
                radius >= 0,
                self.unloading_queue@ == old(self).unloading_queue@,
                self.load_radius == old(self).load_radius,
                cands == chunk_candidates(cx0 as int, cz0 as int, radius as int),
                old_active == old(self).active_chunks@,
                fresh == fresh_in(old_active),
                distinct(old_active),
                distinct(self.active_chunks@),
                n == 2 * radius + 1,
                -radius <= x <= radius + 1,
                count == (x + radius) * n,
                i32::MIN <= cx0 - radius && cx0 + radius <= i32::MAX && i32::MIN <= cz0 - radius && cz0
                    + radius <= i32::MAX,
                self.load_queue@ == load0 + cands.take(count).filter(fresh),
                self.active_chunks@ == old_active + cands.take(count).filter(fresh),
            decreases r64 - x + 1,
        {
            let mut z: i64 = -r64;
            while z <= r64
                invariant
                    radius == self.load_radius,
                    r64 == radius,
                    radius >= 0,
                    self.unloading_queue@ == old(self).unloading_queue@,
                    self.load_radius == old(self).load_radius,
                    cands == chunk_candidates(cx0 as int, cz0 as int, radius as int),
                    old_active == old(self).active_chunks@,
                    fresh == fresh_in(old_active),
                    distinct(old_active),
                    distinct(self.active_chunks@),
                    n == 2 * radius + 1,
                    -radius <= x <= radius,
                    -radius <= z <= radius + 1,
                    count == (x + radius) * n + (z + radius),
                    i32::MIN <= cx0 - radius && cx0 + radius <= i32::MAX && i32::MIN <= cz0 - radius
                        && cz0 + radius <= i32::MAX,
                    self.load_queue@ == load0 + cands.take(count).filter(fresh),
                    self.active_chunks@ == old_active + cands.take(count).filter(fresh),
                decreases r64 - z + 1,
            {
                let pos: (i32, i32) = ((cx0 as i64 + x) as i32, (cz0 as i64 + z) as i32);
                proof {
                    assert(0 <= count < n * n) by (nonlinear_arith)
                        requires
                            count == (x + radius) * n + (z + radius),
                            n == 2 * radius + 1,
                            -radius <= x <= radius,
                            -radius <= z <= radius,
                    ;
                    vstd::arithmetic::div_mod::lemma_fundamental_div_mod_converse(
                        count,
                        n,
                        x + radius,
                        z + radius,
                    );
                    assert(cands[count] == pos);
                    assert(cands.take(count + 1) =~= cands.take(count).push(pos));
                    cands.take(count).lemma_filter_push(pos, fresh);
                    assert forall|i: int| 0 <= i < count implies cands.take(count)[i] != pos by {
                        lemma_candidates_distinct(cx0 as int, cz0 as int, radius as int, i, count);
                    }
                    assert(!cands.take(count).contains(pos));
                    assert(!cands.take(count).filter(fresh).contains(pos)) by {
                        if cands.take(count).filter(fresh).contains(pos) {
                            cands.take(count).lemma_filter_contains_rev(fresh, pos);
                        }
                    }
                    assert(self.active_chunks@.contains(pos) == old_active.contains(pos)) by {
                        if self.active_chunks@.contains(pos) {
                            let k = self.active_chunks@.index_of(pos);
                            if k >= old_active.len() {
                                assert(cands.take(count).filter(fresh)[k - old_active.len()] == pos);
                            }
                        }
                        if old_active.contains(pos) {
                            let k = old_active.index_of(pos);
                            assert(self.active_chunks@[k] == pos);
                        }
                    }
                }
                if !contains_pos(&self.active_chunks, pos) {
                    self.load_queue.push_back(pos);
                    let ghost a0 = self.active_chunks@;
                    self.active_chunks.push(pos);
                    proof {
                        assert forall|i: int, j: int| 0 <= i < j < self.active_chunks@.len() implies self.active_chunks@[i]
                            != self.active_chunks@[j] by {
                            if j == a0.len() {
                                assert(a0[i] == self.active_chunks@[i]);
                            } else {
                                assert(a0[i] == self.active_chunks@[i] && a0[j] == self.active_chunks@[j]);
                            }
                        }
                    }
                }
                proof {
                    count = count + 1;
                }
                z = z + 1;
            }
            proof {
                assert(count == (x + 1 + radius) * n) by (nonlinear_arith)
                    requires
                        count == (x + radius) * n + (radius + 1 + radius),
                        n == 2 * radius + 1,
                ;
            }
            x = x + 1;
        }
        proof {
            assert(count == n * n) by (nonlinear_arith)
                requires
                    count == (radius + 1 + radius) * n,
                    n == 2 * radius + 1,
            ;
            assert(cands.take(count) =~= cands);
        }
        let ghost all = self.active_chunks@;
        let ghost keep = within_of(cx0 as int, cz0 as int, radius as int);
        let ghost drop = beyond_of(cx0 as int, cz0 as int, radius as int);
        let ghost unload0 = self.unloading_queue@;
        proof {
            assert(load0 == old(self).load_queue@);
            assert forall|j: int| 0 <= j < all.len() implies i32::MIN < #[trigger] all[j].0 - cx0 <= i32::MAX
                && i32::MIN < all[j].1 - cz0 <= i32::MAX by {
                if j >= old_active.len() {
                    let p = all[j];
                    assert(cands.filter(fresh)[j - old_active.len()] == p);
                    assert(cands.filter(fresh).contains(p));
                    cands.lemma_filter_contains_rev(fresh, p);
                    lemma_candidates_within(cx0 as int, cz0 as int, radius as int, p);
                } else {
                    assert(all[j] == old_active[j]);
                }
            }
        }
        let mut kept: Vec<(i32, i32)> = Vec::new();
        let mut i: usize = 0;
        while i < self.active_chunks.len()
            invariant
                i <= all.len(),
                self.active_chunks@ == all,
                self.load_queue@ == old(self).load_queue@ + cands.filter(fresh),
                self.load_radius == old(self).load_radius,
                distinct(all),
                distinct(kept@),
                radius == self.load_radius,
                keep == within_of(cx0 as int, cz0 as int, radius as int),
                drop == beyond_of(cx0 as int, cz0 as int, radius as int),
                forall|j: int|
                    0 <= j < all.len() ==> i32::MIN < #[trigger] all[j].0 - cx0 <= i32::MAX && i32::MIN < all[j].1
                        - cz0 <= i32::MAX,
                kept@ == all.take(i as int).filter(keep),
                self.unloading_queue@ == unload0 + all.take(i as int).filter(drop),
            decreases all.len() - i,
        {
            let p = self.active_chunks[i];
            let dx = p.0 - cx0;
            let dz = p.1 - cz0;
            let ax = if dx < 0 {
                -dx
            } else {
                dx
            };
            let az = if dz < 0 {
                -dz
            } else {
                dz
            };
            proof {
                assert(all.take(i + 1) =~= all.take(i as int).push(p));
                all.take(i as int).lemma_filter_push(p, keep);
                all.take(i as int).lemma_filter_push(p, drop);
                assert(keep(p) == (ax <= radius && az <= radius));
                assert(drop(p) == !keep(p));
            }
            if ax <= radius && az <= radius {
                let ghost k0 = kept@;
                proof {
                    if k0.contains(p) {
                        all.take(i as int).lemma_filter_contains_rev(keep, p);
                        let k = all.take(i as int).index_of(p);
                        assert(all[k] == all[i as int]);
                    }
                }
                kept.push(p);
                proof {
                    assert forall|a: int, b: int| 0 <= a < b < kept@.len() implies kept@[a] != kept@[b] by {
                        if b == k0.len() {
                            assert(k0[a] == kept@[a]);
                            assert(k0.contains(k0[a]));
                        } else {
                            assert(k0[a] == kept@[a] && k0[b] == kept@[b]);
                        }
                    }
                }
            } else {
                self.unloading_queue.push_back(p);
            }
            i = i + 1;
        }
        proof {
            assert(all.take(all.len() as int) =~= all);
            assert(cx0 == center.0 as int / 16);
            assert(cz0 == center.2 as int / 16);
            assert(self.load_queue@ == old(self).load_queue@ + cands.filter(fresh));
            assert(all == old(self).active_chunks@ + cands.filter(fresh));
            assert(kept@ == all.filter(keep));
            assert(self.unloading_queue@ == old(self).unloading_queue@ + all.filter(drop));
        }
        self.active_chunks = kept;
    }

    /// Loads the queued chunks in order (see `loads_after`), with chunks
    /// made by `generate`, and empties the load queue.
    pub fn process_load_queue<F: Fn(i32, i32) -> Chunk>(&mut self, world: &mut World, generate: &F)
        requires
            old(world).wf(),
            forall|x: i32, z: i32| generate.requires((x, z)),
            forall|x: i32, z: i32, c: Chunk| generate.ensures((x, z), c) ==> c.wf(),
        ensures
            final(self).load_queue@.len() == 0,
            final(self).unloading_queue@ == old(self).unloading_queue@,
            final(self).active_chunks@ == old(self).active_chunks@,
            final(self).load_radius == old(self).load_radius,
            final(world).wf(),
            final(world).loaded_keys() == loads_after(old(world).loaded_keys(), old(self).load_queue@, old(world).bounds()),
            final(world).bounds() == old(world).bounds(),
            final(world).spawn() == old(world).spawn(),
            forall|k: (i32, i32)|
                #![trigger old(world).is_loaded(k)]
                old(world).is_loaded(k) ==> final(world).chunk_of(k) == old(world).chunk_of(k),
    {
        let ghost q0 = self.load_queue@;
        let ghost mut i: int = 0;
        while self.load_queue.len() > 0
            invariant
                0 <= i <= q0.len(),
                self.load_queue@ == q0.skip(i),
                self.unloading_queue@ == old(self).unloading_queue@,
                self.active_chunks@ == old(self).active_chunks@,
                self.load_radius == old(self).load_radius,
                q0 == old(self).load_queue@,
                world.wf(),
                world.loaded_keys() == loads_after(old(world).loaded_keys(), q0.take(i), old(world).bounds()),
                world.bounds() == old(world).bounds(),
                world.spawn() == old(world).spawn(),
                forall|x: i32, z: i32| generate.requires((x, z)),
                forall|x: i32, z: i32, c: Chunk| generate.ensures((x, z), c) ==> c.wf(),
                forall|k: (i32, i32)|
                    #![trigger old(world).is_loaded(k)]
                    old(world).is_loaded(k) ==> world.is_loaded(k) && world.chunk_of(k) == old(world).chunk_of(k),
            decreases self.load_queue@.len(),
        {
            proof {
                assert(q0.skip(i)[0] == q0[i]);
            }
            let pos = self.load_queue.pop_front().unwrap();
            let ghost w0 = *world;
            let _ = world.load_chunk(pos.0, pos.1, generate);
            proof {
                assert(q0.take(i + 1).drop_last() =~= q0.take(i));
                assert(q0.take(i + 1).last() == pos);
                assert(self.load_queue@ =~= q0.skip(i + 1));
                assert forall|k: (i32, i32)|
                    #![trigger old(world).is_loaded(k)]
                    old(world).is_loaded(k) implies world.is_loaded(k) && world.chunk_of(k) == old(world).chunk_of(k) by {
                    assert(w0.is_loaded(k));
                    if w0.loaded_keys() != world.loaded_keys() {
                        assert(world.loaded_keys() == w0.loaded_keys().push(pos));
                        let j = w0.loaded_keys().index_of(k);
                        assert(world.loaded_keys()[j] == k);
                    }
                }
                i = i + 1;
            }
        }
        proof {
            assert(q0.take(q0.len() as int) =~= q0);
        }
    }

    /// Unloads the queued chunks in order (see `unloads_after`) and empties
    /// the unload queue.
    pub fn process_unload_queue(&mut self, world: &mut World)
        requires
            old(world).wf(),
        ensures
            final(self).unloading_queue@.len() == 0,
            final(self).load_queue@ == old(self).load_queue@,
            final(self).active_chunks@ == old(self).active_chunks@,
            final(self).load_radius == old(self).load_radius,
            final(world).wf(),
            final(world).loaded_keys() == unloads_after(old(world).loaded_keys(), old(self).unloading_queue@),
            final(world).bounds() == old(world).bounds(),
            final(world).spawn() == old(world).spawn(),
            forall|k: (i32, i32)|
                #![trigger final(world).is_loaded(k)]
                final(world).is_loaded(k) ==> final(world).chunk_of(k) == old(world).chunk_of(k),
    {
        let ghost q0 = self.unloading_queue@;
        let ghost mut i: int = 0;
        while self.unloading_queue.len() > 0
            invariant
                0 <= i <= q0.len(),
                self.unloading_queue@ == q0.skip(i),
                self.load_queue@ == old(self).load_queue@,
                self.active_chunks@ == old(self).active_chunks@,
                self.load_radius == old(self).load_radius,
                q0 == old(self).unloading_queue@,
                world.wf(),
                world.loaded_keys() == unloads_after(old(world).loaded_keys(), q0.take(i)),
                world.bounds() == old(world).bounds(),
                world.spawn() == old(world).spawn(),
                forall|k: (i32, i32)|
                    #![trigger world.is_loaded(k)]
                    world.is_loaded(k) ==> world.chunk_of(k) == old(world).chunk_of(k),
            decreases self.unloading_queue@.len(),
        {
            proof {
                assert(q0.skip(i)[0] == q0[i]);
            }
            let pos = self.unloading_queue.pop_front().unwrap();
            let ghost w0 = *world;
            let _ = world.unload_chunk(pos.0, pos.1);
            proof {
                assert(q0.take(i + 1).drop_last() =~= q0.take(i));
                assert(q0.take(i + 1).last() == pos);
                assert(self.unloading_queue@ =~= q0.skip(i + 1));
                assert forall|k: (i32, i32)|
                    #![trigger world.is_loaded(k)]
                    world.is_loaded(k) implies world.chunk_of(k) == old(world).chunk_of(k) by {
                    assert(world.chunk_of(k) == w0.chunk_of(k));
                    if !w0.is_loaded(k) {
                        assert(w0.loaded_keys().contains(k)) by {
                            let j = world.loaded_keys().index_of(k);
                            if w0.loaded_keys() != world.loaded_keys() {
                                let m = w0.loaded_keys().index_of(pos);
                                if j < m {
                                    assert(world.loaded_keys()[j] == w0.loaded_keys()[j]);
                                } else {
                                    assert(world.loaded_keys()[j] == w0.loaded_keys()[j + 1]);
                                }
                            }
                        }
                    }
                }
                i = i + 1;
            }
        }
        proof {
            assert(q0.take(q0.len() as int) =~= q0);
        }
    }

    /// Queues the chunks around `center` (see `queue_chunks`), then loads and
    /// unloads the queued chunks on the world.
    pub fn update<F: Fn(i32, i32) -> Chunk>(&mut self, center: (i32, i32, i32), world: &mut World, generate: &F)
        requires
            old(self).load_radius >= 0,
            distinct(old(self).active_chunks@),
            i32::MIN <= center.0 as int / 16 - old(self).load_radius,
            center.0 as int / 16 + old(self).load_radius <= i32::MAX,
            i32::MIN <= center.2 as int / 16 - old(self).load_radius,
            center.2 as int / 16 + old(self).load_radius <= i32::MAX,
            forall|i: int|
                0 <= i < old(self).active_chunks@.len() ==> i32::MIN < #[trigger] old(self).active_chunks@[i].0
                    - center.0 as int / 16 <= i32::MAX && i32::MIN < old(self).active_chunks@[i].1
                    - center.2 as int / 16 <= i32::MAX,
            old(world).wf(),
            forall|x: i32, z: i32| generate.requires((x, z)),
            forall|x: i32, z: i32, c: Chunk| generate.ensures((x, z), c) ==> c.wf(),
        ensures
            ({
                let cx = center.0 as int / 16;
                let cz = center.2 as int / 16;
                let r = old(self).load_radius as int;
                let added = chunk_candidates(cx, cz, r).filter(fresh_in(old(self).active_chunks@));
                let all = old(self).active_chunks@ + added;
                let loaded = loads_after(old(world).loaded_keys(), old(self).load_queue@ + added, old(world).bounds());
                &&& final(self).active_chunks@ == all.filter(within_of(cx, cz, r))
                &&& final(world).loaded_keys() == unloads_after(
                    loaded,
                    old(self).unloading_queue@ + all.filter(beyond_of(cx, cz, r)),
                )
            }),
            final(self).load_queue@.len() == 0,
            final(self).unloading_queue@.len() == 0,
            final(self).load_radius == old(self).load_radius,
            distinct(final(self).active_chunks@),
            final(world).wf(),
            final(world).bounds() == old(world).bounds(),
            final(world).spawn() == old(world).spawn(),
    {
        self.queue_chunks(center);
        self.process_load_queue(world, generate);
        self.process_unload_queue(world);
    }
}

} // verus!
