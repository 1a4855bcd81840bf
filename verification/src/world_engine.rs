//! The spatial index of the world engine.
use vstd::prelude::*;
use crate::terrain_generator::ChunkCoord;

verus! {

/// A box of the world, in blocks, bounds included.
#[derive(Debug, Clone, Copy, PartialEq, Eq, Structural)]
pub struct WorldArea {
    pub min_x: i64,
    pub min_y: i64,
    pub min_z: i64,
    pub max_x: i64,
    pub max_y: i64,
    pub max_z: i64,
}

/// A node of the engine's spatial index: the chunks filed at this node, its
/// bounds, and child slots.
pub struct QuadTree {
    pub nodes: Vec<Option<Box<QuadTree>>>,
    pub chunks: Vec<ChunkCoord>,
    pub bounds: WorldArea,
}

/// Whether two boxes share a point.
pub open spec fn overlap(a: WorldArea, b: WorldArea) -> bool {
    &&& a.min_x <= b.max_x && b.min_x <= a.max_x
    &&& a.min_y <= b.max_y && b.min_y <= a.max_y
    &&& a.min_z <= b.max_z && b.min_z <= a.max_z
}

/// The chunks that a query over `area` collects from the first `k` child
/// slots of `t`, in slot order.
pub open spec fn found_in_children(t: QuadTree, area: WorldArea, k: int) -> Seq<ChunkCoord>
    decreases t, k,
{
    if k <= 0 || k > t.nodes@.len() {
        Seq::empty()
    } else {
        found_in_children(t, area, k - 1) + match t.nodes@[k - 1] {
            Some(c) => if overlap(c.bounds, area) {
                c.chunks@ + found_in_children(*c, area, c.nodes@.len() as int)
            } else {
                Seq::empty()
            },
            None => Seq::empty(),
        }
    }
}

/// The chunks that a query over `area` collects from `t`: nothing when the
/// tree's bounds miss the area, else its own chunks, then those of its
/// children in slot order.
pub open spec fn found(t: QuadTree, area: WorldArea) -> Seq<ChunkCoord> {
    if overlap(t.bounds, area) {
        t.chunks@ + found_in_children(t, area, t.nodes@.len() as int)
    } else {
        Seq::empty()
    }
}

impl WorldArea {
    /// Whether the two boxes share a point.
    pub fn intersects(&self, other: &WorldArea) -> (r: bool)
        ensures
            r == overlap(*self, *other),
    {
        self.min_x <= other.max_x && other.min_x <= self.max_x && self.min_y <= other.max_y
            && other.min_y <= self.max_y && self.min_z <= other.max_z && other.min_z <= self.max_z
    }
}

impl QuadTree {
    /// An empty index covering the render distance around the origin in x
    /// and z, and heights 0 to 256; four empty child slots.
    pub fn new(render_distance: u32) -> (r: Self)
        ensures
            r.chunks@.len() == 0,
            r.nodes@ == seq![None::<Box<QuadTree>>, None, None, None],
            r.bounds.min_x == -(render_distance as int),
            r.bounds.min_y == 0,
            r.bounds.min_z == -(render_distance as int),
            r.bounds.max_x == render_distance,
            r.bounds.max_y == 256,
            r.bounds.max_z == render_distance,
    {
        let rd = render_distance as i64;
        let mut nodes: Vec<Option<Box<QuadTree>>> = Vec::new();
        nodes.push(None);
        nodes.push(None);
        nodes.push(None);
        nodes.push(None);
        QuadTree {
            nodes,
            chunks: Vec::new(),
            bounds: WorldArea { min_x: -rd, min_y: 0, min_z: -rd, max_x: rd, max_y: 256, max_z: rd },
        }
    }

    /// Files a chunk at this node.
    pub fn insert(&mut self, coord: ChunkCoord)
        ensures
            final(self).chunks@ == old(self).chunks@.push(coord),
            final(self).nodes@ == old(self).nodes@,
            final(self).bounds == old(self).bounds,
    {
        self.chunks.push(coord);
    }

    /// The chunks of every node whose bounds meet `area`, descending only
    /// into nodes that meet it: a node's own chunks first, then its
    /// children's in slot order.
    pub fn query(&self, area: WorldArea) -> (r: Vec<ChunkCoord>)
        ensures
            r@ == found(*self, area),
        decreases self,
    {
        let mut out: Vec<ChunkCoord> = Vec::new();
        if !self.bounds.intersects(&area) {
            return out;
        }
        let mut i: usize = 0;
        while i < self.chunks.len()
            invariant
                i <= self.chunks@.len(),
                out@ == self.chunks@.subrange(0, i as int),
            decreases self.chunks@.len() - i,
        {
            out.push(self.chunks[i]);
            i = i + 1;
        }
        proof {
            assert(self.chunks@.subrange(0, self.chunks@.len() as int) =~= self.chunks@);
        }
        let mut k: usize = 0;
        while k < self.nodes.len()
            invariant
                k <= self.nodes@.len(),
                out@ == self.chunks@ + found_in_children(*self, area, k as int),
            decreases self.nodes@.len() - k,
        {
            let ghost before = out@;
            match &self.nodes[k] {
                Some(child) => {
                    proof {
                        assert(decreases_to!(*self => **child)) by {
                            assert(decreases_to!(*self => self.nodes));
                            assert(decreases_to!(self.nodes => self.nodes@));
                            assert(decreases_to!(self.nodes@ => self.nodes@[k as int]));
                        }
                    }
                    let sub = child.query(area);
                    let mut j: usize = 0;
                    while j < sub.len()
                        invariant
                            j <= sub@.len(),
                            out@ == before + sub@.subrange(0, j as int),
                        decreases sub@.len() - j,
                    {
                        out.push(sub[j]);
                        j = j + 1;
                    }
                    proof {
                        assert(sub@.subrange(0, sub@.len() as int) =~= sub@);
                        assert(out@ =~= self.chunks@ + found_in_children(*self, area, k + 1));
                    }
                },
                None => {
                    proof {
                        assert(out@ =~= self.chunks@ + found_in_children(*self, area, k + 1));
                    }
                },
            }
            k = k + 1;
        }
        out
    }
}

/// The children's part of a query depends on the child slots alone.
proof fn lemma_children_same_nodes(t1: QuadTree, t2: QuadTree, area: WorldArea, k: int)
    requires
        t1.nodes@ == t2.nodes@,
    ensures
        found_in_children(t1, area, k) == found_in_children(t2, area, k),
    decreases k,
{
    if k > 0 && k <= t1.nodes@.len() {
        lemma_children_same_nodes(t1, t2, area, k - 1);
    }
}

/// Filing a chunk and then querying: a query whose area meets the index's
/// bounds returns the chunks filed before, then the new one, then the
/// children's chunks as before; the new chunk is among the results. A query
/// that misses the bounds returns nothing.
pub proof fn lemma_insert_then_query(before: QuadTree, after: QuadTree, coord: ChunkCoord, area: WorldArea)
    requires
        after.chunks@ == before.chunks@.push(coord),
        after.nodes@ == before.nodes@,
        after.bounds == before.bounds,
    ensures
        overlap(before.bounds, area) ==> found(after, area) == before.chunks@.push(coord)
            + found_in_children(before, area, before.nodes@.len() as int),
        overlap(before.bounds, area) ==> found(after, area).contains(coord),
        !overlap(before.bounds, area) ==> found(after, area) == Seq::<ChunkCoord>::empty(),
{
    lemma_children_same_nodes(before, after, area, before.nodes@.len() as int);
    if overlap(before.bounds, area) {
        let s = found(after, area);
        assert(s[before.chunks@.len() as int] == coord);
    }
}

} // verus!
