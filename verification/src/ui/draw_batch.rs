//! Batching the primitives of a user-interface frame into one index buffer:
//! each primitive's indices are shifted past the vertices of the primitives
//! before it.
use vstd::prelude::*;

verus! {

/// The number of vertices of the first `k` primitives.
pub open spec fn vertices_before(counts: Seq<usize>, k: int) -> int
    decreases k,
{
    if k <= 0 {
        0
    } else {
        vertices_before(counts, k - 1) + counts[k - 1]
    }
}

/// A primitive's indices shifted by a vertex offset, the offset taken
/// modulo 2^32 as the 32-bit index buffer holds it.
pub open spec fn shifted(indices: Seq<u32>, offset: int) -> Seq<int> {
    indices.map_values(|i: u32| i + offset % 0x1_0000_0000)
}

/// The merged indices of the first `k` primitives, in order.
pub open spec fn merged(counts: Seq<usize>, indices: Seq<Seq<u32>>, k: int) -> Seq<int>
    decreases k,
{
    if k <= 0 {
        Seq::empty()
    } else {
        merged(counts, indices, k - 1) + shifted(indices[k - 1], vertices_before(counts, k - 1))
    }
}

/// Whether every shifted index of the first `n` primitives fits in a `u32`.
pub open spec fn shifts_fit(counts: Seq<usize>, indices: Seq<Seq<u32>>, n: int) -> bool {
    forall|k: int, i: int|
        0 <= k < n && 0 <= i < indices[k].len() ==> #[trigger] indices[k][i] + vertices_before(counts, k)
            % 0x1_0000_0000 <= u32::MAX
}

proof fn lemma_vertices_before_grows(counts: Seq<usize>, j: int, k: int)
    requires
        0 <= j <= k,
    ensures
        vertices_before(counts, j) <= vertices_before(counts, k),
    decreases k - j,
{
    if j < k {
        lemma_vertices_before_grows(counts, j, k - 1);
    }
}

/// The index buffer of a frame whose primitives have `vertex_counts[k]`
/// vertices and the indices `indices[k]`: the indices of each primitive in
/// turn, each shifted by the number of vertices before that primitive.
pub fn merge_primitive_indices(vertex_counts: &Vec<usize>, indices: &Vec<Vec<u32>>) -> (r: Vec<u32>)
    requires
        vertex_counts@.len() == indices@.len(),
        vertices_before(vertex_counts@, vertex_counts@.len() as int) <= usize::MAX,
        shifts_fit(vertex_counts@, indices@.map_values(|v: Vec<u32>| v@), indices@.len() as int),
    ensures
        r@.map_values(|v: u32| v as int) == merged(
            vertex_counts@,
            indices@.map_values(|v: Vec<u32>| v@),
            indices@.len() as int,
        ),
{
    let ghost ix = indices@.map_values(|v: Vec<u32>| v@);
    let ghost n = indices@.len() as int;
    let mut r: Vec<u32> = Vec::new();
    let mut offset: usize = 0;
    let mut k: usize = 0;
    while k < indices.len()
        invariant
            0 <= k <= n,
            n == indices@.len(),
            vertex_counts@.len() == n,
            ix == indices@.map_values(|v: Vec<u32>| v@),
            vertices_before(vertex_counts@, n) <= usize::MAX,
            shifts_fit(vertex_counts@, ix, n),
            offset == vertices_before(vertex_counts@, k as int),
            r@.map_values(|v: u32| v as int) == merged(vertex_counts@, ix, k as int),
        decreases n - k,
    {
        let prim = &indices[k];
        let wide = offset as u64;
        let shift = wide as u32;
        proof {
            assert(shift == wide % 0x1_0000_0000) by (bit_vector)
                requires
                    shift == wide as u32,
            ;
            assert(ix[k as int] == prim@);
        }
        let ghost before = r@;
        let mut i: usize = 0;
        while i < prim.len()
            invariant
                0 <= k < n,
                n == indices@.len(),
                ix == indices@.map_values(|v: Vec<u32>| v@),
                ix[k as int] == prim@,
                shifts_fit(vertex_counts@, ix, n),
                offset == vertices_before(vertex_counts@, k as int),
                shift == (offset as int) % 0x1_0000_0000,
                0 <= i <= prim@.len(),
                r@.len() == before.len() + i,
                forall|j: int| 0 <= j < before.len() ==> r@[j] == before[j],
                forall|j: int| 0 <= j < i ==> r@[before.len() + j] == prim@[j] + shift,
            decreases prim@.len() - i,
        {
            assert(ix[k as int][i as int] + vertices_before(vertex_counts@, k as int) % 0x1_0000_0000 <= u32::MAX);
            r.push(prim[i] + shift);
            i = i + 1;
        }
        proof {
            lemma_vertices_before_grows(vertex_counts@, k + 1, n);
            assert(r@.map_values(|v: u32| v as int) =~= merged(vertex_counts@, ix, k as int) + shifted(
                ix[k as int],
                vertices_before(vertex_counts@, k as int),
            ));
        }
        offset = offset + vertex_counts[k];
        k = k + 1;
    }
    r
}

} // verus!
