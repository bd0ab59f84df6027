use vstd::prelude::*;

verus! {

/// The vertex with the given index in a flat list of positions, three
/// coordinates per vertex.
pub fn vertex<T: Copy>(positions: &Vec<T>, index: usize) -> (p: (T, T, T))
    requires
        index * 3 + 2 < positions@.len(),
    ensures
        p == (positions@[index * 3], positions@[index * 3 + 1], positions@[index * 3 + 2]),
{
    let len: usize = positions.len();
    let base = index * 3;
    (positions[base], positions[base + 1], positions[base + 2])
}

/// The triangles of a triangulated face list: every complete group of three
/// consecutive indices, in order; indices left over at the end are dropped.
pub open spec fn triangle_groups(indices: Seq<u32>) -> Seq<(usize, usize, usize)> {
    Seq::new(
        indices.len() / 3,
        |t: int| (indices[3 * t] as usize, indices[3 * t + 1] as usize, indices[3 * t + 2] as usize),
    )
}

/// The triangles of a triangulated face list, as triples of vertex indices.
pub fn triangle_indices(indices: &Vec<u32>) -> (tris: Vec<(usize, usize, usize)>)
    ensures
        tris@ == triangle_groups(indices@),
{
    let mut tris: Vec<(usize, usize, usize)> = Vec::new();
    let count = indices.len() / 3;
    let mut t: usize = 0;
    while t < count
        invariant
            count == indices@.len() / 3,
            t <= count,
            tris@ =~= triangle_groups(indices@).take(t as int),
        decreases count - t,
    {
        proof {
            let n = indices@.len() as int;
            assert(t * 3 + 2 < n) by (nonlinear_arith)
                requires
                    t < count,
                    count == n / 3,
                    n >= 0,
            ;
        }
        let len: usize = indices.len();
        let base = t * 3;
        tris.push((indices[base] as usize, indices[base + 1] as usize, indices[base + 2] as usize));
        t = t + 1;
    }
    tris
}

/// Whether every index of the face list names a vertex among `vertex_count`.
pub open spec fn indices_within(indices: Seq<u32>, vertex_count: nat) -> bool {
    forall|i: int| 0 <= i < indices.len() ==> (#[trigger] indices[i] as nat) < vertex_count
}

/// Whether every index of the face list names a vertex of a flat position list
/// holding `positions_len` coordinates (three per vertex).
pub fn indices_in_range(indices: &Vec<u32>, positions_len: usize) -> (ok: bool)
    ensures
        ok == indices_within(indices@, positions_len as nat / 3),
{
    let vertex_count = positions_len / 3;
    let mut i: usize = 0;
    while i < indices.len()
        invariant
            i <= indices@.len(),
            vertex_count == positions_len as nat / 3,
            forall|m: int| 0 <= m < i ==> (#[trigger] indices@[m] as nat) < vertex_count,
        decreases indices.len() - i,
    {
        if indices[i] as usize >= vertex_count {
            return false;
        }
        i = i + 1;
    }
    true
}

/// The corners of each triangle of a face list, looked up in a flat position list.
pub fn triangle_vertices<T: Copy>(positions: &Vec<T>, indices: &Vec<u32>) -> (tris: Vec<((T, T, T), (T, T, T), (T, T, T))>)
    requires
        indices_within(indices@, positions@.len() / 3),
    ensures
        tris@.len() == indices@.len() / 3,
        forall|t: int| 0 <= t < tris@.len() ==> {
            let (i, j, k) = #[trigger] triangle_groups(indices@)[t];
            &&& tris@[t].0 == (positions@[3 * i], positions@[3 * i + 1], positions@[3 * i + 2])
            &&& tris@[t].1 == (positions@[3 * j], positions@[3 * j + 1], positions@[3 * j + 2])
            &&& tris@[t].2 == (positions@[3 * k], positions@[3 * k + 1], positions@[3 * k + 2])
        },
{
    let groups = triangle_indices(indices);
    let mut tris: Vec<((T, T, T), (T, T, T), (T, T, T))> = Vec::new();
    let mut t: usize = 0;
    while t < groups.len()
        invariant
            groups@ == triangle_groups(indices@),
            indices_within(indices@, positions@.len() / 3),
            t <= groups@.len(),
            tris@.len() == t,
            forall|s: int| 0 <= s < t ==> {
                let (i, j, k) = #[trigger] triangle_groups(indices@)[s];
                &&& tris@[s].0 == (positions@[3 * i], positions@[3 * i + 1], positions@[3 * i + 2])
                &&& tris@[s].1 == (positions@[3 * j], positions@[3 * j + 1], positions@[3 * j + 2])
                &&& tris@[s].2 == (positions@[3 * k], positions@[3 * k + 1], positions@[3 * k + 2])
            },
        decreases groups.len() - t,
    {
        let (i, j, k) = groups[t];
        proof {
            assert(indices@[3 * t] as nat == i);
            assert(indices@[3 * t + 1] as nat == j);
            assert(indices@[3 * t + 2] as nat == k);
        }
        let p0 = vertex(positions, i);
        let p1 = vertex(positions, j);
        let p2 = vertex(positions, k);
        tris.push((p0, p1, p2));
        t = t + 1;
    }
    tris
}

} // verus!
