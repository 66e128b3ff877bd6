use vstd::prelude::*;

verus! {

/// Widens every index of a 16-bit index buffer to 32 bits, keeping their order.
pub fn vec_u32_from_vec_u16(input: &Vec<u16>) -> (r: Vec<u32>)
    ensures
        r@.len() == input@.len(),
        forall|i: int| 0 <= i < input@.len() ==> r@[i] == input@[i] as u32,
{
    let mut r: Vec<u32> = Vec::new();
    let n = input.len();
    for i in 0..n
        invariant
            n == input@.len(),
            r@.len() == i,
            forall|j: int| 0 <= j < i ==> r@[j] == input@[j] as u32,
    {
        r.push(input[i] as u32);
    }
    r
}

/// Lays the positions of the vertices one after another, three coordinates
/// per vertex: coordinate `k` of vertex `i` lands at `3 * i + k`.
pub fn flatten_positions<T: Copy>(vertices: &Vec<[T; 3]>) -> (r: Vec<T>)
    requires
        3 * vertices@.len() <= usize::MAX,
    ensures
        r@.len() == 3 * vertices@.len(),
        forall|i: int, k: int|
            0 <= i < vertices@.len() && 0 <= k < 3 ==> #[trigger] r@[3 * i + k] == vertices@[i]@[k],
{
    let mut r: Vec<T> = Vec::new();
    let n = vertices.len();
    for i in 0..n
        invariant
            n == vertices@.len(),
            r@.len() == 3 * i,
            forall|j: int, k: int|
                0 <= j < i && 0 <= k < 3 ==> #[trigger] r@[3 * j + k] == vertices@[j]@[k],
    {
        let p: [T; 3] = vertices[i];
        r.push(p[0]);
        r.push(p[1]);
        r.push(p[2]);
        assert forall|j: int, k: int| 0 <= j < i + 1 && 0 <= k < 3 implies #[trigger] r@[3 * j + k]
            == vertices@[j]@[k] by {
            if j == i {
                assert(k == 0 || k == 1 || k == 2);
            }
        }
    }
    r
}

/// Whether an index buffer describes whole triangles whose corners all lie
/// among the `n_coords / 3` vertices of a flattened position buffer of
/// `n_coords` coordinates.
pub open spec fn valid_triangle_indices(n_coords: nat, indices: Seq<u32>) -> bool {
    &&& indices.len() % 3 == 0
    &&& forall|i: int| 0 <= i < indices.len() ==> 3 * (#[trigger] indices[i]) + 3 <= n_coords
}

/// Gathers, for each run of three indices, the positions of the three corners
/// of that triangle from a flattened position buffer.
pub fn triangle_corners<T: Copy>(verts: &Vec<T>, indices: &Vec<u32>) -> (r: Vec<[[T; 3]; 3]>)
    requires
        valid_triangle_indices(verts@.len(), indices@),
    ensures
        r@.len() == indices@.len() / 3,
        forall|t: int, c: int, k: int|
            0 <= t < r@.len() && 0 <= c < 3 && 0 <= k < 3 ==> #[trigger] r@[t]@[c]@[k]
                == verts@[3 * indices@[3 * t + c] + k],
{
    let mut r: Vec<[[T; 3]; 3]> = Vec::new();
    let len = indices.len();
    let n_coords = verts.len();
    let n_tris = len / 3;
    assert(3 * n_tris == indices@.len());
    for t in 0..n_tris
        invariant
            n_tris == indices@.len() / 3,
            3 * n_tris == indices@.len(),
            len == indices@.len(),
            n_coords == verts@.len(),
            valid_triangle_indices(verts@.len(), indices@),
            r@.len() == t,
            forall|s: int, c: int, k: int|
                0 <= s < t && 0 <= c < 3 && 0 <= k < 3 ==> #[trigger] r@[s]@[c]@[k]
                    == verts@[3 * indices@[3 * s + c] + k],
    {
        let i0 = indices[3 * t] as usize;
        let i1 = indices[3 * t + 1] as usize;
        let i2 = indices[3 * t + 2] as usize;
        let v0: [T; 3] = [verts[i0 * 3], verts[i0 * 3 + 1], verts[i0 * 3 + 2]];
        let v1: [T; 3] = [verts[i1 * 3], verts[i1 * 3 + 1], verts[i1 * 3 + 2]];
        let v2: [T; 3] = [verts[i2 * 3], verts[i2 * 3 + 1], verts[i2 * 3 + 2]];
        r.push([v0, v1, v2]);
        assert forall|s: int, c: int, k: int|
            0 <= s < t + 1 && 0 <= c < 3 && 0 <= k < 3 implies #[trigger] r@[s]@[c]@[k]
                == verts@[3 * indices@[3 * s + c] + k] by {
            if s == t {
                assert(c == 0 || c == 1 || c == 2);
                assert(k == 0 || k == 1 || k == 2);
            }
        }
    }
    r
}

} // verus!
