use vstd::prelude::*;

use crate::world::chunk::{Chunk, Material};

verus! {

/// The six face directions, in the order faces are emitted.
pub open spec fn face_dir(f: int) -> (int, int, int) {
    if f == 0 { (1, 0, 0) }
    else if f == 1 { (-1, 0, 0) }
    else if f == 2 { (0, 1, 0) }
    else if f == 3 { (0, -1, 0) }
    else if f == 4 { (0, 0, 1) }
    else { (0, 0, -1) }
}

pub fn face_dir_exec(f: usize) -> (r: (i32, i32, i32))
    requires
        f < 6,
    ensures
        (r.0 as int, r.1 as int, r.2 as int) == face_dir(f as int),
{
    if f == 0 { (1, 0, 0) }
    else if f == 1 { (-1, 0, 0) }
    else if f == 2 { (0, 1, 0) }
    else if f == 3 { (0, -1, 0) }
    else if f == 4 { (0, 0, 1) }
    else { (0, 0, -1) }
}

/// Whether face `f` of the voxel at (x, y, z) shows: the voxel is not Air
/// and the neighbour across the face is outside the chunk, Air or Water.
pub open spec fn face_visible(c: Chunk, x: int, y: int, z: int, f: int) -> bool {
    let d = face_dir(f);
    let (nx, ny, nz) = (x + d.0, y + d.1, z + d.2);
    &&& c.material_at(x, y, z) != Material::Air
    &&& (!(0 <= nx < 16 && 0 <= ny < 16 && 0 <= nz < 16) || c.material_at(nx, ny, nz) == Material::Air
        || c.material_at(nx, ny, nz) == Material::Water)
}

/// The visible faces among the first `n` (voxel, face) pairs, taken with x
/// slowest, then y, then z, then the face.
pub open spec fn faces_in(c: Chunk, n: int) -> Seq<(usize, usize, usize, usize)>
    decreases n,
{
    if n <= 0 {
        Seq::empty()
    } else {
        let prev = faces_in(c, n - 1);
        let k = n - 1;
        let (x, y, z, f) = (k / 1536, (k / 96) % 16, (k / 6) % 16, k % 6);
        if face_visible(c, x, y, z, f) {
            prev.push((x as usize, y as usize, z as usize, f as usize))
        } else {
            prev
        }
    }
}

/// The (voxel, face) pair at position `k` of the emission order.
pub open spec fn face_at(k: int) -> (usize, usize, usize, usize) {
    ((k / 1536) as usize, ((k / 96) % 16) as usize, ((k / 6) % 16) as usize, (k % 6) as usize)
}

proof fn lemma_face_index(k: int)
    requires
        0 <= k < 24576,
    ensures
        0 <= k / 1536 < 16,
        0 <= (k / 96) % 16 < 16,
        0 <= (k / 6) % 16 < 16,
        0 <= k % 6 < 6,
        k == (k / 1536) * 1536 + ((k / 96) % 16) * 96 + ((k / 6) % 16) * 6 + k % 6,
{
    vstd::arithmetic::div_mod::lemma_fundamental_div_mod(k, 6);
    vstd::arithmetic::div_mod::lemma_fundamental_div_mod(k / 6, 16);
    vstd::arithmetic::div_mod::lemma_fundamental_div_mod(k / 96, 16);
    vstd::arithmetic::div_mod::lemma_div_denominator(k, 6, 16);
    vstd::arithmetic::div_mod::lemma_div_denominator(k, 96, 16);
}

proof fn lemma_face_from_parts(x: int, y: int, z: int, f: int)
    requires
        0 <= x < 16 && 0 <= y < 16 && 0 <= z < 16 && 0 <= f < 6,
    ensures
        face_at(x * 1536 + y * 96 + z * 6 + f) == (x as usize, y as usize, z as usize, f as usize),
{
    let k = x * 1536 + y * 96 + z * 6 + f;
    vstd::arithmetic::div_mod::lemma_fundamental_div_mod_converse(k, 1536, x, y * 96 + z * 6 + f);
    vstd::arithmetic::div_mod::lemma_fundamental_div_mod_converse(k, 96, x * 16 + y, z * 6 + f);
    vstd::arithmetic::div_mod::lemma_fundamental_div_mod_converse(x * 16 + y, 16, x, y);
    vstd::arithmetic::div_mod::lemma_fundamental_div_mod_converse(k, 6, x * 256 + y * 16 + z, f);
    vstd::arithmetic::div_mod::lemma_fundamental_div_mod_converse(x * 256 + y * 16 + z, 16, x * 16 + y, z);
}

proof fn lemma_faces_members(c: Chunk, n: int)
    requires
        0 <= n <= 24576,
    ensures
        forall|e: (usize, usize, usize, usize)| #[trigger] faces_in(c, n).contains(e) <==> exists|k: int|
            0 <= k < n && #[trigger] face_at(k) == e && face_visible(c, e.0 as int, e.1 as int, e.2 as int, e.3 as int),
        faces_in(c, n).no_duplicates(),
    decreases n,
{
    if n > 0 {
        lemma_faces_members(c, n - 1);
        let prev = faces_in(c, n - 1);
        let cur = faces_in(c, n);
        let k0 = n - 1;
        let q = face_at(k0);
        lemma_face_index(k0);
        assert forall|e: (usize, usize, usize, usize)| #[trigger] cur.contains(e) <==> exists|k: int|
            0 <= k < n && #[trigger] face_at(k) == e && face_visible(c, e.0 as int, e.1 as int, e.2 as int, e.3 as int) by {
            if cur.contains(e) {
                let i = choose|i: int| 0 <= i < cur.len() && cur[i] == e;
                if i < prev.len() {
                    assert(prev[i] == e);
                    assert(prev.contains(e));
                    let k = choose|k: int| 0 <= k < n - 1 && #[trigger] face_at(k) == e
                        && face_visible(c, e.0 as int, e.1 as int, e.2 as int, e.3 as int);
                    assert(0 <= k < n);
                } else {
                    assert(e == q);
                }
            }
            if exists|k: int| 0 <= k < n && #[trigger] face_at(k) == e && face_visible(c, e.0 as int, e.1 as int, e.2 as int, e.3 as int) {
                let k = choose|k: int| 0 <= k < n && #[trigger] face_at(k) == e
                    && face_visible(c, e.0 as int, e.1 as int, e.2 as int, e.3 as int);
                if k < n - 1 {
                    assert(prev.contains(e));
                    let i = choose|i: int| 0 <= i < prev.len() && prev[i] == e;
                    assert(cur[i] == e);
                } else {
                    assert(cur[cur.len() - 1] == e);
                }
            }
        }
        if face_visible(c, q.0 as int, q.1 as int, q.2 as int, q.3 as int) {
            assert(!prev.contains(q)) by {
                if prev.contains(q) {
                    let k = choose|k: int| 0 <= k < n - 1 && #[trigger] face_at(k) == q
                        && face_visible(c, q.0 as int, q.1 as int, q.2 as int, q.3 as int);
                    lemma_face_index(k);
                    assert(false);
                }
            }
            assert forall|i: int, j: int| 0 <= i < cur.len() && 0 <= j < cur.len() && i != j implies cur[i] != cur[j] by {
                if i < prev.len() && j < prev.len() {
                    assert(cur[i] == prev[i] && cur[j] == prev[j]);
                } else if i < prev.len() {
                    assert(cur[i] == prev[i]);
                    assert(prev.contains(prev[i]));
                } else {
                    assert(cur[j] == prev[j]);
                    assert(prev.contains(prev[j]));
                }
            }
        }
    }
}

/// Which faces of a voxel the mesh shows, face by face: a face of a voxel
/// that is not Air is shown exactly when the voxel across it is outside the
/// chunk, Air or Water. Face 0 looks towards x+1, face 1 towards x−1, face 2
/// (the top) towards y+1, face 3 (the bottom) towards y−1, face 4 towards
/// z+1 and face 5 towards z−1; no face of an Air voxel is shown.
pub proof fn lemma_faces_look_outward(c: Chunk, faces: Seq<(usize, usize, usize, usize)>, x: usize, y: usize, z: usize)
    requires
        faces == faces_in(c, 24576),
        x < 16 && y < 16 && z < 16,
    ensures
        faces.contains((x, y, z, 0usize)) <==> c.material_at(x as int, y as int, z as int) != Material::Air
            && (x == 15 || c.material_at(x as int + 1, y as int, z as int) == Material::Air || c.material_at(x as int + 1, y as int, z as int) == Material::Water),
        faces.contains((x, y, z, 1usize)) <==> c.material_at(x as int, y as int, z as int) != Material::Air
            && (x == 0 || c.material_at(x as int - 1, y as int, z as int) == Material::Air || c.material_at(x as int - 1, y as int, z as int) == Material::Water),
        faces.contains((x, y, z, 2usize)) <==> c.material_at(x as int, y as int, z as int) != Material::Air
            && (y == 15 || c.material_at(x as int, y as int + 1, z as int) == Material::Air || c.material_at(x as int, y as int + 1, z as int) == Material::Water),
        faces.contains((x, y, z, 3usize)) <==> c.material_at(x as int, y as int, z as int) != Material::Air
            && (y == 0 || c.material_at(x as int, y as int - 1, z as int) == Material::Air || c.material_at(x as int, y as int - 1, z as int) == Material::Water),
        faces.contains((x, y, z, 4usize)) <==> c.material_at(x as int, y as int, z as int) != Material::Air
            && (z == 15 || c.material_at(x as int, y as int, z as int + 1) == Material::Air || c.material_at(x as int, y as int, z as int + 1) == Material::Water),
        faces.contains((x, y, z, 5usize)) <==> c.material_at(x as int, y as int, z as int) != Material::Air
            && (z == 0 || c.material_at(x as int, y as int, z as int - 1) == Material::Air || c.material_at(x as int, y as int, z as int - 1) == Material::Water),
{
    assert forall|f: usize| f < 6 implies (#[trigger] faces.contains((x, y, z, f)) <==> face_visible(c, x as int, y as int, z as int, f as int)) by {
        lemma_faces_contains(c, (x, y, z, f));
    }
    assert(faces.contains((x, y, z, 0usize)) <==> face_visible(c, x as int, y as int, z as int, 0));
    assert(faces.contains((x, y, z, 1usize)) <==> face_visible(c, x as int, y as int, z as int, 1));
    assert(faces.contains((x, y, z, 2usize)) <==> face_visible(c, x as int, y as int, z as int, 2));
    assert(faces.contains((x, y, z, 3usize)) <==> face_visible(c, x as int, y as int, z as int, 3));
    assert(faces.contains((x, y, z, 4usize)) <==> face_visible(c, x as int, y as int, z as int, 4));
    assert(faces.contains((x, y, z, 5usize)) <==> face_visible(c, x as int, y as int, z as int, 5));
}

proof fn lemma_faces_contains(c: Chunk, e: (usize, usize, usize, usize))
    ensures
        faces_in(c, 24576).contains(e) <==> e.0 < 16 && e.1 < 16 && e.2 < 16 && e.3 < 6
            && face_visible(c, e.0 as int, e.1 as int, e.2 as int, e.3 as int),
{
    lemma_faces_members(c, 24576);
    if e.0 < 16 && e.1 < 16 && e.2 < 16 && e.3 < 6 {
        lemma_face_from_parts(e.0 as int, e.1 as int, e.2 as int, e.3 as int);
        let k = e.0 * 1536 + e.1 * 96 + e.2 * 6 + e.3;
        assert(0 <= k < 24576 && face_at(k) == e);
    }
    if faces_in(c, 24576).contains(e) {
        let k = choose|k: int| 0 <= k < 24576 && #[trigger] face_at(k) == e
            && face_visible(c, e.0 as int, e.1 as int, e.2 as int, e.3 as int);
        lemma_face_index(k);
    }
}

/// Every face of the chunk's mesh, as a voxel position and a face number
/// (see `face_dir`), in emission order: exactly the visible faces, each
/// once.
pub fn visible_faces(chunk: &Chunk) -> (r: Vec<(usize, usize, usize, usize)>)
    requires
        chunk.wf(),
    ensures
        r@ == faces_in(*chunk, 24576),
        r@.no_duplicates(),
        forall|e: (usize, usize, usize, usize)| #[trigger] r@.contains(e) <==> e.0 < 16 && e.1 < 16 && e.2 < 16 && e.3 < 6
            && face_visible(*chunk, e.0 as int, e.1 as int, e.2 as int, e.3 as int),
        forall|x: usize, y: usize, z: usize| x < 16 && y < 16 && z < 16 ==> (#[trigger] r@.contains((x, y, z, 0usize))
            <==> chunk.material_at(x as int, y as int, z as int) != Material::Air && (x == 15 || chunk.material_at(x as int + 1, y as int, z as int) == Material::Air
            || chunk.material_at(x as int + 1, y as int, z as int) == Material::Water)),
        forall|x: usize, y: usize, z: usize| x < 16 && y < 16 && z < 16 ==> (#[trigger] r@.contains((x, y, z, 1usize))
            <==> chunk.material_at(x as int, y as int, z as int) != Material::Air && (x == 0 || chunk.material_at(x as int - 1, y as int, z as int) == Material::Air
            || chunk.material_at(x as int - 1, y as int, z as int) == Material::Water)),
        forall|x: usize, y: usize, z: usize| x < 16 && y < 16 && z < 16 ==> (#[trigger] r@.contains((x, y, z, 2usize))
            <==> chunk.material_at(x as int, y as int, z as int) != Material::Air && (y == 15 || chunk.material_at(x as int, y as int + 1, z as int) == Material::Air
            || chunk.material_at(x as int, y as int + 1, z as int) == Material::Water)),
        forall|x: usize, y: usize, z: usize| x < 16 && y < 16 && z < 16 ==> (#[trigger] r@.contains((x, y, z, 3usize))
            <==> chunk.material_at(x as int, y as int, z as int) != Material::Air && (y == 0 || chunk.material_at(x as int, y as int - 1, z as int) == Material::Air
            || chunk.material_at(x as int, y as int - 1, z as int) == Material::Water)),
        forall|x: usize, y: usize, z: usize| x < 16 && y < 16 && z < 16 ==> (#[trigger] r@.contains((x, y, z, 4usize))
            <==> chunk.material_at(x as int, y as int, z as int) != Material::Air && (z == 15 || chunk.material_at(x as int, y as int, z as int + 1) == Material::Air
            || chunk.material_at(x as int, y as int, z as int + 1) == Material::Water)),
        forall|x: usize, y: usize, z: usize| x < 16 && y < 16 && z < 16 ==> (#[trigger] r@.contains((x, y, z, 5usize))
            <==> chunk.material_at(x as int, y as int, z as int) != Material::Air && (z == 0 || chunk.material_at(x as int, y as int, z as int - 1) == Material::Air
            || chunk.material_at(x as int, y as int, z as int - 1) == Material::Water)),
{
    let mut r: Vec<(usize, usize, usize, usize)> = Vec::new();
    let mut k: usize = 0;
    while k < 24576
        invariant
            chunk.wf(),
            k <= 24576,
            r@ == faces_in(*chunk, k as int),
        decreases 24576 - k,
    {
        let x = k / 1536;
        let y = (k / 96) % 16;
        let z = (k / 6) % 16;
        let f = k % 6;
        let material = chunk.get_material(x, y, z);
        if material != Material::Air {
            let (dx, dy, dz) = face_dir_exec(f);
            let nx = x as i32 + dx;
            let ny = y as i32 + dy;
            let nz = z as i32 + dz;
            let neighbor_is_transparent = if nx < 0 || nx >= 16 || ny < 0 || ny >= 16 || nz < 0 || nz >= 16 {
                true
            } else {
                let neighbor = chunk.get_material(nx as usize, ny as usize, nz as usize);
                neighbor == Material::Air || neighbor == Material::Water
            };
            if neighbor_is_transparent {
                r.push((x, y, z, f));
            }
        }
        k = k + 1;
    }
    proof {
        lemma_faces_members(*chunk, 24576);
        assert forall|e: (usize, usize, usize, usize)| #[trigger] r@.contains(e) <==> e.0 < 16 && e.1 < 16 && e.2 < 16 && e.3 < 6
            && face_visible(*chunk, e.0 as int, e.1 as int, e.2 as int, e.3 as int) by {
            lemma_faces_contains(*chunk, e);
        }
    }
    r
}

/// The index buffer of `face_count` quads: for the quad whose first vertex
/// is v, the two triangles (v, v+1, v+2) and (v, v+2, v+3).
pub open spec fn quad_index(i: int) -> int {
    let v = (i / 6) * 4;
    let j = i % 6;
    if j == 0 { v } else if j == 1 { v + 1 } else if j == 2 { v + 2 } else if j == 3 { v } else if j == 4 { v + 2 } else { v + 3 }
}

pub fn mesh_indices(face_count: usize) -> (r: Vec<u32>)
    requires
        face_count * 4 <= u32::MAX,
    ensures
        r@.len() == face_count * 6,
        forall|i: int| 0 <= i < r@.len() ==> #[trigger] r@[i] as int == quad_index(i),
        forall|q: int| 0 <= q < face_count ==> {
            &&& #[trigger] r@[6 * q] == 4 * q
            &&& r@[6 * q + 1] == 4 * q + 1
            &&& r@[6 * q + 2] == 4 * q + 2
            &&& r@[6 * q + 3] == 4 * q
            &&& r@[6 * q + 4] == 4 * q + 2
            &&& r@[6 * q + 5] == 4 * q + 3
        },
{
    let mut r: Vec<u32> = Vec::new();
    let mut q: usize = 0;
    while q < face_count
        invariant
            q <= face_count,
            face_count * 4 <= u32::MAX,
            r@.len() == q * 6,
            forall|i: int| 0 <= i < r@.len() ==> #[trigger] r@[i] as int == quad_index(i),
        decreases face_count - q,
    {
        let v = (q * 4) as u32;
        let ghost before = r@;
        r.push(v);
        r.push(v + 1);
        r.push(v + 2);
        r.push(v);
        r.push(v + 2);
        r.push(v + 3);
        proof {
            assert forall|i: int| 0 <= i < r@.len() implies #[trigger] r@[i] as int == quad_index(i) by {
                if i >= q * 6 {
                    vstd::arithmetic::div_mod::lemma_fundamental_div_mod_converse(i, 6, q as int, i - q * 6);
                } else {
                    assert(r@[i] == before[i]);
                }
            }
        }
        q = q + 1;
    }
    proof {
        assert forall|q: int| 0 <= q < face_count implies {
            &&& #[trigger] r@[6 * q] == 4 * q
            &&& r@[6 * q + 1] == 4 * q + 1
            &&& r@[6 * q + 2] == 4 * q + 2
            &&& r@[6 * q + 3] == 4 * q
            &&& r@[6 * q + 4] == 4 * q + 2
            &&& r@[6 * q + 5] == 4 * q + 3
        } by {
            assert forall|j: int| 0 <= j < 6 implies (#[trigger] quad_index(6 * q + j)) == 4 * q + (if j == 0 { 0int } else if j == 1 { 1 } else if j == 2 { 2 } else if j == 3 { 0 } else if j == 4 { 2 } else { 3 }) by {
                vstd::arithmetic::div_mod::lemma_fundamental_div_mod_converse(6 * q + j, 6, q, j);
            }
            assert(quad_index(6 * q) == 4 * q);
            assert(quad_index(6 * q + 1) == 4 * q + 1);
            assert(quad_index(6 * q + 2) == 4 * q + 2);
            assert(quad_index(6 * q + 3) == 4 * q);
            assert(quad_index(6 * q + 4) == 4 * q + 2);
            assert(quad_index(6 * q + 5) == 4 * q + 3);
        }
    }
    r
}

} // verus!
