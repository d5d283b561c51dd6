use vstd::prelude::*;

use crate::world::chunk::{spec_chunk_index, Chunk, Material};

verus! {

/// Number of voxels on one face of a chunk.
pub const FACE_AREA: usize = 256;

/// The materials just outside each face of a chunk, copied from the
/// neighbouring chunks. A face is indexed by its two other coordinates,
/// the first one times 16 plus the second.
pub struct GhostCellData {
    pub pos_x: [Material; 256],
    pub neg_x: [Material; 256],
    pub pos_y: [Material; 256],
    pub neg_y: [Material; 256],
    pub pos_z: [Material; 256],
    pub neg_z: [Material; 256],
}

impl GhostCellData {
    /// All faces Air.
    pub fn default() -> (r: GhostCellData)
        ensures
            forall|i: int| 0 <= i < 256 ==> #[trigger] r.pos_x@[i] == Material::Air,
            forall|i: int| 0 <= i < 256 ==> #[trigger] r.neg_x@[i] == Material::Air,
            forall|i: int| 0 <= i < 256 ==> #[trigger] r.pos_y@[i] == Material::Air,
            forall|i: int| 0 <= i < 256 ==> #[trigger] r.neg_y@[i] == Material::Air,
            forall|i: int| 0 <= i < 256 ==> #[trigger] r.pos_z@[i] == Material::Air,
            forall|i: int| 0 <= i < 256 ==> #[trigger] r.neg_z@[i] == Material::Air,
    {
        GhostCellData {
            pos_x: [Material::Air; 256],
            neg_x: [Material::Air; 256],
            pos_y: [Material::Air; 256],
            neg_y: [Material::Air; 256],
            pos_z: [Material::Air; 256],
            neg_z: [Material::Air; 256],
        }
    }
}

/// The face index of coordinates `a` and `b` as the lookup computes it:
/// each converted to `usize` (a negative value wraps), `a` times 16 plus `b`.
pub open spec fn face_index(a: i32, b: i32) -> int {
    (a as usize) as int * 16 + (b as usize) as int
}

/// Whether computing the face index stays within `usize`.
pub open spec fn face_index_fits(a: i32, b: i32) -> bool {
    face_index(a, b) <= usize::MAX
}

pub open spec fn face_hit(a: i32, b: i32) -> bool {
    face_index(a, b) < 256
}

/// The material just outside the chunk at local position (x, y, z): the
/// first face whose outside layer the position lies on (+x, −x, +y, −y, +z,
/// −z) and whose index is in range; Air when there is none.
pub open spec fn neighbor_spec(g: GhostCellData, x: i32, y: i32, z: i32) -> Material {
    if x == 16 && face_hit(y, z) {
        g.pos_x@[face_index(y, z)]
    } else if x == -1 && face_hit(y, z) {
        g.neg_x@[face_index(y, z)]
    } else if y == 16 && face_hit(x, z) {
        g.pos_y@[face_index(x, z)]
    } else if y == -1 && face_hit(x, z) {
        g.neg_y@[face_index(x, z)]
    } else if z == 16 && face_hit(x, y) {
        g.pos_z@[face_index(x, y)]
    } else if z == -1 && face_hit(x, y) {
        g.neg_z@[face_index(x, y)]
    } else {
        Material::Air
    }
}

/// The lookup does not overflow: every index it computes, before the one
/// it returns, fits in `usize`.
pub open spec fn neighbor_fits(x: i32, y: i32, z: i32) -> bool {
    &&& (x == 16 || x == -1) ==> face_index_fits(y, z)
    &&& ((x == 16 || x == -1) && face_hit(y, z)) || {
        &&& (y == 16 || y == -1) ==> face_index_fits(x, z)
        &&& ((y == 16 || y == -1) && face_hit(x, z)) || ((z == 16 || z == -1) ==> face_index_fits(x, y))
    }
}

fn face_lookup(a: i32, b: i32) -> (r: usize)
    requires
        face_index_fits(a, b),
    ensures
        r == face_index(a, b),
{
    a as usize * 16 + b as usize
}

impl GhostCellData {
    pub fn get_neighbor_material(&self, local_x: i32, local_y: i32, local_z: i32) -> (r: Material)
        requires
            neighbor_fits(local_x, local_y, local_z),
        ensures
            r == neighbor_spec(*self, local_x, local_y, local_z),
    {
        if local_x == 16 {
            let idx = face_lookup(local_y, local_z);
            if idx < FACE_AREA {
                return self.pos_x[idx];
            }
        }
        if local_x == -1 {
            let idx = face_lookup(local_y, local_z);
            if idx < FACE_AREA {
                return self.neg_x[idx];
            }
        }
        if local_y == 16 {
            let idx = face_lookup(local_x, local_z);
            if idx < FACE_AREA {
                return self.pos_y[idx];
            }
        }
        if local_y == -1 {
            let idx = face_lookup(local_x, local_z);
            if idx < FACE_AREA {
                return self.neg_y[idx];
            }
        }
        if local_z == 16 {
            let idx = face_lookup(local_x, local_y);
            if idx < FACE_AREA {
                return self.pos_z[idx];
            }
        }
        if local_z == -1 {
            let idx = face_lookup(local_x, local_y);
            if idx < FACE_AREA {
                return self.neg_z[idx];
            }
        }
        Material::Air
    }
}

/// The boundary layer of a neighbour seen from face `f` (0: +x, 1: −x,
/// 2: +y, 3: −y, 4: +z, 5: −z), at face index `16a + b`.
pub open spec fn boundary(c: Chunk, f: int, a: int, b: int) -> Material {
    if f == 0 {
        c.material_at(0, a, b)
    } else if f == 1 {
        c.material_at(15, a, b)
    } else if f == 2 {
        c.material_at(a, 0, b)
    } else if f == 3 {
        c.material_at(a, 15, b)
    } else if f == 4 {
        c.material_at(a, b, 0)
    } else {
        c.material_at(a, b, 15)
    }
}

/// The ghost face `f` that a neighbour (or its absence) gives.
pub open spec fn face_of(n: Option<&Chunk>, f: int, i: int) -> Material {
    match n {
        Some(c) => boundary(*c, f, i / 16, i % 16),
        None => Material::Air,
    }
}

fn fill_face(face: &mut [Material; 256], nbr: &Chunk, f: usize)
    requires
        nbr.wf(),
        f < 6,
    ensures
        forall|i: int| 0 <= i < 256 ==> #[trigger] final(face)@[i] == boundary(*nbr, f as int, i / 16, i % 16),
{
    let mut k: usize = 0;
    while k < FACE_AREA
        invariant
            nbr.wf(),
            f < 6,
            k <= 256,
            forall|i: int| 0 <= i < k ==> #[trigger] face@[i] == boundary(*nbr, f as int, i / 16, i % 16),
        decreases 256 - k,
    {
        let a = k / 16;
        let b = k % 16;
        let m = if f == 0 {
            nbr.get_material(0, a, b)
        } else if f == 1 {
            nbr.get_material(15, a, b)
        } else if f == 2 {
            nbr.get_material(a, 0, b)
        } else if f == 3 {
            nbr.get_material(a, 15, b)
        } else if f == 4 {
            nbr.get_material(a, b, 0)
        } else {
            nbr.get_material(a, b, 15)
        };
        face[k] = m;
        k = k + 1;
    }
}

/// Each ghost face holds its neighbour's boundary layer, or Air.
pub open spec fn ghost_synced(g: GhostCellData, neighbors: Seq<Option<&Chunk>>) -> bool {
    &&& forall|i: int| 0 <= i < 256 ==> #[trigger] g.pos_x@[i] == face_of(neighbors[0], 0, i)
    &&& forall|i: int| 0 <= i < 256 ==> #[trigger] g.neg_x@[i] == face_of(neighbors[1], 1, i)
    &&& forall|i: int| 0 <= i < 256 ==> #[trigger] g.pos_y@[i] == face_of(neighbors[2], 2, i)
    &&& forall|i: int| 0 <= i < 256 ==> #[trigger] g.neg_y@[i] == face_of(neighbors[3], 3, i)
    &&& forall|i: int| 0 <= i < 256 ==> #[trigger] g.pos_z@[i] == face_of(neighbors[4], 4, i)
    &&& forall|i: int| 0 <= i < 256 ==> #[trigger] g.neg_z@[i] == face_of(neighbors[5], 5, i)
}

/// Copies into ghost faces the boundary layers of the six neighbours, given
/// in the order +x, −x, +y, −y, +z, −z; a missing neighbour leaves Air.
pub fn sync_ghost_cells(_chunk: &Chunk, neighbors: &[Option<&Chunk>; 6]) -> (g: GhostCellData)
    requires
        forall|f: int| 0 <= f < 6 ==> (#[trigger] neighbors@[f] matches Some(c) ==> c.wf()),
    ensures
        ghost_synced(g, neighbors@),
{
    let mut ghost = GhostCellData::default();
    let n0 = neighbors[0];
    let n1 = neighbors[1];
    let n2 = neighbors[2];
    let n3 = neighbors[3];
    let n4 = neighbors[4];
    let n5 = neighbors[5];
    assert(n0 == neighbors@[0] && n1 == neighbors@[1] && n2 == neighbors@[2]);
    assert(n3 == neighbors@[3] && n4 == neighbors@[4] && n5 == neighbors@[5]);
    if let Some(nbr) = n0 {
        fill_face(&mut ghost.pos_x, nbr, 0);
    }
    if let Some(nbr) = n1 {
        fill_face(&mut ghost.neg_x, nbr, 1);
    }
    if let Some(nbr) = n2 {
        fill_face(&mut ghost.pos_y, nbr, 2);
    }
    if let Some(nbr) = n3 {
        fill_face(&mut ghost.neg_y, nbr, 3);
    }
    if let Some(nbr) = n4 {
        fill_face(&mut ghost.pos_z, nbr, 4);
    }
    if let Some(nbr) = n5 {
        fill_face(&mut ghost.neg_z, nbr, 5);
    }
    ghost
}

/// After syncing, looking just outside the +x face at (16, y, z) gives the
/// +x neighbour's voxel at (0, y, z), or Air when there is no such
/// neighbour; likewise (−1, y, z) gives the −x neighbour's (15, y, z),
/// (x, 16, z) the +y neighbour's (x, 0, z), (x, −1, z) the −y neighbour's
/// (x, 15, z), (x, y, 16) the +z neighbour's (x, y, 0) and (x, y, −1) the
/// −z neighbour's (x, y, 15).
pub proof fn lemma_ghost_mirrors_neighbors(g: GhostCellData, neighbors: Seq<Option<&Chunk>>, a: i32, b: i32)
    requires
        neighbors.len() == 6,
        0 <= a < 16 && 0 <= b < 16,
        ghost_synced(g, neighbors),
    ensures
        neighbor_spec(g, 16, a, b) == face_of(neighbors[0], 0, a * 16 + b),
        neighbor_spec(g, -1i32, a, b) == face_of(neighbors[1], 1, a * 16 + b),
        neighbor_spec(g, a, 16, b) == face_of(neighbors[2], 2, a * 16 + b),
        neighbor_spec(g, a, -1i32, b) == face_of(neighbors[3], 3, a * 16 + b),
        neighbor_spec(g, a, b, 16) == face_of(neighbors[4], 4, a * 16 + b),
        neighbor_spec(g, a, b, -1i32) == face_of(neighbors[5], 5, a * 16 + b),
        face_of(neighbors[0], 0, a * 16 + b) == match neighbors[0] { Some(c) => c.material_at(0, a as int, b as int), None => Material::Air },
        face_of(neighbors[1], 1, a * 16 + b) == match neighbors[1] { Some(c) => c.material_at(15, a as int, b as int), None => Material::Air },
        face_of(neighbors[2], 2, a * 16 + b) == match neighbors[2] { Some(c) => c.material_at(a as int, 0, b as int), None => Material::Air },
        face_of(neighbors[3], 3, a * 16 + b) == match neighbors[3] { Some(c) => c.material_at(a as int, 15, b as int), None => Material::Air },
        face_of(neighbors[4], 4, a * 16 + b) == match neighbors[4] { Some(c) => c.material_at(a as int, b as int, 0), None => Material::Air },
        face_of(neighbors[5], 5, a * 16 + b) == match neighbors[5] { Some(c) => c.material_at(a as int, b as int, 15), None => Material::Air },
{
    let i = a * 16 + b;
    assert(g.pos_x@[i] == face_of(neighbors[0], 0, i));
    assert(g.neg_x@[i] == face_of(neighbors[1], 1, i));
    assert(g.pos_y@[i] == face_of(neighbors[2], 2, i));
    assert(g.neg_y@[i] == face_of(neighbors[3], 3, i));
    assert(g.pos_z@[i] == face_of(neighbors[4], 4, i));
    assert(g.neg_z@[i] == face_of(neighbors[5], 5, i));
    vstd::arithmetic::div_mod::lemma_fundamental_div_mod_converse(i, 16, a as int, b as int);
}

} // verus!
