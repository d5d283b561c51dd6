use std::collections::HashSet;
use vstd::prelude::*;

use crate::physics::material::{material_props, MaterialProperties};
use crate::world::chunk::{
    cells_map, chunk_of, chunks_valid, map_material, lemma_map_written_abs, lemma_read_abs, read_abs, write_abs,
    Block, Chunk, ChunkMap, IVec3, Material, lemma_read_after_write, CHUNK_VOLUME, key_of,
    lemma_pos_key_injective, pos_key,
};

verus! {

/// The chunks an explosion touched, each listed once.
#[derive(Debug, Clone, PartialEq, Eq, Hash)]
pub struct ExplosionResult {
    pub affected_chunks: Vec<IVec3>,
}

/// An explosion's settings: its center, its squared radius, the squared
/// radius within which flammable voxels ignite, and how many of the hundred
/// rolls destroy a voxel lying exactly on the surface.
pub struct Blast {
    pub center: IVec3,
    pub r2: int,
    pub inner2: int,
    pub edge: int,
}

pub open spec fn blast_of(w: IVec3, radius: int, inner_radius: int, edge_rolls: int) -> Blast {
    Blast { center: w, r2: radius * radius, inner2: inner_radius * inner_radius, edge: edge_rolls }
}

pub open spec fn dist2(c: IVec3, w: IVec3) -> int {
    (c.x - w.x) * (c.x - w.x) + (c.y - w.y) * (c.y - w.y) + (c.z - w.z) * (c.z - w.z)
}

/// A number mixed from a position's coordinates.
pub open spec fn seed_of(c: IVec3) -> i64 {
    ((c.x * 73856093) as i64) ^ ((c.y * 19349663) as i64) ^ ((c.z * 83492791) as i64)
}

/// The position's roll: the magnitude of its seed, below 100.
pub open spec fn roll(c: IVec3) -> int {
    let s = seed_of(c) as int;
    (if s < 0 { -s } else { s }) % 100
}

/// The voxel at `c`, of material `m`, catches fire: it lies in the sphere
/// and within the inner radius, and its material burns.
pub open spec fn ignites(b: Blast, c: IVec3, m: Material) -> bool {
    &&& dist2(c, b.center) <= b.r2
    &&& dist2(c, b.center) <= b.inner2
    &&& material_props(m).flammable
    &&& m != Material::Air
}

/// The voxel is destroyed: it lies in the sphere and does not catch fire,
/// and it is the center, lies strictly inside, or its roll is below the
/// edge count.
pub open spec fn destroys(b: Blast, c: IVec3, m: Material) -> bool {
    &&& dist2(c, b.center) <= b.r2
    &&& !ignites(b, c, m)
    &&& (dist2(c, b.center) == 0 || dist2(c, b.center) < b.r2 || roll(c) < b.edge)
}

/// What the voxel at `c` turns into.
pub open spec fn blasted(b: Blast, c: IVec3, m: Material) -> Material {
    if ignites(b, c, m) {
        Material::Fire
    } else if destroys(b, c, m) {
        Material::Air
    } else {
        m
    }
}

pub open spec fn dirty_at(a: Map<IVec3, (Seq<Block>, bool)>, p: IVec3) -> Map<IVec3, (Seq<Block>, bool)> {
    if a.contains_key(p) {
        a.insert(p, (a[p].0, true))
    } else {
        a
    }
}

pub open spec fn add_unique(s: Seq<IVec3>, p: IVec3) -> Seq<IVec3> {
    if s.contains(p) {
        s
    } else {
        s.push(p)
    }
}

pub open spec fn above(c: IVec3) -> IVec3 {
    IVec3 { x: c.x, y: (c.y + 1) as i32, z: c.z }
}

/// One voxel's turn: it ignites, or it is destroyed (marking dirty the
/// chunk stored under its world position, if one is, and a sand voxel
/// resting on it marks its own chunk dirty), or it stays; each chunk that
/// changes is recorded once.
pub open spec fn ex_cell(s: (Map<IVec3, (Seq<Block>, bool)>, Seq<IVec3>), b: Blast, c: IVec3) -> (Map<IVec3, (Seq<Block>, bool)>, Seq<IVec3>) {
    let m = read_abs(s.0, c);
    if ignites(b, c, m) {
        (write_abs(s.0, c, Block::new_spec(Material::Fire)), add_unique(s.1, chunk_of(c)))
    } else if destroys(b, c, m) {
        let a1 = dirty_at(write_abs(s.0, c, Block::air_spec()), c);
        let aff1 = add_unique(s.1, chunk_of(c));
        if c.y < i32::MAX && read_abs(a1, above(c)) == Material::Sand {
            (dirty_at(a1, chunk_of(above(c))), add_unique(aff1, chunk_of(above(c))))
        } else {
            (a1, aff1)
        }
    } else {
        s
    }
}

/// The voxels `(x, y, z0)` to `(x, y, z0 + n - 1)` in turn.
pub open spec fn ex_row(s: (Map<IVec3, (Seq<Block>, bool)>, Seq<IVec3>), b: Blast, x: int, y: int, z0: int, n: nat) -> (Map<IVec3, (Seq<Block>, bool)>, Seq<IVec3>)
    decreases n,
{
    if n == 0 {
        s
    } else {
        ex_cell(ex_row(s, b, x, y, z0, (n - 1) as nat), b, IVec3 { x: x as i32, y: y as i32, z: (z0 + n - 1) as i32 })
    }
}

/// The rows `y0` to `y0 + ny - 1` of the plane at `x`, in turn.
pub open spec fn ex_plane(s: (Map<IVec3, (Seq<Block>, bool)>, Seq<IVec3>), b: Blast, x: int, y0: int, ny: nat, z0: int, nz: nat) -> (Map<IVec3, (Seq<Block>, bool)>, Seq<IVec3>)
    decreases ny,
{
    if ny == 0 {
        s
    } else {
        ex_row(ex_plane(s, b, x, y0, (ny - 1) as nat, z0, nz), b, x, y0 + ny - 1, z0, nz)
    }
}

/// The planes `x0` to `x0 + nx - 1` of the box, in turn.
pub open spec fn ex_box(s: (Map<IVec3, (Seq<Block>, bool)>, Seq<IVec3>), b: Blast, x0: int, nx: nat, y0: int, ny: nat, z0: int, nz: nat) -> (Map<IVec3, (Seq<Block>, bool)>, Seq<IVec3>)
    decreases nx,
{
    if nx == 0 {
        s
    } else {
        ex_plane(ex_box(s, b, x0, (nx - 1) as nat, y0, ny, z0, nz), b, x0 + nx - 1, y0, ny, z0, nz)
    }
}

/// The explosion: every voxel of the box around the sphere, x slowest and z
/// fastest, starting with no chunk recorded.
pub open spec fn explosion(a: Map<IVec3, (Seq<Block>, bool)>, w: IVec3, radius: int, inner_radius: int, edge_rolls: int) -> (Map<IVec3, (Seq<Block>, bool)>, Seq<IVec3>) {
    let n = (2 * radius + 1) as nat;
    ex_box(
        (a, Seq::empty()),
        blast_of(w, radius, inner_radius, edge_rolls),
        w.x - radius,
        n,
        w.y - radius,
        n,
        w.z - radius,
        n,
    )
}

/// Every loaded chunk holds a full set of voxels.
pub open spec fn cells_ok(a: Map<IVec3, (Seq<Block>, bool)>) -> bool {
    forall|p: IVec3| #[trigger] a.contains_key(p) ==> a[p].0.len() == CHUNK_VOLUME
}

/// The voxel catches fire or is destroyed.
pub open spec fn changes(b: Blast, c: IVec3, m: Material) -> bool {
    ignites(b, c, m) || destroys(b, c, m)
}

/// What a step keeps of the state before it: the loaded chunks, their
/// sizes, the recorded chunks, which stay free of repeats.
pub open spec fn step_keeps(s: (Map<IVec3, (Seq<Block>, bool)>, Seq<IVec3>), t: (Map<IVec3, (Seq<Block>, bool)>, Seq<IVec3>)) -> bool {
    &&& cells_ok(t.0)
    &&& t.0.dom() == s.0.dom()
    &&& (s.1.no_duplicates() ==> t.1.no_duplicates())
    &&& forall|p: IVec3| #[trigger] s.1.contains(p) ==> t.1.contains(p)
}

proof fn lemma_add_unique(s: Seq<IVec3>, p: IVec3)
    ensures
        add_unique(s, p).contains(p),
        forall|q: IVec3| #[trigger] s.contains(q) ==> add_unique(s, p).contains(q),
        s.no_duplicates() ==> add_unique(s, p).no_duplicates(),
{
    if !s.contains(p) {
        assert(s.push(p)[s.len() as int] == p);
        assert forall|q: IVec3| #[trigger] s.contains(q) implies s.push(p).contains(q) by {
            let i = choose|i: int| 0 <= i < s.len() && s[i] == q;
            assert(s.push(p)[i] == q);
        }
    }
}

proof fn lemma_dirty_at(a: Map<IVec3, (Seq<Block>, bool)>, p: IVec3)
    requires
        cells_ok(a),
    ensures
        cells_ok(dirty_at(a, p)),
        dirty_at(a, p).dom() == a.dom(),
        forall|q: IVec3| #[trigger] read_abs(dirty_at(a, p), q) == read_abs(a, q),
{
    if a.contains_key(p) {
        assert(dirty_at(a, p).dom() =~= a.dom());
    }
}

/// One step changes the voxel it visits into what the explosion makes of
/// it, records that voxel's chunk when it changes, and leaves every other
/// voxel as it was.
proof fn lemma_ex_cell(s: (Map<IVec3, (Seq<Block>, bool)>, Seq<IVec3>), b: Blast, c: IVec3)
    requires
        cells_ok(s.0),
    ensures
        step_keeps(s, ex_cell(s, b, c)),
        forall|q: IVec3| #[trigger] read_abs(ex_cell(s, b, c).0, q) == if q == c {
            blasted(b, c, read_abs(s.0, c))
        } else {
            read_abs(s.0, q)
        },
        changes(b, c, read_abs(s.0, c)) ==> ex_cell(s, b, c).1.contains(chunk_of(c)),
{
    let m = read_abs(s.0, c);
    if ignites(b, c, m) {
        let blk = Block::new_spec(Material::Fire);
        assert forall|q: IVec3| #[trigger] read_abs(ex_cell(s, b, c).0, q) == if q == c {
            blasted(b, c, m)
        } else {
            read_abs(s.0, q)
        } by {
            lemma_read_after_write(s.0, c, blk, q);
        }
        lemma_read_after_write(s.0, c, blk, c);
        lemma_add_unique(s.1, chunk_of(c));
    } else if destroys(b, c, m) {
        let a0 = write_abs(s.0, c, Block::air_spec());
        let a1 = dirty_at(a0, c);
        let aff1 = add_unique(s.1, chunk_of(c));
        lemma_read_after_write(s.0, c, Block::air_spec(), c);
        lemma_add_unique(s.1, chunk_of(c));
        lemma_dirty_at(a0, c);
        lemma_dirty_at(a1, chunk_of(above(c)));
        lemma_add_unique(aff1, chunk_of(above(c)));
        assert forall|q: IVec3| #[trigger] read_abs(ex_cell(s, b, c).0, q) == if q == c {
            blasted(b, c, m)
        } else {
            read_abs(s.0, q)
        } by {
            lemma_read_after_write(s.0, c, Block::air_spec(), q);
        }
    }
}

/// After a row, its voxels are what the explosion makes of them and every
/// other voxel is as it was; the chunk of each voxel that changed is
/// recorded.
proof fn lemma_ex_row(s: (Map<IVec3, (Seq<Block>, bool)>, Seq<IVec3>), b: Blast, x: int, y: int, z0: int, n: nat)
    requires
        cells_ok(s.0),
        i32::MIN <= x <= i32::MAX,
        i32::MIN <= y <= i32::MAX,
        i32::MIN <= z0 && z0 + n <= i32::MAX + 1,
    ensures
        step_keeps(s, ex_row(s, b, x, y, z0, n)),
        forall|q: IVec3| #[trigger] read_abs(ex_row(s, b, x, y, z0, n).0, q) == if q.x == x && q.y == y && z0 <= q.z < z0 + n {
            blasted(b, q, read_abs(s.0, q))
        } else {
            read_abs(s.0, q)
        },
        forall|q: IVec3| q.x == x && q.y == y && z0 <= q.z < z0 + n && #[trigger] changes(b, q, read_abs(s.0, q))
            ==> ex_row(s, b, x, y, z0, n).1.contains(chunk_of(q)),
    decreases n,
{
    if n > 0 {
        let prev = ex_row(s, b, x, y, z0, (n - 1) as nat);
        let c = IVec3 { x: x as i32, y: y as i32, z: (z0 + n - 1) as i32 };
        lemma_ex_row(s, b, x, y, z0, (n - 1) as nat);
        lemma_ex_cell(prev, b, c);
        assert(read_abs(prev.0, c) == read_abs(s.0, c));
    }
}

/// After the rows `y0` to `y0 + ny - 1` of a plane, their voxels are what
/// the explosion makes of them and every other voxel is as it was; the
/// chunk of each voxel that changed is recorded.
proof fn lemma_ex_plane(s: (Map<IVec3, (Seq<Block>, bool)>, Seq<IVec3>), b: Blast, x: int, y0: int, ny: nat, z0: int, nz: nat)
    requires
        cells_ok(s.0),
        i32::MIN <= x <= i32::MAX,
        i32::MIN <= y0 && y0 + ny <= i32::MAX + 1,
        i32::MIN <= z0 && z0 + nz <= i32::MAX + 1,
    ensures
        step_keeps(s, ex_plane(s, b, x, y0, ny, z0, nz)),
        forall|q: IVec3| #[trigger] read_abs(ex_plane(s, b, x, y0, ny, z0, nz).0, q) == if q.x == x && y0 <= q.y < y0 + ny && z0 <= q.z < z0 + nz {
            blasted(b, q, read_abs(s.0, q))
        } else {
            read_abs(s.0, q)
        },
        forall|q: IVec3| q.x == x && y0 <= q.y < y0 + ny && z0 <= q.z < z0 + nz && #[trigger] changes(b, q, read_abs(s.0, q))
            ==> ex_plane(s, b, x, y0, ny, z0, nz).1.contains(chunk_of(q)),
    decreases ny,
{
    if ny > 0 {
        let prev = ex_plane(s, b, x, y0, (ny - 1) as nat, z0, nz);
        lemma_ex_plane(s, b, x, y0, (ny - 1) as nat, z0, nz);
        lemma_ex_row(prev, b, x, y0 + ny - 1, z0, nz);
        let t = ex_row(prev, b, x, y0 + ny - 1, z0, nz);
        assert forall|q: IVec3| x == q.x && y0 <= q.y < y0 + ny && z0 <= q.z < z0 + nz && #[trigger] changes(b, q, read_abs(s.0, q))
            implies t.1.contains(chunk_of(q)) by {
            if q.y < y0 + ny - 1 {
                assert(prev.1.contains(chunk_of(q)));
            } else {
                assert(changes(b, q, read_abs(prev.0, q)));
            }
        }
    }
}

/// After the planes `x0` to `x0 + nx - 1` of a box, its voxels are what
/// the explosion makes of them and every other voxel is as it was; the
/// chunk of each voxel that changed is recorded.
proof fn lemma_ex_box(s: (Map<IVec3, (Seq<Block>, bool)>, Seq<IVec3>), b: Blast, x0: int, nx: nat, y0: int, ny: nat, z0: int, nz: nat)
    requires
        cells_ok(s.0),
        i32::MIN <= x0 && x0 + nx <= i32::MAX + 1,
        i32::MIN <= y0 && y0 + ny <= i32::MAX + 1,
        i32::MIN <= z0 && z0 + nz <= i32::MAX + 1,
    ensures
        step_keeps(s, ex_box(s, b, x0, nx, y0, ny, z0, nz)),
        forall|q: IVec3| #[trigger] read_abs(ex_box(s, b, x0, nx, y0, ny, z0, nz).0, q) == if x0 <= q.x < x0 + nx && y0 <= q.y < y0 + ny && z0 <= q.z < z0 + nz {
            blasted(b, q, read_abs(s.0, q))
        } else {
            read_abs(s.0, q)
        },
        forall|q: IVec3| x0 <= q.x < x0 + nx && y0 <= q.y < y0 + ny && z0 <= q.z < z0 + nz && #[trigger] changes(b, q, read_abs(s.0, q))
            ==> ex_box(s, b, x0, nx, y0, ny, z0, nz).1.contains(chunk_of(q)),
    decreases nx,
{
    if nx > 0 {
        let prev = ex_box(s, b, x0, (nx - 1) as nat, y0, ny, z0, nz);
        lemma_ex_box(s, b, x0, (nx - 1) as nat, y0, ny, z0, nz);
        lemma_ex_plane(prev, b, x0 + nx - 1, y0, ny, z0, nz);
        let t = ex_plane(prev, b, x0 + nx - 1, y0, ny, z0, nz);
        assert forall|q: IVec3| x0 <= q.x < x0 + nx && y0 <= q.y < y0 + ny && z0 <= q.z < z0 + nz && #[trigger] changes(b, q, read_abs(s.0, q))
            implies t.1.contains(chunk_of(q)) by {
            if q.x < x0 + nx - 1 {
                assert(prev.1.contains(chunk_of(q)));
            } else {
                assert(changes(b, q, read_abs(prev.0, q)));
            }
        }
    }
}

/// The voxel at `q`, with the voxels as in `a`, makes the explosion report
/// chunk `p`: it changes and lies in `p`, or it is destroyed and the sand
/// resting on it lies in `p`.
pub open spec fn reports(b: Blast, a: Map<IVec3, (Seq<Block>, bool)>, q: IVec3, p: IVec3) -> bool {
    ||| changes(b, q, read_abs(a, q)) && p == chunk_of(q)
    ||| destroys(b, q, read_abs(a, q)) && q.y < i32::MAX && read_abs(a, above(q)) == Material::Sand
        && p == chunk_of(above(q))
}

proof fn lemma_add_unique_iff(s: Seq<IVec3>, p: IVec3)
    ensures
        forall|q: IVec3| #[trigger] add_unique(s, p).contains(q) <==> s.contains(q) || q == p,
{
    lemma_add_unique(s, p);
    assert forall|q: IVec3| #[trigger] add_unique(s, p).contains(q) implies s.contains(q) || q == p by {
        if !s.contains(p) {
            let i = choose|i: int| 0 <= i < s.push(p).len() && s.push(p)[i] == q;
            if i < s.len() {
                assert(s[i] == q);
            }
        }
    }
}

proof fn lemma_cell_reports(s: (Map<IVec3, (Seq<Block>, bool)>, Seq<IVec3>), b: Blast, c: IVec3)
    requires
        cells_ok(s.0),
    ensures
        forall|p: IVec3| #[trigger] ex_cell(s, b, c).1.contains(p) <==> s.1.contains(p) || reports(b, s.0, c, p),
{
    let m = read_abs(s.0, c);
    if ignites(b, c, m) {
        lemma_add_unique_iff(s.1, chunk_of(c));
    } else if destroys(b, c, m) {
        let a0 = write_abs(s.0, c, Block::air_spec());
        let aff1 = add_unique(s.1, chunk_of(c));
        lemma_add_unique_iff(s.1, chunk_of(c));
        lemma_add_unique_iff(aff1, chunk_of(above(c)));
        lemma_read_after_write(s.0, c, Block::air_spec(), c);
        lemma_dirty_at(a0, c);
        if c.y < i32::MAX {
            lemma_read_after_write(s.0, c, Block::air_spec(), above(c));
            assert(above(c) != c);
        }
    }
}

/// Whether `q` lies in the box of `nx` × `ny` × `nz` voxels from
/// (x0, y0, z0).
pub open spec fn in_box(q: IVec3, x0: int, nx: nat, y0: int, ny: nat, z0: int, nz: nat) -> bool {
    x0 <= q.x < x0 + nx && y0 <= q.y < y0 + ny && z0 <= q.z < z0 + nz
}

/// The reads `reports` makes at `q` agree between two states.
pub open spec fn same_reads(a: Map<IVec3, (Seq<Block>, bool)>, a2: Map<IVec3, (Seq<Block>, bool)>, q: IVec3) -> bool {
    &&& read_abs(a, q) == read_abs(a2, q)
    &&& (q.y < i32::MAX ==> read_abs(a, above(q)) == read_abs(a2, above(q)))
}

proof fn lemma_reports_same(b: Blast, a: Map<IVec3, (Seq<Block>, bool)>, a2: Map<IVec3, (Seq<Block>, bool)>, q: IVec3)
    requires
        same_reads(a, a2, q),
    ensures
        forall|p: IVec3| #[trigger] reports(b, a, q, p) == reports(b, a2, q, p),
{
}

/// After a row, the recorded chunks are those recorded before and those its
/// voxels report.
proof fn lemma_row_reports(s: (Map<IVec3, (Seq<Block>, bool)>, Seq<IVec3>), b: Blast, x: int, y: int, z0: int, n: nat)
    requires
        cells_ok(s.0),
        i32::MIN <= x <= i32::MAX,
        i32::MIN <= y <= i32::MAX,
        i32::MIN <= z0 && z0 + n <= i32::MAX + 1,
    ensures
        forall|p: IVec3| #[trigger] ex_row(s, b, x, y, z0, n).1.contains(p) <==> s.1.contains(p)
            || exists|q: IVec3| in_box(q, x, 1, y, 1, z0, n) && #[trigger] reports(b, s.0, q, p),
    decreases n,
{
    if n > 0 {
        let prev = ex_row(s, b, x, y, z0, (n - 1) as nat);
        let c = IVec3 { x: x as i32, y: y as i32, z: (z0 + n - 1) as i32 };
        lemma_row_reports(s, b, x, y, z0, (n - 1) as nat);
        lemma_ex_row(s, b, x, y, z0, (n - 1) as nat);
        lemma_cell_reports(prev, b, c);
        assert(same_reads(prev.0, s.0, c)) by {
            assert(read_abs(prev.0, c) == read_abs(s.0, c));
            if c.y < i32::MAX {
                assert(read_abs(prev.0, above(c)) == read_abs(s.0, above(c)));
            }
        }
        lemma_reports_same(b, prev.0, s.0, c);
        let t = ex_row(s, b, x, y, z0, n);
        assert forall|p: IVec3| #[trigger] t.1.contains(p) <==> s.1.contains(p)
            || exists|q: IVec3| in_box(q, x, 1, y, 1, z0, n) && #[trigger] reports(b, s.0, q, p) by {
            if t.1.contains(p) && !s.1.contains(p) {
                if prev.1.contains(p) {
                    let q = choose|q: IVec3| in_box(q, x, 1, y, 1, z0, (n - 1) as nat) && #[trigger] reports(b, s.0, q, p);
                    assert(in_box(q, x, 1, y, 1, z0, n));
                } else {
                    assert(reports(b, s.0, c, p));
                    assert(in_box(c, x, 1, y, 1, z0, n));
                }
            }
            if exists|q: IVec3| in_box(q, x, 1, y, 1, z0, n) && #[trigger] reports(b, s.0, q, p) {
                let q = choose|q: IVec3| in_box(q, x, 1, y, 1, z0, n) && #[trigger] reports(b, s.0, q, p);
                if q.z < z0 + n - 1 {
                    assert(in_box(q, x, 1, y, 1, z0, (n - 1) as nat));
                    assert(prev.1.contains(p));
                } else {
                    assert(q == c);
                }
            }
        }
    }
}

/// After rows `y0` to `y0 + ny - 1` of a plane, the recorded chunks are
/// those recorded before and those its voxels report.
proof fn lemma_plane_reports(s: (Map<IVec3, (Seq<Block>, bool)>, Seq<IVec3>), b: Blast, x: int, y0: int, ny: nat, z0: int, nz: nat)
    requires
        cells_ok(s.0),
        i32::MIN <= x <= i32::MAX,
        i32::MIN <= y0 && y0 + ny <= i32::MAX + 1,
        i32::MIN <= z0 && z0 + nz <= i32::MAX + 1,
    ensures
        forall|p: IVec3| #[trigger] ex_plane(s, b, x, y0, ny, z0, nz).1.contains(p) <==> s.1.contains(p)
            || exists|q: IVec3| in_box(q, x, 1, y0, ny, z0, nz) && #[trigger] reports(b, s.0, q, p),
    decreases ny,
{
    if ny > 0 {
        let prev = ex_plane(s, b, x, y0, (ny - 1) as nat, z0, nz);
        let y = y0 + ny - 1;
        lemma_plane_reports(s, b, x, y0, (ny - 1) as nat, z0, nz);
        lemma_ex_plane(s, b, x, y0, (ny - 1) as nat, z0, nz);
        lemma_row_reports(prev, b, x, y, z0, nz);
        let t = ex_plane(s, b, x, y0, ny, z0, nz);
        assert forall|q: IVec3| in_box(q, x, 1, y, 1, z0, nz) implies same_reads(prev.0, s.0, q) by {
            assert(read_abs(prev.0, q) == read_abs(s.0, q));
            if q.y < i32::MAX {
                assert(read_abs(prev.0, above(q)) == read_abs(s.0, above(q)));
            }
        }
        assert forall|p: IVec3| #[trigger] t.1.contains(p) <==> s.1.contains(p)
            || exists|q: IVec3| in_box(q, x, 1, y0, ny, z0, nz) && #[trigger] reports(b, s.0, q, p) by {
            if t.1.contains(p) && !s.1.contains(p) {
                if prev.1.contains(p) {
                    let q = choose|q: IVec3| in_box(q, x, 1, y0, (ny - 1) as nat, z0, nz) && #[trigger] reports(b, s.0, q, p);
                    assert(in_box(q, x, 1, y0, ny, z0, nz));
                } else {
                    let q = choose|q: IVec3| in_box(q, x, 1, y, 1, z0, nz) && #[trigger] reports(b, prev.0, q, p);
                    lemma_reports_same(b, prev.0, s.0, q);
                    assert(reports(b, s.0, q, p));
                    assert(in_box(q, x, 1, y0, ny, z0, nz));
                }
            }
            if exists|q: IVec3| in_box(q, x, 1, y0, ny, z0, nz) && #[trigger] reports(b, s.0, q, p) {
                let q = choose|q: IVec3| in_box(q, x, 1, y0, ny, z0, nz) && #[trigger] reports(b, s.0, q, p);
                if q.y < y {
                    assert(in_box(q, x, 1, y0, (ny - 1) as nat, z0, nz));
                    assert(prev.1.contains(p));
                } else {
                    assert(in_box(q, x, 1, y, 1, z0, nz));
                    lemma_reports_same(b, prev.0, s.0, q);
                    assert(reports(b, prev.0, q, p));
                }
            }
        }
    }
}

/// After planes `x0` to `x0 + nx - 1` of a box, the recorded chunks are
/// those recorded before and those its voxels report.
proof fn lemma_box_reports(s: (Map<IVec3, (Seq<Block>, bool)>, Seq<IVec3>), b: Blast, x0: int, nx: nat, y0: int, ny: nat, z0: int, nz: nat)
    requires
        cells_ok(s.0),
        i32::MIN <= x0 && x0 + nx <= i32::MAX + 1,
        i32::MIN <= y0 && y0 + ny <= i32::MAX + 1,
        i32::MIN <= z0 && z0 + nz <= i32::MAX + 1,
    ensures
        forall|p: IVec3| #[trigger] ex_box(s, b, x0, nx, y0, ny, z0, nz).1.contains(p) <==> s.1.contains(p)
            || exists|q: IVec3| in_box(q, x0, nx, y0, ny, z0, nz) && #[trigger] reports(b, s.0, q, p),
    decreases nx,
{
    if nx > 0 {
        let prev = ex_box(s, b, x0, (nx - 1) as nat, y0, ny, z0, nz);
        let x = x0 + nx - 1;
        lemma_box_reports(s, b, x0, (nx - 1) as nat, y0, ny, z0, nz);
        lemma_ex_box(s, b, x0, (nx - 1) as nat, y0, ny, z0, nz);
        lemma_plane_reports(prev, b, x, y0, ny, z0, nz);
        let t = ex_box(s, b, x0, nx, y0, ny, z0, nz);
        assert forall|q: IVec3| in_box(q, x, 1, y0, ny, z0, nz) implies same_reads(prev.0, s.0, q) by {
            assert(read_abs(prev.0, q) == read_abs(s.0, q));
            if q.y < i32::MAX {
                assert(read_abs(prev.0, above(q)) == read_abs(s.0, above(q)));
            }
        }
        assert forall|p: IVec3| #[trigger] t.1.contains(p) <==> s.1.contains(p)
            || exists|q: IVec3| in_box(q, x0, nx, y0, ny, z0, nz) && #[trigger] reports(b, s.0, q, p) by {
            if t.1.contains(p) && !s.1.contains(p) {
                if prev.1.contains(p) {
                    let q = choose|q: IVec3| in_box(q, x0, (nx - 1) as nat, y0, ny, z0, nz) && #[trigger] reports(b, s.0, q, p);
                    assert(in_box(q, x0, nx, y0, ny, z0, nz));
                } else {
                    let q = choose|q: IVec3| in_box(q, x, 1, y0, ny, z0, nz) && #[trigger] reports(b, prev.0, q, p);
                    lemma_reports_same(b, prev.0, s.0, q);
                    assert(reports(b, s.0, q, p));
                    assert(in_box(q, x0, nx, y0, ny, z0, nz));
                }
            }
            if exists|q: IVec3| in_box(q, x0, nx, y0, ny, z0, nz) && #[trigger] reports(b, s.0, q, p) {
                let q = choose|q: IVec3| in_box(q, x0, nx, y0, ny, z0, nz) && #[trigger] reports(b, s.0, q, p);
                if q.x < x {
                    assert(in_box(q, x0, (nx - 1) as nat, y0, ny, z0, nz));
                    assert(prev.1.contains(p));
                } else {
                    assert(in_box(q, x, 1, y0, ny, z0, nz));
                    lemma_reports_same(b, prev.0, s.0, q);
                    assert(reports(b, prev.0, q, p));
                }
            }
        }
    }
}

proof fn lemma_outside_sphere(d: int, radius: int)
    requires
        radius >= 0,
        d < -radius || radius < d,
    ensures
        d * d > radius * radius,
{
    assert(d * d > radius * radius) by (nonlinear_arith)
        requires radius >= 0, d < -radius || radius < d;
}

/// What an explosion does to the voxel at `q`, by its squared distance `d`
/// from the center and the material `m` it had. Beyond the radius nothing
/// changes. Within the inner radius a voxel that burns (and is not Air)
/// catches fire. Any other voxel at the center or strictly inside the
/// sphere becomes Air, and one exactly on the surface becomes Air when its
/// roll is below `edge_rolls` and is left as it was otherwise.
pub proof fn lemma_explosion_zones(a: Map<IVec3, (Seq<Block>, bool)>, w: IVec3, radius: int, inner_radius: int, edge_rolls: int, q: IVec3)
    requires
        cells_ok(a),
        0 <= radius,
        i32::MIN <= w.x - radius && w.x + radius <= i32::MAX,
        i32::MIN <= w.y - radius && w.y + radius <= i32::MAX,
        i32::MIN <= w.z - radius && w.z + radius <= i32::MAX,
    ensures
        ({
            let d = (q.x - w.x) * (q.x - w.x) + (q.y - w.y) * (q.y - w.y) + (q.z - w.z) * (q.z - w.z);
            let m = read_abs(a, q);
            let after = read_abs(explosion(a, w, radius, inner_radius, edge_rolls).0, q);
            let burns = material_props(m).flammable && m != Material::Air;
            let lit = d <= radius * radius && d <= inner_radius * inner_radius && burns;
            &&& d > radius * radius ==> after == m
            &&& lit ==> after == Material::Fire
            &&& !lit && (d == 0 || d < radius * radius) ==> after == Material::Air
            &&& !lit && 0 < d == radius * radius ==> after == (if roll(q) < edge_rolls { Material::Air } else { m })
        }),
{
    lemma_explosion_effect(a, w, radius, inner_radius, edge_rolls, q);
}

/// What an explosion does to the voxels: each one becomes what `blasted`
/// makes of the material it had, so voxels inside the inner radius that
/// burn turn to Fire, the rest of the sphere turns to Air (on the surface,
/// by the roll), and everything outside the sphere is unchanged. The
/// recorded chunks hold no repeats and include the chunk of every voxel that
/// changed.
pub proof fn lemma_explosion_effect(a: Map<IVec3, (Seq<Block>, bool)>, w: IVec3, radius: int, inner_radius: int, edge_rolls: int, q: IVec3)
    requires
        cells_ok(a),
        0 <= radius,
        i32::MIN <= w.x - radius && w.x + radius <= i32::MAX,
        i32::MIN <= w.y - radius && w.y + radius <= i32::MAX,
        i32::MIN <= w.z - radius && w.z + radius <= i32::MAX,
    ensures
        read_abs(explosion(a, w, radius, inner_radius, edge_rolls).0, q)
            == blasted(blast_of(w, radius, inner_radius, edge_rolls), q, read_abs(a, q)),
        explosion(a, w, radius, inner_radius, edge_rolls).0.dom() == a.dom(),
        explosion(a, w, radius, inner_radius, edge_rolls).1.no_duplicates(),
        changes(blast_of(w, radius, inner_radius, edge_rolls), q, read_abs(a, q))
            ==> explosion(a, w, radius, inner_radius, edge_rolls).1.contains(chunk_of(q)),
{
    let n = (2 * radius + 1) as nat;
    let b = blast_of(w, radius, inner_radius, edge_rolls);
    let s = (a, Seq::<IVec3>::empty());
    lemma_ex_box(s, b, w.x - radius, n, w.y - radius, n, w.z - radius, n);
    let inside = w.x - radius <= q.x < w.x - radius + n && w.y - radius <= q.y < w.y - radius + n
        && w.z - radius <= q.z < w.z - radius + n;
    if !inside {
        if q.x < w.x - radius || q.x >= w.x - radius + n {
            lemma_outside_sphere(q.x - w.x, radius);
        } else if q.y < w.y - radius || q.y >= w.y - radius + n {
            lemma_outside_sphere(q.y - w.y, radius);
        } else {
            lemma_outside_sphere(q.z - w.z, radius);
        }
        assert(0 <= (q.x - w.x) * (q.x - w.x)) by (nonlinear_arith);
        assert(0 <= (q.y - w.y) * (q.y - w.y)) by (nonlinear_arith);
        assert(0 <= (q.z - w.z) * (q.z - w.z)) by (nonlinear_arith);
        assert(dist2(q, w) > b.r2);
    }
}

/// The chunks an explosion reports are exactly those of the voxels it
/// changes, together with those of the sand voxels resting on voxels it
/// destroys.
pub proof fn lemma_explosion_reports(a: Map<IVec3, (Seq<Block>, bool)>, w: IVec3, radius: int, inner_radius: int, edge_rolls: int)
    requires
        cells_ok(a),
        0 <= radius,
        i32::MIN <= w.x - radius && w.x + radius <= i32::MAX,
        i32::MIN <= w.y - radius && w.y + radius <= i32::MAX,
        i32::MIN <= w.z - radius && w.z + radius <= i32::MAX,
    ensures
        forall|p: IVec3| #[trigger] explosion(a, w, radius, inner_radius, edge_rolls).1.contains(p)
            <==> exists|q: IVec3| #[trigger] reports(blast_of(w, radius, inner_radius, edge_rolls), a, q, p),
{
    let n = (2 * radius + 1) as nat;
    let b = blast_of(w, radius, inner_radius, edge_rolls);
    let s = (a, Seq::<IVec3>::empty());
    lemma_box_reports(s, b, w.x - radius, n, w.y - radius, n, w.z - radius, n);
    assert forall|p: IVec3| (exists|q: IVec3| #[trigger] reports(b, a, q, p))
        implies #[trigger] explosion(a, w, radius, inner_radius, edge_rolls).1.contains(p) by {
        let q = choose|q: IVec3| #[trigger] reports(b, a, q, p);
        if !in_box(q, w.x - radius, n, w.y - radius, n, w.z - radius, n) {
            if q.x < w.x - radius || q.x >= w.x - radius + n {
                lemma_outside_sphere(q.x - w.x, radius);
            } else if q.y < w.y - radius || q.y >= w.y - radius + n {
                lemma_outside_sphere(q.y - w.y, radius);
            } else {
                lemma_outside_sphere(q.z - w.z, radius);
            }
            assert(0 <= (q.x - w.x) * (q.x - w.x)) by (nonlinear_arith);
            assert(0 <= (q.y - w.y) * (q.y - w.y)) by (nonlinear_arith);
            assert(0 <= (q.z - w.z) * (q.z - w.z)) by (nonlinear_arith);
            assert(dist2(q, w) > b.r2);
            assert(false);
        }
        assert(in_box(q, w.x - radius, n, w.y - radius, n, w.z - radius, n) && reports(b, s.0, q, p));
    }
}

/// The touched chunks so far, held both as a list in the order they were
/// first touched and as the set of their keys.
pub open spec fn seen_matches(seen: Set<i128>, v: Seq<IVec3>) -> bool {
    forall|q: IVec3| #[trigger] v.contains(q) <==> seen.contains(pos_key(q) as i128)
}

/// Records a touched chunk once: added to the set and appended to the list
/// unless the set has it already.
fn push_unique(v: &mut Vec<IVec3>, seen: &mut HashSet<i128>, p: IVec3)
    requires
        seen_matches(old(seen)@, old(v)@),
    ensures
        final(v)@ == add_unique(old(v)@, p),
        seen_matches(final(seen)@, final(v)@),
{
    broadcast use vstd::std_specs::hash::group_hash_axioms;
    let k = key_of(p);
    if seen.contains(&k) {
        return;
    }
    seen.insert(k);
    v.push(p);
    proof {
        lemma_add_unique_iff(old(v)@, p);
        assert forall|q: IVec3| #[trigger] v@.contains(q) <==> seen@.contains(pos_key(q) as i128) by {
            assert(v@.contains(q) <==> old(v)@.contains(q) || q == p) by {
                assert(v@ == old(v)@.push(p));
                assert(add_unique(old(v)@, p) == old(v)@.push(p));
            }
            if pos_key(q) as i128 == k {
                assert(pos_key(q) == pos_key(p));
                lemma_pos_key_injective(q, p);
            }
        }
    }
}

/// The roll of a position.
fn surface_roll(p: IVec3) -> (r: i64)
    ensures
        r == roll(p),
        0 <= r < 100,
{
    let px = p.x as i64;
    let py = p.y as i64;
    let pz = p.z as i64;
    assert(-0x400_0000_0000_0000 <= px * 73856093 < 0x400_0000_0000_0000) by (nonlinear_arith)
        requires -0x8000_0000 <= px < 0x8000_0000;
    assert(-0x400_0000_0000_0000 <= py * 19349663 < 0x400_0000_0000_0000) by (nonlinear_arith)
        requires -0x8000_0000 <= py < 0x8000_0000;
    assert(-0x400_0000_0000_0000 <= pz * 83492791 < 0x400_0000_0000_0000) by (nonlinear_arith)
        requires -0x8000_0000 <= pz < 0x8000_0000;
    let sx: i64 = px * 73856093;
    let sy: i64 = py * 19349663;
    let sz: i64 = pz * 83492791;
    let seed: i64 = sx ^ sy ^ sz;
    assert(-0x400_0000_0000_0000 <= seed < 0x400_0000_0000_0000) by (bit_vector)
        requires
            -0x400_0000_0000_0000 <= sx < 0x400_0000_0000_0000,
            -0x400_0000_0000_0000 <= sy < 0x400_0000_0000_0000,
            -0x400_0000_0000_0000 <= sz < 0x400_0000_0000_0000,
            seed == sx ^ sy ^ sz;
    assert(seed == seed_of(p));
    let mag: i64 = if seed < 0 { -seed } else { seed };
    mag % 100
}

/// One voxel's turn of the explosion.
fn blast_cell(chunk_map: &mut ChunkMap, affected: &mut Vec<IVec3>, seen: &mut HashSet<i128>, pos: IVec3, w: IVec3, r2: i32, inner2: i32, edge: u32)
    requires
        old(chunk_map).wf(),
        seen_matches(old(seen)@, old(affected)@),
        -26754 <= pos.x - w.x <= 26754,
        -26754 <= pos.y - w.y <= 26754,
        -26754 <= pos.z - w.z <= 26754,
    ensures
        final(chunk_map).wf(),
        final(chunk_map)@.dom() == old(chunk_map)@.dom(),
        seen_matches(final(seen)@, final(affected)@),
        (cells_map(final(chunk_map)@), final(affected)@) == ex_cell(
            (cells_map(old(chunk_map)@), old(affected)@),
            Blast { center: w, r2: r2 as int, inner2: inner2 as int, edge: edge as int },
            pos,
        ),
{
    let ghost b = Blast { center: w, r2: r2 as int, inner2: inner2 as int, edge: edge as int };
    let ghost a0 = cells_map(chunk_map@);
    let ghost m0 = chunk_map@;
    let dx = pos.x - w.x;
    let dy = pos.y - w.y;
    let dz = pos.z - w.z;
    assert(0 <= dx * dx <= 715776516) by (nonlinear_arith)
        requires -26754 <= dx <= 26754;
    assert(0 <= dy * dy <= 715776516) by (nonlinear_arith)
        requires -26754 <= dy <= 26754;
    assert(0 <= dz * dz <= 715776516) by (nonlinear_arith)
        requires -26754 <= dz <= 26754;
    let d = dx * dx + dy * dy + dz * dz;
    assert(d == dist2(pos, w));
    if d > r2 {
        return;
    }
    let current = chunk_map.get_block(pos);
    proof { lemma_read_abs(m0, pos); }
    let props = MaterialProperties::get(current);
    if d <= inner2 && props.flammable && current != Material::Air {
        chunk_map.set_block(pos, Block::new(Material::Fire));
        proof { lemma_map_written_abs(m0, chunk_map@, pos, Block::new_spec(Material::Fire)); }
        let cp = Chunk::world_to_local(pos).0;
        assert(cp == chunk_of(pos));
        push_unique(affected, seen, cp);
        return;
    }
    assert(!ignites(b, pos, current));
    if d == 0 || d < r2 || surface_roll(pos) < edge as i64 {
        chunk_map.set_block(pos, Block::air());
        proof { lemma_map_written_abs(m0, chunk_map@, pos, Block::air_spec()); }
        let ghost mw = cells_map(chunk_map@);
        if let Some(ch) = chunk_map.get_chunk_mut(pos) {
            ch.dirty = true;
        }
        proof {
            assert(cells_map(chunk_map@) =~= dirty_at(mw, pos));
        }
        let cp = Chunk::world_to_local(pos).0;
        assert(cp == chunk_of(pos));
        push_unique(affected, seen, cp);
        if pos.y < i32::MAX {
            let up = IVec3 { x: pos.x, y: pos.y + 1, z: pos.z };
            assert(up == above(pos));
            let ghost m1 = chunk_map@;
            proof { lemma_read_abs(m1, up); }
            if chunk_map.get_block(up) == Material::Sand {
                let cp2 = Chunk::world_to_local(up).0;
                assert(cp2 == chunk_of(up));
                let ghost a1 = cells_map(m1);
                if let Some(ch2) = chunk_map.get_chunk_mut(cp2) {
                    ch2.dirty = true;
                }
                proof {
                    assert(cells_map(chunk_map@) =~= dirty_at(a1, cp2));
                }
                push_unique(affected, seen, cp2);
            }
        }
    }
}

/// Sets off an explosion of the given radius at a world position. Every
/// voxel of the sphere within `inner_radius` whose material burns turns to
/// Fire; the other voxels strictly inside the sphere turn to Air, as does
/// the center always (even at radius 0), and those on its surface do when
/// their roll is below `edge_rolls`. A destroyed voxel's chunk is marked
/// dirty by the write itself; each destroyed voxel also marks dirty the
/// loaded chunk, if any, whose chunk position equals the voxel's world
/// position, and a sand voxel resting on a destroyed one marks its own
/// chunk dirty. The result
/// lists each chunk that was touched once. The caller derives
/// `inner_radius` (0.6 of the radius) and `edge_rolls` (how many of the
/// rolls 0..99, read as hundredths, fall below one minus the surface
/// distance over the radius) from the radius.
pub fn create_explosion(chunk_map: &mut ChunkMap, world_pos: IVec3, radius: u32, inner_radius: i32, edge_rolls: u32) -> (res: ExplosionResult)
    requires
        old(chunk_map).wf(),
        radius <= 26754,
        -46340 <= inner_radius <= 46340,
        i32::MIN <= world_pos.x - radius && world_pos.x + radius <= i32::MAX,
        i32::MIN <= world_pos.y - radius && world_pos.y + radius <= i32::MAX,
        i32::MIN <= world_pos.z - radius && world_pos.z + radius <= i32::MAX,
    ensures
        final(chunk_map).wf(),
        final(chunk_map)@.dom() == old(chunk_map)@.dom(),
        (cells_map(final(chunk_map)@), res.affected_chunks@) == explosion(
            cells_map(old(chunk_map)@),
            world_pos,
            radius as int,
            inner_radius as int,
            edge_rolls as int,
        ),
        forall|q: IVec3| #[trigger] map_material(final(chunk_map)@, q) == blasted(
            blast_of(world_pos, radius as int, inner_radius as int, edge_rolls as int),
            q,
            map_material(old(chunk_map)@, q),
        ),
        forall|q: IVec3| {
            let d = (q.x - world_pos.x) * (q.x - world_pos.x) + (q.y - world_pos.y) * (q.y - world_pos.y)
                + (q.z - world_pos.z) * (q.z - world_pos.z);
            let m = map_material(old(chunk_map)@, q);
            let after = #[trigger] map_material(final(chunk_map)@, q);
            let burns = material_props(m).flammable && m != Material::Air;
            let lit = d <= radius * radius && d <= inner_radius * inner_radius && burns;
            &&& d > radius * radius ==> after == m
            &&& lit ==> after == Material::Fire
            &&& !lit && (d == 0 || d < radius * radius) ==> after == Material::Air
            &&& !lit && 0 < d == radius * radius ==> after == (if roll(q) < edge_rolls { Material::Air } else { m })
        },
        res.affected_chunks@.no_duplicates(),
        forall|q: IVec3| #[trigger] changes(
            blast_of(world_pos, radius as int, inner_radius as int, edge_rolls as int),
            q,
            map_material(old(chunk_map)@, q),
        ) ==> res.affected_chunks@.contains(chunk_of(q)),
        forall|p: IVec3| #[trigger] res.affected_chunks@.contains(p) <==> exists|q: IVec3| #[trigger] reports(
            blast_of(world_pos, radius as int, inner_radius as int, edge_rolls as int),
            cells_map(old(chunk_map)@),
            q,
            p,
        ),
{
    proof { chunk_map.lemma_valid(); }
    let r: i32 = radius as i32;
    assert(0 <= r * r <= 715776516) by (nonlinear_arith)
        requires 0 <= r <= 26754;
    assert(0 <= inner_radius * inner_radius <= 2147395600) by (nonlinear_arith)
        requires -46340 <= inner_radius <= 46340;
    let r2: i32 = r * r;
    let inner_r2: i32 = inner_radius * inner_radius;
    let n: i32 = 2 * r + 1;
    let xmin = world_pos.x - r;
    let ymin = world_pos.y - r;
    let zmin = world_pos.z - r;
    let ghost b = blast_of(world_pos, radius as int, inner_radius as int, edge_rolls as int);
    let ghost a0 = cells_map(chunk_map@);
    let ghost dom0 = chunk_map@.dom();
    let mut affected: Vec<IVec3> = Vec::new();
    let mut seen: HashSet<i128> = HashSet::new();
    assert(seen_matches(seen@, affected@));
    let mut i: i32 = 0;
    while i < n
        invariant
            0 <= i <= n,
            n == 2 * r + 1,
            r == radius,
            r <= 26754,
            xmin == world_pos.x - r,
            ymin == world_pos.y - r,
            zmin == world_pos.z - r,
            i32::MIN <= world_pos.x - radius && world_pos.x + radius <= i32::MAX,
            i32::MIN <= world_pos.y - radius && world_pos.y + radius <= i32::MAX,
            i32::MIN <= world_pos.z - radius && world_pos.z + radius <= i32::MAX,
            b == (Blast { center: world_pos, r2: r2 as int, inner2: inner_r2 as int, edge: edge_rolls as int }),
            chunk_map.wf(),
            chunk_map@.dom() == dom0,
            seen_matches(seen@, affected@),
            (cells_map(chunk_map@), affected@) == ex_box((a0, Seq::empty()), b, xmin as int, i as nat, ymin as int, n as nat, zmin as int, n as nat),
        decreases n - i,
    {
        let x = xmin + i;
        let ghost sp = (cells_map(chunk_map@), affected@);
        let mut j: i32 = 0;
        while j < n
            invariant
                0 <= i < n,
                0 <= j <= n,
                n == 2 * r + 1,
                r <= 26754,
                x == xmin + i,
                xmin == world_pos.x - r,
                ymin == world_pos.y - r,
                zmin == world_pos.z - r,
                i32::MIN <= world_pos.y - radius && world_pos.y + radius <= i32::MAX,
                i32::MIN <= world_pos.z - radius && world_pos.z + radius <= i32::MAX,
                r == radius,
                b == (Blast { center: world_pos, r2: r2 as int, inner2: inner_r2 as int, edge: edge_rolls as int }),
                chunk_map.wf(),
                chunk_map@.dom() == dom0,
                seen_matches(seen@, affected@),
                (cells_map(chunk_map@), affected@) == ex_plane(sp, b, x as int, ymin as int, j as nat, zmin as int, n as nat),
            decreases n - j,
        {
            let y = ymin + j;
            let ghost sr = (cells_map(chunk_map@), affected@);
            let mut k: i32 = 0;
            while k < n
                invariant
                    0 <= i < n,
                    0 <= j < n,
                    0 <= k <= n,
                    n == 2 * r + 1,
                    r <= 26754,
                    x == xmin + i,
                    y == ymin + j,
                    xmin == world_pos.x - r,
                    ymin == world_pos.y - r,
                    zmin == world_pos.z - r,
                    i32::MIN <= world_pos.z - radius && world_pos.z + radius <= i32::MAX,
                    r == radius,
                    b == (Blast { center: world_pos, r2: r2 as int, inner2: inner_r2 as int, edge: edge_rolls as int }),
                    chunk_map.wf(),
                    chunk_map@.dom() == dom0,
                    seen_matches(seen@, affected@),
                    (cells_map(chunk_map@), affected@) == ex_row(sr, b, x as int, y as int, zmin as int, k as nat),
                decreases n - k,
            {
                let z = zmin + k;
                let pos = IVec3 { x, y, z };
                blast_cell(chunk_map, &mut affected, &mut seen, pos, world_pos, r2, inner_r2, edge_rolls);
                k = k + 1;
            }
            j = j + 1;
        }
        i = i + 1;
    }
    proof {
        assert forall|q: IVec3| #[trigger] map_material(chunk_map@, q) == blasted(b, q, map_material(old(chunk_map)@, q)) by {
            lemma_explosion_effect(a0, world_pos, radius as int, inner_radius as int, edge_rolls as int, q);
            lemma_read_abs(chunk_map@, q);
            lemma_read_abs(old(chunk_map)@, q);
        }
        assert forall|q: IVec3| #[trigger] changes(b, q, map_material(old(chunk_map)@, q)) implies affected@.contains(chunk_of(q)) by {
            lemma_explosion_effect(a0, world_pos, radius as int, inner_radius as int, edge_rolls as int, q);
            lemma_read_abs(old(chunk_map)@, q);
        }
        lemma_explosion_effect(a0, world_pos, radius as int, inner_radius as int, edge_rolls as int, world_pos);
        lemma_explosion_reports(a0, world_pos, radius as int, inner_radius as int, edge_rolls as int);
    }
    ExplosionResult { affected_chunks: affected }
}

} // verus!
