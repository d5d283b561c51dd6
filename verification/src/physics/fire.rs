use vstd::prelude::*;

use crate::physics::material::{material_props, MaterialProperties};
use crate::world::chunk::{spec_chunk_index, spec_is_liquid, Block, Chunk, Material};

verus! {

pub const UP_SPREAD_PROB: u32 = 70;
pub const DIAG_UP_SPREAD_PROB: u32 = 40;
pub const HORIZ_SPREAD_PROB: u32 = 20;

/// Bit pattern of the single-precision value 10.0, the lifetime of a new fire.
pub const FIRE_INITIAL_LIFETIME_BITS: u32 = 0x4120_0000;

/// The six face neighbours, in the order the fire rules visit them.
pub open spec fn neighbor_dir(i: int) -> (int, int, int) {
    if i == 0 { (0, 1, 0) }
    else if i == 1 { (0, -1, 0) }
    else if i == 2 { (-1, 0, 0) }
    else if i == 3 { (1, 0, 0) }
    else if i == 4 { (0, 0, -1) }
    else { (0, 0, 1) }
}

fn neighbor_dir_exec(i: usize) -> (r: (i32, i32, i32))
    requires
        i < 6,
    ensures
        (r.0 as int, r.1 as int, r.2 as int) == neighbor_dir(i as int),
{
    if i == 0 { (0, 1, 0) }
    else if i == 1 { (0, -1, 0) }
    else if i == 2 { (-1, 0, 0) }
    else if i == 3 { (1, 0, 0) }
    else if i == 4 { (0, 0, -1) }
    else { (0, 0, 1) }
}

pub open spec fn wrap_mul(a: u64, b: u64) -> u64 {
    vstd::wrapping::u64_specs::wrapping_mul(a, b)
}

/// A position and a fire's lifetime (as its bit pattern) mixed into a
/// number below 100.
pub open spec fn spec_hash(x: u64, y: u64, z: u64, lifetime_bits: u32) -> u32 {
    (((wrap_mul(x, 73856093) ^ wrap_mul(y, 19349663) ^ wrap_mul(z, 83492791)) ^ (lifetime_bits as u64)) % 100) as u32
}

/// A deterministic number below 100 that changes with the position and with
/// the fire's lifetime, so spreading eventually succeeds everywhere.
pub fn deterministic_hash(x: usize, y: usize, z: usize, lifetime_bits: u32) -> (r: u32)
    ensures
        r == spec_hash(x as u64, y as u64, z as u64, lifetime_bits),
        r < 100,
{
    let t = lifetime_bits as u64;
    let hash = (x as u64).wrapping_mul(73856093) ^ (y as u64).wrapping_mul(19349663) ^ (z as u64).wrapping_mul(
        83492791,
    ) ^ t;
    (hash % 100) as u32
}

pub open spec fn spec_in_bounds(x: int, y: int, z: int) -> bool {
    0 <= x < 16 && 0 <= y < 16 && 0 <= z < 16
}

/// Whether the position lies inside a chunk.
pub fn in_bounds(x: i32, y: i32, z: i32) -> (r: bool)
    ensures
        r == spec_in_bounds(x as int, y as int, z as int),
{
    x >= 0 && x < 16 && y >= 0 && y < 16 && z >= 0 && z < 16
}

/// The fires that spreading from (sx, sy, sz) along the first `n`
/// directions lights: each in-chunk neighbour that is flammable and whose
/// hash falls below the probability.
pub open spec fn spread_spec(
    c: Chunk,
    sx: int, sy: int, sz: int,
    dirs: Seq<(i32, i32, i32)>,
    probability: u32,
    lifetime_bits: u32,
    n: int,
) -> Seq<(usize, usize, usize, Block)>
    decreases n,
{
    if n <= 0 {
        Seq::empty()
    } else {
        let prev = spread_spec(c, sx, sy, sz, dirs, probability, lifetime_bits, n - 1);
        let d = dirs[n - 1];
        let nx = sx + d.0;
        let ny = sy + d.1;
        let nz = sz + d.2;
        if spec_in_bounds(nx, ny, nz) && material_props(c.material_at(nx, ny, nz)).flammable
            && spec_hash(nx as u64, ny as u64, nz as u64, lifetime_bits) < probability {
            prev.push((nx as usize, ny as usize, nz as usize, Block { material: Material::Fire, temperature: FIRE_INITIAL_LIFETIME_BITS }))
        } else {
            prev
        }
    }
}

/// Adding a direction to a chunk position stays within `i32`.
pub open spec fn dirs_fit(dirs: Seq<(i32, i32, i32)>, sx: int, sy: int, sz: int) -> bool {
    forall|i: int| 0 <= i < dirs.len() ==> {
        &&& i32::MIN <= sx + (#[trigger] dirs[i]).0 <= i32::MAX
        &&& i32::MIN <= sy + dirs[i].1 <= i32::MAX
        &&& i32::MIN <= sz + dirs[i].2 <= i32::MAX
    }
}

/// Lights flammable neighbours along `directions` with the given
/// probability (out of 100), appending the new fires to `changes`.
pub fn try_spread(
    chunk: &Chunk,
    src_x: usize,
    src_y: usize,
    src_z: usize,
    directions: &[(i32, i32, i32)],
    probability: u32,
    lifetime_bits: u32,
    changes: &mut Vec<(usize, usize, usize, Block)>,
)
    requires
        chunk.wf(),
        src_x < 16 && src_y < 16 && src_z < 16,
        dirs_fit(directions@, src_x as int, src_y as int, src_z as int),
    ensures
        final(changes)@ == old(changes)@ + spread_spec(*chunk, src_x as int, src_y as int, src_z as int, directions@, probability, lifetime_bits, directions@.len() as int),
{
    let mut i: usize = 0;
    while i < directions.len()
        invariant
            chunk.wf(),
            src_x < 16 && src_y < 16 && src_z < 16,
            dirs_fit(directions@, src_x as int, src_y as int, src_z as int),
            i <= directions@.len(),
            changes@ == old(changes)@ + spread_spec(*chunk, src_x as int, src_y as int, src_z as int, directions@, probability, lifetime_bits, i as int),
        decreases directions@.len() - i,
    {
        let (dx, dy, dz) = directions[i];
        assert(directions@[i as int] == (dx, dy, dz));
        let nx = src_x as i32 + dx;
        let ny = src_y as i32 + dy;
        let nz = src_z as i32 + dz;
        if in_bounds(nx, ny, nz) {
            let nxi = nx as usize;
            let nyi = ny as usize;
            let nzi = nz as usize;
            let neighbor_mat = chunk.get_material(nxi, nyi, nzi);
            if MaterialProperties::get(neighbor_mat).flammable {
                let hash = deterministic_hash(nxi, nyi, nzi, lifetime_bits);
                if hash < probability {
                    changes.push((nxi, nyi, nzi, Block::with_temperature(Material::Fire, FIRE_INITIAL_LIFETIME_BITS)));
                }
            }
        }
        proof {
            assert(changes@ =~= old(changes)@ + spread_spec(*chunk, src_x as int, src_y as int, src_z as int, directions@, probability, lifetime_bits, i + 1));
        }
        i = i + 1;
    }
}

/// The scan order of the fire step: x fastest, then z, then y.
pub open spec fn scan_pos(k: int) -> (int, int, int) {
    (k % 16, k / 256, (k / 16) % 16)
}

/// The fires among the first `n` voxels of the scan.
pub open spec fn fires_in(c: Chunk, n: int) -> Seq<(usize, usize, usize)>
    decreases n,
{
    if n <= 0 {
        Seq::empty()
    } else {
        let prev = fires_in(c, n - 1);
        let (x, y, z) = scan_pos(n - 1);
        if c.material_at(x, y, z) == Material::Fire {
            prev.push((x as usize, y as usize, z as usize))
        } else {
            prev
        }
    }
}

/// The positions of all fires, bottom layer first.
pub fn fire_positions(chunk: &Chunk) -> (r: Vec<(usize, usize, usize)>)
    requires
        chunk.wf(),
    ensures
        r@ == fires_in(*chunk, 4096),
{
    let mut r: Vec<(usize, usize, usize)> = Vec::new();
    let mut k: usize = 0;
    while k < 4096
        invariant
            chunk.wf(),
            k <= 4096,
            r@ == fires_in(*chunk, k as int),
        decreases 4096 - k,
    {
        let x = k % 16;
        let z = (k / 16) % 16;
        let y = k / 256;
        if chunk.get_material(x, y, z) == Material::Fire {
            r.push((x, y, z));
        }
        k = k + 1;
    }
    r
}

/// Whether a face neighbour of the position holds Water.
pub open spec fn touches_water_spec(c: Chunk, x: int, y: int, z: int) -> bool {
    exists|i: int| 0 <= i < 6 && {
        let d = neighbor_dir(i);
        spec_in_bounds(x + d.0, y + d.1, z + d.2) && #[trigger] c.material_at(x + neighbor_dir(i).0, y + neighbor_dir(i).1, z + neighbor_dir(i).2) == Material::Water
    }
}

/// Whether a face neighbour holds Water, which puts out a fire.
pub fn touches_water(chunk: &Chunk, x: usize, y: usize, z: usize) -> (r: bool)
    requires
        chunk.wf(),
        x < 16 && y < 16 && z < 16,
    ensures
        r == touches_water_spec(*chunk, x as int, y as int, z as int),
{
    let mut i: usize = 0;
    while i < 6
        invariant
            chunk.wf(),
            x < 16 && y < 16 && z < 16,
            i <= 6,
            forall|j: int| 0 <= j < i ==> !{
                let d = neighbor_dir(j);
                spec_in_bounds(x + d.0, y + d.1, z + d.2) && #[trigger] chunk.material_at(x + neighbor_dir(j).0, y + neighbor_dir(j).1, z + neighbor_dir(j).2) == Material::Water
            },
        decreases 6 - i,
    {
        let (dx, dy, dz) = neighbor_dir_exec(i);
        let nx = x as i32 + dx;
        let ny = y as i32 + dy;
        let nz = z as i32 + dz;
        if in_bounds(nx, ny, nz) && chunk.get_material(nx as usize, ny as usize, nz as usize) == Material::Water {
            assert(chunk.material_at(x + neighbor_dir(i as int).0, y + neighbor_dir(i as int).1, z + neighbor_dir(i as int).2) == Material::Water);
            return true;
        }
        i = i + 1;
    }
    false
}

/// The neighbours a fire heats among the first `n` directions: those in the
/// chunk that are neither fire nor liquid, flagged when directly above.
pub open spec fn heat_targets_spec(c: Chunk, x: int, y: int, z: int, n: int) -> Seq<(usize, usize, usize, bool)>
    decreases n,
{
    if n <= 0 {
        Seq::empty()
    } else {
        let prev = heat_targets_spec(c, x, y, z, n - 1);
        let d = neighbor_dir(n - 1);
        let (nx, ny, nz) = (x + d.0, y + d.1, z + d.2);
        if spec_in_bounds(nx, ny, nz) && c.material_at(nx, ny, nz) != Material::Fire && !spec_is_liquid(c.material_at(nx, ny, nz)) {
            prev.push((nx as usize, ny as usize, nz as usize, d.1 == 1))
        } else {
            prev
        }
    }
}

/// The neighbours a fire at the position heats, in neighbour order, each
/// flagged when it lies directly above the fire.
pub fn heat_targets(chunk: &Chunk, x: usize, y: usize, z: usize) -> (r: Vec<(usize, usize, usize, bool)>)
    requires
        chunk.wf(),
        x < 16 && y < 16 && z < 16,
    ensures
        r@ == heat_targets_spec(*chunk, x as int, y as int, z as int, 6),
{
    let mut r: Vec<(usize, usize, usize, bool)> = Vec::new();
    let mut i: usize = 0;
    while i < 6
        invariant
            chunk.wf(),
            x < 16 && y < 16 && z < 16,
            i <= 6,
            r@ == heat_targets_spec(*chunk, x as int, y as int, z as int, i as int),
        decreases 6 - i,
    {
        let (dx, dy, dz) = neighbor_dir_exec(i);
        let nx = x as i32 + dx;
        let ny = y as i32 + dy;
        let nz = z as i32 + dz;
        if in_bounds(nx, ny, nz) {
            let neighbor = chunk.get_block(nx as usize, ny as usize, nz as usize);
            if !(neighbor.material == Material::Fire || neighbor.material.is_liquid()) {
                r.push((nx as usize, ny as usize, nz as usize, dy == 1));
            }
        }
        i = i + 1;
    }
    r
}

/// A voxel that a fire step changed, with its new contents.
#[derive(Clone, Copy, Debug, PartialEq, Eq, Structural)]
pub struct FireDelta {
    pub x: usize,
    pub y: usize,
    pub z: usize,
    pub new_block: Block,
}

/// What the single-precision arithmetic of the fire step gives for one
/// voxel's temperature: the bit pattern of the temperature less one (a
/// fire's next lifetime), whether that is at most zero (the fire burns
/// out), and the bit patterns of the temperature raised by 8 (a fire just
/// below) and by 5 (any other neighbouring fire), each capped at 100.
#[derive(Clone, Copy, Debug, PartialEq, Eq, Structural)]
pub struct FireHeat {
    pub next_lifetime: u32,
    pub burnt_out: bool,
    pub warmed_from_below: u32,
    pub warmed_from_side: u32,
}

pub open spec fn up_dirs() -> Seq<(i32, i32, i32)> {
    seq![(0i32, 1i32, 0i32)]
}

pub open spec fn diag_up_dirs() -> Seq<(i32, i32, i32)> {
    seq![(-1i32, 1i32, 0i32), (1i32, 1i32, 0i32), (0i32, 1i32, -1i32), (0i32, 1i32, 1i32)]
}

pub open spec fn horizontal_dirs() -> Seq<(i32, i32, i32)> {
    seq![(-1i32, 0i32, 0i32), (1i32, 0i32, 0i32), (0i32, 0i32, -1i32), (0i32, 0i32, 1i32)]
}

pub open spec fn heat_index(h: (usize, usize, usize, bool)) -> int {
    spec_chunk_index(h.0 as int, h.1 as int, h.2 as int)
}

/// The new temperatures a fire at (x, y, z) gives its heated neighbours.
pub open spec fn warmed(c: Chunk, t: Seq<FireHeat>, x: int, y: int, z: int) -> Seq<(usize, usize, usize, u32)> {
    heat_targets_spec(c, x, y, z, 6).map_values(|h: (usize, usize, usize, bool)| (h.0, h.1, h.2, if h.3 {
        t[heat_index(h)].warmed_from_below
    } else {
        t[heat_index(h)].warmed_from_side
    }))
}

/// What one fire plans: next to water it goes out; once its lifetime is
/// spent it goes out; otherwise it burns on with its next lifetime, lights
/// flammable neighbours (above 70 in 100, diagonally above 40, beside 20,
/// by the hash of the neighbour and the new lifetime) and heats the
/// neighbours that are neither fire nor liquid.
pub open spec fn fire_one(c: Chunk, t: Seq<FireHeat>, x: int, y: int, z: int) -> (Seq<(usize, usize, usize, Block)>, Seq<(usize, usize, usize, u32)>) {
    if c.material_at(x, y, z) != Material::Fire {
        (Seq::empty(), Seq::empty())
    } else if touches_water_spec(c, x, y, z) {
        (seq![(x as usize, y as usize, z as usize, Block::air_spec())], Seq::empty())
    } else {
        let h = t[spec_chunk_index(x, y, z)];
        if h.burnt_out {
            (seq![(x as usize, y as usize, z as usize, Block::air_spec())], Seq::empty())
        } else {
            let lt = h.next_lifetime;
            (
                seq![(x as usize, y as usize, z as usize, Block { material: Material::Fire, temperature: lt })]
                    + spread_spec(c, x, y, z, up_dirs(), UP_SPREAD_PROB, lt, 1)
                    + spread_spec(c, x, y, z, diag_up_dirs(), DIAG_UP_SPREAD_PROB, lt, 4)
                    + spread_spec(c, x, y, z, horizontal_dirs(), HORIZ_SPREAD_PROB, lt, 4),
                warmed(c, t, x, y, z),
            )
        }
    }
}

/// The changes and heating planned by the fires `fs`, in order.
pub open spec fn fire_plan(c: Chunk, t: Seq<FireHeat>, fs: Seq<(usize, usize, usize)>) -> (Seq<(usize, usize, usize, Block)>, Seq<(usize, usize, usize, u32)>)
    decreases fs.len(),
{
    if fs.len() == 0 {
        (Seq::empty(), Seq::empty())
    } else {
        let p = fire_plan(c, t, fs.drop_last());
        let f = fs.last();
        let o = fire_one(c, t, f.0 as int, f.1 as int, f.2 as int);
        (p.0 + o.0, p.1 + o.1)
    }
}

/// The voxels after writing the planned changes in order.
pub open spec fn apply_changes(cells: Seq<Block>, ch: Seq<(usize, usize, usize, Block)>) -> Seq<Block>
    decreases ch.len(),
{
    if ch.len() == 0 {
        cells
    } else {
        let e = ch.last();
        apply_changes(cells, ch.drop_last()).update(spec_chunk_index(e.0 as int, e.1 as int, e.2 as int), e.3)
    }
}

/// The voxels after heating, in order, each planned voxel that is not a
/// fire by then, with the changes this makes.
pub open spec fn apply_heat(cells: Seq<Block>, hs: Seq<(usize, usize, usize, u32)>) -> (Seq<Block>, Seq<FireDelta>)
    decreases hs.len(),
{
    if hs.len() == 0 {
        (cells, Seq::empty())
    } else {
        let p = apply_heat(cells, hs.drop_last());
        let h = hs.last();
        let i = spec_chunk_index(h.0 as int, h.1 as int, h.2 as int);
        let b = p.0[i];
        if b.material != Material::Fire {
            let nb = Block { material: b.material, temperature: h.3 };
            (p.0.update(i, nb), p.1.push(FireDelta { x: h.0, y: h.1, z: h.2, new_block: nb }))
        } else {
            p
        }
    }
}

pub open spec fn change_delta(e: (usize, usize, usize, Block)) -> FireDelta {
    FireDelta { x: e.0, y: e.1, z: e.2, new_block: e.3 }
}

pub open spec fn changes_in_chunk(ch: Seq<(usize, usize, usize, Block)>) -> bool {
    forall|i: int| 0 <= i < ch.len() ==> (#[trigger] ch[i]).0 < 16 && ch[i].1 < 16 && ch[i].2 < 16
}

pub open spec fn heats_in_chunk(hs: Seq<(usize, usize, usize, u32)>) -> bool {
    forall|i: int| 0 <= i < hs.len() ==> (#[trigger] hs[i]).0 < 16 && hs[i].1 < 16 && hs[i].2 < 16
}

proof fn lemma_spread_in_chunk(c: Chunk, sx: int, sy: int, sz: int, dirs: Seq<(i32, i32, i32)>, p: u32, lt: u32, n: int)
    ensures
        changes_in_chunk(spread_spec(c, sx, sy, sz, dirs, p, lt, n)),
    decreases n,
{
    if n > 0 {
        lemma_spread_in_chunk(c, sx, sy, sz, dirs, p, lt, n - 1);
    }
}

proof fn lemma_heat_targets_in_chunk(c: Chunk, x: int, y: int, z: int, n: int)
    ensures
        forall|i: int| 0 <= i < heat_targets_spec(c, x, y, z, n).len() ==> {
            let h = #[trigger] heat_targets_spec(c, x, y, z, n)[i];
            h.0 < 16 && h.1 < 16 && h.2 < 16
        },
    decreases n,
{
    if n > 0 {
        lemma_heat_targets_in_chunk(c, x, y, z, n - 1);
        let prev = heat_targets_spec(c, x, y, z, n - 1);
        let cur = heat_targets_spec(c, x, y, z, n);
        assert forall|i: int| 0 <= i < cur.len() implies {
            let h = #[trigger] cur[i];
            h.0 < 16 && h.1 < 16 && h.2 < 16
        } by {
            if i < prev.len() {
                assert(cur[i] == prev[i]);
            }
        }
    }
}

proof fn lemma_fire_one_in_chunk(c: Chunk, t: Seq<FireHeat>, x: int, y: int, z: int)
    requires
        spec_in_bounds(x, y, z),
    ensures
        changes_in_chunk(fire_one(c, t, x, y, z).0),
        heats_in_chunk(fire_one(c, t, x, y, z).1),
{
    let lt = t[spec_chunk_index(x, y, z)].next_lifetime;
    lemma_spread_in_chunk(c, x, y, z, up_dirs(), UP_SPREAD_PROB, lt, 1);
    lemma_spread_in_chunk(c, x, y, z, diag_up_dirs(), DIAG_UP_SPREAD_PROB, lt, 4);
    lemma_spread_in_chunk(c, x, y, z, horizontal_dirs(), HORIZ_SPREAD_PROB, lt, 4);
    lemma_heat_targets_in_chunk(c, x, y, z, 6);
    let o = fire_one(c, t, x, y, z);
    assert forall|i: int| 0 <= i < o.1.len() implies (#[trigger] o.1[i]).0 < 16 && o.1[i].1 < 16 && o.1[i].2 < 16 by {
        if c.material_at(x, y, z) == Material::Fire && !touches_water_spec(c, x, y, z) && !t[spec_chunk_index(x, y, z)].burnt_out {
            assert(heat_targets_spec(c, x, y, z, 6)[i] == heat_targets_spec(c, x, y, z, 6)[i]);
        }
    }
}

proof fn lemma_concat_changes(a: Seq<(usize, usize, usize, Block)>, b: Seq<(usize, usize, usize, Block)>)
    requires
        changes_in_chunk(a),
        changes_in_chunk(b),
    ensures
        changes_in_chunk(a + b),
{
    assert forall|i: int| 0 <= i < (a + b).len() implies (#[trigger] (a + b)[i]).0 < 16 && (a + b)[i].1 < 16 && (a + b)[i].2 < 16 by {
        if i >= a.len() {
            assert((a + b)[i] == b[i - a.len()]);
        }
    }
}

proof fn lemma_concat_heats(a: Seq<(usize, usize, usize, u32)>, b: Seq<(usize, usize, usize, u32)>)
    requires
        heats_in_chunk(a),
        heats_in_chunk(b),
    ensures
        heats_in_chunk(a + b),
{
    assert forall|i: int| 0 <= i < (a + b).len() implies (#[trigger] (a + b)[i]).0 < 16 && (a + b)[i].1 < 16 && (a + b)[i].2 < 16 by {
        if i >= a.len() {
            assert((a + b)[i] == b[i - a.len()]);
        }
    }
}

proof fn lemma_fires_in_chunk(c: Chunk, n: int)
    requires
        n <= 4096,
    ensures
        forall|i: int| 0 <= i < fires_in(c, n).len() ==> {
            let f = #[trigger] fires_in(c, n)[i];
            f.0 < 16 && f.1 < 16 && f.2 < 16
        },
    decreases n,
{
    if n > 0 {
        lemma_fires_in_chunk(c, n - 1);
        let prev = fires_in(c, n - 1);
        let cur = fires_in(c, n);
        let k = n - 1;
        assert(0 <= k / 256 < 16 && 0 <= k % 16 < 16 && 0 <= (k / 16) % 16 < 16);
        assert forall|i: int| 0 <= i < cur.len() implies {
            let f = #[trigger] cur[i];
            f.0 < 16 && f.1 < 16 && f.2 < 16
        } by {
            if i < prev.len() {
                assert(cur[i] == prev[i]);
            }
        }
    }
}

/// Plans one fire's changes and heating, appending them.
fn fire_one_exec(
    chunk: &Chunk,
    heat: &Vec<FireHeat>,
    x: usize,
    y: usize,
    z: usize,
    changes: &mut Vec<(usize, usize, usize, Block)>,
    heated: &mut Vec<(usize, usize, usize, u32)>,
)
    requires
        chunk.wf(),
        heat@.len() == 4096,
        x < 16 && y < 16 && z < 16,
    ensures
        final(changes)@ == old(changes)@ + fire_one(*chunk, heat@, x as int, y as int, z as int).0,
        final(heated)@ == old(heated)@ + fire_one(*chunk, heat@, x as int, y as int, z as int).1,
{
    let ghost o = fire_one(*chunk, heat@, x as int, y as int, z as int);
    let block = chunk.get_block(x, y, z);
    if block.material != Material::Fire {
        assert(changes@ =~= old(changes)@ + o.0);
        assert(heated@ =~= old(heated)@ + o.1);
        return;
    }
    if touches_water(chunk, x, y, z) {
        changes.push((x, y, z, Block::air()));
        assert(changes@ =~= old(changes)@ + o.0);
        assert(heated@ =~= old(heated)@ + o.1);
        return;
    }
    let h = heat[idx_of(x, y, z)];
    if h.burnt_out {
        changes.push((x, y, z, Block::air()));
        assert(changes@ =~= old(changes)@ + o.0);
        assert(heated@ =~= old(heated)@ + o.1);
        return;
    }
    let lt = h.next_lifetime;
    changes.push((x, y, z, Block::with_temperature(Material::Fire, lt)));
    let ghost c1 = changes@;
    let up: Vec<(i32, i32, i32)> = vec![(0, 1, 0)];
    let diag: Vec<(i32, i32, i32)> = vec![(-1, 1, 0), (1, 1, 0), (0, 1, -1), (0, 1, 1)];
    let horiz: Vec<(i32, i32, i32)> = vec![(-1, 0, 0), (1, 0, 0), (0, 0, -1), (0, 0, 1)];
    assert(up@ =~= up_dirs());
    assert(diag@ =~= diag_up_dirs());
    assert(horiz@ =~= horizontal_dirs());
    try_spread(chunk, x, y, z, up.as_slice(), UP_SPREAD_PROB, lt, changes);
    let ghost c2 = changes@;
    try_spread(chunk, x, y, z, diag.as_slice(), DIAG_UP_SPREAD_PROB, lt, changes);
    let ghost c3 = changes@;
    try_spread(chunk, x, y, z, horiz.as_slice(), HORIZ_SPREAD_PROB, lt, changes);
    proof {
        let s0 = seq![(x, y, z, Block { material: Material::Fire, temperature: lt })];
        let s1 = spread_spec(*chunk, x as int, y as int, z as int, up_dirs(), UP_SPREAD_PROB, lt, 1);
        let s2 = spread_spec(*chunk, x as int, y as int, z as int, diag_up_dirs(), DIAG_UP_SPREAD_PROB, lt, 4);
        let s3 = spread_spec(*chunk, x as int, y as int, z as int, horizontal_dirs(), HORIZ_SPREAD_PROB, lt, 4);
        assert(c1 =~= old(changes)@ + s0);
        assert(changes@ =~= old(changes)@ + (s0 + s1 + s2 + s3));
    }
    let targets = heat_targets(chunk, x, y, z);
    let ghost ht = heat_targets_spec(*chunk, x as int, y as int, z as int, 6);
    proof { lemma_heat_targets_in_chunk(*chunk, x as int, y as int, z as int, 6); }
    let mut k: usize = 0;
    while k < targets.len()
        invariant
            heat@.len() == 4096,
            ht == heat_targets_spec(*chunk, x as int, y as int, z as int, 6),
            targets@ == ht,
            forall|i: int| 0 <= i < ht.len() ==> {
                let e = #[trigger] ht[i];
                e.0 < 16 && e.1 < 16 && e.2 < 16
            },
            k <= targets@.len(),
            heated@ == old(heated)@ + warmed(*chunk, heat@, x as int, y as int, z as int).take(k as int),
        decreases targets@.len() - k,
    {
        let (nx, ny, nz, above) = targets[k];
        assert(ht[k as int] == (nx, ny, nz, above));
        let hn = heat[idx_of(nx, ny, nz)];
        let temp = if above { hn.warmed_from_below } else { hn.warmed_from_side };
        heated.push((nx, ny, nz, temp));
        proof {
            let w = warmed(*chunk, heat@, x as int, y as int, z as int);
            assert(w.len() == ht.len());
            assert(w[k as int] == (nx, ny, nz, temp));
            assert(w.take(k + 1) =~= w.take(k as int).push(w[k as int]));
        }
        k = k + 1;
    }
    proof {
        let w = warmed(*chunk, heat@, x as int, y as int, z as int);
        assert(w.len() == ht.len());
        assert(w.take(ht.len() as int) =~= w);
    }
}

fn idx_of(x: usize, y: usize, z: usize) -> (r: usize)
    requires
        x < 16 && y < 16 && z < 16,
    ensures
        r == spec_chunk_index(x as int, y as int, z as int),
        r < 4096,
{
    x + y * 16 + z * 256
}

/// One step of the fire rules over a chunk. Each fire, in scan order, plans
/// its changes from the chunk as it was; then the changes are written in
/// order, and finally each planned heating is written where the voxel is
/// not a fire by then. `heat[i]` is what the temperature arithmetic gives
/// for voxel `i`. Returns the changes and heatings written, in order.
pub fn simulate_fire_step(chunk: &mut Chunk, heat: &Vec<FireHeat>) -> (r: Vec<FireDelta>)
    requires
        old(chunk).wf(),
        heat@.len() == 4096,
    ensures
        final(chunk).wf(),
        final(chunk).position == old(chunk).position,
        ({
            let plan = fire_plan(*old(chunk), heat@, fires_in(*old(chunk), 4096));
            let hres = apply_heat(apply_changes(old(chunk).cells(), plan.0), plan.1);
            &&& final(chunk).cells() == hres.0
            &&& r@ == plan.0.map_values(|e: (usize, usize, usize, Block)| change_delta(e)) + hres.1
            &&& final(chunk).dirty == (old(chunk).dirty || r@.len() > 0)
        }),
        forall|x: int, y: int, z: int| spec_in_bounds(x, y, z) && old(chunk).material_at(x, y, z) == Material::Fire
            ==> final(chunk).cells()[spec_chunk_index(x, y, z)] == #[trigger] fire_own(*old(chunk), heat@, x, y, z),
        forall|x: int, y: int, z: int| spec_in_bounds(x, y, z) && #[trigger] old(chunk).material_at(x, y, z) != Material::Fire
            ==> final(chunk).cells()[spec_chunk_index(x, y, z)].material == old(chunk).material_at(x, y, z)
                || (final(chunk).cells()[spec_chunk_index(x, y, z)] == (Block { material: Material::Fire, temperature: FIRE_INITIAL_LIFETIME_BITS })
                    && material_props(old(chunk).material_at(x, y, z)).flammable),
{
    let ghost c0 = *chunk;
    let fires = fire_positions(chunk);
    proof { lemma_fires_in_chunk(c0, 4096); }
    let mut changes: Vec<(usize, usize, usize, Block)> = Vec::new();
    let mut heated: Vec<(usize, usize, usize, u32)> = Vec::new();
    let mut i: usize = 0;
    while i < fires.len()
        invariant
            chunk.wf(),
            *chunk == c0,
            heat@.len() == 4096,
            fires@ == fires_in(c0, 4096),
            forall|j: int| 0 <= j < fires@.len() ==> {
                let f = #[trigger] fires@[j];
                f.0 < 16 && f.1 < 16 && f.2 < 16
            },
            i <= fires@.len(),
            (changes@, heated@) == fire_plan(c0, heat@, fires@.take(i as int)),
            changes_in_chunk(changes@),
            heats_in_chunk(heated@),
        decreases fires@.len() - i,
    {
        let (x, y, z) = fires[i];
        assert(fires@[i as int] == (x, y, z));
        let ghost before = (changes@, heated@);
        fire_one_exec(chunk, heat, x, y, z, &mut changes, &mut heated);
        proof {
            assert(fires@.take(i + 1).drop_last() =~= fires@.take(i as int));
            lemma_fire_one_in_chunk(c0, heat@, x as int, y as int, z as int);
            lemma_concat_changes(before.0, fire_one(c0, heat@, x as int, y as int, z as int).0);
            lemma_concat_heats(before.1, fire_one(c0, heat@, x as int, y as int, z as int).1);
        }
        i = i + 1;
    }
    proof { assert(fires@.take(fires@.len() as int) =~= fires@); }
    let ghost plan = (changes@, heated@);
    let mut deltas: Vec<FireDelta> = Vec::new();
    let mut j: usize = 0;
    while j < changes.len()
        invariant
            chunk.wf(),
            chunk.position == c0.position,
            changes@ == plan.0,
            changes_in_chunk(plan.0),
            j <= plan.0.len(),
            chunk.cells() == apply_changes(c0.cells(), plan.0.take(j as int)),
            deltas@ == plan.0.take(j as int).map_values(|e: (usize, usize, usize, Block)| change_delta(e)),
            chunk.dirty == (c0.dirty || j > 0),
        decreases plan.0.len() - j,
    {
        let (x, y, z, nb) = changes[j];
        assert(plan.0[j as int] == (x, y, z, nb));
        chunk.set_block(x, y, z, nb);
        deltas.push(FireDelta { x, y, z, new_block: nb });
        proof {
            assert(plan.0.take(j + 1).drop_last() =~= plan.0.take(j as int));
            assert(plan.0.take(j + 1).map_values(|e: (usize, usize, usize, Block)| change_delta(e))
                =~= plan.0.take(j as int).map_values(|e: (usize, usize, usize, Block)| change_delta(e)).push(change_delta((x, y, z, nb))));
        }
        j = j + 1;
    }
    proof {
        assert(plan.0.take(plan.0.len() as int) =~= plan.0);
    }
    let ghost after = chunk.cells();
    let ghost d0 = deltas@;
    let mut k: usize = 0;
    while k < heated.len()
        invariant
            chunk.wf(),
            chunk.position == c0.position,
            heated@ == plan.1,
            heats_in_chunk(plan.1),
            k <= plan.1.len(),
            chunk.cells() == apply_heat(after, plan.1.take(k as int)).0,
            deltas@ == d0 + apply_heat(after, plan.1.take(k as int)).1,
            chunk.dirty == (c0.dirty || deltas@.len() > 0),
        decreases plan.1.len() - k,
    {
        let (x, y, z, temp) = heated[k];
        assert(plan.1[k as int] == (x, y, z, temp));
        proof { assert(plan.1.take(k + 1).drop_last() =~= plan.1.take(k as int)); }
        let block = chunk.get_block(x, y, z);
        if block.material != Material::Fire {
            let hb = Block { material: block.material, temperature: temp };
            chunk.set_block(x, y, z, hb);
            deltas.push(FireDelta { x, y, z, new_block: hb });
        }
        proof {
            assert(deltas@ =~= d0 + apply_heat(after, plan.1.take(k + 1)).1);
        }
        k = k + 1;
    }
    proof {
        assert(plan.1.take(plan.1.len() as int) =~= plan.1);
        assert forall|x: int, y: int, z: int| spec_in_bounds(x, y, z) && c0.material_at(x, y, z) == Material::Fire
            implies chunk.cells()[spec_chunk_index(x, y, z)] == #[trigger] fire_own(c0, heat@, x, y, z) by {
            lemma_fire_fate(c0, heat@, x, y, z);
        }
        assert forall|x: int, y: int, z: int| spec_in_bounds(x, y, z) && #[trigger] c0.material_at(x, y, z) != Material::Fire
            implies chunk.cells()[spec_chunk_index(x, y, z)].material == c0.material_at(x, y, z)
                || (chunk.cells()[spec_chunk_index(x, y, z)] == (Block { material: Material::Fire, temperature: FIRE_INITIAL_LIFETIME_BITS })
                    && material_props(c0.material_at(x, y, z)).flammable) by {
            lemma_fire_spread(c0, heat@, x, y, z);
        }
    }
    deltas
}

/// What becomes of a fire: next to water, or with its lifetime spent, it
/// turns to Air; otherwise it burns on with its next lifetime.
pub open spec fn fire_own(c: Chunk, t: Seq<FireHeat>, x: int, y: int, z: int) -> Block {
    if touches_water_spec(c, x, y, z) || t[spec_chunk_index(x, y, z)].burnt_out {
        Block::air_spec()
    } else {
        Block { material: Material::Fire, temperature: t[spec_chunk_index(x, y, z)].next_lifetime }
    }
}

pub open spec fn at(e: (usize, usize, usize, Block)) -> int {
    spec_chunk_index(e.0 as int, e.1 as int, e.2 as int)
}

proof fn lemma_index_injective(a: (int, int, int), b: (int, int, int))
    requires
        spec_in_bounds(a.0, a.1, a.2),
        spec_in_bounds(b.0, b.1, b.2),
        spec_chunk_index(a.0, a.1, a.2) == spec_chunk_index(b.0, b.1, b.2),
    ensures
        a == b,
{
}

proof fn lemma_spread_flammable(c: Chunk, sx: int, sy: int, sz: int, dirs: Seq<(i32, i32, i32)>, p: u32, lt: u32, n: int)
    ensures
        forall|i: int| 0 <= i < spread_spec(c, sx, sy, sz, dirs, p, lt, n).len() ==> {
            let e = #[trigger] spread_spec(c, sx, sy, sz, dirs, p, lt, n)[i];
            &&& material_props(c.material_at(e.0 as int, e.1 as int, e.2 as int)).flammable
            &&& e.3 == Block { material: Material::Fire, temperature: FIRE_INITIAL_LIFETIME_BITS }
        },
    decreases n,
{
    if n > 0 {
        lemma_spread_flammable(c, sx, sy, sz, dirs, p, lt, n - 1);
        let prev = spread_spec(c, sx, sy, sz, dirs, p, lt, n - 1);
        let cur = spread_spec(c, sx, sy, sz, dirs, p, lt, n);
        assert forall|i: int| 0 <= i < cur.len() implies {
            let e = #[trigger] cur[i];
            &&& material_props(c.material_at(e.0 as int, e.1 as int, e.2 as int)).flammable
            &&& e.3 == Block { material: Material::Fire, temperature: FIRE_INITIAL_LIFETIME_BITS }
        } by {
            if i < prev.len() {
                assert(cur[i] == prev[i]);
            }
        }
    }
}

/// Every planned change at a voxel that holds a fire is that fire's own.
pub open spec fn own_changes_at_fires(c: Chunk, t: Seq<FireHeat>, ch: Seq<(usize, usize, usize, Block)>) -> bool {
    forall|i: int| 0 <= i < ch.len() && c.material_at(ch[i].0 as int, ch[i].1 as int, ch[i].2 as int) == Material::Fire
        ==> (#[trigger] ch[i]).3 == fire_own(c, t, ch[i].0 as int, ch[i].1 as int, ch[i].2 as int)
}

proof fn lemma_fire_one_own(c: Chunk, t: Seq<FireHeat>, x: int, y: int, z: int)
    requires
        spec_in_bounds(x, y, z),
    ensures
        own_changes_at_fires(c, t, fire_one(c, t, x, y, z).0),
        c.material_at(x, y, z) == Material::Fire ==> fire_one(c, t, x, y, z).0.len() > 0
            && fire_one(c, t, x, y, z).0[0] == (x as usize, y as usize, z as usize, fire_own(c, t, x, y, z)),
        forall|i: int| 0 <= i < fire_one(c, t, x, y, z).1.len() ==> {
            let h = #[trigger] fire_one(c, t, x, y, z).1[i];
            c.material_at(h.0 as int, h.1 as int, h.2 as int) != Material::Fire
        },
{
    let o = fire_one(c, t, x, y, z);
    if c.material_at(x, y, z) == Material::Fire && !touches_water_spec(c, x, y, z) && !t[spec_chunk_index(x, y, z)].burnt_out {
        let lt = t[spec_chunk_index(x, y, z)].next_lifetime;
        let s0 = seq![(x as usize, y as usize, z as usize, Block { material: Material::Fire, temperature: lt })];
        let s1 = spread_spec(c, x, y, z, up_dirs(), UP_SPREAD_PROB, lt, 1);
        let s2 = spread_spec(c, x, y, z, diag_up_dirs(), DIAG_UP_SPREAD_PROB, lt, 4);
        let s3 = spread_spec(c, x, y, z, horizontal_dirs(), HORIZ_SPREAD_PROB, lt, 4);
        lemma_spread_flammable(c, x, y, z, up_dirs(), UP_SPREAD_PROB, lt, 1);
        lemma_spread_flammable(c, x, y, z, diag_up_dirs(), DIAG_UP_SPREAD_PROB, lt, 4);
        lemma_spread_flammable(c, x, y, z, horizontal_dirs(), HORIZ_SPREAD_PROB, lt, 4);
        assert(o.0 == s0 + s1 + s2 + s3);
        assert forall|i: int| 0 <= i < o.0.len() && c.material_at(o.0[i].0 as int, o.0[i].1 as int, o.0[i].2 as int) == Material::Fire
            implies (#[trigger] o.0[i]).3 == fire_own(c, t, o.0[i].0 as int, o.0[i].1 as int, o.0[i].2 as int) by {
            if i >= 1 {
                if i < 1 + s1.len() {
                    assert(o.0[i] == s1[i - 1]);
                } else if i < 1 + s1.len() + s2.len() {
                    assert(o.0[i] == s2[i - 1 - s1.len()]);
                } else {
                    assert(o.0[i] == s3[i - 1 - s1.len() - s2.len()]);
                }
            }
        }
        let ht = heat_targets_spec(c, x, y, z, 6);
        lemma_heat_targets_not_fire(c, x, y, z, 6);
        assert forall|i: int| 0 <= i < o.1.len() implies {
            let h = #[trigger] o.1[i];
            c.material_at(h.0 as int, h.1 as int, h.2 as int) != Material::Fire
        } by {
            assert(o.1[i].0 == ht[i].0 && o.1[i].1 == ht[i].1 && o.1[i].2 == ht[i].2);
        }
    }
}

proof fn lemma_heat_targets_not_fire(c: Chunk, x: int, y: int, z: int, n: int)
    ensures
        forall|i: int| 0 <= i < heat_targets_spec(c, x, y, z, n).len() ==> {
            let h = #[trigger] heat_targets_spec(c, x, y, z, n)[i];
            c.material_at(h.0 as int, h.1 as int, h.2 as int) != Material::Fire
        },
    decreases n,
{
    if n > 0 {
        lemma_heat_targets_not_fire(c, x, y, z, n - 1);
        let prev = heat_targets_spec(c, x, y, z, n - 1);
        let cur = heat_targets_spec(c, x, y, z, n);
        assert forall|i: int| 0 <= i < cur.len() implies {
            let h = #[trigger] cur[i];
            c.material_at(h.0 as int, h.1 as int, h.2 as int) != Material::Fire
        } by {
            if i < prev.len() {
                assert(cur[i] == prev[i]);
            }
        }
    }
}

/// The plan of fires `fs`: their changes at fire voxels are the fires' own,
/// each listed fire has its own change in the plan, and nothing is heated
/// that holds a fire.
proof fn lemma_plan_own(c: Chunk, t: Seq<FireHeat>, fs: Seq<(usize, usize, usize)>)
    requires
        forall|j: int| 0 <= j < fs.len() ==> {
            let f = #[trigger] fs[j];
            f.0 < 16 && f.1 < 16 && f.2 < 16
        },
    ensures
        own_changes_at_fires(c, t, fire_plan(c, t, fs).0),
        forall|j: int| 0 <= j < fs.len() && c.material_at(fs[j].0 as int, fs[j].1 as int, fs[j].2 as int) == Material::Fire
            ==> exists|i: int| 0 <= i < fire_plan(c, t, fs).0.len() && #[trigger] fire_plan(c, t, fs).0[i]
                == (fs[j].0, fs[j].1, fs[j].2, fire_own(c, t, fs[j].0 as int, fs[j].1 as int, fs[j].2 as int)),
        forall|i: int| 0 <= i < fire_plan(c, t, fs).1.len() ==> {
            let h = #[trigger] fire_plan(c, t, fs).1[i];
            c.material_at(h.0 as int, h.1 as int, h.2 as int) != Material::Fire
        },
    decreases fs.len(),
{
    if fs.len() > 0 {
        let p = fire_plan(c, t, fs.drop_last());
        let f = fs.last();
        let o = fire_one(c, t, f.0 as int, f.1 as int, f.2 as int);
        let cur = fire_plan(c, t, fs);
        lemma_plan_own(c, t, fs.drop_last());
        assert(fs[fs.len() - 1] == f);
        lemma_fire_one_own(c, t, f.0 as int, f.1 as int, f.2 as int);
        assert(cur.0 == p.0 + o.0);
        assert(cur.1 == p.1 + o.1);
        assert forall|i: int| 0 <= i < cur.0.len() && c.material_at(cur.0[i].0 as int, cur.0[i].1 as int, cur.0[i].2 as int) == Material::Fire
            implies (#[trigger] cur.0[i]).3 == fire_own(c, t, cur.0[i].0 as int, cur.0[i].1 as int, cur.0[i].2 as int) by {
            if i < p.0.len() {
                assert(cur.0[i] == p.0[i]);
            } else {
                assert(cur.0[i] == o.0[i - p.0.len()]);
            }
        }
        assert forall|j: int| 0 <= j < fs.len() && c.material_at(fs[j].0 as int, fs[j].1 as int, fs[j].2 as int) == Material::Fire
            implies exists|i: int| 0 <= i < cur.0.len() && #[trigger] cur.0[i]
                == (fs[j].0, fs[j].1, fs[j].2, fire_own(c, t, fs[j].0 as int, fs[j].1 as int, fs[j].2 as int)) by {
            if j < fs.len() - 1 {
                assert(fs.drop_last()[j] == fs[j]);
                let i = choose|i: int| 0 <= i < p.0.len() && #[trigger] p.0[i]
                    == (fs[j].0, fs[j].1, fs[j].2, fire_own(c, t, fs[j].0 as int, fs[j].1 as int, fs[j].2 as int));
                assert(cur.0[i] == p.0[i]);
            } else {
                assert(cur.0[p.0.len() as int] == o.0[0]);
            }
        }
        assert forall|i: int| 0 <= i < cur.1.len() implies {
            let h = #[trigger] cur.1[i];
            c.material_at(h.0 as int, h.1 as int, h.2 as int) != Material::Fire
        } by {
            if i < p.1.len() {
                assert(cur.1[i] == p.1[i]);
            } else {
                assert(cur.1[i] == o.1[i - p.1.len()]);
            }
        }
    }
}

/// Writing changes in order leaves at voxel `k` the block that every change
/// there agrees on, once there is one.
proof fn lemma_apply_changes_at(cells: Seq<Block>, ch: Seq<(usize, usize, usize, Block)>, k: int, b: Block)
    requires
        0 <= k < cells.len(),
        changes_in_chunk(ch),
        cells.len() == 4096,
        forall|i: int| 0 <= i < ch.len() && at(ch[i]) == k ==> (#[trigger] ch[i]).3 == b,
    ensures
        apply_changes(cells, ch).len() == 4096,
        (exists|i: int| 0 <= i < ch.len() && at(#[trigger] ch[i]) == k) ==> apply_changes(cells, ch)[k] == b,
        !(exists|i: int| 0 <= i < ch.len() && at(#[trigger] ch[i]) == k) ==> apply_changes(cells, ch)[k] == cells[k],
    decreases ch.len(),
{
    if ch.len() > 0 {
        let prev = ch.drop_last();
        assert forall|i: int| 0 <= i < prev.len() implies (#[trigger] prev[i]).0 < 16 && prev[i].1 < 16 && prev[i].2 < 16 by {
            assert(prev[i] == ch[i]);
        }
        assert forall|i: int| 0 <= i < prev.len() && at(prev[i]) == k implies (#[trigger] prev[i]).3 == b by {
            assert(prev[i] == ch[i]);
        }
        lemma_apply_changes_at(cells, prev, k, b);
        let e = ch.last();
        assert(ch[ch.len() - 1] == e);
        if (exists|i: int| 0 <= i < ch.len() && at(#[trigger] ch[i]) == k) && at(e) != k {
            let i = choose|i: int| 0 <= i < ch.len() && at(#[trigger] ch[i]) == k;
            assert(prev[i] == ch[i]);
        }
        if exists|i: int| 0 <= i < prev.len() && at(#[trigger] prev[i]) == k {
            let i = choose|i: int| 0 <= i < prev.len() && at(#[trigger] prev[i]) == k;
            assert(prev[i] == ch[i]);
        }
    }
}

/// Heating in order leaves voxel `k` alone when no heating is planned
/// there.
proof fn lemma_apply_heat_at(cells: Seq<Block>, hs: Seq<(usize, usize, usize, u32)>, k: int)
    requires
        0 <= k < cells.len(),
        cells.len() == 4096,
        heats_in_chunk(hs),
        forall|i: int| 0 <= i < hs.len() ==> spec_chunk_index((#[trigger] hs[i]).0 as int, hs[i].1 as int, hs[i].2 as int) != k,
    ensures
        apply_heat(cells, hs).0.len() == cells.len(),
        apply_heat(cells, hs).0[k] == cells[k],
    decreases hs.len(),
{
    if hs.len() > 0 {
        let prev = hs.drop_last();
        assert forall|i: int| 0 <= i < prev.len() implies spec_chunk_index((#[trigger] prev[i]).0 as int, prev[i].1 as int, prev[i].2 as int) != k by {
            assert(prev[i] == hs[i]);
        }
        assert forall|i: int| 0 <= i < prev.len() implies (#[trigger] prev[i]).0 < 16 && prev[i].1 < 16 && prev[i].2 < 16 by {
            assert(prev[i] == hs[i]);
        }
        lemma_apply_heat_at(cells, prev, k);
        assert(hs[hs.len() - 1] == hs.last());
    }
}

proof fn lemma_fires_listed(c: Chunk, n: int, x: int, y: int, z: int)
    requires
        0 <= n <= 4096,
        spec_in_bounds(x, y, z),
        x + z * 16 + y * 256 < n,
        c.material_at(x, y, z) == Material::Fire,
    ensures
        exists|j: int| 0 <= j < fires_in(c, n).len() && #[trigger] fires_in(c, n)[j] == (x as usize, y as usize, z as usize),
    decreases n,
{
    let k = n - 1;
    let prev = fires_in(c, k);
    if x + z * 16 + y * 256 < k {
        lemma_fires_listed(c, k, x, y, z);
        let j = choose|j: int| 0 <= j < prev.len() && #[trigger] prev[j] == (x as usize, y as usize, z as usize);
        assert(fires_in(c, n)[j] == prev[j]);
    } else {
        assert(scan_pos(k) == (x, y, z));
        assert(fires_in(c, n)[prev.len() as int] == (x as usize, y as usize, z as usize));
    }
}

/// What a fire step does to each fire: next to water, or with its lifetime
/// spent, the fire turns to Air; otherwise it burns on with its next
/// lifetime. No other fire's spreading or heating reaches it.
pub proof fn lemma_fire_fate(c: Chunk, t: Seq<FireHeat>, x: int, y: int, z: int)
    requires
        c.wf(),
        spec_in_bounds(x, y, z),
        c.material_at(x, y, z) == Material::Fire,
    ensures
        ({
            let plan = fire_plan(c, t, fires_in(c, 4096));
            apply_heat(apply_changes(c.cells(), plan.0), plan.1).0[spec_chunk_index(x, y, z)] == fire_own(c, t, x, y, z)
        }),
{
    let fs = fires_in(c, 4096);
    let plan = fire_plan(c, t, fs);
    let k = spec_chunk_index(x, y, z);
    let own = fire_own(c, t, x, y, z);
    lemma_fires_in_chunk(c, 4096);
    lemma_plan_own(c, t, fs);
    lemma_fires_listed(c, 4096, x, y, z);
    let j = choose|j: int| 0 <= j < fs.len() && #[trigger] fs[j] == (x as usize, y as usize, z as usize);
    assert(c.material_at(fs[j].0 as int, fs[j].1 as int, fs[j].2 as int) == Material::Fire);
    let i0 = choose|i: int| 0 <= i < plan.0.len() && #[trigger] plan.0[i]
        == (fs[j].0, fs[j].1, fs[j].2, fire_own(c, t, fs[j].0 as int, fs[j].1 as int, fs[j].2 as int));
    lemma_plan_in_chunk(c, t, fs);
    assert forall|i: int| 0 <= i < plan.0.len() && at(plan.0[i]) == k implies (#[trigger] plan.0[i]).3 == own by {
        lemma_index_injective((plan.0[i].0 as int, plan.0[i].1 as int, plan.0[i].2 as int), (x, y, z));
    }
    assert(at(plan.0[i0]) == k);
    lemma_apply_changes_at(c.cells(), plan.0, k, own);
    assert forall|i: int| 0 <= i < plan.1.len() implies spec_chunk_index((#[trigger] plan.1[i]).0 as int, plan.1[i].1 as int, plan.1[i].2 as int) != k by {
        if spec_chunk_index(plan.1[i].0 as int, plan.1[i].1 as int, plan.1[i].2 as int) == k {
            lemma_index_injective((plan.1[i].0 as int, plan.1[i].1 as int, plan.1[i].2 as int), (x, y, z));
        }
    }
    lemma_apply_heat_at(apply_changes(c.cells(), plan.0), plan.1, k);
}

/// Every planned change at a voxel that holds no fire lights it as a new
/// fire, and only a flammable voxel is lit.
pub open spec fn lights_only_flammable(c: Chunk, ch: Seq<(usize, usize, usize, Block)>) -> bool {
    forall|i: int| 0 <= i < ch.len() && c.material_at(ch[i].0 as int, ch[i].1 as int, ch[i].2 as int) != Material::Fire
        ==> (#[trigger] ch[i]).3 == (Block { material: Material::Fire, temperature: FIRE_INITIAL_LIFETIME_BITS })
            && material_props(c.material_at(ch[i].0 as int, ch[i].1 as int, ch[i].2 as int)).flammable
}

proof fn lemma_plan_lights(c: Chunk, t: Seq<FireHeat>, fs: Seq<(usize, usize, usize)>)
    ensures
        lights_only_flammable(c, fire_plan(c, t, fs).0),
    decreases fs.len(),
{
    if fs.len() > 0 {
        let p = fire_plan(c, t, fs.drop_last());
        let f = fs.last();
        let (x, y, z) = (f.0 as int, f.1 as int, f.2 as int);
        let o = fire_one(c, t, x, y, z);
        let cur = fire_plan(c, t, fs);
        lemma_plan_lights(c, t, fs.drop_last());
        assert(lights_only_flammable(c, o.0)) by {
            if c.material_at(x, y, z) == Material::Fire && !touches_water_spec(c, x, y, z) && !t[spec_chunk_index(x, y, z)].burnt_out {
                let lt = t[spec_chunk_index(x, y, z)].next_lifetime;
                let s0 = seq![(x as usize, y as usize, z as usize, Block { material: Material::Fire, temperature: lt })];
                let s1 = spread_spec(c, x, y, z, up_dirs(), UP_SPREAD_PROB, lt, 1);
                let s2 = spread_spec(c, x, y, z, diag_up_dirs(), DIAG_UP_SPREAD_PROB, lt, 4);
                let s3 = spread_spec(c, x, y, z, horizontal_dirs(), HORIZ_SPREAD_PROB, lt, 4);
                lemma_spread_flammable(c, x, y, z, up_dirs(), UP_SPREAD_PROB, lt, 1);
                lemma_spread_flammable(c, x, y, z, diag_up_dirs(), DIAG_UP_SPREAD_PROB, lt, 4);
                lemma_spread_flammable(c, x, y, z, horizontal_dirs(), HORIZ_SPREAD_PROB, lt, 4);
                assert(o.0 == s0 + s1 + s2 + s3);
                assert forall|i: int| 0 <= i < o.0.len() && c.material_at(o.0[i].0 as int, o.0[i].1 as int, o.0[i].2 as int) != Material::Fire
                    implies (#[trigger] o.0[i]).3 == (Block { material: Material::Fire, temperature: FIRE_INITIAL_LIFETIME_BITS })
                        && material_props(c.material_at(o.0[i].0 as int, o.0[i].1 as int, o.0[i].2 as int)).flammable by {
                    if i >= 1 {
                        if i < 1 + s1.len() {
                            assert(o.0[i] == s1[i - 1]);
                        } else if i < 1 + s1.len() + s2.len() {
                            assert(o.0[i] == s2[i - 1 - s1.len()]);
                        } else {
                            assert(o.0[i] == s3[i - 1 - s1.len() - s2.len()]);
                        }
                    }
                }
            }
        }
        assert(cur.0 == p.0 + o.0);
        assert forall|i: int| 0 <= i < cur.0.len() && c.material_at(cur.0[i].0 as int, cur.0[i].1 as int, cur.0[i].2 as int) != Material::Fire
            implies (#[trigger] cur.0[i]).3 == (Block { material: Material::Fire, temperature: FIRE_INITIAL_LIFETIME_BITS })
                && material_props(c.material_at(cur.0[i].0 as int, cur.0[i].1 as int, cur.0[i].2 as int)).flammable by {
            if i < p.0.len() {
                assert(cur.0[i] == p.0[i]);
            } else {
                assert(cur.0[i] == o.0[i - p.0.len()]);
            }
        }
    }
}

/// Heating keeps every voxel's material, and leaves a fire untouched.
proof fn lemma_apply_heat_material(cells: Seq<Block>, hs: Seq<(usize, usize, usize, u32)>, k: int)
    requires
        0 <= k < cells.len(),
        cells.len() == 4096,
        heats_in_chunk(hs),
    ensures
        apply_heat(cells, hs).0.len() == 4096,
        apply_heat(cells, hs).0[k].material == cells[k].material,
        cells[k].material == Material::Fire ==> apply_heat(cells, hs).0[k] == cells[k],
    decreases hs.len(),
{
    if hs.len() > 0 {
        let prev = hs.drop_last();
        assert forall|i: int| 0 <= i < prev.len() implies (#[trigger] prev[i]).0 < 16 && prev[i].1 < 16 && prev[i].2 < 16 by {
            assert(prev[i] == hs[i]);
        }
        lemma_apply_heat_material(cells, prev, k);
        assert(hs[hs.len() - 1] == hs.last());
    }
}

/// What a fire step does to a voxel that holds no fire: it keeps its
/// material, unless a fire's spreading reached it, and then it becomes a
/// new fire with the initial lifetime; only flammable voxels are reached.
pub proof fn lemma_fire_spread(c: Chunk, t: Seq<FireHeat>, x: int, y: int, z: int)
    requires
        c.wf(),
        spec_in_bounds(x, y, z),
        c.material_at(x, y, z) != Material::Fire,
    ensures
        ({
            let plan = fire_plan(c, t, fires_in(c, 4096));
            let fin = apply_heat(apply_changes(c.cells(), plan.0), plan.1).0;
            let lit = exists|i: int| 0 <= i < plan.0.len() && at(#[trigger] plan.0[i]) == spec_chunk_index(x, y, z);
            &&& fin[spec_chunk_index(x, y, z)].material == if lit { Material::Fire } else { c.material_at(x, y, z) }
            &&& lit ==> fin[spec_chunk_index(x, y, z)] == (Block { material: Material::Fire, temperature: FIRE_INITIAL_LIFETIME_BITS })
                && material_props(c.material_at(x, y, z)).flammable
        }),
{
    let fs = fires_in(c, 4096);
    let plan = fire_plan(c, t, fs);
    let k = spec_chunk_index(x, y, z);
    let lit_block = Block { material: Material::Fire, temperature: FIRE_INITIAL_LIFETIME_BITS };
    lemma_fires_in_chunk(c, 4096);
    lemma_plan_in_chunk(c, t, fs);
    lemma_plan_lights(c, t, fs);
    assert forall|i: int| 0 <= i < plan.0.len() && at(plan.0[i]) == k implies (#[trigger] plan.0[i]).3 == lit_block
        && material_props(c.material_at(x, y, z)).flammable by {
        lemma_index_injective((plan.0[i].0 as int, plan.0[i].1 as int, plan.0[i].2 as int), (x, y, z));
    }
    lemma_apply_changes_at(c.cells(), plan.0, k, lit_block);
    let after = apply_changes(c.cells(), plan.0);
    lemma_apply_heat_material(after, plan.1, k);
    if exists|i: int| 0 <= i < plan.0.len() && at(#[trigger] plan.0[i]) == k {
        let i = choose|i: int| 0 <= i < plan.0.len() && at(#[trigger] plan.0[i]) == k;
        assert(plan.0[i].3 == lit_block);
    }
}

proof fn lemma_plan_in_chunk(c: Chunk, t: Seq<FireHeat>, fs: Seq<(usize, usize, usize)>)
    requires
        forall|j: int| 0 <= j < fs.len() ==> {
            let f = #[trigger] fs[j];
            f.0 < 16 && f.1 < 16 && f.2 < 16
        },
    ensures
        changes_in_chunk(fire_plan(c, t, fs).0),
        heats_in_chunk(fire_plan(c, t, fs).1),
    decreases fs.len(),
{
    if fs.len() > 0 {
        let p = fire_plan(c, t, fs.drop_last());
        let f = fs.last();
        assert(fs[fs.len() - 1] == f);
        lemma_plan_in_chunk(c, t, fs.drop_last());
        lemma_fire_one_in_chunk(c, t, f.0 as int, f.1 as int, f.2 as int);
        lemma_concat_changes(p.0, fire_one(c, t, f.0 as int, f.1 as int, f.2 as int).0);
        lemma_concat_heats(p.1, fire_one(c, t, f.0 as int, f.1 as int, f.2 as int).1);
    }
}

/// Water beside a fire, stated face by face: one of the six voxels that
/// share a face with (x, y, z) inside the chunk holds Water.
proof fn lemma_touches_water_faces(c: Chunk, x: int, y: int, z: int)
    requires
        spec_in_bounds(x, y, z),
    ensures
        touches_water_spec(c, x, y, z) <==> {
            ||| x < 15 && c.material_at(x + 1, y, z) == Material::Water
            ||| x > 0 && c.material_at(x - 1, y, z) == Material::Water
            ||| y < 15 && c.material_at(x, y + 1, z) == Material::Water
            ||| y > 0 && c.material_at(x, y - 1, z) == Material::Water
            ||| z < 15 && c.material_at(x, y, z + 1) == Material::Water
            ||| z > 0 && c.material_at(x, y, z - 1) == Material::Water
        },
{
    if y < 15 && c.material_at(x, y + 1, z) == Material::Water {
        assert(c.material_at(x + neighbor_dir(0).0, y + neighbor_dir(0).1, z + neighbor_dir(0).2) == Material::Water);
    }
    if y > 0 && c.material_at(x, y - 1, z) == Material::Water {
        assert(c.material_at(x + neighbor_dir(1).0, y + neighbor_dir(1).1, z + neighbor_dir(1).2) == Material::Water);
    }
    if x > 0 && c.material_at(x - 1, y, z) == Material::Water {
        assert(c.material_at(x + neighbor_dir(2).0, y + neighbor_dir(2).1, z + neighbor_dir(2).2) == Material::Water);
    }
    if x < 15 && c.material_at(x + 1, y, z) == Material::Water {
        assert(c.material_at(x + neighbor_dir(3).0, y + neighbor_dir(3).1, z + neighbor_dir(3).2) == Material::Water);
    }
    if z > 0 && c.material_at(x, y, z - 1) == Material::Water {
        assert(c.material_at(x + neighbor_dir(4).0, y + neighbor_dir(4).1, z + neighbor_dir(4).2) == Material::Water);
    }
    if z < 15 && c.material_at(x, y, z + 1) == Material::Water {
        assert(c.material_at(x + neighbor_dir(5).0, y + neighbor_dir(5).1, z + neighbor_dir(5).2) == Material::Water);
    }
}

/// What a fire step does to a fire at (x, y, z), stated face by face: it
/// goes out (turns to Air) when Water lies in one of the six voxels that
/// share a face with it, or when its lifetime is spent; otherwise it stays
/// Fire with its next lifetime.
pub proof fn lemma_fire_doused_by_water(c: Chunk, t: Seq<FireHeat>, x: int, y: int, z: int)
    requires
        c.wf(),
        spec_in_bounds(x, y, z),
        c.material_at(x, y, z) == Material::Fire,
    ensures
        ({
            let plan = fire_plan(c, t, fires_in(c, 4096));
            let after = apply_heat(apply_changes(c.cells(), plan.0), plan.1).0[x + y * 16 + z * 256];
            let wet = {
                ||| x < 15 && c.material_at(x + 1, y, z) == Material::Water
                ||| x > 0 && c.material_at(x - 1, y, z) == Material::Water
                ||| y < 15 && c.material_at(x, y + 1, z) == Material::Water
                ||| y > 0 && c.material_at(x, y - 1, z) == Material::Water
                ||| z < 15 && c.material_at(x, y, z + 1) == Material::Water
                ||| z > 0 && c.material_at(x, y, z - 1) == Material::Water
            };
            &&& wet || t[x + y * 16 + z * 256].burnt_out ==> after == Block::air_spec()
            &&& !wet && !t[x + y * 16 + z * 256].burnt_out ==> after == (Block {
                material: Material::Fire,
                temperature: t[x + y * 16 + z * 256].next_lifetime,
            })
        }),
{
    lemma_fire_fate(c, t, x, y, z);
    lemma_touches_water_faces(c, x, y, z);
}

/// A fire lies directly below (x, y, z), diagonally below it across one
/// face, or beside it: the places from which fire spreads to it.
pub open spec fn fire_below_or_beside(c: Chunk, x: int, y: int, z: int) -> bool {
    ||| y > 0 && c.material_at(x, y - 1, z) == Material::Fire
    ||| y > 0 && x < 15 && c.material_at(x + 1, y - 1, z) == Material::Fire
    ||| y > 0 && x > 0 && c.material_at(x - 1, y - 1, z) == Material::Fire
    ||| y > 0 && z < 15 && c.material_at(x, y - 1, z + 1) == Material::Fire
    ||| y > 0 && z > 0 && c.material_at(x, y - 1, z - 1) == Material::Fire
    ||| x < 15 && c.material_at(x + 1, y, z) == Material::Fire
    ||| x > 0 && c.material_at(x - 1, y, z) == Material::Fire
    ||| z < 15 && c.material_at(x, y, z + 1) == Material::Fire
    ||| z > 0 && c.material_at(x, y, z - 1) == Material::Fire
}

/// Fire spreads upwards, diagonally upwards or sideways by one voxel.
spec fn spread_dir_ok(d: (i32, i32, i32)) -> bool {
    ||| d == (0i32, 1i32, 0i32)
    ||| d == (-1i32, 1i32, 0i32) || d == (1i32, 1i32, 0i32) || d == (0i32, 1i32, -1i32) || d == (0i32, 1i32, 1i32)
    ||| d == (-1i32, 0i32, 0i32) || d == (1i32, 0i32, 0i32) || d == (0i32, 0i32, -1i32) || d == (0i32, 0i32, 1i32)
}

proof fn lemma_spread_sources(c: Chunk, sx: int, sy: int, sz: int, dirs: Seq<(i32, i32, i32)>, p: u32, lt: u32, n: int)
    requires
        spec_in_bounds(sx, sy, sz),
        c.material_at(sx, sy, sz) == Material::Fire,
        n <= dirs.len(),
        forall|j: int| 0 <= j < dirs.len() ==> spread_dir_ok(#[trigger] dirs[j]),
    ensures
        forall|i: int| 0 <= i < spread_spec(c, sx, sy, sz, dirs, p, lt, n).len() ==> {
            let e = #[trigger] spread_spec(c, sx, sy, sz, dirs, p, lt, n)[i];
            fire_below_or_beside(c, e.0 as int, e.1 as int, e.2 as int)
        },
    decreases n,
{
    if n > 0 {
        lemma_spread_sources(c, sx, sy, sz, dirs, p, lt, n - 1);
        let prev = spread_spec(c, sx, sy, sz, dirs, p, lt, n - 1);
        let cur = spread_spec(c, sx, sy, sz, dirs, p, lt, n);
        let d = dirs[n - 1];
        assert(spread_dir_ok(d));
        assert forall|i: int| 0 <= i < cur.len() implies {
            let e = #[trigger] cur[i];
            fire_below_or_beside(c, e.0 as int, e.1 as int, e.2 as int)
        } by {
            if i < prev.len() {
                assert(cur[i] == prev[i]);
            }
        }
    }
}

proof fn lemma_plan_sources(c: Chunk, t: Seq<FireHeat>, fs: Seq<(usize, usize, usize)>)
    requires
        forall|j: int| 0 <= j < fs.len() ==> {
            let f = #[trigger] fs[j];
            f.0 < 16 && f.1 < 16 && f.2 < 16
        },
    ensures
        forall|i: int| 0 <= i < fire_plan(c, t, fs).0.len() && c.material_at(
            fire_plan(c, t, fs).0[i].0 as int,
            fire_plan(c, t, fs).0[i].1 as int,
            fire_plan(c, t, fs).0[i].2 as int,
        ) != Material::Fire ==> {
            let e = #[trigger] fire_plan(c, t, fs).0[i];
            fire_below_or_beside(c, e.0 as int, e.1 as int, e.2 as int)
        },
    decreases fs.len(),
{
    if fs.len() > 0 {
        let p = fire_plan(c, t, fs.drop_last());
        let f = fs.last();
        assert(fs[fs.len() - 1] == f);
        let (x, y, z) = (f.0 as int, f.1 as int, f.2 as int);
        let o = fire_one(c, t, x, y, z);
        let cur = fire_plan(c, t, fs);
        assert forall|j: int| 0 <= j < fs.drop_last().len() implies {
            let g = #[trigger] fs.drop_last()[j];
            g.0 < 16 && g.1 < 16 && g.2 < 16
        } by {
            assert(fs.drop_last()[j] == fs[j]);
        }
        lemma_plan_sources(c, t, fs.drop_last());
        if c.material_at(x, y, z) == Material::Fire && !touches_water_spec(c, x, y, z) && !t[spec_chunk_index(x, y, z)].burnt_out {
            let lt = t[spec_chunk_index(x, y, z)].next_lifetime;
            let s0 = seq![(x as usize, y as usize, z as usize, Block { material: Material::Fire, temperature: lt })];
            let s1 = spread_spec(c, x, y, z, up_dirs(), UP_SPREAD_PROB, lt, 1);
            let s2 = spread_spec(c, x, y, z, diag_up_dirs(), DIAG_UP_SPREAD_PROB, lt, 4);
            let s3 = spread_spec(c, x, y, z, horizontal_dirs(), HORIZ_SPREAD_PROB, lt, 4);
            assert(forall|j: int| 0 <= j < up_dirs().len() ==> spread_dir_ok(#[trigger] up_dirs()[j]));
            assert forall|j: int| 0 <= j < diag_up_dirs().len() implies spread_dir_ok(#[trigger] diag_up_dirs()[j]) by {
                assert(diag_up_dirs()[0] == (-1i32, 1i32, 0i32));
                assert(diag_up_dirs()[1] == (1i32, 1i32, 0i32));
                assert(diag_up_dirs()[2] == (0i32, 1i32, -1i32));
                assert(diag_up_dirs()[3] == (0i32, 1i32, 1i32));
            }
            assert forall|j: int| 0 <= j < horizontal_dirs().len() implies spread_dir_ok(#[trigger] horizontal_dirs()[j]) by {
                assert(horizontal_dirs()[0] == (-1i32, 0i32, 0i32));
                assert(horizontal_dirs()[1] == (1i32, 0i32, 0i32));
                assert(horizontal_dirs()[2] == (0i32, 0i32, -1i32));
                assert(horizontal_dirs()[3] == (0i32, 0i32, 1i32));
            }
            lemma_spread_sources(c, x, y, z, up_dirs(), UP_SPREAD_PROB, lt, 1);
            lemma_spread_sources(c, x, y, z, diag_up_dirs(), DIAG_UP_SPREAD_PROB, lt, 4);
            lemma_spread_sources(c, x, y, z, horizontal_dirs(), HORIZ_SPREAD_PROB, lt, 4);
            assert(o.0 == s0 + s1 + s2 + s3);
            assert forall|i: int| 0 <= i < o.0.len() && c.material_at(o.0[i].0 as int, o.0[i].1 as int, o.0[i].2 as int) != Material::Fire
                implies {
                let e = #[trigger] o.0[i];
                fire_below_or_beside(c, e.0 as int, e.1 as int, e.2 as int)
            } by {
                if i >= 1 {
                    if i < 1 + s1.len() {
                        assert(o.0[i] == s1[i - 1]);
                    } else if i < 1 + s1.len() + s2.len() {
                        assert(o.0[i] == s2[i - 1 - s1.len()]);
                    } else {
                        assert(o.0[i] == s3[i - 1 - s1.len() - s2.len()]);
                    }
                }
            }
        }
        assert(cur.0 == p.0 + o.0);
        assert forall|i: int| 0 <= i < cur.0.len() && c.material_at(cur.0[i].0 as int, cur.0[i].1 as int, cur.0[i].2 as int) != Material::Fire
            implies {
            let e = #[trigger] cur.0[i];
            fire_below_or_beside(c, e.0 as int, e.1 as int, e.2 as int)
        } by {
            if i < p.0.len() {
                assert(cur.0[i] == p.0[i]);
            } else {
                assert(cur.0[i] == o.0[i - p.0.len()]);
            }
        }
    }
}

/// Fire spreads only upwards, diagonally upwards and sideways: a voxel that
/// was not burning burns after a fire step only if its material burns and a
/// fire lay directly below it, diagonally below it across one face, or
/// beside it.
pub proof fn lemma_fire_spreads_from_below_or_beside(c: Chunk, t: Seq<FireHeat>, x: int, y: int, z: int)
    requires
        c.wf(),
        spec_in_bounds(x, y, z),
        c.material_at(x, y, z) != Material::Fire,
    ensures
        ({
            let plan = fire_plan(c, t, fires_in(c, 4096));
            let after = apply_heat(apply_changes(c.cells(), plan.0), plan.1).0[x + y * 16 + z * 256];
            after.material == Material::Fire ==> material_props(c.material_at(x, y, z)).flammable
                && fire_below_or_beside(c, x, y, z)
        }),
{
    let fs = fires_in(c, 4096);
    let plan = fire_plan(c, t, fs);
    let k = spec_chunk_index(x, y, z);
    lemma_fire_spread(c, t, x, y, z);
    lemma_fires_in_chunk(c, 4096);
    lemma_plan_in_chunk(c, t, fs);
    lemma_plan_sources(c, t, fs);
    if exists|i: int| 0 <= i < plan.0.len() && at(#[trigger] plan.0[i]) == k {
        let i = choose|i: int| 0 <= i < plan.0.len() && at(#[trigger] plan.0[i]) == k;
        lemma_index_injective((plan.0[i].0 as int, plan.0[i].1 as int, plan.0[i].2 as int), (x, y, z));
    }
}

/// Direction `i` from (x, y, z) leads to a voxel of the chunk that is
/// neither fire nor liquid, and `e` is that voxel with its flag.
pub open spec fn heat_hit(c: Chunk, x: int, y: int, z: int, i: int, e: (usize, usize, usize, bool)) -> bool {
    let d = neighbor_dir(i);
    let (nx, ny, nz) = (x + d.0, y + d.1, z + d.2);
    &&& spec_in_bounds(nx, ny, nz)
    &&& c.material_at(nx, ny, nz) != Material::Fire
    &&& !spec_is_liquid(c.material_at(nx, ny, nz))
    &&& e == (nx as usize, ny as usize, nz as usize, d.1 == 1)
}

proof fn lemma_heat_members(c: Chunk, x: int, y: int, z: int, n: int)
    requires
        0 <= n <= 6,
    ensures
        forall|e: (usize, usize, usize, bool)| #[trigger] heat_targets_spec(c, x, y, z, n).contains(e) <==> exists|i: int| 0 <= i < n
            && #[trigger] heat_hit(c, x, y, z, i, e),
    decreases n,
{
    if n > 0 {
        lemma_heat_members(c, x, y, z, n - 1);
        let prev = heat_targets_spec(c, x, y, z, n - 1);
        let cur = heat_targets_spec(c, x, y, z, n);
        let d = neighbor_dir(n - 1);
        let (nx, ny, nz) = (x + d.0, y + d.1, z + d.2);
        let hit = spec_in_bounds(nx, ny, nz) && c.material_at(nx, ny, nz) != Material::Fire && !spec_is_liquid(c.material_at(nx, ny, nz));
        let q = (nx as usize, ny as usize, nz as usize, d.1 == 1);
        if hit {
            assert(cur == prev.push(q));
        } else {
            assert(cur == prev);
        }
        assert forall|e: (usize, usize, usize, bool)| #[trigger] cur.contains(e) <==> exists|i: int| 0 <= i < n
            && #[trigger] heat_hit(c, x, y, z, i, e) by {
            if cur.contains(e) {
                let j = choose|j: int| 0 <= j < cur.len() && cur[j] == e;
                if j < prev.len() {
                    assert(prev[j] == e);
                    assert(prev.contains(e));
                    let i = choose|i: int| 0 <= i < n - 1 && #[trigger] heat_hit(c, x, y, z, i, e);
                    assert(heat_hit(c, x, y, z, i, e));
                } else {
                    assert(heat_hit(c, x, y, z, n - 1, e));
                }
            }
            if exists|i: int| 0 <= i < n && #[trigger] heat_hit(c, x, y, z, i, e) {
                let i = choose|i: int| 0 <= i < n && #[trigger] heat_hit(c, x, y, z, i, e);
                if i < n - 1 {
                    assert(prev.contains(e));
                    let j = choose|j: int| 0 <= j < prev.len() && prev[j] == e;
                    assert(cur[j] == e);
                } else {
                    assert(cur[cur.len() - 1] == e);
                }
            }
        }
    }
}

/// The voxels a fire at (x, y, z) heats: exactly those of the chunk that
/// share a face with it and hold neither fire nor liquid, each flagged
/// exactly when it lies directly above the fire.
pub proof fn lemma_heat_targets_faces(c: Chunk, x: int, y: int, z: int, e: (usize, usize, usize, bool))
    requires
        spec_in_bounds(x, y, z),
    ensures
        ({
            let (a, b, d) = (e.0 as int, e.1 as int, e.2 as int);
            let dist = (if a > x { a - x } else { x - a }) + (if b > y { b - y } else { y - b }) + (if d > z { d - z } else { z - d });
            heat_targets_spec(c, x, y, z, 6).contains(e) <==> {
                &&& a < 16 && b < 16 && d < 16
                &&& dist == 1
                &&& c.material_at(a, b, d) != Material::Fire
                &&& !(c.material_at(a, b, d) is Water || c.material_at(a, b, d) is Lava)
                &&& e.3 == (b == y + 1)
            }
        }),
{
    lemma_heat_members(c, x, y, z, 6);
    let (a, b, d) = (e.0 as int, e.1 as int, e.2 as int);
    let dist = (if a > x { a - x } else { x - a }) + (if b > y { b - y } else { y - b }) + (if d > z { d - z } else { z - d });
    if a < 16 && b < 16 && d < 16 && dist == 1 && c.material_at(a, b, d) != Material::Fire
        && !(c.material_at(a, b, d) is Water || c.material_at(a, b, d) is Lava) && e.3 == (b == y + 1) {
        if b == y + 1 {
            assert(heat_hit(c, x, y, z, 0, e));
        } else if b == y - 1 {
            assert(heat_hit(c, x, y, z, 1, e));
        } else if a == x - 1 {
            assert(heat_hit(c, x, y, z, 2, e));
        } else if a == x + 1 {
            assert(heat_hit(c, x, y, z, 3, e));
        } else if d == z - 1 {
            assert(heat_hit(c, x, y, z, 4, e));
        } else {
            assert(heat_hit(c, x, y, z, 5, e));
        }
    }
}

} // verus!
