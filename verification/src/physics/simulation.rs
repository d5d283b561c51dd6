use std::collections::{HashMap, HashSet};
use vstd::prelude::*;

use crate::physics::material::{material_props, MaterialBehavior, MaterialProperties};
use crate::world::chunk::{
    in_chunk, key_of, key_view, lemma_key_view_insert_any, spec_chunk_index, spec_is_liquid, Block, Chunk,
    IVec3, Material, CHUNK_SIZE, CHUNK_VOLUME,
};

verus! {

/// A voxel that a step changed, with its new contents.
#[derive(Clone, Copy, Debug, PartialEq, Eq, Structural)]
pub struct BlockDelta {
    pub x: usize,
    pub y: usize,
    pub z: usize,
    pub new_block: Block,
}

// ---------------------------------------------------------------------------
// The rules, stated over the voxel sequence of a chunk.
// ---------------------------------------------------------------------------

pub open spec fn mat_at(c: Seq<Block>, x: int, y: int, z: int) -> Material {
    c[spec_chunk_index(x, y, z)].material
}

/// Replaces the material at a position, keeping its temperature.
pub open spec fn set_mat(c: Seq<Block>, x: int, y: int, z: int, m: Material) -> Seq<Block> {
    let i = spec_chunk_index(x, y, z);
    c.update(i, Block { material: m, temperature: c[i].temperature })
}

/// Moves `mat` from the source to the destination, leaving Air behind, and
/// marks the destination as processed.
pub open spec fn move_spec(
    c: Seq<Block>,
    p: Seq<bool>,
    sx: int, sy: int, sz: int,
    dx: int, dy: int, dz: int,
    mat: Material,
) -> (Seq<Block>, Seq<bool>, bool) {
    (set_mat(set_mat(c, dx, dy, dz, mat), sx, sy, sz, Material::Air),
     p.update(spec_chunk_index(dx, dy, dz), true), true)
}

/// Puts `a` at the destination and `b` at the source, and marks the
/// destination as processed.
pub open spec fn swap_spec(
    c: Seq<Block>,
    p: Seq<bool>,
    sx: int, sy: int, sz: int,
    dx: int, dy: int, dz: int,
    a: Material,
    b: Material,
) -> (Seq<Block>, Seq<bool>, bool) {
    (set_mat(set_mat(c, dx, dy, dz, a), sx, sy, sz, b),
     p.update(spec_chunk_index(dx, dy, dz), true), true)
}

/// The four horizontal directions, in the order the rules try them.
pub open spec fn dir(i: int) -> (int, int) {
    if i == 0 { (-1, 0) } else if i == 1 { (1, 0) } else if i == 2 { (0, -1) } else { (0, 1) }
}

pub open spec fn in_range(v: int) -> bool {
    0 <= v < 16
}

/// Whether `mover` may take the place of `target`: Air always, a different
/// liquid when `mover` is denser.
pub open spec fn can_displace_spec(mover: Material, target: Material, density: u32) -> bool {
    if target == Material::Air {
        true
    } else if target == mover {
        false
    } else {
        material_props(target).behavior is Liquid && density > material_props(target).density
    }
}

/// A falling solid sliding diagonally down, trying directions `i..4`.
pub open spec fn fall_diag(
    c: Seq<Block>, p: Seq<bool>, x: int, y: int, z: int, mat: Material, density: u32, i: int,
) -> (Seq<Block>, Seq<bool>, bool)
    decreases 4 - i,
{
    if i >= 4 || i < 0 {
        (c, p, false)
    } else {
        let nx = x + dir(i).0;
        let nz = z + dir(i).1;
        if in_range(nx) && in_range(nz) {
            let below = mat_at(c, nx, y - 1, nz);
            let level = mat_at(c, nx, y, nz);
            if (level == Material::Air || spec_is_liquid(level)) && can_displace_spec(mat, below, density) {
                if spec_is_liquid(below) {
                    swap_spec(c, p, x, y, z, nx, y - 1, nz, mat, below)
                } else {
                    move_spec(c, p, x, y, z, nx, y - 1, nz, mat)
                }
            } else {
                fall_diag(c, p, x, y, z, mat, density, i + 1)
            }
        } else {
            fall_diag(c, p, x, y, z, mat, density, i + 1)
        }
    }
}

/// Sand and other falling solids: straight down into Air, or swap with a
/// lighter liquid below, else diagonally down.
pub open spec fn fall_spec(c: Seq<Block>, p: Seq<bool>, x: int, y: int, z: int, density: u32) -> (Seq<Block>, Seq<bool>, bool) {
    let mat = mat_at(c, x, y, z);
    if y > 0 {
        let below = mat_at(c, x, y - 1, z);
        if below == Material::Air {
            move_spec(c, p, x, y, z, x, y - 1, z, mat)
        } else if spec_is_liquid(below) && density > material_props(below).density {
            swap_spec(c, p, x, y, z, x, y - 1, z, mat, below)
        } else {
            fall_diag(c, p, x, y, z, mat, density, 0)
        }
    } else {
        (c, p, false)
    }
}

/// A liquid flowing diagonally down into Air, trying directions `i..4`.
pub open spec fn liquid_diag(
    c: Seq<Block>, p: Seq<bool>, x: int, y: int, z: int, mat: Material, i: int,
) -> (Seq<Block>, Seq<bool>, bool)
    decreases 4 - i,
{
    if i >= 4 || i < 0 {
        (c, p, false)
    } else {
        let nx = x + dir(i).0;
        let nz = z + dir(i).1;
        if in_range(nx) && in_range(nz) && mat_at(c, nx, y - 1, nz) == Material::Air && mat_at(c, nx, y, nz) == Material::Air {
            move_spec(c, p, x, y, z, nx, y - 1, nz, mat)
        } else {
            liquid_diag(c, p, x, y, z, mat, i + 1)
        }
    }
}

/// Sideways into Air at the same height, trying directions `i..4`.
pub open spec fn sideways(
    c: Seq<Block>, p: Seq<bool>, x: int, y: int, z: int, mat: Material, i: int,
) -> (Seq<Block>, Seq<bool>, bool)
    decreases 4 - i,
{
    if i >= 4 || i < 0 {
        (c, p, false)
    } else {
        let nx = x + dir(i).0;
        let nz = z + dir(i).1;
        if in_range(nx) && in_range(nz) && mat_at(c, nx, y, nz) == Material::Air {
            move_spec(c, p, x, y, z, nx, y, nz, mat)
        } else {
            sideways(c, p, x, y, z, mat, i + 1)
        }
    }
}

/// Liquids: down into Air, swap with a different lighter liquid below,
/// diagonally down into Air, else sideways.
pub open spec fn liquid_spec(c: Seq<Block>, p: Seq<bool>, x: int, y: int, z: int, density: u32) -> (Seq<Block>, Seq<bool>, bool) {
    let mat = mat_at(c, x, y, z);
    if y > 0 && mat_at(c, x, y - 1, z) == Material::Air {
        move_spec(c, p, x, y, z, x, y - 1, z, mat)
    } else if y > 0 && spec_is_liquid(mat_at(c, x, y - 1, z)) && mat_at(c, x, y - 1, z) != mat
        && density > material_props(mat_at(c, x, y - 1, z)).density {
        swap_spec(c, p, x, y, z, x, y - 1, z, mat, mat_at(c, x, y - 1, z))
    } else if y > 0 && liquid_diag(c, p, x, y, z, mat, 0).2 {
        liquid_diag(c, p, x, y, z, mat, 0)
    } else {
        sideways(c, p, x, y, z, mat, 0)
    }
}

/// Gases: up into Air, else sideways.
pub open spec fn gas_spec(c: Seq<Block>, p: Seq<bool>, x: int, y: int, z: int) -> (Seq<Block>, Seq<bool>, bool) {
    let mat = mat_at(c, x, y, z);
    if y < 15 && mat_at(c, x, y + 1, z) == Material::Air {
        move_spec(c, p, x, y, z, x, y + 1, z, mat)
    } else {
        sideways(c, p, x, y, z, mat, 0)
    }
}

/// Whether a short-lived material burns out at this position this step.
pub open spec fn decays_at(x: int, y: int, z: int) -> bool {
    (x * 7 + y * 13 + z * 23) % 100 < 10
}

/// One voxel's turn: skipped when processed, Air or static; a short-lived
/// material may burn out; otherwise it moves by its behaviour. The delta, if
/// any, records the voxel's new contents at its own position.
pub open spec fn cell_step(c: Seq<Block>, p: Seq<bool>, x: int, y: int, z: int) -> (Seq<Block>, Seq<bool>, Option<BlockDelta>) {
    let i = spec_chunk_index(x, y, z);
    let mat = c[i].material;
    let pr = material_props(mat);
    if p[i] || mat == Material::Air || pr.behavior is Static {
        (c, p, None)
    } else if pr.lifetime is Some && decays_at(x, y, z) {
        (set_mat(c, x, y, z, Material::Air), p,
         Some(BlockDelta { x: x as usize, y: y as usize, z: z as usize, new_block: Block::air_spec() }))
    } else {
        let r = match pr.behavior {
            MaterialBehavior::FallingSolid => fall_spec(c, p, x, y, z, pr.density),
            MaterialBehavior::Liquid => liquid_spec(c, p, x, y, z, pr.density),
            _ => gas_spec(c, p, x, y, z),
        };
        if r.2 {
            (r.0, r.1, Some(BlockDelta { x: x as usize, y: y as usize, z: z as usize, new_block: r.0[i] }))
        } else {
            (r.0, r.1, None)
        }
    }
}

/// The k-th voxel of the sweep: bottom layer first, rows along z, and
/// along x forwards on even rows and backwards on odd rows.
pub open spec fn order(k: int) -> (int, int, int) {
    let y = k / 256;
    let z = (k / 16) % 16;
    let xi = k % 16;
    (if z % 2 == 0 { xi } else { 15 - xi }, y, z)
}

/// The chunk's voxels, processed set, dirty flag and deltas after the first
/// `n` turns of the sweep.
pub open spec fn sweep(c0: Seq<Block>, dirty0: bool, n: nat) -> (Seq<Block>, Seq<bool>, bool, Seq<BlockDelta>)
    decreases n,
{
    if n == 0 {
        (c0, Seq::new(CHUNK_VOLUME as nat, |i: int| false), dirty0, Seq::empty())
    } else {
        let prev = sweep(c0, dirty0, (n - 1) as nat);
        let (x, y, z) = order(n - 1);
        let r = cell_step(prev.0, prev.1, x, y, z);
        match r.2 {
            Some(d) => (r.0, r.1, true, prev.3.push(d)),
            None => (r.0, r.1, prev.2, prev.3),
        }
    }
}

/// A whole step of one chunk.
pub open spec fn chunk_step(c0: Seq<Block>, dirty0: bool) -> (Seq<Block>, Seq<bool>, bool, Seq<BlockDelta>) {
    sweep(c0, dirty0, CHUNK_VOLUME as nat)
}


// ---------------------------------------------------------------------------
// The step, executed.
// ---------------------------------------------------------------------------

fn dir_exec(i: usize) -> (r: (i32, i32))
    requires
        i < 4,
    ensures
        r.0 as int == dir(i as int).0,
        r.1 as int == dir(i as int).1,
{
    if i == 0 {
        (-1, 0)
    } else if i == 1 {
        (1, 0)
    } else if i == 2 {
        (0, -1)
    } else {
        (0, 1)
    }
}

/// The processed flags of a chunk's voxels, by voxel index, as a set of
/// indices.
pub open spec fn pview(s: Set<usize>) -> Seq<bool> {
    Seq::new(CHUNK_VOLUME as nat, |i: int| s.contains(i as usize))
}

fn mark_processed(processed: &mut HashSet<usize>, i: usize)
    requires
        i < CHUNK_VOLUME,
    ensures
        pview(final(processed)@) == pview(old(processed)@).update(i as int, true),
{
    broadcast use vstd::std_specs::hash::group_hash_axioms;
    processed.insert(i);
    assert(pview(processed@) =~= pview(old(processed)@).update(i as int, true));
}

fn is_processed(processed: &HashSet<usize>, i: usize) -> (r: bool)
    requires
        i < CHUNK_VOLUME,
    ensures
        r == pview(processed@)[i as int],
{
    broadcast use vstd::std_specs::hash::group_hash_axioms;
    processed.contains(&i)
}

pub open spec fn step_pre(chunk: Chunk, processed: Seq<bool>, x: int, y: int, z: int) -> bool {
    &&& chunk.wf()
    &&& processed.len() == CHUNK_VOLUME
    &&& in_range(x) && in_range(y) && in_range(z)
}

/// How a move rule's outcome `r` shows in the chunk and the processed set.
pub open spec fn step_post(
    old_chunk: Chunk,
    new_chunk: Chunk,
    new_processed: Seq<bool>,
    r: (Seq<Block>, Seq<bool>, bool),
    moved: bool,
) -> bool {
    &&& new_chunk.wf()
    &&& new_chunk.position == old_chunk.position
    &&& new_chunk.cells() == r.0
    &&& new_processed == r.1
    &&& new_processed.len() == CHUNK_VOLUME
    &&& moved == r.2
    &&& new_chunk.dirty == (old_chunk.dirty || moved)
}

fn move_block(
    chunk: &mut Chunk,
    processed: &mut HashSet<usize>,
    sx: usize, sy: usize, sz: usize,
    dx: usize, dy: usize, dz: usize,
    mat: Material,
)
    requires
        step_pre(*old(chunk), pview(old(processed)@), sx as int, sy as int, sz as int),
        in_range(dx as int) && in_range(dy as int) && in_range(dz as int),
    ensures
        step_post(*old(chunk), *final(chunk), pview(final(processed)@),
            move_spec(old(chunk).cells(), pview(old(processed)@), sx as int, sy as int, sz as int, dx as int, dy as int, dz as int, mat), true),
{
    chunk.set_material(dx, dy, dz, mat);
    chunk.set_material(sx, sy, sz, Material::Air);
    mark_processed(processed, dx + dy * CHUNK_SIZE + dz * CHUNK_SIZE * CHUNK_SIZE);
}

fn swap_blocks(
    chunk: &mut Chunk,
    processed: &mut HashSet<usize>,
    sx: usize, sy: usize, sz: usize,
    dx: usize, dy: usize, dz: usize,
    mat_a: Material,
    mat_b: Material,
)
    requires
        step_pre(*old(chunk), pview(old(processed)@), sx as int, sy as int, sz as int),
        in_range(dx as int) && in_range(dy as int) && in_range(dz as int),
    ensures
        step_post(*old(chunk), *final(chunk), pview(final(processed)@),
            swap_spec(old(chunk).cells(), pview(old(processed)@), sx as int, sy as int, sz as int, dx as int, dy as int, dz as int, mat_a, mat_b), true),
{
    chunk.set_material(dx, dy, dz, mat_a);
    chunk.set_material(sx, sy, sz, mat_b);
    mark_processed(processed, dx + dy * CHUNK_SIZE + dz * CHUNK_SIZE * CHUNK_SIZE);
}

fn can_displace(mover: Material, target: Material, mover_props: &MaterialProperties) -> (r: bool)
    ensures
        r == can_displace_spec(mover, target, mover_props.density),
{
    if target == Material::Air {
        return true;
    }
    if target == mover {
        return false;
    }
    let target_props = MaterialProperties::get(target);
    if target_props.behavior == MaterialBehavior::Liquid && mover_props.density > target_props.density {
        return true;
    }
    false
}

fn try_move_falling_solid(
    chunk: &mut Chunk,
    x: usize, y: usize, z: usize,
    props: &MaterialProperties,
    processed: &mut HashSet<usize>,
) -> (moved: bool)
    requires
        step_pre(*old(chunk), pview(old(processed)@), x as int, y as int, z as int),
    ensures
        step_post(*old(chunk), *final(chunk), pview(final(processed)@),
            fall_spec(old(chunk).cells(), pview(old(processed)@), x as int, y as int, z as int, props.density), moved),
{
    let ghost c0 = chunk.cells();
    let ghost p0 = pview(processed@);
    let mat = chunk.get_material(x, y, z);
    if y > 0 {
        let below = chunk.get_material(x, y - 1, z);
        if below == Material::Air {
            move_block(chunk, processed, x, y, z, x, y - 1, z, mat);
            return true;
        }
        if below.is_liquid() {
            let below_props = MaterialProperties::get(below);
            if props.density > below_props.density {
                swap_blocks(chunk, processed, x, y, z, x, y - 1, z, mat, below);
                return true;
            }
        }
        let mut i: usize = 0;
        while i < 4
            invariant
                step_pre(*chunk, pview(processed@), x as int, y as int, z as int),
                y > 0,
                *chunk == *old(chunk),
                pview(processed@) == p0,
                c0 == old(chunk).cells(),
                p0 == pview(old(processed)@),
                mat == mat_at(c0, x as int, y as int, z as int),
                i <= 4,
                fall_spec(c0, p0, x as int, y as int, z as int, props.density)
                    == fall_diag(c0, p0, x as int, y as int, z as int, mat, props.density, i as int),
            decreases 4 - i,
        {
            let (dx, dz) = dir_exec(i);
            let nx = x as i32 + dx;
            let nz = z as i32 + dz;
            if nx >= 0 && nx < 16 && nz >= 0 && nz < 16 {
                let nxi = nx as usize;
                let nzi = nz as usize;
                let diag_below = chunk.get_material(nxi, y - 1, nzi);
                let diag_level = chunk.get_material(nxi, y, nzi);
                if (diag_level == Material::Air || diag_level.is_liquid()) && can_displace(mat, diag_below, props) {
                    let displaced = if diag_below.is_liquid() { diag_below } else { Material::Air };
                    if displaced != Material::Air {
                        swap_blocks(chunk, processed, x, y, z, nxi, y - 1, nzi, mat, displaced);
                    } else {
                        move_block(chunk, processed, x, y, z, nxi, y - 1, nzi, mat);
                    }
                    return true;
                }
            }
            i = i + 1;
        }
    }
    false
}

fn try_move_liquid(
    chunk: &mut Chunk,
    x: usize, y: usize, z: usize,
    props: &MaterialProperties,
    processed: &mut HashSet<usize>,
) -> (moved: bool)
    requires
        step_pre(*old(chunk), pview(old(processed)@), x as int, y as int, z as int),
    ensures
        step_post(*old(chunk), *final(chunk), pview(final(processed)@),
            liquid_spec(old(chunk).cells(), pview(old(processed)@), x as int, y as int, z as int, props.density), moved),
{
    let ghost c0 = chunk.cells();
    let ghost p0 = pview(processed@);
    let mat = chunk.get_material(x, y, z);
    if y > 0 {
        let below = chunk.get_material(x, y - 1, z);
        if below == Material::Air {
            move_block(chunk, processed, x, y, z, x, y - 1, z, mat);
            return true;
        }
        if below.is_liquid() && below != mat {
            let below_props = MaterialProperties::get(below);
            if props.density > below_props.density {
                swap_blocks(chunk, processed, x, y, z, x, y - 1, z, mat, below);
                return true;
            }
        }
        let mut i: usize = 0;
        while i < 4
            invariant
                step_pre(*chunk, pview(processed@), x as int, y as int, z as int),
                y > 0,
                *chunk == *old(chunk),
                pview(processed@) == p0,
                c0 == old(chunk).cells(),
                p0 == pview(old(processed)@),
                mat == mat_at(c0, x as int, y as int, z as int),
                i <= 4,
                liquid_diag(c0, p0, x as int, y as int, z as int, mat, 0)
                    == liquid_diag(c0, p0, x as int, y as int, z as int, mat, i as int),
                liquid_spec(c0, p0, x as int, y as int, z as int, props.density) == (
                    if liquid_diag(c0, p0, x as int, y as int, z as int, mat, 0).2 {
                        liquid_diag(c0, p0, x as int, y as int, z as int, mat, 0)
                    } else {
                        sideways(c0, p0, x as int, y as int, z as int, mat, 0)
                    }),
            decreases 4 - i,
        {
            let (dx, dz) = dir_exec(i);
            let nx = x as i32 + dx;
            let nz = z as i32 + dz;
            if nx >= 0 && nx < 16 && nz >= 0 && nz < 16 {
                let nxi = nx as usize;
                let nzi = nz as usize;
                if chunk.get_material(nxi, y - 1, nzi) == Material::Air
                    && chunk.get_material(nxi, y, nzi) == Material::Air {
                    assert(liquid_diag(c0, p0, x as int, y as int, z as int, mat, i as int).2);
                    move_block(chunk, processed, x, y, z, nxi, y - 1, nzi, mat);
                    return true;
                }
            }
            i = i + 1;
        }
    }
    move_sideways(chunk, x, y, z, mat, processed)
}

fn move_sideways(
    chunk: &mut Chunk,
    x: usize, y: usize, z: usize,
    mat: Material,
    processed: &mut HashSet<usize>,
) -> (moved: bool)
    requires
        step_pre(*old(chunk), pview(old(processed)@), x as int, y as int, z as int),
    ensures
        step_post(*old(chunk), *final(chunk), pview(final(processed)@),
            sideways(old(chunk).cells(), pview(old(processed)@), x as int, y as int, z as int, mat, 0), moved),
{
    let ghost c0 = chunk.cells();
    let ghost p0 = pview(processed@);
    let mut i: usize = 0;
    while i < 4
        invariant
            step_pre(*chunk, pview(processed@), x as int, y as int, z as int),
            *chunk == *old(chunk),
            pview(processed@) == p0,
            c0 == old(chunk).cells(),
            p0 == pview(old(processed)@),
            i <= 4,
            sideways(c0, p0, x as int, y as int, z as int, mat, 0)
                == sideways(c0, p0, x as int, y as int, z as int, mat, i as int),
        decreases 4 - i,
    {
        let (dx, dz) = dir_exec(i);
        let nx = x as i32 + dx;
        let nz = z as i32 + dz;
        if nx >= 0 && nx < 16 && nz >= 0 && nz < 16 {
            if chunk.get_material(nx as usize, y, nz as usize) == Material::Air {
                move_block(chunk, processed, x, y, z, nx as usize, y, nz as usize, mat);
                return true;
            }
        }
        i = i + 1;
    }
    false
}

fn try_move_gas(
    chunk: &mut Chunk,
    x: usize, y: usize, z: usize,
    processed: &mut HashSet<usize>,
) -> (moved: bool)
    requires
        step_pre(*old(chunk), pview(old(processed)@), x as int, y as int, z as int),
    ensures
        step_post(*old(chunk), *final(chunk), pview(final(processed)@),
            gas_spec(old(chunk).cells(), pview(old(processed)@), x as int, y as int, z as int), moved),
{
    let mat = chunk.get_material(x, y, z);
    if y < CHUNK_SIZE - 1 {
        let above = chunk.get_material(x, y + 1, z);
        if above == Material::Air {
            move_block(chunk, processed, x, y, z, x, y + 1, z, mat);
            return true;
        }
    }
    move_sideways(chunk, x, y, z, mat, processed)
}


fn step_cell(
    chunk: &mut Chunk,
    processed: &mut HashSet<usize>,
    deltas: &mut Vec<BlockDelta>,
    x: usize, y: usize, z: usize,
)
    requires
        step_pre(*old(chunk), pview(old(processed)@), x as int, y as int, z as int),
    ensures
        ({
            let r = cell_step(old(chunk).cells(), pview(old(processed)@), x as int, y as int, z as int);
            &&& final(chunk).wf()
            &&& final(chunk).position == old(chunk).position
            &&& final(chunk).cells() == r.0
            &&& pview(final(processed)@) == r.1
            &&& pview(final(processed)@).len() == CHUNK_VOLUME
            &&& final(chunk).dirty == (old(chunk).dirty || r.2 is Some)
            &&& final(deltas)@ == match r.2 { Some(d) => old(deltas)@.push(d), None => old(deltas)@ }
        }),
{
    let i = x + y * CHUNK_SIZE + z * CHUNK_SIZE * CHUNK_SIZE;
    if is_processed(processed, i) {
        return;
    }
    let mat = chunk.get_material(x, y, z);
    if mat == Material::Air {
        return;
    }
    let props = MaterialProperties::get(mat);
    if !props.is_mobile() {
        return;
    }
    if props.lifetime.is_some() {
        let hash = (x * 7 + y * 13 + z * 23) % 100;
        if hash < 10 {
            chunk.set_material(x, y, z, Material::Air);
            deltas.push(BlockDelta { x, y, z, new_block: Block::air() });
            return;
        }
    }
    let moved = match props.behavior {
        MaterialBehavior::FallingSolid => try_move_falling_solid(chunk, x, y, z, &props, processed),
        MaterialBehavior::Liquid => try_move_liquid(chunk, x, y, z, &props, processed),
        MaterialBehavior::Gas => try_move_gas(chunk, x, y, z, processed),
        MaterialBehavior::Static => false,
    };
    if moved {
        deltas.push(BlockDelta { x, y, z, new_block: chunk.get_block(x, y, z) });
    }
}

proof fn lemma_order(y: int, z: int, xi: int)
    requires
        0 <= y < 16,
        0 <= z < 16,
        0 <= xi < 16,
    ensures
        order(y * 256 + z * 16 + xi) == (if z % 2 == 0 { xi } else { 15 - xi }, y, z),
{
    let k = y * 256 + z * 16 + xi;
    vstd::arithmetic::div_mod::lemma_fundamental_div_mod_converse(k, 16, y * 16 + z, xi);
    vstd::arithmetic::div_mod::lemma_fundamental_div_mod_converse(y * 16 + z, 16, y, z);
    vstd::arithmetic::div_mod::lemma_fundamental_div_mod_converse(k, 256, y, z * 16 + xi);
}

/// Runs one step of the falling-sand rules on a chunk and returns what
/// changed.
pub fn simulate_chunk(chunk: &mut Chunk) -> (deltas: Vec<BlockDelta>)
    requires
        old(chunk).wf(),
    ensures
        ({
            let r = chunk_step(old(chunk).cells(), old(chunk).dirty);
            &&& final(chunk).wf()
            &&& final(chunk).position == old(chunk).position
            &&& final(chunk).cells() == r.0
            &&& final(chunk).dirty == r.2
            &&& deltas@ == r.3
        }),
{
    let ghost c0 = chunk.cells();
    let ghost d0 = chunk.dirty;
    let mut processed: HashSet<usize> = HashSet::new();
    proof {
        assert(pview(processed@) =~= Seq::new(CHUNK_VOLUME as nat, |i: int| false));
    }
    let mut deltas: Vec<BlockDelta> = Vec::new();
    let mut y: usize = 0;
    while y < CHUNK_SIZE
        invariant
            y <= 16,
            chunk.wf(),
            chunk.position == old(chunk).position,
            c0 == old(chunk).cells(),
            d0 == old(chunk).dirty,
            pview(processed@).len() == CHUNK_VOLUME,
            (chunk.cells(), pview(processed@), chunk.dirty, deltas@) == sweep(c0, d0, (y * 256) as nat),
        decreases 16 - y,
    {
        let mut z: usize = 0;
        while z < CHUNK_SIZE
            invariant
                y < 16,
                z <= 16,
                chunk.wf(),
                chunk.position == old(chunk).position,
                c0 == old(chunk).cells(),
                d0 == old(chunk).dirty,
                pview(processed@).len() == CHUNK_VOLUME,
                (chunk.cells(), pview(processed@), chunk.dirty, deltas@) == sweep(c0, d0, (y * 256 + z * 16) as nat),
            decreases 16 - z,
        {
            let mut xi: usize = 0;
            while xi < CHUNK_SIZE
                invariant
                    y < 16,
                    z < 16,
                    xi <= 16,
                    chunk.wf(),
                    chunk.position == old(chunk).position,
                    c0 == old(chunk).cells(),
                    d0 == old(chunk).dirty,
                    pview(processed@).len() == CHUNK_VOLUME,
                    (chunk.cells(), pview(processed@), chunk.dirty, deltas@) == sweep(c0, d0, (y * 256 + z * 16 + xi) as nat),
                decreases 16 - xi,
            {
                let x = if z % 2 == 0 { xi } else { CHUNK_SIZE - 1 - xi };
                proof { lemma_order(y as int, z as int, xi as int); }
                step_cell(chunk, &mut processed, &mut deltas, x, y, z);
                xi = xi + 1;
            }
            z = z + 1;
        }
        y = y + 1;
    }
    deltas
}


/// The deltas of a step, by chunk position.
pub struct SimulationResult {
    deltas: HashMap<i128, Vec<BlockDelta>>,
}

pub open spec fn seq_view_map(m: Map<IVec3, Vec<BlockDelta>>) -> Map<IVec3, Seq<BlockDelta>> {
    Map::new(|p: IVec3| m.contains_key(p), |p: IVec3| m[p]@)
}

impl View for SimulationResult {
    type V = Map<IVec3, Seq<BlockDelta>>;

    closed spec fn view(&self) -> Map<IVec3, Seq<BlockDelta>> {
        seq_view_map(key_view(self.deltas@))
    }
}

/// The deltas that a step over `cs[0..n]` reports: each chunk that changed
/// under its position, a later chunk replacing an earlier one at the same
/// position.
pub open spec fn step_results(cs: Seq<Chunk>, n: nat) -> Map<IVec3, Seq<BlockDelta>>
    decreases n,
{
    if n == 0 {
        Map::empty()
    } else {
        let m = step_results(cs, (n - 1) as nat);
        let c = cs[n - 1];
        let d = chunk_step(c.cells(), c.dirty).3;
        if d.len() > 0 {
            m.insert(c.position, d)
        } else {
            m
        }
    }
}

impl SimulationResult {
    /// Whether the chunk at `pos` changed.
    pub fn contains_key(&self, pos: IVec3) -> (r: bool)
        ensures
            r == self@.contains_key(pos),
    {
        broadcast use vstd::std_specs::hash::group_hash_axioms;
        let k = key_of(pos);
        self.deltas.contains_key(&k)
    }

    /// The deltas of the chunk at `pos`.
    pub fn get(&self, pos: IVec3) -> (r: Option<&Vec<BlockDelta>>)
        ensures
            match r {
                Some(v) => self@.contains_key(pos) && v@ == self@[pos],
                None => !self@.contains_key(pos),
            },
    {
        broadcast use vstd::std_specs::hash::group_hash_axioms;
        let k = key_of(pos);
        self.deltas.get(&k)
    }
}

/// `new` is `old` after one step.
pub open spec fn stepped(old: Chunk, new: Chunk) -> bool {
    let s = chunk_step(old.cells(), old.dirty);
    &&& new.wf()
    &&& new.position == old.position
    &&& new.cells() == s.0
    &&& new.dirty == s.2
}

/// Runs one step of the falling-sand rules on every chunk; chunks do not
/// reach into each other.
pub fn simulate_step(chunks: &mut Vec<Chunk>) -> (r: SimulationResult)
    requires
        forall|i: int| 0 <= i < old(chunks)@.len() ==> #[trigger] old(chunks)@[i].wf(),
    ensures
        final(chunks)@.len() == old(chunks)@.len(),
        forall|i: int| 0 <= i < old(chunks)@.len() ==> #[trigger] stepped(old(chunks)@[i], final(chunks)@[i]),
        r@ == step_results(old(chunks)@, old(chunks)@.len()),
{
    broadcast use vstd::std_specs::hash::group_hash_axioms;
    let mut result = SimulationResult { deltas: HashMap::new() };
    let ghost cs = chunks@;
    let mut i: usize = 0;
    proof {
        assert(result@ =~= step_results(cs, 0));
    }
    while i < chunks.len()
        invariant
            cs == old(chunks)@,
            chunks@.len() == cs.len(),
            i <= cs.len(),
            forall|j: int| i <= j < cs.len() ==> #[trigger] chunks@[j] == cs[j],
            forall|j: int| 0 <= j < cs.len() ==> #[trigger] cs[j].wf(),
            forall|j: int| 0 <= j < i ==> #[trigger] stepped(cs[j], chunks@[j]),
            result@ == step_results(cs, i as nat),
        decreases cs.len() - i,
    {
        let chunk_pos = chunks[i].position;
        let ghost before = chunks@;
        let deltas = simulate_chunk(&mut chunks[i]);
        proof {
            assert(chunks@ == before.update(i as int, chunks@[i as int]));
            assert(stepped(cs[i as int], chunks@[i as int]));
            assert forall|j: int| 0 <= j < i + 1 implies #[trigger] stepped(cs[j], chunks@[j]) by {
                if j < i {
                    assert(stepped(cs[j], before[j]));
                }
            }
        }
        if deltas.len() > 0 {
            let k = key_of(chunk_pos);
            proof { lemma_key_view_insert_any(result.deltas@, chunk_pos); }
            result.deltas.insert(k, deltas);
            proof {
                assert(result@ =~= step_results(cs, (i + 1) as nat));
            }
        }
        i = i + 1;
    }
    result
}


// ---------------------------------------------------------------------------
// Conservation.
// ---------------------------------------------------------------------------

pub open spec fn materials(c: Seq<Block>) -> Seq<Material> {
    c.map_values(|b: Block| b.material)
}

/// How many voxels hold material `m`.
pub open spec fn count_of(c: Seq<Block>, m: Material) -> nat {
    materials(c).to_multiset().count(m)
}

/// Same length, same temperature at every voxel, same number of voxels of
/// every material.
pub open spec fn conserved(c: Seq<Block>, c2: Seq<Block>) -> bool {
    &&& c2.len() == c.len()
    &&& forall|i: int| 0 <= i < c.len() ==> #[trigger] c2[i].temperature == c[i].temperature
    &&& forall|m: Material| #[trigger] count_of(c2, m) == count_of(c, m)
}

proof fn lemma_set_mat(c: Seq<Block>, x: int, y: int, z: int, m2: Material)
    requires
        c.len() == CHUNK_VOLUME,
        in_range(x) && in_range(y) && in_range(z),
    ensures
        set_mat(c, x, y, z, m2).len() == c.len(),
        forall|i: int| 0 <= i < c.len() ==> #[trigger] set_mat(c, x, y, z, m2)[i].temperature == c[i].temperature,
        forall|m: Material| #[trigger] count_of(set_mat(c, x, y, z, m2), m)
            == count_of(c, m) - (if mat_at(c, x, y, z) == m { 1int } else { 0int }) + (if m2 == m { 1int } else { 0int }),
{
    broadcast use vstd::multiset::group_multiset_axioms;
    let i = spec_chunk_index(x, y, z);
    assert(materials(set_mat(c, x, y, z, m2)) =~= materials(c).update(i, m2));
    vstd::seq_lib::to_multiset_update(materials(c), i, m2);
    assert(materials(c).to_multiset().count(mat_at(c, x, y, z)) > 0) by {
        vstd::seq_lib::to_multiset_contains(materials(c), mat_at(c, x, y, z));
        assert(materials(c)[i] == mat_at(c, x, y, z));
    }
}

proof fn lemma_move_conserves(
    c: Seq<Block>, p: Seq<bool>,
    sx: int, sy: int, sz: int, dx: int, dy: int, dz: int,
    a: Material, b: Material,
)
    requires
        c.len() == CHUNK_VOLUME,
        p.len() == CHUNK_VOLUME,
        in_range(sx) && in_range(sy) && in_range(sz),
        in_range(dx) && in_range(dy) && in_range(dz),
        (sx, sy, sz) != (dx, dy, dz),
        mat_at(c, sx, sy, sz) == a,
        mat_at(c, dx, dy, dz) == b,
        !is_static(a),
        !is_static(b),
    ensures
        conserved(c, swap_spec(c, p, sx, sy, sz, dx, dy, dz, a, b).0),
        static_kept(c, swap_spec(c, p, sx, sy, sz, dx, dy, dz, a, b).0),
        swap_spec(c, p, sx, sy, sz, dx, dy, dz, a, b).1.len() == CHUNK_VOLUME,
{
    let c1 = set_mat(c, dx, dy, dz, a);
    lemma_set_mat(c, dx, dy, dz, a);
    lemma_set_mat(c1, sx, sy, sz, b);
    assert(mat_at(c1, sx, sy, sz) == a);
}

/// A material that the rules never move.
pub open spec fn is_static(m: Material) -> bool {
    material_props(m).behavior is Static
}

/// Every voxel of `c` that holds a static material is the same in `c2`.
pub open spec fn static_kept(c: Seq<Block>, c2: Seq<Block>) -> bool {
    forall|i: int| 0 <= i < c.len() && is_static(c[i].material) ==> #[trigger] c2[i] == c[i]
}

/// Whether a rule's outcome keeps every material count and temperature,
/// and every static voxel.
pub open spec fn rule_ok(c: Seq<Block>, p: Seq<bool>, r: (Seq<Block>, Seq<bool>, bool)) -> bool {
    &&& conserved(c, r.0)
    &&& static_kept(c, r.0)
    &&& r.1.len() == p.len()
    &&& !r.2 ==> r.0 == c && r.1 == p
}

pub open spec fn rule_pre(c: Seq<Block>, p: Seq<bool>, x: int, y: int, z: int) -> bool {
    &&& c.len() == CHUNK_VOLUME
    &&& p.len() == CHUNK_VOLUME
    &&& in_range(x) && in_range(y) && in_range(z)
}

proof fn lemma_conserved_refl(c: Seq<Block>)
    ensures
        conserved(c, c),
{
}

proof fn lemma_fall_diag(c: Seq<Block>, p: Seq<bool>, x: int, y: int, z: int, mat: Material, density: u32, i: int)
    requires
        rule_pre(c, p, x, y, z),
        y > 0,
        mat == mat_at(c, x, y, z),
        !is_static(mat),
    ensures
        rule_ok(c, p, fall_diag(c, p, x, y, z, mat, density, i)),
    decreases 4 - i,
{
    if i >= 4 || i < 0 {
        lemma_conserved_refl(c);
    } else {
        let nx = x + dir(i).0;
        let nz = z + dir(i).1;
        if in_range(nx) && in_range(nz) {
            let below = mat_at(c, nx, y - 1, nz);
            let level = mat_at(c, nx, y, nz);
            if (level == Material::Air || spec_is_liquid(level)) && can_displace_spec(mat, below, density) {
                if spec_is_liquid(below) {
                    lemma_move_conserves(c, p, x, y, z, nx, y - 1, nz, mat, below);
                } else {
                    lemma_move_conserves(c, p, x, y, z, nx, y - 1, nz, mat, Material::Air);
                }
            } else {
                lemma_fall_diag(c, p, x, y, z, mat, density, i + 1);
            }
        } else {
            lemma_fall_diag(c, p, x, y, z, mat, density, i + 1);
        }
    }
}

proof fn lemma_liquid_diag(c: Seq<Block>, p: Seq<bool>, x: int, y: int, z: int, mat: Material, i: int)
    requires
        rule_pre(c, p, x, y, z),
        y > 0,
        mat == mat_at(c, x, y, z),
        !is_static(mat),
    ensures
        rule_ok(c, p, liquid_diag(c, p, x, y, z, mat, i)),
    decreases 4 - i,
{
    if i >= 4 || i < 0 {
        lemma_conserved_refl(c);
    } else {
        let nx = x + dir(i).0;
        let nz = z + dir(i).1;
        if in_range(nx) && in_range(nz) && mat_at(c, nx, y - 1, nz) == Material::Air && mat_at(c, nx, y, nz) == Material::Air {
            lemma_move_conserves(c, p, x, y, z, nx, y - 1, nz, mat, Material::Air);
        } else {
            lemma_liquid_diag(c, p, x, y, z, mat, i + 1);
        }
    }
}

proof fn lemma_sideways(c: Seq<Block>, p: Seq<bool>, x: int, y: int, z: int, mat: Material, i: int)
    requires
        rule_pre(c, p, x, y, z),
        mat == mat_at(c, x, y, z),
        !is_static(mat),
    ensures
        rule_ok(c, p, sideways(c, p, x, y, z, mat, i)),
    decreases 4 - i,
{
    if i >= 4 || i < 0 {
        lemma_conserved_refl(c);
    } else {
        let nx = x + dir(i).0;
        let nz = z + dir(i).1;
        if in_range(nx) && in_range(nz) && mat_at(c, nx, y, nz) == Material::Air {
            lemma_move_conserves(c, p, x, y, z, nx, y, nz, mat, Material::Air);
        } else {
            lemma_sideways(c, p, x, y, z, mat, i + 1);
        }
    }
}

proof fn lemma_rules(c: Seq<Block>, p: Seq<bool>, x: int, y: int, z: int, density: u32)
    requires
        rule_pre(c, p, x, y, z),
        !is_static(mat_at(c, x, y, z)),
    ensures
        rule_ok(c, p, fall_spec(c, p, x, y, z, density)),
        rule_ok(c, p, liquid_spec(c, p, x, y, z, density)),
        rule_ok(c, p, gas_spec(c, p, x, y, z)),
{
    let mat = mat_at(c, x, y, z);
    lemma_conserved_refl(c);
    lemma_sideways(c, p, x, y, z, mat, 0);
    if y > 0 {
        let below = mat_at(c, x, y - 1, z);
        if below == Material::Air || spec_is_liquid(below) {
            lemma_move_conserves(c, p, x, y, z, x, y - 1, z, mat, below);
        }
        lemma_fall_diag(c, p, x, y, z, mat, density, 0);
        lemma_liquid_diag(c, p, x, y, z, mat, 0);
    }
    if y < 15 && mat_at(c, x, y + 1, z) == Material::Air {
        lemma_move_conserves(c, p, x, y, z, x, y + 1, z, mat, Material::Air);
    }
}

/// Whether `c2` keeps `c`'s temperatures and the number of voxels of every
/// material but Air and Fire, with no more Fire than before.
pub open spec fn step_conserves(c: Seq<Block>, c2: Seq<Block>) -> bool {
    &&& c2.len() == c.len()
    &&& forall|i: int| 0 <= i < c.len() ==> #[trigger] c2[i].temperature == c[i].temperature
    &&& forall|m: Material| m != Material::Air && m != Material::Fire ==> #[trigger] count_of(c2, m) == count_of(c, m)
    &&& count_of(c2, Material::Fire) <= count_of(c, Material::Fire)
}

proof fn lemma_count_present(c: Seq<Block>, i: int)
    requires
        0 <= i < c.len(),
    ensures
        count_of(c, c[i].material) > 0,
{
    vstd::seq_lib::to_multiset_contains(materials(c), c[i].material);
    assert(materials(c)[i] == c[i].material);
}

proof fn lemma_cell_step(c: Seq<Block>, p: Seq<bool>, x: int, y: int, z: int)
    requires
        rule_pre(c, p, x, y, z),
    ensures
        step_conserves(c, cell_step(c, p, x, y, z).0),
        static_kept(c, cell_step(c, p, x, y, z).0),
        count_of(c, Material::Fire) == 0 ==> conserved(c, cell_step(c, p, x, y, z).0),
        cell_step(c, p, x, y, z).1.len() == CHUNK_VOLUME,
{
    let i = spec_chunk_index(x, y, z);
    let mat = c[i].material;
    let pr = material_props(mat);
    lemma_conserved_refl(c);
    if !(p[i] || mat == Material::Air || pr.behavior is Static) {
        if pr.lifetime is Some && decays_at(x, y, z) {
            lemma_set_mat(c, x, y, z, Material::Air);
            lemma_count_present(c, i);
        } else {
            lemma_rules(c, p, x, y, z, pr.density);
        }
    }
}

proof fn lemma_sweep(c0: Seq<Block>, d0: bool, n: nat)
    requires
        c0.len() == CHUNK_VOLUME,
        n <= CHUNK_VOLUME,
    ensures
        step_conserves(c0, sweep(c0, d0, n).0),
        static_kept(c0, sweep(c0, d0, n).0),
        count_of(c0, Material::Fire) == 0 ==> conserved(c0, sweep(c0, d0, n).0),
        sweep(c0, d0, n).1.len() == CHUNK_VOLUME,
        sweep(c0, d0, n).3.len() > 0 ==> sweep(c0, d0, n).2,
    decreases n,
{
    if n > 0 {
        lemma_sweep(c0, d0, (n - 1) as nat);
        let prev = sweep(c0, d0, (n - 1) as nat);
        let (x, y, z) = order(n - 1);
        let k = n - 1;
        vstd::arithmetic::div_mod::lemma_fundamental_div_mod(k, 16);
        vstd::arithmetic::div_mod::lemma_fundamental_div_mod(k / 16, 16);
        assert(0 <= k / 256 < 16) by {
            vstd::arithmetic::div_mod::lemma_div_is_ordered(k, 4095, 256);
        }
        lemma_cell_step(prev.0, prev.1, x, y, z);
        let next = sweep(c0, d0, n).0;
        assert forall|i: int| 0 <= i < c0.len() && is_static(c0[i].material) implies #[trigger] next[i] == c0[i] by {
            assert(prev.0[i] == c0[i]);
        }
    }
}

/// A step keeps every voxel's temperature and the number of voxels of every
/// material other than Air and Fire; fire may only burn out, so there is
/// never more Fire after a step than before.
pub proof fn lemma_step_conserves_materials(c0: Seq<Block>, dirty: bool)
    requires
        c0.len() == CHUNK_VOLUME,
    ensures
        step_conserves(c0, chunk_step(c0, dirty).0),
{
    lemma_sweep(c0, dirty, CHUNK_VOLUME as nat);
}

/// A step never touches a static voxel (Stone, Dirt, Wood, Metal, Ice);
/// without fire it keeps the number of voxels of every material, Air
/// included; and a chunk that reports changes is marked dirty.
pub proof fn lemma_step_keeps_static(c0: Seq<Block>, dirty: bool)
    requires
        c0.len() == CHUNK_VOLUME,
    ensures
        forall|i: int| 0 <= i < CHUNK_VOLUME && is_static(c0[i].material) ==> #[trigger] chunk_step(c0, dirty).0[i] == c0[i],
        count_of(c0, Material::Fire) == 0 ==> forall|m: Material| #[trigger] count_of(chunk_step(c0, dirty).0, m) == count_of(c0, m),
        chunk_step(c0, dirty).3.len() > 0 ==> chunk_step(c0, dirty).2,
{
    lemma_sweep(c0, dirty, CHUNK_VOLUME as nat);
}

/// A step reports a chunk only under the position of one of the chunks it
/// ran on, and only with a non-empty list of changes.
pub proof fn lemma_step_results(cs: Seq<Chunk>, n: nat)
    requires
        n <= cs.len(),
    ensures
        forall|p: IVec3| #[trigger] step_results(cs, n).contains_key(p) ==> step_results(cs, n)[p].len() > 0
            && exists|j: int| 0 <= j < n && cs[j].position == p,
    decreases n,
{
    if n > 0 {
        lemma_step_results(cs, (n - 1) as nat);
        let m = step_results(cs, (n - 1) as nat);
        assert forall|p: IVec3| #[trigger] step_results(cs, n).contains_key(p) implies step_results(cs, n)[p].len() > 0
            && exists|j: int| 0 <= j < n && cs[j].position == p by {
            if m.contains_key(p) && p != cs[n - 1].position {
                let j = choose|j: int| 0 <= j < n - 1 && cs[j].position == p;
                assert(0 <= j < n && cs[j].position == p);
            } else if m.contains_key(p) {
                assert(cs[n - 1].position == p);
            }
        }
    }
}

proof fn lemma_diag_keeps_column(c: Seq<Block>, p: Seq<bool>, x: int, y: int, z: int, mat: Material, density: u32, i: int)
    requires
        c.len() == CHUNK_VOLUME,
        in_chunk(x, y, z),
        y > 0,
    ensures
        fall_diag(c, p, x, y, z, mat, density, i).0[spec_chunk_index(x, y - 1, z)] == c[spec_chunk_index(x, y - 1, z)],
        liquid_diag(c, p, x, y, z, mat, i).0[spec_chunk_index(x, y - 1, z)] == c[spec_chunk_index(x, y - 1, z)],
        sideways(c, p, x, y, z, mat, i).0[spec_chunk_index(x, y - 1, z)] == c[spec_chunk_index(x, y - 1, z)],
    decreases 4 - i,
{
    if 0 <= i < 4 {
        lemma_diag_keeps_column(c, p, x, y, z, mat, density, i + 1);
    }
}

/// What a mobile voxel's turn does straight up and down. A sand or liquid
/// voxel with Air directly below falls into it and leaves Air; one with a
/// different liquid directly below that is less dense than itself trades
/// places with it; one resting on a liquid at least as dense as itself
/// leaves that voxel as it was, so nothing sinks into a denser liquid. A
/// gas voxel with Air directly above rises into it and leaves Air.
pub proof fn lemma_turn_vertical(c: Seq<Block>, p: Seq<bool>, x: int, y: int, z: int)
    requires
        c.len() == CHUNK_VOLUME,
        p.len() == CHUNK_VOLUME,
        in_chunk(x, y, z),
        !p[spec_chunk_index(x, y, z)],
        !(material_props(mat_at(c, x, y, z)).lifetime is Some && decays_at(x, y, z)),
    ensures
        ({
            let m = mat_at(c, x, y, z);
            let r = cell_step(c, p, x, y, z).0;
            let sinks = material_props(m).behavior is FallingSolid || material_props(m).behavior is Liquid;
            let below = mat_at(c, x, y - 1, z);
            &&& sinks && y > 0 && below == Material::Air ==> mat_at(r, x, y - 1, z) == m && mat_at(r, x, y, z) == Material::Air
            &&& sinks && y > 0 && (below is Water || below is Lava) && below != m
                && material_props(m).density > material_props(below).density
                ==> mat_at(r, x, y - 1, z) == m && mat_at(r, x, y, z) == below
            &&& sinks && y > 0 && (below is Water || below is Lava)
                && material_props(m).density <= material_props(below).density ==> mat_at(r, x, y - 1, z) == below
            &&& material_props(m).behavior is Gas && y < 15 && mat_at(c, x, y + 1, z) == Material::Air
                ==> mat_at(r, x, y + 1, z) == m && mat_at(r, x, y, z) == Material::Air
        }),
{
    if y > 0 {
        let m = mat_at(c, x, y, z);
        lemma_diag_keeps_column(c, p, x, y, z, m, material_props(m).density, 0);
    }
}

/// The voxel at (x, y, z) and the one at (a, b, d) have traded materials,
/// and nothing else changed.
pub open spec fn traded(c: Seq<Block>, r: Seq<Block>, x: int, y: int, z: int, a: int, b: int, d: int) -> bool {
    r == set_mat(set_mat(c, a, b, d, mat_at(c, x, y, z)), x, y, z, mat_at(c, a, b, d))
}

/// Where the voxel at (x, y, z) may go in one turn: a voxel of the chunk
/// straight below or diagonally below across one face, beside it across a
/// face, or straight above; holding Air, or a different liquid lighter than
/// the mover; and when it goes diagonally down, the voxel beside it that
/// it passes holds Air or a liquid.
pub open spec fn may_enter(c: Seq<Block>, x: int, y: int, z: int, a: int, b: int, d: int) -> bool {
    let m = mat_at(c, x, y, z);
    let t = mat_at(c, a, b, d);
    let step = (if a > x { a - x } else { x - a }) + (if d > z { d - z } else { z - d });
    &&& 0 <= a < 16 && 0 <= b < 16 && 0 <= d < 16
    &&& (b == y - 1 && step <= 1) || (b == y && step == 1) || (b == y + 1 && step == 0)
    &&& t == Material::Air || ((t is Water || t is Lava) && t != m && material_props(m).density > material_props(t).density)
    &&& b == y - 1 && step == 1 ==> (mat_at(c, a, y, d) == Material::Air || mat_at(c, a, y, d) is Water
        || mat_at(c, a, y, d) is Lava)
}

pub open spec fn moves_or_stays(c: Seq<Block>, r: Seq<Block>, x: int, y: int, z: int) -> bool {
    r == c || exists|a: int, b: int, d: int| may_enter(c, x, y, z, a, b, d) && #[trigger] traded(c, r, x, y, z, a, b, d)
}

proof fn lemma_moves_fall_diag(c: Seq<Block>, p: Seq<bool>, x: int, y: int, z: int, density: u32, i: int)
    requires
        rule_pre(c, p, x, y, z),
        y > 0,
        density == material_props(mat_at(c, x, y, z)).density,
    ensures
        moves_or_stays(c, fall_diag(c, p, x, y, z, mat_at(c, x, y, z), density, i).0, x, y, z),
    decreases 4 - i,
{
    let mat = mat_at(c, x, y, z);
    if 0 <= i < 4 {
        let nx = x + dir(i).0;
        let nz = z + dir(i).1;
        if in_range(nx) && in_range(nz) {
            let below = mat_at(c, nx, y - 1, nz);
            let level = mat_at(c, nx, y, nz);
            if (level == Material::Air || spec_is_liquid(level)) && can_displace_spec(mat, below, density) {
                assert(may_enter(c, x, y, z, nx, y - 1, nz));
                assert(traded(c, fall_diag(c, p, x, y, z, mat, density, i).0, x, y, z, nx, y - 1, nz));
                return;
            }
        }
        lemma_moves_fall_diag(c, p, x, y, z, density, i + 1);
    }
}

proof fn lemma_moves_liquid_diag(c: Seq<Block>, p: Seq<bool>, x: int, y: int, z: int, i: int)
    requires
        rule_pre(c, p, x, y, z),
        y > 0,
    ensures
        moves_or_stays(c, liquid_diag(c, p, x, y, z, mat_at(c, x, y, z), i).0, x, y, z),
    decreases 4 - i,
{
    let mat = mat_at(c, x, y, z);
    if 0 <= i < 4 {
        let nx = x + dir(i).0;
        let nz = z + dir(i).1;
        if in_range(nx) && in_range(nz) && mat_at(c, nx, y - 1, nz) == Material::Air && mat_at(c, nx, y, nz) == Material::Air {
            assert(may_enter(c, x, y, z, nx, y - 1, nz));
            assert(traded(c, liquid_diag(c, p, x, y, z, mat, i).0, x, y, z, nx, y - 1, nz));
            return;
        }
        lemma_moves_liquid_diag(c, p, x, y, z, i + 1);
    }
}

proof fn lemma_moves_sideways(c: Seq<Block>, p: Seq<bool>, x: int, y: int, z: int, i: int)
    requires
        rule_pre(c, p, x, y, z),
    ensures
        moves_or_stays(c, sideways(c, p, x, y, z, mat_at(c, x, y, z), i).0, x, y, z),
    decreases 4 - i,
{
    let mat = mat_at(c, x, y, z);
    if 0 <= i < 4 {
        let nx = x + dir(i).0;
        let nz = z + dir(i).1;
        if in_range(nx) && in_range(nz) && mat_at(c, nx, y, nz) == Material::Air {
            assert(may_enter(c, x, y, z, nx, y, nz));
            assert(traded(c, sideways(c, p, x, y, z, mat, i).0, x, y, z, nx, y, nz));
            return;
        }
        lemma_moves_sideways(c, p, x, y, z, i + 1);
    }
}

/// Each voxel's turn either leaves the chunk as it was or trades the voxel
/// with one it may enter: straight below or diagonally below across one
/// face, beside it, or straight above; holding Air or a different, lighter
/// liquid; passing only through Air or liquid when it goes diagonally down.
/// Nothing else changes in that turn.
pub proof fn lemma_turn_moves_one_step(c: Seq<Block>, p: Seq<bool>, x: int, y: int, z: int)
    requires
        c.len() == CHUNK_VOLUME,
        p.len() == CHUNK_VOLUME,
        in_chunk(x, y, z),
        !(material_props(mat_at(c, x, y, z)).lifetime is Some && decays_at(x, y, z)),
    ensures
        moves_or_stays(c, cell_step(c, p, x, y, z).0, x, y, z),
{
    let mat = mat_at(c, x, y, z);
    let pr = material_props(mat);
    let i = spec_chunk_index(x, y, z);
    if !(p[i] || mat == Material::Air || pr.behavior is Static) {
        lemma_moves_sideways(c, p, x, y, z, 0);
        if y > 0 {
            lemma_moves_fall_diag(c, p, x, y, z, pr.density, 0);
            lemma_moves_liquid_diag(c, p, x, y, z, 0);
            let below = mat_at(c, x, y - 1, z);
            if below == Material::Air || spec_is_liquid(below) {
                assert(traded(c, swap_spec(c, p, x, y, z, x, y - 1, z, mat, below).0, x, y, z, x, y - 1, z));
            }
        }
        if y < 15 && mat_at(c, x, y + 1, z) == Material::Air {
            assert(may_enter(c, x, y, z, x, y + 1, z));
            assert(traded(c, move_spec(c, p, x, y, z, x, y + 1, z, mat).0, x, y, z, x, y + 1, z));
        }
    }
}

} // verus!
