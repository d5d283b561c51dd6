use vstd::prelude::*;

use crate::world::chunk::{map_material, ChunkMap, IVec3, Material};

verus! {

pub open spec fn blocks_player(m: Material) -> bool {
    m != Material::Air && m != Material::Water
}

/// Whether the voxel at a world position blocks the player: anything but Air
/// and Water does.
pub fn is_solid_at(world_pos: IVec3, chunks: &ChunkMap) -> (r: bool)
    requires
        chunks.wf(),
    ensures
        r == blocks_player(map_material(chunks@, world_pos)),
{
    let mat = chunks.get_block(world_pos);
    mat != Material::Air && mat != Material::Water
}

/// Whether some voxel of the box from `lo` to `hi` (inclusive) blocks the
/// player.
pub open spec fn box_blocked(chunks: ChunkMap, lo: IVec3, hi: IVec3) -> bool {
    exists|p: IVec3| lo.x <= p.x <= hi.x && lo.y <= p.y <= hi.y && lo.z <= p.z <= hi.z
        && #[trigger] blocks_player(map_material(chunks@, p))
}

/// Whether any voxel of the box from `lo` to `hi`, inclusive, blocks the
/// player; the box a player occupies is found from its position.
pub fn aabb_blocked(lo: IVec3, hi: IVec3, chunks: &ChunkMap) -> (r: bool)
    requires
        chunks.wf(),
    ensures
        r == box_blocked(*chunks, lo, hi),
{
    if lo.x > hi.x || lo.y > hi.y || lo.z > hi.z {
        return false;
    }
    let mut x = lo.x;
    loop
        invariant
            chunks.wf(),
            lo.x <= x <= hi.x,
            lo.y <= hi.y && lo.z <= hi.z,
            forall|p: IVec3| lo.x <= p.x < x && lo.y <= p.y <= hi.y && lo.z <= p.z <= hi.z
                ==> !#[trigger] blocks_player(map_material(chunks@, p)),
        ensures
            forall|p: IVec3| lo.x <= p.x <= hi.x && lo.y <= p.y <= hi.y && lo.z <= p.z <= hi.z
                ==> !#[trigger] blocks_player(map_material(chunks@, p)),
        decreases hi.x - x,
    {
        let mut y = lo.y;
        loop
            invariant
                chunks.wf(),
                lo.x <= x <= hi.x,
                lo.y <= y <= hi.y && lo.z <= hi.z,
                forall|p: IVec3| lo.x <= p.x < x && lo.y <= p.y <= hi.y && lo.z <= p.z <= hi.z
                    ==> !#[trigger] blocks_player(map_material(chunks@, p)),
                forall|p: IVec3| p.x == x && lo.y <= p.y < y && lo.z <= p.z <= hi.z
                    ==> !#[trigger] blocks_player(map_material(chunks@, p)),
            ensures
                forall|p: IVec3| p.x == x && lo.y <= p.y <= hi.y && lo.z <= p.z <= hi.z
                    ==> !#[trigger] blocks_player(map_material(chunks@, p)),
            decreases hi.y - y,
        {
            let mut z = lo.z;
            loop
                invariant
                    chunks.wf(),
                    lo.x <= x <= hi.x,
                    lo.y <= y <= hi.y,
                    lo.z <= z <= hi.z,
                    forall|p: IVec3| lo.x <= p.x < x && lo.y <= p.y <= hi.y && lo.z <= p.z <= hi.z
                        ==> !#[trigger] blocks_player(map_material(chunks@, p)),
                    forall|p: IVec3| p.x == x && lo.y <= p.y < y && lo.z <= p.z <= hi.z
                        ==> !#[trigger] blocks_player(map_material(chunks@, p)),
                    forall|p: IVec3| p.x == x && p.y == y && lo.z <= p.z < z
                        ==> !#[trigger] blocks_player(map_material(chunks@, p)),
                ensures
                    forall|p: IVec3| p.x == x && p.y == y && lo.z <= p.z <= hi.z
                        ==> !#[trigger] blocks_player(map_material(chunks@, p)),
                decreases hi.z - z,
            {
                let p = IVec3 { x, y, z };
                if is_solid_at(p, chunks) {
                    return true;
                }
                if z == hi.z {
                    break;
                }
                z = z + 1;
            }
            if y == hi.y {
                break;
            }
            y = y + 1;
        }
        if x == hi.x {
            break;
        }
        x = x + 1;
    }
    false
}

} // verus!
