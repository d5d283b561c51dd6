use vstd::prelude::*;

use crate::world::chunk::{
    cells_map, chunk_of, lemma_map_written_abs, lemma_read_abs, lemma_read_after_write, read_abs, write_abs, Block,
    ChunkMap, IVec3, Material, CHUNK_VOLUME,
};

verus! {

/// The material that number key `i + 1` selects.
pub open spec fn hotkey_material(i: int) -> Material {
    if i == 0 { Material::Stone }
    else if i == 1 { Material::Dirt }
    else if i == 2 { Material::Sand }
    else if i == 3 { Material::Water }
    else if i == 4 { Material::Lava }
    else if i == 5 { Material::Wood }
    else if i == 6 { Material::Metal }
    else if i == 7 { Material::Ice }
    else { Material::Fire }
}

fn hotkey_material_exec(i: usize) -> (r: Material)
    requires
        i < 9,
    ensures
        r == hotkey_material(i as int),
{
    if i == 0 { Material::Stone }
    else if i == 1 { Material::Dirt }
    else if i == 2 { Material::Sand }
    else if i == 3 { Material::Water }
    else if i == 4 { Material::Lava }
    else if i == 5 { Material::Wood }
    else if i == 6 { Material::Metal }
    else if i == 7 { Material::Ice }
    else { Material::Fire }
}

/// The selection after looking at the first `n` number keys in order.
pub open spec fn selection(current: Material, pressed: Seq<bool>, n: int) -> Material
    decreases n,
{
    if n <= 0 {
        current
    } else if pressed[n - 1] {
        hotkey_material(n - 1)
    } else {
        selection(current, pressed, n - 1)
    }
}

/// The material selected after a frame in which `pressed[i]` says whether
/// number key `i + 1` was just pressed: the highest key pressed wins, and
/// with none pressed the selection stays.
pub fn select_material(current: Material, pressed: &Vec<bool>) -> (r: Material)
    requires
        pressed@.len() == 9,
    ensures
        r == selection(current, pressed@, 9),
{
    let mut selected = current;
    let mut i: usize = 0;
    while i < 9
        invariant
            i <= 9,
            pressed@.len() == 9,
            selected == selection(current, pressed@, i as int),
        decreases 9 - i,
    {
        if pressed[i] {
            selected = hotkey_material_exec(i);
        }
        i = i + 1;
    }
    selected
}

pub open spec fn offset(a: IVec3, d: IVec3) -> IVec3 {
    IVec3 { x: (a.x + d.x) as i32, y: (a.y + d.y) as i32, z: (a.z + d.z) as i32 }
}

/// The voxels after a click on the voxel the view ray hit: breaking turns
/// it to Air; then placing puts the selected material in front of the hit
/// face when that voxel holds Air.
pub open spec fn clicked(a: Map<IVec3, (Seq<Block>, bool)>, hit: IVec3, normal: IVec3, break_pressed: bool, place_pressed: bool, selected: Material) -> Map<IVec3, (Seq<Block>, bool)> {
    let a1 = if break_pressed { write_abs(a, hit, Block::air_spec()) } else { a };
    let place = offset(hit, normal);
    if place_pressed && read_abs(a1, place) == Material::Air {
        write_abs(a1, place, Block::new_spec(selected))
    } else {
        a1
    }
}

/// Applies a frame's clicks to the voxel the view ray hit, `hit_pos`, whose
/// hit face points along `face_normal`: a break clears it, a place puts the
/// selected material in front of that face when the voxel there is Air.
pub fn block_interaction(
    chunks: &mut ChunkMap,
    hit_pos: IVec3,
    face_normal: IVec3,
    break_pressed: bool,
    place_pressed: bool,
    selected: Material,
)
    requires
        old(chunks).wf(),
        place_pressed ==> {
            &&& i32::MIN <= hit_pos.x + face_normal.x <= i32::MAX
            &&& i32::MIN <= hit_pos.y + face_normal.y <= i32::MAX
            &&& i32::MIN <= hit_pos.z + face_normal.z <= i32::MAX
        },
    ensures
        final(chunks).wf(),
        final(chunks)@.dom() == old(chunks)@.dom(),
        cells_map(final(chunks)@) == clicked(cells_map(old(chunks)@), hit_pos, face_normal, break_pressed, place_pressed, selected),
{
    let ghost m0 = chunks@;
    if break_pressed {
        chunks.set_block(hit_pos, Block::air());
        proof {
            lemma_map_written_abs(m0, chunks@, hit_pos, Block::air_spec());
            if m0.contains_key(crate::world::chunk::chunk_of(hit_pos)) {
                assert(chunks@.dom() =~= m0.dom());
            }
        }
    }
    let ghost m1 = chunks@;
    if place_pressed {
        let place_pos = IVec3 {
            x: hit_pos.x + face_normal.x,
            y: hit_pos.y + face_normal.y,
            z: hit_pos.z + face_normal.z,
        };
        let current = chunks.get_block(place_pos);
        proof { lemma_read_abs(m1, place_pos); }
        if current == Material::Air {
            chunks.set_block(place_pos, Block::new(selected));
            proof {
                lemma_map_written_abs(m1, chunks@, place_pos, Block::new_spec(selected));
                if m1.contains_key(crate::world::chunk::chunk_of(place_pos)) {
                    assert(chunks@.dom() =~= m1.dom());
                }
            }
        }
    }
}

proof fn lemma_selection_after(current: Material, pressed: Seq<bool>, i: int, n: int)
    requires
        0 <= i < n <= pressed.len(),
        pressed[i],
        forall|j: int| i < j < n ==> !#[trigger] pressed[j],
    ensures
        selection(current, pressed, n) == hotkey_material(i),
    decreases n,
{
    if n - 1 > i {
        lemma_selection_after(current, pressed, i, n - 1);
    }
}

proof fn lemma_selection_none(current: Material, pressed: Seq<bool>, n: int)
    requires
        n <= pressed.len(),
        forall|j: int| 0 <= j < n ==> !#[trigger] pressed[j],
    ensures
        selection(current, pressed, n) == current,
    decreases n,
{
    if n > 0 {
        lemma_selection_none(current, pressed, n - 1);
    }
}

/// Of the number keys pressed in a frame the highest wins: when key i + 1
/// is pressed and no higher one is, the selection becomes the material of
/// key i + 1 (1 Stone, 2 Dirt, 3 Sand, 4 Water, 5 Lava, 6 Wood, 7 Metal,
/// 8 Ice, 9 Fire); with no key pressed it stays as it was.
pub proof fn lemma_highest_key_wins(current: Material, pressed: Seq<bool>, i: int)
    requires
        pressed.len() == 9,
    ensures
        0 <= i < 9 && pressed[i] && (forall|j: int| i < j < 9 ==> !#[trigger] pressed[j]) ==> selection(current, pressed, 9)
            == [Material::Stone, Material::Dirt, Material::Sand, Material::Water, Material::Lava, Material::Wood,
                Material::Metal, Material::Ice, Material::Fire][i],
        (forall|j: int| 0 <= j < 9 ==> !#[trigger] pressed[j]) ==> selection(current, pressed, 9) == current,
{
    if 0 <= i < 9 && pressed[i] && (forall|j: int| i < j < 9 ==> !#[trigger] pressed[j]) {
        lemma_selection_after(current, pressed, i, 9);
    }
    if forall|j: int| 0 <= j < 9 ==> !#[trigger] pressed[j] {
        lemma_selection_none(current, pressed, 9);
    }
}

/// What a click does at each position `q`: a break turns the hit voxel to
/// Air; then a place puts the selected material in the voxel in front of
/// the hit face if that voxel holds Air by then; a write lands only where a
/// chunk is loaded, and every other position keeps its material.
pub proof fn lemma_click_effect(
    a: Map<IVec3, (Seq<Block>, bool)>,
    hit: IVec3,
    normal: IVec3,
    break_pressed: bool,
    place_pressed: bool,
    selected: Material,
    q: IVec3,
)
    requires
        forall|p: IVec3| #[trigger] a.contains_key(p) ==> a[p].0.len() == CHUNK_VOLUME,
        i32::MIN <= hit.x + normal.x <= i32::MAX,
        i32::MIN <= hit.y + normal.y <= i32::MAX,
        i32::MIN <= hit.z + normal.z <= i32::MAX,
    ensures
        ({
            let place = IVec3 { x: (hit.x + normal.x) as i32, y: (hit.y + normal.y) as i32, z: (hit.z + normal.z) as i32 };
            let loaded = a.contains_key(chunk_of(q));
            let broken = if break_pressed && q == hit && loaded { Material::Air } else { read_abs(a, q) };
            let placed_here = place_pressed && q == place && loaded && (if break_pressed && place == hit && a.contains_key(chunk_of(place)) {
                Material::Air
            } else {
                read_abs(a, place)
            }) == Material::Air;
            read_abs(clicked(a, hit, normal, break_pressed, place_pressed, selected), q)
                == if placed_here { selected } else { broken }
        }),
{
    let a1 = if break_pressed { write_abs(a, hit, Block::air_spec()) } else { a };
    let place = offset(hit, normal);
    lemma_read_after_write(a, hit, Block::air_spec(), q);
    lemma_read_after_write(a, hit, Block::air_spec(), place);
    lemma_read_after_write(a1, place, Block::new_spec(selected), q);
    if break_pressed {
        assert(a1.dom() == a.dom());
    }
}

} // verus!
