use voxel_game::player::interaction::{block_interaction, select_material};
use voxel_game::world::chunk::{Block, Chunk, ChunkMap, IVec3, Material};
use voxel_game::world::chunk_manager::{chunks_to_load, RENDER_DISTANCE};

fn one_chunk_map() -> ChunkMap {
    let mut map = ChunkMap::new();
    map.insert_chunk(Chunk::new(IVec3::zero()));
    map
}

#[test]
fn number_keys_select_materials_and_the_highest_wins() {
    let none = vec![false; 9];
    assert_eq!(select_material(Material::Stone, &none), Material::Stone);
    let mut pressed = vec![false; 9];
    pressed[3] = true;
    assert_eq!(select_material(Material::Stone, &pressed), Material::Water);
    pressed[8] = true;
    assert_eq!(select_material(Material::Stone, &pressed), Material::Fire);
    let mut second = vec![false; 9];
    second[1] = true;
    assert_eq!(select_material(Material::Lava, &second), Material::Dirt);
}

#[test]
fn breaking_clears_the_hit_voxel() {
    let mut map = one_chunk_map();
    map.set_block(IVec3::new(4, 4, 4), Block::new(Material::Stone));
    block_interaction(&mut map, IVec3::new(4, 4, 4), IVec3::new(0, 1, 0), true, false, Material::Wood);
    assert_eq!(map.get_block(IVec3::new(4, 4, 4)), Material::Air);
    assert_eq!(map.get_block(IVec3::new(4, 5, 4)), Material::Air);
}

#[test]
fn placing_fills_the_air_in_front_of_the_hit_face_only() {
    let mut map = one_chunk_map();
    map.set_block(IVec3::new(4, 4, 4), Block::new(Material::Stone));
    block_interaction(&mut map, IVec3::new(4, 4, 4), IVec3::new(0, 1, 0), false, true, Material::Wood);
    assert_eq!(map.get_block(IVec3::new(4, 5, 4)), Material::Wood);
    assert_eq!(map.get_block(IVec3::new(4, 4, 4)), Material::Stone);
    // the voxel in front is now taken: placing again changes nothing
    block_interaction(&mut map, IVec3::new(4, 4, 4), IVec3::new(0, 1, 0), false, true, Material::Ice);
    assert_eq!(map.get_block(IVec3::new(4, 5, 4)), Material::Wood);
    // breaking and placing in one frame: the break comes first
    block_interaction(&mut map, IVec3::new(4, 5, 4), IVec3::new(0, -1, 0), true, true, Material::Metal);
    assert_eq!(map.get_block(IVec3::new(4, 5, 4)), Material::Air);
    assert_eq!(map.get_block(IVec3::new(4, 4, 4)), Material::Stone);
}

#[test]
fn chunks_within_reach_are_loaded_once() {
    let map = ChunkMap::new();
    let all = chunks_to_load(IVec3::zero(), &vec![], &map);
    let side = (2 * RENDER_DISTANCE + 1) as usize;
    assert_eq!(all.len(), side * side * side);
    assert_eq!(all[0], IVec3::new(-4, -4, -4));
    assert_eq!(all[1], IVec3::new(-4, -4, -3));
    assert_eq!(all[728], IVec3::new(4, 4, 4));

    let map = one_chunk_map();
    let existing = vec![IVec3::new(1, 0, 0), IVec3::new(50, 50, 50)];
    let some = chunks_to_load(IVec3::zero(), &existing, &map);
    assert_eq!(some.len(), 727);
    assert!(!some.contains(&IVec3::zero()));
    assert!(!some.contains(&IVec3::new(1, 0, 0)));
    assert!(some.contains(&IVec3::new(-1, 0, 0)));
}
