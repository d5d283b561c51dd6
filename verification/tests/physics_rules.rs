use voxel_game::physics::chunk_sync::{sync_ghost_cells, GhostCellData};
use voxel_game::physics::collision::{aabb_blocked, is_solid_at};
use voxel_game::physics::interactions::{check_interactions, InteractionResult, InteractionTable};
use voxel_game::physics::material::{MaterialBehavior, MaterialProperties};
use voxel_game::world::chunk::{Chunk, ChunkMap, IVec3, Material};

const ALL: [Material; 10] = [
    Material::Air,
    Material::Stone,
    Material::Dirt,
    Material::Sand,
    Material::Water,
    Material::Lava,
    Material::Wood,
    Material::Metal,
    Material::Ice,
    Material::Fire,
];

#[test]
fn test_all_materials_have_properties() {
    for mat in ALL {
        let props = MaterialProperties::get(mat);
        assert_eq!(props.material, mat);
    }
}

#[test]
fn test_density_ordering() {
    let fire = MaterialProperties::get(Material::Fire);
    let water = MaterialProperties::get(Material::Water);
    let sand = MaterialProperties::get(Material::Sand);
    let stone = MaterialProperties::get(Material::Stone);
    let metal = MaterialProperties::get(Material::Metal);
    assert!(fire.density < water.density);
    assert!(water.density < sand.density);
    assert!(sand.density < stone.density);
    assert!(stone.density < metal.density);
}

#[test]
fn test_flammable_materials() {
    assert!(MaterialProperties::get(Material::Wood).flammable);
    assert!(MaterialProperties::get(Material::Dirt).flammable);
    assert!(!MaterialProperties::get(Material::Stone).flammable);
    assert!(!MaterialProperties::get(Material::Metal).flammable);
}

#[test]
fn material_table_values() {
    let water = MaterialProperties::get(Material::Water);
    assert_eq!(water.behavior, MaterialBehavior::Liquid);
    assert_eq!(water.density, 10000);
    assert_eq!(water.flow_speed, 4);
    assert!(water.is_mobile());
    let fire = MaterialProperties::get(Material::Fire);
    assert_eq!(fire.lifetime, Some(10));
    assert_eq!(fire.density, 5);
    assert!(!MaterialProperties::get(Material::Ice).is_mobile());
    assert_eq!(MaterialProperties::get(Material::Ice).density, 9170);
    assert_eq!(MaterialProperties::get(Material::Sand).behavior, MaterialBehavior::FallingSolid);
}

#[test]
fn test_water_lava_interaction() {
    let table = InteractionTable::new();
    let result = table.check(Material::Water, Material::Lava);
    assert_eq!(result, InteractionResult::SwapBoth(Material::Stone, Material::Air));
}

#[test]
fn test_fire_wood_spread() {
    let table = InteractionTable::new();
    let result = table.check(Material::Fire, Material::Wood);
    assert_eq!(result, InteractionResult::Replace(Material::Fire));
}

#[test]
fn test_lava_ice() {
    let table = InteractionTable::new();
    let result = table.check(Material::Lava, Material::Ice);
    assert_eq!(result, InteractionResult::SwapBoth(Material::Stone, Material::Water));
}

#[test]
fn interactions_test_fire_extinguished_by_water() {
    let table = InteractionTable::new();
    let result = table.check(Material::Water, Material::Fire);
    assert_eq!(result, InteractionResult::Replace(Material::Air));
}

#[test]
fn test_no_interaction_stone_stone() {
    let table = InteractionTable::new();
    let result = table.check(Material::Stone, Material::Stone);
    assert_eq!(result, InteractionResult::NoEffect);
}

#[test]
fn test_no_interaction_metal_fire() {
    let table = InteractionTable::new();
    let result = table.check(Material::Metal, Material::Fire);
    assert_eq!(result, InteractionResult::NoEffect);
}

#[test]
fn test_lava_sand_glass() {
    let table = InteractionTable::new();
    let result = table.check(Material::Lava, Material::Sand);
    assert_eq!(result, InteractionResult::Replace(Material::Stone));
}

#[test]
fn test_fire_ice_water() {
    let table = InteractionTable::new();
    let result = table.check(Material::Fire, Material::Ice);
    assert_eq!(result, InteractionResult::Replace(Material::Water));
}

#[test]
fn interaction_table_default_and_reverse_pairs() {
    let table = InteractionTable::default();
    assert_eq!(table.check(Material::Lava, Material::Water), InteractionResult::SwapBoth(Material::Air, Material::Stone));
    assert_eq!(table.check(Material::Fire, Material::Dirt), InteractionResult::Replace(Material::Air));
    assert_eq!(table.check(Material::Dirt, Material::Fire), InteractionResult::NoEffect);
    let mut rules = 0;
    for a in ALL {
        for b in ALL {
            if table.check(a, b) != InteractionResult::NoEffect {
                rules += 1;
            }
        }
    }
    assert_eq!(rules, 15);
}

#[test]
fn check_interactions_lists_neighbour_changes() {
    let blocks = [Material::Water, Material::Air, Material::Wood, Material::Lava, Material::Ice, Material::Stone];
    let changes = check_interactions(&blocks, Material::Lava);
    // Water beside lava becomes stone, wood catches fire, ice melts; air,
    // other lava and stone are left alone.
    assert_eq!(changes, vec![(0, Material::Stone), (2, Material::Fire), (4, Material::Water)]);
    let none = check_interactions(&[Material::Air; 6], Material::Fire);
    assert!(none.is_empty());
}

#[test]
fn test_ghost_cell_sync() {
    let mut chunk_a = Chunk::new(IVec3::new(0, 0, 0));
    let mut chunk_b = Chunk::new(IVec3::new(1, 0, 0));
    chunk_a.set_material(15, 5, 5, Material::Sand);
    chunk_b.set_material(0, 5, 5, Material::Water);
    let neighbors: [Option<&Chunk>; 6] = [Some(&chunk_b), None, None, None, None, None];
    let ghost = sync_ghost_cells(&chunk_a, &neighbors);
    assert_eq!(ghost.get_neighbor_material(16, 5, 5), Material::Water);
}

#[test]
fn test_no_neighbor_returns_air() {
    let chunk = Chunk::new(IVec3::zero());
    let neighbors: [Option<&Chunk>; 6] = [None; 6];
    let ghost = sync_ghost_cells(&chunk, &neighbors);
    assert_eq!(ghost.get_neighbor_material(16, 5, 5), Material::Air);
    assert_eq!(ghost.get_neighbor_material(-1, 5, 5), Material::Air);
}

#[test]
fn ghost_faces_mirror_each_neighbour() {
    let center = Chunk::new(IVec3::zero());
    let mut below = Chunk::new(IVec3::new(0, -1, 0));
    below.set_material(3, 15, 7, Material::Lava);
    let mut front = Chunk::new(IVec3::new(0, 0, 1));
    front.set_material(2, 9, 0, Material::Ice);
    let neighbors: [Option<&Chunk>; 6] = [None, None, None, Some(&below), Some(&front), None];
    let ghost = sync_ghost_cells(&center, &neighbors);
    assert_eq!(ghost.get_neighbor_material(3, -1, 7), Material::Lava);
    assert_eq!(ghost.get_neighbor_material(2, 9, 16), Material::Ice);
    assert_eq!(ghost.get_neighbor_material(2, 9, -1), Material::Air);
    assert_eq!(ghost.get_neighbor_material(5, 5, 5), Material::Air);
    let empty = GhostCellData::default();
    assert_eq!(empty.get_neighbor_material(16, 0, 0), Material::Air);
}

#[test]
fn solid_lookup_and_boxes() {
    let mut map = ChunkMap::new();
    map.insert_chunk(Chunk::new(IVec3::zero()));
    let mut c = Chunk::new(IVec3::zero());
    c.set_material(4, 4, 4, Material::Stone);
    c.set_material(6, 4, 4, Material::Water);
    map.insert_chunk(c);
    assert!(is_solid_at(IVec3::new(4, 4, 4), &map));
    assert!(!is_solid_at(IVec3::new(6, 4, 4), &map));
    assert!(!is_solid_at(IVec3::new(40, 4, 4), &map));
    assert!(aabb_blocked(IVec3::new(3, 3, 3), IVec3::new(5, 5, 5), &map));
    assert!(!aabb_blocked(IVec3::new(5, 3, 3), IVec3::new(7, 5, 5), &map));
    assert!(!aabb_blocked(IVec3::new(5, 3, 3), IVec3::new(4, 5, 5), &map));
}
