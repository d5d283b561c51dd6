use voxel_game::game::{next_state, GameEvent, GameState};
use voxel_game::physics::fire::{
    deterministic_hash, fire_positions, heat_targets, in_bounds, touches_water, try_spread,
    DIAG_UP_SPREAD_PROB, FIRE_INITIAL_LIFETIME_BITS, UP_SPREAD_PROB,
};
use voxel_game::physics::fluid::{find_flow_target, idx, lava_moves};
use voxel_game::rendering::chunk_renderer::{mesh_indices, visible_faces};
use voxel_game::world::chunk::{Block, Chunk, IVec3, Material};
use voxel_game::world::terrain::{column_material, SimpleNoise, TerrainGenerator};

#[test]
fn test_all_air_chunk_empty_mesh() {
    let chunk = Chunk::new(IVec3::zero());
    let faces = visible_faces(&chunk);
    let indices = mesh_indices(faces.len());
    assert_eq!(indices.len(), 0, "All-air chunk should have empty mesh");
}

#[test]
fn test_single_block_has_6_faces() {
    let mut chunk = Chunk::new(IVec3::zero());
    chunk.set_block(8, 8, 8, Block::new(Material::Stone));
    let indices = mesh_indices(visible_faces(&chunk).len());
    assert_eq!(indices.len(), 36, "Single block in air should have 6 faces (36 indices)");
}

#[test]
fn test_adjacent_blocks_share_face() {
    let mut chunk = Chunk::new(IVec3::zero());
    chunk.set_material(8, 8, 8, Material::Stone);
    chunk.set_material(9, 8, 8, Material::Stone);
    let indices = mesh_indices(visible_faces(&chunk).len());
    assert_eq!(indices.len(), 60, "Two adjacent blocks should have 10 faces (60 indices)");
}

#[test]
fn water_neighbours_keep_faces_and_indices_form_quads() {
    let mut chunk = Chunk::new(IVec3::zero());
    chunk.set_material(0, 0, 0, Material::Stone);
    chunk.set_material(1, 0, 0, Material::Water);
    let faces = visible_faces(&chunk);
    // the stone shows all six faces, the water shows five (not the one against stone)
    assert_eq!(faces.len(), 11);
    assert_eq!(faces[0], (0, 0, 0, 0));
    assert_eq!(mesh_indices(2), vec![0, 1, 2, 0, 2, 3, 4, 5, 6, 4, 6, 7]);
}

#[test]
fn fire_helpers() {
    assert!(in_bounds(0, 15, 7));
    assert!(!in_bounds(-1, 0, 0));
    assert!(!in_bounds(0, 16, 0));
    let h = deterministic_hash(1, 2, 3, 10.0f32.to_bits());
    let expected = ((1u64.wrapping_mul(73856093) ^ 2u64.wrapping_mul(19349663) ^ 3u64.wrapping_mul(83492791)) ^ (10.0f32.to_bits() as u64)) % 100;
    assert_eq!(h as u64, expected);
    let mut chunk = Chunk::new(IVec3::zero());
    chunk.set_block(8, 8, 8, Block::with_temperature(Material::Fire, FIRE_INITIAL_LIFETIME_BITS));
    chunk.set_material(9, 8, 8, Material::Water);
    chunk.set_material(8, 9, 8, Material::Wood);
    assert_eq!(fire_positions(&chunk), vec![(8, 8, 8)]);
    assert!(touches_water(&chunk, 8, 8, 8));
    assert!(!touches_water(&chunk, 2, 2, 2));
    let targets = heat_targets(&chunk, 8, 8, 8);
    assert_eq!(targets.len(), 5);
    assert_eq!(targets[0], (8, 9, 8, true));
    assert!(!targets.contains(&(9, 8, 8, false)));
    let mut changes = Vec::new();
    try_spread(&chunk, 8, 8, 8, &[(0, 1, 0)], 100, 9.0f32.to_bits(), &mut changes);
    assert_eq!(changes, vec![(8, 9, 8, Block::with_temperature(Material::Fire, FIRE_INITIAL_LIFETIME_BITS))]);
    let mut none = Vec::new();
    try_spread(&chunk, 8, 8, 8, &[(1, 0, 0), (0, -1, 0)], UP_SPREAD_PROB, 9.0f32.to_bits(), &mut none);
    assert!(none.is_empty());
    assert!(DIAG_UP_SPREAD_PROB < UP_SPREAD_PROB);
}

#[test]
fn fluid_helpers() {
    assert_eq!(idx(1, 2, 3), 1 + 32 + 768);
    assert!(lava_moves(1, 1, 1));
    assert!(!lava_moves(7, 1, 8));
    let mut chunk = Chunk::new(IVec3::zero());
    for x in 0..16 {
        for z in 0..16 {
            chunk.set_material(x, 0, z, Material::Stone);
            chunk.set_material(x, 1, z, Material::Stone);
        }
    }
    chunk.set_material(5, 1, 5, Material::Water);
    // the only open neighbour is straight up
    assert_eq!(find_flow_target(&chunk, 5, 1, 5, 4), Some((5, 2, 5, 1)));
    // a fully enclosed cell finds nothing
    let mut closed = Chunk::new(IVec3::zero());
    for x in 0..3 {
        for y in 0..3 {
            for z in 0..3 {
                closed.set_material(x, y, z, Material::Stone);
            }
        }
    }
    closed.set_material(1, 1, 1, Material::Water);
    assert_eq!(find_flow_target(&closed, 1, 1, 1, 4), None);
}

#[test]
fn terrain_helpers() {
    assert_eq!(column_material(20, 10), Material::Air);
    assert_eq!(column_material(10, 10), Material::Dirt);
    assert_eq!(column_material(7, 10), Material::Dirt);
    assert_eq!(column_material(6, 10), Material::Stone);
    let g = TerrainGenerator::new(42);
    assert_eq!(g.seed(), 42);
    assert_eq!(g.cave_noise().seed, 43);
    assert_eq!(TerrainGenerator::new(u32::MAX).cave_noise().seed, 0);
    let n = SimpleNoise::new(7);
    let mut h: i64 = 7;
    h = h.wrapping_mul(374761393).wrapping_add(3).wrapping_mul(668265263).wrapping_add(-4);
    h = h.wrapping_mul(1274126177).wrapping_add(5).wrapping_mul(1911520717);
    assert_eq!(n.hash_bits(3, -4, 5), h & 0xFFFF);
}

#[test]
fn game_transitions() {
    assert_eq!(GameState::default(), GameState::MainMenu);
    assert_eq!(next_state(GameState::MainMenu, GameEvent::EnterPressed), Some(GameState::Playing));
    assert_eq!(next_state(GameState::Playing, GameEvent::PlayerDied), Some(GameState::GameOver));
    assert_eq!(next_state(GameState::GameOver, GameEvent::RestartPressed), Some(GameState::MainMenu));
    assert_eq!(next_state(GameState::Victory, GameEvent::RestartPressed), Some(GameState::MainMenu));
    assert_eq!(next_state(GameState::Playing, GameEvent::EnterPressed), None);
    assert_eq!(next_state(GameState::MainMenu, GameEvent::RestartPressed), None);
}
