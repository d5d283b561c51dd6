use voxel_game::physics::simulation::{simulate_chunk, simulate_step};
use voxel_game::world::chunk::{Block, Chunk, IVec3, Material, CHUNK_SIZE};

fn count(chunk: &Chunk, m: Material) -> usize {
    let mut n = 0;
    for x in 0..CHUNK_SIZE {
        for y in 0..CHUNK_SIZE {
            for z in 0..CHUNK_SIZE {
                if chunk.get_material(x, y, z) == m {
                    n += 1;
                }
            }
        }
    }
    n
}

#[test]
fn test_sand_falls() {
    let mut chunk = Chunk::new(IVec3::zero());
    chunk.set_material(8, 8, 8, Material::Sand);
    chunk.dirty = false;
    let mut chunks = vec![chunk];
    let result = simulate_step(&mut chunks);
    assert!(result.contains_key(IVec3::zero()) || chunks[0].get_material(8, 7, 8) == Material::Sand);
}

#[test]
fn test_sand_on_floor_stays() {
    let mut chunk = Chunk::new(IVec3::zero());
    for x in 0..CHUNK_SIZE {
        for z in 0..CHUNK_SIZE {
            chunk.set_material(x, 1, z, Material::Stone);
        }
    }
    chunk.set_material(8, 2, 8, Material::Sand);
    let mut chunks = vec![chunk];
    let _ = simulate_step(&mut chunks);
    assert_eq!(chunks[0].get_material(8, 2, 8), Material::Sand);
}

#[test]
fn test_water_flows() {
    let mut chunk = Chunk::new(IVec3::zero());
    for x in 0..CHUNK_SIZE {
        for z in 0..CHUNK_SIZE {
            chunk.set_material(x, 0, z, Material::Stone);
        }
    }
    chunk.set_material(8, 1, 8, Material::Water);
    let mut chunks = vec![chunk];
    let result = simulate_step(&mut chunks);
    assert!(result.contains_key(IVec3::zero()));
    assert_ne!(chunks[0].get_material(8, 1, 8), Material::Water);
    let mut found = false;
    for x in 0..CHUNK_SIZE {
        for z in 0..CHUNK_SIZE {
            if chunks[0].get_material(x, 1, z) == Material::Water {
                found = true;
            }
        }
    }
    assert!(found, "Water should be conserved");
}

#[test]
fn test_sand_sinks_through_water() {
    let mut chunk = Chunk::new(IVec3::zero());
    for x in 0..CHUNK_SIZE {
        for z in 0..CHUNK_SIZE {
            chunk.set_material(x, 0, z, Material::Stone);
        }
    }
    chunk.set_material(8, 1, 8, Material::Water);
    chunk.set_material(8, 2, 8, Material::Sand);
    let mut chunks = vec![chunk];
    for _ in 0..5 {
        let _ = simulate_step(&mut chunks);
    }
    assert_eq!(chunks[0].get_material(8, 1, 8), Material::Sand, "Sand should sink to y=1");
}

#[test]
fn sand_moves_one_cell_and_reports_its_old_cell() {
    let mut chunk = Chunk::new(IVec3::zero());
    chunk.set_material(8, 8, 8, Material::Sand);
    chunk.dirty = false;
    let deltas = simulate_chunk(&mut chunk);
    assert_eq!(chunk.get_material(8, 7, 8), Material::Sand);
    assert_eq!(chunk.get_material(8, 8, 8), Material::Air);
    assert_eq!(deltas.len(), 1);
    assert_eq!((deltas[0].x, deltas[0].y, deltas[0].z), (8, 8, 8));
    assert_eq!(deltas[0].new_block.material, Material::Air);
    assert!(chunk.dirty);
}

#[test]
fn still_chunk_reports_nothing() {
    let mut chunk = Chunk::new(IVec3::new(3, 3, 3));
    chunk.set_material(0, 0, 0, Material::Sand);
    chunk.set_material(5, 5, 5, Material::Stone);
    chunk.dirty = false;
    let mut chunks = vec![chunk];
    let result = simulate_step(&mut chunks);
    assert!(!result.contains_key(IVec3::new(3, 3, 3)));
    assert!(result.get(IVec3::new(3, 3, 3)).is_none());
    assert!(!chunks[0].dirty);
}

#[test]
fn fire_rises_or_burns_out() {
    let mut chunk = Chunk::new(IVec3::zero());
    // (1,1,1): 7+13+23 = 43, so this fire does not burn out and rises.
    chunk.set_block(1, 1, 1, Block::with_temperature(Material::Fire, 0x4120_0000));
    // (0,0,0): 0 < 10, so this fire burns out.
    chunk.set_material(0, 0, 0, Material::Fire);
    let deltas = simulate_chunk(&mut chunk);
    assert_eq!(chunk.get_material(0, 0, 0), Material::Air);
    assert_eq!(chunk.get_material(1, 2, 1), Material::Fire);
    assert_eq!(chunk.get_material(1, 1, 1), Material::Air);
    // temperatures stay with their cells
    assert_eq!(chunk.get_block(1, 1, 1).temperature, 0x4120_0000);
    assert_eq!(deltas.len(), 2);
}

#[test]
fn step_keeps_material_counts() {
    let mut chunk = Chunk::new(IVec3::zero());
    for x in 0..CHUNK_SIZE {
        chunk.set_material(x, 10, 3, Material::Sand);
        chunk.set_material(x, 6, 4, Material::Water);
        chunk.set_material(x, 2, 5, Material::Lava);
    }
    let sand = count(&chunk, Material::Sand);
    let water = count(&chunk, Material::Water);
    let lava = count(&chunk, Material::Lava);
    let mut chunks = vec![chunk];
    for _ in 0..10 {
        let _ = simulate_step(&mut chunks);
        assert_eq!(count(&chunks[0], Material::Sand), sand);
        assert_eq!(count(&chunks[0], Material::Water), water);
        assert_eq!(count(&chunks[0], Material::Lava), lava);
    }
}

#[test]
fn static_voxels_stay_and_reports_are_never_empty() {
    let mut chunk = Chunk::new(IVec3::new(2, 0, 0));
    chunk.set_block(5, 5, 5, Block::with_temperature(Material::Stone, 42));
    chunk.set_material(5, 6, 5, Material::Wood);
    chunk.set_material(5, 7, 5, Material::Water);
    chunk.set_material(9, 9, 9, Material::Sand);
    chunk.set_material(1, 1, 1, Material::Ice);
    let still = Chunk::new(IVec3::new(3, 0, 0));
    let before = chunk.blocks.clone();
    let mut chunks = vec![chunk, still];
    let result = simulate_step(&mut chunks);
    assert_eq!(chunks[0].get_block(5, 5, 5), before[5 + 5 * 16 + 5 * 256]);
    assert_eq!(chunks[0].get_material(5, 6, 5), Material::Wood);
    assert_eq!(chunks[0].get_material(1, 1, 1), Material::Ice);
    // no fire: every material keeps its count, Air included
    assert_eq!(count(&chunks[0], Material::Air), 4096 - 5);
    assert!(result.get(IVec3::new(2, 0, 0)).map_or(false, |d| !d.is_empty()));
    assert!(!result.contains_key(IVec3::new(3, 0, 0)));
    assert!(chunks[0].dirty);
}
