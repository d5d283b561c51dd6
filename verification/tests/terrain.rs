use voxel_game::world::chunk::{Block, Chunk, IVec3, Material, CHUNK_SIZE};
use voxel_game::world::terrain::{SimpleNoise, TerrainGenerator, SURFACE_Y};

const TERRAIN_HEIGHT_SCALE: f32 = 30.0;
const CAVE_THRESHOLD: f64 = 0.3;

/// The lattice value at an integer point, scaled to -1..1.
fn lattice(n: &SimpleNoise, x: i64, y: i64, z: i64) -> f64 {
    (n.hash_bits(x, y, z) as f64 / 0xFFFF as f64) * 2.0 - 1.0
}

fn smooth(f: f64) -> f64 {
    f * f * (3.0 - 2.0 * f)
}

fn hash_noise_2d(n: &SimpleNoise, x: f64, z: f64) -> f64 {
    let ix = x.floor() as i64;
    let iz = z.floor() as i64;
    let sx = smooth(x - ix as f64);
    let sz = smooth(z - iz as f64);
    let v00 = lattice(n, ix, 0, iz);
    let v10 = lattice(n, ix + 1, 0, iz);
    let v01 = lattice(n, ix, 0, iz + 1);
    let v11 = lattice(n, ix + 1, 0, iz + 1);
    let v0 = v00 + sx * (v10 - v00);
    let v1 = v01 + sx * (v11 - v01);
    v0 + sz * (v1 - v0)
}

fn hash_noise_3d(n: &SimpleNoise, x: f64, y: f64, z: f64) -> f64 {
    let ix = x.floor() as i64;
    let iy = y.floor() as i64;
    let iz = z.floor() as i64;
    let sx = smooth(x - ix as f64);
    let sy = smooth(y - iy as f64);
    let sz = smooth(z - iz as f64);
    let v00 = lattice(n, ix, iy, iz) + sx * (lattice(n, ix + 1, iy, iz) - lattice(n, ix, iy, iz));
    let v10 = lattice(n, ix, iy + 1, iz) + sx * (lattice(n, ix + 1, iy + 1, iz) - lattice(n, ix, iy + 1, iz));
    let v01 = lattice(n, ix, iy, iz + 1) + sx * (lattice(n, ix + 1, iy, iz + 1) - lattice(n, ix, iy, iz + 1));
    let v11 = lattice(n, ix, iy + 1, iz + 1)
        + sx * (lattice(n, ix + 1, iy + 1, iz + 1) - lattice(n, ix, iy + 1, iz + 1));
    let v0 = v00 + sy * (v10 - v00);
    let v1 = v01 + sy * (v11 - v01);
    v0 + sz * (v1 - v0)
}

fn noise_2d(n: &SimpleNoise, x: f32, z: f32) -> f64 {
    let (mut value, mut amplitude, mut frequency, mut max_value) = (0.0f64, 1.0f64, 1.0f64, 0.0f64);
    for _ in 0..5 {
        value += hash_noise_2d(n, (x as f64) * frequency * 0.01, (z as f64) * frequency * 0.01) * amplitude;
        max_value += amplitude;
        amplitude *= 0.5;
        frequency *= 2.0;
    }
    value / max_value
}

fn noise_3d(n: &SimpleNoise, x: f32, y: f32, z: f32) -> f64 {
    let (mut value, mut amplitude, mut frequency, mut max_value) = (0.0f64, 1.0f64, 1.0f64, 0.0f64);
    for _ in 0..3 {
        value += hash_noise_3d(
            n,
            (x as f64) * frequency * 0.05,
            (y as f64) * frequency * 0.05,
            (z as f64) * frequency * 0.05,
        ) * amplitude;
        max_value += amplitude;
        amplitude *= 0.5;
        frequency *= 2.0;
    }
    value / max_value
}

/// Generates a chunk the way the game does: the noises give each column's
/// surface and each voxel's cave flag.
fn generate(gen: &mut TerrainGenerator, chunk_pos: IVec3) -> Chunk {
    let height = gen.height_noise();
    let caves = gen.cave_noise();
    let base = (chunk_pos.x * 16, chunk_pos.y * 16, chunk_pos.z * 16);
    let mut surface = vec![0i32; 256];
    for x in 0..16 {
        for z in 0..16 {
            let wx = (base.0 + x as i32) as f32;
            let wz = (base.2 + z as i32) as f32;
            let n = noise_2d(&height, wx, wz);
            surface[x + z * 16] = (SURFACE_Y as f32 + n as f32 * TERRAIN_HEIGHT_SCALE) as i32;
        }
    }
    let mut cave = vec![false; 4096];
    for (i, c) in cave.iter_mut().enumerate() {
        let (x, y, z) = (i % 16, (i / 16) % 16, i / 256);
        let wx = (base.0 + x as i32) as f32;
        let wy = (base.1 + y as i32) as f32;
        let wz = (base.2 + z as i32) as f32;
        *c = noise_3d(&caves, wx, wy, wz) > CAVE_THRESHOLD;
    }
    gen.generate_chunk(chunk_pos, &surface, &cave)
}

fn count_material(chunk: &Chunk, material: Material) -> usize {
    let mut count = 0;
    for x in 0..CHUNK_SIZE {
        for y in 0..CHUNK_SIZE {
            for z in 0..CHUNK_SIZE {
                if chunk.get_material(x, y, z) == material {
                    count += 1;
                }
            }
        }
    }
    count
}

#[test]
fn test_deterministic() {
    let mut gen1 = TerrainGenerator::new(42);
    let mut gen2 = TerrainGenerator::new(42);
    let chunk1 = generate(&mut gen1, IVec3::new(0, 8, 0));
    let chunk2 = generate(&mut gen2, IVec3::new(0, 8, 0));
    for x in 0..CHUNK_SIZE {
        for y in 0..CHUNK_SIZE {
            for z in 0..CHUNK_SIZE {
                assert_eq!(chunk1.get_material(x, y, z), chunk2.get_material(x, y, z), "Mismatch at ({}, {}, {})", x, y, z);
            }
        }
    }
}

#[test]
fn test_surface_has_air() {
    let mut gen = TerrainGenerator::new(42);
    let chunk = generate(&mut gen, IVec3::new(0, 12, 0));
    let air_count = count_material(&chunk, Material::Air);
    assert!(
        air_count > CHUNK_SIZE * CHUNK_SIZE * CHUNK_SIZE / 2,
        "High chunk should have significant air, got {} air blocks",
        air_count
    );
}

#[test]
fn test_underground_has_stone() {
    let mut gen = TerrainGenerator::new(42);
    let chunk = generate(&mut gen, IVec3::new(0, 0, 0));
    let stone_count = count_material(&chunk, Material::Stone);
    assert!(stone_count > CHUNK_SIZE * CHUNK_SIZE, "Deep chunk should have stone, got {} stone blocks", stone_count);
}

#[test]
fn test_caves_exist() {
    let mut gen = TerrainGenerator::new(42);
    let mut found_cave = false;
    for cx in -2..=2 {
        for cz in -2..=2 {
            let chunk = generate(&mut gen, IVec3::new(cx, 6, cz));
            for x in 2..CHUNK_SIZE - 2 {
                for y in 2..CHUNK_SIZE - 2 {
                    for z in 2..CHUNK_SIZE - 2 {
                        if chunk.get_material(x, y, z) == Material::Air {
                            let neighbors_air = [
                                chunk.get_material(x - 1, y, z) == Material::Air,
                                chunk.get_material(x + 1, y, z) == Material::Air,
                                chunk.get_material(x, y - 1, z) == Material::Air,
                                chunk.get_material(x, y + 1, z) == Material::Air,
                            ];
                            if neighbors_air.iter().filter(|&&a| a).count() < 3 {
                                found_cave = true;
                            }
                        }
                    }
                }
            }
        }
    }
    assert!(found_cave, "Should find at least one cave in generated terrain");
}

#[test]
fn test_different_seeds_differ() {
    let mut gen1 = TerrainGenerator::new(42);
    let mut gen2 = TerrainGenerator::new(99);
    let chunk1 = generate(&mut gen1, IVec3::new(0, 8, 0));
    let chunk2 = generate(&mut gen2, IVec3::new(0, 8, 0));
    let mut differences = 0;
    for x in 0..CHUNK_SIZE {
        for y in 0..CHUNK_SIZE {
            for z in 0..CHUNK_SIZE {
                if chunk1.get_material(x, y, z) != chunk2.get_material(x, y, z) {
                    differences += 1;
                }
            }
        }
    }
    assert!(differences > 0, "Different seeds should produce different terrain");
}

#[test]
fn columns_are_layered_and_caves_hollow_them() {
    let mut gen = TerrainGenerator::new(1);
    // every column's surface at world height 8 inside the chunk at y = 0
    let surface = vec![8i32; 256];
    let mut cave = vec![false; 4096];
    // a cave voxel in the stone of column (2, 3) at y = 1, and one in the air
    cave[2 + 16 + 3 * 256] = true;
    cave[2 + 16 * 12 + 3 * 256] = true;
    let chunk = gen.generate_chunk(IVec3::new(0, 0, 0), &surface, &cave);
    assert!(chunk.dirty);
    assert_eq!(chunk.position, IVec3::new(0, 0, 0));
    assert_eq!(chunk.get_material(0, 9, 0), Material::Air);
    assert_eq!(chunk.get_material(0, 8, 0), Material::Dirt);
    assert_eq!(chunk.get_material(0, 5, 0), Material::Dirt);
    assert_eq!(chunk.get_material(0, 4, 0), Material::Stone);
    assert_eq!(chunk.get_material(2, 1, 3), Material::Air);
    assert_eq!(chunk.get_material(2, 12, 3), Material::Air);
    assert_eq!(chunk.get_material(2, 2, 3), Material::Stone);
    assert_eq!(chunk.get_block(0, 4, 0), Block::new(Material::Stone));
    assert_eq!(count_material(&chunk, Material::Stone), 256 * 5 - 1);
}

#[test]
fn generated_terrain_is_air_dirt_or_stone_and_keeps_the_generator() {
    let mut gen = TerrainGenerator::new(42);
    let chunk = generate(&mut gen, IVec3::new(1, 7, -2));
    assert_eq!(gen.seed(), 42);
    assert!(chunk.dirty);
    assert_eq!(chunk.position, IVec3::new(1, 7, -2));
    for b in &chunk.blocks {
        assert!(matches!(b.material, Material::Air | Material::Dirt | Material::Stone));
    }
}

#[test]
fn generators_from_one_seed_agree_and_keep_their_seed() {
    let mut gen1 = TerrainGenerator::new(42);
    let mut gen2 = TerrainGenerator::new(42);
    assert_eq!(gen1.height_noise(), gen2.height_noise());
    assert_eq!(gen1.cave_noise(), gen2.cave_noise());
    assert_eq!(gen1.cave_noise().seed, 43);
    assert_eq!(gen1.height_noise().hash_bits(3, 0, -7), gen2.height_noise().hash_bits(3, 0, -7));
    let chunk1 = generate(&mut gen1, IVec3::new(0, 8, 0));
    let chunk2 = generate(&mut gen2, IVec3::new(0, 8, 0));
    assert_eq!(gen1.seed(), 42);
    assert_eq!(gen2.seed(), 42);
    assert_eq!(chunk1.position, IVec3::new(0, 8, 0));
    assert!(chunk1.dirty && chunk2.dirty);
    for i in 0..CHUNK_SIZE * CHUNK_SIZE * CHUNK_SIZE {
        assert_eq!(chunk1.blocks[i], chunk2.blocks[i]);
        let m = chunk1.blocks[i].material;
        assert!(m == Material::Air || m == Material::Dirt || m == Material::Stone);
    }
}
