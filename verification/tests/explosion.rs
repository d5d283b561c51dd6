use voxel_game::physics::explosion::{create_explosion, ExplosionResult};
use voxel_game::world::chunk::{Block, Chunk, ChunkMap, IVec3, Material};

/// The two settings the explosion takes from its radius: the ignition
/// radius (0.6 of the radius, rounded down in single precision) and how
/// many of the rolls 0..99, read as hundredths, fall below one minus the
/// surface distance over the radius.
fn blast_settings(radius: u32) -> (i32, u32) {
    let inner = ((radius as f32) * 0.6) as i32;
    let r = radius as i32;
    let p = 1.0 - ((r * r) as f32).sqrt() / (radius as f32);
    let edge = (0..100u32).filter(|k| (*k as f32) / 100.0 < p).count() as u32;
    (inner, edge)
}

fn explode(map: &mut ChunkMap, center: IVec3, radius: u32) -> ExplosionResult {
    let (inner, edge) = blast_settings(radius);
    create_explosion(map, center, radius, inner, edge)
}

fn fill_chunk(map: &mut ChunkMap, mat: Material) {
    for x in 0..16 {
        for y in 0..16 {
            for z in 0..16 {
                map.set_block(IVec3 { x, y, z }, Block::new(mat));
            }
        }
    }
}

#[test]
fn test_sphere_explosion() {
    let mut map = ChunkMap::default();
    fill_chunk(&mut map, Material::Stone);

    let center = IVec3 { x: 8, y: 8, z: 8 };
    let res = explode(&mut map, center, 3);

    let mut destroyed = 0usize;
    for x in 0..16 {
        for y in 0..16 {
            for z in 0..16 {
                let dx = x - center.x;
                let dy = y - center.y;
                let dz = z - center.z;
                let dist2 = dx * dx + dy * dy + dz * dz;
                if dist2 <= (3 * 3) {
                    let mat = map.get_block(IVec3 { x, y, z });
                    if mat == Material::Air {
                        destroyed += 1;
                    }
                }
            }
        }
    }
    assert!(map.get_block(IVec3 { x: 8, y: 8, z: 8 }) == Material::Air);
    assert!(destroyed > 0);
    assert!(!res.affected_chunks.is_empty());
}

#[test]
fn test_cross_chunk_explosion() {
    let mut map = ChunkMap::default();
    for cx in 0..2 {
        for x in 0..16 {
            for y in 0..16 {
                for z in 0..16 {
                    let world_x = cx * 16 + x;
                    map.set_block(IVec3 { x: world_x, y, z }, Block::new(Material::Stone));
                }
            }
        }
    }
    let center = IVec3 { x: 15, y: 8, z: 8 };
    let res = explode(&mut map, center, 3);
    let block_in_chunk0 = map.get_block(IVec3 { x: 7, y: 8, z: 8 });
    let block_in_chunk1 = map.get_block(IVec3 { x: 16, y: 8, z: 8 });
    assert!(block_in_chunk0 == Material::Air || block_in_chunk1 == Material::Air);
    assert!(!res.affected_chunks.is_empty());
}

#[test]
fn test_fire_ignition() {
    let mut map = ChunkMap::default();
    map.set_block(IVec3 { x: 8, y: 8, z: 8 }, Block::new(Material::Wood));
    let center = IVec3 { x: 8, y: 8, z: 8 };
    let _ = explode(&mut map, center, 3);
    let mat = map.get_block(IVec3 { x: 7, y: 8, z: 8 });
    assert!(mat == Material::Fire || mat == Material::Air);
}

#[test]
fn test_sand_collapse() {
    let mut map = ChunkMap::default();
    map.set_block(IVec3 { x: 8, y: 9, z: 8 }, Block::new(Material::Sand));
    let center = IVec3 { x: 8, y: 8, z: 8 };
    let _ = explode(&mut map, center, 3);
    let _ = map.get_chunk_mut(IVec3 { x: 0, y: 0, z: 0 });
}

#[test]
fn settings_for_small_radii() {
    assert_eq!(blast_settings(3), (1, 0));
    assert_eq!(blast_settings(5), (3, 0));
    assert_eq!(blast_settings(10), (6, 0));
}

#[test]
fn loaded_sphere_is_cleared_exactly_and_wood_inside_burns() {
    let mut map = ChunkMap::default();
    map.insert_chunk(Chunk::new(IVec3::zero()));
    fill_chunk(&mut map, Material::Stone);
    map.set_block(IVec3::new(8, 8, 9), Block::new(Material::Wood));
    map.set_block(IVec3::new(8, 8, 11), Block::new(Material::Wood));
    let center = IVec3::new(8, 8, 8);
    let res = create_explosion(&mut map, center, 3, 1, 0);
    for x in 0..16 {
        for y in 0..16 {
            for z in 0..16 {
                let (dx, dy, dz) = (x - 8, y - 8, z - 8);
                let d = dx * dx + dy * dy + dz * dz;
                let m = map.get_block(IVec3::new(x, y, z));
                if (x, y, z) == (8, 8, 9) {
                    // inside the ignition radius
                    assert_eq!(m, Material::Fire);
                } else if d < 9 {
                    assert_eq!(m, Material::Air, "at {} {} {}", x, y, z);
                } else if (x, y, z) == (8, 8, 11) {
                    // on the surface, with no winning roll: untouched wood
                    assert_eq!(m, Material::Wood);
                } else {
                    assert_eq!(m, Material::Stone, "at {} {} {}", x, y, z);
                }
            }
        }
    }
    assert_eq!(res.affected_chunks, vec![IVec3::zero()]);
}

#[test]
fn surface_voxels_fall_by_their_roll() {
    let mut map = ChunkMap::default();
    map.insert_chunk(Chunk::new(IVec3::zero()));
    fill_chunk(&mut map, Material::Stone);
    // every roll wins: the whole closed sphere is cleared
    let _ = create_explosion(&mut map, IVec3::new(8, 8, 8), 2, 0, 100);
    assert_eq!(map.get_block(IVec3::new(8, 8, 10)), Material::Air);
    assert_eq!(map.get_block(IVec3::new(6, 8, 8)), Material::Air);
    assert_eq!(map.get_block(IVec3::new(8, 8, 11)), Material::Stone);
}

#[test]
fn sand_resting_on_a_cleared_voxel_marks_its_chunk() {
    let mut map = ChunkMap::default();
    map.insert_chunk(Chunk::new(IVec3::zero()));
    let mut above = Chunk::new(IVec3::new(0, 1, 0));
    above.set_block(8, 0, 8, Block::new(Material::Sand));
    above.dirty = false;
    map.insert_chunk(above);
    // the sphere of radius 2 around (8, 14, 8) reaches y = 15 below the sand
    let res = create_explosion(&mut map, IVec3::new(8, 14, 8), 2, 0, 0);
    assert!(map.get_chunk(IVec3::new(0, 1, 0)).unwrap().dirty);
    assert_eq!(map.get_block(IVec3::new(8, 16, 8)), Material::Sand);
    assert_eq!(res.affected_chunks, vec![IVec3::zero(), IVec3::new(0, 1, 0)]);
}

#[test]
fn empty_world_still_reports_the_chunks_in_reach() {
    let mut map = ChunkMap::default();
    let res = create_explosion(&mut map, IVec3::new(0, 0, 0), 2, 0, 0);
    // the cube from -1 to 1 around the origin spans eight chunks
    assert_eq!(res.affected_chunks.len(), 8);
    assert!(map.is_empty());
}

#[test]
fn radius_zero_destroys_the_centre() {
    let mut map = ChunkMap::default();
    map.insert_chunk(Chunk::new(IVec3::zero()));
    map.set_block(IVec3::new(8, 8, 8), Block::new(Material::Stone));
    map.set_block(IVec3::new(8, 9, 8), Block::new(Material::Stone));
    map.get_chunk_mut(IVec3::zero()).unwrap().dirty = false;
    assert_eq!(blast_settings(0), (0, 0));
    let res = explode(&mut map, IVec3::new(8, 8, 8), 0);
    assert_eq!(map.get_block(IVec3::new(8, 8, 8)), Material::Air);
    assert_eq!(map.get_block(IVec3::new(8, 9, 8)), Material::Stone);
    assert!(map.get_chunk(IVec3::zero()).unwrap().dirty);
    assert_eq!(res.affected_chunks, vec![IVec3::zero()]);
    // a burning centre catches fire instead
    map.set_block(IVec3::new(8, 8, 8), Block::new(Material::Wood));
    let _ = explode(&mut map, IVec3::new(8, 8, 8), 0);
    assert_eq!(map.get_block(IVec3::new(8, 8, 8)), Material::Fire);
}

#[test]
fn destroyed_voxel_marks_the_chunk_stored_at_its_world_position() {
    let mut map = ChunkMap::default();
    map.insert_chunk(Chunk::new(IVec3::zero()));
    map.set_block(IVec3::new(1, 0, 0), Block::new(Material::Stone));
    map.get_chunk_mut(IVec3::zero()).unwrap().dirty = false;
    let mut far = Chunk::new(IVec3::new(1, 0, 0));
    far.set_block(1, 0, 0, Block::new(Material::Stone));
    far.dirty = false;
    map.insert_chunk(far);
    let res = create_explosion(&mut map, IVec3::new(1, 0, 0), 0, 0, 0);
    assert_eq!(map.get_block(IVec3::new(1, 0, 0)), Material::Air);
    assert!(map.get_chunk(IVec3::zero()).unwrap().dirty);
    // the chunk whose chunk position is (1, 0, 0) is marked, though untouched
    assert!(map.get_chunk(IVec3::new(1, 0, 0)).unwrap().dirty);
    assert_eq!(map.get_block(IVec3::new(17, 0, 0)), Material::Stone);
    assert_eq!(res.affected_chunks, vec![IVec3::zero()]);
    // a voxel that catches fire marks no such chunk
    map.get_chunk_mut(IVec3::new(1, 0, 0)).unwrap().dirty = false;
    map.set_block(IVec3::new(1, 0, 0), Block::new(Material::Wood));
    let _ = create_explosion(&mut map, IVec3::new(1, 0, 0), 0, 0, 0);
    assert_eq!(map.get_block(IVec3::new(1, 0, 0)), Material::Fire);
    assert!(!map.get_chunk(IVec3::new(1, 0, 0)).unwrap().dirty);
}
