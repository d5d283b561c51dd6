use voxel_game::world::chunk::{Block, Chunk, ChunkMap, IVec3, Material, CHUNK_SIZE};

#[test]
fn test_create_empty_chunk() {
    let chunk = Chunk::new(IVec3::zero());
    for x in 0..CHUNK_SIZE {
        for y in 0..CHUNK_SIZE {
            for z in 0..CHUNK_SIZE {
                assert_eq!(chunk.get_material(x, y, z), Material::Air);
            }
        }
    }
}

#[test]
fn test_set_get_block() {
    let mut chunk = Chunk::new(IVec3::zero());
    chunk.set_material(0, 0, 0, Material::Sand);
    assert_eq!(chunk.get_material(0, 0, 0), Material::Sand);
}

#[test]
fn test_set_get_corner() {
    let mut chunk = Chunk::new(IVec3::zero());
    chunk.set_material(15, 15, 15, Material::Water);
    assert_eq!(chunk.get_material(15, 15, 15), Material::Water);
}

#[test]
fn test_chunk_map_insert_get() {
    let mut map = ChunkMap::new();
    let chunk = Chunk::new(IVec3::new(0, 0, 0));
    map.insert_chunk(chunk);
    assert!(map.get_chunk(IVec3::zero()).is_some());
    assert!(map.get_chunk(IVec3::new(1, 0, 0)).is_none());
}

#[test]
fn test_chunk_map_world_coords() {
    let mut map = ChunkMap::new();
    let mut chunk = Chunk::new(IVec3::new(1, 0, 0));
    chunk.set_material(1, 0, 0, Material::Stone);
    map.insert_chunk(chunk);
    assert_eq!(map.get_block(IVec3::new(17, 0, 0)), Material::Stone);
}

#[test]
fn test_dirty_flag() {
    let mut chunk = Chunk::new(IVec3::zero());
    assert!(!chunk.dirty);
    chunk.set_material(0, 0, 0, Material::Sand);
    assert!(chunk.dirty);
}

#[test]
fn test_negative_world_coords() {
    let (chunk_pos, local_pos) = Chunk::world_to_local(IVec3::new(-1, 0, 0));
    assert_eq!(chunk_pos, IVec3::new(-1, 0, 0));
    assert_eq!(local_pos, IVec3::new(15, 0, 0));
}

#[test]
fn out_of_range_writes_are_ignored() {
    let mut chunk = Chunk::new(IVec3::zero());
    chunk.set_material(16, 0, 0, Material::Stone);
    chunk.set_block(0, 16, 0, Block::new(Material::Stone));
    assert!(!chunk.dirty);
    for x in 0..CHUNK_SIZE {
        assert_eq!(chunk.get_material(x, 0, 0), Material::Air);
        assert_eq!(chunk.get_material(0, x, 0), Material::Air);
    }
}

#[test]
fn set_material_keeps_temperature() {
    let mut chunk = Chunk::new(IVec3::zero());
    chunk.set_block(3, 4, 5, Block::with_temperature(Material::Fire, 0x4120_0000));
    chunk.set_material(3, 4, 5, Material::Air);
    let b = chunk.get_block(3, 4, 5);
    assert_eq!(b.material, Material::Air);
    assert_eq!(b.temperature, 0x4120_0000);
    assert_eq!(f32::from_bits(Block::air().temperature), 20.0);
}

#[test]
fn world_to_local_round_trips() {
    for w in [-33, -17, -16, -15, -1, 0, 1, 15, 16, 17, 33, i32::MIN, i32::MAX] {
        let (c, l) = Chunk::world_to_local(IVec3::new(w, w, w));
        assert!(l.x >= 0 && l.x < 16);
        assert_eq!(c.x as i64 * 16 + l.x as i64, w as i64);
    }
    let (c, l) = Chunk::world_to_local(IVec3::new(-17, 33, 0));
    assert_eq!(c, IVec3::new(-2, 2, 0));
    assert_eq!(l, IVec3::new(15, 1, 0));
}

#[test]
fn chunk_map_read_after_write() {
    let mut map = ChunkMap::new();
    map.insert_chunk(Chunk::new(IVec3::new(-1, 0, 0)));
    map.set_block(IVec3::new(-3, 2, 5), Block::new(Material::Metal));
    assert_eq!(map.get_block(IVec3::new(-3, 2, 5)), Material::Metal);
    assert_eq!(map.get_block(IVec3::new(-4, 2, 5)), Material::Air);
    // no chunk loaded there: the write is dropped
    map.set_block(IVec3::new(100, 0, 0), Block::new(Material::Metal));
    assert_eq!(map.get_block(IVec3::new(100, 0, 0)), Material::Air);
    assert_eq!(map.len(), 1);
    assert!(!map.is_empty());
    assert!(map.get_chunk(IVec3::new(-1, 0, 0)).unwrap().dirty);
}

#[test]
fn chunk_map_remove_and_replace() {
    let mut map = ChunkMap::default();
    assert!(map.is_empty());
    let mut a = Chunk::new(IVec3::new(2, -3, 4));
    a.set_material(0, 0, 0, Material::Wood);
    map.insert_chunk(a);
    map.insert_chunk(Chunk::new(IVec3::new(2, -3, 4)));
    assert_eq!(map.len(), 1);
    assert_eq!(map.get_block(IVec3::new(32, -48, 64)), Material::Air);
    let removed = map.remove_chunk(IVec3::new(2, -3, 4));
    assert!(removed.is_some());
    assert!(map.remove_chunk(IVec3::new(2, -3, 4)).is_none());
    assert_eq!(map.len(), 0);
}

#[test]
fn chunk_map_get_chunk_mut_writes_through() {
    let mut map = ChunkMap::new();
    map.insert_chunk(Chunk::new(IVec3::zero()));
    map.get_chunk_mut(IVec3::zero()).unwrap().set_material(1, 2, 3, Material::Lava);
    assert_eq!(map.get_block(IVec3::new(1, 2, 3)), Material::Lava);
    assert!(map.get_chunk_mut(IVec3::new(5, 5, 5)).is_none());
}

#[test]
fn material_classes() {
    assert!(Material::Stone.is_solid());
    assert!(Material::Ice.is_solid());
    assert!(!Material::Water.is_solid());
    assert!(Material::Water.is_liquid());
    assert!(Material::Lava.is_liquid());
    assert!(!Material::Sand.is_liquid());
    assert!(Material::Fire.is_gas());
    assert!(!Material::Air.is_gas());
    assert!(Material::Air.is_air());
    assert!(!Material::Fire.is_air());
}

#[test]
fn chunks_lists_each_loaded_chunk_once() {
    let mut map = ChunkMap::new();
    assert!(map.chunks().is_empty());
    map.insert_chunk(Chunk::new(IVec3::new(0, 0, 0)));
    map.insert_chunk(Chunk::new(IVec3::new(1, -2, 3)));
    map.insert_chunk(Chunk::new(IVec3::new(1, -2, 3)));
    let mut positions: Vec<(i32, i32, i32)> = map.chunks().iter().map(|c| (c.position.x, c.position.y, c.position.z)).collect();
    positions.sort();
    assert_eq!(positions, vec![(0, 0, 0), (1, -2, 3)]);
}
