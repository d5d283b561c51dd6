use voxel_game::physics::fire::{
    simulate_fire_step, FireDelta, FireHeat, FIRE_INITIAL_LIFETIME_BITS,
};
use voxel_game::physics::fluid::{simulate_fluid_step, FluidDelta, FluidLevel, FLUID_UNIT_BITS};
use voxel_game::world::chunk::{Block, Chunk, IVec3, Material, CHUNK_SIZE};

/// The fire step's temperature arithmetic for every voxel of the chunk.
fn fire_heat(chunk: &Chunk) -> Vec<FireHeat> {
    chunk
        .blocks
        .iter()
        .map(|b| {
            let t = f32::from_bits(b.temperature);
            let next = t - 1.0;
            FireHeat {
                next_lifetime: next.to_bits(),
                burnt_out: next <= 0.0,
                warmed_from_below: (t + 8.0).min(100.0).to_bits(),
                warmed_from_side: (t + 5.0).min(100.0).to_bits(),
            }
        })
        .collect()
}

fn fire_step(chunk: &mut Chunk) -> Vec<FireDelta> {
    let heat = fire_heat(chunk);
    simulate_fire_step(chunk, &heat)
}

/// The fluid step's level arithmetic for every voxel of the chunk.
fn fluid_levels(chunk: &Chunk) -> Vec<FluidLevel> {
    chunk
        .blocks
        .iter()
        .map(|b| {
            let level = f32::from_bits(b.temperature).max(0.0).min(7.0);
            FluidLevel { empty: level <= 0.0, drained: (level - 1.0).max(0.0).to_bits() }
        })
        .collect()
}

fn fluid_step(chunk: &mut Chunk) -> Vec<FluidDelta> {
    let levels = fluid_levels(chunk);
    simulate_fluid_step(chunk, &levels)
}

#[test]
fn test_fire_spreads_to_wood() {
    let mut chunk = Chunk::new(IVec3::zero());
    for x in 0..CHUNK_SIZE {
        for z in 0..CHUNK_SIZE {
            chunk.set_material(x, 0, z, Material::Stone);
        }
    }
    for y in 1..=5 {
        chunk.set_block(8, y, 8, Block::new(Material::Wood));
    }
    chunk.set_block(8, 1, 8, Block::with_temperature(Material::Fire, FIRE_INITIAL_LIFETIME_BITS));
    chunk.dirty = false;

    for _ in 0..100 {
        let _ = fire_step(&mut chunk);
    }

    for y in 1..=5 {
        let mat = chunk.get_material(8, y, 8);
        assert_ne!(mat, Material::Wood, "Wood at y={} should have been consumed by fire", y);
    }
}

#[test]
fn test_fire_lifetime_expires() {
    let mut chunk = Chunk::new(IVec3::zero());
    chunk.set_block(8, 8, 8, Block::with_temperature(Material::Fire, 3.0f32.to_bits()));
    chunk.dirty = false;

    for _ in 0..3 {
        let _ = fire_step(&mut chunk);
    }

    assert_eq!(chunk.get_material(8, 8, 8), Material::Air, "Fire should have expired after lifetime ran out");
}

#[test]
fn fire_test_fire_extinguished_by_water() {
    let mut chunk = Chunk::new(IVec3::zero());
    chunk.set_block(8, 8, 8, Block::with_temperature(Material::Fire, 10.0f32.to_bits()));
    chunk.set_block(9, 8, 8, Block::new(Material::Water));
    chunk.dirty = false;

    let _ = fire_step(&mut chunk);

    assert_eq!(chunk.get_material(8, 8, 8), Material::Air, "Fire should be extinguished by adjacent water");
}

#[test]
fn test_fire_heats_air() {
    let mut chunk = Chunk::new(IVec3::zero());
    chunk.set_block(8, 8, 8, Block::with_temperature(Material::Fire, 10.0f32.to_bits()));
    chunk.dirty = false;

    let _ = fire_step(&mut chunk);

    let above = chunk.get_block(8, 9, 8);
    assert_eq!(above.material, Material::Air);
    let t = f32::from_bits(above.temperature);
    assert!(t > 20.0, "Air above fire should be heated above default 20.0, got {}", t);
}

#[test]
fn burning_fire_loses_one_unit_and_heats_its_neighbours() {
    let mut chunk = Chunk::new(IVec3::zero());
    chunk.set_block(8, 8, 8, Block::with_temperature(Material::Fire, 10.0f32.to_bits()));
    chunk.dirty = false;
    let deltas = fire_step(&mut chunk);
    let own = chunk.get_block(8, 8, 8);
    assert_eq!(own.material, Material::Fire);
    assert_eq!(f32::from_bits(own.temperature), 9.0);
    // the air above gains 8 degrees, the other five neighbours 5
    assert_eq!(f32::from_bits(chunk.get_block(8, 9, 8).temperature), 28.0);
    assert_eq!(f32::from_bits(chunk.get_block(8, 7, 8).temperature), 25.0);
    assert_eq!(f32::from_bits(chunk.get_block(9, 8, 8).temperature), 25.0);
    assert_eq!(deltas.len(), 7);
    assert_eq!(deltas[0], FireDelta { x: 8, y: 8, z: 8, new_block: own });
    assert!(chunk.dirty);
}

#[test]
fn heating_is_capped_at_one_hundred() {
    let mut chunk = Chunk::new(IVec3::zero());
    chunk.set_block(8, 8, 8, Block::with_temperature(Material::Fire, 10.0f32.to_bits()));
    chunk.set_block(8, 9, 8, Block::with_temperature(Material::Stone, 97.0f32.to_bits()));
    let _ = fire_step(&mut chunk);
    assert_eq!(chunk.get_block(8, 9, 8), Block::with_temperature(Material::Stone, 100.0f32.to_bits()));
}

#[test]
fn chunk_without_fire_is_untouched() {
    let mut chunk = Chunk::new(IVec3::zero());
    chunk.set_block(3, 3, 3, Block::new(Material::Wood));
    chunk.dirty = false;
    let deltas = fire_step(&mut chunk);
    assert!(deltas.is_empty());
    assert!(!chunk.dirty);
}

#[test]
fn test_water_fills_pit() {
    let mut chunk = Chunk::new(IVec3::zero());
    for x in 5..=7 {
        for z in 5..=7 {
            chunk.set_material(x, 0, z, Material::Stone);
            for y in 1..=3 {
                chunk.set_material(x, y, z, Material::Stone);
            }
        }
    }
    for x in 6..=6 {
        for y in 1..=3 {
            for z in 6..=6 {
                chunk.set_material(x, y, z, Material::Air);
            }
        }
    }
    chunk.set_material(6, 15, 6, Material::Water);
    let mut src = chunk.get_block(6, 15, 6);
    src.material = Material::Water;
    src.temperature = 7.0f32.to_bits();
    chunk.set_block(6, 15, 6, src);

    let _ = fluid_step(&mut chunk);
    let below = chunk.get_material(6, 14, 6);
    assert!(below == Material::Water || below == Material::Air);
}

#[test]
fn test_water_spreads_flat() {
    let mut chunk = Chunk::new(IVec3::zero());
    for x in 0..CHUNK_SIZE {
        for z in 0..CHUNK_SIZE {
            chunk.set_material(x, 0, z, Material::Stone);
        }
    }
    chunk.set_material(8, 1, 8, Material::Water);
    let _ = fluid_step(&mut chunk);
    let mut found = false;
    for x in 0..CHUNK_SIZE {
        for y in 0..CHUNK_SIZE {
            for z in 0..CHUNK_SIZE {
                if chunk.get_material(x, y, z) == Material::Water {
                    found = true;
                }
            }
        }
    }
    assert!(found);
}

#[test]
fn test_lava_slower_than_water() {
    let mut chunk = Chunk::new(IVec3::zero());
    chunk.set_material(8, 1, 8, Material::Water);
    chunk.set_material(7, 1, 8, Material::Lava);
    let _ = fluid_step(&mut chunk);
    let lava_here = chunk.get_material(7, 1, 8);
    assert!(lava_here == Material::Lava || lava_here == Material::Air);
}

#[test]
fn test_water_pressure() {
    let mut chunk = Chunk::new(IVec3::zero());
    chunk.set_material(6, 2, 6, Material::Water);
    chunk.set_material(6, 1, 6, Material::Air);
    let _ = fluid_step(&mut chunk);
    let below = chunk.get_material(6, 1, 6);
    assert!(below == Material::Water || below == Material::Air);
}

#[test]
fn water_over_air_passes_one_unit_down() {
    let mut chunk = Chunk::new(IVec3::zero());
    chunk.set_block(6, 2, 6, Block::with_temperature(Material::Water, 3.0f32.to_bits()));
    let before = chunk.blocks.clone();
    let deltas = fluid_step(&mut chunk);
    let unit = Block::with_temperature(Material::Water, FLUID_UNIT_BITS);
    assert_eq!(
        deltas,
        vec![
            FluidDelta { x: 6, y: 2, z: 6, new_block: Block::with_temperature(Material::Water, 2.0f32.to_bits()) },
            FluidDelta { x: 6, y: 1, z: 6, new_block: unit },
        ]
    );
    // the step only reports; the chunk is left as it was
    assert!(chunk.blocks == before);
}

#[test]
fn empty_water_turns_to_air_and_resting_water_spreads_sideways() {
    let mut chunk = Chunk::new(IVec3::zero());
    chunk.set_block(1, 5, 1, Block::with_temperature(Material::Water, 0.0f32.to_bits()));
    // water resting on stone finds the air beside it
    chunk.set_material(9, 0, 9, Material::Stone);
    chunk.set_block(9, 1, 9, Block::with_temperature(Material::Water, 4.0f32.to_bits()));
    let deltas = fluid_step(&mut chunk);
    // the scan runs bottom layer first
    assert_eq!(deltas.len(), 3);
    assert_eq!(deltas[0], FluidDelta { x: 10, y: 1, z: 9, new_block: Block::with_temperature(Material::Water, FLUID_UNIT_BITS) });
    assert_eq!(deltas[1], FluidDelta { x: 9, y: 1, z: 9, new_block: Block::with_temperature(Material::Water, 3.0f32.to_bits()) });
    assert_eq!(deltas[2], FluidDelta { x: 1, y: 5, z: 1, new_block: Block::air() });
}

#[test]
fn lava_over_air_moves_on_one_position_in_three() {
    let mut chunk = Chunk::new(IVec3::zero());
    // 7 + 1 + 8 = 16 is not a multiple of 3: this lava waits
    chunk.set_material(7, 1, 8, Material::Lava);
    assert!(fluid_step(&mut chunk).is_empty());
    let mut chunk = Chunk::new(IVec3::zero());
    // 6 + 1 + 8 = 15 is: it moves, and its source becomes water
    chunk.set_material(6, 1, 8, Material::Lava);
    let deltas = fluid_step(&mut chunk);
    assert_eq!(deltas.len(), 2);
    assert_eq!(deltas[0].new_block.material, Material::Water);
    assert_eq!((deltas[1].x, deltas[1].y, deltas[1].z), (6, 0, 8));
}


#[test]
fn fluid_step_depends_only_on_the_voxels() {
    let mut a = Chunk::new(IVec3::zero());
    a.set_material(9, 0, 9, Material::Stone);
    a.set_block(9, 1, 9, Block::with_temperature(Material::Water, 4.0f32.to_bits()));
    a.set_material(3, 4, 3, Material::Lava);
    let mut b = Chunk::new(IVec3::new(5, -1, 2));
    b.blocks = a.blocks.clone();
    b.dirty = !a.dirty;
    assert_eq!(fluid_step(&mut a), fluid_step(&mut b));
}
