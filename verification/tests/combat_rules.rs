use voxel_game::combat::boss::{apply_boss_attack, BossAttackPattern};
use voxel_game::combat::monster::{get_monsters_for_depth, spawn_depth_range, MonsterType};
use voxel_game::combat::spell::{apply_spell_effect, dig, freeze, ignite, SpellEffectResult, SpellType};
use voxel_game::world::chunk::{Block, Chunk, ChunkMap, IVec3, Material};

fn stone_chunk(pos: IVec3) -> Chunk {
    let mut chunk = Chunk::new(pos);
    for x in 0..16 {
        for y in 0..16 {
            for z in 0..16 {
                chunk.set_block(x, y, z, Block::new(Material::Stone));
            }
        }
    }
    chunk
}

#[test]
fn test_melee_slam_destroys_blocks() {
    let mut map = ChunkMap::default();
    let center = IVec3::new(8, 8, 8);
    map.insert_chunk(stone_chunk(IVec3::zero()));
    let affected = apply_boss_attack(BossAttackPattern::MeleeSlam, center, &mut map);
    assert!(!affected.is_empty());
    assert_eq!(map.get_block(center), Material::Air);
}

#[test]
fn test_lava_bomb_places_lava() {
    let mut map = ChunkMap::default();
    let boss_pos = IVec3::new(8, 8, 8);
    let affected = apply_boss_attack(BossAttackPattern::LavaBomb, boss_pos, &mut map);
    let target = IVec3::new(8, 7, 8);
    assert_eq!(affected.len(), 1);
    assert_eq!(affected[0], target);
}

#[test]
fn test_summon_golems_returns_spawn_positions() {
    let mut map = ChunkMap::default();
    let boss_pos = IVec3::new(10, 5, 10);
    let spawns = apply_boss_attack(BossAttackPattern::SummonGolems, boss_pos, &mut map);
    assert_eq!(spawns.len(), 3);
    assert!(spawns.contains(&IVec3::new(12, 5, 10)));
    assert!(spawns.contains(&IVec3::new(8, 5, 10)));
    assert!(spawns.contains(&IVec3::new(10, 5, 12)));
}

#[test]
fn test_ground_shake_ring_pattern() {
    let mut map = ChunkMap::default();
    for cx in 0..3 {
        for cy in 0..2 {
            for cz in 0..3 {
                map.insert_chunk(stone_chunk(IVec3::new(cx, cy, cz)));
            }
        }
    }
    let boss_pos = IVec3::new(16, 8, 16);
    let affected = apply_boss_attack(BossAttackPattern::GroundShake, boss_pos, &mut map);
    assert_eq!(map.get_block(boss_pos), Material::Stone);
    assert!(!affected.is_empty());
}

#[test]
fn attack_shapes() {
    let mut map = ChunkMap::new();
    map.insert_chunk(stone_chunk(IVec3::zero()));
    let slam = apply_boss_attack(BossAttackPattern::MeleeSlam, IVec3::new(8, 8, 8), &mut map);
    // lattice points within distance 3 of the centre
    assert_eq!(slam.len(), 123);
    assert_eq!(slam[0], IVec3::new(5, 8, 8));
    assert_eq!(map.get_block(IVec3::new(11, 8, 8)), Material::Air);
    assert_eq!(map.get_block(IVec3::new(10, 10, 8)), Material::Air);
    assert_eq!(map.get_block(IVec3::new(10, 10, 10)), Material::Stone);
    let shake = apply_boss_attack(BossAttackPattern::GroundShake, IVec3::new(8, 8, 8), &mut map);
    assert_eq!(shake.len() % 3, 0);
    assert!(shake.contains(&IVec3::new(12, 7, 8)));
    assert!(!shake.contains(&IVec3::new(11, 8, 8)));
    let lava = apply_boss_attack(BossAttackPattern::LavaBomb, IVec3::new(8, 8, 8), &mut map);
    assert_eq!(lava, vec![IVec3::new(8, 7, 8)]);
    assert_eq!(map.get_block(IVec3::new(8, 7, 8)), Material::Lava);
}

#[test]
fn attack_cycle() {
    let p = BossAttackPattern::MeleeSlam;
    assert_eq!(p.next(), BossAttackPattern::LavaBomb);
    assert_eq!(p.next().next(), BossAttackPattern::SummonGolems);
    assert_eq!(p.next().next().next(), BossAttackPattern::GroundShake);
    assert_eq!(p.next().next().next().next(), p);
}

#[test]
fn test_monster_spawn_by_depth() {
    let depth_0 = get_monsters_for_depth(0);
    assert!(depth_0.contains(&MonsterType::Slime));
    assert!(depth_0.contains(&MonsterType::Bat));
    assert_eq!(depth_0.len(), 2);
    let depth_64 = get_monsters_for_depth(64);
    assert!(depth_64.contains(&MonsterType::Slime));
    assert!(depth_64.contains(&MonsterType::Skeleton));
    assert!(depth_64.contains(&MonsterType::Bat));
    assert!(depth_64.contains(&MonsterType::Golem));
    assert_eq!(depth_64.len(), 4);
    let depth_200 = get_monsters_for_depth(200);
    assert!(depth_200.contains(&MonsterType::Bat));
    assert!(depth_200.contains(&MonsterType::Boss));
    assert_eq!(depth_200.len(), 2);
}

#[test]
fn spawn_ranges() {
    assert_eq!(spawn_depth_range(MonsterType::Skeleton), (32, 128));
    assert_eq!(spawn_depth_range(MonsterType::Golem), (64, 192));
    assert!(get_monsters_for_depth(-1).is_empty());
    assert!(get_monsters_for_depth(256).is_empty());
    assert_eq!(get_monsters_for_depth(100), vec![MonsterType::Skeleton, MonsterType::Bat, MonsterType::Golem]);
}

#[test]
fn test_fireball_ignites_wood() {
    let mut map = ChunkMap::default();
    let pos = IVec3 { x: 0, y: 0, z: 0 };
    map.insert_chunk(Chunk::new(IVec3::zero()));
    map.set_block(pos, Block::new(Material::Wood));

    let res = apply_spell_effect(SpellType::Fireball, pos, &mut map);
    assert!(matches!(res, SpellEffectResult::FireIgnited(p) if p == pos));
    assert_eq!(map.get_block(pos), Material::Fire);
}

#[test]
fn ignite_only_burns_flammable_blocks() {
    let mut map = ChunkMap::default();
    let pos = IVec3 { x: 0, y: 0, z: 0 };
    map.insert_chunk(Chunk::new(IVec3::zero()));
    map.set_block(pos, Block::new(Material::Wood));
    assert!(ignite(&mut map, pos));
    assert_eq!(map.get_block(pos), Material::Fire);
    // stone does not burn, and Air never ignites
    map.set_block(pos, Block::new(Material::Stone));
    assert!(!ignite(&mut map, pos));
    assert!(!ignite(&mut map, IVec3::new(1, 0, 0)));
    assert_eq!(map.get_block(pos), Material::Stone);
    assert_eq!(apply_spell_effect(SpellType::Fireball, pos, &mut map), SpellEffectResult::NoEffect);
}

#[test]
fn self_spells_report_their_effect() {
    let mut map = ChunkMap::default();
    map.insert_chunk(Chunk::new(IVec3::zero()));
    let t = IVec3::new(3, 4, 5);
    assert_eq!(apply_spell_effect(SpellType::Heal, t, &mut map), SpellEffectResult::Healed(30.0f32.to_bits()));
    assert_eq!(apply_spell_effect(SpellType::Teleport, t, &mut map), SpellEffectResult::Teleported(t));
    assert_eq!(apply_spell_effect(SpellType::Shield, t, &mut map), SpellEffectResult::ShieldApplied);
    assert_eq!(apply_spell_effect(SpellType::Lightning, t, &mut map), SpellEffectResult::NoEffect);
    assert_eq!(apply_spell_effect(SpellType::Dig, t, &mut map), SpellEffectResult::DigDestroyed(IVec3::new(-6, 4, 5)));
    assert_eq!(apply_spell_effect(SpellType::Freeze, t, &mut map), SpellEffectResult::FreezeApplied(t));
}

#[test]
fn test_explosion_spell() {
    let mut map = ChunkMap::default();
    let center = IVec3 { x: 8, y: 8, z: 8 };
    map.insert_chunk(Chunk::new(IVec3::zero()));
    for dx in -2..=2 {
        for dy in -2..=2 {
            for dz in -2..=2 {
                let w = IVec3 { x: center.x + dx, y: center.y + dy, z: center.z + dz };
                map.set_block(w, Block::new(Material::Stone));
            }
        }
    }
    if let SpellEffectResult::Explosion(res) = apply_spell_effect(SpellType::Explosion, center, &mut map) {
        assert!(!res.affected_chunks.is_empty());
        assert_eq!(map.get_block(center), Material::Air);
    } else {
        panic!("Explosion did not produce ExplosionResult");
    }
}

#[test]
fn dig_clears_a_line() {
    let mut map = ChunkMap::new();
    map.insert_chunk(stone_chunk(IVec3::zero()));
    let last = dig(&mut map, IVec3::new(12, 3, 3));
    assert_eq!(last, IVec3::new(3, 3, 3));
    for x in 3..=12 {
        assert_eq!(map.get_block(IVec3::new(x, 3, 3)), Material::Air);
    }
    assert_eq!(map.get_block(IVec3::new(2, 3, 3)), Material::Stone);
    assert_eq!(map.get_block(IVec3::new(13, 3, 3)), Material::Stone);
}

#[test]
fn freeze_turns_water_to_ice() {
    let mut map = ChunkMap::new();
    let mut c = Chunk::new(IVec3::zero());
    c.set_material(8, 8, 8, Material::Water);
    c.set_material(12, 8, 8, Material::Water);
    c.set_material(13, 8, 8, Material::Water);
    c.set_material(9, 8, 8, Material::Lava);
    map.insert_chunk(c);
    freeze(&mut map, IVec3::new(8, 8, 8));
    assert_eq!(map.get_block(IVec3::new(8, 8, 8)), Material::Ice);
    assert_eq!(map.get_block(IVec3::new(12, 8, 8)), Material::Ice);
    assert_eq!(map.get_block(IVec3::new(13, 8, 8)), Material::Water);
    assert_eq!(map.get_block(IVec3::new(9, 8, 8)), Material::Lava);
}
