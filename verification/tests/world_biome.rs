use voxel_game::combat::difficulty::{get_depth_label, get_difficulty};
use voxel_game::world::biome::{get_biome, get_biome_config, Biome, MonsterCategory};

#[test]
fn test_biome_from_depth() {
    assert_eq!(get_biome(200), Biome::Surface);
    assert_eq!(get_biome(192), Biome::Surface);
    assert_eq!(get_biome(191), Biome::ShallowCaves);
    assert_eq!(get_biome(128), Biome::ShallowCaves);
    assert_eq!(get_biome(127), Biome::DeepCaves);
    assert_eq!(get_biome(64), Biome::DeepCaves);
    assert_eq!(get_biome(63), Biome::LavaZone);
    assert_eq!(get_biome(0), Biome::LavaZone);
}

#[test]
fn test_deep_caves_has_no_dirt() {
    let config = get_biome_config(Biome::DeepCaves);
    assert_eq!(config.dirt_weight, 0);
}

#[test]
fn biome_configs() {
    let s = get_biome_config(Biome::Surface);
    assert_eq!(s.biome, Biome::Surface);
    assert_eq!((s.stone_weight, s.dirt_weight, s.sand_weight, s.water_weight), (30, 35, 10, 5));
    assert_eq!((s.lava_weight, s.metal_weight, s.ice_weight), (0, 0, 5));
    assert_eq!(s.monster_types, vec![MonsterCategory::Weak]);
    let l = get_biome_config(Biome::LavaZone);
    assert_eq!(l.lava_weight, 30);
    assert_eq!(l.monster_types, vec![MonsterCategory::Strong, MonsterCategory::Boss]);
    assert_eq!(get_biome(-1000), Biome::LavaZone);
}

#[test]
fn test_difficulty_scales_with_depth() {
    let surface = get_difficulty(200);
    let deep = get_difficulty(50);
    assert!(deep.health_multiplier > surface.health_multiplier);
    assert!(deep.damage_multiplier > surface.damage_multiplier);
    assert!(deep.speed_multiplier > surface.speed_multiplier);
}

#[test]
fn test_surface_difficulty() {
    let d = get_difficulty(250);
    assert_eq!(d.health_multiplier, 100);
    assert_eq!(d.damage_multiplier, 100);
    assert_eq!(d.environmental_damage, 0);
}

#[test]
fn test_lava_zone_damage() {
    let d = get_difficulty(30);
    assert_eq!(d.health_multiplier, 300);
    assert!(d.environmental_damage > 0);
    assert_eq!(d.environmental_damage, 200);
}

#[test]
fn depth_labels() {
    assert_eq!(get_depth_label(250), "Surface");
    assert_eq!(get_depth_label(150), "Shallow Caves");
    assert_eq!(get_depth_label(100), "Deep Caves");
    assert_eq!(get_depth_label(10), "Lava Zone");
    assert_eq!(get_difficulty(100).speed_multiplier, 120);
    assert_eq!(get_difficulty(150).spawn_rate, 300);
}
