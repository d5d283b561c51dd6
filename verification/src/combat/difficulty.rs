use vstd::prelude::*;

use crate::world::biome::{biome_of, get_biome, Biome};

verus! {

/// How hard a depth is; every figure is in hundredths.
#[derive(Clone, Copy, Debug, PartialEq, Eq, Structural)]
pub struct DifficultyConfig {
    pub health_multiplier: u32,
    pub damage_multiplier: u32,
    pub speed_multiplier: u32,
    pub spawn_rate: u32,
    pub environmental_damage: u32,
}

pub open spec fn difficulty_of(b: Biome) -> DifficultyConfig {
    match b {
        Biome::Surface => DifficultyConfig { health_multiplier: 100, damage_multiplier: 100, speed_multiplier: 100, spawn_rate: 200, environmental_damage: 0 },
        Biome::ShallowCaves => DifficultyConfig { health_multiplier: 150, damage_multiplier: 150, speed_multiplier: 110, spawn_rate: 300, environmental_damage: 0 },
        Biome::DeepCaves => DifficultyConfig { health_multiplier: 200, damage_multiplier: 200, speed_multiplier: 120, spawn_rate: 400, environmental_damage: 50 },
        Biome::LavaZone => DifficultyConfig { health_multiplier: 300, damage_multiplier: 300, speed_multiplier: 130, spawn_rate: 500, environmental_damage: 200 },
    }
}

/// The difficulty of the biome at a depth.
pub fn get_difficulty(depth: i32) -> (r: DifficultyConfig)
    ensures
        r == difficulty_of(biome_of(depth as int)),
{
    match get_biome(depth) {
        Biome::Surface => DifficultyConfig { health_multiplier: 100, damage_multiplier: 100, speed_multiplier: 100, spawn_rate: 200, environmental_damage: 0 },
        Biome::ShallowCaves => DifficultyConfig { health_multiplier: 150, damage_multiplier: 150, speed_multiplier: 110, spawn_rate: 300, environmental_damage: 0 },
        Biome::DeepCaves => DifficultyConfig { health_multiplier: 200, damage_multiplier: 200, speed_multiplier: 120, spawn_rate: 400, environmental_damage: 50 },
        Biome::LavaZone => DifficultyConfig { health_multiplier: 300, damage_multiplier: 300, speed_multiplier: 130, spawn_rate: 500, environmental_damage: 200 },
    }
}

/// Going down never makes the world easier: a lower position has at least
/// the multipliers, spawn rate and environmental damage of a higher one.
pub proof fn lemma_difficulty_monotone(low: int, high: int)
    requires
        low <= high,
    ensures
        difficulty_of(biome_of(low)).health_multiplier >= difficulty_of(biome_of(high)).health_multiplier,
        difficulty_of(biome_of(low)).damage_multiplier >= difficulty_of(biome_of(high)).damage_multiplier,
        difficulty_of(biome_of(low)).speed_multiplier >= difficulty_of(biome_of(high)).speed_multiplier,
        difficulty_of(biome_of(low)).spawn_rate >= difficulty_of(biome_of(high)).spawn_rate,
        difficulty_of(biome_of(low)).environmental_damage >= difficulty_of(biome_of(high)).environmental_damage,
{
}

pub open spec fn depth_label(b: Biome) -> Seq<char> {
    match b {
        Biome::Surface => "Surface"@,
        Biome::ShallowCaves => "Shallow Caves"@,
        Biome::DeepCaves => "Deep Caves"@,
        Biome::LavaZone => "Lava Zone"@,
    }
}

/// The name of the biome at a depth.
pub fn get_depth_label(depth: i32) -> (r: &'static str)
    ensures
        r@ == depth_label(biome_of(depth as int)),
{
    match get_biome(depth) {
        Biome::Surface => "Surface",
        Biome::ShallowCaves => "Shallow Caves",
        Biome::DeepCaves => "Deep Caves",
        Biome::LavaZone => "Lava Zone",
    }
}

} // verus!
