use vstd::prelude::*;

verus! {

/// The depth bands of the world.
#[derive(Clone, Copy, Debug, PartialEq, Eq, Structural)]
pub enum Biome {
    Surface,
    ShallowCaves,
    DeepCaves,
    LavaZone,
}

#[derive(Clone, Copy, Debug, PartialEq, Eq, Structural)]
pub enum MonsterCategory {
    Weak,
    Medium,
    Strong,
    Boss,
}

/// A biome's material weights, in hundredths, and the monsters it holds.
pub struct BiomeConfig {
    pub biome: Biome,
    pub stone_weight: u32,
    pub dirt_weight: u32,
    pub sand_weight: u32,
    pub water_weight: u32,
    pub lava_weight: u32,
    pub metal_weight: u32,
    pub ice_weight: u32,
    pub monster_types: Vec<MonsterCategory>,
}

pub open spec fn biome_of(y: int) -> Biome {
    if y >= 192 {
        Biome::Surface
    } else if y >= 128 {
        Biome::ShallowCaves
    } else if y >= 64 {
        Biome::DeepCaves
    } else {
        Biome::LavaZone
    }
}

/// The biome at height `y`: Surface from 192, shallow caves from 128, deep
/// caves from 64, the lava zone below.
pub fn get_biome(y: i32) -> (r: Biome)
    ensures
        r == biome_of(y as int),
{
    if y >= 192 {
        Biome::Surface
    } else if y >= 128 {
        Biome::ShallowCaves
    } else if y >= 64 {
        Biome::DeepCaves
    } else {
        Biome::LavaZone
    }
}

/// The weights, in hundredths, in the order stone, dirt, sand, water, lava,
/// metal, ice.
pub open spec fn biome_weights(b: Biome) -> (u32, u32, u32, u32, u32, u32, u32) {
    match b {
        Biome::Surface => (30, 35, 10, 5, 0, 0, 5),
        Biome::ShallowCaves => (55, 15, 5, 10, 0, 5, 0),
        Biome::DeepCaves => (60, 0, 0, 5, 15, 10, 0),
        Biome::LavaZone => (50, 0, 0, 0, 30, 15, 0),
    }
}

pub open spec fn biome_monsters(b: Biome) -> Seq<MonsterCategory> {
    match b {
        Biome::Surface => seq![MonsterCategory::Weak],
        Biome::ShallowCaves => seq![MonsterCategory::Weak, MonsterCategory::Medium],
        Biome::DeepCaves => seq![MonsterCategory::Medium, MonsterCategory::Strong],
        Biome::LavaZone => seq![MonsterCategory::Strong, MonsterCategory::Boss],
    }
}

pub open spec fn config_matches(c: BiomeConfig, b: Biome) -> bool {
    let w = biome_weights(b);
    &&& c.biome == b
    &&& c.stone_weight == w.0
    &&& c.dirt_weight == w.1
    &&& c.sand_weight == w.2
    &&& c.water_weight == w.3
    &&& c.lava_weight == w.4
    &&& c.metal_weight == w.5
    &&& c.ice_weight == w.6
    &&& c.monster_types@ == biome_monsters(b)
}

fn config(biome: Biome, w: (u32, u32, u32, u32, u32, u32, u32), monster_types: Vec<MonsterCategory>) -> (r: BiomeConfig)
    ensures
        r.biome == biome,
        (r.stone_weight, r.dirt_weight, r.sand_weight, r.water_weight, r.lava_weight, r.metal_weight, r.ice_weight) == w,
        r.monster_types@ == monster_types@,
{
    BiomeConfig {
        biome,
        stone_weight: w.0,
        dirt_weight: w.1,
        sand_weight: w.2,
        water_weight: w.3,
        lava_weight: w.4,
        metal_weight: w.5,
        ice_weight: w.6,
        monster_types,
    }
}

pub fn get_biome_config(biome: Biome) -> (r: BiomeConfig)
    ensures
        config_matches(r, biome),
{
    let r = match biome {
        Biome::Surface => config(biome, (30, 35, 10, 5, 0, 0, 5), vec![MonsterCategory::Weak]),
        Biome::ShallowCaves => config(biome, (55, 15, 5, 10, 0, 5, 0), vec![MonsterCategory::Weak, MonsterCategory::Medium]),
        Biome::DeepCaves => config(biome, (60, 0, 0, 5, 15, 10, 0), vec![MonsterCategory::Medium, MonsterCategory::Strong]),
        Biome::LavaZone => config(biome, (50, 0, 0, 0, 30, 15, 0), vec![MonsterCategory::Strong, MonsterCategory::Boss]),
    };
    assert(r.monster_types@ =~= biome_monsters(biome));
    r
}

/// Each biome's weights add up to at most one whole, so the material
/// choice leaves Air for the rest.
pub proof fn lemma_weights_at_most_whole(b: Biome)
    ensures
        ({
            let w = biome_weights(b);
            w.0 + w.1 + w.2 + w.3 + w.4 + w.5 + w.6 <= 100
        }),
{
}

} // verus!
