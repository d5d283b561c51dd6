use vstd::prelude::*;

use crate::world::chunk::Material;

verus! {

/// How a material moves in the simulation.
#[derive(Clone, Copy, Debug, PartialEq, Eq, Structural)]
pub enum MaterialBehavior {
    Static,
    FallingSolid,
    Liquid,
    Gas,
}

/// Physical properties of a material. The density is in tenths of kg/m³.
#[derive(Clone, Copy, Debug, PartialEq, Eq, Structural)]
pub struct MaterialProperties {
    pub material: Material,
    pub behavior: MaterialBehavior,
    pub density: u32,
    pub flammable: bool,
    pub flow_speed: u32,
    pub lifetime: Option<u32>,
}

pub open spec fn props(
    material: Material,
    behavior: MaterialBehavior,
    density: u32,
    flammable: bool,
    flow_speed: u32,
    lifetime: Option<u32>,
) -> MaterialProperties {
    MaterialProperties { material, behavior, density, flammable, flow_speed, lifetime }
}

/// The property table.
pub open spec fn material_props(m: Material) -> MaterialProperties {
    match m {
        Material::Air => props(m, MaterialBehavior::Gas, 0, false, 0, None),
        Material::Stone => props(m, MaterialBehavior::Static, 25000, false, 0, None),
        Material::Dirt => props(m, MaterialBehavior::Static, 15000, true, 0, None),
        Material::Sand => props(m, MaterialBehavior::FallingSolid, 16000, false, 1, None),
        Material::Water => props(m, MaterialBehavior::Liquid, 10000, false, 4, None),
        Material::Lava => props(m, MaterialBehavior::Liquid, 30000, false, 1, None),
        Material::Wood => props(m, MaterialBehavior::Static, 6000, true, 0, None),
        Material::Metal => props(m, MaterialBehavior::Static, 78000, false, 0, None),
        Material::Ice => props(m, MaterialBehavior::Static, 9170, false, 0, None),
        Material::Fire => props(m, MaterialBehavior::Gas, 5, false, 2, Some(10)),
    }
}

impl MaterialProperties {
    pub fn get(mat: Material) -> (r: MaterialProperties)
        ensures
            r == material_props(mat),
    {
        let (behavior, density, flammable, flow_speed, lifetime) = match mat {
            Material::Air => (MaterialBehavior::Gas, 0u32, false, 0u32, None),
            Material::Stone => (MaterialBehavior::Static, 25000, false, 0, None),
            Material::Dirt => (MaterialBehavior::Static, 15000, true, 0, None),
            Material::Sand => (MaterialBehavior::FallingSolid, 16000, false, 1, None),
            Material::Water => (MaterialBehavior::Liquid, 10000, false, 4, None),
            Material::Lava => (MaterialBehavior::Liquid, 30000, false, 1, None),
            Material::Wood => (MaterialBehavior::Static, 6000, true, 0, None),
            Material::Metal => (MaterialBehavior::Static, 78000, false, 0, None),
            Material::Ice => (MaterialBehavior::Static, 9170, false, 0, None),
            Material::Fire => (MaterialBehavior::Gas, 5, false, 2, Some(10u32)),
        };
        MaterialProperties { material: mat, behavior, density, flammable, flow_speed, lifetime }
    }

    /// Whether the simulation moves this material at all.
    pub fn is_mobile(&self) -> (r: bool)
        ensures
            r == !(self.behavior is Static),
    {
        match self.behavior {
            MaterialBehavior::Static => false,
            _ => true,
        }
    }
}

/// The property table describes the material it is looked up for, and
/// densities rise from fire through water, sand and stone to metal.
pub proof fn lemma_material_table(m: Material)
    ensures
        material_props(m).material == m,
        material_props(Material::Fire).density < material_props(Material::Water).density,
        material_props(Material::Water).density < material_props(Material::Sand).density,
        material_props(Material::Sand).density < material_props(Material::Stone).density,
        material_props(Material::Stone).density < material_props(Material::Metal).density,
{
}

} // verus!
