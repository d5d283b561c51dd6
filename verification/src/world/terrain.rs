use vstd::prelude::*;

use crate::world::chunk::{spec_chunk_index, Block, Chunk, IVec3, Material, AMBIENT_TEMPERATURE_BITS};

verus! {

pub const SURFACE_Y: i32 = 128;

/// A seeded value-noise source; the seed selects the lattice values.
#[derive(Clone, Copy, Debug, PartialEq, Eq, Structural)]
pub struct SimpleNoise {
    pub seed: u32,
}

pub open spec fn wmul(a: i64, b: i64) -> i64 {
    vstd::wrapping::i64_specs::wrapping_mul(a, b)
}

pub open spec fn wadd(a: i64, b: i64) -> i64 {
    vstd::wrapping::i64_specs::wrapping_add(a, b)
}

/// The lattice hash before it is scaled: the seed and the three coordinates
/// mixed by wrapping multiplications and additions, low 16 bits kept.
pub open spec fn lattice_hash(seed: u32, x: i64, y: i64, z: i64) -> i64 {
    let h = wmul(seed as i64, 374761393);
    let h = wadd(h, x);
    let h = wmul(h, 668265263);
    let h = wadd(h, y);
    let h = wmul(h, 1274126177);
    let h = wadd(h, z);
    let h = wmul(h, 1911520717);
    h & 0xFFFF
}

impl SimpleNoise {
    pub fn new(seed: u32) -> (r: SimpleNoise)
        ensures
            r.seed == seed,
    {
        SimpleNoise { seed }
    }

    /// The 16-bit lattice value at an integer point, from 0 to 65535.
    pub fn hash_bits(&self, x: i64, y: i64, z: i64) -> (r: i64)
        ensures
            r == lattice_hash(self.seed, x, y, z),
            0 <= r <= 0xFFFF,
    {
        let mut h = self.seed as i64;
        h = h.wrapping_mul(374761393);
        h = h.wrapping_add(x);
        h = h.wrapping_mul(668265263);
        h = h.wrapping_add(y);
        h = h.wrapping_mul(1274126177);
        h = h.wrapping_add(z);
        h = h.wrapping_mul(1911520717);
        let r = h & 0xFFFF;
        assert(0 <= h & 0xFFFF <= 0xFFFF) by (bit_vector);
        r
    }
}

/// Generates terrain from a seed: one noise for the surface height, one
/// (seeded one higher, wrapping) for caves.
#[derive(Clone, Copy, Debug)]
pub struct TerrainGenerator {
    seed: u32,
    height_noise: SimpleNoise,
    cave_noise: SimpleNoise,
}

impl TerrainGenerator {
    pub closed spec fn spec_seed(&self) -> u32 {
        self.seed
    }

    pub closed spec fn spec_height_noise(&self) -> SimpleNoise {
        self.height_noise
    }

    pub closed spec fn spec_cave_noise(&self) -> SimpleNoise {
        self.cave_noise
    }

    pub fn new(seed: u32) -> (r: TerrainGenerator)
        ensures
            made_from_seed(r, seed),
    {
        let height_noise = SimpleNoise::new(seed);
        let cave_noise = SimpleNoise::new(seed.wrapping_add(1));
        TerrainGenerator { seed, height_noise, cave_noise }
    }

    pub fn seed(&self) -> (r: u32)
        ensures
            r == self.spec_seed(),
    {
        self.seed
    }

    pub fn height_noise(&self) -> (r: SimpleNoise)
        ensures
            r == self.spec_height_noise(),
    {
        self.height_noise
    }

    pub fn cave_noise(&self) -> (r: SimpleNoise)
        ensures
            r == self.spec_cave_noise(),
    {
        self.cave_noise
    }
}

pub open spec fn column_material_spec(world_y: int, surface_y: int) -> Material {
    if world_y > surface_y {
        Material::Air
    } else if world_y > surface_y - 4 {
        Material::Dirt
    } else {
        Material::Stone
    }
}

/// The layer at a height in a column whose surface is at `surface_y`: Air
/// above the surface, Dirt at the surface and the three layers below it,
/// Stone deeper down.
pub fn column_material(world_y: i32, surface_y: i32) -> (r: Material)
    requires
        world_y < surface_y ==> surface_y >= i32::MIN + 4,
    ensures
        r == column_material_spec(world_y as int, surface_y as int),
{
    if world_y > surface_y {
        Material::Air
    } else if world_y == surface_y {
        Material::Dirt
    } else if world_y > surface_y - 4 {
        Material::Dirt
    } else {
        Material::Stone
    }
}

/// The material of a voxel at height `world_y` in a column whose surface is
/// at `surface_y`: its layer, hollowed to Air where the cave noise is high.
pub open spec fn terrain_material(world_y: int, surface_y: int, in_cave: bool) -> Material {
    let m = column_material_spec(world_y, surface_y);
    if m != Material::Air && in_cave {
        Material::Air
    } else {
        m
    }
}

/// The voxels of the generated chunk at `chunk_pos`, from its columns'
/// surfaces and its cave flags.
pub open spec fn terrain_cells(chunk_pos: IVec3, surface: Seq<i32>, cave: Seq<bool>) -> Seq<Block> {
    Seq::new(4096, |i: int| {
        let (x, y, z) = (i % 16, (i / 16) % 16, i / 256);
        Block {
            material: terrain_material(chunk_pos.y * 16 + y, surface[x + z * 16] as int, cave[i]),
            temperature: AMBIENT_TEMPERATURE_BITS,
        }
    })
}

impl TerrainGenerator {
    /// Generates the chunk at `chunk_pos`. `surface[x + 16 * z]` is the
    /// surface height of column (x, z), derived from the height noise, and
    /// `cave[i]` says whether the cave noise at voxel `i` lies above the
    /// cave threshold. Each voxel gets its column's layer (Air above the
    /// surface, Dirt down to three below it, Stone deeper), hollowed to Air
    /// in caves; the chunk comes back dirty.
    pub fn generate_chunk(&mut self, chunk_pos: IVec3, surface: &Vec<i32>, cave: &Vec<bool>) -> (r: Chunk)
        requires
            surface@.len() == 256,
            cave@.len() == 4096,
            i32::MIN <= chunk_pos.y * 16 && chunk_pos.y * 16 + 15 <= i32::MAX,
            forall|i: int| 0 <= i < 256 && #[trigger] surface@[i] > chunk_pos.y * 16 ==> surface@[i] >= i32::MIN + 4,
        ensures
            *final(self) == *old(self),
            r.wf(),
            r.position == chunk_pos,
            r.dirty,
            r.cells() == terrain_cells(chunk_pos, surface@, cave@),
            forall|x: int, y: int, z: int| 0 <= x < 16 && 0 <= y < 16 && 0 <= z < 16 ==> {
                let m = #[trigger] r.material_at(x, y, z);
                let world_y = chunk_pos.y * 16 + y;
                let top = surface@[x + z * 16] as int;
                &&& cave@[x + y * 16 + z * 256] ==> m == Material::Air
                &&& !cave@[x + y * 16 + z * 256] && world_y > top ==> m == Material::Air
                &&& !cave@[x + y * 16 + z * 256] && top - 4 < world_y <= top ==> m == Material::Dirt
                &&& !cave@[x + y * 16 + z * 256] && world_y <= top - 4 ==> m == Material::Stone
            },
    {
        let mut chunk = Chunk::new(chunk_pos);
        let base_y: i32 = chunk_pos.y * 16;
        let mut k: usize = 0;
        while k < 4096
            invariant
                k <= 4096,
                chunk.wf(),
                chunk.position == chunk_pos,
                surface@.len() == 256,
                cave@.len() == 4096,
                base_y == chunk_pos.y * 16,
                i32::MIN <= chunk_pos.y * 16 && chunk_pos.y * 16 + 15 <= i32::MAX,
                forall|i: int| 0 <= i < 256 && #[trigger] surface@[i] > chunk_pos.y * 16 ==> surface@[i] >= i32::MIN + 4,
                forall|i: int| 0 <= i < k ==> #[trigger] chunk.cells()[i] == terrain_cells(chunk_pos, surface@, cave@)[i],
                forall|i: int| k <= i < 4096 ==> #[trigger] chunk.cells()[i] == Block::air_spec(),
            decreases 4096 - k,
        {
            let x = k % 16;
            let y = (k / 16) % 16;
            let z = k / 256;
            assert(spec_chunk_index(x as int, y as int, z as int) == k);
            let world_y: i32 = base_y + y as i32;
            let s = surface[x + z * 16];
            let layer = column_material(world_y, s);
            let m = if layer != Material::Air && cave[k] { Material::Air } else { layer };
            if m != Material::Air {
                chunk.set_material(x, y, z, m);
            }
            proof {
                assert(chunk.cells()[k as int] == terrain_cells(chunk_pos, surface@, cave@)[k as int]);
            }
            k = k + 1;
        }
        chunk.dirty = true;
        proof {
            assert(chunk.cells() =~= terrain_cells(chunk_pos, surface@, cave@));
            assert forall|x: int, y: int, z: int| 0 <= x < 16 && 0 <= y < 16 && 0 <= z < 16 implies {
                let m = #[trigger] chunk.material_at(x, y, z);
                let world_y = chunk_pos.y * 16 + y;
                let top = surface@[x + z * 16] as int;
                &&& cave@[x + y * 16 + z * 256] ==> m == Material::Air
                &&& !cave@[x + y * 16 + z * 256] && world_y > top ==> m == Material::Air
                &&& !cave@[x + y * 16 + z * 256] && top - 4 < world_y <= top ==> m == Material::Dirt
                &&& !cave@[x + y * 16 + z * 256] && world_y <= top - 4 ==> m == Material::Stone
            } by {
                lemma_terrain_voxel(chunk_pos, surface@, cave@, x, y, z);
            }
        }
        chunk
    }
}

/// Generated terrain holds only Air, Dirt and Stone, and it is a function of
/// the chunk's height and the columns' surfaces and cave flags alone.
pub proof fn lemma_terrain_layers(chunk_pos: IVec3, surface: Seq<i32>, cave: Seq<bool>, other_pos: IVec3)
    requires
        other_pos.y == chunk_pos.y,
    ensures
        forall|i: int| 0 <= i < 4096 ==> {
            let m = (#[trigger] terrain_cells(chunk_pos, surface, cave)[i]).material;
            m == Material::Air || m == Material::Dirt || m == Material::Stone
        },
        terrain_cells(chunk_pos, surface, cave) == terrain_cells(other_pos, surface, cave),
{
    assert(terrain_cells(chunk_pos, surface, cave) =~= terrain_cells(other_pos, surface, cave));
}

/// What `TerrainGenerator::new(seed)` makes: the seed kept, the height noise
/// seeded with it, and the cave noise seeded one higher (wrapping).
pub open spec fn made_from_seed(g: TerrainGenerator, seed: u32) -> bool {
    &&& g.spec_seed() == seed
    &&& g.spec_height_noise().seed == seed
    &&& g.spec_cave_noise().seed == vstd::wrapping::u32_specs::wrapping_add(seed, 1)
}

/// Two generators made from the same seed are the same generator, so their
/// noises agree everywhere and they generate the same chunk at every
/// position from the tables those noises give; generating a chunk leaves a
/// generator, its seed included, as it was.
pub proof fn lemma_same_seed_same_generator(g1: TerrainGenerator, g2: TerrainGenerator, seed: u32)
    requires
        made_from_seed(g1, seed),
        made_from_seed(g2, seed),
    ensures
        g1 == g2,
        forall|x: i64, y: i64, z: i64| #[trigger] lattice_hash(g1.spec_height_noise().seed, x, y, z)
            == lattice_hash(g2.spec_height_noise().seed, x, y, z)
            && lattice_hash(g1.spec_cave_noise().seed, x, y, z) == lattice_hash(g2.spec_cave_noise().seed, x, y, z),
{
    assert(g1.height_noise == g2.height_noise);
    assert(g1.cave_noise == g2.cave_noise);
}

/// The voxel at (x, y, z) of generated terrain, stated layer by layer: Air
/// wherever its cave flag is set, whatever layer it lies in; otherwise Air
/// above its column's surface, Dirt at the surface and the three layers
/// below it, and Stone deeper down.
pub proof fn lemma_terrain_voxel(chunk_pos: IVec3, surface: Seq<i32>, cave: Seq<bool>, x: int, y: int, z: int)
    requires
        0 <= x < 16 && 0 <= y < 16 && 0 <= z < 16,
    ensures
        ({
            let i = x + y * 16 + z * 256;
            let world_y = chunk_pos.y * 16 + y;
            let top = surface[x + z * 16] as int;
            let m = terrain_cells(chunk_pos, surface, cave)[i].material;
            &&& cave[i] ==> m == Material::Air
            &&& !cave[i] && world_y > top ==> m == Material::Air
            &&& !cave[i] && top - 4 < world_y <= top ==> m == Material::Dirt
            &&& !cave[i] && world_y <= top - 4 ==> m == Material::Stone
        }),
{
    let i = x + y * 16 + z * 256;
    vstd::arithmetic::div_mod::lemma_fundamental_div_mod_converse(i, 16, y + z * 16, x);
    vstd::arithmetic::div_mod::lemma_fundamental_div_mod_converse(i, 256, z, x + y * 16);
    vstd::arithmetic::div_mod::lemma_fundamental_div_mod_converse(y + z * 16, 16, z, y);
    assert((i / 16) % 16 == y);
}

} // verus!
