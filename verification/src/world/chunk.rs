use std::collections::HashMap;
use vstd::prelude::*;

verus! {

/// Edge length of a cubic chunk, in blocks.
pub const CHUNK_SIZE: usize = 16;

/// Number of blocks in a chunk.
pub const CHUNK_VOLUME: usize = 4096;

/// Bit pattern of the single-precision value 20.0, the ambient temperature.
pub const AMBIENT_TEMPERATURE_BITS: u32 = 0x41A0_0000;

/// An integer position in world, chunk or local coordinates.
#[derive(Clone, Copy, Debug, PartialEq, Eq, Hash, Structural)]
pub struct IVec3 {
    pub x: i32,
    pub y: i32,
    pub z: i32,
}

impl IVec3 {
    pub fn new(x: i32, y: i32, z: i32) -> (r: IVec3)
        ensures
            r == (IVec3 { x, y, z }),
    {
        IVec3 { x, y, z }
    }

    /// The origin.
    pub fn zero() -> (r: IVec3)
        ensures
            r == (IVec3 { x: 0, y: 0, z: 0 }),
    {
        IVec3 { x: 0, y: 0, z: 0 }
    }
}

/// The material a block is made of.
#[derive(Clone, Copy, Debug, PartialEq, Eq, Hash, Structural)]
pub enum Material {
    Air,
    Stone,
    Dirt,
    Sand,
    Water,
    Lava,
    Wood,
    Metal,
    Ice,
    Fire,
}

pub open spec fn spec_is_solid(m: Material) -> bool {
    m is Stone || m is Dirt || m is Sand || m is Wood || m is Metal || m is Ice
}

pub open spec fn spec_is_liquid(m: Material) -> bool {
    m is Water || m is Lava
}

impl Material {
    pub fn is_solid(self) -> (r: bool)
        ensures
            r == spec_is_solid(self),
    {
        match self {
            Material::Stone | Material::Dirt | Material::Sand | Material::Wood | Material::Metal
            | Material::Ice => true,
            _ => false,
        }
    }

    pub fn is_liquid(self) -> (r: bool)
        ensures
            r == spec_is_liquid(self),
    {
        match self {
            Material::Water | Material::Lava => true,
            _ => false,
        }
    }

    pub fn is_gas(self) -> (r: bool)
        ensures
            r == (self is Fire),
    {
        match self {
            Material::Fire => true,
            _ => false,
        }
    }

    pub fn is_air(self) -> (r: bool)
        ensures
            r == (self is Air),
    {
        self == Material::Air
    }
}

/// One voxel: its material and a single-precision temperature, kept as its
/// IEEE-754 bit pattern. Fire and fluid rules reuse the temperature as a
/// lifetime or a level.
#[derive(Clone, Copy, Debug, PartialEq, Eq, Structural)]
pub struct Block {
    pub material: Material,
    pub temperature: u32,
}

impl Block {
    pub fn air() -> (r: Block)
        ensures
            r == (Block { material: Material::Air, temperature: AMBIENT_TEMPERATURE_BITS }),
    {
        Block { material: Material::Air, temperature: AMBIENT_TEMPERATURE_BITS }
    }

    pub fn new(material: Material) -> (r: Block)
        ensures
            r == (Block { material, temperature: AMBIENT_TEMPERATURE_BITS }),
    {
        Block { material, temperature: AMBIENT_TEMPERATURE_BITS }
    }

    pub fn with_temperature(material: Material, temperature: u32) -> (r: Block)
        ensures
            r == (Block { material, temperature }),
    {
        Block { material, temperature }
    }

    pub fn default() -> (r: Block)
        ensures
            r == (Block { material: Material::Air, temperature: AMBIENT_TEMPERATURE_BITS }),
    {
        Block::air()
    }
}

/// Linear index of a local position: x fastest, then y, then z.
pub open spec fn spec_chunk_index(x: int, y: int, z: int) -> int {
    x + y * 16 + z * 256
}

pub open spec fn in_chunk(x: int, y: int, z: int) -> bool {
    0 <= x < 16 && 0 <= y < 16 && 0 <= z < 16
}

fn chunk_index(x: usize, y: usize, z: usize) -> (r: usize)
    requires
        spec_chunk_index(x as int, y as int, z as int) < CHUNK_VOLUME,
    ensures
        r == spec_chunk_index(x as int, y as int, z as int),
{
    x + y * CHUNK_SIZE + z * CHUNK_SIZE * CHUNK_SIZE
}


/// A cubic block of 16×16×16 voxels at a chunk position. The voxels are
/// indexed by `spec_chunk_index`; the methods keep their number at
/// `CHUNK_VOLUME`.
pub struct Chunk {
    pub blocks: Vec<Block>,
    pub position: IVec3,
    pub dirty: bool,
}

impl Chunk {
    /// The voxels, indexed by `spec_chunk_index`.
    pub open spec fn cells(&self) -> Seq<Block> {
        self.blocks@
    }

    /// A chunk holds exactly `CHUNK_VOLUME` voxels.
    pub open spec fn wf(&self) -> bool {
        self.cells().len() == CHUNK_VOLUME
    }

    pub open spec fn block_at(&self, x: int, y: int, z: int) -> Block {
        self.cells()[spec_chunk_index(x, y, z)]
    }

    pub open spec fn material_at(&self, x: int, y: int, z: int) -> Material {
        self.block_at(x, y, z).material
    }

    /// An all-air chunk that is not dirty.
    pub fn new(position: IVec3) -> (r: Chunk)
        ensures
            r.wf(),
            r.cells() == Seq::new(CHUNK_VOLUME as nat, |i: int| Block::air_spec()),
            r.position == position,
            !r.dirty,
    {
        let mut blocks: Vec<Block> = Vec::new();
        let mut i: usize = 0;
        while i < CHUNK_VOLUME
            invariant
                i <= CHUNK_VOLUME,
                blocks@ == Seq::new(i as nat, |k: int| Block::air_spec()),
            decreases CHUNK_VOLUME - i,
        {
            blocks.push(Block::air());
            i = i + 1;
        }
        Chunk { blocks, position, dirty: false }
    }

    pub fn get_block(&self, x: usize, y: usize, z: usize) -> (r: Block)
        requires
            self.wf(),
            spec_chunk_index(x as int, y as int, z as int) < CHUNK_VOLUME,
        ensures
            r == self.cells()[spec_chunk_index(x as int, y as int, z as int)],
    {
        self.blocks[chunk_index(x, y, z)]
    }

    /// Writes the block when the position lies in the chunk and marks the
    /// chunk dirty; does nothing otherwise.
    pub fn set_block(&mut self, x: usize, y: usize, z: usize, block: Block)
        requires
            old(self).wf(),
        ensures
            final(self).wf(),
            final(self).position == old(self).position,
            in_chunk(x as int, y as int, z as int) ==> {
                &&& final(self).cells() == old(self).cells().update(
                    spec_chunk_index(x as int, y as int, z as int),
                    block,
                )
                &&& final(self).dirty
            },
            !in_chunk(x as int, y as int, z as int) ==> *final(self) == *old(self),
    {
        if x < CHUNK_SIZE && y < CHUNK_SIZE && z < CHUNK_SIZE {
            let i = chunk_index(x, y, z);
            self.blocks.set(i, block);
            self.dirty = true;
        }
    }

    pub fn get_material(&self, x: usize, y: usize, z: usize) -> (r: Material)
        requires
            self.wf(),
            spec_chunk_index(x as int, y as int, z as int) < CHUNK_VOLUME,
        ensures
            r == self.cells()[spec_chunk_index(x as int, y as int, z as int)].material,
    {
        self.blocks[chunk_index(x, y, z)].material
    }

    /// Replaces the material (keeping the temperature) when the position lies
    /// in the chunk and marks the chunk dirty; does nothing otherwise.
    pub fn set_material(&mut self, x: usize, y: usize, z: usize, material: Material)
        requires
            old(self).wf(),
        ensures
            final(self).wf(),
            final(self).position == old(self).position,
            in_chunk(x as int, y as int, z as int) ==> {
                let i = spec_chunk_index(x as int, y as int, z as int);
                &&& final(self).cells() == old(self).cells().update(
                    i,
                    Block { material, temperature: old(self).cells()[i].temperature },
                )
                &&& final(self).dirty
            },
            !in_chunk(x as int, y as int, z as int) ==> *final(self) == *old(self),
    {
        if x < CHUNK_SIZE && y < CHUNK_SIZE && z < CHUNK_SIZE {
            let i = chunk_index(x, y, z);
            let old_block = self.blocks[i];
            self.blocks.set(i, Block { material, temperature: old_block.temperature });
            self.dirty = true;
        }
    }

    /// Splits a world position into the position of its chunk and its
    /// position inside that chunk (floor division and Euclidean remainder).
    pub fn world_to_local(world_pos: IVec3) -> (r: (IVec3, IVec3))
        ensures
            r.0.x == world_pos.x / 16,
            r.0.y == world_pos.y / 16,
            r.0.z == world_pos.z / 16,
            r.1.x == world_pos.x % 16,
            r.1.y == world_pos.y % 16,
            r.1.z == world_pos.z % 16,
    {
        let cx = world_pos.x.checked_div_euclid(16i32).unwrap();
        let cy = world_pos.y.checked_div_euclid(16i32).unwrap();
        let cz = world_pos.z.checked_div_euclid(16i32).unwrap();
        let lx = world_pos.x.checked_rem_euclid(16i32).unwrap();
        let ly = world_pos.y.checked_rem_euclid(16i32).unwrap();
        let lz = world_pos.z.checked_rem_euclid(16i32).unwrap();
        (IVec3 { x: cx, y: cy, z: cz }, IVec3 { x: lx, y: ly, z: lz })
    }
}

impl Block {
    pub open spec fn air_spec() -> Block {
        Block { material: Material::Air, temperature: AMBIENT_TEMPERATURE_BITS }
    }

    pub open spec fn new_spec(material: Material) -> Block {
        Block { material, temperature: AMBIENT_TEMPERATURE_BITS }
    }
}

/// The local coordinates that `world_to_local` returns lie inside a chunk,
/// and the chunk position scaled by the chunk size plus the local position
/// gives back the world position.
pub proof fn lemma_world_to_local_roundtrip(w: int)
    ensures
        0 <= w % 16 < 16,
        (w / 16) * 16 + w % 16 == w,
{
    vstd::arithmetic::div_mod::lemma_fundamental_div_mod(w, 16);
}


/// The chunk that holds a world position.
pub open spec fn chunk_of(w: IVec3) -> IVec3 {
    IVec3 { x: (w.x / 16) as i32, y: (w.y / 16) as i32, z: (w.z / 16) as i32 }
}

/// A world position's place inside its chunk.
pub open spec fn local_of(w: IVec3) -> IVec3 {
    IVec3 { x: (w.x % 16) as i32, y: (w.y % 16) as i32, z: (w.z % 16) as i32 }
}

pub open spec fn local_index(l: IVec3) -> int {
    spec_chunk_index(l.x as int, l.y as int, l.z as int)
}

/// The key under which a chunk position is stored: the three coordinates,
/// each shifted into 32 unsigned bits, read as one 96-bit number.
pub open spec fn pos_key(p: IVec3) -> int {
    (p.x * 0x1_0000_0000 + (p.y + 0x8000_0000)) * 0x1_0000_0000 + (p.z + 0x8000_0000)
}

pub(crate) fn key_of(p: IVec3) -> (k: i128)
    ensures
        k == pos_key(p),
{
    ((p.x as i128) * 0x1_0000_0000i128 + (p.y as i128 + 0x8000_0000i128)) * 0x1_0000_0000i128 + (
    p.z as i128 + 0x8000_0000i128)
}

/// Distinct positions have distinct keys.
pub proof fn lemma_pos_key_injective(a: IVec3, b: IVec3)
    requires
        pos_key(a) == pos_key(b),
    ensures
        a == b,
{
    let m: int = 0x1_0000_0000;
    let qa = a.x * m + (a.y + 0x8000_0000);
    let qb = b.x * m + (b.y + 0x8000_0000);
    vstd::arithmetic::div_mod::lemma_fundamental_div_mod_converse(pos_key(a), m, qa, a.z + 0x8000_0000);
    vstd::arithmetic::div_mod::lemma_fundamental_div_mod_converse(pos_key(b), m, qb, b.z + 0x8000_0000);
    vstd::arithmetic::div_mod::lemma_fundamental_div_mod_converse(qa, m, a.x as int, a.y + 0x8000_0000);
    vstd::arithmetic::div_mod::lemma_fundamental_div_mod_converse(qb, m, b.x as int, b.y + 0x8000_0000);
}

/// Wraps `HashMap::get_mut`: a mutable reference to the value under `k`,
/// whose final value becomes the map's value under `k`.
#[verifier::external_body]
fn hash_map_get_mut(m: &mut HashMap<i128, Chunk>, k: i128) -> (r: Option<&mut Chunk>)
    ensures
        match r {
            Some(c) => {
                &&& old(m)@.contains_key(k)
                &&& *c == old(m)@[k]
                &&& final(m)@ == old(m)@.insert(k, *final(c))
            },
            None => !old(m)@.contains_key(k) && final(m)@ == old(m)@,
        },
{
    m.get_mut(&k)
}

/// The loaded chunks, by chunk position.
pub struct ChunkMap {
    chunks: HashMap<i128, Chunk>,
}

impl View for ChunkMap {
    type V = Map<IVec3, Chunk>;

    closed spec fn view(&self) -> Map<IVec3, Chunk> {
        key_view(self.chunks@)
    }
}

/// A map keyed by `pos_key`, read as a map keyed by position.
pub open spec fn key_view<V>(m: Map<i128, V>) -> Map<IVec3, V> {
    Map::new(|p: IVec3| m.contains_key(pos_key(p) as i128), |p: IVec3| m[pos_key(p) as i128])
}

spec fn inner_wf(m: Map<i128, Chunk>) -> bool {
    forall|k: i128| #[trigger] m.contains_key(k) ==> pos_key(m[k].position) == k && m[k].wf()
}

proof fn lemma_key_view_insert(m: Map<i128, Chunk>, p: IVec3)
    ensures
        forall|c: Chunk| #[trigger] key_view(m.insert(pos_key(p) as i128, c)) == key_view(m).insert(p, c),
        forall|c: Chunk| inner_wf(m) && c.position == p && c.wf() ==> #[trigger] inner_wf(m.insert(pos_key(p) as i128, c)),
{
    lemma_key_view_insert_any(m, p);
}

/// Inserting under a position's key inserts at that position.
pub proof fn lemma_key_view_insert_any<V>(m: Map<i128, V>, p: IVec3)
    ensures
        forall|c: V| #[trigger] key_view(m.insert(pos_key(p) as i128, c)) == key_view(m).insert(p, c),
{
    assert forall|c: V| #[trigger] key_view(m.insert(pos_key(p) as i128, c)) == key_view(m).insert(p, c) by {
        let a = key_view(m.insert(pos_key(p) as i128, c));
        let b = key_view(m).insert(p, c);
        assert forall|q: IVec3| #[trigger] a.contains_key(q) == b.contains_key(q) by {
            if pos_key(q) == pos_key(p) { lemma_pos_key_injective(q, p); }
        }
        assert forall|q: IVec3| a.contains_key(q) implies #[trigger] a[q] == b[q] by {
            if pos_key(q) == pos_key(p) { lemma_pos_key_injective(q, p); }
        }
        assert(a =~= b);
    }
}

proof fn lemma_key_view_remove(m: Map<i128, Chunk>, p: IVec3)
    ensures
        key_view(m.remove(pos_key(p) as i128)) == key_view(m).remove(p),
{
    let a = key_view(m.remove(pos_key(p) as i128));
    let b = key_view(m).remove(p);
    assert forall|q: IVec3| #[trigger] a.contains_key(q) == b.contains_key(q) by {
        if pos_key(q) == pos_key(p) { lemma_pos_key_injective(q, p); }
    }
    assert(a =~= b);
}

/// Every loaded chunk is well formed and is stored under its own position.
pub open spec fn chunks_valid(m: Map<IVec3, Chunk>) -> bool {
    forall|p: IVec3| #[trigger] m.contains_key(p) ==> m[p].position == p && m[p].wf()
}

/// The material at a world position: Air where no chunk is loaded.
pub open spec fn map_material(m: Map<IVec3, Chunk>, w: IVec3) -> Material {
    if m.contains_key(chunk_of(w)) {
        m[chunk_of(w)].cells()[local_index(local_of(w))].material
    } else {
        Material::Air
    }
}

/// `new` is `old` with the voxel at local position `l` replaced by `b`,
/// marked dirty.
pub open spec fn chunk_written(old: Chunk, new: Chunk, l: IVec3, b: Block) -> bool {
    &&& new.cells() == old.cells().update(local_index(l), b)
    &&& new.position == old.position
    &&& new.dirty
}

/// `new` is `old` after writing `b` at world position `w`: the block lands
/// in its chunk when that chunk is loaded, and nothing changes otherwise.
pub open spec fn map_written(old: Map<IVec3, Chunk>, new: Map<IVec3, Chunk>, w: IVec3, b: Block) -> bool {
    if old.contains_key(chunk_of(w)) {
        &&& new.dom() == old.dom()
        &&& forall|p: IVec3| #[trigger] new.contains_key(p) && p != chunk_of(w) ==> new[p] == old[p]
        &&& chunk_written(old[chunk_of(w)], new[chunk_of(w)], local_of(w), b)
    } else {
        new == old
    }
}

/// The loaded chunks' voxels and dirty flags, by chunk position.
pub open spec fn cells_map(m: Map<IVec3, Chunk>) -> Map<IVec3, (Seq<Block>, bool)> {
    Map::new(|p: IVec3| m.contains_key(p), |p: IVec3| (m[p].cells(), m[p].dirty))
}

/// Writing `b` at world position `w` into `a`: the voxel changes and its
/// chunk becomes dirty when that chunk is loaded.
pub open spec fn write_abs(a: Map<IVec3, (Seq<Block>, bool)>, w: IVec3, b: Block) -> Map<IVec3, (Seq<Block>, bool)> {
    if a.contains_key(chunk_of(w)) {
        a.insert(chunk_of(w), (a[chunk_of(w)].0.update(local_index(local_of(w)), b), true))
    } else {
        a
    }
}

/// Writing `b` at each of the positions in turn.
pub open spec fn write_all(a: Map<IVec3, (Seq<Block>, bool)>, ws: Seq<IVec3>, b: Block) -> Map<IVec3, (Seq<Block>, bool)>
    decreases ws.len(),
{
    if ws.len() == 0 {
        a
    } else {
        write_abs(write_all(a, ws.drop_last(), b), ws.last(), b)
    }
}

/// The material at a world position; Air where no chunk is loaded.
pub open spec fn read_abs(a: Map<IVec3, (Seq<Block>, bool)>, w: IVec3) -> Material {
    if a.contains_key(chunk_of(w)) {
        a[chunk_of(w)].0[local_index(local_of(w))].material
    } else {
        Material::Air
    }
}

/// The written relation, as a function of the voxels and flags.
pub proof fn lemma_map_written_abs(old: Map<IVec3, Chunk>, new: Map<IVec3, Chunk>, w: IVec3, b: Block)
    requires
        map_written(old, new, w, b),
    ensures
        cells_map(new) == write_abs(cells_map(old), w, b),
{
    if old.contains_key(chunk_of(w)) {
        assert(cells_map(new) =~= write_abs(cells_map(old), w, b));
    }
}

proof fn lemma_local_split(w: IVec3, q: IVec3)
    ensures
        0 <= local_index(local_of(w)) < CHUNK_VOLUME,
        chunk_of(w) == chunk_of(q) && local_index(local_of(w)) == local_index(local_of(q)) ==> w == q,
{
    lemma_world_to_local_roundtrip(w.x as int);
    lemma_world_to_local_roundtrip(w.y as int);
    lemma_world_to_local_roundtrip(w.z as int);
    lemma_world_to_local_roundtrip(q.x as int);
    lemma_world_to_local_roundtrip(q.y as int);
    lemma_world_to_local_roundtrip(q.z as int);
}

/// Reading a position after writing `b` at `w` gives `b`'s material when
/// it is `w` and its chunk is loaded, and what was there before otherwise.
pub proof fn lemma_read_after_write(a: Map<IVec3, (Seq<Block>, bool)>, w: IVec3, b: Block, q: IVec3)
    requires
        forall|p: IVec3| #[trigger] a.contains_key(p) ==> a[p].0.len() == CHUNK_VOLUME,
    ensures
        read_abs(write_abs(a, w, b), q) == if q == w && a.contains_key(chunk_of(w)) { b.material } else { read_abs(a, q) },
        forall|p: IVec3| #[trigger] write_abs(a, w, b).contains_key(p) ==> write_abs(a, w, b)[p].0.len() == CHUNK_VOLUME,
        write_abs(a, w, b).dom() == a.dom(),
{
    lemma_local_split(w, q);
    lemma_local_split(q, w);
    if a.contains_key(chunk_of(w)) {
        assert(write_abs(a, w, b).dom() =~= a.dom());
    }
}

/// Reading a position after writing `b` at each of `ws` gives `b`'s
/// material when the position is among them and its chunk is loaded, and
/// what was there before otherwise.
pub proof fn lemma_read_after_write_all(a: Map<IVec3, (Seq<Block>, bool)>, ws: Seq<IVec3>, b: Block, q: IVec3)
    requires
        forall|p: IVec3| #[trigger] a.contains_key(p) ==> a[p].0.len() == CHUNK_VOLUME,
    ensures
        read_abs(write_all(a, ws, b), q) == if ws.contains(q) && a.contains_key(chunk_of(q)) { b.material } else { read_abs(a, q) },
        forall|p: IVec3| #[trigger] write_all(a, ws, b).contains_key(p) ==> write_all(a, ws, b)[p].0.len() == CHUNK_VOLUME,
        write_all(a, ws, b).dom() == a.dom(),
    decreases ws.len(),
{
    if ws.len() > 0 {
        let prev = write_all(a, ws.drop_last(), b);
        lemma_read_after_write_all(a, ws.drop_last(), b, q);
        lemma_read_after_write(prev, ws.last(), b, q);
        if q == ws.last() {
            assert(ws.contains(q)) by { assert(ws[ws.len() - 1] == q); }
        } else {
            assert(ws.contains(q) == ws.drop_last().contains(q)) by {
                if ws.contains(q) {
                    let i = choose|i: int| 0 <= i < ws.len() && ws[i] == q;
                    assert(ws.drop_last()[i] == q);
                }
                if ws.drop_last().contains(q) {
                    let i = choose|i: int| 0 <= i < ws.drop_last().len() && ws.drop_last()[i] == q;
                    assert(ws[i] == q);
                }
            }
        }
    }
}

/// The map's reading agrees with the reading of its voxels.
pub proof fn lemma_read_abs(m: Map<IVec3, Chunk>, w: IVec3)
    ensures
        read_abs(cells_map(m), w) == map_material(m, w),
{
}

proof fn lemma_map_written_insert(m: Map<IVec3, Chunk>, c: Chunk, w: IVec3, b: Block)
    requires
        m.contains_key(chunk_of(w)),
        chunk_written(m[chunk_of(w)], c, local_of(w), b),
    ensures
        map_written(m, m.insert(chunk_of(w), c), w, b),
{
    assert(m.insert(chunk_of(w), c).dom() =~= m.dom());
}

impl ChunkMap {
    /// The stored keys match the stored chunks' positions, and each chunk is
    /// well formed.
    pub closed spec fn wf(&self) -> bool {
        inner_wf(self.chunks@)
    }

    proof fn lemma_view(&self)
        requires
            self.wf(),
        ensures
            chunks_valid(self@),
            forall|p: IVec3| #[trigger]
                self@.contains_key(p) == self.chunks@.contains_key(pos_key(p) as i128),
            forall|p: IVec3| self@.contains_key(p) ==> #[trigger] self@[p] == self.chunks@[pos_key(p) as i128],
    {
        assert forall|p: IVec3| #[trigger] self@.contains_key(p) implies self@[p].position == p
            && self@[p].wf() by {
            let k = pos_key(p) as i128;
            lemma_pos_key_injective(self.chunks@[k].position, p);
        }
    }

    /// A well-formed map's view holds well-formed chunks under their own
    /// positions.
    pub proof fn lemma_valid(&self)
        requires
            self.wf(),
        ensures
            chunks_valid(self@),
    {
        self.lemma_view();
    }

    pub fn new() -> (r: ChunkMap)
        ensures
            r.wf(),
            r@ == Map::<IVec3, Chunk>::empty(),
    {
        let r = ChunkMap { chunks: HashMap::new() };
        assert(r@ =~= Map::<IVec3, Chunk>::empty());
        r
    }

    pub fn default() -> (r: ChunkMap)
        ensures
            r.wf(),
            r@ == Map::<IVec3, Chunk>::empty(),
    {
        ChunkMap::new()
    }

    pub fn get_chunk(&self, pos: IVec3) -> (r: Option<&Chunk>)
        requires
            self.wf(),
        ensures
            chunks_valid(self@),
            match r {
                Some(c) => self@.contains_key(pos) && *c == self@[pos],
                None => !self@.contains_key(pos),
            },
    {
        broadcast use vstd::std_specs::hash::group_hash_axioms;
        proof { self.lemma_view(); }
        let k = key_of(pos);
        self.chunks.get(&k)
    }

    /// A mutable reference to the chunk at `pos`. The map keeps its shape as
    /// long as the caller leaves the chunk's position and size as they were.
    pub fn get_chunk_mut(&mut self, pos: IVec3) -> (r: Option<&mut Chunk>)
        requires
            old(self).wf(),
        ensures
            chunks_valid(old(self)@),
            match r {
                Some(c) => {
                    &&& old(self)@.contains_key(pos)
                    &&& *c == old(self)@[pos]
                    &&& final(self)@ == old(self)@.insert(pos, *final(c))
                    &&& (final(c).position == pos && final(c).wf()) ==> final(self).wf()
                },
                None => {
                    &&& !old(self)@.contains_key(pos)
                    &&& final(self)@ == old(self)@
                    &&& final(self).wf()
                },
            },
    {
        proof { self.lemma_view(); }
        let k = key_of(pos);
        proof { lemma_key_view_insert(self.chunks@, pos); }
        let r = hash_map_get_mut(&mut self.chunks, k);
        r
    }

    /// Stores the chunk under its own position, replacing any chunk there.
    pub fn insert_chunk(&mut self, chunk: Chunk)
        requires
            old(self).wf(),
            chunk.wf(),
        ensures
            final(self).wf(),
            final(self)@ == old(self)@.insert(chunk.position, chunk),
    {
        broadcast use vstd::std_specs::hash::group_hash_axioms;
        let ghost pos = chunk.position;
        let k = key_of(chunk.position);
        proof { lemma_key_view_insert(self.chunks@, pos); }
        self.chunks.insert(k, chunk);
    }

    pub fn remove_chunk(&mut self, pos: IVec3) -> (r: Option<Chunk>)
        requires
            old(self).wf(),
        ensures
            final(self).wf(),
            final(self)@ == old(self)@.remove(pos),
            match r {
                Some(c) => old(self)@.contains_key(pos) && c == old(self)@[pos],
                None => !old(self)@.contains_key(pos),
            },
    {
        broadcast use vstd::std_specs::hash::group_hash_axioms;
        proof { self.lemma_view(); }
        let k = key_of(pos);
        proof { lemma_key_view_remove(self.chunks@, pos); }
        let r = self.chunks.remove(&k);
        r
    }

    /// The material at a world position; Air where no chunk is loaded.
    pub fn get_block(&self, world_pos: IVec3) -> (r: Material)
        requires
            self.wf(),
        ensures
            r == map_material(self@, world_pos),
    {
        let (chunk_pos, local_pos) = Chunk::world_to_local(world_pos);
        proof {
            lemma_world_to_local_roundtrip(world_pos.x as int);
            lemma_world_to_local_roundtrip(world_pos.y as int);
            lemma_world_to_local_roundtrip(world_pos.z as int);
        }
        match self.get_chunk(chunk_pos) {
            Some(chunk) => chunk.get_material(
                local_pos.x as usize,
                local_pos.y as usize,
                local_pos.z as usize,
            ),
            None => Material::Air,
        }
    }

    /// Writes the block at a world position when its chunk is loaded.
    pub fn set_block(&mut self, world_pos: IVec3, block: Block)
        requires
            old(self).wf(),
        ensures
            final(self).wf(),
            map_written(old(self)@, final(self)@, world_pos, block),
    {
        let (chunk_pos, local_pos) = Chunk::world_to_local(world_pos);
        proof {
            lemma_world_to_local_roundtrip(world_pos.x as int);
            lemma_world_to_local_roundtrip(world_pos.y as int);
            lemma_world_to_local_roundtrip(world_pos.z as int);
        }
        if let Some(chunk) = self.get_chunk_mut(chunk_pos) {
            chunk.set_block(
                local_pos.x as usize,
                local_pos.y as usize,
                local_pos.z as usize,
                block,
            );
            proof { lemma_map_written_insert(old(self)@, *chunk, world_pos, block); }
        }
    }

    proof fn lemma_len(&self)
        requires
            self.wf(),
        ensures
            self@.dom().finite(),
            self.chunks@.dom().len() == self@.dom().len(),
    {
        broadcast use vstd::std_specs::hash::group_hash_axioms;
        self.lemma_view();
        let m = self.chunks@;
        let f = |k: i128| m[k].position;
        assert(vstd::relations::injective_on(f, m.dom())) by {
            assert forall|a: i128, b: i128| m.dom().contains(a) && m.dom().contains(b) && #[trigger] f(a) == #[trigger] f(b) implies a == b by {}
        }
        assert(m.dom().map(f) =~= self@.dom()) by {
            assert forall|p: IVec3| self@.dom().contains(p) implies #[trigger] m.dom().map(f).contains(p) by {
                assert(f(pos_key(p) as i128) == p);
            }
        }
        vstd::set_lib::lemma_map_size(m.dom(), self@.dom(), f);
    }

    /// Number of loaded chunks.
    pub fn len(&self) -> (r: usize)
        requires
            self.wf(),
        ensures
            self@.dom().finite(),
            r == self@.dom().len(),
    {
        broadcast use vstd::std_specs::hash::group_hash_axioms;
        proof { self.lemma_len(); }
        self.chunks.len()
    }

    /// The loaded chunks, each once, in no particular order.
    pub fn chunks(&self) -> (r: Vec<&Chunk>)
        requires
            self.wf(),
        ensures
            r@.len() == self@.dom().len(),
            r@.unref().to_set() == self@.values(),
            r@.unref().no_duplicates(),
    {
        broadcast use vstd::std_specs::hash::group_hash_axioms;
        let mut r: Vec<&Chunk> = Vec::new();
        let ghost m = self.chunks@;
        proof { self.lemma_view(); }
        for c in it: self.chunks.values()
            invariant
                m == self.chunks@,
                r@.len() == it.index(),
                it.seq().len() == m.dom().len(),
                forall|i: int| 0 <= i < it.index() ==> r@[i] == it.seq()[i],
                forall|c: Chunk| #[trigger] r@.unref().contains(c) ==> m.values().contains(c),
                forall|c: Chunk| #[trigger] m.values().contains(c) ==> r@.unref().contains(c)
                    || exists|i: int| it.index() <= i < it.seq().len() && *it.seq()[i] == c,
        {
            proof {
                assert(it.seq().unref().to_set() == m.values());
                assert(m.values().contains(*c)) by {
                    assert(it.seq().unref()[it.index()] == *c);
                    assert(it.seq().unref().contains(*c));
                }
            }
            let ghost r0 = r@;
            r.push(c);
            proof {
                assert(r@.unref() =~= r0.unref().push(*c));
                assert forall|d: Chunk| #[trigger] r@.unref().contains(d) implies m.values().contains(d) by {
                    let i = choose|i: int| 0 <= i < r@.unref().len() && r@.unref()[i] == d;
                    if i < r0.len() {
                        assert(r0.unref()[i] == d);
                        assert(r0.unref().contains(d));
                    } else {
                        assert(d == *c);
                    }
                }
                assert forall|d: Chunk| #[trigger] r0.unref().contains(d) implies r@.unref().contains(d) by {
                    let i = choose|i: int| 0 <= i < r0.unref().len() && r0.unref()[i] == d;
                    assert(r@.unref()[i] == d);
                }
                assert(r@.unref()[r0.len() as int] == *c);
            }
        }
        proof {
            assert(r@.unref().to_set() =~= m.values());
            let mm = self.chunks@;
            assert(self@.values() =~= mm.values()) by {
                assert forall|c: Chunk| #[trigger] mm.values().contains(c) implies self@.values().contains(c) by {
                    let k = choose|k: i128| mm.contains_key(k) && mm[k] == c;
                    let p = mm[k].position;
                    assert(self@.contains_key(p) && self@[p] == c);
                }
                assert forall|c: Chunk| #[trigger] self@.values().contains(c) implies mm.values().contains(c) by {
                    let p = choose|p: IVec3| self@.contains_key(p) && self@[p] == c;
                    assert(mm.contains_key(pos_key(p) as i128));
                }
            }
            self.lemma_len();
            let v = self@;
            let f = |p: IVec3| v[p];
            assert(vstd::relations::injective_on(f, v.dom())) by {
                assert forall|a: IVec3, b: IVec3| v.dom().contains(a) && v.dom().contains(b) && #[trigger] f(a) == #[trigger] f(b) implies a == b by {
                    assert(v[a].position == a && v[b].position == b);
                }
            }
            assert(v.dom().map(f) =~= v.values()) by {
                assert forall|c: Chunk| #[trigger] v.values().contains(c) implies v.dom().map(f).contains(c) by {
                    let p = choose|p: IVec3| v.contains_key(p) && v[p] == c;
                    assert(f(p) == c);
                }
            }
            vstd::set_lib::lemma_map_size(v.dom(), v.values(), f);
            r@.unref().lemma_no_dup_set_cardinality();
        }
        r
    }

    pub fn is_empty(&self) -> (r: bool)
        requires
            self.wf(),
        ensures
            r == (self@.dom().len() == 0),
    {
        self.len() == 0
    }
}

} // verus!
