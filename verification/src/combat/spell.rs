use vstd::prelude::*;

use crate::combat::boss::add_spec;
use crate::physics::explosion::{create_explosion, explosion, ExplosionResult};
use crate::physics::material::{material_props, MaterialProperties};
use crate::world::chunk::{
    cells_map, chunk_of, lemma_map_written_abs, lemma_read_after_write, lemma_read_after_write_all, read_abs,
    write_abs, write_all, Block, ChunkMap, IVec3, Material, CHUNK_VOLUME,
};

verus! {

/// The spells a player can cast.
#[derive(Clone, Copy, Debug, PartialEq, Eq, Hash, Structural)]
pub enum SpellType {
    /// Projectile: ignites blocks, damages monsters.
    Fireball,
    /// Ray: destroys blocks along a line.
    Dig,
    /// Instant: an explosion at the target.
    Explosion,
    /// Area: water turns to ice, monsters slow down.
    Freeze,
    /// Line: damages everything along its path.
    Lightning,
    /// Self: restores health.
    Heal,
    /// Self: moves the player to the target.
    Teleport,
    /// Self: brief invincibility.
    Shield,
}

/// Sets a fire at the target when its block is flammable (Air never is);
/// returns whether it did.
pub fn ignite(chunk_map: &mut ChunkMap, target_pos: IVec3) -> (r: bool)
    requires
        old(chunk_map).wf(),
    ensures
        final(chunk_map).wf(),
        final(chunk_map)@.dom() == old(chunk_map)@.dom(),
        r == (material_props(read_abs(cells_map(old(chunk_map)@), target_pos)).flammable
            && read_abs(cells_map(old(chunk_map)@), target_pos) != Material::Air),
        cells_map(final(chunk_map)@) == if r {
            write_abs(cells_map(old(chunk_map)@), target_pos, Block::new_spec(Material::Fire))
        } else {
            cells_map(old(chunk_map)@)
        },
{
    let current = chunk_map.get_block(target_pos);
    let props = MaterialProperties::get(current);
    if props.flammable && current != Material::Air {
        let ghost before = chunk_map@;
        chunk_map.set_block(target_pos, Block::new(Material::Fire));
        proof {
            lemma_map_written_abs(before, chunk_map@, target_pos, Block::new_spec(Material::Fire));
            assert(chunk_map@.dom() =~= before.dom());
        }
        true
    } else {
        false
    }
}

/// The cells a dig clears: the target and the nine cells after it towards
/// −x, in that order.
pub open spec fn dig_positions(t: IVec3) -> Seq<IVec3> {
    Seq::new(10, |i: int| add_spec(t, -i, 0, 0))
}

proof fn lemma_write_all_push(a: Map<IVec3, (Seq<Block>, bool)>, ws: Seq<IVec3>, p: IVec3, b: Block)
    ensures
        write_all(a, ws.push(p), b) == write_abs(write_all(a, ws, b), p, b),
{
    assert(ws.push(p).drop_last() =~= ws);
}

/// Clears the target and the nine cells after it towards −x; returns the
/// last cell cleared.
pub fn dig(chunk_map: &mut ChunkMap, target_pos: IVec3) -> (r: IVec3)
    requires
        old(chunk_map).wf(),
        target_pos.x >= i32::MIN + 9,
    ensures
        final(chunk_map).wf(),
        final(chunk_map)@.dom() == old(chunk_map)@.dom(),
        cells_map(final(chunk_map)@) == write_all(cells_map(old(chunk_map)@), dig_positions(target_pos), Block::air_spec()),
        r == add_spec(target_pos, -9, 0, 0),
{
    let ghost a0 = cells_map(chunk_map@);
    let ghost dom0 = chunk_map@.dom();
    let mut destroyed_pos = target_pos;
    let mut i: i32 = 0;
    while i < 10
        invariant
            0 <= i <= 10,
            chunk_map.wf(),
            target_pos.x >= i32::MIN + 9,
            chunk_map@.dom() == dom0,
            cells_map(chunk_map@) == write_all(a0, dig_positions(target_pos).take(i as int), Block::air_spec()),
            i > 0 ==> destroyed_pos == add_spec(target_pos, -(i - 1), 0, 0),
        decreases 10 - i,
    {
        let pos = IVec3 { x: target_pos.x - i, y: target_pos.y, z: target_pos.z };
        let ghost before = chunk_map@;
        chunk_map.set_block(pos, Block::air());
        proof {
            lemma_map_written_abs(before, chunk_map@, pos, Block::air_spec());
            assert(dig_positions(target_pos).take(i + 1) =~= dig_positions(target_pos).take(i as int).push(pos));
            lemma_write_all_push(a0, dig_positions(target_pos).take(i as int), pos, Block::air_spec());
            if before.contains_key(crate::world::chunk::chunk_of(pos)) {
                assert(chunk_map@.dom() =~= before.dom());
            }
        }
        destroyed_pos = pos;
        i = i + 1;
    }
    proof { assert(dig_positions(target_pos).take(10) =~= dig_positions(target_pos)); }
    destroyed_pos
}

/// The k-th cell of the 9×9×9 freeze cube, x slowest.
pub open spec fn freeze_offset(t: IVec3, k: int) -> IVec3 {
    add_spec(t, k / 81 - 4, (k / 9) % 9 - 4, k % 9 - 4)
}

/// The map after visiting the first `n` cells of the freeze cube, turning
/// Water to Ice.
pub open spec fn freeze_fold(a: Map<IVec3, (Seq<Block>, bool)>, t: IVec3, n: int) -> Map<IVec3, (Seq<Block>, bool)>
    decreases n,
{
    if n <= 0 {
        a
    } else {
        let prev = freeze_fold(a, t, n - 1);
        let p = freeze_offset(t, n - 1);
        if read_abs(prev, p) == Material::Water {
            write_abs(prev, p, Block::new_spec(Material::Ice))
        } else {
            prev
        }
    }
}

/// Turns the Water in the 9×9×9 cube around the target into Ice.
pub fn freeze(chunk_map: &mut ChunkMap, target_pos: IVec3)
    requires
        old(chunk_map).wf(),
        i32::MIN + 4 <= target_pos.x <= i32::MAX - 4,
        i32::MIN + 4 <= target_pos.y <= i32::MAX - 4,
        i32::MIN + 4 <= target_pos.z <= i32::MAX - 4,
    ensures
        final(chunk_map).wf(),
        final(chunk_map)@.dom() == old(chunk_map)@.dom(),
        cells_map(final(chunk_map)@) == freeze_fold(cells_map(old(chunk_map)@), target_pos, 729),
{
    let ghost a0 = cells_map(chunk_map@);
    let ghost dom0 = chunk_map@.dom();
    let mut k: usize = 0;
    while k < 729
        invariant
            k <= 729,
            chunk_map.wf(),
            i32::MIN + 4 <= target_pos.x <= i32::MAX - 4,
            i32::MIN + 4 <= target_pos.y <= i32::MAX - 4,
            i32::MIN + 4 <= target_pos.z <= i32::MAX - 4,
            chunk_map@.dom() == dom0,
            cells_map(chunk_map@) == freeze_fold(a0, target_pos, k as int),
        decreases 729 - k,
    {
        assert(k / 81 <= 8);
        let pos = IVec3 {
            x: (target_pos.x - 4) + (k / 81) as i32,
            y: (target_pos.y - 4) + ((k / 9) % 9) as i32,
            z: (target_pos.z - 4) + (k % 9) as i32,
        };
        let current = chunk_map.get_block(pos);
        if current == Material::Water {
            let ghost before = chunk_map@;
            chunk_map.set_block(pos, Block::new(Material::Ice));
            proof {
                lemma_map_written_abs(before, chunk_map@, pos, Block::new_spec(Material::Ice));
                if before.contains_key(crate::world::chunk::chunk_of(pos)) {
                    assert(chunk_map@.dom() =~= before.dom());
                }
            }
        }
        k = k + 1;
    }
}

/// Radius of the explosion spell.
pub const EXPLOSION_SPELL_RADIUS: u32 = 5;

/// Radius within which the explosion spell sets fire: 0.6 of its radius,
/// rounded down.
pub const EXPLOSION_SPELL_INNER_RADIUS: i32 = 3;

/// Bit pattern of the single-precision value 30.0, the health a heal
/// restores.
pub const HEAL_AMOUNT_BITS: u32 = 0x41F0_0000;

/// What casting a spell did.
#[derive(Debug, Clone, PartialEq)]
pub enum SpellEffectResult {
    NoEffect,
    FireIgnited(IVec3),
    Explosion(ExplosionResult),
    DigDestroyed(IVec3),
    FreezeApplied(IVec3),
    /// The health restored, as a single-precision bit pattern.
    Healed(u32),
    Teleported(IVec3),
    ShieldApplied,
}

/// The target lies far enough from the edges of `i32` for the spell.
pub open spec fn spell_fits(spell_type: SpellType, t: IVec3) -> bool {
    match spell_type {
        SpellType::Dig => t.x >= i32::MIN + 9,
        SpellType::Explosion => {
            &&& i32::MIN + 5 <= t.x <= i32::MAX - 5
            &&& i32::MIN + 5 <= t.y <= i32::MAX - 5
            &&& i32::MIN + 5 <= t.z <= i32::MAX - 5
        },
        SpellType::Freeze => {
            &&& i32::MIN + 4 <= t.x <= i32::MAX - 4
            &&& i32::MIN + 4 <= t.y <= i32::MAX - 4
            &&& i32::MIN + 4 <= t.z <= i32::MAX - 4
        },
        _ => true,
    }
}

/// Applies a spell at a target. A fireball sets a flammable target on
/// fire; an explosion of radius 5 goes off at the target; a dig clears the
/// target and nine cells towards −x; a freeze turns the water around the
/// target to ice; lightning does nothing to the world; the self spells
/// report their effect.
pub fn apply_spell_effect(spell_type: SpellType, target_pos: IVec3, chunk_map: &mut ChunkMap) -> (r: SpellEffectResult)
    requires
        old(chunk_map).wf(),
        spell_fits(spell_type, target_pos),
    ensures
        final(chunk_map).wf(),
        final(chunk_map)@.dom() == old(chunk_map)@.dom(),
        ({
            let a = cells_map(old(chunk_map)@);
            let a2 = cells_map(final(chunk_map)@);
            match spell_type {
                SpellType::Fireball => {
                    let m = read_abs(a, target_pos);
                    if material_props(m).flammable && m != Material::Air {
                        r == SpellEffectResult::FireIgnited(target_pos)
                            && a2 == write_abs(a, target_pos, Block::new_spec(Material::Fire))
                    } else {
                        r == SpellEffectResult::NoEffect && a2 == a
                    }
                },
                SpellType::Explosion => match r {
                    SpellEffectResult::Explosion(e) => (a2, e.affected_chunks@) == explosion(
                        a,
                        target_pos,
                        EXPLOSION_SPELL_RADIUS as int,
                        EXPLOSION_SPELL_INNER_RADIUS as int,
                        0,
                    ),
                    _ => false,
                },
                SpellType::Dig => r == SpellEffectResult::DigDestroyed(add_spec(target_pos, -9, 0, 0))
                    && a2 == write_all(a, dig_positions(target_pos), Block::air_spec()),
                SpellType::Freeze => r == SpellEffectResult::FreezeApplied(target_pos)
                    && a2 == freeze_fold(a, target_pos, 729),
                SpellType::Lightning => r == SpellEffectResult::NoEffect && a2 == a,
                SpellType::Heal => r == SpellEffectResult::Healed(HEAL_AMOUNT_BITS) && a2 == a,
                SpellType::Teleport => r == SpellEffectResult::Teleported(target_pos) && a2 == a,
                SpellType::Shield => r == SpellEffectResult::ShieldApplied && a2 == a,
            }
        }),
{
    match spell_type {
        SpellType::Fireball => {
            if ignite(chunk_map, target_pos) {
                SpellEffectResult::FireIgnited(target_pos)
            } else {
                SpellEffectResult::NoEffect
            }
        },
        SpellType::Explosion => {
            let res = create_explosion(chunk_map, target_pos, EXPLOSION_SPELL_RADIUS, EXPLOSION_SPELL_INNER_RADIUS, 0);
            SpellEffectResult::Explosion(res)
        },
        SpellType::Dig => SpellEffectResult::DigDestroyed(dig(chunk_map, target_pos)),
        SpellType::Freeze => {
            freeze(chunk_map, target_pos);
            SpellEffectResult::FreezeApplied(target_pos)
        },
        SpellType::Lightning => SpellEffectResult::NoEffect,
        SpellType::Heal => SpellEffectResult::Healed(HEAL_AMOUNT_BITS),
        SpellType::Teleport => SpellEffectResult::Teleported(target_pos),
        SpellType::Shield => SpellEffectResult::ShieldApplied,
    }
}

/// The dig clears a straight line of ten cells from the target towards
/// −x: a position is among them exactly when it shares the target's y and
/// z and lies at most nine below it in x; after the dig such a position
/// holds Air where its chunk is loaded, and every other position keeps its
/// material.
pub proof fn lemma_dig_line(a: Map<IVec3, (Seq<Block>, bool)>, t: IVec3, q: IVec3)
    requires
        t.x >= i32::MIN + 9,
        forall|p: IVec3| #[trigger] a.contains_key(p) ==> a[p].0.len() == CHUNK_VOLUME,
    ensures
        ({
            let on_line = q.y == t.y && q.z == t.z && t.x - 9 <= q.x <= t.x;
            &&& dig_positions(t).contains(q) <==> on_line
            &&& read_abs(write_all(a, dig_positions(t), Block::air_spec()), q)
                == if on_line && a.contains_key(chunk_of(q)) { Material::Air } else { read_abs(a, q) }
        }),
{
    let ps = dig_positions(t);
    if q.y == t.y && q.z == t.z && t.x - 9 <= q.x <= t.x {
        assert(ps[t.x - q.x] == q);
    }
    lemma_read_after_write_all(a, ps, Block::air_spec(), q);
}

proof fn lemma_freeze_fold_at(a: Map<IVec3, (Seq<Block>, bool)>, t: IVec3, n: int, q: IVec3)
    requires
        forall|p: IVec3| #[trigger] a.contains_key(p) ==> a[p].0.len() == CHUNK_VOLUME,
    ensures
        forall|p: IVec3| #[trigger] freeze_fold(a, t, n).contains_key(p) ==> freeze_fold(a, t, n)[p].0.len() == CHUNK_VOLUME,
        read_abs(freeze_fold(a, t, n), q) == if read_abs(a, q) == Material::Water
            && exists|k: int| 0 <= k < n && #[trigger] freeze_offset(t, k) == q {
            Material::Ice
        } else {
            read_abs(a, q)
        },
    decreases n,
{
    if n > 0 {
        let prev = freeze_fold(a, t, n - 1);
        let p = freeze_offset(t, n - 1);
        lemma_freeze_fold_at(a, t, n - 1, q);
        lemma_freeze_fold_at(a, t, n - 1, p);
        lemma_read_after_write(prev, p, Block::new_spec(Material::Ice), q);
        if q == p {
            assert(freeze_offset(t, n - 1) == q);
        } else if exists|k: int| 0 <= k < n && #[trigger] freeze_offset(t, k) == q {
            let k = choose|k: int| 0 <= k < n && #[trigger] freeze_offset(t, k) == q;
            assert(k < n - 1);
        }
    }
}

/// The freeze turns Water to Ice in the 9×9×9 cube centred on the target
/// and nowhere else: a position at most 4 from the target on every axis
/// that held Water holds Ice afterwards, and every other position keeps its
/// material.
pub proof fn lemma_freeze_cube(a: Map<IVec3, (Seq<Block>, bool)>, t: IVec3, q: IVec3)
    requires
        i32::MIN + 4 <= t.x <= i32::MAX - 4,
        i32::MIN + 4 <= t.y <= i32::MAX - 4,
        i32::MIN + 4 <= t.z <= i32::MAX - 4,
        forall|p: IVec3| #[trigger] a.contains_key(p) ==> a[p].0.len() == CHUNK_VOLUME,
    ensures
        ({
            let near = t.x - 4 <= q.x <= t.x + 4 && t.y - 4 <= q.y <= t.y + 4 && t.z - 4 <= q.z <= t.z + 4;
            read_abs(freeze_fold(a, t, 729), q) == if near && read_abs(a, q) == Material::Water {
                Material::Ice
            } else {
                read_abs(a, q)
            }
        }),
{
    lemma_freeze_fold_at(a, t, 729, q);
    let (i, j, l) = (q.x - t.x + 4, q.y - t.y + 4, q.z - t.z + 4);
    if 0 <= i < 9 && 0 <= j < 9 && 0 <= l < 9 {
        let k = i * 81 + j * 9 + l;
        vstd::arithmetic::div_mod::lemma_fundamental_div_mod_converse(k, 81, i, j * 9 + l);
        vstd::arithmetic::div_mod::lemma_fundamental_div_mod_converse(k, 9, i * 9 + j, l);
        vstd::arithmetic::div_mod::lemma_fundamental_div_mod_converse(i * 9 + j, 9, i, j);
        assert(freeze_offset(t, k) == q);
    }
    if exists|k: int| 0 <= k < 729 && #[trigger] freeze_offset(t, k) == q {
        let k = choose|k: int| 0 <= k < 729 && #[trigger] freeze_offset(t, k) == q;
        vstd::arithmetic::div_mod::lemma_fundamental_div_mod(k, 9);
        vstd::arithmetic::div_mod::lemma_fundamental_div_mod(k / 9, 9);
        vstd::arithmetic::div_mod::lemma_div_denominator(k, 9, 9);
        assert(0 <= k / 81 < 9);
    }
}

} // verus!
