use vstd::prelude::*;

use crate::world::chunk::{
    cells_map, chunk_of, chunks_valid, lemma_map_written_abs, lemma_read_after_write_all, read_abs, write_abs,
    write_all, Block, ChunkMap, IVec3, Material, CHUNK_VOLUME,
};

verus! {

/// The boss's attacks, which it uses in a fixed cycle.
#[derive(Clone, Copy, Debug, PartialEq, Eq, Hash, Structural)]
pub enum BossAttackPattern {
    MeleeSlam,
    LavaBomb,
    SummonGolems,
    GroundShake,
}

pub open spec fn next_spec(p: BossAttackPattern) -> BossAttackPattern {
    match p {
        BossAttackPattern::MeleeSlam => BossAttackPattern::LavaBomb,
        BossAttackPattern::LavaBomb => BossAttackPattern::SummonGolems,
        BossAttackPattern::SummonGolems => BossAttackPattern::GroundShake,
        BossAttackPattern::GroundShake => BossAttackPattern::MeleeSlam,
    }
}

impl BossAttackPattern {
    /// The attack that follows this one in the cycle.
    pub fn next(self) -> (r: BossAttackPattern)
        ensures
            r == next_spec(self),
    {
        match self {
            BossAttackPattern::MeleeSlam => BossAttackPattern::LavaBomb,
            BossAttackPattern::LavaBomb => BossAttackPattern::SummonGolems,
            BossAttackPattern::SummonGolems => BossAttackPattern::GroundShake,
            BossAttackPattern::GroundShake => BossAttackPattern::MeleeSlam,
        }
    }
}

/// The cycle has length four: four steps return to the same attack, and no
/// fewer do.
pub proof fn lemma_attack_cycle(p: BossAttackPattern)
    ensures
        next_spec(next_spec(next_spec(next_spec(p)))) == p,
        next_spec(p) != p,
        next_spec(next_spec(p)) != p,
        next_spec(next_spec(next_spec(p))) != p,
{
}

pub const MELEE_SLAM_RADIUS: i32 = 3;
pub const GROUND_SHAKE_INNER_RADIUS: i32 = 4;
pub const GROUND_SHAKE_OUTER_RADIUS: i32 = 8;

pub open spec fn add_spec(b: IVec3, dx: int, dy: int, dz: int) -> IVec3 {
    IVec3 { x: (b.x + dx) as i32, y: (b.y + dy) as i32, z: (b.z + dz) as i32 }
}

/// Whether `b` moved by up to `r` on each axis stays within `i32`.
pub open spec fn fits(b: IVec3, rx: int, ry: int, rz: int) -> bool {
    &&& i32::MIN <= b.x - rx && b.x + rx <= i32::MAX
    &&& i32::MIN <= b.y - ry && b.y + ry <= i32::MAX
    &&& i32::MIN <= b.z - rz && b.z + rz <= i32::MAX
}

/// The cells of the slam: the k-th offset of the 7×7×7 cube, x slowest.
pub open spec fn slam_offset(k: int) -> (int, int, int) {
    (k / 49 - 3, (k / 7) % 7 - 3, k % 7 - 3)
}

/// The positions the slam clears among the first `n` cube offsets: those
/// within distance 3 of the boss.
pub open spec fn slam_positions(b: IVec3, n: int) -> Seq<IVec3>
    decreases n,
{
    if n <= 0 {
        Seq::empty()
    } else {
        let prev = slam_positions(b, n - 1);
        let (x, y, z) = slam_offset(n - 1);
        if x * x + y * y + z * z <= 9 {
            prev.push(add_spec(b, x, y, z))
        } else {
            prev
        }
    }
}

/// The positions the ground shake clears among the first `n` columns of the
/// 17×17 square (x slowest): for columns at squared distance 16 to 64 from
/// the boss, the cells one below, level with and one above it.
pub open spec fn shake_positions(b: IVec3, n: int) -> Seq<IVec3>
    decreases n,
{
    if n <= 0 {
        Seq::empty()
    } else {
        let prev = shake_positions(b, n - 1);
        let x = (n - 1) / 17 - 8;
        let z = (n - 1) % 17 - 8;
        if 16 <= x * x + z * z <= 64 {
            prev.push(add_spec(b, x, -1, z)).push(add_spec(b, x, 0, z)).push(add_spec(b, x, 1, z))
        } else {
            prev
        }
    }
}

/// The positions an attack affects, in the order it lists them.
pub open spec fn attack_positions(pattern: BossAttackPattern, b: IVec3) -> Seq<IVec3> {
    match pattern {
        BossAttackPattern::MeleeSlam => slam_positions(b, 343),
        BossAttackPattern::LavaBomb => seq![add_spec(b, 0, -1, 0)],
        BossAttackPattern::SummonGolems => seq![add_spec(b, 2, 0, 0), add_spec(b, -2, 0, 0), add_spec(b, 0, 0, 2)],
        BossAttackPattern::GroundShake => shake_positions(b, 289),
    }
}

/// Whether computing the attack's positions stays within `i32`.
pub open spec fn attack_fits(pattern: BossAttackPattern, b: IVec3) -> bool {
    match pattern {
        BossAttackPattern::MeleeSlam => fits(b, 3, 3, 3),
        BossAttackPattern::LavaBomb => fits(b, 0, 1, 0),
        BossAttackPattern::SummonGolems => fits(b, 2, 0, 2),
        BossAttackPattern::GroundShake => fits(b, 8, 1, 8),
    }
}

fn offset(b: IVec3, dx: i32, dy: i32, dz: i32) -> (r: IVec3)
    requires
        i32::MIN <= b.x + dx <= i32::MAX,
        i32::MIN <= b.y + dy <= i32::MAX,
        i32::MIN <= b.z + dz <= i32::MAX,
    ensures
        r == add_spec(b, dx as int, dy as int, dz as int),
{
    IVec3 { x: b.x + dx, y: b.y + dy, z: b.z + dz }
}

fn clear_block(chunk_map: &mut ChunkMap, pos: IVec3, affected: &mut Vec<IVec3>, block: Block)
    requires
        old(chunk_map).wf(),
    ensures
        final(chunk_map).wf(),
        chunks_valid(final(chunk_map)@),
        cells_map(final(chunk_map)@) == write_abs(cells_map(old(chunk_map)@), pos, block),
        final(affected)@ == old(affected)@.push(pos),
        final(chunk_map)@.dom() == old(chunk_map)@.dom(),
{
    let ghost before = chunk_map@;
    chunk_map.set_block(pos, block);
    proof {
        lemma_map_written_abs(before, chunk_map@, pos, block);
    }
    affected.push(pos);
    let _ = chunk_map.get_chunk(pos);
}

proof fn lemma_write_all_push(a: Map<IVec3, (Seq<Block>, bool)>, ws: Seq<IVec3>, p: IVec3, b: Block)
    ensures
        write_all(a, ws.push(p), b) == write_abs(write_all(a, ws, b), p, b),
{
    assert(ws.push(p).drop_last() =~= ws);
}

/// Carries out an attack at the boss's position. Slam and ground shake turn
/// their cells to Air, the lava bomb puts Lava below the boss, and summoning
/// changes nothing; each returns the positions it affects.
pub fn apply_boss_attack(pattern: BossAttackPattern, boss_pos: IVec3, chunk_map: &mut ChunkMap) -> (r: Vec<IVec3>)
    requires
        old(chunk_map).wf(),
        attack_fits(pattern, boss_pos),
    ensures
        final(chunk_map).wf(),
        r@ == attack_positions(pattern, boss_pos),
        final(chunk_map)@.dom() == old(chunk_map)@.dom(),
        cells_map(final(chunk_map)@) == match pattern {
            BossAttackPattern::MeleeSlam => write_all(cells_map(old(chunk_map)@), r@, Block::air_spec()),
            BossAttackPattern::LavaBomb => write_all(cells_map(old(chunk_map)@), r@, Block::new_spec(Material::Lava)),
            BossAttackPattern::SummonGolems => cells_map(old(chunk_map)@),
            BossAttackPattern::GroundShake => write_all(cells_map(old(chunk_map)@), r@, Block::air_spec()),
        },
{
    let ghost a0 = cells_map(chunk_map@);
    let ghost dom0 = chunk_map@.dom();
    match pattern {
        BossAttackPattern::MeleeSlam => {
            let mut affected: Vec<IVec3> = Vec::new();
            let mut k: usize = 0;
            while k < 343
                invariant
                    k <= 343,
                    chunk_map.wf(),
                    fits(boss_pos, 3, 3, 3),
                    affected@ == slam_positions(boss_pos, k as int),
                    cells_map(chunk_map@) == write_all(a0, affected@, Block::air_spec()),
                    chunk_map@.dom() == dom0,
                decreases 343 - k,
            {
                let x = (k / 49) as i32 - 3;
                let y = ((k / 7) % 7) as i32 - 3;
                let z = (k % 7) as i32 - 3;
                assert(-3 <= x <= 3 && -3 <= y <= 3 && -3 <= z <= 3);
                assert(0 <= x * x <= 9 && 0 <= y * y <= 9 && 0 <= z * z <= 9) by (nonlinear_arith)
                    requires -3 <= x <= 3 && -3 <= y <= 3 && -3 <= z <= 3;
                if x * x + y * y + z * z <= MELEE_SLAM_RADIUS * MELEE_SLAM_RADIUS {
                    let pos = offset(boss_pos, x, y, z);
                    proof { lemma_write_all_push(a0, affected@, pos, Block::air_spec()); }
                    clear_block(chunk_map, pos, &mut affected, Block::air());
                }
                k = k + 1;
            }
            affected
        },
        BossAttackPattern::LavaBomb => {
            let target = offset(boss_pos, 0, -1, 0);
            let mut affected: Vec<IVec3> = Vec::new();
            proof {
                lemma_write_all_push(a0, affected@, target, Block::new_spec(Material::Lava));
                assert(affected@ =~= Seq::<IVec3>::empty());
                assert(write_all(a0, Seq::<IVec3>::empty(), Block::new_spec(Material::Lava)) == a0);
            }
            clear_block(chunk_map, target, &mut affected, Block::new(Material::Lava));
            proof { assert(affected@ =~= seq![target]); }
            affected
        },
        BossAttackPattern::SummonGolems => {
            let mut spawns: Vec<IVec3> = Vec::new();
            spawns.push(offset(boss_pos, 2, 0, 0));
            spawns.push(offset(boss_pos, -2, 0, 0));
            spawns.push(offset(boss_pos, 0, 0, 2));
            proof { assert(spawns@ =~= attack_positions(pattern, boss_pos)); }
            spawns
        },
        BossAttackPattern::GroundShake => {
            let mut affected: Vec<IVec3> = Vec::new();
            let mut k: usize = 0;
            while k < 289
                invariant
                    k <= 289,
                    chunk_map.wf(),
                    fits(boss_pos, 8, 1, 8),
                    affected@ == shake_positions(boss_pos, k as int),
                    cells_map(chunk_map@) == write_all(a0, affected@, Block::air_spec()),
                    chunk_map@.dom() == dom0,
                decreases 289 - k,
            {
                let x = (k / 17) as i32 - 8;
                let z = (k % 17) as i32 - 8;
                assert(-8 <= x <= 8 && -8 <= z <= 8);
                assert(0 <= x * x <= 64 && 0 <= z * z <= 64) by (nonlinear_arith)
                    requires -8 <= x <= 8 && -8 <= z <= 8;
                let dist2 = x * x + z * z;
                let inner2 = GROUND_SHAKE_INNER_RADIUS * GROUND_SHAKE_INNER_RADIUS;
                let outer2 = GROUND_SHAKE_OUTER_RADIUS * GROUND_SHAKE_OUTER_RADIUS;
                if dist2 >= inner2 && dist2 <= outer2 {
                    let mut y: i32 = -1;
                    let ghost base = affected@;
                    while y <= 1
                        invariant
                            -1 <= y <= 2,
                            chunk_map.wf(),
                            fits(boss_pos, 8, 1, 8),
                            -8 <= x <= 8 && -8 <= z <= 8,
                            affected@ == base + Seq::new((y + 1) as nat, |i: int| add_spec(boss_pos, x as int, i - 1, z as int)),
                            cells_map(chunk_map@) == write_all(a0, affected@, Block::air_spec()),
                            chunk_map@.dom() == dom0,
                        decreases 2 - y,
                    {
                        let pos = offset(boss_pos, x, y, z);
                        proof { lemma_write_all_push(a0, affected@, pos, Block::air_spec()); }
                        clear_block(chunk_map, pos, &mut affected, Block::air());
                        proof {
                            assert(affected@ =~= base + Seq::new((y + 2) as nat, |i: int| add_spec(boss_pos, x as int, i - 1, z as int)));
                        }
                        y = y + 1;
                    }
                    proof {
                        assert(affected@ =~= base.push(add_spec(boss_pos, x as int, -1, z as int)).push(add_spec(boss_pos, x as int, 0, z as int)).push(add_spec(boss_pos, x as int, 1, z as int)));
                    }
                }
                k = k + 1;
            }
            affected
        },
    }
}

/// The k-th offset of the slam's cube lies within its sphere and takes the
/// boss to `q`.
pub open spec fn slam_hit(b: IVec3, k: int, q: IVec3) -> bool {
    let o = slam_offset(k);
    o.0 * o.0 + o.1 * o.1 + o.2 * o.2 <= 9 && add_spec(b, o.0, o.1, o.2) == q
}

proof fn lemma_slam_members(b: IVec3, n: int)
    requires
        0 <= n <= 343,
    ensures
        forall|q: IVec3| #[trigger] slam_positions(b, n).contains(q) <==> exists|k: int| 0 <= k < n && #[trigger] slam_hit(b, k, q),
    decreases n,
{
    if n > 0 {
        lemma_slam_members(b, n - 1);
        let prev = slam_positions(b, n - 1);
        let cur = slam_positions(b, n);
        let o = slam_offset(n - 1);
        assert forall|q: IVec3| #[trigger] cur.contains(q) <==> exists|k: int| 0 <= k < n && #[trigger] slam_hit(b, k, q) by {
            let hit = o.0 * o.0 + o.1 * o.1 + o.2 * o.2 <= 9;
            if hit {
                assert(cur == prev.push(add_spec(b, o.0, o.1, o.2)));
            } else {
                assert(cur == prev);
            }
            if cur.contains(q) {
                let i = choose|i: int| 0 <= i < cur.len() && cur[i] == q;
                if i < prev.len() {
                    assert(prev[i] == q);
                    assert(prev.contains(q));
                    let k = choose|k: int| 0 <= k < n - 1 && #[trigger] slam_hit(b, k, q);
                    assert(slam_hit(b, k, q));
                } else {
                    assert(slam_hit(b, n - 1, q));
                }
            }
            if exists|k: int| 0 <= k < n && #[trigger] slam_hit(b, k, q) {
                let k = choose|k: int| 0 <= k < n && #[trigger] slam_hit(b, k, q);
                if k < n - 1 {
                    assert(prev.contains(q));
                    let i = choose|i: int| 0 <= i < prev.len() && prev[i] == q;
                    assert(cur[i] == q);
                } else {
                    assert(cur[cur.len() - 1] == q);
                }
            }
        }
    }
}

/// The melee slam clears exactly the sphere of radius 3 around the boss:
/// a position is among those it reports exactly when its squared distance
/// from the boss is at most 9, and after the slam such a position holds Air
/// where its chunk is loaded while every other position keeps its material.
pub proof fn lemma_slam_sphere(a: Map<IVec3, (Seq<Block>, bool)>, b: IVec3, q: IVec3)
    requires
        fits(b, 3, 3, 3),
        forall|p: IVec3| #[trigger] a.contains_key(p) ==> a[p].0.len() == CHUNK_VOLUME,
    ensures
        ({
            let d = (q.x - b.x) * (q.x - b.x) + (q.y - b.y) * (q.y - b.y) + (q.z - b.z) * (q.z - b.z);
            let ps = attack_positions(BossAttackPattern::MeleeSlam, b);
            &&& ps.contains(q) <==> d <= 9
            &&& read_abs(write_all(a, ps, Block::air_spec()), q)
                == if d <= 9 && a.contains_key(chunk_of(q)) { Material::Air } else { read_abs(a, q) }
        }),
{
    lemma_slam_members(b, 343);
    let ps = slam_positions(b, 343);
    let (dx, dy, dz) = (q.x - b.x, q.y - b.y, q.z - b.z);
    let d = dx * dx + dy * dy + dz * dz;
    if d <= 9 {
        assert(-3 <= dx <= 3 && -3 <= dy <= 3 && -3 <= dz <= 3) by (nonlinear_arith)
            requires dx * dx + dy * dy + dz * dz <= 9;
        let k = (dx + 3) * 49 + (dy + 3) * 7 + (dz + 3);
        vstd::arithmetic::div_mod::lemma_fundamental_div_mod_converse(k, 49, dx + 3, (dy + 3) * 7 + (dz + 3));
        vstd::arithmetic::div_mod::lemma_fundamental_div_mod_converse(k, 7, (dx + 3) * 7 + dy + 3, dz + 3);
        vstd::arithmetic::div_mod::lemma_fundamental_div_mod_converse((dx + 3) * 7 + dy + 3, 7, dx + 3, dy + 3);
        assert(slam_offset(k) == (dx, dy, dz));
        assert(add_spec(b, dx, dy, dz) == q);
        assert(slam_hit(b, k, q));
        assert(ps.contains(q));
    }
    if ps.contains(q) {
        let k = choose|k: int| 0 <= k < 343 && #[trigger] slam_hit(b, k, q);
        let o = slam_offset(k);
        assert(-3 <= o.0 <= 3 && -3 <= o.1 <= 3 && -3 <= o.2 <= 3) by (nonlinear_arith)
            requires o.0 * o.0 + o.1 * o.1 + o.2 * o.2 <= 9;
        assert(dx == o.0 && dy == o.1 && dz == o.2);
        assert(d <= 9);
    }
    lemma_read_after_write_all(a, ps, Block::air_spec(), q);
}

/// The k-th column of the shake's square lies in its ring and `q` is one of
/// its three cells.
pub open spec fn shake_hit(b: IVec3, k: int, q: IVec3) -> bool {
    let x = k / 17 - 8;
    let z = k % 17 - 8;
    &&& 16 <= x * x + z * z <= 64
    &&& q == add_spec(b, x, -1, z) || q == add_spec(b, x, 0, z) || q == add_spec(b, x, 1, z)
}

proof fn lemma_shake_members(b: IVec3, n: int)
    requires
        0 <= n <= 289,
    ensures
        forall|q: IVec3| #[trigger] shake_positions(b, n).contains(q) <==> exists|k: int| 0 <= k < n && #[trigger] shake_hit(b, k, q),
    decreases n,
{
    if n > 0 {
        lemma_shake_members(b, n - 1);
        let prev = shake_positions(b, n - 1);
        let cur = shake_positions(b, n);
        let x = (n - 1) / 17 - 8;
        let z = (n - 1) % 17 - 8;
        let (p0, p1, p2) = (add_spec(b, x, -1, z), add_spec(b, x, 0, z), add_spec(b, x, 1, z));
        assert forall|q: IVec3| #[trigger] cur.contains(q) <==> exists|k: int| 0 <= k < n && #[trigger] shake_hit(b, k, q) by {
            let hit = 16 <= x * x + z * z <= 64;
            if hit {
                assert(cur == prev.push(p0).push(p1).push(p2));
            } else {
                assert(cur == prev);
            }
            if cur.contains(q) {
                let i = choose|i: int| 0 <= i < cur.len() && cur[i] == q;
                if i < prev.len() {
                    assert(prev[i] == q);
                    assert(prev.contains(q));
                    let k = choose|k: int| 0 <= k < n - 1 && #[trigger] shake_hit(b, k, q);
                    assert(shake_hit(b, k, q));
                } else {
                    assert(shake_hit(b, n - 1, q));
                }
            }
            if exists|k: int| 0 <= k < n && #[trigger] shake_hit(b, k, q) {
                let k = choose|k: int| 0 <= k < n && #[trigger] shake_hit(b, k, q);
                if k < n - 1 {
                    assert(prev.contains(q));
                    let i = choose|i: int| 0 <= i < prev.len() && prev[i] == q;
                    assert(cur[i] == q);
                } else if q == p0 {
                    assert(cur[cur.len() - 3] == q);
                } else if q == p1 {
                    assert(cur[cur.len() - 2] == q);
                } else {
                    assert(cur[cur.len() - 1] == q);
                }
            }
        }
    }
}

/// The ground shake clears the ring around the boss: a position is among
/// those it reports exactly when it lies at most one above or below the
/// boss and its squared horizontal distance from the boss is between 16 and
/// 64; after the shake such a position holds Air where its chunk is loaded,
/// and every other position keeps its material.
pub proof fn lemma_shake_ring(a: Map<IVec3, (Seq<Block>, bool)>, b: IVec3, q: IVec3)
    requires
        fits(b, 8, 1, 8),
        forall|p: IVec3| #[trigger] a.contains_key(p) ==> a[p].0.len() == CHUNK_VOLUME,
    ensures
        ({
            let d = (q.x - b.x) * (q.x - b.x) + (q.z - b.z) * (q.z - b.z);
            let inside = -1 <= q.y - b.y <= 1 && 16 <= d <= 64;
            let ps = attack_positions(BossAttackPattern::GroundShake, b);
            &&& ps.contains(q) <==> inside
            &&& read_abs(write_all(a, ps, Block::air_spec()), q)
                == if inside && a.contains_key(chunk_of(q)) { Material::Air } else { read_abs(a, q) }
        }),
{
    lemma_shake_members(b, 289);
    let ps = shake_positions(b, 289);
    let (dx, dy, dz) = (q.x - b.x, q.y - b.y, q.z - b.z);
    let d = dx * dx + dz * dz;
    if -1 <= dy <= 1 && 16 <= d <= 64 {
        assert(-8 <= dx <= 8 && -8 <= dz <= 8) by (nonlinear_arith)
            requires dx * dx + dz * dz <= 64;
        let k = (dx + 8) * 17 + (dz + 8);
        vstd::arithmetic::div_mod::lemma_fundamental_div_mod_converse(k, 17, dx + 8, dz + 8);
        assert(add_spec(b, dx, dy, dz) == q);
        assert(shake_hit(b, k, q));
        assert(ps.contains(q));
    }
    if ps.contains(q) {
        let k = choose|k: int| 0 <= k < 289 && #[trigger] shake_hit(b, k, q);
        let x = k / 17 - 8;
        let z = k % 17 - 8;
        assert(-8 <= x <= 8 && -8 <= z <= 8);
        assert(dx == x && dz == z && -1 <= dy <= 1);
    }
    lemma_read_after_write_all(a, ps, Block::air_spec(), q);
}

} // verus!
