use vstd::prelude::*;

use crate::combat::boss::{add_spec, fits};
use crate::world::chunk::{key_of, lemma_pos_key_injective, pos_key, ChunkMap, IVec3};
use std::collections::HashSet;

verus! {

/// How many chunks around the player's chunk are kept loaded, on each axis.
pub const RENDER_DISTANCE: i32 = 4;

/// The k-th chunk of the 9×9×9 cube around `center`, x slowest and z
/// fastest.
pub open spec fn near_chunk(center: IVec3, k: int) -> IVec3 {
    add_spec(center, k / 81 - 4, (k / 9) % 9 - 4, k % 9 - 4)
}

/// The chunks among the first `n` of the cube around `center` that have
/// neither an entity nor a loaded chunk yet, in cube order.
pub open spec fn to_load(center: IVec3, existing: Seq<IVec3>, loaded: Map<IVec3, crate::world::chunk::Chunk>, n: int) -> Seq<IVec3>
    decreases n,
{
    if n <= 0 {
        Seq::empty()
    } else {
        let prev = to_load(center, existing, loaded, n - 1);
        let p = near_chunk(center, n - 1);
        if !existing.contains(p) && !loaded.contains_key(p) {
            prev.push(p)
        } else {
            prev
        }
    }
}

/// Whether `p` lies within the render distance of `center` on every axis.
pub open spec fn in_reach(center: IVec3, p: IVec3) -> bool {
    &&& center.x - 4 <= p.x <= center.x + 4
    &&& center.y - 4 <= p.y <= center.y + 4
    &&& center.z - 4 <= p.z <= center.z + 4
}

proof fn lemma_cube_index(k: int)
    requires
        0 <= k < 729,
    ensures
        0 <= k / 81 < 9,
        0 <= (k / 9) % 9 < 9,
        0 <= k % 9 < 9,
        k == (k / 81) * 81 + ((k / 9) % 9) * 9 + k % 9,
{
    vstd::arithmetic::div_mod::lemma_fundamental_div_mod(k, 9);
    vstd::arithmetic::div_mod::lemma_fundamental_div_mod(k / 9, 9);
    vstd::arithmetic::div_mod::lemma_div_denominator(k, 9, 9);
}

proof fn lemma_cube_from_offsets(i: int, j: int, l: int)
    requires
        0 <= i < 9,
        0 <= j < 9,
        0 <= l < 9,
    ensures
        (i * 81 + j * 9 + l) / 81 == i,
        ((i * 81 + j * 9 + l) / 9) % 9 == j,
        (i * 81 + j * 9 + l) % 9 == l,
{
    let k = i * 81 + j * 9 + l;
    vstd::arithmetic::div_mod::lemma_fundamental_div_mod_converse(k, 81, i, j * 9 + l);
    vstd::arithmetic::div_mod::lemma_fundamental_div_mod_converse(k, 9, i * 9 + j, l);
    vstd::arithmetic::div_mod::lemma_fundamental_div_mod_converse(i * 9 + j, 9, i, j);
}

/// The cube's chunks are in reach, distinct, and every chunk in reach is
/// one of them.
proof fn lemma_cube(center: IVec3)
    requires
        fits(center, 4, 4, 4),
    ensures
        forall|k: int| 0 <= k < 729 ==> in_reach(center, #[trigger] near_chunk(center, k)),
        forall|k1: int, k2: int| 0 <= k1 < 729 && 0 <= k2 < 729 && k1 != k2
            ==> #[trigger] near_chunk(center, k1) != #[trigger] near_chunk(center, k2),
        forall|p: IVec3| #[trigger] in_reach(center, p) ==> near_chunk(
            center,
            (p.x - center.x + 4) * 81 + (p.y - center.y + 4) * 9 + (p.z - center.z + 4),
        ) == p,
{
    assert forall|k: int| 0 <= k < 729 implies in_reach(center, #[trigger] near_chunk(center, k)) by {
        lemma_cube_index(k);
    }
    assert forall|k1: int, k2: int| 0 <= k1 < 729 && 0 <= k2 < 729 && k1 != k2
        implies #[trigger] near_chunk(center, k1) != #[trigger] near_chunk(center, k2) by {
        lemma_cube_index(k1);
        lemma_cube_index(k2);
    }
    assert forall|p: IVec3| #[trigger] in_reach(center, p) implies near_chunk(
        center,
        (p.x - center.x + 4) * 81 + (p.y - center.y + 4) * 9 + (p.z - center.z + 4),
    ) == p by {
        lemma_cube_from_offsets(p.x - center.x + 4, p.y - center.y + 4, p.z - center.z + 4);
    }
}

proof fn lemma_to_load_members(center: IVec3, existing: Seq<IVec3>, loaded: Map<IVec3, crate::world::chunk::Chunk>, n: int)
    requires
        0 <= n <= 729,
        fits(center, 4, 4, 4),
    ensures
        forall|p: IVec3| #[trigger] to_load(center, existing, loaded, n).contains(p) <==> (exists|k: int|
            0 <= k < n && #[trigger] near_chunk(center, k) == p) && !existing.contains(p) && !loaded.contains_key(p),
        to_load(center, existing, loaded, n).no_duplicates(),
    decreases n,
{
    if n > 0 {
        lemma_to_load_members(center, existing, loaded, n - 1);
        lemma_cube(center);
        let prev = to_load(center, existing, loaded, n - 1);
        let cur = to_load(center, existing, loaded, n);
        let q = near_chunk(center, n - 1);
        assert forall|p: IVec3| #[trigger] cur.contains(p) <==> (exists|k: int|
            0 <= k < n && #[trigger] near_chunk(center, k) == p) && !existing.contains(p) && !loaded.contains_key(p) by {
            if cur.contains(p) {
                let i = choose|i: int| 0 <= i < cur.len() && cur[i] == p;
                if i < prev.len() {
                    assert(prev[i] == p);
                    assert(prev.contains(p));
                    let k = choose|k: int| 0 <= k < n - 1 && #[trigger] near_chunk(center, k) == p;
                    assert(0 <= k < n && near_chunk(center, k) == p);
                } else {
                    assert(p == q);
                    assert(0 <= n - 1 < n && near_chunk(center, n - 1) == p);
                }
            }
            if (exists|k: int| 0 <= k < n && #[trigger] near_chunk(center, k) == p) && !existing.contains(p) && !loaded.contains_key(p) {
                let k = choose|k: int| 0 <= k < n && #[trigger] near_chunk(center, k) == p;
                if k < n - 1 {
                    assert(prev.contains(p));
                    let i = choose|i: int| 0 <= i < prev.len() && prev[i] == p;
                    assert(cur[i] == p);
                } else {
                    assert(cur[cur.len() - 1] == p);
                }
            }
        }
        if !existing.contains(q) && !loaded.contains_key(q) {
            assert(!prev.contains(q)) by {
                if prev.contains(q) {
                    let k = choose|k: int| 0 <= k < n - 1 && #[trigger] near_chunk(center, k) == q;
                    assert(near_chunk(center, k) != near_chunk(center, n - 1));
                }
            }
            assert forall|i: int, j: int| 0 <= i < cur.len() && 0 <= j < cur.len() && i != j implies cur[i] != cur[j] by {
                if i < prev.len() && j < prev.len() {
                    assert(cur[i] == prev[i] && cur[j] == prev[j]);
                } else if i < prev.len() {
                    assert(cur[i] == prev[i]);
                    assert(prev.contains(prev[i]));
                } else {
                    assert(cur[j] == prev[j]);
                    assert(prev.contains(prev[j]));
                }
            }
        }
    }
}

/// The keys of the positions that already have a chunk entity.
fn position_keys(v: &Vec<IVec3>) -> (r: HashSet<i128>)
    ensures
        forall|q: IVec3| #[trigger] v@.contains(q) <==> r@.contains(pos_key(q) as i128),
{
    broadcast use vstd::std_specs::hash::group_hash_axioms;
    let mut r: HashSet<i128> = HashSet::new();
    let mut i: usize = 0;
    while i < v.len()
        invariant
            i <= v.len(),
            forall|q: IVec3| #[trigger] v@.subrange(0, i as int).contains(q) <==> r@.contains(pos_key(q) as i128),
        decreases v.len() - i,
    {
        r.insert(key_of(v[i]));
        proof {
            let s0 = v@.subrange(0, i as int);
            let s1 = s0.push(v@[i as int]);
            assert(v@.subrange(0, i + 1) =~= s1);
            assert forall|q: IVec3| #[trigger] s1.contains(q) <==> r@.contains(pos_key(q) as i128) by {
                if pos_key(q) == pos_key(v@[i as int]) {
                    lemma_pos_key_injective(q, v@[i as int]);
                }
                if s1.contains(q) {
                    let j = choose|j: int| 0 <= j < s1.len() && #[trigger] s1[j] == q;
                    if j < i {
                        assert(s0[j] == q);
                    }
                }
                if s0.contains(q) {
                    let j = choose|j: int| 0 <= j < s0.len() && #[trigger] s0[j] == q;
                    assert(s1[j] == q);
                }
                if q == v@[i as int] {
                    assert(s1[i as int] == q);
                }
            }
        }
        i = i + 1;
    }
    assert(v@.subrange(0, v.len() as int) =~= v@);
    r
}

/// The chunks within the render distance of the player's chunk `center`
/// that still need generating: those with no chunk entity (`existing`) and
/// no loaded chunk, in the order x slowest, z fastest.
pub fn chunks_to_load(center: IVec3, existing: &Vec<IVec3>, chunks: &ChunkMap) -> (r: Vec<IVec3>)
    requires
        chunks.wf(),
        fits(center, 4, 4, 4),
    ensures
        r@ == to_load(center, existing@, chunks@, 729),
        r@.no_duplicates(),
        forall|p: IVec3| #[trigger] r@.contains(p) <==> in_reach(center, p) && !existing@.contains(p)
            && !chunks@.contains_key(p),
{
    let existing_keys = position_keys(existing);
    let mut r: Vec<IVec3> = Vec::new();
    let mut k: usize = 0;
    while k < 729
        invariant
            k <= 729,
            forall|q: IVec3| #[trigger] existing@.contains(q) <==> existing_keys@.contains(pos_key(q) as i128),
            chunks.wf(),
            fits(center, 4, 4, 4),
            r@ == to_load(center, existing@, chunks@, k as int),
        decreases 729 - k,
    {
        assert(k / 81 <= 8);
        let p = IVec3 {
            x: (center.x - RENDER_DISTANCE) + (k / 81) as i32,
            y: (center.y - RENDER_DISTANCE) + ((k / 9) % 9) as i32,
            z: (center.z - RENDER_DISTANCE) + (k % 9) as i32,
        };
        assert(p == near_chunk(center, k as int));
        if !existing_keys.contains(&key_of(p)) {
            if chunks.get_chunk(p).is_none() {
                r.push(p);
            }
        }
        k = k + 1;
    }
    proof {
        lemma_to_load_members(center, existing@, chunks@, 729);
        lemma_cube(center);
        assert forall|p: IVec3| #[trigger] r@.contains(p) <==> in_reach(center, p) && !existing@.contains(p)
            && !chunks@.contains_key(p) by {
            if in_reach(center, p) {
                let k = (p.x - center.x + 4) * 81 + (p.y - center.y + 4) * 9 + (p.z - center.z + 4);
                assert(0 <= k < 729 && near_chunk(center, k) == p);
            }
            if r@.contains(p) {
                let k = choose|k: int| 0 <= k < 729 && #[trigger] near_chunk(center, k) == p;
                assert(in_reach(center, near_chunk(center, k)));
            }
        }
    }
    r
}

} // verus!
