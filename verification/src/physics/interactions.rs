use std::collections::HashMap;
use vstd::prelude::*;

use crate::world::chunk::Material;

verus! {

/// What happens when two materials touch.
#[derive(Clone, Copy, Debug, PartialEq, Eq, Structural)]
pub enum InteractionResult {
    NoEffect,
    Replace(Material),
    SwapBoth(Material, Material),
}

/// The interaction rules: the first material is the acting voxel, the second
/// its neighbour.
pub open spec fn interaction_rule(a: Material, b: Material) -> InteractionResult {
    match (a, b) {
        (Material::Water, Material::Lava) => InteractionResult::SwapBoth(Material::Stone, Material::Air),
        (Material::Lava, Material::Water) => InteractionResult::SwapBoth(Material::Air, Material::Stone),
        (Material::Water, Material::Fire) => InteractionResult::Replace(Material::Air),
        (Material::Fire, Material::Water) => InteractionResult::Replace(Material::Air),
        (Material::Fire, Material::Wood) => InteractionResult::Replace(Material::Fire),
        (Material::Wood, Material::Fire) => InteractionResult::Replace(Material::Fire),
        (Material::Fire, Material::Dirt) => InteractionResult::Replace(Material::Air),
        (Material::Lava, Material::Wood) => InteractionResult::Replace(Material::Fire),
        (Material::Wood, Material::Lava) => InteractionResult::Replace(Material::Fire),
        (Material::Lava, Material::Ice) => InteractionResult::SwapBoth(Material::Stone, Material::Water),
        (Material::Ice, Material::Lava) => InteractionResult::SwapBoth(Material::Water, Material::Stone),
        (Material::Fire, Material::Ice) => InteractionResult::Replace(Material::Water),
        (Material::Ice, Material::Fire) => InteractionResult::Replace(Material::Water),
        (Material::Lava, Material::Sand) => InteractionResult::Replace(Material::Stone),
        (Material::Sand, Material::Lava) => InteractionResult::Replace(Material::Stone),
        _ => InteractionResult::NoEffect,
    }
}

/// Every reaction reads the same from either side: where a pair swaps both
/// materials, the reversed pair swaps them the other way round, and every
/// replacement rule but fire on dirt holds for the reversed pair as well.
/// No material reacts with itself or with Air.
pub proof fn lemma_rules_symmetric(a: Material, b: Material)
    ensures
        interaction_rule(a, b) matches InteractionResult::SwapBoth(x, y)
            ==> interaction_rule(b, a) == InteractionResult::SwapBoth(y, x),
        interaction_rule(a, b) is Replace && !(a == Material::Fire && b == Material::Dirt)
            ==> interaction_rule(b, a) == interaction_rule(a, b),
        interaction_rule(a, a) is NoEffect,
        interaction_rule(a, Material::Air) is NoEffect,
        interaction_rule(Material::Air, b) is NoEffect,
{
}

/// A number for each material, in declaration order.
pub open spec fn mat_id(m: Material) -> u32 {
    match m {
        Material::Air => 0,
        Material::Stone => 1,
        Material::Dirt => 2,
        Material::Sand => 3,
        Material::Water => 4,
        Material::Lava => 5,
        Material::Wood => 6,
        Material::Metal => 7,
        Material::Ice => 8,
        Material::Fire => 9,
    }
}

pub fn material_id(m: Material) -> (r: u32)
    ensures
        r == mat_id(m),
{
    match m {
        Material::Air => 0,
        Material::Stone => 1,
        Material::Dirt => 2,
        Material::Sand => 3,
        Material::Water => 4,
        Material::Lava => 5,
        Material::Wood => 6,
        Material::Metal => 7,
        Material::Ice => 8,
        Material::Fire => 9,
    }
}

pub open spec fn pair_key(a: Material, b: Material) -> u32 {
    (mat_id(a) * 16 + mat_id(b)) as u32
}

fn pair_key_exec(a: Material, b: Material) -> (r: u32)
    ensures
        r == pair_key(a, b),
{
    material_id(a) * 16 + material_id(b)
}

/// The interaction rules, looked up by material pair.
pub struct InteractionTable {
    rules: HashMap<u32, InteractionResult>,
}

impl InteractionTable {
    /// Holds exactly the interaction rules.
    pub closed spec fn wf(&self) -> bool {
        forall|a: Material, b: Material| {
            &&& #[trigger] self.rules@.contains_key(pair_key(a, b)) <==> !(interaction_rule(a, b) is NoEffect)
            &&& self.rules@.contains_key(pair_key(a, b)) ==> self.rules@[pair_key(a, b)] == interaction_rule(a, b)
        }
    }

    pub fn new() -> (r: InteractionTable)
        ensures
            r.wf(),
    {
        broadcast use vstd::std_specs::hash::group_hash_axioms;
        let mut rules: HashMap<u32, InteractionResult> = HashMap::new();
        rules.insert(pair_key_exec(Material::Water, Material::Lava), InteractionResult::SwapBoth(Material::Stone, Material::Air));
        rules.insert(pair_key_exec(Material::Lava, Material::Water), InteractionResult::SwapBoth(Material::Air, Material::Stone));
        rules.insert(pair_key_exec(Material::Water, Material::Fire), InteractionResult::Replace(Material::Air));
        rules.insert(pair_key_exec(Material::Fire, Material::Water), InteractionResult::Replace(Material::Air));
        rules.insert(pair_key_exec(Material::Fire, Material::Wood), InteractionResult::Replace(Material::Fire));
        rules.insert(pair_key_exec(Material::Wood, Material::Fire), InteractionResult::Replace(Material::Fire));
        rules.insert(pair_key_exec(Material::Fire, Material::Dirt), InteractionResult::Replace(Material::Air));
        rules.insert(pair_key_exec(Material::Lava, Material::Wood), InteractionResult::Replace(Material::Fire));
        rules.insert(pair_key_exec(Material::Wood, Material::Lava), InteractionResult::Replace(Material::Fire));
        rules.insert(pair_key_exec(Material::Lava, Material::Ice), InteractionResult::SwapBoth(Material::Stone, Material::Water));
        rules.insert(pair_key_exec(Material::Ice, Material::Lava), InteractionResult::SwapBoth(Material::Water, Material::Stone));
        rules.insert(pair_key_exec(Material::Fire, Material::Ice), InteractionResult::Replace(Material::Water));
        rules.insert(pair_key_exec(Material::Ice, Material::Fire), InteractionResult::Replace(Material::Water));
        rules.insert(pair_key_exec(Material::Lava, Material::Sand), InteractionResult::Replace(Material::Stone));
        rules.insert(pair_key_exec(Material::Sand, Material::Lava), InteractionResult::Replace(Material::Stone));
        let r = InteractionTable { rules };
        proof {
            assert forall|a: Material, b: Material| {
                &&& #[trigger] r.rules@.contains_key(pair_key(a, b)) <==> !(interaction_rule(a, b) is NoEffect)
                &&& r.rules@.contains_key(pair_key(a, b)) ==> r.rules@[pair_key(a, b)] == interaction_rule(a, b)
            } by {
                match a {
                    Material::Air => {},
                    Material::Stone => {},
                    Material::Dirt => {},
                    Material::Sand => {},
                    Material::Water => {},
                    Material::Lava => {},
                    Material::Wood => {},
                    Material::Metal => {},
                    Material::Ice => {},
                    Material::Fire => {},
                }
            }
        }
        r
    }

    pub fn default() -> (r: InteractionTable)
        ensures
            r.wf(),
    {
        InteractionTable::new()
    }

    /// The interaction of `mat_a` acting on its neighbour `mat_b`.
    pub fn check(&self, mat_a: Material, mat_b: Material) -> (r: InteractionResult)
        requires
            self.wf(),
        ensures
            r == interaction_rule(mat_a, mat_b),
    {
        broadcast use vstd::std_specs::hash::group_hash_axioms;
        let k = pair_key_exec(mat_a, mat_b);
        match self.rules.get(&k) {
            Some(r) => *r,
            None => InteractionResult::NoEffect,
        }
    }
}

/// The changes that touching `center` makes to its six neighbours: for each
/// neighbour in order that is neither Air nor the same material, its
/// replacement under the rules, if any.
pub open spec fn neighbour_changes(blocks: Seq<Material>, center: Material, n: int) -> Seq<(usize, Material)>
    decreases n,
{
    if n <= 0 {
        Seq::empty()
    } else {
        let prev = neighbour_changes(blocks, center, n - 1);
        let nb = blocks[n - 1];
        if nb == Material::Air || nb == center {
            prev
        } else {
            match interaction_rule(center, nb) {
                InteractionResult::NoEffect => prev,
                InteractionResult::Replace(m) => prev.push(((n - 1) as usize, m)),
                InteractionResult::SwapBoth(_, m) => prev.push(((n - 1) as usize, m)),
            }
        }
    }
}

pub fn check_interactions(blocks: &[Material; 6], center: Material) -> (r: Vec<(usize, Material)>)
    ensures
        r@ == neighbour_changes(blocks@, center, 6),
{
    let table = InteractionTable::new();
    let mut changes: Vec<(usize, Material)> = Vec::new();
    let mut i: usize = 0;
    while i < 6
        invariant
            i <= 6,
            table.wf(),
            changes@ == neighbour_changes(blocks@, center, i as int),
        decreases 6 - i,
    {
        let neighbor = blocks[i];
        if !(neighbor == Material::Air || neighbor == center) {
            match table.check(center, neighbor) {
                InteractionResult::NoEffect => {},
                InteractionResult::Replace(new_mat) => {
                    changes.push((i, new_mat));
                },
                InteractionResult::SwapBoth(_, new_neighbor) => {
                    changes.push((i, new_neighbor));
                },
            }
        }
        i = i + 1;
    }
    changes
}

/// The material a neighbour `nb` of `center` turns into under the rules:
/// the replacement, or for a pair that swaps both, the neighbour's side.
pub open spec fn neighbour_result(center: Material, nb: Material) -> Option<Material> {
    match interaction_rule(center, nb) {
        InteractionResult::NoEffect => None,
        InteractionResult::Replace(m) => Some(m),
        InteractionResult::SwapBoth(_, m) => Some(m),
    }
}

proof fn lemma_changes_members(blocks: Seq<Material>, center: Material, n: int)
    requires
        0 <= n <= blocks.len(),
        n <= 6,
    ensures
        forall|j: int| 0 <= j < neighbour_changes(blocks, center, n).len() ==> (#[trigger] neighbour_changes(blocks, center, n)[j]).0 < n,
        forall|j: int, l: int| 0 <= j < l < neighbour_changes(blocks, center, n).len() ==> (#[trigger] neighbour_changes(blocks, center, n)[j]).0
            < (#[trigger] neighbour_changes(blocks, center, n)[l]).0,
        forall|i: int, m: Material| 0 <= i < n ==> (#[trigger] neighbour_changes(blocks, center, n).contains((i as usize, m)) <==> blocks[i]
            != Material::Air && blocks[i] != center && neighbour_result(center, blocks[i]) == Some(m)),
    decreases n,
{
    if n > 0 {
        lemma_changes_members(blocks, center, n - 1);
        let prev = neighbour_changes(blocks, center, n - 1);
        let cur = neighbour_changes(blocks, center, n);
        let nb = blocks[n - 1];
        if nb != Material::Air && nb != center && neighbour_result(center, nb) is Some {
            let m = neighbour_result(center, nb)->Some_0;
            assert(cur == prev.push(((n - 1) as usize, m)));
        } else {
            assert(cur == prev);
        }
        assert forall|i: int, m: Material| 0 <= i < n implies (#[trigger] cur.contains((i as usize, m)) <==> blocks[i]
            != Material::Air && blocks[i] != center && neighbour_result(center, blocks[i]) == Some(m)) by {
            if cur.contains((i as usize, m)) {
                let j = choose|j: int| 0 <= j < cur.len() && cur[j] == (i as usize, m);
                if j < prev.len() {
                    assert(prev[j] == cur[j]);
                    assert(prev.contains((i as usize, m)));
                }
            }
            if i < n - 1 && prev.contains((i as usize, m)) {
                let j = choose|j: int| 0 <= j < prev.len() && prev[j] == (i as usize, m);
                assert(cur[j] == prev[j]);
            }
            if i == n - 1 && blocks[i] != Material::Air && blocks[i] != center && neighbour_result(center, blocks[i]) == Some(m) {
                assert(cur[cur.len() - 1] == (i as usize, m));
            }
            if i < n - 1 && cur.contains((i as usize, m)) && !prev.contains((i as usize, m)) {
                let j = choose|j: int| 0 <= j < cur.len() && cur[j] == (i as usize, m);
                assert(j == prev.len());
            }
        }
        assert forall|j: int, l: int| 0 <= j < l < cur.len() implies (#[trigger] cur[j]).0 < (#[trigger] cur[l]).0 by {
            if l < prev.len() {
                assert(cur[j] == prev[j] && cur[l] == prev[l]);
            } else {
                assert(cur[j] == prev[j]);
            }
        }
        assert forall|j: int| 0 <= j < cur.len() implies (#[trigger] cur[j]).0 < n by {
            if j < prev.len() {
                assert(cur[j] == prev[j]);
            }
        }
    }
}

/// What touching `center` does to its six neighbours: the changes come in
/// neighbour order, at most one for each neighbour, and neighbour `i` is
/// changed to `m` exactly when it is neither Air nor `center`'s own
/// material and the rules turn it into `m`.
pub proof fn lemma_neighbour_changes(blocks: Seq<Material>, center: Material, i: int, m: Material)
    requires
        blocks.len() == 6,
    ensures
        forall|j: int, l: int| 0 <= j < l < neighbour_changes(blocks, center, 6).len() ==> (#[trigger] neighbour_changes(blocks, center, 6)[j]).0
            < (#[trigger] neighbour_changes(blocks, center, 6)[l]).0,
        0 <= i < 6 ==> (neighbour_changes(blocks, center, 6).contains((i as usize, m)) <==> blocks[i] != Material::Air
            && blocks[i] != center && neighbour_result(center, blocks[i]) == Some(m)),
{
    lemma_changes_members(blocks, center, 6);
}

} // verus!
