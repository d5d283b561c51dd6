use vstd::prelude::*;

verus! {

#[derive(Clone, Copy, Debug, PartialEq, Eq, Hash, Structural)]
pub enum MonsterType {
    Slime,
    Skeleton,
    Bat,
    Golem,
    Boss,
}

#[derive(Clone, Copy, Debug, PartialEq, Eq, Structural)]
pub enum MonsterState {
    Idle,
    Alert,
    Attack,
}

/// The depths, inclusive, at which a monster type spawns.
pub open spec fn spawn_range(t: MonsterType) -> (i32, i32) {
    match t {
        MonsterType::Slime => (0, 64),
        MonsterType::Skeleton => (32, 128),
        MonsterType::Bat => (0, 255),
        MonsterType::Golem => (64, 192),
        MonsterType::Boss => (192, 255),
    }
}

/// The lowest and highest depth at which a monster type spawns.
pub fn spawn_depth_range(t: MonsterType) -> (r: (i32, i32))
    ensures
        r == spawn_range(t),
{
    match t {
        MonsterType::Slime => (0, 64),
        MonsterType::Skeleton => (32, 128),
        MonsterType::Bat => (0, 255),
        MonsterType::Golem => (64, 192),
        MonsterType::Boss => (192, 255),
    }
}

pub open spec fn all_types() -> Seq<MonsterType> {
    seq![MonsterType::Slime, MonsterType::Skeleton, MonsterType::Bat, MonsterType::Golem, MonsterType::Boss]
}

pub open spec fn spawns_at(t: MonsterType, depth: i32) -> bool {
    spawn_range(t).0 <= depth <= spawn_range(t).1
}

/// The monster types that spawn at a depth, in declaration order.
pub fn get_monsters_for_depth(depth: i32) -> (r: Vec<MonsterType>)
    ensures
        r@ == all_types().filter(|t: MonsterType| spawns_at(t, depth)),
{
    let all = [MonsterType::Slime, MonsterType::Skeleton, MonsterType::Bat, MonsterType::Golem, MonsterType::Boss];
    assert(all@ =~= all_types());
    let mut r: Vec<MonsterType> = Vec::new();
    let mut i: usize = 0;
    while i < 5
        invariant
            i <= 5,
            all@ == all_types(),
            r@ == all_types().take(i as int).filter(|t: MonsterType| spawns_at(t, depth)),
        decreases 5 - i,
    {
        let t = all[i];
        let (lo, hi) = spawn_depth_range(t);
        proof {
            reveal_with_fuel(Seq::filter, 1);
            assert(all_types().take(i + 1).drop_last() =~= all_types().take(i as int));
        }
        if depth >= lo && depth <= hi {
            r.push(t);
        }
        i = i + 1;
    }
    proof { assert(all_types().take(5) =~= all_types()); }
    r
}

/// A monster type is listed for a depth exactly when the depth lies within
/// its spawn range, ends included.
pub proof fn lemma_monsters_at_depth(depth: i32, t: MonsterType)
    ensures
        all_types().filter(|m: MonsterType| spawns_at(m, depth)).contains(t) <==> spawn_range(t).0 <= depth
            && depth <= spawn_range(t).1,
{
    let all = all_types();
    let pred = |m: MonsterType| spawns_at(m, depth);
    all.filter_lemma(pred);
    if spawn_range(t).0 <= depth && depth <= spawn_range(t).1 {
        let i: int = match t {
            MonsterType::Slime => 0,
            MonsterType::Skeleton => 1,
            MonsterType::Bat => 2,
            MonsterType::Golem => 3,
            MonsterType::Boss => 4,
        };
        assert(all[i] == t);
        all.lemma_filter_contains(pred, i);
    }
}

} // verus!
