use std::collections::VecDeque;
use vstd::prelude::*;

use crate::physics::material::{material_props, MaterialProperties};
use crate::rendering::chunk_renderer::{face_dir, face_dir_exec};
use crate::world::chunk::{spec_chunk_index, spec_is_solid, Block, Chunk, Material};

verus! {

/// A voxel that a fluid step changed, with its new contents.
#[derive(Clone, Copy, Debug, PartialEq, Eq, Structural)]
pub struct FluidDelta {
    pub x: usize,
    pub y: usize,
    pub z: usize,
    pub new_block: Block,
}

/// Linear index of a position inside a chunk.
pub fn idx(x: usize, y: usize, z: usize) -> (r: usize)
    requires
        spec_chunk_index(x as int, y as int, z as int) <= usize::MAX,
    ensures
        r == spec_chunk_index(x as int, y as int, z as int),
{
    x + y * 16 + z * 16 * 16
}

/// Lava flows downwards only on one position in three.
pub open spec fn lava_moves_at(x: int, y: int, z: int) -> bool {
    (x + y + z) % 3 == 0
}

pub fn lava_moves(x: usize, y: usize, z: usize) -> (r: bool)
    requires
        x < 16 && y < 16 && z < 16,
    ensures
        r == lava_moves_at(x as int, y as int, z as int),
{
    (x + y + z) % 3 == 0
}

/// A queued position with its distance from the source.
pub type FlowNode = (usize, usize, usize, u32);

pub open spec fn in16(v: int) -> bool {
    0 <= v < 16
}

/// Looks at the six neighbours, from the `j`-th on, of the node (cx, cy, cz)
/// at distance `dist`: an unvisited neighbour in the chunk that is not solid
/// becomes visited; Air becomes the target if there is none yet, anything
/// else (a liquid or fire) joins the queue one step further out.
pub open spec fn explore(
    c: Chunk,
    q: Seq<FlowNode>,
    vis: Seq<bool>,
    tgt: Option<FlowNode>,
    cx: int, cy: int, cz: int,
    dist: u32,
    j: int,
) -> (Seq<FlowNode>, Seq<bool>, Option<FlowNode>)
    decreases 6 - j,
{
    if j >= 6 || j < 0 {
        (q, vis, tgt)
    } else {
        let d = face_dir(j);
        let (nx, ny, nz) = (cx + d.0, cy + d.1, cz + d.2);
        if !(in16(nx) && in16(ny) && in16(nz)) {
            explore(c, q, vis, tgt, cx, cy, cz, dist, j + 1)
        } else {
            let i = spec_chunk_index(nx, ny, nz);
            let m = c.material_at(nx, ny, nz);
            if vis[i] || spec_is_solid(m) {
                explore(c, q, vis, tgt, cx, cy, cz, dist, j + 1)
            } else {
                let node = (nx as usize, ny as usize, nz as usize, (dist + 1) as u32);
                if m == Material::Air {
                    explore(c, q, vis.update(i, true), if tgt is None { Some(node) } else { tgt }, cx, cy, cz, dist, j + 1)
                } else {
                    explore(c, q.push(node), vis.update(i, true), tgt, cx, cy, cz, dist, j + 1)
                }
            }
        }
    }
}

/// The search state: every node queued so far, how many of them have been
/// taken (the waiting queue is the rest), the visited cells, the target.
pub type FlowState = (Seq<FlowNode>, nat, Seq<bool>, Option<FlowNode>);

/// One turn of the breadth-first search: take the next node; if it is
/// within the flow distance, explore its neighbours.
pub open spec fn flow_turn(c: Chunk, max_flow: u32, s: FlowState) -> FlowState {
    let (q, head, vis, tgt) = s;
    if head >= q.len() {
        s
    } else {
        let n = q[head as int];
        if n.3 > max_flow {
            (q, head + 1, vis, tgt)
        } else {
            let r = explore(c, q, vis, tgt, n.0 as int, n.1 as int, n.2 as int, n.3, 0);
            (r.0, head + 1, r.1, r.2)
        }
    }
}

pub open spec fn flow_run(c: Chunk, max_flow: u32, s: FlowState, n: nat) -> FlowState
    decreases n,
{
    if n == 0 {
        s
    } else {
        flow_turn(c, max_flow, flow_run(c, max_flow, s, (n - 1) as nat))
    }
}

pub open spec fn flow_start(x: int, y: int, z: int) -> FlowState {
    (seq![(x as usize, y as usize, z as usize, 0u32)], 0, Seq::new(4096, |i: int| i == spec_chunk_index(x, y, z)), None)
}

/// The target of a fluid at (x, y, z): the first Air cell that a
/// breadth-first search through non-solid cells reaches, expanding nodes no
/// more than `max_flow` away, with its distance.
pub open spec fn flow_target_spec(c: Chunk, x: int, y: int, z: int, max_flow: u32) -> Option<FlowNode> {
    flow_run(c, max_flow, flow_start(x, y, z), 4096).3
}

pub open spec fn ntrue(s: Seq<bool>) -> nat
    decreases s.len(),
{
    if s.len() == 0 {
        0
    } else {
        ntrue(s.drop_last()) + if s.last() { 1nat } else { 0nat }
    }
}

proof fn lemma_ntrue_update(s: Seq<bool>, i: int)
    requires
        0 <= i < s.len(),
        !s[i],
    ensures
        ntrue(s.update(i, true)) == ntrue(s) + 1,
    decreases s.len(),
{
    if i < s.len() - 1 {
        assert(s.update(i, true).drop_last() =~= s.drop_last().update(i, true));
        lemma_ntrue_update(s.drop_last(), i);
    } else {
        assert(s.update(i, true).drop_last() =~= s.drop_last());
    }
}

proof fn lemma_ntrue_bound(s: Seq<bool>)
    ensures
        ntrue(s) <= s.len(),
    decreases s.len(),
{
    if s.len() > 0 {
        lemma_ntrue_bound(s.drop_last());
    }
}

proof fn lemma_ntrue_single(k: int)
    requires
        0 <= k < 4096,
    ensures
        ntrue(Seq::new(4096, |i: int| i == k)) == 1,
{
    let s0 = Seq::new(4096, |i: int| false);
    assert(ntrue(s0) == 0) by {
        lemma_ntrue_zero(s0);
    }
    assert(s0.update(k, true) =~= Seq::new(4096, |i: int| i == k));
    lemma_ntrue_update(s0, k);
}

proof fn lemma_ntrue_zero(s: Seq<bool>)
    requires
        forall|i: int| 0 <= i < s.len() ==> !s[i],
    ensures
        ntrue(s) == 0,
    decreases s.len(),
{
    if s.len() > 0 {
        lemma_ntrue_zero(s.drop_last());
    }
}

/// What holds of a search state throughout.
pub open spec fn flow_inv(q: Seq<FlowNode>, vis: Seq<bool>) -> bool {
    &&& vis.len() == 4096
    &&& q.len() <= ntrue(vis)
    &&& forall|i: int| 0 <= i < q.len() ==> in16((#[trigger] q[i]).0 as int) && in16(q[i].1 as int) && in16(q[i].2 as int) && q[i].3 <= i
}

proof fn lemma_explore(
    c: Chunk, q: Seq<FlowNode>, vis: Seq<bool>, tgt: Option<FlowNode>,
    cx: int, cy: int, cz: int, dist: u32, j: int,
)
    requires
        c.wf(),
        flow_inv(q, vis),
        dist < q.len(),
    ensures
        flow_inv(explore(c, q, vis, tgt, cx, cy, cz, dist, j).0, explore(c, q, vis, tgt, cx, cy, cz, dist, j).1),
        explore(c, q, vis, tgt, cx, cy, cz, dist, j).0.len() >= q.len(),
    decreases 6 - j,
{
    if !(j >= 6 || j < 0) {
        let d = face_dir(j);
        let (nx, ny, nz) = (cx + d.0, cy + d.1, cz + d.2);
        if in16(nx) && in16(ny) && in16(nz) {
            let i = spec_chunk_index(nx, ny, nz);
            let m = c.material_at(nx, ny, nz);
            if !(vis[i] || spec_is_solid(m)) {
                let node = (nx as usize, ny as usize, nz as usize, (dist + 1) as u32);
                lemma_ntrue_update(vis, i);
                if m == Material::Air {
                    lemma_explore(c, q, vis.update(i, true), if tgt is None { Some(node) } else { tgt }, cx, cy, cz, dist, j + 1);
                } else {
                    lemma_explore(c, q.push(node), vis.update(i, true), tgt, cx, cy, cz, dist, j + 1);
                }
                return;
            }
        }
        lemma_explore(c, q, vis, tgt, cx, cy, cz, dist, j + 1);
    }
}

proof fn lemma_run_fixed(c: Chunk, max_flow: u32, s: FlowState, n: nat, m: nat)
    requires
        n <= m,
        flow_run(c, max_flow, s, n).1 >= flow_run(c, max_flow, s, n).0.len(),
    ensures
        flow_run(c, max_flow, s, m) == flow_run(c, max_flow, s, n),
    decreases m - n,
{
    if n < m {
        lemma_run_fixed(c, max_flow, s, n, (m - 1) as nat);
    }
}

/// Where a fluid at (x, y, z) can flow: the first Air cell a breadth-first
/// search through non-solid cells reaches, expanding only nodes within
/// `max_flow` of the source, with its distance.
pub fn find_flow_target(chunk: &Chunk, x: usize, y: usize, z: usize, max_flow: u32) -> (r: Option<FlowNode>)
    requires
        chunk.wf(),
        x < 16 && y < 16 && z < 16,
    ensures
        r == flow_target_spec(*chunk, x as int, y as int, z as int, max_flow),
{
    let mut visited: Vec<bool> = Vec::new();
    let mut k: usize = 0;
    let start = idx(x, y, z);
    while k < 4096
        invariant
            k <= 4096,
            start < 4096,
            visited@ == Seq::new(k as nat, |i: int| i == start),
        decreases 4096 - k,
    {
        visited.push(k == start);
        k = k + 1;
    }
    let mut queue: VecDeque<FlowNode> = VecDeque::new();
    queue.push_back((x, y, z, 0));
    let ghost mut q: Seq<FlowNode> = seq![(x, y, z, 0u32)];
    let ghost mut head: nat = 0;
    let mut target: Option<FlowNode> = None;
    let ghost s0 = flow_start(x as int, y as int, z as int);
    proof {
        lemma_ntrue_single(start as int);
        assert(q =~= s0.0);
        assert(visited@ =~= s0.2);
        assert(queue@ =~= q.subrange(0, 1));
    }
    while queue.len() > 0
        invariant
            chunk.wf(),
            flow_inv(q, visited@),
            head <= q.len(),
            queue@ == q.subrange(head as int, q.len() as int),
            (q, head, visited@, target) == flow_run(*chunk, max_flow, s0, head),
        decreases 4096 - head,
    {
        proof { lemma_ntrue_bound(visited@); }
        let (cx, cy, cz, dist) = queue.pop_front().unwrap();
        proof { assert(q[head as int] == (cx, cy, cz, dist)); }
        let ghost q0 = q;
        let ghost v0 = visited@;
        let ghost t0 = target;
        proof { head = head + 1; }
        if dist <= max_flow {
            let mut j: usize = 0;
            proof { lemma_explore(*chunk, q0, v0, t0, cx as int, cy as int, cz as int, dist, 0); }
            while j < 6
                invariant
                    chunk.wf(),
                    j <= 6,
                    cx < 16 && cy < 16 && cz < 16,
                    dist < q0.len(),
                    q0.len() <= 4096,
                    flow_inv(q, visited@),
                    q.len() >= q0.len(),
                    head <= q0.len(),
                    queue@ == q.subrange(head as int, q.len() as int),
                    explore(*chunk, q0, v0, t0, cx as int, cy as int, cz as int, dist, 0)
                        == explore(*chunk, q, visited@, target, cx as int, cy as int, cz as int, dist, j as int),
                decreases 6 - j,
            {
                proof { lemma_explore(*chunk, q, visited@, target, cx as int, cy as int, cz as int, dist, j as int); }
                let (dx, dy, dz) = face_dir_exec(j);
                let nx = cx as i32 + dx;
                let ny = cy as i32 + dy;
                let nz = cz as i32 + dz;
                if nx >= 0 && ny >= 0 && nz >= 0 && nx < 16 && ny < 16 && nz < 16 {
                    let (nxu, nyu, nzu) = (nx as usize, ny as usize, nz as usize);
                    let idxn = idx(nxu, nyu, nzu);
                    if !visited[idxn] {
                        let m = chunk.get_material(nxu, nyu, nzu);
                        if !m.is_solid() {
                            proof { lemma_ntrue_update(visited@, idxn as int); }
                            visited.set(idxn, true);
                            if m == Material::Air {
                                if target.is_none() {
                                    target = Some((nxu, nyu, nzu, dist + 1));
                                }
                            } else {
                                queue.push_back((nxu, nyu, nzu, dist + 1));
                                proof {
                                    q = q.push((nxu, nyu, nzu, (dist + 1) as u32));
                                    assert(queue@ =~= q.subrange(head as int, q.len() as int));
                                }
                            }
                        }
                    }
                }
                j = j + 1;
            }
        }
    }
    proof {
        lemma_ntrue_bound(visited@);
        lemma_run_fixed(*chunk, max_flow, s0, head, 4096);
    }
    target
}

/// Bit pattern of the single-precision value 1.0: one unit of fluid.
pub const FLUID_UNIT_BITS: u32 = 0x3F80_0000;

/// What the single-precision level arithmetic gives for one voxel's
/// temperature, read as a fluid level: whether the level, clamped to 0..7,
/// is empty, and the bit pattern of that level less one unit (never below
/// zero).
#[derive(Clone, Copy, Debug, PartialEq, Eq, Structural)]
pub struct FluidLevel {
    pub empty: bool,
    pub drained: u32,
}

/// The scan order of the fluid step: x fastest, then z, then y.
pub open spec fn fluid_pos(k: int) -> (int, int, int) {
    (k % 16, k / 256, (k / 16) % 16)
}

pub open spec fn delta(x: int, y: int, z: int, b: Block) -> FluidDelta {
    FluidDelta { x: x as usize, y: y as usize, z: z as usize, new_block: b }
}

/// The changes one voxel makes: an empty liquid becomes Air; a liquid over
/// Air passes one unit down (lava only on one position in three, and the
/// source becomes water); otherwise it passes one unit to the Air cell its
/// search finds within its flow speed.
pub open spec fn fluid_cell(c: Chunk, lv: Seq<FluidLevel>, x: int, y: int, z: int) -> Seq<FluidDelta> {
    let m = c.material_at(x, y, z);
    let l = lv[spec_chunk_index(x, y, z)];
    let src = Block { material: Material::Water, temperature: l.drained };
    let unit = Block { material: Material::Water, temperature: FLUID_UNIT_BITS };
    if !(m == Material::Water || m == Material::Lava) {
        Seq::empty()
    } else if l.empty {
        seq![delta(x, y, z, Block::air_spec())]
    } else if y > 0 && c.material_at(x, y - 1, z) == Material::Air {
        if m == Material::Lava && !lava_moves_at(x, y, z) {
            Seq::empty()
        } else {
            seq![delta(x, y, z, src), delta(x, y - 1, z, unit)]
        }
    } else {
        let max_flow = material_props(m).flow_speed;
        match flow_target_spec(c, x, y, z, max_flow) {
            Some(t) => if max_flow != 0 && t.3 <= max_flow {
                seq![delta(t.0 as int, t.1 as int, t.2 as int, unit), delta(x, y, z, src)]
            } else {
                Seq::empty()
            },
            None => Seq::empty(),
        }
    }
}

/// The changes of the first `n` voxels of the scan, in order.
pub open spec fn fluid_scan(c: Chunk, lv: Seq<FluidLevel>, n: int) -> Seq<FluidDelta>
    decreases n,
{
    if n <= 0 {
        Seq::empty()
    } else {
        let (x, y, z) = fluid_pos(n - 1);
        fluid_scan(c, lv, n - 1) + fluid_cell(c, lv, x, y, z)
    }
}

fn fluid_cell_exec(chunk: &Chunk, levels: &Vec<FluidLevel>, x: usize, y: usize, z: usize, deltas: &mut Vec<FluidDelta>)
    requires
        chunk.wf(),
        levels@.len() == 4096,
        x < 16 && y < 16 && z < 16,
    ensures
        final(deltas)@ == old(deltas)@ + fluid_cell(*chunk, levels@, x as int, y as int, z as int),
{
    let ghost added = fluid_cell(*chunk, levels@, x as int, y as int, z as int);
    let mat = chunk.get_material(x, y, z);
    if !(mat == Material::Water || mat == Material::Lava) {
        assert(added =~= Seq::<FluidDelta>::empty());
        assert(deltas@ =~= old(deltas)@ + added);
        return;
    }
    let l = levels[idx(x, y, z)];
    let src = Block { material: Material::Water, temperature: l.drained };
    let unit = Block { material: Material::Water, temperature: FLUID_UNIT_BITS };
    if l.empty {
        deltas.push(FluidDelta { x, y, z, new_block: Block::air() });
        assert(deltas@ =~= old(deltas)@ + added);
        return;
    }
    if y > 0 {
        let below = chunk.get_block(x, y - 1, z);
        if below.material == Material::Air {
            if mat == Material::Lava && !lava_moves(x, y, z) {
                assert(added =~= Seq::<FluidDelta>::empty());
                assert(deltas@ =~= old(deltas)@ + added);
                return;
            }
            deltas.push(FluidDelta { x, y, z, new_block: src });
            deltas.push(FluidDelta { x, y: y - 1, z, new_block: unit });
            assert(deltas@ =~= old(deltas)@ + added);
            return;
        }
    }
    let props = MaterialProperties::get(mat);
    let max_flow = props.flow_speed;
    if max_flow == 0 {
        assert(added =~= Seq::<FluidDelta>::empty());
        assert(deltas@ =~= old(deltas)@ + added);
        return;
    }
    match find_flow_target(chunk, x, y, z, max_flow) {
        Some((tx, ty, tz, d)) => {
            if d <= max_flow {
                deltas.push(FluidDelta { x: tx, y: ty, z: tz, new_block: unit });
                deltas.push(FluidDelta { x, y, z, new_block: src });
            }
        },
        None => {},
    }
    assert(deltas@ =~= old(deltas)@ + added);
}

/// One step of the fluid rules over a chunk, scanning x fastest, then z,
/// then y; returns the changes in scan order and leaves the chunk as it
/// is. `levels[i]` is what the level arithmetic gives for the temperature
/// of voxel `i`.
pub fn simulate_fluid_step(chunk: &mut Chunk, levels: &Vec<FluidLevel>) -> (r: Vec<FluidDelta>)
    requires
        old(chunk).wf(),
        levels@.len() == 4096,
    ensures
        *final(chunk) == *old(chunk),
        r@ == fluid_scan(*old(chunk), levels@, 4096),
        forall|i: int| 0 <= i < r@.len() ==> fluid_change_ok(*old(chunk), #[trigger] r@[i]),
{
    let mut deltas: Vec<FluidDelta> = Vec::new();
    let mut k: usize = 0;
    while k < 4096
        invariant
            chunk.wf(),
            *chunk == *old(chunk),
            levels@.len() == 4096,
            k <= 4096,
            deltas@ == fluid_scan(*old(chunk), levels@, k as int),
        decreases 4096 - k,
    {
        let x = k % 16;
        let z = (k / 16) % 16;
        let y = k / 256;
        fluid_cell_exec(chunk, levels, x, y, z, &mut deltas);
        k = k + 1;
    }
    proof { lemma_fluid_flows_into_air(*old(chunk), levels@, 4096); }
    deltas
}

/// The search's target, when it has one, is an Air cell of the chunk.
pub open spec fn target_ok(c: Chunk, tgt: Option<FlowNode>) -> bool {
    match tgt {
        Some(t) => in16(t.0 as int) && in16(t.1 as int) && in16(t.2 as int) && c.material_at(t.0 as int, t.1 as int, t.2 as int) == Material::Air,
        None => true,
    }
}

proof fn lemma_explore_target(
    c: Chunk, q: Seq<FlowNode>, vis: Seq<bool>, tgt: Option<FlowNode>,
    cx: int, cy: int, cz: int, dist: u32, j: int,
)
    requires
        target_ok(c, tgt),
    ensures
        target_ok(c, explore(c, q, vis, tgt, cx, cy, cz, dist, j).2),
    decreases 6 - j,
{
    if !(j >= 6 || j < 0) {
        let d = face_dir(j);
        let (nx, ny, nz) = (cx + d.0, cy + d.1, cz + d.2);
        if in16(nx) && in16(ny) && in16(nz) {
            let i = spec_chunk_index(nx, ny, nz);
            let m = c.material_at(nx, ny, nz);
            if !(vis[i] || spec_is_solid(m)) {
                let node = (nx as usize, ny as usize, nz as usize, (dist + 1) as u32);
                if m == Material::Air {
                    lemma_explore_target(c, q, vis.update(i, true), if tgt is None { Some(node) } else { tgt }, cx, cy, cz, dist, j + 1);
                } else {
                    lemma_explore_target(c, q.push(node), vis.update(i, true), tgt, cx, cy, cz, dist, j + 1);
                }
                return;
            }
        }
        lemma_explore_target(c, q, vis, tgt, cx, cy, cz, dist, j + 1);
    }
}

proof fn lemma_run_target(c: Chunk, max_flow: u32, s: FlowState, n: nat)
    requires
        target_ok(c, s.3),
    ensures
        target_ok(c, flow_run(c, max_flow, s, n).3),
    decreases n,
{
    if n > 0 {
        let p = flow_run(c, max_flow, s, (n - 1) as nat);
        lemma_run_target(c, max_flow, s, (n - 1) as nat);
        if p.1 < p.0.len() {
            let nd = p.0[p.1 as int];
            lemma_explore_target(c, p.0, p.2, p.3, nd.0 as int, nd.1 as int, nd.2 as int, nd.3, 0);
        }
    }
}

/// A change of the fluid step keeps to the chunk, and lands either on a
/// liquid (the source, which loses a unit or empties) or on a cell that was
/// Air, which receives one unit of water.
pub open spec fn fluid_change_ok(c: Chunk, d: FluidDelta) -> bool {
    &&& d.x < 16 && d.y < 16 && d.z < 16
    &&& {
        let m = c.material_at(d.x as int, d.y as int, d.z as int);
        ||| m == Material::Water || m == Material::Lava
        ||| m == Material::Air && d.new_block == (Block { material: Material::Water, temperature: FLUID_UNIT_BITS })
    }
}

/// Fluid only flows into Air: every change of a step stays in the chunk and
/// either touches a liquid voxel or puts one unit of water into an Air
/// voxel, never overwriting a solid or a fire.
pub proof fn lemma_fluid_flows_into_air(c: Chunk, lv: Seq<FluidLevel>, n: int)
    requires
        0 <= n <= 4096,
    ensures
        forall|i: int| 0 <= i < fluid_scan(c, lv, n).len() ==> fluid_change_ok(c, #[trigger] fluid_scan(c, lv, n)[i]),
    decreases n,
{
    if n > 0 {
        let (x, y, z) = fluid_pos(n - 1);
        lemma_fluid_flows_into_air(c, lv, n - 1);
        let prev = fluid_scan(c, lv, n - 1);
        let add = fluid_cell(c, lv, x, y, z);
        let m = c.material_at(x, y, z);
        let max_flow = material_props(m).flow_speed;
        lemma_run_target(c, max_flow, flow_start(x, y, z), 4096);
        assert forall|i: int| 0 <= i < add.len() implies fluid_change_ok(c, #[trigger] add[i]) by {}
        assert forall|i: int| 0 <= i < (prev + add).len() implies fluid_change_ok(c, #[trigger] (prev + add)[i]) by {
            if i >= prev.len() {
                assert((prev + add)[i] == add[i - prev.len()]);
            }
        }
    }
}

proof fn lemma_explore_cells(
    c1: Chunk, c2: Chunk, q: Seq<FlowNode>, vis: Seq<bool>, tgt: Option<FlowNode>,
    cx: int, cy: int, cz: int, dist: u32, j: int,
)
    requires
        c1.cells() == c2.cells(),
    ensures
        explore(c1, q, vis, tgt, cx, cy, cz, dist, j) == explore(c2, q, vis, tgt, cx, cy, cz, dist, j),
    decreases 6 - j,
{
    if !(j >= 6 || j < 0) {
        let d = face_dir(j);
        let (nx, ny, nz) = (cx + d.0, cy + d.1, cz + d.2);
        if in16(nx) && in16(ny) && in16(nz) {
            let i = spec_chunk_index(nx, ny, nz);
            let m = c1.material_at(nx, ny, nz);
            if !(vis[i] || spec_is_solid(m)) {
                let node = (nx as usize, ny as usize, nz as usize, (dist + 1) as u32);
                if m == Material::Air {
                    lemma_explore_cells(c1, c2, q, vis.update(i, true), if tgt is None { Some(node) } else { tgt }, cx, cy, cz, dist, j + 1);
                } else {
                    lemma_explore_cells(c1, c2, q.push(node), vis.update(i, true), tgt, cx, cy, cz, dist, j + 1);
                }
                return;
            }
        }
        lemma_explore_cells(c1, c2, q, vis, tgt, cx, cy, cz, dist, j + 1);
    }
}

proof fn lemma_run_cells(c1: Chunk, c2: Chunk, max_flow: u32, s: FlowState, n: nat)
    requires
        c1.cells() == c2.cells(),
    ensures
        flow_run(c1, max_flow, s, n) == flow_run(c2, max_flow, s, n),
    decreases n,
{
    if n > 0 {
        lemma_run_cells(c1, c2, max_flow, s, (n - 1) as nat);
        let p = flow_run(c1, max_flow, s, (n - 1) as nat);
        if p.1 < p.0.len() {
            let nd = p.0[p.1 as int];
            lemma_explore_cells(c1, c2, p.0, p.2, p.3, nd.0 as int, nd.1 as int, nd.2 as int, nd.3, 0);
        }
    }
}

/// A fluid step depends only on the voxels and their level records: two
/// chunks with the same voxels give the same changes.
pub proof fn lemma_fluid_step_by_voxels(c1: Chunk, c2: Chunk, lv: Seq<FluidLevel>, n: int)
    requires
        c1.cells() == c2.cells(),
    ensures
        fluid_scan(c1, lv, n) == fluid_scan(c2, lv, n),
    decreases n,
{
    if n > 0 {
        lemma_fluid_step_by_voxels(c1, c2, lv, n - 1);
        let (x, y, z) = fluid_pos(n - 1);
        let m = c1.material_at(x, y, z);
        lemma_run_cells(c1, c2, material_props(m).flow_speed, flow_start(x, y, z), 4096);
    }
}

proof fn lemma_scan_includes(c: Chunk, lv: Seq<FluidLevel>, n: int, k: int, e: FluidDelta)
    requires
        0 <= k < n,
        ({
            let (x, y, z) = fluid_pos(k);
            fluid_cell(c, lv, x, y, z).contains(e)
        }),
    ensures
        fluid_scan(c, lv, n).contains(e),
    decreases n,
{
    let (x, y, z) = fluid_pos(n - 1);
    let prev = fluid_scan(c, lv, n - 1);
    let add = fluid_cell(c, lv, x, y, z);
    if k < n - 1 {
        lemma_scan_includes(c, lv, n - 1, k, e);
        let i = choose|i: int| 0 <= i < prev.len() && prev[i] == e;
        assert((prev + add)[i] == e);
    } else {
        let i = choose|i: int| 0 <= i < add.len() && add[i] == e;
        assert((prev + add)[prev.len() + i] == e);
    }
}

/// What a fluid step does for a liquid voxel (x, y, z), water or lava, by
/// its level record `l`. An empty one turns to Air. A non-empty one with Air
/// directly below it (for lava, only where x + y + z is a multiple of 3)
/// passes one unit of water into the voxel below and becomes water at its
/// drained level.
pub proof fn lemma_fluid_falls(c: Chunk, lv: Seq<FluidLevel>, x: int, y: int, z: int)
    requires
        lv.len() == 4096,
        0 <= x < 16 && 0 <= y < 16 && 0 <= z < 16,
        c.material_at(x, y, z) == Material::Water || c.material_at(x, y, z) == Material::Lava,
    ensures
        ({
            let r = fluid_scan(c, lv, 4096);
            let l = lv[x + y * 16 + z * 256];
            &&& l.empty ==> r.contains(FluidDelta { x: x as usize, y: y as usize, z: z as usize, new_block: Block::air_spec() })
            &&& !l.empty && y > 0 && c.material_at(x, y - 1, z) == Material::Air
                && (c.material_at(x, y, z) == Material::Water || (x + y + z) % 3 == 0) ==> {
                &&& r.contains(FluidDelta {
                    x: x as usize,
                    y: (y - 1) as usize,
                    z: z as usize,
                    new_block: Block { material: Material::Water, temperature: FLUID_UNIT_BITS },
                })
                &&& r.contains(FluidDelta {
                    x: x as usize,
                    y: y as usize,
                    z: z as usize,
                    new_block: Block { material: Material::Water, temperature: l.drained },
                })
            }
        }),
{
    let k = x + z * 16 + y * 256;
    vstd::arithmetic::div_mod::lemma_fundamental_div_mod_converse(k, 16, z + y * 16, x);
    vstd::arithmetic::div_mod::lemma_fundamental_div_mod_converse(k, 256, y, x + z * 16);
    vstd::arithmetic::div_mod::lemma_fundamental_div_mod_converse(z + y * 16, 16, y, z);
    assert(fluid_pos(k) == (x, y, z));
    let add = fluid_cell(c, lv, x, y, z);
    let l = lv[x + y * 16 + z * 256];
    if l.empty {
        let e = FluidDelta { x: x as usize, y: y as usize, z: z as usize, new_block: Block::air_spec() };
        assert(add[0] == e);
        lemma_scan_includes(c, lv, 4096, k, e);
    } else if y > 0 && c.material_at(x, y - 1, z) == Material::Air
        && (c.material_at(x, y, z) == Material::Water || (x + y + z) % 3 == 0) {
        let e0 = FluidDelta { x: x as usize, y: y as usize, z: z as usize, new_block: Block { material: Material::Water, temperature: l.drained } };
        let e1 = FluidDelta { x: x as usize, y: (y - 1) as usize, z: z as usize, new_block: Block { material: Material::Water, temperature: FLUID_UNIT_BITS } };
        assert(add[0] == e0);
        assert(add[1] == e1);
        lemma_scan_includes(c, lv, 4096, k, e0);
        lemma_scan_includes(c, lv, 4096, k, e1);
    }
}

proof fn lemma_explore_keeps_target(
    c: Chunk, q: Seq<FlowNode>, vis: Seq<bool>, tgt: Option<FlowNode>,
    cx: int, cy: int, cz: int, dist: u32, j: int,
)
    requires
        tgt is Some,
    ensures
        explore(c, q, vis, tgt, cx, cy, cz, dist, j).2 == tgt,
    decreases 6 - j,
{
    if !(j >= 6 || j < 0) {
        let d = face_dir(j);
        let (nx, ny, nz) = (cx + d.0, cy + d.1, cz + d.2);
        if in16(nx) && in16(ny) && in16(nz) {
            let i = spec_chunk_index(nx, ny, nz);
            let m = c.material_at(nx, ny, nz);
            if !(vis[i] || spec_is_solid(m)) {
                let node = (nx as usize, ny as usize, nz as usize, (dist + 1) as u32);
                if m == Material::Air {
                    lemma_explore_keeps_target(c, q, vis.update(i, true), tgt, cx, cy, cz, dist, j + 1);
                } else {
                    lemma_explore_keeps_target(c, q.push(node), vis.update(i, true), tgt, cx, cy, cz, dist, j + 1);
                }
                return;
            }
        }
        lemma_explore_keeps_target(c, q, vis, tgt, cx, cy, cz, dist, j + 1);
    }
}

proof fn lemma_run_keeps_target(c: Chunk, max_flow: u32, s: FlowState, n: nat)
    requires
        s.3 is Some,
    ensures
        flow_run(c, max_flow, s, n).3 == s.3,
    decreases n,
{
    if n > 0 {
        lemma_run_keeps_target(c, max_flow, s, (n - 1) as nat);
        let p = flow_run(c, max_flow, s, (n - 1) as nat);
        if p.1 < p.0.len() {
            let nd = p.0[p.1 as int];
            if nd.3 <= max_flow {
                lemma_explore_keeps_target(c, p.0, p.2, p.3, nd.0 as int, nd.1 as int, nd.2 as int, nd.3, 0);
            }
        }
    }
}

/// The voxel index of face neighbour `l` of (x, y, z).
pub open spec fn neighbour_index(x: int, y: int, z: int, l: int) -> int {
    let d = face_dir(l);
    spec_chunk_index(x + d.0, y + d.1, z + d.2)
}

/// Whether face neighbour `j` of (x, y, z) lies in the chunk and holds Air.
pub open spec fn air_beside(c: Chunk, x: int, y: int, z: int, j: int) -> bool {
    let d = face_dir(j);
    in16(x + d.0) && in16(y + d.1) && in16(z + d.2) && c.material_at(x + d.0, y + d.1, z + d.2) == Material::Air
}

/// Exploring the neighbours of the source from the `j`-th on, with only the
/// source and neighbours before the `j`-th visited, finds an Air neighbour at
/// distance 1 when one lies among them.
proof fn lemma_explore_source(c: Chunk, q: Seq<FlowNode>, vis: Seq<bool>, x: int, y: int, z: int, j: int, k: int)
    requires
        in16(x) && in16(y) && in16(z),
        vis.len() == 4096,
        0 <= j <= k < 6,
        air_beside(c, x, y, z, k),
        forall|i: int| 0 <= i < 4096 && #[trigger] vis[i] ==> i == spec_chunk_index(x, y, z) || exists|l: int| 0 <= l < j && i == #[trigger] neighbour_index(x, y, z, l),
    ensures
        ({
            let t = explore(c, q, vis, None, x, y, z, 0, j).2;
            &&& t is Some
            &&& t->Some_0.3 == 1
            &&& exists|l: int| 0 <= l < 6 && #[trigger] air_beside(c, x, y, z, l) && {
                let d = face_dir(l);
                t->Some_0.0 as int == x + d.0 && t->Some_0.1 as int == y + d.1 && t->Some_0.2 as int == z + d.2
            }
        }),
    decreases 6 - j,
{
    let d = face_dir(j);
    let (nx, ny, nz) = (x + d.0, y + d.1, z + d.2);
    let i = spec_chunk_index(nx, ny, nz);
    if in16(nx) && in16(ny) && in16(nz) && !(vis[i] || spec_is_solid(c.material_at(nx, ny, nz))) {
        let m = c.material_at(nx, ny, nz);
        let node = (nx as usize, ny as usize, nz as usize, 1u32);
        if m == Material::Air {
            assert(air_beside(c, x, y, z, j));
            lemma_explore_keeps_target(c, q, vis.update(i, true), Some(node), x, y, z, 0, j + 1);
            return;
        }
        assert(j != k);
        let vis2 = vis.update(i, true);
        assert forall|i2: int| 0 <= i2 < 4096 && #[trigger] vis2[i2] implies i2 == spec_chunk_index(x, y, z) || exists|l: int| 0 <= l < j + 1 && i2 == #[trigger] neighbour_index(x, y, z, l) by {
            if i2 == i {
                assert(i2 == neighbour_index(x, y, z, j));
            } else {
                assert(vis[i2]);
                if i2 != spec_chunk_index(x, y, z) {
                    let l = choose|l: int| 0 <= l < j && i2 == #[trigger] neighbour_index(x, y, z, l);
                    assert(i2 == neighbour_index(x, y, z, l));
                }
            }
        }
        lemma_explore_source(c, q.push(node), vis2, x, y, z, j + 1, k);
    } else {
        if j == k {
            assert(vis[i]);
            if i != spec_chunk_index(x, y, z) {
                let l = choose|l: int| 0 <= l < j && i == #[trigger] neighbour_index(x, y, z, l);
                assert(i == neighbour_index(x, y, z, l));
            }
            assert(false);
        }
        lemma_explore_source(c, q, vis, x, y, z, j + 1, k);
    }
}

proof fn lemma_run_from_first(c: Chunk, max_flow: u32, s: FlowState, n: nat)
    requires
        n >= 1,
        flow_run(c, max_flow, s, 1).3 is Some,
    ensures
        flow_run(c, max_flow, s, n).3 == flow_run(c, max_flow, s, 1).3,
    decreases n,
{
    if n > 1 {
        lemma_run_from_first(c, max_flow, s, (n - 1) as nat);
        let p = flow_run(c, max_flow, s, (n - 1) as nat);
        if p.1 < p.0.len() {
            let nd = p.0[p.1 as int];
            if nd.3 <= max_flow {
                lemma_explore_keeps_target(c, p.0, p.2, p.3, nd.0 as int, nd.1 as int, nd.2 as int, nd.3, 0);
            }
        }
    }
}

/// A fluid next to Air finds it at once: when one of the six voxels that
/// share a face with (x, y, z) lies in the chunk and holds Air, the search
/// from (x, y, z) has a target, at distance 1, that is such a voxel.
pub proof fn lemma_flow_finds_adjacent_air(c: Chunk, x: int, y: int, z: int, max_flow: u32, k: int)
    requires
        in16(x) && in16(y) && in16(z),
        0 <= k < 6,
        air_beside(c, x, y, z, k),
    ensures
        ({
            let t = flow_target_spec(c, x, y, z, max_flow);
            let (a, b, d) = (t->Some_0.0 as int, t->Some_0.1 as int, t->Some_0.2 as int);
            &&& t is Some
            &&& t->Some_0.3 == 1
            &&& in16(a) && in16(b) && in16(d)
            &&& (if a > x { a - x } else { x - a }) + (if b > y { b - y } else { y - b }) + (if d > z { d - z } else { z - d }) == 1
            &&& c.material_at(a, b, d) == Material::Air
        }),
{
    let s0 = flow_start(x, y, z);
    let vis0 = s0.2;
    assert forall|i: int| 0 <= i < 4096 && #[trigger] vis0[i] implies i == spec_chunk_index(x, y, z) || exists|l: int| 0 <= l < 0 && i == #[trigger] neighbour_index(x, y, z, l) by {}
    lemma_explore_source(c, s0.0, vis0, x, y, z, 0, k);
    assert(flow_run(c, max_flow, s0, 0) == s0);
    assert(flow_run(c, max_flow, s0, 1).3 == explore(c, s0.0, vis0, None, x, y, z, 0, 0).2);
    lemma_run_from_first(c, max_flow, s0, 4096);
    let t = explore(c, s0.0, vis0, None, x, y, z, 0, 0).2;
    let l = choose|l: int| 0 <= l < 6 && #[trigger] air_beside(c, x, y, z, l) && {
        let d = face_dir(l);
        t->Some_0.0 as int == x + d.0 && t->Some_0.1 as int == y + d.1 && t->Some_0.2 as int == z + d.2
    };
}

} // verus!
