//! Weighted A* pathfinding for one-block-tall land mobs (pigs) over a
//! cuboid of loaded terrain.

use vstd::prelude::*;
use arrayvec::ArrayVec;
use crate::blocks::BlockStateId;
use crate::world::{in_world, key_point, BlockPos, Point, Terrain, WORLD_LIMIT};
use rustc_hash::FxHashMap;
use crate::collections::{moves_get, moves_len, moves_new, moves_of, moves_push, pos_map_get, pos_map_insert, pos_map_new, PosKey};
use crate::cost::{block_penalty, is_solid_floor, lemma_penalty_values, penalty_of, IMPASSABLE};

verus! {

/// The block state at `(x, y, z)`; air outside the loaded terrain.
fn get_block(world: &Terrain, x: i32, y: i32, z: i32) -> (r: BlockStateId)
    ensures
        r.0 == world.block_id_at((x as int, y as int, z as int)),
{
    world.block_at(x, y, z)
}

/// Penalty of the block at `(x, y, z)`.
fn penalty_at(world: &Terrain, x: i32, y: i32, z: i32) -> (r: i32)
    ensures
        r == world.penalty_at((x as int, y as int, z as int)),
{
    block_penalty(&world.registry, get_block(world, x, y, z))
}

/// Terrain cost of standing with feet at `p`: `None` unless the block below
/// is a solid floor and the block at `p` is passable; otherwise the body
/// block's penalty, at least 0.
pub open spec fn stand_cost(t: &Terrain, p: Point) -> Option<int> {
    if !t.floor_at((p.0, p.1 - 1, p.2)) {
        None
    } else if t.penalty_at(p) == IMPASSABLE {
        None
    } else if t.penalty_at(p) < 0 {
        Some(0)
    } else {
        Some(t.penalty_at(p) as int)
    }
}

/// Extra cost of stepping up one block.
pub const COST_STEP_UP: i32 = 10;

/// Base movement cost of a cardinal step.
pub const COST_CARDINAL: i32 = 10;

/// Base movement cost of a diagonal step (about 10 * sqrt(2)).
pub const COST_DIAGONAL: i32 = 14;

/// Maximum number of neighbors of a node (4 cardinal + 4 diagonal).
pub const MAX_NEIGHBORS: usize = 8;

/// The move from `p` in direction `(dx, dz)` with base cost `base`: walking
/// flat, else stepping up one block (the block above the feet must be
/// passable), else stepping down one block (the neighbor column must be open
/// at the current height); the destination and the total cost.
pub open spec fn move_to(t: &Terrain, p: Point, dx: int, dz: int, base: int) -> Option<(Point, int)> {
    let nx = p.0 + dx;
    let nz = p.2 + dz;
    if stand_cost(t, (nx, p.1, nz)) is Some {
        Some(((nx, p.1, nz), base + stand_cost(t, (nx, p.1, nz))->0))
    } else if t.penalty_at((p.0, p.1 + 1, p.2)) != IMPASSABLE && stand_cost(t, (nx, p.1 + 1, nz)) is Some {
        Some(((nx, p.1 + 1, nz), base + COST_STEP_UP + stand_cost(t, (nx, p.1 + 1, nz))->0))
    } else if t.penalty_at((nx, p.1, nz)) != IMPASSABLE && stand_cost(t, (nx, p.1 - 1, nz)) is Some {
        Some(((nx, p.1 - 1, nz), base + stand_cost(t, (nx, p.1 - 1, nz))->0))
    } else {
        None
    }
}

/// Direction `i` of the eight: four cardinal, then four diagonal.
pub open spec fn direction(i: int) -> (int, int) {
    if i == 0 { (1, 0) }
    else if i == 1 { (-1, 0) }
    else if i == 2 { (0, 1) }
    else if i == 3 { (0, -1) }
    else if i == 4 { (1, 1) }
    else if i == 5 { (1, -1) }
    else if i == 6 { (-1, 1) }
    else { (-1, -1) }
}

/// The `i`-th candidate move from `p`: a cardinal move, or a diagonal one
/// when both adjacent cardinal cells are passable at feet level (no corner
/// cutting).
pub open spec fn option_at(t: &Terrain, p: Point, i: int) -> Option<(Point, int)> {
    let (dx, dz) = direction(i);
    if i < 4 {
        move_to(t, p, dx, dz, COST_CARDINAL as int)
    } else if t.penalty_at((p.0 + dx, p.1, p.2)) != IMPASSABLE && t.penalty_at((p.0, p.1, p.2 + dz))
        != IMPASSABLE {
        move_to(t, p, dx, dz, COST_DIAGONAL as int)
    } else {
        None
    }
}

/// A single move leads from `a` to `b`.
pub open spec fn step(t: &Terrain, a: Point, b: Point) -> bool {
    exists|i: int| 0 <= i < 8 && (#[trigger] option_at(t, a, i) matches Some(m) && m.0 == b)
}


/// A move cost is at least 10 and at most 40.
pub open spec fn cost_ok(c: int) -> bool {
    10 <= c <= 40
}

/// Check whether a one-block-tall mob can stand with feet at `(x, y, z)`:
/// the block below must be a solid floor and the body block passable.
/// Returns the terrain cost (the body block's penalty, at least 0).
fn can_stand_at(world: &Terrain, x: i32, y: i32, z: i32) -> (r: Option<i32>)
    requires
        y > i32::MIN,
    ensures
        r matches Some(c) ==> stand_cost(world, (x as int, y as int, z as int)) == Some(c as int),
        r is None ==> stand_cost(world, (x as int, y as int, z as int)) is None,
        r matches Some(c) ==> 0 <= c <= 16,
{
    if !is_solid_floor(&world.registry, get_block(world, x, y - 1, z)) {
        return None;
    }
    let body_penalty = penalty_at(world, x, y, z);
    proof {
        lemma_penalty_values(world.registry@, world.block_id_at((x as int, y as int, z as int)));
    }
    if body_penalty == IMPASSABLE {
        return None;
    }
    Some(if body_penalty < 0 { 0 } else { body_penalty })
}

/// Try to move from `pos` in direction `(dx, dz)` with base cost
/// `base_cost`: flat, else one block up, else one block down. Returns the
/// destination and the total movement cost if the move is valid.
fn try_move(world: &Terrain, pos: BlockPos, dx: i32, dz: i32, base_cost: i32) -> (r: Option<(BlockPos, i32)>)
    requires
        in_world(pos.point()),
        -1 <= dx <= 1,
        -1 <= dz <= 1,
        base_cost == COST_CARDINAL || base_cost == COST_DIAGONAL,
    ensures
        r matches Some(m) ==> move_to(world, pos.point(), dx as int, dz as int, base_cost as int)
            == Some((m.0.point(), m.1 as int)),
        r is None ==> move_to(world, pos.point(), dx as int, dz as int, base_cost as int) is None,
        r matches Some(m) ==> cost_ok(m.1 as int),
{
    let nx = pos.x + dx;
    let nz = pos.z + dz;

    // Walk flat
    if let Some(terrain_cost) = can_stand_at(world, nx, pos.y, nz) {
        return Some((BlockPos::of(nx, pos.y, nz), base_cost + terrain_cost));
    }
    // Step up one block: the block directly above the current feet must be clear
    if penalty_at(world, pos.x, pos.y + 1, pos.z) != IMPASSABLE {
        if let Some(terrain_cost) = can_stand_at(world, nx, pos.y + 1, nz) {
            return Some((BlockPos::of(nx, pos.y + 1, nz), base_cost + COST_STEP_UP + terrain_cost));
        }
    }
    // Step down one block: the neighbor column must be open at the current height
    if penalty_at(world, nx, pos.y, nz) != IMPASSABLE {
        if let Some(terrain_cost) = can_stand_at(world, nx, pos.y - 1, nz) {
            return Some((BlockPos::of(nx, pos.y - 1, nz), base_cost + terrain_cost));
        }
    }
    None
}

/// Move `ms[j]` is one of the candidate moves from `p`.
pub open spec fn listed_move(t: &Terrain, p: Point, ms: Seq<(PosKey, i32)>, j: int) -> bool {
    exists|k: int| 0 <= k < 8 && #[trigger] option_at(t, p, k) == Some((key_point(ms[j].0), ms[j].1 as int))
}

/// Candidate move `k` from `p` appears in `ms`.
pub open spec fn move_present(t: &Terrain, p: Point, ms: Seq<(PosKey, i32)>, k: int) -> bool {
    exists|j: int| 0 <= j < ms.len() && option_at(t, p, k) == Some((key_point(ms[j].0), #[trigger] ms[j].1 as int))
}

/// The candidate moves out of `p` among the first `i` directions, in
/// direction order: destination key and total cost.
pub open spec fn moves_upto(t: &Terrain, p: Point, i: int) -> Seq<(PosKey, i32)>
    decreases i,
{
    if i <= 0 {
        Seq::empty()
    } else {
        let before = moves_upto(t, p, i - 1);
        match option_at(t, p, i - 1) {
            Some(m) => before.push((point_key(m.0), m.1 as i32)),
            None => before,
        }
    }
}

/// Passable neighbors of `pos` for a one-block-tall land mob: flat walking,
/// stepping up one block and stepping down one block, in the four cardinal
/// and (without cutting corners) the four diagonal directions.
#[verifier::rlimit(60)]
fn neighbors(world: &Terrain, pos: BlockPos) -> (r: ArrayVec<(PosKey, i32), 8>)
    requires
        in_world(pos.point()),
    ensures
        moves_of(r) == moves_upto(world, pos.point(), 8),
        moves_of(r).len() <= 8,
        forall|j: int| 0 <= j < moves_of(r).len() ==> #[trigger] listed_move(world, pos.point(), moves_of(r), j),
        forall|k: int| 0 <= k < 8 && (#[trigger] option_at(world, pos.point(), k)) is Some ==>
            move_present(world, pos.point(), moves_of(r), k),
        forall|j: int| 0 <= j < moves_of(r).len() ==> cost_ok(#[trigger] moves_of(r)[j].1 as int),
{
    let mut result = moves_new();
    let mut i: usize = 0;
    while i < 8
        invariant
            i <= 8,
            in_world(pos.point()),
            moves_of(result).len() <= i,
            moves_of(result) == moves_upto(world, pos.point(), i as int),
            forall|j: int| #![trigger moves_of(result)[j]] 0 <= j < moves_of(result).len() ==> exists|k: int| 0 <= k < i && #[trigger] option_at(world, pos.point(), k)
                == Some((key_point(moves_of(result)[j].0), moves_of(result)[j].1 as int)),
            forall|k: int| 0 <= k < i && (#[trigger] option_at(world, pos.point(), k)) is Some ==> exists|j: int|
                0 <= j < moves_of(result).len() && option_at(world, pos.point(), k) == Some((key_point(moves_of(result)[j].0), moves_of(result)[j].1 as int)),
            forall|j: int| 0 <= j < moves_of(result).len() ==> cost_ok(#[trigger] moves_of(result)[j].1 as int),
        decreases 8 - i,
    {
        let (dx, dz): (i32, i32) = if i == 0 { (1, 0) } else if i == 1 { (-1, 0) } else if i == 2 { (0, 1) }
            else if i == 3 { (0, -1) } else if i == 4 { (1, 1) } else if i == 5 { (1, -1) }
            else if i == 6 { (-1, 1) } else { (-1, -1) };
        assert(direction(i as int) == (dx as int, dz as int));
        let m = if i < 4 {
            try_move(world, pos, dx, dz, COST_CARDINAL)
        } else {
            // Diagonal: both adjacent cells must be passable at feet level (no corner cutting)
            let side1_passable = penalty_at(world, pos.x + dx, pos.y, pos.z) != IMPASSABLE;
            let side2_passable = penalty_at(world, pos.x, pos.y, pos.z + dz) != IMPASSABLE;
            if side1_passable && side2_passable {
                try_move(world, pos, dx, dz, COST_DIAGONAL)
            } else {
                None
            }
        };
        assert(m matches Some(mm) ==> option_at(world, pos.point(), i as int) == Some((mm.0.point(), mm.1 as int)));
        assert(m is None ==> option_at(world, pos.point(), i as int) is None);
        let ghost before = moves_of(result);
        proof {
            assert(moves_upto(world, pos.point(), i as int + 1) == match option_at(world, pos.point(), i as int) {
                Some(mm) => before.push((point_key(mm.0), mm.1 as i32)),
                None => before,
            });
        }
        if let Some((dest, cost)) = m {
            moves_push(&mut result, ((dest.x, dest.y, dest.z), cost));
            assert(point_key(dest.point()) == (dest.x, dest.y, dest.z));
            assert(moves_of(result)[before.len() as int] == ((dest.x, dest.y, dest.z), cost));
            assert forall|j: int| #![trigger moves_of(result)[j]] 0 <= j < moves_of(result).len() implies exists|k: int| 0 <= k < i + 1 && #[trigger] option_at(world, pos.point(), k)
                == Some((key_point(moves_of(result)[j].0), moves_of(result)[j].1 as int)) by {
                if j < before.len() {
                    assert(moves_of(result)[j] == before[j]);
                } else {
                    assert(option_at(world, pos.point(), i as int) == Some((key_point(moves_of(result)[j].0), moves_of(result)[j].1 as int)));
                }
            }
            assert forall|k: int| 0 <= k < i + 1 && (#[trigger] option_at(world, pos.point(), k)) is Some implies exists|j: int|
                0 <= j < moves_of(result).len() && option_at(world, pos.point(), k) == Some((key_point(moves_of(result)[j].0), moves_of(result)[j].1 as int)) by {
                if k < i {
                    let j = choose|j: int| 0 <= j < before.len() && option_at(world, pos.point(), k) == Some((key_point(before[j].0), before[j].1 as int));
                    assert(moves_of(result)[j] == before[j]);
                } else {
                    assert(option_at(world, pos.point(), k) == Some((key_point(moves_of(result)[before.len() as int].0), moves_of(result)[before.len() as int].1 as int)));
                }
            }
        }
        i = i + 1;
    }
    assert(moves_of(result).len() <= 8);
    assert forall|j: int| 0 <= j < moves_of(result).len() implies #[trigger] listed_move(world, pos.point(), moves_of(result), j) by {
        let k = choose|k: int| 0 <= k < i && #[trigger] option_at(world, pos.point(), k)
                == Some((key_point(moves_of(result)[j].0), moves_of(result)[j].1 as int));
        assert(0 <= k < 8);
    }
    assert forall|k: int| 0 <= k < 8 && (#[trigger] option_at(world, pos.point(), k)) is Some implies
            move_present(world, pos.point(), moves_of(result), k) by {
        let j = choose|j: int| 0 <= j < moves_of(result).len() && option_at(world, pos.point(), k) == Some((key_point(moves_of(result)[j].0), moves_of(result)[j].1 as int));
        assert(option_at(world, pos.point(), k) == Some((key_point(moves_of(result)[j].0), moves_of(result)[j].1 as int)));
    }
    assert(forall|j: int| 0 <= j < moves_of(result).len() ==> cost_ok(#[trigger] moves_of(result)[j].1 as int));
    result
}


/// Integer coordinates back as a key (exact for coordinates that fit in `i32`).
pub open spec fn point_key(p: Point) -> PosKey {
    (p.0 as i32, p.1 as i32, p.2 as i32)
}

/// A block a mob can stand on lies inside the loaded terrain, hence inside
/// the world when the terrain fits it.
pub proof fn lemma_standable_in_world(t: &Terrain, p: Point)
    requires
        t.fits_world(),
        stand_cost(t, p) is Some,
    ensures
        in_world(p),
        key_point(point_key(p)) == p,
{
    let f = (p.0, p.1 - 1, p.2);
    assert(t.floor_at(f));
    assert(t.penalty_at(f) == IMPASSABLE);
    assert(t.block_id_at(f) != 0);
    let i = p.0 - t.origin.x;
    let j = p.1 - 1 - t.origin.y;
    assert(0 <= i < t.blocks@.len() && 0 <= j < t.blocks@[i]@.len() && 0 <= p.2 - t.origin.z < t.blocks@[i]@[j]@.len());
}

/// Every destination of a candidate move can be stood on.
pub proof fn lemma_move_dest_standable(t: &Terrain, p: Point, i: int)
    requires
        option_at(t, p, i) is Some,
    ensures
        stand_cost(t, (option_at(t, p, i)->0).0) is Some,
{
}

/// A move from `a` to `b` as a pig walks: to one of the eight neighboring
/// columns, at most one block up or down, onto a place it can stand; a
/// diagonal move does not cut a corner: both cells beside it, at `a`'s feet
/// level, are passable. It climbs or drops only where it cannot walk on
/// level; a climb needs headroom above `a`, and a drop needs the cell of
/// `b`'s column at `a`'s level passable.
pub open spec fn walk_step_ok(t: &Terrain, a: Point, b: Point) -> bool {
    let dx = b.0 - a.0;
    let dz = b.2 - a.2;
    &&& -1 <= dx <= 1 && -1 <= dz <= 1 && (dx != 0 || dz != 0)
    &&& -1 <= b.1 - a.1 <= 1
    &&& stand_cost(t, b) is Some
    &&& (dx != 0 && dz != 0 ==> t.penalty_at((a.0 + dx, a.1, a.2)) != IMPASSABLE
        && t.penalty_at((a.0, a.1, a.2 + dz)) != IMPASSABLE)
    &&& (b.1 != a.1 ==> stand_cost(t, (b.0, a.1, b.2)) is None)
    &&& (b.1 == a.1 + 1 ==> t.penalty_at((a.0, a.1 + 1, a.2)) != IMPASSABLE)
    &&& (b.1 == a.1 - 1 ==> t.penalty_at((b.0, a.1, b.2)) != IMPASSABLE)
}

/// Every single move is a legal walking move; in particular no diagonal
/// move squeezes between two impassable blocks.
pub proof fn lemma_step_is_walk_step(t: &Terrain, a: Point, b: Point)
    requires
        step(t, a, b),
    ensures
        walk_step_ok(t, a, b),
{
    let i = choose|i: int| 0 <= i < 8 && (#[trigger] option_at(t, a, i) matches Some(m) && m.0 == b);
    lemma_move_dest_standable(t, a, i);
}

/// Every step of a walk is a legal walking move (see `walk_step_ok`).
pub proof fn lemma_path_steps_walkable(t: &Terrain, pts: Seq<Point>, s: Point, g: Point)
    requires
        is_path(t, pts, s, g),
    ensures
        forall|i: int| 0 <= i < pts.len() - 1 ==> walk_step_ok(t, #[trigger] pts[i], pts[i + 1]),
{
    assert forall|i: int| 0 <= i < pts.len() - 1 implies walk_step_ok(t, #[trigger] pts[i], pts[i + 1]) by {
        lemma_step_is_walk_step(t, pts[i], pts[i + 1]);
    }
}

/// `pts` is a walk of single moves from `s` to `g`.
pub open spec fn is_path(t: &Terrain, pts: Seq<Point>, s: Point, g: Point) -> bool {
    &&& pts.len() >= 1
    &&& pts[0] == s
    &&& pts[pts.len() - 1] == g
    &&& forall|i: int| 0 <= i < pts.len() - 1 ==> step(t, #[trigger] pts[i], pts[i + 1])
}

/// Some walk of single moves leads from `s` to `g`.
pub open spec fn reachable(t: &Terrain, s: Point, g: Point) -> bool {
    exists|pts: Seq<Point>| is_path(t, pts, s, g)
}

/// The positions of `nodes` as integers.
pub open spec fn points_of(nodes: Seq<BlockPos>) -> Seq<Point> {
    nodes.map_values(|b: BlockPos| b.point())
}

/// A path from start to goal, expressed as block positions (feet position).
pub struct Path {
    pub nodes: Vec<BlockPos>,
}

/// Largest number of node expansions a search may be given, so that costs
/// stay within `i32`.
pub const MAX_SEARCH_NODES: usize = 10_000_000;

/// How a bounded search ended.
pub enum SearchOutcome {
    /// A path from start to goal.
    Found(Path),
    /// Every position reachable from the start was expanded; the goal is not
    /// among them.
    Unreachable,
    /// The expansion budget ran out first.
    BudgetExhausted,
}

/// `|a - b|`.
pub open spec fn abs_diff(a: int, b: int) -> int {
    if a >= b { a - b } else { b - a }
}

/// Octile distance on the XZ plane plus vertical distance, scaled to move
/// costs (cardinal 10, diagonal 14).
pub open spec fn octile(a: Point, b: Point) -> int {
    let dx = abs_diff(a.0, b.0);
    let dy = abs_diff(a.1, b.1);
    let dz = abs_diff(a.2, b.2);
    let mn = if dx <= dz { dx } else { dz };
    let mx = if dx <= dz { dz } else { dx };
    mn * COST_DIAGONAL + (mx - mn) * COST_CARDINAL + dy * COST_CARDINAL
}

/// Heuristic using octile distance (accounts for diagonal movement): `min`
/// diagonal steps, `max - min` cardinal steps and `dy` vertical ones.
fn heuristic(a: BlockPos, b: BlockPos) -> (r: i32)
    requires
        in_world(a.point()),
        in_world(b.point()),
    ensures
        r == octile(a.point(), b.point()),
        0 <= r <= 1_440_000_000,
{
    let dx = if a.x >= b.x { a.x - b.x } else { b.x - a.x };
    let dy = if a.y >= b.y { a.y - b.y } else { b.y - a.y };
    let dz = if a.z >= b.z { a.z - b.z } else { b.z - a.z };
    let min_xz = if dx <= dz { dx } else { dz };
    let max_xz = if dx <= dz { dz } else { dx };
    assert(0 <= min_xz <= max_xz <= 60_000_000);
    assert(0 <= dy <= 60_000_000);
    min_xz * COST_DIAGONAL + (max_xz - min_xz) * COST_CARDINAL + dy * COST_CARDINAL
}

fn same_key(a: PosKey, b: PosKey) -> (r: bool)
    ensures
        r == (a == b),
{
    a.0 == b.0 && a.1 == b.1 && a.2 == b.2
}

fn to_key(pos: BlockPos) -> (r: PosKey)
    ensures
        key_point(r) == pos.point(),
{
    (pos.x, pos.y, pos.z)
}

fn from_key(k: PosKey) -> (r: BlockPos)
    ensures
        r.point() == key_point(k),
{
    BlockPos::of(k.0, k.1, k.2)
}

/// A node waiting in the open set: `f = g + h`, `g`, and its position.
pub struct Candidate {
    pub estimated_cost: i32,
    pub real_cost: i32,
    pub pos: PosKey,
}

/// Index of the first candidate with the least estimated cost among the
/// first `n` of `o`.
pub open spec fn min_index_upto(o: Seq<Candidate>, n: int) -> int
    decreases n,
{
    if n <= 1 {
        0
    } else {
        let b = min_index_upto(o, n - 1);
        if o[n - 1].estimated_cost < o[b].estimated_cost { n - 1 } else { b }
    }
}

/// Removes and returns a candidate with the least estimated cost, the first
/// such on ties (the open set is a min-priority queue on `estimated_cost`).
fn pop_min(open: &mut Vec<Candidate>) -> (r: Option<Candidate>)
    ensures
        old(open)@.len() == 0 ==> r is None && final(open)@ == old(open)@,
        old(open)@.len() > 0 ==> r == Some(old(open)@[min_index_upto(old(open)@, old(open)@.len() as int)])
            && final(open)@ == old(open)@.remove(min_index_upto(old(open)@, old(open)@.len() as int)),
        old(open)@.len() > 0 ==> exists|i: int| 0 <= i < old(open)@.len() && r == Some(old(open)@[i])
            && final(open)@ == old(open)@.remove(i)
            && forall|j: int| 0 <= j < old(open)@.len() ==> old(open)@[i].estimated_cost <= #[trigger] old(open)@[j].estimated_cost,
{
    if open.len() == 0 {
        return None;
    }
    let mut best: usize = 0;
    let mut i: usize = 1;
    while i < open.len()
        invariant
            0 <= best < i <= open@.len(),
            best == min_index_upto(open@, i as int),
            forall|j: int| 0 <= j < i ==> open@[best as int].estimated_cost <= #[trigger] open@[j].estimated_cost,
        decreases open@.len() - i,
    {
        if open[i].estimated_cost < open[best].estimated_cost {
            best = i;
        }
        i = i + 1;
    }
    let c = open.remove(best);
    Some(c)
}


/// The best-known costs `g` and predecessors `p` form a tree rooted at
/// the start `sk`: costs are non-negative, every other costed node has a
/// predecessor, and each predecessor is one move away and strictly cheaper.
pub open spec fn tree_ok(t: &Terrain, g: Map<PosKey, i32>, p: Map<PosKey, PosKey>, sk: PosKey) -> bool {
    &&& g.contains_key(sk) && g[sk] == 0
    &&& forall|k: PosKey| #[trigger] g.contains_key(k) ==> g[k] >= 0 && (k == sk || p.contains_key(k))
    &&& forall|k: PosKey| #[trigger] p.contains_key(k) ==> {
        &&& g.contains_key(k) && g.contains_key(p[k]) && g[p[k]] < g[k]
        &&& step(t, key_point(p[k]), key_point(k))
    }
}

/// Every costed node is the start or a position a mob can stand at.
pub open spec fn keys_ok(t: &Terrain, g: Map<PosKey, i32>, sk: PosKey) -> bool {
    forall|k: PosKey| #[trigger] g.contains_key(k) ==> k == sk || stand_cost(t, key_point(k)) is Some
}

/// Every candidate move out of `k` leads to a costed node.
pub open spec fn closed(t: &Terrain, g: Map<PosKey, i32>, k: PosKey) -> bool {
    forall|i: int| 0 <= i < 8 && (#[trigger] option_at(t, key_point(k), i)) is Some ==>
        g.contains_key(point_key((option_at(t, key_point(k), i)->0).0))
}

/// Some open candidate carries node `k` at its best-known cost.
spec fn witnessed(g: Map<PosKey, i32>, open: Seq<Candidate>, k: PosKey) -> bool {
    exists|j: int| 0 <= j < open.len() && (#[trigger] open[j]).pos == k && open[j].real_cost == g[k]
}

/// The search state after `n` expansions (node `exempt`, if any, is being
/// expanded): the tree, where its nodes lie, cost bounds, and that every
/// costed node is either still open at its cost or has had all its moves
/// explored (the goal never has).
spec fn search_inv(
    t: &Terrain,
    g: Map<PosKey, i32>,
    p: Map<PosKey, PosKey>,
    open: Seq<Candidate>,
    sk: PosKey,
    gk: PosKey,
    n: int,
    exempt: Option<PosKey>,
) -> bool {
    &&& tree_ok(t, g, p, sk)
    &&& keys_ok(t, g, sk)
    &&& forall|k: PosKey| #[trigger] g.contains_key(k) ==> g[k] <= 40 * n
    &&& forall|j: int| 0 <= j < open.len() ==> {
        &&& g.contains_key((#[trigger] open[j]).pos)
        &&& open[j].real_cost >= g[open[j].pos]
        &&& open[j].real_cost <= 40 * n
    }
    &&& forall|k: PosKey| #[trigger] g.contains_key(k) ==> witnessed(g, open, k) || (k != gk && closed(t, g, k))
        || exempt == Some(k)
}

/// When no costed node is open and none is the goal, the costed nodes hold
/// every position reachable from the start, so the goal is unreachable.
proof fn lemma_closed_unreachable(t: &Terrain, g: Map<PosKey, i32>, sk: PosKey, gk: PosKey)
    requires
        t.fits_world(),
        in_world(key_point(sk)),
        g.contains_key(sk),
        forall|k: PosKey| #[trigger] g.contains_key(k) ==> k != gk && closed(t, g, k),
    ensures
        !reachable(t, key_point(sk), key_point(gk)),
{
    if reachable(t, key_point(sk), key_point(gk)) {
        let pts = choose|pts: Seq<Point>| is_path(t, pts, key_point(sk), key_point(gk));
        lemma_walk_stays_costed(t, g, pts, sk, gk, pts.len() - 1);
        assert(point_key(pts[pts.len() - 1]) == gk);
    }
}

/// Each position of a walk from the start lies in the world and is costed,
/// when every costed node is closed.
proof fn lemma_walk_stays_costed(t: &Terrain, g: Map<PosKey, i32>, pts: Seq<Point>, sk: PosKey, gk: PosKey, i: int)
    requires
        t.fits_world(),
        in_world(key_point(sk)),
        g.contains_key(sk),
        forall|k: PosKey| #[trigger] g.contains_key(k) ==> k != gk && closed(t, g, k),
        is_path(t, pts, key_point(sk), key_point(gk)),
        0 <= i < pts.len(),
    ensures
        in_world(pts[i]),
        g.contains_key(point_key(pts[i])),
    decreases i,
{
    if i > 0 {
        lemma_walk_stays_costed(t, g, pts, sk, gk, i - 1);
        assert(step(t, pts[i - 1], pts[(i - 1) + 1]));
        let d = choose|d: int| 0 <= d < 8 && (#[trigger] option_at(t, pts[i - 1], d) matches Some(m) && m.0 == pts[i]);
        let k = point_key(pts[i - 1]);
        assert(key_point(k) == pts[i - 1]);
        assert(closed(t, g, k));
        assert(option_at(t, key_point(k), d) is Some);
        lemma_move_dest_standable(t, pts[i - 1], d);
        lemma_standable_in_world(t, pts[i]);
    } else {
        assert(point_key(pts[0]) == sk);
    }
}

/// Walks the predecessor links back from `target` to the start and returns
/// the nodes from start to target.
#[verifier::rlimit(40)]
fn reconstruct_path(
    came_from: &FxHashMap<PosKey, PosKey>,
    target: PosKey,
    start: PosKey,
    Ghost(t): Ghost<&Terrain>,
    Ghost(g): Ghost<Map<PosKey, i32>>,
) -> (r: Path)
    requires
        tree_ok(t, g, came_from@, start),
        g.contains_key(target),
    ensures
        is_path(t, points_of(r.nodes@), key_point(start), key_point(target)),
        points_of(r.nodes@).no_duplicates(),
{
    let mut current = target;
    let mut rev: Vec<BlockPos> = Vec::new();
    rev.push(from_key(current));
    let ghost mut costs: Seq<int> = seq![g[current] as int];
    assert(point_key(rev@[0].point()) == current);
    while !same_key(current, start)
        invariant
            tree_ok(t, g, came_from@, start),
            g.contains_key(current),
            rev@.len() >= 1,
            rev@[0].point() == key_point(target),
            rev@[rev@.len() - 1].point() == key_point(current),
            costs.len() == rev@.len(),
            forall|i: int| 0 <= i < rev@.len() ==> #[trigger] costs[i] == g[point_key(rev@[i].point())],
            costs[costs.len() - 1] == g[current],
            forall|i: int, j: int| 0 <= i < j < costs.len() ==> #[trigger] costs[i] > #[trigger] costs[j],
            forall|i: int| 0 <= i < rev@.len() - 1 ==> step(t, #[trigger] rev@[i + 1].point(), rev@[i].point()),
        decreases g[current] as int,
    {
        let next = match pos_map_get(came_from, current) {
            Some(n) => n,
            None => {
                assert(false);
                start
            },
        };
        let ghost before = rev@;
        rev.push(from_key(next));
        assert forall|i: int| 0 <= i < rev@.len() - 1 implies step(t, #[trigger] rev@[i + 1].point(), rev@[i].point()) by {
            if i < before.len() - 1 {
                assert(rev@[i] == before[i] && rev@[i + 1] == before[i + 1]);
            }
        }
        proof {
            assert(came_from@.contains_key(current));
            assert(g[next] < g[current]);
            assert(point_key(rev@[rev@.len() - 1].point()) == next);
            let c0 = costs;
            costs = costs.push(g[next] as int);
            assert forall|i: int| 0 <= i < rev@.len() implies #[trigger] costs[i] == g[point_key(rev@[i].point())] by {
                if i < before.len() {
                    assert(rev@[i] == before[i]);
                    assert(costs[i] == c0[i]);
                }
            }
            assert forall|i: int, j: int| 0 <= i < j < costs.len() implies #[trigger] costs[i] > #[trigger] costs[j] by {
                assert(costs[i] == c0[i]);
                if j < c0.len() {
                    assert(costs[j] == c0[j]);
                } else {
                    assert(c0[i] >= c0[c0.len() - 1]);
                }
            }
        }
        current = next;
    }
    let mut nodes: Vec<BlockPos> = Vec::new();
    let mut j: usize = rev.len();
    while j > 0
        invariant
            j <= rev@.len(),
            rev@.len() >= 1,
            nodes@.len() == rev@.len() - j,
            forall|i: int| 0 <= i < nodes@.len() ==> #[trigger] nodes@[i] == rev@[rev@.len() - 1 - i],
        decreases j,
    {
        nodes.push(rev[j - 1]);
        j = j - 1;
    }
    let ghost pts = points_of(nodes@);
    assert forall|i: int| 0 <= i < pts.len() - 1 implies step(t, #[trigger] pts[i], pts[i + 1]) by {
        let a = rev@.len() - 1 - i;
        assert(nodes@[i] == rev@[a]);
        assert(nodes@[i + 1] == rev@[a - 1]);
        assert(step(t, rev@[(a - 1) + 1].point(), rev@[a - 1].point()));
    }
    assert forall|i: int, j: int| 0 <= i < pts.len() && 0 <= j < pts.len() && i != j implies pts[i] != pts[j] by {
        let a = rev@.len() - 1 - i;
        let b = rev@.len() - 1 - j;
        assert(nodes@[i] == rev@[a]);
        assert(nodes@[j] == rev@[b]);
        assert(costs[a] == g[point_key(rev@[a].point())]);
        assert(costs[b] == g[point_key(rev@[b].point())]);
        if a < b {
            assert(costs[a] > costs[b]);
        } else {
            assert(costs[b] > costs[a]);
        }
    }
    Path { nodes }
}


/// `search_inv` carries over to one more expansion.
proof fn lemma_inv_more_expansions(
    t: &Terrain,
    g: Map<PosKey, i32>,
    p: Map<PosKey, PosKey>,
    open: Seq<Candidate>,
    sk: PosKey,
    gk: PosKey,
    n: int,
    exempt: Option<PosKey>,
)
    requires
        search_inv(t, g, p, open, sk, gk, n, exempt),
        n >= 0,
    ensures
        search_inv(t, g, p, open, sk, gk, n + 1, exempt),
{
}

/// Recording a cheaper route to `nk` through `pos` (the node being
/// expanded) keeps the search invariant.
proof fn lemma_relax_keeps_inv(
    world: &Terrain,
    g0: Map<PosKey, i32>,
    p0: Map<PosKey, PosKey>,
    o0: Seq<Candidate>,
    sk: PosKey,
    gk: PosKey,
    n: int,
    pos: PosKey,
    real_cost: i32,
    nk: PosKey,
    tg: i32,
    est: i32,
)
    requires
        search_inv(world, g0, p0, o0, sk, gk, n, Some(pos)),
        g0.contains_key(pos),
        g0[pos] == real_cost,
        real_cost <= 40 * (n - 1),
        cost_ok(tg - real_cost),
        !g0.contains_key(nk) || tg < g0[nk],
        step(world, key_point(pos), key_point(nk)),
        stand_cost(world, key_point(nk)) is Some,
    ensures
        search_inv(world, g0.insert(nk, tg), p0.insert(nk, pos), o0.push(Candidate { estimated_cost: est, real_cost: tg, pos: nk }),
            sk, gk, n, Some(pos)),
{
    assert(nk != sk);
    assert(nk != pos);
    let g1 = g0.insert(nk, tg);
    let p1 = p0.insert(nk, pos);
    let o1 = o0.push(Candidate { estimated_cost: est, real_cost: tg, pos: nk });
    assert forall|k: PosKey| #[trigger] p1.contains_key(k) implies {
        &&& g1.contains_key(k) && g1.contains_key(p1[k]) && g1[p1[k]] < g1[k]
        &&& step(world, key_point(p1[k]), key_point(k))
    } by {
        if k != nk {
            assert(p0.contains_key(k));
        }
    }
    assert forall|k: PosKey| #[trigger] g1.contains_key(k) implies g1[k] >= 0 && (k == sk || p1.contains_key(k)) by {
        if k != nk {
            assert(g0.contains_key(k));
        }
    }
    assert(tree_ok(world, g1, p1, sk));
    assert forall|k: PosKey| #[trigger] g1.contains_key(k) implies k == sk || stand_cost(world, key_point(k)) is Some by {
        if k != nk {
            assert(g0.contains_key(k));
        }
    }
    assert forall|k: PosKey| #[trigger] g1.contains_key(k) implies g1[k] <= 40 * n by {
        if k != nk {
            assert(g0.contains_key(k));
        }
    }
    assert forall|jj: int| 0 <= jj < o1.len() implies {
        &&& g1.contains_key((#[trigger] o1[jj]).pos)
        &&& o1[jj].real_cost >= g1[o1[jj].pos]
        &&& o1[jj].real_cost <= 40 * n
    } by {
        if jj < o0.len() {
            assert(o1[jj] == o0[jj]);
            assert(g0.contains_key(o0[jj].pos));
        }
    }
    assert forall|k: PosKey| #[trigger] g1.contains_key(k) implies witnessed(g1, o1, k)
        || (k != gk && closed(world, g1, k)) || Some(pos) == Some(k) by {
        if k == nk {
            assert(o1[o0.len() as int].pos == k);
        } else {
            assert(g0.contains_key(k));
            if witnessed(g0, o0, k) {
                let w = choose|w: int| 0 <= w < o0.len() && (#[trigger] o0[w]).pos == k && o0[w].real_cost == g0[k];
                assert(o1[w] == o0[w]);
            } else if k != gk && closed(world, g0, k) {
                assert forall|i: int| 0 <= i < 8 && (#[trigger] option_at(world, key_point(k), i)) is Some implies
                    g1.contains_key(point_key((option_at(world, key_point(k), i)->0).0)) by {
                    assert(g0.contains_key(point_key((option_at(world, key_point(k), i)->0).0)));
                }
            }
        }
    }
    assert(search_inv(world, g1, p1, o1, sk, gk, n, Some(pos)));
}

/// The best-known costs and open set after relaxing move `m` (destination
/// key, move cost) out of `pos` (costed at `real_cost`): when the total cost
/// beats the destination's best-known cost it is recorded and the
/// destination is opened with estimate cost + octile distance to `goal`.
pub open spec fn relax_one(
    prev: (Map<PosKey, i32>, Seq<Candidate>),
    pos: PosKey,
    real_cost: i32,
    goal: Point,
    m: (PosKey, i32),
) -> (Map<PosKey, i32>, Seq<Candidate>) {
    let nk = m.0;
    let t = (real_cost + m.1) as i32;
    if !prev.0.contains_key(nk) || t < prev.0[nk] {
        (prev.0.insert(nk, t), prev.1.push(Candidate {
            estimated_cost: (t + octile(key_point(nk), goal)) as i32,
            real_cost: t,
            pos: nk,
        }))
    } else {
        prev
    }
}

/// The best-known costs and open set after relaxing the first `j` moves of
/// `ms` out of `pos`, in order.
#[verifier::opaque]
pub open spec fn relax(
    g: Map<PosKey, i32>,
    o: Seq<Candidate>,
    pos: PosKey,
    real_cost: i32,
    goal: Point,
    ms: Seq<(PosKey, i32)>,
    j: int,
) -> (Map<PosKey, i32>, Seq<Candidate>)
    decreases j,
{
    if j <= 0 {
        (g, o)
    } else {
        relax_one(relax(g, o, pos, real_cost, goal, ms, j - 1), pos, real_cost, goal, ms[j - 1])
    }
}

/// Relaxing no moves changes nothing; relaxing one more move is one more
/// `relax_one`.
proof fn lemma_relax_unfold(
    g: Map<PosKey, i32>,
    o: Seq<Candidate>,
    pos: PosKey,
    real_cost: i32,
    goal: Point,
    ms: Seq<(PosKey, i32)>,
    j: int,
)
    requires
        0 <= j,
    ensures
        relax(g, o, pos, real_cost, goal, ms, 0) == (g, o),
        relax(g, o, pos, real_cost, goal, ms, j + 1)
            == relax_one(relax(g, o, pos, real_cost, goal, ms, j), pos, real_cost, goal, ms[j]),
{
    reveal_with_fuel(relax, 2);
}

/// Expands `pos` (costed at `real_cost`, not the goal): every neighbor
/// whose best-known cost improves gets `pos` as predecessor and joins the
/// open set.
#[verifier::rlimit(100)]
fn expand(
    world: &Terrain,
    g: &mut FxHashMap<PosKey, i32>,
    came_from: &mut FxHashMap<PosKey, PosKey>,
    open: &mut Vec<Candidate>,
    pos: PosKey,
    real_cost: i32,
    goal: BlockPos,
    Ghost(sk): Ghost<PosKey>,
    Ghost(n): Ghost<int>,
)
    requires
        world.fits_world(),
        in_world(goal.point()),
        in_world(key_point(sk)),
        1 <= n <= MAX_SEARCH_NODES,
        search_inv(world, old(g)@, old(came_from)@, old(open)@, sk, point_key(goal.point()), n, Some(pos)),
        old(g)@.contains_key(pos),
        old(g)@[pos] == real_cost,
        real_cost <= 40 * (n - 1),
        pos != point_key(goal.point()),
    ensures
        search_inv(world, final(g)@, final(came_from)@, final(open)@, sk, point_key(goal.point()), n, None),
        ({
            let ms = moves_upto(world, key_point(pos), 8);
            let s = relax(old(g)@, old(open)@, pos, real_cost, goal.point(), ms, ms.len() as int);
            final(g)@ == s.0 && final(open)@ == s.1
        }),
{
    let ghost g_start = g@;
    let ghost o_start = open@;
    let ghost gk = point_key(goal.point());
    proof {
        if pos != sk {
            lemma_standable_in_world(world, key_point(pos));
        }
    }
    let current = from_key(pos);
    let nbrs = neighbors(world, current);
    let len = moves_len(&nbrs);
    proof {
        lemma_relax_unfold(g_start, o_start, pos, real_cost, goal.point(), moves_of(nbrs), 0);
    }
    let mut j: usize = 0;
    while j < len
        invariant
            world.fits_world(),
            in_world(goal.point()),
            in_world(key_point(sk)),
            in_world(current.point()),
            current.point() == key_point(pos),
            1 <= n <= MAX_SEARCH_NODES,
            gk == point_key(goal.point()),
            pos != gk,
            real_cost <= 40 * (n - 1),
            len == moves_of(nbrs).len(),
            j <= len,
            search_inv(world, g@, came_from@, open@, sk, gk, n, Some(pos)),
            g@.contains_key(pos),
            g@[pos] == real_cost,
            forall|jj: int| 0 <= jj < j ==> g@.contains_key(#[trigger] moves_of(nbrs)[jj].0),
            forall|jj: int| 0 <= jj < moves_of(nbrs).len() ==> #[trigger] listed_move(world, current.point(), moves_of(nbrs), jj),
            forall|jj: int| 0 <= jj < moves_of(nbrs).len() ==> cost_ok(#[trigger] moves_of(nbrs)[jj].1 as int),
            moves_of(nbrs) == moves_upto(world, key_point(pos), 8),
            (g@, open@) == relax(g_start, o_start, pos, real_cost, goal.point(), moves_of(nbrs), j as int),
        decreases len - j,
    {
        let ghost g_before = g@;
        let ghost o_before = open@;
        proof {
            lemma_relax_unfold(g_start, o_start, pos, real_cost, goal.point(), moves_of(nbrs), j as int);
        }
        let (nk, move_cost) = moves_get(&nbrs, j);
        proof {
            assert(listed_move(world, current.point(), moves_of(nbrs), j as int));
            assert(cost_ok(moves_of(nbrs)[j as int].1 as int));
            let i = choose|i: int| 0 <= i < 8 && #[trigger] option_at(world, current.point(), i)
                == Some((key_point(nk), move_cost as int));
            lemma_move_dest_standable(world, current.point(), i);
            lemma_standable_in_world(world, key_point(nk));
            assert(step(world, key_point(pos), key_point(nk)));
        }
        let tentative_g = real_cost + move_cost;
        let better = match pos_map_get(g, nk) {
            None => true,
            Some(best) => tentative_g < best,
        };
        if better {
            let ghost g0 = g@;
            let ghost p0 = came_from@;
            let ghost o0 = open@;
            pos_map_insert(g, nk, tentative_g);
            pos_map_insert(came_from, nk, pos);
            let h = heuristic(from_key(nk), goal);
            let est = tentative_g + h;
            open.push(Candidate { estimated_cost: est, real_cost: tentative_g, pos: nk });
            proof {
                lemma_relax_keeps_inv(world, g0, p0, o0, sk, gk, n, pos, real_cost, nk, tentative_g, est);
                assert(g@ == g0.insert(nk, tentative_g));
                assert(open@ == o0.push(Candidate { estimated_cost: est, real_cost: tentative_g, pos: nk }));
            }
        }
        assert((g@, open@) == relax_one((g_before, o_before), pos, real_cost, goal.point(), (nk, move_cost)));
        j = j + 1;
    }
    proof {
        let g1 = g@;
        assert forall|i: int| 0 <= i < 8 && (#[trigger] option_at(world, key_point(pos), i)) is Some implies
            g1.contains_key(point_key((option_at(world, key_point(pos), i)->0).0)) by {
            assert(option_at(world, current.point(), i) is Some);
            assert(move_present(world, current.point(), moves_of(nbrs), i));
            let jj = choose|jj: int| 0 <= jj < moves_of(nbrs).len() && option_at(world, current.point(), i)
                == Some((key_point(moves_of(nbrs)[jj].0), #[trigger] moves_of(nbrs)[jj].1 as int));
            assert(g1.contains_key(moves_of(nbrs)[jj].0));
            assert(point_key(key_point(moves_of(nbrs)[jj].0)) == moves_of(nbrs)[jj].0);
        }
        assert(closed(world, g1, pos));
    }
}


/// A node stays witnessed when a candidate other than its witness leaves
/// the open set.
proof fn lemma_witness_survives_remove(g: Map<PosKey, i32>, o: Seq<Candidate>, i: int, k: PosKey)
    requires
        0 <= i < o.len(),
        witnessed(g, o, k),
        o[i].pos != k || o[i].real_cost != g[k],
    ensures
        witnessed(g, o.remove(i), k),
{
    let w = choose|w: int| 0 <= w < o.len() && (#[trigger] o[w]).pos == k && o[w].real_cost == g[k];
    if w < i {
        assert(o.remove(i)[w] == o[w]);
    } else {
        assert(w != i);
        assert(o.remove(i)[w - 1] == o[w]);
    }
}

/// Taking candidate `i` out of the open set keeps the invariant, with the
/// popped node exempt when it was popped at its best-known cost.
proof fn lemma_pop_keeps_inv(
    t: &Terrain,
    g: Map<PosKey, i32>,
    p: Map<PosKey, PosKey>,
    o: Seq<Candidate>,
    sk: PosKey,
    gk: PosKey,
    n: int,
    i: int,
)
    requires
        search_inv(t, g, p, o, sk, gk, n, None),
        0 <= i < o.len(),
    ensures
        o[i].real_cost > g[o[i].pos] ==> search_inv(t, g, p, o.remove(i), sk, gk, n, None),
        search_inv(t, g, p, o.remove(i), sk, gk, n, Some(o[i].pos)),
{
    let o1 = o.remove(i);
    assert(g.contains_key(o[i].pos));
    assert forall|j: int| 0 <= j < o1.len() implies {
        &&& g.contains_key((#[trigger] o1[j]).pos)
        &&& o1[j].real_cost >= g[o1[j].pos]
        &&& o1[j].real_cost <= 40 * n
    } by {
        if j < i {
            assert(o1[j] == o[j]);
        } else {
            assert(o1[j] == o[j + 1]);
        }
    }
    assert forall|k: PosKey| #[trigger] g.contains_key(k) implies witnessed(g, o1, k) || (k != gk && closed(t, g, k))
        || Some(o[i].pos) == Some(k) by {
        if witnessed(g, o, k) && k != o[i].pos {
            lemma_witness_survives_remove(g, o, i, k);
        }
    }
    if o[i].real_cost > g[o[i].pos] {
        assert forall|k: PosKey| #[trigger] g.contains_key(k) implies witnessed(g, o1, k) || (k != gk && closed(t, g, k)) by {
            if witnessed(g, o, k) {
                lemma_witness_survives_remove(g, o, i, k);
            }
        }
    }
}

/// How a bounded search ends, without the path.
#[derive(Clone, Copy, Debug, PartialEq, Eq, Structural)]
pub enum SearchKind {
    Found,
    Unreachable,
    BudgetExhausted,
}

/// The kind of a search outcome.
pub open spec fn kind_of(r: SearchOutcome) -> SearchKind {
    match r {
        SearchOutcome::Found(_) => SearchKind::Found,
        SearchOutcome::Unreachable => SearchKind::Unreachable,
        SearchOutcome::BudgetExhausted => SearchKind::BudgetExhausted,
    }
}

/// The search loop from best-known costs `g`, open set `o` and `n` expansions
/// done, with budget `max`: an empty open set means unreachable; a spent
/// budget, exhausted; otherwise the first candidate of least estimate is
/// taken out and counted as an expansion: the goal is found, a candidate
/// costlier than its node's best-known cost is skipped, and any other is
/// expanded (see `relax`).
pub open spec fn search_run(t: &Terrain, gk: PosKey, goal: Point, g: Map<PosKey, i32>, o: Seq<Candidate>, n: int, max: int) -> SearchKind
    decreases max - n,
{
    if o.len() == 0 {
        SearchKind::Unreachable
    } else if n >= max {
        SearchKind::BudgetExhausted
    } else {
        let i = min_index_upto(o, o.len() as int);
        let c = o[i];
        let rest = o.remove(i);
        if c.pos == gk {
            SearchKind::Found
        } else if c.real_cost > (if g.contains_key(c.pos) { g[c.pos] } else { i32::MAX }) {
            search_run(t, gk, goal, g, rest, n + 1, max)
        } else {
            let ms = moves_upto(t, key_point(c.pos), 8);
            let s = relax(g, rest, c.pos, c.real_cost, goal, ms, ms.len() as int);
            search_run(t, gk, goal, s.0, s.1, n + 1, max)
        }
    }
}

/// How weighted A* from `start` to `goal` with `max` expansions ends: found
/// at once when they are the same block; otherwise the search loop from the
/// start, costed 0 and open with its octile distance to the goal.
pub open spec fn search_model(t: &Terrain, start: BlockPos, goal: BlockPos, max: int) -> SearchKind {
    let sk = point_key(start.point());
    let gk = point_key(goal.point());
    if sk == gk {
        SearchKind::Found
    } else {
        search_run(t, gk, goal.point(), Map::empty().insert(sk, 0i32),
            seq![Candidate { estimated_cost: octile(start.point(), goal.point()) as i32, real_cost: 0, pos: sk }], 0, max)
    }
}

/// Weighted A* from `start` to `goal` (feet positions of a one-block-tall
/// land mob), expanding at most `max_nodes` nodes.
pub fn search(world: &Terrain, start: BlockPos, goal: BlockPos, max_nodes: usize) -> (r: SearchOutcome)
    requires
        start != goal ==> world.fits_world(),
        start != goal ==> in_world(start.point()) && in_world(goal.point()),
        start != goal ==> max_nodes <= MAX_SEARCH_NODES,
    ensures
        kind_of(r) == search_model(world, start, goal, max_nodes as int),
        max_nodes == 0 && start != goal ==> r is BudgetExhausted,
        r matches SearchOutcome::Found(p) ==> points_of(p.nodes@).no_duplicates(),
        start == goal ==> (r matches SearchOutcome::Found(p) && p.nodes@ == seq![goal]),
        r matches SearchOutcome::Found(p) ==> is_path(world, points_of(p.nodes@), start.point(), goal.point()),
        r is Unreachable ==> !reachable(world, start.point(), goal.point()),
        r is BudgetExhausted ==> start != goal,
{
    let start_key = to_key(start);
    let goal_key = to_key(goal);
    assert(point_key(goal.point()) == goal_key);
    if same_key(start_key, goal_key) {
        let nodes = vec![goal];
        assert(points_of(nodes@)[0] == goal.point());
        return SearchOutcome::Found(Path { nodes });
    }
    let mut open: Vec<Candidate> = Vec::new();
    let mut g_score: FxHashMap<PosKey, i32> = pos_map_new();
    let mut came_from: FxHashMap<PosKey, PosKey> = pos_map_new();
    pos_map_insert(&mut g_score, start_key, 0);
    let h = heuristic(start, goal);
    open.push(Candidate { estimated_cost: h, real_cost: 0, pos: start_key });
    proof {
        assert(g_score@ =~= Map::<PosKey, i32>::empty().insert(start_key, 0i32));
        assert(open@ =~= seq![Candidate { estimated_cost: octile(start.point(), goal.point()) as i32, real_cost: 0, pos: start_key }]);
        assert(point_key(start.point()) == start_key);
        assert(search_run(world, goal_key, goal.point(), g_score@, open@, 0, max_nodes as int)
            == search_model(world, start, goal, max_nodes as int));
    }
    proof {
        let g = g_score@;
        assert(open@[0].pos == start_key);
        assert forall|k: PosKey| #[trigger] g.contains_key(k) implies witnessed(g, open@, k) || (k != goal_key && closed(world, g, k))
            || None::<PosKey> == Some(k) by {
            assert(k == start_key);
            assert(open@[0].pos == k && open@[0].real_cost == g[k]);
        }
    }
    let mut iterations: usize = 0;
    loop
        invariant
            world.fits_world(),
            in_world(start.point()),
            in_world(goal.point()),
            max_nodes <= MAX_SEARCH_NODES,
            key_point(start_key) == start.point(),
            goal_key == point_key(goal.point()),
            key_point(goal_key) == goal.point(),
            start_key != goal_key,
            iterations <= max_nodes,
            search_inv(world, g_score@, came_from@, open@, start_key, goal_key, iterations as int, None),
            search_run(world, goal_key, goal.point(), g_score@, open@, iterations as int, max_nodes as int)
                == search_model(world, start, goal, max_nodes as int),
            max_nodes == 0 ==> search_model(world, start, goal, max_nodes as int) == SearchKind::BudgetExhausted,
            start != goal,
        decreases max_nodes - iterations,
    {
        let ghost g0 = g_score@;
        let ghost o0 = open@;
        let ghost n0 = iterations as int;
        let popped = pop_min(&mut open);
        let c = match popped {
            None => {
                proof {
                    assert forall|k: PosKey| #[trigger] g0.contains_key(k) implies k != goal_key && closed(world, g0, k) by {
                        if witnessed(g0, o0, k) {
                            let w = choose|w: int| 0 <= w < o0.len() && (#[trigger] o0[w]).pos == k && o0[w].real_cost == g0[k];
                        }
                    }
                    lemma_closed_unreachable(world, g0, start_key, goal_key);
                }
                return SearchOutcome::Unreachable;
            },
            Some(c) => c,
        };
        let ghost pi = choose|i: int| 0 <= i < o0.len() && popped == Some(o0[i]) && open@ == o0.remove(i)
            && forall|j: int| 0 <= j < o0.len() ==> o0[i].estimated_cost <= #[trigger] o0[j].estimated_cost;
        proof {
            lemma_pop_keeps_inv(world, g0, came_from@, o0, start_key, goal_key, iterations as int, pi);
        }
        if iterations >= max_nodes {
            return SearchOutcome::BudgetExhausted;
        }
        proof {
            let mi = min_index_upto(o0, o0.len() as int);
            assert(c == o0[mi] && open@ == o0.remove(mi));
        }
        proof {
            lemma_inv_more_expansions(world, g0, came_from@, open@, start_key, goal_key, iterations as int, Some(c.pos));
            if c.real_cost > g0[c.pos] {
                lemma_inv_more_expansions(world, g0, came_from@, open@, start_key, goal_key, iterations as int, None);
            }
        }
        iterations = iterations + 1;

        if same_key(c.pos, goal_key) {
            let path = reconstruct_path(&came_from, c.pos, start_key, Ghost(world), Ghost(g_score@));
            return SearchOutcome::Found(path);
        }

        let best = match pos_map_get(&g_score, c.pos) {
            Some(b) => b,
            None => {
                assert(false);
                i32::MAX
            },
        };
        if c.real_cost > best {
            continue;
        }
        expand(world, &mut g_score, &mut came_from, &mut open, c.pos, c.real_cost, goal, Ghost(start_key), Ghost(iterations as int));
        proof {
            assert(search_run(world, goal_key, goal.point(), g0, o0, n0, max_nodes as int)
                == search_run(world, goal_key, goal.point(), g_score@, open@, iterations as int, max_nodes as int));
        }
    }
}

/// Find a path for a one-block-tall land mob using weighted A*.
///
/// `start` and `goal` are the block positions of the mob's feet.
/// Returns `None` if no path is found within `max_nodes` node expansions.
pub fn find_path(world: &Terrain, start: BlockPos, goal: BlockPos, max_nodes: usize) -> (r: Option<Path>)
    requires
        start != goal ==> world.fits_world(),
        start != goal ==> in_world(start.point()) && in_world(goal.point()),
        start != goal ==> max_nodes <= MAX_SEARCH_NODES,
    ensures
        r is Some <==> search_model(world, start, goal, max_nodes as int) == SearchKind::Found,
        max_nodes == 0 && start != goal ==> r is None,
        r matches Some(p) ==> points_of(p.nodes@).no_duplicates(),
        r matches Some(p) ==> forall|i: int| 0 <= i < p.nodes@.len() - 1
            ==> walk_step_ok(world, #[trigger] points_of(p.nodes@)[i], points_of(p.nodes@)[i + 1]),
        start == goal ==> (r matches Some(p) && p.nodes@ == seq![goal]),
        r matches Some(p) ==> is_path(world, points_of(p.nodes@), start.point(), goal.point()),
        r is None ==> start != goal,
        !reachable(world, start.point(), goal.point()) ==> r is None,
{
    match search(world, start, goal, max_nodes) {
        SearchOutcome::Found(p) => {
            proof {
                assert(reachable(world, start.point(), goal.point()));
                lemma_path_steps_walkable(world, points_of(p.nodes@), start.point(), goal.point());
            }
            Some(p)
        },
        _ => None,
    }
}


/// The heuristic is symmetric, zero exactly between equal positions, and
/// never less than 10 per block of vertical or horizontal distance along
/// the longer horizontal axis.
pub proof fn lemma_octile_laws(a: Point, b: Point)
    ensures
        octile(a, b) == octile(b, a),
        octile(a, b) >= 0,
        octile(a, b) == 0 <==> a == b,
        octile(a, b) >= 10 * abs_diff(a.0, b.0) && octile(a, b) >= 10 * abs_diff(a.2, b.2),
{
}

} // verus!
