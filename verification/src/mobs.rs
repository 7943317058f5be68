//! Mob kinds and profiles, and the decisions a pig makes each tick.

use vstd::prelude::*;
use crate::astar::{find_path, MAX_SEARCH_NODES};
use crate::world::{in_world, BlockPos, Terrain};

verus! {

/// Marker for baby entities; physics uses baby-scaled properties for them.
#[derive(Clone, Copy, Debug, Default)]
pub struct Baby;

/// The kind of a mob, by its entity type's protocol id.
#[derive(Clone, Copy, Debug, PartialEq, Eq, Structural)]
pub struct MobKind(pub u32);

/// How the physics systems treat a mob.
#[derive(Clone, Copy, Debug, PartialEq, Eq, Structural)]
pub enum MobProfile {
    Ground,
    CollisionOnly,
    GravityNoDrag,
}

/// Physics markers a spawned mob carries.
#[derive(Clone, Copy, Debug, PartialEq, Eq, Structural)]
pub struct MobMarkers {
    pub has_gravity: bool,
    pub has_collisions: bool,
    pub has_water_drag: bool,
}

/// The markers a mob of this profile is spawned with: ground mobs get
/// gravity, collisions and water drag; collision-only mobs get collisions;
/// gravity-without-drag mobs get gravity and collisions.
pub fn profile_markers(profile: MobProfile) -> (r: MobMarkers)
    ensures
        r.has_collisions,
        r.has_gravity == (profile != MobProfile::CollisionOnly),
        r.has_water_drag == (profile == MobProfile::Ground),
{
    match profile {
        MobProfile::Ground => MobMarkers { has_gravity: true, has_collisions: true, has_water_drag: true },
        MobProfile::CollisionOnly => MobMarkers { has_gravity: false, has_collisions: true, has_water_drag: false },
        MobProfile::GravityNoDrag => MobMarkers { has_gravity: true, has_collisions: true, has_water_drag: false },
    }
}

/// Recompute the path every this many ticks.
pub const REPATH_INTERVAL: u32 = 40;

/// Most A* node expansions per repath.
pub const MAX_PATH_NODES: usize = 100;

/// Per-pig AI state: cached path, next waypoint and repath cooldown.
pub struct PigAI {
    pub path: Vec<BlockPos>,
    pub waypoint: usize,
    pub repath_cooldown: u32,
}

impl PigAI {
    /// No path, waypoint 0, no cooldown.
    pub fn new() -> (r: PigAI)
        ensures
            r.path@.len() == 0,
            r.waypoint == 0,
            r.repath_cooldown == 0,
    {
        PigAI { path: Vec::new(), waypoint: 0, repath_cooldown: 0 }
    }
}

/// What a pig does this tick.
#[derive(Clone, Copy, Debug, PartialEq, Eq, Structural)]
pub enum PigAction {
    /// Stop moving horizontally.
    Stop,
    /// Steer towards the centre of block `toward`, jumping first when `jump`.
    Walk { toward: BlockPos, jump: bool },
}

/// The waypoint index after the pig has stood at `current` (same x and z
/// as the waypoint counts as reached).
pub open spec fn advanced_waypoint(path: Seq<BlockPos>, waypoint: int, current: BlockPos) -> int {
    if 0 <= waypoint < path.len() && path[waypoint].x == current.x && path[waypoint].z == current.z {
        waypoint + 1
    } else {
        waypoint
    }
}

/// A waypoint is passed exactly when the pig stands in its column: the
/// index moves on by one when the waypoint's x and z both equal the pig's,
/// and stays otherwise.
pub proof fn lemma_waypoint_passed_in_its_column(path: Seq<BlockPos>, waypoint: int, current: BlockPos)
    requires
        0 <= waypoint < path.len(),
    ensures
        (advanced_waypoint(path, waypoint, current) == waypoint + 1) == (path[waypoint].x == current.x
            && path[waypoint].z == current.z),
        advanced_waypoint(path, waypoint, current) == waypoint || advanced_waypoint(path, waypoint, current)
            == waypoint + 1,
{
}

/// One tick of a pig's AI. `current` is the block of the pig's feet,
/// `nearest_player` the block of the nearest player (if any) and
/// `grounded` whether the pig stands near the bottom of its block.
///
/// The cooldown counts down; a reached waypoint is passed; when the
/// cooldown ran out or the path is used up, a new path to the nearest
/// player is searched (no player: stop), starting again at waypoint 1 (node
/// 0 is the current position) with a fresh cooldown. Then the pig walks
/// towards the next waypoint, jumping when it lies higher and the pig is
/// grounded, or stops when there is none.
pub fn tick_pig(
    ai: &mut PigAI,
    world: &Terrain,
    current: BlockPos,
    nearest_player: Option<BlockPos>,
    grounded: bool,
) -> (r: PigAction)
    requires
        world.fits_world(),
        in_world(current.point()),
        nearest_player matches Some(p) ==> in_world(p.point()),
    ensures
        old(ai).repath_cooldown > 1 && old(ai).waypoint + 1 < old(ai).path@.len() ==> ({
            let w = old(ai).waypoint as int;
            let reached = old(ai).path@[w].x == current.x && old(ai).path@[w].z == current.z;
            let next = if reached { w + 1 } else { w };
            &&& final(ai).waypoint == next
            &&& final(ai).path@ == old(ai).path@
            &&& final(ai).repath_cooldown == old(ai).repath_cooldown - 1
            &&& r == PigAction::Walk { toward: old(ai).path@[next], jump: old(ai).path@[next].y > current.y && grounded }
        }),
        ({
            let cooldown = if old(ai).repath_cooldown > 0 { (old(ai).repath_cooldown - 1) as u32 } else { 0u32 };
            let wp = advanced_waypoint(old(ai).path@, old(ai).waypoint as int, current);
            let repath = cooldown == 0 || wp >= old(ai).path@.len();
            if repath && nearest_player is None {
                &&& r == PigAction::Stop
                &&& final(ai).path@ == old(ai).path@
                &&& final(ai).waypoint == wp
                &&& final(ai).repath_cooldown == cooldown
            } else {
                &&& (repath ==> final(ai).waypoint == 1 && final(ai).repath_cooldown == REPATH_INTERVAL)
                &&& (repath ==> (final(ai).path@.len() > 0 <==> crate::astar::search_model(world, current,
                    nearest_player->0, MAX_PATH_NODES as int) == crate::astar::SearchKind::Found))
                &&& (repath ==> (final(ai).path@.len() == 0 || crate::astar::is_path(world,
                    crate::astar::points_of(final(ai).path@), current.point(), (nearest_player->0).point())))
                &&& (repath && current == nearest_player->0 ==> final(ai).path@ == seq![current])
                &&& (!repath ==> final(ai).path@ == old(ai).path@ && final(ai).waypoint == wp
                    && final(ai).repath_cooldown == cooldown)
                &&& (final(ai).waypoint < final(ai).path@.len() ==> {
                    let next = final(ai).path@[final(ai).waypoint as int];
                    r == PigAction::Walk { toward: next, jump: next.y > current.y && grounded }
                })
                &&& (final(ai).waypoint >= final(ai).path@.len() ==> r == PigAction::Stop)
            }
        }),
{
    ai.repath_cooldown = ai.repath_cooldown.saturating_sub(1);

    // Advance the waypoint when the pig reaches it (same X/Z block)
    if ai.waypoint < ai.path.len() {
        let next = ai.path[ai.waypoint];
        if next.x == current.x && next.z == current.z {
            ai.waypoint = ai.waypoint + 1;
        }
    }

    // Recompute the path if the cooldown expired or the path is exhausted
    if ai.repath_cooldown == 0 || ai.waypoint >= ai.path.len() {
        let goal = match nearest_player {
            Some(p) => p,
            None => return PigAction::Stop,
        };
        ai.path = match find_path(world, current, goal, MAX_PATH_NODES) {
            Some(p) => p.nodes,
            None => Vec::new(),
        };
        ai.waypoint = 1; // node 0 is the current position
        ai.repath_cooldown = REPATH_INTERVAL;
    }

    if ai.waypoint >= ai.path.len() {
        return PigAction::Stop;
    }
    let next = ai.path[ai.waypoint];
    // Jump if the next waypoint is one block above and the pig is on the ground
    let jump = next.y > current.y && grounded;
    PigAction::Walk { toward: next, jump }
}

} // verus!
