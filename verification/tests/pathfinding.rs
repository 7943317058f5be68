use temper_game::astar::{find_path, search, SearchOutcome};
use temper_game::blocks::{BlockData, BlockRegistry, BlockStateId, Properties};
use temper_game::cost::{block_penalty, is_non_solid, is_solid_floor, IMPASSABLE};
use temper_game::mobs::{tick_pig, PigAI, PigAction, MAX_PATH_NODES, REPATH_INTERVAL};
use temper_game::world::{BlockPos, Terrain};

const AIR: BlockStateId = BlockStateId(0);
const STONE: BlockStateId = BlockStateId(1);
const WATER: BlockStateId = BlockStateId(2);
const DOOR_CLOSED: BlockStateId = BlockStateId(3);
const DOOR_OPEN: BlockStateId = BlockStateId(4);
const FIRE: BlockStateId = BlockStateId(5);
const POPPY: BlockStateId = BlockStateId(6);
const OAK_FENCE: BlockStateId = BlockStateId(7);
const LAVA: BlockStateId = BlockStateId(8);
const CAVE_AIR: BlockStateId = BlockStateId(9);

fn door(open: &str) -> BlockData {
    let mut p = Properties::new();
    p.insert("half".to_string(), "lower".to_string());
    p.insert("open".to_string(), open.to_string());
    BlockData { name: "minecraft:oak_door".to_string(), properties: Some(p) }
}

fn plain(name: &str) -> BlockData {
    BlockData { name: name.to_string(), properties: None }
}

fn registry() -> BlockRegistry {
    BlockRegistry::new(vec![
        plain("minecraft:air"),
        plain("minecraft:stone"),
        plain("minecraft:water"),
        door("false"),
        door("true"),
        plain("minecraft:fire"),
        plain("minecraft:poppy"),
        plain("minecraft:oak_fence"),
        plain("minecraft:lava"),
        plain("minecraft:cave_air"),
    ])
}

/// An 8x5x8 cuboid at the origin with a stone floor at y = 0 and air above.
fn flat_world() -> Terrain {
    let mut blocks = vec![vec![vec![AIR; 8]; 5]; 8];
    for x in 0..8 {
        for z in 0..8 {
            blocks[x][0][z] = STONE;
        }
    }
    Terrain { registry: registry(), origin: BlockPos::of(0, 0, 0), blocks }
}

/// Every step of `path` is a move a pig can make: to one of the eight
/// neighboring columns, at most one block up or down.
fn assert_walkable(path: &[BlockPos], start: BlockPos, goal: BlockPos) {
    assert_eq!(path.first(), Some(&start));
    assert_eq!(path.last(), Some(&goal));
    for (i, a) in path.iter().enumerate() {
        assert!(!path[i + 1..].contains(a), "{:?} repeats", a);
    }
    for w in path.windows(2) {
        let (a, b) = (w[0], w[1]);
        let dx = (a.x - b.x).abs();
        let dz = (a.z - b.z).abs();
        assert!(dx <= 1 && dz <= 1 && dx + dz > 0, "step {:?} -> {:?}", a, b);
        assert!((a.y - b.y).abs() <= 1, "step {:?} -> {:?}", a, b);
    }
}

#[test]
fn penalties_of_blocks() {
    let reg = registry();
    assert_eq!(block_penalty(&reg, AIR), 0);
    assert_eq!(block_penalty(&reg, CAVE_AIR), 0);
    assert_eq!(block_penalty(&reg, STONE), IMPASSABLE);
    assert_eq!(block_penalty(&reg, WATER), 8);
    assert_eq!(block_penalty(&reg, DOOR_CLOSED), IMPASSABLE);
    assert_eq!(block_penalty(&reg, DOOR_OPEN), 0);
    assert_eq!(block_penalty(&reg, FIRE), 16);
    assert_eq!(block_penalty(&reg, POPPY), 0);
    assert_eq!(block_penalty(&reg, OAK_FENCE), IMPASSABLE);
    assert_eq!(block_penalty(&reg, LAVA), IMPASSABLE);
    assert_eq!(block_penalty(&reg, BlockStateId(1000)), IMPASSABLE);
}

#[test]
fn non_solid_names() {
    assert!(is_non_solid("short_grass"));
    assert!(is_non_solid("pitcher_pod"));
    assert!(is_non_solid("oak_button"));
    assert!(is_non_solid("stone_pressure_plate"));
    assert!(is_non_solid("red_carpet"));
    assert!(is_non_solid("wall_torch"));
    assert!(is_non_solid("soul_wall_torch"));
    assert!(is_non_solid("cave_vine"));
    assert!(!is_non_solid("stone"));
    assert!(!is_non_solid("minecraft:poppy"));
    assert!(!is_non_solid(""));
}

#[test]
fn path_to_itself_is_one_node() {
    let world = flat_world();
    let p = BlockPos::of(2, 1, 2);
    let path = find_path(&world, p, p, 0).expect("start == goal always has a path");
    assert_eq!(path.nodes, vec![p]);
}

#[test]
fn path_across_flat_ground() {
    let world = flat_world();
    let start = BlockPos::of(0, 1, 0);
    let goal = BlockPos::of(5, 1, 3);
    let path = find_path(&world, start, goal, 1000).expect("flat ground is walkable");
    assert_walkable(&path.nodes, start, goal);
    assert!(path.nodes.iter().all(|p| p.y == 1));
    assert!(path.nodes.len() <= 7);
}

#[test]
fn path_steps_up_onto_a_ledge() {
    let mut world = flat_world();
    for x in 4..8 {
        for z in 0..8 {
            world.blocks[x][1][z] = STONE;
        }
    }
    let start = BlockPos::of(1, 1, 1);
    let goal = BlockPos::of(6, 2, 1);
    let path = find_path(&world, start, goal, 1000).expect("a one-block ledge can be climbed");
    assert_walkable(&path.nodes, start, goal);
}

#[test]
fn wall_makes_goal_unreachable() {
    let mut world = flat_world();
    for z in 0..8 {
        for y in 1..4 {
            world.blocks[3][y][z] = STONE;
        }
    }
    let start = BlockPos::of(1, 1, 1);
    let goal = BlockPos::of(6, 1, 6);
    assert!(matches!(search(&world, start, goal, 10_000), SearchOutcome::Unreachable));
    assert!(find_path(&world, start, goal, 10_000).is_none());
}

#[test]
fn closed_door_blocks_and_open_door_lets_through() {
    let mut world = flat_world();
    for z in 0..8 {
        for y in 1..4 {
            world.blocks[3][y][z] = STONE;
        }
    }
    world.blocks[3][1][4] = DOOR_CLOSED;
    world.blocks[3][2][4] = DOOR_CLOSED;
    let start = BlockPos::of(1, 1, 4);
    let goal = BlockPos::of(6, 1, 4);
    assert!(find_path(&world, start, goal, 10_000).is_none());

    world.blocks[3][1][4] = DOOR_OPEN;
    world.blocks[3][2][4] = DOOR_OPEN;
    let path = find_path(&world, start, goal, 10_000).expect("an open door lets the pig through");
    assert_walkable(&path.nodes, start, goal);
    assert!(path.nodes.contains(&BlockPos::of(3, 1, 4)));
}

#[test]
fn goal_in_mid_air_is_unreachable() {
    let world = flat_world();
    let start = BlockPos::of(1, 1, 1);
    let goal = BlockPos::of(4, 3, 4);
    assert!(matches!(search(&world, start, goal, 100_000), SearchOutcome::Unreachable));
}

#[test]
fn search_budget_runs_out() {
    let world = flat_world();
    let start = BlockPos::of(0, 1, 0);
    let goal = BlockPos::of(7, 1, 7);
    assert!(matches!(search(&world, start, goal, 0), SearchOutcome::BudgetExhausted));
    assert!(find_path(&world, start, goal, 0).is_none());
    assert!(matches!(search(&world, start, goal, 1000), SearchOutcome::Found(_)));
}

#[test]
fn fits_world_check() {
    let world = flat_world();
    assert!(world.check_fits_world());
    let far = Terrain { registry: registry(), origin: BlockPos::of(29_999_999, 0, 0), blocks: vec![vec![vec![AIR]]] };
    assert!(!far.check_fits_world());
}

#[test]
fn pig_walks_towards_the_player() {
    let world = flat_world();
    let mut ai = PigAI::new();
    let current = BlockPos::of(1, 1, 1);
    let player = BlockPos::of(5, 1, 1);
    let action = tick_pig(&mut ai, &world, current, Some(player), true);
    assert_eq!(ai.waypoint, 1);
    assert_eq!(ai.repath_cooldown, REPATH_INTERVAL);
    assert_walkable(&ai.path, current, player);
    assert_eq!(action, PigAction::Walk { toward: ai.path[1], jump: false });
    assert!(MAX_PATH_NODES > 0);
}

#[test]
fn pig_without_player_stops() {
    let world = flat_world();
    let mut ai = PigAI::new();
    let action = tick_pig(&mut ai, &world, BlockPos::of(1, 1, 1), None, true);
    assert_eq!(action, PigAction::Stop);
    assert!(ai.path.is_empty());
    assert_eq!(ai.waypoint, 0);
    assert_eq!(ai.repath_cooldown, 0);
}

#[test]
fn pig_follows_its_path_and_jumps_up() {
    let world = flat_world();
    let mut ai = PigAI::new();
    ai.path = vec![BlockPos::of(1, 1, 1), BlockPos::of(2, 2, 1), BlockPos::of(3, 2, 1)];
    ai.waypoint = 0;
    ai.repath_cooldown = 5;
    // The pig stands on node 0: it moves on to node 1, which is higher.
    let action = tick_pig(&mut ai, &world, BlockPos::of(1, 1, 1), Some(BlockPos::of(6, 1, 6)), true);
    assert_eq!(ai.repath_cooldown, 4);
    assert_eq!(ai.waypoint, 1);
    assert_eq!(action, PigAction::Walk { toward: BlockPos::of(2, 2, 1), jump: true });
    // Not grounded: no jump.
    let action = tick_pig(&mut ai, &world, BlockPos::of(1, 1, 1), Some(BlockPos::of(6, 1, 6)), false);
    assert_eq!(action, PigAction::Walk { toward: BlockPos::of(2, 2, 1), jump: false });
    assert_eq!(ai.repath_cooldown, 3);
}

#[test]
fn pig_at_its_player_stops() {
    let world = flat_world();
    let mut ai = PigAI::new();
    let here = BlockPos::of(2, 1, 2);
    let action = tick_pig(&mut ai, &world, here, Some(here), true);
    assert_eq!(ai.path, vec![here]);
    assert_eq!(action, PigAction::Stop);
}

#[test]
fn penalties_of_honey_campfires_and_vines() {
    let mut lit = Properties::new();
    lit.insert("lit".to_string(), "true".to_string());
    let reg = BlockRegistry::new(vec![
        plain("minecraft:air"),
        plain("minecraft:honey_block"),
        BlockData { name: "minecraft:campfire".to_string(), properties: Some(lit) },
        plain("minecraft:soul_campfire"),
        plain("minecraft:vine"),
        plain("minecraft:twisting_vines"),
        plain("minecraft:weeping_vines_plant"),
        plain("minecraft:cave_vines"),
        plain("minecraft:sugar_cane"),
    ]);
    assert_eq!(block_penalty(&reg, BlockStateId(1)), 8);
    assert_eq!(block_penalty(&reg, BlockStateId(2)), 16);
    // An unlit campfire is a solid block.
    assert_eq!(block_penalty(&reg, BlockStateId(3)), IMPASSABLE);
    for id in 4..9 {
        assert_eq!(block_penalty(&reg, BlockStateId(id)), 0);
    }
    assert!(is_non_solid("vine"));
    assert!(is_non_solid("sugar_cane"));
}

#[test]
fn hazards_are_no_floor() {
    let reg = registry();
    assert!(is_solid_floor(&reg, STONE));
    assert!(is_solid_floor(&reg, DOOR_CLOSED));
    assert!(!is_solid_floor(&reg, LAVA));
    assert!(!is_solid_floor(&reg, AIR));
    assert!(!is_solid_floor(&reg, WATER));
    assert!(!is_solid_floor(&reg, DOOR_OPEN));

    // A pig cannot walk across a strip of lava, though lava is impassable.
    let mut world = flat_world();
    for z in 0..8 {
        world.blocks[3][0][z] = LAVA;
    }
    let start = BlockPos::of(1, 1, 1);
    let goal = BlockPos::of(6, 1, 1);
    assert!(matches!(search(&world, start, goal, 10_000), SearchOutcome::Unreachable));
}

#[test]
fn path_to_itself_with_any_budget() {
    let world = flat_world();
    let p = BlockPos::of(3, 1, 3);
    let path = find_path(&world, p, p, usize::MAX).expect("start == goal always has a path");
    assert_eq!(path.nodes, vec![p]);
}

#[test]
fn path_to_itself_in_any_world() {
    let far = Terrain { registry: registry(), origin: BlockPos::of(i32::MAX - 1, 0, 0), blocks: vec![vec![vec![AIR]]] };
    let p = BlockPos::of(i32::MAX, i32::MIN, 5);
    let path = find_path(&far, p, p, 0).expect("start == goal always has a path");
    assert_eq!(path.nodes, vec![p]);
}
