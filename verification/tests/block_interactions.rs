use temper_game::blocks::{BlockData, BlockRegistry, BlockStateId, Properties};
use temper_game::interactions::{
    break_block_with_door_half, door_other_half_y_offset, get_interaction_type, interact_at, is_interactive, is_open,
    toggle_other_door_half, try_interact, BlockBrokenEvent, InteractionResult, InteractionType,
};
use temper_game::world::{BlockPos, Terrain};

fn props(pairs: &[(&str, &str)]) -> Properties {
    let mut p = Properties::new();
    for (k, v) in pairs {
        p.insert(k.to_string(), v.to_string());
    }
    p
}

fn door(half: &str, open: &str) -> BlockData {
    BlockData {
        name: "minecraft:oak_door".to_string(),
        properties: Some(props(&[
            ("facing", "north"),
            ("half", half),
            ("hinge", "left"),
            ("open", open),
            ("powered", "false"),
        ])),
    }
}

const AIR: BlockStateId = BlockStateId(0);
const DOOR_LOWER_CLOSED: BlockStateId = BlockStateId(1);
const DOOR_LOWER_OPEN: BlockStateId = BlockStateId(2);
const DOOR_UPPER_CLOSED: BlockStateId = BlockStateId(3);
const DOOR_UPPER_OPEN: BlockStateId = BlockStateId(4);
const STONE: BlockStateId = BlockStateId(5);
const BARE_DOOR: BlockStateId = BlockStateId(6);

fn registry() -> BlockRegistry {
    BlockRegistry::new(vec![
        BlockData { name: "minecraft:air".to_string(), properties: None },
        door("lower", "false"),
        door("lower", "true"),
        door("upper", "false"),
        door("upper", "true"),
        BlockData { name: "minecraft:stone".to_string(), properties: None },
        BlockData { name: "minecraft:iron_door".to_string(), properties: None },
    ])
}

/// A 3x4x3 cuboid at the origin: stone floor at y = 0, a closed door at
/// x = 1, z = 1 (lower half at y = 1, upper half at y = 2), air elsewhere.
fn door_terrain() -> Terrain {
    let mut blocks = vec![vec![vec![AIR; 3]; 4]; 3];
    for x in 0..3 {
        for z in 0..3 {
            blocks[x][0][z] = STONE;
        }
    }
    blocks[1][1][1] = DOOR_LOWER_CLOSED;
    blocks[1][2][1] = DOOR_UPPER_CLOSED;
    Terrain { registry: registry(), origin: BlockPos::of(0, 0, 0), blocks }
}

fn open_value(reg: &BlockRegistry, id: BlockStateId) -> String {
    let data = reg.to_block_data(id).expect("new state ID should be valid");
    let p = data.properties.as_ref().expect("door should have properties");
    p.get("open").expect("door should have an open property").clone()
}

#[test]
fn test_door_detection() {
    let door_data = BlockData {
        name: "minecraft:oak_door".to_string(),
        properties: Some(props(&[("facing", "north"), ("open", "false"), ("half", "lower"), ("hinge", "left")])),
    };

    assert!(matches!(get_interaction_type(&door_data), Some(InteractionType::Toggleable("open"))));
}

#[test]
fn test_try_interact_opens_door() {
    let reg = registry();
    let result = try_interact(&reg, DOOR_LOWER_CLOSED);
    let InteractionResult::Toggled(new_id) = result else {
        panic!("Expected Toggled, got {:?}", result);
    };
    assert_eq!(open_value(&reg, new_id), "true", "door should be open after interact");
}

#[test]
fn test_try_interact_closes_door() {
    let reg = registry();
    let result = try_interact(&reg, DOOR_LOWER_OPEN);
    let InteractionResult::Toggled(new_id) = result else {
        panic!("Expected Toggled, got {:?}", result);
    };
    assert_eq!(open_value(&reg, new_id), "false", "door should be closed after interact");
}

#[test]
fn test_try_interact_not_interactive() {
    let reg = registry();
    assert!(matches!(try_interact(&reg, STONE), InteractionResult::NotInteractive));
}

#[test]
fn test_is_interactive() {
    let reg = registry();
    assert!(is_interactive(&reg, DOOR_LOWER_CLOSED), "door should be interactive");
    assert!(!is_interactive(&reg, STONE), "stone should not be interactive");
}

#[test]
fn non_door_block_has_no_interaction_type() {
    let stone = BlockData { name: "minecraft:stone".to_string(), properties: None };
    assert!(get_interaction_type(&stone).is_none());
    let trapdoor = BlockData { name: "minecraft:oak_trapdoor".to_string(), properties: None };
    assert!(get_interaction_type(&trapdoor).is_none());
}

#[test]
fn try_interact_toggles_to_the_exact_state() {
    let reg = registry();
    assert!(matches!(try_interact(&reg, DOOR_LOWER_CLOSED), InteractionResult::Toggled(BlockStateId(2))));
    assert!(matches!(try_interact(&reg, DOOR_UPPER_OPEN), InteractionResult::Toggled(BlockStateId(3))));
}

#[test]
fn interacting_twice_gives_the_door_back() {
    let reg = registry();
    for id in [DOOR_LOWER_CLOSED, DOOR_LOWER_OPEN, DOOR_UPPER_CLOSED, DOOR_UPPER_OPEN] {
        let InteractionResult::Toggled(once) = try_interact(&reg, id) else { panic!("door should toggle") };
        let InteractionResult::Toggled(twice) = try_interact(&reg, once) else { panic!("door should toggle") };
        assert_ne!(once, id);
        assert_eq!(twice, id);
    }
}

#[test]
fn try_interact_refuses_unknown_ids_and_bare_doors() {
    let reg = registry();
    assert!(matches!(try_interact(&reg, BlockStateId(99)), InteractionResult::InvalidBlock));
    assert!(matches!(try_interact(&reg, BARE_DOOR), InteractionResult::InvalidBlock));
    assert!(!is_interactive(&reg, BlockStateId(99)));
    assert!(is_interactive(&reg, BARE_DOOR));
}

#[test]
fn toggled_state_missing_from_registry_is_air() {
    let reg = BlockRegistry::new(vec![
        BlockData { name: "minecraft:air".to_string(), properties: None },
        door("lower", "false"),
    ]);
    assert!(matches!(try_interact(&reg, BlockStateId(1)), InteractionResult::Toggled(BlockStateId(0))));
}

#[test]
fn door_half_offsets() {
    let reg = registry();
    assert_eq!(door_other_half_y_offset(&reg, DOOR_LOWER_CLOSED), Some(1));
    assert_eq!(door_other_half_y_offset(&reg, DOOR_UPPER_OPEN), Some(-1));
    assert_eq!(door_other_half_y_offset(&reg, STONE), None);
    assert_eq!(door_other_half_y_offset(&reg, BARE_DOOR), None);
    assert_eq!(door_other_half_y_offset(&reg, BlockStateId(42)), None);
}

#[test]
fn open_state_of_blocks() {
    let reg = registry();
    assert_eq!(is_open(&reg, DOOR_LOWER_CLOSED), Some(false));
    assert_eq!(is_open(&reg, DOOR_UPPER_OPEN), Some(true));
    assert_eq!(is_open(&reg, STONE), None);
    assert_eq!(is_open(&reg, AIR), None);
}

#[test]
fn breaking_a_door_breaks_both_halves() {
    let mut world = door_terrain();
    let mut events: Vec<BlockBrokenEvent> = Vec::new();
    let broken = break_block_with_door_half(&mut world, BlockPos::of(1, 2, 1), &mut events);
    assert_eq!(broken, vec![BlockPos::of(1, 2, 1), BlockPos::of(1, 1, 1)]);
    assert_eq!(
        events,
        vec![BlockBrokenEvent { position: BlockPos::of(1, 2, 1) }, BlockBrokenEvent { position: BlockPos::of(1, 1, 1) }]
    );
    assert_eq!(world.block_at(1, 1, 1), AIR);
    assert_eq!(world.block_at(1, 2, 1), AIR);
    assert_eq!(world.block_at(1, 0, 1), STONE);
}

#[test]
fn breaking_stone_breaks_one_block() {
    let mut world = door_terrain();
    let mut events: Vec<BlockBrokenEvent> = vec![BlockBrokenEvent { position: BlockPos::of(9, 9, 9) }];
    let broken = break_block_with_door_half(&mut world, BlockPos::of(0, 0, 0), &mut events);
    assert_eq!(broken, vec![BlockPos::of(0, 0, 0)]);
    assert_eq!(events.len(), 2);
    assert_eq!(events[1].position, BlockPos::of(0, 0, 0));
    assert_eq!(world.block_at(0, 0, 0), AIR);
    assert_eq!(world.block_at(1, 1, 1), DOOR_LOWER_CLOSED);
}

#[test]
fn right_click_opens_a_door_and_its_other_half_follows() {
    let mut world = door_terrain();
    let interaction = interact_at(&mut world, BlockPos::of(1, 1, 1)).expect("door is interactive");
    assert_eq!(interaction.new_state, DOOR_LOWER_OPEN);
    assert!(interaction.is_active);
    assert!(interaction.door_toggled);
    assert_eq!(world.block_at(1, 1, 1), DOOR_LOWER_OPEN);
    assert_eq!(world.block_at(1, 2, 1), DOOR_UPPER_CLOSED);

    let update = toggle_other_door_half(&mut world, BlockPos::of(1, 1, 1), interaction.new_state);
    assert_eq!(update, Some((BlockPos::of(1, 2, 1), DOOR_UPPER_OPEN)));
    assert_eq!(world.block_at(1, 2, 1), DOOR_UPPER_OPEN);

    let closing = interact_at(&mut world, BlockPos::of(1, 2, 1)).expect("door is interactive");
    assert_eq!(closing.new_state, DOOR_UPPER_CLOSED);
    assert!(!closing.is_active);
}

#[test]
fn right_click_on_stone_changes_nothing() {
    let mut world = door_terrain();
    assert_eq!(interact_at(&mut world, BlockPos::of(0, 0, 0)), None);
    assert_eq!(world.block_at(0, 0, 0), STONE);
    assert_eq!(toggle_other_door_half(&mut world, BlockPos::of(0, 0, 0), STONE), None);
}
