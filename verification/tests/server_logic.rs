use temper_game::blocks::{BlockData, BlockRegistry, BlockStateId, Properties};
use temper_game::messages::{
    apply_damage, chat_line, death_message, join_message, join_strs, push_decimal, smiting_messages, DeathCause,
};
use temper_game::mobs::{profile_markers, Baby, MobKind, MobMarkers, MobProfile};
use temper_game::placement::{
    apply_sign_update, block_entity_kind, pick_block_action, place_block_step, placement_height_check, sign_lines_fit, BlockEntityKind,
    PickAction, PlaceStep, SignText, MAX_SIGN_LINE_LEN,
};
use temper_game::players::{
    destroy_action, disconnect_plan, disconnect_reason, entity_render_distance, interaction_on_cooldown,
    on_ground_flag, relays_to, sneak_change, spawn_type_id, swimming_change, swing_animation, DestroyAction,
    DisconnectPlan, FLAG_SNEAK,
};
use temper_game::world::{chunk_within, player_render_distance, BlockPos};

fn props(pairs: &[(&str, &str)]) -> Properties {
    let mut p = Properties::new();
    for (k, v) in pairs {
        p.insert(k.to_string(), v.to_string());
    }
    p
}

#[test]
fn properties_keep_the_last_value() {
    let mut p = props(&[("open", "false"), ("half", "lower")]);
    assert_eq!(p.get("open").map(|s| s.as_str()), Some("false"));
    p.insert("open".to_string(), "true".to_string());
    assert_eq!(p.get("open").map(|s| s.as_str()), Some("true"));
    assert_eq!(p.get("half").map(|s| s.as_str()), Some("lower"));
    assert!(p.get("facing").is_none());
}

#[test]
fn properties_compare_as_maps() {
    let a = props(&[("open", "false"), ("half", "lower")]);
    let b = props(&[("half", "lower"), ("open", "false")]);
    let c = props(&[("half", "upper"), ("open", "false")]);
    assert!(a.same_as(&b));
    assert!(!a.same_as(&c));
    assert!(a.copy().same_as(&a));
}

#[test]
fn registry_round_trips() {
    let reg = BlockRegistry::new(vec![
        BlockData { name: "minecraft:air".to_string(), properties: None },
        BlockData { name: "minecraft:water".to_string(), properties: Some(props(&[("level", "0")])) },
        BlockData { name: "minecraft:water".to_string(), properties: Some(props(&[("level", "1")])) },
    ]);
    assert_eq!(reg.len(), 3);
    for id in 0..3u32 {
        let data = reg.to_block_data(BlockStateId(id)).expect("registered").copy();
        assert_eq!(reg.from_block_data(&data), BlockStateId(id));
    }
    assert!(reg.to_block_data(BlockStateId(3)).is_none());
    let unknown = BlockData { name: "minecraft:water".to_string(), properties: Some(props(&[("level", "7")])) };
    assert_eq!(reg.from_block_data(&unknown), BlockStateId::air());
    assert_eq!(BlockStateId(9).raw(), 9);
}

#[test]
fn decimal_numbers() {
    let mut s = String::from("n=");
    push_decimal(&mut s, 0);
    assert_eq!(s, "n=0");
    let mut s = String::new();
    push_decimal(&mut s, 18446744073709551615);
    assert_eq!(s, "18446744073709551615");
    let mut s = String::new();
    push_decimal(&mut s, 1000);
    assert_eq!(s, "1000");
}

#[test]
fn chat_texts() {
    assert_eq!(join_strs("ab", "cd"), "abcd");
    assert_eq!(chat_line("Steve", "hi all"), "<Steve> hi all");
    assert_eq!(join_message("Alex"), "Alex joined the game");
}

#[test]
fn death_messages() {
    assert_eq!(death_message(Some("Steve"), DeathCause::DivineSmiting { silent: true }), None);
    assert_eq!(death_message(Some("Steve"), DeathCause::Other), Some("Steve was killed".to_string()));
    assert_eq!(death_message(None, DeathCause::Other), Some("Unknown was killed".to_string()));
    for _ in 0..20 {
        let m = death_message(Some("Pig"), DeathCause::DivineSmiting { silent: false }).expect("announced");
        assert!(m == "Pig was divinely smote" || m == "Pig was struck down by the gods", "{}", m);
    }
}

#[test]
fn damage_kills_at_zero() {
    assert_eq!(apply_damage(20, 20, 5), (15, false));
    assert_eq!(apply_damage(5, 20, 5), (20, true));
    assert_eq!(apply_damage(3, 10, 100), (10, true));
}

#[test]
fn mob_profiles() {
    assert_eq!(
        profile_markers(MobProfile::Ground),
        MobMarkers { has_gravity: true, has_collisions: true, has_water_drag: true }
    );
    assert_eq!(
        profile_markers(MobProfile::CollisionOnly),
        MobMarkers { has_gravity: false, has_collisions: true, has_water_drag: false }
    );
    assert_eq!(
        profile_markers(MobProfile::GravityNoDrag),
        MobMarkers { has_gravity: true, has_collisions: true, has_water_drag: false }
    );
    let _baby: Baby = Baby::default();
    assert_eq!(MobKind(95), MobKind(95));
}

#[test]
fn placement_limits() {
    assert_eq!(placement_height_check(0), Ok(()));
    assert_eq!(placement_height_check(318), Ok(()));
    assert_eq!(placement_height_check(-63), Ok(()));
    assert_eq!(placement_height_check(319), Err("Build limit is 319! Cannot place block here."));
    assert_eq!(placement_height_check(-64), Err("Cannot place block below Y=-64."));
}

#[test]
fn sign_block_entities() {
    assert_eq!(block_entity_kind("sign"), Some(BlockEntityKind::Sign));
    assert_eq!(block_entity_kind("hanging_sign"), Some(BlockEntityKind::Sign));
    assert_eq!(block_entity_kind("chest"), None);
}

#[test]
fn sign_line_length_limit() {
    let ok = vec!["a".repeat(MAX_SIGN_LINE_LEN), String::new()];
    assert!(sign_lines_fit(&ok));
    let long = vec!["a".to_string(), "b".repeat(MAX_SIGN_LINE_LEN + 1)];
    assert!(!sign_lines_fit(&long));
    // The limit counts bytes: 193 two-byte characters are 386 bytes.
    let wide = vec!["é".repeat(193)];
    assert!(!sign_lines_fit(&wide));
    assert!(sign_lines_fit(&vec![]));
}

#[test]
fn pick_block_choices() {
    assert_eq!(pick_block_action(Some(3), 3, None, 0, true), PickAction::Nothing);
    assert_eq!(pick_block_action(Some(2), 3, Some(20), 0, true), PickAction::SelectHotbarSlot(2));
    assert_eq!(pick_block_action(None, 3, Some(20), 20, true), PickAction::Nothing);
    assert_eq!(pick_block_action(None, 3, Some(20), 39, false), PickAction::SwapIntoHotbar(20));
    assert_eq!(pick_block_action(None, 3, None, 39, true), PickAction::CreateStack);
    assert_eq!(pick_block_action(None, 3, None, 39, false), PickAction::Nothing);
}

#[test]
fn sneaking_and_swimming_changes() {
    assert_eq!(sneak_change(FLAG_SNEAK, false), Some(true));
    assert_eq!(sneak_change(FLAG_SNEAK | 0x01, true), None);
    assert_eq!(sneak_change(0x01, true), Some(false));
    assert_eq!(sneak_change(0x00, false), None);
    assert_eq!(swimming_change(true, false), Some(true));
    assert_eq!(swimming_change(false, true), Some(false));
    assert_eq!(swimming_change(true, true), None);
    assert_eq!(swimming_change(false, false), None);
}

#[test]
fn movement_and_animation_flags() {
    assert!(on_ground_flag(0x01));
    assert!(on_ground_flag(0x03));
    assert!(!on_ground_flag(0x02));
    assert_eq!(swing_animation(0), 0);
    assert_eq!(swing_animation(1), 3);
}

#[test]
fn relaying_updates() {
    assert!(relays_to(1, 2, true, true));
    assert!(!relays_to(2, 2, true, true));
    assert!(!relays_to(1, 2, false, true));
    assert!(!relays_to(1, 2, true, false));
}

#[test]
fn disconnect_plans() {
    assert_eq!(
        disconnect_plan(true, true, true),
        DisconnectPlan { send_packet: true, save_data: true, announce_leave: true }
    );
    assert_eq!(
        disconnect_plan(true, false, false),
        DisconnectPlan { send_packet: false, save_data: true, announce_leave: true }
    );
    assert_eq!(
        disconnect_plan(false, true, true),
        DisconnectPlan { send_packet: false, save_data: false, announce_leave: true }
    );
    assert_eq!(
        disconnect_plan(false, true, false),
        DisconnectPlan { send_packet: false, save_data: false, announce_leave: false }
    );
    assert_eq!(disconnect_reason(Some("Kicked")), "Kicked");
    assert_eq!(disconnect_reason(None), "Disconnected");
}

#[test]
fn destroying_and_spawning_entities() {
    assert_eq!(destroy_action(true, false), DestroyAction::NotifyPlayer);
    assert_eq!(destroy_action(false, true), DestroyAction::DespawnMob);
    assert_eq!(destroy_action(false, false), DestroyAction::DespawnEntity);
    assert_eq!(spawn_type_id(true, 95, 149), 149);
    assert_eq!(spawn_type_id(false, 95, 149), 95);
}

#[test]
fn render_distances() {
    assert_eq!(entity_render_distance(12, 8), 8);
    assert_eq!(entity_render_distance(6, 8), 6);
    assert_eq!(player_render_distance(12, 8), 8);
    assert_eq!(player_render_distance(4, 8), 4);
    assert!(chunk_within((0, 0), (3, -3), 3));
    assert!(!chunk_within((0, 0), (4, 0), 3));
    assert!(!chunk_within((-2, 0), (0, 2), 1));
}

#[test]
fn interaction_cooldown() {
    assert!(interaction_on_cooldown(Some(100), 250));
    assert!(!interaction_on_cooldown(Some(250), 250));
    assert!(!interaction_on_cooldown(None, 250));
}

#[test]
fn chunk_of_a_block() {
    assert_eq!(BlockPos::of(17, 64, -1).chunk(), (1, -1));
    assert_eq!(BlockPos::of(-16, 0, 15).chunk(), (-1, 0));
    assert_eq!(BlockPos::of(-17, 0, 16).chunk(), (-2, 1));
}

#[test]
fn placement_request_steps() {
    assert!(matches!(place_block_step(false, true, 0, true, 64), PlaceStep::Interact));
    assert!(matches!(place_block_step(true, true, 0, true, 64), PlaceStep::Place));
    assert!(matches!(place_block_step(false, false, 1, true, 64), PlaceStep::Ignore));
    assert!(matches!(place_block_step(false, false, 7, true, 64), PlaceStep::Ignore));
    assert!(matches!(place_block_step(false, false, 0, false, 64), PlaceStep::AcknowledgeOnly));
    assert!(matches!(
        place_block_step(false, false, 0, true, 319),
        PlaceStep::Refuse("Build limit is 319! Cannot place block here.")
    ));
    assert!(matches!(place_block_step(true, false, 0, true, -64), PlaceStep::Refuse("Cannot place block below Y=-64.")));
}

fn lines(ls: &[&str]) -> Vec<String> {
    ls.iter().map(|s| s.to_string()).collect()
}

fn sign(waxed: bool) -> SignText {
    SignText { front: lines(&["a", "b", "c", "d"]), back: lines(&["", "", "", ""]), waxed }
}

#[test]
fn sign_update_goes_to_the_chosen_side() {
    let mut s = sign(false);
    assert!(apply_sign_update(&mut s, true, true, lines(&["1", "2", "3", "4"])));
    assert_eq!(s.front, lines(&["1", "2", "3", "4"]));
    assert_eq!(s.back, lines(&["", "", "", ""]));
    assert!(apply_sign_update(&mut s, true, false, lines(&["w", "x", "y", "z"])));
    assert_eq!(s.front, lines(&["1", "2", "3", "4"]));
    assert_eq!(s.back, lines(&["w", "x", "y", "z"]));
    assert!(!s.waxed);
}

#[test]
fn sign_update_refused() {
    let mut waxed = sign(true);
    assert!(!apply_sign_update(&mut waxed, true, true, lines(&["1", "2", "3", "4"])));
    assert_eq!(waxed.front, lines(&["a", "b", "c", "d"]));
    let mut s = sign(false);
    assert!(!apply_sign_update(&mut s, false, true, lines(&["1", "2", "3", "4"])));
    let long = "x".repeat(MAX_SIGN_LINE_LEN + 1);
    assert!(!apply_sign_update(&mut s, true, false, vec![long, String::new(), String::new(), String::new()]));
    assert_eq!(s.front, lines(&["a", "b", "c", "d"]));
    assert_eq!(s.back, lines(&["", "", "", ""]));
}

#[test]
fn smiting_message_options() {
    assert_eq!(smiting_messages("Cow"), vec!["Cow was divinely smote", "Cow was struck down by the gods"]);
}
