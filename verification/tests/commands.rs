use temper_game::commands::{
    coordinate_suggestions, damage_message, damage_targets, echo_prefix, entity_suggestions, gamemode_target,
    is_coordinate, kill_message, kill_targets, list_message, nested_message, op_step, say_message, stop_allowed,
    tp_argument_shape, tp_destination, tp_source, tp_suggestion_kinds, tp_suggestions, OpStep, Suggestion, TeleportTarget,
    TpArgument, TpError, TpShape,
};

use temper_game::text::{split_spaces_of, split_words};

const STEVE_UUID: u128 = 0x123e4567_e89b_12d3_a456_426614174000;
const ALEX_UUID: u128 = 0x0000000a_000b_000c_000d_00000000000e;

fn words(ws: &[&str]) -> (Vec<String>, Vec<bool>) {
    let w: Vec<String> = ws.iter().map(|s| s.to_string()).collect();
    let n: Vec<bool> = ws.iter().map(|s| s.parse::<f64>().is_ok()).collect();
    (w, n)
}

fn shape(ws: &[&str]) -> TpShape {
    let (w, n) = words(ws);
    tp_argument_shape(&w, &n)
}

fn view(s: &[Suggestion]) -> Vec<(String, Option<String>)> {
    s.iter().map(|s| (s.content.clone(), s.tooltip.clone())).collect()
}

fn players() -> Vec<(u128, String)> {
    vec![(STEVE_UUID, "Steve".to_string()), (ALEX_UUID, "alex".to_string())]
}

#[test]
fn coordinates_are_relative_or_numbers() {
    assert!(is_coordinate("~", false));
    assert!(is_coordinate("~5", false));
    assert!(is_coordinate("^", false));
    assert!(is_coordinate("12.5", true));
    assert!(!is_coordinate("Steve", false));
    assert!(!is_coordinate("", false));
}

#[test]
fn tp_shapes() {
    assert_eq!(shape(&[]), TpShape::Invalid(TpError::MissingArguments));
    assert_eq!(shape(&["Steve"]), TpShape::ToEntity);
    assert_eq!(shape(&["Steve", "Alex"]), TpShape::FromEntityToEntity);
    assert_eq!(shape(&["1", "~2", "^"]), TpShape::ToPosition);
    assert_eq!(shape(&["1", "Alex", "3"]), TpShape::Invalid(TpError::InvalidCoordinates));
    assert_eq!(shape(&["Steve", "1", "64", "-3.5"]), TpShape::FromEntityToPosition);
    assert_eq!(shape(&["Steve", "1", "x", "3"]), TpShape::FromEntityThenInvalidCoordinates);
    assert_eq!(shape(&["a", "b", "c", "d", "e"]), TpShape::Invalid(TpError::TooManyArguments));
}

#[test]
fn tp_error_messages() {
    assert_eq!(TpError::MissingArguments.message(), "missing arguments");
    assert_eq!(TpError::InvalidCoordinates.message(), "invalid coordinates");
    assert_eq!(TpError::TooManyArguments.message(), "too many arguments");
}

#[test]
fn tp_suggestion_kinds_by_position() {
    let kinds = |ws: &[&str]| {
        let (w, n) = words(ws);
        tp_suggestion_kinds(&w, &n)
    };
    assert_eq!(kinds(&[""]), (true, true));
    assert_eq!(kinds(&["Steve", ""]), (true, true));
    assert_eq!(kinds(&["1", ""]), (false, true));
    assert_eq!(kinds(&["1", "2", ""]), (false, true));
    assert_eq!(kinds(&["Steve", "2", ""]), (false, true));
    assert_eq!(kinds(&["Steve", "Alex", ""]), (false, false));
    assert_eq!(kinds(&["Steve", "1", "2", ""]), (false, true));
    assert_eq!(kinds(&["1", "1", "2", ""]), (false, false));
    assert_eq!(kinds(&["a", "b", "c", "d", ""]), (false, false));
}

#[test]
fn coordinate_completions() {
    assert_eq!(coordinate_suggestions(""), vec!["~", "~ ~", "~ ~ ~"]);
    assert_eq!(coordinate_suggestions("~"), vec!["~", "~ ~", "~ ~ ~"]);
    assert_eq!(coordinate_suggestions("~4"), vec!["~4"]);
}

#[test]
fn entity_completions_list_selectors_and_players() {
    let all = entity_suggestions("", &players());
    assert_eq!(
        view(&all),
        vec![
            ("@e".to_string(), Some("Any Entity".to_string())),
            ("@r".to_string(), Some("Random Player".to_string())),
            ("@a".to_string(), Some("All Players".to_string())),
            ("Steve".to_string(), Some("123E4567-E89B-12D3-A456-426614174000".to_string())),
            ("alex".to_string(), Some("0000000A-000B-000C-000D-00000000000E".to_string())),
        ]
    );
}

#[test]
fn entity_completions_filter_by_prefix_ignoring_case() {
    let st = entity_suggestions("sT", &players());
    assert_eq!(view(&st), vec![("Steve".to_string(), Some("123E4567-E89B-12D3-A456-426614174000".to_string()))]);
    let sel = entity_suggestions("@A", &players());
    assert_eq!(view(&sel), vec![("@a".to_string(), Some("All Players".to_string()))]);
    let al = entity_suggestions("AL", &players());
    assert_eq!(al.len(), 1);
    assert_eq!(al[0].content, "alex");
    assert!(entity_suggestions("zz", &players()).is_empty());
}

#[test]
fn tp_completions_put_coordinates_first() {
    let (w, n) = words(&[""]);
    let s = tp_suggestions(&w, &n, &players());
    let contents: Vec<String> = s.iter().map(|s| s.content.clone()).collect();
    assert_eq!(contents, vec!["~", "~ ~", "~ ~ ~", "@e", "@r", "@a", "Steve", "alex"]);

    let (w, n) = words(&["Steve", "Alex", "St"]);
    assert!(tp_suggestions(&w, &n, &players()).is_empty());

    let (w, n) = words(&["1", "~3"]);
    let s = tp_suggestions(&w, &n, &players());
    assert_eq!(view(&s), vec![("~3".to_string(), None)]);
}

#[test]
fn tp_source_and_destination() {
    assert_eq!(tp_source(Some(&vec![7]), None), Ok(7));
    assert_eq!(tp_source(Some(&vec![7, 8]), Some(1)), Err("You must specify exactly one target to teleport."));
    assert_eq!(tp_source(None, Some(3)), Ok(3));
    assert_eq!(
        tp_source(None, None),
        Err("You must specify a target when running this command from the server.")
    );
    assert_eq!(
        tp_destination(1, true, &vec![2]),
        Err("Only one entity is allowed, but the provided selector can match multiple entities.")
    );
    assert_eq!(tp_destination(1, false, &vec![]), Err("You must specify exactly one destination entity."));
    assert_eq!(tp_destination(1, false, &vec![1]), Err("Cannot teleport an entity to itself."));
    assert_eq!(tp_destination(1, false, &vec![2]), Ok(2));
}

#[test]
fn kill_and_damage() {
    assert_eq!(kill_targets(true, Some(5), vec![1, 2]), Ok(vec![5]));
    assert_eq!(kill_targets(true, None, vec![1, 2]), Err("The server cannot target itself with this command."));
    assert_eq!(kill_targets(false, None, vec![1, 2]), Ok(vec![1, 2]));
    assert_eq!(kill_message(3), "Killed 3 entities (excluding players).");
    assert_eq!(kill_message(0), "Killed 0 entities (excluding players).");
    assert_eq!(kill_message(1234567), "Killed 1234567 entities (excluding players).");
    assert_eq!(damage_targets(&vec![]), Err("No entities matched the target."));
    assert_eq!(damage_targets(&vec![4]), Ok(()));
    assert_eq!(damage_message(2, 5), "Damaged 2 entities for 5.");
    assert_eq!(damage_message(10, 100), "Damaged 10 entities for 100.");
}

#[test]
fn list_names_the_online_players() {
    let online = vec![(STEVE_UUID, Some("Steve".to_string())), (ALEX_UUID, Some("Alex".to_string()))];
    assert_eq!(
        list_message(&online, 20, false),
        Ok("There are 2 of a max of 20 players online: Steve, Alex".to_string())
    );
    assert_eq!(
        list_message(&online, 100, true),
        Ok("There are 2 of a max of 100 players online: Steve (123e4567-e89b-12d3-a456-426614174000), Alex (0000000a-000b-000c-000d-00000000000e)".to_string())
    );
    assert_eq!(list_message(&vec![], 20, false), Ok("There are 0 of a max of 20 players online: ".to_string()));
    let unnamed = vec![(STEVE_UUID, Some("Steve".to_string())), (ALEX_UUID, None)];
    assert_eq!(list_message(&unnamed, 20, false), Err("player entity does not have a name"));
}

#[test]
fn op_outcomes() {
    assert!(matches!(op_step(true, Some("Steve")), OpStep::AlreadyOperator));
    assert!(matches!(op_step(false, None), OpStep::GrantedUnnamed));
    match op_step(false, Some("Steve")) {
        OpStep::Granted(m) => assert_eq!(m, "Made Steve a server operator"),
        other => panic!("unexpected {:?}", other),
    }
}

#[test]
fn chat_commands() {
    assert_eq!(say_message(Some("Steve"), "hello"), "<Steve> hello");
    assert_eq!(say_message(None, "restarting"), "<Server> restarting");
    assert_eq!(echo_prefix(Some("Alex")), "Alex said: ");
    assert_eq!(echo_prefix(None), "Server said: ");
    assert_eq!(nested_message(Some("Alex"), false), "Alex executed /nested");
    assert_eq!(nested_message(None, true), "Server executed /nested nested");
}

#[test]
fn server_only_and_player_only_commands() {
    assert_eq!(gamemode_target(Some(9)), Ok(9));
    assert_eq!(gamemode_target(None), Err("Error: The server can't change gamemode."));
    assert_eq!(stop_allowed(true), Ok(()));
    assert_eq!(stop_allowed(false), Err("This command can only be used by the server."));
}

fn parsed(ws: &[&str]) -> Result<(Option<String>, Vec<String>, Option<String>), TpError> {
    let (w, n) = words(ws);
    TpArgument::parse(&w, &n).map(|a| match a.to {
        TeleportTarget::Position(x, y, z) => (a.from, vec![x, y, z], None),
        TeleportTarget::Entity(e) => (a.from, vec![], Some(e)),
    })
}

#[test]
fn tp_arguments_by_word_count() {
    assert_eq!(parsed(&[]), Err(TpError::MissingArguments));
    assert_eq!(parsed(&["Steve"]), Ok((None, vec![], Some("Steve".to_string()))));
    assert_eq!(parsed(&["@s", "Alex"]), Ok((Some("@s".to_string()), vec![], Some("Alex".to_string()))));
    assert_eq!(
        parsed(&["~", "64", "~-2"]),
        Ok((None, vec!["~".to_string(), "64".to_string(), "~-2".to_string()], None))
    );
    assert_eq!(parsed(&["~", "Alex", "1"]), Err(TpError::InvalidCoordinates));
    assert_eq!(
        parsed(&["Steve", "1", "2", "3"]),
        Ok((Some("Steve".to_string()), vec!["1".to_string(), "2".to_string(), "3".to_string()], None))
    );
    assert_eq!(parsed(&["Steve", "1", "up", "3"]), Err(TpError::InvalidCoordinates));
    assert_eq!(parsed(&["1", "2", "3", "4", "5"]), Err(TpError::TooManyArguments));
}

#[test]
fn splitting_input_at_spaces() {
    assert_eq!(split_spaces_of("tp  Steve "), vec!["tp", "", "Steve", ""]);
    assert_eq!(split_spaces_of(""), vec![""]);
    assert_eq!(split_words("  Steve   1 ~2 "), vec!["Steve", "1", "~2"]);
    assert!(split_words("   ").is_empty());
    assert_eq!(split_words("é ü"), vec!["é", "ü"]);
}
