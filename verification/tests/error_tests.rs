use tbol_island::fields::DefaultValue;
use tbol_island::sandbox::CallbackRef;
use tbol_island::fields::OptionBag;
use tbol_island::fields::ScriptValue;
use tbol_island::fields::parse_field_options;
use tbol_island::paths::check_rel_path;
use tbol_island::sandbox::IslandData;
use tbol_island::sandbox::LoadError;

fn new_island_state() -> IslandData {
    IslandData::new("tbol_vanilla".to_string())
}

#[test]
fn traversal_paths_fail_the_lexical_gate() {
    assert!(!check_rel_path("../../etc/passwd"));
    assert!(!check_rel_path(".."));
    assert!(!check_rel_path("ron/../island.ron"));
    assert!(!check_rel_path("/etc/passwd"));
    assert!(!check_rel_path("ron\\island.ron"));
    assert!(!check_rel_path(""));
    assert!(check_rel_path("ron/island.ron"));
    assert!(check_rel_path("ron/..island.ron"));
    assert!(check_rel_path("ron/island..ron"));
}

#[test]
fn loading_a_traversal_path_fails_validation_and_changes_nothing() {
    let mut island = new_island_state();
    // The read outcome is irrelevant: the path is rejected first, and the
    // embedding host performs no read for a rejected path.
    let err = island
        .load_island_config("../../etc/passwd", Ok("(garbage".to_string()))
        .unwrap_err();
    assert!(matches!(err, LoadError::Validation { .. }));
    assert!(err.message().contains("../../etc/passwd"));
    assert!(island.island_config.is_none());

    let err = island
        .register_room("../../etc/passwd", Ok("(garbage".to_string()), None, None)
        .unwrap_err();
    assert!(matches!(err, LoadError::Validation { .. }));
    assert_eq!(island.rooms.len(), 0);

    let err = island
        .load_entity_spawn("../../etc/passwd", Ok("(garbage".to_string()))
        .unwrap_err();
    assert!(matches!(err, LoadError::Validation { .. }));
    assert_eq!(island.entity_spawns.len(), 0);
}

#[test]
fn missing_file_keeps_the_previous_config_and_names_the_path() {
    let island_ron = r#"(
        dock_room_id: 1,
        name: "Keeper",
        description: "stays loaded",
    )"#;
    let mut island = new_island_state();
    island.load_island_config("ron/island.ron", Ok(island_ron.to_string())).unwrap();

    let err = island
        .load_island_config("ron/missing.ron", Err("No such file or directory".to_string()))
        .unwrap_err();
    assert!(matches!(err, LoadError::Io { .. }));
    let message = err.message();
    assert!(message.contains("ron/missing.ron"));
    assert!(message.contains("No such file or directory"));
    // The previously loaded config is untouched.
    assert_eq!(island.island_config.as_ref().unwrap().name, "Keeper");
}

#[test]
fn malformed_content_yields_a_parse_error_and_changes_nothing() {
    let mut island = new_island_state();
    let err = island
        .load_island_config("ron/island.ron", Ok("(dock_room_id: what".to_string()))
        .unwrap_err();
    assert!(matches!(err, LoadError::Parse { .. }));
    assert!(err.message().contains("ron/island.ron"));
    assert!(island.island_config.is_none());
}

#[test]
fn adjacency_before_config_is_a_recoverable_error() {
    let island = new_island_state();
    let err = island.rooms_are_adjacent(1, 2).unwrap_err();
    assert!(matches!(err, LoadError::ConfigMissing));
    assert_eq!(err.message(), "island config not loaded");
}

#[test]
fn gltf_names_with_separators_are_rejected() {
    let mut island = new_island_state();
    let err = island.register_gltf("../evil", "models/evil.gltf".to_string()).unwrap_err();
    assert!(matches!(err, LoadError::Validation { .. }));
    assert_eq!(island.gltf_registry.len(), 0);

    island.register_gltf("tree", "models/tree.gltf".to_string()).unwrap();
    island.register_gltf("tree", "models/birch.gltf".to_string()).unwrap();
    // The latest registration for a name wins.
    assert_eq!(island.get_gltf("tree").unwrap(), "models/birch.gltf");
}

#[test]
fn option_bags_are_read_permissively() {
    // A recognized scalar default is kept.
    let kept = parse_field_options(OptionBag {
        default: Some(ScriptValue::Bool(true)),
        min: None,
        max: None,
        values: None,
        keys: None,
        item_type: None,
        schema: None,
    });
    assert!(matches!(kept.default, Some(DefaultValue::Bool(true))));

    // An unrecognized shape for `default` is silently dropped, and a
    // string sequence under `values` declares enumerated values.
    let dropped = parse_field_options(OptionBag {
        default: Some(ScriptValue::StrSeq(vec!["not".to_string(), "scalar".to_string()])),
        min: Some(-3),
        max: None,
        values: Some(ScriptValue::StrSeq(vec!["A".to_string()])),
        keys: None,
        item_type: None,
        schema: None,
    });
    assert!(dropped.default.is_none());
    assert_eq!(dropped.min, Some(-3));
    assert_eq!(dropped.values, Some(vec!["A".to_string()]));
    assert!(dropped.value_type.is_none());

    // A single string under `values` declares a map's value type instead.
    let retyped = parse_field_options(OptionBag {
        default: None,
        min: None,
        max: None,
        values: Some(ScriptValue::Str("int".to_string())),
        keys: None,
        item_type: None,
        schema: None,
    });
    assert!(retyped.values.is_none());
    assert_eq!(retyped.value_type, Some("int".to_string()));
}

#[test]
fn callbacks_are_recorded_and_counted() {
    let room_ron = r#"(
        room_id: 6,
        pos_x: 0, pos_y: 0, pos_z: 0,
        extent_x: 2, extent_y: 2, extent_z: 2,
        looping_x: false, looping_y: false, looping_z: false,
        tiles: {},
    )"#;

    let mut island = new_island_state();
    island.register_process_fn(CallbackRef { id: 41 });
    island.register_process_fn(CallbackRef { id: 42 });
    assert_eq!(island.process_fn, Some(CallbackRef { id: 42 }));
    assert!(island.physics_process_fn.is_none());

    island
        .register_room(
            "ron/room_6.ron",
            Ok(room_ron.to_string()),
            Some(CallbackRef { id: 7 }),
            None,
        )
        .unwrap();
    assert_eq!(island.get_room_count(), 1);
    assert_eq!(island.room_process_fns.len(), 1);
    assert_eq!(island.room_process_fns[0].room_id, 6);
    assert_eq!(island.room_process_fns[0].fun, CallbackRef { id: 7 });
    assert_eq!(island.room_physics_process_fns.len(), 0);
}
