use tbol_island::fields::OptionBag;
use tbol_island::fields::ScriptValue;
use tbol_island::sandbox::IslandData;

fn new_island_state() -> IslandData {
    IslandData::new("tbol_vanilla".to_string())
}

fn empty_bag() -> OptionBag {
    OptionBag {
        default: None,
        min: None,
        max: None,
        values: None,
        keys: None,
        item_type: None,
        schema: None,
    }
}

fn strings(values: &[&str]) -> Vec<String> {
    values.iter().map(|s| s.to_string()).collect()
}

#[test]
fn test_set_tile_layers() {
    // Arrange
    let mut island = new_island_state();
    let layers = strings(&["Background", "Floor", "Walls"]);

    // Act
    island.set_tile_layers(layers);

    // Assert
    assert_eq!(island.get_tile_layers(), vec!["Background", "Floor", "Walls"]);
}

#[test]
fn test_set_entity_layers() {
    // Arrange
    let mut island = new_island_state();
    let layers = strings(&["Actors", "Triggers", "Items"]);

    // Act
    island.set_entity_layers(layers);

    // Assert
    assert_eq!(island.get_entity_layers(), vec!["Actors", "Triggers", "Items"]);
}

#[test]
fn test_register_tile_field_with_int() {
    // Arrange
    let mut island = new_island_state();
    let options = OptionBag { default: Some(ScriptValue::Int(10)), ..empty_bag() };

    // Act
    island.register_tile_field(
        "lava_tile",
        "damage_on_touch".to_string(),
        "int".to_string(),
        options,
    );

    // Assert
    let fields = island.get_tile_fields("lava_tile").expect("lava_tile not found");
    assert_eq!(fields.len(), 1);
    assert_eq!(fields[0].field_name, "damage_on_touch");
    assert_eq!(fields[0].field_type, "int");
    assert!(fields[0].options.default.is_some());
}

#[test]
fn test_register_tile_field_with_enum() {
    // Arrange
    let mut island = new_island_state();
    let damage_type = strings(&["Physical", "Fire", "Cold"]);
    let options = OptionBag {
        values: Some(ScriptValue::StrSeq(damage_type)),
        default: Some(ScriptValue::Str("Fire".to_string())),
        ..empty_bag()
    };

    // Act
    island.register_tile_field("lava_tile", "damage_type".to_string(), "enum".to_string(), options);

    // Assert
    let fields = island.get_tile_fields("lava_tile").expect("lava_tile not found");
    assert_eq!(fields.len(), 1);
    assert_eq!(fields[0].field_name, "damage_type");
    assert_eq!(fields[0].field_type, "enum");
    let values = fields[0].options.values.as_ref().expect("values not found");
    assert_eq!(values, &vec!["Physical", "Fire", "Cold"]);
}

#[test]
fn test_register_tile_field_with_map() {
    // Arrange
    let mut island = new_island_state();
    let options = OptionBag {
        keys: Some("string".to_string()),
        values: Some(ScriptValue::Str("int".to_string())),
        ..empty_bag()
    };

    // Act
    island.register_tile_field(
        "teleport_tile",
        "destination".to_string(),
        "map".to_string(),
        options,
    );

    // Assert
    let fields = island.get_tile_fields("teleport_tile").expect("teleport_tile not found");
    assert_eq!(fields.len(), 1);
    assert_eq!(fields[0].field_name, "destination");
    assert_eq!(fields[0].field_type, "map");
    assert_eq!(fields[0].options.keys, Some("string".to_string()));
}

#[test]
fn test_register_tile_field_with_list() {
    // Arrange
    let mut island = new_island_state();
    let options = OptionBag { item_type: Some("string".to_string()), ..empty_bag() };

    // Act
    island.register_tile_field("sign_tile", "messages".to_string(), "list".to_string(), options);

    // Assert
    let fields = island.get_tile_fields("sign_tile").expect("sign_tile not found");
    assert_eq!(fields.len(), 1);
    assert_eq!(fields[0].field_name, "messages");
    assert_eq!(fields[0].field_type, "list");
    assert_eq!(fields[0].options.item_type, Some("string".to_string()));
}

#[test]
fn test_register_entity_field_with_int_range() {
    // Arrange
    let mut island = new_island_state();
    let options = OptionBag {
        min: Some(1),
        max: Some(1000),
        default: Some(ScriptValue::Int(100)),
        ..empty_bag()
    };

    // Act
    island.register_entity_field("npc_basic", "health".to_string(), "int".to_string(), options);

    // Assert
    let fields = island.get_entity_fields("npc_basic").expect("npc_basic not found");
    assert_eq!(fields.len(), 1);
    assert_eq!(fields[0].field_name, "health");
    assert_eq!(fields[0].field_type, "int");
    assert_eq!(fields[0].options.min, Some(1));
    assert_eq!(fields[0].options.max, Some(1000));
}

#[test]
fn test_register_entity_field_with_map_schema() {
    // Arrange
    let mut island = new_island_state();
    let options = OptionBag {
        keys: Some("string".to_string()),
        values: Some(ScriptValue::Str("int".to_string())),
        ..empty_bag()
    };

    // Act
    island.register_entity_field("npc_basic", "stats".to_string(), "map".to_string(), options);

    // Assert
    let fields = island.get_entity_fields("npc_basic").expect("npc_basic not found");
    assert_eq!(fields.len(), 1);
    assert_eq!(fields[0].field_name, "stats");
    assert_eq!(fields[0].field_type, "map");
    assert_eq!(fields[0].options.keys, Some("string".to_string()));
}

#[test]
fn test_multiple_fields_on_same_entity() {
    // Arrange
    let mut island = new_island_state();
    let ai_behavior = strings(&["Idle", "Patrol", "Aggressive"]);

    // Act
    island.register_entity_field(
        "npc_basic",
        "health".to_string(),
        "int".to_string(),
        OptionBag { default: Some(ScriptValue::Int(100)), ..empty_bag() },
    );
    island.register_entity_field(
        "npc_basic",
        "behavior".to_string(),
        "enum".to_string(),
        OptionBag {
            values: Some(ScriptValue::StrSeq(ai_behavior)),
            default: Some(ScriptValue::Str("Idle".to_string())),
            ..empty_bag()
        },
    );

    // Assert
    let fields = island.get_entity_fields("npc_basic").expect("npc_basic not found");
    assert_eq!(fields.len(), 2);
    assert_eq!(fields[0].field_name, "health");
    assert_eq!(fields[1].field_name, "behavior");
}

const ISLAND_RON: &str = r#"(
    dock_room_id: 1,
    name: "Test Island",
    description: "A test island for loading",
)"#;

const ROOM_1_RON: &str = r#"(
    room_id: 1,
    pos_x: 0, pos_y: 0, pos_z: 0,
    extent_x: 5, extent_y: 5, extent_z: 5,
    looping_x: false, looping_y: false, looping_z: false,
    tiles: {},
)"#;

const ROOM_2_RON: &str = r#"(
    room_id: 2,
    pos_x: 10, pos_y: 0, pos_z: 0,
    extent_x: 5, extent_y: 5, extent_z: 5,
    looping_x: false, looping_y: false, looping_z: false,
    tiles: {},
)"#;

#[test]
fn test_load_island_config() {
    let mut island = new_island_state();

    island
        .load_island_config("ron/island.ron", Ok(ISLAND_RON.to_string()))
        .expect("Failed to execute script");
    island
        .register_room("ron/room_1.ron", Ok(ROOM_1_RON.to_string()), None, None)
        .expect("Failed to execute script");

    assert!(island.island_config.is_some());
    assert_eq!(island.island_config.as_ref().unwrap().name, "Test Island");
    assert_eq!(island.rooms.len(), 1, "Should have loaded registered room");
}

#[test]
fn test_load_island_config_manual_registration() {
    let mut island = new_island_state();

    island
        .load_island_config("ron/island.ron", Ok(ISLAND_RON.to_string()))
        .expect("Failed to execute script");
    island
        .register_room("ron/room_1.ron", Ok(ROOM_1_RON.to_string()), None, None)
        .expect("Failed to execute script");
    island
        .register_room("ron/room_2.ron", Ok(ROOM_2_RON.to_string()), None, None)
        .expect("Failed to execute script");

    assert_eq!(island.rooms.len(), 2, "Both rooms should be loaded via explicit registration");
}

#[test]
fn test_load_entity_spawn() {
    let spawn_ron = r#"(
        entity_type: "npc_basic",
        room_id: 1,
        grid_index: 5,
        properties: {
            "health": "100",
        },
    )"#;

    let mut island = new_island_state();
    island
        .load_entity_spawn("ron/spawns/enemy_1.ron", Ok(spawn_ron.to_string()))
        .expect("Failed to execute script");

    assert_eq!(island.get_entity_spawn_count(), 1, "Entity spawn count should be 1");
    assert_eq!(island.entity_spawns.len(), 1);
    assert_eq!(island.entity_spawns[0].entity_type, "npc_basic");
}

#[test]
fn test_register_gltf() {
    let mut island = new_island_state();

    island
        .register_gltf("character", "models/character.gltf".to_string())
        .expect("Failed to execute script");
    island.register_gltf("tree", "models/tree.gltf".to_string()).expect(
        "Failed to execute script",
    );

    assert_eq!(island.gltf_registry.len(), 2);
    assert!(island.get_gltf("character").is_some());
    assert!(island.get_gltf("tree").is_some());
}

#[test]
fn test_rooms_are_adjacent_from_luau() {
    let island_ron = r#"(
        dock_room_id: 1,
        name: "Test",
        description: "Test",
    )"#;

    // Two adjacent rooms, the first with a door connection.
    let room1_ron = r#"(
        room_id: 1,
        pos_x: 0, pos_y: 0, pos_z: 0,
        extent_x: 5, extent_y: 5, extent_z: 5,
        looping_x: false, looping_y: false, looping_z: false,
        tiles: {
            10: Door(1, 2),
        },
    )"#;

    let room2_ron = r#"(
        room_id: 2,
        pos_x: 5, pos_y: 0, pos_z: 0,
        extent_x: 5, extent_y: 5, extent_z: 5,
        looping_x: false, looping_y: false, looping_z: false,
        tiles: {},
    )"#;

    let mut island = new_island_state();
    island
        .load_island_config("ron/island.ron", Ok(island_ron.to_string()))
        .expect("Failed to execute script");
    island
        .register_room("ron/room_1.ron", Ok(room1_ron.to_string()), None, None)
        .expect("Failed to execute script");
    island
        .register_room("ron/room_2.ron", Ok(room2_ron.to_string()), None, None)
        .expect("Failed to execute script");

    let adjacent = island.rooms_are_adjacent(1, 2).expect("Failed to execute script");
    assert!(adjacent, "Rooms should be adjacent");

    let not_adjacent = island.rooms_are_adjacent(1, 999).expect("Failed to execute script");
    assert!(!not_adjacent, "Non-existent room should not be adjacent");
}

#[test]
fn test_full_campaign_script() {
    // Arrange
    let mut island = new_island_state();

    // Act
    island.set_tile_layers(strings(&["Background", "Floor", "Walls", "Decoration", "Overlay"]));
    island.set_entity_layers(strings(&["Actors", "Triggers", "Items", "VFX"]));

    let damage_type = strings(&["Physical", "Fire", "Cold", "Lightning", "Void"]);
    let ai_behavior = strings(&["Idle", "Patrol", "Aggressive", "Flee"]);

    island.register_tile_field(
        "lava_tile",
        "damage_on_touch".to_string(),
        "int".to_string(),
        OptionBag { default: Some(ScriptValue::Int(10)), ..empty_bag() },
    );
    island.register_tile_field(
        "lava_tile",
        "damage_type".to_string(),
        "enum".to_string(),
        OptionBag {
            values: Some(ScriptValue::StrSeq(damage_type)),
            default: Some(ScriptValue::Str("Fire".to_string())),
            ..empty_bag()
        },
    );
    island.register_tile_field(
        "teleport_tile",
        "destination".to_string(),
        "map".to_string(),
        OptionBag {
            keys: Some("string".to_string()),
            values: Some(ScriptValue::Str("int".to_string())),
            ..empty_bag()
        },
    );
    island.register_tile_field(
        "sign_tile",
        "messages".to_string(),
        "list".to_string(),
        OptionBag { item_type: Some("string".to_string()), ..empty_bag() },
    );

    island.register_entity_field(
        "npc_basic",
        "health".to_string(),
        "int".to_string(),
        OptionBag {
            min: Some(1),
            max: Some(1000),
            default: Some(ScriptValue::Int(100)),
            ..empty_bag()
        },
    );
    island.register_entity_field(
        "npc_basic",
        "behavior".to_string(),
        "enum".to_string(),
        OptionBag {
            values: Some(ScriptValue::StrSeq(ai_behavior)),
            default: Some(ScriptValue::Str("Idle".to_string())),
            ..empty_bag()
        },
    );
    island.register_entity_field(
        "npc_basic",
        "inventory_tags".to_string(),
        "list".to_string(),
        OptionBag { item_type: Some("string".to_string()), ..empty_bag() },
    );
    island.register_entity_field(
        "npc_basic",
        "stats".to_string(),
        "map".to_string(),
        OptionBag {
            keys: Some("string".to_string()),
            values: Some(ScriptValue::Str("int".to_string())),
            ..empty_bag()
        },
    );

    // Assert
    assert_eq!(island.tile_layers.len(), 5);
    assert_eq!(island.entity_layers.len(), 4);
    assert_eq!(island.get_tile_fields("lava_tile").unwrap().len(), 2);
    assert_eq!(island.get_tile_fields("teleport_tile").unwrap().len(), 1);
    assert_eq!(island.get_tile_fields("sign_tile").unwrap().len(), 1);
    assert_eq!(island.get_entity_fields("npc_basic").unwrap().len(), 4);
}
