use tbol_island::mechanics::EntitySpawn;
use tbol_island::mechanics::Island;
use tbol_island::mechanics::IslandData;
use tbol_island::mechanics::PropEntry;
use tbol_island::mechanics::Room;
use tbol_island::mechanics::TileData;
use tbol_island::mechanics::TileEntry;

fn create_test_island() -> Island {
    Island {
        dock_room_id: 1,
        name: "Test Island".to_string(),
        description: "A test island".to_string(),
    }
}

fn create_test_room() -> Room {
    let tiles = vec![
        TileEntry { index: 0, tile: TileData::Tile(0) },
        TileEntry { index: 1, tile: TileData::Tile(1) },
    ];

    Room {
        room_id: 1,
        pos_x: 0,
        pos_y: 0,
        pos_z: 0,
        extent_x: 3,
        extent_y: 3,
        extent_z: 3,
        looping_x: false,
        looping_y: false,
        looping_z: false,
        tiles,
    }
}

fn cube_room(room_id: u32, pos_x: i64) -> Room {
    Room {
        room_id,
        pos_x,
        pos_y: 0,
        pos_z: 0,
        extent_x: 5,
        extent_y: 5,
        extent_z: 5,
        looping_x: false,
        looping_y: false,
        looping_z: false,
        tiles: Vec::new(),
    }
}

#[test]
fn test_create_grid_from_room() {
    let room = create_test_room();
    let grid_data = room.create_grid();
    assert_eq!(grid_data.total_size(), 27); // 3x3x3
}

#[test]
fn test_room_adjacency_x_axis() {
    let room_a = cube_room(1, 0);
    let room_b = cube_room(2, 5);
    assert!(Room::are_adjacent(&room_a, &room_b));
}

#[test]
fn test_room_adjacency_not_adjacent() {
    let room_a = cube_room(1, 0);
    let room_b = cube_room(2, 10);
    assert!(!Room::are_adjacent(&room_a, &room_b));
}

#[test]
fn test_rooms_are_adjacent_through_island_data() {
    let island = create_test_island();
    let room_a = cube_room(1, 0);
    let room_b = cube_room(2, 5);

    let island_data = IslandData::new(island, vec![room_a, room_b]);
    assert!(island_data.rooms_are_adjacent(1, 2));
    assert!(!island_data.rooms_are_adjacent(1, 999));
}

#[test]
fn test_ron_serialization_room() {
    let room = create_test_room();
    let serialized = room.to_text();
    let deserialized: Room = Room::from_text(&serialized).unwrap();
    assert_eq!(deserialized.room_id, 1);
    assert_eq!(deserialized.tiles.len(), 2);
}

#[test]
fn test_ron_serialization_island() {
    let island = create_test_island();
    let serialized = island.to_text();
    let deserialized: Island = Island::from_text(&serialized).unwrap();
    assert_eq!(deserialized.name, "Test Island");
}

#[test]
fn test_ron_serialization_entity_spawn() {
    let properties = vec![PropEntry { key: "health".to_string(), value: "100".to_string() }];

    let spawn = EntitySpawn {
        entity_type: "npc_basic".to_string(),
        room_id: 1,
        grid_index: 5,
        properties,
    };

    let serialized = spawn.to_text();
    let deserialized: EntitySpawn = EntitySpawn::from_text(&serialized).unwrap();
    assert_eq!(deserialized.entity_type, "npc_basic");
    assert_eq!(deserialized.get_property("health").unwrap(), "100");
}
