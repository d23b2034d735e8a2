use tbol_island::mechanics::EntitySpawn;
use tbol_island::mechanics::Island;
use tbol_island::mechanics::PropEntry;
use tbol_island::mechanics::Room;
use tbol_island::mechanics::TileData;
use tbol_island::mechanics::TileEntry;

#[test]
fn island_canonical_text_is_exact() {
    let island = Island {
        dock_room_id: 7,
        name: "Aurora".to_string(),
        description: "northern docks".to_string(),
    };
    assert_eq!(
        island.to_text(),
        "(dock_room_id:7,name:\"Aurora\",description:\"northern docks\",)"
    );
}

#[test]
fn island_round_trip_preserves_every_field() {
    let island = Island {
        dock_room_id: 4294967295,
        name: String::new(),
        description: "a space,  a colon: and a (paren)".to_string(),
    };
    let back = Island::from_text(&island.to_text()).unwrap();
    assert_eq!(back.dock_room_id, island.dock_room_id);
    assert_eq!(back.name, island.name);
    assert_eq!(back.description, island.description);
}

#[test]
fn room_round_trip_with_negative_positions_and_doors() {
    let room = Room {
        room_id: 9,
        pos_x: -9223372036854775808,
        pos_y: 9223372036854775807,
        pos_z: -1,
        extent_x: 0,
        extent_y: 1,
        extent_z: 4294967295,
        looping_x: true,
        looping_y: false,
        looping_z: true,
        tiles: vec![
            TileEntry { index: 0, tile: TileData::Empty },
            TileEntry { index: 3, tile: TileData::Tile(17) },
            TileEntry { index: 5, tile: TileData::Door(2, 11) },
        ],
    };
    let back = Room::from_text(&room.to_text()).unwrap();
    assert_eq!(back.room_id, room.room_id);
    assert_eq!(back.pos_x, room.pos_x);
    assert_eq!(back.pos_y, room.pos_y);
    assert_eq!(back.pos_z, room.pos_z);
    assert_eq!(back.extent_x, room.extent_x);
    assert_eq!(back.extent_y, room.extent_y);
    assert_eq!(back.extent_z, room.extent_z);
    assert_eq!(back.looping_x, room.looping_x);
    assert_eq!(back.looping_y, room.looping_y);
    assert_eq!(back.looping_z, room.looping_z);
    assert_eq!(back.tiles, room.tiles);
}

#[test]
fn spawn_round_trip_preserves_property_order() {
    let spawn = EntitySpawn {
        entity_type: "chest".to_string(),
        room_id: 2,
        grid_index: 124,
        properties: vec![
            PropEntry { key: "b".to_string(), value: "2".to_string() },
            PropEntry { key: "a".to_string(), value: "1".to_string() },
            PropEntry { key: "a".to_string(), value: "0".to_string() },
        ],
    };
    let back = EntitySpawn::from_text(&spawn.to_text()).unwrap();
    assert_eq!(back.entity_type, "chest");
    assert_eq!(back.room_id, 2);
    assert_eq!(back.grid_index, 124);
    assert_eq!(back.properties.len(), 3);
    assert_eq!(back.properties[0].key, "b");
    assert_eq!(back.properties[0].value, "2");
    assert_eq!(back.properties[1].key, "a");
    assert_eq!(back.properties[1].value, "1");
    assert_eq!(back.properties[2].key, "a");
    assert_eq!(back.properties[2].value, "0");
}

#[test]
fn parser_ignores_whitespace_and_accepts_trailing_commas() {
    let text = "  (\n\tdock_room_id :\t3 ,\r\n name : \"x\" , description:\"\" , )  \n";
    let island = Island::from_text(text).unwrap();
    assert_eq!(island.dock_room_id, 3);
    assert_eq!(island.name, "x");
    assert_eq!(island.description, "");
}

#[test]
fn parser_accepts_a_record_without_the_final_comma() {
    let island = Island::from_text("(dock_room_id:2,name:\"a\",description:\"b\")").unwrap();
    assert_eq!(island.dock_room_id, 2);
    let room = Room::from_text(
        "(room_id:1,pos_x:0,pos_y:0,pos_z:0,extent_x:1,extent_y:1,extent_z:1,\
         looping_x:false,looping_y:false,looping_z:false,tiles:{})",
    )
    .unwrap();
    assert_eq!(room.room_id, 1);
    // A comma between fields is still required.
    assert!(Island::from_text("(dock_room_id:2 name:\"a\",description:\"b\")").is_none());
}

#[test]
fn strings_with_quotes_and_backslashes_round_trip() {
    let island = Island {
        dock_room_id: 1,
        name: "say \"hi\"".to_string(),
        description: "a back\\slash and a \" quote".to_string(),
    };
    // The canonical text escapes both characters.
    assert_eq!(
        island.to_text(),
        "(dock_room_id:1,name:\"say \\\"hi\\\"\",description:\"a back\\\\slash and a \\\" quote\",)"
    );
    let back = Island::from_text(&island.to_text()).unwrap();
    assert_eq!(back.name, island.name);
    assert_eq!(back.description, island.description);

    let spawn = EntitySpawn {
        entity_type: "\\\"".to_string(),
        room_id: 3,
        grid_index: 0,
        properties: vec![PropEntry { key: "line".to_string(), value: "a\"b\\c".to_string() }],
    };
    let back = EntitySpawn::from_text(&spawn.to_text()).unwrap();
    assert_eq!(back.entity_type, "\\\"");
    assert_eq!(back.get_property("line").unwrap(), "a\"b\\c");
}

#[test]
fn parser_rejects_unknown_escapes() {
    // A backslash may only escape a quote or another backslash.
    assert!(Island::from_text("(dock_room_id:1,name:\"a\\n\",description:\"b\",)").is_none());
    // A lone backslash before the closing quote leaves the string
    // unterminated.
    assert!(Island::from_text("(dock_room_id:1,name:\"a\\\",description:\"b\",)").is_none());
}

#[test]
fn grid_fits_decides_the_grid_precondition() {
    let mut room = Room {
        room_id: 1,
        pos_x: 0,
        pos_y: 0,
        pos_z: 0,
        extent_x: 3,
        extent_y: 3,
        extent_z: 3,
        looping_x: false,
        looping_y: true,
        looping_z: false,
        tiles: vec![TileEntry { index: 26, tile: TileData::Tile(1) }],
    };
    assert!(room.grid_fits());
    assert_eq!(room.create_grid().size(), (3, 3, 3));

    // An out-of-range tile index fails the check.
    room.tiles.push(TileEntry { index: 27, tile: TileData::Tile(2) });
    assert!(!room.grid_fits());
    room.tiles.pop();

    // Extents whose product overflows the grid's 32-bit size arithmetic
    // fail the check.
    room.extent_x = 70000;
    room.extent_y = 70000;
    assert!(!room.grid_fits());
}

#[test]
fn parser_rejects_malformed_records() {
    assert!(Island::from_text("").is_none());
    assert!(Island::from_text("(dock_room_id:1,name:\"a\",)").is_none());
    assert!(Island::from_text("(dock_room_id:-1,name:\"a\",description:\"b\",)").is_none());
    // A number too large for the field's width.
    assert!(Island::from_text("(dock_room_id:4294967296,name:\"a\",description:\"b\",)")
        .is_none());
    // Trailing text after the record.
    assert!(Island::from_text("(dock_room_id:1,name:\"a\",description:\"b\",)x").is_none());
    // An unterminated string.
    assert!(Island::from_text("(dock_room_id:1,name:\"a,description:\"b\",)").is_none());
    assert!(Room::from_text("(room_id:1,)").is_none());
    assert!(EntitySpawn::from_text("(entity_type:\"e\",room_id:0,grid_index:0,properties:{")
        .is_none());
}

#[test]
fn numerals_round_trip_at_the_edges() {
    let room = Room {
        room_id: 0,
        pos_x: 0,
        pos_y: -10,
        pos_z: 100,
        extent_x: 1,
        extent_y: 1,
        extent_z: 1,
        looping_x: false,
        looping_y: false,
        looping_z: false,
        tiles: vec![TileEntry { index: 0, tile: TileData::Tile(0) }],
    };
    let text = room.to_text();
    assert!(text.contains("room_id:0,"));
    assert!(text.contains("pos_y:-10,"));
    assert!(text.contains("pos_z:100,"));
    let back = Room::from_text(&text).unwrap();
    assert_eq!(back.pos_y, -10);
    assert_eq!(back.pos_z, 100);
}

#[test]
fn create_grid_overlays_exactly_the_set_cell() {
    // A 5x5x5 room with one tile set at index 10: the grid has 125 cells
    // and exactly index 10 differs from the default empty tile.
    let room = Room {
        room_id: 1,
        pos_x: 0,
        pos_y: 0,
        pos_z: 0,
        extent_x: 5,
        extent_y: 5,
        extent_z: 5,
        looping_x: false,
        looping_y: false,
        looping_z: false,
        tiles: vec![TileEntry { index: 10, tile: TileData::Tile(3) }],
    };
    let grid = room.create_grid();
    assert_eq!(grid.total_size(), 125);
    for i in 0..125 {
        if i == 10 {
            assert_eq!(*grid.get(i), TileData::Tile(3));
        } else {
            assert_eq!(*grid.get(i), TileData::Empty);
        }
    }
}

#[test]
fn create_grid_lets_later_entries_shadow_earlier_ones() {
    let room = Room {
        room_id: 1,
        pos_x: 0,
        pos_y: 0,
        pos_z: 0,
        extent_x: 2,
        extent_y: 2,
        extent_z: 1,
        looping_x: false,
        looping_y: false,
        looping_z: false,
        tiles: vec![
            TileEntry { index: 2, tile: TileData::Tile(1) },
            TileEntry { index: 2, tile: TileData::Door(4, 9) },
        ],
    };
    let grid = room.create_grid();
    assert_eq!(grid.total_size(), 4);
    assert_eq!(*grid.get(2), TileData::Door(4, 9));
    assert_eq!(*grid.get(0), TileData::Empty);
}
