//! Domain data model and the spatial adjacency engine.
//!
//! An island is a set of rooms: axis-aligned 3D volumes of tiles placed at
//! integer world positions.  Two rooms are adjacent when their boxes touch
//! exactly on one axis and their projections on both other axes overlap
//! with positive measure; door tiles are an explicit, non-geometric link and
//! play no part in the test.

use vstd::prelude::*;

use crate::strutil::str_eq;

verus! {

/// Palette index referencing an external 3D model.
pub type PaletteIndex = u32;

/// Stable identifier of a room within an island.
pub type RoomId = u32;

/// One cell of a room's grid: empty, a palette reference, or a door into
/// another room.  Equality is structural.
#[derive(Clone, Copy, Debug, PartialEq, Eq, Structural)]
pub enum TileData {
    /// An empty cell; written as `None` in authored files.
    Empty,
    Tile(PaletteIndex),
    Door(PaletteIndex, RoomId),
}

/// One sparse tile assignment of a room: `tile` stands at grid cell `index`.
///
/// A room keeps these in registration order; when two entries name the same
/// cell, the later one wins when the dense grid is built.
#[derive(Clone, Copy, Debug, PartialEq, Eq, Structural)]
pub struct TileEntry {
    pub index: usize,
    pub tile: TileData,
}

/// Core island configuration, authored as one file.
#[derive(Debug)]
pub struct Island {
    pub dock_room_id: RoomId,
    pub name: String,
    pub description: String,
}

/// Mathematical image of an [`Island`].
pub struct IslandView {
    pub dock_room_id: RoomId,
    pub name: Seq<char>,
    pub description: Seq<char>,
}

impl View for Island {
    type V = IslandView;

    open spec fn view(&self) -> IslandView {
        IslandView {
            dock_room_id: self.dock_room_id,
            name: self.name@,
            description: self.description@,
        }
    }
}

/// Room definition, authored as one file: a box `[pos, pos + extent)` per
/// axis, per-axis looping flags, and sparse tile data.
#[derive(Debug)]
pub struct Room {
    pub room_id: RoomId,
    /// World position (for adjacency checks).
    pub pos_x: i64,
    pub pos_y: i64,
    pub pos_z: i64,
    /// Grid extents.
    pub extent_x: u32,
    pub extent_y: u32,
    pub extent_z: u32,
    /// Looping per axis.
    pub looping_x: bool,
    pub looping_y: bool,
    pub looping_z: bool,
    /// Sparse tile data, in registration order.
    pub tiles: Vec<TileEntry>,
}

/// Mathematical image of a [`Room`].
pub struct RoomView {
    pub room_id: RoomId,
    pub pos_x: i64,
    pub pos_y: i64,
    pub pos_z: i64,
    pub extent_x: u32,
    pub extent_y: u32,
    pub extent_z: u32,
    pub looping_x: bool,
    pub looping_y: bool,
    pub looping_z: bool,
    pub tiles: Seq<TileEntry>,
}

impl View for Room {
    type V = RoomView;

    open spec fn view(&self) -> RoomView {
        RoomView {
            room_id: self.room_id,
            pos_x: self.pos_x,
            pos_y: self.pos_y,
            pos_z: self.pos_z,
            extent_x: self.extent_x,
            extent_y: self.extent_y,
            extent_z: self.extent_z,
            looping_x: self.looping_x,
            looping_y: self.looping_y,
            looping_z: self.looping_z,
            tiles: self.tiles@,
        }
    }
}

/// One key/value pair of an entity spawn's property bag.
#[derive(Debug)]
pub struct PropEntry {
    pub key: String,
    pub value: String,
}

/// Mathematical image of a [`PropEntry`].
pub struct PropEntryView {
    pub key: Seq<char>,
    pub value: Seq<char>,
}

impl View for PropEntry {
    type V = PropEntryView;

    open spec fn view(&self) -> PropEntryView {
        PropEntryView { key: self.key@, value: self.value@ }
    }
}

/// Entity spawn point, authored as one file.  The property bag's semantics
/// are defined entirely by script-registered field schemas; this engine
/// never interprets the values.
#[derive(Debug)]
pub struct EntitySpawn {
    pub entity_type: String,
    pub room_id: RoomId,
    pub grid_index: usize,
    /// Script-defined properties serialized as strings, in authored order.
    pub properties: Vec<PropEntry>,
}

/// Mathematical image of an [`EntitySpawn`].
pub struct EntitySpawnView {
    pub entity_type: Seq<char>,
    pub room_id: RoomId,
    pub grid_index: usize,
    pub properties: Seq<PropEntryView>,
}

impl View for EntitySpawn {
    type V = EntitySpawnView;

    open spec fn view(&self) -> EntitySpawnView {
        EntitySpawnView {
            entity_type: self.entity_type@,
            room_id: self.room_id,
            grid_index: self.grid_index,
            properties: self.properties@.map_values(|p: PropEntry| p@),
        }
    }
}

impl EntitySpawn {
    /// First value recorded for `key`, if any.
    pub fn get_property(&self, key: &str) -> (r: Option<&String>)
        ensures
            match r {
                Some(v) => exists|i: int|
                    0 <= i < self@.properties.len() && (#[trigger] self@.properties[i]).key
                        == key@ && self@.properties[i].value == v@ && forall|j: int|
                        0 <= j < i ==> (#[trigger] self@.properties[j]).key != key@,
                None => forall|i: int|
                    0 <= i < self@.properties.len() ==> (#[trigger] self@.properties[i]).key
                        != key@,
            },
    {
        let mut i: usize = 0;
        while i < self.properties.len()
            invariant
                i <= self.properties.len(),
                forall|j: int| 0 <= j < i ==> self@.properties[j].key != key@,
            decreases self.properties.len() - i,
        {
            proof {
                assert(self@.properties[i as int] == self.properties@[i as int]@);
            }
            if str_eq(self.properties[i].key.as_str(), key) {
                return Some(&self.properties[i].value);
            }
            i += 1;
        }
        None
    }
}

/// Runtime island state: the loaded configuration plus the loaded rooms.
/// Constructed on demand as a snapshot of the authoring state.
#[derive(Debug)]
pub struct IslandData {
    pub island: Island,
    pub rooms: Vec<Room>,
}

/// Mathematical image of an [`IslandData`].
pub struct IslandDataView {
    pub island: IslandView,
    pub rooms: Seq<RoomView>,
}

impl View for IslandData {
    type V = IslandDataView;

    open spec fn view(&self) -> IslandDataView {
        IslandDataView {
            island: self.island@,
            rooms: self.rooms@.map_values(|r: Room| r@),
        }
    }
}

/// The two boxes' extents touch exactly on one axis: `a` ends where `b`
/// begins, or the other way round.
pub open spec fn axis_face_touch(a_pos: int, a_ext: int, b_pos: int, b_ext: int) -> bool {
    a_pos + a_ext == b_pos || b_pos + b_ext == a_pos
}

/// The two boxes' projections on one axis overlap with positive measure
/// (strict overlap, not merely touching).
pub open spec fn axis_strict_overlap(a_pos: int, a_ext: int, b_pos: int, b_ext: int) -> bool {
    !(a_pos + a_ext <= b_pos || b_pos + b_ext <= a_pos)
}

/// Two rooms share a 2D face: on some axis their extents touch exactly,
/// and on both other axes their projections strictly overlap.
pub open spec fn spec_adjacent(a: RoomView, b: RoomView) -> bool {
    ||| {
        &&& axis_face_touch(a.pos_x as int, a.extent_x as int, b.pos_x as int, b.extent_x as int)
        &&& axis_strict_overlap(a.pos_y as int, a.extent_y as int, b.pos_y as int, b.extent_y as int)
        &&& axis_strict_overlap(a.pos_z as int, a.extent_z as int, b.pos_z as int, b.extent_z as int)
    }
    ||| {
        &&& axis_face_touch(a.pos_y as int, a.extent_y as int, b.pos_y as int, b.extent_y as int)
        &&& axis_strict_overlap(a.pos_x as int, a.extent_x as int, b.pos_x as int, b.extent_x as int)
        &&& axis_strict_overlap(a.pos_z as int, a.extent_z as int, b.pos_z as int, b.extent_z as int)
    }
    ||| {
        &&& axis_face_touch(a.pos_z as int, a.extent_z as int, b.pos_z as int, b.extent_z as int)
        &&& axis_strict_overlap(a.pos_x as int, a.extent_x as int, b.pos_x as int, b.extent_x as int)
        &&& axis_strict_overlap(a.pos_y as int, a.extent_y as int, b.pos_y as int, b.extent_y as int)
    }
}

/// First room with identifier `id` at or after position `i`, if any.
pub open spec fn find_room_from(rooms: Seq<RoomView>, id: RoomId, i: int) -> Option<RoomView>
    decreases rooms.len() - i,
{
    if i < 0 || i >= rooms.len() {
        Option::None
    } else if rooms[i].room_id == id {
        Option::Some(rooms[i])
    } else {
        find_room_from(rooms, id, i + 1)
    }
}

/// First room with identifier `id`, if any.  Duplicate registrations keep
/// both entries; lookups see the earliest.
pub open spec fn find_room(rooms: Seq<RoomView>, id: RoomId) -> Option<RoomView> {
    find_room_from(rooms, id, 0)
}

/// Whether the rooms named `a` and `b` are physically adjacent: false when
/// the two identifiers are equal or either is not among the loaded rooms.
pub open spec fn spec_rooms_are_adjacent(d: IslandDataView, a: RoomId, b: RoomId) -> bool {
    if a == b {
        false
    } else {
        match (find_room(d.rooms, a), find_room(d.rooms, b)) {
            (Option::Some(ra), Option::Some(rb)) => spec_adjacent(ra, rb),
            _ => false,
        }
    }
}

impl Room {
    /// Check whether two rooms share a face (are physically adjacent).
    pub fn are_adjacent(a: &Room, b: &Room) -> (r: bool)
        ensures
            r == spec_adjacent(a@, b@),
    {
        let a_min_x: i128 = a.pos_x as i128;
        let a_max_x: i128 = a.pos_x as i128 + a.extent_x as i128;
        let a_min_y: i128 = a.pos_y as i128;
        let a_max_y: i128 = a.pos_y as i128 + a.extent_y as i128;
        let a_min_z: i128 = a.pos_z as i128;
        let a_max_z: i128 = a.pos_z as i128 + a.extent_z as i128;

        let b_min_x: i128 = b.pos_x as i128;
        let b_max_x: i128 = b.pos_x as i128 + b.extent_x as i128;
        let b_min_y: i128 = b.pos_y as i128;
        let b_max_y: i128 = b.pos_y as i128 + b.extent_y as i128;
        let b_min_z: i128 = b.pos_z as i128;
        let b_max_z: i128 = b.pos_z as i128 + b.extent_z as i128;

        let x_adjacent = (a_max_x == b_min_x || b_max_x == a_min_x)
            && !(a_max_y <= b_min_y || b_max_y <= a_min_y)
            && !(a_max_z <= b_min_z || b_max_z <= a_min_z);

        let y_adjacent = (a_max_y == b_min_y || b_max_y == a_min_y)
            && !(a_max_x <= b_min_x || b_max_x <= a_min_x)
            && !(a_max_z <= b_min_z || b_max_z <= a_min_z);

        let z_adjacent = (a_max_z == b_min_z || b_max_z == a_min_z)
            && !(a_max_x <= b_min_x || b_max_x <= a_min_x)
            && !(a_max_y <= b_min_y || b_max_y <= a_min_y);

        x_adjacent || y_adjacent || z_adjacent
    }
}

/// First index at or after `i` whose room carries `id`, with its meaning
/// tied to [`find_room_from`].
fn find_room_index(rooms: &Vec<Room>, id: RoomId) -> (r: Option<usize>)
    ensures
        match r {
            Some(i) => i < rooms.len()
                && find_room(rooms@.map_values(|r: Room| r@), id)
                    == Option::Some(rooms@.map_values(|r: Room| r@)[i as int]),
            None => find_room(rooms@.map_values(|r: Room| r@), id) is None,
        },
{
    let ghost rs = rooms@.map_values(|r: Room| r@);
    let mut i: usize = 0;
    while i < rooms.len()
        invariant
            i <= rooms.len(),
            rs == rooms@.map_values(|r: Room| r@),
            find_room_from(rs, id, 0) == find_room_from(rs, id, i as int),
        decreases rooms.len() - i,
    {
        if rooms[i].room_id == id {
            assert(rs[i as int] == rooms@[i as int]@);
            return Some(i);
        }
        assert(rs[i as int] == rooms@[i as int]@);
        i += 1;
    }
    None
}

impl IslandData {
    pub fn new(island: Island, rooms: Vec<Room>) -> (r: Self)
        ensures
            r@.island == island@,
            r@.rooms == rooms@.map_values(|r: Room| r@),
    {
        Self { island, rooms }
    }

    /// Check whether two loaded rooms are physically adjacent (share a
    /// face).  This allows navigation without explicit doors.  A room is
    /// never adjacent to itself, and an unknown identifier is adjacent to
    /// nothing.
    pub fn rooms_are_adjacent(&self, room_a_id: RoomId, room_b_id: RoomId) -> (r: bool)
        ensures
            r == spec_rooms_are_adjacent(self@, room_a_id, room_b_id),
    {
        if room_a_id == room_b_id {
            return false;
        }

        let room_a = find_room_index(&self.rooms, room_a_id);
        let room_b = find_room_index(&self.rooms, room_b_id);

        match (room_a, room_b) {
            (Some(a), Some(b)) => Room::are_adjacent(&self.rooms[a], &self.rooms[b]),
            _ => false,
        }
    }
}

/// Adjacency of room boxes is symmetric in its two arguments.
pub proof fn lemma_adjacent_symmetric(a: RoomView, b: RoomView)
    ensures
        spec_adjacent(a, b) == spec_adjacent(b, a),
{
}

/// The adjacency query is symmetric: looking up `a` then `b` answers the
/// same as looking up `b` then `a`, whichever rooms are loaded.
pub proof fn lemma_rooms_are_adjacent_symmetric(d: IslandDataView, a: RoomId, b: RoomId)
    ensures
        spec_rooms_are_adjacent(d, a, b) == spec_rooms_are_adjacent(d, b, a),
{
    if a != b {
        match (find_room(d.rooms, a), find_room(d.rooms, b)) {
            (Option::Some(ra), Option::Some(rb)) => {
                lemma_adjacent_symmetric(ra, rb);
            },
            _ => {},
        }
    }
}

/// A room is never adjacent to itself: the query on one identifier twice
/// answers false regardless of geometry.
pub proof fn lemma_rooms_are_adjacent_irreflexive(d: IslandDataView, a: RoomId)
    ensures
        !spec_rooms_are_adjacent(d, a, a),
{
}

/// An element-wise copy of a tile list.
pub fn clone_tile_entries(v: &Vec<TileEntry>) -> (r: Vec<TileEntry>)
    ensures
        r@ == v@,
{
    let mut out: Vec<TileEntry> = Vec::new();
    let mut i: usize = 0;
    while i < v.len()
        invariant
            i <= v.len(),
            out@ =~= v@.subrange(0, i as int),
        decreases v.len() - i,
    {
        out.push(v[i]);
        i += 1;
    }
    proof {
        assert(out@ =~= v@);
    }
    out
}

impl Clone for Island {
    /// A copy that stands for the same island.
    fn clone(&self) -> (r: Self)
        ensures
            r@ == self@,
    {
        Island {
            dock_room_id: self.dock_room_id,
            name: self.name.clone(),
            description: self.description.clone(),
        }
    }
}

impl Clone for Room {
    /// A copy that stands for the same room.
    fn clone(&self) -> (r: Self)
        ensures
            r@ == self@,
    {
        Room {
            room_id: self.room_id,
            pos_x: self.pos_x,
            pos_y: self.pos_y,
            pos_z: self.pos_z,
            extent_x: self.extent_x,
            extent_y: self.extent_y,
            extent_z: self.extent_z,
            looping_x: self.looping_x,
            looping_y: self.looping_y,
            looping_z: self.looping_z,
            tiles: clone_tile_entries(&self.tiles),
        }
    }
}

impl Clone for PropEntry {
    /// A copy that stands for the same property.
    fn clone(&self) -> (r: Self)
        ensures
            r@ == self@,
    {
        PropEntry { key: self.key.clone(), value: self.value.clone() }
    }
}

impl Clone for EntitySpawn {
    /// A copy that stands for the same spawn.
    fn clone(&self) -> (r: Self)
        ensures
            r@ == self@,
    {
        let mut properties: Vec<PropEntry> = Vec::new();
        let mut i: usize = 0;
        while i < self.properties.len()
            invariant
                i <= self.properties.len(),
                properties@.len() == i,
                forall|m: int| 0 <= m < i ==> (#[trigger] properties@[m])@
                    == self.properties@[m]@,
            decreases self.properties.len() - i,
        {
            properties.push(self.properties[i].clone());
            i += 1;
        }
        proof {
            let a = properties@.map_values(|p: PropEntry| p@);
            let b = self.properties@.map_values(|p: PropEntry| p@);
            assert(a =~= b) by {
                assert(forall|m: int| 0 <= m < a.len() ==> #[trigger] a[m] == properties@[m]@);
                assert(forall|m: int|
                    0 <= m < b.len() ==> #[trigger] b[m] == self.properties@[m]@);
            }
        }
        EntitySpawn {
            entity_type: self.entity_type.clone(),
            room_id: self.room_id,
            grid_index: self.grid_index,
            properties,
        }
    }
}

/// An element-wise copy of a room list.
pub fn clone_rooms(v: &Vec<Room>) -> (r: Vec<Room>)
    ensures
        r@.map_values(|x: Room| x@) == v@.map_values(|x: Room| x@),
{
    let mut out: Vec<Room> = Vec::new();
    let mut i: usize = 0;
    while i < v.len()
        invariant
            i <= v.len(),
            out@.len() == i,
            forall|m: int| 0 <= m < i ==> (#[trigger] out@[m])@ == v@[m]@,
        decreases v.len() - i,
    {
        out.push(v[i].clone());
        i += 1;
    }
    proof {
        let a = out@.map_values(|x: Room| x@);
        let b = v@.map_values(|x: Room| x@);
        assert(a =~= b) by {
            assert(forall|m: int| 0 <= m < a.len() ==> #[trigger] a[m] == out@[m]@);
            assert(forall|m: int| 0 <= m < b.len() ==> #[trigger] b[m] == v@[m]@);
        }
    }
    out
}

impl Clone for IslandData {
    /// A copy that stands for the same runtime state.
    fn clone(&self) -> (r: Self)
        ensures
            r@ == self@,
    {
        IslandData { island: self.island.clone(), rooms: clone_rooms(&self.rooms) }
    }
}

} // verus!
