//! The shared island authoring state and its operations.
//!
//! One sandbox session owns one [`IslandData`]: the aggregate every
//! authoring operation of the script host binding mutates.  The embedding
//! host wraps it in a mutual-exclusion boundary (all access is exclusive;
//! no operation is held across anything but its own synchronous work) and
//! performs the file reads; each operation here takes plain values — for
//! the loaders, the requested path and the outcome of reading it — and
//! decides everything else under contract.  Script callbacks are opaque
//! handles minted by the host; the state only records them.

use vstd::prelude::*;

use crate::fields::FieldRegistration;
use crate::fields::FieldRegistrationView;
use crate::fields::OptionBag;
use crate::fields::parse_field_options;
use crate::fields::spec_parse_options;
use crate::mechanics::EntitySpawn;
use crate::mechanics::EntitySpawnView;
use crate::mechanics::Island;
use crate::mechanics::IslandView;
use crate::mechanics::Room;
use crate::mechanics::RoomId;
use crate::mechanics::RoomView;
use crate::mechanics::clone_rooms;
use crate::strutil::str_eq;
use crate::text::spec_parse_island;
use crate::text::spec_parse_room;
use crate::text::spec_parse_spawn;

verus! {

/// An opaque reference to a script function held in the interpreter's
/// registry.  The host mints the identifier; the state only stores it.
#[derive(Clone, Copy, Debug, PartialEq, Eq, Structural)]
pub struct CallbackRef {
    pub id: u64,
}

/// A per-room callback registration.
#[derive(Clone, Copy, Debug, PartialEq, Eq, Structural)]
pub struct RoomCallback {
    pub room_id: RoomId,
    pub fun: CallbackRef,
}

/// The field declarations accumulated for one kind, in registration
/// order.
#[derive(Clone, Debug)]
pub struct KindFields {
    pub kind: String,
    pub fields: Vec<FieldRegistration>,
}

/// Mathematical image of a [`KindFields`].
pub struct KindFieldsView {
    pub kind: Seq<char>,
    pub fields: Seq<FieldRegistrationView>,
}

impl View for KindFields {
    type V = KindFieldsView;

    open spec fn view(&self) -> KindFieldsView {
        KindFieldsView {
            kind: self.kind@,
            fields: self.fields@.map_values(|f: FieldRegistration| f@),
        }
    }
}

/// One external-asset registration: a validated name and the resolved
/// path it stands for.
#[derive(Clone, Debug)]
pub struct GltfEntry {
    pub name: String,
    pub path: String,
}

/// Mathematical image of a [`GltfEntry`].
pub struct GltfEntryView {
    pub name: Seq<char>,
    pub path: Seq<char>,
}

impl View for GltfEntry {
    type V = GltfEntryView;

    open spec fn view(&self) -> GltfEntryView {
        GltfEntryView { name: self.name@, path: self.path@ }
    }
}

/// Why an authoring operation failed.  Every failure is recoverable and
/// surfaced to the calling script.
#[derive(Debug)]
pub enum LoadError {
    /// A name or path was rejected before any file was touched.
    Validation { detail: String },
    /// The file could not be read; `path` is the path the script asked
    /// for.
    Io { path: String, detail: String },
    /// The file was read but does not follow its record's grammar.
    Parse { path: String },
    /// The adjacency query needs a loaded island configuration.
    ConfigMissing,
}

/// Mathematical image of a [`LoadError`].
pub enum LoadErrorView {
    Validation { detail: Seq<char> },
    Io { path: Seq<char>, detail: Seq<char> },
    Parse { path: Seq<char> },
    ConfigMissing,
}

impl View for LoadError {
    type V = LoadErrorView;

    open spec fn view(&self) -> LoadErrorView {
        match self {
            LoadError::Validation { detail } => LoadErrorView::Validation { detail: detail@ },
            LoadError::Io { path, detail } => LoadErrorView::Io {
                path: path@,
                detail: detail@,
            },
            LoadError::Parse { path } => LoadErrorView::Parse { path: path@ },
            LoadError::ConfigMissing => LoadErrorView::ConfigMissing,
        }
    }
}

/// The descriptive text of an error, by variant.
pub open spec fn spec_error_message(e: LoadErrorView) -> Seq<char> {
    match e {
        LoadErrorView::Validation { detail } => "invalid name or path: "@ + detail,
        LoadErrorView::Io { path, detail } => "failed to read "@ + (path + (": "@ + detail)),
        LoadErrorView::Parse { path } => "failed to parse "@ + path,
        LoadErrorView::ConfigMissing => "island config not loaded"@,
    }
}

impl LoadError {
    /// The descriptive text of this error; an I/O or parse message names
    /// the path the script asked for.
    pub fn message(&self) -> (r: String)
        ensures
            r@ == spec_error_message(self@),
    {
        let mut out: Vec<char> = Vec::new();
        match self {
            LoadError::Validation { detail } => {
                crate::text::push_lit(&mut out, "invalid name or path: ");
                crate::text::push_lit(&mut out, detail.as_str());
            },
            LoadError::Io { path, detail } => {
                crate::text::push_lit(&mut out, "failed to read ");
                crate::text::push_lit(&mut out, path.as_str());
                crate::text::push_lit(&mut out, ": ");
                crate::text::push_lit(&mut out, detail.as_str());
            },
            LoadError::Parse { path } => {
                crate::text::push_lit(&mut out, "failed to parse ");
                crate::text::push_lit(&mut out, path.as_str());
            },
            LoadError::ConfigMissing => {
                crate::text::push_lit(&mut out, "island config not loaded");
            },
        }
        proof {
            assert(out@ =~= spec_error_message(self@));
        }
        crate::strutil::chars_to_string(&out)
    }
}

/// The field declarations recorded for `kind` at or after position `i`.
pub open spec fn kind_fields_from(
    ks: Seq<KindFieldsView>,
    kind: Seq<char>,
    i: int,
) -> Option<Seq<FieldRegistrationView>>
    decreases ks.len() - i,
{
    if i < 0 || i >= ks.len() {
        Option::None
    } else if ks[i].kind == kind {
        Option::Some(ks[i].fields)
    } else {
        kind_fields_from(ks, kind, i + 1)
    }
}

/// The field declarations recorded for `kind`, if any.
pub open spec fn kind_fields_of(ks: Seq<KindFieldsView>, kind: Seq<char>) -> Option<
    Seq<FieldRegistrationView>,
> {
    kind_fields_from(ks, kind, 0)
}

/// The declarations recorded for `kind`, or none yet.
pub open spec fn kind_fields_or_empty(ks: Seq<KindFieldsView>, kind: Seq<char>) -> Seq<
    FieldRegistrationView,
> {
    match kind_fields_of(ks, kind) {
        Option::Some(fs) => fs,
        Option::None => Seq::empty(),
    }
}

/// The images of a kind-field list.
pub open spec fn kind_views(ks: Seq<KindFields>) -> Seq<KindFieldsView> {
    ks.map_values(|k: KindFields| k@)
}

/// The resolved path registered under `name`, later registrations
/// shadowing earlier ones.
pub open spec fn gltf_path_of(gs: Seq<GltfEntryView>, name: Seq<char>) -> Option<Seq<char>>
    decreases gs.len(),
{
    if gs.len() == 0 {
        Option::None
    } else if gs.last().name == name {
        Option::Some(gs.last().path)
    } else {
        gltf_path_of(gs.drop_last(), name)
    }
}

/// The callback registered for a room, later registrations shadowing
/// earlier ones.
pub open spec fn callback_of(cbs: Seq<RoomCallback>, id: RoomId) -> Option<CallbackRef>
    decreases cbs.len(),
{
    if cbs.len() == 0 {
        Option::None
    } else if cbs.last().room_id == id {
        Option::Some(cbs.last().fun)
    } else {
        callback_of(cbs.drop_last(), id)
    }
}

/// The shared authoring state of one sandbox session.
#[derive(Debug)]
pub struct IslandData {
    pub tile_layers: Vec<String>,
    pub entity_layers: Vec<String>,
    pub tile_fields: Vec<KindFields>,
    pub entity_fields: Vec<KindFields>,
    pub island_config: Option<Island>,
    pub rooms: Vec<Room>,
    pub entity_spawns: Vec<EntitySpawn>,
    pub gltf_registry: Vec<GltfEntry>,
    pub base_path: String,
    pub room_process_fns: Vec<RoomCallback>,
    pub room_physics_process_fns: Vec<RoomCallback>,
    pub process_fn: Option<CallbackRef>,
    pub physics_process_fn: Option<CallbackRef>,
}

/// Mathematical image of an [`IslandData`].
pub struct IslandDataView {
    pub tile_layers: Seq<Seq<char>>,
    pub entity_layers: Seq<Seq<char>>,
    pub tile_fields: Seq<KindFieldsView>,
    pub entity_fields: Seq<KindFieldsView>,
    pub island_config: Option<IslandView>,
    pub rooms: Seq<RoomView>,
    pub entity_spawns: Seq<EntitySpawnView>,
    pub gltf_registry: Seq<GltfEntryView>,
    pub base_path: Seq<char>,
    pub room_process_fns: Seq<RoomCallback>,
    pub room_physics_process_fns: Seq<RoomCallback>,
    pub process_fn: Option<CallbackRef>,
    pub physics_process_fn: Option<CallbackRef>,
}

impl View for IslandData {
    type V = IslandDataView;

    open spec fn view(&self) -> IslandDataView {
        IslandDataView {
            tile_layers: self.tile_layers@.map_values(|s: String| s@),
            entity_layers: self.entity_layers@.map_values(|s: String| s@),
            tile_fields: kind_views(self.tile_fields@),
            entity_fields: kind_views(self.entity_fields@),
            island_config: match &self.island_config {
                Some(c) => Some(c@),
                None => None,
            },
            rooms: self.rooms@.map_values(|r: Room| r@),
            entity_spawns: self.entity_spawns@.map_values(|s: EntitySpawn| s@),
            gltf_registry: self.gltf_registry@.map_values(|g: GltfEntry| g@),
            base_path: self.base_path@,
            room_process_fns: self.room_process_fns@,
            room_physics_process_fns: self.room_physics_process_fns@,
            process_fn: self.process_fn,
            physics_process_fn: self.physics_process_fn,
        }
    }
}

impl IslandData {
    /// A fresh session state over the given base directory: nothing
    /// loaded, nothing registered.
    pub fn new(base_path: String) -> (r: Self)
        ensures
            r@.tile_layers.len() == 0,
            r@.entity_layers.len() == 0,
            r@.tile_fields.len() == 0,
            r@.entity_fields.len() == 0,
            r@.island_config is None,
            r@.rooms.len() == 0,
            r@.entity_spawns.len() == 0,
            r@.gltf_registry.len() == 0,
            r@.base_path == base_path@,
            r@.room_process_fns.len() == 0,
            r@.room_physics_process_fns.len() == 0,
            r@.process_fn is None,
            r@.physics_process_fn is None,
    {
        IslandData {
            tile_layers: Vec::new(),
            entity_layers: Vec::new(),
            tile_fields: Vec::new(),
            entity_fields: Vec::new(),
            island_config: None,
            rooms: Vec::new(),
            entity_spawns: Vec::new(),
            gltf_registry: Vec::new(),
            base_path,
            room_process_fns: Vec::new(),
            room_physics_process_fns: Vec::new(),
            process_fn: None,
            physics_process_fn: None,
        }
    }

    /// Replace the ordered tile layer names wholesale.
    pub fn set_tile_layers(&mut self, layers: Vec<String>)
        ensures
            final(self)@ == (IslandDataView {
                tile_layers: layers@.map_values(|s: String| s@),
                ..old(self)@
            }),
    {
        self.tile_layers = layers;
    }

    /// Replace the ordered entity layer names wholesale.
    pub fn set_entity_layers(&mut self, layers: Vec<String>)
        ensures
            final(self)@ == (IslandDataView {
                entity_layers: layers@.map_values(|s: String| s@),
                ..old(self)@
            }),
    {
        self.entity_layers = layers;
    }

    /// The tile layer names, in order.
    pub fn get_tile_layers(&self) -> (r: Vec<String>)
        ensures
            r@.map_values(|s: String| s@) == self@.tile_layers,
    {
        clone_strings(&self.tile_layers)
    }

    /// The entity layer names, in order.
    pub fn get_entity_layers(&self) -> (r: Vec<String>)
        ensures
            r@.map_values(|s: String| s@) == self@.entity_layers,
    {
        clone_strings(&self.entity_layers)
    }

    /// How many rooms have been registered, duplicates included.
    pub fn get_room_count(&self) -> (r: usize)
        ensures
            r == self@.rooms.len(),
    {
        self.rooms.len()
    }

    /// How many entity spawns have been loaded.
    pub fn get_entity_spawn_count(&self) -> (r: usize)
        ensures
            r == self@.entity_spawns.len(),
    {
        self.entity_spawns.len()
    }

    /// Record the global per-frame callback, shadowing any earlier one.
    /// Whether a room-level callback replaces it is the consumer's
    /// decision; both registrations are kept as given.
    pub fn register_process_fn(&mut self, fun: CallbackRef)
        ensures
            final(self)@ == (IslandDataView { process_fn: Some(fun), ..old(self)@ }),
    {
        self.process_fn = Some(fun);
    }

    /// Record the global physics-step callback, shadowing any earlier
    /// one.
    pub fn register_physics_process_fn(&mut self, fun: CallbackRef)
        ensures
            final(self)@ == (IslandDataView { physics_process_fn: Some(fun), ..old(self)@ }),
    {
        self.physics_process_fn = Some(fun);
    }

    /// The runtime snapshot: the loaded configuration together with the
    /// loaded rooms, or nothing while no configuration is loaded.
    pub fn get_mechanics_island_data(&self) -> (r: Option<crate::mechanics::IslandData>)
        ensures
            match r {
                Some(d) => self@.island_config == Some(d@.island) && d@.rooms == self@.rooms,
                None => self@.island_config is None,
            },
    {
        match &self.island_config {
            Some(config) => Some(
                crate::mechanics::IslandData::new(config.clone(), clone_rooms(&self.rooms)),
            ),
            None => None,
        }
    }

    /// Whether the two named rooms are physically adjacent, judged on the
    /// loaded rooms; an error while no island configuration is loaded.
    pub fn rooms_are_adjacent(&self, room_a_id: RoomId, room_b_id: RoomId) -> (r: Result<
        bool,
        LoadError,
    >)
        ensures
            match r {
                Ok(b) => self@.island_config matches Some(c) && b
                    == crate::mechanics::spec_rooms_are_adjacent(
                    crate::mechanics::IslandDataView { island: c, rooms: self@.rooms },
                    room_a_id,
                    room_b_id,
                ),
                Err(e) => self@.island_config is None && e@ == LoadErrorView::ConfigMissing,
            },
    {
        match self.get_mechanics_island_data() {
            Some(data) => Ok(data.rooms_are_adjacent(room_a_id, room_b_id)),
            None => Err(LoadError::ConfigMissing),
        }
    }
}

/// An element-wise copy of a string list.
fn clone_strings(v: &Vec<String>) -> (r: Vec<String>)
    ensures
        r@.map_values(|s: String| s@) == v@.map_values(|s: String| s@),
{
    let mut out: Vec<String> = Vec::new();
    let mut i: usize = 0;
    while i < v.len()
        invariant
            i <= v.len(),
            out@.len() == i,
            forall|m: int| 0 <= m < i ==> (#[trigger] out@[m])@ == v@[m]@,
        decreases v.len() - i,
    {
        out.push(v[i].clone());
        i += 1;
    }
    proof {
        let a = out@.map_values(|s: String| s@);
        let b = v@.map_values(|s: String| s@);
        assert(a =~= b) by {
            assert(forall|m: int| 0 <= m < a.len() ==> #[trigger] a[m] == out@[m]@);
            assert(forall|m: int| 0 <= m < b.len() ==> #[trigger] b[m] == v@[m]@);
        }
    }
    out
}

} // verus!

verus! {

proof fn lemma_kf_from_first(s: Seq<KindFieldsView>, i: int, j: int)
    requires
        0 <= j <= i < s.len(),
        forall|m: int| j <= m < i ==> (#[trigger] s[m]).kind != s[i].kind,
    ensures
        kind_fields_from(s, s[i].kind, j) == Option::Some(s[i].fields),
    decreases i - j,
{
    if j < i {
        lemma_kf_from_first(s, i, j + 1);
    }
}

proof fn lemma_kf_from_none(s: Seq<KindFieldsView>, kind: Seq<char>, j: int)
    requires
        forall|m: int| j <= m < s.len() ==> (#[trigger] s[m]).kind != kind,
    ensures
        kind_fields_from(s, kind, j) is None,
    decreases s.len() - j,
{
    if 0 <= j < s.len() {
        lemma_kf_from_none(s, kind, j + 1);
    }
}

proof fn lemma_kf_from_update_same(s: Seq<KindFieldsView>, i: int, e: KindFieldsView, j: int)
    requires
        0 <= j <= i < s.len(),
        forall|m: int| j <= m < i ==> (#[trigger] s[m]).kind != s[i].kind,
        e.kind == s[i].kind,
    ensures
        kind_fields_from(s.update(i, e), s[i].kind, j) == Option::Some(e.fields),
    decreases i - j,
{
    let s2 = s.update(i, e);
    if j == i {
        assert(s2[j] == e);
    } else {
        assert(s2[j] == s[j]);
        lemma_kf_from_update_same(s, i, e, j + 1);
    }
}

proof fn lemma_kf_from_update_other(
    s: Seq<KindFieldsView>,
    i: int,
    e: KindFieldsView,
    k: Seq<char>,
    j: int,
)
    requires
        0 <= i < s.len(),
        e.kind == s[i].kind,
        k != s[i].kind,
    ensures
        kind_fields_from(s.update(i, e), k, j) == kind_fields_from(s, k, j),
    decreases s.len() - j,
{
    let s2 = s.update(i, e);
    if 0 <= j < s.len() {
        if j == i {
            assert(s2[j] == e);
            lemma_kf_from_update_other(s, i, e, k, j + 1);
        } else {
            assert(s2[j] == s[j]);
            if s[j].kind != k {
                lemma_kf_from_update_other(s, i, e, k, j + 1);
            }
        }
    }
}

proof fn lemma_kf_from_push_same(s: Seq<KindFieldsView>, e: KindFieldsView, j: int)
    requires
        0 <= j <= s.len(),
        forall|m: int| j <= m < s.len() ==> (#[trigger] s[m]).kind != e.kind,
    ensures
        kind_fields_from(s.push(e), e.kind, j) == Option::Some(e.fields),
    decreases s.len() - j,
{
    let s2 = s.push(e);
    if j == s.len() {
        assert(s2[j] == e);
    } else {
        assert(s2[j] == s[j]);
        lemma_kf_from_push_same(s, e, j + 1);
    }
}

proof fn lemma_kf_from_push_other(s: Seq<KindFieldsView>, e: KindFieldsView, k: Seq<char>, j: int)
    requires
        k != e.kind,
    ensures
        kind_fields_from(s.push(e), k, j) == kind_fields_from(s, k, j),
    decreases s.len() + 1 - j,
{
    let s2 = s.push(e);
    if 0 <= j < s.len() {
        assert(s2[j] == s[j]);
        if s[j].kind != k {
            lemma_kf_from_push_other(s, e, k, j + 1);
        }
    } else if j == s.len() {
        assert(s2[j] == e);
        assert(kind_fields_from(s2, k, j + 1) is None);
    }
}

/// First registry slot that carries `kind`, if any.
fn find_kind(ks: &Vec<KindFields>, kind: &str) -> (r: Option<usize>)
    ensures
        match r {
            Some(i) => i < ks.len() && ks@[i as int]@.kind == kind@ && forall|j: int|
                0 <= j < i ==> (#[trigger] ks@[j])@.kind != kind@,
            None => forall|j: int| 0 <= j < ks@.len() ==> (#[trigger] ks@[j])@.kind != kind@,
        },
{
    let mut i: usize = 0;
    while i < ks.len()
        invariant
            i <= ks.len(),
            forall|j: int| 0 <= j < i ==> (#[trigger] ks@[j])@.kind != kind@,
        decreases ks.len() - i,
    {
        if str_eq(ks[i].kind.as_str(), kind) {
            return Some(i);
        }
        i += 1;
    }
    None
}

/// Append one declaration to the sequence registered for `kind`,
/// creating that sequence if absent; every other kind's sequence is
/// untouched.
fn register_field_in(ks: &mut Vec<KindFields>, kind: &str, reg: FieldRegistration)
    ensures
        kind_fields_of(kind_views(final(ks)@), kind@) == Option::Some(
            kind_fields_or_empty(kind_views(old(ks)@), kind@).push(reg@),
        ),
        forall|k: Seq<char>|
            k != kind@ ==> #[trigger] kind_fields_of(kind_views(final(ks)@), k)
                == kind_fields_of(kind_views(old(ks)@), k),
{
    let ghost olds = kind_views(ks@);
    match find_kind(ks, kind) {
        Some(i) => {
            let mut kf = ks.remove(i);
            let ghost oldfields = kf@.fields;
            kf.fields.push(reg);
            proof {
                let a = kf.fields@.map_values(|f: FieldRegistration| f@);
                assert(a =~= oldfields.push(reg@)) by {
                    assert(forall|m: int|
                        0 <= m < a.len() ==> #[trigger] a[m] == kf.fields@[m]@);
                }
            }
            ks.insert(i, kf);
            proof {
                let news = kind_views(ks@);
                assert(news =~= olds.update(i as int, kf@)) by {
                    assert(ks@ =~= old(ks)@.update(i as int, kf));
                    assert(forall|m: int|
                        0 <= m < news.len() ==> #[trigger] news[m] == ks@[m]@);
                    assert(forall|m: int|
                        0 <= m < olds.len() ==> #[trigger] olds[m] == old(ks)@[m]@);
                }
                assert(forall|m: int|
                    0 <= m < olds.len() ==> #[trigger] olds[m] == old(ks)@[m]@);
                assert(olds[i as int] == old(ks)@[i as int]@);
                assert(kf@.kind == olds[i as int].kind);
                assert(kf@.fields == olds[i as int].fields.push(reg@));
                lemma_kf_from_first(olds, i as int, 0);
                assert(kind_fields_or_empty(olds, kind@) == olds[i as int].fields);
                lemma_kf_from_update_same(olds, i as int, kf@, 0);
                assert forall|k: Seq<char>| k != kind@ implies kind_fields_of(
                    news,
                    k,
                ) == kind_fields_of(olds, k) by {
                    lemma_kf_from_update_other(olds, i as int, kf@, k, 0);
                }
            }
        },
        None => {
            let mut fields: Vec<FieldRegistration> = Vec::new();
            fields.push(reg);
            let kf = KindFields { kind: kind.to_owned(), fields };
            ks.push(kf);
            proof {
                let news = kind_views(ks@);
                let kfv = ks@[ks@.len() - 1]@;
                assert(news =~= olds.push(kfv)) by {
                    assert(ks@ =~= old(ks)@.push(ks@[ks@.len() - 1]));
                    assert(forall|m: int|
                        0 <= m < news.len() ==> #[trigger] news[m] == ks@[m]@);
                    assert(forall|m: int|
                        0 <= m < olds.len() ==> #[trigger] olds[m] == old(ks)@[m]@);
                }
                assert(forall|m: int|
                    0 <= m < olds.len() ==> #[trigger] olds[m] == old(ks)@[m]@);
                assert(kfv.kind == kind@);
                assert(kfv.fields =~= seq![reg@]) by {
                    assert(kfv.fields[0] == reg@);
                }
                lemma_kf_from_none(olds, kind@, 0);
                assert(kind_fields_or_empty(olds, kind@) =~= Seq::<
                    FieldRegistrationView,
                >::empty());
                assert(kind_fields_or_empty(olds, kind@).push(reg@) =~= seq![reg@]);
                lemma_kf_from_push_same(olds, kfv, 0);
                assert forall|k: Seq<char>| k != kind@ implies kind_fields_of(
                    news,
                    k,
                ) == kind_fields_of(olds, k) by {
                    lemma_kf_from_push_other(olds, kfv, k, 0);
                }
            }
        },
    }
}

impl IslandData {
    /// Declare one typed field for a tile kind: the declaration is
    /// appended to that kind's sequence, in registration order, with the
    /// option bag read permissively; no other kind is touched.
    pub fn register_tile_field(
        &mut self,
        tile_type: &str,
        field_name: String,
        field_type: String,
        options: OptionBag,
    )
        ensures
            final(self)@ == (IslandDataView {
                tile_fields: final(self)@.tile_fields,
                ..old(self)@
            }),
            kind_fields_of(final(self)@.tile_fields, tile_type@) == Option::Some(
                kind_fields_or_empty(old(self)@.tile_fields, tile_type@).push(
                    FieldRegistrationView {
                        field_name: field_name@,
                        field_type: field_type@,
                        options: spec_parse_options(options@),
                    },
                ),
            ),
            forall|k: Seq<char>|
                k != tile_type@ ==> #[trigger] kind_fields_of(final(self)@.tile_fields, k)
                    == kind_fields_of(old(self)@.tile_fields, k),
    {
        let reg = FieldRegistration {
            field_name,
            field_type,
            options: parse_field_options(options),
        };
        register_field_in(&mut self.tile_fields, tile_type, reg);
    }

    /// Declare one typed field for an entity kind; the exact counterpart
    /// of [`IslandData::register_tile_field`].
    pub fn register_entity_field(
        &mut self,
        entity_type: &str,
        field_name: String,
        field_type: String,
        options: OptionBag,
    )
        ensures
            final(self)@ == (IslandDataView {
                entity_fields: final(self)@.entity_fields,
                ..old(self)@
            }),
            kind_fields_of(final(self)@.entity_fields, entity_type@) == Option::Some(
                kind_fields_or_empty(old(self)@.entity_fields, entity_type@).push(
                    FieldRegistrationView {
                        field_name: field_name@,
                        field_type: field_type@,
                        options: spec_parse_options(options@),
                    },
                ),
            ),
            forall|k: Seq<char>|
                k != entity_type@ ==> #[trigger] kind_fields_of(final(self)@.entity_fields, k)
                    == kind_fields_of(old(self)@.entity_fields, k),
    {
        let reg = FieldRegistration {
            field_name,
            field_type,
            options: parse_field_options(options),
        };
        register_field_in(&mut self.entity_fields, entity_type, reg);
    }

    /// The declarations recorded for a tile kind, in registration order.
    pub fn get_tile_fields(&self, tile_type: &str) -> (r: Option<&Vec<FieldRegistration>>)
        ensures
            match r {
                Some(fs) => kind_fields_of(self@.tile_fields, tile_type@) == Option::Some(
                    fs@.map_values(|f: FieldRegistration| f@),
                ),
                None => kind_fields_of(self@.tile_fields, tile_type@) is None,
            },
    {
        match find_kind(&self.tile_fields, tile_type) {
            Some(i) => {
                proof {
                    assert(forall|m: int|
                        0 <= m < self@.tile_fields.len() ==> #[trigger] self@.tile_fields[m]
                            == self.tile_fields@[m]@);
                    lemma_kf_from_first(self@.tile_fields, i as int, 0);
                }
                Some(&self.tile_fields[i].fields)
            },
            None => {
                proof {
                    assert(forall|m: int|
                        0 <= m < self@.tile_fields.len() ==> #[trigger] self@.tile_fields[m]
                            == self.tile_fields@[m]@);
                    lemma_kf_from_none(self@.tile_fields, tile_type@, 0);
                }
                None
            },
        }
    }

    /// The declarations recorded for an entity kind, in registration
    /// order.
    pub fn get_entity_fields(&self, entity_type: &str) -> (r: Option<&Vec<FieldRegistration>>)
        ensures
            match r {
                Some(fs) => kind_fields_of(self@.entity_fields, entity_type@) == Option::Some(
                    fs@.map_values(|f: FieldRegistration| f@),
                ),
                None => kind_fields_of(self@.entity_fields, entity_type@) is None,
            },
    {
        match find_kind(&self.entity_fields, entity_type) {
            Some(i) => {
                proof {
                    assert(forall|m: int|
                        0 <= m < self@.entity_fields.len() ==> #[trigger] self@.entity_fields[m]
                            == self.entity_fields@[m]@);
                    lemma_kf_from_first(self@.entity_fields, i as int, 0);
                }
                Some(&self.entity_fields[i].fields)
            },
            None => {
                proof {
                    assert(forall|m: int|
                        0 <= m < self@.entity_fields.len() ==> #[trigger] self@.entity_fields[m]
                            == self.entity_fields@[m]@);
                    lemma_kf_from_none(self@.entity_fields, entity_type@, 0);
                }
                None
            },
        }
    }
}

} // verus!

verus! {

impl IslandData {
    /// Register an external 3D asset under a validated name, shadowing
    /// any earlier registration of the same name.  `resolved_path` is the
    /// path the host's validator resolved against the base directory.
    /// Registration succeeds exactly when the filename validator accepts
    /// the name; a rejected name is a recoverable validation error.
    pub fn register_gltf(&mut self, name: &str, resolved_path: String) -> (r: Result<
        (),
        LoadError,
    >)
        ensures
            match r {
                Ok(()) => crate::paths::filename_valid(name@) && final(self)@ == (IslandDataView {
                    gltf_registry: old(self)@.gltf_registry.push(
                        GltfEntryView { name: name@, path: resolved_path@ },
                    ),
                    ..old(self)@
                }),
                Err(e) => !crate::paths::filename_valid(name@) && final(self)@ == old(self)@ && (
                e@ matches LoadErrorView::Validation { detail }),
            },
    {
        match crate::paths::filename_ok(name) {
            Ok(()) => {
                let entry = GltfEntry { name: name.to_owned(), path: resolved_path };
                self.gltf_registry.push(entry);
                proof {
                    let a = self.gltf_registry@.map_values(|g: GltfEntry| g@);
                    let b = old(self).gltf_registry@.map_values(|g: GltfEntry| g@);
                    assert(a =~= b.push(GltfEntryView { name: name@, path: resolved_path@ }))
                        by {
                        assert(forall|m: int|
                            0 <= m < a.len() ==> #[trigger] a[m] == self.gltf_registry@[m]@);
                        assert(forall|m: int|
                            0 <= m < b.len() ==> #[trigger] b[m]
                                == old(self).gltf_registry@[m]@);
                    }
                }
                Ok(())
            },
            Err(detail) => Err(LoadError::Validation { detail }),
        }
    }

    /// The resolved path registered under `name`, if any; the latest
    /// registration wins.
    pub fn get_gltf(&self, name: &str) -> (r: Option<&String>)
        ensures
            match r {
                Some(p) => gltf_path_of(self@.gltf_registry, name@) == Option::Some(p@),
                None => gltf_path_of(self@.gltf_registry, name@) is None,
            },
    {
        let ghost gs = self@.gltf_registry;
        let mut i: usize = self.gltf_registry.len();
        proof {
            assert(gs.take(gs.len() as int) =~= gs);
        }
        while i > 0
            invariant
                i <= self.gltf_registry.len(),
                gs == self@.gltf_registry,
                gltf_path_of(gs, name@) == gltf_path_of(gs.take(i as int), name@),
            decreases i,
        {
            proof {
                assert(gs.take(i as int).last() == gs[i - 1]);
                assert(gs[i - 1] == self.gltf_registry@[i - 1]@);
                assert(gs.take(i as int).drop_last() =~= gs.take(i as int - 1));
            }
            if str_eq(self.gltf_registry[i - 1].name.as_str(), name) {
                return Some(&self.gltf_registry[i - 1].path);
            }
            i -= 1;
        }
        proof {
            assert(gs.take(0) =~= Seq::<GltfEntryView>::empty());
        }
        None
    }

    /// The process callback recorded for a room, if any; the latest
    /// registration for the room wins.
    pub fn get_room_process_fn(&self, room_id: RoomId) -> (r: Option<CallbackRef>)
        ensures
            r == callback_of(self@.room_process_fns, room_id),
    {
        lookup_callback(&self.room_process_fns, room_id)
    }

    /// The physics-step callback recorded for a room, if any; the latest
    /// registration for the room wins.
    pub fn get_room_physics_process_fn(&self, room_id: RoomId) -> (r: Option<CallbackRef>)
        ensures
            r == callback_of(self@.room_physics_process_fns, room_id),
    {
        lookup_callback(&self.room_physics_process_fns, room_id)
    }

    /// Load the island configuration: given the path the script asked
    /// for and the outcome of reading it, replace the configuration only
    /// when the text parses; on any failure the state is unchanged.
    pub fn load_island_config(&mut self, path: &str, read: Result<String, String>) -> (r: Result<
        (),
        LoadError,
    >)
        ensures
            match r {
                Ok(()) => {
                    &&& crate::paths::rel_path_ok(path@)
                    &&& read matches Ok(content) && (spec_parse_island(content@) matches Some(
                        iv,
                    ) && final(self)@ == (IslandDataView {
                        island_config: Some(iv),
                        ..old(self)@
                    }))
                },
                Err(e) => final(self)@ == old(self)@ && match e@ {
                    LoadErrorView::Validation { detail } => !crate::paths::rel_path_ok(path@)
                        && detail == path@,
                    LoadErrorView::Io { path: p, detail } => crate::paths::rel_path_ok(path@)
                        && p == path@ && (read matches Err(d) && detail == d@),
                    LoadErrorView::Parse { path: p } => crate::paths::rel_path_ok(path@) && p
                        == path@ && (read matches Ok(content) && spec_parse_island(content@)
                        is None),
                    LoadErrorView::ConfigMissing => false,
                },
            },
    {
        if !crate::paths::check_rel_path(path) {
            return Err(LoadError::Validation { detail: path.to_owned() });
        }
        match read {
            Ok(content) => match Island::from_text(content.as_str()) {
                Some(island) => {
                    self.island_config = Some(island);
                    Ok(())
                },
                None => Err(LoadError::Parse { path: path.to_owned() }),
            },
            Err(detail) => Err(LoadError::Io { path: path.to_owned(), detail }),
        }
    }

    /// Load one entity spawn: on success the spawn is appended to the
    /// spawn list; no uniqueness constraint holds across spawns.
    pub fn load_entity_spawn(&mut self, path: &str, read: Result<String, String>) -> (r: Result<
        (),
        LoadError,
    >)
        ensures
            match r {
                Ok(()) => {
                    &&& crate::paths::rel_path_ok(path@)
                    &&& read matches Ok(content) && (spec_parse_spawn(content@) matches Some(sv)
                        && final(self)@ == (IslandDataView {
                        entity_spawns: old(self)@.entity_spawns.push(sv),
                        ..old(self)@
                    }))
                },
                Err(e) => final(self)@ == old(self)@ && match e@ {
                    LoadErrorView::Validation { detail } => !crate::paths::rel_path_ok(path@)
                        && detail == path@,
                    LoadErrorView::Io { path: p, detail } => crate::paths::rel_path_ok(path@)
                        && p == path@ && (read matches Err(d) && detail == d@),
                    LoadErrorView::Parse { path: p } => crate::paths::rel_path_ok(path@) && p
                        == path@ && (read matches Ok(content) && spec_parse_spawn(content@)
                        is None),
                    LoadErrorView::ConfigMissing => false,
                },
            },
    {
        if !crate::paths::check_rel_path(path) {
            return Err(LoadError::Validation { detail: path.to_owned() });
        }
        match read {
            Ok(content) => match EntitySpawn::from_text(content.as_str()) {
                Some(spawn) => {
                    let ghost sv = spawn@;
                    self.entity_spawns.push(spawn);
                    proof {
                        let a = self.entity_spawns@.map_values(|s: EntitySpawn| s@);
                        let b = old(self).entity_spawns@.map_values(|s: EntitySpawn| s@);
                        assert(a =~= b.push(sv)) by {
                            assert(forall|m: int|
                                0 <= m < a.len() ==> #[trigger] a[m]
                                    == self.entity_spawns@[m]@);
                            assert(forall|m: int|
                                0 <= m < b.len() ==> #[trigger] b[m]
                                    == old(self).entity_spawns@[m]@);
                        }
                    }
                    Ok(())
                },
                None => Err(LoadError::Parse { path: path.to_owned() }),
            },
            Err(detail) => Err(LoadError::Io { path: path.to_owned(), detail }),
        }
    }

    /// Register one room: on success the room is appended to the room
    /// list — a duplicate identifier is kept as a duplicate entry — and
    /// any callbacks supplied with it are recorded under the room's
    /// identifier, shadowing earlier registrations for that room.
    pub fn register_room(
        &mut self,
        path: &str,
        read: Result<String, String>,
        process: Option<CallbackRef>,
        physics_process: Option<CallbackRef>,
    ) -> (r: Result<(), LoadError>)
        ensures
            match r {
                Ok(()) => {
                    &&& crate::paths::rel_path_ok(path@)
                    &&& read matches Ok(content) && (spec_parse_room(content@) matches Some(rv)
                        && final(self)@ == (IslandDataView {
                        rooms: old(self)@.rooms.push(rv),
                        room_process_fns: match process {
                            Some(f) => old(self)@.room_process_fns.push(
                                RoomCallback { room_id: rv.room_id, fun: f },
                            ),
                            None => old(self)@.room_process_fns,
                        },
                        room_physics_process_fns: match physics_process {
                            Some(f) => old(self)@.room_physics_process_fns.push(
                                RoomCallback { room_id: rv.room_id, fun: f },
                            ),
                            None => old(self)@.room_physics_process_fns,
                        },
                        ..old(self)@
                    }))
                },
                Err(e) => final(self)@ == old(self)@ && match e@ {
                    LoadErrorView::Validation { detail } => !crate::paths::rel_path_ok(path@)
                        && detail == path@,
                    LoadErrorView::Io { path: p, detail } => crate::paths::rel_path_ok(path@)
                        && p == path@ && (read matches Err(d) && detail == d@),
                    LoadErrorView::Parse { path: p } => crate::paths::rel_path_ok(path@) && p
                        == path@ && (read matches Ok(content) && spec_parse_room(content@)
                        is None),
                    LoadErrorView::ConfigMissing => false,
                },
            },
    {
        if !crate::paths::check_rel_path(path) {
            return Err(LoadError::Validation { detail: path.to_owned() });
        }
        match read {
            Ok(content) => match Room::from_text(content.as_str()) {
                Some(room) => {
                    let ghost rv = room@;
                    let room_id = room.room_id;
                    self.rooms.push(room);
                    proof {
                        let a = self.rooms@.map_values(|x: Room| x@);
                        let b = old(self).rooms@.map_values(|x: Room| x@);
                        assert(a =~= b.push(rv)) by {
                            assert(forall|m: int|
                                0 <= m < a.len() ==> #[trigger] a[m] == self.rooms@[m]@);
                            assert(forall|m: int|
                                0 <= m < b.len() ==> #[trigger] b[m] == old(self).rooms@[m]@);
                        }
                    }
                    match process {
                        Some(f) => {
                            self.room_process_fns.push(RoomCallback { room_id, fun: f });
                        },
                        None => {},
                    }
                    match physics_process {
                        Some(f) => {
                            self.room_physics_process_fns.push(
                                RoomCallback { room_id, fun: f },
                            );
                        },
                        None => {},
                    }
                    Ok(())
                },
                None => Err(LoadError::Parse { path: path.to_owned() }),
            },
            Err(detail) => Err(LoadError::Io { path: path.to_owned(), detail }),
        }
    }
}

/// The latest registration for a room in a callback table.
fn lookup_callback(cbs: &Vec<RoomCallback>, room_id: RoomId) -> (r: Option<CallbackRef>)
    ensures
        r == callback_of(cbs@, room_id),
{
    proof {
        assert(cbs@.take(cbs@.len() as int) =~= cbs@);
    }
    let mut i: usize = cbs.len();
    while i > 0
        invariant
            i <= cbs.len(),
            callback_of(cbs@, room_id) == callback_of(cbs@.take(i as int), room_id),
        decreases i,
    {
        proof {
            assert(cbs@.take(i as int).last() == cbs@[i - 1]);
            assert(cbs@.take(i as int).drop_last() =~= cbs@.take(i as int - 1));
        }
        if cbs[i - 1].room_id == room_id {
            return Some(cbs[i - 1].fun);
        }
        i -= 1;
    }
    proof {
        assert(cbs@.take(0) =~= Seq::<RoomCallback>::empty());
    }
    None
}

} // verus!
