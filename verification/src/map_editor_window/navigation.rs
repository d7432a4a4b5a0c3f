//! Moving about in the editor window.

use vstd::prelude::*;

use super::commands::CommandId;
use super::compile::Outcome;
use super::inspector::secrets::{self, empty_secret_marks_request, RequestView, RoomPropertyRef, SecretMarksRequest};
use super::model::{AreaCache, AreaId, AtlasCache, EntityId, ExitId, LabelId, RoomCache, RoomNumber, ShapeId};
use super::window::{self, active_area, can_edit_active_area, EditorChange, EditorState, Tool};
use crate::list;

verus! {

// ===== Secrets =====

/// What a secret is.
#[derive(Clone, Copy, Debug, PartialEq, Eq, Structural)]
pub enum SecretEntityKind {
    Room,
    Exit,
    Label,
    Shape,
    RoomProperty,
    AreaProperty,
}

/// A secret as the server lists it.
pub struct SecretEntity {
    pub kind: SecretEntityKind,
    pub id: Option<u128>,
    pub room_number: Option<i32>,
    pub name: Option<String>,
}

/// A room and its level.
pub open spec fn go_to_room(room: RoomCache) -> Seq<EditorChange> {
    seq![
        EditorChange::SetLevel(room.level),
        EditorChange::Select(EntityId::Room(room.room_number)),
    ]
}

/// Whether a room has an exit.
pub open spec fn has_exit(room: RoomCache, id: ExitId) -> bool {
    exists|i: int| 0 <= i < room.exits@.len() && (#[trigger] room.exits@[i]).id == id
}

/// Where a secret is: rooms and their properties select the room, exits the room
/// they leave, and properties of the area nothing.
pub open spec fn secret_place(area: AreaCache, entity: SecretEntity) -> Seq<EditorChange> {
    match entity.kind {
        SecretEntityKind::Room | SecretEntityKind::RoomProperty => match entity.room_number {
            Some(number) => match area.room(RoomNumber(number)) {
                Some(room) => go_to_room(room),
                None => Seq::empty(),
            },
            None => Seq::empty(),
        },
        SecretEntityKind::Exit => match entity.id {
            Some(id) => match list::first(area.rooms@, |room: RoomCache| has_exit(room, ExitId(id))) {
                Some(room) => go_to_room(room),
                None => Seq::empty(),
            },
            None => Seq::empty(),
        },
        SecretEntityKind::Label => match entity.id {
            Some(id) => match area.label(LabelId(id)) {
                Some(label) => seq![
                    EditorChange::SetLevel(label.level),
                    EditorChange::Select(EntityId::Label(LabelId(id))),
                ],
                None => Seq::empty(),
            },
            None => Seq::empty(),
        },
        SecretEntityKind::Shape => match entity.id {
            Some(id) => match area.shape(ShapeId(id)) {
                Some(shape) => seq![
                    EditorChange::SetLevel(shape.level),
                    EditorChange::Select(EntityId::Shape(ShapeId(id))),
                ],
                None => Seq::empty(),
            },
            None => Seq::empty(),
        },
        SecretEntityKind::AreaProperty => seq![EditorChange::ClearSelection],
    }
}

fn push_two(level: i32, entity: EntityId) -> (changes: Vec<EditorChange>)
    ensures
        changes@ == seq![EditorChange::SetLevel(level), EditorChange::Select(entity)],
{
    let mut changes: Vec<EditorChange> = Vec::new();
    changes.push(EditorChange::SetLevel(level));
    changes.push(EditorChange::Select(entity));
    assert(changes@ =~= seq![EditorChange::SetLevel(level), EditorChange::Select(entity)]);
    changes
}

fn room_has_exit(room: &RoomCache, id: ExitId) -> (has: bool)
    ensures
        has == has_exit(*room, id),
{
    for i in 0..room.exits.len()
        invariant
            forall|k: int| 0 <= k < i ==> (#[trigger] room.exits@[k]).id != id,
    {
        if room.exits[i].id == id {
            return true;
        }
    }
    false
}

fn find_exit_room<'a>(area: &'a AreaCache, id: ExitId) -> (found: Option<&'a RoomCache>)
    ensures
        match found {
            Some(room) => list::first(area.rooms@, |room: RoomCache| has_exit(room, id)) == Some(
                *room,
            ),
            None => list::first(area.rooms@, |room: RoomCache| has_exit(room, id)) is None,
        },
{
    let ghost p = |room: RoomCache| has_exit(room, id);
    for i in 0..area.rooms.len()
        invariant
            p == (|room: RoomCache| has_exit(room, id)),
            forall|k: int| 0 <= k < i ==> !p(#[trigger] area.rooms@[k]),
    {
        if room_has_exit(&area.rooms[i], id) {
            proof {
                list::lemma_first(area.rooms@, p, i as int);
            }
            return Some(&area.rooms[i]);
        }
    }
    None
}

/// Goes to a secret of the active area; `None` when there is no area.
pub fn jump_to_secret(atlas: &AtlasCache, area_id: Option<AreaId>, entity: &SecretEntity) -> (changes: Option<
    Vec<EditorChange>,
>)
    ensures
        match (changes, window::active(*atlas, area_id)) {
            (Some(changes), Some(area)) => changes@ == secret_place(area, *entity),
            (None, None) => true,
            _ => false,
        },
{
    let area = match active_area(atlas, area_id) {
        Some(area) => area,
        None => {
            return None;
        },
    };
    let mut changes: Vec<EditorChange> = Vec::new();
    match entity.kind {
        SecretEntityKind::Room | SecretEntityKind::RoomProperty => {
            if let Some(number) = entity.room_number {
                if let Some(room) = area.get_room(&RoomNumber(number)) {
                    changes = push_two(room.level, EntityId::Room(room.room_number));
                }
            }
        },
        SecretEntityKind::Exit => {
            if let Some(id) = entity.id {
                if let Some(room) = find_exit_room(area, ExitId(id)) {
                    changes = push_two(room.level, EntityId::Room(room.room_number));
                }
            }
        },
        SecretEntityKind::Label => {
            if let Some(id) = entity.id {
                if let Some(label) = area.get_label(&LabelId(id)) {
                    changes = push_two(label.level, EntityId::Label(LabelId(id)));
                }
            }
        },
        SecretEntityKind::Shape => {
            if let Some(id) = entity.id {
                if let Some(shape) = area.get_shape(&ShapeId(id)) {
                    changes = push_two(shape.level, EntityId::Shape(ShapeId(id)));
                }
            }
        },
        SecretEntityKind::AreaProperty => {
            changes.push(EditorChange::ClearSelection);
            assert(changes@ =~= seq![EditorChange::ClearSelection]);
        },
    }
    Some(changes)
}

/// The request that marks one secret. One that does not say what it is about is
/// a request for nothing.
pub open spec fn marks_for(entity: SecretEntity, secret: bool) -> RequestView {
    let none = secrets::no_marks(secret);
    match entity.kind {
        SecretEntityKind::Room => match entity.room_number {
            Some(number) => RequestView { rooms: seq![RoomNumber(number)], ..none },
            None => none,
        },
        SecretEntityKind::Exit => match entity.id {
            Some(id) => RequestView { exits: seq![ExitId(id)], ..none },
            None => none,
        },
        SecretEntityKind::Label => match entity.id {
            Some(id) => RequestView { labels: seq![LabelId(id)], ..none },
            None => none,
        },
        SecretEntityKind::Shape => match entity.id {
            Some(id) => RequestView { shapes: seq![ShapeId(id)], ..none },
            None => none,
        },
        SecretEntityKind::RoomProperty => match (entity.room_number, entity.name) {
            (Some(number), Some(name)) => RequestView {
                room_properties: seq![
                    RoomPropertyRef { room_number: RoomNumber(number), name: name@ },
                ],
                ..none
            },
            _ => none,
        },
        SecretEntityKind::AreaProperty => match entity.name {
            Some(name) => RequestView { area_properties: seq![name@], ..none },
            None => none,
        },
    }
}

/// The request that marks one secret.
pub fn secret_marks_request_for(entity: &SecretEntity, secret: bool) -> (request: SecretMarksRequest)
    ensures
        request@ == marks_for(*entity, secret),
{
    let mut request = empty_secret_marks_request(secret);
    match entity.kind {
        SecretEntityKind::Room => {
            if let Some(number) = entity.room_number {
                request.rooms.push(RoomNumber(number));
                assert(request@.rooms =~= seq![RoomNumber(number)]);
            }
        },
        SecretEntityKind::Exit => {
            if let Some(id) = entity.id {
                request.exits.push(ExitId(id));
                assert(request@.exits =~= seq![ExitId(id)]);
            }
        },
        SecretEntityKind::Label => {
            if let Some(id) = entity.id {
                request.labels.push(LabelId(id));
                assert(request@.labels =~= seq![LabelId(id)]);
            }
        },
        SecretEntityKind::Shape => {
            if let Some(id) = entity.id {
                request.shapes.push(ShapeId(id));
                assert(request@.shapes =~= seq![ShapeId(id)]);
            }
        },
        SecretEntityKind::RoomProperty => {
            if let (Some(number), Some(name)) = (entity.room_number, &entity.name) {
                let property = RoomPropertyRef {
                    room_number: RoomNumber(number),
                    name: name.clone(),
                };
                request.room_properties.push(property);
                assert(request@.room_properties =~= seq![property@]);
            }
        },
        SecretEntityKind::AreaProperty => {
            if let Some(name) = &entity.name {
                let copied = name.clone();
                request.area_properties.push(copied);
                assert(request@.area_properties =~= seq![copied@]);
            }
        },
    }
    request
}

// ===== Areas and tools =====

/// What making an area the active one changes. A tool that creates is put away
/// where nothing may be created.
pub open spec fn entering(tool: Tool, atlas: AtlasCache, area_id: Option<AreaId>) -> Seq<EditorChange> {
    if !window::may_edit(atlas, area_id) && tool != Tool::Select {
        seq![EditorChange::SetArea(area_id), EditorChange::SetTool(Tool::Select)]
    } else {
        seq![EditorChange::SetArea(area_id)]
    }
}

/// What making an area the active one changes.
pub fn enter_area(tool: Tool, atlas: &AtlasCache, area_id: Option<AreaId>) -> (changes: Vec<EditorChange>)
    ensures
        changes@ == entering(tool, *atlas, area_id),
{
    let mut changes: Vec<EditorChange> = Vec::new();
    changes.push(EditorChange::SetArea(area_id));
    if !can_edit_active_area(atlas, area_id) && tool != Tool::Select {
        changes.push(EditorChange::SetTool(Tool::Select));
    }
    assert(changes@ =~= entering(tool, *atlas, area_id));
    changes
}

/// Selects an area. When it is another than the active one, the history goes too:
/// it is that of one area. `None` when it is active already.
pub fn select_area(state: &EditorState, atlas: &AtlasCache, area_id: AreaId) -> (changes: Option<
    Vec<EditorChange>,
>)
    ensures
        match changes {
            Some(changes) => state.area_id != Some(area_id) && changes@ == entering(
                state.tool,
                *atlas,
                Some(area_id),
            ),
            None => state.area_id == Some(area_id),
        },
{
    let same = match state.area_id {
        Some(active) => active == area_id,
        None => false,
    };
    if same {
        None
    } else {
        Some(enter_area(state.tool, atlas, Some(area_id)))
    }
}

/// Whether a tool may be taken: one that creates only where something may be
/// created.
pub fn may_take_tool(state: &EditorState, atlas: &AtlasCache, tool: Tool) -> (may: bool)
    ensures
        may == (tool == Tool::Select || window::may_edit(*atlas, state.area_id)),
{
    tool == Tool::Select || can_edit_active_area(atlas, state.area_id)
}

// ===== The clock =====

/// What the window remembers from tick to tick.
#[derive(Clone, Copy, Debug, PartialEq, Eq, Structural)]
pub struct TickState {
    pub last_seen_sync_revision: Option<u64>,
    pub last_seen_rev: Option<i64>,
    /// A copy that was asked for and has not arrived.
    pub pending_copied_area: Option<AreaId>,
    pub notice: bool,
}

/// What a tick finds.
#[derive(Clone, Copy, Debug, PartialEq, Eq, Structural)]
pub struct TickInput {
    pub sync_revision: u64,
    /// Atlases can be listed.
    pub has_credential: bool,
    pub notice_expired: bool,
    pub history_empty: bool,
}

/// What a tick asks for.
#[derive(Clone, Copy, Debug, PartialEq, Eq, Structural)]
pub struct TickPlan {
    /// The caches were replaced: fetch grants and areas anew.
    pub fetch_sharers: bool,
    pub fetch_atlases: bool,
    pub clear_atlases: bool,
    /// The copy that arrived.
    pub select: Option<AreaId>,
    /// The history cannot be replayed any more.
    pub clear_history: bool,
    /// Something changed elsewhere: rebuild the inspector.
    pub resync: bool,
}

/// The revision of the active area.
pub open spec fn active_rev(atlas: AtlasCache, area_id: Option<AreaId>) -> Option<i64> {
    match window::active(atlas, area_id) {
        Some(area) => Some(area.rev),
        None => None,
    }
}

/// Whether a copy that was asked for has arrived.
pub open spec fn copy_arrived(state: TickState, atlas: AtlasCache) -> bool {
    state.pending_copied_area matches Some(id) && atlas.area(id) is Some
}

/// The plan of a tick. A copy that arrives is selected, and the rest waits for
/// the next tick.
pub open spec fn tick_plan(
    state: TickState,
    atlas: AtlasCache,
    area_id: Option<AreaId>,
    input: TickInput,
) -> TickPlan {
    let synced = state.last_seen_sync_revision != Some(input.sync_revision);
    let arrived = copy_arrived(state, atlas);
    TickPlan {
        fetch_sharers: synced,
        fetch_atlases: synced && input.has_credential,
        clear_atlases: synced && !input.has_credential,
        select: if arrived {
            state.pending_copied_area
        } else {
            None
        },
        clear_history: !arrived && !input.history_empty && !window::may_edit(atlas, area_id),
        resync: !arrived && active_rev(atlas, area_id) != state.last_seen_rev,
    }
}

/// What the window remembers after a tick.
pub open spec fn after_tick(
    state: TickState,
    atlas: AtlasCache,
    area_id: Option<AreaId>,
    input: TickInput,
) -> TickState {
    let arrived = copy_arrived(state, atlas);
    TickState {
        last_seen_sync_revision: Some(input.sync_revision),
        last_seen_rev: if arrived {
            state.last_seen_rev
        } else {
            active_rev(atlas, area_id)
        },
        pending_copied_area: if arrived {
            None
        } else {
            state.pending_copied_area
        },
        notice: state.notice && !input.notice_expired,
    }
}

/// Takes a tick.
pub fn tick(state: &mut TickState, atlas: &AtlasCache, area_id: Option<AreaId>, input: TickInput) -> (plan:
    TickPlan)
    ensures
        plan == tick_plan(*old(state), *atlas, area_id, input),
        *final(state) == after_tick(*old(state), *atlas, area_id, input),
{
    let synced = match state.last_seen_sync_revision {
        Some(seen) => seen != input.sync_revision,
        None => true,
    };
    state.last_seen_sync_revision = Some(input.sync_revision);
    if input.notice_expired {
        state.notice = false;
    }
    let mut plan = TickPlan {
        fetch_sharers: synced,
        fetch_atlases: synced && input.has_credential,
        clear_atlases: synced && !input.has_credential,
        select: None,
        clear_history: false,
        resync: false,
    };
    if let Some(pending) = state.pending_copied_area {
        if atlas.get_area(&pending).is_some() {
            state.pending_copied_area = None;
            plan.select = Some(pending);
            return plan;
        }
    }
    if !input.history_empty && !can_edit_active_area(atlas, area_id) {
        plan.clear_history = true;
    }
    let rev = match active_area(atlas, area_id) {
        Some(area) => Some(area.rev),
        None => None,
    };
    let changed = match (rev, state.last_seen_rev) {
        (Some(a), Some(b)) => a != b,
        (None, None) => false,
        _ => true,
    };
    if changed {
        state.last_seen_rev = rev;
        plan.resync = true;
    }
    plan
}

/// A second tick that finds nothing new asks for nothing.
pub proof fn law_a_quiet_tick_asks_for_nothing(
    state: TickState,
    atlas: AtlasCache,
    area_id: Option<AreaId>,
    input: TickInput,
)
    requires
        !copy_arrived(state, atlas),
        input.history_empty,
    ensures
        tick_plan(after_tick(state, atlas, area_id, input), atlas, area_id, input) == (TickPlan {
            fetch_sharers: false,
            fetch_atlases: false,
            clear_atlases: false,
            select: None,
            clear_history: false,
            resync: false,
        }),
{
}

/// The drawing to select when a creation completes: one of the command whose
/// creations are awaited.
pub fn created_entity(awaited: Option<CommandId>, outcome: &Outcome) -> (entity: Option<EntityId>)
    ensures
        entity == match (awaited, *outcome) {
            (Some(awaited), Outcome::Label { command, result: Ok(id), .. }) => if command == awaited {
                Some(EntityId::Label(id))
            } else {
                None
            },
            (Some(awaited), Outcome::Shape { command, result: Ok(id), .. }) => if command == awaited {
                Some(EntityId::Shape(id))
            } else {
                None
            },
            _ => None,
        },
{
    if let Some(awaited) = awaited {
        match outcome {
            Outcome::Label { command, result, .. } => {
                if let Ok(id) = result {
                    if *command == awaited {
                        return Some(EntityId::Label(*id));
                    }
                }
            },
            Outcome::Shape { command, result, .. } => {
                if let Ok(id) = result {
                    if *command == awaited {
                        return Some(EntityId::Shape(*id));
                    }
                }
            },
            Outcome::Exit { .. } => {},
        }
    }
    None
}

/// Which areas of a family are enabled when one of them is chosen: that one alone.
pub fn activate_copy(family: &Vec<AreaId>, chosen: AreaId) -> (enabled: Vec<(AreaId, bool)>)
    ensures
        enabled@ == family@.map_values(|member: AreaId| (member, member == chosen)),
{
    let mut enabled: Vec<(AreaId, bool)> = Vec::new();
    for i in 0..family.len()
        invariant
            enabled@ == family@.take(i as int).map_values(
                |member: AreaId| (member, member == chosen),
            ),
    {
        let member = family[i];
        enabled.push((member, member.0 == chosen.0));
        assert(enabled@ =~= family@.take(i + 1).map_values(
            |member: AreaId| (member, member == chosen),
        ));
    }
    assert(family@.take(family.len() as int) =~= family@);
    enabled
}

} // verus!
