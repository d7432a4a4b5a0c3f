//! What the window does with what the canvas, the keys and the clipboard ask for.

use vstd::prelude::*;

use super::commands::CommandView;
use super::creation::{LinkEnds, NewExitTarget};
use super::deletion;
use super::doing;
use super::hotkeys::{self, Hotkey, Overlays, Step};
use super::inspector::secrets::{self, RequestView};
use super::joining;
use super::model::{
    AreaCache, AreaId, AtlasCache, EntityId, ExitId, LabelId, RoomCache, RoomNumber, ShapeId,
};
use super::navigation::{self, SecretEntity, SecretEntityKind};
use super::window::{self, EditView, EditorChange, EditorState, ExitTarget, MutationRequest, Tool};
use crate::list;

verus! {

// ===== The selection =====

/// The entities that are selected after one change of the selection. Changes of other things
/// are not looked at here.
pub open spec fn selected_after(selected: Set<EntityId>, change: EditorChange) -> Set<EntityId> {
    match change {
        EditorChange::Select(entity) => Set::empty().insert(entity),
        EditorChange::AddToSelection(entity) => selected.insert(entity),
        EditorChange::RemoveFromSelection(entity) => selected.remove(entity),
        EditorChange::ClearSelection => Set::empty(),
        _ => selected,
    }
}

/// The entities that are selected after changes of the selection, one after the other.
pub open spec fn selected_by(selected: Set<EntityId>, changes: Seq<EditorChange>) -> Set<EntityId>
    decreases changes.len(),
{
    if changes.len() == 0 {
        selected
    } else {
        selected_after(selected_by(selected, changes.drop_last()), changes.last())
    }
}

/// Adding entities to a selection selects them too.
proof fn lemma_added(selected: Set<EntityId>, head: EditorChange, rooms: Seq<RoomNumber>)
    ensures
        ({
            let changes = seq![head] + rooms.map_values(
                |number: RoomNumber| EditorChange::AddToSelection(EntityId::Room(number)),
            );
            forall|entity: EntityId| #[trigger]
                selected_by(selected, changes).contains(entity) <==> selected_after(selected, head).contains(
                    entity,
                ) || (entity is Room && rooms.contains(entity->Room_0))
        }),
    decreases rooms.len(),
{
    let f = |number: RoomNumber| EditorChange::AddToSelection(EntityId::Room(number));
    let changes = seq![head] + rooms.map_values(f);
    if rooms.len() == 0 {
        assert(changes.drop_last() =~= Seq::empty());
        assert(changes.last() == head);
        assert(selected_by(selected, changes.drop_last()) == selected);
    } else {
        let rest = rooms.drop_last();
        lemma_added(selected, head, rest);
        let earlier = seq![head] + rest.map_values(f);
        assert(changes.drop_last() =~= earlier);
        assert(changes.last() == f(rooms.last()));
        assert forall|number: RoomNumber| #[trigger] rooms.contains(number) == (rest.contains(number) || number
            == rooms.last()) by {
            if rooms.contains(number) {
                let k = choose|k: int| 0 <= k < rooms.len() && rooms[k] == number;
                if k < rest.len() {
                    assert(rest[k] == number);
                }
            }
            if rest.contains(number) {
                let k = choose|k: int| 0 <= k < rest.len() && rest[k] == number;
                assert(rooms[k] == number);
            }
            assert(rooms[rooms.len() - 1] == rooms.last());
        }
        assert forall|entity: EntityId| #[trigger]
            selected_by(selected, changes).contains(entity) <==> selected_after(selected, head).contains(
                entity,
            ) || (entity is Room && rooms.contains(entity->Room_0)) by {
            let before = selected_by(selected, earlier);
            assert(before.contains(entity) <==> selected_after(selected, head).contains(entity) || (
            entity is Room && rest.contains(entity->Room_0)));
        }
    }
}

/// Removing entities from a selection leaves the others.
proof fn lemma_removed(selected: Set<EntityId>, gone: Seq<EntityId>)
    ensures
        ({
            let changes = gone.map_values(
                |entity: EntityId| EditorChange::RemoveFromSelection(entity),
            );
            forall|entity: EntityId| #[trigger]
                selected_by(selected, changes).contains(entity) <==> selected.contains(entity)
                    && !gone.contains(entity)
        }),
    decreases gone.len(),
{
    let f = |entity: EntityId| EditorChange::RemoveFromSelection(entity);
    let changes = gone.map_values(f);
    if gone.len() > 0 {
        let rest = gone.drop_last();
        lemma_removed(selected, rest);
        assert(changes.drop_last() =~= rest.map_values(f));
        assert(changes.last() == f(gone.last()));
        assert forall|entity: EntityId| #[trigger] gone.contains(entity) == (rest.contains(entity) || entity
            == gone.last()) by {
            if gone.contains(entity) {
                let k = choose|k: int| 0 <= k < gone.len() && gone[k] == entity;
                if k < rest.len() {
                    assert(rest[k] == entity);
                }
            }
            if rest.contains(entity) {
                let k = choose|k: int| 0 <= k < rest.len() && rest[k] == entity;
                assert(gone[k] == entity);
            }
            assert(gone[gone.len() - 1] == gone.last());
        }
        assert forall|entity: EntityId| #[trigger]
            selected_by(selected, changes).contains(entity) <==> selected.contains(entity)
                && !gone.contains(entity) by {
            let before = selected_by(selected, rest.map_values(f));
            assert(before.contains(entity) <==> selected.contains(entity) && !rest.contains(entity));
        }
    }
}

// ===== The canvas =====

/// Whether an edit does what the canvas asked for, on the level in view: a room stands where it
/// was placed and is selected, a link joins the rooms it was drawn between, a label or a shape
/// covers its rectangle and is selected as it appears, an entity has its new bounds.
pub open spec fn answers(
    edit: EditView,
    state: EditorState,
    area_id: AreaId,
    area: AreaCache,
    atlas: AtlasCache,
    request: MutationRequest,
) -> bool {
    let number = area.next_room_number;
    match request {
        MutationRequest::PlaceRoom { at } => {
            &&& edit.command is Some
            &&& doing::places_room(edit.command->0, area_id, number, at, state.level)
            &&& forall|selected: Set<EntityId>|
                #[trigger] selected_by(selected, edit.changes) == Set::empty().insert(EntityId::Room(number))
        },
        MutationRequest::CreateExit(link) => {
            let ends = LinkEnds {
                from: link.from,
                from_direction: link.from_direction,
                from_anchor: link.from_anchor,
                to: match link.to {
                    ExitTarget::Room(to) => NewExitTarget::Room(to),
                    ExitTarget::Empty(at) => NewExitTarget::NewRoom {
                        room_number: number,
                        at,
                        level: state.level,
                    },
                },
                to_direction: link.to_direction,
                to_anchor: link.to_anchor,
            };
            &&& edit.command is Some
            &&& joining::draws_link(edit.command->0, area_id, ends, link.options@, link.ids)
            &&& forall|selected: Set<EntityId>| #[trigger]
                selected_by(selected, edit.changes) == if link.to is Empty {
                    Set::empty().insert(EntityId::Room(number))
                } else {
                    selected
                }
        },
        MutationRequest::CreateLabel { rect, caption } => {
            &&& edit.command is Some
            &&& doing::draws_label(
                edit.command->0,
                area_id,
                |id: LabelId| doing::fresh_label(id, rect, state.level, caption@),
            )
            &&& edit.selects_created
            &&& forall|selected: Set<EntityId>|
                #[trigger] selected_by(selected, edit.changes) == Set::<EntityId>::empty()
        },
        MutationRequest::CreateShape { rect } => {
            &&& edit.command is Some
            &&& doing::draws_shape(edit.command->0, area_id, doing::fresh_shape(rect, state.level))
            &&& edit.selects_created
            &&& forall|selected: Set<EntityId>|
                #[trigger] selected_by(selected, edit.changes) == Set::<EntityId>::empty()
        },
        MutationRequest::ResizeEntity { entity, rect } => {
            &&& doing::resizes(edit.command, atlas, area_id, entity, rect)
            &&& forall|selected: Set<EntityId>|
                #[trigger] selected_by(selected, edit.changes) == selected
        },
    }
}

/// The canvas gets what it asks for.
pub proof fn law_the_canvas_gets_what_it_asks_for(
    state: EditorState,
    area_id: AreaId,
    area: AreaCache,
    atlas: AtlasCache,
    request: MutationRequest,
)
    ensures
        answers(
            window::requested(state, area_id, area, atlas, request),
            state,
            area_id,
            area,
            atlas,
            request,
        ),
{
    let edit = window::requested(state, area_id, area, atlas, request);
    reveal_with_fuel(selected_by, 2);
    let number = area.next_room_number;
    assert forall|selected: Set<EntityId>, change: EditorChange| #[trigger]
        selected_by(selected, seq![change]) == selected_after(selected, change) by {
        assert(seq![change].drop_last() =~= Seq::empty());
    }
    match request {
        MutationRequest::PlaceRoom { at } => {
            doing::law_a_new_room_stands_where_it_was_placed(area_id, number, at, state.level);
        },
        MutationRequest::CreateExit(link) => {
            let ends = LinkEnds {
                from: link.from,
                from_direction: link.from_direction,
                from_anchor: link.from_anchor,
                to: window::link_target(area, state.level, link.to),
                to_direction: link.to_direction,
                to_anchor: link.to_anchor,
            };
            joining::law_a_drawn_link_joins_its_rooms(area_id, ends, link.options@, link.ids);
        },
        MutationRequest::CreateLabel { rect, caption } => {
            doing::law_a_new_label_covers_its_rectangle(area_id, rect, state.level, caption@);
        },
        MutationRequest::CreateShape { rect } => {
            doing::law_a_new_shape_covers_its_rectangle(area_id, rect, state.level);
        },
        MutationRequest::ResizeEntity { entity, rect } => {
            doing::law_a_resized_entity_has_its_bounds(atlas, area_id, entity, rect);
        },
    }
}

// ===== Cutting and pasting =====

/// Whether cutting takes an entity that is selected: a label, a shape, or a room that may be
/// copied.
pub open spec fn is_for_cutting(entity: EntityId, rooms_copyable: bool) -> bool {
    entity is Label || entity is Shape || (entity is Room && rooms_copyable)
}

/// Cutting takes out of the map the selected labels and shapes, and the selected rooms where
/// they may be copied, and out of the selection what it takes out of the map. It takes nothing
/// when nothing was copied, or where nothing may be changed.
pub proof fn law_a_cut_takes_what_was_copied(state: EditorState, atlas: AtlasCache, copied: bool)
    ensures
        ({
            let edit = window::cut_edit(state, atlas, copied);
            let selected = state.selection@.to_set();
            if copied && window::may_edit(atlas, state.area_id) {
                &&& exists|cut: Seq<EntityId>| #[trigger]
                    is_cut_of(cut, state.selection@, window::rooms_copyable(atlas, state.area_id))
                        && edit.command == deletion::delete_command(atlas, state.area_id->0, cut)
                &&& forall|entity: EntityId| #[trigger]
                    selected_by(selected, edit.changes).contains(entity) <==> state.selection@.contains(entity)
                        && !is_for_cutting(entity, window::rooms_copyable(atlas, state.area_id))
            } else {
                edit.command is None && edit.changes.len() == 0
            }
        }),
{
    if copied && window::may_edit(atlas, state.area_id) {
        let allow = window::rooms_copyable(atlas, state.area_id);
        let cut = window::cut_of(state.selection@, allow);
        let p = |entity: EntityId| window::is_cut(entity, allow);
        let selected = state.selection@.to_set();
        assert forall|entity: EntityId| #[trigger] cut.contains(entity) <==> state.selection@.contains(entity)
            && is_for_cutting(entity, allow) by {
            list::lemma_kept_holds(state.selection@, p, entity);
        }
        assert(is_cut_of(cut, state.selection@, allow));
        lemma_removed(selected, cut);
        assert forall|entity: EntityId| #[trigger] selected.contains(entity) == state.selection@.contains(entity) by {}
    }
}

/// Whether a list holds what cutting takes of a selection.
pub open spec fn is_cut_of(cut: Seq<EntityId>, selection: Seq<EntityId>, rooms_copyable: bool) -> bool {
    forall|entity: EntityId| #[trigger] cut.contains(entity) <==> selection.contains(entity)
        && is_for_cutting(entity, rooms_copyable)
}

/// The pasted rooms take the place of the selection, and what else is pasted joins it as it
/// appears. Nothing changes when nothing is pasted.
pub proof fn law_pasted_rooms_are_selected(
    atlas: AtlasCache,
    area_id: Option<AreaId>,
    command: Option<CommandView>,
    rooms: Seq<RoomNumber>,
    selected: Set<EntityId>,
)
    ensures
        ({
            let edit = window::paste_edit(atlas, area_id, command, rooms);
            if command is Some {
                &&& edit.selects_created
                &&& edit.command == if window::may_edit(atlas, area_id) {
                    command
                } else {
                    None
                }
                &&& forall|entity: EntityId| #[trigger]
                    selected_by(selected, edit.changes).contains(entity) <==> entity is Room
                        && rooms.contains(entity->Room_0)
            } else {
                edit.command is None && selected_by(selected, edit.changes) == selected
            }
        }),
{
    lemma_added(selected, EditorChange::ClearSelection, rooms);
}

/// Pastes into the area of the copy do not land on each other, nor on what was copied; others
/// stay in place.
pub proof fn law_pastes_step_apart(a: u32, b: u32)
    ensures
        window::paste_steps(a, true) > 0,
        a != b ==> window::paste_steps(a, true) != window::paste_steps(b, true),
        a < b ==> window::paste_steps(a, true) < window::paste_steps(b, true),
        window::paste_steps(a, false) == 0,
{
}

// ===== Keys =====

/// Whether a step sets the level in view and does nothing more.
pub open spec fn sets_level(step: Step<EditView>, level: int) -> bool {
    match step {
        Step::Edit(edit) => edit.command is None && edit.changes.len() == 1 && match edit.changes[0] {
            EditorChange::SetLevel(set) => set == level,
            _ => false,
        },
        _ => false,
    }
}

/// Whether a step raises the selection by levels, and takes the view along.
pub open spec fn raises_selection(step: Step<EditView>, state: EditorState, atlas: AtlasCache, delta: int) -> bool {
    match step {
        Step::Edit(edit) => {
            &&& window::may_edit(atlas, state.area_id) ==> doing::raises(
                edit.command,
                atlas,
                state.area_id->0,
                state.selection@,
                delta,
            )
            &&& !window::may_edit(atlas, state.area_id) ==> edit.command is None
            &&& if state.selection@.len() == 0 {
                edit.changes.len() == 0
            } else {
                edit.changes.len() == 1 && match edit.changes[0] {
                    EditorChange::SetLevelKeepingSelection(set) => set == state.level + delta,
                    _ => false,
                }
            }
        },
        _ => false,
    }
}

/// The level keys step the view up and down by one, and the keys with the selection raise and
/// lower it by one level, where the levels can be represented.
pub proof fn law_level_keys_step_by_one(state: EditorState, overlays: Overlays, atlas: AtlasCache)
    requires
        i32::MIN < state.level < i32::MAX,
    ensures
        sets_level(hotkeys::handled(state, overlays, atlas, Hotkey::LevelUp), state.level + 1),
        sets_level(hotkeys::handled(state, overlays, atlas, Hotkey::LevelDown), state.level - 1),
        state.area_id is Some ==> raises_selection(
            hotkeys::handled(state, overlays, atlas, Hotkey::MoveLevelUp),
            state,
            atlas,
            1,
        ),
        state.area_id is Some ==> raises_selection(
            hotkeys::handled(state, overlays, atlas, Hotkey::MoveLevelDown),
            state,
            atlas,
            -1,
        ),
{
    if state.area_id is Some {
        doing::law_a_shift_raises_the_selection(atlas, state.area_id->0, state.selection@, 1);
        doing::law_a_shift_raises_the_selection(atlas, state.area_id->0, state.selection@, -1);
    }
}

/// Whether a step clears the selection and does nothing more.
pub open spec fn clears_selection(step: Step<EditView>) -> bool {
    step is Edit && step->Edit_0.command is None && step->Edit_0.changes == seq![
        EditorChange::ClearSelection,
    ]
}

/// Escape puts away one thing at a time, what is on top first: the modal, a rename, the tool,
/// and the selection last.
pub proof fn law_escape_puts_away_what_is_on_top(state: EditorState, overlays: Overlays, atlas: AtlasCache)
    ensures
        ({
            let step = hotkeys::handled(state, overlays, atlas, Hotkey::Escape);
            &&& step is CloseModal <==> overlays.modal
            &&& step is CancelAreaRename <==> !overlays.modal && overlays.renaming_area
            &&& step is CancelAtlasRename <==> !overlays.modal && !overlays.renaming_area
                && overlays.renaming_atlas
            &&& step is Edit <==> !overlays.modal && !overlays.renaming_area && !overlays.renaming_atlas
            &&& step is Edit && state.tool == Tool::Select ==> clears_selection(step)
            &&& step is Edit && state.tool != Tool::Select ==> step->Edit_0.command is None
                && step->Edit_0.changes == seq![EditorChange::SetTool(Tool::Select)]
        }),
{
}

/// The delete key deletes the selection, where the area may be changed, and clears it.
pub proof fn law_the_delete_key_deletes_the_selection(
    state: EditorState,
    overlays: Overlays,
    atlas: AtlasCache,
)
    ensures
        ({
            let step = hotkeys::handled(state, overlays, atlas, Hotkey::Delete);
            &&& step is Edit
            &&& window::may_edit(atlas, state.area_id) ==> step->Edit_0.command == deletion::delete_command(
                atlas,
                state.area_id->0,
                state.selection@,
            ) && step->Edit_0.changes == seq![EditorChange::ClearSelection]
            &&& !window::may_edit(atlas, state.area_id) ==> step->Edit_0.command is None
                && step->Edit_0.changes.len() == 0
        }),
{
}

/// Every other key does what it is named for: an arrow moves the selection by what it says when
/// there is one, and history is replayed only where the area may be changed.
pub proof fn law_keys_do_what_they_are_named_for(
    state: EditorState,
    overlays: Overlays,
    atlas: AtlasCache,
    dx: i32,
    dy: i32,
)
    ensures
        hotkeys::handled(state, overlays, atlas, Hotkey::Copy) is Copy,
        hotkeys::handled(state, overlays, atlas, Hotkey::Cut) is Cut,
        hotkeys::handled(state, overlays, atlas, Hotkey::Paste) is Paste,
        hotkeys::handled(state, overlays, atlas, Hotkey::Undo) is Undo == window::may_edit(
            atlas,
            state.area_id,
        ),
        hotkeys::handled(state, overlays, atlas, Hotkey::Redo) is Redo == window::may_edit(
            atlas,
            state.area_id,
        ),
        ({
            let step = hotkeys::handled(state, overlays, atlas, Hotkey::Nudge(dx, dy));
            if state.selection@.len() == 0 {
                step is Nothing
            } else {
                step is Move && step->Move_0 == dx && step->Move_1 == dy
            }
        }),
{
}

// ===== Secrets =====

/// The level in view after changes, one after the other.
pub open spec fn level_by(level: i32, changes: Seq<EditorChange>) -> i32
    decreases changes.len(),
{
    if changes.len() == 0 {
        level
    } else {
        match changes.last() {
            EditorChange::SetLevel(set) => set,
            EditorChange::SetLevelKeepingSelection(set) => set,
            _ => level_by(level, changes.drop_last()),
        }
    }
}

/// Whether changes bring one entity into view and select it alone.
pub open spec fn go_to(changes: Seq<EditorChange>, entity: EntityId, level: i32) -> bool {
    &&& forall|selected: Set<EntityId>| #[trigger] selects_alone(selected_by(selected, changes), entity)
    &&& forall|from: i32| #[trigger] level_by(from, changes) == level
}

/// Whether one entity is all that is selected.
pub open spec fn selects_alone(selected: Set<EntityId>, entity: EntityId) -> bool {
    forall|other: EntityId| #[trigger] selected.contains(other) <==> other == entity
}

/// Setting the level and selecting an entity brings it into view and selects it alone.
proof fn lemma_go_to(level: i32, entity: EntityId)
    ensures
        go_to(seq![EditorChange::SetLevel(level), EditorChange::Select(entity)], entity, level),
{
    let changes = seq![EditorChange::SetLevel(level), EditorChange::Select(entity)];
    assert(changes.drop_last() =~= seq![EditorChange::SetLevel(level)]);
    assert(changes.last() == EditorChange::Select(entity));
    let early = changes.drop_last();
    assert(early.last() == EditorChange::SetLevel(level));
    assert forall|selected: Set<EntityId>| #[trigger] selects_alone(selected_by(selected, changes), entity) by {
        assert(selected_by(selected, changes) == selected_after(
            selected_by(selected, early),
            EditorChange::Select(entity),
        ));
    }
    assert forall|from: i32| #[trigger] level_by(from, changes) == level by {
        assert(level_by(from, changes) == level_by(from, early));
        assert(level_by(from, early) == level);
    }
}

/// Going to a secret shows it: a room or a room with the property is in view and selected, a
/// label or a shape is, and of an exit the room that it leaves. A property of the area has
/// nothing selected.
pub proof fn law_going_to_a_secret_shows_it(area: AreaCache, entity: SecretEntity)
    ensures
        ({
            let changes = navigation::secret_place(area, entity);
            match entity.kind {
                SecretEntityKind::Room | SecretEntityKind::RoomProperty => match entity.room_number {
                    Some(number) => match area.room(RoomNumber(number)) {
                        Some(room) => go_to(changes, EntityId::Room(RoomNumber(number)), room.level),
                        None => changes.len() == 0,
                    },
                    None => changes.len() == 0,
                },
                SecretEntityKind::Exit => entity.id is Some && changes.len() > 0 ==> exists|r: int, e: int|
                    leaves_room(area, ExitId(entity.id->0), r, e) && #[trigger] go_to_room_of(
                        changes,
                        area,
                        r,
                        e,
                    ),
                SecretEntityKind::Label => match entity.id {
                    Some(id) => match area.label(LabelId(id)) {
                        Some(label) => go_to(changes, EntityId::Label(LabelId(id)), label.level),
                        None => changes.len() == 0,
                    },
                    None => changes.len() == 0,
                },
                SecretEntityKind::Shape => match entity.id {
                    Some(id) => match area.shape(ShapeId(id)) {
                        Some(shape) => go_to(changes, EntityId::Shape(ShapeId(id)), shape.level),
                        None => changes.len() == 0,
                    },
                    None => changes.len() == 0,
                },
                SecretEntityKind::AreaProperty => changes == seq![EditorChange::ClearSelection],
            }
        }),
{
    match entity.kind {
        SecretEntityKind::Room | SecretEntityKind::RoomProperty => {
            if let Some(number) = entity.room_number {
                if let Some(room) = area.room(RoomNumber(number)) {
                    list::lemma_first_exists(
                        area.rooms@,
                        |item: RoomCache| item.room_number == RoomNumber(number),
                    );
                    lemma_go_to(room.level, EntityId::Room(room.room_number));
                }
            }
        },
        SecretEntityKind::Exit => {
            if let Some(id) = entity.id {
                let p = |room: RoomCache| navigation::has_exit(room, ExitId(id));
                list::lemma_first_exists(area.rooms@, p);
                if let Some(room) = list::first(area.rooms@, p) {
                    let r = choose|r: int| 0 <= r < area.rooms@.len() && area.rooms@[r] == room;
                    let e = choose|e: int|
                        0 <= e < room.exits@.len() && (#[trigger] room.exits@[e]).id == ExitId(id);
                    lemma_go_to(room.level, EntityId::Room(room.room_number));
                    assert(leaves_room(area, ExitId(id), r, e));
                    assert(go_to_room_of(navigation::secret_place(area, entity), area, r, e));
                }
            }
        },
        SecretEntityKind::Label => {
            if let Some(id) = entity.id {
                if let Some(label) = area.label(LabelId(id)) {
                    lemma_go_to(label.level, EntityId::Label(LabelId(id)));
                }
            }
        },
        SecretEntityKind::Shape => {
            if let Some(id) = entity.id {
                if let Some(shape) = area.shape(ShapeId(id)) {
                    lemma_go_to(shape.level, EntityId::Shape(ShapeId(id)));
                }
            }
        },
        SecretEntityKind::AreaProperty => {},
    }
}

/// Whether an exit is at a place of an area.
pub open spec fn leaves_room(area: AreaCache, id: ExitId, r: int, e: int) -> bool {
    0 <= r < area.rooms@.len() && 0 <= e < area.rooms@[r].exits@.len() && area.rooms@[r].exits@[e].id == id
}

/// Whether changes bring the room of an exit into view.
pub open spec fn go_to_room_of(changes: Seq<EditorChange>, area: AreaCache, r: int, e: int) -> bool {
    go_to(changes, EntityId::Room(area.rooms@[r].room_number), area.rooms@[r].level)
}

/// Every mark that would change is sent: what is asked for and is not so marked already stays in
/// the request.
pub proof fn law_marks_that_change_are_sent(atlas: AtlasCache, area_id: AreaId, request: RequestView)
    requires
        atlas.area(area_id) is Some,
    ensures
        ({
            let area = atlas.area(area_id)->0;
            let left = secrets::changing(atlas, area_id, request);
            &&& left.secret == request.secret
            &&& forall|number: RoomNumber| #[trigger]
                request.rooms.contains(number) && area.room(number) is Some && area.room(number)->0.is_secret
                    != request.secret ==> left.rooms.contains(number)
            &&& forall|id: LabelId| #[trigger]
                request.labels.contains(id) && area.label(id) is Some && area.label(id)->0.is_secret
                    != request.secret ==> left.labels.contains(id)
            &&& forall|id: ShapeId| #[trigger]
                request.shapes.contains(id) && area.shape(id) is Some && area.shape(id)->0.is_secret
                    != request.secret ==> left.shapes.contains(id)
            &&& forall|number: RoomNumber| #[trigger]
                left.rooms.contains(number) ==> request.rooms.contains(number)
            &&& forall|id: ExitId| #[trigger] left.exits.contains(id) ==> request.exits.contains(id)
            &&& forall|id: LabelId| #[trigger] left.labels.contains(id) ==> request.labels.contains(id)
            &&& forall|id: ShapeId| #[trigger] left.shapes.contains(id) ==> request.shapes.contains(id)
        }),
{
    let area = atlas.area(area_id)->0;
    let target = request.secret;
    let left = secrets::changing(atlas, area_id, request);
    let of_room = |number: RoomNumber| secrets::room_changes(area, number, target);
    let of_exit = |id: ExitId| secrets::exit_changes(area, id, target);
    let of_label = |id: LabelId| secrets::label_changes(area, id, target);
    let of_shape = |id: ShapeId| secrets::shape_changes(area, id, target);
    assert forall|number: RoomNumber|
        left.rooms.contains(number) <==> #[trigger] request.rooms.contains(number) && secrets::room_changes(
            area,
            number,
            target,
        ) by {
        list::lemma_kept_holds(request.rooms, of_room, number);
    }
    assert forall|number: RoomNumber| #[trigger] left.rooms.contains(number) implies request.rooms.contains(
        number,
    ) by {
        list::lemma_kept_holds(request.rooms, of_room, number);
    }
    assert forall|id: ExitId| #[trigger] left.exits.contains(id) implies request.exits.contains(id) by {
        list::lemma_kept_holds(request.exits, of_exit, id);
    }
    assert forall|id: LabelId|
        left.labels.contains(id) <==> #[trigger] request.labels.contains(id) && secrets::label_changes(
            area,
            id,
            target,
        ) by {
        list::lemma_kept_holds(request.labels, of_label, id);
    }
    assert forall|id: LabelId| #[trigger] left.labels.contains(id) implies request.labels.contains(id) by {
        list::lemma_kept_holds(request.labels, of_label, id);
    }
    assert forall|id: ShapeId|
        left.shapes.contains(id) <==> #[trigger] request.shapes.contains(id) && secrets::shape_changes(
            area,
            id,
            target,
        ) by {
        list::lemma_kept_holds(request.shapes, of_shape, id);
    }
    assert forall|id: ShapeId| #[trigger] left.shapes.contains(id) implies request.shapes.contains(id) by {
        list::lemma_kept_holds(request.shapes, of_shape, id);
    }
}

} // verus!
