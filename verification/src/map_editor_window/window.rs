//! The editor window: what the viewer may do in the active area, and what keys and
//! the canvas ask for.

use vstd::prelude::*;

use super::cache::{self, Selection};
use super::clipboard::{self, snapshot_selection, ClipboardView, EntityClipboard};
use super::commands::{self, Command, CommandView};
use super::creation::{
    self, create_exit_with_options, create_label, create_room, create_shape, Anchor, LinkEnds, LinkIds,
    NewExitTarget, NewLinkOptions,
};
use super::deletion::{self, delete_selection};
use super::edits::{self, move_selection, resize_entity, Rect};
use super::model::{AreaCache, AreaId, AtlasCache, EntityId, ExitDirection, Point, RoomKey, RoomNumber};
use super::mutation::{IdRef, Mutation};
use crate::list;
use crate::text::join2;

verus! {

/// The tool in hand.
#[derive(Clone, Copy, Debug, PartialEq, Eq, Structural)]
pub enum Tool {
    Select,
    /// One that creates something.
    Other(u8),
}

/// What the window looks at.
pub struct EditorState {
    pub area_id: Option<AreaId>,
    pub level: i32,
    pub tool: Tool,
    pub selection: Selection,
}

/// A change of what the window looks at.
#[derive(Clone, Copy, Debug, PartialEq, Eq, Structural)]
pub enum EditorChange {
    Select(EntityId),
    AddToSelection(EntityId),
    RemoveFromSelection(EntityId),
    ClearSelection,
    SetLevel(i32),
    SetLevelKeepingSelection(i32),
    SetTool(Tool),
    SetArea(Option<AreaId>),
}

/// A command to push, when there is one, with the changes that go with it.
pub struct Edit<C = Option<Command>, V = Vec<EditorChange>> {
    pub command: C,
    pub changes: V,
    /// What the command creates is selected as it appears.
    pub selects_created: bool,
    /// The inspector is rebuilt.
    pub resync: bool,
}

pub type EditView = Edit<Option<CommandView>, Seq<EditorChange>>;

impl View for Edit<Option<Command>, Vec<EditorChange>> {
    type V = EditView;

    open spec fn view(&self) -> EditView {
        Edit {
            command: edits::opt_command(self.command),
            changes: self.changes@,
            selects_created: self.selects_created,
            resync: self.resync,
        }
    }
}

impl Edit {
    /// The command, when there is one, can be pushed.
    pub open spec fn wf(self) -> bool {
        self.command matches Some(command) ==> command.wf()
    }
}

/// Nothing to do.
pub open spec fn no_edit() -> EditView {
    Edit { command: None, changes: Seq::empty(), selects_created: false, resync: false }
}

fn nothing() -> (edit: Edit)
    ensures
        edit@ == no_edit(),
        edit.wf(),
{
    Edit { command: None, changes: Vec::new(), selects_created: false, resync: false }
}

// ===== Access =====

/// The active area.
pub open spec fn active(atlas: AtlasCache, area_id: Option<AreaId>) -> Option<AreaCache> {
    match area_id {
        Some(id) => atlas.area(id),
        None => None,
    }
}

/// The active area.
pub fn active_area<'a>(atlas: &'a AtlasCache, area_id: Option<AreaId>) -> (area: Option<&'a AreaCache>)
    ensures
        match area {
            Some(area) => active(*atlas, area_id) == Some(*area),
            None => active(*atlas, area_id) is None,
        },
{
    match area_id {
        Some(id) => atlas.get_area(&id),
        None => None,
    }
}

/// Whether the active area may be changed.
pub open spec fn may_edit(atlas: AtlasCache, area_id: Option<AreaId>) -> bool {
    active(atlas, area_id) matches Some(area) && area.access.can_edit
}

/// Whether the active area may be changed. Every edit is gated by this.
pub fn can_edit_active_area(atlas: &AtlasCache, area_id: Option<AreaId>) -> (can: bool)
    ensures
        can == may_edit(*atlas, area_id),
{
    match active_area(atlas, area_id) {
        Some(area) => area.access.can_edit,
        None => false,
    }
}

/// Whether the active area can be shared: by its owner, and by who may pass it
/// on.
pub fn can_share_active_area(atlas: &AtlasCache, area_id: Option<AreaId>) -> (can: bool)
    ensures
        can == (active(*atlas, area_id) matches Some(area) && (area.access.is_owned
            || area.access.can_share)),
{
    match active_area(atlas, area_id) {
        Some(area) => area.access.is_owned || area.access.can_share,
        None => false,
    }
}

/// Whether the active area can be copied to the viewer's own: a shared one that
/// allows it.
pub fn can_copy_active_area(atlas: &AtlasCache, area_id: Option<AreaId>) -> (can: bool)
    ensures
        can == (active(*atlas, area_id) matches Some(area) && !area.access.is_owned
            && area.access.can_copy),
{
    match active_area(atlas, area_id) {
        Some(area) => !area.access.is_owned && area.access.can_copy,
        None => false,
    }
}

/// Whether rooms may be copied out of the active area.
pub open spec fn rooms_copyable(atlas: AtlasCache, area_id: Option<AreaId>) -> bool {
    active(atlas, area_id) matches Some(area) && (area.access.is_owned || area.access.can_copy)
}

/// Whether rooms may be copied out of the active area: by its owner, else where
/// that is allowed. Labels and shapes always may.
pub fn allow_room_copy(atlas: &AtlasCache, area_id: Option<AreaId>) -> (allowed: bool)
    ensures
        allowed == rooms_copyable(*atlas, area_id),
{
    match active_area(atlas, area_id) {
        Some(area) => area.access.is_owned || area.access.can_copy,
        None => false,
    }
}

/// Whether the viewer may set and clear secret flags in the active area.
pub fn secrets_cleared(atlas: &AtlasCache, area_id: Option<AreaId>) -> (cleared: bool)
    ensures
        cleared == (active(*atlas, area_id) matches Some(area)
            && area.access.is_cleared_for_secrets),
{
    match active_area(atlas, area_id) {
        Some(area) => area.access.is_cleared_for_secrets,
        None => false,
    }
}

/// Whether the viewer owns an area.
pub open spec fn owns(atlas: AtlasCache, id: AreaId) -> bool {
    atlas.area(id) matches Some(area) && area.access.is_owned
}

/// Whether the viewer owns an area.
pub fn area_owned(atlas: &AtlasCache, id: AreaId) -> (owned: bool)
    ensures
        owned == owns(*atlas, id),
{
    match atlas.get_area(&id) {
        Some(area) => area.access.is_owned,
        None => false,
    }
}

/// The revision of the active area, so that own writes do not count as changes
/// made elsewhere.
pub fn refresh_seen_rev(atlas: &AtlasCache, area_id: Option<AreaId>) -> (rev: Option<i64>)
    ensures
        rev == match active(*atlas, area_id) {
            Some(area) => Some(area.rev),
            None => None,
        },
{
    match active_area(atlas, area_id) {
        Some(area) => Some(area.rev),
        None => None,
    }
}

/// The title of the window.
pub fn title(atlas: &AtlasCache, area_id: Option<AreaId>) -> (title: String)
    ensures
        title@ == match active(*atlas, area_id) {
            Some(area) => "smudgy map editor - "@ + area.name@,
            None => "smudgy map editor"@,
        },
{
    match active_area(atlas, area_id) {
        Some(area) => join2("smudgy map editor - ", &area.name),
        None => "smudgy map editor".to_owned(),
    }
}

/// The command to push: none in an area that may only be viewed, whatever asked
/// for it.
pub fn gate_command(atlas: &AtlasCache, area_id: Option<AreaId>, command: Option<Command>) -> (gated: Option<
    Command,
>)
    requires
        command matches Some(command) ==> command.wf(),
    ensures
        edits::opt_command(gated) == gated_command(*atlas, area_id, edits::opt_command(command)),
        gated matches Some(command) ==> command.wf(),
{
    if can_edit_active_area(atlas, area_id) {
        command
    } else {
        None
    }
}

/// The command to push.
pub open spec fn gated_command(
    atlas: AtlasCache,
    area_id: Option<AreaId>,
    command: Option<CommandView>,
) -> Option<CommandView> {
    if may_edit(atlas, area_id) {
        command
    } else {
        None
    }
}

/// Nothing is pushed in an area that may only be viewed.
pub proof fn law_view_only_areas_are_not_changed(
    atlas: AtlasCache,
    area_id: Option<AreaId>,
    command: Option<CommandView>,
)
    requires
        !may_edit(atlas, area_id),
    ensures
        gated_command(atlas, area_id, command) is None,
{
}

// ===== Requests of the canvas =====

/// Where a drawn link ends.
#[derive(Clone, Copy, Debug, PartialEq, Eq, Structural)]
pub enum ExitTarget {
    Room(RoomNumber),
    /// On empty ground: a room is made there.
    Empty(Point),
}

/// A link that was drawn.
pub struct DrawnLink<T = String> {
    pub from: RoomNumber,
    pub from_direction: ExitDirection,
    pub from_anchor: Anchor,
    pub to: ExitTarget,
    pub to_direction: ExitDirection,
    pub to_anchor: Anchor,
    pub options: NewLinkOptions<T>,
    pub ids: LinkIds,
}

/// What the canvas asks for.
pub enum MutationRequest {
    PlaceRoom { at: Point },
    CreateExit(DrawnLink),
    CreateLabel { rect: Rect, caption: String },
    CreateShape { rect: Rect },
    ResizeEntity { entity: EntityId, rect: Rect },
}

/// The room a drawn link ends in.
pub open spec fn link_target(area: AreaCache, level: i32, to: ExitTarget) -> NewExitTarget {
    match to {
        ExitTarget::Room(number) => NewExitTarget::Room(number),
        ExitTarget::Empty(at) => NewExitTarget::NewRoom {
            room_number: area.next_room_number,
            at,
            level,
        },
    }
}

/// The command of a drawn link.
pub open spec fn link_command(
    area_id: AreaId,
    area: AreaCache,
    level: i32,
    link: DrawnLink,
) -> CommandView {
    let ends = LinkEnds {
        from: link.from,
        from_direction: link.from_direction,
        from_anchor: link.from_anchor,
        to: link_target(area, level, link.to),
        to_direction: link.to_direction,
        to_anchor: link.to_anchor,
    };
    commands::new_command(
        seq![
            edits::batch(
                area_id,
                creation::link_writes(area_id, ends, link.options@, link.ids),
                creation::link_intent(ends.to, link.options@),
            ),
        ],
        seq![
            edits::batch(
                area_id,
                creation::link_inverse(ends.to, link.options@, link.ids),
                "Undo link creation"@,
            ),
        ],
    )
}

/// What a request of the canvas amounts to in an area that may be changed.
pub open spec fn requested(
    state: EditorState,
    area_id: AreaId,
    area: AreaCache,
    atlas: AtlasCache,
    request: MutationRequest,
) -> EditView {
    let number = area.next_room_number;
    match request {
        MutationRequest::PlaceRoom { at } => Edit {
            command: Some(
                commands::new_command(
                    seq![
                        Mutation::UpsertRooms(
                            area_id,
                            seq![(number, creation::new_room(at, state.level))],
                        ),
                    ],
                    seq![Mutation::DeleteRoom(RoomKey { area_id, room_number: number })],
                ),
            ),
            changes: seq![EditorChange::Select(EntityId::Room(number))],
            selects_created: false,
            resync: true,
        },
        MutationRequest::CreateExit(link) => Edit {
            command: Some(link_command(area_id, area, state.level, link)),
            changes: match link.to {
                ExitTarget::Room(_) => Seq::empty(),
                ExitTarget::Empty(_) => seq![EditorChange::Select(EntityId::Room(number))],
            },
            selects_created: false,
            resync: true,
        },
        MutationRequest::CreateLabel { rect, caption } => Edit {
            command: Some(
                commands::new_command(
                    seq![
                        Mutation::CreateLabel {
                            area_id,
                            args: creation::new_label(rect, state.level, caption@),
                            slot: 0,
                        },
                    ],
                    seq![Mutation::DeleteLabel { area_id, id: IdRef::Slot(0) }],
                ),
            ),
            changes: seq![EditorChange::ClearSelection],
            selects_created: true,
            resync: false,
        },
        MutationRequest::CreateShape { rect } => Edit {
            command: Some(
                commands::new_command(
                    seq![
                        Mutation::CreateShape {
                            area_id,
                            args: creation::new_shape(rect, state.level),
                            slot: 0,
                        },
                    ],
                    seq![Mutation::DeleteShape { area_id, id: IdRef::Slot(0) }],
                ),
            ),
            changes: seq![EditorChange::ClearSelection],
            selects_created: true,
            resync: false,
        },
        MutationRequest::ResizeEntity { entity, rect } => Edit {
            command: edits::resize_command(atlas, area_id, entity, rect),
            changes: Seq::empty(),
            selects_created: false,
            resync: true,
        },
    }
}

/// One change.
fn one_change(change: EditorChange) -> (changes: Vec<EditorChange>)
    ensures
        changes@ == seq![change],
{
    let mut changes: Vec<EditorChange> = Vec::new();
    changes.push(change);
    assert(changes@ =~= seq![change]);
    changes
}

/// What a request of the canvas amounts to: nothing in an area that may only be
/// viewed.
pub fn handle_mutation_request(state: &EditorState, atlas: &AtlasCache, request: MutationRequest) -> (edit:
    Edit)
    ensures
        edit@ == match active(*atlas, state.area_id) {
            Some(area) => if area.access.can_edit {
                requested(*state, state.area_id->0, area, *atlas, request)
            } else {
                no_edit()
            },
            None => no_edit(),
        },
        edit.wf(),
{
    let (area_id, area) = match (state.area_id, active_area(atlas, state.area_id)) {
        (Some(area_id), Some(area)) => (area_id, area),
        _ => {
            return nothing();
        },
    };
    if !area.access.can_edit {
        return nothing();
    }
    let number = area.next_room_number;
    match request {
        MutationRequest::PlaceRoom { at } => Edit {
            command: Some(create_room(area_id, number, at, state.level)),
            changes: one_change(EditorChange::Select(EntityId::Room(number))),
            selects_created: false,
            resync: true,
        },
        MutationRequest::CreateExit(link) => {
            let (to, changes) = match link.to {
                ExitTarget::Room(number) => {
                    let none: Vec<EditorChange> = Vec::new();
                    (NewExitTarget::Room(number), none)
                },
                ExitTarget::Empty(at) => (
                    NewExitTarget::NewRoom { room_number: number, at, level: state.level },
                    one_change(EditorChange::Select(EntityId::Room(number))),
                ),
            };
            let ends = LinkEnds {
                from: link.from,
                from_direction: link.from_direction,
                from_anchor: link.from_anchor,
                to,
                to_direction: link.to_direction,
                to_anchor: link.to_anchor,
            };
            Edit {
                command: Some(create_exit_with_options(area_id, ends, link.options, link.ids)),
                changes,
                selects_created: false,
                resync: true,
            }
        },
        MutationRequest::CreateLabel { rect, caption } => Edit {
            command: Some(create_label(area_id, rect, state.level, caption)),
            changes: one_change(EditorChange::ClearSelection),
            selects_created: true,
            resync: false,
        },
        MutationRequest::CreateShape { rect } => Edit {
            command: Some(create_shape(area_id, rect, state.level)),
            changes: one_change(EditorChange::ClearSelection),
            selects_created: true,
            resync: false,
        },
        MutationRequest::ResizeEntity { entity, rect } => Edit {
            command: resize_entity(atlas, area_id, entity, rect),
            changes: Vec::new(),
            selects_created: false,
            resync: true,
        },
    }
}

/// Moves the selection, as the canvas or an arrow key asks for.
pub fn request_move<F: Fn(Point) -> Point>(state: &EditorState, atlas: &AtlasCache, translate: F) -> (edit:
    Edit)
    requires
        forall|p: Point| #[trigger] translate.requires((p,)),
    ensures
        !may_edit(*atlas, state.area_id) ==> edit@ == no_edit(),
        may_edit(*atlas, state.area_id) ==> forall|g: spec_fn(Point) -> Point| #[trigger]
            edits::computes(translate, g) ==> edit@ == (Edit {
                command: edits::selection_command(
                    *atlas,
                    state.area_id->0,
                    state.selection@,
                    edits::moved_edit(g),
                    edits::placed_edit(),
                ),
                changes: Seq::<EditorChange>::empty(),
                selects_created: false,
                resync: true,
            }),
        edit.wf(),
{
    match state.area_id {
        Some(area_id) => {
            if !can_edit_active_area(atlas, state.area_id) {
                return nothing();
            }
            Edit {
                command: move_selection(atlas, area_id, &state.selection, translate),
                changes: Vec::new(),
                selects_created: false,
                resync: true,
            }
        },
        None => nothing(),
    }
}

/// Deletes the selection.
pub open spec fn deletion_edit(state: EditorState, atlas: AtlasCache) -> EditView {
    if may_edit(atlas, state.area_id) {
        Edit {
            command: deletion::delete_command(atlas, state.area_id->0, state.selection@),
            changes: seq![EditorChange::ClearSelection],
            selects_created: false,
            resync: true,
        }
    } else {
        no_edit()
    }
}

/// Deletes the selection.
pub fn request_deletion(state: &EditorState, atlas: &AtlasCache) -> (edit: Edit)
    ensures
        edit@ == deletion_edit(*state, *atlas),
        edit.wf(),
{
    match state.area_id {
        Some(area_id) => {
            if !can_edit_active_area(atlas, state.area_id) {
                return nothing();
            }
            Edit {
                command: delete_selection(atlas, area_id, &state.selection),
                changes: one_change(EditorChange::ClearSelection),
                selects_created: false,
                resync: true,
            }
        },
        None => nothing(),
    }
}

// ===== Copy, cut and paste =====

/// What copying gives.
pub struct Copied {
    /// What was copied; none when nothing could be.
    pub snapshot: Option<EntityClipboard>,
    /// Rooms stayed behind, which the viewer is told.
    pub notice: bool,
}

/// `clip` is a snapshot of a selection.
pub open spec fn is_snapshot<F: Fn(Point, Point) -> Point, G: Fn(Point, Point) -> Point>(
    least: F,
    minus: G,
    atlas: AtlasCache,
    area_id: AreaId,
    selection: Seq<EntityId>,
    allow_rooms: bool,
    boundary_links: bool,
    clip: ClipboardView,
) -> bool {
    match atlas.area(area_id) {
        None => clip == clipboard::empty_clipboard(),
        Some(area) => exists|routes: Seq<Seq<Point>>| #[trigger]
            clipboard::snapshot_by(
                least,
                minus,
                area_id,
                area,
                selection,
                allow_rooms,
                boundary_links,
                clip,
                routes,
            ),
    }
}

/// Copies the selection: rooms only where that is allowed, which the viewer is
/// told otherwise. Nothing is handed out when there is nothing to copy, so that
/// the clipboard is kept.
pub fn copy_selection<F: Fn(Point, Point) -> Point, G: Fn(Point, Point) -> Point>(
    state: &EditorState,
    atlas: &AtlasCache,
    boundary_links: bool,
    least: F,
    minus: G,
) -> (copied: Copied)
    requires
        forall|a: Point, b: Point| #[trigger] least.requires((a, b)),
        forall|a: Point, b: Point| #[trigger] minus.requires((a, b)),
    ensures
        match state.area_id {
            None => copied.snapshot is None && !copied.notice,
            Some(area_id) => {
                let allowed = rooms_copyable(*atlas, state.area_id);
                &&& copied.notice == (!allowed && cache::selected_rooms(state.selection@).len() > 0)
                &&& exists|clip: ClipboardView| #[trigger]
                    is_snapshot(
                        least,
                        minus,
                        *atlas,
                        area_id,
                        state.selection@,
                        allowed,
                        boundary_links,
                        clip,
                    ) && match copied.snapshot {
                        Some(snapshot) => snapshot@ == clip && !clipboard::holds_nothing(clip),
                        None => clipboard::holds_nothing(clip),
                    }
            },
        },
{
    let area_id = match state.area_id {
        Some(area_id) => area_id,
        None => {
            return Copied { snapshot: None, notice: false };
        },
    };
    let allowed = allow_room_copy(atlas, state.area_id);
    let notice = !allowed && state.selection.rooms().len() > 0;
    let snapshot = snapshot_selection(
        atlas,
        area_id,
        &state.selection,
        allowed,
        boundary_links,
        least,
        minus,
    );
    let ghost clip = snapshot@;
    assert(is_snapshot(
        least,
        minus,
        *atlas,
        state.area_id->0,
        state.selection@,
        rooms_copyable(*atlas, state.area_id),
        boundary_links,
        clip,
    ));
    if snapshot.is_empty() {
        Copied { snapshot: None, notice }
    } else {
        Copied { snapshot: Some(snapshot), notice }
    }
}

/// Whether cutting takes an entity: labels and shapes, and rooms where they may
/// be copied. A connection goes with its rooms.
pub open spec fn is_cut(entity: EntityId, allow_rooms: bool) -> bool {
    match entity {
        EntityId::Label(_) | EntityId::Shape(_) => true,
        EntityId::Room(_) => allow_rooms,
        EntityId::Connection(_) => false,
    }
}

/// What cutting takes of a selection.
pub open spec fn cut_of(selection: Seq<EntityId>, allow_rooms: bool) -> Seq<EntityId> {
    list::kept(selection, |entity: EntityId| is_cut(entity, allow_rooms))
}

/// Takes what was copied out of the area.
pub open spec fn cut_edit(state: EditorState, atlas: AtlasCache, copied: bool) -> EditView {
    if copied && may_edit(atlas, state.area_id) {
        let cut = cut_of(state.selection@, rooms_copyable(atlas, state.area_id));
        Edit {
            command: deletion::delete_command(atlas, state.area_id->0, cut),
            changes: cut.map_values(|entity: EntityId| EditorChange::RemoveFromSelection(entity)),
            selects_created: false,
            resync: true,
        }
    } else {
        no_edit()
    }
}

fn cuts(entity: EntityId, allow_rooms: bool) -> (taken: bool)
    ensures
        taken == is_cut(entity, allow_rooms),
{
    match entity {
        EntityId::Label(_) | EntityId::Shape(_) => true,
        EntityId::Room(_) => allow_rooms,
        EntityId::Connection(_) => false,
    }
}

/// Takes what was copied out of the area. In an area that may only be viewed,
/// cutting is copying.
pub fn cut_selection(state: &EditorState, atlas: &AtlasCache, copied: bool) -> (edit: Edit)
    ensures
        edit@ == cut_edit(*state, *atlas, copied),
        edit.wf(),
{
    if !copied || !can_edit_active_area(atlas, state.area_id) {
        return nothing();
    }
    let area_id = match state.area_id {
        Some(area_id) => area_id,
        None => {
            return nothing();
        },
    };
    let allowed = allow_room_copy(atlas, state.area_id);
    let ghost given = state.selection@;
    let ghost p = |entity: EntityId| is_cut(entity, allowed);
    let ghost piece = |entity: EntityId|
        if p(entity) {
            seq![entity]
        } else {
            Seq::empty()
        };
    let ghost removal = |entity: EntityId| EditorChange::RemoveFromSelection(entity);
    let mut cut: Vec<EntityId> = Vec::new();
    let mut changes: Vec<EditorChange> = Vec::new();
    assert(given.take(0) =~= Seq::empty());
    assert(changes@ =~= cut@.map_values(removal));
    for i in 0..state.selection.entities.len()
        invariant
            given == state.selection.entities@,
            p == (|entity: EntityId| is_cut(entity, allowed)),
            piece == (|entity: EntityId|
                if p(entity) {
                    seq![entity]
                } else {
                    Seq::empty()
                }),
            removal == (|entity: EntityId| EditorChange::RemoveFromSelection(entity)),
            cut@ == list::collect(given.take(i as int), piece),
            changes@ == cut@.map_values(removal),
    {
        proof {
            list::lemma_collect_step(given, piece, i as int);
        }
        let entity = state.selection.entities[i];
        if cuts(entity, allowed) {
            cut.push(entity);
            changes.push(EditorChange::RemoveFromSelection(entity));
            assert(changes@ =~= cut@.map_values(removal));
        }
    }
    assert(given.take(given.len() as int) =~= given);
    assert(cut@ == cut_of(given, allowed)) by {
        list::lemma_collect_same(
            given,
            piece,
            |x: EntityId|
                if p(x) {
                    seq![x]
                } else {
                    Seq::empty()
                },
        );
    }
    let taken = Selection { entities: cut };
    Edit {
        command: delete_selection(atlas, area_id, &taken),
        changes,
        selects_created: false,
        resync: true,
    }
}

/// How far a paste is moved, in steps: pastes into the area of the copy go on
/// from the last, so that they do not land on each other; others stay in place.
pub open spec fn paste_steps(consecutive: u32, same_area: bool) -> int {
    if same_area {
        consecutive + 1
    } else {
        0
    }
}

/// Whether there is something to paste, and where it may go.
pub open spec fn may_paste(state: EditorState, atlas: AtlasCache, clip: ClipboardView) -> bool {
    !clipboard::holds_nothing(clip) && may_edit(atlas, state.area_id)
}

/// How far a paste is moved, in steps; none when there is nothing to paste or
/// the area may only be viewed. Counts the pastes into the area of the copy.
pub fn start_paste(
    state: &EditorState,
    atlas: &AtlasCache,
    clipboard: &EntityClipboard,
    consecutive: &mut u32,
) -> (steps: Option<u32>)
    requires
        *old(consecutive) < u32::MAX,
    ensures
        may_paste(*state, *atlas, clipboard@) ==> steps == Some(
            paste_steps(*old(consecutive), clipboard.source_area_id == state.area_id) as u32,
        ),
        !may_paste(*state, *atlas, clipboard@) ==> steps is None,
        *final(consecutive) == if may_paste(*state, *atlas, clipboard@)
            && clipboard.source_area_id == state.area_id {
            (*old(consecutive) + 1) as u32
        } else {
            *old(consecutive)
        },
{
    let area_id = match state.area_id {
        Some(area_id) => area_id,
        None => {
            return None;
        },
    };
    if clipboard.is_empty() || !can_edit_active_area(atlas, state.area_id) {
        return None;
    }
    let same_area = match clipboard.source_area_id {
        Some(source) => source == area_id,
        None => false,
    };
    if same_area {
        *consecutive = *consecutive + 1;
        Some(*consecutive)
    } else {
        Some(0)
    }
}

/// What a paste changes of the selection: the pasted rooms take its place, and
/// labels and shapes join as they appear.
pub open spec fn paste_edit(
    atlas: AtlasCache,
    area_id: Option<AreaId>,
    command: Option<CommandView>,
    rooms: Seq<RoomNumber>,
) -> EditView {
    match command {
        None => no_edit(),
        Some(command) => Edit {
            command: gated_command(atlas, area_id, Some(command)),
            changes: seq![EditorChange::ClearSelection] + rooms.map_values(
                |number: RoomNumber| EditorChange::AddToSelection(EntityId::Room(number)),
            ),
            selects_created: true,
            resync: true,
        },
    }
}

/// What a paste changes of the selection.
pub fn finish_paste(
    state: &EditorState,
    atlas: &AtlasCache,
    command: Option<Command>,
    rooms: &Vec<RoomNumber>,
) -> (edit: Edit)
    requires
        command matches Some(command) ==> command.wf(),
    ensures
        edit@ == paste_edit(*atlas, state.area_id, edits::opt_command(command), rooms@),
        edit.wf(),
{
    let ghost given = edits::opt_command(command);
    let command = match command {
        Some(command) => Some(command),
        None => {
            return nothing();
        },
    };
    let mut changes = one_change(EditorChange::ClearSelection);
    let ghost added = |number: RoomNumber| EditorChange::AddToSelection(EntityId::Room(number));
    assert(changes@ =~= seq![EditorChange::ClearSelection] + rooms@.take(0).map_values(added));
    for i in 0..rooms.len()
        invariant
            added == (|number: RoomNumber| EditorChange::AddToSelection(EntityId::Room(number))),
            changes@ == seq![EditorChange::ClearSelection] + rooms@.take(i as int).map_values(
                added,
            ),
    {
        changes.push(EditorChange::AddToSelection(EntityId::Room(rooms[i])));
        assert(changes@ =~= seq![EditorChange::ClearSelection] + rooms@.take(i + 1).map_values(
            added,
        ));
    }
    assert(rooms@.take(rooms.len() as int) =~= rooms@);
    Edit {
        command: gate_command(atlas, state.area_id, command),
        changes,
        selects_created: true,
        resync: true,
    }
}

} // verus!
