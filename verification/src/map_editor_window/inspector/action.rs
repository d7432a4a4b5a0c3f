//! What the inspector asks for.

use vstd::prelude::*;

use super::super::cache::{self, Selection};
use super::super::commands::{Command, CommandView, FieldId};
use super::super::edits::{self, edit_label_field, edit_room_field, edit_shape_field};
use super::super::links::{self, edit_connection};
use super::super::model::{
    AreaId, AtlasCache, ConnectionId, ConnectionRouting, ConnectionUpdates, EntityId, LabelId, LabelUpdates,
    Point, RoomKey, RoomNumber, RoomSide, RoomUpdates, Scalar, ShapeId, ShapeUpdates,
};
use super::secrets::{RequestView, SecretMarksRequest};

verus! {

/// What the inspector looks at.
pub struct Scene {
    pub atlas: AtlasCache,
    pub area_id: Option<AreaId>,
    pub selection: Selection,
    /// The user may see and change secrets here.
    pub cleared: bool,
}

/// A number that was typed, with what the fields ask of it.
#[derive(Clone, Copy, Debug, PartialEq, Eq, Structural)]
pub struct Reading {
    pub value: Scalar,
    /// The value, or the least size of a drawing when that is greater.
    pub sized: Scalar,
    /// It is not negative.
    pub non_negative: bool,
    /// It is between zero and one.
    pub in_unit: bool,
    /// It is a thickness that a connection can have.
    pub is_thickness: bool,
}

/// Which automatic routes a push may leave out of date.
#[derive(Clone, Copy, Debug, PartialEq, Eq, Structural)]
pub enum Stale {
    Nothing,
    /// Those at the selection that moved.
    Moved,
    Connection(ConnectionId),
}

/// What is left to do after a message.
#[allow(inconsistent_fields)]
pub enum Action<C = Option<Command>, Q = SecretMarksRequest, V = Vec<(ConnectionId, Scalar)>> {
    Nothing,
    /// Push a command, when there is one; then rebuild the buffers if `resync`.
    Push { stale: Stale, command: C, resync: bool },
    StartAutomaticRoute(ConnectionId),
    DeleteSelection,
    /// Say that a route has too many points to be squared.
    RouteTooLong,
    /// Ask whether to share out a wall: where each port would go.
    ConfirmRedistributePorts {
        area_id: AreaId,
        room_number: RoomNumber,
        side: RoomSide,
        secret: bool,
        preview: V,
    },
    /// Set flags in the cache and send a request.
    SendMarks { area_id: AreaId, request: Q, bulk: bool },
    /// Fetch what the server changed.
    SyncNow,
    /// Set the flags of a request in the cache to `secret`.
    RevertMarks { area_id: AreaId, request: Q, secret: bool },
}

pub type ActionView = Action<Option<CommandView>, RequestView, Seq<(ConnectionId, Scalar)>>;

impl View for Action<Option<Command>, SecretMarksRequest, Vec<(ConnectionId, Scalar)>> {
    type V = ActionView;

    open spec fn view(&self) -> ActionView {
        match *self {
            Action::Nothing => Action::Nothing,
            Action::Push { stale, command, resync } => Action::Push {
                stale,
                command: edits::opt_command(command),
                resync,
            },
            Action::StartAutomaticRoute(id) => Action::StartAutomaticRoute(id),
            Action::DeleteSelection => Action::DeleteSelection,
            Action::RouteTooLong => Action::RouteTooLong,
            Action::ConfirmRedistributePorts { area_id, room_number, side, secret, preview } =>
                Action::ConfirmRedistributePorts {
                    area_id,
                    room_number,
                    side,
                    secret,
                    preview: preview@,
                },
            Action::SendMarks { area_id, request, bulk } => Action::SendMarks {
                area_id,
                request: request@,
                bulk,
            },
            Action::SyncNow => Action::SyncNow,
            Action::RevertMarks { area_id, request, secret } => Action::RevertMarks {
                area_id,
                request: request@,
                secret,
            },
        }
    }
}

impl Action {
    /// The command to push, when there is one, can be pushed.
    pub open spec fn wf(self) -> bool {
        self matches Action::Push { command: Some(command), .. } ==> command.wf()
    }
}

/// Push a command.
pub open spec fn pushed(command: Option<CommandView>) -> ActionView {
    Action::Push { stale: Stale::Nothing, command, resync: false }
}

/// Push a command.
pub(crate) fn push(command: Option<Command>) -> (action: Action)
    requires
        command matches Some(command) ==> command.wf(),
    ensures
        action@ == pushed(edits::opt_command(command)),
        action.wf(),
{
    Action::Push { stale: Stale::Nothing, command, resync: false }
}

// ===== The selection =====

/// The room that is the whole selection.
pub open spec fn selected_room(scene: Scene) -> Option<RoomKey> {
    match (cache::single_entity(scene.selection@), scene.area_id) {
        (Some(EntityId::Room(room_number)), Some(area_id)) => Some(
            RoomKey { area_id, room_number },
        ),
        _ => None,
    }
}

/// The label that is the whole selection.
pub open spec fn selected_label(scene: Scene) -> Option<(AreaId, LabelId)> {
    match (cache::single_entity(scene.selection@), scene.area_id) {
        (Some(EntityId::Label(id)), Some(area_id)) => Some((area_id, id)),
        _ => None,
    }
}

/// The shape that is the whole selection.
pub open spec fn selected_shape(scene: Scene) -> Option<(AreaId, ShapeId)> {
    match (cache::single_entity(scene.selection@), scene.area_id) {
        (Some(EntityId::Shape(id)), Some(area_id)) => Some((area_id, id)),
        _ => None,
    }
}

/// The connection that is the whole selection.
pub open spec fn selected_connection(scene: Scene) -> Option<(AreaId, ConnectionId)> {
    match (cache::single_entity(scene.selection@), scene.area_id) {
        (Some(EntityId::Connection(id)), Some(area_id)) => Some((area_id, id)),
        _ => None,
    }
}

impl Scene {
    /// The room that is the whole selection.
    pub fn selected_room_key(&self) -> (key: Option<RoomKey>)
        ensures
            key == selected_room(*self),
    {
        match (self.selection.single(), self.area_id) {
            (Some(EntityId::Room(room_number)), Some(area_id)) => Some(
                RoomKey { area_id, room_number },
            ),
            _ => None,
        }
    }

    /// The label that is the whole selection.
    pub fn selected_label_id(&self) -> (id: Option<(AreaId, LabelId)>)
        ensures
            id == selected_label(*self),
    {
        match (self.selection.single(), self.area_id) {
            (Some(EntityId::Label(id)), Some(area_id)) => Some((area_id, id)),
            _ => None,
        }
    }

    /// The shape that is the whole selection.
    pub fn selected_shape_id(&self) -> (id: Option<(AreaId, ShapeId)>)
        ensures
            id == selected_shape(*self),
    {
        match (self.selection.single(), self.area_id) {
            (Some(EntityId::Shape(id)), Some(area_id)) => Some((area_id, id)),
            _ => None,
        }
    }

    /// The connection that is the whole selection.
    pub fn selected_connection_id(&self) -> (id: Option<(AreaId, ConnectionId)>)
        ensures
            id == selected_connection(*self),
    {
        match (self.selection.single(), self.area_id) {
            (Some(EntityId::Connection(id)), Some(area_id)) => Some((area_id, id)),
            _ => None,
        }
    }
}

// ===== Committing a field =====

/// What committing a field of the selected room asks for.
pub open spec fn room_commit(
    scene: Scene,
    field: FieldId,
    updates: RoomUpdates<Seq<char>>,
) -> ActionView {
    match selected_room(scene) {
        None => Action::Nothing,
        Some(key) => Action::Push {
            stale: if field == FieldId::Position {
                Stale::Moved
            } else {
                Stale::Nothing
            },
            command: edits::room_field_command(scene.atlas, key, field, updates),
            resync: false,
        },
    }
}

/// Commits a field of the selected room.
pub(crate) fn commit_room_field(scene: &Scene, field: FieldId, updates: RoomUpdates) -> (action:
    Action)
    ensures
        action@ == room_commit(*scene, field, updates@),
        action.wf(),
{
    match scene.selected_room_key() {
        None => Action::Nothing,
        Some(key) => Action::Push {
            stale: if field == FieldId::Position {
                Stale::Moved
            } else {
                Stale::Nothing
            },
            command: edit_room_field(&scene.atlas, key, field, updates),
            resync: false,
        },
    }
}

/// What committing a field of the selected label asks for.
pub open spec fn label_commit(
    scene: Scene,
    field: FieldId,
    updates: LabelUpdates<Seq<char>>,
) -> ActionView {
    match selected_label(scene) {
        None => Action::Nothing,
        Some((area_id, id)) => pushed(
            edits::label_field_command(scene.atlas, area_id, id, field, updates),
        ),
    }
}

/// Commits a field of the selected label.
pub(crate) fn commit_label_field(scene: &Scene, field: FieldId, updates: LabelUpdates) -> (action:
    Action)
    ensures
        action@ == label_commit(*scene, field, updates@),
        action.wf(),
{
    match scene.selected_label_id() {
        None => Action::Nothing,
        Some((area_id, id)) => push(edit_label_field(&scene.atlas, area_id, id, field, updates)),
    }
}

/// What committing a field of the selected shape asks for.
pub open spec fn shape_commit(
    scene: Scene,
    field: FieldId,
    updates: ShapeUpdates<Seq<char>>,
) -> ActionView {
    match selected_shape(scene) {
        None => Action::Nothing,
        Some((area_id, id)) => pushed(
            edits::shape_field_command(scene.atlas, area_id, id, field, updates),
        ),
    }
}

/// Commits a field of the selected shape.
pub(crate) fn commit_shape_field(scene: &Scene, field: FieldId, updates: ShapeUpdates) -> (action:
    Action)
    ensures
        action@ == shape_commit(*scene, field, updates@),
        action.wf(),
{
    match scene.selected_shape_id() {
        None => Action::Nothing,
        Some((area_id, id)) => push(edit_shape_field(&scene.atlas, area_id, id, field, updates)),
    }
}

/// Whether a connection is routed automatically.
pub open spec fn is_automatic(atlas: AtlasCache, area_id: AreaId, id: ConnectionId) -> bool {
    match atlas.area(area_id) {
        Some(area) => match area.connection(id) {
            Some(connection) => connection.routing == ConnectionRouting::Automatic,
            None => false,
        },
        None => false,
    }
}

/// What committing a field of the selected connection asks for. A change of what
/// an automatic route was computed from leaves it out of date.
pub open spec fn connection_commit(
    scene: Scene,
    field: FieldId,
    updates: ConnectionUpdates<Seq<char>, Seq<Point>>,
    description: Seq<char>,
) -> ActionView {
    match selected_connection(scene) {
        None => Action::Nothing,
        Some((area_id, id)) => Action::Push {
            stale: if (field == FieldId::Endpoint || field == FieldId::CornerStyle || field
                == FieldId::Thickness) && is_automatic(scene.atlas, area_id, id) {
                Stale::Connection(id)
            } else {
                Stale::Nothing
            },
            command: links::connection_command(
                scene.atlas,
                area_id,
                id,
                field,
                updates,
                description,
            ),
            resync: false,
        },
    }
}

/// Commits a field of the selected connection.
pub(crate) fn commit_connection_field(
    scene: &Scene,
    field: FieldId,
    updates: ConnectionUpdates,
    description: &str,
) -> (action: Action)
    ensures
        action@ == connection_commit(*scene, field, updates@, description@),
        action.wf(),
{
    match scene.selected_connection_id() {
        None => Action::Nothing,
        Some((area_id, id)) => {
            let automatic = match scene.atlas.get_area(&area_id) {
                Some(area) => match area.get_connection(&id) {
                    Some(connection) => match connection.routing {
                        ConnectionRouting::Automatic => true,
                        _ => false,
                    },
                    None => false,
                },
                None => false,
            };
            let routed = match field {
                FieldId::Endpoint | FieldId::CornerStyle | FieldId::Thickness => true,
                _ => false,
            };
            Action::Push {
                stale: if routed && automatic {
                    Stale::Connection(id)
                } else {
                    Stale::Nothing
                },
                command: edit_connection(
                    &scene.atlas,
                    area_id,
                    id,
                    field,
                    updates,
                    description.to_owned(),
                ),
                resync: false,
            }
        },
    }
}

} // verus!
