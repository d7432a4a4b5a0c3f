//! What typing into the inspector does to exits and connections.
//!
//! Each law follows a message to the command that it pushes, and the command to what it leaves
//! of the exit or the connection that was edited.

use vstd::prelude::*;

use super::super::commands::FieldId;
use super::super::links;
use super::super::model::{
    ConnectionArgs, ConnectionDash, ConnectionRouting, ConnectionUpdates, CornerStyle, ExitCache, Point,
    RoomKey, RoomNumber, SegmentShape,
};
use super::super::relinking::ExitState;
use super::super::rewiring;
use super::super::wiring::LinkState;
use super::action::{self, ActionView, Scene};
use super::connections::{self, ConnectionMessage};
use super::rooms;
use super::state::{ConnectionDefaults, ExitRow, StateView};
use super::typing;
use super::wires::{self, ExitField, ExitMessage};
use crate::list;
use crate::text;

verus! {

// ===== Exits =====

/// Whether what was put into a field of an exit says something: a room is a number or nothing,
/// a weight is a number.
pub open spec fn says_something(field: ExitField<Seq<char>>) -> bool {
    match field {
        ExitField::ToRoom(text) => text::trimmed(text).len() == 0 || rooms::number_in(
            text::trimmed(text),
        ) is Some,
        ExitField::Weight(_, value) => value is Some,
        _ => true,
    }
}

/// An exit with what was put into a field. A path or a command cannot be emptied, and a
/// destination is taken away as a whole, unless it was withheld.
pub open spec fn exit_with(exit: ExitState, field: ExitField<Seq<char>>) -> ExitState {
    match field {
        ExitField::FromDirection(from_direction) => ExitCache { from_direction, ..exit },
        ExitField::ToArea(area_id) => ExitCache { to_area_id: Some(area_id), ..exit },
        ExitField::ToRoom(text) => if text::trimmed(text).len() > 0 {
            ExitCache {
                to_room_number: Some(RoomNumber(rooms::number_in(text::trimmed(text))->0)),
                ..exit
            }
        } else if exit.to_unknown {
            exit
        } else {
            ExitCache { to_area_id: None, to_room_number: None, to_direction: None, ..exit }
        },
        ExitField::ToDirection(direction) => ExitCache { to_direction: Some(direction), ..exit },
        ExitField::Path(text) => if text.len() == 0 {
            exit
        } else {
            ExitCache { path: Some(text), ..exit }
        },
        ExitField::Command(text) => if text.len() == 0 {
            exit
        } else {
            ExitCache { command: Some(text), ..exit }
        },
        ExitField::Weight(_, value) => ExitCache { weight: value->0, ..exit },
        ExitField::Hidden(is_hidden) => ExitCache { is_hidden, ..exit },
        ExitField::Closed(is_closed) => ExitCache { is_closed, ..exit },
        ExitField::Locked(is_locked) => ExitCache { is_locked, ..exit },
    }
}

/// The room whose exits are shown: the selected one, or else the one that the exit of a row
/// leaves.
pub open spec fn exit_room(scene: Scene, row: ExitRow<Seq<char>>) -> RoomKey {
    RoomKey {
        area_id: scene.area_id->0,
        room_number: if scene.selection@.len() == 1 && scene.selection@[0] is Room {
            scene.selection@[0]->Room_0
        } else {
            row.from_room
        },
    }
}

/// Whether an action pushes a command that puts a value into a field of an exit; the command is
/// there exactly when the exit is cached.
pub open spec fn types_exit_field(
    action: ActionView,
    scene: Scene,
    row: ExitRow<Seq<char>>,
    field: ExitField<Seq<char>>,
) -> bool {
    let key = exit_room(scene, row);
    &&& action is Push
    &&& match links::cached_exit(scene.atlas, key, row.id) {
        Some(exit) => action->command is Some && exit.id == row.id && rewiring::makes_exit(
            action->command->0,
            key,
            exit,
            exit_with(exit@, field),
        ),
        None => action->command is None,
    }
}

/// Whether rows are as they were but for one, which is still of the same exit.
pub open spec fn is_row_edited(
    after: Seq<ExitRow<Seq<char>>>,
    before: Seq<ExitRow<Seq<char>>>,
    index: int,
) -> bool {
    &&& after.len() == before.len()
    &&& forall|i: int| 0 <= i < before.len() && i != index ==> #[trigger] after[i] == before[i]
    &&& after[index].id == before[index].id && after[index].from_room == before[index].from_room
        && after[index].is_secret == before[index].is_secret && after[index].to_unknown
        == before[index].to_unknown
}

/// Whether a row shows what was put into a field.
pub open spec fn shows(row: ExitRow<Seq<char>>, field: ExitField<Seq<char>>) -> bool {
    match field {
        ExitField::FromDirection(direction) => row.from_direction == direction,
        ExitField::ToArea(area_id) => row.to_area == Some(area_id),
        ExitField::ToRoom(text) => row.to_room == text,
        ExitField::ToDirection(direction) => row.to_direction == Some(direction),
        ExitField::Path(text) => row.path == text,
        ExitField::Command(text) => row.command == text,
        ExitField::Weight(text, _) => row.weight == text,
        ExitField::Hidden(flag) => row.is_hidden == flag,
        ExitField::Closed(flag) => row.is_closed == flag,
        ExitField::Locked(flag) => row.is_locked == flag,
    }
}

/// Whether an action is what a message on the exits shown asks for.
pub open spec fn types_exit(
    after: StateView,
    action: ActionView,
    state: StateView,
    scene: Scene,
    message: ExitMessage<Seq<char>>,
) -> bool {
    match message {
        ExitMessage::Edited(index, field) => index < state.exits.len() ==> {
            &&& is_row_edited(after.exits, state.exits, index as int)
            &&& shows(after.exits[index as int], field)
            &&& if says_something(field) && scene.area_id is Some {
                types_exit_field(action, scene, state.exits[index as int], field)
            } else {
                action is Nothing
            }
        },
        ExitMessage::Deleted(index) => if index < state.exits.len() && !state.exits[index as int].to_unknown {
            &&& after.exits == state.exits.remove(index as int)
            &&& scene.area_id is Some ==> action is Push && action->command == links::delete_exit_command(
                scene.atlas,
                exit_room(scene, state.exits[index as int]),
                state.exits[index as int].id,
            )
        } else {
            after == state && action is Nothing
        },
        ExitMessage::Add => {
            &&& after == state
            &&& typing::is_one_room(scene) ==> action is Push && action->command is Some && rewiring::adds_plain_exit(
                action->command->0,
                RoomKey { area_id: scene.area_id->0, room_number: scene.selection@[0]->Room_0 },
            )
            &&& !typing::is_one_room(scene) ==> action is Nothing
        },
    }
}

/// An exit holds what was typed: the exit of the row has the value in that field, and
/// everything else is as it was.
#[verifier::rlimit(60)]
#[verifier::spinoff_prover]
pub proof fn law_an_exit_holds_what_was_typed(
    state: StateView,
    scene: Scene,
    message: ExitMessage<Seq<char>>,
)
    ensures
        types_exit(
            wires::exit_updated(state, scene, message).0,
            wires::exit_updated(state, scene, message).1,
            state,
            scene,
            message,
        ),
{
    let (after, action) = wires::exit_updated(state, scene, message);
    match message {
        ExitMessage::Edited(index, field) => {
            if index < state.exits.len() {
                let row = state.exits[index as int];
                let key = exit_room(scene, row);
                if scene.area_id is Some {
                    assert(wires::row_room(scene, row.from_room) == Some(key));
                    lemma_exit_field(scene, key, row, field);
                }
            }
        },
        ExitMessage::Deleted(index) => {
            if index < state.exits.len() {
                let row = state.exits[index as int];
                if scene.area_id is Some {
                    assert(wires::row_room(scene, row.from_room) == Some(exit_room(scene, row)));
                }
            }
        },
        ExitMessage::Add => {
            if typing::is_one_room(scene) {
                rewiring::law_a_default_exit_is_plain(
                    scene.area_id->0,
                    scene.selection@[0]->Room_0,
                );
            }
        },
    }
}

/// The command that changes a field of an exit gives the exit what was put into the field.
proof fn lemma_exit_field(scene: Scene, key: RoomKey, row: ExitRow<Seq<char>>, field: ExitField<Seq<char>>)
    ensures
        wires::is_valid_exit_field(field) == says_something(field),
        says_something(field) ==> match links::cached_exit(scene.atlas, key, row.id) {
            Some(exit) => wires::exit_command(scene.atlas, key, row.id, field) is Some && exit.id == row.id
                && rewiring::makes_exit(
                wires::exit_command(scene.atlas, key, row.id, field)->0,
                key,
                exit,
                exit_with(exit@, field),
            ),
            None => wires::exit_command(scene.atlas, key, row.id, field) is None,
        },
{
    if let Some(exit) = links::cached_exit(scene.atlas, key, row.id) {
        let room = scene.atlas.area(key.area_id)->0.room(key.room_number)->0;
        list::lemma_first_exists(room.exits@, |item: ExitCache| item.id == row.id);
        assert(exit.id == row.id);
        let changed = wires::exit_changed(links::exit_snapshot(exit), field);
        rewiring::law_an_edit_gives_an_exit_its_values(exit, key, wires::exit_field_id(field), changed);
        if says_something(field) {
            assert(rewiring::with_values(exit@, changed) == exit_with(exit@, field));
        }
    }
}

// ===== Connections =====

/// Whether one connection of an area is all that is selected.
pub open spec fn is_one_connection(scene: Scene) -> bool {
    scene.area_id is Some && scene.selection@.len() == 1 && scene.selection@[0] is Connection
}

/// Whether an action pushes a command that makes another connection of the selected one.
pub open spec fn turns_connection(
    action: ActionView,
    scene: Scene,
    made: spec_fn(LinkState) -> LinkState,
) -> bool {
    action is Push && rewiring::makes_connection(
        action->command,
        scene.atlas,
        scene.area_id->0,
        scene.selection@[0]->Connection_0,
        made,
    )
}

/// Whether an action is what a message on the selected connection asks for.
pub open spec fn types_connection(
    action: ActionView,
    scene: Scene,
    defaults: ConnectionDefaults,
    message: ConnectionMessage<Seq<char>, Seq<Point>>,
) -> bool {
    let area = scene.atlas.area(scene.area_id->0);
    let found = area->0.connection(scene.selection@[0]->Connection_0);
    let is_cached = area is Some && found is Some;
    match message {
        ConnectionMessage::Routing { routing, allowed } => if !allowed || !is_cached {
            action is Nothing
        } else if routing == ConnectionRouting::Automatic {
            action is StartAutomaticRoute && action->StartAutomaticRoute_0
                == scene.selection@[0]->Connection_0
        } else {
            turns_connection(action, scene, |link: LinkState| ConnectionArgs { routing, ..link })
        },
        ConnectionMessage::SegmentShape { segment_shape, squared } => {
            let squares = segment_shape == SegmentShape::Orthogonal && found->0.routing
                == ConnectionRouting::Manual && links::drawn_both(area->0, found->0.id) is Some;
            if !is_cached {
                action is Nothing
            } else if squares && squared is None {
                action is RouteTooLong
            } else {
                turns_connection(
                    action,
                    scene,
                    |link: LinkState|
                        ConnectionArgs {
                            segment_shape,
                            route_points: if squares {
                                squared->0
                            } else {
                                found->0.route_points@
                            },
                            ..link
                        },
                )
            }
        },
        ConnectionMessage::Corner(corner) => turns_connection(
            action,
            scene,
            |link: LinkState| ConnectionArgs { corner, ..link },
        ),
        ConnectionMessage::Dash(dash) => turns_connection(
            action,
            scene,
            |link: LinkState| ConnectionArgs { dash, ..link },
        ),
        ConnectionMessage::Color(color, valid) => if color.len() == 0 || valid {
            turns_connection(action, scene, |link: LinkState| ConnectionArgs { color, ..link })
        } else {
            action is Nothing
        },
        ConnectionMessage::Thickness(_, reading) => if reading is Some && reading->0.is_thickness {
            turns_connection(
                action,
                scene,
                |link: LinkState| ConnectionArgs { thickness: reading->0.value, ..link },
            )
        } else {
            action is Nothing
        },
        ConnectionMessage::ClearRoute => turns_connection(
            action,
            scene,
            |link: LinkState|
                ConnectionArgs {
                    route_points: Seq::empty(),
                    routing: if is_cached && (found->0.routing == ConnectionRouting::Manual
                        || found->0.routing == ConnectionRouting::Automatic) {
                        ConnectionRouting::Simple
                    } else {
                        link.routing
                    },
                    ..link
                },
        ),
        ConnectionMessage::Reroute => action is StartAutomaticRoute && action->StartAutomaticRoute_0
            == scene.selection@[0]->Connection_0,
        ConnectionMessage::Reset => turns_connection(
            action,
            scene,
            |link: LinkState|
                ConnectionArgs {
                    routing: ConnectionRouting::Simple,
                    segment_shape: SegmentShape::Direct,
                    corner: CornerStyle::Sharp,
                    route_points: Seq::empty(),
                    dash: ConnectionDash::Solid,
                    color: defaults.color@,
                    thickness: defaults.thickness,
                    ..link
                },
        ),
        ConnectionMessage::Delete => action is DeleteSelection,
        _ => true,
    }
}

/// Commits to a field of the selected connection.
proof fn lemma_commit(
    scene: Scene,
    field: FieldId,
    updates: ConnectionUpdates<Seq<char>, Seq<Point>>,
    description: Seq<char>,
    made: spec_fn(LinkState) -> LinkState,
)
    requires
        is_one_connection(scene),
        updates.endpoint_b is None,
        forall|link: LinkState| rewiring::takes_updates(#[trigger] made(link), link, updates),
    ensures
        turns_connection(action::connection_commit(scene, field, updates, description), scene, made),
{
    rewiring::lemma_makes_connection(
        scene.atlas,
        scene.area_id->0,
        scene.selection@[0]->Connection_0,
        field,
        updates,
        description,
        made,
    );
}

/// A connection holds what was chosen for it: the connection that is all that is selected has
/// the value, and everything else is as it was.
#[verifier::rlimit(100)]
#[verifier::spinoff_prover]
pub proof fn law_a_connection_holds_what_was_chosen(
    state: StateView,
    scene: Scene,
    defaults: ConnectionDefaults,
    message: ConnectionMessage<Seq<char>, Seq<Point>>,
)
    requires
        is_one_connection(scene),
    ensures
        types_connection(
            connections::connection_updated(state, scene, defaults, message).1,
            scene,
            defaults,
            message,
        ),
{
    let none = ConnectionUpdates::<Seq<char>, Seq<Point>>::none();
    let area = scene.atlas.area(scene.area_id->0);
    let found = area->0.connection(scene.selection@[0]->Connection_0);
    let is_cached = area is Some && found is Some;
    match message {
        ConnectionMessage::Routing { routing, allowed } => {
            lemma_commit(
                scene,
                FieldId::Routing,
                ConnectionUpdates { routing: Some(routing), ..none },
                "Change connection routing"@,
                |link: LinkState| ConnectionArgs { routing, ..link },
            );
        },
        ConnectionMessage::SegmentShape { segment_shape, squared } => {
            let squares = segment_shape == SegmentShape::Orthogonal && found->0.routing
                == ConnectionRouting::Manual && links::drawn_both(area->0, found->0.id) is Some;
            let points = if squares {
                squared->0
            } else {
                found->0.route_points@
            };
            if is_cached {
                assert(connections::square_input(scene, segment_shape) is Some == squares);
            }
            lemma_commit(
                scene,
                FieldId::SegmentShape,
                ConnectionUpdates {
                    segment_shape: Some(segment_shape),
                    route_points: Some(points),
                    ..none
                },
                "Change connection segment shape"@,
                |link: LinkState|
                    ConnectionArgs {
                        segment_shape,
                        route_points: if squares {
                            squared->0
                        } else {
                            found->0.route_points@
                        },
                        ..link
                    },
            );
        },
        ConnectionMessage::Corner(corner) => {
            lemma_commit(
                scene,
                FieldId::CornerStyle,
                ConnectionUpdates { corner: Some(corner), ..none },
                "Change connection corners"@,
                |link: LinkState| ConnectionArgs { corner, ..link },
            );
        },
        ConnectionMessage::Dash(dash) => {
            lemma_commit(
                scene,
                FieldId::DashStyle,
                ConnectionUpdates { dash: Some(dash), ..none },
                "Change connection dash"@,
                |link: LinkState| ConnectionArgs { dash, ..link },
            );
        },
        ConnectionMessage::Color(color, valid) => {
            lemma_commit(
                scene,
                FieldId::Color,
                ConnectionUpdates { color: Some(color), ..none },
                "Change connection color"@,
                |link: LinkState| ConnectionArgs { color, ..link },
            );
        },
        ConnectionMessage::Thickness(_, reading) => {
            lemma_commit(
                scene,
                FieldId::Thickness,
                ConnectionUpdates { thickness: Some(reading->0.value), ..none },
                "Change connection thickness"@,
                |link: LinkState| ConnectionArgs { thickness: reading->0.value, ..link },
            );
        },
        ConnectionMessage::ClearRoute => {
            lemma_commit(
                scene,
                FieldId::RoutePoints,
                ConnectionUpdates {
                    routing: connections::cleared_routing(scene),
                    route_points: Some(Seq::empty()),
                    ..none
                },
                "Clear connection route"@,
                |link: LinkState|
                    ConnectionArgs {
                        route_points: Seq::empty(),
                        routing: if is_cached && (found->0.routing == ConnectionRouting::Manual
                            || found->0.routing == ConnectionRouting::Automatic) {
                            ConnectionRouting::Simple
                        } else {
                            link.routing
                        },
                        ..link
                    },
            );
        },
        ConnectionMessage::Reset => {
            lemma_commit(
                scene,
                FieldId::Routing,
                connections::plain_connection(defaults),
                "Reset connection appearance"@,
                |link: LinkState|
                    ConnectionArgs {
                        routing: ConnectionRouting::Simple,
                        segment_shape: SegmentShape::Direct,
                        corner: CornerStyle::Sharp,
                        route_points: Seq::empty(),
                        dash: ConnectionDash::Solid,
                        color: defaults.color@,
                        thickness: defaults.thickness,
                        ..link
                    },
            );
        },
        _ => {},
    }
}

} // verus!
