//! Editing the selected connection.

use vstd::prelude::*;

use super::super::commands::FieldId;
use super::super::creation::Anchor;
use super::super::links::{self, find_drawn_both, pair_connections, unlink_exit};
use super::super::model::{
    clone_points, AreaCache, AreaId, Connection, ConnectionDash, ConnectionEndpoint, ConnectionId,
    ConnectionRouting, ConnectionUpdates, CornerStyle, ExitCache, ExitDirection, Point, PortMode, RoomCache,
    RoomNumber, RoomSide, Scalar, SegmentShape,
};
use super::action::{self, commit_connection_field, push, Action, ActionView, Reading, Scene};
use super::ports::{self, endpoint_updates, redistribute_port_updates, Bearing, PortGeometry, WallMeasure};
use super::state::{self, ConnectionBuffers, ConnectionDefaults, State, StateView};
use crate::list;
use crate::text::is_empty_text;

verus! {

/// The selected connection, with its area.
pub open spec fn chosen(scene: Scene) -> Option<(AreaId, AreaCache, Connection)> {
    match action::selected_connection(scene) {
        Some((area_id, id)) => match scene.atlas.area(area_id) {
            Some(area) => match area.connection(id) {
                Some(connection) => Some((area_id, area, connection)),
                None => None,
            },
            None => None,
        },
        None => None,
    }
}

/// The identity of the selected connection.
pub open spec fn chosen_id(scene: Scene) -> ConnectionId {
    (action::selected_connection(scene)->0).1
}

/// The selected connection, with its area.
fn choose_connection<'a>(scene: &'a Scene) -> (found: Option<(AreaId, &'a AreaCache, &'a Connection)>)
    ensures
        match (found, chosen(*scene)) {
            (Some(found), Some(chosen)) => found.0 == chosen.0 && *found.1 == chosen.1 && *found.2
                == chosen.2,
            (None, None) => true,
            _ => false,
        },
{
    match scene.selected_connection_id() {
        Some((area_id, id)) => match scene.atlas.get_area(&area_id) {
            Some(area) => match area.get_connection(&id) {
                Some(connection) => Some((area_id, area, connection)),
                None => None,
            },
            None => None,
        },
        None => None,
    }
}

/// An edit of the selected connection. A typed number carries its reading and a
/// typed color whether it is one.
#[allow(inconsistent_fields)]
pub enum ConnectionMessage<T = String, R = Vec<Point>> {
    /// Another routing, and whether a connection of this kind can have it.
    Routing { routing: ConnectionRouting, allowed: bool },
    /// Another shape of the segments, and the route of [`route_to_square`] at
    /// right angles.
    SegmentShape { segment_shape: SegmentShape, squared: Option<R> },
    Corner(CornerStyle),
    Dash(ConnectionDash),
    Color(T, bool),
    Thickness(T, Option<Reading>),
    ClearRoute,
    Reroute,
    Reset,
    Delete,
    /// Give an exit a connection of its own, with this identity.
    Unlink(usize, ConnectionId),
    Pair(ConnectionId),
}

/// The view of an optional route.
pub open spec fn opt_points(points: Option<Vec<Point>>) -> Option<Seq<Point>> {
    match points {
        Some(points) => Some(points@),
        None => None,
    }
}

impl View for ConnectionMessage<String, Vec<Point>> {
    type V = ConnectionMessage<Seq<char>, Seq<Point>>;

    open spec fn view(&self) -> ConnectionMessage<Seq<char>, Seq<Point>> {
        match *self {
            ConnectionMessage::Routing { routing, allowed } => ConnectionMessage::Routing {
                routing,
                allowed,
            },
            ConnectionMessage::SegmentShape { segment_shape, squared } =>
                ConnectionMessage::SegmentShape { segment_shape, squared: opt_points(squared) },
            ConnectionMessage::Corner(corner) => ConnectionMessage::Corner(corner),
            ConnectionMessage::Dash(dash) => ConnectionMessage::Dash(dash),
            ConnectionMessage::Color(text, valid) => ConnectionMessage::Color(text@, valid),
            ConnectionMessage::Thickness(text, reading) => ConnectionMessage::Thickness(
                text@,
                reading,
            ),
            ConnectionMessage::ClearRoute => ConnectionMessage::ClearRoute,
            ConnectionMessage::Reroute => ConnectionMessage::Reroute,
            ConnectionMessage::Reset => ConnectionMessage::Reset,
            ConnectionMessage::Delete => ConnectionMessage::Delete,
            ConnectionMessage::Unlink(index, id) => ConnectionMessage::Unlink(index, id),
            ConnectionMessage::Pair(id) => ConnectionMessage::Pair(id),
        }
    }
}

/// The route that a change of segment shape brings to right angles: the tip of
/// its first stub, its points, and the tip of its second. Only routes drawn by
/// hand between two ends are.
pub open spec fn square_input(
    scene: Scene,
    segment_shape: SegmentShape,
) -> Option<(Point, Seq<Point>, Point)> {
    match chosen(scene) {
        Some((_, area, connection)) => if segment_shape == SegmentShape::Orthogonal
            && connection.routing == ConnectionRouting::Manual {
            match links::drawn_both(area, connection.id) {
                Some(drawn) => Some(
                    (drawn.stub_tip_a, connection.route_points@, drawn.stub_tip_b->0),
                ),
                None => None,
            }
        } else {
            None
        },
        None => None,
    }
}

/// A route with its ends.
pub struct RouteEnds {
    pub tip_a: Point,
    pub points: Vec<Point>,
    pub tip_b: Point,
}

/// The route that a change of segment shape brings to right angles.
pub fn route_to_square(scene: &Scene, segment_shape: SegmentShape) -> (route: Option<RouteEnds>)
    ensures
        match (route, square_input(*scene, segment_shape)) {
            (Some(route), Some(input)) => (route.tip_a, route.points@, route.tip_b) == input,
            (None, None) => true,
            _ => false,
        },
{
    let (_, area, connection) = choose_connection(scene)?;
    if segment_shape == SegmentShape::Orthogonal && connection.routing
        == ConnectionRouting::Manual {
        let drawn = find_drawn_both(area, connection.id)?;
        let tip_b = drawn.stub_tip_b?;
        Some(RouteEnds { tip_a: drawn.stub_tip_a, points: clone_points(&connection.route_points), tip_b })
    } else {
        None
    }
}

/// What clearing a route makes of the routing: one that followed the route is
/// drawn straight.
pub open spec fn cleared_routing(scene: Scene) -> Option<ConnectionRouting> {
    match chosen(scene) {
        Some((_, _, connection)) => if connection.routing == ConnectionRouting::Manual
            || connection.routing == ConnectionRouting::Automatic {
            Some(ConnectionRouting::Simple)
        } else {
            None
        },
        None => None,
    }
}

/// The appearance of a connection that nobody styled.
pub open spec fn plain_connection(
    defaults: ConnectionDefaults,
) -> ConnectionUpdates<Seq<char>, Seq<Point>> {
    ConnectionUpdates {
        routing: Some(ConnectionRouting::Simple),
        segment_shape: Some(SegmentShape::Direct),
        corner: Some(CornerStyle::Sharp),
        route_points: Some(Seq::empty()),
        dash: Some(ConnectionDash::Solid),
        color: Some(defaults.color@),
        thickness: Some(defaults.thickness),
        ..ConnectionUpdates::none()
    }
}

/// The buffers after an edit of the selected connection, and what it asks for.
pub open spec fn connection_updated(
    state: StateView,
    scene: Scene,
    defaults: ConnectionDefaults,
    message: ConnectionMessage<Seq<char>, Seq<Point>>,
) -> (StateView, ActionView) {
    let none = ConnectionUpdates::<Seq<char>, Seq<Point>>::none();
    let buffers = state.connection;
    match message {
        ConnectionMessage::Routing { routing, allowed } => match chosen(scene) {
            Some((_, _, connection)) => if !allowed {
                (state, Action::Nothing)
            } else if routing == ConnectionRouting::Automatic {
                (state, Action::StartAutomaticRoute(chosen_id(scene)))
            } else {
                (
                    State { connection: ConnectionBuffers { routing, ..buffers }, ..state },
                    action::connection_commit(
                        scene,
                        FieldId::Routing,
                        ConnectionUpdates { routing: Some(routing), ..none },
                        "Change connection routing"@,
                    ),
                )
            },
            None => (state, Action::Nothing),
        },
        ConnectionMessage::SegmentShape { segment_shape, squared } => match chosen(scene) {
            Some((_, _, connection)) => {
                let points = if square_input(scene, segment_shape) is Some {
                    squared
                } else {
                    Some(connection.route_points@)
                };
                match points {
                    Some(points) => (
                        State { connection: ConnectionBuffers { segment_shape, ..buffers }, ..state },
                        action::connection_commit(
                            scene,
                            FieldId::SegmentShape,
                            ConnectionUpdates {
                                segment_shape: Some(segment_shape),
                                route_points: Some(points),
                                ..none
                            },
                            "Change connection segment shape"@,
                        ),
                    ),
                    None => (state, Action::RouteTooLong),
                }
            },
            None => (state, Action::Nothing),
        },
        ConnectionMessage::Corner(corner) => (
            State { connection: ConnectionBuffers { corner, ..buffers }, ..state },
            action::connection_commit(
                scene,
                FieldId::CornerStyle,
                ConnectionUpdates { corner: Some(corner), ..none },
                "Change connection corners"@,
            ),
        ),
        ConnectionMessage::Dash(dash) => (
            State { connection: ConnectionBuffers { dash, ..buffers }, ..state },
            action::connection_commit(
                scene,
                FieldId::DashStyle,
                ConnectionUpdates { dash: Some(dash), ..none },
                "Change connection dash"@,
            ),
        ),
        ConnectionMessage::Color(text, valid) => (
            State { connection: ConnectionBuffers { color: text, ..buffers }, ..state },
            if text.len() == 0 || valid {
                action::connection_commit(
                    scene,
                    FieldId::Color,
                    ConnectionUpdates { color: Some(text), ..none },
                    "Change connection color"@,
                )
            } else {
                Action::Nothing
            },
        ),
        ConnectionMessage::Thickness(text, reading) => (
            State { connection: ConnectionBuffers { thickness: text, ..buffers }, ..state },
            match reading {
                Some(reading) => if reading.is_thickness {
                    action::connection_commit(
                        scene,
                        FieldId::Thickness,
                        ConnectionUpdates { thickness: Some(reading.value), ..none },
                        "Change connection thickness"@,
                    )
                } else {
                    Action::Nothing
                },
                None => Action::Nothing,
            },
        ),
        ConnectionMessage::ClearRoute => (
            state,
            action::connection_commit(
                scene,
                FieldId::RoutePoints,
                ConnectionUpdates {
                    routing: cleared_routing(scene),
                    route_points: Some(Seq::empty()),
                    ..none
                },
                "Clear connection route"@,
            ),
        ),
        ConnectionMessage::Reroute => match action::selected_connection(scene) {
            Some((_, id)) => (state, Action::StartAutomaticRoute(id)),
            None => (state, Action::Nothing),
        },
        ConnectionMessage::Reset => (
            state,
            action::connection_commit(
                scene,
                FieldId::Routing,
                plain_connection(defaults),
                "Reset connection appearance"@,
            ),
        ),
        ConnectionMessage::Delete => (state, Action::DeleteSelection),
        ConnectionMessage::Unlink(index, new_id) => match action::selected_connection(scene) {
            Some((area_id, id)) => if index < state.exits.len() {
                (
                    state,
                    action::pushed(
                        Some(
                            links::unlink_command(
                                area_id,
                                state.exits[index as int].id,
                                id,
                                new_id,
                            ),
                        ),
                    ),
                )
            } else {
                (state, Action::Nothing)
            },
            None => (state, Action::Nothing),
        },
        ConnectionMessage::Pair(merged) => match action::selected_connection(scene) {
            Some((area_id, id)) => (
                state,
                action::pushed(links::pair_command(scene.atlas, area_id, id, merged)),
            ),
            None => (state, Action::Nothing),
        },
    }
}

impl State {
    /// Edits the selected connection.
    pub fn update_connection(
        &mut self,
        scene: &Scene,
        defaults: &ConnectionDefaults,
        message: ConnectionMessage,
    ) -> (action: Action)
        ensures
            (final(self)@, action@) == connection_updated(
                old(self)@,
                *scene,
                *defaults,
                message@,
            ),
            action.wf(),
    {
        let mut updates: ConnectionUpdates = ConnectionUpdates::default();
        match message {
            ConnectionMessage::Routing { routing, allowed } => {
                if choose_connection(scene).is_none() || !allowed {
                    return Action::Nothing;
                }
                if routing == ConnectionRouting::Automatic {
                    return match scene.selected_connection_id() {
                        Some((_, id)) => Action::StartAutomaticRoute(id),
                        None => Action::Nothing,
                    };
                }
                self.connection.routing = routing;
                updates.routing = Some(routing);
                commit_connection_field(
                    scene,
                    FieldId::Routing,
                    updates,
                    "Change connection routing",
                )
            },
            ConnectionMessage::SegmentShape { segment_shape, squared } => {
                let stored = match choose_connection(scene) {
                    Some((_, _, connection)) => clone_points(&connection.route_points),
                    None => {
                        return Action::Nothing;
                    },
                };
                let points = if route_to_square(scene, segment_shape).is_some() {
                    match squared {
                        Some(points) => points,
                        None => {
                            return Action::RouteTooLong;
                        },
                    }
                } else {
                    stored
                };
                self.connection.segment_shape = segment_shape;
                updates.segment_shape = Some(segment_shape);
                updates.route_points = Some(points);
                commit_connection_field(
                    scene,
                    FieldId::SegmentShape,
                    updates,
                    "Change connection segment shape",
                )
            },
            ConnectionMessage::Corner(corner) => {
                self.connection.corner = corner;
                updates.corner = Some(corner);
                commit_connection_field(
                    scene,
                    FieldId::CornerStyle,
                    updates,
                    "Change connection corners",
                )
            },
            ConnectionMessage::Dash(dash) => {
                self.connection.dash = dash;
                updates.dash = Some(dash);
                commit_connection_field(scene, FieldId::DashStyle, updates, "Change connection dash")
            },
            ConnectionMessage::Color(text, valid) => {
                self.connection.color = text.clone();
                if is_empty_text(&text) || valid {
                    updates.color = Some(text);
                    commit_connection_field(
                        scene,
                        FieldId::Color,
                        updates,
                        "Change connection color",
                    )
                } else {
                    Action::Nothing
                }
            },
            ConnectionMessage::Thickness(text, reading) => {
                self.connection.thickness = text;
                match reading {
                    Some(reading) if reading.is_thickness => {
                        updates.thickness = Some(reading.value);
                        commit_connection_field(
                            scene,
                            FieldId::Thickness,
                            updates,
                            "Change connection thickness",
                        )
                    },
                    _ => Action::Nothing,
                }
            },
            ConnectionMessage::ClearRoute => {
                if let Some((_, _, connection)) = choose_connection(scene) {
                    if connection.routing == ConnectionRouting::Manual || connection.routing
                        == ConnectionRouting::Automatic {
                        updates.routing = Some(ConnectionRouting::Simple);
                    }
                }
                updates.route_points = Some(Vec::new());
                commit_connection_field(
                    scene,
                    FieldId::RoutePoints,
                    updates,
                    "Clear connection route",
                )
            },
            ConnectionMessage::Reroute => match scene.selected_connection_id() {
                Some((_, id)) => Action::StartAutomaticRoute(id),
                None => Action::Nothing,
            },
            ConnectionMessage::Reset => {
                updates.routing = Some(ConnectionRouting::Simple);
                updates.segment_shape = Some(SegmentShape::Direct);
                updates.corner = Some(CornerStyle::Sharp);
                updates.route_points = Some(Vec::new());
                updates.dash = Some(ConnectionDash::Solid);
                updates.color = Some(defaults.color.clone());
                updates.thickness = Some(defaults.thickness);
                commit_connection_field(
                    scene,
                    FieldId::Routing,
                    updates,
                    "Reset connection appearance",
                )
            },
            ConnectionMessage::Delete => Action::DeleteSelection,
            ConnectionMessage::Unlink(index, new_id) => match scene.selected_connection_id() {
                Some((area_id, id)) => if index < self.exits.len() {
                    push(Some(unlink_exit(area_id, self.exits[index].id, id, new_id)))
                } else {
                    Action::Nothing
                },
                None => Action::Nothing,
            },
            ConnectionMessage::Pair(merged) => match scene.selected_connection_id() {
                Some((area_id, id)) => push(
                    pair_connections(&scene.atlas, area_id, id, merged),
                ),
                None => Action::Nothing,
            },
        }
    }
}

// ===== Ports =====

/// One end of a connection.
pub open spec fn end_of(connection: Connection, endpoint_b: bool) -> Option<ConnectionEndpoint> {
    if endpoint_b {
        connection.endpoint_b
    } else {
        Some(connection.endpoint_a)
    }
}

/// One end of a connection.
fn get_end(connection: &Connection, endpoint_b: bool) -> (end: Option<ConnectionEndpoint>)
    ensures
        end == end_of(*connection, endpoint_b),
{
    if endpoint_b {
        connection.endpoint_b
    } else {
        Some(connection.endpoint_a)
    }
}

/// The first exit of a room on a connection.
pub open spec fn exit_on(room: RoomCache, id: ConnectionId) -> Option<ExitCache> {
    list::first(room.exits@, |exit: ExitCache| exit.connection_id == id)
}

/// The first exit of a room on a connection that leads to the given room.
pub open spec fn exit_into(
    room: RoomCache,
    id: ConnectionId,
    area_id: AreaId,
    number: RoomNumber,
) -> Option<ExitCache> {
    list::first(
        room.exits@,
        |exit: ExitCache|
            exit.connection_id == id && exit.to_area_id == Some(area_id) && exit.to_room_number
                == Some(number),
    )
}

/// Where that exit arrives.
pub open spec fn arrival(
    room: RoomCache,
    id: ConnectionId,
    area_id: AreaId,
    number: RoomNumber,
) -> Option<ExitDirection> {
    match exit_into(room, id, area_id, number) {
        Some(exit) => exit.to_direction,
        None => None,
    }
}

/// The direction straight out of a wall.
pub open spec fn facing(side: RoomSide) -> ExitDirection {
    match side {
        RoomSide::North => ExitDirection::North,
        RoomSide::East => ExitDirection::East,
        RoomSide::South => ExitDirection::South,
        RoomSide::West => ExitDirection::West,
    }
}

/// The direction that decides where a port goes by itself: that of the exit
/// there, else where an exit from elsewhere arrives, else straight out of its
/// wall.
pub open spec fn port_direction(
    area: AreaCache,
    area_id: AreaId,
    id: ConnectionId,
    endpoint: ConnectionEndpoint,
) -> ExitDirection {
    let number = endpoint.room_number;
    match list::first(
        area.rooms@,
        |room: RoomCache| room.room_number == number && exit_on(room, id) is Some,
    ) {
        Some(room) => exit_on(room, id)->0.from_direction,
        None => match list::first(
            area.rooms@,
            |room: RoomCache| arrival(room, id, area_id, number) is Some,
        ) {
            Some(room) => arrival(room, id, area_id, number)->0,
            None => facing(endpoint.side),
        },
    }
}

fn find_exit_on(room: &RoomCache, id: ConnectionId) -> (direction: Option<ExitDirection>)
    ensures
        direction == match exit_on(*room, id) {
            Some(exit) => Some(exit.from_direction),
            None => None,
        },
{
    let ghost matching = |exit: ExitCache| exit.connection_id == id;
    for i in 0..room.exits.len()
        invariant
            matching == (|exit: ExitCache| exit.connection_id == id),
            forall|k: int| 0 <= k < i ==> !matching(#[trigger] room.exits@[k]),
    {
        if room.exits[i].connection_id == id {
            proof {
                list::lemma_first(room.exits@, matching, i as int);
            }
            return Some(room.exits[i].from_direction);
        }
    }
    None
}

fn find_arrival(room: &RoomCache, id: ConnectionId, area_id: AreaId, number: RoomNumber) -> (direction:
    Option<ExitDirection>)
    ensures
        direction == arrival(*room, id, area_id, number),
{
    let ghost matching = |exit: ExitCache|
        exit.connection_id == id && exit.to_area_id == Some(area_id) && exit.to_room_number == Some(
            number,
        );
    for i in 0..room.exits.len()
        invariant
            matching == (|exit: ExitCache|
                exit.connection_id == id && exit.to_area_id == Some(area_id) && exit.to_room_number
                    == Some(number)),
            forall|k: int| 0 <= k < i ==> !matching(#[trigger] room.exits@[k]),
    {
        let exit = &room.exits[i];
        let leads = match (exit.to_area_id, exit.to_room_number) {
            (Some(to_area), Some(to_room)) => to_area == area_id && to_room == number,
            _ => false,
        };
        if exit.connection_id == id && leads {
            proof {
                list::lemma_first(room.exits@, matching, i as int);
            }
            return exit.to_direction;
        }
    }
    None
}

/// The direction that decides where a port goes by itself.
fn direction_of_port(
    area: &AreaCache,
    area_id: AreaId,
    id: ConnectionId,
    endpoint: ConnectionEndpoint,
) -> (direction: ExitDirection)
    ensures
        direction == port_direction(*area, area_id, id, endpoint),
{
    let number = endpoint.room_number;
    let ghost own = |room: RoomCache| room.room_number == number && exit_on(room, id) is Some;
    for i in 0..area.rooms.len()
        invariant
            own == (|room: RoomCache| room.room_number == number && exit_on(room, id) is Some),
            forall|k: int| 0 <= k < i ==> !own(#[trigger] area.rooms@[k]),
            number == endpoint.room_number,
    {
        let room = &area.rooms[i];
        if room.room_number == number {
            if let Some(direction) = find_exit_on(room, id) {
                proof {
                    list::lemma_first(area.rooms@, own, i as int);
                }
                return direction;
            }
        }
    }
    let ghost far = |room: RoomCache| arrival(room, id, area_id, number) is Some;
    for i in 0..area.rooms.len()
        invariant
            own == (|room: RoomCache| room.room_number == number && exit_on(room, id) is Some),
            forall|k: int| 0 <= k < area.rooms.len() ==> !own(#[trigger] area.rooms@[k]),
            far == (|room: RoomCache| arrival(room, id, area_id, number) is Some),
            forall|k: int| 0 <= k < i ==> !far(#[trigger] area.rooms@[k]),
            number == endpoint.room_number,
    {
        if let Some(direction) = find_arrival(&area.rooms[i], id, area_id, number) {
            proof {
                list::lemma_first(area.rooms@, far, i as int);
            }
            return direction;
        }
    }
    match endpoint.side {
        RoomSide::North => ExitDirection::North,
        RoomSide::East => ExitDirection::East,
        RoomSide::South => ExitDirection::South,
        RoomSide::West => ExitDirection::West,
    }
}

/// The direction that decides where a port of the selected connection goes by
/// itself.
pub fn reset_direction(scene: &Scene, endpoint_b: bool) -> (direction: Option<ExitDirection>)
    ensures
        direction == match chosen(*scene) {
            Some((area_id, area, connection)) => match end_of(connection, endpoint_b) {
                Some(endpoint) => Some(
                    port_direction(
                        area,
                        area_id,
                        chosen_id(*scene),
                        endpoint,
                    ),
                ),
                None => None,
            },
            None => None,
        },
{
    let (area_id, area, connection) = choose_connection(scene)?;
    let (_, id) = scene.selected_connection_id()?;
    let endpoint = get_end(connection, endpoint_b)?;
    Some(direction_of_port(area, area_id, id, endpoint))
}

/// A move of a port of the selected connection.
pub enum PortChange<T = String> {
    /// To another wall.
    Side(RoomSide),
    /// Along its wall.
    Offset(T, Option<Reading>),
    /// To where it goes by itself: the anchor of its [`reset_direction`].
    Reset(Anchor),
}

impl View for PortChange<String> {
    type V = PortChange<Seq<char>>;

    open spec fn view(&self) -> PortChange<Seq<char>> {
        match *self {
            PortChange::Side(side) => PortChange::Side(side),
            PortChange::Offset(text, reading) => PortChange::Offset(text@, reading),
            PortChange::Reset(anchor) => PortChange::Reset(anchor),
        }
    }
}

/// A port after it moved; `None` when what was typed is no place on a wall.
pub open spec fn moved_port(
    endpoint: ConnectionEndpoint,
    change: PortChange<Seq<char>>,
) -> Option<ConnectionEndpoint> {
    match change {
        PortChange::Side(side) => Some(
            ConnectionEndpoint { side, port_mode: PortMode::Manual, ..endpoint },
        ),
        PortChange::Offset(_, reading) => match reading {
            Some(reading) => if reading.in_unit {
                Some(
                    ConnectionEndpoint {
                        port_offset: reading.value,
                        port_mode: PortMode::Manual,
                        ..endpoint
                    },
                )
            } else {
                None
            },
            None => None,
        },
        PortChange::Reset(anchor) => Some(
            ConnectionEndpoint {
                side: anchor.side,
                port_offset: anchor.port_offset,
                port_mode: PortMode::AutoPinned,
                ..endpoint
            },
        ),
    }
}

/// The buffers after a port was moved.
pub open spec fn port_buffers(
    buffers: ConnectionBuffers<Seq<char>>,
    has_end: bool,
    endpoint_b: bool,
    change: PortChange<Seq<char>>,
) -> ConnectionBuffers<Seq<char>> {
    match change {
        PortChange::Side(side) => if !has_end {
            buffers
        } else if endpoint_b {
            ConnectionBuffers { endpoint_b_side: side, ..buffers }
        } else {
            ConnectionBuffers { endpoint_a_side: side, ..buffers }
        },
        PortChange::Offset(text, _) => if endpoint_b {
            ConnectionBuffers { endpoint_b_offset: text, ..buffers }
        } else {
            ConnectionBuffers { endpoint_a_offset: text, ..buffers }
        },
        PortChange::Reset(_) => buffers,
    }
}

/// The end of the selected connection that a port belongs to.
pub open spec fn chosen_end(scene: Scene, endpoint_b: bool) -> Option<ConnectionEndpoint> {
    match chosen(scene) {
        Some((_, _, connection)) => end_of(connection, endpoint_b),
        None => None,
    }
}

/// What moving a port asks for.
pub open spec fn port_action(
    scene: Scene,
    endpoint_b: bool,
    change: PortChange<Seq<char>>,
    geometry: PortGeometry,
) -> ActionView {
    match (chosen(scene), chosen_end(scene, endpoint_b)) {
        (Some((_, area, connection)), Some(endpoint)) => match moved_port(endpoint, change) {
            Some(endpoint) => match ports::endpoint_update(
                area,
                chosen_id(scene),
                endpoint,
                endpoint_b,
                geometry,
            ) {
                Some(updates) => if change is Reset {
                    resyncing(
                        action::connection_commit(
                            scene,
                            FieldId::Endpoint,
                            updates,
                            "Reset connection port to automatic"@,
                        ),
                    )
                } else {
                    action::connection_commit(
                        scene,
                        FieldId::Endpoint,
                        updates,
                        "Move connection port"@,
                    )
                },
                None => Action::Nothing,
            },
            None => Action::Nothing,
        },
        _ => Action::Nothing,
    }
}

/// The same push, with the buffers rebuilt after it.
pub open spec fn resyncing(given: ActionView) -> ActionView {
    match given {
        Action::Push { stale, command, resync } => Action::Push { stale, command, resync: true },
        _ => given,
    }
}

fn with_resync(given: Action) -> (action: Action)
    requires
        given.wf(),
    ensures
        action@ == resyncing(given@),
        action.wf(),
{
    match given {
        Action::Push { stale, command, resync } => Action::Push { stale, command, resync: true },
        _ => given,
    }
}

/// A port after it moved.
fn place_port(endpoint: ConnectionEndpoint, change: &PortChange) -> (moved: Option<ConnectionEndpoint>)
    ensures
        moved == moved_port(endpoint, change@),
{
    match change {
        PortChange::Side(side) => Some(
            ConnectionEndpoint { side: *side, port_mode: PortMode::Manual, ..endpoint },
        ),
        PortChange::Offset(_, reading) => match reading {
            Some(reading) if reading.in_unit => Some(
                ConnectionEndpoint {
                    port_offset: reading.value,
                    port_mode: PortMode::Manual,
                    ..endpoint
                },
            ),
            _ => None,
        },
        PortChange::Reset(anchor) => Some(
            ConnectionEndpoint {
                side: anchor.side,
                port_offset: anchor.port_offset,
                port_mode: PortMode::AutoPinned,
                ..endpoint
            },
        ),
    }
}

impl State {
    /// Moves a port of the selected connection.
    pub fn move_port<
        T: Fn(Point, RoomSide, Scalar) -> Point,
        N: Fn(Point, Point) -> bool,
        A: Fn(Point, Point) -> bool,
    >(
        &mut self,
        scene: &Scene,
        endpoint_b: bool,
        change: PortChange,
        tip: &T,
        nearer: &N,
        apart: &A,
    ) -> (action: Action)
        requires
            ports::measurable(*tip, *nearer, *apart),
        ensures
            final(self)@ == (State {
                connection: port_buffers(
                    old(self)@.connection,
                    chosen_end(*scene, endpoint_b) is Some,
                    endpoint_b,
                    change@,
                ),
                ..old(self)@
            }),
            forall|geometry: PortGeometry| #[trigger]
                ports::measures(*tip, *nearer, *apart, geometry) ==> action@ == port_action(
                    *scene,
                    endpoint_b,
                    change@,
                    geometry,
                ),
            action.wf(),
    {
        if let PortChange::Offset(text, _) = &change {
            if endpoint_b {
                self.connection.endpoint_b_offset = text.clone();
            } else {
                self.connection.endpoint_a_offset = text.clone();
            }
        }
        let (_, area, connection) = match choose_connection(scene) {
            Some(found) => found,
            None => {
                return Action::Nothing;
            },
        };
        let id = match scene.selected_connection_id() {
            Some((_, id)) => id,
            None => {
                return Action::Nothing;
            },
        };
        let endpoint = match get_end(connection, endpoint_b) {
            Some(endpoint) => endpoint,
            None => {
                return Action::Nothing;
            },
        };
        if let PortChange::Side(side) = &change {
            if endpoint_b {
                self.connection.endpoint_b_side = *side;
            } else {
                self.connection.endpoint_a_side = *side;
            }
        }
        let moved = match place_port(endpoint, &change) {
            Some(moved) => moved,
            None => {
                return Action::Nothing;
            },
        };
        match endpoint_updates(area, id, moved, endpoint_b, tip, nearer, apart) {
            Some(updates) => match change {
                PortChange::Reset(_) => with_resync(
                    commit_connection_field(
                        scene,
                        FieldId::Endpoint,
                        updates,
                        "Reset connection port to automatic",
                    ),
                ),
                _ => commit_connection_field(
                    scene,
                    FieldId::Endpoint,
                    updates,
                    "Move connection port",
                ),
            },
            None => Action::Nothing,
        }
    }
}

/// Where an update puts a port.
pub open spec fn previewed(
    updates: Seq<(ConnectionId, ConnectionUpdates<Seq<char>, Seq<Point>>)>,
) -> Seq<(ConnectionId, Scalar)> {
    list::collect(
        updates,
        |update: (ConnectionId, ConnectionUpdates<Seq<char>, Seq<Point>>)| preview_of(update),
    )
}

/// Where one update puts a port.
pub open spec fn preview_of(
    update: (ConnectionId, ConnectionUpdates<Seq<char>, Seq<Point>>),
) -> Seq<(ConnectionId, Scalar)> {
    match (update.1.endpoint_a, update.1.endpoint_b) {
        (Some(endpoint), _) => seq![(update.0, endpoint.port_offset)],
        (None, Some(endpoint)) => seq![(update.0, endpoint.port_offset)],
        (None, None) => Seq::empty(),
    }
}

/// What sharing out the wall of a port asks for: to confirm it, when anything
/// would move.
pub open spec fn redistribution(
    scene: Scene,
    endpoint_b: bool,
    wall: WallMeasure,
    geometry: PortGeometry,
) -> ActionView {
    match (chosen(scene), chosen_end(scene, endpoint_b)) {
        (Some((area_id, area, connection)), Some(endpoint)) => {
            let secret = state::drawn_secret(area, chosen_id(scene));
            let updates = ports::redistributed(
                area,
                endpoint.room_number,
                endpoint.side,
                secret,
                wall,
                geometry,
            );
            if updates.len() == 0 {
                Action::Nothing
            } else {
                Action::ConfirmRedistributePorts {
                    area_id,
                    room_number: endpoint.room_number,
                    side: endpoint.side,
                    secret,
                    preview: previewed(updates),
                }
            }
        },
        _ => Action::Nothing,
    }
}

/// Where updates put ports.
fn preview_updates(updates: &Vec<(ConnectionId, ConnectionUpdates)>) -> (preview: Vec<
    (ConnectionId, Scalar),
>)
    ensures
        preview@ == previewed(ports::updates_view(updates@)),
{
    let ghost all = ports::updates_view(updates@);
    let ghost piece = |update: (ConnectionId, ConnectionUpdates<Seq<char>, Seq<Point>>)|
        preview_of(update);
    let mut preview: Vec<(ConnectionId, Scalar)> = Vec::new();
    assert(all.take(0) =~= Seq::empty());
    for i in 0..updates.len()
        invariant
            all == ports::updates_view(updates@),
            piece == (|update: (ConnectionId, ConnectionUpdates<Seq<char>, Seq<Point>>)|
                preview_of(update)),
            preview@ == list::collect(all.take(i as int), piece),
    {
        proof {
            list::lemma_collect_step(all, piece, i as int);
        }
        let ghost before = preview@;
        let update = &updates[i];
        assert(all[i as int] == (update.0, update.1@));
        if let Some(endpoint) = update.1.endpoint_a {
            preview.push((update.0, endpoint.port_offset));
        } else if let Some(endpoint) = update.1.endpoint_b {
            preview.push((update.0, endpoint.port_offset));
        }
        assert(preview@ =~= before + piece(all[i as int]));
    }
    assert(all.take(updates.len() as int) =~= all);
    preview
}

/// Plans to share out the wall of a port of the selected connection.
pub fn plan_redistribution<
    D: Fn(ExitDirection) -> String,
    K: Fn(Bearing) -> i64,
    O: Fn(usize, usize) -> Scalar,
    C: Fn(Scalar, Scalar) -> bool,
    T: Fn(Point, RoomSide, Scalar) -> Point,
    N: Fn(Point, Point) -> bool,
    A: Fn(Point, Point) -> bool,
>(
    scene: &Scene,
    endpoint_b: bool,
    name: &D,
    rank: &K,
    offset: &O,
    close: &C,
    tip: &T,
    nearer: &N,
    apart: &A,
) -> (action: Action)
    requires
        ports::wallable(*name, *rank, *offset, *close),
        ports::measurable(*tip, *nearer, *apart),
    ensures
        forall|wall: WallMeasure, geometry: PortGeometry|
            #[trigger] ports::walled(*name, *rank, *offset, *close, wall)
                && #[trigger] ports::measures(*tip, *nearer, *apart, geometry) ==> action@
                == redistribution(*scene, endpoint_b, wall, geometry),
        action.wf(),
{
    let (area_id, area, connection) = match choose_connection(scene) {
        Some(found) => found,
        None => {
            return Action::Nothing;
        },
    };
    let id = match scene.selected_connection_id() {
        Some((_, id)) => id,
        None => {
            return Action::Nothing;
        },
    };
    let endpoint = match get_end(connection, endpoint_b) {
        Some(endpoint) => endpoint,
        None => {
            return Action::Nothing;
        },
    };
    let secret = match area.get_drawn(&id) {
        Some(drawn) => drawn.is_secret,
        None => false,
    };
    let updates = redistribute_port_updates(
        area,
        endpoint.room_number,
        endpoint.side,
        secret,
        name,
        rank,
        offset,
        close,
        tip,
        nearer,
        apart,
    );
    assert(ports::updates_view(updates@).len() == updates@.len());
    if updates.len() == 0 {
        return Action::Nothing;
    }
    let preview = preview_updates(&updates);
    Action::ConfirmRedistributePorts {
        area_id,
        room_number: endpoint.room_number,
        side: endpoint.side,
        secret,
        preview,
    }
}

} // verus!
