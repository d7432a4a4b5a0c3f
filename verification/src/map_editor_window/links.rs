//! Builders of commands on connections and exits.

use vstd::prelude::*;

use super::commands::{self, CoalesceKey, Command, CommandView, EntityRef, FieldId, ResolvedId};
use super::edits::{self, one, pair, prior_of, push_op, two};
use super::model::{
    clone_points, AreaCache, AreaId, AtlasCache, Connection, ConnectionArgs, ConnectionId, ConnectionKind,
    ConnectionRouting, ConnectionUpdates, ExitArgs, ExitCache, ExitDirection, ExitId, ExitUpdates, Point, RoomCache,
    RoomConnection, RoomKey, RoomNumber, SegmentShape,
};
use super::mutation::{self, AreaMutation, IdRef, Mutation, OpView};
use super::rewiring;
use crate::list::{self, sort_by};
use crate::text::{self, clone_opt, join2};

verus! {

// ===== Connection edits =====

/// The inverse of a connection edit: the connection's values of the fields it
/// touches.
pub open spec fn connection_inverse(
    current: Connection,
    updates: ConnectionUpdates<Seq<char>, Seq<Point>>,
) -> ConnectionUpdates<Seq<char>, Seq<Point>> {
    ConnectionUpdates {
        endpoint_a: edits::prior(updates.endpoint_a, current.endpoint_a),
        endpoint_b: match updates.endpoint_b {
            Some(_) => current.endpoint_b,
            None => None,
        },
        routing: edits::prior(updates.routing, current.routing),
        segment_shape: edits::prior(updates.segment_shape, current.segment_shape),
        corner: edits::prior(updates.corner, current.corner),
        route_points: edits::prior(updates.route_points, current.route_points@),
        dash: edits::prior(updates.dash, current.dash),
        color: edits::prior(updates.color, current.color@),
        thickness: edits::prior(updates.thickness, current.thickness),
    }
}

/// Whether a connection edit has an inverse. An update cannot clear endpoint B,
/// so setting it on a connection without one does not.
pub open spec fn invertible(
    current: Connection,
    updates: ConnectionUpdates<Seq<char>, Seq<Point>>,
) -> bool {
    !(updates.endpoint_b is Some && current.endpoint_b is None)
}

/// The inverse of a connection edit, when it has one.
pub(crate) fn invert_connection(
    current: &Connection,
    updates: &ConnectionUpdates,
) -> (inverse: Option<ConnectionUpdates>)
    ensures
        match inverse {
            Some(inverse) => invertible(*current, updates@) && inverse@ == connection_inverse(
                *current,
                updates@,
            ),
            None => !invertible(*current, updates@),
        },
{
    if updates.endpoint_b.is_some() && current.endpoint_b.is_none() {
        return None;
    }
    Some(
        ConnectionUpdates {
            endpoint_a: prior_of(&updates.endpoint_a, current.endpoint_a),
            endpoint_b: match updates.endpoint_b {
                Some(_) => current.endpoint_b,
                None => None,
            },
            routing: prior_of(&updates.routing, current.routing),
            segment_shape: prior_of(&updates.segment_shape, current.segment_shape),
            corner: prior_of(&updates.corner, current.corner),
            route_points: prior_of(&updates.route_points, clone_points(&current.route_points)),
            dash: prior_of(&updates.dash, current.dash),
            color: prior_of(&updates.color, current.color.clone()),
            thickness: prior_of(&updates.thickness, current.thickness),
        },
    )
}

/// The coalescing key of a connection edit. Edits of different endpoints are
/// keyed apart: coalescing keeps the first undo and the last redo, which only
/// inverts correctly when both touch the same fields.
pub open spec fn connection_key(
    area_id: AreaId,
    connection_id: ConnectionId,
    field: FieldId,
    updates: ConnectionUpdates<Seq<char>, Seq<Point>>,
) -> CoalesceKey<Seq<char>> {
    CoalesceKey {
        entity: EntityRef::Connection(area_id, connection_id),
        field,
        detail: if updates.endpoint_a is Some && updates.endpoint_b is None {
            Some("endpoint-a"@)
        } else if updates.endpoint_a is None && updates.endpoint_b is Some {
            Some("endpoint-b"@)
        } else {
            None
        },
    }
}

/// The command of [`edit_connection`].
pub open spec fn connection_command(
    atlas: AtlasCache,
    area_id: AreaId,
    connection_id: ConnectionId,
    field: FieldId,
    updates: ConnectionUpdates<Seq<char>, Seq<Point>>,
    description: Seq<char>,
) -> Option<CommandView> {
    match atlas.area(area_id) {
        None => None,
        Some(area) => match area.connection(connection_id) {
            None => None,
            Some(current) => if invertible(current, updates) {
                Some(
                    commands::new_command(
                        seq![
                            edits::batch(
                                area_id,
                                seq![AreaMutation::UpdateConnection { connection_id, body: updates }],
                                description,
                            ),
                        ],
                        seq![
                            edits::batch(
                                area_id,
                                seq![
                                    AreaMutation::UpdateConnection {
                                        connection_id,
                                        body: connection_inverse(current, updates),
                                    },
                                ],
                                "Undo "@ + description,
                            ),
                        ],
                    ).coalescing(connection_key(area_id, connection_id, field, updates)),
                )
            } else {
                None
            },
        },
    }
}

/// Edits shared connection geometry or appearance in one envelope, capturing
/// exactly the touched fields for undo. `None` when the connection is not
/// cached, or when the edit would give it an endpoint B it does not have.
pub fn edit_connection(
    atlas: &AtlasCache,
    area_id: AreaId,
    connection_id: ConnectionId,
    field: FieldId,
    updates: ConnectionUpdates,
    description: String,
) -> (command: Option<Command>)
    ensures
        edits::opt_command(command) == connection_command(
            *atlas,
            area_id,
            connection_id,
            field,
            updates@,
            description@,
        ),
        command matches Some(command) ==> command.wf(),
{
    let area = atlas.get_area(&area_id)?;
    let current = area.get_connection(&connection_id)?;
    let inverse = invert_connection(current, &updates)?;
    let entity = EntityRef::Connection(area_id, connection_id);
    let key = match (&updates.endpoint_a, &updates.endpoint_b) {
        (Some(_), None) => CoalesceKey::with_detail(entity, field, "endpoint-a".to_owned()),
        (None, Some(_)) => CoalesceKey::with_detail(entity, field, "endpoint-b".to_owned()),
        _ => CoalesceKey::new(entity, field),
    };
    let undo_description = join2("Undo ", description.as_str());
    let command = pair(
        Mutation::AreaBatch {
            area_id,
            operations: one(AreaMutation::UpdateConnection { connection_id, body: updates }),
            description,
        },
        Mutation::AreaBatch {
            area_id,
            operations: one(AreaMutation::UpdateConnection { connection_id, body: inverse }),
            description: undo_description,
        },
    );
    Some(command.coalescing(key))
}

/// Commits one accepted route as exactly one undoable mutation: mode and points
/// are never persisted separately.
pub fn accept_automatic_route(
    atlas: &AtlasCache,
    area_id: AreaId,
    connection_id: ConnectionId,
    route_points: Vec<Point>,
) -> (command: Option<Command>)
    ensures
        edits::opt_command(command) == connection_command(
            *atlas,
            area_id,
            connection_id,
            FieldId::RoutePoints,
            ConnectionUpdates {
                routing: Some(ConnectionRouting::Automatic),
                segment_shape: Some(SegmentShape::Orthogonal),
                route_points: Some(route_points@),
                ..ConnectionUpdates::none()
            },
            "Accept automatic route"@,
        ),
        rewiring::routes_automatically(
            edits::opt_command(command),
            *atlas,
            area_id,
            connection_id,
            route_points@,
        ),
        command matches Some(command) ==> command.wf(),
{
    let mut updates: ConnectionUpdates = ConnectionUpdates::default();
    updates.routing = Some(ConnectionRouting::Automatic);
    updates.segment_shape = Some(SegmentShape::Orthogonal);
    updates.route_points = Some(route_points);
    proof {
        rewiring::lemma_routes_automatically(
            *atlas,
            area_id,
            connection_id,
            route_points@,
            updates@,
            "Accept automatic route"@,
        );
    }
    edit_connection(
        atlas,
        area_id,
        connection_id,
        FieldId::RoutePoints,
        updates,
        "Accept automatic route".to_owned(),
    )
}

/// The view of one connection edit.
pub open spec fn edit_view(
    edit: (ConnectionId, ConnectionUpdates),
) -> (ConnectionId, ConnectionUpdates<Seq<char>, Seq<Point>>) {
    (edit.0, edit.1@)
}

/// The views of a list of connection edits.
pub open spec fn edits_view(
    list: Seq<(ConnectionId, ConnectionUpdates)>,
) -> Seq<(ConnectionId, ConnectionUpdates<Seq<char>, Seq<Point>>)> {
    list.map_values(|edit: (ConnectionId, ConnectionUpdates)| edit_view(edit))
}

/// Whether an edit targets a cached connection and has an inverse.
pub open spec fn editable(
    area: AreaCache,
    edit: (ConnectionId, ConnectionUpdates<Seq<char>, Seq<Point>>),
) -> bool {
    match area.connection(edit.0) {
        Some(current) => invertible(current, edit.1),
        None => false,
    }
}

/// The writes of a group of connection edits.
pub open spec fn connection_writes(
    list: Seq<(ConnectionId, ConnectionUpdates<Seq<char>, Seq<Point>>)>,
) -> Seq<OpView> {
    list.map_values(
        |edit: (ConnectionId, ConnectionUpdates<Seq<char>, Seq<Point>>)|
            AreaMutation::UpdateConnection { connection_id: edit.0, body: edit.1 },
    )
}

/// The inverse of one edit of a cached connection.
pub open spec fn edit_inverse(
    area: AreaCache,
    edit: (ConnectionId, ConnectionUpdates<Seq<char>, Seq<Point>>),
) -> (ConnectionId, ConnectionUpdates<Seq<char>, Seq<Point>>) {
    (edit.0, connection_inverse(area.connection(edit.0)->0, edit.1))
}

/// The inverses of a group of connection edits.
pub open spec fn edit_inverses(
    area: AreaCache,
    list: Seq<(ConnectionId, ConnectionUpdates<Seq<char>, Seq<Point>>)>,
) -> Seq<(ConnectionId, ConnectionUpdates<Seq<char>, Seq<Point>>)> {
    list.map_values(
        |edit: (ConnectionId, ConnectionUpdates<Seq<char>, Seq<Point>>)| edit_inverse(area, edit),
    )
}

/// The command of [`edit_connections`].
pub open spec fn connections_command(
    atlas: AtlasCache,
    area_id: AreaId,
    list: Seq<(ConnectionId, ConnectionUpdates<Seq<char>, Seq<Point>>)>,
    description: Seq<char>,
) -> Option<CommandView> {
    match atlas.area(area_id) {
        None => None,
        Some(area) => if list.len() > 0 && (forall|i: int|
            0 <= i < list.len() ==> editable(area, #[trigger] list[i])) {
            Some(
                commands::new_command(
                    seq![edits::batch(area_id, connection_writes(list), description)],
                    seq![
                        edits::batch(
                            area_id,
                            connection_writes(edit_inverses(area, list)),
                            "Undo "@ + description,
                        ),
                    ],
                ),
            )
        } else {
            None
        },
    }
}

/// Applies a group of connection edits as one undoable mutation, so every
/// affected endpoint moves in one envelope. `None` when the group is empty or
/// one of the edits is not possible.
pub fn edit_connections(
    atlas: &AtlasCache,
    area_id: AreaId,
    edits: Vec<(ConnectionId, ConnectionUpdates)>,
    description: String,
) -> (command: Option<Command>)
    ensures
        edits::opt_command(command) == connections_command(
            *atlas,
            area_id,
            edits_view(edits@),
            description@,
        ),
        command matches Some(command) ==> command.wf(),
{
    let area = atlas.get_area(&area_id)?;
    if edits.len() == 0 {
        return None;
    }
    let ghost views = edits_view(edits@);
    let mut redo: Vec<AreaMutation> = Vec::new();
    let mut undo: Vec<AreaMutation> = Vec::new();
    for i in 0..edits.len()
        invariant
            atlas.area(area_id) == Some(*area),
            views == edits_view(edits@),
            forall|j: int| 0 <= j < i ==> editable(*area, #[trigger] views[j]),
            mutation::ops_view(redo@) == connection_writes(views).take(i as int),
            mutation::ops_view(undo@) == connection_writes(edit_inverses(*area, views)).take(i as int),
    {
        let connection_id = edits[i].0;
        assert(views[i as int] == edit_view(edits@[i as int]));
        let current = match area.get_connection(&connection_id) {
            Some(current) => current,
            None => {
                assert(!editable(*area, views[i as int]));
                return None;
            },
        };
        let inverse = match invert_connection(current, &edits[i].1) {
            Some(inverse) => inverse,
            None => {
                assert(!editable(*area, views[i as int]));
                return None;
            },
        };
        push_op(&mut redo, AreaMutation::UpdateConnection { connection_id, body: edits[i].1.clone() });
        push_op(&mut undo, AreaMutation::UpdateConnection { connection_id, body: inverse });
        proof {
            let writes = connection_writes(views);
            let inverses = connection_writes(edit_inverses(*area, views));
            assert(writes.take(i + 1) =~= writes.take(i as int).push(writes[i as int]));
            assert(inverses.take(i + 1) =~= inverses.take(i as int).push(inverses[i as int]));
        }
    }
    proof {
        let writes = connection_writes(views);
        let inverses = connection_writes(edit_inverses(*area, views));
        assert(writes.take(edits.len() as int) =~= writes);
        assert(inverses.take(edits.len() as int) =~= inverses);
    }
    let undo_description = join2("Undo ", description.as_str());
    Some(
        pair(
            Mutation::AreaBatch { area_id, operations: redo, description },
            Mutation::AreaBatch { area_id, operations: undo, description: undo_description },
        ),
    )
}

// ===== Waypoints =====

/// The drawn form of a connection with two ends.
pub open spec fn drawn_both(area: AreaCache, id: ConnectionId) -> Option<RoomConnection> {
    list::first(
        area.room_connections@,
        |drawn: RoomConnection| drawn.connection_id == id && drawn.stub_tip_b is Some,
    )
}

/// The drawn form of a connection with two ends.
pub(crate) fn find_drawn_both(area: &AreaCache, id: ConnectionId) -> (found: Option<RoomConnection>)
    ensures
        found == drawn_both(*area, id),
        found matches Some(drawn) ==> drawn.stub_tip_b is Some,
{
    let ghost matching = |drawn: RoomConnection| drawn.connection_id == id && drawn.stub_tip_b is Some;
    for i in 0..area.room_connections.len()
        invariant
            matching == (|drawn: RoomConnection|
                drawn.connection_id == id && drawn.stub_tip_b is Some),
            forall|j: int| 0 <= j < i ==> !matching(#[trigger] area.room_connections@[j]),
    {
        let drawn = area.room_connections[i];
        if drawn.connection_id == id && drawn.stub_tip_b.is_some() {
            proof {
                list::lemma_first(area.room_connections@, matching, i as int);
            }
            return Some(drawn);
        }
    }
    assert(!exists|i: int| list::is_first(area.room_connections@, matching, i));
    None
}

/// Whether a connection follows its stored points at right angles.
pub open spec fn is_active_orthogonal(connection: Connection) -> bool {
    connection.segment_shape == SegmentShape::Orthogonal && (connection.routing
        == ConnectionRouting::Manual || connection.routing == ConnectionRouting::Automatic)
}

/// Whether a connection follows its stored points at right angles.
pub(crate) fn active_orthogonal(connection: &Connection) -> (active: bool)
    ensures
        active == is_active_orthogonal(*connection),
{
    connection.segment_shape == SegmentShape::Orthogonal && (connection.routing
        == ConnectionRouting::Manual || connection.routing == ConnectionRouting::Automatic)
}

/// What removing a waypoint leaves to do.
pub enum WaypointPlan<R = Vec<Point>> {
    /// Not possible.
    Refuse,
    /// Store these points.
    Store(R),
    /// Square these points between the two stub tips, then store them.
    Square(Point, R, Point),
}

impl View for WaypointPlan<Vec<Point>> {
    type V = WaypointPlan<Seq<Point>>;

    open spec fn view(&self) -> WaypointPlan<Seq<Point>> {
        match *self {
            WaypointPlan::Refuse => WaypointPlan::Refuse,
            WaypointPlan::Store(points) => WaypointPlan::Store(points@),
            WaypointPlan::Square(a, points, b) => WaypointPlan::Square(a, points@, b),
        }
    }
}

/// What removing waypoint `index` leaves to do.
pub open spec fn waypoint_plan(
    atlas: AtlasCache,
    area_id: AreaId,
    connection_id: ConnectionId,
    index: int,
) -> WaypointPlan<Seq<Point>> {
    match atlas.area(area_id) {
        None => WaypointPlan::Refuse,
        Some(area) => match area.connection(connection_id) {
            None => WaypointPlan::Refuse,
            Some(connection) => if index >= connection.route_points@.len() {
                WaypointPlan::Refuse
            } else {
                let points = connection.route_points@.remove(index);
                if is_active_orthogonal(connection) {
                    match drawn_both(area, connection_id) {
                        None => WaypointPlan::Refuse,
                        Some(drawn) => WaypointPlan::Square(
                            drawn.stub_tip_a,
                            points,
                            drawn.stub_tip_b->0,
                        ),
                    }
                } else {
                    WaypointPlan::Store(points)
                }
            },
        },
    }
}

/// What removing waypoint `index` leaves to do.
pub fn plan_waypoint_removal(
    atlas: &AtlasCache,
    area_id: AreaId,
    connection_id: ConnectionId,
    index: usize,
) -> (plan: WaypointPlan)
    ensures
        plan@ == waypoint_plan(*atlas, area_id, connection_id, index as int),
{
    let area = match atlas.get_area(&area_id) {
        Some(area) => area,
        None => return WaypointPlan::Refuse,
    };
    let connection = match area.get_connection(&connection_id) {
        Some(connection) => connection,
        None => return WaypointPlan::Refuse,
    };
    if index >= connection.route_points.len() {
        return WaypointPlan::Refuse;
    }
    let mut points = clone_points(&connection.route_points);
    points.remove(index);
    if active_orthogonal(connection) {
        match find_drawn_both(area, connection_id) {
            Some(drawn) => match drawn.stub_tip_b {
                Some(tip_b) => WaypointPlan::Square(drawn.stub_tip_a, points, tip_b),
                None => WaypointPlan::Refuse,
            },
            None => WaypointPlan::Refuse,
        }
    } else {
        WaypointPlan::Store(points)
    }
}

/// The command that stores a route with a waypoint removed.
pub open spec fn waypoint_command(
    atlas: AtlasCache,
    area_id: AreaId,
    connection_id: ConnectionId,
    points: Seq<Point>,
) -> Option<CommandView> {
    connection_command(
        atlas,
        area_id,
        connection_id,
        FieldId::RoutePoints,
        ConnectionUpdates {
            routing: Some(ConnectionRouting::Manual),
            route_points: Some(points),
            ..ConnectionUpdates::none()
        },
        "Delete connection waypoint"@,
    )
}

/// The command left by squaring a route: none when it cannot be squared.
pub open spec fn squared_command(
    atlas: AtlasCache,
    area_id: AreaId,
    connection_id: ConnectionId,
    squared: Option<Vec<Point>>,
) -> Option<CommandView> {
    match squared {
        Some(points) => waypoint_command(atlas, area_id, connection_id, points@),
        None => None,
    }
}

/// Stores a route with a waypoint removed.
fn store_waypoints(
    atlas: &AtlasCache,
    area_id: AreaId,
    connection_id: ConnectionId,
    points: Vec<Point>,
) -> (command: Option<Command>)
    ensures
        edits::opt_command(command) == waypoint_command(*atlas, area_id, connection_id, points@),
        command matches Some(command) ==> command.wf(),
{
    let mut updates: ConnectionUpdates = ConnectionUpdates::default();
    updates.routing = Some(ConnectionRouting::Manual);
    updates.route_points = Some(points);
    edit_connection(
        atlas,
        area_id,
        connection_id,
        FieldId::RoutePoints,
        updates,
        "Delete connection waypoint".to_owned(),
    )
}

/// `square` answered `squared` to the points between the two tips.
pub open spec fn squared_by<Q: FnOnce(Point, Vec<Point>, Point) -> Option<Vec<Point>>>(
    square: Q,
    a: Point,
    points: Seq<Point>,
    b: Point,
    squared: Option<Vec<Point>>,
) -> bool {
    exists|given: Vec<Point>| given@ == points && #[trigger] square.ensures((a, given, b), squared)
}

/// Removes one waypoint of a stored route, which becomes a manual one. A route
/// at right angles is squared again by `square`; when it cannot be, there is no
/// command.
pub fn delete_waypoint<Q: FnOnce(Point, Vec<Point>, Point) -> Option<Vec<Point>>>(
    atlas: &AtlasCache,
    area_id: AreaId,
    connection_id: ConnectionId,
    index: usize,
    square: Q,
) -> (command: Option<Command>)
    requires
        forall|a: Point, points: Vec<Point>, b: Point| #[trigger] square.requires((a, points, b)),
    ensures
        waypoint_plan(*atlas, area_id, connection_id, index as int) is Refuse ==> command is None,
        waypoint_plan(*atlas, area_id, connection_id, index as int) matches WaypointPlan::Store(points)
            ==> edits::opt_command(command) == waypoint_command(*atlas, area_id, connection_id, points),
        waypoint_plan(*atlas, area_id, connection_id, index as int) matches WaypointPlan::Square(
            a,
            points,
            b,
        ) ==> exists|squared: Option<Vec<Point>>| #[trigger]
            squared_by(square, a, points, b, squared) && edits::opt_command(command) == squared_command(
                *atlas,
                area_id,
                connection_id,
                squared,
            ),
        command matches Some(command) ==> command.wf(),
{
    let plan = plan_waypoint_removal(atlas, area_id, connection_id, index);
    let ghost planned = waypoint_plan(*atlas, area_id, connection_id, index as int);
    match plan {
        WaypointPlan::Refuse => None,
        WaypointPlan::Store(points) => store_waypoints(atlas, area_id, connection_id, points),
        WaypointPlan::Square(a, points, b) => {
            let ghost given = points@;
            let squared = square(a, points, b);
            let ghost answer = squared;
            assert(planned == WaypointPlan::Square(a, given, b));
            assert(squared_by(square, a, given, b, answer));
            let command = match squared {
                Some(points) => store_waypoints(atlas, area_id, connection_id, points),
                None => None,
            };
            assert(edits::opt_command(command) == squared_command(
                *atlas,
                area_id,
                connection_id,
                answer,
            ));
            assert(planned->Square_0 == a && planned->Square_1 == given && planned->Square_2 == b);
            assert(squared_by(square, planned->Square_0, planned->Square_1, planned->Square_2, answer));
            command
        },
    }
}

// ===== Exits =====

/// The body that recreates a cached exit under a fresh identity. Secrecy is
/// carried only for a viewer cleared to send it.
pub open spec fn exit_args(exit: ExitCache, restore_secrecy: bool) -> ExitArgs<Seq<char>> {
    ExitArgs {
        id: None,
        connection_id: None,
        new_connection_id: None,
        is_secret: if restore_secrecy {
            Some(exit.is_secret)
        } else {
            None
        },
        from_direction: exit.from_direction,
        to_area_id: exit.to_area_id,
        to_room_number: exit.to_room_number,
        to_direction: exit.to_direction,
        path: text::opt_text(exit.path),
        is_hidden: exit.is_hidden,
        is_closed: exit.is_closed,
        is_locked: exit.is_locked,
        weight: exit.weight,
        command: text::opt_text(exit.command),
    }
}

/// The body that recreates a cached exit under its own identity.
pub open spec fn restored_exit_args(
    exit: ExitCache,
    connection_id: ConnectionId,
    restore_secrecy: bool,
) -> ExitArgs<Seq<char>> {
    ExitArgs {
        id: Some(exit.id),
        connection_id: Some(connection_id),
        ..exit_args(exit, restore_secrecy)
    }
}

/// The body that recreates a cached exit under a fresh identity.
pub(crate) fn exit_args_from_cache(exit: &ExitCache, restore_secrecy: bool) -> (args: ExitArgs)
    ensures
        args@ == exit_args(*exit, restore_secrecy),
{
    ExitArgs {
        id: None,
        connection_id: None,
        new_connection_id: None,
        is_secret: if restore_secrecy {
            Some(exit.is_secret)
        } else {
            None
        },
        from_direction: exit.from_direction,
        to_area_id: exit.to_area_id,
        to_room_number: exit.to_room_number,
        to_direction: exit.to_direction,
        path: clone_opt(&exit.path),
        is_hidden: exit.is_hidden,
        is_closed: exit.is_closed,
        is_locked: exit.is_locked,
        weight: exit.weight,
        command: clone_opt(&exit.command),
    }
}

/// The body that recreates a cached exit under its own identity.
pub(crate) fn restore_exit_args(
    exit: &ExitCache,
    connection_id: ConnectionId,
    restore_secrecy: bool,
) -> (args: ExitArgs)
    ensures
        args@ == restored_exit_args(*exit, connection_id, restore_secrecy),
{
    let mut args = exit_args_from_cache(exit, restore_secrecy);
    args.id = Some(exit.id);
    args.connection_id = Some(connection_id);
    args
}

/// Whether an exit leads nowhere. One whose destination was withheld leads
/// somewhere.
pub open spec fn leads_nowhere(exit: ExitCache) -> bool {
    exit.to_area_id is None && exit.to_room_number is None && exit.to_direction is None
        && !exit.to_unknown
}

/// Every field of a cached exit as an update. Updates merge destinations, so a
/// snapshot of an exit that leads nowhere clears the destination outright; a
/// withheld destination is left alone.
pub open spec fn exit_snapshot(exit: ExitCache) -> ExitUpdates<Seq<char>> {
    ExitUpdates {
        is_secret: None,
        clear_to: if leads_nowhere(exit) {
            Some(true)
        } else {
            None
        },
        from_direction: Some(exit.from_direction),
        to_area_id: exit.to_area_id,
        to_room_number: exit.to_room_number,
        to_direction: exit.to_direction,
        path: text::opt_text(exit.path),
        is_hidden: Some(exit.is_hidden),
        is_closed: Some(exit.is_closed),
        is_locked: Some(exit.is_locked),
        weight: Some(exit.weight),
        command: text::opt_text(exit.command),
    }
}

/// Every field of a cached exit as an update.
pub(crate) fn exit_updates_from_cache(exit: &ExitCache) -> (updates: ExitUpdates)
    ensures
        updates@ == exit_snapshot(*exit),
{
    let nowhere = exit.to_area_id.is_none() && exit.to_room_number.is_none()
        && exit.to_direction.is_none() && !exit.to_unknown;
    ExitUpdates {
        is_secret: None,
        clear_to: if nowhere {
            Some(true)
        } else {
            None
        },
        from_direction: Some(exit.from_direction),
        to_area_id: exit.to_area_id,
        to_room_number: exit.to_room_number,
        to_direction: exit.to_direction,
        path: clone_opt(&exit.path),
        is_hidden: Some(exit.is_hidden),
        is_closed: Some(exit.is_closed),
        is_locked: Some(exit.is_locked),
        weight: Some(exit.weight),
        command: clone_opt(&exit.command),
    }
}

/// An edited snapshot made ready to send: the destination is cleared outright
/// when none is left, and only then. A withheld destination is left alone.
pub open spec fn with_clear_to(
    updates: ExitUpdates<Seq<char>>,
    to_unknown: bool,
) -> ExitUpdates<Seq<char>> {
    let expressed = updates.to_area_id is Some || updates.to_room_number is Some
        || updates.to_direction is Some;
    ExitUpdates {
        clear_to: if !expressed && !to_unknown {
            Some(true)
        } else {
            None
        },
        ..updates
    }
}

/// An edited snapshot made ready to send.
fn settle_clear_to(updates: ExitUpdates, to_unknown: bool) -> (r: ExitUpdates)
    ensures
        r@ == with_clear_to(updates@, to_unknown),
{
    let mut updates = updates;
    let expressed = updates.to_area_id.is_some() || updates.to_room_number.is_some()
        || updates.to_direction.is_some();
    updates.clear_to = if !expressed && !to_unknown {
        Some(true)
    } else {
        None
    };
    updates
}

/// The cached exit of a room.
pub open spec fn cached_exit(atlas: AtlasCache, key: RoomKey, exit_id: ExitId) -> Option<ExitCache> {
    match atlas.area(key.area_id) {
        None => None,
        Some(area) => match area.room(key.room_number) {
            None => None,
            Some(room) => room.exit(exit_id),
        },
    }
}

/// The cached exit of a room.
pub(crate) fn find_exit<'a>(
    atlas: &'a AtlasCache,
    key: RoomKey,
    exit_id: ExitId,
) -> (found: Option<&'a ExitCache>)
    ensures
        match found {
            Some(exit) => cached_exit(*atlas, key, exit_id) == Some(*exit),
            None => cached_exit(*atlas, key, exit_id) is None,
        },
{
    let area = atlas.get_area(&key.area_id)?;
    let room = area.get_room(&key.room_number)?;
    room.get_exit(&exit_id)
}

/// The command of [`edit_exit_field`], once the edited snapshot is known.
pub open spec fn exit_field_command(
    exit: ExitCache,
    key: RoomKey,
    exit_id: ExitId,
    field: FieldId,
    changed: ExitUpdates<Seq<char>>,
) -> CommandView {
    let id = IdRef::Known(exit_id);
    commands::new_command(
        seq![
            Mutation::UpdateExit {
                room_key: key,
                id,
                updates: with_clear_to(changed, exit.to_unknown),
            },
        ],
        seq![Mutation::UpdateExit { room_key: key, id, updates: exit_snapshot(exit) }],
    ).coalescing(
        CoalesceKey { entity: EntityRef::Exit(key.area_id, exit_id), field, detail: None },
    )
}

/// `change` turned the snapshot of `exit` into `changed`.
pub open spec fn changed_by<G: FnOnce(ExitUpdates) -> ExitUpdates>(
    change: G,
    exit: ExitCache,
    changed: ExitUpdates,
) -> bool {
    exists|given: ExitUpdates|
        given@ == exit_snapshot(exit) && #[trigger] change.ensures((given,), changed)
}

/// Edits an exit by changing a snapshot of its current state; coalesces with
/// consecutive edits to the same field. `None` when the exit is not cached.
pub fn edit_exit_field<G: FnOnce(ExitUpdates) -> ExitUpdates>(
    atlas: &AtlasCache,
    room_key: RoomKey,
    exit_id: ExitId,
    field: FieldId,
    change: G,
) -> (command: Option<Command>)
    requires
        forall|given: ExitUpdates| #[trigger] change.requires((given,)),
    ensures
        match cached_exit(*atlas, room_key, exit_id) {
            None => command is None,
            Some(exit) => exists|changed: ExitUpdates| #[trigger]
                changed_by(change, exit, changed) && edits::opt_command(command) == Some(
                    exit_field_command(exit, room_key, exit_id, field, changed@),
                ),
        },
        command matches Some(command) ==> command.wf(),
{
    let exit = find_exit(atlas, room_key, exit_id)?;
    let snapshot = exit_updates_from_cache(exit);
    let changed = change(snapshot);
    assert(changed_by(change, *exit, changed));
    let updates = settle_clear_to(changed, exit.to_unknown);
    let id = IdRef::Known(exit_id);
    let command = pair(
        Mutation::UpdateExit { room_key, id, updates },
        Mutation::UpdateExit { room_key, id, updates: exit_updates_from_cache(exit) },
    );
    Some(command.coalescing(CoalesceKey::new(EntityRef::Exit(room_key.area_id, exit_id), field)))
}

/// The command of [`edit_exit_with_endpoint`], once the edited snapshot is
/// known.
pub open spec fn exit_endpoint_command(
    exit: ExitCache,
    current: Connection,
    area_id: AreaId,
    exit_id: ExitId,
    changed: ExitUpdates<Seq<char>>,
    connection_id: ConnectionId,
    connection_updates: ConnectionUpdates<Seq<char>, Seq<Point>>,
) -> CommandView {
    commands::new_command(
        seq![
            edits::batch(
                area_id,
                seq![
                    AreaMutation::UpdateExit {
                        exit_id,
                        body: with_clear_to(changed, exit.to_unknown),
                    },
                    AreaMutation::UpdateConnection { connection_id, body: connection_updates },
                ],
                "Change exit direction"@,
            ),
        ],
        seq![
            edits::batch(
                area_id,
                seq![
                    AreaMutation::UpdateExit { exit_id, body: exit_snapshot(exit) },
                    AreaMutation::UpdateConnection {
                        connection_id,
                        body: connection_inverse(current, connection_updates),
                    },
                ],
                "Undo change exit direction"@,
            ),
        ],
    )
}

/// The cached connection of an area, when `updates` can be inverted on it.
pub open spec fn endpoint_target(
    atlas: AtlasCache,
    area_id: AreaId,
    connection_id: ConnectionId,
    updates: ConnectionUpdates<Seq<char>, Seq<Point>>,
) -> Option<Connection> {
    match atlas.area(area_id) {
        None => None,
        Some(area) => match area.connection(connection_id) {
            None => None,
            Some(current) => if invertible(current, updates) {
                Some(current)
            } else {
                None
            },
        },
    }
}

/// Edits one exit and one connection in the same envelope, as one undo unit that
/// never coalesces. `None` when either is not cached or the connection edit has
/// no inverse.
pub fn edit_exit_with_endpoint<G: FnOnce(ExitUpdates) -> ExitUpdates>(
    atlas: &AtlasCache,
    room_key: RoomKey,
    exit_id: ExitId,
    change: G,
    connection_id: ConnectionId,
    connection_updates: ConnectionUpdates,
) -> (command: Option<Command>)
    requires
        forall|given: ExitUpdates| #[trigger] change.requires((given,)),
    ensures
        match (
            cached_exit(*atlas, room_key, exit_id),
            endpoint_target(*atlas, room_key.area_id, connection_id, connection_updates@),
        ) {
            (Some(exit), Some(current)) => exists|changed: ExitUpdates| #[trigger]
                changed_by(change, exit, changed) && edits::opt_command(command) == Some(
                    exit_endpoint_command(
                        exit,
                        current,
                        room_key.area_id,
                        exit_id,
                        changed@,
                        connection_id,
                        connection_updates@,
                    ),
                ),
            _ => command is None,
        },
        command matches Some(command) ==> command.wf(),
{
    let area_id = room_key.area_id;
    let exit = find_exit(atlas, room_key, exit_id)?;
    let snapshot = exit_updates_from_cache(exit);
    let changed = change(snapshot);
    assert(changed_by(change, *exit, changed));
    let updates = settle_clear_to(changed, exit.to_unknown);
    let area = atlas.get_area(&area_id)?;
    let current = area.get_connection(&connection_id)?;
    let inverse = invert_connection(current, &connection_updates)?;
    Some(
        pair(
            Mutation::AreaBatch {
                area_id,
                operations: two(
                    AreaMutation::UpdateExit { exit_id, body: updates },
                    AreaMutation::UpdateConnection { connection_id, body: connection_updates },
                ),
                description: "Change exit direction".to_owned(),
            },
            Mutation::AreaBatch {
                area_id,
                operations: two(
                    AreaMutation::UpdateExit { exit_id, body: exit_updates_from_cache(exit) },
                    AreaMutation::UpdateConnection { connection_id, body: inverse },
                ),
                description: "Undo change exit direction".to_owned(),
            },
        ),
    )
}

/// The command of [`delete_exit`].
pub open spec fn delete_exit_command(
    atlas: AtlasCache,
    key: RoomKey,
    exit_id: ExitId,
) -> Option<CommandView> {
    match (atlas.area(key.area_id), cached_exit(atlas, key, exit_id)) {
        (Some(area), Some(exit)) => if exit.to_unknown {
            None
        } else {
            Some(
                commands::new_command(
                    seq![Mutation::DeleteExit { room_key: key, id: IdRef::Slot(0) }],
                    seq![
                        Mutation::CreateExit {
                            room_key: key,
                            args: exit_args(exit, area.access.is_cleared_for_secrets),
                            follow_up: Some(exit_snapshot(exit)),
                            slot: 0,
                        },
                    ],
                ).seeded(0, ResolvedId::Exit(exit_id)),
            )
        },
        _ => None,
    }
}

/// Deletes one exit; undo recreates it under a fresh id tracked through a slot.
///
/// Refuses exits whose destination was withheld: an undo could only recreate
/// the exit dangling.
pub fn delete_exit(atlas: &AtlasCache, room_key: RoomKey, exit_id: ExitId) -> (command: Option<Command>)
    ensures
        edits::opt_command(command) == delete_exit_command(*atlas, room_key, exit_id),
        command matches Some(command) ==> command.wf(),
{
    let exit = find_exit(atlas, room_key, exit_id)?;
    let area = atlas.get_area(&room_key.area_id)?;
    if exit.to_unknown {
        return None;
    }
    let cleared = area.access.is_cleared_for_secrets;
    let redo = Mutation::DeleteExit { room_key, id: IdRef::Slot(0) };
    let undo = Mutation::CreateExit {
        room_key,
        args: exit_args_from_cache(exit, cleared),
        follow_up: Some(exit_updates_from_cache(exit)),
        slot: 0,
    };
    let command = pair(redo, undo);
    proof {
        commands::lemma_slots_for_all(seq![redo@] + seq![undo@], 0);
    }
    Some(command.seed_slot(0, ResolvedId::Exit(exit_id)))
}

// ===== Whole links =====

/// The exits of a room that share a connection.
pub open spec fn room_members(room: RoomCache, id: ConnectionId) -> Seq<(RoomNumber, ExitCache)> {
    list::collect(
        room.exits@,
        |exit: ExitCache|
            if exit.connection_id == id {
                seq![(room.room_number, exit)]
            } else {
                Seq::empty()
            },
    )
}

/// The exits that share a connection, each with its room, in cache order.
pub open spec fn members(area: AreaCache, id: ConnectionId) -> Seq<(RoomNumber, ExitCache)> {
    list::collect(area.rooms@, |room: RoomCache| room_members(room, id))
}

/// Members by reference.
pub open spec fn members_view(list: Seq<(RoomNumber, &ExitCache)>) -> Seq<(RoomNumber, ExitCache)> {
    list.map_values(|member: (RoomNumber, &ExitCache)| (member.0, *member.1))
}

/// The exits that share a connection, each with its room, in cache order.
pub(crate) fn members_of<'a>(area: &'a AreaCache, id: ConnectionId) -> (found: Vec<
    (RoomNumber, &'a ExitCache),
>)
    ensures
        members_view(found@) == members(*area, id),
{
    let ghost of_room = |room: RoomCache| room_members(room, id);
    let mut found: Vec<(RoomNumber, &'a ExitCache)> = Vec::new();
    proof {
        assert(area.rooms@.take(0) =~= Seq::empty());
        assert(members_view(found@) =~= list::collect(area.rooms@.take(0), of_room));
    }
    for i in 0..area.rooms.len()
        invariant
            of_room == (|room: RoomCache| room_members(room, id)),
            members_view(found@) == list::collect(area.rooms@.take(i as int), of_room),
    {
        let room = &area.rooms[i];
        let ghost before = members_view(found@);
        let ghost of_exit = |exit: ExitCache|
            if exit.connection_id == id {
                seq![(room.room_number, exit)]
            } else {
                Seq::empty()
            };
        proof {
            assert(room.exits@.take(0) =~= Seq::empty());
            assert(before =~= before + list::collect(room.exits@.take(0), of_exit));
        }
        for k in 0..room.exits.len()
            invariant
                of_exit == (|exit: ExitCache|
                    if exit.connection_id == id {
                        seq![(room.room_number, exit)]
                    } else {
                        Seq::empty()
                    }),
                members_view(found@) == before + list::collect(room.exits@.take(k as int), of_exit),
        {
            let exit = &room.exits[k];
            let ghost held = found@;
            proof {
                list::lemma_collect_step(room.exits@, of_exit, k as int);
            }
            if exit.connection_id == id {
                found.push((room.room_number, exit));
                assert(members_view(found@) =~= members_view(held).push((room.room_number, *exit)));
                assert(members_view(found@) =~= before + (list::collect(
                    room.exits@.take(k as int),
                    of_exit,
                ) + seq![(room.room_number, *exit)]));
            } else {
                assert(members_view(found@) =~= before + (list::collect(
                    room.exits@.take(k as int),
                    of_exit,
                ) + Seq::empty()));
            }
        }
        proof {
            assert(room.exits@.take(room.exits.len() as int) =~= room.exits@);
            assert(list::collect(room.exits@, of_exit) == room_members(*room, id));
            list::lemma_collect_step(area.rooms@, of_room, i as int);
        }
    }
    assert(area.rooms@.take(area.rooms.len() as int) =~= area.rooms@);
    found
}

/// The order of exits by identity.
pub open spec fn exit_before(a: (RoomNumber, ExitCache), b: (RoomNumber, ExitCache)) -> bool {
    a.1.id.0 < b.1.id.0
}

/// The exits that share a connection, by identity.
pub open spec fn sorted_members(area: AreaCache, id: ConnectionId) -> Seq<(RoomNumber, ExitCache)> {
    list::in_order(
        members(area, id),
        |a: (RoomNumber, ExitCache), b: (RoomNumber, ExitCache)| exit_before(a, b),
    )
}

/// Whether one exit comes before another by identity.
fn member_before(a: (RoomNumber, &ExitCache), b: (RoomNumber, &ExitCache)) -> (before: bool)
    ensures
        before == exit_before((a.0, *a.1), (b.0, *b.1)),
{
    a.1.id.0 < b.1.id.0
}

/// Members sorted by identity.
pub(crate) fn sort_members<'a>(
    list: Vec<(RoomNumber, &'a ExitCache)>,
    Ghost(area): Ghost<AreaCache>,
    Ghost(id): Ghost<ConnectionId>,
) -> (sorted: Vec<(RoomNumber, &'a ExitCache)>)
    requires
        members_view(list@) == members(area, id),
    ensures
        members_view(sorted@) == sorted_members(area, id),
{
    let ghost by_ref = |a: (RoomNumber, &ExitCache), b: (RoomNumber, &ExitCache)|
        exit_before((a.0, *a.1), (b.0, *b.1));
    proof {
        list::lemma_in_order_map(
            list@,
            |member: (RoomNumber, &ExitCache)| (member.0, *member.1),
            by_ref,
            |a: (RoomNumber, ExitCache), b: (RoomNumber, ExitCache)| exit_before(a, b),
        );
    }
    let less = |a: &(RoomNumber, &'a ExitCache), b: &(RoomNumber, &'a ExitCache)| -> (r: bool)
        ensures
            r == exit_before((a.0, *a.1), (b.0, *b.1)),
    {
        member_before(*a, *b)
    };
    sort_by(list, less, Ghost(by_ref))
}

/// The body that recreates a cached connection under its own identity.
pub open spec fn connection_args(connection: Connection) -> ConnectionArgs<Seq<char>, Seq<Point>> {
    ConnectionArgs {
        id: connection.id,
        endpoint_a: connection.endpoint_a,
        endpoint_b: connection.endpoint_b,
        routing: connection.routing,
        segment_shape: connection.segment_shape,
        corner: connection.corner,
        route_points: connection.route_points@,
        dash: connection.dash,
        color: connection.color@,
        thickness: connection.thickness,
    }
}

/// The body that recreates a cached connection under its own identity.
pub(crate) fn connection_args_from_cache(connection: &Connection) -> (args: ConnectionArgs)
    ensures
        args@ == connection_args(*connection),
{
    ConnectionArgs {
        id: connection.id,
        endpoint_a: connection.endpoint_a,
        endpoint_b: connection.endpoint_b,
        routing: connection.routing,
        segment_shape: connection.segment_shape,
        corner: connection.corner,
        route_points: clone_points(&connection.route_points),
        dash: connection.dash,
        color: connection.color.clone(),
        thickness: connection.thickness,
    }
}

/// The write that recreates one exit of a link under its own identity.
pub open spec fn restored_member(
    member: (RoomNumber, ExitCache),
    id: ConnectionId,
    restore_secrecy: bool,
) -> OpView {
    AreaMutation::CreateExit {
        room_number: member.0,
        body: restored_exit_args(member.1, id, restore_secrecy),
    }
}

/// The writes that recreate a link: the connection, then its exits by identity.
pub open spec fn link_restore(
    area: AreaCache,
    connection: Connection,
    restore_secrecy: bool,
) -> Seq<OpView> {
    seq![AreaMutation::CreateConnection { body: connection_args(connection) }]
        + sorted_members(area, connection.id).map_values(
        |member: (RoomNumber, ExitCache)| restored_member(member, connection.id, restore_secrecy),
    )
}

/// The writes that recreate a link with the given members.
pub(crate) fn restore_link(
    list: &Vec<(RoomNumber, &ExitCache)>,
    connection: &Connection,
    restore_secrecy: bool,
    Ghost(area): Ghost<AreaCache>,
) -> (ops: Vec<AreaMutation>)
    requires
        members_view(list@) == sorted_members(area, connection.id),
    ensures
        mutation::ops_view(ops@) == link_restore(area, *connection, restore_secrecy),
{
    let ghost id = connection.id;
    let ghost made = |member: (RoomNumber, ExitCache)| restored_member(member, id, restore_secrecy);
    let ghost all = members_view(list@);
    let mut ops = one(AreaMutation::CreateConnection { body: connection_args_from_cache(connection) });
    let ghost head = mutation::ops_view(ops@);
    assert(head =~= head + all.take(0).map_values(made));
    for i in 0..list.len()
        invariant
            id == connection.id,
            all == members_view(list@),
            made == (|member: (RoomNumber, ExitCache)|
                restored_member(member, id, restore_secrecy)),
            mutation::ops_view(ops@) == head + all.take(i as int).map_values(made),
    {
        let (room_number, exit) = list[i];
        push_op(
            &mut ops,
            AreaMutation::CreateExit {
                room_number,
                body: restore_exit_args(exit, connection.id, restore_secrecy),
            },
        );
        assert(mutation::ops_view(ops@) =~= head + all.take(i + 1).map_values(made));
    }
    assert(all.take(list.len() as int) =~= all);
    ops
}

/// The command of [`delete_connection`].
pub open spec fn delete_connection_command(
    atlas: AtlasCache,
    area_id: AreaId,
    connection_id: ConnectionId,
) -> Option<CommandView> {
    match atlas.area(area_id) {
        None => None,
        Some(area) => match area.connection(connection_id) {
            None => None,
            Some(connection) => Some(
                commands::new_command(
                    seq![
                        edits::batch(
                            area_id,
                            seq![AreaMutation::DeleteLink { connection_id }],
                            if members(area, connection_id).len() == 2 {
                                "Delete bidirectional link"@
                            } else {
                                "Delete link"@
                            },
                        ),
                    ],
                    seq![
                        edits::batch(
                            area_id,
                            link_restore(area, connection, area.access.is_cleared_for_secrets),
                            "Restore deleted link"@,
                        ),
                    ],
                ),
            ),
        },
    }
}

/// Deletes a visual link and every exit it owns. Undo restores the same
/// identities in one envelope. `None` when the connection is not cached.
pub fn delete_connection(
    atlas: &AtlasCache,
    area_id: AreaId,
    connection_id: ConnectionId,
) -> (command: Option<Command>)
    ensures
        edits::opt_command(command) == delete_connection_command(*atlas, area_id, connection_id),
        command matches Some(command) ==> command.wf(),
{
    let area = atlas.get_area(&area_id)?;
    let connection = area.get_connection(&connection_id)?;
    proof {
        list::lemma_first_exists(
            area.connections@,
            |item: Connection| item.id == connection_id,
        );
    }
    let cleared = area.access.is_cleared_for_secrets;
    let found = members_of(area, connection_id);
    let count: usize = found.len();
    let sorted = sort_members(found, Ghost(*area), Ghost(connection_id));
    let restore = restore_link(&sorted, connection, cleared, Ghost(*area));
    let description = if count == 2 {
        "Delete bidirectional link".to_owned()
    } else {
        "Delete link".to_owned()
    };
    Some(
        pair(
            Mutation::AreaBatch {
                area_id,
                operations: one(AreaMutation::DeleteLink { connection_id }),
                description,
            },
            Mutation::AreaBatch {
                area_id,
                operations: restore,
                description: "Restore deleted link".to_owned(),
            },
        ),
    )
}

/// The command of [`unlink_exit`].
pub open spec fn unlink_command(
    area_id: AreaId,
    exit_id: ExitId,
    old_connection_id: ConnectionId,
    new_connection_id: ConnectionId,
) -> CommandView {
    commands::new_command(
        seq![
            edits::batch(
                area_id,
                seq![AreaMutation::Unlink { exit_id, new_connection_id }],
                "Unlink selected direction"@,
            ),
        ],
        seq![
            edits::batch(
                area_id,
                seq![
                    AreaMutation::Pair {
                        keep_connection_id: old_connection_id,
                        merge_connection_id: new_connection_id,
                    },
                ],
                "Restore linked directions"@,
            ),
        ],
    )
}

/// Moves one exit of a shared link onto a connection of its own. Undo pairs the
/// two again.
pub fn unlink_exit(
    area_id: AreaId,
    exit_id: ExitId,
    old_connection_id: ConnectionId,
    new_connection_id: ConnectionId,
) -> (command: Command)
    ensures
        command@ == unlink_command(area_id, exit_id, old_connection_id, new_connection_id),
        command.wf(),
{
    pair(
        Mutation::AreaBatch {
            area_id,
            operations: one(AreaMutation::Unlink { exit_id, new_connection_id }),
            description: "Unlink selected direction".to_owned(),
        },
        Mutation::AreaBatch {
            area_id,
            operations: one(
                AreaMutation::Pair {
                    keep_connection_id: old_connection_id,
                    merge_connection_id: new_connection_id,
                },
            ),
            description: "Restore linked directions".to_owned(),
        },
    )
}

/// Every field of a connection as an update.
pub open spec fn connection_snapshot(connection: Connection) -> ConnectionUpdates<Seq<char>, Seq<Point>> {
    ConnectionUpdates {
        endpoint_a: Some(connection.endpoint_a),
        endpoint_b: connection.endpoint_b,
        routing: Some(connection.routing),
        segment_shape: Some(connection.segment_shape),
        corner: Some(connection.corner),
        route_points: Some(connection.route_points@),
        dash: Some(connection.dash),
        color: Some(connection.color@),
        thickness: Some(connection.thickness),
    }
}

/// The command of [`pair_connections`].
pub open spec fn pair_command(
    atlas: AtlasCache,
    area_id: AreaId,
    keep_connection_id: ConnectionId,
    merge_connection_id: ConnectionId,
) -> Option<CommandView> {
    match atlas.area(area_id) {
        None => None,
        Some(area) => match area.connection(merge_connection_id) {
            None => None,
            Some(merge) => if members(area, merge_connection_id).len() == 0 {
                None
            } else {
                Some(
                    commands::new_command(
                        seq![
                            edits::batch(
                                area_id,
                                seq![AreaMutation::Pair { keep_connection_id, merge_connection_id }],
                                "Pair reciprocal connections"@,
                            ),
                        ],
                        seq![
                            edits::batch(
                                area_id,
                                seq![
                                    AreaMutation::Unlink {
                                        exit_id: members(area, merge_connection_id)[0].1.id,
                                        new_connection_id: merge_connection_id,
                                    },
                                    AreaMutation::UpdateConnection {
                                        connection_id: merge_connection_id,
                                        body: connection_snapshot(merge),
                                    },
                                ],
                                "Unpair reciprocal connections"@,
                            ),
                        ],
                    ),
                )
            },
        },
    }
}

/// Pairs two reciprocal one-exit links, keeping the selected visual route. Undo
/// splits the moved exit, then restores its old visuals. `None` when the merged
/// connection is not cached or owns no exit.
pub fn pair_connections(
    atlas: &AtlasCache,
    area_id: AreaId,
    keep_connection_id: ConnectionId,
    merge_connection_id: ConnectionId,
) -> (command: Option<Command>)
    ensures
        edits::opt_command(command) == pair_command(
            *atlas,
            area_id,
            keep_connection_id,
            merge_connection_id,
        ),
        command matches Some(command) ==> command.wf(),
{
    let area = atlas.get_area(&area_id)?;
    let merge = area.get_connection(&merge_connection_id)?;
    let found = members_of(area, merge_connection_id);
    assert(members_view(found@).len() == found@.len());
    if found.len() == 0 {
        return None;
    }
    assert(members_view(found@)[0] == (found@[0].0, *found@[0].1));
    let moved = found[0].1.id;
    let snapshot = ConnectionUpdates {
        endpoint_a: Some(merge.endpoint_a),
        endpoint_b: merge.endpoint_b,
        routing: Some(merge.routing),
        segment_shape: Some(merge.segment_shape),
        corner: Some(merge.corner),
        route_points: Some(clone_points(&merge.route_points)),
        dash: Some(merge.dash),
        color: Some(merge.color.clone()),
        thickness: Some(merge.thickness),
    };
    Some(
        pair(
            Mutation::AreaBatch {
                area_id,
                operations: one(AreaMutation::Pair { keep_connection_id, merge_connection_id }),
                description: "Pair reciprocal connections".to_owned(),
            },
            Mutation::AreaBatch {
                area_id,
                operations: two(
                    AreaMutation::Unlink { exit_id: moved, new_connection_id: merge_connection_id },
                    AreaMutation::UpdateConnection { connection_id: merge_connection_id, body: snapshot },
                ),
                description: "Unpair reciprocal connections".to_owned(),
            },
        ),
    )
}

/// What a one-way link would be answered from: its room, its exit, and the room
/// it leads to.
pub struct ReturnPlan {
    pub from_room: RoomNumber,
    pub exit: ExitCache,
    pub destination: RoomCache,
}

/// The link that can be given a return exit: exactly one exit, which leads to a
/// cached room of the same area. A loop cannot.
pub open spec fn return_plan(
    atlas: AtlasCache,
    area_id: AreaId,
    connection_id: ConnectionId,
) -> Option<ReturnPlan> {
    match atlas.area(area_id) {
        None => None,
        Some(area) => match area.connection(connection_id) {
            None => None,
            Some(connection) => {
                let list = members(area, connection_id);
                if connection.kind == ConnectionKind::SelfLoop || list.len() != 1 || list[0].1.to_unknown
                    || list[0].1.to_area_id != Some(area_id) {
                    None
                } else {
                    match list[0].1.to_room_number {
                        None => None,
                        Some(to_room) => match area.room(to_room) {
                            None => None,
                            Some(destination) => Some(
                                ReturnPlan { from_room: list[0].0, exit: list[0].1, destination },
                            ),
                        },
                    }
                }
            },
        },
    }
}

/// Whether a room already answers: an exit in the return direction would
/// collide, and one back toward the origin should be paired instead.
pub open spec fn already_answers(
    destination: RoomCache,
    area_id: AreaId,
    from_room: RoomNumber,
    back: ExitDirection,
) -> bool {
    exists|i: int|
        0 <= i < destination.exits@.len() && ((#[trigger] destination.exits@[i]).from_direction == back || (
        destination.exits@[i].to_area_id == Some(area_id) && destination.exits@[i].to_room_number
            == Some(from_room)))
}

/// Whether a room already answers.
fn answers_already(
    destination: &RoomCache,
    area_id: AreaId,
    from_room: RoomNumber,
    back: ExitDirection,
) -> (answers: bool)
    ensures
        answers == already_answers(*destination, area_id, from_room, back),
{
    for i in 0..destination.exits.len()
        invariant
            forall|j: int|
                0 <= j < i ==> !((#[trigger] destination.exits@[j]).from_direction == back || (
                destination.exits@[j].to_area_id == Some(area_id)
                    && destination.exits@[j].to_room_number == Some(from_room))),
    {
        let other = &destination.exits[i];
        if other.from_direction == back || (other.to_area_id == Some(area_id) && other.to_room_number
            == Some(from_room)) {
            return true;
        }
    }
    false
}

/// The body of a return exit: secrecy and barriers are those of the passage, the
/// path and the command are not.
pub open spec fn return_args(
    exit: ExitCache,
    area_id: AreaId,
    connection_id: ConnectionId,
    from_room: RoomNumber,
    back: ExitDirection,
    new_id: ExitId,
    cleared: bool,
) -> ExitArgs<Seq<char>> {
    ExitArgs {
        id: Some(new_id),
        connection_id: Some(connection_id),
        new_connection_id: None,
        is_secret: if cleared && exit.is_secret {
            Some(true)
        } else {
            None
        },
        from_direction: back,
        to_area_id: Some(area_id),
        to_room_number: Some(from_room),
        to_direction: Some(exit.from_direction),
        path: None,
        is_hidden: exit.is_hidden,
        is_closed: exit.is_closed,
        is_locked: exit.is_locked,
        weight: exit.weight,
        command: None,
    }
}

/// The command of [`add_return_exit`], once the return direction is known.
pub open spec fn return_command(
    atlas: AtlasCache,
    area_id: AreaId,
    connection_id: ConnectionId,
    plan: ReturnPlan,
    back: ExitDirection,
    new_id: ExitId,
) -> Option<CommandView> {
    if already_answers(plan.destination, area_id, plan.from_room, back) {
        None
    } else {
        Some(
            commands::new_command(
                seq![
                    edits::batch(
                        area_id,
                        seq![
                            AreaMutation::CreateExit {
                                room_number: plan.exit.to_room_number->0,
                                body: return_args(
                                    plan.exit,
                                    area_id,
                                    connection_id,
                                    plan.from_room,
                                    back,
                                    new_id,
                                    atlas.area(area_id)->0.access.is_cleared_for_secrets,
                                ),
                            },
                        ],
                        "Add return direction"@,
                    ),
                ],
                seq![
                    edits::batch(
                        area_id,
                        seq![AreaMutation::DeleteExit { exit_id: new_id }],
                        "Remove return direction"@,
                    ),
                ],
            ),
        )
    }
}

/// `back` is the return direction of an exit: the stored one, or else the
/// opposite of the way out.
pub open spec fn returns_by<P: FnOnce(ExitDirection) -> ExitDirection>(
    opposite: P,
    exit: ExitCache,
    back: ExitDirection,
) -> bool {
    match exit.to_direction {
        Some(direction) => back == direction,
        None => opposite.ensures((exit.from_direction,), back),
    }
}

/// Makes a one-way link two-way: creates the reciprocal exit `new_id` on the
/// destination room, attached to the same connection. Its direction is the
/// stored return direction, or the `opposite` of the forward one. Undo deletes
/// exactly that exit.
///
/// Refuses links that do not have exactly one exit, that do not lead to a cached
/// room of the same area, and destinations that already answer.
pub fn add_return_exit<P: FnOnce(ExitDirection) -> ExitDirection>(
    atlas: &AtlasCache,
    area_id: AreaId,
    connection_id: ConnectionId,
    new_id: ExitId,
    opposite: P,
) -> (command: Option<Command>)
    requires
        forall|direction: ExitDirection| #[trigger] opposite.requires((direction,)),
    ensures
        return_plan(*atlas, area_id, connection_id) is None ==> command is None,
        return_plan(*atlas, area_id, connection_id) matches Some(plan) ==> exists|
            back: ExitDirection,
        | #[trigger]
            returns_by(opposite, plan.exit, back) && edits::opt_command(command) == return_command(
                *atlas,
                area_id,
                connection_id,
                plan,
                back,
                new_id,
            ),
        command matches Some(command) ==> command.wf(),
{
    let ghost plan = return_plan(*atlas, area_id, connection_id);
    let area = atlas.get_area(&area_id)?;
    let connection = area.get_connection(&connection_id)?;
    if connection.kind == ConnectionKind::SelfLoop {
        return None;
    }
    let list = members_of(area, connection_id);
    assert(members_view(list@).len() == list@.len());
    if list.len() != 1 {
        return None;
    }
    assert(members_view(list@)[0] == (list@[0].0, *list@[0].1));
    let from_room = list[0].0;
    let exit = list[0].1;
    if exit.to_unknown {
        return None;
    }
    let to_room = exit.to_room_number?;
    if exit.to_area_id != Some(area_id) {
        return None;
    }
    let destination = area.get_room(&to_room)?;
    assert(plan == Some(ReturnPlan { from_room, exit: *exit, destination: *destination }));
    let back = match exit.to_direction {
        Some(direction) => direction,
        None => opposite(exit.from_direction),
    };
    assert(returns_by(opposite, plan->0.exit, back));
    if answers_already(destination, area_id, from_room, back) {
        return None;
    }
    let cleared = area.access.is_cleared_for_secrets;
    let body: ExitArgs = ExitArgs {
        id: Some(new_id),
        connection_id: Some(connection_id),
        new_connection_id: None,
        is_secret: if cleared && exit.is_secret {
            Some(true)
        } else {
            None
        },
        from_direction: back,
        to_area_id: Some(area_id),
        to_room_number: Some(from_room),
        to_direction: Some(exit.from_direction),
        path: None,
        is_hidden: exit.is_hidden,
        is_closed: exit.is_closed,
        is_locked: exit.is_locked,
        weight: exit.weight,
        command: None,
    };
    let command = pair(
        Mutation::AreaBatch {
            area_id,
            operations: one(AreaMutation::CreateExit { room_number: to_room, body }),
            description: "Add return direction".to_owned(),
        },
        Mutation::AreaBatch {
            area_id,
            operations: one(AreaMutation::DeleteExit { exit_id: new_id }),
            description: "Remove return direction".to_owned(),
        },
    );
    assert(Some(command@) == return_command(*atlas, area_id, connection_id, plan->0, back, new_id));
    Some(command)
}

} // verus!
