//! Undoing an edit of exits or connections restores them.

use vstd::prelude::*;

use super::commands::{CommandView, FieldId};
use super::links;
use super::model::{
    AreaCache, AreaId, AtlasCache, Connection, ConnectionId, ConnectionUpdates, ExitCache, ExitId, ExitUpdates, Point,
    RoomKey,
};
use super::mutation::{AreaMutation, OpView};
use super::stack;
use super::undoing;

verus! {

// ===== Connections =====

/// A connection over sequences.
pub type ConnectionState = Connection<Seq<char>, Seq<Point>>;

/// An edit of a connection.
pub type ConnectionEdit = (ConnectionId, ConnectionUpdates<Seq<char>, Seq<Point>>);

/// A connection after an update: the fields it touches take its values. An update
/// cannot take the second end away.
pub open spec fn connection_updated(
    connection: ConnectionState,
    updates: ConnectionUpdates<Seq<char>, Seq<Point>>,
) -> ConnectionState {
    Connection {
        id: connection.id,
        kind: connection.kind,
        endpoint_a: undoing::left(updates.endpoint_a, connection.endpoint_a),
        endpoint_b: match updates.endpoint_b {
            Some(end) => Some(end),
            None => connection.endpoint_b,
        },
        routing: undoing::left(updates.routing, connection.routing),
        segment_shape: undoing::left(updates.segment_shape, connection.segment_shape),
        corner: undoing::left(updates.corner, connection.corner),
        route_points: undoing::left(updates.route_points, connection.route_points),
        dash: undoing::left(updates.dash, connection.dash),
        color: undoing::left(updates.color, connection.color),
        thickness: undoing::left(updates.thickness, connection.thickness),
    }
}

/// What a write leaves of the connections. A write to one that is not there does
/// nothing.
pub open spec fn connection_written(
    connections: Map<ConnectionId, ConnectionState>,
    op: OpView,
) -> Map<ConnectionId, ConnectionState> {
    match op {
        AreaMutation::UpdateConnection { connection_id, body } => if connections.dom().contains(
            connection_id,
        ) {
            connections.insert(connection_id, connection_updated(connections[connection_id], body))
        } else {
            connections
        },
        _ => connections,
    }
}

/// What writes leave of the connections, one after the other.
pub open spec fn connections_written(
    connections: Map<ConnectionId, ConnectionState>,
    ops: Seq<OpView>,
) -> Map<ConnectionId, ConnectionState>
    decreases ops.len(),
{
    if ops.len() == 0 {
        connections
    } else {
        connection_written(connections_written(connections, ops.drop_last()), ops.last())
    }
}

/// The connections of a cached area.
pub open spec fn connections_of(area: AreaCache) -> Map<ConnectionId, ConnectionState> {
    Map::new(
        |id: ConnectionId| area.connection(id) is Some,
        |id: ConnectionId| area.connection(id)->0@,
    )
}

/// Whether a connection has the identity and kind of another, and its fields wherever
/// no edit of the list touches them.
pub open spec fn same_where_untouched(
    conn: ConnectionState,
    held: ConnectionState,
    list: Seq<ConnectionEdit>,
    id: ConnectionId,
) -> bool {
    &&& conn.id == held.id && conn.kind == held.kind
    &&& (forall|i: int|
        #![trigger list[i]]
        0 <= i < list.len() && list[i].0 == id ==> list[i].1.endpoint_b is None) ==> conn.endpoint_b
        == held.endpoint_b
    &&& (forall|i: int|
        #![trigger list[i]]
        0 <= i < list.len() && list[i].0 == id ==> list[i].1.endpoint_a is None) ==> conn.endpoint_a == held.endpoint_a
    &&& (forall|i: int|
        #![trigger list[i]]
        0 <= i < list.len() && list[i].0 == id ==> list[i].1.routing is None) ==> conn.routing == held.routing
    &&& (forall|i: int|
        #![trigger list[i]]
        0 <= i < list.len() && list[i].0 == id ==> list[i].1.segment_shape is None)
            ==> conn.segment_shape == held.segment_shape
    &&& (forall|i: int|
        #![trigger list[i]]
        0 <= i < list.len() && list[i].0 == id ==> list[i].1.corner is None) ==> conn.corner == held.corner
    &&& (forall|i: int|
        #![trigger list[i]]
        0 <= i < list.len() && list[i].0 == id ==> list[i].1.route_points is None)
            ==> conn.route_points == held.route_points
    &&& (forall|i: int|
        #![trigger list[i]]
        0 <= i < list.len() && list[i].0 == id ==> list[i].1.dash is None) ==> conn.dash == held.dash
    &&& (forall|i: int|
        #![trigger list[i]]
        0 <= i < list.len() && list[i].0 == id ==> list[i].1.color is None) ==> conn.color == held.color
    &&& (forall|i: int|
        #![trigger list[i]]
        0 <= i < list.len() && list[i].0 == id ==> list[i].1.thickness is None) ==> conn.thickness == held.thickness
}

/// Whether a connection has the fields of another wherever an edit of the list touches
/// them, and those of a third elsewhere.
pub open spec fn same_where_touched(
    conn: ConnectionState,
    held: ConnectionState,
    other: ConnectionState,
    list: Seq<ConnectionEdit>,
    id: ConnectionId,
) -> bool {
    &&& conn.id == other.id && conn.kind == other.kind
    &&& same_where_untouched(conn, other, list, id)
    &&& forall|i: int|
        #![trigger list[i]]
        0 <= i < list.len() && list[i].0 == id ==> {
            &&& list[i].1.endpoint_b is Some ==> conn.endpoint_b == held.endpoint_b
            &&& list[i].1.endpoint_a is Some ==> conn.endpoint_a == held.endpoint_a
            &&& list[i].1.routing is Some ==> conn.routing == held.routing
            &&& list[i].1.segment_shape is Some ==> conn.segment_shape == held.segment_shape
            &&& list[i].1.corner is Some ==> conn.corner == held.corner
            &&& list[i].1.route_points is Some ==> conn.route_points == held.route_points
            &&& list[i].1.dash is Some ==> conn.dash == held.dash
            &&& list[i].1.color is Some ==> conn.color == held.color
            &&& list[i].1.thickness is Some ==> conn.thickness == held.thickness
        }
}

/// The writes of a group of edits change the fields that they touch, and no others.
proof fn lemma_edits_written(connections: Map<ConnectionId, ConnectionState>, list: Seq<ConnectionEdit>)
    ensures
        ({
            let after = connections_written(connections, links::connection_writes(list));
            &&& after.dom() == connections.dom()
            &&& forall|id: ConnectionId|
                #![trigger after[id]]
                connections.dom().contains(id) ==> same_where_untouched(
                    after[id],
                    connections[id],
                    list,
                    id,
                )
        }),
    decreases list.len(),
{
    if list.len() > 0 {
        let rest = list.drop_last();
        let at = list.len() - 1;
        let last = list[at];
        lemma_edits_written(connections, rest);
        let ops = links::connection_writes(list);
        assert(ops.drop_last() =~= links::connection_writes(rest));
        let before = connections_written(connections, links::connection_writes(rest));
        let after = connections_written(connections, ops);
        assert(after.dom() =~= connections.dom());
        assert forall|i: int| 0 <= i < rest.len() implies #[trigger] rest[i] == list[i] by {}
        assert forall|id: ConnectionId|
            #![trigger after[id]]
            connections.dom().contains(id) implies same_where_untouched(
            after[id],
            connections[id],
            list,
            id,
        ) by {
            assert(same_where_untouched(before[id], connections[id], rest, id));
            assert(list[at] == last);
        }
    }
}

/// The writes of the inverses bring the touched fields back, and change no others.
proof fn lemma_inverses_written(
    connections: Map<ConnectionId, ConnectionState>,
    area: AreaCache,
    list: Seq<ConnectionEdit>,
)
    requires
        connections.dom() == connections_of(area).dom(),
        forall|i: int| 0 <= i < list.len() ==> links::editable(area, #[trigger] list[i]),
    ensures
        ({
            let after = connections_written(
                connections,
                links::connection_writes(links::edit_inverses(area, list)),
            );
            &&& after.dom() == connections.dom()
            &&& forall|id: ConnectionId|
                #![trigger after[id]]
                connections.dom().contains(id) ==> same_where_touched(
                    after[id],
                    connections_of(area)[id],
                    connections[id],
                    list,
                    id,
                )
        }),
    decreases list.len(),
{
    let inverses = links::edit_inverses(area, list);
    if list.len() > 0 {
        let rest = list.drop_last();
        let at = list.len() - 1;
        let last = list[at];
        assert forall|i: int| 0 <= i < rest.len() implies links::editable(area, #[trigger] rest[i]) by {
            assert(rest[i] == list[i]);
        }
        lemma_inverses_written(connections, area, rest);
        let ops = links::connection_writes(inverses);
        let earlier = links::connection_writes(links::edit_inverses(area, rest));
        assert(ops.drop_last() =~= earlier);
        let before = connections_written(connections, earlier);
        let after = connections_written(connections, ops);
        assert(after.dom() =~= connections.dom());
        assert forall|i: int| 0 <= i < rest.len() implies #[trigger] rest[i] == list[i] by {}
        assert(links::editable(area, list[at]));
        assert forall|id: ConnectionId|
            #![trigger after[id]]
            connections.dom().contains(id) implies same_where_touched(
            after[id],
            connections_of(area)[id],
            connections[id],
            list,
            id,
        ) by {
            let held = connections_of(area)[id];
            assert(same_where_touched(before[id], held, connections[id], rest, id));
            if last.0 == id {
                assert(after[id] == connection_updated(
                    before[id],
                    links::connection_inverse(area.connection(id)->0, last.1),
                ));
            } else {
                assert(after[id] == before[id]);
            }
            assert forall|i: int|
                #![trigger list[i]]
                0 <= i < list.len() && list[i].0 == id implies {
                &&& list[i].1.endpoint_b is Some ==> after[id].endpoint_b == held.endpoint_b
                &&& list[i].1.endpoint_a is Some ==> after[id].endpoint_a == held.endpoint_a
                &&& list[i].1.routing is Some ==> after[id].routing == held.routing
                &&& list[i].1.segment_shape is Some ==> after[id].segment_shape == held.segment_shape
                &&& list[i].1.corner is Some ==> after[id].corner == held.corner
                &&& list[i].1.route_points is Some ==> after[id].route_points == held.route_points
                &&& list[i].1.dash is Some ==> after[id].dash == held.dash
                &&& list[i].1.color is Some ==> after[id].color == held.color
                &&& list[i].1.thickness is Some ==> after[id].thickness == held.thickness
            } by {
                if i < at {
                    assert(rest[i] == list[i]);
                }
            }
            assert(same_where_untouched(after[id], connections[id], list, id)) by {
                assert(list[at] == last);
            }
        }
    }
}

/// Undoing an edit of connections restores them, also where one is edited twice.
pub proof fn law_undo_restores_connections(
    atlas: AtlasCache,
    area_id: AreaId,
    list: Seq<ConnectionEdit>,
    description: Seq<char>,
)
    ensures
        links::connections_command(atlas, area_id, list, description) matches Some(command) ==> {
            let held = connections_of(atlas.area(area_id)->0);
            connections_written(
                connections_written(held, undoing::flat(command.redo)),
                undoing::flat(command.undo),
            ) == held
        },
{
    if let Some(command) = links::connections_command(atlas, area_id, list, description) {
        let area = atlas.area(area_id)->0;
        let held = connections_of(area);
        undoing::lemma_flat_one(command.redo[0]);
        undoing::lemma_flat_one(command.undo[0]);
        assert(command.redo =~= seq![command.redo[0]]);
        assert(command.undo =~= seq![command.undo[0]]);
        lemma_edits_written(held, list);
        let edited = connections_written(held, links::connection_writes(list));
        lemma_inverses_written(edited, area, list);
        let after = connections_written(
            edited,
            links::connection_writes(links::edit_inverses(area, list)),
        );
        assert forall|id: ConnectionId| held.dom().contains(id) implies #[trigger] after[id] == held[id] by {
            let conn = after[id];
            assert(same_where_untouched(edited[id], held[id], list, id));
            assert(same_where_touched(conn, held[id], edited[id], list, id));
            lemma_field_back(conn, held[id], edited[id], list, id);
        }
        assert(after =~= held);
    }
}

/// A connection whose touched fields are back and whose others never changed is as it
/// was.
proof fn lemma_field_back(
    conn: ConnectionState,
    held: ConnectionState,
    edited: ConnectionState,
    list: Seq<ConnectionEdit>,
    id: ConnectionId,
)
    requires
        same_where_untouched(edited, held, list, id),
        same_where_touched(conn, held, edited, list, id),
    ensures
        conn == held,
{
    assert(conn.endpoint_b == held.endpoint_b);
    assert(conn.endpoint_a == held.endpoint_a);
    assert(conn.routing == held.routing);
    assert(conn.segment_shape == held.segment_shape);
    assert(conn.corner == held.corner);
    assert(conn.route_points == held.route_points);
    assert(conn.dash == held.dash);
    assert(conn.color == held.color);
    assert(conn.thickness == held.thickness);
}

// ===== Exits =====

/// An exit over sequences.
pub type ExitState = ExitCache<Seq<char>>;

/// The value that an update leaves in a field that it cannot empty.
pub open spec fn merged<A>(update: Option<A>, held: Option<A>) -> Option<A> {
    match update {
        Some(value) => Some(value),
        None => held,
    }
}

/// An exit after an update: destinations are merged unless they are cleared outright.
pub open spec fn exit_updated(exit: ExitState, updates: ExitUpdates<Seq<char>>) -> ExitState {
    let cleared = updates.clear_to == Some(true);
    ExitCache {
        is_secret: undoing::left(updates.is_secret, exit.is_secret),
        from_direction: undoing::left(updates.from_direction, exit.from_direction),
        to_area_id: if cleared {
            None
        } else {
            merged(updates.to_area_id, exit.to_area_id)
        },
        to_room_number: if cleared {
            None
        } else {
            merged(updates.to_room_number, exit.to_room_number)
        },
        to_direction: if cleared {
            None
        } else {
            merged(updates.to_direction, exit.to_direction)
        },
        path: merged(updates.path, exit.path),
        is_hidden: undoing::left(updates.is_hidden, exit.is_hidden),
        is_closed: undoing::left(updates.is_closed, exit.is_closed),
        is_locked: undoing::left(updates.is_locked, exit.is_locked),
        weight: undoing::left(updates.weight, exit.weight),
        command: merged(updates.command, exit.command),
        ..exit
    }
}

/// What a write leaves of exits. A write to one that is not there does nothing.
pub open spec fn exit_written(exits: Map<ExitId, ExitState>, op: OpView) -> Map<ExitId, ExitState> {
    match op {
        AreaMutation::UpdateExit { exit_id, body } => if exits.dom().contains(exit_id) {
            exits.insert(exit_id, exit_updated(exits[exit_id], body))
        } else {
            exits
        },
        _ => exits,
    }
}

/// What writes leave of exits, one after the other.
pub open spec fn exits_written(exits: Map<ExitId, ExitState>, ops: Seq<OpView>) -> Map<ExitId, ExitState>
    decreases ops.len(),
{
    if ops.len() == 0 {
        exits
    } else {
        exit_written(exits_written(exits, ops.drop_last()), ops.last())
    }
}

/// Whether a field that is empty stays so. An update cannot empty a path, a command or
/// a part of a destination again.
pub open spec fn fills_nothing(exit: ExitState, changed: ExitUpdates<Seq<char>>) -> bool {
    &&& exit.path is None ==> changed.path is None
    &&& exit.command is None ==> changed.command is None
    &&& exit.to_area_id is None ==> changed.to_area_id is None
    &&& exit.to_room_number is None ==> changed.to_room_number is None
    &&& exit.to_direction is None ==> changed.to_direction is None
}

/// Whether an exit leads nowhere.
pub open spec fn is_dangling(exit: ExitState) -> bool {
    exit.to_area_id is None && exit.to_room_number is None && exit.to_direction is None && !exit.to_unknown
}

/// Whether a change gives an exit no path or command that it did not have, and fills no
/// part of a destination that is partly there. A destination may be given to an exit
/// that leads nowhere.
pub open spec fn can_go_back(exit: ExitState, changed: ExitUpdates<Seq<char>>) -> bool {
    let kept = ExitUpdates {
        to_area_id: None,
        to_room_number: None,
        to_direction: None,
        ..changed
    };
    changed.is_secret is None && fills_nothing(
        exit,
        if is_dangling(exit) {
            kept
        } else {
            changed
        },
    )
}

/// Undoing an edit of an exit restores it.
pub proof fn law_undo_restores_an_exit(
    atlas: AtlasCache,
    key: RoomKey,
    exit_id: ExitId,
    field: FieldId,
    changed: ExitUpdates<Seq<char>>,
    exits: Map<ExitId, ExitState>,
)
    requires
        links::cached_exit(atlas, key, exit_id) matches Some(exit) ==> exits.dom().contains(exit_id)
            && exits[exit_id] == exit@ && can_go_back(exit@, changed),
    ensures
        links::cached_exit(atlas, key, exit_id) matches Some(exit) ==> {
            let command = links::exit_field_command(exit, key, exit_id, field, changed);
            exits_written(
                exits_written(exits, undoing::flat(command.redo)),
                undoing::flat(command.undo),
            ) == exits
        },
{
    if let Some(exit) = links::cached_exit(atlas, key, exit_id) {
        reveal_with_fuel(exits_written, 2);
        let command = links::exit_field_command(exit, key, exit_id, field, changed);
        let updates = links::with_clear_to(changed, exit.to_unknown);
        let back = links::exit_snapshot(exit);
        undoing::lemma_flat_one(command.redo[0]);
        undoing::lemma_flat_one(command.undo[0]);
        assert(command.redo =~= seq![command.redo[0]]);
        assert(command.undo =~= seq![command.undo[0]]);
        let first = AreaMutation::UpdateExit { exit_id, body: updates };
        let second = AreaMutation::UpdateExit { exit_id, body: back };
        assert(undoing::flat(command.redo) =~= seq![first]);
        assert(undoing::flat(command.undo) =~= seq![second]);
        assert(seq![first].drop_last() =~= Seq::empty());
        assert(seq![second].drop_last() =~= Seq::empty());
        assert(exit_updated(exit_updated(exit@, updates), back) == exit@);
        let after = exit_written(exit_written(exits, first), second);
        assert(after =~= exits);
    }
}

/// What one write leaves of the connections.
proof fn lemma_one_connection_written(connections: Map<ConnectionId, ConnectionState>, op: OpView)
    ensures
        connections_written(connections, seq![op]) == connection_written(connections, op),
{
    reveal_with_fuel(connections_written, 2);
    assert(seq![op].drop_last() =~= Seq::empty());
}

/// Undoing an edit of a connection restores it.
pub proof fn law_undo_restores_a_connection(
    atlas: AtlasCache,
    area_id: AreaId,
    connection_id: ConnectionId,
    field: FieldId,
    updates: ConnectionUpdates<Seq<char>, Seq<Point>>,
    description: Seq<char>,
)
    ensures
        links::connection_command(atlas, area_id, connection_id, field, updates, description) matches Some(
            command,
        ) ==> {
            let held = connections_of(atlas.area(area_id)->0);
            connections_written(
                connections_written(held, undoing::flat(command.redo)),
                undoing::flat(command.undo),
            ) == held
        },
{
    if let Some(command) = links::connection_command(
        atlas,
        area_id,
        connection_id,
        field,
        updates,
        description,
    ) {
        let area = atlas.area(area_id)->0;
        let current = area.connection(connection_id)->0;
        let held = connections_of(area);
        let inverse = links::connection_inverse(current, updates);
        let first = AreaMutation::UpdateConnection { connection_id, body: updates };
        let back = AreaMutation::UpdateConnection { connection_id, body: inverse };
        undoing::lemma_flat_one(command.redo[0]);
        undoing::lemma_flat_one(command.undo[0]);
        assert(command.redo =~= seq![command.redo[0]]);
        assert(command.undo =~= seq![command.undo[0]]);
        lemma_one_connection_written(held, first);
        lemma_one_connection_written(connection_written(held, first), back);
        assert(connection_updated(connection_updated(current@, updates), inverse) == current@);
        assert(connection_written(connection_written(held, first), back) =~= held);
    }
}

/// Whether two updates of a connection are of the same fields.
pub open spec fn touch_same(
    a: ConnectionUpdates<Seq<char>, Seq<Point>>,
    b: ConnectionUpdates<Seq<char>, Seq<Point>>,
) -> bool {
    &&& a.endpoint_a is Some == b.endpoint_a is Some
    &&& a.endpoint_b is Some == b.endpoint_b is Some
    &&& a.routing is Some == b.routing is Some
    &&& a.segment_shape is Some == b.segment_shape is Some
    &&& a.corner is Some == b.corner is Some
    &&& a.route_points is Some == b.route_points is Some
    &&& a.dash is Some == b.dash is Some
    &&& a.color is Some == b.color is Some
    &&& a.thickness is Some == b.thickness is Some
}

/// The step that two edits of the same field of a connection are merged into undoes both.
pub proof fn law_undo_restores_coalesced_connection_edits(
    atlas: AtlasCache,
    later: AtlasCache,
    area_id: AreaId,
    connection_id: ConnectionId,
    field: FieldId,
    first: ConnectionUpdates<Seq<char>, Seq<Point>>,
    second: ConnectionUpdates<Seq<char>, Seq<Point>>,
    description: Seq<char>,
)
    requires
        touch_same(first, second),
        links::connection_command(atlas, area_id, connection_id, field, first, description) is Some,
        links::connection_command(later, area_id, connection_id, field, second, description) is Some,
    ensures
        ({
            let a = links::connection_command(
                atlas,
                area_id,
                connection_id,
                field,
                first,
                description,
            )->0;
            let b = links::connection_command(
                later,
                area_id,
                connection_id,
                field,
                second,
                description,
            )->0;
            let held = connections_of(atlas.area(area_id)->0);
            &&& a.coalesce == b.coalesce
            &&& connections_written(
                connections_written(
                    connections_written(held, undoing::flat(a.redo)),
                    undoing::flat(b.redo),
                ),
                undoing::flat(stack::merged(a, b).undo),
            ) == held
        }),
{
    let a = links::connection_command(atlas, area_id, connection_id, field, first, description)->0;
    let b = links::connection_command(later, area_id, connection_id, field, second, description)->0;
    let area = atlas.area(area_id)->0;
    let current = area.connection(connection_id)->0;
    let held = connections_of(area);
    let inverse = links::connection_inverse(current, first);
    let op_a = AreaMutation::UpdateConnection { connection_id, body: first };
    let op_b = AreaMutation::UpdateConnection { connection_id, body: second };
    let back = AreaMutation::UpdateConnection { connection_id, body: inverse };
    undoing::lemma_flat_one(a.redo[0]);
    undoing::lemma_flat_one(b.redo[0]);
    undoing::lemma_flat_one(a.undo[0]);
    assert(a.redo =~= seq![a.redo[0]]);
    assert(b.redo =~= seq![b.redo[0]]);
    assert(a.undo =~= seq![a.undo[0]]);
    let once = connection_written(held, op_a);
    let twice = connection_written(once, op_b);
    lemma_one_connection_written(held, op_a);
    lemma_one_connection_written(once, op_b);
    lemma_one_connection_written(twice, back);
    assert(connection_updated(
        connection_updated(connection_updated(current@, first), second),
        inverse,
    ) == current@);
    assert(connection_written(twice, back) =~= held);
}

/// Moves of the two ends of a connection are two steps of the history: the one is not
/// merged into the other.
pub proof fn law_moves_of_different_ends_are_two_steps(
    area_id: AreaId,
    connection_id: ConnectionId,
    field: FieldId,
    first: ConnectionUpdates<Seq<char>, Seq<Point>>,
    second: ConnectionUpdates<Seq<char>, Seq<Point>>,
    undo: Seq<CommandView>,
    command: CommandView,
)
    requires
        first.endpoint_a is Some && first.endpoint_b is None,
        second.endpoint_a is None && second.endpoint_b is Some,
        undo.len() > 0,
        undo.last().coalesce == Some(links::connection_key(area_id, connection_id, field, first)),
        command.coalesce == Some(links::connection_key(area_id, connection_id, field, second)),
    ensures
        !stack::merges(undo, command),
        !stack::merges(seq![command], undo.last()),
{
    reveal_strlit("endpoint-a");
    reveal_strlit("endpoint-b");
    assert("endpoint-a"@[9] != "endpoint-b"@[9]);
}

} // verus!
