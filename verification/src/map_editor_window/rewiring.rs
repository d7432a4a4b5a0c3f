//! What edits of exits and connections do when they are carried out.
//!
//! Each law says which exits and connections there are afterwards, and that all others are as
//! they were.

use vstd::prelude::*;

use super::commands::{self, CommandView, FieldId};
use super::creation;
use super::joining;
use super::links::{self, WaypointPlan};
use super::model::{
    AreaId, AtlasCache, Connection, ConnectionId, ConnectionKind, ConnectionRouting, ConnectionUpdates, ExitCache,
    ExitDirection, ExitId, ExitUpdates, Point, RoomKey, RoomNumber, SegmentShape,
};
use super::mutation::{AreaMutation, OpView};
use super::relinking::ExitState;
use super::restoring;
use super::wiring::{self, ExitEntry, LinkState, Links};

verus! {

// ===== Carrying edits out =====

/// Whether a command turns exits and connections into what a relation allows, and leaves rooms
/// and drawings alone.
pub open spec fn leaves(
    command: CommandView,
    area_id: AreaId,
    before: Links,
    allows: spec_fn(Links) -> bool,
) -> bool {
    exists|after: Links| #[trigger] joining::rewires(command, area_id, before, after) && allows(after)
}

/// What a command of one mutation leaves of exits and connections.
proof fn lemma_leaves(
    command: CommandView,
    area_id: AreaId,
    ops: Seq<OpView>,
    before: Links,
    allows: spec_fn(Links) -> bool,
)
    requires
        command.redo.len() == 1,
        wiring::area_of(command.redo[0]) == area_id,
        forall|fresh: u128| #[trigger] restoring::step_ops(command.resolved_ids, command.redo[0], fresh)
            == ops,
        allows(wiring::all_links_written(before, area_id, ops)),
    ensures
        leaves(command, area_id, before, allows),
{
    joining::lemma_one_done(command, area_id, ops);
    let after = wiring::all_links_written(before, area_id, ops);
    assert(joining::rewires(command, area_id, before, after));
}

// ===== Connections =====

/// Whether a value is the one that an edit gives, or else the one that was there.
pub open spec fn takes<A>(now: A, edit: Option<A>, held: A) -> bool {
    (edit is Some ==> now == edit->0) && (edit is None ==> now == held)
}

/// Whether a connection has the values that an edit gives it, and its own besides.
pub open spec fn takes_updates(
    now: LinkState,
    held: LinkState,
    updates: ConnectionUpdates<Seq<char>, Seq<Point>>,
) -> bool {
    &&& now.id == held.id
    &&& takes(now.endpoint_a, updates.endpoint_a, held.endpoint_a)
    &&& updates.endpoint_b is Some ==> now.endpoint_b == updates.endpoint_b
    &&& updates.endpoint_b is None ==> now.endpoint_b == held.endpoint_b
    &&& takes(now.routing, updates.routing, held.routing)
    &&& takes(now.segment_shape, updates.segment_shape, held.segment_shape)
    &&& takes(now.corner, updates.corner, held.corner)
    &&& takes(now.route_points, updates.route_points, held.route_points)
    &&& takes(now.dash, updates.dash, held.dash)
    &&& takes(now.color, updates.color, held.color)
    &&& takes(now.thickness, updates.thickness, held.thickness)
}

/// Whether one connection was edited and nothing else.
pub open spec fn is_connection_edited(
    after: Links,
    before: Links,
    id: ConnectionId,
    updates: ConnectionUpdates<Seq<char>, Seq<Point>>,
) -> bool {
    &&& after.exits == before.exits
    &&& after.connections.dom() == before.connections.dom()
    &&& forall|other: ConnectionId|
        #![trigger after.connections[other]]
        before.connections.dom().contains(other) && other != id ==> after.connections[other]
            == before.connections[other]
    &&& before.connections.dom().contains(id) ==> takes_updates(
        after.connections[id],
        before.connections[id],
        updates,
    )
}

/// Whether a command edits one connection among exits and connections.
pub open spec fn edits_among(
    command: CommandView,
    area_id: AreaId,
    before: Links,
    id: ConnectionId,
    updates: ConnectionUpdates<Seq<char>, Seq<Point>>,
) -> bool {
    leaves(
        command,
        area_id,
        before,
        |after: Links| is_connection_edited(after, before, id, updates),
    )
}

/// Whether a command edits one connection and does nothing more; there is one exactly when the
/// connection is cached, and is not to get a second end that it does not have.
pub open spec fn edits_connection(
    command: Option<CommandView>,
    atlas: AtlasCache,
    area_id: AreaId,
    id: ConnectionId,
    updates: ConnectionUpdates<Seq<char>, Seq<Point>>,
) -> bool {
    &&& command is Some <==> (atlas.area(area_id) is Some && atlas.area(area_id)->0.connection(id) is Some
        && !(updates.endpoint_b is Some && atlas.area(area_id)->0.connection(id)->0.endpoint_b is None))
    &&& command is Some ==> joining::spares_rooms(command->0) && forall|before: Links| #[trigger]
        edits_among(command->0, area_id, before, id, updates)
}

/// An edit gives a connection its values: the fields that it names take them, and everything
/// else is as it was.
pub proof fn law_an_edit_gives_a_connection_its_values(
    atlas: AtlasCache,
    area_id: AreaId,
    id: ConnectionId,
    field: FieldId,
    updates: ConnectionUpdates<Seq<char>, Seq<Point>>,
    description: Seq<char>,
)
    ensures
        edits_connection(
            links::connection_command(atlas, area_id, id, field, updates, description),
            atlas,
            area_id,
            id,
            updates,
        ),
{
    let made = links::connection_command(atlas, area_id, id, field, updates, description);
    if let Some(command) = made {
        let op: OpView = AreaMutation::UpdateConnection { connection_id: id, body: updates };
        let ops = seq![op];
        assert forall|fresh: u128| #[trigger]
            restoring::step_ops(command.resolved_ids, command.redo[0], fresh) == ops by {}
        joining::lemma_spares_rooms(command, area_id, ops);
        assert forall|before: Links| #[trigger] edits_among(command, area_id, before, id, updates) by {
            wiring::lemma_one_link_written(before, area_id, op);
            let after = wiring::links_written(before, area_id, op);
            assert(after.connections.dom() =~= before.connections.dom());
            assert(is_connection_edited(after, before, id, updates));
            lemma_leaves(
                command,
                area_id,
                ops,
                before,
                |after: Links| is_connection_edited(after, before, id, updates),
            );
        }
    }
}

/// A removed waypoint is gone: the others are left in order, and the connection then follows
/// the points that are stored. A waypoint that the route has is refused only where the route
/// runs at right angles.
pub proof fn law_a_removed_waypoint_is_gone(
    atlas: AtlasCache,
    area_id: AreaId,
    id: ConnectionId,
    index: int,
)
    requires
        0 <= index,
    ensures
        ({
            let route = atlas.area(area_id)->0.connection(id)->0.route_points@;
            let plan = links::waypoint_plan(atlas, area_id, id, index);
            let left = match plan {
                WaypointPlan::Store(points) => points,
                WaypointPlan::Square(_, points, _) => points,
                WaypointPlan::Refuse => Seq::empty(),
            };
            &&& !(plan is Refuse) ==> atlas.area(area_id) is Some && atlas.area(area_id)->0.connection(id) is Some
                && index < route.len() && left.len() == route.len() - 1 && (forall|j: int|
                0 <= j < index ==> #[trigger] left[j] == route[j]) && (forall|j: int|
                index <= j < left.len() ==> #[trigger] left[j] == route[j + 1])
            &&& plan is Store ==> !links::is_active_orthogonal(atlas.area(area_id)->0.connection(id)->0)
            &&& plan is Refuse && atlas.area(area_id) is Some && atlas.area(area_id)->0.connection(id) is Some
                && index < route.len() ==> links::is_active_orthogonal(
                atlas.area(area_id)->0.connection(id)->0,
            )
        }),
        forall|points: Seq<Point>|
            edits_connection(
                #[trigger] links::waypoint_command(atlas, area_id, id, points),
                atlas,
                area_id,
                id,
                ConnectionUpdates {
                    routing: Some(ConnectionRouting::Manual),
                    route_points: Some(points),
                    ..ConnectionUpdates::none()
                },
            ),
{
    assert forall|points: Seq<Point>|
        edits_connection(
            #[trigger] links::waypoint_command(atlas, area_id, id, points),
            atlas,
            area_id,
            id,
            ConnectionUpdates {
                routing: Some(ConnectionRouting::Manual),
                route_points: Some(points),
                ..ConnectionUpdates::none()
            },
        ) by {
        law_an_edit_gives_a_connection_its_values(
            atlas,
            area_id,
            id,
            FieldId::RoutePoints,
            ConnectionUpdates {
                routing: Some(ConnectionRouting::Manual),
                route_points: Some(points),
                ..ConnectionUpdates::none()
            },
            "Delete connection waypoint"@,
        );
    }
}

/// Whether many connections were edited, each by its own edit, and nothing else.
pub open spec fn are_connections_edited(
    after: Links,
    before: Links,
    list: Seq<(ConnectionId, ConnectionUpdates<Seq<char>, Seq<Point>>)>,
) -> bool {
    &&& after.exits == before.exits
    &&& after.connections.dom() == before.connections.dom()
    &&& forall|id: ConnectionId|
        #![trigger after.connections[id]]
        before.connections.dom().contains(id) && (forall|i: int| 0 <= i < list.len() ==> (#[trigger] list[i]).0 != id)
            ==> after.connections[id] == before.connections[id]
    &&& forall|i: int|
        0 <= i < list.len() && before.connections.dom().contains((#[trigger] list[i]).0) ==> takes_updates(
            after.connections[list[i].0],
            before.connections[list[i].0],
            list[i].1,
        )
}

/// What edits of different connections leave.
proof fn lemma_connections_edited(
    before: Links,
    area_id: AreaId,
    list: Seq<(ConnectionId, ConnectionUpdates<Seq<char>, Seq<Point>>)>,
)
    requires
        forall|i: int, j: int| 0 <= i < j < list.len() ==> (#[trigger] list[i]).0 != (#[trigger] list[j]).0,
    ensures
        are_connections_edited(
            wiring::all_links_written(before, area_id, links::connection_writes(list)),
            before,
            list,
        ),
    decreases list.len(),
{
    let ops = links::connection_writes(list);
    let after = wiring::all_links_written(before, area_id, ops);
    if list.len() > 0 {
        let rest = list.drop_last();
        let at = list.len() - 1;
        lemma_connections_edited(before, area_id, rest);
        assert(ops.drop_last() =~= links::connection_writes(rest));
        let middle = wiring::all_links_written(before, area_id, links::connection_writes(rest));
        assert(after == wiring::links_written(middle, area_id, ops[at]));
        assert(after.connections.dom() =~= before.connections.dom());
        assert forall|i: int| 0 <= i < rest.len() implies #[trigger] rest[i] == list[i] by {}
        assert forall|id: ConnectionId|
            #![trigger after.connections[id]]
            before.connections.dom().contains(id) && (forall|i: int|
                0 <= i < list.len() ==> (#[trigger] list[i]).0 != id) implies after.connections[id]
            == before.connections[id] by {
            assert(list[at].0 != id);
            assert forall|i: int| 0 <= i < rest.len() implies (#[trigger] rest[i]).0 != id by {
                assert(rest[i] == list[i]);
            }
            assert(middle.connections[id] == before.connections[id]);
        }
        assert forall|i: int|
            0 <= i < list.len() && before.connections.dom().contains((#[trigger] list[i]).0) implies takes_updates(
            after.connections[list[i].0],
            before.connections[list[i].0],
            list[i].1,
        ) by {
            if i < at {
                assert(rest[i] == list[i]);
                assert(list[i].0 != list[at].0);
            } else {
                assert forall|j: int| 0 <= j < rest.len() implies (#[trigger] rest[j]).0 != list[at].0 by {
                    assert(rest[j] == list[j]);
                }
                assert(middle.connections[list[at].0] == before.connections[list[at].0]);
            }
        }
    }
}

/// A group of edits gives each connection its values, and nothing else changes. There is a
/// command exactly when there is an edit, and every edit is of a cached connection and gives
/// none a second end that it does not have.
pub proof fn law_a_group_of_edits_gives_connections_their_values(
    atlas: AtlasCache,
    area_id: AreaId,
    list: Seq<(ConnectionId, ConnectionUpdates<Seq<char>, Seq<Point>>)>,
    description: Seq<char>,
    before: Links,
)
    requires
        forall|i: int, j: int| 0 <= i < j < list.len() ==> (#[trigger] list[i]).0 != (#[trigger] list[j]).0,
    ensures
        ({
            let made = links::connections_command(atlas, area_id, list, description);
            &&& made is Some <==> (atlas.area(area_id) is Some && list.len() > 0 && forall|i: int|
                0 <= i < list.len() ==> {
                    &&& atlas.area(area_id)->0.connection((#[trigger] list[i]).0) is Some
                    &&& !(list[i].1.endpoint_b is Some && atlas.area(area_id)->0.connection(
                        list[i].0,
                    )->0.endpoint_b is None)
                })
            &&& made is Some ==> joining::spares_rooms(made->0) && leaves(
                made->0,
                area_id,
                before,
                |after: Links| are_connections_edited(after, before, list),
            )
        }),
{
    let made = links::connections_command(atlas, area_id, list, description);
    if let Some(area) = atlas.area(area_id) {
        assert forall|i: int| 0 <= i < list.len() implies links::editable(area, #[trigger] list[i]) == (
        area.connection(list[i].0) is Some && !(list[i].1.endpoint_b is Some && area.connection(
            list[i].0,
        )->0.endpoint_b is None)) by {}
        if made is None && list.len() > 0 {
            let i = choose|i: int| 0 <= i < list.len() && !links::editable(area, #[trigger] list[i]);
            assert(!links::editable(area, list[i]));
        }
    }
    if let Some(command) = made {
        let ops = links::connection_writes(list);
        assert forall|fresh: u128| #[trigger]
            restoring::step_ops(command.resolved_ids, command.redo[0], fresh) == ops by {}
        assert forall|i: int| 0 <= i < ops.len() implies joining::is_of_links(#[trigger] ops[i]) by {}
        joining::lemma_spares_rooms(command, area_id, ops);
        lemma_connections_edited(before, area_id, list);
        lemma_leaves(
            command,
            area_id,
            ops,
            before,
            |after: Links| are_connections_edited(after, before, list),
        );
    }
}

// ===== Exits =====

/// Whether exits and connections are as they were but for one exit, which stays where it is.
pub open spec fn is_exit_edited(after: Links, before: Links, id: ExitId, exit: ExitState) -> bool {
    &&& after.connections == before.connections
    &&& after.exits.dom() == before.exits.dom()
    &&& forall|other: ExitId|
        #![trigger after.exits[other]]
        before.exits.dom().contains(other) && other != id ==> after.exits[other] == before.exits[other]
    &&& before.exits.dom().contains(id) ==> after.exits[id] == (before.exits[id].0, exit)
}

/// Whether a command makes another exit of a cached one, and does nothing more.
pub open spec fn makes_exit(command: CommandView, key: RoomKey, exit: ExitCache, made: ExitState) -> bool {
    &&& joining::spares_rooms(command)
    &&& forall|before: Links|
        #![trigger before.exits.dom()]
        before.exits.dom().contains(exit.id) && before.exits[exit.id].1 == exit@ ==> leaves(
            command,
            key.area_id,
            before,
            |after: Links| is_exit_edited(after, before, exit.id, made),
        )
}

/// An exit with the values of an edited snapshot: what the snapshot gives, and for a path or a
/// command that it does not give, the one that was there. A destination that it does not give
/// at all is taken away, unless it was withheld.
pub open spec fn with_values(exit: ExitState, changed: ExitUpdates<Seq<char>>) -> ExitState {
    let keeps = changed.to_area_id is Some || changed.to_room_number is Some || changed.to_direction is Some
        || exit.to_unknown;
    ExitCache {
        is_secret: match changed.is_secret {
            Some(value) => value,
            None => exit.is_secret,
        },
        from_direction: match changed.from_direction {
            Some(value) => value,
            None => exit.from_direction,
        },
        to_area_id: if changed.to_area_id is None && keeps {
            exit.to_area_id
        } else {
            changed.to_area_id
        },
        to_room_number: if changed.to_room_number is None && keeps {
            exit.to_room_number
        } else {
            changed.to_room_number
        },
        to_direction: if changed.to_direction is None && keeps {
            exit.to_direction
        } else {
            changed.to_direction
        },
        path: if changed.path is None {
            exit.path
        } else {
            changed.path
        },
        command: if changed.command is None {
            exit.command
        } else {
            changed.command
        },
        is_hidden: match changed.is_hidden {
            Some(value) => value,
            None => exit.is_hidden,
        },
        is_closed: match changed.is_closed {
            Some(value) => value,
            None => exit.is_closed,
        },
        is_locked: match changed.is_locked {
            Some(value) => value,
            None => exit.is_locked,
        },
        weight: match changed.weight {
            Some(value) => value,
            None => exit.weight,
        },
        ..exit
    }
}

/// An edit gives an exit its values, and everything else is as it was.
pub proof fn law_an_edit_gives_an_exit_its_values(
    exit: ExitCache,
    key: RoomKey,
    field: FieldId,
    changed: ExitUpdates<Seq<char>>,
)
    ensures
        makes_exit(
            links::exit_field_command(exit, key, exit.id, field, changed),
            key,
            exit,
            with_values(exit@, changed),
        ),
{
    let command = links::exit_field_command(exit, key, exit.id, field, changed);
    let body = links::with_clear_to(changed, exit.to_unknown);
    let op: OpView = AreaMutation::UpdateExit { exit_id: exit.id, body };
    let ops = seq![op];
    let made = with_values(exit@, changed);
    assert forall|fresh: u128| #[trigger] restoring::step_ops(command.resolved_ids, command.redo[0], fresh)
        == ops by {}
    joining::lemma_spares_rooms(command, key.area_id, ops);
    assert forall|before: Links|
        #![trigger before.exits.dom()]
        before.exits.dom().contains(exit.id) && before.exits[exit.id].1 == exit@ implies leaves(
        command,
        key.area_id,
        before,
        |after: Links| is_exit_edited(after, before, exit.id, made),
    ) by {
        wiring::lemma_one_link_written(before, key.area_id, op);
        let after = wiring::links_written(before, key.area_id, op);
        assert(after.exits.dom() =~= before.exits.dom());
        assert(is_exit_edited(after, before, exit.id, made));
        lemma_leaves(
            command,
            key.area_id,
            ops,
            before,
            |after: Links| is_exit_edited(after, before, exit.id, made),
        );
    }
}

/// Whether an exit and a connection were edited and nothing else.
pub open spec fn are_both_edited(
    after: Links,
    before: Links,
    id: ExitId,
    exit: ExitState,
    connection_id: ConnectionId,
    updates: ConnectionUpdates<Seq<char>, Seq<Point>>,
) -> bool {
    &&& is_exit_edited(Links { connections: before.connections, ..after }, before, id, exit)
    &&& is_connection_edited(Links { exits: before.exits, ..after }, before, connection_id, updates)
}

/// An edit of an exit and its end of a connection gives both their values.
#[verifier::rlimit(60)]
#[verifier::spinoff_prover]
pub proof fn law_an_edit_gives_an_exit_and_its_end_their_values(
    exit: ExitCache,
    current: Connection,
    area_id: AreaId,
    changed: ExitUpdates<Seq<char>>,
    connection_id: ConnectionId,
    updates: ConnectionUpdates<Seq<char>, Seq<Point>>,
    before: Links,
)
    requires
        before.exits.dom().contains(exit.id),
        before.exits[exit.id].1 == exit@,
    ensures
        ({
            let command = links::exit_endpoint_command(
                exit,
                current,
                area_id,
                exit.id,
                changed,
                connection_id,
                updates,
            );
            joining::spares_rooms(command) && leaves(
                command,
                area_id,
                before,
                |after: Links|
                    are_both_edited(
                        after,
                        before,
                        exit.id,
                        with_values(exit@, changed),
                        connection_id,
                        updates,
                    ),
            )
        }),
{
    let command = links::exit_endpoint_command(
        exit,
        current,
        area_id,
        exit.id,
        changed,
        connection_id,
        updates,
    );
    let body = links::with_clear_to(changed, exit.to_unknown);
    let first: OpView = AreaMutation::UpdateExit { exit_id: exit.id, body };
    let second: OpView = AreaMutation::UpdateConnection { connection_id, body: updates };
    let ops = seq![first, second];
    let made = with_values(exit@, changed);
    assert forall|fresh: u128| #[trigger] restoring::step_ops(command.resolved_ids, command.redo[0], fresh)
        == ops by {}
    joining::lemma_spares_rooms(command, area_id, ops);
    assert(ops =~= seq![first] + seq![second]);
    wiring::lemma_links_written(before, area_id, seq![first], seq![second]);
    wiring::lemma_one_link_written(before, area_id, first);
    let middle = wiring::links_written(before, area_id, first);
    wiring::lemma_one_link_written(middle, area_id, second);
    let after = wiring::links_written(middle, area_id, second);
    assert(after.exits.dom() =~= before.exits.dom());
    assert(after.connections.dom() =~= before.connections.dom());
    assert(are_both_edited(after, before, exit.id, made, connection_id, updates));
    lemma_leaves(
        command,
        area_id,
        ops,
        before,
        |after: Links| are_both_edited(after, before, exit.id, made, connection_id, updates),
    );
}

/// Whether connections are those that were there, but for one that went with its last exit.
pub open spec fn keep_carried(after: Links, before: Links) -> bool {
    &&& forall|id: ConnectionId|
        #![trigger after.connections.dom().contains(id)]
        after.connections.dom().contains(id) <==> before.connections.dom().contains(id) && (
        wiring::is_carried(before.exits, id) ==> wiring::is_carried(after.exits, id))
    &&& forall|id: ConnectionId|
        #![trigger after.connections[id]]
        after.connections.dom().contains(id) ==> after.connections[id] == before.connections[id]
}

/// A deleted exit is gone, and its connection goes with its last exit. An exit is deleted
/// exactly when it is cached and its destination was not withheld.
pub proof fn law_a_deleted_exit_is_gone(atlas: AtlasCache, key: RoomKey, exit_id: ExitId, before: Links)
    ensures
        ({
            let made = links::delete_exit_command(atlas, key, exit_id);
            &&& made is Some <==> (links::cached_exit(atlas, key, exit_id) is Some
                && !links::cached_exit(atlas, key, exit_id)->0.to_unknown)
            &&& made is Some ==> joining::spares_rooms(made->0) && leaves(
                made->0,
                key.area_id,
                before,
                |after: Links|
                    after.exits == before.exits.remove(exit_id) && keep_carried(after, before),
            )
        }),
{
    if let Some(command) = links::delete_exit_command(atlas, key, exit_id) {
        let op: OpView = AreaMutation::DeleteExit { exit_id };
        let ops = seq![op];
        commands::lemma_slots_for_all(
            command.redo + command.undo,
            0,
        );
        assert forall|fresh: u128| #[trigger]
            restoring::step_ops(command.resolved_ids, command.redo[0], fresh) == ops by {}
        joining::lemma_spares_rooms(command, key.area_id, ops);
        wiring::lemma_one_link_written(before, key.area_id, op);
        lemma_leaves(
            command,
            key.area_id,
            ops,
            before,
            |after: Links| after.exits == before.exits.remove(exit_id) && keep_carried(after, before),
        );
    }
}

/// Whether a link was taken out: the connection and every exit on it, and nothing else.
pub open spec fn is_link_gone(after: Links, before: Links, id: ConnectionId) -> bool {
    &&& after.connections == before.connections.remove(id)
    &&& forall|exit_id: ExitId|
        #![trigger after.exits.dom().contains(exit_id)]
        after.exits.dom().contains(exit_id) <==> before.exits.dom().contains(exit_id)
            && before.exits[exit_id].1.connection_id != id
    &&& forall|exit_id: ExitId|
        #![trigger after.exits[exit_id]]
        after.exits.dom().contains(exit_id) ==> after.exits[exit_id] == before.exits[exit_id]
}

/// A deleted link is gone with all its exits. It is deleted exactly when it is cached.
pub proof fn law_a_deleted_link_is_gone(
    atlas: AtlasCache,
    area_id: AreaId,
    id: ConnectionId,
    before: Links,
)
    ensures
        ({
            let made = links::delete_connection_command(atlas, area_id, id);
            &&& made is Some <==> (atlas.area(area_id) is Some && atlas.area(area_id)->0.connection(
                id,
            ) is Some)
            &&& made is Some ==> joining::spares_rooms(made->0) && leaves(
                made->0,
                area_id,
                before,
                |after: Links| is_link_gone(after, before, id),
            )
        }),
{
    if let Some(command) = links::delete_connection_command(atlas, area_id, id) {
        let op: OpView = AreaMutation::DeleteLink { connection_id: id };
        let ops = seq![op];
        assert forall|fresh: u128| #[trigger]
            restoring::step_ops(command.resolved_ids, command.redo[0], fresh) == ops by {}
        joining::lemma_spares_rooms(command, area_id, ops);
        wiring::lemma_one_link_written(before, area_id, op);
        assert(is_link_gone(wiring::links_written(before, area_id, op), before, id));
        lemma_leaves(command, area_id, ops, before, |after: Links| is_link_gone(after, before, id));
    }
}

/// Whether one exit was moved onto another connection, which is there, and nothing else.
pub open spec fn is_exit_moved(after: Links, before: Links, exit_id: ExitId, id: ConnectionId) -> bool {
    &&& is_exit_edited(
        Links { connections: before.connections, ..after },
        before,
        exit_id,
        ExitCache { connection_id: id, ..before.exits[exit_id].1 },
    )
    &&& before.exits.dom().contains(exit_id) ==> after.connections.dom() == before.connections.dom().insert(id)
    &&& forall|other: ConnectionId|
        #![trigger after.connections[other]]
        before.connections.dom().contains(other) ==> after.connections[other] == before.connections[other]
}

/// An unlinked exit gets a connection of its own, and nothing else changes.
pub proof fn law_an_unlinked_exit_stands_alone(
    area_id: AreaId,
    exit_id: ExitId,
    old_id: ConnectionId,
    new_id: ConnectionId,
    before: Links,
)
    ensures
        ({
            let command = links::unlink_command(area_id, exit_id, old_id, new_id);
            joining::spares_rooms(command) && leaves(
                command,
                area_id,
                before,
                |after: Links| is_exit_moved(after, before, exit_id, new_id),
            )
        }),
{
    let command = links::unlink_command(area_id, exit_id, old_id, new_id);
    let op: OpView = AreaMutation::Unlink { exit_id, new_connection_id: new_id };
    let ops = seq![op];
    assert forall|fresh: u128| #[trigger] restoring::step_ops(command.resolved_ids, command.redo[0], fresh)
        == ops by {}
    joining::lemma_spares_rooms(command, area_id, ops);
    wiring::lemma_one_link_written(before, area_id, op);
    let after = wiring::links_written(before, area_id, op);
    assert(after.exits.dom() =~= before.exits.dom());
    if before.exits.dom().contains(exit_id) {
        assert(after.connections.dom() =~= before.connections.dom().insert(new_id));
    }
    assert(is_exit_moved(after, before, exit_id, new_id));
    lemma_leaves(
        command,
        area_id,
        ops,
        before,
        |after: Links| is_exit_moved(after, before, exit_id, new_id),
    );
}

/// Whether the exits of one connection were moved onto another, and the connection taken out.
pub open spec fn is_paired(after: Links, before: Links, keep: ConnectionId, merge: ConnectionId) -> bool {
    &&& after.connections == before.connections.remove(merge)
    &&& after.exits.dom() == before.exits.dom()
    &&& forall|id: ExitId|
        #![trigger after.exits[id]]
        before.exits.dom().contains(id) ==> if before.exits[id].1.connection_id == merge {
            after.exits[id] == (before.exits[id].0, ExitCache { connection_id: keep, ..before.exits[id].1 })
        } else {
            after.exits[id] == before.exits[id]
        }
}

/// Paired connections share one: the exits of the second are on the first, and the second is
/// gone. They are paired exactly when the second is cached and has an exit.
pub proof fn law_paired_connections_share_one(
    atlas: AtlasCache,
    area_id: AreaId,
    keep: ConnectionId,
    merge: ConnectionId,
    before: Links,
)
    ensures
        ({
            let made = links::pair_command(atlas, area_id, keep, merge);
            &&& made is Some <==> (atlas.area(area_id) is Some && atlas.area(area_id)->0.connection(
                merge,
            ) is Some && links::members(atlas.area(area_id)->0, merge).len() > 0)
            &&& made is Some ==> joining::spares_rooms(made->0) && leaves(
                made->0,
                area_id,
                before,
                |after: Links| is_paired(after, before, keep, merge),
            )
        }),
{
    if let Some(command) = links::pair_command(atlas, area_id, keep, merge) {
        let op: OpView = AreaMutation::Pair { keep_connection_id: keep, merge_connection_id: merge };
        let ops = seq![op];
        assert forall|fresh: u128| #[trigger]
            restoring::step_ops(command.resolved_ids, command.redo[0], fresh) == ops by {}
        joining::lemma_spares_rooms(command, area_id, ops);
        wiring::lemma_one_link_written(before, area_id, op);
        let after = wiring::links_written(before, area_id, op);
        assert(after.exits.dom() =~= before.exits.dom());
        assert(is_paired(after, before, keep, merge));
        lemma_leaves(command, area_id, ops, before, |after: Links| is_paired(after, before, keep, merge));
    }
}

/// Whether an exit leads back along another: from the room that it leads to, into the room
/// that it leaves, through the same doors, without its path and its command.
pub open spec fn leads_back(
    back: ExitEntry,
    id: ExitId,
    connection_id: ConnectionId,
    area_id: AreaId,
    from_room: RoomNumber,
    exit: ExitCache,
    direction: ExitDirection,
    cleared: bool,
) -> bool {
    &&& back.0.area_id == area_id
    &&& Some(back.0.room_number) == exit.to_room_number
    &&& back.1.id == id
    &&& back.1.connection_id == connection_id
    &&& back.1.from_direction == direction
    &&& back.1.to_direction == Some(exit.from_direction)
    &&& wiring::leads_to(back.1, RoomKey { area_id, room_number: from_room })
    &&& back.1.is_hidden == exit.is_hidden && back.1.is_closed == exit.is_closed && back.1.is_locked
        == exit.is_locked
    &&& back.1.weight == exit.weight
    &&& back.1.path is None && back.1.command is None
    &&& back.1.is_secret == (cleared && exit.is_secret)
    &&& !back.1.to_unknown
}

/// Whether one exit was added, on a connection that was there.
pub open spec fn is_exit_added(after: Links, before: Links, id: ExitId, connection_id: ConnectionId) -> bool {
    &&& after.exits.dom() == before.exits.dom().insert(id)
    &&& forall|other: ExitId|
        #![trigger after.exits[other]]
        before.exits.dom().contains(other) && other != id ==> after.exits[other] == before.exits[other]
    &&& before.connections.dom().contains(connection_id) ==> after.connections == before.connections
}

/// A return exit leads back along a one-way link, on the same connection. There is one unless
/// the room that the link leads to has an exit in that direction, or one that leads back.
pub proof fn law_a_return_exit_leads_back(
    atlas: AtlasCache,
    area_id: AreaId,
    connection_id: ConnectionId,
    back: ExitDirection,
    new_id: ExitId,
    before: Links,
)
    ensures
        links::return_plan(atlas, area_id, connection_id) matches Some(plan) ==> {
            let made = links::return_command(atlas, area_id, connection_id, plan, back, new_id);
            &&& made is None <==> exists|i: int|
                0 <= i < plan.destination.exits@.len() && ((
                #[trigger] plan.destination.exits@[i]).from_direction == back || wiring::leads_to(
                    plan.destination.exits@[i]@,
                    RoomKey { area_id, room_number: plan.from_room },
                ))
            &&& made is Some ==> joining::spares_rooms(made->0) && leaves(
                made->0,
                area_id,
                before,
                |after: Links|
                    is_exit_added(after, before, new_id, connection_id) && leads_back(
                        after.exits[new_id],
                        new_id,
                        connection_id,
                        area_id,
                        plan.from_room,
                        plan.exit,
                        back,
                        atlas.area(area_id)->0.access.is_cleared_for_secrets,
                    ),
            )
        },
{
    if let Some(plan) = links::return_plan(atlas, area_id, connection_id) {
        let cleared = atlas.area(area_id)->0.access.is_cleared_for_secrets;
        let made = links::return_command(atlas, area_id, connection_id, plan, back, new_id);
        let exits = plan.destination.exits@;
        let home = RoomKey { area_id, room_number: plan.from_room };
        if made is None {
            let i = choose|i: int|
                0 <= i < exits.len() && ((#[trigger] exits[i]).from_direction == back || (
                exits[i].to_area_id == Some(area_id) && exits[i].to_room_number == Some(plan.from_room)));
            assert(exits[i].from_direction == back || wiring::leads_to(exits[i]@, home));
        }
        if let Some(command) = made {
            let body = links::return_args(
                plan.exit,
                area_id,
                connection_id,
                plan.from_room,
                back,
                new_id,
                cleared,
            );
            let op: OpView = AreaMutation::CreateExit { room_number: plan.exit.to_room_number->0, body };
            let ops = seq![op];
            assert forall|i: int| 0 <= i < exits.len() implies (#[trigger] exits[i]).from_direction != back
                && !wiring::leads_to(exits[i]@, home) by {}
            assert forall|fresh: u128| #[trigger]
                restoring::step_ops(command.resolved_ids, command.redo[0], fresh) == ops by {}
            joining::lemma_spares_rooms(command, area_id, ops);
            wiring::lemma_one_link_written(before, area_id, op);
            let after = wiring::links_written(before, area_id, op);
            assert(after.exits.dom() =~= before.exits.dom().insert(new_id));
            lemma_leaves(
                command,
                area_id,
                ops,
                before,
                |after: Links|
                    is_exit_added(after, before, new_id, connection_id) && leads_back(
                        after.exits[new_id],
                        new_id,
                        connection_id,
                        area_id,
                        plan.from_room,
                        plan.exit,
                        back,
                        cleared,
                    ),
            );
        }
    }
}

/// A link that can be given a return exit has one exit, which leads to a room of its own area.
pub proof fn law_only_a_one_way_link_can_be_answered(
    atlas: AtlasCache,
    area_id: AreaId,
    connection_id: ConnectionId,
)
    ensures
        ({
            let area = atlas.area(area_id)->0;
            let list = links::members(area, connection_id);
            let made = links::return_plan(atlas, area_id, connection_id);
            &&& made is Some <==> {
                &&& atlas.area(area_id) is Some
                &&& area.connection(connection_id) is Some
                &&& area.connection(connection_id)->0.kind != ConnectionKind::SelfLoop
                &&& list.len() == 1
                &&& !list[0].1.to_unknown
                &&& list[0].1.to_area_id == Some(area_id)
                &&& list[0].1.to_room_number is Some
                &&& area.room(list[0].1.to_room_number->0) is Some
            }
            &&& made matches Some(plan) ==> list[0] == (plan.from_room, plan.exit) && area.room(
                plan.exit.to_room_number->0,
            ) == Some(plan.destination)
        }),
{
}

// ===== Edits in words =====

/// Whether a command makes another connection of a cached one, and does nothing more; there is
/// one exactly when the connection is cached.
pub open spec fn makes_connection(
    command: Option<CommandView>,
    atlas: AtlasCache,
    area_id: AreaId,
    id: ConnectionId,
    made: spec_fn(LinkState) -> LinkState,
) -> bool {
    &&& command is Some <==> (atlas.area(area_id) is Some && atlas.area(area_id)->0.connection(id) is Some)
    &&& command is Some ==> joining::spares_rooms(command->0) && forall|before: Links|
        #![trigger before.connections.dom().contains(id)]
        before.connections.dom().contains(id) ==> joining::rewires(
            command->0,
            area_id,
            before,
            Links { connections: before.connections.insert(id, made(before.connections[id])), ..before },
        )
}

/// An edit that leaves the second end alone makes the connection that its values describe.
pub(crate) proof fn lemma_makes_connection(
    atlas: AtlasCache,
    area_id: AreaId,
    id: ConnectionId,
    field: FieldId,
    updates: ConnectionUpdates<Seq<char>, Seq<Point>>,
    description: Seq<char>,
    made: spec_fn(LinkState) -> LinkState,
)
    requires
        updates.endpoint_b is None,
        forall|link: LinkState| takes_updates(#[trigger] made(link), link, updates),
    ensures
        makes_connection(
            links::connection_command(atlas, area_id, id, field, updates, description),
            atlas,
            area_id,
            id,
            made,
        ),
{
    let command = links::connection_command(atlas, area_id, id, field, updates, description);
    law_an_edit_gives_a_connection_its_values(atlas, area_id, id, field, updates, description);
    if command is Some {
        assert forall|before: Links|
            #![trigger before.connections.dom().contains(id)]
            before.connections.dom().contains(id) implies joining::rewires(
            command->0,
            area_id,
            before,
            Links { connections: before.connections.insert(id, made(before.connections[id])), ..before },
        ) by {
            assert(edits_among(command->0, area_id, before, id, updates));
            let after = choose|after: Links| #[trigger]
                joining::rewires(command->0, area_id, before, after) && is_connection_edited(
                    after,
                    before,
                    id,
                    updates,
                );
            let link = before.connections[id];
            assert(takes_updates(made(link), link, updates));
            assert(takes_updates(after.connections[id], link, updates));
            assert(after.connections[id] == made(link));
            let wanted = Links { connections: before.connections.insert(id, made(link)), ..before };
            assert(after.connections =~= wanted.connections) by {
                assert forall|other: ConnectionId|
                    #![trigger after.connections[other]]
                    after.connections.dom().contains(other) implies after.connections[other]
                    == wanted.connections[other] by {}
            }
            assert(after == wanted);
        }
    }
}

/// Whether a command stores an accepted route together with its mode: the connection then
/// follows the points at right angles, automatically.
pub open spec fn routes_automatically(
    command: Option<CommandView>,
    atlas: AtlasCache,
    area_id: AreaId,
    id: ConnectionId,
    points: Seq<Point>,
) -> bool {
    makes_connection(
        command,
        atlas,
        area_id,
        id,
        |link: LinkState|
            super::model::ConnectionArgs {
                routing: ConnectionRouting::Automatic,
                segment_shape: SegmentShape::Orthogonal,
                route_points: points,
                ..link
            },
    )
}

/// An accepted route is stored with its mode.
pub(crate) proof fn lemma_routes_automatically(
    atlas: AtlasCache,
    area_id: AreaId,
    id: ConnectionId,
    points: Seq<Point>,
    updates: ConnectionUpdates<Seq<char>, Seq<Point>>,
    description: Seq<char>,
)
    requires
        updates == (ConnectionUpdates {
            routing: Some(ConnectionRouting::Automatic),
            segment_shape: Some(SegmentShape::Orthogonal),
            route_points: Some(points),
            ..ConnectionUpdates::none()
        }),
    ensures
        routes_automatically(
            links::connection_command(
                atlas,
                area_id,
                id,
                FieldId::RoutePoints,
                updates,
                description,
            ),
            atlas,
            area_id,
            id,
            points,
        ),
{
    lemma_makes_connection(
        atlas,
        area_id,
        id,
        FieldId::RoutePoints,
        updates,
        description,
        |link: LinkState|
            super::model::ConnectionArgs {
                routing: ConnectionRouting::Automatic,
                segment_shape: SegmentShape::Orthogonal,
                route_points: points,
                ..link
            },
    );
}

// ===== The default exit =====

/// Whether a command adds a plain exit that leads nowhere to a room, and does nothing more.
/// `fresh` holds the identity that the exit gets.
pub open spec fn adds_plain_exit(command: CommandView, key: RoomKey) -> bool {
    forall|fresh: Seq<u128>, limit: int, before: Links|
        #![trigger super::doing::redo_batches(command, fresh, limit), before.exits.dom()]
        limit > 0 && fresh.len() > 0 ==> is_plain_exit_added(
            wiring::links_staged(before, super::doing::redo_batches(command, fresh, limit)),
            before,
            key,
            ExitId(fresh[0]),
        )
}

/// Whether a plain exit that leads nowhere was added to a room.
pub open spec fn is_plain_exit_added(after: Links, before: Links, key: RoomKey, id: ExitId) -> bool {
    &&& after.exits.dom() == before.exits.dom().insert(id)
    &&& forall|other: ExitId|
        #![trigger after.exits[other]]
        before.exits.dom().contains(other) && other != id ==> after.exits[other] == before.exits[other]
    &&& after.exits[id].0 == key
    &&& after.exits[id].1 == joining::new_exit(
        id,
        after.exits[id].1.connection_id,
        ExitDirection::Special,
        None,
        None,
    )
    &&& forall|other: ConnectionId|
        #![trigger after.connections[other]]
        before.connections.dom().contains(other) ==> after.connections.dom().contains(other)
            && after.connections[other] == before.connections[other]
}

/// A default exit is plain and leads nowhere, and nothing else changes.
pub proof fn law_a_default_exit_is_plain(area_id: AreaId, room_number: RoomNumber)
    ensures
        adds_plain_exit(
            creation::default_exit_command(area_id, room_number),
            RoomKey { area_id, room_number },
        ),
{
    let command = creation::default_exit_command(area_id, room_number);
    let key = RoomKey { area_id, room_number };
    assert forall|fresh: Seq<u128>, limit: int, before: Links|
        #![trigger super::doing::redo_batches(command, fresh, limit), before.exits.dom()]
        limit > 0 && fresh.len() > 0 implies is_plain_exit_added(
        wiring::links_staged(before, super::doing::redo_batches(command, fresh, limit)),
        before,
        key,
        ExitId(fresh[0]),
    ) by {
        wiring::lemma_one_mutation(before, command, super::commands::Direction::Redo, fresh, limit);
        let ops = restoring::step_ops(command.resolved_ids, command.redo[0], fresh[0]);
        let body = super::model::ExitArgs { id: Some(ExitId(fresh[0])), ..creation::default_exit() };
        let op: OpView = AreaMutation::CreateExit { room_number, body };
        assert(ops =~= seq![op]);
        wiring::lemma_one_link_written(before, area_id, op);
        let after = wiring::links_written(before, area_id, op);
        assert(after.exits.dom() =~= before.exits.dom().insert(ExitId(fresh[0])));
    }
}

} // verus!
