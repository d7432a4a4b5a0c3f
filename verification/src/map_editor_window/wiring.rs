//! What the writes of a command do to exits and connections.
//!
//! The model holds the exits of every cached area, each with the room it leaves, and
//! the connections that they share.

use vstd::prelude::*;

use super::commands::{self, CommandView, Direction};
use super::compile::{self, BatchView, CompiledView};
use super::links;
use super::model::{
    AreaCache, AreaId, AtlasCache, Connection, ConnectionArgs, ConnectionId, ConnectionUpdates, ExitArgs, ExitCache,
    ExitId, Point, RoomCache, RoomKey,
};
use super::mutation::{self, AreaMutation, Mutation, MutationView, OpView};
use super::relinking::{self, ExitState};
use super::restoring;
use super::undoing;
use crate::list;

verus! {

// ===== The model =====

/// A connection as it is kept: by its body. Its kind follows from its exits.
pub type LinkState = ConnectionArgs<Seq<char>, Seq<Point>>;

/// An exit as it is kept: with the room it leaves.
pub type ExitEntry = (RoomKey, ExitState);

/// Exits and connections.
#[verifier::ext_equal]
pub struct Links {
    pub exits: Map<ExitId, ExitEntry>,
    pub connections: Map<ConnectionId, LinkState>,
}

/// A connection after an update: the fields it touches take its values. An update
/// cannot take the second end away.
pub open spec fn link_updated(link: LinkState, updates: ConnectionUpdates<Seq<char>, Seq<Point>>) -> LinkState {
    ConnectionArgs {
        id: link.id,
        endpoint_a: undoing::left(updates.endpoint_a, link.endpoint_a),
        endpoint_b: relinking::merged(updates.endpoint_b, link.endpoint_b),
        routing: undoing::left(updates.routing, link.routing),
        segment_shape: undoing::left(updates.segment_shape, link.segment_shape),
        corner: undoing::left(updates.corner, link.corner),
        route_points: undoing::left(updates.route_points, link.route_points),
        dash: undoing::left(updates.dash, link.dash),
        color: undoing::left(updates.color, link.color),
        thickness: undoing::left(updates.thickness, link.thickness),
    }
}

/// Whether an exit is on a connection.
pub open spec fn is_carried(exits: Map<ExitId, ExitEntry>, id: ConnectionId) -> bool {
    exists|exit_id: ExitId|
        exits.dom().contains(exit_id) && (#[trigger] exits[exit_id]).1.connection_id == id
}

/// The connections that are left with other exits: one goes with its last exit.
pub open spec fn left_carried(links: Links, exits: Map<ExitId, ExitEntry>) -> Map<ConnectionId, LinkState> {
    links.connections.restrict(
        Set::new(|id: ConnectionId| is_carried(links.exits, id) ==> is_carried(exits, id)),
    )
}

/// The connections with one of the given identity. What is in one that was not there is
/// left open.
pub open spec fn with_connection(connections: Map<ConnectionId, LinkState>, id: ConnectionId) -> Map<
    ConnectionId,
    LinkState,
> {
    if connections.dom().contains(id) {
        connections
    } else {
        connections.insert(id, ConnectionArgs { id, ..connections[id] })
    }
}

/// Whether a connection is there or an exit is on it.
pub open spec fn is_used(links: Links, id: ConnectionId) -> bool {
    links.connections.dom().contains(id) || is_carried(links.exits, id)
}

/// The connection that a new exit is put on: the one that the write names, or else one
/// that nothing uses.
pub open spec fn new_exit_connection(links: Links, body: ExitArgs<Seq<char>>) -> ConnectionId {
    match (body.connection_id, body.new_connection_id) {
        (Some(id), _) => id,
        (None, Some(id)) => id,
        (None, None) => choose|id: ConnectionId| !is_used(links, id),
    }
}

/// An exit that a write creates: not secret unless it says so.
pub open spec fn created_exit(id: ExitId, connection_id: ConnectionId, body: ExitArgs<Seq<char>>) -> ExitState {
    ExitCache {
        id,
        connection_id,
        from_direction: body.from_direction,
        to_area_id: body.to_area_id,
        to_room_number: body.to_room_number,
        to_direction: body.to_direction,
        path: body.path,
        is_hidden: body.is_hidden,
        is_closed: body.is_closed,
        is_locked: body.is_locked,
        weight: body.weight,
        command: body.command,
        is_secret: undoing::left(body.is_secret, false),
        to_unknown: false,
    }
}

/// Whether an exit leads to a room.
pub open spec fn leads_to(exit: ExitState, key: RoomKey) -> bool {
    exit.to_area_id == Some(key.area_id) && exit.to_room_number == Some(key.room_number)
}

/// An exit without its destination.
pub open spec fn unhooked(exit: ExitState) -> ExitState {
    ExitCache { to_area_id: None, to_room_number: None, to_direction: None, ..exit }
}

/// The exits that are left without a room: its own exits go, and those that led to it
/// lose their destination.
pub open spec fn without_room(exits: Map<ExitId, ExitEntry>, key: RoomKey) -> Map<ExitId, ExitEntry> {
    Map::new(
        |id: ExitId| exits.dom().contains(id) && exits[id].0 != key,
        |id: ExitId|
            if leads_to(exits[id].1, key) {
                (exits[id].0, unhooked(exits[id].1))
            } else {
                exits[id]
            },
    )
}

/// The exits that are left without a connection.
pub open spec fn without_link(exits: Map<ExitId, ExitEntry>, connection_id: ConnectionId) -> Map<ExitId, ExitEntry> {
    Map::new(
        |id: ExitId| exits.dom().contains(id) && exits[id].1.connection_id != connection_id,
        |id: ExitId| exits[id],
    )
}

/// The exits with those of one connection moved onto another.
pub open spec fn moved_onto(exits: Map<ExitId, ExitEntry>, keep: ConnectionId, merge: ConnectionId) -> Map<
    ExitId,
    ExitEntry,
> {
    Map::new(
        |id: ExitId| exits.dom().contains(id),
        |id: ExitId|
            if exits[id].1.connection_id == merge {
                (exits[id].0, ExitCache { connection_id: keep, ..exits[id].1 })
            } else {
                exits[id]
            },
    )
}

/// What a write to an area leaves of exits and connections. A write to what is not
/// there does nothing.
pub open spec fn links_written(links: Links, area_id: AreaId, op: OpView) -> Links {
    match op {
        AreaMutation::DeleteRoom { room_number } => {
            let exits = without_room(links.exits, RoomKey { area_id, room_number });
            Links { exits, connections: left_carried(links, exits) }
        },
        AreaMutation::CreateExit { room_number, body } => match body.id {
            Some(id) => {
                let connection_id = new_exit_connection(links, body);
                Links {
                    exits: links.exits.insert(
                        id,
                        (RoomKey { area_id, room_number }, created_exit(id, connection_id, body)),
                    ),
                    connections: with_connection(links.connections, connection_id),
                }
            },
            None => links,
        },
        AreaMutation::UpdateExit { exit_id, body } => if links.exits.dom().contains(exit_id) {
            let entry = links.exits[exit_id];
            Links {
                exits: links.exits.insert(exit_id, (entry.0, relinking::exit_updated(entry.1, body))),
                ..links
            }
        } else {
            links
        },
        AreaMutation::DeleteExit { exit_id } => {
            let exits = links.exits.remove(exit_id);
            Links { exits, connections: left_carried(links, exits) }
        },
        AreaMutation::CreateConnection { body } => Links {
            connections: links.connections.insert(body.id, body),
            ..links
        },
        AreaMutation::UpdateConnection { connection_id, body } => if links.connections.dom().contains(
            connection_id,
        ) {
            Links {
                connections: links.connections.insert(
                    connection_id,
                    link_updated(links.connections[connection_id], body),
                ),
                ..links
            }
        } else {
            links
        },
        AreaMutation::DeleteLink { connection_id } => Links {
            exits: without_link(links.exits, connection_id),
            connections: links.connections.remove(connection_id),
        },
        AreaMutation::Unlink { exit_id, new_connection_id } => if links.exits.dom().contains(exit_id) {
            let entry = links.exits[exit_id];
            Links {
                exits: links.exits.insert(
                    exit_id,
                    (entry.0, ExitCache { connection_id: new_connection_id, ..entry.1 }),
                ),
                connections: with_connection(links.connections, new_connection_id),
            }
        } else {
            links
        },
        AreaMutation::Pair { keep_connection_id, merge_connection_id } => Links {
            exits: moved_onto(links.exits, keep_connection_id, merge_connection_id),
            connections: links.connections.remove(merge_connection_id),
        },
        _ => links,
    }
}

/// What writes to an area leave of exits and connections, one after the other.
pub open spec fn all_links_written(links: Links, area_id: AreaId, ops: Seq<OpView>) -> Links
    decreases ops.len(),
{
    if ops.len() == 0 {
        links
    } else {
        links_written(all_links_written(links, area_id, ops.drop_last()), area_id, ops.last())
    }
}

/// What staged batches leave of exits and connections.
pub open spec fn links_staged(links: Links, batches: Seq<BatchView>) -> Links
    decreases batches.len(),
{
    if batches.len() == 0 {
        links
    } else {
        all_links_written(
            links_staged(links, batches.drop_last()),
            batches.last().area_id,
            batches.last().operations,
        )
    }
}

/// Exits and connections after a command was done and undone. Mutation `i` draws on
/// fresh id `i`.
pub open spec fn links_undone(
    command: CommandView,
    links: Links,
    fresh: Seq<u128>,
    again: Seq<u128>,
    limit: int,
) -> Links {
    let done = compile::compiled_direction(command, Direction::Redo, fresh, limit);
    let settled = CommandView { resolved_ids: done.resolved_ids, pending: 0, ..command };
    let back = compile::compiled_direction(settled, Direction::Undo, again, limit);
    links_staged(links_staged(links, done.batches), back.batches)
}

// ===== What is cached =====

/// The exits of a room, each with the room.
pub open spec fn room_entries(area_id: AreaId, room: RoomCache) -> Seq<(RoomKey, ExitCache)> {
    room.exits@.map_values(
        |exit: ExitCache| (RoomKey { area_id, room_number: room.room_number }, exit),
    )
}

/// The exits of an area, each with its room.
pub open spec fn area_entries(area: AreaCache) -> Seq<(RoomKey, ExitCache)> {
    list::collect(area.rooms@, |room: RoomCache| room_entries(area.id, room))
}

/// The exits of every cached area, each with its room.
pub open spec fn entries(atlas: AtlasCache) -> Seq<(RoomKey, ExitCache)> {
    list::collect(atlas.areas@, |area: AreaCache| area_entries(area))
}

/// The connections of every cached area.
pub open spec fn all_connections(atlas: AtlasCache) -> Seq<Connection> {
    list::collect(atlas.areas@, |area: AreaCache| area.connections@)
}

/// The exit of a list with the given identity.
pub open spec fn entry_named(list: Seq<(RoomKey, ExitCache)>, id: ExitId) -> Option<(RoomKey, ExitCache)> {
    list::first(list, |entry: (RoomKey, ExitCache)| entry.1.id == id)
}

/// The connection of a list with the given identity.
pub open spec fn connection_named(list: Seq<Connection>, id: ConnectionId) -> Option<Connection> {
    list::first(list, |connection: Connection| connection.id == id)
}

/// The exits and connections of every cached area.
pub open spec fn links_of(atlas: AtlasCache) -> Links {
    Links {
        exits: Map::new(
            |id: ExitId| entry_named(entries(atlas), id) is Some,
            |id: ExitId|
                {
                    let entry = entry_named(entries(atlas), id)->0;
                    (entry.0, entry.1@)
                },
        ),
        connections: Map::new(
            |id: ConnectionId| connection_named(all_connections(atlas), id) is Some,
            |id: ConnectionId|
                links::connection_args(connection_named(all_connections(atlas), id)->0),
        ),
    }
}

/// Whether areas, the rooms of an area, exits and connections are told apart by their
/// identities.
pub open spec fn told_apart(atlas: AtlasCache) -> bool {
    &&& forall|i: int, j: int|
        #![trigger atlas.areas@[i], atlas.areas@[j]]
        0 <= i < j < atlas.areas@.len() ==> atlas.areas@[i].id != atlas.areas@[j].id
    &&& forall|a: int, i: int, j: int|
        #![trigger atlas.areas@[a].rooms@[i], atlas.areas@[a].rooms@[j]]
        0 <= a < atlas.areas@.len() && 0 <= i < j < atlas.areas@[a].rooms@.len()
            ==> atlas.areas@[a].rooms@[i].room_number != atlas.areas@[a].rooms@[j].room_number
    &&& forall|i: int, j: int|
        #![trigger entries(atlas)[i], entries(atlas)[j]]
        0 <= i < j < entries(atlas).len() ==> entries(atlas)[i].1.id != entries(atlas)[j].1.id
    &&& forall|i: int, j: int|
        #![trigger all_connections(atlas)[i], all_connections(atlas)[j]]
        0 <= i < j < all_connections(atlas).len() ==> all_connections(atlas)[i].id != all_connections(
            atlas,
        )[j].id
}

/// Whether an exit of a cached area is listed with its room.
pub open spec fn is_listed(atlas: AtlasCache, key: RoomKey, exit: ExitCache) -> bool {
    entries(atlas).contains((key, exit))
}

/// The exit of every cached room is listed.
pub(crate) proof fn lemma_listed(atlas: AtlasCache, a: int, r: int, e: int)
    requires
        0 <= a < atlas.areas@.len(),
        0 <= r < atlas.areas@[a].rooms@.len(),
        0 <= e < atlas.areas@[a].rooms@[r].exits@.len(),
    ensures
        is_listed(
            atlas,
            RoomKey {
                area_id: atlas.areas@[a].id,
                room_number: atlas.areas@[a].rooms@[r].room_number,
            },
            atlas.areas@[a].rooms@[r].exits@[e],
        ),
{
    let area = atlas.areas@[a];
    let room = area.rooms@[r];
    let key = RoomKey { area_id: area.id, room_number: room.room_number };
    let entry = (key, room.exits@[e]);
    assert(room_entries(area.id, room)[e] == entry);
    list::lemma_collect_contains(
        area.rooms@,
        |room: RoomCache| room_entries(area.id, room),
        r,
        entry,
    );
    list::lemma_collect_contains(atlas.areas@, |area: AreaCache| area_entries(area), a, entry);
}

/// Where a listed exit stands.
pub open spec fn stands_at(atlas: AtlasCache, key: RoomKey, exit: ExitCache, a: int, r: int, e: int) -> bool {
    &&& 0 <= a < atlas.areas@.len()
    &&& 0 <= r < atlas.areas@[a].rooms@.len()
    &&& 0 <= e < atlas.areas@[a].rooms@[r].exits@.len()
    &&& key.area_id == atlas.areas@[a].id
    &&& key.room_number == atlas.areas@[a].rooms@[r].room_number
    &&& exit == atlas.areas@[a].rooms@[r].exits@[e]
}

/// Every listed exit stands in a cached room.
pub(crate) proof fn lemma_stands(atlas: AtlasCache, key: RoomKey, exit: ExitCache)
    requires
        is_listed(atlas, key, exit),
    ensures
        exists|a: int, r: int, e: int| stands_at(atlas, key, exit, a, r, e),
{
    let all = entries(atlas);
    let of_area = |area: AreaCache| area_entries(area);
    let k = choose|k: int| 0 <= k < all.len() && all[k] == (key, exit);
    list::lemma_collect_source(atlas.areas@, of_area, k);
    let a = choose|a: int|
        0 <= a < atlas.areas@.len() && (#[trigger] of_area(atlas.areas@[a])).contains(all[k]);
    let area = atlas.areas@[a];
    let of_room = |room: RoomCache| room_entries(area.id, room);
    let inside = area_entries(area);
    assert(of_area(area) == inside);
    let m = choose|m: int| 0 <= m < inside.len() && inside[m] == (key, exit);
    list::lemma_collect_source(area.rooms@, of_room, m);
    let r = choose|r: int|
        0 <= r < area.rooms@.len() && (#[trigger] of_room(area.rooms@[r])).contains(inside[m]);
    let own = room_entries(area.id, area.rooms@[r]);
    assert(of_room(area.rooms@[r]) == own);
    let e = choose|e: int| 0 <= e < own.len() && own[e] == (key, exit);
    assert(stands_at(atlas, key, exit, a, r, e));
}

/// The exits of the model are those that are listed.
pub(crate) proof fn lemma_links_of(atlas: AtlasCache)
    requires
        told_apart(atlas),
    ensures
        forall|key: RoomKey, exit: ExitCache|
            #![trigger is_listed(atlas, key, exit)]
            is_listed(atlas, key, exit) ==> links_of(atlas).exits.dom().contains(exit.id)
                && links_of(atlas).exits[exit.id] == (key, exit@),
        forall|id: ExitId|
            #![trigger links_of(atlas).exits.dom().contains(id)]
            links_of(atlas).exits.dom().contains(id) ==> exists|key: RoomKey, exit: ExitCache|
                #[trigger] is_listed(atlas, key, exit) && exit.id == id,
        forall|i: int|
            #![trigger all_connections(atlas)[i]]
            0 <= i < all_connections(atlas).len() ==> {
                let connection = all_connections(atlas)[i];
                &&& links_of(atlas).connections.dom().contains(connection.id)
                &&& links_of(atlas).connections[connection.id] == links::connection_args(connection)
            },
{
    let all = entries(atlas);
    let model = links_of(atlas);
    assert forall|key: RoomKey, exit: ExitCache|
        #![trigger is_listed(atlas, key, exit)]
        is_listed(atlas, key, exit) implies model.exits.dom().contains(exit.id)
        && model.exits[exit.id] == (key, exit@) by {
        let k = choose|k: int| 0 <= k < all.len() && all[k] == (key, exit);
        let p = |entry: (RoomKey, ExitCache)| entry.1.id == exit.id;
        assert(p(all[k]));
        assert forall|j: int| 0 <= j < k implies !p(#[trigger] all[j]) by {
            assert(all[j].1.id != all[k].1.id);
        }
        list::lemma_first(all, p, k);
        assert(entry_named(all, exit.id) == Some((key, exit)));
    }
    assert forall|id: ExitId|
        #![trigger model.exits.dom().contains(id)]
        model.exits.dom().contains(id) implies exists|key: RoomKey, exit: ExitCache|
        #[trigger] is_listed(atlas, key, exit) && exit.id == id by {
        let p = |entry: (RoomKey, ExitCache)| entry.1.id == id;
        list::lemma_first_exists(all, p);
        let entry = entry_named(all, id)->0;
        assert(is_listed(atlas, entry.0, entry.1) && entry.1.id == id);
    }
    assert forall|i: int|
        #![trigger all_connections(atlas)[i]]
        0 <= i < all_connections(atlas).len() implies ({
        let connection = all_connections(atlas)[i];
        &&& model.connections.dom().contains(connection.id)
        &&& model.connections[connection.id] == links::connection_args(connection)
    }) by {
        let list = all_connections(atlas);
        let p = |connection: Connection| connection.id == list[i].id;
        assert(p(list[i]));
        assert forall|j: int| 0 <= j < i implies !p(#[trigger] list[j]) by {
            assert(list[j].id != list[i].id);
        }
        list::lemma_first(list, p, i);
    }
}

/// A connection of a cached area is in the model.
pub(crate) proof fn lemma_connection_in(atlas: AtlasCache, area_id: AreaId, id: ConnectionId)
    requires
        told_apart(atlas),
        atlas.area(area_id) matches Some(area) && area.connection(id) is Some,
    ensures
        links_of(atlas).connections.dom().contains(id),
        links_of(atlas).connections[id] == links::connection_args(atlas.area(area_id)->0.connection(id)->0),
        (atlas.area(area_id)->0.connection(id)->0).id == id,
{
    let area = atlas.area(area_id)->0;
    let p = |item: AreaCache| item.id == area_id;
    list::lemma_first_exists(atlas.areas@, p);
    let a = choose|a: int| 0 <= a < atlas.areas@.len() && atlas.areas@[a] == area;
    let connection = area.connection(id)->0;
    let q = |item: Connection| item.id == id;
    list::lemma_first_exists(area.connections@, q);
    assert(area.connections@.contains(connection));
    list::lemma_collect_contains(atlas.areas@, |area: AreaCache| area.connections@, a, connection);
    let list = all_connections(atlas);
    let i = choose|i: int| 0 <= i < list.len() && list[i] == connection;
    lemma_links_of(atlas);
    assert(list[i] == connection);
}

// ===== Compiled writes =====

/// The area that a mutation writes to.
pub open spec fn area_of(mutation: MutationView) -> AreaId {
    match mutation {
        Mutation::AreaBatch { area_id, .. } => area_id,
        Mutation::UpsertRooms(area_id, _) => area_id,
        Mutation::DeleteRoom(key) => key.area_id,
        Mutation::SetRoomProperty(key, _, _) => key.area_id,
        Mutation::DeleteRoomProperty(key, _) => key.area_id,
        Mutation::AddRoomTag(key, _) => key.area_id,
        Mutation::RemoveRoomTag(key, _) => key.area_id,
        Mutation::SetAreaProperty(area_id, _, _) => area_id,
        Mutation::DeleteAreaProperty(area_id, _) => area_id,
        Mutation::CreateExit { room_key, .. } => room_key.area_id,
        Mutation::UpdateExit { room_key, .. } => room_key.area_id,
        Mutation::DeleteExit { room_key, .. } => room_key.area_id,
        Mutation::CreateLabel { area_id, .. } => area_id,
        Mutation::UpdateLabel { area_id, .. } => area_id,
        Mutation::DeleteLabel { area_id, .. } => area_id,
        Mutation::CreateShape { area_id, .. } => area_id,
        Mutation::UpdateShape { area_id, .. } => area_id,
        Mutation::DeleteShape { area_id, .. } => area_id,
    }
}

/// Writes one after the other.
pub(crate) proof fn lemma_links_written(links: Links, area_id: AreaId, a: Seq<OpView>, b: Seq<OpView>)
    ensures
        all_links_written(links, area_id, a + b) == all_links_written(
            all_links_written(links, area_id, a),
            area_id,
            b,
        ),
    decreases b.len(),
{
    if b.len() == 0 {
        assert(a + b =~= a);
    } else {
        assert((a + b).drop_last() =~= a + b.drop_last());
        lemma_links_written(links, area_id, a, b.drop_last());
    }
}

/// One write.
pub(crate) proof fn lemma_one_link_written(links: Links, area_id: AreaId, op: OpView)
    ensures
        all_links_written(links, area_id, seq![op]) == links_written(links, area_id, op),
{
    reveal_with_fuel(all_links_written, 2);
    assert(seq![op].drop_last() =~= Seq::empty());
}

/// Whether a write leaves exits and connections alone.
pub open spec fn keeps_links(op: OpView) -> bool {
    match op {
        AreaMutation::DeleteRoom { .. } => false,
        AreaMutation::CreateExit { .. } => false,
        AreaMutation::UpdateExit { .. } => false,
        AreaMutation::DeleteExit { .. } => false,
        AreaMutation::CreateConnection { .. } => false,
        AreaMutation::UpdateConnection { .. } => false,
        AreaMutation::DeleteLink { .. } => false,
        AreaMutation::Unlink { .. } => false,
        AreaMutation::Pair { .. } => false,
        _ => true,
    }
}

/// Writes that leave exits and connections alone.
pub(crate) proof fn lemma_links_kept(links: Links, area_id: AreaId, ops: Seq<OpView>)
    requires
        forall|i: int| 0 <= i < ops.len() ==> keeps_links(#[trigger] ops[i]),
    ensures
        all_links_written(links, area_id, ops) == links,
    decreases ops.len(),
{
    if ops.len() > 0 {
        let rest = ops.drop_last();
        assert(keeps_links(ops[ops.len() - 1]));
        assert forall|i: int| 0 <= i < rest.len() implies keeps_links(#[trigger] rest[i]) by {
            assert(rest[i] == ops[i]);
        }
        lemma_links_kept(links, area_id, rest);
    }
}

/// Batches whose writes leave exits and connections alone.
proof fn lemma_batches_kept(links: Links, early: Seq<BatchView>, late: Seq<BatchView>)
    requires
        forall|i: int, j: int|
            0 <= i < late.len() && 0 <= j < late[i].operations.len() ==> keeps_links(
                #[trigger] late[i].operations[j],
            ),
    ensures
        links_staged(links, early + late) == links_staged(links, early),
    decreases late.len(),
{
    if late.len() == 0 {
        assert(early + late =~= early);
    } else {
        let rest = late.drop_last();
        assert((early + late).drop_last() =~= early + rest);
        assert forall|i: int, j: int|
            0 <= i < rest.len() && 0 <= j < rest[i].operations.len() implies keeps_links(
            #[trigger] rest[i].operations[j],
        ) by {
            assert(rest[i] == late[i]);
            assert(keeps_links(late[i].operations[j]));
        }
        lemma_batches_kept(links, early, rest);
        let n = late.len() - 1;
        assert forall|j: int| 0 <= j < late.last().operations.len() implies keeps_links(
            #[trigger] late.last().operations[j],
        ) by {
            assert(keeps_links(late[n].operations[j]));
        }
        lemma_links_kept(links_staged(links, early + rest), late.last().area_id, late.last().operations);
    }
}

/// The pieces of a list hold nothing but its elements.
proof fn lemma_pieces_within(list: Seq<OpView>, limit: int)
    requires
        forall|i: int| 0 <= i < list.len() ==> keeps_links(#[trigger] list[i]),
    ensures
        forall|i: int, j: int|
            0 <= i < compile::pieces(list, limit).len() && 0 <= j < compile::pieces(list, limit)[i].len()
                ==> keeps_links(#[trigger] compile::pieces(list, limit)[i][j]),
    decreases list.len(),
{
    let all = compile::pieces(list, limit);
    if limit <= 0 || list.len() <= limit {
        assert forall|i: int, j: int| 0 <= i < all.len() && 0 <= j < all[i].len() implies keeps_links(
            #[trigger] all[i][j],
        ) by {
            assert(keeps_links(list[j]));
        }
    } else {
        let rest = list.skip(limit);
        assert forall|i: int| 0 <= i < rest.len() implies keeps_links(#[trigger] rest[i]) by {
            assert(keeps_links(list[limit + i]));
        }
        lemma_pieces_within(rest, limit);
        assert forall|i: int, j: int| 0 <= i < all.len() && 0 <= j < all[i].len() implies keeps_links(
            #[trigger] all[i][j],
        ) by {
            if i == 0 {
                assert(keeps_links(list[j]));
            } else {
                assert(all[i] == compile::pieces(rest, limit)[i - 1]);
                assert(keeps_links(compile::pieces(rest, limit)[i - 1][j]));
            }
        }
    }
}

/// What staging the batches of a compilation leaves, step by step.
pub(crate) proof fn lemma_links_step(
    links: Links,
    state: CompiledView,
    mutation: MutationView,
    fresh: u128,
    command: commands::CommandId,
    limit: int,
)
    ensures
        links_staged(links, compile::compiled_step(state, mutation, fresh, command, limit).batches)
            == all_links_written(
            links_staged(links, state.batches),
            area_of(mutation),
            restoring::step_ops(state.resolved_ids, mutation, fresh),
        ),
{
    let after = compile::compiled_step(state, mutation, fresh, command, limit);
    let added = restoring::step_ops(state.resolved_ids, mutation, fresh);
    let before = links_staged(links, state.batches);
    if let Mutation::UpsertRooms(area_id, rooms) = mutation {
        let ops = compile::upserts(rooms);
        let late = compile::upsert_batches(area_id, rooms, limit);
        let pieces = compile::pieces(ops, limit);
        assert forall|i: int| 0 <= i < ops.len() implies keeps_links(#[trigger] ops[i]) by {}
        lemma_pieces_within(ops, limit);
        assert forall|i: int, j: int| 0 <= i < late.len() && 0 <= j < late[i].operations.len() implies keeps_links(
            #[trigger] late[i].operations[j],
        ) by {
            assert(late[i].operations == pieces[i]);
            assert(keeps_links(pieces[i][j]));
        }
        lemma_batches_kept(links, state.batches, late);
        lemma_links_kept(before, area_id, added);
    } else if let Mutation::CreateExit { room_key, follow_up, .. } = mutation {
        match follow_up {
            Some(_) => {
                let n = after.batches.len();
                let first = after.batches[n - 2];
                let second = after.batches[n - 1];
                assert(after.batches =~= state.batches.push(first).push(second));
                assert(state.batches.push(first).push(second).drop_last() =~= state.batches.push(first));
                assert(state.batches.push(first).drop_last() =~= state.batches);
                reveal_with_fuel(links_staged, 3);
                assert(added =~= first.operations + second.operations);
                lemma_links_written(before, room_key.area_id, first.operations, second.operations);
            },
            None => {
                let batch = after.batches.last();
                assert(after.batches =~= state.batches.push(batch));
                assert(state.batches.push(batch).drop_last() =~= state.batches);
                assert(batch.operations =~= added);
            },
        }
    } else if after.batches.len() == state.batches.len() {
        assert(after.batches =~= state.batches);
        assert(added =~= Seq::empty());
    } else {
        let batch = after.batches.last();
        assert(after.batches =~= state.batches.push(batch));
        assert(state.batches.push(batch).drop_last() =~= state.batches);
        assert(batch.operations =~= added);
        assert(batch.area_id == area_of(mutation));
    }
}

/// Whether a mutation leaves exits and connections alone, whatever the slots hold.
pub open spec fn spares_links(mutation: MutationView) -> bool {
    match mutation {
        Mutation::AreaBatch { operations, .. } => forall|i: int|
            0 <= i < operations.len() ==> keeps_links(#[trigger] operations[i]),
        Mutation::DeleteRoom(_) => false,
        Mutation::CreateExit { .. } => false,
        Mutation::UpdateExit { .. } => false,
        Mutation::DeleteExit { .. } => false,
        _ => true,
    }
}

/// A list that leaves exits and connections alone and fills no slot before `n`.
pub open spec fn all_spare(mutations: Seq<MutationView>, n: int) -> bool {
    forall|i: int|
        #![trigger mutations[i]]
        0 <= i < mutations.len() ==> spares_links(mutations[i]) && (mutation::filled_slot(
            mutations[i],
        ) matches Some(slot) ==> slot >= n)
}

/// What such a list leaves, of exits and connections and of the slot table.
pub(crate) proof fn lemma_links_spared(
    links: Links,
    start: CompiledView,
    mutations: Seq<MutationView>,
    n: int,
    fresh: Seq<u128>,
    command: commands::CommandId,
    limit: int,
)
    requires
        all_spare(mutations, n),
        mutation::fills_in(mutations, start.resolved_ids.len() as int),
    ensures
        ({
            let end = compile::compiled(start, mutations, fresh, command, limit);
            &&& links_staged(links, end.batches) == links_staged(links, start.batches)
            &&& end.resolved_ids.len() == start.resolved_ids.len()
            &&& forall|s: int|
                0 <= s < n && s < start.resolved_ids.len() ==> #[trigger] end.resolved_ids[s]
                    == start.resolved_ids[s]
        }),
    decreases mutations.len(),
{
    if mutations.len() > 0 {
        let rest = mutations.drop_last();
        let at = mutations.len() - 1;
        let last = mutations[at];
        assert(all_spare(rest, n)) by {
            assert forall|i: int|
                #![trigger rest[i]]
                0 <= i < rest.len() implies spares_links(rest[i]) && (mutation::filled_slot(
                rest[i],
            ) matches Some(slot) ==> slot >= n) by {
                assert(rest[i] == mutations[i]);
            }
        }
        assert(mutation::fills_in(rest, start.resolved_ids.len() as int)) by {
            assert forall|i: int| 0 <= i < rest.len() implies #[trigger] rest[i] == mutations[i] by {}
        }
        lemma_links_spared(links, start, rest, n, fresh, command, limit);
        let before = compile::compiled(start, rest, fresh, command, limit);
        lemma_links_step(links, before, last, fresh[at], command, limit);
        let added = restoring::step_ops(before.resolved_ids, last, fresh[at]);
        assert(spares_links(last));
        assert forall|i: int| 0 <= i < added.len() implies keeps_links(#[trigger] added[i]) by {}
        lemma_links_kept(links_staged(links, before.batches), area_of(last), added);
    }
}

/// For mutations of one area that name no slot it is enough to look at their writes.
pub(crate) proof fn lemma_plain_links(
    command: CommandView,
    links: Links,
    area_id: AreaId,
    redo: Seq<OpView>,
    undo: Seq<OpView>,
    fresh: Seq<u128>,
    again: Seq<u128>,
    limit: int,
)
    requires
        command.redo.len() == 1,
        command.undo.len() == 1,
        command.redo[0] matches Mutation::AreaBatch { area_id: at, operations, .. } && at == area_id
            && operations == redo,
        command.undo[0] matches Mutation::AreaBatch { area_id: at, operations, .. } && at == area_id
            && operations == undo,
    ensures
        links_undone(command, links, fresh, again, limit) == all_links_written(
            all_links_written(links, area_id, redo),
            area_id,
            undo,
        ),
{
    let done = compile::compiled_direction(command, Direction::Redo, fresh, limit);
    let settled = CommandView { resolved_ids: done.resolved_ids, pending: 0, ..command };
    let back = compile::compiled_direction(settled, Direction::Undo, again, limit);
    lemma_one_mutation(links, command, Direction::Redo, fresh, limit);
    lemma_one_mutation(links_staged(links, done.batches), settled, Direction::Undo, again, limit);
    assert(restoring::step_ops(command.resolved_ids, command.redo[0], fresh[0]) =~= redo);
    assert(restoring::step_ops(settled.resolved_ids, command.undo[0], again[0]) =~= undo);
}

/// What a direction of one mutation leaves.
pub(crate) proof fn lemma_one_mutation(
    links: Links,
    command: CommandView,
    direction: Direction,
    fresh: Seq<u128>,
    limit: int,
)
    requires
        command.mutations(direction).len() == 1,
    ensures
        ({
            let only = command.mutations(direction)[0];
            let start = restoring::compile_start(command);
            let done = compile::compiled_direction(command, direction, fresh, limit);
            &&& done == compile::compiled_step(start, only, fresh[0], command.id, limit)
            &&& links_staged(links, done.batches) == all_links_written(
                links,
                area_of(only),
                restoring::step_ops(command.resolved_ids, only, fresh[0]),
            )
        }),
{
    let mutations = command.mutations(direction);
    let start = restoring::compile_start(command);
    reveal_with_fuel(compile::compiled, 2);
    assert(mutations.drop_last() =~= Seq::empty());
    assert(mutations.last() == mutations[0]);
    assert(links_staged(links, start.batches) == links);
    lemma_links_step(links, start, mutations[0], fresh[0], command.id, limit);
}

} // verus!
