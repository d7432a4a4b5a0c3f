//! What a snapshot holds of exits and connections, and what a paste of it leaves of them.

use vstd::prelude::*;

use super::cache;
use super::clipboard::{self, ConnectionClipView, ExitClip};
use super::copying;
use super::doing;
use super::links;
use super::model::{
    AreaCache, AreaId, AtlasCache, Connection, ConnectionArgs, ConnectionId, EntityId, ExitCache, Point, RoomCache,
    RoomNumber, SegmentShape,
};
use super::paste::{self, PasteIds, PastePoints};
use super::pasted_links::{self, Pasting};
use super::relinking::ExitState;
use super::wiring::{self, Links};
use crate::list;
use crate::text;

verus! {

// ===== Exits =====

/// Whether a clip is of an exit that leads nowhere any more but is walked as before.
pub open spec fn is_way_of(clip: ExitClip<Seq<char>>, exit: ExitCache) -> bool {
    &&& clip.from_direction == exit.from_direction
    &&& clip.path == text::opt_text(exit.path)
    &&& clip.command == text::opt_text(exit.command)
    &&& clip.weight == exit.weight
    &&& clip.is_hidden == exit.is_hidden
    &&& clip.is_closed == exit.is_closed
    &&& clip.is_locked == exit.is_locked
    &&& clip.is_secret == exit.is_secret
}

/// Whether a clip is of an exit.
pub open spec fn is_copy_of_exit(clip: ExitClip<Seq<char>>, exit: ExitCache) -> bool {
    &&& is_way_of(clip, exit)
    &&& clip.to_area_id == exit.to_area_id
    &&& clip.to_room_number == exit.to_room_number
    &&& clip.to_direction == exit.to_direction
    &&& clip.to_unknown == exit.to_unknown
}

/// Whether an exit of an area is on a connection.
pub open spec fn is_on(area: AreaCache, id: ConnectionId, r: int, e: int) -> bool {
    &&& 0 <= r < area.rooms@.len()
    &&& 0 <= e < area.rooms@[r].exits@.len()
    &&& area.rooms@[r].exits@[e].connection_id == id
}

/// Whether a clip is of an exit on a connection.
pub open spec fn is_of_exit_on(
    member: (RoomNumber, ExitClip<Seq<char>>),
    area: AreaCache,
    id: ConnectionId,
    r: int,
    e: int,
) -> bool {
    is_on(area, id, r, e) && member.0 == area.rooms@[r].room_number && is_copy_of_exit(
        member.1,
        area.rooms@[r].exits@[e],
    )
}

/// Whether a clip is of some exit on a connection.
pub open spec fn is_of_some_exit(
    member: (RoomNumber, ExitClip<Seq<char>>),
    area: AreaCache,
    id: ConnectionId,
) -> bool {
    exists|r: int, e: int| #[trigger] is_of_exit_on(member, area, id, r, e)
}

/// Whether an exit on a connection has a clip.
pub open spec fn has_clip(
    members: Seq<(RoomNumber, ExitClip<Seq<char>>)>,
    area: AreaCache,
    id: ConnectionId,
    r: int,
    e: int,
) -> bool {
    exists|k: int| 0 <= k < members.len() && is_of_exit_on(#[trigger] members[k], area, id, r, e)
}

/// Whether clips are of the exits on a connection, and of no others.
pub open spec fn are_members_copied(
    members: Seq<(RoomNumber, ExitClip<Seq<char>>)>,
    area: AreaCache,
    id: ConnectionId,
) -> bool {
    &&& forall|k: int| 0 <= k < members.len() ==> is_of_some_exit(#[trigger] members[k], area, id)
    &&& forall|r: int, e: int| #[trigger] is_on(area, id, r, e) ==> has_clip(members, area, id, r, e)
}

/// Whether an exit with its room is the one at a place of an area.
pub open spec fn is_member_at(
    member: (RoomNumber, ExitCache),
    area: AreaCache,
    id: ConnectionId,
    r: int,
    e: int,
) -> bool {
    is_on(area, id, r, e) && member == (area.rooms@[r].room_number, area.rooms@[r].exits@[e])
}

/// Whether an exit with its room is on a connection.
pub open spec fn is_member(member: (RoomNumber, ExitCache), area: AreaCache, id: ConnectionId) -> bool {
    exists|r: int, e: int| #[trigger] is_member_at(member, area, id, r, e)
}

/// The exits on a connection.
pub(crate) proof fn lemma_members(area: AreaCache, id: ConnectionId)
    ensures
        forall|k: int|
            0 <= k < links::members(area, id).len() ==> is_member(
                #[trigger] links::members(area, id)[k],
                area,
                id,
            ),
        forall|r: int, e: int| #[trigger]
            is_on(area, id, r, e) ==> links::members(area, id).contains(
                (area.rooms@[r].room_number, area.rooms@[r].exits@[e]),
            ),
{
    let all = links::members(area, id);
    let of_room = |room: RoomCache| links::room_members(room, id);
    assert forall|k: int| 0 <= k < all.len() implies is_member(#[trigger] all[k], area, id) by {
        list::lemma_collect_source(area.rooms@, of_room, k);
        let r = choose|r: int| 0 <= r < area.rooms@.len() && (#[trigger] of_room(area.rooms@[r])).contains(all[k]);
        let room = area.rooms@[r];
        let piece = |exit: ExitCache|
            if exit.connection_id == id {
                seq![(room.room_number, exit)]
            } else {
                Seq::empty()
            };
        let mine = links::room_members(room, id);
        let q = choose|q: int| 0 <= q < mine.len() && mine[q] == all[k];
        list::lemma_collect_source(room.exits@, piece, q);
        let e = choose|e: int| 0 <= e < room.exits@.len() && (#[trigger] piece(room.exits@[e])).contains(mine[q]);
        assert(is_member_at(all[k], area, id, r, e));
    }
    assert forall|r: int, e: int| #[trigger] is_on(area, id, r, e) implies all.contains(
        (area.rooms@[r].room_number, area.rooms@[r].exits@[e]),
    ) by {
        let room = area.rooms@[r];
        let exit = room.exits@[e];
        let piece = |exit: ExitCache|
            if exit.connection_id == id {
                seq![(room.room_number, exit)]
            } else {
                Seq::empty()
            };
        assert(piece(exit)[0] == (room.room_number, exit));
        list::lemma_collect_contains(room.exits@, piece, e, (room.room_number, exit));
        list::lemma_collect_contains(area.rooms@, of_room, r, (room.room_number, exit));
    }
}

/// The exits that are copied with a connection are those on it.
proof fn lemma_members_copied(area: AreaCache, id: ConnectionId)
    ensures
        are_members_copied(clipboard::clipped_members(area, id), area, id),
{
    lemma_members(area, id);
    let all = links::members(area, id);
    let made = |member: (RoomNumber, ExitCache)| (member.0, clipboard::clipped_exit(member.1));
    let less = |a: (RoomNumber, ExitClip<Seq<char>>), b: (RoomNumber, ExitClip<Seq<char>>)|
        clipboard::clip_before(a, b);
    let given = all.map_values(made);
    let members = clipboard::clipped_members(area, id);
    assert(members == list::in_order(given, less));
    assert forall|k: int| 0 <= k < members.len() implies is_of_some_exit(
        #[trigger] members[k],
        area,
        id,
    ) by {
        list::lemma_in_order_holds(given, less, members[k]);
        assert(members.contains(members[k]));
        let q = choose|q: int| 0 <= q < given.len() && given[q] == members[k];
        assert(given[q] == made(all[q]));
        assert(is_member(all[q], area, id));
        let (r, e) = choose|r: int, e: int| #[trigger] is_member_at(all[q], area, id, r, e);
        assert(is_of_exit_on(members[k], area, id, r, e));
    }
    assert forall|r: int, e: int| #[trigger] is_on(area, id, r, e) implies has_clip(
        members,
        area,
        id,
        r,
        e,
    ) by {
        let member = (area.rooms@[r].room_number, area.rooms@[r].exits@[e]);
        let q = choose|q: int| 0 <= q < all.len() && all[q] == member;
        assert(given[q] == made(member));
        list::lemma_in_order_holds(given, less, made(member));
        let k = choose|k: int| 0 <= k < members.len() && members[k] == made(member);
        assert(is_of_exit_on(members[k], area, id, r, e));
    }
}

// ===== Connections =====

/// Whether a copied body looks like a connection, its ends and its route apart.
pub open spec fn looks_like(body: ConnectionArgs<Seq<char>, Seq<Point>>, connection: Connection) -> bool {
    &&& body.id == connection.id
    &&& body.corner == connection.corner
    &&& body.dash == connection.dash
    &&& body.color == connection.color@
    &&& body.thickness == connection.thickness
}

/// Whether a clip is of a connection with all its exits, its route given.
pub open spec fn is_copy_of_connection(
    clip: ConnectionClipView,
    connection: Connection,
    area: AreaCache,
    route: Seq<Point>,
) -> bool {
    &&& looks_like(clip.body, connection)
    &&& clip.body.endpoint_a == connection.endpoint_a
    &&& clip.body.endpoint_b == connection.endpoint_b
    &&& clip.body.routing == connection.routing
    &&& clip.body.segment_shape == connection.segment_shape
    &&& clip.body.route_points == route
    &&& are_members_copied(clip.members, area, connection.id)
}

/// Whether a connection is copied along with a selection: it is selected itself, or the rooms
/// at both its ends are.
pub open spec fn comes_along(connection: Connection, selection: Seq<EntityId>) -> bool {
    ||| selection.contains(EntityId::Connection(connection.id))
    ||| connection.endpoint_b is Some && selection.contains(
        EntityId::Room(connection.endpoint_a.room_number),
    ) && selection.contains(EntityId::Room(connection.endpoint_b->0.room_number))
}

/// Whether a clip is what is left of a connection that leaves the selection: one of its exits
/// that leaves a selected room, leading nowhere, and the end at that room, without a route.
pub open spec fn is_stub_of(
    clip: ConnectionClipView,
    connection: Connection,
    area: AreaCache,
    selection: Seq<EntityId>,
    r: int,
    e: int,
) -> bool {
    &&& is_on(area, connection.id, r, e)
    &&& clip.members.len() == 1
    &&& clip.members[0].0 == area.rooms@[r].room_number
    &&& selection.contains(EntityId::Room(area.rooms@[r].room_number))
    &&& is_way_of(clip.members[0].1, area.rooms@[r].exits@[e])
    &&& clip.members[0].1.to_area_id is None && clip.members[0].1.to_room_number is None
        && clip.members[0].1.to_direction is None && !clip.members[0].1.to_unknown
    &&& looks_like(clip.body, connection)
    &&& clip.body.endpoint_a.room_number == area.rooms@[r].room_number
    &&& clip.body.endpoint_a == connection.endpoint_a || Some(clip.body.endpoint_a)
        == connection.endpoint_b
    &&& clip.body.endpoint_b is None
    &&& clip.body.route_points.len() == 0
    &&& clip.body.segment_shape == SegmentShape::Direct
    &&& (connection.routing is Manual || connection.routing is Automatic) ==> clip.body.routing is Simple
    &&& !(connection.routing is Manual) && !(connection.routing is Automatic) ==> clip.body.routing
        == connection.routing
}

/// Whether a connection has an exit that leaves a selected room, and every such room is one of
/// its ends.
pub open spec fn leaves_selection(area: AreaCache, connection: Connection, selection: Seq<EntityId>) -> bool {
    &&& exists|r: int, e: int| #[trigger]
        is_on(area, connection.id, r, e) && selection.contains(
            EntityId::Room(area.rooms@[r].room_number),
        )
    &&& forall|r: int, e: int| #[trigger]
        is_on(area, connection.id, r, e) && selection.contains(
            EntityId::Room(area.rooms@[r].room_number),
        ) ==> connection.endpoint_a.room_number == area.rooms@[r].room_number || (
        connection.endpoint_b is Some && connection.endpoint_b->0.room_number
            == area.rooms@[r].room_number)
}

/// Whether a clip is a stub of some connection.
pub open spec fn is_some_stub(
    clip: ConnectionClipView,
    connection: Connection,
    area: AreaCache,
    selection: Seq<EntityId>,
) -> bool {
    exists|r: int, e: int| #[trigger] is_stub_of(clip, connection, area, selection, r, e)
}

/// Whether a clip is a stub of some connection that does not come along.
pub open spec fn is_stub(clip: ConnectionClipView, area: AreaCache, selection: Seq<EntityId>) -> bool {
    exists|c: int|
        0 <= c < area.connections@.len() && !comes_along(area.connections@[c], selection) && is_some_stub(
            clip,
            #[trigger] area.connections@[c],
            area,
            selection,
        )
}

/// Whether one of the clips from a place on is a stub of a connection.
pub open spec fn has_stub(
    clips: Seq<ConnectionClipView>,
    from: int,
    connection: Connection,
    area: AreaCache,
    selection: Seq<EntityId>,
) -> bool {
    exists|i: int|
        from <= i < clips.len() && is_some_stub(#[trigger] clips[i], connection, area, selection)
}

/// Whether clips are of the connections that come along with a selection, and, when asked for,
/// of those that leave it.
pub open spec fn are_connections_copied(
    clips: Seq<ConnectionClipView>,
    whole: Seq<Connection>,
    area: AreaCache,
    selection: Seq<EntityId>,
    boundary: bool,
    routes: Seq<Seq<Point>>,
) -> bool {
    &&& whole.len() <= clips.len()
    &&& !boundary ==> whole.len() == clips.len()
    &&& forall|connection: Connection| #[trigger]
        whole.contains(connection) <==> area.connections@.contains(connection) && comes_along(
            connection,
            selection,
        )
    &&& forall|i: int|
        0 <= i < whole.len() ==> is_copy_of_connection(#[trigger] clips[i], whole[i], area, routes[i])
    &&& forall|i: int|
        whole.len() <= i < clips.len() ==> is_stub(#[trigger] clips[i], area, selection)
    &&& boundary ==> forall|c: int|
        #![trigger area.connections@[c]]
        0 <= c < area.connections@.len() && !comes_along(area.connections@[c], selection)
            && leaves_selection(area, area.connections@[c], selection) ==> has_stub(
            clips,
            whole.len() as int,
            area.connections@[c],
            area,
            selection,
        )
}

/// A connection is copied whole when it comes along.
proof fn lemma_comes_along(connection: Connection, selection: Seq<EntityId>)
    ensures
        clipboard::copied_whole(
            connection,
            cache::selected_connections(selection),
            cache::selected_rooms(selection),
        ) == comes_along(connection, selection),
{
    doing::lemma_selected(selection, EntityId::Connection(connection.id));
    doing::lemma_selected(selection, EntityId::Room(connection.endpoint_a.room_number));
    if let Some(end) = connection.endpoint_b {
        doing::lemma_selected(selection, EntityId::Room(end.room_number));
    }
}

/// What the copy of a connection that leaves the selection holds.
proof fn lemma_boundary(area: AreaCache, connection: Connection, selection: Seq<EntityId>)
    ensures
        ({
            let clips = clipboard::clipped_boundary(area, connection, cache::selected_rooms(selection));
            &&& clips.len() <= 1
            &&& clips.len() == 1 ==> is_some_stub(clips[0], connection, area, selection)
            &&& leaves_selection(area, connection, selection) ==> clips.len() == 1
        }),
{
    let rooms = cache::selected_rooms(selection);
    let all = links::members(area, connection.id);
    let matching = |member: (RoomNumber, ExitCache)| rooms.contains(member.0);
    let clips = clipboard::clipped_boundary(area, connection, rooms);
    lemma_members(area, connection.id);
    let found = clipboard::boundary_member(area, connection.id, rooms);
    if let Some((number, exit)) = found {
        list::lemma_first_exists(all, matching);
        let k = choose|k: int| 0 <= k < all.len() && all[k] == (number, exit);
        assert(all[k] == (number, exit));
        assert(is_member(all[k], area, connection.id));
        let (r, e) = choose|r: int, e: int| #[trigger] is_member_at(all[k], area, connection.id, r, e);
        doing::lemma_selected(selection, EntityId::Room(number));
        assert(is_on(area, connection.id, r, e));
        if clips.len() == 1 {
            assert(is_stub_of(clips[0], connection, area, selection, r, e));
        }
    } else if leaves_selection(area, connection, selection) {
        let (r, e) = choose|r: int, e: int| #[trigger]
            is_on(area, connection.id, r, e) && selection.contains(
                EntityId::Room(area.rooms@[r].room_number),
            );
        let member = (area.rooms@[r].room_number, area.rooms@[r].exits@[e]);
        doing::lemma_selected(selection, EntityId::Room(member.0));
        let k = choose|k: int| 0 <= k < all.len() && all[k] == member;
        assert(matching(all[k]));
        list::lemma_first_exists(all, matching);
    }
}

/// A snapshot holds every connection that comes along with the selection, with all its exits;
/// and, when asked for, a stub of every one that leaves it.
pub proof fn law_a_snapshot_holds_the_links_of_its_rooms(
    area_id: AreaId,
    area: AreaCache,
    selection: Seq<EntityId>,
    boundary: bool,
    origin: Option<Point>,
    routes: Seq<Seq<Point>>,
)
    ensures
        are_connections_copied(
            clipboard::snapshot(area_id, area, selection, true, boundary, origin, routes).connections,
            clipboard::whole_connections(
                area,
                cache::selected_connections(selection),
                cache::selected_rooms(selection),
            ),
            area,
            selection,
            boundary,
            routes,
        ),
{
    let rooms = cache::selected_rooms(selection);
    let selected = cache::selected_connections(selection);
    let whole = clipboard::whole_connections(area, selected, rooms);
    let clips = clipboard::snapshot(area_id, area, selection, true, boundary, origin, routes).connections;
    let early = clipboard::clipped_wholes(area, whole, routes);
    let late = clipboard::clipped_boundaries(area, selected, rooms);
    let piece = |connection: Connection|
        if clipboard::copied_whole(connection, selected, rooms) {
            seq![connection]
        } else {
            Seq::empty()
        };
    let rest = |connection: Connection|
        if clipboard::copied_whole(connection, selected, rooms) {
            Seq::empty()
        } else {
            clipboard::clipped_boundary(area, connection, rooms)
        };
    assert forall|connection: Connection| #[trigger]
        whole.contains(connection) <==> area.connections@.contains(connection) && comes_along(
            connection,
            selection,
        ) by {
        lemma_comes_along(connection, selection);
        if whole.contains(connection) {
            let k = choose|k: int| 0 <= k < whole.len() && whole[k] == connection;
            list::lemma_collect_source(area.connections@, piece, k);
            let c = choose|c: int|
                0 <= c < area.connections@.len() && (#[trigger] piece(area.connections@[c])).contains(
                    whole[k],
                );
            assert(area.connections@[c] == connection);
        }
        if area.connections@.contains(connection) && comes_along(connection, selection) {
            let c = choose|c: int| 0 <= c < area.connections@.len() && area.connections@[c] == connection;
            assert(piece(connection)[0] == connection);
            list::lemma_collect_contains(area.connections@, piece, c, connection);
        }
    }
    assert forall|i: int| 0 <= i < whole.len() implies is_copy_of_connection(
        #[trigger] clips[i],
        whole[i],
        area,
        routes[i],
    ) by {
        assert(clips[i] == early[i]);
        lemma_members_copied(area, whole[i].id);
    }
    assert forall|i: int| whole.len() <= i < clips.len() implies is_stub(
        #[trigger] clips[i],
        area,
        selection,
    ) by {
        let k = i - whole.len();
        assert(clips[i] == late[k]);
        list::lemma_collect_source(area.connections@, rest, k);
        let c = choose|c: int|
            0 <= c < area.connections@.len() && (#[trigger] rest(area.connections@[c])).contains(late[k]);
        let connection = area.connections@[c];
        lemma_comes_along(connection, selection);
        lemma_boundary(area, connection, selection);
        assert(is_some_stub(clips[i], area.connections@[c], area, selection));
    }
    if boundary {
        assert forall|c: int|
            #![trigger area.connections@[c]]
            0 <= c < area.connections@.len() && !comes_along(area.connections@[c], selection)
                && leaves_selection(area, area.connections@[c], selection) implies has_stub(
            clips,
            whole.len() as int,
            area.connections@[c],
            area,
            selection,
        ) by {
            let connection = area.connections@[c];
            lemma_comes_along(connection, selection);
            lemma_boundary(area, connection, selection);
            let stub = clipboard::clipped_boundary(area, connection, rooms)[0];
            assert(rest(connection)[0] == stub);
            list::lemma_collect_contains(area.connections@, rest, c, stub);
            let k = choose|k: int| 0 <= k < late.len() && late[k] == stub;
            assert(clips[whole.len() + k] == stub);
            assert(is_some_stub(clips[whole.len() + k], connection, area, selection));
        }
    }
}

// ===== Copy and paste =====

/// Whether an exit is walked like a cached one. Its secrecy goes along for those who may see
/// secrets.
pub open spec fn is_same_way(state: ExitState, exit: ExitCache, cleared: bool) -> bool {
    &&& state.from_direction == exit.from_direction
    &&& state.path == text::opt_text(exit.path)
    &&& state.command == text::opt_text(exit.command)
    &&& state.weight == exit.weight
    &&& state.is_hidden == exit.is_hidden
    &&& state.is_closed == exit.is_closed
    &&& state.is_locked == exit.is_locked
    &&& state.is_secret == (cleared && exit.is_secret)
}

/// A copied and pasted exit is walked like the exit: of every connection that comes along with
/// the selection and finds a place, every exit has one that leaves the counterpart of its room
/// in the same direction, with the same path, command, weight and doors; and that leads to the
/// counterpart of the room that it leads to.
pub proof fn law_an_exit_survives_copy_and_paste(
    before: Links,
    source_id: AreaId,
    source: AreaCache,
    selection: Seq<EntityId>,
    boundary: bool,
    origin: Option<Point>,
    copied_routes: Seq<Seq<Point>>,
    atlas: AtlasCache,
    area_id: AreaId,
    level: i32,
    points: PastePoints,
    ids: PasteIds,
    next_room_number: Option<RoomNumber>,
    limit: int,
    fresh: Seq<u128>,
    connection: Connection,
    r: int,
    e: int,
)
    requires
        selection.no_duplicates(),
        source.connections@.contains(connection),
        comes_along(connection, selection),
        is_on(source, connection.id, r, e),
        ({
            let clipboard = clipboard::snapshot(
                source_id,
                source,
                selection,
                true,
                boundary,
                origin,
                copied_routes,
            );
            &&& paste::rooms_fit(atlas, area_id, clipboard, next_room_number)
            &&& pasted_links::are_unused(ids, clipboard, before)
            &&& clipboard.labels.len() + clipboard.shapes.len() <= usize::MAX
            &&& fresh.len() >= 1 + clipboard.labels.len() + clipboard.shapes.len()
        }),
    ensures
        ({
            let clipboard = clipboard::snapshot(
                source_id,
                source,
                selection,
                true,
                boundary,
                origin,
                copied_routes,
            );
            let paste = paste::pasted(
                atlas,
                area_id,
                clipboard,
                level,
                points,
                ids,
                next_room_number,
                limit,
            );
            paste.command matches Some(command) ==> is_exit_carried(
                wiring::links_staged(before, doing::redo_batches(command, fresh, limit)),
                pasted_links::pasting_of(atlas, area_id, clipboard, paste),
                ids,
                connection,
                source.rooms@[r].room_number,
                source.rooms@[r].exits@[e],
            )
        }),
{
    let clipboard = clipboard::snapshot(
        source_id,
        source,
        selection,
        true,
        boundary,
        origin,
        copied_routes,
    );
    copying::law_a_snapshot_holds_what_is_selected(
        source_id,
        source,
        selection,
        true,
        boundary,
        origin,
        copied_routes,
    );
    law_a_snapshot_holds_the_links_of_its_rooms(
        source_id,
        source,
        selection,
        boundary,
        origin,
        copied_routes,
    );
    let whole = clipboard::whole_connections(
        source,
        cache::selected_connections(selection),
        cache::selected_rooms(selection),
    );
    assert(whole.contains(connection));
    let i = choose|i: int| 0 <= i < whole.len() && whole[i] == connection;
    let clip = clipboard.connections[i];
    assert(is_copy_of_connection(clip, whole[i], source, copied_routes[i]));
    assert(has_clip(clip.members, source, connection.id, r, e));
    let k = choose|k: int|
        0 <= k < clip.members.len() && is_of_exit_on(
            #[trigger] clip.members[k],
            source,
            connection.id,
            r,
            e,
        );
    pasted_links::law_a_pasted_link_is_the_copied_link(
        before,
        atlas,
        area_id,
        clipboard,
        level,
        points,
        ids,
        next_room_number,
        limit,
        fresh,
    );
    let paste = paste::pasted(atlas, area_id, clipboard, level, points, ids, next_room_number, limit);
    if let Some(command) = paste.command {
        let after = wiring::links_staged(before, doing::redo_batches(command, fresh, limit));
        let pasting = pasted_links::pasting_of(atlas, area_id, clipboard, paste);
        assert(is_copied_as(pasting, connection, i));
        if pasting.finds_place(clip) {
            let id = ids.members@[i]@[k];
            assert(pasting.is_member(after.exits[id], clip.members[k], id, ids.connections@[i]));
        }
        assert(is_exit_carried_at(
            after,
            pasting,
            ids,
            connection,
            source.rooms@[r].room_number,
            source.rooms@[r].exits@[e],
            i,
            k,
        ));
    }
}

/// Whether a clip has the ends of a connection.
pub open spec fn is_copied_as(pasting: Pasting, connection: Connection, i: int) -> bool {
    &&& 0 <= i < pasting.clipboard.connections.len()
    &&& pasting.clipboard.connections[i].body.id == connection.id
    &&& pasting.clipboard.connections[i].body.endpoint_a == connection.endpoint_a
    &&& pasting.clipboard.connections[i].body.endpoint_b == connection.endpoint_b
}

/// Whether an exit of a connection was carried over.
pub open spec fn is_exit_carried(
    after: Links,
    pasting: Pasting,
    ids: PasteIds,
    connection: Connection,
    number: RoomNumber,
    exit: ExitCache,
) -> bool {
    exists|i: int, k: int| #[trigger]
        is_exit_carried_at(after, pasting, ids, connection, number, exit, i, k)
}

/// Whether an exit of a connection was carried over as one of the copied exits, when the
/// connection found a place.
pub open spec fn is_exit_carried_at(
    after: Links,
    pasting: Pasting,
    ids: PasteIds,
    connection: Connection,
    number: RoomNumber,
    exit: ExitCache,
    i: int,
    k: int,
) -> bool {
    &&& is_copied_as(pasting, connection, i)
    &&& pasting.finds_place(pasting.clipboard.connections[i]) ==> {
        let id = ids.members@[i]@[k];
        &&& after.exits.dom().contains(id)
        &&& after.exits[id].0.area_id == pasting.target
        &&& Some(after.exits[id].0.room_number) == pasting.room(number)
        &&& is_same_way(after.exits[id].1, exit, pasting.cleared())
        &&& (exit.to_area_id is None || exit.to_area_id == Some(pasting.source())) && exit.to_room_number is Some
            ==> after.exits[id].1.to_room_number == pasting.room(exit.to_room_number->0)
    }
}

// ===== Routes =====

/// A copied route is seen from the corner of the copied rooms, point by point, and is kept as it
/// is when no room was copied.
pub proof fn law_copied_routes_are_seen_from_the_corner<
    F: Fn(Point, Point) -> Point,
    G: Fn(Point, Point) -> Point,
>(
    least: F,
    minus: G,
    area_id: AreaId,
    area: AreaCache,
    selection: Seq<EntityId>,
    boundary: bool,
    clipboard: clipboard::ClipboardView,
    routes: Seq<Seq<Point>>,
)
    requires
        clipboard::snapshot_by(
            least,
            minus,
            area_id,
            area,
            selection,
            true,
            boundary,
            clipboard,
            routes,
        ),
    ensures
        ({
            let whole = clipboard::whole_connections(
                area,
                cache::selected_connections(selection),
                cache::selected_rooms(selection),
            );
            &&& clipboard::is_origin(
                least,
                clipboard::room_points(area, cache::selected_rooms(selection)),
                clipboard.connection_origin,
            )
            &&& forall|i: int|
                0 <= i < whole.len() ==> is_seen_from(
                    minus,
                    clipboard.connection_origin,
                    whole[i].route_points@,
                    (#[trigger] clipboard.connections[i]).body.route_points,
                )
        }),
{
    let whole = clipboard::whole_connections(
        area,
        cache::selected_connections(selection),
        cache::selected_rooms(selection),
    );
    law_a_snapshot_holds_the_links_of_its_rooms(
        area_id,
        area,
        selection,
        boundary,
        clipboard.connection_origin,
        routes,
    );
    assert forall|i: int| 0 <= i < whole.len() implies is_seen_from(
        minus,
        clipboard.connection_origin,
        whole[i].route_points@,
        (#[trigger] clipboard.connections[i]).body.route_points,
    ) by {
        assert(is_copy_of_connection(clipboard.connections[i], whole[i], area, routes[i]));
        assert(clipboard::route_from(
            minus,
            clipboard.connection_origin,
            whole[i].route_points@,
            routes[i],
        ));
    }
}

/// Whether a route is another one seen from an origin, or the other one when there is none.
pub open spec fn is_seen_from<G: Fn(Point, Point) -> Point>(
    minus: G,
    origin: Option<Point>,
    points: Seq<Point>,
    route: Seq<Point>,
) -> bool {
    &&& route.len() == points.len()
    &&& forall|k: int|
        0 <= k < points.len() ==> match origin {
            Some(corner) => minus.ensures((points[k], corner), #[trigger] route[k]),
            None => route[k] == points[k],
        }
}

} // verus!
