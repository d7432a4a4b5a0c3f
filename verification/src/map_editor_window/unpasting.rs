//! Undoing a paste leaves exits and connections as they were.

use vstd::prelude::*;

use super::clipboard::{ClipboardView, ConnectionClipView, RoomClipView};
use super::commands::{CommandView, Direction};
use super::compile;
use super::deletion;
use super::disconnecting;
use super::model::{
    AreaCache, AreaId, AtlasCache, ConnectionId, ExitCache, ExitId, Point, RoomCache, RoomKey, RoomNumber,
};
use super::mutation::{self, AreaMutation, MutationView, OpView};
use super::paste::{self, PasteContext, PasteIds, PastePoints};
use super::restoring;
use super::undoing;
use super::wiring::{self, ExitEntry, Links};
use super::withdrawing;
use crate::list;

verus! {

// ===== Writes that add exits and connections =====

/// The exit that a write creates.
pub open spec fn exit_of(op: OpView) -> Option<ExitId> {
    match op {
        AreaMutation::CreateExit { body, .. } => body.id,
        _ => None,
    }
}

/// The connection that a write creates.
pub open spec fn connection_of(op: OpView) -> Option<ConnectionId> {
    match op {
        AreaMutation::CreateConnection { body } => Some(body.id),
        _ => None,
    }
}

/// Whether a write adds exits and connections at most.
pub open spec fn only_adds(op: OpView) -> bool {
    wiring::keeps_links(op) || exit_of(op) is Some || connection_of(op) is Some
}

/// Whether the exits and connections that writes create are new, and the exits told
/// apart.
pub open spec fn are_new(links: Links, ops: Seq<OpView>) -> bool {
    &&& forall|i: int|
        #![trigger ops[i]]
        0 <= i < ops.len() ==> (exit_of(ops[i]) matches Some(id) ==> !links.exits.dom().contains(id)) && (
        connection_of(ops[i]) matches Some(id) ==> !wiring::is_used(links, id))
    &&& forall|i: int, j: int|
        #![trigger ops[i], ops[j]]
        0 <= i < j < ops.len() && exit_of(ops[i]) is Some ==> exit_of(ops[i]) != exit_of(ops[j])
}

/// Whether an exit is the one that a write creates.
pub open spec fn is_made_by(op: OpView, area_id: AreaId, id: ExitId, entry: ExitEntry) -> bool {
    match op {
        AreaMutation::CreateExit { room_number, body } => {
            &&& body.id == Some(id)
            &&& entry.0 == (RoomKey { area_id, room_number })
            &&& entry.1 == wiring::created_exit(id, entry.1.connection_id, body)
            &&& body.connection_id matches Some(connection_id) ==> entry.1.connection_id == connection_id
        },
        _ => false,
    }
}

/// Whether exits and connections hold all of others.
pub open spec fn hold_all(links: Links, held: Links) -> bool {
    &&& forall|id: ExitId|
        #![trigger held.exits.dom().contains(id)]
        #![trigger links.exits[id]]
        held.exits.dom().contains(id) ==> links.exits.dom().contains(id) && links.exits[id]
            == held.exits[id]
    &&& forall|id: ConnectionId|
        #![trigger held.connections.dom().contains(id)]
        #![trigger links.connections[id]]
        held.connections.dom().contains(id) ==> links.connections.dom().contains(id)
            && links.connections[id] == held.connections[id]
}

/// What writes that only add leave.
pub(crate) proof fn lemma_added(held: Links, area_id: AreaId, ops: Seq<OpView>)
    requires
        are_new(held, ops),
        forall|i: int| 0 <= i < ops.len() ==> only_adds(#[trigger] ops[i]),
    ensures
        ({
            let after = wiring::all_links_written(held, area_id, ops);
            &&& hold_all(after, held)
            &&& forall|i: int|
                #![trigger ops[i]]
                0 <= i < ops.len() ==> (exit_of(ops[i]) matches Some(id) ==> after.exits.dom().contains(
                    id,
                ) && is_made_by(ops[i], area_id, id, after.exits[id]))
            &&& forall|id: ExitId|
                #![trigger after.exits.dom().contains(id)]
                after.exits.dom().contains(id) && !held.exits.dom().contains(id) ==> exists|i: int|
                    0 <= i < ops.len() && exit_of(#[trigger] ops[i]) == Some(id)
            &&& forall|id: ConnectionId|
                #![trigger after.connections.dom().contains(id)]
                after.connections.dom().contains(id) && !held.connections.dom().contains(id) ==> (
                exists|i: int| 0 <= i < ops.len() && connection_of(#[trigger] ops[i]) == Some(id))
                    || wiring::is_carried(after.exits, id)
        }),
    decreases ops.len(),
{
    if ops.len() > 0 {
        let rest = ops.drop_last();
        let at = ops.len() - 1;
        let last = ops[at];
        assert forall|i: int| 0 <= i < rest.len() implies #[trigger] rest[i] == ops[i] by {}
        assert(are_new(held, rest));
        assert forall|i: int| 0 <= i < rest.len() implies only_adds(#[trigger] rest[i]) by {
            assert(rest[i] == ops[i]);
        }
        lemma_added(held, area_id, rest);
        let middle = wiring::all_links_written(held, area_id, rest);
        let after = wiring::all_links_written(held, area_id, ops);
        assert(after == wiring::links_written(middle, area_id, last));
        assert(only_adds(last));
        assert forall|id: ExitId| #[trigger] middle.exits.dom().contains(id) implies exit_of(last) != Some(id) by {
            if !held.exits.dom().contains(id) {
                let i = choose|i: int| 0 <= i < rest.len() && exit_of(#[trigger] rest[i]) == Some(id);
                assert(rest[i] == ops[i]);
                assert(exit_of(ops[i]) != exit_of(ops[at]));
            }
        }
        assert forall|id: ExitId| #[trigger] middle.exits.dom().contains(id) implies after.exits.dom().contains(id)
            && after.exits[id] == middle.exits[id] by {}
        assert forall|id: ConnectionId| wiring::is_carried(
            middle.exits,
            id,
        ) implies #[trigger] wiring::is_carried(after.exits, id) by {
            let e = choose|e: ExitId|
                middle.exits.dom().contains(e) && (#[trigger] middle.exits[e]).1.connection_id == id;
            assert(after.exits.dom().contains(e) && after.exits[e].1.connection_id == id);
        }
        assert forall|i: int|
            #![trigger ops[i]]
            0 <= i < ops.len() implies (exit_of(ops[i]) matches Some(id) ==> after.exits.dom().contains(
            id,
        ) && is_made_by(ops[i], area_id, id, after.exits[id])) by {
            if i < at {
                assert(rest[i] == ops[i]);
            }
        }
        assert forall|id: ExitId|
            #![trigger after.exits.dom().contains(id)]
            after.exits.dom().contains(id) && !held.exits.dom().contains(id) implies exists|i: int|
            0 <= i < ops.len() && exit_of(#[trigger] ops[i]) == Some(id) by {
            if middle.exits.dom().contains(id) {
                let i = choose|i: int| 0 <= i < rest.len() && exit_of(#[trigger] rest[i]) == Some(id);
                assert(exit_of(ops[i]) == Some(id));
            } else {
                assert(exit_of(ops[at]) == Some(id));
            }
        }
        assert forall|id: ConnectionId|
            #![trigger after.connections.dom().contains(id)]
            after.connections.dom().contains(id) && !held.connections.dom().contains(id) implies (
        exists|i: int| 0 <= i < ops.len() && connection_of(#[trigger] ops[i]) == Some(id))
            || wiring::is_carried(after.exits, id) by {
            if middle.connections.dom().contains(id) {
                if !wiring::is_carried(middle.exits, id) {
                    let i = choose|i: int|
                        0 <= i < rest.len() && connection_of(#[trigger] rest[i]) == Some(id);
                    assert(connection_of(ops[i]) == Some(id));
                }
            } else if connection_of(last) is Some {
                assert(connection_of(ops[at]) == Some(id));
            } else {
                let e = exit_of(last)->0;
                assert(after.exits.dom().contains(e) && after.exits[e].1.connection_id == id);
            }
        }
    }
}

// ===== Writes that take them back =====

/// Whether a connection is there exactly when an exit is on it.
pub open spec fn is_sound(links: Links) -> bool {
    forall|id: ConnectionId|
        #![trigger links.connections.dom().contains(id)]
        #![trigger wiring::is_carried(links.exits, id)]
        links.connections.dom().contains(id) == wiring::is_carried(links.exits, id)
}

/// Whether a write deletes a link or a room, and touches none of the given exits and
/// connections.
pub open spec fn spares(held: Links, area_id: AreaId, op: OpView) -> bool {
    match op {
        AreaMutation::DeleteLink { connection_id } => !wiring::is_used(held, connection_id),
        AreaMutation::DeleteRoom { room_number } => disconnecting::is_unconnected(
            held,
            RoomKey { area_id, room_number },
        ),
        _ => false,
    }
}

/// Whether a write takes an exit away.
pub open spec fn takes(op: OpView, area_id: AreaId, entry: ExitEntry) -> bool {
    match op {
        AreaMutation::DeleteLink { connection_id } => entry.1.connection_id == connection_id,
        AreaMutation::DeleteRoom { room_number } => entry.0 == (RoomKey { area_id, room_number }),
        _ => false,
    }
}

/// Whether one of some writes takes an exit away.
pub open spec fn is_taken(ops: Seq<OpView>, area_id: AreaId, entry: ExitEntry) -> bool {
    exists|i: int| 0 <= i < ops.len() && takes(#[trigger] ops[i], area_id, entry)
}

/// Whether one of some writes deletes a link.
pub open spec fn deletes_link(ops: Seq<OpView>, id: ConnectionId) -> bool {
    ops.contains(AreaMutation::DeleteLink { connection_id: id })
}

/// Whether what is there beside some exits and connections is taken away.
pub open spec fn is_withdrawn(links: Links, held: Links, area_id: AreaId, ops: Seq<OpView>) -> bool {
    &&& hold_all(links, held)
    &&& forall|id: ExitId|
        #![trigger links.exits.dom().contains(id)]
        links.exits.dom().contains(id) && !held.exits.dom().contains(id) ==> is_taken(
            ops,
            area_id,
            links.exits[id],
        )
    &&& forall|id: ConnectionId|
        #![trigger links.connections.dom().contains(id)]
        links.connections.dom().contains(id) && !held.connections.dom().contains(id) ==> wiring::is_carried(
            links.exits,
            id,
        ) || deletes_link(ops, id)
}

/// One write that takes back.
proof fn lemma_one_withdrawn(links: Links, held: Links, area_id: AreaId, ops: Seq<OpView>)
    requires
        ops.len() > 0,
        is_sound(held),
        spares(held, area_id, ops[0]),
        is_withdrawn(links, held, area_id, ops),
    ensures
        is_withdrawn(
            wiring::links_written(links, area_id, ops[0]),
            held,
            area_id,
            ops.skip(1),
        ),
{
    let first = ops[0];
    let rest = ops.skip(1);
    let after = wiring::links_written(links, area_id, first);
    assert forall|id: ExitId|
        #![trigger after.exits.dom().contains(id)]
        after.exits.dom().contains(id) implies links.exits.dom().contains(id) && after.exits[id].0
        == links.exits[id].0 && after.exits[id].1.connection_id == links.exits[id].1.connection_id && !takes(
        first,
        area_id,
        links.exits[id],
    ) by {}
    assert forall|id: ExitId|
        #![trigger held.exits.dom().contains(id)]
        held.exits.dom().contains(id) implies after.exits.dom().contains(id) && after.exits[id]
        == held.exits[id] by {
        assert(links.exits[id] == held.exits[id]);
        if let AreaMutation::DeleteLink { connection_id } = first {
            assert(held.exits[id].1.connection_id != connection_id);
        }
    }
    assert forall|id: ExitId|
        #![trigger after.exits.dom().contains(id)]
        after.exits.dom().contains(id) && !held.exits.dom().contains(id) implies is_taken(
        rest,
        area_id,
        after.exits[id],
    ) by {
        assert(is_taken(ops, area_id, links.exits[id]));
        let i = choose|i: int| 0 <= i < ops.len() && takes(#[trigger] ops[i], area_id, links.exits[id]);
        assert(i > 0);
        assert(rest[i - 1] == ops[i]);
        assert(takes(rest[i - 1], area_id, after.exits[id]));
    }
    assert forall|id: ConnectionId|
        #![trigger held.connections.dom().contains(id)]
        held.connections.dom().contains(id) implies after.connections.dom().contains(id)
        && after.connections[id] == held.connections[id] by {
        assert(wiring::is_carried(held.exits, id));
        let e = choose|e: ExitId|
            held.exits.dom().contains(e) && (#[trigger] held.exits[e]).1.connection_id == id;
        assert(after.exits.dom().contains(e) && after.exits[e].1.connection_id == id);
        assert(wiring::is_carried(after.exits, id));
        assert(links.connections.dom().contains(id));
    }
    assert forall|id: ConnectionId|
        #![trigger after.connections.dom().contains(id)]
        after.connections.dom().contains(id) && !held.connections.dom().contains(id) implies wiring::is_carried(
        after.exits,
        id,
    ) || deletes_link(rest, id) by {
        assert(links.connections.dom().contains(id));
        if wiring::is_carried(links.exits, id) {
            if let AreaMutation::DeleteLink { connection_id } = first {
                let e = choose|e: ExitId|
                    links.exits.dom().contains(e) && (#[trigger] links.exits[e]).1.connection_id == id;
                assert(after.exits.dom().contains(e) && after.exits[e].1.connection_id == id);
            }
        } else {
            let op: OpView = AreaMutation::DeleteLink { connection_id: id };
            let i = choose|i: int| 0 <= i < ops.len() && ops[i] == op;
            assert(i > 0);
            assert(rest[i - 1] == op);
        }
    }
}

/// Writes that take everything back leave what was there.
proof fn lemma_withdrawn(links: Links, held: Links, area_id: AreaId, ops: Seq<OpView>)
    requires
        is_sound(held),
        forall|i: int| 0 <= i < ops.len() ==> spares(held, area_id, #[trigger] ops[i]),
        is_withdrawn(links, held, area_id, ops),
    ensures
        wiring::all_links_written(links, area_id, ops) == held,
    decreases ops.len(),
{
    if ops.len() == 0 {
        assert forall|id: ExitId| links.exits.dom().contains(id) implies held.exits.dom().contains(id) by {}
        assert(links.exits =~= held.exits);
        assert(links.connections =~= held.connections);
    } else {
        let first = ops[0];
        let rest = ops.skip(1);
        assert(ops =~= seq![first] + rest);
        wiring::lemma_links_written(links, area_id, seq![first], rest);
        wiring::lemma_one_link_written(links, area_id, first);
        let after = wiring::links_written(links, area_id, first);
        lemma_one_withdrawn(links, held, area_id, ops);
        assert forall|i: int| 0 <= i < rest.len() implies spares(held, area_id, #[trigger] rest[i]) by {
            assert(rest[i] == ops[i + 1]);
        }
        lemma_withdrawn(after, held, area_id, rest);
    }
}

// ===== What a paste writes =====

/// Whether a copied connection has an exit, and each of its exits leaves one of its ends.
pub open spec fn is_whole(clip: ConnectionClipView) -> bool {
    &&& clip.members.len() > 0
    &&& forall|i: int|
        0 <= i < clip.members.len() ==> (#[trigger] clip.members[i]).0 == clip.body.endpoint_a.room_number || (
        clip.body.endpoint_b matches Some(end) && clip.members[i].0 == end.room_number)
}

/// Whether the exit that a write creates goes with a room or with a link.
pub open spec fn comes_out(op: OpView, rooms: Seq<RoomNumber>, undo_links: Seq<OpView>) -> bool {
    match op {
        AreaMutation::CreateExit { room_number, body } => rooms.contains(room_number) || (
        body.connection_id matches Some(id) && deletes_link(undo_links, id)),
        _ => true,
    }
}

/// Whether a write creates an exit on a connection.
pub open spec fn puts_exit_on(op: OpView, id: ConnectionId) -> bool {
    match op {
        AreaMutation::CreateExit { body, .. } => body.id is Some && body.connection_id == Some(id),
        _ => false,
    }
}

/// Whether one of some writes creates an exit on a connection.
pub open spec fn some_put_exit_on(ops: Seq<OpView>, id: ConnectionId) -> bool {
    exists|i: int| 0 <= i < ops.len() && puts_exit_on(#[trigger] ops[i], id)
}

/// Whether one of some writes creates a connection.
pub open spec fn some_create(ops: Seq<OpView>, id: ConnectionId) -> bool {
    exists|i: int| 0 <= i < ops.len() && connection_of(#[trigger] ops[i]) == Some(id)
}

/// Whether what some writes add goes with rooms and links.
pub open spec fn all_come_out(ops: Seq<OpView>, rooms: Seq<RoomNumber>, undo_links: Seq<OpView>) -> bool {
    &&& forall|i: int| 0 <= i < ops.len() ==> only_adds(#[trigger] ops[i])
    &&& forall|i: int| 0 <= i < ops.len() ==> comes_out(#[trigger] ops[i], rooms, undo_links)
    &&& forall|id: ConnectionId| #[trigger]
        some_create(ops, id) ==> deletes_link(undo_links, id) || some_put_exit_on(ops, id)
    &&& forall|i: int|
        0 <= i < undo_links.len() ==> ((#[trigger] undo_links[i]) matches AreaMutation::DeleteLink {
            connection_id,
        } && some_create(ops, connection_id))
}

/// Writes one after the other that come out.
proof fn lemma_both_come_out(
    a: Seq<OpView>,
    b: Seq<OpView>,
    rooms: Seq<RoomNumber>,
    early: Seq<OpView>,
    late: Seq<OpView>,
)
    requires
        all_come_out(a, rooms, early),
        all_come_out(b, rooms, late),
    ensures
        all_come_out(a + b, rooms, early + late),
{
    let ops = a + b;
    let undo = early + late;
    assert forall|id: ConnectionId| deletes_link(early, id) || deletes_link(late, id) implies #[trigger] deletes_link(
        undo,
        id,
    ) by {
        let op: OpView = AreaMutation::DeleteLink { connection_id: id };
        if early.contains(op) {
            let k = choose|k: int| 0 <= k < early.len() && early[k] == op;
            assert(undo[k] == op);
        } else {
            let k = choose|k: int| 0 <= k < late.len() && late[k] == op;
            assert(undo[early.len() + k] == op);
        }
    }
    assert forall|i: int| 0 <= i < ops.len() implies only_adds(#[trigger] ops[i]) && comes_out(
        ops[i],
        rooms,
        undo,
    ) by {
        if i < a.len() {
            assert(ops[i] == a[i]);
            assert(only_adds(a[i]) && comes_out(a[i], rooms, early));
        } else {
            assert(ops[i] == b[i - a.len()]);
            assert(only_adds(b[i - a.len()]) && comes_out(b[i - a.len()], rooms, late));
        }
    }
    assert forall|id: ConnectionId| some_put_exit_on(a, id) || some_put_exit_on(
        b,
        id,
    ) implies #[trigger] some_put_exit_on(ops, id) by {
        if some_put_exit_on(a, id) {
            let k = choose|k: int| 0 <= k < a.len() && puts_exit_on(#[trigger] a[k], id);
            assert(ops[k] == a[k]);
        } else {
            let k = choose|k: int| 0 <= k < b.len() && puts_exit_on(#[trigger] b[k], id);
            assert(ops[a.len() + k] == b[k]);
        }
    }
    assert forall|id: ConnectionId| #[trigger] some_create(ops, id) == (some_create(a, id) || some_create(b, id)) by {
        if some_create(a, id) {
            let k = choose|k: int| 0 <= k < a.len() && connection_of(#[trigger] a[k]) == Some(id);
            assert(ops[k] == a[k]);
        }
        if some_create(b, id) {
            let k = choose|k: int| 0 <= k < b.len() && connection_of(#[trigger] b[k]) == Some(id);
            assert(ops[a.len() + k] == b[k]);
        }
        if some_create(ops, id) {
            let k = choose|k: int| 0 <= k < ops.len() && connection_of(#[trigger] ops[k]) == Some(id);
            if k < a.len() {
                assert(connection_of(a[k]) == Some(id));
            } else {
                assert(connection_of(b[k - a.len()]) == Some(id));
            }
        }
    }
    assert forall|i: int| 0 <= i < undo.len() implies ((#[trigger] undo[i]) matches AreaMutation::DeleteLink {
        connection_id,
    } && some_create(ops, connection_id)) by {
        if i < early.len() {
            assert(undo[i] == early[i]);
        } else {
            assert(undo[i] == late[i - early.len()]);
        }
    }
}

/// A copied room that has a place is pasted.
proof fn lemma_mapped_pasted(context: PasteContext, rooms: Seq<RoomClipView>, number: RoomNumber)
    requires
        paste::mapped(context.mapping, number) is Some,
        context.mapping.len() == rooms.len(),
        forall|i: int|
            0 <= i < rooms.len() ==> (#[trigger] context.mapping[i]).0 == rooms[i].room_number,
    ensures
        paste::pasted_numbers(context, rooms).contains(paste::mapped(context.mapping, number)->0),
{
    lemma_mapped_named(context.mapping, number);
    let i = choose|i: int| 0 <= i < context.mapping.len() && (#[trigger] context.mapping[i]).0 == number;
    let numbers = paste::pasted_numbers(context, rooms);
    assert(numbers[i] == paste::mapped(context.mapping, number)->0);
}

/// A number that is mapped is recorded.
pub(crate) proof fn lemma_mapped_named(mapping: Seq<(RoomNumber, RoomNumber)>, number: RoomNumber)
    requires
        paste::mapped(mapping, number) is Some,
    ensures
        exists|i: int| 0 <= i < mapping.len() && (#[trigger] mapping[i]).0 == number,
    decreases mapping.len(),
{
    if mapping.last().0 == number {
        assert(mapping[mapping.len() - 1].0 == number);
    } else {
        lemma_mapped_named(mapping.drop_last(), number);
        let i = choose|i: int|
            0 <= i < mapping.drop_last().len() && (#[trigger] mapping.drop_last()[i]).0 == number;
        assert(mapping[i].0 == number);
    }
}

/// A pasted connection and its exits go with the rooms or with the link.
proof fn lemma_connection_comes_out(
    context: PasteContext,
    clip: ConnectionClipView,
    id: ConnectionId,
    ids: Seq<ExitId>,
    route: Seq<Point>,
    rooms: Seq<RoomClipView>,
)
    requires
        is_whole(clip),
        context.mapping.len() == rooms.len(),
        forall|i: int|
            0 <= i < rooms.len() ==> (#[trigger] context.mapping[i]).0 == rooms[i].room_number,
    ensures
        all_come_out(
            paste::connection_writes(context, clip, id, ids, route),
            paste::pasted_numbers(context, rooms),
            if paste::on_existing_room(context, clip) {
                seq![AreaMutation::DeleteLink { connection_id: id }]
            } else {
                Seq::empty()
            },
        ),
{
    let ops = paste::connection_writes(context, clip, id, ids, route);
    let numbers = paste::pasted_numbers(context, rooms);
    let op: OpView = AreaMutation::DeleteLink { connection_id: id };
    let undo = if paste::on_existing_room(context, clip) {
        seq![op]
    } else {
        Seq::empty()
    };
    assert(connection_of(ops[0]) == Some(id));
    assert(some_create(ops, id));
    assert(ops[1] == paste::member_write(context, clip.members[0], ids[0], id));
    assert(puts_exit_on(ops[1], id));
    assert(some_put_exit_on(ops, id));
    assert forall|i: int| 0 <= i < ops.len() implies only_adds(#[trigger] ops[i]) && comes_out(
        ops[i],
        numbers,
        undo,
    ) by {
        if i > 0 {
            let member = clip.members[i - 1];
            assert(ops[i] == paste::member_write(context, member, ids[i - 1], id));
            if paste::on_existing_room(context, clip) {
                assert(undo[0] == op);
                assert(deletes_link(undo, id));
            } else {
                assert(paste::mapped(context.mapping, member.0) is Some);
                lemma_mapped_pasted(context, rooms, member.0);
            }
        }
    }
    assert forall|other: ConnectionId| #[trigger] some_create(ops, other) implies other == id by {
        let k = choose|k: int| 0 <= k < ops.len() && connection_of(#[trigger] ops[k]) == Some(other);
        if k > 0 {
            assert(ops[k] == paste::member_write(context, clip.members[k - 1], ids[k - 1], id));
        }
    }
}

/// Pasted connections and their exits go with the rooms or with the links.
proof fn lemma_connections_come_out(
    context: PasteContext,
    clips: Seq<ConnectionClipView>,
    ids: PasteIds,
    routes: Seq<Vec<Point>>,
    rooms: Seq<RoomClipView>,
)
    requires
        forall|i: int| 0 <= i < clips.len() ==> is_whole(#[trigger] clips[i]),
        context.mapping.len() == rooms.len(),
        forall|i: int|
            0 <= i < rooms.len() ==> (#[trigger] context.mapping[i]).0 == rooms[i].room_number,
    ensures
        ({
            let all = paste::connections_paste(context, clips, ids, routes);
            all_come_out(all.writes, paste::pasted_numbers(context, rooms), all.undo_links)
        }),
    decreases clips.len(),
{
    let all = paste::connections_paste(context, clips, ids, routes);
    let numbers = paste::pasted_numbers(context, rooms);
    if clips.len() > 0 {
        let rest = clips.drop_last();
        assert forall|i: int| 0 <= i < rest.len() implies is_whole(#[trigger] rest[i]) by {
            assert(rest[i] == clips[i]);
        }
        lemma_connections_come_out(context, rest, ids, routes, rooms);
        let before = paste::connections_paste(context, rest, ids, routes);
        let k = clips.len() - 1;
        let clip = clips[k];
        if paste::connection_fits(context, clip) {
            let id = ids.connections@[k];
            let late = paste::connection_writes(context, clip, id, ids.members@[k]@, routes[k]@);
            let undo: Seq<OpView> = if paste::on_existing_room(context, clip) {
                seq![AreaMutation::DeleteLink { connection_id: id }]
            } else {
                Seq::empty()
            };
            lemma_connection_comes_out(context, clip, id, ids.members@[k]@, routes[k]@, rooms);
            lemma_both_come_out(before.writes, late, numbers, before.undo_links, undo);
            assert(all.undo_links =~= before.undo_links + undo);
        }
    } else {
        assert forall|id: ConnectionId| !#[trigger] some_create(all.writes, id) by {}
    }
}

/// The exits that are pasted with rooms go with them.
proof fn lemma_exits_come_out(
    context: PasteContext,
    rooms: Seq<RoomClipView>,
    ids: Seq<Vec<ExitId>>,
    numbers: Seq<RoomNumber>,
)
    requires
        forall|i: int|
            0 <= i < rooms.len() ==> numbers.contains(paste::pasted_number(context, #[trigger] rooms[i])),
    ensures
        all_come_out(paste::rooms_exit_writes(context, rooms, ids), numbers, Seq::empty()),
    decreases rooms.len(),
{
    let ops = paste::rooms_exit_writes(context, rooms, ids);
    if rooms.len() > 0 {
        let rest = rooms.drop_last();
        let k = rooms.len() - 1;
        assert forall|i: int| 0 <= i < rest.len() implies numbers.contains(
            paste::pasted_number(context, #[trigger] rest[i]),
        ) by {
            assert(rest[i] == rooms[i]);
        }
        lemma_exits_come_out(context, rest, ids, numbers);
        let early = paste::rooms_exit_writes(context, rest, ids);
        let late = paste::room_exit_writes(context, rooms[k], ids[k]@);
        assert(numbers.contains(paste::pasted_number(context, rooms[k])));
        assert forall|id: ConnectionId| !#[trigger] some_create(late, id) by {}
        assert(all_come_out(late, numbers, Seq::empty()));
        lemma_both_come_out(early, late, numbers, Seq::empty(), Seq::empty());
        assert(Seq::<OpView>::empty() + Seq::<OpView>::empty() =~= Seq::<OpView>::empty());
    } else {
        assert forall|id: ConnectionId| !#[trigger] some_create(ops, id) by {}
    }
}

/// The writes of pasted rooms touch no exit and no connection.
proof fn lemma_rooms_come_out(
    context: PasteContext,
    rooms: Seq<RoomClipView>,
    points: Seq<Point>,
    numbers: Seq<RoomNumber>,
)
    ensures
        all_come_out(paste::rooms_writes(context, rooms, points), numbers, Seq::empty()),
    decreases rooms.len(),
{
    let ops = paste::rooms_writes(context, rooms, points);
    if rooms.len() > 0 {
        let rest = rooms.drop_last();
        let k = rooms.len() - 1;
        lemma_rooms_come_out(context, rest, points, numbers);
        let early = paste::rooms_writes(context, rest, points);
        let late = paste::room_writes(context, rooms[k], points[k]);
        let number = paste::pasted_number(context, rooms[k]);
        assert forall|i: int| 0 <= i < late.len() implies wiring::keeps_links(#[trigger] late[i]) by {
            if i > 0 {
                let pairs = rooms[k].properties.map_values(
                    |pair: (Seq<char>, Seq<char>)| paste::pasted_property(number, pair),
                );
                assert(late[i] == pairs[i - 1]);
            }
        }
        assert forall|id: ConnectionId| !#[trigger] some_create(late, id) by {
            if some_create(late, id) {
                let i = choose|i: int| 0 <= i < late.len() && connection_of(#[trigger] late[i]) == Some(id);
                assert(wiring::keeps_links(late[i]));
            }
        }
        assert(all_come_out(late, numbers, Seq::empty()));
        lemma_both_come_out(early, late, numbers, Seq::empty(), Seq::empty());
        assert(Seq::<OpView>::empty() + Seq::<OpView>::empty() =~= Seq::<OpView>::empty());
    } else {
        assert forall|id: ConnectionId| !#[trigger] some_create(ops, id) by {}
    }
}

/// The writes of a paste and those that take it back leave exits and connections as they
/// were.
proof fn lemma_paste_withdrawn(
    held: Links,
    area_id: AreaId,
    writes: Seq<OpView>,
    numbers: Seq<RoomNumber>,
    undo_links: Seq<OpView>,
)
    requires
        is_sound(held),
        are_new(held, writes),
        all_come_out(writes, numbers, undo_links),
        forall|i: int|
            0 <= i < numbers.len() ==> disconnecting::is_unconnected(
                held,
                RoomKey { area_id, room_number: #[trigger] numbers[i] },
            ),
    ensures
        wiring::all_links_written(
            wiring::all_links_written(held, area_id, writes),
            area_id,
            undo_links + paste::room_deletes(numbers),
        ) == held,
{
    let deletes = paste::room_deletes(numbers);
    let undo = undo_links + deletes;
    let after = wiring::all_links_written(held, area_id, writes);
    lemma_added(held, area_id, writes);
    assert forall|i: int| 0 <= i < undo.len() implies spares(held, area_id, #[trigger] undo[i]) by {
        if i < undo_links.len() {
            assert(undo[i] == undo_links[i]);
            let id = undo_links[i]->DeleteLink_connection_id;
            assert(some_create(writes, id));
            let k = choose|k: int| 0 <= k < writes.len() && connection_of(#[trigger] writes[k]) == Some(id);
            assert(!wiring::is_used(held, id));
        } else {
            let k = i - undo_links.len();
            assert(undo[i] == paste::room_delete(numbers[k]));
        }
    }
    assert forall|id: ConnectionId| deletes_link(undo_links, id) implies #[trigger] deletes_link(undo, id) by {
        let op: OpView = AreaMutation::DeleteLink { connection_id: id };
        let k = choose|k: int| 0 <= k < undo_links.len() && undo_links[k] == op;
        assert(undo[k] == op);
    }
    assert forall|id: ExitId|
        #![trigger after.exits.dom().contains(id)]
        after.exits.dom().contains(id) && !held.exits.dom().contains(id) implies is_taken(
        undo,
        area_id,
        after.exits[id],
    ) by {
        let i = choose|i: int| 0 <= i < writes.len() && exit_of(#[trigger] writes[i]) == Some(id);
        assert(is_made_by(writes[i], area_id, id, after.exits[id]));
        assert(comes_out(writes[i], numbers, undo_links));
        let number = writes[i]->CreateExit_room_number;
        if numbers.contains(number) {
            let k = choose|k: int| 0 <= k < numbers.len() && numbers[k] == number;
            assert(undo[undo_links.len() + k] == paste::room_delete(number));
            assert(takes(undo[undo_links.len() + k], area_id, after.exits[id]));
        } else {
            let c = writes[i]->CreateExit_body.connection_id->0;
            let op: OpView = AreaMutation::DeleteLink { connection_id: c };
            assert(deletes_link(undo, c));
            let k = choose|k: int| 0 <= k < undo.len() && undo[k] == op;
            assert(takes(undo[k], area_id, after.exits[id]));
        }
    }
    assert forall|id: ConnectionId|
        #![trigger after.connections.dom().contains(id)]
        after.connections.dom().contains(id) && !held.connections.dom().contains(id) implies wiring::is_carried(
        after.exits,
        id,
    ) || deletes_link(undo, id) by {
        if !wiring::is_carried(after.exits, id) {
            assert(some_create(writes, id));
            if some_put_exit_on(writes, id) {
                let k = choose|k: int| 0 <= k < writes.len() && puts_exit_on(#[trigger] writes[k], id);
                let e = exit_of(writes[k])->0;
                assert(is_made_by(writes[k], area_id, e, after.exits[e]));
                assert(after.exits.dom().contains(e) && after.exits[e].1.connection_id == id);
            }
        }
    }
    lemma_withdrawn(after, held, area_id, undo);
}

/// What a list that starts with a batch and leaves exits and connections alone after
/// that leaves of them.
pub(crate) proof fn lemma_headed(
    links: Links,
    command: CommandView,
    direction: Direction,
    area_id: AreaId,
    present: bool,
    ops: Seq<OpView>,
    description: Seq<char>,
    late: Seq<MutationView>,
    fresh: Seq<u128>,
    limit: int,
)
    requires
        command.mutations(direction) == withdrawing::as_batch(area_id, present, ops, description) + late,
        fresh.len() >= 1 + late.len(),
        wiring::all_spare(late, 0),
        mutation::fills_in(late, command.resolved_ids.len() as int),
        !present ==> ops.len() == 0,
    ensures
        ({
            let done = compile::compiled_direction(command, direction, fresh, limit);
            &&& wiring::links_staged(links, done.batches) == wiring::all_links_written(
                links,
                area_id,
                ops,
            )
            &&& done.resolved_ids.len() == command.resolved_ids.len()
        }),
{
    let start = restoring::compile_start(command);
    let head = withdrawing::as_batch(area_id, present, ops, description);
    restoring::lemma_compiled_concat(start, head, late, fresh, command.id, limit);
    let first = compile::compiled(start, head, fresh, command.id, limit);
    assert(wiring::links_staged(links, start.batches) == links);
    if present {
        reveal_with_fuel(compile::compiled, 2);
        assert(head.drop_last() =~= Seq::empty());
        wiring::lemma_links_step(links, start, head[0], fresh[0], command.id, limit);
        assert(restoring::step_ops(start.resolved_ids, head[0], fresh[0]) =~= ops);
    }
    assert(wiring::links_staged(links, first.batches) == wiring::all_links_written(links, area_id, ops));
    assert(first.resolved_ids == command.resolved_ids);
    wiring::lemma_links_spared(
        links,
        first,
        late,
        0,
        fresh.skip(head.len() as int),
        command.id,
        limit,
    );
}

/// No exit leaves or leads to a room that is not there.
proof fn lemma_nothing_at(atlas: AtlasCache, area_id: AreaId, number: RoomNumber)
    requires
        wiring::told_apart(atlas),
        leads_to_rooms(atlas, area_id),
        atlas.area(area_id) matches Some(area) && area.room(number) is None,
    ensures
        disconnecting::is_unconnected(
            wiring::links_of(atlas),
            RoomKey { area_id, room_number: number },
        ),
{
    let area = atlas.area(area_id)->0;
    let held = wiring::links_of(atlas);
    let room = RoomKey { area_id, room_number: number };
    wiring::lemma_links_of(atlas);
    list::lemma_first_exists(atlas.areas@, |item: AreaCache| item.id == area_id);
    let at = choose|at: int| 0 <= at < atlas.areas@.len() && atlas.areas@[at] == area;
    assert forall|id: ExitId|
        #![trigger held.exits[id]]
        held.exits.dom().contains(id) implies held.exits[id].0 != room && !wiring::leads_to(
        held.exits[id].1,
        room,
    ) by {
        let (key, exit) = choose|key: RoomKey, exit: ExitCache| #[trigger]
            wiring::is_listed(atlas, key, exit) && exit.id == id;
        assert(held.exits[id] == (key, exit@));
        if key == room {
            wiring::lemma_stands(atlas, key, exit);
            let (a, r, e) = choose|a: int, r: int, e: int| wiring::stands_at(atlas, key, exit, a, r, e);
            assert(atlas.areas@[a].id == atlas.areas@[at].id);
            assert(a == at);
            let p = |item: RoomCache| item.room_number == number;
            assert(p(area.rooms@[r]));
            list::lemma_first_exists(area.rooms@, p);
        }
    }
}

/// Whether no exit leads to a room of an area that is not there.
pub open spec fn leads_to_rooms(atlas: AtlasCache, area_id: AreaId) -> bool {
    forall|id: ExitId, number: RoomNumber|
        wiring::links_of(atlas).exits.dom().contains(id) && #[trigger] wiring::leads_to(
            wiring::links_of(atlas).exits[id].1,
            RoomKey { area_id, room_number: number },
        ) ==> (atlas.area(area_id) matches Some(area) ==> area.room(number) is Some)
}

/// Undoing a paste leaves exits and connections as they were.
///
/// A connection is cached exactly when one of its exits is, no cached exit leads to a
/// room that is not there, and each copied connection was copied with its exits, which
/// leave its ends.
pub proof fn law_undoing_a_paste_restores_links(
    atlas: AtlasCache,
    area_id: AreaId,
    clipboard: ClipboardView,
    level: i32,
    points: PastePoints,
    ids: PasteIds,
    next_room_number: Option<RoomNumber>,
    fresh: Seq<u128>,
    again: Seq<u128>,
    limit: int,
)
    requires
        wiring::told_apart(atlas),
        is_sound(wiring::links_of(atlas)),
        leads_to_rooms(atlas, area_id),
        paste::rooms_fit(atlas, area_id, clipboard, next_room_number),
        forall|i: int| 0 <= i < clipboard.connections.len() ==> is_whole(#[trigger] clipboard.connections[i]),
        clipboard.labels.len() + clipboard.shapes.len() <= usize::MAX,
        atlas.area(area_id) matches Some(area) ==> are_new(
            wiring::links_of(atlas),
            paste::paste_writes(
                paste::paste_context(atlas, area, area_id, clipboard, next_room_number),
                clipboard,
                points,
                ids,
            ),
        ),
        fresh.len() >= 1 + clipboard.labels.len() + clipboard.shapes.len(),
        again.len() >= 1 + clipboard.labels.len() + clipboard.shapes.len(),
    ensures
        paste::pasted(
            atlas,
            area_id,
            clipboard,
            level,
            points,
            ids,
            next_room_number,
            limit,
        ).command matches Some(command) ==> wiring::links_undone(
            command,
            wiring::links_of(atlas),
            fresh,
            again,
            limit,
        ) == wiring::links_of(atlas),
{
    if let Some(command) = paste::pasted(
        atlas,
        area_id,
        clipboard,
        level,
        points,
        ids,
        next_room_number,
        limit,
    ).command {
        let area = atlas.area(area_id)->0;
        let held = wiring::links_of(atlas);
        let context = paste::paste_context(atlas, area, area_id, clipboard, next_room_number);
        let numbers = paste::pasted_numbers(context, clipboard.rooms);
        let writes = paste::paste_writes(context, clipboard, points, ids);
        let links = paste::connections_paste(context, clipboard.connections, ids, points.routes@);
        let back_ops = links.undo_links + paste::room_deletes(numbers);
        let present = writes.len() != 0;
        let labels = clipboard.labels.len();
        let shapes = clipboard.shapes.len();
        let b = paste::labels_pasted(
            area_id,
            clipboard.labels,
            points.labels@,
            context.same_area,
            level,
        );
        let c = paste::shapes_pasted(
            area_id,
            clipboard.shapes,
            points.shapes@,
            context.same_area,
            level,
            labels as int,
        );
        let v = deletion::labels_deleted(area_id, labels, 0);
        let w = deletion::shapes_deleted(area_id, shapes, labels as int);
        let intent = paste::paste_description(numbers.len());
        let a = withdrawing::as_batch(area_id, present, writes, intent);
        let u = withdrawing::as_batch(area_id, present, back_ops, "Undo paste"@);
        assert(command.redo =~= a + (b + c));
        assert(command.redo =~= a + b + c);
        assert(command.undo =~= u + (v + w));
        withdrawing::lemma_paste_slots(a, b, c, command.undo);
        assert(command.resolved_ids.len() >= labels + shapes);
        lemma_paste_comes_out(atlas, area, area_id, clipboard, points, ids, next_room_number);
        let back_flat = if present {
            back_ops
        } else {
            Seq::empty()
        };
        assert(wiring::all_spare(b + c, 0));
        assert(mutation::fills_in(b + c, command.resolved_ids.len() as int));
        lemma_headed(held, command, Direction::Redo, area_id, present, writes, intent, b + c, fresh, limit);
        let done = compile::compiled_direction(command, Direction::Redo, fresh, limit);
        let settled = CommandView { resolved_ids: done.resolved_ids, pending: 0, ..command };
        let middle = wiring::links_staged(held, done.batches);
        assert(wiring::all_spare(v + w, 0));
        assert(mutation::fills_in(v + w, settled.resolved_ids.len() as int));
        assert(withdrawing::as_batch(area_id, present, back_flat, "Undo paste"@) =~= u);
        lemma_headed(
            middle,
            settled,
            Direction::Undo,
            area_id,
            present,
            back_flat,
            "Undo paste"@,
            v + w,
            again,
            limit,
        );
        if present {
            withdrawing::lemma_numbers_vacant(atlas, area, area_id, clipboard, next_room_number);
            assert forall|i: int| 0 <= i < numbers.len() implies disconnecting::is_unconnected(
                held,
                RoomKey { area_id, room_number: #[trigger] numbers[i] },
            ) by {
                assert(!undoing::world_of(area).rooms.dom().contains(numbers[i]));
                lemma_nothing_at(atlas, area_id, numbers[i]);
            }
            lemma_paste_withdrawn(held, area_id, writes, numbers, links.undo_links);
        }
    }
}

/// What a paste writes goes with the rooms and the links that its undoing deletes.
proof fn lemma_paste_comes_out(
    atlas: AtlasCache,
    area: AreaCache,
    area_id: AreaId,
    clipboard: ClipboardView,
    points: PastePoints,
    ids: PasteIds,
    next_room_number: Option<RoomNumber>,
)
    requires
        forall|i: int| 0 <= i < clipboard.connections.len() ==> is_whole(#[trigger] clipboard.connections[i]),
    ensures
        ({
            let context = paste::paste_context(atlas, area, area_id, clipboard, next_room_number);
            all_come_out(
                paste::paste_writes(context, clipboard, points, ids),
                paste::pasted_numbers(context, clipboard.rooms),
                paste::connections_paste(context, clipboard.connections, ids, points.routes@).undo_links,
            )
        }),
{
    let context = paste::paste_context(atlas, area, area_id, clipboard, next_room_number);
    let rooms = clipboard.rooms;
    let numbers = paste::pasted_numbers(context, rooms);
    let links = paste::connections_paste(context, clipboard.connections, ids, points.routes@);
    let none = Seq::<OpView>::empty();
    assert forall|i: int| 0 <= i < rooms.len() implies numbers.contains(
        paste::pasted_number(context, #[trigger] rooms[i]),
    ) by {
        assert(numbers[i] == paste::pasted_number(context, rooms[i]));
    }
    let a = paste::rooms_writes(context, rooms, points.rooms@);
    let b = paste::rooms_exit_writes(context, rooms, ids.room_exits@);
    lemma_rooms_come_out(context, rooms, points.rooms@, numbers);
    lemma_exits_come_out(context, rooms, ids.room_exits@, numbers);
    lemma_connections_come_out(context, clipboard.connections, ids, points.routes@, rooms);
    lemma_both_come_out(a, b, numbers, none, none);
    assert(none + none =~= none);
    lemma_both_come_out(a + b, links.writes, numbers, none, links.undo_links);
    assert(none + links.undo_links =~= links.undo_links);
}

} // verus!
