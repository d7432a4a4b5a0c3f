//! Undoing what was done to one link restores exits and connections.

use vstd::prelude::*;

use super::commands::{self, CommandView, Direction, ResolvedId};
use super::compile;
use super::creation::{self, LinkEnds, LinkIds, NewExitTarget, NewLinkOptions};
use super::deletion;
use super::edits;
use super::links;
use super::model::{
    AreaCache, AreaId, AtlasCache, ConnectionId, ExitArgs, ExitCache, ExitDirection, ExitId, Point, RoomCache, RoomKey,
    RoomNumber,
};
use super::mutation::{AreaMutation, Mutation};
use super::reconnecting;
use super::restoring;
use super::wiring::{self, Links};
use super::withdrawing;
use crate::list;

verus! {

// ===== Deletions =====

/// Undoing the deletion of a link brings it back: the connection under its identity
/// with its body, and its exits under theirs with their fields. What was a secret is
/// one again where the viewer may say so, and an exit whose destination was withheld
/// comes back without it. Every other exit and connection is as it was.
pub proof fn law_undoing_a_link_deletion_restores_it(
    atlas: AtlasCache,
    area_id: AreaId,
    connection_id: ConnectionId,
    fresh: Seq<u128>,
    again: Seq<u128>,
    limit: int,
)
    requires
        wiring::told_apart(atlas),
    ensures
        links::delete_connection_command(atlas, area_id, connection_id) matches Some(command) ==> {
            let before = wiring::links_of(atlas);
            let after = wiring::links_undone(command, before, fresh, again, limit);
            let cleared = atlas.area(area_id)->0.access.is_cleared_for_secrets;
            &&& after.connections == before.connections
            &&& forall|id: ExitId|
                #![trigger after.exits.dom().contains(id)]
                after.exits.dom().contains(id) == (before.exits.dom().contains(id) && (
                before.exits[id].1.connection_id != connection_id || before.exits[id].0.area_id == area_id))
            &&& forall|id: ExitId|
                #![trigger after.exits[id]]
                after.exits.dom().contains(id) ==> after.exits[id] == if before.exits[id].1.connection_id
                    == connection_id {
                    (before.exits[id].0, reconnecting::exit_back(before.exits[id].1, cleared))
                } else {
                    before.exits[id]
                }
        },
{
    if let Some(command) = links::delete_connection_command(atlas, area_id, connection_id) {
        let area = atlas.area(area_id)->0;
        let connection = area.connection(connection_id)->0;
        let cleared = area.access.is_cleared_for_secrets;
        let before = wiring::links_of(atlas);
        let first = AreaMutation::DeleteLink { connection_id };
        let back = links::link_restore(area, connection, cleared);
        wiring::lemma_plain_links(
            command,
            before,
            area_id,
            seq![first],
            back,
            fresh,
            again,
            limit,
        );
        wiring::lemma_one_link_written(before, area_id, first);
        let gone = wiring::links_written(before, area_id, first);
        wiring::lemma_connection_in(atlas, area_id, connection_id);
        reconnecting::lemma_link_back(atlas, gone, area_id, connection, cleared);
        let after = wiring::all_links_written(gone, area_id, back);
        assert(after.connections =~= before.connections);
        let only = seq![connection_id];
        assert forall|id: ConnectionId| #[trigger] only.contains(id) == (id == connection_id) by {
            assert(only[0] == connection_id);
        }
    }
}

/// A cached exit is listed with its room.
proof fn lemma_cached_listed(atlas: AtlasCache, key: RoomKey, exit_id: ExitId)
    requires
        links::cached_exit(atlas, key, exit_id) is Some,
    ensures
        wiring::is_listed(atlas, key, links::cached_exit(atlas, key, exit_id)->0),
        (links::cached_exit(atlas, key, exit_id)->0).id == exit_id,
{
    let area = atlas.area(key.area_id)->0;
    let room = area.room(key.room_number)->0;
    let exit = room.exit(exit_id)->0;
    list::lemma_first_exists(atlas.areas@, |item: AreaCache| item.id == key.area_id);
    let a = choose|a: int| 0 <= a < atlas.areas@.len() && atlas.areas@[a] == area;
    list::lemma_first_exists(area.rooms@, |item: RoomCache| item.room_number == key.room_number);
    let r = choose|r: int| 0 <= r < area.rooms@.len() && area.rooms@[r] == room;
    list::lemma_first_exists(room.exits@, |item: ExitCache| item.id == exit_id);
    let e = choose|e: int| 0 <= e < room.exits@.len() && room.exits@[e] == exit;
    wiring::lemma_listed(atlas, a, r, e);
}

/// Whether the exits are those that were there, but for one that came back under a new
/// identity.
pub open spec fn exits_kept(after: Links, before: Links, lost: ExitId, id: ExitId) -> bool {
    &&& after.exits.dom() == before.exits.dom().remove(lost).insert(id)
    &&& forall|other: ExitId|
        #![trigger after.exits[other]]
        before.exits.dom().contains(other) && other != lost ==> after.exits[other] == before.exits[other]
}

/// Whether every connection is as it was, but for one that a lost exit was alone on.
pub open spec fn connections_kept(after: Links, before: Links, lost: ExitCache) -> bool {
    forall|c: ConnectionId|
        #![trigger after.connections.dom().contains(c)]
        before.connections.dom().contains(c) && (c != lost.connection_id || wiring::is_carried(
            before.exits.remove(lost.id),
            c,
        )) ==> after.connections.dom().contains(c) && after.connections[c] == before.connections[c]
}

/// A connection goes with its last exit alone.
proof fn lemma_connections_kept(after: Links, gone: Links, before: Links, area_id: AreaId, exit: ExitCache)
    requires
        gone == wiring::links_written(before, area_id, AreaMutation::DeleteExit { exit_id: exit.id }),
        before.exits[exit.id].1.connection_id == exit.connection_id,
        forall|c: ConnectionId|
            #![trigger after.connections.dom().contains(c)]
            gone.connections.dom().contains(c) ==> after.connections.dom().contains(c),
        forall|c: ConnectionId|
            #![trigger after.connections[c]]
            gone.connections.dom().contains(c) ==> after.connections[c] == gone.connections[c],
    ensures
        connections_kept(after, before, exit),
{
    let rest = before.exits.remove(exit.id);
    assert forall|c: ConnectionId|
        #![trigger after.connections.dom().contains(c)]
        before.connections.dom().contains(c) && (c != exit.connection_id || wiring::is_carried(
            rest,
            c,
        )) implies after.connections.dom().contains(c) && after.connections[c] == before.connections[c] by {
        if wiring::is_carried(before.exits, c) && c != exit.connection_id {
            let other = choose|other: ExitId|
                before.exits.dom().contains(other) && (
                #[trigger] before.exits[other]).1.connection_id == c;
            assert(rest.dom().contains(other) && rest[other].1.connection_id == c);
        }
        assert(gone.connections.dom().contains(c));
    }
}

/// Undoing the deletion of an exit brings it back with its fields, but for its
/// connection, under the new identity that its slot then holds. Every other exit is as
/// it was, and so is every connection but one that it was alone on. What was a secret is
/// one again where the viewer may say so.
pub proof fn law_undoing_an_exit_deletion_restores_it(
    atlas: AtlasCache,
    key: RoomKey,
    exit_id: ExitId,
    fresh: Seq<u128>,
    again: Seq<u128>,
    limit: int,
)
    requires
        wiring::told_apart(atlas),
        again.len() > 0,
        !wiring::links_of(atlas).exits.dom().contains(ExitId(again[0])),
    ensures
        links::delete_exit_command(atlas, key, exit_id) matches Some(command) ==> {
            let before = wiring::links_of(atlas);
            let after = wiring::links_undone(command, before, fresh, again, limit);
            let exit = links::cached_exit(atlas, key, exit_id)->0;
            let cleared = atlas.area(key.area_id)->0.access.is_cleared_for_secrets;
            let id = ExitId(again[0]);
            &&& reconnecting::exit_in(restoring::slots_undone(command, fresh, again, limit), 0) == Some(id)
            &&& reconnecting::is_back(after.exits[id], (key, exit), id, cleared)
            &&& exits_kept(after, before, exit_id, id)
            &&& connections_kept(after, before, exit)
        },
{
    if let Some(command) = links::delete_exit_command(atlas, key, exit_id) {
        let before = wiring::links_of(atlas);
        let exit = links::cached_exit(atlas, key, exit_id)->0;
        let cleared = atlas.area(key.area_id)->0.access.is_cleared_for_secrets;
        let id = ExitId(again[0]);
        lemma_cached_listed(atlas, key, exit_id);
        wiring::lemma_links_of(atlas);
        withdrawing::lemma_one_slot(command.redo[0], command.undo[0]);
        assert(command.redo =~= seq![command.redo[0]]);
        assert(command.undo =~= seq![command.undo[0]]);
        assert(command.resolved_ids.len() == 1);
        assert(command.resolved_ids[0] == Some(ResolvedId::Exit(exit_id)));
        let done = compile::compiled_direction(command, Direction::Redo, fresh, limit);
        let settled = CommandView { resolved_ids: done.resolved_ids, pending: 0, ..command };
        wiring::lemma_one_mutation(before, command, Direction::Redo, fresh, limit);
        let gone = wiring::links_staged(before, done.batches);
        let first = AreaMutation::DeleteExit { exit_id };
        assert(restoring::step_ops(command.resolved_ids, command.redo[0], fresh[0]) =~= seq![first]);
        wiring::lemma_one_link_written(before, key.area_id, first);
        assert(gone == wiring::links_written(before, key.area_id, first));
        assert(done.resolved_ids == command.resolved_ids);
        wiring::lemma_one_mutation(gone, settled, Direction::Undo, again, limit);
        assert(command.undo[0] == deletion::exit_recreated(key, exit, cleared, 0));
        reconnecting::lemma_exit_made(
            gone,
            (key, exit),
            id,
            cleared,
            settled.resolved_ids,
            0,
            again[0],
        );
        let after = wiring::links_undone(command, before, fresh, again, limit);
        let back = compile::compiled_direction(settled, Direction::Undo, again, limit);
        assert(after == wiring::links_staged(gone, back.batches));
        assert(back.resolved_ids == settled.resolved_ids.update(0, Some(ResolvedId::Exit(id))));
        assert(restoring::slots_undone(command, fresh, again, limit) == back.resolved_ids);
        assert(after.exits.dom() =~= before.exits.dom().remove(exit_id).insert(id));
        assert forall|other: ExitId|
            #![trigger after.exits[other]]
            before.exits.dom().contains(other) && other != exit_id implies after.exits[other]
            == before.exits[other] by {
            assert(other != id);
            assert(after.exits[other] == gone.exits[other]);
        }
        assert(reconnecting::is_back(after.exits[id], (key, exit), id, cleared));
        let slots = restoring::slots_undone(command, fresh, again, limit);
        assert(reconnecting::exit_in(slots, 0) == Some(id));
        assert(exits_kept(after, before, exit_id, id));
        lemma_connections_kept(after, gone, before, key.area_id, exit);
    }
}

// ===== New links =====

/// A new exit on a connection that carries others, and its deletion.
proof fn lemma_joined(links: Links, area_id: AreaId, number: RoomNumber, body: ExitArgs<Seq<char>>, id: ExitId)
    requires
        body.id == Some(id),
        !links.exits.dom().contains(id),
        body.connection_id matches Some(c) && links.connections.dom().contains(c)
            && wiring::is_carried(links.exits, c),
    ensures
        wiring::links_written(
            wiring::links_written(
                links,
                area_id,
                AreaMutation::CreateExit { room_number: number, body },
            ),
            area_id,
            AreaMutation::DeleteExit { exit_id: id },
        ) == links,
{
    let first = AreaMutation::CreateExit { room_number: number, body };
    let second = AreaMutation::DeleteExit { exit_id: id };
    let middle = wiring::links_written(links, area_id, first);
    let after = wiring::links_written(middle, area_id, second);
    assert(after.exits =~= links.exits);
    assert forall|c: ConnectionId| wiring::is_carried(middle.exits, c) implies wiring::is_carried(
        links.exits,
        c,
    ) by {
        let exit_id = choose|exit_id: ExitId|
            middle.exits.dom().contains(exit_id) && (
            #[trigger] middle.exits[exit_id]).1.connection_id == c;
        if exit_id != id {
            assert(links.exits.dom().contains(exit_id) && links.exits[exit_id].1.connection_id == c);
        }
    }
    assert(after.connections =~= links.connections);
}

/// Whether no exit leaves a room or leads to it.
pub open spec fn is_unconnected(links: Links, key: RoomKey) -> bool {
    forall|id: ExitId|
        #![trigger links.exits[id]]
        links.exits.dom().contains(id) ==> links.exits[id].0 != key && !wiring::leads_to(
            links.exits[id].1,
            key,
        )
}

/// Deleting a room that no exit leaves or leads to changes no exit and no connection.
pub(crate) proof fn lemma_unconnected(links: Links, area_id: AreaId, number: RoomNumber)
    requires
        is_unconnected(links, RoomKey { area_id, room_number: number }),
    ensures
        wiring::links_written(links, area_id, AreaMutation::DeleteRoom { room_number: number }) == links,
{
    let after = wiring::links_written(links, area_id, AreaMutation::DeleteRoom { room_number: number });
    assert(after.exits =~= links.exits);
    assert(after.connections =~= links.connections);
}

/// Undoing the creation of a room leaves exits and connections as they were.
pub proof fn law_undoing_a_new_room_restores_links(
    links: Links,
    area_id: AreaId,
    room_number: RoomNumber,
    at: Point,
    level: i32,
    fresh: Seq<u128>,
    again: Seq<u128>,
    limit: int,
)
    requires
        is_unconnected(links, RoomKey { area_id, room_number }),
    ensures
        wiring::links_undone(
            commands::new_command(
                seq![
                    Mutation::UpsertRooms(
                        area_id,
                        seq![(room_number, creation::new_room(at, level))],
                    ),
                ],
                seq![Mutation::DeleteRoom(RoomKey { area_id, room_number })],
            ),
            links,
            fresh,
            again,
            limit,
        ) == links,
{
    let command: CommandView = commands::new_command(
        seq![Mutation::UpsertRooms(area_id, seq![(room_number, creation::new_room(at, level))])],
        seq![Mutation::DeleteRoom(RoomKey { area_id, room_number })],
    );
    let done = compile::compiled_direction(command, Direction::Redo, fresh, limit);
    let settled = CommandView { resolved_ids: done.resolved_ids, pending: 0, ..command };
    wiring::lemma_one_mutation(links, command, Direction::Redo, fresh, limit);
    let added = restoring::step_ops(command.resolved_ids, command.redo[0], fresh[0]);
    assert forall|i: int| 0 <= i < added.len() implies wiring::keeps_links(#[trigger] added[i]) by {}
    wiring::lemma_links_kept(links, area_id, added);
    wiring::lemma_one_mutation(links, settled, Direction::Undo, again, limit);
    let op = AreaMutation::DeleteRoom { room_number };
    assert(restoring::step_ops(settled.resolved_ids, command.undo[0], again[0]) =~= seq![op]);
    wiring::lemma_one_link_written(links, area_id, op);
    lemma_unconnected(links, area_id, room_number);
}

/// Undoing the creation of a link leaves exits and connections as they were: the new
/// ones go, whether the link is one-way or not, joins a link that is there, or leads to
/// a room that was created with it.
pub proof fn law_undoing_a_new_link_restores_links(
    links: Links,
    area_id: AreaId,
    ends: LinkEnds,
    options: NewLinkOptions<Seq<char>>,
    ids: LinkIds,
    fresh: Seq<u128>,
    again: Seq<u128>,
    limit: int,
)
    requires
        !links.exits.dom().contains(ids.forward_id),
        !links.exits.dom().contains(ids.reverse_id),
        ids.forward_id != ids.reverse_id,
        !wiring::is_used(links, ids.connection_id),
        options.pair_with matches Some(id) ==> links.connections.dom().contains(id)
            && wiring::is_carried(links.exits, id),
        ends.to matches NewExitTarget::NewRoom { room_number, .. } ==> is_unconnected(
            links,
            RoomKey { area_id, room_number },
        ),
    ensures
        wiring::links_undone(
            commands::new_command(
                seq![
                    edits::batch(
                        area_id,
                        creation::link_writes(area_id, ends, options, ids),
                        creation::link_intent(ends.to, options),
                    ),
                ],
                seq![
                    edits::batch(
                        area_id,
                        creation::link_inverse(ends.to, options, ids),
                        "Undo link creation"@,
                    ),
                ],
            ),
            links,
            fresh,
            again,
            limit,
        ) == links,
{
    let redo = creation::link_writes(area_id, ends, options, ids);
    let undo = creation::link_inverse(ends.to, options, ids);
    let command: CommandView = commands::new_command(
        seq![edits::batch(area_id, redo, creation::link_intent(ends.to, options))],
        seq![edits::batch(area_id, undo, "Undo link creation"@)],
    );
    wiring::lemma_plain_links(command, links, area_id, redo, undo, fresh, again, limit);
    let made = wiring::all_links_written(links, area_id, redo);
    lemma_link_made(links, area_id, ends, options, ids);
    let head = undo[0];
    match ends.to {
        NewExitTarget::NewRoom { room_number, .. } => {
            let tail = AreaMutation::DeleteRoom { room_number };
            assert(undo =~= seq![head] + seq![tail]);
            wiring::lemma_links_written(made, area_id, seq![head], seq![tail]);
            wiring::lemma_one_link_written(made, area_id, head);
            wiring::lemma_one_link_written(links, area_id, tail);
            lemma_unconnected(links, area_id, room_number);
        },
        _ => {
            assert(undo =~= seq![head]);
            wiring::lemma_one_link_written(made, area_id, head);
        },
    }
}

/// The first write that takes a new link back leaves exits and connections as they were.
proof fn lemma_link_made(
    links: Links,
    area_id: AreaId,
    ends: LinkEnds,
    options: NewLinkOptions<Seq<char>>,
    ids: LinkIds,
)
    requires
        !links.exits.dom().contains(ids.forward_id),
        !links.exits.dom().contains(ids.reverse_id),
        ids.forward_id != ids.reverse_id,
        !wiring::is_used(links, ids.connection_id),
        options.pair_with matches Some(id) ==> links.connections.dom().contains(id)
            && wiring::is_carried(links.exits, id),
    ensures
        wiring::links_written(
            wiring::all_links_written(
                links,
                area_id,
                creation::link_writes(area_id, ends, options, ids),
            ),
            area_id,
            creation::link_inverse(ends.to, options, ids)[0],
        ) == links,
{
    let room = creation::link_room(ends.to);
    let joint = creation::link_connection(ends, options, ids);
    let forward = creation::link_forward(area_id, ends, options, ids);
    let reverse = creation::link_reverse(area_id, ends, options, ids);
    let redo = creation::link_writes(area_id, ends, options, ids);
    let head = creation::link_inverse(ends.to, options, ids)[0];
    assert(redo =~= room + joint + seq![forward] + reverse);
    wiring::lemma_links_written(links, area_id, room + joint + seq![forward], reverse);
    wiring::lemma_links_written(links, area_id, room + joint, seq![forward]);
    wiring::lemma_links_written(links, area_id, room, joint);
    assert forall|i: int| 0 <= i < room.len() implies wiring::keeps_links(#[trigger] room[i]) by {}
    wiring::lemma_links_kept(links, area_id, room);
    let joined = wiring::all_links_written(links, area_id, joint);
    wiring::lemma_one_link_written(joined, area_id, forward);
    let there = wiring::links_written(joined, area_id, forward);
    if options.pair_with is Some {
        assert(joint =~= Seq::empty());
        assert(reverse =~= Seq::empty());
        let body = forward->CreateExit_body;
        lemma_joined(links, area_id, ends.from, body, ids.forward_id);
    } else {
        assert(joint =~= seq![joint[0]]);
        wiring::lemma_one_link_written(links, area_id, joint[0]);
        let c = ids.connection_id;
        assert(joined.connections.dom().contains(c));
        assert(there.connections == joined.connections);
        let both = wiring::all_links_written(there, area_id, reverse);
        if reverse.len() > 0 {
            assert(reverse =~= seq![reverse[0]]);
            wiring::lemma_one_link_written(there, area_id, reverse[0]);
        }
        assert(both.connections == joined.connections);
        let after = wiring::links_written(both, area_id, head);
        assert forall|id: ExitId| links.exits.dom().contains(id) implies #[trigger] links.exits[id].1.connection_id
            != c by {}
        assert(after.exits =~= links.exits);
        assert(after.connections =~= links.connections);
    }
}

/// Undoing the creation of a return exit leaves exits and connections as they were.
pub proof fn law_undoing_a_return_exit_restores_links(
    atlas: AtlasCache,
    area_id: AreaId,
    connection_id: ConnectionId,
    back: ExitDirection,
    new_id: ExitId,
    fresh: Seq<u128>,
    again: Seq<u128>,
    limit: int,
)
    requires
        wiring::told_apart(atlas),
        !wiring::links_of(atlas).exits.dom().contains(new_id),
    ensures
        links::return_plan(atlas, area_id, connection_id) matches Some(plan) ==> (links::return_command(
            atlas,
            area_id,
            connection_id,
            plan,
            back,
            new_id,
        ) matches Some(command) ==> wiring::links_undone(
            command,
            wiring::links_of(atlas),
            fresh,
            again,
            limit,
        ) == wiring::links_of(atlas)),
{
    if let Some(plan) = links::return_plan(atlas, area_id, connection_id) {
        if let Some(command) = links::return_command(
            atlas,
            area_id,
            connection_id,
            plan,
            back,
            new_id,
        ) {
            let area = atlas.area(area_id)->0;
            let held = wiring::links_of(atlas);
            let number = plan.exit.to_room_number->0;
            let body = links::return_args(
                plan.exit,
                area_id,
                connection_id,
                plan.from_room,
                back,
                new_id,
                area.access.is_cleared_for_secrets,
            );
            let first = AreaMutation::CreateExit { room_number: number, body };
            let second = AreaMutation::DeleteExit { exit_id: new_id };
            wiring::lemma_plain_links(
                command,
                held,
                area_id,
                seq![first],
                seq![second],
                fresh,
                again,
                limit,
            );
            wiring::lemma_one_link_written(held, area_id, first);
            wiring::lemma_one_link_written(
                wiring::links_written(held, area_id, first),
                area_id,
                second,
            );
            wiring::lemma_connection_in(atlas, area_id, connection_id);
            wiring::lemma_links_of(atlas);
            reconnecting::lemma_members(atlas, area_id, connection_id);
            let members = links::members(area, connection_id);
            assert(members.contains((members[0].0, members[0].1)));
            let key = RoomKey { area_id, room_number: members[0].0 };
            assert(wiring::is_listed(atlas, key, members[0].1));
            let carried = members[0].1.id;
            assert(held.exits[carried].1.connection_id == connection_id);
            lemma_joined(held, area_id, number, body, new_id);
        }
    }
}

// ===== Unlinking and pairing =====

/// Undoing the unlinking of an exit puts it back onto the connection it shared, and
/// leaves every other exit and connection as it was.
pub proof fn law_undoing_an_unlinking_restores_links(
    links: Links,
    area_id: AreaId,
    exit_id: ExitId,
    old_connection_id: ConnectionId,
    new_connection_id: ConnectionId,
    fresh: Seq<u128>,
    again: Seq<u128>,
    limit: int,
)
    requires
        links.exits.dom().contains(exit_id),
        links.exits[exit_id].1.connection_id == old_connection_id,
        !wiring::is_used(links, new_connection_id),
    ensures
        wiring::links_undone(
            links::unlink_command(area_id, exit_id, old_connection_id, new_connection_id),
            links,
            fresh,
            again,
            limit,
        ) == links,
{
    let command = links::unlink_command(area_id, exit_id, old_connection_id, new_connection_id);
    let first = AreaMutation::Unlink { exit_id, new_connection_id };
    let second = AreaMutation::Pair {
        keep_connection_id: old_connection_id,
        merge_connection_id: new_connection_id,
    };
    wiring::lemma_plain_links(
        command,
        links,
        area_id,
        seq![first],
        seq![second],
        fresh,
        again,
        limit,
    );
    wiring::lemma_one_link_written(links, area_id, first);
    let middle = wiring::links_written(links, area_id, first);
    wiring::lemma_one_link_written(middle, area_id, second);
    let after = wiring::links_written(middle, area_id, second);
    assert forall|id: ExitId| links.exits.dom().contains(id) implies #[trigger] links.exits[id].1.connection_id
        != new_connection_id by {}
    assert(after.exits =~= links.exits);
    assert(after.connections =~= links.connections);
}

/// Undoing the pairing of two links splits them again: the exit that was moved is back
/// on its connection, which is there with its body, and every other exit and connection
/// is as it was. The merged link carries one exit and has both its ends, as the two links
/// of a reciprocal pair do.
pub proof fn law_undoing_a_pairing_restores_links(
    atlas: AtlasCache,
    area_id: AreaId,
    keep_connection_id: ConnectionId,
    merge_connection_id: ConnectionId,
    fresh: Seq<u128>,
    again: Seq<u128>,
    limit: int,
)
    requires
        wiring::told_apart(atlas),
        keep_connection_id != merge_connection_id,
        atlas.area(area_id) matches Some(area) && links::members(area, merge_connection_id).len() <= 1 && (
        area.connection(merge_connection_id) matches Some(merge) ==> merge.endpoint_b is Some),
        forall|id: ExitId|
            #![trigger wiring::links_of(atlas).exits[id]]
            wiring::links_of(atlas).exits.dom().contains(id) && wiring::links_of(
                atlas,
            ).exits[id].1.connection_id == merge_connection_id ==> wiring::links_of(
                atlas,
            ).exits[id].0.area_id == area_id,
    ensures
        links::pair_command(atlas, area_id, keep_connection_id, merge_connection_id) matches Some(command)
            ==> wiring::links_undone(command, wiring::links_of(atlas), fresh, again, limit)
            == wiring::links_of(atlas),
{
    if let Some(command) = links::pair_command(
        atlas,
        area_id,
        keep_connection_id,
        merge_connection_id,
    ) {
        let area = atlas.area(area_id)->0;
        let held = wiring::links_of(atlas);
        let merge = area.connection(merge_connection_id)->0;
        let members = links::members(area, merge_connection_id);
        let exit_id = members[0].1.id;
        let first = AreaMutation::Pair { keep_connection_id, merge_connection_id };
        let second = AreaMutation::Unlink { exit_id, new_connection_id: merge_connection_id };
        let third = AreaMutation::UpdateConnection {
            connection_id: merge_connection_id,
            body: links::connection_snapshot(merge),
        };
        wiring::lemma_plain_links(
            command,
            held,
            area_id,
            seq![first],
            seq![second, third],
            fresh,
            again,
            limit,
        );
        wiring::lemma_one_link_written(held, area_id, first);
        let paired = wiring::links_written(held, area_id, first);
        assert(seq![second, third] =~= seq![second] + seq![third]);
        wiring::lemma_links_written(paired, area_id, seq![second], seq![third]);
        wiring::lemma_one_link_written(paired, area_id, second);
        let split = wiring::links_written(paired, area_id, second);
        wiring::lemma_one_link_written(split, area_id, third);
        let after = wiring::links_written(split, area_id, third);
        wiring::lemma_connection_in(atlas, area_id, merge_connection_id);
        wiring::lemma_links_of(atlas);
        reconnecting::lemma_members(atlas, area_id, merge_connection_id);
        assert(members.contains((members[0].0, members[0].1)));
        let key = RoomKey { area_id, room_number: members[0].0 };
        assert(wiring::is_listed(atlas, key, members[0].1));
        assert(held.exits[exit_id] == (key, members[0].1@));
        assert forall|id: ExitId|
            held.exits.dom().contains(id) && (#[trigger] held.exits[id]).1.connection_id
                == merge_connection_id implies id == exit_id by {
            let (other_key, other) = choose|other_key: RoomKey, other: ExitCache| #[trigger]
                wiring::is_listed(atlas, other_key, other) && other.id == id;
            assert(held.exits[id] == (other_key, other@));
            assert(other_key == RoomKey { area_id, room_number: other_key.room_number });
            assert(members.contains((other_key.room_number, other)));
            let m = choose|m: int| 0 <= m < members.len() && members[m] == (other_key.room_number, other);
            assert(m == 0);
        }
        assert(after.exits =~= held.exits);
        assert(wiring::link_updated(
            split.connections[merge_connection_id],
            links::connection_snapshot(merge),
        ) == links::connection_args(merge));
        assert(after.connections =~= held.connections);
    }
}

} // verus!
