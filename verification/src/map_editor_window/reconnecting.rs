//! What is left of exits and connections when a deletion is undone.

use vstd::prelude::*;

use super::cache;
use super::commands::{self, CommandView, Direction, ResolvedId};
use super::compile::{self, CompiledView};
use super::deletion::{self, DeletionParts};
use super::edits;
use super::links;
use super::model::{
    AreaCache, AreaId, AtlasCache, Connection, ConnectionId, EntityId, ExitArgs, ExitCache, ExitId, RoomCache, RoomKey,
    RoomNumber,
};
use super::mutation::{self, AreaMutation, IdRef, Mutation, MutationView, OpView};
use super::relinking::{self, ExitState};
use super::restoring;
use super::wiring::{self, ExitEntry, Links};
use crate::list;

verus! {

// ===== What a deletion takes =====

/// The exits and connections that deleted links leave.
proof fn lemma_links_deleted(links: Links, area_id: AreaId, list: Seq<Connection>)
    ensures
        ({
            let after = wiring::all_links_written(links, area_id, deletion::link_deletes(list));
            let ids = deletion::connection_ids(list);
            &&& forall|id: ExitId|
                #![trigger after.exits.dom().contains(id)]
                after.exits.dom().contains(id) == (links.exits.dom().contains(id) && !ids.contains(
                    links.exits[id].1.connection_id,
                ))
            &&& forall|id: ExitId|
                #![trigger after.exits[id]]
                after.exits.dom().contains(id) ==> after.exits[id] == links.exits[id]
            &&& forall|id: ConnectionId|
                #![trigger after.connections.dom().contains(id)]
                after.connections.dom().contains(id) == (links.connections.dom().contains(id)
                    && !ids.contains(id))
            &&& forall|id: ConnectionId|
                #![trigger after.connections[id]]
                after.connections.dom().contains(id) ==> after.connections[id] == links.connections[id]
        }),
    decreases list.len(),
{
    let ops = deletion::link_deletes(list);
    let ids = deletion::connection_ids(list);
    if list.len() > 0 {
        let rest = list.drop_last();
        let last = list.last().id;
        lemma_links_deleted(links, area_id, rest);
        assert(ops.drop_last() =~= deletion::link_deletes(rest));
        assert(ops.last() == deletion::link_delete(list.last()));
        let earlier = deletion::connection_ids(rest);
        assert(ids =~= earlier.push(last));
        assert forall|id: ConnectionId| #[trigger] ids.contains(id) == (earlier.contains(id) || id == last) by {
            lemma_pushed(earlier, last, id);
        }
        let middle = wiring::all_links_written(links, area_id, deletion::link_deletes(rest));
        let after = wiring::all_links_written(links, area_id, ops);
        assert(after == wiring::links_written(middle, area_id, ops.last()));
        assert forall|id: ExitId|
            #![trigger after.exits.dom().contains(id)]
            after.exits.dom().contains(id) == (links.exits.dom().contains(id) && !ids.contains(
                links.exits[id].1.connection_id,
            )) by {
            assert(middle.exits.dom().contains(id) ==> middle.exits[id] == links.exits[id]);
        }
    } else {
        assert(ids.len() == 0);
    }
}

/// What a list holds with one more element.
proof fn lemma_pushed<A>(list: Seq<A>, last: A, item: A)
    ensures
        list.push(last).contains(item) == (list.contains(item) || item == last),
{
    let all = list.push(last);
    if list.contains(item) {
        let k = choose|k: int| 0 <= k < list.len() && list[k] == item;
        assert(all[k] == item);
    }
    assert(all[list.len() as int] == last);
    if all.contains(item) {
        let k = choose|k: int| 0 <= k < all.len() && all[k] == item;
        if k < list.len() {
            assert(list[k] == item);
        }
    }
}

/// Whether a room is one of an area's deleted rooms.
pub open spec fn is_gone(area_id: AreaId, rooms: Seq<RoomCache>, key: RoomKey) -> bool {
    key.area_id == area_id && restoring::names_room(rooms, key.room_number)
}

/// Whether an exit leads to one of an area's deleted rooms.
pub open spec fn leads_to_gone(area_id: AreaId, rooms: Seq<RoomCache>, exit: ExitState) -> bool {
    match (exit.to_area_id, exit.to_room_number) {
        (Some(to_area), Some(to_room)) => is_gone(
            area_id,
            rooms,
            RoomKey { area_id: to_area, room_number: to_room },
        ),
        _ => false,
    }
}

/// An exit after rooms were deleted.
pub open spec fn bereft(area_id: AreaId, rooms: Seq<RoomCache>, entry: ExitEntry) -> ExitEntry {
    if leads_to_gone(area_id, rooms, entry.1) {
        (entry.0, wiring::unhooked(entry.1))
    } else {
        entry
    }
}

/// The exits and connections that deleted rooms leave.
proof fn lemma_rooms_deleted(
    links: Links,
    start: CompiledView,
    area_id: AreaId,
    rooms: Seq<RoomCache>,
    fresh: Seq<u128>,
    command: commands::CommandId,
    limit: int,
)
    ensures
        ({
            let end = compile::compiled(
                start,
                deletion::rooms_deleted(area_id, rooms),
                fresh,
                command,
                limit,
            );
            let before = wiring::links_staged(links, start.batches);
            let after = wiring::links_staged(links, end.batches);
            &&& end.resolved_ids == start.resolved_ids
            &&& forall|id: ExitId|
                #![trigger after.exits.dom().contains(id)]
                after.exits.dom().contains(id) == (before.exits.dom().contains(id) && !is_gone(
                    area_id,
                    rooms,
                    before.exits[id].0,
                ))
            &&& forall|id: ExitId|
                #![trigger after.exits[id]]
                after.exits.dom().contains(id) ==> after.exits[id] == bereft(
                    area_id,
                    rooms,
                    before.exits[id],
                )
            &&& forall|id: ConnectionId|
                #![trigger after.connections.dom().contains(id)]
                before.connections.dom().contains(id) && wiring::is_carried(after.exits, id)
                    ==> after.connections.dom().contains(id)
            &&& forall|id: ConnectionId|
                #![trigger after.connections[id]]
                after.connections.dom().contains(id) ==> after.connections[id] == before.connections[id]
        }),
    decreases rooms.len(),
{
    let mutations = deletion::rooms_deleted(area_id, rooms);
    let end = compile::compiled(start, mutations, fresh, command, limit);
    let before = wiring::links_staged(links, start.batches);
    let after = wiring::links_staged(links, end.batches);
    if rooms.len() == 0 {
        assert forall|key: RoomKey| !#[trigger] is_gone(area_id, rooms, key) by {}
    } else {
        let rest = rooms.drop_last();
        let last = rooms.last();
        let at = rooms.len() - 1;
        lemma_rooms_deleted(links, start, area_id, rest, fresh, command, limit);
        assert(mutations.drop_last() =~= deletion::rooms_deleted(area_id, rest));
        assert(mutations.last() == deletion::room_deleted(area_id, last));
        let halfway = compile::compiled(
            start,
            deletion::rooms_deleted(area_id, rest),
            fresh,
            command,
            limit,
        );
        let middle = wiring::links_staged(links, halfway.batches);
        wiring::lemma_links_step(links, halfway, mutations.last(), fresh[at], command, limit);
        let op = AreaMutation::DeleteRoom { room_number: last.room_number };
        assert(restoring::step_ops(halfway.resolved_ids, mutations.last(), fresh[at]) =~= seq![op]);
        wiring::lemma_one_link_written(middle, area_id, op);
        assert(after == wiring::links_written(middle, area_id, op));
        let key = RoomKey { area_id, room_number: last.room_number };
        assert forall|other: RoomKey| #[trigger]
            is_gone(area_id, rooms, other) == (is_gone(area_id, rest, other) || other == key) by {
            lemma_one_more_gone(area_id, rooms, other);
        }
        assert forall|id: ExitId| #[trigger] after.exits.dom().contains(id) implies after.exits[id] == bereft(
            area_id,
            rooms,
            before.exits[id],
        ) by {
            assert(middle.exits.dom().contains(id));
            assert(middle.exits[id] == bereft(area_id, rest, before.exits[id]));
        }
        assert forall|id: ConnectionId|
            #![trigger after.connections.dom().contains(id)]
            before.connections.dom().contains(id) && wiring::is_carried(
                after.exits,
                id,
            ) implies after.connections.dom().contains(id) by {
            let exit_id = choose|exit_id: ExitId|
                after.exits.dom().contains(exit_id) && (
                #[trigger] after.exits[exit_id]).1.connection_id == id;
            assert(middle.exits.dom().contains(exit_id));
            assert(middle.exits[exit_id].1.connection_id == id);
            assert(wiring::is_carried(middle.exits, id));
            assert(middle.connections.dom().contains(id));
        }
    }
}

/// The deleted rooms are those before the last, and the last.
proof fn lemma_one_more_gone(area_id: AreaId, rooms: Seq<RoomCache>, key: RoomKey)
    requires
        rooms.len() > 0,
    ensures
        is_gone(area_id, rooms, key) == (is_gone(area_id, rooms.drop_last(), key) || key == (RoomKey {
            area_id,
            room_number: rooms.last().room_number,
        })),
{
    let rest = rooms.drop_last();
    if restoring::names_room(rest, key.room_number) {
        let i = choose|i: int| 0 <= i < rest.len() && (#[trigger] rest[i]).room_number == key.room_number;
        assert(rooms[i].room_number == key.room_number);
    }
    assert(rooms[rooms.len() - 1] == rooms.last());
    if restoring::names_room(rooms, key.room_number) {
        let i = choose|i: int| 0 <= i < rooms.len() && (#[trigger] rooms[i]).room_number == key.room_number;
        if i < rest.len() {
            assert(rest[i].room_number == key.room_number);
        }
    }
}

// ===== Exits that come back under new identities =====

/// An exit that comes back: a secret again only where the viewer may say so, and
/// without a destination that was withheld.
pub open spec fn exit_back(exit: ExitState, cleared: bool) -> ExitState {
    ExitCache { is_secret: exit.is_secret && cleared, to_unknown: false, ..exit }
}

/// Whether an exit is another come back under a new identity, on whatever connection.
pub open spec fn is_back(entry: ExitEntry, lost: (RoomKey, ExitCache), id: ExitId, cleared: bool) -> bool {
    &&& entry.0 == lost.0
    &&& entry.1 == exit_back(
        ExitCache { id, connection_id: entry.1.connection_id, ..lost.1@ },
        cleared,
    )
}

/// Whether a list restores properties and recreates exits, in consecutive slots.
pub open spec fn makes(mutations: Seq<MutationView>, made: Seq<(RoomKey, ExitCache)>, cleared: bool) -> bool
    decreases mutations.len(),
{
    if mutations.len() == 0 {
        made.len() == 0
    } else {
        match mutations.last() {
            Mutation::SetRoomProperty(..) => makes(mutations.drop_last(), made, cleared),
            Mutation::CreateExit { .. } => {
                &&& made.len() > 0
                &&& mutations.last() == deletion::exit_recreated(
                    made.last().0,
                    made.last().1,
                    cleared,
                    made.len() - 1,
                )
                &&& makes(mutations.drop_last(), made.drop_last(), cleared)
            },
            _ => false,
        }
    }
}

/// Exits, each with its room.
pub open spec fn keyed(key: RoomKey, exits: Seq<ExitCache>) -> Seq<(RoomKey, ExitCache)> {
    exits.map_values(|exit: ExitCache| (key, exit))
}

/// The exits that are recreated with rooms, each with its room, in slot order.
pub open spec fn rooms_made(area_id: AreaId, rooms: Seq<RoomCache>, restored: Seq<ConnectionId>) -> Seq<
    (RoomKey, ExitCache),
>
    decreases rooms.len(),
{
    if rooms.len() == 0 {
        Seq::empty()
    } else {
        rooms_made(area_id, rooms.drop_last(), restored) + keyed(
            RoomKey { area_id, room_number: rooms.last().room_number },
            deletion::kept_exits(rooms.last().exits@, restored),
        )
    }
}

/// Properties make no exits.
proof fn lemma_makes_properties(
    mutations: Seq<MutationView>,
    made: Seq<(RoomKey, ExitCache)>,
    cleared: bool,
    key: RoomKey,
    pairs: Seq<(Seq<char>, Seq<char>)>,
)
    requires
        makes(mutations, made, cleared),
    ensures
        makes(mutations + deletion::properties_restored(key, pairs), made, cleared),
    decreases pairs.len(),
{
    let more = deletion::properties_restored(key, pairs);
    if pairs.len() == 0 {
        assert(mutations + more =~= mutations);
    } else {
        let rest = pairs.drop_last();
        lemma_makes_properties(mutations, made, cleared, key, rest);
        assert((mutations + more).drop_last() =~= mutations + deletion::properties_restored(key, rest));
        assert((mutations + more).last() == deletion::property_restored(key, pairs.last()));
    }
}

/// Recreated exits.
proof fn lemma_makes_exits(
    mutations: Seq<MutationView>,
    made: Seq<(RoomKey, ExitCache)>,
    cleared: bool,
    key: RoomKey,
    exits: Seq<ExitCache>,
)
    requires
        makes(mutations, made, cleared),
    ensures
        makes(
            mutations + deletion::exits_recreated(key, exits, cleared, made.len() as int),
            made + keyed(key, exits),
            cleared,
        ),
    decreases exits.len(),
{
    let base = made.len() as int;
    let more = deletion::exits_recreated(key, exits, cleared, base);
    let all = made + keyed(key, exits);
    if exits.len() == 0 {
        assert(mutations + more =~= mutations);
        assert(all =~= made);
    } else {
        let rest = exits.drop_last();
        lemma_makes_exits(mutations, made, cleared, key, rest);
        assert((mutations + more).drop_last() =~= mutations + deletion::exits_recreated(
            key,
            rest,
            cleared,
            base,
        ));
        assert(all.drop_last() =~= made + keyed(key, rest));
        assert(all.last() == (key, exits.last()));
    }
}

/// The contents of recreated rooms.
proof fn lemma_makes_rooms(
    area_id: AreaId,
    rooms: Seq<RoomCache>,
    restored: Seq<ConnectionId>,
    cleared: bool,
)
    ensures
        makes(
            deletion::rooms_contents(area_id, rooms, restored, cleared),
            rooms_made(area_id, rooms, restored),
            cleared,
        ),
        rooms_made(area_id, rooms, restored).len() == deletion::rooms_exits(rooms, restored).len(),
        forall|k: int|
            #![trigger rooms_made(area_id, rooms, restored)[k]]
            0 <= k < rooms_made(area_id, rooms, restored).len() ==> rooms_made(
                area_id,
                rooms,
                restored,
            )[k].1 == deletion::rooms_exits(rooms, restored)[k],
    decreases rooms.len(),
{
    if rooms.len() > 0 {
        let rest = rooms.drop_last();
        let last = rooms.last();
        lemma_makes_rooms(area_id, rest, restored, cleared);
        let early = deletion::rooms_contents(area_id, rest, restored, cleared);
        let made = rooms_made(area_id, rest, restored);
        let key = RoomKey { area_id, room_number: last.room_number };
        let pairs = deletion::sorted_pairs(last.properties@);
        let kept = deletion::kept_exits(last.exits@, restored);
        lemma_makes_properties(early, made, cleared, key, pairs);
        let halfway = early + deletion::properties_restored(key, pairs);
        lemma_makes_exits(halfway, made, cleared, key, kept);
        let all = deletion::rooms_contents(area_id, rooms, restored, cleared);
        assert(all =~= halfway + deletion::exits_recreated(key, kept, cleared, made.len() as int));
        let before = deletion::rooms_exits(rest, restored);
        let exits = deletion::rooms_exits(rooms, restored);
        assert(exits == before + kept);
        assert forall|k: int|
            #![trigger rooms_made(area_id, rooms, restored)[k]]
            0 <= k < rooms_made(area_id, rooms, restored).len() implies rooms_made(
            area_id,
            rooms,
            restored,
        )[k].1 == exits[k] by {
            if k < made.len() {
                assert(rooms_made(area_id, rooms, restored)[k] == made[k]);
            }
        }
    }
}

/// Whether one of the first `n` new identities is an exit's.
pub open spec fn is_new_exit(fresh: Seq<u128>, n: int, id: ExitId) -> bool {
    exists|i: int| 0 <= i < n && ExitId(#[trigger] fresh[i]) == id
}

/// Whether a slot holds an exit.
pub open spec fn holds_exit(slots: Seq<Option<ResolvedId>>, k: int, id: ExitId) -> bool {
    0 <= k < slots.len() && slots[k] == Some(ResolvedId::Exit(id))
}

/// Whether a slot holds an exit that is another come back.
pub open spec fn slot_back(
    after: Links,
    slots: Seq<Option<ResolvedId>>,
    k: int,
    lost: (RoomKey, ExitCache),
    cleared: bool,
) -> bool {
    slots[k] matches Some(ResolvedId::Exit(id)) && after.exits.dom().contains(id) && is_back(
        after.exits[id],
        lost,
        id,
        cleared,
    )
}

/// The writes that recreate an exit leave it come back.
pub(crate) proof fn lemma_exit_made(
    links: Links,
    lost: (RoomKey, ExitCache),
    id: ExitId,
    cleared: bool,
    slots: Seq<Option<ResolvedId>>,
    slot: int,
    fresh: u128,
)
    requires
        id == ExitId(fresh),
    ensures
        ({
            let mutation = deletion::exit_recreated(lost.0, lost.1, cleared, slot);
            let after = wiring::all_links_written(
                links,
                lost.0.area_id,
                restoring::step_ops(slots, mutation, fresh),
            );
            &&& after.exits.dom() == links.exits.dom().insert(id)
            &&& is_back(after.exits[id], lost, id, cleared)
            &&& forall|other: ExitId|
                #![trigger after.exits[other]]
                other != id ==> after.exits[other] == links.exits[other]
            &&& forall|c: ConnectionId|
                #![trigger after.connections.dom().contains(c)]
                links.connections.dom().contains(c) ==> after.connections.dom().contains(c)
            &&& forall|c: ConnectionId|
                #![trigger after.connections[c]]
                links.connections.dom().contains(c) ==> after.connections[c] == links.connections[c]
        }),
{
    let mutation = deletion::exit_recreated(lost.0, lost.1, cleared, slot);
    let ops = restoring::step_ops(slots, mutation, fresh);
    let args = links::exit_args(lost.1, cleared);
    let body = ExitArgs { id: Some(id), ..args };
    let first = AreaMutation::CreateExit { room_number: lost.0.room_number, body };
    let second = AreaMutation::UpdateExit { exit_id: id, body: links::exit_snapshot(lost.1) };
    assert(ops =~= seq![first] + seq![second]);
    let area_id = lost.0.area_id;
    wiring::lemma_links_written(links, area_id, seq![first], seq![second]);
    wiring::lemma_one_link_written(links, area_id, first);
    let middle = wiring::links_written(links, area_id, first);
    wiring::lemma_one_link_written(middle, area_id, second);
    let after = wiring::links_written(middle, area_id, second);
    let c = wiring::new_exit_connection(links, body);
    let made = wiring::created_exit(id, c, body);
    assert(middle.exits[id] == (lost.0, made));
    assert(relinking::exit_updated(made, links::exit_snapshot(lost.1)) == exit_back(
        ExitCache { id, connection_id: c, ..lost.1@ },
        cleared,
    ));
    assert(after.exits.dom() =~= links.exits.dom().insert(id));
}

/// What recreated exits leave: each is there under its new identity, which its slot
/// holds.
proof fn lemma_exits_made(
    links: Links,
    start: CompiledView,
    mutations: Seq<MutationView>,
    made: Seq<(RoomKey, ExitCache)>,
    cleared: bool,
    fresh: Seq<u128>,
    command: commands::CommandId,
    limit: int,
)
    requires
        makes(mutations, made, cleared),
        fresh.len() >= mutations.len(),
        fresh.no_duplicates(),
        made.len() <= start.resolved_ids.len(),
        made.len() <= usize::MAX,
        forall|i: int|
            0 <= i < mutations.len() ==> !wiring::links_staged(links, start.batches).exits.dom().contains(
                ExitId(#[trigger] fresh[i]),
            ),
    ensures
        ({
            let end = compile::compiled(start, mutations, fresh, command, limit);
            let before = wiring::links_staged(links, start.batches);
            let after = wiring::links_staged(links, end.batches);
            let slots = end.resolved_ids;
            &&& slots.len() == start.resolved_ids.len()
            &&& forall|k: int|
                #![trigger made[k]]
                0 <= k < made.len() ==> slot_back(after, slots, k, made[k], cleared)
            &&& forall|k: int, id: ExitId|
                0 <= k < made.len() && #[trigger] holds_exit(slots, k, id) ==> is_new_exit(
                    fresh,
                    mutations.len() as int,
                    id,
                )
            &&& forall|j: int, k: int|
                #![trigger slots[j], slots[k]]
                0 <= j < k < made.len() ==> slots[j] != slots[k]
            &&& forall|id: ExitId|
                #![trigger after.exits.dom().contains(id)]
                before.exits.dom().contains(id) ==> after.exits.dom().contains(id)
            &&& forall|id: ExitId|
                #![trigger after.exits[id]]
                before.exits.dom().contains(id) ==> after.exits[id] == before.exits[id]
            &&& forall|id: ExitId|
                #![trigger after.exits.dom().contains(id)]
                after.exits.dom().contains(id) && !before.exits.dom().contains(id) ==> exists|k: int|
                    0 <= k < made.len() && #[trigger] holds_exit(slots, k, id)
            &&& forall|id: ConnectionId|
                #![trigger after.connections.dom().contains(id)]
                before.connections.dom().contains(id) ==> after.connections.dom().contains(id)
            &&& forall|id: ConnectionId|
                #![trigger after.connections[id]]
                before.connections.dom().contains(id) ==> after.connections[id] == before.connections[id]
        }),
    decreases mutations.len(),
{
    let end = compile::compiled(start, mutations, fresh, command, limit);
    let before = wiring::links_staged(links, start.batches);
    let after = wiring::links_staged(links, end.batches);
    let slots = end.resolved_ids;
    if mutations.len() > 0 {
        let rest = mutations.drop_last();
        let last = mutations.last();
        let at = mutations.len() - 1;
        let halfway = compile::compiled(start, rest, fresh, command, limit);
        let middle = wiring::links_staged(links, halfway.batches);
        wiring::lemma_links_step(links, halfway, last, fresh[at], command, limit);
        assert forall|id: ExitId, n: int|
            #![trigger is_new_exit(fresh, n, id)]
            n == rest.len() && is_new_exit(fresh, n, id) implies is_new_exit(
            fresh,
            mutations.len() as int,
            id,
        ) by {
            let i = choose|i: int| 0 <= i < n && ExitId(#[trigger] fresh[i]) == id;
            assert(ExitId(fresh[i]) == id);
        }
        if last is SetRoomProperty {
            lemma_exits_made(links, start, rest, made, cleared, fresh, command, limit);
            let added = restoring::step_ops(halfway.resolved_ids, last, fresh[at]);
            wiring::lemma_links_kept(middle, wiring::area_of(last), added);
            assert(after == middle);
            assert(slots == halfway.resolved_ids);
        } else {
            let fewer = made.drop_last();
            let k_last = made.len() - 1;
            let lost = made.last();
            let id = ExitId(fresh[at]);
            lemma_exits_made(links, start, rest, fewer, cleared, fresh, command, limit);
            lemma_exit_made(middle, lost, id, cleared, halfway.resolved_ids, k_last, fresh[at]);
            assert(slots == halfway.resolved_ids.update(k_last, Some(ResolvedId::Exit(id))));
            assert(!middle.exits.dom().contains(id)) by {
                if middle.exits.dom().contains(id) {
                    assert(!before.exits.dom().contains(ExitId(fresh[at])));
                    let k = choose|k: int|
                        0 <= k < fewer.len() && #[trigger] holds_exit(halfway.resolved_ids, k, id);
                    assert(is_new_exit(fresh, rest.len() as int, id));
                    let i = choose|i: int| 0 <= i < rest.len() && ExitId(#[trigger] fresh[i]) == id;
                    assert(fresh[i] == fresh[at]);
                }
            }
            assert forall|k: int|
                #![trigger made[k]]
                0 <= k < made.len() implies slot_back(after, slots, k, made[k], cleared) by {
                if k < k_last {
                    assert(fewer[k] == made[k]);
                    assert(slot_back(middle, halfway.resolved_ids, k, made[k], cleared));
                    assert(slots[k] == halfway.resolved_ids[k]);
                }
            }
            assert forall|k: int, other: ExitId|
                0 <= k < made.len() && #[trigger] holds_exit(slots, k, other) implies is_new_exit(
                fresh,
                mutations.len() as int,
                other,
            ) by {
                if k < k_last {
                    assert(holds_exit(halfway.resolved_ids, k, other));
                    assert(is_new_exit(fresh, rest.len() as int, other));
                } else {
                    assert(ExitId(fresh[at]) == other);
                }
            }
            assert forall|j: int, k: int|
                #![trigger slots[j], slots[k]]
                0 <= j < k < made.len() implies slots[j] != slots[k] by {
                assert(slots[j] == halfway.resolved_ids[j]);
                if k < k_last {
                    assert(slots[k] == halfway.resolved_ids[k]);
                } else {
                    assert(fewer[j] == made[j]);
                    assert(slot_back(middle, halfway.resolved_ids, j, fewer[j], cleared));
                    if slots[j] == slots[k] {
                        assert(middle.exits.dom().contains(id));
                    }
                }
            }
            assert forall|other: ExitId|
                #![trigger after.exits.dom().contains(other)]
                after.exits.dom().contains(other) && !before.exits.dom().contains(
                    other,
                ) implies exists|k: int| 0 <= k < made.len() && #[trigger] holds_exit(slots, k, other) by {
                if other == id {
                    assert(holds_exit(slots, k_last, other));
                } else {
                    assert(middle.exits.dom().contains(other));
                    let k = choose|k: int|
                        0 <= k < fewer.len() && #[trigger] holds_exit(halfway.resolved_ids, k, other);
                    assert(holds_exit(slots, k, other));
                }
            }
        }
    }
}

// ===== Exits that lead to a restored room again =====

/// Whether a mutation links a cached exit again.
pub open spec fn relinks_cached(atlas: AtlasCache, mutation: MutationView) -> bool {
    exists|key: RoomKey, exit: ExitCache| #[trigger]
        wiring::is_listed(atlas, key, exit) && mutation == deletion::exit_relinked(key, exit)
}

/// Whether a list updates an exit.
pub open spec fn updates_exit(mutations: Seq<MutationView>, id: ExitId) -> bool {
    exists|i: int|
        0 <= i < mutations.len() && ((#[trigger] mutations[i]) matches Mutation::UpdateExit {
            id: IdRef::Known(known),
            ..
        } && known == id)
}

/// Whether an exit is as it was, or lacks the destination it had.
pub open spec fn is_short_of(entry: ExitEntry, held: ExitEntry) -> bool {
    entry == held || (held.1.to_area_id is Some && held.1.to_room_number is Some && entry == (
        held.0,
        wiring::unhooked(held.1),
    ))
}

/// A snapshot gives an exit back the destination it had.
proof fn lemma_snapshot(exit: ExitCache)
    ensures
        relinking::exit_updated(exit@, links::exit_snapshot(exit)) == exit@,
        exit.to_area_id is Some && exit.to_room_number is Some ==> relinking::exit_updated(
            wiring::unhooked(exit@),
            links::exit_snapshot(exit),
        ) == exit@,
{
}

/// What relinks leave: the exits that they name are as they were.
proof fn lemma_relinked(
    atlas: AtlasCache,
    links: Links,
    start: CompiledView,
    mutations: Seq<MutationView>,
    fresh: Seq<u128>,
    command: commands::CommandId,
    limit: int,
)
    requires
        wiring::told_apart(atlas),
        forall|i: int| 0 <= i < mutations.len() ==> relinks_cached(atlas, #[trigger] mutations[i]),
        forall|id: ExitId|
            #![trigger wiring::links_staged(links, start.batches).exits.dom().contains(id)]
            wiring::links_staged(links, start.batches).exits.dom().contains(id) && wiring::links_of(
                atlas,
            ).exits.dom().contains(id) ==> is_short_of(
                wiring::links_staged(links, start.batches).exits[id],
                wiring::links_of(atlas).exits[id],
            ),
    ensures
        ({
            let held = wiring::links_of(atlas);
            let end = compile::compiled(start, mutations, fresh, command, limit);
            let before = wiring::links_staged(links, start.batches);
            let after = wiring::links_staged(links, end.batches);
            &&& end.resolved_ids == start.resolved_ids
            &&& after.connections == before.connections
            &&& after.exits.dom() == before.exits.dom()
            &&& forall|id: ExitId|
                #![trigger after.exits[id]]
                before.exits.dom().contains(id) && updates_exit(mutations, id) ==> after.exits[id]
                    == held.exits[id]
            &&& forall|id: ExitId|
                #![trigger after.exits[id]]
                !updates_exit(mutations, id) ==> after.exits[id] == before.exits[id]
        }),
    decreases mutations.len(),
{
    if mutations.len() > 0 {
        let held = wiring::links_of(atlas);
        let rest = mutations.drop_last();
        let at = mutations.len() - 1;
        let last = mutations[at];
        assert forall|i: int| 0 <= i < rest.len() implies relinks_cached(atlas, #[trigger] rest[i]) by {
            assert(rest[i] == mutations[i]);
        }
        lemma_relinked(atlas, links, start, rest, fresh, command, limit);
        let halfway = compile::compiled(start, rest, fresh, command, limit);
        let end = compile::compiled(start, mutations, fresh, command, limit);
        let before = wiring::links_staged(links, start.batches);
        let middle = wiring::links_staged(links, halfway.batches);
        let after = wiring::links_staged(links, end.batches);
        assert(relinks_cached(atlas, last));
        let (key, exit) = choose|key: RoomKey, exit: ExitCache| #[trigger]
            wiring::is_listed(atlas, key, exit) && last == deletion::exit_relinked(key, exit);
        wiring::lemma_links_of(atlas);
        lemma_snapshot(exit);
        wiring::lemma_links_step(links, halfway, last, fresh[at], command, limit);
        let op = AreaMutation::UpdateExit { exit_id: exit.id, body: links::exit_snapshot(exit) };
        assert(restoring::step_ops(halfway.resolved_ids, last, fresh[at]) =~= seq![op]);
        wiring::lemma_one_link_written(middle, wiring::area_of(last), op);
        assert(after == wiring::links_written(middle, wiring::area_of(last), op));
        assert(held.exits[exit.id] == (key, exit@));
        if middle.exits.dom().contains(exit.id) {
            assert(is_short_of(before.exits[exit.id], held.exits[exit.id]));
            assert(is_short_of(middle.exits[exit.id], held.exits[exit.id]));
            assert(after.exits[exit.id] == held.exits[exit.id]);
        }
        assert(after.exits.dom() =~= before.exits.dom());
        assert forall|id: ExitId| #[trigger]
            updates_exit(mutations, id) == (updates_exit(rest, id) || id == exit.id) by {
            if updates_exit(rest, id) {
                let i = choose|i: int|
                    0 <= i < rest.len() && ((#[trigger] rest[i]) matches Mutation::UpdateExit {
                        id: IdRef::Known(known),
                        ..
                    } && known == id);
                assert(mutations[i] == rest[i]);
            }
            assert(mutations[at] == last);
            if updates_exit(mutations, id) {
                let i = choose|i: int|
                    0 <= i < mutations.len() && ((#[trigger] mutations[i]) matches Mutation::UpdateExit {
                        id: IdRef::Known(known),
                        ..
                    } && known == id);
                if i < at {
                    assert(rest[i] == mutations[i]);
                }
            }
        }
    }
}

/// The relinks of a deletion are of cached exits.
proof fn lemma_relinks_cached(
    atlas: AtlasCache,
    area_id: AreaId,
    rooms: Seq<RoomNumber>,
    restored: Seq<ConnectionId>,
)
    ensures
        ({
            let mutations = deletion::relinks(atlas, area_id, rooms, restored);
            forall|i: int| 0 <= i < mutations.len() ==> relinks_cached(atlas, #[trigger] mutations[i])
        }),
{
    let mutations = deletion::relinks(atlas, area_id, rooms, restored);
    let of_area = |host: AreaCache| deletion::area_relinks(area_id, rooms, restored, host);
    assert forall|i: int| 0 <= i < mutations.len() implies relinks_cached(
        atlas,
        #[trigger] mutations[i],
    ) by {
        list::lemma_collect_source(atlas.areas@, of_area, i);
        let a = choose|a: int|
            0 <= a < atlas.areas@.len() && (#[trigger] of_area(atlas.areas@[a])).contains(
                mutations[i],
            );
        let host = atlas.areas@[a];
        let of_room = |room: RoomCache|
            {
                let key = RoomKey { area_id: host.id, room_number: room.room_number };
                if deletion::is_deleted(area_id, rooms, key) {
                    Seq::empty()
                } else {
                    deletion::room_relinks(area_id, rooms, restored, key, room.exits@)
                }
            };
        let in_area = list::collect(host.rooms@, of_room);
        assert(in_area == of_area(host));
        let b = choose|b: int| 0 <= b < in_area.len() && in_area[b] == mutations[i];
        list::lemma_collect_source(host.rooms@, of_room, b);
        let r = choose|r: int|
            0 <= r < host.rooms@.len() && (#[trigger] of_room(host.rooms@[r])).contains(in_area[b]);
        let room = host.rooms@[r];
        let key = RoomKey { area_id: host.id, room_number: room.room_number };
        let of_exit = |exit: ExitCache|
            if !restored.contains(exit.connection_id) && deletion::leads_to_deleted(
                area_id,
                rooms,
                exit,
            ) {
                seq![deletion::exit_relinked(key, exit)]
            } else {
                Seq::empty()
            };
        let in_room = list::collect(room.exits@, of_exit);
        assert(in_room == of_room(room));
        let c = choose|c: int| 0 <= c < in_room.len() && in_room[c] == mutations[i];
        list::lemma_collect_source(room.exits@, of_exit, c);
        let e = choose|e: int|
            0 <= e < room.exits@.len() && (#[trigger] of_exit(room.exits@[e])).contains(in_room[c]);
        assert(mutations[i] == deletion::exit_relinked(key, room.exits@[e]));
        wiring::lemma_listed(atlas, a, r, e);
        assert(wiring::is_listed(atlas, key, room.exits@[e]));
    }
}

/// A deletion relinks every exit that it leaves without a destination.
proof fn lemma_relinks_every(
    atlas: AtlasCache,
    area_id: AreaId,
    rooms: Seq<RoomNumber>,
    restored: Seq<ConnectionId>,
    key: RoomKey,
    exit: ExitCache,
)
    requires
        wiring::is_listed(atlas, key, exit),
        !deletion::is_deleted(area_id, rooms, key),
        !restored.contains(exit.connection_id),
        deletion::leads_to_deleted(area_id, rooms, exit),
    ensures
        updates_exit(deletion::relinks(atlas, area_id, rooms, restored), exit.id),
{
    wiring::lemma_stands(atlas, key, exit);
    let (a, r, e) = choose|a: int, r: int, e: int| wiring::stands_at(atlas, key, exit, a, r, e);
    let host = atlas.areas@[a];
    let room = host.rooms@[r];
    let of_area = |host: AreaCache| deletion::area_relinks(area_id, rooms, restored, host);
    let of_room = |room: RoomCache|
        {
            let key = RoomKey { area_id: host.id, room_number: room.room_number };
            if deletion::is_deleted(area_id, rooms, key) {
                Seq::empty()
            } else {
                deletion::room_relinks(area_id, rooms, restored, key, room.exits@)
            }
        };
    let of_exit = |exit: ExitCache|
        if !restored.contains(exit.connection_id) && deletion::leads_to_deleted(
            area_id,
            rooms,
            exit,
        ) {
            seq![deletion::exit_relinked(key, exit)]
        } else {
            Seq::empty()
        };
    let mutation = deletion::exit_relinked(key, exit);
    assert(of_exit(room.exits@[e]) == seq![mutation]);
    assert(seq![mutation][0] == mutation);
    assert(of_exit(room.exits@[e]).contains(mutation));
    list::lemma_collect_contains(room.exits@, of_exit, e, mutation);
    assert(of_room(room) == list::collect(room.exits@, of_exit));
    list::lemma_collect_contains(host.rooms@, of_room, r, mutation);
    assert(of_area(host) == list::collect(host.rooms@, of_room));
    list::lemma_collect_contains(atlas.areas@, of_area, a, mutation);
    let all = deletion::relinks(atlas, area_id, rooms, restored);
    let i = choose|i: int| 0 <= i < all.len() && all[i] == mutation;
    assert(all[i] == mutation);
}

// ===== Links that come back whole =====

/// Whether a list of members names an exit.
pub open spec fn names_member(members: Seq<(RoomNumber, ExitCache)>, id: ExitId) -> bool {
    exists|i: int| 0 <= i < members.len() && (#[trigger] members[i]).1.id == id
}

/// A member of a link that comes back.
pub open spec fn member_back(
    area_id: AreaId,
    member: (RoomNumber, ExitCache),
    connection_id: ConnectionId,
    cleared: bool,
) -> ExitEntry {
    (
        RoomKey { area_id, room_number: member.0 },
        exit_back(ExitCache { connection_id, ..member.1@ }, cleared),
    )
}

/// The writes that recreate the exits of a link.
pub open spec fn member_writes(
    members: Seq<(RoomNumber, ExitCache)>,
    connection_id: ConnectionId,
    cleared: bool,
) -> Seq<OpView> {
    members.map_values(
        |member: (RoomNumber, ExitCache)| links::restored_member(member, connection_id, cleared),
    )
}

/// The exits that the members of a link leave.
proof fn lemma_members_back(
    links: Links,
    area_id: AreaId,
    members: Seq<(RoomNumber, ExitCache)>,
    connection_id: ConnectionId,
    cleared: bool,
)
    requires
        links.connections.dom().contains(connection_id),
    ensures
        ({
            let after = wiring::all_links_written(
                links,
                area_id,
                member_writes(members, connection_id, cleared),
            );
            &&& after.connections == links.connections
            &&& forall|id: ExitId|
                #![trigger after.exits.dom().contains(id)]
                after.exits.dom().contains(id) == (links.exits.dom().contains(id) || names_member(
                    members,
                    id,
                ))
            &&& forall|id: ExitId|
                #![trigger after.exits[id]]
                !names_member(members, id) ==> after.exits[id] == links.exits[id]
            &&& forall|id: ExitId|
                #![trigger after.exits[id]]
                names_member(members, id) ==> exists|i: int|
                    0 <= i < members.len() && (#[trigger] members[i]).1.id == id && after.exits[id]
                        == member_back(area_id, members[i], connection_id, cleared)
        }),
    decreases members.len(),
{
    let ops = member_writes(members, connection_id, cleared);
    if members.len() > 0 {
        let rest = members.drop_last();
        let at = members.len() - 1;
        let last = members[at];
        lemma_members_back(links, area_id, rest, connection_id, cleared);
        assert(ops.drop_last() =~= member_writes(rest, connection_id, cleared));
        assert(ops.last() == links::restored_member(last, connection_id, cleared));
        let middle = wiring::all_links_written(
            links,
            area_id,
            member_writes(rest, connection_id, cleared),
        );
        let after = wiring::all_links_written(links, area_id, ops);
        assert(after == wiring::links_written(middle, area_id, ops.last()));
        assert(after.exits[last.1.id] == member_back(area_id, last, connection_id, cleared));
        assert forall|id: ExitId| #[trigger]
            names_member(members, id) == (names_member(rest, id) || id == last.1.id) by {
            if names_member(rest, id) {
                let i = choose|i: int| 0 <= i < rest.len() && (#[trigger] rest[i]).1.id == id;
                assert(members[i] == rest[i]);
            }
            assert(members[at] == last);
            if names_member(members, id) {
                let i = choose|i: int| 0 <= i < members.len() && (#[trigger] members[i]).1.id == id;
                if i < at {
                    assert(rest[i] == members[i]);
                }
            }
        }
        assert forall|id: ExitId|
            #![trigger after.exits[id]]
            names_member(members, id) implies exists|i: int|
            0 <= i < members.len() && (#[trigger] members[i]).1.id == id && after.exits[id] == member_back(
                area_id,
                members[i],
                connection_id,
                cleared,
            ) by {
            if id == last.1.id {
                assert(members[at].1.id == id);
            } else {
                assert(names_member(rest, id));
                assert(middle.exits[id] == after.exits[id]);
                let i = choose|i: int|
                    0 <= i < rest.len() && (#[trigger] rest[i]).1.id == id && middle.exits[id]
                        == member_back(area_id, rest[i], connection_id, cleared);
                assert(members[i] == rest[i]);
            }
        }
    }
}

/// The members of a link are the listed exits of its area that are on it.
pub(crate) proof fn lemma_members(atlas: AtlasCache, area_id: AreaId, connection_id: ConnectionId)
    requires
        wiring::told_apart(atlas),
        atlas.area(area_id) is Some,
    ensures
        forall|number: RoomNumber, exit: ExitCache|
            #![trigger links::members(atlas.area(area_id)->0, connection_id).contains((number, exit))]
            links::members(atlas.area(area_id)->0, connection_id).contains((number, exit)) == (
            wiring::is_listed(atlas, RoomKey { area_id, room_number: number }, exit)
                && exit.connection_id == connection_id),
{
    let area = atlas.area(area_id)->0;
    let all = links::members(area, connection_id);
    let of_room = |room: RoomCache| links::room_members(room, connection_id);
    list::lemma_first_exists(atlas.areas@, |item: AreaCache| item.id == area_id);
    let at = choose|at: int| 0 <= at < atlas.areas@.len() && atlas.areas@[at] == area;
    assert(area.id == area_id);
    assert forall|number: RoomNumber, exit: ExitCache|
        #![trigger all.contains((number, exit))]
        all.contains((number, exit)) == (wiring::is_listed(
            atlas,
            RoomKey { area_id, room_number: number },
            exit,
        ) && exit.connection_id == connection_id) by {
        let key = RoomKey { area_id, room_number: number };
        let member = (number, exit);
        if all.contains(member) {
            let k = choose|k: int| 0 <= k < all.len() && all[k] == member;
            list::lemma_collect_source(area.rooms@, of_room, k);
            let r = choose|r: int|
                0 <= r < area.rooms@.len() && (#[trigger] of_room(area.rooms@[r])).contains(all[k]);
            let room = area.rooms@[r];
            let of_exit = |exit: ExitCache|
                if exit.connection_id == connection_id {
                    seq![(room.room_number, exit)]
                } else {
                    Seq::empty()
                };
            let own = list::collect(room.exits@, of_exit);
            assert(own == of_room(room));
            let m = choose|m: int| 0 <= m < own.len() && own[m] == member;
            list::lemma_collect_source(room.exits@, of_exit, m);
            let e = choose|e: int|
                0 <= e < room.exits@.len() && (#[trigger] of_exit(room.exits@[e])).contains(own[m]);
            assert(room.exits@[e] == exit && exit.connection_id == connection_id);
            wiring::lemma_listed(atlas, at, r, e);
        }
        if wiring::is_listed(atlas, key, exit) && exit.connection_id == connection_id {
            wiring::lemma_stands(atlas, key, exit);
            let (a, r, e) = choose|a: int, r: int, e: int| wiring::stands_at(atlas, key, exit, a, r, e);
            assert(atlas.areas@[a].id == atlas.areas@[at].id);
            assert(a == at);
            let room = area.rooms@[r];
            let of_exit = |exit: ExitCache|
                if exit.connection_id == connection_id {
                    seq![(room.room_number, exit)]
                } else {
                    Seq::empty()
                };
            assert(of_exit(room.exits@[e]) == seq![member]);
            assert(seq![member][0] == member);
            assert(of_exit(room.exits@[e]).contains(member));
            list::lemma_collect_contains(room.exits@, of_exit, e, member);
            assert(of_room(room) == list::collect(room.exits@, of_exit));
            list::lemma_collect_contains(area.rooms@, of_room, r, member);
        }
    }
}

/// Whether an exit of an area is on one of some connections.
pub open spec fn is_on(links: Links, area_id: AreaId, ids: Seq<ConnectionId>, id: ExitId) -> bool {
    links.exits.dom().contains(id) && links.exits[id].0.area_id == area_id && ids.contains(
        links.exits[id].1.connection_id,
    )
}

/// What the writes that recreate a link leave: the connection under its identity, its
/// exits under theirs, and everything else as it is.
pub(crate) proof fn lemma_link_back(
    atlas: AtlasCache,
    links: Links,
    area_id: AreaId,
    connection: Connection,
    cleared: bool,
)
    requires
        wiring::told_apart(atlas),
        atlas.area(area_id) matches Some(area) && area.connection(connection.id) == Some(connection),
    ensures
        ({
            let held = wiring::links_of(atlas);
            let after = wiring::all_links_written(
                links,
                area_id,
                links::link_restore(atlas.area(area_id)->0, connection, cleared),
            );
            &&& after.connections == links.connections.insert(
                connection.id,
                held.connections[connection.id],
            )
            &&& forall|id: ExitId|
                #![trigger after.exits.dom().contains(id)]
                after.exits.dom().contains(id) == (links.exits.dom().contains(id) || is_on(
                    held,
                    area_id,
                    seq![connection.id],
                    id,
                ))
            &&& forall|id: ExitId|
                #![trigger after.exits[id]]
                after.exits[id] == if is_on(held, area_id, seq![connection.id], id) {
                    (held.exits[id].0, exit_back(held.exits[id].1, cleared))
                } else {
                    links.exits[id]
                }
        }),
{
    let area = atlas.area(area_id)->0;
    let held = wiring::links_of(atlas);
    let c = connection.id;
    let members = links::sorted_members(area, c);
    let first = AreaMutation::CreateConnection { body: links::connection_args(connection) };
    let writes = member_writes(members, c, cleared);
    assert(links::link_restore(area, connection, cleared) =~= seq![first] + writes);
    wiring::lemma_links_written(links, area_id, seq![first], writes);
    wiring::lemma_one_link_written(links, area_id, first);
    wiring::lemma_connection_in(atlas, area_id, c);
    wiring::lemma_links_of(atlas);
    lemma_members(atlas, area_id, c);
    let middle = wiring::links_written(links, area_id, first);
    lemma_members_back(middle, area_id, members, c, cleared);
    let after = wiring::all_links_written(middle, area_id, writes);
    let unsorted = links::members(area, c);
    let less = |a: (RoomNumber, ExitCache), b: (RoomNumber, ExitCache)| links::exit_before(a, b);
    let ids = seq![c];
    assert(ids[0] == c);
    assert forall|id: ExitId| #[trigger] names_member(members, id) == is_on(held, area_id, ids, id) by {
        if names_member(members, id) {
            let i = choose|i: int| 0 <= i < members.len() && (#[trigger] members[i]).1.id == id;
            let member = members[i];
            assert(members.contains(member));
            list::lemma_in_order_holds(unsorted, less, member);
            assert(unsorted.contains((member.0, member.1)));
            let key = RoomKey { area_id, room_number: member.0 };
            assert(wiring::is_listed(atlas, key, member.1));
            assert(ids.contains(held.exits[id].1.connection_id));
        }
        if is_on(held, area_id, ids, id) {
            let (key, exit) = choose|key: RoomKey, exit: ExitCache| #[trigger]
                wiring::is_listed(atlas, key, exit) && exit.id == id;
            let member = (key.room_number, exit);
            assert(key == RoomKey { area_id, room_number: key.room_number });
            assert(unsorted.contains((key.room_number, exit)));
            list::lemma_in_order_holds(unsorted, less, member);
            let i = choose|i: int| 0 <= i < members.len() && members[i] == member;
            assert(members[i].1.id == id);
        }
    }
    assert forall|id: ExitId|
        #![trigger after.exits[id]]
        is_on(held, area_id, ids, id) implies after.exits[id] == (
        held.exits[id].0,
        exit_back(held.exits[id].1, cleared),
    ) by {
        assert(names_member(members, id));
        let i = choose|i: int|
            0 <= i < members.len() && (#[trigger] members[i]).1.id == id && after.exits[id]
                == member_back(area_id, members[i], c, cleared);
        let member = members[i];
        assert(members.contains(member));
        list::lemma_in_order_holds(unsorted, less, member);
        assert(unsorted.contains((member.0, member.1)));
        let key = RoomKey { area_id, room_number: member.0 };
        assert(wiring::is_listed(atlas, key, member.1));
        assert(held.exits[id] == (key, member.1@));
    }
}

/// The links of a deletion are cached.
proof fn lemma_links_cached(area: AreaCache, selection: Seq<EntityId>)
    ensures
        forall|i: int|
            #![trigger deletion::deleted_links(area, selection)[i]]
            0 <= i < deletion::deleted_links(area, selection).len() ==> area.connection(
                deletion::deleted_links(area, selection)[i].id,
            ) == Some(deletion::deleted_links(area, selection)[i]),
{
    let all = deletion::deleted_links(area, selection);
    let rooms = cache::selected_rooms(selection);
    let ids = list::in_order(
        cache::selected_connections(selection),
        |a: ConnectionId, b: ConnectionId| deletion::id_before(a, b),
    );
    let f = |id: ConnectionId|
        match area.connection(id) {
            Some(connection) => if deletion::rides_rooms(area, rooms, id) {
                Seq::empty()
            } else {
                seq![connection]
            },
            None => Seq::empty(),
        };
    assert(all == list::collect(ids, f));
    assert forall|i: int| #![trigger all[i]] 0 <= i < all.len() implies area.connection(all[i].id) == Some(
        all[i],
    ) by {
        list::lemma_collect_source(ids, f, i);
        let k = choose|k: int| 0 <= k < ids.len() && (#[trigger] f(ids[k])).contains(all[i]);
        let id = ids[k];
        list::lemma_first_exists(area.connections@, |item: Connection| item.id == id);
        assert(area.connection(id) == Some(all[i]));
    }
}

/// What restored links leave.
proof fn lemma_links_back(
    atlas: AtlasCache,
    links: Links,
    start: CompiledView,
    area_id: AreaId,
    list: Seq<Connection>,
    cleared: bool,
    fresh: Seq<u128>,
    command: commands::CommandId,
    limit: int,
)
    requires
        wiring::told_apart(atlas),
        atlas.area(area_id) matches Some(area) && (forall|i: int|
            #![trigger list[i]]
            0 <= i < list.len() ==> area.connection(list[i].id) == Some(list[i])),
    ensures
        ({
            let held = wiring::links_of(atlas);
            let ids = deletion::connection_ids(list);
            let end = compile::compiled(
                start,
                deletion::links_restored(area_id, atlas.area(area_id)->0, list, cleared),
                fresh,
                command,
                limit,
            );
            let before = wiring::links_staged(links, start.batches);
            let after = wiring::links_staged(links, end.batches);
            &&& end.resolved_ids == start.resolved_ids
            &&& forall|id: ConnectionId|
                #![trigger after.connections.dom().contains(id)]
                after.connections.dom().contains(id) == (before.connections.dom().contains(id)
                    || ids.contains(id))
            &&& forall|id: ConnectionId|
                #![trigger after.connections[id]]
                after.connections[id] == if ids.contains(id) {
                    held.connections[id]
                } else {
                    before.connections[id]
                }
            &&& forall|id: ExitId|
                #![trigger after.exits.dom().contains(id)]
                after.exits.dom().contains(id) == (before.exits.dom().contains(id) || is_on(
                    held,
                    area_id,
                    ids,
                    id,
                ))
            &&& forall|id: ExitId|
                #![trigger after.exits[id]]
                after.exits[id] == if is_on(held, area_id, ids, id) {
                    (held.exits[id].0, exit_back(held.exits[id].1, cleared))
                } else {
                    before.exits[id]
                }
        }),
    decreases list.len(),
{
    let area = atlas.area(area_id)->0;
    let ids = deletion::connection_ids(list);
    let mutations = deletion::links_restored(area_id, area, list, cleared);
    if list.len() == 0 {
        assert(ids =~= Seq::empty());
    } else {
        let held = wiring::links_of(atlas);
        let rest = list.drop_last();
        let at = list.len() - 1;
        let last = list[at];
        assert forall|i: int| #![trigger rest[i]] 0 <= i < rest.len() implies area.connection(rest[i].id)
            == Some(rest[i]) by {
            assert(rest[i] == list[i]);
        }
        lemma_links_back(atlas, links, start, area_id, rest, cleared, fresh, command, limit);
        let early = deletion::links_restored(area_id, area, rest, cleared);
        assert(mutations.drop_last() =~= early);
        assert(mutations.last() == deletion::link_restored(area_id, area, last, cleared));
        let halfway = compile::compiled(start, early, fresh, command, limit);
        let end = compile::compiled(start, mutations, fresh, command, limit);
        let middle = wiring::links_staged(links, halfway.batches);
        let after = wiring::links_staged(links, end.batches);
        wiring::lemma_links_step(links, halfway, mutations.last(), fresh[at], command, limit);
        let writes = links::link_restore(area, last, cleared);
        assert(restoring::step_ops(halfway.resolved_ids, mutations.last(), fresh[at]) =~= writes);
        assert(after == wiring::all_links_written(middle, area_id, writes));
        lemma_link_back(atlas, middle, area_id, last, cleared);
        let earlier = deletion::connection_ids(rest);
        assert(ids =~= earlier.push(last.id));
        let only = seq![last.id];
        assert forall|id: ConnectionId| #[trigger] ids.contains(id) == (earlier.contains(id) || id == last.id) by {
            lemma_pushed(earlier, last.id, id);
        }
        assert forall|id: ConnectionId| #[trigger] only.contains(id) == (id == last.id) by {
            assert(only[0] == last.id);
        }
        assert forall|id: ExitId| #[trigger]
            is_on(held, area_id, ids, id) == (is_on(held, area_id, earlier, id) || is_on(
                held,
                area_id,
                only,
                id,
            )) by {}
    }
}

// ===== The law =====

/// The exit that a slot holds.
pub open spec fn exit_in(slots: Seq<Option<ResolvedId>>, k: int) -> Option<ExitId> {
    commands::exit_named(slots, IdRef::Slot(k as usize))
}

/// Whether an exit survives a deletion: its room is left, and it is on no link that was
/// deleted in its own right.
pub open spec fn survives(links: Links, area_id: AreaId, parts: DeletionParts, id: ExitId) -> bool {
    &&& links.exits.dom().contains(id)
    &&& !is_gone(area_id, parts.rooms, links.exits[id].0)
    &&& !parts.restored.contains(links.exits[id].1.connection_id)
}

/// Whether a deletion took an exit with its room alone.
pub open spec fn went_with_room(links: Links, area_id: AreaId, parts: DeletionParts, id: ExitId) -> bool {
    &&& links.exits.dom().contains(id)
    &&& is_gone(area_id, parts.rooms, links.exits[id].0)
    &&& !parts.restored.contains(links.exits[id].1.connection_id)
}

/// Whether new identities are taken by no exit.
pub open spec fn are_vacant(links: Links, ids: Seq<u128>) -> bool {
    forall|i: int| 0 <= i < ids.len() ==> !links.exits.dom().contains(ExitId(#[trigger] ids[i]))
}

/// Whether exits and connections are what undoing a deletion promises.
pub open spec fn links_returned(
    after: Links,
    before: Links,
    area_id: AreaId,
    parts: DeletionParts,
    slots: Seq<Option<ResolvedId>>,
) -> bool {
    // What survived is as it was, also an exit that led to a deleted room.
    &&& forall|id: ExitId|
        #![trigger after.exits.dom().contains(id)]
        survives(before, area_id, parts, id) ==> after.exits.dom().contains(id)
    &&& forall|id: ExitId|
        #![trigger after.exits[id]]
        survives(before, area_id, parts, id) ==> after.exits[id] == before.exits[id]
    &&& forall|id: ConnectionId|
        #![trigger after.connections.dom().contains(id)]
        before.connections.dom().contains(id) && (exists|exit_id: ExitId|
            #[trigger] survives(before, area_id, parts, exit_id)
                && before.exits[exit_id].1.connection_id == id) ==> after.connections.dom().contains(id)
            && after.connections[id] == before.connections[id]
    // A link that was deleted in its own right is there with its exits.
    &&& forall|i: int|
        #![trigger parts.restored[i]]
        0 <= i < parts.restored.len() ==> before.connections.dom().contains(parts.restored[i])
            && after.connections.dom().contains(parts.restored[i])
            && after.connections[parts.restored[i]] == before.connections[parts.restored[i]]
    &&& forall|id: ExitId|
        #![trigger after.exits[id]]
        is_on(before, area_id, parts.restored, id) ==> after.exits.dom().contains(id)
            && after.exits[id] == (before.exits[id].0, exit_back(before.exits[id].1, parts.cleared))
    // Every other exit of a deleted room is there under the identity that its slot holds.
    &&& forall|k: int|
        #![trigger exit_in(slots, k)]
        0 <= k < parts.exits.len() ==> (exit_in(slots, k) matches Some(id)
            && !before.exits.dom().contains(id) && after.exits.dom().contains(id)
            && before.exits.dom().contains(parts.exits[k].id) && is_back(
            after.exits[id],
            (before.exits[parts.exits[k].id].0, parts.exits[k]),
            id,
            parts.cleared,
        ))
    &&& forall|id: ExitId| #[trigger]
        went_with_room(before, area_id, parts, id) ==> exists|k: int|
            0 <= k < parts.exits.len() && (#[trigger] parts.exits[k]).id == id && parts.exits[k]@
                == before.exits[id].1
    &&& forall|j: int, k: int|
        #![trigger exit_in(slots, j), exit_in(slots, k)]
        0 <= j < k < parts.exits.len() ==> exit_in(slots, j) != exit_in(slots, k)
    // No other exit is there.
    &&& forall|id: ExitId|
        #![trigger after.exits.dom().contains(id)]
        after.exits.dom().contains(id) ==> survives(before, area_id, parts, id) || is_on(
            before,
            area_id,
            parts.restored,
            id,
        ) || exists|k: int| 0 <= k < parts.exits.len() && #[trigger] exit_in(slots, k) == Some(id)
}

/// What a deletion leaves of exits and connections.
pub(crate) proof fn lemma_deletion_taken(
    links: Links,
    command: CommandView,
    area_id: AreaId,
    parts: DeletionParts,
    fresh: Seq<u128>,
    limit: int,
)
    requires
        command.redo == deletion::deletion_redo(area_id, parts),
        fresh.len() >= command.redo.len(),
        parts.restored == deletion::connection_ids(parts.links),
    ensures
        ({
            let done = compile::compiled_direction(command, Direction::Redo, fresh, limit);
            let after = wiring::links_staged(links, done.batches);
            &&& done.resolved_ids.len() == command.resolved_ids.len()
            &&& forall|id: ExitId|
                #![trigger after.exits.dom().contains(id)]
                after.exits.dom().contains(id) == survives(links, area_id, parts, id)
            &&& forall|id: ExitId|
                #![trigger after.exits[id]]
                survives(links, area_id, parts, id) ==> after.exits[id] == bereft(
                    area_id,
                    parts.rooms,
                    links.exits[id],
                )
            &&& forall|id: ConnectionId|
                #![trigger after.connections.dom().contains(id)]
                links.connections.dom().contains(id) && (exists|exit_id: ExitId|
                    #[trigger] survives(links, area_id, parts, exit_id)
                        && links.exits[exit_id].1.connection_id == id)
                    ==> after.connections.dom().contains(id) && after.connections[id]
                    == links.connections[id]
        }),
{
    let start = restoring::compile_start(command);
    let a = deletion::links_mutation(area_id, parts.links);
    let b = deletion::rooms_deleted(area_id, parts.rooms);
    let labels_base = parts.exits.len() as int;
    let shapes_base = labels_base + parts.labels.len();
    let c = deletion::labels_deleted(area_id, parts.labels.len(), labels_base) + deletion::shapes_deleted(
        area_id,
        parts.shapes.len(),
        shapes_base,
    );
    assert(command.redo =~= a + b + c);
    restoring::lemma_compiled_concat(start, a + b, c, fresh, command.id, limit);
    restoring::lemma_compiled_concat(start, a, b, fresh, command.id, limit);
    let first = compile::compiled(start, a, fresh, command.id, limit);
    let fresh_b = fresh.skip(a.len() as int);
    let second = compile::compiled(first, b, fresh_b, command.id, limit);
    let fresh_c = fresh.skip((a + b).len() as int);
    let done = compile::compiled_direction(command, Direction::Redo, fresh, limit);
    assert(done == compile::compiled(second, c, fresh_c, command.id, limit));
    assert(wiring::links_staged(links, start.batches) == links);
    let deletes = deletion::link_deletes(parts.links);
    let unlinked = wiring::all_links_written(links, area_id, deletes);
    if parts.links.len() == 0 {
        assert(deletes.len() == 0);
    } else {
        reveal_with_fuel(compile::compiled, 2);
        assert(a.drop_last() =~= Seq::empty());
        wiring::lemma_links_step(links, start, a[0], fresh[0], command.id, limit);
        assert(restoring::step_ops(start.resolved_ids, a[0], fresh[0]) =~= deletes);
    }
    assert(wiring::links_staged(links, first.batches) == unlinked);
    assert(first.resolved_ids == command.resolved_ids);
    lemma_links_deleted(links, area_id, parts.links);
    lemma_rooms_deleted(links, first, area_id, parts.rooms, fresh_b, command.id, limit);
    assert(wiring::all_spare(c, 0));
    wiring::lemma_links_spared(links, second, c, 0, fresh_c, command.id, limit);
    let after = wiring::links_staged(links, done.batches);
    assert(after == wiring::links_staged(links, second.batches));
    assert forall|id: ConnectionId|
        #![trigger after.connections.dom().contains(id)]
        links.connections.dom().contains(id) && (exists|exit_id: ExitId|
            #[trigger] survives(links, area_id, parts, exit_id)
                && links.exits[exit_id].1.connection_id == id) implies after.connections.dom().contains(id)
        && after.connections[id] == links.connections[id] by {
        let exit_id = choose|exit_id: ExitId|
            #[trigger] survives(links, area_id, parts, exit_id)
                && links.exits[exit_id].1.connection_id == id;
        assert(unlinked.exits.dom().contains(exit_id));
        assert(after.exits.dom().contains(exit_id));
        assert(after.exits[exit_id].1.connection_id == id);
        assert(wiring::is_carried(after.exits, id));
        assert(unlinked.connections.dom().contains(id));
    }
}

/// The exits that are recreated with rooms are exits of the rooms.
proof fn lemma_made_within(area_id: AreaId, rooms: Seq<RoomCache>, restored: Seq<ConnectionId>, k: int)
    requires
        0 <= k < rooms_made(area_id, rooms, restored).len(),
    ensures
        exists|i: int|
            0 <= i < rooms.len() && rooms_made(area_id, rooms, restored)[k].0 == (RoomKey {
                area_id,
                room_number: (#[trigger] rooms[i]).room_number,
            }) && rooms[i].exits@.contains(rooms_made(area_id, rooms, restored)[k].1),
    decreases rooms.len(),
{
    let all = rooms_made(area_id, rooms, restored);
    let rest = rooms.drop_last();
    let early = rooms_made(area_id, rest, restored);
    if k < early.len() {
        lemma_made_within(area_id, rest, restored, k);
        let i = choose|i: int|
            0 <= i < rest.len() && early[k].0 == (RoomKey {
                area_id,
                room_number: (#[trigger] rest[i]).room_number,
            }) && rest[i].exits@.contains(early[k].1);
        assert(rooms[i] == rest[i]);
        assert(all[k] == early[k]);
    } else {
        let at = rooms.len() - 1;
        let own = rooms[at].exits@;
        let f = |exit: ExitCache|
            if restored.contains(exit.connection_id) {
                Seq::empty()
            } else {
                seq![exit]
            };
        let kept = deletion::kept_exits(own, restored);
        let m = k - early.len();
        assert(all[k].1 == kept[m]);
        list::lemma_collect_source(own, f, m);
        let e = choose|e: int| 0 <= e < own.len() && (#[trigger] f(own[e])).contains(kept[m]);
        assert(own[e] == kept[m]);
        assert(rooms[at].exits@.contains(all[k].1));
    }
}

/// The exits that are recreated with deleted rooms are listed with their rooms.
proof fn lemma_made_listed(atlas: AtlasCache, area_id: AreaId, selection: Seq<EntityId>)
    requires
        atlas.area(area_id) is Some,
        cache::selected_rooms(selection).no_duplicates(),
    ensures
        ({
            let parts = deletion::deletion_parts(atlas.area(area_id)->0, selection);
            let made = rooms_made(area_id, parts.rooms, parts.restored);
            forall|k: int|
                #![trigger made[k]]
                0 <= k < made.len() ==> wiring::is_listed(atlas, made[k].0, made[k].1)
        }),
{
    let area = atlas.area(area_id)->0;
    let parts = deletion::deletion_parts(area, selection);
    let made = rooms_made(area_id, parts.rooms, parts.restored);
    list::lemma_first_exists(atlas.areas@, |item: AreaCache| item.id == area_id);
    let at = choose|at: int| 0 <= at < atlas.areas@.len() && atlas.areas@[at] == area;
    restoring::lemma_cached_rooms(area, parts.numbers);
    assert forall|k: int| #![trigger made[k]] 0 <= k < made.len() implies wiring::is_listed(
        atlas,
        made[k].0,
        made[k].1,
    ) by {
        lemma_made_within(area_id, parts.rooms, parts.restored, k);
        let i = choose|i: int|
            0 <= i < parts.rooms.len() && made[k].0 == (RoomKey {
                area_id,
                room_number: (#[trigger] parts.rooms[i]).room_number,
            }) && parts.rooms[i].exits@.contains(made[k].1);
        let room = parts.rooms[i];
        let number = room.room_number;
        list::lemma_first_exists(area.rooms@, |item: RoomCache| item.room_number == number);
        let r = choose|r: int| 0 <= r < area.rooms@.len() && area.rooms@[r] == room;
        let e = choose|e: int| 0 <= e < room.exits@.len() && room.exits@[e] == made[k].1;
        wiring::lemma_listed(atlas, at, r, e);
    }
}

/// Every exit that went with its room alone is recreated with it.
proof fn lemma_made_every(atlas: AtlasCache, area_id: AreaId, selection: Seq<EntityId>, id: ExitId)
    requires
        wiring::told_apart(atlas),
        atlas.area(area_id) is Some,
        cache::selected_rooms(selection).no_duplicates(),
        went_with_room(
            wiring::links_of(atlas),
            area_id,
            deletion::deletion_parts(atlas.area(area_id)->0, selection),
            id,
        ),
    ensures
        ({
            let parts = deletion::deletion_parts(atlas.area(area_id)->0, selection);
            exists|k: int|
                0 <= k < parts.exits.len() && (#[trigger] parts.exits[k]).id == id && parts.exits[k]@
                    == wiring::links_of(atlas).exits[id].1
        }),
{
    let area = atlas.area(area_id)->0;
    let parts = deletion::deletion_parts(area, selection);
    let held = wiring::links_of(atlas);
    wiring::lemma_links_of(atlas);
    list::lemma_first_exists(atlas.areas@, |item: AreaCache| item.id == area_id);
    let at = choose|at: int| 0 <= at < atlas.areas@.len() && atlas.areas@[at] == area;
    restoring::lemma_cached_rooms(area, parts.numbers);
    let (key, exit) = choose|key: RoomKey, exit: ExitCache| #[trigger]
        wiring::is_listed(atlas, key, exit) && exit.id == id;
    assert(held.exits[id] == (key, exit@));
    wiring::lemma_stands(atlas, key, exit);
    let (a, r, e) = choose|a: int, r: int, e: int| wiring::stands_at(atlas, key, exit, a, r, e);
    assert(atlas.areas@[a].id == atlas.areas@[at].id);
    assert(a == at);
    let number = key.room_number;
    let i = choose|i: int|
        0 <= i < parts.rooms.len() && (#[trigger] parts.rooms[i]).room_number == number;
    let room = area.rooms@[r];
    let p = |item: RoomCache| item.room_number == number;
    assert(p(area.rooms@[r]));
    assert forall|j: int| 0 <= j < r implies !p(#[trigger] area.rooms@[j]) by {
        assert(atlas.areas@[at].rooms@[j].room_number != atlas.areas@[at].rooms@[r].room_number);
    }
    list::lemma_first(area.rooms@, p, r);
    assert(area.room(number) == Some(room));
    assert(parts.rooms[i] == room);
    let f = |exit: ExitCache|
        if parts.restored.contains(exit.connection_id) {
            Seq::empty()
        } else {
            seq![exit]
        };
    assert(f(room.exits@[e]) == seq![exit]);
    assert(seq![exit][0] == exit);
    assert(f(room.exits@[e]).contains(exit));
    list::lemma_collect_contains(room.exits@, f, e, exit);
    let g = |room: RoomCache| deletion::kept_exits(room.exits@, parts.restored);
    assert(g(parts.rooms[i]).contains(exit));
    list::lemma_collect_contains(parts.rooms, g, i, exit);
    let k = choose|k: int| 0 <= k < parts.exits.len() && parts.exits[k] == exit;
    assert(parts.exits[k].id == id);
}

/// What comes before the relinks when a deletion is undone: the exits that went with
/// rooms are there again.
proof fn lemma_early_given(
    links: Links,
    command: CommandView,
    area_id: AreaId,
    area: AreaCache,
    parts: DeletionParts,
    again: Seq<u128>,
    limit: int,
)
    requires
        again.no_duplicates(),
        are_vacant(links, again),
        parts.exits == deletion::rooms_exits(parts.rooms, parts.restored),
        parts.exits.len() <= command.resolved_ids.len(),
        parts.exits.len() <= usize::MAX,
        ({
            let early = edits::rooms_mutation(
                area_id,
                edits::room_edits(
                    area,
                    parts.numbers,
                    |room: RoomCache| deletion::room_snapshot(room, parts.cleared),
                ),
            ) + deletion::rooms_contents(area_id, parts.rooms, parts.restored, parts.cleared);
            again.len() >= early.len()
        }),
    ensures
        ({
            let early = edits::rooms_mutation(
                area_id,
                edits::room_edits(
                    area,
                    parts.numbers,
                    |room: RoomCache| deletion::room_snapshot(room, parts.cleared),
                ),
            ) + deletion::rooms_contents(area_id, parts.rooms, parts.restored, parts.cleared);
            let made = rooms_made(area_id, parts.rooms, parts.restored);
            let end = compile::compiled(restoring::compile_start(command), early, again, command.id, limit);
            let after = wiring::links_staged(links, end.batches);
            let slots = end.resolved_ids;
            &&& slots.len() == command.resolved_ids.len()
            &&& made.len() == parts.exits.len()
            &&& forall|k: int|
                #![trigger made[k]]
                0 <= k < made.len() ==> made[k].1 == parts.exits[k] && slot_back(
                    after,
                    slots,
                    k,
                    made[k],
                    parts.cleared,
                )
            &&& forall|k: int, id: ExitId|
                0 <= k < made.len() && #[trigger] holds_exit(slots, k, id) ==> is_new_exit(
                    again,
                    again.len() as int,
                    id,
                )
            &&& forall|j: int, k: int|
                #![trigger slots[j], slots[k]]
                0 <= j < k < made.len() ==> slots[j] != slots[k]
            &&& forall|id: ExitId|
                #![trigger after.exits.dom().contains(id)]
                links.exits.dom().contains(id) ==> after.exits.dom().contains(id)
            &&& forall|id: ExitId|
                #![trigger after.exits[id]]
                links.exits.dom().contains(id) ==> after.exits[id] == links.exits[id]
            &&& forall|id: ExitId|
                #![trigger after.exits.dom().contains(id)]
                after.exits.dom().contains(id) && !links.exits.dom().contains(id) ==> exists|k: int|
                    0 <= k < made.len() && #[trigger] holds_exit(slots, k, id)
            &&& forall|id: ConnectionId|
                #![trigger after.connections.dom().contains(id)]
                links.connections.dom().contains(id) ==> after.connections.dom().contains(id)
            &&& forall|id: ConnectionId|
                #![trigger after.connections[id]]
                links.connections.dom().contains(id) ==> after.connections[id] == links.connections[id]
        }),
{
    let start = restoring::compile_start(command);
    let snapshot = |room: RoomCache| deletion::room_snapshot(room, parts.cleared);
    let a = edits::rooms_mutation(area_id, edits::room_edits(area, parts.numbers, snapshot));
    let b = deletion::rooms_contents(area_id, parts.rooms, parts.restored, parts.cleared);
    let made = rooms_made(area_id, parts.rooms, parts.restored);
    restoring::lemma_compiled_concat(start, a, b, again, command.id, limit);
    let first = compile::compiled(start, a, again, command.id, limit);
    let late = again.skip(a.len() as int);
    assert(wiring::links_staged(links, start.batches) == links);
    assert(wiring::all_spare(a, 0));
    wiring::lemma_links_spared(links, start, a, 0, again, command.id, limit);
    lemma_makes_rooms(area_id, parts.rooms, parts.restored, parts.cleared);
    assert(late.no_duplicates()) by {
        assert forall|i: int, j: int| 0 <= i < late.len() && 0 <= j < late.len() && i != j implies late[i]
            != late[j] by {
            assert(late[i] == again[a.len() + i] && late[j] == again[a.len() + j]);
        }
    }
    assert forall|i: int| 0 <= i < b.len() implies !links.exits.dom().contains(ExitId(#[trigger] late[i])) by {
        assert(late[i] == again[a.len() + i]);
    }
    lemma_exits_made(links, first, b, made, parts.cleared, late, command.id, limit);
    let end = compile::compiled(first, b, late, command.id, limit);
    assert forall|k: int, id: ExitId|
        0 <= k < made.len() && #[trigger] holds_exit(end.resolved_ids, k, id) implies is_new_exit(
        again,
        again.len() as int,
        id,
    ) by {
        let i = choose|i: int| 0 <= i < b.len() && ExitId(#[trigger] late[i]) == id;
        assert(ExitId(again[a.len() + i]) == id);
    }
}

/// The writes of a deletion, taken back, after the rooms and their exits.
proof fn lemma_late_given(
    atlas: AtlasCache,
    links: Links,
    start: CompiledView,
    area_id: AreaId,
    selection: Seq<EntityId>,
    again: Seq<u128>,
    command: commands::CommandId,
    limit: int,
)
    requires
        wiring::told_apart(atlas),
        atlas.area(area_id) is Some,
        ({
            let parts = deletion::deletion_parts(atlas.area(area_id)->0, selection);
            &&& deletion::deletion_seeds(parts).len() <= usize::MAX
            &&& start.resolved_ids.len() == deletion::deletion_seeds(parts).len()
            &&& again.len() >= late_undo(atlas, area_id, parts).len()
        }),
        forall|id: ExitId|
            #![trigger wiring::links_staged(links, start.batches).exits.dom().contains(id)]
            wiring::links_staged(links, start.batches).exits.dom().contains(id) && wiring::links_of(
                atlas,
            ).exits.dom().contains(id) ==> is_short_of(
                wiring::links_staged(links, start.batches).exits[id],
                wiring::links_of(atlas).exits[id],
            ),
    ensures
        ({
            let parts = deletion::deletion_parts(atlas.area(area_id)->0, selection);
            let held = wiring::links_of(atlas);
            let relinks = deletion::relinks(atlas, area_id, parts.numbers, parts.restored);
            let end = compile::compiled(
                start,
                late_undo(atlas, area_id, parts),
                again,
                command,
                limit,
            );
            let before = wiring::links_staged(links, start.batches);
            let after = wiring::links_staged(links, end.batches);
            &&& end.resolved_ids.len() == start.resolved_ids.len()
            &&& forall|k: int|
                0 <= k < parts.exits.len() ==> #[trigger] end.resolved_ids[k] == start.resolved_ids[k]
            &&& forall|id: ConnectionId|
                #![trigger after.connections.dom().contains(id)]
                after.connections.dom().contains(id) == (before.connections.dom().contains(id)
                    || parts.restored.contains(id))
            &&& forall|id: ConnectionId|
                #![trigger after.connections[id]]
                after.connections[id] == if parts.restored.contains(id) {
                    held.connections[id]
                } else {
                    before.connections[id]
                }
            &&& forall|id: ExitId|
                #![trigger after.exits.dom().contains(id)]
                after.exits.dom().contains(id) == (before.exits.dom().contains(id) || is_on(
                    held,
                    area_id,
                    parts.restored,
                    id,
                ))
            &&& forall|id: ExitId|
                #![trigger after.exits[id]]
                is_on(held, area_id, parts.restored, id) ==> after.exits[id] == (
                    held.exits[id].0,
                    exit_back(held.exits[id].1, parts.cleared),
                )
            &&& forall|id: ExitId|
                #![trigger after.exits[id]]
                !is_on(held, area_id, parts.restored, id) && before.exits.dom().contains(id)
                    && updates_exit(relinks, id) ==> after.exits[id] == held.exits[id]
            &&& forall|id: ExitId|
                #![trigger after.exits[id]]
                !is_on(held, area_id, parts.restored, id) && !updates_exit(relinks, id)
                    ==> after.exits[id] == before.exits[id]
        }),
{
    let area = atlas.area(area_id)->0;
    let parts = deletion::deletion_parts(area, selection);
    let n = parts.exits.len() as int;
    let shapes_base = n + parts.labels.len();
    let a = deletion::relinks(atlas, area_id, parts.numbers, parts.restored);
    let b = deletion::labels_recreated(area_id, parts.labels, parts.cleared, n)
        + deletion::shapes_recreated(area_id, parts.shapes, parts.cleared, shapes_base);
    let c = deletion::links_restored(area_id, area, parts.links, parts.cleared);
    let all = late_undo(atlas, area_id, parts);
    assert(all =~= a + b + c);
    restoring::lemma_compiled_concat(start, a + b, c, again, command, limit);
    restoring::lemma_compiled_concat(start, a, b, again, command, limit);
    let first = compile::compiled(start, a, again, command, limit);
    let for_b = again.skip(a.len() as int);
    let second = compile::compiled(first, b, for_b, command, limit);
    let for_c = again.skip((a + b).len() as int);
    lemma_relinks_cached(atlas, area_id, parts.numbers, parts.restored);
    lemma_relinked(atlas, links, start, a, again, command, limit);
    assert(deletion::deletion_seeds(parts).len() == n + parts.labels.len() + parts.shapes.len());
    assert(wiring::all_spare(b, n));
    assert(mutation::fills_in(b, first.resolved_ids.len() as int));
    wiring::lemma_links_spared(links, first, b, n, for_b, command, limit);
    lemma_links_cached(area, selection);
    lemma_links_back(atlas, links, second, area_id, parts.links, parts.cleared, for_c, command, limit);
}

/// What takes a deletion back once the rooms and their exits are there.
pub open spec fn late_undo(atlas: AtlasCache, area_id: AreaId, parts: DeletionParts) -> Seq<MutationView> {
    let labels_base = parts.exits.len();
    let shapes_base = labels_base + parts.labels.len();
    deletion::relinks(atlas, area_id, parts.numbers, parts.restored) + deletion::labels_recreated(
        area_id,
        parts.labels,
        parts.cleared,
        labels_base as int,
    ) + deletion::shapes_recreated(area_id, parts.shapes, parts.cleared, shapes_base as int)
        + deletion::links_restored(area_id, atlas.area(area_id)->0, parts.links, parts.cleared)
}

/// What a deletion leaves of exits and connections, and what they are once it is undone.
proof fn lemma_returned(
    atlas: AtlasCache,
    gone: Links,
    command: CommandView,
    area_id: AreaId,
    selection: Seq<EntityId>,
    again: Seq<u128>,
    limit: int,
)
    requires
        wiring::told_apart(atlas),
        atlas.area(area_id) is Some,
        cache::selected_rooms(selection).no_duplicates(),
        again.no_duplicates(),
        are_vacant(wiring::links_of(atlas), again),
        ({
            let area = atlas.area(area_id)->0;
            let parts = deletion::deletion_parts(area, selection);
            let held = wiring::links_of(atlas);
            &&& deletion::deletion_seeds(parts).len() <= usize::MAX
            &&& command.undo == deletion::deletion_undo(atlas, area_id, area, parts)
            &&& command.resolved_ids.len() == deletion::deletion_seeds(parts).len()
            &&& again.len() >= command.undo.len()
            &&& forall|id: ExitId|
                #![trigger gone.exits.dom().contains(id)]
                gone.exits.dom().contains(id) == survives(held, area_id, parts, id)
            &&& forall|id: ExitId|
                #![trigger gone.exits[id]]
                survives(held, area_id, parts, id) ==> gone.exits[id] == bereft(
                    area_id,
                    parts.rooms,
                    held.exits[id],
                )
            &&& forall|id: ConnectionId|
                #![trigger gone.connections.dom().contains(id)]
                held.connections.dom().contains(id) && (exists|exit_id: ExitId|
                    #[trigger] survives(held, area_id, parts, exit_id)
                        && held.exits[exit_id].1.connection_id == id)
                    ==> gone.connections.dom().contains(id) && gone.connections[id]
                    == held.connections[id]
        }),
    ensures
        ({
            let back = compile::compiled_direction(command, Direction::Undo, again, limit);
            links_returned(
                wiring::links_staged(gone, back.batches),
                wiring::links_of(atlas),
                area_id,
                deletion::deletion_parts(atlas.area(area_id)->0, selection),
                back.resolved_ids,
            )
        }),
{
    let area = atlas.area(area_id)->0;
    let parts = deletion::deletion_parts(area, selection);
    let held = wiring::links_of(atlas);
    let start = restoring::compile_start(command);
    let snapshot = |room: RoomCache| deletion::room_snapshot(room, parts.cleared);
    let early = edits::rooms_mutation(area_id, edits::room_edits(area, parts.numbers, snapshot))
        + deletion::rooms_contents(area_id, parts.rooms, parts.restored, parts.cleared);
    let late = late_undo(atlas, area_id, parts);
    assert(command.undo =~= early + late);
    restoring::lemma_compiled_concat(start, early, late, again, command.id, limit);
    let first = compile::compiled(start, early, again, command.id, limit);
    let for_late = again.skip(early.len() as int);
    let back = compile::compiled_direction(command, Direction::Undo, again, limit);
    assert(back == compile::compiled(first, late, for_late, command.id, limit));
    assert(are_vacant(gone, again));
    lemma_early_given(gone, command, area_id, area, parts, again, limit);
    let middle = wiring::links_staged(gone, first.batches);
    assert forall|id: ExitId|
        #![trigger middle.exits.dom().contains(id)]
        middle.exits.dom().contains(id) && held.exits.dom().contains(id) implies survives(
        held,
        area_id,
        parts,
        id,
    ) && is_short_of(middle.exits[id], held.exits[id]) by {
        if !gone.exits.dom().contains(id) {
            let made = rooms_made(area_id, parts.rooms, parts.restored);
            let k = choose|k: int|
                0 <= k < made.len() && #[trigger] holds_exit(first.resolved_ids, k, id);
            assert(is_new_exit(again, again.len() as int, id));
            let i = choose|i: int| 0 <= i < again.len() && ExitId(#[trigger] again[i]) == id;
            assert(!held.exits.dom().contains(ExitId(again[i])));
        }
        assert(gone.exits[id] == bereft(area_id, parts.rooms, held.exits[id]));
    }
    lemma_late_given(atlas, gone, first, area_id, selection, for_late, command.id, limit);
    let after = wiring::links_staged(gone, back.batches);
    lemma_survivors(atlas, gone, middle, after, area_id, selection);
    lemma_newcomers(atlas, middle, after, area_id, selection, first.resolved_ids, back.resolved_ids, again);
    assert forall|i: int| #![trigger parts.restored[i]] 0 <= i < parts.restored.len() implies
        held.connections.dom().contains(parts.restored[i]) && after.connections.dom().contains(
        parts.restored[i],
    ) && after.connections[parts.restored[i]] == held.connections[parts.restored[i]] by {
        lemma_links_cached(area, selection);
        assert(parts.restored[i] == parts.links[i].id);
        assert(area.connection(parts.links[i].id) == Some(parts.links[i]));
        wiring::lemma_connection_in(atlas, area_id, parts.restored[i]);
        assert(parts.restored.contains(parts.restored[i]));
    }
    assert forall|id: ConnectionId|
        #![trigger after.connections.dom().contains(id)]
        held.connections.dom().contains(id) && (exists|exit_id: ExitId|
            #[trigger] survives(held, area_id, parts, exit_id)
                && held.exits[exit_id].1.connection_id == id) implies after.connections.dom().contains(id)
        && after.connections[id] == held.connections[id] by {
        assert(gone.connections.dom().contains(id));
        assert(middle.connections.dom().contains(id));
        assert(middle.connections[id] == gone.connections[id]);
    }
}

/// What survived a deletion is as it was.
proof fn lemma_survivors(
    atlas: AtlasCache,
    gone: Links,
    middle: Links,
    after: Links,
    area_id: AreaId,
    selection: Seq<EntityId>,
)
    requires
        wiring::told_apart(atlas),
        atlas.area(area_id) is Some,
        cache::selected_rooms(selection).no_duplicates(),
        ({
            let parts = deletion::deletion_parts(atlas.area(area_id)->0, selection);
            let held = wiring::links_of(atlas);
            let relinks = deletion::relinks(atlas, area_id, parts.numbers, parts.restored);
            &&& forall|id: ExitId|
                #![trigger gone.exits[id]]
                survives(held, area_id, parts, id) ==> gone.exits.dom().contains(id) && gone.exits[id]
                    == bereft(area_id, parts.rooms, held.exits[id])
            &&& forall|id: ExitId|
                #![trigger middle.exits[id]]
                gone.exits.dom().contains(id) ==> middle.exits.dom().contains(id) && middle.exits[id]
                    == gone.exits[id]
            &&& forall|id: ExitId|
                #![trigger after.exits[id]]
                !is_on(held, area_id, parts.restored, id) && middle.exits.dom().contains(id)
                    && updates_exit(relinks, id) ==> after.exits[id] == held.exits[id]
            &&& forall|id: ExitId|
                #![trigger after.exits[id]]
                !is_on(held, area_id, parts.restored, id) && !updates_exit(relinks, id)
                    ==> after.exits[id] == middle.exits[id]
        }),
    ensures
        ({
            let parts = deletion::deletion_parts(atlas.area(area_id)->0, selection);
            let held = wiring::links_of(atlas);
            forall|id: ExitId|
                #![trigger after.exits[id]]
                survives(held, area_id, parts, id) ==> after.exits[id] == held.exits[id]
        }),
{
    let area = atlas.area(area_id)->0;
    let parts = deletion::deletion_parts(area, selection);
    let held = wiring::links_of(atlas);
    let relinks = deletion::relinks(atlas, area_id, parts.numbers, parts.restored);
    wiring::lemma_links_of(atlas);
    restoring::lemma_cached_rooms(area, parts.numbers);
    list::lemma_first_exists(atlas.areas@, |item: AreaCache| item.id == area_id);
    let at = choose|at: int| 0 <= at < atlas.areas@.len() && atlas.areas@[at] == area;
    assert forall|id: ExitId|
        #![trigger after.exits[id]]
        survives(held, area_id, parts, id) implies after.exits[id] == held.exits[id] by {
        let (key, exit) = choose|key: RoomKey, exit: ExitCache| #[trigger]
            wiring::is_listed(atlas, key, exit) && exit.id == id;
        assert(held.exits[id] == (key, exit@));
        assert(gone.exits[id] == bereft(area_id, parts.rooms, held.exits[id]));
        assert(middle.exits[id] == gone.exits[id]);
        if leads_to_gone(area_id, parts.rooms, exit@) {
            let to_room = exit.to_room_number->0;
            assert(restoring::names_room(parts.rooms, to_room));
            assert(deletion::leads_to_deleted(area_id, parts.numbers, exit));
            assert(!deletion::is_deleted(area_id, parts.numbers, key)) by {
                if deletion::is_deleted(area_id, parts.numbers, key) {
                    wiring::lemma_stands(atlas, key, exit);
                    let (a, r, e) = choose|a: int, r: int, e: int|
                        wiring::stands_at(atlas, key, exit, a, r, e);
                    assert(atlas.areas@[a].id == atlas.areas@[at].id);
                    assert(a == at);
                    let number = key.room_number;
                    let p = |item: RoomCache| item.room_number == number;
                    assert(p(area.rooms@[r]));
                    list::lemma_first_exists(area.rooms@, p);
                    assert(area.room(number) is Some);
                    assert(restoring::names_room(parts.rooms, number));
                }
            }
            lemma_relinks_every(atlas, area_id, parts.numbers, parts.restored, key, exit);
        }
    }
}

/// The exits that come back under new identities.
proof fn lemma_newcomers(
    atlas: AtlasCache,
    middle: Links,
    after: Links,
    area_id: AreaId,
    selection: Seq<EntityId>,
    filled: Seq<Option<ResolvedId>>,
    slots: Seq<Option<ResolvedId>>,
    again: Seq<u128>,
)
    requires
        wiring::told_apart(atlas),
        atlas.area(area_id) is Some,
        cache::selected_rooms(selection).no_duplicates(),
        are_vacant(wiring::links_of(atlas), again),
        ({
            let parts = deletion::deletion_parts(atlas.area(area_id)->0, selection);
            let held = wiring::links_of(atlas);
            let relinks = deletion::relinks(atlas, area_id, parts.numbers, parts.restored);
            let made = rooms_made(area_id, parts.rooms, parts.restored);
            &&& parts.exits.len() <= usize::MAX
            &&& parts.exits.len() <= filled.len()
            &&& filled.len() == slots.len()
            &&& made.len() == parts.exits.len()
            &&& forall|k: int| 0 <= k < parts.exits.len() ==> #[trigger] slots[k] == filled[k]
            &&& forall|k: int|
                #![trigger made[k]]
                0 <= k < made.len() ==> made[k].1 == parts.exits[k] && slot_back(
                    middle,
                    filled,
                    k,
                    made[k],
                    parts.cleared,
                )
            &&& forall|k: int, id: ExitId|
                0 <= k < made.len() && #[trigger] holds_exit(filled, k, id) ==> is_new_exit(
                    again,
                    again.len() as int,
                    id,
                )
            &&& forall|j: int, k: int|
                #![trigger filled[j], filled[k]]
                0 <= j < k < made.len() ==> filled[j] != filled[k]
            &&& forall|id: ExitId|
                #![trigger middle.exits.dom().contains(id)]
                middle.exits.dom().contains(id) && !survives(held, area_id, parts, id) ==> exists|k: int|
                    0 <= k < made.len() && #[trigger] holds_exit(filled, k, id)
            &&& forall|id: ExitId|
                #![trigger after.exits.dom().contains(id)]
                after.exits.dom().contains(id) == (middle.exits.dom().contains(id) || is_on(
                    held,
                    area_id,
                    parts.restored,
                    id,
                ))
            &&& forall|id: ExitId|
                #![trigger after.exits[id]]
                !is_on(held, area_id, parts.restored, id) && !updates_exit(relinks, id)
                    ==> after.exits[id] == middle.exits[id]
        }),
    ensures
        ({
            let parts = deletion::deletion_parts(atlas.area(area_id)->0, selection);
            let held = wiring::links_of(atlas);
            &&& forall|k: int|
                #![trigger exit_in(slots, k)]
                0 <= k < parts.exits.len() ==> (exit_in(slots, k) matches Some(id)
                    && !held.exits.dom().contains(id) && after.exits.dom().contains(id)
                    && held.exits.dom().contains(parts.exits[k].id) && is_back(
                    after.exits[id],
                    (held.exits[parts.exits[k].id].0, parts.exits[k]),
                    id,
                    parts.cleared,
                ))
            &&& forall|id: ExitId| #[trigger]
                went_with_room(held, area_id, parts, id) ==> exists|k: int|
                    0 <= k < parts.exits.len() && (#[trigger] parts.exits[k]).id == id
                        && parts.exits[k]@ == held.exits[id].1
            &&& forall|j: int, k: int|
                #![trigger exit_in(slots, j), exit_in(slots, k)]
                0 <= j < k < parts.exits.len() ==> exit_in(slots, j) != exit_in(slots, k)
            &&& forall|id: ExitId|
                #![trigger after.exits.dom().contains(id)]
                after.exits.dom().contains(id) ==> survives(held, area_id, parts, id) || is_on(
                    held,
                    area_id,
                    parts.restored,
                    id,
                ) || exists|k: int|
                    0 <= k < parts.exits.len() && #[trigger] exit_in(slots, k) == Some(id)
        }),
{
    let area = atlas.area(area_id)->0;
    let parts = deletion::deletion_parts(area, selection);
    let held = wiring::links_of(atlas);
    let relinks = deletion::relinks(atlas, area_id, parts.numbers, parts.restored);
    let made = rooms_made(area_id, parts.rooms, parts.restored);
    wiring::lemma_links_of(atlas);
    lemma_made_listed(atlas, area_id, selection);
    lemma_relinks_cached(atlas, area_id, parts.numbers, parts.restored);
    assert forall|id: ExitId| #[trigger] updates_exit(relinks, id) implies held.exits.dom().contains(id) by {
        let i = choose|i: int|
            0 <= i < relinks.len() && ((#[trigger] relinks[i]) matches Mutation::UpdateExit {
                id: IdRef::Known(known),
                ..
            } && known == id);
        assert(relinks_cached(atlas, relinks[i]));
        let (key, exit) = choose|key: RoomKey, exit: ExitCache| #[trigger]
            wiring::is_listed(atlas, key, exit) && relinks[i] == deletion::exit_relinked(key, exit);
        assert(exit.id == id);
    }
    assert forall|k: int|
        #![trigger exit_in(slots, k)]
        0 <= k < parts.exits.len() implies (exit_in(slots, k) matches Some(id) && filled[k] == Some(
        ResolvedId::Exit(id),
    ) && !held.exits.dom().contains(id) && after.exits.dom().contains(id) && held.exits.dom().contains(
        parts.exits[k].id,
    ) && is_back(
        after.exits[id],
        (held.exits[parts.exits[k].id].0, parts.exits[k]),
        id,
        parts.cleared,
    )) by {
        assert(made[k].1 == parts.exits[k]);
        assert(slot_back(middle, filled, k, made[k], parts.cleared));
        assert(slots[k] == filled[k]);
        let id = exit_in(slots, k)->0;
        assert(holds_exit(filled, k, id));
        assert(is_new_exit(again, again.len() as int, id));
        let i = choose|i: int| 0 <= i < again.len() && ExitId(#[trigger] again[i]) == id;
        assert(!held.exits.dom().contains(ExitId(again[i])));
        assert(wiring::is_listed(atlas, made[k].0, made[k].1));
        assert(held.exits[parts.exits[k].id] == (made[k].0, made[k].1@));
    }
    assert forall|id: ExitId| #[trigger] went_with_room(held, area_id, parts, id) implies exists|k: int|
        0 <= k < parts.exits.len() && (#[trigger] parts.exits[k]).id == id && parts.exits[k]@
            == held.exits[id].1 by {
        lemma_made_every(atlas, area_id, selection, id);
    }
    assert forall|j: int, k: int|
        #![trigger exit_in(slots, j), exit_in(slots, k)]
        0 <= j < k < parts.exits.len() implies exit_in(slots, j) != exit_in(slots, k) by {
        assert(filled[j] != filled[k]);
    }
    assert forall|id: ExitId|
        #![trigger after.exits.dom().contains(id)]
        after.exits.dom().contains(id) && !survives(held, area_id, parts, id) && !is_on(
            held,
            area_id,
            parts.restored,
            id,
        ) implies exists|k: int| 0 <= k < parts.exits.len() && #[trigger] exit_in(slots, k) == Some(id) by {
        let k = choose|k: int| 0 <= k < made.len() && #[trigger] holds_exit(filled, k, id);
        assert(slots[k] == filled[k]);
        assert(exit_in(slots, k) == Some(id));
    }
}

/// Undoing a deletion brings exits and connections back.
///
/// Every exit that survived, and every connection with such an exit, is as it was, in
/// whatever area, also an exit that led to a deleted room. Every link that was deleted
/// in its own right is there under its identity with its body, and its exits under
/// theirs with their fields. Every other exit of a deleted room is there with its
/// fields, but for its connection, under the new identity that its slot then holds.
/// What was a secret is one again where the viewer may say so, and an exit whose
/// destination was withheld comes back without it. No other exit is there.
pub proof fn law_undoing_a_deletion_restores_links(
    atlas: AtlasCache,
    area_id: AreaId,
    selection: Seq<EntityId>,
    fresh: Seq<u128>,
    again: Seq<u128>,
    limit: int,
)
    requires
        limit > 0,
        wiring::told_apart(atlas),
        cache::selected_rooms(selection).no_duplicates(),
        again.no_duplicates(),
        are_vacant(wiring::links_of(atlas), again),
        atlas.area(area_id) matches Some(area) ==> deletion::deletion_seeds(
            deletion::deletion_parts(area, selection),
        ).len() <= usize::MAX,
        deletion::delete_command(atlas, area_id, selection) matches Some(command) ==> fresh.len()
            >= command.redo.len() && again.len() >= command.undo.len(),
    ensures
        deletion::delete_command(atlas, area_id, selection) matches Some(command) ==> links_returned(
            wiring::links_undone(command, wiring::links_of(atlas), fresh, again, limit),
            wiring::links_of(atlas),
            area_id,
            deletion::deletion_parts(atlas.area(area_id)->0, selection),
            restoring::slots_undone(command, fresh, again, limit),
        ),
{
    if let Some(command) = deletion::delete_command(atlas, area_id, selection) {
        let area = atlas.area(area_id)->0;
        let parts = deletion::deletion_parts(area, selection);
        let held = wiring::links_of(atlas);
        let done = compile::compiled_direction(command, Direction::Redo, fresh, limit);
        let gone = wiring::links_staged(held, done.batches);
        lemma_deletion_taken(held, command, area_id, parts, fresh, limit);
        let settled = CommandView { resolved_ids: done.resolved_ids, pending: 0, ..command };
        lemma_returned(atlas, gone, settled, area_id, selection, again, limit);
    }
}

} // verus!
