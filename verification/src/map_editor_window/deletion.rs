//! Deleting the selection.
//!
//! Deleted rooms come back with their properties and outgoing exits; exits that
//! led to a deleted room are linked to it again; labels and shapes are recreated
//! under fresh ids, tracked through slots. Explicitly selected connections are
//! deleted as links in their own right and come back with their identities,
//! except those whose every exit leaves a deleted room: those go and come with
//! the rooms.

use vstd::prelude::*;

use super::cache::{self, Selection};
use super::commands::{self, Command, CommandView, ResolvedId};
use super::edits::{self, push_mutation, push_op, push_room};
use super::links::{
    self, exit_args_from_cache, exit_updates_from_cache, members_of, restore_link, sort_members,
};
use super::model::{
    AreaCache, AreaId, AtlasCache, Connection, ConnectionId, EntityId, ExitCache, LabelArgs, LabelCache,
    LabelId, PropertyEntry, RoomCache, RoomKey, RoomNumber, RoomUpdates, ShapeArgs, ShapeCache, ShapeId,
};
use super::mutation::{self, AreaMutation, IdRef, Mutation, MutationView, OpView};
use crate::list::{self, sort_by};
use crate::text::{self, clone_or_empty, text_before};

verus! {

// ===== Properties =====

/// The order of name and value pairs.
pub open spec fn pair_before(a: (Seq<char>, Seq<char>), b: (Seq<char>, Seq<char>)) -> bool {
    text::text_less(a.0, b.0) || (a.0 == b.0 && text::text_less(a.1, b.1))
}

/// A property as a name and value pair.
pub open spec fn property_pair(entry: PropertyEntry) -> (Seq<char>, Seq<char>) {
    (entry.name@, entry.value@)
}

/// The properties as name and value pairs, in order.
pub open spec fn sorted_pairs(entries: Seq<PropertyEntry>) -> Seq<(Seq<char>, Seq<char>)> {
    list::in_order(
        entries.map_values(|entry: PropertyEntry| property_pair(entry)),
        |a: (Seq<char>, Seq<char>), b: (Seq<char>, Seq<char>)| pair_before(a, b),
    )
}

/// Pairs by reference.
pub open spec fn pairs_view(list: Seq<&PropertyEntry>) -> Seq<(Seq<char>, Seq<char>)> {
    list.map_values(|entry: &PropertyEntry| property_pair(*entry))
}

/// Whether one property comes before another.
fn property_before(a: &PropertyEntry, b: &PropertyEntry) -> (before: bool)
    ensures
        before == pair_before(property_pair(*a), property_pair(*b)),
{
    text_before(a.name.as_str(), b.name.as_str()) || (text::same_text(a.name.as_str(), b.name.as_str())
        && text_before(a.value.as_str(), b.value.as_str()))
}

/// The properties in order.
pub(crate) fn sort_properties<'a>(entries: &'a Vec<PropertyEntry>) -> (sorted: Vec<&'a PropertyEntry>)
    ensures
        pairs_view(sorted@) == sorted_pairs(entries@),
{
    let mut refs: Vec<&'a PropertyEntry> = Vec::new();
    for i in 0..entries.len()
        invariant
            refs@.len() == i,
            forall|j: int| 0 <= j < i ==> *(#[trigger] refs@[j]) == entries@[j],
    {
        refs.push(&entries[i]);
    }
    let ghost by_ref = |a: &PropertyEntry, b: &PropertyEntry|
        pair_before(property_pair(*a), property_pair(*b));
    proof {
        assert(pairs_view(refs@) =~= entries@.map_values(|entry: PropertyEntry| property_pair(entry)));
        list::lemma_in_order_map(
            refs@,
            |entry: &PropertyEntry| property_pair(*entry),
            by_ref,
            |a: (Seq<char>, Seq<char>), b: (Seq<char>, Seq<char>)| pair_before(a, b),
        );
    }
    let less = |a: &&'a PropertyEntry, b: &&'a PropertyEntry| -> (r: bool)
        ensures
            r == pair_before(property_pair(**a), property_pair(**b)),
    {
        property_before(*a, *b)
    };
    sort_by(refs, less, Ghost(by_ref))
}

// ===== Links deleted in their own right =====

/// The order of connections by identity.
pub open spec fn id_before(a: ConnectionId, b: ConnectionId) -> bool {
    a.0 < b.0
}

/// Whether every exit of a connection leaves a selected room.
pub open spec fn rides_rooms(area: AreaCache, rooms: Seq<RoomNumber>, id: ConnectionId) -> bool {
    let list = links::members(area, id);
    list.len() > 0 && forall|i: int| 0 <= i < list.len() ==> rooms.contains((#[trigger] list[i]).0)
}

/// The connections deleted as links in their own right, by identity.
pub open spec fn deleted_links(area: AreaCache, selection: Seq<EntityId>) -> Seq<Connection> {
    let rooms = cache::selected_rooms(selection);
    list::collect(
        list::in_order(
            cache::selected_connections(selection),
            |a: ConnectionId, b: ConnectionId| id_before(a, b),
        ),
        |id: ConnectionId|
            match area.connection(id) {
                Some(connection) => if rides_rooms(area, rooms, id) {
                    Seq::empty()
                } else {
                    seq![connection]
                },
                None => Seq::empty(),
            },
    )
}

/// The ids of a list of connections.
pub open spec fn connection_ids(list: Seq<Connection>) -> Seq<ConnectionId> {
    list.map_values(|connection: Connection| connection.id)
}

/// The write that deletes each link.
pub open spec fn link_deletes(list: Seq<Connection>) -> Seq<OpView> {
    list.map_values(|connection: Connection| link_delete(connection))
}

/// The write that deletes a link.
pub open spec fn link_delete(connection: Connection) -> OpView {
    AreaMutation::DeleteLink { connection_id: connection.id }
}

/// The mutation that restores a link.
pub open spec fn link_restored(
    area_id: AreaId,
    area: AreaCache,
    connection: Connection,
    cleared: bool,
) -> MutationView {
    edits::batch(
        area_id,
        links::link_restore(area, connection, cleared),
        "Restore deleted link"@,
    )
}

/// The mutation that restores each link.
pub open spec fn links_restored(
    area_id: AreaId,
    area: AreaCache,
    list: Seq<Connection>,
    cleared: bool,
) -> Seq<MutationView> {
    list.map_values(|connection: Connection| link_restored(area_id, area, connection, cleared))
}

/// Whether a list of room numbers holds a number.
pub(crate) fn holds_room(rooms: &Vec<RoomNumber>, number: RoomNumber) -> (held: bool)
    ensures
        held == rooms@.contains(number),
{
    for i in 0..rooms.len()
        invariant
            forall|j: int| 0 <= j < i ==> rooms@[j] != number,
    {
        if rooms[i] == number {
            assert(rooms@[i as int] == number);
            return true;
        }
    }
    false
}

/// Whether a list of connection ids holds an id.
pub(crate) fn holds_connection(ids: &Vec<ConnectionId>, id: ConnectionId) -> (held: bool)
    ensures
        held == ids@.contains(id),
{
    for i in 0..ids.len()
        invariant
            forall|j: int| 0 <= j < i ==> ids@[j] != id,
    {
        if ids[i] == id {
            assert(ids@[i as int] == id);
            return true;
        }
    }
    false
}

/// What deleting links in their own right collects.
struct LinkPart {
    ids: Vec<ConnectionId>,
    deletes: Vec<AreaMutation>,
    restores: Vec<Mutation>,
}

/// Collects the links deleted in their own right.
fn collect_links(
    area_id: AreaId,
    area: &AreaCache,
    selection: &Selection,
    rooms: &Vec<RoomNumber>,
    cleared: bool,
) -> (part: LinkPart)
    requires
        rooms@ == cache::selected_rooms(selection@),
    ensures
        part.ids@ == connection_ids(deleted_links(*area, selection@)),
        mutation::ops_view(part.deletes@) == link_deletes(deleted_links(*area, selection@)),
        mutation::mutations_view(part.restores@) == links_restored(
            area_id,
            *area,
            deleted_links(*area, selection@),
            cleared,
        ),
{
    let less = |a: &ConnectionId, b: &ConnectionId| -> (r: bool)
        ensures
            r == id_before(*a, *b),
    {
        a.0 < b.0
    };
    let sorted = sort_by(
        selection.connections(),
        less,
        Ghost(|a: ConnectionId, b: ConnectionId| id_before(a, b)),
    );
    let ghost piece = |id: ConnectionId|
        match area.connection(id) {
            Some(connection) => if rides_rooms(*area, rooms@, id) {
                Seq::empty()
            } else {
                seq![connection]
            },
            None => Seq::empty(),
        };
    let mut ids: Vec<ConnectionId> = Vec::new();
    let mut deletes: Vec<AreaMutation> = Vec::new();
    let mut restores: Vec<Mutation> = Vec::new();
    proof {
        let none = list::collect(sorted@.take(0), piece);
        assert(sorted@.take(0) =~= Seq::empty());
        assert(ids@ =~= connection_ids(none));
        assert(mutation::ops_view(deletes@) =~= link_deletes(none));
        assert(mutation::mutations_view(restores@) =~= links_restored(area_id, *area, none, cleared));
    }
    for i in 0..sorted.len()
        invariant
            piece == (|id: ConnectionId|
                match area.connection(id) {
                    Some(connection) => if rides_rooms(*area, rooms@, id) {
                        Seq::empty()
                    } else {
                        seq![connection]
                    },
                    None => Seq::empty(),
                }),
            ids@ == connection_ids(list::collect(sorted@.take(i as int), piece)),
            mutation::ops_view(deletes@) == link_deletes(
                list::collect(sorted@.take(i as int), piece),
            ),
            mutation::mutations_view(restores@) == links_restored(
                area_id,
                *area,
                list::collect(sorted@.take(i as int), piece),
                cleared,
            ),
    {
        let id = sorted[i];
        let ghost done = list::collect(sorted@.take(i as int), piece);
        let ghost next = list::collect(sorted@.take(i + 1), piece);
        proof {
            list::lemma_collect_step(sorted@, piece, i as int);
        }
        if let Some(connection) = area.get_connection(&id) {
            proof {
                list::lemma_first_exists(area.connections@, |item: Connection| item.id == id);
            }
            let found = members_of(area, id);
            assert(links::members_view(found@).len() == found@.len());
            let mut rides = found.len() > 0;
            for k in 0..found.len()
                invariant
                    links::members_view(found@) == links::members(*area, id),
                    rides == (found@.len() > 0 && forall|j: int|
                        0 <= j < k ==> rooms@.contains(
                            (#[trigger] links::members(*area, id)[j]).0,
                        )),
            {
                assert(links::members_view(found@)[k as int] == (found@[k as int].0, *found@[k as int].1));
                if !holds_room(rooms, found[k].0) {
                    rides = false;
                }
            }
            assert(rides == rides_rooms(*area, rooms@, id));
            if !rides {
                let sorted_members = sort_members(found, Ghost(*area), Ghost(id));
                ids.push(id);
                push_op(&mut deletes, AreaMutation::DeleteLink { connection_id: id });
                let operations = restore_link(&sorted_members, connection, cleared, Ghost(*area));
                push_mutation(
                    &mut restores,
                    Mutation::AreaBatch {
                        area_id,
                        operations,
                        description: "Restore deleted link".to_owned(),
                    },
                );
                proof {
                    assert(next =~= done.push(*connection));
                    assert(connection_ids(next) =~= connection_ids(done).push(id));
                    assert(link_deletes(next) =~= link_deletes(done).push(link_delete(*connection)));
                    assert(links_restored(area_id, *area, next, cleared) =~= links_restored(
                        area_id,
                        *area,
                        done,
                        cleared,
                    ).push(link_restored(area_id, *area, *connection, cleared)));
                }
            } else {
                assert(next =~= done);
            }
        } else {
            assert(next =~= done);
        }
    }
    assert(sorted@.take(sorted.len() as int) =~= sorted@);
    LinkPart { ids, deletes, restores }
}

// ===== Rooms =====

/// Every field of a cached room as an update. Secrecy is carried only for a
/// viewer cleared to send it.
pub open spec fn room_snapshot(room: RoomCache, cleared: bool) -> RoomUpdates<Seq<char>> {
    RoomUpdates {
        is_secret: if cleared {
            Some(room.is_secret)
        } else {
            None
        },
        title: Some(room.title@),
        description: Some(room.description@),
        level: Some(room.level),
        x: Some(room.x),
        y: Some(room.y),
        color: Some(room.color@),
        external_id: match text::opt_text(room.external_id) {
            Some(id) => Some(Some(id)),
            None => None,
        },
    }
}

/// Every field of a cached room as an update.
fn snapshot_room(room: &RoomCache, cleared: bool) -> (updates: RoomUpdates)
    ensures
        updates@ == room_snapshot(*room, cleared),
{
    RoomUpdates {
        is_secret: if cleared {
            Some(room.is_secret)
        } else {
            None
        },
        title: Some(room.title.clone()),
        description: Some(room.description.clone()),
        level: Some(room.level),
        x: Some(room.x),
        y: Some(room.y),
        color: Some(room.color.clone()),
        external_id: match &room.external_id {
            Some(id) => Some(Some(id.clone())),
            None => None,
        },
    }
}

/// The cached rooms among `rooms`, in order.
pub open spec fn cached_rooms(area: AreaCache, rooms: Seq<RoomNumber>) -> Seq<RoomCache> {
    list::collect(
        rooms,
        |number: RoomNumber|
            match area.room(number) {
                Some(room) => seq![room],
                None => Seq::empty(),
            },
    )
}

/// The exits of a room that no link of `restored` brings back.
pub open spec fn kept_exits(exits: Seq<ExitCache>, restored: Seq<ConnectionId>) -> Seq<ExitCache> {
    list::collect(
        exits,
        |exit: ExitCache|
            if restored.contains(exit.connection_id) {
                Seq::empty()
            } else {
                seq![exit]
            },
    )
}

/// The mutation that recreates an exit.
pub open spec fn exit_recreated(key: RoomKey, exit: ExitCache, cleared: bool, slot: int) -> MutationView {
    Mutation::CreateExit {
        room_key: key,
        args: links::exit_args(exit, cleared),
        follow_up: Some(links::exit_snapshot(exit)),
        slot: slot as usize,
    }
}

/// The mutations that recreate exits, in consecutive slots from `base`.
pub open spec fn exits_recreated(
    key: RoomKey,
    exits: Seq<ExitCache>,
    cleared: bool,
    base: int,
) -> Seq<MutationView> {
    Seq::new(exits.len(), |i: int| exit_recreated(key, exits[i], cleared, base + i))
}

/// The mutations that restore properties.
pub open spec fn properties_restored(
    key: RoomKey,
    pairs: Seq<(Seq<char>, Seq<char>)>,
) -> Seq<MutationView> {
    pairs.map_values(
        |pair: (Seq<char>, Seq<char>)| property_restored(key, pair),
    )
}

/// The mutation that restores a property.
pub open spec fn property_restored(key: RoomKey, pair: (Seq<char>, Seq<char>)) -> MutationView {
    Mutation::SetRoomProperty(key, pair.0, pair.1)
}

/// What restores a room once it exists again: its properties in order, then its
/// exits.
pub open spec fn room_contents(
    area_id: AreaId,
    room: RoomCache,
    restored: Seq<ConnectionId>,
    cleared: bool,
    base: int,
) -> Seq<MutationView> {
    let key = RoomKey { area_id, room_number: room.room_number };
    properties_restored(key, sorted_pairs(room.properties@)) + exits_recreated(
        key,
        kept_exits(room.exits@, restored),
        cleared,
        base,
    )
}

/// The exits of several rooms that are recreated with them, in slot order.
pub open spec fn rooms_exits(rooms: Seq<RoomCache>, restored: Seq<ConnectionId>) -> Seq<ExitCache> {
    list::collect(rooms, |room: RoomCache| kept_exits(room.exits@, restored))
}

/// What restores several rooms once they exist again.
pub open spec fn rooms_contents(
    area_id: AreaId,
    rooms: Seq<RoomCache>,
    restored: Seq<ConnectionId>,
    cleared: bool,
) -> Seq<MutationView>
    decreases rooms.len(),
{
    if rooms.len() == 0 {
        Seq::empty()
    } else {
        rooms_contents(area_id, rooms.drop_last(), restored, cleared) + room_contents(
            area_id,
            rooms.last(),
            restored,
            cleared,
            rooms_exits(rooms.drop_last(), restored).len() as int,
        )
    }
}

/// The mutation that deletes each room.
pub open spec fn rooms_deleted(area_id: AreaId, rooms: Seq<RoomCache>) -> Seq<MutationView> {
    rooms.map_values(|room: RoomCache| room_deleted(area_id, room))
}

/// The mutation that deletes a room.
pub open spec fn room_deleted(area_id: AreaId, room: RoomCache) -> MutationView {
    Mutation::DeleteRoom(RoomKey { area_id, room_number: room.room_number })
}

/// The exits as slot contents.
pub open spec fn exit_seeds(exits: Seq<ExitCache>) -> Seq<ResolvedId> {
    exits.map_values(|exit: ExitCache| ResolvedId::Exit(exit.id))
}

/// Mutations that fill or name no slot from `n` on, and name slot `n - 1` when
/// there is one.
pub open spec fn reaches(mutations: Seq<MutationView>, n: int) -> bool {
    &&& forall|i: int| 0 <= i < mutations.len() ==> mutation::slots_for(#[trigger] mutations[i]) <= n
    &&& n > 0 ==> exists|i: int|
        0 <= i < mutations.len() && mutation::slots_for(#[trigger] mutations[i]) == n
}

/// One more mutation that names no slot.
proof fn lemma_reaches_same(mutations: Seq<MutationView>, n: int, m: MutationView)
    requires
        reaches(mutations, n),
        n >= 0,
        mutation::slots_for(m) == 0,
    ensures
        reaches(mutations.push(m), n),
{
    let longer = mutations.push(m);
    assert forall|i: int| 0 <= i < longer.len() implies mutation::slots_for(#[trigger] longer[i]) <= n by {
        if i < mutations.len() {
            assert(longer[i] == mutations[i]);
        }
    }
    if n > 0 {
        let i = choose|i: int|
            0 <= i < mutations.len() && mutation::slots_for(#[trigger] mutations[i]) == n;
        assert(mutation::slots_for(longer[i]) == n);
    }
}

/// One more mutation that names the next slot.
proof fn lemma_reaches_next(mutations: Seq<MutationView>, n: int, m: MutationView)
    requires
        reaches(mutations, n),
        n >= 0,
        mutation::slots_for(m) == n + 1,
    ensures
        reaches(mutations.push(m), n + 1),
{
    let longer = mutations.push(m);
    assert forall|i: int| 0 <= i < longer.len() implies mutation::slots_for(#[trigger] longer[i]) <= n
        + 1 by {
        if i < mutations.len() {
            assert(longer[i] == mutations[i]);
        }
    }
    assert(mutation::slots_for(longer[mutations.len() as int]) == n + 1);
}

/// Restores the contents of one room.
fn push_room_contents(
    late: &mut Vec<Mutation>,
    seeds: &mut Vec<ResolvedId>,
    area_id: AreaId,
    room: &RoomCache,
    restored: &Vec<ConnectionId>,
    cleared: bool,
)
    requires
        reaches(mutation::mutations_view(old(late)@), old(seeds)@.len() as int),
    ensures
        mutation::mutations_view(final(late)@) == mutation::mutations_view(old(late)@) + room_contents(
            area_id,
            *room,
            restored@,
            cleared,
            old(seeds)@.len() as int,
        ),
        final(seeds)@ == old(seeds)@ + exit_seeds(kept_exits(room.exits@, restored@)),
        reaches(mutation::mutations_view(final(late)@), final(seeds)@.len() as int),
{
    let key = RoomKey::new(area_id, room.room_number);
    let ghost before = mutation::mutations_view(late@);
    let ghost base = seeds@.len() as int;
    let ghost seeded = seeds@;
    let sorted = sort_properties(&room.properties);
    let ghost pairs = pairs_view(sorted@);
    assert(before =~= before + properties_restored(key, pairs.take(0)));
    for i in 0..sorted.len()
        invariant
            pairs == pairs_view(sorted@),
            mutation::mutations_view(late@) == before + properties_restored(key, pairs.take(i as int)),
            base >= 0,
            reaches(mutation::mutations_view(late@), base),
    {
        let entry = sorted[i];
        let one = Mutation::SetRoomProperty(key, entry.name.clone(), entry.value.clone());
        proof {
            lemma_reaches_same(mutation::mutations_view(late@), base, one@);
            assert(pairs[i as int] == property_pair(*entry));
            assert(properties_restored(key, pairs.take(i + 1)) =~= properties_restored(
                key,
                pairs.take(i as int),
            ).push(property_restored(key, pairs[i as int])));
        }
        push_mutation(late, one);
        assert(mutation::mutations_view(late@) =~= before + properties_restored(key, pairs.take(i + 1)));
    }
    assert(pairs.take(sorted.len() as int) =~= pairs);
    let ghost with_properties = mutation::mutations_view(late@);
    let ghost piece = |exit: ExitCache|
        if restored@.contains(exit.connection_id) {
            Seq::empty()
        } else {
            seq![exit]
        };
    proof {
        assert(room.exits@.take(0) =~= Seq::empty());
        let none = list::collect(room.exits@.take(0), piece);
        assert(with_properties =~= with_properties + exits_recreated(key, none, cleared, base));
        assert(seeds@ =~= seeded + exit_seeds(none));
    }
    for i in 0..room.exits.len()
        invariant
            piece == (|exit: ExitCache|
                if restored@.contains(exit.connection_id) {
                    Seq::empty()
                } else {
                    seq![exit]
                }),
            base == seeded.len(),
            mutation::mutations_view(late@) == with_properties + exits_recreated(
                key,
                list::collect(room.exits@.take(i as int), piece),
                cleared,
                base,
            ),
            seeds@ == seeded + exit_seeds(list::collect(room.exits@.take(i as int), piece)),
            reaches(mutation::mutations_view(late@), seeds@.len() as int),
    {
        let exit = &room.exits[i];
        let ghost done = list::collect(room.exits@.take(i as int), piece);
        let ghost next = list::collect(room.exits@.take(i + 1), piece);
        proof {
            list::lemma_collect_step(room.exits@, piece, i as int);
        }
        if !holds_connection(restored, exit.connection_id) {
            let slot: usize = seeds.len();
            let one = Mutation::CreateExit {
                room_key: key,
                args: exit_args_from_cache(exit, cleared),
                follow_up: Some(exit_updates_from_cache(exit)),
                slot,
            };
            proof {
                lemma_reaches_next(mutation::mutations_view(late@), slot as int, one@);
                assert(next =~= done.push(*exit));
                assert(exits_recreated(key, next, cleared, base) =~= exits_recreated(
                    key,
                    done,
                    cleared,
                    base,
                ).push(exit_recreated(key, *exit, cleared, base + done.len())));
                assert(exit_seeds(next) =~= exit_seeds(done).push(ResolvedId::Exit(exit.id)));
            }
            push_mutation(late, one);
            seeds.push(ResolvedId::Exit(exit.id));
            assert(mutation::mutations_view(late@) =~= with_properties + exits_recreated(
                key,
                next,
                cleared,
                base,
            ));
            assert(seeds@ =~= seeded + exit_seeds(next));
        } else {
            assert(next =~= done);
        }
    }
    proof {
        assert(room.exits@.take(room.exits.len() as int) =~= room.exits@);
        assert(list::collect(room.exits@, piece) == kept_exits(room.exits@, restored@));
        assert(mutation::mutations_view(late@) =~= before + (properties_restored(key, pairs)
            + exits_recreated(key, kept_exits(room.exits@, restored@), cleared, base)));
    }
}

// ===== Exits that led to a deleted room =====

/// Whether a deletion removes the room with the given key.
pub open spec fn is_deleted(area_id: AreaId, rooms: Seq<RoomNumber>, key: RoomKey) -> bool {
    key.area_id == area_id && rooms.contains(key.room_number)
}

/// Whether an exit leads to a deleted room.
pub open spec fn leads_to_deleted(area_id: AreaId, rooms: Seq<RoomNumber>, exit: ExitCache) -> bool {
    match (exit.to_area_id, exit.to_room_number) {
        (Some(to_area), Some(to_room)) => is_deleted(
            area_id,
            rooms,
            RoomKey { area_id: to_area, room_number: to_room },
        ),
        _ => false,
    }
}

/// The mutation that links an exit again.
pub open spec fn exit_relinked(key: RoomKey, exit: ExitCache) -> MutationView {
    Mutation::UpdateExit {
        room_key: key,
        id: IdRef::Known(exit.id),
        updates: links::exit_snapshot(exit),
    }
}

/// The relinks of one room's exits. Exits of a link that is restored whole are
/// not relinked: they do not survive the deletion.
pub open spec fn room_relinks(
    area_id: AreaId,
    rooms: Seq<RoomNumber>,
    restored: Seq<ConnectionId>,
    key: RoomKey,
    exits: Seq<ExitCache>,
) -> Seq<MutationView> {
    list::collect(
        exits,
        |exit: ExitCache|
            if !restored.contains(exit.connection_id) && leads_to_deleted(area_id, rooms, exit) {
                seq![exit_relinked(key, exit)]
            } else {
                Seq::empty()
            },
    )
}

/// The relinks of one area's rooms, except the deleted ones.
pub open spec fn area_relinks(
    area_id: AreaId,
    rooms: Seq<RoomNumber>,
    restored: Seq<ConnectionId>,
    host: AreaCache,
) -> Seq<MutationView> {
    list::collect(
        host.rooms@,
        |room: RoomCache|
            {
                let key = RoomKey { area_id: host.id, room_number: room.room_number };
                if is_deleted(area_id, rooms, key) {
                    Seq::empty()
                } else {
                    room_relinks(area_id, rooms, restored, key, room.exits@)
                }
            },
    )
}

/// The relinks of every cached area.
pub open spec fn relinks(
    atlas: AtlasCache,
    area_id: AreaId,
    rooms: Seq<RoomNumber>,
    restored: Seq<ConnectionId>,
) -> Seq<MutationView> {
    list::collect(atlas.areas@, |host: AreaCache| area_relinks(area_id, rooms, restored, host))
}

/// Links the exits of one room again.
fn push_room_relinks(
    late: &mut Vec<Mutation>,
    area_id: AreaId,
    rooms: &Vec<RoomNumber>,
    restored: &Vec<ConnectionId>,
    key: RoomKey,
    exits: &Vec<ExitCache>,
    Ghost(n): Ghost<int>,
)
    requires
        n >= 0,
        reaches(mutation::mutations_view(old(late)@), n),
    ensures
        mutation::mutations_view(final(late)@) == mutation::mutations_view(old(late)@) + room_relinks(
            area_id,
            rooms@,
            restored@,
            key,
            exits@,
        ),
        reaches(mutation::mutations_view(final(late)@), n),
{
    let ghost before = mutation::mutations_view(late@);
    let ghost piece = |exit: ExitCache|
        if !restored@.contains(exit.connection_id) && leads_to_deleted(area_id, rooms@, exit) {
            seq![exit_relinked(key, exit)]
        } else {
            Seq::empty()
        };
    proof {
        assert(exits@.take(0) =~= Seq::empty());
        assert(before =~= before + list::collect(exits@.take(0), piece));
    }
    for i in 0..exits.len()
        invariant
            n >= 0,
            piece == (|exit: ExitCache|
                if !restored@.contains(exit.connection_id) && leads_to_deleted(area_id, rooms@, exit) {
                    seq![exit_relinked(key, exit)]
                } else {
                    Seq::empty()
                }),
            mutation::mutations_view(late@) == before + list::collect(exits@.take(i as int), piece),
            reaches(mutation::mutations_view(late@), n),
    {
        let exit = &exits[i];
        let ghost done = list::collect(exits@.take(i as int), piece);
        let ghost held = mutation::mutations_view(late@);
        proof {
            list::lemma_collect_step(exits@, piece, i as int);
        }
        let leads = match (exit.to_area_id, exit.to_room_number) {
            (Some(to_area), Some(to_room)) => to_area == area_id && holds_room(rooms, to_room),
            _ => false,
        };
        if !holds_connection(restored, exit.connection_id) && leads {
            let one = Mutation::UpdateExit {
                room_key: key,
                id: IdRef::Known(exit.id),
                updates: exit_updates_from_cache(exit),
            };
            proof {
                lemma_reaches_same(held, n, one@);
            }
            push_mutation(late, one);
            assert(mutation::mutations_view(late@) =~= before + (done + seq![exit_relinked(key, *exit)]));
        } else {
            assert(held =~= before + (done + Seq::empty()));
        }
    }
    assert(exits@.take(exits.len() as int) =~= exits@);
}

/// Links the exits of one area again.
fn push_area_relinks(
    late: &mut Vec<Mutation>,
    area_id: AreaId,
    rooms: &Vec<RoomNumber>,
    restored: &Vec<ConnectionId>,
    host: &AreaCache,
    Ghost(n): Ghost<int>,
)
    requires
        n >= 0,
        reaches(mutation::mutations_view(old(late)@), n),
    ensures
        mutation::mutations_view(final(late)@) == mutation::mutations_view(old(late)@) + area_relinks(
            area_id,
            rooms@,
            restored@,
            *host,
        ),
        reaches(mutation::mutations_view(final(late)@), n),
{
    let ghost before = mutation::mutations_view(late@);
    let ghost piece = |room: RoomCache|
        {
            let key = RoomKey { area_id: host.id, room_number: room.room_number };
            if is_deleted(area_id, rooms@, key) {
                Seq::empty()
            } else {
                room_relinks(area_id, rooms@, restored@, key, room.exits@)
            }
        };
    proof {
        assert(host.rooms@.take(0) =~= Seq::empty());
        assert(before =~= before + list::collect(host.rooms@.take(0), piece));
    }
    for i in 0..host.rooms.len()
        invariant
            n >= 0,
            piece == (|room: RoomCache|
                {
                    let key = RoomKey { area_id: host.id, room_number: room.room_number };
                    if is_deleted(area_id, rooms@, key) {
                        Seq::empty()
                    } else {
                        room_relinks(area_id, rooms@, restored@, key, room.exits@)
                    }
                }),
            mutation::mutations_view(late@) == before + list::collect(
                host.rooms@.take(i as int),
                piece,
            ),
            reaches(mutation::mutations_view(late@), n),
    {
        let room = &host.rooms[i];
        let ghost done = list::collect(host.rooms@.take(i as int), piece);
        proof {
            list::lemma_collect_step(host.rooms@, piece, i as int);
        }
        let key = RoomKey::new(host.id, room.room_number);
        if !(host.id == area_id && holds_room(rooms, room.room_number)) {
            push_room_relinks(late, area_id, rooms, restored, key, &room.exits, Ghost(n));
        }
        assert(mutation::mutations_view(late@) =~= before + (done + piece(*room)));
    }
    assert(host.rooms@.take(host.rooms.len() as int) =~= host.rooms@);
}

/// Links the exits of every cached area again.
fn push_relinks(
    late: &mut Vec<Mutation>,
    atlas: &AtlasCache,
    area_id: AreaId,
    rooms: &Vec<RoomNumber>,
    restored: &Vec<ConnectionId>,
    Ghost(n): Ghost<int>,
)
    requires
        n >= 0,
        reaches(mutation::mutations_view(old(late)@), n),
    ensures
        mutation::mutations_view(final(late)@) == mutation::mutations_view(old(late)@) + relinks(
            *atlas,
            area_id,
            rooms@,
            restored@,
        ),
        reaches(mutation::mutations_view(final(late)@), n),
{
    let ghost before = mutation::mutations_view(late@);
    let ghost piece = |host: AreaCache| area_relinks(area_id, rooms@, restored@, host);
    proof {
        assert(atlas.areas@.take(0) =~= Seq::empty());
        assert(before =~= before + list::collect(atlas.areas@.take(0), piece));
    }
    for i in 0..atlas.areas.len()
        invariant
            n >= 0,
            piece == (|host: AreaCache| area_relinks(area_id, rooms@, restored@, host)),
            mutation::mutations_view(late@) == before + list::collect(
                atlas.areas@.take(i as int),
                piece,
            ),
            reaches(mutation::mutations_view(late@), n),
    {
        let ghost done = list::collect(atlas.areas@.take(i as int), piece);
        proof {
            list::lemma_collect_step(atlas.areas@, piece, i as int);
        }
        push_area_relinks(late, area_id, rooms, restored, &atlas.areas[i], Ghost(n));
        assert(mutation::mutations_view(late@) =~= before + (done + piece(atlas.areas@[i as int])));
    }
    assert(atlas.areas@.take(atlas.areas.len() as int) =~= atlas.areas@);
}

// ===== Labels and shapes =====

/// The body that recreates a label under a fresh identity. The background is
/// always explicit: empty means transparent.
pub open spec fn label_args(label: LabelCache, is_secret: Option<bool>) -> LabelArgs<Seq<char>> {
    LabelArgs {
        id: None,
        is_secret,
        level: label.level,
        x: label.x,
        y: label.y,
        width: label.width,
        height: label.height,
        horizontal_alignment: label.horizontal_alignment,
        vertical_alignment: label.vertical_alignment,
        text: label.text@,
        color: label.color@,
        background_color: Some(label.background_color@),
        font_size: label.font_size,
        font_weight: label.font_weight,
    }
}

/// The body that recreates a label under a fresh identity.
pub(crate) fn label_args_from_cache(label: &LabelCache, is_secret: Option<bool>) -> (args: LabelArgs)
    ensures
        args@ == label_args(*label, is_secret),
{
    LabelArgs {
        id: None,
        is_secret,
        level: label.level,
        x: label.x,
        y: label.y,
        width: label.width,
        height: label.height,
        horizontal_alignment: label.horizontal_alignment,
        vertical_alignment: label.vertical_alignment,
        text: label.text.clone(),
        color: label.color.clone(),
        background_color: Some(label.background_color.clone()),
        font_size: label.font_size,
        font_weight: label.font_weight,
    }
}

/// The body that recreates a shape under a fresh identity. Fill and stroke are
/// always explicit: empty means none.
pub open spec fn shape_args(shape: ShapeCache, is_secret: Option<bool>) -> ShapeArgs<Seq<char>> {
    ShapeArgs {
        id: None,
        is_secret,
        level: shape.level,
        x: shape.x,
        y: shape.y,
        width: shape.width,
        height: shape.height,
        background_color: Some(text::or_empty(text::opt_text(shape.background_color))),
        stroke_color: Some(text::or_empty(text::opt_text(shape.stroke_color))),
        shape_type: shape.shape_type,
        border_radius: shape.border_radius,
        stroke_width: Some(shape.stroke_width),
    }
}

/// The body that recreates a shape under a fresh identity.
pub(crate) fn shape_args_from_cache(shape: &ShapeCache, is_secret: Option<bool>) -> (args: ShapeArgs)
    ensures
        args@ == shape_args(*shape, is_secret),
{
    ShapeArgs {
        id: None,
        is_secret,
        level: shape.level,
        x: shape.x,
        y: shape.y,
        width: shape.width,
        height: shape.height,
        background_color: Some(clone_or_empty(&shape.background_color)),
        stroke_color: Some(clone_or_empty(&shape.stroke_color)),
        shape_type: shape.shape_type,
        border_radius: shape.border_radius,
        stroke_width: Some(shape.stroke_width),
    }
}

/// The cached labels among `labels`, in order.
pub open spec fn cached_labels(area: AreaCache, labels: Seq<LabelId>) -> Seq<LabelCache> {
    list::collect(
        labels,
        |id: LabelId|
            match area.label(id) {
                Some(label) => seq![label],
                None => Seq::empty(),
            },
    )
}

/// The cached shapes among `shapes`, in order.
pub open spec fn cached_shapes(area: AreaCache, shapes: Seq<ShapeId>) -> Seq<ShapeCache> {
    list::collect(
        shapes,
        |id: ShapeId|
            match area.shape(id) {
                Some(shape) => seq![shape],
                None => Seq::empty(),
            },
    )
}

/// Secrecy, for a viewer cleared to send it.
pub open spec fn secrecy(cleared: bool, is_secret: bool) -> Option<bool> {
    if cleared {
        Some(is_secret)
    } else {
        None
    }
}

/// Secrecy, for a viewer cleared to send it.
pub(crate) fn secrecy_of(cleared: bool, is_secret: bool) -> (r: Option<bool>)
    ensures
        r == secrecy(cleared, is_secret),
{
    if cleared {
        Some(is_secret)
    } else {
        None
    }
}

/// The deletions of labels, in consecutive slots from `base`.
pub open spec fn labels_deleted(area_id: AreaId, n: nat, base: int) -> Seq<MutationView> {
    Seq::new(
        n,
        |i: int| Mutation::DeleteLabel { area_id, id: IdRef::Slot((base + i) as usize) },
    )
}

/// The recreations of labels, in consecutive slots from `base`.
pub open spec fn labels_recreated(
    area_id: AreaId,
    labels: Seq<LabelCache>,
    cleared: bool,
    base: int,
) -> Seq<MutationView> {
    Seq::new(
        labels.len(),
        |i: int|
            Mutation::CreateLabel {
                area_id,
                args: label_args(labels[i], secrecy(cleared, labels[i].is_secret)),
                slot: (base + i) as usize,
            },
    )
}

/// The deletions of shapes, in consecutive slots from `base`.
pub open spec fn shapes_deleted(area_id: AreaId, n: nat, base: int) -> Seq<MutationView> {
    Seq::new(
        n,
        |i: int| Mutation::DeleteShape { area_id, id: IdRef::Slot((base + i) as usize) },
    )
}

/// The recreations of shapes, in consecutive slots from `base`.
pub open spec fn shapes_recreated(
    area_id: AreaId,
    shapes: Seq<ShapeCache>,
    cleared: bool,
    base: int,
) -> Seq<MutationView> {
    Seq::new(
        shapes.len(),
        |i: int|
            Mutation::CreateShape {
                area_id,
                args: shape_args(shapes[i], secrecy(cleared, shapes[i].is_secret)),
                slot: (base + i) as usize,
            },
    )
}

/// The labels as slot contents.
pub open spec fn label_seeds(labels: Seq<LabelCache>) -> Seq<ResolvedId> {
    labels.map_values(|label: LabelCache| ResolvedId::Label(label.id))
}

/// The shapes as slot contents.
pub open spec fn shape_seeds(shapes: Seq<ShapeCache>) -> Seq<ResolvedId> {
    shapes.map_values(|shape: ShapeCache| ResolvedId::Shape(shape.id))
}

/// Deletes the cached labels among `labels`.
fn push_labels(
    redo: &mut Vec<Mutation>,
    late: &mut Vec<Mutation>,
    seeds: &mut Vec<ResolvedId>,
    area_id: AreaId,
    area: &AreaCache,
    labels: &Vec<LabelId>,
    cleared: bool,
)
    requires
        reaches(mutation::mutations_view(old(late)@), old(seeds)@.len() as int),
        fits(mutation::mutations_view(old(redo)@), old(seeds)@.len() as int),
    ensures
        mutation::mutations_view(final(redo)@) == mutation::mutations_view(old(redo)@) + labels_deleted(
            area_id,
            cached_labels(*area, labels@).len(),
            old(seeds)@.len() as int,
        ),
        mutation::mutations_view(final(late)@) == mutation::mutations_view(old(late)@) + labels_recreated(
            area_id,
            cached_labels(*area, labels@),
            cleared,
            old(seeds)@.len() as int,
        ),
        final(seeds)@ == old(seeds)@ + label_seeds(cached_labels(*area, labels@)),
        reaches(mutation::mutations_view(final(late)@), final(seeds)@.len() as int),
        fits(mutation::mutations_view(final(redo)@), final(seeds)@.len() as int),
{
    let ghost redo_before = mutation::mutations_view(redo@);
    let ghost late_before = mutation::mutations_view(late@);
    let ghost seeded = seeds@;
    let ghost base = seeds@.len() as int;
    let ghost piece = |id: LabelId|
        match area.label(id) {
            Some(label) => seq![label],
            None => Seq::empty(),
        };
    proof {
        let none = list::collect(labels@.take(0), piece);
        assert(labels@.take(0) =~= Seq::empty());
        assert(redo_before =~= redo_before + labels_deleted(area_id, none.len(), base));
        assert(late_before =~= late_before + labels_recreated(area_id, none, cleared, base));
        assert(seeded =~= seeded + label_seeds(none));
    }
    for i in 0..labels.len()
        invariant
            piece == (|id: LabelId|
                match area.label(id) {
                    Some(label) => seq![label],
                    None => Seq::empty(),
                }),
            base == seeded.len(),
            mutation::mutations_view(redo@) == redo_before + labels_deleted(
                area_id,
                list::collect(labels@.take(i as int), piece).len(),
                base,
            ),
            mutation::mutations_view(late@) == late_before + labels_recreated(
                area_id,
                list::collect(labels@.take(i as int), piece),
                cleared,
                base,
            ),
            seeds@ == seeded + label_seeds(list::collect(labels@.take(i as int), piece)),
            reaches(mutation::mutations_view(late@), seeds@.len() as int),
            fits(mutation::mutations_view(redo@), seeds@.len() as int),
    {
        let ghost done = list::collect(labels@.take(i as int), piece);
        let ghost next = list::collect(labels@.take(i + 1), piece);
        proof {
            list::lemma_collect_step(labels@, piece, i as int);
        }
        if let Some(label) = area.get_label(&labels[i]) {
            proof {
                list::lemma_first_exists(
                    area.labels@,
                    |item: LabelCache| item.id == labels@[i as int],
                );
            }
            let slot: usize = seeds.len();
            let deleted = Mutation::DeleteLabel { area_id, id: IdRef::Slot(slot) };
            let created = Mutation::CreateLabel {
                area_id,
                args: label_args_from_cache(label, secrecy_of(cleared, label.is_secret)),
                slot,
            };
            proof {
                lemma_reaches_next(mutation::mutations_view(late@), slot as int, created@);
                lemma_fits_next(mutation::mutations_view(redo@), slot as int, deleted@);
                assert(next =~= done.push(*label));
                assert(labels_deleted(area_id, next.len(), base) =~= labels_deleted(
                    area_id,
                    done.len(),
                    base,
                ).push(deleted@));
                assert(labels_recreated(area_id, next, cleared, base) =~= labels_recreated(
                    area_id,
                    done,
                    cleared,
                    base,
                ).push(created@));
                assert(label_seeds(next) =~= label_seeds(done).push(ResolvedId::Label(label.id)));
            }
            push_mutation(redo, deleted);
            push_mutation(late, created);
            seeds.push(ResolvedId::Label(labels[i]));
            proof {
                assert(mutation::mutations_view(redo@) =~= redo_before + labels_deleted(
                    area_id,
                    next.len(),
                    base,
                ));
                assert(mutation::mutations_view(late@) =~= late_before + labels_recreated(
                    area_id,
                    next,
                    cleared,
                    base,
                ));
                assert(seeds@ =~= seeded + label_seeds(next));
            }
        } else {
            assert(next =~= done);
        }
    }
    assert(labels@.take(labels.len() as int) =~= labels@);
}

/// Deletes the cached shapes among `shapes`.
fn push_shapes(
    redo: &mut Vec<Mutation>,
    late: &mut Vec<Mutation>,
    seeds: &mut Vec<ResolvedId>,
    area_id: AreaId,
    area: &AreaCache,
    shapes: &Vec<ShapeId>,
    cleared: bool,
)
    requires
        reaches(mutation::mutations_view(old(late)@), old(seeds)@.len() as int),
        fits(mutation::mutations_view(old(redo)@), old(seeds)@.len() as int),
    ensures
        mutation::mutations_view(final(redo)@) == mutation::mutations_view(old(redo)@) + shapes_deleted(
            area_id,
            cached_shapes(*area, shapes@).len(),
            old(seeds)@.len() as int,
        ),
        mutation::mutations_view(final(late)@) == mutation::mutations_view(old(late)@) + shapes_recreated(
            area_id,
            cached_shapes(*area, shapes@),
            cleared,
            old(seeds)@.len() as int,
        ),
        final(seeds)@ == old(seeds)@ + shape_seeds(cached_shapes(*area, shapes@)),
        reaches(mutation::mutations_view(final(late)@), final(seeds)@.len() as int),
        fits(mutation::mutations_view(final(redo)@), final(seeds)@.len() as int),
{
    let ghost redo_before = mutation::mutations_view(redo@);
    let ghost late_before = mutation::mutations_view(late@);
    let ghost seeded = seeds@;
    let ghost base = seeds@.len() as int;
    let ghost piece = |id: ShapeId|
        match area.shape(id) {
            Some(shape) => seq![shape],
            None => Seq::empty(),
        };
    proof {
        let none = list::collect(shapes@.take(0), piece);
        assert(shapes@.take(0) =~= Seq::empty());
        assert(redo_before =~= redo_before + shapes_deleted(area_id, none.len(), base));
        assert(late_before =~= late_before + shapes_recreated(area_id, none, cleared, base));
        assert(seeded =~= seeded + shape_seeds(none));
    }
    for i in 0..shapes.len()
        invariant
            piece == (|id: ShapeId|
                match area.shape(id) {
                    Some(shape) => seq![shape],
                    None => Seq::empty(),
                }),
            base == seeded.len(),
            mutation::mutations_view(redo@) == redo_before + shapes_deleted(
                area_id,
                list::collect(shapes@.take(i as int), piece).len(),
                base,
            ),
            mutation::mutations_view(late@) == late_before + shapes_recreated(
                area_id,
                list::collect(shapes@.take(i as int), piece),
                cleared,
                base,
            ),
            seeds@ == seeded + shape_seeds(list::collect(shapes@.take(i as int), piece)),
            reaches(mutation::mutations_view(late@), seeds@.len() as int),
            fits(mutation::mutations_view(redo@), seeds@.len() as int),
    {
        let ghost done = list::collect(shapes@.take(i as int), piece);
        let ghost next = list::collect(shapes@.take(i + 1), piece);
        proof {
            list::lemma_collect_step(shapes@, piece, i as int);
        }
        if let Some(shape) = area.get_shape(&shapes[i]) {
            proof {
                list::lemma_first_exists(
                    area.shapes@,
                    |item: ShapeCache| item.id == shapes@[i as int],
                );
            }
            let slot: usize = seeds.len();
            let deleted = Mutation::DeleteShape { area_id, id: IdRef::Slot(slot) };
            let created = Mutation::CreateShape {
                area_id,
                args: shape_args_from_cache(shape, secrecy_of(cleared, shape.is_secret)),
                slot,
            };
            proof {
                lemma_reaches_next(mutation::mutations_view(late@), slot as int, created@);
                lemma_fits_next(mutation::mutations_view(redo@), slot as int, deleted@);
                assert(next =~= done.push(*shape));
                assert(shapes_deleted(area_id, next.len(), base) =~= shapes_deleted(
                    area_id,
                    done.len(),
                    base,
                ).push(deleted@));
                assert(shapes_recreated(area_id, next, cleared, base) =~= shapes_recreated(
                    area_id,
                    done,
                    cleared,
                    base,
                ).push(created@));
                assert(shape_seeds(next) =~= shape_seeds(done).push(ResolvedId::Shape(shape.id)));
            }
            push_mutation(redo, deleted);
            push_mutation(late, created);
            seeds.push(ResolvedId::Shape(shapes[i]));
            proof {
                assert(mutation::mutations_view(redo@) =~= redo_before + shapes_deleted(
                    area_id,
                    next.len(),
                    base,
                ));
                assert(mutation::mutations_view(late@) =~= late_before + shapes_recreated(
                    area_id,
                    next,
                    cleared,
                    base,
                ));
                assert(seeds@ =~= seeded + shape_seeds(next));
            }
        } else {
            assert(next =~= done);
        }
    }
    assert(shapes@.take(shapes.len() as int) =~= shapes@);
}
/// Mutations that name no slot from `n` on.
pub open spec fn fits(mutations: Seq<MutationView>, n: int) -> bool {
    forall|i: int| 0 <= i < mutations.len() ==> mutation::slots_for(#[trigger] mutations[i]) <= n
}

/// One more mutation that names no slot past the next.
pub(crate) proof fn lemma_fits_next(mutations: Seq<MutationView>, n: int, m: MutationView)
    requires
        fits(mutations, n),
        mutation::slots_for(m) <= n + 1,
    ensures
        fits(mutations.push(m), n + 1),
{
    let longer = mutations.push(m);
    assert forall|i: int| 0 <= i < longer.len() implies mutation::slots_for(#[trigger] longer[i]) <= n
        + 1 by {
        if i < mutations.len() {
            assert(longer[i] == mutations[i]);
        }
    }
}

// ===== The whole selection =====

/// What a deletion is made of.
pub struct DeletionParts {
    pub cleared: bool,
    pub numbers: Seq<RoomNumber>,
    pub rooms: Seq<RoomCache>,
    pub links: Seq<Connection>,
    pub restored: Seq<ConnectionId>,
    pub exits: Seq<ExitCache>,
    pub labels: Seq<LabelCache>,
    pub shapes: Seq<ShapeCache>,
}

/// What deleting `selection` is made of.
pub open spec fn deletion_parts(area: AreaCache, selection: Seq<EntityId>) -> DeletionParts {
    let rooms = cached_rooms(area, cache::selected_rooms(selection));
    let restored = connection_ids(deleted_links(area, selection));
    DeletionParts {
        cleared: area.access.is_cleared_for_secrets,
        numbers: cache::selected_rooms(selection),
        rooms,
        links: deleted_links(area, selection),
        restored,
        exits: rooms_exits(rooms, restored),
        labels: cached_labels(area, cache::selected_labels(selection)),
        shapes: cached_shapes(area, cache::selected_shapes(selection)),
    }
}

/// The links as one mutation, when there are any.
pub open spec fn links_mutation(area_id: AreaId, list: Seq<Connection>) -> Seq<MutationView> {
    if list.len() == 0 {
        Seq::empty()
    } else {
        seq![edits::batch(area_id, link_deletes(list), "Delete links"@)]
    }
}

/// What a deletion does: links first (a link that went with a room cannot be
/// deleted again), then rooms, labels and shapes.
pub open spec fn deletion_redo(area_id: AreaId, parts: DeletionParts) -> Seq<MutationView> {
    let labels_base = parts.exits.len();
    let shapes_base = labels_base + parts.labels.len();
    links_mutation(area_id, parts.links) + rooms_deleted(area_id, parts.rooms) + labels_deleted(
        area_id,
        parts.labels.len(),
        labels_base as int,
    ) + shapes_deleted(area_id, parts.shapes.len(), shapes_base as int)
}

/// What takes a deletion back: rooms first, then their contents, the exits that
/// led to them, labels and shapes, and links last.
pub open spec fn deletion_undo(
    atlas: AtlasCache,
    area_id: AreaId,
    area: AreaCache,
    parts: DeletionParts,
) -> Seq<MutationView> {
    let labels_base = parts.exits.len();
    let shapes_base = labels_base + parts.labels.len();
    edits::rooms_mutation(
        area_id,
        edits::room_edits(area, parts.numbers, |room: RoomCache| room_snapshot(room, parts.cleared)),
    ) + rooms_contents(area_id, parts.rooms, parts.restored, parts.cleared) + relinks(
        atlas,
        area_id,
        parts.numbers,
        parts.restored,
    ) + labels_recreated(area_id, parts.labels, parts.cleared, labels_base as int) + shapes_recreated(
        area_id,
        parts.shapes,
        parts.cleared,
        shapes_base as int,
    ) + links_restored(area_id, area, parts.links, parts.cleared)
}

/// The entities whose ids the slots of a deletion hold, in slot order.
pub open spec fn deletion_seeds(parts: DeletionParts) -> Seq<ResolvedId> {
    exit_seeds(parts.exits) + label_seeds(parts.labels) + shape_seeds(parts.shapes)
}

/// The command of [`delete_selection`].
pub open spec fn delete_command(
    atlas: AtlasCache,
    area_id: AreaId,
    selection: Seq<EntityId>,
) -> Option<CommandView> {
    match atlas.area(area_id) {
        None => None,
        Some(area) => {
            let parts = deletion_parts(area, selection);
            let redo = deletion_redo(area_id, parts);
            if redo.len() == 0 {
                None
            } else {
                Some(
                    CommandView {
                        resolved_ids: filled_slots(deletion_seeds(parts)),
                        ..commands::new_command(redo, deletion_undo(atlas, area_id, area, parts))
                    },
                )
            }
        },
    }
}

/// A slot table that holds the given ids.
pub open spec fn filled_slots(seeds: Seq<ResolvedId>) -> Seq<Option<ResolvedId>> {
    seeds.map_values(|id: ResolvedId| Some(id))
}

/// Adds the mutations of one list to another.
fn append_mutations(list: &mut Vec<Mutation>, more: Vec<Mutation>)
    ensures
        mutation::mutations_view(final(list)@) == mutation::mutations_view(old(list)@)
            + mutation::mutations_view(more@),
{
    let ghost before = list@;
    let mut more = more;
    let ghost added = more@;
    list.append(&mut more);
    assert(mutation::mutations_view(list@) =~= mutation::mutations_view(before)
        + mutation::mutations_view(added));
}

/// A table just long enough for the seeds, filled with them.
fn seed_all(command: Command, seeds: &Vec<ResolvedId>) -> (seeded: Command)
    requires
        command@.resolved_ids.len() == seeds@.len(),
        command.wf(),
    ensures
        seeded@ == (CommandView { resolved_ids: filled_slots(seeds@), ..command@ }),
        seeded.wf(),
{
    let ghost given = command@;
    let mut command = command;
    for i in 0..seeds.len()
        invariant
            given.wf(),
            given.resolved_ids.len() == seeds@.len(),
            command@.resolved_ids.len() == seeds@.len(),
            forall|j: int| 0 <= j < i ==> (#[trigger] command@.resolved_ids[j]) == Some(seeds@[j]),
            command@ == (CommandView { resolved_ids: command@.resolved_ids, ..given }),
    {
        command = command.seed_slot(i, seeds[i]);
    }
    assert(command@.resolved_ids =~= filled_slots(seeds@));
    command
}

/// What deleting rooms collects.
struct RoomPart {
    redo: Vec<Mutation>,
    undo_rooms: Vec<(RoomNumber, RoomUpdates)>,
    late: Vec<Mutation>,
    seeds: Vec<ResolvedId>,
}

/// Collects the deletion of the cached rooms among `rooms`.
fn collect_rooms(
    area_id: AreaId,
    area: &AreaCache,
    rooms: &Vec<RoomNumber>,
    restored: &Vec<ConnectionId>,
    cleared: bool,
) -> (part: RoomPart)
    ensures
        mutation::mutations_view(part.redo@) == rooms_deleted(area_id, cached_rooms(*area, rooms@)),
        mutation::rooms_view(part.undo_rooms@) == edits::room_edits(
            *area,
            rooms@,
            |room: RoomCache| room_snapshot(room, cleared),
        ),
        mutation::mutations_view(part.late@) == rooms_contents(
            area_id,
            cached_rooms(*area, rooms@),
            restored@,
            cleared,
        ),
        part.seeds@ == exit_seeds(rooms_exits(cached_rooms(*area, rooms@), restored@)),
        reaches(mutation::mutations_view(part.late@), part.seeds@.len() as int),
        fits(mutation::mutations_view(part.redo@), 0),
{
    let mut redo: Vec<Mutation> = Vec::new();
    let mut undo_rooms: Vec<(RoomNumber, RoomUpdates)> = Vec::new();
    let mut late: Vec<Mutation> = Vec::new();
    let mut seeds: Vec<ResolvedId> = Vec::new();
    let ghost snapshot = |room: RoomCache| room_snapshot(room, cleared);
    let ghost piece = |number: RoomNumber|
        match area.room(number) {
            Some(room) => seq![room],
            None => Seq::empty(),
        };
    proof {
        assert(rooms@.take(0) =~= Seq::empty());
        let none = list::collect(rooms@.take(0), piece);
        assert(mutation::rooms_view(undo_rooms@) =~= edits::room_edits(*area, rooms@.take(0), snapshot));
        assert(mutation::mutations_view(late@) =~= rooms_contents(area_id, none, restored@, cleared));
        assert(mutation::mutations_view(redo@) =~= rooms_deleted(area_id, none));
        assert(seeds@ =~= exit_seeds(rooms_exits(none, restored@)));
    }
    for i in 0..rooms.len()
        invariant
            snapshot == (|room: RoomCache| room_snapshot(room, cleared)),
            piece == (|number: RoomNumber|
                match area.room(number) {
                    Some(room) => seq![room],
                    None => Seq::empty(),
                }),
            mutation::rooms_view(undo_rooms@) == edits::room_edits(
                *area,
                rooms@.take(i as int),
                snapshot,
            ),
            mutation::mutations_view(redo@) == rooms_deleted(
                area_id,
                list::collect(rooms@.take(i as int), piece),
            ),
            mutation::mutations_view(late@) == rooms_contents(
                area_id,
                list::collect(rooms@.take(i as int), piece),
                restored@,
                cleared,
            ),
            seeds@ == exit_seeds(
                rooms_exits(list::collect(rooms@.take(i as int), piece), restored@),
            ),
            reaches(mutation::mutations_view(late@), seeds@.len() as int),
            fits(mutation::mutations_view(redo@), 0),
    {
        let ghost done = list::collect(rooms@.take(i as int), piece);
        let ghost next = list::collect(rooms@.take(i + 1), piece);
        proof {
            list::lemma_collect_step(rooms@, piece, i as int);
            assert(rooms@.take(i + 1).drop_last() =~= rooms@.take(i as int));
        }
        if let Some(room) = area.get_room(&rooms[i]) {
            proof {
                list::lemma_first_exists(
                    area.rooms@,
                    |item: RoomCache| item.room_number == rooms@[i as int],
                );
            }
            let key = RoomKey::new(area_id, room.room_number);
            let deleted = Mutation::DeleteRoom(key);
            proof {
                lemma_fits_same(mutation::mutations_view(redo@), 0, deleted@);
                assert(next =~= done.push(*room));
                assert(next.drop_last() =~= done);
                assert(rooms_deleted(area_id, next) =~= rooms_deleted(area_id, done).push(deleted@));
                assert(rooms_exits(next, restored@) =~= rooms_exits(done, restored@) + kept_exits(
                    room.exits@,
                    restored@,
                ));
                assert(exit_seeds(rooms_exits(next, restored@)) =~= exit_seeds(
                    rooms_exits(done, restored@),
                ) + exit_seeds(kept_exits(room.exits@, restored@)));
            }
            push_mutation(&mut redo, deleted);
            push_room(&mut undo_rooms, rooms[i], snapshot_room(room, cleared));
            push_room_contents(&mut late, &mut seeds, area_id, room, restored, cleared);
        } else {
            assert(next =~= done);
        }
    }
    assert(rooms@.take(rooms.len() as int) =~= rooms@);
    RoomPart { redo, undo_rooms, late, seeds }
}

/// The undo list of a deletion.
fn finish_undo(
    area_id: AreaId,
    undo_rooms: Vec<(RoomNumber, RoomUpdates)>,
    late: Vec<Mutation>,
    restores: Vec<Mutation>,
) -> (undo: Vec<Mutation>)
    ensures
        mutation::mutations_view(undo@) == edits::rooms_mutation(
            area_id,
            mutation::rooms_view(undo_rooms@),
        ) + mutation::mutations_view(late@) + mutation::mutations_view(restores@),
{
    let mut undo: Vec<Mutation> = Vec::new();
    assert(mutation::mutations_view(undo@) =~= Seq::empty());
    assert(mutation::rooms_view(undo_rooms@).len() == undo_rooms@.len());
    let ghost rooms = mutation::rooms_view(undo_rooms@);
    if undo_rooms.len() > 0 {
        push_mutation(&mut undo, Mutation::UpsertRooms(area_id, undo_rooms));
    }
    assert(mutation::mutations_view(undo@) =~= edits::rooms_mutation(area_id, rooms));
    append_mutations(&mut undo, late);
    append_mutations(&mut undo, restores);
    undo
}

/// A command whose slot table holds exactly the seeds.
fn seeded_command(redo: Vec<Mutation>, undo: Vec<Mutation>, seeds: &Vec<ResolvedId>) -> (command: Command)
    requires
        mutation::slots_for_all(mutation::mutations_view(redo@) + mutation::mutations_view(undo@))
            == seeds@.len(),
    ensures
        command@ == (CommandView {
            resolved_ids: filled_slots(seeds@),
            ..commands::new_command(
                mutation::mutations_view(redo@),
                mutation::mutations_view(undo@),
            )
        }),
        command.wf(),
{
    let count: usize = seeds.len();
    assert(count == seeds@.len());
    let command = Command::new(redo, undo);
    seed_all(command, seeds)
}

/// Deletes every selected entity. Undo restores rooms with their properties and
/// outgoing exits, and recreates labels and shapes. `None` when the selection
/// holds nothing to delete.
pub fn delete_selection(
    atlas: &AtlasCache,
    area_id: AreaId,
    selection: &Selection,
) -> (command: Option<Command>)
    ensures
        edits::opt_command(command) == delete_command(*atlas, area_id, selection@),
        command matches Some(command) ==> command.wf(),
{
    let area = atlas.get_area(&area_id)?;
    let ghost parts = deletion_parts(*area, selection@);
    let cleared = area.access.is_cleared_for_secrets;
    let rooms = selection.rooms();
    let link_part = collect_links(area_id, area, selection, &rooms, cleared);
    let restored = link_part.ids;
    let room_part = collect_rooms(area_id, area, &rooms, &restored, cleared);
    let mut redo: Vec<Mutation> = Vec::new();
    assert(mutation::mutations_view(redo@) =~= Seq::empty());
    assert(mutation::ops_view(link_part.deletes@).len() == link_part.deletes@.len());
    if link_part.deletes.len() > 0 {
        push_mutation(
            &mut redo,
            Mutation::AreaBatch {
                area_id,
                operations: link_part.deletes,
                description: "Delete links".to_owned(),
            },
        );
    }
    let ghost redo_links = mutation::mutations_view(redo@);
    let ghost rooms_redo = mutation::mutations_view(room_part.redo@);
    assert(redo_links =~= links_mutation(area_id, parts.links));
    append_mutations(&mut redo, room_part.redo);
    let mut late = room_part.late;
    let mut seeds = room_part.seeds;
    proof {
        let all = redo_links + rooms_redo;
        assert forall|i: int| 0 <= i < all.len() implies mutation::slots_for(#[trigger] all[i])
            <= seeds@.len() by {
            if i >= redo_links.len() {
                assert(all[i] == rooms_redo[i - redo_links.len()]);
            }
        }
    }
    push_relinks(&mut late, atlas, area_id, &rooms, &restored, Ghost(seeds@.len() as int));
    let labels = selection.labels();
    push_labels(&mut redo, &mut late, &mut seeds, area_id, area, &labels, cleared);
    let shapes = selection.shapes();
    push_shapes(&mut redo, &mut late, &mut seeds, area_id, area, &shapes, cleared);
    assert(mutation::mutations_view(redo@) =~= deletion_redo(area_id, parts));
    assert(seeds@ =~= deletion_seeds(parts));
    if redo.len() == 0 {
        return None;
    }
    let ghost late_all = mutation::mutations_view(late@);
    let ghost head = edits::rooms_mutation(area_id, mutation::rooms_view(room_part.undo_rooms@));
    let ghost tail = links_restored(area_id, *area, parts.links, cleared);
    let undo = finish_undo(area_id, room_part.undo_rooms, late, link_part.restores);
    proof {
        lemma_deletion_slots(
            mutation::mutations_view(redo@),
            head,
            late_all,
            tail,
            seeds@.len() as int,
        );
        assert(mutation::mutations_view(undo@) =~= deletion_undo(*atlas, area_id, *area, parts));
    }
    Some(seeded_command(redo, undo, &seeds))
}

/// One more mutation that names no slot.
proof fn lemma_fits_same(mutations: Seq<MutationView>, n: int, m: MutationView)
    requires
        fits(mutations, n),
        mutation::slots_for(m) <= n,
    ensures
        fits(mutations.push(m), n),
{
    let longer = mutations.push(m);
    assert forall|i: int| 0 <= i < longer.len() implies mutation::slots_for(#[trigger] longer[i]) <= n by {
        if i < mutations.len() {
            assert(longer[i] == mutations[i]);
        }
    }
}

/// The mutations of a deletion need exactly the slots that are seeded.
proof fn lemma_deletion_slots(
    redo: Seq<MutationView>,
    head: Seq<MutationView>,
    late: Seq<MutationView>,
    tail: Seq<MutationView>,
    n: int,
)
    requires
        n >= 0,
        fits(redo, n),
        fits(head, 0),
        reaches(late, n),
        fits(tail, 0),
    ensures
        mutation::slots_for_all(redo + (head + late + tail)) == n,
{
    let all = redo + (head + late + tail);
    assert forall|i: int| 0 <= i < all.len() implies mutation::slots_for(#[trigger] all[i]) <= n by {
        let h = redo.len();
        let l = h + head.len();
        let t = l + late.len();
        if i < h {
            assert(all[i] == redo[i]);
        } else if i < l {
            assert(all[i] == head[i - h]);
        } else if i < t {
            assert(all[i] == late[i - l]);
        } else {
            assert(all[i] == tail[i - t]);
        }
    }
    edits::lemma_slots_bound(all, n);
    if n > 0 {
        let k = choose|i: int| 0 <= i < late.len() && mutation::slots_for(#[trigger] late[i]) == n;
        let place = redo.len() + head.len() + k;
        assert(all[place] == late[k]);
        commands::lemma_slots_for_all(all, place as int);
    }
}

} // verus!
