//! What the deletion of a selection takes out of the map.

use vstd::prelude::*;

use super::cache;
use super::copied_links;
use super::copying;
use super::deletion;
use super::doing;
use super::links;
use super::model::{
    AreaCache, AreaId, AtlasCache, Connection, ConnectionId, EntityId, ExitCache, ExitId, LabelId, RoomCache, RoomKey,
    RoomNumber, ShapeId,
};
use super::reconnecting;
use super::restoring;
use super::undoing::{self, World};
use super::wiring::{self, Links};
use crate::list;

verus! {

/// Whether a world is another without what is selected.
pub open spec fn is_without(after: World, before: World, selection: Seq<EntityId>) -> bool {
    &&& forall|number: RoomNumber|
        #![trigger after.rooms.dom().contains(number)]
        after.rooms.dom().contains(number) <==> before.rooms.dom().contains(number) && !selection.contains(
            EntityId::Room(number),
        )
    &&& forall|number: RoomNumber|
        #![trigger after.rooms[number]]
        after.rooms.dom().contains(number) ==> after.rooms[number] == before.rooms[number]
    &&& forall|id: LabelId|
        #![trigger after.labels.dom().contains(id)]
        after.labels.dom().contains(id) <==> before.labels.dom().contains(id) && !selection.contains(
            EntityId::Label(id),
        )
    &&& forall|id: LabelId|
        #![trigger after.labels[id]]
        after.labels.dom().contains(id) ==> after.labels[id] == before.labels[id]
    &&& forall|id: ShapeId|
        #![trigger after.shapes.dom().contains(id)]
        after.shapes.dom().contains(id) <==> before.shapes.dom().contains(id) && !selection.contains(
            EntityId::Shape(id),
        )
    &&& forall|id: ShapeId|
        #![trigger after.shapes[id]]
        after.shapes.dom().contains(id) ==> after.shapes[id] == before.shapes[id]
    &&& after.properties == before.properties
}

/// Whether a connection has exits, which all leave selected rooms: it goes with the rooms.
pub open spec fn goes_with_rooms(area: AreaCache, selection: Seq<EntityId>, id: ConnectionId) -> bool {
    &&& exists|r: int, e: int| #[trigger] copied_links::is_on(area, id, r, e)
    &&& forall|r: int, e: int| #[trigger]
        copied_links::is_on(area, id, r, e) ==> selection.contains(
            EntityId::Room(area.rooms@[r].room_number),
        )
}

/// Whether a room is deleted with a selection.
pub open spec fn is_room_taken(area_id: AreaId, area: AreaCache, selection: Seq<EntityId>, key: RoomKey) -> bool {
    key.area_id == area_id && selection.contains(EntityId::Room(key.room_number)) && area.room(
        key.room_number,
    ) is Some
}

/// Whether a connection is deleted in its own right.
pub open spec fn is_link_taken(area: AreaCache, selection: Seq<EntityId>, id: ConnectionId) -> bool {
    selection.contains(EntityId::Connection(id)) && area.connection(id) is Some && !goes_with_rooms(
        area,
        selection,
        id,
    )
}

/// Whether exits are those that were there without those of deleted rooms and links. One that
/// led to a deleted room leads nowhere any more.
pub open spec fn are_exits_left(
    after: Links,
    before: Links,
    area_id: AreaId,
    area: AreaCache,
    selection: Seq<EntityId>,
) -> bool {
    &&& forall|id: ExitId|
        #![trigger after.exits.dom().contains(id)]
        after.exits.dom().contains(id) <==> before.exits.dom().contains(id) && !is_room_taken(
            area_id,
            area,
            selection,
            before.exits[id].0,
        ) && !is_link_taken(area, selection, before.exits[id].1.connection_id)
    &&& forall|id: ExitId|
        #![trigger after.exits[id]]
        after.exits.dom().contains(id) ==> {
            let held = before.exits[id];
            let led_away = held.1.to_area_id is Some && held.1.to_room_number is Some && is_room_taken(
                area_id,
                area,
                selection,
                RoomKey { area_id: held.1.to_area_id->0, room_number: held.1.to_room_number->0 },
            );
            after.exits[id] == if led_away {
                (
                    held.0,
                    ExitCache { to_area_id: None, to_room_number: None, to_direction: None, ..held.1 },
                )
            } else {
                held
            }
        }
    &&& forall|id: ConnectionId|
        #![trigger after.connections.dom().contains(id)]
        before.connections.dom().contains(id) && wiring::is_carried(after.exits, id)
            ==> after.connections.dom().contains(id) && after.connections[id] == before.connections[id]
}

/// The deleted rooms are the selected ones that are cached.
proof fn lemma_rooms_named(area: AreaCache, selection: Seq<EntityId>, number: RoomNumber)
    ensures
        restoring::names_room(deletion::cached_rooms(area, cache::selected_rooms(selection)), number)
            == (selection.contains(EntityId::Room(number)) && area.room(number) is Some),
{
    let numbers = cache::selected_rooms(selection);
    let find = |number: RoomNumber| area.room(number);
    let key = |room: RoomCache| room.room_number;
    let piece = |number: RoomNumber|
        match area.room(number) {
            Some(room) => seq![room],
            None => Seq::empty(),
        };
    assert forall|n: RoomNumber| (#[trigger] find(n)) is Some implies key(find(n)->0) == n by {
        list::lemma_first_exists(area.rooms@, |item: RoomCache| item.room_number == n);
    }
    copying::lemma_found(numbers, find, key, piece);
    let rooms = deletion::cached_rooms(area, numbers);
    assert(rooms == list::collect(numbers, piece));
    doing::lemma_selected(selection, EntityId::Room(number));
    if restoring::names_room(rooms, number) {
        let i = choose|i: int| 0 <= i < rooms.len() && (#[trigger] rooms[i]).room_number == number;
        assert(find(key(rooms[i])) == Some(rooms[i]));
    }
    if numbers.contains(number) && area.room(number) is Some {
        assert(find(number) is Some);
        let i = choose|i: int| 0 <= i < rooms.len() && rooms[i] == find(number)->0;
        assert(rooms[i].room_number == number);
    }
}

/// The links that are deleted in their own right.
proof fn lemma_links_named(area: AreaCache, selection: Seq<EntityId>, id: ConnectionId)
    ensures
        deletion::connection_ids(deletion::deleted_links(area, selection)).contains(id) == is_link_taken(
            area,
            selection,
            id,
        ),
{
    let rooms = cache::selected_rooms(selection);
    let given = cache::selected_connections(selection);
    let less = |a: ConnectionId, b: ConnectionId| deletion::id_before(a, b);
    let sorted = list::in_order(given, less);
    let piece = |id: ConnectionId|
        match area.connection(id) {
            Some(connection) => if deletion::rides_rooms(area, rooms, id) {
                Seq::empty()
            } else {
                seq![connection]
            },
            None => Seq::empty(),
        };
    let found = deletion::deleted_links(area, selection);
    let ids = deletion::connection_ids(found);
    assert(found == list::collect(sorted, piece));
    assert forall|other: ConnectionId| (#[trigger] area.connection(other)) is Some implies area.connection(
        other,
    )->0.id == other by {
        list::lemma_first_exists(area.connections@, |item: Connection| item.id == other);
    }
    list::lemma_in_order_holds(given, less, id);
    doing::lemma_selected(selection, EntityId::Connection(id));
    lemma_rides(area, selection, id);
    if ids.contains(id) {
        let k = choose|k: int| 0 <= k < ids.len() && ids[k] == id;
        assert(found[k].id == id);
        list::lemma_collect_source(sorted, piece, k);
        let i = choose|i: int| 0 <= i < sorted.len() && (#[trigger] piece(sorted[i])).contains(found[k]);
        assert(area.connection(sorted[i]) == Some(found[k]));
        assert(sorted[i] == id);
    }
    if is_link_taken(area, selection, id) {
        let i = choose|i: int| 0 <= i < sorted.len() && sorted[i] == id;
        let connection = area.connection(id)->0;
        assert(piece(id)[0] == connection);
        list::lemma_collect_contains(sorted, piece, i, connection);
        let k = choose|k: int| 0 <= k < found.len() && found[k] == connection;
        assert(ids[k] == id);
    }
}

/// A connection rides along when all its exits leave selected rooms.
proof fn lemma_rides(area: AreaCache, selection: Seq<EntityId>, id: ConnectionId)
    ensures
        deletion::rides_rooms(area, cache::selected_rooms(selection), id) == goes_with_rooms(
            area,
            selection,
            id,
        ),
{
    let rooms = cache::selected_rooms(selection);
    let all = links::members(area, id);
    copied_links::lemma_members(area, id);
    if deletion::rides_rooms(area, rooms, id) {
        assert(copied_links::is_member(all[0], area, id));
        let (r, e) = choose|r: int, e: int| #[trigger] copied_links::is_member_at(all[0], area, id, r, e);
        assert(copied_links::is_on(area, id, r, e));
        assert forall|r: int, e: int| #[trigger] copied_links::is_on(area, id, r, e) implies selection.contains(
            EntityId::Room(area.rooms@[r].room_number),
        ) by {
            let member = (area.rooms@[r].room_number, area.rooms@[r].exits@[e]);
            let k = choose|k: int| 0 <= k < all.len() && all[k] == member;
            assert(rooms.contains(all[k].0));
            doing::lemma_selected(selection, EntityId::Room(area.rooms@[r].room_number));
        }
    }
    if goes_with_rooms(area, selection, id) {
        let (r, e) = choose|r: int, e: int| #[trigger] copied_links::is_on(area, id, r, e);
        assert(all.contains((area.rooms@[r].room_number, area.rooms@[r].exits@[e])));
        assert forall|k: int| 0 <= k < all.len() implies rooms.contains((#[trigger] all[k]).0) by {
            assert(copied_links::is_member(all[k], area, id));
            let (r, e) = choose|r: int, e: int| #[trigger]
                copied_links::is_member_at(all[k], area, id, r, e);
            assert(copied_links::is_on(area, id, r, e));
            doing::lemma_selected(selection, EntityId::Room(all[k].0));
        }
    }
}

/// A deletion takes out what is selected, and nothing else: of rooms, labels and shapes exactly
/// the selected ones; of exits those that leave a selected room or are on a selected link.
/// Exits that led to a deleted room lead nowhere any more.
#[verifier::rlimit(60)]
#[verifier::spinoff_prover]
pub proof fn law_a_deletion_takes_out_what_is_selected(
    atlas: AtlasCache,
    area_id: AreaId,
    selection: Seq<EntityId>,
    before: Links,
    fresh: Seq<u128>,
    limit: int,
)
    requires
        limit > 0,
        atlas.area(area_id) matches Some(area) ==> deletion::deletion_seeds(
            deletion::deletion_parts(area, selection),
        ).len() <= usize::MAX,
        deletion::delete_command(atlas, area_id, selection) matches Some(command) ==> fresh.len()
            >= command.redo.len(),
    ensures
        deletion::delete_command(atlas, area_id, selection) matches Some(command) ==> {
            &&& is_without(
                undoing::staged(
                    doing::held(atlas, area_id),
                    doing::redo_batches(command, fresh, limit),
                ),
                doing::held(atlas, area_id),
                selection,
            )
            &&& are_exits_left(
                wiring::links_staged(before, doing::redo_batches(command, fresh, limit)),
                before,
                area_id,
                atlas.area(area_id)->0,
                selection,
            )
        },
{
    if let Some(command) = deletion::delete_command(atlas, area_id, selection) {
        let area = atlas.area(area_id)->0;
        let world = doing::held(atlas, area_id);
        let parts = deletion::deletion_parts(area, selection);
        let start = restoring::compile_start(command);
        let after = undoing::staged(world, doing::redo_batches(command, fresh, limit));
        restoring::lemma_compiled_rooms(world, start, command.redo, fresh, command.id, limit);
        assert(undoing::staged(world, start.batches) == world);
        restoring::lemma_deletion_redo(world, area_id, parts);
        restoring::lemma_drawings_deleted(world, command, area_id, parts, fresh, limit);
        restoring::lemma_cached_labels(area, cache::selected_labels(selection));
        restoring::lemma_cached_shapes(area, cache::selected_shapes(selection));
        assert forall|number: RoomNumber|
            #![trigger after.rooms.dom().contains(number)]
            after.rooms.dom().contains(number) <==> world.rooms.dom().contains(number)
                && !selection.contains(EntityId::Room(number)) by {
            lemma_rooms_named(area, selection, number);
        }
        assert forall|number: RoomNumber|
            #![trigger after.rooms[number]]
            after.rooms.dom().contains(number) implies after.rooms[number] == world.rooms[number] by {
            lemma_rooms_named(area, selection, number);
        }
        assert forall|id: LabelId|
            #![trigger after.labels.dom().contains(id)]
            after.labels.dom().contains(id) <==> world.labels.dom().contains(id) && !selection.contains(
                EntityId::Label(id),
            ) by {
            doing::lemma_selected(selection, EntityId::Label(id));
            assert(restoring::names_label(parts.labels, id) == (cache::selected_labels(selection).contains(id)
                && area.label(id) is Some));
        }
        assert forall|id: ShapeId|
            #![trigger after.shapes.dom().contains(id)]
            after.shapes.dom().contains(id) <==> world.shapes.dom().contains(id) && !selection.contains(
                EntityId::Shape(id),
            ) by {
            doing::lemma_selected(selection, EntityId::Shape(id));
            assert(restoring::names_shape(parts.shapes, id) == (cache::selected_shapes(selection).contains(id)
                && area.shape(id) is Some));
        }
        lemma_exits_left(before, command, area_id, area, selection, fresh, limit);
    }
}

/// What a deletion leaves of exits.
proof fn lemma_exits_left(
    before: Links,
    command: super::commands::CommandView,
    area_id: AreaId,
    area: AreaCache,
    selection: Seq<EntityId>,
    fresh: Seq<u128>,
    limit: int,
)
    requires
        command.redo == deletion::deletion_redo(area_id, deletion::deletion_parts(area, selection)),
        fresh.len() >= command.redo.len(),
    ensures
        are_exits_left(
            wiring::links_staged(before, doing::redo_batches(command, fresh, limit)),
            before,
            area_id,
            area,
            selection,
        ),
{
    let parts = deletion::deletion_parts(area, selection);
    let after = wiring::links_staged(before, doing::redo_batches(command, fresh, limit));
    reconnecting::lemma_deletion_taken(before, command, area_id, parts, fresh, limit);
    assert forall|key: RoomKey| #[trigger] reconnecting::is_gone(area_id, parts.rooms, key) == is_room_taken(
        area_id,
        area,
        selection,
        key,
    ) by {
        lemma_rooms_named(area, selection, key.room_number);
    }
    assert forall|id: ExitId|
        #[trigger] reconnecting::survives(before, area_id, parts, id) == (before.exits.dom().contains(id)
            && !is_room_taken(area_id, area, selection, before.exits[id].0) && !is_link_taken(
            area,
            selection,
            before.exits[id].1.connection_id,
        )) by {
        lemma_links_named(area, selection, before.exits[id].1.connection_id);
    }
    assert forall|id: ExitId|
        #![trigger after.exits[id]]
        after.exits.dom().contains(id) implies {
        let held = before.exits[id];
        let led_away = held.1.to_area_id is Some && held.1.to_room_number is Some && is_room_taken(
            area_id,
            area,
            selection,
            RoomKey { area_id: held.1.to_area_id->0, room_number: held.1.to_room_number->0 },
        );
        after.exits[id] == if led_away {
            (held.0, ExitCache { to_area_id: None, to_room_number: None, to_direction: None, ..held.1 })
        } else {
            held
        }
    } by {
        assert(reconnecting::survives(before, area_id, parts, id));
        let held = before.exits[id];
        if held.1.to_area_id is Some && held.1.to_room_number is Some {
            let key = RoomKey { area_id: held.1.to_area_id->0, room_number: held.1.to_room_number->0 };
            assert(reconnecting::is_gone(area_id, parts.rooms, key) == is_room_taken(
                area_id,
                area,
                selection,
                key,
            ));
        }
    }
    assert forall|id: ConnectionId|
        #![trigger after.connections.dom().contains(id)]
        before.connections.dom().contains(id) && wiring::is_carried(after.exits, id) implies after.connections.dom().contains(
        id,
    ) && after.connections[id] == before.connections[id] by {
        let e = choose|e: ExitId|
            after.exits.dom().contains(e) && (#[trigger] after.exits[e]).1.connection_id == id;
        assert(reconnecting::survives(before, area_id, parts, e));
        assert(before.exits[e].1.connection_id == id);
    }
}

/// There is something to delete exactly when a selected room, label, shape or link is cached.
pub proof fn law_a_deletion_needs_something_selected(
    atlas: AtlasCache,
    area_id: AreaId,
    selection: Seq<EntityId>,
)
    ensures
        deletion::delete_command(atlas, area_id, selection) is Some <==> (atlas.area(area_id) is Some
            && is_any_taken(atlas.area(area_id)->0, selection)),
{
    if let Some(area) = atlas.area(area_id) {
        let parts = deletion::deletion_parts(area, selection);
        restoring::lemma_cached_labels(area, cache::selected_labels(selection));
        restoring::lemma_cached_shapes(area, cache::selected_shapes(selection));
        let redo = deletion::deletion_redo(area_id, parts);
        assert(redo.len() == 0 <==> parts.links.len() == 0 && parts.rooms.len() == 0 && parts.labels.len() == 0
            && parts.shapes.len() == 0);
        if parts.links.len() > 0 {
            let id = parts.links[0].id;
            assert(parts.restored[0] == id);
            lemma_links_named(area, selection, id);
            assert(is_link_taken(area, selection, id));
        }
        if parts.rooms.len() > 0 {
            let number = parts.rooms[0].room_number;
            assert(restoring::names_room(parts.rooms, number));
            lemma_rooms_named(area, selection, number);
            assert(is_taken(area, selection, EntityId::Room(number)));
        }
        if parts.labels.len() > 0 {
            let id = parts.labels[0].id;
            assert(restoring::names_label(parts.labels, id));
            doing::lemma_selected(selection, EntityId::Label(id));
            assert(is_taken(area, selection, EntityId::Label(id)));
        }
        if parts.shapes.len() > 0 {
            let id = parts.shapes[0].id;
            assert(restoring::names_shape(parts.shapes, id));
            doing::lemma_selected(selection, EntityId::Shape(id));
            assert(is_taken(area, selection, EntityId::Shape(id)));
        }
        if parts.links.len() > 0 {
            assert(is_taken(area, selection, EntityId::Connection(parts.links[0].id)));
        }
        if is_any_taken(area, selection) {
            let entity = choose|entity: EntityId| #[trigger] is_taken(area, selection, entity);
            doing::lemma_selected(selection, entity);
            match entity {
                EntityId::Room(number) => {
                    lemma_rooms_named(area, selection, number);
                    assert(restoring::names_room(parts.rooms, number));
                },
                EntityId::Label(id) => {
                    assert(restoring::names_label(parts.labels, id));
                },
                EntityId::Shape(id) => {
                    assert(restoring::names_shape(parts.shapes, id));
                },
                EntityId::Connection(id) => {
                    lemma_links_named(area, selection, id);
                    assert(parts.restored.contains(id));
                },
            }
        }
    }
}

/// Whether an entity is deleted with a selection.
pub open spec fn is_taken(area: AreaCache, selection: Seq<EntityId>, entity: EntityId) -> bool {
    &&& selection.contains(entity)
    &&& match entity {
        EntityId::Room(number) => area.room(number) is Some,
        EntityId::Label(id) => area.label(id) is Some,
        EntityId::Shape(id) => area.shape(id) is Some,
        EntityId::Connection(id) => is_link_taken(area, selection, id),
    }
}

/// Whether anything is deleted with a selection.
pub open spec fn is_any_taken(area: AreaCache, selection: Seq<EntityId>) -> bool {
    exists|entity: EntityId| #[trigger] is_taken(area, selection, entity)
}

} // verus!
