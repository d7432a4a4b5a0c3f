//! What a command does to rooms and drawings when it is carried out.
//!
//! Each law says what becomes of an area, over the model of `undoing`: which rooms,
//! labels, shapes and properties it holds afterwards, and that every write goes to that
//! area and leaves exits and connections alone.

use vstd::prelude::*;

use super::cache;
use super::commands::{self, CommandView, Direction};
use super::compile::{self, BatchView, CompiledView};
use super::creation;
use super::edits::{self, Rect, SelectionEdit};
use super::model::{
    Alignment, AreaCache, AreaId, AtlasCache, EntityId, LabelCache, LabelId, LabelUpdates, Point, RoomCache, RoomKey,
    RoomNumber, RoomUpdates, Scalar, ShapeCache, ShapeId, ShapeType, ShapeUpdates,
};
use super::mutation::{self, AreaMutation, IdRef, Mutation, MutationView, OpView};
use super::restoring;
use super::undoing::{self, RoomState, ShapeState, World};
use super::wiring::{self, Links};
use crate::list;

verus! {

// ===== Carrying a command out =====

/// The batches that carry a command out. Mutation `i` draws on fresh id `i`.
pub open spec fn redo_batches(command: CommandView, fresh: Seq<u128>, limit: int) -> Seq<BatchView> {
    compile::compiled_direction(command, Direction::Redo, fresh, limit).batches
}

/// Whether every batch of a list goes to an area.
pub open spec fn all_to(batches: Seq<BatchView>, area_id: AreaId) -> bool {
    forall|i: int| 0 <= i < batches.len() ==> (#[trigger] batches[i]).area_id == area_id
}

/// Whether batches leave all exits and connections alone.
pub open spec fn spare_links(batches: Seq<BatchView>) -> bool {
    forall|links: Links| #[trigger] wiring::links_staged(links, batches) == links
}

/// Whether batches turn what an area holds into something else, and do nothing more.
pub open spec fn lead_to(batches: Seq<BatchView>, area_id: AreaId, before: World, after: World) -> bool {
    &&& all_to(batches, area_id)
    &&& undoing::staged(before, batches) == after
    &&& spare_links(batches)
}

/// Whether carrying a command out turns what an area holds into something else, and does
/// nothing more.
pub open spec fn turns(command: CommandView, area_id: AreaId, before: World, after: World) -> bool {
    forall|fresh: Seq<u128>, limit: int|
        limit > 0 ==> lead_to(#[trigger] redo_batches(command, fresh, limit), area_id, before, after)
}

/// Whether every mutation of a list writes to an area.
pub open spec fn all_in(mutations: Seq<MutationView>, area_id: AreaId) -> bool {
    forall|i: int| 0 <= i < mutations.len() ==> wiring::area_of(#[trigger] mutations[i]) == area_id
}

/// Mutations of one area compile to batches of that area.
pub(crate) proof fn lemma_all_to(
    start: CompiledView,
    mutations: Seq<MutationView>,
    fresh: Seq<u128>,
    command: commands::CommandId,
    limit: int,
    area_id: AreaId,
)
    requires
        all_to(start.batches, area_id),
        all_in(mutations, area_id),
    ensures
        all_to(compile::compiled(start, mutations, fresh, command, limit).batches, area_id),
    decreases mutations.len(),
{
    if mutations.len() > 0 {
        let rest = mutations.drop_last();
        let at = mutations.len() - 1;
        assert(all_in(rest, area_id)) by {
            assert forall|i: int| 0 <= i < rest.len() implies wiring::area_of(#[trigger] rest[i])
                == area_id by {
                assert(rest[i] == mutations[i]);
            }
        }
        lemma_all_to(start, rest, fresh, command, limit, area_id);
        let before = compile::compiled(start, rest, fresh, command, limit);
        let after = compile::compiled_step(before, mutations[at], fresh[at], command, limit);
        assert(wiring::area_of(mutations[at]) == area_id);
        assert forall|i: int| 0 <= i < after.batches.len() implies (#[trigger] after.batches[i]).area_id
            == area_id by {
            if i < before.batches.len() {
                assert(after.batches[i] == before.batches[i]);
            }
        }
    }
}

/// Whether a mutation names no slot and leaves exits and connections alone.
pub open spec fn is_simple(mutation: MutationView) -> bool {
    undoing::is_plain(mutation) && wiring::spares_links(mutation)
}

/// Whether every mutation of a list is simple.
pub open spec fn all_simple(mutations: Seq<MutationView>) -> bool {
    forall|i: int| 0 <= i < mutations.len() ==> is_simple(#[trigger] mutations[i])
}

/// Simple mutations leave exits and connections alone.
proof fn lemma_simple_spare(start: CompiledView, mutations: Seq<MutationView>, fresh: Seq<u128>, command: commands::CommandId, limit: int)
    requires
        start.batches.len() == 0,
        all_simple(mutations),
    ensures
        spare_links(compile::compiled(start, mutations, fresh, command, limit).batches),
{
    let end = compile::compiled(start, mutations, fresh, command, limit);
    assert(wiring::all_spare(mutations, 0)) by {
        assert forall|i: int|
            #![trigger mutations[i]]
            0 <= i < mutations.len() implies wiring::spares_links(mutations[i]) && (mutation::filled_slot(
            mutations[i],
        ) matches Some(slot) ==> slot >= 0) by {
            assert(is_simple(mutations[i]));
        }
    }
    assert(mutation::fills_in(mutations, start.resolved_ids.len() as int)) by {
        assert forall|i: int| 0 <= i < mutations.len() implies (mutation::filled_slot(
            #[trigger] mutations[i],
        ) matches Some(slot) ==> slot < start.resolved_ids.len()) by {
            assert(is_simple(mutations[i]));
        }
    }
    assert forall|links: Links| #[trigger] wiring::links_staged(links, end.batches) == links by {
        wiring::lemma_links_spared(links, start, mutations, 0, fresh, command, limit);
        assert(wiring::links_staged(links, start.batches) == links);
    }
}

/// What a command of simple mutations does: its writes.
pub(crate) proof fn lemma_turns(command: CommandView, area_id: AreaId, before: World, after: World)
    requires
        all_simple(command.redo),
        all_in(command.redo, area_id),
        undoing::all_written(before, undoing::flat(command.redo)) == after,
    ensures
        turns(command, area_id, before, after),
{
    let start = restoring::compile_start(command);
    assert(undoing::all_plain(command.redo)) by {
        assert forall|i: int| 0 <= i < command.redo.len() implies undoing::is_plain(
            #[trigger] command.redo[i],
        ) by {
            assert(is_simple(command.redo[i]));
        }
    }
    assert forall|fresh: Seq<u128>, limit: int| limit > 0 implies lead_to(
        #[trigger] redo_batches(command, fresh, limit),
        area_id,
        before,
        after,
    ) by {
        lemma_all_to(start, command.redo, fresh, command.id, limit, area_id);
        lemma_simple_spare(start, command.redo, fresh, command.id, limit);
        undoing::lemma_plain_step(command, Direction::Redo, before, fresh, limit);
    }
}

/// What a command of one simple mutation with one write does.
pub(crate) proof fn lemma_turns_by_one(command: CommandView, area_id: AreaId, before: World, op: OpView)
    requires
        command.redo.len() == 1,
        is_simple(command.redo[0]),
        wiring::area_of(command.redo[0]) == area_id,
        undoing::plain_ops(command.redo[0]) == seq![op],
    ensures
        turns(command, area_id, before, undoing::written(before, op)),
{
    assert(command.redo =~= seq![command.redo[0]]);
    undoing::lemma_flat_one(command.redo[0]);
    undoing::lemma_one_written(before, op);
    lemma_turns(command, area_id, before, undoing::written(before, op));
}

// ===== Editing one entity =====

/// The cached room with a key.
pub open spec fn cached_room(atlas: AtlasCache, key: RoomKey) -> Option<RoomCache> {
    match atlas.area(key.area_id) {
        Some(area) => area.room(key.room_number),
        None => None,
    }
}

/// What a cached area holds.
pub open spec fn held(atlas: AtlasCache, area_id: AreaId) -> World {
    undoing::world_of(atlas.area(area_id)->0)
}

/// Whether a command puts another state into a cached room, and does nothing more; there
/// is one exactly when the room is cached.
pub open spec fn makes_room(
    command: Option<CommandView>,
    atlas: AtlasCache,
    key: RoomKey,
    state: RoomState,
) -> bool {
    match cached_room(atlas, key) {
        None => command is None,
        Some(_) => command matches Some(command) && turns(
            command,
            key.area_id,
            held(atlas, key.area_id),
            undoing::with_room(held(atlas, key.area_id), key.room_number, state),
        ),
    }
}

/// An edit of a room gives it the values that the edit names, and changes nothing else.
pub proof fn law_an_edit_gives_a_room_its_values(
    atlas: AtlasCache,
    key: RoomKey,
    field: commands::FieldId,
    updates: RoomUpdates<Seq<char>>,
)
    ensures
        makes_room(
            edits::room_field_command(atlas, key, field, updates),
            atlas,
            key,
            undoing::room_updated(undoing::room_state(cached_room(atlas, key)->0), updates),
        ),
{
    if let Some(room) = cached_room(atlas, key) {
        let command = edits::room_field_command(atlas, key, field, updates)->0;
        let op = AreaMutation::UpsertRoom { room_number: key.room_number, body: updates };
        assert(compile::upserts(seq![(key.room_number, updates)]) =~= seq![op]);
        lemma_turns_by_one(command, key.area_id, held(atlas, key.area_id), op);
    }
}

/// Setting a property of a room leaves the room with that value under that name.
pub proof fn law_a_set_property_of_a_room_is_held(
    atlas: AtlasCache,
    key: RoomKey,
    name: Seq<char>,
    value: Seq<char>,
)
    ensures
        makes_room(
            edits::set_room_property_command(atlas, key, name, value),
            atlas,
            key,
            ({
                let room = undoing::room_state(cached_room(atlas, key)->0);
                RoomState { properties: room.properties.insert(name, value), ..room }
            }),
        ),
{
    if let Some(room) = cached_room(atlas, key) {
        let command = edits::set_room_property_command(atlas, key, name, value)->0;
        let op = AreaMutation::UpsertRoomProperty {
            room_number: key.room_number,
            name,
            value,
            is_secret: None,
        };
        lemma_turns_by_one(command, key.area_id, held(atlas, key.area_id), op);
    }
}

/// Whether a command takes a property of a cached room away, and does nothing more; there
/// is one exactly when the room has the property.
pub open spec fn drops_room_property(
    command: Option<CommandView>,
    atlas: AtlasCache,
    key: RoomKey,
    name: Seq<char>,
) -> bool {
    let room = undoing::room_state(cached_room(atlas, key)->0);
    if cached_room(atlas, key) is Some && room.properties.dom().contains(name) {
        makes_room(
            command,
            atlas,
            key,
            RoomState { properties: room.properties.remove(name), ..room },
        )
    } else {
        command is None
    }
}

/// Deleting a property of a room takes it away, and nothing else.
pub proof fn law_a_deleted_property_of_a_room_is_gone(atlas: AtlasCache, key: RoomKey, name: Seq<char>)
    ensures
        drops_room_property(edits::delete_room_property_command(atlas, key, name), atlas, key, name),
{
    if let Some(command) = edits::delete_room_property_command(atlas, key, name) {
        let op = AreaMutation::DeleteRoomProperty { room_number: key.room_number, name };
        lemma_turns_by_one(command, key.area_id, held(atlas, key.area_id), op);
    }
}

/// Whether a command puts a tag on a cached room, and does nothing more; there is one
/// exactly when the tag says something and the room lacks it.
pub open spec fn tags_room(
    command: Option<CommandView>,
    atlas: AtlasCache,
    key: RoomKey,
    tag: Seq<char>,
) -> bool {
    let room = undoing::room_state(cached_room(atlas, key)->0);
    if cached_room(atlas, key) is Some && tag.len() > 0 && !room.tags.contains(tag) {
        makes_room(command, atlas, key, RoomState { tags: room.tags.insert(tag), ..room })
    } else {
        command is None
    }
}

/// Whether a command takes a tag off a cached room, and does nothing more; there is one
/// exactly when the room has it.
pub open spec fn untags_room(
    command: Option<CommandView>,
    atlas: AtlasCache,
    key: RoomKey,
    tag: Seq<char>,
) -> bool {
    let room = undoing::room_state(cached_room(atlas, key)->0);
    if cached_room(atlas, key) is Some && room.tags.contains(tag) {
        makes_room(command, atlas, key, RoomState { tags: room.tags.remove(tag), ..room })
    } else {
        command is None
    }
}

/// Adding a tag puts it on the room; removing one takes it off.
pub proof fn law_tags_are_added_and_removed(atlas: AtlasCache, key: RoomKey, tag: Seq<char>)
    ensures
        tags_room(edits::add_room_tag_command(atlas, key, tag), atlas, key, tag),
        untags_room(edits::remove_room_tag_command(atlas, key, tag), atlas, key, tag),
{
    if let Some(command) = edits::add_room_tag_command(atlas, key, tag) {
        let op = AreaMutation::AddRoomTag { room_number: key.room_number, tag };
        lemma_turns_by_one(command, key.area_id, held(atlas, key.area_id), op);
    }
    if let Some(command) = edits::remove_room_tag_command(atlas, key, tag) {
        let op = AreaMutation::RemoveRoomTag { room_number: key.room_number, tag };
        lemma_turns_by_one(command, key.area_id, held(atlas, key.area_id), op);
    }
}

/// Whether a command gives a cached area other properties, and does nothing more.
pub open spec fn makes_properties(
    command: Option<CommandView>,
    atlas: AtlasCache,
    area_id: AreaId,
    properties: Map<Seq<char>, Seq<char>>,
) -> bool {
    command matches Some(command) && turns(
        command,
        area_id,
        held(atlas, area_id),
        World { properties, ..held(atlas, area_id) },
    )
}

/// Whether a command sets a property of a cached area; there is one exactly when the area
/// is cached.
pub open spec fn sets_area_property(
    command: Option<CommandView>,
    atlas: AtlasCache,
    area_id: AreaId,
    name: Seq<char>,
    value: Seq<char>,
) -> bool {
    if atlas.area(area_id) is Some {
        makes_properties(command, atlas, area_id, held(atlas, area_id).properties.insert(name, value))
    } else {
        command is None
    }
}

/// Whether a command takes a property of a cached area away; there is one exactly when
/// the area has it.
pub open spec fn drops_area_property(
    command: Option<CommandView>,
    atlas: AtlasCache,
    area_id: AreaId,
    name: Seq<char>,
) -> bool {
    if atlas.area(area_id) is Some && held(atlas, area_id).properties.dom().contains(name) {
        makes_properties(command, atlas, area_id, held(atlas, area_id).properties.remove(name))
    } else {
        command is None
    }
}

/// Setting a property of an area leaves it with that value; deleting one takes it away.
pub proof fn law_properties_of_an_area_are_set_and_deleted(
    atlas: AtlasCache,
    area_id: AreaId,
    name: Seq<char>,
    value: Seq<char>,
)
    ensures
        sets_area_property(
            edits::set_area_property_command(atlas, area_id, name, value),
            atlas,
            area_id,
            name,
            value,
        ),
        drops_area_property(
            edits::delete_area_property_command(atlas, area_id, name),
            atlas,
            area_id,
            name,
        ),
{
    let world = held(atlas, area_id);
    if let Some(command) = edits::set_area_property_command(atlas, area_id, name, value) {
        let op = AreaMutation::UpsertAreaProperty { name, value, is_secret: None };
        lemma_turns_by_one(command, area_id, world, op);
    }
    if let Some(command) = edits::delete_area_property_command(atlas, area_id, name) {
        let op = AreaMutation::DeleteAreaProperty { name };
        lemma_turns_by_one(command, area_id, world, op);
    }
}

/// The cached label with an identity.
pub open spec fn cached_label(atlas: AtlasCache, area_id: AreaId, id: LabelId) -> Option<LabelCache> {
    match atlas.area(area_id) {
        Some(area) => area.label(id),
        None => None,
    }
}

/// The cached shape with an identity.
pub open spec fn cached_shape(atlas: AtlasCache, area_id: AreaId, id: ShapeId) -> Option<ShapeCache> {
    match atlas.area(area_id) {
        Some(area) => area.shape(id),
        None => None,
    }
}

/// Whether a command puts another state into a cached label, and does nothing more; there
/// is one exactly when the label is cached.
pub open spec fn makes_label(
    command: Option<CommandView>,
    atlas: AtlasCache,
    area_id: AreaId,
    id: LabelId,
    state: LabelCache<Seq<char>>,
) -> bool {
    match cached_label(atlas, area_id, id) {
        None => command is None,
        Some(_) => command matches Some(command) && turns(
            command,
            area_id,
            held(atlas, area_id),
            World { labels: held(atlas, area_id).labels.insert(id, state), ..held(atlas, area_id) },
        ),
    }
}

/// Whether a command puts another state into a cached shape, and does nothing more; there
/// is one exactly when the shape is cached.
pub open spec fn makes_shape(
    command: Option<CommandView>,
    atlas: AtlasCache,
    area_id: AreaId,
    id: ShapeId,
    state: ShapeState,
) -> bool {
    match cached_shape(atlas, area_id, id) {
        None => command is None,
        Some(_) => command matches Some(command) && turns(
            command,
            area_id,
            held(atlas, area_id),
            World { shapes: held(atlas, area_id).shapes.insert(id, state), ..held(atlas, area_id) },
        ),
    }
}

/// An edit of a label gives it the values that the edit names, and changes nothing else.
pub proof fn law_an_edit_gives_a_label_its_values(
    atlas: AtlasCache,
    area_id: AreaId,
    id: LabelId,
    field: commands::FieldId,
    updates: LabelUpdates<Seq<char>>,
)
    ensures
        makes_label(
            edits::label_field_command(atlas, area_id, id, field, updates),
            atlas,
            area_id,
            id,
            undoing::label_updated(cached_label(atlas, area_id, id)->0@, updates),
        ),
{
    if let Some(command) = edits::label_field_command(atlas, area_id, id, field, updates) {
        let op = AreaMutation::UpdateLabel { label_id: id, body: updates };
        lemma_turns_by_one(command, area_id, held(atlas, area_id), op);
    }
}

/// An edit of a shape gives it the values that the edit names, and changes nothing else.
pub proof fn law_an_edit_gives_a_shape_its_values(
    atlas: AtlasCache,
    area_id: AreaId,
    id: ShapeId,
    field: commands::FieldId,
    updates: ShapeUpdates<Seq<char>>,
)
    ensures
        makes_shape(
            edits::shape_field_command(atlas, area_id, id, field, updates),
            atlas,
            area_id,
            id,
            undoing::shape_updated(undoing::shape_state(cached_shape(atlas, area_id, id)->0), updates),
        ),
{
    if let Some(command) = edits::shape_field_command(atlas, area_id, id, field, updates) {
        let op = AreaMutation::UpdateShape { shape_id: id, body: updates };
        lemma_turns_by_one(command, area_id, held(atlas, area_id), op);
    }
}

/// Whether a command gives a label or a shape other bounds, and does nothing more; there
/// is none for what is not cached, nor for rooms and connections.
pub open spec fn resizes(
    command: Option<CommandView>,
    atlas: AtlasCache,
    area_id: AreaId,
    entity: EntityId,
    rect: Rect,
) -> bool {
    match entity {
        EntityId::Label(id) => makes_label(
            command,
            atlas,
            area_id,
            id,
            LabelCache {
                x: rect.x,
                y: rect.y,
                width: rect.width,
                height: rect.height,
                ..cached_label(atlas, area_id, id)->0@
            },
        ),
        EntityId::Shape(id) => makes_shape(
            command,
            atlas,
            area_id,
            id,
            ShapeState {
                x: rect.x,
                y: rect.y,
                width: rect.width,
                height: rect.height,
                ..undoing::shape_state(cached_shape(atlas, area_id, id)->0)
            },
        ),
        _ => command is None,
    }
}

/// Resizing a label or a shape gives it the bounds that were asked for.
pub proof fn law_a_resized_entity_has_its_bounds(
    atlas: AtlasCache,
    area_id: AreaId,
    entity: EntityId,
    rect: Rect,
)
    ensures
        resizes(edits::resize_command(atlas, area_id, entity, rect), atlas, area_id, entity, rect),
{
    if let Some(command) = edits::resize_command(atlas, area_id, entity, rect) {
        let world = held(atlas, area_id);
        match entity {
            EntityId::Label(label_id) => {
                let op = AreaMutation::UpdateLabel { label_id, body: edits::label_bounds(rect) };
                lemma_turns_by_one(command, area_id, world, op);
            },
            EntityId::Shape(shape_id) => {
                let op = AreaMutation::UpdateShape { shape_id, body: edits::shape_bounds(rect) };
                lemma_turns_by_one(command, area_id, world, op);
            },
            _ => {},
        }
    }
}

// ===== Editing the selection =====

/// A world with other rooms, labels and shapes in place of those that are selected.
pub open spec fn changed(
    world: World,
    selection: Seq<EntityId>,
    room: spec_fn(RoomState) -> RoomState,
    label: spec_fn(LabelCache<Seq<char>>) -> LabelCache<Seq<char>>,
    shape: spec_fn(ShapeState) -> ShapeState,
) -> World {
    World {
        rooms: Map::new(
            |number: RoomNumber| world.rooms.dom().contains(number),
            |number: RoomNumber|
                if selection.contains(EntityId::Room(number)) {
                    room(world.rooms[number])
                } else {
                    world.rooms[number]
                },
        ),
        labels: Map::new(
            |id: LabelId| world.labels.dom().contains(id),
            |id: LabelId|
                if selection.contains(EntityId::Label(id)) {
                    label(world.labels[id])
                } else {
                    world.labels[id]
                },
        ),
        shapes: Map::new(
            |id: ShapeId| world.shapes.dom().contains(id),
            |id: ShapeId|
                if selection.contains(EntityId::Shape(id)) {
                    shape(world.shapes[id])
                } else {
                    world.shapes[id]
                },
        ),
        properties: world.properties,
    }
}

/// A world in which everything that is selected stands where `g` takes it, in both
/// coordinates.
pub open spec fn moved(world: World, selection: Seq<EntityId>, g: spec_fn(Point) -> Point) -> World {
    changed(
        world,
        selection,
        |room: RoomState| RoomState {
            x: g(Point { x: room.x, y: room.y }).x,
            y: g(Point { x: room.x, y: room.y }).y,
            ..room
        },
        |label: LabelCache<Seq<char>>| LabelCache {
            x: g(Point { x: label.x, y: label.y }).x,
            y: g(Point { x: label.x, y: label.y }).y,
            ..label
        },
        |shape: ShapeState| ShapeState {
            x: g(Point { x: shape.x, y: shape.y }).x,
            y: g(Point { x: shape.x, y: shape.y }).y,
            ..shape
        },
    )
}

/// A world in which everything that is selected is some levels higher.
pub open spec fn raised(world: World, selection: Seq<EntityId>, delta: int) -> World {
    changed(
        world,
        selection,
        |room: RoomState| RoomState { level: (room.level + delta) as i32, ..room },
        |label: LabelCache<Seq<char>>| LabelCache { level: (label.level + delta) as i32, ..label },
        |shape: ShapeState| ShapeState { level: (shape.level + delta) as i32, ..shape },
    )
}

/// Whether an entity is cached.
pub open spec fn is_cached(area: AreaCache, entity: EntityId) -> bool {
    match entity {
        EntityId::Room(number) => area.room(number) is Some,
        EntityId::Label(id) => area.label(id) is Some,
        EntityId::Shape(id) => area.shape(id) is Some,
        EntityId::Connection(id) => area.connection(id) is Some,
    }
}

/// Whether a selection holds a cached room, label or shape.
pub open spec fn holds_placed(area: AreaCache, selection: Seq<EntityId>) -> bool {
    exists|entity: EntityId| #[trigger]
        selection.contains(entity) && is_cached(area, entity) && !(entity is Connection)
}

/// Whether a command turns what a cached area holds into something else, and does nothing
/// more; there is one exactly when the selection holds a cached room, label or shape.
pub open spec fn changes_selection(
    command: Option<CommandView>,
    atlas: AtlasCache,
    area_id: AreaId,
    selection: Seq<EntityId>,
    after: World,
) -> bool {
    if atlas.area(area_id) is Some && holds_placed(atlas.area(area_id)->0, selection) {
        command matches Some(command) && turns(command, area_id, held(atlas, area_id), after)
    } else {
        command is None
    }
}

/// Whether a command moves the selection.
pub open spec fn moves(
    command: Option<CommandView>,
    atlas: AtlasCache,
    area_id: AreaId,
    selection: Seq<EntityId>,
    g: spec_fn(Point) -> Point,
) -> bool {
    changes_selection(command, atlas, area_id, selection, moved(held(atlas, area_id), selection, g))
}

/// Whether a command raises the selection.
pub open spec fn raises(
    command: Option<CommandView>,
    atlas: AtlasCache,
    area_id: AreaId,
    selection: Seq<EntityId>,
    delta: int,
) -> bool {
    changes_selection(command, atlas, area_id, selection, raised(held(atlas, area_id), selection, delta))
}

/// The mutations of an edit of the selection are simple and write to the area.
proof fn lemma_selection_simple(
    area_id: AreaId,
    area: AreaCache,
    selection: Seq<EntityId>,
    edit: SelectionEdit,
)
    ensures
        all_simple(edits::selection_edits(area_id, area, selection, edit)),
        all_in(edits::selection_edits(area_id, area, selection, edit), area_id),
{
    let all = edits::selection_edits(area_id, area, selection, edit);
    undoing::lemma_selection_ops(area_id, area, selection, edit);
    let labels = cache::selected_labels(selection);
    let shapes = cache::selected_shapes(selection);
    let rooms = edits::rooms_mutation(
        area_id,
        edits::room_edits(area, cache::selected_rooms(selection), edit.room),
    );
    let of_labels = edits::label_edits(area_id, area, labels, edit.label);
    let of_shapes = edits::shape_edits(area_id, area, shapes, edit.shape);
    let label_piece = |id: LabelId|
        match area.label(id) {
            Some(label) => seq![
                Mutation::UpdateLabel { area_id, id: IdRef::Known(id), updates: (edit.label)(label) },
            ],
            None => Seq::<MutationView>::empty(),
        };
    let shape_piece = |id: ShapeId|
        match area.shape(id) {
            Some(shape) => seq![
                Mutation::UpdateShape { area_id, id: IdRef::Known(id), updates: (edit.shape)(shape) },
            ],
            None => Seq::<MutationView>::empty(),
        };
    assert forall|i: int| 0 <= i < all.len() implies is_simple(#[trigger] all[i]) && wiring::area_of(
        all[i],
    ) == area_id by {
        if i < rooms.len() {
            assert(all[i] == rooms[i]);
        } else if i < rooms.len() + of_labels.len() {
            let k = i - rooms.len();
            assert(all[i] == of_labels[k]);
            list::lemma_collect_source(labels, label_piece, k);
        } else {
            let k = i - rooms.len() - of_labels.len();
            assert(all[i] == of_shapes[k]);
            list::lemma_collect_source(shapes, shape_piece, k);
        }
    }
}

/// There are edits of the selection exactly when it holds something that is placed.
proof fn lemma_selection_some(
    area_id: AreaId,
    area: AreaCache,
    selection: Seq<EntityId>,
    edit: SelectionEdit,
)
    ensures
        edits::selection_edits(area_id, area, selection, edit).len() > 0 <==> holds_placed(
            area,
            selection,
        ),
{
    let numbers = cache::selected_rooms(selection);
    let labels = cache::selected_labels(selection);
    let shapes = cache::selected_shapes(selection);
    let room_edits = edits::room_edits(area, numbers, edit.room);
    let rooms = edits::rooms_mutation(area_id, room_edits);
    let of_labels = edits::label_edits(area_id, area, labels, edit.label);
    let of_shapes = edits::shape_edits(area_id, area, shapes, edit.shape);
    let room_piece = |number: RoomNumber|
        match area.room(number) {
            Some(room) => seq![(number, (edit.room)(room))],
            None => Seq::empty(),
        };
    let label_piece = |id: LabelId|
        match area.label(id) {
            Some(label) => seq![
                Mutation::UpdateLabel { area_id, id: IdRef::Known(id), updates: (edit.label)(label) },
            ],
            None => Seq::<MutationView>::empty(),
        };
    let shape_piece = |id: ShapeId|
        match area.shape(id) {
            Some(shape) => seq![
                Mutation::UpdateShape { area_id, id: IdRef::Known(id), updates: (edit.shape)(shape) },
            ],
            None => Seq::<MutationView>::empty(),
        };
    if holds_placed(area, selection) {
        let entity = choose|entity: EntityId| #[trigger]
            selection.contains(entity) && is_cached(area, entity) && !(entity is Connection);
        match entity {
            EntityId::Room(number) => {
                lemma_selected(selection, entity);
                let k = choose|k: int| 0 <= k < numbers.len() && numbers[k] == number;
                let x = (number, (edit.room)(area.room(number)->0));
                assert(room_piece(numbers[k])[0] == x);
                list::lemma_collect_contains(numbers, room_piece, k, x);
            },
            EntityId::Label(id) => {
                lemma_selected(selection, entity);
                let k = choose|k: int| 0 <= k < labels.len() && labels[k] == id;
                let x = label_piece(id)[0];
                assert(label_piece(labels[k])[0] == x);
                list::lemma_collect_contains(labels, label_piece, k, x);
            },
            EntityId::Shape(id) => {
                lemma_selected(selection, entity);
                let k = choose|k: int| 0 <= k < shapes.len() && shapes[k] == id;
                let x = shape_piece(id)[0];
                assert(shape_piece(shapes[k])[0] == x);
                list::lemma_collect_contains(shapes, shape_piece, k, x);
            },
            _ => {},
        }
    }
    if room_edits.len() > 0 {
        list::lemma_collect_source(numbers, room_piece, 0);
        let k = choose|k: int|
            0 <= k < numbers.len() && (#[trigger] room_piece(numbers[k])).contains(room_edits[0]);
        let entity = EntityId::Room(numbers[k]);
        lemma_selected(selection, entity);
        assert(selection.contains(entity) && is_cached(area, entity));
    }
    if of_labels.len() > 0 {
        list::lemma_collect_source(labels, label_piece, 0);
        let k = choose|k: int|
            0 <= k < labels.len() && (#[trigger] label_piece(labels[k])).contains(of_labels[0]);
        let entity = EntityId::Label(labels[k]);
        lemma_selected(selection, entity);
        assert(selection.contains(entity) && is_cached(area, entity));
    }
    if of_shapes.len() > 0 {
        list::lemma_collect_source(shapes, shape_piece, 0);
        let k = choose|k: int|
            0 <= k < shapes.len() && (#[trigger] shape_piece(shapes[k])).contains(of_shapes[0]);
        let entity = EntityId::Shape(shapes[k]);
        lemma_selected(selection, entity);
        assert(selection.contains(entity) && is_cached(area, entity));
    }
}

/// What is selected of each kind.
pub(crate) proof fn lemma_selected(selection: Seq<EntityId>, entity: EntityId)
    ensures
        match entity {
            EntityId::Room(number) => cache::selected_rooms(selection).contains(number)
                == selection.contains(entity),
            EntityId::Label(id) => cache::selected_labels(selection).contains(id)
                == selection.contains(entity),
            EntityId::Shape(id) => cache::selected_shapes(selection).contains(id)
                == selection.contains(entity),
            EntityId::Connection(id) => cache::selected_connections(selection).contains(id)
                == selection.contains(entity),
        },
{
    match entity {
        EntityId::Room(number) => cache::law_kinds_hold_what_is_selected(
            selection,
            number,
            super::model::ConnectionId(0),
            LabelId(0),
            ShapeId(0),
        ),
        EntityId::Label(id) => cache::law_kinds_hold_what_is_selected(
            selection,
            RoomNumber(0),
            super::model::ConnectionId(0),
            id,
            ShapeId(0),
        ),
        EntityId::Shape(id) => cache::law_kinds_hold_what_is_selected(
            selection,
            RoomNumber(0),
            super::model::ConnectionId(0),
            LabelId(0),
            id,
        ),
        EntityId::Connection(id) => cache::law_kinds_hold_what_is_selected(
            selection,
            RoomNumber(0),
            id,
            LabelId(0),
            ShapeId(0),
        ),
    }
}

/// Whether an edit makes of each entity what a world changed by three functions holds.
pub open spec fn edit_makes(
    edit: SelectionEdit,
    room: spec_fn(RoomState) -> RoomState,
    label: spec_fn(LabelCache<Seq<char>>) -> LabelCache<Seq<char>>,
    shape: spec_fn(ShapeState) -> ShapeState,
) -> bool {
    &&& forall|one: RoomCache|
        undoing::room_updated(undoing::room_state(one), #[trigger] (edit.room)(one)) == room(
            undoing::room_state(one),
        )
    &&& forall|one: LabelCache|
        undoing::label_updated(one@, #[trigger] (edit.label)(one)) == label(one@)
    &&& forall|one: ShapeCache|
        undoing::shape_updated(undoing::shape_state(one), #[trigger] (edit.shape)(one)) == shape(
            undoing::shape_state(one),
        )
}

/// What an edit makes of one entity that is selected or not.
proof fn lemma_edit_makes(
    edit: SelectionEdit,
    room: spec_fn(RoomState) -> RoomState,
    label: spec_fn(LabelCache<Seq<char>>) -> LabelCache<Seq<char>>,
    shape: spec_fn(ShapeState) -> ShapeState,
    one_room: RoomCache,
    one_label: LabelCache,
    one_shape: ShapeCache,
)
    requires
        edit_makes(edit, room, label, shape),
    ensures
        undoing::room_updated(undoing::room_state(one_room), (edit.room)(one_room)) == room(
            undoing::room_state(one_room),
        ),
        undoing::label_updated(one_label@, (edit.label)(one_label)) == label(one_label@),
        undoing::shape_updated(undoing::shape_state(one_shape), (edit.shape)(one_shape)) == shape(
            undoing::shape_state(one_shape),
        ),
{
}

/// What the writes of an edit of the selection leave.
#[verifier::rlimit(40)]
#[verifier::spinoff_prover]
proof fn lemma_selection_world(
    area_id: AreaId,
    area: AreaCache,
    selection: Seq<EntityId>,
    edit: SelectionEdit,
    room: spec_fn(RoomState) -> RoomState,
    label: spec_fn(LabelCache<Seq<char>>) -> LabelCache<Seq<char>>,
    shape: spec_fn(ShapeState) -> ShapeState,
)
    requires
        edit_makes(edit, room, label, shape),
    ensures
        undoing::all_written(
            undoing::world_of(area),
            undoing::flat(edits::selection_edits(area_id, area, selection, edit)),
        ) == changed(undoing::world_of(area), selection, room, label, shape),
{
    let world = undoing::world_of(area);
    let numbers = cache::selected_rooms(selection);
    let labels = cache::selected_labels(selection);
    let shapes = cache::selected_shapes(selection);
    assert(undoing::holds_area(world, area));
    undoing::lemma_selection_edited(world, area_id, area, selection, edit);
    let after = undoing::all_written(
        world,
        undoing::flat(edits::selection_edits(area_id, area, selection, edit)),
    );
    let wanted = changed(world, selection, room, label, shape);
    assert forall|number: RoomNumber| area.room(number) is Some implies #[trigger] after.rooms[number]
        == wanted.rooms[number] by {
        lemma_selected(selection, EntityId::Room(number));
        assert(after.rooms[number] == undoing::edited_room(world, area, numbers, edit.room, number));
        lemma_edit_makes(edit, room, label, shape, area.room(number)->0, arbitrary(), arbitrary());
    }
    assert forall|id: LabelId| area.label(id) is Some implies #[trigger] after.labels[id]
        == wanted.labels[id] by {
        lemma_selected(selection, EntityId::Label(id));
        assert(after.labels[id] == undoing::edited_label(world, area, labels, edit.label, id));
        lemma_edit_makes(edit, room, label, shape, arbitrary(), area.label(id)->0, arbitrary());
    }
    assert forall|id: ShapeId| area.shape(id) is Some implies #[trigger] after.shapes[id]
        == wanted.shapes[id] by {
        lemma_selected(selection, EntityId::Shape(id));
        assert(after.shapes[id] == undoing::edited_shape(world, area, shapes, edit.shape, id));
        lemma_edit_makes(edit, room, label, shape, arbitrary(), arbitrary(), area.shape(id)->0);
    }
    assert(after.rooms =~= wanted.rooms);
    assert(after.labels =~= wanted.labels);
    assert(after.shapes =~= wanted.shapes);
}

/// What a command that edits the selection does.
proof fn lemma_selection_changes(
    atlas: AtlasCache,
    area_id: AreaId,
    selection: Seq<EntityId>,
    edit: SelectionEdit,
    back: SelectionEdit,
    room: spec_fn(RoomState) -> RoomState,
    label: spec_fn(LabelCache<Seq<char>>) -> LabelCache<Seq<char>>,
    shape: spec_fn(ShapeState) -> ShapeState,
)
    requires
        edit_makes(edit, room, label, shape),
    ensures
        changes_selection(
            edits::selection_command(atlas, area_id, selection, edit, back),
            atlas,
            area_id,
            selection,
            changed(held(atlas, area_id), selection, room, label, shape),
        ),
{
    if let Some(area) = atlas.area(area_id) {
        lemma_selection_some(area_id, area, selection, edit);
        if let Some(command) = edits::selection_command(atlas, area_id, selection, edit, back) {
            lemma_selection_simple(area_id, area, selection, edit);
            lemma_selection_world(area_id, area, selection, edit, room, label, shape);
            lemma_turns(
                command,
                area_id,
                held(atlas, area_id),
                changed(held(atlas, area_id), selection, room, label, shape),
            );
        }
    }
}

/// A move takes every selected room, label and shape to where it leads, in both
/// coordinates, and changes nothing else.
pub proof fn law_a_move_takes_the_selection_along(
    atlas: AtlasCache,
    area_id: AreaId,
    selection: Seq<EntityId>,
    g: spec_fn(Point) -> Point,
)
    ensures
        moves(
            edits::selection_command(
                atlas,
                area_id,
                selection,
                edits::moved_edit(g),
                edits::placed_edit(),
            ),
            atlas,
            area_id,
            selection,
            g,
        ),
{
    lemma_selection_changes(
        atlas,
        area_id,
        selection,
        edits::moved_edit(g),
        edits::placed_edit(),
        |room: RoomState| RoomState {
            x: g(Point { x: room.x, y: room.y }).x,
            y: g(Point { x: room.x, y: room.y }).y,
            ..room
        },
        |label: LabelCache<Seq<char>>| LabelCache {
            x: g(Point { x: label.x, y: label.y }).x,
            y: g(Point { x: label.x, y: label.y }).y,
            ..label
        },
        |shape: ShapeState| ShapeState {
            x: g(Point { x: shape.x, y: shape.y }).x,
            y: g(Point { x: shape.x, y: shape.y }).y,
            ..shape
        },
    );
}

/// A shift raises every selected room, label and shape by the same number of levels, and
/// changes nothing else.
pub proof fn law_a_shift_raises_the_selection(
    atlas: AtlasCache,
    area_id: AreaId,
    selection: Seq<EntityId>,
    delta: int,
)
    ensures
        raises(
            edits::selection_command(
                atlas,
                area_id,
                selection,
                edits::level_edit(delta),
                edits::level_edit(0),
            ),
            atlas,
            area_id,
            selection,
            delta,
        ),
{
    lemma_selection_changes(
        atlas,
        area_id,
        selection,
        edits::level_edit(delta),
        edits::level_edit(0),
        |room: RoomState| RoomState { level: (room.level + delta) as i32, ..room },
        |label: LabelCache<Seq<char>>| LabelCache { level: (label.level + delta) as i32, ..label },
        |shape: ShapeState| ShapeState { level: (shape.level + delta) as i32, ..shape },
    );
}

/// Whether a command gives every selected room the same values, and does nothing more;
/// there is one exactly when a selected room is cached.
pub open spec fn edits_rooms(
    command: Option<CommandView>,
    atlas: AtlasCache,
    area_id: AreaId,
    selection: Seq<EntityId>,
    updates: RoomUpdates<Seq<char>>,
) -> bool {
    if atlas.area(area_id) is Some && exists|number: RoomNumber|
        selection.contains(EntityId::Room(number)) && #[trigger] atlas.area(area_id)->0.room(number) is Some {
        command matches Some(command) && turns(
            command,
            area_id,
            held(atlas, area_id),
            changed(
                held(atlas, area_id),
                selection,
                |room: RoomState| undoing::room_updated(room, updates),
                |label: LabelCache<Seq<char>>| label,
                |shape: ShapeState| shape,
            ),
        )
    } else {
        command is None
    }
}

/// An edit of many rooms gives each selected one the values that it names, and changes
/// nothing else.
pub proof fn law_a_bulk_edit_reaches_every_selected_room(
    atlas: AtlasCache,
    area_id: AreaId,
    selection: Seq<EntityId>,
    updates: RoomUpdates<Seq<char>>,
)
    ensures
        edits_rooms(
            edits::bulk_command(atlas, area_id, selection, updates),
            atlas,
            area_id,
            selection,
            updates,
        ),
{
    if let Some(area) = atlas.area(area_id) {
        let world = held(atlas, area_id);
        let numbers = cache::selected_rooms(selection);
        let f = |room: RoomCache| updates;
        let piece = |number: RoomNumber|
            match area.room(number) {
                Some(room) => seq![(number, f(room))],
                None => Seq::empty(),
            };
        let redo = edits::room_edits(area, numbers, f);
        if redo.len() > 0 {
            list::lemma_collect_source(numbers, piece, 0);
            let k = choose|k: int|
                0 <= k < numbers.len() && (#[trigger] piece(numbers[k])).contains(redo[0]);
            lemma_selected(selection, EntityId::Room(numbers[k]));
            assert(area.room(numbers[k]) is Some);
        }
        assert forall|number: RoomNumber|
            selection.contains(EntityId::Room(number)) && #[trigger] area.room(number) is Some implies redo.len()
            > 0 by {
            lemma_selected(selection, EntityId::Room(number));
            let k = choose|k: int| 0 <= k < numbers.len() && numbers[k] == number;
            assert(piece(numbers[k])[0] == (number, updates));
            list::lemma_collect_contains(numbers, piece, k, (number, updates));
        }
        if let Some(command) = edits::bulk_command(atlas, area_id, selection, updates) {
            assert(undoing::holds_area(world, area));
            undoing::lemma_rooms_edited(world, area, numbers, f);
            let after = undoing::all_written(world, undoing::room_ops(area, numbers, f));
            let wanted = changed(
                world,
                selection,
                |room: RoomState| undoing::room_updated(room, updates),
                |label: LabelCache<Seq<char>>| label,
                |shape: ShapeState| shape,
            );
            assert(after.rooms =~= wanted.rooms) by {
                assert forall|number: RoomNumber| #[trigger] after.rooms.dom().contains(number)
                    == wanted.rooms.dom().contains(number) by {}
                assert forall|number: RoomNumber| #[trigger]
                    after.rooms.dom().contains(number) implies after.rooms[number]
                    == wanted.rooms[number] by {
                    lemma_selected(selection, EntityId::Room(number));
                    assert(after.rooms[number] == undoing::edited_room(world, area, numbers, f, number));
                }
            }
            assert(after.labels =~= wanted.labels);
            assert(after.shapes =~= wanted.shapes);
            assert(command.redo =~= seq![command.redo[0]]);
            undoing::lemma_flat_one(command.redo[0]);
            lemma_turns(command, area_id, world, wanted);
        }
    }
}

// ===== Creating =====

/// Whether a command creates one label, which gets the first fresh identity, and does
/// nothing more.
pub open spec fn draws_label(
    command: CommandView,
    area_id: AreaId,
    label: spec_fn(LabelId) -> LabelCache<Seq<char>>,
) -> bool {
    forall|fresh: Seq<u128>, limit: int, world: World|
        #![trigger redo_batches(command, fresh, limit), world.labels]
        limit > 0 ==> lead_to(
            redo_batches(command, fresh, limit),
            area_id,
            world,
            World {
                labels: world.labels.insert(LabelId(fresh[0]), label(LabelId(fresh[0]))),
                ..world
            },
        )
}

/// Whether batches create one shape with an identity, and do nothing more. The width of
/// its stroke is left open.
pub open spec fn draw_shape(
    batches: Seq<BatchView>,
    area_id: AreaId,
    world: World,
    id: ShapeId,
    shape: ShapeState,
) -> bool {
    exists|stroke_width: Scalar| #[trigger] lead_to(
        batches,
        area_id,
        world,
        World {
            shapes: world.shapes.insert(id, ShapeState { stroke_width, ..shape }),
            ..world
        },
    )
}

/// Whether a command creates one shape, which gets the first fresh identity, and does
/// nothing more.
pub open spec fn draws_shape(command: CommandView, area_id: AreaId, shape: ShapeState) -> bool {
    forall|fresh: Seq<u128>, limit: int, world: World|
        limit > 0 ==> #[trigger] draw_shape(
            redo_batches(command, fresh, limit),
            area_id,
            world,
            ShapeId(fresh[0]),
            shape,
        )
}

/// An untitled room.
pub open spec fn untitled(at: Point, level: i32) -> RoomState {
    RoomState {
        is_secret: false,
        title: Seq::empty(),
        description: Seq::empty(),
        level,
        x: at.x,
        y: at.y,
        color: Seq::empty(),
        external_id: None,
        properties: Map::empty(),
        tags: Set::empty(),
    }
}

/// Whether a command creates an untitled room at a place, and does nothing more.
pub open spec fn places_room(
    command: CommandView,
    area_id: AreaId,
    number: RoomNumber,
    at: Point,
    level: i32,
) -> bool {
    forall|world: World|
        #![trigger world.rooms.dom().contains(number)]
        !world.rooms.dom().contains(number) ==> turns(
            command,
            area_id,
            world,
            undoing::with_room(world, number, untitled(at, level)),
        )
}

/// A new room stands where it was placed, untitled, under its number.
pub proof fn law_a_new_room_stands_where_it_was_placed(
    area_id: AreaId,
    number: RoomNumber,
    at: Point,
    level: i32,
)
    ensures
        places_room(
            creation::new_room_command(area_id, number, at, level),
            area_id,
            number,
            at,
            level,
        ),
{
    let command = creation::new_room_command(area_id, number, at, level);
    let body = creation::new_room(at, level);
    let op = AreaMutation::UpsertRoom { room_number: number, body };
    assert(compile::upserts(seq![(number, body)]) =~= seq![op]);
    assert forall|world: World|
        #![trigger world.rooms.dom().contains(number)]
        !world.rooms.dom().contains(number) implies turns(
        command,
        area_id,
        world,
        undoing::with_room(world, number, untitled(at, level)),
    ) by {
        lemma_turns_by_one(command, area_id, world, op);
    }
}

/// What a command of one mutation stages.
pub(crate) proof fn lemma_one_staged(command: CommandView, area_id: AreaId, fresh: Seq<u128>, limit: int, world: World)
    requires
        limit > 0,
        command.redo.len() == 1,
        wiring::area_of(command.redo[0]) == area_id,
        wiring::spares_links(command.redo[0]),
    ensures
        lead_to(
            redo_batches(command, fresh, limit),
            area_id,
            world,
            undoing::all_written(
                world,
                restoring::step_ops(command.resolved_ids, command.redo[0], fresh[0]),
            ),
        ),
{
    let start = restoring::compile_start(command);
    let only = command.redo[0];
    reveal_with_fuel(compile::compiled, 2);
    assert(command.redo.drop_last() =~= Seq::empty());
    assert(command.redo.last() == only);
    restoring::lemma_step_staged(world, start, only, fresh[0], command.id, limit);
    assert(undoing::ops_of(start.batches) =~= Seq::empty());
    lemma_all_to(start, command.redo, fresh, command.id, limit, area_id);
    let batches = redo_batches(command, fresh, limit);
    assert forall|links: Links| #[trigger] wiring::links_staged(links, batches) == links by {
        wiring::lemma_one_mutation(links, command, Direction::Redo, fresh, limit);
        let ops = restoring::step_ops(command.resolved_ids, only, fresh[0]);
        assert forall|i: int| 0 <= i < ops.len() implies wiring::keeps_links(#[trigger] ops[i]) by {}
        wiring::lemma_links_kept(links, area_id, ops);
    }
}

/// A new label covers the rectangle that was drawn, on its level, and says what it was
/// given.
pub open spec fn fresh_label(
    id: LabelId,
    rect: Rect,
    level: i32,
    caption: Seq<char>,
) -> LabelCache<Seq<char>> {
    LabelCache {
        id,
        level,
        x: rect.x,
        y: rect.y,
        width: rect.width,
        height: rect.height,
        horizontal_alignment: Alignment::Standard,
        vertical_alignment: Alignment::Standard,
        text: caption,
        color: "#c8c8c8"@,
        background_color: Seq::empty(),
        font_size: 16,
        font_weight: 400,
        is_secret: false,
    }
}

/// A new shape covers the rectangle that was drawn, on its level.
pub open spec fn fresh_shape(rect: Rect, level: i32) -> ShapeState {
    ShapeState {
        is_secret: false,
        level,
        x: rect.x,
        y: rect.y,
        width: rect.width,
        height: rect.height,
        background_color: "#32323c"@,
        stroke_color: Seq::empty(),
        shape_type: ShapeType::Standard,
        border_radius: Scalar(0),
        stroke_width: Scalar(0),
    }
}

/// A new label covers the rectangle that was drawn, on its level, and says what it was
/// given; nothing else changes.
pub proof fn law_a_new_label_covers_its_rectangle(
    area_id: AreaId,
    rect: Rect,
    level: i32,
    caption: Seq<char>,
)
    ensures
        draws_label(
            creation::new_label_command(area_id, rect, level, caption),
            area_id,
            |id: LabelId| fresh_label(id, rect, level, caption),
        ),
{
    let command = creation::new_label_command(area_id, rect, level, caption);
    let label = |id: LabelId| fresh_label(id, rect, level, caption);
    assert forall|fresh: Seq<u128>, limit: int, world: World|
        #![trigger redo_batches(command, fresh, limit), world.labels]
        limit > 0 implies lead_to(
        redo_batches(command, fresh, limit),
        area_id,
        world,
        World { labels: world.labels.insert(LabelId(fresh[0]), label(LabelId(fresh[0]))), ..world },
    ) by {
        let ops = restoring::step_ops(command.resolved_ids, command.redo[0], fresh[0]);
        lemma_one_staged(command, area_id, fresh, limit, world);
        assert(ops =~= seq![ops[0]]);
        undoing::lemma_one_written(world, ops[0]);
    }
}

/// A new shape covers the rectangle that was drawn, on its level; nothing else changes.
pub proof fn law_a_new_shape_covers_its_rectangle(area_id: AreaId, rect: Rect, level: i32)
    ensures
        draws_shape(
            creation::new_shape_command(area_id, rect, level),
            area_id,
            fresh_shape(rect, level),
        ),
{
    let command = creation::new_shape_command(area_id, rect, level);
    let shape = fresh_shape(rect, level);
    assert forall|fresh: Seq<u128>, limit: int, world: World|
        limit > 0 implies #[trigger] draw_shape(
        redo_batches(command, fresh, limit),
        area_id,
        world,
        ShapeId(fresh[0]),
        shape,
    ) by {
        let ops = restoring::step_ops(command.resolved_ids, command.redo[0], fresh[0]);
        lemma_one_staged(command, area_id, fresh, limit, world);
        assert(ops =~= seq![ops[0]]);
        undoing::lemma_one_written(world, ops[0]);
        let made = undoing::written(world, ops[0]).shapes[ShapeId(fresh[0])];
        assert(made == ShapeState { stroke_width: made.stroke_width, ..shape });
        assert(lead_to(
            redo_batches(command, fresh, limit),
            area_id,
            world,
            World {
                shapes: world.shapes.insert(
                    ShapeId(fresh[0]),
                    ShapeState { stroke_width: made.stroke_width, ..shape },
                ),
                ..world
            },
        ));
    }
}

} // verus!
