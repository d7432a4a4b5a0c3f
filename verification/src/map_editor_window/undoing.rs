//! What the writes of a command do to an area, and that undoing an edit restores what
//! was there.
//!
//! The model holds rooms with their properties and tags, labels, shapes, and the
//! area's own properties. Exits and connections have a model of their own, in `wiring`.

use vstd::prelude::*;

use super::cache;
use super::commands::{self, CommandView, Direction, FieldId};
use super::compile::{self, BatchView, CompiledView};
use super::edits::{self, Rect, SelectionEdit};
use super::model::{
    AreaCache, AreaId, AtlasCache, EntityId, LabelArgs, LabelCache, LabelId, LabelUpdates, Point, PropertyEntry,
    RoomCache, RoomKey, RoomNumber, RoomUpdates, Scalar, ShapeArgs, ShapeCache, ShapeId, ShapeType, ShapeUpdates,
};
use super::mutation::{AreaMutation, IdRef, Mutation, MutationView, OpView};
use super::stack;
use crate::list;
use crate::text;

verus! {

// ===== The model =====

/// A room as it is kept.
#[verifier::ext_equal]
pub struct RoomState {
    pub is_secret: bool,
    pub title: Seq<char>,
    pub description: Seq<char>,
    pub level: i32,
    pub x: Scalar,
    pub y: Scalar,
    pub color: Seq<char>,
    pub external_id: Option<Seq<char>>,
    pub properties: Map<Seq<char>, Seq<char>>,
    pub tags: Set<Seq<char>>,
}

/// A shape as it is kept. No color is the empty color.
pub struct ShapeState {
    pub is_secret: bool,
    pub level: i32,
    pub x: Scalar,
    pub y: Scalar,
    pub width: Scalar,
    pub height: Scalar,
    pub background_color: Seq<char>,
    pub stroke_color: Seq<char>,
    pub shape_type: ShapeType,
    pub border_radius: Scalar,
    pub stroke_width: Scalar,
}

/// What an area holds.
#[verifier::ext_equal]
pub struct World {
    pub rooms: Map<RoomNumber, RoomState>,
    pub labels: Map<LabelId, LabelCache<Seq<char>>>,
    pub shapes: Map<ShapeId, ShapeState>,
    pub properties: Map<Seq<char>, Seq<char>>,
}

/// The value that an update leaves in a field.
pub open spec fn left<A>(update: Option<A>, held: A) -> A {
    match update {
        Some(value) => value,
        None => held,
    }
}

/// A room after an update: the fields it touches take its values.
pub open spec fn room_updated(room: RoomState, updates: RoomUpdates<Seq<char>>) -> RoomState {
    RoomState {
        is_secret: left(updates.is_secret, room.is_secret),
        title: left(updates.title, room.title),
        description: left(updates.description, room.description),
        level: left(updates.level, room.level),
        x: left(updates.x, room.x),
        y: left(updates.y, room.y),
        color: left(updates.color, room.color),
        external_id: left(updates.external_id, room.external_id),
        ..room
    }
}

/// A label after an update.
pub open spec fn label_updated(label: LabelCache<Seq<char>>, updates: LabelUpdates<Seq<char>>) -> LabelCache<
    Seq<char>,
> {
    LabelCache {
        id: label.id,
        level: left(updates.level, label.level),
        x: left(updates.x, label.x),
        y: left(updates.y, label.y),
        width: left(updates.width, label.width),
        height: left(updates.height, label.height),
        horizontal_alignment: left(updates.horizontal_alignment, label.horizontal_alignment),
        vertical_alignment: left(updates.vertical_alignment, label.vertical_alignment),
        text: left(updates.text, label.text),
        color: left(updates.color, label.color),
        background_color: left(updates.background_color, label.background_color),
        font_size: left(updates.font_size, label.font_size),
        font_weight: left(updates.font_weight, label.font_weight),
        is_secret: left(updates.is_secret, label.is_secret),
    }
}

/// A shape after an update.
pub open spec fn shape_updated(shape: ShapeState, updates: ShapeUpdates<Seq<char>>) -> ShapeState {
    ShapeState {
        is_secret: left(updates.is_secret, shape.is_secret),
        level: left(updates.level, shape.level),
        x: left(updates.x, shape.x),
        y: left(updates.y, shape.y),
        width: left(updates.width, shape.width),
        height: left(updates.height, shape.height),
        background_color: left(updates.background_color, shape.background_color),
        stroke_color: left(updates.stroke_color, shape.stroke_color),
        shape_type: left(updates.shape_type, shape.shape_type),
        border_radius: left(updates.border_radius, shape.border_radius),
        stroke_width: left(updates.stroke_width, shape.stroke_width),
    }
}

/// A cached room as it is kept.
pub open spec fn room_state(room: RoomCache) -> RoomState {
    RoomState {
        is_secret: room.is_secret,
        title: room.title@,
        description: room.description@,
        level: room.level,
        x: room.x,
        y: room.y,
        color: room.color@,
        external_id: text::opt_text(room.external_id),
        properties: property_map(room.properties@),
        tags: tag_set(room.tags@),
    }
}

/// A cached shape as it is kept.
pub open spec fn shape_state(shape: ShapeCache) -> ShapeState {
    ShapeState {
        is_secret: shape.is_secret,
        level: shape.level,
        x: shape.x,
        y: shape.y,
        width: shape.width,
        height: shape.height,
        background_color: text::or_empty(text::opt_text(shape.background_color)),
        stroke_color: text::or_empty(text::opt_text(shape.stroke_color)),
        shape_type: shape.shape_type,
        border_radius: shape.border_radius,
        stroke_width: shape.stroke_width,
    }
}

/// Cached properties by their names.
pub open spec fn property_map(entries: Seq<PropertyEntry>) -> Map<Seq<char>, Seq<char>> {
    Map::new(
        |name: Seq<char>| cache::property_named(entries, name) is Some,
        |name: Seq<char>| cache::property_named(entries, name)->0.value@,
    )
}

/// Cached tags.
pub open spec fn tag_set(tags: Seq<String>) -> Set<Seq<char>> {
    Set::new(|tag: Seq<char>| cache::holds_text(tags, tag))
}

/// What a cached area holds.
pub open spec fn world_of(area: AreaCache) -> World {
    World {
        rooms: Map::new(
            |number: RoomNumber| area.room(number) is Some,
            |number: RoomNumber| room_state(area.room(number)->0),
        ),
        labels: Map::new(
            |id: LabelId| area.label(id) is Some,
            |id: LabelId| area.label(id)->0@,
        ),
        shapes: Map::new(
            |id: ShapeId| area.shape(id) is Some,
            |id: ShapeId| shape_state(area.shape(id)->0),
        ),
        properties: property_map(area.properties@),
    }
}

/// A room that a write creates: not secret unless it says so, with no properties and no
/// tags. Another field that the write leaves out is left open.
pub open spec fn created_room(body: RoomUpdates<Seq<char>>) -> RoomState {
    RoomState {
        is_secret: left(body.is_secret, false),
        title: body.title->0,
        description: body.description->0,
        level: body.level->0,
        x: body.x->0,
        y: body.y->0,
        color: body.color->0,
        external_id: left(body.external_id, None),
        properties: Map::empty(),
        tags: Set::empty(),
    }
}

/// A label that a write creates: not secret unless it says so.
pub open spec fn created_label(id: LabelId, body: LabelArgs<Seq<char>>) -> LabelCache<Seq<char>> {
    LabelCache {
        id,
        level: body.level,
        x: body.x,
        y: body.y,
        width: body.width,
        height: body.height,
        horizontal_alignment: body.horizontal_alignment,
        vertical_alignment: body.vertical_alignment,
        text: body.text,
        color: body.color,
        background_color: text::or_empty(body.background_color),
        font_size: body.font_size,
        font_weight: body.font_weight,
        is_secret: left(body.is_secret, false),
    }
}

/// A shape that a write creates: not secret unless it says so. A width of the stroke
/// that the write leaves out is left open.
pub open spec fn created_shape(body: ShapeArgs<Seq<char>>) -> ShapeState {
    ShapeState {
        is_secret: left(body.is_secret, false),
        level: body.level,
        x: body.x,
        y: body.y,
        width: body.width,
        height: body.height,
        background_color: text::or_empty(body.background_color),
        stroke_color: text::or_empty(body.stroke_color),
        shape_type: body.shape_type,
        border_radius: body.border_radius,
        stroke_width: body.stroke_width->0,
    }
}

/// The world with another state of a room.
pub open spec fn with_room(world: World, number: RoomNumber, room: RoomState) -> World {
    World { rooms: world.rooms.insert(number, room), ..world }
}

/// What a write leaves of a world. A write to what is not there does nothing; one to
/// an exit or a connection touches nothing of the model.
pub open spec fn written(world: World, op: OpView) -> World {
    match op {
        AreaMutation::UpsertRoom { room_number, body } => if world.rooms.dom().contains(room_number) {
            with_room(world, room_number, room_updated(world.rooms[room_number], body))
        } else {
            with_room(world, room_number, created_room(body))
        },
        AreaMutation::DeleteRoom { room_number } => World {
            rooms: world.rooms.remove(room_number),
            ..world
        },
        AreaMutation::UpsertRoomProperty { room_number, name, value, .. } => if world.rooms.dom().contains(
            room_number,
        ) {
            let room = world.rooms[room_number];
            with_room(
                world,
                room_number,
                RoomState { properties: room.properties.insert(name, value), ..room },
            )
        } else {
            world
        },
        AreaMutation::DeleteRoomProperty { room_number, name } => if world.rooms.dom().contains(
            room_number,
        ) {
            let room = world.rooms[room_number];
            with_room(
                world,
                room_number,
                RoomState { properties: room.properties.remove(name), ..room },
            )
        } else {
            world
        },
        AreaMutation::AddRoomTag { room_number, tag } => if world.rooms.dom().contains(room_number) {
            let room = world.rooms[room_number];
            with_room(world, room_number, RoomState { tags: room.tags.insert(tag), ..room })
        } else {
            world
        },
        AreaMutation::RemoveRoomTag { room_number, tag } => if world.rooms.dom().contains(
            room_number,
        ) {
            let room = world.rooms[room_number];
            with_room(world, room_number, RoomState { tags: room.tags.remove(tag), ..room })
        } else {
            world
        },
        AreaMutation::UpsertAreaProperty { name, value, .. } => World {
            properties: world.properties.insert(name, value),
            ..world
        },
        AreaMutation::DeleteAreaProperty { name } => World {
            properties: world.properties.remove(name),
            ..world
        },
        AreaMutation::UpdateLabel { label_id, body } => if world.labels.dom().contains(label_id) {
            World {
                labels: world.labels.insert(label_id, label_updated(world.labels[label_id], body)),
                ..world
            }
        } else {
            world
        },
        AreaMutation::DeleteLabel { label_id } => World {
            labels: world.labels.remove(label_id),
            ..world
        },
        AreaMutation::UpdateShape { shape_id, body } => if world.shapes.dom().contains(shape_id) {
            World {
                shapes: world.shapes.insert(shape_id, shape_updated(world.shapes[shape_id], body)),
                ..world
            }
        } else {
            world
        },
        AreaMutation::DeleteShape { shape_id } => World {
            shapes: world.shapes.remove(shape_id),
            ..world
        },
        AreaMutation::CreateLabel { body } => match body.id {
            Some(id) => World { labels: world.labels.insert(id, created_label(id, body)), ..world },
            None => world,
        },
        AreaMutation::CreateShape { body } => match body.id {
            Some(id) => World { shapes: world.shapes.insert(id, created_shape(body)), ..world },
            None => world,
        },
        _ => world,
    }
}

/// What writes leave of a world, one after the other.
pub open spec fn all_written(world: World, ops: Seq<OpView>) -> World
    decreases ops.len(),
{
    if ops.len() == 0 {
        world
    } else {
        written(all_written(world, ops.drop_last()), ops.last())
    }
}

/// The writes of batches.
pub open spec fn ops_of(batches: Seq<BatchView>) -> Seq<OpView> {
    list::collect(batches, |batch: BatchView| batch.operations)
}

/// What staged batches leave of a world.
pub open spec fn staged(world: World, batches: Seq<BatchView>) -> World {
    all_written(world, ops_of(batches))
}

// ===== Compiled writes =====

/// A mutation that fills and names no slot.
pub open spec fn is_plain(mutation: MutationView) -> bool {
    match mutation {
        Mutation::CreateExit { .. } => false,
        Mutation::CreateLabel { .. } => false,
        Mutation::CreateShape { .. } => false,
        Mutation::UpdateExit { id, .. } => id is Known,
        Mutation::DeleteExit { id, .. } => id is Known,
        Mutation::UpdateLabel { id, .. } => id is Known,
        Mutation::DeleteLabel { id, .. } => id is Known,
        Mutation::UpdateShape { id, .. } => id is Known,
        Mutation::DeleteShape { id, .. } => id is Known,
        _ => true,
    }
}

/// The writes of a mutation that names no slot.
pub open spec fn plain_ops(mutation: MutationView) -> Seq<OpView> {
    match mutation {
        Mutation::AreaBatch { operations, .. } => operations,
        Mutation::UpsertRooms(_, rooms) => compile::upserts(rooms),
        Mutation::DeleteRoom(key) => seq![AreaMutation::DeleteRoom { room_number: key.room_number }],
        Mutation::SetRoomProperty(key, name, value) => seq![
            AreaMutation::UpsertRoomProperty {
                room_number: key.room_number,
                name,
                value,
                is_secret: None,
            },
        ],
        Mutation::DeleteRoomProperty(key, name) => seq![
            AreaMutation::DeleteRoomProperty { room_number: key.room_number, name },
        ],
        Mutation::AddRoomTag(key, tag) => seq![
            AreaMutation::AddRoomTag { room_number: key.room_number, tag },
        ],
        Mutation::RemoveRoomTag(key, tag) => seq![
            AreaMutation::RemoveRoomTag { room_number: key.room_number, tag },
        ],
        Mutation::SetAreaProperty(_, name, value) => seq![
            AreaMutation::UpsertAreaProperty { name, value, is_secret: None },
        ],
        Mutation::DeleteAreaProperty(_, name) => seq![AreaMutation::DeleteAreaProperty { name }],
        Mutation::UpdateExit { id: IdRef::Known(exit_id), updates, .. } => seq![
            AreaMutation::UpdateExit { exit_id, body: updates },
        ],
        Mutation::DeleteExit { id: IdRef::Known(exit_id), .. } => seq![
            AreaMutation::DeleteExit { exit_id },
        ],
        Mutation::UpdateLabel { id: IdRef::Known(label_id), updates, .. } => seq![
            AreaMutation::UpdateLabel { label_id, body: updates },
        ],
        Mutation::DeleteLabel { id: IdRef::Known(label_id), .. } => seq![
            AreaMutation::DeleteLabel { label_id },
        ],
        Mutation::UpdateShape { id: IdRef::Known(shape_id), updates, .. } => seq![
            AreaMutation::UpdateShape { shape_id, body: updates },
        ],
        Mutation::DeleteShape { id: IdRef::Known(shape_id), .. } => seq![
            AreaMutation::DeleteShape { shape_id },
        ],
        _ => Seq::empty(),
    }
}

/// The writes of mutations that name no slot.
pub open spec fn flat(mutations: Seq<MutationView>) -> Seq<OpView> {
    list::collect(mutations, |mutation: MutationView| plain_ops(mutation))
}

/// Every mutation of a list names no slot.
pub open spec fn all_plain(mutations: Seq<MutationView>) -> bool {
    forall|i: int| 0 <= i < mutations.len() ==> is_plain(#[trigger] mutations[i])
}

/// Collecting from a list and one more element.
pub(crate) proof fn lemma_collect_push<A, B>(s: Seq<A>, x: A, f: spec_fn(A) -> Seq<B>)
    ensures
        list::collect(s.push(x), f) == list::collect(s, f) + f(x),
{
    assert(s.push(x).drop_last() =~= s);
}

/// Collecting from two lists.
pub(crate) proof fn lemma_collect_concat<A, B>(a: Seq<A>, b: Seq<A>, f: spec_fn(A) -> Seq<B>)
    ensures
        list::collect(a + b, f) == list::collect(a, f) + list::collect(b, f),
    decreases b.len(),
{
    if b.len() == 0 {
        assert(a + b =~= a);
        assert(list::collect(a, f) + list::collect(b, f) =~= list::collect(a, f));
    } else {
        assert((a + b).drop_last() =~= a + b.drop_last());
        lemma_collect_concat(a, b.drop_last(), f);
        assert(list::collect(a, f) + list::collect(b, f) =~= list::collect(a, f) + list::collect(
            b.drop_last(),
            f,
        ) + f(b.last()));
    }
}

/// The pieces of a list hold it whole, in order, none of them longer than the limit.
pub proof fn law_pieces_hold_the_whole_list<A>(list: Seq<A>, limit: int)
    requires
        limit > 0,
    ensures
        list::collect(compile::pieces(list, limit), |piece: Seq<A>| piece) == list,
        forall|i: int|
            0 <= i < compile::pieces(list, limit).len() ==> (#[trigger] compile::pieces(
                list,
                limit,
            )[i]).len() <= limit,
    decreases list.len(),
{
    reveal_with_fuel(list::collect, 2);
    let f = |piece: Seq<A>| piece;
    if list.len() <= limit {
        assert(seq![list].drop_last() =~= Seq::empty());
        assert(list::collect(seq![list], f) =~= list);
    } else {
        let rest = list.skip(limit);
        law_pieces_hold_the_whole_list(rest, limit);
        lemma_collect_concat(seq![list.take(limit)], compile::pieces(rest, limit), f);
        assert(seq![list.take(limit)].drop_last() =~= Seq::empty());
        assert(list::collect(seq![list.take(limit)], f) =~= list.take(limit));
        assert(list.take(limit) + rest =~= list);
        let all = compile::pieces(list, limit);
        assert forall|i: int| 0 <= i < all.len() implies (#[trigger] all[i]).len() <= limit by {
            if i > 0 {
                assert(all[i] == compile::pieces(rest, limit)[i - 1]);
            }
        }
    }
}

/// Batches made of pieces hold what the pieces hold.
pub(crate) proof fn lemma_strict_ops(area_id: AreaId, pieces: Seq<Seq<OpView>>, description: Seq<char>)
    ensures
        ops_of(
            pieces.map_values(|ops: Seq<OpView>| compile::strict(area_id, ops, description)),
        ) == list::collect(pieces, |piece: Seq<OpView>| piece),
    decreases pieces.len(),
{
    let f = |ops: Seq<OpView>| compile::strict(area_id, ops, description);
    if pieces.len() > 0 {
        lemma_strict_ops(area_id, pieces.drop_last(), description);
        assert(pieces.map_values(f).drop_last() =~= pieces.drop_last().map_values(f));
    }
}

/// The batches of mutations that name no slot hold their writes, in order, whatever
/// the slot table.
proof fn lemma_compiled_plain(
    start: CompiledView,
    mutations: Seq<MutationView>,
    fresh: Seq<u128>,
    command: commands::CommandId,
    limit: int,
)
    requires
        limit > 0,
        all_plain(mutations),
    ensures
        ops_of(compile::compiled(start, mutations, fresh, command, limit).batches) == ops_of(
            start.batches,
        ) + flat(mutations),
    decreases mutations.len(),
{
    let f = |batch: BatchView| batch.operations;
    let g = |mutation: MutationView| plain_ops(mutation);
    if mutations.len() == 0 {
        assert(ops_of(start.batches) + flat(mutations) =~= ops_of(start.batches));
    } else {
        let rest = mutations.drop_last();
        let last = mutations.last();
        assert(all_plain(rest)) by {
            assert forall|i: int| 0 <= i < rest.len() implies is_plain(#[trigger] rest[i]) by {
                assert(rest[i] == mutations[i]);
            }
        }
        assert(is_plain(mutations[mutations.len() - 1]));
        lemma_compiled_plain(start, rest, fresh, command, limit);
        let before = compile::compiled(start, rest, fresh, command, limit);
        let after = compile::compiled(start, mutations, fresh, command, limit);
        if let Mutation::UpsertRooms(area_id, rooms) = last {
            let ops = compile::upserts(rooms);
            let description = compile::upsert_description(rooms);
            lemma_collect_concat(
                before.batches,
                compile::upsert_batches(area_id, rooms, limit),
                f,
            );
            lemma_strict_ops(area_id, compile::pieces(ops, limit), description);
            law_pieces_hold_the_whole_list(ops, limit);
        } else {
            let batch = after.batches.last();
            assert(after.batches =~= before.batches.push(batch));
            lemma_collect_push(before.batches, batch, f);
            assert(batch.operations =~= plain_ops(last));
        }
        assert(ops_of(after.batches) == ops_of(before.batches) + plain_ops(last));
        assert(ops_of(start.batches) + flat(rest) + plain_ops(last) =~= ops_of(start.batches) + (flat(
            rest,
        ) + plain_ops(last)));
    }
}

/// Whether undoing a command leaves a world as it was before the command: its writes
/// in one direction and then in the other. Mutation `i` draws on fresh id `i`.
pub open spec fn undo_restores(
    command: CommandView,
    world: World,
    fresh: Seq<u128>,
    again: Seq<u128>,
    limit: int,
) -> bool {
    let done = compile::compiled_direction(command, Direction::Redo, fresh, limit);
    let settled = CommandView { resolved_ids: done.resolved_ids, pending: 0, ..command };
    let undone = compile::compiled_direction(settled, Direction::Undo, again, limit);
    staged(staged(world, done.batches), undone.batches) == world
}

/// For mutations that name no slot it is enough to look at their writes.
pub(crate) proof fn lemma_plain_undo(
    command: CommandView,
    world: World,
    fresh: Seq<u128>,
    again: Seq<u128>,
    limit: int,
)
    requires
        limit > 0,
        all_plain(command.redo),
        all_plain(command.undo),
        all_written(all_written(world, flat(command.redo)), flat(command.undo)) == world,
    ensures
        undo_restores(command, world, fresh, again, limit),
{
    let done = compile::compiled_direction(command, Direction::Redo, fresh, limit);
    let settled = CommandView { resolved_ids: done.resolved_ids, pending: 0, ..command };
    let none = Seq::<BatchView>::empty();
    lemma_compiled_plain(
        CompiledView {
            batches: none,
            outcomes: Seq::empty(),
            resolved_ids: command.resolved_ids,
            pending: command.pending,
        },
        command.redo,
        fresh,
        command.id,
        limit,
    );
    lemma_compiled_plain(
        CompiledView {
            batches: none,
            outcomes: Seq::empty(),
            resolved_ids: settled.resolved_ids,
            pending: settled.pending,
        },
        command.undo,
        again,
        command.id,
        limit,
    );
    assert(ops_of(none) + flat(command.redo) =~= flat(command.redo));
    assert(ops_of(none) + flat(command.undo) =~= flat(command.undo));
}

/// Writes one after the other.
pub(crate) proof fn lemma_all_written(world: World, a: Seq<OpView>, b: Seq<OpView>)
    ensures
        all_written(world, a + b) == all_written(all_written(world, a), b),
    decreases b.len(),
{
    if b.len() == 0 {
        assert(a + b =~= a);
    } else {
        assert((a + b).drop_last() =~= a + b.drop_last());
        lemma_all_written(world, a, b.drop_last());
    }
}

/// The writes of one mutation.
pub(crate) proof fn lemma_flat_one(mutation: MutationView)
    ensures
        flat(seq![mutation]) == plain_ops(mutation),
{
    reveal_with_fuel(list::collect, 2);
    assert(seq![mutation].drop_last() =~= Seq::empty());
    assert(flat(seq![mutation]) =~= plain_ops(mutation));
}

/// One write.
pub(crate) proof fn lemma_one_written(world: World, op: OpView)
    ensures
        all_written(world, seq![op]) == written(world, op),
{
    reveal_with_fuel(all_written, 2);
    assert(seq![op].drop_last() =~= Seq::empty());
}

/// A command of one write each way that restores the world.
pub(crate) proof fn lemma_pair_undo(
    command: CommandView,
    world: World,
    first: OpView,
    second: OpView,
    fresh: Seq<u128>,
    again: Seq<u128>,
    limit: int,
)
    requires
        limit > 0,
        command.redo.len() == 1,
        command.undo.len() == 1,
        is_plain(command.redo[0]),
        is_plain(command.undo[0]),
        plain_ops(command.redo[0]) == seq![first],
        plain_ops(command.undo[0]) == seq![second],
        written(written(world, first), second) == world,
    ensures
        undo_restores(command, world, fresh, again, limit),
{
    assert(command.redo =~= seq![command.redo[0]]);
    assert(command.undo =~= seq![command.undo[0]]);
    lemma_flat_one(command.redo[0]);
    lemma_flat_one(command.undo[0]);
    lemma_one_written(world, first);
    lemma_one_written(written(world, first), second);
    lemma_plain_undo(command, world, fresh, again, limit);
}

// ===== Laws: one entity =====

/// Undoing an edit of a room's field restores the room.
pub proof fn law_undo_restores_a_room_field(
    atlas: AtlasCache,
    key: RoomKey,
    field: FieldId,
    updates: RoomUpdates<Seq<char>>,
    fresh: Seq<u128>,
    again: Seq<u128>,
    limit: int,
)
    requires
        limit > 0,
        updates.is_secret is None,
    ensures
        edits::room_field_command(atlas, key, field, updates) matches Some(command)
            ==> undo_restores(command, world_of(atlas.area(key.area_id)->0), fresh, again, limit),
{
    if let Some(command) = edits::room_field_command(atlas, key, field, updates) {
        let area = atlas.area(key.area_id)->0;
        let room = area.room(key.room_number)->0;
        let world = world_of(area);
        let inverse = edits::room_inverse(room, updates);
        let first = AreaMutation::UpsertRoom { room_number: key.room_number, body: updates };
        let second = AreaMutation::UpsertRoom { room_number: key.room_number, body: inverse };
        assert(compile::upserts(seq![(key.room_number, updates)]) =~= seq![first]);
        assert(compile::upserts(seq![(key.room_number, inverse)]) =~= seq![second]);
        assert(room_updated(room_updated(room_state(room), updates), inverse) == room_state(room));
        let after = written(written(world, first), second);
        assert(after.rooms =~= world.rooms);
        lemma_pair_undo(command, world, first, second, fresh, again, limit);
    }
}

/// Whether two updates of a room are of the same fields.
pub open spec fn touch_same(a: RoomUpdates<Seq<char>>, b: RoomUpdates<Seq<char>>) -> bool {
    &&& a.title is Some == b.title is Some
    &&& a.description is Some == b.description is Some
    &&& a.level is Some == b.level is Some
    &&& a.x is Some == b.x is Some
    &&& a.y is Some == b.y is Some
    &&& a.color is Some == b.color is Some
    &&& a.external_id is Some == b.external_id is Some
}

/// The writes of a command whose mutations name no slot.
pub(crate) proof fn lemma_plain_step(
    command: CommandView,
    direction: Direction,
    world: World,
    fresh: Seq<u128>,
    limit: int,
)
    requires
        limit > 0,
        all_plain(command.mutations(direction)),
    ensures
        staged(world, compile::compiled_direction(command, direction, fresh, limit).batches)
            == all_written(world, flat(command.mutations(direction))),
{
    let none = Seq::<BatchView>::empty();
    lemma_compiled_plain(
        CompiledView {
            batches: none,
            outcomes: Seq::empty(),
            resolved_ids: command.resolved_ids,
            pending: command.pending,
        },
        command.mutations(direction),
        fresh,
        command.id,
        limit,
    );
    assert(ops_of(none) + flat(command.mutations(direction)) =~= flat(command.mutations(direction)));
}

/// Whether the step that two edits are merged into undoes both: their writes, and then
/// those of undoing that step.
pub open spec fn merged_undo_restores(
    a: CommandView,
    b: CommandView,
    world: World,
    fresh: Seq<u128>,
    more: Seq<u128>,
    again: Seq<u128>,
    limit: int,
) -> bool {
    let once = staged(world, compile::compiled_direction(a, Direction::Redo, fresh, limit).batches);
    let twice = staged(once, compile::compiled_direction(b, Direction::Redo, more, limit).batches);
    let one = stack::merged(a, b);
    staged(twice, compile::compiled_direction(one, Direction::Undo, again, limit).batches) == world
}

/// Two commands of one write each whose merged step restores the world.
proof fn lemma_merged_undo(
    a: CommandView,
    b: CommandView,
    world: World,
    op_a: OpView,
    op_b: OpView,
    back: OpView,
    fresh: Seq<u128>,
    more: Seq<u128>,
    again: Seq<u128>,
    limit: int,
)
    requires
        limit > 0,
        a.redo.len() == 1,
        b.redo.len() == 1,
        a.undo.len() == 1,
        is_plain(a.redo[0]),
        is_plain(b.redo[0]),
        is_plain(a.undo[0]),
        plain_ops(a.redo[0]) == seq![op_a],
        plain_ops(b.redo[0]) == seq![op_b],
        plain_ops(a.undo[0]) == seq![back],
        written(written(written(world, op_a), op_b), back) == world,
    ensures
        merged_undo_restores(a, b, world, fresh, more, again, limit),
{
    let one = stack::merged(a, b);
    lemma_flat_one(a.redo[0]);
    lemma_flat_one(b.redo[0]);
    lemma_flat_one(one.undo[0]);
    assert(a.redo =~= seq![a.redo[0]]);
    assert(b.redo =~= seq![b.redo[0]]);
    assert(one.undo =~= seq![one.undo[0]]);
    let once = written(world, op_a);
    let twice = written(once, op_b);
    lemma_plain_step(a, Direction::Redo, world, fresh, limit);
    lemma_one_written(world, op_a);
    lemma_plain_step(b, Direction::Redo, once, more, limit);
    lemma_one_written(once, op_b);
    lemma_plain_step(one, Direction::Undo, twice, again, limit);
    lemma_one_written(twice, back);
}

/// The step that two edits of the same field of a room are merged into undoes both: the
/// room is as it was before the first.
pub proof fn law_undo_restores_coalesced_room_edits(
    atlas: AtlasCache,
    later: AtlasCache,
    key: RoomKey,
    field: FieldId,
    first: RoomUpdates<Seq<char>>,
    second: RoomUpdates<Seq<char>>,
    fresh: Seq<u128>,
    more: Seq<u128>,
    again: Seq<u128>,
    limit: int,
)
    requires
        limit > 0,
        first.is_secret is None,
        second.is_secret is None,
        touch_same(first, second),
        edits::room_field_command(atlas, key, field, first) is Some,
        edits::room_field_command(later, key, field, second) is Some,
    ensures
        ({
            let a = edits::room_field_command(atlas, key, field, first)->0;
            let b = edits::room_field_command(later, key, field, second)->0;
            &&& a.coalesce == b.coalesce
            &&& merged_undo_restores(
                a,
                b,
                world_of(atlas.area(key.area_id)->0),
                fresh,
                more,
                again,
                limit,
            )
        }),
{
    let a = edits::room_field_command(atlas, key, field, first)->0;
    let b = edits::room_field_command(later, key, field, second)->0;
    let area = atlas.area(key.area_id)->0;
    let room = area.room(key.room_number)->0;
    let world = world_of(area);
    let inverse = edits::room_inverse(room, first);
    let op_a = AreaMutation::UpsertRoom { room_number: key.room_number, body: first };
    let op_b = AreaMutation::UpsertRoom { room_number: key.room_number, body: second };
    let back = AreaMutation::UpsertRoom { room_number: key.room_number, body: inverse };
    assert(compile::upserts(seq![(key.room_number, first)]) =~= seq![op_a]);
    assert(compile::upserts(seq![(key.room_number, second)]) =~= seq![op_b]);
    assert(compile::upserts(seq![(key.room_number, inverse)]) =~= seq![back]);
    assert(room_updated(
        room_updated(room_updated(room_state(room), first), second),
        inverse,
    ) == room_state(room));
    assert(written(written(written(world, op_a), op_b), back).rooms =~= world.rooms);
    lemma_merged_undo(a, b, world, op_a, op_b, back, fresh, more, again, limit);
}

/// Undoing the setting of a room's property restores the room.
pub proof fn law_undo_restores_a_room_property(
    atlas: AtlasCache,
    key: RoomKey,
    name: Seq<char>,
    value: Seq<char>,
    fresh: Seq<u128>,
    again: Seq<u128>,
    limit: int,
)
    requires
        limit > 0,
    ensures
        edits::set_room_property_command(atlas, key, name, value) matches Some(command)
            ==> undo_restores(command, world_of(atlas.area(key.area_id)->0), fresh, again, limit),
        edits::delete_room_property_command(atlas, key, name) matches Some(command)
            ==> undo_restores(command, world_of(atlas.area(key.area_id)->0), fresh, again, limit),
{
    let area = atlas.area(key.area_id)->0;
    let room = area.room(key.room_number)->0;
    let world = world_of(area);
    let number = key.room_number;
    let held = cache::property_named(room.properties@, name);
    let set = AreaMutation::UpsertRoomProperty { room_number: number, name, value, is_secret: None };
    let restored = AreaMutation::UpsertRoomProperty {
        room_number: number,
        name,
        value: held->0.value@,
        is_secret: None,
    };
    let gone = AreaMutation::DeleteRoomProperty { room_number: number, name };
    if let Some(command) = edits::set_room_property_command(atlas, key, name, value) {
        let second = if held is Some {
            restored
        } else {
            gone
        };
        let after = written(written(world, set), second);
        assert(after.rooms[number].properties =~= room_state(room).properties);
        assert(after.rooms[number] =~= world.rooms[number]);
        assert(after.rooms =~= world.rooms);
        lemma_pair_undo(command, world, set, second, fresh, again, limit);
    }
    if let Some(command) = edits::delete_room_property_command(atlas, key, name) {
        let after = written(written(world, gone), restored);
        assert(after.rooms[number].properties =~= room_state(room).properties);
        assert(after.rooms[number] =~= world.rooms[number]);
        assert(after.rooms =~= world.rooms);
        lemma_pair_undo(command, world, gone, restored, fresh, again, limit);
    }
}

/// Undoing a change of a room's tags restores the room.
pub proof fn law_undo_restores_a_room_tag(
    atlas: AtlasCache,
    key: RoomKey,
    tag: Seq<char>,
    fresh: Seq<u128>,
    again: Seq<u128>,
    limit: int,
)
    requires
        limit > 0,
    ensures
        edits::add_room_tag_command(atlas, key, tag) matches Some(command) ==> undo_restores(
            command,
            world_of(atlas.area(key.area_id)->0),
            fresh,
            again,
            limit,
        ),
        edits::remove_room_tag_command(atlas, key, tag) matches Some(command) ==> undo_restores(
            command,
            world_of(atlas.area(key.area_id)->0),
            fresh,
            again,
            limit,
        ),
{
    let area = atlas.area(key.area_id)->0;
    let room = area.room(key.room_number)->0;
    let world = world_of(area);
    let number = key.room_number;
    let plus = AreaMutation::AddRoomTag { room_number: number, tag };
    let minus = AreaMutation::RemoveRoomTag { room_number: number, tag };
    if let Some(command) = edits::add_room_tag_command(atlas, key, tag) {
        let after = written(written(world, plus), minus);
        assert(after.rooms[number].tags =~= room_state(room).tags);
        assert(after.rooms[number] =~= world.rooms[number]);
        assert(after.rooms =~= world.rooms);
        lemma_pair_undo(command, world, plus, minus, fresh, again, limit);
    }
    if let Some(command) = edits::remove_room_tag_command(atlas, key, tag) {
        let after = written(written(world, minus), plus);
        assert(after.rooms[number].tags =~= room_state(room).tags);
        assert(after.rooms[number] =~= world.rooms[number]);
        assert(after.rooms =~= world.rooms);
        lemma_pair_undo(command, world, minus, plus, fresh, again, limit);
    }
}

/// Undoing a change of an area's property restores the area's properties.
pub proof fn law_undo_restores_an_area_property(
    atlas: AtlasCache,
    area_id: AreaId,
    name: Seq<char>,
    value: Seq<char>,
    fresh: Seq<u128>,
    again: Seq<u128>,
    limit: int,
)
    requires
        limit > 0,
    ensures
        edits::set_area_property_command(atlas, area_id, name, value) matches Some(command)
            ==> undo_restores(command, world_of(atlas.area(area_id)->0), fresh, again, limit),
        edits::delete_area_property_command(atlas, area_id, name) matches Some(command)
            ==> undo_restores(command, world_of(atlas.area(area_id)->0), fresh, again, limit),
{
    let area = atlas.area(area_id)->0;
    let world = world_of(area);
    let held = cache::property_named(area.properties@, name);
    let set = AreaMutation::UpsertAreaProperty { name, value, is_secret: None };
    let restored = AreaMutation::UpsertAreaProperty { name, value: held->0.value@, is_secret: None };
    let gone = AreaMutation::DeleteAreaProperty { name };
    if let Some(command) = edits::set_area_property_command(atlas, area_id, name, value) {
        let second = if held is Some {
            restored
        } else {
            gone
        };
        let after = written(written(world, set), second);
        assert(after.properties =~= world.properties);
        lemma_pair_undo(command, world, set, second, fresh, again, limit);
    }
    if let Some(command) = edits::delete_area_property_command(atlas, area_id, name) {
        let after = written(written(world, gone), restored);
        assert(after.properties =~= world.properties);
        lemma_pair_undo(command, world, gone, restored, fresh, again, limit);
    }
}

/// Undoing an edit of a label's field restores the label.
pub proof fn law_undo_restores_a_label_field(
    atlas: AtlasCache,
    area_id: AreaId,
    label_id: LabelId,
    field: FieldId,
    updates: LabelUpdates<Seq<char>>,
    fresh: Seq<u128>,
    again: Seq<u128>,
    limit: int,
)
    requires
        limit > 0,
        updates.is_secret is None,
    ensures
        edits::label_field_command(atlas, area_id, label_id, field, updates) matches Some(command)
            ==> undo_restores(command, world_of(atlas.area(area_id)->0), fresh, again, limit),
{
    if let Some(command) = edits::label_field_command(atlas, area_id, label_id, field, updates) {
        let area = atlas.area(area_id)->0;
        let label = area.label(label_id)->0;
        let world = world_of(area);
        let inverse = edits::label_inverse(label, updates);
        let first = AreaMutation::UpdateLabel { label_id, body: updates };
        let second = AreaMutation::UpdateLabel { label_id, body: inverse };
        assert(label_updated(label_updated(label@, updates), inverse) == label@);
        let after = written(written(world, first), second);
        assert(after.labels =~= world.labels);
        lemma_pair_undo(command, world, first, second, fresh, again, limit);
    }
}

/// Undoing an edit of a shape's field restores the shape.
pub proof fn law_undo_restores_a_shape_field(
    atlas: AtlasCache,
    area_id: AreaId,
    shape_id: ShapeId,
    field: FieldId,
    updates: ShapeUpdates<Seq<char>>,
    fresh: Seq<u128>,
    again: Seq<u128>,
    limit: int,
)
    requires
        limit > 0,
        updates.is_secret is None,
    ensures
        edits::shape_field_command(atlas, area_id, shape_id, field, updates) matches Some(command)
            ==> undo_restores(command, world_of(atlas.area(area_id)->0), fresh, again, limit),
{
    if let Some(command) = edits::shape_field_command(atlas, area_id, shape_id, field, updates) {
        let area = atlas.area(area_id)->0;
        let shape = area.shape(shape_id)->0;
        let world = world_of(area);
        let inverse = edits::shape_inverse(shape, updates);
        let first = AreaMutation::UpdateShape { shape_id, body: updates };
        let second = AreaMutation::UpdateShape { shape_id, body: inverse };
        let state = shape_state(shape);
        assert(shape_updated(shape_updated(state, updates), inverse) == state);
        let after = written(written(world, first), second);
        assert(after.shapes =~= world.shapes);
        lemma_pair_undo(command, world, first, second, fresh, again, limit);
    }
}

/// Whether two updates of a label are of the same fields.
pub open spec fn touch_same_of_label(a: LabelUpdates<Seq<char>>, b: LabelUpdates<Seq<char>>) -> bool {
    &&& a.level is Some == b.level is Some
    &&& a.x is Some == b.x is Some
    &&& a.y is Some == b.y is Some
    &&& a.width is Some == b.width is Some
    &&& a.height is Some == b.height is Some
    &&& a.horizontal_alignment is Some == b.horizontal_alignment is Some
    &&& a.vertical_alignment is Some == b.vertical_alignment is Some
    &&& a.text is Some == b.text is Some
    &&& a.color is Some == b.color is Some
    &&& a.background_color is Some == b.background_color is Some
    &&& a.font_size is Some == b.font_size is Some
    &&& a.font_weight is Some == b.font_weight is Some
}

/// The step that two edits of the same field of a label are merged into undoes both.
pub proof fn law_undo_restores_coalesced_label_edits(
    atlas: AtlasCache,
    later: AtlasCache,
    area_id: AreaId,
    label_id: LabelId,
    field: FieldId,
    first: LabelUpdates<Seq<char>>,
    second: LabelUpdates<Seq<char>>,
    fresh: Seq<u128>,
    more: Seq<u128>,
    again: Seq<u128>,
    limit: int,
)
    requires
        limit > 0,
        first.is_secret is None,
        second.is_secret is None,
        touch_same_of_label(first, second),
        edits::label_field_command(atlas, area_id, label_id, field, first) is Some,
        edits::label_field_command(later, area_id, label_id, field, second) is Some,
    ensures
        ({
            let a = edits::label_field_command(atlas, area_id, label_id, field, first)->0;
            let b = edits::label_field_command(later, area_id, label_id, field, second)->0;
            &&& a.coalesce == b.coalesce
            &&& merged_undo_restores(
                a,
                b,
                world_of(atlas.area(area_id)->0),
                fresh,
                more,
                again,
                limit,
            )
        }),
{
    let a = edits::label_field_command(atlas, area_id, label_id, field, first)->0;
    let b = edits::label_field_command(later, area_id, label_id, field, second)->0;
    let area = atlas.area(area_id)->0;
    let label = area.label(label_id)->0;
    let world = world_of(area);
    let inverse = edits::label_inverse(label, first);
    let op_a = AreaMutation::UpdateLabel { label_id, body: first };
    let op_b = AreaMutation::UpdateLabel { label_id, body: second };
    let back = AreaMutation::UpdateLabel { label_id, body: inverse };
    assert(label_updated(label_updated(label_updated(label@, first), second), inverse) == label@);
    assert(written(written(written(world, op_a), op_b), back).labels =~= world.labels);
    lemma_merged_undo(a, b, world, op_a, op_b, back, fresh, more, again, limit);
}

/// Whether two updates of a shape are of the same fields.
pub open spec fn touch_same_of_shape(a: ShapeUpdates<Seq<char>>, b: ShapeUpdates<Seq<char>>) -> bool {
    &&& a.level is Some == b.level is Some
    &&& a.x is Some == b.x is Some
    &&& a.y is Some == b.y is Some
    &&& a.width is Some == b.width is Some
    &&& a.height is Some == b.height is Some
    &&& a.background_color is Some == b.background_color is Some
    &&& a.stroke_color is Some == b.stroke_color is Some
    &&& a.shape_type is Some == b.shape_type is Some
    &&& a.border_radius is Some == b.border_radius is Some
    &&& a.stroke_width is Some == b.stroke_width is Some
}

/// The step that two edits of the same field of a shape are merged into undoes both.
pub proof fn law_undo_restores_coalesced_shape_edits(
    atlas: AtlasCache,
    later: AtlasCache,
    area_id: AreaId,
    shape_id: ShapeId,
    field: FieldId,
    first: ShapeUpdates<Seq<char>>,
    second: ShapeUpdates<Seq<char>>,
    fresh: Seq<u128>,
    more: Seq<u128>,
    again: Seq<u128>,
    limit: int,
)
    requires
        limit > 0,
        first.is_secret is None,
        second.is_secret is None,
        touch_same_of_shape(first, second),
        edits::shape_field_command(atlas, area_id, shape_id, field, first) is Some,
        edits::shape_field_command(later, area_id, shape_id, field, second) is Some,
    ensures
        ({
            let a = edits::shape_field_command(atlas, area_id, shape_id, field, first)->0;
            let b = edits::shape_field_command(later, area_id, shape_id, field, second)->0;
            &&& a.coalesce == b.coalesce
            &&& merged_undo_restores(
                a,
                b,
                world_of(atlas.area(area_id)->0),
                fresh,
                more,
                again,
                limit,
            )
        }),
{
    let a = edits::shape_field_command(atlas, area_id, shape_id, field, first)->0;
    let b = edits::shape_field_command(later, area_id, shape_id, field, second)->0;
    let area = atlas.area(area_id)->0;
    let shape = area.shape(shape_id)->0;
    let world = world_of(area);
    let inverse = edits::shape_inverse(shape, first);
    let op_a = AreaMutation::UpdateShape { shape_id, body: first };
    let op_b = AreaMutation::UpdateShape { shape_id, body: second };
    let back = AreaMutation::UpdateShape { shape_id, body: inverse };
    let state = shape_state(shape);
    assert(shape_updated(shape_updated(shape_updated(state, first), second), inverse) == state);
    assert(written(written(written(world, op_a), op_b), back).shapes =~= world.shapes);
    lemma_merged_undo(a, b, world, op_a, op_b, back, fresh, more, again, limit);
}

/// Undoing a change of bounds restores the label or shape.
pub proof fn law_undo_restores_bounds(
    atlas: AtlasCache,
    area_id: AreaId,
    entity: EntityId,
    rect: Rect,
    fresh: Seq<u128>,
    again: Seq<u128>,
    limit: int,
)
    requires
        limit > 0,
    ensures
        edits::resize_command(atlas, area_id, entity, rect) matches Some(command)
            ==> undo_restores(command, world_of(atlas.area(area_id)->0), fresh, again, limit),
{
    if let Some(command) = edits::resize_command(atlas, area_id, entity, rect) {
        let area = atlas.area(area_id)->0;
        let world = world_of(area);
        match entity {
            EntityId::Label(label_id) => {
                let label = area.label(label_id)->0;
                let held = Rect {
                    x: label.x,
                    y: label.y,
                    width: label.width,
                    height: label.height,
                };
                let first = AreaMutation::UpdateLabel { label_id, body: edits::label_bounds(rect) };
                let second = AreaMutation::UpdateLabel { label_id, body: edits::label_bounds(held) };
                let after = written(written(world, first), second);
                assert(after.labels =~= world.labels);
                lemma_pair_undo(command, world, first, second, fresh, again, limit);
            },
            EntityId::Shape(shape_id) => {
                let shape = area.shape(shape_id)->0;
                let held = Rect {
                    x: shape.x,
                    y: shape.y,
                    width: shape.width,
                    height: shape.height,
                };
                let first = AreaMutation::UpdateShape { shape_id, body: edits::shape_bounds(rect) };
                let second = AreaMutation::UpdateShape { shape_id, body: edits::shape_bounds(held) };
                let after = written(written(world, first), second);
                assert(after.shapes =~= world.shapes);
                lemma_pair_undo(command, world, first, second, fresh, again, limit);
            },
            _ => {},
        }
    }
}

// ===== Laws: many entities =====

/// The writes of room edits.
pub open spec fn room_ops(
    area: AreaCache,
    numbers: Seq<RoomNumber>,
    f: spec_fn(RoomCache) -> RoomUpdates<Seq<char>>,
) -> Seq<OpView> {
    compile::upserts(edits::room_edits(area, numbers, f))
}

/// Whether a world has the rooms, labels and shapes that an area has.
pub open spec fn holds_area(world: World, area: AreaCache) -> bool {
    &&& forall|number: RoomNumber|
        #![trigger world.rooms.dom().contains(number)]
        world.rooms.dom().contains(number) == (area.room(number) is Some)
    &&& forall|id: LabelId|
        #![trigger world.labels.dom().contains(id)]
        world.labels.dom().contains(id) == (area.label(id) is Some)
    &&& forall|id: ShapeId|
        #![trigger world.shapes.dom().contains(id)]
        world.shapes.dom().contains(id) == (area.shape(id) is Some)
}

/// A room after the edits of the rooms with some numbers.
pub open spec fn edited_room(
    world: World,
    area: AreaCache,
    numbers: Seq<RoomNumber>,
    f: spec_fn(RoomCache) -> RoomUpdates<Seq<char>>,
    number: RoomNumber,
) -> RoomState {
    if numbers.contains(number) {
        room_updated(world.rooms[number], f(area.room(number)->0))
    } else {
        world.rooms[number]
    }
}

/// What the edits of rooms leave: each room that is named takes its update.
pub(crate) proof fn lemma_rooms_edited(
    world: World,
    area: AreaCache,
    numbers: Seq<RoomNumber>,
    f: spec_fn(RoomCache) -> RoomUpdates<Seq<char>>,
)
    requires
        holds_area(world, area),
    ensures
        ({
            let after = all_written(world, room_ops(area, numbers, f));
            &&& after.labels == world.labels && after.shapes == world.shapes && after.properties
                == world.properties
            &&& holds_area(after, area)
            &&& forall|number: RoomNumber|
                #![trigger after.rooms[number]]
                area.room(number) is Some ==> after.rooms[number] == edited_room(
                    world,
                    area,
                    numbers,
                    f,
                    number,
                )
        }),
    decreases numbers.len(),
{
    let piece = |number: RoomNumber|
        match area.room(number) {
            Some(room) => seq![(number, f(room))],
            None => Seq::empty(),
        };
    if numbers.len() == 0 {
        assert(room_ops(area, numbers, f) =~= Seq::empty());
    } else {
        let rest = numbers.drop_last();
        let last = numbers.last();
        lemma_rooms_edited(world, area, rest, f);
        let before = all_written(world, room_ops(area, rest, f));
        let after = all_written(world, room_ops(area, numbers, f));
        assert forall|number: RoomNumber|
            numbers.contains(number) == (rest.contains(number) || number == last) by {
            if numbers.contains(number) {
                let k = choose|k: int| 0 <= k < numbers.len() && numbers[k] == number;
                if k < rest.len() {
                    assert(rest[k] == number);
                }
            }
            if rest.contains(number) {
                let k = choose|k: int| 0 <= k < rest.len() && rest[k] == number;
                assert(numbers[k] == number);
            }
            assert(numbers[numbers.len() - 1] == last);
        }
        match area.room(last) {
            Some(room) => {
                let op = AreaMutation::UpsertRoom { room_number: last, body: f(room) };
                assert(room_ops(area, numbers, f) =~= room_ops(area, rest, f).push(op));
                assert(room_ops(area, numbers, f).drop_last() =~= room_ops(area, rest, f));
                assert(after == written(before, op));
                assert(before.rooms.dom().contains(last));
                assert forall|number: RoomNumber|
                    #![trigger after.rooms[number]]
                    area.room(number) is Some implies after.rooms[number] == edited_room(
                    world,
                    area,
                    numbers,
                    f,
                    number,
                ) by {
                    assert(before.rooms[number] == edited_room(world, area, rest, f, number));
                    if number == last && rest.contains(last) {
                        let held = world.rooms[number];
                        let updates = f(room);
                        assert(room_updated(room_updated(held, updates), updates) == room_updated(
                            held,
                            updates,
                        ));
                    }
                }
                assert(holds_area(after, area)) by {
                    assert forall|number: RoomNumber|
                        #![trigger after.rooms.dom().contains(number)]
                        after.rooms.dom().contains(number) == (area.room(number) is Some) by {
                        assert(before.rooms.dom().contains(number) == (area.room(number) is Some));
                    }
                }
            },
            None => {
                assert(room_ops(area, numbers, f) =~= room_ops(area, rest, f));
                assert forall|number: RoomNumber|
                    #![trigger after.rooms[number]]
                    area.room(number) is Some implies after.rooms[number] == edited_room(
                    world,
                    area,
                    numbers,
                    f,
                    number,
                ) by {
                    assert(before.rooms[number] == edited_room(world, area, rest, f, number));
                }
            },
        }
    }
}

/// A label after the edits of the labels with some ids.
pub open spec fn edited_label(
    world: World,
    area: AreaCache,
    ids: Seq<LabelId>,
    f: spec_fn(LabelCache) -> LabelUpdates<Seq<char>>,
    id: LabelId,
) -> LabelCache<Seq<char>> {
    if ids.contains(id) {
        label_updated(world.labels[id], f(area.label(id)->0))
    } else {
        world.labels[id]
    }
}

/// What the edits of labels leave.
proof fn lemma_labels_edited(
    world: World,
    area_id: AreaId,
    area: AreaCache,
    ids: Seq<LabelId>,
    f: spec_fn(LabelCache) -> LabelUpdates<Seq<char>>,
)
    requires
        holds_area(world, area),
    ensures
        all_plain(edits::label_edits(area_id, area, ids, f)),
        ({
            let after = all_written(world, flat(edits::label_edits(area_id, area, ids, f)));
            &&& after.rooms == world.rooms && after.shapes == world.shapes && after.properties
                == world.properties
            &&& holds_area(after, area)
            &&& forall|id: LabelId|
                #![trigger after.labels[id]]
                area.label(id) is Some ==> after.labels[id] == edited_label(world, area, ids, f, id)
        }),
    decreases ids.len(),
{
    let g = |mutation: MutationView| plain_ops(mutation);
    let all = edits::label_edits(area_id, area, ids, f);
    if ids.len() == 0 {
        assert(flat(all) =~= Seq::empty());
    } else {
        let rest = ids.drop_last();
        let last = ids.last();
        lemma_labels_edited(world, area_id, area, rest, f);
        let some = edits::label_edits(area_id, area, rest, f);
        let before = all_written(world, flat(some));
        let after = all_written(world, flat(all));
        assert forall|id: LabelId| ids.contains(id) == (rest.contains(id) || id == last) by {
            if ids.contains(id) {
                let k = choose|k: int| 0 <= k < ids.len() && ids[k] == id;
                if k < rest.len() {
                    assert(rest[k] == id);
                }
            }
            if rest.contains(id) {
                let k = choose|k: int| 0 <= k < rest.len() && rest[k] == id;
                assert(ids[k] == id);
            }
            assert(ids[ids.len() - 1] == last);
        }
        match area.label(last) {
            Some(label) => {
                let mutation = Mutation::UpdateLabel {
                    area_id,
                    id: IdRef::Known(last),
                    updates: f(label),
                };
                let op = AreaMutation::UpdateLabel { label_id: last, body: f(label) };
                assert(all =~= some.push(mutation));
                lemma_collect_push(some, mutation, g);
                assert(flat(all) =~= flat(some).push(op));
                assert(flat(all).drop_last() =~= flat(some));
                assert(after == written(before, op));
                assert(before.labels.dom().contains(last));
                assert forall|id: LabelId|
                    #![trigger after.labels[id]]
                    area.label(id) is Some implies after.labels[id] == edited_label(
                    world,
                    area,
                    ids,
                    f,
                    id,
                ) by {
                    assert(before.labels[id] == edited_label(world, area, rest, f, id));
                }
                assert(holds_area(after, area)) by {
                    assert forall|id: LabelId|
                        #![trigger after.labels.dom().contains(id)]
                        after.labels.dom().contains(id) == (area.label(id) is Some) by {
                        assert(before.labels.dom().contains(id) == (area.label(id) is Some));
                    }
                }
                assert(all_plain(all)) by {
                    assert forall|i: int| 0 <= i < all.len() implies is_plain(#[trigger] all[i]) by {
                        if i < some.len() {
                            assert(all[i] == some[i]);
                        }
                    }
                }
            },
            None => {
                assert(all =~= some);
                assert forall|id: LabelId|
                    #![trigger after.labels[id]]
                    area.label(id) is Some implies after.labels[id] == edited_label(
                    world,
                    area,
                    ids,
                    f,
                    id,
                ) by {
                    assert(before.labels[id] == edited_label(world, area, rest, f, id));
                }
            },
        }
    }
}

/// A shape after the edits of the shapes with some ids.
pub open spec fn edited_shape(
    world: World,
    area: AreaCache,
    ids: Seq<ShapeId>,
    f: spec_fn(ShapeCache) -> ShapeUpdates<Seq<char>>,
    id: ShapeId,
) -> ShapeState {
    if ids.contains(id) {
        shape_updated(world.shapes[id], f(area.shape(id)->0))
    } else {
        world.shapes[id]
    }
}

/// What the edits of shapes leave.
proof fn lemma_shapes_edited(
    world: World,
    area_id: AreaId,
    area: AreaCache,
    ids: Seq<ShapeId>,
    f: spec_fn(ShapeCache) -> ShapeUpdates<Seq<char>>,
)
    requires
        holds_area(world, area),
    ensures
        all_plain(edits::shape_edits(area_id, area, ids, f)),
        ({
            let after = all_written(world, flat(edits::shape_edits(area_id, area, ids, f)));
            &&& after.rooms == world.rooms && after.labels == world.labels && after.properties
                == world.properties
            &&& holds_area(after, area)
            &&& forall|id: ShapeId|
                #![trigger after.shapes[id]]
                area.shape(id) is Some ==> after.shapes[id] == edited_shape(world, area, ids, f, id)
        }),
    decreases ids.len(),
{
    let g = |mutation: MutationView| plain_ops(mutation);
    let all = edits::shape_edits(area_id, area, ids, f);
    if ids.len() == 0 {
        assert(flat(all) =~= Seq::empty());
    } else {
        let rest = ids.drop_last();
        let last = ids.last();
        lemma_shapes_edited(world, area_id, area, rest, f);
        let some = edits::shape_edits(area_id, area, rest, f);
        let before = all_written(world, flat(some));
        let after = all_written(world, flat(all));
        assert forall|id: ShapeId| ids.contains(id) == (rest.contains(id) || id == last) by {
            if ids.contains(id) {
                let k = choose|k: int| 0 <= k < ids.len() && ids[k] == id;
                if k < rest.len() {
                    assert(rest[k] == id);
                }
            }
            if rest.contains(id) {
                let k = choose|k: int| 0 <= k < rest.len() && rest[k] == id;
                assert(ids[k] == id);
            }
            assert(ids[ids.len() - 1] == last);
        }
        match area.shape(last) {
            Some(shape) => {
                let mutation = Mutation::UpdateShape {
                    area_id,
                    id: IdRef::Known(last),
                    updates: f(shape),
                };
                let op = AreaMutation::UpdateShape { shape_id: last, body: f(shape) };
                assert(all =~= some.push(mutation));
                lemma_collect_push(some, mutation, g);
                assert(flat(all) =~= flat(some).push(op));
                assert(flat(all).drop_last() =~= flat(some));
                assert(after == written(before, op));
                assert(before.shapes.dom().contains(last));
                assert forall|id: ShapeId|
                    #![trigger after.shapes[id]]
                    area.shape(id) is Some implies after.shapes[id] == edited_shape(
                    world,
                    area,
                    ids,
                    f,
                    id,
                ) by {
                    assert(before.shapes[id] == edited_shape(world, area, rest, f, id));
                }
                assert(holds_area(after, area)) by {
                    assert forall|id: ShapeId|
                        #![trigger after.shapes.dom().contains(id)]
                        after.shapes.dom().contains(id) == (area.shape(id) is Some) by {
                        assert(before.shapes.dom().contains(id) == (area.shape(id) is Some));
                    }
                }
                assert(all_plain(all)) by {
                    assert forall|i: int| 0 <= i < all.len() implies is_plain(#[trigger] all[i]) by {
                        if i < some.len() {
                            assert(all[i] == some[i]);
                        }
                    }
                }
            },
            None => {
                assert(all =~= some);
                assert forall|id: ShapeId|
                    #![trigger after.shapes[id]]
                    area.shape(id) is Some implies after.shapes[id] == edited_shape(
                    world,
                    area,
                    ids,
                    f,
                    id,
                ) by {
                    assert(before.shapes[id] == edited_shape(world, area, rest, f, id));
                }
            },
        }
    }
}

/// Whether one edit of an entity takes back another.
pub open spec fn takes_back(edit: SelectionEdit, back: SelectionEdit) -> bool {
    &&& forall|room: RoomCache|
        room_updated(room_updated(room_state(room), (edit.room)(room)), #[trigger] (back.room)(room))
            == room_state(room)
    &&& forall|label: LabelCache|
        label_updated(label_updated(label@, (edit.label)(label)), #[trigger] (back.label)(label))
            == label@
    &&& forall|shape: ShapeCache|
        shape_updated(
            shape_updated(shape_state(shape), (edit.shape)(shape)),
            #[trigger] (back.shape)(shape),
        ) == shape_state(shape)
}

/// The writes of an edit of the whole selection.
pub(crate) proof fn lemma_selection_ops(
    area_id: AreaId,
    area: AreaCache,
    selection: Seq<EntityId>,
    edit: SelectionEdit,
)
    ensures
        all_plain(edits::selection_edits(area_id, area, selection, edit)),
        flat(edits::selection_edits(area_id, area, selection, edit)) == room_ops(
            area,
            cache::selected_rooms(selection),
            edit.room,
        ) + flat(
            edits::label_edits(area_id, area, cache::selected_labels(selection), edit.label),
        ) + flat(edits::shape_edits(area_id, area, cache::selected_shapes(selection), edit.shape)),
{
    let g = |mutation: MutationView| plain_ops(mutation);
    let world = world_of(area);
    let rooms = edits::room_edits(area, cache::selected_rooms(selection), edit.room);
    let first = edits::rooms_mutation(area_id, rooms);
    let labels = edits::label_edits(area_id, area, cache::selected_labels(selection), edit.label);
    let shapes = edits::shape_edits(area_id, area, cache::selected_shapes(selection), edit.shape);
    lemma_labels_edited(world, area_id, area, cache::selected_labels(selection), edit.label);
    lemma_shapes_edited(world, area_id, area, cache::selected_shapes(selection), edit.shape);
    lemma_collect_concat(first, labels, g);
    lemma_collect_concat(first + labels, shapes, g);
    if rooms.len() == 0 {
        assert(flat(first) =~= compile::upserts(rooms));
    } else {
        lemma_flat_one(first[0]);
        assert(first =~= seq![first[0]]);
    }
    let all = edits::selection_edits(area_id, area, selection, edit);
    assert(all_plain(all)) by {
        assert forall|i: int| 0 <= i < all.len() implies is_plain(#[trigger] all[i]) by {
            if i < first.len() {
                assert(all[i] == first[i]);
            } else if i < first.len() + labels.len() {
                assert(all[i] == labels[i - first.len()]);
            } else {
                assert(all[i] == shapes[i - first.len() - labels.len()]);
            }
        }
    }
}

/// What an edit of the whole selection leaves.
pub(crate) proof fn lemma_selection_edited(
    world: World,
    area_id: AreaId,
    area: AreaCache,
    selection: Seq<EntityId>,
    edit: SelectionEdit,
)
    requires
        holds_area(world, area),
    ensures
        ({
            let after = all_written(
                world,
                flat(edits::selection_edits(area_id, area, selection, edit)),
            );
            &&& holds_area(after, area)
            &&& after.properties == world.properties
            &&& forall|number: RoomNumber|
                #![trigger after.rooms[number]]
                area.room(number) is Some ==> after.rooms[number] == edited_room(
                    world,
                    area,
                    cache::selected_rooms(selection),
                    edit.room,
                    number,
                )
            &&& forall|id: LabelId|
                #![trigger after.labels[id]]
                area.label(id) is Some ==> after.labels[id] == edited_label(
                    world,
                    area,
                    cache::selected_labels(selection),
                    edit.label,
                    id,
                )
            &&& forall|id: ShapeId|
                #![trigger after.shapes[id]]
                area.shape(id) is Some ==> after.shapes[id] == edited_shape(
                    world,
                    area,
                    cache::selected_shapes(selection),
                    edit.shape,
                    id,
                )
        }),
{
    let rooms = room_ops(area, cache::selected_rooms(selection), edit.room);
    let labels = flat(
        edits::label_edits(area_id, area, cache::selected_labels(selection), edit.label),
    );
    let shapes = flat(
        edits::shape_edits(area_id, area, cache::selected_shapes(selection), edit.shape),
    );
    lemma_selection_ops(area_id, area, selection, edit);
    lemma_all_written(world, rooms, labels);
    lemma_all_written(world, rooms + labels, shapes);
    lemma_rooms_edited(world, area, cache::selected_rooms(selection), edit.room);
    let first = all_written(world, rooms);
    lemma_labels_edited(first, area_id, area, cache::selected_labels(selection), edit.label);
    let second = all_written(first, labels);
    lemma_shapes_edited(second, area_id, area, cache::selected_shapes(selection), edit.shape);
    let after = all_written(second, shapes);
    assert forall|number: RoomNumber|
        #![trigger after.rooms[number]]
        area.room(number) is Some implies after.rooms[number] == edited_room(
        world,
        area,
        cache::selected_rooms(selection),
        edit.room,
        number,
    ) by {
        assert(after.rooms[number] == first.rooms[number]);
    }
    assert forall|id: LabelId|
        #![trigger after.labels[id]]
        area.label(id) is Some implies after.labels[id] == edited_label(
        world,
        area,
        cache::selected_labels(selection),
        edit.label,
        id,
    ) by {
        assert(after.labels[id] == second.labels[id]);
    }
}

/// Undoing an edit of the whole selection restores everything it touched, when the
/// edit that undoes takes back the one that does.
pub proof fn law_undo_restores_the_selection(
    atlas: AtlasCache,
    area_id: AreaId,
    selection: Seq<EntityId>,
    edit: SelectionEdit,
    back: SelectionEdit,
    fresh: Seq<u128>,
    again: Seq<u128>,
    limit: int,
)
    requires
        limit > 0,
        takes_back(edit, back),
    ensures
        edits::selection_command(atlas, area_id, selection, edit, back) matches Some(command)
            ==> undo_restores(command, world_of(atlas.area(area_id)->0), fresh, again, limit),
{
    if let Some(command) = edits::selection_command(atlas, area_id, selection, edit, back) {
        let area = atlas.area(area_id)->0;
        let world = world_of(area);
        lemma_selection_ops(area_id, area, selection, edit);
        lemma_selection_ops(area_id, area, selection, back);
        assert(holds_area(world, area));
        lemma_selection_edited(world, area_id, area, selection, edit);
        let done = all_written(world, flat(command.redo));
        lemma_selection_edited(done, area_id, area, selection, back);
        let after = all_written(done, flat(command.undo));
        assert(after.rooms =~= world.rooms) by {
            assert forall|number: RoomNumber| #[trigger]
                after.rooms.dom().contains(number) == world.rooms.dom().contains(number) by {}
            assert forall|number: RoomNumber| #[trigger]
                after.rooms.dom().contains(number) implies after.rooms[number]
                == world.rooms[number] by {
                let room = area.room(number)->0;
                assert(done.rooms[number] == edited_room(
                    world,
                    area,
                    cache::selected_rooms(selection),
                    edit.room,
                    number,
                ));
                assert((back.room)(room) == (back.room)(room));
            }
        }
        assert(after.labels =~= world.labels) by {
            assert forall|id: LabelId| #[trigger]
                after.labels.dom().contains(id) == world.labels.dom().contains(id) by {}
            assert forall|id: LabelId| #[trigger] after.labels.dom().contains(id) implies after.labels[id]
                == world.labels[id] by {
                let label = area.label(id)->0;
                assert(done.labels[id] == edited_label(
                    world,
                    area,
                    cache::selected_labels(selection),
                    edit.label,
                    id,
                ));
                assert((back.label)(label) == (back.label)(label));
            }
        }
        assert(after.shapes =~= world.shapes) by {
            assert forall|id: ShapeId| #[trigger]
                after.shapes.dom().contains(id) == world.shapes.dom().contains(id) by {}
            assert forall|id: ShapeId| #[trigger] after.shapes.dom().contains(id) implies after.shapes[id]
                == world.shapes[id] by {
                let shape = area.shape(id)->0;
                assert(done.shapes[id] == edited_shape(
                    world,
                    area,
                    cache::selected_shapes(selection),
                    edit.shape,
                    id,
                ));
                assert((back.shape)(shape) == (back.shape)(shape));
            }
        }
        assert(after == world);
        lemma_plain_undo(command, world, fresh, again, limit);
    }
}

/// Undoing a move of the selection brings everything back to where it was.
pub proof fn law_undo_restores_positions(
    atlas: AtlasCache,
    area_id: AreaId,
    selection: Seq<EntityId>,
    by: spec_fn(Point) -> Point,
    fresh: Seq<u128>,
    again: Seq<u128>,
    limit: int,
)
    requires
        limit > 0,
    ensures
        edits::selection_command(
            atlas,
            area_id,
            selection,
            edits::moved_edit(by),
            edits::placed_edit(),
        ) matches Some(command) ==> undo_restores(
            command,
            world_of(atlas.area(area_id)->0),
            fresh,
            again,
            limit,
        ),
{
    law_undo_restores_the_selection(
        atlas,
        area_id,
        selection,
        edits::moved_edit(by),
        edits::placed_edit(),
        fresh,
        again,
        limit,
    );
}

/// Undoing a shift of the selection brings everything back to its level.
pub proof fn law_undo_restores_levels(
    atlas: AtlasCache,
    area_id: AreaId,
    selection: Seq<EntityId>,
    delta: int,
    fresh: Seq<u128>,
    again: Seq<u128>,
    limit: int,
)
    requires
        limit > 0,
    ensures
        edits::selection_command(
            atlas,
            area_id,
            selection,
            edits::level_edit(delta),
            edits::level_edit(0),
        ) matches Some(command) ==> undo_restores(
            command,
            world_of(atlas.area(area_id)->0),
            fresh,
            again,
            limit,
        ),
{
    law_undo_restores_the_selection(
        atlas,
        area_id,
        selection,
        edits::level_edit(delta),
        edits::level_edit(0),
        fresh,
        again,
        limit,
    );
}

/// Undoing an edit of many rooms restores each of them.
pub proof fn law_undo_restores_many_rooms(
    atlas: AtlasCache,
    area_id: AreaId,
    selection: Seq<EntityId>,
    updates: RoomUpdates<Seq<char>>,
    fresh: Seq<u128>,
    again: Seq<u128>,
    limit: int,
)
    requires
        limit > 0,
        updates.is_secret is None,
    ensures
        edits::bulk_command(atlas, area_id, selection, updates) matches Some(command)
            ==> undo_restores(command, world_of(atlas.area(area_id)->0), fresh, again, limit),
{
    if let Some(command) = edits::bulk_command(atlas, area_id, selection, updates) {
        let area = atlas.area(area_id)->0;
        let world = world_of(area);
        let numbers = cache::selected_rooms(selection);
        let f = |room: RoomCache| updates;
        let g = |room: RoomCache| edits::room_inverse(room, updates);
        lemma_flat_one(command.redo[0]);
        lemma_flat_one(command.undo[0]);
        assert(command.redo =~= seq![command.redo[0]]);
        assert(command.undo =~= seq![command.undo[0]]);
        assert(holds_area(world, area));
        lemma_rooms_edited(world, area, numbers, f);
        let done = all_written(world, room_ops(area, numbers, f));
        lemma_rooms_edited(done, area, numbers, g);
        let after = all_written(done, room_ops(area, numbers, g));
        assert(after.rooms =~= world.rooms) by {
            assert forall|number: RoomNumber| #[trigger]
                after.rooms.dom().contains(number) == world.rooms.dom().contains(number) by {}
            assert forall|number: RoomNumber| #[trigger]
                after.rooms.dom().contains(number) implies after.rooms[number]
                == world.rooms[number] by {
                let room = area.room(number)->0;
                assert(done.rooms[number] == edited_room(world, area, numbers, f, number));
                assert(room_updated(
                    room_updated(room_state(room), updates),
                    edits::room_inverse(room, updates),
                ) == room_state(room));
            }
        }
        assert(after == world);
        lemma_plain_undo(command, world, fresh, again, limit);
    }
}

} // verus!
