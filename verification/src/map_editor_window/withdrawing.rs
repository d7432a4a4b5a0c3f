//! A creation or a paste that is undone leaves no room and no drawing behind.

use vstd::prelude::*;

use super::clipboard::{ClipboardView, ConnectionClipView, RoomClipView};
use super::commands::{self, CommandView, Direction, ResolvedId};
use super::compile::{self, BatchView, CompiledView};
use super::creation::{self, LinkEnds, LinkIds, NewExitTarget, NewLinkOptions};
use super::deletion;
use super::edits::{self, Rect};
use super::model::{
    AreaCache, AreaId, AtlasCache, ExitId, LabelArgs, LabelId, Point, RoomKey, RoomNumber, ShapeArgs, ShapeId,
};
use super::mutation::{self, AreaMutation, IdRef, Mutation, MutationView, OpView};
use super::paste::{self, PasteContext, PasteIds, PastePoints};
use super::restoring;
use super::undoing::{self, World};
use crate::list;

verus! {

// ===== Creations =====

/// Undoing the creation of a room leaves rooms, labels, shapes and properties as they were.
pub proof fn law_undoing_a_new_room_restores_rooms(
    world: World,
    area_id: AreaId,
    room_number: RoomNumber,
    at: Point,
    level: i32,
    fresh: Seq<u128>,
    again: Seq<u128>,
    limit: int,
)
    requires
        limit > 0,
        !world.rooms.dom().contains(room_number),
    ensures
        undoing::undo_restores(
            commands::new_command(
                seq![
                    Mutation::UpsertRooms(
                        area_id,
                        seq![(room_number, creation::new_room(at, level))],
                    ),
                ],
                seq![Mutation::DeleteRoom(RoomKey { area_id, room_number })],
            ),
            world,
            fresh,
            again,
            limit,
        ),
{
    let body = creation::new_room(at, level);
    let command = commands::new_command(
        seq![Mutation::UpsertRooms(area_id, seq![(room_number, body)])],
        seq![Mutation::DeleteRoom(RoomKey { area_id, room_number })],
    );
    let first = AreaMutation::UpsertRoom { room_number, body };
    let second = AreaMutation::DeleteRoom { room_number };
    assert(compile::upserts(seq![(room_number, body)]) =~= seq![first]);
    let after = undoing::written(undoing::written(world, first), second);
    assert(after.rooms =~= world.rooms);
    undoing::lemma_pair_undo(command, world, first, second, fresh, again, limit);
}

/// A creation and the deletion of what its slot holds.
proof fn lemma_slot_pair(
    command: CommandView,
    world: World,
    created: OpView,
    deleted: OpView,
    id: ResolvedId,
    fresh: Seq<u128>,
    again: Seq<u128>,
    limit: int,
)
    requires
        limit > 0,
        command.redo.len() == 1,
        command.undo.len() == 1,
        command.resolved_ids.len() == 1,
        restoring::step_ops(command.resolved_ids, command.redo[0], fresh[0]) == seq![created],
        restoring::step_ops(seq![Some(id)], command.undo[0], again[0]) == seq![deleted],
        compile::compiled_step(
            restoring::compile_start(command),
            command.redo[0],
            fresh[0],
            command.id,
            limit,
        ).resolved_ids == seq![Some(id)],
        undoing::written(undoing::written(world, created), deleted) == world,
    ensures
        undoing::undo_restores(command, world, fresh, again, limit),
{
    reveal_with_fuel(compile::compiled, 2);
    let start = restoring::compile_start(command);
    assert(command.redo.drop_last() =~= Seq::empty());
    assert(command.undo.drop_last() =~= Seq::empty());
    let done = compile::compiled_direction(command, Direction::Redo, fresh, limit);
    restoring::lemma_step_staged(world, start, command.redo[0], fresh[0], command.id, limit);
    assert(undoing::ops_of(start.batches) =~= Seq::empty());
    undoing::lemma_one_written(world, created);
    let middle = undoing::staged(world, done.batches);
    assert(middle == undoing::written(world, created));
    let settled = CommandView { resolved_ids: done.resolved_ids, pending: 0, ..command };
    let again_start = restoring::compile_start(settled);
    restoring::lemma_step_staged(
        middle,
        again_start,
        command.undo[0],
        again[0],
        command.id,
        limit,
    );
    assert(undoing::ops_of(again_start.batches) =~= Seq::empty());
    undoing::lemma_one_written(middle, deleted);
}

/// Undoing the creation of a label leaves rooms, labels, shapes and properties as they were.
pub proof fn law_undoing_a_new_label_restores_drawings(
    world: World,
    area_id: AreaId,
    rect: Rect,
    level: i32,
    caption: Seq<char>,
    fresh: Seq<u128>,
    again: Seq<u128>,
    limit: int,
)
    requires
        limit > 0,
        !world.labels.dom().contains(LabelId(fresh[0])),
    ensures
        undoing::undo_restores(
            commands::new_command(
                seq![
                    Mutation::CreateLabel {
                        area_id,
                        args: creation::new_label(rect, level, caption),
                        slot: 0,
                    },
                ],
                seq![Mutation::DeleteLabel { area_id, id: IdRef::Slot(0) }],
            ),
            world,
            fresh,
            again,
            limit,
        ),
{
    let args = creation::new_label(rect, level, caption);
    let redo = seq![Mutation::CreateLabel { area_id, args, slot: 0 }];
    let undo = seq![Mutation::DeleteLabel { area_id, id: IdRef::Slot(0) }];
    let command: CommandView = commands::new_command(redo, undo);
    lemma_one_slot(redo[0], undo[0]);
    let id = LabelId(fresh[0]);
    let created = AreaMutation::CreateLabel { body: LabelArgs { id: Some(id), ..args } };
    let deleted = AreaMutation::DeleteLabel { label_id: id };
    let after = undoing::written(undoing::written(world, created), deleted);
    assert(after.labels =~= world.labels);
    let slots = seq![Some(ResolvedId::Label(id))];
    assert(command.resolved_ids.update(0, Some(ResolvedId::Label(id))) =~= slots);
    assert(restoring::step_ops(command.resolved_ids, redo[0], fresh[0]) =~= seq![created]);
    assert(restoring::step_ops(slots, undo[0], again[0]) =~= seq![deleted]);
    lemma_slot_pair(
        command,
        world,
        created,
        deleted,
        ResolvedId::Label(id),
        fresh,
        again,
        limit,
    );
}

/// Undoing the creation of a shape leaves rooms, labels, shapes and properties as they were.
pub proof fn law_undoing_a_new_shape_restores_drawings(
    world: World,
    area_id: AreaId,
    rect: Rect,
    level: i32,
    fresh: Seq<u128>,
    again: Seq<u128>,
    limit: int,
)
    requires
        limit > 0,
        !world.shapes.dom().contains(ShapeId(fresh[0])),
    ensures
        undoing::undo_restores(
            commands::new_command(
                seq![
                    Mutation::CreateShape {
                        area_id,
                        args: creation::new_shape(rect, level),
                        slot: 0,
                    },
                ],
                seq![Mutation::DeleteShape { area_id, id: IdRef::Slot(0) }],
            ),
            world,
            fresh,
            again,
            limit,
        ),
{
    let args = creation::new_shape(rect, level);
    let redo = seq![Mutation::CreateShape { area_id, args, slot: 0 }];
    let undo = seq![Mutation::DeleteShape { area_id, id: IdRef::Slot(0) }];
    let command: CommandView = commands::new_command(redo, undo);
    lemma_one_slot(redo[0], undo[0]);
    let id = ShapeId(fresh[0]);
    let created = AreaMutation::CreateShape { body: ShapeArgs { id: Some(id), ..args } };
    let deleted = AreaMutation::DeleteShape { shape_id: id };
    let after = undoing::written(undoing::written(world, created), deleted);
    assert(after.shapes =~= world.shapes);
    let slots = seq![Some(ResolvedId::Shape(id))];
    assert(command.resolved_ids.update(0, Some(ResolvedId::Shape(id))) =~= slots);
    assert(restoring::step_ops(command.resolved_ids, redo[0], fresh[0]) =~= seq![created]);
    assert(restoring::step_ops(slots, undo[0], again[0]) =~= seq![deleted]);
    lemma_slot_pair(
        command,
        world,
        created,
        deleted,
        ResolvedId::Shape(id),
        fresh,
        again,
        limit,
    );
}

/// Two mutations that name the first slot need a table of one.
pub(crate) proof fn lemma_one_slot(redo: MutationView, undo: MutationView)
    requires
        mutation::named_slot(redo) == Some(0usize),
        mutation::named_slot(undo) == Some(0usize),
    ensures
        mutation::slots_for_all(seq![redo] + seq![undo]) == 1,
{
    reveal_with_fuel(mutation::slots_for_all, 3);
    let both = seq![redo] + seq![undo];
    assert(both.drop_last() =~= seq![redo]);
    assert(seq![redo].drop_last() =~= Seq::empty());
}

/// Undoing the creation of a link leaves rooms, labels, shapes and properties as they
/// were: a room that was created with it goes.
pub proof fn law_undoing_a_new_link_restores_rooms(
    world: World,
    area_id: AreaId,
    ends: LinkEnds,
    options: NewLinkOptions<Seq<char>>,
    ids: LinkIds,
    fresh: Seq<u128>,
    again: Seq<u128>,
    limit: int,
)
    requires
        limit > 0,
        ends.to matches NewExitTarget::NewRoom { room_number, .. }
            ==> !world.rooms.dom().contains(room_number),
    ensures
        undoing::undo_restores(
            commands::new_command(
                seq![
                    edits::batch(
                        area_id,
                        creation::link_writes(area_id, ends, options, ids),
                        creation::link_intent(ends.to, options),
                    ),
                ],
                seq![
                    edits::batch(
                        area_id,
                        creation::link_inverse(ends.to, options, ids),
                        "Undo link creation"@,
                    ),
                ],
            ),
            world,
            fresh,
            again,
            limit,
        ),
{
    let redo = seq![
        edits::batch(
            area_id,
            creation::link_writes(area_id, ends, options, ids),
            creation::link_intent(ends.to, options),
        ),
    ];
    let undo = seq![
        edits::batch(area_id, creation::link_inverse(ends.to, options, ids), "Undo link creation"@),
    ];
    let command: CommandView = commands::new_command(redo, undo);
    undoing::lemma_flat_one(redo[0]);
    undoing::lemma_flat_one(undo[0]);
    let room = creation::link_room(ends.to);
    let rest = creation::link_connection(ends, options, ids) + seq![
        creation::link_forward(area_id, ends, options, ids),
    ] + creation::link_reverse(area_id, ends, options, ids);
    assert(undoing::flat(redo) =~= room + rest);
    undoing::lemma_all_written(world, room, rest);
    let made = undoing::all_written(world, room);
    restoring::lemma_kept(made, rest);
    let linked = undoing::all_written(world, undoing::flat(redo));
    assert(linked == made);
    reveal_with_fuel(undoing::all_written, 3);
    let inverse = creation::link_inverse(ends.to, options, ids);
    match ends.to {
        NewExitTarget::NewRoom { room_number, at, level } => {
            let op = AreaMutation::UpsertRoom { room_number, body: creation::new_room(at, level) };
            assert(room =~= seq![op]);
            undoing::lemma_one_written(world, op);
            let back = AreaMutation::DeleteRoom { room_number };
            assert(inverse =~= seq![inverse[0]] + seq![back]);
            undoing::lemma_all_written(made, seq![inverse[0]], seq![back]);
            undoing::lemma_one_written(made, inverse[0]);
            undoing::lemma_one_written(made, back);
            assert(undoing::written(made, back).rooms =~= world.rooms);
        },
        _ => {
            assert(room =~= Seq::empty());
            assert(inverse =~= seq![inverse[0]]);
            undoing::lemma_one_written(made, inverse[0]);
        },
    }
    undoing::lemma_plain_undo(command, world, fresh, again, limit);
}

// ===== Pastes =====

/// What pasted rooms leave of the others.
pub(crate) proof fn lemma_rooms_pasted(
    world: World,
    context: PasteContext,
    rooms: Seq<RoomClipView>,
    points: Seq<Point>,
)
    ensures
        ({
            let after = undoing::all_written(world, paste::rooms_writes(context, rooms, points));
            let numbers = paste::pasted_numbers(context, rooms);
            &&& after.labels == world.labels
            &&& after.shapes == world.shapes
            &&& after.properties == world.properties
            &&& forall|number: RoomNumber|
                #![trigger after.rooms.dom().contains(number)]
                !numbers.contains(number) ==> after.rooms.dom().contains(number)
                    == world.rooms.dom().contains(number)
            &&& forall|number: RoomNumber|
                #![trigger after.rooms[number]]
                !numbers.contains(number) ==> after.rooms[number] == world.rooms[number]
        }),
    decreases rooms.len(),
{
    let numbers = paste::pasted_numbers(context, rooms);
    if rooms.len() > 0 {
        let rest = rooms.drop_last();
        let last = rooms.last();
        let number = paste::pasted_number(context, last);
        lemma_rooms_pasted(world, context, rest, points);
        let early = paste::rooms_writes(context, rest, points);
        let late = paste::room_writes(context, last, points[rooms.len() - 1]);
        undoing::lemma_all_written(world, early, late);
        let before = undoing::all_written(world, early);
        let earlier = paste::pasted_numbers(context, rest);
        assert(numbers =~= earlier.push(number));
        assert forall|other: RoomNumber| !numbers.contains(other) implies !earlier.contains(other) && other
            != number by {
            assert(numbers[numbers.len() - 1] == number);
            if earlier.contains(other) {
                let k = choose|k: int| 0 <= k < earlier.len() && earlier[k] == other;
                assert(numbers[k] == other);
            }
        }
        assert forall|i: int| 0 <= i < late.len() implies writes_room(#[trigger] late[i], number) by {
            if i > 0 {
                let pairs = last.properties.map_values(
                    |pair: (Seq<char>, Seq<char>)| paste::pasted_property(number, pair),
                );
                assert(late[i] == pairs[i - 1]);
            }
        }
        lemma_one_room_written(before, late, number);
    }
}

/// Whether a write is to one room.
pub open spec fn writes_room(op: OpView, number: RoomNumber) -> bool {
    match op {
        AreaMutation::UpsertRoom { room_number, .. } => room_number == number,
        AreaMutation::UpsertRoomProperty { room_number, .. } => room_number == number,
        _ => false,
    }
}

/// Writes to one room leave everything else alone.
proof fn lemma_one_room_written(world: World, ops: Seq<OpView>, number: RoomNumber)
    requires
        forall|i: int| 0 <= i < ops.len() ==> writes_room(#[trigger] ops[i], number),
    ensures
        ({
            let after = undoing::all_written(world, ops);
            &&& after.labels == world.labels
            &&& after.shapes == world.shapes
            &&& after.properties == world.properties
            &&& forall|other: RoomNumber|
                #![trigger after.rooms.dom().contains(other)]
                other != number ==> after.rooms.dom().contains(other) == world.rooms.dom().contains(
                    other,
                )
            &&& forall|other: RoomNumber|
                #![trigger after.rooms[other]]
                other != number ==> after.rooms[other] == world.rooms[other]
        }),
    decreases ops.len(),
{
    if ops.len() > 0 {
        let rest = ops.drop_last();
        assert(writes_room(ops[ops.len() - 1], number));
        assert forall|i: int| 0 <= i < rest.len() implies writes_room(#[trigger] rest[i], number) by {
            assert(rest[i] == ops[i]);
        }
        lemma_one_room_written(world, rest, number);
    }
}

/// What the deletions of rooms leave.
proof fn lemma_rooms_removed(world: World, numbers: Seq<RoomNumber>)
    ensures
        ({
            let after = undoing::all_written(world, paste::room_deletes(numbers));
            &&& after.labels == world.labels
            &&& after.shapes == world.shapes
            &&& after.properties == world.properties
            &&& forall|number: RoomNumber|
                #![trigger after.rooms.dom().contains(number)]
                after.rooms.dom().contains(number) == (world.rooms.dom().contains(number)
                    && !numbers.contains(number))
            &&& forall|number: RoomNumber|
                #![trigger after.rooms[number]]
                !numbers.contains(number) ==> after.rooms[number] == world.rooms[number]
        }),
    decreases numbers.len(),
{
    if numbers.len() > 0 {
        let rest = numbers.drop_last();
        let last = numbers.last();
        lemma_rooms_removed(world, rest);
        assert(paste::room_deletes(numbers).drop_last() =~= paste::room_deletes(rest));
        assert(paste::room_deletes(numbers).last() == paste::room_delete(last));
        assert(numbers[numbers.len() - 1] == last);
        assert forall|number: RoomNumber|
            numbers.contains(number) == (rest.contains(number) || number == last) by {
            if numbers.contains(number) {
                let k = choose|k: int| 0 <= k < numbers.len() && numbers[k] == number;
                if k < rest.len() {
                    assert(rest[k] == number);
                }
            }
            if rest.contains(number) {
                let k = choose|k: int| 0 <= k < rest.len() && rest[k] == number;
                assert(numbers[k] == number);
            }
        }
    }
}

/// Whether a write is to an exit or a connection.
pub open spec fn writes_link(op: OpView) -> bool {
    match op {
        AreaMutation::CreateExit { .. } => true,
        AreaMutation::CreateConnection { .. } => true,
        AreaMutation::DeleteLink { .. } => true,
        _ => false,
    }
}

/// Writes to exits and connections leave the model as it is.
proof fn lemma_links_written(world: World, ops: Seq<OpView>)
    requires
        forall|i: int| 0 <= i < ops.len() ==> writes_link(#[trigger] ops[i]),
    ensures
        undoing::all_written(world, ops) == world,
    decreases ops.len(),
{
    if ops.len() > 0 {
        let rest = ops.drop_last();
        assert(writes_link(ops[ops.len() - 1]));
        assert forall|i: int| 0 <= i < rest.len() implies writes_link(#[trigger] rest[i]) by {
            assert(rest[i] == ops[i]);
        }
        lemma_links_written(world, rest);
    }
}

/// The exits that are pasted with rooms are writes to exits.
proof fn lemma_exits_are_links(
    context: PasteContext,
    rooms: Seq<RoomClipView>,
    ids: Seq<Vec<ExitId>>,
)
    ensures
        ({
            let ops = paste::rooms_exit_writes(context, rooms, ids);
            forall|i: int| 0 <= i < ops.len() ==> writes_link(#[trigger] ops[i])
        }),
    decreases rooms.len(),
{
    if rooms.len() > 0 {
        lemma_exits_are_links(context, rooms.drop_last(), ids);
        let early = paste::rooms_exit_writes(context, rooms.drop_last(), ids);
        let late = paste::room_exit_writes(context, rooms.last(), ids[rooms.len() - 1]@);
        let ops = paste::rooms_exit_writes(context, rooms, ids);
        assert forall|i: int| 0 <= i < ops.len() implies writes_link(#[trigger] ops[i]) by {
            if i < early.len() {
                assert(ops[i] == early[i]);
            } else {
                assert(ops[i] == late[i - early.len()]);
            }
        }
    }
}

/// The connections that are pasted are writes to exits and connections.
proof fn lemma_connections_are_links(
    context: PasteContext,
    clips: Seq<ConnectionClipView>,
    ids: PasteIds,
    routes: Seq<Vec<Point>>,
)
    ensures
        ({
            let all = paste::connections_paste(context, clips, ids, routes);
            &&& forall|i: int| 0 <= i < all.writes.len() ==> writes_link(#[trigger] all.writes[i])
            &&& forall|i: int|
                0 <= i < all.undo_links.len() ==> writes_link(#[trigger] all.undo_links[i])
        }),
    decreases clips.len(),
{
    if clips.len() > 0 {
        let before = paste::connections_paste(context, clips.drop_last(), ids, routes);
        lemma_connections_are_links(context, clips.drop_last(), ids, routes);
        let all = paste::connections_paste(context, clips, ids, routes);
        let clip = clips.last();
        let k = clips.len() - 1;
        let late = paste::connection_writes(
            context,
            clip,
            ids.connections@[k],
            ids.members@[k]@,
            routes[k]@,
        );
        assert forall|i: int| 0 <= i < late.len() implies writes_link(#[trigger] late[i]) by {}
        assert forall|i: int| 0 <= i < all.writes.len() implies writes_link(#[trigger] all.writes[i]) by {
            if i < before.writes.len() {
                assert(all.writes[i] == before.writes[i]);
            } else {
                assert(all.writes[i] == late[i - before.writes.len()]);
            }
        }
        assert forall|i: int| 0 <= i < all.undo_links.len() implies writes_link(
            #[trigger] all.undo_links[i],
        ) by {
            if i < before.undo_links.len() {
                assert(all.undo_links[i] == before.undo_links[i]);
            }
        }
    }
}

/// The writes of a paste and those that take it back leave the model as it was, when
/// the rooms went to vacant numbers.
proof fn lemma_paste_withdrawn(
    world: World,
    context: PasteContext,
    clipboard: ClipboardView,
    points: PastePoints,
    ids: PasteIds,
)
    requires
        forall|i: int|
            0 <= i < clipboard.rooms.len() ==> !world.rooms.dom().contains(
                #[trigger] paste::pasted_numbers(context, clipboard.rooms)[i],
            ),
    ensures
        ({
            let links = paste::connections_paste(
                context,
                clipboard.connections,
                ids,
                points.routes@,
            );
            let rooms = paste::pasted_numbers(context, clipboard.rooms);
            let written = undoing::all_written(
                world,
                paste::paste_writes(context, clipboard, points, ids),
            );
            &&& written.labels == world.labels && written.shapes == world.shapes
            &&& undoing::all_written(written, links.undo_links + paste::room_deletes(rooms)) == world
        }),
{
    let links = paste::connections_paste(context, clipboard.connections, ids, points.routes@);
    let rooms = paste::pasted_numbers(context, clipboard.rooms);
    let a = paste::rooms_writes(context, clipboard.rooms, points.rooms@);
    let b = paste::rooms_exit_writes(context, clipboard.rooms, ids.room_exits@);
    lemma_rooms_pasted(world, context, clipboard.rooms, points.rooms@);
    lemma_exits_are_links(context, clipboard.rooms, ids.room_exits@);
    lemma_connections_are_links(context, clipboard.connections, ids, points.routes@);
    let pasted = undoing::all_written(world, a);
    undoing::lemma_all_written(world, a, b);
    lemma_links_written(pasted, b);
    undoing::lemma_all_written(world, a + b, links.writes);
    lemma_links_written(pasted, links.writes);
    undoing::lemma_all_written(pasted, links.undo_links, paste::room_deletes(rooms));
    lemma_links_written(pasted, links.undo_links);
    lemma_rooms_removed(pasted, rooms);
    let after = undoing::all_written(pasted, paste::room_deletes(rooms));
    assert forall|number: RoomNumber|
        #![trigger after.rooms.dom().contains(number)]
        after.rooms.dom().contains(number) == world.rooms.dom().contains(number) by {
        if rooms.contains(number) {
            let i = choose|i: int| 0 <= i < rooms.len() && rooms[i] == number;
            assert(!world.rooms.dom().contains(rooms[i]));
        } else {
            assert(pasted.rooms.dom().contains(number) == world.rooms.dom().contains(number));
        }
    }
    assert forall|number: RoomNumber| world.rooms.dom().contains(number) implies
        #[trigger] after.rooms[number] == world.rooms[number] by {
        if rooms.contains(number) {
            let i = choose|i: int| 0 <= i < rooms.len() && rooms[i] == number;
            assert(!world.rooms.dom().contains(rooms[i]));
        }
        assert(pasted.rooms[number] == world.rooms[number]);
    }
    assert(after.rooms.dom() =~= world.rooms.dom());
    assert(after.rooms =~= world.rooms);
}

/// What pasted labels leave: each is there under a new identity, which its slot holds.
proof fn lemma_labels_pasted(
    world: World,
    start: CompiledView,
    area_id: AreaId,
    labels: Seq<LabelArgs<Seq<char>>>,
    points: Seq<Point>,
    same_area: bool,
    level: i32,
    fresh: Seq<u128>,
    command: commands::CommandId,
    limit: int,
)
    requires
        limit > 0,
        fresh.len() >= labels.len(),
        labels.len() <= start.resolved_ids.len(),
        labels.len() <= usize::MAX,
        forall|i: int| 0 <= i < labels.len() ==> (#[trigger] labels[i]).id is None,
    ensures
        ({
            let end = compile::compiled(
                start,
                paste::labels_pasted(area_id, labels, points, same_area, level),
                fresh,
                command,
                limit,
            );
            let before = undoing::staged(world, start.batches);
            let after = undoing::staged(world, end.batches);
            &&& after.shapes == before.shapes
            &&& end.resolved_ids.len() == start.resolved_ids.len()
            &&& forall|s: int|
                labels.len() <= s < start.resolved_ids.len() ==> #[trigger] end.resolved_ids[s]
                    == start.resolved_ids[s]
            &&& forall|i: int|
                #![trigger fresh[i]]
                0 <= i < labels.len() ==> end.resolved_ids[i] == Some(
                    ResolvedId::Label(LabelId(fresh[i])),
                )
            &&& forall|id: LabelId|
                #![trigger after.labels.dom().contains(id)]
                after.labels.dom().contains(id) == (before.labels.dom().contains(id)
                    || restoring::is_new_label(fresh, labels.len() as int, id))
            &&& forall|id: LabelId|
                #![trigger after.labels[id]]
                !restoring::is_new_label(fresh, labels.len() as int, id) ==> after.labels[id]
                    == before.labels[id]
            &&& fresh.no_duplicates() ==> forall|i: int|
                #![trigger fresh[i]]
                0 <= i < labels.len() ==> after.labels[LabelId(fresh[i])] == undoing::created_label(
                    LabelId(fresh[i]),
                    paste::pasted_label(labels[i], points[i], same_area, level),
                )
        }),
    decreases labels.len(),
{
    let mutations = paste::labels_pasted(area_id, labels, points, same_area, level);
    if labels.len() > 0 {
        let rest = labels.drop_last();
        let at = labels.len() - 1;
        let id = LabelId(fresh[at]);
        assert forall|i: int| 0 <= i < rest.len() implies (#[trigger] rest[i]).id is None by {
            assert(rest[i] == labels[i]);
        }
        lemma_labels_pasted(
            world,
            start,
            area_id,
            rest,
            points,
            same_area,
            level,
            fresh,
            command,
            limit,
        );
        let earlier = paste::labels_pasted(area_id, rest, points, same_area, level);
        assert(mutations.drop_last() =~= earlier);
        let middle = compile::compiled(start, earlier, fresh, command, limit);
        let end = compile::compiled(start, mutations, fresh, command, limit);
        restoring::lemma_step_staged(world, middle, mutations.last(), fresh[at], command, limit);
        assert(labels[at].id is None);
        let args = paste::pasted_label(labels[at], points[at], same_area, level);
        let op = AreaMutation::CreateLabel { body: LabelArgs { id: Some(id), ..args } };
        assert(restoring::step_ops(middle.resolved_ids, mutations.last(), fresh[at]) =~= seq![op]);
        let halfway = undoing::staged(world, middle.batches);
        undoing::lemma_one_written(halfway, op);
        assert(undoing::staged(world, end.batches) == undoing::written(halfway, op));
        if fresh.no_duplicates() {
            let after = undoing::staged(world, end.batches);
            assert forall|i: int|
                #![trigger fresh[i]]
                0 <= i < labels.len() implies after.labels[LabelId(fresh[i])] == undoing::created_label(
                LabelId(fresh[i]),
                paste::pasted_label(labels[i], points[i], same_area, level),
            ) by {
                if i < at {
                    assert(rest[i] == labels[i]);
                    assert(fresh[i] != fresh[at]);
                }
            }
        }
        assert forall|other: LabelId|
            restoring::is_new_label(fresh, labels.len() as int, other) == (restoring::is_new_label(
                fresh,
                rest.len() as int,
                other,
            ) || other == id) by {
            if restoring::is_new_label(fresh, rest.len() as int, other) {
                let i = choose|i: int| 0 <= i < rest.len() && LabelId(#[trigger] fresh[i]) == other;
                assert(LabelId(fresh[i]) == other);
            }
            assert(LabelId(fresh[at]) == id);
        }
    }
}

/// What pasted shapes leave: each is there under a new identity, which its slot holds.
proof fn lemma_shapes_pasted(
    world: World,
    start: CompiledView,
    area_id: AreaId,
    shapes: Seq<ShapeArgs<Seq<char>>>,
    points: Seq<Point>,
    same_area: bool,
    level: i32,
    base: int,
    fresh: Seq<u128>,
    command: commands::CommandId,
    limit: int,
)
    requires
        limit > 0,
        fresh.len() >= shapes.len(),
        0 <= base,
        base + shapes.len() <= start.resolved_ids.len(),
        base + shapes.len() <= usize::MAX,
        forall|i: int| 0 <= i < shapes.len() ==> (#[trigger] shapes[i]).id is None,
    ensures
        ({
            let end = compile::compiled(
                start,
                paste::shapes_pasted(area_id, shapes, points, same_area, level, base),
                fresh,
                command,
                limit,
            );
            let before = undoing::staged(world, start.batches);
            let after = undoing::staged(world, end.batches);
            &&& after.labels == before.labels
            &&& end.resolved_ids.len() == start.resolved_ids.len()
            &&& forall|s: int|
                0 <= s < base || base + shapes.len() <= s < start.resolved_ids.len() ==> #[trigger] end.resolved_ids[s]
                    == start.resolved_ids[s]
            &&& forall|i: int|
                #![trigger fresh[i]]
                0 <= i < shapes.len() ==> end.resolved_ids[base + i] == Some(
                    ResolvedId::Shape(ShapeId(fresh[i])),
                )
            &&& forall|id: ShapeId|
                #![trigger after.shapes.dom().contains(id)]
                after.shapes.dom().contains(id) == (before.shapes.dom().contains(id)
                    || restoring::is_new_shape(fresh, shapes.len() as int, id))
            &&& forall|id: ShapeId|
                #![trigger after.shapes[id]]
                !restoring::is_new_shape(fresh, shapes.len() as int, id) ==> after.shapes[id]
                    == before.shapes[id]
            &&& fresh.no_duplicates() ==> forall|i: int|
                #![trigger fresh[i]]
                0 <= i < shapes.len() ==> after.shapes[ShapeId(fresh[i])] == undoing::created_shape(
                    paste::pasted_shape(shapes[i], points[i], same_area, level),
                )
        }),
    decreases shapes.len(),
{
    let mutations = paste::shapes_pasted(area_id, shapes, points, same_area, level, base);
    if shapes.len() > 0 {
        let rest = shapes.drop_last();
        let at = shapes.len() - 1;
        let id = ShapeId(fresh[at]);
        assert forall|i: int| 0 <= i < rest.len() implies (#[trigger] rest[i]).id is None by {
            assert(rest[i] == shapes[i]);
        }
        lemma_shapes_pasted(
            world,
            start,
            area_id,
            rest,
            points,
            same_area,
            level,
            base,
            fresh,
            command,
            limit,
        );
        let earlier = paste::shapes_pasted(area_id, rest, points, same_area, level, base);
        assert(mutations.drop_last() =~= earlier);
        let middle = compile::compiled(start, earlier, fresh, command, limit);
        let end = compile::compiled(start, mutations, fresh, command, limit);
        restoring::lemma_step_staged(world, middle, mutations.last(), fresh[at], command, limit);
        assert(shapes[at].id is None);
        let args = paste::pasted_shape(shapes[at], points[at], same_area, level);
        let op = AreaMutation::CreateShape { body: ShapeArgs { id: Some(id), ..args } };
        assert(restoring::step_ops(middle.resolved_ids, mutations.last(), fresh[at]) =~= seq![op]);
        let halfway = undoing::staged(world, middle.batches);
        undoing::lemma_one_written(halfway, op);
        assert(undoing::staged(world, end.batches) == undoing::written(halfway, op));
        if fresh.no_duplicates() {
            let after = undoing::staged(world, end.batches);
            assert forall|i: int|
                #![trigger fresh[i]]
                0 <= i < shapes.len() implies after.shapes[ShapeId(fresh[i])] == undoing::created_shape(
                paste::pasted_shape(shapes[i], points[i], same_area, level),
            ) by {
                if i < at {
                    assert(rest[i] == shapes[i]);
                    assert(fresh[i] != fresh[at]);
                }
            }
        }
        assert forall|other: ShapeId|
            restoring::is_new_shape(fresh, shapes.len() as int, other) == (restoring::is_new_shape(
                fresh,
                rest.len() as int,
                other,
            ) || other == id) by {
            if restoring::is_new_shape(fresh, rest.len() as int, other) {
                let i = choose|i: int| 0 <= i < rest.len() && ShapeId(#[trigger] fresh[i]) == other;
                assert(ShapeId(fresh[i]) == other);
            }
            assert(ShapeId(fresh[at]) == id);
        }
    }
}

/// Mutations without writes of their own.
proof fn lemma_flat_none(mutations: Seq<MutationView>)
    requires
        forall|i: int|
            0 <= i < mutations.len() ==> undoing::plain_ops(#[trigger] mutations[i]).len() == 0,
    ensures
        undoing::flat(mutations) == Seq::<OpView>::empty(),
    decreases mutations.len(),
{
    if mutations.len() > 0 {
        let rest = mutations.drop_last();
        assert(undoing::plain_ops(mutations[mutations.len() - 1]).len() == 0);
        assert forall|i: int| 0 <= i < rest.len() implies undoing::plain_ops(
            #[trigger] rest[i],
        ).len() == 0 by {
            assert(rest[i] == mutations[i]);
        }
        lemma_flat_none(rest);
        assert(undoing::flat(mutations) =~= Seq::empty());
    }
}

/// Writes as one mutation, when there are any.
pub open spec fn as_batch(area_id: AreaId, present: bool, ops: Seq<OpView>, description: Seq<char>) -> Seq<
    MutationView,
> {
    if present {
        seq![edits::batch(area_id, ops, description)]
    } else {
        Seq::empty()
    }
}

/// The labels that are created, in slot order.
pub open spec fn new_labels(fresh: Seq<u128>, n: nat) -> Seq<LabelId> {
    Seq::new(n, |i: int| LabelId(fresh[i]))
}

/// The shapes that are created, in slot order.
pub open spec fn new_shapes(fresh: Seq<u128>, n: nat) -> Seq<ShapeId> {
    Seq::new(n, |i: int| ShapeId(fresh[i]))
}

/// Whether a world has the drawings of another and new ones besides.
pub open spec fn drawings_added(
    after: World,
    before: World,
    labels: Seq<LabelId>,
    shapes: Seq<ShapeId>,
) -> bool {
    &&& forall|id: LabelId|
        #![trigger after.labels.dom().contains(id)]
        after.labels.dom().contains(id) == (before.labels.dom().contains(id) || labels.contains(id))
    &&& forall|id: LabelId|
        #![trigger after.labels[id]]
        !labels.contains(id) ==> after.labels[id] == before.labels[id]
    &&& forall|id: ShapeId|
        #![trigger after.shapes.dom().contains(id)]
        after.shapes.dom().contains(id) == (before.shapes.dom().contains(id) || shapes.contains(id))
    &&& forall|id: ShapeId|
        #![trigger after.shapes[id]]
        !shapes.contains(id) ==> after.shapes[id] == before.shapes[id]
}

/// Whether new drawings are those that writes with copied bodies create.
pub open spec fn drawings_filled(
    after: World,
    labels: Seq<LabelId>,
    shapes: Seq<ShapeId>,
    clipboard: ClipboardView,
    points: PastePoints,
    same_area: bool,
    level: i32,
) -> bool {
    &&& forall|i: int|
        #![trigger labels[i]]
        0 <= i < labels.len() ==> after.labels[labels[i]] == undoing::created_label(
            labels[i],
            paste::pasted_label(clipboard.labels[i], points.labels@[i], same_area, level),
        )
    &&& forall|i: int|
        #![trigger shapes[i]]
        0 <= i < shapes.len() ==> after.shapes[shapes[i]] == undoing::created_shape(
            paste::pasted_shape(clipboard.shapes[i], points.shapes@[i], same_area, level),
        )
}

/// What a paste leaves of the drawings and of the slot table.
pub(crate) proof fn lemma_drawings_pasted(
    world: World,
    start: CompiledView,
    head: Seq<MutationView>,
    area_id: AreaId,
    clipboard: ClipboardView,
    points: PastePoints,
    same_area: bool,
    level: i32,
    fresh: Seq<u128>,
    command: commands::CommandId,
    limit: int,
)
    requires
        limit > 0,
        start.batches.len() == 0,
        forall|i: int|
            0 <= i < head.len() ==> restoring::spares_labels(#[trigger] head[i])
                && restoring::spares_shapes(head[i]) && mutation::filled_slot(head[i]) is None,
        fresh.len() >= head.len() + clipboard.labels.len() + clipboard.shapes.len(),
        clipboard.labels.len() + clipboard.shapes.len() <= start.resolved_ids.len(),
        clipboard.labels.len() + clipboard.shapes.len() <= usize::MAX,
        forall|i: int| 0 <= i < clipboard.labels.len() ==> (#[trigger] clipboard.labels[i]).id is None,
        forall|i: int| 0 <= i < clipboard.shapes.len() ==> (#[trigger] clipboard.shapes[i]).id is None,
    ensures
        ({
            let labels = clipboard.labels.len();
            let shapes = clipboard.shapes.len();
            let end = compile::compiled(
                start,
                head + paste::labels_pasted(
                    area_id,
                    clipboard.labels,
                    points.labels@,
                    same_area,
                    level,
                ) + paste::shapes_pasted(
                    area_id,
                    clipboard.shapes,
                    points.shapes@,
                    same_area,
                    level,
                    labels as int,
                ),
                fresh,
                command,
                limit,
            );
            let label_ids = new_labels(fresh.skip(head.len() as int), labels);
            let shape_ids = new_shapes(fresh.skip((head.len() + labels) as int), shapes);
            &&& drawings_added(undoing::staged(world, end.batches), world, label_ids, shape_ids)
            &&& fresh.no_duplicates() ==> drawings_filled(
                undoing::staged(world, end.batches),
                label_ids,
                shape_ids,
                clipboard,
                points,
                same_area,
                level,
            )
            &&& end.resolved_ids.len() == start.resolved_ids.len()
            &&& forall|i: int|
                #![trigger label_ids[i]]
                0 <= i < labels ==> end.resolved_ids[0 + i] == Some(ResolvedId::Label(label_ids[i]))
            &&& forall|i: int|
                #![trigger shape_ids[i]]
                0 <= i < shapes ==> end.resolved_ids[labels + i] == Some(
                    ResolvedId::Shape(shape_ids[i]),
                )
        }),
{
    let labels = clipboard.labels.len();
    let shapes = clipboard.shapes.len();
    let b = paste::labels_pasted(area_id, clipboard.labels, points.labels@, same_area, level);
    let c = paste::shapes_pasted(
        area_id,
        clipboard.shapes,
        points.shapes@,
        same_area,
        level,
        labels as int,
    );
    restoring::lemma_compiled_concat(start, head + b, c, fresh, command, limit);
    restoring::lemma_compiled_concat(start, head, b, fresh, command, limit);
    let first = compile::compiled(start, head, fresh, command, limit);
    let for_labels = fresh.skip(head.len() as int);
    let second = compile::compiled(first, b, for_labels, command, limit);
    let for_shapes = fresh.skip((head + b).len() as int);
    let third = compile::compiled(second, c, for_shapes, command, limit);
    restoring::lemma_labels_left(world, start, head, fresh, command, limit);
    restoring::lemma_shapes_left(world, start, head, fresh, command, limit);
    assert(undoing::ops_of(start.batches) =~= Seq::empty());
    lemma_labels_pasted(
        world,
        first,
        area_id,
        clipboard.labels,
        points.labels@,
        same_area,
        level,
        for_labels,
        command,
        limit,
    );
    lemma_shapes_pasted(
        world,
        second,
        area_id,
        clipboard.shapes,
        points.shapes@,
        same_area,
        level,
        labels as int,
        for_shapes,
        command,
        limit,
    );
    let label_ids = new_labels(for_labels, labels);
    let shape_ids = new_shapes(for_shapes, shapes);
    assert forall|id: LabelId| restoring::is_new_label(for_labels, labels as int, id) == label_ids.contains(
        id,
    ) by {
        if restoring::is_new_label(for_labels, labels as int, id) {
            let i = choose|i: int| 0 <= i < labels && LabelId(#[trigger] for_labels[i]) == id;
            assert(label_ids[i] == id);
        }
        if label_ids.contains(id) {
            let i = choose|i: int| 0 <= i < label_ids.len() && label_ids[i] == id;
            assert(LabelId(for_labels[i]) == id);
        }
    }
    assert forall|id: ShapeId| restoring::is_new_shape(for_shapes, shapes as int, id) == shape_ids.contains(
        id,
    ) by {
        if restoring::is_new_shape(for_shapes, shapes as int, id) {
            let i = choose|i: int| 0 <= i < shapes && ShapeId(#[trigger] for_shapes[i]) == id;
            assert(shape_ids[i] == id);
        }
        if shape_ids.contains(id) {
            let i = choose|i: int| 0 <= i < shape_ids.len() && shape_ids[i] == id;
            assert(ShapeId(for_shapes[i]) == id);
        }
    }
    assert forall|i: int|
        #![trigger label_ids[i]]
        0 <= i < labels implies third.resolved_ids[0 + i] == Some(ResolvedId::Label(label_ids[i])) by {
        assert(label_ids[i] == LabelId(for_labels[i]));
        assert(third.resolved_ids[i] == second.resolved_ids[i]);
    }
    assert forall|i: int|
        #![trigger shape_ids[i]]
        0 <= i < shapes implies third.resolved_ids[labels + i] == Some(
        ResolvedId::Shape(shape_ids[i]),
    ) by {
        assert(shape_ids[i] == ShapeId(for_shapes[i]));
    }
    if fresh.no_duplicates() {
        let after = undoing::staged(world, third.batches);
        assert(for_labels.no_duplicates());
        assert(for_shapes.no_duplicates());
        assert forall|i: int|
            #![trigger label_ids[i]]
            0 <= i < label_ids.len() implies after.labels[label_ids[i]] == undoing::created_label(
            label_ids[i],
            paste::pasted_label(clipboard.labels[i], points.labels@[i], same_area, level),
        ) by {
            assert(label_ids[i] == LabelId(for_labels[i]));
        }
        assert forall|i: int|
            #![trigger shape_ids[i]]
            0 <= i < shape_ids.len() implies after.shapes[shape_ids[i]] == undoing::created_shape(
            paste::pasted_shape(clipboard.shapes[i], points.shapes@[i], same_area, level),
        ) by {
            assert(shape_ids[i] == ShapeId(for_shapes[i]));
        }
    }
}

/// What deleting the pasted drawings leaves.
proof fn lemma_drawings_withdrawn(
    world: World,
    start: CompiledView,
    head: Seq<MutationView>,
    area_id: AreaId,
    labels: Seq<LabelId>,
    shapes: Seq<ShapeId>,
    again: Seq<u128>,
    command: commands::CommandId,
    limit: int,
)
    requires
        limit > 0,
        start.batches.len() == 0,
        forall|i: int|
            0 <= i < head.len() ==> restoring::spares_labels(#[trigger] head[i])
                && restoring::spares_shapes(head[i]) && mutation::filled_slot(head[i]) is None,
        again.len() >= head.len() + labels.len() + shapes.len(),
        labels.len() + shapes.len() <= start.resolved_ids.len(),
        labels.len() + shapes.len() <= usize::MAX,
        forall|i: int|
            #![trigger labels[i]]
            0 <= i < labels.len() ==> start.resolved_ids[0 + i] == Some(ResolvedId::Label(labels[i])),
        forall|i: int|
            #![trigger shapes[i]]
            0 <= i < shapes.len() ==> start.resolved_ids[labels.len() + i] == Some(
                ResolvedId::Shape(shapes[i]),
            ),
    ensures
        ({
            let end = compile::compiled(
                start,
                head + deletion::labels_deleted(area_id, labels.len(), 0)
                    + deletion::shapes_deleted(area_id, shapes.len(), labels.len() as int),
                again,
                command,
                limit,
            );
            let after = undoing::staged(world, end.batches);
            &&& forall|id: LabelId|
                #![trigger after.labels.dom().contains(id)]
                after.labels.dom().contains(id) == (world.labels.dom().contains(id)
                    && !labels.contains(id))
            &&& forall|id: LabelId|
                #![trigger after.labels[id]]
                !labels.contains(id) ==> after.labels[id] == world.labels[id]
            &&& forall|id: ShapeId|
                #![trigger after.shapes.dom().contains(id)]
                after.shapes.dom().contains(id) == (world.shapes.dom().contains(id)
                    && !shapes.contains(id))
            &&& forall|id: ShapeId|
                #![trigger after.shapes[id]]
                !shapes.contains(id) ==> after.shapes[id] == world.shapes[id]
        }),
{
    let b = deletion::labels_deleted(area_id, labels.len(), 0);
    let c = deletion::shapes_deleted(area_id, shapes.len(), labels.len() as int);
    restoring::lemma_compiled_concat(start, head + b, c, again, command, limit);
    restoring::lemma_compiled_concat(start, head, b, again, command, limit);
    let first = compile::compiled(start, head, again, command, limit);
    let for_labels = again.skip(head.len() as int);
    let second = compile::compiled(first, b, for_labels, command, limit);
    let for_shapes = again.skip((head + b).len() as int);
    restoring::lemma_labels_left(world, start, head, again, command, limit);
    restoring::lemma_shapes_left(world, start, head, again, command, limit);
    assert(undoing::ops_of(start.batches) =~= Seq::empty());
    restoring::lemma_labels_deleted(world, first, area_id, labels, 0, for_labels, command, limit);
    restoring::lemma_shapes_deleted(
        world,
        second,
        area_id,
        shapes,
        labels.len() as int,
        for_shapes,
        command,
        limit,
    );
}

/// Pasted rooms go to numbers that no room has.
pub(crate) proof fn lemma_numbers_vacant(
    atlas: AtlasCache,
    area: AreaCache,
    area_id: AreaId,
    clipboard: ClipboardView,
    next_room_number: Option<RoomNumber>,
)
    requires
        atlas.area(area_id) == Some(area),
        paste::rooms_fit(atlas, area_id, clipboard, next_room_number),
    ensures
        ({
            let context = paste::paste_context(atlas, area, area_id, clipboard, next_room_number);
            let numbers = paste::pasted_numbers(context, clipboard.rooms);
            forall|i: int|
                0 <= i < clipboard.rooms.len() ==> !undoing::world_of(area).rooms.dom().contains(
                    #[trigger] numbers[i],
                )
        }),
{
    let context = paste::paste_context(atlas, area, area_id, clipboard, next_room_number);
    let numbers = paste::pasted_numbers(context, clipboard.rooms);
    let source = paste::source_numbers(clipboard.rooms);
    let occupied = paste::occupied_numbers(area);
    let base = paste::fresh_base(area, next_room_number);
    let targets = paste::remap_targets(source, occupied, base, !context.same_area);
    paste::law_remap_targets_are_vacant_and_distinct(source, occupied, base, !context.same_area);
    assert forall|i: int| 0 <= i < clipboard.rooms.len() implies !undoing::world_of(
        area,
    ).rooms.dom().contains(#[trigger] numbers[i]) by {
        assert(context.mapping[i].0 == clipboard.rooms[i].room_number);
        paste::lemma_mapped_target(context.mapping, i);
        let j = choose|j: int|
            0 <= j < context.mapping.len() && (#[trigger] context.mapping[j]).1 == paste::mapped(
                context.mapping,
                context.mapping[i].0,
            )->0;
        assert(targets[j] == numbers[i]);
        assert(!occupied.contains(targets[j]));
        if area.room(numbers[i]) is Some {
            let number = numbers[i];
            list::lemma_first_exists(
                area.rooms@,
                |item: super::model::RoomCache| item.room_number == number,
            );
            let room = area.room(number)->0;
            let k = choose|k: int| 0 <= k < area.rooms@.len() && area.rooms@[k] == room;
            assert(occupied[k] == number);
        }
    }
}

/// The slot table of a paste holds every drawing.
pub(crate) proof fn lemma_paste_slots(
    head: Seq<MutationView>,
    labels: Seq<MutationView>,
    shapes: Seq<MutationView>,
    undo: Seq<MutationView>,
)
    requires
        labels.len() + shapes.len() <= usize::MAX,
        forall|i: int|
            0 <= i < labels.len() ==> mutation::named_slot(#[trigger] labels[i]) == Some(i as usize),
        forall|i: int|
            0 <= i < shapes.len() ==> mutation::named_slot(#[trigger] shapes[i]) == Some(
                (labels.len() + i) as usize,
            ),
    ensures
        mutation::slots_for_all(head + labels + shapes + undo) >= labels.len() + shapes.len(),
{
    let all = head + labels + shapes + undo;
    if shapes.len() > 0 {
        let k = shapes.len() - 1;
        let at = head.len() + labels.len() + k;
        assert(all[at as int] == shapes[k]);
        commands::lemma_slots_for_all(all, at as int);
    } else if labels.len() > 0 {
        let k = labels.len() - 1;
        let at = head.len() + k;
        assert(all[at as int] == labels[k]);
        commands::lemma_slots_for_all(all, at as int);
    }
}

/// The writes of a paste do to rooms and drawings what those of its rooms do.
pub(crate) proof fn lemma_paste_written(
    world: World,
    context: PasteContext,
    clipboard: ClipboardView,
    points: PastePoints,
    ids: PasteIds,
)
    ensures
        undoing::all_written(world, paste::paste_writes(context, clipboard, points, ids))
            == undoing::all_written(
            world,
            paste::rooms_writes(context, clipboard.rooms, points.rooms@),
        ),
{
    let links = paste::connections_paste(context, clipboard.connections, ids, points.routes@);
    let a = paste::rooms_writes(context, clipboard.rooms, points.rooms@);
    let b = paste::rooms_exit_writes(context, clipboard.rooms, ids.room_exits@);
    lemma_exits_are_links(context, clipboard.rooms, ids.room_exits@);
    lemma_connections_are_links(context, clipboard.connections, ids, points.routes@);
    let pasted = undoing::all_written(world, a);
    undoing::lemma_all_written(world, a, b);
    lemma_links_written(pasted, b);
    undoing::lemma_all_written(world, a + b, links.writes);
    lemma_links_written(pasted, links.writes);
}

/// The rooms and properties after a paste are those that its writes leave.
pub(crate) proof fn lemma_paste_rooms(
    world: World,
    atlas: AtlasCache,
    area_id: AreaId,
    clipboard: ClipboardView,
    level: i32,
    points: PastePoints,
    ids: PasteIds,
    next_room_number: Option<RoomNumber>,
    limit: int,
    fresh: Seq<u128>,
)
    requires
        limit > 0,
    ensures
        paste::pasted(
            atlas,
            area_id,
            clipboard,
            level,
            points,
            ids,
            next_room_number,
            limit,
        ).command matches Some(command) ==> {
            let area = atlas.area(area_id)->0;
            let context = paste::paste_context(atlas, area, area_id, clipboard, next_room_number);
            let after = undoing::staged(
                world,
                compile::compiled_direction(command, Direction::Redo, fresh, limit).batches,
            );
            let written = undoing::all_written(
                world,
                paste::paste_writes(context, clipboard, points, ids),
            );
            after.rooms == written.rooms && after.properties == written.properties
        },
{
    if let Some(command) = paste::pasted(
        atlas,
        area_id,
        clipboard,
        level,
        points,
        ids,
        next_room_number,
        limit,
    ).command {
        let area = atlas.area(area_id)->0;
        let context = paste::paste_context(atlas, area, area_id, clipboard, next_room_number);
        let writes = paste::paste_writes(context, clipboard, points, ids);
        let rooms = paste::pasted_numbers(context, clipboard.rooms);
        let present = writes.len() != 0;
        let labels = clipboard.labels.len();
        let a = as_batch(area_id, present, writes, paste::paste_description(rooms.len()));
        let b = paste::labels_pasted(
            area_id,
            clipboard.labels,
            points.labels@,
            context.same_area,
            level,
        );
        let c = paste::shapes_pasted(
            area_id,
            clipboard.shapes,
            points.shapes@,
            context.same_area,
            level,
            labels as int,
        );
        assert(command.redo =~= a + b + c);
        let start = restoring::compile_start(command);
        restoring::lemma_compiled_rooms(world, start, command.redo, fresh, command.id, limit);
        assert(undoing::ops_of(Seq::<BatchView>::empty()) =~= Seq::empty());
        lemma_paste_flat(a, b, c, if present { writes } else { Seq::empty() });
        if !present {
            assert(writes =~= Seq::empty());
        }
    }
}

/// Undoing a paste leaves rooms, labels, shapes and properties as they were.
pub proof fn law_undoing_a_paste_restores_rooms_and_drawings(
    atlas: AtlasCache,
    area_id: AreaId,
    clipboard: ClipboardView,
    level: i32,
    points: PastePoints,
    ids: PasteIds,
    next_room_number: Option<RoomNumber>,
    fresh: Seq<u128>,
    again: Seq<u128>,
    limit: int,
)
    requires
        limit > 0,
        paste::rooms_fit(atlas, area_id, clipboard, next_room_number),
        clipboard.labels.len() + clipboard.shapes.len() <= usize::MAX,
        forall|i: int| 0 <= i < clipboard.labels.len() ==> (#[trigger] clipboard.labels[i]).id is None,
        forall|i: int| 0 <= i < clipboard.shapes.len() ==> (#[trigger] clipboard.shapes[i]).id is None,
        atlas.area(area_id) matches Some(area) ==> restoring::are_vacant(
            undoing::world_of(area),
            fresh,
        ),
        fresh.len() >= 1 + clipboard.labels.len() + clipboard.shapes.len(),
        again.len() >= 1 + clipboard.labels.len() + clipboard.shapes.len(),
    ensures
        paste::pasted(
            atlas,
            area_id,
            clipboard,
            level,
            points,
            ids,
            next_room_number,
            limit,
        ).command matches Some(command) ==> undoing::undo_restores(
            command,
            undoing::world_of(atlas.area(area_id)->0),
            fresh,
            again,
            limit,
        ),
{
    if let Some(command) = paste::pasted(
        atlas,
        area_id,
        clipboard,
        level,
        points,
        ids,
        next_room_number,
        limit,
    ).command {
        let area = atlas.area(area_id)->0;
        let world = undoing::world_of(area);
        let context = paste::paste_context(atlas, area, area_id, clipboard, next_room_number);
        let writes = paste::paste_writes(context, clipboard, points, ids);
        let links = paste::connections_paste(
            context,
            clipboard.connections,
            ids,
            points.routes@,
        );
        let rooms = paste::pasted_numbers(context, clipboard.rooms);
        let back_ops = links.undo_links + paste::room_deletes(rooms);
        let present = writes.len() != 0;
        let labels = clipboard.labels.len();
        let shapes = clipboard.shapes.len();
        let a = as_batch(area_id, present, writes, paste::paste_description(rooms.len()));
        let b = paste::labels_pasted(
            area_id,
            clipboard.labels,
            points.labels@,
            context.same_area,
            level,
        );
        let c = paste::shapes_pasted(
            area_id,
            clipboard.shapes,
            points.shapes@,
            context.same_area,
            level,
            labels as int,
        );
        let u = as_batch(area_id, present, back_ops, "Undo paste"@);
        let v = deletion::labels_deleted(area_id, labels, 0);
        let w = deletion::shapes_deleted(area_id, shapes, labels as int);
        assert(command.redo =~= a + b + c);
        assert(command.undo =~= u + v + w);
        lemma_numbers_vacant(atlas, area, area_id, clipboard, next_room_number);
        lemma_paste_withdrawn(world, context, clipboard, points, ids);
        lemma_paste_slots(a, b, c, command.undo);
        lemma_paste_spares(context, clipboard, points, ids);

        let start = restoring::compile_start(command);
        lemma_drawings_pasted(
            world,
            start,
            a,
            area_id,
            clipboard,
            points,
            context.same_area,
            level,
            fresh,
            command.id,
            limit,
        );
        let done = compile::compiled_direction(command, Direction::Redo, fresh, limit);
        let middle = undoing::staged(world, done.batches);
        let settled = CommandView { resolved_ids: done.resolved_ids, pending: 0, ..command };
        let again_start = restoring::compile_start(settled);
        let label_ids = new_labels(fresh.skip(a.len() as int), labels);
        let shape_ids = new_shapes(fresh.skip((a.len() + labels) as int), shapes);
        lemma_drawings_withdrawn(
            middle,
            again_start,
            u,
            area_id,
            label_ids,
            shape_ids,
            again,
            command.id,
            limit,
        );
        let back = compile::compiled_direction(settled, Direction::Undo, again, limit);
        assert(command.undo == u + deletion::labels_deleted(area_id, label_ids.len(), 0)
            + deletion::shapes_deleted(area_id, shape_ids.len(), label_ids.len() as int));
        assert(back == compile::compiled(again_start, command.undo, again, command.id, limit));
        let after = undoing::staged(middle, back.batches);
        lemma_new_drawings_vacant(world, fresh, a.len() as int, labels, shapes);
        assert(after.labels =~= world.labels) by {
            assert forall|id: LabelId| world.labels.dom().contains(id) implies !label_ids.contains(id) by {}
            assert(after.labels.dom() =~= world.labels.dom()) by {
                assert forall|id: LabelId|
                    #![trigger after.labels.dom().contains(id)]
                    after.labels.dom().contains(id) == world.labels.dom().contains(id) by {
                    assert(middle.labels.dom().contains(id) == (world.labels.dom().contains(id)
                        || label_ids.contains(id)));
                    assert(after.labels.dom().contains(id) == (middle.labels.dom().contains(id)
                        && !label_ids.contains(id)));
                }
            }
            assert forall|id: LabelId| world.labels.dom().contains(id) implies
                #[trigger] after.labels[id] == world.labels[id] by {
                assert(middle.labels[id] == world.labels[id]);
            }
        }
        assert(after.shapes =~= world.shapes) by {
            assert forall|id: ShapeId| world.shapes.dom().contains(id) implies !shape_ids.contains(id) by {}
            assert(after.shapes.dom() =~= world.shapes.dom()) by {
                assert forall|id: ShapeId|
                    #![trigger after.shapes.dom().contains(id)]
                    after.shapes.dom().contains(id) == world.shapes.dom().contains(id) by {
                    assert(middle.shapes.dom().contains(id) == (world.shapes.dom().contains(id)
                        || shape_ids.contains(id)));
                }
            }
            assert forall|id: ShapeId| world.shapes.dom().contains(id) implies
                #[trigger] after.shapes[id] == world.shapes[id] by {
                assert(middle.shapes[id] == world.shapes[id]);
            }
        }
        restoring::lemma_compiled_rooms(world, start, command.redo, fresh, command.id, limit);
        restoring::lemma_compiled_rooms(
            middle,
            again_start,
            command.undo,
            again,
            command.id,
            limit,
        );
        assert(undoing::ops_of(Seq::<BatchView>::empty()) =~= Seq::empty());
        lemma_paste_flat(a, b, c, if present { writes } else { Seq::empty() });
        lemma_paste_flat(u, v, w, if present { back_ops } else { Seq::empty() });
        let written = undoing::all_written(world, undoing::flat(command.redo));
        restoring::lemma_alike(middle, written, undoing::flat(command.undo));
        if present {
        } else {
            assert(undoing::flat(command.redo) =~= Seq::empty());
            assert(undoing::flat(command.undo) =~= Seq::empty());
        }
        assert(after =~= world);
    }
}

/// New drawings are none that were there.
proof fn lemma_new_drawings_vacant(world: World, fresh: Seq<u128>, at: int, labels: nat, shapes: nat)
    requires
        restoring::are_vacant(world, fresh),
        0 <= at,
        at + labels + shapes <= fresh.len(),
    ensures
        forall|id: LabelId|
            #![trigger world.labels.dom().contains(id)]
            world.labels.dom().contains(id) ==> !new_labels(fresh.skip(at), labels).contains(id),
        forall|id: ShapeId|
            #![trigger world.shapes.dom().contains(id)]
            world.shapes.dom().contains(id) ==> !new_shapes(
                fresh.skip((at + labels) as int),
                shapes,
            ).contains(id),
{
    let label_ids = new_labels(fresh.skip(at), labels);
    let shape_ids = new_shapes(fresh.skip((at + labels) as int), shapes);
    assert forall|id: LabelId|
        #![trigger world.labels.dom().contains(id)]
        world.labels.dom().contains(id) implies !label_ids.contains(id) by {
        if label_ids.contains(id) {
            let i = choose|i: int| 0 <= i < label_ids.len() && label_ids[i] == id;
            assert(LabelId(fresh[at + i]) == id);
        }
    }
    assert forall|id: ShapeId|
        #![trigger world.shapes.dom().contains(id)]
        world.shapes.dom().contains(id) implies !shape_ids.contains(id) by {
        if shape_ids.contains(id) {
            let i = choose|i: int| 0 <= i < shape_ids.len() && shape_ids[i] == id;
            assert(ShapeId(fresh[at + labels + i]) == id);
        }
    }
}

/// The writes of a paste, and those that take it back, leave drawings alone.
pub(crate) proof fn lemma_paste_spares(
    context: PasteContext,
    clipboard: ClipboardView,
    points: PastePoints,
    ids: PasteIds,
)
    ensures
        restoring::all_keep_labels(paste::paste_writes(context, clipboard, points, ids)),
        restoring::all_keep_shapes(paste::paste_writes(context, clipboard, points, ids)),
        ({
            let links = paste::connections_paste(
                context,
                clipboard.connections,
                ids,
                points.routes@,
            );
            let rooms = paste::pasted_numbers(context, clipboard.rooms);
            let back_ops = links.undo_links + paste::room_deletes(rooms);
            restoring::all_keep_labels(back_ops) && restoring::all_keep_shapes(back_ops)
        }),
{
    let links = paste::connections_paste(context, clipboard.connections, ids, points.routes@);
    let a = paste::rooms_writes(context, clipboard.rooms, points.rooms@);
    let b = paste::rooms_exit_writes(context, clipboard.rooms, ids.room_exits@);
    lemma_rooms_writes_keep(context, clipboard.rooms, points.rooms@);
    lemma_exits_are_links(context, clipboard.rooms, ids.room_exits@);
    lemma_connections_are_links(context, clipboard.connections, ids, points.routes@);
    let writes = paste::paste_writes(context, clipboard, points, ids);
    assert forall|i: int| 0 <= i < writes.len() implies restoring::keeps_labels(#[trigger] writes[i])
        && restoring::keeps_shapes(writes[i]) by {
        if i < a.len() {
            assert(writes[i] == a[i]);
        } else if i < a.len() + b.len() {
            assert(writes[i] == b[i - a.len()]);
            assert(writes_link(b[i - a.len()]));
        } else {
            assert(writes[i] == links.writes[i - a.len() - b.len()]);
            assert(writes_link(links.writes[i - a.len() - b.len()]));
        }
    }
    let rooms = paste::pasted_numbers(context, clipboard.rooms);
    let back_ops = links.undo_links + paste::room_deletes(rooms);
    assert forall|i: int| 0 <= i < back_ops.len() implies restoring::keeps_labels(
        #[trigger] back_ops[i],
    ) && restoring::keeps_shapes(back_ops[i]) by {
        if i < links.undo_links.len() {
            assert(back_ops[i] == links.undo_links[i]);
            assert(writes_link(links.undo_links[i]));
        } else {
            assert(back_ops[i] == paste::room_delete(rooms[i - links.undo_links.len()]));
        }
    }
}

/// The writes that paste rooms leave drawings alone.
proof fn lemma_rooms_writes_keep(context: PasteContext, rooms: Seq<RoomClipView>, points: Seq<Point>)
    ensures
        ({
            let ops = paste::rooms_writes(context, rooms, points);
            forall|i: int|
                0 <= i < ops.len() ==> restoring::keeps_labels(#[trigger] ops[i])
                    && restoring::keeps_shapes(ops[i])
        }),
    decreases rooms.len(),
{
    if rooms.len() > 0 {
        lemma_rooms_writes_keep(context, rooms.drop_last(), points);
        let early = paste::rooms_writes(context, rooms.drop_last(), points);
        let late = paste::room_writes(context, rooms.last(), points[rooms.len() - 1]);
        let ops = paste::rooms_writes(context, rooms, points);
        let number = paste::pasted_number(context, rooms.last());
        assert forall|i: int| 0 <= i < ops.len() implies restoring::keeps_labels(#[trigger] ops[i])
            && restoring::keeps_shapes(ops[i]) by {
            if i < early.len() {
                assert(ops[i] == early[i]);
            } else {
                assert(ops[i] == late[i - early.len()]);
            }
        }
    }
}

/// The writes to rooms of a batch followed by drawings are those of the batch.
proof fn lemma_paste_flat(
    head: Seq<MutationView>,
    labels: Seq<MutationView>,
    shapes: Seq<MutationView>,
    ops: Seq<OpView>,
)
    requires
        head.len() <= 1,
        head.len() == 1 ==> undoing::plain_ops(head[0]) == ops,
        head.len() == 0 ==> ops.len() == 0,
        forall|i: int| 0 <= i < labels.len() ==> undoing::plain_ops(#[trigger] labels[i]).len() == 0,
        forall|i: int| 0 <= i < shapes.len() ==> undoing::plain_ops(#[trigger] shapes[i]).len() == 0,
    ensures
        undoing::flat(head + labels + shapes) == ops,
{
    let f = |mutation: MutationView| undoing::plain_ops(mutation);
    undoing::lemma_collect_concat(head, labels, f);
    undoing::lemma_collect_concat(head + labels, shapes, f);
    lemma_flat_none(labels);
    lemma_flat_none(shapes);
    if head.len() == 1 {
        assert(head =~= seq![head[0]]);
        undoing::lemma_flat_one(head[0]);
    } else {
        assert(undoing::flat(head) =~= ops);
    }
    assert(undoing::flat(head + labels + shapes) =~= undoing::flat(head));
}

} // verus!
