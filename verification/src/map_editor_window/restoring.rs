//! What is left when a deletion is undone.

use vstd::prelude::*;

use super::cache;
use super::commands::{self, CommandView, Direction, ResolvedId};
use super::compile::{self, BatchView, CompiledView};
use super::deletion::{self, DeletionParts};
use super::edits;
use super::links;
use super::model::{
    AreaCache, AreaId, AtlasCache, Connection, ConnectionId, EntityId, ExitArgs, ExitCache, ExitId, LabelArgs,
    LabelCache, LabelId, PropertyEntry, RoomCache, RoomKey, RoomNumber, ShapeArgs, ShapeCache, ShapeId,
};
use super::mutation::{self, AreaMutation, IdRef, Mutation, MutationView, OpView};
use super::undoing::{self, RoomState, ShapeState, World};
use crate::list;
use crate::text;

verus! {

// ===== Writes that leave parts of a world alone =====

/// Whether a write leaves rooms and the area's properties alone.
pub open spec fn keeps_rooms(op: OpView) -> bool {
    match op {
        AreaMutation::UpsertRoom { .. } => false,
        AreaMutation::DeleteRoom { .. } => false,
        AreaMutation::UpsertRoomProperty { .. } => false,
        AreaMutation::DeleteRoomProperty { .. } => false,
        AreaMutation::AddRoomTag { .. } => false,
        AreaMutation::RemoveRoomTag { .. } => false,
        AreaMutation::UpsertAreaProperty { .. } => false,
        AreaMutation::DeleteAreaProperty { .. } => false,
        _ => true,
    }
}

/// Whether a write leaves labels alone.
pub open spec fn keeps_labels(op: OpView) -> bool {
    match op {
        AreaMutation::CreateLabel { .. } => false,
        AreaMutation::UpdateLabel { .. } => false,
        AreaMutation::DeleteLabel { .. } => false,
        _ => true,
    }
}

/// Whether a write leaves shapes alone.
pub open spec fn keeps_shapes(op: OpView) -> bool {
    match op {
        AreaMutation::CreateShape { .. } => false,
        AreaMutation::UpdateShape { .. } => false,
        AreaMutation::DeleteShape { .. } => false,
        _ => true,
    }
}

/// Whether all of some writes leave rooms and the area's properties alone.
pub open spec fn all_keep_rooms(ops: Seq<OpView>) -> bool {
    forall|i: int| 0 <= i < ops.len() ==> keeps_rooms(#[trigger] ops[i])
}

/// Whether all of some writes leave labels alone.
pub open spec fn all_keep_labels(ops: Seq<OpView>) -> bool {
    forall|i: int| 0 <= i < ops.len() ==> keeps_labels(#[trigger] ops[i])
}

/// Whether all of some writes leave shapes alone.
pub open spec fn all_keep_shapes(ops: Seq<OpView>) -> bool {
    forall|i: int| 0 <= i < ops.len() ==> keeps_shapes(#[trigger] ops[i])
}

/// What writes leave alone stays.
pub(crate) proof fn lemma_kept(world: World, ops: Seq<OpView>)
    ensures
        all_keep_rooms(ops) ==> undoing::all_written(world, ops).rooms == world.rooms
            && undoing::all_written(world, ops).properties == world.properties,
        all_keep_labels(ops) ==> undoing::all_written(world, ops).labels == world.labels,
        all_keep_shapes(ops) ==> undoing::all_written(world, ops).shapes == world.shapes,
    decreases ops.len(),
{
    if ops.len() > 0 {
        let rest = ops.drop_last();
        lemma_kept(world, rest);
        assert(ops[ops.len() - 1] == ops.last());
        assert forall|i: int| 0 <= i < rest.len() implies #[trigger] rest[i] == ops[i] by {}
    }
}

/// What writes make of a part of a world depends on that part alone.
pub(crate) proof fn lemma_alike(a: World, b: World, ops: Seq<OpView>)
    ensures
        a.rooms == b.rooms ==> undoing::all_written(a, ops).rooms == undoing::all_written(b, ops).rooms,
        a.properties == b.properties ==> undoing::all_written(a, ops).properties
            == undoing::all_written(b, ops).properties,
        a.labels == b.labels ==> undoing::all_written(a, ops).labels == undoing::all_written(
            b,
            ops,
        ).labels,
        a.shapes == b.shapes ==> undoing::all_written(a, ops).shapes == undoing::all_written(
            b,
            ops,
        ).shapes,
    decreases ops.len(),
{
    if ops.len() > 0 {
        lemma_alike(a, b, ops.drop_last());
    }
}

// ===== The writes of a step =====

/// The writes that a mutation compiles to, given the slot table and a fresh id.
pub open spec fn step_ops(
    slots: Seq<Option<ResolvedId>>,
    mutation: MutationView,
    fresh: u128,
) -> Seq<OpView> {
    match mutation {
        Mutation::CreateExit { room_key, args, follow_up, .. } => {
            let id = compile::chosen(args.id, ExitId(fresh));
            seq![
                AreaMutation::CreateExit {
                    room_number: room_key.room_number,
                    body: ExitArgs { id: Some(id), ..args },
                },
            ] + (match follow_up {
                Some(updates) => seq![AreaMutation::UpdateExit { exit_id: id, body: updates }],
                None => Seq::empty(),
            })
        },
        Mutation::UpdateExit { id, updates, .. } => match commands::exit_named(slots, id) {
            Some(exit_id) => seq![AreaMutation::UpdateExit { exit_id, body: updates }],
            None => Seq::empty(),
        },
        Mutation::DeleteExit { id, .. } => match commands::exit_named(slots, id) {
            Some(exit_id) => seq![AreaMutation::DeleteExit { exit_id }],
            None => Seq::empty(),
        },
        Mutation::CreateLabel { args, .. } => seq![
            AreaMutation::CreateLabel {
                body: LabelArgs {
                    id: Some(compile::chosen(args.id, LabelId(fresh))),
                    ..args
                },
            },
        ],
        Mutation::UpdateLabel { id, updates, .. } => match commands::label_named(slots, id) {
            Some(label_id) => seq![AreaMutation::UpdateLabel { label_id, body: updates }],
            None => Seq::empty(),
        },
        Mutation::DeleteLabel { id, .. } => match commands::label_named(slots, id) {
            Some(label_id) => seq![AreaMutation::DeleteLabel { label_id }],
            None => Seq::empty(),
        },
        Mutation::CreateShape { args, .. } => seq![
            AreaMutation::CreateShape {
                body: ShapeArgs {
                    id: Some(compile::chosen(args.id, ShapeId(fresh))),
                    ..args
                },
            },
        ],
        Mutation::UpdateShape { id, updates, .. } => match commands::shape_named(slots, id) {
            Some(shape_id) => seq![AreaMutation::UpdateShape { shape_id, body: updates }],
            None => Seq::empty(),
        },
        Mutation::DeleteShape { id, .. } => match commands::shape_named(slots, id) {
            Some(shape_id) => seq![AreaMutation::DeleteShape { shape_id }],
            None => Seq::empty(),
        },
        other => undoing::plain_ops(other),
    }
}

/// A step stages its writes after those that are staged already.
proof fn lemma_step_ops(
    state: CompiledView,
    mutation: MutationView,
    fresh: u128,
    command: commands::CommandId,
    limit: int,
)
    requires
        limit > 0,
    ensures
        undoing::ops_of(compile::compiled_step(state, mutation, fresh, command, limit).batches)
            == undoing::ops_of(state.batches) + step_ops(state.resolved_ids, mutation, fresh),
{
    let f = |batch: BatchView| batch.operations;
    let after = compile::compiled_step(state, mutation, fresh, command, limit);
    let added = step_ops(state.resolved_ids, mutation, fresh);
    if let Mutation::UpsertRooms(area_id, rooms) = mutation {
        let ops = compile::upserts(rooms);
        let description = compile::upsert_description(rooms);
        undoing::lemma_collect_concat(
            state.batches,
            compile::upsert_batches(area_id, rooms, limit),
            f,
        );
        undoing::lemma_strict_ops(area_id, compile::pieces(ops, limit), description);
        undoing::law_pieces_hold_the_whole_list(ops, limit);
    } else if let Mutation::CreateExit { follow_up, .. } = mutation {
        match follow_up {
            Some(_) => {
                let n = after.batches.len();
                let first = after.batches[n - 2];
                let second = after.batches[n - 1];
                assert(after.batches =~= state.batches.push(first).push(second));
                undoing::lemma_collect_push(state.batches, first, f);
                undoing::lemma_collect_push(state.batches.push(first), second, f);
                assert(undoing::ops_of(state.batches) + first.operations + second.operations
                    =~= undoing::ops_of(state.batches) + added);
            },
            None => {
                let batch = after.batches.last();
                assert(after.batches =~= state.batches.push(batch));
                undoing::lemma_collect_push(state.batches, batch, f);
                assert(batch.operations =~= added);
            },
        }
    } else if after.batches.len() == state.batches.len() {
        assert(after.batches =~= state.batches);
        assert(undoing::ops_of(state.batches) + added =~= undoing::ops_of(state.batches));
    } else {
        let batch = after.batches.last();
        assert(after.batches =~= state.batches.push(batch));
        undoing::lemma_collect_push(state.batches, batch, f);
        assert(batch.operations =~= added);
    }
}

/// What staging the batches of a compilation leaves, step by step.
pub(crate) proof fn lemma_step_staged(
    world: World,
    state: CompiledView,
    mutation: MutationView,
    fresh: u128,
    command: commands::CommandId,
    limit: int,
)
    requires
        limit > 0,
    ensures
        undoing::staged(world, compile::compiled_step(state, mutation, fresh, command, limit).batches)
            == undoing::all_written(
            undoing::staged(world, state.batches),
            step_ops(state.resolved_ids, mutation, fresh),
        ),
{
    lemma_step_ops(state, mutation, fresh, command, limit);
    undoing::lemma_all_written(
        world,
        undoing::ops_of(state.batches),
        step_ops(state.resolved_ids, mutation, fresh),
    );
}

/// Compiling two lists, one after the other.
pub(crate) proof fn lemma_compiled_concat(
    start: CompiledView,
    a: Seq<MutationView>,
    b: Seq<MutationView>,
    fresh: Seq<u128>,
    command: commands::CommandId,
    limit: int,
)
    requires
        fresh.len() >= a.len() + b.len(),
    ensures
        compile::compiled(start, a + b, fresh, command, limit) == compile::compiled(
            compile::compiled(start, a, fresh, command, limit),
            b,
            fresh.skip(a.len() as int),
            command,
            limit,
        ),
    decreases b.len(),
{
    if b.len() == 0 {
        assert(a + b =~= a);
    } else {
        assert((a + b).drop_last() =~= a + b.drop_last());
        lemma_compiled_concat(start, a, b.drop_last(), fresh, command, limit);
        assert(fresh[(a + b).len() - 1] == fresh.skip(a.len() as int)[b.len() - 1]);
    }
}

// ===== Rooms =====

/// What a compiled list makes of rooms and of the area's properties does not depend
/// on slots: mutations that create or name entities by slot leave them alone.
pub(crate) proof fn lemma_compiled_rooms(
    world: World,
    start: CompiledView,
    mutations: Seq<MutationView>,
    fresh: Seq<u128>,
    command: commands::CommandId,
    limit: int,
)
    requires
        limit > 0,
    ensures
        ({
            let after = undoing::staged(
                world,
                compile::compiled(start, mutations, fresh, command, limit).batches,
            );
            let flat = undoing::all_written(
                undoing::staged(world, start.batches),
                undoing::flat(mutations),
            );
            after.rooms == flat.rooms && after.properties == flat.properties
        }),
    decreases mutations.len(),
{
    if mutations.len() > 0 {
        let rest = mutations.drop_last();
        let last = mutations.last();
        let id = fresh[mutations.len() - 1];
        let base = undoing::staged(world, start.batches);
        lemma_compiled_rooms(world, start, rest, fresh, command, limit);
        let before = compile::compiled(start, rest, fresh, command, limit);
        let added = step_ops(before.resolved_ids, last, id);
        lemma_step_staged(world, before, last, id, command, limit);
        let flat_before = undoing::all_written(base, undoing::flat(rest));
        undoing::lemma_all_written(base, undoing::flat(rest), undoing::plain_ops(last));
        lemma_alike(undoing::staged(world, before.batches), flat_before, added);
        if undoing::is_plain(last) {
            assert(added =~= undoing::plain_ops(last));
        } else {
            assert(all_keep_rooms(added));
            assert(undoing::plain_ops(last) =~= Seq::empty());
            lemma_kept(undoing::staged(world, before.batches), added);
        }
    }
}

/// Whether a list names a room.
pub open spec fn names_room(rooms: Seq<RoomCache>, number: RoomNumber) -> bool {
    exists|i: int| 0 <= i < rooms.len() && (#[trigger] rooms[i]).room_number == number
}

/// What the deletions of rooms leave.
proof fn lemma_rooms_deleted(world: World, area_id: AreaId, rooms: Seq<RoomCache>)
    ensures
        ({
            let after = undoing::all_written(
                world,
                undoing::flat(deletion::rooms_deleted(area_id, rooms)),
            );
            &&& after.properties == world.properties
            &&& forall|number: RoomNumber|
                #![trigger after.rooms.dom().contains(number)]
                after.rooms.dom().contains(number) == (world.rooms.dom().contains(number)
                    && !names_room(rooms, number))
            &&& forall|number: RoomNumber|
                #![trigger after.rooms[number]]
                !names_room(rooms, number) ==> after.rooms[number] == world.rooms[number]
        }),
    decreases rooms.len(),
{
    let f = |room: RoomCache| deletion::room_deleted(area_id, room);
    if rooms.len() == 0 {
        assert(undoing::flat(deletion::rooms_deleted(area_id, rooms)) =~= Seq::empty());
    } else {
        let rest = rooms.drop_last();
        let last = rooms.last();
        lemma_rooms_deleted(world, area_id, rest);
        assert(deletion::rooms_deleted(area_id, rooms) =~= deletion::rooms_deleted(
            area_id,
            rest,
        ).push(f(last)));
        assert(deletion::rooms_deleted(area_id, rooms).drop_last() =~= deletion::rooms_deleted(
            area_id,
            rest,
        ));
        let before_ops = undoing::flat(deletion::rooms_deleted(area_id, rest));
        let op = AreaMutation::DeleteRoom { room_number: last.room_number };
        undoing::lemma_all_written(world, before_ops, seq![op]);
        undoing::lemma_one_written(undoing::all_written(world, before_ops), op);
        assert(rooms[rooms.len() - 1] == last);
        assert forall|number: RoomNumber|
            names_room(rooms, number) == (names_room(rest, number) || last.room_number == number) by {
            if names_room(rooms, number) {
                let i = choose|i: int| 0 <= i < rooms.len() && (#[trigger] rooms[i]).room_number == number;
                if i < rest.len() {
                    assert(rest[i].room_number == number);
                }
            }
            if names_room(rest, number) {
                let i = choose|i: int| 0 <= i < rest.len() && (#[trigger] rest[i]).room_number == number;
                assert(rooms[i].room_number == number);
            }
        }
    }
}

/// What the writes that recreate rooms leave.
proof fn lemma_rooms_recreated(world: World, area: AreaCache, numbers: Seq<RoomNumber>, cleared: bool)
    requires
        forall|number: RoomNumber|
            numbers.contains(number) && area.room(number) is Some
                ==> !#[trigger] world.rooms.dom().contains(number),
    ensures
        ({
            let f = |room: RoomCache| deletion::room_snapshot(room, cleared);
            let after = undoing::all_written(world, undoing::room_ops(area, numbers, f));
            &&& after.properties == world.properties
            &&& forall|number: RoomNumber|
                #![trigger after.rooms.dom().contains(number)]
                after.rooms.dom().contains(number) == (world.rooms.dom().contains(number) || (
                numbers.contains(number) && area.room(number) is Some))
            &&& forall|number: RoomNumber|
                #![trigger after.rooms[number]]
                numbers.contains(number) && area.room(number) is Some ==> after.rooms[number]
                    == undoing::created_room(
                    deletion::room_snapshot(area.room(number)->0, cleared),
                )
            &&& forall|number: RoomNumber|
                #![trigger after.rooms[number]]
                !numbers.contains(number) ==> after.rooms[number] == world.rooms[number]
        }),
    decreases numbers.len(),
{
    let f = |room: RoomCache| deletion::room_snapshot(room, cleared);
    if numbers.len() == 0 {
        assert(undoing::room_ops(area, numbers, f) =~= Seq::empty());
    } else {
        let rest = numbers.drop_last();
        let last = numbers.last();
        assert forall|number: RoomNumber| rest.contains(number) implies numbers.contains(number) by {
            let k = choose|k: int| 0 <= k < rest.len() && rest[k] == number;
            assert(numbers[k] == number);
        }
        assert forall|number: RoomNumber|
            numbers.contains(number) == (rest.contains(number) || number == last) by {
            if numbers.contains(number) {
                let k = choose|k: int| 0 <= k < numbers.len() && numbers[k] == number;
                if k < rest.len() {
                    assert(rest[k] == number);
                }
            }
            assert(numbers[numbers.len() - 1] == last);
        }
        lemma_rooms_recreated(world, area, rest, cleared);
        let before = undoing::all_written(world, undoing::room_ops(area, rest, f));
        match area.room(last) {
            Some(room) => {
                let body = f(room);
                let op = AreaMutation::UpsertRoom { room_number: last, body };
                assert(undoing::room_ops(area, numbers, f) =~= undoing::room_ops(
                    area,
                    rest,
                    f,
                ).push(op));
                assert(undoing::room_ops(area, numbers, f).drop_last() =~= undoing::room_ops(
                    area,
                    rest,
                    f,
                ));
                let after = undoing::written(before, op);
                if before.rooms.dom().contains(last) {
                    assert(rest.contains(last));
                    assert(before.rooms[last] == undoing::created_room(body));
                    assert(undoing::room_updated(undoing::created_room(body), body)
                        == undoing::created_room(body));
                }
                assert(after.rooms[last] == undoing::created_room(body));
            },
            None => {
                assert(undoing::room_ops(area, numbers, f) =~= undoing::room_ops(area, rest, f));
            },
        }
    }
}

/// Properties after pairs of names and values are set one after the other.
pub open spec fn poured(
    properties: Map<Seq<char>, Seq<char>>,
    pairs: Seq<(Seq<char>, Seq<char>)>,
) -> Map<Seq<char>, Seq<char>>
    decreases pairs.len(),
{
    if pairs.len() == 0 {
        properties
    } else {
        poured(properties, pairs.drop_last()).insert(pairs.last().0, pairs.last().1)
    }
}

/// Whether no two pairs give a name different values.
pub open spec fn agree(pairs: Seq<(Seq<char>, Seq<char>)>) -> bool {
    forall|i: int, j: int|
        0 <= i < pairs.len() && 0 <= j < pairs.len() && (#[trigger] pairs[i]).0 == (
        #[trigger] pairs[j]).0 ==> pairs[i].1 == pairs[j].1
}

/// What is poured in is what is there.
proof fn lemma_poured(pairs: Seq<(Seq<char>, Seq<char>)>)
    requires
        agree(pairs),
    ensures
        forall|name: Seq<char>|
            #![trigger poured(Map::empty(), pairs).dom().contains(name)]
            poured(Map::empty(), pairs).dom().contains(name) ==> exists|i: int|
                0 <= i < pairs.len() && (#[trigger] pairs[i]).0 == name,
        forall|i: int|
            0 <= i < pairs.len() ==> poured(Map::empty(), pairs).dom().contains(
                (#[trigger] pairs[i]).0,
            ) && poured(Map::empty(), pairs)[pairs[i].0] == pairs[i].1,
    decreases pairs.len(),
{
    if pairs.len() > 0 {
        let rest = pairs.drop_last();
        let last = pairs.len() - 1;
        assert forall|i: int, j: int|
            0 <= i < rest.len() && 0 <= j < rest.len() && (#[trigger] rest[i]).0 == (
            #[trigger] rest[j]).0 implies rest[i].1 == rest[j].1 by {
            assert(rest[i] == pairs[i] && rest[j] == pairs[j]);
        }
        lemma_poured(rest);
        let all = poured(Map::empty(), pairs);
        assert forall|i: int| 0 <= i < pairs.len() implies all.dom().contains(
            (#[trigger] pairs[i]).0,
        ) && all[pairs[i].0] == pairs[i].1 by {
            if i < last {
                assert(rest[i] == pairs[i]);
                if pairs[i].0 == pairs[last].0 {
                    assert(pairs[i].1 == pairs[last].1);
                }
            }
        }
        assert forall|name: Seq<char>| #![trigger all.dom().contains(name)]
            all.dom().contains(name) implies exists|i: int|
            0 <= i < pairs.len() && (#[trigger] pairs[i]).0 == name by {
            if name == pairs.last().0 {
                assert(pairs[last].0 == name);
            } else {
                assert(poured(Map::empty(), rest).dom().contains(name));
                let i = choose|i: int| 0 <= i < rest.len() && (#[trigger] rest[i]).0 == name;
                assert(pairs[i].0 == name);
            }
        }
    }
}

/// Whether no property is listed under two values.
pub open spec fn properties_agree(entries: Seq<PropertyEntry>) -> bool {
    agree(entries.map_values(|entry: PropertyEntry| deletion::property_pair(entry)))
}

/// The order of pairs.
proof fn lemma_pairs_ordered()
    ensures
        list::is_weak_order(
            |a: (Seq<char>, Seq<char>), b: (Seq<char>, Seq<char>)| deletion::pair_before(a, b),
        ),
{
    let less = |a: (Seq<char>, Seq<char>), b: (Seq<char>, Seq<char>)| deletion::pair_before(a, b);
    assert forall|a: (Seq<char>, Seq<char>), b: (Seq<char>, Seq<char>)| #[trigger] less(a, b) implies !less(
        b,
        a,
    ) by {
        text::lemma_text_less(a.0, b.0, a.0);
        text::lemma_text_less(a.1, b.1, a.1);
    }
    assert forall|a: (Seq<char>, Seq<char>), b: (Seq<char>, Seq<char>), c: (Seq<char>, Seq<char>)|
        #[trigger] less(a, b) && #[trigger] less(b, c) implies less(a, c) by {
        text::lemma_text_less(a.0, b.0, c.0);
        text::lemma_text_less(a.1, b.1, c.1);
    }
    assert forall|a: (Seq<char>, Seq<char>), b: (Seq<char>, Seq<char>), c: (Seq<char>, Seq<char>)|
        #![trigger less(a, b), less(b, c)]
        !less(a, b) && !less(b, c) implies !less(a, c) by {
        text::lemma_text_less(c.0, b.0, a.0);
        text::lemma_text_less(b.0, a.0, c.0);
        text::lemma_text_less(a.0, c.0, b.0);
        text::lemma_text_less(c.1, b.1, a.1);
        text::lemma_text_less(b.1, a.1, c.1);
        text::lemma_text_less(a.1, c.1, b.1);
    }
}

/// Properties that are set in order are the properties that were there.
pub(crate) proof fn lemma_properties_back(entries: Seq<PropertyEntry>)
    requires
        properties_agree(entries),
    ensures
        poured(Map::empty(), deletion::sorted_pairs(entries)) == undoing::property_map(entries),
{
    broadcast use vstd::seq_lib::group_to_multiset_ensures;

    let given = entries.map_values(|entry: PropertyEntry| deletion::property_pair(entry));
    let sorted = deletion::sorted_pairs(entries);
    let less = |a: (Seq<char>, Seq<char>), b: (Seq<char>, Seq<char>)| deletion::pair_before(a, b);
    lemma_pairs_ordered();
    list::lemma_in_order(given, less);
    assert forall|pair: (Seq<char>, Seq<char>)| sorted.contains(pair) == given.contains(pair) by {
        assert(sorted.to_multiset().count(pair) == given.to_multiset().count(pair));
    }
    assert(agree(sorted)) by {
        assert forall|i: int, j: int|
            0 <= i < sorted.len() && 0 <= j < sorted.len() && (#[trigger] sorted[i]).0 == (
            #[trigger] sorted[j]).0 implies sorted[i].1 == sorted[j].1 by {
            assert(sorted.contains(sorted[i]) && sorted.contains(sorted[j]));
            assert(given.contains(sorted[i]) && given.contains(sorted[j]));
            let a = choose|a: int| 0 <= a < given.len() && given[a] == sorted[i];
            let b = choose|b: int| 0 <= b < given.len() && given[b] == sorted[j];
            assert(given[a].0 == given[b].0);
        }
    }
    lemma_poured(sorted);
    let poured_in = poured(Map::empty(), sorted);
    let held = undoing::property_map(entries);
    assert forall|name: Seq<char>|
        #![trigger poured_in.dom().contains(name)]
        #![trigger held.dom().contains(name)]
        poured_in.dom().contains(name) == held.dom().contains(name) && (held.dom().contains(name)
            ==> poured_in[name] == held[name]) by {
        let p = |entry: PropertyEntry| entry.name@ == name;
        list::lemma_first_exists(entries, p);
        if held.dom().contains(name) {
            let entry = cache::property_named(entries, name)->0;
            let k = choose|k: int| 0 <= k < entries.len() && entries[k] == entry;
            assert(given[k] == deletion::property_pair(entry));
            assert(given.contains(deletion::property_pair(entry)));
            let i = choose|i: int| 0 <= i < sorted.len() && sorted[i] == deletion::property_pair(entry);
            assert(sorted[i].0 == name);
        }
        if poured_in.dom().contains(name) {
            let i = choose|i: int| 0 <= i < sorted.len() && (#[trigger] sorted[i]).0 == name;
            assert(sorted.contains(sorted[i]));
            assert(given.contains(sorted[i]));
            let k = choose|k: int| 0 <= k < given.len() && given[k] == sorted[i];
            assert(p(entries[k]));
        }
    }
    assert(poured_in.dom() =~= held.dom());
    assert(poured_in =~= held);
}

/// The writes that set the properties of a room.
proof fn lemma_properties_set(world: World, key: RoomKey, pairs: Seq<(Seq<char>, Seq<char>)>)
    requires
        world.rooms.dom().contains(key.room_number),
    ensures
        undoing::all_written(world, undoing::flat(deletion::properties_restored(key, pairs)))
            == undoing::with_room(
            world,
            key.room_number,
            RoomState {
                properties: poured(world.rooms[key.room_number].properties, pairs),
                ..world.rooms[key.room_number]
            },
        ),
    decreases pairs.len(),
{
    let number = key.room_number;
    let room = world.rooms[number];
    if pairs.len() == 0 {
        assert(undoing::flat(deletion::properties_restored(key, pairs)) =~= Seq::empty());
        assert(undoing::with_room(world, number, room).rooms =~= world.rooms);
        assert(RoomState { properties: poured(room.properties, pairs), ..room } == room);
    } else {
        let rest = pairs.drop_last();
        let last = pairs.last();
        lemma_properties_set(world, key, rest);
        let mutations = deletion::properties_restored(key, pairs);
        assert(mutations.drop_last() =~= deletion::properties_restored(key, rest));
        assert(mutations.last() == deletion::property_restored(key, last));
        let ops = undoing::flat(deletion::properties_restored(key, rest));
        let op = AreaMutation::UpsertRoomProperty {
            room_number: number,
            name: last.0,
            value: last.1,
            is_secret: None,
        };
        assert(undoing::flat(mutations) == ops + seq![op]);
        undoing::lemma_all_written(world, ops, seq![op]);
        undoing::lemma_one_written(undoing::all_written(world, ops), op);
        let before = undoing::all_written(world, ops);
        let after = undoing::written(before, op);
        assert(after.rooms =~= undoing::with_room(
            world,
            number,
            RoomState { properties: poured(room.properties, pairs), ..room },
        ).rooms);
    }
}

/// Recreated exits are no writes to rooms.
proof fn lemma_exits_flat(key: RoomKey, exits: Seq<ExitCache>, cleared: bool, base: int)
    ensures
        undoing::flat(deletion::exits_recreated(key, exits, cleared, base)) == Seq::<OpView>::empty(),
    decreases exits.len(),
{
    if exits.len() > 0 {
        let rest = exits.drop_last();
        lemma_exits_flat(key, rest, cleared, base);
        let mutations = deletion::exits_recreated(key, exits, cleared, base);
        assert(mutations.drop_last() =~= deletion::exits_recreated(key, rest, cleared, base));
    }
}

/// What the contents of recreated rooms leave: each room has its properties.
proof fn lemma_contents(
    world: World,
    area_id: AreaId,
    rooms: Seq<RoomCache>,
    restored: Seq<ConnectionId>,
    cleared: bool,
)
    requires
        forall|i: int|
            0 <= i < rooms.len() ==> world.rooms.dom().contains((#[trigger] rooms[i]).room_number),
        forall|i: int, j: int|
            0 <= i < rooms.len() && 0 <= j < rooms.len() && i != j ==> (#[trigger] rooms[i]).room_number
                != (#[trigger] rooms[j]).room_number,
    ensures
        ({
            let after = undoing::all_written(
                world,
                undoing::flat(deletion::rooms_contents(area_id, rooms, restored, cleared)),
            );
            &&& after.properties == world.properties
            &&& after.rooms.dom() == world.rooms.dom()
            &&& forall|i: int|
                #![trigger rooms[i]]
                0 <= i < rooms.len() ==> after.rooms[rooms[i].room_number] == (RoomState {
                    properties: poured(
                        world.rooms[rooms[i].room_number].properties,
                        deletion::sorted_pairs(rooms[i].properties@),
                    ),
                    ..world.rooms[rooms[i].room_number]
                })
            &&& forall|number: RoomNumber|
                #![trigger after.rooms[number]]
                !names_room(rooms, number) ==> after.rooms[number] == world.rooms[number]
        }),
    decreases rooms.len(),
{
    if rooms.len() == 0 {
        assert(undoing::flat(deletion::rooms_contents(area_id, rooms, restored, cleared))
            =~= Seq::empty());
    } else {
        let rest = rooms.drop_last();
        let at = rooms.len() - 1;
        let last = rooms[at];
        let number = last.room_number;
        let key = RoomKey { area_id, room_number: number };
        assert forall|i: int| 0 <= i < rest.len() implies #[trigger] rest[i] == rooms[i] by {}
        lemma_contents(world, area_id, rest, restored, cleared);
        let base = deletion::rooms_exits(rest, restored).len() as int;
        let pairs = deletion::sorted_pairs(last.properties@);
        let kept = deletion::kept_exits(last.exits@, restored);
        let early = deletion::rooms_contents(area_id, rest, restored, cleared);
        let set = deletion::properties_restored(key, pairs);
        let exits = deletion::exits_recreated(key, kept, cleared, base);
        let f = |mutation: MutationView| undoing::plain_ops(mutation);
        undoing::lemma_collect_concat(early, set + exits, f);
        undoing::lemma_collect_concat(set, exits, f);
        lemma_exits_flat(key, kept, cleared, base);
        let before = undoing::all_written(world, undoing::flat(early));
        assert(undoing::flat(set) + undoing::flat(exits) =~= undoing::flat(set));
        undoing::lemma_all_written(world, undoing::flat(early), undoing::flat(set));
        assert(before.rooms.dom().contains(number));
        assert(!names_room(rest, number)) by {
            if names_room(rest, number) {
                let i = choose|i: int| 0 <= i < rest.len() && (#[trigger] rest[i]).room_number == number;
                assert(rooms[i].room_number == rooms[at].room_number);
            }
        }
        assert(before.rooms[number] == world.rooms[number]);
        lemma_properties_set(before, key, pairs);
        let after = undoing::all_written(
            world,
            undoing::flat(deletion::rooms_contents(area_id, rooms, restored, cleared)),
        );
        assert(after.rooms.dom() =~= world.rooms.dom());
        assert forall|i: int|
            #![trigger rooms[i]]
            0 <= i < rooms.len() implies after.rooms[rooms[i].room_number] == (RoomState {
            properties: poured(
                world.rooms[rooms[i].room_number].properties,
                deletion::sorted_pairs(rooms[i].properties@),
            ),
            ..world.rooms[rooms[i].room_number]
        }) by {
            if i < at {
                assert(rest[i] == rooms[i]);
                assert(rooms[i].room_number != rooms[at].room_number);
            }
        }
        assert forall|other: RoomNumber|
            #![trigger after.rooms[other]]
            !names_room(rooms, other) implies after.rooms[other] == world.rooms[other] by {
            assert(rooms[at].room_number != other);
            if names_room(rest, other) {
                let i = choose|i: int| 0 <= i < rest.len() && (#[trigger] rest[i]).room_number == other;
                assert(rooms[i].room_number == other);
            }
        }
    }
}

// ===== Undoing a deletion: rooms =====

/// The world after a command was done and undone.
pub open spec fn undone(
    command: CommandView,
    world: World,
    fresh: Seq<u128>,
    again: Seq<u128>,
    limit: int,
) -> World {
    let done = compile::compiled_direction(command, Direction::Redo, fresh, limit);
    let settled = CommandView { resolved_ids: done.resolved_ids, pending: 0, ..command };
    let back = compile::compiled_direction(settled, Direction::Undo, again, limit);
    undoing::staged(undoing::staged(world, done.batches), back.batches)
}

/// A room after its deletion was undone: without its tags, and a secret again only
/// where the viewer may say so.
pub open spec fn room_back(room: RoomState, cleared: bool) -> RoomState {
    RoomState { is_secret: room.is_secret && cleared, tags: Set::empty(), ..room }
}

/// Writes of lists that leave rooms alone.
pub(crate) proof fn lemma_flat_keeps(mutations: Seq<MutationView>)
    requires
        forall|i: int|
            0 <= i < mutations.len() ==> all_keep_rooms(
                undoing::plain_ops(#[trigger] mutations[i]),
            ),
    ensures
        all_keep_rooms(undoing::flat(mutations)),
{
    let f = |mutation: MutationView| undoing::plain_ops(mutation);
    let ops = undoing::flat(mutations);
    assert forall|k: int| 0 <= k < ops.len() implies keeps_rooms(#[trigger] ops[k]) by {
        list::lemma_collect_source(mutations, f, k);
        let i = choose|i: int| 0 <= i < mutations.len() && (#[trigger] f(mutations[i])).contains(ops[k]);
        assert(all_keep_rooms(undoing::plain_ops(mutations[i])));
        let piece = f(mutations[i]);
        let j = choose|j: int| 0 <= j < piece.len() && piece[j] == ops[k];
        assert(keeps_rooms(piece[j]));
    }
}

/// Writes of two lists.
pub(crate) proof fn lemma_keep_both(a: Seq<OpView>, b: Seq<OpView>)
    requires
        all_keep_rooms(a),
        all_keep_rooms(b),
    ensures
        all_keep_rooms(a + b),
{
    assert forall|i: int| 0 <= i < (a + b).len() implies keeps_rooms(#[trigger] (a + b)[i]) by {
        if i < a.len() {
            assert((a + b)[i] == a[i]);
        } else {
            assert((a + b)[i] == b[i - a.len()]);
        }
    }
}

/// The relinks of a deletion update exits.
proof fn lemma_relinks(
    atlas: AtlasCache,
    area_id: AreaId,
    rooms: Seq<RoomNumber>,
    restored: Seq<ConnectionId>,
)
    ensures
        ({
            let mutations = deletion::relinks(atlas, area_id, rooms, restored);
            &&& forall|i: int| 0 <= i < mutations.len() ==> (#[trigger] mutations[i]) is UpdateExit
            &&& all_keep_rooms(undoing::flat(mutations))
        }),
{
    let mutations = deletion::relinks(atlas, area_id, rooms, restored);
    let of_area = |host: AreaCache| deletion::area_relinks(area_id, rooms, restored, host);
    assert forall|i: int| 0 <= i < mutations.len() implies (#[trigger] mutations[i]) is UpdateExit by {
        list::lemma_collect_source(atlas.areas@, of_area, i);
        let a = choose|a: int|
            0 <= a < atlas.areas@.len() && (#[trigger] of_area(atlas.areas@[a])).contains(
                mutations[i],
            );
        let host = atlas.areas@[a];
        let of_room = |room: RoomCache|
            {
                let key = RoomKey { area_id: host.id, room_number: room.room_number };
                if deletion::is_deleted(area_id, rooms, key) {
                    Seq::empty()
                } else {
                    deletion::room_relinks(area_id, rooms, restored, key, room.exits@)
                }
            };
        let in_area = list::collect(host.rooms@, of_room);
        assert(in_area == of_area(host));
        let b = choose|b: int| 0 <= b < in_area.len() && in_area[b] == mutations[i];
        list::lemma_collect_source(host.rooms@, of_room, b);
        let r = choose|r: int|
            0 <= r < host.rooms@.len() && (#[trigger] of_room(host.rooms@[r])).contains(in_area[b]);
        let room = host.rooms@[r];
        let key = RoomKey { area_id: host.id, room_number: room.room_number };
        let of_exit = |exit: ExitCache|
            if !restored.contains(exit.connection_id) && deletion::leads_to_deleted(
                area_id,
                rooms,
                exit,
            ) {
                seq![deletion::exit_relinked(key, exit)]
            } else {
                Seq::empty()
            };
        let in_room = list::collect(room.exits@, of_exit);
        assert(in_room == of_room(room));
        let c = choose|c: int| 0 <= c < in_room.len() && in_room[c] == mutations[i];
        list::lemma_collect_source(room.exits@, of_exit, c);
        let e = choose|e: int|
            0 <= e < room.exits@.len() && (#[trigger] of_exit(room.exits@[e])).contains(in_room[c]);
        assert(mutations[i] == deletion::exit_relinked(key, room.exits@[e]));
    }
    assert forall|i: int| 0 <= i < mutations.len() implies all_keep_rooms(
        undoing::plain_ops(#[trigger] mutations[i]),
    ) by {
        assert(mutations[i] is UpdateExit);
    }
    lemma_flat_keeps(mutations);
}

/// The writes that restore a link leave rooms alone.
proof fn lemma_link_restore_keeps(area: AreaCache, connection: Connection, cleared: bool)
    ensures
        all_keep_rooms(links::link_restore(area, connection, cleared)),
{
}

/// What follows the contents of the rooms in the undoing of a deletion leaves rooms
/// alone.
proof fn lemma_rest_keeps(atlas: AtlasCache, area_id: AreaId, area: AreaCache, parts: DeletionParts)
    ensures
        ({
            let labels_base = parts.exits.len();
            let shapes_base = labels_base + parts.labels.len();
            let rest = deletion::relinks(atlas, area_id, parts.numbers, parts.restored)
                + deletion::labels_recreated(
                area_id,
                parts.labels,
                parts.cleared,
                labels_base as int,
            ) + deletion::shapes_recreated(
                area_id,
                parts.shapes,
                parts.cleared,
                shapes_base as int,
            ) + deletion::links_restored(area_id, area, parts.links, parts.cleared);
            all_keep_rooms(undoing::flat(rest))
        }),
{
    let labels_base = parts.exits.len();
    let shapes_base = labels_base + parts.labels.len();
    let f = |mutation: MutationView| undoing::plain_ops(mutation);
    let a = deletion::relinks(atlas, area_id, parts.numbers, parts.restored);
    let b = deletion::labels_recreated(area_id, parts.labels, parts.cleared, labels_base as int);
    let c = deletion::shapes_recreated(area_id, parts.shapes, parts.cleared, shapes_base as int);
    let d = deletion::links_restored(area_id, area, parts.links, parts.cleared);
    lemma_relinks(atlas, area_id, parts.numbers, parts.restored);
    lemma_flat_keeps(b);
    lemma_flat_keeps(c);
    assert forall|i: int| 0 <= i < d.len() implies all_keep_rooms(
        undoing::plain_ops(#[trigger] d[i]),
    ) by {
        lemma_link_restore_keeps(area, parts.links[i], parts.cleared);
    }
    lemma_flat_keeps(d);
    undoing::lemma_collect_concat(a, b, f);
    undoing::lemma_collect_concat(a + b, c, f);
    undoing::lemma_collect_concat(a + b + c, d, f);
    lemma_keep_both(undoing::flat(a), undoing::flat(b));
    lemma_keep_both(undoing::flat(a + b), undoing::flat(c));
    lemma_keep_both(undoing::flat(a + b + c), undoing::flat(d));
}

/// What a deletion leaves of the rooms.
pub(crate) proof fn lemma_deletion_redo(world: World, area_id: AreaId, parts: DeletionParts)
    ensures
        ({
            let after = undoing::all_written(
                world,
                undoing::flat(deletion::deletion_redo(area_id, parts)),
            );
            &&& after.properties == world.properties
            &&& forall|number: RoomNumber|
                #![trigger after.rooms.dom().contains(number)]
                after.rooms.dom().contains(number) == (world.rooms.dom().contains(number)
                    && !names_room(parts.rooms, number))
            &&& forall|number: RoomNumber|
                #![trigger after.rooms[number]]
                !names_room(parts.rooms, number) ==> after.rooms[number] == world.rooms[number]
        }),
{
    let labels_base = parts.exits.len();
    let shapes_base = labels_base + parts.labels.len();
    let f = |mutation: MutationView| undoing::plain_ops(mutation);
    let a = deletion::links_mutation(area_id, parts.links);
    let b = deletion::rooms_deleted(area_id, parts.rooms);
    let c = deletion::labels_deleted(area_id, parts.labels.len(), labels_base as int);
    let d = deletion::shapes_deleted(area_id, parts.shapes.len(), shapes_base as int);
    undoing::lemma_collect_concat(a, b, f);
    undoing::lemma_collect_concat(a + b, c, f);
    undoing::lemma_collect_concat(a + b + c, d, f);
    lemma_flat_keeps(a);
    lemma_flat_keeps(c);
    lemma_flat_keeps(d);
    lemma_keep_both(undoing::flat(c), undoing::flat(d));
    let first = undoing::all_written(world, undoing::flat(a));
    lemma_kept(world, undoing::flat(a));
    undoing::lemma_all_written(world, undoing::flat(a), undoing::flat(b));
    lemma_rooms_deleted(first, area_id, parts.rooms);
    let second = undoing::all_written(first, undoing::flat(b));
    let tail = undoing::flat(c) + undoing::flat(d);
    assert(undoing::flat(deletion::deletion_redo(area_id, parts)) =~= undoing::flat(a)
        + undoing::flat(b) + tail);
    undoing::lemma_all_written(world, undoing::flat(a) + undoing::flat(b), tail);
    lemma_kept(second, tail);
}

/// The cached rooms among some numbers.
pub(crate) proof fn lemma_cached_rooms(area: AreaCache, numbers: Seq<RoomNumber>)
    requires
        numbers.no_duplicates(),
    ensures
        ({
            let rooms = deletion::cached_rooms(area, numbers);
            &&& forall|i: int|
                #![trigger rooms[i]]
                0 <= i < rooms.len() ==> numbers.contains(rooms[i].room_number) && area.room(
                    rooms[i].room_number,
                ) == Some(rooms[i])
            &&& forall|number: RoomNumber|
                #![trigger names_room(rooms, number)]
                names_room(rooms, number) == (numbers.contains(number) && area.room(number) is Some)
            &&& forall|i: int, j: int|
                0 <= i < rooms.len() && 0 <= j < rooms.len() && i != j ==> (
                #[trigger] rooms[i]).room_number != (#[trigger] rooms[j]).room_number
        }),
    decreases numbers.len(),
{
    let rooms = deletion::cached_rooms(area, numbers);
    if numbers.len() > 0 {
        let rest = numbers.drop_last();
        let last = numbers.last();
        let before = deletion::cached_rooms(area, rest);
        assert(rest.no_duplicates()) by {
            assert forall|i: int, j: int| 0 <= i < rest.len() && 0 <= j < rest.len() && i != j implies rest[i]
                != rest[j] by {
                assert(rest[i] == numbers[i] && rest[j] == numbers[j]);
            }
        }
        lemma_cached_rooms(area, rest);
        assert(numbers[numbers.len() - 1] == last);
        assert(!rest.contains(last)) by {
            if rest.contains(last) {
                let k = choose|k: int| 0 <= k < rest.len() && rest[k] == last;
                assert(numbers[k] == numbers[numbers.len() - 1]);
            }
        }
        assert forall|number: RoomNumber|
            numbers.contains(number) == (rest.contains(number) || number == last) by {
            if numbers.contains(number) {
                let k = choose|k: int| 0 <= k < numbers.len() && numbers[k] == number;
                if k < rest.len() {
                    assert(rest[k] == number);
                }
            }
            if rest.contains(number) {
                let k = choose|k: int| 0 <= k < rest.len() && rest[k] == number;
                assert(numbers[k] == number);
            }
        }
        match area.room(last) {
            Some(room) => {
                list::lemma_first_exists(area.rooms@, |item: RoomCache| item.room_number == last);
                assert(room.room_number == last);
                assert(rooms =~= before.push(room));
                assert forall|i: int| 0 <= i < before.len() implies #[trigger] rooms[i] == before[i] by {}
                assert forall|i: int|
                    #![trigger rooms[i]]
                    0 <= i < rooms.len() implies numbers.contains(rooms[i].room_number) && area.room(
                    rooms[i].room_number,
                ) == Some(rooms[i]) by {
                    if i < before.len() {
                        assert(rooms[i] == before[i]);
                    }
                }
                assert forall|number: RoomNumber|
                    #![trigger names_room(rooms, number)]
                    names_room(rooms, number) == (numbers.contains(number) && area.room(number) is Some) by {
                    if names_room(before, number) {
                        let i = choose|i: int|
                            0 <= i < before.len() && (#[trigger] before[i]).room_number == number;
                        assert(rooms[i].room_number == number);
                    }
                    assert(rooms[rooms.len() - 1].room_number == last);
                }
                assert forall|i: int, j: int|
                    0 <= i < rooms.len() && 0 <= j < rooms.len() && i != j implies (
                #[trigger] rooms[i]).room_number != (#[trigger] rooms[j]).room_number by {
                    if i < before.len() && j < before.len() {
                        assert(before[i].room_number != before[j].room_number);
                    } else if i < before.len() {
                        assert(rest.contains(before[i].room_number));
                    } else {
                        assert(rest.contains(before[j].room_number));
                    }
                }
            },
            None => {
                assert(rooms =~= before);
            },
        }
    }
}

/// Undoing a deletion brings every deleted room back with its fields and properties,
/// and leaves every other room and the area's properties as they were. A room comes
/// back without its tags; what was a secret is one again where the viewer may say so.
pub proof fn law_undoing_a_deletion_restores_rooms(
    atlas: AtlasCache,
    area_id: AreaId,
    selection: Seq<EntityId>,
    fresh: Seq<u128>,
    again: Seq<u128>,
    limit: int,
)
    requires
        limit > 0,
        cache::selected_rooms(selection).no_duplicates(),
        atlas.area(area_id) matches Some(area) ==> forall|number: RoomNumber|
            #![trigger area.room(number)]
            area.room(number) matches Some(room) ==> properties_agree(room.properties@),
    ensures
        deletion::delete_command(atlas, area_id, selection) matches Some(command) ==> {
            let area = atlas.area(area_id)->0;
            let world = undoing::world_of(area);
            let after = undone(command, world, fresh, again, limit);
            &&& after.properties == world.properties
            &&& after.rooms.dom() == world.rooms.dom()
            &&& forall|number: RoomNumber|
                #![trigger after.rooms[number]]
                world.rooms.dom().contains(number) ==> after.rooms[number]
                    == if cache::selected_rooms(selection).contains(number) {
                    room_back(world.rooms[number], area.access.is_cleared_for_secrets)
                } else {
                    world.rooms[number]
                }
        },
{
    if let Some(command) = deletion::delete_command(atlas, area_id, selection) {
        let area = atlas.area(area_id)->0;
        let world = undoing::world_of(area);
        let parts = deletion::deletion_parts(area, selection);
        let numbers = parts.numbers;
        let cleared = parts.cleared;
        let done = compile::compiled_direction(command, Direction::Redo, fresh, limit);
        let settled = CommandView { resolved_ids: done.resolved_ids, pending: 0, ..command };
        let none = Seq::<BatchView>::empty();
        lemma_compiled_rooms(
            world,
            CompiledView {
                batches: none,
                outcomes: Seq::empty(),
                resolved_ids: command.resolved_ids,
                pending: command.pending,
            },
            command.redo,
            fresh,
            command.id,
            limit,
        );
        let middle = undoing::staged(world, done.batches);
        lemma_compiled_rooms(
            middle,
            CompiledView {
                batches: none,
                outcomes: Seq::empty(),
                resolved_ids: settled.resolved_ids,
                pending: settled.pending,
            },
            command.undo,
            again,
            command.id,
            limit,
        );
        assert(undoing::ops_of(none) =~= Seq::empty());
        let deleted = undoing::all_written(world, undoing::flat(command.redo));
        lemma_deletion_redo(world, area_id, parts);
        lemma_alike(middle, deleted, undoing::flat(command.undo));
        lemma_cached_rooms(area, numbers);

        let f = |mutation: MutationView| undoing::plain_ops(mutation);
        let snapshot = |room: RoomCache| deletion::room_snapshot(room, cleared);
        let edits = edits::room_edits(area, numbers, snapshot);
        let first = edits::rooms_mutation(area_id, edits);
        let second = deletion::rooms_contents(area_id, parts.rooms, parts.restored, cleared);
        let labels_base = parts.exits.len();
        let shapes_base = labels_base + parts.labels.len();
        let third = deletion::relinks(atlas, area_id, numbers, parts.restored)
            + deletion::labels_recreated(area_id, parts.labels, cleared, labels_base as int)
            + deletion::shapes_recreated(area_id, parts.shapes, cleared, shapes_base as int)
            + deletion::links_restored(area_id, area, parts.links, cleared);
        assert(snapshot =~= (|room: RoomCache| deletion::room_snapshot(room, parts.cleared)));
        assert(command.undo =~= first + second + third);
        undoing::lemma_collect_concat(first, second, f);
        undoing::lemma_collect_concat(first + second, third, f);
        assert(undoing::flat(first) == undoing::room_ops(area, numbers, snapshot)) by {
            if edits.len() == 0 {
                assert(undoing::flat(first) =~= Seq::empty());
                assert(compile::upserts(edits) =~= Seq::empty());
            } else {
                undoing::lemma_flat_one(first[0]);
            }
        }
        undoing::lemma_all_written(deleted, undoing::flat(first), undoing::flat(second));
        undoing::lemma_all_written(
            deleted,
            undoing::flat(first) + undoing::flat(second),
            undoing::flat(third),
        );
        lemma_rest_keeps(atlas, area_id, area, parts);
        assert forall|number: RoomNumber|
            numbers.contains(number) && area.room(number) is Some
                implies !#[trigger] deleted.rooms.dom().contains(number) by {
            assert(names_room(parts.rooms, number));
        }
        lemma_rooms_recreated(deleted, area, numbers, cleared);
        let recreated = undoing::all_written(deleted, undoing::flat(first));
        assert forall|i: int| 0 <= i < parts.rooms.len() implies recreated.rooms.dom().contains(
            (#[trigger] parts.rooms[i]).room_number,
        ) by {}
        lemma_contents(recreated, area_id, parts.rooms, parts.restored, cleared);
        let filled = undoing::all_written(recreated, undoing::flat(second));
        lemma_kept(filled, undoing::flat(third));
        let after = undone(command, world, fresh, again, limit);
        assert(after.rooms == filled.rooms);
        assert forall|number: RoomNumber|
            #![trigger world.rooms.dom().contains(number)]
            filled.rooms.dom().contains(number) == world.rooms.dom().contains(number) by {
            assert(recreated.rooms.dom().contains(number) == filled.rooms.dom().contains(number));
            assert(names_room(parts.rooms, number) == (numbers.contains(number) && area.room(
                number,
            ) is Some));
            assert(deleted.rooms.dom().contains(number) == (world.rooms.dom().contains(number)
                && !names_room(parts.rooms, number)));
        }
        assert(after.rooms.dom() =~= world.rooms.dom());
        assert forall|number: RoomNumber|
            #![trigger after.rooms[number]]
            world.rooms.dom().contains(number) implies after.rooms[number] == if numbers.contains(
            number,
        ) {
            room_back(world.rooms[number], cleared)
        } else {
            world.rooms[number]
        } by {
            assert(names_room(parts.rooms, number) == (numbers.contains(number) && area.room(
                number,
            ) is Some));
            if numbers.contains(number) {
                let room = area.room(number)->0;
                let i = choose|i: int|
                    0 <= i < parts.rooms.len() && (#[trigger] parts.rooms[i]).room_number == number;
                assert(parts.rooms[i] == room);
                assert(recreated.rooms[number] == undoing::created_room(
                    deletion::room_snapshot(room, cleared),
                ));
                lemma_properties_back(room.properties@);
                assert(filled.rooms[number] == room_back(world.rooms[number], cleared));
            } else {
                assert(recreated.rooms[number] == deleted.rooms[number]);
            }
        }
    }
}

// ===== Undoing a deletion: drawings =====

/// Whether no mutation of a list fills a slot.
pub open spec fn fills_none(mutations: Seq<MutationView>) -> bool {
    forall|i: int| 0 <= i < mutations.len() ==> mutation::filled_slot(#[trigger] mutations[i]) is None
}

// ===== Undoing a deletion: labels =====

/// Whether a mutation leaves labels alone.
pub open spec fn spares_labels(mutation: MutationView) -> bool {
    match mutation {
        Mutation::CreateLabel { .. } => false,
        Mutation::UpdateLabel { .. } => false,
        Mutation::DeleteLabel { .. } => false,
        Mutation::AreaBatch { operations, .. } => all_keep_labels(operations),
        _ => true,
    }
}

/// What a list that leaves labels alone leaves, of labels and of the slot table.
pub(crate) proof fn lemma_labels_left(
    world: World,
    start: CompiledView,
    mutations: Seq<MutationView>,
    fresh: Seq<u128>,
    command: commands::CommandId,
    limit: int,
)
    requires
        limit > 0,
        forall|i: int| 0 <= i < mutations.len() ==> spares_labels(#[trigger] mutations[i]),
        mutation::fills_in(mutations, start.resolved_ids.len() as int),
    ensures
        ({
            let end = compile::compiled(start, mutations, fresh, command, limit);
            &&& undoing::staged(world, end.batches).labels == undoing::staged(
                world,
                start.batches,
            ).labels
            &&& end.resolved_ids.len() == start.resolved_ids.len()
            &&& fills_none(mutations) ==> end.resolved_ids == start.resolved_ids
        }),
    decreases mutations.len(),
{
    if mutations.len() > 0 {
        let rest = mutations.drop_last();
        let last = mutations.last();
        let at = mutations.len() - 1;
        assert(mutations[at] == last);
        assert forall|i: int| 0 <= i < rest.len() implies #[trigger] rest[i] == mutations[i] by {}
        lemma_labels_left(world, start, rest, fresh, command, limit);
        let before = compile::compiled(start, rest, fresh, command, limit);
        lemma_step_staged(world, before, last, fresh[at], command, limit);
        let added = step_ops(before.resolved_ids, last, fresh[at]);
        assert(all_keep_labels(added));
        lemma_kept(undoing::staged(world, before.batches), added);
    }
}

/// A label after its deletion was undone: under a new identity, and a secret again
/// only where the viewer may say so.
pub open spec fn label_back(label: LabelCache, id: LabelId, cleared: bool) -> LabelCache<Seq<char>> {
    LabelCache { id, is_secret: label.is_secret && cleared, ..label@ }
}

/// Whether a list names a label.
pub open spec fn names_label(labels: Seq<LabelCache>, id: LabelId) -> bool {
    exists|i: int| 0 <= i < labels.len() && (#[trigger] labels[i]).id == id
}

/// The cached labels among some identities.
pub(crate) proof fn lemma_cached_labels(area: AreaCache, ids: Seq<LabelId>)
    ensures
        ({
            let labels = deletion::cached_labels(area, ids);
            forall|id: LabelId|
                #![trigger names_label(labels, id)]
                names_label(labels, id) == (ids.contains(id) && area.label(id) is Some)
        }),
    decreases ids.len(),
{
    let labels = deletion::cached_labels(area, ids);
    if ids.len() > 0 {
        let rest = ids.drop_last();
        let last = ids.last();
        let before = deletion::cached_labels(area, rest);
        lemma_cached_labels(area, rest);
        assert(ids[ids.len() - 1] == last);
        assert forall|id: LabelId| ids.contains(id) == (rest.contains(id) || id == last) by {
            if ids.contains(id) {
                let k = choose|k: int| 0 <= k < ids.len() && ids[k] == id;
                if k < rest.len() {
                    assert(rest[k] == id);
                }
            }
            if rest.contains(id) {
                let k = choose|k: int| 0 <= k < rest.len() && rest[k] == id;
                assert(ids[k] == id);
            }
        }
        match area.label(last) {
            Some(label) => {
                list::lemma_first_exists(area.labels@, |item: LabelCache| item.id == last);
                assert(label.id == last);
                assert(labels =~= before.push(label));
                assert forall|id: LabelId|
                    #![trigger names_label(labels, id)]
                    names_label(labels, id) == (ids.contains(id) && area.label(id) is Some) by {
                    if names_label(before, id) {
                        let i = choose|i: int| 0 <= i < before.len() && (#[trigger] before[i]).id == id;
                        assert(labels[i].id == id);
                    }
                    assert(labels[labels.len() - 1].id == last);
                    if names_label(labels, id) {
                        let i = choose|i: int| 0 <= i < labels.len() && (#[trigger] labels[i]).id == id;
                        if i < before.len() {
                            assert(before[i].id == id);
                        }
                    }
                }
            },
            None => {
                assert(labels =~= before);
            },
        }
    }
}

/// Whether one of the first `n` new identities is a label's.
pub open spec fn is_new_label(fresh: Seq<u128>, n: int, id: LabelId) -> bool {
    exists|i: int| 0 <= i < n && LabelId(#[trigger] fresh[i]) == id
}

/// What recreated labels leave: each is there under its new identity, which its slot
/// holds.
proof fn lemma_labels_recreated(
    world: World,
    start: CompiledView,
    area_id: AreaId,
    labels: Seq<LabelCache>,
    cleared: bool,
    base: int,
    fresh: Seq<u128>,
    command: commands::CommandId,
    limit: int,
)
    requires
        limit > 0,
        fresh.len() >= labels.len(),
        fresh.no_duplicates(),
        0 <= base,
        base + labels.len() <= start.resolved_ids.len(),
        base + labels.len() <= usize::MAX,
    ensures
        ({
            let end = compile::compiled(
                start,
                deletion::labels_recreated(area_id, labels, cleared, base),
                fresh,
                command,
                limit,
            );
            let before = undoing::staged(world, start.batches);
            let after = undoing::staged(world, end.batches);
            &&& after.shapes == before.shapes
            &&& end.resolved_ids.len() == start.resolved_ids.len()
            &&& forall|s: int|
                0 <= s < base || base + labels.len() <= s < start.resolved_ids.len()
                    ==> #[trigger] end.resolved_ids[s] == start.resolved_ids[s]
            &&& forall|i: int|
                #![trigger fresh[i]]
                0 <= i < labels.len() ==> end.resolved_ids[base + i] == Some(
                    ResolvedId::Label(LabelId(fresh[i])),
                ) && after.labels.dom().contains(LabelId(fresh[i])) && after.labels[LabelId(fresh[i])]
                    == label_back(labels[i], LabelId(fresh[i]), cleared)
            &&& forall|id: LabelId|
                #![trigger after.labels.dom().contains(id)]
                after.labels.dom().contains(id) == (before.labels.dom().contains(id)
                    || is_new_label(fresh, labels.len() as int, id))
            &&& forall|id: LabelId|
                #![trigger after.labels[id]]
                !is_new_label(fresh, labels.len() as int, id) ==> after.labels[id]
                    == before.labels[id]
        }),
    decreases labels.len(),
{
    let mutations = deletion::labels_recreated(area_id, labels, cleared, base);
    if labels.len() > 0 {
        let rest = labels.drop_last();
        let at = labels.len() - 1;
        let last = labels[at];
        let id = LabelId(fresh[at]);
        lemma_labels_recreated(world, start, area_id, rest, cleared, base, fresh, command, limit);
        assert(mutations.drop_last() =~= deletion::labels_recreated(area_id, rest, cleared, base));
        let middle = compile::compiled(
            start,
            deletion::labels_recreated(area_id, rest, cleared, base),
            fresh,
            command,
            limit,
        );
        let end = compile::compiled(start, mutations, fresh, command, limit);
        lemma_step_staged(world, middle, mutations.last(), fresh[at], command, limit);
        let args = deletion::label_args(last, deletion::secrecy(cleared, last.is_secret));
        let op = AreaMutation::CreateLabel { body: LabelArgs { id: Some(id), ..args } };
        assert(step_ops(middle.resolved_ids, mutations.last(), fresh[at]) =~= seq![op]);
        let halfway = undoing::staged(world, middle.batches);
        undoing::lemma_one_written(halfway, op);
        let after = undoing::staged(world, end.batches);
        assert(after == undoing::written(halfway, op));
        assert(after.labels[id] == label_back(last, id, cleared));
        assert forall|i: int| 0 <= i < rest.len() implies #[trigger] rest[i] == labels[i] by {}
        assert forall|other: LabelId|
            is_new_label(fresh, labels.len() as int, other) == (is_new_label(
                fresh,
                rest.len() as int,
                other,
            ) || other == id) by {
            if is_new_label(fresh, rest.len() as int, other) {
                let i = choose|i: int| 0 <= i < rest.len() && LabelId(#[trigger] fresh[i]) == other;
                assert(LabelId(fresh[i]) == other);
            }
            assert(LabelId(fresh[at]) == id);
        }
        assert forall|i: int|
            #![trigger fresh[i]]
            0 <= i < labels.len() implies end.resolved_ids[base + i] == Some(
            ResolvedId::Label(LabelId(fresh[i])),
        ) && after.labels.dom().contains(LabelId(fresh[i])) && after.labels[LabelId(fresh[i])]
            == label_back(labels[i], LabelId(fresh[i]), cleared) by {
            if i < at {
                assert(rest[i] == labels[i]);
                assert(fresh[i] != fresh[at]);
            }
        }
    }
}

/// What deleted labels leave.
pub(crate) proof fn lemma_labels_deleted(
    world: World,
    start: CompiledView,
    area_id: AreaId,
    ids: Seq<LabelId>,
    base: int,
    fresh: Seq<u128>,
    command: commands::CommandId,
    limit: int,
)
    requires
        limit > 0,
        0 <= base,
        base + ids.len() <= start.resolved_ids.len(),
        base + ids.len() <= usize::MAX,
        forall|i: int|
            #![trigger ids[i]]
            0 <= i < ids.len() ==> start.resolved_ids[base + i] == Some(ResolvedId::Label(ids[i])),
    ensures
        ({
            let end = compile::compiled(
                start,
                deletion::labels_deleted(area_id, ids.len(), base),
                fresh,
                command,
                limit,
            );
            let before = undoing::staged(world, start.batches);
            let after = undoing::staged(world, end.batches);
            &&& after.shapes == before.shapes
            &&& end.resolved_ids == start.resolved_ids
            &&& forall|id: LabelId|
                #![trigger after.labels.dom().contains(id)]
                after.labels.dom().contains(id) == (before.labels.dom().contains(id) && !ids.contains(
                    id,
                ))
            &&& forall|id: LabelId|
                #![trigger after.labels[id]]
                !ids.contains(id) ==> after.labels[id] == before.labels[id]
        }),
    decreases ids.len(),
{
    let mutations = deletion::labels_deleted(area_id, ids.len(), base);
    if ids.len() > 0 {
        let rest = ids.drop_last();
        let at = ids.len() - 1;
        let last = ids[at];
        assert forall|i: int| 0 <= i < rest.len() implies #[trigger] rest[i] == ids[i] by {}
        lemma_labels_deleted(world, start, area_id, rest, base, fresh, command, limit);
        assert(mutations.drop_last() =~= deletion::labels_deleted(area_id, rest.len(), base));
        let middle = compile::compiled(
            start,
            deletion::labels_deleted(area_id, rest.len(), base),
            fresh,
            command,
            limit,
        );
        lemma_step_staged(world, middle, mutations.last(), fresh[at], command, limit);
        let op = AreaMutation::DeleteLabel { label_id: last };
        assert(step_ops(middle.resolved_ids, mutations.last(), fresh[at]) =~= seq![op]);
        let halfway = undoing::staged(world, middle.batches);
        undoing::lemma_one_written(halfway, op);
        assert forall|id: LabelId| ids.contains(id) == (rest.contains(id) || id == last) by {
            if ids.contains(id) {
                let k = choose|k: int| 0 <= k < ids.len() && ids[k] == id;
                if k < rest.len() {
                    assert(rest[k] == id);
                }
            }
            if rest.contains(id) {
                let k = choose|k: int| 0 <= k < rest.len() && rest[k] == id;
                assert(ids[k] == id);
            }
        }
    }
}

// ===== Undoing a deletion: shapes =====

/// Whether a mutation leaves shapes alone.
pub open spec fn spares_shapes(mutation: MutationView) -> bool {
    match mutation {
        Mutation::CreateShape { .. } => false,
        Mutation::UpdateShape { .. } => false,
        Mutation::DeleteShape { .. } => false,
        Mutation::AreaBatch { operations, .. } => all_keep_shapes(operations),
        _ => true,
    }
}

/// What a list that leaves shapes alone leaves, of shapes and of the slot table.
pub(crate) proof fn lemma_shapes_left(
    world: World,
    start: CompiledView,
    mutations: Seq<MutationView>,
    fresh: Seq<u128>,
    command: commands::CommandId,
    limit: int,
)
    requires
        limit > 0,
        forall|i: int| 0 <= i < mutations.len() ==> spares_shapes(#[trigger] mutations[i]),
        mutation::fills_in(mutations, start.resolved_ids.len() as int),
    ensures
        ({
            let end = compile::compiled(start, mutations, fresh, command, limit);
            &&& undoing::staged(world, end.batches).shapes == undoing::staged(
                world,
                start.batches,
            ).shapes
            &&& end.resolved_ids.len() == start.resolved_ids.len()
            &&& fills_none(mutations) ==> end.resolved_ids == start.resolved_ids
        }),
    decreases mutations.len(),
{
    if mutations.len() > 0 {
        let rest = mutations.drop_last();
        let last = mutations.last();
        let at = mutations.len() - 1;
        assert(mutations[at] == last);
        assert forall|i: int| 0 <= i < rest.len() implies #[trigger] rest[i] == mutations[i] by {}
        lemma_shapes_left(world, start, rest, fresh, command, limit);
        let before = compile::compiled(start, rest, fresh, command, limit);
        lemma_step_staged(world, before, last, fresh[at], command, limit);
        let added = step_ops(before.resolved_ids, last, fresh[at]);
        assert(all_keep_shapes(added));
        lemma_kept(undoing::staged(world, before.batches), added);
    }
}

/// A shape after its deletion was undone: a secret again only where the viewer may
/// say so.
pub open spec fn shape_back(shape: ShapeCache, cleared: bool) -> ShapeState {
    ShapeState { is_secret: shape.is_secret && cleared, ..undoing::shape_state(shape) }
}

/// Whether a list names a shape.
pub open spec fn names_shape(shapes: Seq<ShapeCache>, id: ShapeId) -> bool {
    exists|i: int| 0 <= i < shapes.len() && (#[trigger] shapes[i]).id == id
}

/// The cached shapes among some identities.
pub(crate) proof fn lemma_cached_shapes(area: AreaCache, ids: Seq<ShapeId>)
    ensures
        ({
            let shapes = deletion::cached_shapes(area, ids);
            forall|id: ShapeId|
                #![trigger names_shape(shapes, id)]
                names_shape(shapes, id) == (ids.contains(id) && area.shape(id) is Some)
        }),
    decreases ids.len(),
{
    let shapes = deletion::cached_shapes(area, ids);
    if ids.len() > 0 {
        let rest = ids.drop_last();
        let last = ids.last();
        let before = deletion::cached_shapes(area, rest);
        lemma_cached_shapes(area, rest);
        assert(ids[ids.len() - 1] == last);
        assert forall|id: ShapeId| ids.contains(id) == (rest.contains(id) || id == last) by {
            if ids.contains(id) {
                let k = choose|k: int| 0 <= k < ids.len() && ids[k] == id;
                if k < rest.len() {
                    assert(rest[k] == id);
                }
            }
            if rest.contains(id) {
                let k = choose|k: int| 0 <= k < rest.len() && rest[k] == id;
                assert(ids[k] == id);
            }
        }
        match area.shape(last) {
            Some(shape) => {
                list::lemma_first_exists(area.shapes@, |item: ShapeCache| item.id == last);
                assert(shape.id == last);
                assert(shapes =~= before.push(shape));
                assert forall|id: ShapeId|
                    #![trigger names_shape(shapes, id)]
                    names_shape(shapes, id) == (ids.contains(id) && area.shape(id) is Some) by {
                    if names_shape(before, id) {
                        let i = choose|i: int| 0 <= i < before.len() && (#[trigger] before[i]).id == id;
                        assert(shapes[i].id == id);
                    }
                    assert(shapes[shapes.len() - 1].id == last);
                    if names_shape(shapes, id) {
                        let i = choose|i: int| 0 <= i < shapes.len() && (#[trigger] shapes[i]).id == id;
                        if i < before.len() {
                            assert(before[i].id == id);
                        }
                    }
                }
            },
            None => {
                assert(shapes =~= before);
            },
        }
    }
}

/// Whether one of the first `n` new identities is a shape's.
pub open spec fn is_new_shape(fresh: Seq<u128>, n: int, id: ShapeId) -> bool {
    exists|i: int| 0 <= i < n && ShapeId(#[trigger] fresh[i]) == id
}

/// What recreated shapes leave: each is there under its new identity, which its slot
/// holds.
proof fn lemma_shapes_recreated(
    world: World,
    start: CompiledView,
    area_id: AreaId,
    shapes: Seq<ShapeCache>,
    cleared: bool,
    base: int,
    fresh: Seq<u128>,
    command: commands::CommandId,
    limit: int,
)
    requires
        limit > 0,
        fresh.len() >= shapes.len(),
        fresh.no_duplicates(),
        0 <= base,
        base + shapes.len() <= start.resolved_ids.len(),
        base + shapes.len() <= usize::MAX,
    ensures
        ({
            let end = compile::compiled(
                start,
                deletion::shapes_recreated(area_id, shapes, cleared, base),
                fresh,
                command,
                limit,
            );
            let before = undoing::staged(world, start.batches);
            let after = undoing::staged(world, end.batches);
            &&& after.labels == before.labels
            &&& end.resolved_ids.len() == start.resolved_ids.len()
            &&& forall|s: int|
                0 <= s < base || base + shapes.len() <= s < start.resolved_ids.len()
                    ==> #[trigger] end.resolved_ids[s] == start.resolved_ids[s]
            &&& forall|i: int|
                #![trigger fresh[i]]
                0 <= i < shapes.len() ==> end.resolved_ids[base + i] == Some(
                    ResolvedId::Shape(ShapeId(fresh[i])),
                ) && after.shapes.dom().contains(ShapeId(fresh[i])) && after.shapes[ShapeId(fresh[i])]
                    == shape_back(shapes[i], cleared)
            &&& forall|id: ShapeId|
                #![trigger after.shapes.dom().contains(id)]
                after.shapes.dom().contains(id) == (before.shapes.dom().contains(id)
                    || is_new_shape(fresh, shapes.len() as int, id))
            &&& forall|id: ShapeId|
                #![trigger after.shapes[id]]
                !is_new_shape(fresh, shapes.len() as int, id) ==> after.shapes[id]
                    == before.shapes[id]
        }),
    decreases shapes.len(),
{
    let mutations = deletion::shapes_recreated(area_id, shapes, cleared, base);
    if shapes.len() > 0 {
        let rest = shapes.drop_last();
        let at = shapes.len() - 1;
        let last = shapes[at];
        let id = ShapeId(fresh[at]);
        lemma_shapes_recreated(world, start, area_id, rest, cleared, base, fresh, command, limit);
        assert(mutations.drop_last() =~= deletion::shapes_recreated(area_id, rest, cleared, base));
        let middle = compile::compiled(
            start,
            deletion::shapes_recreated(area_id, rest, cleared, base),
            fresh,
            command,
            limit,
        );
        let end = compile::compiled(start, mutations, fresh, command, limit);
        lemma_step_staged(world, middle, mutations.last(), fresh[at], command, limit);
        let args = deletion::shape_args(last, deletion::secrecy(cleared, last.is_secret));
        let op = AreaMutation::CreateShape { body: ShapeArgs { id: Some(id), ..args } };
        assert(step_ops(middle.resolved_ids, mutations.last(), fresh[at]) =~= seq![op]);
        let halfway = undoing::staged(world, middle.batches);
        undoing::lemma_one_written(halfway, op);
        let after = undoing::staged(world, end.batches);
        assert(after == undoing::written(halfway, op));
        assert(after.shapes[id] == shape_back(last, cleared));
        assert forall|i: int| 0 <= i < rest.len() implies #[trigger] rest[i] == shapes[i] by {}
        assert forall|other: ShapeId|
            is_new_shape(fresh, shapes.len() as int, other) == (is_new_shape(
                fresh,
                rest.len() as int,
                other,
            ) || other == id) by {
            if is_new_shape(fresh, rest.len() as int, other) {
                let i = choose|i: int| 0 <= i < rest.len() && ShapeId(#[trigger] fresh[i]) == other;
                assert(ShapeId(fresh[i]) == other);
            }
            assert(ShapeId(fresh[at]) == id);
        }
        assert forall|i: int|
            #![trigger fresh[i]]
            0 <= i < shapes.len() implies end.resolved_ids[base + i] == Some(
            ResolvedId::Shape(ShapeId(fresh[i])),
        ) && after.shapes.dom().contains(ShapeId(fresh[i])) && after.shapes[ShapeId(fresh[i])]
            == shape_back(shapes[i], cleared) by {
            if i < at {
                assert(rest[i] == shapes[i]);
                assert(fresh[i] != fresh[at]);
            }
        }
    }
}

/// What deleted shapes leave.
pub(crate) proof fn lemma_shapes_deleted(
    world: World,
    start: CompiledView,
    area_id: AreaId,
    ids: Seq<ShapeId>,
    base: int,
    fresh: Seq<u128>,
    command: commands::CommandId,
    limit: int,
)
    requires
        limit > 0,
        0 <= base,
        base + ids.len() <= start.resolved_ids.len(),
        base + ids.len() <= usize::MAX,
        forall|i: int|
            #![trigger ids[i]]
            0 <= i < ids.len() ==> start.resolved_ids[base + i] == Some(ResolvedId::Shape(ids[i])),
    ensures
        ({
            let end = compile::compiled(
                start,
                deletion::shapes_deleted(area_id, ids.len(), base),
                fresh,
                command,
                limit,
            );
            let before = undoing::staged(world, start.batches);
            let after = undoing::staged(world, end.batches);
            &&& after.labels == before.labels
            &&& end.resolved_ids == start.resolved_ids
            &&& forall|id: ShapeId|
                #![trigger after.shapes.dom().contains(id)]
                after.shapes.dom().contains(id) == (before.shapes.dom().contains(id) && !ids.contains(
                    id,
                ))
            &&& forall|id: ShapeId|
                #![trigger after.shapes[id]]
                !ids.contains(id) ==> after.shapes[id] == before.shapes[id]
        }),
    decreases ids.len(),
{
    let mutations = deletion::shapes_deleted(area_id, ids.len(), base);
    if ids.len() > 0 {
        let rest = ids.drop_last();
        let at = ids.len() - 1;
        let last = ids[at];
        assert forall|i: int| 0 <= i < rest.len() implies #[trigger] rest[i] == ids[i] by {}
        lemma_shapes_deleted(world, start, area_id, rest, base, fresh, command, limit);
        assert(mutations.drop_last() =~= deletion::shapes_deleted(area_id, rest.len(), base));
        let middle = compile::compiled(
            start,
            deletion::shapes_deleted(area_id, rest.len(), base),
            fresh,
            command,
            limit,
        );
        lemma_step_staged(world, middle, mutations.last(), fresh[at], command, limit);
        let op = AreaMutation::DeleteShape { shape_id: last };
        assert(step_ops(middle.resolved_ids, mutations.last(), fresh[at]) =~= seq![op]);
        let halfway = undoing::staged(world, middle.batches);
        undoing::lemma_one_written(halfway, op);
        assert forall|id: ShapeId| ids.contains(id) == (rest.contains(id) || id == last) by {
            if ids.contains(id) {
                let k = choose|k: int| 0 <= k < ids.len() && ids[k] == id;
                if k < rest.len() {
                    assert(rest[k] == id);
                }
            }
            if rest.contains(id) {
                let k = choose|k: int| 0 <= k < rest.len() && rest[k] == id;
                assert(ids[k] == id);
            }
        }
    }
}

// ===== Undoing a deletion: the laws on drawings =====

/// The contents of recreated rooms are properties and exits.
proof fn lemma_contents_are(
    area_id: AreaId,
    rooms: Seq<RoomCache>,
    restored: Seq<ConnectionId>,
    cleared: bool,
)
    ensures
        ({
            let mutations = deletion::rooms_contents(area_id, rooms, restored, cleared);
            forall|i: int|
                0 <= i < mutations.len() ==> (#[trigger] mutations[i]) is SetRoomProperty
                    || mutations[i] is CreateExit
        }),
    decreases rooms.len(),
{
    if rooms.len() > 0 {
        lemma_contents_are(area_id, rooms.drop_last(), restored, cleared);
        let early = deletion::rooms_contents(area_id, rooms.drop_last(), restored, cleared);
        let base = deletion::rooms_exits(rooms.drop_last(), restored).len() as int;
        let late = deletion::room_contents(area_id, rooms.last(), restored, cleared, base);
        let mutations = deletion::rooms_contents(area_id, rooms, restored, cleared);
        assert(mutations == early + late);
        assert forall|i: int| 0 <= i < mutations.len() implies (#[trigger] mutations[i]) is SetRoomProperty
            || mutations[i] is CreateExit by {
            if i < early.len() {
                assert(mutations[i] == early[i]);
            } else {
                assert(mutations[i] == late[i - early.len()]);
            }
        }
    }
}

/// What comes before the drawings in the undoing of a deletion leaves them alone.
proof fn lemma_early_spares(atlas: AtlasCache, area_id: AreaId, area: AreaCache, parts: DeletionParts)
    ensures
        ({
            let early = deletion_early(atlas, area_id, area, parts);
            forall|i: int|
                0 <= i < early.len() ==> spares_labels(#[trigger] early[i]) && spares_shapes(early[i])
        }),
{
    let snapshot = |room: RoomCache| deletion::room_snapshot(room, parts.cleared);
    let a = edits::rooms_mutation(area_id, edits::room_edits(area, parts.numbers, snapshot));
    let b = deletion::rooms_contents(area_id, parts.rooms, parts.restored, parts.cleared);
    let c = deletion::relinks(atlas, area_id, parts.numbers, parts.restored);
    let early = deletion_early(atlas, area_id, area, parts);
    lemma_contents_are(area_id, parts.rooms, parts.restored, parts.cleared);
    lemma_relinks(atlas, area_id, parts.numbers, parts.restored);
    assert forall|i: int| 0 <= i < early.len() implies spares_labels(#[trigger] early[i])
        && spares_shapes(early[i]) by {
        if i < a.len() {
            assert(early[i] == a[i]);
        } else if i < a.len() + b.len() {
            assert(early[i] == b[i - a.len()]);
        } else {
            assert(early[i] == c[i - a.len() - b.len()]);
        }
    }
}

/// What comes before the drawings in the undoing of a deletion.
pub open spec fn deletion_early(
    atlas: AtlasCache,
    area_id: AreaId,
    area: AreaCache,
    parts: DeletionParts,
) -> Seq<MutationView> {
    edits::rooms_mutation(
        area_id,
        edits::room_edits(
            area,
            parts.numbers,
            |room: RoomCache| deletion::room_snapshot(room, parts.cleared),
        ),
    ) + deletion::rooms_contents(area_id, parts.rooms, parts.restored, parts.cleared)
        + deletion::relinks(atlas, area_id, parts.numbers, parts.restored)
}

/// The ids of labels.
pub open spec fn label_ids(labels: Seq<LabelCache>) -> Seq<LabelId> {
    labels.map_values(|label: LabelCache| label.id)
}

/// The ids of shapes.
pub open spec fn shape_ids(shapes: Seq<ShapeCache>) -> Seq<ShapeId> {
    shapes.map_values(|shape: ShapeCache| shape.id)
}

/// The start of a compilation.
pub open spec fn compile_start(command: CommandView) -> CompiledView {
    CompiledView {
        batches: Seq::empty(),
        outcomes: Seq::empty(),
        resolved_ids: command.resolved_ids,
        pending: command.pending,
    }
}

/// What deleting the drawings that slots hold leaves.
proof fn lemma_slots_deleted(
    world: World,
    command: CommandView,
    area_id: AreaId,
    parts: DeletionParts,
    gone_labels: Seq<LabelId>,
    gone_shapes: Seq<ShapeId>,
    fresh: Seq<u128>,
    limit: int,
)
    requires
        limit > 0,
        deletion::deletion_seeds(parts).len() <= usize::MAX,
        command.redo == deletion::deletion_redo(area_id, parts),
        command.resolved_ids.len() == deletion::deletion_seeds(parts).len(),
        gone_labels.len() == parts.labels.len(),
        gone_shapes.len() == parts.shapes.len(),
        forall|i: int|
            #![trigger gone_labels[i]]
            0 <= i < gone_labels.len() ==> command.resolved_ids[parts.exits.len() + i] == Some(
                ResolvedId::Label(gone_labels[i]),
            ),
        forall|i: int|
            #![trigger gone_shapes[i]]
            0 <= i < gone_shapes.len() ==> command.resolved_ids[parts.exits.len() + parts.labels.len()
                + i] == Some(ResolvedId::Shape(gone_shapes[i])),
        fresh.len() >= command.redo.len(),
    ensures
        ({
            let done = compile::compiled_direction(command, Direction::Redo, fresh, limit);
            let after = undoing::staged(world, done.batches);
            &&& done.resolved_ids == command.resolved_ids
            &&& forall|id: LabelId|
                #![trigger after.labels.dom().contains(id)]
                after.labels.dom().contains(id) == (world.labels.dom().contains(id)
                    && !gone_labels.contains(id))
            &&& forall|id: LabelId|
                #![trigger after.labels[id]]
                !gone_labels.contains(id) ==> after.labels[id] == world.labels[id]
            &&& forall|id: ShapeId|
                #![trigger after.shapes.dom().contains(id)]
                after.shapes.dom().contains(id) == (world.shapes.dom().contains(id)
                    && !gone_shapes.contains(id))
            &&& forall|id: ShapeId|
                #![trigger after.shapes[id]]
                !gone_shapes.contains(id) ==> after.shapes[id] == world.shapes[id]
        }),
{
    let exits = parts.exits.len() as int;
    let labels = parts.labels.len() as int;
    let start = compile_start(command);
    let a = deletion::links_mutation(area_id, parts.links) + deletion::rooms_deleted(
        area_id,
        parts.rooms,
    );
    let b = deletion::labels_deleted(area_id, parts.labels.len(), exits);
    let c = deletion::shapes_deleted(area_id, parts.shapes.len(), exits + labels);
    assert(command.redo =~= a + b + c);
    lemma_compiled_concat(start, a + b, c, fresh, command.id, limit);
    lemma_compiled_concat(start, a, b, fresh, command.id, limit);
    let first = compile::compiled(start, a, fresh, command.id, limit);
    let fresh_b = fresh.skip(a.len() as int);
    let second = compile::compiled(first, b, fresh_b, command.id, limit);
    let fresh_c = fresh.skip((a + b).len() as int);
    assert forall|i: int| 0 <= i < a.len() implies spares_labels(#[trigger] a[i]) && spares_shapes(a[i])
        && mutation::filled_slot(a[i]) is None by {
        let links = deletion::links_mutation(area_id, parts.links);
        if i < links.len() {
            assert(a[i] == links[i]);
        } else {
            assert(a[i] == deletion::rooms_deleted(area_id, parts.rooms)[i - links.len()]);
        }
    }
    lemma_labels_left(world, start, a, fresh, command.id, limit);
    lemma_shapes_left(world, start, a, fresh, command.id, limit);
    assert(undoing::ops_of(start.batches) =~= Seq::empty());
    lemma_labels_deleted(world, first, area_id, gone_labels, exits, fresh_b, command.id, limit);
    lemma_shapes_deleted(
        world,
        second,
        area_id,
        gone_shapes,
        exits + labels,
        fresh_c,
        command.id,
        limit,
    );
}

/// What a deletion leaves of the drawings and of the slot table.
pub(crate) proof fn lemma_drawings_deleted(
    world: World,
    command: CommandView,
    area_id: AreaId,
    parts: DeletionParts,
    fresh: Seq<u128>,
    limit: int,
)
    requires
        limit > 0,
        deletion::deletion_seeds(parts).len() <= usize::MAX,
        command.redo == deletion::deletion_redo(area_id, parts),
        command.resolved_ids == deletion::filled_slots(deletion::deletion_seeds(parts)),
        fresh.len() >= command.redo.len(),
    ensures
        ({
            let done = compile::compiled_direction(command, Direction::Redo, fresh, limit);
            let after = undoing::staged(world, done.batches);
            &&& done.resolved_ids == command.resolved_ids
            &&& forall|id: LabelId|
                #![trigger after.labels.dom().contains(id)]
                after.labels.dom().contains(id) == (world.labels.dom().contains(id)
                    && !names_label(parts.labels, id))
            &&& forall|id: LabelId|
                #![trigger after.labels[id]]
                !names_label(parts.labels, id) ==> after.labels[id] == world.labels[id]
            &&& forall|id: ShapeId|
                #![trigger after.shapes.dom().contains(id)]
                after.shapes.dom().contains(id) == (world.shapes.dom().contains(id)
                    && !names_shape(parts.shapes, id))
            &&& forall|id: ShapeId|
                #![trigger after.shapes[id]]
                !names_shape(parts.shapes, id) ==> after.shapes[id] == world.shapes[id]
        }),
{
    let exits = parts.exits.len() as int;
    let labels = parts.labels.len() as int;
    let seeds = deletion::deletion_seeds(parts);
    let gone_labels = label_ids(parts.labels);
    let gone_shapes = shape_ids(parts.shapes);
    assert forall|i: int|
        #![trigger gone_labels[i]]
        0 <= i < gone_labels.len() implies command.resolved_ids[exits + i] == Some(
        ResolvedId::Label(gone_labels[i]),
    ) by {
        assert(seeds[exits + i] == deletion::label_seeds(parts.labels)[i]);
    }
    assert forall|i: int|
        #![trigger gone_shapes[i]]
        0 <= i < gone_shapes.len() implies command.resolved_ids[exits + labels + i] == Some(
        ResolvedId::Shape(gone_shapes[i]),
    ) by {
        assert(seeds[exits + labels + i] == deletion::shape_seeds(parts.shapes)[i]);
    }
    lemma_slots_deleted(world, command, area_id, parts, gone_labels, gone_shapes, fresh, limit);
    assert forall|id: LabelId| gone_labels.contains(id) == names_label(parts.labels, id) by {
        if gone_labels.contains(id) {
            let i = choose|i: int| 0 <= i < gone_labels.len() && gone_labels[i] == id;
            assert(parts.labels[i].id == id);
        }
        if names_label(parts.labels, id) {
            let i = choose|i: int| 0 <= i < parts.labels.len() && (#[trigger] parts.labels[i]).id == id;
            assert(gone_labels[i] == id);
        }
    }
    assert forall|id: ShapeId| gone_shapes.contains(id) == names_shape(parts.shapes, id) by {
        if gone_shapes.contains(id) {
            let i = choose|i: int| 0 <= i < gone_shapes.len() && gone_shapes[i] == id;
            assert(parts.shapes[i].id == id);
        }
        if names_shape(parts.shapes, id) {
            let i = choose|i: int| 0 <= i < parts.shapes.len() && (#[trigger] parts.shapes[i]).id == id;
            assert(gone_shapes[i] == id);
        }
    }
}

/// The slot table after a command was done and undone.
pub open spec fn slots_undone(
    command: CommandView,
    fresh: Seq<u128>,
    again: Seq<u128>,
    limit: int,
) -> Seq<Option<ResolvedId>> {
    let done = compile::compiled_direction(command, Direction::Redo, fresh, limit);
    let settled = CommandView { resolved_ids: done.resolved_ids, pending: 0, ..command };
    compile::compiled_direction(settled, Direction::Undo, again, limit).resolved_ids
}

/// The label that slot `i` from `base` on holds.
pub open spec fn label_in(slots: Seq<Option<ResolvedId>>, base: int, i: int) -> Option<LabelId> {
    commands::label_named(slots, IdRef::Slot((base + i) as usize))
}

/// The shape that slot `i` from `base` on holds.
pub open spec fn shape_in(slots: Seq<Option<ResolvedId>>, base: int, i: int) -> Option<ShapeId> {
    commands::shape_named(slots, IdRef::Slot((base + i) as usize))
}

/// Whether new identities are taken by no label and no shape.
pub open spec fn are_vacant(world: World, ids: Seq<u128>) -> bool {
    forall|i: int|
        0 <= i < ids.len() ==> !world.labels.dom().contains(LabelId(#[trigger] ids[i]))
            && !world.shapes.dom().contains(ShapeId(ids[i]))
}

/// Whether the labels of one world are those of another without some, and with copies
/// of others under the identities that slots from `base` on hold.
pub open spec fn labels_returned(
    after: World,
    before: World,
    selected: Seq<LabelId>,
    labels: Seq<LabelCache>,
    cleared: bool,
    slots: Seq<Option<ResolvedId>>,
    base: int,
) -> bool {
    &&& forall|i: int|
        #![trigger label_in(slots, base, i)]
        0 <= i < labels.len() ==> (label_in(slots, base, i) matches Some(id)
            && after.labels.dom().contains(id) && after.labels[id] == label_back(labels[i], id, cleared))
    &&& forall|id: LabelId|
        #![trigger after.labels.dom().contains(id)]
        after.labels.dom().contains(id) == ((before.labels.dom().contains(id) && !selected.contains(id))
            || exists|i: int|
            0 <= i < labels.len() && #[trigger] label_in(slots, base, i) == Some(id))
    &&& forall|id: LabelId|
        #![trigger after.labels[id]]
        before.labels.dom().contains(id) && !selected.contains(id) ==> after.labels[id]
            == before.labels[id]
}

/// Whether the shapes of one world are those of another without some, and with copies
/// of others under the identities that slots from `base` on hold.
pub open spec fn shapes_returned(
    after: World,
    before: World,
    selected: Seq<ShapeId>,
    shapes: Seq<ShapeCache>,
    cleared: bool,
    slots: Seq<Option<ResolvedId>>,
    base: int,
) -> bool {
    &&& forall|i: int|
        #![trigger shape_in(slots, base, i)]
        0 <= i < shapes.len() ==> (shape_in(slots, base, i) matches Some(id)
            && after.shapes.dom().contains(id) && after.shapes[id] == shape_back(shapes[i], cleared))
    &&& forall|id: ShapeId|
        #![trigger after.shapes.dom().contains(id)]
        after.shapes.dom().contains(id) == ((before.shapes.dom().contains(id) && !selected.contains(id))
            || exists|i: int|
            0 <= i < shapes.len() && #[trigger] shape_in(slots, base, i) == Some(id))
    &&& forall|id: ShapeId|
        #![trigger after.shapes[id]]
        before.shapes.dom().contains(id) && !selected.contains(id) ==> after.shapes[id]
            == before.shapes[id]
}

/// Undoing a deletion brings every deleted label and shape back with what it held,
/// under the new identity that its slot then holds; every other label and shape is as
/// it was, and no other is there. What was a secret is one again where the viewer may
/// say so.
pub proof fn law_undoing_a_deletion_restores_drawings(
    atlas: AtlasCache,
    area_id: AreaId,
    selection: Seq<EntityId>,
    fresh: Seq<u128>,
    again: Seq<u128>,
    limit: int,
)
    requires
        limit > 0,
        again.no_duplicates(),
        atlas.area(area_id) matches Some(area) ==> are_vacant(undoing::world_of(area), again)
            && deletion::deletion_seeds(deletion::deletion_parts(area, selection)).len() <= usize::MAX,
        deletion::delete_command(atlas, area_id, selection) matches Some(command) ==> command.wf()
            && fresh.len() >= command.redo.len() && again.len() >= command.undo.len(),
    ensures
        deletion::delete_command(atlas, area_id, selection) matches Some(command) ==> {
            let area = atlas.area(area_id)->0;
            let world = undoing::world_of(area);
            let parts = deletion::deletion_parts(area, selection);
            let after = undone(command, world, fresh, again, limit);
            let slots = slots_undone(command, fresh, again, limit);
            &&& labels_returned(
                after,
                world,
                cache::selected_labels(selection),
                parts.labels,
                parts.cleared,
                slots,
                parts.exits.len() as int,
            )
            &&& shapes_returned(
                after,
                world,
                cache::selected_shapes(selection),
                parts.shapes,
                parts.cleared,
                slots,
                (parts.exits.len() + parts.labels.len()) as int,
            )
        },
{
    if let Some(command) = deletion::delete_command(atlas, area_id, selection) {
        let area = atlas.area(area_id)->0;
        let world = undoing::world_of(area);
        let parts = deletion::deletion_parts(area, selection);
        let done = compile::compiled_direction(command, Direction::Redo, fresh, limit);
        let middle = undoing::staged(world, done.batches);
        lemma_drawings_deleted(world, command, area_id, parts, fresh, limit);
        let settled = CommandView { resolved_ids: done.resolved_ids, pending: 0, ..command };
        let early = deletion_early(atlas, area_id, area, parts).len() as int;
        lemma_drawings_recreated(middle, settled, atlas, area_id, area, parts, again, limit);
        let after = undone(command, world, fresh, again, limit);
        let slots = slots_undone(command, fresh, again, limit);
        lemma_labels_returned(
            after,
            middle,
            world,
            area,
            cache::selected_labels(selection),
            parts.cleared,
            slots,
            parts.exits.len() as int,
            again.skip(early),
        );
        lemma_shapes_returned(
            after,
            middle,
            world,
            area,
            cache::selected_shapes(selection),
            parts.cleared,
            slots,
            (parts.exits.len() + parts.labels.len()) as int,
            again.skip(early + parts.labels.len()),
        );
    }
}

/// The world after a command was done, undone and done again.
pub open spec fn redone(
    command: CommandView,
    world: World,
    fresh: Seq<u128>,
    again: Seq<u128>,
    third: Seq<u128>,
    limit: int,
) -> World {
    let slots = slots_undone(command, fresh, again, limit);
    let settled = CommandView { resolved_ids: slots, pending: 0, ..command };
    undoing::staged(
        undone(command, world, fresh, again, limit),
        compile::compiled_direction(settled, Direction::Redo, third, limit).batches,
    )
}

/// Deleting again what the undoing of a deletion brought back leaves the labels and shapes
/// that the deletion left: it takes out those that were recreated, under their new
/// identities.
pub proof fn law_redoing_a_deletion_takes_out_what_came_back(
    atlas: AtlasCache,
    area_id: AreaId,
    selection: Seq<EntityId>,
    fresh: Seq<u128>,
    again: Seq<u128>,
    third: Seq<u128>,
    limit: int,
)
    requires
        limit > 0,
        again.no_duplicates(),
        atlas.area(area_id) matches Some(area) ==> are_vacant(undoing::world_of(area), again)
            && deletion::deletion_seeds(deletion::deletion_parts(area, selection)).len() <= usize::MAX,
        deletion::delete_command(atlas, area_id, selection) matches Some(command) ==> command.wf()
            && fresh.len() >= command.redo.len() && again.len() >= command.undo.len() && third.len()
            >= command.redo.len(),
    ensures
        deletion::delete_command(atlas, area_id, selection) matches Some(command) ==> {
            let world = undoing::world_of(atlas.area(area_id)->0);
            let deleted = undoing::staged(
                world,
                compile::compiled_direction(command, Direction::Redo, fresh, limit).batches,
            );
            let after = redone(command, world, fresh, again, third, limit);
            &&& after.labels == deleted.labels
            &&& after.shapes == deleted.shapes
        },
{
    if let Some(command) = deletion::delete_command(atlas, area_id, selection) {
        let area = atlas.area(area_id)->0;
        let world = undoing::world_of(area);
        let parts = deletion::deletion_parts(area, selection);
        let exits = parts.exits.len() as int;
        let labels = parts.labels.len() as int;
        let done = compile::compiled_direction(command, Direction::Redo, fresh, limit);
        let deleted = undoing::staged(world, done.batches);
        lemma_drawings_deleted(world, command, area_id, parts, fresh, limit);
        let settled = CommandView { resolved_ids: done.resolved_ids, pending: 0, ..command };
        let early = deletion_early(atlas, area_id, area, parts).len() as int;
        lemma_drawings_recreated(deleted, settled, atlas, area_id, area, parts, again, limit);
        let back = undone(command, world, fresh, again, limit);
        let slots = slots_undone(command, fresh, again, limit);
        let new_labels = Seq::new(parts.labels.len(), |i: int| LabelId(again.skip(early)[i]));
        let new_shapes = Seq::new(parts.shapes.len(), |i: int| ShapeId(again.skip(early + labels)[i]));
        let restored = CommandView { resolved_ids: slots, pending: 0, ..command };
        compile::lemma_compiled_bounds(
            compile_start(settled),
            settled.undo,
            again,
            settled.id,
            limit,
        );
        lemma_new_drawings(
            deleted,
            back,
            parts,
            slots,
            again.skip(early),
            again.skip(early + labels),
            new_labels,
            new_shapes,
        );
        lemma_slots_deleted(
            back,
            restored,
            area_id,
            parts,
            new_labels,
            new_shapes,
            third,
            limit,
        );
        let after = redone(command, world, fresh, again, third, limit);
        assert forall|id: LabelId| new_labels.contains(id) implies !deleted.labels.dom().contains(id) by {
            let i = choose|i: int| 0 <= i < new_labels.len() && new_labels[i] == id;
            assert(again[early + i] == again.skip(early)[i]);
            assert(!world.labels.dom().contains(LabelId(again[early + i])));
        }
        assert forall|id: ShapeId| new_shapes.contains(id) implies !deleted.shapes.dom().contains(id) by {
            let i = choose|i: int| 0 <= i < new_shapes.len() && new_shapes[i] == id;
            assert(again[early + labels + i] == again.skip(early + labels)[i]);
            assert(!world.shapes.dom().contains(ShapeId(again[early + labels + i])));
        }
        assert(after.labels.dom() =~= deleted.labels.dom());
        assert(after.labels =~= deleted.labels);
        assert(after.shapes.dom() =~= deleted.shapes.dom());
        assert(after.shapes =~= deleted.shapes);
    }
}

/// What recreated drawings add, by the identities that their slots hold.
proof fn lemma_new_drawings(
    before: World,
    after: World,
    parts: DeletionParts,
    slots: Seq<Option<ResolvedId>>,
    label_ids: Seq<u128>,
    shape_ids: Seq<u128>,
    new_labels: Seq<LabelId>,
    new_shapes: Seq<ShapeId>,
)
    requires
        labels_added(
            after,
            before,
            parts.labels,
            parts.cleared,
            slots,
            parts.exits.len() as int,
            label_ids,
        ),
        shapes_added(
            after,
            before,
            parts.shapes,
            parts.cleared,
            slots,
            (parts.exits.len() + parts.labels.len()) as int,
            shape_ids,
        ),
        new_labels == Seq::new(parts.labels.len(), |i: int| LabelId(label_ids[i])),
        new_shapes == Seq::new(parts.shapes.len(), |i: int| ShapeId(shape_ids[i])),
        slots.len() == deletion::deletion_seeds(parts).len(),
        deletion::deletion_seeds(parts).len() <= usize::MAX,
    ensures
        forall|i: int|
            #![trigger new_labels[i]]
            0 <= i < new_labels.len() ==> slots[parts.exits.len() + i] == Some(
                ResolvedId::Label(new_labels[i]),
            ),
        forall|i: int|
            #![trigger new_shapes[i]]
            0 <= i < new_shapes.len() ==> slots[parts.exits.len() + parts.labels.len() + i] == Some(
                ResolvedId::Shape(new_shapes[i]),
            ),
        forall|id: LabelId|
            #![trigger after.labels.dom().contains(id)]
            after.labels.dom().contains(id) == (before.labels.dom().contains(id)
                || new_labels.contains(id)),
        forall|id: LabelId|
            #![trigger after.labels[id]]
            !new_labels.contains(id) ==> after.labels[id] == before.labels[id],
        forall|id: ShapeId|
            #![trigger after.shapes.dom().contains(id)]
            after.shapes.dom().contains(id) == (before.shapes.dom().contains(id)
                || new_shapes.contains(id)),
        forall|id: ShapeId|
            #![trigger after.shapes[id]]
            !new_shapes.contains(id) ==> after.shapes[id] == before.shapes[id],
{
    let exits = parts.exits.len() as int;
    let labels = parts.labels.len() as int;
    assert forall|i: int|
        #![trigger new_labels[i]]
        0 <= i < new_labels.len() implies slots[exits + i] == Some(ResolvedId::Label(new_labels[i])) by {
        assert(label_in(slots, exits, i) == Some(LabelId(label_ids[i])));
    }
    assert forall|i: int|
        #![trigger new_shapes[i]]
        0 <= i < new_shapes.len() implies slots[exits + labels + i] == Some(
        ResolvedId::Shape(new_shapes[i]),
    ) by {
        assert(shape_in(slots, exits + labels, i) == Some(ShapeId(shape_ids[i])));
    }
    assert forall|id: LabelId| #[trigger] new_labels.contains(id) == is_new_label(label_ids, labels, id) by {
        if new_labels.contains(id) {
            let i = choose|i: int| 0 <= i < new_labels.len() && new_labels[i] == id;
            assert(LabelId(label_ids[i]) == id);
        }
        if is_new_label(label_ids, labels, id) {
            let i = choose|i: int| 0 <= i < labels && LabelId(#[trigger] label_ids[i]) == id;
            assert(new_labels[i] == id);
        }
    }
    let count = parts.shapes.len() as int;
    assert forall|id: ShapeId| #[trigger] new_shapes.contains(id) == is_new_shape(shape_ids, count, id) by {
        if new_shapes.contains(id) {
            let i = choose|i: int| 0 <= i < new_shapes.len() && new_shapes[i] == id;
            assert(ShapeId(shape_ids[i]) == id);
        }
        if is_new_shape(shape_ids, count, id) {
            let i = choose|i: int| 0 <= i < count && ShapeId(#[trigger] shape_ids[i]) == id;
            assert(new_shapes[i] == id);
        }
    }
}

/// Whether labels were created under the first of some identities, which slots from
/// `base` on hold.
pub open spec fn labels_added(
    after: World,
    before: World,
    labels: Seq<LabelCache>,
    cleared: bool,
    slots: Seq<Option<ResolvedId>>,
    base: int,
    fresh: Seq<u128>,
) -> bool {
    &&& forall|i: int|
        #![trigger fresh[i]]
        #![trigger label_in(slots, base, i)]
        0 <= i < labels.len() ==> label_in(slots, base, i) == Some(LabelId(fresh[i]))
            && after.labels.dom().contains(LabelId(fresh[i])) && after.labels[LabelId(fresh[i])]
            == label_back(labels[i], LabelId(fresh[i]), cleared)
    &&& forall|id: LabelId|
        #![trigger after.labels.dom().contains(id)]
        after.labels.dom().contains(id) == (before.labels.dom().contains(id) || is_new_label(
            fresh,
            labels.len() as int,
            id,
        ))
    &&& forall|id: LabelId|
        #![trigger after.labels[id]]
        !is_new_label(fresh, labels.len() as int, id) ==> after.labels[id] == before.labels[id]
}

/// Whether shapes were created under the first of some identities, which slots from
/// `base` on hold.
pub open spec fn shapes_added(
    after: World,
    before: World,
    shapes: Seq<ShapeCache>,
    cleared: bool,
    slots: Seq<Option<ResolvedId>>,
    base: int,
    fresh: Seq<u128>,
) -> bool {
    &&& forall|i: int|
        #![trigger fresh[i]]
        #![trigger shape_in(slots, base, i)]
        0 <= i < shapes.len() ==> shape_in(slots, base, i) == Some(ShapeId(fresh[i]))
            && after.shapes.dom().contains(ShapeId(fresh[i])) && after.shapes[ShapeId(fresh[i])]
            == shape_back(shapes[i], cleared)
    &&& forall|id: ShapeId|
        #![trigger after.shapes.dom().contains(id)]
        after.shapes.dom().contains(id) == (before.shapes.dom().contains(id) || is_new_shape(
            fresh,
            shapes.len() as int,
            id,
        ))
    &&& forall|id: ShapeId|
        #![trigger after.shapes[id]]
        !is_new_shape(fresh, shapes.len() as int, id) ==> after.shapes[id] == before.shapes[id]
}

/// Labels that were deleted and then created anew.
proof fn lemma_labels_returned(
    after: World,
    middle: World,
    world: World,
    area: AreaCache,
    selected: Seq<LabelId>,
    cleared: bool,
    slots: Seq<Option<ResolvedId>>,
    base: int,
    fresh: Seq<u128>,
)
    requires
        world.labels == undoing::world_of(area).labels,
        are_vacant(world, fresh),
        fresh.len() >= deletion::cached_labels(area, selected).len(),
        labels_added(after, middle, deletion::cached_labels(area, selected), cleared, slots, base, fresh),
        forall|id: LabelId|
            #![trigger middle.labels.dom().contains(id)]
            middle.labels.dom().contains(id) == (world.labels.dom().contains(id) && !names_label(
                deletion::cached_labels(area, selected),
                id,
            )),
        forall|id: LabelId|
            #![trigger middle.labels[id]]
            !names_label(deletion::cached_labels(area, selected), id) ==> middle.labels[id]
                == world.labels[id],
    ensures
        labels_returned(
            after,
            world,
            selected,
            deletion::cached_labels(area, selected),
            cleared,
            slots,
            base,
        ),
{
    let labels = deletion::cached_labels(area, selected);
    let n = labels.len() as int;
    lemma_cached_labels(area, selected);
    assert forall|id: LabelId| #[trigger] is_new_label(fresh, n, id) implies !world.labels.dom().contains(
        id,
    ) && exists|i: int| 0 <= i < n && #[trigger] label_in(slots, base, i) == Some(id) by {
        let i = choose|i: int| 0 <= i < n && LabelId(#[trigger] fresh[i]) == id;
        assert(label_in(slots, base, i) == Some(id));
    }
    assert forall|id: LabelId|
        (exists|i: int| 0 <= i < n && #[trigger] label_in(slots, base, i) == Some(id)) implies
        #[trigger] is_new_label(fresh, n, id) by {
        let i = choose|i: int| 0 <= i < n && #[trigger] label_in(slots, base, i) == Some(id);
        assert(LabelId(fresh[i]) == id);
    }
    assert forall|id: LabelId|
        #![trigger after.labels.dom().contains(id)]
        after.labels.dom().contains(id) == ((world.labels.dom().contains(id) && !selected.contains(id))
            || exists|i: int| 0 <= i < n && #[trigger] label_in(slots, base, i) == Some(id)) by {
        assert(middle.labels.dom().contains(id) == (world.labels.dom().contains(id)
            && !names_label(labels, id)));
        assert(is_new_label(fresh, n, id) || !is_new_label(fresh, n, id));
    }
    assert forall|id: LabelId|
        #![trigger after.labels[id]]
        world.labels.dom().contains(id) && !selected.contains(id) implies after.labels[id]
        == world.labels[id] by {
        assert(!names_label(labels, id));
        assert(!is_new_label(fresh, n, id));
        assert(middle.labels[id] == world.labels[id]);
    }
}

/// Shapes that were deleted and then created anew.
proof fn lemma_shapes_returned(
    after: World,
    middle: World,
    world: World,
    area: AreaCache,
    selected: Seq<ShapeId>,
    cleared: bool,
    slots: Seq<Option<ResolvedId>>,
    base: int,
    fresh: Seq<u128>,
)
    requires
        world.shapes == undoing::world_of(area).shapes,
        are_vacant(world, fresh),
        fresh.len() >= deletion::cached_shapes(area, selected).len(),
        shapes_added(after, middle, deletion::cached_shapes(area, selected), cleared, slots, base, fresh),
        forall|id: ShapeId|
            #![trigger middle.shapes.dom().contains(id)]
            middle.shapes.dom().contains(id) == (world.shapes.dom().contains(id) && !names_shape(
                deletion::cached_shapes(area, selected),
                id,
            )),
        forall|id: ShapeId|
            #![trigger middle.shapes[id]]
            !names_shape(deletion::cached_shapes(area, selected), id) ==> middle.shapes[id]
                == world.shapes[id],
    ensures
        shapes_returned(
            after,
            world,
            selected,
            deletion::cached_shapes(area, selected),
            cleared,
            slots,
            base,
        ),
{
    let shapes = deletion::cached_shapes(area, selected);
    let n = shapes.len() as int;
    lemma_cached_shapes(area, selected);
    assert forall|id: ShapeId| #[trigger] is_new_shape(fresh, n, id) implies !world.shapes.dom().contains(
        id,
    ) && exists|i: int| 0 <= i < n && #[trigger] shape_in(slots, base, i) == Some(id) by {
        let i = choose|i: int| 0 <= i < n && ShapeId(#[trigger] fresh[i]) == id;
        assert(shape_in(slots, base, i) == Some(id));
    }
    assert forall|id: ShapeId|
        (exists|i: int| 0 <= i < n && #[trigger] shape_in(slots, base, i) == Some(id)) implies
        #[trigger] is_new_shape(fresh, n, id) by {
        let i = choose|i: int| 0 <= i < n && #[trigger] shape_in(slots, base, i) == Some(id);
        assert(ShapeId(fresh[i]) == id);
    }
    assert forall|id: ShapeId|
        #![trigger after.shapes.dom().contains(id)]
        after.shapes.dom().contains(id) == ((world.shapes.dom().contains(id) && !selected.contains(id))
            || exists|i: int| 0 <= i < n && #[trigger] shape_in(slots, base, i) == Some(id)) by {
        assert(middle.shapes.dom().contains(id) == (world.shapes.dom().contains(id)
            && !names_shape(shapes, id)));
        assert(is_new_shape(fresh, n, id) || !is_new_shape(fresh, n, id));
    }
    assert forall|id: ShapeId|
        #![trigger after.shapes[id]]
        world.shapes.dom().contains(id) && !selected.contains(id) implies after.shapes[id]
        == world.shapes[id] by {
        assert(!names_shape(shapes, id));
        assert(!is_new_shape(fresh, n, id));
        assert(middle.shapes[id] == world.shapes[id]);
    }
}

/// What the undoing of a deletion leaves of the drawings and of the slot table.
proof fn lemma_drawings_recreated(
    world: World,
    command: CommandView,
    atlas: AtlasCache,
    area_id: AreaId,
    area: AreaCache,
    parts: DeletionParts,
    again: Seq<u128>,
    limit: int,
)
    requires
        limit > 0,
        again.no_duplicates(),
        again.len() >= command.undo.len(),
        deletion::deletion_seeds(parts).len() <= usize::MAX,
        command.undo == deletion::deletion_undo(atlas, area_id, area, parts),
        command.resolved_ids.len() == deletion::deletion_seeds(parts).len(),
        command.wf(),
    ensures
        ({
            let exits = parts.exits.len() as int;
            let labels = parts.labels.len() as int;
            let early = deletion_early(atlas, area_id, area, parts).len() as int;
            let back = compile::compiled_direction(command, Direction::Undo, again, limit);
            let after = undoing::staged(world, back.batches);
            &&& early + labels + parts.shapes.len() <= again.len()
            &&& labels_added(
                after,
                world,
                parts.labels,
                parts.cleared,
                back.resolved_ids,
                exits,
                again.skip(early),
            )
            &&& shapes_added(
                after,
                world,
                parts.shapes,
                parts.cleared,
                back.resolved_ids,
                exits + labels,
                again.skip(early + labels),
            )
        }),
{
    let exits = parts.exits.len() as int;
    let labels = parts.labels.len() as int;
    let start = compile_start(command);
    let d = deletion_early(atlas, area_id, area, parts);
    let e = deletion::labels_recreated(area_id, parts.labels, parts.cleared, exits);
    let f = deletion::shapes_recreated(area_id, parts.shapes, parts.cleared, exits + labels);
    let g = deletion::links_restored(area_id, area, parts.links, parts.cleared);
    assert(command.undo =~= d + e + f + g);
    let id = command.id;
    lemma_compiled_concat(start, d + e + f, g, again, id, limit);
    lemma_compiled_concat(start, d + e, f, again, id, limit);
    lemma_compiled_concat(start, d, e, again, id, limit);
    let first = compile::compiled(start, d, again, id, limit);
    let new_labels = again.skip(d.len() as int);
    let second = compile::compiled(first, e, new_labels, id, limit);
    let new_shapes = again.skip((d + e).len() as int);
    let third = compile::compiled(second, f, new_shapes, id, limit);
    let others = again.skip((d + e + f).len() as int);
    let fourth = compile::compiled(third, g, others, id, limit);
    assert(fourth == compile::compiled_direction(command, Direction::Undo, again, limit));
    lemma_early_left(world, command, atlas, area_id, area, parts, again, limit);
    lemma_labels_recreated(
        world,
        first,
        area_id,
        parts.labels,
        parts.cleared,
        exits,
        new_labels,
        id,
        limit,
    );
    lemma_shapes_recreated(
        world,
        second,
        area_id,
        parts.shapes,
        parts.cleared,
        exits + labels,
        new_shapes,
        id,
        limit,
    );
    lemma_links_left(world, third, area_id, area, parts, others, id, limit);
    let after = undoing::staged(world, fourth.batches);
    assert(labels_added(
        after,
        world,
        parts.labels,
        parts.cleared,
        fourth.resolved_ids,
        exits,
        new_labels,
    )) by {
        assert forall|i: int|
            #![trigger new_labels[i]]
            #![trigger label_in(fourth.resolved_ids, exits, i)]
            0 <= i < labels implies label_in(fourth.resolved_ids, exits, i) == Some(
            LabelId(new_labels[i]),
        ) && after.labels.dom().contains(LabelId(new_labels[i])) && after.labels[LabelId(
            new_labels[i],
        )] == label_back(parts.labels[i], LabelId(new_labels[i]), parts.cleared) by {
            let slot = exits + i;
            assert(third.resolved_ids[slot] == second.resolved_ids[slot]);
        }
    }
    assert(shapes_added(
        after,
        world,
        parts.shapes,
        parts.cleared,
        fourth.resolved_ids,
        exits + labels,
        new_shapes,
    ));
}

/// What comes before the drawings leaves them alone, and the slot table as long as it
/// was.
proof fn lemma_early_left(
    world: World,
    command: CommandView,
    atlas: AtlasCache,
    area_id: AreaId,
    area: AreaCache,
    parts: DeletionParts,
    again: Seq<u128>,
    limit: int,
)
    requires
        limit > 0,
        command.undo == deletion::deletion_undo(atlas, area_id, area, parts),
        command.wf(),
    ensures
        ({
            let early = compile::compiled(
                compile_start(command),
                deletion_early(atlas, area_id, area, parts),
                again,
                command.id,
                limit,
            );
            let after = undoing::staged(world, early.batches);
            &&& after.labels == world.labels
            &&& after.shapes == world.shapes
            &&& early.resolved_ids.len() == command.resolved_ids.len()
        }),
{
    let start = compile_start(command);
    let d = deletion_early(atlas, area_id, area, parts);
    let n = command.resolved_ids.len() as int;
    lemma_early_spares(atlas, area_id, area, parts);
    assert forall|i: int| 0 <= i < d.len() implies (mutation::filled_slot(
        #[trigger] d[i],
    ) matches Some(slot) ==> slot < n) by {
        assert(d[i] == command.undo[i]);
    }
    lemma_labels_left(world, start, d, again, command.id, limit);
    lemma_shapes_left(world, start, d, again, command.id, limit);
    assert(undoing::ops_of(start.batches) =~= Seq::empty());
}

/// The links that are restored leave drawings and slots alone.
proof fn lemma_links_left(
    world: World,
    start: CompiledView,
    area_id: AreaId,
    area: AreaCache,
    parts: DeletionParts,
    fresh: Seq<u128>,
    command: commands::CommandId,
    limit: int,
)
    requires
        limit > 0,
    ensures
        ({
            let end = compile::compiled(
                start,
                deletion::links_restored(area_id, area, parts.links, parts.cleared),
                fresh,
                command,
                limit,
            );
            let before = undoing::staged(world, start.batches);
            let after = undoing::staged(world, end.batches);
            &&& after.labels == before.labels
            &&& after.shapes == before.shapes
            &&& end.resolved_ids == start.resolved_ids
        }),
{
    let g = deletion::links_restored(area_id, area, parts.links, parts.cleared);
    assert forall|i: int| 0 <= i < g.len() implies spares_labels(#[trigger] g[i]) && spares_shapes(g[i])
        && mutation::filled_slot(g[i]) is None by {
        lemma_link_restore_draws(area, parts.links[i], parts.cleared);
    }
    lemma_labels_left(world, start, g, fresh, command, limit);
    lemma_shapes_left(world, start, g, fresh, command, limit);
}

/// The writes that restore a link leave drawings alone.
proof fn lemma_link_restore_draws(area: AreaCache, connection: Connection, cleared: bool)
    ensures
        all_keep_labels(links::link_restore(area, connection, cleared)),
        all_keep_shapes(links::link_restore(area, connection, cleared)),
{
}

} // verus!
