//! Compiling one direction of a command into batches of area writes.

use vstd::prelude::*;

use super::commands::{
    self, exit_id, label_id, shape_id, Command, CommandId, Direction, ResolvedId,
};
use super::model::{
    AreaId, ExitArgs, ExitId, ExitUpdates, LabelArgs, LabelId, RoomKey, RoomNumber, RoomUpdates, ShapeArgs,
    ShapeId,
};
use super::mutation::{self, AreaMutation, Mutation, MutationView, OpView, SlotId};
use crate::text::{self, decimal_text, join2, join3, signed_decimal_text};

verus! {

/// Area writes staged together.
pub struct AreaMutationBatch<O = Vec<AreaMutation>, T = String> {
    pub area_id: AreaId,
    pub operations: O,
    pub description: T,
    /// Whether an exit update may split a shared connection.
    pub splits_paired_exit: bool,
}

/// A batch over sequences.
pub type BatchView = AreaMutationBatch<Seq<OpView>, Seq<char>>;

impl View for AreaMutationBatch<Vec<AreaMutation>, String> {
    type V = BatchView;

    open spec fn view(&self) -> BatchView {
        AreaMutationBatch {
            area_id: self.area_id,
            operations: mutation::ops_view(self.operations@),
            description: self.description@,
            splits_paired_exit: self.splits_paired_exit,
        }
    }
}

/// The views of a list of batches.
pub open spec fn batches_view(batches: Seq<AreaMutationBatch>) -> Seq<BatchView> {
    batches.map_values(|batch: AreaMutationBatch| batch@)
}

/// A batch that may not split a shared connection.
pub open spec fn strict(area_id: AreaId, operations: Seq<OpView>, description: Seq<char>) -> BatchView {
    AreaMutationBatch { area_id, operations, description, splits_paired_exit: false }
}

/// A batch that may split a shared connection.
pub open spec fn splitting(area_id: AreaId, operations: Seq<OpView>, description: Seq<char>) -> BatchView {
    AreaMutationBatch { area_id, operations, description, splits_paired_exit: true }
}

impl AreaMutationBatch {
    /// A batch that may not split a shared connection.
    pub fn strict(area_id: AreaId, operations: Vec<AreaMutation>, description: String) -> (batch: Self)
        ensures
            batch@ == strict(area_id, mutation::ops_view(operations@), description@),
    {
        AreaMutationBatch { area_id, operations, description, splits_paired_exit: false }
    }

    /// A batch that may split a shared connection.
    pub fn splitting_paired_exit(
        area_id: AreaId,
        operations: Vec<AreaMutation>,
        description: String,
    ) -> (batch: Self)
        ensures
            batch@ == splitting(area_id, mutation::ops_view(operations@), description@),
    {
        AreaMutationBatch { area_id, operations, description, splits_paired_exit: true }
    }
}

/// The completion of a creation issued by a command.
#[allow(inconsistent_fields)]
pub enum Outcome<T = String> {
    Exit {
        command: CommandId,
        slot: SlotId,
        room_key: RoomKey,
        follow_up: Option<ExitUpdates<T>>,
        result: Result<ExitId, T>,
    },
    Label { command: CommandId, slot: SlotId, result: Result<LabelId, T> },
    Shape { command: CommandId, slot: SlotId, result: Result<ShapeId, T> },
}

/// An outcome over sequences.
pub type OutcomeView = Outcome<Seq<char>>;

/// The view of a creation's result.
pub open spec fn result_view<I>(result: Result<I, String>) -> Result<I, Seq<char>> {
    match result {
        Ok(id) => Ok(id),
        Err(error) => Err(error@),
    }
}

impl View for Outcome<String> {
    type V = OutcomeView;

    open spec fn view(&self) -> OutcomeView {
        match *self {
            Outcome::Exit { command, slot, room_key, follow_up, result } => Outcome::Exit {
                command,
                slot,
                room_key,
                follow_up: mutation::opt_exit_updates(follow_up),
                result: result_view(result),
            },
            Outcome::Label { command, slot, result } => Outcome::Label {
                command,
                slot,
                result: result_view(result),
            },
            Outcome::Shape { command, slot, result } => Outcome::Shape {
                command,
                slot,
                result: result_view(result),
            },
        }
    }
}

/// The views of a list of outcomes.
pub open spec fn outcomes_view(outcomes: Seq<Outcome>) -> Seq<OutcomeView> {
    outcomes.map_values(|outcome: Outcome| outcome@)
}

/// A direction of a command, compiled: what to stage, what to report once it is
/// staged, and the slot table and pending count it leaves.
pub struct Compiled {
    pub batches: Vec<AreaMutationBatch>,
    pub outcomes: Vec<Outcome>,
    pub resolved_ids: Vec<Option<ResolvedId>>,
    pub pending: usize,
}

/// A compiled direction over sequences.
pub struct CompiledView {
    pub batches: Seq<BatchView>,
    pub outcomes: Seq<OutcomeView>,
    pub resolved_ids: Seq<Option<ResolvedId>>,
    pub pending: int,
}

impl View for Compiled {
    type V = CompiledView;

    open spec fn view(&self) -> CompiledView {
        CompiledView {
            batches: batches_view(self.batches@),
            outcomes: outcomes_view(self.outcomes@),
            resolved_ids: self.resolved_ids@,
            pending: self.pending as int,
        }
    }
}

impl CompiledView {
    /// One more batch to stage.
    pub open spec fn staging(self, batch: BatchView) -> CompiledView {
        CompiledView { batches: self.batches.push(batch), ..self }
    }

    /// A created entity: its id fills the slot, and its completion is pending.
    pub open spec fn creating(self, slot: SlotId, id: ResolvedId, outcome: OutcomeView) -> CompiledView {
        CompiledView {
            outcomes: self.outcomes.push(outcome),
            resolved_ids: self.resolved_ids.update(slot as int, Some(id)),
            pending: self.pending + 1,
            ..self
        }
    }
}

/// The writes of a room list.
pub open spec fn upserts(rooms: Seq<(RoomNumber, RoomUpdates<Seq<char>>)>) -> Seq<OpView> {
    rooms.map_values(
        |room: (RoomNumber, RoomUpdates<Seq<char>>)|
            AreaMutation::UpsertRoom { room_number: room.0, body: room.1 },
    )
}

/// What a batch of room writes is called.
pub open spec fn upsert_description(rooms: Seq<(RoomNumber, RoomUpdates<Seq<char>>)>) -> Seq<char> {
    if rooms.len() == 1 {
        "Update room "@ + text::signed_decimal(rooms[0].0.0 as int)
    } else {
        "Update "@ + text::decimal(rooms.len()) + " rooms"@
    }
}

/// A list cut into consecutive pieces of `limit` elements, the last one with
/// what is left.
pub open spec fn pieces<A>(list: Seq<A>, limit: int) -> Seq<Seq<A>>
    decreases list.len(),
{
    if limit <= 0 || list.len() <= limit {
        seq![list]
    } else {
        seq![list.take(limit)] + pieces(list.skip(limit), limit)
    }
}

/// The batches of a room list: at most `limit` writes each.
pub open spec fn upsert_batches(
    area_id: AreaId,
    rooms: Seq<(RoomNumber, RoomUpdates<Seq<char>>)>,
    limit: int,
) -> Seq<BatchView> {
    let description = upsert_description(rooms);
    pieces(upserts(rooms), limit).map_values(|ops: Seq<OpView>| strict(area_id, ops, description))
}

/// The id a creation uses: the one it asks for, or a fresh one.
pub open spec fn chosen<I>(asked: Option<I>, fresh: I) -> I {
    match asked {
        Some(id) => id,
        None => fresh,
    }
}

/// What one mutation adds. A mutation whose slot does not hold an id of its
/// kind adds nothing.
pub open spec fn compiled_step(
    state: CompiledView,
    mutation: MutationView,
    fresh: u128,
    command: CommandId,
    limit: int,
) -> CompiledView {
    match mutation {
        Mutation::AreaBatch { area_id, operations, description } => state.staging(
            strict(area_id, operations, description),
        ),
        Mutation::UpsertRooms(area_id, rooms) => CompiledView {
            batches: state.batches + upsert_batches(area_id, rooms, limit),
            ..state
        },
        Mutation::DeleteRoom(key) => state.staging(
            strict(
                key.area_id,
                seq![AreaMutation::DeleteRoom { room_number: key.room_number }],
                "Delete room "@ + text::signed_decimal(key.room_number.0 as int),
            ),
        ),
        Mutation::SetRoomProperty(key, name, value) => state.staging(
            strict(
                key.area_id,
                seq![
                    AreaMutation::UpsertRoomProperty {
                        room_number: key.room_number,
                        name,
                        value,
                        is_secret: None,
                    },
                ],
                "Set property "@ + name + (" on room "@ + text::signed_decimal(
                    key.room_number.0 as int,
                )),
            ),
        ),
        Mutation::DeleteRoomProperty(key, name) => state.staging(
            strict(
                key.area_id,
                seq![AreaMutation::DeleteRoomProperty { room_number: key.room_number, name }],
                "Delete property "@ + name + (" on room "@ + text::signed_decimal(
                    key.room_number.0 as int,
                )),
            ),
        ),
        Mutation::AddRoomTag(key, tag) => state.staging(
            strict(
                key.area_id,
                seq![AreaMutation::AddRoomTag { room_number: key.room_number, tag }],
                "Add tag to room "@ + text::signed_decimal(key.room_number.0 as int),
            ),
        ),
        Mutation::RemoveRoomTag(key, tag) => state.staging(
            strict(
                key.area_id,
                seq![AreaMutation::RemoveRoomTag { room_number: key.room_number, tag }],
                "Remove tag from room "@ + text::signed_decimal(key.room_number.0 as int),
            ),
        ),
        Mutation::SetAreaProperty(area_id, name, value) => state.staging(
            strict(
                area_id,
                seq![AreaMutation::UpsertAreaProperty { name, value, is_secret: None }],
                "Set area property "@ + name,
            ),
        ),
        Mutation::DeleteAreaProperty(area_id, name) => state.staging(
            strict(
                area_id,
                seq![AreaMutation::DeleteAreaProperty { name }],
                "Delete area property "@ + name,
            ),
        ),
        Mutation::CreateExit { room_key, args, follow_up, slot } => {
            let id = chosen(args.id, ExitId(fresh));
            let body = ExitArgs { id: Some(id), ..args };
            let created = state.staging(
                strict(
                    room_key.area_id,
                    seq![AreaMutation::CreateExit { room_number: room_key.room_number, body }],
                    "Create exit from room "@ + text::signed_decimal(room_key.room_number.0 as int),
                ),
            );
            let restored = match follow_up {
                Some(updates) => created.staging(
                    splitting(
                        room_key.area_id,
                        seq![AreaMutation::UpdateExit { exit_id: id, body: updates }],
                        "Restore exit details"@,
                    ),
                ),
                None => created,
            };
            restored.creating(
                slot,
                ResolvedId::Exit(id),
                Outcome::Exit { command, slot, room_key, follow_up: None, result: Ok(id) },
            )
        },
        Mutation::UpdateExit { room_key, id, updates } => match commands::exit_named(
            state.resolved_ids,
            id,
        ) {
            Some(exit_id) => state.staging(
                splitting(
                    room_key.area_id,
                    seq![AreaMutation::UpdateExit { exit_id, body: updates }],
                    "Update exit"@,
                ),
            ),
            None => state,
        },
        Mutation::DeleteExit { room_key, id } => match commands::exit_named(state.resolved_ids, id) {
            Some(exit_id) => state.staging(
                strict(
                    room_key.area_id,
                    seq![AreaMutation::DeleteExit { exit_id }],
                    "Delete exit"@,
                ),
            ),
            None => state,
        },
        Mutation::CreateLabel { area_id, args, slot } => {
            let id = chosen(args.id, LabelId(fresh));
            let body = LabelArgs { id: Some(id), ..args };
            state.staging(
                strict(area_id, seq![AreaMutation::CreateLabel { body }], "Create label"@),
            ).creating(
                slot,
                ResolvedId::Label(id),
                Outcome::Label { command, slot, result: Ok(id) },
            )
        },
        Mutation::UpdateLabel { area_id, id, updates } => match commands::label_named(
            state.resolved_ids,
            id,
        ) {
            Some(label_id) => state.staging(
                strict(
                    area_id,
                    seq![AreaMutation::UpdateLabel { label_id, body: updates }],
                    "Update label"@,
                ),
            ),
            None => state,
        },
        Mutation::DeleteLabel { area_id, id } => match commands::label_named(state.resolved_ids, id) {
            Some(label_id) => state.staging(
                strict(area_id, seq![AreaMutation::DeleteLabel { label_id }], "Delete label"@),
            ),
            None => state,
        },
        Mutation::CreateShape { area_id, args, slot } => {
            let id = chosen(args.id, ShapeId(fresh));
            let body = ShapeArgs { id: Some(id), ..args };
            state.staging(
                strict(area_id, seq![AreaMutation::CreateShape { body }], "Create shape"@),
            ).creating(
                slot,
                ResolvedId::Shape(id),
                Outcome::Shape { command, slot, result: Ok(id) },
            )
        },
        Mutation::UpdateShape { area_id, id, updates } => match commands::shape_named(
            state.resolved_ids,
            id,
        ) {
            Some(shape_id) => state.staging(
                strict(
                    area_id,
                    seq![AreaMutation::UpdateShape { shape_id, body: updates }],
                    "Update shape"@,
                ),
            ),
            None => state,
        },
        Mutation::DeleteShape { area_id, id } => match commands::shape_named(state.resolved_ids, id) {
            Some(shape_id) => state.staging(
                strict(area_id, seq![AreaMutation::DeleteShape { shape_id }], "Delete shape"@),
            ),
            None => state,
        },
    }
}

/// A list of mutations compiled in order, mutation `i` drawing on fresh id `i`.
pub open spec fn compiled(
    start: CompiledView,
    mutations: Seq<MutationView>,
    fresh: Seq<u128>,
    command: CommandId,
    limit: int,
) -> CompiledView
    decreases mutations.len(),
{
    if mutations.len() == 0 {
        start
    } else {
        compiled_step(
            compiled(start, mutations.drop_last(), fresh, command, limit),
            mutations.last(),
            fresh[mutations.len() - 1],
            command,
            limit,
        )
    }
}

/// One direction of a command compiled from its current slot table.
pub open spec fn compiled_direction(
    command: commands::CommandView,
    direction: Direction,
    fresh: Seq<u128>,
    limit: int,
) -> CompiledView {
    compiled(
        CompiledView {
            batches: Seq::empty(),
            outcomes: Seq::empty(),
            resolved_ids: command.resolved_ids,
            pending: command.pending,
        },
        command.mutations(direction),
        fresh,
        command.id,
        limit,
    )
}

/// The creations among the mutations.
pub open spec fn creations(mutations: Seq<MutationView>) -> int
    decreases mutations.len(),
{
    if mutations.len() == 0 {
        0
    } else {
        creations(mutations.drop_last()) + if mutation::filled_slot(mutations.last()) is Some {
            1int
        } else {
            0
        }
    }
}

/// Compiling never changes the length of the slot table, and every creation
/// leaves one completion pending and reports one outcome.
pub proof fn lemma_compiled_bounds(
    start: CompiledView,
    mutations: Seq<MutationView>,
    fresh: Seq<u128>,
    command: CommandId,
    limit: int,
)
    requires
        mutation::fills_in(mutations, start.resolved_ids.len() as int),
    ensures
        compiled(start, mutations, fresh, command, limit).resolved_ids.len()
            == start.resolved_ids.len(),
        compiled(start, mutations, fresh, command, limit).pending == start.pending + creations(mutations),
        compiled(start, mutations, fresh, command, limit).outcomes.len() == start.outcomes.len()
            + creations(mutations),
        0 <= creations(mutations) <= mutations.len(),
    decreases mutations.len(),
{
    if mutations.len() > 0 {
        let rest = mutations.drop_last();
        assert forall|i: int| 0 <= i < rest.len() implies (mutation::filled_slot(
            #[trigger] rest[i],
        ) matches Some(slot) ==> slot < start.resolved_ids.len()) by {
            assert(rest[i] == mutations[i]);
        }
        lemma_compiled_bounds(start, rest, fresh, command, limit);
        assert(mutations[mutations.len() - 1] == mutations.last());
    }
}

impl Compiled {
    /// Adds a batch to stage.
    fn stage(&mut self, batch: AreaMutationBatch)
        ensures
            final(self)@ == old(self)@.staging(batch@),
    {
        let ghost before = self.batches@;
        self.batches.push(batch);
        assert(batches_view(self.batches@) =~= batches_view(before).push(batch@));
    }

    /// Records a created entity.
    fn create(&mut self, slot: SlotId, id: ResolvedId, outcome: Outcome)
        requires
            slot < old(self)@.resolved_ids.len(),
            old(self)@.pending < usize::MAX,
        ensures
            final(self)@ == old(self)@.creating(slot, id, outcome@),
    {
        let ghost before = self.outcomes@;
        self.outcomes.push(outcome);
        self.resolved_ids.set(slot, Some(id));
        self.pending = self.pending + 1;
        assert(outcomes_view(self.outcomes@) =~= outcomes_view(before).push(outcome@));
    }
}

/// A list of one write.
fn only(op: AreaMutation) -> (ops: Vec<AreaMutation>)
    ensures
        mutation::ops_view(ops@) == seq![op@],
{
    let mut ops: Vec<AreaMutation> = Vec::new();
    ops.push(op);
    assert(mutation::ops_view(ops@) =~= seq![op@]);
    ops
}

/// A room number after a phrase.
fn numbered(phrase: &str, number: RoomNumber) -> (text: String)
    ensures
        text@ == phrase@ + text::signed_decimal(number.0 as int),
{
    let digits = signed_decimal_text(number.0 as i64);
    join2(phrase, digits.as_str())
}

/// Stages the writes of a room list, at most `limit` to a batch.
fn stage_upserts(
    state: &mut Compiled,
    area_id: AreaId,
    rooms: Vec<(RoomNumber, RoomUpdates)>,
    limit: usize,
)
    requires
        limit > 0,
    ensures
        final(state)@ == (CompiledView {
            batches: old(state)@.batches + upsert_batches(
                area_id,
                mutation::rooms_view(rooms@),
                limit as int,
            ),
            ..old(state)@
        }),
{
    let ghost views = mutation::rooms_view(rooms@);
    let ghost start = state@;
    let description = if rooms.len() == 1 {
        numbered("Update room ", rooms[0].0)
    } else {
        let count = decimal_text(rooms.len() as u64);
        join3("Update ", count.as_str(), " rooms")
    };
    assert(description@ == upsert_description(views));
    let mut operations: Vec<AreaMutation> = Vec::new();
    for i in 0..rooms.len()
        invariant
            mutation::ops_view(operations@) == upserts(mutation::rooms_view(rooms@)).take(i as int),
    {
        let ghost before = operations@;
        let op = AreaMutation::UpsertRoom { room_number: rooms[i].0, body: rooms[i].1.clone() };
        operations.push(op);
        proof {
            let all = upserts(mutation::rooms_view(rooms@));
            assert(mutation::ops_view(operations@) =~= mutation::ops_view(before).push(op@));
            assert(all.take(i + 1) =~= all.take(i as int).push(all[i as int]));
        }
    }
    let ghost all = upserts(views);
    let ghost made = |ops: Seq<OpView>| strict(area_id, ops, description@);
    assert(all.take(rooms.len() as int) =~= all);
    assert(start.batches + pieces(all, limit as int).map_values(made) =~= start.batches + pieces(
        mutation::ops_view(operations@),
        limit as int,
    ).map_values(made));
    while operations.len() > limit
        invariant
            limit > 0,
            made == (|ops: Seq<OpView>| strict(area_id, ops, description@)),
            start.batches + pieces(all, limit as int).map_values(made) == state@.batches + pieces(
                mutation::ops_view(operations@),
                limit as int,
            ).map_values(made),
            state@ == (CompiledView { batches: state@.batches, ..start }),
        decreases operations.len(),
    {
        let ghost held = mutation::ops_view(operations@);
        let ghost staged = state@.batches;
        let rest = operations.split_off(limit);
        let head = operations;
        operations = rest;
        state.stage(AreaMutationBatch::strict(area_id, head, description.clone()));
        proof {
            assert(mutation::ops_view(head@) =~= held.take(limit as int));
            assert(mutation::ops_view(operations@) =~= held.skip(limit as int));
            assert(pieces(held, limit as int).map_values(made) =~= seq![made(held.take(limit as int))]
                + pieces(held.skip(limit as int), limit as int).map_values(made));
            assert(staged + (seq![made(held.take(limit as int))] + pieces(
                held.skip(limit as int),
                limit as int,
            ).map_values(made)) =~= staged.push(made(held.take(limit as int))) + pieces(
                held.skip(limit as int),
                limit as int,
            ).map_values(made));
        }
    }
    let ghost staged = state@.batches;
    let ghost held = mutation::ops_view(operations@);
    state.stage(AreaMutationBatch::strict(area_id, operations, description));
    proof {
        assert(pieces(held, limit as int).map_values(made) =~= seq![made(held)]);
        assert(state@.batches =~= staged + seq![made(held)]);
        assert(upsert_batches(area_id, views, limit as int) == pieces(all, limit as int).map_values(
            |ops: Seq<OpView>| strict(area_id, ops, upsert_description(views)),
        ));
    }
}

/// Compiles one mutation.
fn compile_mutation(
    state: &mut Compiled,
    mutation: Mutation,
    fresh: u128,
    command: CommandId,
    limit: usize,
)
    requires
        limit > 0,
        mutation::filled_slot(mutation@) matches Some(slot) ==> slot < old(state)@.resolved_ids.len(),
        old(state)@.pending < usize::MAX,
    ensures
        final(state)@ == compiled_step(old(state)@, mutation@, fresh, command, limit as int),
{
    match mutation {
        Mutation::AreaBatch { area_id, operations, description } => {
            state.stage(AreaMutationBatch::strict(area_id, operations, description));
        },
        Mutation::UpsertRooms(area_id, rooms) => {
            stage_upserts(state, area_id, rooms, limit);
        },
        Mutation::DeleteRoom(key) => {
            let op = AreaMutation::DeleteRoom { room_number: key.room_number };
            let description = numbered("Delete room ", key.room_number);
            state.stage(AreaMutationBatch::strict(key.area_id, only(op), description));
        },
        Mutation::SetRoomProperty(key, name, value) => {
            let head = join2("Set property ", name.as_str());
            let tail = numbered(" on room ", key.room_number);
            let description = join2(head.as_str(), tail.as_str());
            let op = AreaMutation::UpsertRoomProperty {
                room_number: key.room_number,
                name,
                value,
                is_secret: None,
            };
            state.stage(AreaMutationBatch::strict(key.area_id, only(op), description));
        },
        Mutation::DeleteRoomProperty(key, name) => {
            let head = join2("Delete property ", name.as_str());
            let tail = numbered(" on room ", key.room_number);
            let description = join2(head.as_str(), tail.as_str());
            let op = AreaMutation::DeleteRoomProperty { room_number: key.room_number, name };
            state.stage(AreaMutationBatch::strict(key.area_id, only(op), description));
        },
        Mutation::AddRoomTag(key, tag) => {
            let op = AreaMutation::AddRoomTag { room_number: key.room_number, tag };
            let description = numbered("Add tag to room ", key.room_number);
            state.stage(AreaMutationBatch::strict(key.area_id, only(op), description));
        },
        Mutation::RemoveRoomTag(key, tag) => {
            let op = AreaMutation::RemoveRoomTag { room_number: key.room_number, tag };
            let description = numbered("Remove tag from room ", key.room_number);
            state.stage(AreaMutationBatch::strict(key.area_id, only(op), description));
        },
        Mutation::SetAreaProperty(area_id, name, value) => {
            let description = join2("Set area property ", name.as_str());
            let op = AreaMutation::UpsertAreaProperty { name, value, is_secret: None };
            state.stage(AreaMutationBatch::strict(area_id, only(op), description));
        },
        Mutation::DeleteAreaProperty(area_id, name) => {
            let description = join2("Delete area property ", name.as_str());
            let op = AreaMutation::DeleteAreaProperty { name };
            state.stage(AreaMutationBatch::strict(area_id, only(op), description));
        },
        Mutation::CreateExit { room_key, args, follow_up, slot } => {
            let id = match args.id {
                Some(id) => id,
                None => ExitId(fresh),
            };
            let mut body = args;
            body.id = Some(id);
            let op = AreaMutation::CreateExit { room_number: room_key.room_number, body };
            let description = numbered("Create exit from room ", room_key.room_number);
            state.stage(AreaMutationBatch::strict(room_key.area_id, only(op), description));
            if let Some(updates) = follow_up {
                let restore = AreaMutation::UpdateExit { exit_id: id, body: updates };
                state.stage(
                    AreaMutationBatch::splitting_paired_exit(
                        room_key.area_id,
                        only(restore),
                        "Restore exit details".to_owned(),
                    ),
                );
            }
            state.create(
                slot,
                ResolvedId::Exit(id),
                Outcome::Exit { command, slot, room_key, follow_up: None, result: Ok(id) },
            );
        },
        Mutation::UpdateExit { room_key, id, updates } => {
            if let Some(exit_id) = exit_id(&state.resolved_ids, id) {
                let op = AreaMutation::UpdateExit { exit_id, body: updates };
                state.stage(
                    AreaMutationBatch::splitting_paired_exit(
                        room_key.area_id,
                        only(op),
                        "Update exit".to_owned(),
                    ),
                );
            }
        },
        Mutation::DeleteExit { room_key, id } => {
            if let Some(exit_id) = exit_id(&state.resolved_ids, id) {
                let op = AreaMutation::DeleteExit { exit_id };
                state.stage(
                    AreaMutationBatch::strict(room_key.area_id, only(op), "Delete exit".to_owned()),
                );
            }
        },
        Mutation::CreateLabel { area_id, args, slot } => {
            let id = match args.id {
                Some(id) => id,
                None => LabelId(fresh),
            };
            let mut body = args;
            body.id = Some(id);
            let op = AreaMutation::CreateLabel { body };
            state.stage(AreaMutationBatch::strict(area_id, only(op), "Create label".to_owned()));
            state.create(
                slot,
                ResolvedId::Label(id),
                Outcome::Label { command, slot, result: Ok(id) },
            );
        },
        Mutation::UpdateLabel { area_id, id, updates } => {
            if let Some(label_id) = label_id(&state.resolved_ids, id) {
                let op = AreaMutation::UpdateLabel { label_id, body: updates };
                state.stage(AreaMutationBatch::strict(area_id, only(op), "Update label".to_owned()));
            }
        },
        Mutation::DeleteLabel { area_id, id } => {
            if let Some(label_id) = label_id(&state.resolved_ids, id) {
                let op = AreaMutation::DeleteLabel { label_id };
                state.stage(AreaMutationBatch::strict(area_id, only(op), "Delete label".to_owned()));
            }
        },
        Mutation::CreateShape { area_id, args, slot } => {
            let id = match args.id {
                Some(id) => id,
                None => ShapeId(fresh),
            };
            let mut body = args;
            body.id = Some(id);
            let op = AreaMutation::CreateShape { body };
            state.stage(AreaMutationBatch::strict(area_id, only(op), "Create shape".to_owned()));
            state.create(
                slot,
                ResolvedId::Shape(id),
                Outcome::Shape { command, slot, result: Ok(id) },
            );
        },
        Mutation::UpdateShape { area_id, id, updates } => {
            if let Some(shape_id) = shape_id(&state.resolved_ids, id) {
                let op = AreaMutation::UpdateShape { shape_id, body: updates };
                state.stage(AreaMutationBatch::strict(area_id, only(op), "Update shape".to_owned()));
            }
        },
        Mutation::DeleteShape { area_id, id } => {
            if let Some(shape_id) = shape_id(&state.resolved_ids, id) {
                let op = AreaMutation::DeleteShape { shape_id };
                state.stage(AreaMutationBatch::strict(area_id, only(op), "Delete shape".to_owned()));
            }
        },
    }
}

/// Compiles one direction of a command. Mutation `i` uses fresh id `i` when it
/// creates an entity without asking for an id; a batch of rooms holds at most
/// `limit` writes.
pub fn compile(command: &Command, direction: Direction, fresh: &Vec<u128>, limit: usize) -> (state: Compiled)
    requires
        limit > 0,
        command.wf(),
        command@.mutations(direction).len() <= fresh.len(),
        command.pending + command@.mutations(direction).len() <= usize::MAX,
    ensures
        state@ == compiled_direction(command@, direction, fresh@, limit as int),
        state@.resolved_ids.len() == command@.resolved_ids.len(),
        state@.pending == command.pending + creations(command@.mutations(direction)),
{
    let mut resolved_ids: Vec<Option<ResolvedId>> = Vec::new();
    for i in 0..command.resolved_ids.len()
        invariant
            resolved_ids@ == command.resolved_ids@.take(i as int),
    {
        resolved_ids.push(command.resolved_ids[i]);
        assert(command.resolved_ids@.take(i + 1) =~= command.resolved_ids@.take(i as int).push(
            command.resolved_ids@[i as int],
        ));
    }
    assert(command.resolved_ids@.take(command.resolved_ids.len() as int) =~= command.resolved_ids@);
    let mut state = Compiled {
        batches: Vec::new(),
        outcomes: Vec::new(),
        resolved_ids,
        pending: command.pending,
    };
    let ghost start = state@;
    assert(start.batches =~= Seq::empty());
    assert(start.outcomes =~= Seq::empty());
    let mutations = match direction {
        Direction::Redo => &command.redo,
        Direction::Undo => &command.undo,
    };
    let ghost views = mutation::mutations_view(mutations@);
    assert(views.take(0) =~= Seq::empty());
    for i in 0..mutations.len()
        invariant
            limit > 0,
            views == mutation::mutations_view(mutations@),
            mutations.len() <= fresh.len(),
            start.pending + mutations.len() <= usize::MAX,
            mutation::fills_in(views, start.resolved_ids.len() as int),
            state@ == compiled(start, views.take(i as int), fresh@, command.id, limit as int),
    {
        proof {
            let done = views.take(i as int);
            assert forall|j: int| 0 <= j < done.len() implies (mutation::filled_slot(
                #[trigger] done[j],
            ) matches Some(slot) ==> slot < start.resolved_ids.len()) by {
                assert(done[j] == views[j]);
            }
            lemma_compiled_bounds(start, done, fresh@, command.id, limit as int);
            assert(views.take(i + 1).drop_last() =~= done);
            assert(views[i as int] == mutations@[i as int]@);
        }
        compile_mutation(&mut state, mutations[i].clone(), fresh[i], command.id, limit);
    }
    proof {
        assert(views.take(mutations.len() as int) =~= views);
        lemma_compiled_bounds(start, views, fresh@, command.id, limit as int);
    }
    state
}

} // verus!
