//! The writes a command is made of.
//!
//! An [`AreaMutation`] is one write to an area. A [`Mutation`] is one step of a
//! command: a batch of writes, or a write whose target may be an entity that an
//! earlier step creates.

use vstd::prelude::*;

use super::model::{
    AreaId, ConnectionArgs, ConnectionId, ConnectionUpdates, ExitArgs, ExitId, ExitUpdates, LabelArgs,
    LabelId, LabelUpdates, Point, RoomKey, RoomNumber, RoomUpdates, ShapeArgs, ShapeId, ShapeUpdates,
};

verus! {

/// A place in a command's table of resolved ids.
pub type SlotId = usize;

/// A reference to an entity id that may not exist yet: either known up front,
/// or the value of a resolved-id slot on the owning command.
#[derive(Clone, Copy, Debug)]
pub enum IdRef<T> {
    Known(T),
    Slot(SlotId),
}

/// An area write over sequences.
pub type OpView = AreaMutation<Seq<char>, Seq<Point>>;

/// A mutation over sequences.
pub type MutationView = Mutation<
    Seq<char>,
    Seq<OpView>,
    Seq<(RoomNumber, RoomUpdates<Seq<char>>)>,
>;

/// One write to an area.
#[allow(inconsistent_fields)]
pub enum AreaMutation<T = String, R = Vec<Point>> {
    UpsertRoom {
        room_number: RoomNumber,
        body: RoomUpdates<T>,
    },
    DeleteRoom {
        room_number: RoomNumber,
    },
    UpsertRoomProperty {
        room_number: RoomNumber,
        name: T,
        value: T,
        is_secret: Option<bool>,
    },
    DeleteRoomProperty {
        room_number: RoomNumber,
        name: T,
    },
    AddRoomTag {
        room_number: RoomNumber,
        tag: T,
    },
    RemoveRoomTag {
        room_number: RoomNumber,
        tag: T,
    },
    UpsertAreaProperty {
        name: T,
        value: T,
        is_secret: Option<bool>,
    },
    DeleteAreaProperty {
        name: T,
    },
    CreateExit {
        room_number: RoomNumber,
        body: ExitArgs<T>,
    },
    UpdateExit {
        exit_id: ExitId,
        body: ExitUpdates<T>,
    },
    DeleteExit {
        exit_id: ExitId,
    },
    CreateLabel {
        body: LabelArgs<T>,
    },
    UpdateLabel {
        label_id: LabelId,
        body: LabelUpdates<T>,
    },
    DeleteLabel {
        label_id: LabelId,
    },
    CreateShape {
        body: ShapeArgs<T>,
    },
    UpdateShape {
        shape_id: ShapeId,
        body: ShapeUpdates<T>,
    },
    DeleteShape {
        shape_id: ShapeId,
    },
    CreateConnection {
        body: ConnectionArgs<T, R>,
    },
    UpdateConnection {
        connection_id: ConnectionId,
        body: ConnectionUpdates<T, R>,
    },
    /// Deletes a connection with every exit it owns.
    DeleteLink {
        connection_id: ConnectionId,
    },
    /// Moves one exit of a shared connection onto a connection of its own.
    Unlink {
        exit_id: ExitId,
        new_connection_id: ConnectionId,
    },
    /// Moves the exits of one connection onto another.
    Pair {
        keep_connection_id: ConnectionId,
        merge_connection_id: ConnectionId,
    },
}

impl View for AreaMutation<String, Vec<Point>> {
    type V = AreaMutation<Seq<char>, Seq<Point>>;

    open spec fn view(&self) -> AreaMutation<Seq<char>, Seq<Point>> {
        match self {
            AreaMutation::UpsertRoom { room_number, body } => AreaMutation::UpsertRoom {
                room_number: *room_number,
                body: body@,
            },
            AreaMutation::DeleteRoom { room_number } => AreaMutation::DeleteRoom { room_number: *room_number },
            AreaMutation::UpsertRoomProperty { room_number, name, value, is_secret } => AreaMutation::UpsertRoomProperty {
                room_number: *room_number,
                name: name@,
                value: value@,
                is_secret: *is_secret,
            },
            AreaMutation::DeleteRoomProperty { room_number, name } => AreaMutation::DeleteRoomProperty {
                room_number: *room_number,
                name: name@,
            },
            AreaMutation::AddRoomTag { room_number, tag } => AreaMutation::AddRoomTag {
                room_number: *room_number,
                tag: tag@,
            },
            AreaMutation::RemoveRoomTag { room_number, tag } => AreaMutation::RemoveRoomTag {
                room_number: *room_number,
                tag: tag@,
            },
            AreaMutation::UpsertAreaProperty { name, value, is_secret } => AreaMutation::UpsertAreaProperty {
                name: name@,
                value: value@,
                is_secret: *is_secret,
            },
            AreaMutation::DeleteAreaProperty { name } => AreaMutation::DeleteAreaProperty { name: name@ },
            AreaMutation::CreateExit { room_number, body } => AreaMutation::CreateExit {
                room_number: *room_number,
                body: body@,
            },
            AreaMutation::UpdateExit { exit_id, body } => AreaMutation::UpdateExit { exit_id: *exit_id, body: body@ },
            AreaMutation::DeleteExit { exit_id } => AreaMutation::DeleteExit { exit_id: *exit_id },
            AreaMutation::CreateLabel { body } => AreaMutation::CreateLabel { body: body@ },
            AreaMutation::UpdateLabel { label_id, body } => AreaMutation::UpdateLabel {
                label_id: *label_id,
                body: body@,
            },
            AreaMutation::DeleteLabel { label_id } => AreaMutation::DeleteLabel { label_id: *label_id },
            AreaMutation::CreateShape { body } => AreaMutation::CreateShape { body: body@ },
            AreaMutation::UpdateShape { shape_id, body } => AreaMutation::UpdateShape {
                shape_id: *shape_id,
                body: body@,
            },
            AreaMutation::DeleteShape { shape_id } => AreaMutation::DeleteShape { shape_id: *shape_id },
            AreaMutation::CreateConnection { body } => AreaMutation::CreateConnection { body: body@ },
            AreaMutation::UpdateConnection { connection_id, body } => AreaMutation::UpdateConnection {
                connection_id: *connection_id,
                body: body@,
            },
            AreaMutation::DeleteLink { connection_id } => AreaMutation::DeleteLink { connection_id: *connection_id },
            AreaMutation::Unlink { exit_id, new_connection_id } => AreaMutation::Unlink {
                exit_id: *exit_id,
                new_connection_id: *new_connection_id,
            },
            AreaMutation::Pair { keep_connection_id, merge_connection_id } => AreaMutation::Pair {
                keep_connection_id: *keep_connection_id,
                merge_connection_id: *merge_connection_id,
            },
        }
    }
}

impl Clone for AreaMutation<String, Vec<Point>> {
    fn clone(&self) -> (r: Self)
        ensures
            r@ == self@,
    {
        match self {
            AreaMutation::UpsertRoom { room_number, body } => AreaMutation::UpsertRoom {
                room_number: *room_number,
                body: body.clone(),
            },
            AreaMutation::DeleteRoom { room_number } => AreaMutation::DeleteRoom { room_number: *room_number },
            AreaMutation::UpsertRoomProperty { room_number, name, value, is_secret } => AreaMutation::UpsertRoomProperty {
                room_number: *room_number,
                name: name.clone(),
                value: value.clone(),
                is_secret: *is_secret,
            },
            AreaMutation::DeleteRoomProperty { room_number, name } => AreaMutation::DeleteRoomProperty {
                room_number: *room_number,
                name: name.clone(),
            },
            AreaMutation::AddRoomTag { room_number, tag } => AreaMutation::AddRoomTag {
                room_number: *room_number,
                tag: tag.clone(),
            },
            AreaMutation::RemoveRoomTag { room_number, tag } => AreaMutation::RemoveRoomTag {
                room_number: *room_number,
                tag: tag.clone(),
            },
            AreaMutation::UpsertAreaProperty { name, value, is_secret } => AreaMutation::UpsertAreaProperty {
                name: name.clone(),
                value: value.clone(),
                is_secret: *is_secret,
            },
            AreaMutation::DeleteAreaProperty { name } => AreaMutation::DeleteAreaProperty { name: name.clone() },
            AreaMutation::CreateExit { room_number, body } => AreaMutation::CreateExit {
                room_number: *room_number,
                body: body.clone(),
            },
            AreaMutation::UpdateExit { exit_id, body } => AreaMutation::UpdateExit {
                exit_id: *exit_id,
                body: body.clone(),
            },
            AreaMutation::DeleteExit { exit_id } => AreaMutation::DeleteExit { exit_id: *exit_id },
            AreaMutation::CreateLabel { body } => AreaMutation::CreateLabel { body: body.clone() },
            AreaMutation::UpdateLabel { label_id, body } => AreaMutation::UpdateLabel {
                label_id: *label_id,
                body: body.clone(),
            },
            AreaMutation::DeleteLabel { label_id } => AreaMutation::DeleteLabel { label_id: *label_id },
            AreaMutation::CreateShape { body } => AreaMutation::CreateShape { body: body.clone() },
            AreaMutation::UpdateShape { shape_id, body } => AreaMutation::UpdateShape {
                shape_id: *shape_id,
                body: body.clone(),
            },
            AreaMutation::DeleteShape { shape_id } => AreaMutation::DeleteShape { shape_id: *shape_id },
            AreaMutation::CreateConnection { body } => AreaMutation::CreateConnection { body: body.clone() },
            AreaMutation::UpdateConnection { connection_id, body } => AreaMutation::UpdateConnection {
                connection_id: *connection_id,
                body: body.clone(),
            },
            AreaMutation::DeleteLink { connection_id } => AreaMutation::DeleteLink { connection_id: *connection_id },
            AreaMutation::Unlink { exit_id, new_connection_id } => AreaMutation::Unlink {
                exit_id: *exit_id,
                new_connection_id: *new_connection_id,
            },
            AreaMutation::Pair { keep_connection_id, merge_connection_id } => AreaMutation::Pair {
                keep_connection_id: *keep_connection_id,
                merge_connection_id: *merge_connection_id,
            },
        }
    }
}

/// One primitive mutation of a command.
#[allow(inconsistent_fields)]
pub enum Mutation<T = String, O = Vec<AreaMutation>, U = Vec<(RoomNumber, RoomUpdates)>> {
    /// One invariant-sensitive gesture sent as one envelope.
    AreaBatch {
        area_id: AreaId,
        operations: O,
        description: T,
    },
    UpsertRooms(AreaId, U),
    DeleteRoom(RoomKey),
    SetRoomProperty(RoomKey, T, T),
    DeleteRoomProperty(RoomKey, T),
    AddRoomTag(RoomKey, T),
    RemoveRoomTag(RoomKey, T),
    SetAreaProperty(AreaId, T, T),
    DeleteAreaProperty(AreaId, T),
    CreateExit {
        room_key: RoomKey,
        args: ExitArgs<T>,
        /// Restores state that `ExitArgs` cannot express, once the exit exists.
        follow_up: Option<ExitUpdates<T>>,
        slot: SlotId,
    },
    UpdateExit {
        room_key: RoomKey,
        id: IdRef<ExitId>,
        updates: ExitUpdates<T>,
    },
    DeleteExit {
        room_key: RoomKey,
        id: IdRef<ExitId>,
    },
    CreateLabel {
        area_id: AreaId,
        args: LabelArgs<T>,
        slot: SlotId,
    },
    UpdateLabel {
        area_id: AreaId,
        id: IdRef<LabelId>,
        updates: LabelUpdates<T>,
    },
    DeleteLabel {
        area_id: AreaId,
        id: IdRef<LabelId>,
    },
    CreateShape {
        area_id: AreaId,
        args: ShapeArgs<T>,
        slot: SlotId,
    },
    UpdateShape {
        area_id: AreaId,
        id: IdRef<ShapeId>,
        updates: ShapeUpdates<T>,
    },
    DeleteShape {
        area_id: AreaId,
        id: IdRef<ShapeId>,
    },
}

impl View for Mutation<String, Vec<AreaMutation>, Vec<(RoomNumber, RoomUpdates)>> {
    type V = Mutation<Seq<char>, Seq<OpView>, Seq<(RoomNumber, RoomUpdates<Seq<char>>)>>;

    open spec fn view(&self) -> Mutation<Seq<char>, Seq<OpView>, Seq<(RoomNumber, RoomUpdates<Seq<char>>)>> {
        match self {
            Mutation::AreaBatch { area_id, operations, description } => Mutation::AreaBatch {
                area_id: *area_id,
                operations: ops_view(operations@),
                description: description@,
            },
            Mutation::UpsertRooms(area_id, rooms) => Mutation::UpsertRooms(*area_id, rooms_view(rooms@)),
            Mutation::DeleteRoom(room_key) => Mutation::DeleteRoom(*room_key),
            Mutation::SetRoomProperty(room_key, name, value) => Mutation::SetRoomProperty(*room_key, name@, value@),
            Mutation::DeleteRoomProperty(room_key, name) => Mutation::DeleteRoomProperty(*room_key, name@),
            Mutation::AddRoomTag(room_key, tag) => Mutation::AddRoomTag(*room_key, tag@),
            Mutation::RemoveRoomTag(room_key, tag) => Mutation::RemoveRoomTag(*room_key, tag@),
            Mutation::SetAreaProperty(area_id, name, value) => Mutation::SetAreaProperty(*area_id, name@, value@),
            Mutation::DeleteAreaProperty(area_id, name) => Mutation::DeleteAreaProperty(*area_id, name@),
            Mutation::CreateExit { room_key, args, follow_up, slot } => Mutation::CreateExit {
                room_key: *room_key,
                args: args@,
                follow_up: opt_exit_updates(*follow_up),
                slot: *slot,
            },
            Mutation::UpdateExit { room_key, id, updates } => Mutation::UpdateExit {
                room_key: *room_key,
                id: *id,
                updates: updates@,
            },
            Mutation::DeleteExit { room_key, id } => Mutation::DeleteExit { room_key: *room_key, id: *id },
            Mutation::CreateLabel { area_id, args, slot } => Mutation::CreateLabel {
                area_id: *area_id,
                args: args@,
                slot: *slot,
            },
            Mutation::UpdateLabel { area_id, id, updates } => Mutation::UpdateLabel {
                area_id: *area_id,
                id: *id,
                updates: updates@,
            },
            Mutation::DeleteLabel { area_id, id } => Mutation::DeleteLabel { area_id: *area_id, id: *id },
            Mutation::CreateShape { area_id, args, slot } => Mutation::CreateShape {
                area_id: *area_id,
                args: args@,
                slot: *slot,
            },
            Mutation::UpdateShape { area_id, id, updates } => Mutation::UpdateShape {
                area_id: *area_id,
                id: *id,
                updates: updates@,
            },
            Mutation::DeleteShape { area_id, id } => Mutation::DeleteShape { area_id: *area_id, id: *id },
        }
    }
}

impl Clone for Mutation<String, Vec<AreaMutation>, Vec<(RoomNumber, RoomUpdates)>> {
    fn clone(&self) -> (r: Self)
        ensures
            r@ == self@,
    {
        match self {
            Mutation::AreaBatch { area_id, operations, description } => Mutation::AreaBatch {
                area_id: *area_id,
                operations: clone_ops(operations),
                description: description.clone(),
            },
            Mutation::UpsertRooms(area_id, rooms) => Mutation::UpsertRooms(*area_id, clone_rooms(rooms)),
            Mutation::DeleteRoom(room_key) => Mutation::DeleteRoom(*room_key),
            Mutation::SetRoomProperty(room_key, name, value) => Mutation::SetRoomProperty(
                *room_key,
                name.clone(),
                value.clone(),
            ),
            Mutation::DeleteRoomProperty(room_key, name) => Mutation::DeleteRoomProperty(*room_key, name.clone()),
            Mutation::AddRoomTag(room_key, tag) => Mutation::AddRoomTag(*room_key, tag.clone()),
            Mutation::RemoveRoomTag(room_key, tag) => Mutation::RemoveRoomTag(*room_key, tag.clone()),
            Mutation::SetAreaProperty(area_id, name, value) => Mutation::SetAreaProperty(
                *area_id,
                name.clone(),
                value.clone(),
            ),
            Mutation::DeleteAreaProperty(area_id, name) => Mutation::DeleteAreaProperty(*area_id, name.clone()),
            Mutation::CreateExit { room_key, args, follow_up, slot } => Mutation::CreateExit {
                room_key: *room_key,
                args: args.clone(),
                follow_up: clone_opt_exit_updates(follow_up),
                slot: *slot,
            },
            Mutation::UpdateExit { room_key, id, updates } => Mutation::UpdateExit {
                room_key: *room_key,
                id: *id,
                updates: updates.clone(),
            },
            Mutation::DeleteExit { room_key, id } => Mutation::DeleteExit { room_key: *room_key, id: *id },
            Mutation::CreateLabel { area_id, args, slot } => Mutation::CreateLabel {
                area_id: *area_id,
                args: args.clone(),
                slot: *slot,
            },
            Mutation::UpdateLabel { area_id, id, updates } => Mutation::UpdateLabel {
                area_id: *area_id,
                id: *id,
                updates: updates.clone(),
            },
            Mutation::DeleteLabel { area_id, id } => Mutation::DeleteLabel { area_id: *area_id, id: *id },
            Mutation::CreateShape { area_id, args, slot } => Mutation::CreateShape {
                area_id: *area_id,
                args: args.clone(),
                slot: *slot,
            },
            Mutation::UpdateShape { area_id, id, updates } => Mutation::UpdateShape {
                area_id: *area_id,
                id: *id,
                updates: updates.clone(),
            },
            Mutation::DeleteShape { area_id, id } => Mutation::DeleteShape { area_id: *area_id, id: *id },
        }
    }
}

/// The views of a list of area writes.
pub open spec fn ops_view(ops: Seq<AreaMutation>) -> Seq<OpView> {
    ops.map_values(|op: AreaMutation| op@)
}

/// The view of one room's update.
pub open spec fn room_view(room: (RoomNumber, RoomUpdates)) -> (RoomNumber, RoomUpdates<Seq<char>>) {
    (room.0, room.1@)
}

/// The views of a list of room updates.
pub open spec fn rooms_view(rooms: Seq<(RoomNumber, RoomUpdates)>) -> Seq<(RoomNumber, RoomUpdates<Seq<char>>)> {
    rooms.map_values(|room: (RoomNumber, RoomUpdates)| room_view(room))
}

/// The views of a list of mutations.
pub open spec fn mutations_view(mutations: Seq<Mutation>) -> Seq<MutationView> {
    mutations.map_values(|mutation: Mutation| mutation@)
}

/// The view of an optional exit update.
pub open spec fn opt_exit_updates(updates: Option<ExitUpdates>) -> Option<ExitUpdates<Seq<char>>> {
    match updates {
        Some(updates) => Some(updates@),
        None => None,
    }
}

/// A copy of an optional exit update.
pub fn clone_opt_exit_updates(updates: &Option<ExitUpdates>) -> (r: Option<ExitUpdates>)
    ensures
        opt_exit_updates(r) == opt_exit_updates(*updates),
{
    match updates {
        Some(updates) => Some(updates.clone()),
        None => None,
    }
}

/// A copy of a list of area writes.
pub fn clone_ops(ops: &Vec<AreaMutation>) -> (r: Vec<AreaMutation>)
    ensures
        ops_view(r@) == ops_view(ops@),
{
    let mut r: Vec<AreaMutation> = Vec::new();
    for i in 0..ops.len()
        invariant
            ops_view(r@) == ops_view(ops@).take(i as int),
    {
        let op = ops[i].clone();
        let ghost before = r@;
        r.push(op);
        assert(ops_view(r@) =~= ops_view(before).push(op@));
        assert(ops_view(ops@).take(i + 1) =~= ops_view(ops@).take(i as int).push(ops@[i as int]@));
    }
    assert(ops_view(ops@).take(ops.len() as int) =~= ops_view(ops@));
    r
}

/// A copy of a list of room updates.
pub fn clone_rooms(rooms: &Vec<(RoomNumber, RoomUpdates)>) -> (r: Vec<(RoomNumber, RoomUpdates)>)
    ensures
        rooms_view(r@) == rooms_view(rooms@),
{
    let mut r: Vec<(RoomNumber, RoomUpdates)> = Vec::new();
    for i in 0..rooms.len()
        invariant
            rooms_view(r@) == rooms_view(rooms@).take(i as int),
    {
        let room = (rooms[i].0, rooms[i].1.clone());
        let ghost before = r@;
        r.push(room);
        assert(rooms_view(r@) =~= rooms_view(before).push(room_view(room)));
        assert(rooms_view(rooms@).take(i + 1) =~= rooms_view(rooms@).take(i as int).push(
            room_view(rooms@[i as int]),
        ));
    }
    assert(rooms_view(rooms@).take(rooms.len() as int) =~= rooms_view(rooms@));
    r
}

/// The slot a mutation names, if any.
pub open spec fn named_slot(mutation: MutationView) -> Option<SlotId> {
    match mutation {
        Mutation::CreateExit { slot, .. } => Some(slot),
        Mutation::CreateLabel { slot, .. } => Some(slot),
        Mutation::CreateShape { slot, .. } => Some(slot),
        Mutation::UpdateExit { id: IdRef::Slot(slot), .. } => Some(slot),
        Mutation::DeleteExit { id: IdRef::Slot(slot), .. } => Some(slot),
        Mutation::UpdateLabel { id: IdRef::Slot(slot), .. } => Some(slot),
        Mutation::DeleteLabel { id: IdRef::Slot(slot), .. } => Some(slot),
        Mutation::UpdateShape { id: IdRef::Slot(slot), .. } => Some(slot),
        Mutation::DeleteShape { id: IdRef::Slot(slot), .. } => Some(slot),
        _ => None,
    }
}

/// The slot a creation fills, if the mutation is one.
pub open spec fn filled_slot(mutation: MutationView) -> Option<SlotId> {
    match mutation {
        Mutation::CreateExit { slot, .. } => Some(slot),
        Mutation::CreateLabel { slot, .. } => Some(slot),
        Mutation::CreateShape { slot, .. } => Some(slot),
        _ => None,
    }
}

/// Every slot that the creations among the mutations fill lies in a table of
/// `n` slots.
pub open spec fn fills_in(mutations: Seq<MutationView>, n: int) -> bool {
    forall|i: int|
        0 <= i < mutations.len() ==> (filled_slot(#[trigger] mutations[i]) matches Some(slot) ==> slot
            < n)
}

/// How long the slot table must be for a mutation: one past the slot it names.
pub open spec fn slots_for(mutation: MutationView) -> int {
    match named_slot(mutation) {
        Some(slot) => slot + 1,
        None => 0,
    }
}

/// How long the slot table must be for every mutation of a list.
pub open spec fn slots_for_all(mutations: Seq<MutationView>) -> int
    decreases mutations.len(),
{
    if mutations.len() == 0 {
        0
    } else {
        let before = slots_for_all(mutations.drop_last());
        let needed = slots_for(mutations.last());
        if before >= needed {
            before
        } else {
            needed
        }
    }
}

impl Mutation {
    /// The number of slots this mutation requires (max referenced + 1).
    pub fn slot_requirement(&self) -> (slots: usize)
        requires
            slots_for(self@) <= usize::MAX,
        ensures
            slots == slots_for(self@),
    {
        match self {
            Mutation::CreateExit { slot, .. } => *slot + 1,
            Mutation::CreateLabel { slot, .. } => *slot + 1,
            Mutation::CreateShape { slot, .. } => *slot + 1,
            Mutation::UpdateExit { id: IdRef::Slot(slot), .. } => *slot + 1,
            Mutation::DeleteExit { id: IdRef::Slot(slot), .. } => *slot + 1,
            Mutation::UpdateLabel { id: IdRef::Slot(slot), .. } => *slot + 1,
            Mutation::DeleteLabel { id: IdRef::Slot(slot), .. } => *slot + 1,
            Mutation::UpdateShape { id: IdRef::Slot(slot), .. } => *slot + 1,
            Mutation::DeleteShape { id: IdRef::Slot(slot), .. } => *slot + 1,
            _ => 0,
        }
    }
}

} // verus!
