//! Commands and the undo/redo stack.
//!
//! Every entity mutation the editor performs is a [`Command`]: a list of redo
//! mutations plus the inverse list captured from the cache before applying.
//! Applying one direction compiles its list into batches, hands them to the
//! caller for durable staging, and settles the command by the reply.
//!
//! Mutations reference created entities through [`IdRef::Slot`]: an index into
//! the command's table of resolved ids. Deletion commands seed their slots with
//! the original ids, so the first redo targets the existing entity and later
//! redos target whatever the undo most recently recreated.

use vstd::prelude::*;

use super::model::{AreaId, ConnectionId, ExitId, LabelId, OperationId, RoomKey, ShapeId};
use super::mutation::{self, IdRef, Mutation, MutationView, SlotId};
use crate::text;

verus! {

pub type CommandId = u64;

/// How many commands the undo stack retains before dropping the oldest.
pub const MAX_DEPTH: usize = 100;

/// An id stored in a command's slot table.
#[derive(Clone, Copy, Debug, PartialEq, Eq, Structural)]
pub enum ResolvedId {
    Exit(ExitId),
    Label(LabelId),
    Shape(ShapeId),
}

/// The entity a coalescable field edit targets.
#[derive(Clone, Copy, Debug, PartialEq, Eq, Structural)]
pub enum EntityRef {
    Area(AreaId),
    Room(RoomKey),
    Exit(AreaId, ExitId),
    Connection(AreaId, ConnectionId),
    Label(AreaId, LabelId),
    Shape(AreaId, ShapeId),
}

/// A field on an entity, for coalescing rapid consecutive edits.
#[derive(Clone, Copy, Debug, PartialEq, Eq, Structural)]
pub enum FieldId {
    Title,
    Description,
    Level,
    Position,
    Color,
    BackgroundColor,
    Text,
    FontSize,
    FontWeight,
    HorizontalAlignment,
    VerticalAlignment,
    Bounds,
    ShapeType,
    BorderRadius,
    StrokeColor,
    StrokeWidth,
    FromDirection,
    Destination,
    Path,
    Weight,
    Command,
    Flags,
    Routing,
    SegmentShape,
    CornerStyle,
    DashStyle,
    Thickness,
    Endpoint,
    RoutePoints,
    /// A key-value property; the key lives in [`CoalesceKey::detail`].
    Property,
}

/// Edits with equal keys collapse into one undo entry (the first prior state
/// wins, the latest new state wins).
pub struct CoalesceKey<T = String> {
    pub entity: EntityRef,
    pub field: FieldId,
    pub detail: Option<T>,
}

impl View for CoalesceKey<String> {
    type V = CoalesceKey<Seq<char>>;

    open spec fn view(&self) -> CoalesceKey<Seq<char>> {
        CoalesceKey { entity: self.entity, field: self.field, detail: text::opt_text(self.detail) }
    }
}

impl CoalesceKey {
    pub fn new(entity: EntityRef, field: FieldId) -> (key: Self)
        ensures
            key@ == (CoalesceKey { entity, field, detail: None::<Seq<char>> }),
    {
        CoalesceKey { entity, field, detail: None }
    }

    pub fn with_detail(entity: EntityRef, field: FieldId, detail: String) -> (key: Self)
        ensures
            key@ == (CoalesceKey { entity, field, detail: Some(detail@) }),
    {
        CoalesceKey { entity, field, detail: Some(detail) }
    }

    /// Whether two keys name the same field of the same entity.
    pub fn same(&self, other: &Self) -> (same: bool)
        ensures
            same == (self@ == other@),
    {
        self.entity == other.entity && self.field == other.field && match (&self.detail, &other.detail) {
            (Some(a), Some(b)) => text::same_text(a.as_str(), b.as_str()),
            (None, None) => true,
            _ => false,
        }
    }
}

/// The view of an optional key.
pub open spec fn opt_key(key: Option<CoalesceKey>) -> Option<CoalesceKey<Seq<char>>> {
    match key {
        Some(key) => Some(key@),
        None => None,
    }
}

/// An undoable group of mutations, applied and inverted atomically from the
/// user's point of view.
pub struct Command {
    pub id: CommandId,
    pub redo: Vec<Mutation>,
    pub undo: Vec<Mutation>,
    pub coalesce: Option<CoalesceKey>,
    pub resolved_ids: Vec<Option<ResolvedId>>,
    /// Creations whose completion has not been settled yet.
    pub pending: usize,
    /// The operations enqueued by the last application.
    pub operation_ids: Vec<OperationId>,
    pub application_error: Option<String>,
}

/// A command over sequences.
pub struct CommandView {
    pub id: CommandId,
    pub redo: Seq<MutationView>,
    pub undo: Seq<MutationView>,
    pub coalesce: Option<CoalesceKey<Seq<char>>>,
    pub resolved_ids: Seq<Option<ResolvedId>>,
    pub pending: int,
    pub operation_ids: Seq<OperationId>,
    pub application_error: Option<Seq<char>>,
}

impl View for Command {
    type V = CommandView;

    open spec fn view(&self) -> CommandView {
        CommandView {
            id: self.id,
            redo: mutation::mutations_view(self.redo@),
            undo: mutation::mutations_view(self.undo@),
            coalesce: opt_key(self.coalesce),
            resolved_ids: self.resolved_ids@,
            pending: self.pending as int,
            operation_ids: self.operation_ids@,
            application_error: text::opt_text(self.application_error),
        }
    }
}

/// A table of `n` empty slots.
pub open spec fn empty_slots(n: int) -> Seq<Option<ResolvedId>> {
    Seq::new(n as nat, |i: int| None::<ResolvedId>)
}

/// A fresh command: its slot table is just long enough for the slots its
/// mutations name, and empty.
pub open spec fn new_command(redo: Seq<MutationView>, undo: Seq<MutationView>) -> CommandView {
    CommandView {
        id: 0,
        redo,
        undo,
        coalesce: None,
        resolved_ids: empty_slots(mutation::slots_for_all(redo + undo)),
        pending: 0,
        operation_ids: Seq::empty(),
        application_error: None,
    }
}

impl CommandView {
    /// The command as a coalescable field edit.
    pub open spec fn coalescing(self, key: CoalesceKey<Seq<char>>) -> CommandView {
        CommandView { coalesce: Some(key), ..self }
    }

    /// The command with a slot seeded.
    pub open spec fn seeded(self, slot: int, id: ResolvedId) -> CommandView {
        CommandView { resolved_ids: self.resolved_ids.update(slot, Some(id)), ..self }
    }

    /// Every slot that a creation fills lies in the slot table.
    pub open spec fn wf(self) -> bool {
        &&& mutation::fills_in(self.redo, self.resolved_ids.len() as int)
        &&& mutation::fills_in(self.undo, self.resolved_ids.len() as int)
    }

    /// The mutations of one direction.
    pub open spec fn mutations(self, direction: Direction) -> Seq<MutationView> {
        match direction {
            Direction::Redo => self.redo,
            Direction::Undo => self.undo,
        }
    }
}

/// The table that a list needs is long enough for each of its mutations.
pub proof fn lemma_slots_for_all(mutations: Seq<MutationView>, i: int)
    requires
        0 <= i < mutations.len(),
    ensures
        mutation::slots_for(mutations[i]) <= mutation::slots_for_all(mutations),
    decreases mutations.len(),
{
    if i < mutations.len() - 1 {
        lemma_slots_for_all(mutations.drop_last(), i);
    }
}

/// A list needs a table at least as long as its first part does.
proof fn lemma_slots_prefix(mutations: Seq<MutationView>, n: int)
    requires
        0 <= n <= mutations.len(),
    ensures
        0 <= mutation::slots_for_all(mutations.take(n)) <= mutation::slots_for_all(mutations),
    decreases mutations.len(),
{
    if n < mutations.len() {
        lemma_slots_prefix(mutations.drop_last(), n);
        assert(mutations.drop_last().take(n) =~= mutations.take(n));
    } else {
        assert(mutations.take(n) =~= mutations);
        if n > 0 {
            lemma_slots_prefix(mutations.drop_last(), n - 1);
            assert(mutations.drop_last().take(n - 1) =~= mutations.drop_last());
        }
    }
}

/// The longer of the running slot requirement and the one of the mutations from
/// `list`.
fn raise_slots(list: &Vec<Mutation>, before: usize, Ghost(done): Ghost<Seq<MutationView>>) -> (slots: usize)
    requires
        before == mutation::slots_for_all(done),
        mutation::slots_for_all(done + mutation::mutations_view(list@)) <= usize::MAX,
    ensures
        slots == mutation::slots_for_all(done + mutation::mutations_view(list@)),
{
    let mut slots: usize = before;
    let ghost views = mutation::mutations_view(list@);
    assert(done + views.take(0) =~= done);
    for i in 0..list.len()
        invariant
            views == mutation::mutations_view(list@),
            slots == mutation::slots_for_all(done + views.take(i as int)),
            mutation::slots_for_all(done + views) <= usize::MAX,
    {
        proof {
            let next = done + views.take(i + 1);
            assert(next.drop_last() =~= done + views.take(i as int));
            assert(next.last() == list@[i as int]@);
            lemma_slots_prefix(done + views, done.len() + i + 1);
            assert((done + views).take(done.len() + i + 1) =~= next);
        }
        let needed: usize = list[i].slot_requirement();
        if slots < needed {
            slots = needed;
        }
    }
    assert(views.take(list.len() as int) =~= views);
    slots
}

impl Command {
    pub open spec fn wf(self) -> bool {
        self@.wf()
    }

    pub fn new(redo: Vec<Mutation>, undo: Vec<Mutation>) -> (command: Self)
        requires
            mutation::slots_for_all(
                mutation::mutations_view(redo@) + mutation::mutations_view(undo@),
            ) <= usize::MAX,
        ensures
            command@ == new_command(
                mutation::mutations_view(redo@),
                mutation::mutations_view(undo@),
            ),
            command.wf(),
    {
        let ghost all = mutation::mutations_view(redo@) + mutation::mutations_view(undo@);
        proof {
            lemma_slots_prefix(all, redo@.len() as int);
            assert(all.take(redo@.len() as int) =~= Seq::empty() + mutation::mutations_view(redo@));
            assert(Seq::empty() + mutation::mutations_view(redo@) =~= mutation::mutations_view(redo@));
        }
        let redo_slots: usize = raise_slots(&redo, 0, Ghost(Seq::empty()));
        let slots: usize = raise_slots(&undo, redo_slots, Ghost(mutation::mutations_view(redo@)));
        let mut resolved_ids: Vec<Option<ResolvedId>> = Vec::new();
        for i in 0..slots
            invariant
                resolved_ids@ == empty_slots(i as int),
        {
            resolved_ids.push(None);
            assert(resolved_ids@ =~= empty_slots(i + 1));
        }
        let command = Command {
            id: 0,
            redo,
            undo,
            coalesce: None,
            resolved_ids,
            pending: 0,
            operation_ids: Vec::new(),
            application_error: None,
        };
        proof {
            assert(command@.operation_ids =~= Seq::empty());
            assert forall|i: int| 0 <= i < redo@.len() implies mutation::slots_for(
                #[trigger] command@.redo[i],
            ) <= command@.resolved_ids.len() by {
                lemma_slots_for_all(all, i);
            }
            assert forall|i: int| 0 <= i < undo@.len() implies mutation::slots_for(
                #[trigger] command@.undo[i],
            ) <= command@.resolved_ids.len() by {
                lemma_slots_for_all(all, redo@.len() + i);
            }
        }
        command
    }

    /// Marks this command as a coalescable field edit.
    pub fn coalescing(self, key: CoalesceKey) -> (command: Self)
        ensures
            command@ == self@.coalescing(key@),
    {
        let mut command = self;
        command.coalesce = Some(key);
        command
    }

    /// Seeds a slot with an entity's current id, so slot references work before
    /// any undo has recreated the entity.
    pub fn seed_slot(self, slot: SlotId, id: ResolvedId) -> (command: Self)
        requires
            slot < self@.resolved_ids.len(),
        ensures
            command@ == self@.seeded(slot as int, id),
    {
        let mut command = self;
        command.resolved_ids.set(slot, Some(id));
        command
    }
}

/// The exit a reference names, given the slot table.
pub open spec fn exit_named(slots: Seq<Option<ResolvedId>>, id: IdRef<ExitId>) -> Option<ExitId> {
    match id {
        IdRef::Known(id) => Some(id),
        IdRef::Slot(slot) => if slot < slots.len() {
            match slots[slot as int] {
                Some(ResolvedId::Exit(id)) => Some(id),
                _ => None,
            }
        } else {
            None
        },
    }
}

/// The label a reference names, given the slot table.
pub open spec fn label_named(slots: Seq<Option<ResolvedId>>, id: IdRef<LabelId>) -> Option<LabelId> {
    match id {
        IdRef::Known(id) => Some(id),
        IdRef::Slot(slot) => if slot < slots.len() {
            match slots[slot as int] {
                Some(ResolvedId::Label(id)) => Some(id),
                _ => None,
            }
        } else {
            None
        },
    }
}

/// The shape a reference names, given the slot table.
pub open spec fn shape_named(slots: Seq<Option<ResolvedId>>, id: IdRef<ShapeId>) -> Option<ShapeId> {
    match id {
        IdRef::Known(id) => Some(id),
        IdRef::Slot(slot) => if slot < slots.len() {
            match slots[slot as int] {
                Some(ResolvedId::Shape(id)) => Some(id),
                _ => None,
            }
        } else {
            None
        },
    }
}

/// The exit a reference names, given the slot table.
pub fn exit_id(slots: &Vec<Option<ResolvedId>>, id: IdRef<ExitId>) -> (found: Option<ExitId>)
    ensures
        found == exit_named(slots@, id),
{
    match id {
        IdRef::Known(id) => Some(id),
        IdRef::Slot(slot) => if slot < slots.len() {
            match slots[slot] {
                Some(ResolvedId::Exit(id)) => Some(id),
                _ => None,
            }
        } else {
            None
        },
    }
}

/// The label a reference names, given the slot table.
pub fn label_id(slots: &Vec<Option<ResolvedId>>, id: IdRef<LabelId>) -> (found: Option<LabelId>)
    ensures
        found == label_named(slots@, id),
{
    match id {
        IdRef::Known(id) => Some(id),
        IdRef::Slot(slot) => if slot < slots.len() {
            match slots[slot] {
                Some(ResolvedId::Label(id)) => Some(id),
                _ => None,
            }
        } else {
            None
        },
    }
}

/// The shape a reference names, given the slot table.
pub fn shape_id(slots: &Vec<Option<ResolvedId>>, id: IdRef<ShapeId>) -> (found: Option<ShapeId>)
    ensures
        found == shape_named(slots@, id),
{
    match id {
        IdRef::Known(id) => Some(id),
        IdRef::Slot(slot) => if slot < slots.len() {
            match slots[slot] {
                Some(ResolvedId::Shape(id)) => Some(id),
                _ => None,
            }
        } else {
            None
        },
    }
}

/// Which list of a command to apply.
#[derive(Clone, Copy, Debug, PartialEq, Eq, Structural)]
pub enum Direction {
    Redo,
    Undo,
}

} // verus!
