//! Builders of commands that edit existing entities.
//!
//! Builders read the current cache to capture inverse state, so they run before
//! the command is applied. An edit's inverse touches exactly the fields the
//! edit touches.

use vstd::prelude::*;

use super::cache::{self, find_property, list_holds, Selection};
use super::commands::{self, CoalesceKey, Command, CommandView, EntityRef, FieldId};
use super::doing;
use super::model::{
    AreaCache, AreaId, AtlasCache, Connection, EntityId, LabelCache, LabelId, LabelUpdates, Point, RoomCache, RoomKey,
    RoomNumber, RoomUpdates, Scalar, ShapeCache, ShapeId, ShapeUpdates,
};
use super::mutation::{self, AreaMutation, IdRef, Mutation, MutationView, OpView};
use super::undoing::{self, RoomState};
use crate::list;
use crate::text::{self, clone_opt, clone_or_empty};

verus! {

/// The view of an optional command.
pub open spec fn opt_command(command: Option<Command>) -> Option<CommandView> {
    match command {
        Some(command) => Some(command@),
        None => None,
    }
}

/// The value to restore for a field, when the edit touches it.
pub open spec fn prior<A, B>(touched: Option<A>, value: B) -> Option<B> {
    match touched {
        Some(_) => Some(value),
        None => None,
    }
}

/// The value to restore for a field, when the edit touches it.
pub(crate) fn prior_of<A, B>(touched: &Option<A>, value: B) -> (r: Option<B>)
    ensures
        r == prior(*touched, value),
{
    match touched {
        Some(_) => Some(value),
        None => None,
    }
}

/// A batch of area writes as a mutation.
pub open spec fn batch(area_id: AreaId, operations: Seq<OpView>, description: Seq<char>) -> MutationView {
    Mutation::AreaBatch { area_id, operations, description }
}

/// No list needs more slots than its neediest mutation.
pub proof fn lemma_slots_bound(mutations: Seq<MutationView>, n: int)
    requires
        0 <= n,
        forall|i: int| 0 <= i < mutations.len() ==> mutation::slots_for(#[trigger] mutations[i]) <= n,
    ensures
        0 <= mutation::slots_for_all(mutations) <= n,
    decreases mutations.len(),
{
    if mutations.len() > 0 {
        let rest = mutations.drop_last();
        assert forall|i: int| 0 <= i < rest.len() implies mutation::slots_for(#[trigger] rest[i]) <= n by {
            assert(rest[i] == mutations[i]);
        }
        lemma_slots_bound(rest, n);
        assert(mutation::slots_for(mutations[mutations.len() - 1]) <= n);
    }
}

/// A command of one mutation and its inverse.
pub(crate) fn pair(redo: Mutation, undo: Mutation) -> (command: Command)
    requires
        mutation::slots_for(redo@) <= usize::MAX,
        mutation::slots_for(undo@) <= usize::MAX,
    ensures
        command@ == commands::new_command(seq![redo@], seq![undo@]),
        command.wf(),
{
    let mut redo_list: Vec<Mutation> = Vec::new();
    redo_list.push(redo);
    let mut undo_list: Vec<Mutation> = Vec::new();
    undo_list.push(undo);
    proof {
        assert(mutation::mutations_view(redo_list@) =~= seq![redo@]);
        assert(mutation::mutations_view(undo_list@) =~= seq![undo@]);
        lemma_slots_bound(seq![redo@] + seq![undo@], usize::MAX as int);
    }
    Command::new(redo_list, undo_list)
}

/// A list of one write.
pub(crate) fn one(op: AreaMutation) -> (ops: Vec<AreaMutation>)
    ensures
        mutation::ops_view(ops@) == seq![op@],
{
    let mut ops: Vec<AreaMutation> = Vec::new();
    ops.push(op);
    assert(mutation::ops_view(ops@) =~= seq![op@]);
    ops
}

/// A list of two writes.
pub(crate) fn two(first: AreaMutation, second: AreaMutation) -> (ops: Vec<AreaMutation>)
    ensures
        mutation::ops_view(ops@) == seq![first@, second@],
{
    let mut ops: Vec<AreaMutation> = Vec::new();
    ops.push(first);
    ops.push(second);
    assert(mutation::ops_view(ops@) =~= seq![first@, second@]);
    ops
}

// ===== Rooms =====

/// The inverse of a room edit: the room's values of the fields it touches.
pub open spec fn room_inverse(
    room: RoomCache,
    updates: RoomUpdates<Seq<char>>,
) -> RoomUpdates<Seq<char>> {
    RoomUpdates {
        is_secret: None,
        title: prior(updates.title, room.title@),
        description: prior(updates.description, room.description@),
        level: prior(updates.level, room.level),
        x: prior(updates.x, room.x),
        y: prior(updates.y, room.y),
        color: prior(updates.color, room.color@),
        external_id: prior(updates.external_id, text::opt_text(room.external_id)),
    }
}

/// The inverse of a room edit.
fn invert_room(room: &RoomCache, updates: &RoomUpdates) -> (inverse: RoomUpdates)
    ensures
        inverse@ == room_inverse(*room, updates@),
{
    RoomUpdates {
        is_secret: None,
        title: prior_of(&updates.title, room.title.clone()),
        description: prior_of(&updates.description, room.description.clone()),
        level: prior_of(&updates.level, room.level),
        x: prior_of(&updates.x, room.x),
        y: prior_of(&updates.y, room.y),
        color: prior_of(&updates.color, room.color.clone()),
        external_id: prior_of(&updates.external_id, clone_opt(&room.external_id)),
    }
}

/// The command of [`edit_room_field`].
pub open spec fn room_field_command(
    atlas: AtlasCache,
    key: RoomKey,
    field: FieldId,
    updates: RoomUpdates<Seq<char>>,
) -> Option<CommandView> {
    match atlas.area(key.area_id) {
        None => None,
        Some(area) => match area.room(key.room_number) {
            None => None,
            Some(room) => Some(
                commands::new_command(
                    seq![Mutation::UpsertRooms(key.area_id, seq![(key.room_number, updates)])],
                    seq![
                        Mutation::UpsertRooms(
                            key.area_id,
                            seq![(key.room_number, room_inverse(room, updates))],
                        ),
                    ],
                ).coalescing(CoalesceKey { entity: EntityRef::Room(key), field, detail: None }),
            ),
        },
    }
}

/// One room update as a list.
fn one_room(number: RoomNumber, updates: RoomUpdates) -> (rooms: Vec<(RoomNumber, RoomUpdates)>)
    ensures
        mutation::rooms_view(rooms@) == seq![(number, updates@)],
{
    let mut rooms: Vec<(RoomNumber, RoomUpdates)> = Vec::new();
    rooms.push((number, updates));
    assert(mutation::rooms_view(rooms@) =~= seq![(number, updates@)]);
    rooms
}

/// Edits one room field; coalesces with consecutive edits to the same field of
/// the same room. `None` when the room is not cached.
pub fn edit_room_field(
    atlas: &AtlasCache,
    room_key: RoomKey,
    field: FieldId,
    updates: RoomUpdates,
) -> (command: Option<Command>)
    ensures
        opt_command(command) == room_field_command(*atlas, room_key, field, updates@),
        doing::makes_room(
            opt_command(command),
            *atlas,
            room_key,
            undoing::room_updated(
                undoing::room_state(doing::cached_room(*atlas, room_key)->0),
                updates@,
            ),
        ),
        command matches Some(command) ==> command.wf(),
{
    proof {
        doing::law_an_edit_gives_a_room_its_values(*atlas, room_key, field, updates@);
    }
    let area = atlas.get_area(&room_key.area_id)?;
    let room = area.get_room(&room_key.room_number)?;
    let inverse = invert_room(room, &updates);
    let command = pair(
        Mutation::UpsertRooms(room_key.area_id, one_room(room_key.room_number, updates)),
        Mutation::UpsertRooms(room_key.area_id, one_room(room_key.room_number, inverse)),
    );
    Some(command.coalescing(CoalesceKey::new(EntityRef::Room(room_key), field)))
}

/// The updates `f` makes of the cached rooms among `rooms`, in order.
pub open spec fn room_edits(
    area: AreaCache,
    rooms: Seq<RoomNumber>,
    f: spec_fn(RoomCache) -> RoomUpdates<Seq<char>>,
) -> Seq<(RoomNumber, RoomUpdates<Seq<char>>)> {
    list::collect(
        rooms,
        |number: RoomNumber|
            match area.room(number) {
                Some(room) => seq![(number, f(room))],
                None => Seq::empty(),
            },
    )
}

/// One room update added to a list.
pub(crate) fn push_room(
    rooms: &mut Vec<(RoomNumber, RoomUpdates)>,
    number: RoomNumber,
    updates: RoomUpdates,
)
    ensures
        mutation::rooms_view(final(rooms)@) == mutation::rooms_view(old(rooms)@).push(
            (number, updates@),
        ),
        final(rooms)@.len() == old(rooms)@.len() + 1,
{
    let ghost before = rooms@;
    rooms.push((number, updates));
    assert(mutation::rooms_view(rooms@) =~= mutation::rooms_view(before).push((number, updates@)));
}

/// One mutation added to a list.
pub(crate) fn push_mutation(list: &mut Vec<Mutation>, mutation: Mutation)
    ensures
        mutation::mutations_view(final(list)@) == mutation::mutations_view(old(list)@).push(mutation@),
{
    let ghost before = list@;
    list.push(mutation);
    assert(mutation::mutations_view(list@) =~= mutation::mutations_view(before).push(mutation@));
}

/// One area write added to a list.
pub(crate) fn push_op(list: &mut Vec<AreaMutation>, op: AreaMutation)
    ensures
        mutation::ops_view(final(list)@) == mutation::ops_view(old(list)@).push(op@),
{
    let ghost before = list@;
    list.push(op);
    assert(mutation::ops_view(list@) =~= mutation::ops_view(before).push(op@));
}

/// The command of [`bulk_edit_rooms`].
pub open spec fn bulk_command(
    atlas: AtlasCache,
    area_id: AreaId,
    selection: Seq<EntityId>,
    updates: RoomUpdates<Seq<char>>,
) -> Option<CommandView> {
    match atlas.area(area_id) {
        None => None,
        Some(area) => {
            let rooms = cache::selected_rooms(selection);
            let redo = room_edits(area, rooms, |room: RoomCache| updates);
            let undo = room_edits(area, rooms, |room: RoomCache| room_inverse(room, updates));
            if redo.len() == 0 {
                None
            } else {
                Some(
                    commands::new_command(
                        seq![Mutation::UpsertRooms(area_id, redo)],
                        seq![Mutation::UpsertRooms(area_id, undo)],
                    ),
                )
            }
        },
    }
}

/// Applies the same field updates to every selected room as one undo step.
/// `None` when no selected room is cached.
pub fn bulk_edit_rooms(
    atlas: &AtlasCache,
    area_id: AreaId,
    selection: &Selection,
    updates: &RoomUpdates,
) -> (command: Option<Command>)
    ensures
        opt_command(command) == bulk_command(*atlas, area_id, selection@, updates@),
        doing::edits_rooms(opt_command(command), *atlas, area_id, selection@, updates@),
        command matches Some(command) ==> command.wf(),
{
    proof {
        doing::law_a_bulk_edit_reaches_every_selected_room(*atlas, area_id, selection@, updates@);
    }
    let area = atlas.get_area(&area_id)?;
    let rooms = selection.rooms();
    let mut redo: Vec<(RoomNumber, RoomUpdates)> = Vec::new();
    let mut undo: Vec<(RoomNumber, RoomUpdates)> = Vec::new();
    let ghost given = updates@;
    let ghost same = |room: RoomCache| given;
    let ghost inverse = |room: RoomCache| room_inverse(room, given);
    proof {
        assert(rooms@.take(0) =~= Seq::empty());
        assert(mutation::rooms_view(redo@) =~= room_edits(*area, rooms@.take(0), same));
        assert(mutation::rooms_view(undo@) =~= room_edits(*area, rooms@.take(0), inverse));
    }
    for i in 0..rooms.len()
        invariant
            given == updates@,
            same == (|room: RoomCache| given),
            inverse == (|room: RoomCache| room_inverse(room, given)),
            mutation::rooms_view(redo@) == room_edits(*area, rooms@.take(i as int), same),
            mutation::rooms_view(undo@) == room_edits(*area, rooms@.take(i as int), inverse),
    {
        proof {
            assert(rooms@.take(i + 1).drop_last() =~= rooms@.take(i as int));
        }
        if let Some(room) = area.get_room(&rooms[i]) {
            push_room(&mut redo, rooms[i], updates.clone());
            push_room(&mut undo, rooms[i], invert_room(room, updates));
        }
    }
    assert(rooms@.take(rooms.len() as int) =~= rooms@);
    if redo.len() == 0 {
        None
    } else {
        Some(pair(Mutation::UpsertRooms(area_id, redo), Mutation::UpsertRooms(area_id, undo)))
    }
}

// ===== The whole selection =====

/// The updates `f` makes of the cached labels among `labels`, in order.
pub open spec fn label_edits(
    area_id: AreaId,
    area: AreaCache,
    labels: Seq<LabelId>,
    f: spec_fn(LabelCache) -> LabelUpdates<Seq<char>>,
) -> Seq<MutationView> {
    list::collect(
        labels,
        |id: LabelId|
            match area.label(id) {
                Some(label) => seq![Mutation::UpdateLabel { area_id, id: IdRef::Known(id), updates: f(label) }],
                None => Seq::empty(),
            },
    )
}

/// The updates `f` makes of the cached shapes among `shapes`, in order.
pub open spec fn shape_edits(
    area_id: AreaId,
    area: AreaCache,
    shapes: Seq<ShapeId>,
    f: spec_fn(ShapeCache) -> ShapeUpdates<Seq<char>>,
) -> Seq<MutationView> {
    list::collect(
        shapes,
        |id: ShapeId|
            match area.shape(id) {
                Some(shape) => seq![Mutation::UpdateShape { area_id, id: IdRef::Known(id), updates: f(shape) }],
                None => Seq::empty(),
            },
    )
}

/// What an edit of the whole selection does to each kind of entity.
pub struct SelectionEdit {
    pub room: spec_fn(RoomCache) -> RoomUpdates<Seq<char>>,
    pub label: spec_fn(LabelCache) -> LabelUpdates<Seq<char>>,
    pub shape: spec_fn(ShapeCache) -> ShapeUpdates<Seq<char>>,
}

/// The rooms as one mutation, when there are any.
pub open spec fn rooms_mutation(
    area_id: AreaId,
    rooms: Seq<(RoomNumber, RoomUpdates<Seq<char>>)>,
) -> Seq<MutationView> {
    if rooms.len() == 0 {
        Seq::empty()
    } else {
        seq![Mutation::UpsertRooms(area_id, rooms)]
    }
}

/// The mutations of an edit of the whole selection: all rooms at once, then each
/// label, then each shape.
pub open spec fn selection_edits(
    area_id: AreaId,
    area: AreaCache,
    selection: Seq<EntityId>,
    edit: SelectionEdit,
) -> Seq<MutationView> {
    rooms_mutation(area_id, room_edits(area, cache::selected_rooms(selection), edit.room))
        + label_edits(area_id, area, cache::selected_labels(selection), edit.label) + shape_edits(
        area_id,
        area,
        cache::selected_shapes(selection),
        edit.shape,
    )
}

/// The command that edits the whole selection, unless it holds nothing cached.
pub open spec fn selection_command(
    atlas: AtlasCache,
    area_id: AreaId,
    selection: Seq<EntityId>,
    redo: SelectionEdit,
    undo: SelectionEdit,
) -> Option<CommandView> {
    match atlas.area(area_id) {
        None => None,
        Some(area) => {
            let edits = selection_edits(area_id, area, selection, redo);
            if edits.len() == 0 {
                None
            } else {
                Some(commands::new_command(edits, selection_edits(area_id, area, selection, undo)))
            }
        },
    }
}

/// A list of mutations that name no slot.
pub open spec fn no_slots(mutations: Seq<MutationView>) -> bool {
    forall|i: int| 0 <= i < mutations.len() ==> mutation::slots_for(#[trigger] mutations[i]) == 0
}

/// A command of two lists that name no slot.
pub(crate) fn slotless(redo: Vec<Mutation>, undo: Vec<Mutation>) -> (command: Command)
    requires
        no_slots(mutation::mutations_view(redo@)),
        no_slots(mutation::mutations_view(undo@)),
    ensures
        command@ == commands::new_command(
            mutation::mutations_view(redo@),
            mutation::mutations_view(undo@),
        ),
        command.wf(),
{
    proof {
        let redos = mutation::mutations_view(redo@);
        let undos = mutation::mutations_view(undo@);
        let all = redos + undos;
        assert forall|i: int| 0 <= i < all.len() implies mutation::slots_for(#[trigger] all[i]) <= 0 by {
            if i < redos.len() {
                assert(all[i] == redos[i]);
            } else {
                assert(all[i] == undos[i - redos.len()]);
            }
        }
        lemma_slots_bound(all, 0);
    }
    Command::new(redo, undo)
}

/// A list with one more mutation that names no slot.
pub(crate) proof fn lemma_no_slots_push(mutations: Seq<MutationView>, mutation: MutationView)
    requires
        no_slots(mutations),
        mutation::slots_for(mutation) == 0,
    ensures
        no_slots(mutations.push(mutation)),
{
    let longer = mutations.push(mutation);
    assert forall|i: int| 0 <= i < longer.len() implies mutation::slots_for(#[trigger] longer[i]) == 0 by {
        if i < mutations.len() {
            assert(longer[i] == mutations[i]);
        }
    }
}

/// `f` computes `g`.
pub open spec fn computes<F: Fn(Point) -> Point>(f: F, g: spec_fn(Point) -> Point) -> bool {
    forall|p: Point, q: Point| f.ensures((p,), q) ==> q == g(p)
}

/// Moving by `g`.
pub open spec fn moved_edit(g: spec_fn(Point) -> Point) -> SelectionEdit {
    SelectionEdit {
        room: |room: RoomCache|
            {
                let to = g(Point { x: room.x, y: room.y });
                RoomUpdates { x: Some(to.x), y: Some(to.y), ..RoomUpdates::none() }
            },
        label: |label: LabelCache|
            {
                let to = g(Point { x: label.x, y: label.y });
                LabelUpdates { x: Some(to.x), y: Some(to.y), ..LabelUpdates::none() }
            },
        shape: |shape: ShapeCache|
            {
                let to = g(Point { x: shape.x, y: shape.y });
                ShapeUpdates { x: Some(to.x), y: Some(to.y), ..ShapeUpdates::none() }
            },
    }
}

/// Back to the cached positions.
pub open spec fn placed_edit() -> SelectionEdit {
    moved_edit(|p: Point| p)
}

/// Setting the level to `delta` above the cached one.
pub open spec fn level_edit(delta: int) -> SelectionEdit {
    SelectionEdit {
        room: |room: RoomCache| RoomUpdates {
            level: Some((room.level + delta) as i32),
            ..RoomUpdates::none()
        },
        label: |label: LabelCache| LabelUpdates {
            level: Some((label.level + delta) as i32),
            ..LabelUpdates::none()
        },
        shape: |shape: ShapeCache| ShapeUpdates {
            level: Some((shape.level + delta) as i32),
            ..ShapeUpdates::none()
        },
    }
}

/// A level that can be shifted by `delta`.
pub open spec fn level_fits(level: i32, delta: i32) -> bool {
    i32::MIN <= level + delta <= i32::MAX
}

/// Every level that a shift of the selection changes can be shifted by `delta`.
pub open spec fn levels_fit(area: AreaCache, selection: Seq<EntityId>, delta: i32) -> bool {
    &&& forall|i: int|
        0 <= i < cache::selected_rooms(selection).len() ==> (area.room(
            #[trigger] cache::selected_rooms(selection)[i],
        ) matches Some(room) ==> level_fits(room.level, delta))
    &&& forall|i: int|
        0 <= i < cache::selected_labels(selection).len() ==> (area.label(
            #[trigger] cache::selected_labels(selection)[i],
        ) matches Some(label) ==> level_fits(label.level, delta))
    &&& forall|i: int|
        0 <= i < cache::selected_shapes(selection).len() ==> (area.shape(
            #[trigger] cache::selected_shapes(selection)[i],
        ) matches Some(shape) ==> level_fits(shape.level, delta))
}

/// Whether every level that a shift of the selection changes can be shifted by `delta`.
pub fn can_shift_levels(area: &AreaCache, selection: &Selection, delta: i32) -> (can: bool)
    ensures
        can == levels_fit(*area, selection@, delta),
{
    let rooms = selection.rooms();
    for i in 0..rooms.len()
        invariant
            rooms@ == cache::selected_rooms(selection@),
            forall|k: int|
                0 <= k < i ==> (area.room(#[trigger] rooms@[k]) matches Some(room) ==> level_fits(
                    room.level,
                    delta,
                )),
    {
        if let Some(room) = area.get_room(&rooms[i]) {
            if room.level.checked_add(delta).is_none() {
                assert(!level_fits(room.level, delta));
                assert(cache::selected_rooms(selection@)[i as int] == rooms@[i as int]);
                return false;
            }
        }
    }
    let labels = selection.labels();
    for i in 0..labels.len()
        invariant
            labels@ == cache::selected_labels(selection@),
            forall|k: int|
                0 <= k < i ==> (area.label(#[trigger] labels@[k]) matches Some(label) ==> level_fits(
                    label.level,
                    delta,
                )),
    {
        if let Some(label) = area.get_label(&labels[i]) {
            if label.level.checked_add(delta).is_none() {
                assert(!level_fits(label.level, delta));
                assert(cache::selected_labels(selection@)[i as int] == labels@[i as int]);
                return false;
            }
        }
    }
    let shapes = selection.shapes();
    for i in 0..shapes.len()
        invariant
            shapes@ == cache::selected_shapes(selection@),
            forall|k: int|
                0 <= k < i ==> (area.shape(#[trigger] shapes@[k]) matches Some(shape) ==> level_fits(
                    shape.level,
                    delta,
                )),
    {
        if let Some(shape) = area.get_shape(&shapes[i]) {
            if shape.level.checked_add(delta).is_none() {
                assert(!level_fits(shape.level, delta));
                assert(cache::selected_shapes(selection@)[i as int] == shapes@[i as int]);
                return false;
            }
        }
    }
    true
}

/// A room update that sets a position.
fn room_at(at: Point) -> (updates: RoomUpdates)
    ensures
        updates@ == (RoomUpdates { x: Some(at.x), y: Some(at.y), ..RoomUpdates::none() }),
{
    let mut updates: RoomUpdates = RoomUpdates::default();
    updates.x = Some(at.x);
    updates.y = Some(at.y);
    updates
}

/// A label update that sets a position.
fn label_at(at: Point) -> (updates: LabelUpdates)
    ensures
        updates@ == (LabelUpdates { x: Some(at.x), y: Some(at.y), ..LabelUpdates::none() }),
{
    let mut updates: LabelUpdates = LabelUpdates::default();
    updates.x = Some(at.x);
    updates.y = Some(at.y);
    updates
}

/// A shape update that sets a position.
fn shape_at(at: Point) -> (updates: ShapeUpdates)
    ensures
        updates@ == (ShapeUpdates { x: Some(at.x), y: Some(at.y), ..ShapeUpdates::none() }),
{
    let mut updates: ShapeUpdates = ShapeUpdates::default();
    updates.x = Some(at.x);
    updates.y = Some(at.y);
    updates
}

/// A room update that sets the level.
fn room_level(level: i32) -> (updates: RoomUpdates)
    ensures
        updates@ == (RoomUpdates { level: Some(level), ..RoomUpdates::none() }),
{
    let mut updates: RoomUpdates = RoomUpdates::default();
    updates.level = Some(level);
    updates
}

/// A label update that sets the level.
fn label_level(level: i32) -> (updates: LabelUpdates)
    ensures
        updates@ == (LabelUpdates { level: Some(level), ..LabelUpdates::none() }),
{
    let mut updates: LabelUpdates = LabelUpdates::default();
    updates.level = Some(level);
    updates
}

/// A shape update that sets the level.
fn shape_level(level: i32) -> (updates: ShapeUpdates)
    ensures
        updates@ == (ShapeUpdates { level: Some(level), ..ShapeUpdates::none() }),
{
    let mut updates: ShapeUpdates = ShapeUpdates::default();
    updates.level = Some(level);
    updates
}

/// Moves every selected room (and label and shape) up or down by whole levels as
/// one undo step. `None` when the selection holds nothing cached.
pub fn shift_selection_level(
    atlas: &AtlasCache,
    area_id: AreaId,
    selection: &Selection,
    delta: i32,
) -> (command: Option<Command>)
    requires
        atlas.area(area_id) matches Some(area) ==> levels_fit(area, selection@, delta),
    ensures
        opt_command(command) == selection_command(
            *atlas,
            area_id,
            selection@,
            level_edit(delta as int),
            level_edit(0),
        ),
        doing::raises(opt_command(command), *atlas, area_id, selection@, delta as int),
        command matches Some(command) ==> command.wf(),
{
    proof {
        doing::law_a_shift_raises_the_selection(*atlas, area_id, selection@, delta as int);
    }
    let area = atlas.get_area(&area_id)?;
    let ghost up = level_edit(delta as int);
    let ghost back = level_edit(0);
    let rooms = selection.rooms();
    let mut room_redo: Vec<(RoomNumber, RoomUpdates)> = Vec::new();
    let mut room_undo: Vec<(RoomNumber, RoomUpdates)> = Vec::new();
    proof {
        assert(rooms@.take(0) =~= Seq::empty());
        assert(mutation::rooms_view(room_redo@) =~= room_edits(*area, rooms@.take(0), up.room));
        assert(mutation::rooms_view(room_undo@) =~= room_edits(*area, rooms@.take(0), back.room));
    }
    for i in 0..rooms.len()
        invariant
            rooms@ == cache::selected_rooms(selection@),
            levels_fit(*area, selection@, delta),
            up == level_edit(delta as int),
            back == level_edit(0),
            mutation::rooms_view(room_redo@) == room_edits(*area, rooms@.take(i as int), up.room),
            mutation::rooms_view(room_undo@) == room_edits(*area, rooms@.take(i as int), back.room),
    {
        assert(rooms@.take(i + 1).drop_last() =~= rooms@.take(i as int));
        if let Some(room) = area.get_room(&rooms[i]) {
            assert(level_fits(room.level, delta));
            push_room(&mut room_redo, rooms[i], room_level(room.level + delta));
            push_room(&mut room_undo, rooms[i], room_level(room.level));
        }
    }
    assert(rooms@.take(rooms.len() as int) =~= rooms@);
    let mut redo: Vec<Mutation> = Vec::new();
    let mut undo: Vec<Mutation> = Vec::new();
    proof {
        lemma_room_edits_len(*area, rooms@, up.room, back.room);
        assert(mutation::mutations_view(redo@) =~= Seq::empty());
        assert(mutation::mutations_view(undo@) =~= Seq::empty());
    }
    if room_redo.len() > 0 {
        push_mutation(&mut redo, Mutation::UpsertRooms(area_id, room_redo));
        push_mutation(&mut undo, Mutation::UpsertRooms(area_id, room_undo));
    }
    let ghost redo_rooms = mutation::mutations_view(redo@);
    let ghost undo_rooms = mutation::mutations_view(undo@);
    proof {
        assert(redo_rooms =~= rooms_mutation(area_id, room_edits(*area, rooms@, up.room)));
        assert(undo_rooms =~= rooms_mutation(area_id, room_edits(*area, rooms@, back.room)));
    }
    let labels = selection.labels();
    proof {
        assert(labels@.take(0) =~= Seq::empty());
        assert(redo_rooms =~= redo_rooms + label_edits(area_id, *area, labels@.take(0), up.label));
        assert(undo_rooms =~= undo_rooms + label_edits(area_id, *area, labels@.take(0), back.label));
    }
    for i in 0..labels.len()
        invariant
            labels@ == cache::selected_labels(selection@),
            levels_fit(*area, selection@, delta),
            up == level_edit(delta as int),
            back == level_edit(0),
            mutation::mutations_view(redo@) == redo_rooms + label_edits(
                area_id,
                *area,
                labels@.take(i as int),
                up.label,
            ),
            mutation::mutations_view(undo@) == undo_rooms + label_edits(
                area_id,
                *area,
                labels@.take(i as int),
                back.label,
            ),
            no_slots(mutation::mutations_view(redo@)),
            no_slots(mutation::mutations_view(undo@)),
    {
        assert(labels@.take(i + 1).drop_last() =~= labels@.take(i as int));
        if let Some(label) = area.get_label(&labels[i]) {
            assert(level_fits(label.level, delta));
            let id = IdRef::Known(labels[i]);
            let redo_one = Mutation::UpdateLabel { area_id, id, updates: label_level(label.level + delta) };
            let undo_one = Mutation::UpdateLabel { area_id, id, updates: label_level(label.level) };
            proof {
                lemma_no_slots_push(mutation::mutations_view(redo@), redo_one@);
                lemma_no_slots_push(mutation::mutations_view(undo@), undo_one@);
            }
            push_mutation(&mut redo, redo_one);
            push_mutation(&mut undo, undo_one);
        }
    }
    assert(labels@.take(labels.len() as int) =~= labels@);
    let ghost redo_labels = mutation::mutations_view(redo@);
    let ghost undo_labels = mutation::mutations_view(undo@);
    let shapes = selection.shapes();
    proof {
        assert(shapes@.take(0) =~= Seq::empty());
        assert(redo_labels =~= redo_labels + shape_edits(area_id, *area, shapes@.take(0), up.shape));
        assert(undo_labels =~= undo_labels + shape_edits(area_id, *area, shapes@.take(0), back.shape));
    }
    for i in 0..shapes.len()
        invariant
            shapes@ == cache::selected_shapes(selection@),
            levels_fit(*area, selection@, delta),
            up == level_edit(delta as int),
            back == level_edit(0),
            mutation::mutations_view(redo@) == redo_labels + shape_edits(
                area_id,
                *area,
                shapes@.take(i as int),
                up.shape,
            ),
            mutation::mutations_view(undo@) == undo_labels + shape_edits(
                area_id,
                *area,
                shapes@.take(i as int),
                back.shape,
            ),
            no_slots(mutation::mutations_view(redo@)),
            no_slots(mutation::mutations_view(undo@)),
    {
        assert(shapes@.take(i + 1).drop_last() =~= shapes@.take(i as int));
        if let Some(shape) = area.get_shape(&shapes[i]) {
            assert(level_fits(shape.level, delta));
            let id = IdRef::Known(shapes[i]);
            let redo_one = Mutation::UpdateShape { area_id, id, updates: shape_level(shape.level + delta) };
            let undo_one = Mutation::UpdateShape { area_id, id, updates: shape_level(shape.level) };
            proof {
                lemma_no_slots_push(mutation::mutations_view(redo@), redo_one@);
                lemma_no_slots_push(mutation::mutations_view(undo@), undo_one@);
            }
            push_mutation(&mut redo, redo_one);
            push_mutation(&mut undo, undo_one);
        }
    }
    assert(shapes@.take(shapes.len() as int) =~= shapes@);
    if redo.len() == 0 {
        None
    } else {
        Some(slotless(redo, undo))
    }
}

/// Moves every selected entity by `translate` as one undo step. `None` when the selection holds nothing cached.
pub fn move_selection<F: Fn(Point) -> Point>(
    atlas: &AtlasCache,
    area_id: AreaId,
    selection: &Selection,
    translate: F,
) -> (command: Option<Command>)
    requires
        forall|p: Point| #[trigger] translate.requires((p,)),
    ensures
        forall|g: spec_fn(Point) -> Point| #[trigger]
            computes(translate, g) ==> opt_command(command) == selection_command(
                *atlas,
                area_id,
                selection@,
                moved_edit(g),
                placed_edit(),
            ),
        forall|g: spec_fn(Point) -> Point| #[trigger]
            computes(translate, g) ==> doing::moves(opt_command(command), *atlas, area_id, selection@, g),
        command matches Some(command) ==> command.wf(),
{
    proof {
        assert forall|g: spec_fn(Point) -> Point| #[trigger] computes(translate, g) implies doing::moves(
            selection_command(*atlas, area_id, selection@, moved_edit(g), placed_edit()),
            *atlas,
            area_id,
            selection@,
            g,
        ) by {
            doing::law_a_move_takes_the_selection_along(*atlas, area_id, selection@, g);
        }
    }
    let area = atlas.get_area(&area_id)?;
    let ghost back = placed_edit();
    let rooms = selection.rooms();
    let mut room_redo: Vec<(RoomNumber, RoomUpdates)> = Vec::new();
    let mut room_undo: Vec<(RoomNumber, RoomUpdates)> = Vec::new();
    proof {
        assert(rooms@.take(0) =~= Seq::empty());
        assert forall|g: spec_fn(Point) -> Point| #[trigger] computes(translate, g) implies mutation::rooms_view(
            room_redo@,
        ) == room_edits(*area, rooms@.take(0), moved_edit(g).room) by {
            assert(mutation::rooms_view(room_redo@) =~= room_edits(
                *area,
                rooms@.take(0),
                moved_edit(g).room,
            ));
        }
        assert(mutation::rooms_view(room_undo@) =~= room_edits(*area, rooms@.take(0), back.room));
    }
    for i in 0..rooms.len()
        invariant
            forall|p: Point| #[trigger] translate.requires((p,)),
            back == placed_edit(),
            forall|g: spec_fn(Point) -> Point| #[trigger]
                computes(translate, g) ==> mutation::rooms_view(room_redo@) == room_edits(
                    *area,
                    rooms@.take(i as int),
                    moved_edit(g).room,
                ),
            room_redo@.len() == room_undo@.len(),
            mutation::rooms_view(room_undo@) == room_edits(*area, rooms@.take(i as int), back.room),
    {
        assert(rooms@.take(i + 1).drop_last() =~= rooms@.take(i as int));
        if let Some(room) = area.get_room(&rooms[i]) {
            let to = translate(Point { x: room.x, y: room.y });
            push_room(&mut room_redo, rooms[i], room_at(to));
            push_room(&mut room_undo, rooms[i], room_at(Point { x: room.x, y: room.y }));
        }
    }
    assert(rooms@.take(rooms.len() as int) =~= rooms@);
    let mut redo: Vec<Mutation> = Vec::new();
    let mut undo: Vec<Mutation> = Vec::new();
    proof {
        assert(mutation::mutations_view(redo@) =~= Seq::empty());
        assert(mutation::mutations_view(undo@) =~= Seq::empty());
    }
    if room_redo.len() > 0 {
        push_mutation(&mut redo, Mutation::UpsertRooms(area_id, room_redo));
        push_mutation(&mut undo, Mutation::UpsertRooms(area_id, room_undo));
    }
    let ghost redo_rooms = mutation::mutations_view(redo@);
    let ghost undo_rooms = mutation::mutations_view(undo@);
    proof {
        assert forall|g: spec_fn(Point) -> Point| #[trigger] computes(translate, g) implies redo_rooms
            == rooms_mutation(area_id, room_edits(*area, rooms@, moved_edit(g).room)) by {
            assert(redo_rooms =~= rooms_mutation(
                area_id,
                room_edits(*area, rooms@, moved_edit(g).room),
            ));
        }
        assert(undo_rooms =~= rooms_mutation(area_id, room_edits(*area, rooms@, back.room)));
    }
    let labels = selection.labels();
    proof {
        assert(labels@.take(0) =~= Seq::empty());
        assert forall|g: spec_fn(Point) -> Point| #[trigger] computes(translate, g) implies redo_rooms
            == redo_rooms + label_edits(area_id, *area, labels@.take(0), moved_edit(g).label) by {
            assert(redo_rooms =~= redo_rooms + label_edits(
                area_id,
                *area,
                labels@.take(0),
                moved_edit(g).label,
            ));
        }
        assert(undo_rooms =~= undo_rooms + label_edits(area_id, *area, labels@.take(0), back.label));
    }
    for i in 0..labels.len()
        invariant
            forall|p: Point| #[trigger] translate.requires((p,)),
            back == placed_edit(),
            forall|g: spec_fn(Point) -> Point| #[trigger]
                computes(translate, g) ==> mutation::mutations_view(redo@) == redo_rooms + label_edits(
                    area_id,
                    *area,
                    labels@.take(i as int),
                    moved_edit(g).label,
                ),
            mutation::mutations_view(undo@) == undo_rooms + label_edits(
                area_id,
                *area,
                labels@.take(i as int),
                back.label,
            ),
            no_slots(mutation::mutations_view(redo@)),
            no_slots(mutation::mutations_view(undo@)),
    {
        assert(labels@.take(i + 1).drop_last() =~= labels@.take(i as int));
        if let Some(label) = area.get_label(&labels[i]) {
            let to = translate(Point { x: label.x, y: label.y });
            let id = IdRef::Known(labels[i]);
            let redo_one = Mutation::UpdateLabel { area_id, id, updates: label_at(to) };
            let undo_one = Mutation::UpdateLabel { area_id, id, updates: label_at(Point { x: label.x, y: label.y }) };
            proof {
                lemma_no_slots_push(mutation::mutations_view(redo@), redo_one@);
                lemma_no_slots_push(mutation::mutations_view(undo@), undo_one@);
            }
            push_mutation(&mut redo, redo_one);
            push_mutation(&mut undo, undo_one);
        }
    }
    assert(labels@.take(labels.len() as int) =~= labels@);
    let ghost redo_labels = mutation::mutations_view(redo@);
    let ghost undo_labels = mutation::mutations_view(undo@);
    let shapes = selection.shapes();
    proof {
        assert(shapes@.take(0) =~= Seq::empty());
        assert forall|g: spec_fn(Point) -> Point| #[trigger] computes(translate, g) implies redo_labels
            == redo_labels + shape_edits(area_id, *area, shapes@.take(0), moved_edit(g).shape) by {
            assert(redo_labels =~= redo_labels + shape_edits(
                area_id,
                *area,
                shapes@.take(0),
                moved_edit(g).shape,
            ));
        }
        assert(undo_labels =~= undo_labels + shape_edits(area_id, *area, shapes@.take(0), back.shape));
    }
    for i in 0..shapes.len()
        invariant
            forall|p: Point| #[trigger] translate.requires((p,)),
            back == placed_edit(),
            forall|g: spec_fn(Point) -> Point| #[trigger]
                computes(translate, g) ==> mutation::mutations_view(redo@) == redo_labels + shape_edits(
                    area_id,
                    *area,
                    shapes@.take(i as int),
                    moved_edit(g).shape,
                ),
            mutation::mutations_view(undo@) == undo_labels + shape_edits(
                area_id,
                *area,
                shapes@.take(i as int),
                back.shape,
            ),
            no_slots(mutation::mutations_view(redo@)),
            no_slots(mutation::mutations_view(undo@)),
    {
        assert(shapes@.take(i + 1).drop_last() =~= shapes@.take(i as int));
        if let Some(shape) = area.get_shape(&shapes[i]) {
            let to = translate(Point { x: shape.x, y: shape.y });
            let id = IdRef::Known(shapes[i]);
            let redo_one = Mutation::UpdateShape { area_id, id, updates: shape_at(to) };
            let undo_one = Mutation::UpdateShape { area_id, id, updates: shape_at(Point { x: shape.x, y: shape.y }) };
            proof {
                lemma_no_slots_push(mutation::mutations_view(redo@), redo_one@);
                lemma_no_slots_push(mutation::mutations_view(undo@), undo_one@);
            }
            push_mutation(&mut redo, redo_one);
            push_mutation(&mut undo, undo_one);
        }
    }
    assert(shapes@.take(shapes.len() as int) =~= shapes@);
    if redo.len() == 0 {
        None
    } else {
        Some(slotless(redo, undo))
    }
}

/// Two edits of the same rooms update the same number of rooms.
pub(crate) proof fn lemma_room_edits_len(
    area: AreaCache,
    rooms: Seq<RoomNumber>,
    f: spec_fn(RoomCache) -> RoomUpdates<Seq<char>>,
    g: spec_fn(RoomCache) -> RoomUpdates<Seq<char>>,
)
    ensures
        room_edits(area, rooms, f).len() == room_edits(area, rooms, g).len(),
    decreases rooms.len(),
{
    if rooms.len() > 0 {
        lemma_room_edits_len(area, rooms.drop_last(), f, g);
    }
}

// ===== Properties and tags =====

/// Restores a room property to what the room holds.
pub open spec fn room_property_undo(room: RoomCache, key: RoomKey, name: Seq<char>) -> MutationView {
    match cache::property_named(room.properties@, name) {
        Some(entry) => Mutation::SetRoomProperty(key, name, entry.value@),
        None => Mutation::DeleteRoomProperty(key, name),
    }
}

/// The command of [`set_room_property`].
pub open spec fn set_room_property_command(
    atlas: AtlasCache,
    key: RoomKey,
    name: Seq<char>,
    value: Seq<char>,
) -> Option<CommandView> {
    match atlas.area(key.area_id) {
        None => None,
        Some(area) => match area.room(key.room_number) {
            None => None,
            Some(room) => Some(
                commands::new_command(
                    seq![Mutation::SetRoomProperty(key, name, value)],
                    seq![room_property_undo(room, key, name)],
                ).coalescing(
                    CoalesceKey {
                        entity: EntityRef::Room(key),
                        field: FieldId::Property,
                        detail: Some(name),
                    },
                ),
            ),
        },
    }
}

/// Sets one room property; coalesces with consecutive edits to the same key on
/// the same room. `None` when the room is not cached.
pub fn set_room_property(
    atlas: &AtlasCache,
    room_key: RoomKey,
    name: String,
    value: String,
) -> (command: Option<Command>)
    ensures
        opt_command(command) == set_room_property_command(*atlas, room_key, name@, value@),
        doing::makes_room(
            opt_command(command),
            *atlas,
            room_key,
            ({
                let room = undoing::room_state(doing::cached_room(*atlas, room_key)->0);
                RoomState { properties: room.properties.insert(name@, value@), ..room }
            }),
        ),
        command matches Some(command) ==> command.wf(),
{
    proof {
        doing::law_a_set_property_of_a_room_is_held(*atlas, room_key, name@, value@);
    }
    let area = atlas.get_area(&room_key.area_id)?;
    let room = area.get_room(&room_key.room_number)?;
    let undo = match find_property(&room.properties, name.as_str()) {
        Some(entry) => Mutation::SetRoomProperty(room_key, name.clone(), entry.value.clone()),
        None => Mutation::DeleteRoomProperty(room_key, name.clone()),
    };
    let command = pair(Mutation::SetRoomProperty(room_key, name.clone(), value), undo);
    Some(
        command.coalescing(
            CoalesceKey::with_detail(EntityRef::Room(room_key), FieldId::Property, name),
        ),
    )
}

/// The command of [`delete_room_property`].
pub open spec fn delete_room_property_command(
    atlas: AtlasCache,
    key: RoomKey,
    name: Seq<char>,
) -> Option<CommandView> {
    match atlas.area(key.area_id) {
        None => None,
        Some(area) => match area.room(key.room_number) {
            None => None,
            Some(room) => match cache::property_named(room.properties@, name) {
                None => None,
                Some(entry) => Some(
                    commands::new_command(
                        seq![Mutation::DeleteRoomProperty(key, name)],
                        seq![Mutation::SetRoomProperty(key, name, entry.value@)],
                    ),
                ),
            },
        },
    }
}

/// Deletes one room property. `None` when the room does not have it.
pub fn delete_room_property(atlas: &AtlasCache, room_key: RoomKey, name: String) -> (command: Option<Command>)
    ensures
        opt_command(command) == delete_room_property_command(*atlas, room_key, name@),
        doing::drops_room_property(opt_command(command), *atlas, room_key, name@),
        command matches Some(command) ==> command.wf(),
{
    proof {
        doing::law_a_deleted_property_of_a_room_is_gone(*atlas, room_key, name@);
    }
    let area = atlas.get_area(&room_key.area_id)?;
    let room = area.get_room(&room_key.room_number)?;
    let entry = find_property(&room.properties, name.as_str())?;
    let value = entry.value.clone();
    Some(
        pair(
            Mutation::DeleteRoomProperty(room_key, name.clone()),
            Mutation::SetRoomProperty(room_key, name, value),
        ),
    )
}

/// The command of [`set_area_property`].
pub open spec fn set_area_property_command(
    atlas: AtlasCache,
    area_id: AreaId,
    name: Seq<char>,
    value: Seq<char>,
) -> Option<CommandView> {
    match atlas.area(area_id) {
        None => None,
        Some(area) => Some(
            commands::new_command(
                seq![Mutation::SetAreaProperty(area_id, name, value)],
                seq![
                    match cache::property_named(area.properties@, name) {
                        Some(entry) => Mutation::SetAreaProperty(area_id, name, entry.value@),
                        None => Mutation::DeleteAreaProperty(area_id, name),
                    },
                ],
            ).coalescing(
                CoalesceKey {
                    entity: EntityRef::Area(area_id),
                    field: FieldId::Property,
                    detail: Some(name),
                },
            ),
        ),
    }
}

/// Sets one area property; coalesces with consecutive edits to the same key.
/// `None` when the area is not cached.
pub fn set_area_property(
    atlas: &AtlasCache,
    area_id: AreaId,
    name: String,
    value: String,
) -> (command: Option<Command>)
    ensures
        opt_command(command) == set_area_property_command(*atlas, area_id, name@, value@),
        doing::sets_area_property(opt_command(command), *atlas, area_id, name@, value@),
        command matches Some(command) ==> command.wf(),
{
    proof {
        doing::law_properties_of_an_area_are_set_and_deleted(*atlas, area_id, name@, value@);
    }
    let area = atlas.get_area(&area_id)?;
    let undo = match find_property(&area.properties, name.as_str()) {
        Some(entry) => Mutation::SetAreaProperty(area_id, name.clone(), entry.value.clone()),
        None => Mutation::DeleteAreaProperty(area_id, name.clone()),
    };
    let command = pair(Mutation::SetAreaProperty(area_id, name.clone(), value), undo);
    Some(
        command.coalescing(
            CoalesceKey::with_detail(EntityRef::Area(area_id), FieldId::Property, name),
        ),
    )
}

/// The command of [`delete_area_property`].
pub open spec fn delete_area_property_command(
    atlas: AtlasCache,
    area_id: AreaId,
    name: Seq<char>,
) -> Option<CommandView> {
    match atlas.area(area_id) {
        None => None,
        Some(area) => match cache::property_named(area.properties@, name) {
            None => None,
            Some(entry) => Some(
                commands::new_command(
                    seq![Mutation::DeleteAreaProperty(area_id, name)],
                    seq![Mutation::SetAreaProperty(area_id, name, entry.value@)],
                ),
            ),
        },
    }
}

/// Deletes one area property. `None` when the area does not have it.
pub fn delete_area_property(atlas: &AtlasCache, area_id: AreaId, name: String) -> (command: Option<Command>)
    ensures
        opt_command(command) == delete_area_property_command(*atlas, area_id, name@),
        doing::drops_area_property(opt_command(command), *atlas, area_id, name@),
        command matches Some(command) ==> command.wf(),
{
    proof {
        doing::law_properties_of_an_area_are_set_and_deleted(*atlas, area_id, name@, name@);
    }
    let area = atlas.get_area(&area_id)?;
    let entry = find_property(&area.properties, name.as_str())?;
    let value = entry.value.clone();
    Some(
        pair(
            Mutation::DeleteAreaProperty(area_id, name.clone()),
            Mutation::SetAreaProperty(area_id, name, value),
        ),
    )
}

/// The command of [`add_room_tag`].
pub open spec fn add_room_tag_command(atlas: AtlasCache, key: RoomKey, tag: Seq<char>) -> Option<CommandView> {
    if tag.len() == 0 {
        None
    } else {
        match atlas.area(key.area_id) {
            None => None,
            Some(area) => match area.room(key.room_number) {
                None => None,
                Some(room) => if cache::holds_text(room.tags@, tag) {
                    None
                } else {
                    Some(
                        commands::new_command(
                            seq![Mutation::AddRoomTag(key, tag)],
                            seq![Mutation::RemoveRoomTag(key, tag)],
                        ),
                    )
                },
            },
        }
    }
}

/// Adds one normalized tag to a room. `None` (no undo entry) when the tag is
/// empty or the room already carries it, so an idempotent add is not recorded.
pub fn add_room_tag(atlas: &AtlasCache, room_key: RoomKey, tag: String) -> (command: Option<Command>)
    ensures
        opt_command(command) == add_room_tag_command(*atlas, room_key, tag@),
        doing::tags_room(opt_command(command), *atlas, room_key, tag@),
        command matches Some(command) ==> command.wf(),
{
    proof {
        doing::law_tags_are_added_and_removed(*atlas, room_key, tag@);
    }
    if tag.as_str().is_empty() {
        return None;
    }
    let area = atlas.get_area(&room_key.area_id)?;
    let room = area.get_room(&room_key.room_number)?;
    if list_holds(&room.tags, tag.as_str()) {
        return None;
    }
    Some(pair(Mutation::AddRoomTag(room_key, tag.clone()), Mutation::RemoveRoomTag(room_key, tag)))
}

/// The command of [`remove_room_tag`].
pub open spec fn remove_room_tag_command(
    atlas: AtlasCache,
    key: RoomKey,
    tag: Seq<char>,
) -> Option<CommandView> {
    match atlas.area(key.area_id) {
        None => None,
        Some(area) => match area.room(key.room_number) {
            None => None,
            Some(room) => if cache::holds_text(room.tags@, tag) {
                Some(
                    commands::new_command(
                        seq![Mutation::RemoveRoomTag(key, tag)],
                        seq![Mutation::AddRoomTag(key, tag)],
                    ),
                )
            } else {
                None
            },
        },
    }
}

/// Removes one normalized tag from a room. `None` when the room does not carry
/// it.
pub fn remove_room_tag(atlas: &AtlasCache, room_key: RoomKey, tag: String) -> (command: Option<Command>)
    ensures
        opt_command(command) == remove_room_tag_command(*atlas, room_key, tag@),
        doing::untags_room(opt_command(command), *atlas, room_key, tag@),
        command matches Some(command) ==> command.wf(),
{
    proof {
        doing::law_tags_are_added_and_removed(*atlas, room_key, tag@);
    }
    let area = atlas.get_area(&room_key.area_id)?;
    let room = area.get_room(&room_key.room_number)?;
    if !list_holds(&room.tags, tag.as_str()) {
        return None;
    }
    Some(pair(Mutation::RemoveRoomTag(room_key, tag.clone()), Mutation::AddRoomTag(room_key, tag)))
}

// ===== Labels and shapes =====

/// The inverse of a label edit: the label's values of the fields it touches.
pub open spec fn label_inverse(
    label: LabelCache,
    updates: LabelUpdates<Seq<char>>,
) -> LabelUpdates<Seq<char>> {
    LabelUpdates {
        is_secret: None,
        level: prior(updates.level, label.level),
        x: prior(updates.x, label.x),
        y: prior(updates.y, label.y),
        width: prior(updates.width, label.width),
        height: prior(updates.height, label.height),
        horizontal_alignment: prior(updates.horizontal_alignment, label.horizontal_alignment),
        vertical_alignment: prior(updates.vertical_alignment, label.vertical_alignment),
        text: prior(updates.text, label.text@),
        color: prior(updates.color, label.color@),
        background_color: prior(updates.background_color, label.background_color@),
        font_size: prior(updates.font_size, label.font_size),
        font_weight: prior(updates.font_weight, label.font_weight),
    }
}

/// The command of [`edit_label_field`].
pub open spec fn label_field_command(
    atlas: AtlasCache,
    area_id: AreaId,
    label_id: LabelId,
    field: FieldId,
    updates: LabelUpdates<Seq<char>>,
) -> Option<CommandView> {
    match atlas.area(area_id) {
        None => None,
        Some(area) => match area.label(label_id) {
            None => None,
            Some(label) => Some(
                commands::new_command(
                    seq![Mutation::UpdateLabel { area_id, id: IdRef::Known(label_id), updates }],
                    seq![
                        Mutation::UpdateLabel {
                            area_id,
                            id: IdRef::Known(label_id),
                            updates: label_inverse(label, updates),
                        },
                    ],
                ).coalescing(
                    CoalesceKey { entity: EntityRef::Label(area_id, label_id), field, detail: None },
                ),
            ),
        },
    }
}

/// Edits one label field; coalesces with consecutive edits to the same field of
/// the same label. `None` when the label is not cached.
pub fn edit_label_field(
    atlas: &AtlasCache,
    area_id: AreaId,
    label_id: LabelId,
    field: FieldId,
    updates: LabelUpdates,
) -> (command: Option<Command>)
    ensures
        opt_command(command) == label_field_command(*atlas, area_id, label_id, field, updates@),
        doing::makes_label(
            opt_command(command),
            *atlas,
            area_id,
            label_id,
            undoing::label_updated(doing::cached_label(*atlas, area_id, label_id)->0@, updates@),
        ),
        command matches Some(command) ==> command.wf(),
{
    proof {
        doing::law_an_edit_gives_a_label_its_values(*atlas, area_id, label_id, field, updates@);
    }
    let area = atlas.get_area(&area_id)?;
    let label = area.get_label(&label_id)?;
    let inverse: LabelUpdates = LabelUpdates {
        is_secret: None,
        level: prior_of(&updates.level, label.level),
        x: prior_of(&updates.x, label.x),
        y: prior_of(&updates.y, label.y),
        width: prior_of(&updates.width, label.width),
        height: prior_of(&updates.height, label.height),
        horizontal_alignment: prior_of(&updates.horizontal_alignment, label.horizontal_alignment),
        vertical_alignment: prior_of(&updates.vertical_alignment, label.vertical_alignment),
        text: prior_of(&updates.text, label.text.clone()),
        color: prior_of(&updates.color, label.color.clone()),
        background_color: prior_of(&updates.background_color, label.background_color.clone()),
        font_size: prior_of(&updates.font_size, label.font_size),
        font_weight: prior_of(&updates.font_weight, label.font_weight),
    };
    assert(inverse@ == label_inverse(*label, updates@));
    let id = IdRef::Known(label_id);
    let command = pair(
        Mutation::UpdateLabel { area_id, id, updates },
        Mutation::UpdateLabel { area_id, id, updates: inverse },
    );
    Some(command.coalescing(CoalesceKey::new(EntityRef::Label(area_id, label_id), field)))
}

/// The inverse of a shape edit: the shape's values of the fields it touches. A
/// color the shape does not have is restored as the empty color.
pub open spec fn shape_inverse(
    shape: ShapeCache,
    updates: ShapeUpdates<Seq<char>>,
) -> ShapeUpdates<Seq<char>> {
    ShapeUpdates {
        is_secret: None,
        level: prior(updates.level, shape.level),
        x: prior(updates.x, shape.x),
        y: prior(updates.y, shape.y),
        width: prior(updates.width, shape.width),
        height: prior(updates.height, shape.height),
        background_color: prior(
            updates.background_color,
            text::or_empty(text::opt_text(shape.background_color)),
        ),
        stroke_color: prior(
            updates.stroke_color,
            text::or_empty(text::opt_text(shape.stroke_color)),
        ),
        shape_type: prior(updates.shape_type, shape.shape_type),
        border_radius: prior(updates.border_radius, shape.border_radius),
        stroke_width: prior(updates.stroke_width, shape.stroke_width),
    }
}

/// The command of [`edit_shape_field`].
pub open spec fn shape_field_command(
    atlas: AtlasCache,
    area_id: AreaId,
    shape_id: ShapeId,
    field: FieldId,
    updates: ShapeUpdates<Seq<char>>,
) -> Option<CommandView> {
    match atlas.area(area_id) {
        None => None,
        Some(area) => match area.shape(shape_id) {
            None => None,
            Some(shape) => Some(
                commands::new_command(
                    seq![Mutation::UpdateShape { area_id, id: IdRef::Known(shape_id), updates }],
                    seq![
                        Mutation::UpdateShape {
                            area_id,
                            id: IdRef::Known(shape_id),
                            updates: shape_inverse(shape, updates),
                        },
                    ],
                ).coalescing(
                    CoalesceKey { entity: EntityRef::Shape(area_id, shape_id), field, detail: None },
                ),
            ),
        },
    }
}

/// Edits one shape field; coalesces with consecutive edits to the same field of
/// the same shape. `None` when the shape is not cached.
pub fn edit_shape_field(
    atlas: &AtlasCache,
    area_id: AreaId,
    shape_id: ShapeId,
    field: FieldId,
    updates: ShapeUpdates,
) -> (command: Option<Command>)
    ensures
        opt_command(command) == shape_field_command(*atlas, area_id, shape_id, field, updates@),
        doing::makes_shape(
            opt_command(command),
            *atlas,
            area_id,
            shape_id,
            undoing::shape_updated(
                undoing::shape_state(doing::cached_shape(*atlas, area_id, shape_id)->0),
                updates@,
            ),
        ),
        command matches Some(command) ==> command.wf(),
{
    proof {
        doing::law_an_edit_gives_a_shape_its_values(*atlas, area_id, shape_id, field, updates@);
    }
    let area = atlas.get_area(&area_id)?;
    let shape = area.get_shape(&shape_id)?;
    let inverse: ShapeUpdates = ShapeUpdates {
        is_secret: None,
        level: prior_of(&updates.level, shape.level),
        x: prior_of(&updates.x, shape.x),
        y: prior_of(&updates.y, shape.y),
        width: prior_of(&updates.width, shape.width),
        height: prior_of(&updates.height, shape.height),
        background_color: prior_of(
            &updates.background_color,
            clone_or_empty(&shape.background_color),
        ),
        stroke_color: prior_of(&updates.stroke_color, clone_or_empty(&shape.stroke_color)),
        shape_type: prior_of(&updates.shape_type, shape.shape_type),
        border_radius: prior_of(&updates.border_radius, shape.border_radius),
        stroke_width: prior_of(&updates.stroke_width, shape.stroke_width),
    };
    assert(inverse@ == shape_inverse(*shape, updates@));
    let id = IdRef::Known(shape_id);
    let command = pair(
        Mutation::UpdateShape { area_id, id, updates },
        Mutation::UpdateShape { area_id, id, updates: inverse },
    );
    Some(command.coalescing(CoalesceKey::new(EntityRef::Shape(area_id, shape_id), field)))
}

/// A rectangle on the map plane.
#[derive(Clone, Copy, Debug, PartialEq, Eq, Structural)]
pub struct Rect {
    pub x: Scalar,
    pub y: Scalar,
    pub width: Scalar,
    pub height: Scalar,
}

/// A label update that sets the bounds.
pub open spec fn label_bounds(rect: Rect) -> LabelUpdates<Seq<char>> {
    LabelUpdates {
        x: Some(rect.x),
        y: Some(rect.y),
        width: Some(rect.width),
        height: Some(rect.height),
        ..LabelUpdates::none()
    }
}

/// A shape update that sets the bounds.
pub open spec fn shape_bounds(rect: Rect) -> ShapeUpdates<Seq<char>> {
    ShapeUpdates {
        x: Some(rect.x),
        y: Some(rect.y),
        width: Some(rect.width),
        height: Some(rect.height),
        ..ShapeUpdates::none()
    }
}

/// A label update that sets the bounds.
fn set_label_bounds(rect: Rect) -> (updates: LabelUpdates)
    ensures
        updates@ == label_bounds(rect),
{
    let mut updates: LabelUpdates = LabelUpdates::default();
    updates.x = Some(rect.x);
    updates.y = Some(rect.y);
    updates.width = Some(rect.width);
    updates.height = Some(rect.height);
    updates
}

/// A shape update that sets the bounds.
fn set_shape_bounds(rect: Rect) -> (updates: ShapeUpdates)
    ensures
        updates@ == shape_bounds(rect),
{
    let mut updates: ShapeUpdates = ShapeUpdates::default();
    updates.x = Some(rect.x);
    updates.y = Some(rect.y);
    updates.width = Some(rect.width);
    updates.height = Some(rect.height);
    updates
}

/// The command of [`resize_entity`].
pub open spec fn resize_command(
    atlas: AtlasCache,
    area_id: AreaId,
    entity: EntityId,
    rect: Rect,
) -> Option<CommandView> {
    match atlas.area(area_id) {
        None => None,
        Some(area) => match entity {
            EntityId::Label(label_id) => match area.label(label_id) {
                None => None,
                Some(label) => {
                    let id = IdRef::Known(label_id);
                    let held = Rect {
                        x: label.x,
                        y: label.y,
                        width: label.width,
                        height: label.height,
                    };
                    Some(
                        commands::new_command(
                            seq![Mutation::UpdateLabel { area_id, id, updates: label_bounds(rect) }],
                            seq![Mutation::UpdateLabel { area_id, id, updates: label_bounds(held) }],
                        ),
                    )
                },
            },
            EntityId::Shape(shape_id) => match area.shape(shape_id) {
                None => None,
                Some(shape) => {
                    let id = IdRef::Known(shape_id);
                    let held = Rect {
                        x: shape.x,
                        y: shape.y,
                        width: shape.width,
                        height: shape.height,
                    };
                    Some(
                        commands::new_command(
                            seq![Mutation::UpdateShape { area_id, id, updates: shape_bounds(rect) }],
                            seq![Mutation::UpdateShape { area_id, id, updates: shape_bounds(held) }],
                        ),
                    )
                },
            },
            EntityId::Room(_) | EntityId::Connection(_) => None,
        },
    }
}

/// Sets a label's or shape's bounds (one undo step per resize drag). `None` for
/// rooms and connections, and for an entity that is not cached.
pub fn resize_entity(
    atlas: &AtlasCache,
    area_id: AreaId,
    entity: EntityId,
    rect: Rect,
) -> (command: Option<Command>)
    ensures
        opt_command(command) == resize_command(*atlas, area_id, entity, rect),
        doing::resizes(opt_command(command), *atlas, area_id, entity, rect),
        command matches Some(command) ==> command.wf(),
{
    proof {
        doing::law_a_resized_entity_has_its_bounds(*atlas, area_id, entity, rect);
    }
    let area = atlas.get_area(&area_id)?;
    match entity {
        EntityId::Label(label_id) => {
            let label = area.get_label(&label_id)?;
            let id = IdRef::Known(label_id);
            let held = Rect { x: label.x, y: label.y, width: label.width, height: label.height };
            Some(
                pair(
                    Mutation::UpdateLabel { area_id, id, updates: set_label_bounds(rect) },
                    Mutation::UpdateLabel { area_id, id, updates: set_label_bounds(held) },
                ),
            )
        },
        EntityId::Shape(shape_id) => {
            let shape = area.get_shape(&shape_id)?;
            let id = IdRef::Known(shape_id);
            let held = Rect { x: shape.x, y: shape.y, width: shape.width, height: shape.height };
            Some(
                pair(
                    Mutation::UpdateShape { area_id, id, updates: set_shape_bounds(rect) },
                    Mutation::UpdateShape { area_id, id, updates: set_shape_bounds(held) },
                ),
            )
        },
        EntityId::Room(_) | EntityId::Connection(_) => None,
    }
}

} // verus!
