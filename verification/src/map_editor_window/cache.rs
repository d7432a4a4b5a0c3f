//! Finding cached entities, and the selection.

use vstd::prelude::*;

use super::model::{
    AreaCache, AreaId, AtlasCache, Connection, ConnectionId, EntityId, ExitCache, ExitId, LabelCache,
    LabelId, PropertyEntry, RoomCache, RoomConnection, RoomNumber, ShapeCache, ShapeId,
};
use crate::list;
use crate::text::same_text;

verus! {

impl AtlasCache {
    /// The cached area with the given id.
    pub open spec fn area(self, id: AreaId) -> Option<AreaCache> {
        list::first(self.areas@, |item: AreaCache| item.id == id)
    }

    /// The cached area with the given id.
    pub fn get_area(&self, id: &AreaId) -> (found: Option<&AreaCache>)
        ensures
            found is Some <==> self.area(*id) is Some,
            found matches Some(item) ==> self.area(*id) == Some(*item) && self.areas@.contains(*item),
    {
        let ghost matching = |item: AreaCache| item.id == *id;
        for i in 0..self.areas.len()
            invariant
                matching == (|item: AreaCache| item.id == *id),
                forall|j: int| 0 <= j < i ==> !matching(#[trigger] self.areas@[j]),
        {
            if self.areas[i].id == *id {
                proof {
                    list::lemma_first(self.areas@, matching, i as int);
                }
                return Some(&self.areas[i]);
            }
        }
        assert(!exists|i: int| list::is_first(self.areas@, matching, i));
        None
    }

}

impl AreaCache {
    /// The room with the given number.
    pub open spec fn room(self, number: RoomNumber) -> Option<RoomCache> {
        list::first(self.rooms@, |item: RoomCache| item.room_number == number)
    }

    /// The room with the given number.
    pub fn get_room(&self, number: &RoomNumber) -> (found: Option<&RoomCache>)
        ensures
            found is Some <==> self.room(*number) is Some,
            found matches Some(item) ==> self.room(*number) == Some(*item) && self.rooms@.contains(*item),
    {
        let ghost matching = |item: RoomCache| item.room_number == *number;
        for i in 0..self.rooms.len()
            invariant
                matching == (|item: RoomCache| item.room_number == *number),
                forall|j: int| 0 <= j < i ==> !matching(#[trigger] self.rooms@[j]),
        {
            if self.rooms[i].room_number == *number {
                proof {
                    list::lemma_first(self.rooms@, matching, i as int);
                }
                return Some(&self.rooms[i]);
            }
        }
        assert(!exists|i: int| list::is_first(self.rooms@, matching, i));
        None
    }

    /// The connection with the given id.
    pub open spec fn connection(self, id: ConnectionId) -> Option<Connection> {
        list::first(self.connections@, |item: Connection| item.id == id)
    }

    /// The connection with the given id.
    pub fn get_connection(&self, id: &ConnectionId) -> (found: Option<&Connection>)
        ensures
            found is Some <==> self.connection(*id) is Some,
            found matches Some(item) ==> self.connection(*id) == Some(*item) && self.connections@.contains(*item),
    {
        let ghost matching = |item: Connection| item.id == *id;
        for i in 0..self.connections.len()
            invariant
                matching == (|item: Connection| item.id == *id),
                forall|j: int| 0 <= j < i ==> !matching(#[trigger] self.connections@[j]),
        {
            if self.connections[i].id == *id {
                proof {
                    list::lemma_first(self.connections@, matching, i as int);
                }
                return Some(&self.connections[i]);
            }
        }
        assert(!exists|i: int| list::is_first(self.connections@, matching, i));
        None
    }

    /// The label with the given id.
    pub open spec fn label(self, id: LabelId) -> Option<LabelCache> {
        list::first(self.labels@, |item: LabelCache| item.id == id)
    }

    /// The label with the given id.
    pub fn get_label(&self, id: &LabelId) -> (found: Option<&LabelCache>)
        ensures
            found is Some <==> self.label(*id) is Some,
            found matches Some(item) ==> self.label(*id) == Some(*item) && self.labels@.contains(*item),
    {
        let ghost matching = |item: LabelCache| item.id == *id;
        for i in 0..self.labels.len()
            invariant
                matching == (|item: LabelCache| item.id == *id),
                forall|j: int| 0 <= j < i ==> !matching(#[trigger] self.labels@[j]),
        {
            if self.labels[i].id == *id {
                proof {
                    list::lemma_first(self.labels@, matching, i as int);
                }
                return Some(&self.labels[i]);
            }
        }
        assert(!exists|i: int| list::is_first(self.labels@, matching, i));
        None
    }

    /// The shape with the given id.
    pub open spec fn shape(self, id: ShapeId) -> Option<ShapeCache> {
        list::first(self.shapes@, |item: ShapeCache| item.id == id)
    }

    /// The shape with the given id.
    pub fn get_shape(&self, id: &ShapeId) -> (found: Option<&ShapeCache>)
        ensures
            found is Some <==> self.shape(*id) is Some,
            found matches Some(item) ==> self.shape(*id) == Some(*item) && self.shapes@.contains(*item),
    {
        let ghost matching = |item: ShapeCache| item.id == *id;
        for i in 0..self.shapes.len()
            invariant
                matching == (|item: ShapeCache| item.id == *id),
                forall|j: int| 0 <= j < i ==> !matching(#[trigger] self.shapes@[j]),
        {
            if self.shapes[i].id == *id {
                proof {
                    list::lemma_first(self.shapes@, matching, i as int);
                }
                return Some(&self.shapes[i]);
            }
        }
        assert(!exists|i: int| list::is_first(self.shapes@, matching, i));
        None
    }

    /// How the connection with the given id is drawn.
    pub open spec fn drawn(self, id: ConnectionId) -> Option<RoomConnection> {
        list::first(self.room_connections@, |item: RoomConnection| item.connection_id == id)
    }

    /// How the connection with the given id is drawn.
    pub fn get_drawn(&self, id: &ConnectionId) -> (found: Option<&RoomConnection>)
        ensures
            found is Some <==> self.drawn(*id) is Some,
            found matches Some(item) ==> self.drawn(*id) == Some(*item) && self.room_connections@.contains(*item),
    {
        let ghost matching = |item: RoomConnection| item.connection_id == *id;
        for i in 0..self.room_connections.len()
            invariant
                matching == (|item: RoomConnection| item.connection_id == *id),
                forall|j: int| 0 <= j < i ==> !matching(#[trigger] self.room_connections@[j]),
        {
            if self.room_connections[i].connection_id == *id {
                proof {
                    list::lemma_first(self.room_connections@, matching, i as int);
                }
                return Some(&self.room_connections[i]);
            }
        }
        assert(!exists|i: int| list::is_first(self.room_connections@, matching, i));
        None
    }

}

impl RoomCache {
    /// The exit of this room with the given id.
    pub open spec fn exit(self, id: ExitId) -> Option<ExitCache> {
        list::first(self.exits@, |item: ExitCache| item.id == id)
    }

    /// The exit of this room with the given id.
    pub fn get_exit(&self, id: &ExitId) -> (found: Option<&ExitCache>)
        ensures
            found is Some <==> self.exit(*id) is Some,
            found matches Some(item) ==> self.exit(*id) == Some(*item) && self.exits@.contains(*item),
    {
        let ghost matching = |item: ExitCache| item.id == *id;
        for i in 0..self.exits.len()
            invariant
                matching == (|item: ExitCache| item.id == *id),
                forall|j: int| 0 <= j < i ==> !matching(#[trigger] self.exits@[j]),
        {
            if self.exits[i].id == *id {
                proof {
                    list::lemma_first(self.exits@, matching, i as int);
                }
                return Some(&self.exits[i]);
            }
        }
        assert(!exists|i: int| list::is_first(self.exits@, matching, i));
        None
    }

}

/// The entry named `name` in a list of properties.
pub open spec fn property_named(entries: Seq<PropertyEntry>, name: Seq<char>) -> Option<PropertyEntry> {
    list::first(entries, |entry: PropertyEntry| entry.name@ == name)
}

/// The entry named `name` in a list of properties.
pub fn find_property<'a>(entries: &'a Vec<PropertyEntry>, name: &str) -> (found: Option<&'a PropertyEntry>)
    ensures
        found is Some <==> property_named(entries@, name@) is Some,
        found matches Some(entry) ==> property_named(entries@, name@) == Some(*entry),
{
    let ghost matching = |entry: PropertyEntry| entry.name@ == name@;
    for i in 0..entries.len()
        invariant
            matching == (|entry: PropertyEntry| entry.name@ == name@),
            forall|j: int| 0 <= j < i ==> !matching(#[trigger] entries@[j]),
    {
        if same_text(entries[i].name.as_str(), name) {
            proof {
                list::lemma_first(entries@, matching, i as int);
            }
            return Some(&entries[i]);
        }
    }
    assert(!exists|i: int| list::is_first(entries@, matching, i));
    None
}

/// Whether a list of texts holds `text`.
pub open spec fn holds_text(list: Seq<String>, text: Seq<char>) -> bool {
    exists|i: int| 0 <= i < list.len() && (#[trigger] list[i])@ == text
}

/// Whether a list of texts holds `text`.
pub fn list_holds(list: &Vec<String>, text: &str) -> (held: bool)
    ensures
        held == holds_text(list@, text@),
{
    for i in 0..list.len()
        invariant
            forall|j: int| 0 <= j < i ==> (#[trigger] list@[j])@ != text@,
    {
        if same_text(list[i].as_str(), text) {
            return true;
        }
    }
    false
}

/// Selected entities of the edited area, each at most once.
pub struct Selection {
    pub entities: Vec<EntityId>,
}

/// The selected rooms, in selection order.
pub open spec fn selected_rooms(entities: Seq<EntityId>) -> Seq<RoomNumber> {
    list::collect(
        entities,
        |entity: EntityId| match entity {
            EntityId::Room(number) => seq![number],
            _ => Seq::empty(),
        },
    )
}

/// The selected connections, in selection order.
pub open spec fn selected_connections(entities: Seq<EntityId>) -> Seq<ConnectionId> {
    list::collect(
        entities,
        |entity: EntityId| match entity {
            EntityId::Connection(id) => seq![id],
            _ => Seq::empty(),
        },
    )
}

/// The selected labels, in selection order.
pub open spec fn selected_labels(entities: Seq<EntityId>) -> Seq<LabelId> {
    list::collect(
        entities,
        |entity: EntityId| match entity {
            EntityId::Label(id) => seq![id],
            _ => Seq::empty(),
        },
    )
}

/// The selected shapes, in selection order.
pub open spec fn selected_shapes(entities: Seq<EntityId>) -> Seq<ShapeId> {
    list::collect(
        entities,
        |entity: EntityId| match entity {
            EntityId::Shape(id) => seq![id],
            _ => Seq::empty(),
        },
    )
}

/// The selected rooms, connections, labels and shapes are those of the selection.
pub proof fn law_kinds_hold_what_is_selected(
    entities: Seq<EntityId>,
    room: RoomNumber,
    connection: ConnectionId,
    label: LabelId,
    shape: ShapeId,
)
    ensures
        selected_rooms(entities).contains(room) <==> entities.contains(EntityId::Room(room)),
        selected_connections(entities).contains(connection) <==> entities.contains(
            EntityId::Connection(connection),
        ),
        selected_labels(entities).contains(label) <==> entities.contains(EntityId::Label(label)),
        selected_shapes(entities).contains(shape) <==> entities.contains(EntityId::Shape(shape)),
{
    let of_rooms = |entity: EntityId|
        match entity {
            EntityId::Room(number) => seq![number],
            _ => Seq::empty(),
        };
    let of_connections = |entity: EntityId|
        match entity {
            EntityId::Connection(id) => seq![id],
            _ => Seq::empty(),
        };
    let of_labels = |entity: EntityId|
        match entity {
            EntityId::Label(id) => seq![id],
            _ => Seq::empty(),
        };
    let of_shapes = |entity: EntityId|
        match entity {
            EntityId::Shape(id) => seq![id],
            _ => Seq::empty(),
        };
    list::lemma_collect_one(entities, of_rooms, EntityId::Room(room), room);
    list::lemma_collect_one(entities, of_connections, EntityId::Connection(connection), connection);
    list::lemma_collect_one(entities, of_labels, EntityId::Label(label), label);
    list::lemma_collect_one(entities, of_shapes, EntityId::Shape(shape), shape);
}

impl View for Selection {
    type V = Seq<EntityId>;

    open spec fn view(&self) -> Seq<EntityId> {
        self.entities@
    }
}

impl Selection {
    /// A selection holds no entity twice.
    pub open spec fn wf(self) -> bool {
        self@.no_duplicates()
    }

    /// Nothing selected.
    pub fn new() -> (selection: Self)
        ensures
            selection.wf(),
            selection@ == Seq::<EntityId>::empty(),
    {
        Selection { entities: Vec::new() }
    }

    /// Whether `entity` is selected.
    pub fn contains(&self, entity: EntityId) -> (held: bool)
        ensures
            held == self@.contains(entity),
    {
        for i in 0..self.entities.len()
            invariant
                forall|j: int| 0 <= j < i ==> self.entities@[j] != entity,
        {
            if self.entities[i] == entity {
                assert(self@[i as int] == entity);
                return true;
            }
        }
        false
    }

    /// Adds `entity` to the selection, unless it is there already.
    pub fn insert(&mut self, entity: EntityId)
        requires
            old(self).wf(),
        ensures
            final(self).wf(),
            final(self)@ == if old(self)@.contains(entity) {
                old(self)@
            } else {
                old(self)@.push(entity)
            },
    {
        if !self.contains(entity) {
            self.entities.push(entity);
        }
    }

    pub fn is_empty(&self) -> (empty: bool)
        ensures
            empty == (self@.len() == 0),
    {
        self.entities.len() == 0
    }

    pub fn len(&self) -> (len: usize)
        ensures
            len == self@.len(),
    {
        self.entities.len()
    }

    /// The selected entity, when exactly one is selected.
    pub fn single(&self) -> (entity: Option<EntityId>)
        ensures
            entity == single_entity(self@),
    {
        if self.entities.len() == 1 {
            Some(self.entities[0])
        } else {
            None
        }
    }

    /// The selected rooms.
    pub fn rooms(&self) -> (found: Vec<RoomNumber>)
        ensures
            found@ == selected_rooms(self@),
    {
        let mut found: Vec<RoomNumber> = Vec::new();
        let ghost piece: spec_fn(EntityId) -> Seq<RoomNumber> = |entity: EntityId| match entity {
            EntityId::Room(number) => seq![number],
            _ => Seq::empty(),
        };
        assert(self@.take(0) =~= Seq::empty());
        for i in 0..self.entities.len()
            invariant
                found@ == list::collect(self@.take(i as int), piece),
                piece == (|entity: EntityId| match entity {
            EntityId::Room(number) => seq![number],
            _ => Seq::empty(),
        }),
        {
            proof {
                list::lemma_collect_step(self@, piece, i as int);
            }
            match self.entities[i] {
                EntityId::Room(number) => found.push(number),
                _ => {},
            }
        }
        assert(self@.take(self@.len() as int) =~= self@);
        found
    }

    /// The selected connections.
    pub fn connections(&self) -> (found: Vec<ConnectionId>)
        ensures
            found@ == selected_connections(self@),
    {
        let mut found: Vec<ConnectionId> = Vec::new();
        let ghost piece: spec_fn(EntityId) -> Seq<ConnectionId> = |entity: EntityId| match entity {
            EntityId::Connection(id) => seq![id],
            _ => Seq::empty(),
        };
        assert(self@.take(0) =~= Seq::empty());
        for i in 0..self.entities.len()
            invariant
                found@ == list::collect(self@.take(i as int), piece),
                piece == (|entity: EntityId| match entity {
            EntityId::Connection(id) => seq![id],
            _ => Seq::empty(),
        }),
        {
            proof {
                list::lemma_collect_step(self@, piece, i as int);
            }
            match self.entities[i] {
                EntityId::Connection(id) => found.push(id),
                _ => {},
            }
        }
        assert(self@.take(self@.len() as int) =~= self@);
        found
    }

    /// The selected labels.
    pub fn labels(&self) -> (found: Vec<LabelId>)
        ensures
            found@ == selected_labels(self@),
    {
        let mut found: Vec<LabelId> = Vec::new();
        let ghost piece: spec_fn(EntityId) -> Seq<LabelId> = |entity: EntityId| match entity {
            EntityId::Label(id) => seq![id],
            _ => Seq::empty(),
        };
        assert(self@.take(0) =~= Seq::empty());
        for i in 0..self.entities.len()
            invariant
                found@ == list::collect(self@.take(i as int), piece),
                piece == (|entity: EntityId| match entity {
            EntityId::Label(id) => seq![id],
            _ => Seq::empty(),
        }),
        {
            proof {
                list::lemma_collect_step(self@, piece, i as int);
            }
            match self.entities[i] {
                EntityId::Label(id) => found.push(id),
                _ => {},
            }
        }
        assert(self@.take(self@.len() as int) =~= self@);
        found
    }

    /// The selected shapes.
    pub fn shapes(&self) -> (found: Vec<ShapeId>)
        ensures
            found@ == selected_shapes(self@),
    {
        let mut found: Vec<ShapeId> = Vec::new();
        let ghost piece: spec_fn(EntityId) -> Seq<ShapeId> = |entity: EntityId| match entity {
            EntityId::Shape(id) => seq![id],
            _ => Seq::empty(),
        };
        assert(self@.take(0) =~= Seq::empty());
        for i in 0..self.entities.len()
            invariant
                found@ == list::collect(self@.take(i as int), piece),
                piece == (|entity: EntityId| match entity {
            EntityId::Shape(id) => seq![id],
            _ => Seq::empty(),
        }),
        {
            proof {
                list::lemma_collect_step(self@, piece, i as int);
            }
            match self.entities[i] {
                EntityId::Shape(id) => found.push(id),
                _ => {},
            }
        }
        assert(self@.take(self@.len() as int) =~= self@);
        found
    }
}

/// The selected entity, when exactly one is selected.
pub open spec fn single_entity(entities: Seq<EntityId>) -> Option<EntityId> {
    if entities.len() == 1 {
        Some(entities[0])
    } else {
        None
    }
}

} // verus!
