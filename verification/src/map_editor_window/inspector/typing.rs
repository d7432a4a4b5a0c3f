//! What typing into the inspector does to the map.
//!
//! Each law follows a message to the command that it pushes, and the command to what it
//! leaves of the selected room, label or shape: the field that was typed into holds what
//! was typed, and everything else is as it was.

use vstd::prelude::*;

use super::super::commands::{CommandView, FieldId};
use super::super::doing;
use super::super::model::{
    AreaId, EntityId, LabelCache, LabelId, LabelUpdates, RoomKey, RoomNumber, RoomUpdates, ShapeId, ShapeUpdates,
};
use super::super::undoing::{self, RoomState, ShapeState};
use super::action::{self, Action, ActionView, Scene, Stale};
use super::drawings::{self, LabelMessage, ShapeMessage};
use super::rooms::{self, BulkMessage, PropertyMessage, RoomMessage, TagMessage};
use super::state::{self, BoundsField, LabelBuffers, PropertyRow, ShapeBuffers, State, StateView};
use crate::list;
use crate::text;

verus! {

/// Whether one entity of an area is all that is selected.
pub open spec fn is_only(scene: Scene, area_id: AreaId, entity: EntityId) -> bool {
    scene.area_id == Some(area_id) && scene.selection@ == seq![entity]
}

/// Whether one room of an area is all that is selected.
pub open spec fn is_one_room(scene: Scene) -> bool {
    scene.area_id is Some && scene.selection@.len() == 1 && scene.selection@[0] is Room
}

/// Whether one label of an area is all that is selected.
pub open spec fn is_one_label(scene: Scene) -> bool {
    scene.area_id is Some && scene.selection@.len() == 1 && scene.selection@[0] is Label
}

/// Whether one shape of an area is all that is selected.
pub open spec fn is_one_shape(scene: Scene) -> bool {
    scene.area_id is Some && scene.selection@.len() == 1 && scene.selection@[0] is Shape
}

// ===== Fields of a room =====

/// Whether what was typed into a field of a room is a value of the field.
pub open spec fn fits_room(message: RoomMessage<Seq<char>>) -> bool {
    match message {
        RoomMessage::Title(_) => true,
        RoomMessage::Description { is_edit, .. } => is_edit,
        RoomMessage::Level(text) => text::read_number(text, i32::MIN as int, i32::MAX as int) is Some,
        RoomMessage::X(_, value) => value is Some,
        RoomMessage::Y(_, value) => value is Some,
        RoomMessage::Color(text, valid) => text.len() == 0 || valid,
    }
}

/// A room that holds what was typed in the field it was typed into.
pub open spec fn room_with(room: RoomState, message: RoomMessage<Seq<char>>) -> RoomState {
    match message {
        RoomMessage::Title(text) => RoomState { title: text, ..room },
        RoomMessage::Description { text, .. } => RoomState { description: text, ..room },
        RoomMessage::Level(text) => RoomState {
            level: (text::read_number(text, i32::MIN as int, i32::MAX as int)->0) as i32,
            ..room
        },
        RoomMessage::X(_, value) => RoomState { x: value->0, ..room },
        RoomMessage::Y(_, value) => RoomState { y: value->0, ..room },
        RoomMessage::Color(text, _) => RoomState { color: text, ..room },
    }
}

/// The form of a room with what was typed in the field it was typed into.
pub open spec fn room_form(state: StateView, message: RoomMessage<Seq<char>>) -> StateView {
    match message {
        RoomMessage::Title(text) => State { title: text, ..state },
        RoomMessage::Description { text, .. } => State { description: text, ..state },
        RoomMessage::Level(text) => State { level: text, ..state },
        RoomMessage::X(text, _) => State { x: text, ..state },
        RoomMessage::Y(text, _) => State { y: text, ..state },
        RoomMessage::Color(text, _) => State { color: text, ..state },
    }
}

/// Whether a message moves the room that it edits.
pub open spec fn is_position(message: RoomMessage<Seq<char>>) -> bool {
    message is X || message is Y
}

/// Whether an action gives the selected room what was typed, and asks for nothing else:
/// routes at the room are stale exactly when it moves, and nothing is pushed for what is no
/// value or with anything else selected.
pub open spec fn types_room(action: ActionView, scene: Scene, message: RoomMessage<Seq<char>>) -> bool {
    &&& forall|area_id: AreaId, room_number: RoomNumber|
        #[trigger] is_only(scene, area_id, EntityId::Room(room_number)) && fits_room(message) ==> {
            let key = RoomKey { area_id, room_number };
            &&& action matches Action::Push { stale, command, resync } && !resync && stale == (
            if is_position(message) {
                Stale::Moved
            } else {
                Stale::Nothing
            }) && doing::makes_room(
                command,
                scene.atlas,
                key,
                room_with(undoing::room_state(doing::cached_room(scene.atlas, key)->0), message),
            )
        }
    &&& !fits_room(message) || !is_one_room(scene) ==> action is Nothing
}

/// What is typed into a field of the selected room becomes the value of that field, of the
/// room and of the form, and of no other.
pub proof fn law_a_room_holds_what_was_typed(
    state: StateView,
    scene: Scene,
    message: RoomMessage<Seq<char>>,
)
    ensures
        rooms::room_updated(state, scene, message).0 == room_form(state, message),
        types_room(rooms::room_updated(state, scene, message).1, scene, message),
{
    let action = rooms::room_updated(state, scene, message).1;
    assert forall|area_id: AreaId, room_number: RoomNumber|
        #[trigger] is_only(scene, area_id, EntityId::Room(room_number)) && fits_room(message) implies ({
        let key = RoomKey { area_id, room_number };
        &&& action matches Action::Push { stale, command, resync } && !resync && stale == (
        if is_position(message) {
            Stale::Moved
        } else {
            Stale::Nothing
        }) && doing::makes_room(
            command,
            scene.atlas,
            key,
            room_with(undoing::room_state(doing::cached_room(scene.atlas, key)->0), message),
        )
    }) by {
        let key = RoomKey { area_id, room_number };
        assert(scene.selection@[0] == EntityId::Room(room_number));
        assert(action::selected_room(scene) == Some(key));
        let none = RoomUpdates::<Seq<char>>::none();
        let (field, updates) = match message {
            RoomMessage::Title(text) => (
                FieldId::Title,
                RoomUpdates { title: Some(text), ..none },
            ),
            RoomMessage::Description { text, .. } => (
                FieldId::Description,
                RoomUpdates { description: Some(text), ..none },
            ),
            RoomMessage::Level(text) => (
                FieldId::Level,
                RoomUpdates { level: rooms::number_in(text), ..none },
            ),
            RoomMessage::X(_, value) => (
                FieldId::Position,
                RoomUpdates { x: value, ..none },
            ),
            RoomMessage::Y(_, value) => (
                FieldId::Position,
                RoomUpdates { y: value, ..none },
            ),
            RoomMessage::Color(text, _) => (
                FieldId::Color,
                RoomUpdates { color: Some(text), ..none },
            ),
        };
        doing::law_an_edit_gives_a_room_its_values(scene.atlas, key, field, updates);
        let room = undoing::room_state(doing::cached_room(scene.atlas, key)->0);
        assert(undoing::room_updated(room, updates) == room_with(room, message));
    }
}

// ===== Labels =====

/// The number that a text spells, if it is more than zero.
pub open spec fn spells_positive(text: Seq<char>) -> bool {
    text::read_number(text, i32::MIN as int, i32::MAX as int) matches Some(number) && number > 0
}

/// Whether what was put into a field of a label is a value of the field.
pub open spec fn fits_label(message: LabelMessage<Seq<char>>) -> bool {
    match message {
        LabelMessage::Text(_) => true,
        LabelMessage::Color(_, valid) => valid,
        LabelMessage::Background(text, valid) => text.len() == 0 || valid,
        LabelMessage::FontSize(text) => spells_positive(text),
        LabelMessage::FontWeight(text) => spells_positive(text),
        LabelMessage::HorizontalAlignment(_) => true,
        LabelMessage::VerticalAlignment(_) => true,
        LabelMessage::Bounds(_, _, reading) => reading is Some,
    }
}

/// A label that holds what was put into one of its fields there. Sizes do not go below the
/// least one.
pub open spec fn label_with(
    label: LabelCache<Seq<char>>,
    message: LabelMessage<Seq<char>>,
) -> LabelCache<Seq<char>> {
    match message {
        LabelMessage::Text(text) => LabelCache { text, ..label },
        LabelMessage::Color(text, _) => LabelCache { color: text, ..label },
        LabelMessage::Background(text, _) => LabelCache { background_color: text, ..label },
        LabelMessage::FontSize(text) => LabelCache {
            font_size: (text::read_number(text, i32::MIN as int, i32::MAX as int)->0) as i32,
            ..label
        },
        LabelMessage::FontWeight(text) => LabelCache {
            font_weight: (text::read_number(text, i32::MIN as int, i32::MAX as int)->0) as i32,
            ..label
        },
        LabelMessage::HorizontalAlignment(alignment) => LabelCache {
            horizontal_alignment: alignment,
            ..label
        },
        LabelMessage::VerticalAlignment(alignment) => LabelCache {
            vertical_alignment: alignment,
            ..label
        },
        LabelMessage::Bounds(BoundsField::X, _, reading) => LabelCache { x: (reading->0).value, ..label },
        LabelMessage::Bounds(BoundsField::Y, _, reading) => LabelCache { y: (reading->0).value, ..label },
        LabelMessage::Bounds(BoundsField::Width, _, reading) => LabelCache {
            width: (reading->0).sized,
            ..label
        },
        LabelMessage::Bounds(BoundsField::Height, _, reading) => LabelCache {
            height: (reading->0).sized,
            ..label
        },
    }
}

/// The form of a label with what was put into one of its fields there.
pub open spec fn label_form(
    form: LabelBuffers<Seq<char>>,
    message: LabelMessage<Seq<char>>,
) -> LabelBuffers<Seq<char>> {
    match message {
        LabelMessage::Text(text) => LabelBuffers { text, ..form },
        LabelMessage::Color(text, _) => LabelBuffers { color: text, ..form },
        LabelMessage::Background(text, _) => LabelBuffers { background: text, ..form },
        LabelMessage::FontSize(text) => LabelBuffers { font_size: text, ..form },
        LabelMessage::FontWeight(text) => LabelBuffers { font_weight: text, ..form },
        LabelMessage::HorizontalAlignment(alignment) => LabelBuffers {
            horizontal_alignment: alignment,
            ..form
        },
        LabelMessage::VerticalAlignment(alignment) => LabelBuffers {
            vertical_alignment: alignment,
            ..form
        },
        LabelMessage::Bounds(BoundsField::X, text, _) => LabelBuffers { x: text, ..form },
        LabelMessage::Bounds(BoundsField::Y, text, _) => LabelBuffers { y: text, ..form },
        LabelMessage::Bounds(BoundsField::Width, text, _) => LabelBuffers { width: text, ..form },
        LabelMessage::Bounds(BoundsField::Height, text, _) => LabelBuffers { height: text, ..form },
    }
}

/// Whether an action gives the selected label what was typed, and asks for nothing else.
pub open spec fn types_label(action: ActionView, scene: Scene, message: LabelMessage<Seq<char>>) -> bool {
    &&& forall|area_id: AreaId, id: LabelId|
        #[trigger] is_only(scene, area_id, EntityId::Label(id)) && fits_label(message) ==> (action
            matches Action::Push { stale: Stale::Nothing, command, resync: false } && doing::makes_label(
            command,
            scene.atlas,
            area_id,
            id,
            label_with(doing::cached_label(scene.atlas, area_id, id)->0@, message),
        ))
    &&& !fits_label(message) || !is_one_label(scene) ==> action is Nothing
}

/// What is put into a field of the selected label becomes the value of that field, of the
/// label and of the form, and of no other.
pub proof fn law_a_label_holds_what_was_typed(
    state: StateView,
    scene: Scene,
    message: LabelMessage<Seq<char>>,
)
    ensures
        drawings::label_updated(state, scene, message).0 == (State {
            label: label_form(state.label, message),
            ..state
        }),
        types_label(drawings::label_updated(state, scene, message).1, scene, message),
{
    let action = drawings::label_updated(state, scene, message).1;
    assert forall|area_id: AreaId, id: LabelId|
        #[trigger] is_only(scene, area_id, EntityId::Label(id)) && fits_label(message) implies (action
        matches Action::Push { stale: Stale::Nothing, command, resync: false } && doing::makes_label(
        command,
        scene.atlas,
        area_id,
        id,
        label_with(doing::cached_label(scene.atlas, area_id, id)->0@, message),
    )) by {
        assert(scene.selection@[0] == EntityId::Label(id));
        assert(action::selected_label(scene) == Some((area_id, id)));
        let none = LabelUpdates::<Seq<char>>::none();
        let (field, updates) = match message {
            LabelMessage::Text(text) => (
                FieldId::Text,
                LabelUpdates { text: Some(text), ..none },
            ),
            LabelMessage::Color(text, _) => (
                FieldId::Color,
                LabelUpdates { color: Some(text), ..none },
            ),
            LabelMessage::Background(text, _) => (
                FieldId::BackgroundColor,
                LabelUpdates { background_color: Some(text), ..none },
            ),
            LabelMessage::FontSize(text) => (
                FieldId::FontSize,
                LabelUpdates { font_size: rooms::number_in(text), ..none },
            ),
            LabelMessage::FontWeight(text) => (
                FieldId::FontWeight,
                LabelUpdates { font_weight: rooms::number_in(text), ..none },
            ),
            LabelMessage::HorizontalAlignment(alignment) => (
                FieldId::HorizontalAlignment,
                LabelUpdates { horizontal_alignment: Some(alignment), ..none },
            ),
            LabelMessage::VerticalAlignment(alignment) => (
                FieldId::VerticalAlignment,
                LabelUpdates { vertical_alignment: Some(alignment), ..none },
            ),
            LabelMessage::Bounds(bound, _, reading) => (
                FieldId::Bounds,
                drawings::label_bound_update(bound, reading->0),
            ),
        };
        doing::law_an_edit_gives_a_label_its_values(scene.atlas, area_id, id, field, updates);
        let label = doing::cached_label(scene.atlas, area_id, id)->0@;
        assert(undoing::label_updated(label, updates) == label_with(label, message));
    }
}

// ===== Shapes =====

/// Whether what was put into a field of a shape is a value of the field.
pub open spec fn fits_shape(message: ShapeMessage<Seq<char>>) -> bool {
    match message {
        ShapeMessage::Type(_) => true,
        ShapeMessage::Background(text, valid) => text.len() == 0 || valid,
        ShapeMessage::StrokeColor(text, valid) => text.len() == 0 || valid,
        ShapeMessage::StrokeWidth(_, reading) => reading matches Some(reading) && reading.non_negative,
        ShapeMessage::BorderRadius(_, reading) => reading matches Some(reading) && reading.non_negative,
        ShapeMessage::Bounds(_, _, reading) => reading is Some,
    }
}

/// A shape that holds what was put into one of its fields there. Sizes do not go below the
/// least one.
pub open spec fn shape_with(shape: ShapeState, message: ShapeMessage<Seq<char>>) -> ShapeState {
    match message {
        ShapeMessage::Type(shape_type) => ShapeState { shape_type, ..shape },
        ShapeMessage::Background(text, _) => ShapeState { background_color: text, ..shape },
        ShapeMessage::StrokeColor(text, _) => ShapeState { stroke_color: text, ..shape },
        ShapeMessage::StrokeWidth(_, reading) => ShapeState {
            stroke_width: (reading->0).value,
            ..shape
        },
        ShapeMessage::BorderRadius(_, reading) => ShapeState {
            border_radius: (reading->0).value,
            ..shape
        },
        ShapeMessage::Bounds(BoundsField::X, _, reading) => ShapeState { x: (reading->0).value, ..shape },
        ShapeMessage::Bounds(BoundsField::Y, _, reading) => ShapeState { y: (reading->0).value, ..shape },
        ShapeMessage::Bounds(BoundsField::Width, _, reading) => ShapeState {
            width: (reading->0).sized,
            ..shape
        },
        ShapeMessage::Bounds(BoundsField::Height, _, reading) => ShapeState {
            height: (reading->0).sized,
            ..shape
        },
    }
}

/// The form of a shape with what was put into one of its fields there.
pub open spec fn shape_form(
    form: ShapeBuffers<Seq<char>>,
    message: ShapeMessage<Seq<char>>,
) -> ShapeBuffers<Seq<char>> {
    match message {
        ShapeMessage::Type(shape_type) => ShapeBuffers { shape_type, ..form },
        ShapeMessage::Background(text, _) => ShapeBuffers { background: text, ..form },
        ShapeMessage::StrokeColor(text, _) => ShapeBuffers { stroke_color: text, ..form },
        ShapeMessage::StrokeWidth(text, _) => ShapeBuffers { stroke_width: text, ..form },
        ShapeMessage::BorderRadius(text, _) => ShapeBuffers { border_radius: text, ..form },
        ShapeMessage::Bounds(BoundsField::X, text, _) => ShapeBuffers { x: text, ..form },
        ShapeMessage::Bounds(BoundsField::Y, text, _) => ShapeBuffers { y: text, ..form },
        ShapeMessage::Bounds(BoundsField::Width, text, _) => ShapeBuffers { width: text, ..form },
        ShapeMessage::Bounds(BoundsField::Height, text, _) => ShapeBuffers { height: text, ..form },
    }
}

/// Whether an action gives the selected shape what was typed, and asks for nothing else.
pub open spec fn types_shape(action: ActionView, scene: Scene, message: ShapeMessage<Seq<char>>) -> bool {
    &&& forall|area_id: AreaId, id: ShapeId|
        #[trigger] is_only(scene, area_id, EntityId::Shape(id)) && fits_shape(message) ==> (action
            matches Action::Push { stale: Stale::Nothing, command, resync: false } && doing::makes_shape(
            command,
            scene.atlas,
            area_id,
            id,
            shape_with(
                undoing::shape_state(doing::cached_shape(scene.atlas, area_id, id)->0),
                message,
            ),
        ))
    &&& !fits_shape(message) || !is_one_shape(scene) ==> action is Nothing
}

/// What is put into a field of the selected shape becomes the value of that field, of the
/// shape and of the form, and of no other.
pub proof fn law_a_shape_holds_what_was_typed(
    state: StateView,
    scene: Scene,
    message: ShapeMessage<Seq<char>>,
)
    ensures
        drawings::shape_updated(state, scene, message).0 == (State {
            shape: shape_form(state.shape, message),
            ..state
        }),
        types_shape(drawings::shape_updated(state, scene, message).1, scene, message),
{
    let action = drawings::shape_updated(state, scene, message).1;
    assert forall|area_id: AreaId, id: ShapeId|
        #[trigger] is_only(scene, area_id, EntityId::Shape(id)) && fits_shape(message) implies (action
        matches Action::Push { stale: Stale::Nothing, command, resync: false } && doing::makes_shape(
        command,
        scene.atlas,
        area_id,
        id,
        shape_with(undoing::shape_state(doing::cached_shape(scene.atlas, area_id, id)->0), message),
    )) by {
        assert(scene.selection@[0] == EntityId::Shape(id));
        assert(action::selected_shape(scene) == Some((area_id, id)));
        let none = ShapeUpdates::<Seq<char>>::none();
        let (field, updates) = match message {
            ShapeMessage::Type(shape_type) => (
                FieldId::ShapeType,
                ShapeUpdates { shape_type: Some(shape_type), ..none },
            ),
            ShapeMessage::Background(text, _) => (
                FieldId::BackgroundColor,
                ShapeUpdates { background_color: Some(text), ..none },
            ),
            ShapeMessage::StrokeColor(text, _) => (
                FieldId::StrokeColor,
                ShapeUpdates { stroke_color: Some(text), ..none },
            ),
            ShapeMessage::StrokeWidth(_, reading) => (
                FieldId::StrokeWidth,
                ShapeUpdates { stroke_width: Some((reading->0).value), ..none },
            ),
            ShapeMessage::BorderRadius(_, reading) => (
                FieldId::BorderRadius,
                ShapeUpdates { border_radius: Some((reading->0).value), ..none },
            ),
            ShapeMessage::Bounds(bound, _, reading) => (
                FieldId::Bounds,
                drawings::shape_bound_update(bound, reading->0),
            ),
        };
        doing::law_an_edit_gives_a_shape_its_values(scene.atlas, area_id, id, field, updates);
        let shape = undoing::shape_state(doing::cached_shape(scene.atlas, area_id, id)->0);
        assert(undoing::shape_updated(shape, updates) == shape_with(shape, message));
    }
}

// ===== Properties =====

/// Rows of which one holds another value, and which are otherwise as they were.
pub open spec fn value_put(
    after: Seq<PropertyRow<Seq<char>>>,
    before: Seq<PropertyRow<Seq<char>>>,
    index: int,
    value: Seq<char>,
) -> bool {
    &&& after.len() == before.len()
    &&& after[index] == (PropertyRow { value, ..before[index] })
    &&& forall|i: int| 0 <= i < before.len() && i != index ==> after[i] == before[i]
}

/// Rows that hold what other rows hold, and a new one that is not secret.
pub open spec fn row_added(
    after: Seq<PropertyRow<Seq<char>>>,
    before: Seq<PropertyRow<Seq<char>>>,
    name: Seq<char>,
    value: Seq<char>,
) -> bool {
    &&& after.len() == before.len() + 1
    &&& forall|row: PropertyRow<Seq<char>>| #[trigger]
        after.contains(row) <==> before.contains(row) || row == (PropertyRow {
            name,
            value,
            is_secret: false,
        })
}

/// A row that is sorted in is there, with the others.
proof fn lemma_row_added(rows: Seq<PropertyRow<Seq<char>>>, name: Seq<char>, value: Seq<char>)
    ensures
        row_added(rooms::with_row(rows, name, value), rows, name, value),
{
    let new = PropertyRow { name, value, is_secret: false };
    let less = |a: PropertyRow<Seq<char>>, b: PropertyRow<Seq<char>>| state::row_before(a, b);
    let all = rows.push(new);
    let after = rooms::with_row(rows, name, value);
    assert forall|row: PropertyRow<Seq<char>>| #[trigger] after.contains(row) <==> rows.contains(row) || row
        == new by {
        list::lemma_in_order_holds(all, less, row);
        if rows.contains(row) {
            let i = choose|i: int| 0 <= i < rows.len() && rows[i] == row;
            assert(all[i] == row);
        }
        if row == new {
            assert(all[rows.len() as int] == row);
        }
    }
    list::lemma_in_order_holds(all, less, new);
}

/// Whether an action does to the properties of the selected room what was asked in the
/// form: another value for the one of a row, none for that of a deleted row, a new one under
/// the trimmed name.
pub open spec fn types_room_property(
    state: StateView,
    action: ActionView,
    scene: Scene,
    message: PropertyMessage<Seq<char>>,
) -> bool {
    &&& forall|area_id: AreaId, room_number: RoomNumber|
        #[trigger] is_only(scene, area_id, EntityId::Room(room_number)) ==> {
            let key = RoomKey { area_id, room_number };
            let room = undoing::room_state(doing::cached_room(scene.atlas, key)->0);
            match message {
                PropertyMessage::ValueChanged(index, value) => index < state.properties.len() ==> action is Push && doing::makes_room(
                    action->command,
                    scene.atlas,
                    key,
                    RoomState {
                        properties: room.properties.insert(state.properties[index as int].name, value),
                        ..room
                    },
                ),
                PropertyMessage::Deleted(index) => index < state.properties.len() ==> action is Push && doing::drops_room_property(
                    action->command,
                    scene.atlas,
                    key,
                    state.properties[index as int].name,
                ),
                PropertyMessage::Add => text::trimmed(state.new_property_name).len() > 0 ==> action is Push && doing::makes_room(
                    action->command,
                    scene.atlas,
                    key,
                    RoomState {
                        properties: room.properties.insert(
                            text::trimmed(state.new_property_name),
                            state.new_property_value,
                        ),
                        ..room
                    },
                ),
                _ => action is Nothing,
            }
        }
    &&& !is_one_room(scene) ==> action is Nothing
}

/// The form of a room's properties after a message.
pub open spec fn room_property_form(
    before: StateView,
    after: StateView,
    scene: Scene,
    message: PropertyMessage<Seq<char>>,
) -> bool {
    match message {
        PropertyMessage::ValueChanged(index, value) => {
            &&& after == (State { properties: after.properties, ..before })
            &&& if index < before.properties.len() {
                value_put(after.properties, before.properties, index as int, value)
            } else {
                after == before
            }
        },
        PropertyMessage::Deleted(index) => after == (State {
            properties: if index < before.properties.len() {
                before.properties.remove(index as int)
            } else {
                before.properties
            },
            ..before
        }),
        PropertyMessage::NewNameChanged(value) => after == (State { new_property_name: value, ..before }),
        PropertyMessage::NewValueChanged(value) => after == (State {
            new_property_value: value,
            ..before
        }),
        PropertyMessage::Add => if is_one_room(scene) && text::trimmed(before.new_property_name).len()
            > 0 {
            &&& after == (State {
                properties: after.properties,
                new_property_name: Seq::empty(),
                new_property_value: Seq::empty(),
                ..before
            })
            &&& row_added(
                after.properties,
                before.properties,
                text::trimmed(before.new_property_name),
                before.new_property_value,
            )
        } else {
            after == before
        },
    }
}

/// The properties of the selected room become what was asked in the form.
pub proof fn law_a_room_holds_the_properties_typed(
    state: StateView,
    scene: Scene,
    message: PropertyMessage<Seq<char>>,
)
    ensures
        room_property_form(
            state,
            rooms::room_property_updated(state, scene, message).0,
            scene,
            message,
        ),
        types_room_property(
            state,
            rooms::room_property_updated(state, scene, message).1,
            scene,
            message,
        ),
{
    let action = rooms::room_property_updated(state, scene, message).1;
    let name = text::trimmed(state.new_property_name);
    lemma_row_added(state.properties, name, state.new_property_value);
    if let Some(key) = action::selected_room(scene) {
        match message {
            PropertyMessage::ValueChanged(index, value) => {
                doing::law_a_set_property_of_a_room_is_held(
                    scene.atlas,
                    key,
                    state.properties[index as int].name,
                    value,
                );
            },
            PropertyMessage::Deleted(index) => {
                doing::law_a_deleted_property_of_a_room_is_gone(
                    scene.atlas,
                    key,
                    state.properties[index as int].name,
                );
            },
            PropertyMessage::Add => {
                doing::law_a_set_property_of_a_room_is_held(
                    scene.atlas,
                    key,
                    name,
                    state.new_property_value,
                );
            },
            _ => {},
        }
    }
    assert forall|area_id: AreaId, room_number: RoomNumber| #[trigger]
        is_only(scene, area_id, EntityId::Room(room_number)) implies action::selected_room(scene) == Some(
        RoomKey { area_id, room_number },
    ) by {
        assert(scene.selection@[0] == EntityId::Room(room_number));
    }
}

/// Whether an action does to the properties of the area what was asked in the form.
pub open spec fn types_area_property(
    state: StateView,
    action: ActionView,
    scene: Scene,
    message: PropertyMessage<Seq<char>>,
) -> bool {
    match scene.area_id {
        Some(area_id) => match message {
            PropertyMessage::ValueChanged(index, value) => index < state.area_properties.len() ==> action is Push && doing::sets_area_property(
                    action->command,
                scene.atlas,
                area_id,
                state.area_properties[index as int].name,
                value,
            ),
            PropertyMessage::Deleted(index) => index < state.area_properties.len() ==> action is Push && doing::drops_area_property(
                    action->command,
                scene.atlas,
                area_id,
                state.area_properties[index as int].name,
            ),
            PropertyMessage::Add => text::trimmed(state.new_area_property_name).len() > 0 ==> action is Push && doing::sets_area_property(
                    action->command,
                scene.atlas,
                area_id,
                text::trimmed(state.new_area_property_name),
                state.new_area_property_value,
            ),
            _ => action is Nothing,
        },
        None => action is Nothing,
    }
}

/// The form of the area's properties after a message.
pub open spec fn area_property_form(
    before: StateView,
    after: StateView,
    scene: Scene,
    message: PropertyMessage<Seq<char>>,
) -> bool {
    match message {
        PropertyMessage::ValueChanged(index, value) => {
            &&& after == (State { area_properties: after.area_properties, ..before })
            &&& if index < before.area_properties.len() {
                value_put(after.area_properties, before.area_properties, index as int, value)
            } else {
                after == before
            }
        },
        PropertyMessage::Deleted(index) => after == (State {
            area_properties: if index < before.area_properties.len() {
                before.area_properties.remove(index as int)
            } else {
                before.area_properties
            },
            ..before
        }),
        PropertyMessage::NewNameChanged(value) => after == (State {
            new_area_property_name: value,
            ..before
        }),
        PropertyMessage::NewValueChanged(value) => after == (State {
            new_area_property_value: value,
            ..before
        }),
        PropertyMessage::Add => if scene.area_id is Some && text::trimmed(
            before.new_area_property_name,
        ).len() > 0 {
            &&& after == (State {
                area_properties: after.area_properties,
                new_area_property_name: Seq::empty(),
                new_area_property_value: Seq::empty(),
                ..before
            })
            &&& row_added(
                after.area_properties,
                before.area_properties,
                text::trimmed(before.new_area_property_name),
                before.new_area_property_value,
            )
        } else {
            after == before
        },
    }
}

/// The properties of the area become what was asked in the form.
pub proof fn law_an_area_holds_the_properties_typed(
    state: StateView,
    scene: Scene,
    message: PropertyMessage<Seq<char>>,
)
    ensures
        area_property_form(
            state,
            rooms::area_property_updated(state, scene, message).0,
            scene,
            message,
        ),
        types_area_property(
            state,
            rooms::area_property_updated(state, scene, message).1,
            scene,
            message,
        ),
{
    let name = text::trimmed(state.new_area_property_name);
    let value = state.new_area_property_value;
    lemma_row_added(state.area_properties, name, value);
    if let Some(area_id) = scene.area_id {
        match message {
            PropertyMessage::ValueChanged(index, value) => {
                doing::law_properties_of_an_area_are_set_and_deleted(
                    scene.atlas,
                    area_id,
                    state.area_properties[index as int].name,
                    value,
                );
            },
            PropertyMessage::Deleted(index) => {
                doing::law_properties_of_an_area_are_set_and_deleted(
                    scene.atlas,
                    area_id,
                    state.area_properties[index as int].name,
                    value,
                );
            },
            PropertyMessage::Add => {
                doing::law_properties_of_an_area_are_set_and_deleted(scene.atlas, area_id, name, value);
            },
            _ => {},
        }
    }
}

// ===== Tags and many rooms =====

/// Whether an action puts a tag on the selected room or takes one off, as was asked, and
/// asks for nothing else.
pub open spec fn types_tag(action: ActionView, scene: Scene, message: TagMessage<Seq<char>>) -> bool {
    &&& forall|area_id: AreaId, room_number: RoomNumber|
        #[trigger] is_only(scene, area_id, EntityId::Room(room_number)) ==> {
            let key = RoomKey { area_id, room_number };
            let command = match action {
                Action::Push { command, .. } => command,
                _ => None,
            };
            match message {
                TagMessage::InputChanged(_) => action is Nothing,
                TagMessage::Added { tag, .. } => doing::tags_room(command, scene.atlas, key, tag),
                TagMessage::Removed(tag) => doing::untags_room(command, scene.atlas, key, tag),
            }
        }
    &&& !is_one_room(scene) ==> action is Nothing
}

/// A tag that is added is on the room and in the form; one that is removed is on neither.
pub proof fn law_a_room_holds_the_tags_typed(
    state: StateView,
    scene: Scene,
    message: TagMessage<Seq<char>>,
    other: Seq<char>,
)
    ensures
        types_tag(rooms::tag_updated(state, scene, message).1, scene, message),
        ({
            let (after, action) = rooms::tag_updated(state, scene, message);
            &&& after == (State { tags: after.tags, new_tag: after.new_tag, ..state })
            &&& match message {
                TagMessage::InputChanged(text) => after == (State { new_tag: text, ..state }),
                TagMessage::Added { tag, .. } => after.tags.contains(other) == (state.tags.contains(
                    other,
                ) || (action is Push && other == tag)),
                TagMessage::Removed(tag) => after.tags.contains(other) == (state.tags.contains(other)
                    && !(action is Push && other == tag)),
            }
        }),
{
    let action = rooms::tag_updated(state, scene, message).1;
    assert forall|area_id: AreaId, room_number: RoomNumber| #[trigger]
        is_only(scene, area_id, EntityId::Room(room_number)) implies action::selected_room(scene) == Some(
        RoomKey { area_id, room_number },
    ) by {
        assert(scene.selection@[0] == EntityId::Room(room_number));
    }
    match message {
        TagMessage::Added { tag, .. } => {
            if let Some(key) = action::selected_room(scene) {
                doing::law_tags_are_added_and_removed(scene.atlas, key, tag);
            }
            let all = state.tags.push(tag);
            list::lemma_in_order_holds(all, |a: Seq<char>, b: Seq<char>| text::text_less(a, b), other);
            if state.tags.contains(other) {
                let i = choose|i: int| 0 <= i < state.tags.len() && state.tags[i] == other;
                assert(all[i] == other);
            }
            if all.contains(other) && other != tag {
                let i = choose|i: int| 0 <= i < all.len() && all[i] == other;
                assert(state.tags[i] == other);
            }
            assert(all[state.tags.len() as int] == tag);
        },
        TagMessage::Removed(tag) => {
            if let Some(key) = action::selected_room(scene) {
                doing::law_tags_are_added_and_removed(scene.atlas, key, tag);
            }
            rooms::lemma_tags_without(state.tags, tag, other);
        },
        _ => {},
    }
}

/// Whether an action gives every selected room the color or the level that was typed.
pub open spec fn types_bulk(
    state: StateView,
    action: ActionView,
    scene: Scene,
    message: BulkMessage<Seq<char>>,
) -> bool {
    let level = text::read_number(state.bulk_level, i32::MIN as int, i32::MAX as int);
    match (message, scene.area_id) {
        (BulkMessage::ApplyColor(valid), Some(area_id)) => if state.bulk_color.len() == 0 || valid {
            action matches Action::Push { command, .. } && bulk_gives(
                command,
                scene,
                area_id,
                |room: RoomState| RoomState { color: state.bulk_color, ..room },
            )
        } else {
            action is Nothing
        },
        (BulkMessage::ApplyLevel, Some(area_id)) => if level is Some {
            action matches Action::Push { command, .. } && bulk_gives(
                command,
                scene,
                area_id,
                |room: RoomState| RoomState { level: (level->0) as i32, ..room },
            )
        } else {
            action is Nothing
        },
        _ => action is Nothing,
    }
}

/// Whether a command makes something of every selected room, and of nothing else.
pub open spec fn bulk_gives(
    command: Option<CommandView>,
    scene: Scene,
    area_id: AreaId,
    room: spec_fn(RoomState) -> RoomState,
) -> bool {
    if scene.atlas.area(area_id) is Some && exists|number: RoomNumber|
        scene.selection@.contains(EntityId::Room(number)) && #[trigger] scene.atlas.area(area_id)->0.room(
            number,
        ) is Some {
        command matches Some(command) && doing::turns(
            command,
            area_id,
            doing::held(scene.atlas, area_id),
            doing::changed(
                doing::held(scene.atlas, area_id),
                scene.selection@,
                room,
                |label: LabelCache<Seq<char>>| label,
                |shape: ShapeState| shape,
            ),
        )
    } else {
        command is None
    }
}

/// A color or level that is applied to many rooms is that of every selected one; typing
/// changes the form alone.
pub proof fn law_many_rooms_hold_what_was_applied(
    state: StateView,
    scene: Scene,
    message: BulkMessage<Seq<char>>,
)
    ensures
        types_bulk(state, rooms::bulk_updated(state, scene, message).1, scene, message),
        ({
            let after = rooms::bulk_updated(state, scene, message).0;
            match message {
                BulkMessage::ColorChanged(text) => after == (State { bulk_color: text, ..state }),
                BulkMessage::LevelChanged(text) => after == (State { bulk_level: text, ..state }),
                BulkMessage::ApplyColor(_) => after == (State {
                    bulk_color_mixed: after.bulk_color_mixed,
                    ..state
                }),
                BulkMessage::ApplyLevel => after == (State {
                    bulk_level_mixed: after.bulk_level_mixed,
                    ..state
                }),
            }
        }),
{
    if let Some(area_id) = scene.area_id {
        let none = RoomUpdates::<Seq<char>>::none();
        let level = rooms::number_in(state.bulk_level);
        let colored = RoomUpdates { color: Some(state.bulk_color), ..none };
        let leveled = RoomUpdates { level, ..none };
        doing::law_a_bulk_edit_reaches_every_selected_room(
            scene.atlas,
            area_id,
            scene.selection@,
            colored,
        );
        doing::law_a_bulk_edit_reaches_every_selected_room(
            scene.atlas,
            area_id,
            scene.selection@,
            leveled,
        );
        let world = doing::held(scene.atlas, area_id);
        let same_label = |label: LabelCache<Seq<char>>| label;
        let same_shape = |shape: ShapeState| shape;
        let color = |room: RoomState| RoomState { color: state.bulk_color, ..room };
        assert(doing::changed(
            world,
            scene.selection@,
            |room: RoomState| undoing::room_updated(room, colored),
            same_label,
            same_shape,
        ) =~= doing::changed(world, scene.selection@, color, same_label, same_shape));
        if let Some(level) = level {
            let lift = |room: RoomState| RoomState { level, ..room };
            assert(doing::changed(
                world,
                scene.selection@,
                |room: RoomState| undoing::room_updated(room, leveled),
                same_label,
                same_shape,
            ) =~= doing::changed(world, scene.selection@, lift, same_label, same_shape));
        }
    }
}

} // verus!
