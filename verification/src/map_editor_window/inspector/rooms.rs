//! Editing rooms, properties and tags.

use vstd::prelude::*;

use super::super::cache;
use super::super::commands::FieldId;
use super::super::edits::{
    self, add_room_tag, bulk_edit_rooms, delete_area_property, delete_room_property, remove_room_tag,
    set_area_property, set_room_property,
};
use super::super::model::{RoomUpdates, Scalar};
use super::action::{self, commit_room_field, push, Action, ActionView, Scene};
use super::state::{self, sort_rows, PropertyRow, State, StateView};
use super::typing;
use crate::list::{self, keep, sort_by};
use crate::text::{self, is_empty_text, read_i32, same_text, text_before, trim};

verus! {

/// The number that a text spells.
pub open spec fn number_in(text: Seq<char>) -> Option<i32> {
    match text::read_number(text, i32::MIN as int, i32::MAX as int) {
        Some(number) => Some(number as i32),
        None => None,
    }
}

/// An edit of a field of the selected room. A typed number carries its value and
/// a typed color whether it is one.
pub enum RoomMessage<T = String> {
    Title(T),
    /// The description after an action in its editor, and whether the action was
    /// an edit.
    Description { text: T, is_edit: bool },
    Level(T),
    X(T, Option<Scalar>),
    Y(T, Option<Scalar>),
    Color(T, bool),
}

impl View for RoomMessage<String> {
    type V = RoomMessage<Seq<char>>;

    open spec fn view(&self) -> RoomMessage<Seq<char>> {
        match *self {
            RoomMessage::Title(text) => RoomMessage::Title(text@),
            RoomMessage::Description { text, is_edit } => RoomMessage::Description {
                text: text@,
                is_edit,
            },
            RoomMessage::Level(text) => RoomMessage::Level(text@),
            RoomMessage::X(text, value) => RoomMessage::X(text@, value),
            RoomMessage::Y(text, value) => RoomMessage::Y(text@, value),
            RoomMessage::Color(text, valid) => RoomMessage::Color(text@, valid),
        }
    }
}

/// The buffers after an edit of a room field, and what it asks for: the buffer
/// takes what was typed, and what is valid is committed.
pub open spec fn room_updated(
    state: StateView,
    scene: Scene,
    message: RoomMessage<Seq<char>>,
) -> (StateView, ActionView) {
    let none = RoomUpdates::<Seq<char>>::none();
    match message {
        RoomMessage::Title(text) => (
            State { title: text, ..state },
            action::room_commit(
                scene,
                FieldId::Title,
                RoomUpdates { title: Some(text), ..none },
            ),
        ),
        RoomMessage::Description { text, is_edit } => (
            State { description: text, ..state },
            if is_edit {
                action::room_commit(
                    scene,
                    FieldId::Description,
                    RoomUpdates { description: Some(text), ..none },
                )
            } else {
                Action::Nothing
            },
        ),
        RoomMessage::Level(text) => (
            State { level: text, ..state },
            match number_in(text) {
                Some(level) => action::room_commit(
                    scene,
                    FieldId::Level,
                    RoomUpdates { level: Some(level), ..none },
                ),
                None => Action::Nothing,
            },
        ),
        RoomMessage::X(text, value) => (
            State { x: text, ..state },
            match value {
                Some(x) => action::room_commit(
                    scene,
                    FieldId::Position,
                    RoomUpdates { x: Some(x), ..none },
                ),
                None => Action::Nothing,
            },
        ),
        RoomMessage::Y(text, value) => (
            State { y: text, ..state },
            match value {
                Some(y) => action::room_commit(
                    scene,
                    FieldId::Position,
                    RoomUpdates { y: Some(y), ..none },
                ),
                None => Action::Nothing,
            },
        ),
        RoomMessage::Color(text, valid) => (
            State { color: text, ..state },
            if text.len() == 0 || valid {
                action::room_commit(
                    scene,
                    FieldId::Color,
                    RoomUpdates { color: Some(text), ..none },
                )
            } else {
                Action::Nothing
            },
        ),
    }
}

impl State {
    /// Edits a field of the selected room.
    pub fn update_room(&mut self, scene: &Scene, message: RoomMessage) -> (action: Action)
        ensures
            (final(self)@, action@) == room_updated(old(self)@, *scene, message@),
            typing::types_room(action@, *scene, message@),
            action.wf(),
    {
        proof {
            typing::law_a_room_holds_what_was_typed(self@, *scene, message@);
        }
        let mut updates: RoomUpdates = RoomUpdates::default();
        match message {
            RoomMessage::Title(text) => {
                self.title = text.clone();
                updates.title = Some(text);
                commit_room_field(scene, FieldId::Title, updates)
            },
            RoomMessage::Description { text, is_edit } => {
                self.description = text.clone();
                if is_edit {
                    updates.description = Some(text);
                    commit_room_field(scene, FieldId::Description, updates)
                } else {
                    Action::Nothing
                }
            },
            RoomMessage::Level(text) => {
                let number = read_i32(&text);
                self.level = text;
                match number {
                    Some(level) => {
                        updates.level = Some(level);
                        commit_room_field(scene, FieldId::Level, updates)
                    },
                    None => Action::Nothing,
                }
            },
            RoomMessage::X(text, value) => {
                self.x = text;
                match value {
                    Some(x) => {
                        updates.x = Some(x);
                        commit_room_field(scene, FieldId::Position, updates)
                    },
                    None => Action::Nothing,
                }
            },
            RoomMessage::Y(text, value) => {
                self.y = text;
                match value {
                    Some(y) => {
                        updates.y = Some(y);
                        commit_room_field(scene, FieldId::Position, updates)
                    },
                    None => Action::Nothing,
                }
            },
            RoomMessage::Color(text, valid) => {
                self.color = text.clone();
                if is_empty_text(&text) || valid {
                    updates.color = Some(text);
                    commit_room_field(scene, FieldId::Color, updates)
                } else {
                    Action::Nothing
                }
            },
        }
    }
}

// ===== Properties =====

/// An edit of the properties of the selected room, or of the area.
pub enum PropertyMessage<T = String> {
    ValueChanged(usize, T),
    Deleted(usize),
    NewNameChanged(T),
    NewValueChanged(T),
    Add,
}

impl View for PropertyMessage<String> {
    type V = PropertyMessage<Seq<char>>;

    open spec fn view(&self) -> PropertyMessage<Seq<char>> {
        match *self {
            PropertyMessage::ValueChanged(index, value) => PropertyMessage::ValueChanged(
                index,
                value@,
            ),
            PropertyMessage::Deleted(index) => PropertyMessage::Deleted(index),
            PropertyMessage::NewNameChanged(value) => PropertyMessage::NewNameChanged(value@),
            PropertyMessage::NewValueChanged(value) => PropertyMessage::NewValueChanged(value@),
            PropertyMessage::Add => PropertyMessage::Add,
        }
    }
}

/// Rows with one more, by name.
pub open spec fn with_row(
    rows: Seq<PropertyRow<Seq<char>>>,
    name: Seq<char>,
    value: Seq<char>,
) -> Seq<PropertyRow<Seq<char>>> {
    state::ordered_rows(rows.push(PropertyRow { name, value, is_secret: false }))
}

/// Rows with another value in one.
pub open spec fn with_value(
    rows: Seq<PropertyRow<Seq<char>>>,
    index: int,
    value: Seq<char>,
) -> Seq<PropertyRow<Seq<char>>> {
    rows.update(index, PropertyRow { value, ..rows[index] })
}

/// Adds a row, by name.
fn add_row(rows: &mut Vec<PropertyRow>, name: String, value: String)
    ensures
        state::property_rows(final(rows)@) == with_row(
            state::property_rows(old(rows)@),
            name@,
            value@,
        ),
{
    let ghost before = rows@;
    let mut all: Vec<PropertyRow> = Vec::new();
    all.append(rows);
    let row = PropertyRow { name, value, is_secret: false };
    all.push(row);
    assert(state::property_rows(all@) =~= state::property_rows(before).push(row@));
    *rows = sort_rows(all);
}

/// Puts a value into a row and hands out the row's name.
fn set_value(rows: &mut Vec<PropertyRow>, index: usize, value: String) -> (name: String)
    requires
        index < old(rows).len(),
    ensures
        state::property_rows(final(rows)@) == with_value(
            state::property_rows(old(rows)@),
            index as int,
            value@,
        ),
        name@ == old(rows)@[index as int].name@,
{
    let ghost before = rows@;
    let name = rows[index].name.clone();
    let row = PropertyRow { name: name.clone(), value, is_secret: rows[index].is_secret };
    rows.set(index, row);
    assert(state::property_rows(rows@) =~= with_value(
        state::property_rows(before),
        index as int,
        row.value@,
    ));
    name
}

/// Takes a row out and hands out its name.
fn remove_row(rows: &mut Vec<PropertyRow>, index: usize) -> (name: String)
    requires
        index < old(rows).len(),
    ensures
        state::property_rows(final(rows)@) == state::property_rows(old(rows)@).remove(index as int),
        name@ == old(rows)@[index as int].name@,
{
    let ghost before = rows@;
    let row = rows.remove(index);
    assert(state::property_rows(rows@) =~= state::property_rows(before).remove(index as int));
    row.name
}

/// The buffers after an edit of the properties of the selected room, and what it asks for.
pub open spec fn room_property_updated(
    state: StateView,
    scene: Scene,
    message: PropertyMessage<Seq<char>>,
) -> (StateView, ActionView) {
    match message {
        PropertyMessage::ValueChanged(index, value) => if index < state.properties.len() {
            (
                State { properties: with_value(state.properties, index as int, value), ..state },
                match action::selected_room(scene) {
                    Some(key) => action::pushed(
                        edits::set_room_property_command(
                            scene.atlas,
                            key,
                            state.properties[index as int].name,
                            value,
                        ),
                    ),
                    None => Action::Nothing,
                },
            )
        } else {
            (state, Action::Nothing)
        },
        PropertyMessage::Deleted(index) => if index < state.properties.len() {
            (
                State { properties: state.properties.remove(index as int), ..state },
                match action::selected_room(scene) {
                    Some(key) => action::pushed(
                        edits::delete_room_property_command(
                            scene.atlas,
                            key,
                            state.properties[index as int].name,
                        ),
                    ),
                    None => Action::Nothing,
                },
            )
        } else {
            (state, Action::Nothing)
        },
        PropertyMessage::NewNameChanged(value) => (
            State { new_property_name: value, ..state },
            Action::Nothing,
        ),
        PropertyMessage::NewValueChanged(value) => (
            State { new_property_value: value, ..state },
            Action::Nothing,
        ),
        PropertyMessage::Add => {
            let name = text::trimmed(state.new_property_name);
            let value = state.new_property_value;
            match action::selected_room(scene) {
                Some(key) => if name.len() == 0 {
                    (state, Action::Nothing)
                } else {
                    (
                        State {
                            properties: with_row(state.properties, name, value),
                            new_property_name: Seq::empty(),
                            new_property_value: Seq::empty(),
                            ..state
                        },
                        action::pushed(
                            edits::set_room_property_command(scene.atlas, key, name, value),
                        ),
                    )
                },
                None => (state, Action::Nothing),
            }
        },
    }
}

impl State {
    /// Edits the properties of the selected room. A property needs a name to be added.
    pub fn update_room_property(&mut self, scene: &Scene, message: PropertyMessage) -> (action:
        Action)
        ensures
            (final(self)@, action@) == room_property_updated(old(self)@, *scene, message@),
            action.wf(),
    {
        match message {
            PropertyMessage::ValueChanged(index, value) => {
                if index >= self.properties.len() {
                    return Action::Nothing;
                }
                let name = set_value(&mut self.properties, index, value.clone());
                match scene.selected_room_key() {
                    Some(key) => push(set_room_property(&scene.atlas, key, name, value)),
                    None => Action::Nothing,
                }
            },
            PropertyMessage::Deleted(index) => {
                if index >= self.properties.len() {
                    return Action::Nothing;
                }
                let name = remove_row(&mut self.properties, index);
                match scene.selected_room_key() {
                    Some(key) => push(delete_room_property(&scene.atlas, key, name)),
                    None => Action::Nothing,
                }
            },
            PropertyMessage::NewNameChanged(value) => {
                self.new_property_name = value;
                Action::Nothing
            },
            PropertyMessage::NewValueChanged(value) => {
                self.new_property_value = value;
                Action::Nothing
            },
            PropertyMessage::Add => {
                let name = trim(&self.new_property_name);
                if is_empty_text(&name) {
                    return Action::Nothing;
                }
                let value = self.new_property_value.clone();
                match scene.selected_room_key() {
                    Some(key) => {
                        let command = set_room_property(
                            &scene.atlas,
                            key,
                            name.clone(),
                            value.clone(),
                        );
                        add_row(&mut self.properties, name, value);
                        self.new_property_name = String::new();
                        self.new_property_value = String::new();
                        push(command)
                    },
                    None => Action::Nothing,
                }
            },
        }
    }
}

/// The buffers after an edit of the properties of the area, and what it asks for.
pub open spec fn area_property_updated(
    state: StateView,
    scene: Scene,
    message: PropertyMessage<Seq<char>>,
) -> (StateView, ActionView) {
    match message {
        PropertyMessage::ValueChanged(index, value) => if index < state.area_properties.len() {
            (
                State { area_properties: with_value(state.area_properties, index as int, value), ..state },
                match scene.area_id {
                    Some(key) => action::pushed(
                        edits::set_area_property_command(
                            scene.atlas,
                            key,
                            state.area_properties[index as int].name,
                            value,
                        ),
                    ),
                    None => Action::Nothing,
                },
            )
        } else {
            (state, Action::Nothing)
        },
        PropertyMessage::Deleted(index) => if index < state.area_properties.len() {
            (
                State { area_properties: state.area_properties.remove(index as int), ..state },
                match scene.area_id {
                    Some(key) => action::pushed(
                        edits::delete_area_property_command(
                            scene.atlas,
                            key,
                            state.area_properties[index as int].name,
                        ),
                    ),
                    None => Action::Nothing,
                },
            )
        } else {
            (state, Action::Nothing)
        },
        PropertyMessage::NewNameChanged(value) => (
            State { new_area_property_name: value, ..state },
            Action::Nothing,
        ),
        PropertyMessage::NewValueChanged(value) => (
            State { new_area_property_value: value, ..state },
            Action::Nothing,
        ),
        PropertyMessage::Add => {
            let name = text::trimmed(state.new_area_property_name);
            let value = state.new_area_property_value;
            match scene.area_id {
                Some(key) => if name.len() == 0 {
                    (state, Action::Nothing)
                } else {
                    (
                        State {
                            area_properties: with_row(state.area_properties, name, value),
                            new_area_property_name: Seq::empty(),
                            new_area_property_value: Seq::empty(),
                            ..state
                        },
                        action::pushed(
                            edits::set_area_property_command(scene.atlas, key, name, value),
                        ),
                    )
                },
                None => (state, Action::Nothing),
            }
        },
    }
}

impl State {
    /// Edits the properties of the area. A property needs a name to be added.
    pub fn update_area_property(&mut self, scene: &Scene, message: PropertyMessage) -> (action:
        Action)
        ensures
            (final(self)@, action@) == area_property_updated(old(self)@, *scene, message@),
            action.wf(),
    {
        match message {
            PropertyMessage::ValueChanged(index, value) => {
                if index >= self.area_properties.len() {
                    return Action::Nothing;
                }
                let name = set_value(&mut self.area_properties, index, value.clone());
                match scene.area_id {
                    Some(key) => push(set_area_property(&scene.atlas, key, name, value)),
                    None => Action::Nothing,
                }
            },
            PropertyMessage::Deleted(index) => {
                if index >= self.area_properties.len() {
                    return Action::Nothing;
                }
                let name = remove_row(&mut self.area_properties, index);
                match scene.area_id {
                    Some(key) => push(delete_area_property(&scene.atlas, key, name)),
                    None => Action::Nothing,
                }
            },
            PropertyMessage::NewNameChanged(value) => {
                self.new_area_property_name = value;
                Action::Nothing
            },
            PropertyMessage::NewValueChanged(value) => {
                self.new_area_property_value = value;
                Action::Nothing
            },
            PropertyMessage::Add => {
                let name = trim(&self.new_area_property_name);
                if is_empty_text(&name) {
                    return Action::Nothing;
                }
                let value = self.new_area_property_value.clone();
                match scene.area_id {
                    Some(key) => {
                        let command = set_area_property(
                            &scene.atlas,
                            key,
                            name.clone(),
                            value.clone(),
                        );
                        add_row(&mut self.area_properties, name, value);
                        self.new_area_property_name = String::new();
                        self.new_area_property_value = String::new();
                        push(command)
                    },
                    None => Action::Nothing,
                }
            },
        }
    }
}

// ===== Tags =====

/// An edit of the tags of the selected room.
pub enum TagMessage<T = String> {
    InputChanged(T),
    /// A tag to put on the room, and what is typed in the input, both in the form
    /// in which tags are stored.
    Added { tag: T, typed: T },
    /// A tag to take off the room, in the form in which tags are stored.
    Removed(T),
}

impl View for TagMessage<String> {
    type V = TagMessage<Seq<char>>;

    open spec fn view(&self) -> TagMessage<Seq<char>> {
        match *self {
            TagMessage::InputChanged(value) => TagMessage::InputChanged(value@),
            TagMessage::Added { tag, typed } => TagMessage::Added { tag: tag@, typed: typed@ },
            TagMessage::Removed(tag) => TagMessage::Removed(tag@),
        }
    }
}

/// The buffer of tags with one more, in order.
pub open spec fn tags_with(tags: Seq<Seq<char>>, tag: Seq<char>) -> Seq<Seq<char>> {
    if tags.contains(tag) {
        tags
    } else {
        list::in_order(tags.push(tag), |a: Seq<char>, b: Seq<char>| text::text_less(a, b))
    }
}

/// The buffer of tags without one.
pub open spec fn tags_without(tags: Seq<Seq<char>>, tag: Seq<char>) -> Seq<Seq<char>> {
    list::kept(tags, |other: Seq<char>| other != tag)
}

/// The tags that are left when one is taken out.
pub(crate) proof fn lemma_tags_without(tags: Seq<Seq<char>>, tag: Seq<char>, one: Seq<char>)
    ensures
        tags_without(tags, tag).contains(one) <==> tags.contains(one) && one != tag,
    decreases tags.len(),
{
    if tags.len() > 0 {
        let rest = tags.drop_last();
        lemma_tags_without(rest, tag, one);
        let piece = if tags.last() != tag {
            seq![tags.last()]
        } else {
            Seq::empty()
        };
        assert(tags_without(tags, tag) == tags_without(rest, tag) + piece);
        if tags_without(rest, tag).contains(one) {
            let k = choose|k: int|
                0 <= k < tags_without(rest, tag).len() && tags_without(rest, tag)[k] == one;
            assert(tags_without(tags, tag)[k] == one);
        }
        if rest.contains(one) {
            let k = choose|k: int| 0 <= k < rest.len() && rest[k] == one;
            assert(tags[k] == one);
        }
        if tags.contains(one) {
            let k = choose|k: int| 0 <= k < tags.len() && tags[k] == one;
            if k < rest.len() {
                assert(rest[k] == one);
            } else if one != tag {
                assert(tags_without(tags, tag)[tags_without(rest, tag).len() as int] == one);
            }
        }
        assert(tags[tags.len() - 1] == tags.last());
    }
}

/// The buffers after an edit of tags, and what it asks for.
pub open spec fn tag_updated(
    state: StateView,
    scene: Scene,
    message: TagMessage<Seq<char>>,
) -> (StateView, ActionView) {
    match message {
        TagMessage::InputChanged(value) => (State { new_tag: value, ..state }, Action::Nothing),
        TagMessage::Added { tag, typed } => match action::selected_room(scene) {
            None => (state, Action::Nothing),
            Some(key) => {
                let new_tag = if tag == typed {
                    Seq::empty()
                } else {
                    state.new_tag
                };
                match edits::add_room_tag_command(scene.atlas, key, tag) {
                    None => (State { new_tag, ..state }, Action::Nothing),
                    Some(command) => (
                        State { new_tag, tags: tags_with(state.tags, tag), ..state },
                        action::pushed(Some(command)),
                    ),
                }
            },
        },
        TagMessage::Removed(tag) => match action::selected_room(scene) {
            None => (state, Action::Nothing),
            Some(key) => match edits::remove_room_tag_command(scene.atlas, key, tag) {
                None => (state, Action::Nothing),
                Some(command) => (
                    State { tags: tags_without(state.tags, tag), ..state },
                    action::pushed(Some(command)),
                ),
            },
        },
    }
}

/// Adds a tag to the buffer, in order.
fn add_tag(tags: &mut Vec<String>, tag: String)
    ensures
        text::texts(final(tags)@) == tags_with(text::texts(old(tags)@), tag@),
{
    let ghost before = tags@;
    let held = cache::list_holds(tags, &tag);
    proof {
        if held {
            let i = choose|i: int| 0 <= i < before.len() && (#[trigger] before[i])@ == tag@;
            assert(text::texts(before)[i] == tag@);
        } else if text::texts(before).contains(tag@) {
            let i = choose|i: int|
                0 <= i < before.len() && #[trigger] text::texts(before)[i] == tag@;
            assert(before[i]@ == tag@);
        }
    }
    if !held {
        let mut all: Vec<String> = Vec::new();
        all.append(tags);
        all.push(tag);
        let ghost given = all@;
        assert(text::texts(given) =~= text::texts(before).push(tag@));
        let less = |a: &String, b: &String| -> (r: bool)
            ensures
                r == text::text_less(a@, b@),
        {
            text_before(a, b)
        };
        proof {
            list::lemma_in_order_map(
                given,
                |text: String| text@,
                |a: String, b: String| text::text_less(a@, b@),
                |a: Seq<char>, b: Seq<char>| text::text_less(a, b),
            );
        }
        *tags = sort_by(all, less, Ghost(|a: String, b: String| text::text_less(a@, b@)));
    }
}

/// Takes a tag out of the buffer.
fn drop_tag(tags: &mut Vec<String>, tag: &str)
    ensures
        text::texts(final(tags)@) == tags_without(text::texts(old(tags)@), tag@),
{
    let ghost before = tags@;
    let mut all: Vec<String> = Vec::new();
    all.append(tags);
    assert(all@ =~= before);
    let other = |text: &String| -> (r: bool)
        ensures
            r == (text@ != tag@),
    {
        !same_text(text, tag)
    };
    proof {
        list::lemma_kept_map(
            before,
            |text: String| text@,
            |text: String| text@ != tag@,
            |text: Seq<char>| text != tag@,
        );
    }
    *tags = keep(all, other, Ghost(|text: String| text@ != tag@));
}

impl State {
    /// Edits the tags of the selected room. Adding a tag that the room has
    /// already, or an empty one, only clears the input that holds it.
    pub fn update_tag(&mut self, scene: &Scene, message: TagMessage) -> (action: Action)
        ensures
            (final(self)@, action@) == tag_updated(old(self)@, *scene, message@),
            action.wf(),
    {
        match message {
            TagMessage::InputChanged(value) => {
                self.new_tag = value;
                Action::Nothing
            },
            TagMessage::Added { tag, typed } => {
                let key = match scene.selected_room_key() {
                    Some(key) => key,
                    None => {
                        return Action::Nothing;
                    },
                };
                let command = add_room_tag(&scene.atlas, key, tag.clone());
                if same_text(&tag, &typed) {
                    self.new_tag = String::new();
                }
                match command {
                    None => Action::Nothing,
                    Some(command) => {
                        add_tag(&mut self.tags, tag);
                        push(Some(command))
                    },
                }
            },
            TagMessage::Removed(tag) => {
                let key = match scene.selected_room_key() {
                    Some(key) => key,
                    None => {
                        return Action::Nothing;
                    },
                };
                match remove_room_tag(&scene.atlas, key, tag.clone()) {
                    None => Action::Nothing,
                    Some(command) => {
                        drop_tag(&mut self.tags, &tag);
                        push(Some(command))
                    },
                }
            },
        }
    }
}

// ===== Several rooms =====

/// An edit of all selected rooms.
pub enum BulkMessage<T = String> {
    ColorChanged(T),
    LevelChanged(T),
    /// Apply the color; whether it is one.
    ApplyColor(bool),
    ApplyLevel,
}

impl View for BulkMessage<String> {
    type V = BulkMessage<Seq<char>>;

    open spec fn view(&self) -> BulkMessage<Seq<char>> {
        match *self {
            BulkMessage::ColorChanged(value) => BulkMessage::ColorChanged(value@),
            BulkMessage::LevelChanged(value) => BulkMessage::LevelChanged(value@),
            BulkMessage::ApplyColor(valid) => BulkMessage::ApplyColor(valid),
            BulkMessage::ApplyLevel => BulkMessage::ApplyLevel,
        }
    }
}

/// The buffers after an edit of all selected rooms, and what it asks for. Once
/// applied, the rooms agree.
pub open spec fn bulk_updated(
    state: StateView,
    scene: Scene,
    message: BulkMessage<Seq<char>>,
) -> (StateView, ActionView) {
    let none = RoomUpdates::<Seq<char>>::none();
    match message {
        BulkMessage::ColorChanged(value) => (
            State { bulk_color: value, ..state },
            Action::Nothing,
        ),
        BulkMessage::LevelChanged(value) => (
            State { bulk_level: value, ..state },
            Action::Nothing,
        ),
        BulkMessage::ApplyColor(valid) => match scene.area_id {
            Some(area_id) => if state.bulk_color.len() == 0 || valid {
                (
                    State { bulk_color_mixed: false, ..state },
                    action::pushed(
                        edits::bulk_command(
                            scene.atlas,
                            area_id,
                            scene.selection@,
                            RoomUpdates { color: Some(state.bulk_color), ..none },
                        ),
                    ),
                )
            } else {
                (state, Action::Nothing)
            },
            None => (state, Action::Nothing),
        },
        BulkMessage::ApplyLevel => match (scene.area_id, number_in(state.bulk_level)) {
            (Some(area_id), Some(level)) => (
                State { bulk_level_mixed: false, ..state },
                action::pushed(
                    edits::bulk_command(
                        scene.atlas,
                        area_id,
                        scene.selection@,
                        RoomUpdates { level: Some(level), ..none },
                    ),
                ),
            ),
            _ => (state, Action::Nothing),
        },
    }
}

impl State {
    /// Edits all selected rooms.
    pub fn update_bulk(&mut self, scene: &Scene, message: BulkMessage) -> (action: Action)
        ensures
            (final(self)@, action@) == bulk_updated(old(self)@, *scene, message@),
            action.wf(),
    {
        let mut updates: RoomUpdates = RoomUpdates::default();
        match message {
            BulkMessage::ColorChanged(value) => {
                self.bulk_color = value;
                Action::Nothing
            },
            BulkMessage::LevelChanged(value) => {
                self.bulk_level = value;
                Action::Nothing
            },
            BulkMessage::ApplyColor(valid) => {
                if !is_empty_text(&self.bulk_color) && !valid {
                    return Action::Nothing;
                }
                match scene.area_id {
                    Some(area_id) => {
                        updates.color = Some(self.bulk_color.clone());
                        self.bulk_color_mixed = false;
                        push(bulk_edit_rooms(&scene.atlas, area_id, &scene.selection, &updates))
                    },
                    None => Action::Nothing,
                }
            },
            BulkMessage::ApplyLevel => match (scene.area_id, read_i32(&self.bulk_level)) {
                (Some(area_id), Some(level)) => {
                    updates.level = Some(level);
                    self.bulk_level_mixed = false;
                    push(bulk_edit_rooms(&scene.atlas, area_id, &scene.selection, &updates))
                },
                _ => Action::Nothing,
            },
        }
    }
}

} // verus!
