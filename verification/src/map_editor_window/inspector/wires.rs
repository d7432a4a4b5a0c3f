//! Editing exits and connections.

use vstd::prelude::*;

use super::super::commands::{Command, CommandView, FieldId};
use super::super::creation::{self, add_default_exit};
use super::super::edits;
use super::super::links::{self, delete_exit, edit_exit_field};
use super::super::model::{AreaId, AtlasCache, ExitDirection, ExitId, ExitUpdates, RoomKey, RoomNumber, Scalar};
use super::action::{self, push, Action, ActionView, Scene};
use super::rooms;
use super::state::{self, ExitRow, State, StateView};
use crate::text::{self, is_empty_text, read_i32, trim};

verus! {

/// A field of an exit and what was put into it. A typed number carries its value.
pub enum ExitField<T = String> {
    FromDirection(ExitDirection),
    ToArea(AreaId),
    ToRoom(T),
    ToDirection(ExitDirection),
    Path(T),
    Command(T),
    Weight(T, Option<Scalar>),
    Hidden(bool),
    Closed(bool),
    Locked(bool),
}

impl View for ExitField<String> {
    type V = ExitField<Seq<char>>;

    open spec fn view(&self) -> ExitField<Seq<char>> {
        match *self {
            ExitField::FromDirection(direction) => ExitField::FromDirection(direction),
            ExitField::ToArea(area_id) => ExitField::ToArea(area_id),
            ExitField::ToRoom(text) => ExitField::ToRoom(text@),
            ExitField::ToDirection(direction) => ExitField::ToDirection(direction),
            ExitField::Path(text) => ExitField::Path(text@),
            ExitField::Command(text) => ExitField::Command(text@),
            ExitField::Weight(text, value) => ExitField::Weight(text@, value),
            ExitField::Hidden(flag) => ExitField::Hidden(flag),
            ExitField::Closed(flag) => ExitField::Closed(flag),
            ExitField::Locked(flag) => ExitField::Locked(flag),
        }
    }
}

/// The room that a typed destination names: none when nothing is typed, and
/// nothing at all when it is no number.
pub open spec fn typed_room(text: Seq<char>) -> Option<Option<RoomNumber>> {
    if text::trimmed(text).len() == 0 {
        Some(None)
    } else {
        match rooms::number_in(text::trimmed(text)) {
            Some(number) => Some(Some(RoomNumber(number))),
            None => None,
        }
    }
}

/// An empty text as none.
pub open spec fn unless_empty(text: Seq<char>) -> Option<Seq<char>> {
    if text.len() == 0 {
        None
    } else {
        Some(text)
    }
}

/// The field that an edit coalesces by.
pub open spec fn exit_field_id<T>(field: ExitField<T>) -> FieldId {
    match field {
        ExitField::FromDirection(_) => FieldId::FromDirection,
        ExitField::ToArea(_) | ExitField::ToRoom(_) | ExitField::ToDirection(_) =>
            FieldId::Destination,
        ExitField::Path(_) => FieldId::Path,
        ExitField::Command(_) => FieldId::Command,
        ExitField::Weight(_, _) => FieldId::Weight,
        ExitField::Hidden(_) | ExitField::Closed(_) | ExitField::Locked(_) => FieldId::Flags,
    }
}

/// Whether what was put into a field is valid.
pub open spec fn is_valid_exit_field(field: ExitField<Seq<char>>) -> bool {
    match field {
        ExitField::ToRoom(text) => typed_room(text) is Some,
        ExitField::Weight(_, value) => value is Some,
        _ => true,
    }
}

/// An exit with another value in a field. Emptying the destination room takes the
/// whole destination away: it cannot be blanked alone.
pub open spec fn exit_changed(
    updates: ExitUpdates<Seq<char>>,
    field: ExitField<Seq<char>>,
) -> ExitUpdates<Seq<char>> {
    match field {
        ExitField::FromDirection(direction) => ExitUpdates {
            from_direction: Some(direction),
            ..updates
        },
        ExitField::ToArea(area_id) => ExitUpdates { to_area_id: Some(area_id), ..updates },
        ExitField::ToRoom(text) => match typed_room(text) {
            Some(Some(number)) => ExitUpdates { to_room_number: Some(number), ..updates },
            Some(None) => ExitUpdates {
                to_room_number: None,
                to_area_id: None,
                to_direction: None,
                ..updates
            },
            None => updates,
        },
        ExitField::ToDirection(direction) => ExitUpdates {
            to_direction: Some(direction),
            ..updates
        },
        ExitField::Path(text) => ExitUpdates { path: unless_empty(text), ..updates },
        ExitField::Command(text) => ExitUpdates { command: unless_empty(text), ..updates },
        ExitField::Weight(_, value) => match value {
            Some(weight) => ExitUpdates { weight: Some(weight), ..updates },
            None => updates,
        },
        ExitField::Hidden(flag) => ExitUpdates { is_hidden: Some(flag), ..updates },
        ExitField::Closed(flag) => ExitUpdates { is_closed: Some(flag), ..updates },
        ExitField::Locked(flag) => ExitUpdates { is_locked: Some(flag), ..updates },
    }
}

/// The row of an exit with what was put into a field.
pub open spec fn row_changed(
    row: ExitRow<Seq<char>>,
    field: ExitField<Seq<char>>,
) -> ExitRow<Seq<char>> {
    match field {
        ExitField::FromDirection(direction) => ExitRow { from_direction: direction, ..row },
        ExitField::ToArea(area_id) => ExitRow { to_area: Some(area_id), ..row },
        ExitField::ToRoom(text) => if typed_room(text) == Some(None::<RoomNumber>) {
            ExitRow { to_room: text, to_area: None, to_direction: None, ..row }
        } else {
            ExitRow { to_room: text, ..row }
        },
        ExitField::ToDirection(direction) => ExitRow { to_direction: Some(direction), ..row },
        ExitField::Path(text) => ExitRow { path: text, ..row },
        ExitField::Command(text) => ExitRow { command: text, ..row },
        ExitField::Weight(text, _) => ExitRow { weight: text, ..row },
        ExitField::Hidden(flag) => ExitRow { is_hidden: flag, ..row },
        ExitField::Closed(flag) => ExitRow { is_closed: flag, ..row },
        ExitField::Locked(flag) => ExitRow { is_locked: flag, ..row },
    }
}

/// The room of an exit row: the selected one, or that the exit leaves.
pub open spec fn row_room(scene: Scene, from_room: RoomNumber) -> Option<RoomKey> {
    match action::selected_room(scene) {
        Some(key) => Some(key),
        None => match scene.area_id {
            Some(area_id) => Some(RoomKey { area_id, room_number: from_room }),
            None => None,
        },
    }
}

/// The command that changes a field of an exit.
pub open spec fn exit_command(
    atlas: AtlasCache,
    key: RoomKey,
    exit_id: ExitId,
    field: ExitField<Seq<char>>,
) -> Option<CommandView> {
    match links::cached_exit(atlas, key, exit_id) {
        None => None,
        Some(exit) => Some(
            links::exit_field_command(
                exit,
                key,
                exit_id,
                exit_field_id(field),
                exit_changed(links::exit_snapshot(exit), field),
            ),
        ),
    }
}

/// An edit of the exits shown.
pub enum ExitMessage<T = String> {
    Edited(usize, ExitField<T>),
    Deleted(usize),
    Add,
}

impl View for ExitMessage<String> {
    type V = ExitMessage<Seq<char>>;

    open spec fn view(&self) -> ExitMessage<Seq<char>> {
        match *self {
            ExitMessage::Edited(index, field) => ExitMessage::Edited(index, field@),
            ExitMessage::Deleted(index) => ExitMessage::Deleted(index),
            ExitMessage::Add => ExitMessage::Add,
        }
    }
}

/// The buffers after an edit of an exit, and what it asks for. An exit whose
/// destination is withheld is not deleted: undo could only bring it back without
/// one.
pub open spec fn exit_updated(
    state: StateView,
    scene: Scene,
    message: ExitMessage<Seq<char>>,
) -> (StateView, ActionView) {
    match message {
        ExitMessage::Edited(index, field) => if index < state.exits.len() {
            let row = state.exits[index as int];
            (
                State {
                    exits: state.exits.update(index as int, row_changed(row, field)),
                    ..state
                },
                match row_room(scene, row.from_room) {
                    Some(key) => if is_valid_exit_field(field) {
                        action::pushed(exit_command(scene.atlas, key, row.id, field))
                    } else {
                        Action::Nothing
                    },
                    None => Action::Nothing,
                },
            )
        } else {
            (state, Action::Nothing)
        },
        ExitMessage::Deleted(index) => if index < state.exits.len()
            && !state.exits[index as int].to_unknown {
            let row = state.exits[index as int];
            (
                State { exits: state.exits.remove(index as int), ..state },
                match row_room(scene, row.from_room) {
                    Some(key) => action::pushed(
                        links::delete_exit_command(scene.atlas, key, row.id),
                    ),
                    None => Action::Nothing,
                },
            )
        } else {
            (state, Action::Nothing)
        },
        ExitMessage::Add => match action::selected_room(scene) {
            Some(key) => (
                state,
                action::pushed(
                    Some(creation::default_exit_command(key.area_id, key.room_number)),
                ),
            ),
            None => (state, Action::Nothing),
        },
    }
}

/// The room that a typed destination names.
fn read_room(text: &str) -> (room: Option<Option<RoomNumber>>)
    ensures
        room == typed_room(text@),
{
    let shorter = trim(text);
    if is_empty_text(&shorter) {
        Some(None)
    } else {
        match read_i32(&shorter) {
            Some(number) => Some(Some(RoomNumber(number))),
            None => None,
        }
    }
}

/// An empty text as none.
fn none_if_empty(text: String) -> (kept: Option<String>)
    ensures
        text::opt_text(kept) == unless_empty(text@),
{
    if is_empty_text(&text) {
        None
    } else {
        Some(text)
    }
}

/// Puts another value into a field of an exit.
fn change_exit(updates: ExitUpdates, field: &ExitField) -> (changed: ExitUpdates)
    ensures
        changed@ == exit_changed(updates@, field@),
{
    let mut changed = updates;
    match field {
        ExitField::FromDirection(direction) => changed.from_direction = Some(*direction),
        ExitField::ToArea(area_id) => changed.to_area_id = Some(*area_id),
        ExitField::ToRoom(text) => match read_room(text) {
            Some(Some(number)) => changed.to_room_number = Some(number),
            Some(None) => {
                changed.to_room_number = None;
                changed.to_area_id = None;
                changed.to_direction = None;
            },
            None => {},
        },
        ExitField::ToDirection(direction) => changed.to_direction = Some(*direction),
        ExitField::Path(text) => changed.path = none_if_empty(text.clone()),
        ExitField::Command(text) => changed.command = none_if_empty(text.clone()),
        ExitField::Weight(_, value) => match value {
            Some(weight) => changed.weight = Some(*weight),
            None => {},
        },
        ExitField::Hidden(flag) => changed.is_hidden = Some(*flag),
        ExitField::Closed(flag) => changed.is_closed = Some(*flag),
        ExitField::Locked(flag) => changed.is_locked = Some(*flag),
    }
    changed
}

/// Puts what was typed into the row of an exit.
fn change_row(row: &mut ExitRow, field: &ExitField)
    ensures
        final(row)@ == row_changed(old(row)@, field@),
{
    match field {
        ExitField::FromDirection(direction) => row.from_direction = *direction,
        ExitField::ToArea(area_id) => row.to_area = Some(*area_id),
        ExitField::ToRoom(text) => {
            row.to_room = text.clone();
            if let Some(None) = read_room(text) {
                row.to_area = None;
                row.to_direction = None;
            }
        },
        ExitField::ToDirection(direction) => row.to_direction = Some(*direction),
        ExitField::Path(text) => row.path = text.clone(),
        ExitField::Command(text) => row.command = text.clone(),
        ExitField::Weight(text, _) => row.weight = text.clone(),
        ExitField::Hidden(flag) => row.is_hidden = *flag,
        ExitField::Closed(flag) => row.is_closed = *flag,
        ExitField::Locked(flag) => row.is_locked = *flag,
    }
}

/// The field that an edit coalesces by.
fn coalesced_field(field: &ExitField) -> (id: FieldId)
    ensures
        id == exit_field_id(field@),
{
    match field {
        ExitField::FromDirection(_) => FieldId::FromDirection,
        ExitField::ToArea(_) | ExitField::ToRoom(_) | ExitField::ToDirection(_) =>
            FieldId::Destination,
        ExitField::Path(_) => FieldId::Path,
        ExitField::Command(_) => FieldId::Command,
        ExitField::Weight(_, _) => FieldId::Weight,
        ExitField::Hidden(_) | ExitField::Closed(_) | ExitField::Locked(_) => FieldId::Flags,
    }
}

/// Whether what was put into a field is valid.
fn valid_exit_field(field: &ExitField) -> (valid: bool)
    ensures
        valid == is_valid_exit_field(field@),
{
    match field {
        ExitField::ToRoom(text) => read_room(text).is_some(),
        ExitField::Weight(_, value) => value.is_some(),
        _ => true,
    }
}

/// The room of an exit row.
fn room_of_row(scene: &Scene, from_room: RoomNumber) -> (key: Option<RoomKey>)
    ensures
        key == row_room(*scene, from_room),
{
    match scene.selected_room_key() {
        Some(key) => Some(key),
        None => match scene.area_id {
            Some(area_id) => Some(RoomKey { area_id, room_number: from_room }),
            None => None,
        },
    }
}

/// The command that changes a field of an exit.
fn change_exit_field(atlas: &AtlasCache, key: RoomKey, exit_id: ExitId, field: &ExitField) -> (command:
    Option<Command>)
    ensures
        edits::opt_command(command) == exit_command(*atlas, key, exit_id, field@),
        command matches Some(command) ==> command.wf(),
{
    let change = |updates: ExitUpdates| -> (changed: ExitUpdates)
        ensures
            changed@ == exit_changed(updates@, field@),
    {
        change_exit(updates, field)
    };
    edit_exit_field(atlas, key, exit_id, coalesced_field(field), change)
}

impl State {
    /// Edits an exit, removes one, or adds one to the selected room.
    pub fn update_exit(&mut self, scene: &Scene, message: ExitMessage) -> (action: Action)
        ensures
            (final(self)@, action@) == exit_updated(old(self)@, *scene, message@),
            action.wf(),
    {
        let ghost before = self.exits@;
        match message {
            ExitMessage::Edited(index, field) => {
                if index >= self.exits.len() {
                    return Action::Nothing;
                }
                let id = self.exits[index].id;
                let from_room = self.exits[index].from_room;
                change_row(&mut self.exits[index], &field);
                assert(state::exit_rows(self.exits@) =~= state::exit_rows(before).update(
                    index as int,
                    row_changed(before[index as int]@, field@),
                ));
                match room_of_row(scene, from_room) {
                    Some(key) => if valid_exit_field(&field) {
                        push(change_exit_field(&scene.atlas, key, id, &field))
                    } else {
                        Action::Nothing
                    },
                    None => Action::Nothing,
                }
            },
            ExitMessage::Deleted(index) => {
                if index >= self.exits.len() || self.exits[index].to_unknown {
                    return Action::Nothing;
                }
                let row = self.exits.remove(index);
                assert(state::exit_rows(self.exits@) =~= state::exit_rows(before).remove(
                    index as int,
                ));
                match room_of_row(scene, row.from_room) {
                    Some(key) => push(delete_exit(&scene.atlas, key, row.id)),
                    None => Action::Nothing,
                }
            },
            ExitMessage::Add => match scene.selected_room_key() {
                Some(key) => push(Some(add_default_exit(key.area_id, key.room_number))),
                None => Action::Nothing,
            },
        }
    }
}

} // verus!
