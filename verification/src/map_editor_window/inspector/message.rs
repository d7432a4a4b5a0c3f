//! The inspector's messages.

use vstd::prelude::*;

use super::super::model::{AreaId, Point};
use super::super::cache;
use super::action::{self, Action, ActionView, Scene};
use super::connections::{self, ConnectionMessage};
use super::drawings::{self, LabelMessage, ShapeMessage};
use super::rooms::{self, BulkMessage, PropertyMessage, RoomMessage, TagMessage};
use super::secrets::{
    self, empty_secret_marks_request, format_marks_notice, retain_changing_marks, secret_marks_request_is_empty,
    RequestView, RoomPropertyRef, SecretMarksRequest, SecretMarksResult,
};
use super::state::{self, ColorField, ConnectionDefaults, ExitRow, PropertyRow, State, StateView};
use super::wires::{self, ExitMessage};

verus! {

// ===== Secrecy =====

/// Why a request for secret marks failed.
pub enum MarksFailure<T = String> {
    /// What it named is missing, or the user may not change it; the server does
    /// not say which.
    NotFoundOrNoAccess,
    Other(T),
}

impl View for MarksFailure<String> {
    type V = MarksFailure<Seq<char>>;

    open spec fn view(&self) -> MarksFailure<Seq<char>> {
        match *self {
            MarksFailure::NotFoundOrNoAccess => MarksFailure::NotFoundOrNoAccess,
            MarksFailure::Other(text) => MarksFailure::Other(text@),
        }
    }
}

/// A change of secrecy.
#[allow(inconsistent_fields)]
pub enum SecretMessage<T = String, Q = SecretMarksRequest> {
    RoomToggled(bool),
    ExitToggled(usize, bool),
    LabelToggled(bool),
    ShapeToggled(bool),
    RoomPropertyToggled(usize, bool),
    AreaPropertyToggled(usize, bool),
    BulkMark(bool),
    /// The server answered a request.
    Completed {
        area_id: AreaId,
        request: Q,
        bulk: bool,
        result: Result<SecretMarksResult, MarksFailure<T>>,
    },
}

/// The view of an answer.
pub open spec fn answer(
    result: Result<SecretMarksResult, MarksFailure>,
) -> Result<SecretMarksResult, MarksFailure<Seq<char>>> {
    match result {
        Ok(counts) => Ok(counts),
        Err(failure) => Err(failure@),
    }
}

impl View for SecretMessage<String, SecretMarksRequest> {
    type V = SecretMessage<Seq<char>, RequestView>;

    open spec fn view(&self) -> SecretMessage<Seq<char>, RequestView> {
        match *self {
            SecretMessage::RoomToggled(secret) => SecretMessage::RoomToggled(secret),
            SecretMessage::ExitToggled(index, secret) => SecretMessage::ExitToggled(index, secret),
            SecretMessage::LabelToggled(secret) => SecretMessage::LabelToggled(secret),
            SecretMessage::ShapeToggled(secret) => SecretMessage::ShapeToggled(secret),
            SecretMessage::RoomPropertyToggled(index, secret) =>
                SecretMessage::RoomPropertyToggled(index, secret),
            SecretMessage::AreaPropertyToggled(index, secret) =>
                SecretMessage::AreaPropertyToggled(index, secret),
            SecretMessage::BulkMark(secret) => SecretMessage::BulkMark(secret),
            SecretMessage::Completed { area_id, request, bulk, result } =>
                SecretMessage::Completed { area_id, request: request@, bulk, result: answer(result) },
        }
    }
}

/// What asking for secret marks does. Nothing happens without clearance; the
/// lines about the last request go; what would not change is left out, and a
/// request for nothing is not sent.
pub open spec fn marks_asked(
    state: StateView,
    scene: Scene,
    area_id: AreaId,
    request: RequestView,
    bulk: bool,
) -> (StateView, ActionView) {
    let left = secrets::changing(scene.atlas, area_id, request);
    if !scene.cleared {
        (state, Action::Nothing)
    } else if secrets::is_no_marks(left) {
        (
            State {
                secret_error: None,
                secret_notice: if bulk {
                    Some("Nothing changed"@)
                } else {
                    None
                },
                ..state
            },
            Action::Nothing,
        )
    } else {
        (
            State { secret_error: None, secret_notice: None, ..state },
            Action::SendMarks { area_id, request: left, bulk },
        )
    }
}

/// Rows of exits with another secrecy in one.
pub open spec fn exits_marked(
    rows: Seq<ExitRow<Seq<char>>>,
    index: int,
    secret: bool,
) -> Seq<ExitRow<Seq<char>>> {
    rows.update(index, ExitRow { is_secret: secret, ..rows[index] })
}

/// Rows of properties with another secrecy in one.
pub open spec fn rows_marked(
    rows: Seq<PropertyRow<Seq<char>>>,
    index: int,
    secret: bool,
) -> Seq<PropertyRow<Seq<char>>> {
    rows.update(index, PropertyRow { is_secret: secret, ..rows[index] })
}

/// The line about a failed request.
pub open spec fn failure_line(failure: MarksFailure<Seq<char>>) -> Seq<char> {
    match failure {
        MarksFailure::NotFoundOrNoAccess => "You can't change secrets here."@,
        MarksFailure::Other(text) => text,
    }
}

/// The buffers after a change of secrecy, and what it asks for. Marking the
/// selection marks the rooms, labels and shapes in it, not the exits of its
/// rooms.
pub open spec fn secret_updated(
    state: StateView,
    scene: Scene,
    message: SecretMessage<Seq<char>, RequestView>,
) -> (StateView, ActionView) {
    match message {
        SecretMessage::RoomToggled(secret) => match action::selected_room(scene) {
            Some(key) => marks_asked(
                State { is_secret: secret, ..state },
                scene,
                key.area_id,
                RequestView { rooms: seq![key.room_number], ..secrets::no_marks(secret) },
                false,
            ),
            None => (state, Action::Nothing),
        },
        SecretMessage::ExitToggled(index, secret) => match action::selected_room(scene) {
            Some(key) => if index < state.exits.len() {
                marks_asked(
                    State { exits: exits_marked(state.exits, index as int, secret), ..state },
                    scene,
                    key.area_id,
                    RequestView {
                        exits: seq![state.exits[index as int].id],
                        ..secrets::no_marks(secret)
                    },
                    false,
                )
            } else {
                (state, Action::Nothing)
            },
            None => (state, Action::Nothing),
        },
        SecretMessage::LabelToggled(secret) => match action::selected_label(scene) {
            Some((area_id, id)) => marks_asked(
                State { is_secret: secret, ..state },
                scene,
                area_id,
                RequestView { labels: seq![id], ..secrets::no_marks(secret) },
                false,
            ),
            None => (state, Action::Nothing),
        },
        SecretMessage::ShapeToggled(secret) => match action::selected_shape(scene) {
            Some((area_id, id)) => marks_asked(
                State { is_secret: secret, ..state },
                scene,
                area_id,
                RequestView { shapes: seq![id], ..secrets::no_marks(secret) },
                false,
            ),
            None => (state, Action::Nothing),
        },
        SecretMessage::RoomPropertyToggled(index, secret) => match action::selected_room(scene) {
            Some(key) => if index < state.properties.len() {
                marks_asked(
                    State {
                        properties: rows_marked(state.properties, index as int, secret),
                        ..state
                    },
                    scene,
                    key.area_id,
                    RequestView {
                        room_properties: seq![
                            RoomPropertyRef {
                                room_number: key.room_number,
                                name: state.properties[index as int].name,
                            },
                        ],
                        ..secrets::no_marks(secret)
                    },
                    false,
                )
            } else {
                (state, Action::Nothing)
            },
            None => (state, Action::Nothing),
        },
        SecretMessage::AreaPropertyToggled(index, secret) => match scene.area_id {
            Some(area_id) => if index < state.area_properties.len() {
                marks_asked(
                    State {
                        area_properties: rows_marked(state.area_properties, index as int, secret),
                        ..state
                    },
                    scene,
                    area_id,
                    RequestView {
                        area_properties: seq![state.area_properties[index as int].name],
                        ..secrets::no_marks(secret)
                    },
                    false,
                )
            } else {
                (state, Action::Nothing)
            },
            None => (state, Action::Nothing),
        },
        SecretMessage::BulkMark(secret) => match scene.area_id {
            Some(area_id) => {
                let request = RequestView {
                    rooms: cache::selected_rooms(scene.selection@),
                    labels: cache::selected_labels(scene.selection@),
                    shapes: cache::selected_shapes(scene.selection@),
                    ..secrets::no_marks(secret)
                };
                if secrets::is_no_marks(request) {
                    (state, Action::Nothing)
                } else {
                    marks_asked(state, scene, area_id, request, true)
                }
            },
            None => (state, Action::Nothing),
        },
        SecretMessage::Completed { area_id, request, bulk, result } => match result {
            Ok(counts) => (
                State {
                    secret_notice: if bulk {
                        Some(secrets::marks_notice(counts, request.secret))
                    } else {
                        state.secret_notice
                    },
                    ..state
                },
                Action::SyncNow,
            ),
            Err(failure) => (
                State { secret_error: Some(failure_line(failure)), ..state },
                Action::RevertMarks { area_id, request, secret: !request.secret },
            ),
        },
    }
}

/// Marks a row of properties and hands out the row's name.
fn mark_row(rows: &mut Vec<PropertyRow>, index: usize, secret: bool) -> (name: String)
    requires
        index < old(rows).len(),
    ensures
        state::property_rows(final(rows)@) == rows_marked(
            state::property_rows(old(rows)@),
            index as int,
            secret,
        ),
        name@ == old(rows)@[index as int].name@,
{
    let ghost before = rows@;
    let name = rows[index].name.clone();
    let row = &mut rows[index];
    row.is_secret = secret;
    assert(state::property_rows(rows@) =~= rows_marked(
        state::property_rows(before),
        index as int,
        secret,
    ));
    name
}

impl State {
    /// Asks for secret marks.
    pub fn send_secret_marks(
        &mut self,
        scene: &Scene,
        area_id: AreaId,
        request: SecretMarksRequest,
        bulk: bool,
    ) -> (action: Action)
        ensures
            (final(self)@, action@) == marks_asked(old(self)@, *scene, area_id, request@, bulk),
            action.wf(),
    {
        if !scene.cleared {
            return Action::Nothing;
        }
        self.secret_error = None;
        self.secret_notice = None;
        let left = retain_changing_marks(&scene.atlas, area_id, request);
        if secret_marks_request_is_empty(&left) {
            if bulk {
                self.secret_notice = Some("Nothing changed".to_owned());
            }
            return Action::Nothing;
        }
        Action::SendMarks { area_id, request: left, bulk }
    }

    /// Changes the secrecy of something.
    pub fn update_secret(&mut self, scene: &Scene, message: SecretMessage) -> (action: Action)
        ensures
            (final(self)@, action@) == secret_updated(old(self)@, *scene, message@),
            action.wf(),
    {
        match message {
            SecretMessage::RoomToggled(secret) => match scene.selected_room_key() {
                Some(key) => {
                    self.is_secret = secret;
                    let mut request = empty_secret_marks_request(secret);
                    request.rooms.push(key.room_number);
                    assert(request@.rooms =~= seq![key.room_number]);
                    self.send_secret_marks(scene, key.area_id, request, false)
                },
                None => Action::Nothing,
            },
            SecretMessage::ExitToggled(index, secret) => match scene.selected_room_key() {
                Some(key) => {
                    if index >= self.exits.len() {
                        return Action::Nothing;
                    }
                    let ghost before = self.exits@;
                    let id = self.exits[index].id;
                    let row = &mut self.exits[index];
                    row.is_secret = secret;
                    assert(state::exit_rows(self.exits@) =~= exits_marked(
                        state::exit_rows(before),
                        index as int,
                        secret,
                    ));
                    let mut request = empty_secret_marks_request(secret);
                    request.exits.push(id);
                    assert(request@.exits =~= seq![id]);
                    self.send_secret_marks(scene, key.area_id, request, false)
                },
                None => Action::Nothing,
            },
            SecretMessage::LabelToggled(secret) => match scene.selected_label_id() {
                Some((area_id, id)) => {
                    self.is_secret = secret;
                    let mut request = empty_secret_marks_request(secret);
                    request.labels.push(id);
                    assert(request@.labels =~= seq![id]);
                    self.send_secret_marks(scene, area_id, request, false)
                },
                None => Action::Nothing,
            },
            SecretMessage::ShapeToggled(secret) => match scene.selected_shape_id() {
                Some((area_id, id)) => {
                    self.is_secret = secret;
                    let mut request = empty_secret_marks_request(secret);
                    request.shapes.push(id);
                    assert(request@.shapes =~= seq![id]);
                    self.send_secret_marks(scene, area_id, request, false)
                },
                None => Action::Nothing,
            },
            SecretMessage::RoomPropertyToggled(index, secret) => match scene.selected_room_key() {
                Some(key) => {
                    if index >= self.properties.len() {
                        return Action::Nothing;
                    }
                    let name = mark_row(&mut self.properties, index, secret);
                    let mut request = empty_secret_marks_request(secret);
                    let property = RoomPropertyRef { room_number: key.room_number, name };
                    request.room_properties.push(property);
                    assert(request@.room_properties =~= seq![property@]);
                    self.send_secret_marks(scene, key.area_id, request, false)
                },
                None => Action::Nothing,
            },
            SecretMessage::AreaPropertyToggled(index, secret) => match scene.area_id {
                Some(area_id) => {
                    if index >= self.area_properties.len() {
                        return Action::Nothing;
                    }
                    let name = mark_row(&mut self.area_properties, index, secret);
                    let mut request = empty_secret_marks_request(secret);
                    request.area_properties.push(name);
                    assert(request@.area_properties =~= seq![name@]);
                    self.send_secret_marks(scene, area_id, request, false)
                },
                None => Action::Nothing,
            },
            SecretMessage::BulkMark(secret) => match scene.area_id {
                Some(area_id) => {
                    let mut request = empty_secret_marks_request(secret);
                    request.rooms = scene.selection.rooms();
                    request.labels = scene.selection.labels();
                    request.shapes = scene.selection.shapes();
                    if secret_marks_request_is_empty(&request) {
                        return Action::Nothing;
                    }
                    self.send_secret_marks(scene, area_id, request, true)
                },
                None => Action::Nothing,
            },
            SecretMessage::Completed { area_id, request, bulk, result } => match result {
                Ok(counts) => {
                    if bulk {
                        self.secret_notice = Some(format_marks_notice(counts, request.secret));
                    }
                    Action::SyncNow
                },
                Err(failure) => {
                    self.secret_error = Some(
                        match failure {
                            MarksFailure::NotFoundOrNoAccess => {
                                "You can't change secrets here.".to_owned()
                            },
                            MarksFailure::Other(text) => text,
                        },
                    );
                    let secret = !request.secret;
                    Action::RevertMarks { area_id, request, secret }
                },
            },
        }
    }
}

// ===== Colors =====

/// A use of the color picker.
pub enum PickerMessage<T = String> {
    Toggled(ColorField),
    /// A color under way, which nothing takes yet.
    Preview,
    /// A color that was picked, and whether it is one.
    Committed(T, bool),
}

impl View for PickerMessage<String> {
    type V = PickerMessage<Seq<char>>;

    open spec fn view(&self) -> PickerMessage<Seq<char>> {
        match *self {
            PickerMessage::Toggled(field) => PickerMessage::Toggled(field),
            PickerMessage::Preview => PickerMessage::Preview,
            PickerMessage::Committed(hex, valid) => PickerMessage::Committed(hex@, valid),
        }
    }
}

/// The buffers after a use of the color picker, and what it asks for: what was
/// picked is an edit of the field that the picker is open for.
pub open spec fn picker_updated(
    state: StateView,
    scene: Scene,
    message: PickerMessage<Seq<char>>,
) -> (StateView, ActionView) {
    match message {
        PickerMessage::Toggled(field) => (
            State {
                picker: if state.picker == Some(field) {
                    None
                } else {
                    Some(field)
                },
                ..state
            },
            Action::Nothing,
        ),
        PickerMessage::Preview => (state, Action::Nothing),
        PickerMessage::Committed(hex, valid) => match state.picker {
            None => (state, Action::Nothing),
            Some(ColorField::Room) => rooms::room_updated(
                state,
                scene,
                RoomMessage::Color(hex, valid),
            ),
            Some(ColorField::Bulk) => rooms::bulk_updated(
                State { bulk_color: hex, ..state },
                scene,
                BulkMessage::ApplyColor(valid),
            ),
            Some(ColorField::LabelText) => drawings::label_updated(
                state,
                scene,
                LabelMessage::Color(hex, valid),
            ),
            Some(ColorField::LabelBackground) => drawings::label_updated(
                state,
                scene,
                LabelMessage::Background(hex, valid),
            ),
            Some(ColorField::ShapeFill) => drawings::shape_updated(
                state,
                scene,
                ShapeMessage::Background(hex, valid),
            ),
            Some(ColorField::ShapeStroke) => drawings::shape_updated(
                state,
                scene,
                ShapeMessage::StrokeColor(hex, valid),
            ),
        },
    }
}

impl State {
    /// Opens or closes the color picker, or takes a color from it.
    pub fn update_picker(&mut self, scene: &Scene, message: PickerMessage) -> (action: Action)
        ensures
            (final(self)@, action@) == picker_updated(old(self)@, *scene, message@),
            action.wf(),
    {
        match message {
            PickerMessage::Toggled(field) => {
                let open = match self.picker {
                    Some(open) => open == field,
                    None => false,
                };
                self.picker = if open {
                    None
                } else {
                    Some(field)
                };
                Action::Nothing
            },
            PickerMessage::Preview => Action::Nothing,
            PickerMessage::Committed(hex, valid) => match self.picker {
                None => Action::Nothing,
                Some(ColorField::Room) => self.update_room(scene, RoomMessage::Color(hex, valid)),
                Some(ColorField::Bulk) => {
                    self.bulk_color = hex;
                    self.update_bulk(scene, BulkMessage::ApplyColor(valid))
                },
                Some(ColorField::LabelText) => self.update_label(
                    scene,
                    LabelMessage::Color(hex, valid),
                ),
                Some(ColorField::LabelBackground) => self.update_label(
                    scene,
                    LabelMessage::Background(hex, valid),
                ),
                Some(ColorField::ShapeFill) => self.update_shape(
                    scene,
                    ShapeMessage::Background(hex, valid),
                ),
                Some(ColorField::ShapeStroke) => self.update_shape(
                    scene,
                    ShapeMessage::StrokeColor(hex, valid),
                ),
            },
        }
    }
}

// ===== All of them =====

/// A message to the inspector. Moves of ports are apart: see
/// [`State::move_port`].
pub enum Message<T = String, R = Vec<Point>, Q = SecretMarksRequest> {
    Room(RoomMessage<T>),
    RoomProperty(PropertyMessage<T>),
    AreaProperty(PropertyMessage<T>),
    Tag(TagMessage<T>),
    Bulk(BulkMessage<T>),
    Exit(ExitMessage<T>),
    Connection(ConnectionMessage<T, R>),
    Label(LabelMessage<T>),
    Shape(ShapeMessage<T>),
    Picker(PickerMessage<T>),
    Secret(SecretMessage<T, Q>),
}

impl View for Message<String, Vec<Point>, SecretMarksRequest> {
    type V = Message<Seq<char>, Seq<Point>, RequestView>;

    open spec fn view(&self) -> Message<Seq<char>, Seq<Point>, RequestView> {
        match *self {
            Message::Room(message) => Message::Room(message@),
            Message::RoomProperty(message) => Message::RoomProperty(message@),
            Message::AreaProperty(message) => Message::AreaProperty(message@),
            Message::Tag(message) => Message::Tag(message@),
            Message::Bulk(message) => Message::Bulk(message@),
            Message::Exit(message) => Message::Exit(message@),
            Message::Connection(message) => Message::Connection(message@),
            Message::Label(message) => Message::Label(message@),
            Message::Shape(message) => Message::Shape(message@),
            Message::Picker(message) => Message::Picker(message@),
            Message::Secret(message) => Message::Secret(message@),
        }
    }
}

/// The buffers after a message, and what it asks for.
pub open spec fn updated(
    state: StateView,
    scene: Scene,
    defaults: ConnectionDefaults,
    message: Message<Seq<char>, Seq<Point>, RequestView>,
) -> (StateView, ActionView) {
    match message {
        Message::Room(message) => rooms::room_updated(state, scene, message),
        Message::RoomProperty(message) => rooms::room_property_updated(state, scene, message),
        Message::AreaProperty(message) => rooms::area_property_updated(state, scene, message),
        Message::Tag(message) => rooms::tag_updated(state, scene, message),
        Message::Bulk(message) => rooms::bulk_updated(state, scene, message),
        Message::Exit(message) => wires::exit_updated(state, scene, message),
        Message::Connection(message) => connections::connection_updated(
            state,
            scene,
            defaults,
            message,
        ),
        Message::Label(message) => drawings::label_updated(state, scene, message),
        Message::Shape(message) => drawings::shape_updated(state, scene, message),
        Message::Picker(message) => picker_updated(state, scene, message),
        Message::Secret(message) => secret_updated(state, scene, message),
    }
}

impl State {
    /// Takes a message: updates the buffers and says what is left to do.
    pub fn update_inspector(
        &mut self,
        scene: &Scene,
        defaults: &ConnectionDefaults,
        message: Message,
    ) -> (action: Action)
        ensures
            (final(self)@, action@) == updated(old(self)@, *scene, *defaults, message@),
            action.wf(),
    {
        match message {
            Message::Room(message) => self.update_room(scene, message),
            Message::RoomProperty(message) => self.update_room_property(scene, message),
            Message::AreaProperty(message) => self.update_area_property(scene, message),
            Message::Tag(message) => self.update_tag(scene, message),
            Message::Bulk(message) => self.update_bulk(scene, message),
            Message::Exit(message) => self.update_exit(scene, message),
            Message::Connection(message) => self.update_connection(scene, defaults, message),
            Message::Label(message) => self.update_label(scene, message),
            Message::Shape(message) => self.update_shape(scene, message),
            Message::Picker(message) => self.update_picker(scene, message),
            Message::Secret(message) => self.update_secret(scene, message),
        }
    }
}

} // verus!
