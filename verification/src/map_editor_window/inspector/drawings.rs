//! Editing labels and shapes.

use vstd::prelude::*;

use super::super::commands::FieldId;
use super::super::model::{Alignment, LabelUpdates, ShapeType, ShapeUpdates};
use super::action::{self, commit_label_field, commit_shape_field, Action, ActionView, Reading, Scene};
use super::rooms;
use super::state::{BoundsField, LabelBuffers, ShapeBuffers, State, StateView};
use super::typing;
use crate::text::{is_empty_text, read_i32};

verus! {

/// An edit of the selected label. A typed number carries its reading and a typed
/// color whether it is one.
pub enum LabelMessage<T = String> {
    Text(T),
    Color(T, bool),
    Background(T, bool),
    FontSize(T),
    FontWeight(T),
    HorizontalAlignment(Alignment),
    VerticalAlignment(Alignment),
    Bounds(BoundsField, T, Option<Reading>),
}

impl View for LabelMessage<String> {
    type V = LabelMessage<Seq<char>>;

    open spec fn view(&self) -> LabelMessage<Seq<char>> {
        match *self {
            LabelMessage::Text(text) => LabelMessage::Text(text@),
            LabelMessage::Color(text, valid) => LabelMessage::Color(text@, valid),
            LabelMessage::Background(text, valid) => LabelMessage::Background(text@, valid),
            LabelMessage::FontSize(text) => LabelMessage::FontSize(text@),
            LabelMessage::FontWeight(text) => LabelMessage::FontWeight(text@),
            LabelMessage::HorizontalAlignment(alignment) => LabelMessage::HorizontalAlignment(
                alignment,
            ),
            LabelMessage::VerticalAlignment(alignment) => LabelMessage::VerticalAlignment(
                alignment,
            ),
            LabelMessage::Bounds(field, text, reading) => LabelMessage::Bounds(
                field,
                text@,
                reading,
            ),
        }
    }
}

/// The buffers of a label with another text in one of its bounds.
pub open spec fn label_bound(
    label: LabelBuffers<Seq<char>>,
    field: BoundsField,
    text: Seq<char>,
) -> LabelBuffers<Seq<char>> {
    match field {
        BoundsField::X => LabelBuffers { x: text, ..label },
        BoundsField::Y => LabelBuffers { y: text, ..label },
        BoundsField::Width => LabelBuffers { width: text, ..label },
        BoundsField::Height => LabelBuffers { height: text, ..label },
    }
}

/// The update of one of the bounds of a label. Sizes do not go below the least
/// one.
pub open spec fn label_bound_update(field: BoundsField, reading: Reading) -> LabelUpdates<Seq<char>> {
    let none = LabelUpdates::<Seq<char>>::none();
    match field {
        BoundsField::X => LabelUpdates { x: Some(reading.value), ..none },
        BoundsField::Y => LabelUpdates { y: Some(reading.value), ..none },
        BoundsField::Width => LabelUpdates { width: Some(reading.sized), ..none },
        BoundsField::Height => LabelUpdates { height: Some(reading.sized), ..none },
    }
}

/// The buffers after an edit of the selected label, and what it asks for.
pub open spec fn label_updated(
    state: StateView,
    scene: Scene,
    message: LabelMessage<Seq<char>>,
) -> (StateView, ActionView) {
    let none = LabelUpdates::<Seq<char>>::none();
    let label = state.label;
    match message {
        LabelMessage::Text(text) => (
            State { label: LabelBuffers { text, ..label }, ..state },
            action::label_commit(
                scene,
                FieldId::Text,
                LabelUpdates { text: Some(text), ..none },
            ),
        ),
        LabelMessage::Color(text, valid) => (
            State { label: LabelBuffers { color: text, ..label }, ..state },
            if valid {
                action::label_commit(
                    scene,
                    FieldId::Color,
                    LabelUpdates { color: Some(text), ..none },
                )
            } else {
                Action::Nothing
            },
        ),
        LabelMessage::Background(text, valid) => (
            State { label: LabelBuffers { background: text, ..label }, ..state },
            if text.len() == 0 || valid {
                action::label_commit(
                    scene,
                    FieldId::BackgroundColor,
                    LabelUpdates { background_color: Some(text), ..none },
                )
            } else {
                Action::Nothing
            },
        ),
        LabelMessage::FontSize(text) => (
            State { label: LabelBuffers { font_size: text, ..label }, ..state },
            match rooms::number_in(text) {
                Some(size) => if size > 0 {
                    action::label_commit(
                        scene,
                        FieldId::FontSize,
                        LabelUpdates { font_size: Some(size), ..none },
                    )
                } else {
                    Action::Nothing
                },
                None => Action::Nothing,
            },
        ),
        LabelMessage::FontWeight(text) => (
            State { label: LabelBuffers { font_weight: text, ..label }, ..state },
            match rooms::number_in(text) {
                Some(weight) => if weight > 0 {
                    action::label_commit(
                        scene,
                        FieldId::FontWeight,
                        LabelUpdates { font_weight: Some(weight), ..none },
                    )
                } else {
                    Action::Nothing
                },
                None => Action::Nothing,
            },
        ),
        LabelMessage::HorizontalAlignment(alignment) => (
            State { label: LabelBuffers { horizontal_alignment: alignment, ..label }, ..state },
            action::label_commit(
                scene,
                FieldId::HorizontalAlignment,
                LabelUpdates { horizontal_alignment: Some(alignment), ..none },
            ),
        ),
        LabelMessage::VerticalAlignment(alignment) => (
            State { label: LabelBuffers { vertical_alignment: alignment, ..label }, ..state },
            action::label_commit(
                scene,
                FieldId::VerticalAlignment,
                LabelUpdates { vertical_alignment: Some(alignment), ..none },
            ),
        ),
        LabelMessage::Bounds(field, text, reading) => (
            State { label: label_bound(label, field, text), ..state },
            match reading {
                Some(reading) => action::label_commit(
                    scene,
                    FieldId::Bounds,
                    label_bound_update(field, reading),
                ),
                None => Action::Nothing,
            },
        ),
    }
}

impl State {
    /// Edits the selected label.
    pub fn update_label(&mut self, scene: &Scene, message: LabelMessage) -> (action: Action)
        ensures
            (final(self)@, action@) == label_updated(old(self)@, *scene, message@),
            typing::types_label(action@, *scene, message@),
            action.wf(),
    {
        proof {
            typing::law_a_label_holds_what_was_typed(self@, *scene, message@);
        }
        let mut updates: LabelUpdates = LabelUpdates::default();
        match message {
            LabelMessage::Text(text) => {
                self.label.text = text.clone();
                updates.text = Some(text);
                commit_label_field(scene, FieldId::Text, updates)
            },
            LabelMessage::Color(text, valid) => {
                self.label.color = text.clone();
                if valid {
                    updates.color = Some(text);
                    commit_label_field(scene, FieldId::Color, updates)
                } else {
                    Action::Nothing
                }
            },
            LabelMessage::Background(text, valid) => {
                self.label.background = text.clone();
                if is_empty_text(&text) || valid {
                    updates.background_color = Some(text);
                    commit_label_field(scene, FieldId::BackgroundColor, updates)
                } else {
                    Action::Nothing
                }
            },
            LabelMessage::FontSize(text) => {
                let number = read_i32(&text);
                self.label.font_size = text;
                match number {
                    Some(size) if size > 0 => {
                        updates.font_size = Some(size);
                        commit_label_field(scene, FieldId::FontSize, updates)
                    },
                    _ => Action::Nothing,
                }
            },
            LabelMessage::FontWeight(text) => {
                let number = read_i32(&text);
                self.label.font_weight = text;
                match number {
                    Some(weight) if weight > 0 => {
                        updates.font_weight = Some(weight);
                        commit_label_field(scene, FieldId::FontWeight, updates)
                    },
                    _ => Action::Nothing,
                }
            },
            LabelMessage::HorizontalAlignment(alignment) => {
                self.label.horizontal_alignment = alignment;
                updates.horizontal_alignment = Some(alignment);
                commit_label_field(scene, FieldId::HorizontalAlignment, updates)
            },
            LabelMessage::VerticalAlignment(alignment) => {
                self.label.vertical_alignment = alignment;
                updates.vertical_alignment = Some(alignment);
                commit_label_field(scene, FieldId::VerticalAlignment, updates)
            },
            LabelMessage::Bounds(field, text, reading) => {
                match field {
                    BoundsField::X => self.label.x = text,
                    BoundsField::Y => self.label.y = text,
                    BoundsField::Width => self.label.width = text,
                    BoundsField::Height => self.label.height = text,
                }
                match reading {
                    Some(reading) => {
                        match field {
                            BoundsField::X => updates.x = Some(reading.value),
                            BoundsField::Y => updates.y = Some(reading.value),
                            BoundsField::Width => updates.width = Some(reading.sized),
                            BoundsField::Height => updates.height = Some(reading.sized),
                        }
                        commit_label_field(scene, FieldId::Bounds, updates)
                    },
                    None => Action::Nothing,
                }
            },
        }
    }
}

/// An edit of the selected shape. A typed number carries its reading and a typed
/// color whether it is one.
pub enum ShapeMessage<T = String> {
    Type(ShapeType),
    Background(T, bool),
    StrokeColor(T, bool),
    StrokeWidth(T, Option<Reading>),
    BorderRadius(T, Option<Reading>),
    Bounds(BoundsField, T, Option<Reading>),
}

impl View for ShapeMessage<String> {
    type V = ShapeMessage<Seq<char>>;

    open spec fn view(&self) -> ShapeMessage<Seq<char>> {
        match *self {
            ShapeMessage::Type(shape_type) => ShapeMessage::Type(shape_type),
            ShapeMessage::Background(text, valid) => ShapeMessage::Background(text@, valid),
            ShapeMessage::StrokeColor(text, valid) => ShapeMessage::StrokeColor(text@, valid),
            ShapeMessage::StrokeWidth(text, reading) => ShapeMessage::StrokeWidth(text@, reading),
            ShapeMessage::BorderRadius(text, reading) => ShapeMessage::BorderRadius(text@, reading),
            ShapeMessage::Bounds(field, text, reading) => ShapeMessage::Bounds(
                field,
                text@,
                reading,
            ),
        }
    }
}

/// The buffers of a shape with another text in one of its bounds.
pub open spec fn shape_bound(
    shape: ShapeBuffers<Seq<char>>,
    field: BoundsField,
    text: Seq<char>,
) -> ShapeBuffers<Seq<char>> {
    match field {
        BoundsField::X => ShapeBuffers { x: text, ..shape },
        BoundsField::Y => ShapeBuffers { y: text, ..shape },
        BoundsField::Width => ShapeBuffers { width: text, ..shape },
        BoundsField::Height => ShapeBuffers { height: text, ..shape },
    }
}

/// The update of one of the bounds of a shape. Sizes do not go below the least
/// one.
pub open spec fn shape_bound_update(field: BoundsField, reading: Reading) -> ShapeUpdates<Seq<char>> {
    let none = ShapeUpdates::<Seq<char>>::none();
    match field {
        BoundsField::X => ShapeUpdates { x: Some(reading.value), ..none },
        BoundsField::Y => ShapeUpdates { y: Some(reading.value), ..none },
        BoundsField::Width => ShapeUpdates { width: Some(reading.sized), ..none },
        BoundsField::Height => ShapeUpdates { height: Some(reading.sized), ..none },
    }
}

/// The buffers after an edit of the selected shape, and what it asks for.
pub open spec fn shape_updated(
    state: StateView,
    scene: Scene,
    message: ShapeMessage<Seq<char>>,
) -> (StateView, ActionView) {
    let none = ShapeUpdates::<Seq<char>>::none();
    let shape = state.shape;
    match message {
        ShapeMessage::Type(shape_type) => (
            State { shape: ShapeBuffers { shape_type, ..shape }, ..state },
            action::shape_commit(
                scene,
                FieldId::ShapeType,
                ShapeUpdates { shape_type: Some(shape_type), ..none },
            ),
        ),
        ShapeMessage::Background(text, valid) => (
            State { shape: ShapeBuffers { background: text, ..shape }, ..state },
            if text.len() == 0 || valid {
                action::shape_commit(
                    scene,
                    FieldId::BackgroundColor,
                    ShapeUpdates { background_color: Some(text), ..none },
                )
            } else {
                Action::Nothing
            },
        ),
        ShapeMessage::StrokeColor(text, valid) => (
            State { shape: ShapeBuffers { stroke_color: text, ..shape }, ..state },
            if text.len() == 0 || valid {
                action::shape_commit(
                    scene,
                    FieldId::StrokeColor,
                    ShapeUpdates { stroke_color: Some(text), ..none },
                )
            } else {
                Action::Nothing
            },
        ),
        ShapeMessage::StrokeWidth(text, reading) => (
            State { shape: ShapeBuffers { stroke_width: text, ..shape }, ..state },
            match reading {
                Some(reading) => if reading.non_negative {
                    action::shape_commit(
                        scene,
                        FieldId::StrokeWidth,
                        ShapeUpdates { stroke_width: Some(reading.value), ..none },
                    )
                } else {
                    Action::Nothing
                },
                None => Action::Nothing,
            },
        ),
        ShapeMessage::BorderRadius(text, reading) => (
            State { shape: ShapeBuffers { border_radius: text, ..shape }, ..state },
            match reading {
                Some(reading) => if reading.non_negative {
                    action::shape_commit(
                        scene,
                        FieldId::BorderRadius,
                        ShapeUpdates { border_radius: Some(reading.value), ..none },
                    )
                } else {
                    Action::Nothing
                },
                None => Action::Nothing,
            },
        ),
        ShapeMessage::Bounds(field, text, reading) => (
            State { shape: shape_bound(shape, field, text), ..state },
            match reading {
                Some(reading) => action::shape_commit(
                    scene,
                    FieldId::Bounds,
                    shape_bound_update(field, reading),
                ),
                None => Action::Nothing,
            },
        ),
    }
}

impl State {
    /// Edits the selected shape.
    pub fn update_shape(&mut self, scene: &Scene, message: ShapeMessage) -> (action: Action)
        ensures
            (final(self)@, action@) == shape_updated(old(self)@, *scene, message@),
            typing::types_shape(action@, *scene, message@),
            action.wf(),
    {
        proof {
            typing::law_a_shape_holds_what_was_typed(self@, *scene, message@);
        }
        let mut updates: ShapeUpdates = ShapeUpdates::default();
        match message {
            ShapeMessage::Type(shape_type) => {
                self.shape.shape_type = shape_type;
                updates.shape_type = Some(shape_type);
                commit_shape_field(scene, FieldId::ShapeType, updates)
            },
            ShapeMessage::Background(text, valid) => {
                self.shape.background = text.clone();
                if is_empty_text(&text) || valid {
                    updates.background_color = Some(text);
                    commit_shape_field(scene, FieldId::BackgroundColor, updates)
                } else {
                    Action::Nothing
                }
            },
            ShapeMessage::StrokeColor(text, valid) => {
                self.shape.stroke_color = text.clone();
                if is_empty_text(&text) || valid {
                    updates.stroke_color = Some(text);
                    commit_shape_field(scene, FieldId::StrokeColor, updates)
                } else {
                    Action::Nothing
                }
            },
            ShapeMessage::StrokeWidth(text, reading) => {
                self.shape.stroke_width = text;
                match reading {
                    Some(reading) if reading.non_negative => {
                        updates.stroke_width = Some(reading.value);
                        commit_shape_field(scene, FieldId::StrokeWidth, updates)
                    },
                    _ => Action::Nothing,
                }
            },
            ShapeMessage::BorderRadius(text, reading) => {
                self.shape.border_radius = text;
                match reading {
                    Some(reading) if reading.non_negative => {
                        updates.border_radius = Some(reading.value);
                        commit_shape_field(scene, FieldId::BorderRadius, updates)
                    },
                    _ => Action::Nothing,
                }
            },
            ShapeMessage::Bounds(field, text, reading) => {
                match field {
                    BoundsField::X => self.shape.x = text,
                    BoundsField::Y => self.shape.y = text,
                    BoundsField::Width => self.shape.width = text,
                    BoundsField::Height => self.shape.height = text,
                }
                match reading {
                    Some(reading) => {
                        match field {
                            BoundsField::X => updates.x = Some(reading.value),
                            BoundsField::Y => updates.y = Some(reading.value),
                            BoundsField::Width => updates.width = Some(reading.sized),
                            BoundsField::Height => updates.height = Some(reading.sized),
                        }
                        commit_shape_field(scene, FieldId::Bounds, updates)
                    },
                    None => Action::Nothing,
                }
            },
        }
    }
}

} // verus!
