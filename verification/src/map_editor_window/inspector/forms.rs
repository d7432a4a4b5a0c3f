//! What the forms of the inspector show besides the buffers: headings, which fields
//! hold something valid, and what stands in empty ones.

use vstd::prelude::*;

use super::super::cache;
use super::super::model::{RoomKey, RoomNumber};
use super::action::{Reading, Scene};
use super::rooms;
use super::state::{ColorField, State, StateView};
use super::summary::{
    self, heading_of_room, lines_view, provenance_line, push_hovered, selection_summary, Line, Provenance,
};
use crate::text::{self, decimal_text, is_empty_text, join2, join3, read_i32, signed_decimal_text};

verus! {

/// Whether a number that is above zero is typed.
pub open spec fn is_positive(text: Seq<char>) -> bool {
    rooms::number_in(text) matches Some(number) && number > 0
}

fn positive(text: &str) -> (is: bool)
    ensures
        is == is_positive(text@),
{
    match read_i32(text) {
        Some(number) => number > 0,
        None => false,
    }
}

/// Whether what was read is not negative.
pub open spec fn is_non_negative(reading: Option<Reading>) -> bool {
    reading matches Some(reading) && reading.non_negative
}

fn non_negative(reading: Option<Reading>) -> (is: bool)
    ensures
        is == is_non_negative(reading),
{
    match reading {
        Some(reading) => reading.non_negative,
        None => false,
    }
}

/// A field for a color.
#[derive(Clone, Copy, Debug, PartialEq, Eq, Structural)]
pub struct ColorInput {
    pub valid: bool,
    /// The picker below it is open.
    pub picker: bool,
}

/// The field for a color: what it holds is a color, or nothing where nothing will do.
pub open spec fn color_field(
    state: StateView,
    field: ColorField,
    value: Seq<char>,
    allow_empty: bool,
    reads: bool,
) -> ColorInput {
    ColorInput {
        valid: (allow_empty && value.len() == 0) || reads,
        picker: state.picker == Some(field),
    }
}

/// What is shown of the selected room.
pub struct RoomForm {
    pub heading: String,
    /// A lock stands beside the heading.
    pub locked: bool,
    pub level_valid: bool,
    pub color: ColorInput,
    /// What concerns secrecy is shown.
    pub secrecy: bool,
}

/// What is shown of the selected label.
pub struct LabelForm {
    pub locked: bool,
    pub color: ColorInput,
    pub background: ColorInput,
    pub font_size_valid: bool,
    pub font_weight_valid: bool,
    pub secrecy: bool,
}

/// What is shown of the selected shape.
pub struct ShapeForm {
    pub locked: bool,
    pub fill: ColorInput,
    pub stroke: ColorInput,
    pub stroke_width_valid: bool,
    pub border_radius_valid: bool,
    pub secrecy: bool,
}

/// The fields for all selected rooms.
pub struct BulkForm {
    /// What stands in an empty field.
    pub color_placeholder: String,
    pub level_placeholder: String,
    pub picker: bool,
}

/// What is shown when several things are selected.
pub struct SeveralForm {
    pub heading: String,
    pub summary: String,
    /// `None` when no room is among them.
    pub rooms: Option<BulkForm>,
    pub secrecy: bool,
}

impl State {
    /// The field for a color.
    fn color_input(&self, field: ColorField, value: &str, allow_empty: bool, reads: bool) -> (input: ColorInput)
        ensures
            input == color_field(self@, field, value@, allow_empty, reads),
    {
        let picker = match self.picker {
            Some(open) => open == field,
            None => false,
        };
        ColorInput { valid: (allow_empty && is_empty_text(value)) || reads, picker }
    }

    /// What is shown of the selected room; `color_reads` tells whether its color is one.
    pub fn single_room_view(&self, scene: &Scene, number: RoomNumber, color_reads: bool) -> (form: RoomForm)
        ensures
            form.heading@ == summary::room_heading(number),
            form.locked == self@.is_secret,
            form.level_valid == (rooms::number_in(self@.level) is Some),
            form.color == color_field(self@, ColorField::Room, self@.color, true, color_reads),
            form.secrecy == scene.cleared,
    {
        RoomForm {
            heading: heading_of_room(number),
            locked: self.is_secret,
            level_valid: read_i32(&self.level).is_some(),
            color: self.color_input(ColorField::Room, &self.color, true, color_reads),
            secrecy: scene.cleared,
        }
    }

    /// What is shown of the selected label. Its text needs a color, its background none.
    pub fn label_view(&self, scene: &Scene, color_reads: bool, background_reads: bool) -> (form: LabelForm)
        ensures
            form.locked == self@.is_secret,
            form.color == color_field(self@, ColorField::LabelText, self@.label.color, false, color_reads),
            form.background == color_field(
                self@,
                ColorField::LabelBackground,
                self@.label.background,
                true,
                background_reads,
            ),
            form.font_size_valid == is_positive(self@.label.font_size),
            form.font_weight_valid == is_positive(self@.label.font_weight),
            form.secrecy == scene.cleared,
    {
        LabelForm {
            locked: self.is_secret,
            color: self.color_input(ColorField::LabelText, &self.label.color, false, color_reads),
            background: self.color_input(
                ColorField::LabelBackground,
                &self.label.background,
                true,
                background_reads,
            ),
            font_size_valid: positive(&self.label.font_size),
            font_weight_valid: positive(&self.label.font_weight),
            secrecy: scene.cleared,
        }
    }

    /// What is shown of the selected shape, with how its stroke width and its corner radius
    /// read.
    pub fn shape_view(
        &self,
        scene: &Scene,
        fill_reads: bool,
        stroke_reads: bool,
        stroke_width: Option<Reading>,
        border_radius: Option<Reading>,
    ) -> (form: ShapeForm)
        ensures
            form.locked == self@.is_secret,
            form.fill == color_field(self@, ColorField::ShapeFill, self@.shape.background, true, fill_reads),
            form.stroke == color_field(
                self@,
                ColorField::ShapeStroke,
                self@.shape.stroke_color,
                true,
                stroke_reads,
            ),
            form.stroke_width_valid == is_non_negative(stroke_width),
            form.border_radius_valid == is_non_negative(border_radius),
            form.secrecy == scene.cleared,
    {
        ShapeForm {
            locked: self.is_secret,
            fill: self.color_input(ColorField::ShapeFill, &self.shape.background, true, fill_reads),
            stroke: self.color_input(ColorField::ShapeStroke, &self.shape.stroke_color, true, stroke_reads),
            stroke_width_valid: non_negative(stroke_width),
            border_radius_valid: non_negative(border_radius),
            secrecy: scene.cleared,
        }
    }

    /// What is shown when several things are selected. An empty field says whether the
    /// rooms disagree or have nothing to show.
    pub fn multi_selection_view(&self, scene: &Scene) -> (form: SeveralForm)
        ensures
            form.heading@ == text::decimal(scene.selection@.len()) + " selected"@,
            form.summary@ == summary::counted_selection(scene.selection@),
            match form.rooms {
                Some(bulk) => cache::selected_rooms(scene.selection@).len() > 0
                    && bulk.color_placeholder@ == (if self@.bulk_color_mixed {
                    "(mixed)"@
                } else {
                    "(default)"@
                }) && bulk.level_placeholder@ == (if self@.bulk_level_mixed {
                    "(mixed)"@
                } else {
                    "0"@
                }) && bulk.picker == (self@.picker == Some(ColorField::Bulk)),
                None => cache::selected_rooms(scene.selection@).len() == 0,
            },
            form.secrecy == scene.cleared,
    {
        let count = decimal_text(scene.selection.entities.len() as u64);
        let rooms = if scene.selection.rooms().len() > 0 {
            Some(
                BulkForm {
                    color_placeholder: if self.bulk_color_mixed {
                        "(mixed)".to_owned()
                    } else {
                        "(default)".to_owned()
                    },
                    level_placeholder: if self.bulk_level_mixed {
                        "(mixed)".to_owned()
                    } else {
                        "0".to_owned()
                    },
                    picker: match self.picker {
                        Some(open) => open == ColorField::Bulk,
                        None => false,
                    },
                },
            )
        } else {
            None
        };
        SeveralForm {
            heading: join2(&count, " selected"),
            summary: selection_summary(&scene.selection),
            rooms,
            secrecy: scene.cleared,
        }
    }
}

// ===== The area =====

/// What is shown of the area when nothing is selected.
pub struct AreaForm {
    pub heading: String,
    pub line: String,
    /// Where it was copied from.
    pub provenance: Option<String>,
    /// Who shares it: told of areas of others.
    pub attribution: Option<String>,
    /// Whether it is used to find the player.
    pub status: String,
    pub tip: String,
    pub secrecy: bool,
    /// The room under the pointer.
    pub hovered: Vec<Line>,
}

/// What is known of an area besides what is cached.
pub struct AreaFacts {
    pub level: i32,
    pub provenance: Option<Provenance>,
    pub attribution: String,
    /// It is used to find the player.
    pub enabled: bool,
    pub hovered: Option<RoomKey>,
}

/// What is shown of the area when nothing is selected; `None` without an area.
pub fn area_view(scene: &Scene, facts: &AreaFacts) -> (form: Option<AreaForm>)
    ensures
        match scene.area_id {
            None => form is None,
            Some(id) => match scene.atlas.area(id) {
                None => form is None,
                Some(area) => form matches Some(form) && form.heading@ == area.name@ && form.line@
                    == text::decimal(area.rooms@.len()) + " rooms \u{b7} level "@ + text::signed_decimal(
                    facts.level as int,
                ) && text::opt_text(form.provenance) == (match facts.provenance {
                    Some(provenance) => if area.access.is_owned {
                        Some(summary::copied_from(scene.atlas, provenance))
                    } else {
                        None
                    },
                    None => None,
                }) && text::opt_text(form.attribution) == (if area.access.is_owned {
                    None
                } else {
                    Some(facts.attribution@)
                }) && form.status@ == (if facts.enabled {
                    "Active"@
                } else {
                    "Inactive"@
                }) && form.tip@ == (if facts.enabled {
                    "Active \u{2014} click to deactivate"@
                } else {
                    "Inactive \u{2014} click to activate"@
                }) && form.secrecy == scene.cleared && lines_view(form.hovered@)
                    == summary::hovered_lines(area, facts.hovered),
            },
        },
{
    let area_id = scene.area_id?;
    let area = scene.atlas.get_area(&area_id)?;
    let rooms = decimal_text(area.rooms.len() as u64);
    let level = signed_decimal_text(facts.level as i64);
    let mut hovered: Vec<Line> = Vec::new();
    push_hovered(&mut hovered, area, facts.hovered);
    assert(lines_view(hovered@) =~= summary::hovered_lines(*area, facts.hovered));
    let (status, tip) = if facts.enabled {
        ("Active", "Active \u{2014} click to deactivate")
    } else {
        ("Inactive", "Inactive \u{2014} click to activate")
    };
    Some(
        AreaForm {
            heading: area.name.clone(),
            line: join3(&rooms, " rooms \u{b7} level ", &level),
            provenance: provenance_line(&scene.atlas, area, &facts.provenance),
            attribution: if area.access.is_owned {
                None
            } else {
                Some(facts.attribution.clone())
            },
            status: status.to_owned(),
            tip: tip.to_owned(),
            secrecy: scene.cleared,
            hovered,
        },
    )
}

} // verus!
