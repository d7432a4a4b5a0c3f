//! The inspector's field buffers.
//!
//! Buffers hold what the user typed, valid or not. They are rebuilt from the
//! cache when the selection changes, after undo and redo, and when another
//! writer changed the area.

use vstd::prelude::*;

use super::super::cache::{self, Selection};
use super::super::links::{self, members_of};
use super::super::model::{
    Alignment, AreaCache, AreaId, AtlasCache, Connection, ConnectionDash, ConnectionId, ConnectionRouting, CornerStyle,
    EntityId, ExitCache, ExitDirection, ExitId, LabelCache, PropertyEntry, RoomCache, RoomNumber, RoomSide, Scalar,
    SegmentShape, ShapeCache, ShapeType,
};
use crate::list::{self, sort_by};
use crate::text::{self, clone_or_empty, signed_decimal_text, text_before};

verus! {

/// One of the four bounds fields shared by labels and shapes.
#[derive(Clone, Copy, Debug, PartialEq, Eq, Structural)]
pub enum BoundsField {
    X,
    Y,
    Width,
    Height,
}

/// Which color field an open picker edits.
#[derive(Clone, Copy, Debug, PartialEq, Eq, Structural)]
pub enum ColorField {
    Room,
    Bulk,
    LabelText,
    LabelBackground,
    ShapeFill,
    ShapeStroke,
}

/// The buffers of one exit.
pub struct ExitRow<T = String> {
    pub id: ExitId,
    pub from_room: RoomNumber,
    pub from_direction: ExitDirection,
    pub to_area: Option<AreaId>,
    pub to_room: T,
    pub to_direction: Option<ExitDirection>,
    pub path: T,
    pub command: T,
    pub weight: T,
    pub is_hidden: bool,
    pub is_closed: bool,
    pub is_locked: bool,
    pub is_secret: bool,
    /// The destination exists but was withheld: its controls are disabled.
    pub to_unknown: bool,
}

impl View for ExitRow<String> {
    type V = ExitRow<Seq<char>>;

    open spec fn view(&self) -> ExitRow<Seq<char>> {
        ExitRow {
            id: self.id,
            from_room: self.from_room,
            from_direction: self.from_direction,
            to_area: self.to_area,
            to_room: self.to_room@,
            to_direction: self.to_direction,
            path: self.path@,
            command: self.command@,
            weight: self.weight@,
            is_hidden: self.is_hidden,
            is_closed: self.is_closed,
            is_locked: self.is_locked,
            is_secret: self.is_secret,
            to_unknown: self.to_unknown,
        }
    }
}

/// The buffers of one property.
pub struct PropertyRow<T = String> {
    pub name: T,
    pub value: T,
    pub is_secret: bool,
}

impl View for PropertyRow<String> {
    type V = PropertyRow<Seq<char>>;

    open spec fn view(&self) -> PropertyRow<Seq<char>> {
        PropertyRow {
            name: self.name@,
            value: self.value@,
            is_secret: self.is_secret,
        }
    }
}

/// The buffers of the selected label.
pub struct LabelBuffers<T = String> {
    pub text: T,
    pub color: T,
    pub background: T,
    pub font_size: T,
    pub font_weight: T,
    pub horizontal_alignment: Alignment,
    pub vertical_alignment: Alignment,
    pub x: T,
    pub y: T,
    pub width: T,
    pub height: T,
}

impl View for LabelBuffers<String> {
    type V = LabelBuffers<Seq<char>>;

    open spec fn view(&self) -> LabelBuffers<Seq<char>> {
        LabelBuffers {
            text: self.text@,
            color: self.color@,
            background: self.background@,
            font_size: self.font_size@,
            font_weight: self.font_weight@,
            horizontal_alignment: self.horizontal_alignment,
            vertical_alignment: self.vertical_alignment,
            x: self.x@,
            y: self.y@,
            width: self.width@,
            height: self.height@,
        }
    }
}

impl LabelBuffers<Seq<char>> {
    /// Nothing typed.
    pub open spec fn fresh() -> Self {
        LabelBuffers {
            text: Seq::empty(),
            color: Seq::empty(),
            background: Seq::empty(),
            font_size: Seq::empty(),
            font_weight: Seq::empty(),
            horizontal_alignment: Alignment::Standard,
            vertical_alignment: Alignment::Standard,
            x: Seq::empty(),
            y: Seq::empty(),
            width: Seq::empty(),
            height: Seq::empty(),
        }
    }
}

impl Default for LabelBuffers<String> {
    fn default() -> (r: Self)
        ensures
            r@ == LabelBuffers::<Seq<char>>::fresh(),
    {
        LabelBuffers {
            text: String::new(),
            color: String::new(),
            background: String::new(),
            font_size: String::new(),
            font_weight: String::new(),
            horizontal_alignment: Alignment::Standard,
            vertical_alignment: Alignment::Standard,
            x: String::new(),
            y: String::new(),
            width: String::new(),
            height: String::new(),
        }
    }
}

/// The buffers of the selected shape.
pub struct ShapeBuffers<T = String> {
    pub shape_type: ShapeType,
    pub background: T,
    pub stroke_color: T,
    pub stroke_width: T,
    pub border_radius: T,
    pub x: T,
    pub y: T,
    pub width: T,
    pub height: T,
}

impl View for ShapeBuffers<String> {
    type V = ShapeBuffers<Seq<char>>;

    open spec fn view(&self) -> ShapeBuffers<Seq<char>> {
        ShapeBuffers {
            shape_type: self.shape_type,
            background: self.background@,
            stroke_color: self.stroke_color@,
            stroke_width: self.stroke_width@,
            border_radius: self.border_radius@,
            x: self.x@,
            y: self.y@,
            width: self.width@,
            height: self.height@,
        }
    }
}

impl ShapeBuffers<Seq<char>> {
    /// Nothing typed.
    pub open spec fn fresh() -> Self {
        ShapeBuffers {
            shape_type: ShapeType::Standard,
            background: Seq::empty(),
            stroke_color: Seq::empty(),
            stroke_width: Seq::empty(),
            border_radius: Seq::empty(),
            x: Seq::empty(),
            y: Seq::empty(),
            width: Seq::empty(),
            height: Seq::empty(),
        }
    }
}

impl Default for ShapeBuffers<String> {
    fn default() -> (r: Self)
        ensures
            r@ == ShapeBuffers::<Seq<char>>::fresh(),
    {
        ShapeBuffers {
            shape_type: ShapeType::Standard,
            background: String::new(),
            stroke_color: String::new(),
            stroke_width: String::new(),
            border_radius: String::new(),
            x: String::new(),
            y: String::new(),
            width: String::new(),
            height: String::new(),
        }
    }
}

/// The buffers of the selected connection.
pub struct ConnectionBuffers<T = String> {
    pub routing: ConnectionRouting,
    pub segment_shape: SegmentShape,
    pub corner: CornerStyle,
    pub dash: ConnectionDash,
    pub color: T,
    pub thickness: T,
    pub endpoint_a_side: RoomSide,
    pub endpoint_a_offset: T,
    pub endpoint_b_side: RoomSide,
    pub endpoint_b_offset: T,
    pub has_endpoint_b: bool,
    pub is_secret: bool,
}

impl View for ConnectionBuffers<String> {
    type V = ConnectionBuffers<Seq<char>>;

    open spec fn view(&self) -> ConnectionBuffers<Seq<char>> {
        ConnectionBuffers {
            routing: self.routing,
            segment_shape: self.segment_shape,
            corner: self.corner,
            dash: self.dash,
            color: self.color@,
            thickness: self.thickness@,
            endpoint_a_side: self.endpoint_a_side,
            endpoint_a_offset: self.endpoint_a_offset@,
            endpoint_b_side: self.endpoint_b_side,
            endpoint_b_offset: self.endpoint_b_offset@,
            has_endpoint_b: self.has_endpoint_b,
            is_secret: self.is_secret,
        }
    }
}

/// The appearance of a connection that nobody styled: its color and thickness,
/// and the thickness as it is shown.
pub struct ConnectionDefaults {
    pub color: String,
    pub thickness: Scalar,
    pub thickness_text: String,
}

/// The buffers when no connection is selected.
pub open spec fn unselected_connection(defaults: ConnectionDefaults) -> ConnectionBuffers<Seq<char>> {
    ConnectionBuffers {
        routing: ConnectionRouting::Simple,
        segment_shape: SegmentShape::Direct,
        corner: CornerStyle::Sharp,
        dash: ConnectionDash::Solid,
        color: defaults.color@,
        thickness: defaults.thickness_text@,
        endpoint_a_side: RoomSide::East,
        endpoint_a_offset: "0.5"@,
        endpoint_b_side: RoomSide::West,
        endpoint_b_offset: "0.5"@,
        has_endpoint_b: false,
        is_secret: false,
    }
}

/// The inspector's field buffers.
pub struct State<T = String, P = Vec<PropertyRow>, G = Vec<String>, E = Vec<ExitRow>> {
    pub title: T,
    pub description: T,
    pub level: T,
    pub x: T,
    pub y: T,
    pub color: T,
    pub properties: P,
    pub new_property_name: T,
    pub new_property_value: T,
    /// The selected room's tags.
    pub tags: G,
    /// The distinct tags of the selected room's area, in order.
    pub known_tags: G,
    pub new_tag: T,
    pub exits: E,
    pub label: LabelBuffers<T>,
    pub shape: ShapeBuffers<T>,
    pub connection: ConnectionBuffers<T>,
    pub bulk_color: T,
    pub bulk_level: T,
    /// The selected rooms disagree, so the bulk field is left empty.
    pub bulk_color_mixed: bool,
    pub bulk_level_mixed: bool,
    pub area_properties: P,
    pub new_area_property_name: T,
    pub new_area_property_value: T,
    /// The field the open color picker edits.
    pub picker: Option<ColorField>,
    /// Secrecy of the single selected room, label or shape.
    pub is_secret: bool,
    /// Why the last secrecy change failed.
    pub secret_error: Option<T>,
    /// What the last bulk secrecy change did.
    pub secret_notice: Option<T>,
}

/// The buffers over sequences.
pub type StateView = State<
    Seq<char>,
    Seq<PropertyRow<Seq<char>>>,
    Seq<Seq<char>>,
    Seq<ExitRow<Seq<char>>>,
>;

/// The views of a list of property rows.
pub open spec fn property_rows(rows: Seq<PropertyRow>) -> Seq<PropertyRow<Seq<char>>> {
    rows.map_values(|row: PropertyRow| row@)
}

/// The views of a list of exit rows.
pub open spec fn exit_rows(rows: Seq<ExitRow>) -> Seq<ExitRow<Seq<char>>> {
    rows.map_values(|row: ExitRow| row@)
}

impl View for State<String, Vec<PropertyRow>, Vec<String>, Vec<ExitRow>> {
    type V = StateView;

    open spec fn view(&self) -> StateView {
        State {
            title: self.title@,
            description: self.description@,
            level: self.level@,
            x: self.x@,
            y: self.y@,
            color: self.color@,
            properties: property_rows(self.properties@),
            new_property_name: self.new_property_name@,
            new_property_value: self.new_property_value@,
            tags: text::texts(self.tags@),
            known_tags: text::texts(self.known_tags@),
            new_tag: self.new_tag@,
            exits: exit_rows(self.exits@),
            label: self.label@,
            shape: self.shape@,
            connection: self.connection@,
            bulk_color: self.bulk_color@,
            bulk_level: self.bulk_level@,
            bulk_color_mixed: self.bulk_color_mixed,
            bulk_level_mixed: self.bulk_level_mixed,
            area_properties: property_rows(self.area_properties@),
            new_area_property_name: self.new_area_property_name@,
            new_area_property_value: self.new_area_property_value@,
            picker: self.picker,
            is_secret: self.is_secret,
            secret_error: text::opt_text(self.secret_error),
            secret_notice: text::opt_text(self.secret_notice),
        }
    }
}

/// Empty buffers.
pub open spec fn empty_state(defaults: ConnectionDefaults) -> StateView {
    State {
        title: Seq::empty(),
        description: Seq::empty(),
        level: Seq::empty(),
        x: Seq::empty(),
        y: Seq::empty(),
        color: Seq::empty(),
        properties: Seq::empty(),
        new_property_name: Seq::empty(),
        new_property_value: Seq::empty(),
        tags: Seq::empty(),
        known_tags: Seq::empty(),
        new_tag: Seq::empty(),
        exits: Seq::empty(),
        label: LabelBuffers::fresh(),
        shape: ShapeBuffers::fresh(),
        connection: unselected_connection(defaults),
        bulk_color: Seq::empty(),
        bulk_level: Seq::empty(),
        bulk_color_mixed: false,
        bulk_level_mixed: false,
        area_properties: Seq::empty(),
        new_area_property_name: Seq::empty(),
        new_area_property_value: Seq::empty(),
        picker: None,
        is_secret: false,
        secret_error: None,
        secret_notice: None,
    }
}

impl State {
    /// Empty buffers.
    pub fn new(defaults: &ConnectionDefaults) -> (state: Self)
        ensures
            state@ == empty_state(*defaults),
    {
        let state: State = State {
            title: String::new(),
            description: String::new(),
            level: String::new(),
            x: String::new(),
            y: String::new(),
            color: String::new(),
            properties: Vec::new(),
            new_property_name: String::new(),
            new_property_value: String::new(),
            tags: Vec::new(),
            known_tags: Vec::new(),
            new_tag: String::new(),
            exits: Vec::new(),
            label: LabelBuffers::default(),
            shape: ShapeBuffers::default(),
            connection: ConnectionBuffers {
                routing: ConnectionRouting::Simple,
                segment_shape: SegmentShape::Direct,
                corner: CornerStyle::Sharp,
                dash: ConnectionDash::Solid,
                color: defaults.color.clone(),
                thickness: defaults.thickness_text.clone(),
                endpoint_a_side: RoomSide::East,
                endpoint_a_offset: "0.5".to_owned(),
                endpoint_b_side: RoomSide::West,
                endpoint_b_offset: "0.5".to_owned(),
                has_endpoint_b: false,
                is_secret: false,
            },
            bulk_color: String::new(),
            bulk_level: String::new(),
            bulk_color_mixed: false,
            bulk_level_mixed: false,
            area_properties: Vec::new(),
            new_area_property_name: String::new(),
            new_area_property_value: String::new(),
            picker: None,
            is_secret: false,
            secret_error: None,
            secret_notice: None,
        };
        proof {
            assert(state@.properties =~= Seq::empty());
            assert(state@.tags =~= Seq::empty());
            assert(state@.known_tags =~= Seq::empty());
            assert(state@.exits =~= Seq::empty());
            assert(state@.area_properties =~= Seq::empty());
        }
        state
    }

    /// The text buffer behind a color field.
    pub fn color_buffer(&self, field: ColorField) -> (buffer: &str)
        ensures
            buffer@ == match field {
                ColorField::Room => self@.color,
                ColorField::Bulk => self@.bulk_color,
                ColorField::LabelText => self@.label.color,
                ColorField::LabelBackground => self@.label.background,
                ColorField::ShapeFill => self@.shape.background,
                ColorField::ShapeStroke => self@.shape.stroke_color,
            },
    {
        match field {
            ColorField::Room => self.color.as_str(),
            ColorField::Bulk => self.bulk_color.as_str(),
            ColorField::LabelText => self.label.color.as_str(),
            ColorField::LabelBackground => self.label.background.as_str(),
            ColorField::ShapeFill => self.shape.background.as_str(),
            ColorField::ShapeStroke => self.shape.stroke_color.as_str(),
        }
    }
}

// ===== Rows =====

/// The buffers of a property.
pub open spec fn property_row(entry: PropertyEntry) -> PropertyRow<Seq<char>> {
    PropertyRow { name: entry.name@, value: entry.value@, is_secret: entry.is_secret }
}

/// The order of property rows by name.
pub open spec fn row_before(a: PropertyRow<Seq<char>>, b: PropertyRow<Seq<char>>) -> bool {
    text::text_less(a.name, b.name)
}

/// Property rows by name.
pub open spec fn ordered_rows(rows: Seq<PropertyRow<Seq<char>>>) -> Seq<PropertyRow<Seq<char>>> {
    list::in_order(
        rows,
        |a: PropertyRow<Seq<char>>, b: PropertyRow<Seq<char>>| row_before(a, b),
    )
}

/// The buffers of a list of properties, by name.
pub open spec fn sorted_properties(entries: Seq<PropertyEntry>) -> Seq<PropertyRow<Seq<char>>> {
    ordered_rows(entries.map_values(|entry: PropertyEntry| property_row(entry)))
}

/// Whether one row comes before another by name.
fn row_first(a: &PropertyRow, b: &PropertyRow) -> (first: bool)
    ensures
        first == row_before(a@, b@),
{
    text_before(a.name.as_str(), b.name.as_str())
}

/// Property rows by name.
pub(crate) fn sort_rows(rows: Vec<PropertyRow>) -> (sorted: Vec<PropertyRow>)
    ensures
        property_rows(sorted@) == ordered_rows(property_rows(rows@)),
{
    let ghost by_view = |a: PropertyRow, b: PropertyRow| row_before(a@, b@);
    proof {
        list::lemma_in_order_map(
            rows@,
            |row: PropertyRow| row@,
            by_view,
            |a: PropertyRow<Seq<char>>, b: PropertyRow<Seq<char>>| row_before(a, b),
        );
    }
    let less = |a: &PropertyRow, b: &PropertyRow| -> (r: bool)
        ensures
            r == row_before(a@, b@),
    {
        row_first(a, b)
    };
    sort_by(rows, less, Ghost(by_view))
}

/// The buffers of a list of properties, by name.
fn property_buffers(entries: &Vec<PropertyEntry>) -> (rows: Vec<PropertyRow>)
    ensures
        property_rows(rows@) == sorted_properties(entries@),
{
    let ghost made = |entry: PropertyEntry| property_row(entry);
    let mut rows: Vec<PropertyRow> = Vec::new();
    assert(property_rows(rows@) =~= entries@.take(0).map_values(made));
    for i in 0..entries.len()
        invariant
            made == (|entry: PropertyEntry| property_row(entry)),
            property_rows(rows@) == entries@.take(i as int).map_values(made),
    {
        let ghost before = rows@;
        let row = PropertyRow {
            name: entries[i].name.clone(),
            value: entries[i].value.clone(),
            is_secret: entries[i].is_secret,
        };
        rows.push(row);
        proof {
            assert(property_rows(rows@) =~= property_rows(before).push(row@));
            assert(entries@.take(i + 1).map_values(made) =~= entries@.take(i as int).map_values(made).push(
                made(entries@[i as int]),
            ));
        }
    }
    assert(entries@.take(entries.len() as int) =~= entries@);
    sort_rows(rows)
}

/// A room number as text, empty when there is none.
pub open spec fn number_text(number: Option<RoomNumber>) -> Seq<char> {
    match number {
        Some(number) => text::signed_decimal(number.0 as int),
        None => Seq::empty(),
    }
}

/// The buffers of an exit; `shown` is how a float is shown.
pub open spec fn exit_row(
    from_room: RoomNumber,
    exit: ExitCache,
    shown: spec_fn(Scalar) -> Seq<char>,
) -> ExitRow<Seq<char>> {
    ExitRow {
        id: exit.id,
        from_room,
        from_direction: exit.from_direction,
        to_area: exit.to_area_id,
        to_room: number_text(exit.to_room_number),
        to_direction: exit.to_direction,
        path: text::or_empty(text::opt_text(exit.path)),
        command: text::or_empty(text::opt_text(exit.command)),
        weight: shown(exit.weight),
        is_hidden: exit.is_hidden,
        is_closed: exit.is_closed,
        is_locked: exit.is_locked,
        is_secret: exit.is_secret,
        to_unknown: exit.to_unknown,
    }
}

/// `show` shows a float as `shown` says.
pub open spec fn shows<F: Fn(Scalar) -> String>(show: F, shown: spec_fn(Scalar) -> Seq<char>) -> bool {
    forall|value: Scalar, shown_text: String| show.ensures((value,), shown_text) ==> shown_text@ == shown(value)
}

/// The order of exit rows by identity.
pub open spec fn exit_row_before(a: ExitRow<Seq<char>>, b: ExitRow<Seq<char>>) -> bool {
    a.id.0 < b.id.0
}

/// Exit rows by identity, so rows stay put while being edited.
pub open spec fn ordered_exits(rows: Seq<ExitRow<Seq<char>>>) -> Seq<ExitRow<Seq<char>>> {
    list::in_order(
        rows,
        |a: ExitRow<Seq<char>>, b: ExitRow<Seq<char>>| exit_row_before(a, b),
    )
}

/// The buffers of exits with their rooms, by identity.
pub open spec fn exit_buffers(
    exits: Seq<(RoomNumber, ExitCache)>,
    shown: spec_fn(Scalar) -> Seq<char>,
) -> Seq<ExitRow<Seq<char>>> {
    ordered_exits(
        exits.map_values(|exit: (RoomNumber, ExitCache)| exit_row(exit.0, exit.1, shown)),
    )
}

/// The exits of a room, each with the room's number.
pub open spec fn room_exits(room: RoomCache) -> Seq<(RoomNumber, ExitCache)> {
    room.exits@.map_values(|exit: ExitCache| (room.room_number, exit))
}

/// Whether one row comes before another by identity.
fn exit_row_first(a: &ExitRow, b: &ExitRow) -> (first: bool)
    ensures
        first == exit_row_before(a@, b@),
{
    a.id.0 < b.id.0
}

/// The buffers of exits with their rooms, by identity.
fn buffer_exits<F: Fn(Scalar) -> String>(
    exits: &Vec<(RoomNumber, &ExitCache)>,
    show: &F,
) -> (rows: Vec<ExitRow>)
    requires
        forall|value: Scalar| #[trigger] show.requires((value,)),
    ensures
        forall|shown: spec_fn(Scalar) -> Seq<char>| #[trigger]
            shows(*show, shown) ==> exit_rows(rows@) == exit_buffers(
                links::members_view(exits@),
                shown,
            ),
{
    let ghost all = links::members_view(exits@);
    let mut rows: Vec<ExitRow> = Vec::new();
    proof {
        assert forall|shown: spec_fn(Scalar) -> Seq<char>| #[trigger] shows(*show, shown) implies exit_rows(
            rows@,
        ) == all.take(0).map_values(|exit: (RoomNumber, ExitCache)| exit_row(exit.0, exit.1, shown)) by {
            assert(exit_rows(rows@) =~= all.take(0).map_values(
                |exit: (RoomNumber, ExitCache)| exit_row(exit.0, exit.1, shown),
            ));
        }
    }
    for i in 0..exits.len()
        invariant
            forall|value: Scalar| #[trigger] show.requires((value,)),
            all == links::members_view(exits@),
            forall|shown: spec_fn(Scalar) -> Seq<char>| #[trigger]
                shows(*show, shown) ==> exit_rows(rows@) == all.take(i as int).map_values(
                    |exit: (RoomNumber, ExitCache)| exit_row(exit.0, exit.1, shown),
                ),
    {
        let ghost before = rows@;
        let (from_room, exit) = exits[i];
        let weight = show(exit.weight);
        let row = ExitRow {
            id: exit.id,
            from_room,
            from_direction: exit.from_direction,
            to_area: exit.to_area_id,
            to_room: match exit.to_room_number {
                Some(number) => signed_decimal_text(number.0 as i64),
                None => String::new(),
            },
            to_direction: exit.to_direction,
            path: clone_or_empty(&exit.path),
            command: clone_or_empty(&exit.command),
            weight,
            is_hidden: exit.is_hidden,
            is_closed: exit.is_closed,
            is_locked: exit.is_locked,
            is_secret: exit.is_secret,
            to_unknown: exit.to_unknown,
        };
        rows.push(row);
        proof {
            assert(exit_rows(rows@) =~= exit_rows(before).push(row@));
            assert forall|shown: spec_fn(Scalar) -> Seq<char>| #[trigger]
                shows(*show, shown) implies exit_rows(rows@) == all.take(i + 1).map_values(
                |exit: (RoomNumber, ExitCache)| exit_row(exit.0, exit.1, shown),
            ) by {
                let made = |exit: (RoomNumber, ExitCache)| exit_row(exit.0, exit.1, shown);
                assert(row@ == made(all[i as int]));
                assert(all.take(i + 1).map_values(made) =~= all.take(i as int).map_values(made).push(
                    made(all[i as int]),
                ));
            }
        }
    }
    assert(all.take(exits.len() as int) =~= all);
    let ghost by_view = |a: ExitRow, b: ExitRow| exit_row_before(a@, b@);
    proof {
        list::lemma_in_order_map(
            rows@,
            |row: ExitRow| row@,
            by_view,
            |a: ExitRow<Seq<char>>, b: ExitRow<Seq<char>>| exit_row_before(a, b),
        );
    }
    let less = |a: &ExitRow, b: &ExitRow| -> (r: bool)
        ensures
            r == exit_row_before(a@, b@),
    {
        exit_row_first(a, b)
    };
    sort_by(rows, less, Ghost(by_view))
}

// ===== Tags =====

/// `tag` put into an ordered set of tags.
pub open spec fn with_tag(tags: Seq<Seq<char>>, tag: Seq<char>) -> Seq<Seq<char>>
    decreases tags.len(),
{
    if tags.len() == 0 {
        seq![tag]
    } else if tags.last() == tag {
        tags
    } else if text::text_less(tag, tags.last()) {
        with_tag(tags.drop_last(), tag).push(tags.last())
    } else {
        tags.push(tag)
    }
}

/// The distinct tags of a list, in order.
pub open spec fn tag_set(tags: Seq<Seq<char>>) -> Seq<Seq<char>>
    decreases tags.len(),
{
    if tags.len() == 0 {
        Seq::empty()
    } else {
        with_tag(tag_set(tags.drop_last()), tags.last())
    }
}

/// Every tag of an area's rooms, with repetitions.
pub open spec fn area_tags(area: AreaCache) -> Seq<Seq<char>> {
    list::collect(area.rooms@, |room: RoomCache| text::texts(room.tags@))
}

/// Puts `tag` into an ordered set of tags.
fn insert_tag(tags: &mut Vec<String>, tag: &String)
    ensures
        text::texts(final(tags)@) == with_tag(text::texts(old(tags)@), tag@),
{
    let ghost given = text::texts(tags@);
    let ghost held = tags@;
    let mut i: usize = tags.len();
    assert(given.take(i as int) =~= given && given.skip(i as int) =~= Seq::empty());
    while i > 0 && text_before(tag.as_str(), tags[i - 1].as_str())
        invariant
            tags@ == held,
            given == text::texts(held),
            i <= given.len(),
            with_tag(given, tag@) == with_tag(given.take(i as int), tag@) + given.skip(i as int),
        ensures
            i <= given.len(),
            i > 0 ==> !text::text_less(tag@, given[i - 1]),
            with_tag(given, tag@) == with_tag(given.take(i as int), tag@) + given.skip(i as int),
        decreases i,
    {
        proof {
            let t = given.take(i as int);
            assert(t.last() == held[i - 1]@);
            text::lemma_text_less(tag@, tag@, tag@);
            assert(t.drop_last() =~= given.take(i - 1));
            assert(with_tag(given.take(i - 1), tag@).push(given[i - 1]) + given.skip(i as int)
                =~= with_tag(given.take(i - 1), tag@) + given.skip(i - 1));
        }
        i = i - 1;
    }
    if i > 0 && text::same_text(tags[i - 1].as_str(), tag.as_str()) {
        proof {
            assert(given.take(i as int).last() == tag@);
            assert(given.take(i as int) + given.skip(i as int) =~= given);
        }
        return;
    }
    tags.insert(i, tag.clone());
    proof {
        assert(text::texts(tags@) =~= given.take(i as int).push(tag@) + given.skip(i as int));
        if i > 0 {
            assert(given.take(i as int).last() == given[i - 1]);
        }
        assert(with_tag(given.take(i as int), tag@) =~= given.take(i as int).push(tag@));
    }
}

/// A copy of a list of texts.
pub(crate) fn clone_texts(list: &Vec<String>) -> (copy: Vec<String>)
    ensures
        text::texts(copy@) == text::texts(list@),
{
    let mut copy: Vec<String> = Vec::new();
    for i in 0..list.len()
        invariant
            text::texts(copy@) == text::texts(list@).take(i as int),
    {
        let ghost before = copy@;
        let item = list[i].clone();
        copy.push(item);
        proof {
            assert(text::texts(copy@) =~= text::texts(before).push(item@));
            assert(text::texts(list@).take(i + 1) =~= text::texts(list@).take(i as int).push(
                list@[i as int]@,
            ));
        }
    }
    assert(text::texts(list@).take(list.len() as int) =~= text::texts(list@));
    copy
}

/// The distinct tags of an area's rooms, in order.
fn collect_tags(area: &AreaCache) -> (tags: Vec<String>)
    ensures
        text::texts(tags@) == tag_set(area_tags(*area)),
{
    let ghost piece = |room: RoomCache| text::texts(room.tags@);
    let mut tags: Vec<String> = Vec::new();
    proof {
        assert(area.rooms@.take(0) =~= Seq::empty());
        assert(text::texts(tags@) =~= tag_set(list::collect(area.rooms@.take(0), piece)));
    }
    for i in 0..area.rooms.len()
        invariant
            piece == (|room: RoomCache| text::texts(room.tags@)),
            text::texts(tags@) == tag_set(list::collect(area.rooms@.take(i as int), piece)),
    {
        let room = &area.rooms[i];
        let ghost done = list::collect(area.rooms@.take(i as int), piece);
        let ghost own = text::texts(room.tags@);
        assert(done =~= done + own.take(0));
        for k in 0..room.tags.len()
            invariant
                own == text::texts(room.tags@),
                text::texts(tags@) == tag_set(done + own.take(k as int)),
        {
            insert_tag(&mut tags, &room.tags[k]);
            proof {
                let longer = done + own.take(k + 1);
                assert(longer.drop_last() =~= done + own.take(k as int));
                assert(longer.last() == room.tags@[k as int]@);
            }
        }
        proof {
            assert(own.take(room.tags.len() as int) =~= own);
            list::lemma_collect_step(area.rooms@, piece, i as int);
        }
    }
    assert(area.rooms@.take(area.rooms.len() as int) =~= area.rooms@);
    tags
}

// ===== Rebuilding the buffers =====

/// The buffers of a selected room.
pub open spec fn with_room(
    base: StateView,
    area: AreaCache,
    room: RoomCache,
    shown: spec_fn(Scalar) -> Seq<char>,
) -> StateView {
    State {
        title: room.title@,
        description: room.description@,
        level: text::signed_decimal(room.level as int),
        x: shown(room.x),
        y: shown(room.y),
        color: room.color@,
        is_secret: room.is_secret,
        properties: sorted_properties(room.properties@),
        tags: text::texts(room.tags@),
        known_tags: tag_set(area_tags(area)),
        exits: exit_buffers(room_exits(room), shown),
        ..base
    }
}

/// The buffers of a selected label.
pub open spec fn with_label(
    base: StateView,
    label: LabelCache,
    shown: spec_fn(Scalar) -> Seq<char>,
) -> StateView {
    State {
        is_secret: label.is_secret,
        label: LabelBuffers {
            text: label.text@,
            color: label.color@,
            background: label.background_color@,
            font_size: text::signed_decimal(label.font_size as int),
            font_weight: text::signed_decimal(label.font_weight as int),
            horizontal_alignment: label.horizontal_alignment,
            vertical_alignment: label.vertical_alignment,
            x: shown(label.x),
            y: shown(label.y),
            width: shown(label.width),
            height: shown(label.height),
        },
        ..base
    }
}

/// The buffers of a selected shape.
pub open spec fn with_shape(
    base: StateView,
    shape: ShapeCache,
    shown: spec_fn(Scalar) -> Seq<char>,
) -> StateView {
    State {
        is_secret: shape.is_secret,
        shape: ShapeBuffers {
            shape_type: shape.shape_type,
            background: text::or_empty(text::opt_text(shape.background_color)),
            stroke_color: text::or_empty(text::opt_text(shape.stroke_color)),
            stroke_width: shown(shape.stroke_width),
            border_radius: shown(shape.border_radius),
            x: shown(shape.x),
            y: shown(shape.y),
            width: shown(shape.width),
            height: shown(shape.height),
        },
        ..base
    }
}

/// Whether a connection is drawn as a secret one.
pub open spec fn drawn_secret(area: AreaCache, id: ConnectionId) -> bool {
    match area.drawn(id) {
        Some(drawn) => drawn.is_secret,
        None => false,
    }
}

/// The buffers of a selected connection, with the exits that share it.
pub open spec fn with_connection(
    base: StateView,
    area: AreaCache,
    connection: Connection,
    shown: spec_fn(Scalar) -> Seq<char>,
) -> StateView {
    State {
        connection: ConnectionBuffers {
            routing: connection.routing,
            segment_shape: connection.segment_shape,
            corner: connection.corner,
            dash: connection.dash,
            color: connection.color@,
            thickness: shown(connection.thickness),
            endpoint_a_side: connection.endpoint_a.side,
            endpoint_a_offset: shown(connection.endpoint_a.port_offset),
            endpoint_b_side: match connection.endpoint_b {
                Some(endpoint) => endpoint.side,
                None => RoomSide::West,
            },
            endpoint_b_offset: match connection.endpoint_b {
                Some(endpoint) => shown(endpoint.port_offset),
                None => "0.5"@,
            },
            has_endpoint_b: connection.endpoint_b is Some,
            is_secret: drawn_secret(area, connection.id),
        },
        exits: exit_buffers(links::members(area, connection.id), shown),
        ..base
    }
}

/// Whether the rooms agree on a color.
pub open spec fn same_color(rooms: Seq<RoomCache>) -> bool {
    forall|i: int| 0 <= i < rooms.len() ==> (#[trigger] rooms[i]).color@ == rooms[0].color@
}

/// Whether the rooms agree on a level.
pub open spec fn same_level(rooms: Seq<RoomCache>) -> bool {
    forall|i: int| 0 <= i < rooms.len() ==> (#[trigger] rooms[i]).level == rooms[0].level
}

/// The bulk buffers of several selected rooms: what they agree on, and what they
/// do not.
pub open spec fn with_bulk(base: StateView, rooms: Seq<RoomCache>) -> StateView {
    if rooms.len() == 0 {
        base
    } else {
        State {
            bulk_color: if same_color(rooms) {
                rooms[0].color@
            } else {
                Seq::empty()
            },
            bulk_color_mixed: !same_color(rooms),
            bulk_level: if same_level(rooms) {
                text::signed_decimal(rooms[0].level as int)
            } else {
                Seq::empty()
            },
            bulk_level_mixed: !same_level(rooms),
            ..base
        }
    }
}

/// The rebuilt buffers. Only the secrecy lines survive.
pub open spec fn resynced(
    before: StateView,
    atlas: AtlasCache,
    area_id: Option<AreaId>,
    selection: Seq<EntityId>,
    defaults: ConnectionDefaults,
    shown: spec_fn(Scalar) -> Seq<char>,
) -> StateView {
    let base = State {
        secret_error: before.secret_error,
        secret_notice: before.secret_notice,
        ..empty_state(defaults)
    };
    let area = match area_id {
        Some(id) => atlas.area(id),
        None => None,
    };
    match area {
        None => base,
        Some(area) => match cache::single_entity(selection) {
            Some(EntityId::Room(number)) => match area.room(number) {
                Some(room) => with_room(base, area, room, shown),
                None => base,
            },
            Some(EntityId::Label(id)) => match area.label(id) {
                Some(label) => with_label(base, label, shown),
                None => base,
            },
            Some(EntityId::Shape(id)) => match area.shape(id) {
                Some(shape) => with_shape(base, shape, shown),
                None => base,
            },
            Some(EntityId::Connection(id)) => match area.connection(id) {
                Some(connection) => with_connection(base, area, connection, shown),
                None => base,
            },
            None => if selection.len() == 0 {
                State { area_properties: sorted_properties(area.properties@), ..base }
            } else {
                with_bulk(
                    base,
                    super::super::deletion::cached_rooms(area, cache::selected_rooms(selection)),
                )
            },
        },
    }
}

/// Rebuilt buffers depend on the old ones by the secrecy lines alone: no edit that was
/// under way survives.
pub proof fn law_rebuilt_buffers_keep_the_secrecy_lines_alone(
    a: StateView,
    b: StateView,
    atlas: AtlasCache,
    area_id: Option<AreaId>,
    selection: Seq<EntityId>,
    defaults: ConnectionDefaults,
    shown: spec_fn(Scalar) -> Seq<char>,
)
    requires
        a.secret_error == b.secret_error,
        a.secret_notice == b.secret_notice,
    ensures
        resynced(a, atlas, area_id, selection, defaults, shown) == resynced(
            b,
            atlas,
            area_id,
            selection,
            defaults,
            shown,
        ),
        resynced(a, atlas, area_id, selection, defaults, shown).secret_error == a.secret_error,
        resynced(a, atlas, area_id, selection, defaults, shown).secret_notice == a.secret_notice,
{
}

/// Rebuilding the buffers a second time changes nothing.
pub proof fn law_rebuilding_buffers_twice_is_rebuilding_them_once(
    before: StateView,
    atlas: AtlasCache,
    area_id: Option<AreaId>,
    selection: Seq<EntityId>,
    defaults: ConnectionDefaults,
    shown: spec_fn(Scalar) -> Seq<char>,
)
    ensures
        resynced(
            resynced(before, atlas, area_id, selection, defaults, shown),
            atlas,
            area_id,
            selection,
            defaults,
            shown,
        ) == resynced(before, atlas, area_id, selection, defaults, shown),
{
}

/// The cached rooms among `rooms`.
fn find_rooms<'a>(area: &'a AreaCache, rooms: &Vec<RoomNumber>) -> (found: Vec<&'a RoomCache>)
    ensures
        found@.len() == super::super::deletion::cached_rooms(*area, rooms@).len(),
        forall|i: int|
            0 <= i < found@.len() ==> *(#[trigger] found@[i])
                == super::super::deletion::cached_rooms(*area, rooms@)[i],
{
    let ghost piece = |number: RoomNumber|
        match area.room(number) {
            Some(room) => seq![room],
            None => Seq::empty(),
        };
    let mut found: Vec<&'a RoomCache> = Vec::new();
    assert(rooms@.take(0) =~= Seq::empty());
    for i in 0..rooms.len()
        invariant
            piece == (|number: RoomNumber|
                match area.room(number) {
                    Some(room) => seq![room],
                    None => Seq::empty(),
                }),
            found@.len() == list::collect(rooms@.take(i as int), piece).len(),
            forall|k: int|
                0 <= k < found@.len() ==> *(#[trigger] found@[k]) == list::collect(
                    rooms@.take(i as int),
                    piece,
                )[k],
    {
        proof {
            list::lemma_collect_step(rooms@, piece, i as int);
        }
        if let Some(room) = area.get_room(&rooms[i]) {
            found.push(room);
        }
    }
    assert(rooms@.take(rooms.len() as int) =~= rooms@);
    found
}

impl State {
    /// Fills the room buffers.
    fn fill_room<F: Fn(Scalar) -> String>(&mut self, area: &AreaCache, room: &RoomCache, show: &F)
        requires
            forall|value: Scalar| #[trigger] show.requires((value,)),
        ensures
            forall|shown: spec_fn(Scalar) -> Seq<char>| #[trigger]
                shows(*show, shown) ==> final(self)@ == with_room(old(self)@, *area, *room, shown),
    {
        self.title = room.title.clone();
        self.description = room.description.clone();
        self.level = signed_decimal_text(room.level as i64);
        self.x = show(room.x);
        self.y = show(room.y);
        self.color = room.color.clone();
        self.is_secret = room.is_secret;
        self.properties = property_buffers(&room.properties);
        self.tags = clone_texts(&room.tags);
        self.known_tags = collect_tags(area);
        let mut exits: Vec<(RoomNumber, &ExitCache)> = Vec::new();
        for i in 0..room.exits.len()
            invariant
                exits@.len() == i,
                forall|j: int|
                    0 <= j < i ==> (#[trigger] exits@[j]).0 == room.room_number && *exits@[j].1
                        == room.exits@[j],
        {
            exits.push((room.room_number, &room.exits[i]));
        }
        assert(links::members_view(exits@) =~= room_exits(*room));
        self.exits = buffer_exits(&exits, show);
    }

    /// Fills the label buffers.
    fn fill_label<F: Fn(Scalar) -> String>(&mut self, label: &LabelCache, show: &F)
        requires
            forall|value: Scalar| #[trigger] show.requires((value,)),
        ensures
            forall|shown: spec_fn(Scalar) -> Seq<char>| #[trigger]
                shows(*show, shown) ==> final(self)@ == with_label(old(self)@, *label, shown),
    {
        self.is_secret = label.is_secret;
        self.label = LabelBuffers {
            text: label.text.clone(),
            color: label.color.clone(),
            background: label.background_color.clone(),
            font_size: signed_decimal_text(label.font_size as i64),
            font_weight: signed_decimal_text(label.font_weight as i64),
            horizontal_alignment: label.horizontal_alignment,
            vertical_alignment: label.vertical_alignment,
            x: show(label.x),
            y: show(label.y),
            width: show(label.width),
            height: show(label.height),
        };
    }

    /// Fills the shape buffers.
    fn fill_shape<F: Fn(Scalar) -> String>(&mut self, shape: &ShapeCache, show: &F)
        requires
            forall|value: Scalar| #[trigger] show.requires((value,)),
        ensures
            forall|shown: spec_fn(Scalar) -> Seq<char>| #[trigger]
                shows(*show, shown) ==> final(self)@ == with_shape(old(self)@, *shape, shown),
    {
        self.is_secret = shape.is_secret;
        self.shape = ShapeBuffers {
            shape_type: shape.shape_type,
            background: clone_or_empty(&shape.background_color),
            stroke_color: clone_or_empty(&shape.stroke_color),
            stroke_width: show(shape.stroke_width),
            border_radius: show(shape.border_radius),
            x: show(shape.x),
            y: show(shape.y),
            width: show(shape.width),
            height: show(shape.height),
        };
    }

    /// Fills the connection buffers.
    fn fill_connection<F: Fn(Scalar) -> String>(
        &mut self,
        area: &AreaCache,
        connection: &Connection,
        show: &F,
    )
        requires
            forall|value: Scalar| #[trigger] show.requires((value,)),
        ensures
            forall|shown: spec_fn(Scalar) -> Seq<char>| #[trigger]
                shows(*show, shown) ==> final(self)@ == with_connection(
                    old(self)@,
                    *area,
                    *connection,
                    shown,
                ),
    {
        let is_secret = match area.get_drawn(&connection.id) {
            Some(drawn) => drawn.is_secret,
            None => false,
        };
        self.connection = ConnectionBuffers {
            routing: connection.routing,
            segment_shape: connection.segment_shape,
            corner: connection.corner,
            dash: connection.dash,
            color: connection.color.clone(),
            thickness: show(connection.thickness),
            endpoint_a_side: connection.endpoint_a.side,
            endpoint_a_offset: show(connection.endpoint_a.port_offset),
            endpoint_b_side: match connection.endpoint_b {
                Some(endpoint) => endpoint.side,
                None => RoomSide::West,
            },
            endpoint_b_offset: match connection.endpoint_b {
                Some(endpoint) => show(endpoint.port_offset),
                None => "0.5".to_owned(),
            },
            has_endpoint_b: connection.endpoint_b.is_some(),
            is_secret,
        };
        let members = members_of(area, connection.id);
        self.exits = buffer_exits(&members, show);
    }

    /// Fills the bulk buffers.
    fn fill_bulk(&mut self, area: &AreaCache, rooms: &Vec<RoomNumber>)
        requires
            old(self)@.bulk_color == Seq::<char>::empty(),
            old(self)@.bulk_level == Seq::<char>::empty(),
            !old(self)@.bulk_color_mixed,
            !old(self)@.bulk_level_mixed,
        ensures
            final(self)@ == with_bulk(
                old(self)@,
                super::super::deletion::cached_rooms(*area, rooms@),
            ),
    {
        let ghost all = super::super::deletion::cached_rooms(*area, rooms@);
        let found = find_rooms(area, rooms);
        if found.len() == 0 {
            return;
        }
        let first = found[0];
        let mut color_agrees = true;
        let mut level_agrees = true;
        for i in 0..found.len()
            invariant
                found@.len() > 0,
                first == found@[0],
                found@.len() == all.len(),
                forall|k: int| 0 <= k < found@.len() ==> *(#[trigger] found@[k]) == all[k],
                color_agrees == forall|k: int|
                    0 <= k < i ==> (#[trigger] all[k]).color@ == all[0].color@,
                level_agrees == forall|k: int|
                    0 <= k < i ==> (#[trigger] all[k]).level == all[0].level,
        {
            assert(*found@[i as int] == all[i as int] && *found@[0] == all[0]);
            if !text::same_text(found[i].color.as_str(), first.color.as_str()) {
                color_agrees = false;
            }
            if found[i].level != first.level {
                level_agrees = false;
            }
        }
        assert(color_agrees == same_color(all));
        assert(level_agrees == same_level(all));
        assert(*first == all[0]);
        if color_agrees {
            self.bulk_color = first.color.clone();
        } else {
            self.bulk_color_mixed = true;
        }
        if level_agrees {
            self.bulk_level = signed_decimal_text(first.level as i64);
        } else {
            self.bulk_level_mixed = true;
        }
    }

    /// Rebuilds every buffer from the cache. The secrecy lines survive: rebuilds
    /// follow every cache change, which would otherwise hide them before they
    /// are read. `show` is how a float is shown.
    pub fn resync<F: Fn(Scalar) -> String>(
        &mut self,
        atlas: &AtlasCache,
        area_id: Option<AreaId>,
        selection: &Selection,
        defaults: &ConnectionDefaults,
        show: F,
    )
        requires
            forall|value: Scalar| #[trigger] show.requires((value,)),
        ensures
            forall|shown: spec_fn(Scalar) -> Seq<char>| #[trigger]
                shows(show, shown) ==> final(self)@ == resynced(
                    old(self)@,
                    *atlas,
                    area_id,
                    selection@,
                    *defaults,
                    shown,
                ),
    {
        let secret_error = self.secret_error.take();
        let secret_notice = self.secret_notice.take();
        *self = State::new(defaults);
        self.secret_error = secret_error;
        self.secret_notice = secret_notice;
        let area = match area_id {
            Some(id) => match atlas.get_area(&id) {
                Some(area) => area,
                None => return,
            },
            None => return,
        };
        match selection.single() {
            Some(EntityId::Room(number)) => {
                if let Some(room) = area.get_room(&number) {
                    self.fill_room(area, room, &show);
                }
            },
            Some(EntityId::Label(id)) => {
                if let Some(label) = area.get_label(&id) {
                    self.fill_label(label, &show);
                }
            },
            Some(EntityId::Shape(id)) => {
                if let Some(shape) = area.get_shape(&id) {
                    self.fill_shape(shape, &show);
                }
            },
            Some(EntityId::Connection(id)) => {
                if let Some(connection) = area.get_connection(&id) {
                    self.fill_connection(area, connection, &show);
                }
            },
            None => {
                if selection.is_empty() {
                    self.area_properties = property_buffers(&area.properties);
                } else {
                    let rooms = selection.rooms();
                    self.fill_bulk(area, &rooms);
                }
            },
        }
    }
}

} // verus!
