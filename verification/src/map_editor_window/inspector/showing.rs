//! What the forms of the inspector show of the selection.
//!
//! The laws compare a form with the entity it is of: typing what is shown would change nothing.

use vstd::prelude::*;

use super::super::cache;
use super::super::copied_links;
use super::super::links;
use super::super::model::{
    AreaCache, AreaId, AtlasCache, Connection, EntityId, ExitCache, LabelCache, PropertyEntry, RoomCache,
    RoomNumber, Scalar, ShapeCache,
};
use super::super::undoing;
use super::hooking;
use super::rooms::RoomMessage;
use super::state::{self, ConnectionDefaults, ExitRow, PropertyRow, StateView};
use super::typing;
use super::wires::ExitField;
use crate::list;
use crate::text;

verus! {

// ===== Rows =====

/// Whether rows are of properties: one of each, and of no others, by name.
pub open spec fn are_property_rows(rows: Seq<PropertyRow<Seq<char>>>, entries: Seq<PropertyEntry>) -> bool {
    &&& rows.len() == entries.len()
    &&& forall|i: int, j: int|
        0 <= i < j < rows.len() ==> !text::text_less((#[trigger] rows[j]).name, (#[trigger] rows[i]).name)
    &&& forall|name: Seq<char>, value: Seq<char>, is_secret: bool|
        #![trigger has_property(entries, name, value, is_secret)]
        rows.contains(PropertyRow { name, value, is_secret }) <==> has_property(
            entries,
            name,
            value,
            is_secret,
        )
}

/// Whether properties hold one.
pub open spec fn has_property(
    entries: Seq<PropertyEntry>,
    name: Seq<char>,
    value: Seq<char>,
    is_secret: bool,
) -> bool {
    exists|i: int|
        0 <= i < entries.len() && (#[trigger] entries[i]).name@ == name && entries[i].value@ == value
            && entries[i].is_secret == is_secret
}

/// The rows of properties are of the properties.
proof fn lemma_property_rows(entries: Seq<PropertyEntry>)
    ensures
        are_property_rows(state::sorted_properties(entries), entries),
{
    let made = |entry: PropertyEntry| state::property_row(entry);
    let less = |a: PropertyRow<Seq<char>>, b: PropertyRow<Seq<char>>| state::row_before(a, b);
    let given = entries.map_values(made);
    let rows = state::sorted_properties(entries);
    assert(rows == list::in_order(given, less));
    assert(list::is_weak_order(less)) by {
        assert forall|a: PropertyRow<Seq<char>>, b: PropertyRow<Seq<char>>| #[trigger] less(a, b) implies !less(
            b,
            a,
        ) by {
            text::lemma_text_less(a.name, b.name, a.name);
        }
        assert forall|a: PropertyRow<Seq<char>>, b: PropertyRow<Seq<char>>, c: PropertyRow<Seq<char>>|
            #[trigger] less(a, b) && #[trigger] less(b, c) implies less(a, c) by {
            text::lemma_text_less(a.name, b.name, c.name);
        }
        assert forall|a: PropertyRow<Seq<char>>, b: PropertyRow<Seq<char>>, c: PropertyRow<Seq<char>>|
            #![trigger less(a, b), less(b, c)]
            !less(a, b) && !less(b, c) implies !less(a, c) by {
            text::lemma_text_less(c.name, b.name, a.name);
            text::lemma_text_less(a.name, b.name, c.name);
            text::lemma_text_less(b.name, a.name, c.name);
            text::lemma_text_less(a.name, c.name, b.name);
        }
    }
    list::lemma_in_order(given, less);
    assert forall|i: int, j: int| 0 <= i < j < rows.len() implies !text::text_less(
        (#[trigger] rows[j]).name,
        (#[trigger] rows[i]).name,
    ) by {
        assert(!less(rows[j], rows[i]));
    }
    assert forall|name: Seq<char>, value: Seq<char>, is_secret: bool|
        #![trigger has_property(entries, name, value, is_secret)]
        rows.contains(PropertyRow { name, value, is_secret }) <==> has_property(
            entries,
            name,
            value,
            is_secret,
        ) by {
        let row = PropertyRow { name, value, is_secret };
        list::lemma_in_order_holds(given, less, row);
        if given.contains(row) {
            let i = choose|i: int| 0 <= i < given.len() && given[i] == row;
            assert(entries[i].name@ == name);
        }
        if has_property(entries, name, value, is_secret) {
            let i = choose|i: int|
                0 <= i < entries.len() && (#[trigger] entries[i]).name@ == name && entries[i].value@ == value
                    && entries[i].is_secret == is_secret;
            assert(given[i] == row);
        }
    }
}

/// Whether a row is of an exit: putting what it shows back into a field would leave the exit as
/// it is.
pub open spec fn is_row_of(
    row: ExitRow<Seq<char>>,
    from_room: RoomNumber,
    exit: ExitCache,
    shown: spec_fn(Scalar) -> Seq<char>,
) -> bool {
    &&& row.id == exit.id && row.from_room == from_room
    &&& row.to_unknown == exit.to_unknown && row.is_secret == exit.is_secret
    &&& row.to_area == exit.to_area_id && row.to_direction == exit.to_direction
    &&& row.weight == shown(exit.weight)
    &&& match exit.to_room_number {
        Some(number) => row.to_room == text::signed_decimal(number.0 as int),
        None => row.to_room.len() == 0,
    }
    &&& hooking::exit_with(exit@, ExitField::FromDirection(row.from_direction)) == exit@
    &&& hooking::exit_with(exit@, ExitField::Path(row.path)) == exit@
    &&& exit.path is None ==> row.path.len() == 0
    &&& exit.path is Some ==> row.path == exit.path->0@
    &&& hooking::exit_with(exit@, ExitField::Command(row.command)) == exit@
    &&& exit.command is None ==> row.command.len() == 0
    &&& exit.command is Some ==> row.command == exit.command->0@
    &&& hooking::exit_with(exit@, ExitField::Hidden(row.is_hidden)) == exit@
    &&& hooking::exit_with(exit@, ExitField::Closed(row.is_closed)) == exit@
    &&& hooking::exit_with(exit@, ExitField::Locked(row.is_locked)) == exit@
}

/// Whether an exit has a row.
pub open spec fn has_row(
    rows: Seq<ExitRow<Seq<char>>>,
    from_room: RoomNumber,
    exit: ExitCache,
    shown: spec_fn(Scalar) -> Seq<char>,
) -> bool {
    exists|k: int| 0 <= k < rows.len() && is_row_of(#[trigger] rows[k], from_room, exit, shown)
}

/// Whether rows are in the order of the identities of their exits.
pub open spec fn are_by_identity(rows: Seq<ExitRow<Seq<char>>>) -> bool {
    forall|i: int, j: int| 0 <= i < j < rows.len() ==> (#[trigger] rows[i]).id.0 <= (#[trigger] rows[j]).id.0
}

/// Every exit has a row, and there are as many rows as exits.
proof fn lemma_exit_rows(exits: Seq<(RoomNumber, ExitCache)>, shown: spec_fn(Scalar) -> Seq<char>)
    ensures
        ({
            let rows = state::exit_buffers(exits, shown);
            &&& rows.len() == exits.len()
            &&& are_by_identity(rows)
            &&& forall|i: int| 0 <= i < exits.len() ==> has_row(rows, (#[trigger] exits[i]).0, exits[i].1, shown)
        }),
{
    let made = |exit: (RoomNumber, ExitCache)| state::exit_row(exit.0, exit.1, shown);
    let less = |a: ExitRow<Seq<char>>, b: ExitRow<Seq<char>>| state::exit_row_before(a, b);
    let given = exits.map_values(made);
    let rows = state::exit_buffers(exits, shown);
    assert(rows == list::in_order(given, less));
    list::lemma_in_order(given, less);
    assert forall|i: int, j: int| 0 <= i < j < rows.len() implies (#[trigger] rows[i]).id.0 <= (
    #[trigger] rows[j]).id.0 by {
        assert(!less(rows[j], rows[i]));
    }
    assert forall|i: int| 0 <= i < exits.len() implies has_row(rows, (#[trigger] exits[i]).0, exits[i].1, shown) by {
        let exit = exits[i].1;
        list::lemma_in_order_holds(given, less, given[i]);
        assert(given.contains(given[i]));
        let k = choose|k: int| 0 <= k < rows.len() && rows[k] == given[i];
        assert(rows[k] == state::exit_row(exits[i].0, exit, shown));
        assert(is_row_of(rows[k], exits[i].0, exit, shown));
    }
}

// ===== Forms =====

/// Whether a form shows a room: putting what it shows back would leave the room as it is.
pub open spec fn shows_room(
    form: StateView,
    room: RoomCache,
    shown: spec_fn(Scalar) -> Seq<char>,
) -> bool {
    let kept = undoing::room_state(room);
    &&& typing::room_with(kept, RoomMessage::Title(form.title)) == kept
    &&& form.description == kept.description
    &&& form.level == text::signed_decimal(room.level as int)
    &&& form.x == shown(room.x) && form.y == shown(room.y)
    &&& typing::room_with(kept, RoomMessage::Color(form.color, true)) == kept
    &&& form.is_secret == room.is_secret
    &&& are_property_rows(form.properties, room.properties@)
    &&& form.tags == text::texts(room.tags@)
    &&& form.exits.len() == room.exits@.len() && are_by_identity(form.exits)
    &&& forall|e: int|
        0 <= e < room.exits@.len() ==> has_row(form.exits, room.room_number, #[trigger] room.exits@[e], shown)
}

/// Whether a form shows a label.
pub open spec fn shows_label(form: StateView, label: LabelCache, shown: spec_fn(Scalar) -> Seq<char>) -> bool {
    let buffers = form.label;
    &&& form.is_secret == label.is_secret
    &&& buffers.text == label.text@ && buffers.color == label.color@ && buffers.background
        == label.background_color@
    &&& buffers.font_size == text::signed_decimal(label.font_size as int) && buffers.font_weight
        == text::signed_decimal(label.font_weight as int)
    &&& buffers.horizontal_alignment == label.horizontal_alignment && buffers.vertical_alignment
        == label.vertical_alignment
    &&& buffers.x == shown(label.x) && buffers.y == shown(label.y) && buffers.width == shown(label.width)
        && buffers.height == shown(label.height)
}

/// Whether a form shows a shape.
pub open spec fn shows_shape(form: StateView, shape: ShapeCache, shown: spec_fn(Scalar) -> Seq<char>) -> bool {
    let buffers = form.shape;
    let kept = undoing::shape_state(shape);
    &&& form.is_secret == shape.is_secret
    &&& buffers.shape_type == kept.shape_type
    &&& buffers.background == kept.background_color && buffers.stroke_color == kept.stroke_color
    &&& buffers.stroke_width == shown(kept.stroke_width) && buffers.border_radius == shown(kept.border_radius)
    &&& buffers.x == shown(kept.x) && buffers.y == shown(kept.y) && buffers.width == shown(kept.width)
        && buffers.height == shown(kept.height)
}

/// Whether a form shows a connection and the exits on it.
pub open spec fn shows_connection(
    form: StateView,
    area: AreaCache,
    connection: Connection,
    shown: spec_fn(Scalar) -> Seq<char>,
) -> bool {
    let buffers = form.connection;
    &&& buffers.routing == connection.routing && buffers.segment_shape == connection.segment_shape
    &&& buffers.corner == connection.corner && buffers.dash == connection.dash
    &&& buffers.color == connection.color@ && buffers.thickness == shown(connection.thickness)
    &&& buffers.endpoint_a_side == connection.endpoint_a.side && buffers.endpoint_a_offset == shown(
        connection.endpoint_a.port_offset,
    )
    &&& buffers.has_endpoint_b == connection.endpoint_b is Some
    &&& connection.endpoint_b is Some ==> buffers.endpoint_b_side == connection.endpoint_b->0.side
        && buffers.endpoint_b_offset == shown(connection.endpoint_b->0.port_offset)
    &&& are_by_identity(form.exits)
    &&& forall|r: int, e: int| #[trigger]
        copied_links::is_on(area, connection.id, r, e) ==> has_row(
            form.exits,
            area.rooms@[r].room_number,
            area.rooms@[r].exits@[e],
            shown,
        )
}

/// A form shows the one entity that is selected, as it is; with nothing selected it shows the
/// properties of the area.
pub proof fn law_a_form_shows_what_is_selected(
    before: StateView,
    atlas: AtlasCache,
    area_id: AreaId,
    selection: Seq<EntityId>,
    defaults: ConnectionDefaults,
    shown: spec_fn(Scalar) -> Seq<char>,
)
    requires
        atlas.area(area_id) is Some,
        selection.len() <= 1,
    ensures
        ({
            let area = atlas.area(area_id)->0;
            let form = state::resynced(before, atlas, Some(area_id), selection, defaults, shown);
            if selection.len() == 0 {
                are_property_rows(form.area_properties, area.properties@)
            } else {
                match selection[0] {
                    EntityId::Room(number) => area.room(number) is Some ==> shows_room(
                        form,
                        area.room(number)->0,
                        shown,
                    ),
                    EntityId::Label(id) => area.label(id) is Some ==> shows_label(
                        form,
                        area.label(id)->0,
                        shown,
                    ),
                    EntityId::Shape(id) => area.shape(id) is Some ==> shows_shape(
                        form,
                        area.shape(id)->0,
                        shown,
                    ),
                    EntityId::Connection(id) => area.connection(id) is Some ==> shows_connection(
                        form,
                        area,
                        area.connection(id)->0,
                        shown,
                    ),
                }
            }
        }),
{
    let area = atlas.area(area_id)->0;
    let form = state::resynced(before, atlas, Some(area_id), selection, defaults, shown);
    if selection.len() == 0 {
        lemma_property_rows(area.properties@);
    } else {
        match selection[0] {
            EntityId::Room(number) => {
                if let Some(room) = area.room(number) {
                    lemma_property_rows(room.properties@);
                    let exits = state::room_exits(room);
                    lemma_exit_rows(exits, shown);
                    assert forall|e: int| 0 <= e < room.exits@.len() implies has_row(
                        form.exits,
                        room.room_number,
                        #[trigger] room.exits@[e],
                        shown,
                    ) by {
                        assert(exits[e] == (room.room_number, room.exits@[e]));
                    }
                }
            },
            EntityId::Connection(id) => {
                if let Some(connection) = area.connection(id) {
                    let exits = links::members(area, connection.id);
                    lemma_exit_rows(exits, shown);
                    copied_links::lemma_members(area, connection.id);
                    assert forall|r: int, e: int| #[trigger]
                        copied_links::is_on(area, connection.id, r, e) implies has_row(
                        form.exits,
                        area.rooms@[r].room_number,
                        area.rooms@[r].exits@[e],
                        shown,
                    ) by {
                        let member = (area.rooms@[r].room_number, area.rooms@[r].exits@[e]);
                        let i = choose|i: int| 0 <= i < exits.len() && exits[i] == member;
                        assert(has_row(form.exits, exits[i].0, exits[i].1, shown));
                    }
                }
            },
            _ => {},
        }
    }
}

/// With several entities selected, the form shows the color and the level that the selected
/// rooms share, and marks those that they do not share.
pub proof fn law_a_form_shows_what_rooms_share(
    before: StateView,
    atlas: AtlasCache,
    area_id: AreaId,
    selection: Seq<EntityId>,
    defaults: ConnectionDefaults,
    shown: spec_fn(Scalar) -> Seq<char>,
    a: RoomNumber,
    b: RoomNumber,
)
    requires
        atlas.area(area_id) is Some,
        selection.len() > 1,
        selection.contains(EntityId::Room(a)),
        selection.contains(EntityId::Room(b)),
        atlas.area(area_id)->0.room(a) is Some,
        atlas.area(area_id)->0.room(b) is Some,
    ensures
        ({
            let first = atlas.area(area_id)->0.room(a)->0;
            let second = atlas.area(area_id)->0.room(b)->0;
            let form = state::resynced(before, atlas, Some(area_id), selection, defaults, shown);
            &&& first.color@ != second.color@ ==> form.bulk_color_mixed && form.bulk_color.len() == 0
            &&& first.level != second.level ==> form.bulk_level_mixed && form.bulk_level.len() == 0
            &&& !form.bulk_color_mixed ==> form.bulk_color == first.color@
            &&& !form.bulk_level_mixed ==> form.bulk_level == text::signed_decimal(first.level as int)
        }),
{
    let area = atlas.area(area_id)->0;
    let numbers = cache::selected_rooms(selection);
    let rooms = super::super::deletion::cached_rooms(area, numbers);
    let piece = |number: RoomNumber|
        match area.room(number) {
            Some(room) => seq![room],
            None => Seq::empty(),
        };
    assert(rooms == list::collect(numbers, piece));
    assert forall|number: RoomNumber|
        selection.contains(EntityId::Room(number)) && (#[trigger] area.room(number)) is Some implies rooms.contains(
        area.room(number)->0,
    ) by {
        super::super::doing::lemma_selected(selection, EntityId::Room(number));
        let i = choose|i: int| 0 <= i < numbers.len() && numbers[i] == number;
        assert(piece(number)[0] == area.room(number)->0);
        list::lemma_collect_contains(numbers, piece, i, area.room(number)->0);
    }
    let i = choose|i: int| 0 <= i < rooms.len() && rooms[i] == area.room(a)->0;
    let j = choose|j: int| 0 <= j < rooms.len() && rooms[j] == area.room(b)->0;
    assert(rooms[i] == area.room(a)->0 && rooms[j] == area.room(b)->0);
}

} // verus!
