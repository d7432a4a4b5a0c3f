//! Summaries of areas that may only be viewed, and of where areas come from.

use vstd::prelude::*;

use super::super::cache::{self, Selection};
use super::super::deletion::{self, sort_properties};
use super::super::model::{
    AreaCache, AreaId, AtlasCache, Connection, ConnectionId, EntityId, ExitCache, ExitDirection, PropertyEntry,
    RoomCache, RoomKey, RoomNumber,
};
use super::action::Scene;
use super::panel::holds_area;
use super::ports;
use crate::list;
use crate::text::{self, decimal_text, is_empty_text, join2, join3, signed_decimal_text};

verus! {

/// How a line is shown.
#[derive(Clone, Copy, Debug, PartialEq, Eq, Structural)]
pub enum LineStyle {
    Heading,
    Body,
    Small,
    Muted,
    Label,
    Rule,
}

/// A line of a summary.
pub struct Line<T = String> {
    pub style: LineStyle,
    pub text: T,
}

impl View for Line<String> {
    type V = Line<Seq<char>>;

    open spec fn view(&self) -> Line<Seq<char>> {
        Line { style: self.style, text: self.text@ }
    }
}

/// The views of lines.
pub open spec fn lines_view(lines: Seq<Line>) -> Seq<Line<Seq<char>>> {
    lines.map_values(|line: Line| line@)
}

/// A line.
pub open spec fn line(style: LineStyle, text: Seq<char>) -> Line<Seq<char>> {
    Line { style, text }
}

/// Adds a line.
fn push_line(lines: &mut Vec<Line>, style: LineStyle, text: String)
    ensures
        lines_view(final(lines)@) == lines_view(old(lines)@).push(line(style, text@)),
{
    let ghost before = lines@;
    let added = Line { style, text };
    lines.push(added);
    assert(lines_view(lines@) =~= lines_view(before).push(added@));
}

/// Where an exit leads.
pub open spec fn exit_target(atlas: AtlasCache, area: AreaCache, exit: ExitCache) -> Seq<char> {
    let room = match exit.to_room_number {
        Some(number) => Some("room "@ + text::signed_decimal(number.0 as int)),
        None => None,
    };
    if exit.to_unknown {
        "Unknown map"@
    } else if exit.to_area_id is Some && exit.to_area_id->0 != area.id {
        let name = match atlas.area(exit.to_area_id->0) {
            Some(target) => target.name@,
            None => "another area"@,
        };
        match room {
            Some(room) => name + ", "@ + room,
            None => name,
        }
    } else {
        match room {
            Some(room) => room,
            None => "nowhere"@,
        }
    }
}

/// "`direction` → target": an exit in one line. A withheld destination gets no
/// name.
pub fn exit_summary(atlas: &AtlasCache, area: &AreaCache, exit: &ExitCache, direction: &str) -> (summary:
    String)
    ensures
        summary@ == direction@ + " \u{2192} "@ + exit_target(*atlas, *area, *exit),
{
    let room = match exit.to_room_number {
        Some(number) => {
            let digits = signed_decimal_text(number.0 as i64);
            Some(join2("room ", &digits))
        },
        None => None,
    };
    let target = if exit.to_unknown {
        "Unknown map".to_owned()
    } else {
        match exit.to_area_id {
            Some(to_area) if to_area != area.id => {
                let name = match atlas.get_area(&to_area) {
                    Some(target) => target.name.clone(),
                    None => "another area".to_owned(),
                };
                match room {
                    Some(room) => join3(&name, ", ", &room),
                    None => name,
                }
            },
            _ => match room {
                Some(room) => room,
                None => "nowhere".to_owned(),
            },
        }
    };
    join3(direction, " \u{2192} ", &target)
}

/// Properties as lines, in order, under a label.
pub open spec fn property_lines(entries: Seq<PropertyEntry>, label: Seq<char>) -> Seq<Line<Seq<char>>> {
    if entries.len() == 0 {
        Seq::empty()
    } else {
        seq![line(LineStyle::Label, label)] + deletion::sorted_pairs(entries).map_values(
            |pair: (Seq<char>, Seq<char>)| line(LineStyle::Small, pair.0 + ": "@ + pair.1),
        )
    }
}

/// The exits of a room as lines, under a label.
pub open spec fn exit_lines(
    atlas: AtlasCache,
    area: AreaCache,
    room: RoomCache,
    name: spec_fn(ExitDirection) -> Seq<char>,
) -> Seq<Line<Seq<char>>> {
    if room.exits@.len() == 0 {
        Seq::empty()
    } else {
        seq![line(LineStyle::Label, "Exits"@)] + room.exits@.map_values(
            |exit: ExitCache|
                line(
                    LineStyle::Small,
                    name(exit.from_direction) + " \u{2192} "@ + exit_target(atlas, area, exit),
                ),
        )
    }
}

/// A text as a line, when there is one.
pub open spec fn text_line(style: LineStyle, text: Seq<char>) -> Seq<Line<Seq<char>>> {
    if text.len() == 0 {
        Seq::empty()
    } else {
        seq![line(style, text)]
    }
}

/// The heading of a room.
pub open spec fn room_heading(number: RoomNumber) -> Seq<char> {
    "Room #"@ + text::signed_decimal(number.0 as int)
}

/// The lines of the room under the pointer.
pub open spec fn hovered_lines(area: AreaCache, hovered: Option<RoomKey>) -> Seq<Line<Seq<char>>> {
    match hovered {
        Some(key) => match area.room(key.room_number) {
            Some(room) => seq![
                line(LineStyle::Heading, room_heading(key.room_number)),
                line(LineStyle::Body, room.title@),
                line(LineStyle::Small, room.description@),
            ],
            None => Seq::empty(),
        },
        None => Seq::empty(),
    }
}

/// What the numbers of a selection are shown as.
pub struct Shown {
    /// The kind of the selected connection.
    pub kind: String,
    /// The position of the selected room.
    pub position: String,
    /// The size and the position of the selected shape.
    pub shape: String,
}

/// The lines of a room that may only be viewed.
pub open spec fn room_lines(
    atlas: AtlasCache,
    area: AreaCache,
    room: RoomCache,
    number: RoomNumber,
    position: Seq<char>,
    name: spec_fn(ExitDirection) -> Seq<char>,
) -> Seq<Line<Seq<char>>> {
    seq![line(LineStyle::Heading, room_heading(number))] + text_line(LineStyle::Body, room.title@)
        + text_line(LineStyle::Small, room.description@) + seq![
        line(
            LineStyle::Muted,
            "Level "@ + text::signed_decimal(room.level as int) + " \u{b7} "@ + position,
        ),
    ] + property_lines(room.properties@, "Properties"@) + exit_lines(atlas, area, room, name)
}

/// The line of a connection that may only be viewed.
pub open spec fn connection_line(
    area: AreaCache,
    connection: Connection,
    id: ConnectionId,
    kind: Seq<char>,
) -> Seq<char> {
    let start = kind + " \u{b7} room "@ + text::signed_decimal(
        connection.endpoint_a.room_number.0 as int,
    );
    let ends = match connection.endpoint_b {
        Some(endpoint) => start + " to room "@ + text::signed_decimal(
            endpoint.room_number.0 as int,
        ),
        None => start,
    };
    let both = match area.drawn(id) {
        Some(drawn) => drawn.is_bidirectional,
        None => false,
    };
    ends + " \u{b7} "@ + (if both {
        "bidirectional"@
    } else {
        "one-way"@
    })
}

/// The lines of a selection that may only be viewed.
pub open spec fn selection_lines(
    scene: Scene,
    area: AreaCache,
    shown: Shown,
    name: spec_fn(ExitDirection) -> Seq<char>,
) -> Seq<Line<Seq<char>>> {
    match cache::single_entity(scene.selection@) {
        Some(EntityId::Connection(id)) => match area.connection(id) {
            Some(connection) => seq![
                line(LineStyle::Heading, "Connection"@),
                line(LineStyle::Small, connection_line(area, connection, id, shown.kind@)),
            ],
            None => Seq::empty(),
        },
        Some(EntityId::Room(number)) => match area.room(number) {
            Some(room) => room_lines(scene.atlas, area, room, number, shown.position@, name),
            None => Seq::empty(),
        },
        Some(EntityId::Label(id)) => match area.label(id) {
            Some(label) => seq![
                line(LineStyle::Heading, "Label"@),
                line(LineStyle::Body, label.text@),
            ],
            None => Seq::empty(),
        },
        Some(EntityId::Shape(id)) => match area.shape(id) {
            Some(shape) => seq![
                line(LineStyle::Heading, "Shape"@),
                line(LineStyle::Muted, shown.shape@),
            ],
            None => Seq::empty(),
        },
        None => if scene.selection@.len() == 0 {
            seq![
                line(LineStyle::Heading, area.name@),
                line(LineStyle::Muted, text::decimal(area.rooms@.len()) + " rooms"@),
            ] + property_lines(area.properties@, "Area properties"@)
        } else {
            seq![
                line(
                    LineStyle::Body,
                    text::decimal(scene.selection@.len()) + " entities selected"@,
                ),
            ]
        },
    }
}

/// The lines of [`read_only_view`].
pub open spec fn read_only_lines(
    scene: Scene,
    attribution: Seq<char>,
    hovered: Option<RoomKey>,
    shown: Shown,
    name: spec_fn(ExitDirection) -> Seq<char>,
) -> Seq<Line<Seq<char>>> {
    let area = match scene.area_id {
        Some(area_id) => scene.atlas.area(area_id),
        None => None,
    };
    match area {
        None => seq![line(LineStyle::Body, "No area selected"@)],
        Some(area) => seq![
            line(LineStyle::Muted, attribution + " \u{2014} view only."@),
            line(LineStyle::Rule, Seq::empty()),
        ] + selection_lines(scene, area, shown, name) + hovered_lines(area, hovered),
    }
}

fn push_properties(lines: &mut Vec<Line>, entries: &Vec<PropertyEntry>, label: &str)
    ensures
        lines_view(final(lines)@) == lines_view(old(lines)@) + property_lines(entries@, label@),
{
    let ghost before = lines_view(lines@);
    let ghost made = |pair: (Seq<char>, Seq<char>)|
        line(LineStyle::Small, pair.0 + ": "@ + pair.1);
    let ghost pairs = deletion::sorted_pairs(entries@);
    if entries.len() == 0 {
        assert(lines_view(lines@) =~= before + Seq::empty());
        return ;
    }
    push_line(lines, LineStyle::Label, label.to_owned());
    let sorted = sort_properties(entries);
    let ghost start = lines_view(lines@);
    assert(start =~= before + seq![line(LineStyle::Label, label@)]);
    assert(start =~= start + pairs.take(0).map_values(made));
    assert(deletion::pairs_view(sorted@).len() == sorted.len());
    for i in 0..sorted.len()
        invariant
            made == (|pair: (Seq<char>, Seq<char>)|
                line(LineStyle::Small, pair.0 + ": "@ + pair.1)),
            pairs == deletion::pairs_view(sorted@),
            lines_view(lines@) == start + pairs.take(i as int).map_values(made),
    {
        let entry = sorted[i];
        assert(pairs[i as int] == (entry.name@, entry.value@));
        let ghost so_far = lines_view(lines@);
        push_line(lines, LineStyle::Small, join3(&entry.name, ": ", &entry.value));
        assert(pairs.take(i + 1).map_values(made) =~= pairs.take(i as int).map_values(made).push(
            made(pairs[i as int]),
        ));
        assert(lines_view(lines@) =~= start + pairs.take(i + 1).map_values(made));
    }
    assert(pairs.take(sorted.len() as int) =~= pairs);
    assert(lines_view(lines@) =~= before + property_lines(entries@, label@));
}

fn push_exits<D: Fn(ExitDirection) -> String>(
    lines: &mut Vec<Line>,
    atlas: &AtlasCache,
    area: &AreaCache,
    room: &RoomCache,
    name: &D,
)
    requires
        forall|direction: ExitDirection| #[trigger] name.requires((direction,)),
    ensures
        forall|spelled: spec_fn(ExitDirection) -> Seq<char>| #[trigger]
            ports::named_by(*name, spelled) ==> lines_view(final(lines)@) == lines_view(old(lines)@)
                + exit_lines(*atlas, *area, *room, spelled),
{
    let ghost before = lines_view(lines@);
    if room.exits.len() == 0 {
        assert(lines_view(lines@) =~= before + Seq::empty());
        return ;
    }
    push_line(lines, LineStyle::Label, "Exits".to_owned());
    let ghost start = lines_view(lines@);
    assert(start =~= before + seq![line(LineStyle::Label, "Exits"@)]);
    assert forall|spelled: spec_fn(ExitDirection) -> Seq<char>| #[trigger]
        ports::named_by(*name, spelled) implies start == start + room.exits@.take(0).map_values(
        |exit: ExitCache|
            line(
                LineStyle::Small,
                spelled(exit.from_direction) + " \u{2192} "@ + exit_target(*atlas, *area, exit),
            ),
    ) by {
        assert(start =~= start + room.exits@.take(0).map_values(
            |exit: ExitCache|
                line(
                    LineStyle::Small,
                    spelled(exit.from_direction) + " \u{2192} "@ + exit_target(*atlas, *area, exit),
                ),
        ));
    }
    for i in 0..room.exits.len()
        invariant
            forall|direction: ExitDirection| #[trigger] name.requires((direction,)),
            forall|spelled: spec_fn(ExitDirection) -> Seq<char>| #[trigger]
                ports::named_by(*name, spelled) ==> lines_view(lines@) == start
                    + room.exits@.take(i as int).map_values(
                    |exit: ExitCache|
                        line(
                            LineStyle::Small,
                            spelled(exit.from_direction) + " \u{2192} "@ + exit_target(
                                *atlas,
                                *area,
                                exit,
                            ),
                        ),
                ),
    {
        let ghost so_far = lines_view(lines@);
        let exit = &room.exits[i];
        let direction = name(exit.from_direction);
        let summary = exit_summary(atlas, area, exit, &direction);
        push_line(lines, LineStyle::Small, summary);
        proof {
            assert forall|spelled: spec_fn(ExitDirection) -> Seq<char>| #[trigger]
                ports::named_by(*name, spelled) implies lines_view(lines@) == start
                + room.exits@.take(i + 1).map_values(
                |exit: ExitCache|
                    line(
                        LineStyle::Small,
                        spelled(exit.from_direction) + " \u{2192} "@ + exit_target(
                            *atlas,
                            *area,
                            exit,
                        ),
                    ),
            ) by {
                let made = |exit: ExitCache|
                    line(
                        LineStyle::Small,
                        spelled(exit.from_direction) + " \u{2192} "@ + exit_target(
                            *atlas,
                            *area,
                            exit,
                        ),
                    );
                assert(room.exits@.take(i + 1).map_values(made) =~= room.exits@.take(
                    i as int,
                ).map_values(made).push(made(room.exits@[i as int])));
                assert(lines_view(lines@) =~= start + room.exits@.take(i + 1).map_values(made));
            }
        }
    }
    assert(room.exits@.take(room.exits.len() as int) =~= room.exits@);
    proof {
        assert forall|spelled: spec_fn(ExitDirection) -> Seq<char>| #[trigger]
            ports::named_by(*name, spelled) implies lines_view(lines@) == before + exit_lines(
            *atlas,
            *area,
            *room,
            spelled,
        ) by {
            assert(lines_view(lines@) =~= before + exit_lines(*atlas, *area, *room, spelled));
        }
    }
}

/// Adds a text when there is one.
fn push_text(lines: &mut Vec<Line>, style: LineStyle, text: &String)
    ensures
        lines_view(final(lines)@) == lines_view(old(lines)@) + text_line(style, text@),
{
    let ghost before = lines_view(lines@);
    if !is_empty_text(text) {
        push_line(lines, style, text.clone());
    }
    assert(lines_view(lines@) =~= before + text_line(style, text@));
}

pub(crate) fn heading_of_room(number: RoomNumber) -> (heading: String)
    ensures
        heading@ == room_heading(number),
{
    let digits = signed_decimal_text(number.0 as i64);
    join2("Room #", &digits)
}

fn push_room<D: Fn(ExitDirection) -> String>(
    lines: &mut Vec<Line>,
    atlas: &AtlasCache,
    area: &AreaCache,
    room: &RoomCache,
    number: RoomNumber,
    position: &str,
    name: &D,
)
    requires
        forall|direction: ExitDirection| #[trigger] name.requires((direction,)),
    ensures
        forall|spelled: spec_fn(ExitDirection) -> Seq<char>| #[trigger]
            ports::named_by(*name, spelled) ==> lines_view(final(lines)@) == lines_view(old(lines)@)
                + room_lines(*atlas, *area, *room, number, position@, spelled),
{
    let ghost before = lines_view(lines@);
    push_line(lines, LineStyle::Heading, heading_of_room(number));
    push_text(lines, LineStyle::Body, &room.title);
    push_text(lines, LineStyle::Small, &room.description);
    let level = signed_decimal_text(room.level as i64);
    let place = join3("Level ", &level, " \u{b7} ");
    push_line(lines, LineStyle::Muted, join2(&place, position));
    push_properties(lines, &room.properties, "Properties");
    push_exits(lines, atlas, area, room, name);
    proof {
        assert forall|spelled: spec_fn(ExitDirection) -> Seq<char>| #[trigger]
            ports::named_by(*name, spelled) implies lines_view(lines@) == before + room_lines(
            *atlas,
            *area,
            *room,
            number,
            position@,
            spelled,
        ) by {
            assert(lines_view(lines@) =~= before + room_lines(
                *atlas,
                *area,
                *room,
                number,
                position@,
                spelled,
            ));
        }
    }
}

fn line_of_connection(area: &AreaCache, connection: &Connection, id: ConnectionId, kind: &str) -> (text:
    String)
    ensures
        text@ == connection_line(*area, *connection, id, kind@),
{
    let a = signed_decimal_text(connection.endpoint_a.room_number.0 as i64);
    let start = join3(kind, " \u{b7} room ", &a);
    let ends = match connection.endpoint_b {
        Some(endpoint) => {
            let b = signed_decimal_text(endpoint.room_number.0 as i64);
            join3(&start, " to room ", &b)
        },
        None => start,
    };
    let both = match area.get_drawn(&id) {
        Some(drawn) => drawn.is_bidirectional,
        None => false,
    };
    join3(
        &ends,
        " \u{b7} ",
        if both {
            "bidirectional"
        } else {
            "one-way"
        },
    )
}

fn push_selection<D: Fn(ExitDirection) -> String>(
    lines: &mut Vec<Line>,
    scene: &Scene,
    area: &AreaCache,
    shown: &Shown,
    name: &D,
)
    requires
        forall|direction: ExitDirection| #[trigger] name.requires((direction,)),
    ensures
        forall|spelled: spec_fn(ExitDirection) -> Seq<char>| #[trigger]
            ports::named_by(*name, spelled) ==> lines_view(final(lines)@) == lines_view(old(lines)@)
                + selection_lines(*scene, *area, *shown, spelled),
{
    let ghost before = lines_view(lines@);
    match scene.selection.single() {
        Some(EntityId::Connection(id)) => {
            if let Some(connection) = area.get_connection(&id) {
                push_line(lines, LineStyle::Heading, "Connection".to_owned());
                let text = line_of_connection(area, connection, id, &shown.kind);
                push_line(lines, LineStyle::Small, text);
            }
        },
        Some(EntityId::Room(number)) => {
            if let Some(room) = area.get_room(&number) {
                push_room(lines, &scene.atlas, area, room, number, &shown.position, name);
            }
        },
        Some(EntityId::Label(id)) => {
            if let Some(label) = area.get_label(&id) {
                push_line(lines, LineStyle::Heading, "Label".to_owned());
                push_line(lines, LineStyle::Body, label.text.clone());
            }
        },
        Some(EntityId::Shape(id)) => {
            if let Some(_) = area.get_shape(&id) {
                push_line(lines, LineStyle::Heading, "Shape".to_owned());
                push_line(lines, LineStyle::Muted, shown.shape.clone());
            }
        },
        None => {
            if scene.selection.is_empty() {
                push_line(lines, LineStyle::Heading, area.name.clone());
                let count = decimal_text(area.rooms.len() as u64);
                push_line(lines, LineStyle::Muted, join2(&count, " rooms"));
                push_properties(lines, &area.properties, "Area properties");
            } else {
                let count = decimal_text(scene.selection.len() as u64);
                push_line(lines, LineStyle::Body, join2(&count, " entities selected"));
            }
        },
    }
    proof {
        assert forall|spelled: spec_fn(ExitDirection) -> Seq<char>| #[trigger]
            ports::named_by(*name, spelled) implies lines_view(lines@) == before + selection_lines(
            *scene,
            *area,
            *shown,
            spelled,
        ) by {
            assert(lines_view(lines@) =~= before + selection_lines(*scene, *area, *shown, spelled));
        }
    }
}

/// Adds the lines of the room under the pointer.
pub(crate) fn push_hovered(lines: &mut Vec<Line>, area: &AreaCache, hovered: Option<RoomKey>)
    ensures
        lines_view(final(lines)@) == lines_view(old(lines)@) + hovered_lines(*area, hovered),
{
    let ghost before = lines_view(lines@);
    if let Some(key) = hovered {
        if let Some(room) = area.get_room(&key.room_number) {
            push_line(lines, LineStyle::Heading, heading_of_room(key.room_number));
            push_line(lines, LineStyle::Body, room.title.clone());
            push_line(lines, LineStyle::Small, room.description.clone());
        }
    }
    assert(lines_view(lines@) =~= before + hovered_lines(*area, hovered));
}

/// A summary of an area that may only be viewed, and of what is selected in it.
pub fn read_only_view<D: Fn(ExitDirection) -> String>(
    scene: &Scene,
    attribution: &str,
    hovered: Option<RoomKey>,
    shown: &Shown,
    name: &D,
) -> (lines: Vec<Line>)
    requires
        forall|direction: ExitDirection| #[trigger] name.requires((direction,)),
    ensures
        forall|spelled: spec_fn(ExitDirection) -> Seq<char>| #[trigger]
            ports::named_by(*name, spelled) ==> lines_view(lines@) == read_only_lines(
                *scene,
                attribution@,
                hovered,
                *shown,
                spelled,
            ),
{
    let mut lines: Vec<Line> = Vec::new();
    assert(lines_view(lines@) =~= Seq::empty());
    let area = match scene.area_id {
        Some(area_id) => scene.atlas.get_area(&area_id),
        None => None,
    };
    let area = match area {
        Some(area) => area,
        None => {
            push_line(&mut lines, LineStyle::Body, "No area selected".to_owned());
            assert(lines_view(lines@) =~= seq![line(LineStyle::Body, "No area selected"@)]);
            return lines;
        },
    };
    push_line(&mut lines, LineStyle::Muted, join2(attribution, " \u{2014} view only."));
    push_line(&mut lines, LineStyle::Rule, String::new());
    push_selection(&mut lines, scene, area, shown, name);
    push_hovered(&mut lines, area, hovered);
    proof {
        assert forall|spelled: spec_fn(ExitDirection) -> Seq<char>| #[trigger]
            ports::named_by(*name, spelled) implies lines_view(lines@) == read_only_lines(
            *scene,
            attribution@,
            hovered,
            *shown,
            spelled,
        ) by {
            assert(lines_view(lines@) =~= read_only_lines(
                *scene,
                attribution@,
                hovered,
                *shown,
                spelled,
            ));
        }
    }
    lines
}

/// The line of [`selection_summary`].
pub open spec fn counted_selection(selection: Seq<EntityId>) -> Seq<char> {
    text::decimal(cache::selected_connections(selection).len()) + " connections, "@ + text::decimal(
        cache::selected_rooms(selection).len(),
    ) + " rooms, "@ + text::decimal(cache::selected_labels(selection).len()) + " labels, "@
        + text::decimal(cache::selected_shapes(selection).len()) + " shapes"@
}

/// "3 connections, 2 rooms, 1 labels, 0 shapes": what is selected.
pub fn selection_summary(selection: &Selection) -> (summary: String)
    ensures
        summary@ == counted_selection(selection@),
{
    let connections = decimal_text(selection.connections().len() as u64);
    let rooms = decimal_text(selection.rooms().len() as u64);
    let labels = decimal_text(selection.labels().len() as u64);
    let shapes = decimal_text(selection.shapes().len() as u64);
    let first = join3(&connections, " connections, ", &rooms);
    let second = join3(&first, " rooms, ", &labels);
    let third = join3(&second, " labels, ", &shapes);
    join2(&third, " shapes")
}

// ===== Where an area comes from =====

/// What an area was copied from.
pub struct Provenance {
    pub source: AreaId,
    pub rev: Option<i64>,
    /// The day it was copied.
    pub copied_on: Option<String>,
}

/// The line of [`provenance_line`]. Revisions are opaque: another one means that
/// something changed, not how much.
pub open spec fn copied_from(atlas: AtlasCache, provenance: Provenance) -> Seq<char> {
    let source = atlas.area(provenance.source);
    let start = "Copied from "@ + match source {
        Some(source) => "\u{201c}"@ + source.name@ + "\u{201d}"@,
        None => "a shared map"@,
    };
    let at = match provenance.rev {
        Some(rev) => start + " at rev "@ + text::signed_decimal(rev as int),
        None => start,
    };
    let on = match provenance.copied_on {
        Some(day) => at + " on "@ + day@,
        None => at,
    };
    match (source, provenance.rev) {
        (Some(source), Some(rev)) => if source.rev != rev {
            on + " (source has changed since)"@
        } else {
            on
        },
        _ => on,
    }
}

/// Where an area was copied from, in one line. Only owners are told.
pub fn provenance_line(atlas: &AtlasCache, area: &AreaCache, provenance: &Option<Provenance>) -> (text:
    Option<String>)
    ensures
        match (text, *provenance) {
            (Some(text), Some(provenance)) => area.access.is_owned && text@ == copied_from(
                *atlas,
                provenance,
            ),
            (Some(_), None) => false,
            (None, Some(_)) => !area.access.is_owned,
            (None, None) => true,
        },
{
    let provenance = match provenance {
        Some(provenance) => provenance,
        None => {
            return None;
        },
    };
    if !area.access.is_owned {
        return None;
    }
    let source = atlas.get_area(&provenance.source);
    let name = match source {
        Some(source) => join3("\u{201c}", &source.name, "\u{201d}"),
        None => "a shared map".to_owned(),
    };
    let mut text = join2("Copied from ", &name);
    if let Some(rev) = provenance.rev {
        let digits = signed_decimal_text(rev);
        text = join3(&text, " at rev ", &digits);
    }
    if let Some(day) = &provenance.copied_on {
        text = join3(&text, " on ", day);
    }
    if let (Some(source), Some(rev)) = (source, provenance.rev) {
        if source.rev != rev {
            text = join2(&text, " (source has changed since)");
        }
    }
    Some(text)
}

/// A copy of an area.
pub struct CopyRow<T = String> {
    pub id: AreaId,
    pub label: T,
    pub enabled: bool,
    /// It can be made the only active copy: it is not already.
    pub can_use_only: bool,
}

impl View for CopyRow<String> {
    type V = CopyRow<Seq<char>>;

    open spec fn view(&self) -> CopyRow<Seq<char>> {
        CopyRow {
            id: self.id,
            label: self.label@,
            enabled: self.enabled,
            can_use_only: self.can_use_only,
        }
    }
}

/// The views of copies.
pub open spec fn copies_view(rows: Seq<CopyRow>) -> Seq<CopyRow<Seq<char>>> {
    rows.map_values(|row: CopyRow| row@)
}

/// How many areas of a family are active.
pub open spec fn active_count(family: Seq<AreaId>, enabled: Seq<AreaId>) -> nat {
    list::kept(family, |id: AreaId| enabled.contains(id)).len()
}

/// One copy of an area.
pub open spec fn copy_row(
    atlas: AtlasCache,
    enabled: Seq<AreaId>,
    active: nat,
    area_id: AreaId,
    member: AreaId,
) -> Seq<CopyRow<Seq<char>>> {
    match atlas.area(member) {
        None => Seq::empty(),
        Some(area) => seq![
            CopyRow {
                id: member,
                label: if member == area_id {
                    area.name@ + " (this map)"@
                } else {
                    area.name@
                },
                enabled: enabled.contains(member),
                can_use_only: !(enabled.contains(member) && active == 1),
            },
        ],
    }
}

/// The copies of an area.
pub open spec fn copy_rows(
    atlas: AtlasCache,
    family: Seq<AreaId>,
    enabled: Seq<AreaId>,
    area_id: AreaId,
) -> Seq<CopyRow<Seq<char>>> {
    let active = active_count(family, enabled);
    list::collect(family, |member: AreaId| copy_row(atlas, enabled, active, area_id, member))
}

fn count_active(family: &Vec<AreaId>, enabled: &Vec<AreaId>) -> (active: usize)
    ensures
        active == active_count(family@, enabled@),
{
    let ghost piece = |id: AreaId|
        if enabled@.contains(id) {
            seq![id]
        } else {
            Seq::empty()
        };
    let mut active: usize = 0;
    assert(family@.take(0) =~= Seq::empty());
    for i in 0..family.len()
        invariant
            piece == (|id: AreaId|
                if enabled@.contains(id) {
                    seq![id]
                } else {
                    Seq::empty()
                }),
            active <= i,
            active == list::collect(family@.take(i as int), piece).len(),
    {
        proof {
            list::lemma_collect_step(family@, piece, i as int);
        }
        if holds_area(enabled, family[i]) {
            active = active + 1;
        }
    }
    assert(family@.take(family.len() as int) =~= family@);
    proof {
        list::lemma_collect_same(
            family@,
            piece,
            |x: AreaId|
                if (|id: AreaId| enabled@.contains(id))(x) {
                    seq![x]
                } else {
                    Seq::empty()
                },
        );
    }
    active
}

/// The copies of an area with whether each is active; `None` when there is only
/// the area itself.
pub fn copies_section(
    atlas: &AtlasCache,
    family: &Vec<AreaId>,
    enabled: &Vec<AreaId>,
    area_id: AreaId,
) -> (rows: Option<Vec<CopyRow>>)
    ensures
        match rows {
            Some(rows) => family.len() >= 2 && copies_view(rows@) == copy_rows(
                *atlas,
                family@,
                enabled@,
                area_id,
            ),
            None => family.len() < 2,
        },
{
    if family.len() < 2 {
        return None;
    }
    let active: usize = count_active(family, enabled);
    let ghost piece = |member: AreaId|
        copy_row(*atlas, enabled@, active as nat, area_id, member);
    let mut rows: Vec<CopyRow> = Vec::new();
    assert(family@.take(0) =~= Seq::empty());
    assert(copies_view(rows@) =~= Seq::empty());
    for i in 0..family.len()
        invariant
            piece == (|member: AreaId|
                copy_row(*atlas, enabled@, active as nat, area_id, member)),
            copies_view(rows@) == list::collect(family@.take(i as int), piece),
    {
        proof {
            list::lemma_collect_step(family@, piece, i as int);
        }
        let ghost before = rows@;
        let member = family[i];
        if let Some(area) = atlas.get_area(&member) {
            let on = holds_area(enabled, member);
            let label = if member == area_id {
                join2(&area.name, " (this map)")
            } else {
                area.name.clone()
            };
            rows.push(CopyRow { id: member, label, enabled: on, can_use_only: !(on && active == 1) });
        }
        assert(copies_view(rows@) =~= copies_view(before) + piece(family@[i as int]));
    }
    assert(family@.take(family.len() as int) =~= family@);
    Some(rows)
}

} // verus!
