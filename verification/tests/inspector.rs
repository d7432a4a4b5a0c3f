use smudgy_ui::map_editor_window::cache::Selection;
use smudgy_ui::map_editor_window::commands::{Command, FieldId};
use smudgy_ui::map_editor_window::creation::Anchor;
use smudgy_ui::map_editor_window::inspector::action::{Action, Reading, Scene, Stale};
use smudgy_ui::map_editor_window::inspector::connections::{
    plan_redistribution, reset_direction, route_to_square, ConnectionMessage, PortChange,
};
use smudgy_ui::map_editor_window::inspector::drawings::{LabelMessage, ShapeMessage};
use smudgy_ui::map_editor_window::inspector::forms::{area_view, AreaFacts};
use smudgy_ui::map_editor_window::inspector::message::{MarksFailure, Message, PickerMessage, SecretMessage};
use smudgy_ui::map_editor_window::inspector::panel::{
    order_choices, panel, AreaChoice, ConnectionNames, ConnectionShown, Panel, RouteValidation, ShapeControl,
};
use smudgy_ui::map_editor_window::inspector::ports::Bearing;
use smudgy_ui::map_editor_window::inspector::rooms::{BulkMessage, PropertyMessage, RoomMessage, TagMessage};
use smudgy_ui::map_editor_window::inspector::secrets::{
    empty_secret_marks_request, format_marks_notice, retain_changing_marks, secret_marks_request_is_empty,
    SecretMarksResult,
};
use smudgy_ui::map_editor_window::inspector::state::{BoundsField, ColorField, ConnectionDefaults, State};
use smudgy_ui::map_editor_window::inspector::summary::{
    copies_section, exit_summary, provenance_line, read_only_view, selection_summary, Line, Provenance, Shown,
};
use smudgy_ui::map_editor_window::inspector::wires::{ExitField, ExitMessage};
use smudgy_ui::map_editor_window::links::{add_return_exit, delete_waypoint, edit_exit_with_endpoint};
use smudgy_ui::map_editor_window::model::{
    Alignment, AreaAccess, AreaCache, AreaId, AtlasCache, Connection, ConnectionDash, ConnectionEndpoint, ConnectionId,
    ConnectionKind, ConnectionRouting, ConnectionUpdates, CornerStyle, EntityId, ExitCache, ExitDirection, ExitId,
    LabelCache, LabelId, Point, PortMode, PropertyEntry, RoomCache, RoomConnection, RoomKey, RoomNumber, RoomSide,
    Scalar, SegmentShape, ShapeCache, ShapeId, ShapeType,
};
use smudgy_ui::map_editor_window::mutation::{AreaMutation, Mutation};

const AREA: AreaId = AreaId(1);
const AWAY: AreaId = AreaId(2);
const LINK: ConnectionId = ConnectionId(50);
const BACK: ConnectionId = ConnectionId(51);

fn scalar(value: f32) -> Scalar {
    Scalar(value.to_bits())
}

fn number(value: Scalar) -> f32 {
    f32::from_bits(value.0)
}

fn show(value: Scalar) -> String {
    format!("{}", number(value))
}

fn point(x: f32, y: f32) -> Point {
    Point { x: scalar(x), y: scalar(y) }
}

fn property(name: &str, value: &str) -> PropertyEntry {
    PropertyEntry { name: name.to_string(), value: value.to_string(), is_secret: false }
}

fn exit(id: u128, connection_id: ConnectionId, from_direction: ExitDirection, to: Option<i32>) -> ExitCache {
    ExitCache {
        id: ExitId(id),
        connection_id,
        from_direction,
        to_area_id: to.map(|_| AREA),
        to_room_number: to.map(RoomNumber),
        to_direction: None,
        path: None,
        is_hidden: false,
        is_closed: false,
        is_locked: false,
        weight: scalar(1.0),
        command: None,
        is_secret: false,
        to_unknown: false,
    }
}

fn room(room_number: i32, level: i32, color: &str) -> RoomCache {
    RoomCache {
        room_number: RoomNumber(room_number),
        title: format!("Room {}", room_number),
        description: String::new(),
        level,
        x: scalar(room_number as f32),
        y: scalar(0.0),
        color: color.to_string(),
        is_secret: false,
        external_id: None,
        properties: Vec::new(),
        tags: Vec::new(),
        exits: Vec::new(),
    }
}

fn end(room_number: i32, side: RoomSide) -> ConnectionEndpoint {
    ConnectionEndpoint {
        room_number: RoomNumber(room_number),
        side,
        port_offset: scalar(0.5),
        port_mode: PortMode::AutoPinned,
    }
}

fn connection(id: ConnectionId, routing: ConnectionRouting) -> Connection {
    Connection {
        id,
        kind: ConnectionKind::Internal,
        endpoint_a: end(1, RoomSide::East),
        endpoint_b: Some(end(2, RoomSide::West)),
        routing,
        segment_shape: SegmentShape::Orthogonal,
        corner: CornerStyle::Sharp,
        route_points: vec![point(1.5, 3.0)],
        dash: ConnectionDash::Solid,
        color: "#101010".to_string(),
        thickness: scalar(2.0),
    }
}

fn access(can_edit: bool) -> AreaAccess {
    AreaAccess { is_owned: can_edit, can_edit, can_copy: false, can_share: false, is_cleared_for_secrets: can_edit }
}

fn area() -> AreaCache {
    let mut first = room(1, 0, "#ff0000");
    first.properties = vec![property("zone", "coast"), property("age", "old")];
    first.tags = vec!["shop".to_string()];
    first.exits = vec![exit(20, LINK, ExitDirection::East, Some(2))];
    let mut second = room(2, 0, "#00ff00");
    second.tags = vec!["inn".to_string(), "shop".to_string()];
    second.exits = vec![exit(21, BACK, ExitDirection::West, Some(1))];
    AreaCache {
        id: AREA,
        name: "Harbour".to_string(),
        rev: 3,
        access: access(true),
        rooms: vec![first, second, room(3, 4, "#ff0000")],
        connections: vec![
            connection(LINK, ConnectionRouting::Manual),
            connection(BACK, ConnectionRouting::Automatic),
        ],
        room_connections: vec![
            RoomConnection {
                connection_id: LINK,
                is_secret: false,
                is_bidirectional: false,
                stub_tip_a: point(1.0, 0.0),
                stub_tip_b: Some(point(2.0, 0.0)),
            },
            RoomConnection {
                connection_id: BACK,
                is_secret: false,
                is_bidirectional: false,
                stub_tip_a: point(1.0, 0.0),
                stub_tip_b: Some(point(2.0, 0.0)),
            },
        ],
        labels: vec![LabelCache {
            id: LabelId(30),
            level: 0,
            x: scalar(1.0),
            y: scalar(2.0),
            width: scalar(4.0),
            height: scalar(1.0),
            horizontal_alignment: Alignment::Standard,
            vertical_alignment: Alignment::Other(1),
            text: "Docks".to_string(),
            color: "#ffffff".to_string(),
            background_color: String::new(),
            font_size: 12,
            font_weight: 400,
            is_secret: true,
        }],
        shapes: vec![ShapeCache {
            id: ShapeId(40),
            level: 0,
            x: scalar(0.0),
            y: scalar(0.0),
            width: scalar(3.0),
            height: scalar(3.0),
            background_color: None,
            stroke_color: Some("#222222".to_string()),
            shape_type: ShapeType::Standard,
            border_radius: scalar(0.0),
            stroke_width: scalar(1.0),
            is_secret: false,
        }],
        properties: vec![property("realm", "north")],
        next_room_number: RoomNumber(4),
    }
}

fn away() -> AreaCache {
    AreaCache {
        id: AWAY,
        name: "abbey".to_string(),
        rooms: Vec::new(),
        connections: Vec::new(),
        room_connections: Vec::new(),
        labels: Vec::new(),
        shapes: Vec::new(),
        properties: Vec::new(),
        ..area()
    }
}

fn scene(entities: Vec<EntityId>) -> Scene {
    Scene {
        atlas: AtlasCache { areas: vec![area(), away()] },
        area_id: Some(AREA),
        selection: Selection { entities },
        cleared: true,
    }
}

fn defaults() -> ConnectionDefaults {
    ConnectionDefaults { color: "#abcdef".to_string(), thickness: scalar(1.5), thickness_text: "1.5".to_string() }
}

fn synced(scene: &Scene) -> State {
    let mut state = State::new(&defaults());
    state.resync(&scene.atlas, scene.area_id, &scene.selection, &defaults(), show);
    state
}

fn on_room(number: i32) -> Scene {
    scene(vec![EntityId::Room(RoomNumber(number))])
}

fn on_link(id: ConnectionId) -> Scene {
    scene(vec![EntityId::Connection(id)])
}

fn send(state: &mut State, scene: &Scene, message: Message) -> Action {
    state.update_inspector(scene, &defaults(), message)
}

fn command(action: Action) -> Command {
    match action {
        Action::Push { command: Some(command), .. } => command,
        _ => panic!("nothing to push"),
    }
}

fn is_nothing(action: Action) -> bool {
    matches!(action, Action::Nothing)
}

fn reading(value: f32, sized: f32) -> Option<Reading> {
    Some(Reading {
        value: scalar(value),
        sized: scalar(sized),
        non_negative: value >= 0.0,
        in_unit: (0.0..=1.0).contains(&value),
        is_thickness: value > 0.0,
    })
}

// ===== Buffers =====

#[test]
fn a_room_fills_its_buffers() {
    let state = synced(&on_room(1));
    assert_eq!(state.title, "Room 1");
    assert_eq!(state.level, "0");
    assert_eq!((state.x.as_str(), state.y.as_str()), ("1", "0"));
    assert_eq!(state.color_buffer(ColorField::Room), "#ff0000");
    let names: Vec<&str> = state.properties.iter().map(|row| row.name.as_str()).collect();
    assert_eq!(names, vec!["age", "zone"]);
    assert_eq!(state.tags, vec!["shop"]);
    assert_eq!(state.known_tags, vec!["inn", "shop"]);
    assert_eq!(state.suggested_tags(), vec!["inn"]);
    assert_eq!(state.exits.len(), 1);
    assert_eq!(state.exits[0].to_room, "2");
    assert_eq!(state.exits[0].weight, "1");
}

#[test]
fn drawings_and_links_fill_their_buffers() {
    let label = synced(&scene(vec![EntityId::Label(LabelId(30))]));
    assert_eq!(label.label.text, "Docks");
    assert_eq!(label.label.font_size, "12");
    assert_eq!(label.label.width, "4");
    assert!(label.is_secret);
    assert_eq!(label.color_buffer(ColorField::LabelText), "#ffffff");
    let shape = synced(&scene(vec![EntityId::Shape(ShapeId(40))]));
    assert_eq!(shape.shape.stroke_color, "#222222");
    assert_eq!(shape.shape.background, "");
    assert!(!shape.is_secret);
    let link = synced(&on_link(LINK));
    assert_eq!(link.connection.color, "#101010");
    assert_eq!(link.connection.thickness, "2");
    assert!(link.connection.has_endpoint_b);
    assert_eq!(link.exits.len(), 1);
    assert_eq!(link.exits[0].from_room, RoomNumber(1));
    let none = State::new(&defaults());
    assert_eq!(none.connection.color, "#abcdef");
    assert_eq!(none.connection.thickness, "1.5");
}

#[test]
fn several_rooms_show_what_they_agree_on() {
    let agree = synced(&scene(vec![EntityId::Room(RoomNumber(1)), EntityId::Room(RoomNumber(3))]));
    assert_eq!(agree.bulk_color, "#ff0000");
    assert!(!agree.bulk_color_mixed);
    assert!(agree.bulk_level_mixed);
    assert_eq!(agree.bulk_level, "");
    let nothing = synced(&scene(vec![]));
    assert_eq!(nothing.area_properties.len(), 1);
    assert_eq!(nothing.area_properties[0].value, "north");
}

#[test]
fn secrecy_lines_survive_a_rebuild() {
    let scene = on_room(1);
    let mut state = synced(&scene);
    state.secret_error = Some("no".to_string());
    state.title = "typed".to_string();
    state.resync(&scene.atlas, scene.area_id, &scene.selection, &defaults(), show);
    assert_eq!(state.title, "Room 1");
    assert_eq!(state.secrecy_status().map(String::as_str), Some("no"));
    state.secret_error = None;
    state.secret_notice = Some("1 room marked secret".to_string());
    assert_eq!(state.secrecy_status().map(String::as_str), Some("1 room marked secret"));
    state.secret_notice = None;
    assert!(state.secrecy_status().is_none());
}

#[test]
fn a_second_rebuild_changes_nothing() {
    let scene = on_room(1);
    let mut state = synced(&scene);
    state.secret_notice = Some("kept".to_string());
    state.title = "typed".to_string();
    state.resync(&scene.atlas, scene.area_id, &scene.selection, &defaults(), show);
    let once = (state.title.clone(), state.secrecy_status().cloned(), state.tags.clone());
    state.resync(&scene.atlas, scene.area_id, &scene.selection, &defaults(), show);
    assert_eq!(once, (state.title.clone(), state.secrecy_status().cloned(), state.tags.clone()));
    assert_eq!(state.title, "Room 1");
}

// ===== Rooms =====

#[test]
fn valid_room_fields_are_committed() {
    let scene = on_room(1);
    let mut state = synced(&scene);
    let pushed = command(send(&mut state, &scene, Message::Room(RoomMessage::Title("Quay".to_string()))));
    assert!(matches!(
        &pushed.redo[..],
        [Mutation::UpsertRooms(AREA, rooms)] if rooms.len() == 1 && rooms[0].1.title.as_deref() == Some("Quay")
    ));
    assert!(matches!(
        &pushed.undo[..],
        [Mutation::UpsertRooms(AREA, rooms)] if rooms[0].1.title.as_deref() == Some("Room 1")
    ));
    assert!(pushed.coalesce.is_some_and(|key| key.field == FieldId::Title));
    assert_eq!(state.title, "Quay");

    assert!(is_nothing(send(&mut state, &scene, Message::Room(RoomMessage::Level("4x".to_string())))));
    assert_eq!(state.level, "4x");
    let pushed = command(send(&mut state, &scene, Message::Room(RoomMessage::Level("-4".to_string()))));
    assert!(matches!(&pushed.redo[..], [Mutation::UpsertRooms(_, rooms)] if rooms[0].1.level == Some(-4)));

    let moved = send(&mut state, &scene, Message::Room(RoomMessage::X("7".to_string(), Some(scalar(7.0)))));
    assert!(matches!(moved, Action::Push { stale: Stale::Moved, resync: false, .. }));
    assert!(is_nothing(send(&mut state, &scene, Message::Room(RoomMessage::Y("up".to_string(), None)))));

    assert!(is_nothing(send(&mut state, &scene, Message::Room(RoomMessage::Color("re".to_string(), false)))));
    assert_eq!(state.color, "re");
    command(send(&mut state, &scene, Message::Room(RoomMessage::Color(String::new(), false))));

    let scrolled = RoomMessage::Description { text: "As it was".to_string(), is_edit: false };
    assert!(is_nothing(send(&mut state, &scene, Message::Room(scrolled))));
    let typed = RoomMessage::Description { text: "Planks".to_string(), is_edit: true };
    command(send(&mut state, &scene, Message::Room(typed)));
}

#[test]
fn properties_need_a_name() {
    let scene = on_room(1);
    let mut state = synced(&scene);
    assert!(is_nothing(send(&mut state, &scene, Message::RoomProperty(PropertyMessage::Add))));
    let name = PropertyMessage::NewNameChanged("  light ".to_string());
    assert!(is_nothing(send(&mut state, &scene, Message::RoomProperty(name))));
    send(&mut state, &scene, Message::RoomProperty(PropertyMessage::NewValueChanged("dim".to_string())));
    let pushed = command(send(&mut state, &scene, Message::RoomProperty(PropertyMessage::Add)));
    assert!(matches!(
        &pushed.redo[..],
        [Mutation::SetRoomProperty(_, name, value)] if name == "light" && value == "dim"
    ));
    let names: Vec<&str> = state.properties.iter().map(|row| row.name.as_str()).collect();
    assert_eq!(names, vec!["age", "light", "zone"]);
    assert_eq!(state.new_property_name, "");

    let changed = PropertyMessage::ValueChanged(0, "ancient".to_string());
    let pushed = command(send(&mut state, &scene, Message::RoomProperty(changed)));
    assert!(matches!(
        &pushed.undo[..],
        [Mutation::SetRoomProperty(_, name, value)] if name == "age" && value == "old"
    ));
    let pushed = command(send(&mut state, &scene, Message::RoomProperty(PropertyMessage::Deleted(2))));
    assert!(matches!(&pushed.redo[..], [Mutation::DeleteRoomProperty(_, name)] if name == "zone"));
    assert_eq!(state.properties.len(), 2);
    assert!(is_nothing(send(&mut state, &scene, Message::RoomProperty(PropertyMessage::Deleted(9)))));
}

#[test]
fn area_properties_are_edited_alike() {
    let nothing = scene(vec![]);
    let mut state = synced(&nothing);
    let changed = PropertyMessage::ValueChanged(0, "south".to_string());
    let pushed = command(send(&mut state, &nothing, Message::AreaProperty(changed)));
    assert!(matches!(
        &pushed.redo[..],
        [Mutation::SetAreaProperty(AREA, name, value)] if name == "realm" && value == "south"
    ));
    send(&mut state, &nothing, Message::AreaProperty(PropertyMessage::NewNameChanged("age".to_string())));
    let pushed = command(send(&mut state, &nothing, Message::AreaProperty(PropertyMessage::Add)));
    assert!(matches!(&pushed.undo[..], [Mutation::DeleteAreaProperty(AREA, name)] if name == "age"));
    assert_eq!(state.area_properties[0].name, "age");
    command(send(&mut state, &nothing, Message::AreaProperty(PropertyMessage::Deleted(1))));
    assert_eq!(state.area_properties.len(), 1);
}

#[test]
fn tags_are_put_on_once() {
    let scene = on_room(1);
    let mut state = synced(&scene);
    send(&mut state, &scene, Message::Tag(TagMessage::InputChanged("dock".to_string())));
    let added = || TagMessage::Added { tag: "dock".to_string(), typed: "dock".to_string() };
    let pushed = command(send(&mut state, &scene, Message::Tag(added())));
    assert!(matches!(&pushed.redo[..], [Mutation::AddRoomTag(_, tag)] if tag == "dock"));
    assert_eq!(state.tags, vec!["dock", "shop"]);
    assert_eq!(state.new_tag, "");

    state.new_tag = "half".to_string();
    let again = TagMessage::Added { tag: "shop".to_string(), typed: "half".to_string() };
    assert!(is_nothing(send(&mut state, &scene, Message::Tag(again))));
    assert_eq!(state.new_tag, "half");
    let pushed = command(send(&mut state, &scene, Message::Tag(TagMessage::Removed("shop".to_string()))));
    assert!(matches!(&pushed.undo[..], [Mutation::AddRoomTag(_, tag)] if tag == "shop"));
    assert_eq!(state.tags, vec!["dock"]);
}

#[test]
fn a_bulk_edit_makes_rooms_agree() {
    let both = scene(vec![EntityId::Room(RoomNumber(1)), EntityId::Room(RoomNumber(2))]);
    let mut state = synced(&both);
    assert!(state.bulk_color_mixed);
    send(&mut state, &both, Message::Bulk(BulkMessage::ColorChanged("#0000ff".to_string())));
    assert!(is_nothing(send(&mut state, &both, Message::Bulk(BulkMessage::ApplyColor(false)))));
    assert!(state.bulk_color_mixed);
    let pushed = command(send(&mut state, &both, Message::Bulk(BulkMessage::ApplyColor(true))));
    assert!(matches!(&pushed.redo[..], [Mutation::UpsertRooms(_, rooms)] if rooms.len() == 2));
    assert!(!state.bulk_color_mixed);
    send(&mut state, &both, Message::Bulk(BulkMessage::LevelChanged("high".to_string())));
    assert!(is_nothing(send(&mut state, &both, Message::Bulk(BulkMessage::ApplyLevel))));
    send(&mut state, &both, Message::Bulk(BulkMessage::LevelChanged("2".to_string())));
    command(send(&mut state, &both, Message::Bulk(BulkMessage::ApplyLevel)));
}

// ===== Drawings =====

#[test]
fn label_fields_are_checked() {
    let scene = scene(vec![EntityId::Label(LabelId(30))]);
    let mut state = synced(&scene);
    let pushed = command(send(&mut state, &scene, Message::Label(LabelMessage::Text("Pier".to_string()))));
    assert!(matches!(
        &pushed.undo[..],
        [Mutation::UpdateLabel { updates, .. }] if updates.text.as_deref() == Some("Docks")
    ));
    assert!(is_nothing(send(&mut state, &scene, Message::Label(LabelMessage::Color(String::new(), false)))));
    command(send(&mut state, &scene, Message::Label(LabelMessage::Background(String::new(), false))));
    assert!(is_nothing(send(&mut state, &scene, Message::Label(LabelMessage::FontSize("0".to_string())))));
    command(send(&mut state, &scene, Message::Label(LabelMessage::FontSize("9".to_string()))));
    assert!(is_nothing(send(&mut state, &scene, Message::Label(LabelMessage::FontWeight("-1".to_string())))));
    let narrow = LabelMessage::Bounds(BoundsField::Width, "0".to_string(), reading(0.0, 0.25));
    let pushed = command(send(&mut state, &scene, Message::Label(narrow)));
    assert!(matches!(
        &pushed.redo[..],
        [Mutation::UpdateLabel { updates, .. }] if updates.width == Some(scalar(0.25))
    ));
    assert_eq!(state.label.width, "0");
    let aligned = LabelMessage::VerticalAlignment(Alignment::Other(2));
    command(send(&mut state, &scene, Message::Label(aligned)));
    assert_eq!(state.label.vertical_alignment, Alignment::Other(2));
}

#[test]
fn shape_fields_are_checked() {
    let scene = scene(vec![EntityId::Shape(ShapeId(40))]);
    let mut state = synced(&scene);
    command(send(&mut state, &scene, Message::Shape(ShapeMessage::Type(ShapeType::Other(1)))));
    let thin = ShapeMessage::StrokeWidth("-1".to_string(), reading(-1.0, 0.25));
    assert!(is_nothing(send(&mut state, &scene, Message::Shape(thin))));
    assert_eq!(state.shape.stroke_width, "-1");
    let round = ShapeMessage::BorderRadius("2".to_string(), reading(2.0, 2.0));
    let pushed = command(send(&mut state, &scene, Message::Shape(round)));
    assert!(matches!(
        &pushed.redo[..],
        [Mutation::UpdateShape { updates, .. }] if updates.border_radius == Some(scalar(2.0))
    ));
    let moved = ShapeMessage::Bounds(BoundsField::X, "-3".to_string(), reading(-3.0, 0.25));
    let pushed = command(send(&mut state, &scene, Message::Shape(moved)));
    assert!(matches!(&pushed.redo[..], [Mutation::UpdateShape { updates, .. }] if updates.x == Some(scalar(-3.0))));
    assert!(is_nothing(send(&mut state, &scene, Message::Shape(ShapeMessage::StrokeColor("x".to_string(), false)))));
    command(send(&mut state, &scene, Message::Shape(ShapeMessage::Background("#111111".to_string(), true))));
}

#[test]
fn picked_colors_reach_the_open_field() {
    let scene = scene(vec![EntityId::Label(LabelId(30))]);
    let mut state = synced(&scene);
    let picked = || Message::Picker(PickerMessage::Committed("#123456".to_string(), true));
    assert!(is_nothing(send(&mut state, &scene, picked())));
    send(&mut state, &scene, Message::Picker(PickerMessage::Toggled(ColorField::LabelBackground)));
    assert!(is_nothing(send(&mut state, &scene, Message::Picker(PickerMessage::Preview))));
    let pushed = command(send(&mut state, &scene, picked()));
    assert!(matches!(
        &pushed.redo[..],
        [Mutation::UpdateLabel { updates, .. }] if updates.background_color.as_deref() == Some("#123456")
    ));
    assert_eq!(state.color_buffer(ColorField::LabelBackground), "#123456");
    send(&mut state, &scene, Message::Picker(PickerMessage::Toggled(ColorField::LabelText)));
    assert_eq!(state.picker, Some(ColorField::LabelText));
    send(&mut state, &scene, Message::Picker(PickerMessage::Toggled(ColorField::LabelText)));
    assert_eq!(state.picker, None);
}

// ===== Exits and connections =====

#[test]
fn emptying_a_destination_takes_all_of_it() {
    let scene = on_room(1);
    let mut state = synced(&scene);
    let bad = ExitMessage::Edited(0, ExitField::ToRoom("two".to_string()));
    assert!(is_nothing(send(&mut state, &scene, Message::Exit(bad))));
    assert_eq!(state.exits[0].to_area, Some(AREA));
    let emptied = ExitMessage::Edited(0, ExitField::ToRoom("  ".to_string()));
    let pushed = command(send(&mut state, &scene, Message::Exit(emptied)));
    assert_eq!(state.exits[0].to_area, None);
    assert!(pushed.coalesce.is_some_and(|key| key.field == FieldId::Destination));
    let heavy = ExitMessage::Edited(0, ExitField::Weight("2".to_string(), Some(scalar(2.0))));
    command(send(&mut state, &scene, Message::Exit(heavy)));
    let locked = ExitMessage::Edited(0, ExitField::Locked(true));
    command(send(&mut state, &scene, Message::Exit(locked)));
    assert!(state.exits[0].is_locked);
    assert!(is_nothing(send(&mut state, &scene, Message::Exit(ExitMessage::Deleted(4)))));
}

#[test]
fn an_exit_to_a_withheld_place_is_kept() {
    let scene = on_room(1);
    let mut state = synced(&scene);
    state.exits[0].to_unknown = true;
    assert!(is_nothing(send(&mut state, &scene, Message::Exit(ExitMessage::Deleted(0)))));
    assert_eq!(state.exits.len(), 1);
    state.exits[0].to_unknown = false;
    command(send(&mut state, &scene, Message::Exit(ExitMessage::Deleted(0))));
    assert!(state.exits.is_empty());
    command(send(&mut state, &scene, Message::Exit(ExitMessage::Add)));
}

fn connection_update(command: &Command) -> &AreaMutation {
    match &command.redo[..] {
        [Mutation::AreaBatch { operations, .. }] if operations.len() == 1 => &operations[0],
        _ => panic!("not one batch of one operation"),
    }
}

#[test]
fn connections_are_styled() {
    let scene = on_link(LINK);
    let mut state = synced(&scene);
    let refused = ConnectionMessage::Routing { routing: ConnectionRouting::Simple, allowed: false };
    assert!(is_nothing(send(&mut state, &scene, Message::Connection(refused))));
    let routed = ConnectionMessage::Routing { routing: ConnectionRouting::Simple, allowed: true };
    let pushed = command(send(&mut state, &scene, Message::Connection(routed)));
    assert!(matches!(
        connection_update(&pushed),
        AreaMutation::UpdateConnection { connection_id: LINK, body }
            if body.routing == Some(ConnectionRouting::Simple) && body.color.is_none()
    ));
    let automatic = ConnectionMessage::Routing { routing: ConnectionRouting::Automatic, allowed: true };
    assert!(matches!(
        send(&mut state, &scene, Message::Connection(automatic)),
        Action::StartAutomaticRoute(LINK)
    ));
    assert!(matches!(
        send(&mut state, &scene, Message::Connection(ConnectionMessage::Reroute)),
        Action::StartAutomaticRoute(LINK)
    ));
    let flat = ConnectionMessage::Thickness("0".to_string(), reading(0.0, 0.0));
    assert!(is_nothing(send(&mut state, &scene, Message::Connection(flat))));
    assert_eq!(state.connection.thickness, "0");
    let pushed = command(send(&mut state, &scene, Message::Connection(ConnectionMessage::Reset)));
    assert!(matches!(
        connection_update(&pushed),
        AreaMutation::UpdateConnection { body, .. }
            if body.color.as_deref() == Some("#abcdef") && body.thickness == Some(scalar(1.5))
                && body.route_points.as_ref().is_some_and(|points| points.is_empty())
    ));
    let pushed = command(send(&mut state, &scene, Message::Connection(ConnectionMessage::ClearRoute)));
    assert!(matches!(
        connection_update(&pushed),
        AreaMutation::UpdateConnection { body, .. } if body.routing == Some(ConnectionRouting::Simple)
    ));
    assert!(matches!(
        send(&mut state, &scene, Message::Connection(ConnectionMessage::Delete)),
        Action::DeleteSelection
    ));
    command(send(&mut state, &scene, Message::Connection(ConnectionMessage::Unlink(0, ConnectionId(99)))));
    assert!(is_nothing(send(&mut state, &scene, Message::Connection(ConnectionMessage::Unlink(7, ConnectionId(99))))));
}

#[test]
fn automatic_routes_go_out_of_date() {
    let automatic = on_link(BACK);
    let mut state = synced(&automatic);
    let cornered = ConnectionMessage::Corner(CornerStyle::Other(1));
    assert!(matches!(
        send(&mut state, &automatic, Message::Connection(cornered)),
        Action::Push { stale: Stale::Connection(BACK), .. }
    ));
    let dashed = ConnectionMessage::Dash(ConnectionDash::Other(1));
    assert!(matches!(
        send(&mut state, &automatic, Message::Connection(dashed)),
        Action::Push { stale: Stale::Nothing, .. }
    ));
    let manual = on_link(LINK);
    let mut state = synced(&manual);
    let cornered = ConnectionMessage::Corner(CornerStyle::Other(1));
    assert!(matches!(
        send(&mut state, &manual, Message::Connection(cornered)),
        Action::Push { stale: Stale::Nothing, .. }
    ));
}

#[test]
fn manual_routes_are_squared() {
    let scene = on_link(LINK);
    let mut state = synced(&scene);
    let route = match route_to_square(&scene, SegmentShape::Orthogonal) {
        Some(route) => route,
        None => panic!("nothing to square"),
    };
    assert_eq!((route.tip_a, route.tip_b), (point(1.0, 0.0), point(2.0, 0.0)));
    assert_eq!(route.points, vec![point(1.5, 3.0)]);
    assert!(route_to_square(&scene, SegmentShape::Direct).is_none());
    assert!(route_to_square(&on_link(BACK), SegmentShape::Orthogonal).is_none());
    let long = ConnectionMessage::SegmentShape { segment_shape: SegmentShape::Orthogonal, squared: None };
    assert!(matches!(send(&mut state, &scene, Message::Connection(long)), Action::RouteTooLong));
    let squared = vec![point(1.5, 0.0)];
    let bent = ConnectionMessage::SegmentShape { segment_shape: SegmentShape::Orthogonal, squared: Some(squared) };
    let pushed = command(send(&mut state, &scene, Message::Connection(bent)));
    assert!(matches!(
        connection_update(&pushed),
        AreaMutation::UpdateConnection { body, .. } if body.route_points == Some(vec![point(1.5, 0.0)])
    ));
}

fn tip(room: Point, side: RoomSide, offset: Scalar) -> Point {
    let along = number(offset) - 0.5;
    let (dx, dy) = match side {
        RoomSide::North => (along, -1.0),
        RoomSide::South => (along, 1.0),
        RoomSide::East => (1.0, along),
        RoomSide::West => (-1.0, along),
    };
    point(number(room.x) + dx, number(room.y) + dy)
}

fn nearer(a: Point, b: Point) -> bool {
    (number(a.y) - number(b.y)).abs() <= (number(a.x) - number(b.x)).abs()
}

fn apart(a: Point, b: Point) -> bool {
    number(a.x) != number(b.x) && number(a.y) != number(b.y)
}

#[test]
fn ports_move_along_and_between_walls() {
    let scene = on_link(LINK);
    let mut state = synced(&scene);
    let off = PortChange::Offset("3".to_string(), reading(3.0, 3.0));
    assert!(is_nothing(state.move_port(&scene, false, off, &tip, &nearer, &apart)));
    assert_eq!(state.connection.endpoint_a_offset, "3");
    let along = PortChange::Offset("0.25".to_string(), reading(0.25, 0.25));
    let pushed = command(state.move_port(&scene, false, along, &tip, &nearer, &apart));
    assert!(matches!(
        connection_update(&pushed),
        AreaMutation::UpdateConnection { body, .. }
            if body.endpoint_a.is_some_and(|end| end.port_offset == scalar(0.25) && end.port_mode == PortMode::Manual)
                && body.endpoint_b.is_none()
    ));
    let around = PortChange::Side(RoomSide::South);
    command(state.move_port(&scene, true, around, &tip, &nearer, &apart));
    assert_eq!(state.connection.endpoint_b_side, RoomSide::South);
    let reset = PortChange::Reset(Anchor { side: RoomSide::North, port_offset: scalar(0.5) });
    assert!(matches!(
        state.move_port(&scene, false, reset, &tip, &nearer, &apart),
        Action::Push { resync: true, .. }
    ));
    assert_eq!(reset_direction(&scene, false), Some(ExitDirection::East));
    assert_eq!(reset_direction(&scene, true), Some(ExitDirection::West));
    assert_eq!(reset_direction(&on_room(1), false), None);
}

#[test]
fn a_wall_is_shared_out_after_asking() {
    let scene = on_link(LINK);
    let name = |direction: ExitDirection| format!("{:?}", direction);
    let rank = |_: Bearing| 0i64;
    let offset = |slot: usize, slots: usize| scalar((slot as f32 + 1.0) / (slots as f32 + 1.0));
    let close = |a: Scalar, b: Scalar| (number(a) - number(b)).abs() < 0.001;
    let asked = plan_redistribution(&scene, false, &name, &rank, &offset, &close, &tip, &nearer, &apart);
    assert!(matches!(
        asked,
        Action::ConfirmRedistributePorts {
            area_id: AREA,
            room_number: RoomNumber(1),
            side: RoomSide::East,
            secret: false,
            preview,
        } if preview == vec![(LINK, scalar(1.0 / 3.0)), (BACK, scalar(2.0 / 3.0))]
    ));
    let settled = |_: Scalar, _: Scalar| true;
    let quiet = plan_redistribution(&scene, false, &name, &rank, &offset, &settled, &tip, &nearer, &apart);
    assert!(is_nothing(quiet));
}

#[test]
fn a_waypoint_is_taken_out() {
    let mut atlas = AtlasCache { areas: vec![area()] };
    assert!(delete_waypoint(&atlas, AREA, LINK, 1, |_, points, _| Some(points)).is_none());
    let squared = |a: Point, points: Vec<Point>, b: Point| {
        assert_eq!((a, b), (point(1.0, 0.0), point(2.0, 0.0)));
        assert!(points.is_empty());
        Some(vec![point(1.25, 0.0)])
    };
    let removed = delete_waypoint(&atlas, AREA, LINK, 0, squared);
    assert!(removed.as_ref().is_some_and(|command| matches!(
        connection_update(command),
        AreaMutation::UpdateConnection { connection_id: LINK, body }
            if body.route_points == Some(vec![point(1.25, 0.0)])
    )));
    assert!(delete_waypoint(&atlas, AREA, LINK, 0, |_, _, _| None).is_none());
    atlas.areas[0].connections[0].segment_shape = SegmentShape::Direct;
    let removed = delete_waypoint(&atlas, AREA, LINK, 0, |_, _, _| None);
    assert!(removed.as_ref().is_some_and(|command| matches!(
        connection_update(command),
        AreaMutation::UpdateConnection { body, .. }
            if body.route_points.as_ref().is_some_and(|points| points.is_empty())
                && body.routing == Some(ConnectionRouting::Manual)
    )));
}

#[test]
fn an_exit_turns_with_its_port() {
    let atlas = AtlasCache { areas: vec![area()] };
    let key = RoomKey::new(AREA, RoomNumber(1));
    let updates = || ConnectionUpdates { endpoint_a: Some(end(1, RoomSide::South)), ..ConnectionUpdates::default() };
    let turned = edit_exit_with_endpoint(
        &atlas,
        key,
        ExitId(20),
        |mut given| {
            given.from_direction = Some(ExitDirection::South);
            given
        },
        LINK,
        updates(),
    );
    let turned = match turned {
        Some(command) => command,
        None => panic!("nothing to push"),
    };
    assert!(turned.coalesce.is_none());
    assert!(matches!(
        &turned.redo[..],
        [Mutation::AreaBatch { operations, .. }] if matches!(
            &operations[..],
            [
                AreaMutation::UpdateExit { exit_id: ExitId(20), body: exit },
                AreaMutation::UpdateConnection { connection_id: LINK, body },
            ] if exit.from_direction == Some(ExitDirection::South)
                && body.endpoint_a == Some(end(1, RoomSide::South))
        )
    ));
    assert!(edit_exit_with_endpoint(&atlas, key, ExitId(99), |given| given, LINK, updates()).is_none());
}

#[test]
fn a_one_way_link_gets_a_return() {
    let mut atlas = AtlasCache { areas: vec![area()] };
    // Room 2 already answers.
    assert!(add_return_exit(&atlas, AREA, LINK, ExitId(60), |_| ExitDirection::West).is_none());
    atlas.areas[0].rooms[1].exits.clear();
    let added = match add_return_exit(&atlas, AREA, LINK, ExitId(60), |_| ExitDirection::West) {
        Some(command) => command,
        None => panic!("nothing to push"),
    };
    assert!(matches!(
        connection_update(&added),
        AreaMutation::CreateExit { room_number: RoomNumber(2), body }
            if body.id == Some(ExitId(60)) && body.from_direction == ExitDirection::West
                && body.connection_id == Some(LINK) && body.to_room_number == Some(RoomNumber(1))
    ));
    assert!(matches!(
        &added.undo[..],
        [Mutation::AreaBatch { operations, .. }]
            if matches!(&operations[..], [AreaMutation::DeleteExit { exit_id: ExitId(60) }])
    ));
    atlas.areas[0].rooms[0].exits[0].to_unknown = true;
    assert!(add_return_exit(&atlas, AREA, LINK, ExitId(60), |_| ExitDirection::West).is_none());
}

// ===== Secrecy =====

#[test]
fn only_marks_that_change_are_sent() {
    let scene = scene(vec![EntityId::Label(LabelId(30)), EntityId::Room(RoomNumber(1))]);
    let mut state = synced(&scene);
    let sent = send(&mut state, &scene, Message::Secret(SecretMessage::BulkMark(true)));
    assert!(matches!(
        &sent,
        Action::SendMarks { area_id: AREA, request, bulk: true }
            if request.rooms == vec![RoomNumber(1)] && request.labels.is_empty() && request.secret
    ));
    let mut request = empty_secret_marks_request(true);
    assert!(secret_marks_request_is_empty(&request));
    request.labels.push(LabelId(30));
    request.shapes.push(ShapeId(40));
    let left = retain_changing_marks(&scene.atlas, AREA, request);
    assert!(left.labels.is_empty());
    assert_eq!(left.shapes, vec![ShapeId(40)]);
}

#[test]
fn nothing_is_sent_without_clearance() {
    let mut hidden = on_room(1);
    hidden.cleared = false;
    let mut state = synced(&hidden);
    assert!(is_nothing(send(&mut state, &hidden, Message::Secret(SecretMessage::RoomToggled(true)))));
    let label = scene(vec![EntityId::Label(LabelId(30))]);
    let mut state = synced(&label);
    assert!(is_nothing(send(&mut state, &label, Message::Secret(SecretMessage::BulkMark(true)))));
    assert_eq!(state.secret_notice.as_deref(), Some("Nothing changed"));
}

#[test]
fn a_refused_mark_is_taken_back() {
    let scene = on_room(1);
    let mut state = synced(&scene);
    let request = match send(&mut state, &scene, Message::Secret(SecretMessage::RoomToggled(true))) {
        Action::SendMarks { request, bulk: false, .. } => request,
        _ => panic!("nothing sent"),
    };
    assert!(state.is_secret);
    let refused = SecretMessage::Completed {
        area_id: AREA,
        request,
        bulk: false,
        result: Err(MarksFailure::NotFoundOrNoAccess),
    };
    assert!(matches!(
        send(&mut state, &scene, Message::Secret(refused)),
        Action::RevertMarks { area_id: AREA, secret: false, .. }
    ));
    assert_eq!(state.secret_error.as_deref(), Some("You can't change secrets here."));
    let sent = send(&mut state, &scene, Message::Secret(SecretMessage::ExitToggled(0, true)));
    assert!(matches!(&sent, Action::SendMarks { request, .. } if request.exits == vec![ExitId(20)]));
    assert!(state.exits[0].is_secret && state.secret_error.is_none());
    let sent = send(&mut state, &scene, Message::Secret(SecretMessage::RoomPropertyToggled(0, true)));
    assert!(matches!(
        &sent,
        Action::SendMarks { request, .. } if request.room_properties.len() == 1 && request.room_properties[0].name == "age"
    ));
    let counts = SecretMarksResult {
        rooms: 2,
        exits: 0,
        labels: 1,
        shapes: 0,
        room_properties: 0,
        area_properties: 0,
    };
    let accepted = SecretMessage::Completed {
        area_id: AREA,
        request: empty_secret_marks_request(true),
        bulk: true,
        result: Ok(counts),
    };
    assert!(matches!(send(&mut state, &scene, Message::Secret(accepted)), Action::SyncNow));
    assert_eq!(state.secret_notice.as_deref(), Some("2 rooms, 1 label marked secret"));
}

#[test]
fn notices_count_each_kind() {
    let counts = SecretMarksResult {
        rooms: 1,
        exits: 2,
        labels: 0,
        shapes: 1,
        room_properties: 2,
        area_properties: 1,
    };
    assert_eq!(
        format_marks_notice(counts, false),
        "1 room, 2 exits, 1 shape, 2 room properties, 1 area property unmarked"
    );
    let none = SecretMarksResult { rooms: 0, exits: 0, labels: 0, shapes: 0, room_properties: 0, area_properties: 0 };
    assert_eq!(format_marks_notice(none, true), "Nothing changed");
}

// ===== Panels =====

#[test]
fn the_selection_chooses_the_panel() {
    assert_eq!(panel(&scene(vec![])), Panel::Area);
    assert_eq!(panel(&on_room(2)), Panel::Room(RoomNumber(2)));
    assert_eq!(panel(&on_link(LINK)), Panel::Connection(LINK));
    assert_eq!(panel(&scene(vec![EntityId::Label(LabelId(30))])), Panel::Label);
    assert_eq!(panel(&scene(vec![EntityId::Shape(ShapeId(40))])), Panel::Shape);
    let two = vec![EntityId::Label(LabelId(30)), EntityId::Shape(ShapeId(40))];
    assert_eq!(panel(&scene(two)), Panel::Several);
    let mut view_only = on_room(2);
    view_only.atlas.areas[0].access = access(false);
    assert_eq!(panel(&view_only), Panel::ReadOnly);
    view_only.area_id = None;
    assert_eq!(panel(&view_only), Panel::NoArea);
}

#[test]
fn exits_offer_lasting_areas_by_name() {
    let scene = on_room(1);
    let state = synced(&scene);
    let shown = state.exits_section(&scene, &vec![]);
    let names: Vec<&str> = shown.choices.iter().map(|choice| choice.name.as_str()).collect();
    assert_eq!(names, vec!["abbey", "Harbour"]);
    assert!(shown.can_add && !shown.traversal);
    assert_eq!(shown.exits[0].to_choice, Some(1));
    assert_eq!(shown.exits[0].from_room, None);
    let fewer = state.exits_section(&scene, &vec![AWAY]);
    assert_eq!(fewer.choices.len(), 1);
    assert_eq!(fewer.exits[0].to_choice, Some(0));
    let link = on_link(LINK);
    let traversed = synced(&link).exits_section(&link, &vec![]);
    assert!(traversed.traversal && !traversed.can_add);
    assert_eq!(traversed.exits[0].from_room, Some(RoomNumber(1)));
    assert!(!traversed.exits[0].can_unlink);
}

#[test]
fn choices_with_one_name_keep_their_order() {
    let choice = |id: u128, name: &str| AreaChoice { id: AreaId(id), name: name.to_string() };
    let keyed = vec![
        ("moor".to_string(), choice(1, "Moor")),
        ("abbey".to_string(), choice(2, "Abbey")),
        ("moor".to_string(), choice(3, "moor")),
    ];
    let ids: Vec<u128> = order_choices(keyed).iter().map(|choice| choice.id.0).collect();
    assert_eq!(ids, vec![2, 1, 3]);
}

#[test]
fn a_connection_is_described() {
    let names =
        ConnectionNames { kind: "Internal".to_string(), side_a: "east".to_string(), side_b: "west".to_string() };
    let manual = on_link(LINK);
    let shown = match synced(&manual).connection_view(&manual, LINK, &names, true, None) {
        ConnectionShown::Panel(shown) => shown,
        _ => panic!("no panel"),
    };
    assert_eq!(shown.line, "Internal \u{b7} Room 1 east to room 2 west");
    assert_eq!(shown.pair_with, vec![BACK]);
    assert_eq!(shown.shape, ShapeControl::Pick);
    assert!(shown.can_clear && !shown.warns_stale && !shown.route_inactive && !shown.deletes_both);
    let automatic = on_link(BACK);
    let collided = Some(RouteValidation::Collision);
    let shown = match synced(&automatic).connection_view(&automatic, BACK, &names, true, collided) {
        ConnectionShown::Panel(shown) => shown,
        _ => panic!("no panel"),
    };
    assert_eq!(shown.shape, ShapeControl::Orthogonal);
    assert!(shown.warns_stale && shown.warns_collision && !shown.warns_invalid);
    let gone = synced(&manual).connection_view(&manual, ConnectionId(7), &names, false, None);
    assert!(matches!(gone, ConnectionShown::Gone));
}

#[test]
fn forms_say_what_is_valid() {
    let scene_of_room = on_room(1);
    let mut state = synced(&scene_of_room);
    let form = state.single_room_view(&scene_of_room, RoomNumber(1), false);
    assert_eq!(form.heading, "Room #1");
    assert!(form.level_valid && !form.color.valid && !form.color.picker && form.secrecy && !form.locked);
    state.level = "up".to_string();
    state.color = String::new();
    state.picker = Some(ColorField::Room);
    let form = state.single_room_view(&scene_of_room, RoomNumber(1), false);
    assert!(!form.level_valid && form.color.valid && form.color.picker);

    let label = scene(vec![EntityId::Label(LabelId(30))]);
    let mut state = synced(&label);
    state.label.color = String::new();
    state.label.font_weight = "-3".to_string();
    let form = state.label_view(&label, false, false);
    assert!(form.locked && !form.color.valid && form.background.valid);
    assert!(form.font_size_valid && !form.font_weight_valid);

    let shape = scene(vec![EntityId::Shape(ShapeId(40))]);
    let state = synced(&shape);
    let form = state.shape_view(&shape, false, true, reading(-1.0, 0.25), reading(0.0, 0.25));
    assert!(form.fill.valid && form.stroke.valid && !form.stroke_width_valid && form.border_radius_valid);
}

#[test]
fn several_things_are_counted() {
    let mixed = scene(vec![EntityId::Room(RoomNumber(1)), EntityId::Room(RoomNumber(2))]);
    let form = synced(&mixed).multi_selection_view(&mixed);
    assert_eq!(form.heading, "2 selected");
    assert_eq!(form.summary, "0 connections, 2 rooms, 0 labels, 0 shapes");
    assert!(form.rooms.is_some_and(|bulk| bulk.color_placeholder == "(mixed)" && bulk.level_placeholder == "0"));
    let drawings = scene(vec![EntityId::Label(LabelId(30)), EntityId::Shape(ShapeId(40))]);
    assert!(synced(&drawings).multi_selection_view(&drawings).rooms.is_none());
}

#[test]
fn an_area_is_described() {
    let mut nothing = scene(vec![]);
    let facts = AreaFacts {
        level: -2,
        provenance: Some(Provenance { source: AWAY, rev: None, copied_on: None }),
        attribution: "Shared by Ann".to_string(),
        enabled: false,
        hovered: Some(RoomKey::new(AREA, RoomNumber(2))),
    };
    let form = match area_view(&nothing, &facts) {
        Some(form) => form,
        None => panic!("no area"),
    };
    assert_eq!(form.heading, "Harbour");
    assert_eq!(form.line, "3 rooms \u{b7} level -2");
    assert_eq!(form.provenance.as_deref(), Some("Copied from \u{201c}abbey\u{201d}"));
    assert_eq!(form.attribution, None);
    assert_eq!(form.status, "Inactive");
    assert_eq!(form.tip, "Inactive \u{2014} click to activate");
    assert_eq!(form.hovered.len(), 3);
    nothing.atlas.areas[0].access = access(false);
    let form = match area_view(&nothing, &facts) {
        Some(form) => form,
        None => panic!("no area"),
    };
    assert_eq!(form.provenance, None);
    assert_eq!(form.attribution.as_deref(), Some("Shared by Ann"));
    nothing.area_id = None;
    assert!(area_view(&nothing, &facts).is_none());
}

// ===== Summaries =====

#[test]
fn exits_are_summed_up() {
    let scene = on_room(1);
    let area = &scene.atlas.areas[0];
    let mut leads = exit(1, LINK, ExitDirection::East, Some(2));
    assert_eq!(exit_summary(&scene.atlas, area, &leads, "east"), "east \u{2192} room 2");
    leads.to_area_id = Some(AWAY);
    assert_eq!(exit_summary(&scene.atlas, area, &leads, "east"), "east \u{2192} abbey, room 2");
    leads.to_area_id = Some(AreaId(9));
    leads.to_room_number = None;
    assert_eq!(exit_summary(&scene.atlas, area, &leads, "east"), "east \u{2192} another area");
    leads.to_unknown = true;
    assert_eq!(exit_summary(&scene.atlas, area, &leads, "east"), "east \u{2192} Unknown map");
    let nowhere = exit(1, LINK, ExitDirection::Other(0), None);
    assert_eq!(exit_summary(&scene.atlas, area, &nowhere, "up"), "up \u{2192} nowhere");
}

#[test]
fn a_view_only_area_is_summed_up() {
    let scene = on_room(1);
    let shown = Shown { kind: "Internal".to_string(), position: "(1, 0)".to_string(), shape: "3 by 3".to_string() };
    let name = |_: ExitDirection| "east".to_string();
    let hovered = Some(RoomKey::new(AREA, RoomNumber(3)));
    let told = |lines: Vec<Line>| -> Vec<String> {
        lines.into_iter().map(|line| line.text).collect()
    };
    assert_eq!(
        told(read_only_view(&scene, "Shared by Ann", hovered, &shown, &name)),
        vec![
            "Shared by Ann \u{2014} view only.",
            "",
            "Room #1",
            "Room 1",
            "Level 0 \u{b7} (1, 0)",
            "Properties",
            "age: old",
            "zone: coast",
            "Exits",
            "east \u{2192} room 2",
            "Room #3",
            "Room 3",
            "",
        ]
    );
    let link = told(read_only_view(&on_link(LINK), "X", None, &shown, &name));
    assert_eq!(link[2..], ["Connection", "Internal \u{b7} room 1 to room 2 \u{b7} one-way"]);
    let mut nowhere = on_room(1);
    nowhere.area_id = None;
    assert_eq!(told(read_only_view(&nowhere, "X", hovered, &shown, &name)), vec!["No area selected"]);
    let both = Selection { entities: vec![EntityId::Room(RoomNumber(1)), EntityId::Connection(LINK)] };
    assert_eq!(selection_summary(&both), "1 connections, 1 rooms, 0 labels, 0 shapes");
}

#[test]
fn owners_are_told_where_a_copy_comes_from() {
    let scene = on_room(1);
    let area = &scene.atlas.areas[0];
    let provenance = |rev| Some(Provenance { source: AWAY, rev, copied_on: Some("2024-05-01".to_string()) });
    assert_eq!(
        provenance_line(&scene.atlas, area, &provenance(Some(3))).as_deref(),
        Some("Copied from \u{201c}abbey\u{201d} at rev 3 on 2024-05-01")
    );
    assert_eq!(
        provenance_line(&scene.atlas, area, &provenance(Some(2))).as_deref(),
        Some("Copied from \u{201c}abbey\u{201d} at rev 2 on 2024-05-01 (source has changed since)")
    );
    let unknown = Some(Provenance { source: AreaId(9), rev: None, copied_on: None });
    assert_eq!(provenance_line(&scene.atlas, area, &unknown).as_deref(), Some("Copied from a shared map"));
    assert_eq!(provenance_line(&scene.atlas, area, &None), None);
    let mut shared = on_room(1);
    shared.atlas.areas[0].access = access(false);
    assert_eq!(provenance_line(&shared.atlas, &shared.atlas.areas[0], &unknown), None);
}

#[test]
fn the_only_active_copy_cannot_be_chosen_again() {
    let scene = on_room(1);
    let rows = match copies_section(&scene.atlas, &vec![AREA, AWAY, AreaId(9)], &vec![AREA], AREA) {
        Some(rows) => rows,
        None => panic!("no copies"),
    };
    assert_eq!(rows.len(), 2);
    assert_eq!(rows[0].label, "Harbour (this map)");
    assert!(rows[0].enabled && !rows[0].can_use_only);
    assert_eq!(rows[1].label, "abbey");
    assert!(!rows[1].enabled && rows[1].can_use_only);
    let rows = match copies_section(&scene.atlas, &vec![AREA, AWAY], &vec![AREA, AWAY], AREA) {
        Some(rows) => rows,
        None => panic!("no copies"),
    };
    assert!(rows[0].can_use_only);
    assert!(copies_section(&scene.atlas, &vec![AREA], &vec![], AREA).is_none());
}
