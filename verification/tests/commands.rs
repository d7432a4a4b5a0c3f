use smudgy_ui::map_editor_window::cache::Selection;
use smudgy_ui::map_editor_window::clipboard::{boundary_link_count, snapshot_selection, EntityClipboard, ExitClip};
use smudgy_ui::map_editor_window::commands::{Command, CommandId, Direction, FieldId, ResolvedId};
use smudgy_ui::map_editor_window::compile::{AreaMutationBatch, Outcome};
use smudgy_ui::map_editor_window::creation::{
    create_exit_with_options, create_label, create_room, create_shape, Anchor, LinkEnds, LinkIds, NewExitTarget,
    NewLinkOptions,
};
use smudgy_ui::map_editor_window::deletion::delete_selection;
use smudgy_ui::map_editor_window::edits::{
    add_room_tag, bulk_edit_rooms, delete_area_property, delete_room_property, edit_label_field, edit_room_field,
    edit_shape_field, move_selection, remove_room_tag, resize_entity, set_area_property, set_room_property,
    shift_selection_level, Rect,
};
use smudgy_ui::map_editor_window::inspector::ports::{redistribute_port_updates, Bearing};
use smudgy_ui::map_editor_window::links::{
    accept_automatic_route, add_return_exit, delete_connection, delete_exit, edit_connection, edit_connections,
    edit_exit_field, pair_connections, unlink_exit,
};
use smudgy_ui::map_editor_window::model::{
    Alignment, AreaAccess, AreaCache, AreaId, AtlasCache, Connection, ConnectionDash, ConnectionEndpoint, ConnectionId,
    ConnectionKind, ConnectionRouting, ConnectionUpdates, CornerStyle, EntityId, ExitArgs, ExitCache, ExitDirection,
    ExitId, ExitUpdates, LabelArgs, LabelCache, LabelId, LabelUpdates, OperationId, Point, PortMode, PropertyEntry,
    RoomCache, RoomKey, RoomNumber, RoomSide, RoomUpdates, Scalar, SegmentShape, ShapeArgs, ShapeCache, ShapeId,
    ShapeType, ShapeUpdates,
};
use smudgy_ui::map_editor_window::mutation::{AreaMutation, IdRef, Mutation, SlotId};
use smudgy_ui::map_editor_window::paste::{
    classify_pasted_exit, mapped_number, paste_clipboard, paste_has_room_numbers, remap_room_numbers, Paste, PasteIds,
    PastedExitDestination,
};
use smudgy_ui::map_editor_window::stack::{apply, CommandStack, Reply};

/// How many writes one batch takes.
const LIMIT: usize = 64;

fn scalar(value: f32) -> Scalar {
    Scalar(value.to_bits())
}

fn number(value: Scalar) -> f32 {
    f32::from_bits(value.0)
}

fn point(x: f32, y: f32) -> Point {
    Point {
        x: scalar(x),
        y: scalar(y),
    }
}

fn plus(p: Point, dx: f32, dy: f32) -> Point {
    point(number(p.x) + dx, number(p.y) + dy)
}

fn key(area_id: AreaId, room: i32) -> RoomKey {
    RoomKey::new(area_id, RoomNumber(room))
}

// ===== A map that batches are staged to =====

struct Mapper {
    atlas: AtlasCache,
    next: u128,
    /// Refuses what is staged.
    broken: bool,
    /// The sizes of the batches that were staged last.
    sizes: Vec<usize>,
}

fn side_of(direction: ExitDirection) -> RoomSide {
    match direction {
        ExitDirection::North => RoomSide::North,
        ExitDirection::South => RoomSide::South,
        ExitDirection::West => RoomSide::West,
        _ => RoomSide::East,
    }
}

fn endpoint(room: RoomNumber, side: RoomSide) -> ConnectionEndpoint {
    ConnectionEndpoint {
        room_number: room,
        side,
        port_offset: scalar(0.5),
        port_mode: PortMode::AutoPinned,
    }
}

fn test_mapper() -> Mapper {
    Mapper {
        atlas: AtlasCache { areas: Vec::new() },
        next: 1000,
        broken: false,
        sizes: Vec::new(),
    }
}

impl Mapper {
    fn fresh(&mut self) -> u128 {
        self.next += 1;
        self.next
    }

    fn fresh_ids(&mut self, count: usize) -> Vec<u128> {
        (0..count).map(|_| self.fresh()).collect()
    }

    fn create_area(&mut self) -> AreaId {
        let id = AreaId(self.fresh());
        self.atlas.areas.push(AreaCache {
            id,
            name: "Test".to_string(),
            rev: 1,
            access: AreaAccess {
                is_owned: true,
                can_edit: true,
                can_copy: true,
                can_share: true,
                is_cleared_for_secrets: true,
            },
            rooms: Vec::new(),
            connections: Vec::new(),
            room_connections: Vec::new(),
            labels: Vec::new(),
            shapes: Vec::new(),
            properties: Vec::new(),
            next_room_number: RoomNumber(1),
        });
        id
    }

    fn area(&self, id: AreaId) -> &AreaCache {
        self.atlas.areas.iter().find(|area| area.id == id).expect("area")
    }

    fn area_mut(&mut self, id: AreaId) -> &mut AreaCache {
        self.atlas.areas.iter_mut().find(|area| area.id == id).expect("area")
    }

    fn room(&self, area_id: AreaId, room: i32) -> Option<&RoomCache> {
        self.area(area_id).rooms.iter().find(|r| r.room_number == RoomNumber(room))
    }

    fn write(&mut self, area_id: AreaId, op: AreaMutation) {
        let fresh = self.fresh();
        match op {
            AreaMutation::UpsertRoom { room_number, body } => {
                let area = self.area_mut(area_id);
                if !area.rooms.iter().any(|room| room.room_number == room_number) {
                    area.rooms.push(RoomCache {
                        room_number,
                        title: String::new(),
                        description: String::new(),
                        level: 0,
                        x: scalar(0.0),
                        y: scalar(0.0),
                        color: String::new(),
                        is_secret: false,
                        external_id: None,
                        properties: Vec::new(),
                        tags: Vec::new(),
                        exits: Vec::new(),
                    });
                    if area.next_room_number.0 <= room_number.0 {
                        area.next_room_number = RoomNumber(room_number.0 + 1);
                    }
                }
                let room = area.rooms.iter_mut().find(|room| room.room_number == room_number).unwrap();
                room.is_secret = body.is_secret.unwrap_or(room.is_secret);
                room.title = body.title.unwrap_or(room.title.clone());
                room.description = body.description.unwrap_or(room.description.clone());
                room.level = body.level.unwrap_or(room.level);
                room.x = body.x.unwrap_or(room.x);
                room.y = body.y.unwrap_or(room.y);
                room.color = body.color.unwrap_or(room.color.clone());
                room.external_id = body.external_id.unwrap_or(room.external_id.clone());
            }
            AreaMutation::DeleteRoom { room_number } => {
                let area = self.area_mut(area_id);
                area.rooms.retain(|room| room.room_number != room_number);
                for area in &mut self.atlas.areas {
                    for room in &mut area.rooms {
                        for exit in &mut room.exits {
                            if exit.to_area_id == Some(area_id) && exit.to_room_number == Some(room_number) {
                                exit.to_area_id = None;
                                exit.to_room_number = None;
                                exit.to_direction = None;
                            }
                        }
                    }
                }
                let area = self.area_mut(area_id);
                let used: Vec<ConnectionId> =
                    area.rooms.iter().flat_map(|room| room.exits.iter().map(|exit| exit.connection_id)).collect();
                area.connections.retain(|connection| used.contains(&connection.id));
            }
            AreaMutation::UpsertRoomProperty { room_number, name, value, .. } => {
                let area = self.area_mut(area_id);
                let room = area.rooms.iter_mut().find(|room| room.room_number == room_number).expect("room");
                room.properties.retain(|entry| entry.name != name);
                room.properties.push(PropertyEntry {
                    name,
                    value,
                    is_secret: false,
                });
            }
            AreaMutation::DeleteRoomProperty { room_number, name } => {
                let area = self.area_mut(area_id);
                let room = area.rooms.iter_mut().find(|room| room.room_number == room_number).expect("room");
                room.properties.retain(|entry| entry.name != name);
            }
            AreaMutation::AddRoomTag { room_number, tag } => {
                let area = self.area_mut(area_id);
                let room = area.rooms.iter_mut().find(|room| room.room_number == room_number).expect("room");
                room.tags.push(tag);
            }
            AreaMutation::RemoveRoomTag { room_number, tag } => {
                let area = self.area_mut(area_id);
                let room = area.rooms.iter_mut().find(|room| room.room_number == room_number).expect("room");
                room.tags.retain(|held| *held != tag);
            }
            AreaMutation::UpsertAreaProperty { name, value, .. } => {
                let area = self.area_mut(area_id);
                area.properties.retain(|entry| entry.name != name);
                area.properties.push(PropertyEntry {
                    name,
                    value,
                    is_secret: false,
                });
            }
            AreaMutation::DeleteAreaProperty { name } => {
                self.area_mut(area_id).properties.retain(|entry| entry.name != name);
            }
            AreaMutation::CreateExit { room_number, body } => {
                let area = self.area_mut(area_id);
                let connection_id = body
                    .connection_id
                    .or(body.new_connection_id)
                    .unwrap_or(ConnectionId(fresh + 1_000_000));
                if !area.connections.iter().any(|connection| connection.id == connection_id) {
                    let inside = body.to_area_id == Some(area_id);
                    area.connections.push(Connection {
                        id: connection_id,
                        kind: if inside {
                            ConnectionKind::Internal
                        } else {
                            ConnectionKind::Other(0)
                        },
                        endpoint_a: endpoint(room_number, side_of(body.from_direction)),
                        endpoint_b: match (inside, body.to_room_number, body.to_direction) {
                            (true, Some(room), Some(direction)) => Some(endpoint(room, side_of(direction))),
                            _ => None,
                        },
                        routing: ConnectionRouting::Simple,
                        segment_shape: SegmentShape::Direct,
                        corner: CornerStyle::Sharp,
                        route_points: Vec::new(),
                        dash: ConnectionDash::Solid,
                        color: String::new(),
                        thickness: scalar(1.0),
                    });
                }
                let room = area.rooms.iter_mut().find(|room| room.room_number == room_number).expect("room");
                room.exits.push(ExitCache {
                    id: body.id.unwrap_or(ExitId(fresh)),
                    connection_id,
                    from_direction: body.from_direction,
                    to_area_id: body.to_area_id,
                    to_room_number: body.to_room_number,
                    to_direction: body.to_direction,
                    path: body.path,
                    is_hidden: body.is_hidden,
                    is_closed: body.is_closed,
                    is_locked: body.is_locked,
                    weight: body.weight,
                    command: body.command,
                    is_secret: body.is_secret.unwrap_or(false),
                    to_unknown: false,
                });
            }
            AreaMutation::UpdateExit { exit_id, body } => {
                for area in &mut self.atlas.areas {
                    for room in &mut area.rooms {
                        for exit in &mut room.exits {
                            if exit.id == exit_id {
                                exit.from_direction = body.from_direction.unwrap_or(exit.from_direction);
                                if body.clear_to == Some(true) {
                                    exit.to_area_id = None;
                                    exit.to_room_number = None;
                                    exit.to_direction = None;
                                } else {
                                    exit.to_area_id = body.to_area_id.or(exit.to_area_id);
                                    exit.to_room_number = body.to_room_number.or(exit.to_room_number);
                                    exit.to_direction = body.to_direction.or(exit.to_direction);
                                }
                                exit.is_secret = body.is_secret.unwrap_or(exit.is_secret);
                                exit.is_hidden = body.is_hidden.unwrap_or(exit.is_hidden);
                                exit.is_closed = body.is_closed.unwrap_or(exit.is_closed);
                                exit.is_locked = body.is_locked.unwrap_or(exit.is_locked);
                                exit.weight = body.weight.unwrap_or(exit.weight);
                                exit.path = body.path.clone().or(exit.path.take());
                                exit.command = body.command.clone().or(exit.command.take());
                            }
                        }
                    }
                }
            }
            AreaMutation::DeleteExit { exit_id } => {
                let area = self.area_mut(area_id);
                for room in &mut area.rooms {
                    room.exits.retain(|exit| exit.id != exit_id);
                }
                let used: Vec<ConnectionId> =
                    area.rooms.iter().flat_map(|room| room.exits.iter().map(|exit| exit.connection_id)).collect();
                area.connections.retain(|connection| used.contains(&connection.id));
            }
            AreaMutation::CreateLabel { body } => {
                self.area_mut(area_id).labels.push(LabelCache {
                    id: body.id.unwrap_or(LabelId(fresh)),
                    level: body.level,
                    x: body.x,
                    y: body.y,
                    width: body.width,
                    height: body.height,
                    horizontal_alignment: body.horizontal_alignment,
                    vertical_alignment: body.vertical_alignment,
                    text: body.text,
                    color: body.color,
                    // What is left out turns white.
                    background_color: body.background_color.unwrap_or("#ffffff".to_string()),
                    font_size: body.font_size,
                    font_weight: body.font_weight,
                    is_secret: body.is_secret.unwrap_or(false),
                });
            }
            AreaMutation::UpdateLabel { label_id, body } => {
                let area = self.area_mut(area_id);
                let label = area.labels.iter_mut().find(|label| label.id == label_id).expect("label");
                label.level = body.level.unwrap_or(label.level);
                label.x = body.x.unwrap_or(label.x);
                label.y = body.y.unwrap_or(label.y);
                label.width = body.width.unwrap_or(label.width);
                label.height = body.height.unwrap_or(label.height);
                label.text = body.text.unwrap_or(label.text.clone());
            }
            AreaMutation::DeleteLabel { label_id } => {
                self.area_mut(area_id).labels.retain(|label| label.id != label_id);
            }
            AreaMutation::CreateShape { body } => {
                self.area_mut(area_id).shapes.push(ShapeCache {
                    id: body.id.unwrap_or(ShapeId(fresh)),
                    level: body.level,
                    x: body.x,
                    y: body.y,
                    width: body.width,
                    height: body.height,
                    background_color: body.background_color,
                    stroke_color: body.stroke_color,
                    shape_type: body.shape_type,
                    border_radius: body.border_radius,
                    stroke_width: body.stroke_width.unwrap_or(scalar(1.0)),
                    is_secret: body.is_secret.unwrap_or(false),
                });
            }
            AreaMutation::UpdateShape { shape_id, body } => {
                let area = self.area_mut(area_id);
                let shape = area.shapes.iter_mut().find(|shape| shape.id == shape_id).expect("shape");
                shape.level = body.level.unwrap_or(shape.level);
                shape.x = body.x.unwrap_or(shape.x);
                shape.y = body.y.unwrap_or(shape.y);
                shape.width = body.width.unwrap_or(shape.width);
                shape.height = body.height.unwrap_or(shape.height);
                shape.stroke_width = body.stroke_width.unwrap_or(shape.stroke_width);
            }
            AreaMutation::DeleteShape { shape_id } => {
                self.area_mut(area_id).shapes.retain(|shape| shape.id != shape_id);
            }
            AreaMutation::CreateConnection { body } => {
                let two = body.endpoint_b.is_some();
                self.area_mut(area_id).connections.push(Connection {
                    id: body.id,
                    kind: if two {
                        ConnectionKind::Internal
                    } else {
                        ConnectionKind::Other(0)
                    },
                    endpoint_a: body.endpoint_a,
                    endpoint_b: body.endpoint_b,
                    routing: body.routing,
                    segment_shape: body.segment_shape,
                    corner: body.corner,
                    route_points: body.route_points,
                    dash: body.dash,
                    color: body.color,
                    thickness: body.thickness,
                });
            }
            AreaMutation::UpdateConnection { connection_id, body } => {
                let area = self.area_mut(area_id);
                let held = area.connections.iter_mut().find(|one| one.id == connection_id).expect("connection");
                held.endpoint_a = body.endpoint_a.unwrap_or(held.endpoint_a);
                if body.endpoint_b.is_some() {
                    held.endpoint_b = body.endpoint_b;
                }
                held.routing = body.routing.unwrap_or(held.routing);
                held.segment_shape = body.segment_shape.unwrap_or(held.segment_shape);
                held.corner = body.corner.unwrap_or(held.corner);
                held.dash = body.dash.unwrap_or(held.dash);
                held.thickness = body.thickness.unwrap_or(held.thickness);
                if let Some(color) = body.color {
                    held.color = color;
                }
                if let Some(points) = body.route_points {
                    held.route_points = points;
                }
            }
            AreaMutation::DeleteLink { connection_id } => {
                let area = self.area_mut(area_id);
                area.connections.retain(|connection| connection.id != connection_id);
                for room in &mut area.rooms {
                    room.exits.retain(|exit| exit.connection_id != connection_id);
                }
            }
            AreaMutation::Unlink { exit_id, new_connection_id } => {
                let area = self.area_mut(area_id);
                for room in &mut area.rooms {
                    for exit in &mut room.exits {
                        if exit.id == exit_id {
                            exit.connection_id = new_connection_id;
                        }
                    }
                }
                area.connections.push(Connection {
                    id: new_connection_id,
                    kind: ConnectionKind::Internal,
                    endpoint_a: endpoint(RoomNumber(0), RoomSide::North),
                    endpoint_b: None,
                    routing: ConnectionRouting::Simple,
                    segment_shape: SegmentShape::Direct,
                    corner: CornerStyle::Sharp,
                    route_points: Vec::new(),
                    dash: ConnectionDash::Solid,
                    color: String::new(),
                    thickness: scalar(1.0),
                });
            }
            AreaMutation::Pair { keep_connection_id, merge_connection_id } => {
                let area = self.area_mut(area_id);
                for room in &mut area.rooms {
                    for exit in &mut room.exits {
                        if exit.connection_id == merge_connection_id {
                            exit.connection_id = keep_connection_id;
                        }
                    }
                }
                area.connections.retain(|connection| connection.id != merge_connection_id);
            }
        }
    }

    fn stage(&mut self, batches: Vec<AreaMutationBatch>) -> Reply {
        if self.broken {
            return Err("the disk is full".to_string());
        }
        self.sizes = batches.iter().map(|batch| batch.operations.len()).collect();
        let mut ids = Vec::new();
        for batch in batches {
            for op in batch.operations {
                self.write(batch.area_id, op);
            }
            ids.push(Some(OperationId(self.fresh())));
        }
        Ok(ids)
    }

    fn push(&mut self, stack: &mut CommandStack, command: Command) -> Vec<OperationId> {
        let fresh = self.fresh_ids(command.redo.len());
        let (_, ids) = stack.push_and_apply_tracked(command, &fresh, LIMIT, |batches| self.stage(batches));
        ids
    }

    fn undo(&mut self, stack: &mut CommandStack) {
        let fresh = self.fresh_ids(stack.undo_size());
        stack.undo(&fresh, LIMIT, |batches| self.stage(batches));
    }

    fn redo(&mut self, stack: &mut CommandStack) {
        let fresh = self.fresh_ids(stack.redo_size());
        stack.redo(&fresh, LIMIT, |batches| self.stage(batches));
    }

    fn create_exit(&mut self, room_key: RoomKey, from: ExitDirection, to: Option<(AreaId, i32, ExitDirection)>) -> ExitId {
        let id = ExitId(self.fresh());
        let mut body = exit_args(from);
        body.id = Some(id);
        if let Some((area_id, room, direction)) = to {
            body.to_area_id = Some(area_id);
            body.to_room_number = Some(RoomNumber(room));
            body.to_direction = Some(direction);
        }
        self.write(
            room_key.area_id,
            AreaMutation::CreateExit {
                room_number: room_key.room_number,
                body,
            },
        );
        id
    }
}

fn exit_args(from_direction: ExitDirection) -> ExitArgs {
    ExitArgs {
        id: None,
        connection_id: None,
        new_connection_id: None,
        is_secret: None,
        from_direction,
        to_area_id: None,
        to_room_number: None,
        to_direction: None,
        path: None,
        is_hidden: false,
        is_closed: false,
        is_locked: false,
        weight: scalar(1.0),
        command: None,
    }
}

fn label_args() -> LabelArgs {
    LabelArgs {
        id: None,
        is_secret: None,
        level: 0,
        x: scalar(0.0),
        y: scalar(0.0),
        width: scalar(0.0),
        height: scalar(0.0),
        horizontal_alignment: Alignment::Standard,
        vertical_alignment: Alignment::Standard,
        text: String::new(),
        color: String::new(),
        background_color: None,
        font_size: 0,
        font_weight: 0,
    }
}

fn resolved_id(stack: &CommandStack, command_id: CommandId, slot: SlotId) -> ResolvedId {
    stack
        .undo
        .iter()
        .chain(stack.redo.iter())
        .find(|command| command.id == command_id)
        .and_then(|command| command.resolved_ids.get(slot))
        .and_then(|id| *id)
        .expect("create id was minted before enqueue")
}

/// The slots that the creations of a list fill.
fn created_slots(mutations: &[Mutation]) -> Vec<SlotId> {
    mutations
        .iter()
        .filter_map(|mutation| match mutation {
            Mutation::CreateExit { slot, .. } => Some(*slot),
            Mutation::CreateLabel { slot, .. } => Some(*slot),
            Mutation::CreateShape { slot, .. } => Some(*slot),
            _ => None,
        })
        .collect()
}

/// Settles the creations of a command.
fn drive_create_completions(stack: &mut CommandStack, area_id: AreaId, command_id: CommandId, slots: Vec<SlotId>) {
    for slot in slots {
        let outcome = match resolved_id(stack, command_id, slot) {
            ResolvedId::Exit(id) => Outcome::Exit {
                command: command_id,
                slot,
                room_key: key(area_id, 1),
                follow_up: None,
                result: Ok(id),
            },
            ResolvedId::Label(id) => Outcome::Label {
                command: command_id,
                slot,
                result: Ok(id),
            },
            ResolvedId::Shape(id) => Outcome::Shape {
                command: command_id,
                slot,
                result: Ok(id),
            },
        };
        stack.resolve(outcome, |_, _, _| Ok(None));
    }
}

fn area_with_rooms(mapper: &mut Mapper, rooms: &[(i32, f32, f32)]) -> AreaId {
    let area_id = mapper.create_area();
    for (room, x, y) in rooms {
        mapper.write(
            area_id,
            AreaMutation::UpsertRoom {
                room_number: RoomNumber(*room),
                body: RoomUpdates {
                    title: Some(format!("Room {room}")),
                    x: Some(scalar(*x)),
                    y: Some(scalar(*y)),
                    ..RoomUpdates::default()
                },
            },
        );
    }
    area_id
}

fn select(entities: Vec<EntityId>) -> Selection {
    Selection { entities }
}

fn select_rooms(numbers: &[i32]) -> Selection {
    select(numbers.iter().map(|n| EntityId::Room(RoomNumber(*n))).collect())
}

fn room_pos(mapper: &Mapper, area_id: AreaId, room: i32) -> (f32, f32) {
    let room = mapper.room(area_id, room).expect("room");
    (number(room.x), number(room.y))
}

fn title_updates(title: &str) -> RoomUpdates {
    RoomUpdates {
        title: Some(title.to_string()),
        ..RoomUpdates::default()
    }
}

// ===== History =====

#[test]
fn move_then_undo_restores_positions() {
    let mut mapper = test_mapper();
    let area_id = area_with_rooms(&mut mapper, &[(1, 0.0, 0.0), (2, 1.0, 0.0), (3, 2.0, 5.0)]);

    let mut stack = CommandStack::new();
    let selection = select_rooms(&[1, 2, 3]);

    let command =
        move_selection(&mapper.atlas, area_id, &selection, |p: Point| plus(p, 2.0, -1.0)).expect("command");
    mapper.push(&mut stack, command);

    assert_eq!(room_pos(&mapper, area_id, 1), (2.0, -1.0));
    assert_eq!(room_pos(&mapper, area_id, 3), (4.0, 4.0));
    assert!(stack.can_undo());

    mapper.undo(&mut stack);
    assert_eq!(room_pos(&mapper, area_id, 1), (0.0, 0.0));
    assert_eq!(room_pos(&mapper, area_id, 2), (1.0, 0.0));
    assert_eq!(room_pos(&mapper, area_id, 3), (2.0, 5.0));
    assert!(stack.can_redo());

    mapper.redo(&mut stack);
    assert_eq!(room_pos(&mapper, area_id, 1), (2.0, -1.0));
}

#[test]
fn push_clears_redo() {
    let mut mapper = test_mapper();
    let area_id = area_with_rooms(&mut mapper, &[(1, 0.0, 0.0)]);
    let mut stack = CommandStack::new();
    let selection = select_rooms(&[1]);

    let command =
        move_selection(&mapper.atlas, area_id, &selection, |p: Point| plus(p, 1.0, 0.0)).expect("command");
    mapper.push(&mut stack, command);
    mapper.undo(&mut stack);
    assert!(stack.can_redo());

    let command =
        move_selection(&mapper.atlas, area_id, &selection, |p: Point| plus(p, 0.0, 1.0)).expect("command");
    mapper.push(&mut stack, command);
    assert!(!stack.can_redo());
}

fn link_ends(from: i32, to: NewExitTarget) -> LinkEnds {
    LinkEnds {
        from: RoomNumber(from),
        from_direction: ExitDirection::East,
        from_anchor: Anchor {
            side: RoomSide::East,
            port_offset: scalar(0.5),
        },
        to,
        to_direction: ExitDirection::West,
        to_anchor: Anchor {
            side: RoomSide::West,
            port_offset: scalar(0.5),
        },
    }
}

fn link_ids(mapper: &mut Mapper) -> LinkIds {
    LinkIds {
        connection_id: ConnectionId(mapper.fresh()),
        forward_id: ExitId(mapper.fresh()),
        reverse_id: ExitId(mapper.fresh()),
    }
}

#[test]
fn tracked_area_operation_can_be_removed_from_history_after_discard() {
    let mut mapper = test_mapper();
    let area_id = area_with_rooms(&mut mapper, &[(1, 0.0, 0.0)]);
    let mut stack = CommandStack::new();
    let target = NewExitTarget::NewRoom {
        room_number: RoomNumber(2),
        at: point(2.0, 0.0),
        level: 0,
    };
    let ids = link_ids(&mut mapper);
    let command = create_exit_with_options(
        area_id,
        link_ends(1, target),
        NewLinkOptions::styled("#fff".to_string(), scalar(1.0)),
        ids,
    );

    let operation_ids = mapper.push(&mut stack, command);
    assert_eq!(operation_ids.len(), 1);
    assert!(stack.can_undo());
    assert!(stack.discard_operation(operation_ids[0]));
    assert!(!stack.can_undo());
    assert!(!stack.discard_operation(operation_ids[0]));
}

#[test]
fn field_edits_coalesce_keeping_first_prior() {
    let mut mapper = test_mapper();
    let area_id = area_with_rooms(&mut mapper, &[(1, 0.0, 0.0)]);
    let room_key = key(area_id, 1);
    let mut stack = CommandStack::new();

    for title in ["a", "ab", "abc"] {
        let command =
            edit_room_field(&mapper.atlas, room_key, FieldId::Title, title_updates(title)).expect("command");
        mapper.push(&mut stack, command);
    }

    assert_eq!(stack.undo.len(), 1, "rapid edits collapse to one entry");

    mapper.undo(&mut stack);
    let title = mapper.room(area_id, 1).expect("room").title.clone();
    assert_eq!(title, "Room 1", "undo returns to the pre-burst title");
    mapper.redo(&mut stack);
    assert_eq!(mapper.room(area_id, 1).expect("room").title, "abc");
}

#[test]
fn pending_create_blocks_undo() {
    let mut mapper = test_mapper();
    let area_id = area_with_rooms(&mut mapper, &[(1, 0.0, 0.0)]);

    let mut command = Command::new(
        vec![Mutation::CreateLabel {
            area_id,
            args: label_args(),
            slot: 0,
        }],
        vec![Mutation::DeleteLabel {
            area_id,
            id: IdRef::Slot(0),
        }],
    );
    let mut stack = CommandStack::new();
    let fresh = mapper.fresh_ids(1);
    apply(&mut command, Direction::Redo, &fresh, LIMIT, |batches| mapper.stage(batches));
    assert_eq!(command.pending, 1);
    command.id = 7;
    stack.undo.push(command);

    assert!(!stack.can_undo(), "pending create blocks undo");

    let ResolvedId::Label(id) = resolved_id(&stack, 7, 0) else {
        panic!("label slot held the wrong entity kind");
    };
    stack.resolve(
        Outcome::Label {
            command: 7,
            slot: 0,
            result: Ok(id),
        },
        |_, _, _| Ok(None),
    );
    assert!(stack.can_undo(), "resolution unblocks undo");
}

#[test]
fn refused_commands_leave_the_history_as_it_was() {
    let mut mapper = test_mapper();
    let area_id = area_with_rooms(&mut mapper, &[(1, 0.0, 0.0)]);
    let mut stack = CommandStack::new();
    let command = edit_room_field(&mapper.atlas, key(area_id, 1), FieldId::Title, title_updates("a")).unwrap();
    mapper.push(&mut stack, command);
    mapper.broken = true;
    let command = edit_room_field(&mapper.atlas, key(area_id, 1), FieldId::Color, title_updates("b")).unwrap();
    assert!(mapper.push(&mut stack, command).is_empty());
    assert_eq!(stack.undo.len(), 1);
    assert_eq!(
        stack.take_last_error().as_deref(),
        Some("map gesture failed validation or durable enqueue: the disk is full")
    );
    assert!(stack.take_last_error().is_none());
    mapper.undo(&mut stack);
    assert_eq!((stack.undo.len(), stack.redo.len()), (1, 0));
    assert!(stack.take_last_error().is_some());
    mapper.broken = false;
    mapper.undo(&mut stack);
    assert_eq!((stack.undo.len(), stack.redo.len()), (0, 1));
    mapper.broken = true;
    mapper.redo(&mut stack);
    assert_eq!((stack.undo.len(), stack.redo.len()), (0, 1));
}

#[test]
fn the_history_keeps_its_depth() {
    let mut mapper = test_mapper();
    let area_id = area_with_rooms(&mut mapper, &[(1, 0.0, 0.0)]);
    let mut stack = CommandStack::new();
    for _ in 0..105 {
        let command =
            move_selection(&mapper.atlas, area_id, &select_rooms(&[1]), |p: Point| plus(p, 1.0, 0.0)).unwrap();
        mapper.push(&mut stack, command);
    }
    assert_eq!(stack.undo.len(), 100);
    assert_eq!(stack.last_command_id(), Some(104));
    for _ in 0..105 {
        mapper.undo(&mut stack);
    }
    assert_eq!(room_pos(&mapper, area_id, 1), (5.0, 0.0));
    stack.clear();
    assert!(stack.is_empty());
}

#[test]
fn many_rooms_are_staged_in_pieces() {
    let mut mapper = test_mapper();
    let rooms: Vec<(i32, f32, f32)> = (1..=130).map(|n| (n, 0.0, 0.0)).collect();
    let area_id = area_with_rooms(&mut mapper, &rooms);
    let numbers: Vec<i32> = (1..=130).collect();
    let mut stack = CommandStack::new();
    let updates = RoomUpdates {
        color: Some("#123".to_string()),
        ..RoomUpdates::default()
    };
    let command = bulk_edit_rooms(&mapper.atlas, area_id, &select_rooms(&numbers), &updates).unwrap();
    mapper.push(&mut stack, command);
    assert_eq!(mapper.sizes, [64, 64, 2]);
    assert!(mapper.area(area_id).rooms.iter().all(|room| room.color == "#123"));
    mapper.undo(&mut stack);
    assert!(mapper.area(area_id).rooms.iter().all(|room| room.color.is_empty()));
    assert!(bulk_edit_rooms(&mapper.atlas, area_id, &select_rooms(&[999]), &updates).is_none());
}

#[test]
fn follow_ups_are_counted_with_their_command() {
    let mut mapper = test_mapper();
    let area_id = area_with_rooms(&mut mapper, &[(1, 0.0, 0.0)]);
    let mut stack = CommandStack::new();
    let command = smudgy_ui::map_editor_window::creation::add_default_exit(area_id, RoomNumber(1));
    mapper.push(&mut stack, command);
    let id = stack.undo[0].id;
    let slot = created_slots(&stack.undo[0].redo)[0];
    let ResolvedId::Exit(exit_id) = resolved_id(&stack, id, slot) else {
        panic!("exit slot held the wrong entity kind");
    };
    stack.resolve(
        Outcome::Exit {
            command: id,
            slot,
            room_key: key(area_id, 1),
            follow_up: Some(ExitUpdates::default()),
            result: Ok(exit_id),
        },
        |_, asked, _| {
            assert_eq!(asked, exit_id);
            Ok(Some(OperationId(5)))
        },
    );
    assert!(stack.undo[0].operation_ids.contains(&OperationId(5)));
    stack.resolve(
        Outcome::Exit {
            command: id,
            slot,
            room_key: key(area_id, 1),
            follow_up: Some(ExitUpdates::default()),
            result: Ok(exit_id),
        },
        |_, _, _| Err("no".to_string()),
    );
    assert_eq!(
        stack.undo[0].application_error.as_deref(),
        Some("exit follow-up update failed validation or durable enqueue: no")
    );
}

// ===== Edits =====

#[test]
fn properties_and_tags_are_restored() {
    let mut mapper = test_mapper();
    let area_id = area_with_rooms(&mut mapper, &[(1, 0.0, 0.0)]);
    let room_key = key(area_id, 1);
    let mut stack = CommandStack::new();
    let set = |mapper: &mut Mapper, stack: &mut CommandStack, value: &str| {
        let command = set_room_property(&mapper.atlas, room_key, "zone".to_string(), value.to_string()).unwrap();
        mapper.push(stack, command);
    };
    set(&mut mapper, &mut stack, "a");
    set(&mut mapper, &mut stack, "b");
    assert_eq!(stack.undo.len(), 1);
    mapper.undo(&mut stack);
    assert!(mapper.room(area_id, 1).unwrap().properties.is_empty());
    assert!(delete_room_property(&mapper.atlas, room_key, "zone".to_string()).is_none());
    set(&mut mapper, &mut stack, "c");
    let command = delete_room_property(&mapper.atlas, room_key, "zone".to_string()).unwrap();
    mapper.push(&mut stack, command);
    mapper.undo(&mut stack);
    assert_eq!(mapper.room(area_id, 1).unwrap().properties[0].value, "c");

    assert!(add_room_tag(&mapper.atlas, room_key, String::new()).is_none());
    let command = add_room_tag(&mapper.atlas, room_key, "safe".to_string()).unwrap();
    mapper.push(&mut stack, command);
    assert!(add_room_tag(&mapper.atlas, room_key, "safe".to_string()).is_none());
    assert!(remove_room_tag(&mapper.atlas, room_key, "other".to_string()).is_none());
    let command = remove_room_tag(&mapper.atlas, room_key, "safe".to_string()).unwrap();
    mapper.push(&mut stack, command);
    assert!(mapper.room(area_id, 1).unwrap().tags.is_empty());
    mapper.undo(&mut stack);
    assert_eq!(mapper.room(area_id, 1).unwrap().tags, ["safe"]);
    mapper.undo(&mut stack);
    assert!(mapper.room(area_id, 1).unwrap().tags.is_empty());

    let command = set_area_property(&mapper.atlas, area_id, "n".to_string(), "v".to_string()).unwrap();
    mapper.push(&mut stack, command);
    let command = delete_area_property(&mapper.atlas, area_id, "n".to_string()).unwrap();
    mapper.push(&mut stack, command);
    assert!(mapper.area(area_id).properties.is_empty());
    mapper.undo(&mut stack);
    assert_eq!(mapper.area(area_id).properties[0].value, "v");
    mapper.undo(&mut stack);
    assert!(mapper.area(area_id).properties.is_empty());
}

#[test]
fn drawings_are_edited_and_restored() {
    let mut mapper = test_mapper();
    let area_id = area_with_rooms(&mut mapper, &[(1, 0.0, 0.0)]);
    let mut stack = CommandStack::new();
    let rect = Rect {
        x: scalar(1.0),
        y: scalar(2.0),
        width: scalar(3.0),
        height: scalar(4.0),
    };
    let command = create_label(area_id, rect, 0, "New label".to_string());
    mapper.push(&mut stack, command);
    let command = create_shape(area_id, rect, 0);
    mapper.push(&mut stack, command);
    let label_id = mapper.area(area_id).labels[0].id;
    let shape_id = mapper.area(area_id).shapes[0].id;
    let mut stack = CommandStack::new();
    let both = select(vec![
        EntityId::Label(label_id),
        EntityId::Shape(shape_id),
        EntityId::Room(RoomNumber(1)),
    ]);
    let command = shift_selection_level(&mapper.atlas, area_id, &both, 2).unwrap();
    mapper.push(&mut stack, command);
    assert_eq!(mapper.area(area_id).labels[0].level, 2);
    assert_eq!(mapper.area(area_id).shapes[0].level, 2);
    assert_eq!(mapper.area(area_id).rooms[0].level, 2);
    let wide = Rect {
        width: scalar(9.0),
        ..rect
    };
    for entity in [EntityId::Label(label_id), EntityId::Shape(shape_id)] {
        let command = resize_entity(&mapper.atlas, area_id, entity, wide).unwrap();
        mapper.push(&mut stack, command);
    }
    assert!(resize_entity(&mapper.atlas, area_id, EntityId::Room(RoomNumber(1)), wide).is_none());
    let command = edit_label_field(
        &mapper.atlas,
        area_id,
        label_id,
        FieldId::Text,
        LabelUpdates {
            text: Some("x".to_string()),
            ..LabelUpdates::default()
        },
    )
    .unwrap();
    mapper.push(&mut stack, command);
    let command = edit_shape_field(
        &mapper.atlas,
        area_id,
        shape_id,
        FieldId::StrokeWidth,
        ShapeUpdates {
            stroke_width: Some(scalar(7.0)),
            ..ShapeUpdates::default()
        },
    )
    .unwrap();
    mapper.push(&mut stack, command);
    assert_eq!(mapper.area(area_id).labels[0].text, "x");
    assert_eq!(number(mapper.area(area_id).shapes[0].width), 9.0);
    while stack.can_undo() {
        mapper.undo(&mut stack);
    }
    let label = &mapper.area(area_id).labels[0];
    assert_eq!((label.text.as_str(), label.level, number(label.width)), ("New label", 0, 3.0));
    let shape = &mapper.area(area_id).shapes[0];
    assert_eq!((shape.level, number(shape.width)), (0, 3.0));
    assert_ne!(number(shape.stroke_width), 7.0);
    assert_eq!(mapper.area(area_id).rooms[0].level, 0);
}

#[test]
fn new_rooms_are_removed_by_undo() {
    let mut mapper = test_mapper();
    let area_id = mapper.create_area();
    let mut stack = CommandStack::new();
    let command = create_room(area_id, RoomNumber(5), point(1.0, 2.0), 3);
    mapper.push(&mut stack, command);
    let room = mapper.room(area_id, 5).unwrap();
    assert_eq!((number(room.x), number(room.y), room.level), (1.0, 2.0, 3));
    mapper.undo(&mut stack);
    assert!(mapper.room(area_id, 5).is_none());
}

// ===== Deletion =====

#[test]
fn delete_and_undo_restores_room_properties_and_exits() {
    let mut mapper = test_mapper();
    let area_id = area_with_rooms(&mut mapper, &[(1, 0.0, 0.0), (2, 1.0, 0.0)]);
    let room_key = key(area_id, 1);

    mapper.write(
        area_id,
        AreaMutation::UpsertRoomProperty {
            room_number: RoomNumber(1),
            name: "zone".to_string(),
            value: "docks".to_string(),
            is_secret: None,
        },
    );
    let exit_id =
        mapper.create_exit(room_key, ExitDirection::East, Some((area_id, 2, ExitDirection::West)));

    let mut stack = CommandStack::new();
    let selection = select_rooms(&[1]);

    let command = delete_selection(&mapper.atlas, area_id, &selection).expect("command");
    mapper.push(&mut stack, command);
    assert!(mapper.room(area_id, 1).is_none(), "room deleted");

    mapper.undo(&mut stack);
    let undone = stack.redo.last().expect("undone command");
    let command_id = undone.id;
    let slots = created_slots(&undone.undo);
    let ResolvedId::Exit(new_exit_id) = resolved_id(&stack, command_id, slots[0]) else {
        panic!("exit slot held the wrong entity kind");
    };
    drive_create_completions(&mut stack, area_id, command_id, slots);
    assert_ne!(new_exit_id, exit_id, "recreated exit gets a fresh id");

    let room = mapper.room(area_id, 1).expect("room restored");
    assert_eq!(room.title, "Room 1");
    let zone = room.properties.iter().find(|entry| entry.name == "zone").map(|entry| entry.value.as_str());
    assert_eq!(zone, Some("docks"));
    assert_eq!(room.exits.len(), 1);
    assert_eq!(
        room.exits[0].to_room_number,
        Some(RoomNumber(2)),
        "exit destination restored"
    );
}

fn exit_destination(mapper: &Mapper, room_key: RoomKey, exit_id: ExitId) -> (Option<AreaId>, Option<RoomNumber>) {
    let room = mapper.room(room_key.area_id, room_key.room_number.0).expect("room");
    let exit = room.exits.iter().find(|exit| exit.id == exit_id).expect("exit");
    (exit.to_area_id, exit.to_room_number)
}

#[test]
fn clearing_exit_destination_sets_clear_to_and_undo_restores() {
    let mut mapper = test_mapper();
    let area_id = area_with_rooms(&mut mapper, &[(1, 0.0, 0.0), (2, 1.0, 0.0)]);
    let room_key = key(area_id, 1);
    let exit_id =
        mapper.create_exit(room_key, ExitDirection::East, Some((area_id, 2, ExitDirection::West)));

    let command = edit_exit_field(
        &mapper.atlas,
        room_key,
        exit_id,
        FieldId::Destination,
        |mut updates: ExitUpdates| {
            updates.to_area_id = None;
            updates.to_room_number = None;
            updates.to_direction = None;
            updates
        },
    )
    .expect("command");

    // The backend merges destination fields (omitted = unchanged), so a
    // clear that doesn't say clear_to would silently revert server-side.
    let Mutation::UpdateExit { updates, .. } = &command.redo[0] else {
        panic!("expected an exit update");
    };
    assert_eq!(updates.clear_to, Some(true), "clearing must be explicit");

    let mut stack = CommandStack::new();
    mapper.push(&mut stack, command);
    assert_eq!(
        exit_destination(&mapper, room_key, exit_id),
        (None, None),
        "destination cleared locally"
    );

    mapper.undo(&mut stack);
    assert_eq!(
        exit_destination(&mapper, room_key, exit_id),
        (Some(area_id), Some(RoomNumber(2))),
        "undo restores the destination"
    );
}

#[test]
fn deleting_a_room_clears_then_restores_inbound_exits() {
    let mut mapper = test_mapper();
    let area_id = area_with_rooms(&mut mapper, &[(1, 0.0, 0.0), (2, 1.0, 0.0)]);

    // Room 2 keeps an exit pointing at room 1.
    let host_key = key(area_id, 2);
    let inbound =
        mapper.create_exit(host_key, ExitDirection::West, Some((area_id, 1, ExitDirection::East)));

    let mut stack = CommandStack::new();
    let command = delete_selection(&mapper.atlas, area_id, &select_rooms(&[1])).expect("command");
    mapper.push(&mut stack, command);

    assert_eq!(
        exit_destination(&mapper, host_key, inbound),
        (None, None),
        "deleting room 1 clears the exit that pointed at it"
    );

    mapper.undo(&mut stack);
    assert_eq!(
        exit_destination(&mapper, host_key, inbound),
        (Some(area_id), Some(RoomNumber(1))),
        "undo re-links the inbound exit"
    );
}

#[test]
fn setting_destination_then_undo_clears_it_again() {
    let mut mapper = test_mapper();
    let area_id = area_with_rooms(&mut mapper, &[(1, 0.0, 0.0), (2, 1.0, 0.0)]);
    let room_key = key(area_id, 1);
    let exit_id = mapper.create_exit(room_key, ExitDirection::Special, None);

    let command = edit_exit_field(
        &mapper.atlas,
        room_key,
        exit_id,
        FieldId::Destination,
        |mut updates: ExitUpdates| {
            updates.to_area_id = Some(area_id);
            updates.to_room_number = Some(RoomNumber(2));
            updates
        },
    )
    .expect("command");

    // Under merge semantics the prior snapshot of an unconnected exit
    // must clear explicitly, and the redo (which establishes a
    // destination) must not carry clear_to (it overrides to_* on the
    // wire).
    let Mutation::UpdateExit { updates: redo, .. } = &command.redo[0] else {
        panic!("expected an exit update");
    };
    assert_eq!(redo.clear_to, None);
    let Mutation::UpdateExit { updates: prior, .. } = &command.undo[0] else {
        panic!("expected an exit update");
    };
    assert_eq!(prior.clear_to, Some(true));

    let mut stack = CommandStack::new();
    mapper.push(&mut stack, command);
    assert_eq!(
        exit_destination(&mapper, room_key, exit_id),
        (Some(area_id), Some(RoomNumber(2))),
        "destination set"
    );

    mapper.undo(&mut stack);
    assert_eq!(
        exit_destination(&mapper, room_key, exit_id),
        (None, None),
        "undo unlinks the exit again"
    );
}

#[test]
fn delete_and_undo_restores_secrecy_flags() {
    let mut mapper = test_mapper();
    let area_id = area_with_rooms(&mut mapper, &[(1, 0.0, 0.0), (2, 1.0, 0.0)]);
    let room_key = key(area_id, 1);
    mapper.create_exit(room_key, ExitDirection::East, Some((area_id, 2, ExitDirection::West)));
    let label_id = LabelId(mapper.fresh());
    let mut body = label_args();
    body.id = Some(label_id);
    body.text = "hideout".to_string();
    body.color = "#fff".to_string();
    body.width = scalar(2.0);
    body.height = scalar(1.0);
    body.font_size = 16;
    body.font_weight = 400;
    mapper.write(area_id, AreaMutation::CreateLabel { body });

    // Mark everything secret (an owned area is always cleared).
    let area = mapper.area_mut(area_id);
    area.rooms[0].is_secret = true;
    area.rooms[0].exits[0].is_secret = true;
    area.labels[0].is_secret = true;

    let selection = select(vec![EntityId::Room(RoomNumber(1)), EntityId::Label(label_id)]);
    let command = delete_selection(&mapper.atlas, area_id, &selection).expect("command");

    // The recreate bodies must carry the cached secrecy flags: omitted
    // is_secret defaults to false on insert, which would silently
    // republish the entities to non-secret grantees.
    for mutation in &command.undo {
        match mutation {
            Mutation::UpsertRooms(_, rooms) => {
                assert_eq!(rooms[0].1.is_secret, Some(true), "room keeps secrecy");
            }
            Mutation::CreateExit { args, .. } => {
                assert_eq!(args.is_secret, Some(true), "exit keeps secrecy");
            }
            Mutation::CreateLabel { args, .. } => {
                assert_eq!(args.is_secret, Some(true), "label keeps secrecy");
            }
            _ => panic!("unexpected undo mutation"),
        }
    }

    let mut stack = CommandStack::new();
    mapper.push(&mut stack, command);
    mapper.undo(&mut stack);

    let command_id = stack.redo.last().expect("undone").id;
    let slots = created_slots(&stack.redo.last().expect("undone").undo);
    drive_create_completions(&mut stack, area_id, command_id, slots);

    let room = mapper.room(area_id, 1).expect("room restored");
    assert!(room.is_secret, "room secrecy restored");
    assert!(room.exits[0].is_secret, "exit secrecy restored");
    assert!(mapper.area(area_id).labels[0].is_secret, "label secrecy restored");
}

#[test]
fn redo_deletes_what_undo_recreated() {
    let mut mapper = test_mapper();
    let area_id = area_with_rooms(&mut mapper, &[(1, 0.0, 0.0)]);
    let label_id = LabelId(mapper.fresh());
    let mut body = label_args();
    body.id = Some(label_id);
    mapper.write(area_id, AreaMutation::CreateLabel { body });
    let selection = select(vec![EntityId::Label(label_id)]);
    let command = delete_selection(&mapper.atlas, area_id, &selection).expect("command");
    let mut stack = CommandStack::new();
    let fresh = mapper.fresh_ids(command.redo.len());
    let outcomes = stack.push_and_apply(command, &fresh, LIMIT, |batches| mapper.stage(batches));
    assert!(outcomes.is_empty());
    assert!(mapper.area(area_id).labels.is_empty());

    mapper.undo(&mut stack);
    assert_eq!(mapper.area(area_id).labels.len(), 1);
    assert_ne!(mapper.area(area_id).labels[0].id, label_id, "recreated under a new identity");
    let command_id = stack.redo.last().expect("undone").id;
    let settled = |slot| Outcome::Label { command: command_id, slot, result: Ok(LabelId(1)) };
    assert!(stack.can_resolve(&settled(0)));
    assert!(!stack.can_resolve(&settled(5)), "no such slot");
    let failed = Outcome::Label { command: command_id, slot: 5, result: Err("offline".to_string()) };
    assert!(stack.can_resolve(&failed));
    let slots = created_slots(&stack.redo.last().expect("undone").undo);
    drive_create_completions(&mut stack, area_id, command_id, slots);

    mapper.redo(&mut stack);
    assert!(mapper.area(area_id).labels.is_empty());
}

/// Links two rooms both ways and returns the connection.
fn link_rooms(mapper: &mut Mapper, stack: &mut CommandStack, area_id: AreaId, from: i32, to: i32) -> ConnectionId {
    let ids = link_ids(mapper);
    let command = create_exit_with_options(
        area_id,
        link_ends(from, NewExitTarget::Room(RoomNumber(to))),
        NewLinkOptions::styled("#fff".to_string(), scalar(1.0)),
        ids,
    );
    mapper.push(stack, command);
    mapper
        .area(area_id)
        .connections
        .iter()
        .find(|connection| {
            connection.endpoint_a.room_number == RoomNumber(from)
                || connection.endpoint_b.is_some_and(|end| end.room_number == RoomNumber(from))
        })
        .expect("connection")
        .id
}

fn member_exits(mapper: &Mapper, area_id: AreaId, connection_id: ConnectionId) -> Vec<&ExitCache> {
    mapper
        .area(area_id)
        .rooms
        .iter()
        .flat_map(|room| room.exits.iter())
        .filter(|exit| exit.connection_id == connection_id)
        .collect()
}

fn has_connection(mapper: &Mapper, area_id: AreaId, connection_id: ConnectionId) -> bool {
    mapper.area(area_id).connections.iter().any(|connection| connection.id == connection_id)
}

#[test]
fn multi_delete_removes_selected_connection_and_undo_restores_it() {
    let mut mapper = test_mapper();
    let area_id = area_with_rooms(&mut mapper, &[(1, 0.0, 0.0), (2, 4.0, 0.0), (3, 8.0, 0.0)]);
    let mut stack = CommandStack::new();
    let connection_id = link_rooms(&mut mapper, &mut stack, area_id, 1, 2);

    // Room 3 plus the link: a mixed selection.
    let selection = select(vec![
        EntityId::Room(RoomNumber(3)),
        EntityId::Connection(connection_id),
    ]);
    let command = delete_selection(&mapper.atlas, area_id, &selection).expect("command");
    mapper.push(&mut stack, command);

    assert!(mapper.room(area_id, 3).is_none(), "room deleted");
    assert!(
        !has_connection(&mapper, area_id, connection_id),
        "explicitly selected link deleted"
    );
    assert!(
        mapper.room(area_id, 1).is_some_and(|room| room.exits.is_empty()),
        "member exits deleted with the link"
    );

    mapper.undo(&mut stack);
    assert!(mapper.room(area_id, 3).is_some(), "room restored");
    assert!(
        has_connection(&mapper, area_id, connection_id),
        "link restored with its identity"
    );
    assert_eq!(
        member_exits(&mapper, area_id, connection_id).len(),
        2,
        "both member exits restored exactly once"
    );
}

#[test]
fn deleting_a_link_with_one_of_its_rooms_restores_cleanly() {
    let mut mapper = test_mapper();
    let area_id = area_with_rooms(&mut mapper, &[(1, 0.0, 0.0), (2, 4.0, 0.0)]);
    let mut stack = CommandStack::new();
    let connection_id = link_rooms(&mut mapper, &mut stack, area_id, 1, 2);

    // One endpoint room plus the link: the surviving room's member exit
    // is restored by the link path, so the undo must NOT also carry an
    // inbound-exit relink for it.
    let selection = select(vec![
        EntityId::Room(RoomNumber(1)),
        EntityId::Connection(connection_id),
    ]);
    let command = delete_selection(&mapper.atlas, area_id, &selection).expect("command");
    assert!(
        !command.undo.iter().any(|mutation| matches!(mutation, Mutation::UpdateExit { .. })),
        "no doomed relink for a link-restored exit"
    );
    mapper.push(&mut stack, command);
    assert!(mapper.room(area_id, 1).is_none());
    assert!(!has_connection(&mapper, area_id, connection_id));
    assert!(
        mapper.room(area_id, 2).is_some_and(|room| room.exits.is_empty()),
        "surviving room's member exit deleted with the link"
    );

    mapper.undo(&mut stack);
    assert!(mapper.room(area_id, 1).is_some(), "room restored");
    assert!(has_connection(&mapper, area_id, connection_id), "link restored");
    let exits = member_exits(&mapper, area_id, connection_id);
    assert_eq!(exits.len(), 2, "both member exits restored exactly once");
    assert!(
        exits.iter().all(|exit| exit.to_room_number.is_some()),
        "restored exits keep their destinations"
    );
}

#[test]
fn links_and_exits_are_deleted_and_restored() {
    let mut mapper = test_mapper();
    let area_id = area_with_rooms(&mut mapper, &[(1, 0.0, 0.0), (2, 4.0, 0.0)]);
    let mut stack = CommandStack::new();
    let connection_id = link_rooms(&mut mapper, &mut stack, area_id, 1, 2);
    let command = delete_connection(&mapper.atlas, area_id, connection_id).unwrap();
    mapper.push(&mut stack, command);
    assert!(!has_connection(&mapper, area_id, connection_id));
    mapper.undo(&mut stack);
    assert_eq!(member_exits(&mapper, area_id, connection_id).len(), 2);
    let exit_id = mapper.room(area_id, 1).unwrap().exits[0].id;
    let command = delete_exit(&mapper.atlas, key(area_id, 1), exit_id).unwrap();
    mapper.push(&mut stack, command);
    assert!(mapper.room(area_id, 1).unwrap().exits.is_empty());
    mapper.undo(&mut stack);
    assert_eq!(mapper.room(area_id, 1).unwrap().exits.len(), 1);
    let exit_id = mapper.room(area_id, 2).unwrap().exits[0].id;
    let new_id = ConnectionId(mapper.fresh());
    let command = unlink_exit(area_id, exit_id, connection_id, new_id);
    mapper.push(&mut stack, command);
    assert_eq!(mapper.room(area_id, 2).unwrap().exits[0].connection_id, new_id);
    mapper.undo(&mut stack);
    assert_eq!(mapper.room(area_id, 2).unwrap().exits[0].connection_id, connection_id);
    assert!(delete_connection(&mapper.atlas, area_id, ConnectionId(1)).is_none());
}

// ===== The clipboard =====

fn snapshot(mapper: &Mapper, area_id: AreaId, selection: &Selection, rooms: bool, boundary: bool) -> EntityClipboard {
    snapshot_selection(
        &mapper.atlas,
        area_id,
        selection,
        rooms,
        boundary,
        |a: Point, b: Point| point(number(a.x).min(number(b.x)), number(a.y).min(number(b.y))),
        |a: Point, b: Point| point(number(a.x) - number(b.x), number(a.y) - number(b.y)),
    )
}

fn paste(mapper: &mut Mapper, target: AreaId, clipboard: &EntityClipboard, level: i32, dx: f32, dy: f32) -> Paste {
    let ids = PasteIds {
        room_exits: clipboard
            .rooms
            .iter()
            .map(|room| room.exits.iter().map(|_| ExitId(mapper.fresh())).collect())
            .collect(),
        connections: clipboard.connections.iter().map(|_| ConnectionId(mapper.fresh())).collect(),
        members: clipboard
            .connections
            .iter()
            .map(|connection| connection.members.iter().map(|_| ExitId(mapper.fresh())).collect())
            .collect(),
    };
    paste_clipboard(
        &mapper.atlas,
        target,
        clipboard,
        level,
        |p: Point| plus(p, dx, dy),
        |p: Point, origin: Point| plus(plus(p, number(origin.x), number(origin.y)), dx, dy),
        &ids,
        None,
        LIMIT,
    )
}

fn drive_paste_creates(stack: &mut CommandStack, area_id: AreaId) {
    let command_id = stack.undo.last().expect("pushed").id;
    let slots = created_slots(&stack.undo.last().expect("pushed").redo);
    drive_create_completions(stack, area_id, command_id, slots);
}

#[test]
fn connection_only_paste_attaches_to_same_numbered_rooms_once() {
    let mut mapper = test_mapper();
    let source = area_with_rooms(&mut mapper, &[(1, 0.0, 0.0), (2, 4.0, 0.0)]);
    let mut stack = CommandStack::new();
    let connection_id = link_rooms(&mut mapper, &mut stack, source, 1, 2);

    let selection = select(vec![EntityId::Connection(connection_id)]);
    let clipboard = snapshot(&mapper, source, &selection, true, false);
    assert!(clipboard.rooms.is_empty());
    assert_eq!(
        clipboard.connections.len(),
        1,
        "an explicitly selected link snapshots without its rooms"
    );

    let target = area_with_rooms(&mut mapper, &[(1, 100.0, 0.0), (2, 104.0, 0.0)]);
    let pasted = paste(&mut mapper, target, &clipboard, 0, 0.0, 0.0);
    assert!(pasted.rooms.is_empty());
    assert_eq!(pasted.skipped, 0);
    mapper.push(&mut stack, pasted.command.expect("command"));
    assert_eq!(mapper.area(target).connections.len(), 1, "link attached");
    let exits: usize = mapper.area(target).rooms.iter().map(|room| room.exits.len()).sum();
    assert_eq!(exits, 2, "both traversals attached");

    // Pasting again would collide with the directions just created:
    // the link skips (with a count) instead of duplicating exits.
    let again = paste(&mut mapper, target, &clipboard, 0, 0.0, 0.0);
    assert!(again.command.is_none(), "nothing pastes");
    assert_eq!(again.skipped, 1);
}

#[test]
fn paste_creates_offset_copies_and_undo_removes_them() {
    let mut mapper = test_mapper();
    let area_id = mapper.create_area();

    let mut clipboard = EntityClipboard::new();
    clipboard.source_area_id = Some(area_id);
    let mut label = label_args();
    label.x = scalar(1.0);
    label.y = scalar(2.0);
    label.width = scalar(3.0);
    label.height = scalar(1.0);
    label.text = "dock".to_string();
    label.color = "#fff".to_string();
    label.font_size = 16;
    label.font_weight = 400;
    clipboard.labels.push(label);
    clipboard.shapes.push(ShapeArgs {
        id: None,
        is_secret: None,
        level: 0,
        x: scalar(5.0),
        y: scalar(5.0),
        width: scalar(2.0),
        height: scalar(2.0),
        background_color: Some("#333".to_string()),
        stroke_color: None,
        shape_type: ShapeType::Standard,
        border_radius: scalar(0.0),
        stroke_width: None,
    });

    let mut stack = CommandStack::new();
    let pasted = paste(&mut mapper, area_id, &clipboard, 3, 1.0, 1.0);
    let command = pasted.command.expect("command");
    assert!(pasted.rooms.is_empty());
    let operation_ids = mapper.push(&mut stack, command);
    assert_eq!(
        operation_ids.len(),
        2,
        "both creates are represented in durable undo history"
    );

    assert!(!stack.can_undo(), "pending creates block undo");
    drive_paste_creates(&mut stack, area_id);

    {
        let area = mapper.area(area_id);
        let label = &area.labels[0];
        assert_eq!((number(label.x), number(label.y)), (2.0, 3.0), "label pasted at offset");
        assert_eq!(label.level, 3, "label pasted onto the current level");
        assert_eq!(label.text, "dock", "styling survives the round trip");
        let shape = &area.shapes[0];
        assert_eq!((number(shape.x), number(shape.y)), (6.0, 6.0), "shape pasted at offset");
    }

    assert!(stack.can_undo(), "resolution unblocks undo");
    mapper.undo(&mut stack);
    assert!(mapper.area(area_id).labels.is_empty(), "undo removes pasted label");
    assert!(mapper.area(area_id).shapes.is_empty(), "undo removes pasted shape");
}

#[test]
fn transparent_styling_survives_create_snapshot_and_paste() {
    let mut mapper = test_mapper();
    let area_id = mapper.create_area();

    // The drag-rect builder must request transparency explicitly: what is left
    // out turns white.
    let command = create_label(
        area_id,
        Rect {
            x: scalar(0.0),
            y: scalar(0.0),
            width: scalar(4.0),
            height: scalar(1.0),
        },
        0,
        "New label".to_string(),
    );
    let mut stack = CommandStack::new();
    assert!(matches!(&command.redo[0], Mutation::CreateLabel { .. }));
    mapper.push(&mut stack, command);
    let label_id = mapper.area(area_id).labels[0].id;
    assert_eq!(
        mapper.area(area_id).labels[0].background_color,
        "",
        "new labels default to a transparent background"
    );

    // Snapshot keeps transparency explicit so paste re-creates it.
    let selection = select(vec![EntityId::Label(label_id)]);
    let clipboard = snapshot(&mapper, area_id, &selection, false, false);
    assert_eq!(
        clipboard.labels[0].background_color.as_deref(),
        Some(""),
        "snapshot must not erase the transparent background"
    );

    let pasted = paste(&mut mapper, area_id, &clipboard, 0, 1.0, 1.0);
    let command = pasted.command.expect("paste command");
    assert!(matches!(&command.redo[0], Mutation::CreateLabel { .. }));
    mapper.push(&mut stack, command);
    assert_eq!(
        mapper.area(area_id).labels[1].background_color,
        "",
        "pasted labels keep their transparent background"
    );
}

fn rooms(numbers: &[i32]) -> Vec<RoomNumber> {
    numbers.iter().map(|n| RoomNumber(*n)).collect()
}

#[test]
fn cross_area_remap_keeps_vacant_numbers_and_reallocates_collisions() {
    let occupied = rooms(&[2]);
    let mapping = remap_room_numbers(&rooms(&[3, 2, 10]), &occupied, RoomNumber(3), true);

    assert_eq!(mapped_number(&mapping, RoomNumber(3)), Some(RoomNumber(3)), "vacant number kept");
    assert_eq!(
        mapped_number(&mapping, RoomNumber(2)),
        Some(RoomNumber(4)),
        "occupied number reallocates, skipping the kept 3"
    );
    assert_eq!(mapped_number(&mapping, RoomNumber(10)), Some(RoomNumber(10)), "vacant number kept");
}

#[test]
fn cross_area_remap_allocations_skip_numbers_claimed_by_the_paste() {
    let occupied = rooms(&[1]);
    let mapping = remap_room_numbers(&rooms(&[2, 1]), &occupied, RoomNumber(2), true);

    assert_eq!(mapped_number(&mapping, RoomNumber(2)), Some(RoomNumber(2)));
    assert_eq!(
        mapped_number(&mapping, RoomNumber(1)),
        Some(RoomNumber(3)),
        "allocation skips the number the paste already claimed"
    );
}

#[test]
fn same_area_remap_always_allocates_fresh_numbers() {
    let occupied = rooms(&[1, 2]);
    let mapping = remap_room_numbers(&rooms(&[1, 2]), &occupied, RoomNumber(3), false);

    assert_eq!(mapped_number(&mapping, RoomNumber(1)), Some(RoomNumber(3)));
    assert_eq!(mapped_number(&mapping, RoomNumber(2)), Some(RoomNumber(4)));
    for (_, target) in &mapping {
        assert!(!occupied.contains(target), "paste never overwrites a room");
    }
}

fn exit_clip(to_area_id: Option<AreaId>, to_room_number: Option<RoomNumber>, to_unknown: bool) -> ExitClip {
    ExitClip {
        from_direction: ExitDirection::North,
        to_area_id,
        to_room_number,
        to_direction: Some(ExitDirection::South),
        path: None,
        is_hidden: false,
        is_closed: false,
        is_locked: false,
        weight: scalar(1.0),
        command: None,
        is_secret: false,
        to_unknown,
    }
}

#[test]
fn pasted_exits_classify_per_destination() {
    let source = AreaId(1);
    let third = AreaId(2);
    let missing = AreaId(3);
    let mapping = vec![(RoomNumber(1), RoomNumber(7))];
    let in_cache = |id: AreaId| id == source || id == third;

    // (a) intra-selection: remapped through the mapping...
    assert_eq!(
        classify_pasted_exit(
            &exit_clip(Some(source), Some(RoomNumber(1)), false),
            source,
            &mapping,
            in_cache,
        ),
        PastedExitDestination::Remapped(RoomNumber(7)),
    );
    // ...including a bare room number meaning "same area".
    assert_eq!(
        classify_pasted_exit(
            &exit_clip(None, Some(RoomNumber(1)), false),
            source,
            &mapping,
            in_cache,
        ),
        PastedExitDestination::Remapped(RoomNumber(7)),
    );
    // (b) a cached third area stays a live link, untouched.
    assert_eq!(
        classify_pasted_exit(
            &exit_clip(Some(third), Some(RoomNumber(9)), false),
            source,
            &mapping,
            in_cache,
        ),
        PastedExitDestination::Live(third, RoomNumber(9)),
    );
    // (c) a non-selected room in the source area pastes dangling.
    assert_eq!(
        classify_pasted_exit(
            &exit_clip(Some(source), Some(RoomNumber(2)), false),
            source,
            &mapping,
            in_cache,
        ),
        PastedExitDestination::Dangling,
    );
    // (c) a redacted destination pastes dangling even when its room
    // number would remap.
    assert_eq!(
        classify_pasted_exit(
            &exit_clip(Some(source), Some(RoomNumber(1)), true),
            source,
            &mapping,
            in_cache,
        ),
        PastedExitDestination::Dangling,
    );
    // (c) a destination area absent from the cache pastes dangling.
    assert_eq!(
        classify_pasted_exit(
            &exit_clip(Some(missing), Some(RoomNumber(9)), false),
            source,
            &mapping,
            in_cache,
        ),
        PastedExitDestination::Dangling,
    );
    // (c) unconnected exits stay unconnected.
    assert_eq!(
        classify_pasted_exit(&exit_clip(None, None, false), source, &mapping, in_cache),
        PastedExitDestination::Dangling,
    );
}

#[test]
fn cross_area_paste_preserves_vacant_numbers_and_remaps_exits() {
    let mut mapper = test_mapper();
    let source = area_with_rooms(&mut mapper, &[(1, 0.0, 0.0), (2, 3.0, 0.0), (3, 6.0, 0.0)]);
    // Room 2 is taken in the target; room 1 is vacant there.
    let target = area_with_rooms(&mut mapper, &[(2, 50.0, 50.0)]);

    mapper.write(
        source,
        AreaMutation::UpsertRoomProperty {
            room_number: RoomNumber(1),
            name: "zone".to_string(),
            value: "docks".to_string(),
            is_secret: None,
        },
    );
    // 1 → 2: both ends copied. 1 → 3 is a boundary link and is omitted.
    for (direction, to) in [(ExitDirection::East, 2), (ExitDirection::North, 3)] {
        mapper.create_exit(key(source, 1), direction, Some((source, to, ExitDirection::West)));
    }
    let contained_connection_id = mapper
        .room(source, 1)
        .expect("room 1")
        .exits
        .iter()
        .find(|exit| exit.from_direction == ExitDirection::East)
        .expect("contained exit")
        .connection_id;
    mapper.write(
        source,
        AreaMutation::UpdateConnection {
            connection_id: contained_connection_id,
            body: ConnectionUpdates {
                routing: Some(ConnectionRouting::Manual),
                segment_shape: Some(SegmentShape::Direct),
                route_points: Some(vec![point(1.5, 1.0)]),
                ..ConnectionUpdates::default()
            },
        },
    );

    let clipboard = snapshot(&mapper, source, &select_rooms(&[1, 2]), true, false);
    assert_eq!(clipboard.source_area_id, Some(source));
    assert_eq!(clipboard.rooms.len(), 2);
    assert_eq!(clipboard.connections.len(), 1);
    assert_eq!(
        clipboard.connections[0].body.route_points,
        vec![point(1.5, 1.0)],
        "route geometry is stored relative to the selected-room origin"
    );
    assert_eq!(
        boundary_link_count(&mapper.atlas, source, &select_rooms(&[1, 2])),
        1
    );
    let with_boundary = snapshot(&mapper, source, &select_rooms(&[1, 2]), true, true);
    assert_eq!(with_boundary.connections.len(), 2);
    let dangling = with_boundary
        .connections
        .iter()
        .find(|clip| clip.members[0].1.from_direction == ExitDirection::North)
        .expect("included boundary link");
    assert!(dangling.body.endpoint_b.is_none());
    assert!(dangling.body.route_points.is_empty());
    assert_eq!(dangling.members[0].1.to_area_id, None);
    assert_eq!(dangling.members[0].1.to_room_number, None);

    let pasted = paste(&mut mapper, target, &clipboard, 0, 0.0, 0.0);
    let command = pasted.command.expect("command");
    // Room 1 keeps its number (vacant in the target); room 2 collides
    // with the target's own room 2 and reallocates.
    assert_eq!(pasted.rooms, rooms(&[1, 3]));

    let mut stack = CommandStack::new();
    mapper.push(&mut stack, command);
    drive_paste_creates(&mut stack, target);

    {
        let room = mapper.room(target, 1).expect("pasted room 1");
        assert_eq!(room.title, "Room 1");
        assert_eq!(
            (number(room.x), number(room.y)),
            (0.0, 0.0),
            "cross-area paste keeps exact positions"
        );
        let zone = room.properties.iter().find(|entry| entry.name == "zone").map(|entry| entry.value.as_str());
        assert_eq!(zone, Some("docks"), "properties recreated on the copy");

        let exits = &room.exits;
        assert_eq!(exits.len(), 1);
        let to_copied = exits
            .iter()
            .find(|exit| exit.from_direction == ExitDirection::East)
            .expect("east exit");
        assert_eq!(
            (to_copied.to_area_id, to_copied.to_room_number),
            (Some(target), Some(RoomNumber(3))),
            "intra-selection exit remapped to the pasted copy"
        );
        assert!(
            exits.iter().all(|exit| exit.from_direction != ExitDirection::North),
            "boundary exits are omitted unless the user explicitly includes them"
        );

        assert_eq!(
            room_pos(&mapper, target, 2),
            (50.0, 50.0),
            "the target's own room is untouched"
        );
        let pasted_connection = mapper
            .area(target)
            .connections
            .iter()
            .find(|connection| connection.id != contained_connection_id)
            .expect("pasted connection");
        assert_eq!(
            pasted_connection.route_points,
            vec![point(1.5, 1.0)],
            "cross-area paste restores absolute route geometry"
        );
    }

    // One undo removes the entire paste; pre-existing rooms survive.
    assert!(stack.can_undo());
    mapper.undo(&mut stack);
    assert!(mapper.room(target, 1).is_none());
    assert!(mapper.room(target, 3).is_none());
    assert!(mapper.room(target, 2).is_some());
}

#[test]
fn same_area_paste_allocates_fresh_numbers_and_links_inside_the_copy() {
    let mut mapper = test_mapper();
    let area_id = area_with_rooms(&mut mapper, &[(1, 0.0, 0.0), (2, 1.0, 0.0)]);
    mapper.create_exit(key(area_id, 1), ExitDirection::East, Some((area_id, 2, ExitDirection::West)));

    let clipboard = snapshot(&mapper, area_id, &select_rooms(&[1, 2]), true, false);
    let pasted = paste(&mut mapper, area_id, &clipboard, 0, 1.0, 1.0);
    let command = pasted.command.expect("command");
    assert_eq!(
        pasted.rooms,
        rooms(&[3, 4]),
        "same-area paste never reuses source numbers"
    );

    let mut stack = CommandStack::new();
    mapper.push(&mut stack, command);
    drive_paste_creates(&mut stack, area_id);

    assert_eq!(
        room_pos(&mapper, area_id, 3),
        (1.0, 1.0),
        "the cascading offset applies to rooms"
    );
    let exit = &mapper.room(area_id, 3).expect("copy of room 1").exits[0];
    assert_eq!(
        (exit.to_area_id, exit.to_room_number),
        (Some(area_id), Some(RoomNumber(4))),
        "the copied link points inside the copy"
    );
    assert_eq!(
        mapper.room(area_id, 1).expect("original").exits[0].to_room_number,
        Some(RoomNumber(2)),
        "the original link is untouched"
    );
}

/// An exit without its identity and its connection.
fn passage(exit: &ExitCache) -> String {
    format!(
        "{:?} {:?} {:?} {:?} {:?} {:?} {} {} {} {:?} {}",
        exit.from_direction,
        exit.to_area_id,
        exit.to_room_number,
        exit.to_direction,
        exit.path,
        exit.command,
        exit.is_hidden,
        exit.is_closed,
        exit.is_locked,
        exit.weight,
        exit.is_secret,
    )
}

/// Every exit with its room and every connection, in order.
fn wires(mapper: &Mapper) -> Vec<String> {
    let mut lines = Vec::new();
    for area in &mapper.atlas.areas {
        for room in &area.rooms {
            for exit in &room.exits {
                lines.push(format!(
                    "{:?} {:?} {:?} {:?} {}",
                    area.id,
                    room.room_number,
                    exit.id,
                    exit.connection_id,
                    passage(exit)
                ));
            }
        }
        for connection in &area.connections {
            lines.push(format!(
                "{:?} {:?} {:?} {:?} {:?} {:?} {:?} {:?} {:?} {} {:?}",
                area.id,
                connection.id,
                connection.endpoint_a,
                connection.endpoint_b,
                connection.routing,
                connection.segment_shape,
                connection.corner,
                connection.route_points,
                connection.dash,
                connection.color,
                connection.thickness
            ));
        }
    }
    lines.sort();
    lines
}

#[test]
fn undoing_a_deletion_gives_exits_back() {
    let mut mapper = test_mapper();
    let other = area_with_rooms(&mut mapper, &[(1, 0.0, 0.0)]);
    let area_id = area_with_rooms(&mut mapper, &[(1, 0.0, 0.0), (2, 4.0, 0.0), (3, 8.0, 0.0)]);
    let mut stack = CommandStack::new();
    let link = link_rooms(&mut mapper, &mut stack, area_id, 2, 3);
    let away = mapper.create_exit(key(other, 1), ExitDirection::North, Some((area_id, 1, ExitDirection::South)));
    let near = mapper.create_exit(key(area_id, 3), ExitDirection::North, Some((area_id, 1, ExitDirection::South)));
    let own = mapper.create_exit(key(area_id, 1), ExitDirection::West, Some((area_id, 3, ExitDirection::East)));
    let before = wires(&mapper);
    let lost = passage(&mapper.room(area_id, 1).unwrap().exits[0]);
    let members: Vec<ExitId> = member_exits(&mapper, area_id, link).iter().map(|exit| exit.id).collect();

    let selection = select(vec![EntityId::Room(RoomNumber(1)), EntityId::Connection(link)]);
    let command = delete_selection(&mapper.atlas, area_id, &selection).unwrap();
    let command_id = push_for_id(&mut mapper, &mut stack, command);
    assert_eq!(exit_destination(&mapper, key(other, 1), away), (None, None));
    assert_eq!(exit_destination(&mapper, key(area_id, 3), near), (None, None));
    assert!(!has_connection(&mapper, area_id, link));

    mapper.undo(&mut stack);
    let back = match resolved_id(&stack, command_id, 0) {
        ResolvedId::Exit(id) => id,
        _ => panic!("the slot holds an exit"),
    };
    assert_ne!(back, own);
    let room = mapper.room(area_id, 1).unwrap();
    assert_eq!(room.exits.len(), 1);
    assert_eq!(room.exits[0].id, back);
    assert_eq!(passage(&room.exits[0]), lost);
    let again: Vec<ExitId> = member_exits(&mapper, area_id, link).iter().map(|exit| exit.id).collect();
    assert_eq!(members, again);
    // All that is new is the exit under its new identity and its connection.
    let after = wires(&mapper);
    assert_eq!(before.len(), after.len());
    assert_eq!(before.iter().filter(|line| !after.contains(line)).count(), 2);
}

fn push_for_id(mapper: &mut Mapper, stack: &mut CommandStack, command: Command) -> CommandId {
    mapper.push(stack, command);
    stack.last_command_id().expect("pushed")
}

#[test]
fn undoing_link_commands_leaves_the_wires_as_they_were() {
    let mut mapper = test_mapper();
    let area_id = area_with_rooms(&mut mapper, &[(1, 0.0, 0.0), (2, 4.0, 0.0)]);
    let mut stack = CommandStack::new();
    let one_way = |mapper: &mut Mapper, stack: &mut CommandStack, from: i32, to: i32| {
        let ids = link_ids(mapper);
        let connection_id = ids.connection_id;
        let mut options = NewLinkOptions::styled("#fff".to_string(), scalar(2.0));
        options.one_way = true;
        let command =
            create_exit_with_options(area_id, link_ends(from, NewExitTarget::Room(RoomNumber(to))), options, ids);
        mapper.push(stack, command);
        connection_id
    };
    let keep = one_way(&mut mapper, &mut stack, 1, 2);
    let before = wires(&mapper);

    // A link to a room of its own, both ways.
    let ids = link_ids(&mut mapper);
    let to = NewExitTarget::NewRoom { room_number: RoomNumber(9), at: point(8.0, 0.0), level: 0 };
    let options = NewLinkOptions::styled("#fff".to_string(), scalar(1.0));
    let command = create_exit_with_options(area_id, link_ends(2, to), options, ids);
    mapper.push(&mut stack, command);
    assert_eq!(wires(&mapper).len(), before.len() + 3);
    mapper.undo(&mut stack);
    assert_eq!(wires(&mapper), before);

    // The way back on the same link.
    let id = ExitId(mapper.fresh());
    let command = add_return_exit(&mapper.atlas, area_id, keep, id, |_: ExitDirection| ExitDirection::West).unwrap();
    mapper.push(&mut stack, command);
    assert_eq!(member_exits(&mapper, area_id, keep).len(), 2);
    mapper.undo(&mut stack);
    assert_eq!(wires(&mapper), before);

    // A second link, paired with the first.
    let merge = one_way(&mut mapper, &mut stack, 2, 1);
    let before = wires(&mapper);
    let command = pair_connections(&mapper.atlas, area_id, keep, merge).unwrap();
    mapper.push(&mut stack, command);
    assert_eq!(member_exits(&mapper, area_id, keep).len(), 2);
    assert!(!has_connection(&mapper, area_id, merge));
    mapper.undo(&mut stack);
    assert_eq!(wires(&mapper), before);

    // One exit moved to a link of its own.
    let exit_id = member_exits(&mapper, area_id, keep)[0].id;
    let new_id = ConnectionId(mapper.fresh());
    mapper.push(&mut stack, unlink_exit(area_id, exit_id, keep, new_id));
    assert_ne!(wires(&mapper), before);
    mapper.undo(&mut stack);
    assert_eq!(wires(&mapper), before);

    // A link deleted.
    let command = delete_connection(&mapper.atlas, area_id, merge).unwrap();
    mapper.push(&mut stack, command);
    mapper.undo(&mut stack);
    assert_eq!(wires(&mapper), before);
}

#[test]
fn undoing_a_paste_leaves_the_wires_as_they_were() {
    let mut mapper = test_mapper();
    let area_id = area_with_rooms(&mut mapper, &[(1, 0.0, 0.0), (2, 4.0, 0.0)]);
    let mut stack = CommandStack::new();
    link_rooms(&mut mapper, &mut stack, area_id, 1, 2);
    let before = wires(&mapper);
    let clipboard = snapshot(&mapper, area_id, &select_rooms(&[1, 2]), true, true);
    let pasted = paste(&mut mapper, area_id, &clipboard, 0, 1.0, 1.0);
    mapper.push(&mut stack, pasted.command.unwrap());
    assert!(wires(&mapper).len() > before.len());
    mapper.undo(&mut stack);
    assert_eq!(wires(&mapper), before);
}

#[test]
fn a_paste_needs_numbers_for_its_rooms() {
    let mut mapper = test_mapper();
    let area_id = area_with_rooms(&mut mapper, &[(1, 0.0, 0.0), (2, 4.0, 0.0)]);
    let clipboard = snapshot(&mapper, area_id, &select_rooms(&[1, 2]), true, false);
    let next = |number: i32| Some(RoomNumber(number));
    assert!(paste_has_room_numbers(&mapper.atlas, area_id, &clipboard, None));
    assert!(paste_has_room_numbers(&mapper.atlas, area_id, &clipboard, next(i32::MAX - 1)));
    assert!(!paste_has_room_numbers(&mapper.atlas, area_id, &clipboard, next(i32::MAX)));
    // Elsewhere the rooms keep their numbers, whatever the next one is.
    let elsewhere = mapper.create_area();
    assert!(paste_has_room_numbers(&mapper.atlas, elsewhere, &clipboard, next(i32::MAX)));
    assert!(paste_has_room_numbers(&mapper.atlas, AreaId(1), &clipboard, next(i32::MAX)));
}

// ===== Connections =====

/// How far along a wall the first of two ports stands.
const CORNER_INSET: f32 = 1.0 / 3.0;

/// How far along a wall port `index` of `count` stands.
fn spread(index: usize, count: usize) -> Scalar {
    scalar((index + 1) as f32 / (count + 1) as f32)
}

#[test]
fn port_redistribution_is_previewed_as_one_undoable_batch() {
    let mut mapper = test_mapper();
    let area_id = area_with_rooms(&mut mapper, &[(1, 0.0, 0.0), (2, -3.0, -3.0), (3, 3.0, -3.0)]);
    for to in [2, 3] {
        mapper.create_exit(key(area_id, 1), ExitDirection::North, Some((area_id, to, ExitDirection::South)));
    }
    let edits = redistribute_port_updates(
        mapper.area(area_id),
        RoomNumber(1),
        RoomSide::North,
        false,
        &|direction: ExitDirection| format!("{direction:?}"),
        &|bearing: Bearing| match bearing {
            Bearing::Between { from, to } => ((number(to) - number(from)) * 1000.0) as i64,
            _ => 0,
        },
        &|index: usize, count: usize| spread(index, count),
        &|a: Scalar, b: Scalar| (number(a) - number(b)).abs() < 1.0e-6,
        &|at: Point, _: RoomSide, _: Scalar| at,
        &|a: Point, b: Point| number(a.x).hypot(number(a.y)) < number(b.x).hypot(number(b.y)),
        &|a: Point, b: Point| a != b,
    );
    assert_eq!(edits.len(), 2);
    let mut offsets = edits
        .iter()
        .filter_map(|(_, update)| update.endpoint_a.map(|endpoint| number(endpoint.port_offset)))
        .collect::<Vec<_>>();
    offsets.sort_by(f32::total_cmp);
    assert!((offsets[0] - CORNER_INSET).abs() < 1.0e-6);
    assert!((offsets[1] - (1.0 - CORNER_INSET)).abs() < 1.0e-6);

    let command = edit_connections(&mapper.atlas, area_id, edits, "Redistribute ports".to_string())
        .expect("one compound command");
    assert!(matches!(
        &command.redo[..],
        [Mutation::AreaBatch { operations, .. }] if operations.len() == 2
    ));
    assert!(matches!(
        &command.undo[..],
        [Mutation::AreaBatch { operations, .. }] if operations.len() == 2
    ));
}

#[test]
fn moves_of_the_two_ends_are_two_steps() {
    let mut mapper = test_mapper();
    let area_id = area_with_rooms(&mut mapper, &[(1, 0.0, 0.0), (2, 4.0, 0.0)]);
    let mut stack = CommandStack::new();
    let link = link_rooms(&mut mapper, &mut stack, area_id, 1, 2);
    stack.clear();
    let moves = [(false, RoomSide::North), (true, RoomSide::South), (true, RoomSide::North)];
    for (endpoint_b, side) in moves {
        let mut updates = ConnectionUpdates::default();
        if endpoint_b {
            updates.endpoint_b = Some(endpoint(RoomNumber(2), side));
        } else {
            updates.endpoint_a = Some(endpoint(RoomNumber(1), side));
        }
        let command = edit_connection(
            &mapper.atlas,
            area_id,
            link,
            FieldId::Endpoint,
            updates,
            "Move connection port".to_string(),
        );
        mapper.push(&mut stack, command.expect("command"));
    }
    assert_eq!(stack.undo.len(), 2, "the last move is merged into the one before it");
}

#[test]
fn accepted_automatic_route_is_one_atomic_update() {
    let mut mapper = test_mapper();
    let area_id = area_with_rooms(&mut mapper, &[(1, 0.0, 0.0), (2, 4.0, 0.0)]);
    mapper.create_exit(key(area_id, 1), ExitDirection::East, Some((area_id, 2, ExitDirection::West)));
    let connection_id = mapper.area(area_id).connections[0].id;
    let points = vec![point(2.0, 0.0)];
    let command =
        accept_automatic_route(&mapper.atlas, area_id, connection_id, points.clone()).expect("route command");

    assert!(matches!(
        &command.redo[..],
        [Mutation::AreaBatch { operations, .. }]
            if matches!(
                &operations[..],
                [AreaMutation::UpdateConnection { connection_id: id, body }]
                    if *id == connection_id
                        && body.routing == Some(ConnectionRouting::Automatic)
                        && body.segment_shape == Some(SegmentShape::Orthogonal)
                        && body.route_points.as_ref() == Some(&points)
            )
    ));
    assert!(matches!(
        &command.undo[..],
        [Mutation::AreaBatch { operations, .. }] if operations.len() == 1
    ));
}
