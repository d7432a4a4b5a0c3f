use smudgy_ui::map_editor_window::cache::Selection;
use smudgy_ui::map_editor_window::compile::Outcome;
use smudgy_ui::map_editor_window::edits::Rect;
use smudgy_ui::map_editor_window::hotkeys::{
    editor_hotkeys, handle_hotkey, Hotkey, Key, Modifiers, Overlays, Step,
};
use smudgy_ui::map_editor_window::model::{
    Alignment, AreaAccess, AreaCache, AreaId, AtlasCache, EntityId, ExitId, LabelCache, LabelId, Point, RoomCache,
    RoomNumber, Scalar, ShapeId,
};
use smudgy_ui::map_editor_window::navigation::{
    activate_copy, created_entity, enter_area, jump_to_secret, may_take_tool, secret_marks_request_for, select_area,
    tick, SecretEntity, SecretEntityKind, TickInput, TickPlan, TickState,
};
use smudgy_ui::map_editor_window::window::{
    allow_room_copy, area_owned, can_copy_active_area, can_edit_active_area, can_share_active_area, copy_selection,
    cut_selection, finish_paste, gate_command, handle_mutation_request, refresh_seen_rev, request_deletion,
    request_move, secrets_cleared, start_paste, title, Edit, EditorChange, EditorState, MutationRequest, Tool,
};

fn scalar(value: f32) -> Scalar {
    Scalar(value.to_bits())
}

fn point(x: f32, y: f32) -> Point {
    Point { x: scalar(x), y: scalar(y) }
}

fn room(number: i32, level: i32) -> RoomCache {
    RoomCache {
        room_number: RoomNumber(number),
        title: String::new(),
        description: String::new(),
        color: String::new(),
        level,
        x: scalar(number as f32),
        y: scalar(0.0),
        is_secret: false,
        external_id: None,
        properties: Vec::new(),
        tags: Vec::new(),
        exits: Vec::new(),
    }
}

fn label(id: u128, level: i32) -> LabelCache {
    LabelCache {
        id: LabelId(id),
        level,
        x: scalar(0.0),
        y: scalar(0.0),
        width: scalar(4.0),
        height: scalar(1.0),
        horizontal_alignment: Alignment::Standard,
        vertical_alignment: Alignment::Standard,
        text: "Shop".to_string(),
        color: String::new(),
        background_color: String::new(),
        font_size: 12,
        font_weight: 400,
        is_secret: false,
    }
}

const OWN: AreaAccess = AreaAccess {
    is_owned: true,
    can_edit: true,
    can_copy: false,
    can_share: false,
    is_cleared_for_secrets: true,
};

const VIEW_ONLY: AreaAccess = AreaAccess {
    is_owned: false,
    can_edit: false,
    can_copy: false,
    can_share: false,
    is_cleared_for_secrets: false,
};

fn atlas(access: AreaAccess) -> AtlasCache {
    AtlasCache {
        areas: vec![AreaCache {
            id: AreaId(1),
            name: "Harbour".to_string(),
            rev: 3,
            access,
            rooms: vec![room(1, 0), room(2, 5)],
            connections: Vec::new(),
            room_connections: Vec::new(),
            labels: vec![label(40, 2)],
            shapes: Vec::new(),
            properties: Vec::new(),
            next_room_number: RoomNumber(3),
        }],
    }
}

fn state(entities: Vec<EntityId>) -> EditorState {
    EditorState {
        area_id: Some(AreaId(1)),
        level: 0,
        tool: Tool::Select,
        selection: Selection { entities },
    }
}

fn is_nothing(edit: &Edit) -> bool {
    edit.command.is_none() && edit.changes.is_empty() && !edit.selects_created && !edit.resync
}

// ===== Access =====

#[test]
fn access_follows_the_area() {
    let id = Some(AreaId(1));
    let own = atlas(OWN);
    assert!(can_edit_active_area(&own, id));
    assert!(can_share_active_area(&own, id));
    assert!(!can_copy_active_area(&own, id));
    assert!(allow_room_copy(&own, id));
    assert!(secrets_cleared(&own, id));
    assert!(area_owned(&own, AreaId(1)));
    assert_eq!(refresh_seen_rev(&own, id), Some(3));

    let other = atlas(VIEW_ONLY);
    assert!(!can_edit_active_area(&other, id));
    assert!(!can_share_active_area(&other, id));
    assert!(!can_copy_active_area(&other, id));
    assert!(!allow_room_copy(&other, id));
    assert!(!secrets_cleared(&other, id));
    assert!(!area_owned(&other, AreaId(1)));

    let copyable = atlas(AreaAccess { can_copy: true, can_share: true, ..VIEW_ONLY });
    assert!(can_copy_active_area(&copyable, id));
    assert!(can_share_active_area(&copyable, id));
    assert!(allow_room_copy(&copyable, id));

    assert!(!can_edit_active_area(&own, None));
    assert!(!can_edit_active_area(&own, Some(AreaId(2))));
    assert_eq!(refresh_seen_rev(&own, None), None);
}

#[test]
fn the_title_names_the_active_area() {
    assert_eq!(title(&atlas(OWN), Some(AreaId(1))), "smudgy map editor - Harbour");
    assert_eq!(title(&atlas(OWN), None), "smudgy map editor");
    assert_eq!(title(&atlas(OWN), Some(AreaId(2))), "smudgy map editor");
}

#[test]
fn nothing_is_pushed_where_one_may_only_look() {
    let own = atlas(OWN);
    let command = || request_deletion(&state(vec![EntityId::Room(RoomNumber(1))]), &own).command;
    assert!(command().is_some());
    assert!(gate_command(&own, Some(AreaId(1)), command()).is_some());
    assert!(gate_command(&atlas(VIEW_ONLY), Some(AreaId(1)), command()).is_none());
    assert!(gate_command(&own, None, command()).is_none());
}

// ===== Requests of the canvas =====

#[test]
fn a_placed_room_is_selected() {
    let edit = handle_mutation_request(
        &state(vec![]),
        &atlas(OWN),
        MutationRequest::PlaceRoom { at: point(1.0, 2.0) },
    );
    assert!(edit.command.is_some());
    assert_eq!(edit.changes, vec![EditorChange::Select(EntityId::Room(RoomNumber(3)))]);
    assert!(!edit.selects_created);
    assert!(edit.resync);
}

#[test]
fn a_drawn_label_is_selected_when_it_appears() {
    let rect = Rect { x: scalar(0.0), y: scalar(0.0), width: scalar(3.0), height: scalar(1.0) };
    let edit = handle_mutation_request(
        &state(vec![]),
        &atlas(OWN),
        MutationRequest::CreateLabel { rect, caption: "Label".to_string() },
    );
    assert!(edit.command.is_some());
    assert_eq!(edit.changes, vec![EditorChange::ClearSelection]);
    assert!(edit.selects_created);
    assert!(!edit.resync);
}

#[test]
fn the_canvas_cannot_change_what_may_only_be_viewed() {
    let place = || MutationRequest::PlaceRoom { at: point(1.0, 2.0) };
    assert!(is_nothing(&handle_mutation_request(&state(vec![]), &atlas(VIEW_ONLY), place())));
    let mut nowhere = state(vec![]);
    nowhere.area_id = None;
    assert!(is_nothing(&handle_mutation_request(&nowhere, &atlas(OWN), place())));
}

#[test]
fn a_resize_of_what_is_gone_pushes_nothing() {
    let rect = Rect { x: scalar(0.0), y: scalar(0.0), width: scalar(3.0), height: scalar(1.0) };
    let resize = |id: u128| MutationRequest::ResizeEntity { entity: EntityId::Label(LabelId(id)), rect };
    let edit = handle_mutation_request(&state(vec![]), &atlas(OWN), resize(40));
    assert!(edit.command.is_some());
    let edit = handle_mutation_request(&state(vec![]), &atlas(OWN), resize(41));
    assert!(edit.command.is_none());
    assert!(edit.resync);
}

#[test]
fn moving_and_deleting_need_an_area_that_may_be_changed() {
    let selected = state(vec![EntityId::Room(RoomNumber(1))]);
    let moved = request_move(&selected, &atlas(OWN), |p: Point| p);
    assert!(moved.resync);
    assert!(is_nothing(&request_move(&selected, &atlas(VIEW_ONLY), |p: Point| p)));

    let deleted = request_deletion(&selected, &atlas(OWN));
    assert!(deleted.command.is_some());
    assert_eq!(deleted.changes, vec![EditorChange::ClearSelection]);
    assert!(is_nothing(&request_deletion(&selected, &atlas(VIEW_ONLY))));
}

// ===== Copy, cut and paste =====

fn least(a: Point, b: Point) -> Point {
    let f = |a: Scalar, b: Scalar| scalar(f32::from_bits(a.0).min(f32::from_bits(b.0)));
    Point { x: f(a.x, b.x), y: f(a.y, b.y) }
}

fn minus(a: Point, b: Point) -> Point {
    let f = |a: Scalar, b: Scalar| scalar(f32::from_bits(a.0) - f32::from_bits(b.0));
    Point { x: f(a.x, b.x), y: f(a.y, b.y) }
}

#[test]
fn rooms_stay_behind_where_they_may_not_be_copied() {
    let both = vec![EntityId::Room(RoomNumber(1)), EntityId::Label(LabelId(40))];

    let copied = copy_selection(&state(both.clone()), &atlas(OWN), false, least, minus);
    assert!(!copied.notice);
    let clip = copied.snapshot.expect("snapshot");
    assert_eq!(clip.rooms.len(), 1);
    assert_eq!(clip.labels.len(), 1);
    assert_eq!(clip.source_area_id, Some(AreaId(1)));

    let copied = copy_selection(&state(both), &atlas(VIEW_ONLY), false, least, minus);
    assert!(copied.notice);
    let clip = copied.snapshot.expect("snapshot");
    assert_eq!(clip.rooms.len(), 0);
    assert_eq!(clip.labels.len(), 1);

    let copied = copy_selection(&state(vec![EntityId::Room(RoomNumber(1))]), &atlas(VIEW_ONLY), false, least, minus);
    assert!(copied.notice);
    assert!(copied.snapshot.is_none());
}

#[test]
fn cutting_takes_what_was_copied() {
    let both = vec![EntityId::Room(RoomNumber(1)), EntityId::Label(LabelId(40))];
    let edit = cut_selection(&state(both.clone()), &atlas(OWN), true);
    assert!(edit.command.is_some());
    assert_eq!(
        edit.changes,
        vec![
            EditorChange::RemoveFromSelection(EntityId::Room(RoomNumber(1))),
            EditorChange::RemoveFromSelection(EntityId::Label(LabelId(40))),
        ]
    );

    // A guest who may edit but not copy keeps the rooms.
    let guest = atlas(AreaAccess { can_edit: true, ..VIEW_ONLY });
    let edit = cut_selection(&state(both.clone()), &guest, true);
    assert_eq!(edit.changes, vec![EditorChange::RemoveFromSelection(EntityId::Label(LabelId(40)))]);

    assert!(is_nothing(&cut_selection(&state(both.clone()), &atlas(OWN), false)));
    assert!(is_nothing(&cut_selection(&state(both), &atlas(VIEW_ONLY), true)));
}

#[test]
fn pastes_into_the_area_of_the_copy_move_on() {
    let selected = state(vec![EntityId::Room(RoomNumber(1))]);
    let mut clip = copy_selection(&selected, &atlas(OWN), false, least, minus).snapshot.expect("snapshot");
    let mut consecutive: u32 = 0;
    assert_eq!(start_paste(&selected, &atlas(OWN), &clip, &mut consecutive), Some(1));
    assert_eq!(start_paste(&selected, &atlas(OWN), &clip, &mut consecutive), Some(2));
    assert_eq!(start_paste(&selected, &atlas(VIEW_ONLY), &clip, &mut consecutive), None);
    assert_eq!(consecutive, 2);
    clip.source_area_id = Some(AreaId(9));
    assert_eq!(start_paste(&selected, &atlas(OWN), &clip, &mut consecutive), Some(0));
    assert_eq!(consecutive, 2);
}

#[test]
fn pasted_rooms_take_the_place_of_the_selection() {
    let selected = state(vec![EntityId::Room(RoomNumber(1))]);
    let command = request_deletion(&selected, &atlas(OWN)).command;
    let edit = finish_paste(&selected, &atlas(OWN), command, &vec![RoomNumber(7), RoomNumber(8)]);
    assert!(edit.command.is_some());
    assert_eq!(
        edit.changes,
        vec![
            EditorChange::ClearSelection,
            EditorChange::AddToSelection(EntityId::Room(RoomNumber(7))),
            EditorChange::AddToSelection(EntityId::Room(RoomNumber(8))),
        ]
    );
    assert!(is_nothing(&finish_paste(&selected, &atlas(OWN), None, &vec![RoomNumber(7)])));
}

// ===== Keys =====

const PLAIN: Modifiers = Modifiers { command: false, shift: false };
const COMMAND: Modifiers = Modifiers { command: true, shift: false };
const COMMAND_SHIFT: Modifiers = Modifiers { command: true, shift: true };

fn letter(text: &str) -> Key {
    Key::Character(text.to_string())
}

#[test]
fn keys_ask_for_what_they_say() {
    assert_eq!(editor_hotkeys(false, &Key::Delete, PLAIN), Some(Hotkey::Delete));
    assert_eq!(editor_hotkeys(false, &Key::Backspace, PLAIN), Some(Hotkey::Delete));
    assert_eq!(editor_hotkeys(false, &Key::ArrowLeft, PLAIN), Some(Hotkey::Nudge(-1, 0)));
    assert_eq!(editor_hotkeys(false, &Key::ArrowDown, PLAIN), Some(Hotkey::Nudge(0, 1)));
    assert_eq!(editor_hotkeys(false, &Key::Escape, PLAIN), Some(Hotkey::Escape));
    assert_eq!(editor_hotkeys(false, &Key::PageUp, PLAIN), Some(Hotkey::LevelUp));
    assert_eq!(editor_hotkeys(false, &Key::PageUp, COMMAND), Some(Hotkey::MoveLevelUp));
    assert_eq!(editor_hotkeys(false, &Key::PageDown, PLAIN), Some(Hotkey::LevelDown));
    assert_eq!(editor_hotkeys(false, &Key::PageDown, COMMAND), Some(Hotkey::MoveLevelDown));
    assert_eq!(editor_hotkeys(false, &Key::Other, COMMAND), None);
}

#[test]
fn letters_need_the_command_key() {
    assert_eq!(editor_hotkeys(false, &letter("z"), PLAIN), None);
    assert_eq!(editor_hotkeys(false, &letter("z"), COMMAND), Some(Hotkey::Undo));
    assert_eq!(editor_hotkeys(false, &letter("Z"), COMMAND_SHIFT), Some(Hotkey::Redo));
    assert_eq!(editor_hotkeys(false, &letter("y"), COMMAND), Some(Hotkey::Redo));
    assert_eq!(editor_hotkeys(false, &letter("C"), COMMAND), Some(Hotkey::Copy));
    assert_eq!(editor_hotkeys(false, &letter("x"), COMMAND), Some(Hotkey::Cut));
    assert_eq!(editor_hotkeys(false, &letter("v"), COMMAND), Some(Hotkey::Paste));
    assert_eq!(editor_hotkeys(false, &letter("q"), COMMAND), None);
}

#[test]
fn a_captured_key_is_left_to_who_took_it() {
    assert_eq!(editor_hotkeys(true, &Key::Delete, PLAIN), None);
    assert_eq!(editor_hotkeys(true, &letter("z"), COMMAND), None);
}

const NOTHING_OPEN: Overlays = Overlays { modal: false, renaming_area: false, renaming_atlas: false };

fn changes(step: Step) -> Vec<EditorChange> {
    match step {
        Step::Edit(edit) => edit.changes,
        _ => panic!("no edit"),
    }
}

#[test]
fn escape_closes_what_is_on_top_first() {
    let all = Overlays { modal: true, renaming_area: true, renaming_atlas: true };
    let press = |overlays: Overlays| handle_hotkey(&state(vec![]), overlays, &atlas(OWN), Hotkey::Escape);
    assert!(matches!(press(all), Step::CloseModal));
    assert!(matches!(press(Overlays { modal: false, ..all }), Step::CancelAreaRename));
    assert!(matches!(press(Overlays { renaming_atlas: true, ..NOTHING_OPEN }), Step::CancelAtlasRename));
    assert_eq!(changes(press(NOTHING_OPEN)), vec![EditorChange::ClearSelection]);

    let mut drawing = state(vec![]);
    drawing.tool = Tool::Other(1);
    let step = handle_hotkey(&drawing, NOTHING_OPEN, &atlas(OWN), Hotkey::Escape);
    assert_eq!(changes(step), vec![EditorChange::SetTool(Tool::Select)]);
}

#[test]
fn history_is_left_alone_where_one_may_only_look() {
    let press = |access: AreaAccess, key: Hotkey| handle_hotkey(&state(vec![]), NOTHING_OPEN, &atlas(access), key);
    assert!(matches!(press(OWN, Hotkey::Undo), Step::Undo));
    assert!(matches!(press(OWN, Hotkey::Redo), Step::Redo));
    assert!(matches!(press(VIEW_ONLY, Hotkey::Undo), Step::Nothing));
    assert!(matches!(press(VIEW_ONLY, Hotkey::Redo), Step::Nothing));
}

#[test]
fn arrows_move_what_is_selected() {
    let selected = state(vec![EntityId::Room(RoomNumber(1))]);
    let press = |state: &EditorState| handle_hotkey(state, NOTHING_OPEN, &atlas(OWN), Hotkey::Nudge(0, -1));
    assert!(matches!(press(&selected), Step::Move(0, -1)));
    assert!(matches!(press(&state(vec![])), Step::Nothing));
}

#[test]
fn the_view_follows_a_selection_that_changes_level() {
    let selected = state(vec![EntityId::Room(RoomNumber(1))]);
    match handle_hotkey(&selected, NOTHING_OPEN, &atlas(OWN), Hotkey::MoveLevelUp) {
        Step::Edit(edit) => {
            assert!(edit.command.is_some());
            assert_eq!(edit.changes, vec![EditorChange::SetLevelKeepingSelection(1)]);
            assert!(edit.resync);
        }
        _ => panic!("no edit"),
    }
    let step = handle_hotkey(&state(vec![]), NOTHING_OPEN, &atlas(OWN), Hotkey::MoveLevelDown);
    assert_eq!(changes(step), vec![]);
    let step = handle_hotkey(&selected, NOTHING_OPEN, &atlas(OWN), Hotkey::LevelDown);
    assert_eq!(changes(step), vec![EditorChange::SetLevel(-1)]);
}

// ===== Secrets =====

fn secret(kind: SecretEntityKind, id: Option<u128>, room_number: Option<i32>, name: Option<&str>) -> SecretEntity {
    SecretEntity {
        kind,
        id,
        room_number,
        name: name.map(|name| name.to_string()),
    }
}

#[test]
fn a_secret_is_shown_where_it_is() {
    let own = atlas(OWN);
    let jump = |entity: SecretEntity| jump_to_secret(&own, Some(AreaId(1)), &entity).expect("an area");
    let to_room = vec![EditorChange::SetLevel(5), EditorChange::Select(EntityId::Room(RoomNumber(2)))];
    assert_eq!(jump(secret(SecretEntityKind::Room, None, Some(2), None)), to_room);
    assert_eq!(jump(secret(SecretEntityKind::RoomProperty, None, Some(2), Some("key"))), to_room);
    assert_eq!(jump(secret(SecretEntityKind::Room, None, Some(9), None)), vec![]);
    assert_eq!(
        jump(secret(SecretEntityKind::Label, Some(40), None, None)),
        vec![EditorChange::SetLevel(2), EditorChange::Select(EntityId::Label(LabelId(40)))]
    );
    assert_eq!(jump(secret(SecretEntityKind::Exit, Some(60), None, None)), vec![]);
    assert_eq!(
        jump(secret(SecretEntityKind::AreaProperty, None, None, Some("key"))),
        vec![EditorChange::ClearSelection]
    );
    assert!(jump_to_secret(&own, None, &secret(SecretEntityKind::Room, None, Some(2), None)).is_none());
}

#[test]
fn a_mark_names_one_secret() {
    let request = secret_marks_request_for(&secret(SecretEntityKind::Room, None, Some(2), None), false);
    assert_eq!(request.rooms, vec![RoomNumber(2)]);
    assert!(!request.secret);
    assert!(request.exits.is_empty());
    let request = secret_marks_request_for(&secret(SecretEntityKind::Exit, Some(60), None, None), true);
    assert_eq!(request.exits, vec![ExitId(60)]);
    assert!(request.secret);
    let request = secret_marks_request_for(&secret(SecretEntityKind::RoomProperty, None, Some(2), Some("key")), false);
    assert_eq!(request.room_properties.len(), 1);
    assert_eq!(request.room_properties[0].name, "key");
    let request = secret_marks_request_for(&secret(SecretEntityKind::RoomProperty, None, None, Some("key")), false);
    assert!(request.room_properties.is_empty());
    let request = secret_marks_request_for(&secret(SecretEntityKind::AreaProperty, None, None, Some("key")), false);
    assert_eq!(request.area_properties, vec!["key".to_string()]);
}

// ===== Areas and tools =====

#[test]
fn a_drawing_tool_is_put_away_where_nothing_may_be_drawn() {
    let id = Some(AreaId(1));
    assert_eq!(enter_area(Tool::Other(1), &atlas(OWN), id), vec![EditorChange::SetArea(id)]);
    assert_eq!(
        enter_area(Tool::Other(1), &atlas(VIEW_ONLY), id),
        vec![EditorChange::SetArea(id), EditorChange::SetTool(Tool::Select)]
    );
    assert_eq!(enter_area(Tool::Select, &atlas(VIEW_ONLY), id), vec![EditorChange::SetArea(id)]);
    assert!(may_take_tool(&state(vec![]), &atlas(OWN), Tool::Other(1)));
    assert!(!may_take_tool(&state(vec![]), &atlas(VIEW_ONLY), Tool::Other(1)));
    assert!(may_take_tool(&state(vec![]), &atlas(VIEW_ONLY), Tool::Select));
}

#[test]
fn selecting_the_active_area_changes_nothing() {
    assert!(select_area(&state(vec![]), &atlas(OWN), AreaId(1)).is_none());
    assert_eq!(
        select_area(&state(vec![]), &atlas(OWN), AreaId(2)),
        Some(vec![EditorChange::SetArea(Some(AreaId(2)))])
    );
}

// ===== The clock =====

const QUIET: TickInput = TickInput {
    sync_revision: 7,
    has_credential: true,
    notice_expired: false,
    history_empty: true,
};

const ASKS_NOTHING: TickPlan = TickPlan {
    fetch_sharers: false,
    fetch_atlases: false,
    clear_atlases: false,
    select: None,
    clear_history: false,
    resync: false,
};

#[test]
fn a_second_tick_asks_for_nothing() {
    let own = atlas(OWN);
    let mut state = TickState {
        last_seen_sync_revision: None,
        last_seen_rev: None,
        pending_copied_area: None,
        notice: true,
    };
    let plan = tick(&mut state, &own, Some(AreaId(1)), QUIET);
    assert_eq!(plan, TickPlan { fetch_sharers: true, fetch_atlases: true, resync: true, ..ASKS_NOTHING });
    assert_eq!(tick(&mut state, &own, Some(AreaId(1)), QUIET), ASKS_NOTHING);
    assert!(state.notice);
    let plan = tick(&mut state, &own, Some(AreaId(1)), TickInput { notice_expired: true, ..QUIET });
    assert_eq!(plan, ASKS_NOTHING);
    assert!(!state.notice);
}

#[test]
fn a_copy_is_selected_when_it_arrives() {
    let mut state = TickState {
        last_seen_sync_revision: Some(7),
        last_seen_rev: None,
        pending_copied_area: Some(AreaId(1)),
        notice: false,
    };
    let plan = tick(&mut state, &atlas(OWN), None, QUIET);
    assert_eq!(plan, TickPlan { select: Some(AreaId(1)), ..ASKS_NOTHING });
    assert_eq!(state.pending_copied_area, None);

    state.pending_copied_area = Some(AreaId(2));
    assert_eq!(tick(&mut state, &atlas(OWN), None, QUIET), ASKS_NOTHING);
    assert_eq!(state.pending_copied_area, Some(AreaId(2)));
}

#[test]
fn history_goes_when_the_area_may_not_be_changed_any_more() {
    let mut state = TickState {
        last_seen_sync_revision: Some(7),
        last_seen_rev: Some(3),
        pending_copied_area: None,
        notice: false,
    };
    let input = TickInput { history_empty: false, ..QUIET };
    assert_eq!(tick(&mut state, &atlas(OWN), Some(AreaId(1)), input), ASKS_NOTHING);
    let plan = tick(&mut state, &atlas(VIEW_ONLY), Some(AreaId(1)), input);
    assert_eq!(plan, TickPlan { clear_history: true, ..ASKS_NOTHING });
}

#[test]
fn atlases_are_forgotten_without_a_credential() {
    let mut state = TickState {
        last_seen_sync_revision: Some(6),
        last_seen_rev: None,
        pending_copied_area: None,
        notice: false,
    };
    let plan = tick(&mut state, &atlas(OWN), None, TickInput { has_credential: false, ..QUIET });
    assert_eq!(plan, TickPlan { fetch_sharers: true, clear_atlases: true, ..ASKS_NOTHING });
}

// ===== Creations and copies =====

#[test]
fn only_the_awaited_creation_is_selected() {
    let created = |command: u64| Outcome::Label {
        command: command,
        slot: 0,
        result: Ok(LabelId(41)),
    };
    assert_eq!(created_entity(Some(1), &created(1)), Some(EntityId::Label(LabelId(41))));
    assert_eq!(created_entity(Some(2), &created(1)), None);
    assert_eq!(created_entity(None, &created(1)), None);
    let shape = Outcome::Shape { command: 1, slot: 0, result: Ok(ShapeId(9)) };
    assert_eq!(created_entity(Some(1), &shape), Some(EntityId::Shape(ShapeId(9))));
    let failed = Outcome::Label { command: 1, slot: 0, result: Err("offline".to_string()) };
    assert_eq!(created_entity(Some(1), &failed), None);
}

#[test]
fn one_copy_of_a_family_is_enabled() {
    assert_eq!(
        activate_copy(&vec![AreaId(1), AreaId(2), AreaId(3)], AreaId(2)),
        vec![(AreaId(1), false), (AreaId(2), true), (AreaId(3), false)]
    );
}
