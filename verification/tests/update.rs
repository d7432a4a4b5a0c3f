use smudgy_ui::map_editor_window::area_list::{FolderKey, MapInfo};
use smudgy_ui::map_editor_window::area_tree::ScopeTable;
use smudgy_ui::map_editor_window::cache::Selection;
use smudgy_ui::map_editor_window::compile::Outcome;
use smudgy_ui::map_editor_window::copies::{AtlasCopy, CopyFailure};
use smudgy_ui::map_editor_window::dialogs::{Modal, OwnedAtlas};
use smudgy_ui::map_editor_window::families::{FamilyIndex, ListedArea};
use smudgy_ui::map_editor_window::folders::AtlasLoad;
use smudgy_ui::map_editor_window::hotkeys::{own_hotkey, Hotkey, WindowId};
use smudgy_ui::map_editor_window::model::{
    AreaAccess, AreaCache, AreaId, AtlasCache, AtlasId, EntityId, LabelId, Point, RoomKey, RoomNumber, Scalar, UserId,
};
use smudgy_ui::map_editor_window::navigation::{SecretEntity, SecretEntityKind, TickInput};
use smudgy_ui::map_editor_window::scopes::{HomingEvidence, ScopeDelta, ScopeState, ScopeTarget};
use smudgy_ui::map_editor_window::sharers::{OwnerInfo, ShareGrant};
use smudgy_ui::map_editor_window::update::{
    Action, AreaMessage, AtlasMessage, AuditMessage, CanvasMessage, CopyMessage, Indices, MapEditorWindow, Message,
    ScopeMessage, Surroundings,
};
use smudgy_ui::map_editor_window::window::{EditorChange, EditorState, MutationRequest, Tool};

fn area(id: u128, name: &str, is_owned: bool) -> AreaCache {
    AreaCache {
        id: AreaId(id),
        name: name.to_string(),
        rev: 7,
        access: AreaAccess {
            is_owned,
            can_edit: is_owned,
            can_copy: !is_owned,
            can_share: false,
            is_cleared_for_secrets: is_owned,
        },
        rooms: Vec::new(),
        connections: Vec::new(),
        room_connections: Vec::new(),
        labels: Vec::new(),
        shapes: Vec::new(),
        properties: Vec::new(),
        next_room_number: RoomNumber(1),
    }
}

fn map(id: u128, name: &str) -> MapInfo {
    MapInfo {
        owner: OwnerInfo { area_id: AreaId(id), atlas_id: None, owner_id: None, owner_nickname: None },
        name: name.to_string(),
        has_secrets: false,
        is_owner: true,
        can_edit: true,
        can_admin: false,
        enabled: true,
        atlas_name: None,
    }
}

/// Area 1 is owned, area 2 is shared and active areas vary.
fn around(active: Option<u128>) -> Surroundings {
    Surroundings {
        atlas: AtlasCache { areas: vec![area(1, "Mine", true), area(2, "Theirs", false)] },
        editor: EditorState {
            area_id: active.map(AreaId),
            level: 0,
            tool: Tool::Select,
            selection: Selection { entities: vec![] },
        },
        maps: vec![map(1, "Mine")],
        filing: vec![(AreaId(2), AtlasId(70))],
        ephemeral: vec![],
        local_areas: vec![],
        local_atlases: vec![],
        disabled: vec![AreaId(2)],
        sources: vec![None, None],
        scopes: ScopeTable {
            atlases: vec![(AtlasId(70), ScopeState::Unassigned)],
            areas: vec![(AreaId(1), ScopeState::Here)],
            local_atlases: vec![],
        },
        signed_in: true,
    }
}

fn key(hotkey: Hotkey) -> CanvasMessage {
    CanvasMessage::Hotkey(WindowId(3), hotkey)
}

fn window() -> MapEditorWindow {
    MapEditorWindow::with_clipboard(WindowId(3), "Aardwolf".to_string(), false)
}

fn tell(actions: &[Action]) -> Vec<String> {
    actions
        .iter()
        .map(|action| match action {
            Action::Change(EditorChange::SetArea(id)) => format!("area {:?}", id.map(|id| id.0)),
            Action::Change(EditorChange::SetTool(Tool::Select)) => "select tool".to_string(),
            Action::Change(EditorChange::AddToSelection(EntityId::Label(id))) => format!("add label {}", id.0),
            Action::Change(_) => "change".to_string(),
            Action::Edit(edit) => format!("edit {}", edit.command.is_some()),
            Action::Copy => "copy".to_string(),
            Action::Cut => "cut".to_string(),
            Action::Paste => "paste".to_string(),
            Action::Move(dx, dy) => format!("move {} {}", dx, dy),
            Action::Undo => "undo".to_string(),
            Action::Redo => "redo".to_string(),
            Action::ClearHistory => "clear history".to_string(),
            Action::RefreshSeenRev => "seen".to_string(),
            Action::Resync => "resync".to_string(),
            Action::Resolve(_) => "resolve".to_string(),
            Action::MovePlayer(place) => format!("player {:?}", place.map(|key| key.room_number.0)),
            Action::FetchSharers => "fetch sharers".to_string(),
            Action::FetchAtlases => "fetch atlases".to_string(),
            Action::FetchSecrets(id) => format!("fetch secrets {}", id.0),
            Action::SyncNow => "sync".to_string(),
            Action::CreateArea { name, atlas_id } => format!("create {} {:?}", name, atlas_id.map(|id| id.0)),
            Action::RenameArea { area_id, name } => format!("rename {} {}", area_id.0, name),
            Action::DeleteArea(id) => format!("delete {}", id.0),
            Action::MoveArea { area_id, atlas_id } => format!("file {} {:?}", area_id.0, atlas_id.map(|id| id.0)),
            Action::SetAreaEnabled(id, on) => format!("enable {} {}", id.0, on),
            Action::ReportDisabledAreas => "report".to_string(),
            Action::CopyArea { source, name, duplicate } => format!("copy {} {} {}", source.0, name, duplicate),
            Action::CopyAtlas(id) => format!("copy atlas {}", id.0),
            Action::ApplyMarks { area_id, request, secret } => {
                format!("apply {} {} {}", area_id.0, request.rooms.len(), secret)
            }
            Action::SendMarks { area_id, request } => format!("send {} {}", area_id.0, request.rooms.len()),
            Action::CreateAtlas { name, local } => format!("create atlas {} {}", name, local),
            Action::RenameAtlas { atlas_id, name } => format!("rename atlas {} {}", atlas_id.0, name),
            Action::DeleteAtlas(id) => format!("delete atlas {}", id.0),
            Action::Associate(ScopeDelta::SetAtlasEntry { atlas_id, entry, show }) => {
                format!("atlas {} {} {}", atlas_id.0, entry, show)
            }
            Action::Associate(ScopeDelta::SetAreaEntry { area_id, entry, show }) => {
                format!("area {} {} {}", area_id.0, entry, show)
            }
            Action::Associate(ScopeDelta::MarkSeen { atlas_id }) => format!("saw {}", atlas_id.0),
            Action::Associate(_) => "associate".to_string(),
            Action::OpenSettings => "settings".to_string(),
            Action::RememberBanner => "banner".to_string(),
            Action::ShareArea => "share".to_string(),
            Action::ShareAtlas(id) => format!("share atlas {}", id.0),
            Action::OfferArea { area_id, name } => format!("offer {} {}", area_id.0, name),
            Action::OfferAtlas { atlas_id, name } => format!("offer atlas {} {}", atlas_id.0, name),
        })
        .collect()
}

fn canvas(window: &mut MapEditorWindow, message: CanvasMessage, around: &Surroundings) -> Vec<String> {
    tell(&window.update(Message::Canvas(message), around))
}

fn areas(window: &mut MapEditorWindow, message: AreaMessage, around: &Surroundings) -> Vec<String> {
    tell(&window.update(Message::Area(message), around))
}

fn copies(window: &mut MapEditorWindow, message: CopyMessage, around: &Surroundings) -> Vec<String> {
    tell(&window.update(Message::Copy(message), around))
}

fn audit(window: &mut MapEditorWindow, message: AuditMessage, around: &Surroundings) -> Vec<String> {
    tell(&window.update(Message::Audit(message), around))
}

fn atlases(window: &mut MapEditorWindow, message: AtlasMessage, around: &Surroundings) -> Vec<String> {
    tell(&window.update(Message::Atlas(message), around))
}

fn scopes(window: &mut MapEditorWindow, message: ScopeMessage, around: &Surroundings) -> Vec<String> {
    tell(&window.update(Message::Scope(message), around))
}

const NOTHING: [&str; 0] = [];

#[test]
fn a_window_without_a_server_lists_everything() {
    assert!(!window().scope_all);
    assert_eq!(window().server_name().map(String::as_str), Some("Aardwolf"));
    let free = MapEditorWindow::with_clipboard(WindowId(4), String::new(), true);
    assert!(free.scope_all);
    assert!(free.server_name.is_none());
    assert!(free.signin_banner_dismissed);
    assert_eq!(free.dialogs.collapsed, vec![FolderKey::Unassigned]);
}

#[test]
fn an_area_that_is_opened_is_homed() {
    let mut window = window();
    window.hovered_room = Some(RoomKey::new(AreaId(1), RoomNumber(4)));
    let mut around = around(Some(1));
    around.editor.tool = Tool::Other(2);
    assert_eq!(
        canvas(&mut window, CanvasMessage::AreaSelected(AreaId(2)), &around),
        vec!["area Some(2)", "select tool", "clear history", "seen", "resync", "atlas 70 Aardwolf true"]
    );
    assert!(window.hovered_room.is_none());
    assert_eq!(canvas(&mut window, CanvasMessage::AreaSelected(AreaId(1)), &around), NOTHING);
    window.scope_all = true;
    assert_eq!(
        canvas(&mut window, CanvasMessage::AreaSelected(AreaId(2)), &around),
        vec!["area Some(2)", "select tool", "clear history", "seen", "resync"]
    );
}

#[test]
fn levels_end_somewhere() {
    let window = window();
    let mut high = around(Some(1));
    high.editor.level = i32::MAX;
    let up = || Message::Canvas(CanvasMessage::LevelUp);
    assert!(!window.can_update(&up(), &high));
    assert!(!window.can_update(&Message::Canvas(key(Hotkey::MoveLevelUp)), &high));
    assert!(!window.can_update(&Message::Canvas(key(Hotkey::LevelUp)), &high));
    assert!(window.can_update(&Message::Canvas(CanvasMessage::Hotkey(WindowId(5), Hotkey::LevelUp)), &high));
    assert!(window.can_update(&Message::Canvas(CanvasMessage::LevelDown), &high));
    assert!(window.can_update(&up(), &around(Some(1))));
    assert!(!window.shows_signin_banner(&high));
    high.signed_in = false;
    assert!(window.shows_signin_banner(&high));
}

#[test]
fn the_canvas_is_heard() {
    let mut window = window();
    let own = around(Some(1));
    let place = Some(RoomKey::new(AreaId(1), RoomNumber(4)));
    assert_eq!(canvas(&mut window, CanvasMessage::HoveredRoomChanged(place), &own), NOTHING);
    assert_eq!(window.hovered_room, place);
    assert_eq!(canvas(&mut window, CanvasMessage::SelectionChanged, &own), vec!["resync"]);
    let at = Point { x: Scalar(0), y: Scalar(0) };
    let request = || CanvasMessage::RequestMutation(MutationRequest::PlaceRoom { at });
    assert_eq!(canvas(&mut window, request(), &own), vec!["edit true"]);
    assert_eq!(canvas(&mut window, request(), &around(Some(2))), vec!["edit false"]);
    assert_eq!(
        canvas(&mut window, CanvasMessage::SetCurrentLocation(AreaId(1), Some(9)), &own),
        vec!["player Some(9)"]
    );
    assert_eq!(canvas(&mut window, CanvasMessage::SetCurrentLocation(AreaId(1), None), &own), vec!["player None"]);
    assert_eq!(canvas(&mut window, CanvasMessage::ToolSelected(Tool::Other(1)), &own), vec!["change"]);
    assert_eq!(canvas(&mut window, CanvasMessage::ToolSelected(Tool::Other(1)), &around(Some(2))), NOTHING);
}

#[test]
fn keys_reach_what_is_open() {
    let mut window = window();
    let own = around(Some(1));
    assert_eq!(canvas(&mut window, key(Hotkey::Undo), &own), vec!["undo"]);
    assert_eq!(canvas(&mut window, key(Hotkey::Undo), &around(Some(2))), NOTHING);
    assert_eq!(canvas(&mut window, CanvasMessage::Undo, &own), vec!["undo"]);
    assert_eq!(canvas(&mut window, CanvasMessage::Redo, &own), vec!["redo"]);
    let up = window.update(Message::Canvas(CanvasMessage::LevelUp), &own);
    assert!(matches!(&up[..], [Action::Edit(edit)] if matches!(edit.changes[..], [EditorChange::SetLevel(1)])));
    let down = window.update(Message::Canvas(CanvasMessage::LevelDown), &own);
    assert!(matches!(&down[..], [Action::Edit(edit)] if matches!(edit.changes[..], [EditorChange::SetLevel(-1)])));
    areas(&mut window, AreaMessage::NewAreaRequested, &own);
    areas(&mut window, AreaMessage::RenameAreaStarted(AreaId(1)), &own);
    atlases(&mut window, AtlasMessage::RenameAtlasStarted(AtlasId(7)), &own);
    assert_eq!(canvas(&mut window, key(Hotkey::Escape), &own), NOTHING);
    assert!(window.dialogs.modal.is_none() && window.dialogs.renaming_area.is_some());
    assert_eq!(canvas(&mut window, key(Hotkey::Escape), &own), NOTHING);
    assert!(window.dialogs.renaming_area.is_none() && window.dialogs.renaming_atlas.is_some());
    assert_eq!(canvas(&mut window, key(Hotkey::Escape), &own), NOTHING);
    assert!(window.dialogs.renaming_atlas.is_none());
    assert_eq!(canvas(&mut window, key(Hotkey::Escape), &own), vec!["edit false"]);
}

#[test]
fn the_clock_fetches_and_selects() {
    let mut window = window();
    let own = around(Some(1));
    let input = TickInput { sync_revision: 1, has_credential: true, notice_expired: true, history_empty: true };
    window.room_copy_notice = true;
    assert_eq!(
        canvas(&mut window, CanvasMessage::Tick(input), &own),
        vec!["fetch sharers", "fetch atlases", "resync"]
    );
    assert!(!window.room_copy_notice);
    assert_eq!(window.last_seen_rev, Some(7));
    assert_eq!(canvas(&mut window, CanvasMessage::Tick(input), &own), NOTHING);

    window.dialogs.pending_copied_area = Some(AreaId(2));
    assert_eq!(
        canvas(&mut window, CanvasMessage::Tick(input), &own),
        vec!["area Some(2)", "clear history", "seen", "resync", "atlas 70 Aardwolf true"]
    );
    assert!(window.dialogs.pending_copied_area.is_none());

    window.dialogs.atlases = vec![OwnedAtlas { id: AtlasId(1), name: String::new(), area_count: 0, is_owner: true }];
    let signed_out = TickInput { sync_revision: 2, has_credential: false, ..input };
    assert_eq!(canvas(&mut window, CanvasMessage::Tick(signed_out), &own), vec!["fetch sharers"]);
    assert!(window.dialogs.atlases.is_empty());
}

#[test]
fn a_completion_settles_and_selects() {
    let mut window = window();
    let own = around(Some(1));
    let created = || CanvasMessage::CommandCompleted(Outcome::Label { command: 3, slot: 0, result: Ok(LabelId(8)) });
    assert_eq!(canvas(&mut window, created(), &own), vec!["resolve", "seen", "resync"]);
    window.pending_select = Some(3);
    assert_eq!(canvas(&mut window, created(), &own), vec!["add label 8", "resolve", "seen", "resync"]);
}

#[test]
fn areas_are_created_and_opened() {
    let mut window = window();
    let own = around(Some(2));
    assert_eq!(areas(&mut window, AreaMessage::NewAreaInAtlas(AtlasId(70)), &own), NOTHING);
    assert_eq!(areas(&mut window, AreaMessage::CreateAreaConfirmed, &own), NOTHING);
    areas(&mut window, AreaMessage::CreateAreaNameChanged(" Moor ".to_string()), &own);
    assert_eq!(areas(&mut window, AreaMessage::CreateAreaConfirmed, &own), vec!["create Moor Some(70)"]);
    areas(&mut window, AreaMessage::AreaCreated(Err("offline".to_string())), &own);
    assert!(matches!(&window.dialogs.modal, Some(Modal::CreateArea { error: Some(error), .. }) if error == "offline"));
    assert_eq!(
        areas(&mut window, AreaMessage::AreaCreated(Ok(AreaId(1))), &own),
        vec!["area Some(1)", "clear history", "seen", "resync", "area 1 Aardwolf true"]
    );
    assert!(window.dialogs.modal.is_none());
    // One that is active already is associated all the same.
    assert_eq!(
        areas(&mut window, AreaMessage::AreaCreated(Ok(AreaId(1))), &around(Some(1))),
        vec!["area 1 Aardwolf true"]
    );
}

#[test]
fn areas_are_renamed_filed_and_deleted() {
    let mut window = window();
    let own = around(Some(1));
    areas(&mut window, AreaMessage::RenameAreaStarted(AreaId(1)), &own);
    areas(&mut window, AreaMessage::RenameAreaChanged("Ours".to_string()), &own);
    assert_eq!(areas(&mut window, AreaMessage::RenameAreaCommitted, &own), vec!["rename 1 Ours", "seen"]);
    assert_eq!(areas(&mut window, AreaMessage::RenameAreaCommitted, &own), NOTHING);

    areas(&mut window, AreaMessage::MoveAreaRequested(AreaId(1)), &own);
    assert!(matches!(&window.dialogs.modal, Some(Modal::MoveArea { current_atlas: None, .. })));
    let filing = AreaMessage::MoveAreaToAtlas { area: AreaId(1), atlas: Some(AtlasId(3)) };
    assert_eq!(areas(&mut window, filing, &own), vec!["file 1 Some(3)", "seen"]);
    assert!(window.dialogs.modal.is_none());
    let foreign = AreaMessage::MoveAreaToAtlas { area: AreaId(2), atlas: None };
    assert_eq!(areas(&mut window, foreign, &own), NOTHING);

    areas(&mut window, AreaMessage::DeleteAreaRequested(AreaId(1)), &own);
    assert_eq!(areas(&mut window, AreaMessage::DeleteAreaConfirmed, &own), vec!["delete 1"]);
    assert_eq!(
        areas(&mut window, AreaMessage::AreaDeleted, &own),
        vec!["area Some(1)", "clear history", "seen", "resync"]
    );
    let mut empty = around(None);
    empty.maps = vec![];
    assert_eq!(
        areas(&mut window, AreaMessage::AreaDeleted, &empty),
        vec!["area None", "clear history", "seen", "resync"]
    );
}

#[test]
fn areas_are_switched_and_offered() {
    let mut window = window();
    let own = around(Some(1));
    assert_eq!(areas(&mut window, AreaMessage::ToggleAreaEnabled(AreaId(1)), &own), vec!["enable 1 false", "report"]);
    assert_eq!(areas(&mut window, AreaMessage::ToggleAreaEnabled(AreaId(2)), &own), vec!["enable 2 true", "report"]);
    assert_eq!(areas(&mut window, AreaMessage::TransferOwnershipRequested, &own), vec!["offer 1 Mine"]);
    assert_eq!(areas(&mut window, AreaMessage::TransferOwnershipRequested, &around(None)), NOTHING);
    assert_eq!(areas(&mut window, AreaMessage::TransferAreaOwnershipRequested(AreaId(9)), &own), vec!["offer 9 "]);
    assert_eq!(areas(&mut window, AreaMessage::ShareDialogRequested, &own), vec!["share"]);
    areas(&mut window, AreaMessage::NewAreaRequested, &own);
    areas(&mut window, AreaMessage::ModalDismissed, &own);
    assert!(window.dialogs.modal.is_none());
}

#[test]
fn a_key_of_another_window_does_nothing() {
    assert_eq!(own_hotkey(WindowId(3), WindowId(3), Hotkey::Nudge(1, 0)), Some(Hotkey::Nudge(1, 0)));
    assert_eq!(own_hotkey(WindowId(3), WindowId(4), Hotkey::Nudge(1, 0)), None);
    let mut window = window();
    let own = around(Some(1));
    areas(&mut window, AreaMessage::NewAreaRequested, &own);
    assert_eq!(canvas(&mut window, CanvasMessage::Hotkey(WindowId(4), Hotkey::Escape), &own), NOTHING);
    assert!(window.dialogs.modal.is_some());
    assert_eq!(canvas(&mut window, CanvasMessage::Hotkey(WindowId(4), Hotkey::Undo), &own), NOTHING);
    canvas(&mut window, key(Hotkey::Escape), &own);
    assert!(window.dialogs.modal.is_none());
}

#[test]
fn one_copy_of_a_family_is_active() {
    let mut window = window();
    let mut own = around(Some(1));
    assert_eq!(areas(&mut window, AreaMessage::SetActiveCopy(AreaId(2)), &own), vec!["enable 2 true", "report"]);
    own.sources = vec![None, Some(AreaId(1))];
    assert_eq!(
        areas(&mut window, AreaMessage::SetActiveCopy(AreaId(2)), &own),
        vec!["enable 1 false", "enable 2 true", "report"]
    );
    own.sources = vec![];
    let listed = |id, token: &str| ListedArea { id: AreaId(id), family_token: Some(token.to_string()) };
    window.load_indices(None, Some(vec![listed(2, "f"), listed(1, "f"), listed(8, "g"), listed(9, "f")]), &vec![]);
    assert_eq!(
        areas(&mut window, AreaMessage::SetActiveCopy(AreaId(1)), &own),
        vec!["enable 1 true", "enable 2 false", "enable 9 false", "report"]
    );
}

#[test]
fn families_join_copies_and_tokens() {
    let mut window = window();
    let mut own = around(Some(1));
    own.atlas.areas.push(area(3, "Lone", true));
    own.atlas.areas.push(area(9, "First", true));
    own.sources = vec![Some(AreaId(9)), Some(AreaId(5))];
    assert_eq!(window.copy_family(&own, AreaId(1)), vec![AreaId(1), AreaId(9)]);
    assert_eq!(window.family_members(&own), vec![AreaId(1), AreaId(9)]);
    let listed = |id, token: Option<&str>| ListedArea { id: AreaId(id), family_token: token.map(str::to_string) };
    let tokens = vec![listed(9, Some("f")), listed(2, Some("f")), listed(3, None), listed(4, Some("g"))];
    window.load_indices(None, Some(tokens), &vec![]);
    let family = vec![AreaId(1), AreaId(2), AreaId(9)];
    assert_eq!(window.copy_family(&own, AreaId(2)), family);
    assert_eq!(window.copy_family(&own, AreaId(1)), family);
    assert_eq!(window.copy_family(&own, AreaId(3)), vec![AreaId(3)]);
    assert_eq!(window.family_members(&own), family);
    window.load_indices(Some(vec![]), None, &vec![]);
    assert_eq!(window.family_members(&own), family);
    assert!(window.indices.sharers.is_some());
}

#[test]
fn duplicates_start_disabled() {
    let mut window = window();
    let own = around(Some(1));
    assert_eq!(copies(&mut window, CopyMessage::CopyAreaRequested, &own), NOTHING);
    assert!(window.dialogs.modal.is_none());
    copies(&mut window, CopyMessage::DuplicateAreaRequested, &own);
    copies(&mut window, CopyMessage::CopyAreaNameChanged("Two".to_string()), &own);
    assert_eq!(copies(&mut window, CopyMessage::CopyAreaConfirmed, &own), vec!["copy 1 Two true"]);
    assert_eq!(copies(&mut window, CopyMessage::CopyAreaConfirmed, &own), NOTHING);
    let refused = CopyMessage::CopyAreaCompleted { result: Err(CopyFailure::NotFoundOrNoAccess), duplicate: true };
    assert_eq!(copies(&mut window, refused, &own), NOTHING);
    let arrived = CopyMessage::CopyAreaCompleted { result: Ok(AreaId(5)), duplicate: true };
    assert_eq!(copies(&mut window, arrived, &own), vec!["enable 5 false", "sync", "report"]);
    let arrived = CopyMessage::CopyAreaCompleted { result: Ok(AreaId(6)), duplicate: false };
    assert_eq!(copies(&mut window, arrived, &own), vec!["sync"]);
    assert_eq!(window.dialogs.pending_copied_area, Some(AreaId(6)));
}

#[test]
fn an_atlas_is_copied_through_the_dialog() {
    let mut window = window();
    let shared = around(Some(2));
    copies(&mut window, CopyMessage::CopyAreaRequested, &shared);
    assert_eq!(copies(&mut window, CopyMessage::CopyAtlasRequested, &shared), vec!["copy atlas 70"]);
    assert_eq!(copies(&mut window, CopyMessage::CopyAtlasRequested, &shared), NOTHING);
    let report = || CopyMessage::CopyAtlasCompleted(Ok(AtlasCopy { copied: vec![AreaId(5)], skipped: 0 }));
    assert_eq!(copies(&mut window, report(), &shared), vec!["sync"]);
    let failed = CopyMessage::CopyAtlasCompleted(Err(CopyFailure::Other("offline".to_string())));
    assert_eq!(copies(&mut window, failed, &shared), NOTHING);
    window.dialogs.dismiss();
    assert_eq!(copies(&mut window, report(), &shared), NOTHING);
}

fn secret_room() -> SecretEntity {
    SecretEntity { kind: SecretEntityKind::Room, id: None, room_number: Some(3), name: None }
}

#[test]
fn a_mark_is_cleared_at_once_and_set_again_when_refused() {
    let mut window = window();
    let own = around(Some(1));
    assert_eq!(audit(&mut window, AuditMessage::SecretsAuditUnmark(secret_room()), &own), NOTHING);
    assert_eq!(audit(&mut window, AuditMessage::SecretsAuditRequested, &own), vec!["fetch secrets 1"]);
    audit(&mut window, AuditMessage::SecretsAuditLoaded(Ok(vec![secret_room()])), &own);
    let mut actions = window.update(Message::Audit(AuditMessage::SecretsAuditUnmark(secret_room())), &own);
    assert_eq!(tell(&actions), vec!["apply 1 1 false", "seen", "resync", "send 1 1"]);
    let request = match actions.pop() {
        Some(Action::SendMarks { request, .. }) => request,
        _ => panic!("nothing sent"),
    };
    let refused = AuditMessage::SecretsAuditUnmarked {
        area_id: AreaId(1),
        request,
        failure: Some("refused".to_string()),
    };
    assert_eq!(audit(&mut window, refused, &own), vec!["apply 1 1 true", "seen", "resync"]);
    assert!(matches!(&window.dialogs.modal, Some(Modal::SecretsAudit { error: Some(error), .. }) if error == "refused"));

    let mut actions = window.update(Message::Audit(AuditMessage::SecretsAuditUnmark(secret_room())), &own);
    let request = match actions.pop() {
        Some(Action::SendMarks { request, .. }) => request,
        _ => panic!("nothing sent"),
    };
    let accepted = AuditMessage::SecretsAuditUnmarked { area_id: AreaId(1), request, failure: None };
    assert_eq!(audit(&mut window, accepted, &own), vec!["sync", "fetch secrets 1"]);
    assert_eq!(audit(&mut window, AuditMessage::SecretsAuditJump(secret_room()), &own), vec!["resync"]);
    assert!(window.dialogs.modal.is_none());
    assert_eq!(audit(&mut window, AuditMessage::SecretsAuditRequested, &around(None)), NOTHING);
}

fn owned(id: u128, is_owner: bool) -> OwnedAtlas {
    OwnedAtlas { id: AtlasId(id), name: format!("Atlas {}", id), area_count: 1, is_owner }
}

#[test]
fn first_sight_is_recorded_once() {
    let mut window = window();
    let own = around(Some(1));
    let load = AtlasLoad::Loaded(vec![owned(1, true), owned(2, false), owned(3, true), owned(1, true)]);
    let message = AtlasMessage::AtlasesLoaded { load, seen: vec![AtlasId(3)] };
    assert_eq!(atlases(&mut window, message, &own), vec!["saw 1"]);
    assert_eq!(window.dialogs.atlases.len(), 4);
    let message = AtlasMessage::AtlasesLoaded { load: AtlasLoad::SignedOut, seen: vec![] };
    assert_eq!(atlases(&mut window, message, &own), NOTHING);
    assert!(window.dialogs.atlases.is_empty());
}

#[test]
fn atlases_are_created_renamed_and_deleted() {
    let mut window = window();
    let own = around(Some(1));
    atlases(&mut window, AtlasMessage::NewAtlasRequested, &own);
    atlases(&mut window, AtlasMessage::CreateAtlasNameChanged("Isles".to_string()), &own);
    atlases(&mut window, AtlasMessage::CreateAtlasTierChanged(true), &own);
    assert_eq!(atlases(&mut window, AtlasMessage::CreateAtlasConfirmed, &own), vec!["create atlas Isles true"]);
    assert_eq!(atlases(&mut window, AtlasMessage::AtlasCreated(Err("taken".to_string())), &own), NOTHING);
    assert_eq!(
        atlases(&mut window, AtlasMessage::AtlasCreated(Ok(AtlasId(5))), &own),
        vec!["fetch atlases", "atlas 5 Aardwolf true"]
    );
    let mut local = around(Some(1));
    local.local_atlases = vec![AtlasId(6)];
    assert_eq!(atlases(&mut window, AtlasMessage::AtlasCreated(Ok(AtlasId(6))), &local), vec!["fetch atlases"]);

    window.dialogs.atlases = vec![owned(5, true)];
    atlases(&mut window, AtlasMessage::RenameAtlasStarted(AtlasId(5)), &own);
    atlases(&mut window, AtlasMessage::RenameAtlasChanged("Skerries".to_string()), &own);
    assert_eq!(atlases(&mut window, AtlasMessage::RenameAtlasCommitted, &own), vec!["rename atlas 5 Skerries"]);
    assert_eq!(atlases(&mut window, AtlasMessage::AtlasRenamed { failed: false }, &own), NOTHING);
    assert_eq!(atlases(&mut window, AtlasMessage::AtlasRenamed { failed: true }, &own), vec!["fetch atlases"]);
    let offer = AtlasMessage::TransferAtlasOwnershipRequested(AtlasId(5));
    assert_eq!(atlases(&mut window, offer, &own), vec!["offer atlas 5 Skerries"]);
    assert_eq!(atlases(&mut window, AtlasMessage::ShareAtlasRequested(AtlasId(5)), &own), vec!["share atlas 5"]);
    atlases(&mut window, AtlasMessage::DeleteAtlasRequested(AtlasId(5)), &own);
    assert_eq!(atlases(&mut window, AtlasMessage::DeleteAtlasConfirmed, &own), vec!["delete atlas 5"]);
    assert!(window.dialogs.atlases.is_empty());
    assert_eq!(atlases(&mut window, AtlasMessage::AtlasDeleted { failed: true }, &own), vec!["fetch atlases"]);
    atlases(&mut window, AtlasMessage::ToggleFolderCollapsed(FolderKey::Unassigned), &own);
    assert!(window.dialogs.collapsed.is_empty());
}

#[test]
fn servers_are_ticked_through_the_window() {
    let mut window = window();
    let own = around(Some(1));
    let asked = ScopeMessage::ServersChecklistRequested {
        target: ScopeTarget::Area(AreaId(1)),
        servers: vec!["A".to_string()],
        checked: vec![],
    };
    assert_eq!(scopes(&mut window, asked, &own), NOTHING);
    let ticked = ScopeMessage::ScopeServerToggled { entry: "A".to_string(), show: true };
    assert_eq!(scopes(&mut window, ticked, &own), vec!["area 1 A true"]);
    scopes(&mut window, ScopeMessage::ScopesReplaced(vec!["B".to_string()]), &own);
    assert!(matches!(
        &window.dialogs.modal,
        Some(Modal::ServersChecklist { checked, name, .. }) if checked == &vec!["B".to_string()] && name == "Mine"
    ));
    scopes(&mut window, ScopeMessage::ScopeAllToggled(true), &own);
    assert!(window.scope_all);
    assert_eq!(scopes(&mut window, ScopeMessage::OpenSettingsRequested, &own), vec!["settings"]);
    assert_eq!(scopes(&mut window, ScopeMessage::DismissSigninBanner, &own), vec!["banner"]);
    assert!(window.signin_banner_dismissed);
    assert_eq!(scopes(&mut window, ScopeMessage::SyncNowRequested, &own), vec!["sync"]);
    window.refresh_seen_rev(&own);
    assert_eq!(window.last_seen_rev, Some(7));
}

#[test]
fn indices_are_kept_when_a_fetch_fails() {
    let grant = || ShareGrant {
        grantor_id: UserId(1),
        area_id: Some(AreaId(2)),
        atlas_id: None,
        created_at: 0,
        grantor_nickname: None,
        owner_nickname: None,
    };
    let listed = || ListedArea { id: AreaId(2), family_token: Some("f".to_string()) };
    let evidence = vec![HomingEvidence {
        target: ScopeTarget::Area(AreaId(2)),
        seen: false,
        associated: false,
        matched: vec!["A".to_string()],
    }];
    let mut indices = Indices { sharers: None, families: FamilyIndex { tokens: vec![] } };
    assert_eq!(indices.load(Some(vec![grant()]), None, &evidence).len(), 0);
    assert!(indices.sharers.is_some());
    assert!(indices.families.tokens.is_empty());
    assert_eq!(indices.load(None, Some(vec![listed()]), &evidence).len(), 0);
    assert!(indices.sharers.is_some());
    assert_eq!(indices.families.tokens.len(), 1);
    let deltas = indices.load(Some(vec![]), Some(vec![]), &evidence);
    assert!(matches!(&deltas[..], [ScopeDelta::SetAreaEntries { area_id: AreaId(2), .. }]));
    assert!(indices.families.tokens.is_empty());
}
