use smudgy_ui::map_editor_window::area_list::FolderKey;
use smudgy_ui::map_editor_window::copies::{copy_error_message, AtlasCopy, CopyFailure};
use smudgy_ui::map_editor_window::dialogs::{CopyDialog, Dialogs, Modal, OwnedAtlas};
use smudgy_ui::map_editor_window::folders::{atlases_to_mark, AtlasLoad};
use smudgy_ui::map_editor_window::model::{AreaAccess, AreaCache, AreaId, AtlasCache, AtlasId, RoomNumber};
use smudgy_ui::map_editor_window::navigation::{SecretEntity, SecretEntityKind};
use smudgy_ui::map_editor_window::scopes::{ScopeDelta, ScopeTarget};
use smudgy_ui::text::trim;

fn area(id: u128, name: &str, is_owned: bool, can_copy: bool) -> AreaCache {
    AreaCache {
        id: AreaId(id),
        name: name.to_string(),
        rev: 1,
        access: AreaAccess {
            is_owned,
            can_edit: is_owned,
            can_copy,
            can_share: false,
            is_cleared_for_secrets: is_owned,
        },
        rooms: Vec::new(),
        connections: Vec::new(),
        room_connections: Vec::new(),
        labels: Vec::new(),
        shapes: Vec::new(),
        properties: Vec::new(),
        next_room_number: RoomNumber(1),
    }
}

fn cached() -> AtlasCache {
    AtlasCache {
        areas: vec![area(1, "Mine", true, false), area(2, "Theirs", false, true), area(3, "Closed", false, false)],
    }
}

fn owned_atlas(id: u128, name: &str, is_owner: bool) -> OwnedAtlas {
    OwnedAtlas { id: AtlasId(id), name: name.to_string(), area_count: 4, is_owner }
}

fn with_atlases() -> Dialogs {
    let mut dialogs = Dialogs::new();
    dialogs.atlases_loaded(AtlasLoad::Loaded(vec![
        owned_atlas(7, "zoo", true),
        owned_atlas(8, "Coast", false),
        owned_atlas(9, "Alps", true),
    ]));
    dialogs
}

#[test]
fn what_is_trimmed_is_what_is_blank() {
    for c in '\u{0}'..=char::MAX {
        assert_eq!(trim(&c.to_string()).is_empty(), c.is_whitespace(), "{:?}", c);
    }
    let padded = "\u{3000}\t two  words \u{85}";
    assert_eq!(trim(padded), padded.trim());
}

// ===== Areas =====

#[test]
fn a_new_area_needs_a_name() {
    let mut dialogs = Dialogs::new();
    assert!(dialogs.confirm_area().is_none());
    dialogs.request_area(Some(AtlasId(7)));
    assert!(dialogs.confirm_area().is_none());
    dialogs.area_name_changed(" \t ".to_string());
    assert!(dialogs.confirm_area().is_none());
    dialogs.area_name_changed("  Moor \u{a0}".to_string());
    let wanted = dialogs.confirm_area().expect("an area");
    assert_eq!(wanted.name, "Moor");
    assert_eq!(wanted.atlas_id, Some(AtlasId(7)));

    dialogs.area_created(Some("offline".to_string()));
    assert!(matches!(&dialogs.modal, Some(Modal::CreateArea { error: Some(error), .. }) if error == "offline"));
    dialogs.area_created(None);
    assert!(dialogs.modal.is_none());
}

#[test]
fn only_owners_rename_areas() {
    let cached = cached();
    let mut dialogs = Dialogs::new();
    dialogs.start_area_rename(&cached, AreaId(2));
    assert!(dialogs.renaming_area.is_none());
    dialogs.start_area_rename(&cached, AreaId(1));
    assert_eq!(dialogs.renaming_area.as_ref().map(|renaming| renaming.name.as_str()), Some("Mine"));
    dialogs.area_rename_changed(" Ours ".to_string());
    let rename = dialogs.commit_area_rename(&cached).expect("a rename");
    assert_eq!(rename.area_id, AreaId(1));
    assert_eq!(rename.name, "Ours");
    assert!(dialogs.renaming_area.is_none());
    assert!(dialogs.commit_area_rename(&cached).is_none());

    dialogs.start_area_rename(&cached, AreaId(1));
    dialogs.area_rename_changed(" ".to_string());
    assert!(dialogs.commit_area_rename(&cached).is_none());

    dialogs.start_area_rename(&cached, AreaId(1));
    dialogs.cancel_area_rename();
    assert!(dialogs.renaming_area.is_none());
}

#[test]
fn an_area_is_deleted_after_the_question() {
    let cached = cached();
    let mut dialogs = Dialogs::new();
    dialogs.request_area_deletion(&cached, AreaId(2));
    assert!(dialogs.modal.is_none());
    assert_eq!(dialogs.confirm_area_deletion(&cached), None);
    dialogs.request_area_deletion(&cached, AreaId(1));
    assert!(matches!(&dialogs.modal, Some(Modal::ConfirmDeleteArea { name, room_count: 0, .. }) if name == "Mine"));
    assert_eq!(dialogs.confirm_area_deletion(&cached), Some(AreaId(1)));
    assert!(dialogs.modal.is_none());

    dialogs.request_area_deletion(&cached, AreaId(1));
    assert_eq!(dialogs.confirm_area_deletion(&AtlasCache { areas: vec![] }), None);
    dialogs.request_area_deletion(&cached, AreaId(1));
    dialogs.dismiss();
    assert_eq!(dialogs.confirm_area_deletion(&cached), None);
}

// ===== Copies =====

fn dialog(dialogs: &Dialogs) -> &CopyDialog {
    match &dialogs.modal {
        Some(Modal::CopyArea(dialog)) => dialog,
        _ => panic!("no copy dialog"),
    }
}

#[test]
fn own_areas_are_duplicated_and_shared_ones_copied() {
    let cached = cached();
    let mut dialogs = Dialogs::new();
    dialogs.request_copy(&cached, Some(AreaId(1)), Some(AtlasId(7)), false);
    assert!(dialogs.modal.is_none());
    dialogs.request_copy(&cached, Some(AreaId(3)), None, false);
    assert!(dialogs.modal.is_none());
    dialogs.request_copy(&cached, Some(AreaId(2)), None, true);
    assert!(dialogs.modal.is_none());

    dialogs.request_copy(&cached, Some(AreaId(1)), Some(AtlasId(7)), true);
    assert_eq!(dialog(&dialogs).name, "Mine (copy)");
    assert_eq!(dialog(&dialogs).atlas_id, None);
    dialogs.request_copy(&cached, Some(AreaId(2)), Some(AtlasId(7)), false);
    assert_eq!(dialog(&dialogs).source_name, "Theirs");
    assert_eq!(dialog(&dialogs).atlas_id, Some(AtlasId(7)));
}

#[test]
fn a_copy_is_asked_for_once() {
    let mut dialogs = Dialogs::new();
    assert!(dialogs.confirm_copy().is_none());
    dialogs.request_copy(&cached(), Some(AreaId(1)), None, true);
    dialogs.copy_name_changed("  ".to_string());
    assert!(dialogs.confirm_copy().is_none());
    assert!(!dialog(&dialogs).busy);
    dialogs.copy_name_changed(" Second ".to_string());
    let request = dialogs.confirm_copy().expect("a copy");
    assert_eq!((request.source, request.name.as_str(), request.duplicate), (AreaId(1), "Second", true));
    assert!(dialog(&dialogs).busy);
    assert!(dialogs.confirm_copy().is_none());

    assert_eq!(dialogs.copy_completed(Err(CopyFailure::NotFoundOrNoAccess), true), None);
    assert!(!dialog(&dialogs).busy);
    assert_eq!(dialog(&dialogs).error.as_deref(), Some("Copying isn't available for this map."));
    assert_eq!(dialogs.copy_completed(Ok(AreaId(33)), true), Some(AreaId(33)));
    assert_eq!(dialogs.pending_copied_area, Some(AreaId(33)));
    assert!(dialogs.modal.is_none());
    assert_eq!(dialogs.copy_completed(Ok(AreaId(34)), false), None);
    assert_eq!(dialogs.pending_copied_area, Some(AreaId(34)));
    assert_eq!(copy_error_message(&CopyFailure::Other("offline".to_string())), "offline");
}

#[test]
fn a_whole_atlas_is_copied() {
    let mut dialogs = Dialogs::new();
    assert_eq!(dialogs.request_atlas_copy(), None);
    dialogs.request_copy(&cached(), Some(AreaId(2)), Some(AtlasId(7)), false);
    assert_eq!(dialogs.request_atlas_copy(), Some(AtlasId(7)));
    assert_eq!(dialogs.request_atlas_copy(), None);
    dialogs.atlas_copied(Ok(AtlasCopy { copied: vec![AreaId(40), AreaId(41)], skipped: 13 }));
    assert_eq!(dialog(&dialogs).atlas_report.as_deref(), Some("Copied 2 areas; skipped 13 (not copyable)."));
    assert!(!dialog(&dialogs).busy);
    assert_eq!(dialogs.pending_copied_area, Some(AreaId(40)));

    assert_eq!(dialogs.request_atlas_copy(), Some(AtlasId(7)));
    dialogs.atlas_copied(Err(CopyFailure::Other("offline".to_string())));
    assert_eq!(dialog(&dialogs).error.as_deref(), Some("offline"));
    assert_eq!(dialogs.pending_copied_area, Some(AreaId(40)));
}

// ===== Secrets =====

#[test]
fn the_list_of_secrets_stays_through_a_failure() {
    let mut dialogs = Dialogs::new();
    assert_eq!(dialogs.request_audit(None), None);
    assert!(dialogs.modal.is_none());
    assert_eq!(dialogs.request_audit(Some(AreaId(1))), Some(AreaId(1)));
    assert_eq!(dialogs.audited_area(), Some(AreaId(1)));
    let entity = SecretEntity { kind: SecretEntityKind::Room, id: None, room_number: Some(3), name: None };
    dialogs.audit_loaded(Ok(vec![entity]));
    dialogs.audit_loaded(Err("offline".to_string()));
    match &dialogs.modal {
        Some(Modal::SecretsAudit { entries: Some(entries), error: Some(error), .. }) => {
            assert_eq!(entries.len(), 1);
            assert_eq!(error, "offline");
        }
        _ => panic!("no list"),
    }
    assert_eq!(dialogs.audit_unmarked(AreaId(1), None), Some(AreaId(1)));
    assert_eq!(dialogs.audit_unmarked(AreaId(2), None), None);
    assert_eq!(dialogs.audit_unmarked(AreaId(1), Some("refused".to_string())), None);
    assert!(matches!(&dialogs.modal, Some(Modal::SecretsAudit { error: Some(error), .. }) if error == "refused"));
    dialogs.dismiss();
    assert_eq!(dialogs.audited_area(), None);
}

// ===== Atlases =====

#[test]
fn a_failed_fetch_keeps_the_atlases() {
    let mut dialogs = with_atlases();
    dialogs.atlases_loaded(AtlasLoad::Failed);
    assert_eq!(dialogs.atlases.len(), 3);
    dialogs.atlases_loaded(AtlasLoad::SignedOut);
    assert_eq!(dialogs.atlases.len(), 0);
}

#[test]
fn first_sight_is_recorded_of_own_atlases() {
    assert_eq!(atlases_to_mark(&with_atlases().atlases), vec![AtlasId(7), AtlasId(9)]);
}

#[test]
fn a_new_atlas_is_local_where_nobody_is_signed_in() {
    let mut dialogs = Dialogs::new();
    assert!(dialogs.confirm_atlas().is_none());
    dialogs.request_atlas(false);
    dialogs.atlas_tier_changed(false);
    dialogs.atlas_name_changed(" Isles ".to_string());
    let wanted = dialogs.confirm_atlas().expect("an atlas");
    assert_eq!((wanted.name.as_str(), wanted.local), ("Isles", true));

    dialogs.request_atlas(true);
    assert!(dialogs.confirm_atlas().is_none());
    dialogs.atlas_name_changed("Isles".to_string());
    assert!(!dialogs.confirm_atlas().expect("an atlas").local);
    dialogs.atlas_tier_changed(true);
    assert!(dialogs.confirm_atlas().expect("an atlas").local);

    dialogs.atlas_created(Err("taken".to_string()));
    assert!(matches!(&dialogs.modal, Some(Modal::CreateAtlas { error: Some(error), .. }) if error == "taken"));
    dialogs.toggle_folder(FolderKey::Atlas(AtlasId(5)));
    dialogs.atlas_created(Ok(AtlasId(5)));
    assert!(dialogs.modal.is_none());
    assert_eq!(dialogs.collapsed, vec![FolderKey::Unassigned]);
}

#[test]
fn a_renamed_atlas_bears_its_name_at_once() {
    let mut dialogs = with_atlases();
    dialogs.start_atlas_rename(AtlasId(8));
    assert_eq!(dialogs.renaming_atlas.as_ref().map(|renaming| renaming.name.as_str()), Some("Coast"));
    dialogs.atlas_rename_changed(" Shore ".to_string());
    let rename = dialogs.commit_atlas_rename().expect("a rename");
    assert_eq!((rename.atlas_id, rename.name.as_str()), (AtlasId(8), "Shore"));
    assert_eq!(dialogs.atlas_name(AtlasId(8)), "Shore");
    assert_eq!(dialogs.atlas_name(AtlasId(1)), "");

    dialogs.start_atlas_rename(AtlasId(8));
    dialogs.atlas_rename_changed(" ".to_string());
    assert!(dialogs.commit_atlas_rename().is_none());
    assert!(dialogs.commit_atlas_rename().is_none());
    assert_eq!(dialogs.atlas_name(AtlasId(8)), "Shore");
}

#[test]
fn a_deleted_atlas_leaves_the_folders() {
    let mut dialogs = with_atlases();
    dialogs.toggle_folder(FolderKey::Atlas(AtlasId(7)));
    dialogs.request_atlas_deletion(AtlasId(1));
    assert!(dialogs.modal.is_none());
    dialogs.request_atlas_deletion(AtlasId(7));
    assert!(matches!(&dialogs.modal, Some(Modal::ConfirmDeleteAtlas { area_count: 4, name, .. }) if name == "zoo"));
    assert_eq!(dialogs.confirm_atlas_deletion(), Some(AtlasId(7)));
    let left: Vec<AtlasId> = dialogs.atlases.iter().map(|atlas| atlas.id).collect();
    assert_eq!(left, vec![AtlasId(8), AtlasId(9)]);
    assert_eq!(dialogs.collapsed, vec![FolderKey::Unassigned]);
    assert_eq!(dialogs.confirm_atlas_deletion(), None);
}

#[test]
fn toggling_turns_one_folder() {
    let mut dialogs = Dialogs::new();
    dialogs.toggle_folder(FolderKey::Loose);
    assert_eq!(dialogs.collapsed, vec![FolderKey::Unassigned, FolderKey::Loose]);
    dialogs.toggle_folder(FolderKey::Unassigned);
    assert_eq!(dialogs.collapsed, vec![FolderKey::Loose]);
}

#[test]
fn an_area_moves_among_folders_of_its_kind() {
    let mut dialogs = with_atlases();
    let folders = |dialogs: &Dialogs| match &dialogs.modal {
        Some(Modal::MoveArea { folders, .. }) => {
            folders.iter().map(|folder| folder.name.clone()).collect::<Vec<String>>()
        }
        _ => panic!("no dialog"),
    };
    dialogs.request_move(&cached(), AreaId(2), None, false, &vec![]);
    assert!(dialogs.modal.is_none());
    dialogs.request_move(&cached(), AreaId(1), Some(AtlasId(8)), false, &vec![AtlasId(9)]);
    assert_eq!(folders(&dialogs), vec!["Coast", "zoo"]);
    dialogs.request_move(&cached(), AreaId(1), None, true, &vec![AtlasId(9)]);
    assert_eq!(folders(&dialogs), vec!["Alps"]);
}

// ===== Servers =====

fn ticked(dialogs: &Dialogs) -> Vec<&str> {
    match &dialogs.modal {
        Some(Modal::ServersChecklist { checked, .. }) => checked.iter().map(|server| server.as_str()).collect(),
        _ => panic!("no list"),
    }
}

#[test]
fn servers_are_ticked_one_by_one() {
    let mut dialogs = with_atlases();
    assert!(dialogs.toggle_server("A".to_string(), true).is_none());
    let servers = vec!["A".to_string(), "B".to_string()];
    dialogs.request_servers(&cached(), ScopeTarget::Atlas(AtlasId(8)), servers, vec!["B".to_string()]);
    assert!(matches!(&dialogs.modal, Some(Modal::ServersChecklist { name, .. }) if name == "Coast"));
    let delta = dialogs.toggle_server("A".to_string(), true);
    assert!(matches!(delta, Some(ScopeDelta::SetAtlasEntry { atlas_id: AtlasId(8), show: true, .. })));
    assert_eq!(ticked(&dialogs), vec!["B", "A"]);
    dialogs.toggle_server("A".to_string(), true);
    assert_eq!(ticked(&dialogs), vec!["B", "A"]);
    dialogs.toggle_server("B".to_string(), false);
    assert_eq!(ticked(&dialogs), vec!["A"]);
    assert_eq!(dialogs.listed_target(), Some(ScopeTarget::Atlas(AtlasId(8))));
    dialogs.dismiss();
    assert_eq!(dialogs.listed_target(), None);
}
