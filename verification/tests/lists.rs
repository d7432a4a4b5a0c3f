use smudgy_ui::map_editor_window::area_list::{
    cased_first, first_area_id, first_of, owned_folders, session_maps, AreaSummary, AtlasItem, Folder, FolderKey, ListContext, MapInfo,
    SharedGroup,
};
use smudgy_ui::map_editor_window::area_plan::{
    area_row, folder_header, list_items, render_all_buckets, render_flat, render_this_server, scope_control, ListItem,
};
use smudgy_ui::map_editor_window::area_tree::{area_scope, folder_scope, partition_shared_group, ScopeTable};
use smudgy_ui::map_editor_window::model::{AreaId, AtlasId, UserId};
use smudgy_ui::map_editor_window::scopes::{
    apply_recipient_homing, associate_new_area, associate_new_atlas, associate_opened_area, homing_targets, set_entry,
    AreaPlace, HomingEvidence, HomingGrant, ScopeDelta, ScopeState, ScopeTarget,
};
use smudgy_ui::map_editor_window::shared_list::shared_groups;
use smudgy_ui::map_editor_window::sharers::{OwnerInfo, ShareGrant, SharerIndex};

fn map(id: u128, name: &str, is_owner: bool, atlas_id: Option<u128>) -> MapInfo {
    MapInfo {
        owner: OwnerInfo {
            area_id: AreaId(id),
            atlas_id: atlas_id.map(AtlasId),
            owner_id: Some(UserId(50)),
            owner_nickname: Some("Mo".to_string()),
        },
        name: name.to_string(),
        has_secrets: false,
        is_owner,
        can_edit: is_owner,
        can_admin: false,
        enabled: true,
        atlas_name: None,
    }
}

fn atlas(id: u128, name: &str) -> AtlasItem {
    AtlasItem { id: AtlasId(id), name: name.to_string() }
}

fn no_context() -> ListContext {
    ListContext { family: vec![], ephemeral: vec![], local: vec![] }
}

fn names(rows: &[AreaSummary]) -> Vec<&str> {
    rows.iter().map(|row| row.name.as_str()).collect()
}

fn labels(folders: &[Folder]) -> Vec<&str> {
    folders.iter().map(|folder| folder.label.as_str()).collect()
}

// ===== Own areas =====

#[test]
fn own_areas_stand_in_their_folders_by_name() {
    let maps = vec![
        map(1, "beach", true, Some(90)),
        map(2, "Alley", true, Some(90)),
        map(3, "Cave", true, None),
        map(4, "Theirs", false, Some(90)),
        map(5, "Filed in what is gone", true, Some(99)),
    ];
    let folders = owned_folders(&maps, &vec![atlas(91, "zoo"), atlas(90, "Coast")], &no_context());
    assert_eq!(labels(&folders), vec!["Coast", "zoo", "Loose maps"]);
    assert_eq!(names(&folders[0].areas), vec!["Alley", "beach"]);
    assert_eq!(names(&folders[1].areas), Vec::<&str>::new());
    assert_eq!(names(&folders[2].areas), vec!["Cave", "Filed in what is gone"]);
    assert_eq!(folders[0].areas[0].scope_target, None);
    assert_eq!(folders[2].areas[0].scope_target, Some(ScopeTarget::Area(AreaId(3))));
    assert!(folders[2].key == FolderKey::Loose);
}

#[test]
fn rows_tell_copies_local_areas_and_those_of_the_session() {
    let maps = vec![map(1, "Copy", true, None), map(2, "Local", true, None), map(3, "Dream", true, None)];
    let context = ListContext {
        family: vec![AreaId(1)],
        ephemeral: vec![AreaId(3)],
        local: vec![AreaId(2)],
    };
    let folders = owned_folders(&maps, &vec![], &context);
    assert_eq!(folders.len(), 1);
    assert_eq!(names(&folders[0].areas), vec!["Copy", "Local"]);
    assert!(folders[0].areas[0].in_family);
    assert!(!folders[0].areas[1].in_family);
    assert_eq!(folders[0].areas[1].scope_target, None);
    assert_eq!(names(&session_maps(&maps, &context.ephemeral)), vec!["Dream"]);
}

#[test]
fn without_areas_there_are_only_atlases() {
    assert_eq!(owned_folders(&vec![], &vec![], &no_context()).len(), 0);
    assert_eq!(labels(&owned_folders(&vec![], &vec![atlas(1, "A")], &no_context())), vec!["A"]);
}

#[test]
fn the_first_area_is_an_own_one() {
    let maps = vec![map(1, "aaa", false, None), map(2, "Zed", true, None), map(3, "yew", true, None)];
    assert_eq!(first_area_id(&maps, &vec![]), Some(AreaId(3)));
    assert_eq!(first_area_id(&maps, &vec![AreaId(3)]), Some(AreaId(2)));
    assert_eq!(first_area_id(&maps, &vec![AreaId(2), AreaId(3)]), Some(AreaId(1)));
    assert_eq!(first_area_id(&vec![], &vec![]), None);
}

#[test]
fn names_are_ordered_without_case_first() {
    assert!(cased_first("alley", "alley", "beach", "Beach"));
    assert!(cased_first("alley", "Alley", "alley", "alley"));
    assert!(!cased_first("alley", "alley", "alley", "Alley"));
    assert!(!cased_first("alley", "alley", "alley", "alley"));
    let own = vec![("zed".to_string(), AreaId(2)), ("yew".to_string(), AreaId(3)), ("yew".to_string(), AreaId(4))];
    let others = vec![("aaa".to_string(), AreaId(1))];
    assert_eq!(first_of(own, others), Some(AreaId(3)));
    assert_eq!(first_of(vec![], vec![("aaa".to_string(), AreaId(1))]), Some(AreaId(1)));
    assert_eq!(first_of(vec![], vec![]), None);
}

// ===== Shared areas =====

fn grant(grantor: u128, nickname: Option<&str>, area: u128) -> ShareGrant {
    ShareGrant {
        grantor_id: UserId(grantor),
        area_id: Some(AreaId(area)),
        atlas_id: None,
        created_at: 0,
        grantor_nickname: nickname.map(|nickname| nickname.to_string()),
        owner_nickname: None,
    }
}

#[test]
fn shared_areas_stand_under_who_shared_them() {
    let mut filed = map(3, "Reef", false, Some(7));
    filed.atlas_name = Some("Coral".to_string());
    let unnamed = map(4, "Cliff", false, Some(8));
    let maps = vec![map(1, "Own", true, None), map(2, "Moor", false, None), filed, unnamed];
    let sharers = Some(SharerIndex::build(&vec![
        grant(60, Some("wbk"), 2),
        grant(50, None, 3),
        grant(50, None, 4),
    ]));
    let groups = shared_groups(&maps, &sharers, &vec![AreaId(2)]);
    let found: Vec<&str> = groups.iter().map(|group| group.label.as_str()).collect();
    assert_eq!(found, vec!["Shared by a friend", "Shared by wbk"]);
    assert_eq!(labels(&groups[0].folders), vec!["Coral", "Shared folder"]);
    assert_eq!(names(&groups[0].folders[0].areas), vec!["Reef"]);
    assert_eq!(groups[0].folders[0].areas[0].reshare_owner, None);
    assert_eq!(groups[0].folders[0].areas[0].scope_target, None);
    assert_eq!(names(&groups[1].loose), vec!["Moor"]);
    assert_eq!(groups[1].loose[0].reshare_owner, Some("Mo".to_string()));
    assert_eq!(groups[1].loose[0].sharer_label, Some("wbk".to_string()));
    assert_eq!(groups[1].loose[0].scope_target, Some(ScopeTarget::Area(AreaId(2))));
    assert!(groups[1].loose[0].in_family);
}

#[test]
fn without_grants_a_shared_area_stands_under_its_owner() {
    let groups = shared_groups(&vec![map(2, "Moor", false, None)], &None, &vec![]);
    assert_eq!(groups.len(), 1);
    assert_eq!(groups[0].label, "Shared by Mo");
    assert_eq!(groups[0].loose[0].reshare_owner, None);
}

// ===== Parting by server =====

fn table() -> ScopeTable {
    ScopeTable {
        atlases: vec![(AtlasId(1), ScopeState::Here), (AtlasId(2), ScopeState::Elsewhere)],
        areas: vec![(AreaId(10), ScopeState::Here), (AreaId(11), ScopeState::Elsewhere)],
        local_atlases: vec![AtlasId(2)],
    }
}

#[test]
fn what_is_not_listed_is_unassigned() {
    let table = table();
    assert_eq!(folder_scope(&table, FolderKey::Atlas(AtlasId(1))), ScopeState::Here);
    assert_eq!(folder_scope(&table, FolderKey::Atlas(AtlasId(2))), ScopeState::Here);
    assert_eq!(folder_scope(&table, FolderKey::Atlas(AtlasId(3))), ScopeState::Unassigned);
    assert_eq!(folder_scope(&table, FolderKey::Loose), ScopeState::Here);
    assert_eq!(area_scope(&table, AreaId(10)), ScopeState::Here);
    assert_eq!(area_scope(&table, AreaId(11)), ScopeState::Elsewhere);
    assert_eq!(area_scope(&table, AreaId(12)), ScopeState::Unassigned);
}

fn row(id: u128, name: &str) -> AreaSummary {
    AreaSummary {
        id: AreaId(id),
        name: name.to_string(),
        has_secrets: false,
        owned: false,
        can_edit: false,
        can_admin: false,
        enabled: true,
        reshare_owner: None,
        sharer_label: None,
        in_family: false,
        scope_target: Some(ScopeTarget::Area(AreaId(id))),
    }
}

fn folder(key: FolderKey, label: &str, areas: Vec<AreaSummary>) -> Folder {
    Folder { key, label: label.to_string(), areas, owned: true }
}

fn group() -> SharedGroup {
    SharedGroup {
        label: "Shared by wbk".to_string(),
        folders: vec![
            folder(FolderKey::Atlas(AtlasId(1)), "One", vec![]),
            folder(FolderKey::Atlas(AtlasId(3)), "Three", vec![]),
        ],
        loose: vec![row(10, "Ten"), row(11, "Eleven"), row(12, "Twelve")],
    }
}

#[test]
fn a_group_is_parted_without_loss() {
    let parts = partition_shared_group(group(), &table());
    assert_eq!(parts.here.label, "Shared by wbk");
    assert_eq!(labels(&parts.here.folders), vec!["One"]);
    assert_eq!(names(&parts.here.loose), vec!["Ten"]);
    assert_eq!(labels(&parts.unassigned.folders), vec!["Three"]);
    assert_eq!(names(&parts.unassigned.loose), vec!["Twelve"]);
    assert_eq!(labels(&parts.elsewhere.folders), Vec::<&str>::new());
    assert_eq!(names(&parts.elsewhere.loose), vec!["Eleven"]);
}

fn lines(items: &[ListItem]) -> Vec<String> {
    items
        .iter()
        .map(|item| match item {
            ListItem::GroupLabel(label) => format!("# {}", label),
            ListItem::BucketHeader(label) => format!("== {}", label),
            ListItem::Unassigned { count, collapsed } => format!("unassigned {} {}", count, collapsed),
            ListItem::Folder { folder, collapsed } => format!("[{}] {}", folder.label, collapsed),
            ListItem::Area(area) => area.name.clone(),
        })
        .collect()
}

fn own() -> Vec<Folder> {
    vec![
        folder(FolderKey::Atlas(AtlasId(1)), "Here", vec![row(20, "Twenty")]),
        folder(FolderKey::Atlas(AtlasId(4)), "Nowhere", vec![]),
        folder(FolderKey::Loose, "Loose maps", vec![row(21, "Last")]),
    ]
}

#[test]
fn one_server_shows_its_own_then_what_is_unassigned() {
    let items = render_this_server(own(), vec![group()], &table(), &vec![FolderKey::Loose]);
    assert_eq!(
        lines(&items),
        vec![
            "# My maps",
            "[Here] false",
            "[Loose maps] true",
            "# Shared by wbk",
            "[One] false",
            "Ten",
            "unassigned 3 false",
            "[Nowhere] false",
            "# Shared by wbk",
            "[Three] false",
            "Twelve",
        ]
    );
    let hidden = vec![FolderKey::Unassigned];
    let items = render_this_server(own(), vec![group()], &table(), &hidden);
    assert_eq!(lines(&items).last().map(|line| line.as_str()), Some("unassigned 3 true"));
    assert_eq!(lines(&render_this_server(vec![], vec![], &table(), &hidden)), Vec::<String>::new());
}

#[test]
fn all_atlases_are_parted_by_where_they_are_shown() {
    let items = render_all_buckets(own(), vec![group()], &table(), &vec![], "Aardwolf");
    assert_eq!(
        lines(&items),
        vec![
            "== On Aardwolf",
            "[Here] false",
            "[Loose maps] false",
            "# Shared by wbk",
            "[One] false",
            "Ten",
            "== Unassigned",
            "[Nowhere] false",
            "# Shared by wbk",
            "[Three] false",
            "Twelve",
            "== Other servers",
            "# Shared by wbk",
            "Eleven",
        ]
    );
}

#[test]
fn without_atlases_own_areas_stand_in_no_folder() {
    assert_eq!(lines(&render_flat(own(), vec![], &vec![], false)), vec!["Twenty", "Last"]);
    assert_eq!(
        lines(&render_flat(own(), vec![], &vec![], true)),
        vec!["[Here] false", "[Nowhere] false", "[Loose maps] false"]
    );
    assert_eq!(
        lines(&render_flat(vec![], vec![group()], &vec![], false)),
        vec!["# Shared by wbk", "[One] false", "[Three] false", "Ten", "Eleven", "Twelve"]
    );
    assert_eq!(lines(&render_flat(vec![], vec![group()], &vec![], true))[0], "# My maps");
}

#[test]
fn the_server_chooses_what_is_listed() {
    let server = Some("Aardwolf".to_string());
    let shown = |server: &Option<String>, all: bool, session: bool| {
        let session = if session { vec![row(30, "Live")] } else { vec![] };
        lines(&list_items(own(), vec![], session, &table(), &vec![], true, server, all))
    };
    assert_eq!(shown(&server, false, false), lines(&render_this_server(own(), vec![], &table(), &vec![])));
    assert_eq!(shown(&server, true, false)[0], "== On Aardwolf");
    assert_eq!(shown(&None, true, false), lines(&render_flat(own(), vec![], &vec![], true)));
    let with_session = shown(&None, false, true);
    assert_eq!(with_session[with_session.len() - 2..], ["# Session maps", "Live"]);
    assert!(scope_control(&None, true).is_none());
    assert!(scope_control(&server, true)
        .is_some_and(|control| control.this_server == "This server (Aardwolf)" && control.all_chosen));
}

// ===== Rows =====

#[test]
fn a_row_offers_what_the_viewer_may_do() {
    let mut area = row(1, "Moor");
    area.owned = true;
    let controls = area_row(&area, Some(AreaId(1)), None, true);
    assert!(controls.can_toggle && controls.can_move && controls.can_rename_and_delete && controls.can_transfer);
    assert_eq!(controls.servers, Some(ScopeTarget::Area(AreaId(1))));
    let controls = area_row(&area, Some(AreaId(2)), Some(AreaId(1)), true);
    assert!(controls.renaming);
    assert!(!controls.can_toggle && !controls.can_move && !controls.can_rename_and_delete && !controls.can_transfer);
    assert_eq!(controls.servers, None);
    assert!(!area_row(&area, Some(AreaId(1)), None, false).can_move);

    let mut shared = row(1, "Moor");
    shared.can_admin = true;
    shared.can_edit = true;
    let controls = area_row(&shared, Some(AreaId(1)), None, true);
    assert!(controls.tagged_admin && !controls.tagged_edit);
    assert!(controls.can_rename_and_delete && !controls.can_transfer && !controls.can_move);
    shared.can_admin = false;
    let controls = area_row(&shared, Some(AreaId(1)), None, true);
    assert!(!controls.tagged_admin && controls.tagged_edit && !controls.can_rename_and_delete);
}

#[test]
fn a_reshared_row_names_the_owner() {
    let mut area = row(1, "Moor");
    area.reshare_owner = Some("Mo".to_string());
    let badge = |area: &AreaSummary| area_row(area, None, None, false).owner_badge;
    assert_eq!(
        badge(&area),
        Some(("owned by Mo".to_string(), "Re-shared: a friend shared a map owned by Mo".to_string()))
    );
    area.sharer_label = Some("wbk".to_string());
    assert_eq!(badge(&area).map(|badge| badge.1), Some("Re-shared: wbk shared a map owned by Mo".to_string()));
    area.reshare_owner = None;
    assert_eq!(badge(&area), None);
}

#[test]
fn a_folder_counts_its_areas() {
    let id = AtlasId(1);
    let controls = folder_header(&folder(FolderKey::Atlas(id), "A", vec![]), Some(id), &vec![]);
    assert!(controls.renaming && controls.can_manage && controls.can_share);
    assert_eq!(controls.badge, "empty");
    assert_eq!(controls.servers, Some(ScopeTarget::Atlas(id)));
    let rows: Vec<AreaSummary> = (0..12).map(|n| row(n, "x")).collect();
    let controls = folder_header(&folder(FolderKey::Atlas(id), "A", rows), None, &vec![id]);
    assert_eq!(controls.badge, "12");
    assert!(!controls.renaming && controls.can_manage && !controls.can_share);
    assert_eq!(controls.servers, None);
    let controls = folder_header(&folder(FolderKey::Loose, "Loose maps", vec![row(1, "x")]), Some(id), &vec![]);
    assert!(!controls.renaming && !controls.can_manage && !controls.can_share);
    assert_eq!(controls.badge, "1");
}

// ===== Associations =====

fn tell(delta: &ScopeDelta) -> String {
    match delta {
        ScopeDelta::SetAtlasEntry { atlas_id, entry, show } => format!("atlas {} {} {}", atlas_id.0, entry, show),
        ScopeDelta::SetAreaEntry { area_id, entry, show } => format!("area {} {} {}", area_id.0, entry, show),
        ScopeDelta::SetAtlasEntries { atlas_id, entries } => format!("atlas {} = {}", atlas_id.0, entries.join(",")),
        ScopeDelta::SetAreaEntries { area_id, entries } => format!("area {} = {}", area_id.0, entries.join(",")),
        ScopeDelta::MarkSeen { atlas_id } => format!("seen {}", atlas_id.0),
    }
}

fn told(delta: Option<ScopeDelta>) -> Option<String> {
    delta.map(|delta| tell(&delta))
}

const LOOSE: AreaPlace = AreaPlace {
    area_id: AreaId(5),
    atlas_id: None,
    is_ephemeral: false,
    is_local: false,
    atlas_is_local: false,
    state: ScopeState::Unassigned,
};

#[test]
fn what_is_made_on_a_server_is_shown_there() {
    let server = Some("Aardwolf".to_string());
    assert_eq!(told(associate_new_atlas(&server, AtlasId(1), false)), Some("atlas 1 Aardwolf true".to_string()));
    assert_eq!(told(associate_new_atlas(&server, AtlasId(1), true)), None);
    assert_eq!(told(associate_new_atlas(&None, AtlasId(1), false)), None);
    assert_eq!(told(associate_new_area(&server, LOOSE)), Some("area 5 Aardwolf true".to_string()));
    assert_eq!(told(associate_new_area(&server, AreaPlace { atlas_id: Some(AtlasId(1)), ..LOOSE })), None);
    assert_eq!(told(associate_new_area(&server, AreaPlace { is_ephemeral: true, ..LOOSE })), None);
    assert_eq!(told(associate_new_area(&server, AreaPlace { is_local: true, ..LOOSE })), None);
    assert_eq!(tell(&set_entry(ScopeTarget::Area(AreaId(5)), "B".to_string(), false)), "area 5 B false");
}

#[test]
fn opening_what_is_unassigned_assigns_it() {
    let server = Some("Aardwolf".to_string());
    assert_eq!(told(associate_opened_area(&server, false, LOOSE)), Some("area 5 Aardwolf true".to_string()));
    let filed = AreaPlace { atlas_id: Some(AtlasId(1)), ..LOOSE };
    assert_eq!(told(associate_opened_area(&server, false, filed)), Some("atlas 1 Aardwolf true".to_string()));
    assert_eq!(told(associate_opened_area(&server, false, AreaPlace { atlas_is_local: true, ..filed })), None);
    assert_eq!(told(associate_opened_area(&server, true, LOOSE)), None);
    assert_eq!(told(associate_opened_area(&None, false, LOOSE)), None);
    assert_eq!(told(associate_opened_area(&server, false, AreaPlace { state: ScopeState::Elsewhere, ..LOOSE })), None);
}

#[test]
fn grants_home_atlases_before_areas() {
    let grant = |atlas: Option<u128>, area: Option<u128>, hints: &[&str]| HomingGrant {
        atlas_id: atlas.map(AtlasId),
        area_id: area.map(AreaId),
        host_hints: hints.iter().map(|hint| hint.to_string()).collect(),
    };
    let grants = vec![
        grant(None, Some(1), &["a"]),
        grant(None, Some(2), &["b"]),
        grant(Some(9), None, &["c", "d"]),
        grant(None, None, &["e"]),
    ];
    let areas = vec![(AreaId(1), None), (AreaId(2), Some(AtlasId(9)))];
    let targets = homing_targets(&grants, &areas);
    assert_eq!(targets.len(), 2);
    assert_eq!(targets[0].target, ScopeTarget::Area(AreaId(1)));
    assert_eq!(targets[0].hints, vec!["a"]);
    assert_eq!(targets[1].target, ScopeTarget::Atlas(AtlasId(9)));
    assert_eq!(targets[1].hints, vec!["b", "c", "d"]);
}

#[test]
fn homing_never_overwrites() {
    let evidence = |target: ScopeTarget, seen: bool, associated: bool, matched: &[&str]| HomingEvidence {
        target,
        seen,
        associated,
        matched: matched.iter().map(|server| server.to_string()).collect(),
    };
    let atlas = |id: u128| ScopeTarget::Atlas(AtlasId(id));
    let area = |id: u128| ScopeTarget::Area(AreaId(id));
    let deltas = apply_recipient_homing(&vec![
        evidence(atlas(1), false, false, &["A", "B"]),
        evidence(atlas(2), true, false, &["A"]),
        evidence(atlas(3), false, true, &["A"]),
        evidence(atlas(4), false, false, &[]),
        evidence(area(5), false, false, &["A"]),
        evidence(area(6), false, true, &["A"]),
        evidence(area(7), false, false, &[]),
    ]);
    let told: Vec<String> = deltas.iter().map(tell).collect();
    assert_eq!(told, vec!["atlas 1 = A,B", "seen 1", "seen 3", "seen 4", "area 5 = A"]);
}
