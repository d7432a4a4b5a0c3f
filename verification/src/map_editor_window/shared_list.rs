//! The areas shared with the viewer, by sharer.

use vstd::prelude::*;

use super::area_list::{
    self, AreaSummary, Folder, FolderKey, FolderView, GroupView, MapInfo, SharedGroup, SummaryView,
};
use super::inspector::panel::holds_area;
use super::model::{AreaId, AtlasId, UserId};
use super::scopes::ScopeTarget;
use super::sharers::{self, label_of, owner_label, SharerIndex, SharerView};
use crate::list::{self, distinct_of};
use crate::text::{self, clone_opt, is_empty_text, join2};

verus! {

/// A shared area with its place in the list.
pub struct SharedRow<T = String> {
    pub sharer_id: UserId,
    pub label: T,
    pub atlas_id: Option<AtlasId>,
    pub atlas_name: T,
    pub summary: AreaSummary<T>,
}

pub type RowView = SharedRow<Seq<char>>;

impl View for SharedRow<String> {
    type V = RowView;

    open spec fn view(&self) -> RowView {
        SharedRow {
            sharer_id: self.sharer_id,
            label: self.label@,
            atlas_id: self.atlas_id,
            atlas_name: self.atlas_name@,
            summary: self.summary@,
        }
    }
}

/// The views of rows.
pub open spec fn rows_view(rows: Seq<SharedRow>) -> Seq<RowView> {
    rows.map_values(|row: SharedRow| row@)
}

/// The sharer of an area, as far as the index tells.
pub open spec fn resolved(map: MapInfo, sharers: Option<SharerIndex>) -> Option<SharerView> {
    match sharers {
        Some(index) => index.sharer(map.owner.area_id, map.owner.atlas_id),
        None => None,
    }
}

/// The name of a shared folder.
pub open spec fn folder_name(map: MapInfo) -> Seq<char> {
    match map.atlas_name {
        Some(name) => if name@.len() == 0 {
            "Shared folder"@
        } else {
            name@
        },
        None => "Shared folder"@,
    }
}

/// The row of a shared area: under who shared it, else under its owner.
pub open spec fn shared_row(
    map: MapInfo,
    sharers: Option<SharerIndex>,
    family: Seq<AreaId>,
) -> RowView {
    let sharer = resolved(map, sharers);
    let id = map.owner.area_id;
    let label = sharers::label(
        match sharer {
            Some(sharer) => sharer.nickname,
            None => text::opt_text(map.owner.owner_nickname),
        },
    );
    SharedRow {
        sharer_id: match sharer {
            Some(sharer) => sharer.user_id,
            None => match map.owner.owner_id {
                Some(owner_id) => owner_id,
                None => UserId(0),
            },
        },
        label,
        atlas_id: map.owner.atlas_id,
        atlas_name: folder_name(map),
        summary: AreaSummary {
            id,
            name: map.name@,
            has_secrets: map.has_secrets,
            owned: false,
            can_edit: map.can_edit,
            can_admin: map.can_admin,
            enabled: map.enabled,
            reshare_owner: match sharer {
                Some(sharer) => sharers::reshared_owner(map.owner, sharer),
                None => None,
            },
            sharer_label: Some(label),
            in_family: family.contains(id),
            scope_target: if map.owner.atlas_id is None {
                Some(ScopeTarget::Area(id))
            } else {
                None
            },
        },
    }
}

/// The rows of all areas that the viewer does not own.
pub open spec fn shared_rows(
    maps: Seq<MapInfo>,
    sharers: Option<SharerIndex>,
    family: Seq<AreaId>,
) -> Seq<RowView> {
    list::collect(
        maps,
        |map: MapInfo|
            if map.is_owner {
                Seq::empty()
            } else {
                seq![shared_row(map, sharers, family)]
            },
    )
}

/// The sharers, in the order in which they first come up.
pub open spec fn sharer_ids(rows: Seq<RowView>) -> Seq<UserId> {
    list::distinct(rows.map_values(|row: RowView| row.sharer_id))
}

/// The atlases of a sharer, in the order in which they first come up.
pub open spec fn sharer_atlases(rows: Seq<RowView>, sharer_id: UserId) -> Seq<AtlasId> {
    list::distinct(list::collect(rows, |row: RowView| row_atlas(row, sharer_id)))
}

/// The atlas of a row of a sharer.
pub open spec fn row_atlas(row: RowView, sharer_id: UserId) -> Seq<AtlasId> {
    if row.sharer_id == sharer_id {
        match row.atlas_id {
            Some(id) => seq![id],
            None => Seq::empty(),
        }
    } else {
        Seq::empty()
    }
}

/// Whether a row is of a sharer, and in `place`.
pub open spec fn is_in(row: RowView, sharer_id: UserId, place: Option<AtlasId>) -> bool {
    row.sharer_id == sharer_id && row.atlas_id == place
}

/// The areas of a sharer in `place`, by name.
pub open spec fn areas_in(
    rows: Seq<RowView>,
    sharer_id: UserId,
    place: Option<AtlasId>,
) -> Seq<SummaryView> {
    area_list::by_name(
        list::collect(
            rows,
            |row: RowView|
                if is_in(row, sharer_id, place) {
                    seq![row.summary]
                } else {
                    Seq::empty()
                },
        ),
    )
}

/// The folder of an atlas of a sharer, named as by its first area.
pub open spec fn shared_folder(rows: Seq<RowView>, sharer_id: UserId, id: AtlasId) -> FolderView {
    Folder {
        key: FolderKey::Atlas(id),
        label: list::first(rows, |row: RowView| is_in(row, sharer_id, Some(id)))->0.atlas_name,
        areas: areas_in(rows, sharer_id, Some(id)),
        owned: false,
    }
}

/// What one sharer shared, labelled as by the first area.
pub open spec fn shared_group(rows: Seq<RowView>, sharer_id: UserId) -> GroupView {
    SharedGroup {
        label: "Shared by "@ + list::first(
            rows,
            |row: RowView| row.sharer_id == sharer_id,
        )->0.label,
        folders: area_list::by_label(
            sharer_atlases(rows, sharer_id).map_values(
                |id: AtlasId| shared_folder(rows, sharer_id, id),
            ),
        ),
        loose: areas_in(rows, sharer_id, None),
    }
}

/// The groups of [`shared_groups`].
pub open spec fn groups_of(rows: Seq<RowView>) -> Seq<GroupView> {
    area_list::groups_by_label(
        sharer_ids(rows).map_values(|sharer_id: UserId| shared_group(rows, sharer_id)),
    )
}

/// The row of a shared area.
fn make_row(map: &MapInfo, sharers: &Option<SharerIndex>, family: &Vec<AreaId>) -> (row: SharedRow)
    ensures
        row@ == shared_row(*map, *sharers, family@),
{
    let id = map.owner.area_id;
    let found = match sharers {
        Some(index) => index.sharer_for(id, map.owner.atlas_id),
        None => None,
    };
    let (sharer_id, label, reshare_owner) = match found {
        Some(sharer) => (
            sharer.user_id,
            label_of(&sharer.nickname),
            owner_label(&map.owner, sharer),
        ),
        None => (
            match map.owner.owner_id {
                Some(owner_id) => owner_id,
                None => UserId(0),
            },
            label_of(&map.owner.owner_nickname),
            None,
        ),
    };
    let atlas_name = match &map.atlas_name {
        Some(name) => if is_empty_text(name) {
            "Shared folder".to_owned()
        } else {
            name.clone()
        },
        None => "Shared folder".to_owned(),
    };
    let scope_target = if map.owner.atlas_id.is_none() {
        Some(ScopeTarget::Area(id))
    } else {
        None
    };
    SharedRow {
        sharer_id,
        label: label.clone(),
        atlas_id: map.owner.atlas_id,
        atlas_name,
        summary: AreaSummary {
            id,
            name: map.name.clone(),
            has_secrets: map.has_secrets,
            owned: false,
            can_edit: map.can_edit,
            can_admin: map.can_admin,
            enabled: map.enabled,
            reshare_owner,
            sharer_label: Some(label),
            in_family: holds_area(family, id),
            scope_target,
        },
    }
}

/// The rows of all areas that the viewer does not own.
fn make_rows(maps: &Vec<MapInfo>, sharers: &Option<SharerIndex>, family: &Vec<AreaId>) -> (rows: Vec<
    SharedRow,
>)
    ensures
        rows_view(rows@) == shared_rows(maps@, *sharers, family@),
{
    let ghost piece = |map: MapInfo|
        if map.is_owner {
            Seq::empty()
        } else {
            seq![shared_row(map, *sharers, family@)]
        };
    let mut rows: Vec<SharedRow> = Vec::new();
    assert(maps@.take(0) =~= Seq::empty());
    assert(rows_view(rows@) =~= Seq::empty());
    for i in 0..maps.len()
        invariant
            piece == (|map: MapInfo|
                if map.is_owner {
                    Seq::empty()
                } else {
                    seq![shared_row(map, *sharers, family@)]
                }),
            rows_view(rows@) == list::collect(maps@.take(i as int), piece),
    {
        proof {
            list::lemma_collect_step(maps@, piece, i as int);
        }
        let ghost before = rows@;
        if !maps[i].is_owner {
            let row = make_row(&maps[i], sharers, family);
            rows.push(row);
        }
        assert(rows_view(rows@) =~= rows_view(before) + piece(maps@[i as int]));
    }
    assert(maps@.take(maps.len() as int) =~= maps@);
    rows
}

fn copy_summary(summary: &AreaSummary) -> (copied: AreaSummary)
    ensures
        copied@ == summary@,
{
    AreaSummary {
        id: summary.id,
        name: summary.name.clone(),
        has_secrets: summary.has_secrets,
        owned: summary.owned,
        can_edit: summary.can_edit,
        can_admin: summary.can_admin,
        enabled: summary.enabled,
        reshare_owner: clone_opt(&summary.reshare_owner),
        sharer_label: clone_opt(&summary.sharer_label),
        in_family: summary.in_family,
        scope_target: summary.scope_target,
    }
}

/// Whether a row is of a sharer, and in `place`.
fn row_in(row: &SharedRow, sharer_id: UserId, place: Option<AtlasId>) -> (inside: bool)
    ensures
        inside == is_in(row@, sharer_id, place),
{
    row.sharer_id == sharer_id && match (row.atlas_id, place) {
        (Some(a), Some(b)) => a == b,
        (None, None) => true,
        _ => false,
    }
}

/// The areas of a sharer in `place`, by name.
fn collect_areas(rows: &Vec<SharedRow>, sharer_id: UserId, place: Option<AtlasId>) -> (areas: Vec<
    AreaSummary,
>)
    ensures
        area_list::summaries(areas@) == areas_in(rows_view(rows@), sharer_id, place),
{
    let ghost all = rows_view(rows@);
    let ghost piece = |row: RowView|
        if is_in(row, sharer_id, place) {
            seq![row.summary]
        } else {
            Seq::empty()
        };
    let mut areas: Vec<AreaSummary> = Vec::new();
    assert(all.take(0) =~= Seq::empty());
    assert(area_list::summaries(areas@) =~= Seq::empty());
    for i in 0..rows.len()
        invariant
            all == rows_view(rows@),
            piece == (|row: RowView|
                if is_in(row, sharer_id, place) {
                    seq![row.summary]
                } else {
                    Seq::empty()
                }),
            area_list::summaries(areas@) == list::collect(all.take(i as int), piece),
    {
        proof {
            list::lemma_collect_step(all, piece, i as int);
        }
        let ghost before = areas@;
        assert(all[i as int] == rows@[i as int]@);
        if row_in(&rows[i], sharer_id, place) {
            areas.push(copy_summary(&rows[i].summary));
        }
        assert(area_list::summaries(areas@) =~= area_list::summaries(before) + piece(
            all[i as int],
        ));
    }
    assert(all.take(rows.len() as int) =~= all);
    area_list::sort_by_name(areas)
}

/// The folder of an atlas of a sharer.
fn make_folder(rows: &Vec<SharedRow>, sharer_id: UserId, id: AtlasId) -> (folder: Folder)
    requires
        exists|i: int|
            0 <= i < rows.len() && is_in((#[trigger] rows@[i])@, sharer_id, Some(id)),
    ensures
        folder@ == shared_folder(rows_view(rows@), sharer_id, id),
{
    let ghost all = rows_view(rows@);
    let ghost inside = |row: RowView| is_in(row, sharer_id, Some(id));
    let areas = collect_areas(rows, sharer_id, Some(id));
    let mut label = String::new();
    let mut found: bool = false;
    for i in 0..rows.len()
        invariant
            all == rows_view(rows@),
            inside == (|row: RowView| is_in(row, sharer_id, Some(id))),
            !found ==> forall|k: int| 0 <= k < i ==> !inside(#[trigger] all[k]),
            found ==> list::first(all, inside) is Some && label@ == list::first(
                all,
                inside,
            )->0.atlas_name,
    {
        assert(all[i as int] == rows@[i as int]@);
        if !found && row_in(&rows[i], sharer_id, Some(id)) {
            proof {
                list::lemma_first(all, inside, i as int);
            }
            label = rows[i].atlas_name.clone();
            found = true;
        }
    }
    proof {
        let i = choose|i: int|
            0 <= i < rows.len() && is_in((#[trigger] rows@[i])@, sharer_id, Some(id));
        assert(inside(all[i]));
    }
    Folder { key: FolderKey::Atlas(id), label, areas, owned: false }
}

/// The atlases of a sharer.
fn atlases_of(rows: &Vec<SharedRow>, sharer_id: UserId) -> (ids: Vec<AtlasId>)
    ensures
        ids@ == sharer_atlases(rows_view(rows@), sharer_id),
{
    let ghost all = rows_view(rows@);
    let ghost piece = |row: RowView| row_atlas(row, sharer_id);
    let mut found: Vec<AtlasId> = Vec::new();
    assert(all.take(0) =~= Seq::empty());
    for i in 0..rows.len()
        invariant
            all == rows_view(rows@),
            piece == (|row: RowView| row_atlas(row, sharer_id)),
            found@ == list::collect(all.take(i as int), piece),
    {
        proof {
            list::lemma_collect_step(all, piece, i as int);
        }
        let ghost before = found@;
        assert(all[i as int] == rows@[i as int]@);
        if rows[i].sharer_id == sharer_id {
            if let Some(id) = rows[i].atlas_id {
                found.push(id);
            }
        }
        assert(found@ =~= before + piece(all[i as int]));
    }
    assert(all.take(rows.len() as int) =~= all);
    let same = |a: &AtlasId, b: &AtlasId| -> (r: bool)
        ensures
            r == (*a == *b),
    {
        *a == *b
    };
    distinct_of(&found, same)
}

/// An atlas of a sharer is that of one of their rows.
proof fn lemma_atlas_row(rows: Seq<SharedRow>, sharer_id: UserId, k: int)
    requires
        0 <= k < sharer_atlases(rows_view(rows), sharer_id).len(),
    ensures
        exists|i: int|
            0 <= i < rows.len() && is_in(
                (#[trigger] rows[i])@,
                sharer_id,
                Some(sharer_atlases(rows_view(rows), sharer_id)[k]),
            ),
{
    let all = rows_view(rows);
    let piece = |row: RowView| row_atlas(row, sharer_id);
    let found = list::collect(all, piece);
    let id = sharer_atlases(all, sharer_id)[k];
    list::lemma_distinct(found);
    assert(list::distinct(found).contains(id));
    assert(found.contains(id));
    let m = choose|m: int| 0 <= m < found.len() && found[m] == id;
    list::lemma_collect_source(all, piece, m);
    let i = choose|i: int| 0 <= i < all.len() && (#[trigger] piece(all[i])).contains(found[m]);
    assert(all[i] == rows[i]@);
    assert(is_in(rows[i]@, sharer_id, Some(id)));
}

/// What one sharer shared.
fn make_group(rows: &Vec<SharedRow>, sharer_id: UserId) -> (group: SharedGroup)
    requires
        exists|i: int| 0 <= i < rows.len() && (#[trigger] rows@[i]).sharer_id == sharer_id,
    ensures
        group@ == shared_group(rows_view(rows@), sharer_id),
{
    let ghost all = rows_view(rows@);
    let ids = atlases_of(rows, sharer_id);
    let ghost made = |id: AtlasId| shared_folder(all, sharer_id, id);
    let mut folders: Vec<Folder> = Vec::new();
    assert(area_list::folders_view(folders@) =~= ids@.take(0).map_values(made));
    for k in 0..ids.len()
        invariant
            all == rows_view(rows@),
            ids@ == sharer_atlases(all, sharer_id),
            made == (|id: AtlasId| shared_folder(all, sharer_id, id)),
            area_list::folders_view(folders@) == ids@.take(k as int).map_values(made),
    {
        proof {
            lemma_atlas_row(rows@, sharer_id, k as int);
        }
        let ghost before = folders@;
        let folder = make_folder(rows, sharer_id, ids[k]);
        folders.push(folder);
        assert(area_list::folders_view(folders@) =~= area_list::folders_view(before).push(folder@));
        assert(ids@.take(k + 1).map_values(made) =~= ids@.take(k as int).map_values(made).push(
            made(ids@[k as int]),
        ));
    }
    assert(ids@.take(ids.len() as int) =~= ids@);
    let ghost theirs = |row: RowView| row.sharer_id == sharer_id;
    let mut label = String::new();
    let mut found: bool = false;
    for i in 0..rows.len()
        invariant
            all == rows_view(rows@),
            theirs == (|row: RowView| row.sharer_id == sharer_id),
            !found ==> forall|k: int| 0 <= k < i ==> !theirs(#[trigger] all[k]),
            found ==> list::first(all, theirs) is Some && label@ == list::first(
                all,
                theirs,
            )->0.label,
    {
        assert(all[i as int] == rows@[i as int]@);
        if !found && rows[i].sharer_id == sharer_id {
            proof {
                list::lemma_first(all, theirs, i as int);
            }
            label = rows[i].label.clone();
            found = true;
        }
    }
    proof {
        let i = choose|i: int| 0 <= i < rows.len() && (#[trigger] rows@[i]).sharer_id == sharer_id;
        assert(theirs(all[i]));
    }
    SharedGroup {
        label: join2("Shared by ", &label),
        folders: area_list::sort_folders(folders),
        loose: collect_areas(rows, sharer_id, None),
    }
}

/// The areas shared with the viewer by sharer, each with the folders of the
/// owner and the areas in none. Sharers are told apart by identity, so two
/// without a nickname stay two.
pub fn shared_groups(maps: &Vec<MapInfo>, sharers: &Option<SharerIndex>, family: &Vec<AreaId>) -> (groups:
    Vec<SharedGroup>)
    ensures
        area_list::groups_view(groups@) == groups_of(shared_rows(maps@, *sharers, family@)),
{
    let rows = make_rows(maps, sharers, family);
    let ghost all = rows_view(rows@);
    let ghost key = |row: RowView| row.sharer_id;
    let mut keys: Vec<UserId> = Vec::new();
    assert(keys@ =~= all.take(0).map_values(key));
    for i in 0..rows.len()
        invariant
            all == rows_view(rows@),
            key == (|row: RowView| row.sharer_id),
            keys@ == all.take(i as int).map_values(key),
    {
        assert(all[i as int] == rows@[i as int]@);
        keys.push(rows[i].sharer_id);
        assert(keys@ =~= all.take(i + 1).map_values(key));
    }
    assert(all.take(rows.len() as int) =~= all);
    let same = |a: &UserId, b: &UserId| -> (r: bool)
        ensures
            r == (*a == *b),
    {
        *a == *b
    };
    let ids = distinct_of(&keys, same);
    let ghost made = |sharer_id: UserId| shared_group(all, sharer_id);
    let mut groups: Vec<SharedGroup> = Vec::new();
    assert(area_list::groups_view(groups@) =~= ids@.take(0).map_values(made));
    for k in 0..ids.len()
        invariant
            all == rows_view(rows@),
            keys@ == all.map_values(|row: RowView| row.sharer_id),
            ids@ == list::distinct(keys@),
            made == (|sharer_id: UserId| shared_group(all, sharer_id)),
            area_list::groups_view(groups@) == ids@.take(k as int).map_values(made),
    {
        let ghost before = groups@;
        let id = ids[k];
        proof {
            list::lemma_distinct(keys@);
            assert(list::distinct(keys@)[k as int] == id);
            assert(list::distinct(keys@).contains(id));
            assert(keys@.contains(id));
            let i = choose|i: int| 0 <= i < keys@.len() && keys@[i] == id;
            assert(all[i] == rows@[i]@);
            assert(rows@[i].sharer_id == id);
        }
        let group = make_group(&rows, id);
        groups.push(group);
        assert(area_list::groups_view(groups@) =~= area_list::groups_view(before).push(group@));
        assert(ids@.take(k + 1).map_values(made) =~= ids@.take(k as int).map_values(made).push(
            made(ids@[k as int]),
        ));
    }
    assert(ids@.take(ids.len() as int) =~= ids@);
    area_list::sort_groups(groups)
}

// ===== What the groups hold =====

/// What is listed for a sharer in a place was shared by that sharer.
proof fn lemma_areas_in(rows: Seq<RowView>, sharer_id: UserId, place: Option<AtlasId>, area: SummaryView)
    requires
        areas_in(rows, sharer_id, place).contains(area),
    ensures
        exists|i: int|
            0 <= i < rows.len() && (#[trigger] rows[i]).sharer_id == sharer_id && rows[i].summary == area,
{
    let piece = |row: RowView|
        if is_in(row, sharer_id, place) {
            seq![row.summary]
        } else {
            Seq::empty()
        };
    let all = list::collect(rows, piece);
    list::lemma_in_order_holds(
        all,
        |a: SummaryView, b: SummaryView| area_list::name_before(a.name, b.name),
        area,
    );
    let k = choose|k: int| 0 <= k < all.len() && all[k] == area;
    list::lemma_collect_source(rows, piece, k);
    let i = choose|i: int| 0 <= i < rows.len() && (#[trigger] piece(rows[i])).contains(all[k]);
    assert(rows[i].sharer_id == sharer_id && rows[i].summary == area);
}

/// Every sharer has one group, and a group holds nothing of another sharer, whatever the
/// sharers are called: two without a nickname are two groups.
pub proof fn law_sharers_are_not_merged(rows: Seq<RowView>)
    ensures
        sharer_ids(rows).no_duplicates(),
        forall|i: int|
            0 <= i < rows.len() ==> sharer_ids(rows).contains((#[trigger] rows[i]).sharer_id),
        groups_of(rows).len() == sharer_ids(rows).len(),
        forall|sharer_id: UserId| #[trigger]
            sharer_ids(rows).contains(sharer_id) ==> groups_of(rows).contains(
                shared_group(rows, sharer_id),
            ),
        forall|sharer_id: UserId, area: SummaryView| #[trigger]
            group_holds(shared_group(rows, sharer_id), area) ==> exists|i: int|
                0 <= i < rows.len() && (#[trigger] rows[i]).sharer_id == sharer_id && rows[i].summary
                    == area,
{
    let ids = rows.map_values(|row: RowView| row.sharer_id);
    list::lemma_distinct(ids);
    assert forall|i: int| 0 <= i < rows.len() implies sharer_ids(rows).contains(
        (#[trigger] rows[i]).sharer_id,
    ) by {
        assert(ids[i] == rows[i].sharer_id);
    }
    let made = sharer_ids(rows).map_values(|sharer_id: UserId| shared_group(rows, sharer_id));
    let less = |a: GroupView, b: GroupView| area_list::name_before(a.label, b.label);
    assert forall|sharer_id: UserId| #[trigger] sharer_ids(rows).contains(sharer_id) implies groups_of(
        rows,
    ).contains(shared_group(rows, sharer_id)) by {
        let k = choose|k: int| 0 <= k < sharer_ids(rows).len() && sharer_ids(rows)[k] == sharer_id;
        assert(made[k] == shared_group(rows, sharer_id));
        list::lemma_in_order_holds(made, less, shared_group(rows, sharer_id));
    }
    assert(groups_of(rows).len() == made.len()) by {
        list::lemma_in_order_holds(made, less, made[0]);
    }
    assert forall|sharer_id: UserId, area: SummaryView| #[trigger]
        group_holds(shared_group(rows, sharer_id), area) implies exists|i: int|
        0 <= i < rows.len() && (#[trigger] rows[i]).sharer_id == sharer_id && rows[i].summary == area by {
        lemma_group_holds(rows, sharer_id, area);
    }
}

/// Whether a group lists an area, in a folder or in none.
pub open spec fn group_holds(group: GroupView, area: SummaryView) -> bool {
    group.loose.contains(area) || exists|k: int|
        0 <= k < group.folders.len() && (#[trigger] group.folders[k]).areas.contains(area)
}

proof fn lemma_group_holds(rows: Seq<RowView>, sharer_id: UserId, area: SummaryView)
    requires
        group_holds(shared_group(rows, sharer_id), area),
    ensures
        exists|i: int|
            0 <= i < rows.len() && (#[trigger] rows[i]).sharer_id == sharer_id && rows[i].summary == area,
{
    let group = shared_group(rows, sharer_id);
    if group.loose.contains(area) {
        lemma_areas_in(rows, sharer_id, None, area);
    } else {
        let k = choose|k: int|
            0 <= k < group.folders.len() && (#[trigger] group.folders[k]).areas.contains(area);
        let folder = group.folders[k];
        let made = sharer_atlases(rows, sharer_id).map_values(
            |id: AtlasId| shared_folder(rows, sharer_id, id),
        );
        list::lemma_in_order_holds(
            made,
            |a: FolderView, b: FolderView| area_list::name_before(a.label, b.label),
            folder,
        );
        let j = choose|j: int| 0 <= j < made.len() && made[j] == folder;
        lemma_areas_in(rows, sharer_id, Some(sharer_atlases(rows, sharer_id)[j]), area);
    }
}

} // verus!
