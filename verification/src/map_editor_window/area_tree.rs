//! The tree that the list of areas is shown as.

use vstd::prelude::*;

use super::area_list::{
    self, AreaSummary, Folder, FolderKey, FolderView, GroupView, SharedGroup, SummaryView,
};
use super::model::{AreaId, AtlasId};
use super::scopes::ScopeState;
use crate::list;

verus! {

/// Where atlases and areas are shown, seen from one server. What is not listed is
/// unassigned; local atlases are shown on every server.
pub struct ScopeTable {
    pub atlases: Vec<(AtlasId, ScopeState)>,
    pub areas: Vec<(AreaId, ScopeState)>,
    pub local_atlases: Vec<AtlasId>,
}

/// Whether an entry is about an atlas.
pub open spec fn is_of_atlas(entry: (AtlasId, ScopeState), id: AtlasId) -> bool {
    entry.0 == id
}

/// Whether an entry is about an area.
pub open spec fn is_of_area(entry: (AreaId, ScopeState), id: AreaId) -> bool {
    entry.0 == id
}

/// Where an atlas is shown.
pub open spec fn atlas_state(table: ScopeTable, id: AtlasId) -> ScopeState {
    match list::first(table.atlases@, |entry: (AtlasId, ScopeState)| is_of_atlas(entry, id)) {
        Some(entry) => entry.1,
        None => ScopeState::Unassigned,
    }
}

/// Where an area in no atlas is shown.
pub open spec fn area_state(table: ScopeTable, id: AreaId) -> ScopeState {
    match list::first(table.areas@, |entry: (AreaId, ScopeState)| is_of_area(entry, id)) {
        Some(entry) => entry.1,
        None => ScopeState::Unassigned,
    }
}

/// Where a folder is shown. Local atlases and the folder of areas in none are
/// not bound to servers.
pub open spec fn folder_state(table: ScopeTable, key: FolderKey) -> ScopeState {
    match key {
        FolderKey::Atlas(id) => if table.local_atlases@.contains(id) {
            ScopeState::Here
        } else {
            atlas_state(table, id)
        },
        _ => ScopeState::Here,
    }
}

fn is_local(table: &ScopeTable, id: AtlasId) -> (local: bool)
    ensures
        local == table.local_atlases@.contains(id),
{
    for i in 0..table.local_atlases.len()
        invariant
            forall|k: int| 0 <= k < i ==> table.local_atlases@[k] != id,
    {
        if table.local_atlases[i] == id {
            assert(table.local_atlases@[i as int] == id);
            return true;
        }
    }
    false
}

/// Where a folder is shown.
pub fn folder_scope(table: &ScopeTable, key: FolderKey) -> (state: ScopeState)
    ensures
        state == folder_state(*table, key),
{
    let id = match key {
        FolderKey::Atlas(id) => id,
        _ => {
            return ScopeState::Here;
        },
    };
    if is_local(table, id) {
        return ScopeState::Here;
    }
    let ghost p = |entry: (AtlasId, ScopeState)| is_of_atlas(entry, id);
    for i in 0..table.atlases.len()
        invariant
            p == (|entry: (AtlasId, ScopeState)| is_of_atlas(entry, id)),
            key == FolderKey::Atlas(id),
            !table.local_atlases@.contains(id),
            forall|k: int| 0 <= k < i ==> !p(#[trigger] table.atlases@[k]),
    {
        let (known, state) = table.atlases[i];
        if known == id {
            proof {
                list::lemma_first(table.atlases@, p, i as int);
            }
            return state;
        }
    }
    ScopeState::Unassigned
}

/// Where an area in no atlas is shown.
pub fn area_scope(table: &ScopeTable, id: AreaId) -> (state: ScopeState)
    ensures
        state == area_state(*table, id),
{
    let ghost p = |entry: (AreaId, ScopeState)| is_of_area(entry, id);
    for i in 0..table.areas.len()
        invariant
            p == (|entry: (AreaId, ScopeState)| is_of_area(entry, id)),
            forall|k: int| 0 <= k < i ==> !p(#[trigger] table.areas@[k]),
    {
        let (known, state) = table.areas[i];
        if known == id {
            proof {
                list::lemma_first(table.areas@, p, i as int);
            }
            return state;
        }
    }
    ScopeState::Unassigned
}

// ===== Parting by scope =====

/// The folders in a state.
pub open spec fn folders_in(
    folders: Seq<FolderView>,
    table: ScopeTable,
    state: ScopeState,
) -> Seq<FolderView> {
    list::kept(folders, |folder: FolderView| folder_state(table, folder.key) == state)
}

/// The areas in a state.
pub open spec fn areas_in(
    areas: Seq<SummaryView>,
    table: ScopeTable,
    state: ScopeState,
) -> Seq<SummaryView> {
    list::kept(areas, |area: SummaryView| area_state(table, area.id) == state)
}

/// The part of a sharer's group in a state, under the same label.
pub open spec fn group_in(group: GroupView, table: ScopeTable, state: ScopeState) -> GroupView {
    SharedGroup {
        label: group.label,
        folders: folders_in(group.folders, table, state),
        loose: areas_in(group.loose, table, state),
    }
}

/// Things parted by state.
pub struct Parted<X> {
    pub here: X,
    pub unassigned: X,
    pub elsewhere: X,
}

proof fn lemma_folder_kept(folders: Seq<FolderView>, table: ScopeTable, state: ScopeState, i: int)
    requires
        0 <= i < folders.len(),
    ensures
        folders_in(folders.take(i + 1), table, state) == if folder_state(table, folders[i].key)
            == state {
            folders_in(folders.take(i), table, state).push(folders[i])
        } else {
            folders_in(folders.take(i), table, state)
        },
{
    let p = |folder: FolderView| folder_state(table, folder.key) == state;
    let piece = |x: FolderView|
        if p(x) {
            seq![x]
        } else {
            Seq::empty()
        };
    list::lemma_collect_step(folders, piece, i);
    assert(list::kept(folders.take(i + 1), p) == list::collect(folders.take(i + 1), piece));
    assert(list::kept(folders.take(i), p) == list::collect(folders.take(i), piece));
    assert(piece(folders[i]) =~= if p(folders[i]) {
        seq![folders[i]]
    } else {
        Seq::empty()
    });
    assert(list::kept(folders.take(i), p) + Seq::empty() =~= list::kept(folders.take(i), p));
    assert(list::kept(folders.take(i), p) + seq![folders[i]] =~= list::kept(
        folders.take(i),
        p,
    ).push(folders[i]));
}

proof fn lemma_area_kept(areas: Seq<SummaryView>, table: ScopeTable, state: ScopeState, i: int)
    requires
        0 <= i < areas.len(),
    ensures
        areas_in(areas.take(i + 1), table, state) == if area_state(table, areas[i].id) == state {
            areas_in(areas.take(i), table, state).push(areas[i])
        } else {
            areas_in(areas.take(i), table, state)
        },
{
    let p = |area: SummaryView| area_state(table, area.id) == state;
    let piece = |x: SummaryView|
        if p(x) {
            seq![x]
        } else {
            Seq::empty()
        };
    list::lemma_collect_step(areas, piece, i);
    assert(list::kept(areas.take(i + 1), p) == list::collect(areas.take(i + 1), piece));
    assert(list::kept(areas.take(i), p) == list::collect(areas.take(i), piece));
    assert(list::kept(areas.take(i), p) + Seq::empty() =~= list::kept(areas.take(i), p));
    assert(list::kept(areas.take(i), p) + seq![areas[i]] =~= list::kept(areas.take(i), p).push(
        areas[i],
    ));
}

/// Parts folders by state.
pub(crate) fn part_folders(folders: Vec<Folder>, table: &ScopeTable) -> (parts: Parted<Vec<Folder>>)
    ensures
        area_list::folders_view(parts.here@) == folders_in(
            area_list::folders_view(folders@),
            *table,
            ScopeState::Here,
        ),
        area_list::folders_view(parts.unassigned@) == folders_in(
            area_list::folders_view(folders@),
            *table,
            ScopeState::Unassigned,
        ),
        area_list::folders_view(parts.elsewhere@) == folders_in(
            area_list::folders_view(folders@),
            *table,
            ScopeState::Elsewhere,
        ),
{
    let ghost all = area_list::folders_view(folders@);
    let mut here: Vec<Folder> = Vec::new();
    let mut unassigned: Vec<Folder> = Vec::new();
    let mut elsewhere: Vec<Folder> = Vec::new();
    let ghost given = folders@;
    assert(all.take(0) =~= Seq::empty());
    assert(area_list::folders_view(here@) =~= Seq::empty());
    assert(area_list::folders_view(unassigned@) =~= Seq::empty());
    assert(area_list::folders_view(elsewhere@) =~= Seq::empty());
    for folder in iter: folders
        invariant
            given == iter.seq(),
            all == area_list::folders_view(given),
            area_list::folders_view(here@) == folders_in(
                all.take(iter.index() as int),
                *table,
                ScopeState::Here,
            ),
            area_list::folders_view(unassigned@) == folders_in(
                all.take(iter.index() as int),
                *table,
                ScopeState::Unassigned,
            ),
            area_list::folders_view(elsewhere@) == folders_in(
                all.take(iter.index() as int),
                *table,
                ScopeState::Elsewhere,
            ),
    {
        let ghost i = iter.index() as int;
        let ghost (a, b, c) = (here@, unassigned@, elsewhere@);
        proof {
            assert(all[i] == folder@);
            lemma_folder_kept(all, *table, ScopeState::Here, i);
            lemma_folder_kept(all, *table, ScopeState::Unassigned, i);
            lemma_folder_kept(all, *table, ScopeState::Elsewhere, i);
        }
        let ghost view = folder@;
        match folder_scope(table, folder.key) {
            ScopeState::Here => {
                here.push(folder);
                assert(area_list::folders_view(here@) =~= area_list::folders_view(a).push(view));
            },
            ScopeState::Unassigned => {
                unassigned.push(folder);
                assert(area_list::folders_view(unassigned@) =~= area_list::folders_view(b).push(
                    view,
                ));
            },
            ScopeState::Elsewhere => {
                elsewhere.push(folder);
                assert(area_list::folders_view(elsewhere@) =~= area_list::folders_view(c).push(
                    view,
                ));
            },
        }
    }
    assert(all.take(all.len() as int) =~= all);
    Parted { here, unassigned, elsewhere }
}

/// Parts areas by state.
fn part_areas(areas: Vec<AreaSummary>, table: &ScopeTable) -> (parts: Parted<Vec<AreaSummary>>)
    ensures
        area_list::summaries(parts.here@) == areas_in(
            area_list::summaries(areas@),
            *table,
            ScopeState::Here,
        ),
        area_list::summaries(parts.unassigned@) == areas_in(
            area_list::summaries(areas@),
            *table,
            ScopeState::Unassigned,
        ),
        area_list::summaries(parts.elsewhere@) == areas_in(
            area_list::summaries(areas@),
            *table,
            ScopeState::Elsewhere,
        ),
{
    let ghost all = area_list::summaries(areas@);
    let mut here: Vec<AreaSummary> = Vec::new();
    let mut unassigned: Vec<AreaSummary> = Vec::new();
    let mut elsewhere: Vec<AreaSummary> = Vec::new();
    let ghost given = areas@;
    assert(all.take(0) =~= Seq::empty());
    assert(area_list::summaries(here@) =~= Seq::empty());
    assert(area_list::summaries(unassigned@) =~= Seq::empty());
    assert(area_list::summaries(elsewhere@) =~= Seq::empty());
    for area in iter: areas
        invariant
            given == iter.seq(),
            all == area_list::summaries(given),
            area_list::summaries(here@) == areas_in(
                all.take(iter.index() as int),
                *table,
                ScopeState::Here,
            ),
            area_list::summaries(unassigned@) == areas_in(
                all.take(iter.index() as int),
                *table,
                ScopeState::Unassigned,
            ),
            area_list::summaries(elsewhere@) == areas_in(
                all.take(iter.index() as int),
                *table,
                ScopeState::Elsewhere,
            ),
    {
        let ghost i = iter.index() as int;
        let ghost (a, b, c) = (here@, unassigned@, elsewhere@);
        proof {
            assert(all[i] == area@);
            lemma_area_kept(all, *table, ScopeState::Here, i);
            lemma_area_kept(all, *table, ScopeState::Unassigned, i);
            lemma_area_kept(all, *table, ScopeState::Elsewhere, i);
        }
        let ghost view = area@;
        match area_scope(table, area.id) {
            ScopeState::Here => {
                here.push(area);
                assert(area_list::summaries(here@) =~= area_list::summaries(a).push(view));
            },
            ScopeState::Unassigned => {
                unassigned.push(area);
                assert(area_list::summaries(unassigned@) =~= area_list::summaries(b).push(view));
            },
            ScopeState::Elsewhere => {
                elsewhere.push(area);
                assert(area_list::summaries(elsewhere@) =~= area_list::summaries(c).push(view));
            },
        }
    }
    assert(all.take(all.len() as int) =~= all);
    Parted { here, unassigned, elsewhere }
}

/// Parts what one sharer shared by state. The label goes with every part.
pub fn partition_shared_group(group: SharedGroup, table: &ScopeTable) -> (parts: Parted<SharedGroup>)
    ensures
        parts.here@ == group_in(group@, *table, ScopeState::Here),
        parts.unassigned@ == group_in(group@, *table, ScopeState::Unassigned),
        parts.elsewhere@ == group_in(group@, *table, ScopeState::Elsewhere),
{
    let label = group.label;
    let folders = part_folders(group.folders, table);
    let loose = part_areas(group.loose, table);
    Parted {
        here: SharedGroup { label: label.clone(), folders: folders.here, loose: loose.here },
        unassigned: SharedGroup {
            label: label.clone(),
            folders: folders.unassigned,
            loose: loose.unassigned,
        },
        elsewhere: SharedGroup { label, folders: folders.elsewhere, loose: loose.elsewhere },
    }
}

/// Parting what one sharer shared loses no folder and shows none twice.
pub proof fn law_parting_loses_nothing(group: GroupView, table: ScopeTable)
    ensures
        group_in(group, table, ScopeState::Here).folders.len() + group_in(
            group,
            table,
            ScopeState::Unassigned,
        ).folders.len() + group_in(group, table, ScopeState::Elsewhere).folders.len()
            == group.folders.len(),
        group_in(group, table, ScopeState::Here).loose.len() + group_in(
            group,
            table,
            ScopeState::Unassigned,
        ).loose.len() + group_in(group, table, ScopeState::Elsewhere).loose.len()
            == group.loose.len(),
        forall|folder: FolderView, state: ScopeState| #[trigger]
            group_in(group, table, state).folders.contains(folder) ==> group.folders.contains(
                folder,
            ) && folder_state(table, folder.key) == state,
        forall|area: SummaryView, state: ScopeState| #[trigger]
            group_in(group, table, state).loose.contains(area) ==> group.loose.contains(area)
                && area_state(table, area.id) == state,
{
    lemma_parting_folders(group.folders, table);
    lemma_parting_areas(group.loose, table);
    assert forall|folder: FolderView, state: ScopeState| #[trigger]
        group_in(group, table, state).folders.contains(folder) implies group.folders.contains(folder)
        && folder_state(table, folder.key) == state by {
        list::lemma_kept(
            group.folders,
            |folder: FolderView| folder_state(table, folder.key) == state,
            folder,
        );
    }
    assert forall|area: SummaryView, state: ScopeState| #[trigger]
        group_in(group, table, state).loose.contains(area) implies group.loose.contains(area)
        && area_state(table, area.id) == state by {
        list::lemma_kept(
            group.loose,
            |area: SummaryView| area_state(table, area.id) == state,
            area,
        );
    }
}

proof fn lemma_parting_folders(folders: Seq<FolderView>, table: ScopeTable)
    ensures
        folders_in(folders, table, ScopeState::Here).len() + folders_in(
            folders,
            table,
            ScopeState::Unassigned,
        ).len() + folders_in(folders, table, ScopeState::Elsewhere).len() == folders.len(),
    decreases folders.len(),
{
    if folders.len() > 0 {
        let rest = folders.drop_last();
        let i = folders.len() - 1;
        lemma_parting_folders(rest, table);
        assert(folders.take(i) =~= rest);
        assert(folders.take(i + 1) =~= folders);
        lemma_folder_kept(folders, table, ScopeState::Here, i);
        lemma_folder_kept(folders, table, ScopeState::Unassigned, i);
        lemma_folder_kept(folders, table, ScopeState::Elsewhere, i);
    }
}

proof fn lemma_parting_areas(areas: Seq<SummaryView>, table: ScopeTable)
    ensures
        areas_in(areas, table, ScopeState::Here).len() + areas_in(
            areas,
            table,
            ScopeState::Unassigned,
        ).len() + areas_in(areas, table, ScopeState::Elsewhere).len() == areas.len(),
    decreases areas.len(),
{
    if areas.len() > 0 {
        let rest = areas.drop_last();
        let i = areas.len() - 1;
        lemma_parting_areas(rest, table);
        assert(areas.take(i) =~= rest);
        assert(areas.take(i + 1) =~= areas);
        lemma_area_kept(areas, table, ScopeState::Here, i);
        lemma_area_kept(areas, table, ScopeState::Unassigned, i);
        lemma_area_kept(areas, table, ScopeState::Elsewhere, i);
    }
}

} // verus!
