//! The list of areas: the viewer's own in folders, then those shared with them by
//! sharer.

use vstd::prelude::*;

use super::inspector::panel::holds_area;
use super::model::{AreaId, AtlasId};
use super::scopes::ScopeTarget;
use super::sharers::OwnerInfo;
use crate::list::{self, sort_by};
use crate::text::{self, same_text, text_before, to_lowercase};

verus! {

/// What the list reads of an area.
pub struct MapInfo {
    pub owner: OwnerInfo,
    pub name: String,
    pub has_secrets: bool,
    pub is_owner: bool,
    pub can_edit: bool,
    pub can_admin: bool,
    /// It is used to find the player's location.
    pub enabled: bool,
    pub atlas_name: Option<String>,
}

/// An atlas of the viewer.
pub struct AtlasItem {
    pub id: AtlasId,
    pub name: String,
}

/// A folder of the list.
#[derive(Clone, Copy, Debug, PartialEq, Eq, Structural)]
pub enum FolderKey {
    Atlas(AtlasId),
    /// Own areas in no atlas.
    Loose,
    /// What is associated with no server yet.
    Unassigned,
}

/// A row of the list.
pub struct AreaSummary<T = String> {
    pub id: AreaId,
    pub name: T,
    pub has_secrets: bool,
    pub owned: bool,
    pub can_edit: bool,
    pub can_admin: bool,
    pub enabled: bool,
    /// The owner, where that is not the sharer.
    pub reshare_owner: Option<T>,
    pub sharer_label: Option<T>,
    /// It is one of several copies.
    pub in_family: bool,
    /// What the row's servers are chosen for: set for cloud areas in no atlas.
    pub scope_target: Option<ScopeTarget>,
}

pub type SummaryView = AreaSummary<Seq<char>>;

impl View for AreaSummary<String> {
    type V = SummaryView;

    open spec fn view(&self) -> SummaryView {
        AreaSummary {
            id: self.id,
            name: self.name@,
            has_secrets: self.has_secrets,
            owned: self.owned,
            can_edit: self.can_edit,
            can_admin: self.can_admin,
            enabled: self.enabled,
            reshare_owner: text::opt_text(self.reshare_owner),
            sharer_label: text::opt_text(self.sharer_label),
            in_family: self.in_family,
            scope_target: self.scope_target,
        }
    }
}

/// The views of rows.
pub open spec fn summaries(rows: Seq<AreaSummary>) -> Seq<SummaryView> {
    rows.map_values(|row: AreaSummary| row@)
}

/// A folder with its rows.
pub struct Folder<T = String, A = Vec<AreaSummary>> {
    pub key: FolderKey,
    pub label: T,
    pub areas: A,
    pub owned: bool,
}

pub type FolderView = Folder<Seq<char>, Seq<SummaryView>>;

impl View for Folder<String, Vec<AreaSummary>> {
    type V = FolderView;

    open spec fn view(&self) -> FolderView {
        Folder {
            key: self.key,
            label: self.label@,
            areas: summaries(self.areas@),
            owned: self.owned,
        }
    }
}

/// The views of folders.
pub open spec fn folders_view(folders: Seq<Folder>) -> Seq<FolderView> {
    folders.map_values(|folder: Folder| folder@)
}

/// What one sharer shared: folders, and areas in no atlas.
pub struct SharedGroup<T = String, F = Vec<Folder>, A = Vec<AreaSummary>> {
    pub label: T,
    pub folders: F,
    pub loose: A,
}

pub type GroupView = SharedGroup<Seq<char>, Seq<FolderView>, Seq<SummaryView>>;

impl View for SharedGroup<String, Vec<Folder>, Vec<AreaSummary>> {
    type V = GroupView;

    open spec fn view(&self) -> GroupView {
        SharedGroup {
            label: self.label@,
            folders: folders_view(self.folders@),
            loose: summaries(self.loose@),
        }
    }
}

/// The views of groups.
pub open spec fn groups_view(groups: Seq<SharedGroup>) -> Seq<GroupView> {
    groups.map_values(|group: SharedGroup| group@)
}

// ===== Order =====

/// The order of names that come with what they are in lower case: by that, then by the
/// names themselves.
pub open spec fn cased_before(lower_a: Seq<char>, a: Seq<char>, lower_b: Seq<char>, b: Seq<char>) -> bool {
    text::text_less(lower_a, lower_b) || (lower_a == lower_b && text::text_less(a, b))
}

/// Whether one name comes before another, given both in lower case too.
pub fn cased_first(lower_a: &str, a: &str, lower_b: &str, b: &str) -> (first: bool)
    ensures
        first == cased_before(lower_a@, a@, lower_b@, b@),
{
    text_before(lower_a, lower_b) || (same_text(lower_a, lower_b) && text_before(a, b))
}

/// The order of names: without regard to case, then with it.
pub open spec fn name_before(a: Seq<char>, b: Seq<char>) -> bool {
    cased_before(text::lowercase(a), a, text::lowercase(b), b)
}

/// Whether one name comes before another.
pub(crate) fn name_first(a: &str, b: &str) -> (first: bool)
    ensures
        first == name_before(a@, b@),
{
    let lower_a = to_lowercase(a);
    let lower_b = to_lowercase(b);
    cased_first(&lower_a, a, &lower_b, b)
}

/// Rows by name.
pub open spec fn by_name(rows: Seq<SummaryView>) -> Seq<SummaryView> {
    list::in_order(rows, |a: SummaryView, b: SummaryView| name_before(a.name, b.name))
}

/// Sorts rows by name.
pub(crate) fn sort_by_name(rows: Vec<AreaSummary>) -> (sorted: Vec<AreaSummary>)
    ensures
        summaries(sorted@) == by_name(summaries(rows@)),
{
    let less = |a: &AreaSummary, b: &AreaSummary| -> (r: bool)
        ensures
            r == name_before(a@.name, b@.name),
    {
        name_first(&a.name, &b.name)
    };
    proof {
        list::lemma_in_order_map(
            rows@,
            |row: AreaSummary| row@,
            |a: AreaSummary, b: AreaSummary| name_before(a@.name, b@.name),
            |a: SummaryView, b: SummaryView| name_before(a.name, b.name),
        );
    }
    sort_by(
        rows,
        less,
        Ghost(|a: AreaSummary, b: AreaSummary| name_before(a@.name, b@.name)),
    )
}

/// Folders by label.
pub open spec fn by_label(folders: Seq<FolderView>) -> Seq<FolderView> {
    list::in_order(folders, |a: FolderView, b: FolderView| name_before(a.label, b.label))
}

pub(crate) fn sort_folders(folders: Vec<Folder>) -> (sorted: Vec<Folder>)
    ensures
        folders_view(sorted@) == by_label(folders_view(folders@)),
{
    let less = |a: &Folder, b: &Folder| -> (r: bool)
        ensures
            r == name_before(a@.label, b@.label),
    {
        name_first(&a.label, &b.label)
    };
    proof {
        list::lemma_in_order_map(
            folders@,
            |folder: Folder| folder@,
            |a: Folder, b: Folder| name_before(a@.label, b@.label),
            |a: FolderView, b: FolderView| name_before(a.label, b.label),
        );
    }
    sort_by(folders, less, Ghost(|a: Folder, b: Folder| name_before(a@.label, b@.label)))
}

/// Groups by label.
pub open spec fn groups_by_label(groups: Seq<GroupView>) -> Seq<GroupView> {
    list::in_order(groups, |a: GroupView, b: GroupView| name_before(a.label, b.label))
}

pub(crate) fn sort_groups(groups: Vec<SharedGroup>) -> (sorted: Vec<SharedGroup>)
    ensures
        groups_view(sorted@) == groups_by_label(groups_view(groups@)),
{
    let less = |a: &SharedGroup, b: &SharedGroup| -> (r: bool)
        ensures
            r == name_before(a@.label, b@.label),
    {
        name_first(&a.label, &b.label)
    };
    proof {
        list::lemma_in_order_map(
            groups@,
            |group: SharedGroup| group@,
            |a: SharedGroup, b: SharedGroup| name_before(a@.label, b@.label),
            |a: GroupView, b: GroupView| name_before(a.label, b.label),
        );
    }
    sort_by(
        groups,
        less,
        Ghost(|a: SharedGroup, b: SharedGroup| name_before(a@.label, b@.label)),
    )
}

// ===== The first area =====

/// A name with its area.
pub type Named = (Seq<char>, AreaId);

/// The areas that outlive the session, owned or not, with their names in lower
/// case.
pub open spec fn candidates(
    maps: Seq<MapInfo>,
    ephemeral: Seq<AreaId>,
    owned: bool,
) -> Seq<Named> {
    list::collect(
        maps,
        |map: MapInfo|
            if map.is_owner == owned && !ephemeral.contains(map.owner.area_id) {
                seq![(text::lowercase(map.name@), map.owner.area_id)]
            } else {
                Seq::empty()
            },
    )
}

/// The order of candidates by name.
pub open spec fn named_before(a: Named, b: Named) -> bool {
    text::text_less(a.0, b.0)
}

/// The area of [`first_of`].
pub open spec fn first_named(own: Seq<Named>, others: Seq<Named>) -> Option<AreaId> {
    let less = |a: Named, b: Named| named_before(a, b);
    let all = list::in_order(own, less) + list::in_order(others, less);
    if all.len() == 0 {
        None
    } else {
        Some(all[0].1)
    }
}

/// The area of [`first_area_id`].
pub open spec fn first_area(maps: Seq<MapInfo>, ephemeral: Seq<AreaId>) -> Option<AreaId> {
    first_named(candidates(maps, ephemeral, true), candidates(maps, ephemeral, false))
}

/// The view of a candidate.
pub open spec fn named_view(one: (String, AreaId)) -> Named {
    (one.0@, one.1)
}

fn named_first(a: &(String, AreaId), b: &(String, AreaId)) -> (first: bool)
    ensures
        first == named_before(named_view(*a), named_view(*b)),
{
    text_before(&a.0, &b.0)
}

/// The views of candidates.
pub open spec fn named_views(all: Seq<(String, AreaId)>) -> Seq<Named> {
    all.map_values(|one: (String, AreaId)| named_view(one))
}

/// The areas that outlive the session, owned or not, with their names in lower
/// case.
fn find_candidates(maps: &Vec<MapInfo>, ephemeral: &Vec<AreaId>, owned: bool) -> (found: Vec<
    (String, AreaId),
>)
    ensures
        named_views(found@) == candidates(maps@, ephemeral@, owned),
{
    let ghost piece = |map: MapInfo|
        if map.is_owner == owned && !ephemeral@.contains(map.owner.area_id) {
            seq![(text::lowercase(map.name@), map.owner.area_id)]
        } else {
            Seq::empty()
        };
    let mut found: Vec<(String, AreaId)> = Vec::new();
    assert(maps@.take(0) =~= Seq::empty());
    assert(named_views(found@) =~= Seq::empty());
    for i in 0..maps.len()
        invariant
            piece == (|map: MapInfo|
                if map.is_owner == owned && !ephemeral@.contains(map.owner.area_id) {
                    seq![(text::lowercase(map.name@), map.owner.area_id)]
                } else {
                    Seq::empty()
                }),
            named_views(found@) == list::collect(maps@.take(i as int), piece),
    {
        proof {
            list::lemma_collect_step(maps@, piece, i as int);
        }
        let ghost before = found@;
        let map = &maps[i];
        if map.is_owner == owned && !holds_area(ephemeral, map.owner.area_id) {
            found.push((to_lowercase(&map.name), map.owner.area_id));
        }
        assert(named_views(found@) =~= named_views(before) + piece(maps@[i as int]));
    }
    assert(maps@.take(maps.len() as int) =~= maps@);
    found
}

fn sort_named(found: Vec<(String, AreaId)>) -> (sorted: Vec<(String, AreaId)>)
    ensures
        named_views(sorted@) == list::in_order(
            named_views(found@),
            |a: Named, b: Named| named_before(a, b),
        ),
{
    let less = |a: &(String, AreaId), b: &(String, AreaId)| -> (r: bool)
        ensures
            r == named_before(named_view(*a), named_view(*b)),
    {
        named_first(a, b)
    };
    proof {
        list::lemma_in_order_map(
            found@,
            |one: (String, AreaId)| named_view(one),
            |a: (String, AreaId), b: (String, AreaId)| named_before(named_view(a), named_view(b)),
            |a: Named, b: Named| named_before(a, b),
        );
    }
    sort_by(
        found,
        less,
        Ghost(
            |a: (String, AreaId), b: (String, AreaId)| named_before(named_view(a), named_view(b)),
        ),
    )
}

/// The first of the own areas by name, else the first of the others; the names are in
/// lower case.
pub fn first_of(own: Vec<(String, AreaId)>, others: Vec<(String, AreaId)>) -> (id: Option<AreaId>)
    ensures
        id == first_named(named_views(own@), named_views(others@)),
{
    let own = sort_named(own);
    assert(named_views(own@).len() == own.len());
    if own.len() > 0 {
        assert(named_views(own@)[0] == named_view(own@[0]));
        return Some(own[0].1);
    }
    let others = sort_named(others);
    assert(named_views(others@).len() == others.len());
    if others.len() > 0 {
        assert(named_views(others@)[0] == named_view(others@[0]));
        return Some(others[0].1);
    }
    None
}

/// The area to fall back to: the first own one by name, else the first shared
/// one. One that goes with the session is none to fall back to.
pub fn first_area_id(maps: &Vec<MapInfo>, ephemeral: &Vec<AreaId>) -> (id: Option<AreaId>)
    ensures
        id == first_area(maps@, ephemeral@),
{
    let own = find_candidates(maps, ephemeral, true);
    let others = find_candidates(maps, ephemeral, false);
    first_of(own, others)
}

// ===== Own areas =====

/// What the list of own areas goes by besides the areas.
pub struct ListContext {
    /// The areas that are one of several copies.
    pub family: Vec<AreaId>,
    /// The areas that go with the session.
    pub ephemeral: Vec<AreaId>,
    pub local: Vec<AreaId>,
}

/// Whether the viewer has an atlas.
pub open spec fn has_atlas(atlases: Seq<AtlasItem>, id: AtlasId) -> bool {
    exists|i: int| 0 <= i < atlases.len() && (#[trigger] atlases[i]).id == id
}

/// The atlas that an own area is filed in. An atlas that is not listed, such as
/// one just deleted, files nothing.
pub open spec fn filed_in(map: MapInfo, atlases: Seq<AtlasItem>) -> Option<AtlasId> {
    match map.owner.atlas_id {
        Some(id) => if has_atlas(atlases, id) {
            Some(id)
        } else {
            None
        },
        None => None,
    }
}

/// The row of an own area.
pub open spec fn owned_summary(
    map: MapInfo,
    atlases: Seq<AtlasItem>,
    context: ListContext,
) -> SummaryView {
    let id = map.owner.area_id;
    AreaSummary {
        id,
        name: map.name@,
        has_secrets: map.has_secrets,
        owned: true,
        can_edit: map.can_edit,
        can_admin: map.can_admin,
        enabled: map.enabled,
        reshare_owner: None,
        sharer_label: None,
        in_family: context.family@.contains(id),
        scope_target: if filed_in(map, atlases) is None && !context.local@.contains(id) {
            Some(ScopeTarget::Area(id))
        } else {
            None
        },
    }
}

/// The row of an area, when it is an own one filed in `place`.
pub open spec fn owned_row(
    map: MapInfo,
    atlases: Seq<AtlasItem>,
    context: ListContext,
    place: Option<AtlasId>,
) -> Seq<SummaryView> {
    if map.is_owner && !context.ephemeral@.contains(map.owner.area_id) && filed_in(map, atlases)
        == place {
        seq![owned_summary(map, atlases, context)]
    } else {
        Seq::empty()
    }
}

/// The own areas filed in `place`, by name.
pub open spec fn owned_rows(
    maps: Seq<MapInfo>,
    atlases: Seq<AtlasItem>,
    context: ListContext,
    place: Option<AtlasId>,
) -> Seq<SummaryView> {
    by_name(
        list::collect(maps, |map: MapInfo| owned_row(map, atlases, context, place)),
    )
}

/// The viewer's atlases by name.
pub open spec fn inventory(atlases: Seq<AtlasItem>) -> Seq<AtlasItem> {
    list::in_order(atlases, |a: AtlasItem, b: AtlasItem| name_before(a.name@, b.name@))
}

/// The folder of an atlas. Should an atlas be listed twice, its areas are in the
/// first folder.
pub open spec fn atlas_folder(
    maps: Seq<MapInfo>,
    atlases: Seq<AtlasItem>,
    context: ListContext,
    k: int,
) -> FolderView {
    let item = inventory(atlases)[k];
    Folder {
        key: FolderKey::Atlas(item.id),
        label: item.name@,
        areas: if has_atlas(inventory(atlases).take(k), item.id) {
            Seq::empty()
        } else {
            owned_rows(maps, atlases, context, Some(item.id))
        },
        owned: true,
    }
}

/// The folder of own areas in no atlas, when there are any.
pub open spec fn loose_folder(
    maps: Seq<MapInfo>,
    atlases: Seq<AtlasItem>,
    context: ListContext,
) -> Seq<FolderView> {
    let areas = owned_rows(maps, atlases, context, None);
    if areas.len() == 0 {
        Seq::empty()
    } else {
        seq![Folder { key: FolderKey::Loose, label: "Loose maps"@, areas, owned: true }]
    }
}

/// The folders of [`owned_folders`].
pub open spec fn own_folders(
    maps: Seq<MapInfo>,
    atlases: Seq<AtlasItem>,
    context: ListContext,
) -> Seq<FolderView> {
    Seq::new(
        inventory(atlases).len(),
        |k: int| atlas_folder(maps, atlases, context, k),
    ) + loose_folder(maps, atlases, context)
}

/// Whether the viewer has an atlas.
fn lists_atlas(atlases: &Vec<AtlasItem>, id: AtlasId) -> (listed: bool)
    ensures
        listed == has_atlas(atlases@, id),
{
    for i in 0..atlases.len()
        invariant
            forall|k: int| 0 <= k < i ==> (#[trigger] atlases@[k]).id != id,
    {
        if atlases[i].id == id {
            return true;
        }
    }
    false
}

/// The own areas filed in `place`, by name.
fn collect_owned(
    maps: &Vec<MapInfo>,
    atlases: &Vec<AtlasItem>,
    context: &ListContext,
    place: Option<AtlasId>,
) -> (rows: Vec<AreaSummary>)
    ensures
        summaries(rows@) == owned_rows(maps@, atlases@, *context, place),
{
    let ghost piece = |map: MapInfo| owned_row(map, atlases@, *context, place);
    let mut rows: Vec<AreaSummary> = Vec::new();
    assert(maps@.take(0) =~= Seq::empty());
    assert(summaries(rows@) =~= Seq::empty());
    for i in 0..maps.len()
        invariant
            piece == (|map: MapInfo| owned_row(map, atlases@, *context, place)),
            summaries(rows@) == list::collect(maps@.take(i as int), piece),
    {
        proof {
            list::lemma_collect_step(maps@, piece, i as int);
        }
        let ghost before = rows@;
        let map = &maps[i];
        let id = map.owner.area_id;
        if map.is_owner && !holds_area(&context.ephemeral, id) {
            let filed = match map.owner.atlas_id {
                Some(atlas_id) => if lists_atlas(atlases, atlas_id) {
                    Some(atlas_id)
                } else {
                    None
                },
                None => None,
            };
            let wanted = match (filed, place) {
                (Some(a), Some(b)) => a == b,
                (None, None) => true,
                _ => false,
            };
            if wanted {
                rows.push(
                    AreaSummary {
                        id,
                        name: map.name.clone(),
                        has_secrets: map.has_secrets,
                        owned: true,
                        can_edit: map.can_edit,
                        can_admin: map.can_admin,
                        enabled: map.enabled,
                        reshare_owner: None,
                        sharer_label: None,
                        in_family: holds_area(&context.family, id),
                        scope_target: if filed.is_none() && !holds_area(&context.local, id) {
                            Some(ScopeTarget::Area(id))
                        } else {
                            None
                        },
                    },
                );
            }
        }
        assert(summaries(rows@) =~= summaries(before) + piece(maps@[i as int]));
    }
    assert(maps@.take(maps.len() as int) =~= maps@);
    sort_by_name(rows)
}

/// Atlases by reference.
pub open spec fn items(refs: Seq<&AtlasItem>) -> Seq<AtlasItem> {
    refs.map_values(|item: &AtlasItem| *item)
}

/// The viewer's atlases by name.
fn sort_atlases<'a>(atlases: &'a Vec<AtlasItem>) -> (sorted: Vec<&'a AtlasItem>)
    ensures
        items(sorted@) == inventory(atlases@),
{
    let mut refs: Vec<&'a AtlasItem> = Vec::new();
    for i in 0..atlases.len()
        invariant
            refs.len() == i,
            forall|k: int| 0 <= k < i ==> *(#[trigger] refs@[k]) == atlases@[k],
    {
        refs.push(&atlases[i]);
    }
    assert(items(refs@) =~= atlases@);
    let less = |a: &&'a AtlasItem, b: &&'a AtlasItem| -> (r: bool)
        ensures
            r == name_before((*a).name@, (*b).name@),
    {
        name_first(&a.name, &b.name)
    };
    proof {
        list::lemma_in_order_map(
            refs@,
            |item: &AtlasItem| *item,
            |a: &AtlasItem, b: &AtlasItem| name_before(a.name@, b.name@),
            |a: AtlasItem, b: AtlasItem| name_before(a.name@, b.name@),
        );
    }
    sort_by(refs, less, Ghost(|a: &AtlasItem, b: &AtlasItem| name_before(a.name@, b.name@)))
}

/// The viewer's own areas in folders: one for each atlas, also when it is empty,
/// and one for areas in no atlas when there are any. Areas that go with the
/// session are not among them.
pub fn owned_folders(maps: &Vec<MapInfo>, atlases: &Vec<AtlasItem>, context: &ListContext) -> (folders:
    Vec<Folder>)
    ensures
        folders_view(folders@) == own_folders(maps@, atlases@, *context),
{
    let sorted = sort_atlases(atlases);
    let ghost all = inventory(atlases@);
    let mut folders: Vec<Folder> = Vec::new();
    let ghost made = Seq::new(all.len(), |k: int| atlas_folder(maps@, atlases@, *context, k));
    assert(folders_view(folders@) =~= made.take(0));
    assert(items(sorted@).len() == sorted.len());
    for k in 0..sorted.len()
        invariant
            items(sorted@) == all,
            all == inventory(atlases@),
            made == Seq::new(all.len(), |k: int| atlas_folder(maps@, atlases@, *context, k)),
            sorted.len() == all.len(),
            folders_view(folders@) == made.take(k as int),
    {
        let ghost before = folders@;
        let item = sorted[k];
        assert(items(sorted@)[k as int] == *item);
        let mut again: bool = false;
        for j in 0..k
            invariant
                items(sorted@) == all,
                k < sorted.len(),
                *item == all[k as int],
                again == exists|m: int| 0 <= m < j && (#[trigger] all.take(k as int)[m]).id == item.id,
        {
            assert(items(sorted@)[j as int] == *sorted@[j as int]);
            assert(all.take(k as int)[j as int] == all[j as int]);
            if sorted[j].id == item.id {
                again = true;
            }
        }
        let areas = if again {
            let none: Vec<AreaSummary> = Vec::new();
            assert(summaries(none@) =~= Seq::empty());
            none
        } else {
            collect_owned(maps, atlases, context, Some(item.id))
        };
        let folder = Folder {
            key: FolderKey::Atlas(item.id),
            label: item.name.clone(),
            areas,
            owned: true,
        };
        folders.push(folder);
        assert(folder@ == made[k as int]);
        assert(folders_view(folders@) =~= folders_view(before).push(folder@));
        assert(made.take(k + 1) =~= made.take(k as int).push(made[k as int]));
    }
    assert(made.take(all.len() as int) =~= made);
    let loose = collect_owned(maps, atlases, context, None);
    let ghost before = folders@;
    assert(summaries(loose@).len() == loose.len());
    if loose.len() > 0 {
        let folder = Folder {
            key: FolderKey::Loose,
            label: "Loose maps".to_owned(),
            areas: loose,
            owned: true,
        };
        folders.push(folder);
        assert(folders_view(folders@) =~= folders_view(before).push(folder@));
        assert(folders_view(folders@) =~= own_folders(maps@, atlases@, *context));
    } else {
        assert(folders_view(folders@) =~= own_folders(maps@, atlases@, *context));
    }
    folders
}

/// The row of an area that goes with the session.
pub open spec fn session_row(map: MapInfo, ephemeral: Seq<AreaId>) -> Seq<SummaryView> {
    if ephemeral.contains(map.owner.area_id) {
        seq![
            AreaSummary {
                id: map.owner.area_id,
                name: map.name@,
                has_secrets: false,
                owned: true,
                can_edit: true,
                can_admin: true,
                enabled: map.enabled,
                reshare_owner: None,
                sharer_label: None,
                in_family: false,
                scope_target: None,
            },
        ]
    } else {
        Seq::empty()
    }
}

/// The areas that go with the session, by name.
pub fn session_maps(maps: &Vec<MapInfo>, ephemeral: &Vec<AreaId>) -> (rows: Vec<AreaSummary>)
    ensures
        summaries(rows@) == by_name(
            list::collect(maps@, |map: MapInfo| session_row(map, ephemeral@)),
        ),
{
    let ghost piece = |map: MapInfo| session_row(map, ephemeral@);
    let mut rows: Vec<AreaSummary> = Vec::new();
    assert(maps@.take(0) =~= Seq::empty());
    assert(summaries(rows@) =~= Seq::empty());
    for i in 0..maps.len()
        invariant
            piece == (|map: MapInfo| session_row(map, ephemeral@)),
            summaries(rows@) == list::collect(maps@.take(i as int), piece),
    {
        proof {
            list::lemma_collect_step(maps@, piece, i as int);
        }
        let ghost before = rows@;
        let map = &maps[i];
        if holds_area(ephemeral, map.owner.area_id) {
            rows.push(
                AreaSummary {
                    id: map.owner.area_id,
                    name: map.name.clone(),
                    has_secrets: false,
                    owned: true,
                    can_edit: true,
                    can_admin: true,
                    enabled: map.enabled,
                    reshare_owner: None,
                    sharer_label: None,
                    in_family: false,
                    scope_target: None,
                },
            );
        }
        assert(summaries(rows@) =~= summaries(before) + piece(maps@[i as int]));
    }
    assert(maps@.take(maps.len() as int) =~= maps@);
    sort_by_name(rows)
}

// ===== What the folders hold =====

/// An area is in the rows of a place only if it is an own one that does not go with the
/// session, and that is filed there.
proof fn lemma_owned_rows(
    maps: Seq<MapInfo>,
    atlases: Seq<AtlasItem>,
    context: ListContext,
    place: Option<AtlasId>,
    row: SummaryView,
)
    requires
        owned_rows(maps, atlases, context, place).contains(row),
    ensures
        row.owned,
        !context.ephemeral@.contains(row.id),
{
    let piece = |map: MapInfo| owned_row(map, atlases, context, place);
    let all = list::collect(maps, piece);
    list::lemma_in_order_holds(
        all,
        |a: SummaryView, b: SummaryView| name_before(a.name, b.name),
        row,
    );
    let k = choose|k: int| 0 <= k < all.len() && all[k] == row;
    list::lemma_collect_source(maps, piece, k);
}

/// The folders hold the viewer's own areas only, and none that goes with the session.
pub proof fn law_session_maps_are_in_no_folder(
    maps: Seq<MapInfo>,
    atlases: Seq<AtlasItem>,
    context: ListContext,
    k: int,
    row: SummaryView,
)
    requires
        0 <= k < own_folders(maps, atlases, context).len(),
        own_folders(maps, atlases, context)[k].areas.contains(row),
    ensures
        row.owned,
        !context.ephemeral@.contains(row.id),
{
    let count = inventory(atlases).len();
    if k < count {
        let item = inventory(atlases)[k];
        assert(own_folders(maps, atlases, context)[k] == atlas_folder(maps, atlases, context, k));
        lemma_owned_rows(maps, atlases, context, Some(item.id), row);
    } else {
        assert(own_folders(maps, atlases, context)[k] == loose_folder(maps, atlases, context)[k
            - count]);
        lemma_owned_rows(maps, atlases, context, None, row);
    }
}

/// The row of an own area is among those of the place that it is filed in.
proof fn lemma_own_map_has_a_row(
    maps: Seq<MapInfo>,
    atlases: Seq<AtlasItem>,
    context: ListContext,
    i: int,
)
    requires
        0 <= i < maps.len(),
        maps[i].is_owner,
        !context.ephemeral@.contains(maps[i].owner.area_id),
    ensures
        owned_rows(maps, atlases, context, filed_in(maps[i], atlases)).contains(
            owned_summary(maps[i], atlases, context),
        ),
{
    let place = filed_in(maps[i], atlases);
    let piece = |map: MapInfo| owned_row(map, atlases, context, place);
    let row = owned_summary(maps[i], atlases, context);
    assert(piece(maps[i])[0] == row);
    list::lemma_collect_contains(maps, piece, i, row);
    list::lemma_in_order_holds(
        list::collect(maps, piece),
        |a: SummaryView, b: SummaryView| name_before(a.name, b.name),
        row,
    );
}

/// An atlas that is listed has a place in the inventory.
proof fn lemma_listed_atlas(atlases: Seq<AtlasItem>, id: AtlasId) -> (k: int)
    requires
        has_atlas(atlases, id),
    ensures
        0 <= k < inventory(atlases).len(),
        inventory(atlases)[k].id == id,
        !has_atlas(inventory(atlases).take(k), id),
{
    let all = inventory(atlases);
    let i = choose|i: int| 0 <= i < atlases.len() && (#[trigger] atlases[i]).id == id;
    list::lemma_in_order_holds(
        atlases,
        |a: AtlasItem, b: AtlasItem| name_before(a.name@, b.name@),
        atlases[i],
    );
    let j = choose|j: int| 0 <= j < all.len() && all[j] == atlases[i];
    lemma_first_listed(all, id, j)
}

/// Where an atlas is listed first.
proof fn lemma_first_listed(all: Seq<AtlasItem>, id: AtlasId, j: int) -> (k: int)
    requires
        0 <= j < all.len(),
        all[j].id == id,
    ensures
        0 <= k < all.len(),
        all[k].id == id,
        !has_atlas(all.take(k), id),
    decreases j,
{
    if has_atlas(all.take(j), id) {
        let i = choose|i: int| 0 <= i < all.take(j).len() && (#[trigger] all.take(j)[i]).id == id;
        assert(all[i].id == id);
        lemma_first_listed(all, id, i)
    } else {
        j
    }
}

/// Every own area that does not go with the session is in a folder.
pub proof fn law_every_own_map_is_in_a_folder(
    maps: Seq<MapInfo>,
    atlases: Seq<AtlasItem>,
    context: ListContext,
    i: int,
)
    requires
        0 <= i < maps.len(),
        maps[i].is_owner,
        !context.ephemeral@.contains(maps[i].owner.area_id),
    ensures
        exists|k: int|
            0 <= k < own_folders(maps, atlases, context).len() && (#[trigger] own_folders(
                maps,
                atlases,
                context,
            )[k]).areas.contains(owned_summary(maps[i], atlases, context)),
{
    let row = owned_summary(maps[i], atlases, context);
    let all = own_folders(maps, atlases, context);
    let count = inventory(atlases).len();
    lemma_own_map_has_a_row(maps, atlases, context, i);
    match filed_in(maps[i], atlases) {
        Some(id) => {
            let k = lemma_listed_atlas(atlases, id);
            assert(all[k] == atlas_folder(maps, atlases, context, k));
            assert(all[k].areas.contains(row));
        },
        None => {
            let loose = loose_folder(maps, atlases, context);
            assert(loose.len() == 1);
            assert(all[count as int] == loose[0]);
            assert(all[count as int].areas.contains(row));
        },
    }
}

} // verus!
