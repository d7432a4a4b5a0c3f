//! What the list of areas shows, line by line.

use vstd::prelude::*;

use super::area_list::{
    self, AreaSummary, Folder, FolderKey, FolderView, GroupView, SharedGroup, SummaryView,
};
use super::area_tree::{self, partition_shared_group, ScopeTable};
use super::model::{AreaId, AtlasId};
use super::scopes::{ScopeState, ScopeTarget};
use crate::list;
use crate::text::{self, decimal_text, join2, join3};

verus! {

/// A line of the list.
pub enum ListItem<T = String, F = Folder, A = AreaSummary> {
    GroupLabel(T),
    BucketHeader(T),
    /// The head of what is associated with no server, and how much it is.
    Unassigned { count: usize, collapsed: bool },
    /// A folder, with its areas unless it is collapsed.
    Folder { folder: F, collapsed: bool },
    Area(A),
}

pub type ItemView = ListItem<Seq<char>, FolderView, SummaryView>;

impl View for ListItem<String, Folder, AreaSummary> {
    type V = ItemView;

    open spec fn view(&self) -> ItemView {
        match *self {
            ListItem::GroupLabel(label) => ListItem::GroupLabel(label@),
            ListItem::BucketHeader(label) => ListItem::BucketHeader(label@),
            ListItem::Unassigned { count, collapsed } => ListItem::Unassigned { count, collapsed },
            ListItem::Folder { folder, collapsed } => ListItem::Folder {
                folder: folder@,
                collapsed,
            },
            ListItem::Area(area) => ListItem::Area(area@),
        }
    }
}

/// The views of lines.
pub open spec fn items_view(items: Seq<ListItem>) -> Seq<ItemView> {
    items.map_values(|item: ListItem| item@)
}

/// Folders as lines.
pub open spec fn folder_items(folders: Seq<FolderView>, collapsed: Seq<FolderKey>) -> Seq<ItemView> {
    folders.map_values(
        |folder: FolderView|
            ListItem::Folder { folder, collapsed: collapsed.contains(folder.key) },
    )
}

/// Areas as lines.
pub open spec fn area_items(areas: Seq<SummaryView>) -> Seq<ItemView> {
    areas.map_values(|area: SummaryView| ListItem::Area(area))
}

/// What one sharer shared as lines.
pub open spec fn group_items(group: GroupView, collapsed: Seq<FolderKey>) -> Seq<ItemView> {
    seq![ListItem::GroupLabel(group.label)] + folder_items(group.folders, collapsed) + area_items(
        group.loose,
    )
}

/// What several sharers shared as lines.
pub open spec fn groups_items(groups: Seq<GroupView>, collapsed: Seq<FolderKey>) -> Seq<ItemView> {
    list::collect(groups, |group: GroupView| group_items(group, collapsed))
}

/// Whether a group holds anything.
pub open spec fn holds_any(group: GroupView) -> bool {
    group.folders.len() > 0 || group.loose.len() > 0
}

/// The parts of groups in a state that hold anything.
pub open spec fn parts_in(
    groups: Seq<GroupView>,
    table: ScopeTable,
    state: ScopeState,
) -> Seq<GroupView> {
    list::collect(groups, |group: GroupView| part_in(group, table, state))
}

/// The part of a group in a state, when it holds anything.
pub open spec fn part_in(group: GroupView, table: ScopeTable, state: ScopeState) -> Seq<GroupView> {
    let part = area_tree::group_in(group, table, state);
    if holds_any(part) {
        seq![part]
    } else {
        Seq::empty()
    }
}

/// How many folders and areas groups hold.
pub open spec fn group_count(groups: Seq<GroupView>) -> nat
    decreases groups.len(),
{
    if groups.len() == 0 {
        0
    } else {
        group_count(groups.drop_last()) + groups.last().folders.len() + groups.last().loose.len()
    }
}

/// How much is associated with no server.
pub open spec fn unassigned_count(
    folders: Seq<FolderView>,
    shared: Seq<GroupView>,
    table: ScopeTable,
) -> nat {
    area_tree::folders_in(folders, table, ScopeState::Unassigned).len() + group_count(
        parts_in(shared, table, ScopeState::Unassigned),
    )
}

/// The list for one server: what is shown there, then what is associated with
/// none.
pub open spec fn server_items(
    folders: Seq<FolderView>,
    shared: Seq<GroupView>,
    table: ScopeTable,
    collapsed: Seq<FolderKey>,
) -> Seq<ItemView> {
    let here = area_tree::folders_in(folders, table, ScopeState::Here);
    let unassigned = area_tree::folders_in(folders, table, ScopeState::Unassigned);
    let shared_unassigned = parts_in(shared, table, ScopeState::Unassigned);
    let count = unassigned_count(folders, shared, table);
    let hidden = collapsed.contains(FolderKey::Unassigned);
    let label = if shared.len() > 0 && here.len() > 0 {
        seq![ListItem::GroupLabel("My maps"@)]
    } else {
        Seq::empty()
    };
    let rest = if count == 0 {
        Seq::empty()
    } else {
        seq![ListItem::Unassigned { count: count as usize, collapsed: hidden }] + (if hidden {
            Seq::empty()
        } else {
            folder_items(unassigned, collapsed) + groups_items(shared_unassigned, collapsed)
        })
    };
    label + folder_items(here, collapsed) + groups_items(
        parts_in(shared, table, ScopeState::Here),
        collapsed,
    ) + rest
}

/// One part of the list of all atlases.
pub open spec fn bucket_items(
    header: Seq<char>,
    folders: Seq<FolderView>,
    shared: Seq<GroupView>,
    collapsed: Seq<FolderKey>,
) -> Seq<ItemView> {
    if folders.len() == 0 && shared.len() == 0 {
        Seq::empty()
    } else {
        seq![ListItem::BucketHeader(header)] + folder_items(folders, collapsed) + groups_items(
            shared,
            collapsed,
        )
    }
}

/// The list of all atlases, parted by where they are shown.
pub open spec fn bucketed_items(
    folders: Seq<FolderView>,
    shared: Seq<GroupView>,
    table: ScopeTable,
    collapsed: Seq<FolderKey>,
    server: Seq<char>,
) -> Seq<ItemView> {
    bucket_items(
        "On "@ + server,
        area_tree::folders_in(folders, table, ScopeState::Here),
        parts_in(shared, table, ScopeState::Here),
        collapsed,
    ) + bucket_items(
        "Unassigned"@,
        area_tree::folders_in(folders, table, ScopeState::Unassigned),
        parts_in(shared, table, ScopeState::Unassigned),
        collapsed,
    ) + bucket_items(
        "Other servers"@,
        area_tree::folders_in(folders, table, ScopeState::Elsewhere),
        parts_in(shared, table, ScopeState::Elsewhere),
        collapsed,
    )
}

/// The list without a server in view. Without atlases of the viewer, their areas
/// are listed without a folder.
pub open spec fn flat_items(
    folders: Seq<FolderView>,
    shared: Seq<GroupView>,
    collapsed: Seq<FolderKey>,
    has_atlases: bool,
) -> Seq<ItemView> {
    let label = if shared.len() > 0 {
        seq![ListItem::GroupLabel("My maps"@)]
    } else {
        Seq::empty()
    };
    let owned = list::collect(folders, |folder: FolderView| folder.areas);
    let own = if has_atlases {
        label + folder_items(folders, collapsed)
    } else if owned.len() > 0 {
        label + area_items(owned)
    } else {
        Seq::empty()
    };
    own + groups_items(shared, collapsed)
}

// ===== Building =====

fn holds_key(keys: &Vec<FolderKey>, key: FolderKey) -> (held: bool)
    ensures
        held == keys@.contains(key),
{
    for i in 0..keys.len()
        invariant
            forall|k: int| 0 <= k < i ==> keys@[k] != key,
    {
        if keys[i] == key {
            assert(keys@[i as int] == key);
            return true;
        }
    }
    false
}

fn push_item(items: &mut Vec<ListItem>, item: ListItem)
    ensures
        items_view(final(items)@) == items_view(old(items)@).push(item@),
{
    let ghost before = items@;
    items.push(item);
    assert(items_view(items@) =~= items_view(before).push(item@));
}

fn push_folders(items: &mut Vec<ListItem>, folders: Vec<Folder>, collapsed: &Vec<FolderKey>)
    ensures
        items_view(final(items)@) == items_view(old(items)@) + folder_items(
            area_list::folders_view(folders@),
            collapsed@,
        ),
{
    let ghost before = items_view(items@);
    let ghost all = area_list::folders_view(folders@);
    let ghost given = folders@;
    let ghost lines = folder_items(all, collapsed@);
    assert(items_view(items@) =~= before + lines.take(0));
    for folder in iter: folders
        invariant
            given == iter.seq(),
            all == area_list::folders_view(given),
            lines == folder_items(all, collapsed@),
            items_view(items@) == before + lines.take(iter.index() as int),
    {
        let ghost i = iter.index() as int;
        let ghost so_far = items_view(items@);
        assert(all[i] == folder@);
        let hidden = holds_key(collapsed, folder.key);
        let item = ListItem::Folder { folder, collapsed: hidden };
        push_item(items, item);
        assert(item@ == lines[i]);
        assert(items_view(items@) =~= before + lines.take(i + 1));
    }
    assert(lines.take(all.len() as int) =~= lines);
}

fn push_areas(items: &mut Vec<ListItem>, areas: Vec<AreaSummary>)
    ensures
        items_view(final(items)@) == items_view(old(items)@) + area_items(
            area_list::summaries(areas@),
        ),
{
    let ghost before = items_view(items@);
    let ghost all = area_list::summaries(areas@);
    let ghost given = areas@;
    let ghost lines = area_items(all);
    assert(items_view(items@) =~= before + lines.take(0));
    for area in iter: areas
        invariant
            given == iter.seq(),
            all == area_list::summaries(given),
            lines == area_items(all),
            items_view(items@) == before + lines.take(iter.index() as int),
    {
        let ghost i = iter.index() as int;
        assert(all[i] == area@);
        let item = ListItem::Area(area);
        push_item(items, item);
        assert(item@ == lines[i]);
        assert(items_view(items@) =~= before + lines.take(i + 1));
    }
    assert(lines.take(all.len() as int) =~= lines);
}

fn push_groups(items: &mut Vec<ListItem>, groups: Vec<SharedGroup>, collapsed: &Vec<FolderKey>)
    ensures
        items_view(final(items)@) == items_view(old(items)@) + groups_items(
            area_list::groups_view(groups@),
            collapsed@,
        ),
{
    let ghost before = items_view(items@);
    let ghost all = area_list::groups_view(groups@);
    let ghost given = groups@;
    let ghost piece = |group: GroupView| group_items(group, collapsed@);
    assert(all.take(0) =~= Seq::empty());
    assert(items_view(items@) =~= before + list::collect(all.take(0), piece));
    for group in iter: groups
        invariant
            given == iter.seq(),
            all == area_list::groups_view(given),
            piece == (|group: GroupView| group_items(group, collapsed@)),
            items_view(items@) == before + list::collect(all.take(iter.index() as int), piece),
    {
        let ghost i = iter.index() as int;
        let ghost so_far = items_view(items@);
        proof {
            assert(all[i] == group@);
            list::lemma_collect_step(all, piece, i);
        }
        let ghost view = group@;
        push_item(items, ListItem::GroupLabel(group.label));
        push_folders(items, group.folders, collapsed);
        push_areas(items, group.loose);
        assert(items_view(items@) =~= so_far + group_items(view, collapsed@));
        assert(items_view(items@) =~= before + list::collect(all.take(i + 1), piece));
    }
    assert(all.take(all.len() as int) =~= all);
}

/// Groups parted by state, without empty parts.
struct GroupParts {
    here: Vec<SharedGroup>,
    unassigned: Vec<SharedGroup>,
    elsewhere: Vec<SharedGroup>,
}

fn keep_part(parts: &mut Vec<SharedGroup>, part: SharedGroup)
    ensures
        area_list::groups_view(final(parts)@) == area_list::groups_view(old(parts)@) + (if holds_any(
            part@,
        ) {
            seq![part@]
        } else {
            Seq::empty()
        }),
{
    let ghost before = parts@;
    let ghost view = part@;
    assert(area_list::folders_view(part.folders@).len() == part.folders.len());
    assert(area_list::summaries(part.loose@).len() == part.loose.len());
    if part.folders.len() > 0 || part.loose.len() > 0 {
        parts.push(part);
        assert(area_list::groups_view(parts@) =~= area_list::groups_view(before) + seq![view]);
    } else {
        assert(area_list::groups_view(parts@) =~= area_list::groups_view(before) + Seq::empty());
    }
}

fn part_groups(groups: Vec<SharedGroup>, table: &ScopeTable) -> (parts: GroupParts)
    ensures
        area_list::groups_view(parts.here@) == parts_in(
            area_list::groups_view(groups@),
            *table,
            ScopeState::Here,
        ),
        area_list::groups_view(parts.unassigned@) == parts_in(
            area_list::groups_view(groups@),
            *table,
            ScopeState::Unassigned,
        ),
        area_list::groups_view(parts.elsewhere@) == parts_in(
            area_list::groups_view(groups@),
            *table,
            ScopeState::Elsewhere,
        ),
{
    let ghost all = area_list::groups_view(groups@);
    let ghost given = groups@;
    let ghost in_here = |group: GroupView| part_in(group, *table, ScopeState::Here);
    let ghost in_unassigned = |group: GroupView| part_in(group, *table, ScopeState::Unassigned);
    let ghost in_elsewhere = |group: GroupView| part_in(group, *table, ScopeState::Elsewhere);
    let mut here: Vec<SharedGroup> = Vec::new();
    let mut unassigned: Vec<SharedGroup> = Vec::new();
    let mut elsewhere: Vec<SharedGroup> = Vec::new();
    assert(all.take(0) =~= Seq::empty());
    assert(area_list::groups_view(here@) =~= Seq::empty());
    assert(area_list::groups_view(unassigned@) =~= Seq::empty());
    assert(area_list::groups_view(elsewhere@) =~= Seq::empty());
    for group in iter: groups
        invariant
            given == iter.seq(),
            all == area_list::groups_view(given),
            in_here == (|group: GroupView| part_in(group, *table, ScopeState::Here)),
            in_unassigned == (|group: GroupView| part_in(group, *table, ScopeState::Unassigned)),
            in_elsewhere == (|group: GroupView| part_in(group, *table, ScopeState::Elsewhere)),
            area_list::groups_view(here@) == list::collect(
                all.take(iter.index() as int),
                in_here,
            ),
            area_list::groups_view(unassigned@) == list::collect(
                all.take(iter.index() as int),
                in_unassigned,
            ),
            area_list::groups_view(elsewhere@) == list::collect(
                all.take(iter.index() as int),
                in_elsewhere,
            ),
    {
        let ghost i = iter.index() as int;
        proof {
            assert(all[i] == group@);
            list::lemma_collect_step(all, in_here, i);
            list::lemma_collect_step(all, in_unassigned, i);
            list::lemma_collect_step(all, in_elsewhere, i);
        }
        let parts = partition_shared_group(group, table);
        keep_part(&mut here, parts.here);
        keep_part(&mut unassigned, parts.unassigned);
        keep_part(&mut elsewhere, parts.elsewhere);
    }
    assert(all.take(all.len() as int) =~= all);
    GroupParts { here, unassigned, elsewhere }
}

proof fn lemma_group_count(groups: Seq<GroupView>, i: int)
    requires
        0 <= i <= groups.len(),
    ensures
        group_count(groups.take(i)) <= group_count(groups),
    decreases groups.len(),
{
    if i < groups.len() {
        lemma_group_count(groups.drop_last(), i);
        assert(groups.drop_last().take(i) =~= groups.take(i));
    } else {
        assert(groups.take(i) =~= groups);
    }
}

fn count_groups(groups: &Vec<SharedGroup>, start: usize) -> (count: usize)
    requires
        start + group_count(area_list::groups_view(groups@)) <= usize::MAX,
    ensures
        count == start + group_count(area_list::groups_view(groups@)),
{
    let ghost all = area_list::groups_view(groups@);
    let mut count: usize = start;
    assert(all.take(0) =~= Seq::empty());
    for i in 0..groups.len()
        invariant
            all == area_list::groups_view(groups@),
            start + group_count(all) <= usize::MAX,
            count == start + group_count(all.take(i as int)),
    {
        proof {
            lemma_group_count(all, i + 1);
            assert(all.take(i + 1).drop_last() =~= all.take(i as int));
            assert(all[i as int] == groups@[i as int]@);
            assert(area_list::folders_view(groups@[i as int].folders@).len()
                == groups@[i as int].folders.len());
            assert(area_list::summaries(groups@[i as int].loose@).len()
                == groups@[i as int].loose.len());
        }
        count = count + groups[i].folders.len() + groups[i].loose.len();
    }
    assert(all.take(groups.len() as int) =~= all);
    count
}

/// The list for one server.
pub fn render_this_server(
    folders: Vec<Folder>,
    shared: Vec<SharedGroup>,
    table: &ScopeTable,
    collapsed: &Vec<FolderKey>,
) -> (items: Vec<ListItem>)
    requires
        unassigned_count(
            area_list::folders_view(folders@),
            area_list::groups_view(shared@),
            *table,
        ) <= usize::MAX,
    ensures
        items_view(items@) == server_items(
            area_list::folders_view(folders@),
            area_list::groups_view(shared@),
            *table,
            collapsed@,
        ),
{
    let ghost own = area_list::folders_view(folders@);
    let ghost theirs = area_list::groups_view(shared@);
    assert(theirs.len() == shared.len());
    let has_shared = shared.len() > 0;
    let owned = area_tree::part_folders(folders, table);
    let groups = part_groups(shared, table);
    let mut items: Vec<ListItem> = Vec::new();
    assert(items_view(items@) =~= Seq::empty());
    assert(area_list::folders_view(owned.here@).len() == owned.here.len());
    assert(area_list::folders_view(owned.unassigned@).len() == owned.unassigned.len());
    if has_shared && owned.here.len() > 0 {
        push_item(&mut items, ListItem::GroupLabel("My maps".to_owned()));
    }
    push_folders(&mut items, owned.here, collapsed);
    push_groups(&mut items, groups.here, collapsed);
    let ghost so_far = items_view(items@);
    let count: usize = count_groups(&groups.unassigned, owned.unassigned.len());
    if count > 0 {
        let hidden = holds_key(collapsed, FolderKey::Unassigned);
        push_item(&mut items, ListItem::Unassigned { count, collapsed: hidden });
        if !hidden {
            push_folders(&mut items, owned.unassigned, collapsed);
            push_groups(&mut items, groups.unassigned, collapsed);
        }
    }
    assert(items_view(items@) =~= server_items(own, theirs, *table, collapsed@));
    items
}

fn push_bucket(
    items: &mut Vec<ListItem>,
    header: String,
    folders: Vec<Folder>,
    groups: Vec<SharedGroup>,
    collapsed: &Vec<FolderKey>,
)
    ensures
        items_view(final(items)@) == items_view(old(items)@) + bucket_items(
            header@,
            area_list::folders_view(folders@),
            area_list::groups_view(groups@),
            collapsed@,
        ),
{
    let ghost before = items_view(items@);
    let ghost own = area_list::folders_view(folders@);
    let ghost theirs = area_list::groups_view(groups@);
    let ghost label = header@;
    assert(own.len() == folders.len() && theirs.len() == groups.len());
    if folders.len() > 0 || groups.len() > 0 {
        push_item(items, ListItem::BucketHeader(header));
        push_folders(items, folders, collapsed);
        push_groups(items, groups, collapsed);
    }
    assert(items_view(items@) =~= before + bucket_items(label, own, theirs, collapsed@));
}

/// The list of all atlases, parted by where they are shown.
pub fn render_all_buckets(
    folders: Vec<Folder>,
    shared: Vec<SharedGroup>,
    table: &ScopeTable,
    collapsed: &Vec<FolderKey>,
    server: &str,
) -> (items: Vec<ListItem>)
    ensures
        items_view(items@) == bucketed_items(
            area_list::folders_view(folders@),
            area_list::groups_view(shared@),
            *table,
            collapsed@,
            server@,
        ),
{
    let ghost own = area_list::folders_view(folders@);
    let ghost theirs = area_list::groups_view(shared@);
    let owned = area_tree::part_folders(folders, table);
    let groups = part_groups(shared, table);
    let mut items: Vec<ListItem> = Vec::new();
    assert(items_view(items@) =~= Seq::empty());
    push_bucket(&mut items, join2("On ", server), owned.here, groups.here, collapsed);
    push_bucket(
        &mut items,
        "Unassigned".to_owned(),
        owned.unassigned,
        groups.unassigned,
        collapsed,
    );
    push_bucket(
        &mut items,
        "Other servers".to_owned(),
        owned.elsewhere,
        groups.elsewhere,
        collapsed,
    );
    assert(items_view(items@) =~= bucketed_items(own, theirs, *table, collapsed@, server@));
    items
}

/// The areas of folders, end to end.
fn flatten(folders: Vec<Folder>) -> (areas: Vec<AreaSummary>)
    ensures
        area_list::summaries(areas@) == list::collect(
            area_list::folders_view(folders@),
            |folder: FolderView| folder.areas,
        ),
{
    let ghost all = area_list::folders_view(folders@);
    let ghost given = folders@;
    let ghost piece = |folder: FolderView| folder.areas;
    let mut areas: Vec<AreaSummary> = Vec::new();
    assert(all.take(0) =~= Seq::empty());
    assert(area_list::summaries(areas@) =~= Seq::empty());
    for folder in iter: folders
        invariant
            given == iter.seq(),
            all == area_list::folders_view(given),
            piece == (|folder: FolderView| folder.areas),
            area_list::summaries(areas@) == list::collect(all.take(iter.index() as int), piece),
    {
        let ghost i = iter.index() as int;
        proof {
            assert(all[i] == folder@);
            list::lemma_collect_step(all, piece, i);
        }
        let ghost before = areas@;
        let mut inside = folder.areas;
        let ghost more = inside@;
        areas.append(&mut inside);
        assert(areas@ =~= before + more);
        assert(area_list::summaries(areas@) =~= area_list::summaries(before)
            + area_list::summaries(more));
    }
    assert(all.take(all.len() as int) =~= all);
    areas
}

/// The list without a server in view.
pub fn render_flat(
    folders: Vec<Folder>,
    shared: Vec<SharedGroup>,
    collapsed: &Vec<FolderKey>,
    has_atlases: bool,
) -> (items: Vec<ListItem>)
    ensures
        items_view(items@) == flat_items(
            area_list::folders_view(folders@),
            area_list::groups_view(shared@),
            collapsed@,
            has_atlases,
        ),
{
    let ghost own = area_list::folders_view(folders@);
    let ghost theirs = area_list::groups_view(shared@);
    assert(theirs.len() == shared.len());
    let has_shared = shared.len() > 0;
    let mut items: Vec<ListItem> = Vec::new();
    assert(items_view(items@) =~= Seq::empty());
    if has_atlases {
        if has_shared {
            push_item(&mut items, ListItem::GroupLabel("My maps".to_owned()));
        }
        push_folders(&mut items, folders, collapsed);
    } else {
        let owned = flatten(folders);
        assert(area_list::summaries(owned@).len() == owned.len());
        if owned.len() > 0 {
            if has_shared {
                push_item(&mut items, ListItem::GroupLabel("My maps".to_owned()));
            }
            push_areas(&mut items, owned);
        }
    }
    push_groups(&mut items, shared, collapsed);
    assert(items_view(items@) =~= flat_items(own, theirs, collapsed@, has_atlases));
    items
}

// ===== The whole list =====

/// What the list is of: one server, all atlases seen from a server, or all atlases.
pub open spec fn listed_items(
    folders: Seq<FolderView>,
    shared: Seq<GroupView>,
    table: ScopeTable,
    collapsed: Seq<FolderKey>,
    has_atlases: bool,
    server: Option<Seq<char>>,
    scope_all: bool,
) -> Seq<ItemView> {
    match server {
        Some(server) => if scope_all {
            bucketed_items(folders, shared, table, collapsed, server)
        } else {
            server_items(folders, shared, table, collapsed)
        },
        None => flat_items(folders, shared, collapsed, has_atlases),
    }
}

/// The areas that go with the session as lines, under a label.
pub open spec fn session_items(session: Seq<SummaryView>) -> Seq<ItemView> {
    if session.len() == 0 {
        Seq::empty()
    } else {
        seq![ListItem::GroupLabel("Session maps"@)] + area_items(session)
    }
}

/// The whole list: what is filed and shared, then the areas that go with the session.
pub fn list_items(
    folders: Vec<Folder>,
    shared: Vec<SharedGroup>,
    session: Vec<AreaSummary>,
    table: &ScopeTable,
    collapsed: &Vec<FolderKey>,
    has_atlases: bool,
    server: &Option<String>,
    scope_all: bool,
) -> (items: Vec<ListItem>)
    requires
        unassigned_count(
            area_list::folders_view(folders@),
            area_list::groups_view(shared@),
            *table,
        ) <= usize::MAX,
    ensures
        items_view(items@) == listed_items(
            area_list::folders_view(folders@),
            area_list::groups_view(shared@),
            *table,
            collapsed@,
            has_atlases,
            text::opt_text(*server),
            scope_all,
        ) + session_items(area_list::summaries(session@)),
{
    let ghost later = area_list::summaries(session@);
    let mut items = match server {
        Some(server) => if scope_all {
            render_all_buckets(folders, shared, table, collapsed, server)
        } else {
            render_this_server(folders, shared, table, collapsed)
        },
        None => render_flat(folders, shared, collapsed, has_atlases),
    };
    let ghost before = items_view(items@);
    assert(later.len() == session.len());
    if session.len() > 0 {
        push_item(&mut items, ListItem::GroupLabel("Session maps".to_owned()));
        push_areas(&mut items, session);
    }
    assert(items_view(items@) =~= before + session_items(later));
    items
}

/// The choice between one server and all atlases.
pub struct ScopeControl {
    pub this_server: String,
    pub all_chosen: bool,
}

/// The choice between the server and all atlases: there is one only with a server.
pub fn scope_control(server: &Option<String>, scope_all: bool) -> (control: Option<ScopeControl>)
    ensures
        match (control, *server) {
            (Some(control), Some(server)) => control.this_server@ == "This server ("@ + server@ + ")"@
                && control.all_chosen == scope_all,
            (None, None) => true,
            _ => false,
        },
{
    match server {
        Some(server) => Some(
            ScopeControl { this_server: join3("This server (", server, ")"), all_chosen: scope_all },
        ),
        None => None,
    }
}

// ===== Rows =====

/// What is shown of an area in the list.
pub struct RowControls {
    /// It is being renamed: an input stands in its place.
    pub renaming: bool,
    pub tagged_inactive: bool,
    pub tagged_secret: bool,
    pub tagged_copy: bool,
    /// "owned by …", where the sharer is not the owner, and what explains it.
    pub owner_badge: Option<(String, String)>,
    pub tagged_admin: bool,
    pub tagged_edit: bool,
    /// The switch that makes it active or not.
    pub can_toggle: bool,
    pub can_move: bool,
    pub can_rename_and_delete: bool,
    pub can_transfer: bool,
    pub servers: Option<ScopeTarget>,
}

/// The badge of a row and what explains it.
pub open spec fn owner_badge(area: SummaryView) -> Option<(Seq<char>, Seq<char>)> {
    match area.reshare_owner {
        Some(owner) => Some(
            (
                "owned by "@ + owner,
                "Re-shared: "@ + (match area.sharer_label {
                    Some(sharer) => sharer,
                    None => "a friend"@,
                }) + " shared a map owned by "@ + owner,
            ),
        ),
        None => None,
    }
}

/// What is shown of an area. Renaming and deleting is for owners and
/// administrators; filing and handing over is for owners; all of it only where
/// the area is selected.
pub fn area_row(
    area: &AreaSummary,
    selected: Option<AreaId>,
    renaming: Option<AreaId>,
    has_folders: bool,
) -> (controls: RowControls)
    ensures
        controls.renaming == (renaming == Some(area.id)),
        controls.tagged_inactive == !area.enabled,
        controls.tagged_secret == area.has_secrets,
        controls.tagged_copy == area.in_family,
        match controls.owner_badge {
            Some(badge) => owner_badge(area@) == Some((badge.0@, badge.1@)),
            None => owner_badge(area@) is None,
        },
        controls.tagged_admin == (!area.owned && area.can_admin),
        controls.tagged_edit == (!area.owned && !area.can_admin && area.can_edit),
        controls.can_toggle == (selected == Some(area.id)),
        controls.can_move == (selected == Some(area.id) && area.owned && has_folders),
        controls.can_rename_and_delete == (selected == Some(area.id) && (area.owned
            || area.can_admin)),
        controls.can_transfer == (selected == Some(area.id) && area.owned),
        controls.servers == if selected == Some(area.id) {
            area.scope_target
        } else {
            None
        },
{
    let is_selected = match selected {
        Some(id) => id == area.id,
        None => false,
    };
    let is_renamed = match renaming {
        Some(id) => id == area.id,
        None => false,
    };
    let badge = match &area.reshare_owner {
        Some(owner) => {
            let sharer = match &area.sharer_label {
                Some(sharer) => sharer.clone(),
                None => "a friend".to_owned(),
            };
            let start = join2("Re-shared: ", &sharer);
            Some((join2("owned by ", owner), join3(&start, " shared a map owned by ", owner)))
        },
        None => None,
    };
    RowControls {
        renaming: is_renamed,
        tagged_inactive: !area.enabled,
        tagged_secret: area.has_secrets,
        tagged_copy: area.in_family,
        owner_badge: badge,
        tagged_admin: !area.owned && area.can_admin,
        tagged_edit: !area.owned && !area.can_admin && area.can_edit,
        can_toggle: is_selected,
        can_move: is_selected && area.owned && has_folders,
        can_rename_and_delete: is_selected && (area.owned || area.can_admin),
        can_transfer: is_selected && area.owned,
        servers: if is_selected {
            area.scope_target
        } else {
            None
        },
    }
}

/// What is shown of a folder in the list.
pub struct FolderControls {
    pub renaming: bool,
    /// How many areas it holds.
    pub badge: String,
    /// New map, rename, delete.
    pub can_manage: bool,
    /// Share and hand over.
    pub can_share: bool,
    pub servers: Option<ScopeTarget>,
}

/// What is shown of a folder. Only owners manage it. A local folder is on no
/// server: it is neither shared nor shown per server.
pub fn folder_header(folder: &Folder, renaming: Option<AtlasId>, local_atlases: &Vec<AtlasId>) -> (controls:
    FolderControls)
    ensures
        ({
            let atlas = match folder.key {
                FolderKey::Atlas(id) => Some(id),
                _ => None,
            };
            let cloud = atlas is Some && !local_atlases@.contains(atlas->0);
            &&& controls.renaming == (atlas is Some && renaming == atlas)
            &&& controls.badge@ == if folder.areas.len() == 0 {
                "empty"@
            } else {
                text::decimal(folder.areas.len() as nat)
            }
            &&& controls.can_manage == (atlas is Some && folder.owned)
            &&& controls.can_share == (cloud && folder.owned)
            &&& controls.servers == if cloud {
                Some(ScopeTarget::Atlas(atlas->0))
            } else {
                None
            }
        }),
{
    let badge = if folder.areas.len() == 0 {
        "empty".to_owned()
    } else {
        decimal_text(folder.areas.len() as u64)
    };
    let id = match folder.key {
        FolderKey::Atlas(id) => id,
        _ => {
            return FolderControls {
                renaming: false,
                badge,
                can_manage: false,
                can_share: false,
                servers: None,
            };
        },
    };
    let mut local: bool = false;
    for i in 0..local_atlases.len()
        invariant
            local == exists|k: int| 0 <= k < i && #[trigger] local_atlases@[k] == id,
    {
        if local_atlases[i] == id {
            local = true;
        }
    }
    assert(local == local_atlases@.contains(id));
    FolderControls {
        renaming: match renaming {
            Some(other) => other == id,
            None => false,
        },
        badge,
        can_manage: folder.owned,
        can_share: folder.owned && !local,
        servers: if local {
            None
        } else {
            Some(ScopeTarget::Atlas(id))
        },
    }
}

} // verus!
