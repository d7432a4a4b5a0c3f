//! The dialogs of the folders: atlases, where areas are filed, and the servers that
//! show them.

use vstd::prelude::*;

use super::area_list::{self, name_first, FolderKey};
use super::dialogs::{self, Dialogs, DialogsView, FolderChoice, Modal, OwnedAtlas, Renaming};
use super::model::{AreaId, AtlasCache, AtlasId};
use super::scopes::{self, set_entry, ScopeDelta, ScopeTarget};
use super::window;
use crate::list::{self, keep, sort_by};
use crate::text::{self, is_empty_text, same_text, trim};

verus! {

/// Whether an atlas has an id.
pub open spec fn is_atlas(atlas: dialogs::AtlasView, id: AtlasId) -> bool {
    atlas.id == id
}

/// The first atlas with an id.
pub open spec fn atlas_with(atlases: Seq<dialogs::AtlasView>, id: AtlasId) -> Option<dialogs::AtlasView> {
    list::first(atlases, |atlas: dialogs::AtlasView| is_atlas(atlas, id))
}

/// The place of the first atlas with an id.
pub open spec fn atlas_place(atlases: Seq<dialogs::AtlasView>, id: AtlasId) -> Option<int> {
    list::place(atlases, |atlas: dialogs::AtlasView| is_atlas(atlas, id))
}

/// The place of the first atlas with an id.
fn find_atlas(atlases: &Vec<OwnedAtlas>, id: AtlasId) -> (found: Option<usize>)
    ensures
        match found {
            Some(i) => i < atlases.len() && atlas_place(dialogs::atlases_view(atlases@), id)
                == Some(i as int) && atlas_with(dialogs::atlases_view(atlases@), id) == Some(
                atlases@[i as int]@,
            ),
            None => atlas_place(dialogs::atlases_view(atlases@), id) is None && atlas_with(
                dialogs::atlases_view(atlases@),
                id,
            ) is None,
        },
{
    let ghost views = dialogs::atlases_view(atlases@);
    let ghost p = |atlas: dialogs::AtlasView| is_atlas(atlas, id);
    for i in 0..atlases.len()
        invariant
            views == dialogs::atlases_view(atlases@),
            p == (|atlas: dialogs::AtlasView| is_atlas(atlas, id)),
            forall|k: int| 0 <= k < i ==> !p(#[trigger] views[k]),
    {
        assert(views[i as int] == atlases@[i as int]@);
        if atlases[i].id.0 == id.0 {
            proof {
                list::lemma_first(views, p, i as int);
                list::lemma_place(views, p, i as int);
            }
            return Some(i);
        }
    }
    assert(!exists|i: int| list::is_first(views, p, i)) by {
        assert forall|i: int| !list::is_first(views, p, i) by {
            if list::is_first(views, p, i) {
                assert(p(views[i]));
            }
        }
    }
    None
}

/// What came of a fetch of the atlases.
pub enum AtlasLoad {
    Loaded(Vec<OwnedAtlas>),
    /// Nobody is signed in, or the address is not verified.
    SignedOut,
    Failed,
}

/// An atlas to create.
pub struct NewAtlas {
    pub name: String,
    /// Kept on this machine only.
    pub local: bool,
}

/// An atlas with its new name.
pub struct AtlasRename {
    pub atlas_id: AtlasId,
    pub name: String,
}

/// The owned atlases of a list: first sight is recorded of them alone, because an
/// atlas that is only administered is homed by its grants.
pub open spec fn owned_ids(atlases: Seq<OwnedAtlas>) -> Seq<AtlasId> {
    list::collect(
        atlases,
        |atlas: OwnedAtlas|
            if atlas.is_owner {
                seq![atlas.id]
            } else {
                Seq::empty()
            },
    )
}

/// The owned atlases of a list, of which first sight is to be recorded.
pub fn atlases_to_mark(atlases: &Vec<OwnedAtlas>) -> (ids: Vec<AtlasId>)
    ensures
        ids@ == owned_ids(atlases@),
{
    let ghost piece = |atlas: OwnedAtlas|
        if atlas.is_owner {
            seq![atlas.id]
        } else {
            Seq::<AtlasId>::empty()
        };
    let mut ids: Vec<AtlasId> = Vec::new();
    assert(atlases@.take(0) =~= Seq::empty());
    for i in 0..atlases.len()
        invariant
            piece == (|atlas: OwnedAtlas|
                if atlas.is_owner {
                    seq![atlas.id]
                } else {
                    Seq::<AtlasId>::empty()
                }),
            ids@ == list::collect(atlases@.take(i as int), piece),
    {
        proof {
            list::lemma_collect_step(atlases@, piece, i as int);
        }
        if atlases[i].is_owner {
            ids.push(atlases[i].id);
        }
    }
    assert(atlases@.take(atlases.len() as int) =~= atlases@);
    ids
}

/// Whether a key is another.
pub open spec fn is_other(key: FolderKey, other: FolderKey) -> bool {
    other != key
}

/// The keys other than one.
pub open spec fn without(keys: Seq<FolderKey>, key: FolderKey) -> Seq<FolderKey> {
    list::kept(keys, |other: FolderKey| is_other(key, other))
}

/// Takes a key out of a list.
fn drop_key(keys: Vec<FolderKey>, key: FolderKey) -> (rest: Vec<FolderKey>)
    ensures
        rest@ == without(keys@, key),
{
    let test = |other: &FolderKey| -> (r: bool)
        ensures
            r == is_other(key, *other),
    {
        *other != key
    };
    keep(keys, test, Ghost(|other: FolderKey| is_other(key, other)))
}

/// The keys after one was toggled.
pub open spec fn toggled(keys: Seq<FolderKey>, key: FolderKey) -> Seq<FolderKey> {
    if keys.contains(key) {
        without(keys, key)
    } else {
        keys.push(key)
    }
}

/// The dialogs once the atlases arrived, or could not be had.
pub open spec fn atlases_listed(before: DialogsView, load: AtlasLoad) -> DialogsView {
    DialogsView {
        atlases: match load {
            AtlasLoad::Loaded(atlases) => dialogs::atlases_view(atlases@),
            AtlasLoad::SignedOut => Seq::empty(),
            AtlasLoad::Failed => before.atlases,
        },
        ..before
    }
}

/// The dialogs once the name of a new atlas is asked for.
pub open spec fn asking_atlas(before: DialogsView, signed_in: bool) -> DialogsView {
    dialogs::with_modal(
        before,
        Some(
            Modal::CreateAtlas {
                name: Seq::empty(),
                error: None,
                local: !signed_in,
                cloud_available: signed_in,
            },
        ),
    )
}

/// The dialogs once the name of a new atlas is typed.
pub open spec fn atlas_named(before: DialogsView, value: Seq<char>) -> DialogsView {
    dialogs::with_modal(
        before,
        match before.modal {
            Some(Modal::CreateAtlas { name, error, local, cloud_available }) => Some(
                Modal::CreateAtlas { name: value, error, local, cloud_available },
            ),
            other => other,
        },
    )
}

/// The dialogs once it is chosen where a new atlas is kept.
pub open spec fn atlas_placed(before: DialogsView, local: bool) -> DialogsView {
    dialogs::with_modal(
        before,
        match before.modal {
            Some(Modal::CreateAtlas { name, error, local: _, cloud_available }) => Some(
                Modal::CreateAtlas {
                    name,
                    error,
                    local: local || !cloud_available,
                    cloud_available,
                },
            ),
            other => other,
        },
    )
}

/// The dialogs once an atlas was created, or could not be.
pub open spec fn atlas_settled(before: DialogsView, result: Result<AtlasId, String>) -> DialogsView {
    match result {
        Ok(atlas_id) => DialogsView {
            modal: None,
            collapsed: without(before.collapsed, FolderKey::Atlas(atlas_id)),
            ..before
        },
        Err(message) => dialogs::with_modal(
            before,
            match before.modal {
                Some(Modal::CreateAtlas { name, error, local, cloud_available }) => Some(
                    Modal::CreateAtlas {
                        name,
                        error: Some(message@),
                        local,
                        cloud_available,
                    },
                ),
                other => other,
            },
        ),
    }
}

/// The dialogs once an atlas is being renamed.
pub open spec fn renaming_atlas(before: DialogsView, id: AtlasId) -> DialogsView {
    DialogsView {
        renaming_atlas: Some(
            Renaming {
                id,
                name: match atlas_with(before.atlases, id) {
                    Some(atlas) => atlas.name,
                    None => Seq::empty(),
                },
            },
        ),
        ..before
    }
}

/// The dialogs once the new name of an atlas is typed.
pub open spec fn atlas_renamed(before: DialogsView, value: Seq<char>) -> DialogsView {
    DialogsView {
        renaming_atlas: match before.renaming_atlas {
            Some(renaming) => Some(Renaming { id: renaming.id, name: value }),
            None => None,
        },
        ..before
    }
}

/// The dialogs once it is asked whether to delete an atlas.
pub open spec fn asking_atlas_deletion(before: DialogsView, id: AtlasId) -> DialogsView {
    dialogs::with_modal(
        before,
        match atlas_with(before.atlases, id) {
            Some(atlas) => Some(
                Modal::ConfirmDeleteAtlas {
                    atlas_id: id,
                    name: atlas.name,
                    area_count: atlas.area_count,
                },
            ),
            None => before.modal,
        },
    )
}

/// The atlas to create: its name, and whether it is kept on this machine.
pub open spec fn wanted_atlas(before: DialogsView) -> Option<(Seq<char>, bool)> {
    match before.modal {
        Some(Modal::CreateAtlas { name, local, .. }) => if text::trimmed(name).len() == 0 {
            None
        } else {
            Some((text::trimmed(name), local))
        },
        _ => None,
    }
}

/// The atlas to rename, with its new name.
pub open spec fn wanted_atlas_rename(before: DialogsView) -> Option<(AtlasId, Seq<char>)> {
    match before.renaming_atlas {
        Some(renaming) => if text::trimmed(renaming.name).len() == 0 {
            None
        } else {
            Some((renaming.id, text::trimmed(renaming.name)))
        },
        None => None,
    }
}

/// The dialogs once an atlas was renamed: it bears its new name.
pub open spec fn atlas_rename_settled(before: DialogsView) -> DialogsView {
    DialogsView {
        renaming_atlas: None,
        atlases: match wanted_atlas_rename(before) {
            Some((id, name)) => match atlas_place(before.atlases, id) {
                Some(i) => before.atlases.update(i, OwnedAtlas { name, ..before.atlases[i] }),
                None => before.atlases,
            },
            None => before.atlases,
        },
        ..before
    }
}

/// The atlas to delete.
pub open spec fn wanted_atlas_deletion(before: DialogsView) -> Option<AtlasId> {
    match before.modal {
        Some(Modal::ConfirmDeleteAtlas { atlas_id, .. }) => Some(atlas_id),
        _ => None,
    }
}

/// The dialogs once an atlas was deleted.
pub open spec fn atlas_deleted(before: DialogsView) -> DialogsView {
    match wanted_atlas_deletion(before) {
        Some(id) => DialogsView {
            modal: None,
            atlases: list::kept(
                before.atlases,
                |atlas: dialogs::AtlasView| !is_atlas(atlas, id),
            ),
            collapsed: without(before.collapsed, FolderKey::Atlas(id)),
            ..before
        },
        None => dialogs::with_modal(before, None),
    }
}

/// The dialogs once a folder was opened or closed.
pub open spec fn folder_toggled(before: DialogsView, key: FolderKey) -> DialogsView {
    DialogsView { collapsed: toggled(before.collapsed, key), ..before }
}

/// The dialogs once folders are offered to move an area into.
pub open spec fn asking_move(
    before: DialogsView,
    atlas: AtlasCache,
    area_id: AreaId,
    current_atlas: Option<AtlasId>,
    area_is_local: bool,
    local_atlases: Seq<AtlasId>,
) -> DialogsView {
    dialogs::with_modal(
        before,
        if window::owns(atlas, area_id) {
            Some(
                Modal::MoveArea {
                    area_id,
                    area_name: atlas.area(area_id)->0.name@,
                    current_atlas,
                    folders: destinations(
                        before.atlases,
                        local_atlases,
                        area_is_local,
                    ),
                },
            )
        } else {
            before.modal
        },
    )
}

/// The dialogs once the servers are listed that show an atlas or an area.
pub open spec fn asking_servers(
    before: DialogsView,
    atlas: AtlasCache,
    target: ScopeTarget,
    servers: Seq<Seq<char>>,
    checked: Seq<Seq<char>>,
) -> DialogsView {
    dialogs::with_modal(
        before,
        Some(
            Modal::ServersChecklist {
                target,
                name: match target {
                    ScopeTarget::Atlas(id) => match atlas_with(before.atlases, id) {
                        Some(atlas) => atlas.name,
                        None => Seq::empty(),
                    },
                    ScopeTarget::Area(id) => match atlas.area(id) {
                        Some(area) => area.name@,
                        None => Seq::empty(),
                    },
                },
                servers: servers,
                checked: checked,
            },
        ),
    )
}

/// The dialogs once it is known which servers show the target of the list.
pub open spec fn servers_known(before: DialogsView, now: Seq<Seq<char>>) -> DialogsView {
    dialogs::with_modal(
        before,
        match before.modal {
            Some(Modal::ServersChecklist { target, name, servers, checked }) => Some(
                Modal::ServersChecklist {
                    target,
                    name,
                    servers,
                    checked: now,
                },
            ),
            other => other,
        },
    )
}

/// The change of the association when a server is ticked, or its tick taken away.
pub open spec fn server_delta(before: DialogsView, entry: Seq<char>, show: bool) -> Option<
    scopes::DeltaView,
> {
    match before.modal {
        Some(Modal::ServersChecklist { target, .. }) => Some(
            scopes::entry_delta(target, entry, show),
        ),
        _ => None,
    }
}

/// The dialogs once a server was ticked, or its tick taken away.
pub open spec fn server_toggled(before: DialogsView, entry: Seq<char>, show: bool) -> DialogsView {
    dialogs::with_modal(
        before,
        match before.modal {
            Some(Modal::ServersChecklist { target, name, servers, checked }) => Some(
                Modal::ServersChecklist {
                    target,
                    name,
                    servers,
                    checked: ticked(checked, entry, show),
                },
            ),
            other => other,
        },
    )
}

impl Dialogs {
    /// The atlases arrived. Where nobody is signed in there are none; after another
    /// failure those that are there stay.
    pub fn atlases_loaded(&mut self, load: AtlasLoad)
        ensures
            final(self)@ == atlases_listed(old(self)@, load),
    {
        match load {
            AtlasLoad::Loaded(atlases) => {
                self.atlases = atlases;
            },
            AtlasLoad::SignedOut => {
                self.atlases = Vec::new();
                assert(self@.atlases =~= Seq::empty());
            },
            AtlasLoad::Failed => {},
        }
    }

    /// Asks for the name of a new atlas, shared where that is possible.
    pub fn request_atlas(&mut self, signed_in: bool)
        ensures
            final(self)@ == asking_atlas(old(self)@, signed_in),
    {
        self.modal = Some(
            Modal::CreateAtlas {
                name: String::new(),
                error: None,
                local: !signed_in,
                cloud_available: signed_in,
            },
        );
    }

    /// Takes what was typed as the name of a new atlas.
    pub fn atlas_name_changed(&mut self, value: String)
        ensures
            final(self)@ == atlas_named(old(self)@, value@),
    {
        if let Some(Modal::CreateAtlas { name, .. }) = &mut self.modal {
            *name = value;
        }
    }

    /// Chooses where a new atlas is kept. Nothing is shared where that is not
    /// possible.
    pub fn atlas_tier_changed(&mut self, local: bool)
        ensures
            final(self)@ == atlas_placed(old(self)@, local),
    {
        if let Some(Modal::CreateAtlas { local: slot, cloud_available, .. }) = &mut self.modal {
            *slot = local || !*cloud_available;
        }
    }

    /// The atlas to create, when it has a name.
    pub fn confirm_atlas(&self) -> (atlas: Option<NewAtlas>)
        ensures
            match atlas {
                Some(atlas) => wanted_atlas(self@) == Some((atlas.name@, atlas.local)),
                None => wanted_atlas(self@) is None,
            },
    {
        if let Some(Modal::CreateAtlas { name, local, .. }) = &self.modal {
            let name = trim(name);
            if !is_empty_text(&name) {
                return Some(NewAtlas { name, local: *local });
            }
        }
        None
    }

    /// An atlas was created, or could not be. The folder of a new one is open.
    pub fn atlas_created(&mut self, result: Result<AtlasId, String>)
        ensures
            final(self)@ == atlas_settled(old(self)@, result),
    {
        match result {
            Ok(atlas_id) => {
                self.modal = None;
                let mut keys: Vec<FolderKey> = Vec::new();
                std::mem::swap(&mut keys, &mut self.collapsed);
                self.collapsed = drop_key(keys, FolderKey::Atlas(atlas_id));
            },
            Err(message) => {
                if let Some(Modal::CreateAtlas { error, .. }) = &mut self.modal {
                    *error = Some(message);
                }
            },
        }
    }

    /// The name of an atlas, empty for one that is not there.
    pub fn atlas_name(&self, id: AtlasId) -> (name: String)
        ensures
            name@ == match atlas_with(self@.atlases, id) {
                Some(atlas) => atlas.name,
                None => Seq::empty(),
            },
    {
        match find_atlas(&self.atlases, id) {
            Some(i) => self.atlases[i].name.clone(),
            None => String::new(),
        }
    }

    /// Starts to rename an atlas.
    pub fn start_atlas_rename(&mut self, id: AtlasId)
        ensures
            final(self)@ == renaming_atlas(old(self)@, id),
    {
        let name = self.atlas_name(id);
        self.renaming_atlas = Some(Renaming { id, name });
    }

    /// Takes what was typed as the new name of an atlas.
    pub fn atlas_rename_changed(&mut self, value: String)
        ensures
            final(self)@ == atlas_renamed(old(self)@, value@),
    {
        if let Some(renaming) = &mut self.renaming_atlas {
            renaming.name = value;
        }
    }

    /// The atlas to rename, when it has a new name. It bears the name at once.
    pub fn commit_atlas_rename(&mut self) -> (rename: Option<AtlasRename>)
        ensures
            match rename {
                Some(rename) => wanted_atlas_rename(old(self)@) == Some(
                    (rename.atlas_id, rename.name@),
                ),
                None => wanted_atlas_rename(old(self)@) is None,
            },
            final(self)@ == atlas_rename_settled(old(self)@),
    {
        let taken = self.renaming_atlas.take();
        if let Some(renaming) = taken {
            let name = trim(&renaming.name);
            if is_empty_text(&name) {
                return None;
            }
            let ghost before = self@.atlases;
            if let Some(i) = find_atlas(&self.atlases, renaming.id) {
                let ghost given = self.atlases@;
                let atlas = &mut self.atlases[i];
                atlas.name = name.clone();
                assert(self@.atlases =~= before.update(
                    i as int,
                    OwnedAtlas { name: name@, ..before[i as int] },
                ));
            }
            return Some(AtlasRename { atlas_id: renaming.id, name });
        }
        None
    }

    /// Asks whether to delete an atlas.
    pub fn request_atlas_deletion(&mut self, id: AtlasId)
        ensures
            final(self)@ == asking_atlas_deletion(old(self)@, id),
    {
        if let Some(i) = find_atlas(&self.atlases, id) {
            let name = self.atlases[i].name.clone();
            let area_count: u64 = self.atlases[i].area_count;
            self.modal = Some(Modal::ConfirmDeleteAtlas { atlas_id: id, name, area_count });
        }
    }

    /// The atlas to delete: the one that was asked about. It leaves the folders at
    /// once; its areas stay.
    pub fn confirm_atlas_deletion(&mut self) -> (atlas_id: Option<AtlasId>)
        ensures
            atlas_id == wanted_atlas_deletion(old(self)@),
            final(self)@ == atlas_deleted(old(self)@),
    {
        let taken = self.modal.take();
        if let Some(Modal::ConfirmDeleteAtlas { atlas_id: id, .. }) = taken {
            let mut atlases: Vec<OwnedAtlas> = Vec::new();
            std::mem::swap(&mut atlases, &mut self.atlases);
            let test = |atlas: &OwnedAtlas| -> (r: bool)
                ensures
                    r == !is_atlas(atlas@, id),
            {
                atlas.id.0 != id.0
            };
            proof {
                list::lemma_kept_map(
                    atlases@,
                    |atlas: OwnedAtlas| atlas@,
                    |atlas: OwnedAtlas| !is_atlas(atlas@, id),
                    |atlas: dialogs::AtlasView| !is_atlas(atlas, id),
                );
            }
            self.atlases = keep(
                atlases,
                test,
                Ghost(|atlas: OwnedAtlas| !is_atlas(atlas@, id)),
            );
            let mut keys: Vec<FolderKey> = Vec::new();
            std::mem::swap(&mut keys, &mut self.collapsed);
            self.collapsed = drop_key(keys, FolderKey::Atlas(id));
            return Some(id);
        }
        None
    }

    /// Opens or closes a folder.
    pub fn toggle_folder(&mut self, key: FolderKey)
        ensures
            final(self)@ == folder_toggled(old(self)@, key),
    {
        let mut closed: bool = false;
        let count: usize = self.collapsed.len();
        for i in 0..count
            invariant
                count == self.collapsed.len(),
                closed == exists|k: int| 0 <= k < i && #[trigger] self.collapsed@[k] == key,
        {
            if self.collapsed[i] == key {
                closed = true;
            }
        }
        if closed {
            let mut keys: Vec<FolderKey> = Vec::new();
            std::mem::swap(&mut keys, &mut self.collapsed);
            self.collapsed = drop_key(keys, key);
        } else {
            self.collapsed.push(key);
        }
    }
}

/// A folder that is toggled is closed if it was open, and open if it was closed; every
/// other folder stays as it was.
pub proof fn law_toggling_turns_one_folder(keys: Seq<FolderKey>, key: FolderKey, other: FolderKey)
    ensures
        toggled(keys, key).contains(key) == !keys.contains(key),
        other != key ==> toggled(keys, key).contains(other) == keys.contains(other),
{
    if keys.contains(key) {
        lemma_without(keys, key, key);
        lemma_without(keys, key, other);
    } else {
        assert(keys.push(key)[keys.len() as int] == key);
        if keys.contains(other) {
            let i = choose|i: int| 0 <= i < keys.len() && keys[i] == other;
            assert(keys.push(key)[i] == other);
        }
    }
}

/// Every other key stays.
proof fn lemma_without(keys: Seq<FolderKey>, key: FolderKey, other: FolderKey)
    ensures
        without(keys, key).contains(other) == (other != key && keys.contains(other)),
{
    let p = |other: FolderKey| is_other(key, other);
    if without(keys, key).contains(other) {
        list::lemma_kept(keys, p, other);
    }
    if other != key && keys.contains(other) {
        let i = choose|i: int| 0 <= i < keys.len() && keys[i] == other;
        let piece = |x: FolderKey|
            if p(x) {
                seq![x]
            } else {
                Seq::empty()
            };
        assert(piece(keys[i])[0] == other);
        list::lemma_collect_contains(keys, piece, i, other);
    }
}

/// Whether an atlas is a folder for an area: both are kept on this machine, or
/// neither is.
pub open spec fn suits(local_atlases: Seq<AtlasId>, area_is_local: bool, atlas: dialogs::AtlasView) -> bool {
    local_atlases.contains(atlas.id) == area_is_local
}

/// An atlas as a choice.
pub open spec fn choice_of(atlas: dialogs::AtlasView) -> FolderChoice<Seq<char>> {
    FolderChoice { id: atlas.id, name: atlas.name }
}

/// The choice of an atlas, if it suits.
pub open spec fn choices_of(
    local_atlases: Seq<AtlasId>,
    area_is_local: bool,
    atlas: dialogs::AtlasView,
) -> Seq<FolderChoice<Seq<char>>> {
    if suits(local_atlases, area_is_local, atlas) {
        seq![choice_of(atlas)]
    } else {
        Seq::empty()
    }
}

/// The folders to move an area into, by name.
pub open spec fn destinations(
    atlases: Seq<dialogs::AtlasView>,
    local_atlases: Seq<AtlasId>,
    area_is_local: bool,
) -> Seq<FolderChoice<Seq<char>>> {
    list::in_order(
        list::collect(
            atlases,
            |atlas: dialogs::AtlasView| choices_of(local_atlases, area_is_local, atlas),
        ),
        |a: FolderChoice<Seq<char>>, b: FolderChoice<Seq<char>>|
            area_list::name_before(a.name, b.name),
    )
}

/// Whether an atlas is kept on this machine.
fn holds_atlas(ids: &Vec<AtlasId>, id: AtlasId) -> (held: bool)
    ensures
        held == ids@.contains(id),
{
    for i in 0..ids.len()
        invariant
            forall|k: int| 0 <= k < i ==> #[trigger] ids@[k] != id,
    {
        if ids[i].0 == id.0 {
            assert(ids@[i as int] == id);
            return true;
        }
    }
    false
}

/// The folders to move an area into, by name.
fn folder_choices(atlases: &Vec<OwnedAtlas>, local_atlases: &Vec<AtlasId>, area_is_local: bool) -> (choices:
    Vec<FolderChoice>)
    ensures
        dialogs::choices_view(choices@) == destinations(
            dialogs::atlases_view(atlases@),
            local_atlases@,
            area_is_local,
        ),
{
    let ghost views = dialogs::atlases_view(atlases@);
    let ghost piece = |atlas: dialogs::AtlasView|
        choices_of(local_atlases@, area_is_local, atlas);
    let mut choices: Vec<FolderChoice> = Vec::new();
    assert(views.take(0) =~= Seq::empty());
    assert(dialogs::choices_view(choices@) =~= Seq::empty());
    for i in 0..atlases.len()
        invariant
            views == dialogs::atlases_view(atlases@),
            piece == (|atlas: dialogs::AtlasView|
                choices_of(local_atlases@, area_is_local, atlas)),
            dialogs::choices_view(choices@) == list::collect(views.take(i as int), piece),
    {
        proof {
            list::lemma_collect_step(views, piece, i as int);
        }
        assert(views[i as int] == atlases@[i as int]@);
        let ghost before = choices@;
        if holds_atlas(local_atlases, atlases[i].id) == area_is_local {
            choices.push(FolderChoice { id: atlases[i].id, name: atlases[i].name.clone() });
            assert(dialogs::choices_view(choices@) =~= dialogs::choices_view(before)
                + choices_of(local_atlases@, area_is_local, views[i as int]));
        } else {
            assert(dialogs::choices_view(choices@) =~= dialogs::choices_view(before)
                + choices_of(local_atlases@, area_is_local, views[i as int]));
        }
    }
    assert(views.take(atlases.len() as int) =~= views);
    let less = |a: &FolderChoice, b: &FolderChoice| -> (r: bool)
        ensures
            r == area_list::name_before(a@.name, b@.name),
    {
        name_first(&a.name, &b.name)
    };
    proof {
        list::lemma_in_order_map(
            choices@,
            |choice: FolderChoice| choice@,
            |a: FolderChoice, b: FolderChoice| area_list::name_before(a@.name, b@.name),
            |a: FolderChoice<Seq<char>>, b: FolderChoice<Seq<char>>|
                area_list::name_before(a.name, b.name),
        );
    }
    sort_by(
        choices,
        less,
        Ghost(|a: FolderChoice, b: FolderChoice| area_list::name_before(a@.name, b@.name)),
    )
}

/// Whether a name is in a list.
fn holds_text(names: &Vec<String>, name: &str) -> (held: bool)
    ensures
        held == text::texts(names@).contains(name@),
{
    for i in 0..names.len()
        invariant
            forall|k: int| 0 <= k < i ==> #[trigger] text::texts(names@)[k] != name@,
    {
        assert(text::texts(names@)[i as int] == names@[i as int]@);
        if same_text(&names[i], name) {
            return true;
        }
    }
    false
}

/// The servers that are ticked after one was toggled.
pub open spec fn ticked(checked: Seq<Seq<char>>, entry: Seq<char>, show: bool) -> Seq<Seq<char>> {
    if !show {
        list::kept(checked, |other: Seq<char>| other != entry)
    } else if checked.contains(entry) {
        checked
    } else {
        checked.push(entry)
    }
}

/// Ticks a server, or takes its tick away.
fn tick(checked: Vec<String>, entry: &String, show: bool) -> (after: Vec<String>)
    ensures
        text::texts(after@) == ticked(text::texts(checked@), entry@, show),
{
    if !show {
        let test = |other: &String| -> (r: bool)
            ensures
                r == (other@ != entry@),
        {
            !same_text(other, entry)
        };
        proof {
            list::lemma_kept_map(
                checked@,
                |name: String| name@,
                |other: String| other@ != entry@,
                |other: Seq<char>| other != entry@,
            );
        }
        keep(checked, test, Ghost(|other: String| other@ != entry@))
    } else if holds_text(&checked, entry) {
        checked
    } else {
        let mut after = checked;
        let ghost before = after@;
        after.push(entry.clone());
        assert(text::texts(after@) =~= text::texts(before).push(entry@));
        after
    }
}

impl Dialogs {
    /// Offers the folders to move an area into. Only owners move areas.
    pub fn request_move(
        &mut self,
        atlas: &AtlasCache,
        area_id: AreaId,
        current_atlas: Option<AtlasId>,
        area_is_local: bool,
        local_atlases: &Vec<AtlasId>,
    )
        ensures
            final(self)@ == asking_move(old(self)@, *atlas, area_id, current_atlas, area_is_local, local_atlases@),
    {
        if let Some(area) = atlas.get_area(&area_id) {
            if area.access.is_owned {
                let folders = folder_choices(&self.atlases, local_atlases, area_is_local);
                self.modal = Some(
                    Modal::MoveArea {
                        area_id,
                        area_name: area.name.clone(),
                        current_atlas,
                        folders,
                    },
                );
            }
        }
    }

    /// Lists the servers that show an atlas or an area.
    pub fn request_servers(
        &mut self,
        atlas: &AtlasCache,
        target: ScopeTarget,
        servers: Vec<String>,
        checked: Vec<String>,
    )
        ensures
            final(self)@ == asking_servers(old(self)@, *atlas, target, text::texts(servers@), text::texts(checked@)),
    {
        let name = match target {
            ScopeTarget::Atlas(id) => self.atlas_name(id),
            ScopeTarget::Area(id) => match atlas.get_area(&id) {
                Some(area) => area.name.clone(),
                None => String::new(),
            },
        };
        self.modal = Some(Modal::ServersChecklist { target, name, servers, checked });
    }

    /// Ticks a server in the list, or takes its tick away. Returns the change of
    /// the association.
    pub fn toggle_server(&mut self, entry: String, show: bool) -> (delta: Option<ScopeDelta>)
        ensures
            scopes::opt_delta(delta) == server_delta(old(self)@, entry@, show),
            final(self)@ == server_toggled(old(self)@, entry@, show),
    {
        if let Some(Modal::ServersChecklist { target, checked, .. }) = &mut self.modal {
            let mut names: Vec<String> = Vec::new();
            std::mem::swap(&mut names, checked);
            *checked = tick(names, &entry, show);
            return Some(set_entry(*target, entry, show));
        }
        None
    }

    /// What the list of servers is about.
    pub fn listed_target(&self) -> (target: Option<ScopeTarget>)
        ensures
            target == match self@.modal {
                Some(Modal::ServersChecklist { target, .. }) => Some(target),
                _ => None,
            },
    {
        match &self.modal {
            Some(Modal::ServersChecklist { target, .. }) => Some(*target),
            _ => None,
        }
    }

    /// Takes the servers that now show the target of the list.
    pub fn servers_replaced(&mut self, now: Vec<String>)
        ensures
            final(self)@ == servers_known(old(self)@, text::texts(now@)),
    {
        if let Some(Modal::ServersChecklist { checked, .. }) = &mut self.modal {
            *checked = now;
        }
    }
}

} // verus!
