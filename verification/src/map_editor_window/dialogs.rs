//! The dialogs of the editor window, and the folders they manage.

use vstd::prelude::*;

use super::area_list::FolderKey;
use super::model::{AreaId, AtlasCache, AtlasId};
use super::navigation::SecretEntity;
use super::scopes::ScopeTarget;
use super::window::{self, area_owned};
use crate::text::{self, is_empty_text, trim};

verus! {

/// An atlas that the viewer owns or administers.
pub struct OwnedAtlas<T = String> {
    pub id: AtlasId,
    pub name: T,
    pub area_count: u64,
    pub is_owner: bool,
}

pub type AtlasView = OwnedAtlas<Seq<char>>;

impl View for OwnedAtlas<String> {
    type V = AtlasView;

    open spec fn view(&self) -> AtlasView {
        OwnedAtlas {
            id: self.id,
            name: self.name@,
            area_count: self.area_count,
            is_owner: self.is_owner,
        }
    }
}

/// The views of atlases.
pub open spec fn atlases_view(atlases: Seq<OwnedAtlas>) -> Seq<AtlasView> {
    atlases.map_values(|atlas: OwnedAtlas| atlas@)
}

/// A folder to move an area into.
pub struct FolderChoice<T = String> {
    pub id: AtlasId,
    pub name: T,
}

impl View for FolderChoice<String> {
    type V = FolderChoice<Seq<char>>;

    open spec fn view(&self) -> FolderChoice<Seq<char>> {
        FolderChoice { id: self.id, name: self.name@ }
    }
}

/// The views of choices.
pub open spec fn choices_view(choices: Seq<FolderChoice>) -> Seq<FolderChoice<Seq<char>>> {
    choices.map_values(|choice: FolderChoice| choice@)
}

/// The dialog that copies an area.
pub struct CopyDialog<T = String> {
    pub source: AreaId,
    pub source_name: T,
    pub name: T,
    /// The atlas that can be copied as a whole instead.
    pub atlas_id: Option<AtlasId>,
    pub busy: bool,
    pub error: Option<T>,
    pub atlas_report: Option<T>,
    /// An own area is duplicated.
    pub duplicate: bool,
}

impl View for CopyDialog<String> {
    type V = CopyDialog<Seq<char>>;

    open spec fn view(&self) -> CopyDialog<Seq<char>> {
        CopyDialog {
            source: self.source,
            source_name: self.source_name@,
            name: self.name@,
            atlas_id: self.atlas_id,
            busy: self.busy,
            error: text::opt_text(self.error),
            atlas_report: text::opt_text(self.atlas_report),
            duplicate: self.duplicate,
        }
    }
}

/// A dialog.
#[allow(inconsistent_fields)]
pub enum Modal<T = String, L = Vec<String>, E = Vec<SecretEntity>, F = Vec<FolderChoice>> {
    CreateArea { name: T, error: Option<T>, atlas_id: Option<AtlasId> },
    ConfirmDeleteArea { area_id: AreaId, name: T, room_count: usize },
    CopyArea(CopyDialog<T>),
    SecretsAudit { area_id: AreaId, entries: Option<E>, error: Option<T> },
    CreateAtlas { name: T, error: Option<T>, local: bool, cloud_available: bool },
    ConfirmDeleteAtlas { atlas_id: AtlasId, name: T, area_count: u64 },
    MoveArea { area_id: AreaId, area_name: T, current_atlas: Option<AtlasId>, folders: F },
    ServersChecklist { target: ScopeTarget, name: T, servers: L, checked: L },
    /// One that is managed elsewhere.
    Other,
}

pub type ModalView = Modal<
    Seq<char>,
    Seq<Seq<char>>,
    Seq<SecretEntity>,
    Seq<FolderChoice<Seq<char>>>,
>;

impl View for Modal<String, Vec<String>, Vec<SecretEntity>, Vec<FolderChoice>> {
    type V = ModalView;

    open spec fn view(&self) -> ModalView {
        match *self {
            Modal::CreateArea { name, error, atlas_id } => Modal::CreateArea {
                name: name@,
                error: text::opt_text(error),
                atlas_id,
            },
            Modal::ConfirmDeleteArea { area_id, name, room_count } => Modal::ConfirmDeleteArea {
                area_id,
                name: name@,
                room_count,
            },
            Modal::CopyArea(dialog) => Modal::CopyArea(dialog@),
            Modal::SecretsAudit { area_id, entries, error } => Modal::SecretsAudit {
                area_id,
                entries: match entries {
                    Some(entries) => Some(entries@),
                    None => None,
                },
                error: text::opt_text(error),
            },
            Modal::CreateAtlas { name, error, local, cloud_available } => Modal::CreateAtlas {
                name: name@,
                error: text::opt_text(error),
                local,
                cloud_available,
            },
            Modal::ConfirmDeleteAtlas { atlas_id, name, area_count } =>
                Modal::ConfirmDeleteAtlas { atlas_id, name: name@, area_count },
            Modal::MoveArea { area_id, area_name, current_atlas, folders } => Modal::MoveArea {
                area_id,
                area_name: area_name@,
                current_atlas,
                folders: choices_view(folders@),
            },
            Modal::ServersChecklist { target, name, servers, checked } =>
                Modal::ServersChecklist {
                    target,
                    name: name@,
                    servers: text::texts(servers@),
                    checked: text::texts(checked@),
                },
            Modal::Other => Modal::Other,
        }
    }
}

/// A name under way.
pub struct Renaming<I, T = String> {
    pub id: I,
    pub name: T,
}

/// The view of a name under way.
pub open spec fn renaming_view<I>(renaming: Option<Renaming<I, String>>) -> Option<
    Renaming<I, Seq<char>>,
> {
    match renaming {
        Some(renaming) => Some(Renaming { id: renaming.id, name: renaming.name@ }),
        None => None,
    }
}

/// What is open over the editor, and the folders.
pub struct Dialogs {
    pub modal: Option<Modal>,
    pub renaming_area: Option<Renaming<AreaId>>,
    pub renaming_atlas: Option<Renaming<AtlasId>>,
    pub atlases: Vec<OwnedAtlas>,
    pub collapsed: Vec<FolderKey>,
    /// A copy that was asked for and has not arrived.
    pub pending_copied_area: Option<AreaId>,
}

/// The dialogs over sequences.
pub struct DialogsView {
    pub modal: Option<ModalView>,
    pub renaming_area: Option<Renaming<AreaId, Seq<char>>>,
    pub renaming_atlas: Option<Renaming<AtlasId, Seq<char>>>,
    pub atlases: Seq<AtlasView>,
    pub collapsed: Seq<FolderKey>,
    pub pending_copied_area: Option<AreaId>,
}

/// The view of an optional dialog.
pub open spec fn opt_modal(modal: Option<Modal>) -> Option<ModalView> {
    match modal {
        Some(modal) => Some(modal@),
        None => None,
    }
}

impl View for Dialogs {
    type V = DialogsView;

    open spec fn view(&self) -> DialogsView {
        DialogsView {
            modal: opt_modal(self.modal),
            renaming_area: renaming_view(self.renaming_area),
            renaming_atlas: renaming_view(self.renaming_atlas),
            atlases: atlases_view(self.atlases@),
            collapsed: self.collapsed@,
            pending_copied_area: self.pending_copied_area,
        }
    }
}

/// With another dialog.
pub open spec fn with_modal(dialogs: DialogsView, modal: Option<ModalView>) -> DialogsView {
    DialogsView { modal, ..dialogs }
}

// ===== Areas =====

/// An area to create.
pub struct NewArea {
    pub name: String,
    pub atlas_id: Option<AtlasId>,
}

/// An area with its new name.
pub struct AreaRename {
    pub area_id: AreaId,
    pub name: String,
}

/// The dialogs once the name of a new area is asked for.
pub open spec fn asking_area(before: DialogsView, atlas_id: Option<AtlasId>) -> DialogsView {
    with_modal(
        before,
        Some(Modal::CreateArea { name: Seq::empty(), error: None, atlas_id }),
    )
}

/// The dialogs once the name of a new area is typed.
pub open spec fn area_named(before: DialogsView, value: Seq<char>) -> DialogsView {
    with_modal(
        before,
        match before.modal {
            Some(Modal::CreateArea { name, error, atlas_id }) => Some(
                Modal::CreateArea { name: value, error, atlas_id },
            ),
            other => other,
        },
    )
}

/// The dialogs once an area was created, or could not be.
pub open spec fn area_settled(before: DialogsView, failure: Option<Seq<char>>) -> DialogsView {
    with_modal(
        before,
        match failure {
            None => None,
            Some(failure) => match before.modal {
                Some(Modal::CreateArea { name, error, atlas_id }) => Some(
                    Modal::CreateArea { name, error: Some(failure), atlas_id },
                ),
                other => other,
            },
        },
    )
}

/// The dialogs once an area is being renamed.
pub open spec fn renaming_area(before: DialogsView, atlas: AtlasCache, area_id: AreaId) -> DialogsView {
    DialogsView {
        renaming_area: if window::owns(atlas, area_id) {
            Some(Renaming { id: area_id, name: atlas.area(area_id)->0.name@ })
        } else {
            before.renaming_area
        },
        ..before
    }
}

/// The dialogs once the new name of an area is typed.
pub open spec fn area_renamed(before: DialogsView, value: Seq<char>) -> DialogsView {
    DialogsView {
        renaming_area: match before.renaming_area {
            Some(renaming) => Some(Renaming { id: renaming.id, name: value }),
            None => None,
        },
        ..before
    }
}

/// The dialogs once it is asked whether to delete an area.
pub open spec fn asking_area_deletion(before: DialogsView, atlas: AtlasCache, area_id: AreaId) -> DialogsView {
    with_modal(
        before,
        if window::owns(atlas, area_id) {
            let area = atlas.area(area_id)->0;
            Some(
                Modal::ConfirmDeleteArea {
                    area_id,
                    name: area.name@,
                    room_count: area.rooms@.len() as usize,
                },
            )
        } else {
            before.modal
        },
    )
}

/// The area to create: its name and its atlas.
pub open spec fn wanted_area(before: DialogsView) -> Option<(Seq<char>, Option<AtlasId>)> {
    match before.modal {
        Some(Modal::CreateArea { name, atlas_id, .. }) => if text::trimmed(name).len() == 0 {
            None
        } else {
            Some((text::trimmed(name), atlas_id))
        },
        _ => None,
    }
}

/// The area to rename, with its new name.
pub open spec fn wanted_rename(before: DialogsView, atlas: AtlasCache) -> Option<(AreaId, Seq<char>)> {
    match before.renaming_area {
        Some(renaming) => if text::trimmed(renaming.name).len() > 0 && window::owns(
            atlas,
            renaming.id,
        ) {
            Some((renaming.id, text::trimmed(renaming.name)))
        } else {
            None
        },
        None => None,
    }
}

/// The area to delete.
pub open spec fn wanted_deletion(before: DialogsView, atlas: AtlasCache) -> Option<AreaId> {
    match before.modal {
        Some(Modal::ConfirmDeleteArea { area_id, .. }) => if window::owns(atlas, area_id) {
            Some(area_id)
        } else {
            None
        },
        _ => None,
    }
}

impl Dialogs {
    /// Nothing open; what is unassigned is collapsed.
    pub fn new() -> (dialogs: Self)
        ensures
            dialogs@ == (DialogsView {
                modal: None,
                renaming_area: None,
                renaming_atlas: None,
                atlases: Seq::<AtlasView>::empty(),
                collapsed: seq![FolderKey::Unassigned],
                pending_copied_area: None,
            }),
    {
        let mut collapsed: Vec<FolderKey> = Vec::new();
        collapsed.push(FolderKey::Unassigned);
        let dialogs = Dialogs {
            modal: None,
            renaming_area: None,
            renaming_atlas: None,
            atlases: Vec::new(),
            collapsed,
            pending_copied_area: None,
        };
        assert(dialogs@.atlases =~= Seq::empty());
        assert(dialogs@.collapsed =~= seq![FolderKey::Unassigned]);
        dialogs
    }

    /// Closes the dialog.
    pub fn dismiss(&mut self)
        ensures
            final(self)@ == with_modal(old(self)@, None),
    {
        self.modal = None;
    }

    /// Asks for the name of a new area, in an atlas or in none.
    pub fn request_area(&mut self, atlas_id: Option<AtlasId>)
        ensures
            final(self)@ == asking_area(old(self)@, atlas_id),
    {
        self.modal = Some(Modal::CreateArea { name: String::new(), error: None, atlas_id });
    }

    /// Takes what was typed as the name of a new area.
    pub fn area_name_changed(&mut self, value: String)
        ensures
            final(self)@ == area_named(old(self)@, value@),
    {
        if let Some(Modal::CreateArea { name, .. }) = &mut self.modal {
            *name = value;
        }
    }

    /// The area to create, when it has a name.
    pub fn confirm_area(&self) -> (area: Option<NewArea>)
        ensures
            match area {
                Some(area) => wanted_area(self@) == Some((area.name@, area.atlas_id)),
                None => wanted_area(self@) is None,
            },
    {
        if let Some(Modal::CreateArea { name, atlas_id, .. }) = &self.modal {
            let name = trim(name);
            if !is_empty_text(&name) {
                return Some(NewArea { name, atlas_id: *atlas_id });
            }
        }
        None
    }

    /// An area was created, or could not be.
    pub fn area_created(&mut self, failure: Option<String>)
        ensures
            final(self)@ == area_settled(old(self)@, text::opt_text(failure)),
    {
        match failure {
            None => {
                self.modal = None;
            },
            Some(failure) => {
                if let Some(Modal::CreateArea { error, .. }) = &mut self.modal {
                    *error = Some(failure);
                }
            },
        }
    }

    /// Starts to rename an area. Only owners do.
    pub fn start_area_rename(&mut self, atlas: &AtlasCache, area_id: AreaId)
        ensures
            final(self)@ == renaming_area(old(self)@, *atlas, area_id),
    {
        if let Some(area) = atlas.get_area(&area_id) {
            if area.access.is_owned {
                self.renaming_area = Some(Renaming { id: area_id, name: area.name.clone() });
            }
        }
    }

    /// Takes what was typed as the new name of an area.
    pub fn area_rename_changed(&mut self, value: String)
        ensures
            final(self)@ == area_renamed(old(self)@, value@),
    {
        if let Some(renaming) = &mut self.renaming_area {
            renaming.name = value;
        }
    }

    /// Stops renaming an area.
    pub fn cancel_area_rename(&mut self)
        ensures
            final(self)@ == (DialogsView { renaming_area: None, ..old(self)@ }),
    {
        self.renaming_area = None;
    }

    /// The area to rename, when it has a new name and the viewer owns it.
    pub fn commit_area_rename(&mut self, atlas: &AtlasCache) -> (rename: Option<AreaRename>)
        ensures
            final(self)@ == (DialogsView { renaming_area: None, ..old(self)@ }),
            match rename {
                Some(rename) => wanted_rename(old(self)@, *atlas) == Some(
                    (rename.area_id, rename.name@),
                ),
                None => wanted_rename(old(self)@, *atlas) is None,
            },
    {
        let taken = self.renaming_area.take();
        if let Some(renaming) = taken {
            let name = trim(&renaming.name);
            if !is_empty_text(&name) && area_owned(atlas, renaming.id) {
                return Some(AreaRename { area_id: renaming.id, name });
            }
        }
        None
    }

    /// Asks whether to delete an area. Only owners are asked.
    pub fn request_area_deletion(&mut self, atlas: &AtlasCache, area_id: AreaId)
        ensures
            final(self)@ == asking_area_deletion(old(self)@, *atlas, area_id),
    {
        if let Some(area) = atlas.get_area(&area_id) {
            if area.access.is_owned {
                self.modal = Some(
                    Modal::ConfirmDeleteArea {
                        area_id,
                        name: area.name.clone(),
                        room_count: area.rooms.len(),
                    },
                );
            }
        }
    }

    /// The area to delete: the one that was asked about, when the viewer still
    /// owns it.
    pub fn confirm_area_deletion(&mut self, atlas: &AtlasCache) -> (area: Option<AreaId>)
        ensures
            final(self)@ == with_modal(old(self)@, None),
            area == wanted_deletion(old(self)@, *atlas),
    {
        let taken = self.modal.take();
        if let Some(Modal::ConfirmDeleteArea { area_id, .. }) = taken {
            if area_owned(atlas, area_id) {
                return Some(area_id);
            }
        }
        None
    }
}

} // verus!
