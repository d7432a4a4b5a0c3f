//! The dialogs that copy areas and that list what is secret.

use vstd::prelude::*;

use super::dialogs::{self, CopyDialog, Dialogs, DialogsView, Modal};
use super::model::{AreaId, AtlasCache, AtlasId};
use super::navigation::SecretEntity;
use super::window::{self, active_area};
use crate::text::{self, decimal_text, is_empty_text, join2, join3, trim};

verus! {

/// Why a copy failed.
pub enum CopyFailure {
    /// The map does not exist, or the viewer may not copy it.
    NotFoundOrNoAccess,
    Other(String),
}

/// What is said of a failure.
pub open spec fn failure_text(failure: CopyFailure) -> Seq<char> {
    match failure {
        CopyFailure::NotFoundOrNoAccess => "Copying isn't available for this map."@,
        CopyFailure::Other(message) => message@,
    }
}

/// What is said of a failure. One that would tell whether a map exists says no more
/// than that it cannot be copied.
pub fn copy_error_message(failure: &CopyFailure) -> (message: String)
    ensures
        message@ == failure_text(*failure),
{
    match failure {
        CopyFailure::NotFoundOrNoAccess => String::from_str("Copying isn't available for this map."),
        CopyFailure::Other(message) => message.clone(),
    }
}

/// The dialog that opens for an area, if it may be copied: an own area is
/// duplicated, a shared one is copied where its owner allows it.
pub open spec fn copy_dialog(
    atlas: AtlasCache,
    area_id: Option<AreaId>,
    filed_in: Option<AtlasId>,
    duplicate: bool,
) -> Option<CopyDialog<Seq<char>>> {
    match window::active(atlas, area_id) {
        Some(area) => if (duplicate && area.access.is_owned) || (!duplicate
            && !area.access.is_owned && area.access.can_copy) {
            Some(
                CopyDialog {
                    source: area_id->0,
                    source_name: area.name@,
                    name: area.name@ + " (copy)"@,
                    atlas_id: if duplicate {
                        None
                    } else {
                        filed_in
                    },
                    busy: false,
                    error: None,
                    atlas_report: None,
                    duplicate,
                },
            )
        } else {
            None
        },
        None => None,
    }
}

/// A copy to ask for.
pub struct CopyRequest {
    pub source: AreaId,
    pub name: String,
    pub duplicate: bool,
}

/// A copied atlas.
pub struct AtlasCopy {
    pub copied: Vec<AreaId>,
    /// How many areas could not be copied.
    pub skipped: usize,
}

/// What is said of a copied atlas.
pub open spec fn report_text(copied: nat, skipped: nat) -> Seq<char> {
    "Copied "@ + text::decimal(copied) + " areas; skipped "@ + text::decimal(skipped)
        + " (not copyable)."@
}

/// The dialogs after an atlas was copied.
pub open spec fn after_atlas_copy(before: DialogsView, result: Result<AtlasCopy, CopyFailure>) -> DialogsView {
    match before.modal {
        Some(Modal::CopyArea(dialog)) => match result {
            Ok(report) => DialogsView {
                modal: Some(
                    Modal::CopyArea(
                        CopyDialog {
                            busy: false,
                            atlas_report: Some(
                                report_text(report.copied@.len(), report.skipped as nat),
                            ),
                            ..dialog
                        },
                    ),
                ),
                pending_copied_area: if report.copied@.len() > 0 {
                    Some(report.copied@[0])
                } else {
                    None
                },
                ..before
            },
            Err(failure) => dialogs::with_modal(
                before,
                Some(
                    Modal::CopyArea(
                        CopyDialog { busy: false, error: Some(failure_text(failure)), ..dialog },
                    ),
                ),
            ),
        },
        _ => before,
    }
}

/// The dialogs once a copy is offered.
pub open spec fn asking_copy(
    before: DialogsView,
    atlas: AtlasCache,
    area_id: Option<AreaId>,
    filed_in: Option<AtlasId>,
    duplicate: bool,
) -> DialogsView {
    dialogs::with_modal(
        before,
        match copy_dialog(atlas, area_id, filed_in, duplicate) {
            Some(dialog) => Some(Modal::CopyArea(dialog)),
            None => before.modal,
        },
    )
}

/// The dialogs once the name of a copy is typed.
pub open spec fn copy_named(before: DialogsView, value: Seq<char>) -> DialogsView {
    dialogs::with_modal(
        before,
        match before.modal {
            Some(Modal::CopyArea(dialog)) => Some(
                Modal::CopyArea(CopyDialog { name: value, ..dialog }),
            ),
            other => other,
        },
    )
}

/// The dialogs once an area was copied, or could not be.
pub open spec fn copy_settled(
    before: DialogsView,
    result: Result<AreaId, CopyFailure>,
    duplicate: bool,
) -> DialogsView {
    match result {
        Ok(area_id) => DialogsView {
            modal: None,
            pending_copied_area: Some(area_id),
            ..before
        },
        Err(failure) => dialogs::with_modal(
            before,
            match before.modal {
                Some(Modal::CopyArea(dialog)) => Some(
                    Modal::CopyArea(
                        CopyDialog {
                            busy: false,
                            error: Some(failure_text(failure)),
                            ..dialog
                        },
                    ),
                ),
                other => other,
            },
        ),
    }
}

/// The dialogs once the list of what is secret arrived, or could not be had.
pub open spec fn audit_listed(before: DialogsView, result: Result<Vec<SecretEntity>, String>) -> DialogsView {
    dialogs::with_modal(
        before,
        match before.modal {
            Some(Modal::SecretsAudit { area_id, entries, error }) => Some(
                match result {
                    Ok(list) => Modal::SecretsAudit {
                        area_id,
                        entries: Some(list@),
                        error: None,
                    },
                    Err(message) => Modal::SecretsAudit {
                        area_id,
                        entries,
                        error: Some(message@),
                    },
                },
            ),
            other => other,
        },
    )
}

/// The dialogs once a mark was cleared, or could not be.
pub open spec fn audit_settled(before: DialogsView, area_id: AreaId, failure: Option<Seq<char>>) -> DialogsView {
    dialogs::with_modal(
        before,
        match (before.modal, failure) {
            (
                Some(Modal::SecretsAudit { area_id: open, entries, error }),
                Some(message),
            ) => Some(
                Modal::SecretsAudit {
                    area_id: open,
                    entries,
                    error: if open == area_id {
                        Some(message)
                    } else {
                        error
                    },
                },
            ),
            (other, _) => other,
        },
    )
}

/// The copy to ask for: its source, its name, and whether it is a duplicate.
pub open spec fn wanted_copy(before: DialogsView) -> Option<(AreaId, Seq<char>, bool)> {
    match before.modal {
        Some(Modal::CopyArea(dialog)) => if dialog.busy || text::trimmed(dialog.name).len() == 0 {
            None
        } else {
            Some((dialog.source, text::trimmed(dialog.name), dialog.duplicate))
        },
        _ => None,
    }
}

/// The dialogs while a copy is under way.
pub open spec fn copy_busy(before: DialogsView) -> DialogsView {
    dialogs::with_modal(
        before,
        match before.modal {
            Some(Modal::CopyArea(dialog)) => Some(
                Modal::CopyArea(CopyDialog { busy: true, error: None, ..dialog }),
            ),
            other => other,
        },
    )
}

/// The copy that starts disabled: a duplicate.
pub open spec fn copy_to_disable(result: Result<AreaId, CopyFailure>, duplicate: bool) -> Option<AreaId> {
    match result {
        Ok(area_id) => if duplicate {
            Some(area_id)
        } else {
            None
        },
        Err(_) => None,
    }
}

/// The atlas to copy as a whole.
pub open spec fn wanted_atlas_copy(before: DialogsView) -> Option<AtlasId> {
    match before.modal {
        Some(Modal::CopyArea(dialog)) => if dialog.busy {
            None
        } else {
            dialog.atlas_id
        },
        _ => None,
    }
}

/// The dialogs once the list of what is secret is asked for.
pub open spec fn asking_audit(before: DialogsView, area_id: Option<AreaId>) -> DialogsView {
    dialogs::with_modal(
        before,
        match area_id {
            Some(area_id) => Some(Modal::SecretsAudit { area_id, entries: None, error: None }),
            None => before.modal,
        },
    )
}

/// The area whose list is fetched anew once a mark was cleared.
pub open spec fn audit_to_fetch(before: DialogsView, area_id: AreaId, failure: Option<Seq<char>>) -> Option<
    AreaId,
> {
    match (before.modal, failure) {
        (Some(Modal::SecretsAudit { area_id: open, .. }), None) => if open == area_id {
            Some(area_id)
        } else {
            None
        },
        _ => None,
    }
}

impl Dialogs {
    /// Opens the dialog that duplicates or copies the area on screen.
    pub fn request_copy(
        &mut self,
        atlas: &AtlasCache,
        area_id: Option<AreaId>,
        filed_in: Option<AtlasId>,
        duplicate: bool,
    )
        ensures
            final(self)@ == asking_copy(old(self)@, *atlas, area_id, filed_in, duplicate),
    {
        if let Some(area) = active_area(atlas, area_id) {
            if let Some(source) = area_id {
                let owned = area.access.is_owned;
                if (duplicate && owned) || (!duplicate && !owned && area.access.can_copy) {
                    let dialog = CopyDialog {
                        source,
                        source_name: area.name.clone(),
                        name: join2(&area.name, " (copy)"),
                        atlas_id: if duplicate {
                            None
                        } else {
                            filed_in
                        },
                        busy: false,
                        error: None,
                        atlas_report: None,
                        duplicate,
                    };
                    self.modal = Some(Modal::CopyArea(dialog));
                }
            }
        }
    }

    /// Takes what was typed as the name of a copy.
    pub fn copy_name_changed(&mut self, value: String)
        ensures
            final(self)@ == copy_named(old(self)@, value@),
    {
        if let Some(Modal::CopyArea(dialog)) = &mut self.modal {
            dialog.name = value;
        }
    }

    /// The copy to ask for, when it has a name and none is under way. The dialog
    /// is then busy.
    pub fn confirm_copy(&mut self) -> (request: Option<CopyRequest>)
        ensures
            match request {
                Some(request) => wanted_copy(old(self)@) == Some(
                    (request.source, request.name@, request.duplicate),
                ) && final(self)@ == copy_busy(old(self)@),
                None => wanted_copy(old(self)@) is None && final(self)@ == old(self)@,
            },
    {
        if let Some(Modal::CopyArea(dialog)) = &mut self.modal {
            let name = trim(&dialog.name);
            if !dialog.busy && !is_empty_text(&name) {
                dialog.busy = true;
                dialog.error = None;
                return Some(
                    CopyRequest { source: dialog.source, name, duplicate: dialog.duplicate },
                );
            }
        }
        None
    }

    /// An area was copied, or could not be. A copy is awaited; a duplicate starts
    /// disabled, so that it does not compete with its source: then its id is
    /// returned.
    pub fn copy_completed(&mut self, result: Result<AreaId, CopyFailure>, duplicate: bool) -> (disable:
        Option<AreaId>)
        ensures
            final(self)@ == copy_settled(old(self)@, result, duplicate),
            disable == copy_to_disable(result, duplicate),
    {
        match result {
            Ok(area_id) => {
                self.modal = None;
                self.pending_copied_area = Some(area_id);
                if duplicate {
                    Some(area_id)
                } else {
                    None
                }
            },
            Err(failure) => {
                if let Some(Modal::CopyArea(dialog)) = &mut self.modal {
                    dialog.busy = false;
                    dialog.error = Some(copy_error_message(&failure));
                }
                None
            },
        }
    }

    /// The atlas to copy as a whole, when the dialog offers one and no copy is
    /// under way. The dialog is then busy.
    pub fn request_atlas_copy(&mut self) -> (atlas_id: Option<AtlasId>)
        ensures
            atlas_id == wanted_atlas_copy(old(self)@),
            final(self)@ == if atlas_id is Some {
                copy_busy(old(self)@)
            } else {
                old(self)@
            },
    {
        if let Some(Modal::CopyArea(dialog)) = &mut self.modal {
            if let Some(atlas_id) = dialog.atlas_id {
                if !dialog.busy {
                    dialog.busy = true;
                    dialog.error = None;
                    return Some(atlas_id);
                }
            }
        }
        None
    }

    /// An atlas was copied, or could not be. The first of its areas is awaited.
    pub fn atlas_copied(&mut self, result: Result<AtlasCopy, CopyFailure>)
        ensures
            final(self)@ == after_atlas_copy(old(self)@, result),
    {
        let mut awaited: Option<Option<AreaId>> = None;
        if let Some(Modal::CopyArea(dialog)) = &mut self.modal {
            dialog.busy = false;
            match result {
                Ok(report) => {
                    let copied = decimal_text(report.copied.len() as u64);
                    let skipped = decimal_text(report.skipped as u64);
                    let start = join3("Copied ", &copied, " areas; skipped ");
                    dialog.atlas_report = Some(join3(&start, &skipped, " (not copyable)."));
                    awaited = Some(
                        if report.copied.len() > 0 {
                            Some(report.copied[0])
                        } else {
                            None
                        },
                    );
                },
                Err(failure) => {
                    dialog.error = Some(copy_error_message(&failure));
                },
            }
        }
        if let Some(area) = awaited {
            self.pending_copied_area = area;
        }
    }

    /// Opens the list of what is secret in the area on screen, and returns the area
    /// whose list is to be fetched.
    pub fn request_audit(&mut self, area_id: Option<AreaId>) -> (fetched: Option<AreaId>)
        ensures
            fetched == area_id,
            final(self)@ == asking_audit(old(self)@, area_id),
    {
        if let Some(area_id) = area_id {
            self.modal = Some(Modal::SecretsAudit { area_id, entries: None, error: None });
        }
        area_id
    }

    /// The list of what is secret arrived, or could not be had: then the list that
    /// is there stays.
    pub fn audit_loaded(&mut self, result: Result<Vec<SecretEntity>, String>)
        ensures
            final(self)@ == audit_listed(old(self)@, result),
    {
        if let Some(Modal::SecretsAudit { entries, error, .. }) = &mut self.modal {
            match result {
                Ok(list) => {
                    *entries = Some(list);
                    *error = None;
                },
                Err(message) => {
                    *error = Some(message);
                },
            }
        }
    }

    /// The area whose secrets are listed.
    pub fn audited_area(&self) -> (area_id: Option<AreaId>)
        ensures
            area_id == match self@.modal {
                Some(Modal::SecretsAudit { area_id, .. }) => Some(area_id),
                _ => None,
            },
    {
        match &self.modal {
            Some(Modal::SecretsAudit { area_id, .. }) => Some(*area_id),
            _ => None,
        }
    }

    /// A mark was cleared in an area, or could not be. Returns the area whose list
    /// is to be fetched anew: the one that is still on screen.
    pub fn audit_unmarked(&mut self, area_id: AreaId, failure: Option<String>) -> (fetched: Option<
        AreaId,
    >)
        ensures
            final(self)@ == audit_settled(old(self)@, area_id, text::opt_text(failure)),
            fetched == audit_to_fetch(old(self)@, area_id, text::opt_text(failure)),
    {
        if let Some(Modal::SecretsAudit { area_id: open, error, .. }) = &mut self.modal {
            if open.0 == area_id.0 {
                match failure {
                    None => {
                        return Some(area_id);
                    },
                    Some(message) => {
                        *error = Some(message);
                    },
                }
            }
        }
        None
    }
}

} // verus!
