//! How the answers to a dialog follow from what was asked and typed.

use vstd::prelude::*;

use super::copies;
use super::dialogs::{self, DialogsView, Modal};
use super::model::{AreaId, AtlasCache, AtlasId};
use super::navigation::SecretEntity;
use super::window;
use crate::text;

verus! {

/// Whether dialogs differ in the one that is open at most.
pub open spec fn differ_in_modal(a: DialogsView, b: DialogsView) -> bool {
    dialogs::with_modal(a, b.modal) == b
}

/// An area is created under the name that was typed, without the space around it, in the atlas
/// that it was asked for in; and not under a blank name. A failure is shown and the name can be
/// confirmed again; success closes the dialog.
pub proof fn law_a_new_area_gets_the_name_typed(
    before: DialogsView,
    atlas_id: Option<AtlasId>,
    value: Seq<char>,
    failure: Seq<char>,
)
    ensures
        ({
            let asked = dialogs::area_named(dialogs::asking_area(before, atlas_id), value);
            let failed = dialogs::area_settled(asked, Some(failure));
            &&& dialogs::wanted_area(asked) is Some == (text::trimmed(value).len() > 0)
            &&& dialogs::wanted_area(asked) is Some ==> dialogs::wanted_area(asked)->0 == (
                text::trimmed(value),
                atlas_id,
            )
            &&& dialogs::wanted_area(failed) == dialogs::wanted_area(asked)
            &&& failed.modal is Some && failed.modal->0 is CreateArea && failed.modal->0->CreateArea_error
                == Some(failure)
            &&& dialogs::area_settled(asked, None).modal is None
            &&& differ_in_modal(before, asked) && differ_in_modal(before, failed) && differ_in_modal(
                before,
                dialogs::area_settled(asked, None),
            )
        }),
{
}

/// An own area is renamed to what was typed, without the space around it, and not to a blank
/// name. The rename of another's area is not even started.
pub proof fn law_an_own_area_gets_the_name_typed(
    before: DialogsView,
    atlas: AtlasCache,
    area_id: AreaId,
    value: Seq<char>,
)
    ensures
        ({
            let started = dialogs::renaming_area(before, atlas, area_id);
            let typed = dialogs::area_renamed(started, value);
            &&& window::owns(atlas, area_id) ==> started.renaming_area is Some
                && started.renaming_area->0.name == atlas.area(area_id)->0.name@
            &&& window::owns(atlas, area_id) && text::trimmed(value).len() > 0 ==> dialogs::wanted_rename(
                typed,
                atlas,
            ) == Some((area_id, text::trimmed(value)))
            &&& window::owns(atlas, area_id) && text::trimmed(value).len() == 0 ==> dialogs::wanted_rename(
                typed,
                atlas,
            ) is None
            &&& !window::owns(atlas, area_id) ==> started == before
            &&& typed.modal == before.modal
            &&& before.renaming_area is None ==> dialogs::area_renamed(before, value) == before
        }),
{
}

/// An area is deleted only when it is the viewer's own, and the one that was asked about; the
/// question names it and counts its rooms.
pub proof fn law_the_area_asked_about_is_deleted(before: DialogsView, atlas: AtlasCache, area_id: AreaId)
    requires
        atlas.area(area_id) is Some ==> atlas.area(area_id)->0.rooms@.len() <= usize::MAX,
    ensures
        ({
            let asked = dialogs::asking_area_deletion(before, atlas, area_id);
            &&& window::owns(atlas, area_id) ==> dialogs::wanted_deletion(asked, atlas) == Some(area_id)
                && asked.modal is Some && asked.modal->0 is ConfirmDeleteArea
                && asked.modal->0->ConfirmDeleteArea_name == atlas.area(area_id)->0.name@
                && asked.modal->0->room_count == atlas.area(area_id)->0.rooms@.len()
            &&& !window::owns(atlas, area_id) ==> asked == before
            &&& dialogs::wanted_deletion(asked, atlas) is Some ==> window::owns(
                atlas,
                dialogs::wanted_deletion(asked, atlas)->0,
            )
            &&& differ_in_modal(before, asked)
        }),
{
}

/// Whether an area may be copied: duplicated by its owner, or copied by another whom the owner
/// allows it.
pub open spec fn may_copy(atlas: AtlasCache, area_id: Option<AreaId>, duplicate: bool) -> bool {
    area_id is Some && atlas.area(area_id->0) is Some && {
        let access = atlas.area(area_id->0)->0.access;
        if duplicate {
            access.is_owned
        } else {
            !access.is_owned && access.can_copy
        }
    }
}

/// A copy is asked for of the area that it was offered for, under the name that was typed, and
/// of none that may not be copied. While a copy is under way no other is asked for; after a
/// failure it can be asked for again.
pub proof fn law_a_copy_gets_the_name_typed(
    before: DialogsView,
    atlas: AtlasCache,
    area_id: Option<AreaId>,
    filed_in: Option<AtlasId>,
    duplicate: bool,
    value: Seq<char>,
    failure: copies::CopyFailure,
    copied: AreaId,
)
    ensures
        ({
            let offered = copies::asking_copy(before, atlas, area_id, filed_in, duplicate);
            let asked = copies::copy_named(offered, value);
            let busy = copies::copy_busy(asked);
            let failed = copies::copy_settled(busy, Err(failure), duplicate);
            let done = copies::copy_settled(busy, Ok(copied), duplicate);
            &&& !may_copy(atlas, area_id, duplicate) ==> offered == before
            &&& may_copy(atlas, area_id, duplicate) ==> {
                &&& offered.modal is Some && offered.modal->0 is CopyArea
                &&& offered.modal->0->CopyArea_0.source == area_id->0
                &&& offered.modal->0->CopyArea_0.source_name == atlas.area(area_id->0)->0.name@
                &&& text::trimmed(value).len() > 0 ==> copies::wanted_copy(asked) == Some(
                    (area_id->0, text::trimmed(value), duplicate),
                )
                &&& text::trimmed(value).len() == 0 ==> copies::wanted_copy(asked) is None
                &&& copies::wanted_copy(busy) is None && copies::wanted_atlas_copy(busy) is None
                &&& copies::wanted_copy(failed) == copies::wanted_copy(asked)
                &&& copies::wanted_atlas_copy(asked) == if duplicate {
                    None
                } else {
                    filed_in
                }
            }
            &&& done.modal is None && done.pending_copied_area == Some(copied)
            &&& copies::copy_to_disable(Ok(copied), duplicate) == if duplicate {
                Some(copied)
            } else {
                None
            }
            &&& copies::copy_to_disable(Err(failure), duplicate) is None
            &&& differ_in_modal(before, asked) && differ_in_modal(before, failed)
        }),
{
}

/// Whether the list of secrets of an area is open, with its error line.
pub open spec fn lists(
    dialogs: DialogsView,
    area_id: AreaId,
    list: Seq<SecretEntity>,
    error: Option<Seq<char>>,
) -> bool {
    match dialogs.modal {
        Some(Modal::SecretsAudit { area_id: open, entries, error: shown }) => open == area_id && entries == Some(
            list,
        ) && shown == error,
        _ => false,
    }
}

/// The list of secrets shows what was fetched for the area that it was asked for. A failure is
/// shown beside what is listed, and only in the list of its area; a cleared mark has the list of
/// its area fetched anew.
pub proof fn law_an_audit_lists_what_was_fetched(
    before: DialogsView,
    area_id: AreaId,
    other: AreaId,
    list: Vec<SecretEntity>,
    failure: String,
)
    ensures
        ({
            let asked = copies::asking_audit(before, Some(area_id));
            let listed = copies::audit_listed(asked, Ok(list));
            let failed = copies::audit_listed(listed, Err(failure));
            let refused = copies::audit_settled(listed, other, Some(failure@));
            &&& copies::asking_audit(before, None) == before
            &&& lists(listed, area_id, list@, None)
            &&& lists(failed, area_id, list@, Some(failure@))
            &&& refused == if other == area_id {
                failed
            } else {
                listed
            }
            &&& copies::audit_settled(listed, other, None) == listed
            &&& copies::audit_to_fetch(listed, other, None) == if other == area_id {
                Some(area_id)
            } else {
                None
            }
            &&& copies::audit_to_fetch(listed, other, Some(failure@)) is None
            &&& differ_in_modal(before, failed)
        }),
{
}

} // verus!
