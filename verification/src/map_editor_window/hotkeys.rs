//! Keys of the editor window.

use vstd::prelude::*;

use super::edits::{self, can_shift_levels, shift_selection_level};
use super::model::AtlasCache;
use super::window::{
    self, active_area, can_edit_active_area, gate_command, request_deletion, Edit, EditView, EditorChange, EditorState,
    Tool,
};
use crate::text::same_text;

verus! {

/// What a key asks for.
#[derive(Clone, Copy, Debug, PartialEq, Eq, Structural)]
pub enum Hotkey {
    Delete,
    Nudge(i32, i32),
    Undo,
    Redo,
    Copy,
    Cut,
    Paste,
    Escape,
    LevelUp,
    LevelDown,
    MoveLevelUp,
    MoveLevelDown,
}

/// A window of the program.
#[derive(Clone, Copy, Debug, PartialEq, Eq, Structural)]
pub struct WindowId(pub u64);

/// What a key asks of a window: nothing where it was pressed in another.
pub open spec fn asked_of(own: WindowId, pressed_in: WindowId, hotkey: Hotkey) -> Option<Hotkey> {
    if pressed_in == own {
        Some(hotkey)
    } else {
        None
    }
}

/// What a key asks of a window: nothing where it was pressed in another.
pub fn own_hotkey(own: WindowId, pressed_in: WindowId, hotkey: Hotkey) -> (asked: Option<Hotkey>)
    ensures
        asked == asked_of(own, pressed_in, hotkey),
        asked is None <==> own != pressed_in,
{
    if pressed_in == own {
        Some(hotkey)
    } else {
        None
    }
}

/// A key.
pub enum Key<T = String> {
    Delete,
    Backspace,
    ArrowLeft,
    ArrowRight,
    ArrowUp,
    ArrowDown,
    Escape,
    PageUp,
    PageDown,
    Character(T),
    Other,
}

impl View for Key<String> {
    type V = Key<Seq<char>>;

    open spec fn view(&self) -> Key<Seq<char>> {
        match *self {
            Key::Delete => Key::Delete,
            Key::Backspace => Key::Backspace,
            Key::ArrowLeft => Key::ArrowLeft,
            Key::ArrowRight => Key::ArrowRight,
            Key::ArrowUp => Key::ArrowUp,
            Key::ArrowDown => Key::ArrowDown,
            Key::Escape => Key::Escape,
            Key::PageUp => Key::PageUp,
            Key::PageDown => Key::PageDown,
            Key::Character(text) => Key::Character(text@),
            Key::Other => Key::Other,
        }
    }
}

/// The modifiers held.
#[derive(Clone, Copy, Debug, PartialEq, Eq, Structural)]
pub struct Modifiers {
    pub command: bool,
    pub shift: bool,
}

/// What a character key asks for with the command key, in either case.
pub open spec fn character_hotkey(text: Seq<char>, shift: bool) -> Option<Hotkey> {
    if text == "z"@ || text == "Z"@ {
        if shift {
            Some(Hotkey::Redo)
        } else {
            Some(Hotkey::Undo)
        }
    } else if text == "y"@ || text == "Y"@ {
        Some(Hotkey::Redo)
    } else if text == "c"@ || text == "C"@ {
        Some(Hotkey::Copy)
    } else if text == "x"@ || text == "X"@ {
        Some(Hotkey::Cut)
    } else if text == "v"@ || text == "V"@ {
        Some(Hotkey::Paste)
    } else {
        None
    }
}

/// What a key asks for.
pub open spec fn hotkey_of(key: Key<Seq<char>>, modifiers: Modifiers) -> Option<Hotkey> {
    match key {
        Key::Delete | Key::Backspace => Some(Hotkey::Delete),
        Key::ArrowLeft => Some(Hotkey::Nudge((-1) as i32, 0)),
        Key::ArrowRight => Some(Hotkey::Nudge(1, 0)),
        Key::ArrowUp => Some(Hotkey::Nudge(0, (-1) as i32)),
        Key::ArrowDown => Some(Hotkey::Nudge(0, 1)),
        Key::Escape => Some(Hotkey::Escape),
        Key::PageUp => if modifiers.command {
            Some(Hotkey::MoveLevelUp)
        } else {
            Some(Hotkey::LevelUp)
        },
        Key::PageDown => if modifiers.command {
            Some(Hotkey::MoveLevelDown)
        } else {
            Some(Hotkey::LevelDown)
        },
        Key::Character(text) => if modifiers.command {
            character_hotkey(text, modifiers.shift)
        } else {
            None
        },
        Key::Other => None,
    }
}

fn is_letter(text: &str, lower: &str, upper: &str) -> (is: bool)
    ensures
        is == (text@ == lower@ || text@ == upper@),
{
    same_text(text, lower) || same_text(text, upper)
}

/// What a key asks for. A key that a focused widget took, such as one typed into
/// an input, asks for nothing.
pub fn editor_hotkeys(captured: bool, key: &Key, modifiers: Modifiers) -> (hotkey: Option<Hotkey>)
    ensures
        hotkey == if captured {
            None
        } else {
            hotkey_of(key@, modifiers)
        },
{
    if captured {
        return None;
    }
    match key {
        Key::Delete | Key::Backspace => Some(Hotkey::Delete),
        Key::ArrowLeft => Some(Hotkey::Nudge(-1, 0)),
        Key::ArrowRight => Some(Hotkey::Nudge(1, 0)),
        Key::ArrowUp => Some(Hotkey::Nudge(0, -1)),
        Key::ArrowDown => Some(Hotkey::Nudge(0, 1)),
        Key::Escape => Some(Hotkey::Escape),
        Key::PageUp => if modifiers.command {
            Some(Hotkey::MoveLevelUp)
        } else {
            Some(Hotkey::LevelUp)
        },
        Key::PageDown => if modifiers.command {
            Some(Hotkey::MoveLevelDown)
        } else {
            Some(Hotkey::LevelDown)
        },
        Key::Character(text) => {
            if !modifiers.command {
                None
            } else if is_letter(text, "z", "Z") {
                if modifiers.shift {
                    Some(Hotkey::Redo)
                } else {
                    Some(Hotkey::Undo)
                }
            } else if is_letter(text, "y", "Y") {
                Some(Hotkey::Redo)
            } else if is_letter(text, "c", "C") {
                Some(Hotkey::Copy)
            } else if is_letter(text, "x", "X") {
                Some(Hotkey::Cut)
            } else if is_letter(text, "v", "V") {
                Some(Hotkey::Paste)
            } else {
                None
            }
        },
        Key::Other => None,
    }
}

/// What is open over the editor.
#[derive(Clone, Copy, Debug, PartialEq, Eq, Structural)]
pub struct Overlays {
    pub modal: bool,
    pub renaming_area: bool,
    pub renaming_atlas: bool,
}

/// What is left to do after a key.
pub enum Step<E = Edit> {
    Nothing,
    Edit(E),
    /// Copy the selection.
    Copy,
    /// Copy the selection, then take what was copied out.
    Cut,
    Paste,
    /// Move the selection by so many units.
    Move(i32, i32),
    Undo,
    Redo,
    CloseModal,
    CancelAreaRename,
    CancelAtlasRename,
}

impl View for Step<Edit> {
    type V = Step<EditView>;

    open spec fn view(&self) -> Step<EditView> {
        match *self {
            Step::Nothing => Step::Nothing,
            Step::Edit(edit) => Step::Edit(edit@),
            Step::Copy => Step::Copy,
            Step::Cut => Step::Cut,
            Step::Paste => Step::Paste,
            Step::Move(dx, dy) => Step::Move(dx, dy),
            Step::Undo => Step::Undo,
            Step::Redo => Step::Redo,
            Step::CloseModal => Step::CloseModal,
            Step::CancelAreaRename => Step::CancelAreaRename,
            Step::CancelAtlasRename => Step::CancelAtlasRename,
        }
    }
}

impl Step {
    /// The command, when there is one, can be pushed.
    pub open spec fn wf(self) -> bool {
        self matches Step::Edit(edit) ==> edit.wf()
    }
}

/// Changes without a command.
pub open spec fn only(change: EditorChange) -> Step<EditView> {
    Step::Edit(
        Edit {
            command: None,
            changes: seq![change],
            selects_created: false,
            resync: false,
        },
    )
}

/// What moving the selection by levels amounts to. The view follows, so that the
/// selection stays in sight.
pub open spec fn level_move(state: EditorState, atlas: AtlasCache, delta: i32) -> Step<EditView> {
    match state.area_id {
        None => Step::Nothing,
        Some(area_id) => Step::Edit(
            Edit {
                command: window::gated_command(
                    atlas,
                    state.area_id,
                    edits::selection_command(
                        atlas,
                        area_id,
                        state.selection@,
                        edits::level_edit(delta as int),
                        edits::level_edit(0),
                    ),
                ),
                changes: if state.selection@.len() == 0 {
                    Seq::empty()
                } else {
                    seq![EditorChange::SetLevelKeepingSelection((state.level + delta) as i32)]
                },
                selects_created: false,
                resync: true,
            },
        ),
    }
}

/// What escape does: it closes what is on top, then puts the tool away, then
/// clears the selection.
pub open spec fn escaped(state: EditorState, overlays: Overlays) -> Step<EditView> {
    if overlays.modal {
        Step::CloseModal
    } else if overlays.renaming_area {
        Step::CancelAreaRename
    } else if overlays.renaming_atlas {
        Step::CancelAtlasRename
    } else if state.tool == Tool::Select {
        only(EditorChange::ClearSelection)
    } else {
        only(EditorChange::SetTool(Tool::Select))
    }
}

/// What is left to do after a key. History is not replayed into an area that may
/// only be viewed.
pub open spec fn handled(
    state: EditorState,
    overlays: Overlays,
    atlas: AtlasCache,
    hotkey: Hotkey,
) -> Step<EditView> {
    match hotkey {
        Hotkey::Delete => Step::Edit(window::deletion_edit(state, atlas)),
        Hotkey::Copy => Step::Copy,
        Hotkey::Cut => Step::Cut,
        Hotkey::Paste => Step::Paste,
        Hotkey::Nudge(dx, dy) => if state.selection@.len() == 0 {
            Step::Nothing
        } else {
            Step::Move(dx, dy)
        },
        Hotkey::Undo => if window::may_edit(atlas, state.area_id) {
            Step::Undo
        } else {
            Step::Nothing
        },
        Hotkey::Redo => if window::may_edit(atlas, state.area_id) {
            Step::Redo
        } else {
            Step::Nothing
        },
        Hotkey::Escape => escaped(state, overlays),
        Hotkey::LevelUp => only(EditorChange::SetLevel((state.level + 1) as i32)),
        Hotkey::LevelDown => only(EditorChange::SetLevel((state.level - 1) as i32)),
        Hotkey::MoveLevelUp => level_move(state, atlas, 1),
        Hotkey::MoveLevelDown => level_move(state, atlas, (-1) as i32),
    }
}

/// Whether the levels that a key leads to can be represented.
pub open spec fn level_reachable(state: EditorState, atlas: AtlasCache, hotkey: Hotkey) -> bool {
    match hotkey {
        Hotkey::LevelUp => state.level < i32::MAX,
        Hotkey::LevelDown => state.level > i32::MIN,
        Hotkey::MoveLevelUp => state.level < i32::MAX && levels_reachable(state, atlas, 1),
        Hotkey::MoveLevelDown => state.level > i32::MIN && levels_reachable(state, atlas, (-1) as i32),
        _ => true,
    }
}

/// Whether the levels that the selection moves to can be represented.
pub open spec fn levels_reachable(state: EditorState, atlas: AtlasCache, delta: i32) -> bool {
    window::active(atlas, state.area_id) matches Some(area) ==> edits::levels_fit(
        area,
        state.selection@,
        delta,
    )
}

/// Whether the levels that a key leads to can be represented.
pub fn can_reach_level(state: &EditorState, atlas: &AtlasCache, hotkey: Hotkey) -> (can: bool)
    ensures
        can == level_reachable(*state, *atlas, hotkey),
{
    match hotkey {
        Hotkey::LevelUp => state.level < i32::MAX,
        Hotkey::LevelDown => state.level > i32::MIN,
        Hotkey::MoveLevelUp => state.level < i32::MAX && match active_area(atlas, state.area_id) {
            Some(area) => can_shift_levels(area, &state.selection, 1),
            None => true,
        },
        Hotkey::MoveLevelDown => state.level > i32::MIN && match active_area(atlas, state.area_id) {
            Some(area) => can_shift_levels(area, &state.selection, -1),
            None => true,
        },
        _ => true,
    }
}

fn change_only(change: EditorChange) -> (step: Step)
    ensures
        step@ == only(change),
        step.wf(),
{
    let mut changes: Vec<EditorChange> = Vec::new();
    changes.push(change);
    assert(changes@ =~= seq![change]);
    Step::Edit(Edit { command: None, changes, selects_created: false, resync: false })
}

fn move_levels(state: &EditorState, atlas: &AtlasCache, delta: i32) -> (step: Step)
    requires
        i32::MIN <= state.level + delta <= i32::MAX,
        levels_reachable(*state, *atlas, delta),
    ensures
        step@ == level_move(*state, *atlas, delta),
        step.wf(),
{
    match state.area_id {
        None => Step::Nothing,
        Some(area_id) => {
            let command = shift_selection_level(atlas, area_id, &state.selection, delta);
            let mut changes: Vec<EditorChange> = Vec::new();
            if !state.selection.is_empty() {
                changes.push(EditorChange::SetLevelKeepingSelection(state.level + delta));
                assert(changes@ =~= seq![
                    EditorChange::SetLevelKeepingSelection((state.level + delta) as i32),
                ]);
            }
            Step::Edit(
                Edit {
                    command: gate_command(atlas, state.area_id, command),
                    changes,
                    selects_created: false,
                    resync: true,
                },
            )
        },
    }
}

/// What is left to do after a key.
pub fn handle_hotkey(state: &EditorState, overlays: Overlays, atlas: &AtlasCache, hotkey: Hotkey) -> (step:
    Step)
    requires
        level_reachable(*state, *atlas, hotkey),
    ensures
        step@ == handled(*state, overlays, *atlas, hotkey),
        step.wf(),
{
    match hotkey {
        Hotkey::Delete => Step::Edit(request_deletion(state, atlas)),
        Hotkey::Copy => Step::Copy,
        Hotkey::Cut => Step::Cut,
        Hotkey::Paste => Step::Paste,
        Hotkey::Nudge(dx, dy) => if state.selection.is_empty() {
            Step::Nothing
        } else {
            Step::Move(dx, dy)
        },
        Hotkey::Undo => if can_edit_active_area(atlas, state.area_id) {
            Step::Undo
        } else {
            Step::Nothing
        },
        Hotkey::Redo => if can_edit_active_area(atlas, state.area_id) {
            Step::Redo
        } else {
            Step::Nothing
        },
        Hotkey::Escape => {
            if overlays.modal {
                Step::CloseModal
            } else if overlays.renaming_area {
                Step::CancelAreaRename
            } else if overlays.renaming_atlas {
                Step::CancelAtlasRename
            } else if state.tool == Tool::Select {
                change_only(EditorChange::ClearSelection)
            } else {
                change_only(EditorChange::SetTool(Tool::Select))
            }
        },
        Hotkey::LevelUp => change_only(EditorChange::SetLevel(state.level + 1)),
        Hotkey::LevelDown => change_only(EditorChange::SetLevel(state.level - 1)),
        Hotkey::MoveLevelUp => move_levels(state, atlas, 1),
        Hotkey::MoveLevelDown => move_levels(state, atlas, -1),
    }
}

/// Undo and redo are not asked for in an area that may only be viewed.
pub proof fn law_history_is_not_replayed_into_view_only_areas(
    state: EditorState,
    overlays: Overlays,
    atlas: AtlasCache,
)
    requires
        !window::may_edit(atlas, state.area_id),
    ensures
        handled(state, overlays, atlas, Hotkey::Undo) is Nothing,
        handled(state, overlays, atlas, Hotkey::Redo) is Nothing,
{
}

} // verus!
