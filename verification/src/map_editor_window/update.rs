//! What the editor window does about each message: it takes note of it, and says what
//! is left to do outside.

use vstd::prelude::*;

use super::area_list::{self, first_area_id, FolderKey, MapInfo};
use super::area_tree::{self, area_scope, ScopeTable};
use super::commands::CommandId;
use super::compile::{Outcome, OutcomeView};
use super::copies::{self, AtlasCopy, CopyFailure};
use super::dialogs::{self, Dialogs, DialogsView};
use super::families::{self, copied_from_edges, copy_family_in, family_members_in, FamilyIndex, ListedArea};
use super::folders::{self, AtlasLoad};
use super::hotkeys::{self, can_reach_level, handle_hotkey, own_hotkey, Hotkey, Overlays, Step, WindowId};
use super::inspector::secrets::{RequestView, SecretMarksRequest};
use super::model::{AreaCache, AreaId, AtlasCache, AtlasId, EntityId, RoomKey, RoomNumber};
use super::navigation::{
    self, activate_copy, created_entity, enter_area, jump_to_secret, may_take_tool, secret_marks_request_for, tick,
    SecretEntity, TickInput, TickState,
};
use super::scopes::{
    self, apply_recipient_homing, associate_new_area, associate_new_atlas, associate_opened_area, AreaPlace, DeltaView,
    HomingEvidence, ScopeDelta, ScopeState, ScopeTarget,
};
use super::sharers::{self, ShareGrant, SharerIndex};
use super::window::{
    self, area_owned, handle_mutation_request, Edit, EditView, EditorChange, EditorState, MutationRequest, Tool,
};
use crate::list::{self, distinct_of};
use crate::text::{self, is_empty_text};

verus! {

// ===== What the window holds =====

/// What the window remembers besides what the canvas shows.
pub struct MapEditorWindow {
    pub window_id: WindowId,
    pub indices: Indices,
    pub dialogs: Dialogs,
    pub hovered_room: Option<RoomKey>,
    pub last_seen_rev: Option<i64>,
    pub last_seen_sync_revision: Option<u64>,
    /// Rooms stayed behind when the selection was copied, which the viewer is told.
    pub room_copy_notice: bool,
    /// The command whose creations are selected as they appear.
    pub pending_select: Option<CommandId>,
    pub signin_banner_dismissed: bool,
    /// The server that the window was opened from.
    pub server_name: Option<String>,
    /// All atlases are listed, not only those of the server.
    pub scope_all: bool,
}

/// The window over sequences.
pub struct WindowView {
    pub window_id: WindowId,
    pub sharers: Option<SharerIndex>,
    pub tokens: Seq<(AreaId, Seq<char>)>,
    pub dialogs: DialogsView,
    pub hovered_room: Option<RoomKey>,
    pub last_seen_rev: Option<i64>,
    pub last_seen_sync_revision: Option<u64>,
    pub room_copy_notice: bool,
    pub pending_select: Option<CommandId>,
    pub signin_banner_dismissed: bool,
    pub server_name: Option<Seq<char>>,
    pub scope_all: bool,
}

impl View for MapEditorWindow {
    type V = WindowView;

    open spec fn view(&self) -> WindowView {
        WindowView {
            window_id: self.window_id,
            sharers: self.indices.sharers,
            tokens: families::tokens_view(self.indices.families.tokens@),
            dialogs: self.dialogs@,
            hovered_room: self.hovered_room,
            last_seen_rev: self.last_seen_rev,
            last_seen_sync_revision: self.last_seen_sync_revision,
            room_copy_notice: self.room_copy_notice,
            pending_select: self.pending_select,
            signin_banner_dismissed: self.signin_banner_dismissed,
            server_name: text::opt_text(self.server_name),
            scope_all: self.scope_all,
        }
    }
}

/// What the window finds around it when a message arrives.
pub struct Surroundings {
    pub atlas: AtlasCache,
    pub editor: EditorState,
    /// The areas as the list shows them.
    pub maps: Vec<MapInfo>,
    /// The areas that are filed in an atlas, with it.
    pub filing: Vec<(AreaId, AtlasId)>,
    pub ephemeral: Vec<AreaId>,
    pub local_areas: Vec<AreaId>,
    pub local_atlases: Vec<AtlasId>,
    pub disabled: Vec<AreaId>,
    /// What each cached area was copied from, in the order of the cache, as far as the
    /// viewer is told.
    pub sources: Vec<Option<AreaId>>,
    /// Where atlases and areas are shown, seen from the server of the window.
    pub scopes: ScopeTable,
    pub signed_in: bool,
}

/// Something that is left to do outside the window.
#[allow(inconsistent_fields)]
pub enum Action<T = String, E = Edit, O = Outcome, D = ScopeDelta, R = SecretMarksRequest> {
    Change(EditorChange),
    Edit(E),
    Copy,
    Cut,
    Paste,
    Move(i32, i32),
    Undo,
    Redo,
    ClearHistory,
    /// The revision that is there now is the one that was seen.
    RefreshSeenRev,
    /// The inspector is rebuilt.
    Resync,
    /// A creation is settled.
    Resolve(O),
    MovePlayer(Option<RoomKey>),
    FetchSharers,
    FetchAtlases,
    FetchSecrets(AreaId),
    SyncNow,
    CreateArea { name: T, atlas_id: Option<AtlasId> },
    RenameArea { area_id: AreaId, name: T },
    DeleteArea(AreaId),
    MoveArea { area_id: AreaId, atlas_id: Option<AtlasId> },
    SetAreaEnabled(AreaId, bool),
    /// The areas that are disabled are to be remembered.
    ReportDisabledAreas,
    CopyArea { source: AreaId, name: T, duplicate: bool },
    CopyAtlas(AtlasId),
    /// Marks are set or cleared in the cache.
    ApplyMarks { area_id: AreaId, request: R, secret: bool },
    /// Marks are sent to the server.
    SendMarks { area_id: AreaId, request: R },
    CreateAtlas { name: T, local: bool },
    RenameAtlas { atlas_id: AtlasId, name: T },
    DeleteAtlas(AtlasId),
    /// An association changed.
    Associate(D),
    OpenSettings,
    RememberBanner,
    ShareArea,
    ShareAtlas(AtlasId),
    OfferArea { area_id: AreaId, name: T },
    OfferAtlas { atlas_id: AtlasId, name: T },
}

pub type ActionView = Action<Seq<char>, EditView, OutcomeView, DeltaView, RequestView>;

impl View for Action<String, Edit, Outcome, ScopeDelta, SecretMarksRequest> {
    type V = ActionView;

    open spec fn view(&self) -> ActionView {
        match *self {
            Action::Change(change) => Action::Change(change),
            Action::Edit(edit) => Action::Edit(edit@),
            Action::Copy => Action::Copy,
            Action::Cut => Action::Cut,
            Action::Paste => Action::Paste,
            Action::Move(dx, dy) => Action::Move(dx, dy),
            Action::Undo => Action::Undo,
            Action::Redo => Action::Redo,
            Action::ClearHistory => Action::ClearHistory,
            Action::RefreshSeenRev => Action::RefreshSeenRev,
            Action::Resync => Action::Resync,
            Action::Resolve(outcome) => Action::Resolve(outcome@),
            Action::MovePlayer(place) => Action::MovePlayer(place),
            Action::FetchSharers => Action::FetchSharers,
            Action::FetchAtlases => Action::FetchAtlases,
            Action::FetchSecrets(area_id) => Action::FetchSecrets(area_id),
            Action::SyncNow => Action::SyncNow,
            Action::CreateArea { name, atlas_id } => Action::CreateArea { name: name@, atlas_id },
            Action::RenameArea { area_id, name } => Action::RenameArea { area_id, name: name@ },
            Action::DeleteArea(area_id) => Action::DeleteArea(area_id),
            Action::MoveArea { area_id, atlas_id } => Action::MoveArea { area_id, atlas_id },
            Action::SetAreaEnabled(area_id, enabled) => Action::SetAreaEnabled(area_id, enabled),
            Action::ReportDisabledAreas => Action::ReportDisabledAreas,
            Action::CopyArea { source, name, duplicate } => Action::CopyArea {
                source,
                name: name@,
                duplicate,
            },
            Action::CopyAtlas(atlas_id) => Action::CopyAtlas(atlas_id),
            Action::ApplyMarks { area_id, request, secret } => Action::ApplyMarks {
                area_id,
                request: request@,
                secret,
            },
            Action::SendMarks { area_id, request } => Action::SendMarks {
                area_id,
                request: request@,
            },
            Action::CreateAtlas { name, local } => Action::CreateAtlas { name: name@, local },
            Action::RenameAtlas { atlas_id, name } => Action::RenameAtlas { atlas_id, name: name@ },
            Action::DeleteAtlas(atlas_id) => Action::DeleteAtlas(atlas_id),
            Action::Associate(delta) => Action::Associate(delta@),
            Action::OpenSettings => Action::OpenSettings,
            Action::RememberBanner => Action::RememberBanner,
            Action::ShareArea => Action::ShareArea,
            Action::ShareAtlas(atlas_id) => Action::ShareAtlas(atlas_id),
            Action::OfferArea { area_id, name } => Action::OfferArea { area_id, name: name@ },
            Action::OfferAtlas { atlas_id, name } => Action::OfferAtlas { atlas_id, name: name@ },
        }
    }
}

/// The views of actions.
pub open spec fn actions_view(actions: Seq<Action>) -> Seq<ActionView> {
    actions.map_values(|action: Action| action@)
}

/// What a message comes to: the window after it, and what is left to do.
pub type StepView = (WindowView, Seq<ActionView>);

/// With other dialogs.
pub open spec fn with_dialogs(window: WindowView, dialogs: DialogsView) -> WindowView {
    WindowView { dialogs, ..window }
}

/// Adds an action to a list.
fn push(actions: &mut Vec<Action>, action: Action)
    ensures
        actions_view(final(actions)@) == actions_view(old(actions)@).push(action@),
{
    let ghost before = actions@;
    actions.push(action);
    assert(actions_view(actions@) =~= actions_view(before).push(action@));
}

/// Nothing to do.
fn no_actions() -> (actions: Vec<Action>)
    ensures
        actions_view(actions@) == Seq::<ActionView>::empty(),
{
    let actions: Vec<Action> = Vec::new();
    assert(actions_view(actions@) =~= Seq::empty());
    actions
}

/// One thing to do.
fn one_action(action: Action) -> (actions: Vec<Action>)
    ensures
        actions_view(actions@) == seq![action@],
{
    let mut actions = no_actions();
    push(&mut actions, action);
    assert(actions_view(actions@) =~= seq![action@]);
    actions
}

/// Changes of what the canvas shows as actions.
pub open spec fn change_actions(changes: Seq<EditorChange>) -> Seq<ActionView> {
    changes.map_values(|change: EditorChange| Action::Change(change))
}

/// Adds changes of what the canvas shows to a list.
fn push_changes(actions: &mut Vec<Action>, changes: Vec<EditorChange>)
    ensures
        actions_view(final(actions)@) == actions_view(old(actions)@) + change_actions(changes@),
{
    let ghost before = actions_view(actions@);
    assert(before + change_actions(changes@.take(0)) =~= before);
    for i in 0..changes.len()
        invariant
            actions_view(actions@) == before + change_actions(changes@.take(i as int)),
    {
        push(actions, Action::Change(changes[i]));
        assert(actions_view(actions@) =~= before + change_actions(changes@.take(i + 1)));
    }
    assert(changes@.take(changes.len() as int) =~= changes@);
}

/// An association as an action, when there is one.
pub open spec fn associations(delta: Option<DeltaView>) -> Seq<ActionView> {
    match delta {
        Some(delta) => seq![Action::Associate(delta)],
        None => Seq::empty(),
    }
}

/// Adds an association to a list, when there is one.
fn push_association(actions: &mut Vec<Action>, delta: Option<ScopeDelta>)
    ensures
        actions_view(final(actions)@) == actions_view(old(actions)@) + associations(
            scopes::opt_delta(delta),
        ),
{
    let ghost before = actions_view(actions@);
    match delta {
        Some(delta) => {
            push(actions, Action::Associate(delta));
            assert(actions_view(actions@) =~= before + associations(Some(delta@)));
        },
        None => {
            assert(before + associations(None) =~= before);
        },
    }
}

// ===== Areas that are opened =====

/// Whether an entry is about an area.
pub open spec fn files(entry: (AreaId, AtlasId), id: AreaId) -> bool {
    entry.0 == id
}

/// The atlas that an area is filed in.
pub open spec fn filed_in(around: Surroundings, id: AreaId) -> Option<AtlasId> {
    match list::first(around.filing@, |entry: (AreaId, AtlasId)| files(entry, id)) {
        Some(entry) => Some(entry.1),
        None => None,
    }
}

/// The atlas that an area is filed in.
fn find_filing(around: &Surroundings, id: AreaId) -> (found: Option<AtlasId>)
    ensures
        found == filed_in(*around, id),
{
    let ghost p = |entry: (AreaId, AtlasId)| files(entry, id);
    for i in 0..around.filing.len()
        invariant
            p == (|entry: (AreaId, AtlasId)| files(entry, id)),
            forall|k: int| 0 <= k < i ==> !p(#[trigger] around.filing@[k]),
    {
        let (area_id, atlas_id) = around.filing[i];
        if area_id == id {
            proof {
                list::lemma_first(around.filing@, p, i as int);
            }
            return Some(atlas_id);
        }
    }
    None
}

/// What is known of an area where it is scoped.
pub open spec fn place_of(around: Surroundings, id: AreaId) -> AreaPlace {
    let atlas_id = filed_in(around, id);
    AreaPlace {
        area_id: id,
        atlas_id,
        is_ephemeral: around.ephemeral@.contains(id),
        is_local: around.local_areas@.contains(id),
        atlas_is_local: atlas_id is Some && around.local_atlases@.contains(atlas_id->0),
        state: match atlas_id {
            Some(atlas_id) => area_tree::atlas_state(around.scopes, atlas_id),
            None => area_tree::area_state(around.scopes, id),
        },
    }
}

/// Whether an area is in a list.
fn holds_area(ids: &Vec<AreaId>, id: AreaId) -> (held: bool)
    ensures
        held == ids@.contains(id),
{
    for i in 0..ids.len()
        invariant
            forall|k: int| 0 <= k < i ==> #[trigger] ids@[k] != id,
    {
        if ids[i] == id {
            assert(ids@[i as int] == id);
            return true;
        }
    }
    false
}

/// Whether an atlas is in a list.
fn holds_atlas(ids: &Vec<AtlasId>, id: AtlasId) -> (held: bool)
    ensures
        held == ids@.contains(id),
{
    for i in 0..ids.len()
        invariant
            forall|k: int| 0 <= k < i ==> #[trigger] ids@[k] != id,
    {
        if ids[i] == id {
            assert(ids@[i as int] == id);
            return true;
        }
    }
    false
}

/// Where an atlas is shown, whether it is local or not.
fn atlas_scope(table: &ScopeTable, id: AtlasId) -> (state: ScopeState)
    ensures
        state == area_tree::atlas_state(*table, id),
{
    let ghost p = |entry: (AtlasId, ScopeState)| area_tree::is_of_atlas(entry, id);
    for i in 0..table.atlases.len()
        invariant
            p == (|entry: (AtlasId, ScopeState)| area_tree::is_of_atlas(entry, id)),
            forall|k: int| 0 <= k < i ==> !p(#[trigger] table.atlases@[k]),
    {
        let (known, state) = table.atlases[i];
        if known == id {
            proof {
                list::lemma_first(table.atlases@, p, i as int);
            }
            return state;
        }
    }
    ScopeState::Unassigned
}

/// What is known of an area where it is scoped.
fn find_place(around: &Surroundings, id: AreaId) -> (place: AreaPlace)
    ensures
        place == place_of(*around, id),
{
    let atlas_id = find_filing(around, id);
    AreaPlace {
        area_id: id,
        atlas_id,
        is_ephemeral: holds_area(&around.ephemeral, id),
        is_local: holds_area(&around.local_areas, id),
        atlas_is_local: match atlas_id {
            Some(atlas_id) => holds_atlas(&around.local_atlases, atlas_id),
            None => false,
        },
        state: match atlas_id {
            Some(atlas_id) => atlas_scope(&around.scopes, atlas_id),
            None => area_scope(&around.scopes, id),
        },
    }
}

/// The association that opening an area makes.
pub open spec fn opened_delta(window: WindowView, around: Surroundings, id: AreaId) -> Option<DeltaView> {
    let place = place_of(around, id);
    match window.server_name {
        Some(server) => if scopes::binds_on_use(window.scope_all, place) {
            Some(scopes::entry_delta(scopes::scoping_target(place), server, true))
        } else {
            None
        },
        None => None,
    }
}

/// The association that creating an area makes.
pub open spec fn created_delta(window: WindowView, around: Surroundings, id: AreaId) -> Option<DeltaView> {
    let place = place_of(around, id);
    match window.server_name {
        Some(server) => if place.atlas_id is Some || place.is_ephemeral || place.is_local {
            None
        } else {
            Some(scopes::entry_delta(ScopeTarget::Area(id), server, true))
        },
        None => None,
    }
}

/// Making another area the active one: the history is that of one area, and goes.
pub open spec fn entered(around: Surroundings, area_id: Option<AreaId>) -> Seq<ActionView> {
    change_actions(navigation::entering(around.editor.tool, around.atlas, area_id)) + seq![
        Action::ClearHistory,
        Action::RefreshSeenRev,
        Action::Resync,
    ]
}

/// Selecting an area: nothing when it is active already.
pub open spec fn area_selected(
    window: WindowView,
    around: Surroundings,
    id: AreaId,
    delta: Option<DeltaView>,
) -> StepView {
    if around.editor.area_id == Some(id) {
        (window, Seq::empty())
    } else {
        (
            WindowView { hovered_room: None, ..window },
            entered(around, Some(id)) + associations(delta),
        )
    }
}

/// Makes another area the active one.
fn enter(around: &Surroundings, area_id: Option<AreaId>) -> (actions: Vec<Action>)
    ensures
        actions_view(actions@) == entered(*around, area_id),
{
    let mut actions = no_actions();
    push_changes(&mut actions, enter_area(around.editor.tool, &around.atlas, area_id));
    push(&mut actions, Action::ClearHistory);
    push(&mut actions, Action::RefreshSeenRev);
    push(&mut actions, Action::Resync);
    assert(actions_view(actions@) =~= entered(*around, area_id));
    actions
}

impl MapEditorWindow {
    /// A window that was opened from a server, or from none when the name is empty.
    pub fn with_clipboard(
        window_id: WindowId,
        server_name: String,
        signin_banner_dismissed: bool,
    ) -> (window: Self)
        ensures
            window@ == (WindowView {
                window_id,
                sharers: None,
                tokens: Seq::empty(),
                dialogs: DialogsView {
                    modal: None,
                    renaming_area: None,
                    renaming_atlas: None,
                    atlases: Seq::empty(),
                    collapsed: seq![FolderKey::Unassigned],
                    pending_copied_area: None,
                },
                hovered_room: None,
                last_seen_rev: None,
                last_seen_sync_revision: None,
                room_copy_notice: false,
                pending_select: None,
                signin_banner_dismissed,
                server_name: if server_name@.len() == 0 {
                    None
                } else {
                    Some(server_name@)
                },
                scope_all: server_name@.len() == 0,
            }),
    {
        let scope_all = is_empty_text(&server_name);
        let indices = Indices { sharers: None, families: FamilyIndex { tokens: Vec::new() } };
        assert(families::tokens_view(indices.families.tokens@) =~= Seq::empty());
        MapEditorWindow {
            window_id,
            indices,
            dialogs: Dialogs::new(),
            hovered_room: None,
            last_seen_rev: None,
            last_seen_sync_revision: None,
            room_copy_notice: false,
            pending_select: None,
            signin_banner_dismissed,
            server_name: if scope_all {
                None
            } else {
                Some(server_name)
            },
            scope_all,
        }
    }

    /// The association that opening an area makes.
    fn opened(&self, around: &Surroundings, id: AreaId) -> (delta: Option<ScopeDelta>)
        ensures
            scopes::opt_delta(delta) == opened_delta(self@, *around, id),
    {
        associate_opened_area(&self.server_name, self.scope_all, find_place(around, id))
    }

    /// The association that creating an area makes.
    fn created(&self, around: &Surroundings, id: AreaId) -> (delta: Option<ScopeDelta>)
        ensures
            scopes::opt_delta(delta) == created_delta(self@, *around, id),
    {
        associate_new_area(&self.server_name, find_place(around, id))
    }

    /// Selects an area.
    fn select(&mut self, around: &Surroundings, id: AreaId, delta: Option<ScopeDelta>) -> (actions: Vec<
        Action,
    >)
        ensures
            (final(self)@, actions_view(actions@)) == area_selected(
                old(self)@,
                *around,
                id,
                scopes::opt_delta(delta),
            ),
    {
        let active = match around.editor.area_id {
            Some(active) => active == id,
            None => false,
        };
        if active {
            return no_actions();
        }
        self.hovered_room = None;
        let mut actions = enter(around, Some(id));
        push_association(&mut actions, delta);
        actions
    }
}

// ===== The canvas, keys and the clock =====

/// A message of the canvas, of a key or of the clock.
pub enum CanvasMessage {
    HoveredRoomChanged(Option<RoomKey>),
    SelectionChanged,
    RequestMutation(MutationRequest),
    AreaSelected(AreaId),
    ToolSelected(Tool),
    LevelUp,
    LevelDown,
    Undo,
    Redo,
    /// A key, with the window that it was pressed in.
    Hotkey(WindowId, Hotkey),
    Tick(TickInput),
    CommandCompleted(Outcome),
    SetCurrentLocation(AreaId, Option<i32>),
}

/// What is open over the editor.
pub open spec fn overlays_of(window: WindowView) -> Overlays {
    Overlays {
        modal: window.dialogs.modal is Some,
        renaming_area: window.dialogs.renaming_area is Some,
        renaming_atlas: window.dialogs.renaming_atlas is Some,
    }
}

/// What a message asks for that a key could ask for: a button as the key does, and a key
/// nothing where it was pressed in another window.
pub open spec fn key_asked(window: WindowView, message: CanvasMessage) -> Option<Hotkey> {
    match message {
        CanvasMessage::LevelUp => Some(Hotkey::LevelUp),
        CanvasMessage::LevelDown => Some(Hotkey::LevelDown),
        CanvasMessage::Undo => Some(Hotkey::Undo),
        CanvasMessage::Redo => Some(Hotkey::Redo),
        CanvasMessage::Hotkey(pressed_in, hotkey) => hotkeys::asked_of(
            window.window_id,
            pressed_in,
            hotkey,
        ),
        _ => None,
    }
}

/// What a key comes to.
pub open spec fn key_step(window: WindowView, around: Surroundings, hotkey: Hotkey) -> StepView {
    let dialogs = window.dialogs;
    match hotkeys::handled(around.editor, overlays_of(window), around.atlas, hotkey) {
        Step::Nothing => (window, Seq::empty()),
        Step::Edit(edit) => (window, seq![Action::Edit(edit)]),
        Step::Copy => (window, seq![Action::Copy]),
        Step::Cut => (window, seq![Action::Cut]),
        Step::Paste => (window, seq![Action::Paste]),
        Step::Move(dx, dy) => (window, seq![Action::Move(dx, dy)]),
        Step::Undo => (window, seq![Action::Undo]),
        Step::Redo => (window, seq![Action::Redo]),
        Step::CloseModal => (
            with_dialogs(window, dialogs::with_modal(dialogs, None)),
            Seq::empty(),
        ),
        Step::CancelAreaRename => (
            with_dialogs(window, DialogsView { renaming_area: None, ..dialogs }),
            Seq::empty(),
        ),
        Step::CancelAtlasRename => (
            with_dialogs(window, DialogsView { renaming_atlas: None, ..dialogs }),
            Seq::empty(),
        ),
    }
}

/// What the clock goes by.
pub open spec fn tick_state(window: WindowView) -> TickState {
    TickState {
        last_seen_sync_revision: window.last_seen_sync_revision,
        last_seen_rev: window.last_seen_rev,
        pending_copied_area: window.dialogs.pending_copied_area,
        notice: window.room_copy_notice,
    }
}

/// One action, when it is due.
pub open spec fn due(is_due: bool, action: ActionView) -> Seq<ActionView> {
    if is_due {
        seq![action]
    } else {
        Seq::empty()
    }
}

/// The window after a tick, before a copy that arrived is selected.
pub open spec fn ticked_window(window: WindowView, around: Surroundings, input: TickInput) -> WindowView {
    let area_id = around.editor.area_id;
    let plan = navigation::tick_plan(tick_state(window), around.atlas, area_id, input);
    let state = navigation::after_tick(tick_state(window), around.atlas, area_id, input);
    WindowView {
        dialogs: DialogsView {
            atlases: if plan.clear_atlases {
                Seq::empty()
            } else {
                window.dialogs.atlases
            },
            pending_copied_area: state.pending_copied_area,
            ..window.dialogs
        },
        last_seen_rev: state.last_seen_rev,
        last_seen_sync_revision: state.last_seen_sync_revision,
        room_copy_notice: state.notice,
        ..window
    }
}

/// What a tick comes to.
pub open spec fn clock_step(window: WindowView, around: Surroundings, input: TickInput) -> StepView {
    let plan = navigation::tick_plan(
        tick_state(window),
        around.atlas,
        around.editor.area_id,
        input,
    );
    let ticked = ticked_window(window, around, input);
    let fetches = due(plan.fetch_sharers, Action::FetchSharers) + due(
        plan.fetch_atlases,
        Action::FetchAtlases,
    );
    match plan.select {
        Some(id) => {
            let (after, actions) = area_selected(
                ticked,
                around,
                id,
                opened_delta(ticked, around, id),
            );
            (after, fetches + actions)
        },
        None => (
            ticked,
            fetches + due(plan.clear_history, Action::ClearHistory) + due(
                plan.resync,
                Action::Resync,
            ),
        ),
    }
}

/// The entity that a completion selects.
pub open spec fn awaited_entity(window: WindowView, outcome: OutcomeView) -> Option<EntityId> {
    match (window.pending_select, outcome) {
        (Some(awaited), Outcome::Label { command, result: Ok(id), .. }) => if command == awaited {
            Some(EntityId::Label(id))
        } else {
            None
        },
        (Some(awaited), Outcome::Shape { command, result: Ok(id), .. }) => if command == awaited {
            Some(EntityId::Shape(id))
        } else {
            None
        },
        _ => None,
    }
}

/// What a message of the canvas, of a key or of the clock comes to.
pub open spec fn canvas_step(window: WindowView, message: CanvasMessage, around: Surroundings) -> StepView {
    match message {
        CanvasMessage::HoveredRoomChanged(room) => (
            WindowView { hovered_room: room, ..window },
            Seq::empty(),
        ),
        CanvasMessage::SelectionChanged => (window, seq![Action::Resync]),
        CanvasMessage::RequestMutation(request) => (
            window,
            seq![
                Action::Edit(
                    match window::active(around.atlas, around.editor.area_id) {
                        Some(area) => if area.access.can_edit {
                            window::requested(
                                around.editor,
                                around.editor.area_id->0,
                                area,
                                around.atlas,
                                request,
                            )
                        } else {
                            window::no_edit()
                        },
                        None => window::no_edit(),
                    },
                ),
            ],
        ),
        CanvasMessage::AreaSelected(id) => area_selected(
            window,
            around,
            id,
            opened_delta(window, around, id),
        ),
        CanvasMessage::ToolSelected(tool) => (
            window,
            due(
                tool == Tool::Select || window::may_edit(around.atlas, around.editor.area_id),
                Action::Change(EditorChange::SetTool(tool)),
            ),
        ),
        CanvasMessage::LevelUp | CanvasMessage::LevelDown | CanvasMessage::Undo
        | CanvasMessage::Redo | CanvasMessage::Hotkey(..) => match key_asked(window, message) {
            Some(hotkey) => key_step(window, around, hotkey),
            None => (window, Seq::empty()),
        },
        CanvasMessage::Tick(input) => clock_step(window, around, input),
        CanvasMessage::CommandCompleted(outcome) => (
            window,
            (match awaited_entity(window, outcome@) {
                Some(entity) => seq![Action::Change(EditorChange::AddToSelection(entity))],
                None => Seq::empty(),
            }) + seq![Action::Resolve(outcome@), Action::RefreshSeenRev, Action::Resync],
        ),
        CanvasMessage::SetCurrentLocation(area_id, room_number) => (
            window,
            seq![
                Action::MovePlayer(
                    match room_number {
                        Some(number) => Some(
                            RoomKey { area_id, room_number: RoomNumber(number) },
                        ),
                        None => None,
                    },
                ),
            ],
        ),
    }
}

impl MapEditorWindow {
    /// What a message asks for that a key could ask for.
    fn asked(&self, message: &CanvasMessage) -> (hotkey: Option<Hotkey>)
        ensures
            hotkey == key_asked(self@, *message),
    {
        match message {
            CanvasMessage::LevelUp => Some(Hotkey::LevelUp),
            CanvasMessage::LevelDown => Some(Hotkey::LevelDown),
            CanvasMessage::Undo => Some(Hotkey::Undo),
            CanvasMessage::Redo => Some(Hotkey::Redo),
            CanvasMessage::Hotkey(pressed_in, hotkey) => own_hotkey(
                self.window_id,
                *pressed_in,
                *hotkey,
            ),
            _ => None,
        }
    }

    fn press(&mut self, around: &Surroundings, hotkey: Hotkey) -> (actions: Vec<Action>)
        requires
            hotkeys::level_reachable(around.editor, around.atlas, hotkey),
        ensures
            (final(self)@, actions_view(actions@)) == key_step(old(self)@, *around, hotkey),
    {
        let overlays = Overlays {
            modal: self.dialogs.modal.is_some(),
            renaming_area: self.dialogs.renaming_area.is_some(),
            renaming_atlas: self.dialogs.renaming_atlas.is_some(),
        };
        match handle_hotkey(&around.editor, overlays, &around.atlas, hotkey) {
            Step::Nothing => no_actions(),
            Step::Edit(edit) => one_action(Action::Edit(edit)),
            Step::Copy => one_action(Action::Copy),
            Step::Cut => one_action(Action::Cut),
            Step::Paste => one_action(Action::Paste),
            Step::Move(dx, dy) => one_action(Action::Move(dx, dy)),
            Step::Undo => one_action(Action::Undo),
            Step::Redo => one_action(Action::Redo),
            Step::CloseModal => {
                self.dialogs.dismiss();
                no_actions()
            },
            Step::CancelAreaRename => {
                self.dialogs.cancel_area_rename();
                no_actions()
            },
            Step::CancelAtlasRename => {
                self.dialogs.renaming_atlas = None;
                no_actions()
            },
        }
    }

    fn take_tick(&mut self, around: &Surroundings, input: TickInput) -> (actions: Vec<Action>)
        ensures
            (final(self)@, actions_view(actions@)) == clock_step(old(self)@, *around, input),
    {
        let mut state = TickState {
            last_seen_sync_revision: self.last_seen_sync_revision,
            last_seen_rev: self.last_seen_rev,
            pending_copied_area: self.dialogs.pending_copied_area,
            notice: self.room_copy_notice,
        };
        let plan = tick(&mut state, &around.atlas, around.editor.area_id, input);
        self.last_seen_sync_revision = state.last_seen_sync_revision;
        self.last_seen_rev = state.last_seen_rev;
        self.room_copy_notice = state.notice;
        self.dialogs.pending_copied_area = state.pending_copied_area;
        if plan.clear_atlases {
            self.dialogs.atlases = Vec::new();
            assert(self.dialogs@.atlases =~= Seq::empty());
        }
        let mut actions = no_actions();
        if plan.fetch_sharers {
            push(&mut actions, Action::FetchSharers);
        }
        if plan.fetch_atlases {
            push(&mut actions, Action::FetchAtlases);
        }
        let ghost fetches = due(plan.fetch_sharers, Action::FetchSharers) + due(
            plan.fetch_atlases,
            Action::FetchAtlases,
        );
        assert(actions_view(actions@) =~= fetches);
        match plan.select {
            Some(id) => {
                let delta = self.opened(around, id);
                let mut more = self.select(around, id, delta);
                let ghost added = more@;
                let ghost before = actions@;
                actions.append(&mut more);
                assert(actions_view(actions@) =~= actions_view(before) + actions_view(added));
            },
            None => {
                if plan.clear_history {
                    push(&mut actions, Action::ClearHistory);
                }
                if plan.resync {
                    push(&mut actions, Action::Resync);
                }
                assert(actions_view(actions@) =~= fetches + due(
                    plan.clear_history,
                    Action::ClearHistory,
                ) + due(plan.resync, Action::Resync));
            },
        }
        actions
    }

    /// Takes a message of the canvas, of a key or of the clock.
    pub fn update_canvas(&mut self, message: CanvasMessage, around: &Surroundings) -> (actions: Vec<Action>)
        requires
            key_asked(old(self)@, message) matches Some(hotkey) ==> hotkeys::level_reachable(
                around.editor,
                around.atlas,
                hotkey,
            ),
        ensures
            (final(self)@, actions_view(actions@)) == canvas_step(old(self)@, message, *around),
    {
        let key = self.asked(&message);
        match message {
            CanvasMessage::HoveredRoomChanged(room) => {
                self.hovered_room = room;
                no_actions()
            },
            CanvasMessage::SelectionChanged => one_action(Action::Resync),
            CanvasMessage::RequestMutation(request) => {
                let edit = handle_mutation_request(&around.editor, &around.atlas, request);
                one_action(Action::Edit(edit))
            },
            CanvasMessage::AreaSelected(id) => {
                let delta = self.opened(around, id);
                self.select(around, id, delta)
            },
            CanvasMessage::ToolSelected(tool) => if may_take_tool(
                &around.editor,
                &around.atlas,
                tool,
            ) {
                one_action(Action::Change(EditorChange::SetTool(tool)))
            } else {
                no_actions()
            },
            CanvasMessage::LevelUp | CanvasMessage::LevelDown | CanvasMessage::Undo
            | CanvasMessage::Redo | CanvasMessage::Hotkey(..) => match key {
                Some(hotkey) => self.press(around, hotkey),
                None => no_actions(),
            },
            CanvasMessage::Tick(input) => self.take_tick(around, input),
            CanvasMessage::CommandCompleted(outcome) => {
                let mut actions = no_actions();
                let entity = created_entity(self.pending_select, &outcome);
                assert(entity == awaited_entity(self@, outcome@));
                if let Some(entity) = entity {
                    push(&mut actions, Action::Change(EditorChange::AddToSelection(entity)));
                }
                push(&mut actions, Action::Resolve(outcome));
                push(&mut actions, Action::RefreshSeenRev);
                push(&mut actions, Action::Resync);
                assert(actions_view(actions@) =~= canvas_step(
                    self@,
                    CanvasMessage::CommandCompleted(outcome),
                    *around,
                ).1);
                actions
            },
            CanvasMessage::SetCurrentLocation(area_id, room_number) => one_action(
                Action::MovePlayer(
                    match room_number {
                        Some(number) => Some(RoomKey::new(area_id, RoomNumber(number))),
                        None => None,
                    },
                ),
            ),
        }
    }
}

// ===== Areas =====

/// A message about areas.
pub enum AreaMessage {
    NewAreaRequested,
    /// In an atlas.
    NewAreaInAtlas(AtlasId),
    CreateAreaNameChanged(String),
    CreateAreaConfirmed,
    AreaCreated(Result<AreaId, String>),
    RenameAreaStarted(AreaId),
    RenameAreaChanged(String),
    RenameAreaCommitted,
    DeleteAreaRequested(AreaId),
    DeleteAreaConfirmed,
    /// The area that was to be deleted is gone.
    AreaDeleted,
    ModalDismissed,
    MoveAreaRequested(AreaId),
    MoveAreaToAtlas { area: AreaId, atlas: Option<AtlasId> },
    ToggleAreaEnabled(AreaId),
    /// An area is to be the active one of its family of copies.
    SetActiveCopy(AreaId),
    /// The active area is offered to another owner.
    TransferOwnershipRequested,
    TransferAreaOwnershipRequested(AreaId),
    ShareDialogRequested,
}

/// What is left once an area was created.
pub open spec fn creation_step(window: WindowView, around: Surroundings, id: AreaId) -> StepView {
    let closed = with_dialogs(window, dialogs::with_modal(window.dialogs, None));
    let created = created_delta(window, around, id);
    let (after, actions) = area_selected(
        closed,
        around,
        id,
        if created is Some {
            created
        } else {
            opened_delta(window, around, id)
        },
    );
    (
        after,
        if around.editor.area_id == Some(id) {
            associations(created)
        } else {
            actions
        },
    )
}

/// The family of copies of an area, as the window knows it.
pub open spec fn known_family(window: WindowView, around: Surroundings, area_id: AreaId) -> Seq<AreaId> {
    families::family_of(
        families::cached_edges(around.atlas.areas@, around.sources@),
        window.tokens,
        area_id,
    )
}

/// The switches of a family of copies.
pub open spec fn switches(family: Seq<AreaId>, chosen: AreaId) -> Seq<ActionView> {
    family.map_values(|member: AreaId| Action::SetAreaEnabled(member, member == chosen))
}

/// What a message about areas comes to.
pub open spec fn area_step(window: WindowView, message: AreaMessage, around: Surroundings) -> StepView {
    let before = window.dialogs;
    match message {
        AreaMessage::NewAreaRequested => (
            with_dialogs(window, dialogs::asking_area(before, None)),
            Seq::empty(),
        ),
        AreaMessage::NewAreaInAtlas(atlas_id) => (
            with_dialogs(window, dialogs::asking_area(before, Some(atlas_id))),
            Seq::empty(),
        ),
        AreaMessage::CreateAreaNameChanged(value) => (
            with_dialogs(window, dialogs::area_named(before, value@)),
            Seq::empty(),
        ),
        AreaMessage::CreateAreaConfirmed => (
            window,
            match dialogs::wanted_area(before) {
                Some((name, atlas_id)) => seq![Action::CreateArea { name, atlas_id }],
                None => Seq::empty(),
            },
        ),
        AreaMessage::AreaCreated(result) => match result {
            Ok(id) => creation_step(window, around, id),
            Err(error) => (
                with_dialogs(window, dialogs::area_settled(before, Some(error@))),
                Seq::empty(),
            ),
        },
        AreaMessage::RenameAreaStarted(id) => (
            with_dialogs(window, dialogs::renaming_area(before, around.atlas, id)),
            Seq::empty(),
        ),
        AreaMessage::RenameAreaChanged(value) => (
            with_dialogs(window, dialogs::area_renamed(before, value@)),
            Seq::empty(),
        ),
        AreaMessage::RenameAreaCommitted => (
            with_dialogs(window, DialogsView { renaming_area: None, ..before }),
            match dialogs::wanted_rename(before, around.atlas) {
                Some((area_id, name)) => seq![
                    Action::RenameArea { area_id, name },
                    Action::RefreshSeenRev,
                ],
                None => Seq::empty(),
            },
        ),
        AreaMessage::DeleteAreaRequested(id) => (
            with_dialogs(window, dialogs::asking_area_deletion(before, around.atlas, id)),
            Seq::empty(),
        ),
        AreaMessage::DeleteAreaConfirmed => (
            with_dialogs(window, dialogs::with_modal(before, None)),
            match dialogs::wanted_deletion(before, around.atlas) {
                Some(id) => seq![Action::DeleteArea(id)],
                None => Seq::empty(),
            },
        ),
        AreaMessage::AreaDeleted => (
            WindowView { hovered_room: None, ..window },
            entered(around, area_list::first_area(around.maps@, around.ephemeral@)),
        ),
        AreaMessage::ModalDismissed => (
            with_dialogs(window, dialogs::with_modal(before, None)),
            Seq::empty(),
        ),
        AreaMessage::MoveAreaRequested(id) => (
            with_dialogs(
                window,
                folders::asking_move(
                    before,
                    around.atlas,
                    id,
                    filed_in(around, id),
                    around.local_areas@.contains(id),
                    around.local_atlases@,
                ),
            ),
            Seq::empty(),
        ),
        AreaMessage::MoveAreaToAtlas { area, atlas } => (
            with_dialogs(window, dialogs::with_modal(before, None)),
            if window::owns(around.atlas, area) {
                seq![
                    Action::MoveArea { area_id: area, atlas_id: atlas },
                    Action::RefreshSeenRev,
                ]
            } else {
                Seq::empty()
            },
        ),
        AreaMessage::ToggleAreaEnabled(id) => (
            window,
            seq![
                Action::SetAreaEnabled(id, around.disabled@.contains(id)),
                Action::ReportDisabledAreas,
            ],
        ),
        AreaMessage::SetActiveCopy(chosen) => (
            window,
            switches(known_family(window, around, chosen), chosen).push(Action::ReportDisabledAreas),
        ),
        AreaMessage::TransferOwnershipRequested => (
            window,
            match window::active(around.atlas, around.editor.area_id) {
                Some(area) => seq![
                    Action::OfferArea { area_id: around.editor.area_id->0, name: area.name@ },
                ],
                None => Seq::empty(),
            },
        ),
        AreaMessage::TransferAreaOwnershipRequested(area_id) => (
            window,
            seq![
                Action::OfferArea {
                    area_id,
                    name: match around.atlas.area(area_id) {
                        Some(area) => area.name@,
                        None => Seq::empty(),
                    },
                },
            ],
        ),
        AreaMessage::ShareDialogRequested => (window, seq![Action::ShareArea]),
    }
}

impl MapEditorWindow {
    fn area_was_created(&mut self, around: &Surroundings, id: AreaId) -> (actions: Vec<Action>)
        ensures
            (final(self)@, actions_view(actions@)) == creation_step(old(self)@, *around, id),
    {
        let created = self.created(around, id);
        let active = match around.editor.area_id {
            Some(active) => active == id,
            None => false,
        };
        let opened = self.opened(around, id);
        self.dialogs.dismiss();
        if active {
            let mut actions = no_actions();
            push_association(&mut actions, created);
            assert(actions_view(actions@) =~= associations(scopes::opt_delta(created)));
            return actions;
        }
        let delta = if created.is_some() {
            created
        } else {
            opened
        };
        self.select(around, id, delta)
    }

    /// Takes a message about areas.
    pub fn update_areas(&mut self, message: AreaMessage, around: &Surroundings) -> (actions: Vec<Action>)
        ensures
            (final(self)@, actions_view(actions@)) == area_step(old(self)@, message, *around),
    {
        match message {
            AreaMessage::NewAreaRequested => {
                self.dialogs.request_area(None);
                no_actions()
            },
            AreaMessage::NewAreaInAtlas(atlas_id) => {
                self.dialogs.request_area(Some(atlas_id));
                no_actions()
            },
            AreaMessage::CreateAreaNameChanged(value) => {
                self.dialogs.area_name_changed(value);
                no_actions()
            },
            AreaMessage::CreateAreaConfirmed => match self.dialogs.confirm_area() {
                Some(area) => one_action(
                    Action::CreateArea { name: area.name, atlas_id: area.atlas_id },
                ),
                None => no_actions(),
            },
            AreaMessage::AreaCreated(result) => match result {
                Ok(id) => self.area_was_created(around, id),
                Err(error) => {
                    self.dialogs.area_created(Some(error));
                    no_actions()
                },
            },
            AreaMessage::RenameAreaStarted(id) => {
                self.dialogs.start_area_rename(&around.atlas, id);
                no_actions()
            },
            AreaMessage::RenameAreaChanged(value) => {
                self.dialogs.area_rename_changed(value);
                no_actions()
            },
            AreaMessage::RenameAreaCommitted => match self.dialogs.commit_area_rename(&around.atlas) {
                Some(rename) => {
                    let mut actions = one_action(
                        Action::RenameArea { area_id: rename.area_id, name: rename.name },
                    );
                    push(&mut actions, Action::RefreshSeenRev);
                    actions
                },
                None => no_actions(),
            },
            AreaMessage::DeleteAreaRequested(id) => {
                self.dialogs.request_area_deletion(&around.atlas, id);
                no_actions()
            },
            AreaMessage::DeleteAreaConfirmed => match self.dialogs.confirm_area_deletion(
                &around.atlas,
            ) {
                Some(id) => one_action(Action::DeleteArea(id)),
                None => no_actions(),
            },
            AreaMessage::AreaDeleted => {
                self.hovered_room = None;
                enter(around, first_area_id(&around.maps, &around.ephemeral))
            },
            AreaMessage::ModalDismissed => {
                self.dialogs.dismiss();
                no_actions()
            },
            AreaMessage::MoveAreaRequested(id) => {
                let filed = find_filing(around, id);
                let local = holds_area(&around.local_areas, id);
                self.dialogs.request_move(&around.atlas, id, filed, local, &around.local_atlases);
                no_actions()
            },
            AreaMessage::MoveAreaToAtlas { area, atlas } => {
                self.dialogs.dismiss();
                if area_owned(&around.atlas, area) {
                    let mut actions = one_action(
                        Action::MoveArea { area_id: area, atlas_id: atlas },
                    );
                    push(&mut actions, Action::RefreshSeenRev);
                    actions
                } else {
                    no_actions()
                }
            },
            AreaMessage::ToggleAreaEnabled(id) => {
                let disabled = holds_area(&around.disabled, id);
                let mut actions = one_action(Action::SetAreaEnabled(id, disabled));
                push(&mut actions, Action::ReportDisabledAreas);
                actions
            },
            AreaMessage::SetActiveCopy(chosen) => {
                let family = self.copy_family(around, chosen);
                let enabled = activate_copy(&family, chosen);
                let mut actions = no_actions();
                assert(actions_view(actions@) =~= switches(family@, chosen).take(0));
                for i in 0..enabled.len()
                    invariant
                        enabled@ == family@.map_values(|member: AreaId| (member, member == chosen)),
                        actions_view(actions@) == switches(family@, chosen).take(i as int),
                {
                    let (member, on) = enabled[i];
                    push(&mut actions, Action::SetAreaEnabled(member, on));
                    assert(actions_view(actions@) =~= switches(family@, chosen).take(i + 1));
                }
                assert(switches(family@, chosen).take(enabled.len() as int) =~= switches(
                    family@,
                    chosen,
                ));
                push(&mut actions, Action::ReportDisabledAreas);
                actions
            },
            AreaMessage::TransferOwnershipRequested => match (
                around.editor.area_id,
                window::active_area(&around.atlas, around.editor.area_id),
            ) {
                (Some(area_id), Some(area)) => one_action(
                    Action::OfferArea { area_id, name: area.name.clone() },
                ),
                _ => no_actions(),
            },
            AreaMessage::TransferAreaOwnershipRequested(area_id) => {
                let name = match around.atlas.get_area(&area_id) {
                    Some(area) => area.name.clone(),
                    None => String::new(),
                };
                one_action(Action::OfferArea { area_id, name })
            },
            AreaMessage::ShareDialogRequested => one_action(Action::ShareArea),
        }
    }
}

// ===== Copies and secrets =====

/// A message about copies.
pub enum CopyMessage {
    CopyAreaRequested,
    DuplicateAreaRequested,
    CopyAreaNameChanged(String),
    CopyAreaConfirmed,
    CopyAreaCompleted { result: Result<AreaId, CopyFailure>, duplicate: bool },
    CopyAtlasRequested,
    CopyAtlasCompleted(Result<AtlasCopy, CopyFailure>),
}

/// The dialog that copies the active area, if it may be copied.
pub open spec fn copying(window: WindowView, around: Surroundings, duplicate: bool) -> WindowView {
    let area_id = around.editor.area_id;
    let filed = match area_id {
        Some(id) => filed_in(around, id),
        None => None,
    };
    with_dialogs(
        window,
        copies::asking_copy(window.dialogs, around.atlas, area_id, filed, duplicate),
    )
}

/// What a message about copies comes to.
pub open spec fn copy_step(window: WindowView, message: CopyMessage, around: Surroundings) -> StepView {
    let before = window.dialogs;
    match message {
        CopyMessage::CopyAreaRequested => (copying(window, around, false), Seq::empty()),
        CopyMessage::DuplicateAreaRequested => (copying(window, around, true), Seq::empty()),
        CopyMessage::CopyAreaNameChanged(value) => (
            with_dialogs(window, copies::copy_named(before, value@)),
            Seq::empty(),
        ),
        CopyMessage::CopyAreaConfirmed => match copies::wanted_copy(before) {
            Some((source, name, duplicate)) => (
                with_dialogs(window, copies::copy_busy(before)),
                seq![Action::CopyArea { source, name, duplicate }],
            ),
            None => (window, Seq::empty()),
        },
        CopyMessage::CopyAreaCompleted { result, duplicate } => (
            with_dialogs(window, copies::copy_settled(before, result, duplicate)),
            match (result, copies::copy_to_disable(result, duplicate)) {
                (Ok(_), Some(id)) => seq![
                    Action::SetAreaEnabled(id, false),
                    Action::SyncNow,
                    Action::ReportDisabledAreas,
                ],
                (Ok(_), None) => seq![Action::SyncNow],
                (Err(_), _) => Seq::empty(),
            },
        ),
        CopyMessage::CopyAtlasRequested => match copies::wanted_atlas_copy(before) {
            Some(id) => (
                with_dialogs(window, copies::copy_busy(before)),
                seq![Action::CopyAtlas(id)],
            ),
            None => (window, Seq::empty()),
        },
        CopyMessage::CopyAtlasCompleted(result) => (
            with_dialogs(window, copies::after_atlas_copy(before, result)),
            due(
                result is Ok && (before.modal matches Some(dialogs::Modal::CopyArea(_))),
                Action::SyncNow,
            ),
        ),
    }
}

/// A message about the list of what is secret.
pub enum AuditMessage {
    SecretsAuditRequested,
    SecretsAuditLoaded(Result<Vec<SecretEntity>, String>),
    SecretsAuditJump(SecretEntity),
    SecretsAuditUnmark(SecretEntity),
    /// The marks that were sent arrived, or did not.
    SecretsAuditUnmarked { area_id: AreaId, request: SecretMarksRequest, failure: Option<String> },
}

/// What a message about the list of what is secret comes to. A mark is cleared at once,
/// and set again should the server refuse.
pub open spec fn audit_step(window: WindowView, message: AuditMessage, around: Surroundings) -> StepView {
    let before = window.dialogs;
    match message {
        AuditMessage::SecretsAuditRequested => (
            with_dialogs(window, copies::asking_audit(before, around.editor.area_id)),
            match around.editor.area_id {
                Some(id) => seq![Action::FetchSecrets(id)],
                None => Seq::empty(),
            },
        ),
        AuditMessage::SecretsAuditLoaded(result) => (
            with_dialogs(window, copies::audit_listed(before, result)),
            Seq::empty(),
        ),
        AuditMessage::SecretsAuditJump(entity) => (
            with_dialogs(window, dialogs::with_modal(before, None)),
            match window::active(around.atlas, around.editor.area_id) {
                Some(area) => change_actions(navigation::secret_place(area, entity)).push(
                    Action::Resync,
                ),
                None => Seq::empty(),
            },
        ),
        AuditMessage::SecretsAuditUnmark(entity) => (
            window,
            match before.modal {
                Some(dialogs::Modal::SecretsAudit { area_id, .. }) => seq![
                    Action::ApplyMarks {
                        area_id,
                        request: navigation::marks_for(entity, false),
                        secret: false,
                    },
                    Action::RefreshSeenRev,
                    Action::Resync,
                    Action::SendMarks { area_id, request: navigation::marks_for(entity, false) },
                ],
                _ => Seq::empty(),
            },
        ),
        AuditMessage::SecretsAuditUnmarked { area_id, request, failure } => (
            with_dialogs(
                window,
                copies::audit_settled(before, area_id, text::opt_text(failure)),
            ),
            match failure {
                None => seq![Action::SyncNow] + (match copies::audit_to_fetch(
                    before,
                    area_id,
                    None,
                ) {
                    Some(id) => seq![Action::FetchSecrets(id)],
                    None => Seq::empty(),
                }),
                Some(_) => seq![
                    Action::ApplyMarks { area_id, request: request@, secret: true },
                    Action::RefreshSeenRev,
                    Action::Resync,
                ],
            },
        ),
    }
}

impl MapEditorWindow {
    fn offer_copy(&mut self, around: &Surroundings, duplicate: bool)
        ensures
            final(self)@ == copying(old(self)@, *around, duplicate),
    {
        let filed = match around.editor.area_id {
            Some(id) => find_filing(around, id),
            None => None,
        };
        self.dialogs.request_copy(&around.atlas, around.editor.area_id, filed, duplicate);
    }

    /// Takes a message about copies.
    pub fn update_copies(&mut self, message: CopyMessage, around: &Surroundings) -> (actions: Vec<Action>)
        ensures
            (final(self)@, actions_view(actions@)) == copy_step(old(self)@, message, *around),
    {
        match message {
            CopyMessage::CopyAreaRequested => {
                self.offer_copy(around, false);
                no_actions()
            },
            CopyMessage::DuplicateAreaRequested => {
                self.offer_copy(around, true);
                no_actions()
            },
            CopyMessage::CopyAreaNameChanged(value) => {
                self.dialogs.copy_name_changed(value);
                no_actions()
            },
            CopyMessage::CopyAreaConfirmed => match self.dialogs.confirm_copy() {
                Some(request) => one_action(
                    Action::CopyArea {
                        source: request.source,
                        name: request.name,
                        duplicate: request.duplicate,
                    },
                ),
                None => no_actions(),
            },
            CopyMessage::CopyAreaCompleted { result, duplicate } => {
                let arrived = result.is_ok();
                match self.dialogs.copy_completed(result, duplicate) {
                    Some(id) => {
                        let mut actions = one_action(Action::SetAreaEnabled(id, false));
                        push(&mut actions, Action::SyncNow);
                        push(&mut actions, Action::ReportDisabledAreas);
                        actions
                    },
                    None => if arrived {
                        one_action(Action::SyncNow)
                    } else {
                        no_actions()
                    },
                }
            },
            CopyMessage::CopyAtlasRequested => match self.dialogs.request_atlas_copy() {
                Some(id) => one_action(Action::CopyAtlas(id)),
                None => no_actions(),
            },
            CopyMessage::CopyAtlasCompleted(result) => {
                let arrived = result.is_ok();
                let open = matches!(self.dialogs.modal, Some(dialogs::Modal::CopyArea(_)));
                self.dialogs.atlas_copied(result);
                if arrived && open {
                    one_action(Action::SyncNow)
                } else {
                    no_actions()
                }
            },
        }
    }

    /// Takes a message about the list of what is secret.
    pub fn update_audit(&mut self, message: AuditMessage, around: &Surroundings) -> (actions: Vec<Action>)
        ensures
            (final(self)@, actions_view(actions@)) == audit_step(old(self)@, message, *around),
    {
        match message {
            AuditMessage::SecretsAuditRequested => match self.dialogs.request_audit(
                around.editor.area_id,
            ) {
                Some(id) => one_action(Action::FetchSecrets(id)),
                None => no_actions(),
            },
            AuditMessage::SecretsAuditLoaded(result) => {
                self.dialogs.audit_loaded(result);
                no_actions()
            },
            AuditMessage::SecretsAuditJump(entity) => {
                self.dialogs.dismiss();
                match jump_to_secret(&around.atlas, around.editor.area_id, &entity) {
                    Some(changes) => {
                        let mut actions = no_actions();
                        push_changes(&mut actions, changes);
                        push(&mut actions, Action::Resync);
                        assert(actions_view(actions@) =~= change_actions(changes@).push(
                            Action::Resync,
                        ));
                        actions
                    },
                    None => no_actions(),
                }
            },
            AuditMessage::SecretsAuditUnmark(entity) => match self.dialogs.audited_area() {
                Some(area_id) => {
                    let request = secret_marks_request_for(&entity, false);
                    let mut actions = one_action(
                        Action::ApplyMarks { area_id, request, secret: false },
                    );
                    push(&mut actions, Action::RefreshSeenRev);
                    push(&mut actions, Action::Resync);
                    let request = secret_marks_request_for(&entity, false);
                    push(&mut actions, Action::SendMarks { area_id, request });
                    assert(actions_view(actions@) =~= audit_step(
                        self@,
                        AuditMessage::SecretsAuditUnmark(entity),
                        *around,
                    ).1);
                    actions
                },
                None => no_actions(),
            },
            AuditMessage::SecretsAuditUnmarked { area_id, request, failure } => {
                let refused = failure.is_some();
                let fetched = self.dialogs.audit_unmarked(area_id, failure);
                if refused {
                    let mut actions = one_action(
                        Action::ApplyMarks { area_id, request, secret: true },
                    );
                    push(&mut actions, Action::RefreshSeenRev);
                    push(&mut actions, Action::Resync);
                    actions
                } else {
                    let mut actions = one_action(Action::SyncNow);
                    if let Some(id) = fetched {
                        push(&mut actions, Action::FetchSecrets(id));
                    }
                    actions
                }
            },
        }
    }
}

// ===== Atlases and servers =====

/// A message about atlases.
pub enum AtlasMessage {
    /// The atlases arrived, or could not be had; `seen` holds those of which first sight
    /// is recorded.
    AtlasesLoaded { load: AtlasLoad, seen: Vec<AtlasId> },
    NewAtlasRequested,
    CreateAtlasNameChanged(String),
    CreateAtlasTierChanged(bool),
    CreateAtlasConfirmed,
    AtlasCreated(Result<AtlasId, String>),
    RenameAtlasStarted(AtlasId),
    RenameAtlasChanged(String),
    RenameAtlasCommitted,
    /// A rename arrived, or failed.
    AtlasRenamed { failed: bool },
    DeleteAtlasRequested(AtlasId),
    DeleteAtlasConfirmed,
    /// A deletion arrived, or failed.
    AtlasDeleted { failed: bool },
    ToggleFolderCollapsed(FolderKey),
    TransferAtlasOwnershipRequested(AtlasId),
    ShareAtlasRequested(AtlasId),
}

/// The record of first sight of an atlas, unless it was seen.
pub open spec fn first_sight(id: AtlasId, seen: Seq<AtlasId>) -> Seq<ActionView> {
    if seen.contains(id) {
        Seq::empty()
    } else {
        seq![Action::Associate(ScopeDelta::MarkSeen { atlas_id: id })]
    }
}

/// The records of first sight of owned atlases, each once.
pub open spec fn first_sights(load: AtlasLoad, seen: Seq<AtlasId>) -> Seq<ActionView> {
    match load {
        AtlasLoad::Loaded(atlases) => list::collect(
            list::distinct(folders::owned_ids(atlases@)),
            |id: AtlasId| first_sight(id, seen),
        ),
        _ => Seq::empty(),
    }
}

/// The association that creating an atlas makes.
pub open spec fn new_atlas_delta(window: WindowView, around: Surroundings, id: AtlasId) -> Option<DeltaView> {
    match window.server_name {
        Some(server) => if around.local_atlases@.contains(id) {
            None
        } else {
            Some(scopes::entry_delta(ScopeTarget::Atlas(id), server, true))
        },
        None => None,
    }
}

/// What a message about atlases comes to. What is renamed or deleted is so at once; a
/// failure fetches the atlases anew.
pub open spec fn atlas_step(window: WindowView, message: AtlasMessage, around: Surroundings) -> StepView {
    let before = window.dialogs;
    match message {
        AtlasMessage::AtlasesLoaded { load, seen } => (
            with_dialogs(window, folders::atlases_listed(before, load)),
            first_sights(load, seen@),
        ),
        AtlasMessage::NewAtlasRequested => (
            with_dialogs(window, folders::asking_atlas(before, around.signed_in)),
            Seq::empty(),
        ),
        AtlasMessage::CreateAtlasNameChanged(value) => (
            with_dialogs(window, folders::atlas_named(before, value@)),
            Seq::empty(),
        ),
        AtlasMessage::CreateAtlasTierChanged(local) => (
            with_dialogs(window, folders::atlas_placed(before, local)),
            Seq::empty(),
        ),
        AtlasMessage::CreateAtlasConfirmed => (
            window,
            match folders::wanted_atlas(before) {
                Some((name, local)) => seq![Action::CreateAtlas { name, local }],
                None => Seq::empty(),
            },
        ),
        AtlasMessage::AtlasCreated(result) => (
            with_dialogs(window, folders::atlas_settled(before, result)),
            match result {
                Ok(id) => seq![Action::FetchAtlases] + associations(
                    new_atlas_delta(window, around, id),
                ),
                Err(_) => Seq::empty(),
            },
        ),
        AtlasMessage::RenameAtlasStarted(id) => (
            with_dialogs(window, folders::renaming_atlas(before, id)),
            Seq::empty(),
        ),
        AtlasMessage::RenameAtlasChanged(value) => (
            with_dialogs(window, folders::atlas_renamed(before, value@)),
            Seq::empty(),
        ),
        AtlasMessage::RenameAtlasCommitted => (
            with_dialogs(window, folders::atlas_rename_settled(before)),
            match folders::wanted_atlas_rename(before) {
                Some((atlas_id, name)) => seq![Action::RenameAtlas { atlas_id, name }],
                None => Seq::empty(),
            },
        ),
        AtlasMessage::AtlasRenamed { failed } => (window, due(failed, Action::FetchAtlases)),
        AtlasMessage::DeleteAtlasRequested(id) => (
            with_dialogs(window, folders::asking_atlas_deletion(before, id)),
            Seq::empty(),
        ),
        AtlasMessage::DeleteAtlasConfirmed => (
            with_dialogs(window, folders::atlas_deleted(before)),
            match folders::wanted_atlas_deletion(before) {
                Some(id) => seq![Action::DeleteAtlas(id)],
                None => Seq::empty(),
            },
        ),
        AtlasMessage::AtlasDeleted { failed } => (window, due(failed, Action::FetchAtlases)),
        AtlasMessage::ToggleFolderCollapsed(key) => (
            with_dialogs(window, folders::folder_toggled(before, key)),
            Seq::empty(),
        ),
        AtlasMessage::TransferAtlasOwnershipRequested(atlas_id) => (
            window,
            seq![
                Action::OfferAtlas {
                    atlas_id,
                    name: match folders::atlas_with(before.atlases, atlas_id) {
                        Some(atlas) => atlas.name,
                        None => Seq::empty(),
                    },
                },
            ],
        ),
        AtlasMessage::ShareAtlasRequested(id) => (window, seq![Action::ShareAtlas(id)]),
    }
}

/// A message about servers, or about the window itself.
pub enum ScopeMessage {
    ScopeAllToggled(bool),
    /// The servers that show a target are listed; `servers` holds those there are, and
    /// `checked` those that show it.
    ServersChecklistRequested { target: ScopeTarget, servers: Vec<String>, checked: Vec<String> },
    ScopeServerToggled { entry: String, show: bool },
    /// The associations changed elsewhere; holds the servers that now show the target of
    /// the list.
    ScopesReplaced(Vec<String>),
    OpenSettingsRequested,
    DismissSigninBanner,
    SyncNowRequested,
}

/// What a message about servers, or about the window itself, comes to.
pub open spec fn scope_step(window: WindowView, message: ScopeMessage, around: Surroundings) -> StepView {
    let before = window.dialogs;
    match message {
        ScopeMessage::ScopeAllToggled(all) => (
            WindowView { scope_all: all, ..window },
            Seq::empty(),
        ),
        ScopeMessage::ServersChecklistRequested { target, servers, checked } => (
            with_dialogs(
                window,
                folders::asking_servers(
                    before,
                    around.atlas,
                    target,
                    text::texts(servers@),
                    text::texts(checked@),
                ),
            ),
            Seq::empty(),
        ),
        ScopeMessage::ScopeServerToggled { entry, show } => (
            with_dialogs(window, folders::server_toggled(before, entry@, show)),
            associations(folders::server_delta(before, entry@, show)),
        ),
        ScopeMessage::ScopesReplaced(now) => (
            with_dialogs(window, folders::servers_known(before, text::texts(now@))),
            Seq::empty(),
        ),
        ScopeMessage::OpenSettingsRequested => (window, seq![Action::OpenSettings]),
        ScopeMessage::DismissSigninBanner => (
            WindowView { signin_banner_dismissed: true, ..window },
            seq![Action::RememberBanner],
        ),
        ScopeMessage::SyncNowRequested => (window, seq![Action::SyncNow]),
    }
}

/// The records of first sight of owned atlases.
fn record_first_sights(load: &AtlasLoad, seen: &Vec<AtlasId>) -> (actions: Vec<Action>)
    ensures
        actions_view(actions@) == first_sights(*load, seen@),
{
    let atlases = match load {
        AtlasLoad::Loaded(atlases) => atlases,
        _ => {
            return no_actions();
        },
    };
    let owned = folders::atlases_to_mark(atlases);
    let same = |a: &AtlasId, b: &AtlasId| -> (r: bool)
        ensures
            r == (*a == *b),
    {
        *a == *b
    };
    let ids = distinct_of(&owned, same);
    let ghost piece = |id: AtlasId| first_sight(id, seen@);
    let mut actions = no_actions();
    assert(ids@.take(0) =~= Seq::empty());
    for i in 0..ids.len()
        invariant
            piece == (|id: AtlasId| first_sight(id, seen@)),
            actions_view(actions@) == list::collect(ids@.take(i as int), piece),
    {
        proof {
            list::lemma_collect_step(ids@, piece, i as int);
        }
        let ghost before = actions_view(actions@);
        if !holds_atlas(seen, ids[i]) {
            push(&mut actions, Action::Associate(ScopeDelta::MarkSeen { atlas_id: ids[i] }));
        }
        assert(actions_view(actions@) =~= before + piece(ids@[i as int]));
    }
    assert(ids@.take(ids.len() as int) =~= ids@);
    actions
}

impl MapEditorWindow {
    /// Takes a message about atlases.
    pub fn update_atlases(&mut self, message: AtlasMessage, around: &Surroundings) -> (actions: Vec<Action>)
        ensures
            (final(self)@, actions_view(actions@)) == atlas_step(old(self)@, message, *around),
    {
        match message {
            AtlasMessage::AtlasesLoaded { load, seen } => {
                let actions = record_first_sights(&load, &seen);
                self.dialogs.atlases_loaded(load);
                actions
            },
            AtlasMessage::NewAtlasRequested => {
                self.dialogs.request_atlas(around.signed_in);
                no_actions()
            },
            AtlasMessage::CreateAtlasNameChanged(value) => {
                self.dialogs.atlas_name_changed(value);
                no_actions()
            },
            AtlasMessage::CreateAtlasTierChanged(local) => {
                self.dialogs.atlas_tier_changed(local);
                no_actions()
            },
            AtlasMessage::CreateAtlasConfirmed => match self.dialogs.confirm_atlas() {
                Some(atlas) => one_action(
                    Action::CreateAtlas { name: atlas.name, local: atlas.local },
                ),
                None => no_actions(),
            },
            AtlasMessage::AtlasCreated(result) => {
                let actions = match &result {
                    Ok(id) => {
                        let mut actions = one_action(Action::FetchAtlases);
                        let local = holds_atlas(&around.local_atlases, *id);
                        push_association(
                            &mut actions,
                            associate_new_atlas(&self.server_name, *id, local),
                        );
                        actions
                    },
                    Err(_) => no_actions(),
                };
                self.dialogs.atlas_created(result);
                actions
            },
            AtlasMessage::RenameAtlasStarted(id) => {
                self.dialogs.start_atlas_rename(id);
                no_actions()
            },
            AtlasMessage::RenameAtlasChanged(value) => {
                self.dialogs.atlas_rename_changed(value);
                no_actions()
            },
            AtlasMessage::RenameAtlasCommitted => match self.dialogs.commit_atlas_rename() {
                Some(rename) => one_action(
                    Action::RenameAtlas { atlas_id: rename.atlas_id, name: rename.name },
                ),
                None => no_actions(),
            },
            AtlasMessage::AtlasRenamed { failed } => if failed {
                one_action(Action::FetchAtlases)
            } else {
                no_actions()
            },
            AtlasMessage::DeleteAtlasRequested(id) => {
                self.dialogs.request_atlas_deletion(id);
                no_actions()
            },
            AtlasMessage::DeleteAtlasConfirmed => match self.dialogs.confirm_atlas_deletion() {
                Some(id) => one_action(Action::DeleteAtlas(id)),
                None => no_actions(),
            },
            AtlasMessage::AtlasDeleted { failed } => if failed {
                one_action(Action::FetchAtlases)
            } else {
                no_actions()
            },
            AtlasMessage::ToggleFolderCollapsed(key) => {
                self.dialogs.toggle_folder(key);
                no_actions()
            },
            AtlasMessage::TransferAtlasOwnershipRequested(atlas_id) => {
                let name = self.dialogs.atlas_name(atlas_id);
                one_action(Action::OfferAtlas { atlas_id, name })
            },
            AtlasMessage::ShareAtlasRequested(id) => one_action(Action::ShareAtlas(id)),
        }
    }

    /// Takes a message about servers, or about the window itself.
    pub fn update_scopes(&mut self, message: ScopeMessage, around: &Surroundings) -> (actions: Vec<Action>)
        ensures
            (final(self)@, actions_view(actions@)) == scope_step(old(self)@, message, *around),
    {
        match message {
            ScopeMessage::ScopeAllToggled(all) => {
                self.scope_all = all;
                no_actions()
            },
            ScopeMessage::ServersChecklistRequested { target, servers, checked } => {
                self.dialogs.request_servers(&around.atlas, target, servers, checked);
                no_actions()
            },
            ScopeMessage::ScopeServerToggled { entry, show } => {
                let delta = self.dialogs.toggle_server(entry, show);
                let mut actions = no_actions();
                push_association(&mut actions, delta);
                assert(actions_view(actions@) =~= associations(scopes::opt_delta(delta)));
                actions
            },
            ScopeMessage::ScopesReplaced(now) => {
                self.dialogs.servers_replaced(now);
                no_actions()
            },
            ScopeMessage::OpenSettingsRequested => one_action(Action::OpenSettings),
            ScopeMessage::DismissSigninBanner => {
                self.signin_banner_dismissed = true;
                one_action(Action::RememberBanner)
            },
            ScopeMessage::SyncNowRequested => one_action(Action::SyncNow),
        }
    }
}

// ===== Indices =====

/// What is known of sharers and of families of copies.
pub struct Indices {
    /// `None` before the grants arrived.
    pub sharers: Option<SharerIndex>,
    pub families: FamilyIndex,
}

impl Indices {
    /// Takes grants and areas that were fetched together, as far as they could be had:
    /// each index is built anew from what arrived, and stays otherwise. Where both
    /// arrived, returns the associations that homing makes; `evidence` holds what is
    /// known of its targets.
    pub fn load(
        &mut self,
        grants: Option<Vec<ShareGrant>>,
        areas: Option<Vec<ListedArea>>,
        evidence: &Vec<HomingEvidence>,
    ) -> (deltas: Vec<ScopeDelta>)
        ensures
            scopes::deltas_view(deltas@) == if grants is Some && areas is Some {
                list::collect(evidence@, |one: HomingEvidence| scopes::homing_step(one))
            } else {
                Seq::empty()
            },
            match grants {
                Some(grants) => final(self).sharers matches Some(index) && forall|scope: ScopeTarget|
                    #[trigger] index.lookup(scope) == sharers::scope_sharer(grants@, scope),
                None => final(self).sharers == old(self).sharers,
            },
            match areas {
                Some(areas) => families::tokens_view(final(self).families.tokens@)
                    == families::tokens_of(areas@),
                None => final(self).families == old(self).families,
            },
    {
        let mut deltas: Vec<ScopeDelta> = Vec::new();
        assert(scopes::deltas_view(deltas@) =~= Seq::empty());
        if grants.is_some() && areas.is_some() {
            deltas = apply_recipient_homing(evidence);
        }
        if let Some(grants) = &grants {
            self.sharers = Some(SharerIndex::build(grants));
        }
        if let Some(areas) = &areas {
            self.families = FamilyIndex::build(areas);
        }
        deltas
    }

    /// The family of copies of an area: all areas that a chain of copies in the cache
    /// and of common tokens links with it, itself among them. `sources` holds what each
    /// cached area was copied from.
    pub fn copy_family(
        &self,
        atlas: &AtlasCache,
        sources: &Vec<Option<AreaId>>,
        area_id: AreaId,
    ) -> (family: Vec<AreaId>)
        ensures
            families::is_family(
                family@,
                families::cached_edges(atlas.areas@, sources@),
                families::tokens_view(self.families.tokens@),
                area_id,
            ),
    {
        copy_family_in(&copied_from_edges(atlas, sources), &self.families.tokens, area_id)
    }

    /// The areas that the list marks as copies, in ascending order of identities: those
    /// that a copy in the cache or a common token links with another.
    pub fn family_members(&self, atlas: &AtlasCache, sources: &Vec<Option<AreaId>>) -> (members: Vec<AreaId>)
        ensures
            families::is_ascending(members@),
            forall|id: AreaId| #[trigger]
                members@.contains(id) <==> families::has_link(
                    families::cached_edges(atlas.areas@, sources@),
                    families::tokens_view(self.families.tokens@),
                    id,
                ),
    {
        family_members_in(&copied_from_edges(atlas, sources), &self.families.tokens)
    }
}

impl MapEditorWindow {
    /// The family of copies of an area.
    pub fn copy_family(&self, around: &Surroundings, area_id: AreaId) -> (family: Vec<AreaId>)
        ensures
            families::is_family(
                family@,
                families::cached_edges(around.atlas.areas@, around.sources@),
                self@.tokens,
                area_id,
            ),
            family@ == known_family(self@, *around, area_id),
    {
        let family = self.indices.copy_family(&around.atlas, &around.sources, area_id);
        proof {
            families::lemma_family_of(
                family@,
                families::cached_edges(around.atlas.areas@, around.sources@),
                self@.tokens,
                area_id,
            );
        }
        family
    }

    /// The areas that the list marks as copies.
    pub fn family_members(&self, around: &Surroundings) -> (members: Vec<AreaId>)
        ensures
            families::is_ascending(members@),
            forall|id: AreaId| #[trigger]
                members@.contains(id) <==> families::has_link(
                    families::cached_edges(around.atlas.areas@, around.sources@),
                    self@.tokens,
                    id,
                ),
    {
        self.indices.family_members(&around.atlas, &around.sources)
    }

    /// Takes grants and areas that were fetched together, as far as they could be had,
    /// and returns the associations that homing makes. Nothing else of the window
    /// changes.
    pub fn load_indices(
        &mut self,
        grants: Option<Vec<ShareGrant>>,
        areas: Option<Vec<ListedArea>>,
        evidence: &Vec<HomingEvidence>,
    ) -> (deltas: Vec<ScopeDelta>)
        ensures
            scopes::deltas_view(deltas@) == if grants is Some && areas is Some {
                list::collect(evidence@, |one: HomingEvidence| scopes::homing_step(one))
            } else {
                Seq::empty()
            },
            match grants {
                Some(grants) => final(self)@.sharers matches Some(index) && forall|scope: ScopeTarget|
                    #[trigger] index.lookup(scope) == sharers::scope_sharer(grants@, scope),
                None => final(self)@.sharers == old(self)@.sharers,
            },
            final(self)@ == (WindowView {
                sharers: final(self)@.sharers,
                tokens: match areas {
                    Some(areas) => families::tokens_of(areas@),
                    None => old(self)@.tokens,
                },
                ..old(self)@
            }),
    {
        self.indices.load(grants, areas, evidence)
    }
}

// ===== All messages =====

/// A message to the window.
pub enum Message {
    Canvas(CanvasMessage),
    Area(AreaMessage),
    Copy(CopyMessage),
    Audit(AuditMessage),
    Atlas(AtlasMessage),
    Scope(ScopeMessage),
}

/// What a message comes to.
pub open spec fn step(window: WindowView, message: Message, around: Surroundings) -> StepView {
    match message {
        Message::Canvas(message) => canvas_step(window, message, around),
        Message::Area(message) => area_step(window, message, around),
        Message::Copy(message) => copy_step(window, message, around),
        Message::Audit(message) => audit_step(window, message, around),
        Message::Atlas(message) => atlas_step(window, message, around),
        Message::Scope(message) => scope_step(window, message, around),
    }
}

/// Whether the levels that a message leads to can be represented.
pub open spec fn is_reachable(window: WindowView, message: Message, around: Surroundings) -> bool {
    message matches Message::Canvas(message) ==> (key_asked(window, message) matches Some(hotkey)
        ==> hotkeys::level_reachable(around.editor, around.atlas, hotkey))
}

impl MapEditorWindow {
    /// Takes a message, and says what is left to do.
    pub fn update(&mut self, message: Message, around: &Surroundings) -> (actions: Vec<Action>)
        requires
            is_reachable(old(self)@, message, *around),
        ensures
            (final(self)@, actions_view(actions@)) == step(old(self)@, message, *around),
    {
        match message {
            Message::Canvas(message) => self.update_canvas(message, around),
            Message::Area(message) => self.update_areas(message, around),
            Message::Copy(message) => self.update_copies(message, around),
            Message::Audit(message) => self.update_audit(message, around),
            Message::Atlas(message) => self.update_atlases(message, around),
            Message::Scope(message) => self.update_scopes(message, around),
        }
    }

    /// The server that the window was opened from.
    pub fn server_name(&self) -> (name: Option<&String>)
        ensures
            match name {
                Some(name) => self@.server_name == Some(name@),
                None => self@.server_name is None,
            },
    {
        self.server_name.as_ref()
    }

    /// Whether a message can be taken: the level that a key leads to can be represented.
    pub fn can_update(&self, message: &Message, around: &Surroundings) -> (can: bool)
        ensures
            can == is_reachable(self@, *message, *around),
    {
        match message {
            Message::Canvas(message) => match self.asked(message) {
                Some(hotkey) => can_reach_level(&around.editor, &around.atlas, hotkey),
                None => true,
            },
            _ => true,
        }
    }

    /// Whether the viewer is told that signing in would keep maps in the cloud.
    pub fn shows_signin_banner(&self, around: &Surroundings) -> (shows: bool)
        ensures
            shows == (!around.signed_in && !self@.signin_banner_dismissed),
    {
        !around.signed_in && !self.signin_banner_dismissed
    }

    /// Takes the revision that is there now as seen.
    pub fn refresh_seen_rev(&mut self, around: &Surroundings)
        ensures
            final(self)@ == (WindowView {
                last_seen_rev: navigation::active_rev(around.atlas, around.editor.area_id),
                ..old(self)@
            }),
    {
        self.last_seen_rev = window::refresh_seen_rev(&around.atlas, around.editor.area_id);
    }
}

/// Choosing a copy enables it and disables every other member of its family, and no other
/// area.
pub proof fn law_one_copy_of_a_family_is_active(
    window: WindowView,
    around: Surroundings,
    chosen: AreaId,
    family: Seq<AreaId>,
    id: AreaId,
    enabled: bool,
)
    requires
        families::is_family(
            family,
            families::cached_edges(around.atlas.areas@, around.sources@),
            window.tokens,
            chosen,
        ),
    ensures
        area_step(window, AreaMessage::SetActiveCopy(chosen), around).1.contains(
            Action::SetAreaEnabled(id, enabled),
        ) <==> families::related(
            families::cached_edges(around.atlas.areas@, around.sources@),
            window.tokens,
            chosen,
            id,
        ) && enabled == (id == chosen),
        area_step(window, AreaMessage::SetActiveCopy(chosen), around).1.contains(
            Action::SetAreaEnabled(chosen, true),
        ),
        area_step(window, AreaMessage::SetActiveCopy(chosen), around).1.last() is ReportDisabledAreas,
{
    let edges = families::cached_edges(around.atlas.areas@, around.sources@);
    let actions = area_step(window, AreaMessage::SetActiveCopy(chosen), around).1;
    families::lemma_family_of(family, edges, window.tokens, chosen);
    families::law_an_area_is_of_its_own_family(edges, window.tokens, chosen);
    lemma_switched(family, chosen, id, enabled);
    lemma_switched(family, chosen, chosen, true);
    assert(actions == switches(family, chosen).push(Action::ReportDisabledAreas));
}

/// What the switches of a family hold.
proof fn lemma_switched(family: Seq<AreaId>, chosen: AreaId, id: AreaId, enabled: bool)
    ensures
        switches(family, chosen).push(Action::ReportDisabledAreas).contains(
            Action::SetAreaEnabled(id, enabled),
        ) <==> family.contains(id) && enabled == (id == chosen),
{
    let all = switches(family, chosen).push(Action::ReportDisabledAreas);
    let switch: ActionView = Action::SetAreaEnabled(id, enabled);
    if all.contains(switch) {
        let k = choose|k: int| 0 <= k < all.len() && all[k] == switch;
        assert(k < family.len());
        assert(family[k] == id);
    }
    if family.contains(id) && enabled == (id == chosen) {
        let k = choose|k: int| 0 <= k < family.len() && family[k] == id;
        assert(all[k] == switch);
    }
}

/// Whether an action writes to an area or to what is cached of one.
pub open spec fn writes_area(action: ActionView) -> bool {
    match action {
        Action::Edit(edit) => edit.command is Some,
        Action::Undo | Action::Redo => true,
        _ => false,
    }
}

/// In an area that may only be viewed, no key and no request of the canvas leads to a
/// write: neither a command nor a step in the history.
pub proof fn law_view_only_areas_are_left_alone(
    window: WindowView,
    message: CanvasMessage,
    around: Surroundings,
    i: int,
)
    requires
        !window::may_edit(around.atlas, around.editor.area_id),
        0 <= i < canvas_step(window, message, around).1.len(),
    ensures
        !writes_area(canvas_step(window, message, around).1[i]),
{
    let actions = canvas_step(window, message, around).1;
    match message {
        CanvasMessage::Tick(input) => {
            lemma_clock_writes_nothing(window, around, input, i);
        },
        CanvasMessage::AreaSelected(id) => {
            lemma_selection_writes_nothing(
                window,
                around,
                id,
                opened_delta(window, around, id),
                i,
            );
        },
        CanvasMessage::CommandCompleted(outcome) => {
            let head: Seq<ActionView> = match awaited_entity(window, outcome@) {
                Some(entity) => seq![Action::Change(EditorChange::AddToSelection(entity))],
                None => Seq::empty(),
            };
            let tail: Seq<ActionView> = seq![
                Action::Resolve(outcome@),
                Action::RefreshSeenRev,
                Action::Resync,
            ];
            assert(actions == head + tail);
            if i < head.len() {
                assert(actions[i] == head[i]);
            } else {
                assert(actions[i] == tail[i - head.len()]);
            }
        },
        _ => {
            assert(actions.len() <= 1);
        },
    }
}

/// Selecting an area writes to none.
proof fn lemma_selection_writes_nothing(
    window: WindowView,
    around: Surroundings,
    id: AreaId,
    delta: Option<DeltaView>,
    i: int,
)
    requires
        0 <= i < area_selected(window, around, id, delta).1.len(),
    ensures
        !writes_area(area_selected(window, around, id, delta).1[i]),
{
    let actions = area_selected(window, around, id, delta).1;
    let changes = change_actions(
        navigation::entering(around.editor.tool, around.atlas, Some(id)),
    );
    let rest: Seq<ActionView> = seq![Action::ClearHistory, Action::RefreshSeenRev, Action::Resync];
    let last = associations(delta);
    assert(actions =~= changes + rest + last);
    if i < changes.len() {
        assert(actions[i] == changes[i]);
    } else if i < changes.len() + rest.len() {
        assert(actions[i] == rest[i - changes.len()]);
    } else {
        assert(actions[i] == last[i - changes.len() - rest.len()]);
    }
}

/// A tick writes to no area.
proof fn lemma_clock_writes_nothing(window: WindowView, around: Surroundings, input: TickInput, i: int)
    requires
        0 <= i < clock_step(window, around, input).1.len(),
    ensures
        !writes_area(clock_step(window, around, input).1[i]),
{
    let actions = clock_step(window, around, input).1;
    let plan = navigation::tick_plan(
        tick_state(window),
        around.atlas,
        around.editor.area_id,
        input,
    );
    let a = due(plan.fetch_sharers, Action::FetchSharers);
    let b = due(plan.fetch_atlases, Action::FetchAtlases);
    let fetches = a + b;
    if i < a.len() {
        assert(actions[i] == a[i]);
    } else if i < fetches.len() {
        assert(actions[i] == b[i - a.len()]);
    } else {
        match plan.select {
            Some(id) => {
                let ticked = ticked_window(window, around, input);
                let delta = opened_delta(ticked, around, id);
                let selected = area_selected(ticked, around, id, delta).1;
                assert(actions == fetches + selected);
                lemma_selection_writes_nothing(ticked, around, id, delta, i - fetches.len());
                assert(actions[i] == selected[i - fetches.len()]);
            },
            None => {
                let c = due(plan.clear_history, Action::ClearHistory);
                let d = due(plan.resync, Action::Resync);
                assert(actions == fetches + c + d);
                if i < fetches.len() + c.len() {
                    assert(actions[i] == c[i - fetches.len()]);
                } else {
                    assert(actions[i] == d[i - fetches.len() - c.len()]);
                }
            },
        }
    }
}

/// Whether an action makes another area the active one.
pub open spec fn changes_area(action: ActionView) -> bool {
    action matches Action::Change(EditorChange::SetArea(_))
}

/// Where an area is entered, the history is cleared.
proof fn lemma_entering_clears(
    around: Surroundings,
    area_id: Option<AreaId>,
    before: Seq<ActionView>,
    after: Seq<ActionView>,
)
    ensures
        (before + entered(around, area_id) + after).contains(Action::ClearHistory),
{
    let changes = change_actions(navigation::entering(around.editor.tool, around.atlas, area_id));
    let all = before + entered(around, area_id) + after;
    let clear: ActionView = Action::ClearHistory;
    assert(entered(around, area_id)[changes.len() as int] == clear);
    assert(all[(before.len() + changes.len()) as int] == clear);
}

/// What one sequence of two holds.
proof fn lemma_either<T>(a: Seq<T>, b: Seq<T>, i: int)
    requires
        0 <= i < (a + b).len(),
    ensures
        i < a.len() ==> (a + b)[i] == a[i],
        i >= a.len() ==> (a + b)[i] == b[i - a.len()],
{
}

/// The history is of one area: whatever makes another area the active one also clears it.
pub proof fn law_the_history_goes_with_the_area(
    window: WindowView,
    message: Message,
    around: Surroundings,
    i: int,
)
    requires
        0 <= i < step(window, message, around).1.len(),
        changes_area(step(window, message, around).1[i]),
    ensures
        step(window, message, around).1.contains(Action::ClearHistory),
{
    let actions = step(window, message, around).1;
    match message {
        Message::Canvas(CanvasMessage::AreaSelected(id)) => {
            let delta = opened_delta(window, around, id);
            lemma_entering_clears(around, Some(id), Seq::empty(), associations(delta));
            assert(Seq::<ActionView>::empty() + entered(around, Some(id)) + associations(delta)
                =~= entered(around, Some(id)) + associations(delta));
        },
        Message::Canvas(CanvasMessage::Tick(input)) => {
            lemma_clock_clears(window, around, input, i);
        },
        Message::Canvas(CanvasMessage::CommandCompleted(outcome)) => {
            let head: Seq<ActionView> = match awaited_entity(window, outcome@) {
                Some(entity) => seq![Action::Change(EditorChange::AddToSelection(entity))],
                None => Seq::empty(),
            };
            let tail: Seq<ActionView> = seq![
                Action::Resolve(outcome@),
                Action::RefreshSeenRev,
                Action::Resync,
            ];
            assert(actions == head + tail);
            lemma_either(head, tail, i);
        },
        Message::Area(AreaMessage::AreaCreated(Ok(id))) => {
            let created = created_delta(window, around, id);
            let delta = if created is Some {
                created
            } else {
                opened_delta(window, around, id)
            };
            lemma_entering_clears(around, Some(id), Seq::empty(), associations(delta));
            assert(Seq::<ActionView>::empty() + entered(around, Some(id)) + associations(delta)
                =~= entered(around, Some(id)) + associations(delta));
        },
        Message::Area(AreaMessage::AreaDeleted) => {
            let next = area_list::first_area(around.maps@, around.ephemeral@);
            lemma_entering_clears(around, next, Seq::empty(), Seq::empty());
            assert(Seq::<ActionView>::empty() + entered(around, next) + Seq::<ActionView>::empty()
                =~= entered(around, next));
        },
        Message::Area(AreaMessage::SetActiveCopy(chosen)) => {
            let family = known_family(window, around, chosen);
            let rest: Seq<ActionView> = seq![Action::ReportDisabledAreas];
            assert(actions =~= switches(family, chosen) + rest);
            lemma_either(switches(family, chosen), rest, i);
        },
        Message::Audit(AuditMessage::SecretsAuditJump(entity)) => {
            let area = window::active(around.atlas, around.editor.area_id)->0;
            let changes = change_actions(navigation::secret_place(area, entity));
            let rest: Seq<ActionView> = seq![Action::Resync];
            assert(actions =~= changes + rest);
            lemma_either(changes, rest, i);
            lemma_jumping_stays(area, entity);
        },
        Message::Audit(AuditMessage::SecretsAuditUnmarked { area_id, request, failure: None }) => {
            let head: Seq<ActionView> = seq![Action::SyncNow];
            let rest: Seq<ActionView> = match copies::audit_to_fetch(window.dialogs, area_id, None) {
                Some(id) => seq![Action::FetchSecrets(id)],
                None => Seq::empty(),
            };
            assert(actions == head + rest);
            lemma_either(head, rest, i);
        },
        Message::Atlas(AtlasMessage::AtlasesLoaded { load, seen }) => {
            lemma_sights_only(load, seen@, i);
        },
        Message::Atlas(AtlasMessage::AtlasCreated(Ok(id))) => {
            let head: Seq<ActionView> = seq![Action::FetchAtlases];
            let rest = associations(new_atlas_delta(window, around, id));
            assert(actions == head + rest);
            lemma_either(head, rest, i);
        },
        _ => {},
    }
}

/// Going to something secret stays in the area.
proof fn lemma_jumping_stays(area: AreaCache, entity: SecretEntity)
    ensures
        forall|k: int|
            0 <= k < navigation::secret_place(area, entity).len() ==> !((
            #[trigger] navigation::secret_place(area, entity)[k]) is SetArea),
{
}

/// First sights are associations.
proof fn lemma_sights_only(load: AtlasLoad, seen: Seq<AtlasId>, i: int)
    requires
        0 <= i < first_sights(load, seen).len(),
    ensures
        first_sights(load, seen)[i] is Associate,
{
    if let AtlasLoad::Loaded(atlases) = load {
        let piece = |id: AtlasId| first_sight(id, seen);
        let all = list::distinct(folders::owned_ids(atlases@));
        list::lemma_collect_source(all, piece, i);
    }
}

/// A tick that enters an area clears the history.
proof fn lemma_clock_clears(window: WindowView, around: Surroundings, input: TickInput, i: int)
    requires
        0 <= i < clock_step(window, around, input).1.len(),
        changes_area(clock_step(window, around, input).1[i]),
    ensures
        clock_step(window, around, input).1.contains(Action::ClearHistory),
{
    let actions = clock_step(window, around, input).1;
    let plan = navigation::tick_plan(
        tick_state(window),
        around.atlas,
        around.editor.area_id,
        input,
    );
    let a = due(plan.fetch_sharers, Action::FetchSharers);
    let b = due(plan.fetch_atlases, Action::FetchAtlases);
    let ticked = ticked_window(window, around, input);
    match plan.select {
        Some(id) => {
            let delta = opened_delta(ticked, around, id);
            if around.editor.area_id == Some(id) {
                assert(actions =~= a + b);
                lemma_either(a, b, i);
            } else {
                lemma_entering_clears(around, Some(id), a + b, associations(delta));
                assert((a + b) + (entered(around, Some(id)) + associations(delta)) =~= (a + b)
                    + entered(around, Some(id)) + associations(delta));
            }
        },
        None => {
            let c = due(plan.clear_history, Action::ClearHistory);
            let d = due(plan.resync, Action::Resync);
            assert(actions == a + b + c + d);
            lemma_either(a + b + c, d, i);
            if i < (a + b + c).len() {
                lemma_either(a + b, c, i);
                if i < (a + b).len() {
                    lemma_either(a, b, i);
                }
            }
        },
    }
}

/// The area that an action renames, deletes or files elsewhere.
pub open spec fn area_written(action: ActionView) -> Option<AreaId> {
    match action {
        Action::RenameArea { area_id, .. } => Some(area_id),
        Action::DeleteArea(area_id) => Some(area_id),
        Action::MoveArea { area_id, .. } => Some(area_id),
        _ => None,
    }
}

/// Only own areas are renamed, deleted or filed elsewhere.
pub proof fn law_only_own_areas_are_filed_and_deleted(
    window: WindowView,
    message: AreaMessage,
    around: Surroundings,
    i: int,
)
    requires
        0 <= i < area_step(window, message, around).1.len(),
    ensures
        area_written(area_step(window, message, around).1[i]) matches Some(area_id) ==> window::owns(
            around.atlas,
            area_id,
        ),
{
    let actions = area_step(window, message, around).1;
    match message {
        AreaMessage::AreaCreated(Ok(id)) => {
            let created = created_delta(window, around, id);
            let delta = if created is Some {
                created
            } else {
                opened_delta(window, around, id)
            };
            if around.editor.area_id != Some(id) {
                lemma_entering_writes_no_area(around, Some(id), associations(delta), i);
            }
        },
        AreaMessage::AreaDeleted => {
            let next = area_list::first_area(around.maps@, around.ephemeral@);
            assert(entered(around, next) + Seq::<ActionView>::empty() =~= entered(around, next));
            lemma_entering_writes_no_area(around, next, Seq::empty(), i);
        },
        AreaMessage::SetActiveCopy(chosen) => {
            let family = known_family(window, around, chosen);
            let rest: Seq<ActionView> = seq![Action::ReportDisabledAreas];
            assert(actions =~= switches(family, chosen) + rest);
            lemma_either(switches(family, chosen), rest, i);
        },
        _ => {},
    }
}

/// Entering an area renames, deletes and files none.
proof fn lemma_entering_writes_no_area(
    around: Surroundings,
    area_id: Option<AreaId>,
    after: Seq<ActionView>,
    i: int,
)
    requires
        0 <= i < (entered(around, area_id) + after).len(),
        after.len() == 0 || (after.len() == 1 && after[0] is Associate),
    ensures
        area_written((entered(around, area_id) + after)[i]) is None,
{
    let changes = change_actions(navigation::entering(around.editor.tool, around.atlas, area_id));
    let rest: Seq<ActionView> = seq![Action::ClearHistory, Action::RefreshSeenRev, Action::Resync];
    lemma_either(entered(around, area_id), after, i);
    if i < entered(around, area_id).len() {
        lemma_either(changes, rest, i);
    }
}

} // verus!
