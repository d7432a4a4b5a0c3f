//! What the open automation reads of the published state, and how it is edited.

use vstd::prelude::*;

use super::addresses::{self, takes_handle};
use super::catalogue::CatalogueSnapshot;
use super::exposures::{self, DraftView, StateExposure, StateExposureDraft};
use super::notes::{self, exposure_error_message, state_notes_for, ScriptLang, StateExposureError, StateNote, Vocabulary};
use super::paths::{self, StorePath};
use super::phrases::{self, phrase_with, Phrase, PhraseView};
use super::references::{self, rail_entries};
use super::topbar::Selection;
use crate::list;
use crate::text::{self, is_empty_text, trim};
use crate::words::{self, folded};

verus! {

// ===== The row that adds a path =====

/// The row that adds a path by hand.
pub struct StateAddDraft<T = String, P = Phrase> {
    /// Whether the row is shown.
    pub revealed: bool,
    pub producer: T,
    pub handle: T,
    pub path: T,
    /// Whether the list of producers is open.
    pub picker_open: bool,
    /// The place in it.
    pub cursor: usize,
    /// Whether the list of handles is open.
    pub handle_picker_open: bool,
    /// The place in it.
    pub handle_cursor: usize,
    /// What is said of the last path, if it was none.
    pub error: Option<P>,
}

/// The row over sequences.
pub type AddView = StateAddDraft<Seq<char>, PhraseView>;

impl View for StateAddDraft<String, Phrase> {
    type V = AddView;

    open spec fn view(&self) -> AddView {
        StateAddDraft {
            revealed: self.revealed,
            producer: self.producer@,
            handle: self.handle@,
            path: self.path@,
            picker_open: self.picker_open,
            cursor: self.cursor,
            handle_picker_open: self.handle_picker_open,
            handle_cursor: self.handle_cursor,
            error: phrases::opt_phrase(self.error),
        }
    }
}

/// The row as it starts.
pub open spec fn fresh_add() -> AddView {
    StateAddDraft {
        revealed: false,
        producer: "gmcp"@,
        handle: Seq::empty(),
        path: Seq::empty(),
        picker_open: false,
        cursor: 0,
        handle_picker_open: false,
        handle_cursor: 0,
        error: None,
    }
}

impl Default for StateAddDraft<String, Phrase> {
    fn default() -> (draft: Self)
        ensures
            draft@ == fresh_add(),
    {
        StateAddDraft {
            revealed: false,
            producer: String::from_str("gmcp"),
            handle: String::new(),
            path: String::new(),
            picker_open: false,
            cursor: 0,
            handle_picker_open: false,
            handle_cursor: 0,
            error: None,
        }
    }
}

// ===== The window =====

/// What kind of automation is edited.
#[derive(Clone, Copy, Debug, PartialEq, Eq, Structural)]
pub enum EditNode {
    Alias,
    Trigger,
    Hotkey,
    Other,
}

/// An open editor.
pub struct EditorState {
    pub node: EditNode,
    /// The captures of the matcher, with their names where they have one.
    pub captures: Vec<Option<String>>,
    pub language: ScriptLang,
}

/// What the window shows beside the list.
pub enum Pane {
    Dashboard,
    Editor(EditorState),
    Discover,
    Shared,
    StoreInspector,
}

/// The automations window.
pub struct AutomationsWindow {
    pub pane: Pane,
    pub selection: Selection,
    pub state_revealed: bool,
    pub state_exposures: Vec<StateExposureDraft>,
    pub state_filter: String,
    /// The values of the state's tree whose folding was turned.
    pub state_toggled: Vec<String>,
    pub state_add: StateAddDraft,
    /// The values of the store's tree whose folding was turned.
    pub store_toggled: Vec<String>,
    /// What is published, once it is known.
    pub catalogue: Option<CatalogueSnapshot>,
    /// The specifiers of the installed packages.
    pub installed_packages: Vec<String>,
}

/// The window over sequences.
pub struct WindowView {
    pub pane: Pane,
    pub selection: Selection,
    pub state_revealed: bool,
    pub state_exposures: Seq<DraftView>,
    pub state_filter: Seq<char>,
    pub state_toggled: Seq<Seq<char>>,
    pub state_add: AddView,
    pub store_toggled: Vec<String>,
    pub catalogue: Option<CatalogueSnapshot>,
    pub installed_packages: Vec<String>,
}

impl View for AutomationsWindow {
    type V = WindowView;

    open spec fn view(&self) -> WindowView {
        WindowView {
            pane: self.pane,
            selection: self.selection,
            state_revealed: self.state_revealed,
            state_exposures: exposures::drafts_view(self.state_exposures@),
            state_filter: self.state_filter@,
            state_toggled: text::texts(self.state_toggled@),
            state_add: self.state_add@,
            store_toggled: self.store_toggled,
            catalogue: self.catalogue,
            installed_packages: self.installed_packages,
        }
    }
}

// ===== The exposed roots =====

/// The place of a root.
pub open spec fn root_place(drafts: Seq<DraftView>, producer: Seq<char>, handle: Option<Seq<char>>) -> Option<
    int,
> {
    list::place(drafts, |draft: DraftView| exposures::is_root_of(draft, producer, handle))
}

/// A root with one path.
pub open spec fn new_root(producer: Seq<char>, handle: Option<Seq<char>>, path: Seq<char>) -> DraftView {
    StateExposureDraft {
        producer,
        handle: match handle {
            Some(handle) => Some(text::trimmed(handle)),
            None => None,
        },
        name_field: None,
        paths: seq![path],
    }
}

/// The roots after a path was exposed: nothing changes where it was already.
pub open spec fn inserted(
    drafts: Seq<DraftView>,
    producer: Seq<char>,
    handle: Option<Seq<char>>,
    path: Seq<char>,
) -> Seq<DraftView> {
    let path = text::trimmed(path);
    match root_place(drafts, producer, handle) {
        Some(i) => if exposures::path_place(drafts[i].paths, path) is Some {
            drafts
        } else {
            drafts.update(
                i,
                StateExposureDraft { paths: drafts[i].paths.push(path), ..drafts[i] },
            )
        },
        None => drafts.push(new_root(producer, handle, path)),
    }
}

/// The paths without one.
pub open spec fn paths_without(kept: Seq<Seq<char>>, path: Seq<char>) -> Seq<Seq<char>> {
    match exposures::path_place(kept, path) {
        Some(at) => kept.remove(at),
        None => kept,
    }
}

/// The roots after a path is exposed no more: a root goes with its last path.
pub open spec fn removed(
    drafts: Seq<DraftView>,
    producer: Seq<char>,
    handle: Option<Seq<char>>,
    path: Seq<char>,
) -> Seq<DraftView> {
    match root_place(drafts, producer, handle) {
        Some(i) => {
            let rest = paths_without(drafts[i].paths, path);
            if rest.len() == 0 {
                drafts.remove(i)
            } else {
                drafts.update(i, StateExposureDraft { paths: rest, ..drafts[i] })
            }
        },
        None => drafts,
    }
}

/// Whether a path is exposed.
pub open spec fn exposes(
    drafts: Seq<DraftView>,
    producer: Seq<char>,
    handle: Option<Seq<char>>,
    path: Seq<char>,
) -> bool {
    root_place(drafts, producer, handle) matches Some(i) && exposures::path_place(
        drafts[i].paths,
        path,
    ) is Some
}

/// The roots after a path was toggled.
pub open spec fn toggled(
    drafts: Seq<DraftView>,
    producer: Seq<char>,
    handle: Option<Seq<char>>,
    path: Seq<char>,
) -> Seq<DraftView> {
    if exposes(drafts, producer, handle, path) {
        removed(drafts, producer, handle, path)
    } else {
        inserted(drafts, producer, handle, path)
    }
}

/// The roots with another field for the name of one.
pub open spec fn renamed(
    drafts: Seq<DraftView>,
    producer: Seq<char>,
    handle: Option<Seq<char>>,
    name_field: Option<Seq<char>>,
) -> Seq<DraftView> {
    match root_place(drafts, producer, handle) {
        Some(i) => drafts.update(i, StateExposureDraft { name_field, ..drafts[i] }),
        None => drafts,
    }
}

/// The drafts of exposures: one without paths exposes nothing and is left out.
pub open spec fn drafts_of(given: Seq<exposures::ExposureView>) -> Seq<DraftView> {
    list::collect(
        given,
        |exposure: exposures::ExposureView|
            if exposure.paths.len() == 0 {
                Seq::empty()
            } else {
                seq![exposures::draft_of(exposure)]
            },
    )
}

/// The window with other roots.
pub open spec fn with_roots(window: WindowView, drafts: Seq<DraftView>) -> WindowView {
    WindowView { state_exposures: drafts, ..window }
}

impl AutomationsWindow {
    /// Whether what the automation reads is shown: it was asked for, or there is
    /// something.
    pub fn state_disclosure_open(&self) -> (open: bool)
        ensures
            open == (self@.state_revealed || self@.state_exposures.len() > 0),
    {
        self.state_revealed || self.state_exposures.len() > 0
    }

    /// Whether the window wants to know what is published: where it shows that, or
    /// an editor shows what its automation reads.
    pub fn catalogue_subscribed(&self) -> (subscribed: bool)
        ensures
            subscribed == match self@.pane {
                Pane::StoreInspector => true,
                Pane::Editor(_) => self@.state_revealed || self@.state_exposures.len() > 0,
                _ => false,
            },
    {
        match &self.pane {
            Pane::StoreInspector => true,
            Pane::Editor(_) => self.state_disclosure_open(),
            _ => false,
        }
    }

    /// Takes the exposures of the automation that is opened.
    pub fn reset_state_draft(&mut self, exposures: &Vec<StateExposure>)
        ensures
            final(self)@ == (WindowView {
                state_exposures: drafts_of(exposures::exposures_view(exposures@)),
                state_revealed: false,
                state_filter: Seq::empty(),
                state_toggled: Seq::empty(),
                state_add: fresh_add(),
                ..old(self)@
            }),
    {
        let ghost given = exposures::exposures_view(exposures@);
        let ghost piece = |exposure: exposures::ExposureView|
            if exposure.paths.len() == 0 {
                Seq::<DraftView>::empty()
            } else {
                seq![exposures::draft_of(exposure)]
            };
        let mut drafts: Vec<StateExposureDraft> = Vec::new();
        assert(exposures::drafts_view(drafts@) =~= Seq::empty());
        assert(given.take(0) =~= Seq::empty());
        for i in 0..exposures.len()
            invariant
                given == exposures::exposures_view(exposures@),
                piece == (|exposure: exposures::ExposureView|
                    if exposure.paths.len() == 0 {
                        Seq::<DraftView>::empty()
                    } else {
                        seq![exposures::draft_of(exposure)]
                    }),
                exposures::drafts_view(drafts@) == list::collect(given.take(i as int), piece),
        {
            proof {
                list::lemma_collect_step(given, piece, i as int);
            }
            assert(given[i as int] == exposures@[i as int]@);
            let ghost before = exposures::drafts_view(drafts@);
            if exposures[i].paths.len() > 0 {
                drafts.push(StateExposureDraft::from_exposure(&exposures[i]));
            }
            assert(exposures::drafts_view(drafts@) =~= before + piece(given[i as int]));
        }
        assert(given.take(given.len() as int) =~= given);
        self.state_exposures = drafts;
        self.state_revealed = false;
        self.state_filter = String::new();
        self.state_toggled = Vec::new();
        self.state_add = StateAddDraft::default();
        assert(self@.state_toggled =~= Seq::empty());
    }

    /// The place of a root.
    pub fn state_root_index(&self, producer: &str, handle: Option<&str>) -> (index: Option<usize>)
        ensures
            match index {
                Some(index) => index < self.state_exposures.len() && root_place(
                    self@.state_exposures,
                    producer@,
                    exposures::opt_str(handle),
                ) == Some(index as int),
                None => root_place(
                    self@.state_exposures,
                    producer@,
                    exposures::opt_str(handle),
                ) is None,
            },
    {
        let ghost drafts = self@.state_exposures;
        let ghost p = |draft: DraftView|
            exposures::is_root_of(draft, producer@, exposures::opt_str(handle));
        for i in 0..self.state_exposures.len()
            invariant
                drafts == exposures::drafts_view(self.state_exposures@),
                p == (|draft: DraftView|
                    exposures::is_root_of(draft, producer@, exposures::opt_str(handle))),
                forall|k: int| 0 <= k < i ==> !p(#[trigger] drafts[k]),
        {
            assert(drafts[i as int] == self.state_exposures@[i as int]@);
            if self.state_exposures[i].is_root(producer, handle) {
                proof {
                    list::lemma_place(drafts, p, i as int);
                }
                return Some(i);
            }
        }
        assert(!exists|i: int| list::is_first(drafts, p, i)) by {
            assert forall|i: int| !list::is_first(drafts, p, i) by {
                if list::is_first(drafts, p, i) {
                    assert(p(drafts[i]));
                }
            }
        }
        None
    }

    /// Exposes a path. Nothing changes where it was exposed already.
    pub fn insert_state_path(&mut self, producer: &str, handle: Option<&str>, path: &str)
        ensures
            final(self)@ == with_roots(
                old(self)@,
                inserted(
                    old(self)@.state_exposures,
                    producer@,
                    exposures::opt_str(handle),
                    path@,
                ),
            ),
    {
        let ghost drafts = self@.state_exposures;
        let path = trim(path);
        match self.state_root_index(producer, handle) {
            Some(index) => {
                assert(drafts[index as int] == self.state_exposures@[index as int]@);
                if self.state_exposures[index].path_index(&path).is_none() {
                    let ghost added = path@;
                    let ghost kept = self.state_exposures@[index as int].paths@;
                    let draft = &mut self.state_exposures[index];
                    draft.paths.push(path);
                    assert(text::texts(kept.push(path)) =~= text::texts(kept).push(added));
                    assert(self@.state_exposures =~= drafts.update(
                        index as int,
                        StateExposureDraft {
                            paths: drafts[index as int].paths.push(added),
                            ..drafts[index as int]
                        },
                    ));
                }
            },
            None => {
                let kept_handle = match handle {
                    Some(handle) => Some(trim(handle)),
                    None => None,
                };
                let ghost added = path@;
                let mut paths: Vec<String> = Vec::new();
                paths.push(path);
                assert(text::texts(paths@) =~= seq![added]);
                self.state_exposures.push(
                    StateExposureDraft {
                        producer: producer.to_owned(),
                        handle: kept_handle,
                        name_field: None,
                        paths,
                    },
                );
                assert(self@.state_exposures =~= drafts.push(
                    new_root(producer@, exposures::opt_str(handle), added),
                ));
            },
        }
    }

    /// Exposes a path no more.
    pub fn remove_state_exposure(&mut self, producer: &str, handle: Option<&str>, path: &str)
        ensures
            final(self)@ == with_roots(
                old(self)@,
                removed(
                    old(self)@.state_exposures,
                    producer@,
                    exposures::opt_str(handle),
                    path@,
                ),
            ),
    {
        let ghost drafts = self@.state_exposures;
        if let Some(index) = self.state_root_index(producer, handle) {
            let ghost i = index as int;
            assert(drafts[i] == self.state_exposures@[i]@);
            if let Some(at) = self.state_exposures[index].path_index(path) {
                let ghost kept = self.state_exposures@[i].paths@;
                let draft = &mut self.state_exposures[index];
                let gone = draft.paths.remove(at);
                assert(text::texts(kept.remove(at as int)) =~= text::texts(kept).remove(at as int));
                assert(self@.state_exposures =~= drafts.update(
                    i,
                    StateExposureDraft {
                        paths: paths_without(drafts[i].paths, path@),
                        ..drafts[i]
                    },
                ));
            } else {
                assert(drafts =~= drafts.update(i, drafts[i]));
            }
            let ghost rest = paths_without(drafts[i].paths, path@);
            assert(self@.state_exposures =~= drafts.update(
                i,
                StateExposureDraft { paths: rest, ..drafts[i] },
            ));
            assert(self@.state_exposures[i] == self.state_exposures@[i]@);
            assert(rest.len() == self.state_exposures@[i].paths@.len());
            if self.state_exposures[index].paths.len() == 0 {
                let gone = self.state_exposures.remove(index);
                assert(self@.state_exposures =~= drafts.remove(i));
            }
        }
    }

    /// Exposes a path, or exposes it no more.
    pub fn toggle_state_exposure(&mut self, producer: &str, handle: Option<&str>, path: &str)
        ensures
            final(self)@ == with_roots(
                old(self)@,
                toggled(
                    old(self)@.state_exposures,
                    producer@,
                    exposures::opt_str(handle),
                    path@,
                ),
            ),
    {
        let exposed: bool = match self.state_root_index(producer, handle) {
            Some(index) => {
                assert(self@.state_exposures[index as int] == self.state_exposures@[index as int]@);
                self.state_exposures[index].path_index(path).is_some()
            },
            None => false,
        };
        if exposed {
            self.remove_state_exposure(producer, handle, path);
        } else {
            self.insert_state_path(producer, handle, path);
        }
    }

    /// Exposes a path that was typed. What is no path is said so; a root that needs
    /// a handle waits for one.
    pub fn add_state_path(&mut self, producer: &str, handle: Option<&str>, path: &str)
        ensures
            final(self)@ == added(old(self)@, producer@, exposures::opt_str(handle), path@),
    {
        let path = trim(path);
        if StorePath::parse(&path).is_none() {
            self.state_add.error = Some(phrase_with("editor-state-bad-path", "path", &path));
            return;
        }
        let takes = takes_handle(producer);
        if takes {
            match handle {
                Some(handle) => {
                    let handle = trim(handle);
                    if is_empty_text(&handle) {
                        return;
                    }
                    self.insert_state_path(producer, Some(handle.as_str()), &path);
                },
                None => {
                    return;
                },
            }
        } else {
            self.insert_state_path(producer, None, &path);
        }
        self.state_add.error = None;
        self.state_add.path = String::new();
    }

    /// Shows the field for the name of a root.
    pub fn reveal_state_name(&mut self, producer: &str, handle: Option<&str>)
        ensures
            final(self)@ == with_roots(
                old(self)@,
                match root_place(
                    old(self)@.state_exposures,
                    producer@,
                    exposures::opt_str(handle),
                ) {
                    Some(i) => if old(self)@.state_exposures[i].name_field is None {
                        renamed(
                            old(self)@.state_exposures,
                            producer@,
                            exposures::opt_str(handle),
                            Some(Seq::empty()),
                        )
                    } else {
                        old(self)@.state_exposures
                    },
                    None => old(self)@.state_exposures,
                },
            ),
    {
        let ghost drafts = self@.state_exposures;
        if let Some(index) = self.state_root_index(producer, handle) {
            assert(drafts[index as int] == self.state_exposures@[index as int]@);
            if self.state_exposures[index].name_field.is_none() {
                let draft = &mut self.state_exposures[index];
                draft.name_field = Some(String::new());
                assert(self@.state_exposures =~= drafts.update(
                    index as int,
                    StateExposureDraft {
                        name_field: Some(Seq::empty()),
                        ..drafts[index as int]
                    },
                ));
            }
        }
    }

    /// Takes what was typed as the name of a root.
    pub fn set_state_name(&mut self, producer: &str, handle: Option<&str>, name: String)
        ensures
            final(self)@ == with_roots(
                old(self)@,
                renamed(
                    old(self)@.state_exposures,
                    producer@,
                    exposures::opt_str(handle),
                    Some(name@),
                ),
            ),
    {
        let ghost drafts = self@.state_exposures;
        if let Some(index) = self.state_root_index(producer, handle) {
            assert(drafts[index as int] == self.state_exposures@[index as int]@);
            let ghost typed = name@;
            let draft = &mut self.state_exposures[index];
            draft.name_field = Some(name);
            assert(self@.state_exposures =~= drafts.update(
                index as int,
                StateExposureDraft { name_field: Some(typed), ..drafts[index as int] },
            ));
        }
    }
}

/// The handle that a root is added under: none where the producer has no handles, and
/// none to add under where it has and none was typed.
pub open spec fn handle_to_add(producer: Seq<char>, handle: Option<Seq<char>>) -> Option<
    Option<Seq<char>>,
> {
    if !addresses::has_handles(producer) {
        Some(None)
    } else {
        match handle {
            Some(handle) => if text::trimmed(handle).len() == 0 {
                None
            } else {
                Some(Some(text::trimmed(handle)))
            },
            None => None,
        }
    }
}

/// The window after a typed path was added.
pub open spec fn added(
    window: WindowView,
    producer: Seq<char>,
    handle: Option<Seq<char>>,
    path: Seq<char>,
) -> WindowView {
    let path = text::trimmed(path);
    if paths::path_of(path) is None {
        WindowView {
            state_add: StateAddDraft {
                error: Some(phrases::with_argument("editor-state-bad-path"@, "path"@, path)),
                ..window.state_add
            },
            ..window
        }
    } else {
        match handle_to_add(producer, handle) {
            Some(handle) => WindowView {
                state_exposures: inserted(window.state_exposures, producer, handle, path),
                state_add: StateAddDraft { error: None, path: Seq::empty(), ..window.state_add },
                ..window
            },
            None => window,
        }
    }
}

// ===== What is drawn from the roots =====

/// The names of captures.
pub open spec fn named_captures(captures: Seq<Option<String>>) -> Seq<Seq<char>> {
    list::collect(
        captures,
        |capture: Option<String>|
            match capture {
                Some(name) => seq![name@],
                None => Seq::empty(),
            },
    )
}

/// The names of the captures that the open matcher gives. A hotkey captures nothing.
pub open spec fn capture_names(pane: Pane) -> Seq<Seq<char>> {
    match pane {
        Pane::Editor(editor) => if editor.node == EditNode::Alias || editor.node
            == EditNode::Trigger {
            named_captures(editor.captures@)
        } else {
            Seq::empty()
        },
        _ => Seq::empty(),
    }
}

/// The language of the action in the open editor.
pub open spec fn action_language(pane: Pane) -> Option<ScriptLang> {
    match pane {
        Pane::Editor(editor) => Some(editor.language),
        _ => None,
    }
}

/// The names of roots.
pub open spec fn root_names(drafts: Seq<DraftView>) -> Seq<Seq<char>> {
    drafts.map_values(|draft: DraftView| exposures::draft_name(draft))
}

/// The exposures that drafts stand for.
pub open spec fn kept_exposures(drafts: Seq<DraftView>) -> Seq<exposures::ExposureView> {
    drafts.map_values(|draft: DraftView| exposures::exposure_of(draft))
}

/// A path that references lead to, without ASCII case.
pub struct ExposedPath<T = String, L = Vec<String>> {
    pub name: T,
    pub segments: L,
}

/// An exposed path over sequences.
pub type ExposedView = ExposedPath<Seq<char>, Seq<Seq<char>>>;

impl View for ExposedPath<String, Vec<String>> {
    type V = ExposedView;

    open spec fn view(&self) -> ExposedView {
        ExposedPath { name: self.name@, segments: text::texts(self.segments@) }
    }
}

/// The views of exposed paths.
pub open spec fn exposed_view(list: Seq<ExposedPath>) -> Seq<ExposedView> {
    list.map_values(|one: ExposedPath| one@)
}

/// The exposed path that a text spells beneath a root; none for what is no path.
pub open spec fn exposed_of(draft: DraftView, path: Seq<char>) -> Seq<ExposedView> {
    match paths::path_of(path) {
        Some(keys) => seq![
            ExposedPath {
                name: words::fold(exposures::draft_name(draft)),
                segments: keys.map_values(|key: Seq<char>| words::fold(key)),
            },
        ],
        None => Seq::empty(),
    }
}

/// The exposed paths beneath a root.
pub open spec fn root_exposed(draft: DraftView) -> Seq<ExposedView> {
    list::collect(draft.paths, |path: Seq<char>| exposed_of(draft, path))
}

/// The exposed paths beneath all roots.
pub open spec fn all_exposed(drafts: Seq<DraftView>) -> Seq<ExposedView> {
    list::collect(drafts, |draft: DraftView| root_exposed(draft))
}

/// Texts with their ASCII case taken away.
fn fold_all(texts: &Vec<String>) -> (folds: Vec<String>)
    ensures
        text::texts(folds@) == text::texts(texts@).map_values(|key: Seq<char>| words::fold(key)),
{
    let ghost given = text::texts(texts@);
    let mut folds: Vec<String> = Vec::new();
    assert(text::texts(folds@) =~= given.take(0).map_values(|key: Seq<char>| words::fold(key)));
    for i in 0..texts.len()
        invariant
            given == text::texts(texts@),
            text::texts(folds@) == given.take(i as int).map_values(
                |key: Seq<char>| words::fold(key),
            ),
    {
        assert(given[i as int] == texts@[i as int]@);
        let ghost before = text::texts(folds@);
        folds.push(folded(&texts[i]));
        assert(text::texts(folds@) =~= before.push(words::fold(given[i as int])));
        assert(text::texts(folds@) =~= given.take(i + 1).map_values(
            |key: Seq<char>| words::fold(key),
        ));
    }
    assert(given.take(given.len() as int) =~= given);
    folds
}

/// The exposed paths beneath a root.
fn draft_exposed(draft: &StateExposureDraft) -> (exposed: Vec<ExposedPath>)
    ensures
        exposed_view(exposed@) == root_exposed(draft@),
{
    let name = draft.name();
    let ghost given = draft@.paths;
    let ghost piece = |path: Seq<char>| exposed_of(draft@, path);
    let mut exposed: Vec<ExposedPath> = Vec::new();
    assert(exposed_view(exposed@) =~= Seq::empty());
    assert(given.take(0) =~= Seq::empty());
    for i in 0..draft.paths.len()
        invariant
            given == text::texts(draft.paths@),
            name@ == exposures::draft_name(draft@),
            piece == (|path: Seq<char>| exposed_of(draft@, path)),
            exposed_view(exposed@) == list::collect(given.take(i as int), piece),
    {
        proof {
            list::lemma_collect_step(given, piece, i as int);
        }
        assert(given[i as int] == draft.paths@[i as int]@);
        let ghost before = exposed_view(exposed@);
        if let Some(parsed) = StorePath::parse(&draft.paths[i]) {
            exposed.push(
                ExposedPath { name: folded(&name), segments: fold_all(&parsed.segments) },
            );
        }
        assert(exposed_view(exposed@) =~= before + piece(given[i as int]));
    }
    assert(given.take(given.len() as int) =~= given);
    exposed
}

impl AutomationsWindow {
    /// The names of the captures that the open matcher gives.
    pub fn open_capture_names(&self) -> (names: Vec<String>)
        ensures
            text::texts(names@) == capture_names(self@.pane),
    {
        let mut names: Vec<String> = Vec::new();
        assert(text::texts(names@) =~= Seq::empty());
        if let Pane::Editor(editor) = &self.pane {
            if editor.node == EditNode::Alias || editor.node == EditNode::Trigger {
                let ghost given = editor.captures@;
                let ghost piece = |capture: Option<String>|
                    match capture {
                        Some(name) => seq![name@],
                        None => Seq::<Seq<char>>::empty(),
                    };
                assert(given.take(0) =~= Seq::empty());
                for i in 0..editor.captures.len()
                    invariant
                        given == editor.captures@,
                        piece == (|capture: Option<String>|
                            match capture {
                                Some(name) => seq![name@],
                                None => Seq::<Seq<char>>::empty(),
                            }),
                        text::texts(names@) == list::collect(given.take(i as int), piece),
                {
                    proof {
                        list::lemma_collect_step(given, piece, i as int);
                    }
                    let ghost before = text::texts(names@);
                    if let Some(name) = &editor.captures[i] {
                        names.push(name.clone());
                    }
                    assert(text::texts(names@) =~= before + piece(given[i as int]));
                }
                assert(given.take(given.len() as int) =~= given);
            }
        }
        names
    }

    /// What is to be said of each root's name.
    pub fn state_notes(&self, vocabulary: &Vocabulary) -> (notes: Vec<Vec<StateNote>>)
        ensures
            notes.len() == self@.state_exposures.len(),
            forall|i: int|
                0 <= i < notes.len() ==> notes::notes_view(#[trigger] notes@[i]@)
                    == notes::notes_of(
                    root_names(self@.state_exposures),
                    i,
                    capture_names(self@.pane),
                    action_language(self@.pane),
                    *vocabulary,
                ),
    {
        let ghost drafts = self@.state_exposures;
        let mut names: Vec<String> = Vec::new();
        assert(text::texts(names@) =~= root_names(drafts.take(0)));
        for i in 0..self.state_exposures.len()
            invariant
                drafts == exposures::drafts_view(self.state_exposures@),
                text::texts(names@) == root_names(drafts.take(i as int)),
        {
            assert(drafts[i as int] == self.state_exposures@[i as int]@);
            let ghost before = text::texts(names@);
            names.push(self.state_exposures[i].name());
            assert(text::texts(names@) =~= before.push(exposures::draft_name(drafts[i as int])));
            assert(text::texts(names@) =~= root_names(drafts.take(i + 1)));
        }
        assert(drafts.take(drafts.len() as int) =~= drafts);
        let captures = self.open_capture_names();
        let language: Option<ScriptLang> = match &self.pane {
            Pane::Editor(editor) => Some(editor.language),
            _ => None,
        };
        state_notes_for(&names, &captures, language, vocabulary)
    }

    /// The exposures as they are kept.
    pub fn drafted_exposures(&self) -> (kept: Vec<StateExposure>)
        ensures
            exposures::exposures_view(kept@) == kept_exposures(self@.state_exposures),
    {
        let ghost drafts = self@.state_exposures;
        let mut kept: Vec<StateExposure> = Vec::new();
        assert(exposures::exposures_view(kept@) =~= kept_exposures(drafts.take(0)));
        for i in 0..self.state_exposures.len()
            invariant
                drafts == exposures::drafts_view(self.state_exposures@),
                exposures::exposures_view(kept@) == kept_exposures(drafts.take(i as int)),
        {
            assert(drafts[i as int] == self.state_exposures@[i as int]@);
            let ghost before = exposures::exposures_view(kept@);
            kept.push(self.state_exposures[i].to_exposure());
            assert(exposures::exposures_view(kept@) =~= before.push(
                exposures::exposure_of(drafts[i as int]),
            ));
            assert(exposures::exposures_view(kept@) =~= kept_exposures(drafts.take(i + 1)));
        }
        assert(drafts.take(drafts.len() as int) =~= drafts);
        kept
    }

    /// The exposures as they are kept, unless the runtime cannot use them: then what
    /// is said of the first that it cannot.
    pub fn validate_state_exposures(&self, failure: &Option<StateExposureError>) -> (result: Result<
        Vec<StateExposure>,
        Phrase,
    >)
        ensures
            match (*failure, result) {
                (None, Ok(kept)) => exposures::exposures_view(kept@) == kept_exposures(
                    self@.state_exposures,
                ),
                (Some(error), Err(message)) => message@ == notes::error_text(error),
                _ => false,
            },
    {
        match failure {
            None => Ok(self.drafted_exposures()),
            Some(error) => Err(exposure_error_message(error)),
        }
    }

    /// The paths that references lead to. What is no path exposes nothing.
    pub fn exposed_paths(&self) -> (exposed: Vec<ExposedPath>)
        ensures
            exposed_view(exposed@) == all_exposed(self@.state_exposures),
    {
        let ghost drafts = self@.state_exposures;
        let ghost piece = |draft: DraftView| root_exposed(draft);
        let mut exposed: Vec<ExposedPath> = Vec::new();
        assert(exposed_view(exposed@) =~= Seq::empty());
        assert(drafts.take(0) =~= Seq::empty());
        for i in 0..self.state_exposures.len()
            invariant
                drafts == exposures::drafts_view(self.state_exposures@),
                piece == (|draft: DraftView| root_exposed(draft)),
                exposed_view(exposed@) == list::collect(drafts.take(i as int), piece),
        {
            proof {
                list::lemma_collect_step(drafts, piece, i as int);
            }
            assert(drafts[i as int] == self.state_exposures@[i as int]@);
            let ghost before = exposed@;
            let mut more = draft_exposed(&self.state_exposures[i]);
            let ghost added = more@;
            exposed.append(&mut more);
            assert(exposed_view(exposed@) =~= exposed_view(before) + exposed_view(added));
        }
        assert(drafts.take(drafts.len() as int) =~= drafts);
        exposed
    }

    /// The badges of the roots, with the values that are published.
    pub fn state_rail_entries(&self, language: ScriptLang) -> (badges: Vec<(String, Option<String>)>)
        ensures
            references::badges_view(badges@) == references::all_badges(
                self@.state_exposures,
                language,
                self@.catalogue,
            ),
    {
        match &self.catalogue {
            Some(snapshot) => rail_entries(&self.state_exposures, language, Some(snapshot)),
            None => rail_entries(&self.state_exposures, language, None),
        }
    }
}

// ===== Laws =====

/// A text without the whitespace round it has none to lose.
pub proof fn lemma_trimmed_twice(given: Seq<char>)
    ensures
        text::trimmed(text::trimmed(given)) == text::trimmed(given),
{
    let start = text::trimmed_start(given);
    lemma_start_trimmed(given);
    lemma_end_trimmed(start);
    let both = text::trimmed(given);
    if both.len() > 0 {
        assert(both[0] == start[0]);
    }
}

/// What starts without whitespace.
proof fn lemma_start_trimmed(given: Seq<char>)
    ensures
        text::trimmed_start(given).len() > 0 ==> !text::is_whitespace(
            text::trimmed_start(given)[0],
        ),
    decreases given.len(),
{
    if given.len() > 0 && text::is_whitespace(given[0]) {
        lemma_start_trimmed(given.skip(1));
    }
}

/// What ends without whitespace, and starts as before.
proof fn lemma_end_trimmed(given: Seq<char>)
    ensures
        text::trimmed_end(given).len() <= given.len(),
        text::trimmed_end(given) == given.take(text::trimmed_end(given).len() as int),
        text::trimmed_end(given).len() > 0 ==> !text::is_whitespace(
            text::trimmed_end(given).last(),
        ),
    decreases given.len(),
{
    if given.len() > 0 && text::is_whitespace(given.last()) {
        lemma_end_trimmed(given.drop_last());
        assert(given.take(text::trimmed_end(given).len() as int) =~= given.drop_last().take(
            text::trimmed_end(given).len() as int,
        ));
    } else {
        assert(given.take(given.len() as int) =~= given);
    }
}

/// A root is one of itself, also with the whitespace round its handle gone.
proof fn lemma_own_root(producer: Seq<char>, handle: Option<Seq<char>>, path: Seq<char>)
    ensures
        exposures::is_root_of(new_root(producer, handle, path), producer, handle),
{
    if let Some(handle) = handle {
        lemma_trimmed_twice(handle);
    }
}

/// A path is the same as itself.
proof fn lemma_own_path(path: Seq<char>)
    ensures
        paths::same_path(path, path),
{
    if let Some(keys) = paths::path_of(path) {
        paths::law_same_path_is_an_equivalence(keys, keys, keys);
    }
}

/// Where nothing was found, what is added at the end is.
proof fn lemma_place_pushed<T>(s: Seq<T>, p: spec_fn(T) -> bool, x: T)
    requires
        list::place(s, p) is None,
        p(x),
    ensures
        list::place(s.push(x), p) == Some(s.len() as int),
{
    let longer = s.push(x);
    assert forall|k: int| 0 <= k < s.len() implies !p(#[trigger] s[k]) by {
        if p(s[k]) {
            list::lemma_first_exists(s, p);
        }
    }
    assert forall|k: int| 0 <= k < s.len() implies !p(#[trigger] longer[k]) by {
        assert(longer[k] == s[k]);
    }
    list::lemma_place(longer, p, s.len() as int);
}

/// Where something is first, it is still first after a change that keeps it so.
proof fn lemma_place_updated<T>(s: Seq<T>, p: spec_fn(T) -> bool, i: int, x: T)
    requires
        list::place(s, p) == Some(i),
        p(x),
    ensures
        0 <= i < s.len(),
        list::place(s.update(i, x), p) == Some(i),
{
    let first = choose|k: int| list::is_first(s, p, k);
    assert(list::is_first(s, p, i));
    let other = s.update(i, x);
    assert forall|k: int| 0 <= k < i implies !p(#[trigger] other[k]) by {
        assert(other[k] == s[k]);
    }
    list::lemma_place(other, p, i);
}

/// A path that was added is exposed.
pub proof fn law_an_added_path_is_exposed(
    drafts: Seq<DraftView>,
    producer: Seq<char>,
    handle: Option<Seq<char>>,
    path: Seq<char>,
)
    ensures
        exposes(inserted(drafts, producer, handle, path), producer, handle, text::trimmed(path)),
{
    let path = text::trimmed(path);
    let p = |draft: DraftView| exposures::is_root_of(draft, producer, handle);
    let q = |one: Seq<char>| paths::same_path(one, path);
    lemma_own_path(path);
    match root_place(drafts, producer, handle) {
        Some(i) => {
            if exposures::path_place(drafts[i].paths, path) is None {
                let more = StateExposureDraft { paths: drafts[i].paths.push(path), ..drafts[i] };
                assert(list::is_first(drafts, p, i));
                assert(p(more));
                lemma_place_updated(drafts, p, i, more);
                lemma_place_pushed(drafts[i].paths, q, path);
            }
        },
        None => {
            let root = new_root(producer, handle, path);
            lemma_own_root(producer, handle, path);
            lemma_place_pushed(drafts, p, root);
            assert(list::place(Seq::<Seq<char>>::empty(), q) is None);
            lemma_place_pushed(Seq::empty(), q, path);
            assert(Seq::empty().push(path) =~= root.paths);
        },
    }
}

/// A path that is toggled on and off again leaves what was there. Every root that is
/// there has a path.
pub proof fn law_toggling_twice_restores(
    drafts: Seq<DraftView>,
    producer: Seq<char>,
    handle: Option<Seq<char>>,
    path: Seq<char>,
)
    requires
        text::trimmed(path) == path,
        forall|i: int| 0 <= i < drafts.len() ==> (#[trigger] drafts[i]).paths.len() > 0,
        !exposes(drafts, producer, handle, path),
    ensures
        toggled(toggled(drafts, producer, handle, path), producer, handle, path) == drafts,
{
    let p = |draft: DraftView| exposures::is_root_of(draft, producer, handle);
    let q = |one: Seq<char>| paths::same_path(one, path);
    let after = toggled(drafts, producer, handle, path);
    law_an_added_path_is_exposed(drafts, producer, handle, path);
    lemma_own_path(path);
    match root_place(drafts, producer, handle) {
        Some(i) => {
            let more = StateExposureDraft { paths: drafts[i].paths.push(path), ..drafts[i] };
            assert(list::is_first(drafts, p, i));
            assert(p(more));
            lemma_place_updated(drafts, p, i, more);
            lemma_place_pushed(drafts[i].paths, q, path);
            assert(more.paths.remove(drafts[i].paths.len() as int) =~= drafts[i].paths);
            assert(removed(after, producer, handle, path) =~= drafts);
        },
        None => {
            let root = new_root(producer, handle, path);
            lemma_own_root(producer, handle, path);
            lemma_place_pushed(drafts, p, root);
            assert(list::place(Seq::<Seq<char>>::empty(), q) is None);
            lemma_place_pushed(Seq::empty(), q, path);
            assert(Seq::empty().push(path) =~= root.paths);
            assert(root.paths.remove(0) =~= Seq::empty());
            assert(removed(after, producer, handle, path) =~= drafts);
        },
    }
}

/// No path of a root is the same as another.
pub open spec fn paths_distinct(kept: Seq<Seq<char>>) -> bool {
    forall|i: int, k: int|
        0 <= i < k < kept.len() ==> !paths::same_path(#[trigger] kept[i], #[trigger] kept[k])
}

/// Adding a path never lists one of a root twice.
pub proof fn law_no_path_is_listed_twice(
    drafts: Seq<DraftView>,
    producer: Seq<char>,
    handle: Option<Seq<char>>,
    path: Seq<char>,
    i: int,
)
    requires
        forall|k: int| 0 <= k < drafts.len() ==> paths_distinct((#[trigger] drafts[k]).paths),
        0 <= i < inserted(drafts, producer, handle, path).len(),
    ensures
        paths_distinct(inserted(drafts, producer, handle, path)[i].paths),
{
    let extra = text::trimmed(path);
    let q = |one: Seq<char>| paths::same_path(one, extra);
    let after = inserted(drafts, producer, handle, path);
    if i < drafts.len() {
        let kept = drafts[i].paths;
        assert(paths_distinct(kept));
        let place = root_place(drafts, producer, handle);
        if let Some(first) = place {
            let p = |draft: DraftView| exposures::is_root_of(draft, producer, handle);
            assert(list::is_first(drafts, p, first));
        }
        if after[i] != drafts[i] {
            let more = kept.push(extra);
            assert(exposures::path_place(kept, extra) is None);
            assert forall|a: int, b: int| 0 <= a < b < more.len() implies !paths::same_path(
                #[trigger] more[a],
                #[trigger] more[b],
            ) by {
                assert(more[a] == kept[a]);
                if b == kept.len() {
                    if q(kept[a]) {
                        list::lemma_first_exists(kept, q);
                    }
                } else {
                    assert(more[b] == kept[b]);
                }
            }
        }
    }
}

/// Whether a badge and an exposed path are of path `j` beneath root `i`.
pub open spec fn are_of(
    drafts: Seq<DraftView>,
    i: int,
    j: int,
    language: ScriptLang,
    snapshot: Option<CatalogueSnapshot>,
    badge: references::Badge,
    exposed: ExposedView,
) -> bool {
    &&& 0 <= i < drafts.len()
    &&& 0 <= j < drafts[i].paths.len()
    &&& references::badges_of(drafts[i], drafts[i].paths[j], language, snapshot) == seq![badge]
    &&& exposed_of(drafts[i], drafts[i].paths[j]) == seq![exposed]
}

/// Whether a badge and an exposed path are of one path beneath one root.
pub open spec fn are_of_one_path(
    drafts: Seq<DraftView>,
    language: ScriptLang,
    snapshot: Option<CatalogueSnapshot>,
    badge: references::Badge,
    exposed: ExposedView,
) -> bool {
    exists|i: int, j: int| #[trigger] are_of(drafts, i, j, language, snapshot, badge, exposed)
}

/// The badges and the paths that references lead to are of the same paths, in the
/// same order: the two at each place come from one path beneath one root.
pub proof fn law_badges_and_exposed_paths_agree(
    drafts: Seq<DraftView>,
    language: ScriptLang,
    snapshot: Option<CatalogueSnapshot>,
)
    ensures
        references::all_badges(drafts, language, snapshot).len() == all_exposed(drafts).len(),
        forall|k: int|
            #![trigger all_exposed(drafts)[k]]
            0 <= k < all_exposed(drafts).len() ==> are_of_one_path(
                drafts,
                language,
                snapshot,
                references::all_badges(drafts, language, snapshot)[k],
                all_exposed(drafts)[k],
            ),
    decreases drafts.len(),
{
    let badges = references::all_badges(drafts, language, snapshot);
    let exposed = all_exposed(drafts);
    if drafts.len() > 0 {
        let rest = drafts.drop_last();
        let at = drafts.len() - 1;
        let last = drafts[at];
        law_badges_and_exposed_paths_agree(rest, language, snapshot);
        lemma_root_agrees(last, last.paths, language, snapshot);
        let early_badges = references::all_badges(rest, language, snapshot);
        let early = all_exposed(rest);
        let own_badges = references::root_badges(last, language, snapshot);
        let own = root_exposed(last);
        assert(badges == early_badges + own_badges);
        assert(exposed == early + own);
        assert forall|k: int|
            #![trigger exposed[k]]
            0 <= k < exposed.len() implies are_of_one_path(
            drafts,
            language,
            snapshot,
            badges[k],
            exposed[k],
        ) by {
            if k < early.len() {
                assert(exposed[k] == early[k] && badges[k] == early_badges[k]);
                assert(are_of_one_path(rest, language, snapshot, early_badges[k], early[k]));
                let (i, j) = choose|i: int, j: int| #[trigger]
                    are_of(rest, i, j, language, snapshot, early_badges[k], early[k]);
                assert(rest[i] == drafts[i]);
                assert(are_of(drafts, i, j, language, snapshot, badges[k], exposed[k]));
            } else {
                let m = k - early.len();
                assert(exposed[k] == own[m] && badges[k] == own_badges[m]);
                assert(is_of_one_path(last, last.paths, language, snapshot, own_badges[m], own[m]));
                let j = choose|j: int| #[trigger]
                    is_path_of(last, last.paths, j, language, snapshot, own_badges[m], own[m]);
                assert(are_of(drafts, at, j, language, snapshot, badges[k], exposed[k]));
            }
        }
    }
}

/// Whether a badge and an exposed path are of one of some paths beneath a root.
pub open spec fn is_path_of(
    draft: DraftView,
    given: Seq<Seq<char>>,
    j: int,
    language: ScriptLang,
    snapshot: Option<CatalogueSnapshot>,
    badge: references::Badge,
    exposed: ExposedView,
) -> bool {
    &&& 0 <= j < given.len()
    &&& references::badges_of(draft, given[j], language, snapshot) == seq![badge]
    &&& exposed_of(draft, given[j]) == seq![exposed]
}

/// Whether a badge and an exposed path are of one path beneath a root.
pub open spec fn is_of_one_path(
    draft: DraftView,
    given: Seq<Seq<char>>,
    language: ScriptLang,
    snapshot: Option<CatalogueSnapshot>,
    badge: references::Badge,
    exposed: ExposedView,
) -> bool {
    exists|j: int| #[trigger] is_path_of(draft, given, j, language, snapshot, badge, exposed)
}

/// The badges and the exposed paths of a root are of the same paths.
proof fn lemma_root_agrees(
    draft: DraftView,
    given: Seq<Seq<char>>,
    language: ScriptLang,
    snapshot: Option<CatalogueSnapshot>,
)
    ensures
        ({
            let badges = list::collect(
                given,
                |path: Seq<char>| references::badges_of(draft, path, language, snapshot),
            );
            let exposed = list::collect(given, |path: Seq<char>| exposed_of(draft, path));
            &&& badges.len() == exposed.len()
            &&& forall|k: int|
                #![trigger exposed[k]]
                0 <= k < exposed.len() ==> is_of_one_path(
                    draft,
                    given,
                    language,
                    snapshot,
                    badges[k],
                    exposed[k],
                )
        }),
    decreases given.len(),
{
    let f = |path: Seq<char>| references::badges_of(draft, path, language, snapshot);
    let g = |path: Seq<char>| exposed_of(draft, path);
    let badges = list::collect(given, f);
    let exposed = list::collect(given, g);
    if given.len() > 0 {
        let rest = given.drop_last();
        let at = given.len() - 1;
        lemma_root_agrees(draft, rest, language, snapshot);
        let early_badges = list::collect(rest, f);
        let early = list::collect(rest, g);
        let path = given[at];
        assert(badges == early_badges + f(path));
        assert(exposed == early + g(path));
        assert forall|k: int|
            #![trigger exposed[k]]
            0 <= k < exposed.len() implies is_of_one_path(
            draft,
            given,
            language,
            snapshot,
            badges[k],
            exposed[k],
        ) by {
            if k < early.len() {
                assert(exposed[k] == early[k] && badges[k] == early_badges[k]);
                assert(is_of_one_path(draft, rest, language, snapshot, early_badges[k], early[k]));
                let j = choose|j: int| #[trigger]
                    is_path_of(draft, rest, j, language, snapshot, early_badges[k], early[k]);
                assert(rest[j] == given[j]);
                assert(is_path_of(draft, given, j, language, snapshot, badges[k], exposed[k]));
            } else {
                assert(k == early.len());
                assert(f(path) =~= seq![badges[k]]);
                assert(g(path) =~= seq![exposed[k]]);
                assert(is_path_of(draft, given, at, language, snapshot, badges[k], exposed[k]));
            }
        }
    }
}

} // verus!
