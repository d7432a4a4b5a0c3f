//! What the editor shows of the state that its automation reads.

use vstd::prelude::*;

use super::addresses::{self, producer_display, takes_handle};
use super::browser::{self, state_producers, Filtered};
use super::catalogue::ProducerView;
use super::exposures::{self, DraftView, StateExposureDraft};
use super::notes::{self, NoteView, StateNote, Vocabulary};
use super::paths::{self, StorePath};
use super::phrases::{self, phrase, phrase_with, Phrase, PhraseView};
use super::pickers;
use super::references::{self, reference};
use super::state_values::{self, AutomationsWindow, WindowView};
use super::store_inspector::{self, json_rows, RowLabel, RowView, Spot, Tree, TreeRow, TreeRows};
use crate::list;
use crate::text::{self, is_empty_text, trim};

verus! {

// ===== Links =====

/// What a link does.
#[derive(Clone, Copy, Debug, PartialEq, Eq, Structural)]
pub enum StateAction {
    RevealState,
    HideState,
    RevealAdd,
}

/// A link.
pub struct Link<P = Phrase> {
    pub label: P,
    pub action: StateAction,
}

impl View for Link<Phrase> {
    type V = Link<PhraseView>;

    open spec fn view(&self) -> Link<PhraseView> {
        Link { label: self.label@, action: self.action }
    }
}

/// The view of an optional link.
pub open spec fn opt_link(link: Option<Link>) -> Option<Link<PhraseView>> {
    match link {
        Some(link) => Some(link@),
        None => None,
    }
}

/// The links that a window shows around what its automation reads.
pub struct ModuleLinks<L = Option<Link>> {
    /// To show it.
    pub reveal: L,
    /// To show the row that adds a path.
    pub add: L,
    /// To hide it: only while nothing is exposed.
    pub hide: L,
}

/// The links over sequences.
pub type LinksView = ModuleLinks<Option<Link<PhraseView>>>;

impl View for ModuleLinks<Option<Link>> {
    type V = LinksView;

    open spec fn view(&self) -> LinksView {
        ModuleLinks {
            reveal: opt_link(self.reveal),
            add: opt_link(self.add),
            hide: opt_link(self.hide),
        }
    }
}

/// The links that a window shows.
pub open spec fn links_of(window: WindowView) -> LinksView {
    let exposing = window.state_exposures.len() > 0;
    if !window.state_revealed && !exposing {
        ModuleLinks {
            reveal: Some(
                Link {
                    label: phrases::plain("editor-reveal-state"@),
                    action: StateAction::RevealState,
                },
            ),
            add: None,
            hide: None,
        }
    } else {
        ModuleLinks {
            reveal: None,
            add: if window.state_add.revealed {
                None
            } else {
                Some(
                    Link {
                        label: phrases::plain("editor-state-add-reveal"@),
                        action: StateAction::RevealAdd,
                    },
                )
            },
            hide: if exposing {
                None
            } else {
                Some(
                    Link {
                        label: phrases::plain("editor-hide-state"@),
                        action: StateAction::HideState,
                    },
                )
            },
        }
    }
}

/// What is exposed cannot be hidden.
pub proof fn law_what_is_exposed_cannot_be_hidden(window: WindowView)
    requires
        window.state_exposures.len() > 0,
    ensures
        links_of(window).reveal is None,
        links_of(window).hide is None,
{
}

// ===== The exposed roots =====

/// A note under a root, and whether it keeps the automation from being saved.
pub struct NoteLine<P = Phrase> {
    pub message: P,
    pub blocks: bool,
}

impl View for NoteLine<Phrase> {
    type V = NoteLine<PhraseView>;

    open spec fn view(&self) -> NoteLine<PhraseView> {
        NoteLine { message: self.message@, blocks: self.blocks }
    }
}

/// A path under a root.
pub struct PathLine<T = String, P = Phrase> {
    pub reference: T,
    pub path: T,
    /// What is said of what is no path.
    pub error: Option<P>,
}

impl View for PathLine<String, Phrase> {
    type V = PathLine<Seq<char>, PhraseView>;

    open spec fn view(&self) -> PathLine<Seq<char>, PhraseView> {
        PathLine {
            reference: self.reference@,
            path: self.path@,
            error: phrases::opt_phrase(self.error),
        }
    }
}

/// A root that is exposed.
pub struct RootBlock<T = String, N = Vec<NoteLine>, L = Vec<PathLine>> {
    pub name: T,
    /// How the producer is named, beside a handle.
    pub producer: Option<(T, Option<T>)>,
    /// The field for the name: the root's own, and what was typed.
    pub name_field: Option<(T, T)>,
    pub notes: N,
    pub paths: L,
}

/// A root over sequences.
pub type BlockView = RootBlock<
    Seq<char>,
    Seq<NoteLine<PhraseView>>,
    Seq<PathLine<Seq<char>, PhraseView>>,
>;

impl View for RootBlock<String, Vec<NoteLine>, Vec<PathLine>> {
    type V = BlockView;

    open spec fn view(&self) -> BlockView {
        RootBlock {
            name: self.name@,
            producer: match self.producer {
                Some((name, address)) => Some((name@, text::opt_text(address))),
                None => None,
            },
            name_field: match self.name_field {
                Some((own, typed)) => Some((own@, typed@)),
                None => None,
            },
            notes: self.notes@.map_values(|note: NoteLine| note@),
            paths: self.paths@.map_values(|line: PathLine| line@),
        }
    }
}

/// A note as it is shown.
pub open spec fn note_line(note: NoteView) -> NoteLine<PhraseView> {
    NoteLine { message: notes::note_text(note), blocks: notes::blocks(note) }
}

/// A path as it is shown.
pub open spec fn path_line(name: Seq<char>, path: Seq<char>) -> PathLine<Seq<char>, PhraseView> {
    PathLine {
        reference: references::reference_to(name, path),
        path,
        error: if paths::path_of(path) is None {
            Some(phrases::with_argument("editor-state-bad-path"@, "path"@, path))
        } else {
            None
        },
    }
}

/// A root as it is shown.
pub open spec fn root_block(draft: DraftView, own: Seq<NoteView>) -> BlockView {
    let name = exposures::draft_name(draft);
    RootBlock {
        name,
        producer: if draft.handle is Some {
            Some(addresses::display_of(draft.producer))
        } else {
            None
        },
        name_field: match draft.name_field {
            Some(typed) => Some((exposures::own_name(draft.producer, draft.handle), typed)),
            None => None,
        },
        notes: own.map_values(|note: NoteView| note_line(note)),
        paths: draft.paths.map_values(|path: Seq<char>| path_line(name, path)),
    }
}

/// A root as it is shown: its name, its producer beside a handle, the notes on its
/// name, and its paths.
pub fn state_exposed_root(draft: &StateExposureDraft, own: &Vec<StateNote>) -> (block: RootBlock)
    ensures
        block@ == root_block(draft@, notes::notes_view(own@)),
{
    let name = draft.name();
    let producer = match &draft.handle {
        Some(_) => Some(producer_display(&draft.producer)),
        None => None,
    };
    let name_field = match &draft.name_field {
        Some(typed) => Some((draft.default_name(), typed.clone())),
        None => None,
    };
    let ghost views = notes::notes_view(own@);
    let mut lines: Vec<NoteLine> = Vec::new();
    for i in 0..own.len()
        invariant
            views == notes::notes_view(own@),
            lines@.map_values(|note: NoteLine| note@) == views.take(i as int).map_values(
                |note: NoteView| note_line(note),
            ),
    {
        assert(views[i as int] == own@[i as int]@);
        let ghost before = lines@.map_values(|note: NoteLine| note@);
        lines.push(NoteLine { message: own[i].message(), blocks: own[i].blocks_save() });
        assert(lines@.map_values(|note: NoteLine| note@) =~= before.push(
            note_line(views[i as int]),
        ));
        assert(lines@.map_values(|note: NoteLine| note@) =~= views.take(i + 1).map_values(
            |note: NoteView| note_line(note),
        ));
    }
    assert(views.take(views.len() as int) =~= views);
    let ghost given = draft@.paths;
    let mut kept: Vec<PathLine> = Vec::new();
    for i in 0..draft.paths.len()
        invariant
            given == text::texts(draft.paths@),
            kept@.map_values(|line: PathLine| line@) == given.take(i as int).map_values(
                |path: Seq<char>| path_line(name@, path),
            ),
    {
        assert(given[i as int] == draft.paths@[i as int]@);
        let path = &draft.paths[i];
        let error = if StorePath::parse(path).is_none() {
            Some(phrase_with("editor-state-bad-path", "path", path))
        } else {
            None
        };
        let ghost before = kept@.map_values(|line: PathLine| line@);
        kept.push(PathLine { reference: reference(&name, path), path: path.clone(), error });
        assert(kept@.map_values(|line: PathLine| line@) =~= before.push(
            path_line(name@, given[i as int]),
        ));
        assert(kept@.map_values(|line: PathLine| line@) =~= given.take(i + 1).map_values(
            |path: Seq<char>| path_line(name@, path),
        ));
    }
    assert(given.take(given.len() as int) =~= given);
    RootBlock { name, producer, name_field, notes: lines, paths: kept }
}

// ===== The browser =====

/// What is browsed.
pub enum BrowseBody<'a> {
    /// Nothing is known yet.
    Waiting,
    /// Nobody publishes state.
    Empty,
    /// The trees of these producers.
    Tree(Vec<&'a ProducerView>),
    /// What a filter finds of them.
    Found(Filtered),
}

/// The root of a producer, under its name.
pub open spec fn named_root(producer: Seq<char>) -> Spot {
    Spot {
        key: Seq::empty(),
        label: RowLabel::Head {
            name: addresses::display_of(producer).0,
            address: addresses::display_of(producer).1,
        },
        depth: 0,
        path: Seq::empty(),
        addressable: true,
    }
}

/// The rows of a producer, closed at first, each with its toggle.
pub open spec fn browsed_rows(window: WindowView, view: ProducerView) -> Seq<RowView> {
    store_inspector::rows_of(
        Tree {
            producer: view.producer@,
            toggled: window.state_toggled,
            expand_depth: 0,
            drafts: Some(window.state_exposures),
        },
        view.tree,
        named_root(view.producer@),
    )
}

// ===== The row that adds a path =====

/// How the handle of the row is given.
pub enum HandleSlot<L = Vec<String>> {
    /// The producer has no handles.
    Absent,
    /// None is known: it is typed.
    Typed,
    /// It is picked from those that are known.
    Picked(L),
}

/// How the handle of the row is given.
pub open spec fn slot_of(window: WindowView) -> HandleSlot<Seq<Seq<char>>> {
    let producer = window.state_add.producer;
    if !addresses::has_handles(producer) {
        HandleSlot::Absent
    } else if pickers::handle_choices(window, producer).len() == 0 {
        HandleSlot::Typed
    } else {
        HandleSlot::Picked(pickers::handle_choices(window, producer))
    }
}

/// The view of how the handle is given.
pub open spec fn slot_view(slot: HandleSlot) -> HandleSlot<Seq<Seq<char>>> {
    match slot {
        HandleSlot::Absent => HandleSlot::Absent,
        HandleSlot::Typed => HandleSlot::Typed,
        HandleSlot::Picked(choices) => HandleSlot::Picked(text::texts(choices@)),
    }
}

/// What the row adds when it is submitted.
pub struct AddRequest<T = String> {
    pub producer: T,
    pub handle: Option<T>,
    pub path: T,
}

/// What the row adds: nothing while a handle is needed and missing.
pub open spec fn request_of(window: WindowView) -> Option<AddRequest<Seq<char>>> {
    let add = window.state_add;
    let handle = text::trimmed(add.handle);
    if !addresses::has_handles(add.producer) {
        Some(AddRequest { producer: add.producer, handle: None, path: add.path })
    } else if handle.len() > 0 {
        Some(AddRequest { producer: add.producer, handle: Some(handle), path: add.path })
    } else {
        None
    }
}

/// The view of what the row adds.
pub open spec fn request_view(request: Option<AddRequest>) -> Option<AddRequest<Seq<char>>> {
    match request {
        Some(request) => Some(
            AddRequest {
                producer: request.producer@,
                handle: text::opt_text(request.handle),
                path: request.path@,
            },
        ),
        None => None,
    }
}

/// What is picked at a place: the last, where the place is past the end.
pub open spec fn picked<T>(choices: Seq<T>, cursor: usize) -> Option<T> {
    if choices.len() == 0 {
        None
    } else if cursor < choices.len() {
        Some(choices[cursor as int])
    } else {
        Some(choices.last())
    }
}

impl AutomationsWindow {
    /// The link that shows what the automation reads.
    pub fn state_reveal_link(&self) -> (link: Link)
        ensures
            link@ == (Link {
                label: phrases::plain("editor-reveal-state"@),
                action: StateAction::RevealState,
            }),
    {
        Link { label: phrase("editor-reveal-state"), action: StateAction::RevealState }
    }

    /// The links around what the automation reads.
    pub fn state_module_links(&self) -> (links: ModuleLinks)
        ensures
            links@ == links_of(self@),
    {
        if !self.state_disclosure_open() {
            return ModuleLinks { reveal: Some(self.state_reveal_link()), add: None, hide: None };
        }
        ModuleLinks {
            reveal: None,
            add: if self.state_add.revealed {
                None
            } else {
                Some(
                    Link {
                        label: phrase("editor-state-add-reveal"),
                        action: StateAction::RevealAdd,
                    },
                )
            },
            hide: if self.state_exposures.len() > 0 {
                None
            } else {
                Some(Link { label: phrase("editor-hide-state"), action: StateAction::HideState })
            },
        }
    }

    /// The roots as they are shown, each with the notes on its name.
    pub fn state_exposed_section(&self, vocabulary: &Vocabulary) -> (blocks: Vec<RootBlock>)
        ensures
            blocks.len() == self@.state_exposures.len(),
            forall|i: int|
                0 <= i < blocks.len() ==> (#[trigger] blocks@[i])@ == root_block(
                    self@.state_exposures[i],
                    notes::notes_of(
                        state_values::root_names(self@.state_exposures),
                        i,
                        state_values::capture_names(self@.pane),
                        state_values::action_language(self@.pane),
                        *vocabulary,
                    ),
                ),
    {
        let said = self.state_notes(vocabulary);
        let ghost drafts = self@.state_exposures;
        let mut blocks: Vec<RootBlock> = Vec::new();
        for i in 0..self.state_exposures.len()
            invariant
                drafts == exposures::drafts_view(self.state_exposures@),
                drafts == self@.state_exposures,
                said.len() == drafts.len(),
                blocks.len() == i,
                forall|k: int|
                    0 <= k < said.len() ==> notes::notes_view(#[trigger] said@[k]@)
                        == notes::notes_of(
                        state_values::root_names(drafts),
                        k,
                        state_values::capture_names(self@.pane),
                        state_values::action_language(self@.pane),
                        *vocabulary,
                    ),
                forall|k: int|
                    0 <= k < i ==> (#[trigger] blocks@[k])@ == root_block(
                        drafts[k],
                        notes::notes_of(
                            state_values::root_names(drafts),
                            k,
                            state_values::capture_names(self@.pane),
                            state_values::action_language(self@.pane),
                            *vocabulary,
                        ),
                    ),
        {
            assert(drafts[i as int] == self.state_exposures@[i as int]@);
            assert(notes::notes_view(said@[i as int]@) == notes::notes_of(
                state_values::root_names(drafts),
                i as int,
                state_values::capture_names(self@.pane),
                state_values::action_language(self@.pane),
                *vocabulary,
            ));
            blocks.push(state_exposed_root(&self.state_exposures[i], &said[i]));
        }
        blocks
    }

    /// What is browsed: the trees of those who publish state, or what the filter
    /// finds of them.
    pub fn state_browse_section(&self) -> (body: BrowseBody<'_>)
        ensures
            match self@.catalogue {
                None => body is Waiting,
                Some(snapshot) => {
                    let producers = browser::producers_of(snapshot);
                    if producers.len() == 0 {
                        body is Empty
                    } else if text::trimmed(self@.state_filter).len() == 0 {
                        body matches BrowseBody::Tree(shown) && browser::behind(shown@)
                            == producers
                    } else {
                        body matches BrowseBody::Found(filtered) && (
                            browser::filter_rows_view(filtered.rows@),
                            filtered.hidden as int,
                        ) == browser::capped(
                            browser::all_rows(
                                self@.state_exposures,
                                producers,
                                crate::words::fold(text::trimmed(self@.state_filter)),
                                browser::FILTER_VISIT_BUDGET as nat,
                            ).0,
                        )
                    }
                },
            },
    {
        match &self.catalogue {
            None => BrowseBody::Waiting,
            Some(snapshot) => {
                let producers = state_producers(snapshot);
                let filter = trim(&self.state_filter);
                assert(producers.len() == browser::behind(producers@).len());
                if producers.len() == 0 {
                    BrowseBody::Empty
                } else if is_empty_text(&filter) {
                    BrowseBody::Tree(producers)
                } else {
                    BrowseBody::Found(self.state_filtered(&producers))
                }
            },
        }
    }

    /// The rows of producers, each under its name.
    pub fn state_tree(&self, producers: &Vec<&ProducerView>) -> (rows: Vec<TreeRow>)
        ensures
            store_inspector::rows_view(rows@) == list::collect(
                browser::behind(producers@),
                |view: ProducerView| browsed_rows(self@, view),
            ),
    {
        let ghost given = browser::behind(producers@);
        let ghost piece = |view: ProducerView| browsed_rows(self@, view);
        let mut rows: Vec<TreeRow> = Vec::new();
        assert(store_inspector::rows_view(rows@) =~= Seq::empty());
        assert(given.take(0) =~= Seq::empty());
        for i in 0..producers.len()
            invariant
                given == browser::behind(producers@),
                piece == (|view: ProducerView| browsed_rows(self@, view)),
                store_inspector::rows_view(rows@) == list::collect(given.take(i as int), piece),
        {
            proof {
                list::lemma_collect_step(given, piece, i as int);
            }
            let view = producers[i];
            assert(given[i as int] == *view);
            let tree = TreeRows {
                producer: &view.producer,
                toggled: &self.state_toggled,
                default_expand_depth: 0,
                trailing: Some(self),
            };
            let (name, address) = producer_display(&view.producer);
            let mut path: Vec<String> = Vec::new();
            assert(text::texts(path@) =~= Seq::empty());
            let key = String::new();
            json_rows(
                &tree,
                &mut rows,
                &key,
                RowLabel::Head { name, address },
                &view.tree,
                0,
                &mut path,
                true,
            );
        }
        assert(given.take(given.len() as int) =~= given);
        rows
    }

    /// How the handle of the row is given.
    pub fn state_handle_slot(&self) -> (slot: HandleSlot)
        ensures
            slot_view(slot) == slot_of(self@),
    {
        if !takes_handle(&self.state_add.producer) {
            return HandleSlot::Absent;
        }
        let choices = self.state_handle_choices(&self.state_add.producer);
        assert(choices.len() == text::texts(choices@).len());
        if choices.len() == 0 {
            HandleSlot::Typed
        } else {
            HandleSlot::Picked(choices)
        }
    }

    /// What the row adds when it is submitted.
    pub fn state_add_request(&self) -> (request: Option<AddRequest>)
        ensures
            request_view(request) == request_of(self@),
    {
        let producer = self.state_add.producer.clone();
        let path = self.state_add.path.clone();
        if !takes_handle(&self.state_add.producer) {
            return Some(AddRequest { producer, handle: None, path });
        }
        let handle = trim(&self.state_add.handle);
        if is_empty_text(&handle) {
            None
        } else {
            Some(AddRequest { producer, handle: Some(handle), path })
        }
    }

    /// The producer at the place in the list.
    pub fn producer_at_cursor(&self) -> (producer: Option<String>)
        ensures
            text::opt_text(producer) == match picked(
                pickers::producer_choices(self@),
                self@.state_add.cursor,
            ) {
                Some(choice) => Some(choice.key),
                None => None,
            },
    {
        let choices = self.state_producer_choices();
        let ghost views = pickers::choices_view(choices@);
        if choices.len() == 0 {
            return None;
        }
        let last: usize = choices.len() - 1;
        let at: usize = if self.state_add.cursor < choices.len() {
            self.state_add.cursor
        } else {
            last
        };
        assert(views[at as int] == choices@[at as int]@);
        Some(choices[at].key.clone())
    }

    /// The handle at the place in the list.
    pub fn handle_at_cursor(&self) -> (handle: Option<String>)
        ensures
            text::opt_text(handle) == picked(
                pickers::handle_choices(self@, self@.state_add.producer),
                self@.state_add.handle_cursor,
            ),
    {
        let choices = self.state_handle_choices(&self.state_add.producer);
        let ghost given = text::texts(choices@);
        if choices.len() == 0 {
            return None;
        }
        let last: usize = choices.len() - 1;
        let at: usize = if self.state_add.handle_cursor < choices.len() {
            self.state_add.handle_cursor
        } else {
            last
        };
        assert(given[at as int] == choices@[at as int]@);
        Some(choices[at].clone())
    }
}

} // verus!
