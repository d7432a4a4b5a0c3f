//! What an automation reads of the published state: a root under a name, and the
//! paths beneath it.

use vstd::prelude::*;

use super::addresses::{self, producers_equal, ProducerKey};
use super::paths::{self, paths_equal};
use crate::list;
use crate::text::{self, clone_opt, is_empty_text, same_text, trim};
use crate::words::{self, same_folded};

verus! {

/// The view of an optional borrowed text.
pub open spec fn opt_str(text: Option<&str>) -> Option<Seq<char>> {
    match text {
        Some(text) => Some(text@),
        None => None,
    }
}

/// A copy of a list of texts.
pub(crate) fn clone_texts(texts: &Vec<String>) -> (copy: Vec<String>)
    ensures
        text::texts(copy@) == text::texts(texts@),
{
    let ghost given = text::texts(texts@);
    let mut copy: Vec<String> = Vec::new();
    assert(text::texts(copy@) =~= given.take(0));
    for i in 0..texts.len()
        invariant
            given == text::texts(texts@),
            text::texts(copy@) == given.take(i as int),
    {
        let ghost before = text::texts(copy@);
        copy.push(texts[i].clone());
        assert(text::texts(copy@) =~= before.push(given[i as int]));
        assert(given.take(i + 1) =~= given.take(i as int).push(given[i as int]));
    }
    assert(given.take(texts.len() as int) =~= given);
    copy
}

/// An exposed root as it is kept.
pub struct StateExposure<T = String, L = Vec<String>> {
    /// The address of the producer.
    pub producer: T,
    /// The handle, where the producer has handles.
    pub handle: Option<T>,
    /// The name the root is given instead of its own.
    pub name_override: Option<T>,
    /// The paths beneath the root; the empty one is the root itself.
    pub paths: L,
}

/// An exposed root over sequences.
pub type ExposureView = StateExposure<Seq<char>, Seq<Seq<char>>>;

impl View for StateExposure<String, Vec<String>> {
    type V = ExposureView;

    open spec fn view(&self) -> ExposureView {
        StateExposure {
            producer: self.producer@,
            handle: text::opt_text(self.handle),
            name_override: text::opt_text(self.name_override),
            paths: text::texts(self.paths@),
        }
    }
}

/// The views of exposures.
pub open spec fn exposures_view(exposures: Seq<StateExposure>) -> Seq<ExposureView> {
    exposures.map_values(|exposure: StateExposure| exposure@)
}

/// The name a root has of its own: its handle, or the address of its producer.
pub open spec fn own_name(producer: Seq<char>, handle: Option<Seq<char>>) -> Seq<char> {
    match handle {
        Some(handle) => handle,
        None => match addresses::producer_at(producer) {
            Some(key) => addresses::address_of(key),
            None => producer,
        },
    }
}

/// The name an exposure at a root gets when nothing renames it.
pub fn default_name_for(producer: &str, handle: Option<&str>) -> (name: String)
    ensures
        name@ == own_name(producer@, opt_str(handle)),
{
    match handle {
        Some(handle) => handle.to_owned(),
        None => match ProducerKey::parse(producer) {
            Some(key) => key.address(),
            None => producer.to_owned(),
        },
    }
}

/// The name of an exposure.
pub open spec fn name_of(exposure: ExposureView) -> Seq<char> {
    match exposure.name_override {
        Some(name) => name,
        None => own_name(exposure.producer, exposure.handle),
    }
}

impl StateExposure<String, Vec<String>> {
    /// The name the root has of its own.
    pub fn default_name(&self) -> (name: String)
        ensures
            name@ == own_name(self@.producer, self@.handle),
    {
        match &self.handle {
            Some(handle) => handle.clone(),
            None => default_name_for(&self.producer, None),
        }
    }

    /// The name of the exposure.
    pub fn name(&self) -> (name: String)
        ensures
            name@ == name_of(self@),
    {
        match &self.name_override {
            Some(name) => name.clone(),
            None => self.default_name(),
        }
    }
}

/// An exposed root as it is edited.
pub struct StateExposureDraft<T = String, L = Vec<String>> {
    /// The address of the producer.
    pub producer: T,
    /// The handle, where the producer has handles.
    pub handle: Option<T>,
    /// What was typed as another name, once its field is shown.
    pub name_field: Option<T>,
    /// The paths beneath the root, as they were typed; the empty one is the root
    /// itself.
    pub paths: L,
}

/// A draft over sequences.
pub type DraftView = StateExposureDraft<Seq<char>, Seq<Seq<char>>>;

impl View for StateExposureDraft<String, Vec<String>> {
    type V = DraftView;

    open spec fn view(&self) -> DraftView {
        StateExposureDraft {
            producer: self.producer@,
            handle: text::opt_text(self.handle),
            name_field: text::opt_text(self.name_field),
            paths: text::texts(self.paths@),
        }
    }
}

/// The views of drafts.
pub open spec fn drafts_view(drafts: Seq<StateExposureDraft>) -> Seq<DraftView> {
    drafts.map_values(|draft: StateExposureDraft| draft@)
}

/// The draft of an exposure.
pub open spec fn draft_of(exposure: ExposureView) -> DraftView {
    StateExposureDraft {
        producer: exposure.producer,
        handle: exposure.handle,
        name_field: exposure.name_override,
        paths: exposure.paths,
    }
}

/// The name that a draft's field gives: what was typed without the whitespace round
/// it, unless that is nothing or the root's own name.
pub open spec fn override_of(draft: DraftView) -> Option<Seq<char>> {
    match draft.name_field {
        Some(field) => {
            let name = text::trimmed(field);
            if name.len() == 0 || name == own_name(draft.producer, draft.handle) {
                None
            } else {
                Some(name)
            }
        },
        None => None,
    }
}

/// The exposure that a draft stands for.
pub open spec fn exposure_of(draft: DraftView) -> ExposureView {
    StateExposure {
        producer: draft.producer,
        handle: draft.handle,
        name_override: override_of(draft),
        paths: draft.paths,
    }
}

/// The name of a draft.
pub open spec fn draft_name(draft: DraftView) -> Seq<char> {
    name_of(exposure_of(draft))
}

/// Whether a draft is of a root, without regard to case.
pub open spec fn is_root_of(draft: DraftView, producer: Seq<char>, handle: Option<Seq<char>>) -> bool {
    &&& addresses::same_producer(draft.producer, producer)
    &&& match (draft.handle, handle) {
        (None, None) => true,
        (Some(mine), Some(other)) => words::same_fold(text::trimmed(mine), text::trimmed(other)),
        _ => false,
    }
}

/// The place of a path among others.
pub open spec fn path_place(kept: Seq<Seq<char>>, path: Seq<char>) -> Option<int> {
    list::place(kept, |one: Seq<char>| paths::same_path(one, path))
}

impl StateExposureDraft<String, Vec<String>> {
    /// The draft of an exposure.
    pub fn from_exposure(exposure: &StateExposure) -> (draft: Self)
        ensures
            draft@ == draft_of(exposure@),
    {
        StateExposureDraft {
            producer: exposure.producer.clone(),
            handle: clone_opt(&exposure.handle),
            name_field: clone_opt(&exposure.name_override),
            paths: clone_texts(&exposure.paths),
        }
    }

    /// The exposure that the draft stands for.
    pub fn to_exposure(&self) -> (exposure: StateExposure)
        ensures
            exposure@ == exposure_of(self@),
    {
        let own = self.default_name();
        let name_override = match &self.name_field {
            Some(field) => {
                let name = trim(field);
                if is_empty_text(&name) || same_text(&name, &own) {
                    None
                } else {
                    Some(name)
                }
            },
            None => None,
        };
        StateExposure {
            producer: self.producer.clone(),
            handle: clone_opt(&self.handle),
            name_override,
            paths: clone_texts(&self.paths),
        }
    }

    /// The name that an action spells: the one that was typed, or the root's own.
    pub fn name(&self) -> (name: String)
        ensures
            name@ == draft_name(self@),
    {
        self.to_exposure().name()
    }

    /// The name the root has of its own.
    pub fn default_name(&self) -> (name: String)
        ensures
            name@ == own_name(self@.producer, self@.handle),
    {
        match &self.handle {
            Some(handle) => handle.clone(),
            None => default_name_for(&self.producer, None),
        }
    }

    /// Whether the draft is of the root at a producer and handle.
    pub fn is_root(&self, producer: &str, handle: Option<&str>) -> (same: bool)
        ensures
            same == is_root_of(self@, producer@, opt_str(handle)),
    {
        if !producers_equal(&self.producer, producer) {
            return false;
        }
        match (&self.handle, handle) {
            (None, None) => true,
            (Some(mine), Some(other)) => {
                let mine = trim(mine);
                let other = trim(other);
                same_folded(&mine, &other)
            },
            _ => false,
        }
    }

    /// The place of a path among those of the root.
    pub fn path_index(&self, path: &str) -> (index: Option<usize>)
        ensures
            match index {
                Some(index) => index < self.paths.len() && path_place(self@.paths, path@) == Some(
                    index as int,
                ),
                None => path_place(self@.paths, path@) is None,
            },
    {
        let ghost kept = self@.paths;
        let ghost p = |one: Seq<char>| paths::same_path(one, path@);
        for i in 0..self.paths.len()
            invariant
                kept == text::texts(self.paths@),
                p == (|one: Seq<char>| paths::same_path(one, path@)),
                forall|k: int| 0 <= k < i ==> !p(#[trigger] kept[k]),
        {
            assert(kept[i as int] == self.paths@[i as int]@);
            if paths_equal(&self.paths[i], path) {
                proof {
                    list::lemma_place(kept, p, i as int);
                }
                return Some(i);
            }
        }
        assert(!exists|i: int| list::is_first(kept, p, i)) by {
            assert forall|i: int| !list::is_first(kept, p, i) by {
                if list::is_first(kept, p, i) {
                    assert(p(kept[i]));
                }
            }
        }
        None
    }
}

/// A draft of an exposure stands for it, when its other name, if it has one, is a
/// name: it has no whitespace round it, is not empty, and is not the root's own.
pub proof fn law_a_draft_keeps_its_exposure(exposure: ExposureView)
    requires
        exposure.name_override matches Some(name) ==> {
            &&& text::trimmed(name) == name
            &&& name.len() > 0
            &&& name != own_name(exposure.producer, exposure.handle)
        },
    ensures
        exposure_of(draft_of(exposure)) == exposure,
{
}

/// A blank field does not rename a root.
pub proof fn law_a_blank_field_is_no_name(draft: DraftView)
    requires
        draft.name_field matches Some(field) ==> text::trimmed(field).len() == 0,
    ensures
        override_of(draft) is None,
        draft_name(draft) == own_name(draft.producer, draft.handle),
{
}

} // verus!
