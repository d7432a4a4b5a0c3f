//! What is to be said of the names under which state is read.

use vstd::prelude::*;

use super::paths::{self, is_identifier};
use super::phrases::{self, phrase_with, Phrase, PhraseView};
use crate::text::{self, same_text};
use crate::words::{self, same_folded};

verus! {

/// The language of an action.
#[derive(Clone, Copy, Debug, PartialEq, Eq, Structural)]
pub enum ScriptLang {
    /// Text that is sent.
    Plaintext,
    JS,
    TS,
}

/// Whose name a global is.
#[derive(Clone, Copy, Debug, PartialEq, Eq, Structural)]
pub enum KnownGlobal {
    Smudgy,
    JavaScript,
    Deno,
}

/// The names that mean something already.
pub struct Vocabulary {
    /// The reserved words of JavaScript.
    pub reserved: Vec<String>,
    /// The members of the interface that scripts are given.
    pub smudgy: Vec<String>,
    /// The globals of ECMAScript.
    pub javascript: Vec<String>,
    /// The globals of Deno and of the web.
    pub deno: Vec<String>,
}

impl Vocabulary {
    /// Whether a name is a reserved word.
    pub open spec fn reserves(self, name: Seq<char>) -> bool {
        text::texts(self.reserved@).contains(name)
    }

    /// Whose name a name is.
    pub open spec fn global(self, name: Seq<char>) -> Option<KnownGlobal> {
        if text::texts(self.smudgy@).contains(name) {
            Some(KnownGlobal::Smudgy)
        } else if text::texts(self.javascript@).contains(name) {
            Some(KnownGlobal::JavaScript)
        } else if text::texts(self.deno@).contains(name) {
            Some(KnownGlobal::Deno)
        } else {
            None
        }
    }

    /// Whose name a name is.
    pub fn known_global(&self, name: &str) -> (global: Option<KnownGlobal>)
        ensures
            global == self.global(name@),
    {
        if holds_name(&self.smudgy, name) {
            Some(KnownGlobal::Smudgy)
        } else if holds_name(&self.javascript, name) {
            Some(KnownGlobal::JavaScript)
        } else if holds_name(&self.deno, name) {
            Some(KnownGlobal::Deno)
        } else {
            None
        }
    }
}

/// Whether a name is in a list.
pub(crate) fn holds_name(names: &Vec<String>, name: &str) -> (held: bool)
    ensures
        held == text::texts(names@).contains(name@),
{
    for i in 0..names.len()
        invariant
            forall|k: int| 0 <= k < i ==> #[trigger] text::texts(names@)[k] != name@,
    {
        assert(text::texts(names@)[i as int] == names@[i as int]@);
        if same_text(&names[i], name) {
            return true;
        }
    }
    false
}

/// What is to be said of a name. The first three keep the automation from being
/// saved; the others are advice.
pub enum StateNote<T = String> {
    /// An earlier exposure has the name, without regard to case.
    NameTaken(T),
    /// The name is no identifier.
    BadName(T),
    /// The name is a reserved word of JavaScript.
    ReservedName(T),
    /// The name hides a member of the interface that scripts are given.
    ShadowsSmudgy(T),
    /// The name hides a global of ECMAScript.
    ShadowsJavaScript(T),
    /// The name hides a global of Deno or of the web.
    ShadowsDeno(T),
    /// The name is also that of a capture, which goes first in text that is sent.
    ShadowsCapture(T),
}

/// A note over sequences.
pub type NoteView = StateNote<Seq<char>>;

impl View for StateNote<String> {
    type V = NoteView;

    open spec fn view(&self) -> NoteView {
        match *self {
            StateNote::NameTaken(name) => StateNote::NameTaken(name@),
            StateNote::BadName(name) => StateNote::BadName(name@),
            StateNote::ReservedName(name) => StateNote::ReservedName(name@),
            StateNote::ShadowsSmudgy(name) => StateNote::ShadowsSmudgy(name@),
            StateNote::ShadowsJavaScript(name) => StateNote::ShadowsJavaScript(name@),
            StateNote::ShadowsDeno(name) => StateNote::ShadowsDeno(name@),
            StateNote::ShadowsCapture(name) => StateNote::ShadowsCapture(name@),
        }
    }
}

/// The views of notes.
pub open spec fn notes_view(notes: Seq<StateNote>) -> Seq<NoteView> {
    notes.map_values(|note: StateNote| note@)
}

/// Whether a note keeps the automation from being saved.
pub open spec fn blocks(note: NoteView) -> bool {
    note is NameTaken || note is BadName || note is ReservedName
}

/// What a note says.
pub open spec fn note_text(note: NoteView) -> PhraseView {
    match note {
        StateNote::NameTaken(name) => phrases::with_argument(
            "editor-state-name-taken"@,
            "name"@,
            name,
        ),
        StateNote::BadName(name) => phrases::with_argument("editor-state-bad-name"@, "name"@, name),
        StateNote::ReservedName(name) => phrases::with_argument(
            "editor-state-reserved-name"@,
            "name"@,
            name,
        ),
        StateNote::ShadowsSmudgy(name) => phrases::with_argument(
            "editor-state-name-shadows-smudgy"@,
            "name"@,
            name,
        ),
        StateNote::ShadowsJavaScript(name) => phrases::with_argument(
            "editor-state-name-shadows-javascript"@,
            "name"@,
            name,
        ),
        StateNote::ShadowsDeno(name) => phrases::with_argument(
            "editor-state-name-shadows-deno"@,
            "name"@,
            name,
        ),
        StateNote::ShadowsCapture(name) => phrases::with_argument(
            "editor-state-name-shadows-capture"@,
            "name"@,
            name,
        ),
    }
}

impl StateNote<String> {
    /// Whether the note keeps the automation from being saved.
    pub fn blocks_save(&self) -> (r: bool)
        ensures
            r == blocks(self@),
    {
        match self {
            StateNote::NameTaken(_) => true,
            StateNote::BadName(_) => true,
            StateNote::ReservedName(_) => true,
            _ => false,
        }
    }

    /// What the note says.
    pub fn message(&self) -> (message: Phrase)
        ensures
            message@ == note_text(self@),
    {
        match self {
            StateNote::NameTaken(name) => phrase_with("editor-state-name-taken", "name", name),
            StateNote::BadName(name) => phrase_with("editor-state-bad-name", "name", name),
            StateNote::ReservedName(name) => phrase_with("editor-state-reserved-name", "name", name),
            StateNote::ShadowsSmudgy(name) => phrase_with(
                "editor-state-name-shadows-smudgy",
                "name",
                name,
            ),
            StateNote::ShadowsJavaScript(name) => phrase_with(
                "editor-state-name-shadows-javascript",
                "name",
                name,
            ),
            StateNote::ShadowsDeno(name) => phrase_with(
                "editor-state-name-shadows-deno",
                "name",
                name,
            ),
            StateNote::ShadowsCapture(name) => phrase_with(
                "editor-state-name-shadows-capture",
                "name",
                name,
            ),
        }
    }
}

/// Whether an earlier name is the same without regard to case.
pub open spec fn is_taken(names: Seq<Seq<char>>, i: int) -> bool {
    exists|k: int| 0 <= k < i && words::same_fold(#[trigger] names[k], names[i])
}

/// Whether an action is a script.
pub open spec fn is_script(language: Option<ScriptLang>) -> bool {
    language == Some(ScriptLang::JS) || language == Some(ScriptLang::TS)
}

/// A note where a condition holds.
pub open spec fn note_if(holds: bool, note: NoteView) -> Seq<NoteView> {
    if holds {
        seq![note]
    } else {
        Seq::empty()
    }
}

/// What is to be said of the shape of a name.
pub open spec fn shape_notes(name: Seq<char>, vocabulary: Vocabulary) -> Seq<NoteView> {
    if !paths::is_name(name) {
        seq![StateNote::BadName(name)]
    } else if vocabulary.reserves(name) {
        seq![StateNote::ReservedName(name)]
    } else {
        Seq::empty()
    }
}

/// What is to be said of a name that a script knows already.
pub open spec fn global_notes(name: Seq<char>, vocabulary: Vocabulary) -> Seq<NoteView> {
    match vocabulary.global(name) {
        Some(KnownGlobal::Smudgy) => seq![StateNote::ShadowsSmudgy(name)],
        Some(KnownGlobal::JavaScript) => seq![StateNote::ShadowsJavaScript(name)],
        Some(KnownGlobal::Deno) => seq![StateNote::ShadowsDeno(name)],
        None => Seq::empty(),
    }
}

/// What is to be said of the name at a place.
pub open spec fn notes_of(
    names: Seq<Seq<char>>,
    i: int,
    captures: Seq<Seq<char>>,
    language: Option<ScriptLang>,
    vocabulary: Vocabulary,
) -> Seq<NoteView> {
    let name = names[i];
    shape_notes(name, vocabulary) + note_if(is_taken(names, i), StateNote::NameTaken(name)) + (
    if is_script(language) {
        global_notes(name, vocabulary)
    } else {
        Seq::empty()
    }) + note_if(
        language == Some(ScriptLang::Plaintext) && captures.contains(name),
        StateNote::ShadowsCapture(name),
    )
}

/// Adds a note.
fn push_note(notes: &mut Vec<StateNote>, note: StateNote)
    ensures
        notes_view(final(notes)@) == notes_view(old(notes)@) + seq![note@],
{
    let ghost before = notes@;
    notes.push(note);
    assert(notes_view(notes@) =~= notes_view(before) + seq![note@]);
}

/// Whether an earlier name is the same without regard to case.
fn name_taken(names: &Vec<String>, i: usize) -> (taken: bool)
    requires
        i < names.len(),
    ensures
        taken == is_taken(text::texts(names@), i as int),
{
    let ghost given = text::texts(names@);
    assert(given[i as int] == names@[i as int]@);
    for k in 0..i
        invariant
            i < names.len(),
            given == text::texts(names@),
            given[i as int] == names@[i as int]@,
            forall|m: int| 0 <= m < k ==> !words::same_fold(#[trigger] given[m], given[i as int]),
    {
        assert(given[k as int] == names@[k as int]@);
        if same_folded(&names[k], &names[i]) {
            return true;
        }
    }
    false
}

/// What is to be said of each name, given the names of the captures, the language of
/// the action, and the names that mean something already. A name that is taken is
/// marked where it stands again. A script sees what its names hide; text that is
/// sent sees its captures.
pub fn state_notes_for(
    names: &Vec<String>,
    captures: &Vec<String>,
    language: Option<ScriptLang>,
    vocabulary: &Vocabulary,
) -> (notes: Vec<Vec<StateNote>>)
    ensures
        notes.len() == names.len(),
        forall|i: int|
            0 <= i < names.len() ==> notes_view(#[trigger] notes@[i]@) == notes_of(
                text::texts(names@),
                i,
                text::texts(captures@),
                language,
                *vocabulary,
            ),
{
    let script: bool = match language {
        Some(ScriptLang::JS) => true,
        Some(ScriptLang::TS) => true,
        _ => false,
    };
    let sent: bool = match language {
        Some(ScriptLang::Plaintext) => true,
        _ => false,
    };
    let ghost given = text::texts(names@);
    let mut notes: Vec<Vec<StateNote>> = Vec::new();
    for i in 0..names.len()
        invariant
            given == text::texts(names@),
            script == is_script(language),
            sent == (language == Some(ScriptLang::Plaintext)),
            notes.len() == i,
            forall|k: int|
                0 <= k < i ==> notes_view(#[trigger] notes@[k]@) == notes_of(
                    given,
                    k,
                    text::texts(captures@),
                    language,
                    *vocabulary,
                ),
    {
        let name = &names[i];
        assert(given[i as int] == name@);
        let mut own: Vec<StateNote> = Vec::new();
        assert(notes_view(own@) =~= Seq::empty());
        if !is_identifier(name) {
            push_note(&mut own, StateNote::BadName(name.clone()));
        } else if holds_name(&vocabulary.reserved, name) {
            push_note(&mut own, StateNote::ReservedName(name.clone()));
        }
        assert(notes_view(own@) =~= shape_notes(name@, *vocabulary));
        let ghost shape = notes_view(own@);
        if name_taken(names, i) {
            push_note(&mut own, StateNote::NameTaken(name.clone()));
        }
        let ghost taken = note_if(is_taken(given, i as int), StateNote::NameTaken(name@));
        assert(notes_view(own@) =~= shape + taken);
        if script {
            match vocabulary.known_global(name) {
                Some(KnownGlobal::Smudgy) => push_note(
                    &mut own,
                    StateNote::ShadowsSmudgy(name.clone()),
                ),
                Some(KnownGlobal::JavaScript) => push_note(
                    &mut own,
                    StateNote::ShadowsJavaScript(name.clone()),
                ),
                Some(KnownGlobal::Deno) => push_note(&mut own, StateNote::ShadowsDeno(name.clone())),
                None => {},
            }
        }
        let ghost globals = if script {
            global_notes(name@, *vocabulary)
        } else {
            Seq::empty()
        };
        assert(notes_view(own@) =~= shape + taken + globals);
        let ghost before = notes_view(own@);
        if sent && holds_name(captures, name) {
            push_note(&mut own, StateNote::ShadowsCapture(name.clone()));
        }
        assert(notes_view(own@) =~= notes_of(
            given,
            i as int,
            text::texts(captures@),
            language,
            *vocabulary,
        ));
        notes.push(own);
    }
    notes
}

/// Advice never keeps an automation from being saved: what blocks does not depend on
/// the language or the captures.
pub proof fn law_only_the_name_itself_blocks(
    names: Seq<Seq<char>>,
    i: int,
    captures: Seq<Seq<char>>,
    language: Option<ScriptLang>,
    vocabulary: Vocabulary,
    note: NoteView,
)
    requires
        0 <= i < names.len(),
        notes_of(names, i, captures, language, vocabulary).contains(note),
    ensures
        blocks(note) == notes_of(names, i, Seq::empty(), None, vocabulary).contains(note),
{
    let name = names[i];
    let bare = notes_of(names, i, Seq::empty(), None, vocabulary);
    let full = notes_of(names, i, captures, language, vocabulary);
    let shape = shape_notes(name, vocabulary);
    let taken = note_if(is_taken(names, i), StateNote::NameTaken(name));
    assert(bare =~= shape + taken);
    let k = choose|k: int| 0 <= k < full.len() && full[k] == note;
    if k < bare.len() {
        assert(full[k] == bare[k]);
        assert(bare.contains(note));
    }
    if bare.contains(note) {
        let m = choose|m: int| 0 <= m < bare.len() && bare[m] == note;
        assert(blocks(bare[m]));
    }
}

/// The first of two names that are the same is not marked as taken; the second is.
pub proof fn law_the_later_name_is_taken(names: Seq<Seq<char>>, i: int, k: int)
    requires
        0 <= i < k < names.len(),
        words::same_fold(names[i], names[k]),
    ensures
        is_taken(names, k),
        i == 0 ==> !is_taken(names, i),
{
}

/// Why the exposures of an automation cannot be used.
pub enum StateExposureError {
    DuplicateName { name: String },
    InvalidName { name: String },
    ReservedName { name: String },
    InvalidPath { path: String },
    /// What the editor's own controls cannot produce.
    Other { detail: String },
}

/// What is said of exposures that cannot be used.
pub open spec fn error_text(error: StateExposureError) -> PhraseView {
    match error {
        StateExposureError::DuplicateName { name } => phrases::with_argument(
            "editor-state-name-taken"@,
            "name"@,
            name@,
        ),
        StateExposureError::InvalidName { name } => phrases::with_argument(
            "editor-state-bad-name"@,
            "name"@,
            name@,
        ),
        StateExposureError::ReservedName { name } => phrases::with_argument(
            "editor-state-reserved-name"@,
            "name"@,
            name@,
        ),
        StateExposureError::InvalidPath { path } => phrases::with_argument(
            "editor-state-bad-path"@,
            "path"@,
            path@,
        ),
        StateExposureError::Other { detail } => phrases::with_argument(
            "editor-state-invalid"@,
            "error"@,
            detail@,
        ),
    }
}

/// What is said of exposures that cannot be used.
pub fn exposure_error_message(error: &StateExposureError) -> (message: Phrase)
    ensures
        message@ == error_text(*error),
{
    match error {
        StateExposureError::DuplicateName { name } => phrase_with(
            "editor-state-name-taken",
            "name",
            name,
        ),
        StateExposureError::InvalidName { name } => phrase_with("editor-state-bad-name", "name", name),
        StateExposureError::ReservedName { name } => phrase_with(
            "editor-state-reserved-name",
            "name",
            name,
        ),
        StateExposureError::InvalidPath { path } => phrase_with("editor-state-bad-path", "path", path),
        StateExposureError::Other { detail } => phrase_with("editor-state-invalid", "error", detail),
    }
}

} // verus!
