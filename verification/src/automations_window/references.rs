//! How an action spells the state it reads.

use vstd::prelude::*;

use super::addresses::{self, producers_equal};
use super::catalogue::{self, CatalogueSnapshot, Node, ProducerView};
use super::exposures::{self, DraftView, StateExposureDraft};
use super::notes::ScriptLang;
use super::paths::{self, StorePath};
use crate::list;
use crate::text::{self, chars_of, join2, join3, text_of, trim};

verus! {

/// A name with what a path beneath it is written as.
pub open spec fn joined_reference(name: Seq<char>, display: Seq<char>) -> Seq<char> {
    if display.len() == 0 {
        name
    } else if display[0] == '[' {
        name + display
    } else {
        name + "."@ + display
    }
}

/// A name joined with what a path beneath it is written as: nothing for the root,
/// without a dot where it starts with a bracket.
pub fn join_reference(name: &str, display: &str) -> (reference: String)
    ensures
        reference@ == joined_reference(name@, display@),
{
    let chars = chars_of(display);
    if chars.len() == 0 {
        name.to_owned()
    } else if chars[0] == '[' {
        join2(name, display)
    } else {
        join3(name, ".", display)
    }
}

/// The reference to a path beneath a name. What is no path stays as it was typed.
pub open spec fn reference_to(name: Seq<char>, path: Seq<char>) -> Seq<char> {
    match paths::path_of(path) {
        Some(keys) => joined_reference(name, paths::spelled(keys)),
        None => joined_reference(name, text::trimmed(path)),
    }
}

/// The reference to a path beneath a name.
pub fn reference(name: &str, path: &str) -> (reference: String)
    ensures
        reference@ == reference_to(name@, path@),
{
    match StorePath::parse(path) {
        Some(parsed) => {
            let spelling = parsed.spell();
            join_reference(name, &spelling)
        },
        None => {
            let typed = trim(path);
            join_reference(name, &typed)
        },
    }
}

/// A reference in the language of an action: after `$` in text that is sent, in
/// braces where it has a bracket; as it is in a script.
pub open spec fn rendered(reference: Seq<char>, language: ScriptLang) -> Seq<char> {
    match language {
        ScriptLang::Plaintext => if reference.contains('[') {
            "${"@ + reference + "}"@
        } else {
            "$"@ + reference
        },
        ScriptLang::JS => reference,
        ScriptLang::TS => reference,
    }
}

/// A reference in the language of an action.
pub fn render_state_reference(reference: String, language: ScriptLang) -> (text: String)
    ensures
        text@ == rendered(reference@, language),
{
    match language {
        ScriptLang::Plaintext => {
            let chars = chars_of(&reference);
            let mut bracket: bool = false;
            for i in 0..chars.len()
                invariant
                    bracket == exists|k: int| 0 <= k < i && #[trigger] chars@[k] == '[',
            {
                if chars[i] == '[' {
                    bracket = true;
                }
            }
            assert(bracket == reference@.contains('['));
            if bracket {
                join3("${", &reference, "}")
            } else {
                join2("$", &reference)
            }
        },
        ScriptLang::JS => reference,
        ScriptLang::TS => reference,
    }
}

/// How many characters of a value are shown.
pub const VALUE_PREVIEW_CHARS: usize = 24;

/// A value as it is shown beside a reference.
pub open spec fn preview_of(node: Node) -> Seq<char> {
    match node {
        Node::Object(_) => "{\u{2026}}"@,
        Node::Array(_) => "[\u{2026}]"@,
        Node::Scalar(spelling) => if spelling@.len() > VALUE_PREVIEW_CHARS {
            spelling@.take(VALUE_PREVIEW_CHARS as int) + "\u{2026}"@
        } else {
            spelling@
        },
    }
}

/// A value as it is shown beside a reference: a scalar as JSON spells it, a long one
/// cut; an object or an array by its brackets.
pub fn value_preview(node: &Node) -> (preview: String)
    ensures
        preview@ == preview_of(*node),
{
    match node {
        Node::Object(_) => String::from_str("{\u{2026}}"),
        Node::Array(_) => String::from_str("[\u{2026}]"),
        Node::Scalar(spelling) => {
            let chars = chars_of(spelling);
            if chars.len() > VALUE_PREVIEW_CHARS {
                let start = text_of(&chars, 0, VALUE_PREVIEW_CHARS);
                assert(start@ =~= spelling@.take(VALUE_PREVIEW_CHARS as int));
                join2(&start, "\u{2026}")
            } else {
                spelling.clone()
            }
        },
    }
}

/// Whether a producer's state is at an address.
pub open spec fn publishes(view: ProducerView, producer: Seq<char>) -> bool {
    addresses::same_producer(view.producer@, producer)
}

/// What is published at an address.
pub open spec fn producer_in(snapshot: CatalogueSnapshot, producer: Seq<char>) -> Option<ProducerView> {
    list::first(snapshot.producers@, |view: ProducerView| publishes(view, producer))
}

/// The value of a root.
pub open spec fn root_in(snapshot: CatalogueSnapshot, draft: DraftView) -> Option<Node> {
    match producer_in(snapshot, draft.producer) {
        Some(view) => match draft.handle {
            Some(handle) => catalogue::value_at(view.tree, text::trimmed(handle)),
            None => Some(view.tree),
        },
        None => None,
    }
}

/// The value at a path beneath a root, as it is shown.
pub open spec fn preview_in(snapshot: CatalogueSnapshot, draft: DraftView, path: Seq<char>) -> Option<
    Seq<char>,
> {
    match (root_in(snapshot, draft), paths::path_of(path)) {
        (Some(root), Some(keys)) => match catalogue::value_beneath(root, keys) {
            Some(node) => Some(preview_of(node)),
            None => None,
        },
        _ => None,
    }
}

/// What is published at an address.
fn find_producer<'a>(snapshot: &'a CatalogueSnapshot, producer: &str) -> (view: Option<
    &'a ProducerView,
>)
    ensures
        match view {
            Some(view) => producer_in(*snapshot, producer@) == Some(*view),
            None => producer_in(*snapshot, producer@) is None,
        },
{
    let ghost all = snapshot.producers@;
    let ghost p = |view: ProducerView| publishes(view, producer@);
    for i in 0..snapshot.producers.len()
        invariant
            all == snapshot.producers@,
            p == (|view: ProducerView| publishes(view, producer@)),
            forall|k: int| 0 <= k < i ==> !p(#[trigger] all[k]),
    {
        if producers_equal(&snapshot.producers[i].producer, producer) {
            proof {
                list::lemma_first(all, p, i as int);
            }
            return Some(&snapshot.producers[i]);
        }
    }
    assert(!exists|i: int| list::is_first(all, p, i)) by {
        assert forall|i: int| !list::is_first(all, p, i) by {
            if list::is_first(all, p, i) {
                assert(p(all[i]));
            }
        }
    }
    None
}

/// The value at a path beneath a root, as it is shown. None where nothing is
/// published there.
pub fn state_value_preview(snapshot: &CatalogueSnapshot, draft: &StateExposureDraft, path: &str) -> (preview:
    Option<String>)
    ensures
        text::opt_text(preview) == preview_in(*snapshot, draft@, path@),
{
    match find_producer(snapshot, &draft.producer) {
        None => None,
        Some(view) => {
            let root: Option<&Node> = match &draft.handle {
                Some(handle) => {
                    let handle = trim(handle);
                    view.tree.get(&handle)
                },
                None => Some(&view.tree),
            };
            match (root, StorePath::parse(path)) {
                (Some(root), Some(keys)) => match root.beneath(&keys.segments) {
                    Some(node) => Some(value_preview(node)),
                    None => None,
                },
                _ => None,
            }
        },
    }
}

/// A reference beside the value it leads to.
pub type Badge = (Seq<char>, Option<Seq<char>>);

/// The badge of a path; none for what is no path.
pub open spec fn badges_of(
    draft: DraftView,
    path: Seq<char>,
    language: ScriptLang,
    snapshot: Option<CatalogueSnapshot>,
) -> Seq<Badge> {
    match paths::path_of(path) {
        Some(keys) => seq![
            (
                rendered(
                    joined_reference(exposures::draft_name(draft), paths::spelled(keys)),
                    language,
                ),
                match snapshot {
                    Some(snapshot) => preview_in(snapshot, draft, path),
                    None => None,
                },
            ),
        ],
        None => Seq::empty(),
    }
}

/// The badges of a root.
pub open spec fn root_badges(
    draft: DraftView,
    language: ScriptLang,
    snapshot: Option<CatalogueSnapshot>,
) -> Seq<Badge> {
    list::collect(draft.paths, |path: Seq<char>| badges_of(draft, path, language, snapshot))
}

/// The badges of all roots.
pub open spec fn all_badges(
    drafts: Seq<DraftView>,
    language: ScriptLang,
    snapshot: Option<CatalogueSnapshot>,
) -> Seq<Badge> {
    list::collect(drafts, |draft: DraftView| root_badges(draft, language, snapshot))
}

/// The views of badges.
pub open spec fn badges_view(badges: Seq<(String, Option<String>)>) -> Seq<Badge> {
    badges.map_values(|badge: (String, Option<String>)| (badge.0@, text::opt_text(badge.1)))
}

/// The view of an optional snapshot.
pub open spec fn opt_snapshot(snapshot: Option<&CatalogueSnapshot>) -> Option<CatalogueSnapshot> {
    match snapshot {
        Some(snapshot) => Some(*snapshot),
        None => None,
    }
}

/// The badges of a root.
fn draft_entries(
    draft: &StateExposureDraft,
    language: ScriptLang,
    snapshot: Option<&CatalogueSnapshot>,
) -> (badges: Vec<(String, Option<String>)>)
    ensures
        badges_view(badges@) == root_badges(draft@, language, opt_snapshot(snapshot)),
{
    let name = draft.name();
    let ghost given = draft@.paths;
    let ghost live = opt_snapshot(snapshot);
    let ghost piece = |path: Seq<char>| badges_of(draft@, path, language, live);
    let mut badges: Vec<(String, Option<String>)> = Vec::new();
    assert(badges_view(badges@) =~= Seq::empty());
    assert(given.take(0) =~= Seq::empty());
    for i in 0..draft.paths.len()
        invariant
            given == text::texts(draft.paths@),
            live == opt_snapshot(snapshot),
            name@ == exposures::draft_name(draft@),
            piece == (|path: Seq<char>| badges_of(draft@, path, language, live)),
            badges_view(badges@) == list::collect(given.take(i as int), piece),
    {
        proof {
            list::lemma_collect_step(given, piece, i as int);
        }
        assert(given[i as int] == draft.paths@[i as int]@);
        let ghost before = badges_view(badges@);
        if let Some(parsed) = StorePath::parse(&draft.paths[i]) {
            let spelling = parsed.spell();
            let reference = join_reference(&name, &spelling);
            let rendering = render_state_reference(reference, language);
            let value = match snapshot {
                Some(snapshot) => state_value_preview(snapshot, draft, &draft.paths[i]),
                None => None,
            };
            badges.push((rendering, value));
        }
        assert(badges_view(badges@) =~= before + piece(given[i as int]));
    }
    assert(given.take(given.len() as int) =~= given);
    badges
}

/// The badges of all roots in their order: a reference for each path, beside the
/// value it leads to. What is no path has no reference and no badge.
pub fn rail_entries(
    drafts: &Vec<StateExposureDraft>,
    language: ScriptLang,
    snapshot: Option<&CatalogueSnapshot>,
) -> (badges: Vec<(String, Option<String>)>)
    ensures
        badges_view(badges@) == all_badges(
            exposures::drafts_view(drafts@),
            language,
            opt_snapshot(snapshot),
        ),
{
    let ghost given = exposures::drafts_view(drafts@);
    let ghost live = opt_snapshot(snapshot);
    let ghost piece = |draft: DraftView| root_badges(draft, language, live);
    let mut badges: Vec<(String, Option<String>)> = Vec::new();
    assert(badges_view(badges@) =~= Seq::empty());
    assert(given.take(0) =~= Seq::empty());
    for i in 0..drafts.len()
        invariant
            given == exposures::drafts_view(drafts@),
            live == opt_snapshot(snapshot),
            piece == (|draft: DraftView| root_badges(draft, language, live)),
            badges_view(badges@) == list::collect(given.take(i as int), piece),
    {
        proof {
            list::lemma_collect_step(given, piece, i as int);
        }
        assert(given[i as int] == drafts@[i as int]@);
        let ghost before = badges@;
        let mut more = draft_entries(&drafts[i], language, snapshot);
        let ghost added = more@;
        badges.append(&mut more);
        assert(badges_view(badges@) =~= badges_view(before) + badges_view(added));
    }
    assert(given.take(given.len() as int) =~= given);
    badges
}

} // verus!
