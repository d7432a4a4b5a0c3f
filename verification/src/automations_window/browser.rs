//! The published state as it is browsed: who publishes, what a filter finds, and what
//! can be exposed.

use vstd::prelude::*;

use super::addresses::{self, producer_display, producer_rank, producers_equal, takes_handle};
use super::catalogue::{self, CatalogueEntryView, CatalogueKind, CatalogueSnapshot, Node, ProducerView};
use super::exposures::{self, default_name_for, DraftView};
use super::paths::{self, StorePath};
use super::phrases::{self, phrase_with, Phrase, PhraseView};
use super::references::{self, reference};
use super::state_values::{self, AutomationsWindow};
use crate::list::{self, sort_by};
use crate::text::{self, decimal_text, is_empty_text, join3, text_before, trim};
use crate::words::{self, contains_text, folded, join_texts};

verus! {

// ===== Producers =====

/// Whether an entry declares state of a producer.
pub open spec fn declares(entry: CatalogueEntryView, producer: Seq<char>) -> bool {
    entry.kind == CatalogueKind::State && addresses::same_producer(entry.producer@, producer)
}

/// Whether a producer has state: its tree holds a key, or an entry declares a handle
/// of it.
pub open spec fn has_state(snapshot: CatalogueSnapshot, view: ProducerView) -> bool {
    ||| catalogue::members(view.tree).len() > 0
    ||| exists|i: int|
        0 <= i < snapshot.entries@.len() && declares(
            #[trigger] snapshot.entries@[i],
            view.producer@,
        )
}

/// Whether one producer is listed before another.
pub open spec fn listed_before(a: ProducerView, b: ProducerView) -> bool {
    addresses::ranked_before(a.producer@, b.producer@)
}

/// The producers that have state, in their order.
pub open spec fn producers_of(snapshot: CatalogueSnapshot) -> Seq<ProducerView> {
    list::in_order(
        list::kept(snapshot.producers@, |view: ProducerView| has_state(snapshot, view)),
        |a: ProducerView, b: ProducerView| listed_before(a, b),
    )
}

/// The values behind references.
pub open spec fn behind(refs: Seq<&ProducerView>) -> Seq<ProducerView> {
    refs.map_values(|view: &ProducerView| *view)
}

/// Whether a producer has state.
fn shows_state(snapshot: &CatalogueSnapshot, view: &ProducerView) -> (shows: bool)
    ensures
        shows == has_state(*snapshot, *view),
{
    if let Node::Object(members) = &view.tree {
        if members.len() > 0 {
            return true;
        }
    }
    for i in 0..snapshot.entries.len()
        invariant
            forall|k: int|
                0 <= k < i ==> !declares(#[trigger] snapshot.entries@[k], view.producer@),
    {
        let entry = &snapshot.entries[i];
        if entry.kind == CatalogueKind::State && producers_equal(&entry.producer, &view.producer) {
            assert(declares(snapshot.entries@[i as int], view.producer@));
            return true;
        }
    }
    false
}

/// Whether one producer is listed before another.
fn ranks_before(a: &str, b: &str) -> (before: bool)
    ensures
        before == addresses::ranked_before(a@, b@),
{
    let (group_a, address_a) = producer_rank(a);
    let (group_b, address_b) = producer_rank(b);
    group_a < group_b || (group_a == group_b && text_before(&address_a, &address_b))
}

/// The producers that have state: the user's own first, then the platform, then
/// packages.
pub fn state_producers<'a>(snapshot: &'a CatalogueSnapshot) -> (producers: Vec<&'a ProducerView>)
    ensures
        behind(producers@) == producers_of(*snapshot),
{
    let ghost given = snapshot.producers@;
    let ghost p = |view: ProducerView| has_state(*snapshot, view);
    let ghost piece = |view: ProducerView|
        if p(view) {
            seq![view]
        } else {
            Seq::empty()
        };
    let mut found: Vec<&'a ProducerView> = Vec::new();
    assert(behind(found@) =~= Seq::empty());
    assert(given.take(0) =~= Seq::empty());
    for i in 0..snapshot.producers.len()
        invariant
            given == snapshot.producers@,
            p == (|view: ProducerView| has_state(*snapshot, view)),
            piece == (|view: ProducerView|
                if p(view) {
                    seq![view]
                } else {
                    Seq::empty()
                }),
            behind(found@) == list::collect(given.take(i as int), piece),
    {
        proof {
            list::lemma_collect_step(given, piece, i as int);
        }
        let ghost before = behind(found@);
        if shows_state(snapshot, &snapshot.producers[i]) {
            found.push(&snapshot.producers[i]);
        }
        assert(behind(found@) =~= before + piece(given[i as int]));
    }
    assert(given.take(given.len() as int) =~= given);
    let less = |a: &&'a ProducerView, b: &&'a ProducerView| -> (r: bool)
        ensures
            r == listed_before(**a, **b),
    {
        ranks_before(&a.producer, &b.producer)
    };
    proof {
        list::lemma_in_order_map(
            found@,
            |view: &ProducerView| *view,
            |a: &ProducerView, b: &ProducerView| listed_before(*a, *b),
            |a: ProducerView, b: ProducerView| listed_before(a, b),
        );
    }
    sort_by(found, less, Ghost(|a: &ProducerView, b: &ProducerView| listed_before(*a, *b)))
}

// ===== The toggle of a row =====

/// The toggle of a row: whether its path is exposed, and what it toggles.
pub struct RowToggle<T = String, P = Phrase> {
    pub exposed: bool,
    pub tooltip: P,
    pub producer: T,
    pub handle: Option<T>,
    pub path: T,
}

/// A toggle over sequences.
pub type ToggleView = RowToggle<Seq<char>, PhraseView>;

impl View for RowToggle<String, Phrase> {
    type V = ToggleView;

    open spec fn view(&self) -> ToggleView {
        RowToggle {
            exposed: self.exposed,
            tooltip: self.tooltip@,
            producer: self.producer@,
            handle: text::opt_text(self.handle),
            path: self.path@,
        }
    }
}

/// The view of an optional toggle.
pub open spec fn opt_toggle(toggle: Option<RowToggle>) -> Option<ToggleView> {
    match toggle {
        Some(toggle) => Some(toggle@),
        None => None,
    }
}

/// The handle of a row and the keys beneath it: the first key is the handle, where the
/// producer has handles. Then its root itself has none.
pub open spec fn handle_and_rest(producer: Seq<char>, keys: Seq<Seq<char>>) -> Option<
    (Option<Seq<char>>, Seq<Seq<char>>),
> {
    if !addresses::has_handles(producer) {
        Some((None, keys))
    } else if keys.len() == 0 {
        None
    } else {
        Some((Some(keys[0]), keys.skip(1)))
    }
}

/// The name under which a path is exposed or would be.
pub open spec fn name_at(drafts: Seq<DraftView>, producer: Seq<char>, handle: Option<Seq<char>>) -> Seq<
    char,
> {
    match state_values::root_place(drafts, producer, handle) {
        Some(i) => exposures::draft_name(drafts[i]),
        None => exposures::own_name(producer, handle),
    }
}

/// The toggle of the row at some keys beneath a producer's root.
pub open spec fn toggle_at(drafts: Seq<DraftView>, producer: Seq<char>, keys: Seq<Seq<char>>) -> Option<
    ToggleView,
> {
    match handle_and_rest(producer, keys) {
        Some((handle, rest)) => if paths::has_empty(rest) {
            None
        } else {
            let path = paths::spelled(rest);
            let exposed = state_values::exposes(drafts, producer, handle, path);
            Some(
                RowToggle {
                    exposed,
                    tooltip: phrases::with_argument(
                        if exposed {
                            "editor-state-unexpose-tooltip"@
                        } else {
                            "editor-state-expose-tooltip"@
                        },
                        "path"@,
                        references::reference_to(name_at(drafts, producer, handle), path),
                    ),
                    producer,
                    handle,
                    path,
                },
            )
        },
        None => None,
    }
}

/// The texts from a place on.
fn texts_from(texts: &Vec<String>, from: usize) -> (rest: Vec<String>)
    requires
        from <= texts.len(),
    ensures
        text::texts(rest@) == text::texts(texts@).skip(from as int),
{
    let ghost given = text::texts(texts@);
    let mut rest: Vec<String> = Vec::new();
    assert(text::texts(rest@) =~= given.subrange(from as int, from as int));
    for i in from..texts.len()
        invariant
            from <= texts.len(),
            given == text::texts(texts@),
            text::texts(rest@) == given.subrange(from as int, i as int),
    {
        let ghost before = text::texts(rest@);
        rest.push(texts[i].clone());
        assert(text::texts(rest@) =~= before.push(given[i as int]));
        assert(given.subrange(from as int, i + 1) =~= given.subrange(from as int, i as int).push(
            given[i as int],
        ));
    }
    assert(given.subrange(from as int, given.len() as int) =~= given.skip(from as int));
    rest
}

impl AutomationsWindow {
    /// The toggle of the row at some keys beneath a producer's root. Where state is
    /// found under handles, the root itself has none.
    pub fn state_row_toggle(&self, producer: &str, keys: &Vec<String>) -> (toggle: Option<RowToggle>)
        ensures
            opt_toggle(toggle) == toggle_at(
                self@.state_exposures,
                producer@,
                text::texts(keys@),
            ),
    {
        let takes = takes_handle(producer);
        if takes && keys.len() == 0 {
            return None;
        }
        let handle: Option<String> = if takes {
            Some(keys[0].clone())
        } else {
            None
        };
        let start: usize = if takes {
            1
        } else {
            0
        };
        let rest = texts_from(keys, start);
        assert(text::texts(keys@).skip(0) =~= text::texts(keys@));
        assert(takes ==> text::texts(keys@)[0] == keys@[0]@);
        match StorePath::from_segments(&rest) {
            None => None,
            Some(path) => {
                let spelling = path.spell();
                let borrowed: Option<&str> = match &handle {
                    Some(handle) => Some(handle.as_str()),
                    None => None,
                };
                let (exposed, name) = match self.state_root_index(producer, borrowed) {
                    Some(index) => {
                        assert(self@.state_exposures[index as int]
                            == self.state_exposures@[index as int]@);
                        let draft = &self.state_exposures[index];
                        (draft.path_index(&spelling).is_some(), draft.name())
                    },
                    None => (false, default_name_for(producer, borrowed)),
                };
                let target = reference(&name, &spelling);
                let tooltip = if exposed {
                    phrase_with("editor-state-unexpose-tooltip", "path", &target)
                } else {
                    phrase_with("editor-state-expose-tooltip", "path", &target)
                };
                Some(
                    RowToggle {
                        exposed,
                        tooltip,
                        producer: producer.to_owned(),
                        handle,
                        path: spelling,
                    },
                )
            },
        }
    }
}

/// What a row's toggle toggles is what the row shows: it is exposed exactly when its
/// path is.
pub proof fn law_a_row_shows_what_it_toggles(
    drafts: Seq<DraftView>,
    producer: Seq<char>,
    keys: Seq<Seq<char>>,
)
    ensures
        toggle_at(drafts, producer, keys) matches Some(toggle) ==> {
            &&& toggle.producer == producer
            &&& toggle.exposed == state_values::exposes(
                drafts,
                toggle.producer,
                toggle.handle,
                toggle.path,
            )
        },
{
}

// ===== The filter =====

/// How many rows a filter shows.
pub const FILTER_RESULT_CAP: usize = 200;

/// How many values a filter visits.
pub const FILTER_VISIT_BUDGET: usize = 20000;

/// A value that a filter found, with its keys.
pub struct Found {
    pub path: Seq<Seq<char>>,
    pub node: Node,
}

/// Keys as they are written.
pub open spec fn written(path: Seq<Seq<char>>) -> Seq<char> {
    if paths::has_empty(path) {
        words::joined(path, "."@)
    } else {
        paths::spelled(path)
    }
}

/// Whether a filter finds the value at some keys beneath a producer.
pub open spec fn is_match(label: Seq<char>, path: Seq<Seq<char>>, needle: Seq<char>) -> bool {
    words::occurs(words::fold(label + " "@ + written(path)), needle)
}

/// What a filter is looking for.
pub struct Search {
    pub needle: Seq<char>,
    pub label: Seq<char>,
}

/// What a filter finds beneath a value, and what is left of its budget. Only objects
/// are descended into: no path leads into an array.
pub open spec fn found_beneath(node: Node, path: Seq<Seq<char>>, search: Search, budget: nat) -> (
    Seq<Found>,
    nat,
)
    decreases node, 0int,
{
    match node {
        Node::Object(members) => found_from(members@, 0, path, search, budget),
        _ => (Seq::empty(), budget),
    }
}

/// What a filter finds among members from a place on.
pub open spec fn found_from(
    members: Seq<(String, Node)>,
    i: int,
    path: Seq<Seq<char>>,
    search: Search,
    budget: nat,
) -> (Seq<Found>, nat)
    decreases members, members.len() - i,
{
    if i < 0 || i >= members.len() || budget == 0 {
        (Seq::empty(), budget)
    } else {
        let (here, left) = found_at(members[i], path, search, (budget - 1) as nat);
        let (later, rest) = found_from(members, i + 1, path, search, left);
        (here + later, rest)
    }
}

/// What a filter finds at a member and beneath it. An empty key is in no path.
pub open spec fn found_at(
    member: (String, Node),
    path: Seq<Seq<char>>,
    search: Search,
    budget: nat,
) -> (Seq<Found>, nat)
    decreases member, 0int,
{
    if member.0@.len() == 0 {
        (Seq::empty(), budget)
    } else {
        let longer = path.push(member.0@);
        let own = if is_match(search.label, longer, search.needle) {
            seq![Found { path: longer, node: member.1 }]
        } else {
            Seq::empty()
        };
        let (beneath, left) = found_beneath(member.1, longer, search, budget);
        (own + beneath, left)
    }
}

/// A value that a filter found.
pub struct Hit<'a> {
    pub path: Vec<String>,
    pub node: &'a Node,
}

/// What hits stand for.
pub open spec fn hits_view(hits: Seq<Hit<'_>>) -> Seq<Found> {
    hits.map_values(|hit: Hit<'_>| Found { path: text::texts(hit.path@), node: *hit.node })
}

/// Keys as they are written.
fn write_path(path: &Vec<String>) -> (spelling: String)
    ensures
        spelling@ == written(text::texts(path@)),
{
    match StorePath::from_segments(path) {
        Some(path) => path.spell(),
        None => {
            assert(text::texts(path@).take(path.len() as int) =~= text::texts(path@));
            join_texts(path, path.len(), ".")
        },
    }
}

/// Whether a filter finds the value at some keys beneath a producer.
fn matches_filter(label: &str, path: &Vec<String>, needle: &str) -> (found: bool)
    ensures
        found == is_match(label@, text::texts(path@), needle@),
{
    let spelling = write_path(path);
    let line = join3(label, " ", &spelling);
    let lower = folded(&line);
    contains_text(&lower, needle)
}

/// Collects what a filter finds beneath a value, depth first in the order of
/// publication, until its budget is spent. Returns what is left of the budget.
fn collect_matches<'a>(
    node: &'a Node,
    path: &mut Vec<String>,
    needle: &str,
    label: &str,
    budget: usize,
    hits: &mut Vec<Hit<'a>>,
) -> (left: usize)
    ensures
        text::texts(final(path)@) == text::texts(old(path)@),
        ({
            let found = found_beneath(
                *node,
                text::texts(old(path)@),
                Search { needle: needle@, label: label@ },
                budget as nat,
            );
            &&& hits_view(final(hits)@) == hits_view(old(hits)@) + found.0
            &&& left == found.1
        }),
    decreases node,
{
    let ghost keys = text::texts(path@);
    let ghost search = Search { needle: needle@, label: label@ };
    let ghost before = hits_view(hits@);
    let ghost found = found_beneath(*node, keys, search, budget as nat);
    if let Node::Object(members) = node {
        let ghost all = members@;
        let mut left: usize = budget;
        let mut i: usize = 0;
        assert(before + found_from(all, 0, keys, search, left as nat).0 =~= before + found.0);
        while i < members.len() && left > 0
            invariant
                *node == Node::Object(*members),
                all == members@,
                i <= members.len(),
                search == (Search { needle: needle@, label: label@ }),
                text::texts(path@) == keys,
                hits_view(hits@) + found_from(all, i as int, keys, search, left as nat).0 == before
                    + found.0,
                found_from(all, i as int, keys, search, left as nat).1 == found.1,
            decreases members.len() - i,
        {
            let member = &members[i];
            let ghost so_far = hits_view(hits@);
            let ghost here = found_at(all[i as int], keys, search, (left - 1) as nat);
            let ghost later = found_from(all, i + 1, keys, search, here.1);
            left = left - 1;
            if !is_empty_text(&member.0) {
                let ghost longer = keys.push(member.0@);
                path.push(member.0.clone());
                assert(text::texts(path@) =~= longer);
                if matches_filter(label, path, needle) {
                    let ghost mid = hits@;
                    hits.push(Hit { path: texts_from(path, 0), node: &member.1 });
                    assert(longer.skip(0) =~= longer);
                    assert(hits_view(hits@) =~= hits_view(mid).push(
                        Found { path: longer, node: member.1 },
                    ));
                }
                let ghost own = if is_match(search.label, longer, search.needle) {
                    seq![Found { path: longer, node: member.1 }]
                } else {
                    Seq::empty()
                };
                assert(hits_view(hits@) =~= so_far + own);
                let ghost given = *node;
                assert(decreases_to!(given => given->Object_0));
                assert(decreases_to!(given->Object_0 => members@));
                assert(decreases_to!(members@ => members@[i as int]));
                assert(decreases_to!(members@[i as int] => members@[i as int].1));
                left = collect_matches(&member.1, path, needle, label, left, hits);
                let ghost grown = path@;
                let gone = path.pop();
                assert(text::texts(path@) =~= text::texts(grown).drop_last());
                assert(longer.drop_last() =~= keys);
            }
            assert(hits_view(hits@) =~= so_far + here.0);
            assert(so_far + (here.0 + later.0) =~= hits_view(hits@) + later.0);
            i = i + 1;
        }
        assert(hits_view(hits@) =~= before + found.0);
        left
    } else {
        assert(hits_view(hits@) =~= before + found.0);
        budget
    }
}

/// A result of the filter.
pub struct FilterRow<T = String, G = Option<RowToggle>> {
    pub producer: T,
    pub label: T,
    /// The keys as they are written.
    pub path: T,
    /// A scalar as JSON spells it; how much an object or an array holds.
    pub value: T,
    pub toggle: G,
}

/// A result over sequences.
pub type FilterRowView = FilterRow<Seq<char>, Option<ToggleView>>;

impl View for FilterRow<String, Option<RowToggle>> {
    type V = FilterRowView;

    open spec fn view(&self) -> FilterRowView {
        FilterRow {
            producer: self.producer@,
            label: self.label@,
            path: self.path@,
            value: self.value@,
            toggle: opt_toggle(self.toggle),
        }
    }
}

/// The views of results.
pub open spec fn filter_rows_view(rows: Seq<FilterRow>) -> Seq<FilterRowView> {
    rows.map_values(|row: FilterRow| row@)
}

/// How much a value holds, or the value itself.
pub open spec fn value_text(node: Node) -> Seq<char> {
    match node {
        Node::Object(members) => "{"@ + text::decimal(members@.len()) + "}"@,
        Node::Array(items) => "["@ + text::decimal(items@.len()) + "]"@,
        Node::Scalar(spelling) => spelling@,
    }
}

/// How much a value holds, or the value itself.
pub(crate) fn value_line(node: &Node) -> (line: String)
    ensures
        line@ == value_text(*node),
{
    match node {
        Node::Object(members) => {
            let count = decimal_text(members.len() as u64);
            join3("{", &count, "}")
        },
        Node::Array(items) => {
            let count = decimal_text(items.len() as u64);
            join3("[", &count, "]")
        },
        Node::Scalar(spelling) => spelling.clone(),
    }
}

/// The row of a value that was found.
pub open spec fn row_of(drafts: Seq<DraftView>, producer: Seq<char>, found: Found) -> FilterRowView {
    FilterRow {
        producer,
        label: addresses::display_of(producer).0,
        path: written(found.path),
        value: value_text(found.node),
        toggle: toggle_at(drafts, producer, found.path),
    }
}

/// What a filter finds of a producer, and what is left of its budget.
pub open spec fn found_of(view: ProducerView, needle: Seq<char>, budget: nat) -> (Seq<Found>, nat) {
    found_beneath(
        view.tree,
        Seq::empty(),
        Search { needle, label: addresses::display_of(view.producer@).0 },
        budget,
    )
}

/// All rows of a filter, and what is left of its budget. Producers share one.
pub open spec fn all_rows(
    drafts: Seq<DraftView>,
    producers: Seq<ProducerView>,
    needle: Seq<char>,
    budget: nat,
) -> (Seq<FilterRowView>, nat)
    decreases producers.len(),
{
    if producers.len() == 0 {
        (Seq::empty(), budget)
    } else {
        let (before, left) = all_rows(drafts, producers.drop_last(), needle, budget);
        let view = producers.last();
        let (found, rest) = found_of(view, needle, left);
        (before + found.map_values(|one: Found| row_of(drafts, view.producer@, one)), rest)
    }
}

/// What a filter shows.
pub struct Filtered<L = Vec<FilterRow>> {
    pub rows: L,
    /// How many rows it leaves out.
    pub hidden: usize,
}

/// What a filter leaves of its rows.
pub open spec fn capped(rows: Seq<FilterRowView>) -> (Seq<FilterRowView>, int) {
    if rows.len() > FILTER_RESULT_CAP {
        (rows.take(FILTER_RESULT_CAP as int), rows.len() - FILTER_RESULT_CAP)
    } else {
        (rows, 0)
    }
}

impl AutomationsWindow {
    /// What the filter shows of some producers: the values whose keys, as they are
    /// written after the producer, hold what was typed.
    pub fn state_filtered(&self, producers: &Vec<&ProducerView>) -> (filtered: Filtered)
        ensures
            ({
                let rows = all_rows(
                    self@.state_exposures,
                    behind(producers@),
                    words::fold(text::trimmed(self@.state_filter)),
                    FILTER_VISIT_BUDGET as nat,
                ).0;
                (filter_rows_view(filtered.rows@), filtered.hidden as int) == capped(rows)
            }),
    {
        let trimmed = trim(&self.state_filter);
        let needle = folded(&trimmed);
        let ghost drafts = self@.state_exposures;
        let ghost views = behind(producers@);
        let mut rows: Vec<FilterRow> = Vec::new();
        let mut budget: usize = FILTER_VISIT_BUDGET;
        assert(filter_rows_view(rows@) =~= Seq::empty());
        assert(views.take(0) =~= Seq::empty());
        for i in 0..producers.len()
            invariant
                drafts == self@.state_exposures,
                views == behind(producers@),
                (filter_rows_view(rows@), budget as nat) == all_rows(
                    drafts,
                    views.take(i as int),
                    needle@,
                    FILTER_VISIT_BUDGET as nat,
                ),
        {
            let view = producers[i];
            assert(views[i as int] == *view);
            assert(views.take(i + 1).drop_last() =~= views.take(i as int));
            let (label, detail) = producer_display(&view.producer);
            let mut path: Vec<String> = Vec::new();
            assert(text::texts(path@) =~= Seq::empty());
            let mut hits: Vec<Hit> = Vec::new();
            assert(hits_view(hits@) =~= Seq::empty());
            let ghost found = found_of(*view, needle@, budget as nat);
            budget = collect_matches(&view.tree, &mut path, &needle, &label, budget, &mut hits);
            assert(hits_view(hits@) =~= found.0);
            let ghost before = filter_rows_view(rows@);
            let ghost own = found.0.map_values(|one: Found| row_of(drafts, view.producer@, one));
            assert(before =~= before + own.take(0));
            let count: usize = hits.len();
            for k in 0..count
                invariant
                    count == hits.len(),
                    drafts == self@.state_exposures,
                    hits_view(hits@) == found.0,
                    label@ == addresses::display_of(view.producer@).0,
                    own == found.0.map_values(|one: Found| row_of(drafts, view.producer@, one)),
                    filter_rows_view(rows@) == before + own.take(k as int),
            {
                let hit = &hits[k];
                assert(found.0[k as int] == (Found {
                    path: text::texts(hit.path@),
                    node: *hit.node,
                }));
                let ghost so_far = filter_rows_view(rows@);
                rows.push(
                    FilterRow {
                        producer: view.producer.clone(),
                        label: label.clone(),
                        path: write_path(&hit.path),
                        value: value_line(hit.node),
                        toggle: self.state_row_toggle(&view.producer, &hit.path),
                    },
                );
                assert(filter_rows_view(rows@) =~= so_far.push(own[k as int]));
                assert(filter_rows_view(rows@) =~= before + own.take(k + 1));
            }
            assert(own.take(own.len() as int) =~= own);
        }
        assert(views.take(views.len() as int) =~= views);
        let ghost all = filter_rows_view(rows@);
        let mut hidden: usize = 0;
        if rows.len() > FILTER_RESULT_CAP {
            hidden = rows.len() - FILTER_RESULT_CAP;
            rows.truncate(FILTER_RESULT_CAP);
            assert(filter_rows_view(rows@) =~= all.take(FILTER_RESULT_CAP as int));
        }
        Filtered { rows, hidden }
    }
}

/// A filter leaves out nothing in silence: what it shows and what it counts as left
/// out are all rows.
pub proof fn law_hidden_rows_are_counted(rows: Seq<FilterRowView>)
    ensures
        capped(rows).0.len() + capped(rows).1 == rows.len(),
        capped(rows).0.len() <= FILTER_RESULT_CAP,
{
}

} // verus!
