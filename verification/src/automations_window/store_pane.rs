//! What the store inspector shows: the tree of each producer, and the catalogue.

use vstd::prelude::*;

use super::catalogue::{CatalogueEntryView, CatalogueKind, CatalogueSample, CatalogueSnapshot, ProducerView};
use super::figures::{self, ago, first_lines, format_bytes};
use super::phrases::{self, phrase, phrase_with, phrase_with_two, Phrase, PhraseView};
use super::store_inspector::{self, json_rows, RowLabel, RowView, Spot, Tree, TreeRow, TreeRows, DEFAULT_EXPAND_DEPTH};
use crate::text::{self, clone_opt, decimal_text, join2, same_text};

verus! {

// ===== The trees =====

/// The tree of a producer, and how much it holds.
pub struct ProducerTree<T = String, P = Phrase, R = Vec<TreeRow>> {
    pub producer: T,
    pub usage: P,
    pub rows: R,
}

/// A producer's tree over sequences.
pub type ProducerTreeView = ProducerTree<Seq<char>, PhraseView, Seq<RowView>>;

impl View for ProducerTree<String, Phrase, Vec<TreeRow>> {
    type V = ProducerTreeView;

    open spec fn view(&self) -> ProducerTreeView {
        ProducerTree {
            producer: self.producer@,
            usage: self.usage@,
            rows: store_inspector::rows_view(self.rows@),
        }
    }
}

/// The views of trees.
pub open spec fn trees_view(trees: Seq<ProducerTree>) -> Seq<ProducerTreeView> {
    trees.map_values(|tree: ProducerTree| tree@)
}

/// The root of a tree.
pub open spec fn root_spot() -> Spot {
    Spot {
        key: Seq::empty(),
        label: RowLabel::Unkeyed,
        depth: 0,
        path: Seq::empty(),
        addressable: true,
    }
}

/// The tree of a producer.
pub open spec fn producer_tree(view: ProducerView, toggled: Seq<Seq<char>>) -> ProducerTreeView {
    ProducerTree {
        producer: view.producer@,
        usage: phrases::with_arguments(
            "store-usage"@,
            ("entries"@, text::decimal(view.entries as nat)),
            ("bytes"@, figures::size_text(view.bytes)),
        ),
        rows: store_inspector::rows_of(
            Tree {
                producer: view.producer@,
                toggled,
                expand_depth: DEFAULT_EXPAND_DEPTH,
                drafts: None,
            },
            view.tree,
            root_spot(),
        ),
    }
}

/// The tree of a producer.
fn tree_for(view: &ProducerView, toggled: &Vec<String>) -> (tree: ProducerTree)
    ensures
        tree@ == producer_tree(*view, text::texts(toggled@)),
{
    let entries = decimal_text(view.entries);
    let bytes = format_bytes(view.bytes);
    let usage = phrase_with_two("store-usage", ("entries", &entries), ("bytes", &bytes));
    let shown = TreeRows {
        producer: &view.producer,
        toggled,
        default_expand_depth: DEFAULT_EXPAND_DEPTH,
        trailing: None,
    };
    let mut rows: Vec<TreeRow> = Vec::new();
    let mut path: Vec<String> = Vec::new();
    assert(text::texts(path@) =~= Seq::empty());
    assert(store_inspector::rows_view(rows@) =~= Seq::empty());
    let key = String::new();
    json_rows(
        &shown,
        &mut rows,
        &key,
        RowLabel::Unkeyed,
        &view.tree,
        0,
        &mut path,
        true,
    );
    let tree = ProducerTree { producer: view.producer.clone(), usage, rows };
    assert(tree@.rows =~= producer_tree(*view, text::texts(toggled@)).rows);
    tree
}

/// The trees of all producers.
pub fn store_trees(snapshot: &CatalogueSnapshot, toggled: &Vec<String>) -> (trees: Vec<ProducerTree>)
    ensures
        trees_view(trees@) == snapshot.producers@.map_values(
            |view: ProducerView| producer_tree(view, text::texts(toggled@)),
        ),
{
    let ghost given = snapshot.producers@;
    let ghost f = |view: ProducerView| producer_tree(view, text::texts(toggled@));
    let mut trees: Vec<ProducerTree> = Vec::new();
    assert(trees_view(trees@) =~= given.take(0).map_values(f));
    for i in 0..snapshot.producers.len()
        invariant
            given == snapshot.producers@,
            f == (|view: ProducerView| producer_tree(view, text::texts(toggled@))),
            trees_view(trees@) == given.take(i as int).map_values(f),
    {
        let ghost before = trees_view(trees@);
        trees.push(tree_for(&snapshot.producers[i], toggled));
        assert(trees_view(trees@) =~= before.push(f(given[i as int])));
        assert(trees_view(trees@) =~= given.take(i + 1).map_values(f));
    }
    assert(given.take(given.len() as int) =~= given);
    trees
}

// ===== The catalogue =====

/// How many samples an entry shows.
pub const SAMPLES_SHOWN: usize = 5;

/// How many lines of a declared shape are shown.
pub const SHAPE_LINES: usize = 6;

/// A sample as it is shown.
pub struct SampleRow<T = String, P = Phrase> {
    pub time: P,
    pub sender: T,
    /// What is said of a sample that was cut.
    pub truncated: Option<P>,
    pub display: T,
}

/// A sample over sequences.
pub type SampleView = SampleRow<Seq<char>, PhraseView>;

impl View for SampleRow<String, Phrase> {
    type V = SampleView;

    open spec fn view(&self) -> SampleView {
        SampleRow {
            time: self.time@,
            sender: self.sender@,
            truncated: phrases::opt_phrase(self.truncated),
            display: self.display@,
        }
    }
}

/// The views of samples.
pub open spec fn samples_view(samples: Seq<SampleRow>) -> Seq<SampleView> {
    samples.map_values(|sample: SampleRow| sample@)
}

/// A sample as it is shown.
pub open spec fn sample_of(sample: CatalogueSample, now_ms: u64) -> SampleView {
    SampleRow {
        time: figures::ago_text(figures::elapsed(sample.at_epoch_ms, now_ms)),
        sender: sample.sender@,
        truncated: if sample.truncated {
            Some(phrases::plain("store-truncated"@))
        } else {
            None
        },
        display: sample.display@,
    }
}

/// A sample as it is shown.
pub fn sample_row(sample: &CatalogueSample, now_ms: u64) -> (row: SampleRow)
    ensures
        row@ == sample_of(*sample, now_ms),
{
    SampleRow {
        time: ago(sample.at_epoch_ms, now_ms),
        sender: sample.sender.clone(),
        truncated: if sample.truncated {
            Some(phrase("store-truncated"))
        } else {
            None
        },
        display: sample.display.clone(),
    }
}

/// How many samples are shown of so many.
pub open spec fn samples_shown(count: nat) -> nat {
    if count > SAMPLES_SHOWN {
        SAMPLES_SHOWN as nat
    } else {
        count
    }
}

/// The latest samples, the latest first.
pub open spec fn latest(samples: Seq<CatalogueSample>, now_ms: u64) -> Seq<SampleView> {
    Seq::new(
        samples_shown(samples.len()),
        |i: int| sample_of(samples[samples.len() - 1 - i], now_ms),
    )
}

/// An entry as it is shown.
pub struct EntryBlock<T = String, P = Phrase, S = Vec<SampleRow>> {
    pub kind: CatalogueKind,
    pub name: T,
    /// Where it is known from.
    pub provenance: P,
    pub type_alias: Option<T>,
    /// How often it was seen, if it was.
    pub occurrences: Option<T>,
    pub inferred_shape: Option<P>,
    pub declared_shape: Option<P>,
    pub samples: S,
}

/// An entry over sequences.
pub type BlockView = EntryBlock<Seq<char>, PhraseView, Seq<SampleView>>;

impl View for EntryBlock<String, Phrase, Vec<SampleRow>> {
    type V = BlockView;

    open spec fn view(&self) -> BlockView {
        EntryBlock {
            kind: self.kind,
            name: self.name@,
            provenance: self.provenance@,
            type_alias: text::opt_text(self.type_alias),
            occurrences: text::opt_text(self.occurrences),
            inferred_shape: phrases::opt_phrase(self.inferred_shape),
            declared_shape: phrases::opt_phrase(self.declared_shape),
            samples: samples_view(self.samples@),
        }
    }
}

/// Where an entry is known from.
pub open spec fn provenance_of(declared: bool, confirmed: bool) -> PhraseView {
    phrases::plain(
        if declared && confirmed {
            "store-provenance-declared"@
        } else if declared {
            "store-provenance-declared-unseen"@
        } else if confirmed {
            "store-provenance-runtime"@
        } else {
            "store-provenance-undeclared"@
        },
    )
}

/// An entry as it is shown.
pub open spec fn block_of(entry: CatalogueEntryView, now_ms: u64) -> BlockView {
    EntryBlock {
        kind: entry.kind,
        name: entry.name@,
        provenance: provenance_of(entry.declared, entry.runtime_confirmed),
        type_alias: text::opt_text(entry.type_alias),
        occurrences: if entry.occurrences > 0 {
            Some("\u{D7}"@ + text::decimal(entry.occurrences as nat))
        } else {
            None
        },
        inferred_shape: match entry.inferred_shape {
            Some(shape) => Some(phrases::with_argument("store-shape"@, "shape"@, shape@)),
            None => None,
        },
        declared_shape: match entry.declared_shape {
            Some(shape) => Some(
                phrases::with_argument(
                    "store-declared-shape"@,
                    "shape"@,
                    figures::excerpt(shape@, SHAPE_LINES as nat),
                ),
            ),
            None => None,
        },
        samples: latest(entry.samples@, now_ms),
    }
}

/// The latest samples, the latest first.
fn latest_samples(samples: &Vec<CatalogueSample>, now_ms: u64) -> (rows: Vec<SampleRow>)
    ensures
        samples_view(rows@) == latest(samples@, now_ms),
{
    let count: usize = if samples.len() > SAMPLES_SHOWN {
        SAMPLES_SHOWN
    } else {
        samples.len()
    };
    let ghost shown = latest(samples@, now_ms);
    let mut rows: Vec<SampleRow> = Vec::new();
    assert(samples_view(rows@) =~= shown.take(0));
    for i in 0..count
        invariant
            count == samples_shown(samples@.len()),
            shown == latest(samples@, now_ms),
            samples_view(rows@) == shown.take(i as int),
    {
        let ghost before = samples_view(rows@);
        rows.push(sample_row(&samples[samples.len() - 1 - i], now_ms));
        assert(samples_view(rows@) =~= before.push(shown[i as int]));
        assert(samples_view(rows@) =~= shown.take(i + 1));
    }
    assert(shown.take(count as int) =~= shown);
    rows
}

/// An entry as it is shown: what it is, where it is known from, its shapes, and the
/// latest samples.
pub fn entry_block(entry: &CatalogueEntryView, now_ms: u64) -> (block: EntryBlock)
    ensures
        block@ == block_of(*entry, now_ms),
{
    let provenance = match (entry.declared, entry.runtime_confirmed) {
        (true, true) => phrase("store-provenance-declared"),
        (true, false) => phrase("store-provenance-declared-unseen"),
        (false, true) => phrase("store-provenance-runtime"),
        (false, false) => phrase("store-provenance-undeclared"),
    };
    let occurrences = if entry.occurrences > 0 {
        let count = decimal_text(entry.occurrences);
        Some(join2("\u{D7}", &count))
    } else {
        None
    };
    let inferred_shape = match &entry.inferred_shape {
        Some(shape) => Some(phrase_with("store-shape", "shape", shape)),
        None => None,
    };
    let declared_shape = match &entry.declared_shape {
        Some(shape) => {
            let start = first_lines(shape, SHAPE_LINES);
            Some(phrase_with("store-declared-shape", "shape", &start))
        },
        None => None,
    };
    EntryBlock {
        kind: entry.kind,
        name: entry.name.clone(),
        provenance,
        type_alias: clone_opt(&entry.type_alias),
        occurrences,
        inferred_shape,
        declared_shape,
        samples: latest_samples(&entry.samples, now_ms),
    }
}

/// A line of the catalogue.
pub enum CatalogueLine<T = String, B = EntryBlock> {
    Producer(T),
    Entry(B),
}

/// A line over sequences.
pub type LineView = CatalogueLine<Seq<char>, BlockView>;

impl View for CatalogueLine<String, EntryBlock> {
    type V = LineView;

    open spec fn view(&self) -> LineView {
        match *self {
            CatalogueLine::Producer(producer) => CatalogueLine::Producer(producer@),
            CatalogueLine::Entry(block) => CatalogueLine::Entry(block@),
        }
    }
}

/// The views of lines.
pub open spec fn lines_view(lines: Seq<CatalogueLine>) -> Seq<LineView> {
    lines.map_values(|line: CatalogueLine| line@)
}

/// Whether an entry is of another producer than the one before it.
pub open spec fn starts_producer(entries: Seq<CatalogueEntryView>, i: int) -> bool {
    i == 0 || entries[i - 1].producer@ != entries[i].producer@
}

/// The lines of an entry: the name of its producer before the first of it.
pub open spec fn entry_lines(entries: Seq<CatalogueEntryView>, i: int, now_ms: u64) -> Seq<LineView> {
    let block = CatalogueLine::Entry(block_of(entries[i], now_ms));
    if starts_producer(entries, i) {
        seq![CatalogueLine::Producer(entries[i].producer@), block]
    } else {
        seq![block]
    }
}

/// The lines of the first entries.
pub open spec fn catalogue_lines(entries: Seq<CatalogueEntryView>, count: nat, now_ms: u64) -> Seq<
    LineView,
>
    decreases count,
{
    if count == 0 {
        Seq::empty()
    } else {
        catalogue_lines(entries, (count - 1) as nat, now_ms) + entry_lines(
            entries,
            count - 1,
            now_ms,
        )
    }
}

/// The lines of the catalogue: the entries, under the names of their producers.
pub fn catalogue_entries(snapshot: &CatalogueSnapshot, now_ms: u64) -> (lines: Vec<CatalogueLine>)
    ensures
        lines_view(lines@) == catalogue_lines(snapshot.entries@, snapshot.entries@.len(), now_ms),
{
    let ghost entries = snapshot.entries@;
    let mut lines: Vec<CatalogueLine> = Vec::new();
    assert(lines_view(lines@) =~= Seq::empty());
    for i in 0..snapshot.entries.len()
        invariant
            entries == snapshot.entries@,
            lines_view(lines@) == catalogue_lines(entries, i as nat, now_ms),
    {
        let ghost before = lines_view(lines@);
        let entry = &snapshot.entries[i];
        if i == 0 || !same_text(&snapshot.entries[i - 1].producer, &entry.producer) {
            lines.push(CatalogueLine::Producer(entry.producer.clone()));
        }
        lines.push(CatalogueLine::Entry(entry_block(entry, now_ms)));
        assert(lines_view(lines@) =~= before + entry_lines(entries, i as int, now_ms));
    }
    lines
}

} // verus!
