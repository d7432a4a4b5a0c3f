//! The published state, and the catalogue of what is published.

use vstd::prelude::*;

use crate::list;
use crate::text;
use crate::words::{self, same_folded};

verus! {

/// A value of the published state.
pub enum Node {
    /// A number, a text, a truth value or nothing, as JSON spells it.
    Scalar(String),
    /// Keys and their values, in the order in which they were published.
    Object(Vec<(String, Node)>),
    Array(Vec<Node>),
}

/// The members of an object; none for another value.
pub open spec fn members(node: Node) -> Seq<(String, Node)> {
    match node {
        Node::Object(members) => members@,
        _ => Seq::empty(),
    }
}

/// Whether a member has a key, without regard to case.
pub open spec fn has_key(member: (String, Node), key: Seq<char>) -> bool {
    words::same_fold(member.0@, key)
}

/// The value at a key, without regard to case.
pub open spec fn value_at(node: Node, key: Seq<char>) -> Option<Node> {
    match list::first(members(node), |member: (String, Node)| has_key(member, key)) {
        Some(member) => Some(member.1),
        None => None,
    }
}

/// The value that the keys of a path lead to.
pub open spec fn value_beneath(node: Node, path: Seq<Seq<char>>) -> Option<Node>
    decreases path.len(),
{
    if path.len() == 0 {
        Some(node)
    } else {
        match value_at(node, path[0]) {
            Some(child) => value_beneath(child, path.skip(1)),
            None => None,
        }
    }
}

/// The view of an optional borrowed value.
pub open spec fn opt_node(node: Option<&Node>) -> Option<Node> {
    match node {
        Some(node) => Some(*node),
        None => None,
    }
}

impl Node {
    /// The value at a key, without regard to case.
    pub fn get(&self, key: &str) -> (value: Option<&Node>)
        ensures
            opt_node(value) == value_at(*self, key@),
    {
        let ghost all = members(*self);
        let ghost p = |member: (String, Node)| has_key(member, key@);
        if let Node::Object(entries) = self {
            for i in 0..entries.len()
                invariant
                    all == entries@,
                    all == members(*self),
                    p == (|member: (String, Node)| has_key(member, key@)),
                    forall|k: int| 0 <= k < i ==> !p(#[trigger] all[k]),
            {
                let member = &entries[i];
                if same_folded(&member.0, key) {
                    proof {
                        list::lemma_first(all, p, i as int);
                    }
                    return Some(&member.1);
                }
            }
        }
        assert(!exists|i: int| list::is_first(all, p, i)) by {
            assert forall|i: int| !list::is_first(all, p, i) by {
                if list::is_first(all, p, i) {
                    assert(p(all[i]));
                }
            }
        }
        None
    }

    /// The value that the keys of a path lead to.
    pub fn beneath(&self, path: &Vec<String>) -> (value: Option<&Node>)
        ensures
            opt_node(value) == value_beneath(*self, text::texts(path@)),
    {
        let ghost keys = text::texts(path@);
        let mut node: &Node = self;
        assert(keys.skip(0) =~= keys);
        for i in 0..path.len()
            invariant
                keys == text::texts(path@),
                value_beneath(*self, keys) == value_beneath(*node, keys.skip(i as int)),
        {
            assert(keys.skip(i as int)[0] == path@[i as int]@);
            assert(keys.skip(i as int).skip(1) =~= keys.skip(i + 1));
            match node.get(&path[i]) {
                Some(child) => {
                    node = child;
                },
                None => {
                    return None;
                },
            }
        }
        Some(node)
    }
}

/// What an entry of the catalogue is.
#[derive(Clone, Copy, Debug, PartialEq, Eq, Structural)]
pub enum CatalogueKind {
    State,
    Event,
    Message,
}

/// What a producer publishes.
pub struct ProducerView {
    pub producer: String,
    pub tree: Node,
    /// How many values the tree holds.
    pub entries: u64,
    /// How many bytes it takes.
    pub bytes: u64,
}

/// One that was seen of an entry.
pub struct CatalogueSample {
    /// When it was seen, in milliseconds since 1970.
    pub at_epoch_ms: u64,
    pub sender: String,
    pub display: String,
    pub truncated: bool,
}

/// An entry of the catalogue.
pub struct CatalogueEntryView {
    pub producer: String,
    pub name: String,
    pub kind: CatalogueKind,
    pub declared: bool,
    pub runtime_confirmed: bool,
    pub type_alias: Option<String>,
    pub occurrences: u64,
    pub inferred_shape: Option<String>,
    pub declared_shape: Option<String>,
    /// The latest last.
    pub samples: Vec<CatalogueSample>,
}

/// All that is published.
pub struct CatalogueSnapshot {
    pub producers: Vec<ProducerView>,
    pub entries: Vec<CatalogueEntryView>,
}

} // verus!
