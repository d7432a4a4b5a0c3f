//! The published state as a tree of rows, and the catalogue of what is published.

use vstd::prelude::*;

use super::browser::{self, value_line, RowToggle, ToggleView};
use super::catalogue::Node;
use super::exposures::DraftView;
use super::notes::holds_name;
use super::state_values::AutomationsWindow;
use crate::text::{self, decimal_text, is_empty_text, join2, join3};

verus! {

// ===== The tree =====

/// How many values an open object or array shows.
pub const NODE_CHILD_CAP: usize = 200;

/// How deep the tree of the store is open at first.
pub const DEFAULT_EXPAND_DEPTH: usize = 2;

/// What a row is called.
pub enum RowLabel<T = String> {
    /// Nothing: the root of a producer, or what an array holds.
    Unkeyed,
    Key(T),
    /// The name of a producer, and the address that goes with an abbreviation.
    Head { name: T, address: Option<T> },
}

/// A label over sequences.
pub type LabelView = RowLabel<Seq<char>>;

impl View for RowLabel<String> {
    type V = LabelView;

    open spec fn view(&self) -> LabelView {
        match *self {
            RowLabel::Unkeyed => RowLabel::Unkeyed,
            RowLabel::Key(key) => RowLabel::Key(key@),
            RowLabel::Head { name, address } => RowLabel::Head {
                name: name@,
                address: text::opt_text(address),
            },
        }
    }
}

/// What a row shows.
pub enum RowBody<T = String> {
    /// A scalar, as JSON spells it.
    Leaf(T),
    /// An object or an array, and how much it holds.
    Branch { node_key: T, expanded: bool, summary: T },
    /// How many values are left out.
    More(usize),
}

/// A row's content over sequences.
pub type BodyView = RowBody<Seq<char>>;

impl View for RowBody<String> {
    type V = BodyView;

    open spec fn view(&self) -> BodyView {
        match *self {
            RowBody::Leaf(spelling) => RowBody::Leaf(spelling@),
            RowBody::Branch { node_key, expanded, summary } => RowBody::Branch {
                node_key: node_key@,
                expanded,
                summary: summary@,
            },
            RowBody::More(count) => RowBody::More(count),
        }
    }
}

/// A row of the tree.
pub struct TreeRow<L = RowLabel, B = RowBody, G = Option<RowToggle>> {
    pub depth: usize,
    pub label: L,
    pub body: B,
    pub toggle: G,
}

/// A row over sequences.
pub type RowView = TreeRow<LabelView, BodyView, Option<ToggleView>>;

impl View for TreeRow<RowLabel, RowBody, Option<RowToggle>> {
    type V = RowView;

    open spec fn view(&self) -> RowView {
        TreeRow {
            depth: self.depth,
            label: self.label@,
            body: self.body@,
            toggle: browser::opt_toggle(self.toggle),
        }
    }
}

/// The views of rows.
pub open spec fn rows_view(rows: Seq<TreeRow>) -> Seq<RowView> {
    rows.map_values(|row: TreeRow| row@)
}

/// How a tree is shown.
pub struct Tree {
    pub producer: Seq<char>,
    /// The values whose folding was turned.
    pub toggled: Seq<Seq<char>>,
    /// How deep it is open at first.
    pub expand_depth: usize,
    /// What is exposed, where the rows have toggles.
    pub drafts: Option<Seq<DraftView>>,
}

/// Where a value stands in a tree.
pub struct Spot {
    /// What it is told apart by.
    pub key: Seq<char>,
    pub label: LabelView,
    pub depth: usize,
    /// The keys that lead to it.
    pub path: Seq<Seq<char>>,
    /// Whether keys lead to it: none lead into an array.
    pub addressable: bool,
}

/// One deeper.
pub open spec fn deeper(depth: usize) -> usize {
    if depth == usize::MAX {
        depth
    } else {
        (depth + 1) as usize
    }
}

/// Where a value stands that is at some place within another. One without a key is
/// told apart by its place.
pub open spec fn child_spot(spot: Spot, label: Seq<char>, index: int) -> Spot {
    if label.len() == 0 {
        Spot {
            key: spot.key + "/["@ + text::decimal(index as nat) + "]"@,
            label: RowLabel::Unkeyed,
            depth: deeper(spot.depth),
            path: spot.path,
            addressable: false,
        }
    } else {
        Spot {
            key: spot.key + "/"@ + label,
            label: RowLabel::Key(label),
            depth: deeper(spot.depth),
            path: spot.path.push(label),
            addressable: spot.addressable,
        }
    }
}

/// The key under which a value's folding is kept.
pub open spec fn folding_key(tree: Tree, spot: Spot) -> Seq<char> {
    tree.producer + "\0"@ + spot.key
}

/// Whether a value is open: as deep values are at first, unless it was turned.
pub open spec fn is_expanded(tree: Tree, spot: Spot) -> bool {
    (spot.depth < tree.expand_depth) != tree.toggled.contains(folding_key(tree, spot))
}

/// The toggle of a value's row.
pub open spec fn spot_toggle(tree: Tree, spot: Spot) -> Option<ToggleView> {
    match tree.drafts {
        Some(drafts) => if spot.addressable {
            browser::toggle_at(drafts, tree.producer, spot.path)
        } else {
            None
        },
        None => None,
    }
}

/// The row of an object or an array.
pub open spec fn branch_row(tree: Tree, spot: Spot, node: Node) -> RowView {
    TreeRow {
        depth: spot.depth,
        label: spot.label,
        body: RowBody::Branch {
            node_key: folding_key(tree, spot),
            expanded: is_expanded(tree, spot),
            summary: browser::value_text(node),
        },
        toggle: spot_toggle(tree, spot),
    }
}

/// The row that says how many values are left out.
pub open spec fn more_row(spot: Spot, count: nat) -> RowView {
    TreeRow {
        depth: deeper(spot.depth),
        label: RowLabel::Unkeyed,
        body: RowBody::More((count - NODE_CHILD_CAP) as usize),
        toggle: None,
    }
}

/// The rows of a value: its own, and those of what it holds, if it is open.
pub open spec fn rows_of(tree: Tree, node: Node, spot: Spot) -> Seq<RowView>
    decreases node, 0int,
{
    match node {
        Node::Scalar(spelling) => seq![
            TreeRow {
                depth: spot.depth,
                label: spot.label,
                body: RowBody::Leaf(spelling@),
                toggle: spot_toggle(tree, spot),
            },
        ],
        Node::Object(members) => seq![branch_row(tree, spot, node)] + (if is_expanded(tree, spot) {
            member_rows(tree, members@, 0, spot)
        } else {
            Seq::empty()
        }),
        Node::Array(items) => seq![branch_row(tree, spot, node)] + (if is_expanded(tree, spot) {
            item_rows(tree, items@, 0, spot)
        } else {
            Seq::empty()
        }),
    }
}

/// The rows of the members of an object from a place on.
pub open spec fn member_rows(tree: Tree, members: Seq<(String, Node)>, i: int, spot: Spot) -> Seq<
    RowView,
>
    decreases members, members.len() - i,
{
    if i < 0 || i >= members.len() {
        Seq::empty()
    } else if i >= NODE_CHILD_CAP {
        seq![more_row(spot, members.len())]
    } else {
        one_member(tree, members[i], i, spot) + member_rows(tree, members, i + 1, spot)
    }
}

/// The rows of a member of an object.
pub open spec fn one_member(tree: Tree, member: (String, Node), i: int, spot: Spot) -> Seq<RowView>
    decreases member, 0int,
{
    rows_of(tree, member.1, child_spot(spot, member.0@, i))
}

/// The rows of what an array holds from a place on.
pub open spec fn item_rows(tree: Tree, items: Seq<Node>, i: int, spot: Spot) -> Seq<RowView>
    decreases items, items.len() - i,
{
    if i < 0 || i >= items.len() {
        Seq::empty()
    } else if i >= NODE_CHILD_CAP {
        seq![more_row(spot, items.len())]
    } else {
        rows_of(tree, items[i], child_spot(spot, Seq::empty(), i)) + item_rows(
            tree,
            items,
            i + 1,
            spot,
        )
    }
}

/// How a tree is shown.
pub struct TreeRows<'a> {
    pub producer: &'a String,
    pub toggled: &'a Vec<String>,
    pub default_expand_depth: usize,
    /// The window whose exposures the rows toggle, where they do.
    pub trailing: Option<&'a AutomationsWindow>,
}

/// How a tree is shown, over sequences.
pub open spec fn tree_of(tree: TreeRows<'_>) -> Tree {
    Tree {
        producer: tree.producer@,
        toggled: text::texts(tree.toggled@),
        expand_depth: tree.default_expand_depth,
        drafts: match tree.trailing {
            Some(window) => Some(window@.state_exposures),
            None => None,
        },
    }
}

/// Adds a row.
fn push_row(rows: &mut Vec<TreeRow>, row: TreeRow)
    ensures
        rows_view(final(rows)@) == rows_view(old(rows)@) + seq![row@],
{
    let ghost before = rows@;
    rows.push(row);
    assert(rows_view(rows@) =~= rows_view(before) + seq![row@]);
}

/// One deeper.
fn one_deeper(depth: usize) -> (next: usize)
    ensures
        next == deeper(depth),
{
    if depth == usize::MAX {
        depth
    } else {
        depth + 1
    }
}

/// What a value without a key is told apart by.
fn place_key(key: &str, index: usize) -> (child: String)
    ensures
        child@ == key@ + "/["@ + text::decimal(index as nat) + "]"@,
{
    let number = decimal_text(index as u64);
    let start = join3(key, "/[", &number);
    join2(&start, "]")
}

/// Adds the rows of a value, and of what it holds where it is open.
pub fn json_rows(
    tree: &TreeRows<'_>,
    rows: &mut Vec<TreeRow>,
    key: &str,
    label: RowLabel,
    node: &Node,
    depth: usize,
    path: &mut Vec<String>,
    addressable: bool,
)
    ensures
        text::texts(final(path)@) == text::texts(old(path)@),
        rows_view(final(rows)@) == rows_view(old(rows)@) + rows_of(
            tree_of(*tree),
            *node,
            (Spot {
                key: key@,
                label: label@,
                depth,
                path: text::texts(old(path)@),
                addressable,
            }),
        ),
    decreases node,
{
    let ghost shown = tree_of(*tree);
    let ghost keys = text::texts(path@);
    let ghost spot = Spot { key: key@, label: label@, depth, path: keys, addressable };
    let ghost before = rows_view(rows@);
    let ghost given = *node;
    let ghost all = rows_of(shown, given, spot);
    let toggle: Option<RowToggle> = match tree.trailing {
        Some(window) => if addressable {
            window.state_row_toggle(tree.producer, path)
        } else {
            None
        },
        None => None,
    };
    match node {
        Node::Scalar(spelling) => {
            push_row(
                rows,
                TreeRow { depth, label, body: RowBody::Leaf(spelling.clone()), toggle },
            );
        },
        Node::Object(members) => {
            let node_key = join3(tree.producer, "\0", key);
            let turned = holds_name(tree.toggled, &node_key);
            let expanded: bool = (depth < tree.default_expand_depth) != turned;
            push_row(
                rows,
                TreeRow {
                    depth,
                    label,
                    body: RowBody::Branch { node_key, expanded, summary: value_line(node) },
                    toggle,
                },
            );
            if expanded {
                let ghost head = rows_view(rows@);
                let ghost held = members@;
                assert(head + member_rows(shown, held, 0, spot) =~= before + all);
                let mut i: usize = 0;
                while i < members.len() && i < NODE_CHILD_CAP
                    invariant
                        given == *node,
                        given == Node::Object(*members),
                        held == members@,
                        i <= members.len(),
                        i <= NODE_CHILD_CAP,
                        shown == tree_of(*tree),
                        spot.key == key@ && spot.depth == depth && spot.path == keys
                            && spot.addressable == addressable,
                        text::texts(path@) == keys,
                        rows_view(rows@) + member_rows(shown, held, i as int, spot) == before + all,
                    decreases members.len() - i,
                {
                    let member = &members[i];
                    let ghost so_far = rows_view(rows@);
                    let ghost child = child_spot(spot, member.0@, i as int);
                    let ghost later = member_rows(shown, held, i + 1, spot);
                    let ghost own = one_member(shown, held[i as int], i as int, spot);
                    assert(decreases_to!(given => given->Object_0));
                    assert(decreases_to!(given->Object_0 => members@));
                    assert(decreases_to!(members@ => members@[i as int]));
                    assert(decreases_to!(members@[i as int] => members@[i as int].1));
                    if is_empty_text(&member.0) {
                        let child_key = place_key(key, i);
                        json_rows(
                            tree,
                            rows,
                            &child_key,
                            RowLabel::Unkeyed,
                            &member.1,
                            one_deeper(depth),
                            path,
                            false,
                        );
                    } else {
                        let child_key = join3(key, "/", &member.0);
                        path.push(member.0.clone());
                        assert(text::texts(path@) =~= keys.push(member.0@));
                        json_rows(
                            tree,
                            rows,
                            &child_key,
                            RowLabel::Key(member.0.clone()),
                            &member.1,
                            one_deeper(depth),
                            path,
                            addressable,
                        );
                        let ghost grown = path@;
                        let gone = path.pop();
                        assert(text::texts(path@) =~= text::texts(grown).drop_last());
                        assert(keys.push(member.0@).drop_last() =~= keys);
                    }
                    assert(rows_view(rows@) == so_far + own);
                    assert(so_far + (own + later) =~= so_far + own + later);
                    i = i + 1;
                }
                if i < members.len() {
                    push_row(
                        rows,
                        TreeRow {
                            depth: one_deeper(depth),
                            label: RowLabel::Unkeyed,
                            body: RowBody::More(members.len() - NODE_CHILD_CAP),
                            toggle: None,
                        },
                    );
                } else {
                    assert(rows_view(rows@) + Seq::<RowView>::empty() =~= rows_view(rows@));
                }
            } else {
                assert(rows_view(rows@) =~= before + all);
            }
        },
        Node::Array(items) => {
            let node_key = join3(tree.producer, "\0", key);
            let turned = holds_name(tree.toggled, &node_key);
            let expanded: bool = (depth < tree.default_expand_depth) != turned;
            push_row(
                rows,
                TreeRow {
                    depth,
                    label,
                    body: RowBody::Branch { node_key, expanded, summary: value_line(node) },
                    toggle,
                },
            );
            if expanded {
                let ghost head = rows_view(rows@);
                let ghost held = items@;
                assert(head + item_rows(shown, held, 0, spot) =~= before + all);
                let mut i: usize = 0;
                while i < items.len() && i < NODE_CHILD_CAP
                    invariant
                        given == *node,
                        given == Node::Array(*items),
                        held == items@,
                        i <= items.len(),
                        i <= NODE_CHILD_CAP,
                        shown == tree_of(*tree),
                        spot.key == key@ && spot.depth == depth && spot.path == keys
                            && spot.addressable == addressable,
                        text::texts(path@) == keys,
                        rows_view(rows@) + item_rows(shown, held, i as int, spot) == before + all,
                    decreases items.len() - i,
                {
                    let ghost so_far = rows_view(rows@);
                    let ghost later = item_rows(shown, held, i + 1, spot);
                    let ghost own = rows_of(
                        shown,
                        held[i as int],
                        child_spot(spot, Seq::empty(), i as int),
                    );
                    assert(decreases_to!(given => given->Array_0));
                    assert(decreases_to!(given->Array_0 => items@));
                    assert(decreases_to!(items@ => items@[i as int]));
                    let child_key = place_key(key, i);
                    json_rows(
                        tree,
                        rows,
                        &child_key,
                        RowLabel::Unkeyed,
                        &items[i],
                        one_deeper(depth),
                        path,
                        false,
                    );
                    assert(rows_view(rows@) == so_far + own);
                    assert(so_far + (own + later) =~= so_far + own + later);
                    i = i + 1;
                }
                if i < items.len() {
                    push_row(
                        rows,
                        TreeRow {
                            depth: one_deeper(depth),
                            label: RowLabel::Unkeyed,
                            body: RowBody::More(items.len() - NODE_CHILD_CAP),
                            toggle: None,
                        },
                    );
                } else {
                    assert(rows_view(rows@) + Seq::<RowView>::empty() =~= rows_view(rows@));
                }
            } else {
                assert(rows_view(rows@) =~= before + all);
            }
        },
    }
}

/// A closed value has one row.
pub proof fn law_a_closed_value_has_one_row(tree: Tree, node: Node, spot: Spot)
    requires
        !is_expanded(tree, spot),
    ensures
        rows_of(tree, node, spot).len() == 1,
{
}

/// Nothing within an array has a toggle.
pub proof fn law_nothing_in_an_array_is_toggled(tree: Tree, node: Node, spot: Spot, i: int)
    requires
        !spot.addressable,
        0 <= i < rows_of(tree, node, spot).len(),
    ensures
        rows_of(tree, node, spot)[i].toggle is None,
    decreases node, 0int,
{
    let rows = rows_of(tree, node, spot);
    match node {
        Node::Scalar(_) => {},
        Node::Object(members) => {
            if i > 0 {
                lemma_members_not_toggled(tree, members@, 0, spot, i - 1);
                assert(rows[i] == member_rows(tree, members@, 0, spot)[i - 1]);
            }
        },
        Node::Array(items) => {
            if i > 0 {
                lemma_items_not_toggled(tree, items@, 0, spot, i - 1);
                assert(rows[i] == item_rows(tree, items@, 0, spot)[i - 1]);
            }
        },
    }
}

/// No member has a toggle where no keys lead.
proof fn lemma_members_not_toggled(
    tree: Tree,
    members: Seq<(String, Node)>,
    i: int,
    spot: Spot,
    k: int,
)
    requires
        !spot.addressable,
        0 <= k < member_rows(tree, members, i, spot).len(),
    ensures
        member_rows(tree, members, i, spot)[k].toggle is None,
    decreases members, members.len() - i,
{
    if i < NODE_CHILD_CAP {
        let own = one_member(tree, members[i], i, spot);
        if k < own.len() {
            lemma_member_not_toggled(tree, members[i], i, spot, k);
        } else {
            lemma_members_not_toggled(tree, members, i + 1, spot, k - own.len());
        }
    }
}

/// A member has no toggle where no keys lead.
proof fn lemma_member_not_toggled(tree: Tree, member: (String, Node), i: int, spot: Spot, k: int)
    requires
        !spot.addressable,
        0 <= k < one_member(tree, member, i, spot).len(),
    ensures
        one_member(tree, member, i, spot)[k].toggle is None,
    decreases member, 0int,
{
    law_nothing_in_an_array_is_toggled(tree, member.1, child_spot(spot, member.0@, i), k);
}

/// Nothing that an array holds has a toggle.
proof fn lemma_items_not_toggled(tree: Tree, items: Seq<Node>, i: int, spot: Spot, k: int)
    requires
        0 <= k < item_rows(tree, items, i, spot).len(),
    ensures
        item_rows(tree, items, i, spot)[k].toggle is None,
    decreases items, items.len() - i,
{
    if i < NODE_CHILD_CAP {
        let child = child_spot(spot, Seq::empty(), i);
        let own = rows_of(tree, items[i], child);
        if k < own.len() {
            law_nothing_in_an_array_is_toggled(tree, items[i], child, k);
        } else {
            lemma_items_not_toggled(tree, items, i + 1, spot, k - own.len());
        }
    }
}

} // verus!
