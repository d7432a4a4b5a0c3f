//! Families of copies.
//!
//! Areas are related when one was copied from the other, which only owners are
//! told, or when the server gave them the same token, which also groups copies
//! that others own.

use vstd::prelude::*;

use super::model::{AreaCache, AreaId, AtlasCache};
use crate::text::same_text;

verus! {

/// An area with what it was copied from.
pub type Edge = (AreaId, Option<AreaId>);

/// An area with the token of its family.
pub struct FamilyToken {
    pub area_id: AreaId,
    pub token: String,
}

/// An area as the server lists it.
pub struct ListedArea {
    pub id: AreaId,
    pub family_token: Option<String>,
}

/// The tokens that the server gave to areas. A token means something only
/// beside the others of the same list.
pub struct FamilyIndex {
    pub tokens: Vec<FamilyToken>,
}

/// Whether an area of a list has a token there, and none further on.
pub open spec fn is_told_last(areas: Seq<ListedArea>, i: int) -> bool {
    &&& 0 <= i < areas.len()
    &&& areas[i].family_token is Some
    &&& forall|j: int|
        i < j < areas.len() && (#[trigger] areas[j]).id == areas[i].id ==> areas[j].family_token is None
}

/// The areas among the first of a list that have a token, with the last that the whole
/// list gives them.
pub open spec fn tokens_among(areas: Seq<ListedArea>, count: nat) -> Seq<(AreaId, Seq<char>)>
    decreases count,
{
    if count == 0 {
        Seq::empty()
    } else {
        let i = count - 1;
        let before = tokens_among(areas, i as nat);
        if is_told_last(areas, i) {
            before.push((areas[i].id, areas[i].family_token->0@))
        } else {
            before
        }
    }
}

/// The areas that have a token, with it: the last, where a list gives more than one.
pub open spec fn tokens_of(areas: Seq<ListedArea>) -> Seq<(AreaId, Seq<char>)> {
    tokens_among(areas, areas.len())
}

proof fn lemma_tokens_among(areas: Seq<ListedArea>, count: nat, id: AreaId, token: Seq<char>)
    requires
        count <= areas.len(),
    ensures
        bears(tokens_among(areas, count), id, token) <==> exists|i: int|
            0 <= i < count && #[trigger] is_told_last(areas, i) && areas[i].id == id
                && areas[i].family_token->0@ == token,
    decreases count,
{
    if count > 0 {
        let last = count - 1;
        let before = tokens_among(areas, last as nat);
        let all = tokens_among(areas, count);
        lemma_tokens_among(areas, last as nat, id, token);
        if bears(all, id, token) {
            let k = choose|k: int| 0 <= k < all.len() && #[trigger] all[k] == (id, token);
            if k < before.len() {
                assert(before[k] == (id, token));
            } else {
                assert(is_told_last(areas, last));
            }
        }
        if bears(before, id, token) {
            let k = choose|k: int| 0 <= k < before.len() && #[trigger] before[k] == (id, token);
            assert(all[k] == (id, token));
        }
        if is_told_last(areas, last) {
            assert(all[before.len() as int] == (areas[last].id, areas[last].family_token->0@));
        }
    }
}

/// An area bears the token that a list gives it last, and no other.
pub proof fn law_an_area_bears_its_last_token(areas: Seq<ListedArea>, id: AreaId, token: Seq<char>)
    ensures
        bears(tokens_of(areas), id, token) <==> exists|i: int| #[trigger]
            is_told_last(areas, i) && areas[i].id == id && areas[i].family_token->0@ == token,
        forall|other: Seq<char>|
            bears(tokens_of(areas), id, token) && #[trigger] bears(tokens_of(areas), id, other) ==> other
                == token,
{
    lemma_tokens_among(areas, areas.len(), id, token);
    assert forall|other: Seq<char>|
        bears(tokens_of(areas), id, token) && #[trigger] bears(tokens_of(areas), id, other) implies other
        == token by {
        lemma_tokens_among(areas, areas.len(), id, other);
        let i = choose|i: int|
            0 <= i < areas.len() && #[trigger] is_told_last(areas, i) && areas[i].id == id
                && areas[i].family_token->0@ == token;
        let j = choose|j: int|
            0 <= j < areas.len() && #[trigger] is_told_last(areas, j) && areas[j].id == id
                && areas[j].family_token->0@ == other;
        if i < j {
            assert(areas[j].family_token is None);
        } else if j < i {
            assert(areas[i].family_token is None);
        }
    }
}

/// Whether an area of a list has a token there, and none further on.
fn told_last(areas: &Vec<ListedArea>, i: usize) -> (last: bool)
    requires
        i < areas.len(),
    ensures
        last == is_told_last(areas@, i as int),
{
    if areas[i].family_token.is_none() {
        return false;
    }
    for j in i + 1..areas.len()
        invariant
            i < areas.len(),
            areas[i as int].family_token is Some,
            forall|k: int|
                i < k < j && (#[trigger] areas@[k]).id == areas@[i as int].id ==> areas@[k].family_token is None,
    {
        if areas[j].id == areas[i].id && areas[j].family_token.is_some() {
            assert(areas@[j as int].family_token is Some);
            return false;
        }
    }
    true
}

/// The view of tokens.
pub open spec fn tokens_view(tokens: Seq<FamilyToken>) -> Seq<(AreaId, Seq<char>)> {
    tokens.map_values(|token: FamilyToken| (token.area_id, token.token@))
}

impl FamilyIndex {
    /// The index of a list of areas. An area without a token is in no family
    /// that could be shown.
    pub fn build(areas: &Vec<ListedArea>) -> (index: Self)
        ensures
            tokens_view(index.tokens@) == tokens_of(areas@),
    {
        let mut tokens: Vec<FamilyToken> = Vec::new();
        assert(tokens_view(tokens@) =~= Seq::empty());
        for i in 0..areas.len()
            invariant
                tokens_view(tokens@) == tokens_among(areas@, i as nat),
        {
            let ghost before = tokens@;
            if told_last(areas, i) {
                if let Some(token) = &areas[i].family_token {
                    tokens.push(FamilyToken { area_id: areas[i].id, token: token.clone() });
                    assert(tokens_view(tokens@) =~= tokens_view(before).push((areas[i as int].id, token@)));
                }
            }
        }
        FamilyIndex { tokens }
    }
}

/// Whether an area is cached.
pub open spec fn is_cached(areas: Seq<AreaCache>, id: AreaId) -> bool {
    exists|i: int| 0 <= i < areas.len() && (#[trigger] areas[i]).id == id
}

/// The cached areas, each with its source when that is cached too.
pub open spec fn cached_edges(areas: Seq<AreaCache>, sources: Seq<Option<AreaId>>) -> Seq<Edge> {
    Seq::new(
        areas.len(),
        |i: int|
            (
                areas[i].id,
                match source_of(sources, i) {
                    Some(source) => if is_cached(areas, source) {
                        Some(source)
                    } else {
                        None
                    },
                    None => None,
                },
            ),
    )
}

/// What the area at a place was copied from.
pub open spec fn source_of(sources: Seq<Option<AreaId>>, i: int) -> Option<AreaId> {
    if i < sources.len() {
        sources[i]
    } else {
        None
    }
}

/// The cached areas, each with its source when that is cached too; `sources`
/// holds what each was copied from, as far as it is known.
pub fn copied_from_edges(atlas: &AtlasCache, sources: &Vec<Option<AreaId>>) -> (edges: Vec<Edge>)
    ensures
        edges@ == cached_edges(atlas.areas@, sources@),
{
    let mut edges: Vec<Edge> = Vec::new();
    for i in 0..atlas.areas.len()
        invariant
            edges@ == cached_edges(atlas.areas@, sources@).take(i as int),
    {
        let known: Option<AreaId> = if i < sources.len() {
            sources[i]
        } else {
            None
        };
        let source = match known {
            Some(source) => {
                let mut found: bool = false;
                for k in 0..atlas.areas.len()
                    invariant
                        found == exists|j: int|
                            0 <= j < k && (#[trigger] atlas.areas@[j]).id == source,
                {
                    if atlas.areas[k].id == source {
                        found = true;
                    }
                }
                if found {
                    Some(source)
                } else {
                    None
                }
            },
            None => None,
        };
        edges.push((atlas.areas[i].id, source));
        assert(edges@ =~= cached_edges(atlas.areas@, sources@).take(i + 1));
    }
    assert(edges@ =~= cached_edges(atlas.areas@, sources@));
    edges
}

// ===== Relatedness =====

/// Whether one area was copied from another.
pub open spec fn copied(edges: Seq<Edge>, from: AreaId, to: AreaId) -> bool {
    exists|i: int| 0 <= i < edges.len() && #[trigger] edges[i] == (from, Some(to))
}

/// Whether an area has a token.
pub open spec fn bears(tokens: Seq<(AreaId, Seq<char>)>, id: AreaId, token: Seq<char>) -> bool {
    exists|i: int| 0 <= i < tokens.len() && #[trigger] tokens[i] == (id, token)
}

/// Whether two areas have a token in common.
pub open spec fn share_token(tokens: Seq<(AreaId, Seq<char>)>, a: AreaId, b: AreaId) -> bool {
    a != b && exists|token: Seq<char>| #[trigger] bears(tokens, a, token) && bears(tokens, b, token)
}

/// Whether two areas belong together directly.
pub open spec fn linked(
    edges: Seq<Edge>,
    tokens: Seq<(AreaId, Seq<char>)>,
    a: AreaId,
    b: AreaId,
) -> bool {
    copied(edges, a, b) || copied(edges, b, a) || share_token(tokens, a, b)
}

/// Whether each area of a list belongs together with the next.
pub open spec fn is_chain(
    edges: Seq<Edge>,
    tokens: Seq<(AreaId, Seq<char>)>,
    chain: Seq<AreaId>,
) -> bool {
    &&& chain.len() > 0
    &&& forall|i: int| 0 <= i < chain.len() - 1 ==> linked(edges, tokens, #[trigger] chain[i], chain[i + 1])
}

/// Whether a chain leads from one area to another.
pub open spec fn leads(
    edges: Seq<Edge>,
    tokens: Seq<(AreaId, Seq<char>)>,
    chain: Seq<AreaId>,
    a: AreaId,
    b: AreaId,
) -> bool {
    is_chain(edges, tokens, chain) && chain[0] == a && chain.last() == b
}

/// Whether two areas are of one family.
pub open spec fn related(
    edges: Seq<Edge>,
    tokens: Seq<(AreaId, Seq<char>)>,
    a: AreaId,
    b: AreaId,
) -> bool {
    exists|chain: Seq<AreaId>| #[trigger] leads(edges, tokens, chain, a, b)
}

proof fn lemma_linked_symmetric(
    edges: Seq<Edge>,
    tokens: Seq<(AreaId, Seq<char>)>,
    a: AreaId,
    b: AreaId,
)
    requires
        linked(edges, tokens, a, b),
    ensures
        linked(edges, tokens, b, a),
{
    if share_token(tokens, a, b) {
        let token = choose|token: Seq<char>| #[trigger]
            bears(tokens, a, token) && bears(tokens, b, token);
        assert(bears(tokens, b, token) && bears(tokens, a, token));
    }
}

/// Every area is of its own family.
pub proof fn law_an_area_is_of_its_own_family(
    edges: Seq<Edge>,
    tokens: Seq<(AreaId, Seq<char>)>,
    a: AreaId,
)
    ensures
        related(edges, tokens, a, a),
{
    assert(leads(edges, tokens, seq![a], a, a));
}

/// Being of one family goes both ways.
pub proof fn law_family_is_symmetric(
    edges: Seq<Edge>,
    tokens: Seq<(AreaId, Seq<char>)>,
    a: AreaId,
    b: AreaId,
)
    requires
        related(edges, tokens, a, b),
    ensures
        related(edges, tokens, b, a),
{
    let chain = choose|chain: Seq<AreaId>| #[trigger] leads(edges, tokens, chain, a, b);
    let back = chain.reverse();
    assert forall|i: int| 0 <= i < back.len() - 1 implies linked(
        edges,
        tokens,
        #[trigger] back[i],
        back[i + 1],
    ) by {
        let k = chain.len() - 2 - i;
        assert(linked(edges, tokens, chain[k], chain[k + 1]));
        lemma_linked_symmetric(edges, tokens, chain[k], chain[k + 1]);
    }
    assert(leads(edges, tokens, back, b, a));
}

/// The family of a relative is the same family.
pub proof fn law_family_is_transitive(
    edges: Seq<Edge>,
    tokens: Seq<(AreaId, Seq<char>)>,
    a: AreaId,
    b: AreaId,
    c: AreaId,
)
    requires
        related(edges, tokens, a, b),
        related(edges, tokens, b, c),
    ensures
        related(edges, tokens, a, c),
{
    let first = choose|chain: Seq<AreaId>| #[trigger] leads(edges, tokens, chain, a, b);
    let second = choose|chain: Seq<AreaId>| #[trigger] leads(edges, tokens, chain, b, c);
    let whole = first + second.skip(1);
    assert forall|i: int| 0 <= i < whole.len() - 1 implies linked(
        edges,
        tokens,
        #[trigger] whole[i],
        whole[i + 1],
    ) by {
        if i < first.len() - 1 {
            assert(linked(edges, tokens, first[i], first[i + 1]));
        } else {
            let k = i - first.len() + 1;
            assert(linked(edges, tokens, second[k], second[k + 1]));
            assert(whole[i + 1] == second[k + 1]);
            assert(whole[i] == second[k]);
        }
    }
    assert(whole.last() == c);
    assert(leads(edges, tokens, whole, a, c));
}

// ===== Families =====

/// Identities in ascending order, each once.
pub open spec fn is_ascending(ids: Seq<AreaId>) -> bool {
    forall|i: int, j: int| 0 <= i < j < ids.len() ==> (#[trigger] ids[i]).0 < (#[trigger] ids[j]).0
}

/// The family of an area, in order.
pub open spec fn is_family(
    family: Seq<AreaId>,
    edges: Seq<Edge>,
    tokens: Seq<(AreaId, Seq<char>)>,
    id: AreaId,
) -> bool {
    &&& is_ascending(family)
    &&& forall|other: AreaId| #[trigger]
        family.contains(other) <==> related(edges, tokens, id, other)
}

/// The family of an area.
pub open spec fn family_of(edges: Seq<Edge>, tokens: Seq<(AreaId, Seq<char>)>, id: AreaId) -> Seq<AreaId> {
    choose|family: Seq<AreaId>| is_family(family, edges, tokens, id)
}

/// There is only one family of an area.
pub proof fn lemma_family_of(
    family: Seq<AreaId>,
    edges: Seq<Edge>,
    tokens: Seq<(AreaId, Seq<char>)>,
    id: AreaId,
)
    requires
        is_family(family, edges, tokens, id),
    ensures
        family_of(edges, tokens, id) == family,
{
    let chosen = family_of(edges, tokens, id);
    assert(is_family(chosen, edges, tokens, id));
    assert forall|other: AreaId| #[trigger] chosen.contains(other) <==> family.contains(other) by {}
    lemma_ascending_unique(chosen, family);
}

/// Two ascending lists of the same identities are the same list.
proof fn lemma_ascending_unique(a: Seq<AreaId>, b: Seq<AreaId>)
    requires
        is_ascending(a),
        is_ascending(b),
        forall|id: AreaId| #[trigger] a.contains(id) <==> b.contains(id),
    ensures
        a == b,
    decreases a.len(),
{
    if a.len() == 0 {
        if b.len() > 0 {
            assert(b.contains(b[0]));
            assert(a.contains(b[0]));
        }
        assert(a =~= b);
    } else {
        assert(a.contains(a[0]));
        assert(b.contains(a[0]));
        let last_a = a.last();
        let last_b = b.last();
        assert(a.contains(last_a));
        assert(b.contains(last_b));
        assert(a.contains(last_b));
        let i = choose|i: int| 0 <= i < b.len() && b[i] == last_a;
        let j = choose|j: int| 0 <= j < a.len() && a[j] == last_b;
        assert(i < b.len() - 1 ==> b[i].0 < b[b.len() - 1].0);
        assert(j < a.len() - 1 ==> a[j].0 < a[a.len() - 1].0);
        assert(last_a == last_b);
        let c = a.drop_last();
        let d = b.drop_last();
        assert forall|id: AreaId| #[trigger] c.contains(id) <==> d.contains(id) by {
            if c.contains(id) {
                let k = choose|k: int| 0 <= k < c.len() && c[k] == id;
                assert(a[k] == id);
                assert(a.contains(id));
                let m = choose|m: int| 0 <= m < b.len() && b[m] == id;
                assert(a[k].0 < a[a.len() - 1].0);
                assert(d[m] == id);
            }
            if d.contains(id) {
                let k = choose|k: int| 0 <= k < d.len() && d[k] == id;
                assert(b[k] == id);
                assert(b.contains(id));
                assert(a.contains(id));
                let m = choose|m: int| 0 <= m < a.len() && a[m] == id;
                assert(b[k].0 < b[b.len() - 1].0);
                assert(c[m] == id);
            }
        }
        assert forall|x: int, y: int| 0 <= x < y < c.len() implies (#[trigger] c[x]).0 < (
        #[trigger] c[y]).0 by {
            assert(a[x].0 < a[y].0);
        }
        assert forall|x: int, y: int| 0 <= x < y < d.len() implies (#[trigger] d[x]).0 < (
        #[trigger] d[y]).0 by {
            assert(b[x].0 < b[y].0);
        }
        lemma_ascending_unique(c, d);
        assert(a =~= c.push(last_a));
        assert(b =~= d.push(last_b));
    }
}

/// Any member of a family resolves to the same family.
pub proof fn law_members_share_their_family(
    edges: Seq<Edge>,
    tokens: Seq<(AreaId, Seq<char>)>,
    a: AreaId,
    b: AreaId,
    family_a: Seq<AreaId>,
    family_b: Seq<AreaId>,
)
    requires
        is_family(family_a, edges, tokens, a),
        is_family(family_b, edges, tokens, b),
        family_a.contains(b),
    ensures
        family_a == family_b,
{
    law_family_is_symmetric(edges, tokens, a, b);
    assert forall|id: AreaId| #[trigger] family_a.contains(id) <==> family_b.contains(id) by {
        if related(edges, tokens, a, id) {
            law_family_is_transitive(edges, tokens, b, a, id);
        }
        if related(edges, tokens, b, id) {
            law_family_is_transitive(edges, tokens, a, b, id);
        }
    }
    lemma_ascending_unique(family_a, family_b);
}

/// Whether a list holds an identity.
fn holds(ids: &Vec<AreaId>, id: AreaId) -> (held: bool)
    ensures
        held == ids@.contains(id),
{
    for i in 0..ids.len()
        invariant
            forall|k: int| 0 <= k < i ==> ids@[k] != id,
    {
        if ids[i] == id {
            assert(ids@[i as int] == id);
            return true;
        }
    }
    false
}

/// Puts an identity into a list of distinct ones.
fn note(ids: &mut Vec<AreaId>, id: AreaId)
    requires
        old(ids)@.no_duplicates(),
    ensures
        final(ids)@.no_duplicates(),
        final(ids).len() >= old(ids).len(),
        forall|k: int| 0 <= k < old(ids).len() ==> final(ids)@[k] == old(ids)@[k],
        forall|other: AreaId| #[trigger]
            final(ids)@.contains(other) <==> old(ids)@.contains(other) || other == id,
{
    let ghost before = ids@;
    if !holds(ids, id) {
        ids.push(id);
        proof {
            assert forall|other: AreaId| #[trigger]
                ids@.contains(other) <==> before.contains(other) || other == id by {
                assert(ids@[before.len() as int] == id);
                if before.contains(other) {
                    let k = choose|k: int| 0 <= k < before.len() && before[k] == other;
                    assert(ids@[k] == other);
                }
            }
        }
    }
}

/// Puts an identity into an ascending list.
fn put_in_order(ids: &mut Vec<AreaId>, id: AreaId)
    requires
        is_ascending(old(ids)@),
    ensures
        is_ascending(final(ids)@),
        forall|other: AreaId| #[trigger]
            final(ids)@.contains(other) <==> old(ids)@.contains(other) || other == id,
{
    let ghost before = ids@;
    let mut i: usize = 0;
    while i < ids.len() && ids[i].0 < id.0
        invariant
            ids@ == before,
            i <= ids.len(),
            forall|k: int| 0 <= k < i ==> (#[trigger] before[k]).0 < id.0,
        ensures
            ids@ == before,
            i <= ids.len(),
            forall|k: int| 0 <= k < i ==> (#[trigger] before[k]).0 < id.0,
            i < before.len() ==> before[i as int].0 >= id.0,
        decreases ids.len() - i,
    {
        i = i + 1;
    }
    if i < ids.len() && ids[i].0 == id.0 {
        assert(before[i as int] == id);
        return ;
    }
    ids.insert(i, id);
    proof {
        assert forall|other: AreaId| #[trigger]
            ids@.contains(other) <==> before.contains(other) || other == id by {
            assert(ids@[i as int] == id);
            if before.contains(other) {
                let k = choose|k: int| 0 <= k < before.len() && before[k] == other;
                if k < i {
                    assert(ids@[k] == other);
                } else {
                    assert(ids@[k + 1] == other);
                }
            }
        }
        assert forall|x: int, y: int| 0 <= x < y < ids@.len() implies (#[trigger] ids@[x]).0 < (
        #[trigger] ids@[y]).0 by {
            let m = if x < i {
                x
            } else {
                x - 1
            };
            let n = if y < i {
                y
            } else {
                y - 1
            };
            if x != i && y != i {
                assert(before[m].0 < before[n].0);
            } else if x == i {
                assert(i < before.len());
                assert(before[i as int].0 <= before[n].0);
            }
        }
    }
}

/// The neighbors of `id` that a list of edges and tokens shows are noted.
pub open spec fn neighbors_noted(
    edges: Seq<Edge>,
    tokens: Seq<(AreaId, Seq<char>)>,
    id: AreaId,
    noted: Seq<AreaId>,
) -> bool {
    forall|other: AreaId| #[trigger] linked(edges, tokens, id, other) ==> noted.contains(other)
}

/// Notes the areas that edges link with `id`.
fn note_copies(edges: &Vec<Edge>, id: AreaId, noted: &mut Vec<AreaId>)
    requires
        old(noted)@.no_duplicates(),
    ensures
        final(noted)@.no_duplicates(),
        final(noted).len() >= old(noted).len(),
        forall|k: int| 0 <= k < old(noted).len() ==> final(noted)@[k] == old(noted)@[k],
        forall|other: AreaId| #[trigger]
            final(noted)@.contains(other) <==> old(noted)@.contains(other) || copied(
                edges@,
                id,
                other,
            ) || copied(edges@, other, id),
{
    let ghost before = noted@;
    for i in 0..edges.len()
        invariant
            noted@.no_duplicates(),
            noted.len() >= before.len(),
            forall|k: int| 0 <= k < before.len() ==> noted@[k] == before[k],
            forall|other: AreaId| #[trigger]
                noted@.contains(other) <==> before.contains(other) || copied(
                    edges@.take(i as int),
                    id,
                    other,
                ) || copied(edges@.take(i as int), other, id),
    {
        let ghost so_far = noted@;
        let (from, to) = edges[i];
        if let Some(to) = to {
            if from == id {
                note(noted, to);
            }
            if to == id {
                note(noted, from);
            }
        }
        proof {
            let some = edges@.take(i as int);
            let more = edges@.take(i + 1);
            assert(more =~= some.push(edges@[i as int]));
            assert forall|a: AreaId, b: AreaId| #[trigger] copied(more, a, b) <==> copied(
                some,
                a,
                b,
            ) || edges@[i as int] == (a, Some(b)) by {
                if copied(some, a, b) {
                    let k = choose|k: int| 0 <= k < some.len() && #[trigger] some[k] == (a, Some(b));
                    assert(more[k] == (a, Some(b)));
                }
                if edges@[i as int] == (a, Some(b)) {
                    assert(more[i as int] == (a, Some(b)));
                }
                if copied(more, a, b) {
                    let k = choose|k: int| 0 <= k < more.len() && #[trigger] more[k] == (a, Some(b));
                    if k < i {
                        assert(some[k] == (a, Some(b)));
                    }
                }
            }
        }
    }
    assert(edges@.take(edges.len() as int) =~= edges@);
}

/// Notes the areas that have a token in common with `id`.
fn note_bearers(tokens: &Vec<FamilyToken>, id: AreaId, noted: &mut Vec<AreaId>)
    requires
        old(noted)@.no_duplicates(),
    ensures
        final(noted)@.no_duplicates(),
        final(noted).len() >= old(noted).len(),
        forall|k: int| 0 <= k < old(noted).len() ==> final(noted)@[k] == old(noted)@[k],
        forall|other: AreaId| #[trigger]
            final(noted)@.contains(other) <==> old(noted)@.contains(other) || share_token(
                tokens_view(tokens@),
                id,
                other,
            ),
{
    let ghost before = noted@;
    let ghost all = tokens_view(tokens@);
    for i in 0..tokens.len()
        invariant
            all == tokens_view(tokens@),
            noted@.no_duplicates(),
            noted.len() >= before.len(),
            forall|k: int| 0 <= k < before.len() ==> noted@[k] == before[k],
            forall|other: AreaId| #[trigger]
                noted@.contains(other) <==> before.contains(other) || (other != id && exists|j: int|
                    0 <= j < i && bears(all, id, (#[trigger] all[j]).1) && all[j].0 == other),
    {
        let other = tokens[i].area_id;
        let ghost token = tokens@[i as int].token@;
        assert(all[i as int] == (other, token));
        if other != id {
            let mut shared: bool = false;
            for k in 0..tokens.len()
                invariant
                    all == tokens_view(tokens@),
                    i < tokens.len(),
                    token == tokens@[i as int].token@,
                    shared == exists|j: int| 0 <= j < k && #[trigger] all[j] == (id, token),
            {
                assert(all[k as int] == (tokens@[k as int].area_id, tokens@[k as int].token@));
                if tokens[k].area_id == id && same_text(&tokens[k].token, &tokens[i].token) {
                    shared = true;
                }
            }
            assert(shared == bears(all, id, token));
            if shared {
                note(noted, other);
            }
        }
    }
    proof {
        assert forall|other: AreaId| #[trigger]
            noted@.contains(other) <==> before.contains(other) || share_token(all, id, other) by {
            if other != id && exists|j: int|
                0 <= j < all.len() && bears(all, id, (#[trigger] all[j]).1) && all[j].0 == other {
                let j = choose|j: int|
                    0 <= j < all.len() && bears(all, id, (#[trigger] all[j]).1) && all[j].0
                        == other;
                assert(all[j] == (other, all[j].1));
                assert(bears(all, id, all[j].1) && bears(all, other, all[j].1));
                assert(share_token(all, id, other));
            }
            if share_token(all, id, other) {
                let token = choose|token: Seq<char>| #[trigger]
                    bears(all, id, token) && bears(all, other, token);
                let j = choose|j: int| 0 <= j < all.len() && #[trigger] all[j] == (other, token);
                assert(bears(all, id, all[j].1) && all[j].0 == other);
            }
        }
    }
}

/// Every area that edges or tokens name, and `id`.
pub open spec fn named(
    edges: Seq<Edge>,
    tokens: Seq<(AreaId, Seq<char>)>,
    id: AreaId,
) -> Seq<AreaId> {
    seq![id] + edges.map_values(|edge: Edge| edge.0) + edges.map_values(
        |edge: Edge|
            match edge.1 {
                Some(to) => to,
                None => edge.0,
            },
    ) + tokens.map_values(|token: (AreaId, Seq<char>)| token.0)
}

proof fn lemma_named(
    edges: Seq<Edge>,
    tokens: Seq<(AreaId, Seq<char>)>,
    id: AreaId,
    a: AreaId,
    b: AreaId,
)
    requires
        linked(edges, tokens, a, b),
    ensures
        named(edges, tokens, id).contains(b),
{
    let all = named(edges, tokens, id);
    if copied(edges, a, b) {
        let i = choose|i: int| 0 <= i < edges.len() && #[trigger] edges[i] == (a, Some(b));
        assert(all[1 + edges.len() + i] == b);
    } else if copied(edges, b, a) {
        let i = choose|i: int| 0 <= i < edges.len() && #[trigger] edges[i] == (b, Some(a));
        assert(all[1 + i] == b);
    } else {
        let token = choose|token: Seq<char>| #[trigger]
            bears(tokens, a, token) && bears(tokens, b, token);
        let i = choose|i: int| 0 <= i < tokens.len() && #[trigger] tokens[i] == (b, token);
        assert(all[1 + 2 * edges.len() + i] == b);
    }
}

/// Distinct areas out of a list are no more than the list.
proof fn lemma_distinct_within(some: Seq<AreaId>, all: Seq<AreaId>)
    requires
        some.no_duplicates(),
        forall|id: AreaId| #[trigger] some.contains(id) ==> all.contains(id),
    ensures
        some.len() <= all.len(),
{
    some.unique_seq_to_set();
    all.lemma_cardinality_of_set();
    assert(some.to_set().subset_of(all.to_set())) by {
        assert forall|id: AreaId| some.to_set().contains(id) implies all.to_set().contains(id) by {
            assert(some.contains(id));
        }
    }
    vstd::seq_lib::seq_to_set_is_finite(all);
    vstd::set_lib::lemma_len_subset(some.to_set(), all.to_set());
}

/// What a chain from `id` reaches is in every list that holds `id` and the
/// neighbors of all it holds.
proof fn lemma_closed(
    edges: Seq<Edge>,
    tokens: Seq<(AreaId, Seq<char>)>,
    seen: Seq<AreaId>,
    chain: Seq<AreaId>,
    k: int,
)
    requires
        is_chain(edges, tokens, chain),
        0 <= k < chain.len(),
        seen.contains(chain[0]),
        forall|a: AreaId, b: AreaId|
            seen.contains(a) && #[trigger] linked(edges, tokens, a, b) ==> seen.contains(b),
    ensures
        seen.contains(chain[k]),
    decreases k,
{
    if k > 0 {
        lemma_closed(edges, tokens, seen, chain, k - 1);
        assert(linked(edges, tokens, chain[k - 1], chain[k - 1 + 1]));
    }
}

/// The family of `area_id`, in ascending order of identities: all areas that a
/// chain of copies and common tokens links with it, itself included.
pub fn copy_family_in(edges: &Vec<Edge>, tokens: &Vec<FamilyToken>, area_id: AreaId) -> (family: Vec<
    AreaId,
>)
    ensures
        is_family(family@, edges@, tokens_view(tokens@), area_id),
{
    let ghost links = tokens_view(tokens@);
    let ghost all = named(edges@, links, area_id);
    let mut seen: Vec<AreaId> = Vec::new();
    seen.push(area_id);
    let mut next: usize = 0;
    proof {
        law_an_area_is_of_its_own_family(edges@, links, area_id);
        assert(all[0] == area_id);
    }
    while next < seen.len()
        invariant
            links == tokens_view(tokens@),
            all == named(edges@, links, area_id),
            next <= seen.len(),
            seen@.no_duplicates(),
            seen@.contains(area_id),
            forall|id: AreaId| #[trigger]
                seen@.contains(id) ==> related(edges@, links, area_id, id) && all.contains(id),
            forall|k: int|
                0 <= k < next ==> neighbors_noted(edges@, links, #[trigger] seen@[k], seen@),
        decreases all.len() - next,
    {
        let ghost before = seen@;
        let id = seen[next];
        assert(seen@.contains(id)) by {
            assert(seen@[next as int] == id);
        }
        note_copies(edges, id, &mut seen);
        let ghost middle = seen@;
        note_bearers(tokens, id, &mut seen);
        proof {
            assert(seen@.contains(area_id)) by {
                assert(before.contains(area_id));
                assert(middle.contains(area_id));
            }
            assert forall|other: AreaId| #[trigger] seen@.contains(other) implies related(
                edges@,
                links,
                area_id,
                other,
            ) && all.contains(other) by {
                if !before.contains(other) {
                    assert(middle.contains(other) || share_token(links, id, other));
                    assert(linked(edges@, links, id, other));
                    assert(leads(edges@, links, seq![id, other], id, other));
                    law_family_is_transitive(edges@, links, area_id, id, other);
                    lemma_named(edges@, links, area_id, id, other);
                }
            }
            assert forall|k: int| 0 <= k < next + 1 implies neighbors_noted(
                edges@,
                links,
                #[trigger] seen@[k],
                seen@,
            ) by {
                assert forall|other: AreaId| #[trigger]
                    linked(edges@, links, seen@[k], other) implies seen@.contains(other) by {
                    if k < next {
                        assert(seen@[k] == middle[k] && middle[k] == before[k]);
                        assert(neighbors_noted(edges@, links, before[k], before));
                        assert(before.contains(other));
                        assert(middle.contains(other));
                    } else {
                        assert(seen@[k] == id);
                        if copied(edges@, id, other) || copied(edges@, other, id) {
                            assert(middle.contains(other));
                        }
                    }
                }
            }
            assert(before.len() <= all.len()) by {
                lemma_distinct_within(before, all);
            }
        }
        next = next + 1;
    }
    let mut family: Vec<AreaId> = Vec::new();
    for i in 0..seen.len()
        invariant
            is_ascending(family@),
            forall|id: AreaId| #[trigger]
                family@.contains(id) <==> exists|k: int| 0 <= k < i && #[trigger] seen@[k] == id,
    {
        let ghost before = family@;
        put_in_order(&mut family, seen[i]);
        proof {
            assert forall|id: AreaId| #[trigger]
                family@.contains(id) <==> exists|k: int| 0 <= k < i + 1 && #[trigger] seen@[k] == id by {
                if id == seen@[i as int] {
                    assert(seen@[i as int] == id);
                }
            }
        }
    }
    proof {
        assert forall|a: AreaId, b: AreaId|
            seen@.contains(a) && #[trigger] linked(edges@, links, a, b) implies seen@.contains(
            b,
        ) by {
            let k = choose|k: int| 0 <= k < seen@.len() && seen@[k] == a;
            assert(neighbors_noted(edges@, links, seen@[k], seen@));
        }
        assert forall|other: AreaId| #[trigger] family@.contains(other) <==> related(
            edges@,
            links,
            area_id,
            other,
        ) by {
            if family@.contains(other) {
                let k = choose|k: int| 0 <= k < seen@.len() && #[trigger] seen@[k] == other;
                assert(seen@.contains(other));
            }
            if related(edges@, links, area_id, other) {
                let chain = choose|chain: Seq<AreaId>| #[trigger]
                    leads(edges@, links, chain, area_id, other);
                lemma_closed(edges@, links, seen@, chain, chain.len() - 1);
                assert(seen@.contains(other));
                let k = choose|k: int| 0 <= k < seen@.len() && seen@[k] == other;
                assert(seen@[k] == other);
            }
        }
    }
    family
}

/// Whether an area is linked with any.
pub open spec fn has_link(
    edges: Seq<Edge>,
    tokens: Seq<(AreaId, Seq<char>)>,
    id: AreaId,
) -> bool {
    exists|other: AreaId| #[trigger] linked(edges, tokens, id, other)
}

/// Whether an area is one of the two that an edge links.
pub open spec fn touches(edge: Edge, id: AreaId) -> bool {
    edge.1 is Some && (edge.0 == id || edge.1 == Some(id))
}

/// The areas that are linked with any, in ascending order of identities: those
/// that the list of areas marks as copies.
pub fn family_members_in(edges: &Vec<Edge>, tokens: &Vec<FamilyToken>) -> (members: Vec<AreaId>)
    ensures
        is_ascending(members@),
        forall|id: AreaId| #[trigger]
            members@.contains(id) <==> has_link(edges@, tokens_view(tokens@), id),
{
    let ghost links = tokens_view(tokens@);
    let mut members: Vec<AreaId> = Vec::new();
    for i in 0..edges.len()
        invariant
            is_ascending(members@),
            forall|id: AreaId| #[trigger]
                members@.contains(id) <==> exists|k: int|
                    0 <= k < i && touches(#[trigger] edges@[k], id),
    {
        let ghost before = members@;
        let (from, to) = edges[i];
        if let Some(to) = to {
            put_in_order(&mut members, from);
            put_in_order(&mut members, to);
        }
        proof {
            assert forall|id: AreaId| #[trigger]
                members@.contains(id) <==> exists|k: int|
                    0 <= k < i + 1 && touches(#[trigger] edges@[k], id) by {
                if touches(edges@[i as int], id) {
                    assert(0 <= i < i + 1 && touches(edges@[i as int], id));
                }
                if before.contains(id) {
                    let k = choose|k: int| 0 <= k < i && touches(#[trigger] edges@[k], id);
                    assert(0 <= k < i + 1 && touches(edges@[k], id));
                }
            }
        }
    }
    let ghost copies = members@;
    for i in 0..tokens.len()
        invariant
            links == tokens_view(tokens@),
            is_ascending(members@),
            forall|id: AreaId| #[trigger]
                members@.contains(id) <==> copies.contains(id) || exists|j: int, k: int|
                    0 <= j < i && 0 <= k < links.len() && (#[trigger] links[j]).0 == id && (
                    #[trigger] links[k]).0 != id && links[k].1 == links[j].1,
    {
        let ghost before = members@;
        let id = tokens[i].area_id;
        let ghost token = tokens@[i as int].token@;
        assert(links[i as int] == (id, token));
        let mut shared: bool = false;
        for k in 0..tokens.len()
            invariant
                links == tokens_view(tokens@),
                i < tokens.len(),
                token == tokens@[i as int].token@,
                shared == exists|j: int|
                    0 <= j < k && (#[trigger] links[j]).0 != id && links[j].1 == token,
        {
            assert(links[k as int] == (tokens@[k as int].area_id, tokens@[k as int].token@));
            if tokens[k].area_id != id && same_text(&tokens[k].token, &tokens[i].token) {
                shared = true;
            }
        }
        if shared {
            put_in_order(&mut members, id);
        }
        proof {
            assert forall|member: AreaId| #[trigger]
                members@.contains(member) <==> copies.contains(member) || exists|j: int, k: int|
                    0 <= j < i + 1 && 0 <= k < links.len() && (#[trigger] links[j]).0 == member && (
                    #[trigger] links[k]).0 != member && links[k].1 == links[j].1 by {
                if shared && member == id {
                    let k = choose|k: int|
                        0 <= k < links.len() && (#[trigger] links[k]).0 != id && links[k].1
                            == token;
                    assert(links[i as int].0 == member && links[k].0 != member && links[k].1
                        == links[i as int].1);
                }
                if before.contains(member) && !copies.contains(member) {
                    let (j, k) = choose|j: int, k: int|
                        0 <= j < i && 0 <= k < links.len() && (#[trigger] links[j]).0 == member && (
                        #[trigger] links[k]).0 != member && links[k].1 == links[j].1;
                    assert(links[j].0 == member && links[k].0 != member);
                }
            }
        }
    }
    proof {
        assert forall|id: AreaId| #[trigger] members@.contains(id) <==> has_link(
            edges@,
            links,
            id,
        ) by {
            if copies.contains(id) {
                let k = choose|k: int| 0 <= k < edges@.len() && touches(#[trigger] edges@[k], id);
                let (from, to) = edges@[k];
                assert(edges@[k] == (from, Some(to->0)));
                assert(copied(edges@, from, to->0));
                let other = if from == id {
                    to->0
                } else {
                    from
                };
                assert(linked(edges@, links, id, other));
            }
            if exists|j: int, k: int|
                0 <= j < links.len() && 0 <= k < links.len() && (#[trigger] links[j]).0 == id && (
                #[trigger] links[k]).0 != id && links[k].1 == links[j].1 {
                let (j, k) = choose|j: int, k: int|
                    0 <= j < links.len() && 0 <= k < links.len() && (#[trigger] links[j]).0 == id
                        && (#[trigger] links[k]).0 != id && links[k].1 == links[j].1;
                let token = links[j].1;
                assert(links[j] == (id, token));
                assert(links[k] == (links[k].0, token));
                assert(bears(links, id, token) && bears(links, links[k].0, token));
                assert(linked(edges@, links, id, links[k].0));
            }
            if has_link(edges@, links, id) {
                let other = choose|other: AreaId| #[trigger] linked(edges@, links, id, other);
                if copied(edges@, id, other) {
                    let k = choose|k: int|
                        0 <= k < edges@.len() && #[trigger] edges@[k] == (id, Some(other));
                    assert(touches(edges@[k], id));
                    assert(copies.contains(id));
                } else if copied(edges@, other, id) {
                    let k = choose|k: int|
                        0 <= k < edges@.len() && #[trigger] edges@[k] == (other, Some(id));
                    assert(touches(edges@[k], id));
                    assert(copies.contains(id));
                } else {
                    let token = choose|token: Seq<char>| #[trigger]
                        bears(links, id, token) && bears(links, other, token);
                    let j = choose|j: int| 0 <= j < links.len() && #[trigger] links[j] == (id, token);
                    let k = choose|k: int|
                        0 <= k < links.len() && #[trigger] links[k] == (other, token);
                    assert(links[j].0 == id && links[k].0 != id && links[k].1 == links[j].1);
                }
            }
        }
    }
    members
}

} // verus!
