//! Sequences: the first match, pieces laid end to end, and stable insertion
//! order.

use vstd::prelude::*;

verus! {

/// Whether `i` is the first place in `s` whose element satisfies `p`.
pub open spec fn is_first<T>(s: Seq<T>, p: spec_fn(T) -> bool, i: int) -> bool {
    &&& 0 <= i < s.len()
    &&& p(s[i])
    &&& forall|j: int| 0 <= j < i ==> !p(#[trigger] s[j])
}

/// The first element of `s` that satisfies `p`.
pub open spec fn first<T>(s: Seq<T>, p: spec_fn(T) -> bool) -> Option<T> {
    if exists|i: int| is_first(s, p, i) {
        Some(s[choose|i: int| is_first(s, p, i)])
    } else {
        None
    }
}

/// The first place in `s` whose element satisfies `p`.
pub open spec fn place<T>(s: Seq<T>, p: spec_fn(T) -> bool) -> Option<int> {
    if exists|i: int| is_first(s, p, i) {
        Some(choose|i: int| is_first(s, p, i))
    } else {
        None
    }
}

/// There is only one first matching place.
pub proof fn lemma_place<T>(s: Seq<T>, p: spec_fn(T) -> bool, i: int)
    requires
        is_first(s, p, i),
    ensures
        place(s, p) == Some(i),
{
    let c = choose|k: int| is_first(s, p, k);
    assert(is_first(s, p, c));
    if c < i {
        assert(p(s[c]));
    }
    if i < c {
        assert(p(s[i]));
    }
}

/// The first match is the element at the first matching place.
pub proof fn lemma_first<T>(s: Seq<T>, p: spec_fn(T) -> bool, i: int)
    requires
        is_first(s, p, i),
    ensures
        first(s, p) == Some(s[i]),
{
    let c = choose|k: int| is_first(s, p, k);
    assert(is_first(s, p, c));
    if c < i {
        assert(p(s[c]));
    }
    if i < c {
        assert(p(s[i]));
    }
}

/// There is a first match exactly when some element matches.
pub proof fn lemma_first_exists<T>(s: Seq<T>, p: spec_fn(T) -> bool)
    ensures
        first(s, p) is Some <==> exists|i: int| 0 <= i < s.len() && p(#[trigger] s[i]),
        first(s, p) matches Some(x) ==> p(x) && s.contains(x),
    decreases s.len(),
{
    if s.len() > 0 {
        let rest = s.drop_last();
        lemma_first_exists(rest, p);
        if exists|i: int| 0 <= i < rest.len() && p(#[trigger] rest[i]) {
            let k = choose|k: int| is_first(rest, p, k);
            assert(is_first(rest, p, k));
            assert forall|j: int| 0 <= j < k implies !p(#[trigger] s[j]) by {
                assert(s[j] == rest[j]);
            }
            assert(s[k] == rest[k]);
            assert(is_first(s, p, k));
            lemma_first(s, p, k);
        } else if p(s.last()) {
            let k = s.len() - 1;
            assert forall|j: int| 0 <= j < k implies !p(#[trigger] s[j]) by {
                assert(s[j] == rest[j]);
            }
            assert(is_first(s, p, k));
            lemma_first(s, p, k);
        } else {
            assert forall|i: int| 0 <= i < s.len() implies !p(#[trigger] s[i]) by {
                if i < rest.len() {
                    assert(s[i] == rest[i]);
                }
            }
        }
    }
}

/// The pieces `f` makes of the elements of `s`, laid end to end in order.
pub open spec fn collect<A, B>(s: Seq<A>, f: spec_fn(A) -> Seq<B>) -> Seq<B>
    decreases s.len(),
{
    if s.len() == 0 {
        Seq::empty()
    } else {
        collect(s.drop_last(), f) + f(s.last())
    }
}

/// One more element adds its piece at the end.
pub proof fn lemma_collect_step<A, B>(s: Seq<A>, f: spec_fn(A) -> Seq<B>, i: int)
    requires
        0 <= i < s.len(),
    ensures
        collect(s.take(i + 1), f) == collect(s.take(i), f) + f(s[i]),
{
    assert(s.take(i + 1).drop_last() =~= s.take(i));
}

/// Two piece makers that agree on the elements give the same pieces.
pub proof fn lemma_collect_same<A, B>(s: Seq<A>, f: spec_fn(A) -> Seq<B>, g: spec_fn(A) -> Seq<B>)
    requires
        forall|i: int| 0 <= i < s.len() ==> f(#[trigger] s[i]) == g(s[i]),
    ensures
        collect(s, f) == collect(s, g),
    decreases s.len(),
{
    if s.len() > 0 {
        let rest = s.drop_last();
        assert forall|i: int| 0 <= i < rest.len() implies f(#[trigger] rest[i]) == g(rest[i]) by {
            assert(rest[i] == s[i]);
        }
        lemma_collect_same(rest, f, g);
        assert(f(s[s.len() - 1]) == g(s[s.len() - 1]));
    }
}

/// Every element of the pieces belongs to the piece of some element.
pub proof fn lemma_collect_source<A, B>(s: Seq<A>, f: spec_fn(A) -> Seq<B>, k: int)
    requires
        0 <= k < collect(s, f).len(),
    ensures
        exists|i: int|
            0 <= i < s.len() && (#[trigger] f(s[i])).contains(collect(s, f)[k]),
    decreases s.len(),
{
    let rest = s.drop_last();
    let before = collect(rest, f);
    if k < before.len() {
        lemma_collect_source(rest, f, k);
        let i = choose|i: int| 0 <= i < rest.len() && (#[trigger] f(rest[i])).contains(before[k]);
        assert(rest[i] == s[i]);
        assert(f(s[i]).contains(collect(s, f)[k]));
    } else {
        let last = s.len() - 1;
        assert(f(s[last])[k - before.len()] == collect(s, f)[k]);
        assert(f(s[last]).contains(collect(s, f)[k]));
    }
}

/// Every element of the piece of an element is among the pieces.
pub proof fn lemma_collect_contains<A, B>(s: Seq<A>, f: spec_fn(A) -> Seq<B>, i: int, x: B)
    requires
        0 <= i < s.len(),
        f(s[i]).contains(x),
    ensures
        collect(s, f).contains(x),
    decreases s.len(),
{
    let rest = s.drop_last();
    if i < rest.len() {
        assert(rest[i] == s[i]);
        lemma_collect_contains(rest, f, i, x);
        let k = collect(rest, f).index_of(x);
        assert(collect(s, f)[k] == x);
    } else {
        let k = f(s.last()).index_of(x);
        assert(collect(s, f)[collect(rest, f).len() + k] == x);
    }
}

/// An element that one element alone has in its piece is among the pieces exactly when
/// that element is in the list.
pub proof fn lemma_collect_one<A, B>(s: Seq<A>, f: spec_fn(A) -> Seq<B>, source: A, x: B)
    requires
        f(source) == seq![x],
        forall|a: A| (#[trigger] f(a)).contains(x) ==> a == source,
    ensures
        collect(s, f).contains(x) <==> s.contains(source),
{
    if s.contains(source) {
        let i = choose|i: int| 0 <= i < s.len() && s[i] == source;
        assert(seq![x][0] == x);
        lemma_collect_contains(s, f, i, x);
    }
    if collect(s, f).contains(x) {
        let k = choose|k: int| 0 <= k < collect(s, f).len() && collect(s, f)[k] == x;
        lemma_collect_source(s, f, k);
    }
}

/// `x` put into `s` before the first element it comes before.
pub open spec fn inserted<T>(s: Seq<T>, x: T, less: spec_fn(T, T) -> bool) -> Seq<T>
    decreases s.len(),
{
    if s.len() == 0 {
        seq![x]
    } else if less(x, s.last()) {
        inserted(s.drop_last(), x, less).push(s.last())
    } else {
        s.push(x)
    }
}

/// The elements of `s` in the order `less`, equal ones in their given order.
pub open spec fn in_order<T>(s: Seq<T>, less: spec_fn(T, T) -> bool) -> Seq<T>
    decreases s.len(),
{
    if s.len() == 0 {
        Seq::empty()
    } else {
        inserted(in_order(s.drop_last(), less), s.last(), less)
    }
}

proof fn lemma_inserted_holds<T>(s: Seq<T>, x: T, less: spec_fn(T, T) -> bool, y: T)
    ensures
        inserted(s, x, less).contains(y) <==> (s.contains(y) || x == y),
        inserted(s, x, less).len() == s.len() + 1,
    decreases s.len(),
{
    let all = inserted(s, x, less);
    if s.len() == 0 {
        assert(all[0] == x);
    } else if less(x, s.last()) {
        let rest = s.drop_last();
        let before = inserted(rest, x, less);
        lemma_inserted_holds(rest, x, less, y);
        assert(all == before.push(s.last()));
        if all.contains(y) {
            let k = choose|k: int| 0 <= k < all.len() && all[k] == y;
            if k < before.len() {
                assert(before[k] == y);
                if rest.contains(y) {
                    let i = choose|i: int| 0 <= i < rest.len() && rest[i] == y;
                    assert(s[i] == y);
                }
            } else {
                assert(s[s.len() - 1] == y);
            }
        }
        if s.contains(y) || x == y {
            if s.contains(y) {
                let i = choose|i: int| 0 <= i < s.len() && s[i] == y;
                if i < rest.len() {
                    assert(rest[i] == y);
                } else {
                    assert(all[before.len() as int] == y);
                }
            }
            if before.contains(y) {
                let k = choose|k: int| 0 <= k < before.len() && before[k] == y;
                assert(all[k] == y);
            }
        }
    } else {
        assert(all == s.push(x));
        assert(all[s.len() as int] == x);
        if s.contains(y) {
            let i = choose|i: int| 0 <= i < s.len() && s[i] == y;
            assert(all[i] == y);
        }
        if all.contains(y) {
            let k = choose|k: int| 0 <= k < all.len() && all[k] == y;
            if k < s.len() {
                assert(s[k] == y);
            }
        }
    }
}

/// Putting elements in order loses none and adds none.
pub proof fn lemma_in_order_holds<T>(s: Seq<T>, less: spec_fn(T, T) -> bool, x: T)
    ensures
        in_order(s, less).contains(x) <==> s.contains(x),
        in_order(s, less).len() == s.len(),
    decreases s.len(),
{
    if s.len() > 0 {
        let rest = s.drop_last();
        lemma_in_order_holds(rest, less, x);
        lemma_inserted_holds(in_order(rest, less), s.last(), less, x);
        if s.contains(x) {
            let i = choose|i: int| 0 <= i < s.len() && s[i] == x;
            if i < rest.len() {
                assert(rest[i] == x);
            }
        }
        if rest.contains(x) {
            let i = choose|i: int| 0 <= i < rest.len() && rest[i] == x;
            assert(s[i] == x);
        }
        assert(s[s.len() - 1] == s.last());
    }
}

/// Whether no element of `s` comes before an earlier one.
pub open spec fn is_ordered<T>(s: Seq<T>, less: spec_fn(T, T) -> bool) -> bool {
    forall|i: int, j: int| 0 <= i < j < s.len() ==> !less(#[trigger] s[j], #[trigger] s[i])
}

/// Whether `less` is irreflexive and puts any two elements the same way round
/// against a third: the comparison of a key in a total order.
pub open spec fn is_weak_order<T>(less: spec_fn(T, T) -> bool) -> bool {
    &&& forall|a: T, b: T| #[trigger] less(a, b) ==> !less(b, a)
    &&& forall|a: T, b: T, c: T| #[trigger] less(a, b) && #[trigger] less(b, c) ==> less(a, c)
    &&& forall|a: T, b: T, c: T|
        #![trigger less(a, b), less(b, c)]
        !less(a, b) && !less(b, c) ==> !less(a, c)
}

proof fn lemma_inserted<T>(s: Seq<T>, x: T, less: spec_fn(T, T) -> bool)
    requires
        is_weak_order(less),
        is_ordered(s, less),
    ensures
        is_ordered(inserted(s, x, less), less),
        inserted(s, x, less).to_multiset() =~= s.to_multiset().insert(x),
        inserted(s, x, less).len() == s.len() + 1,
        forall|i: int|
            0 <= i < inserted(s, x, less).len() ==> (#[trigger] inserted(s, x, less)[i] == x
                || s.contains(inserted(s, x, less)[i])),
    decreases s.len(),
{
    broadcast use vstd::seq_lib::group_to_multiset_ensures;

    let r = inserted(s, x, less);
    if s.len() == 0 {
        assert(s.push(x) =~= seq![x]);
    } else if less(x, s.last()) {
        let rest = s.drop_last();
        lemma_inserted(rest, x, less);
        let inner = inserted(rest, x, less);
        assert(rest.push(s.last()) =~= s);
        assert(r =~= inner.push(s.last()));
        assert forall|i: int, j: int| 0 <= i < j < r.len() implies !less(
            #[trigger] r[j],
            #[trigger] r[i],
        ) by {
            if j < inner.len() {
                assert(r[j] == inner[j] && r[i] == inner[i]);
            } else {
                assert(r[i] == inner[i]);
                if inner[i] == x {
                } else {
                    let k = rest.index_of(inner[i]);
                    assert(s[k] == inner[i] && s[s.len() - 1] == s.last());
                }
            }
        }
        assert forall|i: int| 0 <= i < r.len() implies (#[trigger] r[i] == x || s.contains(r[i])) by {
            if i < inner.len() {
                assert(r[i] == inner[i]);
                if inner[i] != x {
                    let k = rest.index_of(inner[i]);
                    assert(s[k] == inner[i]);
                }
            } else {
                assert(s[s.len() - 1] == r[i]);
            }
        }
        assert(r.to_multiset() =~= inner.to_multiset().insert(s.last()));
        assert(s.to_multiset() =~= rest.to_multiset().insert(s.last()));
    } else {
        assert forall|i: int, j: int| 0 <= i < j < r.len() implies !less(
            #[trigger] r[j],
            #[trigger] r[i],
        ) by {
            if j < s.len() {
                assert(r[j] == s[j] && r[i] == s[i]);
            } else {
                assert(r[i] == s[i]);
                let last = s.len() - 1;
                if i < last {
                    assert(!less(s[last], s[i]));
                    assert(!less(x, s[last]));
                }
            }
        }
        assert forall|i: int| 0 <= i < r.len() implies (#[trigger] r[i] == x || s.contains(r[i])) by {
            if i < s.len() {
                assert(s[i] == r[i]);
            }
        }
    }
}

/// Putting elements in order loses none, adds none, and leaves no element
/// before one that should precede it.
pub proof fn lemma_in_order<T>(s: Seq<T>, less: spec_fn(T, T) -> bool)
    requires
        is_weak_order(less),
    ensures
        is_ordered(in_order(s, less), less),
        in_order(s, less).to_multiset() =~= s.to_multiset(),
        in_order(s, less).len() == s.len(),
    decreases s.len(),
{
    broadcast use vstd::seq_lib::group_to_multiset_ensures;

    if s.len() > 0 {
        let rest = s.drop_last();
        lemma_in_order(rest, less);
        lemma_inserted(in_order(rest, less), s.last(), less);
        assert(rest.push(s.last()) =~= s);
        assert(s.to_multiset() =~= rest.to_multiset().insert(s.last()));
    }
}

/// Two lists in order that hold the same elements are the same list, when no two
/// elements of it tie.
pub proof fn lemma_same_order<T>(a: Seq<T>, b: Seq<T>, less: spec_fn(T, T) -> bool)
    requires
        is_ordered(a, less),
        is_ordered(b, less),
        a.to_multiset() =~= b.to_multiset(),
        forall|x: T, y: T|
            #[trigger] a.contains(x) && #[trigger] a.contains(y) && !less(x, y) && !less(y, x) ==> x
                == y,
    ensures
        a == b,
    decreases a.len(),
{
    broadcast use vstd::seq_lib::group_to_multiset_ensures;

    assert(a.len() == a.to_multiset().len() && b.len() == b.to_multiset().len());
    if a.len() == 0 {
        assert(a =~= b);
    } else {
        let x = a.last();
        let y = b.last();
        assert(a.contains(x));
        assert(b.contains(y));
        assert(b.to_multiset().count(y) > 0);
        assert(a.contains(y));
        assert(a.to_multiset().count(x) > 0);
        assert(b.contains(x));
        let i = choose|i: int| 0 <= i < a.len() && a[i] == y;
        let j = choose|j: int| 0 <= j < b.len() && b[j] == x;
        if i < a.len() - 1 && j < b.len() - 1 {
            assert(!less(a[a.len() - 1], a[i]));
            assert(!less(b[b.len() - 1], b[j]));
        }
        assert(x == y);
        let c = a.drop_last();
        let d = b.drop_last();
        assert(c.push(x) =~= a);
        assert(d.push(y) =~= b);
        assert(a.to_multiset() =~= c.to_multiset().insert(x));
        assert(b.to_multiset() =~= d.to_multiset().insert(y));
        assert(c.to_multiset() =~= a.to_multiset().remove(x));
        assert(d.to_multiset() =~= b.to_multiset().remove(y));
        assert forall|p: T, q: T|
            #[trigger] c.contains(p) && #[trigger] c.contains(q) && !less(p, q) && !less(
                q,
                p,
            ) implies p == q by {
            let m = choose|m: int| 0 <= m < c.len() && c[m] == p;
            let n = choose|n: int| 0 <= n < c.len() && c[n] == q;
            assert(a[m] == p && a[n] == q);
            assert(a.contains(p) && a.contains(q));
        }
        lemma_same_order(c, d, less);
    }
}

proof fn lemma_inserted_map<T, U>(
    s: Seq<T>,
    x: T,
    f: spec_fn(T) -> U,
    less: spec_fn(T, T) -> bool,
    mapped: spec_fn(U, U) -> bool,
)
    requires
        forall|a: T, b: T| #[trigger] less(a, b) == mapped(f(a), f(b)),
    ensures
        inserted(s, x, less).map_values(f) == inserted(s.map_values(f), f(x), mapped),
    decreases s.len(),
{
    if s.len() == 0 {
        assert(inserted(s, x, less).map_values(f) =~= seq![f(x)]);
    } else {
        let rest = s.drop_last();
        lemma_inserted_map(rest, x, f, less, mapped);
        assert(s.map_values(f).drop_last() =~= rest.map_values(f));
        assert(s.map_values(f).last() == f(s.last()));
        assert(less(x, s.last()) == mapped(f(x), f(s.last())));
        if less(x, s.last()) {
            assert(inserted(s, x, less).map_values(f) =~= inserted(rest, x, less).map_values(f).push(
                f(s.last()),
            ));
        } else {
            assert(inserted(s, x, less).map_values(f) =~= s.map_values(f).push(f(x)));
        }
    }
}

/// Mapping commutes with ordering when the mapped order agrees.
pub proof fn lemma_in_order_map<T, U>(
    s: Seq<T>,
    f: spec_fn(T) -> U,
    less: spec_fn(T, T) -> bool,
    mapped: spec_fn(U, U) -> bool,
)
    requires
        forall|a: T, b: T| #[trigger] less(a, b) == mapped(f(a), f(b)),
    ensures
        in_order(s, less).map_values(f) == in_order(s.map_values(f), mapped),
    decreases s.len(),
{
    if s.len() == 0 {
        assert(in_order(s, less).map_values(f) =~= Seq::empty());
    } else {
        let rest = s.drop_last();
        lemma_in_order_map(rest, f, less, mapped);
        lemma_inserted_map(in_order(rest, less), s.last(), f, less, mapped);
        assert(s.map_values(f).drop_last() =~= rest.map_values(f));
        assert(s.map_values(f).last() == f(s.last()));
    }
}

/// The elements of a list in the order `less`.
pub(crate) fn sort_by<T>(
    v: Vec<T>,
    less: impl Fn(&T, &T) -> bool,
    Ghost(spec_less): Ghost<spec_fn(T, T) -> bool>,
) -> (sorted: Vec<T>)
    requires
        forall|a: &T, b: &T| #[trigger] less.requires((a, b)),
        forall|a: &T, b: &T, r: bool| less.ensures((a, b), r) ==> r == spec_less(*a, *b),
    ensures
        sorted@ == in_order(v@, spec_less),
{
    let ghost given = v@;
    let mut sorted: Vec<T> = Vec::new();
    assert(given.take(0) =~= Seq::empty());
    for x in iter: v
        invariant
            given == iter.seq(),
            sorted@ == in_order(given.take(iter.index() as int), spec_less),
            forall|a: &T, b: &T| #[trigger] less.requires((a, b)),
            forall|a: &T, b: &T, r: bool| less.ensures((a, b), r) ==> r == spec_less(*a, *b),
    {
        assert(given.take(iter.index() + 1).drop_last() =~= given.take(iter.index() as int));
        insert_by(&mut sorted, x, &less, Ghost(spec_less));
    }
    assert(given.take(given.len() as int) =~= given);
    sorted
}

/// Puts `x` into `v` before the first element it comes before.
pub(crate) fn insert_by<T>(
    v: &mut Vec<T>,
    x: T,
    less: &impl Fn(&T, &T) -> bool,
    Ghost(spec_less): Ghost<spec_fn(T, T) -> bool>,
)
    requires
        forall|a: &T, b: &T| #[trigger] less.requires((a, b)),
        forall|a: &T, b: &T, r: bool| less.ensures((a, b), r) ==> r == spec_less(*a, *b),
    ensures
        final(v)@ == inserted(old(v)@, x, spec_less),
{
    let mut i: usize = v.len();
    let ghost s = v@;
    assert(s.take(i as int) =~= s && s.skip(i as int) =~= Seq::empty());
    while i > 0 && less(&x, &v[i - 1])
        invariant
            v@ == s,
            i <= s.len(),
            forall|a: &T, b: &T| #[trigger] less.requires((a, b)),
            forall|a: &T, b: &T, r: bool| less.ensures((a, b), r) ==> r == spec_less(*a, *b),
            inserted(s, x, spec_less) == inserted(s.take(i as int), x, spec_less) + s.skip(i as int),
        ensures
            i <= s.len(),
            i > 0 ==> !spec_less(x, s[i - 1]),
            inserted(s, x, spec_less) == inserted(s.take(i as int), x, spec_less) + s.skip(i as int),
        decreases i,
    {
        proof {
            let t = s.take(i as int);
            assert(t.drop_last() =~= s.take(i - 1));
            assert(inserted(s.take(i - 1), x, spec_less).push(s[i - 1]) + s.skip(i as int)
                =~= inserted(s.take(i - 1), x, spec_less) + s.skip(i - 1));
        }
        i = i - 1;
    }
    v.insert(i, x);
    assert(inserted(s.take(i as int), x, spec_less) =~= s.take(i as int).push(x));
    assert(v@ =~= s.take(i as int).push(x) + s.skip(i as int));
}

/// The elements of a list for which `p` holds.
pub open spec fn kept<T>(s: Seq<T>, p: spec_fn(T) -> bool) -> Seq<T> {
    collect(
        s,
        |x: T|
            if p(x) {
                seq![x]
            } else {
                Seq::empty()
            },
    )
}

/// The first match of a list is that of the kept elements, when every match is kept.
pub proof fn lemma_first_kept<T>(s: Seq<T>, keep: spec_fn(T) -> bool, p: spec_fn(T) -> bool)
    requires
        forall|x: T| #[trigger] p(x) ==> keep(x),
    ensures
        first(kept(s, keep), p) == first(s, p),
    decreases s.len(),
{
    if s.len() > 0 {
        let rest = s.drop_last();
        lemma_first_kept(rest, keep, p);
        lemma_first_push(rest, s.last(), p);
        assert(rest.push(s.last()) =~= s);
        let early = kept(rest, keep);
        if keep(s.last()) {
            lemma_first_push(early, s.last(), p);
            assert(kept(s, keep) =~= early.push(s.last()));
        } else {
            assert(kept(s, keep) =~= early);
        }
    } else {
        assert(kept(s, keep) =~= s);
    }
}

/// The first match of a list and one more element.
proof fn lemma_first_push<T>(s: Seq<T>, x: T, p: spec_fn(T) -> bool)
    ensures
        first(s.push(x), p) == match first(s, p) {
            Some(found) => Some(found),
            None => if p(x) {
                Some(x)
            } else {
                None
            },
        },
{
    let all = s.push(x);
    lemma_first_exists(s, p);
    lemma_first_exists(all, p);
    if exists|i: int| is_first(s, p, i) {
        let i = choose|i: int| is_first(s, p, i);
        assert forall|j: int| 0 <= j < i implies !p(#[trigger] all[j]) by {
            assert(all[j] == s[j]);
        }
        assert(all[i] == s[i]);
        lemma_first(s, p, i);
        lemma_first(all, p, i);
    } else if p(x) {
        let i = s.len() as int;
        assert forall|j: int| 0 <= j < i implies !p(#[trigger] all[j]) by {
            assert(all[j] == s[j]);
        }
        assert(is_first(all, p, i));
        lemma_first(all, p, i);
    } else {
        assert forall|i: int| 0 <= i < all.len() implies !p(#[trigger] all[i]) by {
            if i < s.len() {
                assert(all[i] == s[i]);
            }
        }
    }
}

/// Collecting from the kept elements is collecting from all, when the others give
/// nothing.
pub proof fn lemma_collect_kept<A, B>(s: Seq<A>, keep: spec_fn(A) -> bool, f: spec_fn(A) -> Seq<B>)
    requires
        forall|x: A| !#[trigger] keep(x) ==> f(x).len() == 0,
    ensures
        collect(kept(s, keep), f) == collect(s, f),
    decreases s.len(),
{
    if s.len() > 0 {
        let rest = s.drop_last();
        lemma_collect_kept(rest, keep, f);
        let early = kept(rest, keep);
        if keep(s.last()) {
            assert(kept(s, keep) =~= early.push(s.last()));
            assert(early.push(s.last()).drop_last() =~= early);
        } else {
            assert(kept(s, keep) =~= early);
            assert(collect(rest, f) + f(s.last()) =~= collect(rest, f));
        }
    } else {
        assert(kept(s, keep) =~= s);
    }
}

/// Every element that is kept is one of the list for which `p` holds.
pub proof fn lemma_kept<T>(s: Seq<T>, p: spec_fn(T) -> bool, x: T)
    requires
        kept(s, p).contains(x),
    ensures
        s.contains(x),
        p(x),
{
    let piece = |x: T|
        if p(x) {
            seq![x]
        } else {
            Seq::empty()
        };
    let k = choose|k: int| 0 <= k < kept(s, p).len() && kept(s, p)[k] == x;
    lemma_collect_source(s, piece, k);
}

/// An element is kept exactly when it is one of the list for which `p` holds.
pub proof fn lemma_kept_holds<T>(s: Seq<T>, p: spec_fn(T) -> bool, x: T)
    ensures
        kept(s, p).contains(x) <==> s.contains(x) && p(x),
{
    let piece = |x: T|
        if p(x) {
            seq![x]
        } else {
            Seq::empty()
        };
    if s.contains(x) && p(x) {
        let i = choose|i: int| 0 <= i < s.len() && s[i] == x;
        assert(piece(s[i])[0] == x);
        lemma_collect_contains(s, piece, i, x);
    }
    if kept(s, p).contains(x) {
        lemma_kept(s, p, x);
    }
}

/// Mapping commutes with keeping when the mapped predicate agrees.
pub proof fn lemma_kept_map<T, U>(
    s: Seq<T>,
    f: spec_fn(T) -> U,
    p: spec_fn(T) -> bool,
    mapped: spec_fn(U) -> bool,
)
    requires
        forall|x: T| #[trigger] p(x) == mapped(f(x)),
    ensures
        kept(s, p).map_values(f) == kept(s.map_values(f), mapped),
    decreases s.len(),
{
    if s.len() == 0 {
        assert(kept(s, p).map_values(f) =~= Seq::empty());
    } else {
        let rest = s.drop_last();
        lemma_kept_map(rest, f, p, mapped);
        assert(s.map_values(f).drop_last() =~= rest.map_values(f));
        assert(s.map_values(f).last() == f(s.last()));
        assert(p(s.last()) == mapped(f(s.last())));
        if p(s.last()) {
            assert(kept(s, p) =~= kept(rest, p).push(s.last()));
            assert(kept(s.map_values(f), mapped) =~= kept(rest.map_values(f), mapped).push(
                f(s.last()),
            ));
            assert(kept(s, p).map_values(f) =~= kept(rest, p).map_values(f).push(f(s.last())));
        } else {
            assert(kept(s, p) =~= kept(rest, p));
            assert(kept(s.map_values(f), mapped) =~= kept(rest.map_values(f), mapped));
        }
    }
}

/// The elements of a list that pass a test.
pub(crate) fn keep<T>(
    v: Vec<T>,
    test: impl Fn(&T) -> bool,
    Ghost(p): Ghost<spec_fn(T) -> bool>,
) -> (found: Vec<T>)
    requires
        forall|x: &T| #[trigger] test.requires((x,)),
        forall|x: &T, r: bool| test.ensures((x,), r) ==> r == p(*x),
    ensures
        found@ == kept(v@, p),
{
    let ghost given = v@;
    let ghost piece = |x: T|
        if p(x) {
            seq![x]
        } else {
            Seq::empty()
        };
    let mut found: Vec<T> = Vec::new();
    assert(given.take(0) =~= Seq::empty());
    for x in iter: v
        invariant
            given == iter.seq(),
            piece == (|x: T|
                if p(x) {
                    seq![x]
                } else {
                    Seq::empty()
                }),
            found@ == collect(given.take(iter.index() as int), piece),
            forall|x: &T| #[trigger] test.requires((x,)),
            forall|x: &T, r: bool| test.ensures((x,), r) ==> r == p(*x),
    {
        proof {
            lemma_collect_step(given, piece, iter.index() as int);
        }
        if test(&x) {
            found.push(x);
        }
    }
    assert(given.take(given.len() as int) =~= given);
    found
}

/// The distinct elements of a list, in the order in which they first come up.
pub open spec fn distinct<T>(s: Seq<T>) -> Seq<T>
    decreases s.len(),
{
    if s.len() == 0 {
        Seq::empty()
    } else {
        let before = distinct(s.drop_last());
        if before.contains(s.last()) {
            before
        } else {
            before.push(s.last())
        }
    }
}

/// A list has the same elements as its distinct elements, and none of those
/// twice.
pub proof fn lemma_distinct<T>(s: Seq<T>)
    ensures
        distinct(s).no_duplicates(),
        forall|x: T| #[trigger] distinct(s).contains(x) <==> s.contains(x),
    decreases s.len(),
{
    if s.len() > 0 {
        let rest = s.drop_last();
        lemma_distinct(rest);
        let before = distinct(rest);
        assert forall|x: T| #[trigger] distinct(s).contains(x) <==> s.contains(x) by {
            if s.contains(x) {
                let k = choose|k: int| 0 <= k < s.len() && s[k] == x;
                if k < rest.len() {
                    assert(rest[k] == x);
                    assert(before.contains(x));
                }
                if before.contains(x) {
                    let m = choose|m: int| 0 <= m < before.len() && before[m] == x;
                    assert(distinct(s)[m] == x);
                } else {
                    assert(x == s.last());
                    assert(distinct(s)[before.len() as int] == x);
                }
            }
            if distinct(s).contains(x) {
                let m = choose|m: int| 0 <= m < distinct(s).len() && distinct(s)[m] == x;
                if m < before.len() {
                    assert(before.contains(x));
                    assert(rest.contains(x));
                    let k = choose|k: int| 0 <= k < rest.len() && rest[k] == x;
                    assert(s[k] == x);
                } else {
                    assert(s[s.len() - 1] == x);
                }
            }
        }
    }
}

/// The distinct elements of a list.
pub(crate) fn distinct_of<T: Copy>(v: &Vec<T>, same: impl Fn(&T, &T) -> bool) -> (found: Vec<T>)
    requires
        forall|a: &T, b: &T| #[trigger] same.requires((a, b)),
        forall|a: &T, b: &T, r: bool| same.ensures((a, b), r) ==> r == (*a == *b),
    ensures
        found@ == distinct(v@),
{
    let mut found: Vec<T> = Vec::new();
    assert(v@.take(0) =~= Seq::empty());
    for i in 0..v.len()
        invariant
            found@ == distinct(v@.take(i as int)),
            forall|a: &T, b: &T| #[trigger] same.requires((a, b)),
            forall|a: &T, b: &T, r: bool| same.ensures((a, b), r) ==> r == (*a == *b),
    {
        assert(v@.take(i + 1).drop_last() =~= v@.take(i as int));
        let x = v[i];
        let mut known: bool = false;
        for k in 0..found.len()
            invariant
                known == exists|m: int| 0 <= m < k && #[trigger] found@[m] == x,
                forall|a: &T, b: &T| #[trigger] same.requires((a, b)),
                forall|a: &T, b: &T, r: bool| same.ensures((a, b), r) ==> r == (*a == *b),
        {
            if same(&found[k], &x) {
                known = true;
            }
        }
        proof {
            if known {
                let m = choose|m: int| 0 <= m < found@.len() && #[trigger] found@[m] == x;
                assert(found@.contains(x));
            }
        }
        if !known {
            found.push(x);
        }
    }
    assert(v@.take(v.len() as int) =~= v@);
    found
}

} // verus!
