//! Facts about filtering and mapping sequences from left to right.

use vstd::prelude::*;

verus! {

/// What filtering one more element of a sequence adds.
pub proof fn lemma_filter_step<A>(s: Seq<A>, i: int, keep: spec_fn(A) -> bool)
    requires
        0 <= i < s.len(),
    ensures
        s.take(i + 1).filter(keep) == if keep(s[i]) {
            s.take(i).filter(keep).push(s[i])
        } else {
            s.take(i).filter(keep)
        },
{
    reveal(Seq::filter);
    assert(s.take(i + 1).drop_last() =~= s.take(i));
    assert(s.take(i + 1).last() == s[i]);
}

/// Filtering nothing gives nothing.
pub proof fn lemma_filter_none<A>(s: Seq<A>, keep: spec_fn(A) -> bool)
    ensures
        s.take(0).filter(keep) == Seq::<A>::empty(),
{
    reveal(Seq::filter);
    assert(s.take(0).filter(keep) =~= Seq::<A>::empty());
}

/// An element is left by a filter exactly where it was there and passes.
pub proof fn lemma_filter_contains<A>(s: Seq<A>, keep: spec_fn(A) -> bool, x: A)
    ensures
        s.filter(keep).contains(x) <==> s.contains(x) && keep(x),
    decreases s.len(),
{
    reveal(Seq::filter);
    if s.len() > 0 {
        let rest = s.drop_last();
        lemma_filter_contains(rest, keep, x);
        if s.contains(x) {
            let k = choose|k: int| 0 <= k < s.len() && s[k] == x;
            if k < rest.len() {
                assert(rest[k] == x);
            }
        }
        if rest.contains(x) {
            let k = choose|k: int| 0 <= k < rest.len() && rest[k] == x;
            assert(s[k] == x);
        }
        assert(s[s.len() - 1] == s.last());
        let f = rest.filter(keep);
        if keep(s.last()) {
            assert(s.filter(keep) == f.push(s.last()));
            if f.contains(x) {
                let k = choose|k: int| 0 <= k < f.len() && f[k] == x;
                assert(f.push(s.last())[k] == x);
            }
            assert(f.push(s.last())[f.len() as int] == s.last());
        }
    }
}

/// Filters that agree on every element leave the same.
pub proof fn lemma_filter_alike<A>(s: Seq<A>, f: spec_fn(A) -> bool, g: spec_fn(A) -> bool)
    requires
        forall|i: int| 0 <= i < s.len() ==> f(#[trigger] s[i]) == g(s[i]),
    ensures
        s.filter(f) == s.filter(g),
    decreases s.len(),
{
    reveal(Seq::filter);
    if s.len() > 0 {
        let rest = s.drop_last();
        assert forall|i: int| 0 <= i < rest.len() implies f(#[trigger] rest[i]) == g(rest[i]) by {
            assert(rest[i] == s[i]);
        }
        lemma_filter_alike(rest, f, g);
        assert(f(s[s.len() - 1]) == g(s[s.len() - 1]));
    }
}

/// Where a filter takes the same positions of two sequences, and their elements there
/// are mapped to the same, filtering and mapping gives the same.
pub proof fn lemma_filter_map_alike<A, B>(
    s: Seq<A>,
    t: Seq<A>,
    keep: spec_fn(A) -> bool,
    map: spec_fn(A) -> B,
)
    requires
        s.len() == t.len(),
        forall|i: int|
            0 <= i < s.len() ==> keep(#[trigger] s[i]) == keep(t[i]) && (keep(s[i]) ==> map(s[i])
                == map(t[i])),
    ensures
        s.filter(keep).map_values(map) == t.filter(keep).map_values(map),
    decreases s.len(),
{
    reveal(Seq::filter);
    if s.len() > 0 {
        let a = s.drop_last();
        let b = t.drop_last();
        assert forall|i: int| 0 <= i < a.len() implies keep(#[trigger] a[i]) == keep(b[i]) && (keep(
            a[i],
        ) ==> map(a[i]) == map(b[i])) by {
            assert(a[i] == s[i]);
        }
        lemma_filter_map_alike(a, b, keep, map);
        let last = s[s.len() - 1];
        assert(keep(last) == keep(t.last()));
        if keep(last) {
            assert(s.filter(keep).map_values(map) =~= a.filter(keep).map_values(map).push(
                map(last),
            ));
            assert(t.filter(keep).map_values(map) =~= b.filter(keep).map_values(map).push(
                map(t.last()),
            ));
        }
    } else {
        assert(s.filter(keep).map_values(map) =~= t.filter(keep).map_values(map));
    }
}

/// What one more element adds to a filtered and mapped sequence.
pub proof fn lemma_filter_map_last<A, B>(s: Seq<A>, keep: spec_fn(A) -> bool, map: spec_fn(A) -> B)
    requires
        s.len() > 0,
    ensures
        s.filter(keep).map_values(map) == if keep(s.last()) {
            s.drop_last().filter(keep).map_values(map).push(map(s.last()))
        } else {
            s.drop_last().filter(keep).map_values(map)
        },
{
    reveal(Seq::filter);
    let front = s.drop_last().filter(keep);
    if keep(s.last()) {
        assert(s.filter(keep) == front.push(s.last()));
        assert(front.push(s.last()).map_values(map) =~= front.map_values(map).push(map(s.last())));
    }
}

/// What the first element adds to a filtered and mapped sequence.
pub proof fn lemma_filter_map_first<A, B>(s: Seq<A>, keep: spec_fn(A) -> bool, map: spec_fn(A) -> B)
    requires
        s.len() > 0,
    ensures
        s.filter(keep).map_values(map) == if keep(s[0]) {
            seq![map(s[0])] + s.drop_first().filter(keep).map_values(map)
        } else {
            s.drop_first().filter(keep).map_values(map)
        },
    decreases s.len(),
{
    lemma_filter_map_last(s, keep, map);
    if s.len() == 1 {
        reveal(Seq::filter);
        assert(s.drop_last() =~= s.drop_first());
        assert(s.filter(keep).map_values(map) =~= if keep(s[0]) {
            seq![map(s[0])] + s.drop_first().filter(keep).map_values(map)
        } else {
            s.drop_first().filter(keep).map_values(map)
        });
    } else {
        lemma_filter_map_first(s.drop_last(), keep, map);
        lemma_filter_map_last(s.drop_first(), keep, map);
        assert(s.drop_last().drop_first() =~= s.drop_first().drop_last());
        assert(s.filter(keep).map_values(map) =~= if keep(s[0]) {
            seq![map(s[0])] + s.drop_first().filter(keep).map_values(map)
        } else {
            s.drop_first().filter(keep).map_values(map)
        });
    }
}

/// Two filters one after the other leave what passes both.
pub proof fn lemma_filter_twice<A>(
    s: Seq<A>,
    f: spec_fn(A) -> bool,
    g: spec_fn(A) -> bool,
    both: spec_fn(A) -> bool,
)
    requires
        forall|x: A| #[trigger] both(x) == (f(x) && g(x)),
    ensures
        s.filter(f).filter(g) == s.filter(both),
    decreases s.len(),
{
    reveal(Seq::filter);
    if s.len() > 0 {
        let rest = s.drop_last();
        lemma_filter_twice(rest, f, g, both);
        assert(both(s.last()) == (f(s.last()) && g(s.last())));
        if f(s.last()) {
            let left = rest.filter(f).push(s.last());
            assert(left.drop_last() =~= rest.filter(f));
        }
    }
}

} // verus!
