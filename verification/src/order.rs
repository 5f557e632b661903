//! The byte order of strings, and sorting by it.

use vstd::prelude::*;
use vstd::string::*;
use vstd::utf8::*;

verus! {

/// Whether the bytes `a` come strictly before the bytes `b` in lexicographic order.
pub open spec fn bytes_before(a: Seq<u8>, b: Seq<u8>) -> bool
    decreases a.len(),
{
    if b.len() == 0 {
        false
    } else if a.len() == 0 {
        true
    } else if a[0] == b[0] {
        bytes_before(a.skip(1), b.skip(1))
    } else {
        a[0] < b[0]
    }
}

/// Whether the string `a` comes strictly before `b` in the order of their UTF-8 bytes.
pub open spec fn comes_before(a: Seq<char>, b: Seq<char>) -> bool {
    bytes_before(encode_utf8(a), encode_utf8(b))
}

/// Whether each name comes strictly before all that follow it.
pub open spec fn ascending(names: Seq<Seq<char>>) -> bool {
    forall|i: int, j: int|
        0 <= i < j < names.len() ==> comes_before(#[trigger] names[i], #[trigger] names[j])
}

/// The names of a set in ascending order.
pub open spec fn listing(names: Set<Seq<char>>) -> Seq<Seq<char>> {
    choose|list: Seq<Seq<char>>| ascending(list) && list.to_set() == names
}

proof fn lemma_bytes_irreflexive(a: Seq<u8>)
    ensures
        !bytes_before(a, a),
    decreases a.len(),
{
    if a.len() > 0 {
        lemma_bytes_irreflexive(a.skip(1));
    }
}

proof fn lemma_bytes_transitive(a: Seq<u8>, b: Seq<u8>, c: Seq<u8>)
    requires
        bytes_before(a, b),
        bytes_before(b, c),
    ensures
        bytes_before(a, c),
    decreases a.len(),
{
    if a.len() > 0 && a[0] == b[0] && b[0] == c[0] {
        lemma_bytes_transitive(a.skip(1), b.skip(1), c.skip(1));
    }
}

proof fn lemma_bytes_total(a: Seq<u8>, b: Seq<u8>)
    ensures
        a == b || bytes_before(a, b) || bytes_before(b, a),
    decreases a.len(),
{
    if a.len() > 0 && b.len() > 0 && a[0] == b[0] {
        lemma_bytes_total(a.skip(1), b.skip(1));
        if a.skip(1) == b.skip(1) {
            assert(a =~= seq![a[0]] + a.skip(1));
            assert(b =~= seq![b[0]] + b.skip(1));
        }
    } else if a.len() == 0 && b.len() == 0 {
        assert(a =~= b);
    }
}

/// No string comes before itself.
pub proof fn lemma_before_irreflexive(a: Seq<char>)
    ensures
        !comes_before(a, a),
{
    lemma_bytes_irreflexive(encode_utf8(a));
}

/// The order of strings is transitive.
pub proof fn lemma_before_transitive(a: Seq<char>, b: Seq<char>, c: Seq<char>)
    requires
        comes_before(a, b),
        comes_before(b, c),
    ensures
        comes_before(a, c),
{
    lemma_bytes_transitive(encode_utf8(a), encode_utf8(b), encode_utf8(c));
}

/// Of two different strings one comes before the other.
pub proof fn lemma_before_total(a: Seq<char>, b: Seq<char>)
    ensures
        a == b || comes_before(a, b) || comes_before(b, a),
{
    lemma_bytes_total(encode_utf8(a), encode_utf8(b));
    if encode_utf8(a) == encode_utf8(b) {
        encode_utf8_decode_utf8(a);
        encode_utf8_decode_utf8(b);
    }
}

/// An ascending list is determined by the names that it holds.
pub proof fn lemma_ascending_unique(a: Seq<Seq<char>>, b: Seq<Seq<char>>)
    requires
        ascending(a),
        ascending(b),
        a.to_set() == b.to_set(),
    ensures
        a == b,
    decreases a.len(),
{
    if a.len() == 0 {
        if b.len() > 0 {
            assert(b.to_set().contains(b[0]));
            assert(a.to_set().contains(b[0]));
        }
        assert(a =~= b);
    } else {
        assert(a.to_set().contains(a.last()));
        assert(b.to_set().contains(a.last()));
        let i = choose|i: int| 0 <= i < b.len() && b[i] == a.last();
        assert(b.to_set().contains(b.last()));
        assert(a.to_set().contains(b.last()));
        let j = choose|j: int| 0 <= j < a.len() && a[j] == b.last();
        if a.last() != b.last() {
            assert(comes_before(b[i], b[b.len() - 1]));
            assert(comes_before(a[j], a[a.len() - 1]));
            lemma_before_transitive(a.last(), b.last(), a.last());
            lemma_before_irreflexive(a.last());
        }
        assert forall|x: Seq<char>|
            a.drop_last().to_set().contains(x) <==> b.drop_last().to_set().contains(x) by {
            lemma_without_last(a, x);
            lemma_without_last(b, x);
        }
        assert(a.drop_last().to_set() =~= b.drop_last().to_set());
        lemma_ascending_unique(a.drop_last(), b.drop_last());
        assert(a =~= a.drop_last().push(a.last()));
        assert(b =~= b.drop_last().push(b.last()));
    }
}

/// An ascending list is the listing of its own names.
pub proof fn lemma_listing(list: Seq<Seq<char>>)
    requires
        ascending(list),
    ensures
        listing(list.to_set()) == list,
{
    lemma_ascending_unique(listing(list.to_set()), list);
}

proof fn lemma_insert(list: Seq<Seq<char>>, new: Seq<char>) -> (r: Seq<Seq<char>>)
    requires
        ascending(list),
        !list.contains(new),
    ensures
        ascending(r),
        r.to_set() == list.to_set().insert(new),
    decreases list.len(),
{
    if list.len() == 0 || comes_before(list.last(), new) {
        let r = list.push(new);
        assert forall|i: int, j: int| 0 <= i < j < r.len() implies comes_before(
            #[trigger] r[i],
            #[trigger] r[j],
        ) by {
            if j == list.len() && i < list.len() - 1 {
                assert(comes_before(list[i], list.last()));
                lemma_before_transitive(list[i], list.last(), new);
            }
        }
        crate::names::lemma_push_to_set(list, new);
        r
    } else {
        let rest = list.drop_last();
        let last = list.last();
        assert(list[list.len() - 1] == last);
        lemma_before_total(last, new);
        let front = lemma_insert(rest, new);
        let r = front.push(last);
        assert forall|i: int, j: int| 0 <= i < j < r.len() implies comes_before(
            #[trigger] r[i],
            #[trigger] r[j],
        ) by {
            if j == front.len() {
                assert(front.to_set().contains(front[i]));
                if front[i] != new {
                    assert(rest.to_set().contains(front[i]));
                    let k = choose|k: int| 0 <= k < rest.len() && rest[k] == front[i];
                    assert(comes_before(list[k], list[list.len() - 1]));
                }
            }
        }
        crate::names::lemma_push_to_set(front, last);
        crate::names::lemma_push_to_set(rest, last);
        assert(rest.push(last) =~= list);
        assert(r.to_set() =~= list.to_set().insert(new));
        r
    }
}

/// Every finite set of names has a listing.
pub proof fn lemma_listing_exists(names: Set<Seq<char>>)
    requires
        names.finite(),
    ensures
        ascending(listing(names)),
        listing(names).to_set() == names,
    decreases names.len(),
{
    if names.len() == 0 {
        let list = Seq::<Seq<char>>::empty();
        assert(list.to_set() =~= names);
        assert(ascending(list) && list.to_set() == names);
    } else {
        let x = names.choose();
        let rest = names.remove(x);
        lemma_listing_exists(rest);
        let before = listing(rest);
        assert(!before.contains(x)) by {
            if before.contains(x) {
                assert(before.to_set().contains(x));
            }
        }
        let list = lemma_insert(before, x);
        assert(rest.insert(x) =~= names);
        assert(ascending(list) && list.to_set() == names);
    }
}

/// An ascending list holds no name twice.
pub proof fn lemma_ascending_distinct(list: Seq<Seq<char>>)
    requires
        ascending(list),
    ensures
        list.no_duplicates(),
{
    assert forall|i: int, j: int|
        0 <= i < list.len() && 0 <= j < list.len() && i != j implies list[i] != list[j] by {
        lemma_before_irreflexive(list[i]);
        if i < j {
            assert(comes_before(list[i], list[j]));
        } else {
            assert(comes_before(list[j], list[i]));
        }
    }
}

proof fn lemma_without_last(a: Seq<Seq<char>>, x: Seq<char>)
    requires
        ascending(a),
        a.len() > 0,
    ensures
        a.drop_last().to_set().contains(x) <==> a.to_set().contains(x) && x != a.last(),
{
    if a.drop_last().to_set().contains(x) {
        let k = choose|k: int| 0 <= k < a.drop_last().len() && a.drop_last()[k] == x;
        assert(a[k] == x);
        assert(comes_before(a[k], a[a.len() - 1]));
        lemma_before_irreflexive(x);
    }
    if a.to_set().contains(x) && x != a.last() {
        let k = choose|k: int| 0 <= k < a.len() && a[k] == x;
        assert(a.drop_last()[k] == x);
    }
}

/// Whether `a` comes strictly before `b` in the order of their UTF-8 bytes.
pub fn before(a: &str, b: &str) -> (r: bool)
    ensures
        r == comes_before(a@, b@),
{
    let x = a.as_bytes();
    let y = b.as_bytes();
    let mut i: usize = 0;
    assert(x@.skip(0) =~= x@);
    assert(y@.skip(0) =~= y@);
    while i < x.len() && i < y.len() && x[i] == y[i]
        invariant
            i <= x@.len(),
            i <= y@.len(),
            bytes_before(x@, y@) == bytes_before(x@.skip(i as int), y@.skip(i as int)),
        decreases x@.len() - i,
    {
        assert(x@.skip(i as int).skip(1) =~= x@.skip(i + 1));
        assert(y@.skip(i as int).skip(1) =~= y@.skip(i + 1));
        i = i + 1;
    }
    if i >= y.len() {
        false
    } else if i >= x.len() {
        true
    } else {
        x[i] < y[i]
    }
}

/// Merges two ascending lists into one that holds each name of either once.
fn merge(a: &Vec<String>, b: &Vec<String>) -> (r: Vec<String>)
    requires
        ascending(a.deep_view()),
        ascending(b.deep_view()),
    ensures
        ascending(r.deep_view()),
        r.deep_view().to_set() == a.deep_view().to_set().union(b.deep_view().to_set()),
{
    let mut out: Vec<String> = Vec::new();
    let mut i: usize = 0;
    let mut j: usize = 0;
    let ghost x = a.deep_view();
    let ghost y = b.deep_view();
    while i < a.len() || j < b.len()
        invariant
            x == a.deep_view(),
            y == b.deep_view(),
            ascending(x),
            ascending(y),
            i <= a@.len(),
            j <= b@.len(),
            ascending(out.deep_view()),
            forall|k: int, l: int|
                0 <= k < out@.len() && i <= l < x.len() ==> comes_before(
                    #[trigger] out.deep_view()[k],
                    #[trigger] x[l],
                ),
            forall|k: int, l: int|
                0 <= k < out@.len() && j <= l < y.len() ==> comes_before(
                    #[trigger] out.deep_view()[k],
                    #[trigger] y[l],
                ),
            forall|n: Seq<char>| #[trigger]
                out.deep_view().contains(n) <==> x.take(i as int).contains(n) || y.take(
                    j as int,
                ).contains(n),
        decreases a@.len() - i + b@.len() - j,
    {
        let ghost old_out = out.deep_view();
        let ghost (i0, j0) = (i as int, j as int);
        let take_a: bool = j >= b.len() || (i < a.len() && before(a[i].as_str(), b[j].as_str()));
        let take_both: bool = !take_a && i < a.len() && !before(b[j].as_str(), a[i].as_str());
        if take_a {
            out.push(a[i].clone());
            i = i + 1;
        } else if take_both {
            out.push(a[i].clone());
            i = i + 1;
            j = j + 1;
        } else {
            out.push(b[j].clone());
            j = j + 1;
        }
        proof {
            let new = out.deep_view().last();
            assert(out.deep_view() =~= old_out.push(new));
            if take_both {
                lemma_before_total(x[i0], y[j0]);
            }
            assert(take_a || take_both ==> new == x[i0]);
            assert(!take_a ==> new == y[j0]);
            assert forall|l: int| i <= l < x.len() implies comes_before(new, #[trigger] x[l]) by {
                if !take_a && !take_both {
                    assert(comes_before(new, x[i0]));
                    if l > i0 {
                        assert(comes_before(x[i0], x[l]));
                        lemma_before_transitive(new, x[i0], x[l]);
                    }
                } else {
                    assert(comes_before(x[i0], x[l]));
                }
            }
            assert forall|l: int| j <= l < y.len() implies comes_before(new, #[trigger] y[l]) by {
                if take_a {
                    assert(comes_before(new, y[j0]));
                    if l > j0 {
                        assert(comes_before(y[j0], y[l]));
                        lemma_before_transitive(new, y[j0], y[l]);
                    }
                } else {
                    assert(comes_before(y[j0], y[l]));
                }
            }
            assert forall|n: Seq<char>| #[trigger]
                out.deep_view().contains(n) <==> x.take(i as int).contains(n) || y.take(
                    j as int,
                ).contains(n) by {
                lemma_push_contains(old_out, new, n);
                if i > i0 {
                    assert(x.take(i as int) =~= x.take(i0).push(x[i0]));
                    lemma_push_contains(x.take(i0), x[i0], n);
                }
                if j > j0 {
                    assert(y.take(j as int) =~= y.take(j0).push(y[j0]));
                    lemma_push_contains(y.take(j0), y[j0], n);
                }
            }
        }
    }
    proof {
        assert(x.take(i as int) =~= x);
        assert(y.take(j as int) =~= y);
        assert(out.deep_view().to_set() =~= x.to_set().union(y.to_set())) by {
            assert forall|n: Seq<char>|
                out.deep_view().to_set().contains(n) <==> x.to_set().union(y.to_set()).contains(
                    n,
                ) by {
                assert(out.deep_view().contains(n) <==> x.contains(n) || y.contains(n));
            }
        }
    }
    out
}

proof fn lemma_push_contains(s: Seq<Seq<char>>, new: Seq<char>, n: Seq<char>)
    ensures
        s.push(new).contains(n) <==> s.contains(n) || n == new,
{
    if s.contains(n) {
        let k = choose|k: int| 0 <= k < s.len() && s[k] == n;
        assert(s.push(new)[k] == n);
    }
    assert(s.push(new)[s.len() as int] == new);
}

fn sort_range(names: &Vec<String>, from: usize, to: usize) -> (r: Vec<String>)
    requires
        from <= to <= names@.len(),
    ensures
        ascending(r.deep_view()),
        r.deep_view().to_set() == names.deep_view().subrange(from as int, to as int).to_set(),
    decreases to - from,
{
    if to - from == 0 {
        let out: Vec<String> = Vec::new();
        assert(out.deep_view() =~= names.deep_view().subrange(from as int, to as int));
        out
    } else if to - from == 1 {
        let mut out: Vec<String> = Vec::new();
        out.push(names[from].clone());
        assert(out.deep_view() =~= names.deep_view().subrange(from as int, to as int));
        out
    } else {
        let middle: usize = from + (to - from) / 2;
        let left = sort_range(names, from, middle);
        let right = sort_range(names, middle, to);
        let out = merge(&left, &right);
        proof {
            let all = names.deep_view();
            let l = all.subrange(from as int, middle as int);
            let h = all.subrange(middle as int, to as int);
            let w = all.subrange(from as int, to as int);
            assert forall|n: Seq<char>|
                w.to_set().contains(n) <==> l.to_set().union(h.to_set()).contains(n) by {
                if w.contains(n) {
                    let k = choose|k: int| 0 <= k < w.len() && w[k] == n;
                    if k < l.len() {
                        assert(l[k] == n);
                    } else {
                        assert(h[k - l.len()] == n);
                    }
                }
                if l.contains(n) {
                    let k = choose|k: int| 0 <= k < l.len() && l[k] == n;
                    assert(w[k] == n);
                }
                if h.contains(n) {
                    let k = choose|k: int| 0 <= k < h.len() && h[k] == n;
                    assert(w[k + l.len()] == n);
                }
            }
            assert(w.to_set() =~= l.to_set().union(h.to_set()));
        }
        out
    }
}

/// The names without repetitions, in ascending order.
pub fn sorted(names: &Vec<String>) -> (r: Vec<String>)
    ensures
        r.deep_view() == listing(names.deep_view().to_set()),
        ascending(r.deep_view()),
        r.deep_view().to_set() == names.deep_view().to_set(),
{
    assert(names.deep_view().subrange(0, names@.len() as int) =~= names.deep_view());
    let r = sort_range(names, 0, names.len());
    proof {
        lemma_listing(r.deep_view());
    }
    r
}

/// The order of strings is that of their bytes: up to some place they agree, and
/// there the first ends or has the smaller byte.
pub proof fn order_is_decided_at_the_first_difference(a: Seq<char>, b: Seq<char>)
    ensures
        comes_before(a, b) <==> exists|k: int|
            0 <= k <= encode_utf8(a).len() && k < encode_utf8(b).len() && #[trigger] encode_utf8(
                a,
            ).take(k) == encode_utf8(b).take(k) && (k == encode_utf8(a).len() || encode_utf8(a)[k]
                < encode_utf8(b)[k]),
{
    let x = encode_utf8(a);
    let y = encode_utf8(b);
    if comes_before(a, b) {
        let k = lemma_first_difference(x, y);
        assert(x.take(k) == y.take(k));
    }
    if exists|k: int|
        0 <= k <= x.len() && k < y.len() && #[trigger] x.take(k) == y.take(k) && (k == x.len()
            || x[k] < y[k]) {
        let k = choose|k: int|
            0 <= k <= x.len() && k < y.len() && #[trigger] x.take(k) == y.take(k) && (k == x.len()
                || x[k] < y[k]);
        lemma_decided_there(x, y, k);
    }
}

proof fn lemma_first_difference(a: Seq<u8>, b: Seq<u8>) -> (k: int)
    requires
        bytes_before(a, b),
    ensures
        0 <= k <= a.len(),
        k < b.len(),
        a.take(k) == b.take(k),
        k == a.len() || a[k] < b[k],
    decreases a.len(),
{
    if a.len() == 0 || a[0] != b[0] {
        assert(a.take(0) =~= b.take(0));
        0
    } else {
        let before = lemma_first_difference(a.skip(1), b.skip(1));
        let k = before + 1;
        assert forall|i: int| 0 <= i < k implies a[i] == b[i] by {
            if i > 0 {
                assert(a.skip(1).take(k - 1)[i - 1] == b.skip(1).take(k - 1)[i - 1]);
            }
        }
        assert(a.take(k) =~= b.take(k));
        k
    }
}

proof fn lemma_decided_there(a: Seq<u8>, b: Seq<u8>, k: int)
    requires
        0 <= k <= a.len(),
        k < b.len(),
        a.take(k) == b.take(k),
        k == a.len() || a[k] < b[k],
    ensures
        bytes_before(a, b),
    decreases k,
{
    if k > 0 {
        let same = a.take(k);
        assert(same[0] == a[0] && same[0] == b[0]);
        assert forall|i: int| 0 <= i < k - 1 implies a.skip(1)[i] == b.skip(1)[i] by {
            assert(same[i + 1] == a[i + 1] && same[i + 1] == b[i + 1]);
        }
        assert(a.skip(1).take(k - 1) =~= b.skip(1).take(k - 1));
        lemma_decided_there(a.skip(1), b.skip(1), k - 1);
    }
}

/// A listing of finitely many names holds exactly these names, and of two of them
/// the one that comes before the other stands first.
pub proof fn listings_are_sorted(names: Set<Seq<char>>)
    requires
        names.finite(),
    ensures
        forall|name: Seq<char>| #[trigger] listing(names).contains(name) <==> names.contains(name),
        forall|i: int, j: int|
            0 <= i < j < listing(names).len() ==> comes_before(
                #[trigger] listing(names)[i],
                #[trigger] listing(names)[j],
            ),
        listing(names).len() == names.len(),
{
    let list = listing(names);
    lemma_listing_exists(names);
    lemma_ascending_distinct(list);
    list.unique_seq_to_set();
    assert forall|name: Seq<char>| #[trigger] list.contains(name) <==> names.contains(name) by {
        assert(list.to_set().contains(name) <==> list.contains(name));
    }
}

} // verus!
