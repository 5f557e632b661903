//! Renaming the symbols of Windows objects under a prefix.

use vstd::hash_set::StringHashSet;
use vstd::prelude::*;
use vstd::string::*;

use crate::keep;
use crate::names::SymbolSet;
use crate::order;
use crate::text;

verus! {

/// Whether a symbol is one of the shared head and tail symbols of a DLL import library.
pub open spec fn is_machinery(symbol: Seq<char>) -> bool {
    ||| text::holds(symbol, "__IMPORT_DESCRIPTOR_"@)
    ||| text::holds(symbol, "__NULL_IMPORT_DESCRIPTOR"@)
    ||| "_NULL_THUNK_DATA"@.is_suffix_of(symbol)
}

/// Whether a defined global symbol keeps its name: it is public API, a name
/// mangled by MSVC, a symbol for the linker, or import machinery.
pub open spec fn keeps_name(symbol: Seq<char>, keep_prefix: Seq<char>) -> bool {
    ||| keep::is_api(symbol, keep_prefix)
    ||| "??"@.is_prefix_of(symbol)
    ||| "@"@.is_prefix_of(symbol)
    ||| is_machinery(symbol)
}

/// Whether `symbol` is a head or tail symbol of an import library. The 32-bit
/// toolchain adds an underscore in front, so the name may stand inside the symbol.
pub fn is_import_machinery(symbol: &str) -> (r: bool)
    ensures
        r == is_machinery(symbol@),
{
    text::contains(symbol, "__IMPORT_DESCRIPTOR_")
        || text::contains(symbol, "__NULL_IMPORT_DESCRIPTOR")
        || text::ends_with(symbol, "_NULL_THUNK_DATA")
}

/// The name that a defined global symbol gets: `None` where it keeps its own,
/// else the symbol with the prefix in front.
pub fn rename_target(symbol: &str, keep_prefix: &str) -> (r: Option<String>)
    ensures
        r is None <==> keeps_name(symbol@, keep_prefix@),
        r matches Some(name) ==> name@ == keep_prefix@ + symbol@,
{
    if keep::matches_keep_prefix(symbol, keep_prefix) {
        return None;
    }
    if text::starts_with(symbol, "??") {
        return None;
    }
    if text::starts_with(symbol, "@") {
        return None;
    }
    if is_import_machinery(symbol) {
        return None;
    }
    Some(text::concat(keep_prefix, symbol))
}

/// The `n`-th name to try for a symbol: the base itself, then the base with a
/// number behind it.
pub open spec fn candidate(base: Seq<char>, n: nat) -> Seq<char> {
    if n == 0 {
        base
    } else {
        base + "_"@ + text::decimal_text(n)
    }
}

/// Whether the `n`-th candidate is the first that is not taken.
pub open spec fn is_first_free(taken: Set<Seq<char>>, base: Seq<char>, n: nat) -> bool {
    &&& !taken.contains(candidate(base, n))
    &&& forall|m: nat| m < n ==> taken.contains(#[trigger] candidate(base, m))
}

/// The first candidate that is not taken.
pub open spec fn free_name(taken: Set<Seq<char>>, base: Seq<char>) -> Seq<char> {
    candidate(base, choose|n: nat| is_first_free(taken, base, n))
}

/// The names that are taken once the symbols of a list have been renamed, one
/// after the other, where `reserved` was taken before.
pub open spec fn taken_after(
    symbols: Seq<Seq<char>>,
    reserved: Set<Seq<char>>,
    keep_prefix: Seq<char>,
) -> Set<Seq<char>>
    decreases symbols.len(),
{
    if symbols.len() == 0 {
        reserved
    } else {
        let taken = taken_after(symbols.drop_last(), reserved, keep_prefix);
        if keeps_name(symbols.last(), keep_prefix) {
            taken
        } else {
            taken.insert(free_name(taken, keep_prefix + symbols.last()))
        }
    }
}

/// The renames of the symbols of a list, one after the other: each symbol that
/// does not keep its name, with the first free name under the prefix.
pub open spec fn rename_list(
    symbols: Seq<Seq<char>>,
    reserved: Set<Seq<char>>,
    keep_prefix: Seq<char>,
) -> Seq<(Seq<char>, Seq<char>)>
    decreases symbols.len(),
{
    if symbols.len() == 0 {
        Seq::empty()
    } else {
        let earlier = rename_list(symbols.drop_last(), reserved, keep_prefix);
        let taken = taken_after(symbols.drop_last(), reserved, keep_prefix);
        if keeps_name(symbols.last(), keep_prefix) {
            earlier
        } else {
            earlier.push((symbols.last(), free_name(taken, keep_prefix + symbols.last())))
        }
    }
}

/// The renames that the symbols of an archive get.
pub open spec fn archive_renames(
    defined: Set<Seq<char>>,
    undefined: Set<Seq<char>>,
    keep_prefix: Seq<char>,
) -> Seq<(Seq<char>, Seq<char>)> {
    rename_list(order::listing(defined), defined.union(undefined), keep_prefix)
}

proof fn lemma_candidate_injective(base: Seq<char>, m: nat, n: nat)
    requires
        candidate(base, m) == candidate(base, n),
    ensures
        m == n,
{
    reveal_strlit("_");
    if m > 0 && n > 0 {
        let a = candidate(base, m);
        let b = candidate(base, n);
        assert(a.skip(base.len() as int + 1) =~= text::decimal_text(m));
        assert(b.skip(base.len() as int + 1) =~= text::decimal_text(n));
        text::lemma_decimal_injective(m, n);
    } else if m > 0 {
        assert(candidate(base, m).len() > base.len());
    } else if n > 0 {
        assert(candidate(base, n).len() > base.len());
    }
}

/// No more candidates in a row are taken than there are taken names.
proof fn lemma_taken_candidates(taken: Set<Seq<char>>, base: Seq<char>, n: nat)
    requires
        taken.finite(),
        forall|m: nat| m < n ==> taken.contains(#[trigger] candidate(base, m)),
    ensures
        n <= taken.len(),
    decreases n,
{
    if n > 0 {
        let last = candidate(base, (n - 1) as nat);
        let rest = taken.remove(last);
        assert forall|m: nat| m < n - 1 implies rest.contains(#[trigger] candidate(base, m)) by {
            if candidate(base, m) == last {
                lemma_candidate_injective(base, m, (n - 1) as nat);
            }
        }
        lemma_taken_candidates(rest, base, (n - 1) as nat);
    }
}

proof fn lemma_free_name(taken: Set<Seq<char>>, base: Seq<char>, n: nat)
    requires
        is_first_free(taken, base, n),
    ensures
        free_name(taken, base) == candidate(base, n),
{
    let k = choose|k: nat| is_first_free(taken, base, k);
    assert(is_first_free(taken, base, k));
    if k < n {
        assert(taken.contains(candidate(base, k)));
    } else if n < k {
        assert(taken.contains(candidate(base, n)));
    }
}

/// Some candidate is always free.
pub proof fn lemma_some_candidate_is_free(taken: Set<Seq<char>>, base: Seq<char>)
    requires
        taken.finite(),
    ensures
        exists|n: nat| is_first_free(taken, base, n),
        !taken.contains(free_name(taken, base)),
{
    if !exists|n: nat| is_first_free(taken, base, n) {
        assert forall|n: nat| #[trigger] taken.contains(candidate(base, n)) by {
            lemma_all_taken(taken, base, n);
        }
        lemma_taken_candidates(taken, base, taken.len() + 1);
    }
}

proof fn lemma_all_taken(taken: Set<Seq<char>>, base: Seq<char>, n: nat)
    requires
        forall|k: nat| !is_first_free(taken, base, k),
    ensures
        forall|m: nat| m <= n ==> taken.contains(#[trigger] candidate(base, m)),
    decreases n,
{
    if n > 0 {
        lemma_all_taken(taken, base, (n - 1) as nat);
    }
    assert(!is_first_free(taken, base, n));
    assert forall|m: nat| m <= n implies taken.contains(#[trigger] candidate(base, m)) by {
        if m < n {
            assert(m <= (n - 1) as nat);
        }
    }
}

fn choose_name(taken: &StringHashSet, base: &str) -> (r: String)
    requires
        taken@.finite(),
    ensures
        r@ == free_name(taken@, base@),
{
    let bound: usize = taken.len();
    let mut target = base.to_owned();
    let mut n: u64 = 0;
    while taken.contains(target.as_str())
        invariant
            taken@.finite(),
            bound == taken@.len(),
            target@ == candidate(base@, n as nat),
            forall|m: nat| m < n ==> taken@.contains(#[trigger] candidate(base@, m)),
            n <= bound,
        decreases bound - n,
    {
        proof {
            assert(forall|m: nat| m < n + 1 ==> taken@.contains(#[trigger] candidate(base@, m)));
            lemma_taken_candidates(taken@, base@, (n + 1) as nat);
        }
        n = n + 1;
        target = text::concat(text::concat(base, "_").as_str(), text::decimal(n).as_str());
    }
    proof {
        lemma_free_name(taken@, base@, n as nat);
    }
    target
}

/// The rename map of a whole archive: every defined global that does not keep
/// its name, in ascending order, with a name under the prefix that no symbol of
/// the archive and no earlier rename has.
pub fn build_renames(
    defined: &SymbolSet,
    undefined: &SymbolSet,
    keep_prefix: &str,
) -> (r: Vec<(String, String)>)
    requires
        defined.wf(),
        undefined.wf(),
    ensures
        r.deep_view() == archive_renames(defined@, undefined@, keep_prefix@),
{
    let symbols = defined.sorted();
    let ghost list = symbols.deep_view();
    let ghost reserved = defined@.union(undefined@);
    let mut taken = StringHashSet::new();
    add_all(&mut taken, defined.names());
    add_all(&mut taken, undefined.names());
    assert(taken@ =~= reserved);
    let mut renames: Vec<(String, String)> = Vec::new();
    assert(renames.deep_view() =~= Seq::empty());
    let n: usize = symbols.len();
    for i in 0..n
        invariant
            n == symbols@.len(),
            list == symbols.deep_view(),
            taken@.finite(),
            taken@ == taken_after(list.take(i as int), reserved, keep_prefix@),
            renames.deep_view() == rename_list(list.take(i as int), reserved, keep_prefix@),
    {
        let symbol = symbols[i].as_str();
        let ghost seen = list.take(i + 1);
        assert(seen.drop_last() =~= list.take(i as int));
        assert(seen.last() == symbol@);
        match rename_target(symbol, keep_prefix) {
            None => {},
            Some(base) => {
                let target = choose_name(&taken, base.as_str());
                taken.insert(target.clone());
                let ghost before = renames.deep_view();
                renames.push((symbol.to_owned(), target));
                assert(renames.deep_view() =~= before.push((symbol@, target@)));
            },
        }
    }
    assert(list.take(n as int) =~= list);
    renames
}

fn add_all(set: &mut StringHashSet, names: &Vec<String>)
    ensures
        final(set)@ == old(set)@.union(names.deep_view().to_set()),
        old(set)@.finite() ==> final(set)@.finite(),
{
    let n: usize = names.len();
    assert(names.deep_view().take(0).to_set() =~= Set::empty());
    assert(set@.union(Set::empty()) =~= set@);
    for i in 0..n
        invariant
            n == names@.len(),
            set@ == old(set)@.union(names.deep_view().take(i as int).to_set()),
            old(set)@.finite() ==> set@.finite(),
    {
        let ghost seen = names.deep_view().take(i as int);
        assert(names.deep_view().take(i + 1) =~= seen.push(names@[i as int]@));
        proof {
            crate::names::lemma_push_to_set(seen, names@[i as int]@);
        }
        set.insert(names[i].clone());
        assert(set@ =~= old(set)@.union(names.deep_view().take(i + 1).to_set()));
    }
    assert(names.deep_view().take(n as int) =~= names.deep_view());
}

/// The name of a symbol after the renames of a list have been applied.
pub open spec fn new_name(renames: Seq<(Seq<char>, Seq<char>)>, symbol: Seq<char>) -> Seq<char> {
    if exists|i: int| 0 <= i < renames.len() && (#[trigger] renames[i]).0 == symbol {
        renames[choose|i: int| 0 <= i < renames.len() && (#[trigger] renames[i]).0 == symbol].1
    } else {
        symbol
    }
}

proof fn lemma_rename_list(
    symbols: Seq<Seq<char>>,
    reserved: Set<Seq<char>>,
    keep_prefix: Seq<char>,
)
    requires
        reserved.finite(),
        symbols.no_duplicates(),
    ensures
        ({
            let r = rename_list(symbols, reserved, keep_prefix);
            let taken = taken_after(symbols, reserved, keep_prefix);
            &&& taken.finite()
            &&& reserved.subset_of(taken)
            &&& forall|i: int| 0 <= i < r.len() ==> {
                &&& symbols.contains((#[trigger] r[i]).0)
                &&& !keeps_name(r[i].0, keep_prefix)
                &&& keep_prefix.is_prefix_of(r[i].1)
                &&& !reserved.contains(r[i].1)
                &&& taken.contains(r[i].1)
            }
            &&& forall|i: int, j: int| 0 <= i < j < r.len() ==> {
                &&& (#[trigger] r[i]).0 != (#[trigger] r[j]).0
                &&& r[i].1 != r[j].1
            }
            &&& forall|s: Seq<char>| #[trigger]
                symbols.contains(s) && !keeps_name(s, keep_prefix) ==> exists|i: int|
                    0 <= i < r.len() && (#[trigger] r[i]).0 == s
        }),
    decreases symbols.len(),
{
    let r = rename_list(symbols, reserved, keep_prefix);
    let taken = taken_after(symbols, reserved, keep_prefix);
    if symbols.len() > 0 {
        let rest = symbols.drop_last();
        let last = symbols.last();
        let e = rename_list(rest, reserved, keep_prefix);
        let t = taken_after(rest, reserved, keep_prefix);
        lemma_rename_list(rest, reserved, keep_prefix);
        assert(symbols[symbols.len() - 1] == last);
        assert forall|s: Seq<char>| rest.contains(s) implies symbols.contains(s) by {
            let k = choose|k: int| 0 <= k < rest.len() && rest[k] == s;
            assert(symbols[k] == s);
        }
        assert(!rest.contains(last)) by {
            if rest.contains(last) {
                let k = choose|k: int| 0 <= k < rest.len() && rest[k] == last;
                assert(symbols[k] == symbols[symbols.len() - 1]);
            }
        }
        if !keeps_name(last, keep_prefix) {
            let base = keep_prefix + last;
            let name = free_name(t, base);
            lemma_some_candidate_is_free(t, base);
            let n = choose|n: nat| is_first_free(t, base, n);
            assert(name == candidate(base, n));
            assert(keep_prefix.is_prefix_of(name)) by {
                assert(name.subrange(0, keep_prefix.len() as int) =~= keep_prefix);
            }
            assert(r == e.push((last, name)));
            assert(r[e.len() as int] == (last, name));
        }
        assert forall|s: Seq<char>| #[trigger]
            symbols.contains(s) && !keeps_name(s, keep_prefix) implies exists|i: int|
            0 <= i < r.len() && (#[trigger] r[i]).0 == s by {
            let k = choose|k: int| 0 <= k < symbols.len() && symbols[k] == s;
            if k < rest.len() {
                assert(rest[k] == s);
                assert(rest.contains(s));
                let i = choose|i: int| 0 <= i < e.len() && (#[trigger] e[i]).0 == s;
                assert(r[i].0 == s);
            } else {
                assert(r[e.len() as int].0 == s);
            }
        }
    }
}

proof fn lemma_archive_renames(
    defined: Set<Seq<char>>,
    undefined: Set<Seq<char>>,
    keep_prefix: Seq<char>,
)
    requires
        defined.finite(),
        undefined.finite(),
    ensures
        order::listing(defined).no_duplicates(),
        order::listing(defined).to_set() == defined,
{
    order::lemma_listing_exists(defined);
    order::lemma_ascending_distinct(order::listing(defined));
}

/// A symbol is renamed exactly where the archive defines it and it does not
/// keep its name, and then it is renamed once.
pub proof fn renames_exactly_the_internal_symbols(
    defined: Set<Seq<char>>,
    undefined: Set<Seq<char>>,
    keep_prefix: Seq<char>,
    symbol: Seq<char>,
)
    requires
        defined.finite(),
        undefined.finite(),
    ensures
        ({
            let r = archive_renames(defined, undefined, keep_prefix);
            &&& (exists|i: int| 0 <= i < r.len() && (#[trigger] r[i]).0 == symbol)
                <==> defined.contains(symbol) && !keeps_name(symbol, keep_prefix)
            &&& forall|i: int, j: int|
                0 <= i < r.len() && 0 <= j < r.len() && (#[trigger] r[i]).0 == symbol && (
                #[trigger] r[j]).0 == symbol ==> i == j
        }),
{
    lemma_archive_renames(defined, undefined, keep_prefix);
    let list = order::listing(defined);
    let r = archive_renames(defined, undefined, keep_prefix);
    lemma_rename_list(list, defined.union(undefined), keep_prefix);
    if exists|i: int| 0 <= i < r.len() && (#[trigger] r[i]).0 == symbol {
        let i = choose|i: int| 0 <= i < r.len() && (#[trigger] r[i]).0 == symbol;
        assert(list.contains(r[i].0));
        assert(list.to_set().contains(symbol));
    }
    if defined.contains(symbol) {
        assert(list.to_set().contains(symbol));
        assert(list.contains(symbol));
    }
}

/// Every new name carries the prefix, belongs to no symbol that the archive
/// defines or refers to, and is given once.
pub proof fn new_names_are_fresh(
    defined: Set<Seq<char>>,
    undefined: Set<Seq<char>>,
    keep_prefix: Seq<char>,
)
    requires
        defined.finite(),
        undefined.finite(),
    ensures
        ({
            let r = archive_renames(defined, undefined, keep_prefix);
            &&& forall|i: int| 0 <= i < r.len() ==> {
                &&& keep_prefix.is_prefix_of((#[trigger] r[i]).1)
                &&& !defined.contains(r[i].1)
                &&& !undefined.contains(r[i].1)
            }
            &&& forall|i: int, j: int|
                0 <= i < j < r.len() ==> (#[trigger] r[i]).1 != (#[trigger] r[j]).1
        }),
{
    lemma_archive_renames(defined, undefined, keep_prefix);
    lemma_rename_list(order::listing(defined), defined.union(undefined), keep_prefix);
}

proof fn lemma_new_name(
    defined: Set<Seq<char>>,
    undefined: Set<Seq<char>>,
    keep_prefix: Seq<char>,
    symbol: Seq<char>,
) -> (k: int)
    requires
        defined.finite(),
        undefined.finite(),
    ensures
        ({
            let r = archive_renames(defined, undefined, keep_prefix);
            if defined.contains(symbol) && !keeps_name(symbol, keep_prefix) {
                &&& 0 <= k < r.len()
                &&& r[k].0 == symbol
                &&& new_name(r, symbol) == r[k].1
            } else {
                new_name(r, symbol) == symbol
            }
        }),
{
    let r = archive_renames(defined, undefined, keep_prefix);
    renames_exactly_the_internal_symbols(defined, undefined, keep_prefix, symbol);
    choose|i: int| 0 <= i < r.len() && (#[trigger] r[i]).0 == symbol
}

/// Renaming keeps apart what was apart: two different names that an archive
/// defines or refers to are different afterwards, so no definition is doubled
/// and no reference is captured by another symbol.
pub proof fn renaming_keeps_symbols_apart(
    defined: Set<Seq<char>>,
    undefined: Set<Seq<char>>,
    keep_prefix: Seq<char>,
    a: Seq<char>,
    b: Seq<char>,
)
    requires
        defined.finite(),
        undefined.finite(),
        defined.contains(a) || undefined.contains(a),
        defined.contains(b) || undefined.contains(b),
        a != b,
    ensures
        ({
            let r = archive_renames(defined, undefined, keep_prefix);
            new_name(r, a) != new_name(r, b)
        }),
{
    let i = lemma_new_name(defined, undefined, keep_prefix, a);
    let j = lemma_new_name(defined, undefined, keep_prefix, b);
    let r = archive_renames(defined, undefined, keep_prefix);
    new_names_are_fresh(defined, undefined, keep_prefix);
    if defined.contains(a) && !keeps_name(a, keep_prefix) && defined.contains(b) && !keeps_name(
        b,
        keep_prefix,
    ) {
        assert(i != j);
        if i < j {
            assert(r[i].1 != r[j].1);
        } else {
            assert(r[j].1 != r[i].1);
        }
    }
}

/// Public API and references to symbols that the archive does not define keep
/// their names.
pub proof fn renaming_leaves_api_and_references(
    defined: Set<Seq<char>>,
    undefined: Set<Seq<char>>,
    keep_prefix: Seq<char>,
    symbol: Seq<char>,
)
    requires
        defined.finite(),
        undefined.finite(),
        keep::is_api(symbol, keep_prefix) || !defined.contains(symbol),
    ensures
        new_name(archive_renames(defined, undefined, keep_prefix), symbol) == symbol,
{
    let k = lemma_new_name(defined, undefined, keep_prefix, symbol);
}

/// After renaming, every symbol that the archive defines may stay global, or
/// is machinery of an import library.
pub proof fn renamed_symbols_are_allowed(
    defined: Set<Seq<char>>,
    undefined: Set<Seq<char>>,
    keep_prefix: Seq<char>,
    symbol: Seq<char>,
)
    requires
        defined.finite(),
        undefined.finite(),
        defined.contains(symbol),
    ensures
        ({
            let name = new_name(archive_renames(defined, undefined, keep_prefix), symbol);
            keep::is_allowed_global(name, keep_prefix) || is_machinery(name)
        }),
{
    let k = lemma_new_name(defined, undefined, keep_prefix, symbol);
    new_names_are_fresh(defined, undefined, keep_prefix);
}

proof fn lemma_renames_ascend(
    symbols: Seq<Seq<char>>,
    reserved: Set<Seq<char>>,
    keep_prefix: Seq<char>,
)
    requires
        reserved.finite(),
        order::ascending(symbols),
    ensures
        ({
            let r = rename_list(symbols, reserved, keep_prefix);
            forall|i: int, j: int|
                0 <= i < j < r.len() ==> order::comes_before(
                    (#[trigger] r[i]).0,
                    (#[trigger] r[j]).0,
                )
        }),
    decreases symbols.len(),
{
    if symbols.len() > 0 {
        let rest = symbols.drop_last();
        let earlier = rename_list(rest, reserved, keep_prefix);
        let r = rename_list(symbols, reserved, keep_prefix);
        lemma_renames_ascend(rest, reserved, keep_prefix);
        order::lemma_ascending_distinct(rest);
        lemma_rename_list(rest, reserved, keep_prefix);
        assert forall|i: int, j: int| 0 <= i < j < r.len() implies order::comes_before(
            (#[trigger] r[i]).0,
            (#[trigger] r[j]).0,
        ) by {
            if j < earlier.len() {
                assert(r[i] == earlier[i] && r[j] == earlier[j]);
            } else {
                assert(r[i] == earlier[i]);
                assert(rest.contains(earlier[i].0));
                let k = choose|k: int| 0 <= k < rest.len() && rest[k] == earlier[i].0;
                assert(order::comes_before(symbols[k], symbols[symbols.len() - 1]));
            }
        }
    }
}

/// The renames of an archive come in the order of the old names, so the same
/// symbols always give the same list.
pub proof fn renames_come_in_order(
    defined: Set<Seq<char>>,
    undefined: Set<Seq<char>>,
    keep_prefix: Seq<char>,
    i: int,
    j: int,
)
    requires
        defined.finite(),
        undefined.finite(),
        0 <= i < j < archive_renames(defined, undefined, keep_prefix).len(),
    ensures
        order::comes_before(
            archive_renames(defined, undefined, keep_prefix)[i].0,
            archive_renames(defined, undefined, keep_prefix)[j].0,
        ),
{
    order::lemma_listing_exists(defined);
    lemma_renames_ascend(order::listing(defined), defined.union(undefined), keep_prefix);
}

/// What keeps its name, by its form: a symbol that begins with the prefix, with an
/// underscore and the prefix, with `??` or with `@`, that holds
/// `__IMPORT_DESCRIPTOR_` or `__NULL_IMPORT_DESCRIPTOR`, or that ends with
/// `_NULL_THUNK_DATA`.
pub proof fn kept_names_by_their_form(symbol: Seq<char>, keep_prefix: Seq<char>)
    ensures
        keeps_name(symbol, keep_prefix) <==> {
            ||| keep_prefix.is_prefix_of(symbol)
            ||| ("_"@ + keep_prefix).is_prefix_of(symbol)
            ||| "??"@.is_prefix_of(symbol)
            ||| "@"@.is_prefix_of(symbol)
            ||| exists|before: Seq<char>, after: Seq<char>|
                symbol == #[trigger] (before + "__IMPORT_DESCRIPTOR_"@ + after)
            ||| exists|before: Seq<char>, after: Seq<char>|
                symbol == #[trigger] (before + "__NULL_IMPORT_DESCRIPTOR"@ + after)
            ||| "_NULL_THUNK_DATA"@.is_suffix_of(symbol)
        },
        is_machinery(symbol) <==> {
            ||| exists|before: Seq<char>, after: Seq<char>|
                symbol == #[trigger] (before + "__IMPORT_DESCRIPTOR_"@ + after)
            ||| exists|before: Seq<char>, after: Seq<char>|
                symbol == #[trigger] (before + "__NULL_IMPORT_DESCRIPTOR"@ + after)
            ||| "_NULL_THUNK_DATA"@.is_suffix_of(symbol)
        },
{
    keep::the_interface_begins_with_the_prefix(symbol, keep_prefix);
    text::what_is_held_has_two_sides(symbol, "__IMPORT_DESCRIPTOR_"@);
    text::what_is_held_has_two_sides(symbol, "__NULL_IMPORT_DESCRIPTOR"@);
}

/// A defined symbol is renamed exactly where its form does not keep its name, and
/// nothing else is renamed.
pub proof fn renamed_symbols_by_their_form(
    defined: Set<Seq<char>>,
    undefined: Set<Seq<char>>,
    keep_prefix: Seq<char>,
    symbol: Seq<char>,
)
    requires
        defined.finite(),
        undefined.finite(),
    ensures
        (exists|i: int|
            0 <= i < archive_renames(defined, undefined, keep_prefix).len() && (
            #[trigger] archive_renames(defined, undefined, keep_prefix)[i]).0 == symbol) <==> {
            &&& defined.contains(symbol)
            &&& !keep_prefix.is_prefix_of(symbol)
            &&& !("_"@ + keep_prefix).is_prefix_of(symbol)
            &&& !"??"@.is_prefix_of(symbol)
            &&& !"@"@.is_prefix_of(symbol)
            &&& !exists|before: Seq<char>, after: Seq<char>|
                symbol == #[trigger] (before + "__IMPORT_DESCRIPTOR_"@ + after)
            &&& !exists|before: Seq<char>, after: Seq<char>|
                symbol == #[trigger] (before + "__NULL_IMPORT_DESCRIPTOR"@ + after)
            &&& !"_NULL_THUNK_DATA"@.is_suffix_of(symbol)
        },
{
    kept_names_by_their_form(symbol, keep_prefix);
    renames_exactly_the_internal_symbols(defined, undefined, keep_prefix, symbol);
}

/// The names that are taken are those that were, and the new names of the renames so
/// far.
proof fn lemma_taken(symbols: Seq<Seq<char>>, reserved: Set<Seq<char>>, keep_prefix: Seq<char>)
    ensures
        forall|name: Seq<char>| #[trigger]
            taken_after(symbols, reserved, keep_prefix).contains(name) <==> {
                let r = rename_list(symbols, reserved, keep_prefix);
                reserved.contains(name) || exists|j: int|
                    0 <= j < r.len() && (#[trigger] r[j]).1 == name
            },
    decreases symbols.len(),
{
    if symbols.len() > 0 {
        let rest = symbols.drop_last();
        let e = rename_list(rest, reserved, keep_prefix);
        let r = rename_list(symbols, reserved, keep_prefix);
        lemma_taken(rest, reserved, keep_prefix);
        assert forall|name: Seq<char>| #[trigger]
            taken_after(symbols, reserved, keep_prefix).contains(name) <==> reserved.contains(name)
                || exists|j: int| 0 <= j < r.len() && (#[trigger] r[j]).1 == name by {
            if exists|j: int| 0 <= j < e.len() && (#[trigger] e[j]).1 == name {
                let j = choose|j: int| 0 <= j < e.len() && (#[trigger] e[j]).1 == name;
                assert(r[j].1 == name);
            }
            if exists|j: int| 0 <= j < r.len() && (#[trigger] r[j]).1 == name {
                let j = choose|j: int| 0 <= j < r.len() && (#[trigger] r[j]).1 == name;
                if j < e.len() {
                    assert(e[j].1 == name);
                }
            }
            if !keeps_name(symbols.last(), keep_prefix) {
                assert(r[e.len() as int] == r.last());
            }
        }
    }
}

proof fn lemma_list_grows(
    symbols: Seq<Seq<char>>,
    reserved: Set<Seq<char>>,
    keep_prefix: Seq<char>,
    i: int,
) -> (n: nat)
    requires
        reserved.finite(),
        symbols.no_duplicates(),
        0 <= i < rename_list(symbols, reserved, keep_prefix).len(),
    ensures
        ({
            let r = rename_list(symbols, reserved, keep_prefix);
            &&& r[i].1 == candidate(keep_prefix + r[i].0, n)
            &&& forall|m: nat|
                m < n ==> reserved.contains(#[trigger] candidate(keep_prefix + r[i].0, m))
                    || exists|j: int|
                    0 <= j < i && (#[trigger] r[j]).1 == candidate(keep_prefix + r[i].0, m)
        }),
    decreases symbols.len(),
{
    let rest = symbols.drop_last();
    let e = rename_list(rest, reserved, keep_prefix);
    let r = rename_list(symbols, reserved, keep_prefix);
    if i < e.len() {
        let n = lemma_list_grows(rest, reserved, keep_prefix, i);
        assert forall|j: int| 0 <= j <= i implies e[j] == #[trigger] r[j] by {}
        assert(r[i] == e[i]);
        assert forall|m: nat| m < n implies reserved.contains(
            #[trigger] candidate(keep_prefix + r[i].0, m),
        ) || exists|j: int|
            0 <= j < i && (#[trigger] r[j]).1 == candidate(keep_prefix + r[i].0, m) by {
            let tried = candidate(keep_prefix + e[i].0, m);
            if !reserved.contains(tried) {
                let j = choose|j: int| 0 <= j < i && (#[trigger] e[j]).1 == tried;
                assert(r[j].1 == tried);
            }
        }
        n
    } else {
        let taken = taken_after(rest, reserved, keep_prefix);
        let base = keep_prefix + symbols.last();
        lemma_rename_list(rest, reserved, keep_prefix);
        lemma_taken(rest, reserved, keep_prefix);
        lemma_some_candidate_is_free(taken, base);
        let n = choose|n: nat| is_first_free(taken, base, n);
        assert(r[i] == (symbols.last(), candidate(base, n)));
        assert forall|m: nat| m < n implies reserved.contains(
            #[trigger] candidate(keep_prefix + r[i].0, m),
        ) || exists|j: int|
            0 <= j < i && (#[trigger] r[j]).1 == candidate(keep_prefix + r[i].0, m) by {
            let tried = candidate(base, m);
            assert(taken.contains(tried));
            if !reserved.contains(tried) {
                let j = choose|j: int| 0 <= j < e.len() && (#[trigger] e[j]).1 == tried;
                assert(r[j].1 == tried);
            }
        }
        n
    }
}

/// A new name is the prefix with the old name behind it, and where that is taken, with
/// the first of `_1`, `_2` and so on behind it that makes a free name. Taken are the
/// names that the archive defines or refers to, and the new names before it.
pub proof fn new_names_say_the_old(
    defined: Set<Seq<char>>,
    undefined: Set<Seq<char>>,
    keep_prefix: Seq<char>,
    i: int,
) -> (n: nat)
    requires
        defined.finite(),
        undefined.finite(),
        0 <= i < archive_renames(defined, undefined, keep_prefix).len(),
    ensures
        ({
            let r = archive_renames(defined, undefined, keep_prefix);
            let base = keep_prefix + r[i].0;
            &&& n == 0 ==> r[i].1 == base
            &&& n > 0 ==> r[i].1 == base + "_"@ + text::decimal_text(n)
            &&& n > 0 ==> defined.contains(base) || undefined.contains(base) || exists|j: int|
                0 <= j < i && (#[trigger] r[j]).1 == base
            &&& forall|m: nat|
                0 < m < n ==> {
                    let tried = base + "_"@ + #[trigger] text::decimal_text(m);
                    defined.contains(tried) || undefined.contains(tried) || exists|j: int|
                        0 <= j < i && (#[trigger] r[j]).1 == tried
                }
        }),
{
    lemma_archive_renames(defined, undefined, keep_prefix);
    let n = lemma_list_grows(
        order::listing(defined),
        defined.union(undefined),
        keep_prefix,
        i,
    );
    let r = archive_renames(defined, undefined, keep_prefix);
    let base = keep_prefix + r[i].0;
    assert(candidate(base, 0) == base);
    assert forall|m: nat| 0 < m < n implies {
        let tried = base + "_"@ + #[trigger] text::decimal_text(m);
        defined.contains(tried) || undefined.contains(tried) || exists|j: int|
            0 <= j < i && (#[trigger] r[j]).1 == tried
    } by {
        assert(candidate(base, m) == base + "_"@ + text::decimal_text(m));
    }
    n
}

} // verus!
