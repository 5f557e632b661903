//! The list of the symbols to hide where symbols are hidden by name.

use vstd::prelude::*;
use vstd::string::*;

use crate::lists;
use crate::order;
use crate::text;
use crate::text::{join, starts_with};

verus! {

/// Whether a name starts with one of the prefixes.
pub open spec fn starts_with_any(name: Seq<char>, prefixes: Seq<Seq<char>>) -> bool {
    exists|i: int| 0 <= i < prefixes.len() && (#[trigger] prefixes[i]).is_prefix_of(name)
}

fn has_prefix(name: &str, prefixes: &Vec<String>) -> (r: bool)
    ensures
        r == starts_with_any(name@, prefixes.deep_view()),
{
    let n: usize = prefixes.len();
    for i in 0..n
        invariant
            n == prefixes@.len(),
            forall|j: int|
                0 <= j < i ==> !(#[trigger] prefixes.deep_view()[j]).is_prefix_of(name@),
    {
        assert(prefixes.deep_view()[i as int] == prefixes@[i as int]@);
        if starts_with(name, prefixes[i].as_str()) {
            return true;
        }
    }
    false
}

/// The names that start with one of the prefixes.
pub open spec fn names_with(names: Seq<Seq<char>>, prefixes: Seq<Seq<char>>) -> Seq<Seq<char>> {
    names.filter(|name: Seq<char>| starts_with_any(name, prefixes))
}

/// Selects the symbols that start with one of the prefixes.
pub fn filter_symbols_by_prefix(symbols: &Vec<String>, prefixes: &Vec<String>) -> (r: Vec<String>)
    ensures
        r.deep_view() == names_with(symbols.deep_view(), prefixes.deep_view()),
{
    let ghost all = symbols.deep_view();
    let ghost picked = |name: Seq<char>| starts_with_any(name, prefixes.deep_view());
    let mut out: Vec<String> = Vec::new();
    let n: usize = symbols.len();
    proof {
        lists::lemma_filter_none(all, picked);
        assert(out.deep_view() =~= Seq::empty());
    }
    for i in 0..n
        invariant
            n == symbols@.len(),
            all == symbols.deep_view(),
            picked == |name: Seq<char>| starts_with_any(name, prefixes.deep_view()),
            out.deep_view() == all.take(i as int).filter(picked),
    {
        proof {
            lists::lemma_filter_step(all, i as int, picked);
        }
        if has_prefix(symbols[i].as_str(), prefixes) {
            let ghost before = out.deep_view();
            out.push(symbols[i].clone());
            assert(out.deep_view() =~= before.push(all[i as int]));
        }
    }
    assert(all.take(n as int) =~= all);
    out
}

/// Why there is no list.
#[derive(Clone, Copy, PartialEq, Eq, Debug, Structural)]
pub enum BlocklistError {
    /// The list of symbols is empty.
    EmptySymbols,
    /// The list of prefixes is empty.
    EmptyPrefixes,
    /// There is nothing to hide.
    NothingToHide,
}

/// The symbols to hide, and where they come from.
pub struct Blocklist {
    pub symbols: Vec<String>,
    pub has_default: bool,
    pub has_custom: bool,
    pub has_prefix: bool,
}

/// What a `Blocklist` says.
pub struct BlocklistView {
    pub symbols: Seq<Seq<char>>,
    pub has_default: bool,
    pub has_custom: bool,
    pub has_prefix: bool,
}

impl DeepView for Blocklist {
    type V = BlocklistView;

    open spec fn deep_view(&self) -> BlocklistView {
        BlocklistView {
            symbols: self.symbols.deep_view(),
            has_default: self.has_default,
            has_custom: self.has_custom,
            has_prefix: self.has_prefix,
        }
    }
}

/// What the making of a list says.
pub open spec fn blocklist_view(r: Result<Blocklist, BlocklistError>) -> Result<
    BlocklistView,
    BlocklistError,
> {
    match r {
        Ok(list) => Ok(list.deep_view()),
        Err(error) => Err(error),
    }
}

/// The names of a list that may be missing.
pub open spec fn names_of(list: Option<Vec<String>>) -> Option<Seq<Seq<char>>> {
    match list {
        Some(names) => Some(names.deep_view()),
        None => None,
    }
}

/// The symbols from all sources: the default ones where they are asked for or
/// nothing else is given, those that are named, and those of the library that start
/// with one of the prefixes.
pub open spec fn gathered(
    defaults: Seq<Seq<char>>,
    custom: Option<Seq<Seq<char>>>,
    prefixes: Option<Seq<Seq<char>>>,
    library: Seq<Seq<char>>,
    use_default: bool,
) -> Seq<Seq<char>> {
    (if use_default || (custom is None && prefixes is None) {
        defaults
    } else {
        Seq::empty()
    }) + (match custom {
        Some(names) => names,
        None => Seq::empty(),
    }) + (match prefixes {
        Some(prefixes) => names_with(library, prefixes),
        None => Seq::empty(),
    })
}

/// The list of the symbols to hide, in ascending order and each of them once.
pub open spec fn blocklist_of(
    defaults: Seq<Seq<char>>,
    custom: Option<Seq<Seq<char>>>,
    prefixes: Option<Seq<Seq<char>>>,
    library: Seq<Seq<char>>,
    use_default: bool,
) -> Result<BlocklistView, BlocklistError> {
    let all = gathered(defaults, custom, prefixes, library, use_default);
    if custom matches Some(names) && names.len() == 0 {
        Err(BlocklistError::EmptySymbols)
    } else if prefixes matches Some(prefixes) && prefixes.len() == 0 {
        Err(BlocklistError::EmptyPrefixes)
    } else if all.len() == 0 {
        Err(BlocklistError::NothingToHide)
    } else {
        Ok(
            BlocklistView {
                symbols: order::listing(all.to_set()),
                has_default: use_default || (custom is None && prefixes is None),
                has_custom: custom is Some,
                has_prefix: prefixes is Some,
            },
        )
    }
}

fn add_copies(out: &mut Vec<String>, names: &Vec<String>)
    ensures
        final(out).deep_view() == old(out).deep_view() + names.deep_view(),
{
    let ghost before = out.deep_view();
    let ghost all = names.deep_view();
    let n: usize = names.len();
    for i in 0..n
        invariant
            n == names@.len(),
            all == names.deep_view(),
            out.deep_view() =~= before + all.take(i as int),
    {
        let ghost here = out.deep_view();
        out.push(names[i].clone());
        assert(out.deep_view() =~= here.push(all[i as int]));
    }
    assert(all.take(n as int) =~= all);
}

/// Makes the list of the symbols to hide, given the default ones and the public
/// symbols of the library.
pub fn patch_blocklist(
    defaults: &Vec<String>,
    custom: &Option<Vec<String>>,
    prefixes: &Option<Vec<String>>,
    library: &Vec<String>,
    use_default: bool,
) -> (r: Result<Blocklist, BlocklistError>)
    ensures
        blocklist_view(r) == blocklist_of(
            defaults.deep_view(),
            names_of(*custom),
            names_of(*prefixes),
            library.deep_view(),
            use_default,
        ),
{
    let has_default = use_default || (custom.is_none() && prefixes.is_none());
    let mut all: Vec<String> = Vec::new();
    assert(all.deep_view() =~= Seq::empty());
    if has_default {
        add_copies(&mut all, defaults);
    }
    let ghost first = all.deep_view();
    assert(first =~= if has_default {
        defaults.deep_view()
    } else {
        Seq::empty()
    });
    if let Some(names) = custom {
        assert(names.deep_view().len() == names@.len());
        if names.len() == 0 {
            return Err(BlocklistError::EmptySymbols);
        }
        add_copies(&mut all, names);
    }
    let ghost second = all.deep_view();
    assert(second =~= first + match names_of(*custom) {
        Some(names) => names,
        None => Seq::empty(),
    });
    if let Some(given) = prefixes {
        assert(given.deep_view().len() == given@.len());
        if given.len() == 0 {
            return Err(BlocklistError::EmptyPrefixes);
        }
        let filtered = filter_symbols_by_prefix(library, given);
        add_copies(&mut all, &filtered);
    }
    assert(all.deep_view() =~= gathered(
        defaults.deep_view(),
        names_of(*custom),
        names_of(*prefixes),
        library.deep_view(),
        use_default,
    ));
    assert(all.deep_view().len() == all@.len());
    if all.len() == 0 {
        return Err(BlocklistError::NothingToHide);
    }
    let symbols = order::sorted(&all);
    Ok(
        Blocklist {
            symbols,
            has_default,
            has_custom: custom.is_some(),
            has_prefix: prefixes.is_some(),
        },
    )
}

/// The sources of a list.
pub open spec fn sources_of(list: BlocklistView) -> Seq<Seq<char>> {
    (if list.has_default {
        seq!["default"@]
    } else {
        Seq::empty()
    }) + (if list.has_custom {
        seq!["custom"@]
    } else {
        Seq::empty()
    }) + (if list.has_prefix {
        seq!["prefix-filtered"@]
    } else {
        Seq::empty()
    })
}

/// Describes the sources of a list.
pub fn describe_sources(list: &Blocklist) -> (r: String)
    ensures
        r@ == text::joined(sources_of(list.deep_view()), " + "@),
{
    let mut sources: Vec<String> = Vec::new();
    if list.has_default {
        sources.push("default".to_owned());
    }
    if list.has_custom {
        sources.push("custom".to_owned());
    }
    if list.has_prefix {
        sources.push("prefix-filtered".to_owned());
    }
    assert(sources.deep_view() =~= sources_of(list.deep_view()));
    join(&sources, " + ")
}

/// A list holds exactly the gathered symbols, in ascending order and each of them
/// once.
pub proof fn blocklist_holds_what_was_gathered(
    defaults: Seq<Seq<char>>,
    custom: Option<Seq<Seq<char>>>,
    prefixes: Option<Seq<Seq<char>>>,
    library: Seq<Seq<char>>,
    use_default: bool,
    name: Seq<char>,
)
    requires
        blocklist_of(defaults, custom, prefixes, library, use_default) is Ok,
    ensures
        ({
            let list = blocklist_of(defaults, custom, prefixes, library, use_default)->Ok_0.symbols;
            &&& order::ascending(list)
            &&& list.no_duplicates()
            &&& list.contains(name) <==> gathered(
                defaults,
                custom,
                prefixes,
                library,
                use_default,
            ).contains(name)
        }),
{
    let all = gathered(defaults, custom, prefixes, library, use_default);
    let list = order::listing(all.to_set());
    order::lemma_listing_exists(all.to_set());
    order::lemma_ascending_distinct(list);
    assert(list.contains(name) <==> list.to_set().contains(name));
    assert(all.contains(name) <==> all.to_set().contains(name));
}

/// The symbols that are selected are those that begin with one of the prefixes, in
/// their order.
pub proof fn symbols_are_selected_by_prefix(names: Seq<Seq<char>>, prefixes: Seq<Seq<char>>)
    ensures
        names_with(names, prefixes) == names.filter(
            |name: Seq<char>|
                exists|i: int|
                    0 <= i < prefixes.len() && (#[trigger] prefixes[i]).is_prefix_of(name),
        ),
{
    let picked = |name: Seq<char>| starts_with_any(name, prefixes);
    let stated = |name: Seq<char>|
        exists|i: int| 0 <= i < prefixes.len() && (#[trigger] prefixes[i]).is_prefix_of(name);
    lists::lemma_filter_alike(names, picked, stated);
}

/// A symbol is on the list exactly where it is named, or begins with one of the
/// prefixes and is in the library, or is one of the default ones and these are asked
/// for or nothing else is given. Each is on it once, in ascending order.
pub proof fn symbols_on_the_list(
    defaults: Seq<Seq<char>>,
    custom: Option<Seq<Seq<char>>>,
    prefixes: Option<Seq<Seq<char>>>,
    library: Seq<Seq<char>>,
    use_default: bool,
    name: Seq<char>,
)
    ensures
        blocklist_of(defaults, custom, prefixes, library, use_default) matches Ok(list) ==> {
            &&& list.symbols.contains(name) <==> {
                ||| (use_default || (custom is None && prefixes is None)) && defaults.contains(name)
                ||| custom is Some && custom->0.contains(name)
                ||| prefixes is Some && library.contains(name) && exists|i: int|
                    0 <= i < prefixes->0.len() && (#[trigger] prefixes->0[i]).is_prefix_of(name)
            }
            &&& forall|i: int, j: int|
                0 <= i < j < list.symbols.len() ==> order::comes_before(
                    #[trigger] list.symbols[i],
                    #[trigger] list.symbols[j],
                )
            &&& list.has_default <==> use_default || (custom is None && prefixes is None)
            &&& list.has_custom <==> custom is Some
            &&& list.has_prefix <==> prefixes is Some
        },
{
    if blocklist_of(defaults, custom, prefixes, library, use_default) is Ok {
        let first = if use_default || (custom is None && prefixes is None) {
            defaults
        } else {
            Seq::empty()
        };
        let second = match custom {
            Some(names) => names,
            None => Seq::empty(),
        };
        let third = match prefixes {
            Some(prefixes) => names_with(library, prefixes),
            None => Seq::empty(),
        };
        let all = gathered(defaults, custom, prefixes, library, use_default);
        blocklist_holds_what_was_gathered(defaults, custom, prefixes, library, use_default, name);
        assert(all == first + second + third);
        lemma_either(first, second, name);
        lemma_either(first + second, third, name);
        if let Some(given) = prefixes {
            let picked = |name: Seq<char>| starts_with_any(name, given);
            lists::lemma_filter_contains(library, picked, name);
        }
    }
}

proof fn lemma_either(a: Seq<Seq<char>>, b: Seq<Seq<char>>, name: Seq<char>)
    ensures
        (a + b).contains(name) <==> a.contains(name) || b.contains(name),
{
    if a.contains(name) {
        let k = choose|k: int| 0 <= k < a.len() && a[k] == name;
        assert((a + b)[k] == name);
    }
    if b.contains(name) {
        let k = choose|k: int| 0 <= k < b.len() && b[k] == name;
        assert((a + b)[k + a.len()] == name);
    }
}

/// There is no list where an empty list of symbols or of prefixes is given, in this
/// order, or where no symbol is to be hidden; and only there.
pub proof fn lists_are_refused(
    defaults: Seq<Seq<char>>,
    custom: Option<Seq<Seq<char>>>,
    prefixes: Option<Seq<Seq<char>>>,
    library: Seq<Seq<char>>,
    use_default: bool,
)
    ensures
        ({
            let r = blocklist_of(defaults, custom, prefixes, library, use_default);
            let no_symbols = custom is Some && custom->0.len() == 0;
            let no_prefixes = prefixes is Some && prefixes->0.len() == 0;
            let nothing = ((use_default || (custom is None && prefixes is None)) ==> defaults.len()
                == 0) && custom is None && (prefixes is Some ==> forall|k: int, i: int|
                0 <= k < library.len() && 0 <= i < prefixes->0.len() ==> !(
                #[trigger] prefixes->0[i]).is_prefix_of(#[trigger] library[k]));
            &&& no_symbols ==> r == Err::<BlocklistView, BlocklistError>(
                BlocklistError::EmptySymbols,
            )
            &&& !no_symbols && no_prefixes ==> r == Err::<BlocklistView, BlocklistError>(
                BlocklistError::EmptyPrefixes,
            )
            &&& !no_symbols && !no_prefixes && nothing ==> r == Err::<
                BlocklistView,
                BlocklistError,
            >(BlocklistError::NothingToHide)
            &&& !no_symbols && !no_prefixes && !nothing ==> r is Ok
        }),
{
    let all = gathered(defaults, custom, prefixes, library, use_default);
    if let Some(given) = prefixes {
        let picked = |name: Seq<char>| starts_with_any(name, given);
        let left = names_with(library, given);
        if left.len() > 0 {
            assert(left.contains(left[0]));
            lists::lemma_filter_contains(library, picked, left[0]);
            let k = choose|k: int| 0 <= k < library.len() && library[k] == left[0];
            let i = choose|i: int|
                0 <= i < given.len() && (#[trigger] given[i]).is_prefix_of(left[0]);
            assert(given[i].is_prefix_of(library[k]));
        }
        if exists|k: int, i: int|
            0 <= k < library.len() && 0 <= i < given.len() && (#[trigger] given[i]).is_prefix_of(
                #[trigger] library[k],
            ) {
            let (k, i) = choose|k: int, i: int|
                0 <= k < library.len() && 0 <= i < given.len() && (
                #[trigger] given[i]).is_prefix_of(#[trigger] library[k]);
            assert(library.contains(library[k]));
            assert(starts_with_any(library[k], given));
            lists::lemma_filter_contains(library, picked, library[k]);
            assert(left.contains(library[k]));
        }
    }
}

/// The sources are named in a fixed order, with a plus sign between each two.
pub proof fn sources_are_named(list: BlocklistView)
    ensures
        ({
            let described = text::joined(sources_of(list), " + "@);
            let (d, c, p) = (list.has_default, list.has_custom, list.has_prefix);
            &&& d && !c && !p ==> described == "default"@
            &&& !d && c && !p ==> described == "custom"@
            &&& !d && !c && p ==> described == "prefix-filtered"@
            &&& d && c && !p ==> described == "default"@ + " + "@ + "custom"@
            &&& d && !c && p ==> described == "default"@ + " + "@ + "prefix-filtered"@
            &&& !d && c && p ==> described == "custom"@ + " + "@ + "prefix-filtered"@
            &&& d && c && p ==> described == "default"@ + " + "@ + "custom"@ + " + "@
                + "prefix-filtered"@
            &&& !d && !c && !p ==> described.len() == 0
        }),
{
    let all = sources_of(list);
    reveal_with_fuel(text::joined, 4);
    if all.len() == 2 {
        assert(all.drop_last() =~= seq![all[0]]);
    } else if all.len() == 3 {
        assert(all.drop_last() =~= seq![all[0], all[1]]);
        assert(all.drop_last().drop_last() =~= seq![all[0]]);
    }
}

} // verus!
