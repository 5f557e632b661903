//! Which global symbols may stay visible in a patched library.

use vstd::prelude::*;
use vstd::string::*;

use crate::lists;
use crate::names::SymbolSet;
use crate::text::{chars_of, matches_at, starts_with};

verus! {

/// A symbol name without its leading underscore, if it has one.
pub open spec fn bare(name: Seq<char>) -> Seq<char> {
    if name.len() > 0 && name[0] == '_' {
        name.skip(1)
    } else {
        name
    }
}

/// Whether a name carries the prefix, as it stands or behind one underscore.
pub open spec fn is_api(name: Seq<char>, keep_prefix: Seq<char>) -> bool {
    keep_prefix.is_prefix_of(name) || keep_prefix.is_prefix_of(bare(name))
}

/// Whether a global symbol may remain public after patching: it carries the
/// prefix, or it is one of the names that compilers and linkers need.
pub open spec fn is_allowed_global(name: Seq<char>, keep_prefix: Seq<char>) -> bool {
    ||| is_api(name, keep_prefix)
    ||| "DW.ref."@.is_prefix_of(bare(name))
    ||| "GLOBAL_OFFSET_TABLE_"@.is_prefix_of(bare(name))
    ||| "GCC_except_table"@.is_prefix_of(bare(name))
    ||| "@"@.is_prefix_of(name)
    ||| "."@.is_prefix_of(name)
    ||| "??"@.is_prefix_of(name)
}

/// Whether a global symbol of a patched library is neither allowed nor exempt.
pub open spec fn is_leak(name: Seq<char>, keep_prefix: Seq<char>, exempt: Set<Seq<char>>) -> bool {
    !is_allowed_global(name, keep_prefix) && !exempt.contains(name)
}

/// Whether `name` without its leading underscore, if it has one, begins with `prefix`.
pub fn bare_starts_with(name: &str, prefix: &str) -> (r: bool)
    ensures
        r == prefix@.is_prefix_of(bare(name@)),
{
    let whole = chars_of(name);
    let part = chars_of(prefix);
    let at: usize = if whole.len() > 0 && whole[0] == '_' {
        1
    } else {
        0
    };
    proof {
        let rest = bare(name@);
        if part@.len() <= rest.len() {
            assert(rest.subrange(0, part@.len() as int) =~= name@.subrange(
                at as int,
                at + part@.len(),
            ));
        }
    }
    matches_at(&whole, &part, at)
}

/// Whether `name` carries `keep_prefix`, as it stands or behind the underscore
/// with which some platforms decorate their symbols.
pub fn matches_keep_prefix(name: &str, keep_prefix: &str) -> (r: bool)
    ensures
        r == is_api(name@, keep_prefix@),
{
    starts_with(name, keep_prefix) || bare_starts_with(name, keep_prefix)
}

/// Whether a global symbol is allowed to remain public after patching.
pub fn symbol_is_allowed_global(name: &str, keep_prefix: &str) -> (r: bool)
    ensures
        r == is_allowed_global(name@, keep_prefix@),
{
    matches_keep_prefix(name, keep_prefix)
        || bare_starts_with(name, "DW.ref.")
        || bare_starts_with(name, "GLOBAL_OFFSET_TABLE_")
        || bare_starts_with(name, "GCC_except_table")
        || starts_with(name, "@")
        || starts_with(name, ".")
        || starts_with(name, "??")
}

/// The global symbols that are neither allowed nor exempt, in the order of the list.
pub fn find_leaked_symbols<'a>(
    symbols: &'a [String],
    keep_prefix: &str,
    import_exempt: &SymbolSet,
) -> (r: Vec<&'a str>)
    ensures
        r.deep_view() == symbols.deep_view().filter(
            |name: Seq<char>| is_leak(name, keep_prefix@, import_exempt@),
        ),
{
    let ghost leak = |name: Seq<char>| is_leak(name, keep_prefix@, import_exempt@);
    let ghost all = symbols.deep_view();
    let mut out: Vec<&'a str> = Vec::new();
    let n: usize = symbols.len();
    proof {
        lists::lemma_filter_none(all, leak);
        assert(out.deep_view() =~= Seq::empty());
    }
    for i in 0..n
        invariant
            n == symbols@.len(),
            all == symbols.deep_view(),
            leak == |name: Seq<char>| is_leak(name, keep_prefix@, import_exempt@),
            out.deep_view() == all.take(i as int).filter(leak),
    {
        proof {
            lists::lemma_filter_step(all, i as int, leak);
        }
        let name = symbols[i].as_str();
        if !symbol_is_allowed_global(name, keep_prefix) && !import_exempt.contains(name) {
            let ghost before = out.deep_view();
            out.push(name);
            assert(out.deep_view() =~= before.push(name@));
        }
    }
    assert(all.take(n as int) =~= all);
    out
}

/// Every name carries the empty prefix, so an empty prefix hides nothing.
pub proof fn empty_prefix_allows_everything(name: Seq<char>)
    ensures
        is_api(name, Seq::empty()),
        is_allowed_global(name, Seq::empty()),
{
    assert(Seq::<char>::empty() =~= name.subrange(0, 0));
}

proof fn lemma_behind_underscore(name: Seq<char>, part: Seq<char>)
    ensures
        name.len() > 0 && name[0] == '_' ==> (part.is_prefix_of(bare(name)) <==> ("_"@
            + part).is_prefix_of(name)),
        !(name.len() > 0 && name[0] == '_') ==> !("_"@ + part).is_prefix_of(name),
{
    reveal_strlit("_");
    let whole = "_"@ + part;
    if name.len() > 0 && name[0] == '_' {
        let rest = name.skip(1);
        if part.is_prefix_of(rest) {
            assert forall|i: int| 0 <= i < whole.len() implies whole[i] == name[i] by {
                if i > 0 {
                    assert(part[i - 1] == rest.subrange(0, part.len() as int)[i - 1]);
                }
            }
            assert(whole =~= name.subrange(0, whole.len() as int));
        }
        if whole.is_prefix_of(name) {
            assert forall|i: int| 0 <= i < part.len() implies part[i] == rest[i] by {
                assert(whole[i + 1] == name.subrange(0, whole.len() as int)[i + 1]);
            }
            assert(part =~= rest.subrange(0, part.len() as int));
        }
    } else if whole.is_prefix_of(name) {
        assert(whole[0] == name.subrange(0, whole.len() as int)[0]);
    }
}

/// A name belongs to the interface exactly where it begins with the prefix, or with
/// an underscore and the prefix.
pub proof fn the_interface_begins_with_the_prefix(name: Seq<char>, keep_prefix: Seq<char>)
    ensures
        is_api(name, keep_prefix) <==> keep_prefix.is_prefix_of(name) || ("_"@
            + keep_prefix).is_prefix_of(name),
{
    lemma_behind_underscore(name, keep_prefix);
}

/// The names that linkers need may have an underscore in front.
pub proof fn linker_names_may_follow_an_underscore(name: Seq<char>)
    ensures
        "DW.ref."@.is_prefix_of(bare(name)) <==> "DW.ref."@.is_prefix_of(name)
            || "_DW.ref."@.is_prefix_of(name),
        "GLOBAL_OFFSET_TABLE_"@.is_prefix_of(bare(name)) <==> "GLOBAL_OFFSET_TABLE_"@.is_prefix_of(
            name,
        ) || "_GLOBAL_OFFSET_TABLE_"@.is_prefix_of(name),
        "GCC_except_table"@.is_prefix_of(bare(name)) <==> "GCC_except_table"@.is_prefix_of(name)
            || "_GCC_except_table"@.is_prefix_of(name),
{
    reveal_strlit("_");
    reveal_strlit("DW.ref.");
    reveal_strlit("_DW.ref.");
    reveal_strlit("GLOBAL_OFFSET_TABLE_");
    reveal_strlit("_GLOBAL_OFFSET_TABLE_");
    reveal_strlit("GCC_except_table");
    reveal_strlit("_GCC_except_table");
    assert("_"@ + "DW.ref."@ =~= "_DW.ref."@);
    assert("_"@ + "GLOBAL_OFFSET_TABLE_"@ =~= "_GLOBAL_OFFSET_TABLE_"@);
    assert("_"@ + "GCC_except_table"@ =~= "_GCC_except_table"@);
    lemma_behind_underscore(name, "DW.ref."@);
    lemma_behind_underscore(name, "GLOBAL_OFFSET_TABLE_"@);
    lemma_behind_underscore(name, "GCC_except_table"@);
    if "DW.ref."@.is_prefix_of(name) {
        assert("DW.ref."@[0] == name[0]);
    }
    if "GLOBAL_OFFSET_TABLE_"@.is_prefix_of(name) {
        assert("GLOBAL_OFFSET_TABLE_"@[0] == name[0]);
    }
    if "GCC_except_table"@.is_prefix_of(name) {
        assert("GCC_except_table"@[0] == name[0]);
    }
}

/// The names that may stay global, by how they begin.
pub proof fn allowed_names_by_how_they_begin(name: Seq<char>, keep_prefix: Seq<char>)
    ensures
        is_allowed_global(name, keep_prefix) <==> {
            ||| keep_prefix.is_prefix_of(name)
            ||| ("_"@ + keep_prefix).is_prefix_of(name)
            ||| "DW.ref."@.is_prefix_of(name)
            ||| "_DW.ref."@.is_prefix_of(name)
            ||| "GLOBAL_OFFSET_TABLE_"@.is_prefix_of(name)
            ||| "_GLOBAL_OFFSET_TABLE_"@.is_prefix_of(name)
            ||| "GCC_except_table"@.is_prefix_of(name)
            ||| "_GCC_except_table"@.is_prefix_of(name)
            ||| "@"@.is_prefix_of(name)
            ||| "."@.is_prefix_of(name)
            ||| "??"@.is_prefix_of(name)
        },
{
    the_interface_begins_with_the_prefix(name, keep_prefix);
    linker_names_may_follow_an_underscore(name);
}

/// A symbol leaks exactly where it is not exempt and begins with nothing that lets it
/// stay global.
pub proof fn leaks_by_how_they_begin(
    name: Seq<char>,
    keep_prefix: Seq<char>,
    exempt: Set<Seq<char>>,
)
    ensures
        is_leak(name, keep_prefix, exempt) <==> {
            &&& !exempt.contains(name)
            &&& !keep_prefix.is_prefix_of(name)
            &&& !("_"@ + keep_prefix).is_prefix_of(name)
            &&& !"DW.ref."@.is_prefix_of(name)
            &&& !"_DW.ref."@.is_prefix_of(name)
            &&& !"GLOBAL_OFFSET_TABLE_"@.is_prefix_of(name)
            &&& !"_GLOBAL_OFFSET_TABLE_"@.is_prefix_of(name)
            &&& !"GCC_except_table"@.is_prefix_of(name)
            &&& !"_GCC_except_table"@.is_prefix_of(name)
            &&& !"@"@.is_prefix_of(name)
            &&& !"."@.is_prefix_of(name)
            &&& !"??"@.is_prefix_of(name)
        },
{
    allowed_names_by_how_they_begin(name, keep_prefix);
}

} // verus!
