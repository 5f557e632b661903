//! The symbol lists of Apple libraries, as `nm` gives them.

use vstd::prelude::*;
use vstd::string::*;

use crate::keep;
use crate::keep::{bare_starts_with, matches_keep_prefix};
use crate::lists;
use crate::names::SymbolSet;
use crate::text;
use crate::text::{chars_of, fields, starts_with};

verus! {

/// Whether a global symbol stays exported: it belongs to the interface, or it is one
/// of those that DWARF, exception handling and the linker need, with or without a
/// leading underscore.
pub open spec fn stays_exported(name: Seq<char>, keep_prefix: Seq<char>) -> bool {
    ||| keep::is_api(name, keep_prefix)
    ||| "DW.ref."@.is_prefix_of(keep::bare(name))
    ||| "GCC_except_table"@.is_prefix_of(keep::bare(name))
    ||| "GLOBAL_OFFSET_TABLE_"@.is_prefix_of(keep::bare(name))
    ||| "@"@.is_prefix_of(name)
}

/// Whether a row of the symbol lister's output describes a global symbol: it has a
/// value, an upper-case type and a name.
pub open spec fn is_global_row(row: Seq<Seq<char>>) -> bool {
    row.len() >= 3 && row[1].len() > 0 && text::is_uppercase(row[1][0])
}

/// The names to hide, as the symbol lister spells them.
pub open spec fn names_to_hide(output: Seq<char>, keep_prefix: Seq<char>) -> Seq<Seq<char>> {
    text::rows(output).filter(
        |row: Seq<Seq<char>>| is_global_row(row) && !stays_exported(row[2], keep_prefix),
    ).map_values(|row: Seq<Seq<char>>| row[2])
}

/// The names to export: those of all global symbols that are not hidden.
pub open spec fn names_to_export(output: Seq<char>, hidden: Seq<Seq<char>>) -> Seq<Seq<char>> {
    text::rows(output).filter(
        |row: Seq<Seq<char>>| is_global_row(row) && !hidden.contains(row[2]),
    ).map_values(|row: Seq<Seq<char>>| row[2])
}

fn exported(name: &str, keep_prefix: &str) -> (r: bool)
    ensures
        r == stays_exported(name@, keep_prefix@),
{
    matches_keep_prefix(name, keep_prefix) || bare_starts_with(name, "DW.ref.")
        || bare_starts_with(name, "GCC_except_table")
        || bare_starts_with(name, "GLOBAL_OFFSET_TABLE_")
        || starts_with(name, "@")
}

fn global_row(row: &Vec<String>) -> (r: bool)
    ensures
        r == is_global_row(row.deep_view()),
{
    if row.len() < 3 {
        return false;
    }
    let kind = chars_of(row[1].as_str());
    kind.len() > 0 && kind[0].is_uppercase()
}

/// Reads the names of all symbols that have to be hidden from the list of defined
/// global symbols. A leading underscore matters for the decision only: the names
/// are given as the list spells them.
pub fn symbols_to_hide_from_nm(nm_stdout: &str, keep_prefix: &str) -> (r: Vec<String>)
    ensures
        r.deep_view() == names_to_hide(nm_stdout@, keep_prefix@),
{
    let rows = fields(nm_stdout);
    let ghost all = text::rows(nm_stdout@);
    let ghost picked = |row: Seq<Seq<char>>|
        is_global_row(row) && !stays_exported(row[2], keep_prefix@);
    let ghost name_of = |row: Seq<Seq<char>>| row[2];
    let mut out: Vec<String> = Vec::new();
    let n: usize = rows.len();
    proof {
        lists::lemma_filter_none(all, picked);
        assert(out.deep_view() =~= all.take(0).filter(picked).map_values(name_of));
    }
    for i in 0..n
        invariant
            n == rows@.len(),
            all == rows.deep_view(),
            picked == |row: Seq<Seq<char>>|
                is_global_row(row) && !stays_exported(row[2], keep_prefix@),
            name_of == |row: Seq<Seq<char>>| row[2],
            out.deep_view() == all.take(i as int).filter(picked).map_values(name_of),
    {
        let row = &rows[i];
        proof {
            lists::lemma_filter_step(all, i as int, picked);
            assert(all[i as int] == row.deep_view());
        }
        if global_row(row) {
            if !exported(row[2].as_str(), keep_prefix) {
                let ghost before = out.deep_view();
                out.push(row[2].clone());
                assert(out.deep_view() =~= before.push(row@[2]@));
                assert(row@[2]@ == name_of(all[i as int]));
                assert(out.deep_view() =~= all.take(i as int).filter(picked).push(
                    all[i as int],
                ).map_values(name_of));
            }
        }
    }
    assert(all.take(n as int) =~= all);
    out
}

/// Reads the names of all symbols to export from the list of global symbols.
pub fn keep_symbols_from_nm(nm_stdout: &str, symbols_to_hide: &[String]) -> (r: Vec<String>)
    ensures
        r.deep_view() == names_to_export(nm_stdout@, symbols_to_hide.deep_view()),
{
    let rows = fields(nm_stdout);
    let hidden = SymbolSet::of(symbols_to_hide);
    let ghost listed = symbols_to_hide.deep_view();
    let ghost all = text::rows(nm_stdout@);
    let ghost picked = |row: Seq<Seq<char>>| is_global_row(row) && !listed.contains(row[2]);
    let ghost name_of = |row: Seq<Seq<char>>| row[2];
    let mut out: Vec<String> = Vec::new();
    let n: usize = rows.len();
    proof {
        lists::lemma_filter_none(all, picked);
        assert(out.deep_view() =~= all.take(0).filter(picked).map_values(name_of));
    }
    for i in 0..n
        invariant
            n == rows@.len(),
            all == rows.deep_view(),
            hidden@ == listed.to_set(),
            picked == |row: Seq<Seq<char>>| is_global_row(row) && !listed.contains(row[2]),
            name_of == |row: Seq<Seq<char>>| row[2],
            out.deep_view() == all.take(i as int).filter(picked).map_values(name_of),
    {
        let row = &rows[i];
        proof {
            lists::lemma_filter_step(all, i as int, picked);
            assert(all[i as int] == row.deep_view());
            if row@.len() > 2 {
                assert(listed.contains(row@[2]@) <==> listed.to_set().contains(row@[2]@));
            }
        }
        if global_row(row) && !hidden.contains(row[2].as_str()) {
            let ghost before = out.deep_view();
            out.push(row[2].clone());
            assert(out.deep_view() =~= before.push(row@[2]@));
            assert(row@[2]@ == name_of(all[i as int]));
            assert(out.deep_view() =~= all.take(i as int).filter(picked).push(
                all[i as int],
            ).map_values(name_of));
        }
    }
    assert(all.take(n as int) =~= all);
    out
}

/// The leak check accepts what stays exported: such a symbol is an allowed global.
pub proof fn exported_symbols_are_allowed(name: Seq<char>, keep_prefix: Seq<char>)
    requires
        stays_exported(name, keep_prefix),
    ensures
        keep::is_allowed_global(name, keep_prefix),
{
}

/// The interface stays exported.
pub proof fn the_api_stays_exported(name: Seq<char>, keep_prefix: Seq<char>)
    requires
        keep::is_api(name, keep_prefix),
    ensures
        stays_exported(name, keep_prefix),
{
}

proof fn lemma_picked(
    rows: Seq<Seq<Seq<char>>>,
    picked: spec_fn(Seq<Seq<char>>) -> bool,
    name: Seq<char>,
)
    ensures
        rows.filter(picked).map_values(|row: Seq<Seq<char>>| row[2]).contains(name)
            <==> exists|i: int|
            0 <= i < rows.len() && picked(#[trigger] rows[i]) && rows[i][2] == name,
{
    let left = rows.filter(picked);
    let names = left.map_values(|row: Seq<Seq<char>>| row[2]);
    if names.contains(name) {
        let k = choose|k: int| 0 <= k < names.len() && names[k] == name;
        assert(left.contains(left[k]));
        lists::lemma_filter_contains(rows, picked, left[k]);
        let i = choose|i: int| 0 <= i < rows.len() && rows[i] == left[k];
        assert(picked(rows[i]));
    }
    if exists|i: int| 0 <= i < rows.len() && picked(#[trigger] rows[i]) && rows[i][2] == name {
        let i = choose|i: int|
            0 <= i < rows.len() && picked(#[trigger] rows[i]) && rows[i][2] == name;
        lists::lemma_filter_contains(rows, picked, rows[i]);
        assert(rows.contains(rows[i]));
        let k = choose|k: int| 0 <= k < left.len() && left[k] == rows[i];
        assert(names[k] == name);
    }
}

/// A name is hidden exactly where some row describes a global symbol of that name
/// that does not stay exported.
pub proof fn hidden_names_are_the_globals_not_exported(
    output: Seq<char>,
    keep_prefix: Seq<char>,
    name: Seq<char>,
)
    ensures
        names_to_hide(output, keep_prefix).contains(name) <==> !stays_exported(name, keep_prefix)
            && exists|i: int|
            0 <= i < text::rows(output).len() && is_global_row(#[trigger] text::rows(output)[i])
                && text::rows(output)[i][2] == name,
{
    let rows = text::rows(output);
    let picked = |row: Seq<Seq<char>>| is_global_row(row) && !stays_exported(row[2], keep_prefix);
    lemma_picked(rows, picked, name);
    if names_to_hide(output, keep_prefix).contains(name) {
        let i = choose|i: int|
            0 <= i < rows.len() && picked(#[trigger] rows[i]) && rows[i][2] == name;
        assert(is_global_row(rows[i]));
    }
    if !stays_exported(name, keep_prefix) && exists|i: int|
        0 <= i < rows.len() && is_global_row(#[trigger] rows[i]) && rows[i][2] == name {
        let i = choose|i: int|
            0 <= i < rows.len() && is_global_row(#[trigger] rows[i]) && rows[i][2] == name;
        assert(picked(rows[i]));
    }
}

/// No name is both hidden and exported, and every name that is exported and was
/// listed as defined is an allowed global.
pub proof fn exports_leave_out_what_is_hidden(
    defined: Seq<char>,
    all: Seq<char>,
    keep_prefix: Seq<char>,
    name: Seq<char>,
)
    requires
        names_to_export(all, names_to_hide(defined, keep_prefix)).contains(name),
    ensures
        !names_to_hide(defined, keep_prefix).contains(name),
        (exists|i: int|
            0 <= i < text::rows(defined).len() && is_global_row(#[trigger] text::rows(defined)[i])
                && text::rows(defined)[i][2] == name) ==> keep::is_allowed_global(
            name,
            keep_prefix,
        ),
{
    let hidden = names_to_hide(defined, keep_prefix);
    let picked = |row: Seq<Seq<char>>| is_global_row(row) && !hidden.contains(row[2]);
    lemma_picked(text::rows(all), picked, name);
    hidden_names_are_the_globals_not_exported(defined, keep_prefix, name);
    if stays_exported(name, keep_prefix) {
        exported_symbols_are_allowed(name, keep_prefix);
    }
}

/// The interface is exported: so is every listed global that belongs to it.
pub proof fn exports_hold_the_api(
    defined: Seq<char>,
    all: Seq<char>,
    keep_prefix: Seq<char>,
    i: int,
)
    requires
        0 <= i < text::rows(all).len(),
        is_global_row(text::rows(all)[i]),
        keep::is_api(text::rows(all)[i][2], keep_prefix),
    ensures
        names_to_export(all, names_to_hide(defined, keep_prefix)).contains(text::rows(all)[i][2]),
{
    let name = text::rows(all)[i][2];
    let hidden = names_to_hide(defined, keep_prefix);
    let picked = |row: Seq<Seq<char>>| is_global_row(row) && !hidden.contains(row[2]);
    the_api_stays_exported(name, keep_prefix);
    hidden_names_are_the_globals_not_exported(defined, keep_prefix, name);
    lemma_picked(text::rows(all), picked, name);
    assert(picked(text::rows(all)[i]));
}

/// A symbol stays exported exactly where it begins with the prefix, with an underscore
/// and the prefix, with `@`, or, with or without an underscore, with one of three texts
/// that linkers need.
pub proof fn exported_names_by_how_they_begin(name: Seq<char>, keep_prefix: Seq<char>)
    ensures
        stays_exported(name, keep_prefix) <==> {
            ||| keep_prefix.is_prefix_of(name)
            ||| ("_"@ + keep_prefix).is_prefix_of(name)
            ||| "DW.ref."@.is_prefix_of(name)
            ||| "_DW.ref."@.is_prefix_of(name)
            ||| "GCC_except_table"@.is_prefix_of(name)
            ||| "_GCC_except_table"@.is_prefix_of(name)
            ||| "GLOBAL_OFFSET_TABLE_"@.is_prefix_of(name)
            ||| "_GLOBAL_OFFSET_TABLE_"@.is_prefix_of(name)
            ||| "@"@.is_prefix_of(name)
        },
{
    keep::the_interface_begins_with_the_prefix(name, keep_prefix);
    keep::linker_names_may_follow_an_underscore(name);
}

/// The names to hide are those in the third column of the rows whose second column
/// begins with an upper-case letter, in their order, without the names that begin with
/// the prefix or with what linkers need.
pub proof fn hidden_names_by_column(output: Seq<char>, keep_prefix: Seq<char>)
    ensures
        names_to_hide(output, keep_prefix) == text::rows(output).filter(
            |row: Seq<Seq<char>>|
                {
                    &&& row.len() >= 3
                    &&& row[1].len() > 0
                    &&& text::is_uppercase(row[1][0])
                    &&& !keep_prefix.is_prefix_of(row[2])
                    &&& !("_"@ + keep_prefix).is_prefix_of(row[2])
                    &&& !"DW.ref."@.is_prefix_of(row[2])
                    &&& !"_DW.ref."@.is_prefix_of(row[2])
                    &&& !"GCC_except_table"@.is_prefix_of(row[2])
                    &&& !"_GCC_except_table"@.is_prefix_of(row[2])
                    &&& !"GLOBAL_OFFSET_TABLE_"@.is_prefix_of(row[2])
                    &&& !"_GLOBAL_OFFSET_TABLE_"@.is_prefix_of(row[2])
                    &&& !"@"@.is_prefix_of(row[2])
                },
        ).map_values(|row: Seq<Seq<char>>| row[2]),
{
    let hidden = |row: Seq<Seq<char>>| is_global_row(row) && !stays_exported(row[2], keep_prefix);
    let stated = |row: Seq<Seq<char>>|
        {
            &&& row.len() >= 3
            &&& row[1].len() > 0
            &&& text::is_uppercase(row[1][0])
            &&& !keep_prefix.is_prefix_of(row[2])
            &&& !("_"@ + keep_prefix).is_prefix_of(row[2])
            &&& !"DW.ref."@.is_prefix_of(row[2])
            &&& !"_DW.ref."@.is_prefix_of(row[2])
            &&& !"GCC_except_table"@.is_prefix_of(row[2])
            &&& !"_GCC_except_table"@.is_prefix_of(row[2])
            &&& !"GLOBAL_OFFSET_TABLE_"@.is_prefix_of(row[2])
            &&& !"_GLOBAL_OFFSET_TABLE_"@.is_prefix_of(row[2])
            &&& !"@"@.is_prefix_of(row[2])
        };
    assert forall|row: Seq<Seq<char>>| #[trigger] hidden(row) == stated(row) by {
        if row.len() >= 3 {
            exported_names_by_how_they_begin(row[2], keep_prefix);
        }
    }
    lists::lemma_filter_alike(text::rows(output), hidden, stated);
}

/// Every global symbol is exported or hidden: the names to export are those in the
/// third column of the rows whose second column begins with an upper-case letter, in
/// their order, without the hidden ones.
pub proof fn exports_by_column(output: Seq<char>, hidden: Seq<Seq<char>>)
    ensures
        names_to_export(output, hidden) == text::rows(output).filter(
            |row: Seq<Seq<char>>|
                row.len() >= 3 && row[1].len() > 0 && text::is_uppercase(row[1][0])
                    && !hidden.contains(row[2]),
        ).map_values(|row: Seq<Seq<char>>| row[2]),
        forall|i: int|
            0 <= i < text::rows(output).len() && (#[trigger] text::rows(output)[i]).len() >= 3
                && text::rows(output)[i][1].len() > 0 && text::is_uppercase(
                text::rows(output)[i][1][0],
            ) ==> hidden.contains(text::rows(output)[i][2]) || names_to_export(
                output,
                hidden,
            ).contains(text::rows(output)[i][2]),
        forall|name: Seq<char>| #[trigger]
            names_to_export(output, hidden).contains(name) ==> !hidden.contains(name),
{
    let rows = text::rows(output);
    let picked = |row: Seq<Seq<char>>| is_global_row(row) && !hidden.contains(row[2]);
    let stated = |row: Seq<Seq<char>>|
        row.len() >= 3 && row[1].len() > 0 && text::is_uppercase(row[1][0]) && !hidden.contains(
            row[2],
        );
    lists::lemma_filter_alike(rows, picked, stated);
    assert forall|i: int|
        0 <= i < rows.len() && (#[trigger] rows[i]).len() >= 3 && rows[i][1].len() > 0
            && text::is_uppercase(rows[i][1][0]) && !hidden.contains(
            rows[i][2],
        ) implies names_to_export(output, hidden).contains(rows[i][2]) by {
        lemma_picked(rows, picked, rows[i][2]);
        assert(picked(rows[i]));
    }
    assert forall|name: Seq<char>| #[trigger]
        names_to_export(output, hidden).contains(name) implies !hidden.contains(name) by {
        lemma_picked(rows, picked, name);
    }
}

/// The interface and nothing else that is defined gets exported: of the symbols that
/// are listed as defined, exactly those are exported that begin with the prefix, with
/// an underscore and the prefix, or with what linkers need.
pub proof fn defined_symbols_are_exported_by_how_they_begin(
    defined: Seq<char>,
    all: Seq<char>,
    keep_prefix: Seq<char>,
    i: int,
    j: int,
)
    requires
        0 <= i < text::rows(all).len(),
        text::rows(all)[i].len() >= 3,
        text::rows(all)[i][1].len() > 0,
        text::is_uppercase(text::rows(all)[i][1][0]),
        0 <= j < text::rows(defined).len(),
        text::rows(defined)[j].len() >= 3,
        text::rows(defined)[j][1].len() > 0,
        text::is_uppercase(text::rows(defined)[j][1][0]),
        text::rows(defined)[j][2] == text::rows(all)[i][2],
    ensures
        ({
            let name = text::rows(all)[i][2];
            names_to_export(all, names_to_hide(defined, keep_prefix)).contains(name) <==> {
                ||| keep_prefix.is_prefix_of(name)
                ||| ("_"@ + keep_prefix).is_prefix_of(name)
                ||| "DW.ref."@.is_prefix_of(name)
                ||| "_DW.ref."@.is_prefix_of(name)
                ||| "GCC_except_table"@.is_prefix_of(name)
                ||| "_GCC_except_table"@.is_prefix_of(name)
                ||| "GLOBAL_OFFSET_TABLE_"@.is_prefix_of(name)
                ||| "_GLOBAL_OFFSET_TABLE_"@.is_prefix_of(name)
                ||| "@"@.is_prefix_of(name)
            }
        }),
{
    let name = text::rows(all)[i][2];
    let hidden = names_to_hide(defined, keep_prefix);
    exported_names_by_how_they_begin(name, keep_prefix);
    hidden_names_are_the_globals_not_exported(defined, keep_prefix, name);
    exports_by_column(all, hidden);
    assert(is_global_row(text::rows(defined)[j]));
}

} // verus!
