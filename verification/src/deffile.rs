//! The definition files from which the import library of each DLL is made anew.

use vstd::prelude::*;
use vstd::string::*;

use crate::imports::{EntryView, Import, ImportEntry, ImportView};
use crate::lists;
use crate::names::SymbolSet;
use crate::order;
use crate::text;
use crate::text::{decimal, same};

verus! {

/// The DLLs that are imported from.
pub open spec fn dlls_of(entries: Seq<EntryView>) -> Set<Seq<char>>
    decreases entries.len(),
{
    if entries.len() == 0 {
        Set::empty()
    } else {
        dlls_of(entries.drop_last()).insert(entries.last().dll)
    }
}

/// The imports from one DLL.
pub open spec fn imports_from(entries: Seq<EntryView>, dll: Seq<char>) -> Seq<EntryView> {
    entries.filter(|entry: EntryView| entry.dll == dll)
}

/// Whether some import has the given symbol.
pub open spec fn has_symbol(entries: Seq<EntryView>, symbol: Seq<char>) -> bool {
    exists|i: int| 0 <= i < entries.len() && (#[trigger] entries[i]).symbol == symbol
}

/// The first import of each symbol.
pub open spec fn first_imports(entries: Seq<EntryView>) -> Seq<EntryView>
    decreases entries.len(),
{
    if entries.len() == 0 {
        Seq::empty()
    } else {
        let rest = first_imports(entries.drop_last());
        if has_symbol(rest, entries.last().symbol) {
            rest
        } else {
            rest.push(entries.last())
        }
    }
}

/// The line of a definition file for an import: `name` binds by that name,
/// `name=export` by another one, and `name @ordinal NONAME` by ordinal; `DATA`
/// marks variables and constants.
pub open spec fn export_line(entry: EntryView) -> Seq<char> {
    "  "@ + entry.symbol + match entry.import {
        ImportView::Ordinal(n) => " @"@ + text::decimal_text(n as nat) + " NONAME"@,
        ImportView::Name(name) => if name == entry.symbol {
            Seq::empty()
        } else {
            "="@ + name
        },
    } + (if entry.is_data {
        " DATA"@
    } else {
        Seq::empty()
    }) + "\n"@
}

/// The lines of a definition file for a list of imports.
pub open spec fn export_lines(entries: Seq<EntryView>) -> Seq<char>
    decreases entries.len(),
{
    if entries.len() == 0 {
        Seq::empty()
    } else {
        export_lines(entries.drop_last()) + export_line(entries.last())
    }
}

/// The definition file of a DLL with the given imports.
pub open spec fn definition_text(dll: Seq<char>, entries: Seq<EntryView>) -> Seq<char> {
    "LIBRARY "@ + dll + "\nEXPORTS\n"@ + export_lines(entries)
}

/// An import library to make.
pub struct ImportLibrary {
    pub dll: String,
    /// The number of imported symbols.
    pub symbols: u64,
    /// The definition file.
    pub definition: String,
}

/// What an `ImportLibrary` says.
pub struct LibraryView {
    pub dll: Seq<char>,
    pub symbols: nat,
    pub definition: Seq<char>,
}

impl DeepView for ImportLibrary {
    type V = LibraryView;

    open spec fn deep_view(&self) -> LibraryView {
        LibraryView {
            dll: self.dll@,
            symbols: self.symbols as nat,
            definition: self.definition@,
        }
    }
}

/// The import library of one DLL.
pub open spec fn library_for(entries: Seq<EntryView>, dll: Seq<char>) -> LibraryView {
    let firsts = first_imports(imports_from(entries, dll));
    LibraryView { dll, symbols: firsts.len(), definition: definition_text(dll, firsts) }
}

/// The import libraries of all DLLs, in the order of the names of the DLLs.
pub open spec fn libraries_of(entries: Seq<EntryView>) -> Seq<LibraryView> {
    order::listing(dlls_of(entries)).map_values(|dll: Seq<char>| library_for(entries, dll))
}

/// Writes the line of a definition file for an import.
pub fn write_export(entry: &ImportEntry) -> (r: String)
    ensures
        r@ == export_line(entry.deep_view()),
{
    let mut line = "  ".to_owned();
    line.append(entry.symbol.as_str());
    match &entry.import {
        Import::Ordinal(n) => {
            line.append(" @");
            line.append(decimal(*n as u64).as_str());
            line.append(" NONAME");
        },
        Import::Name(name) => {
            if !same(name.as_str(), entry.symbol.as_str()) {
                line.append("=");
                line.append(name.as_str());
            }
        },
    }
    if entry.is_data {
        line.append(" DATA");
    }
    line.append("\n");
    assert(line@ =~= export_line(entry.deep_view()));
    line
}

proof fn lemma_symbol_step(entries: Seq<EntryView>, entry: EntryView, symbol: Seq<char>)
    ensures
        has_symbol(entries.push(entry), symbol) <==> has_symbol(entries, symbol) || entry.symbol
            == symbol,
{
    let more = entries.push(entry);
    if has_symbol(entries, symbol) {
        let i = choose|i: int| 0 <= i < entries.len() && (#[trigger] entries[i]).symbol == symbol;
        assert(more[i].symbol == symbol);
    }
    if has_symbol(more, symbol) {
        let i = choose|i: int| 0 <= i < more.len() && (#[trigger] more[i]).symbol == symbol;
        if i < entries.len() {
            assert(entries[i].symbol == symbol);
        }
    }
    assert(more[entries.len() as int] == entry);
}

/// Writes the definition file of a DLL.
fn import_library(entries: &Vec<ImportEntry>, dll: &str) -> (r: ImportLibrary)
    ensures
        r.deep_view() == library_for(entries.deep_view(), dll@),
{
    let ghost all = entries.deep_view();
    let ghost from = |entry: EntryView| entry.dll == dll@;
    let mut seen = SymbolSet::new();
    let mut symbols: u64 = 0;
    let mut definition = "LIBRARY ".to_owned();
    definition.append(dll);
    definition.append("\nEXPORTS\n");
    let ghost front = definition@;
    let n: usize = entries.len();
    proof {
        lists::lemma_filter_none(all, from);
        assert(definition@ =~= front + export_lines(first_imports(all.take(0).filter(from))));
    }
    for i in 0..n
        invariant
            n == entries@.len(),
            all == entries.deep_view(),
            from == |entry: EntryView| entry.dll == dll@,
            seen.wf(),
            symbols <= i,
            symbols == first_imports(all.take(i as int).filter(from)).len(),
            definition@ == front + export_lines(first_imports(all.take(i as int).filter(from))),
            forall|symbol: Seq<char>| #[trigger]
                seen@.contains(symbol) <==> has_symbol(
                    first_imports(all.take(i as int).filter(from)),
                    symbol,
                ),
    {
        let entry = &entries[i];
        let ghost group = all.take(i as int).filter(from);
        let ghost firsts = first_imports(group);
        proof {
            lists::lemma_filter_step(all, i as int, from);
            assert(all[i as int] == entry.deep_view());
            assert(group.push(all[i as int]).drop_last() =~= group);
        }
        if same(entry.dll.as_str(), dll) && !seen.contains(entry.symbol.as_str()) {
            let ghost before = definition@;
            let line = write_export(entry);
            definition.append(line.as_str());
            symbols = symbols + 1;
            seen.insert(entry.symbol.clone());
            proof {
                let more = firsts.push(entry.deep_view());
                assert(more.drop_last() =~= firsts);
                assert(definition@ =~= front + export_lines(more));
                assert forall|symbol: Seq<char>| #[trigger]
                    seen@.contains(symbol) <==> has_symbol(more, symbol) by {
                    lemma_symbol_step(firsts, entry.deep_view(), symbol);
                }
            }
        }
    }
    assert(all.take(n as int) =~= all);
    assert(definition@ =~= definition_text(dll@, first_imports(imports_from(all, dll@))));
    ImportLibrary { dll: dll.to_owned(), symbols, definition }
}

/// Writes the definition files of all DLLs that are imported from.
pub fn regenerate_import_libs(entries: &Vec<ImportEntry>) -> (r: Vec<ImportLibrary>)
    ensures
        r.deep_view() == libraries_of(entries.deep_view()),
{
    let ghost all = entries.deep_view();
    let mut dlls = SymbolSet::new();
    let n: usize = entries.len();
    for i in 0..n
        invariant
            n == entries@.len(),
            all == entries.deep_view(),
            dlls.wf(),
            dlls@ == dlls_of(all.take(i as int)),
    {
        proof {
            assert(all.take(i + 1).drop_last() =~= all.take(i as int));
            assert(all.take(i + 1).last() == entries@[i as int].deep_view());
        }
        dlls.insert(entries[i].dll.clone());
    }
    assert(all.take(n as int) =~= all);
    let names = dlls.sorted();
    let ghost listed = names.deep_view();
    let ghost library = |dll: Seq<char>| library_for(all, dll);
    let mut out: Vec<ImportLibrary> = Vec::new();
    let m: usize = names.len();
    for i in 0..m
        invariant
            m == names@.len(),
            all == entries.deep_view(),
            listed == names.deep_view(),
            library == |dll: Seq<char>| library_for(all, dll),
            out.deep_view() =~= listed.take(i as int).map_values(library),
    {
        let ghost before = out.deep_view();
        out.push(import_library(entries, names[i].as_str()));
        assert(out.deep_view() =~= before.push(library_for(all, listed[i as int])));
    }
    assert(listed.take(m as int) =~= listed);
    out
}

proof fn lemma_first_imports(entries: Seq<EntryView>)
    ensures
        forall|i: int|
            0 <= i < entries.len() ==> has_symbol(
                first_imports(entries),
                (#[trigger] entries[i]).symbol,
            ),
        forall|i: int, j: int|
            0 <= i < j < first_imports(entries).len() ==> (#[trigger] first_imports(
                entries,
            )[i]).symbol != (#[trigger] first_imports(entries)[j]).symbol,
    decreases entries.len(),
{
    if entries.len() > 0 {
        let front = entries.drop_last();
        let rest = first_imports(front);
        lemma_first_imports(front);
        lemma_symbol_step(rest, entries.last(), entries.last().symbol);
        assert forall|i: int| 0 <= i < entries.len() implies has_symbol(
            first_imports(entries),
            (#[trigger] entries[i]).symbol,
        ) by {
            if i < front.len() {
                assert(front[i] == entries[i]);
                lemma_symbol_step(rest, entries.last(), entries[i].symbol);
            }
        }
    }
}

proof fn lemma_dlls(entries: Seq<EntryView>)
    ensures
        dlls_of(entries).finite(),
        forall|i: int|
            0 <= i < entries.len() ==> dlls_of(entries).contains((#[trigger] entries[i]).dll),
    decreases entries.len(),
{
    if entries.len() > 0 {
        let front = entries.drop_last();
        lemma_dlls(front);
        assert forall|i: int| 0 <= i < entries.len() implies dlls_of(entries).contains(
            (#[trigger] entries[i]).dll,
        ) by {
            if i < front.len() {
                assert(front[i] == entries[i]);
            }
        }
    }
}

/// No import is lost: the import library of its DLL is made, and its definition
/// file has a line for its symbol.
pub proof fn every_import_is_regenerated(entries: Seq<EntryView>, i: int)
    requires
        0 <= i < entries.len(),
    ensures
        libraries_of(entries).contains(library_for(entries, entries[i].dll)),
        has_symbol(first_imports(imports_from(entries, entries[i].dll)), entries[i].symbol),
{
    let dll = entries[i].dll;
    let from = |entry: EntryView| entry.dll == dll;
    let group = imports_from(entries, dll);
    lemma_dlls(entries);
    order::lemma_listing_exists(dlls_of(entries));
    let names = order::listing(dlls_of(entries));
    assert(names.to_set().contains(dll));
    let k = choose|k: int| 0 <= k < names.len() && names[k] == dll;
    assert(libraries_of(entries)[k] == library_for(entries, dll));
    lists::lemma_filter_contains(entries, from, entries[i]);
    assert(entries.contains(entries[i]));
    let j = choose|j: int| 0 <= j < group.len() && group[j] == entries[i];
    lemma_first_imports(group);
    assert(has_symbol(first_imports(group), group[j].symbol));
}

/// A definition file has no two lines for one symbol.
pub proof fn definitions_are_unique(entries: Seq<EntryView>, dll: Seq<char>, i: int, j: int)
    requires
        0 <= i < j < first_imports(imports_from(entries, dll)).len(),
    ensures
        first_imports(imports_from(entries, dll))[i].symbol != first_imports(
            imports_from(entries, dll),
        )[j].symbol,
{
    lemma_first_imports(imports_from(entries, dll));
}

proof fn lemma_firsts_are_there(entries: Seq<EntryView>, symbol: Seq<char>)
    ensures
        has_symbol(first_imports(entries), symbol) <==> has_symbol(entries, symbol),
    decreases entries.len(),
{
    lemma_first_imports(entries);
    if has_symbol(entries, symbol) {
        let i = choose|i: int| 0 <= i < entries.len() && (#[trigger] entries[i]).symbol == symbol;
        assert(has_symbol(first_imports(entries), entries[i].symbol));
    }
    if entries.len() > 0 {
        let front = entries.drop_last();
        lemma_firsts_are_there(front, symbol);
        lemma_symbol_step(front, entries.last(), symbol);
        lemma_symbol_step(first_imports(front), entries.last(), symbol);
        assert(front.push(entries.last()) =~= entries);
    }
}

/// The definition file of a DLL starts with its name, and one more import adds a line
/// to it: where it is from that DLL and no earlier one from there has its symbol. The
/// line has the symbol, the ordinal or the name by which it binds where that is
/// another, and a mark for data.
pub proof fn one_more_import_adds_its_line(
    entries: Seq<EntryView>,
    entry: EntryView,
    dll: Seq<char>,
)
    ensures
        library_for(Seq::empty(), dll).dll == dll,
        library_for(Seq::empty(), dll).symbols == 0,
        library_for(Seq::empty(), dll).definition == "LIBRARY "@ + dll + "\nEXPORTS\n"@,
        entry.dll != dll || (exists|i: int|
            0 <= i < entries.len() && (#[trigger] entries[i]).dll == dll && entries[i].symbol
                == entry.symbol) ==> library_for(entries.push(entry), dll) == library_for(
            entries,
            dll,
        ),
        entry.dll == dll && !(exists|i: int|
            0 <= i < entries.len() && (#[trigger] entries[i]).dll == dll && entries[i].symbol
                == entry.symbol) ==> {
            let before = library_for(entries, dll);
            let after = library_for(entries.push(entry), dll);
            let binding = match entry.import {
                ImportView::Ordinal(n) => " @"@ + text::decimal_text(n as nat) + " NONAME"@,
                ImportView::Name(name) => if name == entry.symbol {
                    Seq::empty()
                } else {
                    "="@ + name
                },
            };
            let mark = if entry.is_data {
                " DATA"@
            } else {
                Seq::empty()
            };
            &&& after.dll == dll
            &&& after.symbols == before.symbols + 1
            &&& after.definition == before.definition + "  "@ + entry.symbol + binding + mark
                + "\n"@
        },
{
    let from = |entry: EntryView| entry.dll == dll;
    let more = entries.push(entry);
    let group = imports_from(entries, dll);
    assert(imports_from(Seq::empty(), dll) =~= Seq::empty()) by {
        reveal(Seq::filter);
    }
    assert(library_for(Seq::empty(), dll).definition =~= "LIBRARY "@ + dll + "\nEXPORTS\n"@);
    assert(more.take(entries.len() as int) =~= entries);
    assert(more.take(more.len() as int) =~= more);
    lists::lemma_filter_step(more, entries.len() as int, from);
    if entry.dll == dll {
        assert(imports_from(more, dll) == group.push(entry));
        assert(group.push(entry).drop_last() =~= group);
        lemma_firsts_are_there(group, entry.symbol);
        if has_symbol(group, entry.symbol) {
            let k = choose|k: int|
                0 <= k < group.len() && (#[trigger] group[k]).symbol == entry.symbol;
            assert(group.contains(group[k]));
            lists::lemma_filter_contains(entries, from, group[k]);
            let i = choose|i: int| 0 <= i < entries.len() && entries[i] == group[k];
            assert(entries[i].dll == dll && entries[i].symbol == entry.symbol);
        } else {
            assert forall|i: int| 0 <= i < entries.len() && (#[trigger] entries[i]).dll
                == dll implies entries[i].symbol != entry.symbol by {
                assert(entries.contains(entries[i]));
                lists::lemma_filter_contains(entries, from, entries[i]);
                let k = choose|k: int| 0 <= k < group.len() && group[k] == entries[i];
                assert(group[k].symbol == entries[i].symbol);
            }
            let firsts = first_imports(group);
            assert(first_imports(group.push(entry)) == firsts.push(entry));
            assert(firsts.push(entry).drop_last() =~= firsts);
            let binding = match entry.import {
                ImportView::Ordinal(n) => " @"@ + text::decimal_text(n as nat) + " NONAME"@,
                ImportView::Name(name) => if name == entry.symbol {
                    Seq::empty()
                } else {
                    "="@ + name
                },
            };
            let mark = if entry.is_data {
                " DATA"@
            } else {
                Seq::empty()
            };
            assert(library_for(more, dll).definition =~= library_for(entries, dll).definition
                + "  "@ + entry.symbol + binding + mark + "\n"@);
        }
    }
}

proof fn lemma_dlls_are_there(entries: Seq<EntryView>, dll: Seq<char>)
    ensures
        dlls_of(entries).finite(),
        dlls_of(entries).contains(dll) <==> exists|i: int|
            0 <= i < entries.len() && (#[trigger] entries[i]).dll == dll,
    decreases entries.len(),
{
    if entries.len() > 0 {
        let front = entries.drop_last();
        lemma_dlls_are_there(front, dll);
        assert(entries[entries.len() - 1] == entries.last());
        assert forall|i: int| 0 <= i < front.len() implies front[i] == #[trigger] entries[i] by {}
        if exists|i: int| 0 <= i < front.len() && (#[trigger] front[i]).dll == dll {
            let i = choose|i: int| 0 <= i < front.len() && (#[trigger] front[i]).dll == dll;
            assert(entries[i].dll == dll);
        }
    }
}

/// There is one import library for each DLL that is imported from, in the order of
/// the names of the DLLs, and no other.
pub proof fn one_library_for_each_dll(entries: Seq<EntryView>)
    ensures
        forall|i: int|
            0 <= i < entries.len() ==> exists|k: int|
                0 <= k < libraries_of(entries).len() && (#[trigger] libraries_of(entries)[k]).dll
                    == (#[trigger] entries[i]).dll,
        forall|k: int|
            0 <= k < libraries_of(entries).len() ==> {
                let library = #[trigger] libraries_of(entries)[k];
                &&& library == library_for(entries, library.dll)
                &&& exists|i: int|
                    0 <= i < entries.len() && (#[trigger] entries[i]).dll == library.dll
            },
        forall|j: int, k: int|
            0 <= j < k < libraries_of(entries).len() ==> order::comes_before(
                (#[trigger] libraries_of(entries)[j]).dll,
                (#[trigger] libraries_of(entries)[k]).dll,
            ),
{
    let dlls = dlls_of(entries);
    let names = order::listing(dlls);
    let libraries = libraries_of(entries);
    lemma_dlls_are_there(entries, Seq::empty());
    order::listings_are_sorted(dlls);
    assert forall|k: int| 0 <= k < libraries.len() implies (#[trigger] libraries[k]).dll == names[k]
        by {}
    assert forall|i: int| 0 <= i < entries.len() implies exists|k: int|
        0 <= k < libraries.len() && (#[trigger] libraries[k]).dll == (
        #[trigger] entries[i]).dll by {
        lemma_dlls_are_there(entries, entries[i].dll);
        assert(names.contains(entries[i].dll));
        let k = choose|k: int| 0 <= k < names.len() && names[k] == entries[i].dll;
        assert(libraries[k].dll == entries[i].dll);
    }
    assert forall|k: int| 0 <= k < libraries.len() implies {
        let library = #[trigger] libraries[k];
        &&& library == library_for(entries, library.dll)
        &&& exists|i: int| 0 <= i < entries.len() && (#[trigger] entries[i]).dll == library.dll
    } by {
        lemma_dlls_are_there(entries, names[k]);
        assert(names.contains(names[k]));
    }
}

} // verus!
