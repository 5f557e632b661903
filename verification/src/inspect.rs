//! What the members of a library define, import and run on.

use vstd::prelude::*;
use vstd::string::*;

use crate::formats;
use crate::formats::{
    next_entry, object_architecture, open_archive, parse_object, Architecture, ObjectFile,
    ObjectView, SymbolView,
};
use crate::headers;
use crate::headers::read_part;
use crate::lists;
use crate::names::SymbolSet;
use crate::order;

verus! {

/// Which symbols of an object are asked for.
#[derive(Clone, Copy, PartialEq, Eq, Debug, Structural)]
pub enum Wanted {
    /// The global definitions that have a name.
    Public,
    /// The global definitions.
    Defined,
    /// The global symbols that are no definitions.
    Referenced,
}

/// Whether a symbol is one of those asked for.
pub open spec fn is_wanted(symbol: SymbolView, wanted: Wanted) -> bool {
    &&& symbol.is_global
    &&& symbol.is_definition == (wanted != Wanted::Referenced)
    &&& symbol.name matches Some(name) && (wanted == Wanted::Public ==> name.len() > 0)
}

/// The names of the symbols asked for.
pub open spec fn names_in(symbols: Seq<SymbolView>, wanted: Wanted) -> Set<Seq<char>>
    decreases symbols.len(),
{
    if symbols.len() == 0 {
        Set::empty()
    } else {
        let rest = names_in(symbols.drop_last(), wanted);
        if is_wanted(symbols.last(), wanted) {
            rest.insert(symbols.last().name->0)
        } else {
            rest
        }
    }
}

/// A name is among those asked for exactly where a symbol asked for bears it.
pub proof fn lemma_names_in(symbols: Seq<SymbolView>, wanted: Wanted, name: Seq<char>)
    ensures
        names_in(symbols, wanted).contains(name) <==> exists|i: int|
            0 <= i < symbols.len() && is_wanted(#[trigger] symbols[i], wanted) && symbols[i].name
                == Some(name),
    decreases symbols.len(),
{
    if symbols.len() > 0 {
        let rest = symbols.drop_last();
        lemma_names_in(rest, wanted, name);
        if exists|i: int|
            0 <= i < rest.len() && is_wanted(#[trigger] rest[i], wanted) && rest[i].name == Some(
                name,
            ) {
            let i = choose|i: int|
                0 <= i < rest.len() && is_wanted(#[trigger] rest[i], wanted) && rest[i].name
                    == Some(name);
            assert(symbols[i] == rest[i]);
        }
        if exists|i: int|
            0 <= i < symbols.len() && is_wanted(#[trigger] symbols[i], wanted) && symbols[i].name
                == Some(name) {
            let i = choose|i: int|
                0 <= i < symbols.len() && is_wanted(#[trigger] symbols[i], wanted)
                    && symbols[i].name == Some(name);
            if i < rest.len() {
                assert(rest[i] == symbols[i]);
            }
        }
    }
}

/// Adds the names of the symbols asked for to `out`.
pub fn add_names(file: &ObjectFile, wanted: Wanted, out: &mut SymbolSet)
    requires
        old(out).wf(),
    ensures
        final(out).wf(),
        final(out)@ == old(out)@.union(names_in(file.deep_view().symbols, wanted)),
{
    let ghost before = out@;
    let ghost symbols = file.symbols.deep_view();
    let n: usize = file.symbols.len();
    assert(before.union(names_in(symbols.take(0), wanted)) =~= before);
    for i in 0..n
        invariant
            n == file.symbols@.len(),
            symbols == file.symbols.deep_view(),
            out.wf(),
            out@ == before.union(names_in(symbols.take(i as int), wanted)),
    {
        let symbol = &file.symbols[i];
        proof {
            assert(symbols.take(i + 1).drop_last() =~= symbols.take(i as int));
            assert(symbols.take(i + 1).last() == symbol.deep_view());
        }
        if symbol.is_global && symbol.is_definition == (wanted != Wanted::Referenced) {
            if let Some(name) = &symbol.name {
                if wanted != Wanted::Public || name.as_str().unicode_len() > 0 {
                    out.insert(name.clone());
                    assert(out@ =~= before.union(names_in(symbols.take(i + 1), wanted)));
                }
            }
        }
    }
    assert(symbols.take(n as int) =~= symbols);
}

/// The names that the objects of a library define publicly.
pub open spec fn public_names(objects: Seq<ObjectView>) -> Set<Seq<char>>
    decreases objects.len(),
{
    if objects.len() == 0 {
        Set::empty()
    } else {
        public_names(objects.drop_last()).union(
            names_in(objects.last().symbols, Wanted::Public),
        )
    }
}

/// The public symbols of a list of objects, in ascending order.
pub fn list_public_symbols(objects: &Vec<ObjectFile>) -> (r: Vec<String>)
    ensures
        r.deep_view() == order::listing(public_names(objects.deep_view())),
{
    let mut names = SymbolSet::new();
    let n: usize = objects.len();
    for i in 0..n
        invariant
            n == objects@.len(),
            names.wf(),
            names@ == public_names(objects.deep_view().take(i as int)),
    {
        proof {
            let seen = objects.deep_view().take(i + 1);
            assert(seen.drop_last() =~= objects.deep_view().take(i as int));
        }
        add_names(&objects[i], Wanted::Public, &mut names);
    }
    assert(objects.deep_view().take(n as int) =~= objects.deep_view());
    names.sorted()
}

/// The objects among the entries of an archive.
pub open spec fn objects_among(entries: Seq<Seq<u8>>) -> Seq<ObjectView>
    decreases entries.len(),
{
    if entries.len() == 0 {
        Seq::empty()
    } else {
        match formats::object_in(entries[0]) {
            Some(object) => seq![object] + objects_among(entries.drop_first()),
            None => objects_among(entries.drop_first()),
        }
    }
}

/// The objects of a library.
pub open spec fn objects_of(archive: Seq<u8>) -> Seq<ObjectView> {
    objects_among(formats::archive_entries(archive))
}

/// The public symbols of a library, in ascending order.
pub open spec fn symbols_of(archive: Seq<u8>) -> Seq<Seq<char>> {
    order::listing(public_names(objects_of(archive)))
}

/// Lists the public symbols of a static library, in ascending order and each of
/// them once. Entries that are no objects are passed over, and the list ends with
/// the first entry whose header is malformed.
pub fn list_symbols(archive: &[u8]) -> (r: Vec<String>)
    requires
        headers::readable(archive@),
    ensures
        r.deep_view() == symbols_of(archive@),
{
    let ghost all = objects_of(archive@);
    let mut reader = open_archive(archive);
    let mut objects: Vec<ObjectFile> = Vec::new();
    assert(objects.deep_view() =~= Seq::empty());
    loop
        invariant
            objects.deep_view() + objects_among(formats::unread_entries(reader)) == all,
        ensures
            objects.deep_view() == all,
        decreases formats::unread_entries(reader).len(),
    {
        let data = match next_entry(&mut reader) {
            Some(data) => data,
            None => {
                break;
            },
        };
        if let Some(object) = parse_object(data.as_slice()) {
            let ghost before = objects.deep_view();
            objects.push(object);
            assert(objects.deep_view() =~= before.push(object.deep_view()));
        }
    }
    list_public_symbols(&objects)
}

/// Finitely many symbols have finitely many names.
pub proof fn lemma_names_finite(symbols: Seq<SymbolView>, wanted: Wanted)
    ensures
        names_in(symbols, wanted).finite(),
    decreases symbols.len(),
{
    if symbols.len() > 0 {
        lemma_names_finite(symbols.drop_last(), wanted);
    }
}

proof fn lemma_public_names(objects: Seq<ObjectView>, name: Seq<char>)
    ensures
        public_names(objects).finite(),
        public_names(objects).contains(name) <==> exists|i: int|
            0 <= i < objects.len() && names_in(
                (#[trigger] objects[i]).symbols,
                Wanted::Public,
            ).contains(name),
    decreases objects.len(),
{
    if objects.len() > 0 {
        let rest = objects.drop_last();
        lemma_public_names(rest, name);
        lemma_names_finite(objects.last().symbols, Wanted::Public);
        if public_names(rest).contains(name) {
            let i = choose|i: int|
                0 <= i < rest.len() && names_in(
                    (#[trigger] rest[i]).symbols,
                    Wanted::Public,
                ).contains(name);
            assert(objects[i] == rest[i]);
        }
        if exists|i: int|
            0 <= i < objects.len() && names_in(
                (#[trigger] objects[i]).symbols,
                Wanted::Public,
            ).contains(name) {
            let i = choose|i: int|
                0 <= i < objects.len() && names_in(
                    (#[trigger] objects[i]).symbols,
                    Wanted::Public,
                ).contains(name);
            if i < rest.len() {
                assert(rest[i] == objects[i]);
            }
        }
    }
}

/// The list of public symbols is in ascending order and names each symbol once.
pub proof fn listed_symbols_ascend(archive: Seq<u8>)
    ensures
        order::ascending(symbols_of(archive)),
        symbols_of(archive).no_duplicates(),
{
    let names = public_names(objects_of(archive));
    lemma_public_names(objects_of(archive), Seq::empty());
    order::lemma_listing_exists(names);
    order::lemma_ascending_distinct(symbols_of(archive));
}

/// Whether an object has a global definition of the given name.
pub open spec fn defines(object: ObjectView, name: Seq<char>) -> bool {
    exists|j: int|
        0 <= j < object.symbols.len() && (#[trigger] object.symbols[j]).is_global
            && object.symbols[j].is_definition && object.symbols[j].name == Some(name)
}

/// A name is listed exactly where it is not empty and some object of the library
/// has a global definition of that name.
pub proof fn listed_symbols_are_the_named_global_definitions(archive: Seq<u8>, name: Seq<char>)
    ensures
        symbols_of(archive).contains(name) <==> name.len() > 0 && exists|i: int|
            0 <= i < objects_of(archive).len() && defines(#[trigger] objects_of(archive)[i], name),
{
    let objects = objects_of(archive);
    lemma_public_names(objects, name);
    order::lemma_listing_exists(public_names(objects));
    assert(symbols_of(archive).contains(name) <==> symbols_of(archive).to_set().contains(name));
    assert forall|i: int| 0 <= i < objects.len() implies (names_in(
        (#[trigger] objects[i]).symbols,
        Wanted::Public,
    ).contains(name) <==> name.len() > 0 && defines(objects[i], name)) by {
        lemma_names_in(objects[i].symbols, Wanted::Public, name);
        if name.len() > 0 && defines(objects[i], name) {
            let j = choose|j: int|
                0 <= j < objects[i].symbols.len() && (#[trigger] objects[i].symbols[j]).is_global
                    && objects[i].symbols[j].is_definition && objects[i].symbols[j].name == Some(
                    name,
                );
            assert(is_wanted(objects[i].symbols[j], Wanted::Public));
        }
    }
}

/// The name under which an architecture is known; `x86_64` for those that are not
/// told apart.
pub open spec fn architecture_text(architecture: Architecture) -> Seq<char> {
    match architecture {
        Architecture::Aarch64 => "aarch64"@,
        Architecture::X86_64 => "x86_64"@,
        Architecture::I386 => "x86"@,
        Architecture::Arm => "arm"@,
        Architecture::Riscv64 => "riscv64"@,
        Architecture::PowerPc64 => "powerpc64"@,
        Architecture::S390x => "s390x"@,
        Architecture::Other => "x86_64"@,
    }
}

/// Names an architecture.
pub fn architecture_name(architecture: Architecture) -> (r: &'static str)
    ensures
        r@ == architecture_text(architecture),
{
    match architecture {
        Architecture::Aarch64 => "aarch64",
        Architecture::X86_64 => "x86_64",
        Architecture::I386 => "x86",
        Architecture::Arm => "arm",
        Architecture::Riscv64 => "riscv64",
        Architecture::PowerPc64 => "powerpc64",
        Architecture::S390x => "s390x",
        Architecture::Other => "x86_64",
    }
}

/// The architecture of the first object among the entries of an archive.
pub open spec fn first_architecture(entries: Seq<Seq<u8>>) -> Option<Architecture>
    decreases entries.len(),
{
    if entries.len() == 0 {
        None
    } else {
        match formats::architecture_in(entries[0]) {
            Some(architecture) => Some(architecture),
            None => first_architecture(entries.drop_first()),
        }
    }
}

/// The architecture that a library is taken to be built for, given that of its
/// first object.
pub open spec fn library_architecture(first: Option<Architecture>) -> Seq<char> {
    match first {
        Some(architecture) => architecture_text(architecture),
        None => "x86_64"@,
    }
}

/// The architecture of the first object of a library. Only what comes before the
/// first header that a reader does not get past is searched.
pub open spec fn found_architecture(archive: Seq<u8>) -> Option<Architecture> {
    first_architecture(formats::archive_entries(headers::readable_part(archive)))
}

/// Whether a library can be read up to its first object, or to its end where it
/// holds none.
pub open spec fn can_be_detected(archive: Seq<u8>) -> bool {
    found_architecture(archive) is Some || headers::readable(archive)
}

/// In a library that can be read to its end, the first of all its objects is found.
pub proof fn whole_library_is_searched(archive: Seq<u8>)
    requires
        headers::readable(archive),
    ensures
        found_architecture(archive) == first_architecture(formats::archive_entries(archive)),
{
    headers::readable_part_can_be_read(archive);
}

/// Finds the architecture of the first object of a library, where it comes before
/// any header that a reader does not get past.
pub fn find_architecture(archive: &[u8]) -> (r: Option<Architecture>)
    ensures
        r == found_architecture(archive@),
{
    let part = read_part(archive);
    let ghost all = formats::archive_entries(part@);
    proof {
        headers::readable_part_can_be_read(archive@);
    }
    let mut reader = open_archive(part);
    loop
        invariant
            first_architecture(all) == found_architecture(archive@),
            first_architecture(formats::unread_entries(reader)) == first_architecture(all),
        decreases formats::unread_entries(reader).len(),
    {
        let data = match next_entry(&mut reader) {
            Some(data) => data,
            None => {
                return None;
            },
        };
        if let Some(architecture) = object_architecture(data.as_slice()) {
            return Some(architecture);
        }
    }
}

/// Names the architecture of a static library, which is that of its first object.
/// A library that cannot be read, or that holds no object, counts as `x86_64`.
pub fn detect_archive_arch(archive: Option<&[u8]>) -> (r: &'static str)
    requires
        archive matches Some(bytes) ==> can_be_detected(bytes@),
    ensures
        match archive {
            Some(bytes) => r@ == library_architecture(found_architecture(bytes@)),
            None => r@ == "x86_64"@,
        },
{
    let found = match archive {
        Some(bytes) => find_architecture(bytes),
        None => None,
    };
    match found {
        Some(architecture) => architecture_name(architecture),
        None => "x86_64",
    }
}

/// The names of the symbols asked for in `data`, where it is an object.
pub open spec fn names_in_data(data: Seq<u8>, wanted: Wanted) -> Set<Seq<char>> {
    match formats::object_in(data) {
        Some(object) => names_in(object.symbols, wanted),
        None => Set::empty(),
    }
}

/// Adds the names of all global definitions in an object to `out`. References are
/// left out: they follow whatever object defines them.
pub fn collect_defined_globals(data: &[u8], out: &mut SymbolSet)
    requires
        old(out).wf(),
    ensures
        final(out).wf(),
        final(out)@ == old(out)@.union(names_in_data(data@, Wanted::Defined)),
{
    match parse_object(data) {
        Some(object) => {
            add_names(&object, Wanted::Defined, out);
        },
        None => {
            assert(out@.union(Set::empty()) =~= out@);
        },
    }
}

/// Adds the names of all global references in an object to `out`. COFF weak
/// externals are references too, so every global that is no definition counts.
pub fn collect_undefined_globals(data: &[u8], out: &mut SymbolSet)
    requires
        old(out).wf(),
    ensures
        final(out).wf(),
        final(out)@ == old(out)@.union(names_in_data(data@, Wanted::Referenced)),
{
    match parse_object(data) {
        Some(object) => {
            add_names(&object, Wanted::Referenced, out);
        },
        None => {
            assert(out@.union(Set::empty()) =~= out@);
        },
    }
}

/// The names that are asked for, by what the symbols say of themselves: definitions
/// for the public names, none of them empty, and for the defined ones; anything else
/// for the references; and all of them global.
pub proof fn names_by_what_the_symbols_say(symbols: Seq<SymbolView>, name: Seq<char>)
    ensures
        names_in(symbols, Wanted::Public).contains(name) <==> name.len() > 0 && exists|i: int|
            0 <= i < symbols.len() && (#[trigger] symbols[i]).is_global && symbols[i].is_definition
                && symbols[i].name == Some(name),
        names_in(symbols, Wanted::Defined).contains(name) <==> exists|i: int|
            0 <= i < symbols.len() && (#[trigger] symbols[i]).is_global && symbols[i].is_definition
                && symbols[i].name == Some(name),
        names_in(symbols, Wanted::Referenced).contains(name) <==> exists|i: int|
            0 <= i < symbols.len() && (#[trigger] symbols[i]).is_global && !symbols[i].is_definition
                && symbols[i].name == Some(name),
{
    lemma_names_in(symbols, Wanted::Public, name);
    lemma_names_in(symbols, Wanted::Defined, name);
    lemma_names_in(symbols, Wanted::Referenced, name);
    assert forall|i: int| 0 <= i < symbols.len() && symbols[i].name == Some(name) implies {
        let symbol = #[trigger] symbols[i];
        &&& is_wanted(symbol, Wanted::Public) == (symbol.is_global && symbol.is_definition
            && name.len() > 0)
        &&& is_wanted(symbol, Wanted::Defined) == (symbol.is_global && symbol.is_definition)
        &&& is_wanted(symbol, Wanted::Referenced) == (symbol.is_global && !symbol.is_definition)
    } by {}
}

/// The objects of a library are what its entries hold, in their order, without the
/// entries that are no objects.
pub proof fn objects_are_what_the_entries_hold(archive: Seq<u8>)
    ensures
        objects_of(archive) == formats::archive_entries(archive).filter(
            |data: Seq<u8>| formats::object_in(data) is Some,
        ).map_values(|data: Seq<u8>| formats::object_in(data)->0),
{
    lemma_objects_among(formats::archive_entries(archive));
}

proof fn lemma_objects_among(entries: Seq<Seq<u8>>)
    ensures
        objects_among(entries) == entries.filter(
            |data: Seq<u8>| formats::object_in(data) is Some,
        ).map_values(|data: Seq<u8>| formats::object_in(data)->0),
    decreases entries.len(),
{
    let keep = |data: Seq<u8>| formats::object_in(data) is Some;
    let map = |data: Seq<u8>| formats::object_in(data)->0;
    if entries.len() > 0 {
        lemma_objects_among(entries.drop_first());
        lists::lemma_filter_map_first(entries, keep, map);
    } else {
        reveal(Seq::filter);
        assert(objects_among(entries) =~= entries.filter(keep).map_values(map));
    }
}

/// The public symbols of a library are listed: a name is, exactly where it is not
/// empty and some entry is an object with a global definition of that name.
pub proof fn symbols_are_listed_from_the_entries(archive: Seq<u8>, name: Seq<char>)
    ensures
        symbols_of(archive).contains(name) <==> name.len() > 0 && exists|i: int, j: int|
            #![trigger formats::object_in(formats::archive_entries(archive)[i])->0.symbols[j]]
            0 <= i < formats::archive_entries(archive).len() && formats::object_in(
                formats::archive_entries(archive)[i],
            ) is Some && 0 <= j < formats::object_in(
                formats::archive_entries(archive)[i],
            )->0.symbols.len() && formats::object_in(
                formats::archive_entries(archive)[i],
            )->0.symbols[j].is_global && formats::object_in(
                formats::archive_entries(archive)[i],
            )->0.symbols[j].is_definition && formats::object_in(
                formats::archive_entries(archive)[i],
            )->0.symbols[j].name == Some(name),
{
    let entries = formats::archive_entries(archive);
    let keep = |data: Seq<u8>| formats::object_in(data) is Some;
    let map = |data: Seq<u8>| formats::object_in(data)->0;
    let kept = entries.filter(keep);
    let objects = objects_of(archive);
    objects_are_what_the_entries_hold(archive);
    listed_symbols_are_the_named_global_definitions(archive, name);
    if symbols_of(archive).contains(name) {
        let k = choose|k: int| 0 <= k < objects.len() && defines(#[trigger] objects[k], name);
        assert(objects[k] == map(kept[k]));
        assert(kept.contains(kept[k]));
        lists::lemma_filter_contains(entries, keep, kept[k]);
        let i = choose|i: int| 0 <= i < entries.len() && entries[i] == kept[k];
        let object = formats::object_in(entries[i])->0;
        let j = choose|j: int|
            0 <= j < object.symbols.len() && (#[trigger] object.symbols[j]).is_global
                && object.symbols[j].is_definition && object.symbols[j].name == Some(name);
        assert(formats::object_in(entries[i])->0.symbols[j].is_global);
    }
    if name.len() > 0 && exists|i: int, j: int|
        #![trigger formats::object_in(entries[i])->0.symbols[j]]
        0 <= i < entries.len() && formats::object_in(entries[i]) is Some && 0 <= j
            < formats::object_in(entries[i])->0.symbols.len() && formats::object_in(
            entries[i],
        )->0.symbols[j].is_global && formats::object_in(entries[i])->0.symbols[j].is_definition
            && formats::object_in(entries[i])->0.symbols[j].name == Some(name) {
        let (i, j) = choose|i: int, j: int|
            #![trigger formats::object_in(entries[i])->0.symbols[j]]
            0 <= i < entries.len() && formats::object_in(entries[i]) is Some && 0 <= j
                < formats::object_in(entries[i])->0.symbols.len() && formats::object_in(
                entries[i],
            )->0.symbols[j].is_global && formats::object_in(entries[i])->0.symbols[j].is_definition
                && formats::object_in(entries[i])->0.symbols[j].name == Some(name);
        assert(entries.contains(entries[i]));
        lists::lemma_filter_contains(entries, keep, entries[i]);
        let k = choose|k: int| 0 <= k < kept.len() && kept[k] == entries[i];
        assert(objects[k] == map(kept[k]));
        assert(objects[k].symbols[j].is_global);
        assert(defines(objects[k], name));
    }
}

/// Of two listed symbols the one that comes before the other stands first, so no
/// symbol is listed twice.
pub proof fn symbols_are_listed_in_order(archive: Seq<u8>, i: int, j: int)
    requires
        0 <= i < j < symbols_of(archive).len(),
    ensures
        order::comes_before(symbols_of(archive)[i], symbols_of(archive)[j]),
        symbols_of(archive)[i] != symbols_of(archive)[j],
{
    listed_symbols_ascend(archive);
}

/// The architecture that is found is that of the first entry that has one.
pub proof fn the_first_object_decides(entries: Seq<Seq<u8>>, i: int)
    requires
        0 <= i <= entries.len(),
        forall|j: int| 0 <= j < i ==> formats::architecture_in(#[trigger] entries[j]) is None,
    ensures
        i == entries.len() ==> first_architecture(entries) is None,
        i < entries.len() && formats::architecture_in(entries[i]) is Some ==> first_architecture(
            entries,
        ) == formats::architecture_in(entries[i]),
    decreases entries.len(),
{
    if entries.len() > 0 && i > 0 {
        let rest = entries.drop_first();
        assert(formats::architecture_in(entries[0]) is None);
        assert forall|j: int| 0 <= j < i - 1 implies formats::architecture_in(
            #[trigger] rest[j],
        ) is None by {
            assert(rest[j] == entries[j + 1]);
        }
        the_first_object_decides(rest, i - 1);
    }
}

/// Each architecture has its own name, except that those which are not told apart go
/// by that of the common one, as do libraries without objects.
pub proof fn architectures_by_name(a: Architecture, b: Architecture)
    ensures
        architecture_text(Architecture::Aarch64) == "aarch64"@,
        architecture_text(Architecture::X86_64) == "x86_64"@,
        architecture_text(Architecture::I386) == "x86"@,
        architecture_text(Architecture::Arm) == "arm"@,
        architecture_text(Architecture::Riscv64) == "riscv64"@,
        architecture_text(Architecture::PowerPc64) == "powerpc64"@,
        architecture_text(Architecture::S390x) == "s390x"@,
        architecture_text(Architecture::Other) == architecture_text(Architecture::X86_64),
        library_architecture(None) == architecture_text(Architecture::X86_64),
        library_architecture(Some(a)) == architecture_text(a),
        a != b && a != Architecture::Other && b != Architecture::Other ==> architecture_text(a)
            != architecture_text(b),
{
    reveal_strlit("aarch64");
    reveal_strlit("x86_64");
    reveal_strlit("x86");
    reveal_strlit("arm");
    reveal_strlit("riscv64");
    reveal_strlit("powerpc64");
    reveal_strlit("s390x");
    assert("aarch64"@[0] != "riscv64"@[0]);
    assert("arm"@[0] != "x86"@[0]);
    assert("aarch64"@ != "riscv64"@ && "arm"@ != "x86"@);
    assert("aarch64"@.len() == 7 && "riscv64"@.len() == 7 && "x86_64"@.len() == 6);
    assert("x86"@.len() == 3 && "arm"@.len() == 3);
    assert("powerpc64"@.len() == 9 && "s390x"@.len() == 5);
}

/// Nothing behind the readable part of a library counts for its architecture: it is
/// that of this part, which can be read to its end.
pub proof fn the_readable_part_decides(archive: Seq<u8>)
    ensures
        found_architecture(archive) == found_architecture(headers::readable_part(archive)),
        found_architecture(archive) == first_architecture(
            formats::archive_entries(headers::readable_part(archive)),
        ),
{
    let part = headers::readable_part(archive);
    headers::readable_part_can_be_read(archive);
    headers::readable_part_can_be_read(part);
}

} // verus!
