//! A look through the objects of a COFF library.

use vstd::prelude::*;
use vstd::string::*;

use crate::extract;
use crate::extract::{extract_coff_objects, ExtractError, ExtractErrorView};
use crate::formats;
use crate::imports;
use crate::imports::{classify_member, decode_short_import, EntryView, ImportEntry, MemberKind};
use crate::inspect;
use crate::inspect::{collect_defined_globals, collect_undefined_globals, Wanted};
use crate::keep;
use crate::lists;
use crate::names::SymbolSet;
use crate::rename;
use crate::rename::build_renames;

verus! {

/// The names of the symbols asked for in a list of objects.
pub open spec fn names_among(objects: Seq<Seq<u8>>, wanted: Wanted) -> Set<Seq<char>>
    decreases objects.len(),
{
    if objects.len() == 0 {
        Set::empty()
    } else {
        names_among(objects.drop_last(), wanted).union(
            inspect::names_in_data(objects.last(), wanted),
        )
    }
}

/// The kind of a member of a COFF archive.
pub open spec fn kind_in(data: Seq<u8>) -> MemberKind {
    imports::member_kind(formats::kind_of(data), formats::object_in(data))
}

/// The DLL imports among the members of a COFF archive. Short imports that cannot
/// be decoded are passed over.
pub open spec fn imports_among(objects: Seq<Seq<u8>>) -> Seq<EntryView>
    decreases objects.len(),
{
    if objects.len() == 0 {
        Seq::empty()
    } else {
        let rest = imports_among(objects.drop_last());
        match imports::import_in(objects.last()) {
            Some(entry) => if kind_in(objects.last()) == MemberKind::ShortImport {
                rest.push(entry)
            } else {
                rest
            },
            None => rest,
        }
    }
}

/// What a COFF library holds, and how its symbols are renamed.
pub struct Scan {
    pub objects: Vec<Vec<u8>>,
    pub kinds: Vec<MemberKind>,
    pub renames: Vec<(String, String)>,
    pub imports: Vec<ImportEntry>,
}

/// What a `Scan` says.
pub struct ScanView {
    pub objects: Seq<Seq<u8>>,
    pub kinds: Seq<MemberKind>,
    pub renames: Seq<(Seq<char>, Seq<char>)>,
    pub imports: Seq<EntryView>,
}

impl DeepView for Scan {
    type V = ScanView;

    open spec fn deep_view(&self) -> ScanView {
        ScanView {
            objects: self.objects.deep_view(),
            kinds: self.kinds@,
            renames: self.renames.deep_view(),
            imports: self.imports.deep_view(),
        }
    }
}

/// What the objects of a COFF library come to.
pub open spec fn scan_of(objects: Seq<Seq<u8>>, keep_prefix: Seq<char>) -> ScanView {
    ScanView {
        objects,
        kinds: objects.map_values(|data: Seq<u8>| kind_in(data)),
        renames: rename::archive_renames(
            names_among(objects, Wanted::Defined),
            names_among(objects, Wanted::Referenced),
            keep_prefix,
        ),
        imports: imports_among(objects),
    }
}

/// Looks through the objects of a COFF library.
pub fn scan_objects(objects: Vec<Vec<u8>>, keep_prefix: &str) -> (r: Scan)
    ensures
        r.deep_view() == scan_of(objects.deep_view(), keep_prefix@),
{
    let ghost all = objects.deep_view();
    let ghost kind = |data: Seq<u8>| kind_in(data);
    let mut defined = SymbolSet::new();
    let mut undefined = SymbolSet::new();
    let mut kinds: Vec<MemberKind> = Vec::new();
    let mut entries: Vec<ImportEntry> = Vec::new();
    let n: usize = objects.len();
    assert(entries.deep_view() =~= Seq::empty());
    for i in 0..n
        invariant
            n == objects@.len(),
            all == objects.deep_view(),
            kind == |data: Seq<u8>| kind_in(data),
            defined.wf(),
            undefined.wf(),
            defined@ == names_among(all.take(i as int), Wanted::Defined),
            undefined@ == names_among(all.take(i as int), Wanted::Referenced),
            kinds@ =~= all.take(i as int).map_values(kind),
            entries.deep_view() == imports_among(all.take(i as int)),
    {
        let data = objects[i].as_slice();
        proof {
            assert(all.take(i + 1).drop_last() =~= all.take(i as int));
            assert(all[i as int] =~= data@);
            assert(all.take(i + 1).last() == data@);
        }
        collect_defined_globals(data, &mut defined);
        collect_undefined_globals(data, &mut undefined);
        let found = classify_member(data);
        kinds.push(found);
        if found == MemberKind::ShortImport {
            if let Some(entry) = decode_short_import(data) {
                let ghost before = entries.deep_view();
                entries.push(entry);
                assert(entries.deep_view() =~= before.push(entry.deep_view()));
            }
        }
    }
    assert(all.take(n as int) =~= all);
    let renames = build_renames(&defined, &undefined, keep_prefix);
    Scan { objects, kinds, renames, imports: entries }
}

/// What scanning a library says.
pub open spec fn scan_view(r: Result<Scan, ExtractError>) -> Result<ScanView, ExtractErrorView> {
    match r {
        Ok(scan) => Ok(scan.deep_view()),
        Err(error) => Err(error.deep_view()),
    }
}

/// Extracts the objects of a COFF library and looks through them.
pub fn scan_library(library: &[u8], keep_prefix: &str) -> (r: Result<Scan, ExtractError>)
    ensures
        scan_view(r) == match extract::coff_extracted(formats::members_in(library@)) {
            Ok(objects) => Ok(scan_of(objects, keep_prefix@)),
            Err(error) => Err(error),
        },
{
    match extract_coff_objects(library) {
        Ok(objects) => Ok(scan_objects(objects, keep_prefix)),
        Err(error) => Err(error),
    }
}

/// Whether some member is part of a DLL import library.
pub open spec fn has_imports(kinds: Seq<MemberKind>) -> bool {
    exists|i: int|
        0 <= i < kinds.len() && (#[trigger] kinds[i] == MemberKind::ShortImport || kinds[i]
            == MemberKind::ImportDescriptor)
}

/// Finds out whether some member is part of a DLL import library.
pub fn needs_import_support(kinds: &Vec<MemberKind>) -> (r: bool)
    ensures
        r == has_imports(kinds@),
{
    let n: usize = kinds.len();
    for i in 0..n
        invariant
            n == kinds@.len(),
            forall|j: int|
                0 <= j < i ==> #[trigger] kinds@[j] != MemberKind::ShortImport && kinds@[j]
                    != MemberKind::ImportDescriptor,
    {
        if kinds[i].is_import_member() {
            return true;
        }
    }
    false
}

proof fn lemma_names_among_finite(objects: Seq<Seq<u8>>, wanted: Wanted)
    ensures
        names_among(objects, wanted).finite(),
    decreases objects.len(),
{
    if objects.len() > 0 {
        lemma_names_among_finite(objects.drop_last(), wanted);
        if let Some(object) = formats::object_in(objects.last()) {
            inspect::lemma_names_finite(object.symbols, wanted);
        }
    }
}

/// The renames of a library hide everything outside the interface, and leave the
/// interface alone: afterwards, each symbol that an object defines is an allowed
/// global or machinery of an import library, and those of the interface have their
/// old names.
pub proof fn renames_hide_all_but_the_api(
    objects: Seq<Seq<u8>>,
    keep_prefix: Seq<char>,
    name: Seq<char>,
)
    requires
        names_among(objects, Wanted::Defined).contains(name),
    ensures
        ({
            let new = rename::new_name(scan_of(objects, keep_prefix).renames, name);
            &&& keep::is_allowed_global(new, keep_prefix) || rename::is_machinery(new)
            &&& keep::is_api(name, keep_prefix) ==> new == name
        }),
{
    let defined = names_among(objects, Wanted::Defined);
    let undefined = names_among(objects, Wanted::Referenced);
    lemma_names_among_finite(objects, Wanted::Defined);
    lemma_names_among_finite(objects, Wanted::Referenced);
    rename::renamed_symbols_are_allowed(defined, undefined, keep_prefix, name);
    if keep::is_api(name, keep_prefix) {
        rename::renaming_leaves_api_and_references(defined, undefined, keep_prefix, name);
    }
}

/// Renaming doubles no definition and captures no reference: two names that the
/// objects of a library define or refer to are different afterwards.
pub proof fn renames_keep_symbols_apart(
    objects: Seq<Seq<u8>>,
    keep_prefix: Seq<char>,
    a: Seq<char>,
    b: Seq<char>,
)
    requires
        names_among(objects, Wanted::Defined).contains(a) || names_among(
            objects,
            Wanted::Referenced,
        ).contains(a),
        names_among(objects, Wanted::Defined).contains(b) || names_among(
            objects,
            Wanted::Referenced,
        ).contains(b),
        a != b,
    ensures
        rename::new_name(scan_of(objects, keep_prefix).renames, a) != rename::new_name(
            scan_of(objects, keep_prefix).renames,
            b,
        ),
{
    lemma_names_among_finite(objects, Wanted::Defined);
    lemma_names_among_finite(objects, Wanted::Referenced);
    rename::renaming_keeps_symbols_apart(
        names_among(objects, Wanted::Defined),
        names_among(objects, Wanted::Referenced),
        keep_prefix,
        a,
        b,
    );
}

/// The names of a list of objects are those of its objects: a name is defined, or
/// referred to, exactly where some object has a global symbol of that name that is a
/// definition, or is none.
pub proof fn names_by_what_the_objects_hold(objects: Seq<Seq<u8>>, name: Seq<char>)
    ensures
        names_among(objects, Wanted::Defined).contains(name) <==> exists|i: int, j: int|
            #![trigger formats::object_in(objects[i])->0.symbols[j]]
            0 <= i < objects.len() && formats::object_in(objects[i]) is Some && 0 <= j
                < formats::object_in(objects[i])->0.symbols.len() && formats::object_in(
                objects[i],
            )->0.symbols[j].is_global && formats::object_in(objects[i])->0.symbols[j].is_definition
                && formats::object_in(objects[i])->0.symbols[j].name == Some(name),
        names_among(objects, Wanted::Referenced).contains(name) <==> exists|i: int, j: int|
            #![trigger formats::object_in(objects[i])->0.symbols[j]]
            0 <= i < objects.len() && formats::object_in(objects[i]) is Some && 0 <= j
                < formats::object_in(objects[i])->0.symbols.len() && formats::object_in(
                objects[i],
            )->0.symbols[j].is_global && !formats::object_in(objects[i])->0.symbols[j].is_definition
                && formats::object_in(objects[i])->0.symbols[j].name == Some(name),
    decreases objects.len(),
{
    if objects.len() > 0 {
        let rest = objects.drop_last();
        names_by_what_the_objects_hold(rest, name);
        assert(objects[objects.len() - 1] == objects.last());
        assert forall|i: int| 0 <= i < rest.len() implies rest[i] == #[trigger] objects[i] by {}
        if let Some(object) = formats::object_in(objects.last()) {
            inspect::names_by_what_the_symbols_say(object.symbols, name);
            assert forall|j: int| 0 <= j < object.symbols.len() implies #[trigger] object.symbols[j]
                == formats::object_in(objects[objects.len() - 1])->0.symbols[j] by {}
        }
        assert forall|i: int, j: int| 0 <= i < rest.len() implies #[trigger] formats::object_in(
            rest[i],
        )->0.symbols[j] == formats::object_in(objects[i])->0.symbols[j] by {}
    }
}

/// A scan tells all members apart, keeps every import that can be decoded, in the
/// order of the members, and renames by what all of them define and refer to.
pub proof fn scans_by_member(objects: Seq<Seq<u8>>, keep_prefix: Seq<char>)
    ensures
        scan_of(objects, keep_prefix).objects == objects,
        scan_of(objects, keep_prefix).renames == rename::archive_renames(
            names_among(objects, Wanted::Defined),
            names_among(objects, Wanted::Referenced),
            keep_prefix,
        ),
        scan_of(objects, keep_prefix).kinds.len() == objects.len(),
        forall|i: int| 0 <= i < objects.len() ==> {
            let kind = #[trigger] scan_of(objects, keep_prefix).kinds[i];
            let object = formats::object_in(objects[i]);
            &&& kind == MemberKind::ShortImport <==> formats::kind_of(objects[i])
                == formats::FileKind::CoffImport
            &&& kind == MemberKind::Other <==> formats::kind_of(objects[i])
                == formats::FileKind::Other
            &&& kind == MemberKind::ImportDescriptor <==> {
                &&& formats::kind_of(objects[i]) == formats::FileKind::Coff
                &&& object is Some
                &&& object->0.sections.len() > 0
                &&& forall|k: int|
                    0 <= k < object->0.sections.len() ==> (#[trigger] object->0.sections[k]) is Some
                        && ".idata"@.is_prefix_of(object->0.sections[k]->0)
            }
        },
        scan_of(objects, keep_prefix).imports == objects.filter(
            |data: Seq<u8>|
                formats::kind_of(data) == formats::FileKind::CoffImport && formats::short_import_in(
                    data,
                ) is Some,
        ).map_values(|data: Seq<u8>| imports::import_in(data)->0),
{
    lemma_imports_among(objects);
    assert forall|i: int| 0 <= i < objects.len() implies #[trigger] scan_of(
        objects,
        keep_prefix,
    ).kinds[i] == kind_in(objects[i]) by {}
}

proof fn lemma_imports_among(objects: Seq<Seq<u8>>)
    ensures
        imports_among(objects) == objects.filter(
            |data: Seq<u8>|
                formats::kind_of(data) == formats::FileKind::CoffImport && formats::short_import_in(
                    data,
                ) is Some,
        ).map_values(|data: Seq<u8>| imports::import_in(data)->0),
    decreases objects.len(),
{
    let keep = |data: Seq<u8>|
        formats::kind_of(data) == formats::FileKind::CoffImport && formats::short_import_in(
            data,
        ) is Some;
    let map = |data: Seq<u8>| imports::import_in(data)->0;
    if objects.len() > 0 {
        lemma_imports_among(objects.drop_last());
        lists::lemma_filter_map_last(objects, keep, map);
    } else {
        reveal(Seq::filter);
        assert(imports_among(objects) =~= objects.filter(keep).map_values(map));
    }
}

/// Every symbol that an object of the library defines is renamed under the prefix,
/// unless its form keeps its name; and then by its old name behind the prefix.
pub proof fn every_internal_symbol_is_renamed(
    objects: Seq<Seq<u8>>,
    keep_prefix: Seq<char>,
    i: int,
    j: int,
    name: Seq<char>,
) -> (k: int)
    requires
        0 <= i < objects.len(),
        formats::object_in(objects[i]) is Some,
        0 <= j < formats::object_in(objects[i])->0.symbols.len(),
        formats::object_in(objects[i])->0.symbols[j].is_global,
        formats::object_in(objects[i])->0.symbols[j].is_definition,
        formats::object_in(objects[i])->0.symbols[j].name == Some(name),
        !keep_prefix.is_prefix_of(name),
        !("_"@ + keep_prefix).is_prefix_of(name),
        !"??"@.is_prefix_of(name),
        !"@"@.is_prefix_of(name),
        !"_NULL_THUNK_DATA"@.is_suffix_of(name),
        !exists|before: Seq<char>, after: Seq<char>|
            name == #[trigger] (before + "__IMPORT_DESCRIPTOR_"@ + after),
        !exists|before: Seq<char>, after: Seq<char>|
            name == #[trigger] (before + "__NULL_IMPORT_DESCRIPTOR"@ + after),
    ensures
        0 <= k < scan_of(objects, keep_prefix).renames.len(),
        scan_of(objects, keep_prefix).renames[k].0 == name,
        (keep_prefix + name).is_prefix_of(scan_of(objects, keep_prefix).renames[k].1),
{
    let defined = names_among(objects, Wanted::Defined);
    let undefined = names_among(objects, Wanted::Referenced);
    let r = scan_of(objects, keep_prefix).renames;
    lemma_names_among_finite(objects, Wanted::Defined);
    lemma_names_among_finite(objects, Wanted::Referenced);
    names_by_what_the_objects_hold(objects, name);
    rename::renamed_symbols_by_their_form(defined, undefined, keep_prefix, name);
    let k = choose|k: int| 0 <= k < r.len() && (#[trigger] r[k]).0 == name;
    let n = rename::new_names_say_the_old(defined, undefined, keep_prefix, k);
    let base = keep_prefix + name;
    assert(r[k].1.subrange(0, base.len() as int) =~= base);
    k
}

/// Nothing else is renamed: an old name in the list is that of a global definition in
/// some object, and its form does not keep it.
pub proof fn only_internal_symbols_are_renamed(
    objects: Seq<Seq<u8>>,
    keep_prefix: Seq<char>,
    k: int,
)
    requires
        0 <= k < scan_of(objects, keep_prefix).renames.len(),
    ensures
        ({
            let name = scan_of(objects, keep_prefix).renames[k].0;
            &&& exists|i: int, j: int|
                #![trigger formats::object_in(objects[i])->0.symbols[j]]
                0 <= i < objects.len() && formats::object_in(objects[i]) is Some && 0 <= j
                    < formats::object_in(objects[i])->0.symbols.len() && formats::object_in(
                    objects[i],
                )->0.symbols[j].is_global && formats::object_in(
                    objects[i],
                )->0.symbols[j].is_definition && formats::object_in(objects[i])->0.symbols[j].name
                    == Some(name)
            &&& !keep_prefix.is_prefix_of(name)
            &&& !("_"@ + keep_prefix).is_prefix_of(name)
            &&& !"??"@.is_prefix_of(name)
            &&& !"@"@.is_prefix_of(name)
            &&& !"_NULL_THUNK_DATA"@.is_suffix_of(name)
            &&& !exists|before: Seq<char>, after: Seq<char>|
                name == #[trigger] (before + "__IMPORT_DESCRIPTOR_"@ + after)
            &&& !exists|before: Seq<char>, after: Seq<char>|
                name == #[trigger] (before + "__NULL_IMPORT_DESCRIPTOR"@ + after)
        }),
{
    let defined = names_among(objects, Wanted::Defined);
    let undefined = names_among(objects, Wanted::Referenced);
    let r = scan_of(objects, keep_prefix).renames;
    let name = r[k].0;
    lemma_names_among_finite(objects, Wanted::Defined);
    lemma_names_among_finite(objects, Wanted::Referenced);
    names_by_what_the_objects_hold(objects, name);
    rename::renamed_symbols_by_their_form(defined, undefined, keep_prefix, name);
    assert(0 <= k < r.len() && r[k].0 == name);
}

/// A library has imports where one of its members is a short import or an import
/// descriptor.
pub proof fn imports_are_short_or_descriptors(kinds: Seq<MemberKind>)
    ensures
        has_imports(kinds) <==> kinds.contains(MemberKind::ShortImport) || kinds.contains(
            MemberKind::ImportDescriptor,
        ),
{
}

} // verus!
