//! Members of a library that carry DLL imports, which keep their names.

use vstd::prelude::*;
use vstd::string::*;

use crate::formats;
use crate::formats::{
    file_kind, parse_archive, parse_object, parse_short_import, Binding, BindingView, FileKind,
    Imported, MemberView, ObjectFile, ObjectView, ShortImport, ShortImportView,
};
use crate::inspect;
use crate::inspect::{add_names, Wanted};
use crate::names::SymbolSet;
use crate::text;
use crate::text::{concat, lossy_text, starts_with};

verus! {

/// Whether an object consists of import-directory sections only: it has a section,
/// and the name of every section starts with `.idata`.
pub open spec fn is_import_descriptor(sections: Seq<Option<Seq<char>>>) -> bool {
    &&& sections.len() > 0
    &&& forall|i: int|
        0 <= i < sections.len() ==> (#[trigger] sections[i] matches Some(name)
            && ".idata"@.is_prefix_of(name))
}

/// Whether an object is an import-descriptor member of a DLL import library.
pub fn is_import_descriptor_member(file: &ObjectFile) -> (r: bool)
    ensures
        r == is_import_descriptor(file.deep_view().sections),
{
    let n: usize = file.sections.len();
    for i in 0..n
        invariant
            n == file.sections@.len(),
            forall|j: int|
                0 <= j < i ==> (#[trigger] file.deep_view().sections[j] matches Some(name)
                    && ".idata"@.is_prefix_of(name)),
    {
        assert(file.deep_view().sections[i as int] == file.sections@[i as int].deep_view());
        let kept = match &file.sections[i] {
            Some(name) => starts_with(name.as_str(), ".idata"),
            None => false,
        };
        if !kept {
            return false;
        }
    }
    n > 0
}

/// The names that an object defines for DLL imports: all that an import descriptor
/// defines; elsewhere each `__imp_<name>`, and `<name>` beside it.
pub open spec fn exempt_names(object: ObjectView) -> Set<Seq<char>> {
    let defined = inspect::names_in(object.symbols, Wanted::Defined);
    if is_import_descriptor(object.sections) {
        defined
    } else {
        defined.filter(
            |name: Seq<char>|
                "__imp_"@.is_prefix_of(name) || defined.contains("__imp_"@ + name),
        )
    }
}

/// Adds the names that an object defines for DLL imports to `out`.
pub fn add_exempt_names(file: &ObjectFile, out: &mut SymbolSet)
    requires
        old(out).wf(),
    ensures
        final(out).wf(),
        final(out)@ == old(out)@.union(exempt_names(file.deep_view())),
{
    let ghost before = out@;
    let ghost object = file.deep_view();
    let mut defined = SymbolSet::new();
    add_names(file, Wanted::Defined, &mut defined);
    assert(defined@ =~= inspect::names_in(object.symbols, Wanted::Defined));
    let all = is_import_descriptor_member(file);
    let ghost kept = |name: Seq<char>|
        "__imp_"@.is_prefix_of(name) || defined@.contains("__imp_"@ + name);
    let names = defined.names();
    let n: usize = names.len();
    let ghost listed = names.deep_view();
    for i in 0..n
        invariant
            n == names@.len(),
            listed == names.deep_view(),
            object == file.deep_view(),
            defined@ == inspect::names_in(object.symbols, Wanted::Defined),
            all == is_import_descriptor(object.sections),
            kept == |name: Seq<char>|
                "__imp_"@.is_prefix_of(name) || defined@.contains("__imp_"@ + name),
            out.wf(),
            forall|name: Seq<char>| #[trigger]
                out@.contains(name) <==> before.contains(name) || (listed.take(
                    i as int,
                ).contains(name) && (all || kept(name))),
    {
        let name = names[i].as_str();
        let ghost here = out@;
        proof {
            assert(listed.take(i + 1) =~= listed.take(i as int).push(name@));
            assert forall|other: Seq<char>| #[trigger]
                listed.take(i + 1).contains(other) <==> listed.take(i as int).contains(other)
                    || other == name@ by {
                let s = listed.take(i as int);
                if s.contains(other) {
                    let k = choose|k: int| 0 <= k < s.len() && s[k] == other;
                    assert(s.push(name@)[k] == other);
                }
                assert(s.push(name@)[s.len() as int] == name@);
            }
        }
        let slot = concat("__imp_", name);
        if all || starts_with(name, "__imp_") || defined.contains(slot.as_str()) {
            assert(all || kept(name@));
            out.insert(names[i].clone());
            assert(out@ =~= here.insert(name@));
        } else {
            assert(!kept(name@));
        }
        proof {
            assert forall|other: Seq<char>| #[trigger]
                out@.contains(other) <==> before.contains(other) || (listed.take(i + 1).contains(
                    other,
                ) && (all || kept(other))) by {
                assert(here.contains(other) <==> before.contains(other) || (listed.take(
                    i as int,
                ).contains(other) && (all || kept(other))));
            }
        }
    }
    proof {
        assert(listed.take(n as int) =~= listed);
        assert forall|name: Seq<char>|
            out@.contains(name) <==> before.union(exempt_names(object)).contains(name) by {
            assert(listed.contains(name) <==> listed.to_set().contains(name));
        }
        assert(out@ =~= before.union(exempt_names(object)));
    }
}

/// The names that the members of an archive define for DLL imports. Members that
/// are malformed, or no objects, have none.
pub open spec fn exempt_in(members: Seq<Option<MemberView>>) -> Set<Seq<char>>
    decreases members.len(),
{
    if members.len() == 0 {
        Set::empty()
    } else {
        let rest = exempt_in(members.drop_last());
        match member_object(members.last()) {
            Some(object) => rest.union(exempt_names(object)),
            None => rest,
        }
    }
}

/// The object that a member of an archive holds.
pub open spec fn member_object(member: Option<MemberView>) -> Option<ObjectView> {
    match member {
        Some(member) => match member.data {
            Some(data) => formats::object_in(data),
            None => None,
        },
        None => None,
    }
}

/// The names that a library defines for DLL imports.
pub open spec fn exempt_of(library: Seq<u8>) -> Set<Seq<char>> {
    match formats::members_in(library) {
        Ok(members) => exempt_in(members),
        Err(_) => Set::empty(),
    }
}

/// Collects the names that a library defines for DLL imports. What is no archive
/// has none.
pub fn import_exempt_symbols(library: &[u8]) -> (r: SymbolSet)
    ensures
        r.wf(),
        r@ == exempt_of(library@),
{
    let mut exempt = SymbolSet::new();
    let members = match parse_archive(library) {
        Ok(members) => members,
        Err(_) => {
            return exempt;
        },
    };
    let n: usize = members.len();
    for i in 0..n
        invariant
            n == members@.len(),
            exempt.wf(),
            exempt@ == exempt_in(members.deep_view().take(i as int)),
    {
        proof {
            let seen = members.deep_view().take(i + 1);
            assert(seen.drop_last() =~= members.deep_view().take(i as int));
            assert(seen.last() == members@[i as int].deep_view());
        }
        if let Some(member) = &members[i] {
            if let Some(data) = &member.data {
                if let Some(object) = parse_object(data.as_slice()) {
                    add_exempt_names(&object, &mut exempt);
                }
            }
        }
    }
    assert(members.deep_view().take(n as int) =~= members.deep_view());
    exempt
}

/// A name is exempt only by what a single member defines: the member defines the
/// name, and it is an import descriptor, or it defines the `__imp_` slot too.
pub proof fn exemption_is_proven_by_one_member(members: Seq<Option<MemberView>>, name: Seq<char>)
    ensures
        exempt_in(members).contains(name) <==> exists|i: int|
            0 <= i < members.len() && (member_object(#[trigger] members[i]) matches Some(object)
                && exempt_names(object).contains(name)),
        forall|object: ObjectView| #[trigger]
            exempt_names(object).contains(name) <==> {
                let defined = inspect::names_in(object.symbols, Wanted::Defined);
                &&& defined.contains(name)
                &&& is_import_descriptor(object.sections) || "__imp_"@.is_prefix_of(name)
                    || defined.contains("__imp_"@ + name)
            },
    decreases members.len(),
{
    if members.len() > 0 {
        let rest = members.drop_last();
        exemption_is_proven_by_one_member(rest, name);
        if exempt_in(rest).contains(name) {
            let i = choose|i: int|
                0 <= i < rest.len() && (member_object(#[trigger] rest[i]) matches Some(object)
                    && exempt_names(object).contains(name));
            assert(members[i] == rest[i]);
        }
        if exists|i: int|
            0 <= i < members.len() && (member_object(#[trigger] members[i]) matches Some(object)
                && exempt_names(object).contains(name)) {
            let i = choose|i: int|
                0 <= i < members.len() && (member_object(#[trigger] members[i]) matches Some(
                    object,
                ) && exempt_names(object).contains(name));
            if i < rest.len() {
                assert(rest[i] == members[i]);
            }
        }
    }
}

/// How a member of a COFF archive is treated when the library is put together
/// again.
#[derive(Clone, Copy, PartialEq, Eq, Debug, Structural)]
pub enum MemberKind {
    /// A regular object: its symbols are renamed, and it is archived.
    Coff,
    /// A short import, from which the import library of its DLL is made anew.
    ShortImport,
    /// An import descriptor. It is dropped: the new import library brings its own.
    ImportDescriptor,
    /// Anything else, such as LLVM bitcode. It is dropped.
    Other,
}

impl MemberKind {
    /// Whether the member is part of a DLL import library.
    pub fn is_import_member(self) -> (r: bool)
        ensures
            r == (self == MemberKind::ShortImport || self == MemberKind::ImportDescriptor),
    {
        match self {
            MemberKind::ShortImport | MemberKind::ImportDescriptor => true,
            _ => false,
        }
    }
}

/// The kind of a member, given the kind of its file and the object in it.
pub open spec fn member_kind(kind: FileKind, object: Option<ObjectView>) -> MemberKind {
    match kind {
        FileKind::Coff => match object {
            Some(object) => if is_import_descriptor(object.sections) {
                MemberKind::ImportDescriptor
            } else {
                MemberKind::Coff
            },
            None => MemberKind::Coff,
        },
        FileKind::CoffImport => MemberKind::ShortImport,
        FileKind::Other => MemberKind::Other,
    }
}

/// Classifies a member by the kind of its file and the object in it.
pub fn classify(kind: FileKind, object: &Option<ObjectFile>) -> (r: MemberKind)
    ensures
        r == member_kind(kind, object.deep_view()),
{
    match kind {
        FileKind::Coff => match object {
            Some(object) => if is_import_descriptor_member(object) {
                MemberKind::ImportDescriptor
            } else {
                MemberKind::Coff
            },
            None => MemberKind::Coff,
        },
        FileKind::CoffImport => MemberKind::ShortImport,
        FileKind::Other => MemberKind::Other,
    }
}

/// Classifies a member of a COFF archive.
pub fn classify_member(data: &[u8]) -> (r: MemberKind)
    ensures
        r == member_kind(formats::kind_of(data@), formats::object_in(data@)),
{
    let object = parse_object(data);
    classify(file_kind(data), &object)
}

/// Whether `data` is an import-descriptor object.
pub fn is_import_descriptor_object(data: &[u8]) -> (r: bool)
    ensures
        r == (formats::object_in(data@) matches Some(object) && is_import_descriptor(
            object.sections,
        )),
{
    match parse_object(data) {
        Some(object) => is_import_descriptor_member(&object),
        None => false,
    }
}

/// How a DLL import binds: by ordinal, or by the name that the DLL exports.
pub enum Import {
    Ordinal(u16),
    Name(String),
}

/// A DLL import.
pub struct ImportEntry {
    /// The DLL that the symbol is imported from.
    pub dll: String,
    /// The name by which the library refers to the symbol.
    pub symbol: String,
    /// How the symbol binds in the DLL.
    pub import: Import,
    /// Whether the symbol is a variable or a constant.
    pub is_data: bool,
}

/// What an `Import` says.
pub enum ImportView {
    Ordinal(u16),
    Name(Seq<char>),
}

/// What an `ImportEntry` says.
pub struct EntryView {
    pub dll: Seq<char>,
    pub symbol: Seq<char>,
    pub import: ImportView,
    pub is_data: bool,
}

impl DeepView for ImportEntry {
    type V = EntryView;

    open spec fn deep_view(&self) -> EntryView {
        EntryView {
            dll: self.dll@,
            symbol: self.symbol@,
            import: match self.import {
                Import::Ordinal(n) => ImportView::Ordinal(n),
                Import::Name(name) => ImportView::Name(name@),
            },
            is_data: self.is_data,
        }
    }
}

/// The DLL import that a short import stands for.
pub open spec fn import_of(short: ShortImportView) -> EntryView {
    EntryView {
        dll: text::lossy(short.dll),
        symbol: text::lossy(short.symbol),
        import: match short.binding {
            BindingView::Ordinal(n) => ImportView::Ordinal(n),
            BindingView::Name(name) => ImportView::Name(text::lossy(name)),
        },
        is_data: short.imported != Imported::Code,
    }
}

/// Reads the DLL import out of a short import.
pub fn import_entry(short: &ShortImport) -> (r: ImportEntry)
    ensures
        r.deep_view() == import_of(short.deep_view()),
{
    let import = match &short.binding {
        Binding::Ordinal(n) => Import::Ordinal(*n),
        Binding::Name(name) => Import::Name(lossy_text(name.as_slice())),
    };
    ImportEntry {
        dll: lossy_text(short.dll.as_slice()),
        symbol: lossy_text(short.symbol.as_slice()),
        import,
        is_data: short.imported != Imported::Code,
    }
}

/// The DLL import in a short-import member.
pub open spec fn import_in(data: Seq<u8>) -> Option<EntryView> {
    match formats::short_import_in(data) {
        Some(short) => Some(import_of(short)),
        None => None,
    }
}

/// Decodes a short-import member.
pub fn decode_short_import(data: &[u8]) -> (r: Option<ImportEntry>)
    ensures
        r.deep_view() == import_in(data@),
{
    match parse_short_import(data) {
        Some(short) => Some(import_entry(&short)),
        None => None,
    }
}

/// A member that is dropped as an import descriptor is one whose definitions are
/// all exempt from the leak check.
pub proof fn dropped_descriptors_are_exempt(data: Seq<u8>)
    requires
        member_kind(formats::kind_of(data), formats::object_in(data))
            == MemberKind::ImportDescriptor,
    ensures
        formats::object_in(data) matches Some(object) && exempt_names(object)
            == inspect::names_in(object.symbols, Wanted::Defined),
{
}

/// What makes a name exempt, by what one member of the library holds: a global
/// definition of that name, in an object whose sections, of which there must be one,
/// all begin with `.idata`; or one that begins with `__imp_`; or one beside a global
/// definition of the name with `__imp_` in front of it.
pub proof fn exempt_names_by_what_a_member_holds(library: Seq<u8>, name: Seq<char>)
    ensures
        formats::members_in(library) is Err ==> !exempt_of(library).contains(name),
        formats::members_in(library) matches Ok(members) ==> (exempt_of(library).contains(name)
            <==> exists|i: int|
            0 <= i < members.len() && (#[trigger] members[i]) is Some && members[i]->0.data is Some
                && formats::object_in(members[i]->0.data->0) is Some && ({
                let object = formats::object_in(members[i]->0.data->0)->0;
                &&& exists|j: int|
                    0 <= j < object.symbols.len() && (#[trigger] object.symbols[j]).is_global
                        && object.symbols[j].is_definition && object.symbols[j].name == Some(name)
                &&& {
                    ||| object.sections.len() > 0 && forall|k: int|
                        0 <= k < object.sections.len() ==> (#[trigger] object.sections[k]) is Some
                            && ".idata"@.is_prefix_of(object.sections[k]->0)
                    ||| "__imp_"@.is_prefix_of(name)
                    ||| exists|j: int|
                        0 <= j < object.symbols.len() && (#[trigger] object.symbols[j]).is_global
                            && object.symbols[j].is_definition && object.symbols[j].name == Some(
                            "__imp_"@ + name,
                        )
                }
            })),
{
    if let Ok(members) = formats::members_in(library) {
        exemption_is_proven_by_one_member(members, name);
        assert forall|object: ObjectView| #[trigger] exempt_names(object).contains(name) <==> {
            &&& exists|j: int|
                0 <= j < object.symbols.len() && (#[trigger] object.symbols[j]).is_global
                    && object.symbols[j].is_definition && object.symbols[j].name == Some(name)
            &&& {
                ||| object.sections.len() > 0 && forall|k: int|
                    0 <= k < object.sections.len() ==> (#[trigger] object.sections[k]) is Some
                        && ".idata"@.is_prefix_of(object.sections[k]->0)
                ||| "__imp_"@.is_prefix_of(name)
                ||| exists|j: int|
                    0 <= j < object.symbols.len() && (#[trigger] object.symbols[j]).is_global
                        && object.symbols[j].is_definition && object.symbols[j].name == Some(
                        "__imp_"@ + name,
                    )
            }
        } by {
            inspect::names_by_what_the_symbols_say(object.symbols, name);
            inspect::names_by_what_the_symbols_say(object.symbols, "__imp_"@ + name);
        }
        if exempt_of(library).contains(name) {
            let i = choose|i: int|
                0 <= i < members.len() && (member_object(#[trigger] members[i]) matches Some(object)
                    && exempt_names(object).contains(name));
            assert(exempt_names(formats::object_in(members[i]->0.data->0)->0).contains(name));
        }
        assert forall|i: int|
            0 <= i < members.len() && (#[trigger] members[i]) is Some && members[i]->0.data is Some
                && formats::object_in(members[i]->0.data->0) is Some && exempt_names(
                formats::object_in(members[i]->0.data->0)->0,
            ).contains(name) implies exempt_of(library).contains(name) by {
            assert(member_object(members[i]) is Some);
        }
    }
}

/// The kinds of members: short imports by the kind of their file, import descriptors
/// among the COFF objects by sections that all begin with `.idata`, the other COFF
/// files, and the rest.
pub proof fn kinds_by_file_and_sections(kind: FileKind, object: Option<ObjectView>)
    ensures
        kind == FileKind::CoffImport <==> member_kind(kind, object) == MemberKind::ShortImport,
        kind == FileKind::Other <==> member_kind(kind, object) == MemberKind::Other,
        member_kind(kind, object) == MemberKind::ImportDescriptor <==> {
            &&& kind == FileKind::Coff
            &&& object is Some
            &&& object->0.sections.len() > 0
            &&& forall|k: int|
                0 <= k < object->0.sections.len() ==> (#[trigger] object->0.sections[k]) is Some
                    && ".idata"@.is_prefix_of(object->0.sections[k]->0)
        },
{
}

/// A DLL import is what the short import says: the library and the symbol by the text
/// of their names, the binding by ordinal or by the text of its name, and data where
/// it is not code.
pub proof fn imports_say_what_the_short_import_says(data: Seq<u8>)
    ensures
        import_in(data) is Some <==> formats::short_import_in(data) is Some,
        formats::short_import_in(data) matches Some(short) ==> {
            let import = import_in(data)->0;
            &&& import.dll == text::lossy(short.dll)
            &&& import.symbol == text::lossy(short.symbol)
            &&& import.is_data <==> short.imported == Imported::Data || short.imported
                == Imported::Const
            &&& match short.binding {
                BindingView::Ordinal(n) => import.import == ImportView::Ordinal(n),
                BindingView::Name(name) => import.import == ImportView::Name(text::lossy(name)),
            }
        },
{
}

} // verus!
