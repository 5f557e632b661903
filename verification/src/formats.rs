//! What the archive and object-file readers report, as plain values.

use object::read::archive::ArchiveFile;
use object::read::coff::{ImportFile, ImportName, ImportType};
use object::read::File;
use object::{Object, ObjectSection, ObjectSymbol};
use std::io::Read;
use vstd::prelude::*;

use crate::headers;

verus! {

/// An `ar::Archive` over bytes in memory, which hands out the entries of the
/// archive one by one.
#[verifier::external_body]
pub struct EntryReader<'a> {
    inner: ar::Archive<&'a [u8]>,
}

/// The contents of the entries that the reader still hands out, up to the end of
/// the archive or to the first malformed header.
pub uninterp spec fn unread_entries(reader: EntryReader) -> Seq<Seq<u8>>;

/// The contents of all entries of the archive in `bytes`, up to its end or to
/// the first malformed header.
pub uninterp spec fn archive_entries(bytes: Seq<u8>) -> Seq<Seq<u8>>;

/// `ar::Archive::new`: a reader that stands before the first entry. An index
/// beyond the table of long names would later stop the reader with a panic. For
/// that table, and for a long BSD name, the reader allocates what the header asks
/// for, which must be no more than a machine can address; that the memory suffices
/// is taken for granted.
#[verifier::external_body]
pub(crate) fn open_archive(bytes: &[u8]) -> (r: EntryReader<'_>)
    requires
        headers::readable(bytes@),
    ensures
        unread_entries(r) == archive_entries(bytes@),
{
    EntryReader { inner: ar::Archive::new(bytes) }
}

/// `ar::Archive::next_entry`, with the entry read to its end: the contents of the
/// next entry, or nothing at the end of the archive and at a malformed header,
/// after which nothing more comes. Reading an entry from memory does not fail.
#[verifier::external_body]
pub(crate) fn next_entry(reader: &mut EntryReader<'_>) -> (r: Option<Vec<u8>>)
    ensures
        match r {
            Some(data) => {
                &&& unread_entries(*old(reader)).len() > 0
                &&& data@ == unread_entries(*old(reader)).first()
                &&& unread_entries(*final(reader)) == unread_entries(*old(reader)).drop_first()
            },
            None => {
                &&& unread_entries(*old(reader)).len() == 0
                &&& unread_entries(*final(reader)).len() == 0
            },
        },
{
    let mut data: Vec<u8> = Vec::new();
    let mut entry = reader.inner.next_entry()?.ok()?;
    entry.read_to_end(&mut data).ok()?;
    Some(data)
}

/// A symbol of an object file.
pub struct Symbol {
    /// The name, where it is readable text.
    pub name: Option<String>,
    pub is_global: bool,
    pub is_definition: bool,
}

/// What a `Symbol` says.
pub struct SymbolView {
    pub name: Option<Seq<char>>,
    pub is_global: bool,
    pub is_definition: bool,
}

impl DeepView for Symbol {
    type V = SymbolView;

    open spec fn deep_view(&self) -> SymbolView {
        SymbolView {
            name: self.name.deep_view(),
            is_global: self.is_global,
            is_definition: self.is_definition,
        }
    }
}

/// The symbols and the section names of an object file.
pub struct ObjectFile {
    pub symbols: Vec<Symbol>,
    /// The name of each section, where it is readable text.
    pub sections: Vec<Option<String>>,
}

/// What an `ObjectFile` says.
pub struct ObjectView {
    pub symbols: Seq<SymbolView>,
    pub sections: Seq<Option<Seq<char>>>,
}

impl DeepView for ObjectFile {
    type V = ObjectView;

    open spec fn deep_view(&self) -> ObjectView {
        ObjectView { symbols: self.symbols.deep_view(), sections: self.sections.deep_view() }
    }
}

/// What an object file in `data` holds; `None` where `data` is no object file.
pub uninterp spec fn object_in(data: Seq<u8>) -> Option<ObjectView>;

/// `object::read::File::parse`, with the symbols and sections of the file it
/// gives. The result depends on the bytes alone.
#[verifier::external_body]
pub(crate) fn parse_object(data: &[u8]) -> (r: Option<ObjectFile>)
    ensures
        r.deep_view() == object_in(data@),
{
    let file = File::parse(data).ok()?;
    let symbols = file.symbols().map(|s| Symbol {
        name: s.name().ok().map(String::from),
        is_global: s.is_global(),
        is_definition: s.is_definition(),
    });
    let sections = file.sections().map(|s| s.name().ok().map(String::from));
    Some(ObjectFile { symbols: symbols.collect(), sections: sections.collect() })
}

/// The processor architectures that are told apart.
#[derive(Clone, Copy, PartialEq, Eq, Debug, Structural)]
pub enum Architecture {
    Aarch64,
    X86_64,
    I386,
    Arm,
    Riscv64,
    PowerPc64,
    S390x,
    /// Any other architecture.
    Other,
}

/// The architecture of the object file in `data`; `None` where `data` is no
/// object file.
pub uninterp spec fn architecture_in(data: Seq<u8>) -> Option<Architecture>;

/// `object::read::File::parse`, with `architecture` of the file it gives. The
/// result depends on the bytes alone.
#[verifier::external_body]
pub(crate) fn object_architecture(data: &[u8]) -> (r: Option<Architecture>)
    ensures
        r == architecture_in(data@),
{
    Some(match File::parse(data).ok()?.architecture() {
        object::Architecture::Aarch64 => Architecture::Aarch64,
        object::Architecture::X86_64 => Architecture::X86_64,
        object::Architecture::I386 => Architecture::I386,
        object::Architecture::Arm => Architecture::Arm,
        object::Architecture::Riscv64 => Architecture::Riscv64,
        object::Architecture::PowerPc64 => Architecture::PowerPc64,
        object::Architecture::S390x => Architecture::S390x,
        _ => Architecture::Other,
    })
}

/// The kinds of file that are told apart in a COFF archive.
#[derive(Clone, Copy, PartialEq, Eq, Debug, Structural)]
pub enum FileKind {
    /// A COFF object.
    Coff,
    /// A COFF short-import file.
    CoffImport,
    /// Any other file, known or unknown.
    Other,
}

/// The kind of the file in `data`.
pub uninterp spec fn kind_of(data: Seq<u8>) -> FileKind;

/// `object::FileKind::parse`: the kind of a file, as its first bytes show it. The
/// result depends on the bytes alone.
#[verifier::external_body]
pub(crate) fn file_kind(data: &[u8]) -> (r: FileKind)
    ensures
        r == kind_of(data@),
{
    match object::FileKind::parse(data) {
        Ok(object::FileKind::Coff) => FileKind::Coff,
        Ok(object::FileKind::CoffImport) => FileKind::CoffImport,
        _ => FileKind::Other,
    }
}

/// A member of an archive.
pub struct Member {
    pub name: Vec<u8>,
    /// The contents, where they lie within the archive.
    pub data: Option<Vec<u8>>,
}

/// What a `Member` holds.
pub struct MemberView {
    pub name: Seq<u8>,
    pub data: Option<Seq<u8>>,
}

impl DeepView for Member {
    type V = MemberView;

    open spec fn deep_view(&self) -> MemberView {
        MemberView {
            name: self.name@,
            data: match self.data {
                Some(data) => Some(data@),
                None => None,
            },
        }
    }
}

/// The members of the archive in `bytes`, each of them `None` where its header
/// is malformed; or the text of the error, where `bytes` is no archive.
pub uninterp spec fn members_in(bytes: Seq<u8>) -> Result<Seq<Option<MemberView>>, Seq<char>>;

/// What a list of members holds.
pub open spec fn members_view(
    members: Result<Vec<Option<Member>>, String>,
) -> Result<Seq<Option<MemberView>>, Seq<char>> {
    match members {
        Ok(members) => Ok(members.deep_view()),
        Err(text) => Err(text@),
    }
}

/// `object::read::archive::ArchiveFile::parse`, with the name and the contents of
/// each of its `members`. The result depends on the bytes alone.
#[verifier::external_body]
pub(crate) fn parse_archive(bytes: &[u8]) -> (r: Result<Vec<Option<Member>>, String>)
    ensures
        members_view(r) == members_in(bytes@),
{
    let archive = ArchiveFile::parse(bytes).map_err(|e| e.to_string())?;
    let members = archive.members().map(|member| {
        let member = member.ok()?;
        let data = member.data(bytes).ok().map(|data| data.to_vec());
        Some(Member { name: member.name().to_vec(), data })
    });
    Ok(members.collect())
}

/// How a short import binds in its DLL.
pub enum Binding {
    Ordinal(u16),
    Name(Vec<u8>),
}

/// What a short import imports.
#[derive(Clone, Copy, PartialEq, Eq, Debug, Structural)]
pub enum Imported {
    Code,
    Data,
    Const,
}

/// A COFF short-import file.
pub struct ShortImport {
    pub dll: Vec<u8>,
    pub symbol: Vec<u8>,
    pub binding: Binding,
    pub imported: Imported,
}

/// What a `Binding` says.
pub enum BindingView {
    Ordinal(u16),
    Name(Seq<u8>),
}

/// What a `ShortImport` says.
pub struct ShortImportView {
    pub dll: Seq<u8>,
    pub symbol: Seq<u8>,
    pub binding: BindingView,
    pub imported: Imported,
}

impl DeepView for ShortImport {
    type V = ShortImportView;

    open spec fn deep_view(&self) -> ShortImportView {
        ShortImportView {
            dll: self.dll@,
            symbol: self.symbol@,
            binding: match self.binding {
                Binding::Ordinal(n) => BindingView::Ordinal(n),
                Binding::Name(name) => BindingView::Name(name@),
            },
            imported: self.imported,
        }
    }
}

/// The short import in `data`; `None` where `data` is none.
pub uninterp spec fn short_import_in(data: Seq<u8>) -> Option<ShortImportView>;

/// `object::read::coff::ImportFile::parse`, with the names, the binding and the
/// type of the import it gives. The result depends on the bytes alone.
#[verifier::external_body]
pub(crate) fn parse_short_import(data: &[u8]) -> (r: Option<ShortImport>)
    ensures
        r.deep_view() == short_import_in(data@),
{
    let file = ImportFile::parse(data).ok()?;
    let binding = match file.import() {
        ImportName::Ordinal(n) => Binding::Ordinal(n),
        ImportName::Name(name) => Binding::Name(name.to_vec()),
    };
    let imported = match file.import_type() {
        ImportType::Code => Imported::Code,
        ImportType::Data => Imported::Data,
        ImportType::Const => Imported::Const,
    };
    let (dll, symbol) = (file.dll().to_vec(), file.symbol().to_vec());
    Some(ShortImport { dll, symbol, binding, imported })
}

} // verus!
