use std::collections::HashMap;

use lib_patcher::command::{Action, Arg, FileRef, Outcome, Program};
use lib_patcher::deffile::regenerate_import_libs;
use lib_patcher::imports::{
    classify_member, decode_short_import, is_import_descriptor_object, Import, ImportEntry,
    MemberKind,
};
use lib_patcher::inspect::{collect_defined_globals, collect_undefined_globals};
use lib_patcher::keep::symbol_is_allowed_global;
use lib_patcher::librarian::{
    find_objcopy_tool, find_rust_objcopy_in_rustlib, get_windows_lib_tool, objcopy_candidates,
    sysroot, windows_lib_candidates, Bundle, Probe, RenameTool, WindowsLibTool,
};
use lib_patcher::names::SymbolSet;
use lib_patcher::rename::{build_renames, is_import_machinery, rename_target};
use lib_patcher::scan::{needs_import_support, scan_library, scan_objects, Scan};
use lib_patcher::windows::{
    advance_windows, patch_windows, windows_action, write_renames, WindowsFailure, WindowsStage,
    WindowsStart,
};
use object::read::File;
use object::write::{Object, Relocation, StandardSection, Symbol, SymbolSection};
use object::{
    Architecture, BinaryFormat, Endianness, RelocationFlags, SymbolFlags, SymbolKind, SymbolScope,
};

const RING_SYM: &str = "ring_core_0_17_14__sha256_block_data_order_hw";
const PREFIX: &str = "myapp_";

/// Reads a NUL-terminated string out of the COFF string table.
fn read_cstr(data: &[u8], off: usize) -> String {
    let end = data[off..]
        .iter()
        .position(|&b| b == 0)
        .map(|p| off + p)
        .unwrap_or(data.len());
    String::from_utf8_lossy(&data[off..end]).to_string()
}

/// Name, storage class and section number of every primary symbol entry.
fn coff_symbols(data: &[u8]) -> Vec<(String, u8, i16)> {
    let word = |at: usize| {
        u32::from_le_bytes([data[at], data[at + 1], data[at + 2], data[at + 3]]) as usize
    };
    let sym_off = word(8);
    let count = word(12);
    let str_off = sym_off + count * 18;

    let mut out = Vec::new();
    let mut i = 0;
    while i < count {
        let so = sym_off + i * 18;
        let entry = &data[so..so + 18];
        let storage = entry[16];
        let section = i16::from_le_bytes([entry[12], entry[13]]);
        let n_aux = entry[17] as usize;
        let name = if entry[0..4] == [0, 0, 0, 0] {
            let strofs = u32::from_le_bytes([entry[4], entry[5], entry[6], entry[7]]) as usize;
            read_cstr(data, str_off + strofs)
        } else {
            let end = entry[0..8].iter().position(|&b| b == 0).unwrap_or(8);
            String::from_utf8_lossy(&entry[0..end]).to_string()
        };
        out.push((name, storage, section));
        i += 1 + n_aux;
    }
    out
}

/// An object that defines `name`.
fn make_def_object(name: &str) -> Vec<u8> {
    let mut obj = Object::new(BinaryFormat::Coff, Architecture::X86_64, Endianness::Little);
    let text = obj.section_id(StandardSection::Text);
    let off = obj.append_section_data(text, &[0x90, 0x90, 0xc3], 16);
    obj.add_symbol(Symbol {
        name: name.as_bytes().to_vec(),
        value: off,
        size: 3,
        kind: SymbolKind::Text,
        scope: SymbolScope::Linkage,
        weak: false,
        section: SymbolSection::Section(text),
        flags: SymbolFlags::None,
    });
    obj.write().unwrap()
}

/// An object that refers to `name`.
fn make_ref_object(name: &str) -> Vec<u8> {
    let mut obj = Object::new(BinaryFormat::Coff, Architecture::X86_64, Endianness::Little);
    let text = obj.section_id(StandardSection::Text);
    let off = obj.append_section_data(text, &[0xe8, 0, 0, 0, 0, 0xc3], 16);
    let sym = obj.add_symbol(Symbol {
        name: name.as_bytes().to_vec(),
        value: 0,
        size: 0,
        kind: SymbolKind::Text,
        scope: SymbolScope::Linkage,
        weak: false,
        section: SymbolSection::Undefined,
        flags: SymbolFlags::None,
    });
    obj.add_relocation(
        text,
        Relocation {
            offset: off + 1,
            symbol: sym,
            addend: -4,
            flags: RelocationFlags::Coff {
                typ: object::pe::IMAGE_REL_AMD64_REL32,
            },
        },
    )
    .unwrap();
    obj.write().unwrap()
}

/// An object with a weak external reference to `name`.
fn make_weak_ref_object(name: &str) -> Vec<u8> {
    let mut obj = Object::new(BinaryFormat::Coff, Architecture::X86_64, Endianness::Little);
    obj.add_symbol(Symbol {
        name: name.as_bytes().to_vec(),
        value: 0,
        size: 0,
        kind: SymbolKind::Text,
        scope: SymbolScope::Linkage,
        weak: true,
        section: SymbolSection::Undefined,
        flags: SymbolFlags::None,
    });
    obj.write().unwrap()
}

fn rename_map(objects: &[Vec<u8>], keep_prefix: &str) -> HashMap<String, String> {
    let mut defined = SymbolSet::new();
    let mut undefined = SymbolSet::new();
    for obj in objects {
        collect_defined_globals(obj, &mut defined);
        collect_undefined_globals(obj, &mut undefined);
    }
    build_renames(&defined, &undefined, keep_prefix)
        .into_iter()
        .collect()
}

#[test]
fn harness_builds_expected_def_and_ref_objects() {
    let def = coff_symbols(&make_def_object(RING_SYM));
    let (_, sc, sec) = def.iter().find(|(n, _, _)| n == RING_SYM).unwrap();
    assert_eq!(*sc, 2, "definition must be External");
    assert!(*sec > 0, "definition must live in a section");

    let r = coff_symbols(&make_ref_object(RING_SYM));
    let (_, sc, sec) = r.iter().find(|(n, _, _)| n == RING_SYM).unwrap();
    assert_eq!(*sc, 2, "reference must be External");
    assert_eq!(*sec, 0, "reference must be undefined");
}

#[test]
fn defined_globals_collected_but_undefined_refs_are_not() {
    let mut from_def = SymbolSet::new();
    collect_defined_globals(&make_def_object(RING_SYM), &mut from_def);
    assert!(from_def.contains(RING_SYM));

    let mut from_ref = SymbolSet::new();
    collect_defined_globals(&make_ref_object(RING_SYM), &mut from_ref);
    assert!(
        !from_ref.contains(RING_SYM),
        "an undefined reference must not be treated as a definition"
    );
}

#[test]
fn weak_external_reference_is_not_collected_as_definition() {
    let weak = make_weak_ref_object("rust_eh_personality");
    let syms = coff_symbols(&weak);
    let (_, sc, sec) = syms
        .iter()
        .find(|(n, _, _)| n == "rust_eh_personality")
        .unwrap();
    assert_eq!(*sc, object::pe::IMAGE_SYM_CLASS_WEAK_EXTERNAL);
    assert_eq!(*sec, 0, "weak external must be section-0 reference");

    let mut defined = SymbolSet::new();
    collect_defined_globals(&weak, &mut defined);
    assert!(
        !defined.contains("rust_eh_personality"),
        "a COFF weak external reference must not be renamed as a definition"
    );

    let mut undefined = SymbolSet::new();
    collect_undefined_globals(&weak, &mut undefined);
    assert!(
        undefined.contains("rust_eh_personality"),
        "a COFF weak external reference should still reserve its original name"
    );
}

#[test]
fn ring_intra_library_symbol_is_renamed_consistently() {
    let map = rename_map(
        &[make_def_object(RING_SYM), make_ref_object(RING_SYM)],
        PREFIX,
    );
    assert_eq!(
        map.get(RING_SYM).map(String::as_str),
        Some(format!("{PREFIX}{RING_SYM}").as_str()),
        "ring's cross-object symbol must be renamed under keep_prefix"
    );
}

#[test]
fn underscore_decorated_ring_symbol_is_renamed() {
    let decorated = format!("_{RING_SYM}");
    let map = rename_map(&[make_def_object(&decorated)], PREFIX);
    assert_eq!(
        map.get(&decorated).map(String::as_str),
        Some(format!("{PREFIX}{decorated}").as_str()),
    );
}

#[test]
fn rust_eh_personality_reference_is_left_to_libstd() {
    let map = rename_map(&[make_ref_object("rust_eh_personality")], PREFIX);
    assert!(
        map.is_empty(),
        "an undefined `rust_eh_personality` reference must not be renamed"
    );
}

#[test]
fn internal_symbol_is_not_renamed_onto_an_existing_public_symbol() {
    let map = rename_map(
        &[make_def_object("add"), make_def_object("myapp_add")],
        PREFIX,
    );
    assert_eq!(
        map.get("myapp_add"),
        None,
        "the public symbol is kept as-is"
    );
    let renamed = map.get("add").expect("the internal symbol must be renamed");
    assert_ne!(
        renamed, "myapp_add",
        "must not collide with the public symbol"
    );
    assert!(
        renamed.starts_with(PREFIX),
        "the renamed internal still lives under keep_prefix"
    );
    assert_eq!(renamed, "myapp_add_1");
}

#[test]
fn internal_is_not_renamed_onto_an_undefined_external_reference() {
    let map = rename_map(
        &[
            make_def_object("myapp_run"),
            make_ref_object("myapp_add"),
            make_def_object("add"),
        ],
        PREFIX,
    );
    let renamed = map.get("add").expect("internal `add` must be renamed");
    assert_ne!(
        renamed, "myapp_add",
        "must not capture the undefined external reference"
    );
    assert!(renamed.starts_with(PREFIX));
}

#[test]
fn ordinary_defined_symbol_is_renamed() {
    let map = rename_map(&[make_def_object("some_internal_function")], PREFIX);
    assert_eq!(
        map.get("some_internal_function").map(String::as_str),
        Some(format!("{PREFIX}some_internal_function").as_str()),
    );
}

/// A COFF short-import member.
fn make_short_import(
    symbol: &str,
    dll: &str,
    ordinal_or_hint: u16,
    name_type: u16,
    import_type: u16,
    export: Option<&str>,
) -> Vec<u8> {
    let mut str_data = Vec::new();
    str_data.extend_from_slice(symbol.as_bytes());
    str_data.push(0);
    str_data.extend_from_slice(dll.as_bytes());
    str_data.push(0);
    if let Some(export) = export {
        str_data.extend_from_slice(export.as_bytes());
        str_data.push(0);
    }

    let mut data = Vec::new();
    data.extend_from_slice(&0u16.to_le_bytes());
    data.extend_from_slice(&object::pe::IMPORT_OBJECT_HDR_SIG2.to_le_bytes());
    data.extend_from_slice(&0u16.to_le_bytes());
    data.extend_from_slice(&object::pe::IMAGE_FILE_MACHINE_AMD64.to_le_bytes());
    data.extend_from_slice(&0u32.to_le_bytes());
    data.extend_from_slice(&(str_data.len() as u32).to_le_bytes());
    data.extend_from_slice(&ordinal_or_hint.to_le_bytes());
    data.extend_from_slice(
        &(import_type | (name_type << object::pe::IMPORT_OBJECT_NAME_SHIFT)).to_le_bytes(),
    );
    data.extend_from_slice(&str_data);
    data
}

fn make_short_import_member(symbol: &str, dll: &str) -> Vec<u8> {
    make_short_import(
        symbol,
        dll,
        0,
        object::pe::IMPORT_OBJECT_NAME,
        object::pe::IMPORT_OBJECT_CODE,
        None,
    )
}

#[test]
fn regular_coff_objects_are_patched() {
    assert_eq!(
        classify_member(&make_def_object(RING_SYM)),
        MemberKind::Coff
    );
    assert_eq!(
        classify_member(&make_ref_object(RING_SYM)),
        MemberKind::Coff
    );
    // LLVM bitcode and arbitrary bytes are dropped.
    assert_eq!(
        classify_member(&[0x42, 0x43, 0xc0, 0xde, 0, 0, 0, 0]),
        MemberKind::Other
    );
    assert_eq!(classify_member(b"not an object file"), MemberKind::Other);
}

#[test]
fn short_import_members_are_classified() {
    let member = make_short_import_member("CreateFileW", "kernel32.dll");
    assert!(
        File::parse(&*member).is_err(),
        "short-import members are not regular COFF objects"
    );
    assert_eq!(classify_member(&member), MemberKind::ShortImport);
}

#[test]
fn short_import_member_decodes_to_dll_and_symbol() {
    let member = make_short_import_member("ProcessPrng", "bcryptprimitives.dll");
    let entry = decode_short_import(&member).expect("must decode a short-import member");
    assert_eq!(entry.symbol, "ProcessPrng");
    assert_eq!(entry.dll, "bcryptprimitives.dll");
    assert!(
        matches!(&entry.import, Import::Name(n) if n == "ProcessPrng"),
        "a plain import binds by its own name"
    );

    // A regular COFF object is not a short-import member.
    assert!(decode_short_import(&make_def_object(RING_SYM)).is_none());
}

#[test]
fn short_import_member_decodes_ordinal_and_exportas() {
    let ord = make_short_import(
        "Foo",
        "some.dll",
        7,
        object::pe::IMPORT_OBJECT_ORDINAL,
        object::pe::IMPORT_OBJECT_CODE,
        None,
    );
    let entry = decode_short_import(&ord).expect("decode ordinal import");
    assert!(matches!(entry.import, Import::Ordinal(7)));

    let exportas = make_short_import(
        "LocalName",
        "some.dll",
        0,
        object::pe::IMPORT_OBJECT_NAME_EXPORTAS,
        object::pe::IMPORT_OBJECT_CODE,
        Some("RealExport"),
    );
    let entry = decode_short_import(&exportas).expect("decode EXPORTAS import");
    assert_eq!(entry.symbol, "LocalName");
    assert!(matches!(&entry.import, Import::Name(n) if n == "RealExport"));
}

#[test]
fn short_import_member_decodes_data_type() {
    let code = make_short_import_member("SomeFn", "some.dll");
    assert!(!decode_short_import(&code).unwrap().is_data);

    let data = make_short_import(
        "SomeVar",
        "some.dll",
        0,
        object::pe::IMPORT_OBJECT_NAME,
        object::pe::IMPORT_OBJECT_DATA,
        None,
    );
    assert!(decode_short_import(&data).unwrap().is_data);
}

#[test]
fn import_names_that_are_no_text_are_made_readable() {
    let mut member = make_short_import_member("Fn?", "some.dll");
    let at = member.len() - "?\0some.dll\0".len();
    member[at] = 0xff;
    let entry = decode_short_import(&member).expect("the member is well formed");
    assert_eq!(entry.symbol, "Fn\u{fffd}");
}

/// A COFF object whose only section is an import-directory section.
fn make_import_descriptor_object(symbol: &str) -> Vec<u8> {
    let mut obj = Object::new(BinaryFormat::Coff, Architecture::X86_64, Endianness::Little);
    let sec = obj.add_section(Vec::new(), b".idata$2".to_vec(), object::SectionKind::Data);
    let off = obj.append_section_data(sec, &[0u8; 20], 4);
    obj.add_symbol(Symbol {
        name: symbol.as_bytes().to_vec(),
        value: off,
        size: 0,
        kind: SymbolKind::Data,
        scope: SymbolScope::Linkage,
        weak: false,
        section: SymbolSection::Section(sec),
        flags: SymbolFlags::None,
    });
    obj.write().unwrap()
}

#[test]
fn import_descriptor_members_are_classified_and_not_renamed() {
    let member = make_import_descriptor_object("__IMPORT_DESCRIPTOR_foo");
    assert!(
        File::parse(&*member).is_ok(),
        "descriptor members are regular COFF objects"
    );
    assert_eq!(classify_member(&member), MemberKind::ImportDescriptor);
    assert!(is_import_descriptor_object(&member));
    assert!(!is_import_descriptor_object(&make_def_object("f")));
    assert!(!is_import_descriptor_object(b"not an object file"));
    assert!(MemberKind::ImportDescriptor.is_import_member());
    assert!(MemberKind::ShortImport.is_import_member());
    assert!(!MemberKind::Coff.is_import_member());
    assert!(!MemberKind::Other.is_import_member());

    let map = rename_map(&[member], PREFIX);
    assert!(
        map.is_empty(),
        "import-descriptor symbols must not be renamed"
    );
}

#[test]
fn import_machinery_symbols_are_not_renamed() {
    for s in [
        "__IMPORT_DESCRIPTOR_bcryptprimitives",
        "___IMPORT_DESCRIPTOR_bcryptprimitives",
        "__NULL_IMPORT_DESCRIPTOR",
        "___NULL_IMPORT_DESCRIPTOR",
        "bcryptprimitives_NULL_THUNK_DATA",
    ] {
        assert!(is_import_machinery(s));
        assert_eq!(rename_target(s, PREFIX), None, "{s} must not be renamed");
    }
    assert!(!is_import_machinery("_NULL_THUNK_DATA_x"));
}

#[test]
fn coff_linker_symbols_are_not_renamed() {
    assert_eq!(rename_target("@feat.00", PREFIX), None);
    assert_eq!(rename_target("@comp.id", PREFIX), None);
}

#[test]
fn keep_prefix_and_mangled_symbols_stay_public() {
    assert_eq!(rename_target("myapp_add", PREFIX), None);
    assert_eq!(rename_target("??_C@_05foo@bar@", PREFIX), None);
    // Everything else is renamed.
    assert_eq!(
        rename_target("internal", PREFIX),
        Some("myapp_internal".to_string())
    );
}

#[test]
fn underscore_decorated_public_symbol_stays_public() {
    assert_eq!(rename_target("_testlib_add", "testlib_"), None);
    assert_eq!(rename_target("testlib_add", "testlib_"), None);
    assert_eq!(
        rename_target("_internal", "testlib_"),
        Some("testlib__internal".to_string())
    );
}

#[test]
fn renames_are_sorted_distinct_and_allowed() {
    let names = |list: &[&str]| -> Vec<String> { list.iter().map(|n| n.to_string()).collect() };
    let defined = SymbolSet::of(&names(&["b", "a", "p_a", "p_a_1", "??x"]));
    let undefined = SymbolSet::of(&names(&["p_b", "p_b_1", "outer"]));
    let renames = build_renames(&defined, &undefined, "p_");
    assert_eq!(
        renames,
        vec![
            ("a".to_string(), "p_a_2".to_string()),
            ("b".to_string(), "p_b_2".to_string()),
        ]
    );
    for (_, to) in &renames {
        assert!(symbol_is_allowed_global(to, "p_"));
    }
    assert_eq!(write_renames(&renames), "a p_a_2\nb p_b_2\n");
}

#[test]
fn finds_bundled_rust_objcopy_without_exe_suffix() {
    let plain = Bundle { plain: true, exe: false };
    let exe = Bundle { plain: false, exe: true };
    let none = Bundle { plain: false, exe: false };
    assert_eq!(find_rust_objcopy_in_rustlib(&vec![plain]), Some((0, "rust-objcopy")));
    assert_eq!(
        find_rust_objcopy_in_rustlib(&vec![none, exe, plain]),
        Some((1, "rust-objcopy.exe"))
    );
    assert_eq!(find_rust_objcopy_in_rustlib(&vec![none]), None);
}

#[test]
fn rename_tools_are_tried_in_order() {
    let candidates = objcopy_candidates();
    assert_eq!(candidates.len(), 6);
    assert_eq!(candidates[0].tool, "llvm-objcopy");
    assert_eq!(candidates[0].probe, Probe::OnPath);
    assert_eq!(candidates[1].tool, "rust-objcopy");
    assert_eq!(
        candidates[3].tool,
        r"C:\Program Files\Microsoft Visual Studio\2022\Community\VC\Tools\Llvm\bin\llvm-objcopy.exe"
    );
    assert_eq!(candidates[3].probe, Probe::Exists);
    let bundled = vec![Bundle { plain: true, exe: false }];
    assert!(matches!(
        find_objcopy_tool(&vec![false, true, true], &bundled),
        RenameTool::Candidate(1)
    ));
    assert!(matches!(
        find_objcopy_tool(&vec![false; 6], &bundled),
        RenameTool::Bundled(0, "rust-objcopy")
    ));
    assert!(matches!(
        find_objcopy_tool(&vec![false; 6], &Vec::new()),
        RenameTool::Missing
    ));
}

#[test]
fn sysroot_is_trimmed() {
    assert_eq!(sysroot(b" \t/opt/rust dir\r\n"), "/opt/rust dir");
    assert_eq!(sysroot(b"\n"), "");
    assert_eq!(sysroot(b"/a\xff\n"), "/a\u{fffd}");
}

#[test]
fn archivers_are_tried_in_order() {
    let with: Vec<&str> = windows_lib_candidates(true).iter().map(|c| c.tool).collect();
    let without: Vec<&str> = windows_lib_candidates(false).iter().map(|c| c.tool).collect();
    assert_eq!(with.len(), 7);
    assert_eq!(with[0], "llvm-lib");
    assert_eq!(with[5], "lib.exe");
    assert_eq!(with[6], "llvm-ar");
    assert_eq!(without[0], "lib.exe");
    assert_eq!(without[1], "llvm-lib");
    assert_eq!(
        without[2],
        r"C:\Program Files\Microsoft Visual Studio\2022\Community\VC\Tools\Llvm\x64\bin\llvm-lib.exe"
    );
    assert_eq!(without[6], "llvm-ar");

    let tool = get_windows_lib_tool(Some("x86_64"), None, "aarch64", true, &vec![true]).unwrap();
    assert_eq!(tool.tool, "llvm-lib");
    assert_eq!(tool.machine_type, Some("X64".to_string()));
    assert!(!tool.is_llvm && tool.handles_import_members);

    let mut answers = vec![false; 6];
    answers.push(true);
    let tool = get_windows_lib_tool(None, Some("arm"), "aarch64", false, &answers).unwrap();
    assert_eq!(tool.tool, "llvm-ar");
    assert_eq!(tool.machine_type, Some("ARM".to_string()));
    assert!(tool.is_llvm && !tool.handles_import_members);

    let tool = get_windows_lib_tool(None, None, "mips", false, &vec![true]).unwrap();
    assert_eq!(tool.tool, "lib.exe");
    assert_eq!(tool.machine_type, None);
    assert!(get_windows_lib_tool(None, None, "mips", false, &vec![false; 7]).is_none());
}

fn entry(dll: &str, symbol: &str, import: Import, is_data: bool) -> ImportEntry {
    ImportEntry {
        dll: dll.to_string(),
        symbol: symbol.to_string(),
        import,
        is_data,
    }
}

#[test]
fn definition_files_list_each_symbol_once_per_dll() {
    let name = |n: &str| Import::Name(n.to_string());
    let entries = vec![
        entry("z.dll", "Foo", name("Foo"), false),
        entry("a.dll", "Ord", Import::Ordinal(17), false),
        entry("z.dll", "Local", name("Real"), false),
        entry("z.dll", "Foo", name("Other"), true),
        entry("a.dll", "Var", name("Var"), true),
        entry("a.dll", "OrdVar", Import::Ordinal(0), true),
    ];
    let libraries = regenerate_import_libs(&entries);
    assert_eq!(libraries.len(), 2);
    assert_eq!(libraries[0].dll, "a.dll");
    assert_eq!(libraries[0].symbols, 3);
    assert_eq!(
        libraries[0].definition,
        "LIBRARY a.dll\nEXPORTS\n  Ord @17 NONAME\n  Var DATA\n  OrdVar @0 NONAME DATA\n"
    );
    assert_eq!(libraries[1].dll, "z.dll");
    assert_eq!(libraries[1].symbols, 2);
    assert_eq!(
        libraries[1].definition,
        "LIBRARY z.dll\nEXPORTS\n  Foo\n  Local=Real\n"
    );
    assert!(regenerate_import_libs(&Vec::new()).is_empty());
}

fn archive(members: &[(&str, Vec<u8>)]) -> Vec<u8> {
    let mut buf = Vec::new();
    {
        let mut builder = ar::Builder::new(&mut buf);
        for (name, data) in members {
            let header = ar::Header::new(name.as_bytes().to_vec(), data.len() as u64);
            builder.append(&header, data.as_slice()).unwrap();
        }
    }
    buf
}

#[test]
fn scan_finds_kinds_renames_and_imports() {
    let library = archive(&[
        ("a.obj", make_def_object("internal")),
        ("i.obj", make_short_import_member("ProcessPrng", "bcryptprimitives.dll")),
        ("d.obj", make_import_descriptor_object("__IMPORT_DESCRIPTOR_b")),
        ("x.bc", b"BC\xc0\xde".to_vec()),
        ("b.obj", make_def_object("myapp_run")),
    ]);
    let scan = match scan_library(&library, PREFIX) {
        Ok(scan) => scan,
        Err(_) => panic!("the library is well formed"),
    };
    assert_eq!(
        scan.kinds,
        vec![
            MemberKind::Coff,
            MemberKind::ShortImport,
            MemberKind::ImportDescriptor,
            MemberKind::Other,
            MemberKind::Coff,
        ]
    );
    assert_eq!(
        scan.renames,
        vec![("internal".to_string(), "myapp_internal".to_string())]
    );
    assert_eq!(scan.imports.len(), 1);
    assert_eq!(scan.imports[0].dll, "bcryptprimitives.dll");
    assert!(needs_import_support(&scan.kinds));
    assert!(!needs_import_support(&vec![MemberKind::Coff, MemberKind::Other]));
    assert!(scan_library(b"no archive", PREFIX).is_err());
}

fn lib_exe() -> WindowsLibTool {
    WindowsLibTool {
        tool: "lib.exe".to_string(),
        machine_type: Some("X64".to_string()),
        is_llvm: false,
        handles_import_members: true,
    }
}

fn llvm_ar() -> WindowsLibTool {
    WindowsLibTool {
        tool: "llvm-ar".to_string(),
        machine_type: Some("X64".to_string()),
        is_llvm: true,
        handles_import_members: false,
    }
}

fn scan(with_import: bool) -> Scan {
    let mut objects = vec![make_def_object("internal"), b"bitcode".to_vec()];
    if with_import {
        objects.push(make_short_import_member("ProcessPrng", "b.dll"));
    }
    objects.push(make_def_object("other"));
    scan_objects(objects, PREFIX)
}

fn good() -> Outcome {
    Outcome { started: true, success: true, output: Vec::new() }
}

fn bad() -> Outcome {
    Outcome { started: true, success: false, output: Vec::new() }
}

fn not_started() -> Outcome {
    Outcome { started: false, success: false, output: Vec::new() }
}

fn file(reference: &FileRef) -> String {
    match reference {
        FileRef::AbsoluteOutput => "<out>".to_string(),
        FileRef::Object(name) => format!("<objects>/{}", name),
        _ => panic!("not used here"),
    }
}

fn show(action: &Action) -> String {
    match action {
        Action::Run(run) => {
            let mut line = match &run.program {
                Program::Named(name) => name.clone(),
                Program::Objcopy => "<objcopy>".to_string(),
                Program::Ndk(_) => panic!("not used here"),
            };
            if run.among_objects {
                line = format!("[objects] {}", line);
            }
            for arg in &run.args {
                let text = match arg {
                    Arg::Text(text) => text.clone(),
                    Arg::Path(path) => file(path),
                    Arg::Joined(text, path) => format!("{}{}", text, file(path)),
                };
                line = format!("{} {}", line, text);
            }
            line
        }
        Action::Write(to, text) => format!("write {}: {}", file(to), text),
        _ => "nothing".to_string(),
    }
}

#[test]
fn coff_patching_runs_through_all_steps() {
    let job = match patch_windows(scan(true), Some(lib_exe()), true) {
        WindowsStart::Patch(job) => job,
        _ => panic!("there is something to patch"),
    };
    let mut stage = WindowsStage::WritingRenames;
    assert_eq!(
        show(&windows_action(&job, &stage)),
        "write <objects>/renames.txt: internal myapp_internal\nother myapp_other\n"
    );
    stage = advance_windows(&job, stage, &good());
    assert_eq!(
        show(&windows_action(&job, &stage)),
        "<objcopy> --redefine-syms=<objects>/renames.txt <objects>/0.obj <objects>/0_patched.obj"
    );
    stage = advance_windows(&job, stage, &good());
    assert_eq!(
        show(&windows_action(&job, &stage)),
        "<objcopy> --redefine-syms=<objects>/renames.txt <objects>/3.obj <objects>/3_patched.obj"
    );
    // An object that cannot be rewritten is kept as it is.
    stage = advance_windows(&job, stage, &bad());
    assert_eq!(
        show(&windows_action(&job, &stage)),
        "write <objects>/imp0.def: LIBRARY b.dll\nEXPORTS\n  ProcessPrng\n"
    );
    stage = advance_windows(&job, stage, &good());
    assert_eq!(
        show(&windows_action(&job, &stage)),
        "[objects] lib.exe /nologo /MACHINE:X64 /def:imp0.def /out:imp0.lib"
    );
    stage = advance_windows(&job, stage, &good());
    assert_eq!(
        show(&windows_action(&job, &stage)),
        "[objects] lib.exe /nologo /MACHINE:X64 /OUT:<out> 0_patched.obj 3.obj imp0.lib"
    );
    stage = advance_windows(&job, stage, &good());
    assert!(matches!(stage, WindowsStage::Done));
}

#[test]
fn llvm_ar_archives_without_imports_and_refuses_them() {
    let job = match patch_windows(scan(false), Some(llvm_ar()), true) {
        WindowsStart::Patch(job) => job,
        _ => panic!("there is something to patch"),
    };
    let mut stage = WindowsStage::WritingRenames;
    for _ in 0..3 {
        stage = advance_windows(&job, stage, &good());
    }
    assert_eq!(
        show(&windows_action(&job, &stage)),
        "[objects] llvm-ar rc <out> 0_patched.obj 2_patched.obj"
    );

    let job = match patch_windows(scan(true), Some(llvm_ar()), true) {
        WindowsStart::Patch(job) => job,
        _ => panic!("there is something to patch"),
    };
    let mut stage = WindowsStage::WritingRenames;
    for _ in 0..3 {
        stage = advance_windows(&job, stage, &good());
    }
    assert!(matches!(
        stage,
        WindowsStage::Failed(WindowsFailure::CannotRegenerate)
    ));
}

#[test]
fn every_coff_step_can_fail() {
    let job = match patch_windows(scan(true), Some(lib_exe()), true) {
        WindowsStart::Patch(job) => job,
        _ => panic!("there is something to patch"),
    };
    let fail = |stage: WindowsStage, outcome: Outcome| {
        match advance_windows(&job, stage, &outcome) {
            WindowsStage::Failed(failure) => failure,
            _ => panic!("the step did not fail"),
        }
    };
    assert!(matches!(
        fail(WindowsStage::WritingRenames, not_started()),
        WindowsFailure::CannotWriteRenames
    ));
    assert!(matches!(
        fail(WindowsStage::Renaming { at: 0, patched: Vec::new() }, not_started()),
        WindowsFailure::CannotRename
    ));
    assert!(matches!(
        fail(WindowsStage::Defining { at: 0, patched: Vec::new() }, not_started()),
        WindowsFailure::CannotWriteDefinition
    ));
    assert!(matches!(
        fail(WindowsStage::Importing { at: 0, patched: Vec::new() }, bad()),
        WindowsFailure::RegenerateFailed(0)
    ));
    assert!(matches!(
        fail(WindowsStage::Importing { at: 0, patched: Vec::new() }, not_started()),
        WindowsFailure::RegenerateFailed(0)
    ));
    assert!(matches!(
        fail(WindowsStage::Archiving { patched: Vec::new() }, not_started()),
        WindowsFailure::CannotArchive
    ));
    assert!(matches!(
        fail(WindowsStage::Archiving { patched: Vec::new() }, bad()),
        WindowsFailure::ArchiveFailed
    ));
}

#[test]
fn coff_patching_needs_its_tools() {
    let unchanged = scan_objects(vec![make_def_object("myapp_run")], PREFIX);
    assert!(matches!(
        patch_windows(unchanged, None, false),
        WindowsStart::CopyUnchanged
    ));
    assert!(matches!(
        patch_windows(scan(false), None, true),
        WindowsStart::NoArchiver
    ));
    assert!(matches!(
        patch_windows(scan(false), Some(lib_exe()), false),
        WindowsStart::NoRenameTool
    ));
}

#[test]
fn coff_patching_is_over_after_its_actions() {
    for pattern in 0..256u32 {
        let job = match patch_windows(scan(true), Some(lib_exe()), true) {
            WindowsStart::Patch(job) => job,
            _ => panic!("there is something to patch"),
        };
        let mut stage = WindowsStage::WritingRenames;
        for step in 0..8 {
            let outcome = if pattern & (1 << step) != 0 { good() } else { bad() };
            stage = advance_windows(&job, stage, &outcome);
        }
        assert!(matches!(stage, WindowsStage::Done | WindowsStage::Failed(_)));
    }
}
