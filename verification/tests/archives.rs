use lib_patcher::extract::{extract_coff_objects, extract_objects, ExtractError};
use lib_patcher::headers::{can_read, read_part};
use lib_patcher::imports::import_exempt_symbols;
use lib_patcher::inspect::{
    architecture_name, detect_archive_arch, find_architecture, list_symbols,
};
use lib_patcher::keep::find_leaked_symbols;
use lib_patcher::patch::{patch_if_readable, patch_lib, PatchError};
use lib_patcher::verify::{verify_if_readable, verify_patched_lib, VerifyError};
use object::write::{Object, StandardSection, Symbol, SymbolSection};
use object::{
    Architecture, BinaryFormat, Endianness, SectionKind, SymbolFlags, SymbolKind, SymbolScope,
};

const KEEP: &str = "mylib_";

/// An ELF object that defines one global symbol.
fn elf_object(name: &str, architecture: Architecture) -> Vec<u8> {
    let mut obj = Object::new(BinaryFormat::Elf, architecture, Endianness::Little);
    let text = obj.section_id(StandardSection::Text);
    let off = obj.append_section_data(text, &[0xc3], 1);
    obj.add_symbol(Symbol {
        name: name.as_bytes().to_vec(),
        value: off,
        size: 1,
        kind: SymbolKind::Text,
        scope: SymbolScope::Linkage,
        weak: false,
        section: SymbolSection::Section(text),
        flags: SymbolFlags::None,
    });
    obj.write().unwrap()
}

fn elf_object_with_global(name: &str) -> Vec<u8> {
    elf_object(name, Architecture::X86_64)
}

/// A COFF object that defines each name as a global symbol.
fn coff_object_with_globals(names: &[&str]) -> Vec<u8> {
    let mut obj = Object::new(BinaryFormat::Coff, Architecture::X86_64, Endianness::Little);
    let text = obj.section_id(StandardSection::Text);
    let off = obj.append_section_data(text, &[0xc3], 1);
    for name in names {
        obj.add_symbol(Symbol {
            name: name.as_bytes().to_vec(),
            value: off,
            size: 1,
            kind: SymbolKind::Text,
            scope: SymbolScope::Linkage,
            weak: false,
            section: SymbolSection::Section(text),
            flags: SymbolFlags::None,
        });
    }
    obj.write().unwrap()
}

/// A COFF object whose only section is an import-directory section.
fn coff_import_descriptor_object(name: &str) -> Vec<u8> {
    let mut obj = Object::new(BinaryFormat::Coff, Architecture::X86_64, Endianness::Little);
    let sec = obj.add_section(Vec::new(), b".idata$2".to_vec(), SectionKind::Data);
    let off = obj.append_section_data(sec, &[0u8; 20], 4);
    obj.add_symbol(Symbol {
        name: name.as_bytes().to_vec(),
        value: off,
        size: 0,
        kind: SymbolKind::Data,
        scope: SymbolScope::Linkage,
        weak: false,
        section: SymbolSection::Section(sec),
        flags: SymbolFlags::None,
    });
    obj.write().unwrap()
}

fn build_archive(members: &[(&str, Vec<u8>)]) -> Vec<u8> {
    let mut buf = Vec::new();
    {
        let mut builder = ar::Builder::new(&mut buf);
        for (name, data) in members {
            let header = ar::Header::new(name.as_bytes().to_vec(), data.len() as u64);
            builder.append(&header, data.as_slice()).unwrap();
        }
    }
    buf
}

#[test]
fn import_exempt_symbols_requires_a_colocated_pair() {
    let archive = build_archive(&[
        // An import object: the slot and its thunk together.
        (
            "imp.o",
            coff_object_with_globals(&["__imp_ProcessPrng", "ProcessPrng"]),
        ),
        // A slot whose bare name no member defines.
        ("iat.o", coff_object_with_globals(&["__imp_OnlyIat"])),
    ]);
    let exempt = import_exempt_symbols(&archive);

    assert!(exempt.contains("__imp_ProcessPrng"));
    assert!(exempt.contains("ProcessPrng"));
    assert!(exempt.contains("__imp_OnlyIat"));
    assert!(!exempt.contains("OnlyIat"));
}

#[test]
fn import_descriptor_members_are_exempt() {
    let archive = build_archive(&[
        ("run.o", coff_object_with_globals(&["mylib_run"])),
        (
            "desc.o",
            coff_import_descriptor_object("__IMPORT_DESCRIPTOR_foo"),
        ),
        (
            "null.o",
            coff_import_descriptor_object("__NULL_IMPORT_DESCRIPTOR"),
        ),
    ]);
    let symbols = list_symbols(&archive);
    let exempt = import_exempt_symbols(&archive);

    assert!(exempt.contains("__IMPORT_DESCRIPTOR_foo"));
    assert!(exempt.contains("__NULL_IMPORT_DESCRIPTOR"));
    assert!(
        find_leaked_symbols(&symbols, KEEP, &exempt).is_empty(),
        "import-descriptor globals must not be flagged as leaks"
    );

    // The same name in an ordinary member is still a leak.
    let leak = build_archive(&[(
        "leak.o",
        coff_object_with_globals(&["__IMPORT_DESCRIPTOR_foo"]),
    )]);
    let lsyms = list_symbols(&leak);
    let lexempt = import_exempt_symbols(&leak);
    assert_eq!(
        find_leaked_symbols(&lsyms, KEEP, &lexempt),
        vec!["__IMPORT_DESCRIPTOR_foo"]
    );
}

#[test]
fn leak_from_a_different_member_than_the_import_is_flagged() {
    let archive = build_archive(&[
        ("imp.o", coff_object_with_globals(&["__imp_Foo"])),
        ("leak.o", coff_object_with_globals(&["Foo"])),
    ]);
    let symbols = list_symbols(&archive);
    let exempt = import_exempt_symbols(&archive);

    assert_eq!(find_leaked_symbols(&symbols, KEEP, &exempt), vec!["Foo"]);
}

#[test]
fn colocated_import_pair_is_not_flagged() {
    let archive = build_archive(&[
        ("run.o", coff_object_with_globals(&["mylib_run"])),
        (
            "imp.o",
            coff_object_with_globals(&["__imp_ProcessPrng", "ProcessPrng"]),
        ),
    ]);
    let symbols = list_symbols(&archive);
    let exempt = import_exempt_symbols(&archive);

    assert!(find_leaked_symbols(&symbols, KEEP, &exempt).is_empty());
}

#[test]
fn what_is_no_archive_has_no_exempt_symbols() {
    assert!(import_exempt_symbols(b"not an archive").is_empty());
    assert!(import_exempt_symbols(b"").is_empty());
}

#[test]
fn list_symbols_returns_sorted_deduped_globals() {
    let archive = build_archive(&[
        ("b.o", elf_object_with_global("zeta_sym")),
        ("a.o", elf_object_with_global("alpha_sym")),
    ]);
    let syms = list_symbols(&archive);
    assert_eq!(syms, vec!["alpha_sym".to_string(), "zeta_sym".to_string()]);
}

#[test]
fn list_symbols_skips_non_object_members() {
    let archive = build_archive(&[
        ("junk.txt", b"not an object".to_vec()),
        ("a.o", elf_object_with_global("real_sym")),
    ]);
    let syms = list_symbols(&archive);
    assert_eq!(syms, vec!["real_sym".to_string()]);
}

#[test]
fn list_symbols_on_empty_archive_is_empty() {
    assert!(list_symbols(&build_archive(&[])).is_empty());
}

#[test]
fn list_symbols_names_each_symbol_once() {
    let archive = build_archive(&[
        ("a.o", elf_object_with_global("twice")),
        ("b.o", elf_object_with_global("twice")),
    ]);
    assert_eq!(list_symbols(&archive), vec!["twice".to_string()]);
}

#[test]
fn list_symbols_ends_at_a_malformed_header() {
    let mut archive = build_archive(&[("a.o", elf_object_with_global("first"))]);
    let rest = build_archive(&[("b.o", elf_object_with_global("second"))]);
    archive.extend_from_slice(&[b'x'; 60]);
    archive.extend_from_slice(&rest[8..]);
    assert!(can_read(&archive));
    assert_eq!(list_symbols(&archive), vec!["first".to_string()]);
    assert!(list_symbols(b"not an archive").is_empty());
    assert!(list_symbols(b"").is_empty());
}

#[test]
fn detect_archive_arch_reads_the_first_object() {
    let archive = build_archive(&[("a.o", elf_object_with_global("s"))]);
    assert_eq!(detect_archive_arch(Some(&archive)), "x86_64");
}

#[test]
fn architectures_are_named() {
    for (architecture, name) in [
        (Architecture::Aarch64, "aarch64"),
        (Architecture::X86_64, "x86_64"),
        (Architecture::I386, "x86"),
        (Architecture::Arm, "arm"),
        (Architecture::Riscv64, "riscv64"),
        (Architecture::PowerPc64, "powerpc64"),
        (Architecture::S390x, "s390x"),
        (Architecture::Mips64, "x86_64"),
    ] {
        let archive = build_archive(&[
            ("readme", b"text".to_vec()),
            ("a.o", elf_object("s", architecture)),
            ("b.o", elf_object("t", Architecture::X86_64)),
        ]);
        assert_eq!(detect_archive_arch(Some(&archive)), name);
        assert_eq!(find_architecture(&archive).map(architecture_name), Some(name));
    }
    assert!(find_architecture(b"!<arch>\n").is_none());
    assert!(find_architecture(&build_archive(&[("readme", b"text".to_vec())])).is_none());
    assert_eq!(detect_archive_arch(Some(b"!<arch>\n")), "x86_64");
    assert_eq!(detect_archive_arch(None), "x86_64");
}

#[test]
fn plan_takes_the_architecture_of_the_library() {
    let archive = build_archive(&[("a.o", elf_object("s", Architecture::Aarch64))]);
    match patch_lib("p_", None, None, None, "linux", Some(&archive)) {
        Ok(plan) => assert_eq!(plan.arch, "aarch64"),
        Err(_) => panic!("the prefix is not empty"),
    }
}

#[test]
fn verify_rejects_a_library_with_a_leaked_global() {
    let archive = build_archive(&[("a.o", elf_object_with_global("definitely_leaked"))]);
    let result = verify_patched_lib(Some(&archive), Some(&archive), "myapp_", "linux");
    assert!(result.is_err(), "a leaked global must fail verification");
    assert!(matches!(
        result,
        Err(VerifyError::Leaked(names)) if names == ["definitely_leaked"]
    ));
}

#[test]
fn verify_accepts_a_library_with_only_prefixed_globals() {
    let archive = build_archive(&[("a.o", elf_object_with_global("myapp_public"))]);
    let result = verify_patched_lib(Some(&archive), Some(&archive), "myapp_", "linux");
    assert!(result.is_ok(), "only-prefixed globals must pass");
    assert!(matches!(result, Ok(1)));
}

#[test]
fn verify_rejects_when_prefix_matched_nothing_in_input() {
    let original = build_archive(&[("a.o", elf_object_with_global("testlib_add"))]);
    let patched = build_archive(&[("a.o", elf_object_with_global("teslib_testlib_add"))]);
    let result = verify_patched_lib(Some(&patched), Some(&original), "teslib_", "linux");
    assert!(
        result.is_err(),
        "a prefix matching nothing in the input must fail verification"
    );
    assert!(matches!(result, Err(VerifyError::NothingMatches)));
}

#[test]
fn verify_rejects_when_only_some_original_api_symbols_survive() {
    let original = build_archive(&[
        ("a.o", elf_object_with_global("myapp_one")),
        ("b.o", elf_object_with_global("myapp_two")),
    ]);
    let patched = build_archive(&[("a.o", elf_object_with_global("myapp_one"))]);
    let result = verify_patched_lib(Some(&patched), Some(&original), "myapp_", "linux");
    assert!(
        result.is_err(),
        "dropping any original API symbol must fail verification"
    );
    assert!(matches!(
        result,
        Err(VerifyError::Lost { missing, matching: 2 }) if missing == ["myapp_two"]
    ));
}

#[test]
fn verify_rejects_when_the_original_api_did_not_survive() {
    let original = build_archive(&[("a.o", elf_object_with_global("myapp_keep"))]);
    let patched = build_archive(&[("a.o", elf_object_with_global("myapp_other"))]);
    let result = verify_patched_lib(Some(&patched), Some(&original), "myapp_", "linux");
    assert!(
        result.is_err(),
        "output must preserve an original keep-prefix symbol, not just any"
    );
}

#[test]
fn verify_rejects_missing_empty_and_small_files() {
    let archive = build_archive(&[("a.o", elf_object_with_global("p_a"))]);
    assert!(matches!(
        verify_patched_lib(None, Some(&archive), "p_", "linux"),
        Err(VerifyError::NotCreated)
    ));
    assert!(matches!(
        verify_patched_lib(Some(b""), Some(&archive), "p_", "linux"),
        Err(VerifyError::Empty)
    ));
    assert!(matches!(
        verify_patched_lib(Some(&archive), None, "p_", "linux"),
        Err(VerifyError::OriginalUnreadable)
    ));
    assert!(matches!(
        verify_patched_lib(Some(b"!<arch>\n"), Some(&vec![0u8; 800]), "p_", "linux"),
        Err(VerifyError::NoSymbols)
    ));

    let big = vec![0u8; 1001];
    assert!(matches!(
        verify_patched_lib(Some(b"0123456789"), Some(&big), "p_", "linux"),
        Err(VerifyError::TooSmall { output: 10, input: 1001 })
    ));
    // A hundredth is enough, and on Windows a ten-thousandth.
    assert!(matches!(
        verify_patched_lib(Some(b"0123456789"), Some(&big[..1000]), "p_", "linux"),
        Err(VerifyError::NoSymbols)
    ));
    assert!(matches!(
        verify_patched_lib(Some(b"0"), Some(&big), "p_", "windows"),
        Err(VerifyError::NoSymbols)
    ));
    assert!(matches!(
        verify_patched_lib(Some(b"0"), Some(&vec![0u8; 10001]), "p_", "windows"),
        Err(VerifyError::TooSmall { output: 1, input: 10001 })
    ));
}

/// An archive header with the given name and size.
fn header(name: &str, size: &str) -> Vec<u8> {
    format!("{:<16}{:<12}{:<6}{:<6}{:<8}{:<10}`\n", name, "0", "0", "0", "644", size).into_bytes()
}

#[test]
fn long_names_beyond_the_table_are_told_apart() {
    let mut good = b"!<arch>\n".to_vec();
    good.extend(header("//", "12"));
    good.extend_from_slice(b"longname.o/\n");
    let mut bad = good.clone();
    good.extend(header("/12", "0"));
    bad.extend(header("/13", "0"));
    assert!(can_read(&good));
    assert!(list_symbols(&good).is_empty());
    assert!(!can_read(&bad));

    let mut first = b"!<arch>\n".to_vec();
    first.extend(header("/1", "0"));
    assert!(!can_read(&first));
    // In an archive of the other format, such a name is just a name.
    let mut bsd = b"!<arch>\n".to_vec();
    bsd.extend(header("#1/4", "4"));
    bsd.extend_from_slice(b"a.o\0");
    bsd.extend(header("/1", "0"));
    assert!(can_read(&bsd));
    // Nothing behind a malformed header is read.
    let mut broken = b"!<arch>\n".to_vec();
    broken.extend(header("a.o/", "x"));
    broken.extend(header("/1", "0"));
    assert!(can_read(&broken));
    assert!(can_read(b"no archive"));
}

/// An archive of the given size with a member whose name cannot be read.
fn unreadable(size: usize) -> Vec<u8> {
    let mut archive = b"!<arch>\n".to_vec();
    archive.extend(header("/1", "0"));
    archive.resize(size, b'\n');
    assert!(!can_read(&archive));
    archive
}

#[test]
fn verify_reads_a_library_only_where_it_has_to() {
    let bad = unreadable(80);
    let clean = build_archive(&[("a.o", elf_object_with_global("p_a"))]);
    let leaky = build_archive(&[("a.o", elf_object_with_global("leak"))]);

    assert!(matches!(
        verify_patched_lib(None, Some(&bad), "p_", "linux"),
        Err(VerifyError::NotCreated)
    ));
    assert!(matches!(
        verify_patched_lib(Some(b""), Some(&bad), "p_", "linux"),
        Err(VerifyError::Empty)
    ));
    assert!(matches!(
        verify_patched_lib(Some(&bad), None, "p_", "linux"),
        Err(VerifyError::OriginalUnreadable)
    ));
    assert!(matches!(
        verify_patched_lib(Some(&bad), Some(&unreadable(8001)), "p_", "linux"),
        Err(VerifyError::TooSmall { output: 80, input: 8001 })
    ));
    assert!(matches!(
        verify_patched_lib(Some(&leaky), Some(&bad), "p_", "linux"),
        Err(VerifyError::Leaked(names)) if names == ["leak"]
    ));

    assert!(verify_if_readable(Some(&bad), Some(&clean), "p_", "linux").is_none());
    assert!(verify_if_readable(Some(&clean), Some(&bad), "p_", "linux").is_none());
    assert!(matches!(
        verify_if_readable(Some(&leaky), Some(&bad), "p_", "linux"),
        Some(Err(VerifyError::Leaked(_)))
    ));
    assert!(matches!(
        verify_if_readable(None, Some(&bad), "p_", "linux"),
        Some(Err(VerifyError::NotCreated))
    ));
    assert!(matches!(
        verify_if_readable(Some(&clean), Some(&clean), "p_", "linux"),
        Some(Ok(1))
    ));
}

#[test]
fn readable_part_ends_before_the_bad_header() {
    let whole = build_archive(&[("a.o", elf_object_with_global("p_a"))]);
    assert_eq!(read_part(&whole), whole.as_slice());
    assert_eq!(read_part(b"no archive"), b"no archive");
    assert_eq!(read_part(&unreadable(80)), b"!<arch>\n");

    let mut broken = whole.clone();
    broken.extend(header("/1", "0"));
    assert!(!can_read(&broken));
    assert_eq!(read_part(&broken), whole.as_slice());
    assert!(can_read(read_part(&broken)));

    // Behind contents of odd length, the padding is cut off too.
    let mut odd = b"!<arch>\n".to_vec();
    odd.extend(header("a.o", "3"));
    odd.extend_from_slice(b"abc");
    let end = odd.len();
    odd.push(b'\n');
    odd.extend(header("/1", "0"));
    assert_eq!(read_part(&odd), &odd[..end]);
}

#[test]
fn architecture_needs_no_more_than_the_first_object() {
    let object = elf_object("s", Architecture::Aarch64);
    let mut late = build_archive(&[("readme", b"text".to_vec()), ("a.o", object.clone())]);
    late.extend(header("/1", "0"));
    assert!(!can_read(&late));
    assert_eq!(find_architecture(&late).map(architecture_name), Some("aarch64"));
    assert_eq!(detect_archive_arch(Some(&late)), "aarch64");
    assert!(matches!(
        patch_lib("p_", None, None, None, "linux", Some(&late)),
        Ok(plan) if plan.arch == "aarch64"
    ));
    assert!(matches!(
        patch_if_readable("p_", None, None, None, "linux", Some(&late)),
        Some(Ok(plan)) if plan.arch == "aarch64"
    ));

    let mut early = unreadable(68);
    early.extend(header("a.o", &object.len().to_string()));
    early.extend_from_slice(&object);
    assert!(find_architecture(&early).is_none());
    assert!(patch_if_readable("p_", None, None, None, "linux", Some(&early)).is_none());
    assert!(matches!(
        patch_if_readable("", None, None, None, "linux", Some(&early)),
        Some(Err(PatchError::EmptyPrefix))
    ));
    assert!(matches!(
        patch_if_readable("p_", None, None, None, "linux", None),
        Some(Ok(plan)) if plan.arch == "x86_64"
    ));
    assert!(matches!(
        patch_if_readable("p_", None, None, None, "linux", Some(b"!<arch>\n")),
        Some(Ok(plan)) if plan.arch == "x86_64"
    ));
}

#[test]
fn tables_and_names_beyond_all_memory_are_told_apart() {
    let addressable = isize::MAX as u64 >= 9_999_999_999;
    let mut table = b"!<arch>\n".to_vec();
    table.extend(header("//", "9999999999"));
    assert_eq!(can_read(&table), addressable);
    let mut name = b"!<arch>\n".to_vec();
    name.extend(header("#1/9999999999", "9999999999"));
    assert_eq!(can_read(&name), addressable);
    // A name that is larger than its member is malformed, whatever its size.
    let mut small = b"!<arch>\n".to_vec();
    small.extend(header("#1/9999999999", "4"));
    assert!(can_read(&small));
}

#[test]
fn empty_prefix_is_rejected_before_the_library_is_read() {
    assert!(matches!(
        patch_lib("", None, None, None, "linux", Some(&unreadable(80))),
        Err(PatchError::EmptyPrefix)
    ));
}

#[test]
fn long_names_in_a_gnu_archive_are_readable() {
    let object = elf_object_with_global("long_one");
    let mut buf = Vec::new();
    {
        let names = vec![b"a_member_with_a_long_name.o".to_vec()];
        let mut builder = ar::GnuBuilder::new(&mut buf, names.clone());
        let head = ar::Header::new(names[0].clone(), object.len() as u64);
        builder.append(&head, object.as_slice()).unwrap();
    }
    assert!(can_read(&buf));
    assert_eq!(list_symbols(&buf), vec!["long_one".to_string()]);
}

#[test]
fn apple_tables_are_not_extracted() {
    let mut archive = b"!<arch>\n".to_vec();
    archive.extend(header("__.SYMDEF", "4"));
    archive.extend_from_slice(b"tabl");
    archive.extend(header("a.o", "2"));
    archive.extend_from_slice(b"ab");
    match extract_objects(&archive) {
        Ok(objects) => assert_eq!(objects, vec![b"ab".to_vec()]),
        Err(_) => panic!("the archive is well formed"),
    }
    assert!(matches!(
        extract_objects(b"!<arch>\n"),
        Err(ExtractError::NoObjects)
    ));
    assert!(matches!(
        extract_objects(b"nothing of the kind"),
        Err(ExtractError::NotAnArchive(_))
    ));
    let mut broken = b"!<arch>\n".to_vec();
    broken.extend(header("a.o", "200"));
    assert!(extract_objects(&broken).is_err());
    assert!(extract_coff_objects(&broken).is_err());
}

#[test]
fn coff_members_are_extracted_in_order() {
    let archive = build_archive(&[("b.o", b"bb".to_vec()), ("a.o", b"a".to_vec())]);
    match extract_coff_objects(&archive) {
        Ok(objects) => assert_eq!(objects, vec![b"bb".to_vec(), b"a".to_vec()]),
        Err(_) => panic!("the archive is well formed"),
    }
    assert!(matches!(extract_coff_objects(b"!<arch>\n"), Ok(objects) if objects.is_empty()));
}
