use lib_patcher::keep::{find_leaked_symbols, matches_keep_prefix, symbol_is_allowed_global};
use lib_patcher::names::SymbolSet;

const KEEP: &str = "mylib_";

fn strings(names: &[&str]) -> Vec<String> {
    names.iter().map(|name| name.to_string()).collect()
}

#[test]
fn allowlist_keeps_prefix_and_compiler_internals() {
    // The interface, bare and with the underscore of Mach-O.
    assert!(symbol_is_allowed_global("mylib_add", KEEP));
    assert!(symbol_is_allowed_global("_mylib_add", KEEP));
    // Compiler and linker internals.
    assert!(symbol_is_allowed_global("DW.ref.rust_eh_personality", KEEP));
    assert!(symbol_is_allowed_global("_GLOBAL_OFFSET_TABLE_", KEEP));
    assert!(symbol_is_allowed_global("GCC_except_table3", KEEP));
    // COFF section and compiler symbols, and MSVC-mangled names.
    assert!(symbol_is_allowed_global("@feat.00", KEEP));
    assert!(symbol_is_allowed_global(".weak.foo", KEEP));
    assert!(symbol_is_allowed_global("??_C@_05foo@bar@", KEEP));
}

#[test]
fn allowlist_rejects_stdlib_and_dependency_symbols() {
    assert!(!symbol_is_allowed_global("_ZN10serde_json2de10from_traitE", KEEP));
    assert!(!symbol_is_allowed_global("rust_eh_personality", KEEP));
    assert!(!symbol_is_allowed_global("other_prefix_fn", KEEP));
}

#[test]
fn leak_detection_flags_stdlib_but_not_exemptions() {
    let symbols = strings(&["mylib_add", "DW.ref.rust_eh_personality", "_ZN4core3fmt3fooE"]);
    assert_eq!(
        find_leaked_symbols(&symbols, KEEP, &SymbolSet::new()),
        vec!["_ZN4core3fmt3fooE"]
    );
}

#[test]
fn leak_detection_exempts_proven_import_symbols() {
    let symbols = strings(&["mylib_run", "__imp_ProcessPrng", "ProcessPrng"]);
    let exempt = SymbolSet::of(&strings(&["__imp_ProcessPrng", "ProcessPrng"]));
    assert!(find_leaked_symbols(&symbols, KEEP, &exempt).is_empty());

    // The same bare name with no import behind it is still a leak.
    let unproven = strings(&["ProcessPrng"]);
    assert_eq!(
        find_leaked_symbols(&unproven, KEEP, &SymbolSet::new()),
        vec!["ProcessPrng"]
    );
}

#[test]
fn leaks_keep_the_order_of_the_list() {
    let symbols = strings(&["zeta", "mylib_a", "alpha", "zeta"]);
    assert_eq!(
        find_leaked_symbols(&symbols, KEEP, &SymbolSet::new()),
        vec!["zeta", "alpha", "zeta"]
    );
}

#[test]
fn one_leading_underscore_is_passed_over() {
    assert!(matches_keep_prefix("mylib_add", KEEP));
    assert!(matches_keep_prefix("_mylib_add", KEEP));
    assert!(!matches_keep_prefix("__mylib_add", KEEP));
    assert!(!matches_keep_prefix("mylib", KEEP));
    assert!(matches_keep_prefix("_foo", "_foo"));
}

#[test]
fn empty_prefix_matches_every_name() {
    assert!(matches_keep_prefix("", ""));
    assert!(matches_keep_prefix("anything", ""));
    assert!(symbol_is_allowed_global("rust_eh_personality", ""));
}

#[test]
fn symbol_set_holds_each_name_once() {
    let mut set = SymbolSet::of(&strings(&["b", "a", "b"]));
    assert_eq!(set.len(), 2);
    set.insert("c".to_string());
    set.insert("a".to_string());
    assert_eq!(set.len(), 3);
    assert!(set.contains("c"));
    assert!(!set.contains("d"));
    assert_eq!(set.sorted(), strings(&["a", "b", "c"]));
    assert!(SymbolSet::new().is_empty());
}

#[test]
fn names_are_ordered_by_their_bytes() {
    let set = SymbolSet::of(&strings(&["_b", "a", "B", "\u{e9}", "aa", "\u{10000}", "\u{ffff}"]));
    let mut expected = strings(&["_b", "a", "B", "\u{e9}", "aa", "\u{10000}", "\u{ffff}"]);
    expected.sort();
    assert_eq!(set.sorted(), expected);
}
