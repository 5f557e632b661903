use lib_patcher::blocklist::{
    describe_sources, filter_symbols_by_prefix, patch_blocklist, BlocklistError,
};
use lib_patcher::text::{contains, decimal, ends_with, fields, join, starts_with, trim};

fn strings(names: &[&str]) -> Vec<String> {
    names.iter().map(|name| name.to_string()).collect()
}

#[test]
fn default_list_is_taken_where_nothing_else_is_given() {
    let defaults = strings(&["rust_eh_personality", "__rust_alloc"]);
    let list = match patch_blocklist(&defaults, &None, &None, &Vec::new(), false) {
        Ok(list) => list,
        Err(_) => panic!("there is something to hide"),
    };
    assert_eq!(list.symbols, strings(&["__rust_alloc", "rust_eh_personality"]));
    assert_eq!(describe_sources(&list), "default");
}

#[test]
fn lists_from_all_sources_are_merged() {
    let library = strings(&["ab", "abc", "b", "zz"]);
    let list = match patch_blocklist(
        &strings(&["m", "b"]),
        &Some(strings(&["zz", "m"])),
        &Some(strings(&["ab", "q"])),
        &library,
        true,
    ) {
        Ok(list) => list,
        Err(_) => panic!("there is something to hide"),
    };
    assert_eq!(list.symbols, strings(&["ab", "abc", "b", "m", "zz"]));
    assert_eq!(describe_sources(&list), "default + custom + prefix-filtered");
}

#[test]
fn empty_lists_are_rejected() {
    let none = Vec::new();
    assert!(matches!(
        patch_blocklist(&strings(&["m"]), &Some(Vec::new()), &Some(Vec::new()), &none, true),
        Err(BlocklistError::EmptySymbols)
    ));
    assert!(matches!(
        patch_blocklist(&strings(&["m"]), &None, &Some(Vec::new()), &none, true),
        Err(BlocklistError::EmptyPrefixes)
    ));
    assert!(matches!(
        patch_blocklist(&strings(&["m"]), &None, &Some(strings(&["q"])), &none, false),
        Err(BlocklistError::NothingToHide)
    ));
}

#[test]
fn symbols_are_filtered_by_prefix() {
    assert_eq!(
        filter_symbols_by_prefix(&strings(&["b", "ab", "a", "cab"]), &strings(&["a", "c"])),
        strings(&["ab", "a", "cab"])
    );
    assert!(filter_symbols_by_prefix(&strings(&["b"]), &Vec::new()).is_empty());
}

#[test]
fn texts_are_searched_and_put_together() {
    assert!(starts_with("abc", "ab") && starts_with("abc", "") && !starts_with("ab", "abc"));
    assert!(ends_with("abc", "bc") && ends_with("abc", "") && !ends_with("bc", "abc"));
    assert!(contains("abcabd", "abd") && contains("", "") && !contains("ab", "ba"));
    assert_eq!(lib_patcher::text::concat("a", "\u{e9}"), "a\u{e9}");
    assert_eq!(decimal(0), "0");
    assert_eq!(decimal(18446744073709551615), "18446744073709551615");
    assert_eq!(join(&strings(&["a", "", "b"]), ", "), "a, , b");
    assert_eq!(join(&Vec::new(), ", "), "");
    assert_eq!(trim("\u{3000} a b \n"), "a b");
    assert_eq!(trim(" \t"), "");
}

#[test]
fn texts_are_split_into_rows_of_words() {
    let rows = fields("a  b\u{a0}c\r\n\n\td");
    assert_eq!(rows, vec![strings(&["a", "b", "c"]), Vec::new(), strings(&["d"])]);
}
