use telfhash_rs::exclusions::should_exclude;

#[test]
fn excludes_fixed_symbols() {
    assert!(should_exclude("main"));
    assert!(should_exclude("malloc_trim"));
}

#[test]
fn excludes_pattern_based_symbols() {
    assert!(should_exclude("__init"));
    assert!(should_exclude("strcpy"));
    assert!(should_exclude("memcpy"));
    assert!(should_exclude("foo64"));
    assert!(!should_exclude("connect"));
}

#[test]
fn keeps_ordinary_names_and_checks_whole_patterns() {
    assert!(should_exclude(".hidden"));
    assert!(should_exclude("puts"));
    assert!(!should_exclude("mains"));
    assert!(!should_exclude("x64y"));
    assert!(!should_exclude("open_str"));
}
