use difference_engine::discovery::is_raw_module_name;

#[test]
fn accepts_platform_library_names() {
    assert!(is_raw_module_name("libdeng_extra", "so", "lib", "so"));
    assert!(is_raw_module_name("lib", "so", "lib", "so"));
    assert!(is_raw_module_name("deng_extra", "dll", "", "dll"));
}

#[test]
fn rejects_missing_prefix() {
    assert!(!is_raw_module_name("deng_extra", "so", "lib", "so"));
    assert!(!is_raw_module_name("li", "so", "lib", "so"));
}

#[test]
fn rejects_wrong_extension() {
    assert!(!is_raw_module_name("libdeng_extra", "txt", "lib", "so"));
    assert!(!is_raw_module_name("libdeng_extra", "sox", "lib", "so"));
    assert!(!is_raw_module_name("libdeng_extra", "s", "lib", "so"));
}
