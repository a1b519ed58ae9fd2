use difference_engine::Registry;

#[test]
fn lookup_finds_registered_component() {
    let mut r: Registry<u32> = Registry::new();
    r.register("one".to_string(), 1);
    r.register("two".to_string(), 2);
    assert_eq!(r.get(&"one".to_string()), Some(&1));
    assert_eq!(r.get(&"two".to_string()), Some(&2));
    assert_eq!(r.get(&"three".to_string()), None);
    assert_eq!(r.len(), 2);
}

#[test]
fn earliest_registration_wins() {
    let mut r: Registry<&str> = Registry::new();
    r.register("simple-linewise".to_string(), "built-in");
    r.register("simple-linewise".to_string(), "plugin");
    assert_eq!(r.get(&"simple-linewise".to_string()), Some(&"built-in"));
    assert_eq!(r.len(), 1);
}

#[test]
fn later_plugin_cannot_shadow_earlier_plugin() {
    let mut r: Registry<&str> = Registry::new();
    r.register("builtin".to_string(), "host");
    r.register("extra".to_string(), "first plugin");
    r.register("extra".to_string(), "second plugin");
    assert_eq!(r.get(&"extra".to_string()), Some(&"first plugin"));
    assert_eq!(r.len(), 2);
}

#[test]
fn failed_discovery_does_not_block_later_candidates() {
    let mut r: Registry<&str> = Registry::new();
    r.register("builtin".to_string(), "host");
    let outcomes: Vec<Option<(String, &str)>> = vec![
        Some(("early".to_string(), "early plugin")),
        None,
        Some(("late".to_string(), "late plugin")),
        None,
    ];
    r.register_loaded(outcomes);
    assert_eq!(r.get(&"builtin".to_string()), Some(&"host"));
    assert_eq!(r.get(&"early".to_string()), Some(&"early plugin"));
    assert_eq!(r.get(&"late".to_string()), Some(&"late plugin"));
    assert_eq!(r.len(), 3);
}

#[test]
fn entries_keep_registration_order() {
    let mut r: Registry<u8> = Registry::new();
    r.register("b".to_string(), 0);
    r.register("a".to_string(), 1);
    r.register("c".to_string(), 2);
    assert_eq!(r.entry_at(0), &("b".to_string(), 0));
    assert_eq!(r.entry_at(1), &("a".to_string(), 1));
    assert_eq!(r.entry_at(2), &("c".to_string(), 2));
}
