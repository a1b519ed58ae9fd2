use difference_engine::Provenance;

#[test]
fn old_is_old_and_not_new() {
    let p = Provenance::Old;
    assert!(p.is_old());
    assert!(p.is_old_only());
    assert!(!p.is_new());
    assert!(!p.is_new_only());
    assert!(!p.is_shared());
    assert!(p.is_unshared());
}

#[test]
fn shared_is_both_old_and_new() {
    let p = Provenance::Shared;
    assert!(p.is_old());
    assert!(!p.is_old_only());
    assert!(p.is_new());
    assert!(!p.is_new_only());
    assert!(p.is_shared());
    assert!(!p.is_unshared());
}

#[test]
fn new_is_new_and_not_old() {
    let p = Provenance::New;
    assert!(!p.is_old());
    assert!(!p.is_old_only());
    assert!(p.is_new());
    assert!(p.is_new_only());
    assert!(!p.is_shared());
    assert!(p.is_unshared());
}

#[test]
fn provenance_is_totally_ordered() {
    assert!(Provenance::Old < Provenance::Shared);
    assert!(Provenance::Shared < Provenance::New);
    assert!(Provenance::Old < Provenance::New);
    assert_eq!(Provenance::Shared, Provenance::Shared);
}
