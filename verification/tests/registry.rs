use checker_rs::checker::{Checker, Dataset, Datasets, TrapKind};

#[test]
fn checker_records_messages_in_order() {
    let mut c = Checker::new();
    assert!(c.failures.is_empty());
    assert!(c.success.is_empty());
    c.record_failure("first".to_string());
    c.record_success("ok".to_string());
    c.record_failure("second".to_string());
    assert_eq!(c.failures, vec!["first".to_string(), "second".to_string()]);
    assert_eq!(c.success, vec!["ok".to_string()]);
}

#[test]
fn checker_default_is_empty() {
    let c = Checker::default();
    assert!(c.failures.is_empty());
    assert!(c.success.is_empty());
}

#[test]
fn registry_lookup_finds_registered_name() {
    let mut d = Datasets::new();
    d.register("a".to_string(), Dataset { offset: 65536, size: 6 });
    d.register("b".to_string(), Dataset { offset: 65542, size: 9 });
    assert_eq!(d.lookup(&"a".to_string()), Some(Dataset { offset: 65536, size: 6 }));
    assert_eq!(d.lookup(&"b".to_string()), Some(Dataset { offset: 65542, size: 9 }));
}

#[test]
fn registry_lookup_misses_unregistered_name() {
    let mut d = Datasets::new();
    d.register("a".to_string(), Dataset { offset: 65536, size: 6 });
    assert_eq!(d.lookup(&"missing".to_string()), None);
}

#[test]
fn registry_register_overwrites_existing_name() {
    let mut d = Datasets::new();
    d.register("a".to_string(), Dataset { offset: 65536, size: 6 });
    d.register("a".to_string(), Dataset { offset: 70000, size: 11 });
    assert_eq!(d.lookup(&"a".to_string()), Some(Dataset { offset: 70000, size: 11 }));
}

#[test]
fn trap_kinds_carry_their_messages() {
    assert_eq!(TrapKind::NoMemory.text(), "failed to find host memory");
    assert_eq!(TrapKind::OutOfBounds.text(), "pointer/length out of bounds");
    assert_eq!(TrapKind::InvalidUtf8.text(), "invalid utf-8");
    assert_eq!(TrapKind::NoSuchDataset.text(), "no dataset with that name");
}
