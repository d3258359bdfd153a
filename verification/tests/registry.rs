use runpy::{Admission, Registry};

#[test]
fn registered_workers_are_routable_until_removed() {
    let mut registry: Registry<u32, &str> = Registry::new();
    assert!(matches!(registry.register("a".into(), 1), Admission::Accepted { displaced: None }));
    assert!(matches!(registry.register("b".into(), 2), Admission::Accepted { displaced: None }));
    assert_eq!(registry.get("a"), Some(&1));
    assert_eq!(registry.len(), 2);
    assert_eq!(registry.ids(), vec!["a".to_string(), "b".to_string()]);
    assert_eq!(registry.remove("a"), Some(1));
    assert_eq!(registry.get("a"), None);
    assert_eq!(registry.remove("a"), None);
    assert_eq!(registry.entry(0), (&"b".to_string(), &2));
}

#[test]
fn reregistering_displaces_the_previous_worker() {
    let mut registry: Registry<u32, ()> = Registry::new();
    registry.register("a".into(), 1);
    registry.register("b".into(), 2);
    assert!(matches!(registry.register("a".into(), 3), Admission::Accepted { displaced: Some(1) }));
    assert_eq!(registry.ids(), vec!["a".to_string(), "b".to_string()]);
    assert_eq!(registry.get("a"), Some(&3));
}

#[test]
fn shutdown_drains_and_refuses_registration() {
    let mut registry: Registry<u32, &str> = Registry::new();
    assert!(registry.monitor_slot_open());
    registry.install_monitor("monitor");
    assert!(!registry.monitor_slot_open());
    registry.register("a".into(), 1);
    let (monitor, drained) = registry.shutdown();
    assert_eq!(monitor, Some("monitor"));
    assert_eq!(drained, vec![("a".to_string(), 1)]);
    assert!(registry.is_closed());
    assert_eq!(registry.len(), 0);
    assert!(matches!(registry.register("b".into(), 2), Admission::Rejected(2)));
    assert!(!registry.monitor_slot_open());
    assert_eq!(registry.get("b"), None);
}
