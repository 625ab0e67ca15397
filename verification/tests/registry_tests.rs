use chall_gate::registry::TeamRegistry;

#[test]
fn registry_refuses_second_instance() {
    let mut r = TeamRegistry::new();
    let a = String::from("team-a");
    assert!(r.try_register(&a));
    assert!(!r.try_register(&a));
    assert_eq!(r.len(), 1);
    assert!(r.contains(&a));
}

#[test]
fn registry_round_trip() {
    let mut r = TeamRegistry::new();
    let a = String::from("a");
    let b = String::from("b");
    r.try_register(&a);
    assert!(r.try_register(&b));
    assert!(r.release(&b));
    assert_eq!(r.len(), 1);
    assert!(r.contains(&a));
    assert!(!r.contains(&b));
}

#[test]
fn registry_release_of_unknown_team() {
    let mut r = TeamRegistry::new();
    r.try_register(&String::from("a"));
    assert!(!r.release(&String::from("z")));
    assert_eq!(r.len(), 1);
}
