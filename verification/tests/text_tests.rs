use chall_gate::forward::{forward_target, pick_forward_port, FORWARD_PORT_HIGH, FORWARD_PORT_LOW};
use chall_gate::text::{decimal_string, push_decimal};

#[test]
fn decimal_renderings() {
    assert_eq!(decimal_string(0), "0");
    assert_eq!(decimal_string(7), "7");
    assert_eq!(decimal_string(10), "10");
    assert_eq!(decimal_string(300), "300");
    assert_eq!(decimal_string(u64::MAX), "18446744073709551615");
    let mut s = String::from("port ");
    push_decimal(&mut s, 39999);
    assert_eq!(s, "port 39999");
}

#[test]
fn forward_port_in_range() {
    let mut draws = Vec::new();
    for _ in 0..200 {
        let p = pick_forward_port();
        assert!(FORWARD_PORT_LOW <= p && p < FORWARD_PORT_HIGH);
        draws.push(p);
    }
    assert!(draws.iter().any(|&p| p != FORWARD_PORT_LOW));
    assert_eq!((FORWARD_PORT_LOW, FORWARD_PORT_HIGH), (30000, 40000));
}

#[test]
fn forward_target_appends_port() {
    assert_eq!(forward_target(&String::from("192.168.145.129")), "192.168.145.129:8000");
}

#[test]
fn decimal_renderings_are_distinct() {
    let mut seen: Vec<String> = (0..1000u64).map(decimal_string).collect();
    seen.sort();
    seen.dedup();
    assert_eq!(seen.len(), 1000);
}
