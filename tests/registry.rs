use realm_bridge::key::ConfigKey;
use realm_bridge::registry::{Registry, Release, StartError};

fn key(insecure: bool) -> ConfigKey {
    ConfigKey::new("example.com", "example.com", "/ws", true, insecure)
}

fn addr(s: &str) -> String {
    s.to_string()
}

#[test]
fn two_starts_share_one_instance_then_stop_twice() {
    let mut reg: Registry<u32> = Registry::new();
    let k = key(false);
    assert_eq!(reg.acquire(&k), Ok(None));
    assert!(reg.register(k.clone_key(), addr("127.0.0.1:40001"), 7).is_ok());
    assert_eq!(reg.acquire(&k), Ok(Some(addr("127.0.0.1:40001"))));
    assert_eq!(reg.count(&k), 2);

    assert!(matches!(reg.release(&k), Release::Remaining(1)));
    assert_eq!(reg.count(&k), 1);
    assert_eq!(reg.address(&k), Some(addr("127.0.0.1:40001")));

    assert!(matches!(reg.release(&k), Release::Stopped(7)));
    assert_eq!(reg.count(&k), 0);
    assert_eq!(reg.address(&k), None);
    assert!(matches!(reg.release(&k), Release::Missing));
}

#[test]
fn many_starts_return_one_address() {
    let mut reg: Registry<u32> = Registry::new();
    let k = key(false);
    assert!(reg.register(k.clone_key(), addr("127.0.0.1:40002"), 1).is_ok());
    for _ in 0..9 {
        assert_eq!(reg.acquire(&k), Ok(Some(addr("127.0.0.1:40002"))));
    }
    assert_eq!(reg.count(&k), 10);
}

#[test]
fn balanced_starts_and_stops_leave_nothing() {
    let mut reg: Registry<u32> = Registry::new();
    let k = key(false);
    assert!(reg.register(k.clone_key(), addr("127.0.0.1:40003"), 3).is_ok());
    for _ in 0..4 {
        assert!(reg.acquire(&k).unwrap().is_some());
    }
    for left in (1..5).rev() {
        assert!(matches!(reg.release(&k), Release::Remaining(n) if n == left));
    }
    assert!(matches!(reg.release(&k), Release::Stopped(3)));
    assert_eq!(reg.address(&k), None);
    assert_eq!(reg.acquire(&k), Ok(None));
}

#[test]
fn insecure_switch_makes_a_separate_instance() {
    let mut reg: Registry<u32> = Registry::new();
    let a = key(false);
    let b = key(true);
    assert!(!a.same_as(&b));
    assert!(reg.register(a.clone_key(), addr("127.0.0.1:40004"), 1).is_ok());
    assert_eq!(reg.acquire(&b), Ok(None));
    assert!(reg.register(b.clone_key(), addr("127.0.0.1:40005"), 2).is_ok());
    assert_eq!(reg.address(&a), Some(addr("127.0.0.1:40004")));
    assert_eq!(reg.address(&b), Some(addr("127.0.0.1:40005")));
    assert_eq!(reg.count(&a), 1);
    assert_eq!(reg.count(&b), 1);
}

#[test]
fn stop_of_unknown_key_changes_nothing() {
    let mut reg: Registry<u32> = Registry::new();
    let a = key(false);
    let b = key(true);
    assert!(reg.register(a.clone_key(), addr("127.0.0.1:40006"), 1).is_ok());
    assert!(matches!(reg.release(&b), Release::Missing));
    assert_eq!(reg.count(&a), 1);
    assert_eq!(reg.address(&a), Some(addr("127.0.0.1:40006")));
}

#[test]
fn register_refuses_a_taken_key() {
    let mut reg: Registry<u32> = Registry::new();
    let a = key(false);
    assert!(reg.register(a.clone_key(), addr("127.0.0.1:40007"), 1).is_ok());
    let err = reg.register(a.clone_key(), addr("127.0.0.1:40008"), 2).err().unwrap();
    assert_eq!(err.reason, StartError::KeyTaken);
    assert_eq!(err.ctx, 2);
    assert_eq!(reg.count(&a), 1);
    assert_eq!(reg.address(&a), Some(addr("127.0.0.1:40007")));
}

#[test]
fn register_refuses_a_taken_address() {
    let mut reg: Registry<u32> = Registry::new();
    let a = key(false);
    let b = key(true);
    assert!(reg.register(a.clone_key(), addr("127.0.0.1:40009"), 1).is_ok());
    assert!(reg.address_taken(&addr("127.0.0.1:40009")));
    assert!(!reg.address_taken(&addr("127.0.0.1:40010")));
    let err = reg.register(b.clone_key(), addr("127.0.0.1:40009"), 2).err().unwrap();
    assert_eq!(err.reason, StartError::AddressTaken);
    assert_eq!(err.ctx, 2);
    assert_eq!(reg.address(&b), None);
}

#[test]
fn key_text_joins_the_five_parts() {
    let k = ConfigKey::new("example.com", "example.com", "/ws", true, false);
    assert_eq!(k.describe(), "example.com-example.com-/ws-true-false");
    let k2 = ConfigKey::new("a:1", "h", "/p", false, true);
    assert_eq!(k2.describe(), "a:1-h-/p-false-true");
}

#[test]
fn keys_differing_in_one_part_are_distinct() {
    let base = ConfigKey::new("r", "h", "/p", true, false);
    assert!(base.same_as(&ConfigKey::new("r", "h", "/p", true, false)));
    assert!(!base.same_as(&ConfigKey::new("x", "h", "/p", true, false)));
    assert!(!base.same_as(&ConfigKey::new("r", "x", "/p", true, false)));
    assert!(!base.same_as(&ConfigKey::new("r", "h", "/x", true, false)));
    assert!(!base.same_as(&ConfigKey::new("r", "h", "/p", false, false)));
    assert!(!base.same_as(&ConfigKey::new("r", "h", "/p", true, true)));
}
