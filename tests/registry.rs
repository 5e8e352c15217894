use serveme::registry::{Poll, Registry, Status};

#[test]
fn observing_keeps_only_live_entries() {
    let mut reg: Registry<&str> = Registry::new();
    let a = "a".to_string();
    let b = "b".to_string();
    let c = "c".to_string();
    reg.insert(a.clone(), "pa");
    reg.insert(b.clone(), "pb");
    reg.insert(c.clone(), "pc");
    assert_eq!(reg.is_running(&a, Poll::Alive), Status::Running);
    assert_eq!(reg.is_running(&b, Poll::ExitedError(Some(2))), Status::ExitedError(Some(2)));
    assert_eq!(reg.is_running(&c, Poll::ExitedOk), Status::ExitedOk);
    assert_eq!(reg.handle(&a), Some(&"pa"));
    assert!(!reg.is_tracked(&b));
    assert!(!reg.is_tracked(&c));
    assert_eq!(reg.is_running(&b, Poll::Alive), Status::NotTracked);
}

#[test]
fn remove_hands_back_handle() {
    let mut reg: Registry<u8> = Registry::new();
    let a = "a".to_string();
    reg.insert(a.clone(), 5);
    assert_eq!(reg.remove(&a), Some(5));
    assert_eq!(reg.remove(&a), None);
    assert_eq!(reg.handle(&a), None);
}

#[test]
fn drain_empties_table() {
    let mut reg: Registry<u8> = Registry::new();
    for (i, id) in ["x", "y", "z"].iter().enumerate() {
        reg.insert(id.to_string(), i as u8);
    }
    let mut all = reg.drain();
    all.sort();
    assert_eq!(all, vec![("x".to_string(), 0), ("y".to_string(), 1), ("z".to_string(), 2)]);
    assert!(!reg.is_tracked(&"x".to_string()));
    assert!(reg.drain().is_empty());
}
