use chat_relay::registry::ConnectionRegistry;

#[test]
fn lookup_after_register() {
    let mut reg = ConnectionRegistry::new();
    reg.register(b"alice".to_vec(), 7);
    assert_eq!(reg.lookup(&b"alice".to_vec()), Some(7));
    assert_eq!(reg.lookup(&b"bob".to_vec()), None);
}

#[test]
fn register_replaces_prior_handle() {
    let mut reg = ConnectionRegistry::new();
    reg.register(b"alice".to_vec(), 7);
    reg.register(b"alice".to_vec(), 8);
    assert_eq!(reg.lookup(&b"alice".to_vec()), Some(8));
}

#[test]
fn remove_deletes_entry() {
    let mut reg = ConnectionRegistry::new();
    reg.register(b"alice".to_vec(), 7);
    reg.register(b"bob".to_vec(), 9);
    reg.remove(&b"alice".to_vec());
    assert_eq!(reg.lookup(&b"alice".to_vec()), None);
    assert_eq!(reg.lookup(&b"bob".to_vec()), Some(9));
}

#[test]
fn remove_twice_is_a_no_op() {
    let mut reg = ConnectionRegistry::new();
    reg.register(b"alice".to_vec(), 7);
    reg.register(b"bob".to_vec(), 9);
    reg.remove(&b"alice".to_vec());
    reg.remove(&b"alice".to_vec());
    assert_eq!(reg.lookup(&b"alice".to_vec()), None);
    assert_eq!(reg.lookup(&b"bob".to_vec()), Some(9));
}

#[test]
fn remove_absent_identity_is_a_no_op() {
    let mut reg = ConnectionRegistry::new();
    reg.remove(&b"nobody".to_vec());
    assert_eq!(reg.lookup(&b"nobody".to_vec()), None);
}

#[test]
fn empty_identity_is_a_key_like_any_other() {
    let mut reg = ConnectionRegistry::new();
    reg.register(Vec::new(), 3);
    assert_eq!(reg.lookup(&Vec::new()), Some(3));
    reg.remove(&Vec::new());
    assert_eq!(reg.lookup(&Vec::new()), None);
}
