use commit_log::echo::Handler;

#[test]
fn retreieve_messages_is_empty_at_start() {
    let h = Handler::new();
    assert_eq!(h.retreieve_messages(), Vec::<u64>::new());
}

#[test]
fn store_message_keeps_each_id_once() {
    let mut h = Handler::new();
    h.store_message(7);
    h.store_message(8);
    h.store_message(7);
    let mut ids = h.retreieve_messages();
    ids.sort();
    assert_eq!(ids, vec![7, 8]);
}

#[test]
fn set_neighbors_drains_the_argument() {
    let mut h = Handler::new();
    let mut ns = vec!["n1".to_string(), "n2".to_string()];
    h.set_neighbors(&mut ns);
    assert!(ns.is_empty());
    let mut more = vec!["n3".to_string()];
    h.set_neighbors(&mut more);
    assert!(more.is_empty());
}
