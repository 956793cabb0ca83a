use unitd::fd_store::{collect_listen_fds, FdStore};

#[test]
fn stored_fds_are_found_by_name() {
    let mut store = FdStore::new();
    store.insert_new(b"web.socket".to_vec(), vec![7, 8]);
    store.insert_new(b"ctl.socket".to_vec(), vec![9]);
    assert_eq!(store.get(&b"web.socket".to_vec()), Some(&vec![7, 8]));
    assert_eq!(store.get(&b"ctl.socket".to_vec()), Some(&vec![9]));
    assert_eq!(store.get(&b"nope.socket".to_vec()), None);
}

#[test]
fn listen_fds_follow_the_socket_name_order() {
    let mut store = FdStore::new();
    store.insert_new(b"a".to_vec(), vec![3, 4]);
    store.insert_new(b"b".to_vec(), vec![5]);
    let names = vec![b"b".to_vec(), b"a".to_vec(), b"missing".to_vec()];
    // fds come in the order of the service's socket names; names without
    // stored fds contribute nothing
    assert_eq!(collect_listen_fds(&store, &names), vec![5, 3, 4]);
    let none: Vec<Vec<u8>> = vec![];
    assert!(collect_listen_fds(&store, &none).is_empty());
}
