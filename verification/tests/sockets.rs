use drover_proxy::state::{register_socket, remove_socket, take_first_send, SocketTable, INVALID_SOCKET};

#[test]
fn register_stream_socket() {
    let mut table = SocketTable::new();
    register_socket(&mut table, 10, 1);
    let st = table.get(10).unwrap();
    assert!(st.is_tcp);
    assert!(!st.is_udp);
    assert!(!st.first_send_done);
    assert!(!st.fake_http_proxy);
}

#[test]
fn register_datagram_and_other_sockets() {
    let mut table = SocketTable::new();
    register_socket(&mut table, 11, 2);
    register_socket(&mut table, 12, 3);
    let udp = table.get(11).unwrap();
    assert!(udp.is_udp && !udp.is_tcp);
    let raw = table.get(12).unwrap();
    assert!(!raw.is_udp && !raw.is_tcp);
}

#[test]
fn invalid_socket_is_ignored() {
    let mut table = SocketTable::new();
    register_socket(&mut table, INVALID_SOCKET, 1);
    assert!(table.get(INVALID_SOCKET).is_none());
    assert_eq!(INVALID_SOCKET, !0usize);
}

#[test]
fn remove_forgets_socket() {
    let mut table = SocketTable::new();
    register_socket(&mut table, 5, 1);
    register_socket(&mut table, 6, 2);
    remove_socket(&mut table, 5);
    assert!(table.get(5).is_none());
    assert!(table.get(6).is_some());
    remove_socket(&mut table, 5);
    assert!(table.get(5).is_none());
}

#[test]
fn reregister_resets_state() {
    let mut table = SocketTable::new();
    register_socket(&mut table, 7, 1);
    let mut st = table.get(7).unwrap();
    assert!(take_first_send(&mut st));
    table.update(7, st);
    assert!(table.get(7).unwrap().first_send_done);
    register_socket(&mut table, 7, 2);
    let again = table.get(7).unwrap();
    assert!(!again.first_send_done && again.is_udp);
}

#[test]
fn update_ignores_unknown_socket() {
    let mut table = SocketTable::new();
    let mut st = drover_proxy::state::SocketState {
        is_tcp: true,
        is_udp: false,
        first_send_done: false,
        fake_http_proxy: false,
    };
    take_first_send(&mut st);
    table.update(99, st);
    assert!(table.get(99).is_none());
}

#[test]
fn first_send_reported_once() {
    let mut table = SocketTable::new();
    register_socket(&mut table, 3, 1);
    let mut st = table.get(3).unwrap();
    assert!(take_first_send(&mut st));
    assert!(!take_first_send(&mut st));
    assert!(st.first_send_done);
}
