use tcp_core::conn::Connection;
use tcp_core::conn::TransportError;
use tcp_core::conn::check_full_write;
use tcp_core::ids::IdGen;
use tcp_core::ids::get_id;
use tcp_core::registry::Client;
use tcp_core::registry::Registry;

fn client(id: usize, name: &str) -> Client {
    Client::new(id, name.as_bytes().to_vec(), Connection::new(0x7f000001, 8080))
}

#[test]
fn get_id_is_monotonic_and_never_reused() {
    let mut gen = IdGen::new();
    assert_eq!(get_id(&mut gen), 0);
    assert_eq!(get_id(&mut gen), 1);
    assert_eq!(get_id(&mut gen), 2);
    assert_eq!(Client::gen_id(&mut gen), 3);
    assert_eq!(gen.next, 4);
}

#[test]
fn client_exposes_its_parts() {
    let c = client(9, "alice");
    assert_eq!(c.id(), 9);
    assert_eq!(c.username(), &b"alice".to_vec());
    assert_eq!(c.ip(), 0x7f000001);
    assert_eq!(c.port(), 8080);
    assert!(c.conn().open);
}

#[test]
fn send_frames_the_payload_and_fails_only_when_closed() {
    let mut c = client(1, "a");
    assert_eq!(c.send(&b"hi".to_vec()), Ok(()));
    assert_eq!(c.conn.sent, vec![104u8, 105u8, 0u8]);
    c.close();
    assert_eq!(c.send(&b"again".to_vec()), Err(TransportError::Closed));
    assert_eq!(c.conn.sent, vec![104u8, 105u8, 0u8]);
}

#[test]
fn recv_takes_one_frame_from_the_session_input() {
    let c = client(4, "d");
    let mut input = vec![104u8, 105u8, 0u8, 33u8];
    assert_eq!(c.recv(&mut input), Some(vec![104u8, 105u8]));
    assert_eq!(input, vec![33u8]);
    assert_eq!(c.recv(&mut input), None);
    assert_eq!(input, vec![33u8]);
}

#[test]
fn short_write_is_a_transport_error() {
    assert_eq!(check_full_write(5, 5), Ok(()));
    assert_eq!(check_full_write(5, 3), Err(TransportError::ShortWrite));
}

#[test]
fn remove_after_remove_is_a_no_op() {
    // Insert a handle, remove its identifier twice: the second
    // removal does nothing, and no snapshot visits the handle again.
    let mut reg = Registry::new();
    reg.insert(client(7, "alice"));
    let first = reg.remove(7);
    assert!(first.is_some());
    assert_eq!(first.unwrap().id(), 7);
    let second = reg.remove(7);
    assert!(second.is_none());
    assert_eq!(reg.len(), 0);
    assert!(!reg.snapshot_ids().contains(&7));
}

#[test]
fn remove_keeps_the_other_handles_in_order() {
    let mut reg = Registry::new();
    reg.insert(client(1, "a"));
    reg.insert(client(2, "b"));
    reg.insert(client(3, "c"));
    let gone = reg.remove(2);
    assert_eq!(gone.unwrap().id(), 2);
    assert_eq!(reg.snapshot_ids(), vec![1, 3]);
    assert_eq!(reg.find_index(3), Some(1));
    assert_eq!(reg.find_index(2), None);
}

#[test]
fn broadcast_reaches_every_open_handle() {
    let mut reg = Registry::new();
    reg.insert(client(1, "a"));
    reg.insert(client(2, "b"));
    let failures = reg.broadcast(&b"hey".to_vec());
    assert_eq!(failures, 0);
    for c in reg.clients.iter() {
        assert_eq!(c.conn.sent, vec![104u8, 101u8, 121u8, 0u8]);
    }
}

#[test]
fn one_dead_peer_does_not_block_the_rest() {
    // Three registered handles, one of them already closed: the
    // broadcast reports exactly one failure and delivers to the
    // other two.
    let mut reg = Registry::new();
    reg.insert(client(1, "a"));
    let mut dead = client(2, "b");
    dead.close();
    reg.insert(dead);
    reg.insert(client(3, "c"));
    let failures = reg.broadcast(&b"x".to_vec());
    assert_eq!(failures, 1);
    assert_eq!(reg.clients[0].conn.sent, vec![120u8, 0u8]);
    assert_eq!(reg.clients[1].conn.sent, Vec::<u8>::new());
    assert_eq!(reg.clients[2].conn.sent, vec![120u8, 0u8]);
    assert_eq!(reg.len(), 3);
}
