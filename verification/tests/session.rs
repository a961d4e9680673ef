use tcp_core::codec::encode;
use tcp_core::codec::take_frame;
use tcp_core::conn::Connection;
use tcp_core::registry::Client;
use tcp_core::session::Hub;
use tcp_core::session::greeting;
use tcp_core::session::handle_connection;
use tcp_core::session::parse_username;
use tcp_core::session::session_disconnect;
use tcp_core::session::session_greet;
use tcp_core::session::session_handshake;
use tcp_core::session::session_message;

fn conn() -> Connection {
    Connection::new(0x7f000001, 4000)
}

/// Reads the framed messages out of a handle's outbound bytes.
fn frames_of(sent: &[u8]) -> Vec<Vec<u8>> {
    let mut buf = sent.to_vec();
    let mut out = Vec::new();
    while let Some(p) = take_frame(&mut buf) {
        out.push(p);
    }
    assert!(buf.is_empty());
    out
}

#[test]
fn greeting_is_the_fixed_literal() {
    assert_eq!(greeting(), b"Connected to the server!".to_vec());
}

#[test]
fn parse_username_takes_the_suffix_after_the_prefix() {
    let name = parse_username(&b"username: alice".to_vec(), 3);
    assert_eq!(name, b"alice".to_vec());
}

#[test]
fn parse_username_generates_a_default_otherwise() {
    assert_eq!(parse_username(&b"hello".to_vec(), 0), b"user0".to_vec());
    assert_eq!(parse_username(&b"hello".to_vec(), 7), b"user7".to_vec());
    assert_eq!(parse_username(&b"usernames".to_vec(), 42), b"user42".to_vec());
    assert_eq!(parse_username(&Vec::new(), 105), b"user105".to_vec());
}

#[test]
fn greet_writes_the_greeting_frame() {
    let mut c = conn();
    assert!(session_greet(&mut c).is_ok());
    assert_eq!(c.sent, encode(&greeting()));
}

#[test]
fn greet_fails_on_a_closed_connection() {
    let mut c = conn();
    c.close();
    assert!(session_greet(&mut c).is_err());
    assert!(c.sent.is_empty());
}

#[test]
fn handshake_registers_the_chosen_name() {
    let mut hub = Hub::new();
    let mut input = encode(&b"username: alice".to_vec());
    let sid = session_handshake(&mut hub, conn(), &mut input);
    assert_eq!(sid, Some(0));
    assert_eq!(hub.registry.len(), 1);
    assert_eq!(hub.registry.clients[0].username(), &b"alice".to_vec());
    assert_eq!(hub.gen.next, 1);
    assert!(input.is_empty());
}

#[test]
fn handshake_generates_a_default_name() {
    let mut hub = Hub::new();
    let mut input = encode(&b"hi".to_vec());
    let sid = session_handshake(&mut hub, conn(), &mut input);
    // The default name consumes one identifier, the handle the next.
    assert_eq!(sid, Some(1));
    assert_eq!(hub.registry.clients[0].username(), &b"user0".to_vec());
    assert_eq!(hub.gen.next, 2);
}

#[test]
fn handshake_registers_nothing_when_the_peer_says_nothing() {
    let mut hub = Hub::new();
    let mut input: Vec<u8> = Vec::new();
    assert_eq!(session_handshake(&mut hub, conn(), &mut input), None);
    assert_eq!(hub.registry.len(), 0);
    assert_eq!(hub.gen.next, 0);
    let mut empty_first = encode(&Vec::new());
    assert_eq!(session_handshake(&mut hub, conn(), &mut empty_first), None);
    assert_eq!(hub.registry.len(), 0);
}

#[test]
fn message_is_broadcast_with_attribution() {
    // Client A registers as alice, client B as bob; A says hello;
    // B's next decoded message is the broadcast attributed to alice.
    let mut hub = Hub::new();
    let mut a_conn = conn();
    assert!(session_greet(&mut a_conn).is_ok());
    let mut a_input = encode(&b"username: alice".to_vec());
    let a = session_handshake(&mut hub, a_conn, &mut a_input).unwrap();
    let mut b_conn = conn();
    assert!(session_greet(&mut b_conn).is_ok());
    let mut b_input = encode(&b"username: bob".to_vec());
    let _b = session_handshake(&mut hub, b_conn, &mut b_input).unwrap();

    let failures = session_message(&mut hub, a, &b"hello".to_vec());
    assert_eq!(failures, 0);

    let b_frames = frames_of(&hub.registry.clients[1].conn.sent);
    assert_eq!(b_frames.len(), 2);
    assert_eq!(b_frames[0], greeting());
    assert_eq!(b_frames[1], b"( alice )hello".to_vec());
    // The sender hears its own broadcast too.
    let a_frames = frames_of(&hub.registry.clients[0].conn.sent);
    assert_eq!(a_frames[1], b"( alice )hello".to_vec());
}

#[test]
fn disconnect_removes_once_then_closes() {
    let mut hub = Hub::new();
    let mut a_input = encode(&b"username: alice".to_vec());
    let a = session_handshake(&mut hub, conn(), &mut a_input).unwrap();
    let departed: Option<Client> = session_disconnect(&mut hub, a);
    let departed = departed.unwrap();
    assert_eq!(departed.id(), a);
    assert!(!departed.conn().open);
    assert_eq!(hub.registry.len(), 0);
    assert!(session_disconnect(&mut hub, a).is_none());
}

#[test]
fn whole_session_echoes_and_cleans_up() {
    let mut hub = Hub::new();
    let mut input = encode(&b"username: alice".to_vec());
    input.extend_from_slice(&encode(&b"hi there".to_vec()));
    let departed = handle_connection(&mut hub, conn(), input).unwrap();
    assert_eq!(departed.username(), &b"alice".to_vec());
    assert!(!departed.conn().open);
    let frames = frames_of(&departed.conn().sent);
    assert_eq!(frames.len(), 2);
    assert_eq!(frames[0], greeting());
    assert_eq!(frames[1], b"( alice )hi there".to_vec());
    assert_eq!(hub.registry.len(), 0);
}

#[test]
fn immediate_disconnect_never_registers() {
    // The peer connects and leaves without sending anything: the
    // registry never holds an entry for it.
    let mut hub = Hub::new();
    let r = handle_connection(&mut hub, conn(), Vec::new());
    assert!(r.is_none());
    assert_eq!(hub.registry.len(), 0);
    assert_eq!(hub.gen.next, 0);
}

#[test]
fn closed_connection_aborts_before_registration() {
    let mut hub = Hub::new();
    let mut dead = conn();
    dead.close();
    let input = encode(&b"username: alice".to_vec());
    let r = handle_connection(&mut hub, dead, input);
    assert!(r.is_none());
    assert_eq!(hub.registry.len(), 0);
}

#[test]
fn broadcasts_skip_nobody_across_sessions() {
    // Two registered listeners; a third connection runs a whole
    // session and both listeners receive its attributed message.
    let mut hub = Hub::new();
    let mut a_input = encode(&b"username: alice".to_vec());
    session_handshake(&mut hub, conn(), &mut a_input).unwrap();
    let mut b_input = encode(&b"username: bob".to_vec());
    session_handshake(&mut hub, conn(), &mut b_input).unwrap();

    let mut input = encode(&b"username: carol".to_vec());
    input.extend_from_slice(&encode(&b"hi".to_vec()));
    handle_connection(&mut hub, conn(), input).unwrap();

    assert_eq!(hub.registry.len(), 2);
    for c in hub.registry.clients.iter() {
        let frames = frames_of(&c.conn.sent);
        assert_eq!(frames.last().unwrap(), &b"( carol )hi".to_vec());
    }
}
