//! The per-connection session: handshake, receive loop, broadcast
//! dispatch, cleanup.
//!
//! A session moves through `Connecting -> Handshaking -> Active ->
//! Closing -> Closed`.  On accept the server sends a fixed greeting;
//! the first decoded message chooses the display name (`"username: "`
//! followed by the name, or a generated `user<N>` default); every
//! later non-empty message is relayed to all registered handles,
//! attributed to the sender as `( name )message`; a zero-length read
//! or transport error closes the session, which removes its own
//! identifier from the registry exactly once and then closes the
//! connection, in that order.
//!
//! The bytes the peer sends are the session's input, a byte sequence
//! the session decodes frame by frame; the write sides of all
//! connections live in the shared registry.

use crate::codec::SENTINEL;
use crate::codec::contains_sentinel;
use crate::codec::frame_rest;
use crate::codec::lemma_msg_len_spec;
use crate::codec::msg_of;
use crate::codec::take_frame;
use crate::conn::Connection;
use crate::conn::ConnectionView;
use crate::conn::TransportError;
use crate::ids::IdGen;
use crate::ids::get_id;
use crate::registry::Client;
use crate::registry::ClientView;
use crate::registry::Registry;
use crate::registry::broadcast_spec;
use crate::registry::closed_count;
use crate::registry::contains_id;
use crate::registry::deliver;
use crate::registry::unique_ids;
use crate::registry::view_opt;
use vstd::prelude::*;

verus! {

/// The server's shared state: the client registry and the identifier
/// source.
pub struct Hub {
    pub registry: Registry,
    pub gen: IdGen,
}

impl Hub {
    /// Well-formedness: identifiers are unique, and every registered
    /// identifier was drawn from the generator.
    pub open spec fn wf(self) -> bool {
        unique_ids(self.registry@) && forall|i: int|
            0 <= i < self.registry@.len() ==> (#[trigger] self.registry@[i]).id < self.gen.next
    }

    /// A freshly started server: nobody registered, no identifier
    /// drawn.
    pub fn new() -> (r: Hub)
        ensures
            r.wf(),
            r.registry@ == Seq::<ClientView>::empty(),
            r.gen.next == 0,
    {
        Hub { registry: Registry::new(), gen: IdGen::new() }
    }
}

/// The fixed greeting payload sent to every newly accepted
/// connection: the bytes of `"Connected to the server!"`.
pub open spec fn greeting_bytes() -> Seq<u8> {
    seq![
        67u8, 111u8, 110u8, 110u8, 101u8, 99u8, 116u8, 101u8, 100u8, 32u8, 116u8, 111u8, 32u8,
        116u8, 104u8, 101u8, 32u8, 115u8, 101u8, 114u8, 118u8, 101u8, 114u8, 33u8,
    ]
}

/// Builds the greeting payload.
pub fn greeting() -> (r: Vec<u8>)
    ensures
        r@ == greeting_bytes(),
{
    let mut r: Vec<u8> = Vec::new();
    r.push(67u8);
    r.push(111u8);
    r.push(110u8);
    r.push(110u8);
    r.push(101u8);
    r.push(99u8);
    r.push(116u8);
    r.push(101u8);
    r.push(100u8);
    r.push(32u8);
    r.push(116u8);
    r.push(111u8);
    r.push(32u8);
    r.push(116u8);
    r.push(104u8);
    r.push(101u8);
    r.push(32u8);
    r.push(115u8);
    r.push(101u8);
    r.push(114u8);
    r.push(118u8);
    r.push(101u8);
    r.push(114u8);
    r.push(33u8);
    proof {
        assert(r@ =~= greeting_bytes());
    }
    r
}

/// The handshake convention's prefix: the bytes of `"username: "`.
pub open spec fn username_prefix() -> Seq<u8> {
    seq![117u8, 115u8, 101u8, 114u8, 110u8, 97u8, 109u8, 101u8, 58u8, 32u8]
}

/// Builds the handshake prefix.
pub fn username_prefix_vec() -> (r: Vec<u8>)
    ensures
        r@ == username_prefix(),
{
    let mut r: Vec<u8> = Vec::new();
    r.push(117u8);
    r.push(115u8);
    r.push(101u8);
    r.push(114u8);
    r.push(110u8);
    r.push(97u8);
    r.push(109u8);
    r.push(101u8);
    r.push(58u8);
    r.push(32u8);
    proof {
        assert(r@ =~= username_prefix());
    }
    r
}

/// True when the first message follows the handshake convention and
/// so carries a chosen display name.
pub open spec fn wants_username(first: Seq<u8>) -> bool {
    first.len() >= username_prefix().len() && first.take(username_prefix().len() as int)
        == username_prefix()
}

/// The decimal digits of `n`, most significant first, as ASCII bytes.
pub open spec fn dec_digits(n: nat) -> Seq<u8>
    decreases n,
{
    if n < 10 {
        seq![(48 + n) as u8]
    } else {
        dec_digits(n / 10).push((48 + n % 10) as u8)
    }
}

/// The generated default display name `user<n>`.
pub open spec fn default_name(n: nat) -> Seq<u8> {
    seq![117u8, 115u8, 101u8, 114u8] + dec_digits(n)
}

/// The display name the handshake chooses from the first message:
/// the suffix after the prefix when the convention is followed, the
/// generated default `user<k>` otherwise, where `k` is the next
/// identifier at that moment.
pub open spec fn chosen_name(first: Seq<u8>, k: nat) -> Seq<u8> {
    if wants_username(first) {
        first.skip(username_prefix().len() as int)
    } else {
        default_name(k)
    }
}

/// The identifier the new handle receives: the generated default name
/// consumes one identifier of its own before the handle's is drawn.
pub open spec fn handshake_id(k: nat, first: Seq<u8>) -> nat {
    if wants_username(first) {
        k
    } else {
        k + 1
    }
}

/// The handle the handshake registers, given the next identifier `k`,
/// the first decoded message, and the connection's state at
/// registration.
pub open spec fn registered_view(k: nat, first: Seq<u8>, conn: ConnectionView) -> ClientView {
    ClientView {
        id: handshake_id(k, first) as usize,
        username: chosen_name(first, k),
        conn: conn,
    }
}

/// True when the session's input opens with a complete, non-empty
/// message: the condition under which the handshake registers a
/// handle at all.
pub open spec fn has_first_message(s: Seq<u8>) -> bool {
    contains_sentinel(s) && msg_of(s).len() > 0
}

/// Appends the decimal digits of `n` to `out`.
fn push_dec(out: &mut Vec<u8>, n: usize)
    ensures
        final(out)@ == old(out)@ + dec_digits(n as nat),
    decreases n,
{
    if n < 10 {
        out.push(48 + (n as u8));
        proof {
            assert(out@ =~= old(out)@ + dec_digits(n as nat));
        }
    } else {
        push_dec(out, n / 10);
        out.push(48 + ((n % 10) as u8));
        proof {
            assert(out@ =~= old(out)@ + dec_digits(n as nat));
        }
    }
}

/// Whether `data` starts with `pre`.
fn has_prefix(data: &Vec<u8>, pre: &Vec<u8>) -> (r: bool)
    ensures
        r <==> (data@.len() >= pre@.len() && data@.take(pre@.len() as int) == pre@),
{
    if data.len() < pre.len() {
        return false;
    }
    let mut i: usize = 0;
    while i < pre.len()
        invariant
            i <= pre.len(),
            pre@.len() <= data@.len(),
            forall|j: int| 0 <= j < i ==> data@[j] == pre@[j],
        decreases pre.len() - i,
    {
        if data[i] != pre[i] {
            proof {
                assert(data@.take(pre@.len() as int)[i as int] == data@[i as int]);
            }
            return false;
        }
        i = i + 1;
    }
    proof {
        assert(data@.take(pre@.len() as int) =~= pre@);
    }
    true
}

/// Copies a byte vector.
fn copy_bytes(src: &Vec<u8>) -> (r: Vec<u8>)
    ensures
        r@ == src@,
{
    let mut r: Vec<u8> = Vec::new();
    let mut i: usize = 0;
    while i < src.len()
        invariant
            i <= src.len(),
            r@ == src@.take(i as int),
        decreases src.len() - i,
    {
        r.push(src[i]);
        i = i + 1;
        proof {
            assert(src@.take(i as int) =~= src@.take(i - 1).push(src@[i - 1]));
        }
    }
    proof {
        assert(src@.take(src@.len() as int) =~= src@);
    }
    r
}

/// Chooses the display name from the first decoded message: the
/// suffix after `"username: "` when the convention is followed, the
/// generated default `user<fallback>` otherwise.
pub fn parse_username(payload: &Vec<u8>, fallback: usize) -> (r: Vec<u8>)
    ensures
        r@ == chosen_name(payload@, fallback as nat),
{
    let pre = username_prefix_vec();
    if has_prefix(payload, &pre) {
        let mut r: Vec<u8> = Vec::new();
        let mut i: usize = pre.len();
        while i < payload.len()
            invariant
                pre@.len() <= i <= payload.len(),
                pre@ == username_prefix(),
                r@ == payload@.subrange(pre@.len() as int, i as int),
            decreases payload.len() - i,
        {
            r.push(payload[i]);
            i = i + 1;
            proof {
                assert(payload@.subrange(pre@.len() as int, i as int) =~= payload@.subrange(
                    pre@.len() as int,
                    i - 1,
                ).push(payload@[i - 1]));
            }
        }
        proof {
            assert(r@ =~= chosen_name(payload@, fallback as nat));
        }
        r
    } else {
        let mut r: Vec<u8> = Vec::new();
        r.push(117u8);
        r.push(115u8);
        r.push(101u8);
        r.push(114u8);
        push_dec(&mut r, fallback);
        proof {
            assert(seq![117u8, 115u8, 101u8, 114u8] =~= Seq::<u8>::empty().push(117u8).push(
                115u8,
            ).push(101u8).push(114u8));
            assert(r@ =~= chosen_name(payload@, fallback as nat));
        }
        r
    }
}

/// `Connecting -> Handshaking`: sends the greeting to the new
/// connection.  A failed write is fatal to this session alone; it
/// aborts before anything is registered.
pub fn session_greet(conn: &mut Connection) -> (r: Result<(), TransportError>)
    ensures
        final(conn)@.open == old(conn)@.open,
        final(conn)@.peer_ip == old(conn)@.peer_ip,
        final(conn)@.peer_port == old(conn)@.peer_port,
        old(conn)@.open ==> r is Ok && final(conn)@.sent == old(conn)@.sent + greeting_bytes().push(
            SENTINEL,
        ),
        !old(conn)@.open ==> r is Err && final(conn)@.sent == old(conn)@.sent,
{
    let g = greeting();
    conn.send_frame(&g)
}

/// `Handshaking -> Active`, or straight to `Closed`: decodes the
/// session's first message.  When the input opens with a complete,
/// non-empty message, a handle is built (name from the handshake
/// convention, identifier freshly drawn) and registered, and its
/// identifier returned.  When the peer closed before sending a
/// complete non-empty message, nothing is drawn, nothing is
/// registered, and the hub is left exactly as it was.
pub fn session_handshake(hub: &mut Hub, conn: Connection, input: &mut Vec<u8>) -> (r: Option<
    usize,
>)
    requires
        old(hub).wf(),
        old(hub).gen.next + 1 < usize::MAX,
    ensures
        final(hub).wf(),
        has_first_message(old(input)@) ==> (r matches Some(sid) && ({
            let first = msg_of(old(input)@);
            let k = old(hub).gen.next as nat;
            sid == handshake_id(k, first) as usize && final(hub).gen.next == k + (
            if wants_username(first) {
                1nat
            } else {
                2nat
            }) && final(hub).registry@ == old(hub).registry@.push(
                registered_view(k, first, conn@),
            ) && final(input)@ == frame_rest(old(input)@)
        })),
        !has_first_message(old(input)@) ==> (r is None && final(hub).registry@ == old(
            hub,
        ).registry@ && final(hub).gen == old(hub).gen && final(input)@ == (
        if contains_sentinel(old(input)@) {
            frame_rest(old(input)@)
        } else {
            old(input)@
        })),
{
    let first = match take_frame(input) {
        None => {
            return None;
        },
        Some(p) => p,
    };
    if first.len() == 0 {
        return None;
    }
    let pre = username_prefix_vec();
    let named = has_prefix(&first, &pre);
    let username = parse_username(&first, hub.gen.next);
    let sid = if named {
        get_id(&mut hub.gen)
    } else {
        // the generated default name consumed the identifier the
        // fallback was built from; the handle draws the next one
        let _ = get_id(&mut hub.gen);
        get_id(&mut hub.gen)
    };
    let client = Client::new(sid, username, conn);
    proof {
        assert forall|i: int| 0 <= i < old(hub).registry@.len() implies (#[trigger] old(
            hub,
        ).registry@[i]).id != sid by {}
        assert(!contains_id(hub.registry@, client@.id));
    }
    hub.registry.insert(client);
    proof {
        let k = old(hub).gen.next as nat;
        let firstv = msg_of(old(input)@);
        assert(client@ == registered_view(k, firstv, conn@));
        assert forall|i: int| 0 <= i < hub.registry@.len() implies (#[trigger] hub.registry@[i]).id
            < hub.gen.next by {
            if i < old(hub).registry@.len() {
                assert(hub.registry@[i] == old(hub).registry@[i]);
            }
        }
    }
    Some(sid)
}

/// The broadcast payload for a message from a named sender: the
/// message prefixed with the sender's display name as `( name )`.
pub open spec fn attributed(name: Seq<u8>, payload: Seq<u8>) -> Seq<u8> {
    seq![40u8, 32u8] + name + seq![32u8, 41u8] + payload
}

/// Builds the attributed broadcast payload.
fn build_attributed(name: &Vec<u8>, payload: &Vec<u8>) -> (r: Vec<u8>)
    ensures
        r@ == attributed(name@, payload@),
{
    let mut r: Vec<u8> = Vec::new();
    r.push(40u8);
    r.push(32u8);
    let mut i: usize = 0;
    while i < name.len()
        invariant
            i <= name.len(),
            r@ == seq![40u8, 32u8] + name@.take(i as int),
        decreases name.len() - i,
    {
        r.push(name[i]);
        i = i + 1;
        proof {
            assert(name@.take(i as int) =~= name@.take(i - 1).push(name@[i - 1]));
            assert(r@ =~= seq![40u8, 32u8] + name@.take(i as int));
        }
    }
    proof {
        assert(name@.take(name@.len() as int) =~= name@);
    }
    r.push(32u8);
    r.push(41u8);
    let mut j: usize = 0;
    while j < payload.len()
        invariant
            j <= payload.len(),
            r@ == seq![40u8, 32u8] + name@ + seq![32u8, 41u8] + payload@.take(j as int),
        decreases payload.len() - j,
    {
        r.push(payload[j]);
        j = j + 1;
        proof {
            assert(payload@.take(j as int) =~= payload@.take(j - 1).push(payload@[j - 1]));
            assert(r@ =~= seq![40u8, 32u8] + name@ + seq![32u8, 41u8] + payload@.take(j as int));
        }
    }
    proof {
        assert(payload@.take(payload@.len() as int) =~= payload@);
        assert(r@ =~= attributed(name@, payload@));
    }
    r
}

/// `Active`, on a non-empty message: relays it to every currently
/// registered handle, attributed to the sender; a failed delivery to
/// one handle is counted, never propagated, so one dead peer cannot
/// block delivery to the rest.  Returns how many deliveries failed.
pub fn session_message(hub: &mut Hub, sender: usize, payload: &Vec<u8>) -> (failures: usize)
    requires
        old(hub).wf(),
        contains_id(old(hub).registry@, sender),
    ensures
        final(hub).wf(),
        final(hub).gen == old(hub).gen,
        exists|i: int|
            0 <= i < old(hub).registry@.len() && (#[trigger] old(hub).registry@[i]).id == sender
                && final(hub).registry@ == broadcast_spec(
                old(hub).registry@,
                attributed(old(hub).registry@[i].username, payload@),
            ),
        failures == closed_count(old(hub).registry@),
{
    let i = match hub.registry.find_index(sender) {
        Some(i) => i,
        None => {
            proof {
                assert(false);
            }
            0
        },
    };
    proof {
        assert(hub.registry@.len() == hub.registry.clients@.len());
    }
    let name = copy_bytes(&hub.registry.clients[i].username);
    proof {
        assert(hub.registry@[i as int] == hub.registry.clients@[i as int]@);
    }
    let msg = build_attributed(&name, payload);
    let failures = hub.registry.broadcast(&msg);
    proof {
        let pre = old(hub).registry@;
        let m = attributed(pre[i as int].username, payload@);
        assert(hub.registry@ == broadcast_spec(pre, m));
        assert forall|a: int| 0 <= a < hub.registry@.len() implies (#[trigger] hub.registry@[a]).id
            == pre[a].id by {
            assert(hub.registry@[a] == deliver(pre[a], m));
        }
        assert(unique_ids(hub.registry@));
        assert forall|a: int| 0 <= a < hub.registry@.len() implies (#[trigger] hub.registry@[a]).id
            < hub.gen.next by {
            assert(hub.registry@[a].id == pre[a].id);
        }
    }
    failures
}

/// `Closing -> Closed`: removes this session's identifier from the
/// registry exactly once, then closes the connection — removal first,
/// close second, so the order of cleanup is deterministic.  Calling
/// it when the identifier is absent does nothing and returns nothing.
pub fn session_disconnect(hub: &mut Hub, sid: usize) -> (r: Option<Client>)
    requires
        old(hub).wf(),
    ensures
        final(hub).wf(),
        final(hub).gen == old(hub).gen,
        !contains_id(final(hub).registry@, sid),
        contains_id(old(hub).registry@, sid) ==> (r matches Some(c) && exists|i: int|
            0 <= i < old(hub).registry@.len() && (#[trigger] old(hub).registry@[i]).id == sid
                && final(hub).registry@ == old(hub).registry@.remove(i) && c@.id == old(
                hub,
            ).registry@[i].id && c@.username == old(hub).registry@[i].username && !c@.conn.open
                && c@.conn.sent == old(hub).registry@[i].conn.sent && c@.conn.peer_ip == old(
                hub,
            ).registry@[i].conn.peer_ip && c@.conn.peer_port == old(
                hub,
            ).registry@[i].conn.peer_port),
        !contains_id(old(hub).registry@, sid) ==> r is None && final(hub).registry@ == old(
            hub,
        ).registry@,
{
    let removed = hub.registry.remove(sid);
    proof {
        assert forall|a: int| 0 <= a < hub.registry@.len() implies (#[trigger] hub.registry@[a]).id
            < hub.gen.next by {
            let pre = old(hub).registry@;
            if contains_id(pre, sid) {
                let i = choose|i: int|
                    0 <= i < pre.len() && (#[trigger] pre[i]).id == sid && view_opt(removed)
                        == Some(pre[i]) && hub.registry@ == pre.remove(i);
                pre.remove_ensures(i);
                if a < i {
                    assert(hub.registry@[a] == pre[a]);
                } else {
                    assert(hub.registry@[a] == pre[a + 1]);
                }
            }
        }
    }
    match removed {
        Some(mut c) => {
            c.close();
            Some(c)
        },
        None => None,
    }
}

/// The messages an active session consumes from its input: one per
/// complete frame, stopping at the first empty message (orderly
/// disconnect) or at an incomplete frame (the peer is gone).
pub open spec fn session_frames(s: Seq<u8>) -> Seq<Seq<u8>>
    decreases s.len(),
    via session_frames_dec
{
    if !contains_sentinel(s) || msg_of(s).len() == 0 {
        Seq::empty()
    } else {
        seq![msg_of(s)] + session_frames(frame_rest(s))
    }
}

#[via_fn]
proof fn session_frames_dec(s: Seq<u8>) {
    if contains_sentinel(s) && msg_of(s).len() > 0 {
        lemma_msg_len_spec(s);
    }
}

/// The registry after one sender's messages have each been broadcast
/// to every handle, oldest message first.
pub open spec fn run_frames(
    s: Seq<ClientView>,
    name: Seq<u8>,
    frames: Seq<Seq<u8>>,
) -> Seq<ClientView>
    decreases frames.len(),
{
    if frames.len() == 0 {
        s
    } else {
        run_frames(broadcast_spec(s, attributed(name, frames[0])), name, frames.drop_first())
    }
}

/// One whole session, `Connecting` to `Closed`: greet the new
/// connection; decode the first message and register a handle; relay
/// every later non-empty message to all registered handles; and when
/// the peer is done, remove the handle and close its connection.
/// `input` is the byte stream the peer sends over the session's
/// lifetime.  Returns the departed handle — connection closed, its
/// outbound bytes those of the whole session — or `None` when the
/// session ended before anything was registered, in which case the
/// registry is exactly as it was.
pub fn handle_connection(hub: &mut Hub, conn: Connection, input: Vec<u8>) -> (r: Option<Client>)
    requires
        old(hub).wf(),
        old(hub).gen.next + 1 < usize::MAX,
    ensures
        final(hub).wf(),
        !conn@.open ==> r is None && final(hub).registry@ == old(hub).registry@ && final(hub).gen
            == old(hub).gen,
        (conn@.open && !has_first_message(input@)) ==> r is None && final(hub).registry@ == old(
            hub,
        ).registry@ && final(hub).gen == old(hub).gen,
        (conn@.open && has_first_message(input@)) ==> (r matches Some(c) && ({
            let first = msg_of(input@);
            let k = old(hub).gen.next as nat;
            let name = chosen_name(first, k);
            let greeted = ConnectionView {
                open: true,
                peer_ip: conn@.peer_ip,
                peer_port: conn@.peer_port,
                sent: conn@.sent + greeting_bytes().push(SENTINEL),
            };
            let s1 = old(hub).registry@.push(registered_view(k, first, greeted));
            let stream = run_frames(s1, name, session_frames(frame_rest(input@)));
            let n0 = old(hub).registry@.len() as int;
            c@.id == handshake_id(k, first) as usize && c@.username == name && !c@.conn.open
                && c@.conn.sent == stream[n0].conn.sent && final(hub).registry@ == stream.remove(
                n0,
            ) && final(hub).gen.next == k + (if wants_username(first) {
                1nat
            } else {
                2nat
            })
        })),
{
    let ghost conn0 = conn@;
    let ghost input0 = input@;
    let mut conn = conn;
    let mut input = input;
    if session_greet(&mut conn).is_err() {
        return None;
    }
    let ghost greetedv = conn@;
    let ghost k = hub.gen.next as nat;
    let ghost first = msg_of(input0);
    let sid = match session_handshake(hub, conn, &mut input) {
        None => {
            return None;
        },
        Some(sid) => sid,
    };
    let ghost gen1 = hub.gen;
    let ghost s1 = hub.registry@;
    let ghost name = chosen_name(first, k);
    let ghost n0 = old(hub).registry@.len() as int;
    let ghost rest0 = input@;
    proof {
        assert(greetedv == ConnectionView {
            open: true,
            peer_ip: conn0.peer_ip,
            peer_port: conn0.peer_port,
            sent: conn0.sent + greeting_bytes().push(SENTINEL),
        });
        assert(s1 == old(hub).registry@.push(registered_view(k, first, greetedv)));
        assert(s1[n0] == registered_view(k, first, greetedv));
        assert(rest0 == frame_rest(input0));
    }
    loop
        invariant_except_break
            hub.wf(),
            hub.gen == gen1,
            hub.registry@.len() == n0 + 1,
            0 <= n0 < hub.registry@.len(),
            hub.registry@[n0].id == sid,
            hub.registry@[n0].username == name,
            run_frames(s1, name, session_frames(rest0)) == run_frames(
                hub.registry@,
                name,
                session_frames(input@),
            ),
        ensures
            hub.wf(),
            hub.gen == gen1,
            hub.registry@.len() == n0 + 1,
            0 <= n0 < hub.registry@.len(),
            hub.registry@[n0].id == sid,
            hub.registry@[n0].username == name,
            hub.registry@ == run_frames(s1, name, session_frames(rest0)),
        decreases input@.len(),
    {
        let ghost inpre = input@;
        let got = take_frame(&mut input);
        match got {
            None => {
                proof {
                    assert(session_frames(inpre) =~= Seq::<Seq<u8>>::empty());
                }
                break;
            },
            Some(payload) => {
                if payload.len() == 0 {
                    proof {
                        assert(msg_of(inpre).len() == 0);
                        assert(session_frames(inpre) =~= Seq::<Seq<u8>>::empty());
                    }
                    break;
                }
                let ghost regpre = hub.registry@;
                proof {
                    assert(contains_id(regpre, sid));
                }
                let _failures = session_message(hub, sid, &payload);
                proof {
                    let i = choose|i: int|
                        0 <= i < regpre.len() && (#[trigger] regpre[i]).id == sid && hub.registry@
                            == broadcast_spec(regpre, attributed(regpre[i].username, payload@));
                    assert(i == n0);
                    let m = attributed(name, payload@);
                    assert(hub.registry@ == broadcast_spec(regpre, m));
                    assert(payload@ == msg_of(inpre));
                    assert(input@ == frame_rest(inpre));
                    let fs = session_frames(input@);
                    assert(session_frames(inpre) == seq![msg_of(inpre)] + fs);
                    assert((seq![msg_of(inpre)] + fs)[0] == msg_of(inpre));
                    assert((seq![msg_of(inpre)] + fs).drop_first() =~= fs);
                    assert(run_frames(regpre, name, session_frames(inpre)) == run_frames(
                        broadcast_spec(regpre, m),
                        name,
                        fs,
                    ));
                    assert(hub.registry@[n0] == deliver(regpre[n0], m));
                    lemma_msg_len_spec(inpre);
                }
            },
        }
    }
    let ghost regend = hub.registry@;
    proof {
        assert(contains_id(regend, sid));
    }
    let r = session_disconnect(hub, sid);
    match &r {
        Some(c) => {
            proof {
                let i = choose|i: int|
                    0 <= i < regend.len() && (#[trigger] regend[i]).id == sid && hub.registry@
                        == regend.remove(i) && c@.id == regend[i].id && c@.username
                        == regend[i].username && !c@.conn.open && c@.conn.sent
                        == regend[i].conn.sent && c@.conn.peer_ip == regend[i].conn.peer_ip
                        && c@.conn.peer_port == regend[i].conn.peer_port;
                assert(i == n0);
            }
        },
        None => {
            proof {
                assert(false);
            }
        },
    }
    r
}

} // verus!
