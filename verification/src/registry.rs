//! Client handles and the shared registry of connected clients.
//!
//! The registry is the only state shared across sessions.  Callers
//! reach it through `insert`, `remove` and `broadcast` alone; the lock
//! that serializes structural mutation against broadcast traversal
//! belongs to the layer that owns the real sockets, which calls these
//! operations one at a time.  An identifier appears at most once, and
//! a failed delivery to one handle never disturbs the others.

use crate::codec::SENTINEL;
use crate::conn::Connection;
use crate::conn::ConnectionView;
use crate::conn::TransportError;
use crate::ids::IdGen;
use vstd::prelude::*;

verus! {

/// The mathematical value of a [`Client`].
pub struct ClientView {
    pub id: usize,
    pub username: Seq<u8>,
    pub conn: ConnectionView,
}

/// One connected peer: a process-unique identifier, a display name,
/// and the write side of its connection.
pub struct Client {
    /// Process-unique identifier, never reused.
    pub id: usize,
    /// Display name, chosen during the handshake.
    pub username: Vec<u8>,
    /// The write side of the peer's connection.
    pub conn: Connection,
}

impl View for Client {
    type V = ClientView;

    open spec fn view(&self) -> ClientView {
        ClientView { id: self.id, username: self.username@, conn: self.conn@ }
    }
}

impl Client {
    /// Builds a handle from its parts.
    pub fn new(id: usize, username: Vec<u8>, conn: Connection) -> (r: Client)
        ensures
            r@.id == id,
            r@.username == username@,
            r@.conn == conn@,
    {
        Client { id, username, conn }
    }

    /// Draws a fresh identifier for a handle.
    pub fn gen_id(gen: &mut IdGen) -> (id: usize)
        requires
            old(gen).next < usize::MAX,
        ensures
            id == old(gen).next,
            final(gen).next == old(gen).next + 1,
    {
        crate::ids::get_id(gen)
    }

    /// The handle's identifier.
    pub fn id(&self) -> (r: usize)
        ensures
            r == self@.id,
    {
        self.id
    }

    /// The handle's display name.
    pub fn username(&self) -> (r: &Vec<u8>)
        ensures
            r@ == self@.username,
    {
        &self.username
    }

    /// The peer's IPv4 address.
    pub fn ip(&self) -> (r: u32)
        ensures
            r == self@.conn.peer_ip,
    {
        self.conn.peer_ip
    }

    /// The peer's port.
    pub fn port(&self) -> (r: u16)
        ensures
            r == self@.conn.peer_port,
    {
        self.conn.peer_port
    }

    /// The write side of the peer's connection.
    pub fn conn(&self) -> (r: &Connection)
        ensures
            r@ == self@.conn,
    {
        &self.conn
    }

    /// Sends one framed message to this peer; fails, changing nothing
    /// but reporting the error, exactly when the connection is closed.
    pub fn send(&mut self, payload: &Vec<u8>) -> (r: Result<(), TransportError>)
        ensures
            final(self)@.id == old(self)@.id,
            final(self)@.username == old(self)@.username,
            final(self)@.conn.open == old(self)@.conn.open,
            final(self)@.conn.peer_ip == old(self)@.conn.peer_ip,
            final(self)@.conn.peer_port == old(self)@.conn.peer_port,
            old(self)@.conn.open ==> r is Ok
                && final(self)@.conn.sent == old(self)@.conn.sent + payload@.push(SENTINEL),
            !old(self)@.conn.open ==> r is Err
                && final(self)@.conn.sent == old(self)@.conn.sent,
    {
        self.conn.send_frame(payload)
    }

    /// Reads the next complete message this peer has sent: the first
    /// frame of `input`, the session-owned stream of bytes received
    /// from the peer.  Returns `None` while no complete frame has
    /// arrived.
    pub fn recv(&self, input: &mut Vec<u8>) -> (r: Option<Vec<u8>>)
        ensures
            crate::codec::contains_sentinel(old(input)@) ==> (r matches Some(p) && p@
                == crate::codec::msg_of(old(input)@) && final(input)@ == crate::codec::frame_rest(
                old(input)@,
            )),
            !crate::codec::contains_sentinel(old(input)@) ==> r is None && final(input)@ == old(
                input,
            )@,
    {
        crate::codec::take_frame(input)
    }

    /// Closes the handle's connection.
    pub fn close(&mut self)
        ensures
            final(self)@.id == old(self)@.id,
            final(self)@.username == old(self)@.username,
            !final(self)@.conn.open,
            final(self)@.conn.peer_ip == old(self)@.conn.peer_ip,
            final(self)@.conn.peer_port == old(self)@.conn.peer_port,
            final(self)@.conn.sent == old(self)@.conn.sent,
    {
        self.conn.close()
    }
}

/// No identifier appears twice.
pub open spec fn unique_ids(s: Seq<ClientView>) -> bool {
    forall|i: int, j: int| 0 <= i < j < s.len() ==> s[i].id != s[j].id
}

/// Some handle carries this identifier.
pub open spec fn contains_id(s: Seq<ClientView>, id: usize) -> bool {
    exists|i: int| 0 <= i < s.len() && s[i].id == id
}

/// What removal does: when the identifier is present, exactly its
/// handle leaves (positions of the others keep their order) and is
/// returned; when it is absent, nothing changes and nothing is
/// returned.
pub open spec fn remove_rel(
    pre: Seq<ClientView>,
    id: usize,
    post: Seq<ClientView>,
    r: Option<ClientView>,
) -> bool {
    if contains_id(pre, id) {
        exists|i: int|
            0 <= i < pre.len() && (#[trigger] pre[i]).id == id && r == Some(pre[i]) && post
                == pre.remove(i)
    } else {
        r is None && post == pre
    }
}

/// What one delivery does to a handle: an open connection gets the
/// framed message appended to its outbound bytes; a closed one is left
/// exactly as it was.
pub open spec fn deliver(c: ClientView, msg: Seq<u8>) -> ClientView {
    if c.conn.open {
        ClientView {
            conn: ConnectionView { sent: c.conn.sent + msg.push(SENTINEL), ..c.conn },
            ..c
        }
    } else {
        c
    }
}

/// What a broadcast does: every handle receives one delivery attempt,
/// in registry order, and none is added or removed.
pub open spec fn broadcast_spec(s: Seq<ClientView>, msg: Seq<u8>) -> Seq<ClientView> {
    s.map_values(|c: ClientView| deliver(c, msg))
}

/// How many handles hold a closed connection: the number of failures a
/// broadcast reports.
pub open spec fn closed_count(s: Seq<ClientView>) -> nat
    decreases s.len(),
{
    if s.len() == 0 {
        0
    } else {
        closed_count(s.drop_last()) + if s.last().conn.open {
            0nat
        } else {
            1nat
        }
    }
}

/// The shared registry: a collection of client handles, at most one
/// per identifier.
pub struct Registry {
    /// The registered handles, in insertion order.
    pub clients: Vec<Client>,
}

impl View for Registry {
    type V = Seq<ClientView>;

    open spec fn view(&self) -> Seq<ClientView> {
        self.clients@.map_values(|c: Client| c@)
    }
}

impl Registry {
    /// An empty registry.
    pub fn new() -> (r: Registry)
        ensures
            r@ == Seq::<ClientView>::empty(),
            unique_ids(r@),
    {
        let r = Registry { clients: Vec::new() };
        proof {
            assert(r@ =~= Seq::<ClientView>::empty());
        }
        r
    }

    /// How many handles are registered.
    pub fn len(&self) -> (r: usize)
        ensures
            r == self@.len(),
    {
        self.clients.len()
    }

    /// Registers a handle.  The caller guarantees the identifier is
    /// not already present; a duplicate insertion is a caller bug.
    pub fn insert(&mut self, c: Client)
        requires
            !contains_id(old(self)@, c@.id),
        ensures
            final(self)@ == old(self)@.push(c@),
            unique_ids(old(self)@) ==> unique_ids(final(self)@),
    {
        self.clients.push(c);
        proof {
            assert(self@ =~= old(self)@.push(c@));
            if unique_ids(old(self)@) {
                assert forall|i: int, j: int|
                    0 <= i < j < self@.len() implies self@[i].id != self@[j].id by {
                    if j == self@.len() - 1 {
                        assert(self@[i] == old(self)@[i]);
                    }
                }
            }
        }
    }

    /// Removes and returns the handle carrying `id` when it is
    /// present; a no-op returning nothing when it is absent, so a
    /// second removal of the same identifier is safe.
    pub fn remove(&mut self, id: usize) -> (r: Option<Client>)
        requires
            unique_ids(old(self)@),
        ensures
            remove_rel(old(self)@, id, final(self)@, view_opt(r)),
            unique_ids(final(self)@),
            !contains_id(final(self)@, id),
    {
        let ghost pre = self@;
        let mut i: usize = 0;
        while i < self.clients.len()
            invariant
                i <= self.clients@.len(),
                pre == self@,
                pre == old(self)@,
                unique_ids(pre),
                forall|j: int| 0 <= j < i ==> pre[j].id != id,
            decreases self.clients@.len() - i,
        {
            if self.clients[i].id == id {
                let ghost cur = self.clients@;
                proof {
                    assert(pre[i as int] == cur[i as int]@);
                    assert(pre[i as int].id == id);
                    assert(contains_id(pre, id));
                }
                let c = self.clients.remove(i);
                proof {
                    cur.remove_ensures(i as int);
                    pre.remove_ensures(i as int);
                    assert forall|a: int| 0 <= a < self@.len() implies #[trigger] self@[a]
                        == pre.remove(i as int)[a] by {
                        assert(self@[a] == cur.remove(i as int)[a]@);
                        if a < i {
                            assert(cur.remove(i as int)[a] == cur[a]);
                            assert(pre.remove(i as int)[a] == pre[a]);
                        } else {
                            assert(cur.remove(i as int)[a] == cur[a + 1]);
                            assert(pre.remove(i as int)[a] == pre[a + 1]);
                        }
                    }
                    assert(self@ =~= pre.remove(i as int));
                    assert(c@ == pre[i as int]);
                    assert(remove_rel(pre, id, self@, view_opt(Some(c))));
                    assert forall|a: int, b: int|
                        0 <= a < b < self@.len() implies self@[a].id != self@[b].id by {
                        let pa: int = if a < i { a } else { a + 1 };
                        let pb: int = if b < i { b } else { b + 1 };
                        assert(pre.remove(i as int)[a] == pre[pa]);
                        assert(pre.remove(i as int)[b] == pre[pb]);
                        assert(self@[a] == pre[pa]);
                        assert(self@[b] == pre[pb]);
                    }
                    assert forall|a: int| 0 <= a < self@.len() implies (#[trigger] self@[a]).id
                        != id by {
                        let pa: int = if a < i { a } else { a + 1 };
                        assert(pre.remove(i as int)[a] == pre[pa]);
                        assert(self@[a] == pre[pa]);
                        assert(pre[pa].id != pre[i as int].id);
                    }
                }
                return Some(c);
            }
            i = i + 1;
        }
        proof {
            assert(!contains_id(pre, id));
        }
        None
    }

    /// Where the handle carrying `id` stands, if anywhere.
    pub fn find_index(&self, id: usize) -> (r: Option<usize>)
        ensures
            r matches Some(i) ==> i < self@.len() && self@[i as int].id == id,
            r is None ==> !contains_id(self@, id),
    {
        let mut i: usize = 0;
        while i < self.clients.len()
            invariant
                i <= self.clients@.len(),
                forall|j: int| 0 <= j < i ==> (#[trigger] self@[j]).id != id,
            decreases self.clients@.len() - i,
        {
            if self.clients[i].id == id {
                proof {
                    assert(self@[i as int] == self.clients@[i as int]@);
                }
                return Some(i);
            }
            proof {
                assert(self@[i as int] == self.clients@[i as int]@);
            }
            i = i + 1;
        }
        None
    }

    /// A consistent snapshot of the registered identifiers, in
    /// registry order, for traversal without holding the registry.
    pub fn snapshot_ids(&self) -> (r: Vec<usize>)
        ensures
            r@.len() == self@.len(),
            forall|i: int| 0 <= i < r@.len() ==> r@[i] == self@[i].id,
    {
        let mut r: Vec<usize> = Vec::new();
        let mut i: usize = 0;
        while i < self.clients.len()
            invariant
                i <= self.clients@.len(),
                r@.len() == i,
                forall|j: int| 0 <= j < i ==> r@[j] == self@[j].id,
            decreases self.clients@.len() - i,
        {
            r.push(self.clients[i].id);
            i = i + 1;
        }
        r
    }

    /// Delivers one message to every currently registered handle: each
    /// open connection receives the framed message, each closed one is
    /// left untouched, and the number of failed deliveries is
    /// returned.  One dead peer never blocks delivery to the rest.
    pub fn broadcast(&mut self, msg: &Vec<u8>) -> (failures: usize)
        ensures
            final(self)@ == broadcast_spec(old(self)@, msg@),
            failures == closed_count(old(self)@),
    {
        let ghost pre = self@;
        let mut done: Vec<Client> = Vec::new();
        let mut failures: usize = 0;
        let mut i: usize = 0;
        let n = self.clients.len();
        while i < n
            invariant
                i <= n,
                n == pre.len(),
                self.clients@.len() == n - i,
                forall|j: int| 0 <= j < n - i ==> self.clients@[j]@ == pre[j + i],
                done@.len() == i,
                forall|j: int| 0 <= j < i ==> (#[trigger] done@[j])@ == deliver(pre[j], msg@),
                failures == closed_count(pre.take(i as int)),
                failures <= i,
            decreases n - i,
        {
            let ghost cur = self.clients@;
            let mut c = self.clients.remove(0);
            let sent = c.send(msg);
            if sent.is_err() {
                failures = failures + 1;
            }
            done.push(c);
            i = i + 1;
            proof {
                assert(pre.take(i as int).drop_last() =~= pre.take(i - 1));
                assert(pre.take(i as int).last() == pre[i - 1]);
                cur.remove_ensures(0);
                assert forall|j: int| 0 <= j < n - i implies self.clients@[j]@ == pre[j + i] by {
                    assert(self.clients@[j] == cur.remove(0)[j]);
                    assert(cur.remove(0)[j] == cur[j + 1]);
                }
                assert(c@ == deliver(pre[i - 1], msg@));
            }
        }
        self.clients = done;
        proof {
            assert(self@ =~= broadcast_spec(pre, msg@));
            assert(pre.take(pre.len() as int) =~= pre);
        }
        failures
    }
}

/// The view of an optional handle.
pub open spec fn view_opt(r: Option<Client>) -> Option<ClientView> {
    match r {
        Some(c) => Some(c@),
        None => None,
    }
}

/// Law (idempotent removal): insert a handle with a fresh identifier,
/// remove that identifier, and the handle comes back while the
/// registry returns to its old value; remove it again and nothing
/// happens; and no snapshot taken after the removal visits the handle.
pub proof fn lemma_remove_idempotent(
    pre: Seq<ClientView>,
    c: ClientView,
    s1: Seq<ClientView>,
    s2: Seq<ClientView>,
    r2: Option<ClientView>,
    s3: Seq<ClientView>,
    r3: Option<ClientView>,
)
    requires
        unique_ids(pre),
        !contains_id(pre, c.id),
        s1 == pre.push(c),
        remove_rel(s1, c.id, s2, r2),
        remove_rel(s2, c.id, s3, r3),
    ensures
        r2 == Some(c),
        s2 == pre,
        !contains_id(s2, c.id),
        r3 is None,
        s3 == s2,
        forall|i: int| 0 <= i < s2.len() ==> (#[trigger] s2[i]).id != c.id,
{
    assert(s1[pre.len() as int] == c);
    assert(contains_id(s1, c.id));
    let i = choose|i: int|
        0 <= i < s1.len() && (#[trigger] s1[i]).id == c.id && r2 == Some(s1[i]) && s2 == s1.remove(
            i,
        );
    assert(i == pre.len()) by {
        if i < pre.len() {
            assert(s1[i] == pre[i]);
            assert(contains_id(pre, c.id));
        }
    }
    assert(s2 =~= pre);
    assert(!contains_id(s2, c.id));
}

/// All connections open: a broadcast reports no failure.
pub proof fn lemma_closed_count_all_open(s: Seq<ClientView>)
    requires
        forall|i: int| 0 <= i < s.len() ==> (#[trigger] s[i]).conn.open,
    ensures
        closed_count(s) == 0,
    decreases s.len(),
{
    if s.len() > 0 {
        lemma_closed_count_all_open(s.drop_last());
    }
}

/// Law (broadcast isolation): among `N` registered handles exactly one
/// of which holds a dead connection, a broadcast reports exactly one
/// failure, delivers the framed message to each of the other `N - 1`
/// handles, and leaves the dead one untouched.
pub proof fn lemma_broadcast_isolation(s: Seq<ClientView>, msg: Seq<u8>, dead: int)
    requires
        0 <= dead < s.len(),
        !s[dead].conn.open,
        forall|i: int| 0 <= i < s.len() && i != dead ==> (#[trigger] s[i]).conn.open,
    ensures
        closed_count(s) == 1,
        broadcast_spec(s, msg).len() == s.len(),
        forall|i: int|
            0 <= i < s.len() && i != dead ==> (#[trigger] broadcast_spec(s, msg)[i]).conn.sent
                == s[i].conn.sent + msg.push(SENTINEL),
        broadcast_spec(s, msg)[dead] == s[dead],
    decreases s.len(),
{
    if dead == s.len() - 1 {
        lemma_closed_count_all_open(s.drop_last());
    } else {
        assert forall|i: int|
            0 <= i < s.drop_last().len() && i != dead implies (#[trigger] s.drop_last()[i])
            .conn.open by {
            assert(s.drop_last()[i] == s[i]);
        }
        lemma_broadcast_isolation(s.drop_last(), msg, dead);
    }
}

} // verus!
