//! The library's model of the server side of one TCP connection.
//!
//! Only what the core's logic reads or decides on is modelled as plain
//! values: whether the connection is still open, the peer's address,
//! and every byte the server has written toward the peer.  The bytes
//! the peer sends are a separate value (the session owns its read
//! side), so a `Connection` is exactly the part of a socket that the
//! registry and a broadcast need to address.

use crate::codec::SENTINEL;
use crate::codec::encode;
use vstd::prelude::*;

verus! {

/// An error on the transport, fatal to the owning session only.
#[derive(Clone, Copy, Debug, PartialEq, Eq, Structural)]
pub enum TransportError {
    /// The peer is gone: a read or write failed, or the connection was
    /// already closed.
    Closed,
    /// A write moved fewer bytes than requested; it is not retried.
    ShortWrite,
}

/// The mathematical value of a [`Connection`].
pub struct ConnectionView {
    pub open: bool,
    pub peer_ip: u32,
    pub peer_port: u16,
    pub sent: Seq<u8>,
}

/// The write side of one connection: its liveness, the peer's address
/// as plain values (an IPv4 address and a port), and the bytes written
/// toward the peer so far, in order.
pub struct Connection {
    /// Whether the connection is still believed open.  A send on a
    /// closed connection fails cleanly; it never corrupts state.
    pub open: bool,
    /// The peer's IPv4 address, as its 32-bit value.
    pub peer_ip: u32,
    /// The peer's port.
    pub peer_port: u16,
    /// Every byte written toward the peer, oldest first.
    pub sent: Vec<u8>,
}

impl View for Connection {
    type V = ConnectionView;

    open spec fn view(&self) -> ConnectionView {
        ConnectionView {
            open: self.open,
            peer_ip: self.peer_ip,
            peer_port: self.peer_port,
            sent: self.sent@,
        }
    }
}

impl Connection {
    /// A freshly accepted connection: open, with nothing written yet.
    pub fn new(peer_ip: u32, peer_port: u16) -> (r: Connection)
        ensures
            r@.open,
            r@.peer_ip == peer_ip,
            r@.peer_port == peer_port,
            r@.sent == Seq::<u8>::empty(),
    {
        Connection { open: true, peer_ip, peer_port, sent: Vec::new() }
    }

    /// Writes one framed message toward the peer: the payload followed
    /// by the sentinel.  Fails, changing nothing, exactly when the
    /// connection is no longer open.
    pub fn send_frame(&mut self, payload: &Vec<u8>) -> (r: Result<(), TransportError>)
        ensures
            final(self)@.open == old(self)@.open,
            final(self)@.peer_ip == old(self)@.peer_ip,
            final(self)@.peer_port == old(self)@.peer_port,
            old(self)@.open ==> r is Ok
                && final(self)@.sent == old(self)@.sent + payload@.push(SENTINEL),
            !old(self)@.open ==> r == Err::<(), TransportError>(TransportError::Closed)
                && final(self)@.sent == old(self)@.sent,
    {
        if !self.open {
            return Err(TransportError::Closed);
        }
        let mut frame = encode(payload);
        self.sent.append(&mut frame);
        Ok(())
    }

    /// Explicitly closes the connection; no further send succeeds.
    pub fn close(&mut self)
        ensures
            !final(self)@.open,
            final(self)@.peer_ip == old(self)@.peer_ip,
            final(self)@.peer_port == old(self)@.peer_port,
            final(self)@.sent == old(self)@.sent,
    {
        self.open = false;
    }
}

/// The short-write rule: a write that moved fewer bytes than requested
/// is a transport error for that send, not retried.
pub fn check_full_write(expected: usize, written: usize) -> (r: Result<(), TransportError>)
    ensures
        r is Ok <==> written == expected,
        r is Err ==> r == Err::<(), TransportError>(TransportError::ShortWrite),
{
    if written == expected {
        Ok(())
    } else {
        Err(TransportError::ShortWrite)
    }
}

} // verus!
