//! The transport that an app is bound to.
use vstd::prelude::*;

use super::endpoint::Endpoint;
use crate::error::SlotError;

verus! {

/// A datagram transport, supplied by the caller.
pub trait DatagramIo {
    /// What the transport fails with.
    type Error;

    /// May the transport, asked for a datagram, leave these bytes in the buffer
    /// and tell this?
    ///
    /// Nothing is ruled out, unless a transport says more of itself.
    open spec fn may_give(
        &self,
        bytes: Seq<u8>,
        r: Result<Option<(usize, Endpoint)>, Self::Error>,
    ) -> bool {
        true
    }

    /// Receive one datagram into `buf`, without blocking.
    ///
    /// Gives its length and sender, or `None` when there is none.
    fn recv(&mut self, buf: &mut [u8]) -> (r: Result<Option<(usize, Endpoint)>, Self::Error>)
        ensures
            final(buf)@.len() == old(buf)@.len(),
            old(self).may_give(final(buf)@, r),
    ;

    /// May the transport, handed this datagram for this peer, tell this?
    ///
    /// Nothing is ruled out, unless a transport says more of itself.
    open spec fn may_take(
        &self,
        dest: Endpoint,
        bytes: Seq<u8>,
        r: Result<usize, Self::Error>,
    ) -> bool {
        true
    }

    /// Send one datagram; gives how many bytes went out.
    fn send(&mut self, dest: Endpoint, bytes: &[u8]) -> (r: Result<usize, Self::Error>)
        ensures
            old(self).may_take(dest, bytes@, r),
    ;
}

/// Failure of a receive or a send.
#[derive(Clone, Copy, Debug, PartialEq, Eq)]
pub enum DatagramIoError<E> {
    /// No free slot.
    Saturated,
    /// Slot addressing, or a datagram longer than its slot.
    Slot(SlotError),
    /// The outgoing slot has no destination.
    NoEndpoint,
    /// The transport sent only a part of the datagram.
    ShortSend,
    /// The transport failed.
    Transport(E),
}

/// One call of the transport's `send`.
pub struct Attempt {
    /// Destination.
    pub dest: Endpoint,
    /// The datagram.
    pub bytes: Seq<u8>,
    /// Did the transport take all of it?
    pub ok: bool,
}

/// A transport, with a record of what it was asked to send.
pub struct Port<T> {
    /// The transport.
    pub io: T,
    /// Every call of `send`, in order.
    pub log: Ghost<Seq<Attempt>>,
}

impl<T> Port<T> {
    /// A transport that was not asked to send anything yet.
    pub fn new(io: T) -> (p: Port<T>)
        ensures
            p.io == io,
            p.log@ == Seq::<Attempt>::empty(),
    {
        Port { io, log: Ghost(Seq::empty()) }
    }
}

/// What is wrong with a send of so many bytes when the transport told this.
pub open spec fn send_fault<E>(len: nat, told: Result<usize, E>) -> Option<DatagramIoError<E>> {
    match told {
        Ok(n) => if n == len {
            None
        } else {
            Some(DatagramIoError::ShortSend)
        },
        Err(e) => Some(DatagramIoError::Transport(e)),
    }
}

/// May a transport that is handed this datagram once lead to this fault, or to
/// none?
pub open spec fn sends<T: DatagramIo>(
    io: T,
    dest: Endpoint,
    bytes: Seq<u8>,
    fault: Option<DatagramIoError<T::Error>>,
) -> bool {
    exists|told: Result<usize, T::Error>| #[trigger]
        io.may_take(dest, bytes, told) && fault == send_fault(bytes.len(), told)
}

/// What a receive of at most `max` bytes gives when the transport left these
/// bytes and told this: the part of them that is the datagram, with its sender.
///
/// A length over `max` is an error; a failure of the transport is passed on.
pub open spec fn received<E>(
    max: nat,
    bytes: Seq<u8>,
    told: Result<Option<(usize, Endpoint)>, E>,
) -> Result<Option<(Seq<u8>, Endpoint)>, DatagramIoError<E>> {
    match told {
        Ok(None) => Ok(None),
        Ok(Some((n, from))) => if n > max {
            Err(DatagramIoError::Slot(SlotError::LengthExceedsSlot))
        } else {
            Ok(Some((bytes.subrange(0, n as int), from)))
        },
        Err(e) => Err(DatagramIoError::Transport(e)),
    }
}

/// May a transport that is asked once for at most `max` bytes lead to this?
pub open spec fn receives<T: DatagramIo>(
    io: T,
    max: nat,
    r: Result<Option<(Seq<u8>, Endpoint)>, DatagramIoError<T::Error>>,
) -> bool {
    exists|bytes: Seq<u8>, told: Result<Option<(usize, Endpoint)>, T::Error>|
        bytes.len() == max && #[trigger] io.may_give(bytes, told) && r == received(max, bytes, told)
}

impl<T: DatagramIo> Port<T> {
    /// Send one datagram.
    pub fn send(&mut self, dest: Endpoint, bytes: &[u8]) -> (r: Result<
        (),
        DatagramIoError<T::Error>,
    >)
        ensures
            final(self).log@ == old(self).log@.push(
                Attempt { dest, bytes: bytes@, ok: r.is_ok() },
            ),
            sends(
                old(self).io,
                dest,
                bytes@,
                match r {
                    Ok(_) => None,
                    Err(e) => Some(e),
                },
            ),
    {
        let ghost before = self.io;
        let sent = self.io.send(dest, bytes);
        assert(before.may_take(dest, bytes@, sent));
        let r: Result<(), DatagramIoError<T::Error>> = match sent {
            Ok(n) => if n == bytes.len() {
                Ok(())
            } else {
                Err(DatagramIoError::ShortSend)
            },
            Err(e) => Err(DatagramIoError::Transport(e)),
        };
        proof {
            self.log@ = self.log@.push(Attempt { dest, bytes: bytes@, ok: r.is_ok() });
        }
        r
    }

    /// Receive one datagram of at most `max` bytes.
    pub fn recv(&mut self, max: usize) -> (r: Result<
        Option<(Vec<u8>, Endpoint)>,
        DatagramIoError<T::Error>,
    >)
        ensures
            final(self).log@ == old(self).log@,
            receives(
                old(self).io,
                max as nat,
                match r {
                    Ok(Some((bytes, from))) => Ok(Some((bytes@, from))),
                    Ok(None) => Ok(None),
                    Err(e) => Err(e),
                },
            ),
    {
        let mut buf: Vec<u8> = Vec::new();
        buf.resize(max, 0);
        match self.io.recv(buf.as_mut_slice()) {
            Ok(None) => Ok(None),
            Ok(Some((n, from))) => {
                if n > max {
                    return Err(DatagramIoError::Slot(SlotError::LengthExceedsSlot));
                }
                buf.truncate(n);
                Ok(Some((buf, from)))
            },
            Err(e) => Err(DatagramIoError::Transport(e)),
        }
    }
}

} // verus!
