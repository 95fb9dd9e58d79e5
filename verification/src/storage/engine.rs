//! The engine: pools, tables, and what is outstanding.
use vstd::prelude::*;

use super::capacities::Capacities;
use super::endpoint::{DedupKey, Endpoint, ExchangeKey, KeyView, ObserveKey, SlotId};
use super::io::{receives, sends, Attempt, DatagramIo, DatagramIoError, Port};
use super::metrics::{inc, Metrics};
use super::pool::{DatagramPool, DatagramSlot};
use super::rows::{DedupEntry, ExchangeEntry, ObserveInterest, PendingCon, Retransmit};
use super::table::{
    empty_rows, find_row, free_row, lemma_find_row, place_row, taken_rows, Keyed, Table,
};
use super::transfer::BodyPool;
use crate::error::{EncodeError, SlotError};
use crate::message::wire::{encode_fault, encode_to_vec, wire, MessageView};
use crate::message::{Message, MessageId, Transmission};

verus! {

/// Pools for the bodies of block-wise transfers.
pub struct Bodies {
    /// Incoming bodies.
    pub rx: BodyPool,
    /// Outgoing bodies.
    pub tx: BodyPool,
}

/// Pools and tables.
pub struct Store {
    /// Incoming datagrams.
    pub rx: DatagramPool,
    /// Outgoing datagrams.
    pub tx: DatagramPool,
    /// Answered requests.
    pub dedup: Table<DedupEntry>,
    /// Observations.
    pub observe: Table<ObserveInterest>,
    /// Bodies, when block-wise transfer is on.
    pub bodies: Option<Bodies>,
}

impl Store {
    /// Are all pools and tables in order?
    pub open spec fn wf(&self) -> bool {
        &&& self.rx.wf()
        &&& self.tx.wf()
        &&& self.dedup.wf()
        &&& self.observe.wf()
        &&& self.bodies matches Some(b) ==> b.rx.wf() && b.tx.wf()
    }

    /// The pool of incoming datagrams.
    pub fn rx_datagram_mut(&mut self) -> (p: &mut DatagramPool)
        ensures
            *p == old(self).rx,
            *final(self) == (Store { rx: *final(p), ..*old(self) }),
    {
        &mut self.rx
    }
}

/// Pools and tables, with what is outstanding.
pub struct Engine {
    /// Pools and tables.
    pub store: Store,
    /// Confirmable messages that wait for an acknowledgement, by outgoing slot.
    pub pending: Vec<Option<PendingCon>>,
    /// Client requests that wait for a response.
    pub exchanges: Table<ExchangeEntry>,
    /// Counters.
    pub metrics: Metrics,
}

/// Is this a slot that was just taken, without bytes and without a peer?
pub open spec fn fresh_slot(p: DatagramPool, id: SlotId) -> bool {
    &&& p.occupied(id)
    &&& p.datagram(id) == Seq::<u8>::empty()
    &&& p.slots@[id.at as int]->0.peer.is_none()
    &&& !p.slots@[id.at as int]->0.pinned
}

/// Can a slot be freed?
pub open spec fn release_verdict(p: DatagramPool, id: SlotId) -> Result<(), SlotError> {
    if id.at >= p.slots@.len() {
        Err(SlotError::OutOfRange)
    } else if !p.occupied(id) {
        Err(SlotError::NotOccupied)
    } else {
        Ok(())
    }
}

/// Does every waiting message own an occupied slot, and does no peer have two?
pub open spec fn pending_ok(
    pending: Seq<Option<PendingCon>>,
    slots: Seq<Option<DatagramSlot>>,
) -> bool {
    &&& pending.len() == slots.len()
    &&& forall|i: int|
        0 <= i < pending.len() ==> ((#[trigger] pending[i]) matches Some(p) ==> p.tx.at == i
            && slots[i].is_some())
    &&& forall|i: int, j: int|
        0 <= i < j < pending.len() && (#[trigger] pending[i]).is_some() && (
        #[trigger] pending[j]).is_some() ==> pending[i]->0.peer != pending[j]->0.peer
}

/// Position of the message to a peer that waits for its acknowledgement.
pub open spec fn outstanding(pending: Seq<Option<PendingCon>>, peer: Endpoint) -> Option<int>
    decreases pending.len(),
{
    if pending.len() == 0 {
        None
    } else {
        match outstanding(pending.drop_last(), peer) {
            Some(i) => Some(i),
            None => match pending.last() {
                Some(p) => if p.peer == peer {
                    Some(pending.len() - 1)
                } else {
                    None
                },
                None => None,
            },
        }
    }
}

/// What [`outstanding`] finds.
pub proof fn lemma_outstanding(pending: Seq<Option<PendingCon>>, peer: Endpoint)
    ensures
        outstanding(pending, peer) matches Some(i) ==> 0 <= i < pending.len() && pending[i].is_some()
            && pending[i]->0.peer == peer && forall|k: int|
            0 <= k < i ==> ((#[trigger] pending[k]) matches Some(p) ==> p.peer != peer),
        outstanding(pending, peer).is_none() ==> forall|k: int|
            0 <= k < pending.len() ==> ((#[trigger] pending[k]) matches Some(p) ==> p.peer != peer),
    decreases pending.len(),
{
    if pending.len() > 0 {
        let front = pending.drop_last();
        lemma_outstanding(front, peer);
        assert(forall|k: int| 0 <= k < front.len() ==> front[k] == pending[k]);
    }
}

/// Position of the first message that is due.
pub open spec fn first_due(pending: Seq<Option<PendingCon>>, now_ms: u64) -> Option<int>
    decreases pending.len(),
{
    if pending.len() == 0 {
        None
    } else {
        match first_due(pending.drop_last(), now_ms) {
            Some(i) => Some(i),
            None => match pending.last() {
                Some(p) => if p.due_ms <= now_ms {
                    Some(pending.len() - 1)
                } else {
                    None
                },
                None => None,
            },
        }
    }
}

/// What [`first_due`] finds.
pub proof fn lemma_first_due(pending: Seq<Option<PendingCon>>, now_ms: u64)
    ensures
        first_due(pending, now_ms) matches Some(i) ==> 0 <= i < pending.len() && pending[i].is_some()
            && pending[i]->0.due_ms <= now_ms,
        first_due(pending, now_ms).is_none() ==> forall|k: int|
            0 <= k < pending.len() ==> ((#[trigger] pending[k]) matches Some(p) ==> p.due_ms
                > now_ms),
    decreases pending.len(),
{
    if pending.len() > 0 {
        let front = pending.drop_last();
        lemma_first_due(front, now_ms);
        assert(forall|k: int| 0 <= k < front.len() ==> front[k] == pending[k]);
    }
}

proof fn lemma_first_due_prefix(pending: Seq<Option<PendingCon>>, now_ms: u64, n: int)
    requires
        0 <= n <= pending.len(),
        first_due(pending.subrange(0, n), now_ms).is_some(),
    ensures
        first_due(pending, now_ms) == first_due(pending.subrange(0, n), now_ms),
    decreases pending.len(),
{
    if n == pending.len() {
        assert(pending.subrange(0, n) =~= pending);
    } else {
        assert(pending.drop_last().subrange(0, n) =~= pending.subrange(0, n));
        lemma_first_due_prefix(pending.drop_last(), now_ms, n);
    }
}

/// The sum, or the largest time.
pub open spec fn later(now_ms: u64, ms: int) -> u64 {
    if now_ms + ms <= u64::MAX {
        (now_ms + ms) as u64
    } else {
        u64::MAX
    }
}

/// Twice the timeout, or the largest one.
pub open spec fn doubled(timeout_ms: u32) -> u32 {
    if timeout_ms * 2 <= u32::MAX {
        (timeout_ms * 2) as u32
    } else {
        u32::MAX
    }
}

/// A waiting message after it was sent again.
pub open spec fn resent(p: PendingCon, now_ms: u64) -> PendingCon {
    PendingCon {
        retries: (p.retries + 1) as u8,
        timeout_ms: doubled(p.timeout_ms),
        due_ms: later(now_ms, doubled(p.timeout_ms) as int),
        ..p
    }
}

/// A message that just went out for the first time.
pub open spec fn first_sent(
    tx: SlotId,
    peer: Endpoint,
    mid: MessageId,
    now_ms: u64,
    jitter: u32,
) -> PendingCon {
    PendingCon {
        tx,
        mid,
        peer,
        due_ms: later(now_ms, Transmission::initial_timeout(jitter)),
        timeout_ms: Transmission::initial_timeout(jitter) as u32,
        retries: 0,
    }
}

/// When and how to wait for an acknowledgement.
#[derive(Clone, Copy, Debug, PartialEq, Eq, Structural)]
pub struct Confirm {
    /// The time of sending.
    pub now_ms: u64,
    /// The identifier that is acknowledged.
    pub mid: MessageId,
    /// Random addition to the first timeout.
    pub jitter: u32,
}

/// Failure to put a message out.
pub enum TxError<E> {
    /// The peer already has a message outstanding.
    Saturated,
    /// The transport failed.
    Io(DatagramIoError<E>),
}

impl Engine {
    /// Is the engine in order?
    pub open spec fn wf(&self) -> bool {
        &&& self.store.wf()
        &&& self.exchanges.wf()
        &&& self.exchanges.rows@.len() == self.store.tx.slots@.len()
        &&& pending_ok(self.pending@, self.store.tx.slots@)
    }

    /// Is the outgoing slot kept for a reply?
    pub open spec fn pinned_reply(&self, at: int) -> bool {
        exists|i: int|
            0 <= i < self.store.dedup.rows@.len() && pins(#[trigger] self.store.dedup.rows@[i], at)
    }

    /// Is the outgoing slot taken, but neither waiting for an acknowledgement
    /// nor kept for a reply?
    pub open spec fn unowned(&self, at: int) -> bool {
        &&& 0 <= at < self.store.tx.slots@.len()
        &&& self.store.tx.slots@[at].is_some()
        &&& self.pending@[at].is_none()
        &&& !self.pinned_reply(at)
    }

    /// An engine over pools and tables.
    pub fn from_store(store: Store) -> (e: Engine)
        requires
            store.wf(),
        ensures
            e.wf(),
            e.store == store,
            e.metrics == Metrics::none(),
            e.idle(),
    {
        let n: usize = store.tx.capacity();
        Engine {
            store,
            pending: empty_rows(n),
            exchanges: Table::with_rows(n),
            metrics: Metrics::zero(),
        }
    }

    /// Does nothing wait, neither for an acknowledgement nor for a response?
    pub open spec fn idle(&self) -> bool {
        &&& forall|i: int|
            0 <= i < self.pending@.len() ==> (#[trigger] self.pending@[i]).is_none()
        &&& forall|i: int|
            0 <= i < self.exchanges.rows@.len() ==> (#[trigger] self.exchanges.rows@[i]).is_none()
    }

    /// Pools and tables.
    pub fn storage_mut(&mut self) -> (s: &mut Store)
        ensures
            *s == old(self).store,
            *final(self) == (Engine { store: *final(s), ..*old(self) }),
    {
        &mut self.store
    }

    /// The sizes of the areas.
    pub fn capacities(&self) -> (c: Capacities)
        ensures
            self.store.has_sizes(c),
            c.mentions_bodies() == c.has_bodies(),
    {
        self.store.capacities()
    }

    /// A copy of the counters.
    pub fn metrics(&self) -> (m: Metrics)
        ensures
            m == self.metrics,
    {
        self.metrics
    }

    /// Set the counters to zero.
    pub fn reset_metrics(&mut self)
        ensures
            *final(self) == (Engine { metrics: Metrics::none(), ..*old(self) }),
    {
        self.metrics = Metrics::zero();
    }

    /// Are there body pools?
    pub fn has_body_pools(&self) -> (b: bool)
        ensures
            b == self.store.bodies.is_some(),
    {
        self.store.bodies.is_some()
    }

    /// How many incoming slots are taken.
    pub fn rx_occupied(&self) -> (n: usize)
        ensures
            n == taken_rows(self.store.rx.slots@),
    {
        self.store.rx.occupied_len()
    }

    /// How many outgoing slots are taken.
    pub fn tx_occupied(&self) -> (n: usize)
        ensures
            n == taken_rows(self.store.tx.slots@),
    {
        self.store.tx.occupied_len()
    }

    /// Take the first free incoming slot.
    pub fn acquire_rx(&mut self) -> (r: Option<SlotId>)
        requires
            old(self).wf(),
        ensures
            final(self).wf(),
            *final(self) == (Engine {
                store: Store { rx: final(self).store.rx, ..old(self).store },
                ..*old(self)
            }),
            final(self).store.rx.slot_bytes == old(self).store.rx.slot_bytes,
            match r {
                Some(id) => {
                    &&& free_row(old(self).store.rx.slots@) == Some(id.at as int)
                    &&& fresh_slot(final(self).store.rx, id)
                    &&& final(self).store.rx.slots@ == old(self).store.rx.slots@.update(
                        id.at as int,
                        final(self).store.rx.slots@[id.at as int],
                    )
                },
                None => free_row(old(self).store.rx.slots@).is_none() && *final(self) == *old(self),
            },
    {
        self.store.rx.acquire()
    }

    /// Free an incoming slot, if it is taken.
    pub fn release_rx(&mut self, id: SlotId) -> (r: Result<(), SlotError>)
        requires
            old(self).wf(),
        ensures
            final(self).wf(),
            *final(self) == (Engine {
                store: Store { rx: final(self).store.rx, ..old(self).store },
                ..*old(self)
            }),
            final(self).store.rx.slot_bytes == old(self).store.rx.slot_bytes,
            r == release_verdict(old(self).store.rx, id),
            r.is_ok() ==> final(self).store.rx.slots@ == old(self).store.rx.slots@.update(
                id.at as int,
                None,
            ),
            r.is_err() ==> *final(self) == *old(self),
    {
        self.store.rx.release(id)
    }

    /// Take the first free outgoing slot.
    pub fn acquire_tx(&mut self) -> (r: Option<SlotId>)
        requires
            old(self).wf(),
        ensures
            final(self).wf(),
            *final(self) == (Engine {
                store: Store { tx: final(self).store.tx, ..old(self).store },
                ..*old(self)
            }),
            final(self).store.tx.slot_bytes == old(self).store.tx.slot_bytes,
            match r {
                Some(id) => {
                    &&& free_row(old(self).store.tx.slots@) == Some(id.at as int)
                    &&& old(self).store.tx.slots@[id.at as int].is_none()
                    &&& fresh_slot(final(self).store.tx, id)
                    &&& final(self).store.tx.slots@ == old(self).store.tx.slots@.update(
                        id.at as int,
                        final(self).store.tx.slots@[id.at as int],
                    )
                },
                None => free_row(old(self).store.tx.slots@).is_none() && *final(self) == *old(self),
            },
    {
        self.store.tx.acquire()
    }

    /// Free an outgoing slot, if it is taken; what waited in it waits no more.
    pub fn release_tx(&mut self, id: SlotId) -> (r: Result<(), SlotError>)
        requires
            old(self).wf(),
        ensures
            final(self).wf(),
            *final(self) == (Engine {
                store: Store { tx: final(self).store.tx, ..old(self).store },
                pending: final(self).pending,
                ..*old(self)
            }),
            r == release_verdict(old(self).store.tx, id),
            r.is_ok() ==> final(self).store.tx.slot_bytes == old(self).store.tx.slot_bytes
                && final(self).store.tx.slots@ == old(self).store.tx.slots@.update(
                id.at as int,
                None,
            ) && final(self).pending@ == old(self).pending@.update(id.at as int, None),
            r.is_err() ==> *final(self) == *old(self),
    {
        match self.store.tx.release(id) {
            Ok(()) => {
                let ghost before = self.pending@;
                self.pending.set(id.at, None);
                proof {
                    assert forall|i: int, j: int|
                        0 <= i < j < self.pending@.len() && (#[trigger] self.pending@[i]).is_some()
                            && (#[trigger] self.pending@[j]).is_some() implies self.pending@[
                        i
                    ]->0.peer != self.pending@[j]->0.peer by {
                        assert(before[i].is_some() && before[j].is_some());
                    }
                }
                Ok(())
            },
            Err(e) => Err(e),
        }
    }

    /// Receive one datagram into a free slot.
    pub fn recv_from<T: DatagramIo>(&mut self, port: &mut Port<T>) -> (r: Result<
        Option<SlotId>,
        DatagramIoError<T::Error>,
    >)
        requires
            old(self).wf(),
        ensures
            final(self).wf(),
            final(port).log@ == old(port).log@,
            final(self).store.rx.slot_bytes == old(self).store.rx.slot_bytes,
            free_row(old(self).store.rx.slots@).is_none() ==> r == Err::<
                Option<SlotId>,
                DatagramIoError<T::Error>,
            >(DatagramIoError::Saturated) && *final(port) == *old(port) && *final(self) == (Engine {
                metrics: Metrics {
                    saturated: inc(old(self).metrics.saturated),
                    ..old(self).metrics
                },
                ..*old(self)
            }),
            free_row(old(self).store.rx.slots@).is_some() ==> receives(
                old(port).io,
                old(self).store.rx.slot_bytes as nat,
                match r {
                    Ok(Some(id)) => {
                        let slot = final(self).store.rx.slots@[id.at as int]->0;
                        Ok(Some((slot.bytes@, slot.peer->0)))
                    },
                    Ok(None) => Ok(None),
                    Err(e) => Err(e),
                },
            ),
            free_row(old(self).store.rx.slots@).is_some() ==> match r {
                Ok(Some(id)) => {
                    &&& free_row(old(self).store.rx.slots@) == Some(id.at as int)
                    &&& final(self).store.rx.occupied(id)
                    &&& final(self).store.rx.slots@[id.at as int]->0.peer.is_some()
                    &&& !final(self).store.rx.slots@[id.at as int]->0.pinned
                    &&& final(self).store.rx.slots@ == old(self).store.rx.slots@.update(
                        id.at as int,
                        final(self).store.rx.slots@[id.at as int],
                    )
                    &&& *final(self) == (Engine {
                        store: Store { rx: final(self).store.rx, ..old(self).store },
                        metrics: Metrics {
                            rx_accepted: inc(old(self).metrics.rx_accepted),
                            ..old(self).metrics
                        },
                        ..*old(self)
                    })
                },
                Ok(None) => *final(self) == *old(self),
                Err(e) => *final(self) == *old(self) && !(e is Saturated),
            },
    {
        let max: usize = self.store.rx.slot_bytes;
        let at: usize = match super::table::first_free(&self.store.rx.slots) {
            Some(at) => at,
            None => {
                self.metrics.saturated = Metrics::inc(self.metrics.saturated);
                return Err(DatagramIoError::Saturated);
            },
        };
        match port.recv(max) {
            Ok(None) => Ok(None),
            Ok(Some((bytes, from))) => {
                let ghost before = self.store.rx.slots@;
                self.store.rx.slots.set(
                    at,
                    Some(DatagramSlot { peer: Some(from), bytes, pinned: false }),
                );
                assert(self.store.rx.slots@ =~= before.update(
                    at as int,
                    self.store.rx.slots@[at as int],
                ));
                self.metrics.rx_accepted = Metrics::inc(self.metrics.rx_accepted);
                Ok(Some(SlotId { at }))
            },
            Err(e) => Err(e),
        }
    }

    /// Encode a message for a peer into a free outgoing slot.
    pub fn stage(&mut self, msg: &Message<'_>, dest: Endpoint) -> (r: Result<SlotId, EncodeFailure>)
        requires
            old(self).wf(),
        ensures
            final(self).wf(),
            r.is_err() ==> *final(self) == *old(self),
            match stage_verdict(*old(self), msg@) {
                Err(e) => r == Err::<SlotId, EncodeFailure>(e),
                Ok(at) => {
                    &&& r == Ok::<SlotId, EncodeFailure>(SlotId { at: at as usize })
                    &&& 0 <= at < old(self).store.tx.slots@.len()
                    &&& at <= usize::MAX
                    &&& old(self).store.tx.slots@[at].is_none()
                    &&& old(self).pending@[at].is_none()
                    &&& *final(self) == (Engine {
                        store: Store { tx: final(self).store.tx, ..old(self).store },
                        ..*old(self)
                    })
                    &&& final(self).store.tx.slot_bytes == old(self).store.tx.slot_bytes
                    &&& final(self).store.tx.slots@ == old(self).store.tx.slots@.update(
                        at,
                        final(self).store.tx.slots@[at],
                    )
                    &&& holds(final(self).store.tx.slots@[at], dest, wire(msg@))
                },
            },
    {
        let at: usize = match super::table::first_free(&self.store.tx.slots) {
            Some(at) => at,
            None => return Err(EncodeFailure::Saturated),
        };
        let bytes: Vec<u8> = match encode_to_vec(msg) {
            Ok(bytes) => bytes,
            Err(e) => return Err(EncodeFailure::Encode(e)),
        };
        if bytes.len() > self.store.tx.slot_bytes {
            return Err(EncodeFailure::Encode(EncodeError::BufferTooSmall));
        }
        let ghost before = self.store.tx.slots@;
        self.store.tx.slots.set(
            at,
            Some(DatagramSlot { peer: Some(dest), bytes, pinned: false }),
        );
        proof {
            let after = self.store.tx.slots@;
            assert(after =~= before.update(at as int, after[at as int]));
            assert(self.pending@[at as int].is_none());
        }
        Ok(SlotId { at })
    }

    /// Send what an outgoing slot holds.
    pub fn send_tx<T: DatagramIo>(&mut self, port: &mut Port<T>, id: SlotId) -> (r: Result<
        (),
        DatagramIoError<T::Error>,
    >)
        requires
            old(self).wf(),
        ensures
            final(self).wf(),
            match sendable(*old(self), id) {
                Some((dest, bytes)) => {
                    &&& final(port).log@ == old(port).log@.push(
                        Attempt { dest, bytes, ok: r.is_ok() },
                    )
                    &&& *final(self) == (Engine {
                        metrics: sent_metrics(old(self).metrics, r.is_ok()),
                        ..*old(self)
                    })
                    &&& sends(
                        old(port).io,
                        dest,
                        bytes,
                        match r {
                            Ok(_) => None,
                            Err(e) => Some(e),
                        },
                    )
                },
                None => {
                    &&& *final(port) == *old(port)
                    &&& *final(self) == *old(self)
                    &&& r == Err::<(), DatagramIoError<T::Error>>(
                        if !old(self).store.tx.occupied(id) {
                            if id.at >= old(self).store.tx.slots@.len() {
                                DatagramIoError::Slot(SlotError::OutOfRange)
                            } else {
                                DatagramIoError::Slot(SlotError::NotOccupied)
                            }
                        } else {
                            DatagramIoError::NoEndpoint
                        },
                    )
                },
            },
    {
        let r: Result<(), DatagramIoError<T::Error>> = match self.store.tx.bytes(id) {
            Ok(bytes) => match self.store.tx.peer(id) {
                Some(dest) => port.send(dest, bytes),
                None => return Err(DatagramIoError::NoEndpoint),
            },
            Err(e) => return Err(DatagramIoError::Slot(e)),
        };
        if r.is_ok() {
            self.metrics.tx_ok = Metrics::inc(self.metrics.tx_ok);
        } else {
            self.metrics.tx_fail = Metrics::inc(self.metrics.tx_fail);
        }
        r
    }

    /// Position of the message to a peer that waits for its acknowledgement.
    pub fn find_outstanding(&self, peer: Endpoint) -> (r: Option<usize>)
        ensures
            match r {
                Some(i) => outstanding(self.pending@, peer) == Some(i as int) && i
                    < self.pending@.len() && self.pending@[i as int].is_some() && self.pending@[
                    i as int
                ]->0.peer == peer,
                None => outstanding(self.pending@, peer).is_none(),
            },
    {
        proof {
            lemma_outstanding(self.pending@, peer);
        }
        let mut i: usize = 0;
        while i < self.pending.len()
            invariant
                i <= self.pending@.len(),
                forall|k: int|
                    0 <= k < i ==> ((#[trigger] self.pending@[k]) matches Some(p) ==> p.peer
                        != peer),
                outstanding(self.pending@, peer) matches Some(j) ==> 0 <= j < self.pending@.len()
                    && self.pending@[j].is_some() && self.pending@[j]->0.peer == peer && forall|
                    k: int,
                |
                    0 <= k < j ==> ((#[trigger] self.pending@[k]) matches Some(p) ==> p.peer
                        != peer),
                outstanding(self.pending@, peer).is_none() ==> forall|k: int|
                    0 <= k < self.pending@.len() ==> ((#[trigger] self.pending@[k]) matches Some(p)
                        ==> p.peer != peer),
            decreases self.pending@.len() - i,
        {
            if let Some(p) = self.pending[i] {
                if p.peer == peer {
                    assert(self.pending@[i as int]->0.peer == peer);
                    return Some(i);
                }
            }
            i = i + 1;
        }
        None
    }

    /// Wait for the acknowledgement of what an outgoing slot holds.
    ///
    /// Refused when the peer already has a message outstanding.
    pub fn record_pending_con(&mut self, id: SlotId, dest: Endpoint, confirm: Confirm) -> (ok: bool)
        requires
            old(self).wf(),
            old(self).store.tx.occupied(id),
            old(self).pending@[id.at as int].is_none(),
        ensures
            final(self).wf(),
            ok == outstanding(old(self).pending@, dest).is_none(),
            ok ==> final(self).pending@ == old(self).pending@.update(
                id.at as int,
                Some(first_sent(id, dest, confirm.mid, confirm.now_ms, confirm.jitter)),
            ) && *final(self) == (Engine { pending: final(self).pending, ..*old(self) }),
            !ok ==> *final(self) == (Engine {
                metrics: Metrics {
                    nstart_reject: inc(old(self).metrics.nstart_reject),
                    ..old(self).metrics
                },
                ..*old(self)
            }),
    {
        if self.find_outstanding(dest).is_some() {
            self.metrics.nstart_reject = Metrics::inc(self.metrics.nstart_reject);
            return false;
        }
        let timeout: u32 = Transmission::initial_timeout_ms(confirm.jitter);
        let p = PendingCon {
            tx: id,
            mid: confirm.mid,
            peer: dest,
            due_ms: confirm.now_ms.saturating_add(timeout as u64),
            timeout_ms: timeout,
            retries: 0,
        };
        let ghost before = self.pending@;
        self.pending.set(id.at, Some(p));
        proof {
            lemma_outstanding(before, dest);
            let after = self.pending@;
            assert forall|i: int, j: int|
                0 <= i < j < after.len() && (#[trigger] after[i]).is_some() && (
                #[trigger] after[j]).is_some() implies after[i]->0.peer != after[j]->0.peer by {
                if i == id.at {
                    assert(before[j].is_some());
                } else if j == id.at {
                    assert(before[i].is_some());
                } else {
                    assert(before[i].is_some() && before[j].is_some());
                }
            }
        }
        true
    }

    /// Send what an outgoing slot holds to a peer, then free the slot, or keep
    /// it while its acknowledgement is awaited.
    ///
    /// A message that is to be confirmed starts to wait before it is sent. If
    /// its peer has a message outstanding, or the transport fails, the slot is
    /// freed and nothing waits.
    pub fn finish_send<T: DatagramIo>(
        &mut self,
        port: &mut Port<T>,
        id: SlotId,
        dest: Endpoint,
        confirm: Option<Confirm>,
    ) -> (r: Result<(), TxError<T::Error>>)
        requires
            old(self).wf(),
            old(self).store.tx.occupied(id),
            old(self).pending@[id.at as int].is_none(),
        ensures
            final(self).wf(),
            *final(self) == (Engine {
                store: Store { tx: final(self).store.tx, ..old(self).store },
                pending: final(self).pending,
                metrics: final(self).metrics,
                ..*old(self)
            }),
            final(self).store.tx.slot_bytes == old(self).store.tx.slot_bytes,
            confirm.is_some() && outstanding(old(self).pending@, dest).is_some() ==> {
                &&& r == Err::<(), TxError<T::Error>>(TxError::Saturated)
                &&& *final(port) == *old(port)
                &&& final(self).metrics == (Metrics {
                    nstart_reject: inc(old(self).metrics.nstart_reject),
                    ..old(self).metrics
                })
            },
            confirm.is_none() || outstanding(old(self).pending@, dest).is_none() ==> {
                &&& final(port).log@ == old(port).log@.push(
                    Attempt { dest, bytes: old(self).store.tx.datagram(id), ok: r.is_ok() },
                )
                &&& final(self).metrics == sent_metrics(old(self).metrics, r.is_ok())
                &&& match r {
                    Ok(_) => sends(old(port).io, dest, old(self).store.tx.datagram(id), None),
                    Err(TxError::Io(e)) => sends(
                        old(port).io,
                        dest,
                        old(self).store.tx.datagram(id),
                        Some(e),
                    ),
                    Err(TxError::Saturated) => false,
                }
            },
            r.is_ok() && confirm.is_some() ==> {
                &&& final(self).store.tx.slots@ == old(self).store.tx.slots@.update(
                    id.at as int,
                    Some(
                        DatagramSlot {
                            peer: Some(dest),
                            ..old(self).store.tx.slots@[id.at as int]->0
                        },
                    ),
                )
                &&& final(self).pending@ == old(self).pending@.update(
                    id.at as int,
                    Some(
                        first_sent(
                            id,
                            dest,
                            confirm->0.mid,
                            confirm->0.now_ms,
                            confirm->0.jitter,
                        ),
                    ),
                )
            },
            r.is_err() || confirm.is_none() ==> {
                &&& final(self).store.tx.slots@ == old(self).store.tx.slots@.update(
                    id.at as int,
                    None,
                )
                &&& final(self).pending@ == old(self).pending@
            },
    {
        let ghost pending_before = self.pending@;
        let ghost slots = self.store.tx.slots@;
        let _ = self.store.tx.set_peer(id, dest);
        assert(self.store.tx.slots@.update(id.at as int, None) =~= slots.update(
            id.at as int,
            None,
        ));
        if let Some(c) = confirm {
            if !self.record_pending_con(id, dest, c) {
                let _ = self.release_tx(id);
                assert(self.pending@ =~= pending_before);
                return Err(TxError::Saturated);
            }
            match self.send_tx(port, id) {
                Ok(()) => Ok(()),
                Err(e) => {
                    let _ = self.release_tx(id);
                    assert(self.pending@ =~= pending_before);
                    Err(TxError::Io(e))
                },
            }
        } else {
            let sent = self.send_tx(port, id);
            let _ = self.release_tx(id);
            assert(self.pending@ =~= pending_before);
            match sent {
                Ok(()) => Ok(()),
                Err(e) => Err(TxError::Io(e)),
            }
        }
    }

    /// Position of the waiting message with this identifier and peer.
    fn find_pending(&self, mid: MessageId, peer: Endpoint) -> (r: Option<usize>)
        requires
            self.wf(),
        ensures
            match r {
                Some(i) => i < self.pending@.len() && self.pending@[i as int].is_some()
                    && self.pending@[i as int]->0.mid == mid && self.pending@[i as int]->0.peer
                    == peer,
                None => forall|k: int|
                    0 <= k < self.pending@.len() ==> !is_con(#[trigger] self.pending@[k], mid, peer),
            },
    {
        let mut i: usize = 0;
        while i < self.pending.len()
            invariant
                i <= self.pending@.len(),
                forall|k: int|
                    0 <= k < i ==> !is_con(#[trigger] self.pending@[k], mid, peer),
            decreases self.pending@.len() - i,
        {
            if let Some(p) = self.pending[i] {
                if p.mid == mid && p.peer == peer {
                    return Some(i);
                }
            }
            i = i + 1;
        }
        None
    }

    /// The outgoing slot of the waiting message with this identifier and peer.
    pub fn lookup_pending_con(&self, mid: MessageId, peer: Endpoint) -> (r: Option<SlotId>)
        requires
            self.wf(),
        ensures
            match r {
                Some(id) => waits_at(*self, id, mid, peer),
                None => !waits(*self, mid, peer),
            },
    {
        match self.find_pending(mid, peer) {
            Some(at) => Some(SlotId { at }),
            None => None,
        }
    }

    /// The message that waits in an outgoing slot.
    pub fn pending_con(&self, id: SlotId) -> (r: Option<PendingCon>)
        ensures
            r == if id.at < self.pending@.len() {
                self.pending@[id.at as int]
            } else {
                None
            },
    {
        if id.at < self.pending.len() {
            self.pending[id.at]
        } else {
            None
        }
    }

    /// Stop waiting for a message, and free its slot.
    ///
    /// Tells whether one was waiting.
    pub fn settle_con(&mut self, mid: MessageId, peer: Endpoint) -> (found: bool)
        requires
            old(self).wf(),
        ensures
            final(self).wf(),
            found == waits(*old(self), mid, peer),
            !found ==> *final(self) == *old(self),
            found ==> exists|at: int| #[trigger] settled(*old(self), *final(self), at, mid, peer),
            con_settled(*old(self), *final(self), mid, peer),
            !waits(*final(self), mid, peer),
    {
        match self.find_pending(mid, peer) {
            Some(at) => {
                let ghost before = *self;
                let _ = self.release_tx(SlotId { at });
                proof {
                    assert(settled(before, *self, at as int, mid, peer));
                    assert forall|k: int| 0 <= k < self.pending@.len() implies !is_con(
                        #[trigger] self.pending@[k],
                        mid,
                        peer,
                    ) by {
                        if k != at {
                            if before.pending@[k].is_some() {
                                if k < at {
                                    assert(before.pending@[k]->0.peer != before.pending@[
                                        at as int
                                    ]->0.peer);
                                } else {
                                    assert(before.pending@[at as int]->0.peer != before.pending@[
                                        k
                                    ]->0.peer);
                                }
                            }
                        }
                    }
                    assert(self.pending@ =~= unwaited(before.pending@, mid, peer)) by {
                        assert forall|k: int| 0 <= k < self.pending@.len() implies self.pending@[k]
                            == #[trigger] unwaited(before.pending@, mid, peer)[k] by {
                            if k != at {
                                assert(!is_con(self.pending@[k], mid, peer));
                            }
                        }
                    }
                    assert(self.store.tx.slots@ =~= slots_unwaited(
                        before.store.tx.slots@,
                        before.pending@,
                        mid,
                        peer,
                    )) by {
                        assert forall|k: int|
                            0 <= k < self.store.tx.slots@.len() implies self.store.tx.slots@[k]
                            == #[trigger] slots_unwaited(
                            before.store.tx.slots@,
                            before.pending@,
                            mid,
                            peer,
                        )[k] by {
                            if k != at {
                                assert(!is_con(self.pending@[k], mid, peer));
                            }
                        }
                    }
                }
                true
            },
            None => {
                assert(self.pending@ =~= unwaited(self.pending@, mid, peer));
                assert(self.store.tx.slots@ =~= slots_unwaited(
                    self.store.tx.slots@,
                    self.pending@,
                    mid,
                    peer,
                ));
                false
            },
        }
    }

    /// Take up the first waiting message that is due: count it as sent again,
    /// or, after [`Transmission::MAX_RETRANSMIT`] times, let it wait no more.
    pub fn poll_retransmit(&mut self, now_ms: u64) -> (r: Option<Retransmit>)
        requires
            old(self).wf(),
        ensures
            final(self).wf(),
            match first_due(old(self).pending@, now_ms) {
                None => r.is_none() && *final(self) == *old(self),
                Some(i) => {
                    let p = old(self).pending@[i]->0;
                    &&& 0 <= i < old(self).pending@.len()
                    &&& old(self).pending@[i].is_some()
                    &&& p.tx.at == i
                    &&& if p.retries < Transmission::MAX_RETRANSMIT {
                        &&& r == Some(Retransmit::Due(resent(p, now_ms)))
                        &&& final(self).pending@ == old(self).pending@.update(
                            i,
                            Some(resent(p, now_ms)),
                        )
                        &&& *final(self) == (Engine {
                            pending: final(self).pending,
                            metrics: Metrics {
                                con_retransmit: inc(old(self).metrics.con_retransmit),
                                ..old(self).metrics
                            },
                            ..*old(self)
                        })
                    } else {
                        &&& r == Some(Retransmit::GiveUp(p))
                        &&& final(self).pending@ == old(self).pending@.update(i, None)
                        &&& *final(self) == (Engine {
                            pending: final(self).pending,
                            metrics: Metrics {
                                give_up: inc(old(self).metrics.give_up),
                                ..old(self).metrics
                            },
                            ..*old(self)
                        })
                    }
                },
            },
    {
        let mut i: usize = 0;
        while i < self.pending.len()
            invariant
                *self == *old(self),
                self.wf(),
                i <= self.pending@.len(),
                first_due(self.pending@.subrange(0, i as int), now_ms).is_none(),
            decreases self.pending@.len() - i,
        {
            let ghost next = self.pending@.subrange(0, i + 1);
            assert(next.drop_last() =~= self.pending@.subrange(0, i as int));
            assert(next.last() == self.pending@[i as int]);
            if let Some(p) = self.pending[i] {
                if p.due_ms <= now_ms {
                    proof {
                        lemma_first_due_prefix(self.pending@, now_ms, i + 1);
                    }
                    let ghost before = self.pending@;
                    if p.retries < Transmission::MAX_RETRANSMIT {
                        let timeout: u32 = p.timeout_ms.saturating_add(p.timeout_ms);
                        let q = PendingCon {
                            tx: p.tx,
                            mid: p.mid,
                            peer: p.peer,
                            due_ms: now_ms.saturating_add(timeout as u64),
                            timeout_ms: timeout,
                            retries: p.retries + 1,
                        };
                        self.pending.set(i, Some(q));
                        self.metrics.con_retransmit = Metrics::inc(self.metrics.con_retransmit);
                        proof {
                            lemma_pending_same_peer(before, self.store.tx.slots@, i as int, q);
                        }
                        return Some(Retransmit::Due(q));
                    }
                    self.pending.set(i, None);
                    self.metrics.give_up = Metrics::inc(self.metrics.give_up);
                    proof {
                        lemma_pending_cleared(before, self.store.tx.slots@, i as int);
                    }
                    return Some(Retransmit::GiveUp(p));
                }
            }
            i = i + 1;
        }
        assert(self.pending@.subrange(0, i as int) =~= self.pending@);
        None
    }

    /// Remember a client request; over an earlier one with the same token and
    /// peer. Refused when the table is full.
    pub fn record_request(&mut self, entry: ExchangeEntry) -> (ok: bool)
        requires
            old(self).wf(),
        ensures
            final(self).wf(),
            match place_row(old(self).exchanges.rows@, entry.row_key()) {
                Some(i) => ok && final(self).exchanges.rows@ == old(self).exchanges.rows@.update(
                    i,
                    Some(entry),
                ) && *final(self) == (Engine { exchanges: final(self).exchanges, ..*old(self) }),
                None => !ok && *final(self) == *old(self),
            },
    {
        self.exchanges.put(entry).is_some()
    }

    /// The row of an outstanding client request.
    pub fn lookup_exchange(&self, key: ExchangeKey) -> (r: Option<SlotId>)
        ensures
            match r {
                Some(id) => find_row(self.exchanges.rows@, exchange_key(key)) == Some(
                    id.at as int,
                ) && id.at < self.exchanges.rows@.len(),
                None => find_row(self.exchanges.rows@, exchange_key(key)).is_none(),
            },
    {
        match self.exchanges.find(&key.key()) {
            Some(at) => Some(SlotId { at }),
            None => None,
        }
    }

    /// An outstanding client request.
    pub fn exchange(&self, key: ExchangeKey) -> (r: Option<ExchangeEntry>)
        ensures
            r == self.exchanges.row(exchange_key(key)),
    {
        match self.exchanges.find(&key.key()) {
            Some(at) => self.exchanges.rows[at],
            None => None,
        }
    }

    /// Forget a client request.
    pub fn take_exchange(&mut self, key: ExchangeKey) -> (r: Option<ExchangeEntry>)
        requires
            old(self).wf(),
        ensures
            final(self).wf(),
            *final(self) == (Engine { exchanges: final(self).exchanges, ..*old(self) }),
            r == old(self).exchanges.row(exchange_key(key)),
            find_row(final(self).exchanges.rows@, exchange_key(key)).is_none(),
            final(self).exchanges.rows@ == (match find_row(
                old(self).exchanges.rows@,
                exchange_key(key),
            ) {
                Some(i) => old(self).exchanges.rows@.update(i, None),
                None => old(self).exchanges.rows@,
            }),
    {
        self.exchanges.take(&key.key())
    }

    /// The row of an answered request.
    pub fn lookup_dedup(&self, key: DedupKey) -> (r: Option<SlotId>)
        ensures
            match r {
                Some(id) => find_row(self.store.dedup.rows@, dedup_key(key)) == Some(id.at as int)
                    && id.at < self.store.dedup.rows@.len(),
                None => find_row(self.store.dedup.rows@, dedup_key(key)).is_none(),
            },
    {
        match self.store.dedup.find(&key.key()) {
            Some(at) => Some(SlotId { at }),
            None => None,
        }
    }

    /// An answered request.
    pub fn dedup_entry(&self, id: SlotId) -> (r: Option<&DedupEntry>)
        ensures
            r.is_some() == (id.at < self.store.dedup.rows@.len() && self.store.dedup.rows@[
                id.at as int
            ].is_some()),
            r matches Some(e) ==> self.store.dedup.rows@[id.at as int] == Some(*e),
    {
        if id.at >= self.store.dedup.rows.len() {
            return None;
        }
        match &self.store.dedup.rows[id.at] {
            Some(e) => Some(e),
            None => None,
        }
    }

    /// Remember an answered request; over an earlier row with the same key.
    pub fn insert_dedup(&mut self, entry: DedupEntry) -> (r: Option<SlotId>)
        requires
            old(self).wf(),
        ensures
            final(self).wf(),
            *final(self) == (Engine {
                store: Store { dedup: final(self).store.dedup, ..old(self).store },
                ..*old(self)
            }),
            match r {
                Some(id) => place_row(old(self).store.dedup.rows@, entry.row_key()) == Some(
                    id.at as int,
                ) && id.at < old(self).store.dedup.rows@.len() && final(self).store.dedup.rows@
                    == old(self).store.dedup.rows@.update(id.at as int, Some(entry)),
                None => place_row(old(self).store.dedup.rows@, entry.row_key()).is_none() && final(self).store.dedup.rows@ == old(self).store.dedup.rows@,
            },
    {
        match self.store.dedup.put(entry) {
            Some(at) => Some(SlotId { at }),
            None => None,
        }
    }

    /// Forget an answered request.
    pub fn remove_dedup(&mut self, key: DedupKey) -> (found: bool)
        requires
            old(self).wf(),
        ensures
            final(self).wf(),
            *final(self) == (Engine {
                store: Store { dedup: final(self).store.dedup, ..old(self).store },
                ..*old(self)
            }),
            found == find_row(old(self).store.dedup.rows@, dedup_key(key)).is_some(),
            final(self).store.dedup.rows@ == (match find_row(
                old(self).store.dedup.rows@,
                dedup_key(key),
            ) {
                Some(i) => old(self).store.dedup.rows@.update(i, None),
                None => old(self).store.dedup.rows@,
            }),
    {
        let found = self.store.dedup.take(&key.key()).is_some();
        proof {
            lemma_find_row(old(self).store.dedup.rows@, dedup_key(key));
        }
        found
    }
}

/// Does an answered request keep its reply in this outgoing slot?
pub open spec fn pins(row: Option<DedupEntry>, at: int) -> bool {
    match row {
        Some(d) => match d.tx_pin {
            Some(id) => id.at == at,
            None => false,
        },
        None => false,
    }
}

/// Is this the waiting message with this identifier and peer?
pub open spec fn is_con(p: Option<PendingCon>, mid: MessageId, peer: Endpoint) -> bool {
    p.is_some() && p->0.mid == mid && p->0.peer == peer
}

/// The table key of a client request.
pub open spec fn exchange_key(key: ExchangeKey) -> KeyView {
    KeyView::Token { token: key.token@, peer: key.peer, client: true }
}

/// The table key of an answered request.
pub open spec fn dedup_key(key: DedupKey) -> KeyView {
    KeyView::Mid { mid: key.mid.raw, peer: key.peer }
}

/// The table key of an observation.
pub open spec fn observe_key(key: ObserveKey) -> KeyView {
    KeyView::Token { token: key.token@, peer: key.peer, client: key.client }
}

/// Does a message with this identifier and peer wait in a slot?
pub open spec fn waits_at(e: Engine, id: SlotId, mid: MessageId, peer: Endpoint) -> bool {
    id.at < e.pending@.len() && e.pending@[id.at as int].is_some() && e.pending@[
        id.at as int
    ]->0.mid == mid && e.pending@[id.at as int]->0.peer == peer
}

/// Does a message with this identifier and peer wait?
pub open spec fn waits(e: Engine, mid: MessageId, peer: Endpoint) -> bool {
    exists|i: int|
        0 <= i < e.pending@.len() && is_con(#[trigger] e.pending@[i], mid, peer)
}

/// The message at a position waits no more, and its slot is free.
pub open spec fn settled(
    before: Engine,
    after: Engine,
    at: int,
    mid: MessageId,
    peer: Endpoint,
) -> bool {
    &&& 0 <= at < before.pending@.len()
    &&& before.pending@[at] matches Some(p) && p.mid == mid && p.peer == peer
    &&& after.pending@ == before.pending@.update(at, None)
    &&& after.store.tx.slots@ == before.store.tx.slots@.update(at, None)
    &&& after.store.tx.slot_bytes == before.store.tx.slot_bytes
    &&& after == (Engine {
        store: Store { tx: after.store.tx, ..before.store },
        pending: after.pending,
        ..before
    })
}

/// The messages that wait, without the one with this identifier and peer.
pub open spec fn unwaited(
    pending: Seq<Option<PendingCon>>,
    mid: MessageId,
    peer: Endpoint,
) -> Seq<Option<PendingCon>> {
    Seq::new(
        pending.len(),
        |i: int|
            if is_con(pending[i], mid, peer) {
                None
            } else {
                pending[i]
            },
    )
}

/// The outgoing slots, that of the message with this identifier and peer free.
pub open spec fn slots_unwaited(
    slots: Seq<Option<DatagramSlot>>,
    pending: Seq<Option<PendingCon>>,
    mid: MessageId,
    peer: Endpoint,
) -> Seq<Option<DatagramSlot>> {
    Seq::new(
        slots.len(),
        |i: int|
            if is_con(pending[i], mid, peer) {
                None
            } else {
                slots[i]
            },
    )
}

/// Nothing waits any more with this identifier and peer, and its slot is free;
/// nothing else changed.
pub open spec fn con_settled(a: Engine, b: Engine, mid: MessageId, peer: Endpoint) -> bool {
    &&& b == (Engine {
        store: Store { tx: b.store.tx, ..a.store },
        pending: b.pending,
        ..a
    })
    &&& b.pending@ == unwaited(a.pending@, mid, peer)
    &&& b.store.tx.slots@ == slots_unwaited(a.store.tx.slots@, a.pending@, mid, peer)
    &&& b.store.tx.slot_bytes == a.store.tx.slot_bytes
}

/// Failure to encode a message into a slot.
#[derive(Clone, Copy, Debug, PartialEq, Eq, Structural)]
pub enum EncodeFailure {
    /// No free outgoing slot.
    Saturated,
    /// The message cannot be encoded, or does not fit.
    Encode(EncodeError),
}

/// Which slot a message is encoded into, or why it is not.
pub open spec fn stage_verdict(e: Engine, m: MessageView) -> Result<int, EncodeFailure> {
    match free_row(e.store.tx.slots@) {
        None => Err(EncodeFailure::Saturated),
        Some(at) => match encode_fault(m) {
            Some(err) => Err(EncodeFailure::Encode(err)),
            None => if wire(m).len() > e.store.tx.slot_bytes {
                Err(EncodeFailure::Encode(EncodeError::BufferTooSmall))
            } else {
                Ok(at)
            },
        },
    }
}

/// Does a slot hold this datagram for this peer?
pub open spec fn holds(slot: Option<DatagramSlot>, dest: Endpoint, bytes: Seq<u8>) -> bool {
    slot matches Some(s) && s.peer == Some(dest) && s.bytes@ == bytes && !s.pinned
}

/// What an outgoing slot would send, and where.
pub open spec fn sendable(e: Engine, id: SlotId) -> Option<(Endpoint, Seq<u8>)> {
    if e.store.tx.occupied(id) {
        match e.store.tx.slots@[id.at as int]->0.peer {
            Some(dest) => Some((dest, e.store.tx.datagram(id))),
            None => None,
        }
    } else {
        None
    }
}

/// The counters after a send.
pub open spec fn sent_metrics(m: Metrics, ok: bool) -> Metrics {
    if ok {
        Metrics { tx_ok: inc(m.tx_ok), ..m }
    } else {
        Metrics { tx_fail: inc(m.tx_fail), ..m }
    }
}

proof fn lemma_pending_same_peer(
    pending: Seq<Option<PendingCon>>,
    slots: Seq<Option<DatagramSlot>>,
    at: int,
    p: PendingCon,
)
    requires
        pending_ok(pending, slots),
        0 <= at < pending.len(),
        pending[at].is_some(),
        pending[at]->0.peer == p.peer,
        pending[at]->0.tx == p.tx,
    ensures
        pending_ok(pending.update(at, Some(p)), slots),
{
    let after = pending.update(at, Some(p));
    assert forall|i: int, j: int|
        0 <= i < j < after.len() && (#[trigger] after[i]).is_some() && (
        #[trigger] after[j]).is_some() implies after[i]->0.peer != after[j]->0.peer by {
        assert(pending[i].is_some() && pending[j].is_some());
    }
}

proof fn lemma_pending_cleared(
    pending: Seq<Option<PendingCon>>,
    slots: Seq<Option<DatagramSlot>>,
    at: int,
)
    requires
        pending_ok(pending, slots),
        0 <= at < pending.len(),
    ensures
        pending_ok(pending.update(at, None), slots),
{
    let after = pending.update(at, None);
    assert forall|i: int, j: int|
        0 <= i < j < after.len() && (#[trigger] after[i]).is_some() && (
        #[trigger] after[j]).is_some() implies after[i]->0.peer != after[j]->0.peer by {
        assert(pending[i].is_some() && pending[j].is_some());
    }
}

} // verus!
