//! Storage sized by a profile.
use core::marker::PhantomData;
use vstd::prelude::*;

use super::capacities::Capacities;
use super::engine::{Bodies, Store};
use super::pool::DatagramPool;
use super::rows::{DedupEntry, ObserveInterest};
use super::table::Table;
use super::transfer::BodyPool;

verus! {

/// Named sizes for the areas present in [`Memory`].
///
/// Body sizes are used only when block-wise transfer is on; zero does not
/// mean "disabled".
pub trait MemoryProfile {
    /// Incoming datagram slots.
    const RX_DATAGRAM_SLOTS: usize;

    /// Bytes in each incoming datagram slot.
    const RX_DATAGRAM_BYTES: usize;

    /// Outgoing datagram slots.
    const TX_DATAGRAM_SLOTS: usize;

    /// Bytes in each outgoing datagram slot.
    const TX_DATAGRAM_BYTES: usize;

    /// Rows for answered requests.
    const DEDUP_ENTRIES: usize;

    /// Rows for observations.
    const OBSERVE_ENTRIES: usize;

    /// Incoming body slots.
    const RX_BODY_SLOTS: usize;

    /// Bytes in each incoming body slot, a multiple of 1024.
    const RX_BODY_BYTES: usize;

    /// Outgoing body slots.
    const TX_BODY_SLOTS: usize;

    /// Bytes in each outgoing body slot, a multiple of 1024.
    const TX_BODY_BYTES: usize;
}

/// Marker: [`Memory`] has no body pools.
#[derive(Clone, Copy, Debug, PartialEq, Eq, Structural)]
pub struct NoBodies;

/// Body pools owned by [`Memory`].
pub struct WithBodies<P: MemoryProfile> {
    /// Incoming bodies.
    pub rx: BodyPool,
    /// Outgoing bodies.
    pub tx: BodyPool,
    /// The profile that sized them.
    pub profile: PhantomData<P>,
}

impl<P: MemoryProfile> WithBodies<P> {
    /// Are both pools in order and sized by the profile?
    pub open spec fn wf(&self) -> bool {
        &&& self.rx.wf()
        &&& self.tx.wf()
        &&& self.rx.slots@.len() == P::RX_BODY_SLOTS
        &&& self.rx.slot_bytes == P::RX_BODY_BYTES
        &&& self.tx.slots@.len() == P::TX_BODY_SLOTS
        &&& self.tx.slot_bytes == P::TX_BODY_BYTES
    }

    fn new() -> (b: WithBodies<P>)
        ensures
            b.wf(),
            no_bodies(b.rx),
            no_bodies(b.tx),
    {
        WithBodies {
            rx: BodyPool::new(P::RX_BODY_SLOTS, P::RX_BODY_BYTES),
            tx: BodyPool::new(P::TX_BODY_SLOTS, P::TX_BODY_BYTES),
            profile: PhantomData,
        }
    }
}

/// Pools and tables sized by a profile; `B` says whether there are bodies.
pub struct Memory<P: MemoryProfile, B = NoBodies> {
    /// Incoming datagrams.
    pub rx: DatagramPool,
    /// Outgoing datagrams.
    pub tx: DatagramPool,
    /// Answered requests.
    pub dedup: Table<DedupEntry>,
    /// Observations.
    pub observe: Table<ObserveInterest>,
    /// Bodies, or nothing.
    pub bodies: B,
    /// The profile that sized them.
    pub profile: PhantomData<P>,
}

/// Storage that an engine can be built over.
pub trait Storage: Sized {
    /// Is the storage in order?
    spec fn wf(&self) -> bool;

    /// The sizes of its areas.
    spec fn sizes(&self) -> Capacities;

    /// Is nothing in it yet?
    spec fn empty(&self) -> bool;

    /// The sizes of its areas.
    fn capacities(&self) -> (c: Capacities)
        ensures
            c == self.sizes(),
    ;

    /// Hand the areas over.
    fn into_store(self) -> (s: Store)
        requires
            self.wf(),
        ensures
            s.wf(),
            s.has_sizes(self.sizes()),
            self.empty() ==> s.is_fresh(),
    ;
}

impl Store {
    /// Do the areas have these sizes?
    pub open spec fn has_sizes(&self, c: Capacities) -> bool {
        &&& self.rx.slots@.len() == c.rx_datagram_slots
        &&& self.rx.slot_bytes == c.rx_datagram_bytes
        &&& self.tx.slots@.len() == c.tx_datagram_slots
        &&& self.tx.slot_bytes == c.tx_datagram_bytes
        &&& self.dedup.rows@.len() == c.dedup_entries
        &&& self.observe.rows@.len() == c.observe_entries
        &&& self.bodies.is_some() == c.has_bodies()
        &&& self.bodies matches Some(b) ==> {
            &&& b.rx.slots@.len() == c.rx_body_slots->0
            &&& b.rx.slot_bytes == c.rx_body_bytes->0
            &&& b.tx.slots@.len() == c.tx_body_slots->0
            &&& b.tx.slot_bytes == c.tx_body_bytes->0
        }
    }

    /// The sizes of the areas.
    pub fn capacities(&self) -> (c: Capacities)
        ensures
            self.has_sizes(c),
            c.mentions_bodies() == c.has_bodies(),
    {
        let (rs, rb, ts, tb) = match &self.bodies {
            Some(b) => (
                Some(b.rx.capacity()),
                Some(b.rx.slot_bytes),
                Some(b.tx.capacity()),
                Some(b.tx.slot_bytes),
            ),
            None => (None, None, None, None),
        };
        Capacities {
            rx_datagram_slots: self.rx.capacity(),
            rx_datagram_bytes: self.rx.slot_bytes,
            tx_datagram_slots: self.tx.capacity(),
            tx_datagram_bytes: self.tx.slot_bytes,
            dedup_entries: self.dedup.rows.len(),
            observe_entries: self.observe.rows.len(),
            rx_body_slots: rs,
            rx_body_bytes: rb,
            tx_body_slots: ts,
            tx_body_bytes: tb,
        }
    }

    /// Fresh areas of the given sizes.
    pub fn from_capacities(c: Capacities) -> (s: Store)
        requires
            c.mentions_bodies() == c.has_bodies(),
        ensures
            s.wf(),
            s.has_sizes(c),
            s.is_fresh(),
    {
        let bodies: Option<Bodies> = match (
            c.rx_body_slots,
            c.rx_body_bytes,
            c.tx_body_slots,
            c.tx_body_bytes,
        ) {
            (Some(rs), Some(rb), Some(ts), Some(tb)) => Some(
                Bodies { rx: BodyPool::new(rs, rb), tx: BodyPool::new(ts, tb) },
            ),
            _ => None,
        };
        Store {
            rx: DatagramPool::new(c.rx_datagram_slots, c.rx_datagram_bytes),
            tx: DatagramPool::new(c.tx_datagram_slots, c.tx_datagram_bytes),
            dedup: Table::with_rows(c.dedup_entries),
            observe: Table::with_rows(c.observe_entries),
            bodies,
        }
    }

    /// Is nothing held anywhere?
    pub open spec fn is_fresh(&self) -> bool {
        &&& forall|i: int|
            0 <= i < self.rx.slots@.len() ==> (#[trigger] self.rx.slots@[i]).is_none()
        &&& forall|i: int|
            0 <= i < self.tx.slots@.len() ==> (#[trigger] self.tx.slots@[i]).is_none()
        &&& forall|i: int|
            0 <= i < self.dedup.rows@.len() ==> (#[trigger] self.dedup.rows@[i]).is_none()
        &&& forall|i: int|
            0 <= i < self.observe.rows@.len() ==> (#[trigger] self.observe.rows@[i]).is_none()
        &&& self.bodies matches Some(b) ==> no_bodies(b.rx) && no_bodies(b.tx)
    }
}

/// Does a pool hold no body?
pub open spec fn no_bodies(pool: BodyPool) -> bool {
    forall|i: int| 0 <= i < pool.slots@.len() ==> (#[trigger] pool.slots@[i]).is_none()
}

impl<P: MemoryProfile, B> Memory<P, B> {
    /// Are the datagram pools and the tables in order and sized by the profile?
    pub open spec fn areas_ok(&self) -> bool {
        &&& self.rx.wf()
        &&& self.tx.wf()
        &&& self.dedup.wf()
        &&& self.observe.wf()
        &&& self.rx.slots@.len() == P::RX_DATAGRAM_SLOTS
        &&& self.rx.slot_bytes == P::RX_DATAGRAM_BYTES
        &&& self.tx.slots@.len() == P::TX_DATAGRAM_SLOTS
        &&& self.tx.slot_bytes == P::TX_DATAGRAM_BYTES
        &&& self.dedup.rows@.len() == P::DEDUP_ENTRIES
        &&& self.observe.rows@.len() == P::OBSERVE_ENTRIES
    }

    /// Is nothing held in the datagram pools and the tables?
    pub open spec fn areas_empty(&self) -> bool {
        &&& forall|i: int|
            0 <= i < self.rx.slots@.len() ==> (#[trigger] self.rx.slots@[i]).is_none()
        &&& forall|i: int|
            0 <= i < self.tx.slots@.len() ==> (#[trigger] self.tx.slots@[i]).is_none()
        &&& forall|i: int|
            0 <= i < self.dedup.rows@.len() ==> (#[trigger] self.dedup.rows@[i]).is_none()
        &&& forall|i: int|
            0 <= i < self.observe.rows@.len() ==> (#[trigger] self.observe.rows@[i]).is_none()
    }

    fn with(bodies: B) -> (m: Memory<P, B>)
        ensures
            m.areas_ok(),
            m.areas_empty(),
            m.bodies == bodies,
    {
        Memory {
            rx: DatagramPool::new(P::RX_DATAGRAM_SLOTS, P::RX_DATAGRAM_BYTES),
            tx: DatagramPool::new(P::TX_DATAGRAM_SLOTS, P::TX_DATAGRAM_BYTES),
            dedup: Table::with_rows(P::DEDUP_ENTRIES),
            observe: Table::with_rows(P::OBSERVE_ENTRIES),
            bodies,
            profile: PhantomData,
        }
    }

    /// Incoming datagrams.
    pub fn rx_datagram(&self) -> (p: &DatagramPool)
        ensures
            *p == self.rx,
    {
        &self.rx
    }

    /// Incoming datagrams.
    pub fn rx_datagram_mut(&mut self) -> (p: &mut DatagramPool)
        ensures
            *p == old(self).rx,
            *final(self) == (Memory::<P, B> { rx: *final(p), ..*old(self) }),
    {
        &mut self.rx
    }

    /// Outgoing datagrams.
    pub fn tx_datagram(&self) -> (p: &DatagramPool)
        ensures
            *p == self.tx,
    {
        &self.tx
    }

    /// Outgoing datagrams.
    pub fn tx_datagram_mut(&mut self) -> (p: &mut DatagramPool)
        ensures
            *p == old(self).tx,
            *final(self) == (Memory::<P, B> { tx: *final(p), ..*old(self) }),
    {
        &mut self.tx
    }

    /// Answered requests.
    pub fn dedup(&self) -> (t: &Table<DedupEntry>)
        ensures
            *t == self.dedup,
    {
        &self.dedup
    }

    /// Answered requests.
    pub fn dedup_mut(&mut self) -> (t: &mut Table<DedupEntry>)
        ensures
            *t == old(self).dedup,
            *final(self) == (Memory::<P, B> { dedup: *final(t), ..*old(self) }),
    {
        &mut self.dedup
    }

    /// Observations.
    pub fn observe(&self) -> (t: &Table<ObserveInterest>)
        ensures
            *t == self.observe,
    {
        &self.observe
    }

    /// Observations.
    pub fn observe_mut(&mut self) -> (t: &mut Table<ObserveInterest>)
        ensures
            *t == old(self).observe,
            *final(self) == (Memory::<P, B> { observe: *final(t), ..*old(self) }),
    {
        &mut self.observe
    }
}

impl<P: MemoryProfile> Memory<P, NoBodies> {
    /// Datagram pools and tables only.
    pub fn new() -> (m: Memory<P, NoBodies>)
        ensures
            m.areas_ok(),
            m.areas_empty(),
    {
        Memory::with(NoBodies)
    }

    /// Datagram pools, tables, and body pools.
    pub fn with_block_wise() -> (m: Memory<P, WithBodies<P>>)
        ensures
            m.areas_ok(),
            m.areas_empty(),
            m.bodies.wf(),
            no_bodies(m.bodies.rx),
            no_bodies(m.bodies.tx),
    {
        Memory::with(WithBodies::new())
    }
}

impl<P: MemoryProfile> Memory<P, WithBodies<P>> {
    /// Datagram pools, tables, and body pools.
    pub fn new() -> (m: Memory<P, WithBodies<P>>)
        ensures
            m.areas_ok(),
            m.areas_empty(),
            m.bodies.wf(),
            no_bodies(m.bodies.rx),
            no_bodies(m.bodies.tx),
    {
        Memory::with(WithBodies::new())
    }

    /// Incoming bodies.
    pub fn rx_body(&self) -> (p: &BodyPool)
        ensures
            *p == self.bodies.rx,
    {
        &self.bodies.rx
    }

    /// Incoming bodies.
    pub fn rx_body_mut(&mut self) -> (p: &mut BodyPool)
        ensures
            *p == old(self).bodies.rx,
            *final(self) == (Memory::<P, WithBodies<P>> {
                bodies: WithBodies::<P> { rx: *final(p), ..old(self).bodies },
                ..*old(self)
            }),
    {
        &mut self.bodies.rx
    }

    /// Outgoing bodies.
    pub fn tx_body(&self) -> (p: &BodyPool)
        ensures
            *p == self.bodies.tx,
    {
        &self.bodies.tx
    }

    /// Outgoing bodies.
    pub fn tx_body_mut(&mut self) -> (p: &mut BodyPool)
        ensures
            *p == old(self).bodies.tx,
            *final(self) == (Memory::<P, WithBodies<P>> {
                bodies: WithBodies::<P> { tx: *final(p), ..old(self).bodies },
                ..*old(self)
            }),
    {
        &mut self.bodies.tx
    }
}

impl<P: MemoryProfile> Storage for Memory<P, NoBodies> {
    open spec fn wf(&self) -> bool {
        self.areas_ok()
    }

    open spec fn sizes(&self) -> Capacities {
        Capacities::of_profile::<P>()
    }

    open spec fn empty(&self) -> bool {
        self.areas_empty()
    }

    fn capacities(&self) -> (c: Capacities) {
        Capacities::from_profile::<P>()
    }

    fn into_store(self) -> (s: Store) {
        Store {
            rx: self.rx,
            tx: self.tx,
            dedup: self.dedup,
            observe: self.observe,
            bodies: None,
        }
    }
}

impl<P: MemoryProfile> Storage for Memory<P, WithBodies<P>> {
    open spec fn wf(&self) -> bool {
        self.areas_ok() && self.bodies.wf()
    }

    open spec fn sizes(&self) -> Capacities {
        Capacities::of_profile::<P>().block_wise::<P>()
    }

    open spec fn empty(&self) -> bool {
        self.areas_empty() && no_bodies(self.bodies.rx) && no_bodies(self.bodies.tx)
    }

    fn capacities(&self) -> (c: Capacities) {
        Capacities::from_profile::<P>().with_block_wise::<P>()
    }

    fn into_store(self) -> (s: Store) {
        Store {
            rx: self.rx,
            tx: self.tx,
            dedup: self.dedup,
            observe: self.observe,
            bodies: Some(Bodies { rx: self.bodies.rx, tx: self.bodies.tx }),
        }
    }
}

} // verus!
