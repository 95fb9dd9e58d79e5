//! A builder that pins the sizes of an engine's storage.
use core::marker::PhantomData;
use vstd::prelude::*;

use super::capacities::{bytes_ok, Capacities};
use super::engine::{Engine, Store};
use super::memory::{MemoryProfile, Storage};
use super::metrics::Metrics;
use crate::error::BuildError;

verus! {

/// Typestate: a required builder input is not yet set.
#[derive(Clone, Copy, Debug)]
pub struct Missing;

/// Typestate: a required builder input is set.
#[derive(Clone, Copy, Debug)]
pub struct Present;

/// The sizes that storage must have.
#[derive(Clone, Copy, Debug)]
pub struct Expected {
    /// Incoming datagram slots and their bytes.
    pub rx_datagram: Option<(usize, usize)>,
    /// Outgoing datagram slots and their bytes.
    pub tx_datagram: Option<(usize, usize)>,
    /// Rows for answered requests.
    pub dedup: Option<usize>,
    /// Rows for observations.
    pub observe: Option<usize>,
    /// Incoming body slots and their bytes.
    pub rx_body: Option<(usize, usize)>,
    /// Outgoing body slots and their bytes.
    pub tx_body: Option<(usize, usize)>,
    /// Were the body sizes taken from a profile?
    pub bodies_from_profile: bool,
}

/// Consuming typestate builder.
///
/// `build` exists only after the datagram pools and tables are specified, by a
/// profile or one by one, and [`EngineBuilder::block_wise`] has been called.
pub struct EngineBuilder<
    Rx = Missing,
    Tx = Missing,
    Dedup = Missing,
    Observe = Missing,
    Block = Missing,
> {
    /// The sizes that storage must have.
    pub expected: Expected,
    /// Is block-wise transfer on?
    pub block: bool,
    /// What has been set.
    pub state: PhantomData<(Rx, Tx, Dedup, Observe, Block)>,
}

impl EngineBuilder<Missing, Missing, Missing, Missing, Missing> {
    /// An empty builder.
    pub fn new() -> (b: Self)
        ensures
            b.expected == (Expected {
                rx_datagram: None,
                tx_datagram: None,
                dedup: None,
                observe: None,
                rx_body: None,
                tx_body: None,
                bodies_from_profile: false,
            }),
            !b.block,
    {
        EngineBuilder {
            expected: Expected {
                rx_datagram: None,
                tx_datagram: None,
                dedup: None,
                observe: None,
                rx_body: None,
                tx_body: None,
                bodies_from_profile: false,
            },
            block: false,
            state: PhantomData,
        }
    }
}

impl<Rx, Tx, Dedup, Observe, Block> EngineBuilder<Rx, Tx, Dedup, Observe, Block> {
    fn cast<NRx, NTx, NDedup, NObserve, NBlock>(self) -> (b: EngineBuilder<
        NRx,
        NTx,
        NDedup,
        NObserve,
        NBlock,
    >)
        ensures
            b.expected == self.expected,
            b.block == self.block,
    {
        EngineBuilder { expected: self.expected, block: self.block, state: PhantomData }
    }

    /// Fill every area from a profile, body sizes included.
    pub fn profile<P: MemoryProfile>(self) -> (b: EngineBuilder<
        Present,
        Present,
        Present,
        Present,
        Block,
    >)
        ensures
            b.expected == (Expected {
                rx_datagram: Some((P::RX_DATAGRAM_SLOTS, P::RX_DATAGRAM_BYTES)),
                tx_datagram: Some((P::TX_DATAGRAM_SLOTS, P::TX_DATAGRAM_BYTES)),
                dedup: Some(P::DEDUP_ENTRIES),
                observe: Some(P::OBSERVE_ENTRIES),
                rx_body: Some((P::RX_BODY_SLOTS, P::RX_BODY_BYTES)),
                tx_body: Some((P::TX_BODY_SLOTS, P::TX_BODY_BYTES)),
                bodies_from_profile: true,
            }),
            b.block == self.block,
    {
        let mut b = self;
        b.expected =
        Expected {
            rx_datagram: Some((P::RX_DATAGRAM_SLOTS, P::RX_DATAGRAM_BYTES)),
            tx_datagram: Some((P::TX_DATAGRAM_SLOTS, P::TX_DATAGRAM_BYTES)),
            dedup: Some(P::DEDUP_ENTRIES),
            observe: Some(P::OBSERVE_ENTRIES),
            rx_body: Some((P::RX_BODY_SLOTS, P::RX_BODY_BYTES)),
            tx_body: Some((P::TX_BODY_SLOTS, P::TX_BODY_BYTES)),
            bodies_from_profile: true,
        };
        b.cast()
    }

    /// Incoming datagram slots and their bytes.
    pub fn rx_datagram(self, slots: usize, bytes: usize) -> (b: EngineBuilder<
        Present,
        Tx,
        Dedup,
        Observe,
        Block,
    >)
        ensures
            b.expected == (Expected { rx_datagram: Some((slots, bytes)), ..self.expected }),
            b.block == self.block,
    {
        let mut b = self;
        b.expected.rx_datagram = Some((slots, bytes));
        b.cast()
    }

    /// Outgoing datagram slots and their bytes.
    pub fn tx_datagram(self, slots: usize, bytes: usize) -> (b: EngineBuilder<
        Rx,
        Present,
        Dedup,
        Observe,
        Block,
    >)
        ensures
            b.expected == (Expected { tx_datagram: Some((slots, bytes)), ..self.expected }),
            b.block == self.block,
    {
        let mut b = self;
        b.expected.tx_datagram = Some((slots, bytes));
        b.cast()
    }

    /// Rows for answered requests.
    pub fn dedup(self, entries: usize) -> (b: EngineBuilder<Rx, Tx, Present, Observe, Block>)
        ensures
            b.expected == (Expected { dedup: Some(entries), ..self.expected }),
            b.block == self.block,
    {
        let mut b = self;
        b.expected.dedup = Some(entries);
        b.cast()
    }

    /// Rows for observations.
    pub fn observe(self, entries: usize) -> (b: EngineBuilder<Rx, Tx, Dedup, Present, Block>)
        ensures
            b.expected == (Expected { observe: Some(entries), ..self.expected }),
            b.block == self.block,
    {
        let mut b = self;
        b.expected.observe = Some(entries);
        b.cast()
    }

    /// Incoming body slots and their bytes.
    pub fn rx_body(self, slots: usize, bytes: usize) -> (b: Self)
        ensures
            b.expected == (Expected {
                rx_body: Some((slots, bytes)),
                bodies_from_profile: false,
                ..self.expected
            }),
            b.block == self.block,
    {
        let mut b = self;
        b.expected.rx_body = Some((slots, bytes));
        b.expected.bodies_from_profile = false;
        b
    }

    /// Outgoing body slots and their bytes.
    pub fn tx_body(self, slots: usize, bytes: usize) -> (b: Self)
        ensures
            b.expected == (Expected {
                tx_body: Some((slots, bytes)),
                bodies_from_profile: false,
                ..self.expected
            }),
            b.block == self.block,
    {
        let mut b = self;
        b.expected.tx_body = Some((slots, bytes));
        b.expected.bodies_from_profile = false;
        b
    }
}

impl<Rx, Tx, Dedup, Observe> EngineBuilder<Rx, Tx, Dedup, Observe, Missing> {
    /// Set the block-wise switch.
    pub fn block_wise(self, enabled: bool) -> (b: EngineBuilder<Rx, Tx, Dedup, Observe, Present>)
        ensures
            b.expected == self.expected,
            b.block == enabled,
    {
        let mut b = self;
        b.block = enabled;
        b.cast()
    }
}

impl EngineBuilder<Present, Present, Present, Present, Present> {
    /// Move `storage` in. Its sizes must be those expected.
    pub fn build<S: Storage>(self, storage: S) -> (r: Result<Engine, BuildError>)
        requires
            storage.wf(),
        ensures
            match build_fault(self.expected, storage.sizes(), self.block) {
                Some(e) => r == Err::<Engine, BuildError>(e),
                None => r matches Ok(engine) && engine.wf() && engine.store.has_sizes(
                    storage.sizes(),
                ) && engine.metrics == Metrics::none() && engine.idle() && (storage.empty()
                    ==> engine.store.is_fresh()),
            },
    {
        match check(&self.expected, &storage.capacities(), self.block) {
            Ok(()) => Ok(Engine::from_store(storage.into_store())),
            Err(e) => Err(e),
        }
    }

    /// Allocate storage of the given sizes.
    pub fn build_alloc(self, capacities: Capacities) -> (r: Result<Engine, BuildError>)
        ensures
            match build_fault(self.expected, capacities, self.block) {
                Some(e) => r == Err::<Engine, BuildError>(e),
                None => r matches Ok(engine) && engine.wf() && engine.store.has_sizes(capacities)
                    && engine.store.is_fresh() && engine.idle() && engine.metrics
                    == Metrics::none(),
            },
    {
        match check(&self.expected, &capacities, self.block) {
            Ok(()) => Ok(Engine::from_store(Store::from_capacities(capacities))),
            Err(e) => Err(e),
        }
    }
}

/// Do the slots and bytes differ from those expected?
pub open spec fn pair_differs(expected: Option<(usize, usize)>, slots: usize, bytes: usize) -> bool {
    match expected {
        Some((n, b)) => n != slots || b != bytes,
        None => false,
    }
}

/// Does the count differ from the one expected?
pub open spec fn count_differs(expected: Option<usize>, got: usize) -> bool {
    match expected {
        Some(n) => n != got,
        None => false,
    }
}

/// What is wrong with a pool of bodies.
pub open spec fn body_fault(
    expected: Option<(usize, usize)>,
    slots: Option<usize>,
    bytes: Option<usize>,
) -> Option<BuildError> {
    match expected {
        None => None,
        Some((n, b)) => if n == 0 || b == 0 {
            Some(BuildError::ZeroBodyCapacity)
        } else if b % 1024 != 0 {
            Some(BuildError::BodyBytesNotMultipleOf1024)
        } else if slots != Some(n) || bytes != Some(b) {
            Some(BuildError::SizeMismatch)
        } else {
            None
        },
    }
}

/// Why an engine is not built over storage of these sizes.
pub open spec fn build_fault(expected: Expected, sizes: Capacities, block_wise: bool) -> Option<
    BuildError,
> {
    if sizes.fault(block_wise).is_some() {
        sizes.fault(block_wise)
    } else if pair_differs(expected.rx_datagram, sizes.rx_datagram_slots, sizes.rx_datagram_bytes)
        || pair_differs(expected.tx_datagram, sizes.tx_datagram_slots, sizes.tx_datagram_bytes)
        || count_differs(expected.dedup, sizes.dedup_entries) || count_differs(
        expected.observe,
        sizes.observe_entries,
    ) {
        Some(BuildError::SizeMismatch)
    } else if block_wise {
        match body_fault(expected.rx_body, sizes.rx_body_slots, sizes.rx_body_bytes) {
            Some(e) => Some(e),
            None => body_fault(expected.tx_body, sizes.tx_body_slots, sizes.tx_body_bytes),
        }
    } else if !expected.bodies_from_profile && (expected.rx_body.is_some()
        || expected.tx_body.is_some()) {
        Some(BuildError::UnexpectedBodyPools)
    } else {
        None
    }
}

/// Check storage sizes against those expected.
pub fn check(expected: &Expected, storage: &Capacities, block_wise: bool) -> (r: Result<
    (),
    BuildError,
>)
    ensures
        r == match build_fault(*expected, *storage, block_wise) {
            Some(e) => Err::<(), BuildError>(e),
            None => Ok(()),
        },
{
    if let Err(e) = storage.validate_for_build(block_wise) {
        return Err(e);
    }
    if let Err(e) = check_pair(
        expected.rx_datagram,
        storage.rx_datagram_slots,
        storage.rx_datagram_bytes,
    ) {
        return Err(e);
    }
    if let Err(e) = check_pair(
        expected.tx_datagram,
        storage.tx_datagram_slots,
        storage.tx_datagram_bytes,
    ) {
        return Err(e);
    }
    if let Err(e) = check_count(expected.dedup, storage.dedup_entries) {
        return Err(e);
    }
    if let Err(e) = check_count(expected.observe, storage.observe_entries) {
        return Err(e);
    }
    if block_wise {
        if let Err(e) = check_body(expected.rx_body, storage.rx_body_slots, storage.rx_body_bytes) {
            return Err(e);
        }
        if let Err(e) = check_body(expected.tx_body, storage.tx_body_slots, storage.tx_body_bytes) {
            return Err(e);
        }
    } else if !expected.bodies_from_profile && (expected.rx_body.is_some()
        || expected.tx_body.is_some()) {
        return Err(BuildError::UnexpectedBodyPools);
    }
    Ok(())
}

fn check_pair(expected: Option<(usize, usize)>, slots: usize, bytes: usize) -> (r: Result<
    (),
    BuildError,
>)
    ensures
        r == if pair_differs(expected, slots, bytes) {
            Err::<(), BuildError>(BuildError::SizeMismatch)
        } else {
            Ok(())
        },
{
    match expected {
        Some((n, b)) => if n != slots || b != bytes {
            Err(BuildError::SizeMismatch)
        } else {
            Ok(())
        },
        None => Ok(()),
    }
}

fn check_count(expected: Option<usize>, got: usize) -> (r: Result<(), BuildError>)
    ensures
        r == if count_differs(expected, got) {
            Err::<(), BuildError>(BuildError::SizeMismatch)
        } else {
            Ok(())
        },
{
    match expected {
        Some(n) => if n != got {
            Err(BuildError::SizeMismatch)
        } else {
            Ok(())
        },
        None => Ok(()),
    }
}

fn check_body(
    expected: Option<(usize, usize)>,
    slots: Option<usize>,
    bytes: Option<usize>,
) -> (r: Result<(), BuildError>)
    ensures
        r == match body_fault(expected, slots, bytes) {
            Some(e) => Err::<(), BuildError>(e),
            None => Ok(()),
        },
{
    match expected {
        None => Ok(()),
        Some((n, b)) => {
            if n == 0 || b == 0 {
                return Err(BuildError::ZeroBodyCapacity);
            }
            if !bytes_ok(b) {
                return Err(BuildError::BodyBytesNotMultipleOf1024);
            }
            match (slots, bytes) {
                (Some(s), Some(t)) => if s == n && t == b {
                    Ok(())
                } else {
                    Err(BuildError::SizeMismatch)
                },
                _ => Err(BuildError::SizeMismatch),
            }
        },
    }
}

/// A profile's own storage is accepted, with and without bodies, as long as
/// its body sizes are whole numbers of largest blocks and not zero.
pub proof fn law_profile_builds<P: MemoryProfile>(expected: Expected)
    requires
        expected.rx_datagram == Some((P::RX_DATAGRAM_SLOTS, P::RX_DATAGRAM_BYTES)),
        expected.tx_datagram == Some((P::TX_DATAGRAM_SLOTS, P::TX_DATAGRAM_BYTES)),
        expected.dedup == Some(P::DEDUP_ENTRIES),
        expected.observe == Some(P::OBSERVE_ENTRIES),
        expected.rx_body == Some((P::RX_BODY_SLOTS, P::RX_BODY_BYTES)),
        expected.tx_body == Some((P::TX_BODY_SLOTS, P::TX_BODY_BYTES)),
        expected.bodies_from_profile,
        P::RX_BODY_SLOTS > 0,
        P::TX_BODY_SLOTS > 0,
        P::RX_BODY_BYTES > 0,
        P::TX_BODY_BYTES > 0,
        P::RX_BODY_BYTES % 1024 == 0,
        P::TX_BODY_BYTES % 1024 == 0,
    ensures
        build_fault(expected, Capacities::of_profile::<P>(), false).is_none(),
        build_fault(expected, Capacities::of_profile::<P>().block_wise::<P>(), true).is_none(),
{
}

} // verus!
