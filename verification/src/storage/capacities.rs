//! Sizes of pools and tables.
use vstd::prelude::*;

use super::memory::MemoryProfile;
use crate::error::BuildError;

verus! {

/// Sizes of pools and tables. Body sizes are all set or all absent.
#[derive(Clone, Copy, Debug, PartialEq, Eq)]
pub struct Capacities {
    /// Incoming datagram slots.
    pub rx_datagram_slots: usize,
    /// Bytes in each of them.
    pub rx_datagram_bytes: usize,
    /// Outgoing datagram slots.
    pub tx_datagram_slots: usize,
    /// Bytes in each of them.
    pub tx_datagram_bytes: usize,
    /// Rows for answered requests.
    pub dedup_entries: usize,
    /// Rows for observations.
    pub observe_entries: usize,
    /// Incoming body slots.
    pub rx_body_slots: Option<usize>,
    /// Bytes in each of them.
    pub rx_body_bytes: Option<usize>,
    /// Outgoing body slots.
    pub tx_body_slots: Option<usize>,
    /// Bytes in each of them.
    pub tx_body_bytes: Option<usize>,
}

/// Is a body slot a whole number of largest blocks?
pub fn bytes_ok(bytes: usize) -> (b: bool)
    ensures
        b == (bytes % 1024 == 0),
{
    bytes % 1024 == 0
}

impl Capacities {
    /// The sizes of a profile, without bodies.
    pub open spec fn of_profile<P: MemoryProfile>() -> Capacities {
        Capacities {
            rx_datagram_slots: P::RX_DATAGRAM_SLOTS,
            rx_datagram_bytes: P::RX_DATAGRAM_BYTES,
            tx_datagram_slots: P::TX_DATAGRAM_SLOTS,
            tx_datagram_bytes: P::TX_DATAGRAM_BYTES,
            dedup_entries: P::DEDUP_ENTRIES,
            observe_entries: P::OBSERVE_ENTRIES,
            rx_body_slots: None,
            rx_body_bytes: None,
            tx_body_slots: None,
            tx_body_bytes: None,
        }
    }

    /// The same sizes, with the bodies of a profile.
    pub open spec fn block_wise<P: MemoryProfile>(self) -> Capacities {
        Capacities {
            rx_body_slots: Some(P::RX_BODY_SLOTS),
            rx_body_bytes: Some(P::RX_BODY_BYTES),
            tx_body_slots: Some(P::TX_BODY_SLOTS),
            tx_body_bytes: Some(P::TX_BODY_BYTES),
            ..self
        }
    }

    /// The sizes of a profile, without bodies.
    pub fn from_profile<P: MemoryProfile>() -> (c: Capacities)
        ensures
            c == Capacities::of_profile::<P>(),
    {
        Capacities {
            rx_datagram_slots: P::RX_DATAGRAM_SLOTS,
            rx_datagram_bytes: P::RX_DATAGRAM_BYTES,
            tx_datagram_slots: P::TX_DATAGRAM_SLOTS,
            tx_datagram_bytes: P::TX_DATAGRAM_BYTES,
            dedup_entries: P::DEDUP_ENTRIES,
            observe_entries: P::OBSERVE_ENTRIES,
            rx_body_slots: None,
            rx_body_bytes: None,
            tx_body_slots: None,
            tx_body_bytes: None,
        }
    }

    /// The same sizes, with the bodies of a profile.
    pub fn with_block_wise<P: MemoryProfile>(self) -> (c: Capacities)
        ensures
            c == self.block_wise::<P>(),
    {
        let mut c = self;
        c.rx_body_slots = Some(P::RX_BODY_SLOTS);
        c.rx_body_bytes = Some(P::RX_BODY_BYTES);
        c.tx_body_slots = Some(P::TX_BODY_SLOTS);
        c.tx_body_bytes = Some(P::TX_BODY_BYTES);
        c
    }

    /// Are all body sizes set?
    pub open spec fn has_bodies(self) -> bool {
        self.rx_body_slots.is_some() && self.rx_body_bytes.is_some() && self.tx_body_slots.is_some()
            && self.tx_body_bytes.is_some()
    }

    /// Is any body size set?
    pub open spec fn mentions_bodies(self) -> bool {
        self.rx_body_slots.is_some() || self.rx_body_bytes.is_some() || self.tx_body_slots.is_some()
            || self.tx_body_bytes.is_some()
    }

    /// What is wrong with the sizes for an engine with or without bodies.
    pub open spec fn fault(self, block_wise: bool) -> Option<BuildError> {
        if self.mentions_bodies() && !self.has_bodies() {
            Some(BuildError::IncompleteBodyCapacities)
        } else if !block_wise {
            if self.mentions_bodies() {
                Some(BuildError::UnexpectedBodyPools)
            } else {
                None
            }
        } else if !self.has_bodies() {
            Some(BuildError::MissingBodyPools)
        } else if self.rx_body_slots->0 == 0 || self.rx_body_bytes->0 == 0 || self.tx_body_slots->0
            == 0 || self.tx_body_bytes->0 == 0 {
            Some(BuildError::ZeroBodyCapacity)
        } else if self.rx_body_bytes->0 % 1024 != 0 || self.tx_body_bytes->0 % 1024 != 0 {
            Some(BuildError::BodyBytesNotMultipleOf1024)
        } else {
            None
        }
    }

    /// Check the sizes for an engine with or without bodies.
    pub fn validate_for_build(&self, block_wise: bool) -> (r: Result<(), BuildError>)
        ensures
            r == match self.fault(block_wise) {
                Some(e) => Err::<(), BuildError>(e),
                None => Ok(()),
            },
    {
        match (self.rx_body_slots, self.rx_body_bytes, self.tx_body_slots, self.tx_body_bytes) {
            (None, None, None, None) => if block_wise {
                Err(BuildError::MissingBodyPools)
            } else {
                Ok(())
            },
            (Some(rs), Some(rb), Some(ts), Some(tb)) => if !block_wise {
                Err(BuildError::UnexpectedBodyPools)
            } else if rs == 0 || rb == 0 || ts == 0 || tb == 0 {
                Err(BuildError::ZeroBodyCapacity)
            } else if !bytes_ok(rb) || !bytes_ok(tb) {
                Err(BuildError::BodyBytesNotMultipleOf1024)
            } else {
                Ok(())
            },
            _ => Err(BuildError::IncompleteBodyCapacities),
        }
    }
}

} // verus!
