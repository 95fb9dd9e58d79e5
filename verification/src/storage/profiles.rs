//! Shipped memory profiles.
use vstd::prelude::*;

use super::memory::MemoryProfile;

verus! {

/// 1472-byte datagrams: a UDP payload in an Ethernet frame.
#[derive(Clone, Copy, Debug)]
pub struct Default;

impl MemoryProfile for Default {
    const RX_DATAGRAM_SLOTS: usize = 4;

    const RX_DATAGRAM_BYTES: usize = 1472;

    const TX_DATAGRAM_SLOTS: usize = 4;

    const TX_DATAGRAM_BYTES: usize = 1472;

    const DEDUP_ENTRIES: usize = 8;

    const OBSERVE_ENTRIES: usize = 4;

    const RX_BODY_SLOTS: usize = 2;

    const RX_BODY_BYTES: usize = 4096;

    const TX_BODY_SLOTS: usize = 2;

    const TX_BODY_BYTES: usize = 4096;
}

/// 1152-byte datagrams.
#[derive(Clone, Copy, Debug)]
pub struct Constrained;

impl MemoryProfile for Constrained {
    const RX_DATAGRAM_SLOTS: usize = 2;

    const RX_DATAGRAM_BYTES: usize = 1152;

    const TX_DATAGRAM_SLOTS: usize = 2;

    const TX_DATAGRAM_BYTES: usize = 1152;

    const DEDUP_ENTRIES: usize = 4;

    const OBSERVE_ENTRIES: usize = 2;

    const RX_BODY_SLOTS: usize = 1;

    const RX_BODY_BYTES: usize = 4096;

    const TX_BODY_SLOTS: usize = 1;

    const TX_BODY_BYTES: usize = 4096;
}

/// The sizes of the shipped profiles.
pub proof fn law_profile_sizes()
    ensures
        Default::RX_DATAGRAM_SLOTS == 4,
        Default::RX_DATAGRAM_BYTES == 1472,
        Default::TX_DATAGRAM_SLOTS == 4,
        Default::TX_DATAGRAM_BYTES == 1472,
        Default::DEDUP_ENTRIES == 8,
        Default::OBSERVE_ENTRIES == 4,
        Default::RX_BODY_SLOTS == 2,
        Default::RX_BODY_BYTES == 4096,
        Default::TX_BODY_SLOTS == 2,
        Default::TX_BODY_BYTES == 4096,
        Constrained::RX_DATAGRAM_SLOTS == 2,
        Constrained::RX_DATAGRAM_BYTES == 1152,
        Constrained::TX_DATAGRAM_SLOTS == 2,
        Constrained::TX_DATAGRAM_BYTES == 1152,
        Constrained::DEDUP_ENTRIES == 4,
        Constrained::OBSERVE_ENTRIES == 2,
        Constrained::RX_BODY_SLOTS == 1,
        Constrained::RX_BODY_BYTES == 4096,
        Constrained::TX_BODY_SLOTS == 1,
        Constrained::TX_BODY_BYTES == 4096,
{
}

} // verus!
