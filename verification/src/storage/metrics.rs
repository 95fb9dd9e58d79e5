//! Reactor counters.
use vstd::prelude::*;

verus! {

/// Counters of what the reactor did. They wrap.
#[derive(Clone, Copy, Debug, PartialEq, Eq, Structural)]
pub struct Metrics {
    /// Datagrams taken into a slot.
    pub rx_accepted: u32,
    /// Datagrams that were not messages.
    pub rx_error: u32,
    /// Datagrams handed to the transport.
    pub tx_ok: u32,
    /// Datagrams that the transport refused.
    pub tx_fail: u32,
    /// Reactor steps.
    pub progress: u32,
    /// Receives without a free slot.
    pub saturated: u32,
    /// Confirmable messages sent again.
    pub con_retransmit: u32,
    /// Confirmable messages given up.
    pub give_up: u32,
    /// Messages held back because their peer had one outstanding.
    pub nstart_reject: u32,
    /// Empty acknowledgements received.
    pub empty_ack: u32,
    /// Empty resets received.
    pub empty_rst: u32,
    /// Observations begun.
    pub observe_register: u32,
    /// Notifications sent.
    pub observe_notify: u32,
    /// Observations ended.
    pub observe_cancel: u32,
    /// Blocks of incoming request bodies taken in.
    pub block1_assemble: u32,
    /// Blocks of incoming response bodies taken in.
    pub block2_assemble: u32,
}

/// One more, wrapping.
pub open spec fn inc(n: u32) -> u32 {
    if n == u32::MAX {
        0
    } else {
        (n + 1) as u32
    }
}

impl Metrics {
    /// All counters at zero.
    pub open spec fn none() -> Metrics {
        Metrics {
            rx_accepted: 0,
            rx_error: 0,
            tx_ok: 0,
            tx_fail: 0,
            progress: 0,
            saturated: 0,
            con_retransmit: 0,
            give_up: 0,
            nstart_reject: 0,
            empty_ack: 0,
            empty_rst: 0,
            observe_register: 0,
            observe_notify: 0,
            observe_cancel: 0,
            block1_assemble: 0,
            block2_assemble: 0,
        }
    }

    /// All counters at zero.
    pub fn zero() -> (m: Metrics)
        ensures
            m == Metrics::none(),
    {
        Metrics {
            rx_accepted: 0,
            rx_error: 0,
            tx_ok: 0,
            tx_fail: 0,
            progress: 0,
            saturated: 0,
            con_retransmit: 0,
            give_up: 0,
            nstart_reject: 0,
            empty_ack: 0,
            empty_rst: 0,
            observe_register: 0,
            observe_notify: 0,
            observe_cancel: 0,
            block1_assemble: 0,
            block2_assemble: 0,
        }
    }

    /// Count one more, wrapping.
    pub fn inc(n: u32) -> (m: u32)
        ensures
            m == inc(n),
    {
        if n == u32::MAX {
            0
        } else {
            n + 1
        }
    }
}

} // verus!
