//! Transmission parameters and option numbers.
use vstd::prelude::*;

verus! {

/// Transmission parameters of the base protocol, in milliseconds.
pub struct Transmission;

impl Transmission {
    /// First retransmission timeout, before jitter.
    pub const ACK_TIMEOUT_MS: u32 = 2000;

    /// Span of the random addition to the first timeout.
    pub const ACK_RANDOM_SPAN_MS: u32 = 1000;

    /// Retransmissions before giving up.
    pub const MAX_RETRANSMIT: u8 = 4;

    /// Outstanding confirmable messages per peer.
    pub const NSTART: u8 = 1;

    /// How long an exchange of a confirmable message may last.
    pub const EXCHANGE_LIFETIME_MS: u32 = 247000;

    /// How long a non-confirmable message may still be around.
    pub const NON_LIFETIME_MS: u32 = 145000;

    /// The first retransmission timeout for a jitter sample.
    pub open spec fn initial_timeout(jitter: u32) -> int {
        2000 + if jitter <= 1000 {
            jitter as int
        } else {
            1000
        }
    }

    /// The first retransmission timeout for a jitter sample, which is cut off
    /// at [`Transmission::ACK_RANDOM_SPAN_MS`].
    pub fn initial_timeout_ms(jitter: u32) -> (ms: u32)
        ensures
            ms as int == Transmission::initial_timeout(jitter),
            2000 <= ms <= 3000,
    {
        if jitter <= Transmission::ACK_RANDOM_SPAN_MS {
            Transmission::ACK_TIMEOUT_MS + jitter
        } else {
            Transmission::ACK_TIMEOUT_MS + Transmission::ACK_RANDOM_SPAN_MS
        }
    }
}

/// Observe parameters.
pub struct ObserveTransmission;

impl ObserveTransmission {
    /// A notification at least this often must be confirmable.
    pub const CONFIRM_INTERVAL_MS: u64 = 86400000;

    /// Pause between non-confirmable notifications to one observer.
    pub const NOTIFY_HOLD_MS: u64 = 3000;
}

/// Q-Block parameters.
pub struct QBlockTransmission;

impl QBlockTransmission {
    /// Wait for the rest of a payload set before asking again.
    pub const NON_RECEIVE_TIMEOUT_MS: u32 = 4000;

    /// Recovery requests before a partial body is given up.
    pub const NON_MAX_RETRANSMIT: u8 = 4;
}

/// Registered option numbers.
pub struct OptionNumber;

impl OptionNumber {
    /// If-Match
    pub const IF_MATCH: u16 = 1;

    /// Uri-Host
    pub const URI_HOST: u16 = 3;

    /// ETag
    pub const ETAG: u16 = 4;

    /// If-None-Match
    pub const IF_NONE_MATCH: u16 = 5;

    /// Observe
    pub const OBSERVE: u16 = 6;

    /// Uri-Port
    pub const URI_PORT: u16 = 7;

    /// Location-Path
    pub const LOCATION_PATH: u16 = 8;

    /// OSCORE
    pub const OSCORE: u16 = 9;

    /// Uri-Path
    pub const URI_PATH: u16 = 11;

    /// Content-Format
    pub const CONTENT_FORMAT: u16 = 12;

    /// Max-Age
    pub const MAX_AGE: u16 = 14;

    /// Uri-Query
    pub const URI_QUERY: u16 = 15;

    /// Hop-Limit
    pub const HOP_LIMIT: u16 = 16;

    /// Accept
    pub const ACCEPT: u16 = 17;

    /// Q-Block1
    pub const Q_BLOCK1: u16 = 19;

    /// Location-Query
    pub const LOCATION_QUERY: u16 = 20;

    /// Block2
    pub const BLOCK2: u16 = 23;

    /// Block1
    pub const BLOCK1: u16 = 27;

    /// Size2
    pub const SIZE2: u16 = 28;

    /// Q-Block2
    pub const Q_BLOCK2: u16 = 31;

    /// Proxy-Uri
    pub const PROXY_URI: u16 = 35;

    /// Proxy-Scheme
    pub const PROXY_SCHEME: u16 = 39;

    /// Size1
    pub const SIZE1: u16 = 60;

    /// Echo
    pub const ECHO: u16 = 252;

    /// No-Response
    pub const NO_RESPONSE: u16 = 258;

    /// Request-Tag
    pub const REQUEST_TAG: u16 = 292;

    /// Must an endpoint that does not know the option reject the message?
    pub open spec fn critical(number: u16) -> bool {
        number % 2 == 1
    }

    /// Is the number one that this library gives a meaning to?
    pub open spec fn known(number: u16) -> bool {
        number == 1 || number == 3 || number == 4 || number == 5 || number == 6 || number == 7
            || number == 8 || number == 9 || number == 11 || number == 12 || number == 14 || number
            == 15 || number == 16 || number == 17 || number == 19 || number == 20 || number == 23
            || number == 27 || number == 28 || number == 31 || number == 35 || number == 39
            || number == 60 || number == 252 || number == 258 || number == 292
    }

    /// Is the number one of those that the base protocol registers?
    pub open spec fn base(number: u16) -> bool {
        number == 1 || number == 3 || number == 4 || number == 5 || number == 7 || number == 8
            || number == 11 || number == 12 || number == 14 || number == 15 || number == 17
            || number == 20 || number == 35 || number == 39 || number == 60
    }

    /// Must an endpoint that does not know the option reject the message?
    pub fn is_critical(number: u16) -> (b: bool)
        ensures
            b == OptionNumber::critical(number),
    {
        number % 2 == 1
    }

    /// Is the number one that this library gives a meaning to?
    pub fn is_known(number: u16) -> (b: bool)
        ensures
            b == OptionNumber::known(number),
    {
        number == 1 || number == 3 || number == 4 || number == 5 || number == 6 || number == 7
            || number == 8 || number == 9 || number == 11 || number == 12 || number == 14 || number
            == 15 || number == 16 || number == 17 || number == 19 || number == 20 || number == 23
            || number == 27 || number == 28 || number == 31 || number == 35 || number == 39
            || number == 60 || number == 252 || number == 258 || number == 292
    }

    /// Is the number one of those that the base protocol registers?
    pub fn is_base(number: u16) -> (b: bool)
        ensures
            b == OptionNumber::base(number),
    {
        number == 1 || number == 3 || number == 4 || number == 5 || number == 7 || number == 8
            || number == 11 || number == 12 || number == 14 || number == 15 || number == 17
            || number == 20 || number == 35 || number == 39 || number == 60
    }
}

} // verus!
