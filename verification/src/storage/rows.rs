//! Rows of the engine's tables.
use vstd::prelude::*;

use super::endpoint::{DedupKey, Endpoint, Key, KeyView, ObserveKey, SlotId};
use super::table::Keyed;
use crate::bytes::to_vec;
use crate::message::{ContentFormat, MessageId, ObserveTransmission, Token, Type};

verus! {

/// A confirmable message that waits for its acknowledgement.
#[derive(Clone, Copy, Debug, PartialEq, Eq, Structural)]
pub struct PendingCon {
    /// The outgoing slot that holds the message.
    pub tx: SlotId,
    /// Its message identifier.
    pub mid: MessageId,
    /// Its destination.
    pub peer: Endpoint,
    /// When it is due again.
    pub due_ms: u64,
    /// The current timeout.
    pub timeout_ms: u32,
    /// How often it was sent again.
    pub retries: u8,
}

/// What a due confirmable message asks for.
#[derive(Clone, Copy, Debug, PartialEq, Eq, Structural)]
pub enum Retransmit {
    /// Send it again.
    Due(PendingCon),
    /// It was sent often enough.
    GiveUp(PendingCon),
}

/// An outstanding client request.
#[derive(Clone, Copy, Debug, PartialEq, Eq)]
pub struct ExchangeEntry {
    /// The token sent.
    pub token: Token,
    /// The destination.
    pub peer: Endpoint,
    /// The message identifier sent.
    pub mid: MessageId,
    /// The outgoing slot it was sent from; it may have been reused since.
    pub tx: SlotId,
}

impl ExchangeEntry {
    /// Does a response of this type with this identifier answer the request?
    /// An acknowledgement must carry the request's identifier.
    pub open spec fn answered_by(self, ty: Type, mid: u16) -> bool {
        match ty {
            Type::Acknowledgement => mid == self.mid.raw,
            Type::Reset => false,
            _ => true,
        }
    }

    /// Does a response of this type with this identifier answer the request?
    pub fn is_answered_by(&self, ty: Type, mid: MessageId) -> (b: bool)
        ensures
            b == self.answered_by(ty, mid.raw),
    {
        match ty {
            Type::Acknowledgement => mid.raw == self.mid.raw,
            Type::Reset => false,
            _ => true,
        }
    }
}

impl Keyed for ExchangeEntry {
    open spec fn row_key(&self) -> KeyView {
        KeyView::Token { token: self.token@, peer: self.peer, client: true }
    }

    fn has_key(&self, key: &Key) -> (b: bool) {
        self.key_of().same(key)
    }

    fn key_of(&self) -> (k: Key) {
        Key::Token { token: self.token, peer: self.peer, client: true }
    }
}

/// A request that was answered, and what it was answered with.
#[derive(Debug)]
pub struct DedupEntry {
    /// The request's message identifier.
    pub mid: MessageId,
    /// The requesting peer.
    pub peer: Endpoint,
    /// When the row may be forgotten; zero means never.
    pub due_ms: u64,
    /// The reply, when it is short.
    pub replay: Option<Vec<u8>>,
    /// The outgoing slot that keeps the reply, when it is long.
    pub tx_pin: Option<SlotId>,
}

impl Keyed for DedupEntry {
    open spec fn row_key(&self) -> KeyView {
        KeyView::Mid { mid: self.mid.raw, peer: self.peer }
    }

    fn has_key(&self, key: &Key) -> (b: bool) {
        self.key_of().same(key)
    }

    fn key_of(&self) -> (k: Key) {
        Key::Mid { mid: self.mid, peer: self.peer }
    }
}

impl DedupEntry {
    /// The longest reply that a row keeps itself.
    pub const REPLAY_MAX: usize = 128;

    /// A row without a reply that is never forgotten.
    pub fn new(mid: MessageId, peer: Endpoint) -> (e: DedupEntry)
        ensures
            e == (DedupEntry { mid, peer, due_ms: 0, replay: None, tx_pin: None }),
    {
        DedupEntry { mid, peer, due_ms: 0, replay: None, tx_pin: None }
    }

    /// Set when the row may be forgotten.
    pub fn with_due_ms(self, due_ms: u64) -> (e: DedupEntry)
        ensures
            e == (DedupEntry { due_ms, ..self }),
    {
        DedupEntry {
            mid: self.mid,
            peer: self.peer,
            due_ms,
            replay: self.replay,
            tx_pin: self.tx_pin,
        }
    }

    /// Keep a reply of at most [`DedupEntry::REPLAY_MAX`] bytes in the row.
    pub fn with_replay(self, bytes: &[u8]) -> (e: DedupEntry)
        ensures
            e.mid == self.mid && e.peer == self.peer && e.due_ms == self.due_ms && e.tx_pin
                == self.tx_pin,
            bytes@.len() <= DedupEntry::REPLAY_MAX ==> (e.replay matches Some(r) && r@ == bytes@),
            bytes@.len() > DedupEntry::REPLAY_MAX ==> e.replay == self.replay,
    {
        if bytes.len() > DedupEntry::REPLAY_MAX {
            return self;
        }
        DedupEntry {
            mid: self.mid,
            peer: self.peer,
            due_ms: self.due_ms,
            replay: Some(to_vec(bytes)),
            tx_pin: self.tx_pin,
        }
    }

    /// Keep the reply in an outgoing slot.
    pub fn with_tx_pin(self, tx: SlotId) -> (e: DedupEntry)
        ensures
            e == (DedupEntry { tx_pin: Some(tx), ..self }),
    {
        DedupEntry {
            mid: self.mid,
            peer: self.peer,
            due_ms: self.due_ms,
            replay: self.replay,
            tx_pin: Some(tx),
        }
    }

    /// Is there a reply to send again?
    pub open spec fn usable(&self) -> bool {
        self.replay.is_some() || self.tx_pin.is_some()
    }

    /// Is there a reply to send again?
    pub fn has_usable_replay(&self) -> (b: bool)
        ensures
            b == self.usable(),
    {
        self.replay.is_some() || self.tx_pin.is_some()
    }

    /// When the row may be forgotten; zero means never.
    pub fn due_ms(&self) -> (ms: u64)
        ensures
            ms == self.due_ms,
    {
        self.due_ms
    }

    /// Has the row's time come?
    pub open spec fn expired(&self, now_ms: u64) -> bool {
        self.due_ms != 0 && now_ms >= self.due_ms
    }

    /// What the row is found by.
    pub fn key(&self) -> (k: DedupKey)
        ensures
            k == (DedupKey { mid: self.mid, peer: self.peer }),
    {
        DedupKey { mid: self.mid, peer: self.peer }
    }
}

/// Why no further notification may go out yet.
#[derive(Clone, Copy, Debug, PartialEq, Eq, Structural)]
pub enum NotifyHold {
    /// A pause after a non-confirmable notification.
    Until(u64),
    /// A confirmable notification waits for its acknowledgement.
    Con(MessageId),
}

/// How long a representation stays fresh.
#[derive(Clone, Copy, Debug, PartialEq, Eq, Structural)]
pub struct ObserveLifetime {
    /// The end of its Max-Age.
    pub due_ms: u64,
}

impl ObserveLifetime {
    /// The end of its Max-Age.
    pub fn due_ms(self) -> (ms: u64)
        ensures
            ms == self.due_ms,
    {
        self.due_ms
    }
}

/// An observation: an observer of this endpoint, or a subscription of it.
#[derive(Clone, Copy, Debug, PartialEq, Eq)]
pub struct ObserveInterest {
    /// The token of the registration.
    pub token: Token,
    /// The other side.
    pub peer: Endpoint,
    /// Is this side the client?
    pub client: bool,
    /// The observed route.
    pub resource: Option<usize>,
    /// Content-Format of the first representation.
    pub content_format: Option<ContentFormat>,
    /// Sequence number of the latest notification, 24 bits.
    pub seq: u32,
    /// Is a notification wanted?
    pub pending: bool,
    /// Was the resource deleted?
    pub deleted: bool,
    /// Freshness of the latest representation.
    pub lifetime: Option<ObserveLifetime>,
    /// Why no further notification may go out yet.
    pub hold: Option<NotifyHold>,
    /// Identifier of the latest notification.
    pub notify_mid: Option<MessageId>,
    /// When the observer last had reason to be counted alive.
    pub confirmed_ms: Option<u64>,
}

impl Keyed for ObserveInterest {
    open spec fn row_key(&self) -> KeyView {
        KeyView::Token { token: self.token@, peer: self.peer, client: self.client }
    }

    fn has_key(&self, key: &Key) -> (b: bool) {
        self.key_of().same(key)
    }

    fn key_of(&self) -> (k: Key) {
        Key::Token { token: self.token, peer: self.peer, client: self.client }
    }
}

impl ObserveInterest {
    /// A new observation, with nothing sent yet.
    pub fn new(key: ObserveKey) -> (r: ObserveInterest)
        ensures
            r == (ObserveInterest {
                token: key.token,
                peer: key.peer,
                client: key.client,
                resource: None,
                content_format: None,
                seq: 0,
                pending: false,
                deleted: false,
                lifetime: None,
                hold: None,
                notify_mid: None,
                confirmed_ms: None,
            }),
    {
        ObserveInterest {
            token: key.token,
            peer: key.peer,
            client: key.client,
            resource: None,
            content_format: None,
            seq: 0,
            pending: false,
            deleted: false,
            lifetime: None,
            hold: None,
            notify_mid: None,
            confirmed_ms: None,
        }
    }

    /// Set the observed route.
    pub fn with_resource(self, resource: Option<usize>) -> (r: ObserveInterest)
        ensures
            r == (ObserveInterest { resource, ..self }),
    {
        let mut r = self;
        r.resource = resource;
        r
    }

    /// Set the Content-Format that notifications keep.
    pub fn with_content_format(self, content_format: Option<ContentFormat>) -> (r: ObserveInterest)
        ensures
            r == (ObserveInterest { content_format, ..self }),
    {
        let mut r = self;
        r.content_format = content_format;
        r
    }

    /// What the observation is found by.
    pub fn key(&self) -> (k: ObserveKey)
        ensures
            k == (ObserveKey { token: self.token, peer: self.peer, client: self.client }),
    {
        ObserveKey { token: self.token, peer: self.peer, client: self.client }
    }

    /// Sequence number of the latest notification.
    pub fn seq(&self) -> (n: u32)
        ensures
            n == self.seq,
    {
        self.seq
    }

    /// Is a notification wanted?
    pub fn is_pending(&self) -> (b: bool)
        ensures
            b == self.pending,
    {
        self.pending
    }

    /// Freshness of the latest representation.
    pub fn lifetime(&self) -> (r: Option<ObserveLifetime>)
        ensures
            r == self.lifetime,
    {
        self.lifetime
    }

    /// The observed route.
    pub fn resource(&self) -> (r: Option<usize>)
        ensures
            r == self.resource,
    {
        self.resource
    }

    /// Must no notification go out at this time?
    pub open spec fn held(&self, now_ms: u64) -> bool {
        match self.hold {
            Some(NotifyHold::Until(ms)) => now_ms < ms,
            Some(NotifyHold::Con(_)) => true,
            None => false,
        }
    }

    /// Must no notification go out at this time?
    pub fn is_notify_held(&self, now_ms: u64) -> (b: bool)
        ensures
            b == self.held(now_ms),
    {
        match self.hold {
            Some(NotifyHold::Until(ms)) => now_ms < ms,
            Some(NotifyHold::Con(_)) => true,
            None => false,
        }
    }

    /// Is the next notification to be confirmable?
    pub open spec fn confirm_due(&self, now_ms: u64) -> bool {
        match self.confirmed_ms {
            Some(ms) => now_ms >= ms && now_ms - ms >= ObserveTransmission::CONFIRM_INTERVAL_MS,
            None => false,
        }
    }

    /// Is the next notification to be confirmable? At least one a day is.
    pub fn must_confirm(&self, now_ms: u64) -> (b: bool)
        ensures
            b == self.confirm_due(now_ms),
    {
        match self.confirmed_ms {
            Some(ms) => now_ms >= ms && now_ms - ms >= ObserveTransmission::CONFIRM_INTERVAL_MS,
            None => false,
        }
    }

    /// The observation after a notification went out.
    pub open spec fn notified(self, now_ms: u64, mid: MessageId, confirmable: bool) -> (Self) {
        ObserveInterest {
            notify_mid: Some(mid),
            hold: Some(
                if confirmable {
                    NotifyHold::Con(mid)
                } else {
                    NotifyHold::Until(
                        if now_ms + ObserveTransmission::NOTIFY_HOLD_MS <= u64::MAX {
                            (now_ms + ObserveTransmission::NOTIFY_HOLD_MS) as u64
                        } else {
                            u64::MAX
                        },
                    )
                },
            ),
            confirmed_ms: if confirmable || self.confirmed_ms.is_none() {
                Some(now_ms)
            } else {
                self.confirmed_ms
            },
            ..self
        }
    }

    /// The observation after a notification went out.
    pub fn after_notify(self, now_ms: u64, mid: MessageId, confirmable: bool) -> (r: Self)
        ensures
            r == self.notified(now_ms, mid, confirmable),
    {
        let mut r = self;
        r.notify_mid = Some(mid);
        r.hold =
        Some(
            if confirmable {
                NotifyHold::Con(mid)
            } else {
                NotifyHold::Until(now_ms.saturating_add(ObserveTransmission::NOTIFY_HOLD_MS))
            },
        );
        if confirmable || r.confirmed_ms.is_none() {
            r.confirmed_ms = Some(now_ms);
        }
        r
    }
}

} // verus!
