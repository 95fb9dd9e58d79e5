//! Responses to this side's own calls.
use vstd::prelude::*;

use super::calls::{keeps, meta_fits, owned_opts, readable, Call, CallFailure, ReplyMeta};
use super::ending::{call_failed, observing, replaced_body, upload_key_of};
use super::error::Error;
use super::inbound::announced;
use super::inbox::{observation_start_of, with_observed, InboxRow, LiveCall, OutgoingObserve};
use super::notify::DEFAULT_MAX_AGE_SECS;
use super::outbound::{call_key, contacted, lemma_contacted_same, lemma_contacted_trans};
use super::owned::{carried, lemma_completed_owned};
use super::reactor::{lemma_pins_stay, Core};
use super::send::{ack_message, rst_message, sent_plain};
use super::upload::{followed_up, upload_continued};
use crate::error::{BlockTransferError, ValueError};
use crate::message::fields::{
    block_option, first_value, slices_of, uint_option, unknown_critical_of, values_of,
};
use crate::message::wire::MessageView;
use crate::message::{BlockValue, Code, MessageId, ParsedMessage, Type};
use crate::storage::blocks::{
    first_keyed, recovery_armed, rx_bodies_changed, rx_body_dropped, tx_bodies_changed,
};
use crate::storage::body::{accepts_ordered, accepts_windowed, BlockProgress};
use crate::storage::endpoint::{
    BlockKey, BlockKeyView, BodyTag, Endpoint, ExchangeKey, ObserveKey, SlotId,
};
use crate::storage::engine::{con_settled, later, waits, Engine, Store};
use crate::storage::io::DatagramIo;
use crate::storage::metrics::{inc, Metrics};
use crate::storage::rows::{ExchangeEntry, ObserveInterest, ObserveLifetime};
use crate::storage::table::{
    find_row, lemma_find_row, lemma_find_unique, lemma_free_row, place_row, without, Keyed,
};
use crate::storage::transfer::{BlockRole, BlockTransfer, BodyPool, Window};

verus! {

/// The row of a subscription, as a response renews it.
pub open spec fn subscription(call: Call, meta: ReplyMeta) -> ObserveInterest {
    ObserveInterest {
        token: call.token,
        peer: call.peer,
        client: true,
        resource: None,
        content_format: None,
        seq: 0,
        pending: false,
        deleted: false,
        lifetime: Some(
            ObserveLifetime {
                due_ms: later(
                    meta.received_at,
                    (match readable(uint_option(owned_opts(meta.options@), 14, 4)) {
                        Some(s) => s,
                        None => DEFAULT_MAX_AGE_SECS,
                    }) * 1000,
                ),
            },
        ),
        hold: None,
        notify_mid: None,
        confirmed_ms: None,
    }
}

/// The subscriptions after a response came in.
///
/// A success with Observe begins or renews the subscription of a call that
/// asked for one; any other response ends it, and so does a cancellation.
pub open spec fn subscriptions(
    rows: Seq<Option<ObserveInterest>>,
    live: Option<LiveCall>,
    call: Call,
    meta: ReplyMeta,
    via_exchange: bool,
) -> Seq<Option<ObserveInterest>> {
    let subscribed = (live.is_some() && live->0.observe == OutgoingObserve::Register) || find_row(
        rows,
        call.key(),
    ).is_some();
    if live.is_some() && live->0.observe == OutgoingObserve::Deregister {
        without(rows, call.key())
    } else if subscribed && readable(uint_option(owned_opts(meta.options@), 6, 3)).is_some()
        && meta.code.spec_is_success() {
        match place_row(rows, call.key()) {
            Some(i) => rows.update(i, Some(subscription(call, meta))),
            None => rows,
        }
    } else if via_exchange || subscribed {
        without(rows, call.key())
    } else {
        rows
    }
}

/// The counters after a response came in; see [`subscriptions`].
pub open spec fn subscriptions_counted(
    m: Metrics,
    rows: Seq<Option<ObserveInterest>>,
    live: Option<LiveCall>,
    call: Call,
    meta: ReplyMeta,
    via_exchange: bool,
) -> Metrics {
    let known = find_row(rows, call.key()).is_some();
    let subscribed = (live.is_some() && live->0.observe == OutgoingObserve::Register) || known;
    let cancels = live.is_some() && live->0.observe == OutgoingObserve::Deregister;
    let renews = subscribed && readable(uint_option(owned_opts(meta.options@), 6, 3)).is_some()
        && meta.code.spec_is_success();
    if !cancels && renews {
        if place_row(rows, call.key()).is_some() {
            Metrics { observe_register: inc(m.observe_register), ..m }
        } else {
            m
        }
    } else if known {
        Metrics { observe_cancel: inc(m.observe_cancel), ..m }
    } else {
        m
    }
}

/// The calls under way after a response started a notification.
pub open spec fn lives_recorded(
    rows: Seq<Option<LiveCall>>,
    call: Call,
    m: MessageView,
    now_ms: u64,
) -> Seq<Option<LiveCall>> {
    match observation_start_of(m) {
        Some(seq) => match find_row(rows, call.key()) {
            Some(i) => rows.update(i, with_observed(rows[i], Some((seq, now_ms)))),
            None => rows,
        },
        None => rows,
    }
}

/// The inbox with a reply in it, if there is room.
pub open spec fn inbox_with(rows: Seq<Option<InboxRow>>, row: InboxRow) -> Seq<Option<InboxRow>> {
    match place_row(rows, row.call.key()) {
        Some(i) => rows.update(i, Some(row)),
        None => rows,
    }
}

/// The body that a new row of the inbox lets go of: that of the row in its
/// place, or, without room for it, its own.
pub open spec fn superseded(
    rows: Seq<Option<InboxRow>>,
    call: Call,
    body: Option<SlotId>,
) -> Option<SlotId> {
    match place_row(rows, call.key()) {
        None => body,
        Some(_) => {
            let prev = replaced_body(rows, call);
            if prev == body {
                None
            } else {
                prev
            }
        },
    }
}

/// What a whole reply does: it waits to be fetched, the request waits no more,
/// and the subscription is seen to.
pub open spec fn reply_stored<T>(
    a: Core<T>,
    b: Core<T>,
    call: Call,
    meta: ReplyMeta,
    body: Option<SlotId>,
    via_exchange: bool,
) -> bool {
    let kept = Engine {
        store: Store { observe: b.engine.store.observe, ..a.engine.store },
        exchanges: b.engine.exchanges,
        metrics: subscriptions_counted(
            a.engine.metrics,
            a.engine.store.observe.rows@,
            a.lives.row(call),
            call,
            meta,
            via_exchange,
        ),
        ..a.engine
    };
    &&& b == (Core { engine: b.engine, inbox: b.inbox, ..a })
    &&& rx_body_dropped(kept, b.engine, superseded(a.inbox.rows.rows@, call, body))
    &&& b.engine.exchanges.rows@ == without(a.engine.exchanges.rows@, call.key())
    &&& b.engine.store.observe.rows@ == subscriptions(
        a.engine.store.observe.rows@,
        a.lives.row(call),
        call,
        meta,
        via_exchange,
    )
    &&& b.inbox.rows.rows@ == inbox_with(
        a.inbox.rows.rows@,
        InboxRow { complete: true, call, meta: Ok(meta), body },
    )
}

impl<T: DatagramIo> Core<T> {
    /// Begin, renew or end a subscription as a response demands.
    fn accept_client_observe(&mut self, call: Call, meta: &ReplyMeta, via_exchange: bool)
        requires
            old(self).wf(),
        ensures
            final(self).wf(),
            contacted(*old(self), *final(self), call.peer),
            *final(self) == (Core { engine: final(self).engine, ..*old(self) }),
            final(self).engine == (Engine {
                store: Store { observe: final(self).engine.store.observe, ..old(self).engine.store },
                metrics: subscriptions_counted(
                    old(self).engine.metrics,
                    old(self).engine.store.observe.rows@,
                    old(self).lives.row(call),
                    call,
                    *meta,
                    via_exchange,
                ),
                ..old(self).engine
            }),
            final(self).engine.store.observe.rows@ == subscriptions(
                old(self).engine.store.observe.rows@,
                old(self).lives.row(call),
                call,
                *meta,
                via_exchange,
            ),
    {
        let ghost first = *self;
        let ghost rows = self.engine.store.observe.rows@;
        let key = ObserveKey::new_client(call.token, call.peer);
        let (cancels, asks): (bool, bool) = match self.lives.get(call) {
            Some(live) => match live.observe {
                OutgoingObserve::Deregister => (true, false),
                OutgoingObserve::Register => (false, true),
                OutgoingObserve::Off => (false, false),
            },
            None => (false, false),
        };
        proof {
            lemma_find_row(rows, call.key());
            lemma_free_row(rows);
        }
        let subscribed: bool = asks || self.client_observe_live(call);
        let opts = meta.opts();
        let observe: bool = match crate::message::fields::select_first(
            opts.as_slice(),
            crate::message::OptionNumber::OBSERVE,
        ) {
            Some(v) => crate::message::value::decode_uint(v, 3).is_ok(),
            None => false,
        };
        if cancels {
            let _ = self.engine.take_observe(key);
        } else if subscribed && observe && meta.code.is_success() {
            let max_age: u32 = match crate::message::fields::select_first(
                opts.as_slice(),
                crate::message::OptionNumber::MAX_AGE,
            ) {
                Some(v) => match crate::message::value::decode_uint(v, 4) {
                    Ok(n) => n,
                    Err(_) => DEFAULT_MAX_AGE_SECS,
                },
                None => DEFAULT_MAX_AGE_SECS,
            };
            let ok: bool = self.engine.insert_observe(ObserveInterest::new(key));
            proof {
                if ok {
                    let i = place_row(rows, call.key())->0;
                    lemma_find_unique(self.engine.store.observe.rows@, i);
                } else {
                    lemma_find_row(self.engine.store.observe.rows@, call.key());
                }
            }
            self.engine.refresh_observe_max_age(key, meta.received_at, max_age);
        } else if via_exchange || subscribed {
            let _ = self.engine.take_observe(key);
        }
        proof {
            assert(self.engine.store.observe.rows@ =~= subscriptions(
                rows,
                first.lives.row(call),
                call,
                *meta,
                via_exchange,
            ));
            lemma_contacted_same(first, *self, call.peer);
            lemma_pins_stay(first.engine, self.engine);
        }
    }

    /// Let a whole reply wait to be fetched.
    fn store_reply(&mut self, call: Call, meta: ReplyMeta, body: Option<SlotId>, via_exchange: bool)
        requires
            old(self).wf(),
            meta.wf(),
        ensures
            final(self).wf(),
            contacted(*old(self), *final(self), call.peer),
            reply_stored(*old(self), *final(self), call, meta, body, via_exchange),
    {
        let ghost first = *self;
        self.accept_client_observe(call, &meta, via_exchange);
        let ghost second = *self;
        let _ = self.engine.take_exchange(ExchangeKey::new(call.token, call.peer));
        let ghost third = *self;
        proof {
            lemma_find_row(first.inbox.rows.rows@, call.key());
        }
        let row = InboxRow { complete: true, call, meta: Ok(meta), body };
        match self.inbox.put(row) {
            Ok(Some(prev)) => {
                let same: bool = match body {
                    Some(id) => id == prev,
                    None => false,
                };
                if !same {
                    self.engine.release_rx_body(prev);
                }
            },
            Ok(None) => {},
            Err(()) => {
                if let Some(id) = body {
                    self.engine.release_rx_body(id);
                }
            },
        }
        proof {
            lemma_contacted_same(second, *self, call.peer);
            lemma_contacted_trans(first, second, *self, call.peer);
            lemma_pins_stay(second.engine, self.engine);
            assert(rx_body_dropped(
                third.engine,
                self.engine,
                superseded(first.inbox.rows.rows@, call, body),
            ));
        }
    }
}

/// How the body of a response is found: by peer, token and ETag.
pub open spec fn response_body_key(m: MessageView, peer: Endpoint) -> BlockKeyView {
    BlockKeyView { token: m.token, peer, identity: first_value(m.options, 4) }
}

/// The key of a response body, unless its ETag is too long.
fn response_key(parsed: &ParsedMessage<'_>, peer: Endpoint) -> (r: Result<BlockKey, ValueError>)
    ensures
        r.is_ok() == (first_value(parsed@.options, 4) matches Some(v) ==> v.len() <= 8),
        r matches Ok(k) ==> k@ == response_body_key(parsed@, peer),
        r matches Err(e) ==> e == ValueError::OpaqueLength,
{
    let plain = BlockKey::new(parsed.token(), peer);
    let tags = parsed.etag();
    assert(tags@.len() == values_of(parsed@.options, 4).len());
    if tags.len() > 0 {
        assert(slices_of(tags@)[0] == tags@[0]@);
        match BodyTag::new(tags[0]) {
            Ok(tag) => Ok(plain.with_identity(tag)),
            Err(e) => Err(e),
        }
    } else {
        Ok(plain)
    }
}

/// What taking in a block does to the incoming bodies.
pub open spec fn body_accepts(
    before: BodyPool,
    after: BodyPool,
    key: BlockKey,
    block: BlockValue,
    m: MessageView,
    q_block: bool,
    r: Result<BlockProgress, BlockTransferError>,
) -> bool {
    if q_block {
        accepts_windowed(
            before,
            after,
            BlockRole::IncomingQBlock2,
            key,
            block,
            m.payload,
            announced(m, 28),
            r,
        )
    } else {
        accepts_ordered(
            before,
            after,
            BlockRole::IncomingBlock2,
            key,
            block,
            m.payload,
            announced(m, 28),
            r,
        )
    }
}

/// What taking in a block of a response body does.
pub open spec fn response_block_taken(
    before: Engine,
    after: Engine,
    m: MessageView,
    peer: Endpoint,
    block: Result<BlockValue, ValueError>,
    q_block: bool,
    r: Result<BlockProgress, BlockTransferError>,
) -> bool {
    let tag_ok = first_value(m.options, 4) matches Some(v) ==> v.len() <= 8;
    match block {
        Err(e) => r == Err::<BlockProgress, BlockTransferError>(BlockTransferError::Value(e))
            && after == before,
        Ok(block) => if !tag_ok {
            r == Err::<BlockProgress, BlockTransferError>(
                BlockTransferError::Value(ValueError::OpaqueLength),
            ) && after == before
        } else {
            &&& rx_bodies_changed(before, after)
            &&& after.metrics == if !q_block && r.is_ok() {
                Metrics { block2_assemble: inc(before.metrics.block2_assemble), ..before.metrics }
            } else {
                before.metrics
            }
            &&& match before.store.bodies {
                None => r == Err::<BlockProgress, BlockTransferError>(
                    BlockTransferError::NoBodyPools,
                ),
                Some(b) => exists|key: BlockKey|
                    key@ == response_body_key(m, peer) && #[trigger] body_accepts(
                        b.rx,
                        after.store.bodies->0.rx,
                        key,
                        block,
                        m,
                        q_block,
                        r,
                    ),
            }
        },
    }
}

impl Engine {
    /// Take in a block of a response body.
    fn take_response_block(
        &mut self,
        parsed: &ParsedMessage<'_>,
        peer: Endpoint,
        block: Result<BlockValue, ValueError>,
        q_block: bool,
    ) -> (r: Result<BlockProgress, BlockTransferError>)
        requires
            old(self).wf(),
            block matches Ok(b) ==> b.valid(),
        ensures
            final(self).wf(),
            rx_bodies_changed(*old(self), *final(self)),
            response_block_taken(
                *old(self),
                *final(self),
                parsed@,
                peer,
                block,
                q_block,
                r,
            ),
            r matches Ok(p) ==> final(self).rx_transfer(p.id).is_some(),
    {
        let ghost first = *self;
        let block = match block {
            Ok(block) => block,
            Err(e) => return Err(BlockTransferError::Value(e)),
        };
        let key = match response_key(parsed, peer) {
            Ok(key) => key,
            Err(e) => return Err(BlockTransferError::Value(e)),
        };
        let size2: Option<u32> = match parsed.size2() {
            Some(Ok(n)) => Some(n),
            _ => None,
        };
        let r = if q_block {
            self.apply_q_block2(key, block, parsed.payload(), size2)
        } else {
            self.apply_block2(key, block, parsed.payload(), size2)
        };
        proof {
            if let Some(b) = first.store.bodies {
                assert(body_accepts(
                    b.rx,
                    self.store.bodies->0.rx,
                    key,
                    block,
                    parsed@,
                    q_block,
                    r,
                ));
            }
        }
        r
    }
}

/// A response started a notification, if it did; nothing else changed.
pub open spec fn noted<T>(a: Core<T>, b: Core<T>, call: Call, m: MessageView, now_ms: u64) -> bool {
    &&& b.lives.rows.rows@ == lives_recorded(a.lives.rows.rows@, call, m, now_ms)
    &&& b == (Core { lives: b.lives, ..a })
}

/// What a response in one message does: it waits to be fetched.
pub open spec fn plain_taken<T>(
    a: Core<T>,
    b: Core<T>,
    call: Call,
    m: MessageView,
    via_exchange: bool,
    now_ms: u64,
) -> bool {
    exists|c: Core<T>, meta: ReplyMeta|
        noted(a, c, call, m, now_ms) && keeps(meta, m, call.peer, now_ms)
            && #[trigger] reply_stored(c, b, call, meta, None, via_exchange)
}

/// What the last block of a response does: the whole body waits to be fetched,
/// with what the first block said.
pub open spec fn whole_taken<T>(
    a: Core<T>,
    b: Core<T>,
    call: Call,
    m: MessageView,
    id: SlotId,
    via_exchange: bool,
    now_ms: u64,
) -> bool {
    exists|c: Core<T>, meta: ReplyMeta|
        {
            &&& c.lives.rows.rows@ == lives_recorded(a.lives.rows.rows@, call, m, now_ms)
            &&& c == (Core { inbox: c.inbox, lives: c.lives, ..a })
            &&& if a.inbox.partial(call, id) {
                &&& a.inbox.row(call)->0.meta == Ok::<ReplyMeta, CallFailure>(meta)
                &&& c.inbox.rows.rows@ == without(a.inbox.rows.rows@, call.key())
            } else {
                &&& keeps(meta, m, call.peer, now_ms)
                &&& c.inbox == a.inbox
            }
            &&& #[trigger] reply_stored(c, b, call, meta, Some(id), via_exchange)
        }
}

/// What a further block of a response leaves in the inbox: what the first one
/// said.
pub open spec fn partial_kept<T>(
    a: Core<T>,
    b: Core<T>,
    call: Call,
    m: MessageView,
    id: SlotId,
    now_ms: u64,
    ok: bool,
) -> bool {
    &&& b == (Core { engine: b.engine, inbox: b.inbox, ..a })
    &&& if a.inbox.partial(call, id) {
        ok && b == a
    } else {
        &&& rx_body_dropped(
            a.engine,
            b.engine,
            superseded(a.inbox.rows.rows@, call, Some(id)),
        )
        &&& match place_row(a.inbox.rows.rows@, call.key()) {
            Some(i) => {
                &&& ok
                &&& b.inbox.rows.rows@ == a.inbox.rows.rows@.update(
                    i,
                    b.inbox.rows.rows@[i],
                )
                &&& b.inbox.rows.rows@[i] matches Some(row) && !row.complete && row.call == call
                    && row.body == Some(id) && row.meta.is_ok() && keeps(
                    row.meta->Ok_0,
                    m,
                    call.peer,
                    now_ms,
                )
            },
            None => !ok && b.inbox == a.inbox,
        }
    }
}

/// The blocks that are asked for next, if any: the next one of an ordered body,
/// or the next window once the current one is full.
pub open spec fn next_wanted(t: BlockTransfer, q_block: bool) -> Option<BlockValue> {
    if q_block {
        if !t.complete && t.window == Window::none() && 0 < t.window_base < 0x100000 && t.szx <= 6 {
            Some(BlockValue { num: t.window_base, more: true, szx: t.szx })
        } else {
            None
        }
    } else if t.next_num < 0x100000 && t.szx <= 6 {
        Some(BlockValue { num: t.next_num, more: false, szx: t.szx })
    } else {
        None
    }
}

/// What asking for the next blocks does.
pub open spec fn asked_next<T: DatagramIo>(
    a: Core<T>,
    b: Core<T>,
    call: Call,
    block: BlockValue,
    q_block: bool,
    now_ms: u64,
    r: Result<(), Error<T::Error>>,
) -> bool {
    if q_block {
        followed_up(a, b, call, None, Some(block), now_ms, r)
    } else {
        followed_up(a, b, call, Some(block), None, now_ms, r)
    }
}

/// What a block of a response that is not the last one does: it is kept, and
/// further ones are asked for when the time has come.
pub open spec fn part_taken<T: DatagramIo>(
    a: Core<T>,
    b: Core<T>,
    call: Call,
    m: MessageView,
    id: SlotId,
    q_block: bool,
    now_ms: u64,
    r: Result<(), Error<T::Error>>,
) -> bool {
    exists|c: Core<T>, d: Core<T>, ok: bool|
        {
            &&& noted(a, c, call, m, now_ms)
            &&& #[trigger] partial_kept(c, d, call, m, id, now_ms, ok)
            &&& if !ok {
                r == Err::<(), Error<T::Error>>(Error::Saturated) && b == d
            } else {
                let wanted = next_wanted(d.engine.rx_transfer(id)->0, q_block);
                exists|e: Core<T>|
                    {
                        &&& #[trigger] part_noted(d, e, call, id, q_block, wanted, now_ms)
                        &&& match wanted {
                            Some(block) => asked_next(e, b, call, block, q_block, now_ms, r),
                            None => r.is_ok() && b == e,
                        }
                    }
            }
        }
}

/// What a further block of a response changes before more are asked for: the
/// time at which a windowed body is asked for again, and, for an ordered body
/// or when more is asked for, that the request waits no more.
pub open spec fn part_noted<T>(
    a: Core<T>,
    b: Core<T>,
    call: Call,
    id: SlotId,
    q_block: bool,
    wanted: Option<BlockValue>,
    now_ms: u64,
) -> bool {
    &&& b == (Core { engine: b.engine, ..a })
    &&& exists|c: Engine|
        {
            &&& #[trigger] block_noted(a.engine, c, id, q_block, now_ms)
            &&& b.engine == (Engine { exchanges: b.engine.exchanges, ..c })
        }
    &&& b.engine.exchanges.rows@ == if !q_block || wanted.is_some() {
        without(a.engine.exchanges.rows@, call.key())
    } else {
        a.engine.exchanges.rows@
    }
}

/// A block of a windowed body puts off the time at which the body is asked for
/// again.
pub open spec fn block_noted(a: Engine, b: Engine, id: SlotId, q_block: bool, now_ms: u64) -> bool {
    if q_block {
        recovery_armed(a, b, id, now_ms)
    } else {
        b == a
    }
}

/// What a block of a response leads to.
///
/// Without room for bodies, the block counts as the whole response. A block
/// of an ordered body that came before is passed over. Any other that does not
/// fit ends the call.
pub open spec fn block_outcome<T: DatagramIo>(
    a: Core<T>,
    b: Core<T>,
    call: Call,
    m: MessageView,
    q_block: bool,
    via_exchange: bool,
    now_ms: u64,
    p: Result<BlockProgress, BlockTransferError>,
    r: Result<(), Error<T::Error>>,
) -> bool {
    match p {
        Ok(p) => if p.done {
            r.is_ok() && exists|c: Core<T>|
                c == (Core { engine: c.engine, ..a }) && block_noted(
                    a.engine,
                    c.engine,
                    p.id,
                    q_block,
                    now_ms,
                ) && #[trigger] whole_taken(
                    c,
                    b,
                    call,
                    m,
                    p.id,
                    via_exchange,
                    now_ms,
                )
        } else {
            part_taken(a, b, call, m, p.id, q_block, now_ms, r)
        },
        Err(BlockTransferError::NoBodyPools) => r.is_ok() && plain_taken(
            a,
            b,
            call,
            m,
            via_exchange,
            now_ms,
        ),
        Err(e) => if !q_block && (e == BlockTransferError::Overlap || e
            == BlockTransferError::AlreadyComplete) {
            r.is_ok() && b == a
        } else {
            r.is_ok() && call_failed(a, b, call, CallFailure::BlockTransfer(e), true)
        },
    }
}

impl<T: DatagramIo> Core<T> {
    fn take_plain(
        &mut self,
        call: Call,
        parsed: &ParsedMessage<'_>,
        meta: ReplyMeta,
        via_exchange: bool,
        now_ms: u64,
    )
        requires
            old(self).wf(),
            meta.wf(),
            keeps(meta, parsed@, call.peer, now_ms),
        ensures
            final(self).wf(),
            contacted(*old(self), *final(self), call.peer),
            plain_taken(*old(self), *final(self), call, parsed@, via_exchange, now_ms),
    {
        let ghost first = *self;
        self.lives.record_observation(call, parsed, now_ms);
        let ghost second = *self;
        proof {
            lemma_contacted_same(first, second, call.peer);
        }
        self.store_reply(call, meta, None, via_exchange);
        proof {
            lemma_contacted_trans(first, second, *self, call.peer);
            assert(reply_stored(second, *self, call, meta, None, via_exchange));
        }
    }

    fn finish_assembled(
        &mut self,
        call: Call,
        parsed: &ParsedMessage<'_>,
        meta: ReplyMeta,
        id: SlotId,
        via_exchange: bool,
        now_ms: u64,
    )
        requires
            old(self).wf(),
            meta.wf(),
            keeps(meta, parsed@, call.peer, now_ms),
        ensures
            final(self).wf(),
            contacted(*old(self), *final(self), call.peer),
            whole_taken(*old(self), *final(self), call, parsed@, id, via_exchange, now_ms),
    {
        let ghost first = *self;
        self.lives.record_observation(call, parsed, now_ms);
        let kept = match self.inbox.take_partial(call, id) {
            Some(kept) => kept,
            None => meta,
        };
        let ghost second = *self;
        proof {
            lemma_contacted_same(first, second, call.peer);
            lemma_find_row(first.inbox.rows.rows@, call.key());
        }
        self.store_reply(call, kept, Some(id), via_exchange);
        proof {
            lemma_contacted_trans(first, second, *self, call.peer);
            assert(reply_stored(second, *self, call, kept, Some(id), via_exchange));
        }
    }

    fn keep_partial(
        &mut self,
        call: Call,
        meta: ReplyMeta,
        id: SlotId,
        m: Ghost<MessageView>,
        now_ms: u64,
    ) -> (ok: bool)
        requires
            old(self).wf(),
            meta.wf(),
            keeps(meta, m@, call.peer, now_ms),
        ensures
            final(self).wf(),
            contacted(*old(self), *final(self), call.peer),
            partial_kept(*old(self), *final(self), call, m@, id, now_ms, ok),
            ok && old(self).engine.rx_transfer(id).is_some() ==> final(self).engine.rx_transfer(
                id,
            ) == old(self).engine.rx_transfer(id),
    {
        let ghost first = *self;
        proof {
            lemma_contacted_same(first, first, call.peer);
        }
        if self.inbox.has_partial(call, id) {
            return true;
        }
        proof {
            lemma_find_row(first.inbox.rows.rows@, call.key());
        }
        let row = InboxRow { complete: false, call, meta: Ok(meta), body: Some(id) };
        let ok: bool = match self.inbox.put(row) {
            Ok(Some(prev)) => {
                if prev != id {
                    self.engine.release_rx_body(prev);
                }
                true
            },
            Ok(None) => true,
            Err(()) => {
                self.engine.release_rx_body(id);
                false
            },
        };
        proof {
            lemma_contacted_same(first, *self, call.peer);
            lemma_pins_stay(first.engine, self.engine);
        }
        ok
    }

    fn take_part(
        &mut self,
        call: Call,
        parsed: &ParsedMessage<'_>,
        meta: ReplyMeta,
        id: SlotId,
        q_block: bool,
        now_ms: u64,
    ) -> (r: Result<(), Error<T::Error>>)
        requires
            old(self).wf(),
            meta.wf(),
            keeps(meta, parsed@, call.peer, now_ms),
            old(self).engine.rx_transfer(id).is_some(),
        ensures
            final(self).wf(),
            contacted(*old(self), *final(self), call.peer),
            part_taken(*old(self), *final(self), call, parsed@, id, q_block, now_ms, r),
    {
        let ghost first = *self;
        self.lives.record_observation(call, parsed, now_ms);
        let ghost second = *self;
        proof {
            lemma_contacted_same(first, second, call.peer);
        }
        let ok: bool = self.keep_partial(call, meta, id, Ghost(parsed@), now_ms);
        let ghost third = *self;
        proof {
            lemma_contacted_trans(first, second, third, call.peer);
            assert(noted(first, second, call, parsed@, now_ms));
            assert(partial_kept(second, third, call, parsed@, id, now_ms, ok));
        }
        if !ok {
            return Err(Error::Saturated);
        }
        let t = match self.engine.rx_body_transfer(id) {
            Some(t) => t,
            None => return Ok(()),
        };
        if q_block {
            self.engine.note_q_receive(id, now_ms);
        }
        let ghost armed = self.engine;
        assert(block_noted(third.engine, armed, id, q_block, now_ms));
        let wanted: Option<BlockValue> = if q_block {
            if !t.complete && t.window.is_empty() && 0 < t.window_base && t.window_base < 0x100000
                && t.szx <= 6 {
                Some(BlockValue { num: t.window_base, more: true, szx: t.szx })
            } else {
                None
            }
        } else if t.next_num < 0x100000 && t.szx <= 6 {
            Some(BlockValue { num: t.next_num, more: false, szx: t.szx })
        } else {
            None
        };
        assert(wanted == next_wanted(third.engine.rx_transfer(id)->0, q_block));
        if !q_block || wanted.is_some() {
            let _ = self.engine.take_exchange(ExchangeKey::new(call.token, call.peer));
        }
        let ghost fourth = *self;
        proof {
            lemma_contacted_same(third, fourth, call.peer);
            lemma_contacted_trans(first, third, fourth, call.peer);
            lemma_pins_stay(third.engine, fourth.engine);
            assert(part_noted(third, fourth, call, id, q_block, wanted, now_ms));
        }
        match wanted {
            Some(block) => {
                let r = if q_block {
                    self.send_followup(call, None, Some(block), now_ms)
                } else {
                    self.send_followup(call, Some(block), None, now_ms)
                };
                proof {
                    lemma_contacted_trans(first, fourth, *self, call.peer);
                    assert(asked_next(fourth, *self, call, block, q_block, now_ms, r));
                }
                r
            },
            None => Ok(()),
        }
    }

    /// Take in a block of a response.
    fn take_block(
        &mut self,
        call: Call,
        parsed: &ParsedMessage<'_>,
        meta: ReplyMeta,
        block: Result<BlockValue, ValueError>,
        q_block: bool,
        via_exchange: bool,
        now_ms: u64,
    ) -> (r: Result<(), Error<T::Error>>)
        requires
            old(self).wf(),
            meta.wf(),
            keeps(meta, parsed@, call.peer, now_ms),
            block matches Ok(b) ==> b.valid(),
        ensures
            final(self).wf(),
            contacted(*old(self), *final(self), call.peer),
            block_taken(
                *old(self),
                *final(self),
                call,
                parsed@,
                block,
                q_block,
                via_exchange,
                now_ms,
                r,
            ),
    {
        let ghost first = *self;
        let p = self.engine.take_response_block(parsed, call.peer, block, q_block);
        let ghost second = *self;
        proof {
            lemma_contacted_same(first, second, call.peer);
            lemma_pins_stay(first.engine, second.engine);
            assert(response_block_taken(
                first.engine,
                second.engine,
                parsed@,
                call.peer,
                block,
                q_block,
                p,
            ));
        }
        let r: Result<(), Error<T::Error>> = match p {
            Ok(p) => if p.done {
                if q_block {
                    self.engine.note_q_receive(p.id, now_ms);
                }
                let ghost third = *self;
                proof {
                    lemma_contacted_same(second, third, call.peer);
                    lemma_contacted_trans(first, second, third, call.peer);
                    lemma_pins_stay(second.engine, third.engine);
                }
                self.finish_assembled(call, parsed, meta, p.id, via_exchange, now_ms);
                proof {
                    assert(whole_taken(third, *self, call, parsed@, p.id, via_exchange, now_ms));
                    lemma_contacted_trans(first, third, *self, call.peer);
                }
                Ok(())
            } else {
                self.take_part(call, parsed, meta, p.id, q_block, now_ms)
            },
            Err(BlockTransferError::NoBodyPools) => {
                self.take_plain(call, parsed, meta, via_exchange, now_ms);
                Ok(())
            },
            Err(e) => {
                let seen: bool = match e {
                    BlockTransferError::Overlap => true,
                    BlockTransferError::AlreadyComplete => true,
                    _ => false,
                };
                if q_block || !seen {
                    self.fail_call(call, CallFailure::BlockTransfer(e), true);
                }
                Ok(())
            },
        };
        proof {
            if *self == second {
                lemma_contacted_same(second, second, call.peer);
            }
            assert(contacted(first, *self, call.peer)) by {
                if contacted(second, *self, call.peer) {
                    lemma_contacted_trans(first, second, *self, call.peer);
                }
            }
            assert(block_outcome(
                second,
                *self,
                call,
                parsed@,
                q_block,
                via_exchange,
                now_ms,
                p,
                r,
            ));
        }
        r
    }
}

/// What taking in a block of a response does.
pub open spec fn block_taken<T: DatagramIo>(
    a: Core<T>,
    b: Core<T>,
    call: Call,
    m: MessageView,
    block: Result<BlockValue, ValueError>,
    q_block: bool,
    via_exchange: bool,
    now_ms: u64,
    r: Result<(), Error<T::Error>>,
) -> bool {
    exists|c: Core<T>, p: Result<BlockProgress, BlockTransferError>|
        {
            &&& c == (Core { engine: c.engine, ..a })
            &&& response_block_taken(a.engine, c.engine, m, call.peer, block, q_block, p)
            &&& #[trigger] block_outcome(c, b, call, m, q_block, via_exchange, now_ms, p, r)
        }
}

/// The request that a message answers. An acknowledgement answers it also when
/// it acknowledges an earlier message of the same request.
pub open spec fn answered_request(e: Engine, m: MessageView, peer: Endpoint) -> Option<
    ExchangeEntry,
> {
    match e.exchanges.row(call_key(m.token, peer)) {
        Some(x) => if x.answered_by(m.ty, m.id) || (m.ty == Type::Acknowledgement && waits(
            e,
            MessageId { raw: m.id },
            peer,
        )) {
            Some(x)
        } else {
            None
        },
        None => None,
    }
}

/// What a response that is accepted does.
///
/// The acknowledgement of a block of an upload leads to the next ones; any
/// other response ends the upload. A response that says more than is kept ends
/// the call.
pub open spec fn response_taken<T: DatagramIo>(
    a: Core<T>,
    b: Core<T>,
    call: Call,
    m: MessageView,
    via_exchange: bool,
    now_ms: u64,
    r: Result<(), Error<T::Error>>,
) -> bool {
    exists|at: Option<SlotId>|
        {
            &&& #[trigger] uploads_from(a, call, at)
            &&& if at.is_some() && m.code == Code::CONTINUE {
                upload_continued(a, b, m, call.peer, at->0, now_ms, r)
            } else {
                exists|c: Core<T>|
                    c == (Core { engine: c.engine, ..a }) && upload_over(a.engine, c.engine, at)
                        && #[trigger] content_taken(c, b, call, m, via_exchange, now_ms, r)
            }
        }
}

/// Is this the slot of the body that a call still sends, if it does?
pub open spec fn uploads_from<T>(c: Core<T>, call: Call, at: Option<SlotId>) -> bool {
    let key = upload_key_of(c, call);
    match at {
        Some(id) => {
            &&& c.engine.store.bodies matches Some(p) && first_keyed(
                p.tx.slots@,
                key,
                id.at as int,
            )
            &&& is_upload(c.engine.tx_transfer(id)->0.role)
        },
        None => c.engine.store.bodies matches Some(p) ==> forall|i: int|
            #[trigger] first_keyed(p.tx.slots@, key, i) ==> !is_upload(
                p.tx.slots@[i]->0.transfer.role,
            ),
    }
}

/// Is this the role of a request body that goes out?
pub open spec fn is_upload(role: BlockRole) -> bool {
    role == BlockRole::OutgoingBlock1 || role == BlockRole::OutgoingQBlock1
}

/// The body that a call still sends, if it does, is let go.
pub open spec fn upload_over(a: Engine, b: Engine, at: Option<SlotId>) -> bool {
    match at {
        Some(id) => {
            &&& tx_bodies_changed(a, b)
            &&& b.store.bodies->0.tx.slots@ == a.store.bodies->0.tx.slots@.update(
                id.at as int,
                None,
            )
        },
        None => b == a,
    }
}

/// What the content of a response does.
pub open spec fn content_taken<T: DatagramIo>(
    a: Core<T>,
    b: Core<T>,
    call: Call,
    m: MessageView,
    via_exchange: bool,
    now_ms: u64,
    r: Result<(), Error<T::Error>>,
) -> bool {
    if !meta_fits(m) {
        r.is_ok() && call_failed(a, b, call, CallFailure::ResponseMetadataBounds, true)
    } else {
        match block_option(m.options, 23) {
            Some(block) => block_taken(
                a,
                b,
                call,
                m,
                block,
                false,
                via_exchange,
                now_ms,
                r,
            ),
            None => match block_option(m.options, 31) {
                Some(block) => block_taken(
                    a,
                    b,
                    call,
                    m,
                    block,
                    true,
                    via_exchange,
                    now_ms,
                    r,
                ),
                None => r.is_ok() && plain_taken(a, b, call, m, via_exchange, now_ms),
            },
        }
    }
}

/// The request that was answered waits no more for its acknowledgement, nor
/// does a message with the identifier of the response; nothing else changes.
pub open spec fn acknowledgements_settled<T>(
    a: Core<T>,
    b: Core<T>,
    origin: Option<ExchangeEntry>,
    m: MessageView,
    peer: Endpoint,
) -> bool {
    &&& b == (Core { engine: b.engine, ..a })
    &&& exists|c: Engine|
        #[trigger] origin_settled(a.engine, c, origin, peer) && con_settled(
            c,
            b.engine,
            MessageId { raw: m.id },
            peer,
        )
}

/// The request that was answered, if any, waits no more for its
/// acknowledgement.
pub open spec fn origin_settled(
    a: Engine,
    b: Engine,
    origin: Option<ExchangeEntry>,
    peer: Endpoint,
) -> bool {
    match origin {
        Some(x) => con_settled(a, b, x.mid, peer),
        None => b == a,
    }
}

/// What a response does that may be accepted: a confirmable one is
/// acknowledged first. An old notification goes no further.
pub open spec fn response_accepted<T: DatagramIo>(
    a: Core<T>,
    b: Core<T>,
    call: Call,
    m: MessageView,
    now_ms: u64,
    r: Result<(), Error<T::Error>>,
) -> bool {
    let origin = answered_request(a.engine, m, call.peer);
    exists|c: Core<T>, ack: Result<(), Error<T::Error>>|
        {
            &&& #[trigger] confirmed(a, c, m, call.peer, ack)
            &&& if ack.is_err() {
                r == ack && b == c
            } else if !a.lives.fresh(call, m, now_ms) {
                r.is_ok() && b == c
            } else {
                exists|d: Core<T>|
                    acknowledgements_settled(c, d, origin, m, call.peer) && #[trigger] response_taken(
                        d,
                        b,
                        call,
                        m,
                        origin.is_some(),
                        now_ms,
                        r,
                    )
            }
        }
}

/// A confirmable response is acknowledged; another one needs nothing.
pub open spec fn confirmed<T: DatagramIo>(
    a: Core<T>,
    b: Core<T>,
    m: MessageView,
    peer: Endpoint,
    r: Result<(), Error<T::Error>>,
) -> bool {
    if m.ty == Type::Confirmable {
        sent_plain(a, b, ack_message(MessageId { raw: m.id }), peer, r)
    } else {
        r.is_ok() && b == a
    }
}

/// A confirmable response is rejected; another one is passed over.
pub open spec fn rejected<T: DatagramIo>(
    a: Core<T>,
    b: Core<T>,
    m: MessageView,
    peer: Endpoint,
    r: Result<(), Error<T::Error>>,
) -> bool {
    if m.ty == Type::Confirmable {
        sent_plain(a, b, rst_message(MessageId { raw: m.id }), peer, r)
    } else {
        r.is_ok() && b == a
    }
}

/// What a response does.
///
/// One that answers no request and belongs to no subscription is rejected. So
/// is one with a critical option that is not known; as an acknowledgement it
/// still counts.
pub open spec fn completed<T: DatagramIo>(
    a: Core<T>,
    b: Core<T>,
    call: Call,
    m: MessageView,
    now_ms: u64,
    r: Result<(), Error<T::Error>>,
) -> bool {
    let origin = answered_request(a.engine, m, call.peer);
    if origin.is_none() && !observing(a.engine, call) {
        rejected(a, b, m, call.peer, r)
    } else if unknown_critical_of(m.options).is_some() {
        if m.ty == Type::Acknowledgement {
            &&& r.is_ok()
            &&& b == (Core { engine: b.engine, ..a })
            &&& origin_settled(a.engine, b.engine, origin, call.peer)
        } else {
            rejected(a, b, m, call.peer, r)
        }
    } else {
        response_accepted(a, b, call, m, now_ms, r)
    }
}

impl<T: DatagramIo> Core<T> {
    fn reject_response(&mut self, parsed: &ParsedMessage<'_>, peer: Endpoint) -> (r: Result<
        (),
        Error<T::Error>,
    >)
        requires
            old(self).wf(),
        ensures
            final(self).wf(),
            contacted(*old(self), *final(self), peer),
            rejected(*old(self), *final(self), parsed@, peer, r),
    {
        proof {
            lemma_contacted_same(*self, *self, peer);
        }
        match parsed.ty() {
            Type::Confirmable => self.send_empty_rst(peer, parsed.message_id()),
            _ => Ok(()),
        }
    }

    /// Take in the content of a response.
    fn take_content(
        &mut self,
        call: Call,
        parsed: &ParsedMessage<'_>,
        via_exchange: bool,
        now_ms: u64,
    ) -> (r: Result<(), Error<T::Error>>)
        requires
            old(self).wf(),
        ensures
            final(self).wf(),
            contacted(*old(self), *final(self), call.peer),
            content_taken(
                *old(self),
                *final(self),
                call,
                parsed@,
                via_exchange,
                now_ms,
                r,
            ),
    {
        let meta = match ReplyMeta::from_parsed(parsed, call.peer, now_ms) {
            Ok(meta) => meta,
            Err(e) => {
                self.fail_call(call, e, true);
                return Ok(());
            },
        };
        if let Some(block) = parsed.block2() {
            return self.take_block(call, parsed, meta, block, false, via_exchange, now_ms);
        }
        let picks = parsed.q_block2();
        if picks.len() > 0 {
            assert(picks@[0] == BlockValue::of_octets(values_of(parsed@.options, 31)[0]));
            let block = picks[0];
            return self.take_block(call, parsed, meta, block, true, via_exchange, now_ms);
        }
        self.take_plain(call, parsed, meta, via_exchange, now_ms);
        Ok(())
    }

    /// Take in a response that is accepted.
    fn take_response_message(
        &mut self,
        call: Call,
        parsed: &ParsedMessage<'_>,
        via_exchange: bool,
        now_ms: u64,
    ) -> (r: Result<(), Error<T::Error>>)
        requires
            old(self).wf(),
            call.token@ == parsed@.token,
        ensures
            final(self).wf(),
            contacted(*old(self), *final(self), call.peer),
            response_taken(
                *old(self),
                *final(self),
                call,
                parsed@,
                via_exchange,
                now_ms,
                r,
            ),
    {
        let ghost first = *self;
        let ghost mut at: Option<SlotId> = None;
        let key = self.lives.upload_key(call);
        assert(key@ == upload_key_of(first, call));
        if let Some(id) = self.engine.lookup_tx_body(key) {
            if let Some(t) = self.engine.tx_body_transfer(id) {
                if t.role == BlockRole::OutgoingBlock1 || t.role == BlockRole::OutgoingQBlock1 {
                    proof {
                        at = Some(id);
                        assert(uploads_from(first, call, at));
                    }
                    if parsed.code() == Code::CONTINUE {
                        let r = self.continue_block1_tx(parsed, call.peer, id, now_ms);
                        assert(upload_continued(
                            first,
                            *self,
                            parsed@,
                            call.peer,
                            id,
                            now_ms,
                            r,
                        ));
                        return r;
                    }
                    self.engine.release_tx_body(id);
                }
            }
        }
        let ghost second = *self;
        proof {
            lemma_contacted_same(first, second, call.peer);
            lemma_pins_stay(first.engine, second.engine);
            assert(uploads_from(first, call, at));
            assert(upload_over(first.engine, second.engine, at));
        }
        let r = self.take_content(call, parsed, via_exchange, now_ms);
        proof {
            lemma_contacted_trans(first, second, *self, call.peer);
            assert(content_taken(second, *self, call, parsed@, via_exchange, now_ms, r));
        }
        r
    }

    /// Take in a response.
    pub fn complete_client(&mut self, parsed: &ParsedMessage<'_>, peer: Endpoint, now_ms: u64) -> (r:
        Result<(), Error<T::Error>>)
        requires
            old(self).wf(),
        ensures
            final(self).wf(),
            carried(*old(self), *final(self)),
            contacted(*old(self), *final(self), peer),
            exists|call: Call|
                call.peer == peer && call.token@ == parsed@.token && #[trigger] completed(
                    *old(self),
                    *final(self),
                    call,
                    parsed@,
                    now_ms,
                    r,
                ),
    {
        let ghost first = *self;
        let ghost m = parsed@;
        let call = Call::new(parsed.token(), peer);
        let origin: Option<ExchangeEntry> = match self.engine.exchange(
            ExchangeKey::new(call.token, peer),
        ) {
            Some(x) => if x.is_answered_by(parsed.ty(), parsed.message_id()) || (parsed.ty()
                == Type::Acknowledgement && self.engine.lookup_pending_con(
                parsed.message_id(),
                peer,
            ).is_some()) {
                Some(x)
            } else {
                None
            },
            None => None,
        };
        assert(origin == answered_request(first.engine, m, peer));
        if origin.is_none() && !self.client_observe_live(call) {
            let r = self.reject_response(parsed, peer);
            assert(completed(first, *self, call, m, now_ms, r));
            proof {
                lemma_completed_owned(first, *self, call, m, now_ms, r);
            }
            return r;
        }
        if parsed.unknown_critical().is_some() {
            if parsed.ty() == Type::Acknowledgement {
                proof {
                    lemma_contacted_same(first, first, peer);
                }
                if let Some(x) = origin {
                    let _ = self.settle(x.mid, peer);
                }
                let r: Result<(), Error<T::Error>> = Ok(());
                assert(completed(first, *self, call, m, now_ms, r));
                proof {
                    lemma_completed_owned(first, *self, call, m, now_ms, r);
                }
                return r;
            }
            let r = self.reject_response(parsed, peer);
            assert(completed(first, *self, call, m, now_ms, r));
            proof {
                lemma_completed_owned(first, *self, call, m, now_ms, r);
            }
            return r;
        }
        let r = self.accept_response(call, parsed, origin, now_ms);
        assert(completed(first, *self, call, m, now_ms, r));
        proof {
            lemma_completed_owned(first, *self, call, m, now_ms, r);
        }
        r
    }

    fn accept_response(
        &mut self,
        call: Call,
        parsed: &ParsedMessage<'_>,
        origin: Option<ExchangeEntry>,
        now_ms: u64,
    ) -> (r: Result<(), Error<T::Error>>)
        requires
            old(self).wf(),
            call.token@ == parsed@.token,
            origin == answered_request(old(self).engine, parsed@, call.peer),
        ensures
            final(self).wf(),
            contacted(*old(self), *final(self), call.peer),
            response_accepted(*old(self), *final(self), call, parsed@, now_ms, r),
    {
        let ghost first = *self;
        let ghost m = parsed@;
        proof {
            lemma_contacted_same(first, first, call.peer);
        }
        let ack: Result<(), Error<T::Error>> = match parsed.ty() {
            Type::Confirmable => self.send_empty_ack(call.peer, parsed.message_id()),
            _ => Ok(()),
        };
        let ghost second = *self;
        assert(confirmed(first, second, m, call.peer, ack));
        if ack.is_err() {
            return ack;
        }
        if !self.lives.observe_fresh(call, parsed, now_ms) {
            return Ok(());
        }
        if let Some(x) = origin {
            let _ = self.settle(x.mid, call.peer);
        }
        let ghost third = *self;
        proof {
            if origin.is_none() {
                lemma_contacted_same(second, third, call.peer);
            }
            lemma_contacted_trans(first, second, third, call.peer);
        }
        let _ = self.settle(parsed.message_id(), call.peer);
        let ghost fourth = *self;
        proof {
            lemma_contacted_trans(first, third, fourth, call.peer);
            assert(origin_settled(second.engine, third.engine, origin, call.peer));
            assert(acknowledgements_settled(second, fourth, origin, m, call.peer));
        }
        let r = self.take_response_message(call, parsed, origin.is_some(), now_ms);
        proof {
            lemma_contacted_trans(first, fourth, *self, call.peer);
            assert(response_taken(fourth, *self, call, m, origin.is_some(), now_ms, r));
        }
        r
    }
}

} // verus!
