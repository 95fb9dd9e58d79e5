//! Sending answers, and giving kept answers again.
use vstd::prelude::*;

use super::dedup::{
    ack_kept, answer_live, decide_replay, dedup_frame, dedup_place, empty_ack_wire,
    lemma_bare_wire, may_rerun, oldest, pin_evicted, pin_ok, pins_ok, remember_empty_ack,
    replay_of, request_may_rerun_on_duplicate, unpinned, untouched, DedupClosed, Replay,
    ReplayView,
};
use super::error::Error;
use super::owned::lemma_row_out;
use super::reactor::{
    calm, delivered, handed, lemma_calm_dedup, lemma_calm_same, lemma_calm_trans, lemma_pins_stay,
    lemma_sends_one, lemma_served_trans, lemma_tallied, only_counted, send_message, served, Core,
};
use crate::error::SlotError;
use crate::message::wire::MessageView;
use crate::message::{Code, Message, MessageId, Type};
use crate::storage::endpoint::{DedupKey, Endpoint};
use crate::storage::engine::{dedup_key, pins, sendable, sent_metrics, stage_verdict, Engine};
use crate::storage::io::{Attempt, DatagramIo};
use crate::storage::table::{
    find_row, free_row, lemma_find_row, lemma_find_unique, lemma_free_row, without, Keyed,
};

verus! {

/// Is an outgoing slot free, or kept for a reply that may be shortened?
pub open spec fn room_for_reply(e: Engine) -> bool {
    free_row(e.store.tx.slots@).is_some() || oldest(e.store.dedup.rows@, true).is_some()
}

/// With no outgoing slot free, the oldest reply that is kept in one was
/// shortened, if there is any; otherwise nothing changed.
pub open spec fn room_made(a: Engine, b: Engine) -> bool {
    match oldest(a.store.dedup.rows@, true) {
        Some(at) => if free_row(a.store.tx.slots@).is_some() {
            b == a
        } else {
            pin_evicted(a, b, at)
        },
        None => b == a,
    }
}

/// The message of an empty acknowledgement.
pub open spec fn ack_message(mid: MessageId) -> MessageView {
    MessageView {
        ty: Type::Acknowledgement,
        code: Code::EMPTY,
        id: mid.raw,
        token: Seq::empty(),
        options: Seq::empty(),
        payload: Seq::empty(),
    }
}

/// The message of an empty reset.
pub open spec fn rst_message(mid: MessageId) -> MessageView {
    MessageView { ty: Type::Reset, ..ack_message(mid) }
}

/// What a single plain send does.
pub open spec fn sent_plain<T: DatagramIo>(
    a: Core<T>,
    b: Core<T>,
    m: MessageView,
    dest: Endpoint,
    r: Result<(), Error<T::Error>>,
) -> bool {
    &&& delivered(a.engine, b.engine, a.port, b.port, m, dest, None, r)
    &&& b == (Core { engine: b.engine, port: b.port, ..a })
    &&& served(a, b, dest)
}

/// An empty acknowledgement is kept as the answer to a request; nothing else
/// changed.
pub open spec fn ack_noted<T>(
    a: Core<T>,
    b: Core<T>,
    dest: Endpoint,
    mid: MessageId,
    now_ms: u64,
    request: Code,
) -> bool {
    &&& b == (Core { engine: b.engine, closed: b.closed, ..a })
    &&& ack_kept(a.engine, b.engine, a.closed, b.closed, dest, mid, now_ms, request)
}

/// What sending an empty acknowledgement and keeping it as the answer does.
pub open spec fn acknowledged<T: DatagramIo>(
    a: Core<T>,
    b: Core<T>,
    dest: Endpoint,
    mid: MessageId,
    now_ms: u64,
    request: Code,
    r: Result<(), Error<T::Error>>,
) -> bool {
    &&& exists|c: Core<T>|
        #[trigger] sent_plain(a, c, ack_message(mid), dest, r) && if r.is_ok() {
            ack_noted(c, b, dest, mid, now_ms, request)
        } else {
            b == c
        }
    &&& r.is_ok() ==> {
        let key = DedupKey { mid, peer: dest };
        let place = dedup_place(a.engine.store.dedup.rows@, dedup_key(key));
        place.is_some() && now_ms < u64::MAX ==> replay_of(
            b.engine,
            b.closed,
            key,
            request,
            now_ms,
        ) == ReplayView::Bytes(empty_ack_wire(mid))
    }
}

impl<T: DatagramIo> Core<T> {
    /// Acknowledge a message.
    pub fn send_empty_ack(&mut self, dest: Endpoint, mid: MessageId) -> (r: Result<
        (),
        Error<T::Error>,
    >)
        requires
            old(self).wf(),
        ensures
            final(self).wf(),
            sent_plain(*old(self), *final(self), ack_message(mid), dest, r),
    {
        let msg = Message::empty_ack(mid);
        assert(msg@.options =~= ack_message(mid).options);
        assert(msg@.payload =~= ack_message(mid).payload);
        assert(msg@.token =~= ack_message(mid).token);
        let ghost before = *self;
        let r = send_message(&mut self.engine, &mut self.port, &msg, dest, None);
        proof {
            lemma_pins_stay(before.engine, self.engine);
        }
        r
    }

    /// Reject a message.
    pub fn send_empty_rst(&mut self, dest: Endpoint, mid: MessageId) -> (r: Result<
        (),
        Error<T::Error>,
    >)
        requires
            old(self).wf(),
        ensures
            final(self).wf(),
            sent_plain(*old(self), *final(self), rst_message(mid), dest, r),
    {
        let msg = Message::empty_rst(mid);
        assert(msg@.options =~= rst_message(mid).options);
        assert(msg@.payload =~= rst_message(mid).payload);
        assert(msg@.token =~= rst_message(mid).token);
        let ghost before = *self;
        let r = send_message(&mut self.engine, &mut self.port, &msg, dest, None);
        proof {
            lemma_pins_stay(before.engine, self.engine);
        }
        r
    }

    /// Acknowledge a request, and keep the acknowledgement as its answer.
    pub fn acknowledge(&mut self, dest: Endpoint, mid: MessageId, now_ms: u64, request: Code) -> (r:
        Result<(), Error<T::Error>>)
        requires
            old(self).wf(),
        ensures
            final(self).wf(),
            served(*old(self), *final(self), dest),
            acknowledged(*old(self), *final(self), dest, mid, now_ms, request, r),
    {
        let ghost first = *self;
        let r = self.send_empty_ack(dest, mid);
        let ghost second = *self;
        proof {
            lemma_bare_wire(Type::Acknowledgement, Code::EMPTY, mid.raw);
            assert(sent_plain(first, second, ack_message(mid), dest, r));
        }
        if r.is_err() {
            return r;
        }
        remember_empty_ack(&mut self.engine, dest, mid, now_ms, request, &mut self.closed);
        proof {
            lemma_calm_dedup(second.engine, self.engine);
            lemma_sends_one(self.port.log@, self.port.log@, dest);
            lemma_pins_stay(second.engine, self.engine);
            lemma_served_trans(first, second, *self, dest);
            let key = dedup_key(DedupKey { mid, peer: dest });
            let rows = self.engine.store.dedup.rows@;
            if let Some(at) = dedup_place(first.engine.store.dedup.rows@, key) {
                assert(rows[at]->0.row_key() == key);
                lemma_find_unique(rows, at);
            }
        }
        r
    }

    /// Make an outgoing slot free, if need be by shortening the oldest kept
    /// reply.
    pub fn acquire_tx_or_evict(&mut self)
        requires
            old(self).wf(),
        ensures
            final(self).wf(),
            dedup_frame(old(self).engine, final(self).engine),
            *final(self) == (Core { engine: final(self).engine, ..*old(self) }),
            free_row(final(self).engine.store.tx.slots@).is_some() == room_for_reply(
                old(self).engine,
            ),
            free_row(old(self).engine.store.tx.slots@).is_some() ==> *final(self) == *old(self),
            calm(old(self).engine, final(self).engine),
            room_made(old(self).engine, final(self).engine),
    {
        let ghost before = *self;
        if crate::storage::table::first_free(&self.engine.store.tx.slots).is_none() {
            let _ = self.engine.evict_one_dedup_pin();
            proof {
                lemma_calm_dedup(before.engine, self.engine);
            }
        } else {
            proof {
                super::dedup::lemma_pins_same(before.engine, self.engine);
                super::dedup::lemma_leak_free_same(before.engine, self.engine);
                lemma_calm_same(before.engine, self.engine);
            }
        }
    }

    /// Send a kept datagram again.
    pub fn send_replay_bytes(&mut self, dest: Endpoint, bytes: &[u8]) -> (r: Result<
        (),
        Error<T::Error>,
    >)
        requires
            old(self).wf(),
        ensures
            final(self).wf(),
            served(*old(self), *final(self), dest),
            resent_bytes(*old(self), *final(self), dest, bytes@, r),
    {
        let ghost first = *self;
        self.acquire_tx_or_evict();
        let ghost second = *self;
        proof {
            lemma_sends_one(first.port.log@, second.port.log@, dest);
        }
        let id = match self.engine.acquire_tx() {
            Some(id) => id,
            None => {
                assert(*self == first);
                return Err(Error::Saturated);
            },
        };
        let ghost slots = second.engine.store.tx.slots@;
        match self.engine.store.tx.fill(id, bytes, dest) {
            Err(e) => {
                let _ = self.engine.release_tx(id);
                proof {
                    assert(self.engine.store.tx.slots@ =~= slots);
                    assert(self.engine.pending@ =~= second.engine.pending@);
                    lemma_calm_same(second.engine, self.engine);
                    lemma_calm_trans(first.engine, second.engine, self.engine);
                    lemma_pins_stay(first.engine, self.engine);
                    assert(only_counted(
                        second.engine,
                        self.engine,
                        first.port.log@,
                        self.port.log@,
                    ));
                }
                Err(Error::Slot(e))
            },
            Ok(()) => {
                let r = self.engine.finish_send(&mut self.port, id, dest, None);
                proof {
                    assert(self.engine.store.tx.slots@ =~= slots);
                    lemma_calm_same(second.engine, self.engine);
                    lemma_calm_trans(first.engine, second.engine, self.engine);
                    lemma_pins_stay(first.engine, self.engine);
                    let x = Attempt { dest, bytes: bytes@, ok: r.is_ok() };
                    assert(self.port.log@ == first.port.log@.push(x));
                    lemma_sends_one(first.port.log@, self.port.log@, dest);
                    lemma_tallied(second.engine.metrics, first.port.log@, first.port.log@, x);
                    assert(only_counted(
                        second.engine,
                        self.engine,
                        first.port.log@,
                        self.port.log@,
                    ));
                }
                match r {
                    Ok(()) => Ok(()),
                    Err(e) => Err(Error::from_tx(e)),
                }
            },
        }
    }
}

/// Would a request be answered with these bytes, if it arrived again?
pub open spec fn gives_again<T>(
    c: Core<T>,
    key: DedupKey,
    request: Code,
    now_ms: u64,
    bytes: Seq<u8>,
) -> bool {
    match replay_of(c.engine, c.closed, key, request, now_ms) {
        ReplayView::Bytes(b) => b == bytes,
        ReplayView::Pinned(id) => sendable(c.engine, id) == Some((key.peer, bytes)),
        _ => false,
    }
}

/// A free slot stays free while answers are kept or forgotten.
proof fn lemma_still_free(a: Engine, b: Engine)
    requires
        pins_ok(a),
        dedup_frame(a, b),
        free_row(a.store.tx.slots@).is_some(),
    ensures
        free_row(b.store.tx.slots@).is_some(),
{
    reveal(pins_ok);
    reveal(untouched);
    lemma_free_row(a.store.tx.slots@);
    lemma_free_row(b.store.tx.slots@);
    let p = free_row(a.store.tx.slots@)->0;
    if a.pinned_reply(p) {
        let k = choose|k: int|
            0 <= k < a.store.dedup.rows@.len() && pins(#[trigger] a.store.dedup.rows@[k], p);
        assert(pin_ok(a, a.store.dedup.rows@[k]));
    }
    assert(b.store.tx.slots@[p].is_none());
}

/// What is kept of a request is let go if its time has come: the answer, with
/// the slot that it is in, and the mark that it must not run again.
pub open spec fn lapsed<T>(a: Core<T>, b: Core<T>, key: DedupKey, code: Code, now_ms: u64) -> bool {
    let rows = a.engine.store.dedup.rows@;
    let at = find_row(rows, dedup_key(key));
    &&& b == (Core { engine: b.engine, closed: b.closed, ..a })
    &&& if at.is_some() && rows[at->0]->0.expired(now_ms) {
        &&& dedup_frame(a.engine, b.engine)
        &&& b.engine.store.dedup.rows@ == rows.update(at->0, None)
        &&& b.engine.store.tx.slots@ == unpinned(a.engine.store.tx.slots@, rows[at->0])
        &&& b.engine.pending@ == a.engine.pending@
    } else {
        b.engine == a.engine
    }
    &&& b.closed == if !answer_live(a.engine, key, now_ms) && !may_rerun(code) && closed_over(
        a.closed,
        key,
        now_ms,
    ) {
        None
    } else {
        a.closed
    }
}

/// Is this the request that must not run twice, and is its time over?
pub open spec fn closed_over(closed: Option<DedupClosed>, key: DedupKey, now_ms: u64) -> bool {
    match closed {
        Some(c) => c.key == key && c.expired(now_ms),
        None => false,
    }
}

/// How a request that arrived again is answered, once what is over is let go.
pub open spec fn replayed<T: DatagramIo>(
    a: Core<T>,
    b: Core<T>,
    peer: Endpoint,
    mid: MessageId,
    code: Code,
    now_ms: u64,
    r: Option<Result<(), Error<T::Error>>>,
) -> bool {
    exists|c: Core<T>| #[trigger]
        lapsed(a, c, DedupKey { mid, peer }, code, now_ms) && given_again(
            c,
            b,
            peer,
            mid,
            code,
            now_ms,
            r,
        )
}

/// How a request that arrived again is answered from what is kept.
pub open spec fn given_again<T: DatagramIo>(
    a: Core<T>,
    b: Core<T>,
    peer: Endpoint,
    mid: MessageId,
    code: Code,
    now_ms: u64,
    r: Option<Result<(), Error<T::Error>>>,
) -> bool {
    match replay_of(a.engine, a.closed, DedupKey { mid, peer }, code, now_ms) {
        ReplayView::Run => r.is_none() && b == a,
        ReplayView::Bytes(bytes) => r.is_some() && resent_bytes(a, b, peer, bytes, r->0),
        ReplayView::Pinned(id) => {
            &&& r.is_some()
            &&& b == (Core {
                engine: Engine {
                    metrics: sent_metrics(a.engine.metrics, r->0.is_ok()),
                    ..a.engine
                },
                port: b.port,
                ..a
            })
            &&& b.port.log@ == a.port.log@.push(
                Attempt { dest: peer, bytes: a.engine.store.tx.datagram(id), ok: r->0.is_ok() },
            )
            &&& handed(a.port.io, peer, a.engine.store.tx.datagram(id), r->0)
        },
        ReplayView::EmptyAck => {
            &&& r.is_some()
            &&& exists|c: Core<T>|
                #[trigger] ack_noted(a, c, peer, mid, now_ms, code) && sent_plain(
                    c,
                    b,
                    ack_message(mid),
                    peer,
                    r->0,
                )
            &&& stage_verdict(a.engine, ack_message(mid)).is_ok() ==> b.port.log@
                == a.port.log@.push(
                Attempt { dest: peer, bytes: empty_ack_wire(mid), ok: r->0.is_ok() },
            )
        },
    }
}

/// Letting go of what is over changes nothing about how a request is answered,
/// and an answer that is not over stays.
pub proof fn law_lapsed_decides_nothing<T>(a: Core<T>, b: Core<T>, key: DedupKey, code: Code, now_ms: u64)
    requires
        a.engine.wf(),
        lapsed(a, b, key, code, now_ms),
    ensures
        replay_of(b.engine, b.closed, key, code, now_ms) == replay_of(
            a.engine,
            a.closed,
            key,
            code,
            now_ms,
        ),
        answer_live(a.engine, key, now_ms) ==> b.engine == a.engine && b.closed == a.closed,
{
    let rows = a.engine.store.dedup.rows@;
    let k = dedup_key(key);
    lemma_find_row(rows, k);
    if let Some(at) = find_row(rows, k) {
        if rows[at]->0.expired(now_ms) {
            assert(b.engine.store.dedup.rows@ == without(rows, k));
            lemma_row_out(rows, k);
        }
    }
}

impl<T: DatagramIo> Core<T> {
    /// Let go of what is kept of a request, if its time has come.
    fn drop_lapsed(&mut self, key: DedupKey, code: Code, now_ms: u64)
        requires
            old(self).wf(),
        ensures
            final(self).wf(),
            lapsed(*old(self), *final(self), key, code, now_ms),
            calm(old(self).engine, final(self).engine),
    {
        let ghost first = *self;
        let ghost rows = self.engine.store.dedup.rows@;
        proof {
            lemma_find_row(rows, dedup_key(key));
            lemma_calm_same(first.engine, first.engine);
        }
        let mut live: bool = false;
        if let Some(at) = self.engine.store.dedup.find(&key.key()) {
            let over: bool = match &self.engine.store.dedup.rows[at] {
                Some(row) => row.due_ms != 0 && now_ms >= row.due_ms,
                None => false,
            };
            if over {
                self.engine.release_dedup_row(at);
                proof {
                    lemma_calm_dedup(first.engine, self.engine);
                }
            } else {
                live = true;
            }
        }
        assert(live == answer_live(first.engine, key, now_ms));
        if !live && !request_may_rerun_on_duplicate(code) {
            let over: bool = match &self.closed {
                Some(c) => c.key == key && c.due_ms != 0 && now_ms >= c.due_ms,
                None => false,
            };
            if over {
                self.closed = None;
            }
        }
    }

    /// Answer a request that arrived again with what was answered before.
    ///
    /// Gives `None` when it did not arrive before, or may run again. What is
    /// kept of a request whose time is over is let go.
    pub fn replay_con_request(
        &mut self,
        peer: Endpoint,
        mid: MessageId,
        code: Code,
        now_ms: u64,
    ) -> (r: Option<Result<(), Error<T::Error>>>)
        requires
            old(self).wf(),
        ensures
            final(self).wf(),
            served(*old(self), *final(self), peer),
            replayed(*old(self), *final(self), peer, mid, code, now_ms, r),
    {
        let ghost first = *self;
        self.drop_lapsed(DedupKey::new(mid, peer), code, now_ms);
        let ghost second = *self;
        proof {
            lemma_sends_one(first.port.log@, second.port.log@, peer);
            assert(served(first, second, peer));
        }
        let r = self.give_again(peer, mid, code, now_ms);
        proof {
            lemma_served_trans(first, second, *self, peer);
            assert(given_again(second, *self, peer, mid, code, now_ms, r));
        }
        r
    }

    fn give_again(
        &mut self,
        peer: Endpoint,
        mid: MessageId,
        code: Code,
        now_ms: u64,
    ) -> (r: Option<Result<(), Error<T::Error>>>)
        requires
            old(self).wf(),
        ensures
            final(self).wf(),
            served(*old(self), *final(self), peer),
            given_again(*old(self), *final(self), peer, mid, code, now_ms, r),
    {
        let ghost first = *self;
        let key = DedupKey::new(mid, peer);
        match decide_replay(&self.engine, &self.closed, key, code, now_ms) {
            Replay::Run => {
                proof {
                    lemma_calm_same(first.engine, self.engine);
                    lemma_sends_one(self.port.log@, self.port.log@, peer);
                }
                None
            },
            Replay::Bytes(bytes) => Some(self.send_replay_bytes(peer, bytes.as_slice())),
            Replay::Pinned(id) => {
                proof {
                    let rows = self.engine.store.dedup.rows@;
                    let at = find_row(rows, dedup_key(key))->0;
                    lemma_find_row(rows, dedup_key(key));
                    assert(pin_ok(self.engine, rows[at])) by {
                        reveal(pins_ok);
                    }
                }
                let r = self.engine.send_tx(&mut self.port, id);
                proof {
                    lemma_calm_same(first.engine, self.engine);
                    lemma_pins_stay(first.engine, self.engine);
                    let x = Attempt {
                        dest: peer,
                        bytes: first.engine.store.tx.datagram(id),
                        ok: r.is_ok(),
                    };
                    assert(self.port.log@ == first.port.log@.push(x));
                    lemma_sends_one(first.port.log@, self.port.log@, peer);
                }
                match r {
                    Ok(()) => Some(Ok(())),
                    Err(e) => Some(Err(Error::from_io(e))),
                }
            },
            Replay::EmptyAck => {
                remember_empty_ack(&mut self.engine, peer, mid, now_ms, code, &mut self.closed);
                let ghost second = *self;
                proof {
                    lemma_calm_dedup(first.engine, second.engine);
                    lemma_sends_one(first.port.log@, second.port.log@, peer);
                    lemma_bare_wire(Type::Acknowledgement, Code::EMPTY, mid.raw);
                    if free_row(first.engine.store.tx.slots@).is_some() {
                        lemma_still_free(first.engine, second.engine);
                    }
                    assert(ack_noted(first, second, peer, mid, now_ms, code));
                }
                let r = self.send_empty_ack(peer, mid);
                proof {
                    lemma_served_trans(first, second, *self, peer);
                }
                Some(r)
            },
        }
    }
}

/// What sending a datagram again does: it goes out if there is room for it.
pub open spec fn resent_bytes<T: DatagramIo>(
    a: Core<T>,
    b: Core<T>,
    dest: Endpoint,
    bytes: Seq<u8>,
    r: Result<(), Error<T::Error>>,
) -> bool {
    if !room_for_reply(a.engine) {
        r == Err::<(), Error<T::Error>>(Error::Saturated) && b == a
    } else {
        &&& b == (Core { engine: b.engine, port: b.port, ..a })
        &&& exists|c: Engine| #[trigger] room_made(a.engine, c) && only_counted(
            c,
            b.engine,
            a.port.log@,
            b.port.log@,
        )
        &&& if bytes.len() > a.engine.store.tx.slot_bytes {
            r == Err::<(), Error<T::Error>>(Error::Slot(SlotError::LengthExceedsSlot)) && b.port == a.port
        } else {
            &&& b.port.log@ == a.port.log@.push(Attempt { dest, bytes, ok: r.is_ok() })
            &&& handed(a.port.io, dest, bytes, r)
        }
    }
}

} // verus!
