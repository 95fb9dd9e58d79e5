//! Answering requests: in one message, apart from the acknowledgement, or in
//! blocks.
use vstd::prelude::*;

use super::dedup::{
    closed_after, dedup_due_ms, dedup_kept, dedup_place, kept_until, leak_free, lemma_oldest,
    lemma_pins_same, note_dedup_store, others_kept, pin_fresh, pin_ok, pins_ok, reply_kept,
    unpinned, untouched, DedupClosed,
};
use super::error::Error;
use super::reactor::{
    calm, failure, failure_of, handed, lemma_calm_trans, lemma_pins_stay, lemma_sends_one, send_staged,
    served, Core,
};
use super::reply::{reply_message, encode_response, staged, BlockOpt, Head};
use super::response::Response;
use super::send::{gives_again, room_for_reply, room_made};
use crate::error::EncodeError;
use crate::message::wire::{encode_fault, wire, MessageView};
use crate::message::{BlockValue, Code, MessageId, NoResponse, Token, Type};
use crate::storage::endpoint::{DedupKey, Endpoint, SlotId};
use crate::storage::engine::{
    dedup_key, holds, pins, sent_metrics, EncodeFailure, Engine, Store,
};
use crate::storage::io::{Attempt, DatagramIo};
use crate::storage::rows::DedupEntry;
use crate::storage::table::{free_row, lemma_find_unique, lemma_free_row, Keyed};

verus! {

/// What an answer needs to know of its request.
pub struct Answer {
    /// The requesting peer.
    pub dest: Endpoint,
    /// Type of the request.
    pub ty: Type,
    /// Message identifier of the request.
    pub mid: MessageId,
    /// Token of the request.
    pub token: Token,
    /// Which answers the peer wants.
    pub no_response: NoResponse,
    /// The requested block.
    pub block2: Option<BlockValue>,
    /// The requested blocks of a windowed transfer.
    pub selections: Vec<BlockValue>,
    /// The acknowledged block of the request body.
    pub block1: Option<BlockOpt>,
    /// The request code.
    pub request: Code,
}

impl Answer {
    /// Are the block descriptors in range?
    pub open spec fn wf(&self) -> bool {
        &&& self.block2 matches Some(b) ==> b.valid()
        &&& self.block1 matches Some(b) ==> b.value.valid()
        &&& forall|i: int| 0 <= i < self.selections@.len() ==> (#[trigger] self.selections@[i]).valid()
    }

    /// How duplicates of the request are recognised.
    pub open spec fn key(&self) -> DedupKey {
        DedupKey { mid: self.mid, peer: self.dest }
    }
}

/// Why a message does not fit into a slot of an engine.
pub open spec fn encode_verdict(e: Engine, m: MessageView) -> Option<EncodeError> {
    match encode_fault(m) {
        Some(err) => Some(err),
        None => if wire(m).len() > e.store.tx.slot_bytes {
            Some(EncodeError::BufferTooSmall)
        } else {
            None
        },
    }
}

/// What answering in one message does.
///
/// The answer to a confirmable request is kept, so that a duplicate gets the
/// same bytes; where it cannot be, a request that must not run twice is
/// remembered as closed.
pub open spec fn replied<T: DatagramIo>(
    a: Core<T>,
    b: Core<T>,
    answer: Answer,
    m: MessageView,
    now_ms: u64,
    r: Result<(), Error<T::Error>>,
) -> bool {
    if !room_for_reply(a.engine) {
        r == Err::<(), Error<T::Error>>(Error::Saturated) && b == a
    } else {
        match encode_verdict(a.engine, m) {
            Some(e) => {
                &&& r == Err::<(), Error<T::Error>>(failure_of(EncodeFailure::Encode(e)))
                &&& b == (Core { engine: b.engine, ..a })
                &&& room_made(a.engine, b.engine)
            },
            None => {
                &&& b == (Core { engine: b.engine, port: b.port, closed: b.closed, ..a })
                &&& exists|c: Engine| #[trigger]
                    room_made(a.engine, c) && answer_kept(
                        c,
                        b.engine,
                        a.closed,
                        b.closed,
                        answer,
                        wire(m),
                        now_ms,
                        r.is_ok(),
                    )
                &&& b.port.log@ == a.port.log@.push(
                    Attempt { dest: answer.dest, bytes: wire(m), ok: r.is_ok() },
                )
                &&& handed(a.port.io, answer.dest, wire(m), r)
                &&& answer.ty == Type::Confirmable && now_ms < u64::MAX ==> {
                    ||| gives_again(b, answer.key(), answer.request, now_ms, wire(m))
                    ||| dedup_place(a.engine.store.dedup.rows@, dedup_key(answer.key())).is_none()
                        && b.closed == closed_after(
                        a.closed,
                        answer.key(),
                        kept_until(now_ms),
                        answer.request,
                        false,
                    )
                }
            },
        }
    }
}

/// An engine after a request was answered. The attempt is counted. The answer
/// to a confirmable one is kept if there is a place for it: a short one in its
/// row, a long one in the outgoing slot that it was sent from. The reply that was
/// kept in that place is let go.
pub open spec fn answer_kept(
    a: Engine,
    b: Engine,
    closed: Option<DedupClosed>,
    closed_then: Option<DedupClosed>,
    answer: Answer,
    bytes: Seq<u8>,
    now_ms: u64,
    ok: bool,
) -> bool {
    let rows = a.store.dedup.rows@;
    let then = b.store.dedup.rows@;
    &&& b == (Engine {
        store: Store { tx: b.store.tx, dedup: b.store.dedup, ..a.store },
        pending: b.pending,
        metrics: sent_metrics(a.metrics, ok),
        ..a
    })
    &&& b.store.tx.slot_bytes == a.store.tx.slot_bytes
    &&& b.pending@ == a.pending@
    &&& if answer.ty == Type::Confirmable {
        let place = dedup_place(rows, dedup_key(answer.key()));
        &&& closed_then == closed_after(
            closed,
            answer.key(),
            kept_until(now_ms),
            answer.request,
            place.is_some(),
        )
        &&& match place {
            Some(at) => {
                &&& 0 <= at < rows.len()
                &&& then == rows.update(at, then[at])
                &&& then[at] matches Some(d) && d.mid == answer.mid && d.peer == answer.dest
                    && d.due_ms == kept_until(now_ms) && if bytes.len()
                    <= DedupEntry::REPLAY_MAX {
                    &&& d.tx_pin.is_none()
                    &&& d.replay matches Some(kept) && kept@ == bytes
                    &&& b.store.tx.slots@ == unpinned(a.store.tx.slots@, rows[at])
                } else {
                    &&& d.replay.is_none()
                    &&& d.tx_pin matches Some(id) && free_row(a.store.tx.slots@) == Some(
                        id.at as int,
                    ) && holds(b.store.tx.slots@[id.at as int], answer.dest, bytes)
                        && b.store.tx.slots@ == unpinned(a.store.tx.slots@, rows[at]).update(
                        id.at as int,
                        b.store.tx.slots@[id.at as int],
                    )
                }
                &&& others_kept(a, b, at)
            },
            None => {
                &&& then == rows
                &&& b.store.tx.slots@ == a.store.tx.slots@
                &&& others_kept(a, b, -1)
            },
        }
    } else {
        closed_then == closed && then == rows && b.store.tx.slots@ == a.store.tx.slots@
    }
}

/// A slot that was just taken has no owner yet; everything else is as it was.
proof fn lemma_staged(a: Engine, b: Engine, m: MessageView, dest: Endpoint, id: SlotId)
    requires
        a.wf(),
        pins_ok(a),
        staged(a, b, m, dest, Ok(id)),
    ensures
        b.unowned(id.at as int),
        pins_ok(b),
        forall|i: int| #[trigger] b.unowned(i) ==> i == id.at || a.unowned(i),
{
    reveal(pins_ok);
    let at = id.at as int;
    if b.pinned_reply(at) {
        let k = choose|k: int|
            0 <= k < b.store.dedup.rows@.len() && pins(#[trigger] b.store.dedup.rows@[k], at);
        assert(pin_ok(a, a.store.dedup.rows@[k]));
    }
    assert forall|k: int| 0 <= k < b.store.dedup.rows@.len() implies pin_ok(
        b,
        #[trigger] b.store.dedup.rows@[k],
    ) by {
        assert(pin_ok(a, a.store.dedup.rows@[k]));
    }
    assert forall|i: int| #[trigger] b.unowned(i) implies i == id.at || a.unowned(i) by {
        if a.pinned_reply(i) {
            let k = choose|k: int|
                0 <= k < a.store.dedup.rows@.len() && pins(#[trigger] a.store.dedup.rows@[k], i);
            assert(pins(b.store.dedup.rows@[k], i));
        }
    }
}

/// Taking a slot, keeping an answer and freeing the slot is calm.
proof fn lemma_kept_then_freed(a: Engine, b: Engine, c: Engine, d: Engine, entry: DedupEntry, at: int, ok: bool)
    requires
        a.wf(),
        b.wf(),
        c.wf(),
        pins_ok(b),
        b.unowned(at),
        forall|i: int| #[trigger] b.unowned(i) ==> i == at || a.unowned(i),
        super::reactor::same_shape(a, d),
        super::reactor::same_shape(a, b),
        dedup_kept(b, c, entry, ok),
        entry.tx_pin.is_none() || !ok,
        ok ==> 0 <= dedup_place(b.store.dedup.rows@, entry.row_key())->0
            < b.store.dedup.rows@.len(),
        d.store.dedup.rows@ == c.store.dedup.rows@,
        d.store.tx.slots@ == c.store.tx.slots@.update(at, None),
        d.pending@ == c.pending@,
    ensures
        calm(a, d),
        pins_ok(d),
{
    reveal(calm);
    let rows = c.store.dedup.rows@;
    assert(!c.pinned_reply(at)) by {
        if c.pinned_reply(at) {
            let k = choose|k: int| 0 <= k < rows.len() && pins(#[trigger] rows[k], at);
            assert(pins(b.store.dedup.rows@[k], at));
            assert(b.pinned_reply(at));
        }
    }
    assert(pins_ok(c));
    assert(pins_ok(d)) by {
        reveal(pins_ok);
        assert forall|k: int| 0 <= k < d.store.dedup.rows@.len() implies pin_ok(
            d,
            #[trigger] d.store.dedup.rows@[k],
        ) by {
            assert(pin_ok(c, rows[k]));
            if pins(rows[k], at) {
                assert(c.pinned_reply(at));
            }
        }
    }
    assert(leak_free(a, d)) by {
        reveal(leak_free);
        assert forall|i: int| #[trigger] d.unowned(i) implies a.unowned(i) by {
            assert(i != at);
            if c.pinned_reply(i) {
                let k = choose|k: int| 0 <= k < rows.len() && pins(#[trigger] rows[k], i);
                assert(pins(d.store.dedup.rows@[k], i));
            }
            assert(c.unowned(i));
            assert(b.unowned(i));
        }
    }
}

/// Taking a slot and keeping an answer in it is calm.
proof fn lemma_kept_in_slot(a: Engine, b: Engine, c: Engine, d: Engine, entry: DedupEntry, id: SlotId)
    requires
        a.wf(),
        b.wf(),
        c.wf(),
        pins_ok(b),
        b.unowned(id.at as int),
        forall|i: int| #[trigger] b.unowned(i) ==> i == id.at || a.unowned(i),
        super::reactor::same_shape(a, d),
        super::reactor::same_shape(a, b),
        dedup_kept(b, c, entry, true),
        entry.tx_pin == Some(id),
        pin_fresh(b, entry),
        0 <= dedup_place(b.store.dedup.rows@, entry.row_key())->0 < b.store.dedup.rows@.len(),
        d.store.dedup.rows@ == c.store.dedup.rows@,
        d.store.tx.slots@ == c.store.tx.slots@,
        d.pending@ == c.pending@,
    ensures
        calm(a, d),
        pins_ok(d),
{
    reveal(calm);
    lemma_pins_same(c, d);
    let rows = c.store.dedup.rows@;
    let at = dedup_place(b.store.dedup.rows@, entry.row_key())->0;
    assert(leak_free(a, d)) by {
        reveal(leak_free);
        assert forall|i: int| #[trigger] d.unowned(i) implies a.unowned(i) by {
            assert(pins(d.store.dedup.rows@[at], id.at as int));
            assert(d.pinned_reply(id.at as int));
            if c.pinned_reply(i) {
                let k = choose|k: int| 0 <= k < rows.len() && pins(#[trigger] rows[k], i);
                assert(pins(d.store.dedup.rows@[k], i));
            }
            assert(c.unowned(i));
            assert(b.unowned(i));
        }
    }
}

/// Taking a free slot, keeping an answer, and freeing the slot or not leaves
/// other replies as they are.
proof fn lemma_others_kept(a: Engine, b: Engine, c: Engine, d: Engine, id: int, at: int)
    requires
        pins_ok(a),
        0 <= id < a.store.tx.slots@.len(),
        a.store.tx.slots@[id].is_none(),
        b.store.dedup.rows@ == a.store.dedup.rows@,
        b.store.tx.slots@ == a.store.tx.slots@.update(id, b.store.tx.slots@[id]),
        others_kept(b, c, at),
        c.store.tx.slots@.len() == a.store.tx.slots@.len(),
        d.store.tx.slots@ == c.store.tx.slots@.update(id, d.store.tx.slots@[id]),
    ensures
        others_kept(a, d, at),
{
    reveal(pins_ok);
    let rows = a.store.dedup.rows@;
    assert forall|k: int| 0 <= k < rows.len() && k != at implies #[trigger] reply_kept(a, d, k) by {
        assert(pin_ok(a, rows[k]));
        assert(reply_kept(b, c, k));
    }
}

/// Making room for a reply leaves room to keep it, if there was any.
proof fn lemma_place_after_room(a: Engine, b: Engine, key: crate::storage::endpoint::KeyView)
    requires
        room_made(a, b),
        dedup_place(a.store.dedup.rows@, key).is_some(),
    ensures
        dedup_place(b.store.dedup.rows@, key).is_some(),
{
    if b != a {
        let rows = a.store.dedup.rows@;
        lemma_oldest(rows, true);
        lemma_oldest(b.store.dedup.rows@, false);
    }
}

/// Where a kept answer goes, and that it is found there.
proof fn lemma_kept<T>(
    first: Core<T>,
    second: Core<T>,
    third: Core<T>,
    fourth: Core<T>,
    answer: Answer,
    entry: DedupEntry,
    ok: bool,
)
    requires
        fourth.engine.wf(),
        room_made(first.engine, second.engine),
        third.engine.store.dedup == second.engine.store.dedup,
        dedup_kept(third.engine, fourth.engine, entry, ok),
        entry.mid == answer.mid,
        entry.peer == answer.dest,
        entry.usable(),
        ok == dedup_place(third.engine.store.dedup.rows@, entry.row_key()).is_some(),
    ensures
        ok ==> 0 <= dedup_place(third.engine.store.dedup.rows@, entry.row_key())->0
            < third.engine.store.dedup.rows@.len(),
        ok ==> fourth.engine.store.dedup.row(dedup_key(answer.key())) == Some(entry),
        !ok ==> dedup_place(
            first.engine.store.dedup.rows@,
            dedup_key(answer.key()),
        ).is_none(),
{
    let key = dedup_key(answer.key());
    assert(entry.row_key() == key);
    let rows = third.engine.store.dedup.rows@;
    crate::storage::table::lemma_find_row(rows, key);
    lemma_free_row(rows);
    lemma_oldest(rows, false);
    if ok {
        let at = dedup_place(rows, key)->0;
        lemma_find_unique(fourth.engine.store.dedup.rows@, at);
    } else if dedup_place(first.engine.store.dedup.rows@, key).is_some() {
        lemma_place_after_room(first.engine, second.engine, key);
    }
}

impl<T: DatagramIo> Core<T> {
    /// Answer in one message, and keep the answer to a confirmable request.
    pub fn send_plain(
        &mut self,
        answer: &Answer,
        response: &Response<'_>,
        ty: Type,
        mid: MessageId,
        now_ms: u64,
    ) -> (r: Result<(), Error<T::Error>>)
        requires
            old(self).wf(),
            answer.wf(),
        ensures
            final(self).wf(),
            served(*old(self), *final(self), answer.dest),
            final(self).ids == old(self).ids,
            replied(
                *old(self),
                *final(self),
                *answer,
                reply_message(
                    response@,
                    ty,
                    mid.raw,
                    answer.token@,
                    response@.payload,
                    None,
                    answer.block1,
                ),
                now_ms,
                r,
            ),
    {
        let ghost first = *self;
        self.acquire_tx_or_evict();
        let ghost second = *self;
        let ghost m = reply_message(
            response@,
            ty,
            mid.raw,
            answer.token@,
            response@.payload,
            None,
            answer.block1,
        );
        proof {
            lemma_sends_one(first.port.log@, second.port.log@, answer.dest);
        }
        let head = Head { ty, mid, token: answer.token };
        let slot = encode_response(
            &mut self.engine,
            head,
            response,
            response.payload(),
            None,
            answer.block1,
            answer.dest,
        );
        let id = match slot {
            Ok(id) => id,
            Err(f) => return Err(failure(f)),
        };
        let ghost third = *self;
        proof {
            lemma_staged(second.engine, third.engine, m, answer.dest, id);
        }
        if answer.ty == Type::Confirmable {
            let short: Option<Vec<u8>> = match self.engine.store.tx.bytes(id) {
                Ok(bytes) => if bytes.len() <= DedupEntry::REPLAY_MAX {
                    Some(crate::bytes::to_vec(bytes))
                } else {
                    None
                },
                Err(_) => None,
            };
            let blank = DedupEntry::new(answer.mid, answer.dest).with_due_ms(dedup_due_ms(now_ms));
            let pinned: bool = short.is_none();
            let entry = match &short {
                Some(bytes) => blank.with_replay(bytes.as_slice()),
                None => blank.with_tx_pin(id),
            };
            let ok: bool = note_dedup_store(
                &mut self.engine,
                entry,
                answer.request,
                &mut self.closed,
            );
            let ghost fourth = *self;
            let ghost place = if ok {
                dedup_place(third.engine.store.dedup.rows@, entry.row_key())->0
            } else {
                -1
            };
            proof {
                lemma_kept(first, second, third, fourth, *answer, entry, ok);
                assert(others_kept(third.engine, fourth.engine, place));
            }
            if ok && pinned {
                assert(untouched(third.engine, fourth.engine));
                assert(!third.engine.pinned_reply(id.at as int));
                assert(fourth.engine.store.tx.slots@[id.at as int]
                    == third.engine.store.tx.slots@[id.at as int]) by {
                    reveal(untouched);
                }
                let sent = self.engine.send_tx(&mut self.port, id);
                proof {
                    lemma_kept_in_slot(
                        second.engine,
                        third.engine,
                        fourth.engine,
                        self.engine,
                        entry,
                        id,
                    );
                    lemma_calm_trans(first.engine, second.engine, self.engine);
                    let x = Attempt { dest: answer.dest, bytes: wire(m), ok: sent.is_ok() };
                    assert(self.port.log@ == first.port.log@.push(x));
                    lemma_sends_one(first.port.log@, self.port.log@, answer.dest);
                    let slots = self.engine.store.tx.slots@;
                    assert(slots.update(id.at as int, slots[id.at as int]) =~= slots);
                    lemma_others_kept(
                        second.engine,
                        third.engine,
                        fourth.engine,
                        self.engine,
                        id.at as int,
                        place,
                    );
                    let rows = second.engine.store.dedup.rows@;
                    assert(pin_ok(second.engine, rows[place])) by {
                        reveal(pins_ok);
                    }
                    assert(self.engine.pending@ =~= second.engine.pending@);
                    assert(self.engine.store.tx.slots@ =~= unpinned(
                        second.engine.store.tx.slots@,
                        rows[place],
                    ).update(id.at as int, self.engine.store.tx.slots@[id.at as int]));
                    assert(entry.replay.is_none());
                    assert(holds(
                        self.engine.store.tx.slots@[id.at as int],
                        answer.dest,
                        wire(m),
                    ));
                    assert(self.engine.metrics == sent_metrics(
                        second.engine.metrics,
                        sent.is_ok(),
                    ));
                    assert(answer_kept(
                        second.engine,
                        self.engine,
                        first.closed,
                        self.closed,
                        *answer,
                        wire(m),
                        now_ms,
                        sent.is_ok(),
                    ));
                }
                return match sent {
                    Ok(()) => Ok(()),
                    Err(e) => Err(Error::from_io(e)),
                };
            }
            assert(fourth.engine.store.tx.slots@[id.at as int]
                == third.engine.store.tx.slots@[id.at as int] && fourth.engine.pending@[
                id.at as int
            ].is_none()) by {
                reveal(untouched);
            }
            let sent = self.engine.finish_send(&mut self.port, id, answer.dest, None);
            proof {
                lemma_kept_then_freed(
                    second.engine,
                    third.engine,
                    fourth.engine,
                    self.engine,
                    entry,
                    id.at as int,
                    ok,
                );
                lemma_calm_trans(first.engine, second.engine, self.engine);
                let x = Attempt { dest: answer.dest, bytes: wire(m), ok: sent.is_ok() };
                assert(self.port.log@ == first.port.log@.push(x));
                lemma_sends_one(first.port.log@, self.port.log@, answer.dest);
                lemma_others_kept(
                    second.engine,
                    third.engine,
                    fourth.engine,
                    self.engine,
                    id.at as int,
                    place,
                );
                let rows = second.engine.store.dedup.rows@;
                if ok {
                    assert(pin_ok(second.engine, rows[place])) by {
                        reveal(pins_ok);
                    }
                }
                assert(self.engine.pending@ =~= second.engine.pending@);
                assert(self.engine.store.tx.slots@ =~= if ok {
                    unpinned(second.engine.store.tx.slots@, rows[place])
                } else {
                    second.engine.store.tx.slots@
                });
                assert(self.engine.metrics == sent_metrics(second.engine.metrics, sent.is_ok()));
                assert(answer_kept(
                    second.engine,
                    self.engine,
                    first.closed,
                    self.closed,
                    *answer,
                    wire(m),
                    now_ms,
                    sent.is_ok(),
                ));
            }
            return match sent {
                Ok(()) => Ok(()),
                Err(e) => Err(Error::from_tx(e)),
            };
        }
        let r = send_staged(
            &mut self.engine,
            &mut self.port,
            Ok(id),
            answer.dest,
            None,
            Ghost(second.engine),
            Ghost(m),
        );
        proof {
            lemma_calm_trans(first.engine, second.engine, self.engine);
            lemma_pins_stay(first.engine, self.engine);
        }
        r
    }
}

} // verus!
