//! Notifications.
use vstd::prelude::*;

use super::answer::Answer;
use super::bodies::{
    body_begun, body_ended, body_set, classic_issued, outgoing_key, start_fault,
};
use super::error::Error;
use super::outbound::identified;
use super::owned::subscribed_still;
use super::reactor::{
    calm, delivered, grown, lemma_bodies_served, lemma_calm_same, lemma_calm_trans, lemma_grown_same,
    lemma_grown_trans, lemma_pins_stay, lemma_rows_tended, lemma_sends_grown, lemma_served_same,
    lemma_served_trans, lemma_tended_trans, send_staged, served, tended, Core,
};
use super::reply::{notification_message, encode_notification, Head};
use super::respond::unidentified;
use super::response::{bare_response, sent_parts, Response, ResponseView};
use crate::error::{BlockTransferError, EncodeError, SlotMessageError};
use crate::message::{Code, ContentFormat, MessageId, NoResponse, Token, Type};
use crate::storage::blocks::response_body;
use crate::storage::endpoint::{BlockKey, Endpoint, KeyView, ObserveKey, SlotId};
use crate::storage::engine::{later, stage_verdict, Confirm, EncodeFailure, Engine, Store};
use crate::storage::io::DatagramIo;
use crate::storage::metrics::{inc, Metrics};
use crate::storage::observe::{
    next_seq, notify_blocked, notify_due, observes, prev_seq, signalled, with_rows,
};
use crate::storage::rows::{ObserveInterest, ObserveLifetime};
use crate::storage::table::{
    find_row, lemma_find_row, lemma_find_unique, lemma_free_row, place_row, Keyed,
};
use crate::storage::transfer::BlockRole;

verus! {

/// Freshness of a representation without Max-Age, in seconds.
pub const DEFAULT_MAX_AGE_SECS: u32 = 60;

/// Are two content formats, or their absence, the same?
pub fn same_format(a: Option<ContentFormat>, b: Option<ContentFormat>) -> (same: bool)
    ensures
        same == (a == b),
{
    match (a, b) {
        (Some(a), Some(b)) => a == b,
        (None, None) => true,
        _ => false,
    }
}

/// What an observer is told.
///
/// That the resource is gone; that the representation changed its format; or
/// the representation. Only a success carries the sequence number.
pub open spec fn notification(interest: ObserveInterest, r: ResponseView, seq: u32) -> ResponseView {
    let base = if interest.deleted {
        bare_response(Code::NOT_FOUND)
    } else if r.code.spec_is_success() && r.format != interest.content_format {
        bare_response(Code::NOT_ACCEPTABLE)
    } else {
        sent_parts(r)
    };
    ResponseView {
        observe: if base.code.spec_is_success() {
            Some(seq)
        } else {
            None
        },
        ..base
    }
}

/// Is a notification to be confirmed? The last one is, and one each day.
pub open spec fn notification_type(
    interest: ObserveInterest,
    n: ResponseView,
    now_ms: u64,
) -> Type {
    if !n.code.spec_is_success() || interest.confirm_due(now_ms) {
        Type::Confirmable
    } else {
        Type::NonConfirmable
    }
}

/// The observers after one was notified: the last notification ends the
/// observation, any other is recorded.
pub open spec fn rows_notified(
    rows: Seq<Option<ObserveInterest>>,
    interest: ObserveInterest,
    n: ResponseView,
    mid: u16,
    now_ms: u64,
) -> Seq<Option<ObserveInterest>> {
    match find_row(rows, interest.row_key()) {
        None => rows,
        Some(i) => if !n.code.spec_is_success() {
            rows.update(i, None)
        } else {
            let confirmable = interest.confirm_due(now_ms);
            let row = rows[i]->0.notified(now_ms, MessageId { raw: mid }, confirmable);
            rows.update(
                i,
                Some(
                    if confirmable {
                        row
                    } else {
                        ObserveInterest {
                            lifetime: Some(
                                ObserveLifetime {
                                    due_ms: later(
                                        now_ms,
                                        (match n.max_age {
                                            Some(s) => s,
                                            None => DEFAULT_MAX_AGE_SECS,
                                        }) * 1000,
                                    ),
                                },
                            ),
                            ..row
                        }
                    },
                ),
            )
        },
    }
}

/// What an answer is made of when a notification goes out in blocks.
pub open spec fn notify_answer(interest: ObserveInterest, answer: Answer) -> bool {
    &&& answer.dest == interest.peer
    &&& answer.token@ == interest.token@
    &&& answer.block2.is_none()
    &&& answer.block1.is_none()
    &&& answer.selections@.len() == 0
}

/// The body of an earlier notification to an observer, if it still goes out, is
/// let go; nothing else changed.
pub open spec fn earlier_ended<T>(a: Core<T>, b: Core<T>, interest: ObserveInterest) -> bool {
    &&& b == (Core { engine: b.engine, ..a })
    &&& match a.engine.store.bodies {
        Some(p) => match response_body(p.tx.slots@, interest.token@, interest.peer) {
            Some(i) => body_set(a.engine, b.engine, SlotId { at: i as usize }, None),
            None => b == a,
        },
        None => b == a,
    }
}

/// What one send of a notification does: one message goes out, or, if it does
/// not fit, the first block of its body, which is kept for the others.
pub open spec fn notification_sent<T: DatagramIo>(
    a: Core<T>,
    b: Core<T>,
    interest: ObserveInterest,
    n: ResponseView,
    ty: Type,
    mid: u16,
    confirm: Option<Confirm>,
    res: Result<(), Error<T::Error>>,
) -> bool {
    let m = notification_message(n, ty, mid, interest.token@);
    if stage_verdict(a.engine, m) == Err::<int, EncodeFailure>(
        EncodeFailure::Encode(EncodeError::BufferTooSmall),
    ) {
        match start_fault(a.engine, n, false) {
            Some(BlockTransferError::NoBodyPools) => res == Err::<(), Error<T::Error>>(
                Error::Message(SlotMessageError::Encode(EncodeError::BufferTooSmall)),
            ) && b == a,
            Some(e) => res == Err::<(), Error<T::Error>>(Error::Block(e)) && b == a,
            None => exists|c: Core<T>, d: Core<T>, id: SlotId, answer: Answer|
                {
                    &&& notify_answer(interest, answer)
                    &&& #[trigger] body_begun(
                        a,
                        c,
                        id,
                        BlockRole::OutgoingBlock2,
                        outgoing_key(answer, n),
                        n.payload,
                        6,
                    )
                    &&& #[trigger] classic_issued(c, d, answer, n, ty, mid, id, confirm, res)
                    &&& if res.is_err() {
                        body_ended(d, b, id)
                    } else {
                        b == d
                    }
                },
        }
    } else {
        &&& b == (Core { engine: b.engine, port: b.port, ..a })
        &&& delivered(
            a.engine,
            b.engine,
            a.port,
            b.port,
            m,
            interest.peer,
            confirm,
            res,
        )
    }
}

/// How a notification waits for its acknowledgement, if it does.
pub open spec fn notify_confirm(ty: Type, mid: u16, jitter: u32, now_ms: u64) -> Option<Confirm> {
    if ty == Type::Confirmable {
        Some(Confirm { now_ms, mid: MessageId { raw: mid }, jitter })
    } else {
        None
    }
}

/// The observers and the counters are these now; nothing else changed.
pub open spec fn observers_set<T>(
    a: Core<T>,
    b: Core<T>,
    rows: Seq<Option<ObserveInterest>>,
    counted: Metrics,
) -> bool {
    &&& b == (Core { engine: b.engine, ..a })
    &&& b.engine == (Engine {
        store: Store { observe: b.engine.store.observe, ..a.engine.store },
        metrics: counted,
        ..a.engine
    })
    &&& b.engine.store.observe.rows@ == rows
}

/// The counters after an observer was notified: a failure ends the observation.
pub open spec fn notify_counted(
    m: Metrics,
    rows: Seq<Option<ObserveInterest>>,
    interest: ObserveInterest,
    n: ResponseView,
) -> Metrics {
    if n.code.spec_is_success() {
        Metrics { observe_notify: inc(m.observe_notify), ..m }
    } else if find_row(rows, interest.row_key()).is_some() {
        Metrics { observe_cancel: inc(m.observe_cancel), ..m }
    } else {
        m
    }
}

/// That an observer was notified is recorded and counted; nothing else changed.
pub open spec fn notified_recorded<T>(
    a: Core<T>,
    b: Core<T>,
    interest: ObserveInterest,
    n: ResponseView,
    mid: u16,
    now_ms: u64,
) -> bool {
    observers_set(
        a,
        b,
        rows_notified(a.engine.store.observe.rows@, interest, n, mid, now_ms),
        notify_counted(a.engine.metrics, a.engine.store.observe.rows@, interest, n),
    )
}

/// What notifying one observer does.
pub open spec fn observer_notified<T: DatagramIo>(
    a: Core<T>,
    b: Core<T>,
    interest: ObserveInterest,
    r: ResponseView,
    seq: u32,
    now_ms: u64,
    res: Result<(), Error<T::Error>>,
) -> bool {
    let n = notification(interest, r, seq);
    let ty = notification_type(interest, n, now_ms);
    match r.fault {
        Some(e) => res == Err::<(), Error<T::Error>>(Error::Response(e)) && b == a,
        None => {
            ||| unidentified(a, b, now_ms, res)
            ||| {
                let mid = a.ids.next_mid;
                &&& !a.ids.exhausted(a.engine, now_ms)
                &&& exists|c: Core<T>, d: Core<T>, e: Core<T>|
                    {
                        &&& #[trigger] identified(a, c, now_ms)
                        &&& #[trigger] earlier_ended(c, d, interest)
                        &&& #[trigger] notification_sent(
                            d,
                            e,
                            interest,
                            n,
                            ty,
                            mid,
                            notify_confirm(ty, mid, c.ids.jitter, now_ms),
                            res,
                        )
                        &&& if res.is_ok() {
                            notified_recorded(e, b, interest, n, mid, now_ms)
                        } else {
                            b == e
                        }
                    }
            }
        },
    }
}

impl<T: DatagramIo> Core<T> {
    /// Notify with a body that does not fit into one message.
    fn start_notify_block2(
        &mut self,
        interest: &ObserveInterest,
        n: &Response<'_>,
        head: Head,
        confirm: Option<Confirm>,
    ) -> (r: Result<(), Error<T::Error>>)
        requires
            old(self).wf(),
            head.token == interest.token,
            confirm.is_some() == (head.ty == Type::Confirmable),
            stage_verdict(
                old(self).engine,
                notification_message(n@, head.ty, head.mid.raw, interest.token@),
            ) == Err::<int, EncodeFailure>(EncodeFailure::Encode(EncodeError::BufferTooSmall)),
        ensures
            final(self).wf(),
            served(*old(self), *final(self), interest.peer),
            notification_sent(
                *old(self),
                *final(self),
                *interest,
                n@,
                head.ty,
                head.mid.raw,
                confirm,
                r,
            ),
    {
        let ghost first = *self;
        let answer = Answer {
            dest: interest.peer,
            ty: head.ty,
            mid: head.mid,
            token: interest.token,
            no_response: NoResponse::interested(),
            block2: None,
            selections: Vec::new(),
            block1: None,
            request: Code::GET,
        };
        proof {
            lemma_served_same(first, first, interest.peer);
        }
        let key = BlockKey::new(interest.token, interest.peer);
        let started = self.engine.start_body(BlockRole::OutgoingBlock2, key, n.payload(), 6);
        let ghost second = *self;
        let ghost fault = start_fault(first.engine, n@, false);
        let id = match started {
            Ok(id) => id,
            Err(BlockTransferError::NoBodyPools) => {
                assert(fault == Some(BlockTransferError::NoBodyPools));
                return Err(Error::Message(SlotMessageError::Encode(EncodeError::BufferTooSmall)));
            },
            Err(e) => {
                assert(fault == Some(e));
                return Err(Error::Block(e));
            },
        };
        assert(fault.is_none());
        proof {
            lemma_bodies_served(first, second, interest.peer);
            lemma_pins_stay(first.engine, second.engine);
            assert(notify_answer(*interest, answer));
            assert(body_begun(
                first,
                second,
                id,
                BlockRole::OutgoingBlock2,
                outgoing_key(answer, n@),
                n@.payload,
                6,
            ));
        }
        let r = self.issue_classic(&answer, n, head, id, confirm);
        let ghost third = *self;
        proof {
            lemma_served_trans(first, second, third, interest.peer);
            assert(classic_issued(
                second,
                third,
                answer,
                n@,
                head.ty,
                head.mid.raw,
                id,
                confirm,
                r,
            ));
        }
        if r.is_err() {
            self.engine.release_tx_body(id);
            proof {
                lemma_bodies_served(third, *self, interest.peer);
                lemma_served_trans(first, third, *self, interest.peer);
                lemma_pins_stay(third.engine, self.engine);
                let slots = third.engine.store.bodies->0.tx.slots@;
                if third.engine.tx_transfer(id).is_none() {
                    assert(slots.update(id.at as int, None) =~= slots);
                }
                assert(body_ended(third, *self, id));
            }
        }
        r
    }

    /// Record that an observer was notified.
    fn record_notified(
        &mut self,
        interest: &ObserveInterest,
        n: &Response<'_>,
        mid: MessageId,
        now_ms: u64,
    )
        requires
            old(self).wf(),
            !interest.client,
        ensures
            final(self).wf(),
            tended(*old(self), *final(self), interest.peer),
            notified_recorded(*old(self), *final(self), *interest, n@, mid.raw, now_ms),
    {
        let ghost first = *self;
        proof {
            lemma_find_row(first.engine.store.observe.rows@, interest.row_key());
        }
        if !n.code().is_success() {
            let _ = self.engine.take_observe(interest.key());
        } else {
            let confirmable: bool = interest.must_confirm(now_ms);
            self.engine.record_observe_notify(interest.key(), now_ms, mid, confirmable);
            if !confirmable {
                let max_age: u32 = match n.max_age_secs() {
                    Some(secs) => secs,
                    None => DEFAULT_MAX_AGE_SECS,
                };
                proof {
                    let rows = self.engine.store.observe.rows@;
                    if let Some(i) = find_row(
                        first.engine.store.observe.rows@,
                        interest.row_key(),
                    ) {
                        assert(rows[i]->0.row_key() == interest.row_key());
                        lemma_find_unique(rows, i);
                    } else {
                        assert(rows == first.engine.store.observe.rows@);
                    }
                }
                self.engine.refresh_observe_max_age(interest.key(), now_ms, max_age);
            }
        }
        proof {
            assert(subscribed_still(
                first.engine.store.observe.rows@,
                self.engine.store.observe.rows@,
            )) by {
                reveal(subscribed_still);
            }
            lemma_rows_tended(first, *self, interest.peer);
            lemma_pins_stay(first.engine, self.engine);
            assert(self.engine.store.observe.rows@ =~= rows_notified(
                first.engine.store.observe.rows@,
                *interest,
                n@,
                mid.raw,
                now_ms,
            ));
        }
    }

    /// Notify one observer, with the given sequence number.
    pub fn send_notification(
        &mut self,
        interest: &ObserveInterest,
        response: &Response<'_>,
        seq: u32,
        now_ms: u64,
    ) -> (r: Result<(), Error<T::Error>>)
        requires
            old(self).wf(),
            !interest.client,
        ensures
            final(self).wf(),
            tended(*old(self), *final(self), interest.peer),
            observer_notified(*old(self), *final(self), *interest, response@, seq, now_ms, r),
    {
        let ghost first = *self;
        proof {
            lemma_served_same(first, first, interest.peer);
        }
        match response.validate() {
            Ok(()) => {},
            Err(e) => return Err(Error::Response(e)),
        }
        let base = if interest.deleted {
            Response::not_found()
        } else if response.code().is_success() && !same_format(
            response.format(),
            interest.content_format,
        ) {
            Response::new(Code::NOT_ACCEPTABLE)
        } else {
            response.copy_sent()
        };
        let success: bool = base.code().is_success();
        let n = if success {
            base.observe(seq)
        } else {
            base.without_observe()
        };
        assert(n@ == notification(*interest, response@, seq));
        let confirmable: bool = !success || interest.must_confirm(now_ms);
        let ty = if confirmable {
            Type::Confirmable
        } else {
            Type::NonConfirmable
        };
        let mid = match self.ids.next_for(&self.engine, now_ms) {
            Ok(mid) => mid,
            Err(e) => {
                proof {
                    lemma_served_same(first, *self, interest.peer);
                }
                return Err(Error::Identity(e));
            },
        };
        let confirm = if confirmable {
            Some(Confirm { now_ms, mid, jitter: self.ids.jitter() })
        } else {
            None
        };
        let ghost named = *self;
        if let Some(body) = self.engine.response_body_for(interest.token, interest.peer) {
            self.engine.release_tx_body(body);
        }
        let ghost second = *self;
        proof {
            lemma_bodies_served(first, second, interest.peer);
            lemma_pins_stay(first.engine, second.engine);
            assert(identified(first, named, now_ms));
            assert(earlier_ended(named, second, *interest));
            assert(confirm == notify_confirm(ty, mid.raw, named.ids.jitter, now_ms));
        }
        let head = Head { ty, mid, token: interest.token };
        let ghost m = notification_message(n@, ty, mid.raw, interest.token@);
        let slot = encode_notification(&mut self.engine, head, &n, interest.peer);
        let r = match slot {
            Err(EncodeFailure::Encode(EncodeError::BufferTooSmall)) => self.start_notify_block2(
                interest,
                &n,
                head,
                confirm,
            ),
            slot => {
                let r = send_staged(
                    &mut self.engine,
                    &mut self.port,
                    slot,
                    interest.peer,
                    confirm,
                    Ghost(second.engine),
                    Ghost(m),
                );
                proof {
                    lemma_pins_stay(second.engine, self.engine);
                }
                r
            },
        };
        let ghost third = *self;
        proof {
            assert(served(second, third, interest.peer));
            lemma_served_trans(first, second, third, interest.peer);
            assert(notification_sent(second, third, *interest, n@, ty, mid.raw, confirm, r));
        }
        if r.is_err() {
            return r;
        }
        self.record_notified(interest, &n, mid, now_ms);
        proof {
            lemma_tended_trans(first, third, *self, interest.peer);
        }
        r
    }
}

/// Only the given observer changed, and it got this row.
pub open spec fn row_set<T>(a: Core<T>, b: Core<T>, i: int, row: ObserveInterest) -> bool {
    &&& with_rows(a.engine, b.engine)
    &&& b.engine.store.observe.rows@ == a.engine.store.observe.rows@.update(i, Some(row))
    &&& b.port == a.port
    &&& b.ids == a.ids
    &&& b.inbox == a.inbox
    &&& b.lives == a.lives
    &&& b.closed == a.closed
}

/// The error of a result.
pub open spec fn failure_in<E>(res: Result<(), Error<E>>) -> Option<Error<E>> {
    match res {
        Ok(_) => None,
        Err(e) => Some(e),
    }
}

/// The step of a round of notifications that concerns one observer.
///
/// Others than those of the resource are passed over. One whose peer has as
/// much outstanding as it may is passed over and counted. The others are sent
/// the next sequence number.
pub open spec fn round_step<T: DatagramIo>(
    a: Core<T>,
    b: Core<T>,
    i: int,
    resource: Option<usize>,
    r: ResponseView,
    now_ms: u64,
    sent: nat,
    failure: Option<Error<T::Error>>,
) -> bool {
    let row = a.engine.store.observe.rows@[i];
    if !observes(row, resource) {
        b == a && sent == 0 && failure.is_none()
    } else if notify_blocked(a.engine, row->0.peer, now_ms) {
        &&& b == (Core {
            engine: Engine {
                metrics: Metrics {
                    nstart_reject: inc(a.engine.metrics.nstart_reject),
                    ..a.engine.metrics
                },
                ..a.engine
            },
            ..a
        })
        &&& sent == 0
        &&& failure.is_none()
    } else {
        let next = ObserveInterest { seq: next_seq(row->0.seq), ..row->0 };
        &&& sent == 1
        &&& exists|c: Core<T>, res: Result<(), Error<T::Error>>|
            row_set(a, c, i, next) && failure_in(res) == failure
                && #[trigger] observer_notified(c, b, next, r, next.seq, now_ms, res)
    }
}

/// The first steps of a round of notifications, all of them successful.
pub open spec fn round_run<T: DatagramIo>(
    a: Core<T>,
    b: Core<T>,
    upto: nat,
    resource: Option<usize>,
    r: ResponseView,
    now_ms: u64,
    sent: nat,
) -> bool
    decreases upto,
{
    if upto == 0 {
        b == a && sent == 0
    } else {
        exists|c: Core<T>, n: nat|
            {
                &&& #[trigger] round_step::<T>(
                    c,
                    b,
                    upto - 1,
                    resource,
                    r,
                    now_ms,
                    n,
                    None,
                )
                &&& n <= sent
                &&& round_run::<T>(
                    a,
                    c,
                    (upto - 1) as nat,
                    resource,
                    r,
                    now_ms,
                    (sent - n) as nat,
                )
            }
    }
}

/// The observer whose notification failed is due again.
pub open spec fn due_again<T>(a: Core<T>, b: Core<T>, i: int, seq: u32) -> bool {
    &&& with_rows(a.engine, b.engine)
    &&& b.engine.store.observe.rows@ == restored_rows(a.engine.store.observe.rows@, i, seq)
    &&& b.port == a.port
    &&& b.ids == a.ids
    &&& b.inbox == a.inbox
    &&& b.lives == a.lives
    &&& b.closed == a.closed
}

/// The observers, one of them due again if it still has this sequence number.
pub open spec fn restored_rows(rows: Seq<Option<ObserveInterest>>, i: int, seq: u32) -> Seq<
    Option<ObserveInterest>,
> {
    if 0 <= i < rows.len() && rows[i].is_some() && rows[i]->0.seq == seq {
        rows.update(i, Some(ObserveInterest { pending: true, seq: prev_seq(seq), ..rows[i]->0 }))
    } else {
        rows
    }
}

/// What a round of notifications does: it goes through all observers, or up
/// to the first failure; that observer is then due again.
pub open spec fn round_done<T: DatagramIo>(
    a: Core<T>,
    b: Core<T>,
    resource: Option<usize>,
    r: ResponseView,
    now_ms: u64,
    res: Result<usize, Error<T::Error>>,
) -> bool {
    match res {
        Ok(n) => round_run::<T>(
            a,
            b,
            a.engine.store.observe.rows@.len(),
            resource,
            r,
            now_ms,
            n as nat,
        ),
        Err(e) => exists|c: Core<T>, d: Core<T>, i: nat, n: nat, m: nat|
            {
                &&& #[trigger] round_run::<T>(a, c, i, resource, r, now_ms, n)
                &&& #[trigger] round_step::<T>(
                    c,
                    d,
                    i as int,
                    resource,
                    r,
                    now_ms,
                    m,
                    Some(e),
                )
                &&& i < a.engine.store.observe.rows@.len()
                &&& due_again(
                    d,
                    b,
                    i as int,
                    next_seq(c.engine.store.observe.rows@[i as int]->0.seq),
                )
            },
    }
}

/// Nothing of this side's own calls and of what came in changes, and the record
/// of sends grows.
pub open spec fn broadcast<T>(a: Core<T>, b: Core<T>) -> bool {
    &&& calm(a.engine, b.engine)
    &&& b.engine.store.rx == a.engine.store.rx
    &&& b.engine.exchanges == a.engine.exchanges
    &&& b.engine.store.observe == a.engine.store.observe || subscribed_still(
        a.engine.store.observe.rows@,
        b.engine.store.observe.rows@,
    )
    &&& b.inbox == a.inbox
    &&& b.lives == a.lives
    &&& grown(a.port.log@, b.port.log@)
}

proof fn lemma_round_more<T: DatagramIo>(
    a: Core<T>,
    b: Core<T>,
    c: Core<T>,
    upto: nat,
    resource: Option<usize>,
    r: ResponseView,
    now_ms: u64,
    sent: nat,
    n: nat,
)
    requires
        round_run::<T>(a, b, upto, resource, r, now_ms, sent),
        round_step::<T>(b, c, upto as int, resource, r, now_ms, n, None),
    ensures
        round_run::<T>(a, c, upto + 1, resource, r, now_ms, sent + n),
{
    let more = upto + 1;
    assert((more - 1) as nat == upto);
    assert((sent + n - n) as nat == sent);
    assert(round_step::<T>(b, c, more - 1, resource, r, now_ms, n, None));
}

proof fn lemma_broadcast_step<T>(a: Core<T>, b: Core<T>, c: Core<T>, dest: Endpoint)
    requires
        broadcast(a, b),
        tended(b, c, dest),
    ensures
        broadcast(a, c),
{
    lemma_calm_trans(a.engine, b.engine, c.engine);
    lemma_sends_grown(b.port.log@, c.port.log@, dest);
    lemma_grown_trans(a.port.log@, b.port.log@, c.port.log@);
    super::reactor::lemma_watched_trans(a, b, c);
}

impl<T: DatagramIo> Core<T> {
    /// Notify one observer of a round, if it is one of the resource.
    fn notify_one(
        &mut self,
        at: usize,
        resource: Option<usize>,
        response: &Response<'_>,
        now_ms: u64,
    ) -> (r: Result<bool, Error<T::Error>>)
        requires
            old(self).wf(),
            at < old(self).engine.store.observe.rows@.len(),
            response@.fault.is_none(),
        ensures
            final(self).wf(),
            broadcast(*old(self), *final(self)),
            final(self).engine.store.observe.rows@.len() == old(
                self).engine.store.observe.rows@.len(),
            match r {
                Ok(sent) => round_step::<T>(
                    *old(self),
                    *final(self),
                    at as int,
                    resource,
                    response@,
                    now_ms,
                    if sent {
                        1
                    } else {
                        0
                    },
                    None,
                ),
                Err(e) => exists|d: Core<T>|
                    {
                        &&& #[trigger] round_step::<T>(
                            *old(self),
                            d,
                            at as int,
                            resource,
                            response@,
                            now_ms,
                            1,
                            Some(e),
                        )
                        &&& due_again(
                            d,
                            *final(self),
                            at as int,
                            next_seq(old(self).engine.store.observe.rows@[at as int]->0.seq),
                        )
                    },
            },
    {
        let ghost first = *self;
        proof {
            lemma_calm_same(first.engine, first.engine);
            lemma_grown_same(first.port.log@);
        }
        let id = SlotId { at };
        let row = match self.engine.observe_interest(id) {
            Some(row) => row,
            None => return Ok(false),
        };
        let mine: bool = match (row.resource, resource) {
            (Some(a), Some(b)) => a == b,
            _ => false,
        };
        if row.client || !mine {
            return Ok(false);
        }
        if self.engine.is_notify_blocked(row.peer, now_ms) {
            self.engine.metrics.nstart_reject = Metrics::inc(self.engine.metrics.nstart_reject);
            proof {
                lemma_calm_same(first.engine, self.engine);
                lemma_pins_stay(first.engine, self.engine);
            }
            return Ok(false);
        }
        let seq: u32 = match self.engine.next_observe_seq(id) {
            Some(seq) => seq,
            None => return Ok(false),
        };
        let ghost second = *self;
        proof {
            assert(subscribed_still(
                first.engine.store.observe.rows@,
                second.engine.store.observe.rows@,
            )) by {
                reveal(subscribed_still);
            }
            lemma_rows_tended(first, second, row.peer);
            lemma_pins_stay(first.engine, second.engine);
        }
        let row = match self.engine.observe_interest(id) {
            Some(row) => row,
            None => return Ok(false),
        };
        let r = self.send_notification(&row, response, seq, now_ms);
        let ghost third = *self;
        proof {
            lemma_tended_trans(first, second, third, row.peer);
            assert(row_set(first, second, at as int, row));
            assert(observer_notified(second, third, row, response@, seq, now_ms, r));
            lemma_broadcast_step(first, first, third, row.peer);
            assert(third.engine.store.observe.rows@.len() == first.engine.store.observe.rows@.len())
                by {
                reveal(calm);
            }
        }
        match r {
            Ok(()) => {
                let ghost next = ObserveInterest {
                    seq: next_seq(first.engine.store.observe.rows@[at as int]->0.seq),
                    ..first.engine.store.observe.rows@[at as int]->0
                };
                assert(next == row);
                assert(observer_notified(second, third, next, response@, next.seq, now_ms, r));
                assert(round_step::<T>(
                    first,
                    third,
                    at as int,
                    resource,
                    response@,
                    now_ms,
                    1,
                    None,
                ));
                Ok(true)
            },
            Err(e) => {
                self.engine.restore_observe_due(id, seq);
                proof {
                    assert(subscribed_still(
                        third.engine.store.observe.rows@,
                        self.engine.store.observe.rows@,
                    )) by {
                        reveal(subscribed_still);
                    }
                    lemma_rows_tended(third, *self, row.peer);
                    lemma_pins_stay(third.engine, self.engine);
                    lemma_broadcast_step(first, third, *self, row.peer);
                    assert(due_again(third, *self, at as int, seq));
                    assert(round_step::<T>(
                        first,
                        third,
                        at as int,
                        resource,
                        response@,
                        now_ms,
                        1,
                        Some(e),
                    ));
                }
                Err(e)
            },
        }
    }

    /// Send a representation to every observer of a resource whose peer may be
    /// sent one; tells how many were.
    pub fn notify_engine(&mut self, resource: Option<usize>, response: &Response<'_>, now_ms: u64) -> (r:
        Result<usize, Error<T::Error>>)
        requires
            old(self).wf(),
        ensures
            final(self).wf(),
            broadcast(*old(self), *final(self)),
            match response@.fault {
                Some(e) => r == Err::<usize, Error<T::Error>>(Error::Response(e)) && *final(self)
                    == *old(self),
                None => round_done(*old(self), *final(self), resource, response@, now_ms, r),
            },
    {
        let ghost first = *self;
        proof {
            lemma_calm_same(first.engine, first.engine);
            lemma_grown_same(first.port.log@);
        }
        match response.validate() {
            Ok(()) => {},
            Err(e) => return Err(Error::Response(e)),
        }
        let mut sent: usize = 0;
        let mut i: usize = 0;
        while i < self.engine.store.observe.rows.len()
            invariant
                self.wf(),
                first == *old(self),
                response@.fault.is_none(),
                broadcast(first, *self),
                self.engine.store.observe.rows@.len() == first.engine.store.observe.rows@.len(),
                i <= first.engine.store.observe.rows@.len(),
                sent <= i,
                round_run::<T>(
                    first,
                    *self,
                    i as nat,
                    resource,
                    response@,
                    now_ms,
                    sent as nat,
                ),
            decreases first.engine.store.observe.rows@.len() - i,
        {
            let ghost before = *self;
            let ghost done = sent as nat;
            let r = self.notify_one(i, resource, response, now_ms);
            proof {
                lemma_calm_trans(first.engine, before.engine, self.engine);
                lemma_grown_trans(first.port.log@, before.port.log@, self.port.log@);
                super::reactor::lemma_watched_trans(first, before, *self);
                assert(round_run::<T>(
                    first,
                    before,
                    i as nat,
                    resource,
                    response@,
                    now_ms,
                    done,
                ));
            }
            match r {
                Ok(one) => {
                    proof {
                        let n: nat = if one {
                            1
                        } else {
                            0
                        };
                        assert(round_step::<T>(
                            before,
                            *self,
                            i as int,
                            resource,
                            response@,
                            now_ms,
                            n,
                            None,
                        ));
                        lemma_round_more::<T>(
                            first,
                            before,
                            *self,
                            i as nat,
                            resource,
                            response@,
                            now_ms,
                            done,
                            n,
                        );
                    }
                    if one {
                        sent = sent + 1;
                    }
                },
                Err(e) => {
                    assert(round_done(first, *self, resource, response@, now_ms, Err(e)));
                    return Err(e);
                },
            }
            i = i + 1;
        }
        Ok(sent)
    }
}

impl<T: DatagramIo> Core<T> {
    /// Take up an observer that waits for a notification, if its peer may be
    /// sent one: its row with the next sequence number.
    pub fn claim_due(&mut self, id: SlotId, now_ms: u64) -> (r: Option<ObserveInterest>)
        requires
            old(self).wf(),
            id.at < old(self).engine.store.observe.rows@.len(),
        ensures
            final(self).wf(),
            broadcast(*old(self), *final(self)),
            final(self).port == old(self).port,
            ({
                let row = old(self).engine.store.observe.rows@[id.at as int];
                if notify_due(row, now_ms) && !notify_blocked(
                    old(self).engine,
                    row->0.peer,
                    now_ms,
                ) {
                    let next = ObserveInterest {
                        pending: false,
                        seq: next_seq(row->0.seq),
                        ..row->0
                    };
                    r == Some(next) && row_set(*old(self), *final(self), id.at as int, next)
                } else {
                    r.is_none() && *final(self) == *old(self)
                }
            }),
    {
        let ghost first = *self;
        proof {
            lemma_calm_same(first.engine, first.engine);
            lemma_grown_same(first.port.log@);
        }
        let peer = match self.engine.observe_interest(id) {
            Some(row) => row.peer,
            None => return None,
        };
        if self.engine.is_notify_blocked(peer, now_ms) {
            return None;
        }
        let claimed = self.engine.claim_observe_notification(id, now_ms);
        proof {
            assert(subscribed_still(
                first.engine.store.observe.rows@,
                self.engine.store.observe.rows@,
            )) by {
                reveal(subscribed_still);
            }
            lemma_rows_tended(first, *self, peer);
            lemma_pins_stay(first.engine, self.engine);
            lemma_broadcast_step(first, first, *self, peer);
        }
        match claimed {
            Some(_) => self.engine.observe_interest(id),
            None => None,
        }
    }

    /// Notify an observer that was taken up. When that fails, or when there is
    /// no representation, it is due again.
    pub fn deliver_due(
        &mut self,
        id: SlotId,
        interest: &ObserveInterest,
        response: Option<&Response<'_>>,
        now_ms: u64,
    ) -> (r: Result<(), Error<T::Error>>)
        requires
            old(self).wf(),
            !interest.client,
        ensures
            final(self).wf(),
            tended(*old(self), *final(self), interest.peer),
            match response {
                None => r.is_ok() && due_again(
                    *old(self),
                    *final(self),
                    id.at as int,
                    interest.seq,
                ),
                Some(response) => if r.is_ok() {
                    observer_notified(
                        *old(self),
                        *final(self),
                        *interest,
                        response@,
                        interest.seq,
                        now_ms,
                        r,
                    )
                } else {
                    exists|c: Core<T>|
                        #[trigger] observer_notified(
                            *old(self),
                            c,
                            *interest,
                            response@,
                            interest.seq,
                            now_ms,
                            r,
                        ) && due_again(c, *final(self), id.at as int, interest.seq)
                },
            },
    {
        let ghost first = *self;
        let r = match response {
            Some(response) => self.send_notification(interest, response, interest.seq, now_ms),
            None => Ok(()),
        };
        let ghost second = *self;
        if response.is_none() || r.is_err() {
            proof {
                if response.is_none() {
                    lemma_served_same(first, second, interest.peer);
                } else {
                    assert(observer_notified(
                        first,
                        second,
                        *interest,
                        response->0@,
                        interest.seq,
                        now_ms,
                        r,
                    ));
                }
            }
            self.engine.restore_observe_due(id, interest.seq);
            proof {
                assert(subscribed_still(
                    second.engine.store.observe.rows@,
                    self.engine.store.observe.rows@,
                )) by {
                    reveal(subscribed_still);
                }
                lemma_rows_tended(second, *self, interest.peer);
                lemma_pins_stay(second.engine, self.engine);
                lemma_tended_trans(first, second, *self, interest.peer);
                assert(due_again(second, *self, id.at as int, interest.seq));
            }
        }
        r
    }
}

/// What a request means for observations.
#[derive(Clone, Copy, Debug)]
pub struct ObservePlan {
    /// It asks to be notified.
    pub register: bool,
    /// It asks not to be.
    pub deregister: bool,
    /// It deletes the resource.
    pub delete: bool,
    /// The route gives notifications of its own.
    pub has_source: bool,
    /// Its token.
    pub token: Token,
    /// The route that it names.
    pub resource: Option<usize>,
}

impl ObservePlan {
    /// Nothing.
    pub fn idle() -> (p: ObservePlan)
        ensures
            !p.register && !p.deregister && !p.delete && !p.has_source && p.resource.is_none(),
    {
        ObservePlan {
            register: false,
            deregister: false,
            delete: false,
            has_source: false,
            token: Token::empty(),
            resource: None,
        }
    }

    /// The observation that the request asks for.
    pub open spec fn key(&self, peer: Endpoint) -> KeyView {
        KeyView::Token { token: self.token@, peer, client: false }
    }
}

/// The observers once a request's own observation is out of the way.
pub open spec fn rows_without(
    rows: Seq<Option<ObserveInterest>>,
    plan: ObservePlan,
    peer: Endpoint,
) -> Seq<Option<ObserveInterest>> {
    if plan.register || plan.deregister {
        match find_row(rows, plan.key(peer)) {
            Some(i) => rows.update(i, None),
            None => rows,
        }
    } else {
        rows
    }
}

/// Where a request's observation goes, if it begins: it is asked for, the
/// answer is a success that allows it, and there is room.
pub open spec fn registers_at(
    rows: Seq<Option<ObserveInterest>>,
    plan: ObservePlan,
    peer: Endpoint,
    r: ResponseView,
) -> Option<int> {
    if plan.register && r.code.spec_is_success() && (r.observe.is_some() || plan.has_source) {
        place_row(rows_without(rows, plan, peer), plan.key(peer))
    } else {
        None
    }
}

/// The row of an observation that begins.
pub open spec fn registration(
    plan: ObservePlan,
    peer: Endpoint,
    r: ResponseView,
    now_ms: u64,
) -> ObserveInterest {
    ObserveInterest {
        token: plan.token,
        peer,
        client: false,
        resource: plan.resource,
        content_format: r.format,
        seq: 0,
        pending: false,
        deleted: false,
        lifetime: Some(
            ObserveLifetime {
                due_ms: later(
                    now_ms,
                    (match r.max_age {
                        Some(s) => s,
                        None => DEFAULT_MAX_AGE_SECS,
                    }) * 1000,
                ),
            },
        ),
        hold: None,
        notify_mid: None,
        confirmed_ms: None,
    }
}

/// The counters after observations began and ended with a request.
pub open spec fn observe_counted(
    m: Metrics,
    rows: Seq<Option<ObserveInterest>>,
    plan: ObservePlan,
    peer: Endpoint,
    r: ResponseView,
) -> Metrics {
    let ended = if (plan.register || plan.deregister) && find_row(
        rows,
        plan.key(peer),
    ).is_some() {
        Metrics { observe_cancel: inc(m.observe_cancel), ..m }
    } else {
        m
    };
    if registers_at(rows, plan, peer, r).is_some() {
        Metrics { observe_register: inc(ended.observe_register), ..ended }
    } else {
        ended
    }
}

/// The observers after a request was answered.
pub open spec fn rows_after(
    rows: Seq<Option<ObserveInterest>>,
    plan: ObservePlan,
    peer: Endpoint,
    r: ResponseView,
    now_ms: u64,
) -> Seq<Option<ObserveInterest>> {
    let base = rows_without(rows, plan, peer);
    let then = match registers_at(rows, plan, peer, r) {
        Some(i) => base.update(i, Some(registration(plan, peer, r, now_ms))),
        None => base,
    };
    if plan.delete && r.code.spec_is_success() {
        Seq::new(then.len(), |i: int| signalled(then[i], plan.resource, true))
    } else {
        then
    }
}

impl<T: DatagramIo> Core<T> {
    /// Begin and end observations as a request and its answer demand; gives
    /// the answer, with sequence number zero when an observation began.
    pub fn apply_observe<'a>(
        &mut self,
        peer: Endpoint,
        response: Response<'a>,
        plan: ObservePlan,
        now_ms: u64,
    ) -> (out: Response<'a>)
        requires
            old(self).wf(),
        ensures
            final(self).wf(),
            tended(*old(self), *final(self), peer),
            observers_set(
                *old(self),
                *final(self),
                rows_after(
                    old(self).engine.store.observe.rows@,
                    plan,
                    peer,
                    response@,
                    now_ms,
                ),
                observe_counted(
                    old(self).engine.metrics,
                    old(self).engine.store.observe.rows@,
                    plan,
                    peer,
                    response@,
                ),
            ),
            out@ == (ResponseView {
                observe: if registers_at(
                    old(self).engine.store.observe.rows@,
                    plan,
                    peer,
                    response@,
                ).is_some() {
                    Some(0)
                } else {
                    None
                },
                ..response@
            }),
    {
        let ghost first = *self;
        let ghost rows = first.engine.store.observe.rows@;
        let key = ObserveKey::new(plan.token, peer);
        let opted: bool = response.observe_seq().is_some() || plan.has_source;
        let success: bool = response.code().is_success();
        let ghost asked = response@;
        let mut response = response.without_observe();
        if plan.deregister || plan.register {
            let _ = self.engine.take_observe(key);
        }
        let ghost second = *self;
        proof {
            lemma_find_row(rows, plan.key(peer));
            assert(second.engine.store.observe.rows@ == rows_without(rows, plan, peer));
            assert(subscribed_still(
                first.engine.store.observe.rows@,
                second.engine.store.observe.rows@,
            )) by {
                reveal(subscribed_still);
            }
            lemma_rows_tended(first, second, peer);
            lemma_pins_stay(first.engine, second.engine);
            lemma_find_row(second.engine.store.observe.rows@, plan.key(peer));
            lemma_free_row(second.engine.store.observe.rows@);
        }
        if plan.register && success && opted {
            let interest = ObserveInterest::new(key).with_resource(
                plan.resource,
            ).with_content_format(response.format());
            if self.engine.insert_observe(interest) {
                let max_age: u32 = match response.max_age_secs() {
                    Some(secs) => secs,
                    None => DEFAULT_MAX_AGE_SECS,
                };
                proof {
                    let i = place_row(second.engine.store.observe.rows@, plan.key(peer))->0;
                    lemma_find_unique(self.engine.store.observe.rows@, i);
                }
                self.engine.refresh_observe_max_age(key, now_ms, max_age);
                response = response.observe(0);
            }
        }
        let ghost third = *self;
        proof {
            assert(subscribed_still(
                second.engine.store.observe.rows@,
                third.engine.store.observe.rows@,
            )) by {
                reveal(subscribed_still);
            }
            lemma_rows_tended(second, third, peer);
            lemma_pins_stay(second.engine, third.engine);
            lemma_tended_trans(first, second, third, peer);
            assert(third.engine.store.observe.rows@ =~= match registers_at(
                rows,
                plan,
                peer,
                asked,
            ) {
                Some(i) => rows_without(rows, plan, peer).update(
                    i,
                    Some(registration(plan, peer, asked, now_ms)),
                ),
                None => rows_without(rows, plan, peer),
            });
        }
        if plan.delete && success {
            let _ = self.engine.mark_observe_resource_deleted(plan.resource);
            proof {
                assert(subscribed_still(
                    third.engine.store.observe.rows@,
                    self.engine.store.observe.rows@,
                )) by {
                    reveal(subscribed_still);
                }
                lemma_rows_tended(third, *self, peer);
                lemma_pins_stay(third.engine, self.engine);
                lemma_tended_trans(first, third, *self, peer);
            }
        }
        assert(self.engine.store.observe.rows@ =~= rows_after(rows, plan, peer, asked, now_ms));
        response
    }
}

} // verus!
