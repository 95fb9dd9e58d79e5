//! The order of a reactor turn.
use vstd::prelude::*;

use super::calls::{Call, CallFailure};
use super::dedup::{dedup_frame, expire_request_dedup, live_kept, pin_ok, pins_ok, unexpired};
use super::echo::{policy_total, EchoPolicy};
use super::ending::{all_failed, call_failed, first_sent_from, overdue_calls, sent_from};
use super::error::Error;
use super::notify::{due_again, observer_notified, row_set};
use super::owned::{
    carried, lemma_observers_owned, lemma_same_owned, lemma_tended_owned, subscribed_still,
};
use super::reactor::{
    calm, grown, handed, lemma_calm_dedup, lemma_calm_same, lemma_calm_settled, lemma_calm_trans,
    lemma_grown_same, lemma_grown_trans, lemma_pins_stay, lemma_sends_grown, same_shape, Core,
};
use super::response::{bare_response, Response, ResponseView};
use super::routing::ObserveSource;
use super::site::Site;
use super::turn::{recovered, rx_dispatched};
use crate::message::{Code, Transmission};
use crate::storage::blocks::rx_bodies_changed;
use crate::storage::body::{recovers, QBlockRecover};
use crate::storage::endpoint::{BlockKey, SlotId};
use crate::storage::engine::{
    first_due, lemma_first_due, resent, sendable, sent_metrics, Engine, Store,
};
use crate::storage::io::{receives, Attempt, DatagramIo, DatagramIoError};
use crate::storage::metrics::{inc, Metrics};
use crate::storage::observe::{
    first_notify_due, next_seq, notify_blocked, notify_due, observer_rejected,
};
use crate::storage::pool::DatagramPool;
use crate::storage::rows::{ExchangeEntry, ObserveInterest, Retransmit};
use crate::storage::table::free_row;
use crate::storage::transfer::BlockRole;

verus! {

/// What a step of a turn leaves in order: sizes, slots and the record of
/// sends, which only grows.
pub open spec fn turned<T>(a: Core<T>, b: Core<T>) -> bool {
    &&& calm(a.engine, b.engine)
    &&& grown(a.port.log@, b.port.log@)
}

proof fn lemma_turned_trans<T>(a: Core<T>, b: Core<T>, c: Core<T>)
    requires
        turned(a, b),
        turned(b, c),
    ensures
        turned(a, c),
{
    lemma_calm_trans(a.engine, b.engine, c.engine);
    lemma_grown_trans(a.port.log@, b.port.log@, c.port.log@);
}

proof fn lemma_turned_same<T>(a: Core<T>, b: Core<T>)
    requires
        same_shape(a.engine, b.engine),
        b.engine.store.tx.slots@ == a.engine.store.tx.slots@,
        b.engine.pending@ == a.engine.pending@,
        b.engine.store.dedup.rows@ == a.engine.store.dedup.rows@,
        b.port.log@ == a.port.log@,
    ensures
        turned(a, b),
{
    lemma_calm_same(a.engine, b.engine);
    lemma_grown_same(a.port.log@);
}

/// Kept answers whose time has come are forgotten; everything else stays.
pub open spec fn answers_expired<T>(a: Core<T>, b: Core<T>, now_ms: u64) -> bool {
    &&& b == (Core { engine: b.engine, closed: b.closed, ..a })
    &&& dedup_frame(a.engine, b.engine)
    &&& forall|i: int|
        0 <= i < a.engine.store.dedup.rows@.len() ==> #[trigger] b.engine.store.dedup.rows@[i]
            == unexpired(a.engine.store.dedup.rows@[i], now_ms)
    &&& live_kept(a.engine, b.engine, now_ms)
    &&& b.closed == match a.closed {
        Some(c) => if c.expired(now_ms) {
            None
        } else {
            Some(c)
        },
        None => None,
    }
}

/// Everything whose time has come is over: kept answers, then calls.
pub open spec fn all_expired<T>(a: Core<T>, b: Core<T>, now_ms: u64) -> bool {
    exists|c: Core<T>|
        #[trigger] answers_expired(a, c, now_ms) && all_failed(
            c,
            b,
            overdue_calls(c, c.lives.rows.rows@, now_ms),
        )
}

/// A message waits no more, and that is counted; its slot is still taken.
pub open spec fn no_longer_waits<T>(a: Core<T>, b: Core<T>, at: int) -> bool {
    &&& b == (Core { engine: b.engine, ..a })
    &&& b.engine == (Engine {
        pending: b.engine.pending,
        metrics: Metrics { give_up: inc(a.engine.metrics.give_up), ..a.engine.metrics },
        ..a.engine
    })
    &&& b.engine.pending@ == a.engine.pending@.update(at, None)
}

/// The call of a message that was given up ends, if there is one.
pub open spec fn request_given_up<T>(a: Core<T>, b: Core<T>, tx: SlotId) -> bool {
    if exists|k: int|
        0 <= k < a.engine.exchanges.rows@.len() && sent_from(
            #[trigger] a.engine.exchanges.rows@[k],
            tx,
        ) {
        exists|x: ExchangeEntry|
            #[trigger] first_sent_from(a.engine, tx, x) && call_failed(
                a,
                b,
                Call { token: x.token, peer: x.peer },
                CallFailure::TimedOut,
                false,
            )
    } else {
        b == a
    }
}

/// An outgoing slot is freed; everything else stays.
pub open spec fn tx_freed<T>(a: Core<T>, b: Core<T>, at: int) -> bool {
    &&& b == (Core { engine: b.engine, ..a })
    &&& b.engine == (Engine {
        store: Store { tx: b.engine.store.tx, ..a.engine.store },
        pending: b.engine.pending,
        ..a.engine
    })
    &&& b.engine.pending@ == a.engine.pending@
    &&& b.engine.store.tx.slots@ == a.engine.store.tx.slots@.update(at, None)
    &&& b.engine.store.tx.slot_bytes == a.engine.store.tx.slot_bytes
}

/// What the next message that waits too long for its acknowledgement leads to:
/// it is sent again; or, sent often enough, it is given up, and with it the
/// call or the observation that it was for.
pub open spec fn retransmitted<T: DatagramIo>(
    a: Core<T>,
    b: Core<T>,
    now_ms: u64,
    r: Result<(), Error<T::Error>>,
) -> bool {
    match first_due(a.engine.pending@, now_ms) {
        None => r.is_ok() && b == a,
        Some(i) => {
            let p = a.engine.pending@[i]->0;
            if p.retries < Transmission::MAX_RETRANSMIT {
                let counted = Metrics {
                    con_retransmit: inc(a.engine.metrics.con_retransmit),
                    ..a.engine.metrics
                };
                &&& b == (Core { engine: b.engine, port: b.port, ..a })
                &&& b.engine == (Engine {
                    pending: b.engine.pending,
                    metrics: b.engine.metrics,
                    ..a.engine
                })
                &&& b.engine.pending@ == a.engine.pending@.update(i, Some(resent(p, now_ms)))
                &&& match sendable(a.engine, p.tx) {
                    Some((dest, bytes)) => {
                        &&& b.port.log@ == a.port.log@.push(
                            Attempt { dest, bytes, ok: r.is_ok() },
                        )
                        &&& b.engine.metrics == sent_metrics(counted, r.is_ok())
                        &&& handed(a.port.io, dest, bytes, r)
                    },
                    None => {
                        &&& r == Err::<(), Error<T::Error>>(Error::Io(DatagramIoError::NoEndpoint))
                        &&& b.port == a.port
                        &&& b.engine.metrics == counted
                    },
                }
            } else {
                &&& r.is_ok()
                &&& exists|c: Core<T>, d: Core<T>, e: Core<T>|
                    {
                        &&& #[trigger] no_longer_waits(a, c, i)
                        &&& #[trigger] request_given_up(c, d, p.tx)
                        &&& #[trigger] tx_freed(e, b, i)
                        &&& e == (Core { engine: e.engine, ..d })
                        &&& observer_rejected(d.engine, e.engine, p.mid, p.peer)
                    }
            }
        },
    }
}

/// May an observer be told this: that the resource is gone, or what the source
/// gives?
pub open spec fn source_says<const N: usize>(
    site: Site<N>,
    interest: ObserveInterest,
    r: Option<ResponseView>,
) -> bool {
    if interest.deleted {
        r == Some(bare_response(Code::NOT_FOUND))
    } else {
        match site.source_of(interest.resource) {
            None => r.is_none(),
            Some(s) => exists|x: Response<'static>| #[trigger] s.gives(x) && r == Some(x@),
        }
    }
}

/// What notifying an observer that was taken up does.
pub open spec fn due_delivered<T: DatagramIo>(
    a: Core<T>,
    b: Core<T>,
    id: SlotId,
    interest: ObserveInterest,
    response: Option<ResponseView>,
    now_ms: u64,
    r: Result<(), Error<T::Error>>,
) -> bool {
    match response {
        None => r.is_ok() && due_again(a, b, id.at as int, interest.seq),
        Some(x) => if r.is_ok() {
            observer_notified(a, b, interest, x, interest.seq, now_ms, r)
        } else {
            exists|c: Core<T>|
                #[trigger] observer_notified(a, c, interest, x, interest.seq, now_ms, r)
                    && due_again(c, b, id.at as int, interest.seq)
        },
    }
}

/// What the observer that was due at the start of the turn leads to: if it
/// still is, and its peer may be sent something, it is notified.
pub open spec fn due_notified<T: DatagramIo, const N: usize>(
    a: Core<T>,
    b: Core<T>,
    site: Site<N>,
    due: Option<SlotId>,
    now_ms: u64,
    r: Result<(), Error<T::Error>>,
) -> bool {
    match due {
        None => r.is_ok() && b == a,
        Some(id) => {
            let row = a.engine.store.observe.rows@[id.at as int];
            if notify_due(row, now_ms) && !notify_blocked(a.engine, row->0.peer, now_ms) {
                let next = ObserveInterest { pending: false, seq: next_seq(row->0.seq), ..row->0 };
                exists|c: Core<T>, response: Option<ResponseView>|
                    {
                        &&& row_set(a, c, id.at as int, next)
                        &&& source_says(site, next, response)
                        &&& #[trigger] due_delivered(c, b, id, next, response, now_ms, r)
                    }
            } else {
                r.is_ok() && b == a
            }
        },
    }
}

/// What the recovery of windowed bodies does in a turn: one of them is asked
/// for again, or given up.
pub open spec fn bodies_recovered<T: DatagramIo>(
    a: Core<T>,
    b: Core<T>,
    now_ms: u64,
    r: Result<(), Error<T::Error>>,
) -> bool {
    exists|c: Core<T>, ask: Option<QBlockRecover>, gone: Option<(BlockRole, BlockKey)>|
        {
            &&& c == (Core { engine: c.engine, ..a })
            &&& #[trigger] recovery_due(a.engine, c.engine, now_ms, ask, gone)
            &&& match ask {
                Some(q) => recovered(c, b, q, now_ms, r),
                None => r.is_ok() && match gone {
                    Some(k) => if k.0 == BlockRole::IncomingQBlock2 && c.lives.row(
                        Call { token: k.1.token, peer: k.1.peer },
                    ).is_some() {
                        call_failed(
                            c,
                            b,
                            Call { token: k.1.token, peer: k.1.peer },
                            CallFailure::TimedOut,
                            true,
                        )
                    } else {
                        b == c
                    },
                    None => b == c,
                },
            }
        }
}

/// Which body is asked for again, or given up; nothing else changed.
pub open spec fn recovery_due(
    a: Engine,
    b: Engine,
    now_ms: u64,
    ask: Option<QBlockRecover>,
    gone: Option<(BlockRole, BlockKey)>,
) -> bool {
    &&& rx_bodies_changed(a, b)
    &&& b.metrics == a.metrics
    &&& match a.store.bodies {
        None => ask.is_none() && gone.is_none(),
        Some(p) => recovers(p.rx.slots@, b.store.bodies->0.rx.slots@, now_ms, ask, gone),
    }
}

impl<T: DatagramIo> Core<T> {
    /// Let everything end whose time has come.
    fn expire_all(&mut self, now_ms: u64)
        requires
            old(self).wf(),
        ensures
            final(self).wf(),
            carried(*old(self), *final(self)),
            turned(*old(self), *final(self)),
            final(self).port == old(self).port,
            final(self).engine.store.rx == old(self).engine.store.rx,
            all_expired(*old(self), *final(self), now_ms),
    {
        let ghost first = *self;
        expire_request_dedup(&mut self.engine, &mut self.closed, now_ms);
        let ghost second = *self;
        proof {
            lemma_calm_dedup(first.engine, second.engine);
            lemma_same_owned(first, second);
            lemma_grown_same(first.port.log@);
            assert(answers_expired(first, second, now_ms));
        }
        self.expire_client_exchanges(now_ms);
        proof {
            lemma_turned_trans(first, second, *self);
        }
    }

    /// Send again, or give up, the next message that waits too long for its
    /// acknowledgement.
    fn retransmit(&mut self, now_ms: u64) -> (r: Result<(), Error<T::Error>>)
        requires
            old(self).wf(),
        ensures
            final(self).wf(),
            carried(*old(self), *final(self)),
            turned(*old(self), *final(self)),
            final(self).engine.store.rx == old(self).engine.store.rx,
            retransmitted(*old(self), *final(self), now_ms, r),
    {
        let ghost first = *self;
        proof {
            lemma_turned_same(first, first);
            lemma_first_due(first.engine.pending@, now_ms);
        }
        match self.engine.poll_retransmit(now_ms) {
            None => Ok(()),
            Some(Retransmit::Due(p)) => {
                let ghost second = *self;
                let sent = self.engine.send_tx(&mut self.port, p.tx);
                proof {
                    lemma_resent_turned(first, *self, p.tx.at as int);
                    lemma_same_owned(first, *self);
                    lemma_pins_stay(first.engine, self.engine);
                }
                match sent {
                    Ok(()) => Ok(()),
                    Err(e) => Err(Error::from_io(e)),
                }
            },
            Some(Retransmit::GiveUp(p)) => {
                let ghost second = *self;
                let ghost at = p.tx.at as int;
                proof {
                    assert(pins_ok(second.engine)) by {
                        reveal(pins_ok);
                        assert forall|k: int|
                            0 <= k < second.engine.store.dedup.rows@.len() implies pin_ok(
                            second.engine,
                            #[trigger] second.engine.store.dedup.rows@[k],
                        ) by {
                            assert(pin_ok(first.engine, first.engine.store.dedup.rows@[k]));
                        }
                    }
                }
                self.give_up_client(p.tx);
                let ghost third = *self;
                let _ = self.engine.reject_observe_notify(p.mid, p.peer);
                let ghost fourth = *self;
                let _ = self.engine.release_tx(p.tx);
                proof {
                    assert(no_longer_waits(first, second, at));
                    lemma_same_owned(first, second);
                    assert(subscribed_still(
                        third.engine.store.observe.rows@,
                        fourth.engine.store.observe.rows@,
                    )) by {
                        reveal(subscribed_still);
                    }
                    lemma_observers_owned(third, fourth);
                    lemma_same_owned(fourth, *self);
                    assert(request_given_up(second, third, p.tx));
                    assert(self.engine.pending@ =~= fourth.engine.pending@);
                    assert(tx_freed(fourth, *self, at));
                    assert(same_shape(first.engine, third.engine)) by {
                        reveal(calm);
                    }
                    assert(third.engine.store.dedup.rows@ == first.engine.store.dedup.rows@);
                    assert(self.engine.pending@ =~= first.engine.pending@.update(at, None));
                    lemma_calm_settled(first.engine, self.engine, at);
                    lemma_pins_stay(first.engine, self.engine);
                    lemma_grown_same(first.port.log@);
                }
                Ok(())
            },
        }
    }
}

proof fn lemma_resent_turned<T>(a: Core<T>, b: Core<T>, at: int)
    requires
        a.wf(),
        0 <= at < a.engine.pending@.len(),
        a.engine.pending@[at].is_some(),
        b.engine.pending@ == a.engine.pending@.update(at, b.engine.pending@[at]),
        b.engine.pending@[at].is_some(),
        b.engine.store == a.engine.store,
        grown(a.port.log@, b.port.log@) || b.port.log@ == a.port.log@ || exists|x: Attempt|
            b.port.log@ == #[trigger] a.port.log@.push(x),
    ensures
        turned(a, b),
{
    reveal(calm);
    reveal(super::dedup::leak_free);
    reveal(pins_ok);
    reveal(grown);
    assert(same_shape(a.engine, b.engine));
    assert forall|i: int| #[trigger] b.engine.unowned(i) implies a.engine.unowned(i) by {
        if a.engine.pinned_reply(i) {
            let k = choose|k: int|
                0 <= k < a.engine.store.dedup.rows@.len() && crate::storage::engine::pins(
                    #[trigger] a.engine.store.dedup.rows@[k],
                    i,
                );
            assert(crate::storage::engine::pins(b.engine.store.dedup.rows@[k], i));
        }
    }
    assert forall|k: int| 0 <= k < b.engine.store.dedup.rows@.len() implies pin_ok(
        b.engine,
        #[trigger] b.engine.store.dedup.rows@[k],
    ) by {
        assert(pin_ok(a.engine, a.engine.store.dedup.rows@[k]));
    }
    assert(b.port.log@.subrange(0, a.port.log@.len() as int) =~= a.port.log@);
}

/// What the end of a turn does: the observer that was due, then the recovery of
/// bodies. That there was no room for a datagram is told last.
pub open spec fn turn_ended<T: DatagramIo, const N: usize>(
    a: Core<T>,
    b: Core<T>,
    site: Site<N>,
    due: Option<SlotId>,
    full: bool,
    now_ms: u64,
    r: Result<(), Error<T::Error>>,
) -> bool {
    exists|c: Core<T>, told: Result<(), Error<T::Error>>|
        {
            &&& #[trigger] due_notified(a, c, site, due, now_ms, told)
            &&& if told.is_err() {
                r == told && b == c
            } else {
                exists|got: Result<(), Error<T::Error>>|
                    {
                        &&& #[trigger] bodies_recovered(c, b, now_ms, got)
                        &&& if got.is_err() {
                            r == got
                        } else if full {
                            r == Err::<(), Error<T::Error>>(Error::Saturated)
                        } else {
                            r.is_ok()
                        }
                    }
            }
        }
}

/// What the middle of a turn does: the datagram that is ready, then the end.
pub open spec fn turn_served<T: DatagramIo, const N: usize>(
    a: Core<T>,
    b: Core<T>,
    site: Site<N>,
    policy: Option<Box<dyn EchoPolicy>>,
    ready: Option<SlotId>,
    due: Option<SlotId>,
    full: bool,
    now_ms: u64,
    r: Result<(), Error<T::Error>>,
) -> bool {
    match ready {
        None => turn_ended(a, b, site, due, full, now_ms, r),
        Some(rx) => exists|c: Core<T>, handled: Result<(), Error<T::Error>>|
            {
                &&& #[trigger] rx_dispatched(a, c, site, policy, rx, now_ms, handled)
                &&& if handled.is_err() {
                    r == handled && b == c
                } else {
                    turn_ended(c, b, site, due, full, now_ms, r)
                }
            },
    }
}

/// The transport was asked for a datagram, and what it gave is in the first free
/// slot; or there was none, or the transport failed. With no free slot it is not
/// asked.
pub open spec fn datagram_received<T: DatagramIo>(
    a: Core<T>,
    b: Core<T>,
    got: Result<Option<SlotId>, DatagramIoError<T::Error>>,
) -> bool {
    &&& b.port.log@ == a.port.log@
    &&& b == (Core { engine: b.engine, port: b.port, ..a })
    &&& match free_row(a.engine.store.rx.slots@) {
        None => {
            &&& got == Err::<Option<SlotId>, DatagramIoError<T::Error>>(DatagramIoError::Saturated)
            &&& b.port == a.port
            &&& b.engine == (Engine {
                metrics: Metrics { saturated: inc(a.engine.metrics.saturated), ..a.engine.metrics },
                ..a.engine
            })
        },
        Some(i) => {
            let slot = b.engine.store.rx.slots@[i]->0;
            &&& receives(
                a.port.io,
                a.engine.store.rx.slot_bytes as nat,
                match got {
                    Ok(Some(_)) => Ok(Some((slot.bytes@, slot.peer->0))),
                    Ok(None) => Ok(None),
                    Err(e) => Err(e),
                },
            )
            &&& match got {
                Ok(Some(id)) => {
                    &&& id.at == i
                    &&& b.engine.store.rx.occupied(id)
                    &&& slot.peer.is_some()
                    &&& !slot.pinned
                    &&& b.engine.store.rx.slots@ == a.engine.store.rx.slots@.update(
                        i,
                        b.engine.store.rx.slots@[i],
                    )
                    &&& b.engine.store.rx.slot_bytes == a.engine.store.rx.slot_bytes
                    &&& b.engine == (Engine {
                        store: Store { rx: b.engine.store.rx, ..a.engine.store },
                        metrics: Metrics {
                            rx_accepted: inc(a.engine.metrics.rx_accepted),
                            ..a.engine.metrics
                        },
                        ..a.engine
                    })
                },
                Ok(None) => b.engine == a.engine,
                Err(e) => b.engine == a.engine && !(e is Saturated),
            }
        },
    }
}

/// The turn is counted.
pub open spec fn turn_counted<T>(a: Core<T>, b: Core<T>) -> bool {
    b == (Core {
        engine: Engine {
            metrics: Metrics { progress: inc(a.engine.metrics.progress), ..a.engine.metrics },
            ..a.engine
        },
        ..a
    })
}

/// The datagram that a turn takes up, if any, and the observer that is due.
pub open spec fn work_ready<T>(
    c: Core<T>,
    now_ms: u64,
    ready: Option<SlotId>,
    due: Option<SlotId>,
) -> bool {
    &&& match ready {
        Some(id) => DatagramPool::ready_slot(c.engine.store.rx.slots@) == Some(id.at as int),
        None => DatagramPool::ready_slot(c.engine.store.rx.slots@).is_none(),
    }
    &&& match due {
        Some(id) => first_notify_due(c.engine.store.observe.rows@, now_ms) == Some(id.at as int),
        None => first_notify_due(c.engine.store.observe.rows@, now_ms).is_none(),
    }
}

/// What a turn does once a datagram was received, or there was none.
pub open spec fn turn_run<T: DatagramIo, const N: usize>(
    a: Core<T>,
    b: Core<T>,
    site: Site<N>,
    policy: Option<Box<dyn EchoPolicy>>,
    full: bool,
    now_ms: u64,
    r: Result<(), Error<T::Error>>,
) -> bool {
    exists|c: Core<T>, sent: Result<(), Error<T::Error>>, ready: Option<SlotId>, due: Option<SlotId>|
        {
            &&& #[trigger] work_ready(a, now_ms, ready, due)
            &&& #[trigger] retransmitted(a, c, now_ms, sent)
            &&& if sent.is_err() {
                r == sent && b == c
            } else {
                turn_served(c, b, site, policy, ready, due, full, now_ms, r)
            }
        }
}

/// What a turn does: what is over ends; a datagram is received; then the next
/// retransmission, the datagram, the observer that is due and the recovery of
/// bodies, in this order. A failure ends the turn; a full pool does not.
pub open spec fn polled<T: DatagramIo, const N: usize>(
    a: Core<T>,
    b: Core<T>,
    site: Site<N>,
    policy: Option<Box<dyn EchoPolicy>>,
    now_ms: u64,
    r: Result<(), Error<T::Error>>,
) -> bool {
    exists|c: Core<T>, d: Core<T>, got: Result<Option<SlotId>, DatagramIoError<T::Error>>|
        {
            &&& #[trigger] all_expired(a, c, now_ms)
            &&& #[trigger] datagram_received(c, d, got)
            &&& match got {
                Err(e) => if e is Saturated {
                    exists|f: Core<T>|
                        #[trigger] turn_counted(d, f) && turn_run(
                            f,
                            b,
                            site,
                            policy,
                            true,
                            now_ms,
                            r,
                        )
                } else {
                    r == Err::<(), Error<T::Error>>(Error::Io(e)) && b == d
                },
                Ok(_) => exists|f: Core<T>|
                    #[trigger] turn_counted(d, f) && turn_run(
                        f,
                        b,
                        site,
                        policy,
                        false,
                        now_ms,
                        r,
                    ),
            }
        }
}

impl<T: DatagramIo> Core<T> {
    /// Notify the observer that was due.
    fn notify_due_one<const N: usize>(
        &mut self,
        site: &Site<N>,
        due: Option<SlotId>,
        now_ms: u64,
    ) -> (r: Result<(), Error<T::Error>>)
        requires
            old(self).wf(),
            site.wf(),
            due matches Some(id) ==> id.at < old(self).engine.store.observe.rows@.len(),
        ensures
            final(self).wf(),
            carried(*old(self), *final(self)),
            turned(*old(self), *final(self)),
            final(self).engine.store.rx == old(self).engine.store.rx,
            due_notified(*old(self), *final(self), *site, due, now_ms, r),
    {
        let ghost first = *self;
        proof {
            lemma_turned_same(first, first);
        }
        let id = match due {
            Some(id) => id,
            None => return Ok(()),
        };
        let interest = match self.claim_due(id, now_ms) {
            Some(interest) => interest,
            None => return Ok(()),
        };
        let ghost second = *self;
        proof {
            lemma_turned_same(first, second);
            assert(subscribed_still(
                first.engine.store.observe.rows@,
                second.engine.store.observe.rows@,
            )) by {
                reveal(subscribed_still);
            }
            lemma_observers_owned(first, second);
        }
        let response: Option<Response<'static>> = if interest.deleted {
            Some(Response::not_found())
        } else {
            match site.observe_source(interest.resource) {
                Some(source) => {
                    proof {
                        let i = interest.resource->0 as int;
                        assert(site.entries@[i].methods.wf());
                    }
                    let x = source.snapshot();
                    assert(site.source_of(interest.resource)->0.gives(x));
                    Some(x)
                },
                None => None,
            }
        };
        let ghost says: Option<ResponseView> = if response.is_some() {
            Some(response->0@)
        } else {
            None
        };
        assert(source_says(*site, interest, says));
        let r = self.deliver_due(
            id,
            &interest,
            match &response {
                Some(x) => Some(x),
                None => None,
            },
            now_ms,
        );
        proof {
            lemma_sends_grown(second.port.log@, self.port.log@, interest.peer);
            lemma_tended_owned(second, *self);
            lemma_turned_trans(first, second, *self);
            assert(due_delivered(second, *self, id, interest, says, now_ms, r));
        }
        r
    }

    /// Ask again for the missing blocks of a body, or give it up.
    fn recover_bodies(&mut self, now_ms: u64) -> (r: Result<(), Error<T::Error>>)
        requires
            old(self).wf(),
        ensures
            final(self).wf(),
            carried(*old(self), *final(self)),
            turned(*old(self), *final(self)),
            final(self).engine.store.rx == old(self).engine.store.rx,
            bodies_recovered(*old(self), *final(self), now_ms, r),
    {
        let ghost first = *self;
        let (ask, gone) = self.engine.next_qblock_recovery(now_ms);
        let ghost second = *self;
        proof {
            lemma_turned_same(first, second);
            lemma_same_owned(first, second);
            lemma_pins_stay(first.engine, second.engine);
            assert(recovery_due(first.engine, second.engine, now_ms, ask, gone));
        }
        if let Some(q) = &ask {
            let r = self.send_qblock_recover(q, now_ms);
            proof {
                lemma_sends_grown(second.port.log@, self.port.log@, q.key.peer);
                lemma_turned_trans(first, second, *self);
            }
            return r;
        }
        if let Some((role, key)) = gone {
            self.qblock_give_up(role, key);
            proof {
                lemma_grown_same(second.port.log@);
                lemma_turned_trans(first, second, *self);
            }
        }
        Ok(())
    }

    fn end_turn<const N: usize>(
        &mut self,
        site: &Site<N>,
        due: Option<SlotId>,
        full: bool,
        now_ms: u64,
    ) -> (r: Result<(), Error<T::Error>>)
        requires
            old(self).wf(),
            site.wf(),
            due matches Some(id) ==> id.at < old(self).engine.store.observe.rows@.len(),
        ensures
            final(self).wf(),
            carried(*old(self), *final(self)),
            turned(*old(self), *final(self)),
            final(self).engine.store.rx == old(self).engine.store.rx,
            turn_ended(*old(self), *final(self), *site, due, full, now_ms, r),
    {
        let ghost first = *self;
        let told = self.notify_due_one(site, due, now_ms);
        let ghost second = *self;
        assert(due_notified(first, second, *site, due, now_ms, told));
        if told.is_err() {
            return told;
        }
        let got = self.recover_bodies(now_ms);
        proof {
            lemma_turned_trans(first, second, *self);
            assert(bodies_recovered(second, *self, now_ms, got));
        }
        if got.is_err() {
            return got;
        }
        if full {
            return Err(Error::Saturated);
        }
        Ok(())
    }

    fn serve_turn<const N: usize>(
        &mut self,
        site: &Site<N>,
        policy: &Option<Box<dyn EchoPolicy>>,
        ready: Option<SlotId>,
        due: Option<SlotId>,
        full: bool,
        now_ms: u64,
    ) -> (r: Result<(), Error<T::Error>>)
        requires
            old(self).wf(),
            site.wf(),
            policy matches Some(p) ==> policy_total(&**p),
            ready matches Some(id) ==> old(self).engine.store.rx.occupied(id),
            due matches Some(id) ==> id.at < old(self).engine.store.observe.rows@.len(),
        ensures
            final(self).wf(),
            carried(*old(self), *final(self)),
            turned(*old(self), *final(self)),
            final(self).engine.store.rx.slots@ == match ready {
                Some(id) => old(self).engine.store.rx.slots@.update(id.at as int, None),
                None => old(self).engine.store.rx.slots@,
            },
            turn_served(
                *old(self),
                *final(self),
                *site,
                *policy,
                ready,
                due,
                full,
                now_ms,
                r,
            ),
    {
        let ghost first = *self;
        match ready {
            None => self.end_turn(site, due, full, now_ms),
            Some(rx) => {
                let handled = self.dispatch_rx(site, policy, rx, now_ms);
                let ghost second = *self;
                proof {
                    assert(rx_dispatched(first, second, *site, *policy, rx, now_ms, handled));
                    assert(same_shape(first.engine, second.engine)) by {
                        reveal(calm);
                    }
                }
                if handled.is_err() {
                    return handled;
                }
                let r = self.end_turn(site, due, full, now_ms);
                proof {
                    lemma_turned_trans(first, second, *self);
                }
                r
            },
        }
    }

    fn run_turn<const N: usize>(
        &mut self,
        site: &Site<N>,
        policy: &Option<Box<dyn EchoPolicy>>,
        full: bool,
        now_ms: u64,
    ) -> (r: Result<(), Error<T::Error>>)
        requires
            old(self).wf(),
            site.wf(),
            policy matches Some(p) ==> policy_total(&**p),
        ensures
            final(self).wf(),
            carried(*old(self), *final(self)),
            turned(*old(self), *final(self)),
            at_most_one_freed(old(self).engine.store.rx.slots@, final(self).engine.store.rx.slots@),
            turn_run(*old(self), *final(self), *site, *policy, full, now_ms, r),
    {
        let ghost first = *self;
        let ready: Option<SlotId> = self.engine.store.rx.ready();
        let due: Option<SlotId> = self.engine.due_notification(now_ms);
        assert(work_ready(first, now_ms, ready, due));
        let sent = self.retransmit(now_ms);
        let ghost second = *self;
        proof {
            assert(retransmitted(first, second, now_ms, sent));
            assert(same_shape(first.engine, second.engine)) by {
                reveal(calm);
            }
        }
        if sent.is_err() {
            return sent;
        }
        let r = self.serve_turn(site, policy, ready, due, full, now_ms);
        proof {
            lemma_turned_trans(first, second, *self);
        }
        r
    }

    /// One turn of the reactor.
    pub fn poll_engine<const N: usize>(
        &mut self,
        site: &Site<N>,
        policy: &Option<Box<dyn EchoPolicy>>,
        now_ms: u64,
    ) -> (r: Result<(), Error<T::Error>>)
        requires
            old(self).wf(),
            site.wf(),
            policy matches Some(p) ==> policy_total(&**p),
        ensures
            final(self).wf(),
            carried(*old(self), *final(self)),
            turned(*old(self), *final(self)),
            polled(*old(self), *final(self), *site, *policy, now_ms, r),
    {
        let ghost first = *self;
        self.expire_all(now_ms);
        let ghost second = *self;
        let got = self.engine.recv_from(&mut self.port);
        let ghost third = *self;
        proof {
            crate::storage::table::lemma_free_row(second.engine.store.rx.slots@);
            assert(all_expired(first, second, now_ms));
            assert(datagram_received(second, third, got));
            lemma_turned_same(second, third);
            lemma_same_owned(second, third);
            lemma_pins_stay(second.engine, third.engine);
            lemma_turned_trans(first, second, third);
        }
        let full: bool = match got {
            Ok(_) => false,
            Err(DatagramIoError::Saturated) => true,
            Err(e) => {
                let r: Result<(), Error<T::Error>> = Err(Error::Io(e));
                assert(polled(first, *self, *site, *policy, now_ms, r));
                return r;
            },
        };
        self.engine.metrics.progress = Metrics::inc(self.engine.metrics.progress);
        let ghost fourth = *self;
        proof {
            lemma_turned_same(third, fourth);
            lemma_same_owned(third, fourth);
            lemma_pins_stay(third.engine, fourth.engine);
            lemma_turned_trans(first, third, fourth);
            assert(turn_counted(third, fourth));
        }
        let r = self.run_turn(site, policy, full, now_ms);
        proof {
            lemma_turned_trans(first, fourth, *self);
            assert(turn_run(fourth, *self, *site, *policy, full, now_ms, r));
        }
        r
    }
}

/// At most one slot was freed; the others are as they were.
pub open spec fn at_most_one_freed<A>(a: Seq<Option<A>>, b: Seq<Option<A>>) -> bool {
    b == a || exists|i: int| 0 <= i < a.len() && b == #[trigger] a.update(i, None)
}

} // verus!
