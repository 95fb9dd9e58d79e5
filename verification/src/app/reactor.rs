//! The reactor's state, and the sends it is made of.
use vstd::prelude::*;

use super::dedup::{
    dedup_frame, leak_free, lemma_leak_free_released, lemma_leak_free_same, lemma_leak_free_trans,
    lemma_pins_same, pin_ok, pins_ok, DedupClosed,
};
use super::error::Error;
use super::identity::AppIds;
use super::inbox::{ClientInbox, ClientLives};
use super::owned::{lemma_subscribed_trans, subscribed_still};
use super::reply::staged;
use crate::error::SlotMessageError;
use crate::message::wire::{wire, MessageView};
use crate::message::Message;
use crate::storage::blocks::tx_bodies_changed;
use crate::storage::endpoint::{Endpoint, SlotId};
use crate::storage::engine::{
    first_sent, holds, outstanding, pins, sent_metrics, stage_verdict, Confirm, EncodeFailure,
    Engine, Store,
};
use crate::storage::io::{sends, Attempt, DatagramIo, Port};
use crate::storage::metrics::{inc, Metrics};

verus! {

/// Everything that a reactor step works on, but for the routes.
pub struct Core<T> {
    /// Pools and tables.
    pub engine: Engine,
    /// The transport.
    pub port: Port<T>,
    /// Identities.
    pub ids: AppIds,
    /// Replies that wait to be fetched.
    pub inbox: ClientInbox,
    /// Calls that are under way.
    pub lives: ClientLives,
    /// The request that must not run again although its answer is not kept.
    pub closed: Option<DedupClosed>,
}

impl<T> Core<T> {
    /// Is the state in order?
    pub open spec fn wf(&self) -> bool {
        &&& self.engine.wf()
        &&& pins_ok(self.engine)
        &&& self.ids.wf()
        &&& self.inbox.wf()
        &&& self.lives.wf()
    }
}

/// What talking to a peer leaves alone: incoming datagrams and bodies, and
/// everything of this side's own calls. Whatever is sent goes to that peer.
pub open spec fn tended<T>(a: Core<T>, b: Core<T>, dest: Endpoint) -> bool {
    &&& calm(a.engine, b.engine)
    &&& b.engine.store.rx == a.engine.store.rx
    &&& b.engine.store.bodies.is_some() == a.engine.store.bodies.is_some()
    &&& b.engine.store.bodies.is_some() ==> b.engine.store.bodies->0.rx
        == a.engine.store.bodies->0.rx
    &&& b.engine.exchanges == a.engine.exchanges
    &&& b.engine.store.observe == a.engine.store.observe || subscribed_still(
        a.engine.store.observe.rows@,
        b.engine.store.observe.rows@,
    )
    &&& b.inbox == a.inbox
    &&& b.lives == a.lives
    &&& sends_to(a.port.log@, b.port.log@, dest)
}

/// What answering a peer leaves alone: see [`tended`]; and observations.
pub open spec fn served<T>(a: Core<T>, b: Core<T>, dest: Endpoint) -> bool {
    &&& tended(a, b, dest)
    &&& b.engine.store.observe == a.engine.store.observe
}

/// Two steps that talk to a peer do so together.
pub proof fn lemma_tended_trans<T>(a: Core<T>, b: Core<T>, c: Core<T>, dest: Endpoint)
    requires
        tended(a, b, dest),
        tended(b, c, dest),
    ensures
        tended(a, c, dest),
{
    lemma_calm_trans(a.engine, b.engine, c.engine);
    lemma_sends_trans(a.port.log@, b.port.log@, c.port.log@, dest);
    lemma_watched_trans(a, b, c);
}

/// Two steps that leave subscriptions alone do so together.
pub proof fn lemma_watched_trans<T>(a: Core<T>, b: Core<T>, c: Core<T>)
    requires
        b.engine.store.observe == a.engine.store.observe || subscribed_still(
            a.engine.store.observe.rows@,
            b.engine.store.observe.rows@,
        ),
        c.engine.store.observe == b.engine.store.observe || subscribed_still(
            b.engine.store.observe.rows@,
            c.engine.store.observe.rows@,
        ),
    ensures
        c.engine.store.observe == a.engine.store.observe || subscribed_still(
            a.engine.store.observe.rows@,
            c.engine.store.observe.rows@,
        ),
{
    if b.engine.store.observe != a.engine.store.observe && c.engine.store.observe
        != b.engine.store.observe {
        lemma_subscribed_trans(
            a.engine.store.observe.rows@,
            b.engine.store.observe.rows@,
            c.engine.store.observe.rows@,
        );
    }
}

/// A change of observations alone talks to nobody.
pub proof fn lemma_rows_tended<T>(a: Core<T>, b: Core<T>, dest: Endpoint)
    requires
        b.engine == (Engine {
            store: Store { observe: b.engine.store.observe, ..a.engine.store },
            metrics: b.engine.metrics,
            ..a.engine
        }),
        subscribed_still(a.engine.store.observe.rows@, b.engine.store.observe.rows@),
        b.port.log@ == a.port.log@,
        b.inbox == a.inbox,
        b.lives == a.lives,
    ensures
        tended(a, b, dest),
{
    reveal(subscribed_still);
    lemma_calm_same(a.engine, b.engine);
    lemma_sends_one(a.port.log@, b.port.log@, dest);
}

/// Two steps that answer a peer do so together.
pub proof fn lemma_served_trans<T>(a: Core<T>, b: Core<T>, c: Core<T>, dest: Endpoint)
    requires
        served(a, b, dest),
        served(b, c, dest),
    ensures
        served(a, c, dest),
{
    lemma_calm_trans(a.engine, b.engine, c.engine);
    lemma_sends_trans(a.port.log@, b.port.log@, c.port.log@, dest);
}

/// A step that changes nothing answers nobody.
pub proof fn lemma_served_same<T>(a: Core<T>, b: Core<T>, dest: Endpoint)
    requires
        b.engine == a.engine,
        b.port.log@ == a.port.log@,
        b.inbox == a.inbox,
        b.lives == a.lives,
    ensures
        served(a, b, dest),
{
    lemma_calm_same(a.engine, b.engine);
    lemma_sends_one(a.port.log@, b.port.log@, dest);
}

/// A change of outgoing bodies answers nobody, and leaves the rest alone.
pub proof fn lemma_bodies_served<T>(a: Core<T>, b: Core<T>, dest: Endpoint)
    requires
        tx_bodies_changed(a.engine, b.engine),
        b.port.log@ == a.port.log@,
        b.inbox == a.inbox,
        b.lives == a.lives,
    ensures
        served(a, b, dest),
{
    lemma_calm_same(a.engine, b.engine);
    lemma_sends_one(a.port.log@, b.port.log@, dest);
}

/// A state in order stays so in a calm step.
pub proof fn lemma_pins_stay(a: Engine, b: Engine)
    requires
        pins_ok(a),
        calm(a, b),
    ensures
        pins_ok(b),
{
    reveal(calm);
}

/// Pools and tables keep their sizes.
pub open spec fn same_shape(a: Engine, b: Engine) -> bool {
    &&& b.store.rx.slots@.len() == a.store.rx.slots@.len()
    &&& b.store.rx.slot_bytes == a.store.rx.slot_bytes
    &&& b.store.tx.slots@.len() == a.store.tx.slots@.len()
    &&& b.store.tx.slot_bytes == a.store.tx.slot_bytes
    &&& b.store.dedup.rows@.len() == a.store.dedup.rows@.len()
    &&& b.store.observe.rows@.len() == a.store.observe.rows@.len()
    &&& b.store.bodies.is_some() == a.store.bodies.is_some()
    &&& b.store.bodies.is_some() ==> {
        &&& b.store.bodies->0.rx.slots@.len() == a.store.bodies->0.rx.slots@.len()
        &&& b.store.bodies->0.rx.slot_bytes == a.store.bodies->0.rx.slot_bytes
        &&& b.store.bodies->0.tx.slots@.len() == a.store.bodies->0.tx.slots@.len()
        &&& b.store.bodies->0.tx.slot_bytes == a.store.bodies->0.tx.slot_bytes
    }
}

/// Sizes stay, no outgoing slot is left taken without an owner, and every kept
/// reply keeps a slot of its own.
#[verifier::opaque]
pub open spec fn calm(a: Engine, b: Engine) -> bool {
    &&& same_shape(a, b)
    &&& leak_free(a, b)
    &&& pins_ok(a) ==> pins_ok(b)
}

/// The record of sends grows by sends to one peer.
#[verifier::opaque]
pub open spec fn sends_to(log: Seq<Attempt>, then: Seq<Attempt>, dest: Endpoint) -> bool {
    &&& log.len() <= then.len()
    &&& then.subrange(0, log.len() as int) == log
    &&& forall|i: int| log.len() <= i < then.len() ==> (#[trigger] then[i]).dest == dest
}

/// The record of sends only grows.
#[verifier::opaque]
pub open spec fn grown(log: Seq<Attempt>, then: Seq<Attempt>) -> bool {
    &&& log.len() <= then.len()
    &&& then.subrange(0, log.len() as int) == log
}

/// Two calm steps are calm.
pub proof fn lemma_calm_trans(a: Engine, b: Engine, c: Engine)
    requires
        calm(a, b),
        calm(b, c),
    ensures
        calm(a, c),
{
    reveal(calm);
    lemma_leak_free_trans(a, b, c);
}

/// A step that leaves slots, waiting messages, kept answers and sizes alone is
/// calm.
pub proof fn lemma_calm_same(a: Engine, b: Engine)
    requires
        same_shape(a, b),
        b.store.tx.slots@ == a.store.tx.slots@,
        b.pending@ == a.pending@,
        b.store.dedup.rows@ == a.store.dedup.rows@,
    ensures
        calm(a, b),
{
    reveal(calm);
    lemma_leak_free_same(a, b);
    lemma_pins_same(a, b);
}

/// That a message stops waiting and its slot is freed is calm.
pub proof fn lemma_calm_settled(a: Engine, b: Engine, at: int)
    requires
        a.wf(),
        same_shape(a, b),
        0 <= at < a.pending@.len(),
        a.pending@[at].is_some(),
        b.store.tx.slots@ == a.store.tx.slots@.update(at, None),
        b.pending@ == a.pending@.update(at, None),
        b.store.dedup.rows@ == a.store.dedup.rows@,
    ensures
        calm(a, b),
{
    reveal(calm);
    lemma_leak_free_released(a, b, at);
    if pins_ok(a) {
        reveal(pins_ok);
        assert forall|k: int| 0 <= k < b.store.dedup.rows@.len() implies pin_ok(
            b,
            #[trigger] b.store.dedup.rows@[k],
        ) by {
            assert(pin_ok(a, a.store.dedup.rows@[k]));
        }
    }
}

/// Keeping and forgetting answers is calm.
pub proof fn lemma_calm_dedup(a: Engine, b: Engine)
    requires
        dedup_frame(a, b),
        pins_ok(a) ==> pins_ok(b),
    ensures
        calm(a, b),
{
    reveal(calm);
}

/// Two steps that send to a peer do so together.
pub proof fn lemma_sends_trans(a: Seq<Attempt>, b: Seq<Attempt>, c: Seq<Attempt>, dest: Endpoint)
    requires
        sends_to(a, b, dest),
        sends_to(b, c, dest),
    ensures
        sends_to(a, c, dest),
{
    reveal(sends_to);
    assert(c.subrange(0, a.len() as int) =~= b.subrange(0, a.len() as int));
    assert forall|i: int| a.len() <= i < c.len() implies (#[trigger] c[i]).dest == dest by {
        if i < b.len() {
            assert(c[i] == c.subrange(0, b.len() as int)[i]);
        }
    }
}

/// One send, or none.
pub proof fn lemma_sends_one(log: Seq<Attempt>, then: Seq<Attempt>, dest: Endpoint)
    requires
        then == log || (exists|x: Attempt| x.dest == dest && then == #[trigger] log.push(x)),
    ensures
        sends_to(log, then, dest),
{
    reveal(sends_to);
    assert(then.subrange(0, log.len() as int) =~= log);
}

/// Sends to one peer let the record grow.
pub proof fn lemma_sends_grown(log: Seq<Attempt>, then: Seq<Attempt>, dest: Endpoint)
    requires
        sends_to(log, then, dest),
    ensures
        grown(log, then),
{
    reveal(sends_to);
    reveal(grown);
}

/// Growing twice is growing.
pub proof fn lemma_grown_trans(a: Seq<Attempt>, b: Seq<Attempt>, c: Seq<Attempt>)
    requires
        grown(a, b),
        grown(b, c),
    ensures
        grown(a, c),
{
    reveal(grown);
    assert(c.subrange(0, a.len() as int) =~= b.subrange(0, a.len() as int));
}

/// No growth is growth.
pub proof fn lemma_grown_same(a: Seq<Attempt>)
    ensures
        grown(a, a),
{
    reveal(grown);
    assert(a.subrange(0, a.len() as int) =~= a);
}

/// The error for a message that was not encoded.
pub open spec fn failure_of<E>(f: EncodeFailure) -> Error<E> {
    match f {
        EncodeFailure::Saturated => Error::Saturated,
        EncodeFailure::Encode(e) => Error::Message(SlotMessageError::Encode(e)),
    }
}

/// The error for a message that was not encoded.
pub fn failure<E>(f: EncodeFailure) -> (r: Error<E>)
    ensures
        r == failure_of::<E>(f),
{
    match f {
        EncodeFailure::Saturated => Error::Saturated,
        EncodeFailure::Encode(e) => Error::Message(SlotMessageError::Encode(e)),
    }
}

/// May a transport that is handed this datagram once lead to this?
pub open spec fn handed<T: DatagramIo>(
    io: T,
    dest: Endpoint,
    bytes: Seq<u8>,
    r: Result<(), Error<T::Error>>,
) -> bool {
    match r {
        Ok(_) => sends(io, dest, bytes, None),
        Err(Error::Io(e)) => sends(io, dest, bytes, Some(e)),
        Err(_) => false,
    }
}

/// What encoding one message and sending it to a peer does.
///
/// Without a free outgoing slot, or when it cannot be encoded, nothing
/// happens. One that is to be confirmed is not sent while its peer has
/// another outstanding; once sent, it keeps its slot and waits.
pub open spec fn delivered<T: DatagramIo>(
    before: Engine,
    after: Engine,
    port: Port<T>,
    port_after: Port<T>,
    m: MessageView,
    dest: Endpoint,
    confirm: Option<Confirm>,
    r: Result<(), Error<T::Error>>,
) -> bool {
    match stage_verdict(before, m) {
        Err(f) => r == Err::<(), Error<T::Error>>(failure_of(f)) && after == before && port_after
            == port,
        Ok(at) => {
            &&& 0 <= at < before.store.tx.slots@.len()
            &&& at <= usize::MAX
            &&& before.store.tx.slots@[at].is_none()
            &&& before.pending@[at].is_none()
            &&& after == (Engine {
                store: Store { tx: after.store.tx, ..before.store },
                pending: after.pending,
                metrics: after.metrics,
                ..before
            })
            &&& after.store.tx.slot_bytes == before.store.tx.slot_bytes
            &&& if confirm.is_some() && outstanding(before.pending@, dest).is_some() {
                &&& r == Err::<(), Error<T::Error>>(Error::Saturated)
                &&& port_after == port
                &&& after.metrics == (Metrics {
                    nstart_reject: inc(before.metrics.nstart_reject),
                    ..before.metrics
                })
            } else {
                &&& port_after.log@ == port.log@.push(
                    Attempt { dest, bytes: wire(m), ok: r.is_ok() },
                )
                &&& handed(port.io, dest, wire(m), r)
                &&& after.metrics == sent_metrics(before.metrics, r.is_ok())
            }
            &&& if r.is_ok() && confirm.is_some() {
                &&& after.store.tx.slots@ == before.store.tx.slots@.update(
                    at,
                    after.store.tx.slots@[at],
                )
                &&& holds(after.store.tx.slots@[at], dest, wire(m))
                &&& after.pending@ == before.pending@.update(
                    at,
                    Some(
                        first_sent(
                            SlotId { at: at as usize },
                            dest,
                            confirm->0.mid,
                            confirm->0.now_ms,
                            confirm->0.jitter,
                        ),
                    ),
                )
            } else {
                &&& after.store.tx.slots@ == before.store.tx.slots@
                &&& after.pending@ == before.pending@
            }
        },
    }
}

/// Sends without confirmation leave outgoing slots and waiting messages alone.
pub open spec fn slots_alike(a: Engine, b: Engine) -> bool {
    &&& b.store.tx.slots@ == a.store.tx.slots@
    &&& b.store.tx.slot_bytes == a.store.tx.slot_bytes
    &&& b.pending@ == a.pending@
}

/// The counters after the attempts to send that a record grew by.
pub open spec fn tallied(m: Metrics, log: Seq<Attempt>, then: Seq<Attempt>) -> Metrics
    decreases then.len(),
{
    if then.len() <= log.len() {
        m
    } else {
        sent_metrics(tallied(m, log, then.drop_last()), then.last().ok)
    }
}

/// One more attempt is counted once more.
pub proof fn lemma_tallied(m: Metrics, log: Seq<Attempt>, then: Seq<Attempt>, x: Attempt)
    requires
        log.len() <= then.len(),
    ensures
        tallied(m, log, then.push(x)) == sent_metrics(tallied(m, log, then), x.ok),
{
    assert(then.push(x).drop_last() =~= then);
}

/// Sends without confirmation change nothing of an engine but counters: each
/// attempt is counted.
pub open spec fn only_counted(
    a: Engine,
    b: Engine,
    log: Seq<Attempt>,
    then: Seq<Attempt>,
) -> bool {
    &&& b == (Engine {
        store: Store { tx: b.store.tx, ..a.store },
        pending: b.pending,
        metrics: tallied(a.metrics, log, then),
        ..a
    })
    &&& slots_alike(a, b)
}

/// What one send looks like from outside; see [`delivered`].
pub open spec fn one_send<T: DatagramIo>(
    e: Engine,
    io: T,
    log: Seq<Attempt>,
    log_after: Seq<Attempt>,
    m: MessageView,
    dest: Endpoint,
    confirm: bool,
    r: Result<(), Error<T::Error>>,
) -> bool {
    match stage_verdict(e, m) {
        Err(f) => r == Err::<(), Error<T::Error>>(failure_of(f)) && log_after == log,
        Ok(_) => if confirm && outstanding(e.pending@, dest).is_some() {
            r == Err::<(), Error<T::Error>>(Error::Saturated) && log_after == log
        } else {
            &&& log_after == log.push(Attempt { dest, bytes: wire(m), ok: r.is_ok() })
            &&& handed(io, dest, wire(m), r)
        },
    }
}

/// A send is calm, and goes to its peer.
pub proof fn lemma_delivered_calm<T: DatagramIo>(
    before: Engine,
    after: Engine,
    port: Port<T>,
    port_after: Port<T>,
    m: MessageView,
    dest: Endpoint,
    confirm: Option<Confirm>,
    r: Result<(), Error<T::Error>>,
)
    requires
        before.wf(),
        delivered(before, after, port, port_after, m, dest, confirm, r),
    ensures
        calm(before, after),
        sends_to(port.log@, port_after.log@, dest),
{
    reveal(calm);
    match stage_verdict(before, m) {
        Err(_) => {
            lemma_leak_free_same(before, after);
            lemma_pins_same(before, after);
            lemma_sends_one(port.log@, port_after.log@, dest);
        },
        Ok(at) => {
            if r.is_ok() && confirm.is_some() {
                reveal(leak_free);
                assert forall|i: int| #[trigger] after.unowned(i) implies before.unowned(i) by {
                    if before.pinned_reply(i) {
                        let k = choose|k: int|
                            0 <= k < before.store.dedup.rows@.len() && pins(
                                #[trigger] before.store.dedup.rows@[k],
                                i,
                            );
                        assert(pins(after.store.dedup.rows@[k], i));
                    }
                }
                assert(pins_ok(before) ==> pins_ok(after)) by {
                    reveal(pins_ok);
                    if pins_ok(before) {
                        assert forall|k: int| 0 <= k < after.store.dedup.rows@.len() implies pin_ok(
                            after,
                            #[trigger] after.store.dedup.rows@[k],
                        ) by {
                            assert(pin_ok(before, before.store.dedup.rows@[k]));
                        }
                    }
                }
            } else {
                lemma_leak_free_same(before, after);
                lemma_pins_same(before, after);
            }
            if port_after.log@ != port.log@ {
                let x = Attempt { dest, bytes: wire(m), ok: r.is_ok() };
                assert(port_after.log@ == port.log@.push(x));
            }
            lemma_sends_one(port.log@, port_after.log@, dest);
        },
    }
}

/// Send what was just encoded for a peer.
fn conclude<T: DatagramIo>(
    engine: &mut Engine,
    port: &mut Port<T>,
    id: SlotId,
    dest: Endpoint,
    confirm: Option<Confirm>,
    before: Ghost<Engine>,
    m: Ghost<MessageView>,
) -> (r: Result<(), Error<T::Error>>)
    requires
        before@.wf(),
        old(engine).wf(),
        staged(before@, *old(engine), m@, dest, Ok(id)),
    ensures
        final(engine).wf(),
        delivered(before@, *final(engine), *old(port), *final(port), m@, dest, confirm, r),
{
    let ghost slots = before@.store.tx.slots@;
    let sent = engine.finish_send(port, id, dest, confirm);
    proof {
        if sent.is_err() || confirm.is_none() {
            assert(engine.store.tx.slots@ =~= slots);
        } else {
            assert(engine.store.tx.slots@ =~= slots.update(
                id.at as int,
                engine.store.tx.slots@[id.at as int],
            ));
        }
    }
    match sent {
        Ok(()) => Ok(()),
        Err(e) => Err(Error::from_tx(e)),
    }
}

/// Send a response that was just encoded.
pub fn send_staged<T: DatagramIo>(
    engine: &mut Engine,
    port: &mut Port<T>,
    slot: Result<SlotId, EncodeFailure>,
    dest: Endpoint,
    confirm: Option<Confirm>,
    before: Ghost<Engine>,
    m: Ghost<MessageView>,
) -> (r: Result<(), Error<T::Error>>)
    requires
        before@.wf(),
        old(engine).wf(),
        staged(before@, *old(engine), m@, dest, slot),
    ensures
        final(engine).wf(),
        delivered(before@, *final(engine), *old(port), *final(port), m@, dest, confirm, r),
        calm(before@, *final(engine)),
        sends_to(old(port).log@, final(port).log@, dest),
{
    match slot {
        Ok(id) => {
            let r = conclude(engine, port, id, dest, confirm, before, m);
            proof {
                lemma_delivered_calm(
                    before@,
                    *engine,
                    *old(port),
                    *port,
                    m@,
                    dest,
                    confirm,
                    r,
                );
            }
            r
        },
        Err(f) => {
            proof {
                lemma_calm_same(before@, *engine);
                lemma_sends_one(port.log@, port.log@, dest);
            }
            Err(failure(f))
        },
    }
}

/// Encode a message and send it.
pub fn send_message<T: DatagramIo>(
    engine: &mut Engine,
    port: &mut Port<T>,
    msg: &Message<'_>,
    dest: Endpoint,
    confirm: Option<Confirm>,
) -> (r: Result<(), Error<T::Error>>)
    requires
        old(engine).wf(),
    ensures
        final(engine).wf(),
        delivered(
            *old(engine),
            *final(engine),
            *old(port),
            *final(port),
            msg@,
            dest,
            confirm,
            r,
        ),
        calm(*old(engine), *final(engine)),
        sends_to(old(port).log@, final(port).log@, dest),
{
    let ghost before = *engine;
    let slot = engine.stage(msg, dest);
    send_staged(engine, port, slot, dest, confirm, Ghost(before), Ghost(msg@))
}

} // verus!
