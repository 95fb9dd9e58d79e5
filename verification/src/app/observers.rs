//! What observers of a resource are owed.
use vstd::prelude::*;

use super::answer::Answer;
use super::echo::EchoPolicy;
use super::error::Error;
use super::inbound::{assembled, InboundBody};
use super::notify::{
    notification, notification_type, observers_set, registers_at, rows_after, rows_notified,
    ObservePlan,
};
use super::reactor::Core;
use super::respond::{answered, separated};
use super::response::ResponseView;
use super::serve::{
    admitted, answer_observed, body_freed, body_served, decided, full_answer, handled, handler_body,
    handler_run, plan_of, request_served,
};
use super::site::{route_at, Site};
use crate::message::fields::values_of;
use crate::message::wire::MessageView;
use crate::message::{Code, Type};
use crate::storage::endpoint::Endpoint;
use crate::storage::io::DatagramIo;
use crate::storage::observe::{
    acknowledged, next_seq, notified_by, notify_due, observer_count, observes, prev_seq, signalled,
};
use crate::storage::rows::{NotifyHold, ObserveInterest};
use crate::storage::table::{lemma_find_row, lemma_free_row, unique_keys, Keyed};

verus! {

/// Is the row an observer at the other side that watches this route?
pub open spec fn watches(row: Option<ObserveInterest>, route: int) -> bool {
    match row {
        Some(o) => !o.client && (o.resource matches Some(k) && k == route),
        None => false,
    }
}

/// Was every observer of a route told that the resource is gone, and nobody else
/// anything? The notification is pending; whose it is stays as it was.
pub open spec fn told_deleted(
    rows: Seq<Option<ObserveInterest>>,
    then: Seq<Option<ObserveInterest>>,
    route: int,
) -> bool {
    &&& then.len() == rows.len()
    &&& forall|i: int|
        0 <= i < rows.len() && watches(#[trigger] rows[i], route) ==> (then[i] matches Some(n)
            && n.pending && n.deleted && n.token == rows[i]->0.token && n.peer == rows[i]->0.peer
            && n.resource == rows[i]->0.resource && n.client == rows[i]->0.client && n.seq
            == rows[i]->0.seq && n.hold == rows[i]->0.hold)
    &&& forall|i: int|
        0 <= i < rows.len() && !watches(#[trigger] rows[i], route) ==> then[i] == rows[i]
}

/// After a DELETE on a route is answered with a success, every observer of the route has
/// a notification pending that says that the resource is gone, and nobody else's
/// row changed. After one that is answered with an error, or that names no route,
/// no row has changed.
pub proof fn law_delete_signals<const N: usize>(
    site: Site<N>,
    m: MessageView,
    plan: ObservePlan,
    rows: Seq<Option<ObserveInterest>>,
    peer: Endpoint,
    r: ResponseView,
    now_ms: u64,
)
    requires
        plan_of(site, m, plan),
        m.code == Code::DELETE,
    ensures
        r.code.raw() / 32 == 2 ==> (match route_at(site.entries@, values_of(m.options, 11)) {
            Some(k) => k <= usize::MAX ==> told_deleted(
                rows,
                rows_after(rows, plan, peer, r, now_ms),
                k,
            ),
            None => rows_after(rows, plan, peer, r, now_ms) == rows,
        }),
        r.code.raw() / 32 != 2 ==> rows_after(rows, plan, peer, r, now_ms) == rows,
{
    let then = rows_after(rows, plan, peer, r, now_ms);
    assert(!plan.register && !plan.deregister && plan.delete);
    super::site::lemma_route_at(site.entries@, values_of(m.options, 11));
    match route_at(site.entries@, values_of(m.options, 11)) {
        Some(k) => {},
        None => {
            if r.code.raw() / 32 == 2 {
                assert(then =~= rows);
            }
        },
    }
}

/// Did a handler's answer to a request with this code, or the refusal of it, do this to
/// the observers of a route: all told that the resource is gone if it is a success,
/// none touched if it is an error?
pub open spec fn deletion_told(
    rows: Seq<Option<ObserveInterest>>,
    then: Seq<Option<ObserveInterest>>,
    route: Option<int>,
    code: Code,
) -> bool {
    &&& code.raw() / 32 != 2 ==> then == rows
    &&& code.raw() / 32 == 2 && code != Code::CONTINUE ==> match route {
        Some(k) => told_deleted(rows, then, k),
        None => then == rows,
    }
}

/// Is a response handed over to be sent, or its acknowledgement before it?
pub open spec fn responds<T: DatagramIo>(
    a: Core<T>,
    b: Core<T>,
    answer: Answer,
    r: ResponseView,
    now_ms: u64,
    res: Result<(), Error<T::Error>>,
) -> bool {
    answered(a, b, answer, r, now_ms, res) || separated(a, b, answer, r, now_ms, res)
}

/// Serving a DELETE: if it is answered with a success, every observer of the route that
/// it names is told that the resource is gone, and nobody else anything; if it is
/// answered with an error, or not at all, no row of the observers has changed. An
/// answer 2.31 is no answer of a handler yet.
pub proof fn law_delete_served<T: DatagramIo, const N: usize>(
    a: Core<T>,
    b: Core<T>,
    site: Site<N>,
    policy: Option<Box<dyn EchoPolicy>>,
    m: MessageView,
    peer: Endpoint,
    now_ms: u64,
    res: Result<(), Error<T::Error>>,
)
    requires
        request_served(a, b, site, policy, m, peer, now_ms, res),
        m.code == Code::DELETE,
        site.entries@.len() <= usize::MAX,
    ensures
        (b.engine.store.observe.rows@ == a.engine.store.observe.rows@ && b.port == a.port) || exists|
            c: Core<T>,
            d: Core<T>,
            answer: Answer,
            r: ResponseView,
        |
            answer.dest == peer && #[trigger] responds(c, d, answer, r, now_ms, res)
                && deletion_told(
                a.engine.store.observe.rows@,
                b.engine.store.observe.rows@,
                route_at(site.entries@, values_of(m.options, 11)),
                r.code,
            ),
{
    super::site::lemma_route_at(site.entries@, values_of(m.options, 11));
    if super::serve::option_refusal(m).is_some() {
        let r = super::serve::option_refusal(m)->0;
        let answer = choose|answer: Answer|
            super::serve::for_message(answer, m, peer) && super::serve::bare_answer(
                answer,
                super::serve::refused_block(m),
            ) && #[trigger] answered(a, b, answer, r, now_ms, res) && super::inbound::rx_slots(
                b.engine,
            ) == super::inbound::rx_slots(a.engine) && b.engine.store.observe
                == a.engine.store.observe;
        assert(responds(a, b, answer, r, now_ms, res));
        assert(r.code.raw() / 32 != 2);
    } else {
        let (answer, d) = choose|answer: Answer, d: super::echo::EchoDecision|
            {
                &&& #[trigger] full_answer(answer, m, peer)
                &&& #[trigger] decided(policy, m, peer, now_ms, d)
                &&& match super::serve::echo_refusal(d) {
                    Some(r) => answered(a, b, answer, r, now_ms, res) && super::inbound::rx_slots(
                        b.engine,
                    ) == super::inbound::rx_slots(a.engine) && b.engine.store.observe
                        == a.engine.store.observe,
                    None => admitted(a, b, site, m, answer, now_ms, res),
                }
            };
        if super::serve::echo_refusal(d).is_some() {
            let r = super::serve::echo_refusal(d)->0;
            assert(responds(a, b, answer, r, now_ms, res));
            assert(r.code.raw() / 32 != 2);
        } else {
            reveal(admitted);
            let (c, e, body) = choose|c: Core<T>, e: Core<T>, body: InboundBody|
                {
                    &&& c == (Core { engine: c.engine, ..a })
                    &&& #[trigger] assembled(a.engine, c.engine, m, answer.dest, now_ms, body)
                    &&& #[trigger] body_served(c, e, site, m, answer, body, now_ms, res)
                    &&& super::inbound::rx_slots(e.engine) == super::inbound::rx_slots(c.engine)
                    &&& body is Plain || body is Complete || e.engine.store.observe
                        == c.engine.store.observe
                    &&& body_freed(e, b, body)
                };
            lemma_assembled_observe(a.engine, c.engine, m, answer.dest, now_ms, body);
            assert(b.engine.store.observe == e.engine.store.observe);
            if body is Plain || body is Complete {
                lemma_delete_handled(c, e, site, m, answer, body, now_ms, res);
            } else {
                lemma_assembled_code(a.engine, c.engine, m, answer.dest, now_ms, body);
                super::uploads::law_upload_answer(c, e, site, m, answer, body, now_ms, res);
                match body {
                    InboundBody::Continue => {
                        let to = choose|to: Answer|
                            to.dest == answer.dest && (to == answer || (to.token@ == m.token
                                && to.mid.raw == m.id && to.ty == m.ty))
                                && #[trigger] super::uploads::answers_with(
                                c,
                                e,
                                to,
                                Code::CONTINUE,
                                now_ms,
                                res,
                            );
                        let r = choose|r: ResponseView|
                            r.code == Code::CONTINUE && #[trigger] answered(
                                c,
                                e,
                                to,
                                r,
                                now_ms,
                                res,
                            );
                        assert(responds(c, e, to, r, now_ms, res));
                    },
                    InboundBody::Wait(Some(v)) => {
                        let to = choose|to: Answer|
                            to.dest == answer.dest && to.token@ == m.token && to.mid.raw == m.id
                                && to.ty == m.ty && (to.block1 matches Some(o) && o.value == v
                                && o.q_block) && #[trigger] super::uploads::answers_with(
                                c,
                                e,
                                to,
                                Code::CONTINUE,
                                now_ms,
                                res,
                            );
                        let r = choose|r: ResponseView|
                            r.code == Code::CONTINUE && #[trigger] answered(
                                c,
                                e,
                                to,
                                r,
                                now_ms,
                                res,
                            );
                        assert(responds(c, e, to, r, now_ms, res));
                    },
                    InboundBody::Refused(code) => {
                        let r = choose|r: ResponseView|
                            r.code == code && #[trigger] answered(c, e, answer, r, now_ms, res);
                        assert(responds(c, e, answer, r, now_ms, res));
                    },
                    _ => {},
                }
            }
        }
    }
}

proof fn lemma_assembled_observe(
    before: crate::storage::engine::Engine,
    after: crate::storage::engine::Engine,
    m: MessageView,
    peer: Endpoint,
    now_ms: u64,
    out: InboundBody,
)
    requires
        assembled(before, after, m, peer, now_ms, out),
    ensures
        after.store.observe == before.store.observe,
{
}

proof fn lemma_assembled_code(
    before: crate::storage::engine::Engine,
    after: crate::storage::engine::Engine,
    m: MessageView,
    peer: Endpoint,
    now_ms: u64,
    out: InboundBody,
)
    requires
        assembled(before, after, m, peer, now_ms, out),
    ensures
        out matches InboundBody::Refused(code) ==> code.raw() / 32 == 4,
{
}

proof fn lemma_delete_handled<T: DatagramIo, const N: usize>(
    a: Core<T>,
    b: Core<T>,
    site: Site<N>,
    m: MessageView,
    answer: Answer,
    body: InboundBody,
    now_ms: u64,
    res: Result<(), Error<T::Error>>,
)
    requires
        handler_run(a, b, site, m, answer, body, now_ms, res),
        m.code == Code::DELETE,
        site.entries@.len() <= usize::MAX,
    ensures
        (b.engine.store.observe.rows@ == a.engine.store.observe.rows@ && b.port == a.port) || exists|
            c: Core<T>,
            r: ResponseView,
        |
            #[trigger] responds(c, b, answer, r, now_ms, res) && deletion_told(
                a.engine.store.observe.rows@,
                b.engine.store.observe.rows@,
                route_at(site.entries@, values_of(m.options, 11)),
                r.code,
            ),
{
    super::site::lemma_route_at(site.entries@, values_of(m.options, 11));
    let (r, plan) = choose|r: ResponseView, plan: ObservePlan|
        {
            &&& #[trigger] handled(site, m, answer.dest, handler_body(a, body), r, plan)
            &&& match r.fault {
                Some(e) => res == Err::<(), Error<T::Error>>(Error::Response(e)) && b == a,
                None => {
                    let out = answer_observed(a, answer.dest, plan, r);
                    let rows = rows_after(
                        a.engine.store.observe.rows@,
                        plan,
                        answer.dest,
                        r,
                        now_ms,
                    );
                    exists|c: Core<T>|
                        {
                            &&& #[trigger] observers_set(
                                a,
                                c,
                                rows,
                                super::notify::observe_counted(
                                    a.engine.metrics,
                                    a.engine.store.observe.rows@,
                                    plan,
                                    answer.dest,
                                    r,
                                ),
                            )
                            &&& if r.separate {
                                separated(c, b, answer, out, now_ms, res)
                            } else {
                                answered(c, b, answer, out, now_ms, res)
                            }
                            &&& b.engine.store.observe == c.engine.store.observe
                        }
                },
            }
        };
    if r.fault.is_none() {
        let out = answer_observed(a, answer.dest, plan, r);
        let rows = rows_after(a.engine.store.observe.rows@, plan, answer.dest, r, now_ms);
        let c = choose|c: Core<T>|
            {
                &&& #[trigger] observers_set(
                    a,
                    c,
                    rows,
                    super::notify::observe_counted(
                        a.engine.metrics,
                        a.engine.store.observe.rows@,
                        plan,
                        answer.dest,
                        r,
                    ),
                )
                &&& if r.separate {
                    separated(c, b, answer, out, now_ms, res)
                } else {
                    answered(c, b, answer, out, now_ms, res)
                }
                &&& b.engine.store.observe == c.engine.store.observe
            };
        assert(responds(c, b, answer, out, now_ms, res));
        match super::path::uri_path_fault(values_of(m.options, 11)) {
            Some(_) => {
                assert(rows =~= a.engine.store.observe.rows@);
            },
            None => {
                law_delete_signals(
                    site,
                    m,
                    plan,
                    a.engine.store.observe.rows@,
                    answer.dest,
                    r,
                    now_ms,
                );
            },
        }
    }
}

/// Is the row the observation of a peer under a token?
pub open spec fn observation_of(
    row: Option<ObserveInterest>,
    token: Seq<u8>,
    peer: Endpoint,
) -> bool {
    match row {
        Some(o) => !o.client && o.token@ == token && o.peer == peer,
        None => false,
    }
}

/// A request that asks to be told of changes, and is answered with a success by a
/// resource that can be observed, leaves one observation of its token and peer, on
/// the route that it names, with nothing pending and number 0, if there is a row
/// for it. In any other case, and when it asks not to be told any more, none is
/// left. No other row changes.
pub proof fn law_observe_asked(
    plan: ObservePlan,
    rows: Seq<Option<ObserveInterest>>,
    peer: Endpoint,
    r: ResponseView,
    now_ms: u64,
)
    requires
        unique_keys(rows),
        plan.register || plan.deregister,
        !plan.delete,
    ensures
        ({
            let then = rows_after(rows, plan, peer, r, now_ms);
            let begins = plan.register && r.code.raw() / 32 == 2 && (r.observe.is_some()
                || plan.has_source) && exists|i: int|
                0 <= i < rows.len() && ((#[trigger] rows[i]).is_none() || observation_of(
                    rows[i],
                    plan.token@,
                    peer,
                ));
            &&& then.len() == rows.len()
            &&& begins ==> exists|i: int|
                0 <= i < then.len() && observation_of(#[trigger] then[i], plan.token@, peer)
                    && then[i]->0.resource == plan.resource && then[i]->0.content_format == r.format
                    && then[i]->0.seq == 0 && !then[i]->0.pending && !then[i]->0.deleted
                    && then[i]->0.hold.is_none()
            &&& !begins ==> forall|i: int|
                0 <= i < then.len() ==> !observation_of(#[trigger] then[i], plan.token@, peer)
            &&& forall|i: int|
                0 <= i < rows.len() && (#[trigger] rows[i]).is_some() && !observation_of(
                    rows[i],
                    plan.token@,
                    peer,
                ) ==> then[i] == rows[i]
            &&& forall|i: int|
                0 <= i < rows.len() && rows[i].is_none() && (#[trigger] then[i]).is_some()
                    ==> observation_of(then[i], plan.token@, peer)
        }),
{
    let key = plan.key(peer);
    let base = super::notify::rows_without(rows, plan, peer);
    let then = rows_after(rows, plan, peer, r, now_ms);
    lemma_find_row(rows, key);
    match crate::storage::table::find_row(rows, key) {
        Some(i) => {
            assert forall|j: int| 0 <= j < base.len() implies !observation_of(
                #[trigger] base[j],
                plan.token@,
                peer,
            ) by {
                if j < i {
                    assert(rows[j] matches Some(o) ==> o.row_key() != key);
                } else if i < j {
                    assert(rows[i].is_some());
                    assert(rows[j].is_some() ==> rows[i]->0.row_key() != rows[j]->0.row_key());
                }
            }
            assert(base[i].is_none());
        },
        None => {
            assert forall|j: int| 0 <= j < base.len() implies !observation_of(
                #[trigger] base[j],
                plan.token@,
                peer,
            ) by {
                assert(rows[j] matches Some(o) ==> o.row_key() != key);
            }
        },
    }
    lemma_find_row(base, key);
    lemma_free_row(base);
    match crate::storage::table::find_row(base, key) {
        Some(i) => {
            assert(observation_of(base[i], plan.token@, peer));
        },
        None => {},
    }
    match registers_at(rows, plan, peer, r) {
        Some(i) => {
            assert(observation_of(then[i], plan.token@, peer));
            assert(base[i].is_none());
            assert(rows[i].is_none() || observation_of(rows[i], plan.token@, peer));
        },
        None => {
            if exists|i: int|
                0 <= i < rows.len() && ((#[trigger] rows[i]).is_none() || observation_of(
                    rows[i],
                    plan.token@,
                    peer,
                )) {
                let i = choose|i: int|
                    0 <= i < rows.len() && ((#[trigger] rows[i]).is_none() || observation_of(
                        rows[i],
                        plan.token@,
                        peer,
                    ));
                if observation_of(rows[i], plan.token@, peer) {
                    assert(rows[i]->0.row_key() == key);
                }
                assert(exists|j: int| 0 <= j < base.len() && (#[trigger] base[j]).is_none()) by {
                    match crate::storage::table::find_row(rows, key) {
                        Some(j) => {
                            assert(base[j].is_none());
                        },
                        None => {
                            assert(base[i].is_none());
                        },
                    }
                }
            }
        },
    }
}

/// A representation is fresh for as long as its Max-Age says, 60 seconds if it says
/// nothing, from the time on that the observation begins.
pub proof fn law_observation_lifetime(
    plan: ObservePlan,
    peer: Endpoint,
    r: ResponseView,
    now_ms: u64,
)
    requires
        now_ms <= 0x1_0000_0000_0000,
    ensures
        r.max_age.is_none() ==> (super::notify::registration(plan, peer, r, now_ms).lifetime
            matches Some(l) && l.due_ms == now_ms + 60000),
        r.max_age matches Some(s) ==> (super::notify::registration(plan, peer, r, now_ms).lifetime
            matches Some(l) && l.due_ms == now_ms + s * 1000),
{
}

/// A request that neither observes nor deletes leaves the observers alone.
pub proof fn law_observers_left_alone(
    plan: ObservePlan,
    rows: Seq<Option<ObserveInterest>>,
    peer: Endpoint,
    r: ResponseView,
    now_ms: u64,
)
    requires
        !plan.register && !plan.deregister && !plan.delete,
    ensures
        rows_after(rows, plan, peer, r, now_ms) == rows,
        registers_at(rows, plan, peer, r).is_none(),
{
}

/// What an observer is told. That the resource is gone: 4.04 without a payload. That a
/// success has another Content-Format than the first one had: 4.06 without a
/// payload. Else the response itself. The Observe option, with the number, is in a
/// success only. An error, which is the last notification, is confirmable; so is a
/// success if a day has gone by since the last time.
pub proof fn law_notification(
    interest: ObserveInterest,
    r: ResponseView,
    seq: u32,
    now_ms: u64,
)
    ensures
        ({
            let n = notification(interest, r, seq);
            &&& interest.deleted ==> n.code == Code::NOT_FOUND && n.payload.len() == 0
                && n.observe.is_none()
            &&& !interest.deleted && r.code.raw() / 32 == 2 && r.format != interest.content_format
                ==> n.code == Code::NOT_ACCEPTABLE && n.payload.len() == 0 && n.observe.is_none()
            &&& !interest.deleted && (r.code.raw() / 32 != 2 || r.format == interest.content_format)
                ==> n.code == r.code && n.payload == r.payload && n.format == r.format && n.etag
                == r.etag && n.max_age == r.max_age
            &&& !interest.deleted && r.code.raw() / 32 == 2 && r.format == interest.content_format
                ==> n.observe == Some(seq)
            &&& n.code.raw() / 32 != 2 ==> n.observe.is_none() && notification_type(
                interest,
                n,
                now_ms,
            ) == Type::Confirmable
            &&& n.code.raw() / 32 == 2 && (interest.confirmed_ms matches Some(at) && now_ms >= at
                + 86400000) ==> notification_type(interest, n, now_ms) == Type::Confirmable
            &&& n.code.raw() / 32 == 2 && !(interest.confirmed_ms matches Some(at) && now_ms >= at
                + 86400000) ==> notification_type(interest, n, now_ms) == Type::NonConfirmable
        }),
{
}

/// After an observer was sent a notification: an error was its last, and its row is
/// free; a success leaves the row, which names the message, and holds back the next
/// notification: until the acknowledgement if it was confirmable, else for 3
/// seconds. Nobody else's row changes.
pub proof fn law_notified_row(
    rows: Seq<Option<ObserveInterest>>,
    i: int,
    n: ResponseView,
    mid: u16,
    now_ms: u64,
)
    requires
        unique_keys(rows),
        0 <= i < rows.len(),
        rows[i].is_some(),
        now_ms <= 0x1_0000_0000_0000,
    ensures
        ({
            let interest = rows[i]->0;
            let then = rows_notified(rows, interest, n, mid, now_ms);
            &&& then.len() == rows.len()
            &&& forall|j: int| 0 <= j < rows.len() && j != i ==> #[trigger] then[j] == rows[j]
            &&& n.code.raw() / 32 != 2 ==> then[i].is_none()
            &&& n.code.raw() / 32 == 2 ==> {
                &&& then[i] matches Some(o) && o.token == interest.token && o.peer == interest.peer
                    && o.client == interest.client && o.resource == interest.resource && o.seq
                    == interest.seq && o.pending == interest.pending && (o.notify_mid matches Some(k)
                    && k.raw == mid)
                &&& notification_type(interest, n, now_ms) == Type::Confirmable ==> (
                then[i]->0.hold matches Some(NotifyHold::Con(k)) && k.raw == mid)
                    && then[i]->0.confirmed_ms == Some(now_ms)
                &&& notification_type(interest, n, now_ms) == Type::NonConfirmable ==> (
                then[i]->0.hold matches Some(NotifyHold::Until(t)) && t == now_ms + 3000)
                    && then[i]->0.confirmed_ms == (if interest.confirmed_ms.is_none() {
                    Some(now_ms)
                } else {
                    interest.confirmed_ms
                })
            }
        }),
{
    crate::storage::table::lemma_find_unique(rows, i);
}

/// An observer is held back while its confirmable notification waits to be
/// acknowledged, or until the time set; a notification is due exactly if one is
/// pending for an observer at the other side that is not held back.
pub proof fn law_notify_due(o: ObserveInterest, now_ms: u64)
    ensures
        o.hold.is_none() ==> !o.held(now_ms),
        o.hold matches Some(NotifyHold::Con(_)) ==> o.held(now_ms),
        o.hold matches Some(NotifyHold::Until(t)) ==> (o.held(now_ms) <==> now_ms < t),
        notify_due(Some(o), now_ms) <==> !o.client && o.pending && !o.held(now_ms),
        !notify_due(None, now_ms),
{
}

/// The sequence numbers count up by one modulo 2^24; counting back undoes it.
pub proof fn law_sequence_numbers(seq: u32)
    requires
        seq < 0x1000000,
    ensures
        seq < 0xffffff ==> next_seq(seq) == seq + 1,
        next_seq(0xffffff) == 0,
        prev_seq(next_seq(seq)) == seq,
        next_seq(prev_seq(seq)) == seq,
{
}

/// A change of a route makes a notification pending for each of its observers, and for
/// nobody else; that the resource is gone is not forgotten.
pub proof fn law_signalled(row: Option<ObserveInterest>, route: usize, deleted: bool)
    ensures
        watches(row, route as int) <==> observes(row, Some(route)),
        !observes(row, None),
        watches(row, route as int) ==> (signalled(row, Some(route), deleted) matches Some(o)
            && o.pending && (o.deleted <==> deleted || row->0.deleted) && o.seq == row->0.seq
            && o.token == row->0.token && o.peer == row->0.peer && o.hold == row->0.hold),
        !watches(row, route as int) ==> signalled(row, Some(route), deleted) == row,
        signalled(row, None, deleted) == row,
{
}

/// The acknowledgement of a notification lets the observer be notified again; another
/// message from another peer, or with another identifier, does not.
pub proof fn law_notification_acknowledged(
    o: ObserveInterest,
    mid: crate::message::MessageId,
    peer: Endpoint,
)
    ensures
        !o.client && o.peer == peer && o.hold == Some(NotifyHold::Con(mid)) ==> (acknowledged(
            Some(o),
            mid,
            peer,
        ) matches Some(n) && n.hold.is_none() && n.token == o.token && n.seq == o.seq && n.pending
            == o.pending && n.deleted == o.deleted),
        o.client || o.peer != peer || o.hold != Some(NotifyHold::Con(mid)) ==> acknowledged(
            Some(o),
            mid,
            peer,
        ) == Some(o),
        notified_by(Some(o), mid, peer) <==> !o.client && o.peer == peer && o.notify_mid == Some(mid),
{
}

/// The observers of a route are counted each once.
pub proof fn law_observer_count(rows: Seq<Option<ObserveInterest>>, route: usize)
    ensures
        observer_count(rows, Some(route)) == rows.filter(
            |row: Option<ObserveInterest>| watches(row, route as int),
        ).len(),
    decreases rows.len(),
{
    reveal(Seq::filter);
    if rows.len() > 0 {
        law_observer_count(rows.drop_last(), route);
    }
}

} // verus!
