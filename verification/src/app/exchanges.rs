//! What goes back and forth in an exchange.
use vstd::prelude::*;

use super::answer::Answer;
use super::api::{fetched, reply_body};
use super::bodies::{block_message, blocks_sent, numbers, window_issued};
use super::calls::{Call, CallFailure, ReplyMeta};
use super::complete::{answered_request, completed, response_accepted};
use super::echo::{EchoCheck, EchoDecision, EchoPolicy};
use super::ending::{call_failed, observing};
use super::error::Error;
use super::inbound::bad_options;
use super::inbox::newer;
use super::poll::request_given_up;
use super::reactor::Core;
use super::respond::{answered, separated};
use super::response::ResponseView;
use super::send::{ack_message, acknowledged, sent_plain};
use super::serve::{decided, option_refusal};
use super::turn::call_reset;
use super::wish::token_sought;
use crate::message::echo::{echo_option_of, echo_result};
use crate::message::fields::{unknown_critical_of, values_of};
use crate::message::laws::{law_first_value, present};
use crate::message::value::block_size;
use crate::message::wire::{wire, MessageView};
use crate::message::{Code, MessageId, Type};
use crate::storage::endpoint::{Endpoint, SlotId};
use crate::storage::engine::Engine;
use crate::storage::io::{Attempt, DatagramIo};
use crate::storage::rows::ExchangeEntry;
use crate::storage::transfer::block_count;

verus! {

/// A peer that does not want the answer to its confirmable request gets an empty
/// acknowledgement of it instead.
pub proof fn law_unwanted_is_acknowledged<T: DatagramIo>(
    a: Core<T>,
    b: Core<T>,
    answer: Answer,
    r: ResponseView,
    now_ms: u64,
    res: Result<(), Error<T::Error>>,
)
    requires
        answered(a, b, answer, r, now_ms, res),
        r.fault.is_none(),
        answer.ty == Type::Confirmable,
        answer.no_response.suppressed(r.code),
    ensures
        exists|c: Core<T>| #[trigger]
            sent_plain(a, c, ack_message(answer.mid), answer.dest, res) && c.port == b.port,
{
    reveal(answered);
    assert(acknowledged(a, b, answer.dest, answer.mid, now_ms, answer.request, res));
    let c = choose|c: Core<T>|
        #[trigger] sent_plain(a, c, ack_message(answer.mid), answer.dest, res) && if res.is_ok() {
            super::send::ack_noted(c, b, answer.dest, answer.mid, now_ms, answer.request)
        } else {
            b == c
        };
    assert(c.port == b.port);
}

/// A response apart from its acknowledgement: the acknowledgement of a confirmable request
/// goes out first; if it cannot, nothing else does.
pub proof fn law_separate_acknowledges_first<T: DatagramIo>(
    a: Core<T>,
    b: Core<T>,
    answer: Answer,
    r: ResponseView,
    now_ms: u64,
    res: Result<(), Error<T::Error>>,
)
    requires
        separated(a, b, answer, r, now_ms, res),
        r.fault.is_none(),
        answer.ty == Type::Confirmable,
        super::respond::retained(a.engine, answer).is_none(),
    ensures
        exists|c: Core<T>, ack: Result<(), Error<T::Error>>|
            {
                &&& #[trigger] acknowledged(
                    a,
                    c,
                    answer.dest,
                    answer.mid,
                    now_ms,
                    answer.request,
                    ack,
                )
                &&& ack.is_err() ==> b == c && res.is_err()
                &&& ack.is_ok() && answer.no_response.suppressed(r.code) ==> b == c && res.is_ok()
                &&& ack.is_ok() && !answer.no_response.suppressed(r.code)
                    ==> super::respond::sent_apart(c, b, answer, r, now_ms, res)
            },
{
}

/// A response apart is a message of this side's own: of the type of the request, under the
/// token of the request, with the next identifier of this side, the code and the payload of
/// the answer.
pub proof fn law_separate_response<T: DatagramIo>(
    a: Core<T>,
    b: Core<T>,
    answer: Answer,
    r: ResponseView,
    now_ms: u64,
    res: Result<(), Error<T::Error>>,
    m: MessageView,
)
    requires
        super::respond::sent_apart(a, b, answer, r, now_ms, res),
        m == super::reply::reply_message(
            r,
            answer.ty,
            a.ids.next_mid,
            answer.token@,
            r.payload,
            None,
            answer.block1,
        ),
        super::reply::reply_option_count(r, None, answer.block1) <= 24,
        crate::storage::engine::stage_verdict(a.engine, m).is_ok(),
        res.is_ok(),
    ensures
        b.port.log@ == a.port.log@.push(
            (Attempt { dest: answer.dest, bytes: wire(m), ok: true }),
        ),
        m.ty == answer.ty,
        m.token == answer.token@,
        m.id == a.ids.next_mid,
        m.code == r.code,
        m.payload == r.payload,
{
}

/// A confirmable response to a request that waits is acknowledged before anything else; if
/// that fails nothing of it is kept.
pub proof fn law_response_is_acknowledged<T: DatagramIo>(
    a: Core<T>,
    b: Core<T>,
    call: Call,
    m: MessageView,
    now_ms: u64,
    r: Result<(), Error<T::Error>>,
)
    requires
        completed(a, b, call, m, now_ms, r),
        answered_request(a.engine, m, call.peer).is_some() || observing(a.engine, call),
        unknown_critical_of(m.options).is_none(),
        m.ty == Type::Confirmable,
    ensures
        exists|c: Core<T>, ack: Result<(), Error<T::Error>>|
            {
                &&& #[trigger] sent_plain(
                    a,
                    c,
                    ack_message(MessageId { raw: m.id }),
                    call.peer,
                    ack,
                )
                &&& ack.is_err() ==> b == c && r.is_err()
            },
{
    let origin = answered_request(a.engine, m, call.peer);
    assert(response_accepted(a, b, call, m, now_ms, r));
    let (c, ack) = choose|c: Core<T>, ack: Result<(), Error<T::Error>>|
        {
            &&& #[trigger] super::complete::confirmed(a, c, m, call.peer, ack)
            &&& if ack.is_err() {
                r == ack && b == c
            } else if !a.lives.fresh(call, m, now_ms) {
                r.is_ok() && b == c
            } else {
                exists|d: Core<T>|
                    super::complete::acknowledgements_settled(c, d, origin, m, call.peer)
                        && #[trigger] super::complete::response_taken(
                        d,
                        b,
                        call,
                        m,
                        origin.is_some(),
                        now_ms,
                        r,
                    )
            }
        };
    assert(sent_plain(a, c, ack_message(MessageId { raw: m.id }), call.peer, ack));
}

/// A notification that is not newer than the latest one is not kept: nothing of any call
/// changes.
pub proof fn law_old_notification<T: DatagramIo>(
    a: Core<T>,
    b: Core<T>,
    call: Call,
    m: MessageView,
    now_ms: u64,
    r: Result<(), Error<T::Error>>,
    live: super::inbox::LiveCall,
)
    requires
        response_accepted(a, b, call, m, now_ms, r),
        a.lives.row(call) == Some(live),
        super::inbox::observation_start_of(m).is_some(),
        live.observed.is_some(),
        !newer(live.observed->0, super::inbox::observation_start_of(m)->0, now_ms),
    ensures
        b.inbox == a.inbox,
        b.lives == a.lives,
        b.engine.exchanges == a.engine.exchanges,
        b.engine.store.observe == a.engine.store.observe,
{
    assert(!a.lives.fresh(call, m, now_ms));
}

/// A request that was given up, because it was sent often enough, fails its call as timed
/// out.
pub proof fn law_given_up_times_out<T>(a: Core<T>, b: Core<T>, tx: SlotId, k: int)
    requires
        request_given_up(a, b, tx),
        0 <= k < a.engine.exchanges.rows@.len(),
        a.engine.exchanges.rows@[k] matches Some(x) && x.tx == tx,
        forall|j: int|
            0 <= j < k ==> !((#[trigger] a.engine.exchanges.rows@[j]) matches Some(x) && x.tx == tx),
    ensures
        ({
            let x = a.engine.exchanges.rows@[k]->0;
            call_failed(
                a,
                b,
                Call { token: x.token, peer: x.peer },
                CallFailure::TimedOut,
                false,
            )
        }),
{
    let rows = a.engine.exchanges.rows@;
    assert(super::ending::sent_from(rows[k], tx));
    let x = choose|x: ExchangeEntry|
        #[trigger] super::ending::first_sent_from(a.engine, tx, x) && call_failed(
            a,
            b,
            Call { token: x.token, peer: x.peer },
            CallFailure::TimedOut,
            false,
        );
    let i = choose|i: int|
        0 <= i < rows.len() && #[trigger] rows[i] == Some(x) && x.tx == tx && forall|j: int|
            0 <= j < i ==> !super::ending::sent_from(#[trigger] rows[j], tx);
    if i < k {
        assert(super::ending::sent_from(rows[i], tx));
    } else if k < i {
        assert(!super::ending::sent_from(rows[k], tx));
    }
}

/// A reset of a request fails its call as reset by the peer; one that is about no request
/// leaves the calls alone.
pub proof fn law_reset_fails_call<T>(a: Core<T>, b: Core<T>, mid: MessageId, peer: Endpoint)
    requires
        call_reset(a, b, mid, peer),
    ensures
        b == a || exists|x: ExchangeEntry| #[trigger]
            super::ending::reset_about(a.engine, mid, peer, x) && call_failed(
                a,
                b,
                Call { token: x.token, peer: x.peer },
                CallFailure::Reset,
                false,
            ),
        (exists|k: int|
            0 <= k < a.engine.exchanges.rows@.len() && ((#[trigger] a.engine.exchanges.rows@[k])
                matches Some(x) && x.mid == mid && x.peer == peer)) ==> exists|x: ExchangeEntry|
         #[trigger]
            super::ending::reset_about(a.engine, mid, peer, x) && call_failed(
                a,
                b,
                Call { token: x.token, peer: x.peer },
                CallFailure::Reset,
                false,
            ),
{
    if exists|k: int|
        0 <= k < a.engine.exchanges.rows@.len() && ((#[trigger] a.engine.exchanges.rows@[k])
            matches Some(x) && x.mid == mid && x.peer == peer) {
        let k = choose|k: int|
            0 <= k < a.engine.exchanges.rows@.len() && ((#[trigger] a.engine.exchanges.rows@[k])
                matches Some(x) && x.mid == mid && x.peer == peer);
        assert(super::ending::sent_as(a.engine.exchanges.rows@[k], mid, peer));
    }
}

/// What is fetched of a reply: what was kept of it, and of a body that came in blocks up to
/// 4096 bytes.
pub proof fn law_fetched(meta: ReplyMeta, body: Option<Seq<u8>>, e: Engine, id: SlotId)
    ensures
        fetched(meta, body).code == meta.code,
        fetched(meta, body).body == body,
        fetched(meta, body).payload == meta.payload@,
        fetched(meta, body).token == Some(meta.token@),
        fetched(meta, body).peer == Some(meta.peer),
        e.rx_transfer(id).is_none() ==> reply_body(e, Some(id)).is_none(),
        e.rx_transfer(id).is_some() && e.rx_body(id).len() <= 4096 ==> reply_body(e, Some(id))
            == Some(e.rx_body(id)),
        e.rx_transfer(id).is_some() && e.rx_body(id).len() > 4096 ==> reply_body(e, Some(id))
            == Some(e.rx_body(id).take(4096)),
        reply_body(e, None).is_none(),
{
    if e.rx_transfer(id).is_some() {
        assert(reply_body(e, Some(id))->0 =~= (if e.rx_body(id).len() <= 4096 {
            e.rx_body(id)
        } else {
            e.rx_body(id).take(4096)
        }));
    }
}

/// An Echo policy is asked about the Echo option of the request, its sender and the time;
/// without a policy every request is accepted.
pub proof fn law_policy_asked(
    policy: Option<Box<dyn EchoPolicy>>,
    m: MessageView,
    peer: Endpoint,
    now_ms: u64,
    d: EchoDecision,
)
    requires
        decided(policy, m, peer, now_ms, d),
    ensures
        policy.is_none() ==> d is Accept,
        policy matches Some(p) ==> exists|check: EchoCheck|
            check.peer == peer && check.now_ms == now_ms && !check.oscore_protected && echo_result(
                check.echo,
            ) == echo_option_of(m.options) && #[trigger] p.gives(check, d),
{
}

/// A fresh token is one that no call under way has, four octets long with test identities.
pub proof fn law_fresh_token<T>(
    a: Core<T>,
    b: Core<T>,
    r: Result<Seq<u8>, super::identity::IdentityError>,
    i: int,
)
    requires
        token_sought(a, b, r),
        0 <= i < a.lives.rows.rows@.len(),
    ensures
        r matches Ok(t) ==> !(a.lives.rows.rows@[i] matches Some(l) && l.call.token@ == t),
        (r matches Ok(t) && a.ids.source is Test) ==> r->Ok_0.len() == 4,
        b.port == a.port,
        b.engine == a.engine,
        b.lives == a.lives,
{
    match r {
        Ok(t) => {
            if a.lives.rows.rows@[i] matches Some(l) && l.call.token@ == t {
                assert(super::inbox::has_token(a.lives.rows.rows@[i], t));
            }
            reveal_with_fuel(crate::message::echo::be_octets, 5);
        },
        Err(_) => {},
    }
}

/// Two windowed blocks of an upload in one request are refused with 4.02.
pub proof fn law_two_upload_blocks_refused(m: MessageView)
    requires
        !present(m.options, 35) && !present(m.options, 39),
        values_of(m.options, 19).len() > 1,
    ensures
        option_refusal(m) matches Some(r) && r.code == Code::BAD_OPTION,
{
    reveal(bad_options);
    law_first_value(m.options, 35);
    law_first_value(m.options, 39);
}

/// A window of a response that goes out: each of its blocks once, in order, to the sender of
/// the request, with the bytes of the body that are its own.
pub proof fn law_window_sent<T: DatagramIo>(
    a: Core<T>,
    b: Core<T>,
    answer: Answer,
    r: ResponseView,
    ty: Type,
    mid: u16,
    id: SlotId,
    now_ms: u64,
    res: Result<(), Error<T::Error>>,
    j: int,
)
    requires
        window_issued(a, b, answer, r, ty, mid, id, now_ms, res),
        res.is_ok(),
        a.engine.tx_transfer(id).is_some(),
        !a.engine.tx_transfer(id)->0.complete,
        a.engine.tx_transfer(id)->0.szx <= 6,
        a.engine.tx_transfer(id)->0.next_num < a.engine.tx_transfer(id)->0.window_base + 10,
    ensures
        ({
            let t = a.engine.tx_transfer(id)->0;
            let body = a.engine.tx_body(id);
            let count = block_count(body.len() as int, block_size(t.szx as int));
            let stop = if count < t.window_base + 10 {
                count
            } else {
                t.window_base + 10
            };
            &&& b.port.log@.len() == a.port.log@.len() + stop - t.next_num
            &&& 0 <= j < stop - t.next_num ==> b.port.log@[a.port.log@.len() + j].dest
                == answer.dest && b.port.log@[a.port.log@.len() + j].ok && exists|
                head: (Type, u16),
            |
                (j == 0 ==> head == (ty, mid)) && (j > 0 ==> head.0 == Type::NonConfirmable)
                    && b.port.log@[a.port.log@.len() + j].bytes == wire(
                    #[trigger] block_message(
                        r,
                        head.0,
                        head.1,
                        answer.token@,
                        body,
                        (t.next_num + j) as u32,
                        t.szx,
                        true,
                        answer.block1,
                    ),
                )
        }),
{
    reveal(blocks_sent);
    let t = a.engine.tx_transfer(id)->0;
    let body = a.engine.tx_body(id);
    let slot = a.engine.store.bodies->0.tx.slots@[id.at as int]->0;
    let count = block_count(body.len() as int, block_size(t.szx as int));
    let stop = super::bodies::window_stop(t, count);
    let nums = numbers(t.next_num as int, stop);
    let run = super::bodies::block_run(a, answer, r, slot, ty, mid);
    if 0 <= j < stop - t.next_num {
        let head = super::bodies::head_at(ty, mid, a.ids.next_mid, j);
        assert(b.port.log@[a.port.log@.len() + j].bytes == wire(run.message(j, nums[j])));
        assert(nums[j] == t.next_num + j);
        assert(run.message(j, nums[j]) == block_message(
            r,
            head.0,
            head.1,
            answer.token@,
            body,
            (t.next_num + j) as u32,
            t.szx,
            true,
            answer.block1,
        ));
    }
}

/// A request that does not fit into one message and carries No-Response, or a condition, is
/// refused for that, and nothing of it is sent.
pub proof fn law_fragmented_refused<T: DatagramIo>(
    a: Core<T>,
    b: Core<T>,
    w: super::wish::Wish<'_>,
    token: Seq<u8>,
    dest: Endpoint,
    now_ms: u64,
    r: Result<(), Error<T::Error>>,
)
    requires
        super::wish::wish_sent(a, b, w, token, dest, now_ms, r),
        !(r matches Err(Error::Identity(_))),
        w.message(token, a.ids.next_mid).options.len() <= 26,
        crate::storage::engine::stage_verdict(a.engine, w.message(token, a.ids.next_mid))
            == Err::<int, crate::storage::engine::EncodeFailure>(
            crate::storage::engine::EncodeFailure::Encode(
                crate::error::EncodeError::BufferTooSmall,
            ),
        ),
    ensures
        w.no_response.is_some() ==> r == Err::<(), Error<T::Error>>(
            Error::NoResponseUploadUnsupported,
        ) && b.port == a.port && b.engine == a.engine,
        w.no_response.is_none() && (w.if_match.is_some() || w.if_none_match || w.etag.is_some())
            ==> r == Err::<(), Error<T::Error>>(Error::ConditionalUploadUnsupported) && b.port
            == a.port && b.engine == a.engine,
{
}

/// A request with more options than a message of a call may have is refused, and nothing of
/// it is sent.
pub proof fn law_too_many_options<T: DatagramIo>(
    a: Core<T>,
    b: Core<T>,
    w: super::wish::Wish<'_>,
    token: Seq<u8>,
    dest: Endpoint,
    now_ms: u64,
    r: Result<(), Error<T::Error>>,
)
    requires
        super::wish::wish_sent(a, b, w, token, dest, now_ms, r),
        !(r matches Err(Error::Identity(_))),
        w.message(token, a.ids.next_mid).options.len() > 26,
    ensures
        r == Err::<(), Error<T::Error>>(
            Error::Message(
                crate::error::SlotMessageError::Encode(crate::error::EncodeError::OptionsFull),
            ),
        ),
        b.port == a.port,
        b.engine == a.engine,
{
}

/// The calls that end in a turn are exactly those that are overdue.
pub proof fn law_overdue_calls<T>(
    c: Core<T>,
    rows: Seq<Option<super::inbox::LiveCall>>,
    now_ms: u64,
)
    ensures
        forall|i: int|
            0 <= i < rows.len() && (#[trigger] rows[i]).is_some() && super::ending::overdue(
                c,
                rows[i]->0,
                now_ms,
            ).is_some() ==> super::ending::overdue_calls(c, rows, now_ms).contains(
                (rows[i]->0.call, super::ending::overdue(c, rows[i]->0, now_ms)->0),
            ),
        forall|k: int|
            0 <= k < super::ending::overdue_calls(c, rows, now_ms).len() ==> exists|i: int|
                0 <= i < rows.len() && (#[trigger] rows[i]).is_some() && super::ending::overdue(
                    c,
                    rows[i]->0,
                    now_ms,
                ) == Some((#[trigger] super::ending::overdue_calls(c, rows, now_ms)[k]).1)
                    && rows[i]->0.call == super::ending::overdue_calls(c, rows, now_ms)[k].0,
    decreases rows.len(),
{
    if rows.len() > 0 {
        let rest = rows.drop_last();
        law_overdue_calls(c, rest, now_ms);
        let front = super::ending::overdue_calls(c, rest, now_ms);
        let all = super::ending::overdue_calls(c, rows, now_ms);
        assert forall|i: int| 0 <= i < rest.len() implies #[trigger] rest[i] == rows[i] by {}
        assert forall|i: int|
            0 <= i < rows.len() && (#[trigger] rows[i]).is_some() && super::ending::overdue(
                c,
                rows[i]->0,
                now_ms,
            ).is_some() implies all.contains(
            (rows[i]->0.call, super::ending::overdue(c, rows[i]->0, now_ms)->0),
        ) by {
            let x = (rows[i]->0.call, super::ending::overdue(c, rows[i]->0, now_ms)->0);
            if i < rest.len() {
                assert(rest[i] == rows[i]);
                assert(front.contains(x));
                let k = choose|k: int| 0 <= k < front.len() && front[k] == x;
                assert(all[k] == x);
            } else {
                assert(all[all.len() - 1] == x);
            }
        }
        assert forall|k: int| 0 <= k < all.len() implies exists|i: int|
            0 <= i < rows.len() && (#[trigger] rows[i]).is_some() && super::ending::overdue(
                c,
                rows[i]->0,
                now_ms,
            ) == Some((#[trigger] all[k]).1) && rows[i]->0.call == all[k].0 by {
            if k < front.len() {
                assert(all[k] == front[k]);
                let i = choose|i: int|
                    0 <= i < rest.len() && (#[trigger] rest[i]).is_some() && super::ending::overdue(
                        c,
                        rest[i]->0,
                        now_ms,
                    ) == Some(front[k].1) && rest[i]->0.call == front[k].0;
                assert(rows[i] == rest[i]);
            } else {
                assert(rows[rows.len() - 1] == rows.last());
            }
        }
    }
}

/// What is kept of a response: its code, options and token, its sender, when it came, the
/// first 128 bytes of its payload and how long that was, 65535 at most.
pub proof fn law_response_kept(meta: ReplyMeta, m: MessageView, peer: Endpoint, now_ms: u64)
    requires
        super::calls::keeps(meta, m, peer, now_ms),
    ensures
        meta.code == m.code && meta.ty == m.ty && meta.mid.raw == m.id && meta.token@ == m.token,
        meta.peer == peer && meta.received_at == now_ms,
        super::calls::owned_opts(meta.options@) == m.options,
        m.payload.len() <= 128 ==> meta.payload@ == m.payload,
        m.payload.len() > 128 ==> meta.payload@ == m.payload.take(128),
        m.payload.len() <= 65535 ==> meta.src_len == m.payload.len(),
        m.payload.len() > 65535 ==> meta.src_len == 65535,
{
    assert(meta.payload@ =~= (if m.payload.len() <= 128 {
        m.payload
    } else {
        m.payload.take(128)
    }));
}

/// Giving out a message identifier: the next one is the one after it, and one more counts as
/// given out, the first of a new round if all were.
pub proof fn law_identifier_given(
    a: super::identity::AppIds,
    b: super::identity::AppIds,
    now_ms: u64,
)
    requires
        a.gave(b, now_ms),
        a.issued <= 65536,
    ensures
        a.next_mid < 65535 ==> b.next_mid == a.next_mid + 1,
        a.next_mid == 65535 ==> b.next_mid == 0,
        a.issued < 65536 ==> b.issued == a.issued + 1,
        a.issued == 65536 ==> b.issued == 1,
        b.last_mid_ms >= now_ms && b.last_mid_ms >= a.last_mid_ms,
        b.last_mid_ms == now_ms || b.last_mid_ms == a.last_mid_ms,
        b.source == a.source,
        b.test_token == a.test_token,
{
}

/// A random source is asked at most eight times for a jitter or a token, until a draw fails or
/// can be used; what it is asked for and gave is recorded.
pub proof fn law_draws(
    source: super::identity::Source,
    n: usize,
    before: Seq<super::identity::Draw>,
    after: Seq<super::identity::Draw>,
    usable: spec_fn(Seq<u8>) -> bool,
    i: int,
)
    requires
        super::identity::searched(source, n, before, after, usable),
        before.len() <= i < after.len(),
    ensures
        after.len() <= before.len() + 8,
        after.take(before.len() as int) == before,
        after[i].n == n,
        i < after.len() - 1 ==> (after[i].r matches Some(b) && !usable(b)),
        (after.last().r matches Some(b) && !usable(b)) ==> after.len() == before.len() + 8,
{
    assert(after.take(before.len() as int) =~= after.subrange(0, before.len() as int));
}

/// Selected blocks of a response that go out: each that is named and in the body once, in
/// ascending order, to the sender of the request.
pub proof fn law_selection_sent<T: DatagramIo>(
    a: Core<T>,
    b: Core<T>,
    answer: Answer,
    r: ResponseView,
    ty: Type,
    mid: u16,
    id: SlotId,
    now_ms: u64,
    res: Result<(), Error<T::Error>>,
    j: int,
)
    requires
        super::bodies::selection_issued(a, b, answer, r, ty, mid, id, now_ms, res),
        res.is_ok(),
        a.engine.tx_transfer(id).is_some(),
    ensures
        ({
            let t = a.engine.tx_transfer(id)->0;
            let body = a.engine.tx_body(id);
            let nums = super::bodies::picked(
                answer.selections@,
                block_count(body.len() as int, block_size(t.szx as int)),
            );
            &&& b.port.log@.len() == a.port.log@.len() + nums.len()
            &&& 0 <= j < nums.len() ==> b.port.log@[a.port.log@.len() + j].dest == answer.dest
                && exists|head: (Type, u16)|
                (j == 0 ==> head == (ty, mid)) && (j > 0 ==> head.0 == Type::NonConfirmable)
                    && b.port.log@[a.port.log@.len() + j].bytes == wire(
                    #[trigger] block_message(
                        r,
                        head.0,
                        head.1,
                        answer.token@,
                        body,
                        nums[j] as u32,
                        t.szx,
                        true,
                        answer.block1,
                    ),
                )
        }),
{
    reveal(blocks_sent);
    let t = a.engine.tx_transfer(id)->0;
    let body = a.engine.tx_body(id);
    let slot = a.engine.store.bodies->0.tx.slots@[id.at as int]->0;
    let nums = super::bodies::picked(
        answer.selections@,
        block_count(body.len() as int, block_size(t.szx as int)),
    );
    let run = super::bodies::block_run(a, answer, r, slot, ty, mid);
    if 0 <= j < nums.len() {
        let head = super::bodies::head_at(ty, mid, a.ids.next_mid, j);
        assert(b.port.log@[a.port.log@.len() + j].bytes == wire(run.message(j, nums[j])));
        assert(run.message(j, nums[j]) == block_message(
            r,
            head.0,
            head.1,
            answer.token@,
            body,
            nums[j] as u32,
            t.szx,
            true,
            answer.block1,
        ));
    }
}

/// A turn takes its steps in this order: what is over ends; a datagram is received; the next
/// retransmission; the datagram; the observer that is due and the recovery of bodies. If a
/// retransmission fails the turn ends there.
pub proof fn law_failed_retransmission_ends_turn<T: DatagramIo, const N: usize>(
    a: Core<T>,
    b: Core<T>,
    site: super::site::Site<N>,
    policy: Option<Box<dyn EchoPolicy>>,
    full: bool,
    now_ms: u64,
    r: Result<(), Error<T::Error>>,
)
    requires
        super::poll::turn_run(a, b, site, policy, full, now_ms, r),
    ensures
        exists|c: Core<T>, sent: Result<(), Error<T::Error>>|
            {
                &&& #[trigger] super::poll::retransmitted(a, c, now_ms, sent)
                &&& sent.is_err() ==> r == sent && b == c
            },
{
    let (c, sent, ready, due) = choose|
        c: Core<T>,
        sent: Result<(), Error<T::Error>>,
        ready: Option<SlotId>,
        due: Option<SlotId>,
    |
        {
            &&& #[trigger] super::poll::work_ready(a, now_ms, ready, due)
            &&& #[trigger] super::poll::retransmitted(a, c, now_ms, sent)
            &&& if sent.is_err() {
                r == sent && b == c
            } else {
                super::poll::turn_served(c, b, site, policy, ready, due, full, now_ms, r)
            }
        };
    assert(super::poll::retransmitted(a, c, now_ms, sent));
}

/// A response with a critical option that has no name here is not kept, whatever its type:
/// nothing of any call changes.
pub proof fn law_unknown_critical_not_kept<T: DatagramIo>(
    a: Core<T>,
    b: Core<T>,
    call: Call,
    m: MessageView,
    now_ms: u64,
    r: Result<(), Error<T::Error>>,
)
    requires
        completed(a, b, call, m, now_ms, r),
        exists|i: int|
            0 <= i < m.options.len() && (#[trigger] m.options[i]).number % 2 == 1
                && !crate::message::laws::named_numbers().contains(m.options[i].number),
    ensures
        b.inbox == a.inbox,
        b.lives == a.lives,
        b.engine.exchanges == a.engine.exchanges,
        b.engine.store.observe == a.engine.store.observe,
        m.ty == Type::NonConfirmable ==> b == a && r.is_ok(),
{
    let i = choose|i: int|
        0 <= i < m.options.len() && (#[trigger] m.options[i]).number % 2 == 1
            && !crate::message::laws::named_numbers().contains(m.options[i].number);
    lemma_has_unknown(m.options, i);
}

proof fn lemma_has_unknown(opts: Seq<crate::message::option::OptView>, i: int)
    requires
        0 <= i < opts.len(),
        opts[i].number % 2 == 1,
        !crate::message::laws::named_numbers().contains(opts[i].number),
    ensures
        unknown_critical_of(opts).is_some(),
    decreases opts.len(),
{
    crate::message::laws::law_known_numbers(opts[i].number);
    if i < opts.len() - 1 {
        assert(opts.drop_last()[i] == opts[i]);
        lemma_has_unknown(opts.drop_last(), i);
    }
}

/// A response to a call that still sends its body: 2.31 leads to further blocks, any other
/// response ends the upload and frees its slot.
pub proof fn law_response_to_upload<T: DatagramIo>(
    a: Core<T>,
    b: Core<T>,
    call: Call,
    m: MessageView,
    via_exchange: bool,
    now_ms: u64,
    r: Result<(), Error<T::Error>>,
)
    requires
        super::complete::response_taken(a, b, call, m, via_exchange, now_ms, r),
    ensures
        exists|at: Option<SlotId>| #[trigger]
            super::complete::uploads_from(a, call, at) && (at.is_some() && m.code.raw() == 95
                && m.code == Code::CONTINUE ==> super::upload::upload_continued(
                a,
                b,
                m,
                call.peer,
                at->0,
                now_ms,
                r,
            )) && (at.is_none() || m.code != Code::CONTINUE ==> exists|c: Core<T>|
                (at matches Some(id) ==> c.engine.tx_transfer(id).is_none())
                    && #[trigger] super::complete::content_taken(
                    c,
                    b,
                    call,
                    m,
                    via_exchange,
                    now_ms,
                    r,
                )),
{
    let at = choose|at: Option<SlotId>|
        {
            &&& #[trigger] super::complete::uploads_from(a, call, at)
            &&& if at.is_some() && m.code == Code::CONTINUE {
                super::upload::upload_continued(a, b, m, call.peer, at->0, now_ms, r)
            } else {
                exists|c: Core<T>|
                    c == (Core { engine: c.engine, ..a }) && super::complete::upload_over(
                        a.engine,
                        c.engine,
                        at,
                    ) && #[trigger] super::complete::content_taken(
                        c,
                        b,
                        call,
                        m,
                        via_exchange,
                        now_ms,
                        r,
                    )
            }
        };
    if at.is_none() || m.code != Code::CONTINUE {
        let c = choose|c: Core<T>|
            c == (Core { engine: c.engine, ..a }) && super::complete::upload_over(
                a.engine,
                c.engine,
                at,
            ) && #[trigger] super::complete::content_taken(
                c,
                b,
                call,
                m,
                via_exchange,
                now_ms,
                r,
            );
        match at {
            Some(id) => {
                assert(a.engine.store.bodies.is_some());
                assert(c.engine.tx_transfer(id).is_none());
            },
            None => {},
        }
    }
}

/// The content of a response: one without block options is the whole of it; one with Block2
/// or Q-Block2 is a block; one that says more than can be kept fails the call.
pub proof fn law_content<T: DatagramIo>(
    a: Core<T>,
    b: Core<T>,
    call: Call,
    m: MessageView,
    via_exchange: bool,
    now_ms: u64,
    r: Result<(), Error<T::Error>>,
)
    requires
        super::complete::content_taken(a, b, call, m, via_exchange, now_ms, r),
    ensures
        m.options.len() > 24 ==> r.is_ok() && call_failed(
            a,
            b,
            call,
            CallFailure::ResponseMetadataBounds,
            true,
        ),
        super::calls::meta_fits(m) && !present(m.options, 23) && !present(m.options, 31)
            ==> r.is_ok() && super::complete::plain_taken(a, b, call, m, via_exchange, now_ms),
        super::calls::meta_fits(m) && present(m.options, 23) ==> super::complete::block_taken(
            a,
            b,
            call,
            m,
            crate::message::fields::block_option(m.options, 23)->0,
            false,
            via_exchange,
            now_ms,
            r,
        ),
        super::calls::meta_fits(m) && !present(m.options, 23) && present(m.options, 31)
            ==> super::complete::block_taken(
            a,
            b,
            call,
            m,
            crate::message::fields::block_option(m.options, 31)->0,
            true,
            via_exchange,
            now_ms,
            r,
        ),
{
    law_first_value(m.options, 23);
    law_first_value(m.options, 31);
}

} // verus!
