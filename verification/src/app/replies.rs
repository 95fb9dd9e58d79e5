//! What a call leads to, and what its sender is told.
use vstd::prelude::*;

use super::calls::{Call, CallFailure, ReplyMeta};
use super::complete::{answered_request, completed, next_wanted, subscriptions};
use super::ending::{observing, overdue};
use super::error::Error;
use super::identity::{following, jitter_in, mid_after, AppIds};
use super::inbox::{newer, observation_start_of, LiveCall, OutgoingObserve};
use super::laws::at_most;
use super::outbound::{call_key, RequestOptsView};
use super::poll::retransmitted;
use super::reactor::{delivered, Core};
use super::reply::opt_block;
use super::send::{rst_message, sent_plain};
use super::turn::{recover_message, wanted_blocks};
use super::upload::{upload_message, UploadView};
use super::wish::{chosen, observe_value, response_lifetime, Wish};
use crate::message::fields::{block_option, first_value, uint_option, values_of};
use crate::message::laws::{law_first_value, present};
use crate::message::value::{block_size, uint_octets, uint_value};
use crate::message::wire::{wire, MessageView};
use crate::message::{BlockValue, Code, MessageId, Type};
use crate::storage::endpoint::Endpoint;
use crate::storage::engine::{waits, Engine};
use crate::storage::io::DatagramIo;
use crate::storage::rows::ObserveInterest;
use crate::storage::table::{find_row, lemma_find_row, lemma_free_row, unique_keys, Keyed};
use crate::storage::transfer::BlockTransfer;

verus! {

/// A notification is newer than the latest one if its 24-bit number is ahead by less than
/// half the space, or if it comes more than 128 seconds later.
pub proof fn law_newer(previous: u32, at_ms: u64, next: u32, now_ms: u64)
    requires
        previous < 0x1000000,
        next < 0x1000000,
    ensures
        newer((previous, at_ms), next, now_ms) <==> (previous < next && next - previous < 0x800000)
            || (previous > next && previous - next > 0x800000) || now_ms > at_ms + 128000,
{
}

/// Only a success that carries Observe, and is whole or the first block of its body, starts
/// a notification; its number is that of the option.
pub proof fn law_notification_start(m: MessageView)
    ensures
        m.code.raw() / 32 != 2 ==> observation_start_of(m).is_none(),
        !present(m.options, 6) ==> observation_start_of(m).is_none(),
        (block_option(m.options, 23) matches Some(Ok(b)) && b.num != 0) ==> observation_start_of(
            m,
        ).is_none(),
        m.code.raw() / 32 == 2 && !present(m.options, 23) && !present(m.options, 31) && (first_value(
            m.options,
            6,
        ) matches Some(o) && o.len() <= 3) ==> (observation_start_of(m) matches Some(n) && n
            == uint_value(first_value(m.options, 6)->0)),
        (first_value(m.options, 6) matches Some(o) && o.len() > 3) ==> observation_start_of(
            m,
        ).is_none(),
{
    law_first_value(m.options, 6);
    law_first_value(m.options, 23);
    law_first_value(m.options, 31);
    match first_value(m.options, 6) {
        Some(o) => {
            crate::message::laws::law_uint_bound(o, 3);
        },
        None => {},
    }
    if !present(m.options, 31) {
        assert(values_of(m.options, 31).len() == 0);
    }
}

/// A message answers a request only if it comes from the peer of the request with its token;
/// as an acknowledgement it must carry the identifier of the request, or of a message
/// that waits at that peer; a reset answers none.
pub proof fn law_answered_request(e: Engine, m: MessageView, peer: Endpoint)
    ensures
        answered_request(e, m, peer) matches Some(x) ==> x.token@ == m.token && x.peer == peer && (
        m.ty == Type::Confirmable || m.ty == Type::NonConfirmable || (m.ty == Type::Acknowledgement
            && (x.mid.raw == m.id || waits(e, MessageId { raw: m.id }, peer)))),
        m.ty == Type::Reset ==> answered_request(e, m, peer).is_none(),
        (forall|i: int|
            0 <= i < e.exchanges.rows@.len() ==> !((#[trigger] e.exchanges.rows@[i]) matches Some(x)
                && x.token@ == m.token && x.peer == peer)) ==> answered_request(
            e,
            m,
            peer,
        ).is_none(),
{
    lemma_find_row(e.exchanges.rows@, call_key(m.token, peer));
}

/// A response that answers no request and belongs to no subscription is not kept: if it is
/// confirmable it is rejected by a reset, else passed over; nothing of any call changes.
pub proof fn law_stray_response<T: DatagramIo>(
    a: Core<T>,
    b: Core<T>,
    call: Call,
    m: MessageView,
    now_ms: u64,
    r: Result<(), Error<T::Error>>,
)
    requires
        completed(a, b, call, m, now_ms, r),
        answered_request(a.engine, m, call.peer).is_none(),
        !observing(a.engine, call),
    ensures
        b.inbox == a.inbox,
        b.lives == a.lives,
        b.engine.exchanges == a.engine.exchanges,
        m.ty == Type::Confirmable ==> sent_plain(
            a,
            b,
            rst_message(MessageId { raw: m.id }),
            call.peer,
            r,
        ),
        m.ty != Type::Confirmable ==> b == a && r.is_ok(),
{
}

/// Why a call ends before its response: because its deadline has come; or because it waits
/// for a response and its time is over. A call whose reply waits to be fetched, and that
/// observes nothing, does not.
pub proof fn law_overdue<T>(c: Core<T>, live: LiveCall, now_ms: u64)
    ensures
        c.inbox.has(live.call) && !observing(c.engine, live.call) ==> overdue(
            c,
            live,
            now_ms,
        ).is_none(),
        !c.inbox.has(live.call) && (live.deadline_ms matches Some(d) && d <= now_ms) ==> overdue(
            c,
            live,
            now_ms,
        ) == Some(CallFailure::DeadlineExceeded),
        !c.inbox.has(live.call) && !(live.deadline_ms matches Some(d) && d <= now_ms) && live.due_ms
            > 0 && now_ms >= live.due_ms && find_row(
            c.engine.exchanges.rows@,
            live.call.key(),
        ).is_some() ==> overdue(c, live, now_ms) == Some(CallFailure::TimedOut),
        !(live.deadline_ms matches Some(d) && d <= now_ms) && (live.due_ms == 0 || now_ms
            < live.due_ms) ==> overdue(c, live, now_ms).is_none(),
{
}

/// A confirmable request may wait 247 seconds for its response, a non-confirmable one 145.
pub proof fn law_response_lifetime()
    ensures
        response_lifetime(Type::Confirmable) == 247000,
        response_lifetime(Type::NonConfirmable) == 145000,
{
}

/// Observe is 0 to be notified and 1 to be notified no more; a request that wants neither
/// does not carry it.
pub proof fn law_observe_values()
    ensures
        observe_value(OutgoingObserve::Register) == Some(0u32),
        observe_value(OutgoingObserve::Deregister) == Some(1u32),
        observe_value(OutgoingObserve::Off).is_none(),
{
}

/// Which request is refused before anything is looked up: one whose deadline has come; one
/// whose path cannot be sent; one that wants no response to an upload in windows; one
/// that wants notifications but no response.
pub proof fn law_wish_refused<E>(w: Wish<'_>, now_ms: u64)
    ensures
        w.refusal::<E>(now_ms) == Some(Error::<E>::DeadlineElapsed) <==> (w.deadline_ms matches Some(
            d,
        ) && d <= now_ms),
        w.refusal::<E>(now_ms) == Some(Error::<E>::Path) <==> !(w.deadline_ms matches Some(d) && d
            <= now_ms) && w.path.is_err(),
        w.deadline_ms.is_none() && w.path.is_ok() && w.no_response.is_some() && w.q_block1
            ==> w.refusal::<E>(now_ms) == Some(Error::<E>::NoResponseUploadUnsupported),
        w.deadline_ms.is_none() && w.path.is_ok() && (w.no_response matches Some(n) && n.mask != 0)
            && !w.q_block1 && w.observe == OutgoingObserve::Register ==> w.refusal::<E>(now_ms)
            == Some(Error::<E>::NoResponseObserveUnsupported),
        w.deadline_ms.is_none() && w.path.is_ok() && w.no_response.is_none() && w.observe
            == OutgoingObserve::Off ==> w.refusal::<E>(now_ms).is_none(),
{
}

/// A cancellation means the only subscription that it can mean; with none, or several, it is
/// refused.
pub proof fn law_cancellation_chosen<E>(calls: Seq<Call>)
    ensures
        calls.len() == 0 ==> chosen::<E>(calls) == Err::<Call, Error<E>>(
            Error::ObserveCancellationMismatch,
        ),
        calls.len() == 1 ==> chosen::<E>(calls) == Ok::<Call, Error<E>>(calls[0]),
        calls.len() > 1 ==> chosen::<E>(calls) == Err::<Call, Error<E>>(
            Error::ObserveCancellationAmbiguous,
        ),
{
}

/// After a block of a response body the next one in order is asked for, of the same size; of
/// a windowed body, the next window when the current one is full.
pub proof fn law_next_wanted(t: BlockTransfer)
    requires
        t.szx <= 6,
    ensures
        t.next_num < 0x100000 ==> (next_wanted(t, false) matches Some(b) && b.num == t.next_num
            && !b.more && b.szx == t.szx),
        next_wanted(t, true) matches Some(b) ==> b.num == t.window_base && b.more && b.szx == t.szx
            && !t.complete && !t.has(t.window_base as int),
        t.complete ==> next_wanted(t, true).is_none(),
        (exists|k: int|
            t.window_base <= k < t.window_base + 10 && #[trigger] t.has(k)) ==> next_wanted(
            t,
            true,
        ).is_none(),
{
}

/// A block of an upload carries its bytes, its number, whether more follow, its size, the
/// length of the whole body, the path and the queries, under the token of the request.
pub proof fn law_upload_block(
    u: UploadView,
    ty: Type,
    mid: u16,
    tag: Option<Seq<u8>>,
    body: Seq<u8>,
    num: u32,
    szx: u8,
    q_block: bool,
)
    requires
        szx <= 6,
        num < 0x100000,
        num * block_size(szx as int) <= body.len(),
        body.len() <= u32::MAX,
    ensures
        ({
            let m = upload_message(u, ty, mid, tag, body, num, szx, q_block);
            let size = block_size(szx as int);
            let end = if num * size + size < body.len() {
                num * size + size
            } else {
                body.len() as int
            };
            let option: u16 = if q_block {
                19
            } else {
                27
            };
            let other: u16 = if q_block {
                27
            } else {
                19
            };
            &&& m.ty == ty && m.code == u.code && m.id == mid && m.token == u.token
            &&& m.payload == body.subrange(num * size, end)
            &&& values_of(m.options, option) == seq![
                uint_octets(
                    (num * 16 + (if num * size + size < body.len() {
                        8int
                    } else {
                        0
                    }) + szx) as nat,
                ),
            ]
            &&& values_of(m.options, other).len() == 0
            &&& values_of(m.options, 60) == seq![uint_octets(body.len())]
            &&& values_of(m.options, 11) == u.path
            &&& values_of(m.options, 15) == u.queries
            &&& values_of(m.options, 292) == at_most(tag)
        }),
{
    let size = block_size(szx as int);
    let block = BlockValue { num, more: (num + 1) * size < body.len(), szx };
    assert((num + 1) * size == num * size + size) by (nonlinear_arith);
    assert(0 <= num * size) by (nonlinear_arith)
        requires
            0 <= num,
            0 < size,
    ;
    let o = RequestOptsView {
        path: u.path,
        format: u.format,
        queries: u.queries,
        accept: u.accept,
        block1: if q_block {
            None
        } else {
            Some(block)
        },
        q_block1: if q_block {
            Some(block)
        } else {
            None
        },
        size1: Some(body.len() as u32),
        echo: u.echo,
        tag,
        ..super::outbound::no_options()
    };
    super::laws::law_request_options_read_back(o, 27);
    super::laws::law_request_options_read_back(o, 19);
    super::laws::law_request_options_read_back(o, 60);
    super::laws::law_request_options_read_back(o, 11);
    super::laws::law_request_options_read_back(o, 15);
    super::laws::law_request_options_read_back(o, 292);
    assert(at_most(opt_block(Some(block))) =~= seq![uint_octets(block.packed())]);
    assert(at_most(Some(uint_octets(body.len()))) =~= seq![uint_octets(body.len())]);
}

/// A request for missing blocks names each of them once, and repeats the path and the
/// queries of the call; it asks for no acknowledgement and no notifications.
pub proof fn law_recovery_request(
    live: LiveCall,
    token: Seq<u8>,
    mid: u16,
    missing: Seq<u32>,
    szx: u8,
    i: int,
)
    requires
        0 <= i < missing.len(),
        szx <= 7,
    ensures
        ({
            let m = recover_message(Some(live), token, mid, missing, szx);
            &&& m.ty == Type::NonConfirmable && m.code == Code::GET && m.token == token && m.id
                == mid && m.payload.len() == 0
            &&& wanted_blocks(missing, szx).len() == missing.len()
            &&& wanted_blocks(missing, szx)[i] == uint_octets((missing[i] * 16 + szx) as nat)
        }),
{
}

/// Message identifiers are given out one after the other, 0 after 65535.
pub proof fn law_identifiers(mid: u16, k: int)
    requires
        0 <= k,
    ensures
        mid < 65535 ==> following(mid) == mid + 1,
        following(65535) == 0,
        mid_after(mid, 0) == mid,
        mid_after(mid, k + 1) == following(mid_after(mid, k)),
{
}

/// All identifiers may be used once; they are used again 247 seconds after the last one was,
/// while nothing waits for its acknowledgement.
pub proof fn law_identifiers_exhausted(ids: AppIds, e: Engine, now_ms: u64)
    ensures
        ids.issued < 65536 ==> !ids.exhausted(e, now_ms),
        ids.issued == 65536 && now_ms < ids.last_mid_ms + 247000 ==> ids.exhausted(e, now_ms),
        ids.issued == 65536 && now_ms >= ids.last_mid_ms + 247000 ==> (ids.exhausted(e, now_ms)
            <==> exists|i: int| 0 <= i < e.pending@.len() && (#[trigger] e.pending@[i]).is_some()),
{
}

/// The jitter of a timeout is at most a second, and every length of it is as likely as any
/// other: the random numbers that give one are the same many for each.
pub proof fn law_jitter(value: u32)
    ensures
        jitter_in(value) matches Some(j) ==> j <= 1000 && j == value % 1001,
        jitter_in(value).is_some() <==> value < 4294967295int / 1001 * 1001,
{
}

/// A message that waits too long is sent again up to four times; then it is given up, and
/// nothing is sent.
pub proof fn law_sent_again_four_times<T: DatagramIo>(
    a: Core<T>,
    b: Core<T>,
    now_ms: u64,
    r: Result<(), Error<T::Error>>,
    i: int,
)
    requires
        retransmitted(a, b, now_ms, r),
        0 <= i < a.engine.pending@.len(),
        a.engine.pending@[i].is_some(),
        a.engine.pending@[i]->0.due_ms <= now_ms,
        forall|j: int|
            0 <= j < i ==> ((#[trigger] a.engine.pending@[j]) matches Some(p) ==> p.due_ms > now_ms),
        a.engine.wf(),
    ensures
        a.engine.pending@[i]->0.retries < 4 ==> (b.engine.pending@[i] matches Some(p) && p.retries
            == a.engine.pending@[i]->0.retries + 1) && b.engine.store == a.engine.store,
        a.engine.pending@[i]->0.retries < 4 && r.is_ok() ==> b.port.log@.len() == a.port.log@.len()
            + 1 && b.port.log@.drop_last() == a.port.log@ && b.port.log@.last().bytes
            == a.engine.store.tx.slots@[i]->0.bytes@,
        a.engine.pending@[i]->0.retries >= 4 ==> b.engine.pending@[i].is_none()
            && b.engine.store.tx.slots@[i].is_none() && b.port == a.port,
{
    crate::storage::laws::law_first_due(a.engine.pending@, now_ms);
    let p = a.engine.pending@[i]->0;
    if p.retries < 4 && r.is_ok() {
        assert(b.port.log@.drop_last() =~= a.port.log@);
    }
}

/// The subscriptions after a response. A success with a readable Observe to a call that asked
/// for notifications leaves one for the call, if there is a row; an answer to a
/// cancellation, an error, or a success without Observe to a request leaves none. Those of
/// other calls stay as they are.
pub proof fn law_subscriptions(
    rows: Seq<Option<ObserveInterest>>,
    live: LiveCall,
    call: Call,
    meta: ReplyMeta,
    via_exchange: bool,
)
    requires
        unique_keys(rows),
    ensures
        ({
            let then = subscriptions(rows, Some(live), call, meta, via_exchange);
            let numbered = super::calls::readable(
                uint_option(super::calls::owned_opts(meta.options@), 6, 3),
            ).is_some();
            let known = exists|i: int|
                0 <= i < rows.len() && ((#[trigger] rows[i]) matches Some(o) && o.row_key()
                    == call.key());
            &&& then.len() == rows.len()
            &&& live.observe == OutgoingObserve::Deregister || meta.code.raw() / 32 != 2 || !numbered
                ==> (via_exchange || known || live.observe != OutgoingObserve::Off ==> forall|
                i: int,
            |
                0 <= i < then.len() ==> !((#[trigger] then[i]) matches Some(o) && o.row_key()
                    == call.key()))
            &&& live.observe == OutgoingObserve::Register && meta.code.raw() / 32 == 2 && numbered && (
            known || exists|i: int| 0 <= i < rows.len() && (#[trigger] rows[i]).is_none()) ==> exists|
                i: int,
            |
                0 <= i < then.len() && ((#[trigger] then[i]) matches Some(o) && o.token@
                    == call.token@ && o.peer == call.peer && o.client)
            &&& forall|i: int|
                0 <= i < rows.len() && ((#[trigger] rows[i]) matches Some(o) && o.row_key()
                    != call.key()) ==> then[i] == rows[i]
        }),
{
    let key = call.key();
    let then = subscriptions(rows, Some(live), call, meta, via_exchange);
    lemma_find_row(rows, key);
    lemma_free_row(rows);
    match find_row(rows, key) {
        Some(i) => {
            assert forall|j: int| 0 <= j < rows.len() && j != i implies !((
            #[trigger] rows[j]) matches Some(o) && o.row_key() == key) by {
                if rows[j].is_some() {
                    if i < j {
                        assert(rows[i]->0.row_key() != rows[j]->0.row_key());
                    } else {
                        assert(rows[j]->0.row_key() != rows[i]->0.row_key());
                    }
                }
            }
        },
        None => {},
    }
    match crate::storage::table::place_row(rows, key) {
        Some(i) => {
            let o = super::complete::subscription(call, meta);
            assert(o.row_key() == key);
            if then == rows.update(i, Some(o)) {
                assert(then[i] == Some(o));
            }
        },
        None => {},
    }
}

/// Sending one message: it goes to its peer once, as it is encoded; or nothing is sent: when
/// no outgoing slot is free, when it cannot be encoded or is too long for a slot, or when
/// it is to be confirmed and the peer has another outstanding.
pub proof fn law_one_message<T: DatagramIo>(
    before: Engine,
    after: Engine,
    port: crate::storage::io::Port<T>,
    port_after: crate::storage::io::Port<T>,
    m: MessageView,
    dest: Endpoint,
    confirm: Option<crate::storage::engine::Confirm>,
    r: Result<(), Error<T::Error>>,
)
    requires
        before.wf(),
        delivered(before, after, port, port_after, m, dest, confirm, r),
    ensures
        ({
            let free = exists|i: int|
                0 <= i < before.store.tx.slots@.len() && (
                #[trigger] before.store.tx.slots@[i]).is_none();
            let fits = crate::message::wire::encode_fault(m).is_none() && wire(m).len()
                <= before.store.tx.slot_bytes;
            let busy = confirm.is_some() && exists|i: int|
                0 <= i < before.pending@.len() && ((#[trigger] before.pending@[i]) matches Some(p)
                    && p.peer == dest);
            &&& free && fits && !busy ==> port_after.log@.len() == port.log@.len() + 1
                && port_after.log@.drop_last() == port.log@ && port_after.log@.last().dest == dest
                && port_after.log@.last().bytes == wire(m) && port_after.log@.last().ok == r.is_ok()
            &&& !free || !fits || busy ==> r.is_err() && port_after.log@ == port.log@
            &&& free && fits && !busy && r.is_ok() && confirm.is_some() ==> exists|i: int|
                0 <= i < after.pending@.len() && ((#[trigger] after.pending@[i]) matches Some(p)
                    && p.peer == dest && p.mid == confirm->0.mid && p.retries == 0)
            &&& confirm.is_none() ==> after.pending@ == before.pending@
        }),
{
    lemma_free_row(before.store.tx.slots@);
    crate::storage::laws::law_outstanding(before.pending@, dest);
    match crate::storage::engine::stage_verdict(before, m) {
        Ok(at) => {
            if port_after.log@.len() == port.log@.len() + 1 {
                assert(port_after.log@.drop_last() =~= port.log@);
            }
            if r.is_ok() && confirm.is_some() {
                assert(after.pending@[at].is_some());
            }
        },
        Err(_) => {},
    }
}

/// A subscription is fresh for as long as the Max-Age of the response says, 60 seconds if it
/// says nothing, from when it came in.
pub proof fn law_subscription_lifetime(call: Call, meta: ReplyMeta)
    requires
        meta.received_at <= 0x1_0000_0000_0000,
    ensures
        ({
            let o = super::complete::subscription(call, meta);
            let age = super::calls::readable(
                uint_option(super::calls::owned_opts(meta.options@), 14, 4),
            );
            &&& o.token == call.token && o.peer == call.peer && o.client
            &&& o.lifetime matches Some(l) && l.due_ms == meta.received_at + (match age {
                Some(s) => s * 1000,
                None => 60000,
            })
        }),
{
}

/// The acknowledgement of a block of an ordered upload leads to the next block, after which
/// the request waits for its response again; after the last block there is nothing to send.
/// In an upload in windows the acknowledged block moves the window behind it; one that did
/// not go out yet is an error.
pub proof fn law_upload_goes_on<T: DatagramIo>(
    a: Core<T>,
    b: Core<T>,
    m: MessageView,
    peer: Endpoint,
    id: crate::storage::endpoint::SlotId,
    now_ms: u64,
    r: Result<(), Error<T::Error>>,
)
    requires
        super::upload::upload_continued(a, b, m, peer, id, now_ms, r),
        a.engine.tx_transfer(id).is_some(),
    ensures
        ({
            let t = a.engine.tx_transfer(id)->0;
            &&& t.complete ==> b == a && r.is_ok()
            &&& !t.complete && t.role != crate::storage::transfer::BlockRole::OutgoingBlock1 && (
            block_option(m.options, 19) matches Some(Ok(q)) && q.num >= t.next_num) ==> r == Err::<
                (),
                Error<T::Error>,
            >(Error::Block(crate::error::BlockTransferError::OutsideWindow)) && b == a
            &&& !t.complete && t.role == crate::storage::transfer::BlockRole::OutgoingBlock1
                ==> exists|c: Core<T>, u: UploadView|
                u.dest == peer && u.token == m.token && c.engine.tx_body(id) == a.engine.tx_body(id)
                    && c.engine.tx_transfer(id) == a.engine.tx_transfer(id)
                    && #[trigger] super::upload::block1_issued(c, b, u, id, now_ms, r)
        }),
{
}

/// The counters of observations count those that a request begins, ends or renews.
pub proof fn law_observations_counted(
    m: crate::storage::metrics::Metrics,
    rows: Seq<Option<ObserveInterest>>,
    plan: super::notify::ObservePlan,
    peer: Endpoint,
    r: super::response::ResponseView,
)
    requires
        m.observe_register < u32::MAX && m.observe_cancel < u32::MAX,
    ensures
        ({
            let then = super::notify::observe_counted(m, rows, plan, peer, r);
            let known = exists|i: int|
                0 <= i < rows.len() && ((#[trigger] rows[i]) matches Some(o) && !o.client && o.token@
                    == plan.token@ && o.peer == peer);
            &&& then.observe_register == m.observe_register + (if super::notify::registers_at(
                rows,
                plan,
                peer,
                r,
            ).is_some() {
                1int
            } else {
                0
            })
            &&& then.observe_cancel == m.observe_cancel + (if (plan.register || plan.deregister)
                && known {
                1int
            } else {
                0
            })
            &&& then.observe_notify == m.observe_notify
        }),
{
    let key = plan.key(peer);
    lemma_find_row(rows, key);
    match find_row(rows, key) {
        Some(i) => {
            assert(rows[i].is_some());
        },
        None => {
            assert forall|i: int| 0 <= i < rows.len() implies !((#[trigger] rows[i]) matches Some(o)
                && !o.client && o.token@ == plan.token@ && o.peer == peer) by {
                assert(rows[i] matches Some(o) ==> o.row_key() != key);
            }
        },
    }
}

} // verus!
