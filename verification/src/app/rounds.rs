//! What a turn of the reactor and a round of notifications do, and within which bounds.
use vstd::prelude::*;

use super::calls::{kept_paths, kept_queries, meta_fits, queries_fit, total_len, Call, CallFailure};
use super::complete::completed;
use super::ending::call_failed;
use super::error::Error;
use super::inbound::{bad_options, selected, selections_valid};
use super::inbox::OutgoingObserve;
use super::notify::{observer_notified, restored_rows, round_step};
use super::path::texts_of;
use super::poll::{answers_expired, due_notified, source_says};
use super::reactor::Core;
use super::reply::notification_message;
use super::respond::continue_fault;
use super::response::ResponseView;
use super::send::{rst_message, sent_plain};
use super::serve::{option_refusal, refused_block, uploaded_block};
use super::site::Site;
use super::turn::{datagram_handled, emptied, request_handled};
use super::upload::followup_message;
use super::wish::{cancellable, place_refusal, records, Wish};
use crate::error::BlockTransferError;
use crate::message::fields::{block_option, first_value, values_of};
use crate::message::laws::{law_first_value, present};
use crate::message::wire::{read_message, MessageView};
use crate::message::{BlockValue, Code, MessageId, Type};
use crate::storage::endpoint::{Endpoint, SlotId};
use crate::storage::engine::Engine;
use crate::storage::io::DatagramIo;
use crate::storage::observe::notify_blocked;
use crate::storage::rows::ObserveInterest;

verus! {

/// A datagram that is no message is counted, and nothing else happens. An empty confirmable
/// message is rejected by a reset with its identifier; an empty non-confirmable one is
/// passed over. Any other code that is no request is taken for a response.
pub proof fn law_datagram_kinds<T: DatagramIo, const N: usize>(
    a: Core<T>,
    b: Core<T>,
    site: Site<N>,
    policy: Option<Box<dyn super::echo::EchoPolicy>>,
    bytes: Seq<u8>,
    peer: Endpoint,
    now_ms: u64,
    r: Result<(), Error<T::Error>>,
)
    requires
        datagram_handled(a, b, site, policy, bytes, peer, now_ms, r),
    ensures
        read_message(bytes).is_err() ==> r.is_ok() && b.port == a.port && b.engine.store
            == a.engine.store && b.engine.pending == a.engine.pending && b.inbox == a.inbox
            && b.lives == a.lives && (a.engine.metrics.rx_error < u32::MAX
            ==> b.engine.metrics.rx_error == a.engine.metrics.rx_error + 1),
        read_message(bytes) matches Ok(m) ==> {
            &&& m.code.raw() == 0 && m.ty == Type::Confirmable ==> sent_plain(
                a,
                b,
                rst_message(MessageId { raw: m.id }),
                peer,
                r,
            )
            &&& m.code.raw() == 0 && m.ty == Type::NonConfirmable ==> b == a && r.is_ok()
            &&& m.code.raw() == 0 && (m.ty == Type::Acknowledgement || m.ty == Type::Reset)
                ==> emptied(a, b, m, peer) && r.is_ok()
            &&& m.code.raw() / 32 == 0 && m.code.raw() % 32 != 0 ==> request_handled(
                a,
                b,
                site,
                policy,
                m,
                peer,
                now_ms,
                r,
            )
            &&& m.code.raw() / 32 > 0 ==> exists|call: Call|
                call.peer == peer && call.token@ == m.token && #[trigger] completed(
                    a,
                    b,
                    call,
                    m,
                    now_ms,
                    r,
                )
        },
{
}

/// A request that is not confirmable is served whenever it comes; a confirmable one is served
/// only if no answer to it is kept.
pub proof fn law_request_served_or_replayed<T: DatagramIo, const N: usize>(
    a: Core<T>,
    b: Core<T>,
    site: Site<N>,
    policy: Option<Box<dyn super::echo::EchoPolicy>>,
    m: MessageView,
    peer: Endpoint,
    now_ms: u64,
    r: Result<(), Error<T::Error>>,
)
    requires
        request_handled(a, b, site, policy, m, peer, now_ms, r),
    ensures
        m.ty != Type::Confirmable ==> super::serve::request_served(
            a,
            b,
            site,
            policy,
            m,
            peer,
            now_ms,
            r,
        ),
{
}

/// An empty acknowledgement or reset ends the wait of the message that it is about, and frees
/// its slot; other messages wait on.
pub proof fn law_empty_settles<T>(a: Core<T>, b: Core<T>, m: MessageView, peer: Endpoint, i: int)
    requires
        emptied(a, b, m, peer),
        m.ty == Type::Acknowledgement,
        a.engine.wf(),
        0 <= i < a.engine.pending@.len(),
    ensures
        (a.engine.pending@[i] matches Some(p) && p.mid.raw == m.id && p.peer == peer)
            ==> b.engine.pending@[i].is_none() && b.engine.store.tx.slots@[i].is_none(),
        !(a.engine.pending@[i] matches Some(p) && p.mid.raw == m.id && p.peer == peer)
            ==> b.engine.pending@[i] == a.engine.pending@[i],
        b.inbox == a.inbox,
        b.lives == a.lives,
        b.port == a.port,
        b.engine.exchanges == a.engine.exchanges,
{
    let mid = MessageId { raw: m.id };
    assert(a.engine.pending@[i] matches Some(p) ==> (p.mid == mid <==> p.mid.raw == m.id));
}

/// Kept answers whose time has come are forgotten at the start of a turn, and no others; so
/// is the mark of a request that must not run twice.
pub proof fn law_answers_expire<T>(a: Core<T>, b: Core<T>, now_ms: u64, i: int)
    requires
        answers_expired(a, b, now_ms),
        0 <= i < a.engine.store.dedup.rows@.len(),
    ensures
        (a.engine.store.dedup.rows@[i] matches Some(d) && d.due_ms > 0 && now_ms >= d.due_ms)
            ==> b.engine.store.dedup.rows@[i].is_none(),
        !(a.engine.store.dedup.rows@[i] matches Some(d) && d.due_ms > 0 && now_ms >= d.due_ms)
            ==> b.engine.store.dedup.rows@[i] == a.engine.store.dedup.rows@[i],
        (a.closed matches Some(c) && c.due_ms > 0 && now_ms >= c.due_ms) ==> b.closed.is_none(),
        !(a.closed matches Some(c) && c.due_ms > 0 && now_ms >= c.due_ms) ==> b.closed == a.closed,
        b.port == a.port,
        b.lives == a.lives,
        b.inbox == a.inbox,
{
}

/// An observer that was told that the resource is gone is told 4.04, whatever the source of
/// its route would say; without a source there is nothing to say.
pub proof fn law_source_says<const N: usize>(
    site: Site<N>,
    interest: ObserveInterest,
    r: Option<ResponseView>,
)
    requires
        source_says(site, interest, r),
    ensures
        interest.deleted ==> (r matches Some(x) && x.code == Code::NOT_FOUND && x.payload.len()
            == 0),
        !interest.deleted && site.source_of(interest.resource).is_none() ==> r.is_none(),
        !interest.deleted && site.source_of(interest.resource).is_some() ==> r.is_some(),
{
}

/// An observer is notified in a turn only if a notification is due for it and nothing holds
/// its peer back; else nothing happens.
pub proof fn law_due_observer<T: DatagramIo, const N: usize>(
    a: Core<T>,
    b: Core<T>,
    site: Site<N>,
    id: SlotId,
    now_ms: u64,
    r: Result<(), Error<T::Error>>,
)
    requires
        due_notified(a, b, site, Some(id), now_ms, r),
        a.engine.store.observe.rows@[id.at as int].is_some(),
    ensures
        ({
            let o = a.engine.store.observe.rows@[id.at as int]->0;
            o.client || !o.pending || o.held(now_ms) || notify_blocked(a.engine, o.peer, now_ms)
                ==> b == a && r.is_ok()
        }),
{
}

/// A round of notifications passes over everyone who does not watch the route, and over an
/// observer whose peer is held back; any other is sent one notification, with the next
/// number.
pub proof fn law_round_step<T: DatagramIo>(
    a: Core<T>,
    b: Core<T>,
    i: int,
    route: usize,
    r: ResponseView,
    now_ms: u64,
    sent: nat,
    failure: Option<Error<T::Error>>,
)
    requires
        round_step(a, b, i, Some(route), r, now_ms, sent, failure),
        0 <= i < a.engine.store.observe.rows@.len(),
    ensures
        ({
            let row = a.engine.store.observe.rows@[i];
            let watching = row.is_some() && !row->0.client && row->0.resource == Some(route);
            &&& !watching ==> b == a && sent == 0 && failure.is_none()
            &&& watching && notify_blocked(a.engine, row->0.peer, now_ms) ==> sent == 0 && b.port
                == a.port && b.engine.store == a.engine.store && failure.is_none()
            &&& watching && !notify_blocked(a.engine, row->0.peer, now_ms) ==> sent == 1 && exists|
                c: Core<T>,
                next: ObserveInterest,
                res: Result<(), Error<T::Error>>,
            |
                next.token == row->0.token && next.peer == row->0.peer && (row->0.seq < 0xffffff
                    ==> next.seq == row->0.seq + 1) && #[trigger] observer_notified(
                    c,
                    b,
                    next,
                    r,
                    next.seq,
                    now_ms,
                    res,
                )
        }),
{
}

/// An observer whose notification failed is due again, with the number that it had before;
/// the others are left alone.
pub proof fn law_due_again(rows: Seq<Option<ObserveInterest>>, i: int, seq: u32)
    requires
        0 <= i < rows.len(),
        0 < seq < 0x1000000,
    ensures
        (rows[i] matches Some(o) && o.seq == seq) ==> (restored_rows(rows, i, seq)[i] matches Some(n)
            && n.pending && n.seq == seq - 1 && n.token == rows[i]->0.token && n.peer
            == rows[i]->0.peer && n.deleted == rows[i]->0.deleted),
        !(rows[i] matches Some(o) && o.seq == seq) ==> restored_rows(rows, i, seq) == rows,
        forall|j: int|
            0 <= j < rows.len() && j != i ==> #[trigger] restored_rows(rows, i, seq)[j] == rows[j],
{
}

/// A notification carries the ETag, the number in Observe, the format and the Max-Age of the
/// response, and nothing else but its payload.
pub proof fn law_notification_options(r: ResponseView, ty: Type, mid: u16, token: Seq<u8>)
    ensures
        ({
            let m = notification_message(r, ty, mid, token);
            &&& m.ty == ty && m.id == mid && m.token == token && m.code == r.code && m.payload
                == r.payload
            &&& values_of(m.options, 4) == super::laws::at_most(r.etag)
            &&& values_of(m.options, 6) == super::laws::at_most(
                super::reply::opt_observe(r.observe),
            )
            &&& values_of(m.options, 12) == super::laws::at_most(super::reply::opt_format(r.format))
            &&& values_of(m.options, 14) == super::laws::at_most(super::reply::opt_uint(r.max_age))
        }),
{
    let z = Seq::<crate::message::option::OptView>::empty();
    assert forall|number: u16|
        number == 4 || number == 6 || number == 12 || number == 14 implies #[trigger] values_of(
        notification_message(r, ty, mid, token).options,
        number,
    ) == (if number == 4 {
        super::laws::at_most(r.etag)
    } else if number == 6 {
        super::laws::at_most(super::reply::opt_observe(r.observe))
    } else if number == 12 {
        super::laws::at_most(super::reply::opt_format(r.format))
    } else {
        super::laws::at_most(super::reply::opt_uint(r.max_age))
    }) by {
        let a = super::reply::with_opt(z, 4, r.etag);
        super::laws::lemma_values_with(z, 4, r.etag, number);
        let b = super::reply::with_opt(a, 6, super::reply::opt_observe(r.observe));
        super::laws::lemma_values_with(a, 6, super::reply::opt_observe(r.observe), number);
        let c = super::reply::with_opt(b, 12, super::reply::opt_format(r.format));
        super::laws::lemma_values_with(b, 12, super::reply::opt_format(r.format), number);
        super::laws::lemma_values_with(c, 14, super::reply::opt_uint(r.max_age), number);
        assert(values_of(z, number) =~= Seq::<Seq<u8>>::empty());
        assert(values_of(notification_message(r, ty, mid, token).options, number)
            =~= super::laws::at_most(
            if number == 4 {
                r.etag
            } else if number == 6 {
                super::reply::opt_observe(r.observe)
            } else if number == 12 {
                super::reply::opt_format(r.format)
            } else {
                super::reply::opt_uint(r.max_age)
            },
        ));
    }
}

/// More reasons for which a request is refused with 4.02: an ordered block option together
/// with a windowed one; two windowed blocks of an upload; several selected blocks together
/// with Observe, or one of which names a whole window; a selected block that cannot be read
/// or is of the reserved size.
pub proof fn law_block_options_refused(m: MessageView, i: int)
    requires
        !present(m.options, 35) && !present(m.options, 39),
        0 <= i < values_of(m.options, 31).len(),
    ensures
        present(m.options, 23) || present(m.options, 27) ==> (option_refusal(m) matches Some(r)
            && r.code == Code::BAD_OPTION),
        values_of(m.options, 31).len() > 1 && present(m.options, 6) ==> (option_refusal(m)
            matches Some(r) && r.code == Code::BAD_OPTION),
        BlockValue::of_octets(values_of(m.options, 31)[i]).is_err() ==> (option_refusal(m)
            matches Some(r) && r.code == Code::BAD_OPTION),
        (BlockValue::of_octets(values_of(m.options, 31)[i]) matches Ok(b) && b.szx == 7) ==> (
        option_refusal(m) matches Some(r) && r.code == Code::BAD_OPTION),
        values_of(m.options, 31).len() > 1 && (BlockValue::of_octets(values_of(m.options, 31)[i])
            matches Ok(b) && b.more && b.num % 10 == 0) ==> (option_refusal(m) matches Some(r)
            && r.code == Code::BAD_OPTION),
{
    reveal(bad_options);
    law_first_value(m.options, 35);
    law_first_value(m.options, 39);
    law_first_value(m.options, 23);
    law_first_value(m.options, 27);
    law_first_value(m.options, 6);
    assert(selected(m, i) == BlockValue::of_octets(values_of(m.options, 31)[i]));
}

/// A request with an upload in windows whose length cannot be read, or with selected blocks
/// that are not in ascending order or not of one size, is refused with 4.00, if there is no
/// other reason.
pub proof fn law_bad_request(m: MessageView, i: int)
    requires
        !present(m.options, 35) && !present(m.options, 39),
        !bad_options(m),
    ensures
        present(m.options, 19) && (first_value(m.options, 60) matches Some(v) && v.len() > 4) ==> (
        option_refusal(m) matches Some(r) && r.code == Code::BAD_REQUEST),
        0 <= i < values_of(m.options, 31).len() - 1 && (selected(m, i) matches Ok(a) && (selected(
            m,
            i + 1,
        ) matches Ok(b) && (b.num <= a.num || b.szx != a.szx))) ==> (option_refusal(m) matches Some(
            r,
        ) && r.code == Code::BAD_REQUEST),
{
    law_first_value(m.options, 35);
    law_first_value(m.options, 39);
    law_first_value(m.options, 19);
    if 0 <= i < values_of(m.options, 31).len() - 1 && (selected(m, i) matches Ok(a) && (selected(
        m,
        i + 1,
    ) matches Ok(b) && (b.num <= a.num || b.szx != a.szx))) {
        let j = i + 1;
        assert(!selections_valid(m)) by {
            if selections_valid(m) {
                assert(selected(m, i)->Ok_0.num < selected(m, j)->Ok_0.num && selected(
                    m,
                    i,
                )->Ok_0.szx == selected(m, j)->Ok_0.szx);
            }
        }
    }
}

/// The answer to a request with a block of an ordered upload names that block in Block1.
pub proof fn law_acknowledged_block(m: MessageView, b: BlockValue)
    ensures
        (block_option(m.options, 27) matches Some(Ok(o)) && o == b) ==> (uploaded_block(m)
            matches Some(u) && u.value == b && !u.q_block),
        !(block_option(m.options, 27) matches Some(Ok(_))) ==> uploaded_block(m).is_none(),
        present(m.options, 35) || present(m.options, 39) || bad_options(m) ==> refused_block(
            m,
        ).is_none(),
{
    law_first_value(m.options, 35);
    law_first_value(m.options, 39);
}

/// Why a transfer in windows cannot go on: the response is another one than the body that
/// goes out; the size that is asked for is another; single blocks are asked for that the
/// body does not have; or a window is asked for before the one in front of it went out.
pub proof fn law_continue_fault(
    e: Engine,
    answer: super::answer::Answer,
    r: ResponseView,
    id: SlotId,
)
    requires
        e.tx_transfer(id).is_some(),
    ensures
        ({
            let t = e.tx_transfer(id)->0;
            let sel = answer.selections@;
            let same = t.key.identity@ == r.etag && e.tx_body(id) == r.payload;
            &&& !same <==> continue_fault(e, answer, r, id) == Some(
                BlockTransferError::IdentityMismatch,
            )
            &&& same && sel.len() > 0 && sel[0].szx != t.szx <==> continue_fault(
                e,
                answer,
                r,
                id,
            ) == Some(BlockTransferError::SzxMismatch)
            &&& same && sel.len() == 0 ==> continue_fault(e, answer, r, id).is_none()
            &&& same && sel.len() == 1 && sel[0].szx == t.szx && sel[0].more && sel[0].num % 10 == 0
                ==> continue_fault(e, answer, r, id) == (if sel[0].num > t.next_num {
                Some(BlockTransferError::OutsideWindow)
            } else {
                None
            })
        }),
{
}

/// Why a call is refused: there is no room for it; an upload in windows has no Request-Tag;
/// its Request-Tag is in use at that peer; its queries are more than eight, longer than 255
/// octets, or more than 256 octets in all.
pub proof fn law_call_refused<T: DatagramIo>(c: Core<T>, w: Wish<'_>, call: Call)
    ensures
        !c.lives.admits(call) <==> place_refusal::<T>(c, w, call) == Some(
            Error::<T::Error>::Saturated,
        ),
        c.lives.admits(call) && w.q_block1 && w.request_tag@.is_none() <==> place_refusal::<T>(
            c,
            w,
            call,
        ) == Some(Error::<T::Error>::RequestTagRequired),
        c.lives.admits(call) && w.observe != OutgoingObserve::Deregister && w.request_tag@.is_some()
            && (exists|i: int|
            0 <= i < c.lives.rows.rows@.len() && ((#[trigger] c.lives.rows.rows@[i]) matches Some(l)
                && l.call.peer == call.peer && l.request_tag@ == w.request_tag@)) ==> place_refusal::<
            T,
        >(c, w, call) == Some(Error::<T::Error>::RequestTagInUse),
        c.lives.admits(call) && !w.q_block1 && w.request_tag@.is_none() && queries_fit(
            texts_of(w.queries@),
        ) ==> place_refusal::<T>(c, w, call).is_none(),
{
    if exists|i: int|
        0 <= i < c.lives.rows.rows@.len() && ((#[trigger] c.lives.rows.rows@[i]) matches Some(l)
            && l.call.peer == call.peer && l.request_tag@ == w.request_tag@) {
        let i = choose|i: int|
            0 <= i < c.lives.rows.rows@.len() && ((#[trigger] c.lives.rows.rows@[i]) matches Some(l)
                && l.call.peer == call.peer && l.request_tag@ == w.request_tag@);
        assert(super::inbox::tag_conflict(c.lives.rows.rows@[i], call.peer, w.request_tag));
    }
}

/// Which queries can be kept: up to eight, each of at most 255 octets, 256 octets in all.
pub proof fn law_queries_fit(a: Seq<Seq<u8>>, b: Seq<Seq<u8>>, v: Seq<u8>)
    ensures
        total_len(Seq::empty()) == 0,
        total_len(seq![v]) == v.len(),
        total_len(a + b) == total_len(a) + total_len(b),
        queries_fit(a) <==> a.len() <= 8 && total_len(a) <= 256 && forall|i: int|
            0 <= i < a.len() ==> (#[trigger] a[i]).len() <= 255,
    decreases b.len(),
{
    reveal_with_fuel(total_len, 2);
    assert(seq![v].drop_last() =~= Seq::<Seq<u8>>::empty());
    if b.len() == 0 {
        assert(a + b =~= a);
    } else {
        law_queries_fit(a, b.drop_last(), v);
        assert((a + b).drop_last() =~= a + b.drop_last());
    }
}

/// Which responses can be kept: those with at most 24 options, eight Location-Path and eight
/// Location-Query values, whose header and options take at most 512 octets.
pub proof fn law_response_fits(m: MessageView)
    ensures
        meta_fits(m) ==> m.options.len() <= 24 && values_of(m.options, 8).len() <= 8 && values_of(
            m.options,
            20,
        ).len() <= 8,
        m.options.len() > 24 ==> !meta_fits(m),
        m.options.len() == 0 && m.token.len() <= 8 && m.code.raw() != 0 ==> meta_fits(m),
{
    if m.options.len() == 0 && m.token.len() <= 8 {
        let h = super::calls::header_of(m);
        assert(crate::message::wire::wire(h).len() <= 12);
    }
}

/// The locations of a response that are kept are those that are text, at most 255 octets
/// long and, in a path, not "." or ".."; in their order.
pub proof fn law_kept_locations(values: Seq<Seq<u8>>)
    ensures
        kept_paths(values) == values.filter(
            |v: Seq<u8>|
                vstd::utf8::valid_utf8(v) && v.len() <= 255 && v != seq![0x2eu8] && v
                    != seq![0x2eu8, 0x2eu8],
        ),
        kept_queries(values) == values.filter(
            |v: Seq<u8>| vstd::utf8::valid_utf8(v) && v.len() <= 255,
        ),
    decreases values.len(),
{
    reveal(Seq::filter);
    if values.len() > 0 {
        law_kept_locations(values.drop_last());
    } else {
        assert(kept_paths(values) =~= values.filter(
            |v: Seq<u8>|
                vstd::utf8::valid_utf8(v) && v.len() <= 255 && v != seq![0x2eu8] && v
                    != seq![0x2eu8, 0x2eu8],
        ));
        assert(kept_queries(values) =~= values.filter(
            |v: Seq<u8>| vstd::utf8::valid_utf8(v) && v.len() <= 255,
        ));
    }
}

/// What is recorded of a request that was sent: what it asks for, that no notification came
/// yet, and until when it may wait: 247 seconds if it is confirmable, else 145.
pub proof fn law_call_recorded(
    l: super::inbox::LiveCall,
    w: Wish<'_>,
    call: Call,
    now_ms: u64,
)
    requires
        records(l, w, call, now_ms),
        now_ms <= 0x1_0000_0000_0000,
    ensures
        l.call == call,
        w.ty == Type::Confirmable ==> l.due_ms == now_ms + 247000,
        w.ty == Type::NonConfirmable ==> l.due_ms == now_ms + 145000,
        l.deadline_ms == w.deadline_ms,
        l.observed.is_none(),
        l.observe == w.observe,
        l.code == w.code,
        w.observe == OutgoingObserve::Off ==> l.identity@.len() == 0,
{
}

/// A cancellation can mean only a live subscription at its peer that was asked for in the
/// same way, and, if a call is named, only that one.
pub proof fn law_cancellable<T>(
    c: Core<T>,
    rows: Seq<Option<super::inbox::LiveCall>>,
    identity: Seq<u8>,
    dest: Endpoint,
    named: Option<Call>,
    k: int,
)
    requires
        0 <= k < cancellable(c, rows, identity, dest, named).len(),
    ensures
        exists|i: int|
            0 <= i < rows.len() && ((#[trigger] rows[i]) matches Some(l) && l.call == cancellable(
                c,
                rows,
                identity,
                dest,
                named,
            )[k] && l.observe == OutgoingObserve::Register && l.call.peer == dest && l.identity@
                == identity && (named matches Some(s) ==> s.key() == l.call.key())),
    decreases rows.len(),
{
    let front = cancellable(c, rows.drop_last(), identity, dest, named);
    if k < front.len() {
        law_cancellable(c, rows.drop_last(), identity, dest, named, k);
        let i = choose|i: int|
            0 <= i < rows.len() - 1 && ((#[trigger] rows.drop_last()[i]) matches Some(l) && l.call
                == front[k] && l.observe == OutgoingObserve::Register && l.call.peer == dest
                && l.identity@ == identity && (named matches Some(s) ==> s.key() == l.call.key()));
        assert(rows[i] == rows.drop_last()[i]);
    } else {
        assert(rows[rows.len() - 1] == rows.last());
    }
}

/// A request for further blocks of a response repeats method, path and queries of the call
/// under its token, and names the block that is wanted.
pub proof fn law_followup(
    l: super::inbox::LiveCall,
    token: Seq<u8>,
    mid: u16,
    block2: Option<BlockValue>,
    q_block2: Option<BlockValue>,
)
    ensures
        ({
            let m = followup_message(Some(l), token, mid, block2, q_block2);
            &&& m.ty == l.ty && m.code == l.code && m.token == token && m.id == mid
                && m.payload.len() == 0
            &&& values_of(m.options, 11) == texts_of(l.path@)
            &&& values_of(m.options, 15) == l.queries@
            &&& values_of(m.options, 23) == super::laws::at_most(super::reply::opt_block(block2))
            &&& values_of(m.options, 31) == super::laws::at_most(super::reply::opt_block(q_block2))
            &&& l.observe != OutgoingObserve::Register ==> values_of(m.options, 6).len() == 0
        }),
{
    let o = super::outbound::RequestOptsView {
        observe: if l.observe == OutgoingObserve::Register {
            Some(0)
        } else {
            None
        },
        path: texts_of(l.path@),
        queries: l.queries@,
        accept: l.accept,
        block2,
        q_block2,
        no_response: l.no_response,
        echo: super::upload::echo_octets(l.echo),
        tag: l.request_tag@,
        ..super::outbound::no_options()
    };
    super::laws::law_request_options_read_back(o, 11);
    super::laws::law_request_options_read_back(o, 15);
    super::laws::law_request_options_read_back(o, 23);
    super::laws::law_request_options_read_back(o, 31);
    super::laws::law_request_options_read_back(o, 6);
}

/// A call that failed is fetched as that failure, and nothing of its response is kept: no
/// body of it that came in, no request that waits, no subscription. Other bodies stay.
pub proof fn law_failed_call<T>(
    a: Core<T>,
    b: Core<T>,
    call: Call,
    failure: CallFailure,
    release: bool,
    i: int,
)
    requires
        call_failed(a, b, call, failure, release),
        a.engine.store.bodies.is_some(),
        0 <= i < a.engine.store.bodies->0.rx.slots@.len(),
    ensures
        (a.engine.store.bodies->0.rx.slots@[i] matches Some(s) && s.transfer.key.token@
            == call.token@ && s.transfer.key.peer == call.peer && (s.transfer.role
            == crate::storage::transfer::BlockRole::IncomingBlock2 || s.transfer.role
            == crate::storage::transfer::BlockRole::IncomingQBlock2)) ==> (
        b.engine.store.bodies matches Some(p) && p.rx.slots@[i].is_none()),
        b.port == a.port,
        b.ids == a.ids,
{
}

/// What is counted: a datagram that came in; a turn; an empty acknowledgement or reset.
pub proof fn law_turn_counters<T: DatagramIo>(
    a: Core<T>,
    b: Core<T>,
    got: Result<Option<SlotId>, crate::storage::io::DatagramIoError<T::Error>>,
    m: crate::storage::metrics::Metrics,
)
    requires
        super::poll::datagram_received(a, b, got),
        a.engine.metrics.rx_accepted < u32::MAX && a.engine.metrics.saturated < u32::MAX,
        m.empty_ack < u32::MAX && m.empty_rst < u32::MAX,
    ensures
        got matches Ok(Some(_)) ==> b.engine.metrics.rx_accepted == a.engine.metrics.rx_accepted + 1
            && b.engine.metrics.saturated == a.engine.metrics.saturated,
        got matches Ok(None) ==> b.engine.metrics == a.engine.metrics,
        (forall|i: int|
            0 <= i < a.engine.store.rx.slots@.len() ==> (
            #[trigger] a.engine.store.rx.slots@[i]).is_some()) ==> got.is_err()
            && b.engine.metrics.saturated == a.engine.metrics.saturated + 1
            && b.engine.metrics.rx_accepted == a.engine.metrics.rx_accepted && b.port == a.port,
        super::turn::empty_counted(m, Type::Acknowledgement).empty_ack == m.empty_ack + 1,
        super::turn::empty_counted(m, Type::Acknowledgement).empty_rst == m.empty_rst,
        super::turn::empty_counted(m, Type::Reset).empty_rst == m.empty_rst + 1,
        super::turn::empty_counted(m, Type::Reset).empty_ack == m.empty_ack,
{
    crate::storage::table::lemma_free_row(a.engine.store.rx.slots@);
}

/// What is counted: a message that is sent again, and one that is given up.
pub proof fn law_retransmissions_counted<T: DatagramIo>(
    a: Core<T>,
    b: Core<T>,
    now_ms: u64,
    r: Result<(), Error<T::Error>>,
)
    requires
        super::poll::retransmitted(a, b, now_ms, r),
        a.engine.metrics.con_retransmit < u32::MAX,
        a.engine.metrics.tx_ok < u32::MAX && a.engine.metrics.tx_fail < u32::MAX,
    ensures
        (match crate::storage::engine::first_due(a.engine.pending@, now_ms) {
            None => b.engine.metrics == a.engine.metrics,
            Some(i) => if a.engine.pending@[i]->0.retries < 4 {
                b.engine.metrics.con_retransmit == a.engine.metrics.con_retransmit + 1
                    && b.engine.metrics.give_up == a.engine.metrics.give_up && (r.is_ok()
                    ==> b.engine.metrics.tx_ok == a.engine.metrics.tx_ok + 1)
            } else {
                b.engine.metrics.con_retransmit == a.engine.metrics.con_retransmit
                    && b.engine.metrics.tx_ok == a.engine.metrics.tx_ok && (a.engine.metrics.give_up
                    < u32::MAX ==> b.engine.metrics.give_up == a.engine.metrics.give_up + 1)
            },
        }),
{
}

/// What is counted: a block of an ordered upload that is taken.
pub proof fn law_upload_blocks_counted(
    before: Engine,
    after: Engine,
    m: MessageView,
    peer: Endpoint,
    now_ms: u64,
    out: super::inbound::InboundBody,
)
    requires
        super::inbound::assembled(before, after, m, peer, now_ms, out),
        before.metrics.block1_assemble < u32::MAX,
    ensures
        after.metrics.block1_assemble == before.metrics.block1_assemble || (
        after.metrics.block1_assemble == before.metrics.block1_assemble + 1 && (out is Continue
            || out is Complete)),
        out is Complete && (block_option(m.options, 27) matches Some(Ok(_)))
            ==> after.metrics.block1_assemble == before.metrics.block1_assemble + 1,
        !(block_option(m.options, 27) matches Some(Ok(_))) ==> after.metrics == before.metrics,
{
}

} // verus!
