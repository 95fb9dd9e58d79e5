//! Tokens and message identifiers come from one source and one sequence,
//! whatever is sent.
use vstd::arithmetic::div_mod::lemma_add_mod_noop_right;
use vstd::prelude::*;

use super::answer::Answer;
use super::bodies::{
    block_run, blocks_stopped, body_begun, body_ended, body_issued, numbers, outgoing_key, picked,
    response_role, selection_issued, selective, start_fault, started, taken_ids, wanted_szx,
    window_issued, window_stop, BlockRun,
};
use super::calls::{Call, CallFailure};
use super::complete::{
    asked_next, block_outcome, block_taken, completed, content_taken, next_wanted, noted,
    part_noted, part_taken, partial_kept, response_block_taken, response_taken,
};
use super::echo::EchoPolicy;
use super::ending::{all_failed, call_failed, overdue_calls};
use super::error::Error;
use super::identity::{ids_run, lemma_mid_after, mid_after, AppIds, IdentityError};
use super::inbound::{assembled, InboundBody};
use super::inbox::{LiveCall, OutgoingObserve};
use super::notify::{observer_notified, round_done, round_run, round_step};
use super::outbound::{identified, requested, unnamed};
use super::poll::{
    all_expired, answers_expired, bodies_recovered, datagram_received, due_notified, polled,
    retransmitted, turn_counted, turn_ended, turn_run, turn_served, work_ready,
};
use super::reactor::Core;
use super::respond::{
    answer_type, answered, answered_with, continued, picks, retained, sent_apart, separated,
};
use super::response::ResponseView;
use super::send::{acknowledged, replayed, room_made};
use super::serve::{admitted, body_freed, body_served, handler_run, request_served};
use super::site::Site;
use super::turn::{
    datagram_handled, missing_response, recovered, request_handled, rx_dispatched, rx_freed,
};
use super::upload::{
    block1_issued, block_uploaded, followed_up, followup_message, upload_continued, upload_cut,
    upload_message, upload_run, upload_step, upload_type, upload_window, UploadView,
};
use super::wish::{
    called, concluded, place_refusal, placed, retired, sent_in_blocks, test_token_count,
    token_sought, upload_begun, upload_role, wish_sent, wished_upload, Wish, TOKEN_TRIES,
};
use crate::error::{BlockTransferError, ValueError};
use crate::message::{BlockValue, MessageId, Transmission, Type};
use crate::message::value::block_size;
use crate::message::wire::{read_message, MessageView};
use crate::storage::body::{BlockProgress, QBlockRecover};
use crate::storage::endpoint::{BlockKeyView, Endpoint, SlotId};
use crate::storage::engine::Engine;
use crate::storage::io::{DatagramIo, DatagramIoError};
use crate::storage::rows::ObserveInterest;
use crate::storage::transfer::{block_count, BlockRole, BodySlot};

verus! {

/// How tokens and identifiers stand after so many identifiers were given out at
/// a time.
///
/// The source is the same. The identifiers are the next ones of the sequence. A
/// new round of them starts only when the exchange lifetime has passed since the
/// last one, and has no more than there are identifiers. Test tokens are counted
/// up, and what was drawn before stays on record.
pub open spec fn advanced(a: AppIds, b: AppIds, now_ms: u64, n: nat) -> bool {
    &&& b.source == a.source
    &&& b.next_mid == mid_after(a.next_mid, n as int)
    &&& b.last_mid_ms == if n > 0 && now_ms > a.last_mid_ms {
        now_ms
    } else {
        a.last_mid_ms
    }
    &&& if n > 0 && a.issued == 65536 {
        now_ms - a.last_mid_ms >= Transmission::EXCHANGE_LIFETIME_MS && b.issued == n
    } else {
        b.issued == a.issued + n
    }
    &&& b.issued <= 65536
    &&& a.test_token <= b.test_token
    &&& a.draws@.len() <= b.draws@.len()
    &&& b.draws@.subrange(0, a.draws@.len() as int) == a.draws@
}

/// Is a round of identifiers used up while a message waits for its
/// acknowledgement?
pub open spec fn held<T>(c: Core<T>) -> bool {
    c.ids.issued == 65536 && AppIds::busy(c.engine)
}

/// Tokens and identifiers only went on; see [`advanced`].
#[verifier::opaque]
pub open spec fn moved(a: AppIds, b: AppIds, now_ms: u64) -> bool {
    a.issued <= 65536 ==> exists|n: nat| #[trigger] advanced(a, b, now_ms, n)
}

proof fn lemma_advanced_trans(a: AppIds, b: AppIds, c: AppIds, now_ms: u64, n: nat, m: nat)
    requires
        a.issued <= 65536,
        advanced(a, b, now_ms, n),
        advanced(b, c, now_ms, m),
    ensures
        advanced(a, c, now_ms, n + m),
{
    assert(mid_after(mid_after(a.next_mid, n as int), m as int) == mid_after(
        a.next_mid,
        n as int + m as int,
    )) by {
        lemma_add_mod_noop_right(m as int, a.next_mid + n, 65536);
    }
    assert(c.draws@.subrange(0, a.draws@.len() as int) =~= b.draws@.subrange(
        0,
        a.draws@.len() as int,
    )) by {
        assert forall|i: int| 0 <= i < a.draws@.len() implies c.draws@[i] == b.draws@[i] by {
            assert(c.draws@.subrange(0, b.draws@.len() as int)[i] == b.draws@[i]);
        }
    }
}

proof fn lemma_trans(a: AppIds, b: AppIds, c: AppIds, now_ms: u64)
    requires
        moved(a, b, now_ms),
        moved(b, c, now_ms),
    ensures
        moved(a, c, now_ms),
{
    reveal(moved);
    if a.issued <= 65536 {
        let n = choose|n: nat| #[trigger] advanced(a, b, now_ms, n);
        let m = choose|m: nat| #[trigger] advanced(b, c, now_ms, m);
        lemma_advanced_trans(a, b, c, now_ms, n, m);
    }
}

proof fn lemma_same(a: AppIds, now_ms: u64)
    ensures
        moved(a, a, now_ms),
{
    reveal(moved);
    assert(a.draws@.subrange(0, a.draws@.len() as int) =~= a.draws@);
    assert(a.issued <= 65536 ==> advanced(a, a, now_ms, 0));
}

proof fn lemma_gave(a: AppIds, b: AppIds, now_ms: u64)
    requires
        a.gave(b, now_ms),
        !a.resting(now_ms),
    ensures
        moved(a, b, now_ms),
{
    reveal(moved);
    lemma_mid_after(a.next_mid, 0);
    assert(a.draws@.subrange(0, a.draws@.len() as int) =~= a.draws@);
    assert(a.issued <= 65536 ==> advanced(a, b, now_ms, 1));
}

proof fn lemma_refuses(a: AppIds, b: AppIds, e: Engine, now_ms: u64, err: IdentityError)
    requires
        a.refuses(b, e, now_ms, err),
    ensures
        moved(a, b, now_ms),
{
    reveal(moved);
    assert(a.draws@.subrange(0, a.draws@.len() as int) =~= a.draws@);
    assert(a.issued <= 65536 ==> advanced(a, b, now_ms, 0));
}

proof fn lemma_ids_run(a: AppIds, b: AppIds, e: Engine, now_ms: u64, n: nat)
    requires
        ids_run(a, b, e, now_ms, n),
    ensures
        moved(a, b, now_ms),
    decreases n,
{
    lemma_same(a, now_ms);
    if n > 0 {
        let c = choose|c: AppIds|
            ids_run(a, c, e, now_ms, (n - 1) as nat) && !c.exhausted(e, now_ms)
                && #[trigger] c.gave(b, now_ms);
        lemma_ids_run(a, c, e, now_ms, (n - 1) as nat);
        lemma_gave(c, b, now_ms);
        lemma_trans(a, c, b, now_ms);
    }
}

proof fn lemma_unnamed<T>(a: Core<T>, b: Core<T>, now_ms: u64, e: IdentityError)
    requires
        unnamed(a, b, now_ms, e),
    ensures
        moved(a.ids, b.ids, now_ms),
{
    lemma_refuses(a.ids, b.ids, a.engine, now_ms, e);
}

proof fn lemma_stopped<T: DatagramIo>(
    a: Core<T>,
    b: Core<T>,
    nums: Seq<int>,
    run: BlockRun,
    now_ms: u64,
    k: int,
    err: Error<T::Error>,
)
    requires
        blocks_stopped(a, b, nums, run, now_ms, k, err),
    ensures
        moved(a.ids, b.ids, now_ms),
{
    if ids_run(a.ids, b.ids, a.engine, now_ms, k as nat) {
        lemma_ids_run(a.ids, b.ids, a.engine, now_ms, k as nat);
    } else {
        let e = err->Identity_0;
        let ids = choose|ids: AppIds|
            ids_run(a.ids, ids, a.engine, now_ms, (k - 1) as nat) && #[trigger] ids.refuses(
                b.ids,
                a.engine,
                now_ms,
                e,
            );
        lemma_ids_run(a.ids, ids, a.engine, now_ms, (k - 1) as nat);
        lemma_refuses(ids, b.ids, a.engine, now_ms, e);
        lemma_trans(a.ids, ids, b.ids, now_ms);
    }
}

proof fn lemma_window_ids<T: DatagramIo>(
    a: Core<T>,
    b: Core<T>,
    answer: Answer,
    r: ResponseView,
    ty: Type,
    mid: u16,
    id: SlotId,
    now_ms: u64,
    res: Result<(), Error<T::Error>>,
)
    requires
        window_issued(a, b, answer, r, ty, mid, id, now_ms, res),
    ensures
        moved(a.ids, b.ids, now_ms),
{
    let slot = a.engine.store.bodies->0.tx.slots@[id.at as int]->0;
    let t = slot.transfer;
    let count = block_count(slot.bytes@.len() as int, block_size(t.szx as int));
    let nums = numbers(t.next_num as int, window_stop(t, count));
    let run = block_run(a, answer, r, slot, ty, mid);
    if b.ids == a.ids {
        lemma_same(a.ids, now_ms);
    } else if res.is_ok() {
        lemma_ids_run(a.ids, b.ids, a.engine, now_ms, taken_ids(nums.len()));
    } else {
        let k = choose|k: int| #[trigger] blocks_stopped(a, b, nums, run, now_ms, k, res->Err_0);
        lemma_stopped(a, b, nums, run, now_ms, k, res->Err_0);
    }
}

proof fn lemma_selection_ids<T: DatagramIo>(
    a: Core<T>,
    b: Core<T>,
    answer: Answer,
    r: ResponseView,
    ty: Type,
    mid: u16,
    id: SlotId,
    now_ms: u64,
    res: Result<(), Error<T::Error>>,
)
    requires
        selection_issued(a, b, answer, r, ty, mid, id, now_ms, res),
    ensures
        moved(a.ids, b.ids, now_ms),
{
    let slot = a.engine.store.bodies->0.tx.slots@[id.at as int]->0;
    let len = slot.bytes@.len() as int;
    let szx = slot.transfer.szx;
    let nums = picked(answer.selections@, block_count(len, block_size(szx as int)));
    let run = block_run(a, answer, r, slot, ty, mid);
    if b.ids == a.ids {
        lemma_same(a.ids, now_ms);
    } else if res.is_ok() {
        lemma_ids_run(a.ids, b.ids, a.engine, now_ms, taken_ids(nums.len()));
    } else {
        let k = choose|k: int| #[trigger] blocks_stopped(a, b, nums, run, now_ms, k, res->Err_0);
        lemma_stopped(a, b, nums, run, now_ms, k, res->Err_0);
    }
}

proof fn lemma_started_ids<T: DatagramIo>(
    a: Core<T>,
    b: Core<T>,
    answer: Answer,
    r: ResponseView,
    ty: Type,
    mid: u16,
    now_ms: u64,
    res: Result<(), Error<T::Error>>,
)
    requires
        started(a, b, answer, r, ty, mid, now_ms, res),
    ensures
        moved(a.ids, b.ids, now_ms),
{
    lemma_same(a.ids, now_ms);
    if start_fault(a.engine, r, answer.selections@.len() > 0).is_none() {
        let (c, d, id) = choose|c: Core<T>, d: Core<T>, id: SlotId|
            {
                &&& #[trigger] body_begun(
                    a,
                    c,
                    id,
                    response_role(answer.selections@),
                    outgoing_key(answer, r),
                    r.payload,
                    wanted_szx(answer.block2, answer.selections@),
                )
                &&& #[trigger] body_issued(c, d, answer, r, ty, mid, id, now_ms, res)
                &&& if res.is_err() || selective(answer.selections@) {
                    body_ended(d, b, id)
                } else {
                    b == d
                }
            };
        if selective(answer.selections@) {
            lemma_selection_ids(c, d, answer, r, ty, mid, id, now_ms, res);
        } else if answer.selections@.len() > 0 {
            lemma_window_ids(c, d, answer, r, ty, mid, id, now_ms, res);
        }
    }
}

proof fn lemma_continued_ids<T: DatagramIo>(
    a: Core<T>,
    b: Core<T>,
    answer: Answer,
    r: ResponseView,
    ty: Type,
    mid: u16,
    id: SlotId,
    now_ms: u64,
    res: Result<(), Error<T::Error>>,
)
    requires
        continued(a, b, answer, r, ty, mid, id, now_ms, res),
    ensures
        moved(a.ids, b.ids, now_ms),
{
    lemma_same(a.ids, now_ms);
    if b.ids != a.ids {
        if picks(answer.selections@) {
            lemma_selection_ids(a, b, answer, r, ty, mid, id, now_ms, res);
        } else {
            let c = choose|c: Core<T>|
                c == (Core { engine: c.engine, ..a }) && #[trigger] window_issued(
                    c,
                    b,
                    answer,
                    r,
                    ty,
                    mid,
                    id,
                    now_ms,
                    res,
                );
            lemma_window_ids(c, b, answer, r, ty, mid, id, now_ms, res);
        }
    }
}

proof fn lemma_answered_with_ids<T: DatagramIo>(
    a: Core<T>,
    b: Core<T>,
    answer: Answer,
    r: ResponseView,
    ty: Type,
    mid: u16,
    now_ms: u64,
    res: Result<(), Error<T::Error>>,
)
    requires
        answered_with(a, b, answer, r, ty, mid, now_ms, res),
    ensures
        moved(a.ids, b.ids, now_ms),
{
    lemma_same(a.ids, now_ms);
    if b.ids != a.ids {
        let body = retained(a.engine, answer);
        if r.code.spec_is_success() && body.is_some() {
            let id = SlotId { at: body->0 as usize };
            lemma_continued_ids(a, b, answer, r, ty, mid, id, now_ms, res);
        } else if started(a, b, answer, r, ty, mid, now_ms, res) {
            lemma_started_ids(a, b, answer, r, ty, mid, now_ms, res);
        } else {
            let c = choose|c: Core<T>|
                c == (Core { engine: c.engine, ..a }) && room_made(a.engine, c.engine)
                    && #[trigger] started(c, b, answer, r, ty, mid, now_ms, res);
            lemma_started_ids(c, b, answer, r, ty, mid, now_ms, res);
        }
    }
}

proof fn lemma_answered_ids<T: DatagramIo>(
    a: Core<T>,
    b: Core<T>,
    answer: Answer,
    r: ResponseView,
    now_ms: u64,
    res: Result<(), Error<T::Error>>,
)
    requires
        answered(a, b, answer, r, now_ms, res),
    ensures
        moved(a.ids, b.ids, now_ms),
{
    reveal(answered);
    lemma_same(a.ids, now_ms);
    if b.ids != a.ids {
        let ty = answer_type(answer.ty)->0;
        if ty == Type::NonConfirmable {
            if res matches Err(Error::Identity(e)) && unnamed(a, b, now_ms, e) {
                lemma_unnamed(a, b, now_ms, res->Err_0->Identity_0);
            } else {
                let c = choose|c: Core<T>|
                    identified(a, c, now_ms) && #[trigger] answered_with(
                        c,
                        b,
                        answer,
                        r,
                        ty,
                        a.ids.next_mid,
                        now_ms,
                        res,
                    );
                lemma_gave(a.ids, c.ids, now_ms);
                lemma_answered_with_ids(c, b, answer, r, ty, a.ids.next_mid, now_ms, res);
                lemma_trans(a.ids, c.ids, b.ids, now_ms);
            }
        } else {
            lemma_answered_with_ids(a, b, answer, r, ty, answer.mid.raw, now_ms, res);
        }
    }
}

proof fn lemma_apart_ids<T: DatagramIo>(
    a: Core<T>,
    b: Core<T>,
    answer: Answer,
    r: ResponseView,
    now_ms: u64,
    res: Result<(), Error<T::Error>>,
)
    requires
        sent_apart(a, b, answer, r, now_ms, res),
    ensures
        moved(a.ids, b.ids, now_ms),
{
    let mid = a.ids.next_mid;
    if res matches Err(Error::Identity(e)) && unnamed(a, b, now_ms, e) {
        lemma_unnamed(a, b, now_ms, res->Err_0->Identity_0);
    } else {
        let c = choose|c: Core<T>| #[trigger]
            identified(a, c, now_ms) && (b.ids == c.ids || started(
                c,
                b,
                answer,
                r,
                answer.ty,
                mid,
                now_ms,
                res,
            ));
        lemma_gave(a.ids, c.ids, now_ms);
        if b.ids != c.ids {
            lemma_started_ids(c, b, answer, r, answer.ty, mid, now_ms, res);
            lemma_trans(a.ids, c.ids, b.ids, now_ms);
        }
    }
}

proof fn lemma_separated_ids<T: DatagramIo>(
    a: Core<T>,
    b: Core<T>,
    answer: Answer,
    r: ResponseView,
    now_ms: u64,
    res: Result<(), Error<T::Error>>,
)
    requires
        separated(a, b, answer, r, now_ms, res),
    ensures
        moved(a.ids, b.ids, now_ms),
{
    lemma_same(a.ids, now_ms);
    if b.ids != a.ids {
        let ty = answer_type(answer.ty)->0;
        let body = retained(a.engine, answer);
        if body.is_some() {
            let id = SlotId { at: body->0 as usize };
            if ty == Type::NonConfirmable {
                if res matches Err(Error::Identity(e)) && unnamed(a, b, now_ms, e) {
                    lemma_unnamed(a, b, now_ms, res->Err_0->Identity_0);
                } else {
                    let c = choose|c: Core<T>|
                        identified(a, c, now_ms) && #[trigger] continued(
                            c,
                            b,
                            answer,
                            r,
                            ty,
                            a.ids.next_mid,
                            id,
                            now_ms,
                            res,
                        );
                    lemma_gave(a.ids, c.ids, now_ms);
                    lemma_continued_ids(c, b, answer, r, ty, a.ids.next_mid, id, now_ms, res);
                    lemma_trans(a.ids, c.ids, b.ids, now_ms);
                }
            } else {
                lemma_continued_ids(a, b, answer, r, ty, answer.mid.raw, id, now_ms, res);
            }
        } else if answer.ty == Type::Confirmable {
            let (c, ack) = choose|c: Core<T>, ack: Result<(), Error<T::Error>>|
                {
                    &&& #[trigger] acknowledged(
                        a,
                        c,
                        answer.dest,
                        answer.mid,
                        now_ms,
                        answer.request,
                        ack,
                    )
                    &&& if ack.is_err() {
                        res == ack && b == c
                    } else if answer.no_response.suppressed(r.code) {
                        res.is_ok() && b == c
                    } else {
                        sent_apart(c, b, answer, r, now_ms, res)
                    }
                };
            assert(c.ids == a.ids);
            lemma_apart_ids(c, b, answer, r, now_ms, res);
        } else {
            lemma_apart_ids(a, b, answer, r, now_ms, res);
        }
    }
}

proof fn lemma_handler_ids<T: DatagramIo, const N: usize>(
    a: Core<T>,
    b: Core<T>,
    site: Site<N>,
    m: MessageView,
    answer: Answer,
    body: InboundBody,
    now_ms: u64,
    res: Result<(), Error<T::Error>>,
)
    requires
        handler_run(a, b, site, m, answer, body, now_ms, res),
    ensures
        moved(a.ids, b.ids, now_ms),
{
    lemma_same(a.ids, now_ms);
    assert forall|c: Core<T>, out: ResponseView|
        c.ids == a.ids && #[trigger] separated(c, b, answer, out, now_ms, res) implies moved(
        a.ids,
        b.ids,
        now_ms,
    ) by {
        lemma_separated_ids(c, b, answer, out, now_ms, res);
    }
    assert forall|c: Core<T>, out: ResponseView|
        c.ids == a.ids && #[trigger] answered(c, b, answer, out, now_ms, res) implies moved(
        a.ids,
        b.ids,
        now_ms,
    ) by {
        lemma_answered_ids(c, b, answer, out, now_ms, res);
    }
}

proof fn lemma_body_ids<T: DatagramIo, const N: usize>(
    a: Core<T>,
    b: Core<T>,
    site: Site<N>,
    m: MessageView,
    answer: Answer,
    body: InboundBody,
    now_ms: u64,
    res: Result<(), Error<T::Error>>,
)
    requires
        body_served(a, b, site, m, answer, body, now_ms, res),
    ensures
        moved(a.ids, b.ids, now_ms),
{
    lemma_same(a.ids, now_ms);
    assert forall|acks: Answer, out: ResponseView| #[trigger]
        answered(a, b, acks, out, now_ms, res) implies moved(a.ids, b.ids, now_ms) by {
        lemma_answered_ids(a, b, acks, out, now_ms, res);
    }
    if handler_run(a, b, site, m, answer, body, now_ms, res) {
        lemma_handler_ids(a, b, site, m, answer, body, now_ms, res);
    }
}

proof fn lemma_served_ids<T: DatagramIo, const N: usize>(
    a: Core<T>,
    b: Core<T>,
    site: Site<N>,
    policy: Option<Box<dyn EchoPolicy>>,
    m: MessageView,
    peer: Endpoint,
    now_ms: u64,
    res: Result<(), Error<T::Error>>,
)
    requires
        request_served(a, b, site, policy, m, peer, now_ms, res),
    ensures
        moved(a.ids, b.ids, now_ms),
{
    assert forall|answer: Answer, out: ResponseView| #[trigger]
        answered(a, b, answer, out, now_ms, res) implies moved(a.ids, b.ids, now_ms) by {
        lemma_answered_ids(a, b, answer, out, now_ms, res);
    }
    assert forall|answer: Answer| #[trigger]
        admitted(a, b, site, m, answer, now_ms, res) implies moved(a.ids, b.ids, now_ms) by {
        reveal(admitted);
        let (c, e, body) = choose|c: Core<T>, e: Core<T>, body: InboundBody|
            {
                &&& c == (Core { engine: c.engine, ..a })
                &&& #[trigger] assembled(a.engine, c.engine, m, answer.dest, now_ms, body)
                &&& #[trigger] body_served(c, e, site, m, answer, body, now_ms, res)
                &&& body_freed(e, b, body)
            };
        lemma_body_ids(c, e, site, m, answer, body, now_ms, res);
    }
}

proof fn lemma_request_ids<T: DatagramIo, const N: usize>(
    a: Core<T>,
    b: Core<T>,
    site: Site<N>,
    policy: Option<Box<dyn EchoPolicy>>,
    m: MessageView,
    peer: Endpoint,
    now_ms: u64,
    r: Result<(), Error<T::Error>>,
)
    requires
        request_handled(a, b, site, policy, m, peer, now_ms, r),
    ensures
        moved(a.ids, b.ids, now_ms),
{
    lemma_same(a.ids, now_ms);
    if m.ty == Type::Confirmable {
        let mid = MessageId { raw: m.id };
        let (c, again) = choose|c: Core<T>, again: Option<Result<(), Error<T::Error>>>|
            {
                &&& #[trigger] replayed(a, c, peer, mid, m.code, now_ms, again)
                &&& match again {
                    Some(x) => r == x && b == c,
                    None => request_served(c, b, site, policy, m, peer, now_ms, r),
                }
            };
        assert(c.ids == a.ids);
        if again.is_none() {
            lemma_served_ids(c, b, site, policy, m, peer, now_ms, r);
        }
    } else {
        lemma_served_ids(a, b, site, policy, m, peer, now_ms, r);
    }
}

proof fn lemma_requested_ids<T: DatagramIo>(
    a: Core<T>,
    b: Core<T>,
    m: MessageView,
    dest: Endpoint,
    forget: bool,
    now_ms: u64,
    r: Result<(), Error<T::Error>>,
)
    requires
        requested(a, b, m, dest, forget, now_ms, r),
    ensures
        b.ids == a.ids,
{
}

proof fn lemma_followed_ids<T: DatagramIo>(
    a: Core<T>,
    b: Core<T>,
    call: Call,
    block2: Option<BlockValue>,
    q_block2: Option<BlockValue>,
    now_ms: u64,
    r: Result<(), Error<T::Error>>,
)
    requires
        followed_up(a, b, call, block2, q_block2, now_ms, r),
    ensures
        moved(a.ids, b.ids, now_ms),
{
    let m = followup_message(a.lives.row(call), call.token@, a.ids.next_mid, block2, q_block2);
    if r matches Err(Error::Identity(e)) && unnamed(a, b, now_ms, e) {
        lemma_unnamed(a, b, now_ms, r->Err_0->Identity_0);
    } else {
        let c = choose|c: Core<T>|
            identified(a, c, now_ms) && #[trigger] requested(
                c,
                b,
                m,
                call.peer,
                false,
                now_ms,
                r,
            );
        lemma_gave(a.ids, c.ids, now_ms);
        lemma_requested_ids(c, b, m, call.peer, false, now_ms, r);
    }
}

proof fn lemma_block_ids<T: DatagramIo>(
    a: Core<T>,
    b: Core<T>,
    u: UploadView,
    ty: Type,
    tag: Option<Seq<u8>>,
    body: Seq<u8>,
    num: u32,
    szx: u8,
    q_block: bool,
    now_ms: u64,
    r: Result<(), Error<T::Error>>,
)
    requires
        block_uploaded(a, b, u, ty, tag, body, num, szx, q_block, now_ms, r),
    ensures
        moved(a.ids, b.ids, now_ms),
{
    let m = upload_message(u, ty, a.ids.next_mid, tag, body, num, szx, q_block);
    lemma_same(a.ids, now_ms);
    if b.ids == a.ids {
    } else if r matches Err(Error::Identity(e)) && unnamed(a, b, now_ms, e) {
        lemma_unnamed(a, b, now_ms, r->Err_0->Identity_0);
    } else {
        let c = choose|c: Core<T>|
            identified(a, c, now_ms) && #[trigger] requested(c, b, m, u.dest, true, now_ms, r);
        lemma_gave(a.ids, c.ids, now_ms);
        lemma_requested_ids(c, b, m, u.dest, true, now_ms, r);
    }
}

proof fn lemma_step_ids<T: DatagramIo>(
    a: Core<T>,
    b: Core<T>,
    u: UploadView,
    slot: BodySlot,
    place: int,
    now_ms: u64,
    r: Result<(), Error<T::Error>>,
)
    requires
        upload_step(a, b, u, slot, place, now_ms, r),
    ensures
        moved(a.ids, b.ids, now_ms),
{
    lemma_block_ids(
        a,
        b,
        u,
        upload_type(u, place),
        slot.transfer.key.identity@,
        slot.bytes@,
        (slot.transfer.next_num + place) as u32,
        slot.transfer.szx,
        true,
        now_ms,
        r,
    );
}

proof fn lemma_upload_run_ids<T: DatagramIo>(
    a: Core<T>,
    b: Core<T>,
    u: UploadView,
    id: SlotId,
    take_first: bool,
    now_ms: u64,
    upto: nat,
)
    requires
        upload_run::<T>(a, b, u, id, take_first, now_ms, upto),
    ensures
        moved(a.ids, b.ids, now_ms),
    decreases upto,
{
    lemma_same(a.ids, now_ms);
    if upto > 0 {
        let slot = a.engine.store.bodies->0.tx.slots@[id.at as int]->0;
        let (c, d, ok) = choose|c: Core<T>, d: Core<T>, ok: Result<(), Error<T::Error>>|
            {
                &&& #[trigger] upload_cut(c, d, u, id, take_first, upto - 1)
                &&& #[trigger] upload_step(d, b, u, slot, upto - 1, now_ms, ok)
                &&& ok.is_ok()
                &&& upload_run::<T>(a, c, u, id, take_first, now_ms, (upto - 1) as nat)
            };
        lemma_upload_run_ids(a, c, u, id, take_first, now_ms, (upto - 1) as nat);
        lemma_step_ids(d, b, u, slot, upto - 1, now_ms, ok);
        lemma_trans(a.ids, c.ids, b.ids, now_ms);
    }
}

proof fn lemma_upload_window_ids<T: DatagramIo>(
    a: Core<T>,
    b: Core<T>,
    u: UploadView,
    id: SlotId,
    take_first: bool,
    now_ms: u64,
    r: Result<(), Error<T::Error>>,
)
    requires
        upload_window(a, b, u, id, take_first, now_ms, r),
    ensures
        moved(a.ids, b.ids, now_ms),
{
    let slot = a.engine.store.bodies->0.tx.slots@[id.at as int]->0;
    lemma_same(a.ids, now_ms);
    assert forall|n: nat| #[trigger]
        upload_run::<T>(a, b, u, id, take_first, now_ms, n) implies moved(
        a.ids,
        b.ids,
        now_ms,
    ) by {
        lemma_upload_run_ids(a, b, u, id, take_first, now_ms, n);
    }
    assert forall|c: Core<T>, d: Core<T>, n: nat|
        #[trigger] upload_run::<T>(a, c, u, id, take_first, now_ms, n) && #[trigger] upload_cut(
            c,
            d,
            u,
            id,
            take_first,
            n as int,
        ) && upload_step(d, b, u, slot, n as int, now_ms, r) implies moved(
        a.ids,
        b.ids,
        now_ms,
    ) by {
        lemma_upload_run_ids(a, c, u, id, take_first, now_ms, n);
        lemma_step_ids(d, b, u, slot, n as int, now_ms, r);
        lemma_trans(a.ids, c.ids, b.ids, now_ms);
    }
}

proof fn lemma_issued_ids<T: DatagramIo>(
    a: Core<T>,
    b: Core<T>,
    u: UploadView,
    id: SlotId,
    now_ms: u64,
    r: Result<(), Error<T::Error>>,
)
    requires
        block1_issued(a, b, u, id, now_ms, r),
    ensures
        moved(a.ids, b.ids, now_ms),
{
    let t = a.engine.tx_transfer(id)->0;
    let body = a.engine.tx_body(id);
    lemma_same(a.ids, now_ms);
    assert forall|c: Core<T>|
        #[trigger] upload_cut(a, c, u, id, false, 0) && block_uploaded(
            c,
            b,
            u,
            u.ty,
            t.key.identity@,
            body,
            t.next_num,
            t.szx,
            false,
            now_ms,
            r,
        ) implies moved(a.ids, b.ids, now_ms) by {
        lemma_block_ids(
            c,
            b,
            u,
            u.ty,
            t.key.identity@,
            body,
            t.next_num,
            t.szx,
            false,
            now_ms,
            r,
        );
    }
}

proof fn lemma_uploaded_ids<T: DatagramIo>(
    a: Core<T>,
    b: Core<T>,
    m: MessageView,
    peer: Endpoint,
    id: SlotId,
    now_ms: u64,
    r: Result<(), Error<T::Error>>,
)
    requires
        upload_continued(a, b, m, peer, id, now_ms, r),
    ensures
        moved(a.ids, b.ids, now_ms),
{
    lemma_same(a.ids, now_ms);
    assert forall|c: Core<T>, u: UploadView|
        c.ids == a.ids && #[trigger] block1_issued(c, b, u, id, now_ms, r) implies moved(
        a.ids,
        b.ids,
        now_ms,
    ) by {
        lemma_issued_ids(c, b, u, id, now_ms, r);
    }
    assert forall|c: Core<T>, u: UploadView|
        c.ids == a.ids && #[trigger] upload_window(c, b, u, id, true, now_ms, r) implies moved(
        a.ids,
        b.ids,
        now_ms,
    ) by {
        lemma_upload_window_ids(c, b, u, id, true, now_ms, r);
    }
}

proof fn lemma_part_ids<T: DatagramIo>(
    a: Core<T>,
    b: Core<T>,
    call: Call,
    m: MessageView,
    id: SlotId,
    q_block: bool,
    now_ms: u64,
    r: Result<(), Error<T::Error>>,
)
    requires
        part_taken(a, b, call, m, id, q_block, now_ms, r),
    ensures
        moved(a.ids, b.ids, now_ms),
{
    lemma_same(a.ids, now_ms);
    assert forall|e: Core<T>, x: Option<BlockValue>, y: Option<BlockValue>|
        e.ids == a.ids && #[trigger] followed_up(e, b, call, x, y, now_ms, r) implies moved(
        a.ids,
        b.ids,
        now_ms,
    ) by {
        lemma_followed_ids(e, b, call, x, y, now_ms, r);
    }
    let (c, d, ok) = choose|c: Core<T>, d: Core<T>, ok: bool|
        {
            &&& noted(a, c, call, m, now_ms)
            &&& #[trigger] partial_kept(c, d, call, m, id, now_ms, ok)
            &&& if !ok {
                r == Err::<(), Error<T::Error>>(Error::Saturated) && b == d
            } else {
                let wanted = next_wanted(d.engine.rx_transfer(id)->0, q_block);
                exists|e: Core<T>|
                    {
                        &&& #[trigger] part_noted(d, e, call, id, q_block, wanted, now_ms)
                        &&& match wanted {
                            Some(block) => asked_next(e, b, call, block, q_block, now_ms, r),
                            None => r.is_ok() && b == e,
                        }
                    }
            }
        };
    assert(d.ids == a.ids);
}

proof fn lemma_outcome_ids<T: DatagramIo>(
    a: Core<T>,
    b: Core<T>,
    call: Call,
    m: MessageView,
    q_block: bool,
    via_exchange: bool,
    now_ms: u64,
    p: Result<BlockProgress, BlockTransferError>,
    r: Result<(), Error<T::Error>>,
)
    requires
        block_outcome(a, b, call, m, q_block, via_exchange, now_ms, p, r),
    ensures
        moved(a.ids, b.ids, now_ms),
{
    lemma_same(a.ids, now_ms);
    if b.ids != a.ids {
        lemma_part_ids(a, b, call, m, p->Ok_0.id, q_block, now_ms, r);
    }
}

proof fn lemma_content_ids<T: DatagramIo>(
    a: Core<T>,
    b: Core<T>,
    call: Call,
    m: MessageView,
    via_exchange: bool,
    now_ms: u64,
    r: Result<(), Error<T::Error>>,
)
    requires
        content_taken(a, b, call, m, via_exchange, now_ms, r),
    ensures
        moved(a.ids, b.ids, now_ms),
{
    lemma_same(a.ids, now_ms);
    assert forall|block: Result<BlockValue, ValueError>, q_block: bool| #[trigger]
        block_taken(
            a,
            b,
            call,
            m,
            block,
            q_block,
            via_exchange,
            now_ms,
            r,
        ) implies moved(a.ids, b.ids, now_ms) by {
        let (c, p) = choose|c: Core<T>, p: Result<BlockProgress, BlockTransferError>|
            {
                &&& c == (Core { engine: c.engine, ..a })
                &&& response_block_taken(a.engine, c.engine, m, call.peer, block, q_block, p)
                &&& #[trigger] block_outcome(c, b, call, m, q_block, via_exchange, now_ms, p, r)
            };
        lemma_outcome_ids(c, b, call, m, q_block, via_exchange, now_ms, p, r);
    }
}

proof fn lemma_response_ids<T: DatagramIo>(
    a: Core<T>,
    b: Core<T>,
    call: Call,
    m: MessageView,
    via_exchange: bool,
    now_ms: u64,
    r: Result<(), Error<T::Error>>,
)
    requires
        response_taken(a, b, call, m, via_exchange, now_ms, r),
    ensures
        moved(a.ids, b.ids, now_ms),
{
    assert forall|id: SlotId| #[trigger]
        upload_continued(a, b, m, call.peer, id, now_ms, r) implies moved(
        a.ids,
        b.ids,
        now_ms,
    ) by {
        lemma_uploaded_ids(a, b, m, call.peer, id, now_ms, r);
    }
    assert forall|c: Core<T>|
        c.ids == a.ids && #[trigger] content_taken(
            c,
            b,
            call,
            m,
            via_exchange,
            now_ms,
            r,
        ) implies moved(a.ids, b.ids, now_ms) by {
        lemma_content_ids(c, b, call, m, via_exchange, now_ms, r);
    }
}

proof fn lemma_completed_ids<T: DatagramIo>(
    a: Core<T>,
    b: Core<T>,
    call: Call,
    m: MessageView,
    now_ms: u64,
    r: Result<(), Error<T::Error>>,
)
    requires
        completed(a, b, call, m, now_ms, r),
    ensures
        moved(a.ids, b.ids, now_ms),
{
    lemma_same(a.ids, now_ms);
    assert forall|d: Core<T>, via_exchange: bool|
        d.ids == a.ids && #[trigger] response_taken(
            d,
            b,
            call,
            m,
            via_exchange,
            now_ms,
            r,
        ) implies moved(a.ids, b.ids, now_ms) by {
        lemma_response_ids(d, b, call, m, via_exchange, now_ms, r);
    }
}

proof fn lemma_dispatched_ids<T: DatagramIo, const N: usize>(
    a: Core<T>,
    b: Core<T>,
    site: Site<N>,
    policy: Option<Box<dyn EchoPolicy>>,
    rx: SlotId,
    now_ms: u64,
    r: Result<(), Error<T::Error>>,
)
    requires
        rx_dispatched(a, b, site, policy, rx, now_ms, r),
    ensures
        moved(a.ids, b.ids, now_ms),
{
    lemma_same(a.ids, now_ms);
    if b.ids != a.ids {
        let peer = a.engine.store.rx.slots@[rx.at as int]->0.peer->0;
        let bytes = a.engine.store.rx.datagram(rx);
        let c = choose|c: Core<T>| #[trigger]
            rx_freed(c, b, rx) && datagram_handled(a, c, site, policy, bytes, peer, now_ms, r);
        let m = read_message(bytes)->Ok_0;
        if m.code.spec_is_request() {
            lemma_request_ids(a, c, site, policy, m, peer, now_ms, r);
        } else {
            let call = choose|call: Call|
                call.peer == peer && call.token@ == m.token && #[trigger] completed(
                    a,
                    c,
                    call,
                    m,
                    now_ms,
                    r,
                );
            lemma_completed_ids(a, c, call, m, now_ms, r);
        }
    }
}

proof fn lemma_notified_ids<T: DatagramIo>(
    a: Core<T>,
    b: Core<T>,
    interest: ObserveInterest,
    x: ResponseView,
    seq: u32,
    now_ms: u64,
    r: Result<(), Error<T::Error>>,
)
    requires
        observer_notified(a, b, interest, x, seq, now_ms, r),
    ensures
        moved(a.ids, b.ids, now_ms),
        held(a) ==> held(b) && b.ids == a.ids,
{
    lemma_same(a.ids, now_ms);
    if b.ids == a.ids {
    } else if r matches Err(Error::Identity(e)) && unnamed(a, b, now_ms, e) {
        lemma_unnamed(a, b, now_ms, r->Err_0->Identity_0);
    } else {
        let c = choose|c: Core<T>| #[trigger] identified(a, c, now_ms) && b.ids == c.ids;
        lemma_gave(a.ids, c.ids, now_ms);
    }
}

proof fn lemma_due_ids<T: DatagramIo, const N: usize>(
    a: Core<T>,
    b: Core<T>,
    site: Site<N>,
    due: Option<SlotId>,
    now_ms: u64,
    r: Result<(), Error<T::Error>>,
)
    requires
        due_notified(a, b, site, due, now_ms, r),
    ensures
        moved(a.ids, b.ids, now_ms),
{
    lemma_same(a.ids, now_ms);
    assert forall|
        c: Core<T>,
        d: Core<T>,
        interest: ObserveInterest,
        x: ResponseView,
        seq: u32,
    |
        c.ids == a.ids && #[trigger] observer_notified(
            c,
            d,
            interest,
            x,
            seq,
            now_ms,
            r,
        ) implies moved(a.ids, d.ids, now_ms) by {
        lemma_notified_ids(c, d, interest, x, seq, now_ms, r);
    }
}

proof fn lemma_recovered_ids<T: DatagramIo>(
    a: Core<T>,
    b: Core<T>,
    now_ms: u64,
    r: Result<(), Error<T::Error>>,
)
    requires
        bodies_recovered(a, b, now_ms, r),
    ensures
        moved(a.ids, b.ids, now_ms),
{
    lemma_same(a.ids, now_ms);
    assert forall|c: Core<T>, q: QBlockRecover|
        c.ids == a.ids && #[trigger] recovered(c, b, q, now_ms, r) implies moved(
        a.ids,
        b.ids,
        now_ms,
    ) by {
        lemma_asked_again_ids(c, b, q, now_ms, r);
    }
}

proof fn lemma_asked_again_ids<T: DatagramIo>(
    a: Core<T>,
    b: Core<T>,
    q: QBlockRecover,
    now_ms: u64,
    r: Result<(), Error<T::Error>>,
)
    requires
        recovered(a, b, q, now_ms, r),
    ensures
        moved(a.ids, b.ids, now_ms),
{
    lemma_same(a.ids, now_ms);
    if b.ids == a.ids {
    } else if r matches Err(Error::Identity(e)) && unnamed(a, b, now_ms, e) {
        lemma_unnamed(a, b, now_ms, r->Err_0->Identity_0);
    } else if q.role == BlockRole::IncomingQBlock2 {
        let c = choose|c: Core<T>| #[trigger] identified(a, c, now_ms) && b.ids == c.ids;
        lemma_gave(a.ids, c.ids, now_ms);
    } else {
        let out = missing_response(q.missing@);
        let (c, answer) = choose|c: Core<T>, answer: Answer|
            identified(a, c, now_ms) && #[trigger] answered(c, b, answer, out, now_ms, r);
        lemma_gave(a.ids, c.ids, now_ms);
        lemma_answered_ids(c, b, answer, out, now_ms, r);
        lemma_trans(a.ids, c.ids, b.ids, now_ms);
    }
}

proof fn lemma_ended_ids<T: DatagramIo, const N: usize>(
    a: Core<T>,
    b: Core<T>,
    site: Site<N>,
    due: Option<SlotId>,
    full: bool,
    now_ms: u64,
    r: Result<(), Error<T::Error>>,
)
    requires
        turn_ended(a, b, site, due, full, now_ms, r),
    ensures
        moved(a.ids, b.ids, now_ms),
{
    let (c, told) = choose|c: Core<T>, told: Result<(), Error<T::Error>>|
        {
            &&& #[trigger] due_notified(a, c, site, due, now_ms, told)
            &&& if told.is_err() {
                r == told && b == c
            } else {
                exists|got: Result<(), Error<T::Error>>| #[trigger]
                    bodies_recovered(c, b, now_ms, got)
            }
        };
    lemma_due_ids(a, c, site, due, now_ms, told);
    if told.is_ok() {
        let got = choose|got: Result<(), Error<T::Error>>| #[trigger]
            bodies_recovered(c, b, now_ms, got);
        lemma_recovered_ids(c, b, now_ms, got);
        lemma_trans(a.ids, c.ids, b.ids, now_ms);
    }
}

proof fn lemma_failed_ids<T>(a: Core<T>, b: Core<T>, list: Seq<(Call, CallFailure)>)
    requires
        all_failed(a, b, list),
    ensures
        b.ids == a.ids,
    decreases list.len(),
{
    if list.len() > 0 {
        let c = choose|c: Core<T>|
            #[trigger] call_failed(c, b, list.last().0, list.last().1, true) && all_failed(
                a,
                c,
                list.drop_last(),
            );
        lemma_failed_ids(a, c, list.drop_last());
    }
}

proof fn lemma_turn_ids<T: DatagramIo, const N: usize>(
    a: Core<T>,
    b: Core<T>,
    site: Site<N>,
    policy: Option<Box<dyn EchoPolicy>>,
    full: bool,
    now_ms: u64,
    r: Result<(), Error<T::Error>>,
)
    requires
        turn_run(a, b, site, policy, full, now_ms, r),
    ensures
        moved(a.ids, b.ids, now_ms),
{
    lemma_same(a.ids, now_ms);
    let (c, sent, ready, due) = choose|
        c: Core<T>,
        sent: Result<(), Error<T::Error>>,
        ready: Option<SlotId>,
        due: Option<SlotId>,
    |
        {
            &&& #[trigger] work_ready(a, now_ms, ready, due)
            &&& #[trigger] retransmitted(a, c, now_ms, sent)
            &&& if sent.is_err() {
                r == sent && b == c
            } else {
                turn_served(c, b, site, policy, ready, due, full, now_ms, r)
            }
        };
    assert(c.ids == a.ids);
    if sent.is_ok() {
        match ready {
            None => {
                lemma_ended_ids(c, b, site, due, full, now_ms, r);
            },
            Some(rx) => {
                let (d, handled) = choose|d: Core<T>, handled: Result<(), Error<T::Error>>|
                    {
                        &&& #[trigger] rx_dispatched(c, d, site, policy, rx, now_ms, handled)
                        &&& if handled.is_err() {
                            r == handled && b == d
                        } else {
                            turn_ended(d, b, site, due, full, now_ms, r)
                        }
                    };
                lemma_dispatched_ids(c, d, site, policy, rx, now_ms, handled);
                if handled.is_ok() {
                    lemma_ended_ids(d, b, site, due, full, now_ms, r);
                    lemma_trans(a.ids, d.ids, b.ids, now_ms);
                }
            },
        }
    }
}

/// A turn of the reactor keeps the source of identities and only goes on in the
/// sequence of message identifiers, whatever it sends: answers, blocks of a
/// window, notifications, requests for more.
pub proof fn law_turn_goes_on<T: DatagramIo, const N: usize>(
    a: Core<T>,
    b: Core<T>,
    site: Site<N>,
    policy: Option<Box<dyn EchoPolicy>>,
    now_ms: u64,
    r: Result<(), Error<T::Error>>,
)
    requires
        a.wf(),
        polled(a, b, site, policy, now_ms, r),
    ensures
        b.ids.source == a.ids.source,
        exists|n: nat| #[trigger] advanced(a.ids, b.ids, now_ms, n),
{
    let (c, d, got) = choose|
        c: Core<T>,
        d: Core<T>,
        got: Result<Option<SlotId>, DatagramIoError<T::Error>>,
    |
        {
            &&& #[trigger] all_expired(a, c, now_ms)
            &&& #[trigger] datagram_received(c, d, got)
            &&& b == d || exists|f: Core<T>, full: bool|
                turn_counted(d, f) && #[trigger] turn_run(f, b, site, policy, full, now_ms, r)
        };
    let x = choose|x: Core<T>| #[trigger]
        answers_expired(a, x, now_ms) && all_failed(
            x,
            c,
            overdue_calls(x, x.lives.rows.rows@, now_ms),
        );
    lemma_failed_ids(x, c, overdue_calls(x, x.lives.rows.rows@, now_ms));
    assert(d.ids == a.ids);
    lemma_same(a.ids, now_ms);
    assert(moved(a.ids, b.ids, now_ms)) by {
        if b != d {
            let (f, full) = choose|f: Core<T>, full: bool|
                turn_counted(d, f) && #[trigger] turn_run(f, b, site, policy, full, now_ms, r);
            lemma_turn_ids(f, b, site, policy, full, now_ms, r);
        }
    }
    reveal(moved);
}

proof fn lemma_round_ids<T: DatagramIo>(
    a: Core<T>,
    b: Core<T>,
    upto: nat,
    resource: Option<usize>,
    r: ResponseView,
    now_ms: u64,
    sent: nat,
)
    requires
        round_run::<T>(a, b, upto, resource, r, now_ms, sent),
    ensures
        moved(a.ids, b.ids, now_ms),
        held(a) ==> held(b) && b.ids == a.ids,
    decreases upto,
{
    lemma_same(a.ids, now_ms);
    if upto > 0 {
        let (c, n) = choose|c: Core<T>, n: nat|
            {
                &&& #[trigger] round_step::<T>(c, b, upto - 1, resource, r, now_ms, n, None)
                &&& n <= sent
                &&& round_run::<T>(
                    a,
                    c,
                    (upto - 1) as nat,
                    resource,
                    r,
                    now_ms,
                    (sent - n) as nat,
                )
            };
        lemma_round_ids(a, c, (upto - 1) as nat, resource, r, now_ms, (sent - n) as nat);
        lemma_round_step_ids(c, b, upto - 1, resource, r, now_ms, n, None);
        lemma_trans(a.ids, c.ids, b.ids, now_ms);
    }
}

proof fn lemma_round_step_ids<T: DatagramIo>(
    a: Core<T>,
    b: Core<T>,
    i: int,
    resource: Option<usize>,
    r: ResponseView,
    now_ms: u64,
    sent: nat,
    failure: Option<Error<T::Error>>,
)
    requires
        round_step::<T>(a, b, i, resource, r, now_ms, sent, failure),
    ensures
        moved(a.ids, b.ids, now_ms),
        held(a) ==> held(b) && b.ids == a.ids,
{
    lemma_same(a.ids, now_ms);
    assert forall|
        c: Core<T>,
        interest: ObserveInterest,
        seq: u32,
        res: Result<(), Error<T::Error>>,
    |
        c.ids == a.ids && #[trigger] observer_notified(
            c,
            b,
            interest,
            r,
            seq,
            now_ms,
            res,
        ) && c.engine.pending == a.engine.pending implies moved(a.ids, b.ids, now_ms) && (held(a)
        ==> held(b) && b.ids == a.ids) by {
        assert(held(a) ==> held(c));
        lemma_notified_ids(c, b, interest, r, seq, now_ms, res);
    }
}

/// A round of notifications keeps the source of identities and only goes on in
/// the sequence of message identifiers. It starts a new round of them only while
/// no message waits for its acknowledgement.
pub proof fn law_notifying_goes_on<T: DatagramIo>(
    a: Core<T>,
    b: Core<T>,
    resource: Option<usize>,
    x: ResponseView,
    now_ms: u64,
    r: Result<usize, Error<T::Error>>,
)
    requires
        a.wf(),
        round_done(a, b, resource, x, now_ms, r),
    ensures
        b.ids.source == a.ids.source,
        exists|n: nat| #[trigger] advanced(a.ids, b.ids, now_ms, n),
        held(a) ==> b.ids == a.ids,
{
    assert(moved(a.ids, b.ids, now_ms) && (held(a) ==> b.ids == a.ids)) by {
        match r {
            Ok(n) => {
                lemma_round_ids(
                    a,
                    b,
                    a.engine.store.observe.rows@.len(),
                    resource,
                    x,
                    now_ms,
                    n as nat,
                );
            },
            Err(e) => {
                let (c, d, i, n, m) = choose|c: Core<T>, d: Core<T>, i: nat, n: nat, m: nat|
                    {
                        &&& #[trigger] round_run::<T>(a, c, i, resource, x, now_ms, n)
                        &&& #[trigger] round_step::<T>(
                            c,
                            d,
                            i as int,
                            resource,
                            x,
                            now_ms,
                            m,
                            Some(e),
                        )
                        &&& b.ids == d.ids
                    };
                lemma_round_ids(a, c, i, resource, x, now_ms, n);
                lemma_round_step_ids(c, d, i as int, resource, x, now_ms, m, Some(e));
                lemma_trans(a.ids, c.ids, d.ids, now_ms);
            },
        }
    }
    reveal(moved);
}

proof fn lemma_blocks_ids<T: DatagramIo>(
    a: Core<T>,
    b: Core<T>,
    w: Wish<'_>,
    token: Seq<u8>,
    dest: Endpoint,
    now_ms: u64,
    r: Result<(), Error<T::Error>>,
)
    requires
        sent_in_blocks(a, b, w, token, dest, now_ms, r),
    ensures
        moved(a.ids, b.ids, now_ms),
{
    lemma_same(a.ids, now_ms);
    if b.ids != a.ids {
        let u = wished_upload(w, token, dest);
        let (c, d, id) = choose|c: Core<T>, d: Core<T>, id: SlotId|
            {
                &&& #[trigger] body_begun(
                    a,
                    c,
                    id,
                    upload_role(w.q_block1),
                    BlockKeyView { token, peer: dest, identity: w.request_tag@ },
                    w.payload@,
                    6,
                )
                &&& #[trigger] upload_begun(c, d, u, w.q_block1, id, now_ms, r)
                &&& b.ids == d.ids
            };
        if w.q_block1 {
            lemma_upload_window_ids(c, d, u, id, false, now_ms, r);
        } else {
            lemma_issued_ids(c, d, u, id, now_ms, r);
        }
    }
}

proof fn lemma_wish_ids<T: DatagramIo>(
    a: Core<T>,
    b: Core<T>,
    w: Wish<'_>,
    token: Seq<u8>,
    dest: Endpoint,
    now_ms: u64,
    r: Result<(), Error<T::Error>>,
)
    requires
        wish_sent(a, b, w, token, dest, now_ms, r),
    ensures
        moved(a.ids, b.ids, now_ms),
        !a.ids.exhausted(a.engine, now_ms) || b.ids == a.ids,
{
    let m = w.message(token, a.ids.next_mid);
    if r matches Err(Error::Identity(e)) && unnamed(a, b, now_ms, e) {
        lemma_unnamed(a, b, now_ms, r->Err_0->Identity_0);
    } else if identified(a, b, now_ms) {
        lemma_gave(a.ids, b.ids, now_ms);
    } else {
        let (c, d, one) = choose|c: Core<T>, d: Core<T>, one: Result<(), Error<T::Error>>|
            {
                &&& identified(a, c, now_ms)
                &&& #[trigger] requested(c, d, m, dest, true, now_ms, one)
                &&& b == d || sent_in_blocks(d, b, w, token, dest, now_ms, r)
            };
        lemma_gave(a.ids, c.ids, now_ms);
        lemma_requested_ids(c, d, m, dest, true, now_ms, one);
        if b != d {
            lemma_blocks_ids(d, b, w, token, dest, now_ms, r);
            lemma_trans(a.ids, d.ids, b.ids, now_ms);
        }
    }
}

proof fn lemma_placed_ids<T: DatagramIo>(
    a: Core<T>,
    b: Core<T>,
    w: Wish<'_>,
    call: Call,
    now_ms: u64,
    r: Result<Call, Error<T::Error>>,
)
    requires
        placed(a, b, w, call, now_ms, r),
    ensures
        moved(a.ids, b.ids, now_ms),
        w.observe != OutgoingObserve::Deregister ==> !a.ids.exhausted(a.engine, now_ms) || b.ids
            == a.ids,
{
    lemma_same(a.ids, now_ms);
    if place_refusal::<T>(a, w, call).is_none() {
        let (c, d, sent) = choose|c: Core<T>, d: Core<T>, sent: Result<(), Error<T::Error>>|
            {
                &&& if w.observe == OutgoingObserve::Deregister {
                    retired(a, c, call)
                } else {
                    c == a
                }
                &&& #[trigger] wish_sent(c, d, w, call.token@, call.peer, now_ms, sent)
                &&& #[trigger] concluded(d, b, w, call, now_ms, sent, r)
            };
        assert(c.ids == a.ids);
        lemma_wish_ids(c, d, w, call.token@, call.peer, now_ms, sent);
        assert(b.ids == d.ids);
    }
}

proof fn lemma_token_ids<T>(
    a: Core<T>,
    b: Core<T>,
    now_ms: u64,
    r: Result<Seq<u8>, IdentityError>,
)
    requires
        token_sought(a, b, r),
    ensures
        moved(a.ids, b.ids, now_ms),
{
    reveal(moved);
    lemma_mid_after(a.ids.next_mid, 0);
    lemma_count_grows(
        a.lives.rows.rows@,
        a.ids.test_token,
        TOKEN_TRIES as nat,
    );
    assert(a.ids.draws@.subrange(0, a.ids.draws@.len() as int) =~= a.ids.draws@);
    assert(a.ids.issued <= 65536 ==> advanced(a.ids, b.ids, now_ms, 0));
}

/// A caller's request keeps the source of identities and only goes on in the
/// sequence of message identifiers. Other than a cancellation, it starts a new
/// round of them only while no message waits for its acknowledgement.
pub proof fn law_request_goes_on<T: DatagramIo>(
    a: Core<T>,
    b: Core<T>,
    w: Wish<'_>,
    dest: Endpoint,
    now_ms: u64,
    r: Result<Call, Error<T::Error>>,
)
    requires
        a.wf(),
        called(a, b, w, dest, now_ms, r),
    ensures
        b.ids.source == a.ids.source,
        exists|n: nat| #[trigger] advanced(a.ids, b.ids, now_ms, n),
        w.observe != OutgoingObserve::Deregister && held(a) ==> b.ids.next_mid == a.ids.next_mid
            && b.ids.issued == a.ids.issued,
{
    lemma_same(a.ids, now_ms);
    assert forall|call: Call| #[trigger] placed(a, b, w, call, now_ms, r) implies moved(
        a.ids,
        b.ids,
        now_ms,
    ) by {
        lemma_placed_ids(a, b, w, call, now_ms, r);
    }
    assert forall|c: Core<T>, t: Result<Seq<u8>, IdentityError>, call: Call|
        w.observe != OutgoingObserve::Deregister && #[trigger] token_sought(a, c, t)
            && #[trigger] placed(c, b, w, call, now_ms, r) implies moved(a.ids, b.ids, now_ms) && (
    a.ids.issued == 65536 && AppIds::busy(a.engine) ==> b.ids == c.ids) by {
        lemma_token_ids(a, c, now_ms, t);
        lemma_placed_ids(c, b, w, call, now_ms, r);
        lemma_trans(a.ids, c.ids, b.ids, now_ms);
    }
    assert forall|t: Result<Seq<u8>, IdentityError>| #[trigger]
        token_sought(a, b, t) implies moved(a.ids, b.ids, now_ms) by {
        lemma_token_ids(a, b, now_ms, t);
    }
    assert(moved(a.ids, b.ids, now_ms));
    reveal(moved);
}

proof fn lemma_count_grows(
    rows: Seq<Option<LiveCall>>,
    count: u32,
    tries: nat,
)
    ensures
        test_token_count(rows, count, tries) >= count,
    decreases tries,
{
    if tries > 0 && count < u32::MAX {
        lemma_count_grows(rows, (count + 1) as u32, (tries - 1) as nat);
    }
}

} // verus!
