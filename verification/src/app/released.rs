//! Taking in a datagram leaves nothing behind: neither its slot, nor a request
//! body that it made whole.
use vstd::prelude::*;

use super::answer::Answer;
use super::calls::{meta_fits, Call, CallFailure};
use super::complete::{
    acknowledgements_settled, answered_request, asked_next, block_noted, block_outcome,
    block_taken, body_accepts, completed, confirmed, content_taken, next_wanted, noted, part_noted,
    part_taken, partial_kept, plain_taken, response_block_taken, response_taken,
    upload_over, uploads_from, whole_taken,
};
use super::echo::EchoPolicy;
use super::ending::call_failed;
use super::error::Error;
use super::inbound::{assembled, rx_slots, InboundBody};
use super::outbound::{identified, requested};
use super::reactor::Core;
use super::send::replayed;
use super::serve::{admitted, body_freed, body_served, request_served};
use super::site::Site;
use super::turn::{
    about_settled, call_reset, datagram_handled, emptied, request_handled, rx_dispatched, rx_freed,
};
use super::upload::{
    block1_issued, block_uploaded, followed_up, followup_message, request_taken, upload_continued,
    upload_cut, upload_message, upload_run, upload_step, upload_type, upload_window, window_moved,
    UploadView,
};
use crate::error::{BlockTransferError, ValueError};
use crate::message::fields::block_option;
use crate::message::wire::{read_message, MessageView};
use crate::message::{BlockValue, Code, MessageId, Type};
use crate::storage::blocks::recovery_armed;
use crate::storage::body::BlockProgress;
use crate::storage::endpoint::{BlockKey, BlockKeyView, Endpoint, SlotId};
use crate::storage::engine::Engine;
use crate::storage::io::DatagramIo;
use crate::storage::transfer::{find_body, BlockRole, BodySlot};

verus! {

/// Does this slot hold the whole body of a request?
pub open spec fn whole_request(slot: Option<BodySlot>) -> bool {
    slot matches Some(s) && s.transfer.complete && (s.transfer.role == BlockRole::IncomingBlock1
        || s.transfer.role == BlockRole::IncomingQBlock1)
}

/// Does the whole body of a request wait at this place?
pub open spec fn whole_at(e: Engine, i: int) -> bool {
    0 <= i < rx_slots(e).len() && whole_request(rx_slots(e)[i])
}

/// No whole request body waits where none did.
#[verifier::opaque]
pub open spec fn none_more(a: Engine, b: Engine) -> bool {
    forall|i: int| #[trigger] whole_at(b, i) ==> whole_at(a, i)
}

proof fn lemma_more_trans(a: Engine, b: Engine, c: Engine)
    requires
        none_more(a, b),
        none_more(b, c),
    ensures
        none_more(a, c),
{
    reveal(none_more);
}

proof fn lemma_more_same(a: Engine, b: Engine)
    requires
        rx_slots(b) == rx_slots(a),
    ensures
        none_more(a, b),
{
    reveal(none_more);
}

proof fn lemma_armed(a: Engine, b: Engine, id: SlotId, now_ms: u64)
    requires
        recovery_armed(a, b, id, now_ms),
    ensures
        none_more(a, b),
{
    reveal(none_more);
    assert forall|i: int| #[trigger] whole_at(b, i) implies whole_at(a, i) by {
        if i == id.at && a.rx_transfer(id).is_some() {
            assert(b.rx_transfer(id) == Some(rx_slots(b)[i]->0.transfer));
        }
    }
}

proof fn lemma_failed<T>(a: Core<T>, b: Core<T>, call: Call, failure: CallFailure, release: bool)
    requires
        call_failed(a, b, call, failure, release),
    ensures
        none_more(a.engine, b.engine),
{
    reveal(none_more);
}

proof fn lemma_find_body_is(slots: Seq<Option<BodySlot>>, role: BlockRole, key: BlockKeyView)
    ensures
        find_body(slots, role, key) matches Some(i) ==> 0 <= i < slots.len() && slots[i].is_some()
            && slots[i]->0.transfer.role == role,
    decreases slots.len(),
{
    if slots.len() > 0 {
        lemma_find_body_is(slots.drop_last(), role, key);
    }
}

proof fn lemma_response_block<T: DatagramIo>(
    a: Core<T>,
    b: Core<T>,
    m: MessageView,
    peer: Endpoint,
    block: Result<BlockValue, ValueError>,
    q_block: bool,
    r: Result<BlockProgress, BlockTransferError>,
)
    requires
        response_block_taken(a.engine, b.engine, m, peer, block, q_block, r),
    ensures
        none_more(a.engine, b.engine),
{
    reveal(none_more);
    if b.engine.store.bodies != a.engine.store.bodies {
        let before = a.engine.store.bodies->0.rx;
        let after = b.engine.store.bodies->0.rx;
        let key = choose|key: BlockKey|
            #[trigger] body_accepts(
                before,
                after,
                key,
                block->Ok_0,
                m,
                q_block,
                r,
            );
        lemma_find_body_is(before.slots@, BlockRole::IncomingBlock2, key@);
        lemma_find_body_is(before.slots@, BlockRole::IncomingQBlock2, key@);
    }
}

proof fn lemma_requested<T: DatagramIo>(
    a: Core<T>,
    b: Core<T>,
    m: MessageView,
    dest: Endpoint,
    forget: bool,
    now_ms: u64,
    r: Result<(), Error<T::Error>>,
)
    requires
        requested(a, b, m, dest, forget, now_ms, r),
    ensures
        b.engine.store.bodies == a.engine.store.bodies,
{
}

proof fn lemma_followed<T: DatagramIo>(
    a: Core<T>,
    b: Core<T>,
    call: Call,
    block2: Option<BlockValue>,
    q_block2: Option<BlockValue>,
    now_ms: u64,
    r: Result<(), Error<T::Error>>,
)
    requires
        followed_up(a, b, call, block2, q_block2, now_ms, r),
    ensures
        none_more(a.engine, b.engine),
{
    let m = followup_message(
        a.lives.row(call),
        call.token@,
        a.ids.next_mid,
        block2,
        q_block2,
    );
    assert forall|c: Core<T>|
        identified(a, c, now_ms) && #[trigger] requested(
            c,
            b,
            m,
            call.peer,
            false,
            now_ms,
            r,
        ) implies b.engine.store.bodies == a.engine.store.bodies by {
        lemma_requested(c, b, m, call.peer, false, now_ms, r);
    }
    lemma_more_same(a.engine, b.engine);
}

proof fn lemma_block_sent<T: DatagramIo>(
    a: Core<T>,
    b: Core<T>,
    u: UploadView,
    ty: Type,
    tag: Option<Seq<u8>>,
    body: Seq<u8>,
    num: u32,
    szx: u8,
    q_block: bool,
    now_ms: u64,
    r: Result<(), Error<T::Error>>,
)
    requires
        block_uploaded(a, b, u, ty, tag, body, num, szx, q_block, now_ms, r),
    ensures
        b.engine.store.bodies == a.engine.store.bodies,
{
    let m = upload_message(u, ty, a.ids.next_mid, tag, body, num, szx, q_block);
    assert forall|c: Core<T>|
        identified(a, c, now_ms) && #[trigger] requested(
            c,
            b,
            m,
            u.dest,
            true,
            now_ms,
            r,
        ) implies b.engine.store.bodies == a.engine.store.bodies by {
        lemma_requested(c, b, m, u.dest, true, now_ms, r);
    }
}

proof fn lemma_cut<T>(
    a: Core<T>,
    b: Core<T>,
    u: UploadView,
    id: SlotId,
    take_first: bool,
    place: int,
)
    requires
        upload_cut(a, b, u, id, take_first, place),
    ensures
        rx_slots(b.engine) == rx_slots(a.engine),
{
}

proof fn lemma_run<T: DatagramIo>(
    a: Core<T>,
    b: Core<T>,
    u: UploadView,
    id: SlotId,
    take_first: bool,
    now_ms: u64,
    upto: nat,
)
    requires
        upload_run::<T>(a, b, u, id, take_first, now_ms, upto),
    ensures
        rx_slots(b.engine) == rx_slots(a.engine),
    decreases upto,
{
    if upto > 0 {
        let slot = a.engine.store.bodies->0.tx.slots@[id.at as int]->0;
        let (c, d, ok) = choose|c: Core<T>, d: Core<T>, ok: Result<(), Error<T::Error>>|
            {
                &&& #[trigger] upload_cut(c, d, u, id, take_first, upto - 1)
                &&& #[trigger] upload_step(d, b, u, slot, upto - 1, now_ms, ok)
                &&& ok.is_ok()
                &&& upload_run::<T>(a, c, u, id, take_first, now_ms, (upto - 1) as nat)
            };
        lemma_run(a, c, u, id, take_first, now_ms, (upto - 1) as nat);
        lemma_cut(c, d, u, id, take_first, upto - 1);
        lemma_step(d, b, u, slot, upto - 1, now_ms, ok);
    }
}

proof fn lemma_step<T: DatagramIo>(
    a: Core<T>,
    b: Core<T>,
    u: UploadView,
    slot: BodySlot,
    place: int,
    now_ms: u64,
    r: Result<(), Error<T::Error>>,
)
    requires
        upload_step(a, b, u, slot, place, now_ms, r),
    ensures
        rx_slots(b.engine) == rx_slots(a.engine),
{
    lemma_block_sent(
        a,
        b,
        u,
        upload_type(u, place),
        slot.transfer.key.identity@,
        slot.bytes@,
        (slot.transfer.next_num + place) as u32,
        slot.transfer.szx,
        true,
        now_ms,
        r,
    );
}

proof fn lemma_window<T: DatagramIo>(
    a: Core<T>,
    b: Core<T>,
    u: UploadView,
    id: SlotId,
    take_first: bool,
    now_ms: u64,
    r: Result<(), Error<T::Error>>,
)
    requires
        upload_window(a, b, u, id, take_first, now_ms, r),
    ensures
        rx_slots(b.engine) == rx_slots(a.engine),
{
    let slot = a.engine.store.bodies->0.tx.slots@[id.at as int]->0;
    assert forall|n: nat| #[trigger]
        upload_run::<T>(a, b, u, id, take_first, now_ms, n) implies rx_slots(b.engine) == rx_slots(
        a.engine,
    ) by {
        lemma_run(a, b, u, id, take_first, now_ms, n);
    }
    assert forall|c: Core<T>, d: Core<T>, n: nat|
        #[trigger] upload_run::<T>(a, c, u, id, take_first, now_ms, n) && #[trigger] upload_cut(
            c,
            d,
            u,
            id,
            take_first,
            n as int,
        ) && upload_step(d, b, u, slot, n as int, now_ms, r) implies rx_slots(b.engine)
        == rx_slots(a.engine) by {
        lemma_run(a, c, u, id, take_first, now_ms, n);
        lemma_cut(c, d, u, id, take_first, n as int);
        lemma_step(d, b, u, slot, n as int, now_ms, r);
    }
}

proof fn lemma_issued<T: DatagramIo>(
    a: Core<T>,
    b: Core<T>,
    u: UploadView,
    id: SlotId,
    now_ms: u64,
    r: Result<(), Error<T::Error>>,
)
    requires
        block1_issued(a, b, u, id, now_ms, r),
    ensures
        rx_slots(b.engine) == rx_slots(a.engine),
{
    let t = a.engine.tx_transfer(id)->0;
    let body = a.engine.tx_body(id);
    assert forall|c: Core<T>|
        #[trigger] upload_cut(a, c, u, id, false, 0) && block_uploaded(
            c,
            b,
            u,
            u.ty,
            t.key.identity@,
            body,
            t.next_num,
            t.szx,
            false,
            now_ms,
            r,
        ) implies rx_slots(b.engine) == rx_slots(a.engine) by {
        lemma_cut(a, c, u, id, false, 0);
        lemma_block_sent(
            c,
            b,
            u,
            u.ty,
            t.key.identity@,
            body,
            t.next_num,
            t.szx,
            false,
            now_ms,
            r,
        );
    }
}

proof fn lemma_continued<T: DatagramIo>(
    a: Core<T>,
    b: Core<T>,
    m: MessageView,
    peer: Endpoint,
    id: SlotId,
    now_ms: u64,
    r: Result<(), Error<T::Error>>,
)
    requires
        upload_continued(a, b, m, peer, id, now_ms, r),
    ensures
        none_more(a.engine, b.engine),
{
    assert forall|c: Core<T>, u: UploadView|
        request_taken(a, c, m.token, peer) && #[trigger] block1_issued(
            c,
            b,
            u,
            id,
            now_ms,
            r,
        ) implies rx_slots(b.engine) == rx_slots(a.engine) by {
        lemma_issued(c, b, u, id, now_ms, r);
    }
    assert forall|c: Core<T>, u: UploadView, base: int|
        #[trigger] window_moved(a, c, id, base) && #[trigger] upload_window(
            c,
            b,
            u,
            id,
            true,
            now_ms,
            r,
        ) implies rx_slots(b.engine) == rx_slots(a.engine) by {
        lemma_window(c, b, u, id, true, now_ms, r);
    }
    lemma_more_same(a.engine, b.engine);
}

proof fn lemma_part<T: DatagramIo>(
    a: Core<T>,
    b: Core<T>,
    call: Call,
    m: MessageView,
    id: SlotId,
    q_block: bool,
    now_ms: u64,
    r: Result<(), Error<T::Error>>,
)
    requires
        part_taken(a, b, call, m, id, q_block, now_ms, r),
    ensures
        none_more(a.engine, b.engine),
{
    let (c, d, ok) = choose|c: Core<T>, d: Core<T>, ok: bool|
        {
            &&& noted(a, c, call, m, now_ms)
            &&& #[trigger] partial_kept(c, d, call, m, id, now_ms, ok)
            &&& if !ok {
                r == Err::<(), Error<T::Error>>(Error::Saturated) && b == d
            } else {
                let wanted = next_wanted(d.engine.rx_transfer(id)->0, q_block);
                exists|e: Core<T>|
                    {
                        &&& #[trigger] part_noted(d, e, call, id, q_block, wanted, now_ms)
                        &&& match wanted {
                            Some(block) => asked_next(
                                e,
                                b,
                                call,
                                block,
                                q_block,
                                now_ms,
                                r,
                            ),
                            None => r.is_ok() && b == e,
                        }
                    }
            }
        };
    assert(none_more(a.engine, d.engine)) by {
        reveal(none_more);
    }
    if ok {
        let wanted = next_wanted(d.engine.rx_transfer(id)->0, q_block);
        let e = choose|e: Core<T>|
            {
                &&& #[trigger] part_noted(d, e, call, id, q_block, wanted, now_ms)
                &&& match wanted {
                    Some(block) => asked_next(
                        e,
                        b,
                        call,
                        block,
                        q_block,
                        now_ms,
                        r,
                    ),
                    None => r.is_ok() && b == e,
                }
            };
        let x = choose|x: Engine|
            {
                &&& #[trigger] block_noted(d.engine, x, id, q_block, now_ms)
                &&& e.engine == (Engine { exchanges: e.engine.exchanges, ..x })
            };
        lemma_noted(d.engine, x, id, q_block, now_ms);
        lemma_more_same(x, e.engine);
        lemma_more_trans(a.engine, d.engine, x);
        lemma_more_trans(a.engine, x, e.engine);
        if let Some(block) = wanted {
            if q_block {
                lemma_followed(e, b, call, None, Some(block), now_ms, r);
            } else {
                lemma_followed(e, b, call, Some(block), None, now_ms, r);
            }
            lemma_more_trans(a.engine, e.engine, b.engine);
        }
    }
}

proof fn lemma_noted(a: Engine, b: Engine, id: SlotId, q_block: bool, now_ms: u64)
    requires
        block_noted(a, b, id, q_block, now_ms),
    ensures
        none_more(a, b),
{
    if q_block {
        lemma_armed(a, b, id, now_ms);
    } else {
        lemma_more_same(a, b);
    }
}

proof fn lemma_plain<T>(
    a: Core<T>,
    b: Core<T>,
    call: Call,
    m: MessageView,
    via_exchange: bool,
    now_ms: u64,
)
    requires
        plain_taken(a, b, call, m, via_exchange, now_ms),
    ensures
        none_more(a.engine, b.engine),
{
    reveal(none_more);
}

proof fn lemma_outcome<T: DatagramIo>(
    a: Core<T>,
    b: Core<T>,
    call: Call,
    m: MessageView,
    q_block: bool,
    via_exchange: bool,
    now_ms: u64,
    p: Result<BlockProgress, BlockTransferError>,
    r: Result<(), Error<T::Error>>,
)
    requires
        block_outcome(a, b, call, m, q_block, via_exchange, now_ms, p, r),
    ensures
        none_more(a.engine, b.engine),
{
    lemma_more_same(a.engine, a.engine);
    match p {
        Ok(p) => {
            if p.done {
                let c = choose|c: Core<T>|
                    c == (Core { engine: c.engine, ..a }) && block_noted(
                        a.engine,
                        c.engine,
                        p.id,
                        q_block,
                        now_ms,
                    ) && #[trigger] whole_taken(c, b, call, m, p.id, via_exchange, now_ms);
                lemma_noted(a.engine, c.engine, p.id, q_block, now_ms);
                assert(none_more(c.engine, b.engine)) by {
                    reveal(none_more);
                }
                lemma_more_trans(a.engine, c.engine, b.engine);
            } else {
                lemma_part(a, b, call, m, p.id, q_block, now_ms, r);
            }
        },
        Err(BlockTransferError::NoBodyPools) => {
            lemma_plain(a, b, call, m, via_exchange, now_ms);
        },
        Err(e) => {
            if b != a {
                lemma_failed(a, b, call, CallFailure::BlockTransfer(e), true);
            }
        },
    }
}

proof fn lemma_content<T: DatagramIo>(
    a: Core<T>,
    b: Core<T>,
    call: Call,
    m: MessageView,
    via_exchange: bool,
    now_ms: u64,
    r: Result<(), Error<T::Error>>,
)
    requires
        content_taken(a, b, call, m, via_exchange, now_ms, r),
    ensures
        none_more(a.engine, b.engine),
{
    if !meta_fits(m) {
        lemma_failed(a, b, call, CallFailure::ResponseMetadataBounds, true);
    } else {
        match block_option(m.options, 23) {
            Some(block) => {
                lemma_taken(a, b, call, m, block, false, via_exchange, now_ms, r);
            },
            None => match block_option(m.options, 31) {
                Some(block) => {
                    lemma_taken(a, b, call, m, block, true, via_exchange, now_ms, r);
                },
                None => {
                    lemma_plain(a, b, call, m, via_exchange, now_ms);
                },
            },
        }
    }
}

proof fn lemma_taken<T: DatagramIo>(
    a: Core<T>,
    b: Core<T>,
    call: Call,
    m: MessageView,
    block: Result<BlockValue, ValueError>,
    q_block: bool,
    via_exchange: bool,
    now_ms: u64,
    r: Result<(), Error<T::Error>>,
)
    requires
        block_taken(a, b, call, m, block, q_block, via_exchange, now_ms, r),
    ensures
        none_more(a.engine, b.engine),
{
    let (c, p) = choose|c: Core<T>, p: Result<BlockProgress, BlockTransferError>|
        {
            &&& c == (Core { engine: c.engine, ..a })
            &&& response_block_taken(a.engine, c.engine, m, call.peer, block, q_block, p)
            &&& #[trigger] block_outcome(c, b, call, m, q_block, via_exchange, now_ms, p, r)
        };
    lemma_response_block(a, c, m, call.peer, block, q_block, p);
    lemma_outcome(c, b, call, m, q_block, via_exchange, now_ms, p, r);
    lemma_more_trans(a.engine, c.engine, b.engine);
}

proof fn lemma_response<T: DatagramIo>(
    a: Core<T>,
    b: Core<T>,
    call: Call,
    m: MessageView,
    via_exchange: bool,
    now_ms: u64,
    r: Result<(), Error<T::Error>>,
)
    requires
        response_taken(a, b, call, m, via_exchange, now_ms, r),
    ensures
        none_more(a.engine, b.engine),
{
    let at = choose|at: Option<SlotId>|
        {
            &&& #[trigger] uploads_from(a, call, at)
            &&& if at.is_some() && m.code == Code::CONTINUE {
                upload_continued(a, b, m, call.peer, at->0, now_ms, r)
            } else {
                exists|c: Core<T>|
                    c == (Core { engine: c.engine, ..a }) && upload_over(a.engine, c.engine, at)
                        && #[trigger] content_taken(c, b, call, m, via_exchange, now_ms, r)
            }
        };
    if at.is_some() && m.code == Code::CONTINUE {
        lemma_continued(a, b, m, call.peer, at->0, now_ms, r);
    } else {
        let c = choose|c: Core<T>|
            c == (Core { engine: c.engine, ..a }) && upload_over(a.engine, c.engine, at)
                && #[trigger] content_taken(c, b, call, m, via_exchange, now_ms, r);
        lemma_more_same(a.engine, c.engine);
        lemma_content(c, b, call, m, via_exchange, now_ms, r);
        lemma_more_trans(a.engine, c.engine, b.engine);
    }
}

proof fn lemma_completed<T: DatagramIo>(
    a: Core<T>,
    b: Core<T>,
    call: Call,
    m: MessageView,
    now_ms: u64,
    r: Result<(), Error<T::Error>>,
)
    requires
        completed(a, b, call, m, now_ms, r),
    ensures
        none_more(a.engine, b.engine),
{
    let origin = answered_request(a.engine, m, call.peer);
    if rx_slots(b.engine) == rx_slots(a.engine) {
        lemma_more_same(a.engine, b.engine);
    } else {
        let (c, ack) = choose|c: Core<T>, ack: Result<(), Error<T::Error>>|
            {
                &&& #[trigger] confirmed(a, c, m, call.peer, ack)
                &&& if ack.is_err() {
                    r == ack && b == c
                } else if !a.lives.fresh(call, m, now_ms) {
                    r.is_ok() && b == c
                } else {
                    exists|d: Core<T>|
                        acknowledgements_settled(c, d, origin, m, call.peer)
                            && #[trigger] response_taken(
                            d,
                            b,
                            call,
                            m,
                            origin.is_some(),
                            now_ms,
                            r,
                        )
                }
            };
        assert(rx_slots(c.engine) == rx_slots(a.engine));
        let d = choose|d: Core<T>|
            acknowledgements_settled(c, d, origin, m, call.peer) && #[trigger] response_taken(
                d,
                b,
                call,
                m,
                origin.is_some(),
                now_ms,
                r,
            );
        lemma_more_same(a.engine, d.engine);
        lemma_response(d, b, call, m, origin.is_some(), now_ms, r);
        lemma_more_trans(a.engine, d.engine, b.engine);
    }
}

proof fn lemma_emptied<T>(a: Core<T>, b: Core<T>, m: MessageView, peer: Endpoint)
    requires
        emptied(a, b, m, peer),
    ensures
        none_more(a.engine, b.engine),
{
    let mid = MessageId { raw: m.id };
    let c = choose|c: Core<T>|
        {
            &&& if m.ty == Type::Reset {
                call_reset(a, c, mid, peer)
            } else {
                c == a
            }
            &&& #[trigger] about_settled(c, b, mid, peer, m.ty)
        };
    assert(none_more(a.engine, c.engine)) by {
        reveal(none_more);
    }
    lemma_more_same(c.engine, b.engine);
    lemma_more_trans(a.engine, c.engine, b.engine);
}

proof fn lemma_replayed<T: DatagramIo>(
    a: Core<T>,
    b: Core<T>,
    peer: Endpoint,
    mid: MessageId,
    code: Code,
    now_ms: u64,
    r: Option<Result<(), Error<T::Error>>>,
)
    requires
        replayed(a, b, peer, mid, code, now_ms, r),
    ensures
        rx_slots(b.engine) == rx_slots(a.engine),
{
}

proof fn lemma_admitted<T: DatagramIo, const N: usize>(
    a: Core<T>,
    b: Core<T>,
    site: Site<N>,
    m: MessageView,
    answer: Answer,
    now_ms: u64,
    res: Result<(), Error<T::Error>>,
)
    requires
        admitted(a, b, site, m, answer, now_ms, res),
    ensures
        none_more(a.engine, b.engine),
{
    reveal(admitted);
    let (c, e, body) = choose|c: Core<T>, e: Core<T>, body: InboundBody|
        {
            &&& c == (Core { engine: c.engine, ..a })
            &&& #[trigger] assembled(a.engine, c.engine, m, answer.dest, now_ms, body)
            &&& #[trigger] body_served(c, e, site, m, answer, body, now_ms, res)
            &&& rx_slots(e.engine) == rx_slots(c.engine)
            &&& body_freed(e, b, body)
        };
    lemma_assembled(a.engine, c.engine, m, answer.dest, now_ms, body);
    reveal(none_more);
    assert forall|i: int| #[trigger] whole_at(b.engine, i) implies whole_at(a.engine, i) by {
        assert(whole_at(c.engine, i));
    }
}

proof fn lemma_assembled(
    a: Engine,
    b: Engine,
    m: MessageView,
    peer: Endpoint,
    now_ms: u64,
    body: InboundBody,
)
    requires
        assembled(a, b, m, peer, now_ms, body),
    ensures
        rx_slots(b).len() == rx_slots(a).len(),
        forall|i: int| #[trigger]
            whole_at(b, i) ==> whole_at(a, i) || body == InboundBody::Complete(
                SlotId { at: i as usize },
            ) && i <= usize::MAX,
{
}

/// Taking in a datagram frees its slot, and leaves no request body behind that
/// it made whole: where one waits, one did before.
pub proof fn law_dispatch_lets_go<T: DatagramIo, const N: usize>(
    a: Core<T>,
    b: Core<T>,
    site: Site<N>,
    policy: Option<Box<dyn EchoPolicy>>,
    rx: SlotId,
    now_ms: u64,
    r: Result<(), Error<T::Error>>,
)
    requires
        rx_dispatched(a, b, site, policy, rx, now_ms, r),
    ensures
        b.engine.store.rx.slots@ == a.engine.store.rx.slots@.update(rx.at as int, None),
        forall|i: int| #[trigger] whole_at(b.engine, i) ==> whole_at(a.engine, i),
{
    let slot = a.engine.store.rx.slots@[rx.at as int]->0;
    let c = choose|c: Core<T>|
        {
            &&& #[trigger] rx_freed(c, b, rx)
            &&& c.engine.store.rx == a.engine.store.rx
            &&& match slot.peer {
                Some(peer) => datagram_handled(
                    a,
                    c,
                    site,
                    policy,
                    a.engine.store.rx.datagram(rx),
                    peer,
                    now_ms,
                    r,
                ),
                None => r.is_ok() && c == a,
            }
        };
    lemma_more_same(a.engine, a.engine);
    if let Some(peer) = slot.peer {
        lemma_handled(a, c, site, policy, a.engine.store.rx.datagram(rx), peer, now_ms, r);
    }
    lemma_more_same(c.engine, b.engine);
    lemma_more_trans(a.engine, c.engine, b.engine);
    reveal(none_more);
}

proof fn lemma_handled<T: DatagramIo, const N: usize>(
    a: Core<T>,
    b: Core<T>,
    site: Site<N>,
    policy: Option<Box<dyn EchoPolicy>>,
    bytes: Seq<u8>,
    peer: Endpoint,
    now_ms: u64,
    r: Result<(), Error<T::Error>>,
)
    requires
        datagram_handled(a, b, site, policy, bytes, peer, now_ms, r),
    ensures
        none_more(a.engine, b.engine),
{
    if rx_slots(b.engine) == rx_slots(a.engine) {
        lemma_more_same(a.engine, b.engine);
    } else {
        let m = read_message(bytes)->Ok_0;
        if m.code.raw() == 0 {
            lemma_emptied(a, b, m, peer);
        } else if m.code.spec_is_request() {
            lemma_request(a, b, site, policy, m, peer, now_ms, r);
        } else {
            let call = choose|call: Call|
                call.peer == peer && call.token@ == m.token && #[trigger] completed(
                    a,
                    b,
                    call,
                    m,
                    now_ms,
                    r,
                );
            lemma_completed(a, b, call, m, now_ms, r);
        }
    }
}

proof fn lemma_request<T: DatagramIo, const N: usize>(
    a: Core<T>,
    b: Core<T>,
    site: Site<N>,
    policy: Option<Box<dyn EchoPolicy>>,
    m: MessageView,
    peer: Endpoint,
    now_ms: u64,
    r: Result<(), Error<T::Error>>,
)
    requires
        request_handled(a, b, site, policy, m, peer, now_ms, r),
    ensures
        none_more(a.engine, b.engine),
{
    if m.ty == Type::Confirmable {
        let (c, again) = choose|c: Core<T>, again: Option<Result<(), Error<T::Error>>>|
            {
                &&& #[trigger] replayed(
                    a,
                    c,
                    peer,
                    MessageId { raw: m.id },
                    m.code,
                    now_ms,
                    again,
                )
                &&& match again {
                    Some(x) => r == x && b == c,
                    None => request_served(c, b, site, policy, m, peer, now_ms, r),
                }
            };
        lemma_replayed(a, c, peer, MessageId { raw: m.id }, m.code, now_ms, again);
        lemma_more_same(a.engine, c.engine);
        if again.is_none() {
            lemma_served(c, b, site, policy, m, peer, now_ms, r);
            lemma_more_trans(a.engine, c.engine, b.engine);
        }
    } else {
        lemma_served(a, b, site, policy, m, peer, now_ms, r);
    }
}

proof fn lemma_served<T: DatagramIo, const N: usize>(
    a: Core<T>,
    b: Core<T>,
    site: Site<N>,
    policy: Option<Box<dyn EchoPolicy>>,
    m: MessageView,
    peer: Endpoint,
    now_ms: u64,
    r: Result<(), Error<T::Error>>,
)
    requires
        request_served(a, b, site, policy, m, peer, now_ms, r),
    ensures
        none_more(a.engine, b.engine),
{
    if rx_slots(b.engine) == rx_slots(a.engine) {
        lemma_more_same(a.engine, b.engine);
    } else {
        let answer = choose|answer: Answer|
            #[trigger] admitted(a, b, site, m, answer, now_ms, r);
        lemma_admitted(a, b, site, m, answer, now_ms, r);
    }
}

} // verus!
