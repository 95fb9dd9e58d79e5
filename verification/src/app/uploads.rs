//! What is kept of an upload, and what its sender is told.
use vstd::prelude::*;

use super::answer::Answer;
use super::error::Error;
use super::inbound::{assembled, rx_slots, InboundBody};
use super::reactor::Core;
use super::respond::answered;
use super::response::ResponseView;
use super::serve::{admitted, body_served};
use super::site::Site;
use crate::message::fields::{block_option, first_value, uint_option};
use crate::message::wire::MessageView;
use crate::message::{BlockValue, Code, Type};
use crate::storage::endpoint::{BlockKeyView, Endpoint};
use crate::storage::engine::Engine;
use crate::storage::io::DatagramIo;
use crate::storage::transfer::{find_body, BlockRole, BodySlot};

verus! {

/// Does a slot hold the upload that a request belongs to: of the same kind, from the
/// same peer, under the same token and the same Request-Tag?
pub open spec fn holds_upload(
    slot: Option<BodySlot>,
    role: BlockRole,
    m: MessageView,
    peer: Endpoint,
) -> bool {
    match slot {
        Some(s) => {
            &&& s.transfer.role == role
            &&& s.transfer.key@.token == m.token
            &&& s.transfer.key@.peer == peer
            &&& s.transfer.key@.identity == first_value(m.options, 292)
        },
        None => false,
    }
}

/// Is this the slot of the upload that a request belongs to, the first one if there
/// are several, or nothing if there is none?
pub open spec fn upload_in(
    slots: Seq<Option<BodySlot>>,
    role: BlockRole,
    m: MessageView,
    peer: Endpoint,
    at: Option<int>,
) -> bool {
    match at {
        Some(i) => {
            &&& 0 <= i < slots.len()
            &&& holds_upload(slots[i], role, m, peer)
            &&& forall|j: int| 0 <= j < i ==> !holds_upload(#[trigger] slots[j], role, m, peer)
        },
        None => forall|j: int|
            0 <= j < slots.len() ==> !holds_upload(#[trigger] slots[j], role, m, peer),
    }
}

/// The bytes that are kept of an upload.
pub open spec fn kept_bytes(slots: Seq<Option<BodySlot>>, at: Option<int>) -> Seq<u8> {
    match at {
        Some(i) => slots[i]->0.bytes@,
        None => Seq::empty(),
    }
}

/// The number of the block that an ordered upload goes on with.
pub open spec fn next_block(slots: Seq<Option<BodySlot>>, at: Option<int>) -> int {
    match at {
        Some(i) => slots[i]->0.transfer.next_num as int,
        None => 0,
    }
}

/// Is an ordered upload open, and are its blocks of this size?
pub open spec fn open_upload(slots: Seq<Option<BodySlot>>, at: Option<int>, szx: u8) -> bool {
    &&& szx <= 6
    &&& match at {
        Some(i) => !slots[i]->0.transfer.complete && slots[i]->0.transfer.szx == szx,
        None => true,
    }
}

/// Bytes in a block: 16, doubled for each step of the exponent.
pub open spec fn step_size(szx: u8) -> int
    decreases szx,
{
    if szx == 0 {
        16
    } else {
        2 * step_size((szx - 1) as u8)
    }
}

/// Has a block as many bytes as one of its size may have: all of them, or at most as
/// many if it is the last?
pub open spec fn block_length_ok(block: BlockValue, len: int) -> bool {
    len == step_size(block.szx) || (!block.more && len < step_size(block.szx))
}

proof fn lemma_step_size(szx: u8)
    requires
        szx <= 6,
    ensures
        step_size(szx) == crate::message::value::block_size(szx as int),
{
    reveal_with_fuel(step_size, 8);
}

proof fn lemma_found_upload(
    slots: Seq<Option<BodySlot>>,
    role: BlockRole,
    key: BlockKeyView,
    m: MessageView,
    peer: Endpoint,
)
    requires
        key.token == m.token,
        key.peer == peer,
        key.identity == first_value(m.options, 292),
    ensures
        upload_in(slots, role, m, peer, find_body(slots, role, key)),
    decreases slots.len(),
{
    if slots.len() > 0 {
        let front = slots.drop_last();
        lemma_found_upload(front, role, key, m, peer);
        assert forall|j: int| 0 <= j < front.len() implies #[trigger] slots[j] == front[j] by {}
        match find_body(front, role, key) {
            Some(i) => {
                assert(slots[i] == front[i]);
            },
            None => {
                match slots.last() {
                    Some(s) => {
                        if s.transfer.role == role && s.transfer.key@.token == m.token
                            && s.transfer.key@.peer == peer && s.transfer.key@.identity
                            == first_value(m.options, 292) {
                            assert(s.transfer.key@ == key);
                        }
                    },
                    None => {},
                }
            },
        }
    }
}

proof fn lemma_upload_unique(
    slots: Seq<Option<BodySlot>>,
    role: BlockRole,
    m: MessageView,
    peer: Endpoint,
    a: Option<int>,
    b: Option<int>,
)
    requires
        upload_in(slots, role, m, peer, a),
        upload_in(slots, role, m, peer, b),
    ensures
        a == b,
{
    match (a, b) {
        (Some(i), Some(j)) => {
            if i < j {
                assert(!holds_upload(slots[i], role, m, peer));
            } else if j < i {
                assert(!holds_upload(slots[j], role, m, peer));
            }
        },
        (Some(i), None) => {
            assert(!holds_upload(slots[i], role, m, peer));
        },
        (None, Some(j)) => {
            assert(!holds_upload(slots[j], role, m, peer));
        },
        (None, None) => {},
    }
}

/// A block of an ordered upload is acknowledged to go on, or completes the upload, only
/// if its bytes are part of the body that is kept: it is the next block and its
/// bytes now stand behind the others, at its number times its size; or nothing
/// changed, because a block with its number was taken before or the upload was
/// whole.
pub proof fn law_acknowledged_block_is_kept(
    before: Engine,
    after: Engine,
    m: MessageView,
    peer: Endpoint,
    now_ms: u64,
    out: InboundBody,
    block: BlockValue,
    at: Option<int>,
)
    requires
        before.wf(),
        assembled(before, after, m, peer, now_ms, out),
        block_option(m.options, 27) matches Some(Ok(b)) && b == block,
        upload_in(rx_slots(before), BlockRole::IncomingBlock1, m, peer, at),
        out is Continue || out is Complete,
    ensures
        ({
            let kept = kept_bytes(rx_slots(before), at);
            let next = next_block(rx_slots(before), at);
            ||| exists|i: int|
                {
                    &&& 0 <= i < rx_slots(after).len()
                    &&& holds_upload(
                        #[trigger] rx_slots(after)[i],
                        BlockRole::IncomingBlock1,
                        m,
                        peer,
                    )
                    &&& rx_slots(after)[i]->0.bytes@ == kept + m.payload
                    &&& rx_slots(after) == rx_slots(before).update(i, rx_slots(after)[i])
                    &&& rx_slots(after)[i]->0.transfer.next_num == block.num + 1
                    &&& kept.len() == block.num * step_size(block.szx)
                    &&& block.num == next
                    &&& at.is_some() ==> at == Some(i)
                    &&& match out {
                        InboundBody::Complete(id) => !block.more && id.at == i,
                        _ => block.more,
                    }
                }
            ||| {
                &&& out is Continue
                &&& rx_slots(after) == rx_slots(before)
                &&& at.is_some()
                &&& block.num < next || rx_slots(before)[at->0]->0.transfer.complete
            }
        }),
{
    let slots = rx_slots(before);
    let (key, r) = choose|
        key: crate::storage::endpoint::BlockKey,
        r: Result<crate::storage::body::BlockProgress, crate::error::BlockTransferError>,
    |
        key@ == super::inbound::request_body(m, peer) && #[trigger] super::inbound::ordered_taken(
            before,
            after,
            key,
            block,
            m,
            r,
        ) && out == super::inbound::ordered_outcome(r);
    lemma_found_upload(slots, BlockRole::IncomingBlock1, key@, m, peer);
    lemma_upload_unique(
        slots,
        BlockRole::IncomingBlock1,
        m,
        peer,
        at,
        find_body(slots, BlockRole::IncomingBlock1, key@),
    );
    crate::storage::table::lemma_free_row(slots);
    if r.is_ok() {
        let i = r->Ok_0.id.at as int;
        lemma_step_size(block.szx);
        assert(holds_upload(rx_slots(after)[i], BlockRole::IncomingBlock1, m, peer));
        if at.is_none() {
            assert(0 * step_size(block.szx) == 0) by (nonlinear_arith);
        }
    }
}

/// The largest body that a slot for uploads holds.
pub open spec fn upload_room(e: Engine) -> int {
    match e.store.bodies {
        Some(b) => b.rx.slot_bytes as int,
        None => 0,
    }
}

/// The length that a request announces for its body.
pub open spec fn said_length(m: MessageView) -> Option<u32> {
    match uint_option(m.options, 60, 4) {
        Some(Ok(n)) => Some(n),
        _ => None,
    }
}

/// What becomes of the next block of an ordered upload. If it would make the body longer
/// than its slot, it is refused as too large, and nothing changes. If it fits, is
/// as long as a block of its size may be, does not contradict the length that was
/// announced, and there is a slot, it is taken: it completes the upload if no more
/// follow, else the sender goes on.
pub proof fn law_next_block(
    before: Engine,
    after: Engine,
    m: MessageView,
    peer: Endpoint,
    now_ms: u64,
    out: InboundBody,
    block: BlockValue,
    at: Option<int>,
)
    requires
        before.wf(),
        before.store.bodies.is_some(),
        assembled(before, after, m, peer, now_ms, out),
        block_option(m.options, 27) matches Some(Ok(b)) && b == block,
        upload_in(rx_slots(before), BlockRole::IncomingBlock1, m, peer, at),
        open_upload(rx_slots(before), at, block.szx),
        block.num == next_block(rx_slots(before), at),
        block_length_ok(block, m.payload.len() as int),
    ensures
        ({
            let len = kept_bytes(rx_slots(before), at).len() + m.payload.len();
            let known = match at {
                Some(i) => rx_slots(before)[i]->0.transfer.total,
                None => said_length(m),
            };
            &&& len > upload_room(before) ==> out == InboundBody::Refused(
                Code::REQUEST_ENTITY_TOO_LARGE,
            ) && after == before
            &&& len <= upload_room(before) && known.is_none() && said_length(m).is_none() && (
            at.is_some() || exists|i: int|
                0 <= i < rx_slots(before).len() && (#[trigger] rx_slots(before)[i]).is_none()) ==> (
            if block.more {
                out is Continue
            } else {
                out is Complete
            })
            &&& len <= upload_room(before) && (known matches Some(n) && (said_length(m).is_none()
                || said_length(m) == known) && (if block.more {
                len <= n
            } else {
                len == n
            })) && (at.is_some() || exists|i: int|
                0 <= i < rx_slots(before).len() && (#[trigger] rx_slots(before)[i]).is_none()) ==> (
            if block.more {
                out is Continue
            } else {
                out is Complete
            })
            &&& len <= upload_room(before) && (known matches Some(n) && (len > n || (!block.more
                && len != n) || (said_length(m).is_some() && said_length(m) != known))) ==> out
                == InboundBody::Refused(Code::REQUEST_ENTITY_INCOMPLETE) && after == before
        }),
{
    let slots = rx_slots(before);
    let (key, r) = choose|
        key: crate::storage::endpoint::BlockKey,
        r: Result<crate::storage::body::BlockProgress, crate::error::BlockTransferError>,
    |
        key@ == super::inbound::request_body(m, peer) && #[trigger] super::inbound::ordered_taken(
            before,
            after,
            key,
            block,
            m,
            r,
        ) && out == super::inbound::ordered_outcome(r);
    lemma_found_upload(slots, BlockRole::IncomingBlock1, key@, m, peer);
    lemma_upload_unique(
        slots,
        BlockRole::IncomingBlock1,
        m,
        peer,
        at,
        find_body(slots, BlockRole::IncomingBlock1, key@),
    );
    crate::storage::table::lemma_free_row(slots);
    lemma_step_size(block.szx);
}

/// A block of an ordered upload that cannot be the next one is refused as incomplete, and
/// nothing changes: one ahead of it, one of another size, of the reserved size, or
/// of a length that a block of its size cannot have. Without room for bodies at all
/// the option is refused.
pub proof fn law_stray_block(
    before: Engine,
    after: Engine,
    m: MessageView,
    peer: Endpoint,
    now_ms: u64,
    out: InboundBody,
    block: BlockValue,
    at: Option<int>,
)
    requires
        before.wf(),
        assembled(before, after, m, peer, now_ms, out),
        block_option(m.options, 27) matches Some(Ok(b)) && b == block,
        upload_in(rx_slots(before), BlockRole::IncomingBlock1, m, peer, at),
    ensures
        before.store.bodies.is_none() ==> out == InboundBody::Refused(Code::BAD_OPTION)
            && after.store.bodies.is_none(),
        before.store.bodies.is_some() && !(at matches Some(i) && rx_slots(
            before,
        )[i]->0.transfer.complete) && (block.szx > 6 || block.num > next_block(
            rx_slots(before),
            at,
        ) || (block.num == next_block(rx_slots(before), at) && (!open_upload(
            rx_slots(before),
            at,
            block.szx,
        ) || !block_length_ok(block, m.payload.len() as int)))) ==> out == InboundBody::Refused(
            Code::REQUEST_ENTITY_INCOMPLETE,
        ) && after == before,
        out matches InboundBody::Refused(c) ==> rx_slots(after) == rx_slots(before),
        !(out is Plain) && !(out is Wait),
{
    let slots = rx_slots(before);
    let (key, r) = choose|
        key: crate::storage::endpoint::BlockKey,
        r: Result<crate::storage::body::BlockProgress, crate::error::BlockTransferError>,
    |
        key@ == super::inbound::request_body(m, peer) && #[trigger] super::inbound::ordered_taken(
            before,
            after,
            key,
            block,
            m,
            r,
        ) && out == super::inbound::ordered_outcome(r);
    lemma_found_upload(slots, BlockRole::IncomingBlock1, key@, m, peer);
    lemma_upload_unique(
        slots,
        BlockRole::IncomingBlock1,
        m,
        peer,
        at,
        find_body(slots, BlockRole::IncomingBlock1, key@),
    );
    if block.szx <= 6 {
        lemma_step_size(block.szx);
    }
}

/// Is a response with this code, and no other, handed over to be sent to the sender of
/// a request, from one state to another?
pub open spec fn answers_with<T: DatagramIo>(
    a: Core<T>,
    b: Core<T>,
    answer: Answer,
    code: Code,
    now_ms: u64,
    res: Result<(), Error<T::Error>>,
) -> bool {
    exists|r: ResponseView| r.code == code && #[trigger] answered(a, b, answer, r, now_ms, res)
}

/// What the sender of a block is told: 2.31 if it is to go on, the code of the refusal if
/// it is refused; while blocks of a window are waited for, nothing at all or, when
/// a window is full, 2.31.
pub proof fn law_upload_answer<T: DatagramIo, const N: usize>(
    a: Core<T>,
    b: Core<T>,
    site: Site<N>,
    m: MessageView,
    answer: Answer,
    body: InboundBody,
    now_ms: u64,
    res: Result<(), Error<T::Error>>,
)
    requires
        body_served(a, b, site, m, answer, body, now_ms, res),
    ensures
        body is Continue ==> exists|to: Answer|
            to.dest == answer.dest && (to == answer || (to.token@ == m.token && to.mid.raw == m.id
                && to.ty == m.ty)) && #[trigger] answers_with(
                a,
                b,
                to,
                Code::CONTINUE,
                now_ms,
                res,
            ),
        body matches InboundBody::Refused(code) ==> answers_with(a, b, answer, code, now_ms, res),
        body matches InboundBody::Wait(None) ==> b == a && res.is_ok(),
        body matches InboundBody::Wait(Some(v)) ==> exists|to: Answer|
            to.dest == answer.dest && to.token@ == m.token && to.mid.raw == m.id && to.ty == m.ty && (
            to.block1 matches Some(o) && o.value == v && o.q_block) && #[trigger] answers_with(
                a,
                b,
                to,
                Code::CONTINUE,
                now_ms,
                res,
            ),
{
    match body {
        InboundBody::Continue => {
            if first_value(m.options, 19).is_some() {
                let to = choose|to: Answer|
                    super::serve::for_message(to, m, answer.dest) && super::serve::bare_answer(
                        to,
                        None,
                    ) && #[trigger] answered(
                        a,
                        b,
                        to,
                        super::response::bare_response(Code::CONTINUE),
                        now_ms,
                        res,
                    );
                assert(answers_with(a, b, to, Code::CONTINUE, now_ms, res));
            } else {
                assert(answers_with(a, b, answer, Code::CONTINUE, now_ms, res));
            }
        },
        InboundBody::Wait(Some(value)) => {
            let to = choose|to: Answer|
                super::serve::for_message(to, m, answer.dest) && super::serve::bare_answer(
                    to,
                    Some(super::reply::BlockOpt { value, q_block: true, size2: None }),
                ) && #[trigger] answered(
                    a,
                    b,
                    to,
                    super::response::bare_response(Code::CONTINUE),
                    now_ms,
                    res,
                );
            assert(answers_with(a, b, to, Code::CONTINUE, now_ms, res));
        },
        InboundBody::Refused(code) => {
            assert(answered(
                a,
                b,
                answer,
                super::response::titled_problem(code, super::serve::refusal_title(code)),
                now_ms,
                res,
            ));
        },
        _ => {},
    }
}

/// The next block of an ordered upload that would make the body longer than its slot is
/// answered 4.13, and what was kept of uploads stays as it is.
pub proof fn law_large_upload_answered<T: DatagramIo, const N: usize>(
    a: Core<T>,
    b: Core<T>,
    site: Site<N>,
    m: MessageView,
    answer: Answer,
    now_ms: u64,
    res: Result<(), Error<T::Error>>,
    block: BlockValue,
    at: Option<int>,
)
    requires
        a.engine.wf(),
        a.engine.store.bodies.is_some(),
        admitted(a, b, site, m, answer, now_ms, res),
        block_option(m.options, 27) matches Some(Ok(o)) && o == block,
        upload_in(rx_slots(a.engine), BlockRole::IncomingBlock1, m, answer.dest, at),
        open_upload(rx_slots(a.engine), at, block.szx),
        block.num == next_block(rx_slots(a.engine), at),
        block_length_ok(block, m.payload.len() as int),
        kept_bytes(rx_slots(a.engine), at).len() + m.payload.len() > upload_room(a.engine),
    ensures
        answers_with(a, b, answer, Code::REQUEST_ENTITY_TOO_LARGE, now_ms, res),
        rx_slots(b.engine) == rx_slots(a.engine),
{
    reveal(admitted);
    let (c, e, body) = choose|c: Core<T>, e: Core<T>, body: InboundBody|
        {
            &&& c == (Core { engine: c.engine, ..a })
            &&& #[trigger] assembled(a.engine, c.engine, m, answer.dest, now_ms, body)
            &&& #[trigger] body_served(c, e, site, m, answer, body, now_ms, res)
            &&& rx_slots(e.engine) == rx_slots(c.engine)
            &&& super::serve::body_freed(e, b, body)
        };
    law_next_block(a.engine, c.engine, m, answer.dest, now_ms, body, block, at);
    law_upload_answer(c, e, site, m, answer, body, now_ms, res);
    assert(c == a);
    assert(e.engine == b.engine);
    assert(e == b);
}

/// Is no upload in a slot whole?
pub open spec fn none_whole(slots: Seq<Option<BodySlot>>) -> bool {
    forall|i: int|
        0 <= i < slots.len() ==> ((#[trigger] slots[i]) matches Some(s) ==> !s.transfer.complete)
}

/// An upload that is whole is handled and let go in the same step: between requests
/// none is kept, so a block is only ever taken for one that came before if its
/// number was taken before.
pub proof fn law_whole_upload_let_go<T: DatagramIo, const N: usize>(
    a: Core<T>,
    b: Core<T>,
    site: Site<N>,
    m: MessageView,
    answer: Answer,
    now_ms: u64,
    res: Result<(), Error<T::Error>>,
)
    requires
        a.engine.wf(),
        admitted(a, b, site, m, answer, now_ms, res),
        none_whole(rx_slots(a.engine)),
    ensures
        none_whole(rx_slots(b.engine)),
{
    reveal(admitted);
    let (c, e, body) = choose|c: Core<T>, e: Core<T>, body: InboundBody|
        {
            &&& c == (Core { engine: c.engine, ..a })
            &&& #[trigger] assembled(a.engine, c.engine, m, answer.dest, now_ms, body)
            &&& #[trigger] body_served(c, e, site, m, answer, body, now_ms, res)
            &&& rx_slots(e.engine) == rx_slots(c.engine)
            &&& super::serve::body_freed(e, b, body)
        };
    lemma_whole_is_complete(a.engine, c.engine, m, answer.dest, now_ms, body);
    let then = rx_slots(e.engine);
    match body {
        InboundBody::Complete(id) => {
            if e.engine.rx_transfer(id).is_some() {
                assert(rx_slots(b.engine) == then.update(id.at as int, None));
            }
        },
        _ => {},
    }
}

proof fn lemma_whole_is_complete(
    before: Engine,
    after: Engine,
    m: MessageView,
    peer: Endpoint,
    now_ms: u64,
    out: InboundBody,
)
    requires
        before.wf(),
        assembled(before, after, m, peer, now_ms, out),
        none_whole(rx_slots(before)),
    ensures
        forall|i: int|
            0 <= i < rx_slots(after).len() && (#[trigger] rx_slots(after)[i]).is_some() && rx_slots(
                after,
            )[i]->0.transfer.complete ==> (out matches InboundBody::Complete(id) && id.at == i),
        out matches InboundBody::Complete(id) ==> after.rx_transfer(id).is_some(),
{
    match block_option(m.options, 27) {
        Some(Ok(block)) => {
            let (key, r) = choose|
                key: crate::storage::endpoint::BlockKey,
                r: Result<crate::storage::body::BlockProgress, crate::error::BlockTransferError>,
            |
                key@ == super::inbound::request_body(m, peer)
                    && #[trigger] super::inbound::ordered_taken(before, after, key, block, m, r)
                    && out == super::inbound::ordered_outcome(r);
            if r.is_ok() {
                let at = r->Ok_0.id.at as int;
                assert(rx_slots(after) == rx_slots(before).update(at, rx_slots(after)[at]));
            }
        },
        _ => {
            match block_option(m.options, 19) {
                Some(Ok(block)) => {
                    let (key, mid, r) = choose|
                        key: crate::storage::endpoint::BlockKey,
                        mid: Engine,
                        r: Result<
                            crate::storage::body::BlockProgress,
                            crate::error::BlockTransferError,
                        >,
                    |
                        {
                            &&& key@ == super::inbound::request_body(m, peer)
                            &&& #[trigger] super::inbound::windowed_taken(
                                before,
                                mid,
                                key,
                                block,
                                m,
                                r,
                            )
                            &&& match r {
                                Ok(p) => crate::storage::blocks::recovery_armed(
                                    mid,
                                    after,
                                    p.id,
                                    now_ms,
                                ),
                                Err(_) => after == mid,
                            }
                            &&& out == super::inbound::windowed_outcome(
                                m.ty,
                                r,
                                super::inbound::full_window(
                                    rx_slots(mid),
                                    peer,
                                    first_value(m.options, 292),
                                ),
                            )
                        };
                    if r.is_ok() {
                        let at = r->Ok_0.id.at as int;
                        assert(rx_slots(mid) == rx_slots(before).update(at, rx_slots(mid)[at]));
                        assert(rx_slots(after) == rx_slots(mid).update(at, rx_slots(after)[at]));
                    }
                },
                _ => {},
            }
        },
    }
}

/// Is a block of an upload in windows in: in the slot of the upload, under its number?
pub open spec fn block_in(slots: Seq<Option<BodySlot>>, at: Option<int>, num: int) -> bool {
    match at {
        Some(i) => slots[i]->0.transfer.has(num),
        None => false,
    }
}

/// A block of an upload in windows that is taken lies in the body that is kept, at its
/// number times its size, and counts as in; the other bytes and blocks are as they were,
/// and so are the other uploads. The upload is whole exactly if all the blocks that the
/// announced length has are in then. The sender of a confirmable block that does not
/// complete it is told to go on; that of a non-confirmable one may wait.
pub proof fn law_window_block_is_kept(
    before: Engine,
    after: Engine,
    m: MessageView,
    peer: Endpoint,
    now_ms: u64,
    out: InboundBody,
    block: BlockValue,
    at: Option<int>,
)
    requires
        before.wf(),
        assembled(before, after, m, peer, now_ms, out),
        block_option(m.options, 27).is_none(),
        block_option(m.options, 19) matches Some(Ok(b)) && b == block,
        upload_in(rx_slots(before), BlockRole::IncomingQBlock1, m, peer, at),
        out is Continue || out is Complete || (out is Wait && !block_in(
            rx_slots(before),
            at,
            block.num as int,
        )),
    ensures
        ({
            let slots = rx_slots(before);
            let then = rx_slots(after);
            let from = block.num * step_size(block.szx);
            exists|i: int|
                {
                    &&& 0 <= i < then.len()
                    &&& holds_upload(#[trigger] then[i], BlockRole::IncomingQBlock1, m, peer)
                    &&& then == slots.update(i, then[i])
                    &&& at.is_some() ==> at == Some(i)
                    &&& then[i]->0.bytes@.len() == said_length(m)->0
                    &&& then[i]->0.bytes@.subrange(from, from + m.payload.len()) == m.payload
                    &&& at.is_some() ==> forall|k: int|
                        0 <= k < then[i]->0.bytes@.len() && !(from <= k < from + m.payload.len())
                            ==> #[trigger] then[i]->0.bytes@[k] == slots[i]->0.bytes@[k]
                    &&& forall|k: int| #[trigger]
                        then[i]->0.transfer.has(k) && 0 <= k ==> k == block.num || block_in(
                            slots,
                            at,
                            k,
                        )
                    &&& then[i]->0.transfer.has(block.num as int)
                    &&& then[i]->0.transfer.due_ms == Some(
                        crate::storage::engine::later(now_ms, 4000),
                    )
                    &&& match out {
                        InboundBody::Complete(id) => id.at == i && then[i]->0.transfer.complete,
                        InboundBody::Continue => m.ty != Type::NonConfirmable
                            && !then[i]->0.transfer.complete,
                        _ => m.ty == Type::NonConfirmable && !then[i]->0.transfer.complete,
                    }
                }
        }),
{
    let slots = rx_slots(before);
    let (key, mid, r) = choose|
        key: crate::storage::endpoint::BlockKey,
        mid: Engine,
        r: Result<crate::storage::body::BlockProgress, crate::error::BlockTransferError>,
    |
        {
            &&& key@ == super::inbound::request_body(m, peer)
            &&& #[trigger] super::inbound::windowed_taken(before, mid, key, block, m, r)
            &&& match r {
                Ok(p) => crate::storage::blocks::recovery_armed(mid, after, p.id, now_ms),
                Err(_) => after == mid,
            }
            &&& out == super::inbound::windowed_outcome(
                m.ty,
                r,
                super::inbound::full_window(rx_slots(mid), peer, first_value(m.options, 292)),
            )
        };
    lemma_found_upload(slots, BlockRole::IncomingQBlock1, key@, m, peer);
    lemma_upload_unique(
        slots,
        BlockRole::IncomingQBlock1,
        m,
        peer,
        at,
        find_body(slots, BlockRole::IncomingQBlock1, key@),
    );
    if r.is_err() {
        assert(block_in(slots, at, block.num as int));
    } else {
        let i = r->Ok_0.id.at as int;
        let then = rx_slots(after);
        lemma_window_block(before, mid, key, m, peer, block, at, r);
        assert(then[i]->0.bytes@ == rx_slots(mid)[i]->0.bytes@);
        assert(then[i]->0.transfer == crate::storage::transfer::BlockTransfer {
            due_ms: Some(crate::storage::transfer::BodyPool::recover_at(now_ms)),
            attempts: 0,
            ..rx_slots(mid)[i]->0.transfer
        });
        assert forall|k: int| (#[trigger] then[i]->0.transfer.has(k)) == rx_slots(
            mid,
        )[i]->0.transfer.has(k) by {}
        assert(holds_upload(then[i], BlockRole::IncomingQBlock1, m, peer));
        assert(then =~= slots.update(i, then[i]));
    }
}

proof fn lemma_window_block(
    before: Engine,
    mid: Engine,
    key: crate::storage::endpoint::BlockKey,
    m: MessageView,
    peer: Endpoint,
    block: BlockValue,
    at: Option<int>,
    r: Result<crate::storage::body::BlockProgress, crate::error::BlockTransferError>,
)
    requires
        before.wf(),
        key@ == super::inbound::request_body(m, peer),
        super::inbound::windowed_taken(before, mid, key, block, m, r),
        at == find_body(rx_slots(before), BlockRole::IncomingQBlock1, key@),
        upload_in(rx_slots(before), BlockRole::IncomingQBlock1, m, peer, at),
        r.is_ok(),
    ensures
        ({
            let slots = rx_slots(before);
            let then = rx_slots(mid);
            let i = r->Ok_0.id.at as int;
            let from = block.num * step_size(block.szx);
            &&& 0 <= i < then.len()
            &&& then.len() == slots.len()
            &&& then[i].is_some()
            &&& holds_upload(then[i], BlockRole::IncomingQBlock1, m, peer)
            &&& then == slots.update(i, then[i])
            &&& at.is_some() ==> at == Some(i)
            &&& then[i]->0.bytes@.len() == said_length(m)->0
            &&& 0 <= from && from + m.payload.len() <= then[i]->0.bytes@.len()
            &&& then[i]->0.bytes@.subrange(from, from + m.payload.len()) == m.payload
            &&& at.is_some() ==> forall|k: int|
                0 <= k < then[i]->0.bytes@.len() && !(from <= k < from + m.payload.len())
                    ==> #[trigger] then[i]->0.bytes@[k] == slots[i]->0.bytes@[k]
            &&& forall|k: int|
                0 <= k ==> ((#[trigger] then[i]->0.transfer.has(k)) <==> k == block.num || block_in(
                    slots,
                    at,
                    k,
                ))
            &&& then[i]->0.transfer.complete == r->Ok_0.done
        }),
{
    let slots = rx_slots(before);
    let then = rx_slots(mid);
    crate::storage::table::lemma_free_row(slots);
    let i = r->Ok_0.id.at as int;
    lemma_step_size(block.szx);
    let (t, filled) = crate::storage::body::windowed_state(
        before.store.bodies->0.rx,
        BlockRole::IncomingQBlock1,
        key,
        block,
        said_length(m),
    );
    let from = block.num * step_size(block.szx);
    assert(0 <= from) by (nonlinear_arith)
        requires
            from == block.num * step_size(block.szx),
            step_size(block.szx) >= 16,
    ;
    assert(block.num >= t.window_base);
    assert(t.window_base <= 0x10000a);
    assert forall|k: int| 0 <= k implies ((#[trigger] then[i]->0.transfer.has(k)) <==> k
        == block.num || block_in(slots, at, k)) by {
        crate::storage::laws::law_block_taken(t, block.num, k);
        let next = crate::storage::transfer::windowed_next(t, block.num);
        assert(then[i]->0.transfer.has(k) == next.has(k));
        assert(t.has(k) == block_in(slots, at, k));
    }
    assert(filled.len() == said_length(m)->0);
    assert(then[i]->0.bytes@ == crate::storage::body::overlay(filled, from, m.payload));
    assert(then[i]->0.bytes@.subrange(from, from + m.payload.len()) =~= m.payload);
}

/// A block of an upload in windows is refused as too large if the length that it announces
/// is longer than a slot holds, and as incomplete if it announces none or another than at
/// first, is of another size than the others, of the reserved size, outside the window, or
/// of a length that does not fit its place; nothing changes then.
pub proof fn law_window_block_refused(
    before: Engine,
    after: Engine,
    m: MessageView,
    peer: Endpoint,
    now_ms: u64,
    out: InboundBody,
    block: BlockValue,
    at: Option<int>,
)
    requires
        before.wf(),
        assembled(before, after, m, peer, now_ms, out),
        block_option(m.options, 27).is_none(),
        block_option(m.options, 19) matches Some(Ok(b)) && b == block,
        upload_in(rx_slots(before), BlockRole::IncomingQBlock1, m, peer, at),
    ensures
        before.store.bodies.is_none() ==> out == InboundBody::Refused(Code::BAD_OPTION),
        before.store.bodies.is_some() && said_length(m).is_none() ==> out == InboundBody::Refused(
            Code::REQUEST_ENTITY_INCOMPLETE,
        ),
        before.store.bodies.is_some() && at.is_none() && (said_length(m) matches Some(n) && n
            > upload_room(before)) ==> out == InboundBody::Refused(Code::REQUEST_ENTITY_TOO_LARGE),
        before.store.bodies.is_some() && (at matches Some(i) && rx_slots(
            before,
        )[i]->0.transfer.total != said_length(m)) ==> out == InboundBody::Refused(
            Code::REQUEST_ENTITY_INCOMPLETE,
        ),
        before.store.bodies.is_some() && (at matches Some(i) && rx_slots(
            before,
        )[i]->0.transfer.total == said_length(m) && !rx_slots(before)[i]->0.transfer.complete && (
        rx_slots(before)[i]->0.transfer.szx != block.szx || block.num >= rx_slots(
            before,
        )[i]->0.transfer.window_base + 10)) ==> (out matches InboundBody::Refused(_)),
        out matches InboundBody::Refused(_) ==> rx_slots(after) == rx_slots(before),
        out == InboundBody::Refused(Code::REQUEST_ENTITY_TOO_LARGE) ==> (said_length(m) matches Some(
            n,
        ) && (n > upload_room(before) || n > 0x100000 * crate::message::value::block_size(
            block.szx as int,
        ))),
{
    let slots = rx_slots(before);
    let (key, mid, r) = choose|
        key: crate::storage::endpoint::BlockKey,
        mid: Engine,
        r: Result<crate::storage::body::BlockProgress, crate::error::BlockTransferError>,
    |
        {
            &&& key@ == super::inbound::request_body(m, peer)
            &&& #[trigger] super::inbound::windowed_taken(before, mid, key, block, m, r)
            &&& match r {
                Ok(p) => crate::storage::blocks::recovery_armed(mid, after, p.id, now_ms),
                Err(_) => after == mid,
            }
            &&& out == super::inbound::windowed_outcome(
                m.ty,
                r,
                super::inbound::full_window(rx_slots(mid), peer, first_value(m.options, 292)),
            )
        };
    lemma_found_upload(slots, BlockRole::IncomingQBlock1, key@, m, peer);
    lemma_upload_unique(
        slots,
        BlockRole::IncomingQBlock1,
        m,
        peer,
        at,
        find_body(slots, BlockRole::IncomingQBlock1, key@),
    );
}

/// A request without block options for an upload is handled at once; one with a windowed
/// block that cannot be read is refused as incomplete.
pub proof fn law_no_upload(
    before: Engine,
    after: Engine,
    m: MessageView,
    peer: Endpoint,
    now_ms: u64,
    out: InboundBody,
)
    requires
        assembled(before, after, m, peer, now_ms, out),
        !(block_option(m.options, 27) matches Some(Ok(_))),
    ensures
        block_option(m.options, 19).is_none() ==> out is Plain && after == before,
        block_option(m.options, 19) matches Some(Err(_)) ==> out == InboundBody::Refused(
            Code::REQUEST_ENTITY_INCOMPLETE,
        ) && after == before,
{
}

/// The end of the full windows that the sender of a non-confirmable block is told is the
/// last block before the window that is waited for, of an upload of the same peer under
/// the same Request-Tag of which nothing of that window is in yet.
pub proof fn law_window_end(
    slots: Seq<Option<BodySlot>>,
    peer: Endpoint,
    tag: Option<Seq<u8>>,
)
    ensures
        super::inbound::full_window(slots, peer, tag) matches Some(v) ==> exists|i: int|
            0 <= i < slots.len() && ((#[trigger] slots[i]) matches Some(s) && s.transfer.role
                == BlockRole::IncomingQBlock1 && s.transfer.key@.peer == peer
                && s.transfer.key@.identity == tag && v.num + 1 == s.transfer.window_base && v.more
                && v.szx == s.transfer.szx && (forall|k: int|
                s.transfer.window_base <= k ==> !(#[trigger] s.transfer.has(k)))),
    decreases slots.len(),
{
    if slots.len() > 0 {
        let front = slots.drop_last();
        law_window_end(front, peer, tag);
        match super::inbound::full_window(front, peer, tag) {
            Some(v) => {
                let i = choose|i: int|
                    0 <= i < front.len() && ((#[trigger] front[i]) matches Some(s)
                        && s.transfer.role == BlockRole::IncomingQBlock1 && s.transfer.key@.peer
                        == peer && s.transfer.key@.identity == tag && v.num + 1
                        == s.transfer.window_base && v.more && v.szx == s.transfer.szx && (forall|
                        k: int,
                    |
                        s.transfer.window_base <= k ==> !(#[trigger] s.transfer.has(k))));
                assert(slots[i] == front[i]);
            },
            None => {
                assert(slots[slots.len() - 1] == slots.last());
            },
        }
    }
}

/// A block of an upload in windows that is in already changes nothing: the sender of a
/// confirmable one is told that the upload is incomplete, that of a non-confirmable one may
/// wait.
pub proof fn law_window_block_again(
    before: Engine,
    after: Engine,
    m: MessageView,
    peer: Endpoint,
    now_ms: u64,
    out: InboundBody,
    block: BlockValue,
    i: int,
)
    requires
        before.wf(),
        assembled(before, after, m, peer, now_ms, out),
        block_option(m.options, 27).is_none(),
        block_option(m.options, 19) matches Some(Ok(b)) && b == block,
        upload_in(rx_slots(before), BlockRole::IncomingQBlock1, m, peer, Some(i)),
        rx_slots(before)[i]->0.transfer.total == said_length(m),
        !rx_slots(before)[i]->0.transfer.complete,
        rx_slots(before)[i]->0.transfer.szx == block.szx,
        block.num < rx_slots(before)[i]->0.transfer.window_base + 10,
        rx_slots(before)[i]->0.transfer.has(block.num as int),
    ensures
        after == before,
        m.ty == Type::NonConfirmable ==> out is Wait,
        m.ty != Type::NonConfirmable ==> out == InboundBody::Refused(
            Code::REQUEST_ENTITY_INCOMPLETE,
        ),
{
    let slots = rx_slots(before);
    let (key, mid, r) = choose|
        key: crate::storage::endpoint::BlockKey,
        mid: Engine,
        r: Result<crate::storage::body::BlockProgress, crate::error::BlockTransferError>,
    |
        {
            &&& key@ == super::inbound::request_body(m, peer)
            &&& #[trigger] super::inbound::windowed_taken(before, mid, key, block, m, r)
            &&& match r {
                Ok(p) => crate::storage::blocks::recovery_armed(mid, after, p.id, now_ms),
                Err(_) => after == mid,
            }
            &&& out == super::inbound::windowed_outcome(
                m.ty,
                r,
                super::inbound::full_window(rx_slots(mid), peer, first_value(m.options, 292)),
            )
        };
    lemma_found_upload(slots, BlockRole::IncomingQBlock1, key@, m, peer);
    lemma_upload_unique(
        slots,
        BlockRole::IncomingQBlock1,
        m,
        peer,
        Some(i),
        find_body(slots, BlockRole::IncomingQBlock1, key@),
    );
    assert(before.store.bodies->0.rx.slots@[i].is_some());
    assert(crate::storage::transfer::body_ok(slots[i]->0, before.store.bodies->0.rx.slot_bytes as int));
    assert(mid == before) by {
        assert(mid.store.bodies->0.rx == before.store.bodies->0.rx);
        assert(mid.metrics == before.metrics);
    }
}

/// The next block in order of a response body is put behind the others, and completes the
/// body if no more follow; a block that does not fit the slot, or is not the next one,
/// changes nothing.
pub proof fn law_response_block_is_kept(
    before: Engine,
    after: Engine,
    m: MessageView,
    peer: Endpoint,
    block: BlockValue,
    r: Result<crate::storage::body::BlockProgress, crate::error::BlockTransferError>,
)
    requires
        before.wf(),
        before.store.bodies.is_some(),
        super::complete::response_block_taken(before, after, m, peer, Ok(block), false, r),
    ensures
        r.is_err() ==> rx_slots(after) == rx_slots(before),
        r matches Ok(p) ==> {
            let i = p.id.at as int;
            let then = rx_slots(after);
            let slots = rx_slots(before);
            &&& 0 <= i < then.len()
            &&& then == slots.update(i, then[i])
            &&& then[i] matches Some(s) && s.transfer.role == BlockRole::IncomingBlock2
                && s.transfer.key@.token == m.token && s.transfer.key@.peer == peer
                && s.transfer.key@.identity == first_value(m.options, 4)
                && s.transfer.next_num == block.num + 1 && s.transfer.complete == p.done
            &&& then[i]->0.bytes@.len() == block.num * step_size(block.szx) + m.payload.len()
            &&& then[i]->0.bytes@.skip(block.num * step_size(block.szx)) == m.payload
            &&& slots[i].is_some() ==> then[i]->0.bytes@ == slots[i]->0.bytes@ + m.payload
            &&& p.done <==> !block.more
            &&& then[i]->0.bytes@.len() <= upload_room(before)
        },
{
    let tag_ok = first_value(m.options, 4) matches Some(v) ==> v.len() <= 8;
    if tag_ok && r.is_ok() {
        let pool = before.store.bodies->0.rx;
        let key = choose|key: crate::storage::endpoint::BlockKey|
            key@ == super::complete::response_body_key(m, peer)
                && #[trigger] super::complete::body_accepts(
                pool,
                after.store.bodies->0.rx,
                key,
                block,
                m,
                false,
                r,
            );
        crate::storage::laws::law_body_found(pool.slots@, BlockRole::IncomingBlock2, key@);
        crate::storage::table::lemma_free_row(pool.slots@);
        lemma_step_size(block.szx);
        let i = r->Ok_0.id.at as int;
        let (t, filled) = crate::storage::body::ordered_state(
            pool,
            BlockRole::IncomingBlock2,
            key,
            block,
            said2(m),
        );
        if find_body(pool.slots@, BlockRole::IncomingBlock2, key@).is_none() {
            assert(0 * step_size(block.szx) == 0) by (nonlinear_arith);
        }
        assert(filled.len() == block.num * step_size(block.szx));
        let bytes = after.store.bodies->0.rx.slots@[i]->0.bytes@;
        assert(bytes == filled + m.payload);
        assert(bytes.skip(filled.len() as int) =~= m.payload);
        assert(rx_slots(after) =~= rx_slots(before).update(i, rx_slots(after)[i]));
    }
}

/// The length that a response announces for its body.
pub open spec fn said2(m: MessageView) -> Option<u32> {
    match uint_option(m.options, 28, 4) {
        Some(Ok(n)) => Some(n),
        _ => None,
    }
}

/// What a block of a response body leads to. A block of an ordered body that came before is
/// passed over; any other that does not fit ends the call with that reason; without room
/// for bodies the block counts as the response.
pub proof fn law_response_block_outcome<T: DatagramIo>(
    a: Core<T>,
    b: Core<T>,
    call: super::calls::Call,
    m: MessageView,
    via_exchange: bool,
    now_ms: u64,
    e: crate::error::BlockTransferError,
    r: Result<(), Error<T::Error>>,
)
    requires
        super::complete::block_outcome(
            a,
            b,
            call,
            m,
            false,
            via_exchange,
            now_ms,
            Err(e),
            r,
        ),
    ensures
        r.is_ok(),
        e is Overlap || e is AlreadyComplete ==> b == a,
        e is NoBodyPools ==> super::complete::plain_taken(a, b, call, m, via_exchange, now_ms),
        e is Gap || e is SzxMismatch || e is PayloadLength || e is Overflow
            || e is LengthInconsistent || e is Saturated ==> super::ending::call_failed(
            a,
            b,
            call,
            super::calls::CallFailure::BlockTransfer(e),
            true,
        ),
{
}

/// Is a block part of the body that is kept for an ordered upload: its bytes now stand behind
/// those that were kept, at its number times its size; or nothing changed, and a block with
/// its number was taken before?
pub open spec fn block_kept(
    slots: Seq<Option<BodySlot>>,
    then: Seq<Option<BodySlot>>,
    m: MessageView,
    peer: Endpoint,
    block: BlockValue,
    at: Option<int>,
) -> bool {
    let kept = kept_bytes(slots, at);
    ||| exists|i: int|
        {
            &&& 0 <= i < then.len()
            &&& holds_upload(#[trigger] then[i], BlockRole::IncomingBlock1, m, peer)
            &&& then[i]->0.bytes@ == kept + m.payload
            &&& kept.len() == block.num * step_size(block.szx)
            &&& then == slots.update(i, then[i])
        }
    ||| then == slots && at.is_some() && block.num < next_block(slots, at)
}

/// A block of an ordered upload after which more follow is answered: with 2.31 only if it is
/// part of the body that is kept for the upload, taken now or before; else with an error, and
/// what was kept of uploads stays as it is.
pub proof fn law_block_answered<T: DatagramIo, const N: usize>(
    a: Core<T>,
    b: Core<T>,
    site: Site<N>,
    m: MessageView,
    answer: Answer,
    now_ms: u64,
    res: Result<(), Error<T::Error>>,
    block: BlockValue,
    at: Option<int>,
)
    requires
        a.engine.wf(),
        admitted(a, b, site, m, answer, now_ms, res),
        block_option(m.options, 27) matches Some(Ok(o)) && o == block,
        first_value(m.options, 19).is_none(),
        block.more,
        upload_in(rx_slots(a.engine), BlockRole::IncomingBlock1, m, answer.dest, at),
        none_whole(rx_slots(a.engine)),
    ensures
        exists|c: Core<T>, code: Code|
            {
                &&& #[trigger] answers_with(c, b, answer, code, now_ms, res)
                &&& code == Code::CONTINUE ==> block_kept(
                    rx_slots(a.engine),
                    rx_slots(b.engine),
                    m,
                    answer.dest,
                    block,
                    at,
                )
                &&& code != Code::CONTINUE ==> code.raw() / 32 == 4 && rx_slots(b.engine)
                    == rx_slots(a.engine)
            },
{
    reveal(admitted);
    let (c, e, body) = choose|c: Core<T>, e: Core<T>, body: InboundBody|
        {
            &&& c == (Core { engine: c.engine, ..a })
            &&& #[trigger] assembled(a.engine, c.engine, m, answer.dest, now_ms, body)
            &&& #[trigger] body_served(c, e, site, m, answer, body, now_ms, res)
            &&& rx_slots(e.engine) == rx_slots(c.engine)
            &&& super::serve::body_freed(e, b, body)
        };
    law_stray_block(a.engine, c.engine, m, answer.dest, now_ms, body, block, at);
    law_upload_answer(c, e, site, m, answer, body, now_ms, res);
    match body {
        InboundBody::Refused(code) => {
            assert(b == e);
            assert(answers_with(c, b, answer, code, now_ms, res));
        },
        _ => {
            law_acknowledged_block_is_kept(
                a.engine,
                c.engine,
                m,
                answer.dest,
                now_ms,
                body,
                block,
                at,
            );
            assert(body is Continue);
            assert(b == e);
            assert(answered(
                c,
                b,
                answer,
                super::response::bare_response(Code::CONTINUE),
                now_ms,
                res,
            ));
            assert(answers_with(c, b, answer, Code::CONTINUE, now_ms, res));
            if at.is_some() {
                assert(rx_slots(a.engine)[at->0].is_some());
            }
        },
    }
}

} // verus!
