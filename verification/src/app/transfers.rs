//! What goes out of a body in blocks, and what is asked for of one that comes in.
use vstd::prelude::*;

use super::answer::Answer;
use super::bodies::{
    block_message, classic_choice, classic_left, classic_message, named_blocks, numbers, picked,
    selective, start_fault, wanted_szx, window_stop,
};
use super::error::Error;
use super::laws::at_most;
use super::reply::{reply_option_count, BlockOpt};
use super::respond::picks;
use super::response::ResponseView;
use super::turn::missing_response;
use crate::error::BlockTransferError;
use crate::message::fields::values_of;
use crate::message::value::{block_size, uint_octets};
use crate::message::{BlockValue, Code, ContentFormat, Type};
use crate::storage::body::{
    issues_next, missing_of, recovers, starts_body, wait_over, QBlockRecover,
};
use crate::storage::endpoint::{BlockKey, SlotId};
use crate::storage::engine::{Confirm, Engine};
use crate::storage::transfer::{
    block_count, BlockRole, BlockTransfer, BodyPool, BodySlot, OutgoingBlock,
};

verus! {

/// A block of a response carries its bytes, and says in Block2 or Q-Block2 its number,
/// whether more follow and its size; a windowed one also the length of the whole.
pub proof fn law_response_block(
    r: ResponseView,
    ty: Type,
    mid: u16,
    token: Seq<u8>,
    body: Seq<u8>,
    num: u32,
    szx: u8,
    q_block: bool,
)
    requires
        szx <= 6,
        num < 0x100000,
        num * block_size(szx as int) <= body.len(),
        body.len() <= u32::MAX,
        r.etag.is_none() && r.location_paths.len() == 0 && r.location_queries.len() == 0,
    ensures
        ({
            let m = block_message(r, ty, mid, token, body, num, szx, q_block, None);
            let size = block_size(szx as int);
            let end = if num * size + size < body.len() {
                num * size + size
            } else {
                body.len() as int
            };
            let value = uint_octets(
                (num * 16 + (if num * size + size < body.len() {
                    8int
                } else {
                    0
                }) + szx) as nat,
            );
            &&& m.ty == ty && m.id == mid && m.token == token && m.code == r.code
            &&& m.payload == body.subrange(num * size, end)
            &&& values_of(m.options, 23) == (if q_block {
                Seq::empty()
            } else {
                seq![value]
            })
            &&& values_of(m.options, 31) == (if q_block {
                seq![value]
            } else {
                Seq::empty()
            })
            &&& values_of(m.options, 28) == (if q_block {
                seq![uint_octets(body.len())]
            } else {
                Seq::empty()
            })
        }),
{
    let size = block_size(szx as int);
    assert((num + 1) * size == num * size + size) by (nonlinear_arith);
    assert(0 <= num * size) by (nonlinear_arith)
        requires
            0 <= num,
            0 < size,
    ;
    let value = BlockValue { num, more: (num + 1) * size < body.len(), szx };
    let block = Some(
        BlockOpt {
            value,
            q_block,
            size2: if q_block {
                Some(body.len() as u32)
            } else {
                None
            },
        },
    );
    assert(reply_option_count(r, block, None) <= 24);
    super::laws::law_reply_blocks_read_back(r, block, None, 23);
    super::laws::law_reply_blocks_read_back(r, block, None, 31);
    super::laws::law_reply_blocks_read_back(r, block, None, 28);
    assert(at_most(Some(uint_octets(value.packed()))) =~= seq![uint_octets(value.packed())]);
    assert(at_most(Some(uint_octets(body.len()))) =~= seq![uint_octets(body.len())]);
}

/// The block of an ordered response that goes out is the one that was asked for, in the size
/// that was asked for, of 1024 bytes at most; without a wish, the next one in the size of
/// the transfer. A block that the body does not have is answered 4.00.
pub proof fn law_block_choice(
    block2: Option<BlockValue>,
    next_num: u32,
    szx: u8,
    r: ResponseView,
    ty: Type,
    mid: u16,
    answer: Answer,
    body: Seq<u8>,
)
    requires
        answer.block2 == block2,
        body.len() <= u32::MAX,
        answer.block1.is_none(),
    ensures
        block2 matches Some(b) ==> classic_choice(block2, next_num, szx).0 == b.num && (b.szx <= 6
            ==> classic_choice(block2, next_num, szx).1 == b.szx) && (b.szx == 7 ==> classic_choice(
            block2,
            next_num,
            szx,
        ).1 == 6),
        block2.is_none() ==> classic_choice(block2, next_num, szx) == (next_num, szx),
        (block2 matches Some(b) && b.szx <= 6 && b.num > 0 && b.num * block_size(b.szx as int)
            >= body.len()) ==> classic_message(
            r,
            ty,
            mid,
            answer,
            body,
            next_num,
            szx,
        ).code == Code::BAD_REQUEST && classic_message(
            r,
            ty,
            mid,
            answer,
            body,
            next_num,
            szx,
        ).payload.len() == 0,
{
    reveal(crate::storage::transfer::in_body);
}

/// An ordered response body is let go once its last block was sent, or when no more blocks
/// of it are owed without being asked for; else it goes on behind the block that was sent.
pub proof fn law_ordered_body_left<E>(
    slot: BodySlot,
    confirm: Option<Confirm>,
    r: ResponseView,
    res: Result<(), Error<E>>,
)
    requires
        slot.transfer.szx <= 6,
        slot.transfer.next_num < 0x100000,
        slot.transfer.next_num == 0 || slot.transfer.next_num * block_size(slot.transfer.szx as int)
            < slot.bytes@.len(),
    ensures
        ({
            let t = slot.transfer;
            let size = block_size(t.szx as int);
            let last = t.next_num * size + size >= slot.bytes@.len();
            let left = classic_left(slot, None, confirm, r, res);
            &&& res.is_ok() && last ==> left.is_none()
            &&& res.is_ok() && confirm.is_none() && r.observe.is_none() ==> left.is_none()
            &&& !last && (res.is_err() || confirm.is_some() || r.observe.is_some()) ==> (left
                matches Some(s) && s.bytes@ == slot.bytes@ && s.transfer.next_num == t.next_num + 1
                && !s.transfer.complete)
            &&& res.is_err() ==> (left matches Some(s) && s.bytes@ == slot.bytes@
                && s.transfer.complete == last)
        }),
{
    reveal(crate::storage::transfer::in_body);
    let t = slot.transfer;
    let size = block_size(t.szx as int);
    assert((t.next_num + 1) * size == t.next_num * size + size) by (nonlinear_arith);
}

/// A window of a body that goes out ends ten blocks behind its start, or at the end of the
/// body; its blocks go out one after the other.
pub proof fn law_window_blocks(t: BlockTransfer, count: int, k: int)
    requires
        0 <= count,
        t.next_num <= k,
    ensures
        window_stop(t, count) <= t.window_base + 10,
        window_stop(t, count) <= count,
        window_stop(t, count) == count || window_stop(t, count) == t.window_base + 10,
        k < window_stop(t, count) ==> numbers(t.next_num as int, window_stop(t, count)).len()
            == window_stop(t, count) - t.next_num && numbers(
            t.next_num as int,
            window_stop(t, count),
        )[k - t.next_num] == k,
{
}

/// A selection names one block, or, if it says so, all from its block on to the end of its
/// window of ten.
pub proof fn law_named_blocks(q: BlockValue)
    ensures
        !q.more ==> named_blocks(q) == 1,
        q.more ==> (q.num + named_blocks(q)) % 10 == 0 && 1 <= named_blocks(q) <= 10,
{
}

/// The blocks that go out for a list of selections are exactly those that the selections
/// name and the body has; each once, in ascending order.
pub proof fn law_picked(selections: Seq<BlockValue>, count: int, num: int)
    requires
        forall|i: int, j: int|
            0 <= i < j < selections.len() ==> (#[trigger] selections[i]).num < (
            #[trigger] selections[j]).num,
    ensures
        picked(selections, count).contains(num) <==> num < count && exists|i: int|
            0 <= i < selections.len() && (#[trigger] selections[i]).num <= num < selections[i].num
                + named_blocks(selections[i]),
        forall|j: int, k: int|
            0 <= j < k < picked(selections, count).len() ==> (#[trigger] picked(
                selections,
                count,
            )[j]) < (#[trigger] picked(selections, count)[k]),
    decreases selections.len(),
{
    lemma_picked(selections, count);
    let p = picked(selections, count);
    if p.contains(num) {
        let k = choose|k: int| 0 <= k < p.len() && p[k] == num;
        assert(p[k] == num);
    }
    if num < count && exists|i: int|
        0 <= i < selections.len() && (#[trigger] selections[i]).num <= num < selections[i].num
            + named_blocks(selections[i]) {
        let i = choose|i: int|
            0 <= i < selections.len() && (#[trigger] selections[i]).num <= num < selections[i].num
                + named_blocks(selections[i]);
        assert(named(selections, num));
    }
}

spec fn named(selections: Seq<BlockValue>, num: int) -> bool {
    exists|i: int|
        0 <= i < selections.len() && (#[trigger] selections[i]).num <= num < selections[i].num
            + named_blocks(selections[i])
}

proof fn lemma_picked(selections: Seq<BlockValue>, count: int)
    requires
        forall|i: int, j: int|
            0 <= i < j < selections.len() ==> (#[trigger] selections[i]).num < (
            #[trigger] selections[j]).num,
    ensures
        forall|k: int|
            0 <= k < picked(selections, count).len() ==> (#[trigger] picked(selections, count)[k])
                < count && named(selections, picked(selections, count)[k]),
        forall|num: int|
            num < count && #[trigger] named(selections, num) ==> picked(selections, count).contains(
                num,
            ),
        forall|j: int, k: int|
            0 <= j < k < picked(selections, count).len() ==> (#[trigger] picked(
                selections,
                count,
            )[j]) < (#[trigger] picked(selections, count)[k]),
        picked(selections, count).len() > 0 ==> forall|i: int|
            0 <= i < selections.len() && selections[i].num < count ==> (#[trigger] selections[i]).num
                <= picked(selections, count).last(),
    decreases selections.len(),
{
    if selections.len() > 0 {
        let rest = selections.drop_last();
        assert forall|i: int| 0 <= i < rest.len() implies #[trigger] rest[i] == selections[i] by {}
        lemma_picked(rest, count);
        let front = picked(rest, count);
        let q = selections.last();
        let all = picked(selections, count);
        let from = if front.len() > 0 && front.last() >= q.num {
            front.last() + 1
        } else {
            q.num as int
        };
        let end = if q.num + named_blocks(q) < count {
            q.num + named_blocks(q)
        } else {
            count
        };
        let more = numbers(from, end);
        assert(all == front + more);
        assert forall|k: int| 0 <= k < all.len() implies (#[trigger] all[k]) < count && named(
            selections,
            all[k],
        ) by {
            if k < front.len() {
                assert(all[k] == front[k]);
                assert(named(rest, front[k]));
                let i = choose|i: int|
                    0 <= i < rest.len() && (#[trigger] rest[i]).num <= front[k] < rest[i].num
                        + named_blocks(rest[i]);
                assert(selections[i] == rest[i]);
            } else {
                assert(all[k] == more[k - front.len()]);
                assert(selections[selections.len() - 1] == q);
            }
        }
        assert forall|num: int| num < count && #[trigger] named(selections, num) implies all.contains(
            num,
        ) by {
            let i = choose|i: int|
                0 <= i < selections.len() && (#[trigger] selections[i]).num <= num
                    < selections[i].num + named_blocks(selections[i]);
            if i < rest.len() {
                assert(rest[i] == selections[i]);
                assert(named(rest, num));
                assert(front.contains(num));
                let k = choose|k: int| 0 <= k < front.len() && front[k] == num;
                assert(all[k] == num);
            } else if num >= from {
                assert(more[num - from] == num);
                assert(all[front.len() + (num - from)] == num);
            } else {
                lemma_picked_run(rest, count, num, q);
                assert(front.contains(num));
                let k = choose|k: int| 0 <= k < front.len() && front[k] == num;
                assert(all[k] == num);
            }
        }
        assert forall|j: int, k: int| 0 <= j < k < all.len() implies (#[trigger] all[j]) < (
        #[trigger] all[k]) by {
            if k < front.len() {
                assert(front[j] < front[k]);
            } else if j < front.len() {
                assert(all[k] == more[k - front.len()]);
                if j < front.len() - 1 {
                    assert(front[j] < front[front.len() - 1]);
                }
            }
        }
        if all.len() > 0 {
            assert forall|i: int|
                0 <= i < selections.len() && selections[i].num < count implies (
            #[trigger] selections[i]).num <= all.last() by {
                if more.len() > 0 {
                    assert(all.last() == more[more.len() - 1]);
                    if i < rest.len() {
                        assert(selections[i].num < selections[selections.len() - 1].num);
                    }
                } else {
                    assert(all =~= front);
                    if i < rest.len() {
                        assert(rest[i] == selections[i]);
                    }
                }
            }
        }
    }
}

proof fn lemma_picked_run(rest: Seq<BlockValue>, count: int, num: int, q: BlockValue)
    requires
        forall|i: int, j: int|
            0 <= i < j < rest.len() ==> (#[trigger] rest[i]).num < (#[trigger] rest[j]).num,
        forall|i: int| 0 <= i < rest.len() ==> (#[trigger] rest[i]).num < q.num,
        picked(rest, count).len() > 0,
        q.num <= num <= picked(rest, count).last(),
    ensures
        picked(rest, count).contains(num),
    decreases rest.len(),
{
    let front = picked(rest.drop_last(), count);
    let p = rest.last();
    let all = picked(rest, count);
    let from = if front.len() > 0 && front.last() >= p.num {
        front.last() + 1
    } else {
        p.num as int
    };
    let end = if p.num + named_blocks(p) < count {
        p.num + named_blocks(p)
    } else {
        count
    };
    let more = numbers(from, end);
    assert(all == front + more);
    assert(rest[rest.len() - 1] == p);
    assert forall|i: int| 0 <= i < rest.len() - 1 implies (#[trigger] rest.drop_last()[i])
        == rest[i] by {}
    if more.len() > 0 && num >= from {
        assert(all.last() == more[more.len() - 1]);
        assert(more[num - from] == num);
        assert(all[front.len() + (num - from)] == num);
    } else {
        if more.len() == 0 {
            assert(all =~= front);
        }
        lemma_picked_run(rest.drop_last(), count, num, p);
        let k = choose|k: int| 0 <= k < front.len() && front[k] == num;
        assert(all[k] == num);
    }
}

/// The size of a response body is that of the first selected block, else that of Block2,
/// 1024 bytes if none is asked for or the reserved one; single blocks, and not the body
/// from its start, are asked for by several selections or by one that does not name block
/// 0.
pub proof fn law_wanted_size(block2: Option<BlockValue>, selections: Seq<BlockValue>)
    ensures
        selections.len() > 0 && selections[0].szx <= 6 ==> wanted_szx(block2, selections)
            == selections[0].szx,
        selections.len() == 0 && (block2 matches Some(b) && b.szx <= 6) ==> wanted_szx(
            block2,
            selections,
        ) == block2->0.szx,
        selections.len() == 0 && block2.is_none() ==> wanted_szx(block2, selections) == 6,
        wanted_szx(block2, selections) <= 6,
        selective(selections) <==> selections.len() > 1 || (selections.len() == 1
            && selections[0].num > 0),
        picks(selections) <==> selections.len() > 1 || (selections.len() == 1 && !(
        selections[0].more && selections[0].num % 10 == 0)),
{
}

/// Why a body cannot start to go out: a windowed one without an ETag; one without room for
/// bodies, that is too long, or for which no slot is free.
pub proof fn law_start_fault(e: Engine, r: ResponseView, q: bool)
    ensures
        q && r.etag.is_none() ==> start_fault(e, r, q) == Some(BlockTransferError::MissingIdentity),
        !(q && r.etag.is_none()) && e.store.bodies.is_none() ==> start_fault(e, r, q) == Some(
            BlockTransferError::NoBodyPools,
        ),
        !(q && r.etag.is_none()) && (e.store.bodies matches Some(b) && r.payload.len()
            > b.tx.slot_bytes) ==> start_fault(e, r, q) == Some(BlockTransferError::Overflow),
        start_fault(e, r, q).is_none() ==> (e.store.bodies matches Some(b) && r.payload.len()
            <= b.tx.slot_bytes && r.payload.len() <= 0x100000 * 16 && exists|i: int|
            0 <= i < b.tx.slots@.len() && (#[trigger] b.tx.slots@[i]).is_none()),
{
    match e.store.bodies {
        Some(b) => {
            crate::storage::table::lemma_free_row(b.tx.slots@);
            match crate::storage::table::free_row(b.tx.slots@) {
                Some(i) => {
                    assert(b.tx.slots@[i].is_none());
                },
                None => {},
            }
        },
        None => {},
    }
}

/// What the wait for missing blocks leads to. The first upload or download whose wait is
/// over is asked for again, up to four times: for exactly the blocks of its window that
/// are not in; its wait starts anew. After that it is given up, and its slot is free. While
/// no wait is over nothing is asked for, and nothing is given up.
pub proof fn law_recovery(
    slots: Seq<Option<BodySlot>>,
    then: Seq<Option<BodySlot>>,
    now_ms: u64,
    ask: Option<QBlockRecover>,
    gone: Option<(BlockRole, BlockKey)>,
)
    requires
        recovers(slots, then, now_ms, ask, gone),
        now_ms <= 0x1_0000_0000_0000,
    ensures
        then.len() == slots.len(),
        (forall|i: int| 0 <= i < slots.len() ==> !wait_over(#[trigger] slots[i], now_ms))
            ==> ask.is_none() && gone.is_none(),
        forall|i: int|
            0 <= i < slots.len() && wait_over(slots[i], now_ms) && (forall|k: int|
                0 <= k < i ==> !wait_over(#[trigger] slots[k], now_ms)) && (
            #[trigger] slots[i])->0.transfer.attempts >= 4 ==> ask.is_none() && gone == Some(
                (slots[i]->0.transfer.role, slots[i]->0.transfer.key),
            ) && then[i].is_none(),
        forall|i: int|
            0 <= i < slots.len() && wait_over(slots[i], now_ms) && (forall|k: int|
                0 <= k < i ==> !wait_over(#[trigger] slots[k], now_ms)) && (
            #[trigger] slots[i])->0.transfer.attempts < 4 ==> gone.is_none() && (ask matches Some(q)
                && q.role == slots[i]->0.transfer.role && q.key == slots[i]->0.transfer.key && q.szx
                == slots[i]->0.transfer.szx && q.missing@ == missing_of(
                slots[i]->0.transfer,
                block_count(slots[i]->0.bytes@.len() as int, block_size(q.szx as int)),
                10,
            )) && (then[i] matches Some(s) && s.transfer.attempts == slots[i]->0.transfer.attempts
                + 1 && s.transfer.due_ms == Some((now_ms + 4000) as u64) && s.bytes@
                == slots[i]->0.bytes@),
{
    if exists|i: int| 0 <= i < slots.len() && wait_over(#[trigger] slots[i], now_ms) {
        let at = choose|i: int|
            {
                let t = slots[i]->0.transfer;
                &&& #[trigger] crate::storage::body::first_over(slots, now_ms, i)
                &&& if t.attempts >= crate::message::QBlockTransmission::NON_MAX_RETRANSMIT {
                    &&& ask.is_none()
                    &&& gone == Some((t.role, t.key))
                    &&& then == crate::storage::body::all_armed(slots, now_ms).update(i, None)
                } else {
                    &&& ask matches Some(q) && crate::storage::body::asks_again(
                        slots[i],
                        q,
                        now_ms,
                    )
                    &&& gone.is_none()
                    &&& then == crate::storage::body::all_armed(slots, now_ms).update(
                        i,
                        Some(
                            BodySlot {
                                transfer: BlockTransfer {
                                    due_ms: Some(BodyPool::recover_at(now_ms)),
                                    attempts: (t.attempts + 1) as u8,
                                    ..t
                                },
                                bytes: slots[i]->0.bytes,
                            },
                        ),
                    )
                }
            };
        assert forall|i: int|
            0 <= i < slots.len() && wait_over(#[trigger] slots[i], now_ms) && (forall|k: int|
                0 <= k < i ==> !wait_over(#[trigger] slots[k], now_ms)) implies i == at by {
            if i < at {
                assert(!wait_over(slots[i], now_ms));
            } else if at < i {
                assert(!wait_over(slots[at], now_ms));
            }
        }
    }
}

/// Only a windowed body that comes in, is not whole and is waited for can be over its time;
/// it is when that time has come.
pub proof fn law_wait_over(s: BodySlot, now_ms: u64)
    requires
        now_ms < u64::MAX,
    ensures
        wait_over(Some(s), now_ms) <==> !s.transfer.complete && (s.transfer.role
            == BlockRole::IncomingQBlock1 || s.transfer.role == BlockRole::IncomingQBlock2) && (
        s.transfer.due_ms matches Some(due) && due <= now_ms),
        !wait_over(None, now_ms),
{
}

/// The answer that lists missing blocks is 4.08 in the format of such lists, with the list
/// as its payload if that fits into 128 bytes.
pub proof fn law_missing_answer(nums: Seq<u32>)
    ensures
        missing_response(nums).code == Code::REQUEST_ENTITY_INCOMPLETE,
        missing_response(nums).format == Some(ContentFormat::MISSING_BLOCKS),
        crate::message::missing::missing_wire(nums).len() <= 128 ==> missing_response(nums).payload
            == crate::message::missing::missing_wire(nums),
        crate::message::missing::missing_wire(nums).len() > 128 ==> missing_response(
            nums,
        ).payload.len() == 0,
{
}

/// A body that starts to go out is kept whole in the first free slot, with nothing sent yet;
/// it is refused if it is longer than the slot or has more blocks than can be numbered, or
/// if no slot is free; nothing changes then.
pub proof fn law_body_starts(
    before: BodyPool,
    after: BodyPool,
    role: BlockRole,
    key: BlockKey,
    payload: Seq<u8>,
    szx: u8,
    r: Result<SlotId, BlockTransferError>,
)
    requires
        starts_body(before, after, role, key, payload, szx, r),
    ensures
        ({
            let free = exists|i: int|
                0 <= i < before.slots@.len() && (#[trigger] before.slots@[i]).is_none();
            let fits = payload.len() <= before.slot_bytes && payload.len() <= 0xfffff0;
            &&& r.is_ok() <==> free && fits
            &&& r.is_err() ==> after == before
            &&& r matches Ok(id) ==> id.at < before.slots@.len()
                && before.slots@[id.at as int].is_none() && (after.slots@[id.at as int]
                matches Some(s) && s.bytes@ == payload && s.transfer.role == role && s.transfer.key
                == key && s.transfer.szx == szx && s.transfer.next_num == 0 && !s.transfer.complete)
                && after.slots@ == before.slots@.update(id.at as int, after.slots@[id.at as int])
        }),
{
    crate::storage::table::lemma_free_row(before.slots@);
    match crate::storage::table::free_row(before.slots@) {
        Some(i) => {
            assert(before.slots@[i].is_none());
        },
        None => {},
    }
}

/// The next block of a body that goes out is the one behind those that went out; a windowed
/// body stops after ten blocks until its window moves; a body of which all went out has
/// none. What went out then is one block more.
pub proof fn law_next_outgoing(
    before: BodyPool,
    after: BodyPool,
    id: SlotId,
    r: Result<OutgoingBlock, BlockTransferError>,
)
    requires
        issues_next(before, after, id, r),
        before.sends(id),
        before.wf(),
    ensures
        ({
            let s = before.slots@[id.at as int]->0;
            let t = s.transfer;
            let windowed = t.role == BlockRole::OutgoingQBlock1 || t.role
                == BlockRole::OutgoingQBlock2;
            &&& r.is_err() ==> after == before
            &&& t.complete ==> r == Err::<OutgoingBlock, BlockTransferError>(
                BlockTransferError::AlreadyComplete,
            )
            &&& !t.complete && windowed && t.next_num >= t.window_base + 10 ==> r == Err::<
                OutgoingBlock,
                BlockTransferError,
            >(BlockTransferError::OutsideWindow)
            &&& r matches Ok(b) ==> b.block.num == t.next_num && b.offset == t.next_num * block_size(
                t.szx as int,
            ) && b.offset + b.len <= s.bytes@.len() && (after.slots@[id.at as int] matches Some(n)
                && n.transfer.next_num == t.next_num + 1 && n.transfer.complete == (b.offset + b.len
                == s.bytes@.len()) && n.bytes == s.bytes)
            &&& !t.complete && !(windowed && t.next_num >= t.window_base + 10) && t.next_num
                < 0x100000 && t.next_num * block_size(t.szx as int) < s.bytes@.len() ==> r.is_ok()
        }),
{
    reveal(crate::storage::transfer::in_body);
    reveal(crate::storage::transfer::cuts);
}

} // verus!
