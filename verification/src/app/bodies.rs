//! Answering with a body that goes out in blocks.
use vstd::prelude::*;

use super::answer::Answer;
use super::error::Error;
use super::identity::{ids_run, lemma_mid_after, lemma_run_longer, mid_after, AppIds};
use super::reactor::{
    delivered, lemma_bodies_served, lemma_pins_stay, lemma_served_trans, lemma_tallied, one_send,
    only_counted, send_staged, served, slots_alike, tallied, Core,
};
use super::reply::{reply_message, encode_response, BlockOpt, Head};
use super::response::{bare_response, Response, ResponseView};
use crate::bytes::to_vec;
use crate::error::{BlockTransferError, EncodeError, SlotMessageError};
use crate::message::value::block_size;
use crate::message::wire::{wire, MessageView};
use crate::message::{BlockValue, Code, Type};
use crate::storage::blocks::tx_bodies_changed;
use crate::storage::endpoint::{BlockKey, BlockKeyView, BodyTag, Endpoint, SlotId};
use crate::storage::engine::{sent_metrics, Confirm, Engine, Store};
use crate::storage::io::{sends, Attempt, DatagramIo, Port};
use crate::storage::metrics::Metrics;
use crate::storage::table::free_row;
use crate::storage::transfer::{
    block_count, block_of, cuts, in_body, law_cut_is_block, lemma_cuts, BlockRole, BlockTransfer,
    BodySlot, OutgoingBlock,
};

verus! {

/// The message that carries one block of a body.
pub open spec fn block_message(
    r: ResponseView,
    ty: Type,
    mid: u16,
    token: Seq<u8>,
    body: Seq<u8>,
    num: u32,
    szx: u8,
    q_block: bool,
    block1: Option<BlockOpt>,
) -> MessageView {
    let size = block_size(szx as int);
    reply_message(
        r,
        ty,
        mid,
        token,
        block_of(body, num as int, size),
        Some(
            BlockOpt {
                value: BlockValue { num, more: (num + 1) * size < body.len(), szx },
                q_block,
                size2: if q_block {
                    Some(body.len() as u32)
                } else {
                    None
                },
            },
        ),
        block1,
    )
}

/// Type and identifier of the message that is sent at this place of a list: the
/// first goes out as told, the others non-confirmable under identifiers of
/// their own.
pub open spec fn head_at(ty: Type, mid: u16, next: u16, place: int) -> (Type, u16) {
    if place == 0 {
        (ty, mid)
    } else {
        (Type::NonConfirmable, mid_after(next, place - 1))
    }
}

/// What a list of blocks is sent with.
pub struct BlockRun {
    /// The answer that the blocks are of.
    pub answer: Answer,
    /// The response.
    pub response: ResponseView,
    /// The body.
    pub body: Seq<u8>,
    /// The size exponent.
    pub szx: u8,
    /// Type of the first message.
    pub ty: Type,
    /// Identifier of the first message.
    pub mid: u16,
    /// Identifier of the second message.
    pub next: u16,
}

impl BlockRun {
    /// The message at a place of the list, with this block.
    pub open spec fn message(self, place: int, num: int) -> MessageView {
        let head = head_at(self.ty, self.mid, self.next, place);
        block_message(
            self.response,
            head.0,
            head.1,
            self.answer.token@,
            self.body,
            num as u32,
            self.szx,
            true,
            self.answer.block1,
        )
    }
}

/// May a transport take this datagram whole?
pub open spec fn takeable<T: DatagramIo>(x: Attempt) -> bool {
    exists|io: T| #[trigger] sends(io, x.dest, x.bytes, None)
}

/// The record of sends grew by exactly these blocks of a body, in this order;
/// the transport took each of them.
#[verifier::opaque]
pub open spec fn blocks_sent<T: DatagramIo>(
    log: Seq<Attempt>,
    then: Seq<Attempt>,
    nums: Seq<int>,
    run: BlockRun,
) -> bool {
    &&& then.len() == log.len() + nums.len()
    &&& then.subrange(0, log.len() as int) == log
    &&& forall|j: int|
        0 <= j < nums.len() ==> #[trigger] then[log.len() + j] == (Attempt {
            dest: run.answer.dest,
            bytes: wire(run.message(j, nums[j])),
            ok: true,
        }) && takeable::<T>(then[log.len() + j])
}

/// How many identifiers of their own a list of so many messages takes: the
/// first message has one already.
pub open spec fn taken_ids(messages: nat) -> nat {
    if messages == 0 {
        0
    } else {
        (messages - 1) as nat
    }
}

/// Why a message of the list could not be sent: it got no identifier, or
/// sending it failed. The messages before it got theirs one after the other.
pub open spec fn block_refused<T: DatagramIo>(
    a: Core<T>,
    b: Core<T>,
    log: Seq<Attempt>,
    m: MessageView,
    dest: Endpoint,
    place: int,
    now_ms: u64,
    err: Error<T::Error>,
) -> bool {
    ||| place > 0 && b.port.log@ == log && (err matches Error::Identity(e) && exists|ids: AppIds|
        ids_run(a.ids, ids, a.engine, now_ms, (place - 1) as nat) && #[trigger] ids.refuses(
            b.ids,
            a.engine,
            now_ms,
            e,
        ))
    ||| ids_run(a.ids, b.ids, a.engine, now_ms, place as nat) && exists|io: T| #[trigger]
        one_send(a.engine, io, log, b.port.log@, m, dest, false, Err::<(), Error<T::Error>>(err))
}

/// All blocks of a list go out, in order.
pub open spec fn blocks_out<T: DatagramIo>(
    a: Core<T>,
    b: Core<T>,
    nums: Seq<int>,
    run: BlockRun,
    now_ms: u64,
) -> bool {
    &&& blocks_sent::<T>(a.port.log@, b.port.log@, nums, run)
    &&& ids_run(a.ids, b.ids, a.engine, now_ms, taken_ids(nums.len()))
}

/// The blocks of a list go out, in order, up to the one at this place, which
/// could not.
pub open spec fn blocks_stopped<T: DatagramIo>(
    a: Core<T>,
    b: Core<T>,
    nums: Seq<int>,
    run: BlockRun,
    now_ms: u64,
    k: int,
    err: Error<T::Error>,
) -> bool {
    &&& 0 <= k < nums.len()
    &&& exists|log: Seq<Attempt>|
        {
            &&& #[trigger] blocks_sent::<T>(a.port.log@, log, nums.subrange(0, k), run)
            &&& block_refused(
                a,
                b,
                log,
                run.message(k, nums[k]),
                run.answer.dest,
                k,
                now_ms,
                err,
            )
        }
}

/// Sends change nothing of an engine but counters: each attempt is counted. And
/// an outgoing body got another state.
pub open spec fn body_sent(
    a: Engine,
    b: Engine,
    id: SlotId,
    slot: Option<BodySlot>,
    log: Seq<Attempt>,
    then: Seq<Attempt>,
) -> bool {
    &&& b == (Engine {
        store: Store { tx: b.store.tx, bodies: b.store.bodies, ..a.store },
        pending: b.pending,
        metrics: tallied(a.metrics, log, then),
        ..a
    })
    &&& slots_alike(a, b)
    &&& a.store.bodies matches Some(p) && b.store.bodies matches Some(q) && {
        &&& q.rx == p.rx
        &&& q.tx.slot_bytes == p.tx.slot_bytes
        &&& q.tx.slots@ == p.tx.slots@.update(id.at as int, slot)
    }
}

/// An outgoing body got another state; nothing else changed.
pub open spec fn body_set(a: Engine, b: Engine, id: SlotId, slot: Option<BodySlot>) -> bool {
    &&& tx_bodies_changed(a, b)
    &&& a.store.bodies.is_some()
    &&& b.store.bodies->0.tx.slots@ == a.store.bodies->0.tx.slots@.update(id.at as int, slot)
}

/// After a run, the identifiers stand as far on as it is long.
proof fn lemma_run_mid(a: AppIds, b: AppIds, e: Engine, now_ms: u64, n: nat)
    requires
        ids_run(a, b, e, now_ms, n),
    ensures
        b.next_mid == mid_after(a.next_mid, n as int),
    decreases n,
{
    lemma_mid_after(a.next_mid, 0);
    if n > 0 {
        let c = choose|c: AppIds|
            ids_run(a, c, e, now_ms, (n - 1) as nat) && !c.exhausted(e, now_ms)
                && #[trigger] c.gave(b, now_ms);
        lemma_run_mid(a, c, e, now_ms, (n - 1) as nat);
        lemma_mid_after(a.next_mid, n - 1);
    }
}

proof fn lemma_no_blocks<T: DatagramIo>(log: Seq<Attempt>, run: BlockRun)
    ensures
        blocks_sent::<T>(log, log, Seq::empty(), run),
{
    reveal(blocks_sent);
    assert(log.subrange(0, log.len() as int) =~= log);
}

/// After blocks were sent, one more attempt is counted once more.
proof fn lemma_blocks_tallied<T: DatagramIo>(
    m: Metrics,
    log: Seq<Attempt>,
    then: Seq<Attempt>,
    nums: Seq<int>,
    run: BlockRun,
    x: Attempt,
)
    requires
        blocks_sent::<T>(log, then, nums, run),
    ensures
        tallied(m, log, then.push(x)) == sent_metrics(tallied(m, log, then), x.ok),
{
    reveal(blocks_sent);
    lemma_tallied(m, log, then, x);
}

proof fn lemma_one_more_block<T: DatagramIo>(
    log: Seq<Attempt>,
    then: Seq<Attempt>,
    nums: Seq<int>,
    run: BlockRun,
    num: int,
)
    requires
        blocks_sent::<T>(log, then, nums, run),
        takeable::<T>(
            Attempt {
                dest: run.answer.dest,
                bytes: wire(run.message(nums.len() as int, num)),
                ok: true,
            },
        ),
    ensures
        blocks_sent::<T>(
            log,
            then.push(
                Attempt {
                    dest: run.answer.dest,
                    bytes: wire(run.message(nums.len() as int, num)),
                    ok: true,
                },
            ),
            nums.push(num),
            run,
        ),
{
    reveal(blocks_sent);
    let more = nums.push(num);
    let after = then.push(
        Attempt {
            dest: run.answer.dest,
            bytes: wire(run.message(nums.len() as int, num)),
            ok: true,
        },
    );
    assert(after.subrange(0, log.len() as int) =~= then.subrange(0, log.len() as int));
    assert forall|j: int| 0 <= j < more.len() implies #[trigger] after[log.len() + j] == (Attempt {
        dest: run.answer.dest,
        bytes: wire(run.message(j, more[j])),
        ok: true,
    }) && takeable::<T>(after[log.len() + j]) by {
        if j < nums.len() {
            assert(after[log.len() + j] == then[log.len() + j]);
        }
    }
}

/// The numbers from one on, up to another.
pub open spec fn numbers(from: int, to: int) -> Seq<int> {
    Seq::new(
        if from < to {
            (to - from) as nat
        } else {
            0
        },
        |k: int| from + k,
    )
}

/// How many blocks, from its own number on, a request for windowed blocks
/// names: one, or all up to the end of its window.
pub open spec fn named_blocks(q: BlockValue) -> int {
    if q.more {
        10 - q.num % 10
    } else {
        1
    }
}

/// The blocks that are sent for a list of selections: each once, ascending.
pub open spec fn picked(selections: Seq<BlockValue>, count: int) -> Seq<int>
    decreases selections.len(),
{
    if selections.len() == 0 {
        Seq::empty()
    } else {
        let front = picked(selections.drop_last(), count);
        let q = selections.last();
        let from = if front.len() > 0 && front.last() >= q.num {
            front.last() + 1
        } else {
            q.num as int
        };
        let end = q.num + named_blocks(q);
        front + numbers(
            from,
            if end < count {
                end
            } else {
                count
            },
        )
    }
}

/// Is the block with this number in a body?
pub open spec fn selectable(body_len: int, szx: u8, q: BlockValue) -> bool {
    in_body(body_len, q.num as int, block_size(szx as int))
}

/// Is every selected block in a body?
pub open spec fn selects_within(selections: Seq<BlockValue>, body_len: int, szx: u8) -> bool {
    forall|i: int| 0 <= i < selections.len() ==> selectable(body_len, szx, #[trigger] selections[i])
}

/// Block numbers below the block count are those in the body.
pub proof fn lemma_in_body_count(len: int, num: int, size: int)
    requires
        0 <= num,
        0 < size,
        0 <= len,
    ensures
        in_body(len, num, size) == (num < block_count(len, size)),
        in_body(len, num, size) && !((num + 1) * size < len) ==> num + 1 == block_count(len, size),
{
    reveal(in_body);
    if len > 0 {
        let c = (len + size - 1) / size;
        assert(c * size <= len + size - 1 < c * size + size) by (nonlinear_arith)
            requires
                c == (len + size - 1) / size,
                0 < size,
                0 < len,
        ;
        assert(c >= 1) by (nonlinear_arith)
            requires
                len + size - 1 < c * size + size,
                0 < size,
                0 < len,
        ;
        if num < c {
            assert(num * size <= (c - 1) * size) by (nonlinear_arith)
                requires
                    num <= c - 1,
                    0 < size,
            ;
            assert((c - 1) * size == c * size - size) by (nonlinear_arith);
        } else {
            assert(num * size >= c * size) by (nonlinear_arith)
                requires
                    num >= c,
                    0 < size,
            ;
        }
        if num + 1 < c {
            assert((num + 1) * size <= (c - 1) * size) by (nonlinear_arith)
                requires
                    num + 1 <= c - 1,
                    0 < size,
            ;
            assert((c - 1) * size == c * size - size) by (nonlinear_arith);
        }
    } else {
        assert(num * size >= 0) by (nonlinear_arith)
            requires
                0 <= num,
                0 < size,
        ;
    }
}

impl<T: DatagramIo> Core<T> {
    /// Send one block of an outgoing body.
    fn send_issued(
        &mut self,
        answer: &Answer,
        response: &Response<'_>,
        head: Head,
        issued: OutgoingBlock,
        q_block: bool,
        confirm: Option<Confirm>,
        szx: Ghost<u8>,
    ) -> (r: Result<(), Error<T::Error>>)
        requires
            old(self).wf(),
            answer.wf(),
            szx@ <= 6,
            head.token == answer.token,
            old(self).engine.tx_transfer(issued.id).is_some(),
            old(self).engine.tx_body(issued.id).len() <= 0xfffff0,
            cuts(
                issued,
                issued.id,
                old(self).engine.tx_body(issued.id).len() as int,
                issued.block.num,
                szx@,
            ),
        ensures
            final(self).wf(),
            served(*old(self), *final(self), answer.dest),
            final(self).ids == old(self).ids,
            final(self).closed == old(self).closed,
            *final(self) == (Core {
                engine: final(self).engine,
                port: final(self).port,
                ..*old(self)
            }),
            delivered(
                old(self).engine,
                final(self).engine,
                old(self).port,
                final(self).port,
                block_message(
                    response@,
                    head.ty,
                    head.mid.raw,
                    answer.token@,
                    old(self).engine.tx_body(issued.id),
                    issued.block.num,
                    szx@,
                    q_block,
                    answer.block1,
                ),
                answer.dest,
                confirm,
                r,
            ),
    {
        let ghost first = *self;
        let ghost body = self.engine.tx_body(issued.id);
        proof {
            lemma_cuts(issued, issued.id, body.len() as int, issued.block.num, szx@);
            law_cut_is_block(issued, issued.id, body, issued.block.num, szx@);
        }
        let (chunk, whole): (Vec<u8>, usize) = match self.engine.tx_body_payload(issued.id) {
            Some(payload) => (
                to_vec(
                    vstd::slice::slice_subrange(
                        payload,
                        issued.offset,
                        issued.offset + issued.len,
                    ),
                ),
                payload.len(),
            ),
            None => return Err(Error::Block(BlockTransferError::NoTransfer)),
        };
        let size2: Option<u32> = if q_block {
            Some(whole as u32)
        } else {
            None
        };
        let block = BlockOpt { value: issued.block, q_block, size2 };
        let ghost m = block_message(
            response@,
            head.ty,
            head.mid.raw,
            answer.token@,
            body,
            issued.block.num,
            szx@,
            q_block,
            answer.block1,
        );
        let slot = encode_response(
            &mut self.engine,
            head,
            response,
            chunk.as_slice(),
            Some(block),
            answer.block1,
            answer.dest,
        );
        let r = send_staged(
            &mut self.engine,
            &mut self.port,
            slot,
            answer.dest,
            confirm,
            Ghost(first.engine),
            Ghost(m),
        );
        proof {
            lemma_pins_stay(first.engine, self.engine);
        }
        r
    }

    /// Send a short answer without a body.
    fn send_bare(
        &mut self,
        answer: &Answer,
        code: Code,
        head: Head,
        confirm: Option<Confirm>,
    ) -> (r: Result<(), Error<T::Error>>)
        requires
            old(self).wf(),
            answer.wf(),
            head.token == answer.token,
        ensures
            final(self).wf(),
            served(*old(self), *final(self), answer.dest),
            final(self).ids == old(self).ids,
            final(self).closed == old(self).closed,
            *final(self) == (Core {
                engine: final(self).engine,
                port: final(self).port,
                ..*old(self)
            }),
            delivered(
                old(self).engine,
                final(self).engine,
                old(self).port,
                final(self).port,
                bare_message(code, head.ty, head.mid.raw, answer.token@, answer.block1),
                answer.dest,
                confirm,
                r,
            ),
    {
        let ghost first = *self;
        let response = Response::new(code);
        let slot = encode_response(
            &mut self.engine,
            head,
            &response,
            response.payload(),
            None,
            answer.block1,
            answer.dest,
        );
        let r = send_staged(
            &mut self.engine,
            &mut self.port,
            slot,
            answer.dest,
            confirm,
            Ghost(first.engine),
            Ghost(bare_message(code, head.ty, head.mid.raw, answer.token@, answer.block1)),
        );
        proof {
            lemma_pins_stay(first.engine, self.engine);
        }
        r
    }
}

/// The message of an answer that is only a code.
pub open spec fn bare_message(
    code: Code,
    ty: Type,
    mid: u16,
    token: Seq<u8>,
    block1: Option<BlockOpt>,
) -> MessageView {
    reply_message(bare_response(code), ty, mid, token, Seq::empty(), None, block1)
}

/// Which block, of what size, goes out in an ordered transfer.
pub open spec fn classic_choice(block2: Option<BlockValue>, next_num: u32, szx: u8) -> (
    u32,
    u8,
) {
    match block2 {
        Some(b) => (
            b.num,
            if b.szx <= 6 {
                b.szx
            } else {
                6
            },
        ),
        None => (next_num, szx),
    }
}

/// The message that an ordered transfer sends next: the wanted block, or 4.00
/// when the body does not have it.
pub open spec fn classic_message(
    r: ResponseView,
    ty: Type,
    mid: u16,
    answer: Answer,
    body: Seq<u8>,
    next_num: u32,
    next_szx: u8,
) -> MessageView {
    let (num, szx) = classic_choice(answer.block2, next_num, next_szx);
    if num < 0x100000 && in_body(body.len() as int, num as int, block_size(szx as int)) {
        block_message(r, ty, mid, answer.token@, body, num, szx, false, answer.block1)
    } else {
        bare_message(Code::BAD_REQUEST, ty, mid, answer.token@, answer.block1)
    }
}

/// The outgoing body in a slot of an engine that is in order.
pub proof fn lemma_tx_body(e: crate::storage::engine::Engine, id: SlotId)
    requires
        e.wf(),
        e.tx_transfer(id).is_some(),
    ensures
        e.tx_transfer(id)->0.szx <= 6,
        e.tx_transfer(id)->0.next_num <= 0x100000,
        e.tx_transfer(id)->0.window_base <= 0x10000a,
        e.tx_transfer(id)->0.role.outgoing() ==> e.tx_body(id).len() <= 0xfffff0,
{
    let pool = e.store.bodies->0.tx;
    assert(crate::storage::transfer::body_ok(
        pool.slots@[id.at as int]->0,
        pool.slot_bytes as int,
    ));
}

/// The state of an outgoing body once an ordered transfer has cut a block.
pub open spec fn classic_cut(slot: BodySlot, block2: Option<BlockValue>) -> Option<BodySlot> {
    let t = slot.transfer;
    let (num, szx) = classic_choice(block2, t.next_num, t.szx);
    if !has_block(slot.bytes@, num, szx) {
        None
    } else if block2.is_some() {
        Some(slot)
    } else {
        Some(
            BodySlot {
                transfer: BlockTransfer {
                    next_num: (t.next_num + 1) as u32,
                    complete: last_block(slot.bytes@, num, szx),
                    ..t
                },
                bytes: slot.bytes,
            },
        )
    }
}

/// Has a body this block?
pub open spec fn has_block(body: Seq<u8>, num: u32, szx: u8) -> bool {
    num < 0x100000 && in_body(body.len() as int, num as int, block_size(szx as int))
}

/// Is this the last block of a body?
pub open spec fn last_block(body: Seq<u8>, num: u32, szx: u8) -> bool {
    !((num + 1) * block_size(szx as int) < body.len())
}

/// What sending one block of an ordered transfer does.
///
/// The body is kept only for the blocks that follow a notification.
pub open spec fn classic_issued<T: DatagramIo>(
    a: Core<T>,
    b: Core<T>,
    answer: Answer,
    r: ResponseView,
    ty: Type,
    mid: u16,
    id: SlotId,
    confirm: Option<Confirm>,
    res: Result<(), Error<T::Error>>,
) -> bool {
    let slot = a.engine.store.bodies->0.tx.slots@[id.at as int]->0;
    let t = slot.transfer;
    let body = slot.bytes@;
    let (num, szx) = classic_choice(answer.block2, t.next_num, t.szx);
    if answer.block2.is_none() && t.complete {
        res == Err::<(), Error<T::Error>>(Error::Block(BlockTransferError::AlreadyComplete)) && b == a
    } else {
        &&& b == (Core { engine: b.engine, port: b.port, ..a })
        &&& exists|c: Engine, d: Engine|
            {
                &&& #[trigger] body_set(a.engine, c, id, classic_cut(slot, answer.block2))
                &&& delivered(
                    c,
                    d,
                    a.port,
                    b.port,
                    classic_message(r, ty, mid, answer, body, t.next_num, t.szx),
                    answer.dest,
                    confirm,
                    res,
                )
                &&& #[trigger] body_set(
                    d,
                    b.engine,
                    id,
                    classic_left(slot, answer.block2, confirm, r, res),
                )
            }
    }
}

/// The state of an outgoing body once a block of an ordered transfer was sent.
pub open spec fn classic_left<E>(
    slot: BodySlot,
    block2: Option<BlockValue>,
    confirm: Option<Confirm>,
    r: ResponseView,
    res: Result<(), Error<E>>,
) -> Option<BodySlot> {
    let (num, szx) = classic_choice(block2, slot.transfer.next_num, slot.transfer.szx);
    if res.is_ok() && (last_block(slot.bytes@, num, szx) || (confirm.is_none()
        && r.observe.is_none())) {
        None
    } else {
        classic_cut(slot, block2)
    }
}

impl<T: DatagramIo> Core<T> {
    /// Send one block of an ordered transfer, and free the body unless it is
    /// kept for the blocks that follow a notification.
    pub fn issue_classic(
        &mut self,
        answer: &Answer,
        response: &Response<'_>,
        head: Head,
        id: SlotId,
        confirm: Option<Confirm>,
    ) -> (r: Result<(), Error<T::Error>>)
        requires
            old(self).wf(),
            answer.wf(),
            head.token == answer.token,
            old(self).engine.tx_transfer(id).is_some(),
            old(self).engine.tx_transfer(id)->0.role == BlockRole::OutgoingBlock2,
        ensures
            final(self).wf(),
            served(*old(self), *final(self), answer.dest),
            final(self).ids == old(self).ids,
            final(self).closed == old(self).closed,
            only_body(old(self).engine, final(self).engine, id),
            classic_issued(
                *old(self),
                *final(self),
                *answer,
                response@,
                head.ty,
                head.mid.raw,
                id,
                confirm,
                r,
            ),
    {
        let ghost first = *self;
        let ghost body = self.engine.tx_body(id);
        let ghost t = self.engine.tx_transfer(id)->0;
        let ghost choice = classic_choice(answer.block2, t.next_num, t.szx);
        let ghost slot = first.engine.store.bodies->0.tx.slots@[id.at as int]->0;
        let ghost cut = classic_cut(slot, answer.block2);
        proof {
            lemma_tx_body(self.engine, id);
        }
        let range = match answer.block2 {
            Some(block) => self.engine.requested_block2(id, block),
            None => self.engine.next_block(id),
        };
        let ghost second = *self;
        proof {
            lemma_bodies_served(first, second, answer.dest);
            lemma_pins_stay(first.engine, second.engine);
        }
        let issued = match range {
            Ok(issued) => issued,
            Err(BlockTransferError::Gap) => {
                self.engine.release_tx_body(id);
                let ghost third = *self;
                proof {
                    lemma_bodies_served(second, third, answer.dest);
                    lemma_served_trans(first, second, third, answer.dest);
                    lemma_pins_stay(second.engine, third.engine);
                    assert(body_set(first.engine, third.engine, id, cut));
                }
                let r = self.send_bare(answer, Code::BAD_REQUEST, head, confirm);
                proof {
                    lemma_served_trans(first, third, *self, answer.dest);
                    let slots = self.engine.store.bodies->0.tx.slots@;
                    assert(slots.update(id.at as int, None) =~= slots);
                    assert(body_set(
                        self.engine,
                        self.engine,
                        id,
                        classic_left(slot, answer.block2, confirm, response@, r),
                    ));
                }
                return r;
            },
            Err(e) => return Err(Error::Block(e)),
        };
        proof {
            lemma_cuts(issued, id, body.len() as int, choice.0, choice.1);
            assert(issued.block.more == !last_block(body, choice.0, choice.1)) by {
                reveal(cuts);
                let size = block_size(choice.1 as int);
                assert((choice.0 + 1) * size == choice.0 * size + size) by (nonlinear_arith);
            }
            let slots = first.engine.store.bodies->0.tx.slots@;
            assert(slots.update(id.at as int, Some(slot)) =~= slots);
            assert(body_set(first.engine, second.engine, id, cut));
        }
        let r = self.send_issued(
            answer,
            response,
            head,
            issued,
            false,
            confirm,
            Ghost(choice.1),
        );
        let ghost third = *self;
        proof {
            lemma_served_trans(first, second, third, answer.dest);
            let slots = third.engine.store.bodies->0.tx.slots@;
            assert(slots.update(id.at as int, cut) =~= slots);
            assert(body_set(third.engine, third.engine, id, cut));
        }
        if r.is_err() {
            return r;
        }
        if issued.complete() || (confirm.is_none() && response.observe_seq().is_none()) {
            self.engine.release_tx_body(id);
            proof {
                lemma_bodies_served(third, *self, answer.dest);
                lemma_served_trans(first, third, *self, answer.dest);
                lemma_pins_stay(third.engine, self.engine);
                assert(body_set(third.engine, self.engine, id, None));
            }
        }
        assert(body_set(
            third.engine,
            self.engine,
            id,
            classic_left(slot, answer.block2, confirm, response@, r),
        ));
        Ok(())
    }

    /// Send the blocks of a windowed transfer that its window allows, and free
    /// the body after its last block.
    ///
    /// The first block goes out as told; the others are non-confirmable.
    pub fn issue_q_window(
        &mut self,
        answer: &Answer,
        response: &Response<'_>,
        head: Head,
        id: SlotId,
        now_ms: u64,
    ) -> (r: Result<(), Error<T::Error>>)
        requires
            old(self).wf(),
            answer.wf(),
            head.token == answer.token,
            old(self).engine.tx_transfer(id).is_some(),
            old(self).engine.tx_transfer(id)->0.role == BlockRole::OutgoingQBlock2,
        ensures
            final(self).wf(),
            served(*old(self), *final(self), answer.dest),
            only_body(old(self).engine, final(self).engine, id),
            window_issued(
                *old(self),
                *final(self),
                *answer,
                response@,
                head.ty,
                head.mid.raw,
                id,
                now_ms,
                r,
            ),
    {
        let ghost first = *self;
        let ghost slot = first.engine.store.bodies->0.tx.slots@[id.at as int]->0;
        let ghost body = slot.bytes@;
        let ghost t = slot.transfer;
        let ghost size = block_size(t.szx as int);
        let ghost count = block_count(body.len() as int, size);
        let ghost stop = window_stop(t, count);
        let ghost nums = numbers(t.next_num as int, stop);
        let ghost log = self.port.log@;
        let ghost run = block_run(first, *answer, response@, slot, head.ty, head.mid.raw);
        proof {
            lemma_tx_body(self.engine, id);
            lemma_no_blocks::<T>(log, run);
            super::reactor::lemma_calm_same(first.engine, first.engine);
            super::reactor::lemma_sends_one(log, log, answer.dest);
            assert(numbers(t.next_num as int, t.next_num as int) =~= Seq::<int>::empty());
            lemma_in_body_count(body.len() as int, t.next_num as int, size);
            lemma_count_bound(body.len() as int, t.szx);
            let slots = first.engine.store.bodies->0.tx.slots@;
            assert(slots.update(id.at as int, Some(slot)) =~= slots);
            assert(body_sent(
                first.engine,
                first.engine,
                id,
                window_slot(slot, 0),
                log,
                log,
            ));
        }
        let mut sent: u32 = 0;
        loop
            invariant
                self.wf(),
                answer.wf(),
                head.token == answer.token,
                first == *old(self),
                log == first.port.log@,
                first.engine.tx_transfer(id).is_some(),
                slot == first.engine.store.bodies->0.tx.slots@[id.at as int]->0,
                body == slot.bytes@,
                t == slot.transfer,
                size == block_size(t.szx as int),
                count == block_count(body.len() as int, size),
                stop == window_stop(t, count),
                nums == numbers(t.next_num as int, stop),
                run == block_run(first, *answer, response@, slot, head.ty, head.mid.raw),
                in_body(body.len() as int, t.next_num as int, size) == (t.next_num < count),
                count <= 0x100000,
                t.szx <= 6,
                body.len() <= 0xfffff0,
                t.role == BlockRole::OutgoingQBlock2,
                t.next_num + sent <= 0x100000,
                t.window_base <= 0x10000a,
                *self == (Core { engine: self.engine, port: self.port, ids: self.ids, ..first }),
                sent == 0 ==> *self == first,
                body_sent(
                    first.engine,
                    self.engine,
                    id,
                    window_slot(slot, sent as int),
                    log,
                    self.port.log@,
                ),
                served(first, *self, answer.dest),
                blocks_sent::<T>(
                    log,
                    self.port.log@,
                    numbers(t.next_num as int, t.next_num + sent),
                    run,
                ),
                ids_run(first.ids, self.ids, first.engine, now_ms, taken_ids(sent as nat)),
                sent > 0 ==> !t.complete && t.next_num + sent <= t.window_base + 10 && t.next_num
                    + sent < count,
            decreases 0x100000 - (t.next_num + sent),
        {
            let ghost before = *self;
            let ghost num = (t.next_num + sent) as u32;
            proof {
                lemma_in_body_count(body.len() as int, num as int, size);
            }
            let issued = match self.engine.next_block(id) {
                Ok(issued) => issued,
                Err(BlockTransferError::OutsideWindow) => {
                    assert(sent > 0 ==> t.next_num + sent == stop);
                    return Ok(());
                },
                Err(e) => return Err(Error::Block(e)),
            };
            let ghost second = *self;
            let ghost cut = second.engine.store.bodies->0.tx.slots@[id.at as int];
            proof {
                lemma_bodies_served(before, second, answer.dest);
                lemma_pins_stay(before.engine, second.engine);
                lemma_cuts(issued, id, body.len() as int, num, t.szx);
                law_cut_is_block(issued, id, body, num, t.szx);
                lemma_served_trans(first, before, second, answer.dest);
                assert(issued.block.more == ((num + 1) * size < body.len())) by {
                    reveal(cuts);
                    assert((num + 1) * size == num * size + size) by (nonlinear_arith);
                }
                assert(cut == Some(
                    BodySlot {
                        transfer: BlockTransfer {
                            next_num: (num + 1) as u32,
                            complete: !issued.block.more,
                            ..t
                        },
                        bytes: slot.bytes,
                    },
                ));
                assert(second.engine.store.bodies->0.tx.slots@
                    =~= first.engine.store.bodies->0.tx.slots@.update(id.at as int, cut));
                assert(body_sent(
                    first.engine,
                    second.engine,
                    id,
                    cut,
                    log,
                    second.port.log@,
                ));
                lemma_in_body_count(body.len() as int, num + 1, size);
                assert(issued.block.more == (num + 1 != count)) by {
                    reveal(in_body);
                }
                assert(cut == window_cut(slot, sent as int, count));
                assert(nums.subrange(0, sent as int) =~= numbers(t.next_num as int, num as int));
                assert(nums[sent as int] == num);
                lemma_run_mid(first.ids, self.ids, first.engine, now_ms, taken_ids(sent as nat));
            }
            let next = if sent == 0 {
                head
            } else {
                match self.ids.next_for(&self.engine, now_ms) {
                    Ok(mid) => Head { ty: Type::NonConfirmable, mid, token: answer.token },
                    Err(e) => {
                        proof {
                            assert(before.ids.refuses(self.ids, first.engine, now_ms, e));
                            assert(block_refused(
                                first,
                                *self,
                                before.port.log@,
                                run.message(sent as int, num as int),
                                answer.dest,
                                sent as int,
                                now_ms,
                                Error::<T::Error>::Identity(e),
                            ));
                            assert(blocks_stopped(
                                first,
                                *self,
                                nums,
                                run,
                                now_ms,
                                sent as int,
                                Error::<T::Error>::Identity(e),
                            ));
                        }
                        return Err(Error::Identity(e));
                    },
                }
            };
            let ghost third = *self;
            proof {
                if sent > 0 {
                    lemma_run_longer(
                        first.ids,
                        second.ids,
                        third.ids,
                        first.engine,
                        second.engine,
                        now_ms,
                        (sent - 1) as nat,
                    );
                }
            }
            let r = self.send_issued(answer, response, next, issued, true, None, Ghost(t.szx));
            proof {
                assert(third.engine == second.engine);
                assert(served(second, *self, answer.dest));
                lemma_served_trans(first, second, *self, answer.dest);
                assert((num as int) as u32 == num);
                lemma_one_send(
                    first.engine,
                    third.engine,
                    self.engine,
                        third.port,
                        self.port,
                    run.message(sent as int, num as int),
                    answer.dest,
                    r,
                );
                lemma_blocks_tallied::<T>(
                    first.engine.metrics,
                    log,
                    third.port.log@,
                    numbers(t.next_num as int, num as int),
                    run,
                    self.port.log@.last(),
                );
                assert(body_sent(
                    first.engine,
                    self.engine,
                    id,
                    cut,
                    log,
                    self.port.log@,
                ));
            }
            if r.is_err() {
                proof {
                    assert(block_refused(
                        first,
                        *self,
                        before.port.log@,
                        run.message(sent as int, num as int),
                        answer.dest,
                        sent as int,
                        now_ms,
                        r->Err_0,
                    ));
                    assert(blocks_stopped(
                        first,
                        *self,
                        nums,
                        run,
                        now_ms,
                        sent as int,
                        r->Err_0,
                    ));
                }
                return r;
            }
            proof {
                assert(sends(
                    third.port.io,
                    answer.dest,
                    wire(run.message(sent as int, num as int)),
                    None,
                ));
                let x = Attempt {
                    dest: run.answer.dest,
                    bytes: wire(
                        run.message(
                            numbers(t.next_num as int, num as int).len() as int,
                            num as int,
                        ),
                    ),
                    ok: true,
                };
                assert(numbers(t.next_num as int, num as int).len() == sent);
                assert(sends(third.port.io, x.dest, x.bytes, None));
                lemma_one_more_block::<T>(
                    log,
                    before.port.log@,
                    numbers(t.next_num as int, num as int),
                    run,
                    num as int,
                );
                assert(numbers(t.next_num as int, num as int).push(num as int) =~= numbers(
                    t.next_num as int,
                    num + 1,
                ));
            }
            sent = sent + 1;
            let ghost fourth = *self;
            if issued.complete() {
                self.engine.release_tx_body(id);
                proof {
                    lemma_bodies_served(fourth, *self, answer.dest);
                    lemma_served_trans(first, fourth, *self, answer.dest);
                    lemma_pins_stay(fourth.engine, self.engine);
                    assert(self.engine.store.bodies->0.tx.slots@
                        =~= first.engine.store.bodies->0.tx.slots@.update(id.at as int, None));
                    assert(body_sent(
                        first.engine,
                        self.engine,
                        id,
                        None,
                        log,
                        self.port.log@,
                    ));
                }
                return Ok(());
            }
            assert(num + 1 < count) by {
                reveal(in_body);
                lemma_in_body_count(body.len() as int, num + 1, size);
            }
        }
    }
}

/// A body of a legal length has no more blocks than can be numbered.
pub proof fn lemma_count_bound(len: int, szx: u8)
    requires
        0 <= len <= 0xfffff0,
        szx <= 6,
    ensures
        block_count(len, block_size(szx as int)) <= 0x100000,
{
    let size = block_size(szx as int);
    assert((len + size - 1) / size <= 0x100000) by (nonlinear_arith)
        requires
            16 <= size,
            0 <= len <= 0xfffff0,
    ;
}

/// Where a window stops: at its end, or at the end of the body.
pub open spec fn window_stop(t: BlockTransfer, count: int) -> int {
    if count < t.window_base + 10 {
        count
    } else {
        t.window_base + 10
    }
}

/// The state of an outgoing body after this many more blocks.
pub open spec fn window_slot(slot: BodySlot, sent: int) -> Option<BodySlot> {
    Some(
        BodySlot {
            transfer: BlockTransfer {
                next_num: (slot.transfer.next_num + sent) as u32,
                ..slot.transfer
            },
            bytes: slot.bytes,
        },
    )
}

/// The state of an outgoing body whose block at this place of a window was cut
/// and could not be sent.
pub open spec fn window_cut(slot: BodySlot, place: int, count: int) -> Option<BodySlot> {
    let t = slot.transfer;
    Some(
        BodySlot {
            transfer: BlockTransfer {
                next_num: (t.next_num + place + 1) as u32,
                complete: t.next_num + place + 1 == count,
                ..t
            },
            bytes: slot.bytes,
        },
    )
}

/// What a list of blocks of a body is sent with.
pub open spec fn block_run<T>(
    a: Core<T>,
    answer: Answer,
    r: ResponseView,
    slot: BodySlot,
    ty: Type,
    mid: u16,
) -> BlockRun {
    BlockRun {
        answer,
        response: r,
        body: slot.bytes@,
        szx: slot.transfer.szx,
        ty,
        mid,
        next: a.ids.next_mid,
    }
}

/// What sending the blocks that a window allows does: they go out in order, up
/// to the end of the window or of the body. After its last block, the body is
/// let go. When a block could not be sent, the body is kept as if it had been.
pub open spec fn window_issued<T: DatagramIo>(
    a: Core<T>,
    b: Core<T>,
    answer: Answer,
    r: ResponseView,
    ty: Type,
    mid: u16,
    id: SlotId,
    now_ms: u64,
    res: Result<(), Error<T::Error>>,
) -> bool {
    let slot = a.engine.store.bodies->0.tx.slots@[id.at as int]->0;
    let t = slot.transfer;
    let count = block_count(slot.bytes@.len() as int, block_size(t.szx as int));
    let stop = window_stop(t, count);
    if t.complete {
        res == Err::<(), Error<T::Error>>(Error::Block(BlockTransferError::AlreadyComplete)) && b == a
    } else if t.next_num >= t.window_base + 10 {
        res.is_ok() && b == a
    } else if t.next_num >= count {
        res == Err::<(), Error<T::Error>>(Error::Block(BlockTransferError::Gap)) && b == a
    } else {
        let then = b.engine.store.bodies->0.tx.slots@[id.at as int];
        let nums = numbers(t.next_num as int, stop);
        let run = block_run(a, answer, r, slot, ty, mid);
        &&& b == (Core { engine: b.engine, port: b.port, ids: b.ids, ..a })
        &&& body_sent(a.engine, b.engine, id, then, a.port.log@, b.port.log@)
        &&& match res {
            Ok(_) => blocks_out(a, b, nums, run, now_ms) && then == if stop == count {
                None
            } else {
                window_slot(slot, stop - t.next_num)
            },
            Err(err) => exists|k: int| #[trigger]
                blocks_stopped(a, b, nums, run, now_ms, k, err) && then == window_cut(
                    slot,
                    k,
                    count,
                ),
        }
    }
}

/// A send among others, seen from the state before them.
pub proof fn lemma_one_send<T: DatagramIo>(
    a: Engine,
    before: Engine,
    after: Engine,
    port: Port<T>,
    then: Port<T>,
    m: MessageView,
    dest: Endpoint,
    r: Result<(), Error<T::Error>>,
)
    requires
        slots_alike(a, before),
        delivered(before, after, port, then, m, dest, None, r),
    ensures
        slots_alike(a, after),
        one_send(a, port.io, port.log@, then.log@, m, dest, false, r),
{
}

/// What sending selected blocks does: each goes out once, ascending. When one of
/// them is not in the body, nothing is sent. The body stays as it is.
pub open spec fn selection_issued<T: DatagramIo>(
    a: Core<T>,
    b: Core<T>,
    answer: Answer,
    r: ResponseView,
    ty: Type,
    mid: u16,
    id: SlotId,
    now_ms: u64,
    res: Result<(), Error<T::Error>>,
) -> bool {
    let slot = a.engine.store.bodies->0.tx.slots@[id.at as int]->0;
    let len = slot.bytes@.len() as int;
    let szx = slot.transfer.szx;
    let nums = picked(answer.selections@, block_count(len, block_size(szx as int)));
    let run = block_run(a, answer, r, slot, ty, mid);
    if selects_within(answer.selections@, len, szx) {
        &&& b == (Core { engine: b.engine, port: b.port, ids: b.ids, ..a })
        &&& only_counted(a.engine, b.engine, a.port.log@, b.port.log@)
        &&& match res {
            Ok(_) => blocks_out(a, b, nums, run, now_ms),
            Err(err) => exists|k: int| #[trigger]
                blocks_stopped(a, b, nums, run, now_ms, k, err),
        }
    } else {
        res == Err::<(), Error<T::Error>>(Error::Block(BlockTransferError::Gap)) && b == a
    }
}

/// Picked block numbers ascend to below the count.
proof fn lemma_picked(selections: Seq<BlockValue>, count: int)
    requires
        forall|i: int| 0 <= i < selections.len() ==> (#[trigger] selections[i]).num < count,
    ensures
        picked(selections, count).len() > 0 ==> 0 <= picked(selections, count).last() < count,
        selections.len() > 0 ==> picked(selections, count).len() > 0,
    decreases selections.len(),
{
    if selections.len() > 0 {
        let rest = selections.drop_last();
        assert(forall|i: int| 0 <= i < rest.len() ==> rest[i] == selections[i]);
        lemma_picked(rest, count);
        let q = selections.last();
        assert(q == selections[selections.len() - 1]);
        let front = picked(rest, count);
        let from = if front.len() > 0 && front.last() >= q.num {
            front.last() + 1
        } else {
            q.num as int
        };
        let end = q.num + named_blocks(q);
        let to = if end < count {
            end
        } else {
            count
        };
        let tail = numbers(from, to);
        if tail.len() > 0 {
            assert((front + tail).last() == tail.last());
        } else {
            assert(front + tail =~= front);
            assert(from < to || front.len() > 0);
        }
    }
}

impl<T: DatagramIo> Core<T> {
    /// Is every selected block in the body?
    fn all_selectable(&self, answer: &Answer, id: SlotId) -> (b: bool)
        requires
            self.wf(),
            answer.wf(),
            self.engine.tx_transfer(id).is_some(),
        ensures
            b == selects_within(
                answer.selections@,
                self.engine.tx_body(id).len() as int,
                self.engine.tx_transfer(id)->0.szx,
            ),
    {
        let mut i: usize = 0;
        while i < answer.selections.len()
            invariant
                self.wf(),
                answer.wf(),
                self.engine.tx_transfer(id).is_some(),
                i <= answer.selections@.len(),
                forall|k: int|
                    0 <= k < i ==> selectable(
                        self.engine.tx_body(id).len() as int,
                        self.engine.tx_transfer(id)->0.szx,
                        #[trigger] answer.selections@[k],
                    ),
            decreases answer.selections@.len() - i,
        {
            let q = answer.selections[i];
            assert(answer.selections@[i as int].valid());
            if self.engine.block_at(id, q.num).is_err() {
                assert(!selectable(
                    self.engine.tx_body(id).len() as int,
                    self.engine.tx_transfer(id)->0.szx,
                    answer.selections@[i as int],
                ));
                return false;
            }
            i = i + 1;
        }
        true
    }

    /// Send the selected blocks of a windowed transfer, each once, ascending.
    ///
    /// When one of them is not in the body, nothing is sent. The window does
    /// not move.
    pub fn issue_q_selection(
        &mut self,
        answer: &Answer,
        response: &Response<'_>,
        head: Head,
        id: SlotId,
        now_ms: u64,
    ) -> (r: Result<(), Error<T::Error>>)
        requires
            old(self).wf(),
            answer.wf(),
            head.token == answer.token,
            old(self).engine.tx_transfer(id).is_some(),
            old(self).engine.tx_transfer(id)->0.role == BlockRole::OutgoingQBlock2,
        ensures
            final(self).wf(),
            served(*old(self), *final(self), answer.dest),
            selection_issued(
                *old(self),
                *final(self),
                *answer,
                response@,
                head.ty,
                head.mid.raw,
                id,
                now_ms,
                r,
            ),
    {
        let ghost first = *self;
        let ghost slot = first.engine.store.bodies->0.tx.slots@[id.at as int]->0;
        let ghost body = slot.bytes@;
        let ghost t = slot.transfer;
        let ghost run = block_run(first, *answer, response@, slot, head.ty, head.mid.raw);
        let ghost size = block_size(t.szx as int);
        let ghost count = block_count(body.len() as int, size);
        let ghost log = self.port.log@;
        let ghost sel = answer.selections@;
        proof {
            lemma_tx_body(self.engine, id);
            lemma_no_blocks::<T>(log, run);
            super::reactor::lemma_calm_same(first.engine, first.engine);
            super::reactor::lemma_sends_one(log, log, answer.dest);
        }
        if !self.all_selectable(answer, id) {
            return Err(Error::Block(BlockTransferError::Gap));
        }
        assert forall|i: int| 0 <= i < sel.len() implies (#[trigger] sel[i]).num < count by {
            lemma_in_body_count(body.len() as int, sel[i].num as int, size);
        }
        let mut last: Option<u32> = None;
        let mut i: usize = 0;
        assert(sel.subrange(0, 0) =~= Seq::<BlockValue>::empty());
        while i < answer.selections.len()
            invariant
                self.wf(),
                answer.wf(),
                head.token == answer.token,
                first == *old(self),
                log == first.port.log@,
                sel == answer.selections@,
                i <= sel.len(),
                first.engine.tx_transfer(id).is_some(),
                slot == first.engine.store.bodies->0.tx.slots@[id.at as int]->0,
                body == slot.bytes@,
                t == slot.transfer,
                run == block_run(first, *answer, response@, slot, head.ty, head.mid.raw),
                size == block_size(t.szx as int),
                count == block_count(body.len() as int, size),
                t.szx <= 6,
                body.len() <= 0xfffff0,
                forall|k: int| 0 <= k < sel.len() ==> (#[trigger] sel[k]).num < count,
                selects_within(sel, body.len() as int, t.szx),
                *self == (Core { engine: self.engine, port: self.port, ids: self.ids, ..first }),
                only_counted(first.engine, self.engine, log, self.port.log@),
                served(first, *self, answer.dest),
                blocks_sent::<T>(
                    log,
                    self.port.log@,
                    picked(sel.subrange(0, i as int), count),
                    run,
                ),
                ids_run(
                    first.ids,
                    self.ids,
                    first.engine,
                    now_ms,
                    taken_ids(picked(sel.subrange(0, i as int), count).len()),
                ),
                match last {
                    Some(n) => picked(sel.subrange(0, i as int), count).len() > 0 && picked(
                        sel.subrange(0, i as int),
                        count,
                    ).last() == n,
                    None => picked(sel.subrange(0, i as int), count).len() == 0,
                },
            decreases sel.len() - i,
        {
            let q = answer.selections[i];
            assert(sel[i as int].valid());
            let ghost front = picked(sel.subrange(0, i as int), count);
            let ghost upto = sel.subrange(0, i + 1);
            proof {
                assert(upto.drop_last() =~= sel.subrange(0, i as int));
                assert(upto.last() == q);
                assert(forall|k: int| 0 <= k < i ==> sel.subrange(0, i as int)[k] == sel[k]);
                lemma_picked(sel.subrange(0, i as int), count);
            }
            let end: u32 = if q.more {
                q.num + (10 - q.num % 10)
            } else {
                q.num + 1
            };
            let from: u32 = match last {
                Some(n) => if n >= q.num {
                    n + 1
                } else {
                    q.num
                },
                None => q.num,
            };
            let mut num: u32 = from;
            assert(front + numbers(from as int, num as int) =~= front);
            assert(picked(upto, count) == front + numbers(
                from as int,
                if end < count {
                    end as int
                } else {
                    count
                },
            ));
            while num < end
                invariant_except_break
                    self.wf(),
                    answer.wf(),
                    head.token == answer.token,
                    first == *old(self),
                    log == first.port.log@,
                    first.engine.tx_transfer(id).is_some(),
                    slot == first.engine.store.bodies->0.tx.slots@[id.at as int]->0,
                    body == slot.bytes@,
                    t == slot.transfer,
                    run == block_run(first, *answer, response@, slot, head.ty, head.mid.raw),
                    sel == answer.selections@,
                    i < sel.len(),
                    upto == sel.subrange(0, i + 1),
                    picked(upto, count) == front + numbers(
                        from as int,
                        if end < count {
                            end as int
                        } else {
                            count
                        },
                    ),
                    size == block_size(t.szx as int),
                    count == block_count(body.len() as int, size),
                    t.szx <= 6,
                    body.len() <= 0xfffff0,
                    end <= 0x100009,
                    selects_within(answer.selections@, body.len() as int, t.szx),
                    from <= num,
                    num <= end || num == from,
                    num <= count,
                    *self == (Core {
                        engine: self.engine,
                        port: self.port,
                        ids: self.ids,
                        ..first
                    }),
                    only_counted(first.engine, self.engine, log, self.port.log@),
                    served(first, *self, answer.dest),
                    blocks_sent::<T>(
                        log,
                        self.port.log@,
                        front + numbers(from as int, num as int),
                        run,
                    ),
                    ids_run(
                        first.ids,
                        self.ids,
                        first.engine,
                        now_ms,
                        taken_ids((front + numbers(from as int, num as int)).len()),
                    ),
                    match last {
                        Some(n) => {
                            let sent = front + numbers(from as int, num as int);
                            sent.len() > 0 && sent.last() == n
                        },
                        None => (front + numbers(from as int, num as int)).len() == 0,
                    },
                ensures
                    self.wf(),
                    *self == (Core {
                        engine: self.engine,
                        port: self.port,
                        ids: self.ids,
                        ..first
                    }),
                    only_counted(first.engine, self.engine, log, self.port.log@),
                    served(first, *self, answer.dest),
                    from <= num,
                    blocks_sent::<T>(
                        log,
                        self.port.log@,
                        front + numbers(from as int, num as int),
                        run,
                    ),
                    ids_run(
                        first.ids,
                        self.ids,
                        first.engine,
                        now_ms,
                        taken_ids((front + numbers(from as int, num as int)).len()),
                    ),
                    match last {
                        Some(n) => {
                            let sent = front + numbers(from as int, num as int);
                            sent.len() > 0 && sent.last() == n
                        },
                        None => (front + numbers(from as int, num as int)).len() == 0,
                    },
                    num <= count,
                    num == count || num >= end,
                    num <= end || num == from,
                decreases end - num,
            {
                if num == count_of(self, id) {
                    break;
                }
                proof {
                    lemma_in_body_count(body.len() as int, num as int, size);
                }
                let issued = match self.engine.block_at(id, num) {
                    Ok(issued) => issued,
                    Err(e) => return Err(Error::Block(e)),
                };
                let ghost done = front + numbers(from as int, num as int);
                let ghost place = done.len() as int;
                let ghost nums = picked(sel, count);
                let ghost before = *self;
                proof {
                    lemma_cuts(issued, id, body.len() as int, num, t.szx);
                    lemma_picked_prefix(sel, count, i + 1);
                    let so_far = picked(upto, count);
                    assert(so_far.subrange(0, place) =~= done);
                    assert(so_far[place] == num);
                    assert(nums.subrange(0, place) =~= so_far.subrange(0, place));
                    assert(nums[place] == so_far[place]);
                    lemma_run_mid(
                        first.ids,
                        self.ids,
                        first.engine,
                        now_ms,
                        taken_ids(place as nat),
                    );
                }
                let next = if last.is_none() {
                    head
                } else {
                    match self.ids.next_for(&self.engine, now_ms) {
                        Ok(mid) => Head { ty: Type::NonConfirmable, mid, token: answer.token },
                        Err(e) => {
                            proof {
                                assert(before.ids.refuses(self.ids, first.engine, now_ms, e));
                                assert(block_refused(
                                    first,
                                    *self,
                                    before.port.log@,
                                    run.message(place, num as int),
                                    answer.dest,
                                    place,
                                    now_ms,
                                    Error::<T::Error>::Identity(e),
                                ));
                                assert(blocks_stopped(
                                    first,
                                    *self,
                                    nums,
                                    run,
                                    now_ms,
                                    place,
                                    Error::<T::Error>::Identity(e),
                                ));
                            }
                            return Err(Error::Identity(e));
                        },
                    }
                };
                let ghost third = *self;
                proof {
                    if place > 0 {
                        lemma_run_longer(
                            first.ids,
                            before.ids,
                            third.ids,
                            first.engine,
                            before.engine,
                            now_ms,
                            (place - 1) as nat,
                        );
                    }
                }
                let r = self.send_issued(answer, response, next, issued, true, None, Ghost(t.szx));
                proof {
                    assert(served(first, third, answer.dest));
                    lemma_served_trans(first, third, *self, answer.dest);
                    assert((num as int) as u32 == num);
                    lemma_one_send(
                        first.engine,
                        third.engine,
                        self.engine,
                        third.port,
                        self.port,
                        run.message(place, num as int),
                        answer.dest,
                        r,
                    );
                    lemma_blocks_tallied::<T>(
                        first.engine.metrics,
                        log,
                        third.port.log@,
                        done,
                        run,
                        self.port.log@.last(),
                    );
                    assert(only_counted(first.engine, self.engine, log, self.port.log@));
                }
                if r.is_err() {
                    proof {
                        assert(block_refused(
                            first,
                            *self,
                            before.port.log@,
                            run.message(place, num as int),
                            answer.dest,
                            place,
                            now_ms,
                            r->Err_0,
                        ));
                        assert(blocks_stopped(
                            first,
                            *self,
                            nums,
                            run,
                            now_ms,
                            place,
                            r->Err_0,
                        ));
                    }
                    return r;
                }
                proof {
                    assert(sends(
                        third.port.io,
                        answer.dest,
                        wire(run.message(place, num as int)),
                        None,
                    ));
                    let x = Attempt {
                        dest: run.answer.dest,
                        bytes: wire(run.message(done.len() as int, num as int)),
                        ok: true,
                    };
                    assert(done.len() == place);
                    assert(sends(third.port.io, x.dest, x.bytes, None));
                    lemma_one_more_block::<T>(log, third.port.log@, done, run, num as int);
                    assert((front + numbers(from as int, num as int)).push(num as int) =~= front
                        + numbers(from as int, num + 1));
                }
                last = Some(num);
                num = num + 1;
            }
            proof {
                let stop = if end < count {
                    end as int
                } else {
                    count
                };
                assert(numbers(from as int, num as int) =~= numbers(from as int, stop));
                assert(picked(upto, count) == front + numbers(from as int, stop));
            }
            i = i + 1;
        }
        assert(sel.subrange(0, i as int) =~= sel);
        Ok(())
    }
}

/// What is picked for the first selections comes first.
proof fn lemma_picked_prefix(selections: Seq<BlockValue>, count: int, upto: int)
    requires
        0 <= upto <= selections.len(),
    ensures
        picked(selections.subrange(0, upto), count).len() <= picked(selections, count).len(),
        picked(selections, count).subrange(
            0,
            picked(selections.subrange(0, upto), count).len() as int,
        ) == picked(selections.subrange(0, upto), count),
    decreases selections.len() - upto,
{
    let part = picked(selections.subrange(0, upto), count);
    if upto == selections.len() {
        assert(selections.subrange(0, upto) =~= selections);
        assert(part.subrange(0, part.len() as int) =~= part);
    } else {
        lemma_picked_prefix(selections, count, upto + 1);
        let more = selections.subrange(0, upto + 1);
        assert(more.drop_last() =~= selections.subrange(0, upto));
        let next = picked(more, count);
        assert(next.subrange(0, part.len() as int) =~= part);
        let all = picked(selections, count);
        assert(all.subrange(0, part.len() as int) =~= all.subrange(0, next.len() as int).subrange(
            0,
            part.len() as int,
        ));
    }
}

/// How many blocks an outgoing body has.
fn count_of<T>(core: &Core<T>, id: SlotId) -> (n: u32)
    requires
        core.wf(),
        core.engine.tx_transfer(id).is_some(),
        core.engine.tx_body(id).len() <= 0xfffff0,
    ensures
        n == block_count(
            core.engine.tx_body(id).len() as int,
            block_size(core.engine.tx_transfer(id)->0.szx as int),
        ),
{
    proof {
        lemma_tx_body(core.engine, id);
    }
    let len: usize = match core.engine.tx_body_payload(id) {
        Some(p) => p.len(),
        None => 0,
    };
    let szx: u8 = match core.engine.tx_body_transfer(id) {
        Some(t) => t.szx,
        None => 0,
    };
    let n: usize = crate::storage::body::count_blocks(len, szx);
    proof {
        lemma_count_bound(len as int, szx);
    }
    n as u32
}

/// The size exponent that a requested block asks for.
pub open spec fn wanted_szx(block2: Option<BlockValue>, selections: Seq<BlockValue>) -> u8 {
    let wanted = if selections.len() > 0 {
        Some(selections[0])
    } else {
        block2
    };
    match wanted {
        Some(b) => if b.szx <= 6 {
            b.szx
        } else {
            6
        },
        None => 6,
    }
}

/// The size exponent that a requested block asks for.
pub fn szx_for(block2: Option<BlockValue>, q_block2: Option<BlockValue>) -> (szx: u8)
    requires
        block2 matches Some(b) ==> b.valid(),
        q_block2 matches Some(b) ==> b.valid(),
    ensures
        szx <= 6,
        szx == wanted_szx(
            block2,
            match q_block2 {
                Some(q) => seq![q],
                None => Seq::empty(),
            },
        ),
{
    let wanted = match q_block2 {
        Some(q) => Some(q),
        None => block2,
    };
    match wanted {
        Some(block) => if block.is_bert() {
            6
        } else {
            block.szx
        },
        None => 6,
    }
}

/// Does the request name single blocks, and not the body from its start?
pub open spec fn selective(selections: Seq<BlockValue>) -> bool {
    selections.len() > 1 || (selections.len() == 1 && selections[0].num != 0)
}

/// Why a body cannot start to go out.
pub open spec fn start_fault(
    e: crate::storage::engine::Engine,
    r: ResponseView,
    q: bool,
) -> Option<BlockTransferError> {
    if q && r.etag.is_none() {
        Some(BlockTransferError::MissingIdentity)
    } else {
        match e.store.bodies {
            None => Some(BlockTransferError::NoBodyPools),
            Some(b) => if r.payload.len() > b.tx.slot_bytes || r.payload.len() > 0xfffff0 {
                Some(BlockTransferError::Overflow)
            } else if crate::storage::table::free_row(b.tx.slots@).is_none() {
                Some(BlockTransferError::Saturated)
            } else {
                None
            },
        }
    }
}

/// A body starts to go out, from the first free slot; nothing else changed.
pub open spec fn body_begun<T>(
    a: Core<T>,
    b: Core<T>,
    id: SlotId,
    role: BlockRole,
    key: BlockKeyView,
    payload: Seq<u8>,
    szx: u8,
) -> bool {
    let slot = b.engine.store.bodies->0.tx.slots@[id.at as int];
    &&& b == (Core { engine: b.engine, ..a })
    &&& a.engine.store.bodies matches Some(p) && free_row(p.tx.slots@) == Some(id.at as int)
    &&& body_set(a.engine, b.engine, id, slot)
    &&& slot matches Some(s) && s.bytes@ == payload && s.transfer.key@ == key && s.transfer
        == BlockTransfer::fresh(role, s.transfer.key, szx, None)
}

/// An outgoing body is let go; nothing else changed.
pub open spec fn body_ended<T>(a: Core<T>, b: Core<T>, id: SlotId) -> bool {
    &&& b == (Core { engine: b.engine, ..a })
    &&& body_set(a.engine, b.engine, id, None)
}

/// The role of a response body: windowed if the request asks so.
pub open spec fn response_role(selections: Seq<BlockValue>) -> BlockRole {
    if selections.len() > 0 {
        BlockRole::OutgoingQBlock2
    } else {
        BlockRole::OutgoingBlock2
    }
}

/// How a response body is found; a windowed one also by its ETag.
pub open spec fn outgoing_key(answer: Answer, r: ResponseView) -> BlockKeyView {
    BlockKeyView {
        token: answer.token@,
        peer: answer.dest,
        identity: if answer.selections@.len() > 0 {
            r.etag
        } else {
            None
        },
    }
}

/// What sending the first blocks of a body does.
pub open spec fn body_issued<T: DatagramIo>(
    a: Core<T>,
    b: Core<T>,
    answer: Answer,
    r: ResponseView,
    ty: Type,
    mid: u16,
    id: SlotId,
    now_ms: u64,
    res: Result<(), Error<T::Error>>,
) -> bool {
    if selective(answer.selections@) {
        selection_issued(a, b, answer, r, ty, mid, id, now_ms, res)
    } else if answer.selections@.len() > 0 {
        window_issued(a, b, answer, r, ty, mid, id, now_ms, res)
    } else {
        classic_issued(a, b, answer, r, ty, mid, id, None, res)
    }
}

/// What answering with the start of a body does.
///
/// When it fails, and after single blocks were sent, nothing of the body is
/// kept.
pub open spec fn started<T: DatagramIo>(
    a: Core<T>,
    b: Core<T>,
    answer: Answer,
    r: ResponseView,
    ty: Type,
    mid: u16,
    now_ms: u64,
    res: Result<(), Error<T::Error>>,
) -> bool {
    match start_fault(a.engine, r, answer.selections@.len() > 0) {
        Some(BlockTransferError::NoBodyPools) => res == Err::<(), Error<T::Error>>(
            Error::Message(SlotMessageError::Encode(EncodeError::BufferTooSmall)),
        ) && b == a,
        Some(e) => res == Err::<(), Error<T::Error>>(Error::Block(e)) && b == a,
        None => exists|c: Core<T>, d: Core<T>, id: SlotId|
            {
                &&& #[trigger] body_begun(
                    a,
                    c,
                    id,
                    response_role(answer.selections@),
                    outgoing_key(answer, r),
                    r.payload,
                    wanted_szx(answer.block2, answer.selections@),
                )
                &&& #[trigger] body_issued(c, d, answer, r, ty, mid, id, now_ms, res)
                &&& if res.is_err() || selective(answer.selections@) {
                    body_ended(d, b, id)
                } else {
                    b == d
                }
            },
    }
}

impl<T: DatagramIo> Core<T> {
    /// Answer with the start of a body, or with the blocks that the request
    /// names.
    pub fn start_outgoing(
        &mut self,
        answer: &Answer,
        response: &Response<'_>,
        head: Head,
        now_ms: u64,
    ) -> (r: Result<(), Error<T::Error>>)
        requires
            old(self).wf(),
            answer.wf(),
            head.token == answer.token,
        ensures
            final(self).wf(),
            served(*old(self), *final(self), answer.dest),
            started(
                *old(self),
                *final(self),
                *answer,
                response@,
                head.ty,
                head.mid.raw,
                now_ms,
                r,
            ),
    {
        let ghost first = *self;
        proof {
            super::reactor::lemma_calm_same(first.engine, first.engine);
            super::reactor::lemma_sends_one(first.port.log@, first.port.log@, answer.dest);
        }
        let q: Option<BlockValue> = if answer.selections.len() > 0 {
            assert(answer.selections@[0].valid());
            Some(answer.selections[0])
        } else {
            None
        };
        let szx: u8 = szx_for(answer.block2, q);
        let plain = BlockKey::new(answer.token, answer.dest);
        let started = match q {
            Some(_) => {
                let etag = match response.etag_bytes() {
                    Some(etag) => etag,
                    None => return Err(Error::Block(BlockTransferError::MissingIdentity)),
                };
                let tag = match BodyTag::new(etag) {
                    Ok(tag) => tag,
                    Err(e) => return Err(Error::Block(BlockTransferError::Value(e))),
                };
                self.engine.start_q_block2(plain.with_identity(tag), response.payload(), szx)
            },
            None => self.engine.start_body(
                BlockRole::OutgoingBlock2,
                plain,
                response.payload(),
                szx,
            ),
        };
        let ghost second = *self;
        let id = match started {
            Ok(id) => id,
            Err(BlockTransferError::NoBodyPools) => return Err(
                Error::Message(SlotMessageError::Encode(EncodeError::BufferTooSmall)),
            ),
            Err(e) => return Err(Error::Block(e)),
        };
        proof {
            lemma_bodies_served(first, second, answer.dest);
            lemma_pins_stay(first.engine, second.engine);
            assert(body_begun(
                first,
                second,
                id,
                response_role(answer.selections@),
                outgoing_key(*answer, response@),
                response@.payload,
                wanted_szx(answer.block2, answer.selections@),
            ));
        }
        let named: bool = match q {
            Some(q) => answer.selections.len() > 1 || q.num != 0,
            None => false,
        };
        let r = if named {
            self.issue_q_selection(answer, response, head, id, now_ms)
        } else if q.is_some() {
            self.issue_q_window(answer, response, head, id, now_ms)
        } else {
            self.issue_classic(answer, response, head, id, None)
        };
        let ghost third = *self;
        proof {
            lemma_served_trans(first, second, third, answer.dest);
            assert(body_issued(
                second,
                third,
                *answer,
                response@,
                head.ty,
                head.mid.raw,
                id,
                now_ms,
                r,
            ));
        }
        if r.is_err() || named {
            self.engine.release_tx_body(id);
            proof {
                lemma_bodies_served(third, *self, answer.dest);
                lemma_served_trans(first, third, *self, answer.dest);
                lemma_pins_stay(third.engine, self.engine);
                let slots = third.engine.store.bodies->0.tx.slots@;
                if third.engine.tx_transfer(id).is_none() {
                    assert(slots.update(id.at as int, None) =~= slots);
                }
                assert(body_ended(third, *self, id));
            }
        }
        r
    }
}

/// Only one outgoing body changed.
pub open spec fn only_body(
    a: crate::storage::engine::Engine,
    b: crate::storage::engine::Engine,
    id: SlotId,
) -> bool {
    a.store.bodies matches Some(p) ==> b.store.bodies.is_some() && b.store.bodies->0.tx.slots@
        =~= p.tx.slots@.update(id.at as int, b.store.bodies->0.tx.slots@[id.at as int])
}

} // verus!
