//! Operations on body pools.
use vstd::prelude::*;

use super::endpoint::{BlockKey, SlotId};
use super::table::{first_free, free_row};
use super::transfer::{
    agreed_total, all_in, block_count, block_of, body_ok, cuts, find_body, in_body, judge_ordered,
    judge_windowed, lemma_offset_bound, ordered_verdict, windowed_next, windowed_verdict, BlockRole,
    BlockTransfer, BodyPool, BodySlot, OutgoingBlock, Window,
};
use crate::bytes::{append, to_vec};
use crate::error::BlockTransferError;
use crate::message::value::block_size;
use crate::message::{BlockValue, QBlockTransmission};

verus! {

/// Where a block that arrived was put.
#[derive(Clone, Copy, Debug, PartialEq, Eq, Structural)]
pub struct BlockProgress {
    /// The body slot.
    pub id: SlotId,
    /// Is the body whole?
    pub done: bool,
}

impl BlockProgress {
    /// The body slot.
    pub fn id(&self) -> (id: SlotId)
        ensures
            id == self.id,
    {
        self.id
    }

    /// Is the body whole?
    pub fn complete(&self) -> (b: bool)
        ensures
            b == self.done,
    {
        self.done
    }
}

/// Blocks to ask for again.
#[derive(Clone, Debug)]
pub struct QBlockRecover {
    /// Which way the body goes.
    pub role: BlockRole,
    /// What the transfer is found by.
    pub key: BlockKey,
    /// Size exponent of every block.
    pub szx: u8,
    /// The missing blocks, ascending.
    pub missing: Vec<u32>,
}

/// `bytes` with `piece` written over it at `from`.
pub open spec fn overlay(bytes: Seq<u8>, from: int, piece: Seq<u8>) -> Seq<u8> {
    Seq::new(
        bytes.len(),
        |i: int|
            if from <= i < from + piece.len() {
                piece[i - from]
            } else {
                bytes[i]
            },
    )
}

/// `n` zero bytes.
pub open spec fn zero_bytes(n: nat) -> Seq<u8> {
    Seq::new(n, |i: int| 0u8)
}

/// The ordered transfer that a block belongs to: the one under way, or a new one.
pub open spec fn ordered_state(
    pool: BodyPool,
    role: BlockRole,
    key: BlockKey,
    block: BlockValue,
    hint: Option<u32>,
) -> (BlockTransfer, Seq<u8>) {
    match find_body(pool.slots@, role, key@) {
        Some(i) => (pool.slots@[i]->0.transfer, pool.slots@[i]->0.bytes@),
        None => (BlockTransfer::fresh(role, key, block.szx, hint), Seq::empty()),
    }
}

/// The windowed transfer that a block belongs to: the one under way, or a new one.
pub open spec fn windowed_state(
    pool: BodyPool,
    role: BlockRole,
    key: BlockKey,
    block: BlockValue,
    hint: Option<u32>,
) -> (BlockTransfer, Seq<u8>) {
    match find_body(pool.slots@, role, key@) {
        Some(i) => (pool.slots@[i]->0.transfer, pool.slots@[i]->0.bytes@),
        None => (
            BlockTransfer::fresh(role, key, block.szx, hint),
            zero_bytes(match hint {
                Some(n) => n as nat,
                None => 0,
            }),
        ),
    }
}

/// The slot that a block's transfer has or gets.
pub open spec fn body_place(pool: BodyPool, role: BlockRole, key: BlockKey) -> Option<int> {
    match find_body(pool.slots@, role, key@) {
        Some(i) => Some(i),
        None => free_row(pool.slots@),
    }
}

/// The transfer after its next block in order.
pub open spec fn ordered_next(t: BlockTransfer, hint: Option<u32>, done: bool) -> BlockTransfer {
    BlockTransfer {
        next_num: (t.next_num + 1) as u32,
        complete: done,
        total: match agreed_total(t.total, hint) {
            Ok(total) => total,
            Err(_) => t.total,
        },
        ..t
    }
}

/// The transfer after a block of its window.
pub open spec fn windowed_after(t: BlockTransfer, num: u32, total: u32) -> BlockTransfer {
    let next = windowed_next(t, num);
    BlockTransfer {
        complete: all_in(next, block_count(total as int, block_size(t.szx as int))),
        ..next
    }
}

fn zeros(n: usize) -> (v: Vec<u8>)
    ensures
        v@ == zero_bytes(n as nat),
{
    let mut v: Vec<u8> = Vec::new();
    let mut i: usize = 0;
    while i < n
        invariant
            i <= n,
            v@.len() == i,
            forall|k: int| 0 <= k < i ==> v@[k] == 0,
        decreases n - i,
    {
        v.push(0);
        i = i + 1;
    }
    assert(v@ =~= zero_bytes(n as nat));
    v
}

fn write_at(bytes: Vec<u8>, from: usize, piece: &[u8]) -> (out: Vec<u8>)
    requires
        from + piece@.len() <= bytes@.len(),
    ensures
        out@ == overlay(bytes@, from as int, piece@),
{
    let ghost before = bytes@;
    let mut out = bytes;
    let whole: usize = out.len();
    let mut i: usize = 0;
    while i < piece.len()
        invariant
            i <= piece@.len(),
            from + piece@.len() <= before.len(),
            whole == before.len(),
            out@.len() == before.len(),
            out@ =~= overlay(before, from as int, piece@.subrange(0, i as int)),
        decreases piece@.len() - i,
    {
        out.set(from + i, piece[i]);
        i = i + 1;
    }
    assert(piece@.subrange(0, i as int) =~= piece@);
    out
}

/// Are all blocks of a body in?
pub fn is_all_in(t: &BlockTransfer, count: usize) -> (b: bool)
    requires
        t.window_base <= 0x10000a,
    ensures
        b == all_in(*t, count as int),
{
    let base: usize = t.window_base as usize;
    if count <= base {
        return true;
    }
    let mut i: usize = 0;
    while i < 10 && base + i < count
        invariant
            i <= 10,
            base == t.window_base,
            base <= 0x10000a,
            base < count,
            forall|k: int| 0 <= k < base + i ==> #[trigger] t.has(k),
        decreases 10 - i,
    {
        assert(t.has(base + i) == t.window.has(i as int));
        if !t.window.get(i) {
            return false;
        }
        i = i + 1;
    }
    if i == 10 && base + 10 < count {
        assert(!t.has(base + 10));
        return false;
    }
    true
}

proof fn lemma_next_offset(num: int, size: int)
    ensures
        (num + 1) * size == num * size + size,
{
    assert((num + 1) * size == num * size + size) by (nonlinear_arith);
}

/// Number of blocks that a body takes.
pub fn count_blocks(len: usize, szx: u8) -> (n: usize)
    requires
        len <= u32::MAX,
        szx <= 6,
    ensures
        n == block_count(len as int, block_size(szx as int)),
{
    let size: usize = BlockValue { num: 0, more: false, szx }.size() as usize;
    if len == 0 {
        1
    } else {
        let whole: usize = len / size;
        let rest: usize = len % size;
        proof {
            let l = len as int;
            let s = size as int;
            assert(l == s * (l / s) + l % s) by (nonlinear_arith)
                requires
                    s > 0,
            ;
            if rest == 0 {
                assert((l + s - 1) / s == l / s) by (nonlinear_arith)
                    requires
                        s > 0,
                        l == s * (l / s),
                ;
            } else {
                assert((l + s - 1) / s == l / s + 1) by (nonlinear_arith)
                    requires
                        s > 0,
                        l == s * (l / s) + l % s,
                        1 <= l % s < s,
                ;
            }
        }
        if rest == 0 {
            whole
        } else {
            assert(whole <= len);
            whole + 1
        }
    }
}

/// Which block numbers of the current window are still missing, ascending.
pub open spec fn missing_of(t: BlockTransfer, count: int, upto: int) -> Seq<u32>
    decreases upto,
{
    if upto <= 0 {
        Seq::empty()
    } else {
        let front = missing_of(t, count, upto - 1);
        let num = t.window_base + upto - 1;
        if num < count && !t.has(num) {
            front.push(num as u32)
        } else {
            front
        }
    }
}

fn list_missing(t: &BlockTransfer, count: usize) -> (v: Vec<u32>)
    requires
        t.window_base <= 0x10000a,
    ensures
        v@ == missing_of(*t, count as int, 10),
{
    let mut v: Vec<u32> = Vec::new();
    let mut i: usize = 0;
    while i < 10
        invariant
            i <= 10,
            t.window_base <= 0x10000a,
            v@ == missing_of(*t, count as int, i as int),
        decreases 10 - i,
    {
        let num: u32 = t.window_base + i as u32;
        assert(t.has(num as int) == t.window.has(i as int));
        if (num as usize) < count && !t.window.get(i) {
            v.push(num);
        }
        i = i + 1;
    }
    v
}

/// Is the slot a windowed body whose missing blocks are asked for again?
pub open spec fn asks_again(slot: Option<BodySlot>, q: QBlockRecover, now_ms: u64) -> bool {
    &&& BodyPool::recovering(slot)
    &&& slot->0.transfer.role == q.role
    &&& slot->0.transfer.key == q.key
    &&& slot->0.transfer.szx == q.szx
    &&& q.szx <= 6
    &&& slot->0.transfer.due_ms matches Some(due) && due <= now_ms
    &&& slot->0.transfer.attempts < QBlockTransmission::NON_MAX_RETRANSMIT
    &&& q.missing@ == missing_of(
        slot->0.transfer,
        block_count(slot->0.bytes@.len() as int, block_size(q.szx as int)),
        10,
    )
}

/// The slot, its wait for missing blocks running if it is one that waits.
pub open spec fn armed(slot: Option<BodySlot>, now_ms: u64) -> Option<BodySlot> {
    if BodyPool::recovering(slot) && slot->0.transfer.due_ms.is_none() {
        Some(
            BodySlot {
                transfer: BlockTransfer {
                    due_ms: Some(BodyPool::recover_at(now_ms)),
                    ..slot->0.transfer
                },
                bytes: slot->0.bytes,
            },
        )
    } else {
        slot
    }
}

/// Is the wait of a slot for missing blocks over?
pub open spec fn wait_over(slot: Option<BodySlot>, now_ms: u64) -> bool {
    &&& BodyPool::recovering(slot)
    &&& now_ms < u64::MAX
    &&& slot->0.transfer.due_ms matches Some(due) && due <= now_ms
}

/// Is this the first slot whose wait for missing blocks is over?
pub open spec fn first_over(slots: Seq<Option<BodySlot>>, now_ms: u64, at: int) -> bool {
    &&& 0 <= at < slots.len()
    &&& wait_over(slots[at], now_ms)
    &&& forall|k: int| 0 <= k < at ==> !wait_over(#[trigger] slots[k], now_ms)
}

/// The slots, every wait for missing blocks running.
pub open spec fn all_armed(slots: Seq<Option<BodySlot>>, now_ms: u64) -> Seq<Option<BodySlot>> {
    Seq::new(slots.len(), |k: int| armed(slots[k], now_ms))
}

/// What [`BodyPool::recover`] does.
pub open spec fn recovers(
    slots: Seq<Option<BodySlot>>,
    then: Seq<Option<BodySlot>>,
    now_ms: u64,
    ask: Option<QBlockRecover>,
    gone: Option<(BlockRole, BlockKey)>,
) -> bool {
    if exists|i: int| 0 <= i < slots.len() && wait_over(#[trigger] slots[i], now_ms) {
        exists|i: int|
            {
                let t = slots[i]->0.transfer;
                &&& #[trigger] first_over(slots, now_ms, i)
                &&& if t.attempts >= QBlockTransmission::NON_MAX_RETRANSMIT {
                    &&& ask.is_none()
                    &&& gone == Some((t.role, t.key))
                    &&& then == all_armed(slots, now_ms).update(i, None)
                } else {
                    &&& ask matches Some(q) && asks_again(slots[i], q, now_ms)
                    &&& gone.is_none()
                    &&& then == all_armed(slots, now_ms).update(
                        i,
                        Some(
                            BodySlot {
                                transfer: BlockTransfer {
                                    due_ms: Some(BodyPool::recover_at(now_ms)),
                                    attempts: (t.attempts + 1) as u8,
                                    ..t
                                },
                                bytes: slots[i]->0.bytes,
                            },
                        ),
                    )
                }
            }
    } else {
        ask.is_none() && gone.is_none() && then == all_armed(slots, now_ms)
    }
}

/// What [`BodyPool::accept_ordered`] does.
pub open spec fn accepts_ordered(
    before: BodyPool,
    after: BodyPool,
    role: BlockRole,
    key: BlockKey,
    block: BlockValue,
    payload: Seq<u8>,
    hint: Option<u32>,
    r: Result<BlockProgress, BlockTransferError>,
) -> bool {
    let (t, filled) = ordered_state(before, role, key, block, hint);
    &&& r.is_err() ==> after == before
    &&& match ordered_verdict(
        t,
        filled.len() as int,
        before.slot_bytes as int,
        block,
        payload.len() as int,
        hint,
    ) {
        Err(e) => r == Err::<BlockProgress, BlockTransferError>(e),
        Ok(done) => match body_place(before, role, key) {
            None => r == Err::<BlockProgress, BlockTransferError>(BlockTransferError::Saturated),
            Some(at) => {
                &&& r == Ok::<BlockProgress, BlockTransferError>(
                    BlockProgress { id: SlotId { at: at as usize }, done },
                )
                &&& 0 <= at < before.slots@.len()
                &&& at <= usize::MAX
                &&& after.slots@[at] matches Some(s) && s.bytes@ == filled + payload && s.transfer
                    == ordered_next(t, hint, done)
                &&& after.slots@ == before.slots@.update(at, after.slots@[at])
            },
        },
    }
}

/// What [`BodyPool::accept_windowed`] does.
pub open spec fn accepts_windowed(
    before: BodyPool,
    after: BodyPool,
    role: BlockRole,
    key: BlockKey,
    block: BlockValue,
    payload: Seq<u8>,
    hint: Option<u32>,
    r: Result<BlockProgress, BlockTransferError>,
) -> bool {
    let (t, filled) = windowed_state(before, role, key, block, hint);
    &&& r.is_err() ==> after == before
    &&& match windowed_verdict(t, before.slot_bytes as int, block, payload.len() as int, hint) {
        Err(e) => r == Err::<BlockProgress, BlockTransferError>(e),
        Ok(_) => match body_place(before, role, key) {
            None => r == Err::<BlockProgress, BlockTransferError>(BlockTransferError::Saturated),
            Some(at) => {
                let next = windowed_after(t, block.num, hint->0);
                &&& r == Ok::<BlockProgress, BlockTransferError>(
                    BlockProgress { id: SlotId { at: at as usize }, done: next.complete },
                )
                &&& 0 <= at < before.slots@.len()
                &&& at <= usize::MAX
                &&& after.slots@[at] matches Some(s) && s.bytes@ == overlay(
                    filled,
                    block.num * block_size(block.szx as int),
                    payload,
                ) && s.transfer == next
                &&& after.slots@ == before.slots@.update(at, after.slots@[at])
            },
        },
    }
}

/// What [`BodyPool::start`] does.
pub open spec fn starts_body(
    before: BodyPool,
    after: BodyPool,
    role: BlockRole,
    key: BlockKey,
    payload: Seq<u8>,
    szx: u8,
    r: Result<SlotId, BlockTransferError>,
) -> bool {
    &&& r.is_err() ==> after == before
    &&& if payload.len() > before.slot_bytes || payload.len() > 0xfffff0 {
        r == Err::<SlotId, BlockTransferError>(BlockTransferError::Overflow)
    } else {
        match free_row(before.slots@) {
            None => r == Err::<SlotId, BlockTransferError>(BlockTransferError::Saturated),
            Some(at) => {
                &&& r == Ok::<SlotId, BlockTransferError>(SlotId { at: at as usize })
                &&& 0 <= at < before.slots@.len()
                &&& at <= usize::MAX
                &&& after.slots@[at] matches Some(s) && s.bytes@ == payload && s.transfer
                    == BlockTransfer::fresh(role, key, szx, None)
                &&& after.slots@ == before.slots@.update(at, after.slots@[at])
                &&& before.slots@[at].is_none()
            },
        }
    }
}

/// What cutting a block of the given size out of a body gives.
pub open spec fn cuts_sized(
    pool: BodyPool,
    id: SlotId,
    num: u32,
    szx: u8,
    r: Result<OutgoingBlock, BlockTransferError>,
) -> bool {
    if id.at >= pool.slots@.len() || pool.slots@[id.at as int].is_none() {
        r == Err::<OutgoingBlock, BlockTransferError>(BlockTransferError::NoTransfer)
    } else {
        let s = pool.slots@[id.at as int]->0;
        if num >= 0x100000 || !in_body(s.bytes@.len() as int, num as int, block_size(szx as int)) {
            r == Err::<OutgoingBlock, BlockTransferError>(BlockTransferError::Gap)
        } else {
            r matches Ok(b) && cuts(b, id, s.bytes@.len() as int, num, szx)
        }
    }
}

/// What cutting a block out of a body gives.
pub open spec fn cuts_body(
    pool: BodyPool,
    id: SlotId,
    num: u32,
    r: Result<OutgoingBlock, BlockTransferError>,
) -> bool {
    cuts_sized(pool, id, num, pool.slots@[id.at as int]->0.transfer.szx, r)
}

/// What [`BodyPool::next`] does.
pub open spec fn issues_next(
    before: BodyPool,
    after: BodyPool,
    id: SlotId,
    r: Result<OutgoingBlock, BlockTransferError>,
) -> bool {
    &&& r.is_err() ==> after == before
    &&& if !before.sends(id) {
        r == Err::<OutgoingBlock, BlockTransferError>(BlockTransferError::NoTransfer)
    } else {
        let s = before.slots@[id.at as int]->0;
        let t = s.transfer;
        let size = block_size(t.szx as int);
        let windowed = t.role == BlockRole::OutgoingQBlock1 || t.role == BlockRole::OutgoingQBlock2;
        if t.complete {
            r == Err::<OutgoingBlock, BlockTransferError>(BlockTransferError::AlreadyComplete)
        } else if windowed && t.next_num >= t.window_base + 10 {
            r == Err::<OutgoingBlock, BlockTransferError>(BlockTransferError::OutsideWindow)
        } else if t.next_num >= 0x100000 || !in_body(
            s.bytes@.len() as int,
            t.next_num as int,
            size,
        ) {
            r == Err::<OutgoingBlock, BlockTransferError>(BlockTransferError::Gap)
        } else {
            &&& r matches Ok(b) && cuts(b, id, s.bytes@.len() as int, t.next_num, t.szx)
                && after.slots@ == before.slots@.update(
                id.at as int,
                Some(
                    BodySlot {
                        transfer: BlockTransfer {
                            next_num: (t.next_num + 1) as u32,
                            complete: !b.block.more,
                            ..t
                        },
                        bytes: s.bytes,
                    },
                ),
            )
        }
    }
}

/// What [`BodyPool::advance`] does.
pub open spec fn advances_window(
    before: BodyPool,
    after: BodyPool,
    id: SlotId,
    base: u32,
    r: Result<(), BlockTransferError>,
) -> bool {
    &&& r.is_err() ==> after == before
    &&& if !before.sends(id) {
        r == Err::<(), BlockTransferError>(BlockTransferError::NoTransfer)
    } else {
        let s = before.slots@[id.at as int]->0;
        let t = s.transfer;
        if base > t.next_num {
            r == Err::<(), BlockTransferError>(BlockTransferError::OutsideWindow)
        } else {
            r.is_ok() && after.slots@ == before.slots@.update(
                id.at as int,
                Some(
                    BodySlot {
                        transfer: BlockTransfer {
                            window_base: if base > t.window_base {
                                base
                            } else {
                                t.window_base
                            },
                            ..t
                        },
                        bytes: s.bytes,
                    },
                ),
            )
        }
    }
}

impl BodyPool {
    /// Take in a block of an ordered transfer.
    pub fn accept_ordered(
        &mut self,
        role: BlockRole,
        key: &BlockKey,
        block: BlockValue,
        payload: &[u8],
        hint: Option<u32>,
    ) -> (r: Result<BlockProgress, BlockTransferError>)
        requires
            old(self).wf(),
            block.valid(),
            role == BlockRole::IncomingBlock1 || role == BlockRole::IncomingBlock2,
        ensures
            final(self).wf(),
            final(self).slot_bytes == old(self).slot_bytes,
            final(self).slots@.len() == old(self).slots@.len(),
            accepts_ordered(*old(self), *final(self), role, *key, block, payload@, hint, r),
    {
        let found = self.find(role, key);
        let ghost before = *self;
        let (t, filled): (BlockTransfer, usize) = match found {
            Some(at) => match &self.slots[at] {
                Some(slot) => (slot.transfer, slot.bytes.len()),
                None => return Err(BlockTransferError::NoTransfer),
            },
            None => (BlockTransfer::start(role, *key, block.szx, hint), 0),
        };
        let done: bool = match judge_ordered(
            &t,
            filled,
            self.slot_bytes,
            block,
            payload.len(),
            hint,
        ) {
            Ok(done) => done,
            Err(e) => return Err(e),
        };
        let at: usize = match found {
            Some(at) => at,
            None => match first_free(&self.slots) {
                Some(at) => at,
                None => return Err(BlockTransferError::Saturated),
            },
        };
        let mut bytes: Vec<u8> = match self.slots[at].take() {
            Some(slot) => slot.bytes,
            None => Vec::new(),
        };
        append(&mut bytes, payload);
        let total: Option<u32> = match t.total {
            Some(n) => Some(n),
            None => hint,
        };
        let next = BlockTransfer {
            role: t.role,
            key: t.key,
            szx: t.szx,
            next_num: t.next_num + 1,
            window_base: t.window_base,
            window: t.window,
            total,
            complete: done,
            due_ms: t.due_ms,
            attempts: t.attempts,
        };
        proof {
            lemma_next_offset(t.next_num as int, block_size(t.szx as int));
            let size = block_size(t.szx as int);
            assert(0 * size == 0) by (nonlinear_arith);
        }
        let slot = BodySlot { transfer: next, bytes };
        assert(next == ordered_next(t, hint, done));
        assert(body_ok(slot, self.slot_bytes as int));
        self.slots.set(at, Some(slot));
        assert(self.slots@ =~= before.slots@.update(at as int, Some(slot)));
        Ok(BlockProgress { id: SlotId { at }, done })
    }

    /// Take in a block of a windowed transfer.
    pub fn accept_windowed(
        &mut self,
        role: BlockRole,
        key: &BlockKey,
        block: BlockValue,
        payload: &[u8],
        hint: Option<u32>,
    ) -> (r: Result<BlockProgress, BlockTransferError>)
        requires
            old(self).wf(),
            block.valid(),
            role == BlockRole::IncomingQBlock1 || role == BlockRole::IncomingQBlock2,
        ensures
            final(self).wf(),
            final(self).slot_bytes == old(self).slot_bytes,
            final(self).slots@.len() == old(self).slots@.len(),
            accepts_windowed(*old(self), *final(self), role, *key, block, payload@, hint, r),
    {
        let found = self.find(role, key);
        let ghost before = *self;
        let t: BlockTransfer = match found {
            Some(at) => match &self.slots[at] {
                Some(slot) => slot.transfer,
                None => return Err(BlockTransferError::NoTransfer),
            },
            None => BlockTransfer::start(role, *key, block.szx, hint),
        };
        if let Err(e) = judge_windowed(&t, self.slot_bytes, block, payload.len(), hint) {
            return Err(e);
        }
        let total: u32 = match hint {
            Some(n) => n,
            None => return Err(BlockTransferError::LengthInconsistent),
        };
        let at: usize = match found {
            Some(at) => at,
            None => match first_free(&self.slots) {
                Some(at) => at,
                None => return Err(BlockTransferError::Saturated),
            },
        };
        let bytes: Vec<u8> = match self.slots[at].take() {
            Some(slot) => slot.bytes,
            None => zeros(total as usize),
        };
        proof {
            lemma_offset_bound(block.num as int, block_size(block.szx as int));
        }
        let from: usize = block.num as usize * block.size() as usize;
        let bytes = write_at(bytes, from, payload);
        let marked: Window = t.window.mark((block.num - t.window_base) as usize);
        let moves: bool = marked.is_full();
        let mut next = t;
        if moves {
            next.window_base = t.window_base + 10;
            next.window = Window::empty();
        } else {
            next.window = marked;
        }
        assert(next == windowed_next(t, block.num));
        let count: usize = count_blocks(total as usize, t.szx);
        next.complete = is_all_in(&next, count);
        proof {
            assert(all_in(next, count as int) == all_in(
                windowed_next(t, block.num),
                count as int,
            )) by {
                let plain = windowed_next(t, block.num);
                assert(forall|k: int| #[trigger] next.has(k) == plain.has(k));
                if all_in(plain, count as int) {
                    assert(forall|k: int| 0 <= k < count ==> #[trigger] next.has(k));
                }
                if all_in(next, count as int) {
                    assert forall|k: int| 0 <= k < count implies #[trigger] plain.has(k) by {
                        assert(next.has(k));
                    }
                }
            }
        }
        let done: bool = next.complete;
        let slot = BodySlot { transfer: next, bytes };
        assert(body_ok(slot, self.slot_bytes as int));
        self.slots.set(at, Some(slot));
        assert(self.slots@ =~= before.slots@.update(at as int, Some(slot)));
        Ok(BlockProgress { id: SlotId { at }, done })
    }

    /// Start to send a body.
    pub fn start(
        &mut self,
        role: BlockRole,
        key: BlockKey,
        payload: &[u8],
        szx: u8,
    ) -> (r: Result<SlotId, BlockTransferError>)
        requires
            old(self).wf(),
            szx <= 6,
            role == BlockRole::OutgoingBlock1 || role == BlockRole::OutgoingBlock2 || role
                == BlockRole::OutgoingQBlock1 || role == BlockRole::OutgoingQBlock2,
        ensures
            final(self).wf(),
            final(self).slot_bytes == old(self).slot_bytes,
            final(self).slots@.len() == old(self).slots@.len(),
            starts_body(*old(self), *final(self), role, key, payload@, szx, r),
    {
        if payload.len() > self.slot_bytes || payload.len() > 0xfffff0 {
            return Err(BlockTransferError::Overflow);
        }
        match first_free(&self.slots) {
            None => Err(BlockTransferError::Saturated),
            Some(at) => {
                let ghost before = self.slots@;
                let slot = BodySlot {
                    transfer: BlockTransfer::start(role, key, szx, None),
                    bytes: to_vec(payload),
                };
                self.slots.set(at, Some(slot));
                assert(self.slots@ =~= before.update(at as int, Some(slot)));
                Ok(SlotId { at })
            },
        }
    }

    /// Cut a block of any size out of a body.
    pub fn cut_sized(&self, id: SlotId, num: u32, szx: u8) -> (r: Result<
        OutgoingBlock,
        BlockTransferError,
    >)
        requires
            self.wf(),
            szx <= 6,
        ensures
            cuts_sized(*self, id, num, szx, r),
    {
        if id.at >= self.slots.len() {
            return Err(BlockTransferError::NoTransfer);
        }
        match &self.slots[id.at] {
            None => Err(BlockTransferError::NoTransfer),
            Some(slot) => {
                assert(body_ok(*slot, self.slot_bytes as int));
                proof {
                    reveal(cuts);
                    reveal(in_body);
                }
                if num >= 0x100000 {
                    return Err(BlockTransferError::Gap);
                }
                let whole: usize = slot.bytes.len();
                let size: usize = BlockValue { num, more: false, szx }.size() as usize;
                proof {
                    lemma_offset_bound(num as int, block_size(szx as int));
                }
                let from: usize = num as usize * size;
                if from >= whole && num != 0 {
                    return Err(BlockTransferError::Gap);
                }
                let more: bool = from < whole && whole - from > size;
                let len: usize = if more {
                    size
                } else {
                    whole - from
                };
                Ok(
                    OutgoingBlock {
                        id,
                        block: BlockValue { num, more, szx },
                        offset: from,
                        len,
                    },
                )
            },
        }
    }

    /// Cut a block out of a body.
    pub fn cut(&self, id: SlotId, num: u32) -> (r: Result<OutgoingBlock, BlockTransferError>)
        requires
            self.wf(),
        ensures
            cuts_body(*self, id, num, r),
    {
        match self.transfer(id) {
            Some(t) => {
                assert(body_ok(self.slots@[id.at as int]->0, self.slot_bytes as int));
                self.cut_sized(id, num, t.szx)
            },
            None => Err(BlockTransferError::NoTransfer),
        }
    }

    /// Replace the transfer of a taken slot by one that leaves it in order.
    fn set_transfer(&mut self, at: usize, next: BlockTransfer)
        requires
            old(self).wf(),
            at < old(self).slots@.len(),
            old(self).slots@[at as int].is_some(),
            body_ok(
                (BodySlot { transfer: next, bytes: old(self).slots@[at as int]->0.bytes }),
                old(self).slot_bytes as int,
            ),
        ensures
            final(self).wf(),
            final(self).slot_bytes == old(self).slot_bytes,
            final(self).slots@ == old(self).slots@.update(
                at as int,
                Some(
                    BodySlot { transfer: next, bytes: old(self).slots@[at as int]->0.bytes },
                ),
            ),
    {
        let ghost before = self.slots@;
        if let Some(slot) = self.slots[at].take() {
            let slot = BodySlot { transfer: next, bytes: slot.bytes };
            self.slots.set(at, Some(slot));
            assert(self.slots@ =~= before.update(at as int, Some(slot)));
        }
    }

    /// Is there an outgoing body in the slot?
    pub open spec fn sends(&self, id: SlotId) -> bool {
        id.at < self.slots@.len() && self.slots@[id.at as int].is_some() && self.slots@[
            id.at as int
        ]->0.transfer.role.outgoing()
    }

    /// The next block of an outgoing body, which then counts as sent.
    ///
    /// A windowed transfer stops at the end of its window.
    pub fn next(&mut self, id: SlotId) -> (r: Result<OutgoingBlock, BlockTransferError>)
        requires
            old(self).wf(),
        ensures
            final(self).wf(),
            final(self).slot_bytes == old(self).slot_bytes,
            final(self).slots@.len() == old(self).slots@.len(),
            issues_next(*old(self), *final(self), id, r),
    {
        let t: BlockTransfer = match self.transfer(id) {
            None => return Err(BlockTransferError::NoTransfer),
            Some(t) => t,
        };
        if !t.role.is_outgoing() {
            return Err(BlockTransferError::NoTransfer);
        }
        assert(body_ok(self.slots@[id.at as int]->0, self.slot_bytes as int));
        if t.complete {
            return Err(BlockTransferError::AlreadyComplete);
        }
        let windowed: bool = t.role == BlockRole::OutgoingQBlock1 || t.role
            == BlockRole::OutgoingQBlock2;
        if windowed && t.next_num >= t.window_base + 10 {
            return Err(BlockTransferError::OutsideWindow);
        }
        let b = match self.cut(id, t.next_num) {
            Ok(b) => b,
            Err(e) => return Err(e),
        };
        let mut next = t;
        next.next_num = t.next_num + 1;
        next.complete = !b.block.more;
        self.set_transfer(id.at, next);
        Ok(b)
    }

    /// Move the window of an outgoing body forward to `base`.
    pub fn advance(&mut self, id: SlotId, base: u32) -> (r: Result<(), BlockTransferError>)
        requires
            old(self).wf(),
        ensures
            final(self).wf(),
            final(self).slot_bytes == old(self).slot_bytes,
            final(self).slots@.len() == old(self).slots@.len(),
            advances_window(*old(self), *final(self), id, base, r),
    {
        let t: BlockTransfer = match self.transfer(id) {
            None => return Err(BlockTransferError::NoTransfer),
            Some(t) => t,
        };
        if !t.role.is_outgoing() {
            return Err(BlockTransferError::NoTransfer);
        }
        assert(body_ok(self.slots@[id.at as int]->0, self.slot_bytes as int));
        if base > t.next_num {
            return Err(BlockTransferError::OutsideWindow);
        }
        let mut next = t;
        if base > t.window_base {
            next.window_base = base;
        }
        self.set_transfer(id.at, next);
        Ok(())
    }

    /// Is the slot a windowed transfer coming in that is not whole yet?
    pub open spec fn recovering(slot: Option<BodySlot>) -> bool {
        match slot {
            Some(s) => !s.transfer.complete && (s.transfer.role == BlockRole::IncomingQBlock1
                || s.transfer.role == BlockRole::IncomingQBlock2),
            None => false,
        }
    }

    /// A time from now at which missing blocks are asked for.
    pub open spec fn recover_at(now_ms: u64) -> u64 {
        if now_ms + QBlockTransmission::NON_RECEIVE_TIMEOUT_MS <= u64::MAX {
            (now_ms + QBlockTransmission::NON_RECEIVE_TIMEOUT_MS) as u64
        } else {
            u64::MAX
        }
    }

    /// A block just came in: wait again before asking for the missing ones.
    pub fn arm(&mut self, id: SlotId, now_ms: u64)
        requires
            old(self).wf(),
        ensures
            final(self).wf(),
            final(self).slot_bytes == old(self).slot_bytes,
            final(self).slots@.len() == old(self).slots@.len(),
            if id.at < old(self).slots@.len() && old(self).slots@[id.at as int].is_some() {
                let s = old(self).slots@[id.at as int]->0;
                final(self).slots@ == old(self).slots@.update(
                    id.at as int,
                    Some(
                        BodySlot {
                            transfer: BlockTransfer {
                                due_ms: Some(BodyPool::recover_at(now_ms)),
                                attempts: 0,
                                ..s.transfer
                            },
                            bytes: s.bytes,
                        },
                    ),
                )
            } else {
                *final(self) == *old(self)
            },
    {
        if id.at >= self.slots.len() {
            return;
        }
        let t: BlockTransfer = match &self.slots[id.at] {
            None => return,
            Some(slot) => slot.transfer,
        };
        assert(body_ok(self.slots@[id.at as int]->0, self.slot_bytes as int));
        let mut next = t;
        next.due_ms =
        Some(now_ms.saturating_add(QBlockTransmission::NON_RECEIVE_TIMEOUT_MS as u64));
        next.attempts = 0;
        self.set_transfer(id.at, next);
    }

    /// Start the wait of every windowed transfer that has none.
    fn arm_all(&mut self, now_ms: u64)
        requires
            old(self).wf(),
        ensures
            final(self).wf(),
            final(self).slot_bytes == old(self).slot_bytes,
            final(self).slots@.len() == old(self).slots@.len(),
            forall|i: int|
                0 <= i < old(self).slots@.len() ==> #[trigger] final(self).slots@[i] == (
                if BodyPool::recovering(old(self).slots@[i]) && old(self).slots@[i]->0.transfer.due_ms.is_none() {
                    Some(
                        BodySlot {
                            transfer: BlockTransfer {
                                due_ms: Some(BodyPool::recover_at(now_ms)),
                                ..old(self).slots@[i]->0.transfer
                            },
                            bytes: old(self).slots@[i]->0.bytes,
                        },
                    )
                } else {
                    old(self).slots@[i]
                }),
    {
        let ghost before = self.slots@;
        let mut i: usize = 0;
        while i < self.slots.len()
            invariant
                self.wf(),
                self.slot_bytes == old(self).slot_bytes,
                self.slots@.len() == before.len(),
                i <= before.len(),
                before == old(self).slots@,
                forall|k: int| i <= k < before.len() ==> self.slots@[k] == before[k],
                forall|k: int|
                    0 <= k < i ==> #[trigger] self.slots@[k] == (if BodyPool::recovering(before[k])
                        && before[k]->0.transfer.due_ms.is_none() {
                        Some(
                            BodySlot {
                                transfer: BlockTransfer {
                                    due_ms: Some(BodyPool::recover_at(now_ms)),
                                    ..before[k]->0.transfer
                                },
                                bytes: before[k]->0.bytes,
                            },
                        )
                    } else {
                        before[k]
                    }),
            decreases before.len() - i,
        {
            let t: Option<BlockTransfer> = match &self.slots[i] {
                None => None,
                Some(slot) => Some(slot.transfer),
            };
            if let Some(t) = t {
                if !t.complete && (t.role == BlockRole::IncomingQBlock1 || t.role
                    == BlockRole::IncomingQBlock2) && t.due_ms.is_none() {
                    assert(body_ok(self.slots@[i as int]->0, self.slot_bytes as int));
                    let mut next = t;
                    next.due_ms =
                    Some(now_ms.saturating_add(QBlockTransmission::NON_RECEIVE_TIMEOUT_MS as u64));
                    self.set_transfer(i, next);
                }
            }
            i = i + 1;
        }
    }

    /// Advance the recovery of windowed transfers.
    ///
    /// Every wait that is not running is started. The first transfer whose
    /// wait is over is then asked for its missing blocks again, or, once that
    /// was done often enough, given up: its slot is freed and its role and key
    /// are handed back.
    pub fn recover(&mut self, now_ms: u64) -> (r: (
        Option<QBlockRecover>,
        Option<(BlockRole, BlockKey)>,
    ))
        requires
            old(self).wf(),
        ensures
            final(self).wf(),
            final(self).slot_bytes == old(self).slot_bytes,
            final(self).slots@.len() == old(self).slots@.len(),
            recovers(old(self).slots@, final(self).slots@, now_ms, r.0, r.1),
    {
        let ghost first = self.slots@;
        self.arm_all(now_ms);
        let ghost before = self.slots@;
        assert(before =~= all_armed(first, now_ms));
        let mut i: usize = 0;
        while i < self.slots.len()
            invariant
                self.wf(),
                self.slot_bytes == old(self).slot_bytes,
                self.slots@ == before,
                i <= before.len(),
                first == old(self).slots@,
                before.len() == first.len(),
                before == all_armed(first, now_ms),
                forall|k: int| 0 <= k < i ==> !wait_over(#[trigger] first[k], now_ms),
            decreases before.len() - i,
        {
            assert(before[i as int] == armed(first[i as int], now_ms));
            let t: Option<BlockTransfer> = match &self.slots[i] {
                None => None,
                Some(slot) => Some(slot.transfer),
            };
            if let Some(t) = t {
                let waits: bool = !t.complete && (t.role == BlockRole::IncomingQBlock1 || t.role
                    == BlockRole::IncomingQBlock2);
                let due: bool = match t.due_ms {
                    Some(due) => due <= now_ms && now_ms < u64::MAX,
                    None => false,
                };
                if waits && due {
                    assert(BodyPool::recovering(first[i as int]));
                    assert(first[i as int]->0.transfer.due_ms.is_some());
                    assert(body_ok(self.slots@[i as int]->0, self.slot_bytes as int));
                    assert(first_over(first, now_ms, i as int));
                    if t.attempts >= QBlockTransmission::NON_MAX_RETRANSMIT {
                        self.slots.set(i, None);
                        return (None, Some((t.role, t.key)));
                    }
                    let whole: usize = match &self.slots[i] {
                        Some(slot) => slot.bytes.len(),
                        None => 0,
                    };
                    let count: usize = count_blocks(whole, t.szx);
                    let missing = list_missing(&t, count);
                    let ask = QBlockRecover { role: t.role, key: t.key, szx: t.szx, missing };
                    assert(asks_again(first[i as int], ask, now_ms));
                    let mut next = t;
                    next.due_ms =
                    Some(now_ms.saturating_add(QBlockTransmission::NON_RECEIVE_TIMEOUT_MS as u64));
                    next.attempts = t.attempts + 1;
                    self.set_transfer(i, next);
                    return (Some(ask), None);
                }
            }
            i = i + 1;
        }
        (None, None)
    }
}

/// Putting blocks together in order gives the body: whatever is in is a
/// prefix of it, and stays one with the next block.
pub proof fn law_ordered_blocks_assemble(body: Seq<u8>, num: int, size: int)
    requires
        0 <= num,
        0 < size,
        num * size <= body.len(),
    ensures
        body.subrange(0, num * size) + block_of(body, num, size) == if (num + 1) * size
            < body.len() {
            body.subrange(0, (num + 1) * size)
        } else {
            body
        },
{
    lemma_next_offset(num, size);
    assert(0 <= num * size) by (nonlinear_arith)
        requires
            0 <= num,
            0 < size,
    ;
    let joined = body.subrange(0, num * size) + block_of(body, num, size);
    if (num + 1) * size < body.len() {
        assert(joined =~= body.subrange(0, (num + 1) * size));
    } else {
        assert(joined =~= body);
    }
}

/// Does every block that is in hold the bytes of the body?
pub open spec fn windows_agree(t: BlockTransfer, bytes: Seq<u8>, body: Seq<u8>) -> bool {
    let size = block_size(t.szx as int);
    &&& bytes.len() == body.len()
    &&& forall|k: int, i: int|
        0 <= k && #[trigger] t.has(k) && k * size <= i < (k + 1) * size && 0 <= i < body.len()
            ==> #[trigger] bytes[i] == body[i]
}

/// Taking in a block of a body keeps agreement with the body.
pub proof fn law_windowed_block_agrees(
    t: BlockTransfer,
    bytes: Seq<u8>,
    body: Seq<u8>,
    num: u32,
)
    requires
        t.szx <= 6,
        windows_agree(t, bytes, body),
        t.window_base <= num < t.window_base + 10,
        t.window_base <= 0x10000a,
        num * block_size(t.szx as int) <= body.len(),
    ensures
        windows_agree(
            windowed_after(t, num, body.len() as u32),
            overlay(
                bytes,
                num * block_size(t.szx as int),
                block_of(body, num as int, block_size(t.szx as int)),
            ),
            body,
        ),
{
    let size = block_size(t.szx as int);
    let after = windowed_after(t, num, body.len() as u32);
    let plain = windowed_next(t, num);
    let from = num * size;
    let piece = block_of(body, num as int, size);
    let out = overlay(bytes, from, piece);
    lemma_next_offset(num as int, size);
    assert(0 <= from) by (nonlinear_arith)
        requires
            from == num * size,
            size > 0,
    ;
    assert forall|k: int, i: int|
        0 <= k && #[trigger] after.has(k) && k * size <= i < (k + 1) * size && 0 <= i
            < body.len() implies #[trigger] out[i] == body[i] by {
        assert(plain.has(k));
        if k == num {
            assert(from <= i < from + piece.len());
        } else {
            assert(t.has(k)) by {
                let marked = t.window.with(num - t.window_base);
                if marked.full() {
                    if k >= t.window_base {
                        assert(k < t.window_base + 10);
                        assert(marked.has(k - t.window_base));
                    }
                } else {
                    if k >= t.window_base {
                        assert(marked.has(k - t.window_base));
                    }
                }
            }
            lemma_next_offset(k, size);
            if k < num {
                assert((k + 1) * size <= num * size) by (nonlinear_arith)
                    requires
                        k + 1 <= num,
                        size > 0,
                ;
            } else {
                assert((num + 1) * size <= k * size) by (nonlinear_arith)
                    requires
                        num + 1 <= k,
                        size > 0,
                ;
            }
            assert(bytes[i] == body[i]);
        }
    }
}

/// A windowed transfer that is whole holds exactly the body.
pub proof fn law_windowed_whole_is_body(t: BlockTransfer, bytes: Seq<u8>, body: Seq<u8>)
    requires
        t.szx <= 6,
        windows_agree(t, bytes, body),
        all_in(t, block_count(body.len() as int, block_size(t.szx as int))),
    ensures
        bytes == body,
{
    let size = block_size(t.szx as int);
    let count = block_count(body.len() as int, size);
    assert forall|i: int| 0 <= i < body.len() implies bytes[i] == body[i] by {
        let k = i / size;
        assert(k * size <= i < (k + 1) * size && 0 <= k) by (nonlinear_arith)
            requires
                k == i / size,
                0 <= i,
                size > 0,
        ;
        assert(k < count) by (nonlinear_arith)
            requires
                k == i / size,
                0 <= i < body.len(),
                size > 0,
                count == (body.len() + size - 1) / size,
        ;
        assert(t.has(k));
    }
    assert(bytes =~= body);
}

/// A body that can be numbered is missing only blocks that can be.
pub proof fn lemma_missing_bound(t: BlockTransfer, len: int, size: int, upto: int)
    requires
        0 < size,
        0 <= len <= 0x100000 * size,
    ensures
        forall|i: int|
            0 <= i < missing_of(t, block_count(len, size), upto).len() ==> (
            #[trigger] missing_of(t, block_count(len, size), upto)[i]) < 0x100000,
    decreases upto,
{
    assert((len + size - 1) / size <= 0x100000) by (nonlinear_arith)
        requires
            0 < size,
            0 <= len <= 0x100000 * size,
    ;
    if upto > 0 {
        lemma_missing_bound(t, len, size, upto - 1);
        let count = block_count(len, size);
        let front = missing_of(t, count, upto - 1);
        let all = missing_of(t, count, upto);
        assert forall|i: int| 0 <= i < all.len() implies (#[trigger] all[i]) < 0x100000 by {
            if i < front.len() {
                assert(all[i] == front[i]);
            }
        }
    }
}

} // verus!
