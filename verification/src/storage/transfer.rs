//! Block-wise transfers: bodies taken apart and put together.
use vstd::prelude::*;

use super::endpoint::{BlockKey, BlockKeyView, SlotId};
use super::table::empty_rows;
use crate::error::{BlockTransferError, SlotError, ValueError};
use crate::message::value::block_size;
use crate::message::BlockValue;

verus! {

/// Which way a body goes, and by which option.
#[derive(Clone, Copy, Debug, PartialEq, Eq, Structural)]
pub enum BlockRole {
    /// A request body coming in by Block1.
    IncomingBlock1,
    /// A response body coming in by Block2.
    IncomingBlock2,
    /// A request body coming in by Q-Block1.
    IncomingQBlock1,
    /// A response body coming in by Q-Block2.
    IncomingQBlock2,
    /// A request body going out by Block1.
    OutgoingBlock1,
    /// A response body going out by Block2.
    OutgoingBlock2,
    /// A request body going out by Q-Block1.
    OutgoingQBlock1,
    /// A response body going out by Q-Block2.
    OutgoingQBlock2,
}

impl BlockRole {
    /// Does the body go out?
    pub open spec fn outgoing(self) -> bool {
        match self {
            BlockRole::OutgoingBlock1 | BlockRole::OutgoingBlock2 | BlockRole::OutgoingQBlock1
            | BlockRole::OutgoingQBlock2 => true,
            _ => false,
        }
    }

    /// Does the body go out?
    pub fn is_outgoing(self) -> (b: bool)
        ensures
            b == self.outgoing(),
    {
        match self {
            BlockRole::OutgoingBlock1 | BlockRole::OutgoingBlock2 | BlockRole::OutgoingQBlock1
            | BlockRole::OutgoingQBlock2 => true,
            _ => false,
        }
    }
}

/// Which blocks of a window are in.
#[derive(Clone, Copy, Debug, PartialEq, Eq, Structural)]
pub struct Window {
    /// Block 0.
    pub w0: bool,
    /// Block 1.
    pub w1: bool,
    /// Block 2.
    pub w2: bool,
    /// Block 3.
    pub w3: bool,
    /// Block 4.
    pub w4: bool,
    /// Block 5.
    pub w5: bool,
    /// Block 6.
    pub w6: bool,
    /// Block 7.
    pub w7: bool,
    /// Block 8.
    pub w8: bool,
    /// Block 9.
    pub w9: bool,
}

impl Window {
    /// Is the block in?
    pub open spec fn has(self, i: int) -> bool {
        if i == 0 {
            self.w0
        } else if i == 1 {
            self.w1
        } else if i == 2 {
            self.w2
        } else if i == 3 {
            self.w3
        } else if i == 4 {
            self.w4
        } else if i == 5 {
            self.w5
        } else if i == 6 {
            self.w6
        } else if i == 7 {
            self.w7
        } else if i == 8 {
            self.w8
        } else {
            self.w9
        }
    }

    /// The window with one more block in.
    pub open spec fn with(self, i: int) -> Window {
        if i == 0 {
            Window { w0: true, ..self }
        } else if i == 1 {
            Window { w1: true, ..self }
        } else if i == 2 {
            Window { w2: true, ..self }
        } else if i == 3 {
            Window { w3: true, ..self }
        } else if i == 4 {
            Window { w4: true, ..self }
        } else if i == 5 {
            Window { w5: true, ..self }
        } else if i == 6 {
            Window { w6: true, ..self }
        } else if i == 7 {
            Window { w7: true, ..self }
        } else if i == 8 {
            Window { w8: true, ..self }
        } else {
            Window { w9: true, ..self }
        }
    }

    /// Is every block in?
    pub open spec fn full(self) -> bool {
        self.w0 && self.w1 && self.w2 && self.w3 && self.w4 && self.w5 && self.w6 && self.w7 && self.w8 && self.w9
    }

    /// No block is in.
    pub open spec fn none() -> Window {
        Window {
            w0: false,
            w1: false,
            w2: false,
            w3: false,
            w4: false,
            w5: false,
            w6: false,
            w7: false,
            w8: false,
            w9: false,
        }
    }

    /// No block is in.
    pub fn empty() -> (w: Window)
        ensures
            w == Window::none(),
    {
        Window {
            w0: false,
            w1: false,
            w2: false,
            w3: false,
            w4: false,
            w5: false,
            w6: false,
            w7: false,
            w8: false,
            w9: false,
        }
    }

    /// Is no block in?
    pub fn is_empty(self) -> (b: bool)
        ensures
            b == (self == Window::none()),
    {
        !(self.w0 || self.w1 || self.w2 || self.w3 || self.w4 || self.w5 || self.w6 || self.w7 || self.w8 || self.w9)
    }

    /// Is the block in?
    pub fn get(self, i: usize) -> (b: bool)
        requires
            i < 10,
        ensures
            b == self.has(i as int),
    {
        if i == 0 {
            self.w0
        } else if i == 1 {
            self.w1
        } else if i == 2 {
            self.w2
        } else if i == 3 {
            self.w3
        } else if i == 4 {
            self.w4
        } else if i == 5 {
            self.w5
        } else if i == 6 {
            self.w6
        } else if i == 7 {
            self.w7
        } else if i == 8 {
            self.w8
        } else {
            self.w9
        }
    }

    /// Is every block in?
    pub fn is_full(self) -> (b: bool)
        ensures
            b == self.full(),
    {
        self.w0 && self.w1 && self.w2 && self.w3 && self.w4 && self.w5 && self.w6 && self.w7 && self.w8 && self.w9
    }

    /// The window with one more block in.
    pub fn mark(self, i: usize) -> (w: Window)
        requires
            i < 10,
        ensures
            w == self.with(i as int),
    {
        let mut w = self;
        if i == 0 {
            w.w0 = true;
        } else if i == 1 {
            w.w1 = true;
        } else if i == 2 {
            w.w2 = true;
        } else if i == 3 {
            w.w3 = true;
        } else if i == 4 {
            w.w4 = true;
        } else if i == 5 {
            w.w5 = true;
        } else if i == 6 {
            w.w6 = true;
        } else if i == 7 {
            w.w7 = true;
        } else if i == 8 {
            w.w8 = true;
        } else {
            w.w9 = true;
        }
        w
    }
}

/// How far a body has come.
#[derive(Clone, Copy, Debug, PartialEq, Eq)]
pub struct BlockTransfer {
    /// Direction and option.
    pub role: BlockRole,
    /// What the transfer is found by.
    pub key: BlockKey,
    /// Size exponent of every block.
    pub szx: u8,
    /// The next block in order.
    pub next_num: u32,
    /// The first block of the current window.
    pub window_base: u32,
    /// Which blocks of the current window are in.
    pub window: Window,
    /// The announced length of the body.
    pub total: Option<u32>,
    /// Is the body whole, or wholly sent?
    pub complete: bool,
    /// When missing blocks are asked for.
    pub due_ms: Option<u64>,
    /// How often they were asked for.
    pub attempts: u8,
}

impl BlockTransfer {
    /// Blocks in a window.
    pub const MAX_PAYLOADS: u8 = 10;

    /// Direction and option.
    pub fn role(&self) -> (r: BlockRole)
        ensures
            r == self.role,
    {
        self.role
    }

    /// What the transfer is found by.
    pub fn key(&self) -> (k: BlockKey)
        ensures
            k == self.key,
    {
        self.key
    }

    /// Is the block in?
    pub open spec fn has(&self, num: int) -> bool {
        num < self.window_base || (num < self.window_base + 10 && self.window.has(
            num - self.window_base,
        ))
    }

    /// A transfer of which nothing is in or out yet.
    pub open spec fn fresh(role: BlockRole, key: BlockKey, szx: u8, total: Option<u32>) -> (Self) {
        BlockTransfer {
            role,
            key,
            szx,
            next_num: 0,
            window_base: 0,
            window: Window::none(),
            total,
            complete: false,
            due_ms: None,
            attempts: 0,
        }
    }

    /// A transfer of which nothing is in or out yet.
    pub fn start(role: BlockRole, key: BlockKey, szx: u8, total: Option<u32>) -> (t: Self)
        ensures
            t == BlockTransfer::fresh(role, key, szx, total),
    {
        BlockTransfer {
            role,
            key,
            szx,
            next_num: 0,
            window_base: 0,
            window: Window::empty(),
            total,
            complete: false,
            due_ms: None,
            attempts: 0,
        }
    }
}

/// Number of blocks that a body takes; an empty one takes one.
pub open spec fn block_count(len: int, size: int) -> int {
    if len <= 0 {
        1
    } else {
        (len + size - 1) / size
    }
}

/// The bytes of a body in one block.
pub open spec fn block_of(body: Seq<u8>, num: int, size: int) -> Seq<u8> {
    let from = num * size;
    let to = if from + size < body.len() {
        from + size
    } else {
        body.len() as int
    };
    if 0 <= from <= to {
        body.subrange(from, to)
    } else {
        Seq::empty()
    }
}

/// The announced length in force, if the announcements agree.
pub open spec fn agreed_total(known: Option<u32>, hint: Option<u32>) -> Result<Option<u32>, ()> {
    match (known, hint) {
        (Some(a), Some(b)) => if a == b {
            Ok(known)
        } else {
            Err(())
        },
        (Some(_), None) => Ok(known),
        (None, _) => Ok(hint),
    }
}

/// What becomes of a block that arrives in an ordered transfer: refused, or
/// taken, with whether it is the last one.
pub open spec fn ordered_verdict(
    t: BlockTransfer,
    filled: int,
    cap: int,
    block: BlockValue,
    len: int,
    hint: Option<u32>,
) -> Result<bool, BlockTransferError> {
    let size = block_size(block.szx as int);
    if t.complete {
        Err(BlockTransferError::AlreadyComplete)
    } else if block.szx > 6 {
        Err(BlockTransferError::Value(ValueError::IllegalSzx))
    } else if block.num < t.next_num {
        Err(BlockTransferError::Overlap)
    } else if block.num > t.next_num {
        Err(BlockTransferError::Gap)
    } else if block.szx != t.szx {
        Err(BlockTransferError::SzxMismatch)
    } else if (block.more && len != size) || len > size {
        Err(BlockTransferError::PayloadLength)
    } else if filled + len > cap {
        Err(BlockTransferError::Overflow)
    } else {
        match agreed_total(t.total, hint) {
            Err(_) => Err(BlockTransferError::LengthInconsistent),
            Ok(None) => Ok(!block.more),
            Ok(Some(n)) => if filled + len > n || (!block.more && filled + len != n) {
                Err(BlockTransferError::LengthInconsistent)
            } else {
                Ok(!block.more)
            },
        }
    }
}

/// Are the two announcements in agreement, and which is in force?
fn agree(known: Option<u32>, hint: Option<u32>) -> (r: Result<Option<u32>, ()>)
    ensures
        r == agreed_total(known, hint),
{
    match (known, hint) {
        (Some(a), Some(b)) => if a == b {
            Ok(known)
        } else {
            Err(())
        },
        (Some(_), None) => Ok(known),
        (None, _) => Ok(hint),
    }
}

/// What becomes of a block that arrives in an ordered transfer.
pub fn judge_ordered(
    t: &BlockTransfer,
    filled: usize,
    cap: usize,
    block: BlockValue,
    len: usize,
    hint: Option<u32>,
) -> (r: Result<bool, BlockTransferError>)
    requires
        filled <= cap,
    ensures
        r == ordered_verdict(*t, filled as int, cap as int, block, len as int, hint),
{
    let size: usize = block.size() as usize;
    if t.complete {
        Err(BlockTransferError::AlreadyComplete)
    } else if block.szx > 6 {
        Err(BlockTransferError::Value(ValueError::IllegalSzx))
    } else if block.num < t.next_num {
        Err(BlockTransferError::Overlap)
    } else if block.num > t.next_num {
        Err(BlockTransferError::Gap)
    } else if block.szx != t.szx {
        Err(BlockTransferError::SzxMismatch)
    } else if (block.more && len != size) || len > size {
        Err(BlockTransferError::PayloadLength)
    } else if len > cap - filled {
        Err(BlockTransferError::Overflow)
    } else {
        match agree(t.total, hint) {
            Err(_) => Err(BlockTransferError::LengthInconsistent),
            Ok(None) => Ok(!block.more),
            Ok(Some(n)) => if filled + len > n as usize || (!block.more && filled + len
                != n as usize) {
                Err(BlockTransferError::LengthInconsistent)
            } else {
                Ok(!block.more)
            },
        }
    }
}

/// What becomes of a block that arrives in a windowed transfer.
pub open spec fn windowed_verdict(
    t: BlockTransfer,
    cap: int,
    block: BlockValue,
    len: int,
    hint: Option<u32>,
) -> Result<(), BlockTransferError> {
    let size = block_size(block.szx as int);
    let from = block.num * size;
    if hint.is_none() || t.total != hint {
        Err(BlockTransferError::LengthInconsistent)
    } else if hint->0 > cap || hint->0 > 0x100000 * size {
        Err(BlockTransferError::Overflow)
    } else if t.complete {
        Err(BlockTransferError::AlreadyComplete)
    } else if block.szx > 6 {
        Err(BlockTransferError::Value(ValueError::IllegalSzx))
    } else if block.szx != t.szx {
        Err(BlockTransferError::SzxMismatch)
    } else if block.num >= t.window_base + 10 {
        Err(BlockTransferError::OutsideWindow)
    } else if t.has(block.num as int) {
        Err(BlockTransferError::Duplicate)
    } else if (block.more && len != size) || len > size {
        Err(BlockTransferError::PayloadLength)
    } else if from + len > hint->0 || (block.more == (from + len == hint->0)) {
        Err(BlockTransferError::LengthInconsistent)
    } else {
        Ok(())
    }
}

pub proof fn lemma_offset_bound(num: int, size: int)
    requires
        0 <= num < 0x100000,
        0 <= size <= 1024,
    ensures
        0 <= num * size <= 0x100000 * 1024,
{
    assert(0 <= num * size) by (nonlinear_arith)
        requires
            0 <= num,
            0 <= size,
    ;
    assert(num * size <= 0x100000 * 1024) by (nonlinear_arith)
        requires
            0 <= num < 0x100000,
            0 <= size <= 1024,
    ;
}

/// What becomes of a block that arrives in a windowed transfer.
pub fn judge_windowed(
    t: &BlockTransfer,
    cap: usize,
    block: BlockValue,
    len: usize,
    hint: Option<u32>,
) -> (r: Result<(), BlockTransferError>)
    requires
        block.valid(),
        t.window_base <= 0x10000a,
    ensures
        r == windowed_verdict(*t, cap as int, block, len as int, hint),
{
    let size: usize = block.size() as usize;
    proof {
        lemma_offset_bound(block.num as int, block_size(block.szx as int));
    }
    let from: usize = block.num as usize * size;
    let total: u32 = match hint {
        Some(n) => n,
        None => return Err(BlockTransferError::LengthInconsistent),
    };
    match t.total {
        Some(n) => {
            if n != total {
                return Err(BlockTransferError::LengthInconsistent);
            }
        },
        None => return Err(BlockTransferError::LengthInconsistent),
    }
    assert(0x100000 * size <= 0x40000000);
    if total as usize > cap || total as usize > 0x100000 * size {
        Err(BlockTransferError::Overflow)
    } else if t.complete {
        Err(BlockTransferError::AlreadyComplete)
    } else if block.szx > 6 {
        Err(BlockTransferError::Value(ValueError::IllegalSzx))
    } else if block.szx != t.szx {
        Err(BlockTransferError::SzxMismatch)
    } else if block.num >= t.window_base + 10 {
        Err(BlockTransferError::OutsideWindow)
    } else if block.num < t.window_base || t.window.get((block.num - t.window_base) as usize) {
        Err(BlockTransferError::Duplicate)
    } else if (block.more && len != size) || len > size {
        Err(BlockTransferError::PayloadLength)
    } else if from + len > total as usize || (block.more == (from + len == total as usize)) {
        Err(BlockTransferError::LengthInconsistent)
    } else {
        Ok(())
    }
}

/// The transfer with one more block of the window in; a full window moves on.
pub open spec fn windowed_next(t: BlockTransfer, num: u32) -> BlockTransfer {
    let marked = t.window.with(num - t.window_base);
    if marked.full() {
        BlockTransfer { window_base: (t.window_base + 10) as u32, window: Window::none(), ..t }
    } else {
        BlockTransfer { window: marked, ..t }
    }
}

/// Are all blocks of a body in?
pub open spec fn all_in(t: BlockTransfer, count: int) -> bool {
    forall|k: int| 0 <= k < count ==> #[trigger] t.has(k)
}

/// A body slot in use.
pub struct BodySlot {
    /// How far the body has come.
    pub transfer: BlockTransfer,
    /// The bytes.
    pub bytes: Vec<u8>,
}

/// Is a body slot in order?
pub open spec fn body_ok(slot: BodySlot, cap: int) -> bool {
    let t = slot.transfer;
    &&& slot.bytes@.len() <= cap
    &&& t.szx <= 6
    &&& t.window_base <= 0x10000a
    &&& t.next_num <= 0x100000
    &&& match t.role {
        BlockRole::IncomingBlock1 | BlockRole::IncomingBlock2 => !t.complete ==> slot.bytes@.len()
            == t.next_num * block_size(t.szx as int),
        BlockRole::IncomingQBlock1 | BlockRole::IncomingQBlock2 => t.total matches Some(n)
            && slot.bytes@.len() == n && n <= 0x100000 * block_size(t.szx as int),
        _ => slot.bytes@.len() <= 0xfffff0,
    }
}

/// A fixed number of slots for bodies.
pub struct BodyPool {
    /// The longest body that a slot holds.
    pub slot_bytes: usize,
    /// The slots.
    pub slots: Vec<Option<BodySlot>>,
}

/// Position of the first slot with this role and key.
pub open spec fn find_body(
    slots: Seq<Option<BodySlot>>,
    role: BlockRole,
    key: BlockKeyView,
) -> Option<int>
    decreases slots.len(),
{
    if slots.len() == 0 {
        None
    } else {
        match find_body(slots.drop_last(), role, key) {
            Some(i) => Some(i),
            None => match slots.last() {
                Some(s) => if s.transfer.role == role && s.transfer.key@ == key {
                    Some(slots.len() - 1)
                } else {
                    None
                },
                None => None,
            },
        }
    }
}

proof fn lemma_find_body_prefix(
    slots: Seq<Option<BodySlot>>,
    role: BlockRole,
    key: BlockKeyView,
    n: int,
)
    requires
        0 <= n <= slots.len(),
        find_body(slots.subrange(0, n), role, key).is_some(),
    ensures
        find_body(slots, role, key) == find_body(slots.subrange(0, n), role, key),
    decreases slots.len(),
{
    if n == slots.len() {
        assert(slots.subrange(0, n) =~= slots);
    } else {
        assert(slots.drop_last().subrange(0, n) =~= slots.subrange(0, n));
        lemma_find_body_prefix(slots.drop_last(), role, key, n);
    }
}

/// Where a block of an outgoing body lies.
#[derive(Clone, Copy, Debug, PartialEq, Eq, Structural)]
pub struct OutgoingBlock {
    /// The body slot.
    pub id: SlotId,
    /// The descriptor that goes with the block.
    pub block: BlockValue,
    /// First byte.
    pub offset: usize,
    /// Number of bytes.
    pub len: usize,
}

impl OutgoingBlock {
    /// Is this the last block?
    pub fn complete(&self) -> (b: bool)
        ensures
            b == !self.block.more,
    {
        !self.block.more
    }
}

/// Is there a block with this number in a body of this length?
#[verifier::opaque]
pub open spec fn in_body(len: int, num: int, size: int) -> bool {
    num * size < len || num == 0
}

/// Does an outgoing block cut the right piece out of a body?
#[verifier::opaque]
pub open spec fn cuts(b: OutgoingBlock, id: SlotId, body_len: int, num: u32, szx: u8) -> bool {
    let size = block_size(szx as int);
    &&& b.id == id
    &&& b.block == BlockValue { num, more: num * size + size < body_len, szx }
    &&& b.offset == num * size
    &&& b.offset + b.len == if num * size + size < body_len {
        num * size + size
    } else {
        body_len
    }
    &&& b.len <= 1024
    &&& b.offset + b.len <= body_len
    &&& b.block.valid()
}

/// A block that was cut lies inside its body and has a valid descriptor.
pub proof fn lemma_cuts(b: OutgoingBlock, id: SlotId, body_len: int, num: u32, szx: u8)
    requires
        cuts(b, id, body_len, num, szx),
    ensures
        b.id == id,
        b.block.num == num,
        b.block.szx == szx,
        b.block.valid(),
        b.len <= 1024,
        0 <= b.offset + b.len <= body_len,
{
    reveal(cuts);
}

/// A block that was cut is the piece of the body with its number.
pub proof fn law_cut_is_block(b: OutgoingBlock, id: SlotId, body: Seq<u8>, num: u32, szx: u8)
    requires
        szx <= 6,
        cuts(b, id, body.len() as int, num, szx),
    ensures
        body.subrange(b.offset as int, b.offset + b.len) == block_of(
            body,
            num as int,
            block_size(szx as int),
        ),
        b.block.more == ((num + 1) * block_size(szx as int) < body.len()),
{
    reveal(cuts);
    let size = block_size(szx as int);
    assert((num + 1) * size == num * size + size) by (nonlinear_arith);
}

impl BodyPool {
    /// Is every slot in order?
    pub open spec fn wf(&self) -> bool {
        forall|i: int|
            0 <= i < self.slots@.len() ==> ((#[trigger] self.slots@[i]) matches Some(s) ==> body_ok(
                s,
                self.slot_bytes as int,
            ))
    }

    /// `slots` free slots of `bytes` bytes each.
    pub fn new(slots: usize, bytes: usize) -> (p: BodyPool)
        ensures
            p.wf(),
            p.slot_bytes == bytes,
            p.slots@.len() == slots,
            forall|i: int| 0 <= i < slots ==> (#[trigger] p.slots@[i]).is_none(),
    {
        BodyPool { slot_bytes: bytes, slots: empty_rows(slots) }
    }

    /// How many slots there are.
    pub fn capacity(&self) -> (n: usize)
        ensures
            n == self.slots@.len(),
    {
        self.slots.len()
    }

    /// Position of the first slot with this role and key.
    pub fn find(&self, role: BlockRole, key: &BlockKey) -> (r: Option<usize>)
        ensures
            match r {
                Some(i) => find_body(self.slots@, role, key@) == Some(i as int) && i
                    < self.slots@.len() && self.slots@[i as int].is_some() && self.slots@[
                    i as int
                ]->0.transfer.role == role && self.slots@[i as int]->0.transfer.key@ == key@,
                None => find_body(self.slots@, role, key@).is_none(),
            },
    {
        let mut i: usize = 0;
        while i < self.slots.len()
            invariant
                i <= self.slots@.len(),
                find_body(self.slots@.subrange(0, i as int), role, key@).is_none(),
            decreases self.slots@.len() - i,
        {
            let ghost next = self.slots@.subrange(0, i + 1);
            assert(next.drop_last() =~= self.slots@.subrange(0, i as int));
            assert(next.last() == self.slots@[i as int]);
            if let Some(slot) = &self.slots[i] {
                if slot.transfer.role == role && slot.transfer.key.same(key) {
                    proof {
                        lemma_find_body_prefix(self.slots@, role, key@, i + 1);
                    }
                    return Some(i);
                }
            }
            i = i + 1;
        }
        assert(self.slots@.subrange(0, i as int) =~= self.slots@);
        None
    }

    /// The transfer in a slot.
    pub fn transfer(&self, id: SlotId) -> (r: Option<BlockTransfer>)
        ensures
            r == if id.at < self.slots@.len() && self.slots@[id.at as int].is_some() {
                Some(self.slots@[id.at as int]->0.transfer)
            } else {
                None
            },
    {
        if id.at >= self.slots.len() {
            return None;
        }
        match &self.slots[id.at] {
            Some(slot) => Some(slot.transfer),
            None => None,
        }
    }

    /// The bytes in a slot.
    pub fn payload(&self, id: SlotId) -> (r: Option<&[u8]>)
        ensures
            r.is_some() == (id.at < self.slots@.len() && self.slots@[id.at as int].is_some()),
            r matches Some(b) ==> b@ == self.slots@[id.at as int]->0.bytes@,
    {
        if id.at >= self.slots.len() {
            return None;
        }
        match &self.slots[id.at] {
            Some(slot) => Some(slot.bytes.as_slice()),
            None => None,
        }
    }

    /// Free a slot.
    pub fn release(&mut self, id: SlotId) -> (r: Result<(), SlotError>)
        requires
            old(self).wf(),
        ensures
            final(self).wf(),
            final(self).slot_bytes == old(self).slot_bytes,
            final(self).slots@.len() == old(self).slots@.len(),
            r == if id.at >= old(self).slots@.len() {
                Err::<(), SlotError>(SlotError::OutOfRange)
            } else if old(self).slots@[id.at as int].is_none() {
                Err(SlotError::NotOccupied)
            } else {
                Ok(())
            },
            r.is_ok() ==> final(self).slots@ == old(self).slots@.update(id.at as int, None),
            r.is_err() ==> *final(self) == *old(self),
    {
        if id.at >= self.slots.len() {
            return Err(SlotError::OutOfRange);
        }
        if self.slots[id.at].is_none() {
            return Err(SlotError::NotOccupied);
        }
        self.slots.set(id.at, None);
        Ok(())
    }
}

} // verus!
