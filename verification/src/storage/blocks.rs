//! The engine's block-wise transfers.
use vstd::prelude::*;

use super::body::{
    accepts_ordered, accepts_windowed, advances_window, asks_again, cuts_body, cuts_sized,
    first_over, issues_next, recovers, starts_body, wait_over, BlockProgress, QBlockRecover,
};
use super::endpoint::{BlockKey, BlockKeyView, Endpoint, SlotId};
use super::engine::{Engine, Store};
use super::metrics::{inc, Metrics};
use super::transfer::{BlockRole, BlockTransfer, BodyPool, BodySlot, OutgoingBlock};
use crate::error::BlockTransferError;
use crate::message::{BlockValue, Token};

verus! {

/// The engine with another pool of incoming bodies, and other counters.
pub open spec fn rx_bodies_changed(before: Engine, after: Engine) -> bool {
    &&& before.store.bodies.is_some() == after.store.bodies.is_some()
    &&& before.store.bodies.is_some() ==> after.store.bodies->0.tx == before.store.bodies->0.tx
        && after.store.bodies->0.rx.slots@.len() == before.store.bodies->0.rx.slots@.len()
        && after.store.bodies->0.rx.slot_bytes == before.store.bodies->0.rx.slot_bytes
    &&& before.store.bodies.is_none() ==> after.store.bodies == before.store.bodies
    &&& after == (Engine {
        store: Store { bodies: after.store.bodies, ..before.store },
        metrics: after.metrics,
        ..before
    })
}

/// The engine with another pool of outgoing bodies.
pub open spec fn tx_bodies_changed(before: Engine, after: Engine) -> bool {
    &&& before.store.bodies.is_some() == after.store.bodies.is_some()
    &&& before.store.bodies.is_some() ==> after.store.bodies->0.rx == before.store.bodies->0.rx
        && after.store.bodies->0.tx.slots@.len() == before.store.bodies->0.tx.slots@.len()
        && after.store.bodies->0.tx.slot_bytes == before.store.bodies->0.tx.slot_bytes
    &&& before.store.bodies.is_none() ==> after.store.bodies == before.store.bodies
    &&& after == (Engine { store: Store { bodies: after.store.bodies, ..before.store }, ..before })
}

/// Position of the outgoing body that a response to this exchange belongs to.
pub open spec fn response_body(
    slots: Seq<Option<BodySlot>>,
    token: Seq<u8>,
    peer: Endpoint,
) -> Option<int>
    decreases slots.len(),
{
    if slots.len() == 0 {
        None
    } else {
        match response_body(slots.drop_last(), token, peer) {
            Some(i) => Some(i),
            None => if answers(slots.last(), token, peer) {
                Some(slots.len() - 1)
            } else {
                None
            },
        }
    }
}

/// Is the slot a response body that goes out in this exchange?
pub open spec fn answers(slot: Option<BodySlot>, token: Seq<u8>, peer: Endpoint) -> bool {
    match slot {
        Some(s) => s.transfer.key.token@ == token && s.transfer.key.peer == peer && (
        s.transfer.role == BlockRole::OutgoingBlock2 || s.transfer.role
            == BlockRole::OutgoingQBlock2),
        None => false,
    }
}

/// Is the slot a body that belongs to this exchange, with one of two roles?
pub open spec fn belongs(
    slot: Option<BodySlot>,
    key: BlockKey,
    one: BlockRole,
    other: BlockRole,
) -> bool {
    match slot {
        Some(s) => s.transfer.key.token@ == key.token@ && s.transfer.key.peer == key.peer && (
        s.transfer.role == one || s.transfer.role == other),
        None => false,
    }
}

proof fn lemma_response_prefix(slots: Seq<Option<BodySlot>>, token: Seq<u8>, peer: Endpoint, n: int)
    requires
        0 <= n <= slots.len(),
        response_body(slots.subrange(0, n), token, peer).is_some(),
    ensures
        response_body(slots, token, peer) == response_body(slots.subrange(0, n), token, peer),
    decreases slots.len(),
{
    if n == slots.len() {
        assert(slots.subrange(0, n) =~= slots);
    } else {
        assert(slots.drop_last().subrange(0, n) =~= slots.subrange(0, n));
        lemma_response_prefix(slots.drop_last(), token, peer, n);
    }
}

impl BodyPool {
    /// Position of the outgoing body that a response to this exchange belongs to.
    pub fn find_response(&self, token: &Token, peer: Endpoint) -> (r: Option<usize>)
        ensures
            match r {
                Some(i) => response_body(self.slots@, token@, peer) == Some(i as int) && i
                    < self.slots@.len() && answers(self.slots@[i as int], token@, peer),
                None => response_body(self.slots@, token@, peer).is_none(),
            },
    {
        let mut i: usize = 0;
        while i < self.slots.len()
            invariant
                i <= self.slots@.len(),
                response_body(self.slots@.subrange(0, i as int), token@, peer).is_none(),
            decreases self.slots@.len() - i,
        {
            let ghost next = self.slots@.subrange(0, i + 1);
            assert(next.drop_last() =~= self.slots@.subrange(0, i as int));
            assert(next.last() == self.slots@[i as int]);
            if let Some(slot) = &self.slots[i] {
                let t = &slot.transfer;
                if t.key.token.same(token) && t.key.peer == peer && (t.role
                    == BlockRole::OutgoingBlock2 || t.role == BlockRole::OutgoingQBlock2) {
                    proof {
                        lemma_response_prefix(self.slots@, token@, peer, i + 1);
                    }
                    return Some(i);
                }
            }
            i = i + 1;
        }
        assert(self.slots@.subrange(0, i as int) =~= self.slots@);
        None
    }

    /// Free every slot of this exchange that has one of two roles.
    pub fn release_all(&mut self, key: &BlockKey, one: BlockRole, other: BlockRole)
        requires
            old(self).wf(),
        ensures
            final(self).wf(),
            final(self).slot_bytes == old(self).slot_bytes,
            final(self).slots@.len() == old(self).slots@.len(),
            forall|i: int|
                0 <= i < old(self).slots@.len() ==> #[trigger] final(self).slots@[i] == if belongs(
                    old(self).slots@[i],
                    *key,
                    one,
                    other,
                ) {
                    None
                } else {
                    old(self).slots@[i]
                },
    {
        let ghost before = self.slots@;
        let mut i: usize = 0;
        while i < self.slots.len()
            invariant
                self.wf(),
                self.slot_bytes == old(self).slot_bytes,
                self.slots@.len() == before.len(),
                before == old(self).slots@,
                i <= before.len(),
                forall|k: int|
                    0 <= k < i ==> #[trigger] self.slots@[k] == if belongs(
                        before[k],
                        *key,
                        one,
                        other,
                    ) {
                        None
                    } else {
                        before[k]
                    },
                forall|k: int| i <= k < before.len() ==> #[trigger] self.slots@[k] == before[k],
            decreases before.len() - i,
        {
            let mine: bool = match &self.slots[i] {
                Some(slot) => slot.transfer.key.token.same(&key.token) && slot.transfer.key.peer
                    == key.peer && (slot.transfer.role == one || slot.transfer.role == other),
                None => false,
            };
            if mine {
                self.slots.set(i, None);
            }
            i = i + 1;
        }
    }
}

impl Engine {
    /// Take in a block of a request body.
    pub fn apply_block1(
        &mut self,
        key: BlockKey,
        block: BlockValue,
        payload: &[u8],
        size1: Option<u32>,
    ) -> (r: Result<BlockProgress, BlockTransferError>)
        requires
            old(self).wf(),
            block.valid(),
        ensures
            final(self).wf(),
            rx_bodies_changed(*old(self), *final(self)),
            old(self).store.bodies.is_none() ==> r == Err::<BlockProgress, BlockTransferError>(
                BlockTransferError::NoBodyPools,
            ),
            old(self).store.bodies matches Some(b) ==> accepts_ordered(
                b.rx,
                final(self).store.bodies->0.rx,
                BlockRole::IncomingBlock1,
                key,
                block,
                payload@,
                size1,
                r,
            ),
            final(self).metrics == if r.is_ok() {
                Metrics {
                    block1_assemble: inc(old(self).metrics.block1_assemble),
                    ..old(self).metrics
                }
            } else {
                old(self).metrics
            },
    {
        let r = match &mut self.store.bodies {
            Some(b) => b.rx.accept_ordered(BlockRole::IncomingBlock1, &key, block, payload, size1),
            None => Err(BlockTransferError::NoBodyPools),
        };
        if r.is_ok() {
            self.metrics.block1_assemble = Metrics::inc(self.metrics.block1_assemble);
        }
        r
    }

    /// Take in a block of a response body.
    pub fn apply_block2(
        &mut self,
        key: BlockKey,
        block: BlockValue,
        payload: &[u8],
        size2: Option<u32>,
    ) -> (r: Result<BlockProgress, BlockTransferError>)
        requires
            old(self).wf(),
            block.valid(),
        ensures
            final(self).wf(),
            rx_bodies_changed(*old(self), *final(self)),
            old(self).store.bodies.is_none() ==> r == Err::<BlockProgress, BlockTransferError>(
                BlockTransferError::NoBodyPools,
            ),
            old(self).store.bodies matches Some(b) ==> accepts_ordered(
                b.rx,
                final(self).store.bodies->0.rx,
                BlockRole::IncomingBlock2,
                key,
                block,
                payload@,
                size2,
                r,
            ),
            final(self).metrics == if r.is_ok() {
                Metrics {
                    block2_assemble: inc(old(self).metrics.block2_assemble),
                    ..old(self).metrics
                }
            } else {
                old(self).metrics
            },
    {
        let r = match &mut self.store.bodies {
            Some(b) => b.rx.accept_ordered(BlockRole::IncomingBlock2, &key, block, payload, size2),
            None => Err(BlockTransferError::NoBodyPools),
        };
        if r.is_ok() {
            self.metrics.block2_assemble = Metrics::inc(self.metrics.block2_assemble);
        }
        r
    }

    /// Take in a block of a request body that comes in windows.
    pub fn apply_q_block1(
        &mut self,
        key: BlockKey,
        block: BlockValue,
        payload: &[u8],
        size1: Option<u32>,
    ) -> (r: Result<BlockProgress, BlockTransferError>)
        requires
            old(self).wf(),
            block.valid(),
        ensures
            final(self).wf(),
            rx_bodies_changed(*old(self), *final(self)),
            old(self).store.bodies.is_none() ==> r == Err::<BlockProgress, BlockTransferError>(
                BlockTransferError::NoBodyPools,
            ),
            old(self).store.bodies matches Some(b) ==> accepts_windowed(
                b.rx,
                final(self).store.bodies->0.rx,
                BlockRole::IncomingQBlock1,
                key,
                block,
                payload@,
                size1,
                r,
            ),
            final(self).metrics == old(self).metrics,
    {
        match &mut self.store.bodies {
            Some(b) => b.rx.accept_windowed(
                BlockRole::IncomingQBlock1,
                &key,
                block,
                payload,
                size1,
            ),
            None => Err(BlockTransferError::NoBodyPools),
        }
    }

    /// Take in a block of a response body that comes in windows.
    pub fn apply_q_block2(
        &mut self,
        key: BlockKey,
        block: BlockValue,
        payload: &[u8],
        size2: Option<u32>,
    ) -> (r: Result<BlockProgress, BlockTransferError>)
        requires
            old(self).wf(),
            block.valid(),
        ensures
            final(self).wf(),
            rx_bodies_changed(*old(self), *final(self)),
            old(self).store.bodies.is_none() ==> r == Err::<BlockProgress, BlockTransferError>(
                BlockTransferError::NoBodyPools,
            ),
            old(self).store.bodies matches Some(b) ==> accepts_windowed(
                b.rx,
                final(self).store.bodies->0.rx,
                BlockRole::IncomingQBlock2,
                key,
                block,
                payload@,
                size2,
                r,
            ),
            final(self).metrics == old(self).metrics,
    {
        match &mut self.store.bodies {
            Some(b) => b.rx.accept_windowed(
                BlockRole::IncomingQBlock2,
                &key,
                block,
                payload,
                size2,
            ),
            None => Err(BlockTransferError::NoBodyPools),
        }
    }

    /// Start to send a body; it is cut into blocks of the given size.
    pub fn start_body(
        &mut self,
        role: BlockRole,
        key: BlockKey,
        payload: &[u8],
        szx: u8,
    ) -> (r: Result<SlotId, BlockTransferError>)
        requires
            old(self).wf(),
            szx <= 6,
            role.outgoing(),
        ensures
            final(self).wf(),
            tx_bodies_changed(*old(self), *final(self)),
            old(self).store.bodies.is_none() ==> r == Err::<SlotId, BlockTransferError>(
                BlockTransferError::NoBodyPools,
            ),
            old(self).store.bodies matches Some(b) ==> starts_body(
                b.tx,
                final(self).store.bodies->0.tx,
                role,
                key,
                payload@,
                szx,
                r,
            ),
    {
        match &mut self.store.bodies {
            Some(b) => b.tx.start(role, key, payload, szx),
            None => Err(BlockTransferError::NoBodyPools),
        }
    }

    /// Start to send a response body in windows.
    pub fn start_q_block2(&mut self, key: BlockKey, payload: &[u8], szx: u8) -> (r: Result<
        SlotId,
        BlockTransferError,
    >)
        requires
            old(self).wf(),
            szx <= 6,
        ensures
            final(self).wf(),
            tx_bodies_changed(*old(self), *final(self)),
            old(self).store.bodies.is_none() ==> r == Err::<SlotId, BlockTransferError>(
                BlockTransferError::NoBodyPools,
            ),
            old(self).store.bodies matches Some(b) ==> starts_body(
                b.tx,
                final(self).store.bodies->0.tx,
                BlockRole::OutgoingQBlock2,
                key,
                payload@,
                szx,
                r,
            ),
    {
        self.start_body(BlockRole::OutgoingQBlock2, key, payload, szx)
    }

    /// The next block of an outgoing body.
    pub fn next_block(&mut self, id: SlotId) -> (r: Result<OutgoingBlock, BlockTransferError>)
        requires
            old(self).wf(),
        ensures
            final(self).wf(),
            tx_bodies_changed(*old(self), *final(self)),
            old(self).store.bodies.is_none() ==> r == Err::<OutgoingBlock, BlockTransferError>(
                BlockTransferError::NoBodyPools,
            ),
            old(self).store.bodies matches Some(b) ==> issues_next(
                b.tx,
                final(self).store.bodies->0.tx,
                id,
                r,
            ),
    {
        match &mut self.store.bodies {
            Some(b) => b.tx.next(id),
            None => Err(BlockTransferError::NoBodyPools),
        }
    }

    /// Any block of an outgoing body.
    pub fn block_at(&self, id: SlotId, num: u32) -> (r: Result<OutgoingBlock, BlockTransferError>)
        requires
            self.wf(),
        ensures
            self.store.bodies.is_none() ==> r == Err::<OutgoingBlock, BlockTransferError>(
                BlockTransferError::NoBodyPools,
            ),
            self.store.bodies matches Some(b) ==> cuts_body(b.tx, id, num, r),
    {
        match &self.store.bodies {
            Some(b) => b.tx.cut(id, num),
            None => Err(BlockTransferError::NoBodyPools),
        }
    }

    /// The block of an outgoing body that a request names, in the size that it
    /// names.
    pub fn requested_block2(&self, id: SlotId, block: BlockValue) -> (r: Result<
        OutgoingBlock,
        BlockTransferError,
    >)
        requires
            self.wf(),
            block.valid(),
        ensures
            self.store.bodies.is_none() ==> r == Err::<OutgoingBlock, BlockTransferError>(
                BlockTransferError::NoBodyPools,
            ),
            self.store.bodies matches Some(b) ==> cuts_sized(
                b.tx,
                id,
                block.num,
                if block.szx <= 6 {
                    block.szx
                } else {
                    6
                },
                r,
            ),
    {
        let szx: u8 = if block.szx <= 6 {
            block.szx
        } else {
            6
        };
        match &self.store.bodies {
            Some(b) => b.tx.cut_sized(id, block.num, szx),
            None => Err(BlockTransferError::NoBodyPools),
        }
    }

    /// Move the window of an outgoing body forward.
    pub fn advance_window(&mut self, id: SlotId, base: u32) -> (r: Result<(), BlockTransferError>)
        requires
            old(self).wf(),
        ensures
            final(self).wf(),
            tx_bodies_changed(*old(self), *final(self)),
            old(self).store.bodies.is_none() ==> r == Err::<(), BlockTransferError>(
                BlockTransferError::NoBodyPools,
            ),
            old(self).store.bodies matches Some(b) ==> advances_window(
                b.tx,
                final(self).store.bodies->0.tx,
                id,
                base,
                r,
            ),
    {
        match &mut self.store.bodies {
            Some(b) => b.tx.advance(id, base),
            None => Err(BlockTransferError::NoBodyPools),
        }
    }

    /// The transfer in a slot for incoming bodies.
    pub open spec fn rx_transfer(&self, id: SlotId) -> Option<BlockTransfer> {
        match self.store.bodies {
            Some(b) => if id.at < b.rx.slots@.len() && b.rx.slots@[id.at as int].is_some() {
                Some(b.rx.slots@[id.at as int]->0.transfer)
            } else {
                None
            },
            None => None,
        }
    }

    /// The transfer in a slot for outgoing bodies.
    pub open spec fn tx_transfer(&self, id: SlotId) -> Option<BlockTransfer> {
        match self.store.bodies {
            Some(b) => if id.at < b.tx.slots@.len() && b.tx.slots@[id.at as int].is_some() {
                Some(b.tx.slots@[id.at as int]->0.transfer)
            } else {
                None
            },
            None => None,
        }
    }

    /// The bytes in a slot for incoming bodies.
    pub open spec fn rx_body(&self, id: SlotId) -> Seq<u8> {
        self.store.bodies->0.rx.slots@[id.at as int]->0.bytes@
    }

    /// The bytes in a slot for outgoing bodies.
    pub open spec fn tx_body(&self, id: SlotId) -> Seq<u8> {
        self.store.bodies->0.tx.slots@[id.at as int]->0.bytes@
    }

    /// The transfer in a slot for incoming bodies.
    pub fn rx_body_transfer(&self, id: SlotId) -> (r: Option<BlockTransfer>)
        ensures
            r == self.rx_transfer(id),
    {
        match &self.store.bodies {
            Some(b) => b.rx.transfer(id),
            None => None,
        }
    }

    /// The transfer in a slot for outgoing bodies.
    pub fn tx_body_transfer(&self, id: SlotId) -> (r: Option<BlockTransfer>)
        ensures
            r == self.tx_transfer(id),
    {
        match &self.store.bodies {
            Some(b) => b.tx.transfer(id),
            None => None,
        }
    }

    /// The bytes in a slot for incoming bodies.
    pub fn rx_body_payload(&self, id: SlotId) -> (r: Option<&[u8]>)
        ensures
            r.is_some() == self.rx_transfer(id).is_some(),
            r matches Some(b) ==> b@ == self.rx_body(id),
    {
        match &self.store.bodies {
            Some(b) => b.rx.payload(id),
            None => None,
        }
    }

    /// The bytes in a slot for outgoing bodies.
    pub fn tx_body_payload(&self, id: SlotId) -> (r: Option<&[u8]>)
        ensures
            r.is_some() == self.tx_transfer(id).is_some(),
            r matches Some(b) ==> b@ == self.tx_body(id),
    {
        match &self.store.bodies {
            Some(b) => b.tx.payload(id),
            None => None,
        }
    }

    /// Free a slot for incoming bodies, if it is taken.
    pub fn release_rx_body(&mut self, id: SlotId)
        requires
            old(self).wf(),
        ensures
            final(self).wf(),
            rx_bodies_changed(*old(self), *final(self)),
            final(self).metrics == old(self).metrics,
            old(self).rx_transfer(id).is_some() ==> final(self).store.bodies->0.rx.slots@ == old(
                self).store.bodies->0.rx.slots@.update(id.at as int, None),
            old(self).rx_transfer(id).is_none() ==> *final(self) == *old(self),
            final(self).rx_transfer(id).is_none(),
    {
        match &mut self.store.bodies {
            Some(b) => {
                let _ = b.rx.release(id);
            },
            None => {},
        }
    }

    /// Free a slot for outgoing bodies, if it is taken.
    pub fn release_tx_body(&mut self, id: SlotId)
        requires
            old(self).wf(),
        ensures
            final(self).wf(),
            tx_bodies_changed(*old(self), *final(self)),
            old(self).tx_transfer(id).is_some() ==> final(self).store.bodies->0.tx.slots@ == old(
                self).store.bodies->0.tx.slots@.update(id.at as int, None),
            old(self).tx_transfer(id).is_none() ==> *final(self) == *old(self),
            final(self).tx_transfer(id).is_none(),
    {
        match &mut self.store.bodies {
            Some(b) => {
                let _ = b.tx.release(id);
            },
            None => {},
        }
    }

    /// Free every incoming response body of an exchange.
    pub fn release_downloads(&mut self, key: &BlockKey)
        requires
            old(self).wf(),
        ensures
            final(self).wf(),
            rx_bodies_changed(*old(self), *final(self)),
            final(self).metrics == old(self).metrics,
            old(self).store.bodies matches Some(b) ==> forall|i: int|
                0 <= i < b.rx.slots@.len() ==> #[trigger] final(self).store.bodies->0.rx.slots@[i]
                    == if belongs(
                    b.rx.slots@[i],
                    *key,
                    BlockRole::IncomingBlock2,
                    BlockRole::IncomingQBlock2,
                ) {
                    None
                } else {
                    b.rx.slots@[i]
                },
    {
        match &mut self.store.bodies {
            Some(b) => b.rx.release_all(
                key,
                BlockRole::IncomingBlock2,
                BlockRole::IncomingQBlock2,
            ),
            None => {},
        }
    }

    /// Free every outgoing request body of an exchange.
    pub fn release_uploads(&mut self, key: &BlockKey)
        requires
            old(self).wf(),
        ensures
            final(self).wf(),
            tx_bodies_changed(*old(self), *final(self)),
            old(self).store.bodies matches Some(b) ==> forall|i: int|
                0 <= i < b.tx.slots@.len() ==> #[trigger] final(self).store.bodies->0.tx.slots@[i]
                    == if belongs(
                    b.tx.slots@[i],
                    *key,
                    BlockRole::OutgoingBlock1,
                    BlockRole::OutgoingQBlock1,
                ) {
                    None
                } else {
                    b.tx.slots@[i]
                },
    {
        match &mut self.store.bodies {
            Some(b) => b.tx.release_all(
                key,
                BlockRole::OutgoingBlock1,
                BlockRole::OutgoingQBlock1,
            ),
            None => {},
        }
    }

    /// The incoming body with this key.
    pub fn lookup_rx_body(&self, key: BlockKey) -> (r: Option<SlotId>)
        ensures
            match r {
                Some(id) => self.store.bodies.is_some() && first_keyed(
                    self.store.bodies->0.rx.slots@,
                    key@,
                    id.at as int,
                ),
                None => self.store.bodies matches Some(b) ==> none_keyed(b.rx.slots@, key@),
            },
    {
        match &self.store.bodies {
            Some(b) => b.rx.find_key(&key),
            None => None,
        }
    }

    /// The outgoing body with this key.
    pub fn lookup_tx_body(&self, key: BlockKey) -> (r: Option<SlotId>)
        ensures
            match r {
                Some(id) => self.store.bodies.is_some() && first_keyed(
                    self.store.bodies->0.tx.slots@,
                    key@,
                    id.at as int,
                ),
                None => self.store.bodies matches Some(b) ==> none_keyed(b.tx.slots@, key@),
            },
    {
        match &self.store.bodies {
            Some(b) => b.tx.find_key(&key),
            None => None,
        }
    }

    /// The outgoing body that a response to this exchange belongs to.
    pub fn response_body_for(&self, token: Token, peer: Endpoint) -> (r: Option<SlotId>)
        ensures
            match r {
                Some(id) => self.store.bodies.is_some() && response_body(
                    self.store.bodies->0.tx.slots@,
                    token@,
                    peer,
                ) == Some(id.at as int) && id.at < self.store.bodies->0.tx.slots@.len() && answers(
                    self.store.bodies->0.tx.slots@[id.at as int],
                    token@,
                    peer,
                ),
                None => self.store.bodies matches Some(b) ==> response_body(
                    b.tx.slots@,
                    token@,
                    peer,
                ).is_none(),
            },
    {
        match &self.store.bodies {
            Some(b) => match b.tx.find_response(&token, peer) {
                Some(at) => Some(SlotId { at }),
                None => None,
            },
            None => None,
        }
    }

    /// A block of a windowed body just came in.
    pub fn note_q_receive(&mut self, id: SlotId, now_ms: u64)
        requires
            old(self).wf(),
        ensures
            final(self).wf(),
            recovery_armed(*old(self), *final(self), id, now_ms),
    {
        match &mut self.store.bodies {
            Some(b) => b.rx.arm(id, now_ms),
            None => {},
        }
    }

    /// Advance the recovery of windowed bodies; see [`BodyPool::recover`].
    pub fn next_qblock_recovery(&mut self, now_ms: u64) -> (r: (
        Option<QBlockRecover>,
        Option<(BlockRole, BlockKey)>,
    ))
        requires
            old(self).wf(),
        ensures
            final(self).wf(),
            rx_bodies_changed(*old(self), *final(self)),
            final(self).metrics == old(self).metrics,
            r.0.is_some() ==> r.1.is_none(),
            r.0 matches Some(q) ==> q.szx <= 6 && forall|i: int|
                0 <= i < q.missing@.len() ==> (#[trigger] q.missing@[i]) < 0x100000,
            match old(self).store.bodies {
                None => r.0.is_none() && r.1.is_none(),
                Some(b) => recovers(
                    b.rx.slots@,
                    final(self).store.bodies->0.rx.slots@,
                    now_ms,
                    r.0,
                    r.1,
                ),
            },
    {
        match &mut self.store.bodies {
            Some(b) => {
                let ghost pool = b.rx;
                let r = b.rx.recover(now_ms);
                proof {
                    if r.0.is_some() {
                        let q = r.0->0;
                        let i = choose|i: int| #[trigger] first_over(pool.slots@, now_ms, i);
                        let k = choose|k: int| #[trigger]
                            first_over(pool.slots@, now_ms, k) && asks_again(
                                pool.slots@[k],
                                q,
                                now_ms,
                            );
                        assert(k == i) by {
                            assert(k < i ==> !wait_over(pool.slots@[k], now_ms));
                            assert(i < k ==> !wait_over(pool.slots@[i], now_ms));
                        }
                        let s = pool.slots@[i]->0;
                        assert(super::transfer::body_ok(s, pool.slot_bytes as int));
                        super::body::lemma_missing_bound(
                            s.transfer,
                            s.bytes@.len() as int,
                            crate::message::value::block_size(q.szx as int),
                            10,
                        );
                    }
                }
                r
            },
            None => (None, None),
        }
    }
}

/// A body will be asked for again after a while, unless more of it comes in.
pub open spec fn recovery_armed(a: Engine, b: Engine, id: SlotId, now_ms: u64) -> bool {
    match a.rx_transfer(id) {
        Some(t) => {
            &&& rx_bodies_changed(a, b)
            &&& b.metrics == a.metrics
            &&& b.rx_transfer(id) == Some(
                BlockTransfer { due_ms: Some(BodyPool::recover_at(now_ms)), attempts: 0, ..t },
            )
            &&& b.rx_body(id) == a.rx_body(id)
            &&& b.store.bodies->0.rx.slots@ == a.store.bodies->0.rx.slots@.update(
                id.at as int,
                b.store.bodies->0.rx.slots@[id.at as int],
            )
        },
        None => b == a,
    }
}

/// An incoming body, if one is named, is let go; nothing else changed.
pub open spec fn rx_body_dropped(a: Engine, b: Engine, id: Option<SlotId>) -> bool {
    if id.is_some() && a.rx_transfer(id->0).is_some() {
        &&& rx_bodies_changed(a, b)
        &&& b.metrics == a.metrics
        &&& b.store.bodies->0.rx.slots@ == a.store.bodies->0.rx.slots@.update(
            id->0.at as int,
            None,
        )
    } else {
        b == a
    }
}

/// Does a slot hold the body with this key?
pub open spec fn keyed(slot: Option<BodySlot>, key: BlockKeyView) -> bool {
    match slot {
        Some(s) => s.transfer.key@ == key,
        None => false,
    }
}

/// Is this the first slot with this key?
pub open spec fn first_keyed(slots: Seq<Option<BodySlot>>, key: BlockKeyView, at: int) -> bool {
    &&& 0 <= at < slots.len()
    &&& keyed(slots[at], key)
    &&& forall|k: int| 0 <= k < at ==> !keyed(#[trigger] slots[k], key)
}

/// Has no slot this key?
pub open spec fn none_keyed(slots: Seq<Option<BodySlot>>, key: BlockKeyView) -> bool {
    forall|k: int| 0 <= k < slots.len() ==> !keyed(#[trigger] slots[k], key)
}

impl BodyPool {
    /// The first slot with this key.
    pub fn find_key(&self, key: &BlockKey) -> (r: Option<SlotId>)
        ensures
            match r {
                Some(id) => first_keyed(self.slots@, key@, id.at as int),
                None => none_keyed(self.slots@, key@),
            },
    {
        let mut i: usize = 0;
        while i < self.slots.len()
            invariant
                i <= self.slots@.len(),
                forall|k: int| 0 <= k < i ==> !keyed(#[trigger] self.slots@[k], key@),
            decreases self.slots@.len() - i,
        {
            if let Some(slot) = &self.slots[i] {
                if slot.transfer.key.same(key) {
                    assert(keyed(self.slots@[i as int], key@));
                    return Some(SlotId { at: i });
                }
            }
            i = i + 1;
        }
        None
    }
}

} // verus!
