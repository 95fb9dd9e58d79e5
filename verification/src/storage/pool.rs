//! Datagram pools: a fixed number of slots, each free or holding a datagram.
use vstd::prelude::*;

use super::endpoint::{Endpoint, SlotId};
use super::table::{count_taken, empty_rows, first_free, free_row, taken_rows};
use crate::bytes::to_vec;
use crate::error::SlotError;

verus! {

/// An occupied slot.
pub struct DatagramSlot {
    /// Where the datagram came from or goes to.
    pub peer: Option<Endpoint>,
    /// The datagram.
    pub bytes: Vec<u8>,
    /// Is the slot kept from being taken up by the reactor?
    pub pinned: bool,
}

/// A fixed number of slots for datagrams.
pub struct DatagramPool {
    /// The longest datagram that a slot holds.
    pub slot_bytes: usize,
    /// The slots.
    pub slots: Vec<Option<DatagramSlot>>,
}

impl DatagramPool {
    /// Does every datagram fit its slot?
    pub open spec fn wf(&self) -> bool {
        forall|i: int|
            0 <= i < self.slots@.len() ==> ((#[trigger] self.slots@[i]) matches Some(s)
                ==> s.bytes@.len() <= self.slot_bytes)
    }

    /// Is the slot taken?
    pub open spec fn occupied(&self, id: SlotId) -> bool {
        id.at < self.slots@.len() && self.slots@[id.at as int].is_some()
    }

    /// The datagram in a slot.
    pub open spec fn datagram(&self, id: SlotId) -> Seq<u8> {
        self.slots@[id.at as int]->0.bytes@
    }

    /// `slots` free slots of `bytes` bytes each.
    pub fn new(slots: usize, bytes: usize) -> (p: DatagramPool)
        ensures
            p.wf(),
            p.slot_bytes == bytes,
            p.slots@.len() == slots,
            forall|i: int| 0 <= i < slots ==> (#[trigger] p.slots@[i]).is_none(),
    {
        DatagramPool { slot_bytes: bytes, slots: empty_rows(slots) }
    }

    /// How many slots there are.
    pub fn capacity(&self) -> (n: usize)
        ensures
            n == self.slots@.len(),
    {
        self.slots.len()
    }

    /// How many slots are taken.
    pub fn occupied_len(&self) -> (n: usize)
        ensures
            n == taken_rows(self.slots@),
    {
        count_taken(&self.slots)
    }

    /// Is every slot free?
    pub fn is_empty(&self) -> (b: bool)
        ensures
            b == (taken_rows(self.slots@) == 0),
    {
        count_taken(&self.slots) == 0
    }

    /// Take the first free slot; it holds no bytes yet.
    pub fn acquire(&mut self) -> (r: Option<SlotId>)
        requires
            old(self).wf(),
        ensures
            final(self).wf(),
            final(self).slot_bytes == old(self).slot_bytes,
            final(self).slots@.len() == old(self).slots@.len(),
            match r {
                Some(id) => {
                    &&& free_row(old(self).slots@) == Some(id.at as int)
                    &&& id.at < old(self).slots@.len()
                    &&& old(self).slots@[id.at as int].is_none()
                    &&& final(self).occupied(id)
                    &&& final(self).slots@ == old(self).slots@.update(
                        id.at as int,
                        final(self).slots@[id.at as int],
                    )
                    &&& final(self).datagram(id) == Seq::<u8>::empty()
                    &&& final(self).slots@[id.at as int]->0.peer.is_none()
                    &&& !final(self).slots@[id.at as int]->0.pinned
                },
                None => free_row(old(self).slots@).is_none() && *final(self) == *old(self),
            },
    {
        match first_free(&self.slots) {
            Some(at) => {
                let ghost before = self.slots@;
                self.slots.set(
                    at,
                    Some(DatagramSlot { peer: None, bytes: Vec::new(), pinned: false }),
                );
                assert(self.slots@ =~= before.update(at as int, self.slots@[at as int]));
                Some(SlotId { at })
            },
            None => None,
        }
    }

    /// Free a slot.
    pub fn release(&mut self, id: SlotId) -> (r: Result<(), SlotError>)
        requires
            old(self).wf(),
        ensures
            final(self).wf(),
            final(self).slot_bytes == old(self).slot_bytes,
            final(self).slots@.len() == old(self).slots@.len(),
            r == if id.at >= old(self).slots@.len() {
                Err::<(), SlotError>(SlotError::OutOfRange)
            } else if old(self).slots@[id.at as int].is_none() {
                Err(SlotError::NotOccupied)
            } else {
                Ok(())
            },
            r.is_ok() ==> final(self).slots@ == old(self).slots@.update(id.at as int, None),
            r.is_err() ==> *final(self) == *old(self),
    {
        if id.at >= self.slots.len() {
            return Err(SlotError::OutOfRange);
        }
        if self.slots[id.at].is_none() {
            return Err(SlotError::NotOccupied);
        }
        self.slots.set(id.at, None);
        Ok(())
    }

    /// Keep a slot from being taken up by the reactor.
    pub fn pin(&mut self, id: SlotId) -> (r: Result<(), SlotError>)
        requires
            old(self).wf(),
        ensures
            final(self).wf(),
            final(self).slot_bytes == old(self).slot_bytes,
            final(self).slots@.len() == old(self).slots@.len(),
            r == if id.at >= old(self).slots@.len() {
                Err::<(), SlotError>(SlotError::OutOfRange)
            } else if old(self).slots@[id.at as int].is_none() {
                Err(SlotError::NotOccupied)
            } else {
                Ok(())
            },
            r.is_ok() ==> final(self).slots@ == old(self).slots@.update(
                id.at as int,
                Some(DatagramSlot { pinned: true, ..old(self).slots@[id.at as int]->0 }),
            ),
            r.is_err() ==> *final(self) == *old(self),
    {
        if id.at >= self.slots.len() {
            return Err(SlotError::OutOfRange);
        }
        if self.slots[id.at].is_none() {
            return Err(SlotError::NotOccupied);
        }
        let ghost before = self.slots@;
        if let Some(slot) = self.slots[id.at].take() {
            let next = DatagramSlot { peer: slot.peer, bytes: slot.bytes, pinned: true };
            self.slots.set(id.at, Some(next));
            assert(self.slots@ =~= before.update(id.at as int, Some(next)));
        }
        Ok(())
    }

    /// Set where the datagram in a slot goes.
    pub fn set_peer(&mut self, id: SlotId, peer: Endpoint) -> (r: Result<(), SlotError>)
        requires
            old(self).wf(),
        ensures
            final(self).wf(),
            final(self).slot_bytes == old(self).slot_bytes,
            final(self).slots@.len() == old(self).slots@.len(),
            r == if id.at >= old(self).slots@.len() {
                Err::<(), SlotError>(SlotError::OutOfRange)
            } else if old(self).slots@[id.at as int].is_none() {
                Err(SlotError::NotOccupied)
            } else {
                Ok(())
            },
            r.is_ok() ==> final(self).slots@ == old(self).slots@.update(
                id.at as int,
                Some(DatagramSlot { peer: Some(peer), ..old(self).slots@[id.at as int]->0 }),
            ),
            r.is_err() ==> *final(self) == *old(self),
    {
        if id.at >= self.slots.len() {
            return Err(SlotError::OutOfRange);
        }
        if self.slots[id.at].is_none() {
            return Err(SlotError::NotOccupied);
        }
        let ghost before = self.slots@;
        if let Some(slot) = self.slots[id.at].take() {
            let next = DatagramSlot { peer: Some(peer), bytes: slot.bytes, pinned: slot.pinned };
            self.slots.set(id.at, Some(next));
            assert(self.slots@ =~= before.update(id.at as int, Some(next)));
        }
        Ok(())
    }

    /// Put a datagram for or from a peer into an occupied slot.
    pub fn fill(&mut self, id: SlotId, bytes: &[u8], peer: Endpoint) -> (r: Result<(), SlotError>)
        requires
            old(self).wf(),
        ensures
            final(self).wf(),
            final(self).slot_bytes == old(self).slot_bytes,
            final(self).slots@.len() == old(self).slots@.len(),
            r == if id.at >= old(self).slots@.len() {
                Err::<(), SlotError>(SlotError::OutOfRange)
            } else if old(self).slots@[id.at as int].is_none() {
                Err(SlotError::NotOccupied)
            } else if bytes@.len() > old(self).slot_bytes {
                Err(SlotError::LengthExceedsSlot)
            } else {
                Ok(())
            },
            r.is_ok() ==> {
                &&& final(self).occupied(id)
                &&& final(self).datagram(id) == bytes@
                &&& final(self).slots@[id.at as int]->0.peer == Some(peer)
                &&& final(self).slots@[id.at as int]->0.pinned == old(self).slots@[
                    id.at as int
                ]->0.pinned
                &&& final(self).slots@ == old(self).slots@.update(
                    id.at as int,
                    final(self).slots@[id.at as int],
                )
            },
            r.is_err() ==> *final(self) == *old(self),
    {
        if id.at >= self.slots.len() {
            return Err(SlotError::OutOfRange);
        }
        let pinned: bool = match &self.slots[id.at] {
            Some(slot) => slot.pinned,
            None => return Err(SlotError::NotOccupied),
        };
        if bytes.len() > self.slot_bytes {
            return Err(SlotError::LengthExceedsSlot);
        }
        let ghost before = self.slots@;
        let next = DatagramSlot { peer: Some(peer), bytes: to_vec(bytes), pinned };
        self.slots.set(id.at, Some(next));
        assert(self.slots@ =~= before.update(id.at as int, self.slots@[id.at as int]));
        Ok(())
    }

    /// The datagram in a slot.
    pub fn bytes(&self, id: SlotId) -> (r: Result<&[u8], SlotError>)
        ensures
            r.is_ok() == self.occupied(id),
            r matches Ok(b) ==> b@ == self.datagram(id),
            r matches Err(e) ==> e == if id.at >= self.slots@.len() {
                SlotError::OutOfRange
            } else {
                SlotError::NotOccupied
            },
    {
        if id.at >= self.slots.len() {
            return Err(SlotError::OutOfRange);
        }
        match &self.slots[id.at] {
            Some(slot) => Ok(slot.bytes.as_slice()),
            None => Err(SlotError::NotOccupied),
        }
    }

    /// The peer of a slot.
    pub fn peer(&self, id: SlotId) -> (r: Option<Endpoint>)
        ensures
            r == if self.occupied(id) {
                self.slots@[id.at as int]->0.peer
            } else {
                None
            },
    {
        if id.at >= self.slots.len() {
            return None;
        }
        match &self.slots[id.at] {
            Some(slot) => slot.peer,
            None => None,
        }
    }

    /// The first occupied slot that is not pinned.
    pub open spec fn ready_slot(slots: Seq<Option<DatagramSlot>>) -> Option<int>
        decreases slots.len(),
    {
        if slots.len() == 0 {
            None
        } else {
            match DatagramPool::ready_slot(slots.drop_last()) {
                Some(i) => Some(i),
                None => match slots.last() {
                    Some(s) => if !s.pinned {
                        Some(slots.len() - 1)
                    } else {
                        None
                    },
                    None => None,
                },
            }
        }
    }

    /// The first occupied slot that is not pinned.
    pub fn ready(&self) -> (r: Option<SlotId>)
        ensures
            match r {
                Some(id) => DatagramPool::ready_slot(self.slots@) == Some(id.at as int)
                    && self.occupied(id),
                None => DatagramPool::ready_slot(self.slots@).is_none(),
            },
    {
        let mut i: usize = 0;
        while i < self.slots.len()
            invariant
                i <= self.slots@.len(),
                DatagramPool::ready_slot(self.slots@.subrange(0, i as int)).is_none(),
            decreases self.slots@.len() - i,
        {
            let ghost next = self.slots@.subrange(0, i + 1);
            assert(next.drop_last() =~= self.slots@.subrange(0, i as int));
            assert(next.last() == self.slots@[i as int]);
            if let Some(slot) = &self.slots[i] {
                if !slot.pinned {
                    proof {
                        lemma_ready_prefix(self.slots@, i + 1);
                    }
                    return Some(SlotId { at: i });
                }
            }
            i = i + 1;
        }
        assert(self.slots@.subrange(0, i as int) =~= self.slots@);
        None
    }
}

proof fn lemma_ready_prefix(slots: Seq<Option<DatagramSlot>>, n: int)
    requires
        0 <= n <= slots.len(),
        DatagramPool::ready_slot(slots.subrange(0, n)).is_some(),
    ensures
        DatagramPool::ready_slot(slots) == DatagramPool::ready_slot(slots.subrange(0, n)),
    decreases slots.len(),
{
    if n == slots.len() {
        assert(slots.subrange(0, n) =~= slots);
    } else {
        assert(slots.drop_last().subrange(0, n) =~= slots.subrange(0, n));
        lemma_ready_prefix(slots.drop_last(), n);
    }
}

} // verus!
