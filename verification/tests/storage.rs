//! Building engines, slots, tables, and bodies in blocks.
use coaptic::error::{BlockTransferError, SlotError, ValueError};
use coaptic::message::{BlockValue, MessageId, Token};
use coaptic::profiles;
use coaptic::storage::{
    BlockKey, BlockRole, BodyTag, Capacities, Confirm, DatagramIo, DatagramIoError, DatagramPool, Endpoint,
    Engine, EngineBuilder, Memory, Missing, Port, Present, SlotId,
};
use coaptic::BuildError;

fn peer() -> Endpoint {
    Endpoint::v4([192, 0, 2, 1], 5683)
}

fn sizes() -> Capacities {
    Capacities {
        rx_datagram_slots: 2,
        rx_datagram_bytes: 256,
        tx_datagram_slots: 2,
        tx_datagram_bytes: 256,
        dedup_entries: 2,
        observe_entries: 2,
        rx_body_slots: None,
        rx_body_bytes: None,
        tx_body_slots: None,
        tx_body_bytes: None,
    }
}

fn with_bodies(slots: usize, bytes: usize) -> Capacities {
    Capacities {
        rx_body_slots: Some(slots),
        rx_body_bytes: Some(bytes),
        tx_body_slots: Some(slots),
        tx_body_bytes: Some(bytes),
        ..sizes()
    }
}

fn builder() -> EngineBuilder<Present, Present, Present, Present, Missing> {
    EngineBuilder::new().rx_datagram(2, 256).tx_datagram(2, 256).dedup(2).observe(2)
}

fn fault(block_wise: bool, c: Capacities) -> Option<BuildError> {
    builder().block_wise(block_wise).build_alloc(c).err()
}

fn engine() -> Engine {
    builder().block_wise(true).build_alloc(with_bodies(1, 1024)).ok().unwrap()
}

fn key(tag: &[u8]) -> BlockKey {
    BlockKey::new(Token::new(b"tk").unwrap(), peer()).with_identity(BodyTag::new(tag).unwrap())
}

fn block(num: u32, more: bool) -> BlockValue {
    BlockValue::new(num, more, 0).unwrap()
}

#[test]
fn every_build_error_has_an_input() {
    assert_eq!(fault(false, sizes()), None);
    assert_eq!(fault(true, with_bodies(1, 1024)), None);
    assert_eq!(
        fault(false, Capacities { dedup_entries: 3, ..sizes() }),
        Some(BuildError::SizeMismatch)
    );
    assert_eq!(
        fault(true, with_bodies(1, 1000)),
        Some(BuildError::BodyBytesNotMultipleOf1024)
    );
    assert_eq!(fault(false, with_bodies(1, 1024)), Some(BuildError::UnexpectedBodyPools));
    assert_eq!(fault(true, sizes()), Some(BuildError::MissingBodyPools));
    assert_eq!(fault(true, with_bodies(0, 1024)), Some(BuildError::ZeroBodyCapacity));
    assert_eq!(
        fault(true, Capacities { rx_body_slots: Some(1), ..sizes() }),
        Some(BuildError::IncompleteBodyCapacities)
    );
}

#[test]
fn bodies_of_other_sizes_than_told_are_refused() {
    let told = builder().rx_body(2, 1024).tx_body(1, 1024).block_wise(true);
    assert_eq!(told.build_alloc(with_bodies(1, 1024)).err(), Some(BuildError::SizeMismatch));
    let none = builder().rx_body(0, 1024).block_wise(true);
    assert_eq!(none.build_alloc(with_bodies(1, 1024)).err(), Some(BuildError::ZeroBodyCapacity));
    let odd = builder().tx_body(1, 1000).block_wise(true);
    assert_eq!(
        odd.build_alloc(with_bodies(1, 1024)).err(),
        Some(BuildError::BodyBytesNotMultipleOf1024)
    );
}

#[test]
fn memory_of_a_profile_fits_its_profile() {
    let e = EngineBuilder::new()
        .profile::<profiles::Constrained>()
        .block_wise(false)
        .build(Memory::<profiles::Constrained>::new())
        .ok()
        .unwrap();
    assert!(!e.has_body_pools());
    assert_eq!((e.rx_occupied(), e.tx_occupied()), (0, 0));
    let e = EngineBuilder::new()
        .profile::<profiles::Default>()
        .block_wise(true)
        .build(Memory::<profiles::Default>::with_block_wise())
        .ok()
        .unwrap();
    assert!(e.has_body_pools());
    let wrong = EngineBuilder::new()
        .profile::<profiles::Default>()
        .block_wise(false)
        .build(Memory::<profiles::Constrained>::new());
    assert_eq!(wrong.err(), Some(BuildError::SizeMismatch));
}

#[test]
fn every_slot_error_has_an_input() {
    let mut p = DatagramPool::new(1, 4);
    let out = SlotId::from_index(1);
    assert_eq!(p.release(out), Err(SlotError::OutOfRange));
    let id = SlotId::from_index(0);
    assert_eq!(p.release(id), Err(SlotError::NotOccupied));
    assert_eq!(p.acquire(), Some(id));
    assert_eq!(p.acquire(), None);
    assert_eq!(p.fill(id, b"12345", peer()), Err(SlotError::LengthExceedsSlot));
    assert_eq!(p.fill(id, b"1234", peer()), Ok(()));
    assert_eq!(p.bytes(id), Ok(&b"1234"[..]));
    assert_eq!(p.peer(id), Some(peer()));
    assert_eq!(p.release(id), Ok(()));
    assert!(p.is_empty());
}

#[test]
fn blocks_in_order_make_the_body() {
    let mut e = engine();
    let k = key(b"a");
    let first = e.apply_block1(k, block(0, true), &[1; 16], Some(20)).unwrap();
    assert!(!first.complete());
    let last = e.apply_block1(k, block(1, false), &[2; 4], None).unwrap();
    assert!(last.complete());
    assert_eq!(last.id(), first.id());
    let mut whole = vec![1u8; 16];
    whole.extend_from_slice(&[2; 4]);
    assert_eq!(e.rx_body_payload(last.id()), Some(&whole[..]));
    assert_eq!(e.metrics().block1_assemble, 2);
    e.release_rx_body(last.id());
    assert_eq!(e.rx_body_payload(last.id()), None);
}

#[test]
fn every_fault_of_an_ordered_block_has_an_input() {
    let mut plain = builder().block_wise(false).build_alloc(sizes()).ok().unwrap();
    let k = key(b"a");
    assert_eq!(
        plain.apply_block1(k, block(0, true), &[0; 16], None).err(),
        Some(BlockTransferError::NoBodyPools)
    );
    let mut e = engine();
    let mut apply = |b: BlockValue, bytes: &[u8], size: Option<u32>| {
        e.apply_block1(k, b, bytes, size).map(|p| p.complete())
    };
    assert_eq!(apply(block(1, true), &[0; 16], None), Err(BlockTransferError::Gap));
    assert_eq!(apply(block(0, true), &[0; 15], None), Err(BlockTransferError::PayloadLength));
    assert_eq!(
        apply(BlockValue::new(0, false, 7).unwrap(), &[0; 16], None),
        Err(BlockTransferError::Value(ValueError::IllegalSzx))
    );
    assert_eq!(
        apply(block(0, false), &[0; 16], Some(17)),
        Err(BlockTransferError::LengthInconsistent)
    );
    assert_eq!(apply(block(0, true), &[0; 16], None), Ok(false));
    assert_eq!(apply(block(0, true), &[0; 16], None), Err(BlockTransferError::Overlap));
    assert_eq!(
        apply(BlockValue::new(1, true, 1).unwrap(), &[0; 32], None),
        Err(BlockTransferError::SzxMismatch)
    );
    for n in 1..64 {
        assert_eq!(apply(block(n, true), &[0; 16], None), Ok(false));
    }
    assert_eq!(apply(block(64, false), &[0; 1], None), Err(BlockTransferError::Overflow));
    assert_eq!(apply(block(64, false), &[], None), Ok(true));
    assert_eq!(apply(block(65, false), &[], None), Err(BlockTransferError::AlreadyComplete));
    assert_eq!(
        e.apply_block1(key(b"b"), block(0, true), &[0; 16], None).err(),
        Some(BlockTransferError::Saturated)
    );
}

#[test]
fn blocks_of_a_window_come_in_any_order() {
    let mut e = engine();
    let k = key(b"a");
    let body: Vec<u8> = (0..170).map(|i| i as u8).collect();
    let size = Some(body.len() as u32);
    let piece = |n: usize| &body[n * 16..(n * 16 + 16).min(body.len())];
    for n in (0..10).rev() {
        let p = e.apply_q_block1(k, block(n as u32, true), piece(n), size).unwrap();
        assert!(!p.complete());
    }
    let p = e.apply_q_block1(k, block(10, false), piece(10), size).unwrap();
    assert!(p.complete());
    assert_eq!(e.rx_body_payload(p.id()), Some(&body[..]));
}

#[test]
fn every_fault_of_a_windowed_block_has_an_input() {
    let mut e = engine();
    let k = key(b"a");
    let mut apply = |b: BlockValue, bytes: &[u8], size: Option<u32>| {
        e.apply_q_block1(k, b, bytes, size).map(|p| p.complete())
    };
    assert_eq!(
        apply(block(0, true), &[0; 16], None),
        Err(BlockTransferError::LengthInconsistent)
    );
    assert_eq!(apply(block(0, true), &[0; 16], Some(1025)), Err(BlockTransferError::Overflow));
    assert_eq!(
        apply(block(10, true), &[0; 16], Some(1024)),
        Err(BlockTransferError::OutsideWindow)
    );
    assert_eq!(apply(block(0, true), &[0; 16], Some(40)), Ok(false));
    assert_eq!(apply(block(0, true), &[0; 16], Some(40)), Err(BlockTransferError::Duplicate));
    assert_eq!(
        apply(block(1, true), &[0; 16], Some(41)),
        Err(BlockTransferError::LengthInconsistent)
    );
    assert_eq!(apply(block(1, true), &[0; 3], Some(40)), Err(BlockTransferError::PayloadLength));
    assert_eq!(
        apply(BlockValue::new(1, true, 1).unwrap(), &[0; 32], Some(40)),
        Err(BlockTransferError::SzxMismatch)
    );
    assert_eq!(apply(block(2, false), &[0; 8], Some(40)), Ok(false));
    assert_eq!(apply(block(1, true), &[0; 16], Some(40)), Ok(true));
    assert_eq!(apply(block(1, true), &[0; 16], Some(40)), Err(BlockTransferError::AlreadyComplete));
}

#[test]
fn a_body_is_cut_into_blocks() {
    let mut e = engine();
    let body: Vec<u8> = (0..40).collect();
    let id = e.start_body(BlockRole::OutgoingBlock2, key(b"a"), &body, 0).unwrap();
    assert_eq!(
        e.start_body(BlockRole::OutgoingBlock2, key(b"b"), &body, 0).err(),
        Some(BlockTransferError::Saturated)
    );
    let mut more = Vec::new();
    for n in 0..3u32 {
        let b = e.next_block(id).unwrap();
        assert_eq!(b.block.num(), n);
        more.push(b.block.more());
    }
    assert_eq!(more, [true, true, false]);
    assert_eq!(e.next_block(id).err(), Some(BlockTransferError::AlreadyComplete));
    assert_eq!(e.block_at(id, 1).unwrap().block.num(), 1);
    assert_eq!(e.block_at(id, 3).err(), Some(BlockTransferError::Gap));
    assert_eq!(e.tx_body_payload(id), Some(&body[..]));
    e.release_tx_body(id);
    assert_eq!(e.next_block(id).err(), Some(BlockTransferError::NoTransfer));
    assert_eq!(
        e.start_body(BlockRole::OutgoingBlock2, key(b"a"), &[0; 1025], 0).err(),
        Some(BlockTransferError::Overflow)
    );
}

#[test]
fn a_window_goes_no_further_than_allowed() {
    let mut e = engine();
    let id = e.start_q_block2(key(b"a"), &[7; 200], 0).unwrap();
    for _ in 0..10 {
        assert!(e.next_block(id).unwrap().block.more());
    }
    assert_eq!(e.next_block(id).err(), Some(BlockTransferError::OutsideWindow));
    assert_eq!(e.advance_window(id, 11).err(), Some(BlockTransferError::OutsideWindow));
    assert_eq!(e.advance_window(id, 10), Ok(()));
    assert_eq!(e.next_block(id).unwrap().block.num(), 10);
}

struct Short(Result<usize, ()>, Option<usize>);

impl DatagramIo for Short {
    type Error = ();

    fn recv(&mut self, _: &mut [u8]) -> Result<Option<(usize, Endpoint)>, ()> {
        match self.1 {
            Some(n) => Ok(Some((n, peer()))),
            None => Err(()),
        }
    }

    fn send(&mut self, _: Endpoint, _: &[u8]) -> Result<usize, ()> {
        self.0
    }
}

#[test]
fn every_transport_error_has_an_input() {
    assert_eq!(Port::new(Short(Ok(2), None)).send(peer(), b"ab"), Ok(()));
    assert_eq!(
        Port::new(Short(Ok(1), None)).send(peer(), b"ab"),
        Err(DatagramIoError::ShortSend)
    );
    assert_eq!(
        Port::new(Short(Err(()), None)).send(peer(), b"ab"),
        Err(DatagramIoError::Transport(()))
    );
    assert_eq!(
        Port::new(Short(Ok(0), Some(5))).recv(4).err(),
        Some(DatagramIoError::Slot(SlotError::LengthExceedsSlot))
    );
    let mut e = builder().block_wise(false).build_alloc(sizes()).ok().unwrap();
    let mut port = Port::new(Short(Ok(1), Some(1)));
    assert!(e.recv_from(&mut port).is_ok());
    assert!(e.recv_from(&mut port).is_ok());
    assert_eq!(e.recv_from(&mut port).err(), Some(DatagramIoError::Saturated));
    assert_eq!(
        e.send_tx(&mut port, SlotId::from_index(0)).err(),
        Some(DatagramIoError::Slot(SlotError::NotOccupied))
    );
    let id = e.acquire_tx().unwrap();
    assert_eq!(e.send_tx(&mut port, id).err(), Some(DatagramIoError::NoEndpoint));
}

#[test]
fn a_message_waits_until_it_is_settled() {
    let mut e = builder().block_wise(false).build_alloc(sizes()).ok().unwrap();
    let id = e.acquire_tx().unwrap();
    let mid = MessageId::new(7);
    let confirm = Confirm { mid, now_ms: 100, jitter: 0 };
    assert!(e.record_pending_con(id, peer(), confirm));
    assert_eq!(e.find_outstanding(peer()), Some(id.index()));
    assert_eq!(e.lookup_pending_con(mid, peer()), Some(id));
    assert!(e.poll_retransmit(2099).is_none());
    for at in [2100u64, 6100, 14100, 30100] {
        assert!(e.poll_retransmit(at).is_some());
        assert!(e.pending_con(id).is_some());
    }
    assert!(e.poll_retransmit(62099).is_none());
    assert!(e.poll_retransmit(62100).is_some());
    assert!(e.pending_con(id).is_none());
    assert!(!e.settle_con(mid, peer()));
}
