//! What timers, windows and bodies do, in numbers.
use super::body::{missing_of, overlay, windowed_after};
use super::endpoint::{BlockKey, BlockKeyView, Endpoint, SlotId};
use super::builder::{build_fault, Expected};
use super::capacities::Capacities;
use super::engine::{
    con_settled, first_due, first_sent, later, outstanding, resent, sent_metrics, unwaited, Engine,
};
use super::io::{received, send_fault, DatagramIoError};
use super::memory::MemoryProfile;
use super::metrics::{inc, Metrics};
use super::observe::{first_notify_due, notify_blocked, notify_due, observer_rejected};
use super::pool::{DatagramPool, DatagramSlot};
use super::rows::{DedupEntry, ExchangeEntry, ObserveInterest, PendingCon};
use super::table::{find_row, free_row, place_row, Keyed};
use super::transfer::{
    agreed_total, all_in, block_count, cuts, find_body, in_body, windowed_next, windowed_verdict,
    BlockRole, BlockTransfer, BodyPool, BodySlot, OutgoingBlock, Window,
};
use crate::error::{BlockTransferError, BuildError};
use crate::message::value::block_size;
use crate::message::{BlockValue, MessageId, Type};
use vstd::prelude::*;

verus! {

/// A confirmable message that went out is due again after 2 seconds and the jitter, which
/// counts up to 1 second, and was not sent again yet.
pub proof fn law_first_timeout(
    tx: SlotId,
    peer: Endpoint,
    mid: MessageId,
    now_ms: u64,
    jitter: u32,
)
    requires
        now_ms <= 0x1_0000_0000_0000,
    ensures
        ({
            let p = first_sent(tx, peer, mid, now_ms, jitter);
            &&& p.tx == tx && p.mid == mid && p.peer == peer
            &&& p.retries == 0
            &&& p.due_ms == now_ms + p.timeout_ms
            &&& 2000 <= p.timeout_ms <= 3000
            &&& jitter <= 1000 ==> p.timeout_ms == 2000 + jitter
        }),
{
}

/// Each time a message is sent again its timeout doubles, and it is due again that much
/// later; what is sent, and to whom, stays the same.
pub proof fn law_timeout_doubles(p: PendingCon, now_ms: u64)
    requires
        now_ms <= 0x1_0000_0000_0000,
        p.timeout_ms <= 0x7fff_ffff,
        p.retries < 255,
    ensures
        resent(p, now_ms).timeout_ms == 2 * p.timeout_ms,
        resent(p, now_ms).due_ms == now_ms + 2 * p.timeout_ms,
        resent(p, now_ms).retries == p.retries + 1,
        resent(p, now_ms).tx == p.tx,
        resent(p, now_ms).mid == p.mid,
        resent(p, now_ms).peer == p.peer,
{
}

/// A time that is later by so many milliseconds; the largest time stays the largest.
pub proof fn law_later(now_ms: u64, ms: int)
    requires
        0 <= ms,
    ensures
        now_ms + ms <= u64::MAX ==> later(now_ms, ms) == now_ms + ms,
        now_ms + ms > u64::MAX ==> later(now_ms, ms) == u64::MAX,
        later(now_ms, ms) >= now_ms,
{
}

/// The message that is sent again is the first one whose time has come.
pub proof fn law_first_due(pending: Seq<Option<PendingCon>>, now_ms: u64)
    ensures
        first_due(pending, now_ms) matches Some(i) ==> 0 <= i < pending.len()
            && pending[i].is_some() && pending[i]->0.due_ms <= now_ms && forall|j: int|
            0 <= j < i ==> ((#[trigger] pending[j]) matches Some(p) ==> p.due_ms > now_ms),
        first_due(pending, now_ms).is_none() ==> forall|j: int|
            0 <= j < pending.len() ==> ((#[trigger] pending[j]) matches Some(p) ==> p.due_ms
                > now_ms),
    decreases pending.len(),
{
    if pending.len() > 0 {
        let front = pending.drop_last();
        law_first_due(front, now_ms);
        assert forall|j: int| 0 <= j < front.len() implies #[trigger] pending[j] == front[j] by {}
    }
}

/// What is outstanding at a peer is the message to it that waits, if there is one.
pub proof fn law_outstanding(pending: Seq<Option<PendingCon>>, peer: Endpoint)
    ensures
        outstanding(pending, peer) matches Some(i) ==> 0 <= i < pending.len()
            && pending[i].is_some() && pending[i]->0.peer == peer,
        outstanding(pending, peer).is_none() ==> forall|j: int|
            0 <= j < pending.len() ==> ((#[trigger] pending[j]) matches Some(p) ==> p.peer != peer),
    decreases pending.len(),
{
    if pending.len() > 0 {
        let front = pending.drop_last();
        law_outstanding(front, peer);
        assert forall|j: int| 0 <= j < front.len() implies #[trigger] pending[j] == front[j] by {}
    }
}

/// An acknowledgement ends the wait of the message with its identifier to its sender, and
/// of no other.
pub proof fn law_acknowledgement_settles(
    pending: Seq<Option<PendingCon>>,
    mid: MessageId,
    peer: Endpoint,
    i: int,
)
    requires
        0 <= i < pending.len(),
    ensures
        unwaited(pending, mid, peer).len() == pending.len(),
        (pending[i] matches Some(p) && p.mid == mid && p.peer == peer) ==> unwaited(
            pending,
            mid,
            peer,
        )[i].is_none(),
        !(pending[i] matches Some(p) && p.mid == mid && p.peer == peer) ==> unwaited(
            pending,
            mid,
            peer,
        )[i] == pending[i],
{
}

/// The observer that is notified next is the first one with a notification due.
pub proof fn law_first_notify_due(rows: Seq<Option<ObserveInterest>>, now_ms: u64)
    ensures
        first_notify_due(rows, now_ms) matches Some(i) ==> 0 <= i < rows.len() && notify_due(
            rows[i],
            now_ms,
        ) && forall|j: int| 0 <= j < i ==> !notify_due(#[trigger] rows[j], now_ms),
        first_notify_due(rows, now_ms).is_none() ==> forall|j: int|
            0 <= j < rows.len() ==> !notify_due(#[trigger] rows[j], now_ms),
    decreases rows.len(),
{
    if rows.len() > 0 {
        let front = rows.drop_last();
        law_first_notify_due(front, now_ms);
        assert forall|j: int| 0 <= j < front.len() implies #[trigger] rows[j] == front[j] by {}
    }
}

/// A response answers a request if it is an acknowledgement with the request's identifier,
/// or a message of its own; a reset does not.
pub proof fn law_response_types(e: ExchangeEntry, mid: u16)
    ensures
        e.answered_by(Type::Confirmable, mid),
        e.answered_by(Type::NonConfirmable, mid),
        e.answered_by(Type::Acknowledgement, mid) <==> mid == e.mid.raw,
        !e.answered_by(Type::Reset, mid),
{
}

/// What is kept of an answered request expires when its time has come; without a time it
/// stays.
pub proof fn law_answer_expires(d: DedupEntry, now_ms: u64)
    ensures
        d.due_ms == 0 ==> !d.expired(now_ms),
        d.due_ms > 0 ==> (d.expired(now_ms) <==> now_ms >= d.due_ms),
{
}

/// A row is looked up by its key: the first with that key, or none if no row has it. A new
/// row takes the place of the one with its key, else the first free one.
pub proof fn law_row_place<T: Keyed>(rows: Seq<Option<T>>, key: super::endpoint::KeyView)
    ensures
        find_row(rows, key) matches Some(i) ==> 0 <= i < rows.len() && (rows[i] matches Some(r)
            && r.row_key() == key) && place_row(rows, key) == Some(i),
        find_row(rows, key).is_none() ==> (forall|k: int|
            0 <= k < rows.len() ==> ((#[trigger] rows[k]) matches Some(r) ==> r.row_key() != key))
            && place_row(rows, key) == free_row(rows),
        free_row(rows) matches Some(i) ==> 0 <= i < rows.len() && rows[i].is_none()
            && forall|k: int| 0 <= k < i ==> (#[trigger] rows[k]).is_some(),
        free_row(rows).is_none() ==> forall|k: int|
            0 <= k < rows.len() ==> (#[trigger] rows[k]).is_some(),
{
    super::table::lemma_find_row(rows, key);
    super::table::lemma_free_row(rows);
}

/// A window of ten blocks: none is in at first; one that is marked is in, and the others
/// are as they were; it is full when all ten are in.
pub proof fn law_window(w: Window, i: int, j: int)
    requires
        0 <= i < 10,
        0 <= j < 10,
    ensures
        !Window::none().has(i),
        w.with(i).has(j) <==> i == j || w.has(j),
        w.full() <==> forall|k: int| 0 <= k < 10 ==> #[trigger] w.has(k),
{
    if forall|k: int| 0 <= k < 10 ==> #[trigger] w.has(k) {
        assert(w.has(0) && w.has(1) && w.has(2) && w.has(3) && w.has(4) && w.has(5) && w.has(6)
            && w.has(7) && w.has(8) && w.has(9));
    }
}

/// Taking in a block of the current window adds that block to those that are in, and no
/// other; when the window is full the next ten blocks are waited for.
pub proof fn law_block_taken(t: BlockTransfer, num: u32, k: int)
    requires
        t.window_base <= num < t.window_base + 10,
        t.window_base <= 0x10000a,
        0 <= k,
    ensures
        windowed_next(t, num).has(k) <==> k == num || t.has(k),
        windowed_next(t, num).szx == t.szx,
        windowed_next(t, num).total == t.total,
        windowed_next(t, num).key == t.key,
        windowed_next(t, num).role == t.role,
        windowed_next(t, num).window_base == t.window_base || (windowed_next(t, num).window_base
            == t.window_base + 10 && forall|j: int|
            t.window_base <= j < t.window_base + 10 && j != num ==> #[trigger] t.has(j)),
{
    let i = num - t.window_base;
    let marked = t.window.with(i);
    if 0 <= k - t.window_base < 10 {
        law_window(t.window, i, k - t.window_base);
    }
    law_window(marked, i, i);
    if marked.full() {
        assert forall|j: int|
            t.window_base <= j < t.window_base + 10 && j != num implies #[trigger] t.has(j) by {
            assert(marked.has(j - t.window_base));
            law_window(t.window, i, j - t.window_base);
        }
        if 0 <= k - t.window_base < 10 {
            assert(marked.has(k - t.window_base));
        }
    }
}

/// A body is whole when all its blocks are in: those that its length has, one at least.
pub proof fn law_whole(t: BlockTransfer, num: u32, total: u32)
    requires
        t.szx <= 6,
        t.window_base <= num < t.window_base + 10,
        t.window_base <= 0x10000a,
    ensures
        windowed_after(t, num, total).complete <==> forall|k: int|
            0 <= k && (k == 0 || k * block_size(t.szx as int) < total) ==> k == num
                || #[trigger] t.has(k),
{
    let size = block_size(t.szx as int);
    let count = block_count(total as int, size);
    let next = windowed_next(t, num);
    law_block_count(total as int, t.szx as int);
    assert forall|k: int| 0 <= k implies (#[trigger] t.has(k) || k == num) == next.has(k) by {
        law_block_taken(t, num, k);
    }
    if all_in(next, count) {
        assert forall|k: int|
            0 <= k && (k == 0 || k * size < total) implies k == num || #[trigger] t.has(k) by {
            lemma_within(k, count, size, total as int);
            assert(next.has(k));
        }
    }
    if forall|k: int| 0 <= k && (k == 0 || k * size < total) ==> k == num || #[trigger] t.has(k) {
        assert forall|k: int| 0 <= k < count implies #[trigger] next.has(k) by {
            lemma_within(k, count, size, total as int);
            assert(t.has(k) || k == num);
        }
    }
}

proof fn lemma_within(k: int, count: int, size: int, len: int)
    requires
        0 <= k,
        1 <= count,
        16 <= size,
        0 <= len,
        count * size >= len,
        count == 1 || (count - 1) * size < len,
    ensures
        (k < count) == (k == 0 || k * size < len),
{
    if k < count && k > 0 {
        assert(k * size <= (count - 1) * size) by (nonlinear_arith)
            requires
                k <= count - 1,
                size > 0,
        ;
    }
    if k >= count {
        assert(k * size >= count * size) by (nonlinear_arith)
            requires
                k >= count,
                size > 0,
        ;
    }
}

/// A body has as many blocks as it takes to hold its bytes, and no more, but one at least.
pub proof fn law_block_count(len: int, szx: int)
    requires
        0 <= szx <= 6,
        0 <= len,
    ensures
        ({
            let size = block_size(szx);
            let count = block_count(len, size);
            &&& count >= 1
            &&& count * size >= len
            &&& count == 1 || (count - 1) * size < len
        }),
{
    let size = block_size(szx);
    let count = block_count(len, size);
    if len > 0 {
        let q = (len + size - 1) / size;
        assert(q * size <= len + size - 1 < q * size + size && q >= 1) by (nonlinear_arith)
            requires
                q == (len + size - 1) / size,
                size >= 16,
                len >= 1,
        ;
        assert((q - 1) * size == q * size - size) by (nonlinear_arith);
    }
}

/// The blocks that are asked for again are those of the current window, and below the
/// number of blocks, that are not in; each once, in ascending order.
pub proof fn law_missing_blocks(t: BlockTransfer, count: int, upto: int)
    requires
        0 <= upto <= 10,
        t.window_base <= 0x10000a,
    ensures
        forall|k: int|
            0 <= k < missing_of(t, count, upto).len() ==> t.window_base <= (#[trigger] missing_of(
                t,
                count,
                upto,
            )[k]) < t.window_base + upto && missing_of(t, count, upto)[k] < count && !t.has(
                missing_of(t, count, upto)[k] as int,
            ),
        forall|num: u32|
            t.window_base <= num < t.window_base + upto && num < count && !(#[trigger] t.has(
                num as int,
            )) ==> missing_of(t, count, upto).contains(num),
        forall|j: int, k: int|
            0 <= j < k < missing_of(t, count, upto).len() ==> (#[trigger] missing_of(
                t,
                count,
                upto,
            )[j]) < (#[trigger] missing_of(t, count, upto)[k]),
    decreases upto,
{
    if upto > 0 {
        law_missing_blocks(t, count, upto - 1);
        let front = missing_of(t, count, upto - 1);
        let all = missing_of(t, count, upto);
        let last = t.window_base + upto - 1;
        assert forall|num: u32|
            t.window_base <= num < t.window_base + upto && num < count && !(#[trigger] t.has(
                num as int,
            )) implies all.contains(num) by {
            if num < last {
                assert(front.contains(num));
                let k = choose|k: int| 0 <= k < front.len() && front[k] == num;
                assert(all[k] == num);
            } else {
                assert(all[all.len() - 1] == num);
            }
        }
    }
}

/// Writing a block into a body puts its bytes at their place and leaves the others.
pub proof fn law_overlay(bytes: Seq<u8>, from: int, piece: Seq<u8>)
    requires
        0 <= from,
        from + piece.len() <= bytes.len(),
    ensures
        overlay(bytes, from, piece) == bytes.take(from) + piece + bytes.skip(
            from + piece.len() as int,
        ),
{
    assert(overlay(bytes, from, piece) =~= bytes.take(from) + piece + bytes.skip(
        from + piece.len() as int,
    ));
}

/// The blocks of a body: each is as long as its size but for the last, which is not longer;
/// there is one with a number exactly if it is 0 or starts before the end; more follow
/// exactly if it ends before the end.
pub proof fn law_outgoing_block(
    b: OutgoingBlock,
    id: SlotId,
    body: Seq<u8>,
    num: u32,
    szx: u8,
)
    requires
        szx <= 6,
        cuts(b, id, body.len() as int, num, szx),
    ensures
        b.offset == num * block_size(szx as int),
        b.block.num == num,
        b.block.szx == szx,
        b.block.more ==> b.len == block_size(szx as int) && b.offset + b.len < body.len(),
        !b.block.more ==> b.len <= block_size(szx as int) && b.offset + b.len == body.len(),
        in_body(body.len() as int, num as int, block_size(szx as int)) <==> num == 0 || num
            * block_size(szx as int) < body.len(),
{
    reveal(cuts);
    reveal(in_body);
}

/// Two announced lengths agree if they are equal or one is missing; the first one that was
/// announced is in force.
pub proof fn law_announced_lengths(known: Option<u32>, hint: Option<u32>)
    ensures
        known.is_some() && hint.is_some() && known != hint <==> agreed_total(known, hint).is_err(),
        known.is_some() && (hint.is_none() || hint == known) ==> agreed_total(known, hint) == Ok::<
            Option<u32>,
            (),
        >(known),
        known.is_none() ==> agreed_total(known, hint) == Ok::<Option<u32>, ()>(hint),
{
}

/// A body is found by its role, token, peer and tag together.
pub proof fn law_body_found(slots: Seq<Option<BodySlot>>, role: BlockRole, key: BlockKeyView)
    ensures
        find_body(slots, role, key) matches Some(i) ==> 0 <= i < slots.len() && (slots[i]
            matches Some(s) && s.transfer.role == role && s.transfer.key@.token == key.token
            && s.transfer.key@.peer == key.peer && s.transfer.key@.identity == key.identity),
        find_body(slots, role, key).is_none() ==> forall|i: int|
            0 <= i < slots.len() ==> ((#[trigger] slots[i]) matches Some(s) ==> s.transfer.role
                != role || s.transfer.key@ != key),
    decreases slots.len(),
{
    if slots.len() > 0 {
        let front = slots.drop_last();
        law_body_found(front, role, key);
        assert forall|j: int| 0 <= j < front.len() implies #[trigger] slots[j] == front[j] by {}
    }
}

/// What becomes of a block of a windowed body. It is taken exactly if: the length of the
/// body is announced, is the one announced at first, and fits the slot and the block
/// numbers; the body is not whole; the block has the size of the others, is in the
/// window and not in yet; it is as long as a block of its size, or, if it is the last,
/// not longer; and it ends where the body does exactly if it is the last.
pub proof fn law_windowed_block(
    t: BlockTransfer,
    cap: int,
    block: BlockValue,
    len: int,
    hint: Option<u32>,
)
    requires
        0 <= len,
    ensures
        ({
            let size = block_size(block.szx as int);
            let end = block.num * size + len;
            windowed_verdict(t, cap, block, len, hint).is_ok() <==> {
                &&& hint matches Some(n) && t.total == hint && n <= cap && n <= 0x100000 * size
                    && end <= n && (block.more <==> end != n)
                &&& !t.complete
                &&& block.szx <= 6 && block.szx == t.szx
                &&& block.num < t.window_base + 10 && !t.has(block.num as int)
                &&& len <= size && (block.more ==> len == size)
            }
        }),
        hint.is_none() ==> windowed_verdict(t, cap, block, len, hint) == Err::<
            (),
            BlockTransferError,
        >(BlockTransferError::LengthInconsistent),
        hint matches Some(n) && t.total == hint && n > cap ==> windowed_verdict(
            t,
            cap,
            block,
            len,
            hint,
        ) == Err::<(), BlockTransferError>(BlockTransferError::Overflow),
{
}

/// Missing blocks are asked for 4 seconds after the last one came in.
pub proof fn law_recovery_time(now_ms: u64)
    requires
        now_ms <= 0x1_0000_0000_0000,
    ensures
        BodyPool::recover_at(now_ms) == now_ms + 4000,
{
}

/// A new transfer starts at block 0, with nothing in, nothing asked for, not whole.
pub proof fn law_fresh_transfer(role: BlockRole, key: BlockKey, szx: u8, total: Option<u32>, k: int)
    requires
        0 <= k,
    ensures
        ({
            let t = BlockTransfer::fresh(role, key, szx, total);
            &&& t.role == role && t.key == key && t.szx == szx && t.total == total
            &&& t.next_num == 0 && t.window_base == 0
            &&& !t.has(k)
            &&& !t.complete && t.due_ms.is_none() && t.attempts == 0
        }),
{
}

/// The sizes of a profile are what its storage has, the body sizes only with block-wise
/// transfer.
pub proof fn law_profile_capacities<P: MemoryProfile>()
    ensures
        ({
            let plain = Capacities::of_profile::<P>();
            let full = plain.block_wise::<P>();
            &&& plain.rx_datagram_slots == P::RX_DATAGRAM_SLOTS
            &&& plain.rx_datagram_bytes == P::RX_DATAGRAM_BYTES
            &&& plain.tx_datagram_slots == P::TX_DATAGRAM_SLOTS
            &&& plain.tx_datagram_bytes == P::TX_DATAGRAM_BYTES
            &&& plain.dedup_entries == P::DEDUP_ENTRIES
            &&& plain.observe_entries == P::OBSERVE_ENTRIES
            &&& plain.rx_body_slots.is_none() && plain.rx_body_bytes.is_none()
                && plain.tx_body_slots.is_none() && plain.tx_body_bytes.is_none()
            &&& full.rx_body_slots == Some(P::RX_BODY_SLOTS)
            &&& full.rx_body_bytes == Some(P::RX_BODY_BYTES)
            &&& full.tx_body_slots == Some(P::TX_BODY_SLOTS)
            &&& full.tx_body_bytes == Some(P::TX_BODY_BYTES)
            &&& full.rx_datagram_slots == P::RX_DATAGRAM_SLOTS && full.tx_datagram_slots
                == P::TX_DATAGRAM_SLOTS && full.dedup_entries == P::DEDUP_ENTRIES
                && full.observe_entries == P::OBSERVE_ENTRIES
        }),
{
}

/// Which sizes are refused. The body sizes are all set or all absent. Without block-wise
/// transfer none may be set; with it all must be, none may be zero, and the bytes of a slot
/// are a multiple of 1024. Nothing else is refused.
pub proof fn law_sizes_refused(c: Capacities, block_wise: bool)
    ensures
        ({
            let all = c.rx_body_slots.is_some() && c.rx_body_bytes.is_some()
                && c.tx_body_slots.is_some() && c.tx_body_bytes.is_some();
            let none = c.rx_body_slots.is_none() && c.rx_body_bytes.is_none()
                && c.tx_body_slots.is_none() && c.tx_body_bytes.is_none();
            let zero = c.rx_body_slots == Some(0usize) || c.rx_body_bytes == Some(0usize)
                || c.tx_body_slots == Some(0usize) || c.tx_body_bytes == Some(0usize);
            &&& !all && !none <==> c.fault(block_wise) == Some(BuildError::IncompleteBodyCapacities)
            &&& none ==> c.fault(false).is_none() && c.fault(true) == Some(
                BuildError::MissingBodyPools,
            )
            &&& all ==> c.fault(false) == Some(BuildError::UnexpectedBodyPools)
            &&& all && zero ==> c.fault(true) == Some(BuildError::ZeroBodyCapacity)
            &&& all && !zero && (c.rx_body_bytes->0 % 1024 != 0 || c.tx_body_bytes->0 % 1024 != 0)
                ==> c.fault(true) == Some(BuildError::BodyBytesNotMultipleOf1024)
            &&& all && !zero && c.rx_body_bytes->0 % 1024 == 0 && c.tx_body_bytes->0 % 1024 == 0
                ==> c.fault(true).is_none()
        }),
{
}

/// An engine is built over storage exactly if the sizes are in order and are those that the
/// builder was told, as far as it was told any.
pub proof fn law_engine_built(e: Expected, c: Capacities)
    requires
        e.rx_body.is_none() && e.tx_body.is_none(),
    ensures
        build_fault(e, c, false).is_none() <==> c.fault(false).is_none() && (e.rx_datagram.is_none()
            || e.rx_datagram == Some((c.rx_datagram_slots, c.rx_datagram_bytes))) && (
        e.tx_datagram.is_none() || e.tx_datagram == Some(
            (c.tx_datagram_slots, c.tx_datagram_bytes),
        )) && (e.dedup.is_none() || e.dedup == Some(c.dedup_entries)) && (e.observe.is_none()
            || e.observe == Some(c.observe_entries)),
        build_fault(e, c, true).is_none() <==> c.fault(true).is_none() && (e.rx_datagram.is_none()
            || e.rx_datagram == Some((c.rx_datagram_slots, c.rx_datagram_bytes))) && (
        e.tx_datagram.is_none() || e.tx_datagram == Some(
            (c.tx_datagram_slots, c.tx_datagram_bytes),
        )) && (e.dedup.is_none() || e.dedup == Some(c.dedup_entries)) && (e.observe.is_none()
            || e.observe == Some(c.observe_entries)),
        c.fault(false).is_some() ==> build_fault(e, c, false) == c.fault(false),
        c.fault(true).is_some() ==> build_fault(e, c, true) == c.fault(true),
{
}

/// Body sizes that the builder was told must be in order and those of the storage; where
/// block-wise transfer is off, it may be told none of its own.
pub proof fn law_bodies_built(e: Expected, c: Capacities, n: usize, bytes: usize)
    requires
        e.rx_datagram.is_none() && e.tx_datagram.is_none() && e.dedup.is_none()
            && e.observe.is_none() && e.tx_body.is_none(),
        e.rx_body == Some((n, bytes)),
    ensures
        c.fault(true).is_none() && n == c.rx_body_slots->0 && bytes == c.rx_body_bytes->0
            ==> build_fault(e, c, true).is_none(),
        c.fault(true).is_none() && (n == 0 || bytes == 0) ==> build_fault(e, c, true) == Some(
            BuildError::ZeroBodyCapacity,
        ),
        c.fault(true).is_none() && n > 0 && bytes > 0 && bytes % 1024 != 0 ==> build_fault(
            e,
            c,
            true,
        ) == Some(BuildError::BodyBytesNotMultipleOf1024),
        c.fault(true).is_none() && n > 0 && bytes > 0 && bytes % 1024 == 0 && (n
            != c.rx_body_slots->0 || bytes != c.rx_body_bytes->0) ==> build_fault(e, c, true) == Some(
            BuildError::SizeMismatch,
        ),
        c.fault(false).is_none() && !e.bodies_from_profile ==> build_fault(e, c, false) == Some(
            BuildError::UnexpectedBodyPools,
        ),
        c.fault(false).is_none() && e.bodies_from_profile ==> build_fault(e, c, false).is_none(),
{
}

/// A send counts as one only if the transport took the whole datagram.
pub proof fn law_whole_send<E>(len: nat, told: Result<usize, E>)
    ensures
        (match told {
            Ok(n) => send_fault(len, told) == (if n == len {
                None
            } else {
                Some(DatagramIoError::<E>::ShortSend)
            }),
            Err(e) => send_fault(len, told) == Some(DatagramIoError::<E>::Transport(e)),
        }),
{
}

/// A datagram that came in is as many of the first bytes of the buffer as the transport says,
/// with the sender that it names; more than the buffer holds is an error.
pub proof fn law_received<E>(
    max: nat,
    bytes: Seq<u8>,
    told: Result<Option<(usize, Endpoint)>, E>,
)
    requires
        bytes.len() == max,
    ensures
        (match told {
            Ok(None) => received(max, bytes, told) matches Ok(None),
            Ok(Some((n, from))) => if n <= max {
                received(max, bytes, told) matches Ok(Some(got)) && got.0 == bytes.take(n as int)
                    && got.1 == from
            } else {
                received(max, bytes, told).is_err()
            },
            Err(_) => received(max, bytes, told).is_err(),
        }),
{
    match told {
        Ok(Some((n, _))) => {
            if n <= max {
                assert(bytes.subrange(0, n as int) =~= bytes.take(n as int));
            }
        },
        _ => {},
    }
}

/// Counters count one at a time, and go round.
pub proof fn law_counters(n: u32, m: Metrics)
    ensures
        n < u32::MAX ==> inc(n) == n + 1,
        inc(u32::MAX) == 0,
        m.tx_ok < u32::MAX ==> sent_metrics(m, true).tx_ok == m.tx_ok + 1 && sent_metrics(
            m,
            true,
        ).tx_fail == m.tx_fail,
        m.tx_fail < u32::MAX ==> sent_metrics(m, false).tx_fail == m.tx_fail + 1 && sent_metrics(
            m,
            false,
        ).tx_ok == m.tx_ok,
{
}

/// The datagram that is taken up next is that of the first taken slot that is not held.
pub proof fn law_ready_slot(slots: Seq<Option<DatagramSlot>>)
    ensures
        DatagramPool::ready_slot(slots) matches Some(i) ==> 0 <= i < slots.len() && (slots[i]
            matches Some(s) && !s.pinned) && forall|j: int|
            0 <= j < i ==> ((#[trigger] slots[j]) matches Some(s) ==> s.pinned),
        DatagramPool::ready_slot(slots).is_none() ==> forall|j: int|
            0 <= j < slots.len() ==> ((#[trigger] slots[j]) matches Some(s) ==> s.pinned),
    decreases slots.len(),
{
    if slots.len() > 0 {
        let front = slots.drop_last();
        law_ready_slot(front);
        assert forall|j: int| 0 <= j < slots.len() implies #[trigger] slots[j] == if j < front.len() {
            front[j]
        } else {
            slots.last()
        } by {}
    }
}

/// No notification goes to a peer while one to it is held back or waits for its
/// acknowledgement, or any other message to it waits for one.
pub proof fn law_notify_blocked(e: Engine, peer: Endpoint, now_ms: u64)
    ensures
        notify_blocked(e, peer, now_ms) <==> (exists|i: int|
            0 <= i < e.store.observe.rows@.len() && ((#[trigger] e.store.observe.rows@[i])
                matches Some(o) && !o.client && o.peer == peer && o.held(now_ms))) || (exists|
            j: int,
        |
            0 <= j < e.pending@.len() && ((#[trigger] e.pending@[j]) matches Some(p) && p.peer
                == peer)),
{
    let rows = e.store.observe.rows@;
    lemma_held_count(rows, peer, now_ms);
    lemma_loose_count(rows, e.pending@, peer);
    if exists|j: int|
        0 <= j < e.pending@.len() && ((#[trigger] e.pending@[j]) matches Some(p) && p.peer
            == peer) {
        let j = choose|j: int|
            0 <= j < e.pending@.len() && ((#[trigger] e.pending@[j]) matches Some(p) && p.peer
                == peer);
        let p = e.pending@[j]->0;
        if super::observe::owned_hold(rows, p) {
            let i = choose|i: int| 0 <= i < rows.len() && super::observe::holds_for(
                #[trigger] rows[i],
                p,
            );
            assert(rows[i] matches Some(o) && !o.client && o.peer == peer && o.held(now_ms));
        } else {
            assert(super::observe::loose(rows, e.pending@[j], peer));
        }
    }
}

proof fn lemma_held_count(rows: Seq<Option<ObserveInterest>>, peer: Endpoint, now_ms: u64)
    ensures
        super::observe::held_count(rows, peer, now_ms) > 0 <==> exists|i: int|
            0 <= i < rows.len() && super::observe::holds_peer(#[trigger] rows[i], peer, now_ms),
    decreases rows.len(),
{
    if rows.len() > 0 {
        let front = rows.drop_last();
        lemma_held_count(front, peer, now_ms);
        assert forall|j: int| 0 <= j < rows.len() implies #[trigger] rows[j] == if j < front.len() {
            front[j]
        } else {
            rows.last()
        } by {}
        assert forall|j: int| 0 <= j < front.len() implies #[trigger] front[j] == rows[j] by {}
        let last = rows[rows.len() - 1];
    }
}

proof fn lemma_loose_count(
    rows: Seq<Option<ObserveInterest>>,
    pending: Seq<Option<PendingCon>>,
    peer: Endpoint,
)
    ensures
        super::observe::loose_count(rows, pending, peer) > 0 <==> exists|i: int|
            0 <= i < pending.len() && super::observe::loose(rows, #[trigger] pending[i], peer),
    decreases pending.len(),
{
    if pending.len() > 0 {
        let front = pending.drop_last();
        lemma_loose_count(rows, front, peer);
        assert forall|j: int| 0 <= j < pending.len() implies #[trigger] pending[j] == if j
            < front.len() {
            front[j]
        } else {
            pending.last()
        } by {}
        assert forall|j: int| 0 <= j < front.len() implies #[trigger] front[j] == pending[j] by {}
        let last = pending[pending.len() - 1];
    }
}

/// A reset ends the observation of the peer whose latest notification it rejects, and no
/// other.
pub proof fn law_reset_ends_observation(
    a: Engine,
    b: Engine,
    mid: MessageId,
    peer: Endpoint,
    k: int,
)
    requires
        observer_rejected(a, b, mid, peer),
        0 <= k < a.store.observe.rows@.len(),
    ensures
        b.store.observe.rows@.len() == a.store.observe.rows@.len(),
        b.store.observe.rows@[k] == a.store.observe.rows@[k] || (b.store.observe.rows@[k].is_none()
            && (a.store.observe.rows@[k] matches Some(o) && !o.client && o.peer == peer
            && o.notify_mid == Some(mid))),
        (a.store.observe.rows@[k] matches Some(o) && !o.client && o.peer == peer && o.notify_mid
            == Some(mid)) && (forall|j: int|
            0 <= j < k ==> !((#[trigger] a.store.observe.rows@[j]) matches Some(o) && !o.client
                && o.peer == peer && o.notify_mid == Some(mid)))
            ==> b.store.observe.rows@[k].is_none(),
{
    let rows = a.store.observe.rows@;
    if super::observe::any_notified_by(rows, mid, peer) {
        let i = choose|i: int| #[trigger]
            super::observe::first_notified_by(rows, mid, peer, i) && b.store.observe.rows@
                == rows.update(i, None);
        if (rows[k] matches Some(o) && !o.client && o.peer == peer && o.notify_mid == Some(mid)) && (
        forall|j: int|
            0 <= j < k ==> !((#[trigger] rows[j]) matches Some(o) && !o.client && o.peer == peer
                && o.notify_mid == Some(mid))) {
            if i < k {
                assert(super::observe::notified_by(rows[i], mid, peer));
            } else if k < i {
                assert(!super::observe::notified_by(rows[k], mid, peer));
            }
        }
    } else {
        assert(!super::observe::notified_by(rows[k], mid, peer));
    }
}

/// An acknowledgement frees the slot of the message that it settles, and no other; nothing
/// else of the engine changes.
pub proof fn law_settled_slot_is_free(
    a: Engine,
    b: Engine,
    mid: MessageId,
    peer: Endpoint,
    i: int,
)
    requires
        con_settled(a, b, mid, peer),
        0 <= i < a.store.tx.slots@.len(),
        a.wf(),
    ensures
        (a.pending@[i] matches Some(p) && p.mid == mid && p.peer == peer)
            ==> b.store.tx.slots@[i].is_none() && b.pending@[i].is_none(),
        !(a.pending@[i] matches Some(p) && p.mid == mid && p.peer == peer) ==> b.store.tx.slots@[i]
            == a.store.tx.slots@[i] && b.pending@[i] == a.pending@[i],
        b.store.observe == a.store.observe,
        b.store.dedup == a.store.dedup,
        b.store.bodies == a.store.bodies,
        b.exchanges == a.exchanges,
{
}

} // verus!
