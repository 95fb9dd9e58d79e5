//! Answers that are kept for requests that arrive again.
use vstd::prelude::*;

use crate::message::wire::{bare, encode_fault, encode_to_vec, wire};
use crate::message::{Code, Message, MessageId, Transmission, Type};
use crate::storage::endpoint::{DedupKey, Endpoint, KeyView, SlotId};
use crate::storage::engine::{dedup_key, later, pins, Engine, Store};
use crate::storage::pool::DatagramSlot;
use crate::storage::rows::DedupEntry;
use crate::storage::table::{
    find_row, free_row, lemma_find_row, lemma_find_unique, lemma_free_row, place_row, Keyed,
};

verus! {

/// The latest request that must not run twice, and whose answer could not be
/// kept.
#[derive(Clone, Copy, Debug, PartialEq, Eq, Structural)]
pub struct DedupClosed {
    /// The request.
    pub key: DedupKey,
    /// When it may be forgotten.
    pub due_ms: u64,
}

impl DedupClosed {
    /// Has its time come?
    pub open spec fn expired(self, now_ms: u64) -> bool {
        self.due_ms != 0 && now_ms >= self.due_ms
    }
}

/// May a request with this code run again when it arrives again?
pub open spec fn may_rerun(code: Code) -> bool {
    code == Code::GET || code == Code::PUT || code == Code::DELETE || code == Code::IPATCH
}

/// May a request with this code run again when it arrives again?
///
/// POST, PATCH and FETCH must not.
pub fn request_may_rerun_on_duplicate(code: Code) -> (b: bool)
    ensures
        b == may_rerun(code),
{
    code == Code::GET || code == Code::PUT || code == Code::DELETE || code == Code::IPATCH
}

/// Until when an answer is kept.
pub open spec fn kept_until(now_ms: u64) -> u64 {
    later(now_ms, Transmission::EXCHANGE_LIFETIME_MS as int)
}

/// Until when an answer is kept.
pub fn dedup_due_ms(now_ms: u64) -> (ms: u64)
    ensures
        ms == kept_until(now_ms),
{
    now_ms.saturating_add(Transmission::EXCHANGE_LIFETIME_MS as u64)
}

/// How a request that arrived again is answered.
pub enum ReplayView {
    /// It runs.
    Run,
    /// With the kept datagram.
    Bytes(Seq<u8>),
    /// With the datagram in an outgoing slot.
    Pinned(SlotId),
    /// With an empty acknowledgement.
    EmptyAck,
}

/// How a request that arrived again is answered.
pub enum Replay {
    /// It runs.
    Run,
    /// With the kept datagram.
    Bytes(Vec<u8>),
    /// With the datagram in an outgoing slot.
    Pinned(SlotId),
    /// With an empty acknowledgement.
    EmptyAck,
}

impl View for Replay {
    type V = ReplayView;

    open spec fn view(&self) -> ReplayView {
        match self {
            Replay::Run => ReplayView::Run,
            Replay::Bytes(v) => ReplayView::Bytes(v@),
            Replay::Pinned(id) => ReplayView::Pinned(*id),
            Replay::EmptyAck => ReplayView::EmptyAck,
        }
    }
}

/// Is an answer to this request kept and not expired?
pub open spec fn answer_live(engine: Engine, key: DedupKey, now_ms: u64) -> bool {
    match engine.store.dedup.row(dedup_key(key)) {
        Some(row) => !row.expired(now_ms),
        None => false,
    }
}

/// Is this the request that must not run twice, and is it not expired?
pub open spec fn closed_live(closed: Option<DedupClosed>, key: DedupKey, now_ms: u64) -> bool {
    match closed {
        Some(c) => c.key == key && !c.expired(now_ms),
        None => false,
    }
}

/// How a request is answered that may have arrived before.
pub open spec fn replay_of(
    engine: Engine,
    closed: Option<DedupClosed>,
    key: DedupKey,
    code: Code,
    now_ms: u64,
) -> ReplayView {
    if answer_live(engine, key, now_ms) {
        let row = engine.store.dedup.row(dedup_key(key))->0;
        match row.replay {
            Some(bytes) => ReplayView::Bytes(bytes@),
            None => match row.tx_pin {
                Some(id) => ReplayView::Pinned(id),
                None => if may_rerun(code) {
                    ReplayView::Run
                } else {
                    ReplayView::EmptyAck
                },
            },
        }
    } else if may_rerun(code) || !closed_live(closed, key, now_ms) {
        ReplayView::Run
    } else {
        ReplayView::EmptyAck
    }
}

/// A request that must not run twice does not, as long as an answer to it is
/// kept or it is remembered as closed.
pub proof fn law_no_second_run(
    engine: Engine,
    closed: Option<DedupClosed>,
    key: DedupKey,
    code: Code,
    now_ms: u64,
)
    requires
        !may_rerun(code),
        answer_live(engine, key, now_ms) || closed_live(closed, key, now_ms),
    ensures
        !(replay_of(engine, closed, key, code, now_ms) is Run),
{
}

/// A kept answer is given again for every code, without running anything.
pub proof fn law_kept_answer_is_given(
    engine: Engine,
    closed: Option<DedupClosed>,
    key: DedupKey,
    code: Code,
    now_ms: u64,
)
    requires
        answer_live(engine, key, now_ms),
        engine.store.dedup.row(dedup_key(key))->0.usable(),
    ensures
        !(replay_of(engine, closed, key, code, now_ms) is Run),
{
}

/// An answer kept at `now_ms` is live until the exchange lifetime is over.
pub proof fn law_kept_for_exchange_lifetime(entry: DedupEntry, now_ms: u64, then_ms: u64)
    requires
        entry.due_ms == kept_until(now_ms),
        now_ms <= then_ms,
        now_ms + Transmission::EXCHANGE_LIFETIME_MS <= u64::MAX,
    ensures
        entry.expired(then_ms) == (then_ms - now_ms >= Transmission::EXCHANGE_LIFETIME_MS),
{
}

/// Decide how a request is answered that may have arrived before.
pub fn decide_replay(
    engine: &Engine,
    closed: &Option<DedupClosed>,
    key: DedupKey,
    code: Code,
    now_ms: u64,
) -> (r: Replay)
    ensures
        r@ == replay_of(*engine, *closed, key, code, now_ms),
{
    if let Some(at) = engine.store.dedup.find(&key.key()) {
        if let Some(row) = &engine.store.dedup.rows[at] {
            if !(row.due_ms != 0 && now_ms >= row.due_ms) {
                return match &row.replay {
                    Some(bytes) => Replay::Bytes(crate::bytes::to_vec(bytes.as_slice())),
                    None => match row.tx_pin {
                        Some(id) => Replay::Pinned(id),
                        None => if request_may_rerun_on_duplicate(code) {
                            Replay::Run
                        } else {
                            Replay::EmptyAck
                        },
                    },
                };
            }
        }
    }
    if request_may_rerun_on_duplicate(code) {
        return Replay::Run;
    }
    match closed {
        Some(c) => if c.key == key && !(c.due_ms != 0 && now_ms >= c.due_ms) {
            Replay::EmptyAck
        } else {
            Replay::Run
        },
        None => Replay::Run,
    }
}

/// No outgoing slot became taken without an owner.
#[verifier::opaque]
pub open spec fn leak_free(before: Engine, after: Engine) -> bool {
    &&& after.store.tx.slots@.len() == before.store.tx.slots@.len()
    &&& forall|i: int| #[trigger] after.unowned(i) ==> before.unowned(i)
}

/// Nothing leaks in two steps if nothing leaks in either.
pub proof fn lemma_leak_free_trans(a: Engine, b: Engine, c: Engine)
    requires
        leak_free(a, b),
        leak_free(b, c),
    ensures
        leak_free(a, c),
{
    reveal(leak_free);
}

/// Nothing leaks when slots, waiting messages and kept answers stay as they are.
pub proof fn lemma_leak_free_same(before: Engine, after: Engine)
    requires
        after.store.tx.slots@ == before.store.tx.slots@,
        after.pending@ == before.pending@,
        after.store.dedup.rows@ == before.store.dedup.rows@,
    ensures
        leak_free(before, after),
{
    reveal(leak_free);
    assert forall|i: int| #[trigger] after.unowned(i) implies before.unowned(i) by {
        if before.pinned_reply(i) {
            let k = choose|k: int|
                0 <= k < before.store.dedup.rows@.len() && pins(
                    #[trigger] before.store.dedup.rows@[k],
                    i,
                );
            assert(pins(after.store.dedup.rows@[k], i));
        }
    }
}

/// Nothing leaks when a slot is freed, and with it what waited in it.
pub proof fn lemma_leak_free_released(before: Engine, after: Engine, at: int)
    requires
        0 <= at < before.store.tx.slots@.len(),
        before.pending@.len() == before.store.tx.slots@.len(),
        after.store.tx.slots@ == before.store.tx.slots@.update(at, None),
        after.pending@ == before.pending@.update(at, None) || after.pending@ == before.pending@,
        after.store.dedup.rows@ == before.store.dedup.rows@,
    ensures
        leak_free(before, after),
{
    reveal(leak_free);
    assert forall|i: int| #[trigger] after.unowned(i) implies before.unowned(i) by {
        if before.pinned_reply(i) {
            let k = choose|k: int|
                0 <= k < before.store.dedup.rows@.len() && pins(
                    #[trigger] before.store.dedup.rows@[k],
                    i,
                );
            assert(pins(after.store.dedup.rows@[k], i));
        }
    }
}

/// Nothing leaks when a row goes whose reply is in no taken slot.
pub proof fn lemma_leak_free_row_gone(before: Engine, after: Engine, at: int)
    requires
        0 <= at < before.store.dedup.rows@.len(),
        after.store.tx.slots@ == before.store.tx.slots@,
        after.pending@ == before.pending@,
        after.store.dedup.rows@.len() == before.store.dedup.rows@.len(),
        forall|i: int|
            0 <= i < before.store.dedup.rows@.len() && i != at ==> after.store.dedup.rows@[i]
                == before.store.dedup.rows@[i],
        before.store.dedup.rows@[at] matches Some(d) ==> (d.tx_pin matches Some(id) ==> (id.at
            < before.store.tx.slots@.len() ==> before.store.tx.slots@[id.at as int].is_none())),
    ensures
        leak_free(before, after),
{
    reveal(leak_free);
    assert forall|i: int| #[trigger] after.unowned(i) implies before.unowned(i) by {
        if before.pinned_reply(i) {
            let k = choose|k: int|
                0 <= k < before.store.dedup.rows@.len() && pins(
                    #[trigger] before.store.dedup.rows@[k],
                    i,
                );
            if k != at {
                assert(pins(after.store.dedup.rows@[k], i));
            }
        }
    }
}

/// Is the slot that a row keeps its reply in taken, for the row's peer, with
/// nothing waiting in it?
pub open spec fn pin_ok(e: Engine, row: Option<DedupEntry>) -> bool {
    match row {
        Some(d) => match d.tx_pin {
            Some(id) => {
                &&& id.at < e.store.tx.slots@.len()
                &&& e.store.tx.slots@[id.at as int].is_some()
                &&& e.store.tx.slots@[id.at as int]->0.peer == Some(d.peer)
                &&& e.pending@[id.at as int].is_none()
            },
            None => true,
        },
        None => true,
    }
}

/// Do two rows keep their replies in the same slot?
pub open spec fn same_pin(a: Option<DedupEntry>, b: Option<DedupEntry>) -> bool {
    match (a, b) {
        (Some(c), Some(d)) => c.tx_pin.is_some() && c.tx_pin == d.tx_pin,
        _ => false,
    }
}

/// Does every kept reply have a slot of its own, in which nothing waits?
#[verifier::opaque]
pub open spec fn pins_ok(e: Engine) -> bool {
    &&& e.pending@.len() == e.store.tx.slots@.len()
    &&& forall|k: int|
        0 <= k < e.store.dedup.rows@.len() ==> pin_ok(e, #[trigger] e.store.dedup.rows@[k])
    &&& forall|j: int, k: int|
        0 <= j < k < e.store.dedup.rows@.len() ==> !same_pin(
            #[trigger] e.store.dedup.rows@[j],
            #[trigger] e.store.dedup.rows@[k],
        )
}

/// The outgoing slots without the one in which a row keeps its reply, if it
/// keeps one.
pub open spec fn unpinned(slots: Seq<Option<DatagramSlot>>, row: Option<DedupEntry>) -> Seq<
    Option<DatagramSlot>,
> {
    match row {
        Some(d) => match d.tx_pin {
            Some(id) => if id.at < slots.len() {
                slots.update(id.at as int, None)
            } else {
                slots
            },
            None => slots,
        },
        None => slots,
    }
}

/// Slots that keep no reply stay as they are, and so does what waits in them.
#[verifier::opaque]
pub open spec fn untouched(before: Engine, after: Engine) -> bool {
    &&& after.store.tx.slots@.len() == before.store.tx.slots@.len()
    &&& after.pending@.len() == before.pending@.len()
    &&& forall|p: int|
        0 <= p < before.store.tx.slots@.len() && !before.pinned_reply(p) ==> (
        #[trigger] after.store.tx.slots@[p]) == before.store.tx.slots@[p] && after.pending@[p]
            == before.pending@[p]
}

/// Does the slot in which a row keeps its reply stay as it is?
pub open spec fn reply_kept(before: Engine, after: Engine, row: int) -> bool {
    before.store.dedup.rows@[row] matches Some(d) ==> (d.tx_pin matches Some(id)
        ==> after.store.tx.slots@[id.at as int] == before.store.tx.slots@[id.at as int])
}

/// The reply of every row but one stays as it is.
pub open spec fn others_kept(before: Engine, after: Engine, at: int) -> bool {
    forall|k: int|
        0 <= k < before.store.dedup.rows@.len() && k != at ==> #[trigger] reply_kept(
            before,
            after,
            k,
        )
}

/// Replies stay in order when slots, waiting messages and rows stay.
pub proof fn lemma_pins_same(before: Engine, after: Engine)
    requires
        after.store.tx.slots@ == before.store.tx.slots@,
        after.pending@ == before.pending@,
        after.store.dedup.rows@ == before.store.dedup.rows@,
    ensures
        pins_ok(before) ==> pins_ok(after),
        untouched(before, after),
{
    reveal(pins_ok);
    reveal(untouched);
    if pins_ok(before) {
        assert forall|k: int| 0 <= k < after.store.dedup.rows@.len() implies pin_ok(
            after,
            #[trigger] after.store.dedup.rows@[k],
        ) by {
            assert(pin_ok(before, before.store.dedup.rows@[k]));
        }
    }
}

/// Replies stay in order when a row goes, and the slot of its reply with it.
proof fn lemma_pins_row_gone(before: Engine, after: Engine, at: int)
    requires
        0 <= at < before.store.dedup.rows@.len(),
        before.pending@.len() == before.store.tx.slots@.len(),
        after.store.dedup.rows@ == before.store.dedup.rows@.update(at, None),
        match before.store.dedup.rows@[at] {
            Some(d) => match d.tx_pin {
                Some(id) => (after.store.tx.slots@ == before.store.tx.slots@ && after.pending@
                    == before.pending@ && (id.at < before.store.tx.slots@.len()
                    ==> before.store.tx.slots@[id.at as int].is_none())) || (id.at
                    < before.store.tx.slots@.len() && after.store.tx.slots@
                    == before.store.tx.slots@.update(id.at as int, None) && after.pending@
                    == before.pending@.update(id.at as int, None)),
                None => after.store.tx.slots@ == before.store.tx.slots@ && after.pending@
                    == before.pending@,
            },
            None => after.store.tx.slots@ == before.store.tx.slots@ && after.pending@
                == before.pending@,
        },
    ensures
        pins_ok(before) ==> pins_ok(after),
        untouched(before, after),
{
    reveal(pins_ok);
    reveal(untouched);
    assert forall|p: int|
        0 <= p < before.store.tx.slots@.len() && !before.pinned_reply(p) implies (
    #[trigger] after.store.tx.slots@[p]) == before.store.tx.slots@[p] && after.pending@[p]
        == before.pending@[p] by {
        if pins(before.store.dedup.rows@[at], p) {
            assert(before.pinned_reply(p));
        }
    }
    if pins_ok(before) {
        assert forall|k: int| 0 <= k < after.store.dedup.rows@.len() implies pin_ok(
            after,
            #[trigger] after.store.dedup.rows@[k],
        ) by {
            if k != at {
                assert(pin_ok(before, before.store.dedup.rows@[k]));
                if k < at {
                    assert(!same_pin(before.store.dedup.rows@[k], before.store.dedup.rows@[at]));
                } else {
                    assert(!same_pin(before.store.dedup.rows@[at], before.store.dedup.rows@[k]));
                }
            }
        }
        assert forall|j: int, k: int| 0 <= j < k < after.store.dedup.rows@.len() implies !same_pin(
            #[trigger] after.store.dedup.rows@[j],
            #[trigger] after.store.dedup.rows@[k],
        ) by {
            if j != at && k != at {
                assert(!same_pin(before.store.dedup.rows@[j], before.store.dedup.rows@[k]));
            }
        }
    }
}

/// Replies stay in order when a free row is taken whose reply is in a taken
/// slot without an owner, or in none.
proof fn lemma_pins_row_added(before: Engine, after: Engine, at: int)
    requires
        0 <= at < before.store.dedup.rows@.len(),
        before.pending@.len() == before.store.tx.slots@.len(),
        before.store.dedup.rows@[at].is_none(),
        after.store.dedup.rows@ == before.store.dedup.rows@.update(
            at,
            after.store.dedup.rows@[at],
        ),
        after.store.tx.slots@ == before.store.tx.slots@,
        after.pending@ == before.pending@,
        after.store.dedup.rows@[at] matches Some(d) ==> pin_fresh(before, d),
    ensures
        pins_ok(before) ==> pins_ok(after),
{
    reveal(pins_ok);
    if pins_ok(before) {
        assert forall|k: int| 0 <= k < after.store.dedup.rows@.len() implies pin_ok(
            after,
            #[trigger] after.store.dedup.rows@[k],
        ) by {
            if k != at {
                assert(pin_ok(before, before.store.dedup.rows@[k]));
            }
        }
        assert forall|j: int, k: int| 0 <= j < k < after.store.dedup.rows@.len() implies !same_pin(
            #[trigger] after.store.dedup.rows@[j],
            #[trigger] after.store.dedup.rows@[k],
        ) by {
            if j != at && k != at {
                assert(!same_pin(before.store.dedup.rows@[j], before.store.dedup.rows@[k]));
            } else {
                let other = if j == at {
                    k
                } else {
                    j
                };
                assert(after.store.dedup.rows@[other] == before.store.dedup.rows@[other]);
                if same_pin(after.store.dedup.rows@[j], after.store.dedup.rows@[k]) {
                    let id = after.store.dedup.rows@[at]->0.tx_pin->0;
                    assert(pins(before.store.dedup.rows@[other], id.at as int));
                    assert(before.pinned_reply(id.at as int));
                }
            }
        }
    }
}

/// Two steps leave slots without a reply alone if each does, and the first
/// adds no row.
proof fn lemma_untouched_trans(a: Engine, b: Engine, c: Engine)
    requires
        untouched(a, b),
        untouched(b, c),
        b.store.dedup.rows@.len() == a.store.dedup.rows@.len(),
        forall|k: int|
            0 <= k < a.store.dedup.rows@.len() ==> (#[trigger] b.store.dedup.rows@[k])
                == a.store.dedup.rows@[k] || b.store.dedup.rows@[k].is_none(),
    ensures
        untouched(a, c),
{
    reveal(untouched);
    assert forall|p: int|
        0 <= p < a.store.tx.slots@.len() && !a.pinned_reply(p) implies (
    #[trigger] c.store.tx.slots@[p]) == a.store.tx.slots@[p] && c.pending@[p] == a.pending@[p] by {
        if b.pinned_reply(p) {
            let k = choose|k: int|
                0 <= k < b.store.dedup.rows@.len() && pins(#[trigger] b.store.dedup.rows@[k], p);
            assert(pins(a.store.dedup.rows@[k], p));
        }
        assert(b.store.tx.slots@[p] == a.store.tx.slots@[p]);
    }
}

/// What keeping and forgetting answers leaves alone.
pub open spec fn dedup_frame(before: Engine, after: Engine) -> bool {
    &&& after == (Engine {
        store: Store { dedup: after.store.dedup, tx: after.store.tx, ..before.store },
        pending: after.pending,
        ..before
    })
    &&& after.store.dedup.rows@.len() == before.store.dedup.rows@.len()
    &&& after.store.tx.slots@.len() == before.store.tx.slots@.len()
    &&& after.store.tx.slot_bytes == before.store.tx.slot_bytes
    &&& leak_free(before, after)
    &&& untouched(before, after)
}

/// Which rows are candidates for being forgotten early.
pub open spec fn evictable(row: Option<DedupEntry>, pinned_only: bool) -> bool {
    row.is_some() && row->0.due_ms != 0 && (!pinned_only || row->0.tx_pin.is_some())
}

/// Position of the candidate that is due first.
pub open spec fn oldest(rows: Seq<Option<DedupEntry>>, pinned_only: bool) -> Option<int>
    decreases rows.len(),
{
    if rows.len() == 0 {
        None
    } else {
        let front = oldest(rows.drop_last(), pinned_only);
        if evictable(rows.last(), pinned_only) && (front.is_none() || rows.last()->0.due_ms
            < rows[front->0]->0.due_ms) {
            Some(rows.len() - 1)
        } else {
            front
        }
    }
}

/// What [`oldest`] finds.
pub proof fn lemma_oldest(rows: Seq<Option<DedupEntry>>, pinned_only: bool)
    ensures
        oldest(rows, pinned_only) matches Some(i) ==> 0 <= i < rows.len() && evictable(
            rows[i],
            pinned_only,
        ) && forall|k: int|
            0 <= k < rows.len() && evictable(#[trigger] rows[k], pinned_only)
                ==> rows[i]->0.due_ms <= rows[k]->0.due_ms,
        oldest(rows, pinned_only).is_none() ==> forall|k: int|
            0 <= k < rows.len() ==> !evictable(#[trigger] rows[k], pinned_only),
    decreases rows.len(),
{
    if rows.len() > 0 {
        let front = rows.drop_last();
        lemma_oldest(front, pinned_only);
        assert(forall|k: int| 0 <= k < front.len() ==> front[k] == rows[k]);
    }
}

/// The empty acknowledgement of a message, on the wire.
pub open spec fn empty_ack_wire(mid: MessageId) -> Seq<u8> {
    wire(bare(Type::Acknowledgement, Code::EMPTY, mid.raw))
}

/// An empty message is four octets.
pub proof fn lemma_bare_wire(ty: Type, code: Code, id: u16)
    ensures
        wire(bare(ty, code, id)).len() == 4,
        encode_fault(bare(ty, code, id)).is_none(),
{
}

/// The empty acknowledgement of a message.
pub fn empty_ack_bytes(mid: MessageId) -> (v: Vec<u8>)
    ensures
        v@ == empty_ack_wire(mid),
        v@.len() == 4,
{
    proof {
        lemma_bare_wire(Type::Acknowledgement, Code::EMPTY, mid.raw);
    }
    match encode_to_vec(&Message::empty_ack(mid)) {
        Ok(v) => v,
        Err(_) => Vec::new(),
    }
}

/// Where a row with a key goes when it may push the oldest one out: over the
/// row that has its key, else into a free row, else into the oldest one's.
pub open spec fn dedup_place(rows: Seq<Option<DedupEntry>>, key: KeyView) -> Option<int> {
    match place_row(rows, key) {
        Some(i) => Some(i),
        None => oldest(rows, false),
    }
}

impl Engine {
    /// Free the row at a position, and the slot that keeps its reply.
    pub fn release_dedup_row(&mut self, at: usize)
        requires
            old(self).wf(),
            at < old(self).store.dedup.rows@.len(),
        ensures
            final(self).wf(),
            dedup_frame(*old(self), *final(self)),
            pins_ok(*old(self)) ==> pins_ok(*final(self)),
            final(self).store.dedup.rows@ == old(self).store.dedup.rows@.update(at as int, None),
            pins_ok(*old(self)) ==> others_kept(*old(self), *final(self), at as int),
            forall|p: int|
                pins(old(self).store.dedup.rows@[at as int], p) && 0 <= p < old(
                    self).store.tx.slots@.len() ==> (#[trigger] final(
                    self).store.tx.slots@[p]).is_none(),
            final(self).store.tx.slots@ == unpinned(
                old(self).store.tx.slots@,
                old(self).store.dedup.rows@[at as int],
            ),
            pins_ok(*old(self)) ==> final(self).pending@ == old(self).pending@,
    {
        let pin: Option<SlotId> = match &self.store.dedup.rows[at] {
            Some(row) => row.tx_pin,
            None => None,
        };
        let ghost first = *self;
        if let Some(id) = pin {
            let r = self.release_tx(id);
            proof {
                if r.is_ok() {
                    lemma_leak_free_released(first, *self, id.at as int);
                    assert(pins(first.store.dedup.rows@[at as int], id.at as int));
                } else {
                    lemma_leak_free_same(first, *self);
                }
            }
        } else {
            proof {
                lemma_leak_free_same(first, *self);
            }
        }
        let ghost second = *self;
        self.store.dedup.free(at);
        proof {
            assert(self.store.tx.slots@ =~= unpinned(
                first.store.tx.slots@,
                first.store.dedup.rows@[at as int],
            ));
            if pins_ok(first) {
                reveal(pins_ok);
                assert(pin_ok(first, first.store.dedup.rows@[at as int]));
                assert(self.pending@ =~= first.pending@);
            }
            lemma_leak_free_row_gone(second, *self, at as int);
            lemma_leak_free_trans(first, second, *self);
            lemma_pins_row_gone(first, *self, at as int);
            if pins_ok(first) {
                reveal(pins_ok);
                let rows = first.store.dedup.rows@;
                assert forall|k: int| 0 <= k < rows.len() && k != at implies #[trigger] reply_kept(
                    first,
                    *self,
                    k,
                ) by {
                    assert(!same_pin(rows[k], rows[at as int]) && !same_pin(rows[at as int], rows[k]));
                }
            }
        }
    }

    fn find_oldest(&self, pinned_only: bool) -> (r: Option<usize>)
        ensures
            match r {
                Some(i) => oldest(self.store.dedup.rows@, pinned_only) == Some(i as int) && i
                    < self.store.dedup.rows@.len(),
                None => oldest(self.store.dedup.rows@, pinned_only).is_none(),
            },
    {
        let ghost rows = self.store.dedup.rows@;
        let mut best: Option<(usize, u64)> = None;
        let mut i: usize = 0;
        assert(rows.subrange(0, 0).len() == 0);
        while i < self.store.dedup.rows.len()
            invariant
                rows == self.store.dedup.rows@,
                i <= rows.len(),
                match best {
                    Some((at, due)) => oldest(rows.subrange(0, i as int), pinned_only) == Some(
                        at as int,
                    ) && at < i && rows[at as int].is_some() && rows[at as int]->0.due_ms == due,
                    None => oldest(rows.subrange(0, i as int), pinned_only).is_none(),
                },
            decreases rows.len() - i,
        {
            let ghost next = rows.subrange(0, i + 1);
            assert(next.drop_last() =~= rows.subrange(0, i as int));
            assert(next.last() == rows[i as int]);
            if let Some(row) = &self.store.dedup.rows[i] {
                if row.due_ms != 0 && (!pinned_only || row.tx_pin.is_some()) {
                    match best {
                        Some((_, due)) => {
                            if row.due_ms < due {
                                best = Some((i, row.due_ms));
                            }
                        },
                        None => {
                            best = Some((i, row.due_ms));
                        },
                    }
                }
            }
            i = i + 1;
        }
        assert(rows.subrange(0, i as int) =~= rows);
        match best {
            Some((at, _)) => Some(at),
            None => None,
        }
    }

    /// Keep the answer to a request. A row for the same request is replaced;
    /// when the table is full, the oldest row that may be forgotten goes.
    pub fn store_request_dedup(&mut self, entry: DedupEntry) -> (ok: bool)
        requires
            old(self).wf(),
        ensures
            final(self).wf(),
            ok == (entry.usable() && dedup_place(old(self).store.dedup.rows@, entry.row_key()).is_some()),
            dedup_kept(*old(self), *final(self), entry, ok),
    {
        let ghost first = *self;
        if !entry.has_usable_replay() {
            proof {
                lemma_leak_free_same(first, *self);
                lemma_pins_same(first, *self);
            }
            return false;
        }
        let ghost rows = self.store.dedup.rows@;
        proof {
            lemma_pins_same(first, first);
        }
        let at: usize = match self.store.dedup.find(&entry.key().key()) {
            Some(at) => {
                self.release_dedup_row(at);
                at
            },
            None => match first_free_row(self) {
                Some(at) => {
                    proof {
                        lemma_leak_free_same(first, *self);
                    }
                    at
                },
                None => match self.find_oldest(false) {
                    Some(at) => {
                        self.release_dedup_row(at);
                        at
                    },
                    None => {
                        proof {
                            lemma_leak_free_same(first, *self);
                            lemma_pins_same(first, *self);
                        }
                        return false;
                    },
                },
            },
        };
        let ghost second = *self;
        proof {
            lemma_find_row(rows, entry.row_key());
            lemma_unique_fresh(second.store.dedup.rows@, at as int, entry, rows);
        }
        self.store.dedup.rows.set(at, Some(entry));
        proof {
            assert(self.store.dedup.rows@ =~= rows.update(at as int, Some(entry)));
            lemma_leak_free_row_added(second, *self, at as int);
            lemma_leak_free_trans(first, second, *self);
            lemma_pins_same(second, second);
            lemma_kept_pins(first, second, *self, at as int);
            if pins_ok(first) {
                assert forall|k: int| 0 <= k < rows.len() && k != at implies #[trigger] reply_kept(
                    first,
                    *self,
                    k,
                ) by {
                    assert(reply_kept(first, second, k));
                }
            }
        }
        true
    }
}

/// A slot without an owner keeps having none while rows go.
proof fn lemma_unowned_stays(before: Engine, after: Engine, at: int)
    requires
        untouched(before, after),
        before.unowned(at),
        after.store.dedup.rows@.len() == before.store.dedup.rows@.len(),
        forall|k: int|
            0 <= k < before.store.dedup.rows@.len() ==> (#[trigger] after.store.dedup.rows@[k])
                == before.store.dedup.rows@[k] || after.store.dedup.rows@[k].is_none(),
    ensures
        after.unowned(at),
        after.store.tx.slots@[at] == before.store.tx.slots@[at],
{
    reveal(untouched);
    assert(after.store.tx.slots@[at] == before.store.tx.slots@[at]);
    if after.pinned_reply(at) {
        let k = choose|k: int|
            0 <= k < after.store.dedup.rows@.len() && pins(#[trigger] after.store.dedup.rows@[k], at);
        assert(pins(before.store.dedup.rows@[k], at));
    }
}

proof fn lemma_kept_pins(first: Engine, second: Engine, third: Engine, at: int)
    requires
        0 <= at < first.store.dedup.rows@.len(),
        second.store.dedup.rows@ == first.store.dedup.rows@.update(at, None) || (
        second.store.dedup.rows@ == first.store.dedup.rows@ && first.store.dedup.rows@[at].is_none()),
        second.pending@.len() == second.store.tx.slots@.len(),
        untouched(first, second),
        pins_ok(first) ==> pins_ok(second),
        third.store.dedup.rows@ == second.store.dedup.rows@.update(
            at,
            third.store.dedup.rows@[at],
        ),
        third.store.tx.slots@ == second.store.tx.slots@,
        third.pending@ == second.pending@,
        third.store.dedup.rows@[at].is_some(),
    ensures
        untouched(first, third),
        pins_ok(first) && pin_fresh(first, third.store.dedup.rows@[at]->0) ==> pins_ok(third),
{
    let entry = third.store.dedup.rows@[at]->0;
    assert(untouched(first, third)) by {
        reveal(untouched);
    }
    if pins_ok(first) && pin_fresh(first, entry) {
        if let Some(id) = entry.tx_pin {
            lemma_unowned_stays(first, second, id.at as int);
        }
        lemma_pins_row_added(second, third, at);
    }
}

/// Is the slot in which a new row keeps its reply taken, for the row's peer,
/// and without an owner?
pub open spec fn pin_fresh(e: Engine, entry: DedupEntry) -> bool {
    entry.tx_pin matches Some(id) ==> e.unowned(id.at as int) && e.store.tx.slots@[
        id.at as int
    ]->0.peer == Some(entry.peer)
}

fn first_free_row(engine: &Engine) -> (r: Option<usize>)
    ensures
        match r {
            Some(i) => free_row(engine.store.dedup.rows@) == Some(i as int) && i
                < engine.store.dedup.rows@.len() && engine.store.dedup.rows@[i as int].is_none(),
            None => free_row(engine.store.dedup.rows@).is_none(),
        },
{
    crate::storage::table::first_free(&engine.store.dedup.rows)
}

/// What keeping an answer does.
pub open spec fn dedup_kept(before: Engine, after: Engine, entry: DedupEntry, ok: bool) -> bool {
    &&& dedup_frame(before, after)
    &&& after.store.dedup.rows@ == if ok {
        before.store.dedup.rows@.update(
            dedup_place(before.store.dedup.rows@, entry.row_key())->0,
            Some(entry),
        )
    } else {
        before.store.dedup.rows@
    }
    &&& !ok ==> after == before
    &&& ok ==> after.store.tx.slots@ == unpinned(
        before.store.tx.slots@,
        before.store.dedup.rows@[dedup_place(before.store.dedup.rows@, entry.row_key())->0],
    )
    &&& pins_ok(before) ==> after.pending@ == before.pending@
    &&& ok && pins_ok(before) ==> others_kept(
        before,
        after,
        dedup_place(before.store.dedup.rows@, entry.row_key())->0,
    )
    &&& pins_ok(before) && pin_fresh(before, entry) ==> pins_ok(after)
}

proof fn lemma_unique_fresh(
    rows: Seq<Option<DedupEntry>>,
    at: int,
    entry: DedupEntry,
    before: Seq<Option<DedupEntry>>,
)
    requires
        crate::storage::table::unique_keys(before),
        0 <= at < before.len(),
        rows == before.update(at, None) || (rows == before && before[at].is_none()),
        find_row(before, entry.row_key()) == Some(at) || find_row(
            before,
            entry.row_key(),
        ).is_none(),
    ensures
        crate::storage::table::unique_keys(rows.update(at, Some(entry))),
{
    lemma_find_row(before, entry.row_key());
    let after = rows.update(at, Some(entry));
    assert forall|i: int, j: int|
        0 <= i < j < after.len() && (#[trigger] after[i]).is_some() && (
        #[trigger] after[j]).is_some() implies after[i]->0.row_key() != after[j]->0.row_key() by {
        if i == at {
            assert(before[j].is_some());
            if find_row(before, entry.row_key()).is_some() {
                assert(before[i]->0.row_key() != before[j]->0.row_key());
            }
        } else if j == at {
            assert(before[i].is_some());
            if find_row(before, entry.row_key()).is_some() {
                assert(before[i]->0.row_key() != before[j]->0.row_key());
            }
        } else {
            assert(before[i].is_some() && before[j].is_some());
        }
    }
}

/// Nothing leaks when a free row is taken.
pub proof fn lemma_leak_free_row_added(before: Engine, after: Engine, at: int)
    requires
        0 <= at < before.store.dedup.rows@.len(),
        before.store.dedup.rows@[at].is_none(),
        after.store.tx.slots@ == before.store.tx.slots@,
        after.pending@ == before.pending@,
        after.store.dedup.rows@.len() == before.store.dedup.rows@.len(),
        forall|i: int|
            0 <= i < before.store.dedup.rows@.len() && i != at ==> after.store.dedup.rows@[i]
                == before.store.dedup.rows@[i],
    ensures
        leak_free(before, after),
{
    lemma_leak_free_row_gone(before, after, at);
}

/// The closed request after an answer was kept, or was not.
pub open spec fn closed_after(
    closed: Option<DedupClosed>,
    key: DedupKey,
    due_ms: u64,
    request: Code,
    ok: bool,
) -> Option<DedupClosed> {
    let same = closed.is_some() && closed->0.key == key;
    if ok {
        if same {
            None
        } else {
            closed
        }
    } else if may_rerun(request) || same {
        closed
    } else {
        Some(DedupClosed { key, due_ms })
    }
}

/// Keep the answer to a request; where that fails and the request must not
/// run twice, remember it as closed.
pub fn note_dedup_store(
    engine: &mut Engine,
    entry: DedupEntry,
    request: Code,
    closed: &mut Option<DedupClosed>,
) -> (ok: bool)
    requires
        old(engine).wf(),
    ensures
        final(engine).wf(),
        ok == (entry.usable() && dedup_place(old(engine).store.dedup.rows@, entry.row_key()).is_some()),
        dedup_kept(*old(engine), *final(engine), entry, ok),
        *final(closed) == closed_after(
            *old(closed),
            DedupKey { mid: entry.mid, peer: entry.peer },
            entry.due_ms,
            request,
            ok,
        ),
{
    let key = entry.key();
    let due_ms: u64 = entry.due_ms;
    let ok: bool = engine.store_request_dedup(entry);
    let same: bool = match closed {
        Some(c) => c.key == key,
        None => false,
    };
    if ok {
        if same {
            *closed = None;
        }
    } else if !request_may_rerun_on_duplicate(request) && !same {
        *closed = Some(DedupClosed { key, due_ms });
    }
    ok
}

/// The row that keeps an empty acknowledgement.
pub open spec fn is_ack_row(row: DedupEntry, mid: MessageId, peer: Endpoint, due_ms: u64) -> bool {
    &&& row.mid == mid
    &&& row.peer == peer
    &&& row.due_ms == due_ms
    &&& row.tx_pin.is_none()
    &&& row.replay matches Some(b) && b@ == empty_ack_wire(mid)
}

fn ack_row(mid: MessageId, peer: Endpoint, due_ms: u64) -> (row: DedupEntry)
    ensures
        is_ack_row(row, mid, peer, due_ms),
{
    DedupEntry { mid, peer, due_ms, replay: Some(empty_ack_bytes(mid)), tx_pin: None }
}

/// What keeping an empty acknowledgement as the answer does.
pub open spec fn ack_kept(
    before: Engine,
    after: Engine,
    closed: Option<DedupClosed>,
    closed_then: Option<DedupClosed>,
    peer: Endpoint,
    mid: MessageId,
    now_ms: u64,
    request: Code,
) -> bool {
    let key = DedupKey { mid, peer };
    let place = dedup_place(before.store.dedup.rows@, dedup_key(key));
    &&& dedup_frame(before, after)
    &&& closed_then == closed_after(closed, key, kept_until(now_ms), request, place.is_some())
    &&& match place {
        Some(at) => {
            &&& 0 <= at < before.store.dedup.rows@.len()
            &&& after.store.dedup.rows@ == before.store.dedup.rows@.update(
                at,
                after.store.dedup.rows@[at],
            )
            &&& after.store.dedup.rows@[at].is_some()
            &&& is_ack_row(after.store.dedup.rows@[at]->0, mid, peer, kept_until(now_ms))
            &&& after.store.tx.slots@ == unpinned(
                before.store.tx.slots@,
                before.store.dedup.rows@[at],
            )
        },
        None => after == before,
    }
    &&& place.is_some() && pins_ok(before) ==> others_kept(before, after, place->0)
    &&& pins_ok(before) ==> pins_ok(after)
}

proof fn lemma_dedup_place(rows: Seq<Option<DedupEntry>>, key: KeyView)
    ensures
        dedup_place(rows, key) matches Some(i) ==> 0 <= i < rows.len(),
{
    lemma_find_row(rows, key);
    lemma_free_row(rows);
    lemma_oldest(rows, false);
}

/// Keep an empty acknowledgement as the answer to a request.
pub fn remember_empty_ack(
    engine: &mut Engine,
    peer: Endpoint,
    mid: MessageId,
    now_ms: u64,
    request: Code,
    closed: &mut Option<DedupClosed>,
)
    requires
        old(engine).wf(),
    ensures
        final(engine).wf(),
        ack_kept(
            *old(engine),
            *final(engine),
            *old(closed),
            *final(closed),
            peer,
            mid,
            now_ms,
            request,
        ),
{
    let row = ack_row(mid, peer, dedup_due_ms(now_ms));
    proof {
        lemma_dedup_place(engine.store.dedup.rows@, row.row_key());
    }
    let ghost rows = engine.store.dedup.rows@;
    let _ = note_dedup_store(engine, row, request, closed);
    proof {
        match dedup_place(rows, row.row_key()) {
            Some(at) => {
                assert(engine.store.dedup.rows@ =~= rows.update(
                    at,
                    engine.store.dedup.rows@[at],
                ));
            },
            None => {},
        }
    }
}

/// A request that must not run twice and has just been acknowledged is live
/// afterwards: its row is kept, or it is remembered as closed.
pub proof fn law_acknowledged_is_live(
    before: Engine,
    after: Engine,
    closed: Option<DedupClosed>,
    closed_then: Option<DedupClosed>,
    peer: Endpoint,
    mid: MessageId,
    now_ms: u64,
    request: Code,
)
    requires
        before.wf(),
        after.wf(),
        ack_kept(before, after, closed, closed_then, peer, mid, now_ms, request),
        !may_rerun(request),
        now_ms < u64::MAX,
        closed matches Some(c) ==> (c.key == (DedupKey { mid, peer }) ==> !c.expired(now_ms)),
    ensures
        answer_live(after, DedupKey { mid, peer }, now_ms) || closed_live(
            closed_then,
            DedupKey { mid, peer },
            now_ms,
        ),
{
    let key = DedupKey { mid, peer };
    let rows = after.store.dedup.rows@;
    match dedup_place(before.store.dedup.rows@, dedup_key(key)) {
        Some(at) => {
            lemma_find_row(rows, dedup_key(key));
            assert(rows[at]->0.row_key() == dedup_key(key));
            match find_row(rows, dedup_key(key)) {
                Some(k) => {
                    if k < at {
                        assert(rows[k]->0.row_key() != rows[at]->0.row_key());
                    } else if at < k {
                        assert(rows[at]->0.row_key() != rows[k]->0.row_key());
                    }
                },
                None => {},
            }
        },
        None => {},
    }
}

/// What giving up a kept slot does: the answer becomes an empty acknowledgement.
pub open spec fn pin_evicted(before: Engine, after: Engine, at: int) -> bool {
    &&& 0 <= at < before.store.dedup.rows@.len()
    &&& oldest(before.store.dedup.rows@, true) == Some(at)
    &&& before.store.dedup.rows@[at].is_some()
    &&& after.store.dedup.rows@ == before.store.dedup.rows@.update(
        at,
        after.store.dedup.rows@[at],
    )
    &&& after.store.dedup.rows@[at].is_some()
    &&& is_ack_row(
        after.store.dedup.rows@[at]->0,
        before.store.dedup.rows@[at]->0.mid,
        before.store.dedup.rows@[at]->0.peer,
        before.store.dedup.rows@[at]->0.due_ms,
    )
    &&& after == (Engine {
        store: Store { dedup: after.store.dedup, tx: after.store.tx, ..before.store },
        pending: after.pending,
        ..before
    })
    &&& after.store.tx.slot_bytes == before.store.tx.slot_bytes
    &&& after.store.tx.slots@ == unpinned(
        before.store.tx.slots@,
        before.store.dedup.rows@[at],
    )
    &&& pins_ok(before) ==> after.pending@ == before.pending@
    &&& pins_ok(before) ==> free_row(after.store.tx.slots@).is_some()
    &&& pins_ok(before) ==> others_kept(before, after, at)
}

impl Engine {
    /// Free the slot of the oldest answer that keeps one; from then on the
    /// request is answered with an empty acknowledgement.
    pub fn evict_one_dedup_pin(&mut self) -> (found: bool)
        requires
            old(self).wf(),
        ensures
            final(self).wf(),
            dedup_frame(*old(self), *final(self)),
            pins_ok(*old(self)) ==> pins_ok(*final(self)),
            found == oldest(old(self).store.dedup.rows@, true).is_some(),
            found ==> pin_evicted(
                *old(self),
                *final(self),
                oldest(old(self).store.dedup.rows@, true)->0,
            ),
            !found ==> *final(self) == *old(self),
    {
        let ghost first = *self;
        proof {
            lemma_oldest(self.store.dedup.rows@, true);
        }
        match self.find_oldest(true) {
            None => {
                proof {
                    lemma_leak_free_same(first, *self);
                    lemma_pins_same(first, *self);
                }
                false
            },
            Some(at) => {
                let row: Option<DedupEntry> = match &self.store.dedup.rows[at] {
                    Some(e) => Some(ack_row(e.mid, e.peer, e.due_ms)),
                    None => None,
                };
                if let Some(row) = row {
                    self.release_dedup_row(at);
                    let ghost second = *self;
                    let ghost rows = first.store.dedup.rows@;
                    proof {
                        lemma_find_row(rows, row.row_key());
                        lemma_find_unique(rows, at as int);
                        lemma_unique_fresh(second.store.dedup.rows@, at as int, row, rows);
                    }
                    self.store.dedup.rows.set(at, Some(row));
                    proof {
                        assert(self.store.dedup.rows@ =~= rows.update(at as int, Some(row)));
                        lemma_leak_free_row_added(second, *self, at as int);
                        lemma_leak_free_trans(first, second, *self);
                        lemma_kept_pins(first, second, *self, at as int);
                        if pins_ok(first) {
                            assert forall|k: int|
                                0 <= k < rows.len() && k != at implies #[trigger] reply_kept(
                                first,
                                *self,
                                k,
                            ) by {
                                assert(reply_kept(first, second, k));
                            }
                            assert(pin_ok(first, rows[at as int])) by {
                                reveal(pins_ok);
                            }
                            let p = rows[at as int]->0.tx_pin->0.at as int;
                            assert(pins(rows[at as int], p));
                            assert(self.store.tx.slots@[p].is_none());
                            lemma_free_row(self.store.tx.slots@);
                        }
                    }
                }
                true
            },
        }
    }

    /// Forget every answer whose time has come.
    pub fn expire_dedup(&mut self, now_ms: u64)
        requires
            old(self).wf(),
        ensures
            final(self).wf(),
            dedup_frame(*old(self), *final(self)),
            pins_ok(*old(self)) ==> pins_ok(*final(self)),
            forall|i: int|
                0 <= i < old(self).store.dedup.rows@.len() ==> #[trigger] final(
                    self).store.dedup.rows@[i] == unexpired(old(self).store.dedup.rows@[i], now_ms),
            pins_ok(*old(self)) ==> live_kept(*old(self), *final(self), now_ms),
    {
        let ghost first = *self;
        let ghost rows = self.store.dedup.rows@;
        proof {
            lemma_leak_free_same(first, *self);
            lemma_pins_same(first, *self);
        }
        let mut i: usize = 0;
        while i < self.store.dedup.rows.len()
            invariant
                self.wf(),
                pins_ok(first) ==> pins_ok(*self),
                first == *old(self),
                rows == old(self).store.dedup.rows@,
                dedup_frame(first, *self),
                i <= rows.len(),
                self.store.dedup.rows@.len() == rows.len(),
                forall|k: int|
                    0 <= k < i ==> #[trigger] self.store.dedup.rows@[k] == unexpired(
                        rows[k],
                        now_ms,
                    ),
                forall|k: int|
                    i <= k < rows.len() ==> #[trigger] self.store.dedup.rows@[k] == rows[k],
                pins_ok(first) ==> forall|k: int|
                    0 <= k < rows.len() && (k >= i || unexpired(rows[k], now_ms) == rows[k])
                        ==> #[trigger] reply_kept(first, *self, k),
            decreases rows.len() - i,
        {
            let due: bool = match &self.store.dedup.rows[i] {
                Some(row) => row.due_ms != 0 && now_ms >= row.due_ms,
                None => false,
            };
            if due {
                let ghost before = *self;
                self.release_dedup_row(i);
                proof {
                    lemma_leak_free_trans(first, before, *self);
                    lemma_untouched_trans(first, before, *self);
                    if pins_ok(first) {
                        assert forall|k: int|
                            0 <= k < rows.len() && (k > i || unexpired(rows[k], now_ms)
                                == rows[k]) implies #[trigger] reply_kept(first, *self, k) by {
                            assert(reply_kept(first, before, k));
                            assert(k != i);
                            assert(reply_kept(before, *self, k));
                        }
                    }
                }
            }
            i = i + 1;
        }
    }
}

/// The replies whose time has not come stay as they are.
pub open spec fn live_kept(before: Engine, after: Engine, now_ms: u64) -> bool {
    forall|k: int|
        0 <= k < before.store.dedup.rows@.len() && unexpired(
            before.store.dedup.rows@[k],
            now_ms,
        ) == before.store.dedup.rows@[k] ==> #[trigger] reply_kept(before, after, k)
}

/// The row, unless its time has come.
pub open spec fn unexpired(row: Option<DedupEntry>, now_ms: u64) -> Option<DedupEntry> {
    match row {
        Some(r) => if r.expired(now_ms) {
            None
        } else {
            row
        },
        None => None,
    }
}

/// Forget every answer whose time has come, and the closed request.
pub fn expire_request_dedup(engine: &mut Engine, closed: &mut Option<DedupClosed>, now_ms: u64)
    requires
        old(engine).wf(),
    ensures
        final(engine).wf(),
        dedup_frame(*old(engine), *final(engine)),
        pins_ok(*old(engine)) ==> pins_ok(*final(engine)),
        forall|i: int|
            0 <= i < old(engine).store.dedup.rows@.len() ==> #[trigger] final(
                engine).store.dedup.rows@[i] == unexpired(old(engine).store.dedup.rows@[i], now_ms),
        pins_ok(*old(engine)) ==> live_kept(*old(engine), *final(engine), now_ms),
        *final(closed) == match *old(closed) {
            Some(c) => if c.expired(now_ms) {
                None
            } else {
                Some(c)
            },
            None => None,
        },
{
    if let Some(c) = *closed {
        if c.due_ms != 0 && now_ms >= c.due_ms {
            *closed = None;
        }
    }
    engine.expire_dedup(now_ms);
}

} // verus!
