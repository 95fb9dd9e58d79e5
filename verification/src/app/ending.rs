//! How calls end without a response.
use vstd::prelude::*;

use super::calls::{Call, CallFailure};
use super::inbox::{ended, InboxRow, LiveCall};
use super::outbound::{contacted, lemma_contacted_same, lemma_contacted_trans};
use super::owned::{carried, lemma_all_failed_owned, lemma_failed_owned, lemma_overdue_live, owned};
use super::reactor::{
    calm, lemma_calm_same, lemma_calm_settled, lemma_calm_trans, lemma_pins_stay, lemma_sends_one,
    Core,
};
use crate::message::MessageId;
use crate::storage::blocks::{belongs, first_keyed, none_keyed};
use crate::storage::endpoint::{
    BlockKey, BlockKeyView, Endpoint, ExchangeKey, ObserveKey, SlotId,
};
use crate::storage::engine::{
    con_settled, is_con, settled, slots_unwaited, unwaited, waits, Engine, Store,
};
use crate::storage::metrics::{inc, Metrics};
use crate::storage::rows::ExchangeEntry;
use crate::storage::table::{find_row, lemma_find_row, place_row, without, Keyed};
use crate::storage::transfer::{BlockRole, BodySlot};

verus! {

/// The row of a call that failed.
pub open spec fn failed_row(call: Call, failure: CallFailure) -> InboxRow {
    InboxRow { complete: true, call, meta: Err(failure), body: None }
}

/// The inbox after a call failed: its row says why, if there is room for it.
pub open spec fn inbox_failed(
    rows: Seq<Option<InboxRow>>,
    call: Call,
    failure: CallFailure,
) -> Seq<Option<InboxRow>> {
    match place_row(rows, call.key()) {
        Some(i) => rows.update(i, Some(failed_row(call, failure))),
        None => rows,
    }
}

/// The calls under way after one ended: it has no time limits any more.
pub open spec fn lives_ended(rows: Seq<Option<LiveCall>>, call: Call) -> Seq<Option<LiveCall>> {
    match find_row(rows, call.key()) {
        Some(i) => rows.update(i, Some(ended(rows[i]->0))),
        None => rows,
    }
}

/// Does an incoming response body belong to a call?
pub open spec fn downloads(slot: Option<BodySlot>, call: Call) -> bool {
    match slot {
        Some(s) => s.transfer.key.token@ == call.token@ && s.transfer.key.peer == call.peer && (
        s.transfer.role == BlockRole::IncomingBlock2 || s.transfer.role
            == BlockRole::IncomingQBlock2),
        None => false,
    }
}

/// The body of the reply to a call that waits, if a failure takes its place.
pub open spec fn replaced_body(rows: Seq<Option<InboxRow>>, call: Call) -> Option<SlotId> {
    match find_row(rows, call.key()) {
        Some(i) => rows[i]->0.body,
        None => None,
    }
}

/// The first body with this key is let go.
pub open spec fn first_dropped(
    slots: Seq<Option<BodySlot>>,
    then: Seq<Option<BodySlot>>,
    key: BlockKeyView,
) -> bool {
    ||| then == slots && none_keyed(slots, key)
    ||| exists|i: int| #[trigger] first_keyed(slots, key, i) && then == slots.update(i, None)
}

/// How the upload of a call is found.
pub open spec fn upload_key_of<T>(c: Core<T>, call: Call) -> BlockKeyView {
    BlockKeyView { token: call.token@, peer: call.peer, identity: c.lives.upload_tag(call) }
}

/// The bodies of a call are let go: what came in of its response, and what of
/// its request is still to go out.
pub open spec fn bodies_dropped<T>(a: Core<T>, b: Core<T>, call: Call) -> bool {
    match a.engine.store.bodies {
        None => b.engine.store.bodies == a.engine.store.bodies,
        Some(p) => b.engine.store.bodies matches Some(q) && {
            &&& q.rx.slots@.len() == p.rx.slots@.len()
            &&& q.rx.slot_bytes == p.rx.slot_bytes
            &&& q.tx.slot_bytes == p.tx.slot_bytes
            &&& forall|i: int|
                0 <= i < p.rx.slots@.len() ==> #[trigger] q.rx.slots@[i] == if downloads(
                    p.rx.slots@[i],
                    call,
                ) || replaced_body(a.inbox.rows.rows@, call) == Some(SlotId { at: i as usize }) {
                    None
                } else {
                    p.rx.slots@[i]
                }
            &&& first_dropped(p.tx.slots@, q.tx.slots@, upload_key_of(a, call))
        },
    }
}

/// The request of a call waits no more for its acknowledgement, if told so.
pub open spec fn request_settled(a: Engine, b: Engine, call: Call, release: bool) -> bool {
    match a.exchanges.row(call.key()) {
        Some(e) => if release {
            &&& b.pending@ == unwaited(a.pending@, e.mid, call.peer)
            &&& b.store.tx.slots@ == slots_unwaited(
                a.store.tx.slots@,
                a.pending@,
                e.mid,
                call.peer,
            )
            &&& b.store.tx.slot_bytes == a.store.tx.slot_bytes
        } else {
            b.pending == a.pending && b.store.tx == a.store.tx
        },
        None => b.pending == a.pending && b.store.tx == a.store.tx,
    }
}

/// What failing a call does: nothing of it is left but the reason, for whoever
/// asks, and, unless that is released, the message that waits for its
/// acknowledgement. Nothing is sent.
pub open spec fn call_failed<T>(
    a: Core<T>,
    b: Core<T>,
    call: Call,
    failure: CallFailure,
    release: bool,
) -> bool {
    &&& contacted(a, b, call.peer)
    &&& b == (Core { engine: b.engine, inbox: b.inbox, lives: b.lives, ..a })
    &&& b.engine == (Engine {
        store: Store {
            tx: b.engine.store.tx,
            bodies: b.engine.store.bodies,
            observe: b.engine.store.observe,
            ..a.engine.store
        },
        exchanges: b.engine.exchanges,
        pending: b.engine.pending,
        metrics: b.engine.metrics,
        ..a.engine
    })
    &&& b.engine.metrics == if observing(a.engine, call) {
        Metrics { observe_cancel: inc(a.engine.metrics.observe_cancel), ..a.engine.metrics }
    } else {
        a.engine.metrics
    }
    &&& request_settled(a.engine, b.engine, call, release)
    &&& b.engine.exchanges.rows@ == without(a.engine.exchanges.rows@, call.key())
    &&& b.engine.store.observe.rows@ == without(a.engine.store.observe.rows@, call.key())
    &&& b.inbox.rows.rows@ == inbox_failed(a.inbox.rows.rows@, call, failure)
    &&& b.lives.rows.rows@ == lives_ended(a.lives.rows.rows@, call)
    &&& bodies_dropped(a, b, call)
}

impl<T> Core<T> {
    /// Stop waiting for an acknowledgement, and free the slot.
    pub fn settle(&mut self, mid: MessageId, peer: Endpoint) -> (found: bool)
        requires
            old(self).wf(),
        ensures
            final(self).wf(),
            contacted(*old(self), *final(self), peer),
            found == waits(old(self).engine, mid, peer),
            !waits(final(self).engine, mid, peer),
            !found ==> *final(self) == *old(self),
            con_settled(old(self).engine, final(self).engine, mid, peer),
            *final(self) == (Core { engine: final(self).engine, ..*old(self) }),
    {
        let ghost first = *self;
        let found: bool = self.engine.settle_con(mid, peer);
        proof {
            if found {
                let at = choose|at: int|
                    #[trigger] settled(first.engine, self.engine, at, mid, peer);
                lemma_calm_settled(first.engine, self.engine, at);
            } else {
                lemma_calm_same(first.engine, self.engine);
            }
            lemma_sends_one(first.port.log@, self.port.log@, peer);
            lemma_pins_stay(first.engine, self.engine);
        }
        found
    }

    /// Let go of the bodies of a call: what came in of its response, and what
    /// of its request is still to go out.
    fn release_bodies(&mut self, call: Call)
        requires
            old(self).wf(),
        ensures
            final(self).wf(),
            contacted(*old(self), *final(self), call.peer),
            *final(self) == (Core { engine: final(self).engine, ..*old(self) }),
            final(self).engine == (Engine {
                store: Store { bodies: final(self).engine.store.bodies, ..old(self).engine.store },
                ..old(self).engine
            }),
            match old(self).engine.store.bodies {
                None => final(self).engine.store.bodies == old(self).engine.store.bodies,
                Some(p) => final(self).engine.store.bodies matches Some(q) && {
                    &&& q.rx.slots@.len() == p.rx.slots@.len()
                    &&& q.rx.slot_bytes == p.rx.slot_bytes
                    &&& q.tx.slot_bytes == p.tx.slot_bytes
                    &&& forall|i: int|
                        0 <= i < p.rx.slots@.len() ==> #[trigger] q.rx.slots@[i] == if downloads(
                            p.rx.slots@[i],
                            call,
                        ) {
                            None
                        } else {
                            p.rx.slots@[i]
                        }
                    &&& first_dropped(p.tx.slots@, q.tx.slots@, upload_key_of(*old(self), call))
                },
            },
    {
        let ghost first = *self;
        let key = BlockKey::new(call.token, call.peer);
        self.engine.release_downloads(&key);
        let ghost second = *self;
        let mine = self.lives.upload_key(call);
        assert(mine@ == upload_key_of(first, call));
        if let Some(body) = self.engine.lookup_tx_body(mine) {
            self.engine.release_tx_body(body);
            assert(first_keyed(
                second.engine.store.bodies->0.tx.slots@,
                mine@,
                body.at as int,
            ));
        }
        proof {
            if let Some(p) = first.engine.store.bodies {
                let slots = self.engine.store.bodies->0.rx.slots@;
                assert forall|i: int| 0 <= i < p.rx.slots@.len() implies #[trigger] slots[i]
                    == if downloads(p.rx.slots@[i], call) {
                    None
                } else {
                    p.rx.slots@[i]
                } by {
                    assert(slots[i] == if belongs(
                        p.rx.slots@[i],
                        key,
                        BlockRole::IncomingBlock2,
                        BlockRole::IncomingQBlock2,
                    ) {
                        None
                    } else {
                        p.rx.slots@[i]
                    });
                }
            }
            lemma_contacted_same(first, *self, call.peer);
            lemma_pins_stay(first.engine, self.engine);
        }
    }

    /// End a call without a response.
    ///
    /// Unless told otherwise, a request that waits for its acknowledgement
    /// waits no more.
    pub fn fail_call(&mut self, call: Call, failure: CallFailure, release_pending: bool)
        requires
            old(self).wf(),
        ensures
            final(self).wf(),
            call_failed(*old(self), *final(self), call, failure, release_pending),
    {
        let ghost first = *self;
        let entry = self.engine.take_exchange(ExchangeKey::new(call.token, call.peer));
        let ghost second = *self;
        proof {
            lemma_contacted_same(first, second, call.peer);
            lemma_pins_stay(first.engine, second.engine);
            lemma_find_row(first.engine.exchanges.rows@, call.key());
        }
        if let Some(e) = entry {
            if release_pending {
                let _ = self.settle(e.mid, e.peer);
                proof {
                    assert(e.peer == call.peer);
                    lemma_contacted_trans(first, second, *self, call.peer);
                }
            }
        }
        let ghost third = *self;
        let _ = self.engine.take_observe(ObserveKey::new_client(call.token, call.peer));
        proof {
            lemma_find_row(third.engine.store.observe.rows@, call.key());
        }
        let row = InboxRow { complete: true, call, meta: Err(failure), body: None };
        let ghost fourth = *self;
        if let Ok(Some(body)) = self.inbox.put(row) {
            self.engine.release_rx_body(body);
        }
        let ghost fifth = *self;
        proof {
            lemma_contacted_same(third, fifth, call.peer);
            lemma_contacted_trans(first, third, fifth, call.peer);
            lemma_pins_stay(third.engine, fifth.engine);
        }
        self.release_bodies(call);
        let ghost sixth = *self;
        proof {
            lemma_contacted_trans(first, fifth, sixth, call.peer);
        }
        self.lives.finish(call);
        proof {
            lemma_contacted_same(sixth, *self, call.peer);
            lemma_contacted_trans(first, sixth, *self, call.peer);
            assert(request_settled(first.engine, self.engine, call, release_pending));
            assert(self.engine.metrics == fourth.engine.metrics);
            assert(bodies_dropped(first, *self, call)) by {
                if let Some(p) = first.engine.store.bodies {
                    let q = self.engine.store.bodies->0;
                    let mid = fifth.engine.store.bodies->0;
                    assert(upload_key_of(fifth, call) == upload_key_of(first, call));
                    lemma_find_row(first.inbox.rows.rows@, call.key());
                    assert(p.rx.slots.len() == p.rx.slots@.len());
                    assert forall|i: int| 0 <= i < p.rx.slots@.len() implies #[trigger] q.rx.slots@[i]
                        == if downloads(p.rx.slots@[i], call) || replaced_body(
                        first.inbox.rows.rows@,
                        call,
                    ) == Some(SlotId { at: i as usize }) {
                        None
                    } else {
                        p.rx.slots@[i]
                    } by {
                        assert(q.rx.slots@[i] == if downloads(mid.rx.slots@[i], call) {
                            None
                        } else {
                            mid.rx.slots@[i]
                        });
                    }
                }
            }
        }
    }
}

/// Was the request of this row last sent from this slot?
pub open spec fn sent_from(row: Option<ExchangeEntry>, tx: SlotId) -> bool {
    row matches Some(e) && e.tx == tx
}

/// Was the request of this row sent with this identifier to this peer?
pub open spec fn sent_as(row: Option<ExchangeEntry>, mid: MessageId, peer: Endpoint) -> bool {
    row matches Some(e) && e.mid == mid && e.peer == peer
}

/// Is this the first request that was last sent from this slot?
pub open spec fn first_sent_from(e: Engine, tx: SlotId, x: ExchangeEntry) -> bool {
    exists|i: int|
        0 <= i < e.exchanges.rows@.len() && #[trigger] e.exchanges.rows@[i] == Some(x) && x.tx == tx
            && forall|k: int| 0 <= k < i ==> !sent_from(#[trigger] e.exchanges.rows@[k], tx)
}

/// Is this the first request that was sent with this identifier to this peer?
pub open spec fn first_sent_as(
    e: Engine,
    mid: MessageId,
    peer: Endpoint,
    x: ExchangeEntry,
) -> bool {
    exists|i: int|
        0 <= i < e.exchanges.rows@.len() && #[trigger] e.exchanges.rows@[i] == Some(x) && x.mid
            == mid && x.peer == peer && forall|k: int|
            0 <= k < i ==> !sent_as(#[trigger] e.exchanges.rows@[k], mid, peer)
}

impl Engine {
    /// The first request that was last sent from a slot.
    pub fn exchange_for_tx(&self, tx: SlotId) -> (r: Option<ExchangeEntry>)
        ensures
            match r {
                Some(e) => first_sent_from(*self, tx, e),
                None => forall|k: int|
                    0 <= k < self.exchanges.rows@.len() ==> !sent_from(
                        #[trigger] self.exchanges.rows@[k],
                        tx,
                    ),
            },
    {
        let mut i: usize = 0;
        while i < self.exchanges.rows.len()
            invariant
                i <= self.exchanges.rows@.len(),
                forall|k: int| 0 <= k < i ==> !sent_from(#[trigger] self.exchanges.rows@[k], tx),
            decreases self.exchanges.rows@.len() - i,
        {
            if let Some(e) = self.exchanges.rows[i] {
                if e.tx == tx {
                    assert(self.exchanges.rows@[i as int] == Some(e));
                    return Some(e);
                }
            }
            i = i + 1;
        }
        None
    }

    /// The first request with this identifier and peer.
    pub fn exchange_for_mid(&self, mid: MessageId, peer: Endpoint) -> (r: Option<ExchangeEntry>)
        ensures
            match r {
                Some(e) => first_sent_as(*self, mid, peer, e),
                None => forall|k: int|
                    0 <= k < self.exchanges.rows@.len() ==> !sent_as(
                        #[trigger] self.exchanges.rows@[k],
                        mid,
                        peer,
                    ),
            },
    {
        let mut i: usize = 0;
        while i < self.exchanges.rows.len()
            invariant
                i <= self.exchanges.rows@.len(),
                forall|k: int| 0 <= k < i ==> !sent_as(#[trigger] self.exchanges.rows@[k], mid, peer),
            decreases self.exchanges.rows@.len() - i,
        {
            if let Some(e) = self.exchanges.rows[i] {
                if e.mid == mid && e.peer == peer {
                    assert(self.exchanges.rows@[i as int] == Some(e));
                    return Some(e);
                }
            }
            i = i + 1;
        }
        None
    }
}

/// Is this the request that a reset is about: the one that waits for its
/// acknowledgement with this identifier, or else the one sent with it?
pub open spec fn reset_about(e: Engine, mid: MessageId, peer: Endpoint, x: ExchangeEntry) -> bool {
    if awaited_request(e, mid, peer) {
        exists|k: int|
            0 <= k < e.pending@.len() && is_con(#[trigger] e.pending@[k], mid, peer)
                && first_sent_from(e, SlotId { at: k as usize }, x)
    } else {
        first_sent_as(e, mid, peer, x)
    }
}

/// Is the message that waits with this identifier and peer a request?
pub open spec fn awaited_request(e: Engine, mid: MessageId, peer: Endpoint) -> bool {
    exists|k: int, j: int|
        0 <= k < e.pending@.len() && is_con(#[trigger] e.pending@[k], mid, peer) && 0 <= j
            < e.exchanges.rows@.len() && sent_from(
            #[trigger] e.exchanges.rows@[j],
            SlotId { at: k as usize },
        )
}

/// What observing a call that is under way still means.
pub open spec fn observing(e: Engine, call: Call) -> bool {
    find_row(e.store.observe.rows@, call.key()).is_some()
}

/// Why a call that is under way ends now: its deadline has come, or its
/// lifetime is over and no response came. One whose reply only waits to be
/// fetched does not end.
pub open spec fn overdue<T>(c: Core<T>, live: LiveCall, now_ms: u64) -> Option<CallFailure> {
    if c.inbox.has(live.call) && !observing(c.engine, live.call) {
        None
    } else if live.deadline_ms.is_some() && live.deadline_ms->0 <= now_ms {
        Some(CallFailure::DeadlineExceeded)
    } else if live.due_ms != 0 && now_ms >= live.due_ms && find_row(
        c.engine.exchanges.rows@,
        live.call.key(),
    ).is_some() {
        Some(CallFailure::TimedOut)
    } else {
        None
    }
}

/// The calls that end now, with the reasons.
pub open spec fn overdue_calls<T>(c: Core<T>, rows: Seq<Option<LiveCall>>, now_ms: u64) -> Seq<
    (Call, CallFailure),
>
    decreases rows.len(),
{
    if rows.len() == 0 {
        Seq::empty()
    } else {
        let front = overdue_calls(c, rows.drop_last(), now_ms);
        match rows.last() {
            Some(live) => match overdue(c, live, now_ms) {
                Some(failure) => front.push((live.call, failure)),
                None => front,
            },
            None => front,
        }
    }
}

/// The calls of a list fail, one after the other; none of them waits for its
/// acknowledgement any more.
pub open spec fn all_failed<T>(a: Core<T>, b: Core<T>, list: Seq<(Call, CallFailure)>) -> bool
    decreases list.len(),
{
    if list.len() == 0 {
        b == a
    } else {
        exists|c: Core<T>|
            #[trigger] call_failed(c, b, list.last().0, list.last().1, true) && all_failed(
                a,
                c,
                list.drop_last(),
            )
    }
}

/// What ending calls leaves alone: incoming datagrams; nothing is sent.
pub open spec fn quiet<T>(a: Core<T>, b: Core<T>) -> bool {
    &&& calm(a.engine, b.engine)
    &&& b.engine.store.rx == a.engine.store.rx
    &&& b.engine.store.dedup == a.engine.store.dedup
    &&& b.closed == a.closed
    &&& b.port == a.port
    &&& b.ids == a.ids
}

impl<T> Core<T> {
    /// Is a call still observing?
    pub fn client_observe_live(&self, call: Call) -> (b: bool)
        ensures
            b == observing(self.engine, call),
    {
        self.engine.lookup_observe(ObserveKey::new_client(call.token, call.peer)).is_some()
    }

    /// A message was sent often enough: if it was a request, its call ends.
    pub fn give_up_client(&mut self, tx: SlotId)
        requires
            old(self).wf(),
        ensures
            final(self).wf(),
            carried(*old(self), *final(self)),
            quiet(*old(self), *final(self)),
            final(self).engine.store.tx == old(self).engine.store.tx,
            final(self).engine.pending == old(self).engine.pending,
            (forall|k: int|
                0 <= k < old(self).engine.exchanges.rows@.len() ==> !sent_from(
                    #[trigger] old(self).engine.exchanges.rows@[k],
                    tx,
                )) ==> *final(self) == *old(self),
            (exists|k: int|
                0 <= k < old(self).engine.exchanges.rows@.len() && sent_from(
                    #[trigger] old(self).engine.exchanges.rows@[k],
                    tx,
                )) ==> exists|x: ExchangeEntry|
                #[trigger] first_sent_from(old(self).engine, tx, x) && call_failed(
                    *old(self),
                    *final(self),
                    Call { token: x.token, peer: x.peer },
                    CallFailure::TimedOut,
                    false,
                ),
    {
        let ghost first = *self;
        match self.engine.exchange_for_tx(tx) {
            Some(e) => {
                self.fail_call(Call::new(e.token, e.peer), CallFailure::TimedOut, false);
                assert(first_sent_from(first.engine, tx, e));
                proof {
                    let call = Call { token: e.token, peer: e.peer };
                    let i = choose|i: int|
                        0 <= i < first.engine.exchanges.rows@.len()
                            && #[trigger] first.engine.exchanges.rows@[i] == Some(e);
                    crate::storage::table::lemma_find_unique(first.engine.exchanges.rows@, i);
                    lemma_failed_owned(first, *self, call, CallFailure::TimedOut, false);
                }
            },
            None => {
                proof {
                    lemma_calm_same(first.engine, self.engine);
                }
            },
        }
    }

    /// A message was rejected: if it was a request, its call ends.
    pub fn complete_client_rst(&mut self, mid: MessageId, peer: Endpoint)
        requires
            old(self).wf(),
        ensures
            final(self).wf(),
            carried(*old(self), *final(self)),
            quiet(*old(self), *final(self)),
            final(self).engine.store.tx == old(self).engine.store.tx,
            final(self).engine.pending == old(self).engine.pending,
            *final(self) == *old(self) || exists|x: ExchangeEntry|
                #[trigger] reset_about(old(self).engine, mid, peer, x) && call_failed(
                    *old(self),
                    *final(self),
                    Call { token: x.token, peer: x.peer },
                    CallFailure::Reset,
                    false,
                ),
            *final(self) == *old(self) ==> !awaited_request(old(self).engine, mid, peer) && forall|
                k: int,
            |
                0 <= k < old(self).engine.exchanges.rows@.len() ==> !sent_as(
                    #[trigger] old(self).engine.exchanges.rows@[k],
                    mid,
                    peer,
                ),
    {
        let ghost first = *self;
        let waiting = match self.engine.lookup_pending_con(mid, peer) {
            Some(tx) => {
                let e = self.engine.exchange_for_tx(tx);
                proof {
                    if e.is_some() {
                        assert(is_con(first.engine.pending@[tx.at as int], mid, peer));
                        assert(reset_about(first.engine, mid, peer, e->0));
                    }
                }
                e
            },
            None => None,
        };
        let entry = match waiting {
            Some(e) => Some(e),
            None => {
                let e = self.engine.exchange_for_mid(mid, peer);
                proof {
                    if e.is_some() {
                        assert(reset_about(first.engine, mid, peer, e->0));
                    }
                }
                e
            },
        };
        match entry {
            Some(e) => {
                self.fail_call(Call::new(e.token, e.peer), CallFailure::Reset, false);
                proof {
                    lemma_find_row(
                        self.engine.exchanges.rows@,
                        Call { token: e.token, peer: e.peer }.key(),
                    );
                    assert(reset_about(first.engine, mid, peer, e));
                    let i = choose|i: int|
                        0 <= i < first.engine.exchanges.rows@.len()
                            && #[trigger] first.engine.exchanges.rows@[i] == Some(e);
                    crate::storage::table::lemma_find_unique(first.engine.exchanges.rows@, i);
                    assert(self.engine.exchanges.rows@[i].is_none());
                    assert(*self != first);
                    lemma_failed_owned(
                        first,
                        *self,
                        Call { token: e.token, peer: e.peer },
                        CallFailure::Reset,
                        false,
                    );
                }
            },
            None => {
                proof {
                    lemma_calm_same(first.engine, self.engine);
                }
            },
        }
    }

    fn find_overdue(&self, now_ms: u64) -> (list: Vec<(Call, CallFailure)>)
        ensures
            list@ == overdue_calls(*self, self.lives.rows.rows@, now_ms),
    {
        let ghost rows = self.lives.rows.rows@;
        let mut list: Vec<(Call, CallFailure)> = Vec::new();
        let mut i: usize = 0;
        assert(rows.subrange(0, 0).len() == 0);
        while i < self.lives.rows.rows.len()
            invariant
                rows == self.lives.rows.rows@,
                i <= rows.len(),
                list@ == overdue_calls(*self, rows.subrange(0, i as int), now_ms),
            decreases rows.len() - i,
        {
            let ghost next = rows.subrange(0, i + 1);
            assert(next.drop_last() =~= rows.subrange(0, i as int));
            assert(next.last() == rows[i as int]);
            if let Some(live) = &self.lives.rows.rows[i] {
                let call = live.call;
                if !(self.inbox.contains(call) && !self.client_observe_live(call)) {
                    let late: bool = match live.deadline_ms {
                        Some(deadline) => now_ms >= deadline,
                        None => false,
                    };
                    if late {
                        list.push((call, CallFailure::DeadlineExceeded));
                    } else if live.due_ms != 0 && now_ms >= live.due_ms
                        && self.engine.lookup_exchange(
                        ExchangeKey::new(call.token, call.peer),
                    ).is_some() {
                        list.push((call, CallFailure::TimedOut));
                    }
                }
            }
            i = i + 1;
        }
        assert(rows.subrange(0, i as int) =~= rows);
        list
    }

    /// End the calls whose time has come.
    pub fn expire_client_exchanges(&mut self, now_ms: u64)
        requires
            old(self).wf(),
        ensures
            final(self).wf(),
            carried(*old(self), *final(self)),
            quiet(*old(self), *final(self)),
            all_failed(
                *old(self),
                *final(self),
                overdue_calls(*old(self), old(self).lives.rows.rows@, now_ms),
            ),
    {
        let ghost first = *self;
        let list = self.find_overdue(now_ms);
        let mut i: usize = 0;
        proof {
            lemma_calm_same(first.engine, self.engine);
            assert(list@.subrange(0, 0).len() == 0);
        }
        while i < list.len()
            invariant
                self.wf(),
                i <= list@.len(),
                first == *old(self),
                quiet(first, *self),
                all_failed(first, *self, list@.subrange(0, i as int)),
            decreases list@.len() - i,
        {
            let ghost before = *self;
            let ghost next = list@.subrange(0, i + 1);
            let (call, failure) = list[i];
            self.fail_call(call, failure, true);
            proof {
                lemma_calm_trans(first.engine, before.engine, self.engine);
                assert(next.drop_last() =~= list@.subrange(0, i as int));
                assert(next.last() == list@[i as int]);
                assert(call_failed(before, *self, next.last().0, next.last().1, true));
            }
            i = i + 1;
        }
        assert(list@.subrange(0, i as int) =~= list@);
        proof {
            if owned(first) {
                lemma_overdue_live(first, first.lives.rows.rows@, now_ms);
                lemma_all_failed_owned(first, *self, list@);
            }
        }
    }

    /// The missing blocks of a windowed body were asked for often enough: if
    /// it was a response, its call ends.
    pub fn qblock_give_up(&mut self, role: BlockRole, key: BlockKey)
        requires
            old(self).wf(),
        ensures
            final(self).wf(),
            carried(*old(self), *final(self)),
            quiet(*old(self), *final(self)),
            if role == BlockRole::IncomingQBlock2 && old(self).lives.row(
                Call { token: key.token, peer: key.peer },
            ).is_some() {
                call_failed(
                    *old(self),
                    *final(self),
                    Call { token: key.token, peer: key.peer },
                    CallFailure::TimedOut,
                    true,
                )
            } else {
                *final(self) == *old(self)
            },
    {
        let ghost first = *self;
        proof {
            lemma_calm_same(first.engine, self.engine);
        }
        if role == BlockRole::IncomingQBlock2 {
            let call = Call::new(key.token, key.peer);
            if self.lives.get(call).is_some() {
                self.fail_call(call, CallFailure::TimedOut, true);
                proof {
                    lemma_failed_owned(first, *self, call, CallFailure::TimedOut, true);
                }
            }
        }
    }

    /// Cancel a call that is under way. Nothing is sent.
    pub fn cancel_call(&mut self, call: Call) -> (b: bool)
        requires
            old(self).wf(),
        ensures
            final(self).wf(),
            carried(*old(self), *final(self)),
            quiet(*old(self), *final(self)),
            b == (old(self).lives.row(call).is_some() && (!old(self).inbox.has(call) || observing(
                old(self).engine,
                call,
            ))),
            b ==> call_failed(*old(self), *final(self), call, CallFailure::Cancelled, true),
            !b ==> *final(self) == *old(self),
    {
        let ghost first = *self;
        proof {
            lemma_calm_same(self.engine, self.engine);
        }
        if self.lives.get(call).is_none() || (self.inbox.contains(call)
            && !self.client_observe_live(call)) {
            return false;
        }
        self.fail_call(call, CallFailure::Cancelled, true);
        proof {
            lemma_failed_owned(first, *self, call, CallFailure::Cancelled, true);
        }
        true
    }
}

} // verus!
