//! The engine's observations.
use vstd::prelude::*;

use super::endpoint::{Endpoint, ObserveKey, SlotId};
use super::engine::{later, observe_key, Engine, Store};
use super::metrics::{inc, Metrics};
use super::rows::{NotifyHold, ObserveInterest, ObserveLifetime, PendingCon};
use super::table::{find_row, place_row, Keyed};
use crate::message::{MessageId, Transmission};

verus! {

/// The next sequence number, 24 bits.
pub open spec fn next_seq(seq: u32) -> u32 {
    ((seq + 1) % 0x1000000) as u32
}

/// The sequence number before this one, 24 bits.
pub open spec fn prev_seq(seq: u32) -> u32 {
    ((seq % 0x1000000 + 0xffffff) % 0x1000000) as u32
}

/// Is the row an observer of this route?
pub open spec fn observes(row: Option<ObserveInterest>, resource: Option<usize>) -> bool {
    match row {
        Some(r) => !r.client && resource.is_some() && r.resource == resource,
        None => false,
    }
}

/// The row with a notification wanted.
pub open spec fn signalled(
    row: Option<ObserveInterest>,
    resource: Option<usize>,
    deleted: bool,
) -> Option<ObserveInterest> {
    if observes(row, resource) {
        Some(ObserveInterest { pending: true, deleted: row->0.deleted || deleted, ..row->0 })
    } else {
        row
    }
}

/// How many observers of a route there are.
pub open spec fn observer_count(rows: Seq<Option<ObserveInterest>>, resource: Option<usize>) -> nat
    decreases rows.len(),
{
    if rows.len() == 0 {
        0
    } else {
        observer_count(rows.drop_last(), resource) + if observes(rows.last(), resource) {
            1nat
        } else {
            0nat
        }
    }
}

/// The row with its confirmable notification acknowledged.
pub open spec fn acknowledged(
    row: Option<ObserveInterest>,
    mid: MessageId,
    peer: Endpoint,
) -> Option<ObserveInterest> {
    match row {
        Some(r) => if !r.client && r.peer == peer && r.hold == Some(NotifyHold::Con(mid)) {
            Some(ObserveInterest { hold: None, ..r })
        } else {
            row
        },
        None => None,
    }
}

/// Is the row an observer whose latest notification had this identifier?
pub open spec fn notified_by(row: Option<ObserveInterest>, mid: MessageId, peer: Endpoint) -> bool {
    match row {
        Some(r) => !r.client && r.peer == peer && r.notify_mid == Some(mid),
        None => false,
    }
}

/// Is this the first observer whose latest notification had this identifier?
pub open spec fn first_notified_by(
    rows: Seq<Option<ObserveInterest>>,
    mid: MessageId,
    peer: Endpoint,
    at: int,
) -> bool {
    &&& 0 <= at < rows.len()
    &&& notified_by(rows[at], mid, peer)
    &&& forall|k: int| 0 <= k < at ==> !notified_by(#[trigger] rows[k], mid, peer)
}

/// Had the latest notification of an observer this identifier?
pub open spec fn any_notified_by(
    rows: Seq<Option<ObserveInterest>>,
    mid: MessageId,
    peer: Endpoint,
) -> bool {
    exists|i: int| 0 <= i < rows.len() && notified_by(#[trigger] rows[i], mid, peer)
}

/// The first observer whose latest notification had this identifier is gone;
/// nothing else changed.
pub open spec fn observer_rejected(a: Engine, b: Engine, mid: MessageId, peer: Endpoint) -> bool {
    if any_notified_by(a.store.observe.rows@, mid, peer) {
        &&& b == (Engine {
            store: Store { observe: b.store.observe, ..a.store },
            metrics: Metrics { observe_cancel: inc(a.metrics.observe_cancel), ..a.metrics },
            ..a
        })
        &&& exists|i: int| #[trigger]
            first_notified_by(a.store.observe.rows@, mid, peer, i) && b.store.observe.rows@
                == a.store.observe.rows@.update(i, None)
    } else {
        b == a
    }
}

/// Is a notification wanted and allowed at this time?
pub open spec fn notify_due(row: Option<ObserveInterest>, now_ms: u64) -> bool {
    match row {
        Some(r) => !r.client && r.pending && !r.held(now_ms),
        None => false,
    }
}

/// Position of the first row with a notification due.
pub open spec fn first_notify_due(rows: Seq<Option<ObserveInterest>>, now_ms: u64) -> Option<int>
    decreases rows.len(),
{
    if rows.len() == 0 {
        None
    } else {
        match first_notify_due(rows.drop_last(), now_ms) {
            Some(i) => Some(i),
            None => if notify_due(rows.last(), now_ms) {
                Some(rows.len() - 1)
            } else {
                None
            },
        }
    }
}

proof fn lemma_first_notify_prefix(rows: Seq<Option<ObserveInterest>>, now_ms: u64, n: int)
    requires
        0 <= n <= rows.len(),
        first_notify_due(rows.subrange(0, n), now_ms).is_some(),
    ensures
        first_notify_due(rows, now_ms) == first_notify_due(rows.subrange(0, n), now_ms),
    decreases rows.len(),
{
    if n == rows.len() {
        assert(rows.subrange(0, n) =~= rows);
    } else {
        assert(rows.drop_last().subrange(0, n) =~= rows.subrange(0, n));
        lemma_first_notify_prefix(rows.drop_last(), now_ms, n);
    }
}

/// Is the row an observer at this peer that must not be notified now?
pub open spec fn holds_peer(row: Option<ObserveInterest>, peer: Endpoint, now_ms: u64) -> bool {
    match row {
        Some(r) => !r.client && r.peer == peer && r.held(now_ms),
        None => false,
    }
}

/// How many observers at a peer must not be notified now.
pub open spec fn held_count(
    rows: Seq<Option<ObserveInterest>>,
    peer: Endpoint,
    now_ms: u64,
) -> nat
    decreases rows.len(),
{
    if rows.len() == 0 {
        0
    } else {
        held_count(rows.drop_last(), peer, now_ms) + if holds_peer(rows.last(), peer, now_ms) {
            1nat
        } else {
            0nat
        }
    }
}

/// Does a waiting message belong to an observer that is held for it?
pub open spec fn owned_hold(rows: Seq<Option<ObserveInterest>>, p: PendingCon) -> bool {
    exists|i: int|
        0 <= i < rows.len() && holds_for(#[trigger] rows[i], p)
}

/// Is the row held for this waiting message?
pub open spec fn holds_for(row: Option<ObserveInterest>, p: PendingCon) -> bool {
    match row {
        Some(r) => !r.client && r.peer == p.peer && r.hold == Some(NotifyHold::Con(p.mid)),
        None => false,
    }
}

/// Is this a waiting message to a peer that no observer is held for?
pub open spec fn loose(
    rows: Seq<Option<ObserveInterest>>,
    p: Option<PendingCon>,
    peer: Endpoint,
) -> bool {
    p.is_some() && p->0.peer == peer && !owned_hold(rows, p->0)
}

/// How many waiting messages to a peer no observer is held for.
pub open spec fn loose_count(
    rows: Seq<Option<ObserveInterest>>,
    pending: Seq<Option<PendingCon>>,
    peer: Endpoint,
) -> nat
    decreases pending.len(),
{
    if pending.len() == 0 {
        0
    } else {
        loose_count(rows, pending.drop_last(), peer) + if loose(rows, pending.last(), peer) {
            1nat
        } else {
            0nat
        }
    }
}

/// The engine with other observation rows.
pub open spec fn with_rows(before: Engine, after: Engine) -> bool {
    &&& after == (Engine {
        store: Store { observe: after.store.observe, ..before.store },
        ..before
    })
    &&& after.store.observe.rows@.len() == before.store.observe.rows@.len()
}

impl Engine {
    /// The row of an observation.
    pub fn lookup_observe(&self, key: ObserveKey) -> (r: Option<SlotId>)
        ensures
            match r {
                Some(id) => find_row(self.store.observe.rows@, observe_key(key)) == Some(
                    id.at as int,
                ) && id.at < self.store.observe.rows@.len(),
                None => find_row(self.store.observe.rows@, observe_key(key)).is_none(),
            },
    {
        match self.store.observe.find(&key.key()) {
            Some(at) => Some(SlotId { at }),
            None => None,
        }
    }

    /// The observation in a row.
    pub fn observe_interest(&self, id: SlotId) -> (r: Option<ObserveInterest>)
        ensures
            r == if id.at < self.store.observe.rows@.len() {
                self.store.observe.rows@[id.at as int]
            } else {
                None
            },
    {
        if id.at < self.store.observe.rows.len() {
            self.store.observe.rows[id.at]
        } else {
            None
        }
    }

    /// Begin an observation, over an earlier one with the same key.
    pub fn insert_observe(&mut self, interest: ObserveInterest) -> (ok: bool)
        requires
            old(self).wf(),
        ensures
            final(self).wf(),
            match place_row(old(self).store.observe.rows@, interest.row_key()) {
                Some(i) => {
                    &&& ok
                    &&& *final(self) == (Engine {
                        store: Store { observe: final(self).store.observe, ..old(self).store },
                        metrics: Metrics {
                            observe_register: inc(old(self).metrics.observe_register),
                            ..old(self).metrics
                        },
                        ..*old(self)
                    })
                    &&& final(self).store.observe.rows@ == old(self).store.observe.rows@.update(
                        i,
                        Some(interest),
                    )
                },
                None => !ok && *final(self) == *old(self),
            },
    {
        if self.store.observe.put(interest).is_some() {
            self.metrics.observe_register = Metrics::inc(self.metrics.observe_register);
            true
        } else {
            false
        }
    }

    /// End an observation.
    pub fn take_observe(&mut self, key: ObserveKey) -> (r: Option<ObserveInterest>)
        requires
            old(self).wf(),
        ensures
            final(self).wf(),
            r == old(self).store.observe.row(observe_key(key)),
            find_row(final(self).store.observe.rows@, observe_key(key)).is_none(),
            *final(self) == (Engine {
                store: Store { observe: final(self).store.observe, ..old(self).store },
                metrics: if r.is_some() {
                    Metrics {
                        observe_cancel: inc(old(self).metrics.observe_cancel),
                        ..old(self).metrics
                    }
                } else {
                    old(self).metrics
                },
                ..*old(self)
            }),
            final(self).store.observe.rows@ == (match find_row(
                old(self).store.observe.rows@,
                observe_key(key),
            ) {
                Some(i) => old(self).store.observe.rows@.update(i, None),
                None => old(self).store.observe.rows@,
            }),
    {
        let r = self.store.observe.take(&key.key());
        if r.is_some() {
            self.metrics.observe_cancel = Metrics::inc(self.metrics.observe_cancel);
        }
        r
    }

    /// The latest representation of an observation stays fresh this long.
    pub fn refresh_observe_max_age(&mut self, key: ObserveKey, now_ms: u64, max_age_secs: u32)
        requires
            old(self).wf(),
        ensures
            final(self).wf(),
            with_rows(*old(self), *final(self)),
            final(self).store.observe.rows@ == (match find_row(
                old(self).store.observe.rows@,
                observe_key(key),
            ) {
                Some(i) => old(self).store.observe.rows@.update(
                    i,
                    Some(
                        ObserveInterest {
                            lifetime: Some(
                                ObserveLifetime { due_ms: later(now_ms, max_age_secs * 1000) },
                            ),
                            ..old(self).store.observe.rows@[i]->0
                        },
                    ),
                ),
                None => old(self).store.observe.rows@,
            }),
    {
        if let Some(at) = self.store.observe.find(&key.key()) {
            if let Some(row) = self.store.observe.rows[at] {
                let mut next = row;
                next.lifetime =
                Some(
                    ObserveLifetime { due_ms: now_ms.saturating_add(max_age_secs as u64 * 1000) },
                );
                self.store.observe.replace(at, next);
            }
        }
    }

    /// A notification went out to an observer.
    pub fn record_observe_notify(
        &mut self,
        key: ObserveKey,
        now_ms: u64,
        mid: MessageId,
        confirmable: bool,
    )
        requires
            old(self).wf(),
        ensures
            final(self).wf(),
            *final(self) == (Engine {
                store: Store { observe: final(self).store.observe, ..old(self).store },
                metrics: Metrics {
                    observe_notify: inc(old(self).metrics.observe_notify),
                    ..old(self).metrics
                },
                ..*old(self)
            }),
            final(self).store.observe.rows@ == (match find_row(
                old(self).store.observe.rows@,
                observe_key(key),
            ) {
                Some(i) => old(self).store.observe.rows@.update(
                    i,
                    Some(old(self).store.observe.rows@[i]->0.notified(now_ms, mid, confirmable)),
                ),
                None => old(self).store.observe.rows@,
            }),
    {
        self.metrics.observe_notify = Metrics::inc(self.metrics.observe_notify);
        if let Some(at) = self.store.observe.find(&key.key()) {
            if let Some(row) = self.store.observe.rows[at] {
                self.store.observe.replace(at, row.after_notify(now_ms, mid, confirmable));
            }
        }
    }

    /// A confirmable notification was acknowledged.
    pub fn ack_observe_con(&mut self, mid: MessageId, peer: Endpoint)
        requires
            old(self).wf(),
        ensures
            final(self).wf(),
            with_rows(*old(self), *final(self)),
            forall|i: int|
                0 <= i < old(self).store.observe.rows@.len() ==> #[trigger] final(
                    self).store.observe.rows@[i] == acknowledged(
                    old(self).store.observe.rows@[i],
                    mid,
                    peer,
                ),
    {
        let ghost before = self.store.observe.rows@;
        let mut i: usize = 0;
        while i < self.store.observe.rows.len()
            invariant
                self.wf(),
                with_rows(*old(self), *self),
                before == old(self).store.observe.rows@,
                i <= before.len(),
                forall|k: int|
                    0 <= k < i ==> #[trigger] self.store.observe.rows@[k] == acknowledged(
                        before[k],
                        mid,
                        peer,
                    ),
                forall|k: int|
                    i <= k < before.len() ==> #[trigger] self.store.observe.rows@[k] == before[k],
            decreases before.len() - i,
        {
            if let Some(row) = self.store.observe.rows[i] {
                if !row.client && row.peer == peer && row.hold == Some(NotifyHold::Con(mid)) {
                    let mut next = row;
                    next.hold = None;
                    self.store.observe.replace(i, next);
                }
            }
            i = i + 1;
        }
    }

    /// A notification was rejected, or never acknowledged: end the first
    /// observation that it was the latest notification of.
    pub fn reject_observe_notify(&mut self, mid: MessageId, peer: Endpoint) -> (found: bool)
        requires
            old(self).wf(),
        ensures
            final(self).wf(),
            found == any_notified_by(old(self).store.observe.rows@, mid, peer),
            observer_rejected(*old(self), *final(self), mid, peer),
    {
        let mut i: usize = 0;
        while i < self.store.observe.rows.len()
            invariant
                *self == *old(self),
                self.wf(),
                i <= self.store.observe.rows@.len(),
                forall|k: int|
                    0 <= k < i ==> !notified_by(#[trigger] self.store.observe.rows@[k], mid, peer),
            decreases self.store.observe.rows@.len() - i,
        {
            if let Some(row) = self.store.observe.rows[i] {
                if !row.client && row.peer == peer && row.notify_mid == Some(mid) {
                    assert(notified_by(old(self).store.observe.rows@[i as int], mid, peer));
                    assert(first_notified_by(
                        old(self).store.observe.rows@,
                        mid,
                        peer,
                        i as int,
                    ));
                    self.store.observe.free(i);
                    self.metrics.observe_cancel = Metrics::inc(self.metrics.observe_cancel);
                    return true;
                }
            }
            i = i + 1;
        }
        false
    }

    fn mark_resource(&mut self, resource: Option<usize>, deleted: bool) -> (n: usize)
        requires
            old(self).wf(),
        ensures
            final(self).wf(),
            with_rows(*old(self), *final(self)),
            n == observer_count(old(self).store.observe.rows@, resource),
            forall|i: int|
                0 <= i < old(self).store.observe.rows@.len() ==> #[trigger] final(
                    self).store.observe.rows@[i] == signalled(
                    old(self).store.observe.rows@[i],
                    resource,
                    deleted,
                ),
    {
        let ghost before = self.store.observe.rows@;
        let mut n: usize = 0;
        let mut i: usize = 0;
        while i < self.store.observe.rows.len()
            invariant
                self.wf(),
                with_rows(*old(self), *self),
                before == old(self).store.observe.rows@,
                i <= before.len(),
                n <= i,
                n == observer_count(before.subrange(0, i as int), resource),
                forall|k: int|
                    0 <= k < i ==> #[trigger] self.store.observe.rows@[k] == signalled(
                        before[k],
                        resource,
                        deleted,
                    ),
                forall|k: int|
                    i <= k < before.len() ==> #[trigger] self.store.observe.rows@[k] == before[k],
            decreases before.len() - i,
        {
            let ghost next_rows = before.subrange(0, i + 1);
            assert(next_rows.drop_last() =~= before.subrange(0, i as int));
            assert(next_rows.last() == before[i as int]);
            if let Some(row) = self.store.observe.rows[i] {
                if !row.client && resource.is_some() && row.resource == resource {
                    let mut next = row;
                    next.pending = true;
                    next.deleted = row.deleted || deleted;
                    self.store.observe.replace(i, next);
                    n = n + 1;
                }
            }
            i = i + 1;
        }
        assert(before.subrange(0, i as int) =~= before);
        n
    }

    /// A route has a new representation: its observers want a notification.
    /// Tells how many there are.
    pub fn signal_observe_resource(&mut self, resource: Option<usize>) -> (n: usize)
        requires
            old(self).wf(),
        ensures
            final(self).wf(),
            with_rows(*old(self), *final(self)),
            n == observer_count(old(self).store.observe.rows@, resource),
            forall|i: int|
                0 <= i < old(self).store.observe.rows@.len() ==> #[trigger] final(
                    self).store.observe.rows@[i] == signalled(
                    old(self).store.observe.rows@[i],
                    resource,
                    false,
                ),
    {
        self.mark_resource(resource, false)
    }

    /// A route's resource was deleted: its observers get a last notification.
    pub fn mark_observe_resource_deleted(&mut self, resource: Option<usize>) -> (n: usize)
        requires
            old(self).wf(),
        ensures
            final(self).wf(),
            with_rows(*old(self), *final(self)),
            n == observer_count(old(self).store.observe.rows@, resource),
            forall|i: int|
                0 <= i < old(self).store.observe.rows@.len() ==> #[trigger] final(
                    self).store.observe.rows@[i] == signalled(
                    old(self).store.observe.rows@[i],
                    resource,
                    true,
                ),
    {
        self.mark_resource(resource, true)
    }

    /// The first observer with a notification due.
    pub fn due_notification(&self, now_ms: u64) -> (r: Option<SlotId>)
        ensures
            match r {
                Some(id) => first_notify_due(self.store.observe.rows@, now_ms) == Some(
                    id.at as int,
                ) && id.at < self.store.observe.rows@.len() && notify_due(
                    self.store.observe.rows@[id.at as int],
                    now_ms,
                ),
                None => first_notify_due(self.store.observe.rows@, now_ms).is_none(),
            },
    {
        let ghost rows = self.store.observe.rows@;
        let mut i: usize = 0;
        while i < self.store.observe.rows.len()
            invariant
                rows == self.store.observe.rows@,
                i <= rows.len(),
                first_notify_due(rows.subrange(0, i as int), now_ms).is_none(),
            decreases rows.len() - i,
        {
            let ghost next = rows.subrange(0, i + 1);
            assert(next.drop_last() =~= rows.subrange(0, i as int));
            assert(next.last() == rows[i as int]);
            if let Some(row) = self.store.observe.rows[i] {
                if !row.client && row.pending && !row.is_notify_held(now_ms) {
                    proof {
                        lemma_first_notify_prefix(rows, now_ms, i + 1);
                    }
                    return Some(SlotId { at: i });
                }
            }
            i = i + 1;
        }
        assert(rows.subrange(0, i as int) =~= rows);
        None
    }

    /// Take up a wanted notification: it is wanted no more, and gets the next
    /// sequence number. Gives that number, or `None` when none is due.
    pub fn claim_observe_notification(&mut self, id: SlotId, now_ms: u64) -> (r: Option<u32>)
        requires
            old(self).wf(),
        ensures
            final(self).wf(),
            with_rows(*old(self), *final(self)),
            if id.at < old(self).store.observe.rows@.len() && notify_due(
                old(self).store.observe.rows@[id.at as int],
                now_ms,
            ) {
                let row = old(self).store.observe.rows@[id.at as int]->0;
                &&& r == Some(next_seq(row.seq))
                &&& final(self).store.observe.rows@ == old(self).store.observe.rows@.update(
                    id.at as int,
                    Some(ObserveInterest { pending: false, seq: next_seq(row.seq), ..row }),
                )
            } else {
                r.is_none() && *final(self) == *old(self)
            },
    {
        if id.at >= self.store.observe.rows.len() {
            return None;
        }
        if let Some(row) = self.store.observe.rows[id.at] {
            if !row.client && row.pending && !row.is_notify_held(now_ms) {
                let mut next = row;
                next.pending = false;
                next.seq =
                if row.seq >= 0xffffff {
                    ((row.seq as u64 + 1) % 0x1000000) as u32
                } else {
                    row.seq + 1
                };
                self.store.observe.replace(id.at, next);
                return Some(next.seq);
            }
        }
        None
    }

    /// Give an observer the next sequence number.
    pub fn next_observe_seq(&mut self, id: SlotId) -> (r: Option<u32>)
        requires
            old(self).wf(),
        ensures
            final(self).wf(),
            with_rows(*old(self), *final(self)),
            if id.at < old(self).store.observe.rows@.len() && old(self).store.observe.rows@[
                id.at as int
            ].is_some() {
                let row = old(self).store.observe.rows@[id.at as int]->0;
                &&& r == Some(next_seq(row.seq))
                &&& final(self).store.observe.rows@ == old(self).store.observe.rows@.update(
                    id.at as int,
                    Some(ObserveInterest { seq: next_seq(row.seq), ..row }),
                )
            } else {
                r.is_none() && *final(self) == *old(self)
            },
    {
        if id.at >= self.store.observe.rows.len() {
            return None;
        }
        if let Some(row) = self.store.observe.rows[id.at] {
            let mut next = row;
            next.seq =
            if row.seq >= 0xffffff {
                ((row.seq as u64 + 1) % 0x1000000) as u32
            } else {
                row.seq + 1
            };
            self.store.observe.replace(id.at, next);
            return Some(next.seq);
        }
        None
    }

    /// A notification with this sequence number could not be sent: it is
    /// wanted again, and the number is given back.
    pub fn restore_observe_due(&mut self, id: SlotId, seq: u32)
        requires
            old(self).wf(),
        ensures
            final(self).wf(),
            with_rows(*old(self), *final(self)),
            final(self).store.observe.rows@ == if id.at < old(self).store.observe.rows@.len()
                && old(self).store.observe.rows@[id.at as int].is_some() && old(
                self).store.observe.rows@[id.at as int]->0.seq == seq {
                old(self).store.observe.rows@.update(
                    id.at as int,
                    Some(
                        ObserveInterest {
                            pending: true,
                            seq: prev_seq(seq),
                            ..old(self).store.observe.rows@[id.at as int]->0
                        },
                    ),
                )
            } else {
                old(self).store.observe.rows@
            },
    {
        if id.at >= self.store.observe.rows.len() {
            return;
        }
        if let Some(row) = self.store.observe.rows[id.at] {
            if row.seq == seq {
                let mut next = row;
                next.pending = true;
                next.seq = (seq % 0x1000000 + 0xffffff) % 0x1000000;
                self.store.observe.replace(id.at, next);
            }
        }
    }

    fn has_owned_hold(&self, p: PendingCon) -> (b: bool)
        ensures
            b == owned_hold(self.store.observe.rows@, p),
    {
        let mut i: usize = 0;
        while i < self.store.observe.rows.len()
            invariant
                i <= self.store.observe.rows@.len(),
                forall|k: int| 0 <= k < i ==> !holds_for(#[trigger] self.store.observe.rows@[k], p),
            decreases self.store.observe.rows@.len() - i,
        {
            if let Some(row) = self.store.observe.rows[i] {
                if !row.client && row.peer == p.peer && row.hold == Some(NotifyHold::Con(p.mid)) {
                    assert(holds_for(self.store.observe.rows@[i as int], p));
                    return true;
                }
            }
            i = i + 1;
        }
        false
    }

    /// Must no notification go to a peer now? True while
    /// [`Transmission::NSTART`] things are outstanding towards it: held
    /// observers, and waiting messages that are not theirs.
    pub fn is_notify_blocked(&self, peer: Endpoint, now_ms: u64) -> (b: bool)
        ensures
            b == notify_blocked(*self, peer, now_ms),
    {
        let ghost rows = self.store.observe.rows@;
        let mut i: usize = 0;
        while i < self.store.observe.rows.len()
            invariant
                rows == self.store.observe.rows@,
                i <= rows.len(),
                held_count(rows.subrange(0, i as int), peer, now_ms) == 0,
            decreases rows.len() - i,
        {
            let ghost next = rows.subrange(0, i + 1);
            assert(next.drop_last() =~= rows.subrange(0, i as int));
            assert(next.last() == rows[i as int]);
            if let Some(row) = self.store.observe.rows[i] {
                if !row.client && row.peer == peer && row.is_notify_held(now_ms) {
                    proof {
                        lemma_held_prefix(rows, peer, now_ms, i + 1);
                    }
                    return true;
                }
            }
            i = i + 1;
        }
        assert(rows.subrange(0, i as int) =~= rows);
        let mut j: usize = 0;
        while j < self.pending.len()
            invariant
                rows == self.store.observe.rows@,
                j <= self.pending@.len(),
                held_count(rows, peer, now_ms) == 0,
                loose_count(rows, self.pending@.subrange(0, j as int), peer) == 0,
            decreases self.pending@.len() - j,
        {
            let ghost next = self.pending@.subrange(0, j + 1);
            assert(next.drop_last() =~= self.pending@.subrange(0, j as int));
            assert(next.last() == self.pending@[j as int]);
            if let Some(p) = self.pending[j] {
                if p.peer == peer && !self.has_owned_hold(p) {
                    proof {
                        lemma_loose_prefix(rows, self.pending@, peer, j + 1);
                    }
                    return true;
                }
            }
            j = j + 1;
        }
        assert(self.pending@.subrange(0, j as int) =~= self.pending@);
        false
    }
}

/// Must no notification go to a peer now?
pub open spec fn notify_blocked(e: Engine, peer: Endpoint, now_ms: u64) -> bool {
    held_count(e.store.observe.rows@, peer, now_ms) + loose_count(
        e.store.observe.rows@,
        e.pending@,
        peer,
    ) >= Transmission::NSTART
}

proof fn lemma_held_prefix(
    rows: Seq<Option<ObserveInterest>>,
    peer: Endpoint,
    now_ms: u64,
    n: int,
)
    requires
        0 <= n <= rows.len(),
    ensures
        held_count(rows.subrange(0, n), peer, now_ms) <= held_count(rows, peer, now_ms),
    decreases rows.len(),
{
    if n == rows.len() {
        assert(rows.subrange(0, n) =~= rows);
    } else {
        assert(rows.drop_last().subrange(0, n) =~= rows.subrange(0, n));
        lemma_held_prefix(rows.drop_last(), peer, now_ms, n);
    }
}

proof fn lemma_loose_prefix(
    rows: Seq<Option<ObserveInterest>>,
    pending: Seq<Option<PendingCon>>,
    peer: Endpoint,
    n: int,
)
    requires
        0 <= n <= pending.len(),
    ensures
        loose_count(rows, pending.subrange(0, n), peer) <= loose_count(rows, pending, peer),
    decreases pending.len(),
{
    if n == pending.len() {
        assert(pending.subrange(0, n) =~= pending);
    } else {
        assert(pending.drop_last().subrange(0, n) =~= pending.subrange(0, n));
        lemma_loose_prefix(rows, pending.drop_last(), peer, n);
    }
}

/// A sequence number that is given back is the one before.
pub proof fn law_seq_restored(seq: u32)
    requires
        seq < 0x1000000,
    ensures
        prev_seq(next_seq(seq)) == seq,
{
}

} // verus!
