//! Everything that waits on the client's side belongs to a call under way.
use vstd::prelude::*;

use super::api::reply_gone;
use super::calls::{Call, CallFailure};
use super::complete::{
    asked_next, block_outcome, block_taken, completed, content_taken, lives_recorded, noted,
    part_taken, partial_kept, plain_taken, reply_stored, response_taken, whole_taken,
};
use super::ending::{all_failed, call_failed, failed_row, overdue_calls};
use super::error::Error;
use super::identity::IdentityError;
use super::inbox::{ended, token_taken, InboxRow, LiveCall, OutgoingObserve};
use super::outbound::{call_key, requested};
use super::reactor::Core;
use super::upload::{
    block1_issued, block_uploaded, followed_up, upload_continued, upload_cut, upload_run,
    upload_step, upload_window, UploadView,
};
use super::wish::{
    abandoned, called, cancellable, chosen, concluded, place_refusal, placed, retired,
    sent_in_blocks, token_sought, upload_begun, wish_sent, Wish,
};
use crate::error::{EncodeError, SlotMessageError};
use crate::message::wire::MessageView;
use crate::message::Type;
use crate::storage::endpoint::{Endpoint, KeyView, SlotId};
use crate::storage::io::DatagramIo;
use crate::storage::rows::ObserveInterest;
use crate::storage::table::{
    find_row, free_row, lemma_find_row, lemma_find_row_is, lemma_find_unique, lemma_free_row,
    lemma_unique_after_free, lemma_unique_same_key, place_row, unique_keys, without, Keyed,
};

verus! {

/// Is this the key of something on the client's side?
pub open spec fn client_key(key: KeyView) -> bool {
    key matches KeyView::Token { client, .. } && client
}

/// Does a reply to the call with this key wait as a whole?
pub open spec fn replied_whole(rows: Seq<Option<InboxRow>>, key: KeyView) -> bool {
    find_row(rows, key) matches Some(i) && rows[i]->0.complete
}

/// Does what waits under a key belong to a call under way? A request waits
/// beside a whole reply only while the call observes.
pub open spec fn fits<T>(c: Core<T>, key: KeyView) -> bool {
    let asks = find_row(c.engine.exchanges.rows@, key).is_some();
    let observes = find_row(c.engine.store.observe.rows@, key).is_some();
    &&& asks || observes || find_row(c.inbox.rows.rows@, key).is_some() ==> find_row(
        c.lives.rows.rows@,
        key,
    ).is_some()
    &&& asks && replied_whole(c.inbox.rows.rows@, key) ==> observes
}

/// Are the keys of the client's tables different?
pub open spec fn distinct<T>(c: Core<T>) -> bool {
    &&& unique_keys(c.engine.exchanges.rows@)
    &&& unique_keys(c.engine.store.observe.rows@)
    &&& unique_keys(c.inbox.rows.rows@)
    &&& unique_keys(c.lives.rows.rows@)
}

/// Does every open request, every subscription and every reply that waits
/// belong to a call under way?
#[verifier::opaque]
pub open spec fn owned<T>(c: Core<T>) -> bool {
    &&& distinct(c)
    &&& forall|key: KeyView| client_key(key) ==> #[trigger] fits(c, key)
}

/// Is every call that was under way still so?
pub open spec fn lives_kept<T>(a: Core<T>, b: Core<T>) -> bool {
    forall|key: KeyView|
        client_key(key) && find_row(a.lives.rows.rows@, key).is_some() ==> #[trigger] find_row(
            b.lives.rows.rows@,
            key,
        ).is_some()
}

/// A step keeps everything in order, and every call under way.
pub open spec fn carried<T>(a: Core<T>, b: Core<T>) -> bool {
    owned(a) ==> owned(b) && lives_kept(a, b)
}

/// Is this a row of the client with another key?
pub open spec fn kept_row<R: Keyed>(row: Option<R>, key: KeyView) -> bool {
    row matches Some(r) && client_key(r.row_key()) && r.row_key() != key
}

/// Are the client's rows the same, but for those with this key?
pub open spec fn same_but<R: Keyed>(
    a: Seq<Option<R>>,
    b: Seq<Option<R>>,
    key: KeyView,
) -> bool {
    &&& a.len() == b.len()
    &&& forall|i: int|
        #![trigger a[i]]
        #![trigger b[i]]
        0 <= i < a.len() ==> {
            &&& kept_row(a[i], key) ==> b[i] == a[i]
            &&& kept_row(b[i], key) ==> a[i] == b[i]
        }
}

/// What is done for one call leaves what belongs to others alone.
#[verifier::opaque]
pub open spec fn stepped_for<T>(a: Core<T>, b: Core<T>, key: KeyView) -> bool {
    &&& same_but(a.engine.exchanges.rows@, b.engine.exchanges.rows@, key)
    &&& same_but(a.engine.store.observe.rows@, b.engine.store.observe.rows@, key)
    &&& same_but(a.inbox.rows.rows@, b.inbox.rows.rows@, key)
    &&& same_but(a.lives.rows.rows@, b.lives.rows.rows@, key)
    &&& distinct(a) ==> distinct(b)
}

/// Two steps for a call are one.
pub proof fn lemma_step_trans<T>(a: Core<T>, b: Core<T>, c: Core<T>, key: KeyView)
    requires
        stepped_for(a, b, key),
        stepped_for(b, c, key),
    ensures
        stepped_for(a, c, key),
{
    reveal(stepped_for);
}

/// A step that leaves all tables of the client alone is one for any call.
pub proof fn lemma_step_same<T>(a: Core<T>, b: Core<T>, key: KeyView)
    requires
        b.engine.exchanges.rows@ == a.engine.exchanges.rows@,
        b.engine.store.observe.rows@ == a.engine.store.observe.rows@,
        b.inbox.rows.rows@ == a.inbox.rows.rows@,
        b.lives.rows.rows@ == a.lives.rows.rows@,
    ensures
        stepped_for(a, b, key),
{
    reveal(stepped_for);
}

proof fn lemma_same_found<R: Keyed>(
    a: Seq<Option<R>>,
    b: Seq<Option<R>>,
    key: KeyView,
    other: KeyView,
)
    requires
        same_but(a, b, key),
        client_key(other),
        other != key,
    ensures
        find_row(a, other) == find_row(b, other),
        find_row(a, other) matches Some(i) ==> 0 <= i < a.len() && a[i] == b[i],
{
    lemma_find_row(a, other);
    lemma_find_row(b, other);
    match find_row(a, other) {
        Some(i) => {
            assert(b[i] == a[i]);
            assert forall|k: int| 0 <= k < i implies ((#[trigger] b[k]) matches Some(r)
                ==> r.row_key() != other) by {
                if b[k] matches Some(r) && r.row_key() == other {
                    assert(a[k] == b[k]);
                }
            }
            lemma_find_row_is(b, other, i);
        },
        None => {
            if let Some(i) = find_row(b, other) {
                assert(a[i] == b[i]);
            }
        },
    }
}

/// A step for a call whose own things are in order keeps everything in order.
pub proof fn lemma_step_owned<T>(a: Core<T>, b: Core<T>, key: KeyView)
    requires
        owned(a),
        stepped_for(a, b, key),
        client_key(key) ==> fits(b, key),
    ensures
        owned(b),
{
    reveal(owned);
    reveal(stepped_for);
    assert forall|other: KeyView| client_key(other) implies #[trigger] fits(b, other) by {
        if other != key {
            assert(fits(a, other));
            lemma_same_found(a.engine.exchanges.rows@, b.engine.exchanges.rows@, key, other);
            lemma_same_found(
                a.engine.store.observe.rows@,
                b.engine.store.observe.rows@,
                key,
                other,
            );
            lemma_same_found(a.inbox.rows.rows@, b.inbox.rows.rows@, key, other);
            lemma_same_found(a.lives.rows.rows@, b.lives.rows.rows@, key, other);
        }
    }
}

/// A key that nothing of the client has.
pub open spec fn no_key() -> KeyView {
    KeyView::Mid { mid: 0, peer: arbitrary() }
}

/// A step that leaves all tables of the client alone keeps everything in order.
pub proof fn lemma_same_owned<T>(a: Core<T>, b: Core<T>)
    requires
        b.engine.exchanges.rows@ == a.engine.exchanges.rows@,
        b.engine.store.observe.rows@ == a.engine.store.observe.rows@,
        b.inbox.rows.rows@ == a.inbox.rows.rows@,
        b.lives.rows.rows@ == a.lives.rows.rows@,
    ensures
        carried(a, b),
{
    if owned(a) {
        lemma_step_same(a, b, no_key());
        lemma_step_owned(a, b, no_key());
    }
}

/// The key of a subscription of this side; none of an observer.
pub open spec fn subscribed_by(row: Option<ObserveInterest>) -> Option<KeyView> {
    match row {
        Some(r) => if r.client {
            Some(r.row_key())
        } else {
            None
        },
        None => None,
    }
}

/// Subscriptions of this side stay where they are.
#[verifier::opaque]
pub open spec fn subscribed_still(
    a: Seq<Option<ObserveInterest>>,
    b: Seq<Option<ObserveInterest>>,
) -> bool {
    &&& a.len() == b.len()
    &&& forall|i: int|
        #![trigger a[i]]
        #![trigger b[i]]
        0 <= i < a.len() ==> subscribed_by(b[i]) == subscribed_by(a[i])
}

/// Two steps that leave subscriptions alone do so together.
pub proof fn lemma_subscribed_trans(
    a: Seq<Option<ObserveInterest>>,
    b: Seq<Option<ObserveInterest>>,
    c: Seq<Option<ObserveInterest>>,
)
    requires
        subscribed_still(a, b),
        subscribed_still(b, c),
    ensures
        subscribed_still(a, c),
{
    reveal(subscribed_still);
}

/// A step that changes observers alone keeps everything in order.
pub proof fn lemma_observers_owned<T>(a: Core<T>, b: Core<T>)
    requires
        subscribed_still(a.engine.store.observe.rows@, b.engine.store.observe.rows@),
        unique_keys(b.engine.store.observe.rows@),
        b.engine.exchanges.rows@ == a.engine.exchanges.rows@,
        b.inbox.rows.rows@ == a.inbox.rows.rows@,
        b.lives.rows.rows@ == a.lives.rows.rows@,
    ensures
        carried(a, b),
{
    if owned(a) {
        reveal(owned);
        reveal(subscribed_still);
        let rows = a.engine.store.observe.rows@;
        let then = b.engine.store.observe.rows@;
        assert forall|key: KeyView| client_key(key) implies #[trigger] fits(b, key) by {
            assert(fits(a, key));
            lemma_find_row(rows, key);
            lemma_find_row(then, key);
            if let Some(i) = find_row(rows, key) {
                assert(subscribed_by(then[i]) == subscribed_by(rows[i]));
            }
            if let Some(i) = find_row(then, key) {
                assert(subscribed_by(then[i]) == subscribed_by(rows[i]));
            }
        }
    }
}

/// A step that touches nothing of this side's own calls keeps everything in
/// order.
pub proof fn lemma_tended_owned<T>(a: Core<T>, b: Core<T>)
    requires
        b.engine.exchanges == a.engine.exchanges,
        b.engine.store.observe == a.engine.store.observe || subscribed_still(
            a.engine.store.observe.rows@,
            b.engine.store.observe.rows@,
        ),
        unique_keys(b.engine.store.observe.rows@),
        b.inbox == a.inbox,
        b.lives == a.lives,
    ensures
        carried(a, b),
{
    if b.engine.store.observe == a.engine.store.observe {
        lemma_same_owned(a, b);
    } else {
        lemma_observers_owned(a, b);
    }
}

/// What waits under a key belongs to a call under way.
pub proof fn lemma_owned_fits<T>(c: Core<T>, key: KeyView)
    requires
        owned(c),
        client_key(key),
    ensures
        fits(c, key),
        distinct(c),
{
    reveal(owned);
}

/// A row is taken out.
pub proof fn lemma_row_out<R: Keyed>(rows: Seq<Option<R>>, key: KeyView)
    ensures
        same_but(rows, without(rows, key), key),
        unique_keys(rows) ==> unique_keys(without(rows, key)),
        unique_keys(rows) ==> find_row(without(rows, key), key).is_none(),
{
    let after = without(rows, key);
    lemma_find_row(rows, key);
    lemma_find_row(after, key);
    if let Some(i) = find_row(rows, key) {
        if unique_keys(rows) {
            lemma_unique_after_free(rows, i);
            if let Some(k) = find_row(after, key) {
                if k < i {
                    assert(rows[k]->0.row_key() != rows[i]->0.row_key());
                } else if i < k {
                    assert(rows[i]->0.row_key() != rows[k]->0.row_key());
                }
            }
        }
    }
}

/// A row is put in its place.
pub proof fn lemma_row_in<R: Keyed>(rows: Seq<Option<R>>, row: R)
    requires
        place_row(rows, row.row_key()).is_some(),
    ensures
        0 <= place_row(rows, row.row_key())->0 < rows.len(),
        same_but(
            rows,
            rows.update(place_row(rows, row.row_key())->0, Some(row)),
            row.row_key(),
        ),
        unique_keys(rows) ==> unique_keys(
            rows.update(place_row(rows, row.row_key())->0, Some(row)),
        ),
        unique_keys(rows) ==> find_row(
            rows.update(place_row(rows, row.row_key())->0, Some(row)),
            row.row_key(),
        ) == place_row(rows, row.row_key()),
{
    let key = row.row_key();
    let i = place_row(rows, key)->0;
    let after = rows.update(i, Some(row));
    lemma_find_row(rows, key);
    lemma_free_row(rows);
    if unique_keys(rows) {
        if find_row(rows, key).is_some() {
            lemma_unique_same_key(rows, i, row);
        } else {
            assert forall|x: int, y: int|
                0 <= x < y < after.len() && (#[trigger] after[x]).is_some() && (
                #[trigger] after[y]).is_some() implies after[x]->0.row_key()
                != after[y]->0.row_key() by {
                if x != i && y != i {
                    assert(rows[x].is_some() && rows[y].is_some());
                } else if x == i {
                    assert(rows[y] == after[y]);
                } else {
                    assert(rows[x] == after[x]);
                }
            }
        }
        lemma_find_unique(after, i);
    }
}

/// Only requests of a call were opened or closed.
#[verifier::opaque]
pub open spec fn only_asked<T>(a: Core<T>, b: Core<T>, key: KeyView) -> bool {
    &&& b.inbox == a.inbox
    &&& b.lives == a.lives
    &&& b.engine.store.observe == a.engine.store.observe
    &&& same_but(a.engine.exchanges.rows@, b.engine.exchanges.rows@, key)
    &&& unique_keys(a.engine.exchanges.rows@) ==> unique_keys(b.engine.exchanges.rows@)
}

proof fn lemma_asked_trans<T>(a: Core<T>, b: Core<T>, c: Core<T>, key: KeyView)
    requires
        only_asked(a, b, key),
        only_asked(b, c, key),
    ensures
        only_asked(a, c, key),
{
    reveal(only_asked);
}

proof fn lemma_asked_same<T>(a: Core<T>, b: Core<T>, key: KeyView)
    requires
        b.inbox == a.inbox,
        b.lives == a.lives,
        b.engine.store.observe == a.engine.store.observe,
        b.engine.exchanges.rows@ == a.engine.exchanges.rows@,
    ensures
        only_asked(a, b, key),
{
    reveal(only_asked);
}

/// Opening and closing requests is a step for their call.
pub proof fn lemma_asked_step<T>(a: Core<T>, b: Core<T>, key: KeyView)
    requires
        only_asked(a, b, key),
    ensures
        stepped_for(a, b, key),
        b.inbox == a.inbox,
        b.lives == a.lives,
        b.engine.store.observe == a.engine.store.observe,
{
    reveal(only_asked);
    reveal(stepped_for);
}

/// Sending a request opens it.
pub proof fn lemma_requested<T: DatagramIo>(
    a: Core<T>,
    b: Core<T>,
    m: MessageView,
    dest: Endpoint,
    forget: bool,
    now_ms: u64,
    r: Result<(), Error<T::Error>>,
)
    requires
        requested(a, b, m, dest, forget, now_ms, r),
    ensures
        only_asked(a, b, call_key(m.token, dest)),
{
    reveal(only_asked);
    let rows = a.engine.exchanges.rows@;
    let key = call_key(m.token, dest);
    lemma_find_row(rows, key);
    lemma_free_row(rows);
    if let Some(i) = place_row(rows, key) {
        assert forall|row: crate::storage::rows::ExchangeEntry| #[trigger] row.row_key() == key
            implies {
            &&& same_but(rows, rows.update(i, Some(row)), key)
            &&& unique_keys(rows) ==> unique_keys(rows.update(i, Some(row)))
            &&& same_but(rows, rows.update(i, Some(row)).update(i, None), key)
            &&& unique_keys(rows) ==> unique_keys(rows.update(i, Some(row)).update(i, None))
        } by {
            lemma_row_in(rows, row);
            if unique_keys(rows) {
                lemma_unique_after_free(rows.update(i, Some(row)), i);
            }
        }
    }
}

proof fn lemma_block_uploaded<T: DatagramIo>(
    a: Core<T>,
    b: Core<T>,
    u: UploadView,
    ty: Type,
    tag: Option<Seq<u8>>,
    body: Seq<u8>,
    num: u32,
    szx: u8,
    q_block: bool,
    now_ms: u64,
    r: Result<(), Error<T::Error>>,
)
    requires
        block_uploaded(a, b, u, ty, tag, body, num, szx, q_block, now_ms, r),
    ensures
        only_asked(a, b, call_key(u.token, u.dest)),
{
    let key = call_key(u.token, u.dest);
    lemma_asked_same(a, a, key);
    if b == (Core { ids: b.ids, ..a }) {
        lemma_asked_same(a, b, key);
    }
    let m = super::upload::upload_message(u, ty, a.ids.next_mid, tag, body, num, szx, q_block);
    assert forall|c: Core<T>|
        super::outbound::identified(a, c, now_ms) && #[trigger] requested(
            c,
            b,
            m,
            u.dest,
            true,
            now_ms,
            r,
        ) implies only_asked(a, b, key) by {
        lemma_requested(c, b, m, u.dest, true, now_ms, r);
        lemma_asked_same(a, c, key);
        lemma_asked_trans(a, c, b, key);
    }
}

proof fn lemma_upload_cut<T>(
    a: Core<T>,
    b: Core<T>,
    u: UploadView,
    id: SlotId,
    take_first: bool,
    place: int,
)
    requires
        upload_cut(a, b, u, id, take_first, place),
    ensures
        only_asked(a, b, call_key(u.token, u.dest)),
{
    reveal(only_asked);
    lemma_row_out(a.engine.exchanges.rows@, call_key(u.token, u.dest));
}

proof fn lemma_upload_run<T: DatagramIo>(
    a: Core<T>,
    b: Core<T>,
    u: UploadView,
    id: SlotId,
    take_first: bool,
    now_ms: u64,
    upto: nat,
)
    requires
        upload_run(a, b, u, id, take_first, now_ms, upto),
    ensures
        only_asked(a, b, call_key(u.token, u.dest)),
    decreases upto,
{
    let key = call_key(u.token, u.dest);
    lemma_asked_same(a, a, key);
    if upto > 0 {
        let slot = a.engine.store.bodies->0.tx.slots@[id.at as int]->0;
        let (c, d, ok) = choose|c: Core<T>, d: Core<T>, ok: Result<(), Error<T::Error>>|
            {
                &&& #[trigger] upload_cut(c, d, u, id, take_first, upto - 1)
                &&& #[trigger] upload_step(d, b, u, slot, upto - 1, now_ms, ok)
                &&& ok.is_ok()
                &&& upload_run::<T>(a, c, u, id, take_first, now_ms, (upto - 1) as nat)
            };
        lemma_upload_run(a, c, u, id, take_first, now_ms, (upto - 1) as nat);
        lemma_upload_cut(c, d, u, id, take_first, upto - 1);
        lemma_upload_step(d, b, u, slot, upto - 1, now_ms, ok);
        lemma_asked_trans(a, c, d, key);
        lemma_asked_trans(a, d, b, key);
    }
}

proof fn lemma_upload_step<T: DatagramIo>(
    a: Core<T>,
    b: Core<T>,
    u: UploadView,
    slot: crate::storage::transfer::BodySlot,
    place: int,
    now_ms: u64,
    r: Result<(), Error<T::Error>>,
)
    requires
        upload_step(a, b, u, slot, place, now_ms, r),
    ensures
        only_asked(a, b, call_key(u.token, u.dest)),
{
    lemma_block_uploaded(
        a,
        b,
        u,
        super::upload::upload_type(u, place),
        slot.transfer.key.identity@,
        slot.bytes@,
        (slot.transfer.next_num + place) as u32,
        slot.transfer.szx,
        true,
        now_ms,
        r,
    );
}

/// Sending the blocks of a window opens requests of their call.
pub proof fn lemma_upload_window<T: DatagramIo>(
    a: Core<T>,
    b: Core<T>,
    u: UploadView,
    id: SlotId,
    take_first: bool,
    now_ms: u64,
    r: Result<(), Error<T::Error>>,
)
    requires
        upload_window(a, b, u, id, take_first, now_ms, r),
    ensures
        only_asked(a, b, call_key(u.token, u.dest)),
{
    let key = call_key(u.token, u.dest);
    lemma_asked_same(a, a, key);
    let slot = a.engine.store.bodies->0.tx.slots@[id.at as int]->0;
    let t = slot.transfer;
    let count = crate::storage::transfer::block_count(
        slot.bytes@.len() as int,
        crate::message::value::block_size(t.szx as int),
    );
    let left = super::bodies::window_stop(t, count) - t.next_num;
    if b != a {
        if r.is_ok() {
            lemma_upload_run(a, b, u, id, take_first, now_ms, left as nat);
        } else {
            let (c, d, n) = choose|c: Core<T>, d: Core<T>, n: nat|
                {
                    &&& n < left
                    &&& #[trigger] upload_run::<T>(a, c, u, id, take_first, now_ms, n)
                    &&& #[trigger] upload_cut(c, d, u, id, take_first, n as int)
                    &&& upload_step(d, b, u, slot, n as int, now_ms, r)
                };
            lemma_upload_run(a, c, u, id, take_first, now_ms, n);
            lemma_upload_cut(c, d, u, id, take_first, n as int);
            lemma_upload_step(d, b, u, slot, n as int, now_ms, r);
            lemma_asked_trans(a, c, d, key);
            lemma_asked_trans(a, d, b, key);
        }
    }
}

/// Sending a block opens a request of its call.
pub proof fn lemma_block1_issued<T: DatagramIo>(
    a: Core<T>,
    b: Core<T>,
    u: UploadView,
    id: SlotId,
    now_ms: u64,
    r: Result<(), Error<T::Error>>,
)
    requires
        block1_issued(a, b, u, id, now_ms, r),
    ensures
        only_asked(a, b, call_key(u.token, u.dest)),
{
    let key = call_key(u.token, u.dest);
    let t = a.engine.tx_transfer(id)->0;
    let body = a.engine.tx_body(id);
    lemma_asked_same(a, a, key);
    assert forall|c: Core<T>|
        #[trigger] upload_cut(a, c, u, id, false, 0) && block_uploaded(
            c,
            b,
            u,
            u.ty,
            t.key.identity@,
            body,
            t.next_num,
            t.szx,
            false,
            now_ms,
            r,
        ) implies only_asked(a, b, key) by {
        lemma_upload_cut(a, c, u, id, false, 0);
        lemma_block_uploaded(
            c,
            b,
            u,
            u.ty,
            t.key.identity@,
            body,
            t.next_num,
            t.szx,
            false,
            now_ms,
            r,
        );
        lemma_asked_trans(a, c, b, key);
    }
}

proof fn lemma_upload_continued<T: DatagramIo>(
    a: Core<T>,
    b: Core<T>,
    m: MessageView,
    peer: Endpoint,
    id: SlotId,
    now_ms: u64,
    r: Result<(), Error<T::Error>>,
)
    requires
        upload_continued(a, b, m, peer, id, now_ms, r),
    ensures
        only_asked(a, b, call_key(m.token, peer)),
{
    let key = call_key(m.token, peer);
    lemma_asked_same(a, a, key);
    let t = a.engine.tx_transfer(id)->0;
    let live = a.lives.rows.row(call_key(m.token, peer));
    let acked = match crate::message::fields::block_option(m.options, 19) {
        Some(Ok(q)) => q.num + 1,
        _ => 0,
    };
    if b != a {
        assert forall|u: UploadView, c: Core<T>|
            #[trigger] super::upload::upload_of(live, m.token, peer, u)
                && super::upload::request_taken(a, c, m.token, peer) && #[trigger] block1_issued(
                c,
                b,
                u,
                id,
                now_ms,
                r,
            ) implies only_asked(a, b, key) by {
            lemma_row_out(a.engine.exchanges.rows@, key);
            assert(only_asked(a, c, key)) by {
                reveal(only_asked);
            }
            lemma_block1_issued(c, b, u, id, now_ms, r);
            lemma_asked_trans(a, c, b, key);
        }
        assert forall|u: UploadView, c: Core<T>|
            #[trigger] super::upload::upload_of(live, m.token, peer, u)
                && super::upload::window_moved(a, c, id, acked) && #[trigger] upload_window(
                c,
                b,
                u,
                id,
                true,
                now_ms,
                r,
            ) implies only_asked(a, b, key) by {
            lemma_asked_same(a, c, key);
            lemma_upload_window(c, b, u, id, true, now_ms, r);
            lemma_asked_trans(a, c, b, key);
        }
    }
}

proof fn lemma_followed_up<T: DatagramIo>(
    a: Core<T>,
    b: Core<T>,
    call: Call,
    block: crate::message::BlockValue,
    q_block: bool,
    now_ms: u64,
    r: Result<(), Error<T::Error>>,
)
    requires
        asked_next(a, b, call, block, q_block, now_ms, r),
    ensures
        only_asked(a, b, call.key()),
{
    let key = call.key();
    lemma_asked_same(a, a, key);
    let (block2, q_block2) = if q_block {
        (None, Some(block))
    } else {
        (Some(block), None)
    };
    let m = super::upload::followup_message(
        a.lives.row(call),
        call.token@,
        a.ids.next_mid,
        block2,
        q_block2,
    );
    assert(followed_up(a, b, call, block2, q_block2, now_ms, r));
    if b == (Core { ids: b.ids, ..a }) {
        lemma_asked_same(a, b, key);
    } else {
        assert forall|c: Core<T>|
            super::outbound::identified(a, c, now_ms) && #[trigger] requested(
                c,
                b,
                m,
                call.peer,
                false,
                now_ms,
                r,
            ) implies only_asked(a, b, key) by {
            lemma_asked_same(a, c, key);
            lemma_requested(c, b, m, call.peer, false, now_ms, r);
            lemma_asked_trans(a, c, b, key);
        }
    }
}

/// A step for a call that is still under way leaves all the others so.
proof fn lemma_step_lives<T>(a: Core<T>, b: Core<T>, key: KeyView)
    requires
        stepped_for(a, b, key),
        find_row(b.lives.rows.rows@, key).is_some(),
    ensures
        lives_kept(a, b),
{
    reveal(stepped_for);
    assert forall|other: KeyView|
        client_key(other) && find_row(a.lives.rows.rows@, other).is_some() implies #[trigger] find_row(
        b.lives.rows.rows@,
        other,
    ).is_some() by {
        if other != key {
            lemma_same_found(a.lives.rows.rows@, b.lives.rows.rows@, key, other);
        }
    }
}

/// What a step for a call leaves in order when its request waits no more.
pub proof fn lemma_step_closed<T>(a: Core<T>, b: Core<T>, key: KeyView)
    requires
        owned(a),
        stepped_for(a, b, key),
        find_row(b.lives.rows.rows@, key).is_some(),
        find_row(b.engine.exchanges.rows@, key).is_none(),
    ensures
        owned(b),
        lives_kept(a, b),
{
    lemma_step_owned(a, b, key);
    lemma_step_lives(a, b, key);
}

/// What a step for a call leaves in order when no whole reply to it waits.
proof fn lemma_step_part<T>(a: Core<T>, b: Core<T>, key: KeyView)
    requires
        owned(a),
        stepped_for(a, b, key),
        find_row(b.lives.rows.rows@, key).is_some(),
        !replied_whole(b.inbox.rows.rows@, key),
    ensures
        owned(b),
        lives_kept(a, b),
{
    lemma_step_owned(a, b, key);
    lemma_step_lives(a, b, key);
}

/// Does something of a call wait for a response?
pub open spec fn awaits_reply<T>(c: Core<T>, key: KeyView) -> bool {
    find_row(c.engine.exchanges.rows@, key).is_some() || find_row(
        c.engine.store.observe.rows@,
        key,
    ).is_some()
}

proof fn lemma_step_asked<T>(a: Core<T>, b: Core<T>, key: KeyView)
    requires
        owned(a),
        only_asked(a, b, key),
        client_key(key),
        awaits_reply(a, key),
    ensures
        owned(b),
        lives_kept(a, b),
{
    lemma_asked_step(a, b, key);
    lemma_owned_fits(a, key);
    lemma_step_owned(a, b, key);
}

/// The end of a call is a step for it, and closes its request.
proof fn lemma_failed_step<T>(
    a: Core<T>,
    b: Core<T>,
    call: Call,
    failure: CallFailure,
    release: bool,
)
    requires
        distinct(a),
        call_failed(a, b, call, failure, release),
        find_row(a.lives.rows.rows@, call.key()).is_some(),
    ensures
        stepped_for(a, b, call.key()),
        find_row(b.lives.rows.rows@, call.key()).is_some(),
        find_row(b.engine.exchanges.rows@, call.key()).is_none(),
{
    reveal(stepped_for);
    let key = call.key();
    lemma_row_out(a.engine.exchanges.rows@, key);
    lemma_row_out(a.engine.store.observe.rows@, key);
    let row = failed_row(call, failure);
    assert(row.row_key() == key);
    if place_row(a.inbox.rows.rows@, key).is_some() {
        lemma_row_in(a.inbox.rows.rows@, row);
    }
    lemma_find_row(a.lives.rows.rows@, key);
    let i = find_row(a.lives.rows.rows@, key)->0;
    let live = ended(a.lives.rows.rows@[i]->0);
    assert(live.row_key() == key);
    assert(place_row(a.lives.rows.rows@, key) == Some(i));
    lemma_row_in(a.lives.rows.rows@, live);
}

/// The end of a call that is under way keeps everything in order.
pub proof fn lemma_failed_owned<T>(
    a: Core<T>,
    b: Core<T>,
    call: Call,
    failure: CallFailure,
    release: bool,
)
    requires
        call_failed(a, b, call, failure, release),
        find_row(a.lives.rows.rows@, call.key()).is_some() || awaits_reply(a, call.key()),
    ensures
        carried(a, b),
{
    if owned(a) {
        lemma_owned_fits(a, call.key());
        lemma_failed_step(a, b, call, failure, release);
        lemma_step_closed(a, b, call.key());
    }
}

/// Whatever is overdue belongs to a call under way, and stays so while others
/// end.
pub proof fn lemma_all_failed_owned<T>(a: Core<T>, b: Core<T>, list: Seq<(Call, CallFailure)>)
    requires
        owned(a),
        all_failed(a, b, list),
        forall|i: int|
            0 <= i < list.len() ==> find_row(
                a.lives.rows.rows@,
                (#[trigger] list[i]).0.key(),
            ).is_some(),
    ensures
        owned(b),
        lives_kept(a, b),
    decreases list.len(),
{
    if list.len() > 0 {
        let call = list.last().0;
        let failure = list.last().1;
        let c = choose|c: Core<T>|
            #[trigger] call_failed(c, b, call, failure, true) && all_failed(
                a,
                c,
                list.drop_last(),
            );
        assert forall|i: int| 0 <= i < list.drop_last().len() implies find_row(
            a.lives.rows.rows@,
            (#[trigger] list.drop_last()[i]).0.key(),
        ).is_some() by {
            assert(list.drop_last()[i] == list[i]);
        }
        lemma_all_failed_owned(a, c, list.drop_last());
        assert(list[list.len() - 1] == list.last());
        assert(find_row(c.lives.rows.rows@, call.key()).is_some());
        lemma_owned_fits(c, call.key());
        lemma_failed_step(c, b, call, failure, true);
        lemma_step_closed(c, b, call.key());
        assert forall|key: KeyView|
            client_key(key) && find_row(a.lives.rows.rows@, key).is_some() implies #[trigger] find_row(
            b.lives.rows.rows@,
            key,
        ).is_some() by {
            assert(find_row(c.lives.rows.rows@, key).is_some());
            if key != call.key() {
                reveal(stepped_for);
                lemma_same_found(c.lives.rows.rows@, b.lives.rows.rows@, call.key(), key);
            }
        }
    }
}

/// The calls that end are under way.
pub proof fn lemma_overdue_live<T>(c: Core<T>, rows: Seq<Option<LiveCall>>, now_ms: u64)
    ensures
        forall|i: int|
            0 <= i < overdue_calls(c, rows, now_ms).len() ==> find_row(
                rows,
                (#[trigger] overdue_calls(c, rows, now_ms)[i]).0.key(),
            ).is_some(),
    decreases rows.len(),
{
    if rows.len() > 0 {
        let front = rows.drop_last();
        lemma_overdue_live(c, front, now_ms);
        let list = overdue_calls(c, rows, now_ms);
        let before = overdue_calls(c, front, now_ms);
        assert forall|i: int| 0 <= i < list.len() implies find_row(
            rows,
            (#[trigger] list[i]).0.key(),
        ).is_some() by {
            let key = list[i].0.key();
            lemma_find_row(rows, key);
            if i < before.len() {
                assert(list[i] == before[i]);
                lemma_find_row(front, key);
                let k = find_row(front, key)->0;
                assert(rows[k] == front[k]);
            } else {
                assert(rows[rows.len() - 1] == rows.last());
            }
        }
    }
}

proof fn lemma_noted_step<T>(a: Core<T>, b: Core<T>, call: Call, m: MessageView, now_ms: u64)
    requires
        distinct(a),
        b.lives.rows.rows@ == lives_recorded(a.lives.rows.rows@, call, m, now_ms),
        b.engine.exchanges == a.engine.exchanges,
        b.engine.store.observe == a.engine.store.observe,
        b.inbox.rows.rows@ == a.inbox.rows.rows@ || b.inbox.rows.rows@ == without(
            a.inbox.rows.rows@,
            call.key(),
        ),
        find_row(a.lives.rows.rows@, call.key()).is_some(),
    ensures
        stepped_for(a, b, call.key()),
        find_row(b.lives.rows.rows@, call.key()).is_some(),
        distinct(b),
{
    reveal(stepped_for);
    let rows = a.lives.rows.rows@;
    let key = call.key();
    lemma_find_row(rows, key);
    lemma_row_out(a.inbox.rows.rows@, key);
    let i = find_row(rows, key)->0;
    if let Some(seq) = super::inbox::observation_start_of(m) {
        let row = super::inbox::with_observed(rows[i], Some((seq, now_ms)))->0;
        assert(row.row_key() == key);
        assert(place_row(rows, key) == Some(i));
        lemma_row_in(rows, row);
    }
}

proof fn lemma_stored_step<T>(
    a: Core<T>,
    b: Core<T>,
    call: Call,
    meta: super::calls::ReplyMeta,
    body: Option<SlotId>,
    via_exchange: bool,
)
    requires
        distinct(a),
        reply_stored(a, b, call, meta, body, via_exchange),
    ensures
        stepped_for(a, b, call.key()),
        b.lives == a.lives,
        find_row(b.engine.exchanges.rows@, call.key()).is_none(),
{
    reveal(stepped_for);
    let key = call.key();
    lemma_row_out(a.engine.exchanges.rows@, key);
    lemma_row_out(a.engine.store.observe.rows@, key);
    let sub = super::complete::subscription(call, meta);
    assert(sub.row_key() == key);
    if place_row(a.engine.store.observe.rows@, key).is_some() {
        lemma_row_in(a.engine.store.observe.rows@, sub);
    }
    let row = InboxRow { complete: true, call, meta: Ok(meta), body };
    assert(row.row_key() == key);
    if place_row(a.inbox.rows.rows@, key).is_some() {
        lemma_row_in(a.inbox.rows.rows@, row);
    }
}

/// A response in one message keeps everything in order.
pub proof fn lemma_plain_owned<T>(
    a: Core<T>,
    b: Core<T>,
    call: Call,
    m: MessageView,
    via_exchange: bool,
    now_ms: u64,
)
    requires
        owned(a),
        plain_taken(a, b, call, m, via_exchange, now_ms),
        find_row(a.lives.rows.rows@, call.key()).is_some(),
    ensures
        owned(b),
        lives_kept(a, b),
{
    lemma_owned_fits(a, call.key());
    let (c, meta) = choose|c: Core<T>, meta: super::calls::ReplyMeta|
        noted(a, c, call, m, now_ms) && super::calls::keeps(meta, m, call.peer, now_ms)
            && #[trigger] reply_stored(c, b, call, meta, None, via_exchange);
    lemma_noted_step(a, c, call, m, now_ms);
    lemma_stored_step(c, b, call, meta, None, via_exchange);
    lemma_step_trans(a, c, b, call.key());
    lemma_step_closed(a, b, call.key());
}

proof fn lemma_whole_owned<T>(
    a: Core<T>,
    b: Core<T>,
    call: Call,
    m: MessageView,
    id: SlotId,
    via_exchange: bool,
    now_ms: u64,
)
    requires
        owned(a),
        whole_taken(a, b, call, m, id, via_exchange, now_ms),
        find_row(a.lives.rows.rows@, call.key()).is_some(),
    ensures
        owned(b),
        lives_kept(a, b),
{
    lemma_owned_fits(a, call.key());
    let (c, meta) = choose|c: Core<T>, meta: super::calls::ReplyMeta|
        {
            &&& c.lives.rows.rows@ == lives_recorded(a.lives.rows.rows@, call, m, now_ms)
            &&& c == (Core { inbox: c.inbox, lives: c.lives, ..a })
            &&& if a.inbox.partial(call, id) {
                &&& a.inbox.row(call)->0.meta == Ok::<super::calls::ReplyMeta, CallFailure>(meta)
                &&& c.inbox.rows.rows@ == without(a.inbox.rows.rows@, call.key())
            } else {
                &&& super::calls::keeps(meta, m, call.peer, now_ms)
                &&& c.inbox == a.inbox
            }
            &&& #[trigger] reply_stored(c, b, call, meta, Some(id), via_exchange)
        };
    lemma_noted_step(a, c, call, m, now_ms);
    lemma_stored_step(c, b, call, meta, Some(id), via_exchange);
    lemma_step_trans(a, c, b, call.key());
    lemma_step_closed(a, b, call.key());
}

proof fn lemma_partial_step<T>(
    a: Core<T>,
    b: Core<T>,
    call: Call,
    m: MessageView,
    id: SlotId,
    now_ms: u64,
    ok: bool,
)
    requires
        distinct(a),
        partial_kept(a, b, call, m, id, now_ms, ok),
    ensures
        stepped_for(a, b, call.key()),
        distinct(b),
        b.lives == a.lives,
        b.engine.exchanges == a.engine.exchanges,
        b.engine.store.observe == a.engine.store.observe,
        ok ==> !replied_whole(b.inbox.rows.rows@, call.key()),
        !ok ==> b.inbox == a.inbox,
{
    reveal(stepped_for);
    let key = call.key();
    let rows = a.inbox.rows.rows@;
    lemma_find_row(rows, key);
    lemma_free_row(rows);
    if a.inbox.partial(call, id) {
    } else if let Some(i) = place_row(rows, key) {
        let row = b.inbox.rows.rows@[i]->0;
        assert(row.row_key() == key);
        lemma_row_in(rows, row);
        assert(b.inbox.rows.rows@ == rows.update(i, Some(row)));
    }
}

proof fn lemma_part_owned<T: DatagramIo>(
    a: Core<T>,
    b: Core<T>,
    call: Call,
    m: MessageView,
    id: SlotId,
    q_block: bool,
    now_ms: u64,
    r: Result<(), Error<T::Error>>,
)
    requires
        owned(a),
        part_taken(a, b, call, m, id, q_block, now_ms, r),
        find_row(a.lives.rows.rows@, call.key()).is_some(),
    ensures
        owned(b),
        lives_kept(a, b),
{
    let key = call.key();
    lemma_owned_fits(a, key);
    let (c, d, ok) = choose|c: Core<T>, d: Core<T>, ok: bool|
        {
            &&& noted(a, c, call, m, now_ms)
            &&& #[trigger] partial_kept(c, d, call, m, id, now_ms, ok)
            &&& if !ok {
                r == Err::<(), Error<T::Error>>(Error::Saturated) && b == d
            } else {
                let wanted = super::complete::next_wanted(d.engine.rx_transfer(id)->0, q_block);
                exists|e: Core<T>|
                    {
                        &&& #[trigger] super::complete::part_noted(
                            d,
                            e,
                            call,
                            id,
                            q_block,
                            wanted,
                            now_ms,
                        )
                        &&& match wanted {
                            Some(block) => asked_next(e, b, call, block, q_block, now_ms, r),
                            None => r.is_ok() && b == e,
                        }
                    }
            }
        };
    lemma_noted_step(a, c, call, m, now_ms);
    lemma_partial_step(c, d, call, m, id, now_ms, ok);
    lemma_step_trans(a, c, d, key);
    if !ok {
        lemma_step_owned(a, b, key);
        lemma_step_lives(a, b, key);
    } else {
        let wanted = super::complete::next_wanted(d.engine.rx_transfer(id)->0, q_block);
        let e = choose|e: Core<T>|
            {
                &&& #[trigger] super::complete::part_noted(
                    d,
                    e,
                    call,
                    id,
                    q_block,
                    wanted,
                    now_ms,
                )
                &&& match wanted {
                    Some(block) => asked_next(e, b, call, block, q_block, now_ms, r),
                    None => r.is_ok() && b == e,
                }
            };
        lemma_row_out(d.engine.exchanges.rows@, key);
        assert(only_asked(d, e, key)) by {
            reveal(only_asked);
        }
        if let Some(block) = wanted {
            lemma_followed_up(e, b, call, block, q_block, now_ms, r);
            lemma_asked_trans(d, e, b, key);
        }
        lemma_asked_step(d, b, key);
        lemma_step_trans(a, d, b, key);
        lemma_step_part(a, b, key);
    }
}

proof fn lemma_block_owned<T: DatagramIo>(
    a: Core<T>,
    b: Core<T>,
    call: Call,
    m: MessageView,
    block: Result<crate::message::BlockValue, crate::error::ValueError>,
    q_block: bool,
    via_exchange: bool,
    now_ms: u64,
    r: Result<(), Error<T::Error>>,
)
    requires
        owned(a),
        block_taken(a, b, call, m, block, q_block, via_exchange, now_ms, r),
        find_row(a.lives.rows.rows@, call.key()).is_some(),
    ensures
        owned(b),
        lives_kept(a, b),
{
    let (c, p) = choose|
        c: Core<T>,
        p: Result<crate::storage::body::BlockProgress, crate::error::BlockTransferError>,
    |
        {
            &&& c == (Core { engine: c.engine, ..a })
            &&& super::complete::response_block_taken(
                a.engine,
                c.engine,
                m,
                call.peer,
                block,
                q_block,
                p,
            )
            &&& #[trigger] block_outcome(c, b, call, m, q_block, via_exchange, now_ms, p, r)
        };
    lemma_same_owned(a, c);
    match p {
        Ok(p) => {
            if p.done {
                let d = choose|d: Core<T>|
                    d == (Core { engine: d.engine, ..c }) && super::complete::block_noted(
                        c.engine,
                        d.engine,
                        p.id,
                        q_block,
                        now_ms,
                    ) && #[trigger] whole_taken(d, b, call, m, p.id, via_exchange, now_ms);
                lemma_same_owned(c, d);
                lemma_whole_owned(d, b, call, m, p.id, via_exchange, now_ms);
            } else {
                lemma_part_owned(c, b, call, m, p.id, q_block, now_ms, r);
            }
        },
        Err(crate::error::BlockTransferError::NoBodyPools) => {
            lemma_plain_owned(c, b, call, m, via_exchange, now_ms);
        },
        Err(e) => {
            if call_failed(c, b, call, CallFailure::BlockTransfer(e), true) {
                lemma_failed_owned(c, b, call, CallFailure::BlockTransfer(e), true);
            }
        },
    }
}

proof fn lemma_content_owned<T: DatagramIo>(
    a: Core<T>,
    b: Core<T>,
    call: Call,
    m: MessageView,
    via_exchange: bool,
    now_ms: u64,
    r: Result<(), Error<T::Error>>,
)
    requires
        owned(a),
        content_taken(a, b, call, m, via_exchange, now_ms, r),
        find_row(a.lives.rows.rows@, call.key()).is_some(),
    ensures
        owned(b),
        lives_kept(a, b),
{
    if !super::calls::meta_fits(m) {
        lemma_failed_owned(a, b, call, CallFailure::ResponseMetadataBounds, true);
    } else {
        match crate::message::fields::block_option(m.options, 23) {
            Some(block) => lemma_block_owned(
                a,
                b,
                call,
                m,
                block,
                false,
                via_exchange,
                now_ms,
                r,
            ),
            None => match crate::message::fields::block_option(m.options, 31) {
                Some(block) => lemma_block_owned(
                    a,
                    b,
                    call,
                    m,
                    block,
                    true,
                    via_exchange,
                    now_ms,
                    r,
                ),
                None => lemma_plain_owned(a, b, call, m, via_exchange, now_ms),
            },
        }
    }
}

proof fn lemma_taken_owned<T: DatagramIo>(
    a: Core<T>,
    b: Core<T>,
    call: Call,
    m: MessageView,
    via_exchange: bool,
    now_ms: u64,
    r: Result<(), Error<T::Error>>,
)
    requires
        owned(a),
        response_taken(a, b, call, m, via_exchange, now_ms, r),
        call.token@ == m.token,
        awaits_reply(a, call.key()),
    ensures
        owned(b),
        lives_kept(a, b),
{
    let key = call.key();
    lemma_owned_fits(a, key);
    let at = choose|at: Option<SlotId>|
        {
            &&& #[trigger] super::complete::uploads_from(a, call, at)
            &&& if at.is_some() && m.code == crate::message::Code::CONTINUE {
                upload_continued(a, b, m, call.peer, at->0, now_ms, r)
            } else {
                exists|c: Core<T>|
                    c == (Core { engine: c.engine, ..a }) && super::complete::upload_over(
                        a.engine,
                        c.engine,
                        at,
                    ) && #[trigger] content_taken(c, b, call, m, via_exchange, now_ms, r)
            }
        };
    if at.is_some() && m.code == crate::message::Code::CONTINUE {
        lemma_upload_continued(a, b, m, call.peer, at->0, now_ms, r);
        lemma_step_asked(a, b, key);
    } else {
        let c = choose|c: Core<T>|
            c == (Core { engine: c.engine, ..a }) && super::complete::upload_over(
                a.engine,
                c.engine,
                at,
            ) && #[trigger] content_taken(c, b, call, m, via_exchange, now_ms, r);
        lemma_same_owned(a, c);
        lemma_content_owned(c, b, call, m, via_exchange, now_ms, r);
    }
}

/// A response keeps everything in order.
pub proof fn lemma_completed_owned<T: DatagramIo>(
    a: Core<T>,
    b: Core<T>,
    call: Call,
    m: MessageView,
    now_ms: u64,
    r: Result<(), Error<T::Error>>,
)
    requires
        completed(a, b, call, m, now_ms, r),
        call.token@ == m.token,
    ensures
        carried(a, b),
{
    let origin = super::complete::answered_request(a.engine, m, call.peer);
    let key = call.key();
    assert(key == call_key(m.token, call.peer));
    if !owned(a) {
    } else if (origin.is_some() || super::ending::observing(a.engine, call))
        && crate::message::fields::unknown_critical_of(m.options).is_none() {
        let (c, ack) = choose|c: Core<T>, ack: Result<(), Error<T::Error>>|
            {
                &&& #[trigger] super::complete::confirmed(a, c, m, call.peer, ack)
                &&& if ack.is_err() {
                    r == ack && b == c
                } else if !a.lives.fresh(call, m, now_ms) {
                    r.is_ok() && b == c
                } else {
                    exists|d: Core<T>|
                        super::complete::acknowledgements_settled(c, d, origin, m, call.peer)
                            && #[trigger] response_taken(
                            d,
                            b,
                            call,
                            m,
                            origin.is_some(),
                            now_ms,
                            r,
                        )
                }
            };
        lemma_same_owned(a, c);
        if ack.is_ok() && a.lives.fresh(call, m, now_ms) {
            let d = choose|d: Core<T>|
                super::complete::acknowledgements_settled(c, d, origin, m, call.peer)
                    && #[trigger] response_taken(d, b, call, m, origin.is_some(), now_ms, r);
            lemma_same_owned(c, d);
            lemma_taken_owned(d, b, call, m, origin.is_some(), now_ms, r);
        }
    } else {
        lemma_same_owned(a, b);
    }
}

/// Sending a request, in one message or in blocks, opens requests of its call.
pub proof fn lemma_wish_asked<T: DatagramIo>(
    a: Core<T>,
    b: Core<T>,
    w: Wish<'_>,
    token: Seq<u8>,
    dest: Endpoint,
    now_ms: u64,
    r: Result<(), Error<T::Error>>,
)
    requires
        wish_sent(a, b, w, token, dest, now_ms, r),
    ensures
        only_asked(a, b, call_key(token, dest)),
{
    let key = call_key(token, dest);
    let m = w.message(token, a.ids.next_mid);
    let small = Err::<(), Error<T::Error>>(
        Error::Message(SlotMessageError::Encode(EncodeError::BufferTooSmall)),
    );
    if b.engine == a.engine {
        lemma_asked_same(a, b, key);
    } else {
        let (c, d, one) = choose|c: Core<T>, d: Core<T>, one: Result<(), Error<T::Error>>|
            {
                &&& super::outbound::identified(a, c, now_ms)
                &&& #[trigger] requested(c, d, m, dest, true, now_ms, one)
                &&& if one != small {
                    r == one && b == d
                } else if w.no_response.is_some() {
                    r == Err::<(), Error<T::Error>>(Error::NoResponseUploadUnsupported) && b == d
                } else if w.if_match.is_some() || w.if_none_match || w.etag.is_some() {
                    r == Err::<(), Error<T::Error>>(Error::ConditionalUploadUnsupported) && b == d
                } else {
                    sent_in_blocks(d, b, w, token, dest, now_ms, r)
                }
            };
        lemma_asked_same(a, c, key);
        lemma_requested(c, d, m, dest, true, now_ms, one);
        lemma_asked_trans(a, c, d, key);
        if b != d {
            let u = super::wish::wished_upload(w, token, dest);
            let (e, f, id) = choose|e: Core<T>, f: Core<T>, id: SlotId|
                {
                    &&& #[trigger] super::bodies::body_begun(
                        d,
                        e,
                        id,
                        super::wish::upload_role(w.q_block1),
                        crate::storage::endpoint::BlockKeyView {
                            token,
                            peer: dest,
                            identity: w.request_tag@,
                        },
                        w.payload@,
                        6,
                    )
                    &&& #[trigger] upload_begun(e, f, u, w.q_block1, id, now_ms, r)
                    &&& if r.is_err() {
                        super::bodies::body_ended(f, b, id)
                    } else {
                        b == f
                    }
                };
            lemma_asked_same(d, e, key);
            if w.q_block1 {
                lemma_upload_window(e, f, u, id, false, now_ms, r);
            } else {
                lemma_block1_issued(e, f, u, id, now_ms, r);
            }
            lemma_asked_same(f, b, key);
            lemma_asked_trans(a, d, e, key);
            lemma_asked_trans(a, e, f, key);
            lemma_asked_trans(a, f, b, key);
        }
    }
}

proof fn lemma_abandoned_step<T>(a: Core<T>, b: Core<T>, call: Call)
    requires
        distinct(a),
        abandoned(a, b, call),
    ensures
        stepped_for(a, b, call.key()),
        distinct(b),
        b.inbox == a.inbox,
        b.lives == a.lives,
        b.engine.store.observe == a.engine.store.observe,
        find_row(b.engine.exchanges.rows@, call.key()).is_none(),
{
    reveal(stepped_for);
    lemma_row_out(a.engine.exchanges.rows@, call.key());
}

/// Placing a call keeps everything in order: a new one has nothing that waits
/// yet, and one that is cancelled is under way.
proof fn lemma_placed_owned<T: DatagramIo>(
    a: Core<T>,
    b: Core<T>,
    w: Wish<'_>,
    call: Call,
    now_ms: u64,
    r: Result<Call, Error<T::Error>>,
)
    requires
        owned(a),
        placed(a, b, w, call, now_ms, r),
        if w.observe == OutgoingObserve::Deregister {
            find_row(a.lives.rows.rows@, call.key()).is_some()
        } else {
            find_row(a.lives.rows.rows@, call.key()).is_none()
        },
    ensures
        owned(b),
        lives_kept(a, b),
{
    let key = call.key();
    lemma_owned_fits(a, key);
    if place_refusal::<T>(a, w, call).is_none() {
        let (c, d, sent) = choose|c: Core<T>, d: Core<T>, sent: Result<(), Error<T::Error>>|
            {
                &&& if w.observe == OutgoingObserve::Deregister {
                    retired(a, c, call)
                } else {
                    c == a
                }
                &&& #[trigger] wish_sent(c, d, w, call.token@, call.peer, now_ms, sent)
                &&& #[trigger] concluded(d, b, w, call, now_ms, sent, r)
            };
        assert(stepped_for(a, c, key)) by {
            reveal(stepped_for);
            lemma_row_out(a.engine.exchanges.rows@, key);
            lemma_row_out(a.engine.store.observe.rows@, key);
            lemma_row_out(a.inbox.rows.rows@, key);
        }
        assert(find_row(c.inbox.rows.rows@, key).is_none()) by {
            lemma_row_out(a.inbox.rows.rows@, key);
        }
        assert(find_row(c.engine.store.observe.rows@, key).is_none()) by {
            lemma_row_out(a.engine.store.observe.rows@, key);
        }
        lemma_wish_asked(c, d, w, call.token@, call.peer, now_ms, sent);
        lemma_asked_step(c, d, key);
        lemma_step_trans(a, c, d, key);
        assert(distinct(d)) by {
            reveal(stepped_for);
        }
        match sent {
            Ok(_) => {
                let i = place_row(d.lives.rows.rows@, key)->0;
                let live = b.lives.rows.rows@[i]->0;
                assert(live.row_key() == key);
                lemma_row_in(d.lives.rows.rows@, live);
                assert(b.lives.rows.rows@ == d.lives.rows.rows@.update(i, Some(live)));
                assert(stepped_for(d, b, key)) by {
                    reveal(stepped_for);
                }
                lemma_step_trans(a, d, b, key);
                lemma_step_part(a, b, key);
            },
            Err(e) => {
                if w.observe == OutgoingObserve::Deregister {
                    let f = choose|f: Core<T>|
                        #[trigger] abandoned(d, f, call) && call_failed(
                            f,
                            b,
                            call,
                            CallFailure::CancellationFailed,
                            true,
                        );
                    lemma_abandoned_step(d, f, call);
                    lemma_failed_step(f, b, call, CallFailure::CancellationFailed, true);
                    lemma_step_trans(a, d, f, key);
                    lemma_step_trans(a, f, b, key);
                    lemma_step_closed(a, b, key);
                } else {
                    lemma_abandoned_step(d, b, call);
                    lemma_step_trans(a, d, b, key);
                    lemma_step_owned(a, b, key);
                }
            },
        }
    }
}

proof fn lemma_cancellable_live<T>(
    c: Core<T>,
    rows: Seq<Option<LiveCall>>,
    identity: Seq<u8>,
    dest: Endpoint,
    selected: Option<Call>,
)
    ensures
        forall|i: int|
            0 <= i < cancellable(c, rows, identity, dest, selected).len() ==> find_row(
                rows,
                (#[trigger] cancellable(c, rows, identity, dest, selected)[i]).key(),
            ).is_some(),
    decreases rows.len(),
{
    if rows.len() > 0 {
        let front = rows.drop_last();
        lemma_cancellable_live(c, front, identity, dest, selected);
        let list = cancellable(c, rows, identity, dest, selected);
        let before = cancellable(c, front, identity, dest, selected);
        assert forall|i: int| 0 <= i < list.len() implies find_row(
            rows,
            (#[trigger] list[i]).key(),
        ).is_some() by {
            let key = list[i].key();
            lemma_find_row(rows, key);
            if i < before.len() {
                assert(list[i] == before[i]);
                lemma_find_row(front, key);
                let k = find_row(front, key)->0;
                assert(rows[k] == front[k]);
            } else {
                assert(rows[rows.len() - 1] == rows.last());
            }
        }
    }
}

/// A token that no call has belongs to none of them.
pub proof fn lemma_fresh_token(rows: Seq<Option<LiveCall>>, call: Call)
    requires
        !token_taken(rows, call.token@),
    ensures
        find_row(rows, call.key()).is_none(),
{
    lemma_find_row(rows, call.key());
    if let Some(i) = find_row(rows, call.key()) {
        assert(super::inbox::has_token(rows[i], call.token@));
    }
}

/// Sending a call keeps everything in order.
pub proof fn lemma_called_owned<T: DatagramIo>(
    a: Core<T>,
    b: Core<T>,
    w: Wish<'_>,
    dest: Endpoint,
    now_ms: u64,
    r: Result<Call, Error<T::Error>>,
)
    requires
        called(a, b, w, dest, now_ms, r),
    ensures
        carried(a, b),
{
    if owned(a) && w.refusal::<T::Error>(now_ms).is_none() {
        let rows = a.lives.rows.rows@;
        if w.observe == OutgoingObserve::Deregister {
            let identity = crate::message::wire::wire(w.identity());
            let list = cancellable(a, rows, identity, dest, w.selected);
            if let Ok(call) = chosen::<T::Error>(list) {
                lemma_cancellable_live(a, rows, identity, dest, w.selected);
                assert(call == list[0]);
                lemma_placed_owned(a, b, w, call, now_ms, r);
            }
        } else {
            let (c, t) = choose|c: Core<T>, t: Result<Seq<u8>, IdentityError>|
                {
                    &&& #[trigger] token_sought(a, c, t)
                    &&& match t {
                        Err(e) => r == Err::<Call, Error<T::Error>>(Error::Identity(e)) && b == c,
                        Ok(token) => exists|call: Call|
                            call.peer == dest && call.token@ == token && #[trigger] placed(
                                c,
                                b,
                                w,
                                call,
                                now_ms,
                                r,
                            ),
                    }
                };
            lemma_same_owned(a, c);
            if let Ok(token) = t {
                let call = choose|call: Call|
                    call.peer == dest && call.token@ == token && #[trigger] placed(
                        c,
                        b,
                        w,
                        call,
                        now_ms,
                        r,
                    );
                lemma_fresh_token(rows, call);
                lemma_placed_owned(c, b, w, call, now_ms, r);
            }
        }
    }
}

/// Fetching a reply keeps everything in order: nothing of a call that does not
/// observe still waits.
pub proof fn lemma_gone_owned<T>(a: Core<T>, b: Core<T>, call: Call)
    requires
        reply_gone(a, b, call),
        a.inbox.has(call),
    ensures
        owned(a) ==> owned(b),
{
    if owned(a) {
        let key = call.key();
        lemma_owned_fits(a, key);
        lemma_row_out(a.inbox.rows.rows@, key);
        lemma_row_out(a.lives.rows.rows@, key);
        assert(stepped_for(a, b, key)) by {
            reveal(stepped_for);
        }
        lemma_step_owned(a, b, key);
    }
}

/// With nothing under way, everything is in order.
pub proof fn lemma_idle_owned<T>(c: Core<T>)
    requires
        distinct(c),
        forall|i: int|
            0 <= i < c.engine.exchanges.rows@.len() ==> (
            #[trigger] c.engine.exchanges.rows@[i]).is_none(),
        forall|i: int|
            0 <= i < c.engine.store.observe.rows@.len() ==> (
            #[trigger] c.engine.store.observe.rows@[i]).is_none(),
        forall|i: int|
            0 <= i < c.inbox.rows.rows@.len() ==> (#[trigger] c.inbox.rows.rows@[i]).is_none(),
    ensures
        owned(c),
{
    reveal(owned);
    assert forall|key: KeyView| client_key(key) implies #[trigger] fits(c, key) by {
        lemma_find_row(c.engine.exchanges.rows@, key);
        lemma_find_row(c.engine.store.observe.rows@, key);
        lemma_find_row(c.inbox.rows.rows@, key);
    }
}

/// There is room for the outcome of every call that is under way: a reply that
/// waits belongs to a call, and there are as many places for replies as for
/// calls.
pub proof fn lemma_outcome_fits<T>(c: Core<T>, call: Call)
    requires
        owned(c),
        c.inbox.wf(),
        c.lives.wf(),
        find_row(c.lives.rows.rows@, call.key()).is_some(),
    ensures
        place_row(c.inbox.rows.rows@, call.key()).is_some(),
{
    let inbox = c.inbox.rows.rows@;
    let lives = c.lives.rows.rows@;
    let key = call.key();
    if find_row(inbox, key).is_none() && free_row(inbox).is_none() {
        lemma_free_row(inbox);
        lemma_find_row(inbox, key);
        lemma_find_row(lives, key);
        assert forall|i: int| 0 <= i < 4 implies 0 <= (#[trigger] holder(inbox, lives, i)) < 4
            && holder(inbox, lives, i) != find_row(lives, key)->0 && lives[holder(inbox, lives, i)]
            == lives[holder(inbox, lives, i)] && lives[holder(inbox, lives, i)].is_some()
            && lives[holder(inbox, lives, i)]->0.row_key() == inbox[i]->0.row_key() by {
            assert(inbox[i].is_some());
            let k = inbox[i]->0.row_key();
            lemma_owned_fits(c, k);
            lemma_find_row(inbox, k);
            lemma_find_row(lives, k);
        }
        reveal(owned);
        let (h0, h1, h2, h3) = (
            holder(inbox, lives, 0),
            holder(inbox, lives, 1),
            holder(inbox, lives, 2),
            holder(inbox, lives, 3),
        );
        assert(inbox[0].is_some() && inbox[1].is_some() && inbox[2].is_some()
            && inbox[3].is_some());
        assert(h0 != h1 && h0 != h2 && h0 != h3 && h1 != h2 && h1 != h3 && h2 != h3);
    }
}

/// The end of a call that is under way waits to be fetched.
pub proof fn lemma_failure_kept<T>(
    a: Core<T>,
    b: Core<T>,
    call: Call,
    failure: CallFailure,
    release: bool,
)
    requires
        owned(a),
        a.inbox.wf(),
        a.lives.wf(),
        call_failed(a, b, call, failure, release),
        find_row(a.lives.rows.rows@, call.key()).is_some() || awaits_reply(a, call.key()),
    ensures
        b.inbox.row(call) == Some(failed_row(call, failure)),
{
    lemma_owned_fits(a, call.key());
    lemma_outcome_fits(a, call);
    lemma_row_in(a.inbox.rows.rows@, failed_row(call, failure));
}

/// The row of the call that a reply belongs to.
spec fn holder(inbox: Seq<Option<InboxRow>>, lives: Seq<Option<LiveCall>>, i: int) -> int {
    find_row(lives, inbox[i]->0.row_key())->0
}

} // verus!
