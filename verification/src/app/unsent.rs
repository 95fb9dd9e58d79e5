//! Nothing is left of a request that could not be sent.
use vstd::prelude::*;

use super::bodies::{body_begun, body_ended};
use super::calls::Call;
use super::error::Error;
use super::identity::IdentityError;
use super::inbox::OutgoingObserve;
use super::laws::law_request_options_read_back;
use super::outbound::{no_options, request_options, requested, RequestOptsView};
use super::owned::{
    lemma_fresh_token, lemma_owned_fits, lemma_row_out, lemma_wish_asked, only_asked, owned,
};
use super::path::texts_of;
use super::reactor::Core;
use super::upload::{
    block_uploaded, echo_octets, upload_cut, upload_message, upload_run, upload_step,
    upload_window, UploadView,
};
use super::wish::{
    abandoned, called, carries, concluded, place_refusal, placed, retired, sent_in_blocks,
    token_sought, upload_begun, upload_role, uploads, wish_sent, wished_upload, Wish,
};
use crate::error::{EncodeError, SlotMessageError};
use crate::message::fields::values_of;
use crate::message::option::OptView;
use crate::message::value::{block_size, uint_octets};
use crate::message::wire::{
    encode_fault, law_decode_encoded, options_fault, MessageView, MAX_OPTION_LEN,
};
use crate::message::{BlockValue, Type};
use crate::storage::endpoint::{BlockKeyView, Endpoint, SlotId};
use crate::storage::engine::{
    is_con, lemma_outstanding, outstanding, stage_verdict, Engine,
};
use crate::storage::io::DatagramIo;
use crate::storage::table::{find_row, lemma_find_row, lemma_free_row, unique_keys};

verus! {

/// Outgoing slots and what waits in them are as they were.
pub open spec fn tx_as_before(a: Engine, b: Engine) -> bool {
    b.store.tx.slots@ == a.store.tx.slots@ && b.pending@ == a.pending@
}

/// One more slot is taken, by a message with a token to a peer that was not
/// waited for.
pub open spec fn tx_taken(a: Engine, b: Engine, token: Seq<u8>, dest: Endpoint, at: int) -> bool {
    &&& 0 <= at < a.store.tx.slots@.len()
    &&& a.store.tx.slots@[at].is_none()
    &&& a.pending@[at].is_none()
    &&& outstanding(a.pending@, dest).is_none()
    &&& b.store.tx.slots@ == a.store.tx.slots@.update(at, b.store.tx.slots@[at])
    &&& carries(b.store.tx.slots@[at], token)
    &&& b.pending@ == a.pending@.update(at, b.pending@[at])
    &&& b.pending@[at] matches Some(p) && p.peer == dest
}

/// At most one more slot is taken; see [`tx_taken`].
#[verifier::opaque]
pub open spec fn tx_held(a: Engine, b: Engine, token: Seq<u8>, dest: Endpoint) -> bool {
    tx_as_before(a, b) || exists|at: int| #[trigger] tx_taken(a, b, token, dest, at)
}

proof fn lemma_held_same(a: Engine, b: Engine, token: Seq<u8>, dest: Endpoint)
    requires
        tx_as_before(a, b),
    ensures
        tx_held(a, b, token, dest),
{
    reveal(tx_held);
}

proof fn lemma_held_on(a: Engine, b: Engine, c: Engine, token: Seq<u8>, dest: Endpoint)
    requires
        tx_held(a, b, token, dest),
        tx_as_before(b, c),
    ensures
        tx_held(a, c, token, dest),
{
    reveal(tx_held);
    if !tx_as_before(a, b) {
        let at = choose|at: int| #[trigger] tx_taken(a, b, token, dest, at);
        assert(tx_taken(a, c, token, dest, at));
    }
}

/// A request that is sent takes a slot at most once.
proof fn lemma_requested_held<T: DatagramIo>(
    a: Engine,
    b: Core<T>,
    c: Core<T>,
    m: MessageView,
    dest: Endpoint,
    forget: bool,
    now_ms: u64,
    r: Result<(), Error<T::Error>>,
)
    requires
        a.pending@.len() == a.store.tx.slots@.len(),
        tx_held(a, b.engine, m.token, dest),
        requested(b, c, m, dest, forget, now_ms, r),
        m.token.len() <= 8,
        m.code.canonical(),
    ensures
        tx_held(a, c.engine, m.token, dest),
        r.is_err() ==> tx_as_before(b.engine, c.engine),
{
    if tx_as_before(b.engine, c.engine) {
        lemma_held_on(a, b.engine, c.engine, m.token, dest);
    } else {
        reveal(tx_held);
        law_decode_encoded(m);
        let at = stage_verdict(b.engine, m)->Ok_0;
        lemma_outstanding(b.engine.pending@, dest);
        lemma_outstanding(a.pending@, dest);
        if tx_as_before(a, b.engine) {
            assert(tx_taken(a, c.engine, m.token, dest, at));
        } else {
            let k = choose|k: int| #[trigger] tx_taken(a, b.engine, m.token, dest, k);
            assert(b.engine.pending@[k]->0.peer == dest);
        }
    }
}

proof fn lemma_step_held<T: DatagramIo>(
    a: Engine,
    b: Core<T>,
    c: Core<T>,
    u: UploadView,
    slot: crate::storage::transfer::BodySlot,
    place: int,
    now_ms: u64,
    r: Result<(), Error<T::Error>>,
)
    requires
        a.pending@.len() == a.store.tx.slots@.len(),
        tx_held(a, b.engine, u.token, u.dest),
        upload_step(b, c, u, slot, place, now_ms, r),
        u.token.len() <= 8,
        u.code.canonical(),
    ensures
        tx_held(a, c.engine, u.token, u.dest),
{
    let m = upload_message(
        u,
        super::upload::upload_type(u, place),
        b.ids.next_mid,
        slot.transfer.key.identity@,
        slot.bytes@,
        (slot.transfer.next_num + place) as u32,
        slot.transfer.szx,
        true,
    );
    if c.engine != b.engine {
        let d = choose|d: Core<T>|
            super::outbound::identified(b, d, now_ms) && #[trigger] requested(
                d,
                c,
                m,
                u.dest,
                true,
                now_ms,
                r,
            );
        lemma_requested_held(a, d, c, m, u.dest, true, now_ms, r);
    }
}

proof fn lemma_run_held<T: DatagramIo>(
    a: Core<T>,
    b: Core<T>,
    u: UploadView,
    id: SlotId,
    take_first: bool,
    now_ms: u64,
    upto: nat,
)
    requires
        a.engine.pending@.len() == a.engine.store.tx.slots@.len(),
        upload_run(a, b, u, id, take_first, now_ms, upto),
        u.token.len() <= 8,
        u.code.canonical(),
    ensures
        tx_held(a.engine, b.engine, u.token, u.dest),
    decreases upto,
{
    lemma_held_same(a.engine, a.engine, u.token, u.dest);
    if upto > 0 {
        let slot = a.engine.store.bodies->0.tx.slots@[id.at as int]->0;
        let (c, d, ok) = choose|c: Core<T>, d: Core<T>, ok: Result<(), Error<T::Error>>|
            {
                &&& #[trigger] upload_cut(c, d, u, id, take_first, upto - 1)
                &&& #[trigger] upload_step(d, b, u, slot, upto - 1, now_ms, ok)
                &&& ok.is_ok()
                &&& upload_run::<T>(a, c, u, id, take_first, now_ms, (upto - 1) as nat)
            };
        lemma_run_held(a, c, u, id, take_first, now_ms, (upto - 1) as nat);
        lemma_held_on(a.engine, c.engine, d.engine, u.token, u.dest);
        lemma_step_held(a.engine, d, b, u, slot, upto - 1, now_ms, ok);
    }
}

proof fn lemma_window_held<T: DatagramIo>(
    a: Core<T>,
    b: Core<T>,
    u: UploadView,
    id: SlotId,
    take_first: bool,
    now_ms: u64,
    r: Result<(), Error<T::Error>>,
)
    requires
        a.engine.pending@.len() == a.engine.store.tx.slots@.len(),
        upload_window(a, b, u, id, take_first, now_ms, r),
        u.token.len() <= 8,
        u.code.canonical(),
    ensures
        tx_held(a.engine, b.engine, u.token, u.dest),
{
    lemma_held_same(a.engine, a.engine, u.token, u.dest);
    let slot = a.engine.store.bodies->0.tx.slots@[id.at as int]->0;
    let t = slot.transfer;
    let count = crate::storage::transfer::block_count(
        slot.bytes@.len() as int,
        crate::message::value::block_size(t.szx as int),
    );
    let left = super::bodies::window_stop(t, count) - t.next_num;
    if b != a {
        if r.is_ok() {
            lemma_run_held(a, b, u, id, take_first, now_ms, left as nat);
        } else {
            let (c, d, n) = choose|c: Core<T>, d: Core<T>, n: nat|
                {
                    &&& n < left
                    &&& #[trigger] upload_run::<T>(a, c, u, id, take_first, now_ms, n)
                    &&& #[trigger] upload_cut(c, d, u, id, take_first, n as int)
                    &&& upload_step(d, b, u, slot, n as int, now_ms, r)
                };
            lemma_run_held(a, c, u, id, take_first, now_ms, n);
            lemma_held_on(a.engine, c.engine, d.engine, u.token, u.dest);
            lemma_step_held(a.engine, d, b, u, slot, n as int, now_ms, r);
        }
    }
}

proof fn lemma_block1_held<T: DatagramIo>(
    a: Core<T>,
    b: Core<T>,
    u: UploadView,
    id: SlotId,
    now_ms: u64,
    r: Result<(), Error<T::Error>>,
)
    requires
        a.engine.pending@.len() == a.engine.store.tx.slots@.len(),
        super::upload::block1_issued(a, b, u, id, now_ms, r),
        u.token.len() <= 8,
        u.code.canonical(),
    ensures
        tx_held(a.engine, b.engine, u.token, u.dest),
{
    lemma_held_same(a.engine, a.engine, u.token, u.dest);
    if b != a {
        let t = a.engine.tx_transfer(id)->0;
        let body = a.engine.tx_body(id);
        let c = choose|c: Core<T>|
            #[trigger] upload_cut(a, c, u, id, false, 0) && block_uploaded(
                c,
                b,
                u,
                u.ty,
                t.key.identity@,
                body,
                t.next_num,
                t.szx,
                false,
                now_ms,
                r,
            );
        lemma_held_on(a.engine, a.engine, c.engine, u.token, u.dest);
        let m = upload_message(
            u,
            u.ty,
            c.ids.next_mid,
            t.key.identity@,
            body,
            t.next_num,
            t.szx,
            false,
        );
        if b.engine != c.engine {
            let d = choose|d: Core<T>|
                super::outbound::identified(c, d, now_ms) && #[trigger] requested(
                    d,
                    b,
                    m,
                    u.dest,
                    true,
                    now_ms,
                    r,
                );
            lemma_requested_held(a.engine, d, b, m, u.dest, true, now_ms, r);
        }
    }
}

/// What a request that could not be sent leaves in slots and bodies before it is
/// abandoned.
proof fn lemma_wish_held<T: DatagramIo>(
    a: Core<T>,
    b: Core<T>,
    w: Wish<'_>,
    token: Seq<u8>,
    dest: Endpoint,
    now_ms: u64,
    r: Result<(), Error<T::Error>>,
)
    requires
        a.engine.pending@.len() == a.engine.store.tx.slots@.len(),
        wish_sent(a, b, w, token, dest, now_ms, r),
        r.is_err(),
        token.len() <= 8,
        w.code.canonical(),
    ensures
        tx_held(a.engine, b.engine, token, dest),
        bodies_as_before(a.engine, b.engine),
{
    lemma_held_same(a.engine, a.engine, token, dest);
    let m = w.message(token, a.ids.next_mid);
    let small = Err::<(), Error<T::Error>>(
        Error::Message(SlotMessageError::Encode(EncodeError::BufferTooSmall)),
    );
    if b.engine != a.engine {
        let (c, d, one) = choose|c: Core<T>, d: Core<T>, one: Result<(), Error<T::Error>>|
            {
                &&& super::outbound::identified(a, c, now_ms)
                &&& #[trigger] requested(c, d, m, dest, true, now_ms, one)
                &&& if one != small {
                    r == one && b == d
                } else if w.no_response.is_some() {
                    r == Err::<(), Error<T::Error>>(Error::NoResponseUploadUnsupported) && b == d
                } else if w.if_match.is_some() || w.if_none_match || w.etag.is_some() {
                    r == Err::<(), Error<T::Error>>(Error::ConditionalUploadUnsupported) && b == d
                } else {
                    sent_in_blocks(d, b, w, token, dest, now_ms, r)
                }
            };
        lemma_requested_held(a.engine, c, d, m, dest, true, now_ms, one);
        if b != d {
            lemma_blocks_held(d, b, w, token, dest, now_ms, r);
            lemma_held_from(a.engine, d.engine, b.engine, token, dest);
        }
    }
}

proof fn lemma_blocks_held<T: DatagramIo>(
    d: Core<T>,
    b: Core<T>,
    w: Wish<'_>,
    token: Seq<u8>,
    dest: Endpoint,
    now_ms: u64,
    r: Result<(), Error<T::Error>>,
)
    requires
        d.engine.pending@.len() == d.engine.store.tx.slots@.len(),
        sent_in_blocks(d, b, w, token, dest, now_ms, r),
        r.is_err(),
        token.len() <= 8,
        w.code.canonical(),
    ensures
        tx_held(d.engine, b.engine, token, dest),
        bodies_as_before(d.engine, b.engine),
{
    lemma_held_same(d.engine, d.engine, token, dest);
    if b != d {
        let u = wished_upload(w, token, dest);
        let p = d.engine.store.bodies->0;
        crate::storage::table::lemma_free_row(p.tx.slots@);
        let (e, f, id) = choose|e: Core<T>, f: Core<T>, id: SlotId|
            {
                &&& #[trigger] body_begun(
                    d,
                    e,
                    id,
                    upload_role(w.q_block1),
                    BlockKeyView {
                        token,
                        peer: dest,
                        identity: w.request_tag@,
                    },
                    w.payload@,
                    6,
                )
                &&& #[trigger] upload_begun(e, f, u, w.q_block1, id, now_ms, r)
                &&& if r.is_err() {
                    body_ended(f, b, id)
                } else {
                    b == f
                }
            };
        assert(e.engine.store.bodies.is_some() && id.at
            < e.engine.store.bodies->0.tx.slots@.len());
        assert(tx_as_before(d.engine, e.engine));
        assert(tx_as_before(f.engine, b.engine));
        if w.q_block1 {
            lemma_window_held(e, f, u, id, false, now_ms, r);
            lemma_window_bodies(e, f, u, id, false, now_ms, r);
        } else {
            lemma_block1_held(e, f, u, id, now_ms, r);
            lemma_block1_bodies(e, f, u, id, now_ms, r);
        }
        lemma_held_from(d.engine, e.engine, f.engine, token, dest);
        lemma_held_on(d.engine, f.engine, b.engine, token, dest);
        assert(b.engine.store.bodies->0.tx.slots@ =~= p.tx.slots@);
    }
}

/// Outgoing bodies are as they were.
pub open spec fn bodies_as_before(a: Engine, b: Engine) -> bool {
    &&& b.store.bodies.is_some() == a.store.bodies.is_some()
    &&& a.store.bodies.is_some() ==> b.store.bodies->0.tx.slots@ == a.store.bodies->0.tx.slots@
}

/// Only one outgoing body got another state.
pub open spec fn one_body(a: Engine, b: Engine, id: SlotId) -> bool {
    &&& b.store.bodies.is_some() == a.store.bodies.is_some()
    &&& a.store.bodies.is_some() ==> b.store.bodies->0.tx.slots@
        == a.store.bodies->0.tx.slots@.update(
        id.at as int,
        b.store.bodies->0.tx.slots@[id.at as int],
    )
}

proof fn lemma_held_from(a: Engine, b: Engine, c: Engine, token: Seq<u8>, dest: Endpoint)
    requires
        tx_as_before(a, b),
        tx_held(b, c, token, dest),
    ensures
        tx_held(a, c, token, dest),
{
    reveal(tx_held);
    if !tx_as_before(b, c) {
        let at = choose|at: int| #[trigger] tx_taken(b, c, token, dest, at);
        assert(tx_taken(a, c, token, dest, at));
    }
}

proof fn lemma_run_bodies<T: DatagramIo>(
    a: Core<T>,
    b: Core<T>,
    u: UploadView,
    id: SlotId,
    take_first: bool,
    now_ms: u64,
    upto: nat,
)
    requires
        upload_run(a, b, u, id, take_first, now_ms, upto),
        a.engine.store.bodies matches Some(p) && id.at < p.tx.slots@.len(),
    ensures
        one_body(a.engine, b.engine, id),
    decreases upto,
{
    if upto == 0 {
        let slots = a.engine.store.bodies->0.tx.slots@;
        assert(slots =~= slots.update(id.at as int, slots[id.at as int]));
    } else {
        let slot = a.engine.store.bodies->0.tx.slots@[id.at as int]->0;
        let (c, d, ok) = choose|c: Core<T>, d: Core<T>, ok: Result<(), Error<T::Error>>|
            {
                &&& #[trigger] upload_cut(c, d, u, id, take_first, upto - 1)
                &&& #[trigger] upload_step(d, b, u, slot, upto - 1, now_ms, ok)
                &&& ok.is_ok()
                &&& upload_run::<T>(a, c, u, id, take_first, now_ms, (upto - 1) as nat)
            };
        lemma_run_bodies(a, c, u, id, take_first, now_ms, (upto - 1) as nat);
        assert(b.engine.store.bodies == d.engine.store.bodies);
        assert(b.engine.store.bodies->0.tx.slots@ =~= a.engine.store.bodies->0.tx.slots@.update(
            id.at as int,
            b.engine.store.bodies->0.tx.slots@[id.at as int],
        ));
    }
}

proof fn lemma_window_bodies<T: DatagramIo>(
    a: Core<T>,
    b: Core<T>,
    u: UploadView,
    id: SlotId,
    take_first: bool,
    now_ms: u64,
    r: Result<(), Error<T::Error>>,
)
    requires
        upload_window(a, b, u, id, take_first, now_ms, r),
        a.engine.store.bodies matches Some(p) && id.at < p.tx.slots@.len(),
    ensures
        one_body(a.engine, b.engine, id),
{
    let slot = a.engine.store.bodies->0.tx.slots@[id.at as int]->0;
    let t = slot.transfer;
    let count = crate::storage::transfer::block_count(
        slot.bytes@.len() as int,
        crate::message::value::block_size(t.szx as int),
    );
    let left = super::bodies::window_stop(t, count) - t.next_num;
    if b == a {
        let slots = a.engine.store.bodies->0.tx.slots@;
        assert(slots =~= slots.update(id.at as int, slots[id.at as int]));
    } else if r.is_ok() {
        lemma_run_bodies(a, b, u, id, take_first, now_ms, left as nat);
    } else {
        let (c, d, n) = choose|c: Core<T>, d: Core<T>, n: nat|
            {
                &&& n < left
                &&& #[trigger] upload_run::<T>(a, c, u, id, take_first, now_ms, n)
                &&& #[trigger] upload_cut(c, d, u, id, take_first, n as int)
                &&& upload_step(d, b, u, slot, n as int, now_ms, r)
            };
        lemma_run_bodies(a, c, u, id, take_first, now_ms, n);
        assert(b.engine.store.bodies == d.engine.store.bodies);
        assert(b.engine.store.bodies->0.tx.slots@ =~= a.engine.store.bodies->0.tx.slots@.update(
            id.at as int,
            b.engine.store.bodies->0.tx.slots@[id.at as int],
        ));
    }
}

proof fn lemma_block1_bodies<T: DatagramIo>(
    a: Core<T>,
    b: Core<T>,
    u: UploadView,
    id: SlotId,
    now_ms: u64,
    r: Result<(), Error<T::Error>>,
)
    requires
        super::upload::block1_issued(a, b, u, id, now_ms, r),
        a.engine.store.bodies matches Some(p) && id.at < p.tx.slots@.len(),
    ensures
        one_body(a.engine, b.engine, id),
{
    let slots = a.engine.store.bodies->0.tx.slots@;
    if b == a {
        assert(slots =~= slots.update(id.at as int, slots[id.at as int]));
    } else {
        let t = a.engine.tx_transfer(id)->0;
        let body = a.engine.tx_body(id);
        let c = choose|c: Core<T>|
            #[trigger] upload_cut(a, c, u, id, false, 0) && block_uploaded(
                c,
                b,
                u,
                u.ty,
                t.key.identity@,
                body,
                t.next_num,
                t.szx,
                false,
                now_ms,
                r,
            );
        assert(b.engine.store.bodies == c.engine.store.bodies);
        assert(b.engine.store.bodies->0.tx.slots@ =~= slots.update(
            id.at as int,
            b.engine.store.bodies->0.tx.slots@[id.at as int],
        ));
    }
}

/// Does nothing of an earlier call with the same token still go out: no body,
/// and no message that waits for its acknowledgement?
pub open spec fn nothing_leaves(e: Engine, call: Call) -> bool {
    &&& outstanding(e.pending@, call.peer) matches Some(at) ==> !carries(
        e.store.tx.slots@[at],
        call.token@,
    )
    &&& e.store.bodies matches Some(p) ==> forall|i: int|
        0 <= i < p.tx.slots@.len() ==> !uploads(#[trigger] p.tx.slots@[i], call)
}

/// Calls, requests, replies, outgoing slots and outgoing bodies are as they were.
pub open spec fn unsent<T>(a: Core<T>, b: Core<T>) -> bool {
    &&& b.lives == a.lives
    &&& b.inbox == a.inbox
    &&& b.engine.store.observe == a.engine.store.observe
    &&& b.engine.exchanges.rows@ == a.engine.exchanges.rows@
    &&& tx_as_before(a.engine, b.engine)
    &&& bodies_as_before(a.engine, b.engine)
}

proof fn lemma_abandoned_rows<T>(a: Core<T>, d: Core<T>, b: Core<T>, call: Call)
    requires
        only_asked(a, d, call.key()),
        abandoned(d, b, call),
        unique_keys(a.engine.exchanges.rows@),
        find_row(a.engine.exchanges.rows@, call.key()).is_none(),
    ensures
        b.engine.exchanges.rows@ == a.engine.exchanges.rows@,
{
    reveal(only_asked);
    let key = call.key();
    let rows = a.engine.exchanges.rows@;
    let then = d.engine.exchanges.rows@;
    let last = b.engine.exchanges.rows@;
    lemma_row_out(then, key);
    lemma_find_row(rows, key);
    lemma_find_row(last, key);
    assert forall|i: int| 0 <= i < rows.len() implies #[trigger] last[i] == rows[i] by {
        assert(super::owned::kept_row(rows[i], key) ==> then[i] == rows[i]);
        assert(super::owned::kept_row(then[i], key) ==> rows[i] == then[i]);
        assert(super::owned::kept_row(then[i], key) ==> last[i] == then[i]);
        assert(super::owned::kept_row(last[i], key) ==> then[i] == last[i]);
    }
    assert(last =~= rows);
}

proof fn lemma_abandoned_tx<T>(a: Core<T>, d: Core<T>, b: Core<T>, call: Call)
    requires
        a.engine.pending@.len() == a.engine.store.tx.slots@.len(),
        tx_held(a.engine, d.engine, call.token@, call.peer),
        abandoned(d, b, call),
        nothing_leaves(a.engine, call),
    ensures
        tx_as_before(a.engine, b.engine),
{
    reveal(tx_held);
    let pending = d.engine.pending@;
    lemma_outstanding(a.engine.pending@, call.peer);
    lemma_outstanding(pending, call.peer);
    if !tx_as_before(a.engine, d.engine) {
        let at = choose|at: int| #[trigger]
            tx_taken(a.engine, d.engine, call.token@, call.peer, at);
        assert(pending[at]->0.peer == call.peer);
        assert(outstanding(pending, call.peer).is_some());
        let k = outstanding(pending, call.peer)->0;
        if k != at {
            assert(pending[k] == a.engine.pending@[k]);
        }
        let mid = pending[at]->0.mid;
        assert forall|i: int| 0 <= i < pending.len() && i != at implies !is_con(
            #[trigger] pending[i],
            mid,
            call.peer,
        ) by {
            assert(pending[i] == a.engine.pending@[i]);
        }
        assert(b.engine.pending@ =~= a.engine.pending@);
        assert(b.engine.store.tx.slots@ =~= a.engine.store.tx.slots@);
    }
}

proof fn lemma_placed_unsent<T: DatagramIo>(
    a: Core<T>,
    b: Core<T>,
    w: Wish<'_>,
    call: Call,
    now_ms: u64,
    r: Result<Call, Error<T::Error>>,
)
    requires
        owned(a),
        a.engine.pending@.len() == a.engine.store.tx.slots@.len(),
        placed(a, b, w, call, now_ms, r),
        r.is_err(),
        w.observe != OutgoingObserve::Deregister,
        w.code.canonical(),
        find_row(a.lives.rows.rows@, call.key()).is_none(),
        nothing_leaves(a.engine, call),
    ensures
        unsent(a, b),
{
    broadcast use crate::message::Token::at_most_eight;

    let key = call.key();
    lemma_owned_fits(a, key);
    if place_refusal::<T>(a, w, call).is_none() {
        let (d, sent) = choose|d: Core<T>, sent: Result<(), Error<T::Error>>|
            {
                &&& #[trigger] wish_sent(a, d, w, call.token@, call.peer, now_ms, sent)
                &&& #[trigger] concluded(d, b, w, call, now_ms, sent, r)
            };
        assert(abandoned(d, b, call));
        lemma_wish_asked(a, d, w, call.token@, call.peer, now_ms, sent);
        lemma_wish_held(a, d, w, call.token@, call.peer, now_ms, sent);
        super::owned::lemma_asked_step(a, d, key);
        lemma_abandoned_rows(a, d, b, call);
        lemma_abandoned_tx(a, d, b, call);
        if let Some(p) = a.engine.store.bodies {
            assert(b.engine.store.bodies->0.tx.slots@ =~= p.tx.slots@);
        }
    }
}

/// Was this the call that was made for a request: the one with the token that
/// was found for it?
pub open spec fn call_tried<T: DatagramIo>(
    a: Core<T>,
    b: Core<T>,
    w: Wish<'_>,
    call: Call,
    now_ms: u64,
    r: Result<Call, Error<T::Error>>,
) -> bool {
    exists|c: Core<T>| #[trigger]
        token_sought(a, c, Ok::<Seq<u8>, IdentityError>(call.token@)) && placed(
            c,
            b,
            w,
            call,
            now_ms,
            r,
        )
}

/// A request that could not be sent leaves nothing: the calls under way, the
/// requests and replies that wait, the outgoing slots and the outgoing bodies
/// are as they were. Where its token is one with which something still goes out
/// to that peer, that is given up instead.
pub proof fn law_failed_send_leaves_nothing<T: DatagramIo>(
    a: Core<T>,
    b: Core<T>,
    w: Wish<'_>,
    dest: Endpoint,
    now_ms: u64,
    e: Error<T::Error>,
)
    requires
        a.wf(),
        owned(a),
        w.observe != OutgoingObserve::Deregister,
        w.code.canonical(),
        called(a, b, w, dest, now_ms, Err::<Call, Error<T::Error>>(e)),
        forall|call: Call|
            call.peer == dest && #[trigger] call_tried(
                a,
                b,
                w,
                call,
                now_ms,
                Err::<Call, Error<T::Error>>(e),
            ) ==> nothing_leaves(a.engine, call),
    ensures
        unsent(a, b),
{
    let r = Err::<Call, Error<T::Error>>(e);
    let rows = a.lives.rows.rows@;
    if w.refusal::<T::Error>(now_ms).is_none() {
        let (c, t) = choose|c: Core<T>, t: Result<Seq<u8>, IdentityError>|
            {
                &&& #[trigger] token_sought(a, c, t)
                &&& match t {
                    Err(e) => r == Err::<Call, Error<T::Error>>(Error::Identity(e)) && b == c,
                    Ok(token) => exists|call: Call|
                        call.peer == dest && call.token@ == token && #[trigger] placed(
                            c,
                            b,
                            w,
                            call,
                            now_ms,
                            r,
                        ),
                }
            };
        super::owned::lemma_same_owned(a, c);
        if let Ok(token) = t {
            let call = choose|call: Call|
                call.peer == dest && call.token@ == token && #[trigger] placed(
                    c,
                    b,
                    w,
                    call,
                    now_ms,
                    r,
                );
            lemma_fresh_token(rows, call);
            assert(call_tried(a, b, w, call, now_ms, r));
            lemma_placed_unsent(c, b, w, call, now_ms, r);
        }
    }
}

/// Are all these option values short enough for the wire?
pub open spec fn all_short(values: Seq<Seq<u8>>) -> bool {
    forall|i: int| 0 <= i < values.len() ==> (#[trigger] values[i]).len() <= MAX_OPTION_LEN
}

proof fn lemma_faultless(opts: Seq<OptView>, prev: int)
    requires
        options_fault(opts, prev).is_none(),
    ensures
        forall|i: int|
            0 <= i < opts.len() ==> (#[trigger] opts[i]).value.len() <= MAX_OPTION_LEN,
    decreases opts.len(),
{
    if opts.len() > 0 {
        lemma_faultless(opts.skip(1), opts[0].number as int);
        assert forall|i: int| 0 <= i < opts.len() implies (#[trigger] opts[i]).value.len()
            <= MAX_OPTION_LEN by {
            if i > 0 {
                assert(opts[i] == opts.skip(1)[i - 1]);
            }
        }
    }
}

proof fn lemma_short_values(opts: Seq<OptView>, number: u16)
    requires
        forall|i: int|
            0 <= i < opts.len() ==> (#[trigger] opts[i]).value.len() <= MAX_OPTION_LEN,
    ensures
        all_short(values_of(opts, number)),
    decreases opts.len(),
{
    if opts.len() > 0 {
        let front = opts.drop_last();
        assert forall|i: int| 0 <= i < front.len() implies (#[trigger] front[i]).value.len()
            <= MAX_OPTION_LEN by {
            assert(front[i] == opts[i]);
        }
        lemma_short_values(front, number);
    }
}

proof fn lemma_value_listed(opts: Seq<OptView>, at: int)
    requires
        0 <= at < opts.len(),
    ensures
        values_of(opts, opts[at].number).contains(opts[at].value),
    decreases opts.len(),
{
    let front = values_of(opts.drop_last(), opts[at].number);
    if at == opts.len() - 1 {
        assert(front.push(opts[at].value)[front.len() as int] == opts[at].value);
    } else {
        lemma_value_listed(opts.drop_last(), at);
        let i = front.index_of(opts[at].value);
        assert(front.push(opts.last().value)[i] == opts[at].value);
    }
}

proof fn lemma_never_too_long(opts: Seq<OptView>, prev: int)
    requires
        forall|i: int|
            0 <= i < opts.len() ==> (#[trigger] opts[i]).value.len() <= MAX_OPTION_LEN,
    ensures
        options_fault(opts, prev) != Some(EncodeError::OptionValueTooLong),
    decreases opts.len(),
{
    if opts.len() > 0 {
        let rest = opts.skip(1);
        assert forall|i: int| 0 <= i < rest.len() implies (#[trigger] rest[i]).value.len()
            <= MAX_OPTION_LEN by {
            assert(rest[i] == opts[i + 1]);
        }
        assert(opts[0].value.len() <= MAX_OPTION_LEN);
        lemma_never_too_long(rest, opts[0].number as int);
    }
}

proof fn lemma_number_short(n: nat)
    requires
        n < 0x10000000000,
    ensures
        uint_octets(n).len() <= MAX_OPTION_LEN,
{
    reveal_with_fuel(uint_octets, 6);
}

/// No block of a request has an option that is too long, if the request in one
/// message has none.
proof fn lemma_block_not_too_long(
    w: Wish<'_>,
    token: Seq<u8>,
    mid: u16,
    dest: Endpoint,
    ty: Type,
    id: u16,
    body: Seq<u8>,
    num: u32,
    szx: u8,
    q_block: bool,
)
    requires
        encode_fault(w.message(token, mid)).is_none(),
    ensures
        encode_fault(
            upload_message(
                wished_upload(w, token, dest),
                ty,
                id,
                w.request_tag@,
                body,
                num,
                szx,
                q_block,
            ),
        ) != Some(EncodeError::OptionValueTooLong),
{
    let whole = request_options(w.options());
    let size = block_size(szx as int);
    let block = BlockValue { num, more: (num + 1) * size < body.len(), szx };
    let o = RequestOptsView {
        path: texts_of(w.path->Ok_0@),
        format: w.content_format,
        queries: texts_of(w.queries@),
        accept: w.accept,
        block1: if q_block {
            None
        } else {
            Some(block)
        },
        q_block1: if q_block {
            Some(block)
        } else {
            None
        },
        size1: Some(body.len() as u32),
        echo: echo_octets(w.echo),
        tag: w.request_tag@,
        ..no_options()
    };
    let opts = request_options(o);
    lemma_faultless(whole, 0);
    lemma_number_short(block.packed());
    lemma_number_short((body.len() as u32) as nat);
    assert forall|i: int| 0 <= i < opts.len() implies (#[trigger] opts[i]).value.len()
        <= MAX_OPTION_LEN by {
        let number = opts[i].number;
        lemma_value_listed(opts, i);
        law_request_options_read_back(o, number);
        law_request_options_read_back(w.options(), number);
        lemma_short_values(whole, number);
        let at = values_of(opts, number).index_of(opts[i].value);
        assert(values_of(opts, number)[at] == opts[i].value);
        if number != 27 && number != 19 && number != 60 {
            assert(values_of(opts, number).len() > 0);
            assert(values_of(whole, number) =~= values_of(opts, number));
            assert(values_of(whole, number)[at] == opts[i].value);
        }
    }
    lemma_never_too_long(opts, 0);
    assert(upload_message(
        wished_upload(w, token, dest),
        ty,
        id,
        w.request_tag@,
        body,
        num,
        szx,
        q_block,
    ).options == opts);
}

proof fn lemma_no_room_fault(opts: Seq<OptView>, prev: int)
    ensures
        options_fault(opts, prev) != Some(EncodeError::BufferTooSmall),
    decreases opts.len(),
{
    if opts.len() > 0 {
        lemma_no_room_fault(opts.skip(1), opts[0].number as int);
    }
}

/// Is this the refusal of a request, and not a failure to send one?
pub open spec fn refuses_request<E>(e: Error<E>) -> bool {
    match e {
        Error::DeadlineElapsed => true,
        Error::Path => true,
        Error::ConditionalUploadUnsupported => true,
        Error::NoResponseUploadUnsupported => true,
        Error::NoResponseObserveUnsupported => true,
        Error::ObserveCancellationMismatch => true,
        Error::ObserveCancellationAmbiguous => true,
        Error::ObserveRequestTooLarge => true,
        Error::RequestTagRequired => true,
        Error::RequestTagInUse => true,
        Error::Message(SlotMessageError::Encode(EncodeError::OptionValueTooLong)) => true,
        _ => false,
    }
}

proof fn lemma_block_refuses_nothing<T: DatagramIo>(
    a: Core<T>,
    b: Core<T>,
    w: Wish<'_>,
    token: Seq<u8>,
    mid: u16,
    dest: Endpoint,
    ty: Type,
    body: Seq<u8>,
    num: u32,
    szx: u8,
    q_block: bool,
    now_ms: u64,
    e: Error<T::Error>,
)
    requires
        encode_fault(w.message(token, mid)).is_none(),
        block_uploaded(
            a,
            b,
            wished_upload(w, token, dest),
            ty,
            w.request_tag@,
            body,
            num,
            szx,
            q_block,
            now_ms,
            Err::<(), Error<T::Error>>(e),
        ),
    ensures
        !refuses_request(e),
{
    lemma_block_not_too_long(
        w,
        token,
        mid,
        dest,
        ty,
        a.ids.next_mid,
        body,
        num,
        szx,
        q_block,
    );
}

proof fn lemma_blocks_refuse_nothing<T: DatagramIo>(
    a: Core<T>,
    b: Core<T>,
    w: Wish<'_>,
    token: Seq<u8>,
    mid: u16,
    dest: Endpoint,
    now_ms: u64,
    e: Error<T::Error>,
)
    requires
        encode_fault(w.message(token, mid)).is_none(),
        sent_in_blocks(a, b, w, token, dest, now_ms, Err::<(), Error<T::Error>>(e)),
    ensures
        !refuses_request(e),
{
    let r = Err::<(), Error<T::Error>>(e);
    assert forall|
        c: Core<T>,
        d: Core<T>,
        ty: Type,
        body: Seq<u8>,
        num: u32,
        szx: u8,
        q_block: bool,
    | #[trigger]
        block_uploaded(
            c,
            d,
            wished_upload(w, token, dest),
            ty,
            w.request_tag@,
            body,
            num,
            szx,
            q_block,
            now_ms,
            r,
        ) implies !refuses_request(e) by {
        lemma_block_refuses_nothing(
            c,
            d,
            w,
            token,
            mid,
            dest,
            ty,
            body,
            num,
            szx,
            q_block,
            now_ms,
            e,
        );
    }
    if refuses_request(e) {
        let u = wished_upload(w, token, dest);
        let (c, d, id) = choose|c: Core<T>, d: Core<T>, id: SlotId|
            {
                &&& #[trigger] body_begun(
                    a,
                    c,
                    id,
                    upload_role(w.q_block1),
                    BlockKeyView { token, peer: dest, identity: w.request_tag@ },
                    w.payload@,
                    6,
                )
                &&& #[trigger] upload_begun(c, d, u, w.q_block1, id, now_ms, r)
                &&& body_ended(d, b, id)
            };
        let slot = c.engine.store.bodies->0.tx.slots@[id.at as int]->0;
        assert(slot.transfer.key.identity@ == w.request_tag@);
        if w.q_block1 {
            let (x, y, n) = choose|x: Core<T>, y: Core<T>, n: nat|
                {
                    &&& #[trigger] upload_run::<T>(c, x, u, id, false, now_ms, n)
                    &&& #[trigger] upload_cut(x, y, u, id, false, n as int)
                    &&& upload_step(y, d, u, slot, n as int, now_ms, r)
                };
            assert(upload_step(y, d, u, slot, n as int, now_ms, r));
        } else {
            lemma_free_row(a.engine.store.bodies->0.tx.slots@);
            assert(c.engine.tx_transfer(id)->0 == slot.transfer);
        }
    }
}

/// A request that is refused, for what it asks, for a query or option that is
/// too long, or for the calls under way, sends nothing.
pub proof fn law_refused_request_sends_nothing<T: DatagramIo>(
    a: Core<T>,
    b: Core<T>,
    w: Wish<'_>,
    dest: Endpoint,
    now_ms: u64,
    e: Error<T::Error>,
)
    requires
        called(a, b, w, dest, now_ms, Err::<Call, Error<T::Error>>(e)),
        refuses_request(e),
    ensures
        b.port == a.port,
{
    let r = Err::<Call, Error<T::Error>>(e);
    assert forall|c: Core<T>, call: Call| #[trigger] placed(c, b, w, call, now_ms, r) implies b.port
        == c.port by {
        if place_refusal::<T>(c, w, call).is_none() {
            let (c1, d, sent) = choose|c1: Core<T>, d: Core<T>, sent: Result<(), Error<T::Error>>|
                {
                    &&& if w.observe == OutgoingObserve::Deregister {
                        retired(c, c1, call)
                    } else {
                        c1 == c
                    }
                    &&& #[trigger] wish_sent(c1, d, w, call.token@, call.peer, now_ms, sent)
                    &&& #[trigger] concluded(d, b, w, call, now_ms, sent, r)
                };
            assert(sent == Err::<(), Error<T::Error>>(e));
            lemma_refused_unsent(c1, d, w, call.token@, call.peer, now_ms, e);
        }
    }
}

proof fn lemma_refused_unsent<T: DatagramIo>(
    a: Core<T>,
    b: Core<T>,
    w: Wish<'_>,
    token: Seq<u8>,
    dest: Endpoint,
    now_ms: u64,
    e: Error<T::Error>,
)
    requires
        wish_sent(a, b, w, token, dest, now_ms, Err::<(), Error<T::Error>>(e)),
        refuses_request(e),
    ensures
        b.port == a.port,
{
    let m = w.message(token, a.ids.next_mid);
    let small = Err::<(), Error<T::Error>>(
        Error::Message(SlotMessageError::Encode(EncodeError::BufferTooSmall)),
    );
    lemma_no_room_fault(m.options, 0);
    assert forall|c: Core<T>, x: Core<T>| #[trigger]
        requested(c, x, m, dest, true, now_ms, small) implies encode_fault(m).is_none() by {}
    assert forall|x: Core<T>|
        encode_fault(m).is_none() && #[trigger] sent_in_blocks(
            x,
            b,
            w,
            token,
            dest,
            now_ms,
            Err::<(), Error<T::Error>>(e),
        ) implies false by {
        lemma_blocks_refuse_nothing(x, b, w, token, a.ids.next_mid, dest, now_ms, e);
    }
}

} // verus!
