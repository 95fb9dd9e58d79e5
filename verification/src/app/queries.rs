//! Every message of a request carries all its queries.
use vstd::prelude::*;

use super::bodies::{body_begun, body_ended, window_stop};
use super::calls::{queries_fit, Call};
use super::error::Error;
use super::inbox::OutgoingObserve;
use super::laws::law_request_options_read_back;
use super::outbound::{identified, no_options, requested, RequestOptsView};
use super::path::texts_of;
use super::reactor::Core;
use super::upload::{
    block1_issued, block_uploaded, upload_continued, upload_cut, upload_message, upload_of,
    upload_run, upload_step, upload_type, upload_window, UploadView,
};
use super::wish::{
    called, concluded, place_refusal, placed, retired, sent_in_blocks, upload_begun, upload_role,
    wish_sent, wished_upload, Wish,
};
use crate::error::{EncodeError, SlotMessageError};
use crate::message::fields::values_of;
use crate::message::value::block_size;
use crate::message::wire::{law_decode_encoded, read_message, MessageView};
use crate::message::{BlockValue, Type};
use crate::storage::endpoint::{BlockKeyView, Endpoint, SlotId};
use crate::storage::io::{Attempt, DatagramIo};
use crate::storage::table::{lemma_find_row, lemma_find_row_is, lemma_free_row, place_row};
use crate::storage::transfer::{block_count, BodySlot};

verus! {

/// Is this an attempt to send a message with these queries, in this order?
pub open spec fn asks(t: Attempt, dest: Endpoint, queries: Seq<Seq<u8>>) -> bool {
    &&& t.dest == dest
    &&& read_message(t.bytes) matches Ok(m) && values_of(m.options, 15) == queries
}

/// The record of sends grows by messages with these queries alone.
#[verifier::opaque]
pub open spec fn asked_with(
    log: Seq<Attempt>,
    then: Seq<Attempt>,
    dest: Endpoint,
    queries: Seq<Seq<u8>>,
) -> bool {
    &&& log.len() <= then.len()
    &&& then.subrange(0, log.len() as int) == log
    &&& forall|i: int| log.len() <= i < then.len() ==> asks(#[trigger] then[i], dest, queries)
}

proof fn lemma_asked_trans(
    a: Seq<Attempt>,
    b: Seq<Attempt>,
    c: Seq<Attempt>,
    dest: Endpoint,
    queries: Seq<Seq<u8>>,
)
    requires
        asked_with(a, b, dest, queries),
        asked_with(b, c, dest, queries),
    ensures
        asked_with(a, c, dest, queries),
        a.len() <= b.len() <= c.len(),
{
    reveal(asked_with);
    assert(c.subrange(0, a.len() as int) =~= b.subrange(0, a.len() as int));
    assert forall|i: int| a.len() <= i < c.len() implies asks(#[trigger] c[i], dest, queries) by {
        if i < b.len() {
            assert(c.subrange(0, b.len() as int)[i] == b[i]);
        }
    }
}

proof fn lemma_asked_nothing(a: Seq<Attempt>, dest: Endpoint, queries: Seq<Seq<u8>>)
    ensures
        asked_with(a, a, dest, queries),
{
    reveal(asked_with);
    assert(a.subrange(0, a.len() as int) =~= a);
}

proof fn lemma_requested_asks<T: DatagramIo>(
    a: Core<T>,
    b: Core<T>,
    m: MessageView,
    dest: Endpoint,
    now_ms: u64,
    r: Result<(), Error<T::Error>>,
)
    requires
        requested(a, b, m, dest, true, now_ms, r),
        m.token.len() <= 8,
        m.code.canonical(),
    ensures
        asked_with(a.port.log@, b.port.log@, dest, values_of(m.options, 15)),
        r.is_ok() ==> a.port.log@.len() < b.port.log@.len(),
{
    lemma_asked_nothing(a.port.log@, dest, values_of(m.options, 15));
    if b.port.log@ != a.port.log@ {
        law_decode_encoded(m);
        reveal(asked_with);
        assert(b.port.log@.subrange(0, a.port.log@.len() as int) =~= a.port.log@);
    }
}

proof fn lemma_block_asks<T: DatagramIo>(
    a: Core<T>,
    b: Core<T>,
    u: UploadView,
    ty: Type,
    tag: Option<Seq<u8>>,
    body: Seq<u8>,
    num: u32,
    szx: u8,
    q_block: bool,
    now_ms: u64,
    r: Result<(), Error<T::Error>>,
)
    requires
        block_uploaded(a, b, u, ty, tag, body, num, szx, q_block, now_ms, r),
        u.token.len() <= 8,
        u.code.canonical(),
    ensures
        asked_with(a.port.log@, b.port.log@, u.dest, u.queries),
        r.is_ok() ==> a.port.log@.len() < b.port.log@.len(),
{
    let m = upload_message(u, ty, a.ids.next_mid, tag, body, num, szx, q_block);
    lemma_asked_nothing(a.port.log@, u.dest, u.queries);
    lemma_block_queries(u, ty, a.ids.next_mid, tag, body, num, szx, q_block);
    assert forall|c: Core<T>|
        identified(a, c, now_ms) && #[trigger] requested(
            c,
            b,
            m,
            u.dest,
            true,
            now_ms,
            r,
        ) implies asked_with(a.port.log@, b.port.log@, u.dest, u.queries) && (r.is_ok()
        ==> a.port.log@.len() < b.port.log@.len()) by {
        lemma_requested_asks(c, b, m, u.dest, now_ms, r);
    }
}

proof fn lemma_block_queries(
    u: UploadView,
    ty: Type,
    mid: u16,
    tag: Option<Seq<u8>>,
    body: Seq<u8>,
    num: u32,
    szx: u8,
    q_block: bool,
)
    ensures
        values_of(upload_message(u, ty, mid, tag, body, num, szx, q_block).options, 15)
            == u.queries,
{
    let size = block_size(szx as int);
    let block = BlockValue { num, more: (num + 1) * size < body.len(), szx };
    law_request_options_read_back(
        RequestOptsView {
            path: u.path,
            format: u.format,
            queries: u.queries,
            accept: u.accept,
            block1: if q_block {
                None
            } else {
                Some(block)
            },
            q_block1: if q_block {
                Some(block)
            } else {
                None
            },
            size1: Some(body.len() as u32),
            echo: u.echo,
            tag,
            ..no_options()
        },
        15,
    );
}

proof fn lemma_run_asks<T: DatagramIo>(
    a: Core<T>,
    b: Core<T>,
    u: UploadView,
    id: SlotId,
    take_first: bool,
    now_ms: u64,
    upto: nat,
)
    requires
        upload_run::<T>(a, b, u, id, take_first, now_ms, upto),
        u.token.len() <= 8,
        u.code.canonical(),
    ensures
        asked_with(a.port.log@, b.port.log@, u.dest, u.queries),
        upto > 0 ==> a.port.log@.len() < b.port.log@.len(),
    decreases upto,
{
    lemma_asked_nothing(a.port.log@, u.dest, u.queries);
    if upto > 0 {
        let slot = a.engine.store.bodies->0.tx.slots@[id.at as int]->0;
        let (c, d, ok) = choose|c: Core<T>, d: Core<T>, ok: Result<(), Error<T::Error>>|
            {
                &&& #[trigger] upload_cut(c, d, u, id, take_first, upto - 1)
                &&& #[trigger] upload_step(d, b, u, slot, upto - 1, now_ms, ok)
                &&& ok.is_ok()
                &&& upload_run::<T>(a, c, u, id, take_first, now_ms, (upto - 1) as nat)
            };
        lemma_run_asks(a, c, u, id, take_first, now_ms, (upto - 1) as nat);
        lemma_step_asks(d, b, u, slot, upto - 1, now_ms, ok);
        lemma_asked_trans(a.port.log@, c.port.log@, b.port.log@, u.dest, u.queries);
    }
}

proof fn lemma_step_asks<T: DatagramIo>(
    a: Core<T>,
    b: Core<T>,
    u: UploadView,
    slot: BodySlot,
    place: int,
    now_ms: u64,
    r: Result<(), Error<T::Error>>,
)
    requires
        upload_step(a, b, u, slot, place, now_ms, r),
        u.token.len() <= 8,
        u.code.canonical(),
    ensures
        asked_with(a.port.log@, b.port.log@, u.dest, u.queries),
        r.is_ok() ==> a.port.log@.len() < b.port.log@.len(),
{
    lemma_block_asks(
        a,
        b,
        u,
        upload_type(u, place),
        slot.transfer.key.identity@,
        slot.bytes@,
        (slot.transfer.next_num + place) as u32,
        slot.transfer.szx,
        true,
        now_ms,
        r,
    );
}

proof fn lemma_window_asks<T: DatagramIo>(
    a: Core<T>,
    b: Core<T>,
    u: UploadView,
    id: SlotId,
    take_first: bool,
    now_ms: u64,
    r: Result<(), Error<T::Error>>,
)
    requires
        upload_window(a, b, u, id, take_first, now_ms, r),
        u.token.len() <= 8,
        u.code.canonical(),
    ensures
        asked_with(a.port.log@, b.port.log@, u.dest, u.queries),
        r.is_ok() && a.engine.store.bodies->0.tx.slots@[id.at as int]->0.transfer.next_num < 10
            ==> a.port.log@.len() < b.port.log@.len(),
{
    let slot = a.engine.store.bodies->0.tx.slots@[id.at as int]->0;
    let t = slot.transfer;
    let count = block_count(
        slot.bytes@.len() as int,
        block_size(t.szx as int),
    );
    let left = window_stop(t, count) - t.next_num;
    lemma_asked_nothing(a.port.log@, u.dest, u.queries);
    if !t.complete && t.next_num < t.window_base + 10 && t.next_num < count {
        if r.is_ok() {
            lemma_run_asks(a, b, u, id, take_first, now_ms, left as nat);
        } else {
            let (c, d, n) = choose|c: Core<T>, d: Core<T>, n: nat|
                {
                    &&& n < left
                    &&& #[trigger] upload_run::<T>(a, c, u, id, take_first, now_ms, n)
                    &&& #[trigger] upload_cut(c, d, u, id, take_first, n as int)
                    &&& upload_step(d, b, u, slot, n as int, now_ms, r)
                };
            lemma_run_asks(a, c, u, id, take_first, now_ms, n);
            lemma_step_asks(d, b, u, slot, n as int, now_ms, r);
            lemma_asked_trans(a.port.log@, c.port.log@, b.port.log@, u.dest, u.queries);
        }
    }
}

proof fn lemma_issued_asks<T: DatagramIo>(
    a: Core<T>,
    b: Core<T>,
    u: UploadView,
    id: SlotId,
    now_ms: u64,
    r: Result<(), Error<T::Error>>,
)
    requires
        block1_issued(a, b, u, id, now_ms, r),
        u.token.len() <= 8,
        u.code.canonical(),
    ensures
        asked_with(a.port.log@, b.port.log@, u.dest, u.queries),
        r.is_ok() ==> a.port.log@.len() < b.port.log@.len(),
{
    let t = a.engine.tx_transfer(id)->0;
    let body = a.engine.tx_body(id);
    lemma_asked_nothing(a.port.log@, u.dest, u.queries);
    assert forall|c: Core<T>|
        #[trigger] upload_cut(a, c, u, id, false, 0) && block_uploaded(
            c,
            b,
            u,
            u.ty,
            t.key.identity@,
            body,
            t.next_num,
            t.szx,
            false,
            now_ms,
            r,
        ) implies asked_with(a.port.log@, b.port.log@, u.dest, u.queries) && (r.is_ok()
        ==> a.port.log@.len() < b.port.log@.len()) by {
        lemma_block_asks(
            c,
            b,
            u,
            u.ty,
            t.key.identity@,
            body,
            t.next_num,
            t.szx,
            false,
            now_ms,
            r,
        );
    }
}

proof fn lemma_blocks_ask<T: DatagramIo>(
    a: Core<T>,
    b: Core<T>,
    w: Wish<'_>,
    token: Seq<u8>,
    dest: Endpoint,
    now_ms: u64,
    r: Result<(), Error<T::Error>>,
)
    requires
        sent_in_blocks(a, b, w, token, dest, now_ms, r),
        token.len() <= 8,
        w.code.canonical(),
    ensures
        asked_with(a.port.log@, b.port.log@, dest, texts_of(w.queries@)),
        r.is_ok() ==> a.port.log@.len() < b.port.log@.len(),
{
    let u = wished_upload(w, token, dest);
    lemma_asked_nothing(a.port.log@, dest, u.queries);
    if b != a || r.is_ok() {
        let (c, d, id) = choose|c: Core<T>, d: Core<T>, id: SlotId|
            {
                &&& #[trigger] body_begun(
                    a,
                    c,
                    id,
                    upload_role(w.q_block1),
                    BlockKeyView {
                        token,
                        peer: dest,
                        identity: w.request_tag@,
                    },
                    w.payload@,
                    6,
                )
                &&& #[trigger] upload_begun(c, d, u, w.q_block1, id, now_ms, r)
                &&& if r.is_err() {
                    body_ended(d, b, id)
                } else {
                    b == d
                }
            };
        if w.q_block1 {
            lemma_window_asks(c, d, u, id, false, now_ms, r);
        } else {
            lemma_issued_asks(c, d, u, id, now_ms, r);
        }
    }
}

proof fn lemma_wish_asks<T: DatagramIo>(
    a: Core<T>,
    b: Core<T>,
    w: Wish<'_>,
    token: Seq<u8>,
    dest: Endpoint,
    now_ms: u64,
    r: Result<(), Error<T::Error>>,
)
    requires
        wish_sent(a, b, w, token, dest, now_ms, r),
        token.len() <= 8,
        w.code.canonical(),
    ensures
        asked_with(a.port.log@, b.port.log@, dest, texts_of(w.queries@)),
        r.is_ok() ==> a.port.log@.len() < b.port.log@.len(),
{
    let m = w.message(token, a.ids.next_mid);
    let queries = texts_of(w.queries@);
    law_request_options_read_back(w.options(), 15);
    lemma_asked_nothing(a.port.log@, dest, queries);
    if b.port != a.port || r.is_ok() {
        let (c, d, one) = choose|c: Core<T>, d: Core<T>, one: Result<(), Error<T::Error>>|
            {
                &&& identified(a, c, now_ms)
                &&& #[trigger] requested(c, d, m, dest, true, now_ms, one)
                &&& if one != Err::<(), Error<T::Error>>(
                    Error::Message(
                        SlotMessageError::Encode(
                            EncodeError::BufferTooSmall,
                        ),
                    ),
                ) {
                    r == one && b == d
                } else if w.no_response.is_some() {
                    r == Err::<(), Error<T::Error>>(Error::NoResponseUploadUnsupported) && b == d
                } else if w.if_match.is_some() || w.if_none_match || w.etag.is_some() {
                    r == Err::<(), Error<T::Error>>(Error::ConditionalUploadUnsupported) && b == d
                } else {
                    sent_in_blocks(d, b, w, token, dest, now_ms, r)
                }
            };
        lemma_requested_asks(c, d, m, dest, now_ms, one);
        if b != d || r != one {
            lemma_blocks_ask(d, b, w, token, dest, now_ms, r);
            lemma_asked_trans(a.port.log@, d.port.log@, b.port.log@, dest, queries);
        }
    }
}

proof fn lemma_placed_asks<T: DatagramIo>(
    a: Core<T>,
    b: Core<T>,
    w: Wish<'_>,
    call: Call,
    now_ms: u64,
    r: Result<Call, Error<T::Error>>,
)
    requires
        placed(a, b, w, call, now_ms, r),
        w.code.canonical(),
    ensures
        asked_with(a.port.log@, b.port.log@, call.peer, texts_of(w.queries@)),
        r.is_ok() ==> a.port.log@.len() < b.port.log@.len() && queries_fit(
            texts_of(w.queries@),
        ),
{
    broadcast use crate::message::Token::at_most_eight;

    lemma_asked_nothing(a.port.log@, call.peer, texts_of(w.queries@));
    if place_refusal::<T>(a, w, call).is_none() {
        let (c, d, sent) = choose|c: Core<T>, d: Core<T>, sent: Result<(), Error<T::Error>>|
            {
                &&& if w.observe == OutgoingObserve::Deregister {
                    retired(a, c, call)
                } else {
                    c == a
                }
                &&& #[trigger] wish_sent(c, d, w, call.token@, call.peer, now_ms, sent)
                &&& #[trigger] concluded(d, b, w, call, now_ms, sent, r)
            };
        lemma_wish_asks(c, d, w, call.token@, call.peer, now_ms, sent);
    }
}

/// Whatever a request hands to the transport, in one message or in blocks, goes
/// to its server and is read by it with all the queries of the request, in their
/// order. A request that was sent handed over at least one message, and its
/// queries could be kept.
pub proof fn law_every_message_carries_the_queries<T: DatagramIo>(
    a: Core<T>,
    b: Core<T>,
    w: Wish<'_>,
    dest: Endpoint,
    now_ms: u64,
    r: Result<Call, Error<T::Error>>,
)
    requires
        w.code.canonical(),
        called(a, b, w, dest, now_ms, r),
    ensures
        a.port.log@.len() <= b.port.log@.len(),
        b.port.log@.subrange(0, a.port.log@.len() as int) == a.port.log@,
        forall|i: int|
            a.port.log@.len() <= i < b.port.log@.len() ==> asks(
                #[trigger] b.port.log@[i],
                dest,
                texts_of(w.queries@),
            ),
        r.is_ok() ==> a.port.log@.len() < b.port.log@.len() && queries_fit(
            texts_of(w.queries@),
        ),
{
    reveal(asked_with);
    let queries = texts_of(w.queries@);
    assert(b.port.log@.subrange(0, a.port.log@.len() as int) == a.port.log@ || b.port.log@
        != a.port.log@) by {
        assert(a.port.log@.subrange(0, a.port.log@.len() as int) =~= a.port.log@);
    }
    assert forall|c: Core<T>, call: Call|
        c.port == a.port && call.peer == dest && #[trigger] placed(
            c,
            b,
            w,
            call,
            now_ms,
            r,
        ) implies asked_with(a.port.log@, b.port.log@, dest, queries) && (r.is_ok()
        ==> a.port.log@.len() < b.port.log@.len() && queries_fit(queries)) by {
        lemma_placed_asks(c, b, w, call, now_ms, r);
    }
}

/// A request that was sent is kept with all its queries, in their order.
pub proof fn law_queries_are_kept<T: DatagramIo>(
    a: Core<T>,
    b: Core<T>,
    w: Wish<'_>,
    dest: Endpoint,
    now_ms: u64,
    call: Call,
)
    requires
        called(a, b, w, dest, now_ms, Ok::<Call, Error<T::Error>>(call)),
    ensures
        call.peer == dest,
        b.lives.row(call) matches Some(l) && l.queries@ == texts_of(w.queries@) && l.code == w.code,
{
    let r = Ok::<Call, Error<T::Error>>(call);
    assert forall|c: Core<T>, other: Call|
        c.lives == a.lives && other.peer == dest && #[trigger] placed(
            c,
            b,
            w,
            other,
            now_ms,
            r,
        ) implies call.peer == dest && (b.lives.row(call) matches Some(l) && l.queries@
        == texts_of(w.queries@) && l.code == w.code) by {
        let d = choose|d: Core<T>|
            d.lives == a.lives && #[trigger] concluded(
                d,
                b,
                w,
                other,
                now_ms,
                Ok::<(), Error<T::Error>>(()),
                r,
            );
        let rows = a.lives.rows.rows@;
        lemma_find_row(rows, call.key());
        lemma_free_row(rows);
        let at = place_row(rows, call.key())->0;
        lemma_find_row_is(b.lives.rows.rows@, call.key(), at);
    }
}

/// The further blocks of a request body, which go out when earlier ones are
/// acknowledged, go to its server and are read by it with all the queries that
/// were kept of the request, in their order.
pub proof fn law_further_blocks_carry_the_queries<T: DatagramIo>(
    a: Core<T>,
    b: Core<T>,
    m: MessageView,
    call: Call,
    id: SlotId,
    now_ms: u64,
    r: Result<(), Error<T::Error>>,
)
    requires
        upload_continued(a, b, m, call.peer, id, now_ms, r),
        m.token == call.token@,
        a.lives.row(call) matches Some(l) && l.code.canonical(),
    ensures
        a.port.log@.len() <= b.port.log@.len(),
        b.port.log@.subrange(0, a.port.log@.len() as int) == a.port.log@,
        forall|i: int|
            a.port.log@.len() <= i < b.port.log@.len() ==> asks(
                #[trigger] b.port.log@[i],
                call.peer,
                a.lives.row(call)->0.queries@,
            ),
{
    broadcast use crate::message::Token::at_most_eight;

    let queries = a.lives.row(call)->0.queries@;
    lemma_asked_nothing(a.port.log@, call.peer, queries);
    assert forall|c: Core<T>, u: UploadView|
        c.port == a.port && upload_of(a.lives.row(call), m.token, call.peer, u)
            && #[trigger] block1_issued(c, b, u, id, now_ms, r) implies asked_with(
        a.port.log@,
        b.port.log@,
        call.peer,
        queries,
    ) by {
        lemma_issued_asks(c, b, u, id, now_ms, r);
    }
    assert forall|c: Core<T>, u: UploadView|
        c.port == a.port && upload_of(a.lives.row(call), m.token, call.peer, u)
            && #[trigger] upload_window(c, b, u, id, true, now_ms, r) implies asked_with(
        a.port.log@,
        b.port.log@,
        call.peer,
        queries,
    ) by {
        lemma_window_asks(c, b, u, id, true, now_ms, r);
    }
    reveal(asked_with);
}

} // verus!
