//! What holds of the app as a whole.
use vstd::prelude::*;
use vstd::utf8::valid_utf8;

use super::calls::{
    keeps, kept_paths, kept_queries, kept_response, owned_opts, queries_fit, Call, CallFailure,
    ReplyMeta,
};
use super::complete::{answered_request, completed, plain_taken, reply_stored, superseded};
use super::dedup::leak_free;
use super::ending::{call_failed, observing};
use super::error::Error;
use super::inbox::{has_token, newer, token_taken, OutgoingObserve};
use super::notify::{registers_at, rows_without, ObservePlan};
use super::outbound::{front_options, opt_flag, opt_mask, request_options, RequestOptsView};
use super::owned::{
    awaits_reply, lemma_failed_owned, lemma_failure_kept, lemma_outcome_fits, lemma_owned_fits,
    lemma_plain_owned, owned,
};
use super::path::texts_of;
use super::poll::{retransmitted, turned};
use super::reactor::{calm, Core};
use super::reply::{
    lead_options, opt_block, opt_format, opt_observe, opt_uint, reply_message, reply_options,
    with_block, with_block1, with_opt, with_opts, BlockOpt,
};
use super::respond::answered;
use super::response::{dot_segment, ResponseView};
use super::send::{gives_again, replayed, room_for_reply, rst_message, sent_plain};
use super::serve::handled;
use super::site::Site;
use super::unsent::refuses_request;
use super::wish::{called, concluded, place_refusal, placed, records, retired, wish_sent, Wish};
use crate::bytes::prefix;
use crate::error::{EncodeError, ParseError, SlotMessageError};
use crate::message::fields::{unknown_critical_of, values_of};
use crate::message::option::{
    ascending, inserted, law_inserted_ascending, lemma_insert_point, OptView,
};
use crate::message::value::{law_uint_round_trip, lemma_uint_octets_len, uint_octets};
use crate::message::wire::{encode_fault, law_decode_encoded, read_message, wire, MessageView};
use crate::message::{Code, ContentFormat, MessageId, Transmission, Type};
use crate::storage::endpoint::{DedupKey, Endpoint};
use crate::storage::engine::{
    first_due, lemma_first_due, resent, sendable, stage_verdict, waits, EncodeFailure, Engine,
};
use crate::storage::io::{Attempt, DatagramIo};
use crate::storage::observe::next_seq;
use crate::storage::rows::ObserveInterest;
use crate::storage::table::{
    find_row, lemma_find_row, lemma_find_unique, lemma_free_row, place_row, Keyed,
};

verus! {

/// An option that is inserted comes last among those with its number, and
/// leaves the others alone.
pub proof fn lemma_values_inserted(opts: Seq<OptView>, o: OptView, number: u16)
    requires
        ascending(opts),
    ensures
        values_of(inserted(opts, o), number) == if o.number == number {
            values_of(opts, number).push(o.value)
        } else {
            values_of(opts, number)
        },
    decreases opts.len(),
{
    let all = inserted(opts, o);
    lemma_insert_point(opts, o.number);
    if opts.len() == 0 || opts.last().number <= o.number {
        assert(all =~= opts.push(o));
        assert(all.drop_last() =~= opts);
    } else {
        let front = opts.drop_last();
        assert(forall|i: int| 0 <= i < front.len() ==> front[i] == opts[i]);
        lemma_insert_point(front, o.number);
        lemma_values_inserted(front, o, number);
        assert(all =~= inserted(front, o).push(opts.last()));
        assert(all.drop_last() =~= inserted(front, o));
        assert(opts.last().number != o.number);
        if opts.last().number == number {
            assert(values_of(opts, number) == values_of(front, number).push(opts.last().value));
        }
    }
}

/// What one optional option adds.
pub proof fn lemma_values_with(opts: Seq<OptView>, n: u16, value: Option<Seq<u8>>, number: u16)
    requires
        ascending(opts),
    ensures
        ascending(with_opt(opts, n, value)),
        values_of(with_opt(opts, n, value), number) == if n == number && value.is_some() {
            values_of(opts, number).push(value->0)
        } else {
            values_of(opts, number)
        },
{
    if let Some(v) = value {
        let o = OptView { number: n, value: v };
        law_inserted_ascending(opts, o);
        lemma_values_inserted(opts, o, number);
    }
}

/// What a list of options with one number adds.
pub proof fn lemma_values_with_all(opts: Seq<OptView>, n: u16, values: Seq<Seq<u8>>, number: u16)
    requires
        ascending(opts),
    ensures
        ascending(with_opts(opts, n, values)),
        values_of(with_opts(opts, n, values), number) == if n == number {
            values_of(opts, number) + values
        } else {
            values_of(opts, number)
        },
    decreases values.len(),
{
    if values.len() > 0 {
        let front = values.drop_last();
        lemma_values_with_all(opts, n, front, number);
        let o = OptView { number: n, value: values.last() };
        law_inserted_ascending(with_opts(opts, n, front), o);
        lemma_values_inserted(with_opts(opts, n, front), o, number);
        assert((values_of(opts, number) + front).push(values.last()) =~= values_of(opts, number)
            + values);
    } else {
        assert(values_of(opts, number) + values =~= values_of(opts, number));
    }
}

/// The values of one optional option.
pub open spec fn at_most(v: Option<Seq<u8>>) -> Seq<Seq<u8>> {
    match v {
        Some(x) => seq![x],
        None => Seq::empty(),
    }
}

proof fn lemma_push_empty(v: Seq<u8>)
    ensures
        Seq::<Seq<u8>>::empty().push(v) =~= seq![v],
{
}

proof fn lemma_front_values(o: RequestOptsView, number: u16)
    ensures
        ascending(front_options(o)),
        values_of(front_options(o), number) == if number == 1 {
            at_most(o.if_match)
        } else if number == 4 {
            at_most(o.etag)
        } else if number == 5 {
            at_most(opt_flag(o.if_none_match))
        } else if number == 6 {
            at_most(opt_uint(o.observe))
        } else if number == 11 {
            o.path
        } else if number == 12 {
            at_most(opt_format(o.format))
        } else if number == 15 {
            o.queries
        } else if number == 17 {
            at_most(opt_format(o.accept))
        } else {
            Seq::<Seq<u8>>::empty()
        },
{
    let e = Seq::<OptView>::empty();
    let a = with_opt(e, 1, o.if_match);
    lemma_values_with(e, 1, o.if_match, number);
    let b = with_opt(a, 4, o.etag);
    lemma_values_with(a, 4, o.etag, number);
    let c = with_opt(b, 5, opt_flag(o.if_none_match));
    lemma_values_with(b, 5, opt_flag(o.if_none_match), number);
    let d = with_opt(c, 6, opt_uint(o.observe));
    lemma_values_with(c, 6, opt_uint(o.observe), number);
    let f = with_opts(d, 11, o.path);
    lemma_values_with_all(d, 11, o.path, number);
    let g = with_opt(f, 12, opt_format(o.format));
    lemma_values_with(f, 12, opt_format(o.format), number);
    let h = with_opts(g, 15, o.queries);
    lemma_values_with_all(g, 15, o.queries, number);
    lemma_values_with(h, 17, opt_format(o.accept), number);
    assert(Seq::<Seq<u8>>::empty() + o.path =~= o.path);
    assert(Seq::<Seq<u8>>::empty() + o.queries =~= o.queries);
    assert(values_of(e, number) =~= Seq::<Seq<u8>>::empty());
    if o.if_match.is_some() {
        lemma_push_empty(o.if_match->0);
    }
    if o.etag.is_some() {
        lemma_push_empty(o.etag->0);
    }
    lemma_push_empty(Seq::empty());
    if o.observe.is_some() {
        lemma_push_empty(opt_uint(o.observe)->0);
    }
    if o.format.is_some() {
        lemma_push_empty(opt_format(o.format)->0);
    }
    if o.accept.is_some() {
        lemma_push_empty(opt_format(o.accept)->0);
    }
}

/// A server reads from a request exactly the path, queries, Content-Format,
/// Accept, conditions, Observe, blocks, Echo and tag that were put in, and
/// nothing else.
pub proof fn law_request_options_read_back(o: RequestOptsView, number: u16)
    ensures
        ascending(request_options(o)),
        values_of(request_options(o), number) == if number == 27 {
            at_most(opt_block(o.block1))
        } else if number == 19 {
            at_most(opt_block(o.q_block1))
        } else if number == 60 {
            at_most(opt_uint(o.size1))
        } else if number == 23 {
            at_most(opt_block(o.block2))
        } else if number == 31 {
            at_most(opt_block(o.q_block2))
        } else if number == 258 {
            at_most(opt_mask(o.no_response))
        } else if number == 252 {
            at_most(o.echo)
        } else if number == 292 {
            at_most(o.tag)
        } else if number == 1 {
            at_most(o.if_match)
        } else if number == 4 {
            at_most(o.etag)
        } else if number == 5 {
            at_most(opt_flag(o.if_none_match))
        } else if number == 6 {
            at_most(opt_uint(o.observe))
        } else if number == 11 {
            o.path
        } else if number == 12 {
            at_most(opt_format(o.format))
        } else if number == 15 {
            o.queries
        } else if number == 17 {
            at_most(opt_format(o.accept))
        } else {
            Seq::<Seq<u8>>::empty()
        },
{
    lemma_front_values(o, number);
    let a = front_options(o);
    let b = with_opt(a, 27, opt_block(o.block1));
    lemma_values_with(a, 27, opt_block(o.block1), number);
    let c = with_opt(b, 19, opt_block(o.q_block1));
    lemma_values_with(b, 19, opt_block(o.q_block1), number);
    let d = with_opt(c, 60, opt_uint(o.size1));
    lemma_values_with(c, 60, opt_uint(o.size1), number);
    let e = with_opt(d, 23, opt_block(o.block2));
    lemma_values_with(d, 23, opt_block(o.block2), number);
    let f = with_opt(e, 31, opt_block(o.q_block2));
    lemma_values_with(e, 31, opt_block(o.q_block2), number);
    let g = with_opt(f, 258, opt_mask(o.no_response));
    lemma_values_with(f, 258, opt_mask(o.no_response), number);
    let h = with_opt(g, 252, o.echo);
    lemma_values_with(g, 252, o.echo, number);
    lemma_values_with(h, 292, o.tag, number);
    if o.block1.is_some() {
        lemma_push_empty(opt_block(o.block1)->0);
    }
    if o.q_block1.is_some() {
        lemma_push_empty(opt_block(o.q_block1)->0);
    }
    if o.size1.is_some() {
        lemma_push_empty(opt_uint(o.size1)->0);
    }
    if o.block2.is_some() {
        lemma_push_empty(opt_block(o.block2)->0);
    }
    if o.q_block2.is_some() {
        lemma_push_empty(opt_block(o.q_block2)->0);
    }
    if o.no_response.is_some() {
        lemma_push_empty(opt_mask(o.no_response)->0);
    }
    if o.echo.is_some() {
        lemma_push_empty(o.echo->0);
    }
    if o.tag.is_some() {
        lemma_push_empty(o.tag->0);
    }
}

proof fn lemma_lead_values(r: ResponseView, number: u16)
    ensures
        ascending(lead_options(r)),
        values_of(lead_options(r), number) == if number == 4 {
            at_most(r.etag)
        } else if number == 6 {
            at_most(opt_observe(r.observe))
        } else if number == 8 {
            r.location_paths
        } else if number == 12 {
            at_most(opt_format(r.format))
        } else if number == 14 {
            at_most(opt_uint(r.max_age))
        } else if number == 20 {
            r.location_queries
        } else {
            Seq::<Seq<u8>>::empty()
        },
{
    let z = Seq::<OptView>::empty();
    let a = with_opt(z, 4, r.etag);
    lemma_values_with(z, 4, r.etag, number);
    let b = with_opt(a, 6, opt_observe(r.observe));
    lemma_values_with(a, 6, opt_observe(r.observe), number);
    let c = with_opts(b, 8, r.location_paths);
    lemma_values_with_all(b, 8, r.location_paths, number);
    let d = with_opt(c, 12, opt_format(r.format));
    lemma_values_with(c, 12, opt_format(r.format), number);
    let e = with_opt(d, 14, opt_uint(r.max_age));
    lemma_values_with(d, 14, opt_uint(r.max_age), number);
    lemma_values_with_all(e, 20, r.location_queries, number);
    assert(values_of(z, number) =~= Seq::<Seq<u8>>::empty());
    assert(Seq::<Seq<u8>>::empty() + r.location_paths =~= r.location_paths);
    assert(Seq::<Seq<u8>>::empty() + r.location_queries =~= r.location_queries);
    if r.etag.is_some() {
        lemma_push_empty(r.etag->0);
    }
    if r.observe.is_some() {
        lemma_push_empty(opt_observe(r.observe)->0);
    }
    if r.format.is_some() {
        lemma_push_empty(opt_format(r.format)->0);
    }
    if r.max_age.is_some() {
        lemma_push_empty(opt_uint(r.max_age)->0);
    }
}

/// A client reads from a response in one message exactly the ETag, Observe,
/// locations, Content-Format, Max-Age and Echo that the server set.
pub proof fn law_reply_options_read_back(
    r: ResponseView,
    block: Option<BlockOpt>,
    block1: Option<BlockOpt>,
    number: u16,
)
    requires
        number == 4 || number == 6 || number == 8 || number == 12 || number == 14 || number == 20
            || number == 252,
    ensures
        ascending(reply_options(r, block, block1)),
        values_of(reply_options(r, block, block1), number) == if number == 252 {
            at_most(r.echo)
        } else if number == 4 {
            at_most(r.etag)
        } else if number == 6 {
            at_most(opt_observe(r.observe))
        } else if number == 8 {
            r.location_paths
        } else if number == 12 {
            at_most(opt_format(r.format))
        } else if number == 14 {
            at_most(opt_uint(r.max_age))
        } else {
            r.location_queries
        },
{
    lemma_lead_values(r, number);
    let a = lead_options(r);
    if let Some(b) = block {
        if b.q_block {
            lemma_values_with(a, 28, opt_uint(b.size2), number);
            lemma_values_with(
                with_opt(a, 28, opt_uint(b.size2)),
                31,
                Some(uint_octets(b.value.packed())),
                number,
            );
        } else {
            lemma_values_with(a, 23, Some(uint_octets(b.value.packed())), number);
        }
    }
    let c = with_block(a, block);
    if let Some(b) = block1 {
        let n: u16 = if b.q_block {
            19
        } else {
            27
        };
        lemma_values_with(c, n, Some(uint_octets(b.value.packed())), number);
    }
    let d = with_block1(c, block1);
    lemma_values_with(d, 252, r.echo, number);
    if r.echo.is_some() {
        lemma_push_empty(r.echo->0);
    }
}

/// A client reads from a response exactly the block that the server sends of its body, in
/// Block2 or, with the length of the whole, in Q-Block2, and the block of the upload that
/// it acknowledges, in Block1 or Q-Block1.
pub proof fn law_reply_blocks_read_back(
    r: ResponseView,
    block: Option<BlockOpt>,
    block1: Option<BlockOpt>,
    number: u16,
)
    requires
        number == 19 || number == 23 || number == 27 || number == 28 || number == 31,
    ensures
        values_of(reply_options(r, block, block1), number) == if number == 23 {
            at_most(
                if block.is_some() && !block->0.q_block {
                    opt_block(Some(block->0.value))
                } else {
                    None
                },
            )
        } else if number == 31 {
            at_most(
                if block.is_some() && block->0.q_block {
                    opt_block(Some(block->0.value))
                } else {
                    None
                },
            )
        } else if number == 28 {
            at_most(
                if block.is_some() && block->0.q_block {
                    opt_uint(block->0.size2)
                } else {
                    None
                },
            )
        } else if number == 27 {
            at_most(
                if block1.is_some() && !block1->0.q_block {
                    opt_block(Some(block1->0.value))
                } else {
                    None
                },
            )
        } else {
            at_most(
                if block1.is_some() && block1->0.q_block {
                    opt_block(Some(block1->0.value))
                } else {
                    None
                },
            )
        },
{
    lemma_lead_values(r, number);
    let a = lead_options(r);
    if let Some(b) = block {
        let value = uint_octets(b.value.packed());
        if b.q_block {
            lemma_values_with(a, 28, opt_uint(b.size2), number);
            lemma_values_with(with_opt(a, 28, opt_uint(b.size2)), 31, Some(value), number);
            if b.size2.is_some() {
                lemma_push_empty(opt_uint(b.size2)->0);
            }
        } else {
            lemma_values_with(a, 23, Some(value), number);
        }
        lemma_push_empty(value);
    }
    let c = with_block(a, block);
    if let Some(b) = block1 {
        let n: u16 = if b.q_block {
            19
        } else {
            27
        };
        lemma_values_with(c, n, Some(uint_octets(b.value.packed())), number);
        lemma_push_empty(uint_octets(b.value.packed()));
    }
    let d = with_block1(c, block1);
    lemma_values_with(d, 252, r.echo, number);
}

/// The values that a list of location values is read back as: all of them, if
/// each is text that a location may have.
proof fn lemma_kept_locations(values: Seq<Seq<u8>>)
    requires
        forall|i: int|
            0 <= i < values.len() ==> valid_utf8(#[trigger] values[i]) && values[i].len() <= 255
                && !dot_segment(values[i]),
    ensures
        kept_paths(values) == values,
    decreases values.len(),
{
    if values.len() > 0 {
        let front = values.drop_last();
        assert(forall|i: int| 0 <= i < front.len() ==> front[i] == values[i]);
        lemma_kept_locations(front);
        assert(values.last() == values[values.len() - 1]);
        assert(front.push(values.last()) =~= values);
    } else {
        assert(kept_paths(values) =~= values);
    }
}

proof fn lemma_kept_query_values(values: Seq<Seq<u8>>)
    requires
        forall|i: int|
            0 <= i < values.len() ==> valid_utf8(#[trigger] values[i]) && values[i].len() <= 255,
    ensures
        kept_queries(values) == values,
    decreases values.len(),
{
    if values.len() > 0 {
        let front = values.drop_last();
        assert(forall|i: int| 0 <= i < front.len() ==> front[i] == values[i]);
        lemma_kept_query_values(front);
        assert(values.last() == values[values.len() - 1]);
        assert(front.push(values.last()) =~= values);
    } else {
        assert(kept_queries(values) =~= values);
    }
}

/// What a caller fetches of a response that came in one message is what the
/// server answered: the code, the first 128 bytes of the payload, the number
/// of the Content-Format, ETag, Max-Age, Observe (24 bits), Echo and locations.
pub proof fn law_response_read_back(
    r: ResponseView,
    ty: Type,
    mid: u16,
    token: Seq<u8>,
    peer: Endpoint,
    now_ms: u64,
    meta: ReplyMeta,
)
    requires
        keeps(meta, reply_message(r, ty, mid, token, r.payload, None, None), peer, now_ms),
        super::reply::reply_option_count(r, None, None) <= super::reply::REPLY_OPTIONS,
        r.etag matches Some(e) ==> 1 <= e.len() <= 8,
        r.echo matches Some(e) ==> 1 <= e.len() <= 40,
        forall|i: int|
            0 <= i < r.location_paths.len() ==> valid_utf8(#[trigger] r.location_paths[i])
                && r.location_paths[i].len() <= 255 && !dot_segment(r.location_paths[i]),
        forall|i: int|
            0 <= i < r.location_queries.len() ==> valid_utf8(#[trigger] r.location_queries[i])
                && r.location_queries[i].len() <= 255,
    ensures
        kept_response(meta).code == r.code,
        kept_response(meta).payload == prefix(r.payload, super::response::INLINE_PAYLOAD as nat),
        kept_response(meta).etag == r.etag,
        kept_response(meta).format == match r.format {
            Some(f) => Some(ContentFormat::of_number(f.number())),
            None => None,
        },
        kept_response(meta).max_age == r.max_age,
        kept_response(meta).observe == match r.observe {
            Some(n) => Some((n % 0x1000000) as u32),
            None => None,
        },
        kept_response(meta).echo == r.echo,
        kept_response(meta).location_paths == r.location_paths,
        kept_response(meta).location_queries == r.location_queries,
        kept_response(meta).token == Some(token),
        kept_response(meta).peer == Some(peer),
{
    let opts = owned_opts(meta.options@);
    assert(opts == reply_options(r, None, None));
    law_reply_options_read_back(r, None, None, 4);
    law_reply_options_read_back(r, None, None, 12);
    law_reply_options_read_back(r, None, None, 14);
    law_reply_options_read_back(r, None, None, 6);
    law_reply_options_read_back(r, None, None, 8);
    law_reply_options_read_back(r, None, None, 20);
    law_reply_options_read_back(r, None, None, 252);
    lemma_kept_locations(r.location_paths);
    lemma_kept_query_values(r.location_queries);
    if let Some(n) = r.observe {
        let m = (n % 0x1000000) as nat;
        law_uint_round_trip(m);
        lemma_uint_octets_len(m);
        assert(values_of(opts, 6)[0] == uint_octets(m));
    }
    if let Some(e) = r.echo {
        assert(values_of(opts, 252)[0] == e);
    }
    if let Some(f) = r.format {
        f.law_round_trip();
        assert(values_of(opts, 12)[0] == uint_octets(f.number() as nat));
    }
    if let Some(n) = r.max_age {
        law_uint_round_trip(n as nat);
        lemma_uint_octets_len(n as nat);
        assert(values_of(opts, 14)[0] == uint_octets(n as nat));
    }
    if let Some(e) = r.etag {
        assert(values_of(opts, 4)[0] == e);
    }
}

/// A turn of the reactor leaves no outgoing slot taken without an owner, if
/// there was none.
pub proof fn law_no_orphan_slot<T>(a: Core<T>, b: Core<T>)
    requires
        turned(a, b),
        forall|i: int| !#[trigger] a.engine.unowned(i),
    ensures
        forall|i: int| !#[trigger] b.engine.unowned(i),
{
    reveal(calm);
    reveal(leak_free);
}

/// A turn of the reactor changes no size of any pool or table.
pub proof fn law_sizes_stay<T>(a: Core<T>, b: Core<T>)
    requires
        turned(a, b),
    ensures
        super::reactor::same_shape(a.engine, b.engine),
{
    reveal(calm);
}

/// What was sent once stays in the record: a turn only adds to it.
pub proof fn law_record_only_grows<T>(a: Core<T>, b: Core<T>, i: int)
    requires
        turned(a, b),
        0 <= i < a.port.log@.len(),
    ensures
        b.port.log@.len() >= a.port.log@.len(),
        b.port.log@[i] == a.port.log@[i],
{
    reveal(super::reactor::grown);
    assert(b.port.log@.subrange(0, a.port.log@.len() as int)[i] == b.port.log@[i]);
}

/// No peer has two confirmable messages outstanding.
pub proof fn law_one_outstanding_per_peer(e: Engine, i: int, j: int)
    requires
        e.wf(),
        0 <= i < e.pending@.len(),
        0 <= j < e.pending@.len(),
        e.pending@[i].is_some(),
        e.pending@[j].is_some(),
        e.pending@[i]->0.peer == e.pending@[j]->0.peer,
    ensures
        i == j,
{
    if i < j {
        assert(e.pending@[i]->0.peer != e.pending@[j]->0.peer);
    } else if j < i {
        assert(e.pending@[j]->0.peer != e.pending@[i]->0.peer);
    }
}

/// A confirmable request whose answer is kept gets the same bytes when it
/// arrives again, and nothing runs.
pub proof fn law_duplicate_gets_same_answer<T: DatagramIo>(
    a: Core<T>,
    b: Core<T>,
    peer: Endpoint,
    mid: MessageId,
    code: Code,
    now_ms: u64,
    bytes: Seq<u8>,
    again: Option<Result<(), Error<T::Error>>>,
)
    requires
        gives_again(a, DedupKey { mid, peer }, code, now_ms, bytes),
        replayed(a, b, peer, mid, code, now_ms, again),
        room_for_reply(a.engine),
        bytes.len() <= a.engine.store.tx.slot_bytes,
    ensures
        again.is_some(),
        b.port.log@ == a.port.log@.push(Attempt { dest: peer, bytes, ok: again->0.is_ok() }),
{
}

/// At most four calls are under way or wait to be fetched. One more is refused
/// before anything is sent, whatever it asks for, and no call gives way to it.
pub proof fn law_fifth_call_refused<T: DatagramIo>(
    a: Core<T>,
    b: Core<T>,
    w: Wish<'_>,
    dest: Endpoint,
    now_ms: u64,
    r: Result<Call, Error<T::Error>>,
)
    requires
        a.wf(),
        forall|i: int|
            0 <= i < a.lives.rows.rows@.len() ==> (#[trigger] a.lives.rows.rows@[i]).is_some(),
        w.observe != OutgoingObserve::Deregister,
        w.refusal::<T::Error>(now_ms).is_none(),
        called(a, b, w, dest, now_ms, r),
    ensures
        a.lives.rows.rows@.len() == 4,
        r matches Err(e) && (e == Error::<T::Error>::Saturated || e is Identity),
        b == (Core { ids: b.ids, ..a }),
{
    let rows = a.lives.rows.rows@;
    assert forall|call: Call| !token_taken(rows, #[trigger] call.token@) implies place_row(
        rows,
        call.key(),
    ).is_none() by {
        lemma_find_row(rows, call.key());
        lemma_free_row(rows);
        if let Some(i) = find_row(rows, call.key()) {
            assert(has_token(rows[i], call.token@));
        }
    }
}

/// A confirmable message that is sent again is the same datagram to the same
/// peer, and would be once more; each time it waits twice as long.
pub proof fn law_sent_again_unchanged<T: DatagramIo>(
    a: Core<T>,
    b: Core<T>,
    i: int,
    dest: Endpoint,
    bytes: Seq<u8>,
    now_ms: u64,
    r: Result<(), Error<T::Error>>,
)
    requires
        retransmitted(a, b, now_ms, r),
        first_due(a.engine.pending@, now_ms) == Some(i),
        a.engine.pending@[i]->0.retries < Transmission::MAX_RETRANSMIT,
        sendable(a.engine, a.engine.pending@[i]->0.tx) == Some((dest, bytes)),
    ensures
        b.port.log@ == a.port.log@.push(Attempt { dest, bytes, ok: r.is_ok() }),
        b.engine.pending@[i] == Some(resent(a.engine.pending@[i]->0, now_ms)),
        sendable(b.engine, b.engine.pending@[i]->0.tx) == Some((dest, bytes)),
{
    lemma_first_due(a.engine.pending@, now_ms);
}

/// A confirmable message that was sent often enough waits no more, and its slot
/// is free; nothing is sent.
pub proof fn law_sent_no_more<T: DatagramIo>(
    a: Core<T>,
    b: Core<T>,
    i: int,
    now_ms: u64,
    r: Result<(), Error<T::Error>>,
)
    requires
        a.wf(),
        retransmitted(a, b, now_ms, r),
        first_due(a.engine.pending@, now_ms) == Some(i),
        a.engine.pending@[i]->0.retries >= Transmission::MAX_RETRANSMIT,
    ensures
        r.is_ok(),
        b.port.log@ == a.port.log@,
        b.engine.pending@[i].is_none(),
        b.engine.store.tx.slots@[i].is_none(),
{
    lemma_first_due(a.engine.pending@, now_ms);
}

/// A request that was sent is a call under way, of which is recorded what was
/// asked for.
pub proof fn law_sent_call_is_live<T: DatagramIo>(
    a: Core<T>,
    b: Core<T>,
    w: Wish<'_>,
    dest: Endpoint,
    now_ms: u64,
    call: Call,
)
    requires
        a.wf(),
        b.wf(),
        called(a, b, w, dest, now_ms, Ok::<Call, Error<T::Error>>(call)),
    ensures
        call.peer == dest,
        b.lives.row(call) matches Some(l) && records(l, w, call, now_ms),
{
    let rows = a.lives.rows.rows@;
    let i = place_row(rows, call.key());
    lemma_find_row(rows, call.key());
    lemma_free_row(rows);
    if let Some(i) = i {
        if b.lives.rows.rows@[i].is_some() && b.lives.rows.rows@[i]->0.call == call {
            lemma_find_unique(b.lives.rows.rows@, i);
        }
    }
}

/// A confirmable response with a critical option that is not known is answered
/// by a reset, and the call goes on.
pub proof fn law_unknown_critical_is_reset<T: DatagramIo>(
    a: Core<T>,
    b: Core<T>,
    call: Call,
    m: MessageView,
    now_ms: u64,
    r: Result<(), Error<T::Error>>,
)
    requires
        completed(a, b, call, m, now_ms, r),
        unknown_critical_of(m.options).is_some(),
        m.ty == Type::Confirmable,
    ensures
        sent_plain(a, b, rst_message(MessageId { raw: m.id }), call.peer, r),
        b.engine.exchanges == a.engine.exchanges,
        b.engine.store.observe == a.engine.store.observe,
        b.inbox == a.inbox,
        b.lives == a.lives,
{
}

/// A response with a critical option that is not known and that comes with the
/// acknowledgement of its request stops the request from being sent again; it
/// does not complete the call.
pub proof fn law_unknown_critical_still_acknowledges<T: DatagramIo>(
    a: Core<T>,
    b: Core<T>,
    call: Call,
    m: MessageView,
    now_ms: u64,
    r: Result<(), Error<T::Error>>,
)
    requires
        completed(a, b, call, m, now_ms, r),
        unknown_critical_of(m.options).is_some(),
        m.ty == Type::Acknowledgement,
        answered_request(a.engine, m, call.peer).is_some(),
    ensures
        r.is_ok(),
        !waits(b.engine, answered_request(a.engine, m, call.peer)->0.mid, call.peer),
        b.port == a.port,
        b.engine.exchanges == a.engine.exchanges,
        b.inbox == a.inbox,
        b.lives == a.lives,
{
}

/// Whatever waits on this side belongs to a call under way: every open request,
/// every subscription and every reply. So there is room for what becomes of any
/// such call.
pub proof fn law_outcome_has_room<T>(c: Core<T>, call: Call)
    requires
        c.wf(),
        owned(c),
    ensures
        awaits_reply(c, call.key()) || c.inbox.row(call).is_some() ==> c.lives.row(call).is_some(),
        c.lives.row(call).is_some() ==> place_row(c.inbox.rows.rows@, call.key()).is_some(),
{
    lemma_find_row(c.inbox.rows.rows@, call.key());
    lemma_find_row(c.lives.rows.rows@, call.key());
    lemma_owned_fits(c, call.key());
    if c.lives.row(call).is_some() {
        lemma_outcome_fits(c, call);
    }
}

/// What a call failed with is what is fetched of it.
pub proof fn law_failure_is_fetched<T>(
    a: Core<T>,
    b: Core<T>,
    call: Call,
    failure: CallFailure,
    release: bool,
)
    requires
        a.wf(),
        b.wf(),
        call_failed(a, b, call, failure, release),
        owned(a),
        a.lives.row(call).is_some() || awaits_reply(a, call.key()),
    ensures
        owned(b),
        b.inbox.has(call),
        b.inbox.row(call)->0.meta == Err::<ReplyMeta, CallFailure>(failure),
{
    lemma_failed_owned(a, b, call, failure, release);
    lemma_failure_kept(a, b, call, failure, release);
}

/// A call that failed waits for nothing any more: no response, no
/// notification. Its request is not sent again, unless its message was to be
/// left alone.
pub proof fn law_failed_call_is_over<T>(
    a: Core<T>,
    b: Core<T>,
    call: Call,
    failure: CallFailure,
    release: bool,
)
    requires
        a.wf(),
        call_failed(a, b, call, failure, release),
    ensures
        find_row(b.engine.exchanges.rows@, call.key()).is_none(),
        !observing(b.engine, call),
        release ==> (a.engine.exchanges.row(call.key()) matches Some(x) ==> !waits(
            b.engine,
            x.mid,
            call.peer,
        )),
{
    lemma_without(a.engine.exchanges.rows@, call.key());
    lemma_without(a.engine.store.observe.rows@, call.key());
}

proof fn lemma_without<R: Keyed>(rows: Seq<Option<R>>, key: crate::storage::endpoint::KeyView)
    requires
        crate::storage::table::unique_keys(rows),
    ensures
        find_row(crate::storage::table::without(rows, key), key).is_none(),
{
    let after = crate::storage::table::without(rows, key);
    lemma_find_row(rows, key);
    lemma_find_row(after, key);
    if let Some(k) = find_row(after, key) {
        if let Some(i) = find_row(rows, key) {
            if k < i {
                assert(rows[k]->0.row_key() != rows[i]->0.row_key());
            } else if i < k {
                assert(rows[i]->0.row_key() != rows[k]->0.row_key());
            }
        } else {
            assert(rows[k].is_some());
        }
    }
}

/// A reply that was kept is the one that is fetched, with its body.
pub proof fn law_reply_is_fetched<T>(
    a: Core<T>,
    b: Core<T>,
    call: Call,
    meta: ReplyMeta,
    body: Option<crate::storage::endpoint::SlotId>,
    via_exchange: bool,
)
    requires
        a.wf(),
        b.wf(),
        reply_stored(a, b, call, meta, body, via_exchange),
        owned(a),
        a.lives.row(call).is_some() || awaits_reply(a, call.key()),
    ensures
        b.inbox.has(call),
        b.inbox.row(call)->0.meta == Ok::<ReplyMeta, CallFailure>(meta),
        b.inbox.row(call)->0.body == body,
        body matches Some(id) ==> (a.engine.rx_transfer(id).is_some() ==> b.engine.rx_body(id)
            == a.engine.rx_body(id)),
{
    let rows = a.inbox.rows.rows@;
    lemma_find_row(rows, call.key());
    lemma_free_row(rows);
    law_outcome_has_room(a, call);
    let i = place_row(rows, call.key())->0;
    lemma_find_unique(b.inbox.rows.rows@, i);
    let gone = superseded(rows, call, body);
    if let Some(id) = body {
        assert(gone != Some(id));
        assert(gone matches Some(other) ==> other.at != id.at);
    }
}

/// A response in one message to a call that waits for it is what is fetched of
/// the call.
pub proof fn law_response_is_fetched<T>(
    a: Core<T>,
    b: Core<T>,
    call: Call,
    m: MessageView,
    via_exchange: bool,
    now_ms: u64,
)
    requires
        a.wf(),
        b.wf(),
        owned(a),
        plain_taken(a, b, call, m, via_exchange, now_ms),
        a.lives.row(call).is_some() || awaits_reply(a, call.key()),
    ensures
        owned(b),
        b.inbox.has(call),
        b.inbox.row(call)->0.meta matches Ok(meta) && keeps(meta, m, call.peer, now_ms),
{
    let rows = a.inbox.rows.rows@;
    law_outcome_has_room(a, call);
    lemma_plain_owned(a, b, call, m, via_exchange, now_ms);
    lemma_find_row(rows, call.key());
    lemma_free_row(rows);
    let i = place_row(rows, call.key())->0;
    assert(b.inbox.rows.rows@[i].is_some());
    lemma_find_unique(b.inbox.rows.rows@, i);
}

/// A peer that does not want a response to its non-confirmable request gets
/// none.
pub proof fn law_unwanted_is_not_sent<T: DatagramIo>(
    a: Core<T>,
    b: Core<T>,
    answer: super::answer::Answer,
    r: ResponseView,
    now_ms: u64,
    res: Result<(), Error<T::Error>>,
)
    requires
        answered(a, b, answer, r, now_ms, res),
        answer.no_response.suppressed(r.code),
        answer.ty != Type::Confirmable,
    ensures
        b == a,
{
    reveal(answered);
}

/// An invalid response is never sent, and changes nothing.
pub proof fn law_invalid_is_not_sent<T: DatagramIo>(
    a: Core<T>,
    b: Core<T>,
    answer: super::answer::Answer,
    r: ResponseView,
    now_ms: u64,
    res: Result<(), Error<T::Error>>,
)
    requires
        answered(a, b, answer, r, now_ms, res),
        r.fault.is_some(),
    ensures
        b == a,
        res == Err::<(), Error<T::Error>>(Error::Response(r.fault->0)),
{
    reveal(answered);
}

/// A request that fits into a datagram is read by its server as it was put:
/// method, path, queries and payload.
pub proof fn law_request_read_back(w: Wish<'_>, token: Seq<u8>, mid: u16)
    requires
        w.path.is_ok(),
        token.len() <= 8,
        w.code.canonical(),
        encode_fault(w.message(token, mid)).is_none(),
    ensures
        read_message(wire(w.message(token, mid))) == Ok::<MessageView, ParseError>(
            w.message(token, mid),
        ),
        w.message(token, mid).code == w.code,
        w.message(token, mid).payload == w.payload@,
        values_of(w.message(token, mid).options, 11) == texts_of(w.path->Ok_0@),
        values_of(w.message(token, mid).options, 15) == texts_of(w.queries@),
{
    law_decode_encoded(w.message(token, mid));
    law_request_options_read_back(w.options(), 11);
    law_request_options_read_back(w.options(), 15);
}

/// Queries that are added one after the other are read by the server in that
/// order, after those that were there.
pub proof fn law_queries_in_order(
    w: Wish<'_>,
    then: Wish<'_>,
    values: Seq<&str>,
    token: Seq<u8>,
    mid: u16,
)
    requires
        then.queries@ == w.queries@ + values,
    ensures
        values_of(then.message(token, mid).options, 15) == texts_of(w.queries@) + texts_of(values),
{
    law_request_options_read_back(then.options(), 15);
    assert(texts_of(then.queries@) =~= texts_of(w.queries@) + texts_of(values));
}

/// A request with more queries, or longer ones, than can be kept is refused, and
/// nothing is sent. It is refused as too long, unless there is another reason: no
/// token, no room for a call, or something else that it asks.
pub proof fn law_unkept_queries_refused<T: DatagramIo>(
    a: Core<T>,
    b: Core<T>,
    w: Wish<'_>,
    dest: Endpoint,
    now_ms: u64,
    r: Result<Call, Error<T::Error>>,
)
    requires
        called(a, b, w, dest, now_ms, r),
        !queries_fit(texts_of(w.queries@)),
    ensures
        b == (Core { ids: b.ids, ..a }),
        r matches Err(e) && (e == Error::<T::Error>::Message(
            SlotMessageError::Encode(EncodeError::OptionValueTooLong),
        ) || e is Identity || e is Saturated || refuses_request(e) || Some(e) == w.refusal::<
            T::Error,
        >(now_ms)),
        w.refusal::<T::Error>(now_ms).is_none() && w.observe == OutgoingObserve::Off && !w.q_block1
            && w.request_tag@.is_none() && (forall|call: Call| #[trigger] a.lives.admits(call))
            ==> r == Err::<Call, Error<T::Error>>(
            Error::Message(SlotMessageError::Encode(EncodeError::OptionValueTooLong)),
        ) || r->Err_0 is Identity,
{
    assert forall|c: Core<T>, call: Call| #[trigger]
        placed(c, b, w, call, now_ms, r) && c.lives == a.lives implies b == c && r
        == Err::<Call, Error<T::Error>>(place_refusal::<T>(c, w, call)->0) && (a.lives.admits(call)
        == c.lives.admits(call)) by {
        assert(place_refusal::<T>(c, w, call).is_some());
    }
}

/// A request that fits into one datagram and was sent carries all its queries, in
/// order.
pub proof fn law_queries_arrive<T: DatagramIo>(
    a: Core<T>,
    b: Core<T>,
    w: Wish<'_>,
    dest: Endpoint,
    now_ms: u64,
    call: Call,
)
    requires
        w.path.is_ok(),
        w.code.canonical(),
        called(a, b, w, dest, now_ms, Ok::<Call, Error<T::Error>>(call)),
        encode_fault(w.message(call.token@, a.ids.next_mid)).is_none(),
        wire(w.message(call.token@, a.ids.next_mid)).len() <= a.engine.store.tx.slot_bytes,
    ensures
        queries_fit(texts_of(w.queries@)),
        b.port.log@ == a.port.log@.push(
            Attempt {
                dest,
                bytes: wire(w.message(call.token@, a.ids.next_mid)),
                ok: true,
            },
        ),
        read_message(wire(w.message(call.token@, a.ids.next_mid))) == Ok::<
            MessageView,
            ParseError,
        >(w.message(call.token@, a.ids.next_mid)),
        values_of(w.message(call.token@, a.ids.next_mid).options, 15) == texts_of(w.queries@),
{
    broadcast use crate::message::Token::at_most_eight;

    let r = Ok::<Call, Error<T::Error>>(call);
    law_request_read_back(w, call.token@, a.ids.next_mid);
    assert forall|c: Core<T>, other: Call|
        c.engine == a.engine && c.port == a.port && c.ids.next_mid == a.ids.next_mid && other.peer
            == dest && #[trigger] placed(c, b, w, other, now_ms, r) implies queries_fit(
        texts_of(w.queries@),
    ) && b.port.log@ == a.port.log@.push(
        Attempt { dest, bytes: wire(w.message(call.token@, a.ids.next_mid)), ok: true },
    ) by {
        lemma_placed_arrives(c, b, w, other, now_ms, call);
    }
}

proof fn lemma_placed_arrives<T: DatagramIo>(
    a: Core<T>,
    b: Core<T>,
    w: Wish<'_>,
    other: Call,
    now_ms: u64,
    call: Call,
)
    requires
        placed(a, b, w, other, now_ms, Ok::<Call, Error<T::Error>>(call)),
        encode_fault(w.message(call.token@, a.ids.next_mid)).is_none(),
        wire(w.message(call.token@, a.ids.next_mid)).len() <= a.engine.store.tx.slot_bytes,
    ensures
        queries_fit(texts_of(w.queries@)),
        b.port.log@ == a.port.log@.push(
            Attempt {
                dest: other.peer,
                bytes: wire(w.message(call.token@, a.ids.next_mid)),
                ok: true,
            },
        ),
{
    let r = Ok::<Call, Error<T::Error>>(call);
    let (c, d, sent) = choose|c: Core<T>, d: Core<T>, sent: Result<(), Error<T::Error>>|
        {
            &&& if w.observe == OutgoingObserve::Deregister {
                retired(a, c, other)
            } else {
                c == a
            }
            &&& #[trigger] wish_sent(c, d, w, other.token@, other.peer, now_ms, sent)
            &&& #[trigger] concluded(d, b, w, other, now_ms, sent, r)
        };
    assert(other == call && sent.is_ok());
    assert(c.engine.store.tx.slot_bytes == a.engine.store.tx.slot_bytes) by {
        reveal(super::reactor::calm);
    }
    let m = w.message(call.token@, a.ids.next_mid);
    assert(stage_verdict(c.engine, m) != Err::<int, EncodeFailure>(
        EncodeFailure::Encode(EncodeError::BufferTooSmall),
    ));
}

/// Only GET and FETCH begin or end an observation by their Observe option: any
/// other request leaves the peer's own observation alone, and none begins.
pub proof fn law_only_get_and_fetch_observe<const N: usize>(
    site: Site<N>,
    m: MessageView,
    peer: Endpoint,
    body: Option<Seq<u8>>,
    r: ResponseView,
    plan: ObservePlan,
    rows: Seq<Option<ObserveInterest>>,
)
    requires
        handled(site, m, peer, body, r, plan),
        m.code != Code::GET,
        m.code != Code::FETCH,
    ensures
        registers_at(rows, plan, peer, r).is_none(),
        rows_without(rows, plan, peer) == rows,
{
}

/// A notification with the next sequence number is newer than the one before
/// it, whenever it arrives.
pub proof fn law_next_notification_is_newer(seq: u32, then_ms: u64, now_ms: u64)
    requires
        seq < 0x1000000,
    ensures
        newer((seq, then_ms), next_seq(seq), now_ms),
{
}

} // verus!
