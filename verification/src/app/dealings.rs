//! What a request is answered.
use vstd::prelude::*;
use vstd::string::StringSliceAdditionalSpecFns;
use vstd::utf8::valid_utf8;

use super::answer::{encode_verdict, Answer};
use super::dedup::{
    closed_after, kept_until, may_rerun, replay_of, unexpired, DedupClosed, ReplayView,
};
use super::echo::EchoDecision;
use super::error::Error;
use super::inbound::bad_options;
use super::path::{texts_of, uri_path_fault, PathError};
use super::reactor::Core;
use super::reply::reply_message;
use super::request::Request;
use super::respond::{answer_type, answered, retained};
use super::response::{Response, ResponseView};
use super::routing::Method;
use super::send::room_for_reply;
use super::serve::{echo_refusal, handled, option_refusal, wanted_answers};
use super::site::{catalog_of, link_of, route_at, slashed, Entry, Site};
use crate::message::fields::{block_option, first_value, values_of, NoResponse};
use crate::message::laws::{law_first_value, law_unknown_critical, named_numbers, present};
use crate::message::wire::{wire, MessageView};
use crate::message::{Code, ContentFormat, MessageId, Type};
use crate::storage::endpoint::{DedupKey, Endpoint};
use crate::storage::engine::Engine;
use crate::storage::io::DatagramIo;
use crate::storage::rows::DedupEntry;

verus! {

/// The method of a request is the one that its code octet stands for: 1 GET, 2 POST, 3 PUT,
/// 4 DELETE, 5 FETCH, 6 PATCH, 7 iPATCH; no other code has one.
pub proof fn law_method_of_code(code: Code)
    requires
        code.canonical(),
    ensures
        Method::of_code(code) == Some(Method::Get) <==> code.raw() == 1,
        Method::of_code(code) == Some(Method::Post) <==> code.raw() == 2,
        Method::of_code(code) == Some(Method::Put) <==> code.raw() == 3,
        Method::of_code(code) == Some(Method::Delete) <==> code.raw() == 4,
        Method::of_code(code) == Some(Method::Fetch) <==> code.raw() == 5,
        Method::of_code(code) == Some(Method::Patch) <==> code.raw() == 6,
        Method::of_code(code) == Some(Method::IPatch) <==> code.raw() == 7,
        Method::of_code(code).is_none() <==> code.raw() == 0 || code.raw() > 7,
{
}

/// The code octet of a method.
pub proof fn law_code_of_method()
    ensures
        Method::Get.to_code().raw() == 1,
        Method::Post.to_code().raw() == 2,
        Method::Put.to_code().raw() == 3,
        Method::Delete.to_code().raw() == 4,
        Method::Fetch.to_code().raw() == 5,
        Method::Patch.to_code().raw() == 6,
        Method::IPatch.to_code().raw() == 7,
{
}

/// Is this the first route with this path?
pub open spec fn first_route(entries: Seq<Entry>, path: Seq<Seq<u8>>, i: int) -> bool {
    &&& 0 <= i < entries.len()
    &&& texts_of(entries[i].path@) == path
    &&& forall|j: int| 0 <= j < i ==> texts_of((#[trigger] entries[j]).path@) != path
}

proof fn lemma_first_route(entries: Seq<Entry>, path: Seq<Seq<u8>>, i: int)
    requires
        first_route(entries, path, i),
    ensures
        route_at(entries, path) == Some(i),
    decreases entries.len(),
{
    let front = entries.drop_last();
    if i < front.len() {
        assert forall|j: int| 0 <= j < i implies texts_of((#[trigger] front[j]).path@) != path by {
            assert(front[j] == entries[j]);
        }
        assert(front[i] == entries[i]);
        lemma_first_route(front, path, i);
    } else {
        super::site::lemma_route_at(front, path);
        match route_at(front, path) {
            Some(j) => {
                assert(front[j] == entries[j]);
            },
            None => {},
        }
    }
}

/// A request goes to the first route with its path and there to the handler of its method,
/// whose answer is the answer; without such a handler the answer is 4.05.
pub proof fn law_routed<const N: usize>(
    site: Site<N>,
    req: Request<'_>,
    room: int,
    r: Response<'static>,
    i: int,
)
    requires
        site.answers(req, room, r),
        first_route(site.entries@, req@.path, i),
    ensures
        Method::of_code(req@.message.code).is_none() ==> r@.code == Code::METHOD_NOT_ALLOWED,
        Method::of_code(req@.message.code) matches Some(m) ==> (match site.entries@[i].methods.slot(
            m,
        ) {
            Some(h) => h.gives(req, r),
            None => r@.code == Code::METHOD_NOT_ALLOWED,
        }),
{
    lemma_first_route(site.entries@, req@.path, i);
}

/// A request for a path that no route has is answered 4.04; but if the catalog is on, GET on
/// /.well-known/core is answered 2.05 with the links to all routes, or 5.00 if they do
/// not fit, and any other method there 4.05.
pub proof fn law_unrouted<const N: usize>(
    site: Site<N>,
    req: Request<'_>,
    room: int,
    r: Response<'static>,
)
    requires
        site.answers(req, room, r),
        forall|j: int|
            0 <= j < site.entries@.len() ==> texts_of((#[trigger] site.entries@[j]).path@)
                != req@.path,
        0 < room,
    ensures
        ({
            let core = req@.path.len() == 2 && req@.path[0] == ".well-known".spec_bytes()
                && req@.path[1] == "core".spec_bytes();
            let links = catalog_of(site.entries@);
            &&& !site.well_known || !core ==> r@.code == Code::NOT_FOUND
            &&& site.well_known && core && req@.message.code != Code::GET ==> r@.code
                == Code::METHOD_NOT_ALLOWED
            &&& site.well_known && core && req@.message.code == Code::GET && links.len() <= room
                && links.len() <= 128 ==> r@.code == Code::CONTENT && r@.format == Some(
                ContentFormat::LINK_FORMAT,
            ) && r@.payload == links
            &&& site.well_known && core && req@.message.code == Code::GET && links.len() > room
                ==> r@.code == Code::INTERNAL_SERVER_ERROR
        }),
{
    super::site::lemma_route_at(site.entries@, req@.path);
    let path = req@.path;
    if path.len() == 2 && path[0] == ".well-known".spec_bytes() && path[1] == "core".spec_bytes() {
        assert(path =~= super::site::well_known_path());
    }
}

/// The link to a route is its path in angle brackets, with a slash in front of each segment;
/// the link to the root is a single slash in angle brackets. The catalog holds the link
/// to each route, in order, separated by commas.
pub proof fn law_catalog(
    a: Seq<Entry>,
    b: Seq<Entry>,
    e: Entry,
    x: Seq<Seq<u8>>,
    y: Seq<Seq<u8>>,
    seg: Seq<u8>,
)
    ensures
        catalog_of(Seq::empty()) == Seq::<u8>::empty(),
        catalog_of(seq![e]) == link_of(texts_of(e.path@)),
        a.len() > 0 && b.len() > 0 ==> catalog_of(a + b) == catalog_of(a) + seq![0x2cu8]
            + catalog_of(b),
        link_of(Seq::empty()) == seq![0x3cu8, 0x2fu8, 0x3eu8],
        x.len() > 0 ==> link_of(x) == seq![0x3cu8] + slashed(x) + seq![0x3eu8],
        slashed(seq![seg]) == seq![0x2fu8] + seg,
        slashed(x + y) == slashed(x) + slashed(y),
{
    reveal_with_fuel(catalog_of, 2);
    reveal_with_fuel(slashed, 2);
    assert(seq![seg].drop_last() =~= Seq::<Seq<u8>>::empty());
    assert(Seq::<u8>::empty() + (seq![0x2fu8] + seg) =~= seq![0x2fu8] + seg);
    assert(seq![0x3cu8] + seq![0x2fu8] + seq![0x3eu8] =~= seq![0x3cu8, 0x2fu8, 0x3eu8]);
    lemma_slashed_add(x, y);
    if a.len() > 0 && b.len() > 0 {
        lemma_catalog_add(a, b);
    }
}

proof fn lemma_slashed_add(x: Seq<Seq<u8>>, y: Seq<Seq<u8>>)
    ensures
        slashed(x + y) == slashed(x) + slashed(y),
    decreases y.len(),
{
    if y.len() == 0 {
        assert(x + y =~= x);
        assert(slashed(x) + Seq::<u8>::empty() =~= slashed(x));
    } else {
        lemma_slashed_add(x, y.drop_last());
        assert((x + y).drop_last() =~= x + y.drop_last());
        let p = slashed(x);
        let q = slashed(y.drop_last());
        let s = seq![0x2fu8] + y.last();
        assert(p + q + s =~= p + (q + s));
    }
}

proof fn lemma_catalog_add(a: Seq<Entry>, b: Seq<Entry>)
    requires
        a.len() > 0,
        b.len() > 0,
    ensures
        catalog_of(a + b) == catalog_of(a) + seq![0x2cu8] + catalog_of(b),
    decreases b.len(),
{
    assert((a + b).drop_last() =~= a + b.drop_last());
    assert((a + b).last() == b.last());
    let p = catalog_of(a);
    let link = link_of(texts_of(b.last().path@));
    if b.len() == 1 {
        assert(a + b.drop_last() =~= a);
        assert(p + (seq![0x2cu8] + link) =~= p + seq![0x2cu8] + link);
    } else {
        lemma_catalog_add(a, b.drop_last());
        let q = catalog_of(b.drop_last());
        assert(p + seq![0x2cu8] + q + (seq![0x2cu8] + link) =~= p + seq![0x2cu8] + (q + (
        seq![0x2cu8] + link)));
    }
}

/// The path of a request is accepted exactly if it has at most 8 segments and all of them
/// are text; one that is not text is named before the length if it comes first.
pub proof fn law_uri_path(values: Seq<Seq<u8>>)
    ensures
        uri_path_fault(values).is_none() <==> values.len() <= 8 && forall|i: int|
            0 <= i < values.len() ==> valid_utf8(#[trigger] values[i]),
        uri_path_fault(values) == Some(PathError::TooLong) <==> values.len() > 8 && forall|i: int|
            0 <= i < 9 ==> valid_utf8(#[trigger] values[i]),
        uri_path_fault(values) == Some(PathError::BadUtf8) <==> exists|i: int|
            0 <= i < values.len() && i < 9 && !valid_utf8(#[trigger] values[i]),
        uri_path_fault(values) != Some(PathError::EmptySegment),
    decreases values.len(),
{
    if values.len() > 0 {
        let front = values.drop_last();
        law_uri_path(front);
        assert forall|i: int| 0 <= i < front.len() implies #[trigger] front[i] == values[i] by {}
        assert forall|i: int| 0 <= i < values.len() implies #[trigger] values[i] == if i
            < front.len() {
            front[i]
        } else {
            values.last()
        } by {}
        let last = values[values.len() - 1];
    }
}

/// A request that is let through is answered 4.04 if its path has too many segments, 4.00 if
/// its path is not text.
pub proof fn law_bad_path_answered<const N: usize>(
    site: Site<N>,
    m: MessageView,
    peer: Endpoint,
    body: Option<Seq<u8>>,
    r: ResponseView,
    plan: super::notify::ObservePlan,
)
    requires
        handled(site, m, peer, body, r, plan),
    ensures
        uri_path_fault(values_of(m.options, 11)) == Some(PathError::TooLong) ==> r.code
            == Code::NOT_FOUND,
        uri_path_fault(values_of(m.options, 11)) == Some(PathError::BadUtf8) ==> r.code
            == Code::BAD_REQUEST,
{
}

/// Why a request is refused before it is looked at further. One that names a proxy gets
/// 5.05. One with a critical option that has no name here, one that is protected, one
/// with two Request-Tags or one of more than 8 octets, one with a windowed upload
/// without a Request-Tag, and one with a block option that cannot be read, gets 4.02.
pub proof fn law_option_refusal(m: MessageView)
    ensures
        present(m.options, 35) || present(m.options, 39) ==> (option_refusal(m) matches Some(r)
            && r.code == Code::PROXYING_NOT_SUPPORTED),
        !present(m.options, 35) && !present(m.options, 39) && (present(m.options, 9) || (exists|
            i: int,
        |
            0 <= i < m.options.len() && (#[trigger] m.options[i]).number % 2 == 1
                && !named_numbers().contains(m.options[i].number)) || (present(m.options, 19)
            && !present(m.options, 292)) || (first_value(m.options, 292) matches Some(t) && t.len()
            > 8) || (block_option(m.options, 27) matches Some(Err(_))) || (block_option(
            m.options,
            23,
        ) matches Some(Err(_)))) ==> (option_refusal(m) matches Some(r) && r.code
            == Code::BAD_OPTION),
        option_refusal(m) matches Some(r) ==> r.code == Code::PROXYING_NOT_SUPPORTED || r.code
            == Code::BAD_OPTION || r.code == Code::BAD_REQUEST,
{
    reveal(bad_options);
    law_first_value(m.options, 35);
    law_first_value(m.options, 39);
    law_first_value(m.options, 9);
    law_first_value(m.options, 19);
    law_first_value(m.options, 292);
    if exists|i: int|
        0 <= i < m.options.len() && (#[trigger] m.options[i]).number % 2 == 1
            && !named_numbers().contains(m.options[i].number) {
        let i = choose|i: int|
            0 <= i < m.options.len() && (#[trigger] m.options[i]).number % 2 == 1
                && !named_numbers().contains(m.options[i].number);
        lemma_unknown_there(m.options, i);
    }
}

proof fn lemma_unknown_there(opts: Seq<crate::message::option::OptView>, i: int)
    requires
        0 <= i < opts.len(),
        opts[i].number % 2 == 1,
        !named_numbers().contains(opts[i].number),
    ensures
        crate::message::fields::unknown_critical_of(opts).is_some(),
    decreases opts.len(),
{
    crate::message::laws::law_known_numbers(opts[i].number);
    if i < opts.len() - 1 {
        assert(opts.drop_last()[i] == opts[i]);
        lemma_unknown_there(opts.drop_last(), i);
    }
}

/// A request is not refused for its options if each of them is one of these: If-Match,
/// Uri-Host, ETag, If-None-Match, Observe, Uri-Port, Location-Path, Uri-Path,
/// Content-Format, Max-Age, Uri-Query, Hop-Limit, Accept, Location-Query, Size2, Size1,
/// Echo, No-Response; or one with an even number that has no name here.
pub proof fn law_plain_options_accepted(m: MessageView)
    requires
        forall|i: int|
            0 <= i < m.options.len() ==> {
                let n = (#[trigger] m.options[i]).number;
                n == 1 || n == 3 || n == 4 || n == 5 || n == 6 || n == 7 || n == 8 || n == 11 || n
                    == 12 || n == 14 || n == 15 || n == 16 || n == 17 || n == 20 || n == 28 || n
                    == 60 || n == 252 || n == 258 || (n % 2 == 0 && !named_numbers().contains(n))
            },
    ensures
        option_refusal(m).is_none(),
{
    reveal(bad_options);
    law_unknown_critical(m.options);
    assert forall|i: int| 0 <= i < m.options.len() implies named_numbers().contains(
        (#[trigger] m.options[i]).number,
    ) || m.options[i].number % 2 == 0 by {
        crate::message::laws::law_known_numbers(m.options[i].number);
    }
    law_first_value(m.options, 35);
    law_first_value(m.options, 39);
    law_first_value(m.options, 9);
    law_first_value(m.options, 19);
    law_first_value(m.options, 23);
    law_first_value(m.options, 27);
    law_first_value(m.options, 31);
    law_first_value(m.options, 292);
    assert forall|i: int| 0 <= i < m.options.len() implies (#[trigger] m.options[i]).number != 31
        && m.options[i].number != 292 by {
        crate::message::laws::law_known_numbers(31);
        crate::message::laws::law_known_numbers(292);
    }
    assert(values_of(m.options, 31).len() == 0);
    assert(values_of(m.options, 292).len() == 0);
    assert(values_of(m.options, 19).len() == 0);
}

/// What an Echo policy leads to: a request that it accepts is served; one that it rejects is
/// answered 4.01, and one that it challenges 4.01 with the challenge; both answers are not
/// to be kept by anyone.
pub proof fn law_echo_refusal(d: EchoDecision)
    ensures
        d is Accept <==> echo_refusal(d).is_none(),
        d is Reject ==> (echo_refusal(d) matches Some(r) && r.code == Code::UNAUTHORIZED
            && r.max_age == Some(0u32) && r.echo.is_none()),
        d matches EchoDecision::Challenge(e) ==> (echo_refusal(d) matches Some(r) && r.code
            == Code::UNAUTHORIZED && r.max_age == Some(0u32) && r.echo == Some(e@)),
{
}

/// A request that arrives again while its answer is kept gets that answer, whatever it asks.
/// Without one it runs again, unless it must not run twice: that is any method but GET,
/// PUT, DELETE and iPATCH, while the request is the one remembered as closed.
pub proof fn law_replay(
    engine: Engine,
    closed: Option<DedupClosed>,
    key: DedupKey,
    code: Code,
    now_ms: u64,
)
    requires
        code.canonical(),
    ensures
        may_rerun(code) <==> code.raw() == 1 || code.raw() == 3 || code.raw() == 4 || code.raw()
            == 7,
        ({
            let row = engine.store.dedup.row(crate::storage::engine::dedup_key(key));
            let live = row.is_some() && (row->0.due_ms == 0 || now_ms < row->0.due_ms);
            let shut = closed.is_some() && closed->0.key == key && (closed->0.due_ms == 0 || now_ms
                < closed->0.due_ms);
            let then = replay_of(engine, closed, key, code, now_ms);
            &&& live && row->0.replay.is_some() ==> then == ReplayView::Bytes(row->0.replay->0@)
            &&& live && row->0.replay.is_none() && row->0.tx_pin.is_some() ==> then
                == ReplayView::Pinned(row->0.tx_pin->0)
            &&& live && row->0.replay.is_none() && row->0.tx_pin.is_none() ==> (if may_rerun(code) {
                then is Run
            } else {
                then is EmptyAck
            })
            &&& !live && (may_rerun(code) || !shut) ==> then is Run
            &&& !live && !may_rerun(code) && shut ==> then is EmptyAck
        }),
{
}

/// An answer is kept for 247 seconds; then it is forgotten. An answer that cannot be kept
/// closes a request that must not run twice, for the same time; one that is kept opens it.
pub proof fn law_answer_kept_for(
    row: DedupEntry,
    closed: Option<DedupClosed>,
    key: DedupKey,
    request: Code,
    now_ms: u64,
)
    requires
        now_ms <= 0x1_0000_0000_0000,
        request.canonical(),
    ensures
        kept_until(now_ms) == now_ms + 247000,
        row.due_ms > 0 && now_ms >= row.due_ms ==> unexpired(Some(row), now_ms).is_none(),
        row.due_ms == 0 || now_ms < row.due_ms ==> unexpired(Some(row), now_ms) == Some(row),
        closed_after(closed, key, kept_until(now_ms), request, true) matches Some(c) ==> c.key != key,
        (request.raw() == 2 || request.raw() == 5 || request.raw() == 6) && !(closed matches Some(c)
            && c.key == key) ==> (closed_after(closed, key, kept_until(now_ms), request, false)
            matches Some(c) && c.key == key && c.due_ms == now_ms + 247000),
        request.raw() == 1 || request.raw() == 3 || request.raw() == 4 || request.raw() == 7
            ==> closed_after(closed, key, kept_until(now_ms), request, false) == closed,
{
}

/// Which answers the sender of a request does not want: those that its No-Response option
/// names; none if it has none or one that cannot be read.
pub proof fn law_wanted_answers(m: MessageView)
    ensures
        !present(m.options, 258) ==> wanted_answers(m).mask == 0,
        first_value(m.options, 258) matches Some(v) && v.len() == 0 ==> wanted_answers(m).mask == 0,
        first_value(m.options, 258) matches Some(v) && v.len() == 1 ==> wanted_answers(m).mask
            == first_value(m.options, 258)->0[0],
        first_value(m.options, 258) matches Some(v) && v.len() > 1 ==> wanted_answers(m).mask == 0,
{
    law_first_value(m.options, 258);
    match first_value(m.options, 258) {
        Some(v) => {
            crate::message::laws::law_no_response(NoResponse { mask: 0 }, Code::EMPTY, v);
        },
        None => {},
    }
}

/// An answer to a confirmable request that fits into one message goes out once, to the sender
/// of the request, in an acknowledgement with the identifier and the token of the
/// request, with the code and the payload of the answer.
pub proof fn law_piggybacked<T: DatagramIo>(
    a: Core<T>,
    b: Core<T>,
    answer: Answer,
    r: ResponseView,
    now_ms: u64,
    res: Result<(), Error<T::Error>>,
    m: MessageView,
)
    requires
        answered(a, b, answer, r, now_ms, res),
        answer.ty == Type::Confirmable,
        r.fault.is_none(),
        !answer.no_response.suppressed(r.code),
        retained(a.engine, answer).is_none(),
        answer.block2.is_none() && answer.selections@.len() == 0,
        room_for_reply(a.engine),
        m == reply_message(
            r,
            Type::Acknowledgement,
            answer.mid.raw,
            answer.token@,
            r.payload,
            None,
            answer.block1,
        ),
        encode_verdict(a.engine, m).is_none(),
        super::reply::reply_option_count(r, None, answer.block1) <= 24,
    ensures
        b.port.log@.len() == a.port.log@.len() + 1,
        b.port.log@.drop_last() == a.port.log@,
        b.port.log@.last().dest == answer.dest,
        b.port.log@.last().bytes == wire(m),
        b.port.log@.last().ok == res.is_ok(),
        m.ty == Type::Acknowledgement,
        m.id == answer.mid.raw,
        m.token == answer.token@,
        m.code == r.code,
        m.payload == r.payload,
{
    reveal(answered);
    assert(b.port.log@.drop_last() =~= a.port.log@);
}

/// An answer to a non-confirmable request goes out in a non-confirmable message with an
/// identifier of this side's own; to what is neither there is no answer. A peer that does
/// not want the answer to its confirmable request gets an empty acknowledgement.
pub proof fn law_answer_types()
    ensures
        answer_type(Type::Confirmable) == Some(Type::Acknowledgement),
        answer_type(Type::NonConfirmable) == Some(Type::NonConfirmable),
        answer_type(Type::Acknowledgement).is_none(),
        answer_type(Type::Reset).is_none(),
{
}

/// An empty acknowledgement or reset is four octets: version 1 with its type and no token,
/// the code 0, and the identifier of the message that it is about.
pub proof fn law_empty_messages(mid: MessageId)
    ensures
        wire(super::send::ack_message(mid)) == seq![
            0x60u8,
            0u8,
            (mid.raw / 256) as u8,
            (mid.raw % 256) as u8,
        ],
        wire(super::send::rst_message(mid)) == seq![
            0x70u8,
            0u8,
            (mid.raw / 256) as u8,
            (mid.raw % 256) as u8,
        ],
        super::dedup::empty_ack_wire(mid) == wire(super::send::ack_message(mid)),
{
    let a = super::send::ack_message(mid);
    let r = super::send::rst_message(mid);
    assert(wire(a) =~= crate::message::wire::header_wire(a));
    assert(wire(r) =~= crate::message::wire::header_wire(r));
    assert(crate::message::wire::bare(Type::Acknowledgement, Code::EMPTY, mid.raw) == a);
}

/// The catalog may take 24 bytes for each route that a site has room for, but 128 at least
/// and 4096 at most.
pub proof fn law_catalog_capacity(n: int)
    requires
        0 <= n,
    ensures
        n <= 5 ==> super::site::catalog_capacity(n) == 128,
        6 <= n <= 170 ==> super::site::catalog_capacity(n) == 24 * n,
        n > 170 ==> super::site::catalog_capacity(n) == 4096,
{
}

/// A route that is added replaces the one with the same path, or comes last; the others stay.
pub proof fn law_route_added<const N: usize>(
    a: Site<N>,
    b: Site<N>,
    path: Seq<Seq<u8>>,
    methods: super::routing::MethodRouter,
    i: int,
)
    requires
        super::site::routed(a, b, path, methods),
    ensures
        first_route(a.entries@, path, i) ==> b.entries@.len() == a.entries@.len()
            && b.entries@[i].methods == methods && b.entries@[i].path == a.entries@[i].path
            && forall|j: int|
            0 <= j < a.entries@.len() && j != i ==> #[trigger] b.entries@[j] == a.entries@[j],
        (forall|j: int|
            0 <= j < a.entries@.len() ==> texts_of((#[trigger] a.entries@[j]).path@) != path)
            ==> b.entries@.len() == a.entries@.len() + 1 && b.entries@.drop_last() == a.entries@
            && texts_of(b.entries@.last().path@) == path && b.entries@.last().methods == methods,
        b.well_known == a.well_known,
{
    if first_route(a.entries@, path, i) {
        lemma_first_route(a.entries@, path, i);
    }
    super::site::lemma_route_at(a.entries@, path);
    if forall|j: int|
        0 <= j < a.entries@.len() ==> texts_of((#[trigger] a.entries@[j]).path@) != path {
        assert(b.entries@.drop_last() =~= a.entries@);
    }
}

/// Is this an answer to a request: to its sender, under its token, about its identifier and
/// type?
pub open spec fn answers_request(answer: Answer, m: MessageView, peer: Endpoint) -> bool {
    &&& answer.dest == peer
    &&& answer.token@ == m.token
    &&& answer.mid.raw == m.id
    &&& answer.ty == m.ty
    &&& answer.request == m.code
    &&& answer.no_response == wanted_answers(m)
}

/// Whatever becomes of a request, what is answered goes to its sender, under its token, about
/// its identifier. A request that is refused for its options is answered with the code of
/// the refusal, and changes nothing of the observers and of what came in of bodies.
pub proof fn law_request_answered<T: DatagramIo, const N: usize>(
    a: Core<T>,
    b: Core<T>,
    site: Site<N>,
    policy: Option<Box<dyn super::echo::EchoPolicy>>,
    m: MessageView,
    peer: Endpoint,
    now_ms: u64,
    res: Result<(), Error<T::Error>>,
)
    requires
        super::serve::request_served(a, b, site, policy, m, peer, now_ms, res),
    ensures
        option_refusal(m) matches Some(r) ==> (exists|answer: Answer|
            answers_request(answer, m, peer) && #[trigger] answered(a, b, answer, r, now_ms, res))
            && b.engine.store.observe == a.engine.store.observe && super::inbound::rx_slots(
            b.engine,
        ) == super::inbound::rx_slots(a.engine),
        option_refusal(m).is_none() ==> exists|answer: Answer, d: EchoDecision|
            {
                &&& #[trigger] answers_request(answer, m, peer)
                &&& #[trigger] super::serve::decided(policy, m, peer, now_ms, d)
                &&& d is Accept ==> super::serve::admitted(a, b, site, m, answer, now_ms, res)
                &&& !(d is Accept) ==> exists|r: ResponseView|
                    r.code == Code::UNAUTHORIZED && #[trigger] answered(
                        a,
                        b,
                        answer,
                        r,
                        now_ms,
                        res,
                    )
            },
{
    match option_refusal(m) {
        Some(r) => {
            let answer = choose|answer: Answer|
                super::serve::for_message(answer, m, peer) && super::serve::bare_answer(
                    answer,
                    super::serve::refused_block(m),
                ) && #[trigger] answered(a, b, answer, r, now_ms, res) && super::inbound::rx_slots(
                    b.engine,
                ) == super::inbound::rx_slots(a.engine) && b.engine.store.observe
                    == a.engine.store.observe;
            assert(answers_request(answer, m, peer));
        },
        None => {
            let (answer, d) = choose|answer: Answer, d: EchoDecision|
                {
                    &&& #[trigger] super::serve::full_answer(answer, m, peer)
                    &&& #[trigger] super::serve::decided(policy, m, peer, now_ms, d)
                    &&& match echo_refusal(d) {
                        Some(r) => answered(a, b, answer, r, now_ms, res)
                            && super::inbound::rx_slots(b.engine) == super::inbound::rx_slots(
                            a.engine,
                        ) && b.engine.store.observe == a.engine.store.observe,
                        None => super::serve::admitted(a, b, site, m, answer, now_ms, res),
                    }
                };
            assert(answers_request(answer, m, peer));
            if d is Accept {
                assert(super::serve::admitted(a, b, site, m, answer, now_ms, res));
            } else {
                let r = echo_refusal(d)->0;
                assert(answered(a, b, answer, r, now_ms, res));
            }
        },
    }
}

/// The answer to a request that is served knows the blocks that the request asks for: the one
/// in Block2, and those selected in Q-Block2 in their order; and the block of an ordered
/// upload that it acknowledges.
pub proof fn law_answer_blocks(answer: Answer, m: MessageView, peer: Endpoint, i: int)
    requires
        super::serve::full_answer(answer, m, peer),
        0 <= i < values_of(m.options, 31).len(),
    ensures
        (match block_option(m.options, 23) {
            Some(Ok(b)) => answer.block2 == Some(b),
            _ => answer.block2.is_none(),
        }),
        (match block_option(m.options, 27) {
            Some(Ok(b)) => answer.block1 matches Some(o) && o.value == b && !o.q_block,
            _ => answer.block1.is_none(),
        }),
        answer.selections@.len() == values_of(m.options, 31).len(),
        crate::message::BlockValue::of_octets(values_of(m.options, 31)[i]) matches Ok(b) && b
            == answer.selections@[i],
{
    assert(super::inbound::selected(m, i) == Ok::<
        crate::message::BlockValue,
        crate::error::ValueError,
    >(answer.selections@[i]));
}

} // verus!
