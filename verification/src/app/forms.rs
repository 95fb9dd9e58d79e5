//! The forms of paths and responses, and what is kept of answers.
use vstd::prelude::*;
use vstd::string::StringSliceAdditionalSpecFns;

use super::answer::{answer_kept, Answer};
use super::dedup::{dedup_place, is_ack_row, oldest, DedupClosed};
use super::path::{
    list_fault, path_pieces, segments_fault, segments_of, sound_segments, strip_slashes, PathError,
};
use super::response::{
    dot_segment, problem_payload, titled_problem, with_etag, with_location_path,
    with_location_query, with_problem_view, ResponseError, ResponseView,
};
use super::send::{room_for_reply, room_made};
use super::site::slashed;
use crate::message::problem::{problem_wire, ProblemView};
use crate::message::{Code, ContentFormat, MessageId, Type};
use crate::storage::endpoint::{Endpoint, KeyView};
use crate::storage::engine::Engine;
use crate::storage::rows::DedupEntry;
use crate::storage::table::{free_row, lemma_find_row, lemma_free_row, Keyed};

verus! {

/// A path as text is split at its slashes, after those at its front are left out: no segment
/// holds a slash, and the segments, each with a slash in front, are the text without the
/// slashes at its front, with one in front again. A path of slashes alone has no segment.
pub proof fn law_path_split(octets: Seq<u8>, k: int)
    requires
        0 <= k <= octets.len(),
        forall|j: int| 0 <= j < k ==> (#[trigger] octets[j]) == 0x2f,
        k < octets.len() ==> octets[k] != 0x2f,
    ensures
        k == octets.len() ==> path_pieces(octets).len() == 0,
        k < octets.len() ==> slashed(path_pieces(octets)) == seq![0x2fu8] + octets.skip(k),
        forall|i: int, j: int|
            0 <= i < path_pieces(octets).len() && 0 <= j < path_pieces(octets)[i].len() ==> (
            #[trigger] path_pieces(octets)[i][j]) != 0x2f,
{
    lemma_stripped(octets, k);
    let rest = strip_slashes(octets);
    assert(rest =~= octets.skip(k));
    if rest.len() > 0 {
        lemma_split(rest);
    }
}

proof fn lemma_stripped(octets: Seq<u8>, k: int)
    requires
        0 <= k <= octets.len(),
        forall|j: int| 0 <= j < k ==> (#[trigger] octets[j]) == 0x2f,
        k < octets.len() ==> octets[k] != 0x2f,
    ensures
        strip_slashes(octets) == octets.skip(k),
    decreases k,
{
    if k > 0 {
        let rest = octets.skip(1);
        assert(octets[0] == 0x2f);
        assert forall|j: int| 0 <= j < k - 1 implies (#[trigger] rest[j]) == 0x2f by {
            assert(rest[j] == octets[j + 1]);
        }
        lemma_stripped(rest, k - 1);
        assert(rest.skip(k - 1) =~= octets.skip(k));
    } else {
        assert(octets.skip(0) =~= octets);
    }
}

proof fn lemma_split(octets: Seq<u8>)
    ensures
        slashed(super::path::split_slashes(octets)) == seq![0x2fu8] + octets,
        forall|i: int, j: int|
            0 <= i < super::path::split_slashes(octets).len() && 0 <= j
                < super::path::split_slashes(octets)[i].len() ==> (
            #[trigger] super::path::split_slashes(octets)[i][j]) != 0x2f,
    decreases octets.len(),
{
    super::path::lemma_slash_at(octets);
    let n = super::path::slash_at(octets);
    let pieces = super::path::split_slashes(octets);
    if n >= octets.len() {
        assert(pieces == seq![octets]);
        reveal_with_fuel(slashed, 2);
        assert(seq![octets].drop_last() =~= Seq::<Seq<u8>>::empty());
        assert(Seq::<u8>::empty() + (seq![0x2fu8] + octets) =~= seq![0x2fu8] + octets);
    } else {
        let head = octets.subrange(0, n);
        let rest = octets.skip(n + 1);
        lemma_split(rest);
        let more = super::path::split_slashes(rest);
        assert(pieces == seq![head] + more);
        super::dealings::law_catalog(
            Seq::empty(),
            Seq::empty(),
            arbitrary(),
            seq![head],
            more,
            head,
        );
        assert(seq![0x2fu8] + head + (seq![0x2fu8] + rest) =~= seq![0x2fu8] + octets);
        assert forall|i: int, j: int| 0 <= i < pieces.len() && 0 <= j < pieces[i].len() implies (
        #[trigger] pieces[i][j]) != 0x2f by {
            if i == 0 {
                assert(pieces[0] == head);
                assert(head[j] == octets[j]);
            } else {
                assert(pieces[i] == more[i - 1]);
                assert(more[i - 1][j] != 0x2f);
            }
        }
    }
}

/// A path as text is accepted exactly if it has no more segments than there is room for, and
/// none of them is empty; what is named is the first fault, going from the front.
pub proof fn law_segments_fault(segs: Seq<Seq<u8>>, cap: int)
    requires
        0 <= cap,
    ensures
        segments_fault(segs, cap).is_none() <==> segs.len() <= cap && forall|i: int|
            0 <= i < segs.len() ==> (#[trigger] segs[i]).len() > 0,
        segments_fault(segs, cap) == Some(PathError::EmptySegment) <==> exists|i: int|
            0 <= i < segs.len() && i <= cap && (#[trigger] segs[i]).len() == 0,
        segments_fault(segs, cap) == Some(PathError::TooLong) <==> segs.len() > cap && forall|i: int|
            0 <= i <= cap ==> (#[trigger] segs[i]).len() > 0,
        segments_fault(segs, cap).is_none() ==> sound_segments(segs, cap) == segs,
    decreases segs.len(),
{
    if segs.len() > 0 {
        let front = segs.drop_last();
        law_segments_fault(front, cap);
        assert forall|i: int| 0 <= i < segs.len() implies #[trigger] segs[i] == if i < front.len() {
            front[i]
        } else {
            segs.last()
        } by {}
        assert forall|i: int| 0 <= i < front.len() implies #[trigger] front[i] == segs[i] by {}
        let last = segs[segs.len() - 1];
    }
}

/// A path as a list is accepted exactly if it has no more segments than there is room for,
/// and none of them is empty; the length is looked at first.
pub proof fn law_list_fault(segs: Seq<Seq<u8>>, cap: int)
    ensures
        list_fault(segs, cap) == Some(PathError::TooLong) <==> segs.len() > cap,
        list_fault(segs, cap) == Some(PathError::EmptySegment) <==> segs.len() <= cap && exists|i: int|
            0 <= i < segs.len() && (#[trigger] segs[i]).len() == 0,
        list_fault(segs, cap).is_none() <==> segs.len() <= cap && forall|i: int|
            0 <= i < segs.len() ==> (#[trigger] segs[i]).len() > 0,
{
}

/// The path of a route or a call has at most eight segments.
pub proof fn law_path_of_text(path: &str)
    ensures
        segments_of(path) matches Ok(segs) ==> segs == path_pieces(path.spec_bytes()) && segs.len()
            <= 8 && forall|i: int| 0 <= i < segs.len() ==> (#[trigger] segs[i]).len() > 0,
        path_pieces(path.spec_bytes()).len() <= 8 && (forall|i: int|
            0 <= i < path_pieces(path.spec_bytes()).len() ==> (#[trigger] path_pieces(
                path.spec_bytes(),
            )[i]).len() > 0) ==> segments_of(path).is_ok(),
{
    law_segments_fault(path_pieces(path.spec_bytes()), 8);
}

/// The payload of problem details is at most 128 bytes: all of them if they fit; else without
/// the detail; else the code alone. A response with a title and no detail says its code and
/// the title, in the format of problem details.
pub proof fn law_problem_payload(code: Code, title: Option<Seq<u8>>, detail: Option<Seq<u8>>)
    ensures
        ({
            let full = problem_wire(ProblemView { code: Some(code), title, detail });
            let short = problem_wire(ProblemView { code: Some(code), title, detail: None });
            let least = problem_wire(ProblemView { code: Some(code), title: None, detail: None });
            let payload = problem_payload(code, title, detail);
            &&& payload.len() <= 128
            &&& full.len() <= 128 ==> payload == full
            &&& full.len() > 128 && short.len() <= 128 ==> payload == short
            &&& full.len() > 128 && short.len() > 128 && least.len() <= 128 ==> payload == least
        }),
{
}

/// A refusal says its code, in the format of problem details; nothing else is set.
pub proof fn law_titled_problem(code: Code, title: Seq<u8>)
    ensures
        titled_problem(code, title).code == code,
        titled_problem(code, title).format == Some(ContentFormat::PROBLEM_DETAILS),
        titled_problem(code, title).fault.is_none(),
        titled_problem(code, title).etag.is_none(),
        titled_problem(code, title).observe.is_none(),
        titled_problem(code, title).max_age.is_none(),
        titled_problem(code, title).echo.is_none(),
        !titled_problem(code, title).separate,
        titled_problem(code, title).payload.len() <= 128,
{
}

/// A title and a detail leave the code and everything else of a response as they are; a
/// format that is set stays.
pub proof fn law_with_problem(
    r: ResponseView,
    title: Option<Seq<u8>>,
    detail: Option<Seq<u8>>,
)
    ensures
        ({
            let then = with_problem_view(r, title, detail);
            &&& then.code == r.code && then.etag == r.etag && then.max_age == r.max_age
                && then.observe == r.observe && then.fault == r.fault
            &&& r.format.is_some() ==> then.format == r.format
            &&& r.format.is_none() ==> then.format == Some(ContentFormat::PROBLEM_DETAILS)
            &&& then.payload == problem_payload(r.code, title, detail)
        }),
{
}

/// What a response may be given: an ETag of 1 to 8 octets; up to eight Location-Path segments
/// of at most 255 octets that are not "." or ".."; up to eight Location-Query values of at
/// most 255 octets. Anything else leaves it as it is, but for a fault; the first fault
/// stays.
pub proof fn law_response_parts(r: ResponseView, octets: Seq<u8>)
    ensures
        1 <= octets.len() <= 8 ==> with_etag(r, octets).etag == Some(octets) && with_etag(
            r,
            octets,
        ).fault == r.fault,
        octets.len() == 0 || octets.len() > 8 ==> with_etag(r, octets).etag == r.etag && with_etag(
            r,
            octets,
        ).fault == (if r.fault.is_some() {
            r.fault
        } else {
            Some(ResponseError::EtagLength)
        }),
        dot_segment(octets) <==> (octets.len() == 1 && octets[0] == 0x2e) || (octets.len() == 2
            && octets[0] == 0x2e && octets[1] == 0x2e),
        !dot_segment(octets) && octets.len() <= 255 && r.location_paths.len() < 8
            ==> with_location_path(r, octets).location_paths == r.location_paths.push(octets)
            && with_location_path(r, octets).fault == r.fault,
        dot_segment(octets) && r.fault.is_none() ==> with_location_path(r, octets).location_paths
            == r.location_paths && with_location_path(r, octets).fault == Some(
            ResponseError::LocationDotSegment,
        ),
        !dot_segment(octets) && (octets.len() > 255 || r.location_paths.len() >= 8)
            && r.fault.is_none() ==> with_location_path(r, octets).location_paths
            == r.location_paths && with_location_path(r, octets).fault == Some(
            ResponseError::LocationPathBounds,
        ),
        octets.len() <= 255 && r.location_queries.len() < 8 ==> with_location_query(
            r,
            octets,
        ).location_queries == r.location_queries.push(octets),
        (octets.len() > 255 || r.location_queries.len() >= 8) && r.fault.is_none()
            ==> with_location_query(r, octets).location_queries == r.location_queries
            && with_location_query(r, octets).fault == Some(ResponseError::LocationQueryBounds),
        r.fault.is_some() ==> with_location_path(r, octets).fault == r.fault && with_location_query(
            r,
            octets,
        ).fault == r.fault,
{
    if octets.len() == 1 && octets[0] == 0x2e {
        assert(octets =~= seq![0x2eu8]);
    }
    if octets.len() == 2 && octets[0] == 0x2e && octets[1] == 0x2e {
        assert(octets =~= seq![0x2eu8, 0x2eu8]);
    }
}

/// The answer that gives way first is the one whose time comes first, the first of them if
/// there are several; if told so, among those only that are kept in an outgoing slot. One
/// without a time never does.
pub proof fn law_oldest(rows: Seq<Option<DedupEntry>>, pinned_only: bool)
    ensures
        oldest(rows, pinned_only) matches Some(i) ==> 0 <= i < rows.len() && rows[i].is_some()
            && rows[i]->0.due_ms > 0 && (pinned_only ==> rows[i]->0.tx_pin.is_some()) && forall|
            j: int,
        |
            0 <= j < rows.len() && (#[trigger] rows[j]).is_some() && rows[j]->0.due_ms > 0 && (
            pinned_only ==> rows[j]->0.tx_pin.is_some()) ==> rows[i]->0.due_ms < rows[j]->0.due_ms
                || (rows[i]->0.due_ms == rows[j]->0.due_ms && i <= j),
        oldest(rows, pinned_only).is_none() ==> forall|j: int|
            0 <= j < rows.len() && (#[trigger] rows[j]).is_some() ==> rows[j]->0.due_ms == 0 || (
            pinned_only && rows[j]->0.tx_pin.is_none()),
    decreases rows.len(),
{
    if rows.len() > 0 {
        let front = rows.drop_last();
        law_oldest(front, pinned_only);
        assert forall|j: int| 0 <= j < rows.len() implies #[trigger] rows[j] == if j < front.len() {
            front[j]
        } else {
            rows.last()
        } by {}
    }
}

/// A new answer takes the place of the one to the same request, else a free row, else the
/// row of the one whose time comes first.
pub proof fn law_answer_place(rows: Seq<Option<DedupEntry>>, key: KeyView)
    ensures
        (exists|i: int|
            0 <= i < rows.len() && ((#[trigger] rows[i]) matches Some(d) && d.row_key() == key))
            ==> (dedup_place(rows, key) matches Some(i) && 0 <= i < rows.len() && (rows[i]
            matches Some(d) && d.row_key() == key)),
        (forall|i: int|
            0 <= i < rows.len() ==> !((#[trigger] rows[i]) matches Some(d) && d.row_key() == key))
            && (exists|i: int| 0 <= i < rows.len() && (#[trigger] rows[i]).is_none()) ==> (
        dedup_place(rows, key) matches Some(i) && 0 <= i < rows.len() && rows[i].is_none()),
        (forall|i: int|
            0 <= i < rows.len() ==> ((#[trigger] rows[i]) matches Some(d) && d.row_key() != key))
            ==> dedup_place(rows, key) == oldest(rows, false),
{
    lemma_find_row(rows, key);
    lemma_free_row(rows);
}

/// The answer to a confirmable request is kept under the identifier and the peer of the
/// request until 247 seconds from now: one of up to 128 bytes in its row, a longer one in
/// the outgoing slot that it was sent from. The answer to another request is not kept.
pub proof fn law_answer_is_kept(
    a: Engine,
    b: Engine,
    closed: Option<DedupClosed>,
    closed_then: Option<DedupClosed>,
    answer: Answer,
    bytes: Seq<u8>,
    now_ms: u64,
    ok: bool,
)
    requires
        answer_kept(a, b, closed, closed_then, answer, bytes, now_ms, ok),
        now_ms <= 0x1_0000_0000_0000,
    ensures
        answer.ty != Type::Confirmable ==> b.store.dedup.rows@ == a.store.dedup.rows@
            && closed_then == closed,
        answer.ty == Type::Confirmable && (exists|i: int|
            0 <= i < a.store.dedup.rows@.len() && (#[trigger] a.store.dedup.rows@[i]).is_none())
            ==> exists|i: int|
            0 <= i < b.store.dedup.rows@.len() && ((#[trigger] b.store.dedup.rows@[i]) matches Some(
                d,
            ) && d.mid == answer.mid && d.peer == answer.dest && d.due_ms == now_ms + 247000 && (
            bytes.len() <= 128 ==> (d.replay matches Some(kept) && kept@ == bytes)) && (bytes.len()
                > 128 ==> d.replay.is_none() && (d.tx_pin matches Some(id) && (b.store.tx.slots@[
                id.at as int
            ] matches Some(s) && s.bytes@ == bytes && s.peer == Some(answer.dest))))),
{
    let rows = a.store.dedup.rows@;
    let key = crate::storage::engine::dedup_key(answer.key());
    if answer.ty == Type::Confirmable && exists|i: int|
        0 <= i < rows.len() && (#[trigger] rows[i]).is_none() {
        lemma_find_row(rows, key);
        lemma_free_row(rows);
        let at = dedup_place(rows, key)->0;
        assert(dedup_place(rows, key).is_some());
        assert(b.store.dedup.rows@[at].is_some());
    }
}

/// An answer that is no longer kept in its slot becomes an empty acknowledgement of the same
/// request, with the same time.
pub proof fn law_shortened_answer(
    row: DedupEntry,
    mid: MessageId,
    peer: Endpoint,
    due_ms: u64,
)
    requires
        is_ack_row(row, mid, peer, due_ms),
    ensures
        row.mid == mid && row.peer == peer && row.due_ms == due_ms && row.tx_pin.is_none(),
        row.replay matches Some(b) && b@ == seq![
            0x60u8,
            0u8,
            (mid.raw / 256) as u8,
            (mid.raw % 256) as u8,
        ],
{
    super::dealings::law_empty_messages(mid);
}

/// There is room for an answer if an outgoing slot is free, or if one is taken by an answer
/// that may give way. An answer gives way only if no slot is free.
pub proof fn law_room_for_answer(a: Engine, b: Engine)
    requires
        room_made(a, b),
    ensures
        room_for_reply(a) <==> (exists|i: int|
            0 <= i < a.store.tx.slots@.len() && (#[trigger] a.store.tx.slots@[i]).is_none()) || (
        exists|i: int|
            0 <= i < a.store.dedup.rows@.len() && ((#[trigger] a.store.dedup.rows@[i]) matches Some(
                d,
            ) && d.due_ms > 0 && d.tx_pin.is_some())),
        (exists|i: int|
            0 <= i < a.store.tx.slots@.len() && (#[trigger] a.store.tx.slots@[i]).is_none()) ==> b
            == a,
{
    lemma_free_row(a.store.tx.slots@);
    law_oldest(a.store.dedup.rows@, true);
    match free_row(a.store.tx.slots@) {
        Some(i) => {
            assert(a.store.tx.slots@[i].is_none());
        },
        None => {},
    }
    match oldest(a.store.dedup.rows@, true) {
        Some(i) => {
            assert(a.store.dedup.rows@[i].is_some());
        },
        None => {},
    }
}

/// A response whose options do not fit goes out as 5.00 instead, under the same type,
/// identifier and token.
pub proof fn law_options_full(
    r: ResponseView,
    ty: Type,
    mid: u16,
    token: Seq<u8>,
    payload: Seq<u8>,
)
    requires
        r.location_paths.len() + r.location_queries.len() > 24,
    ensures
        ({
            let m = super::reply::reply_message(r, ty, mid, token, payload, None, None);
            m.code == Code::INTERNAL_SERVER_ERROR && m.ty == ty && m.id == mid && m.token == token
        }),
{
}

/// The message of a response has its code, its options and the given payload, under the given
/// type, identifier and token, if it has at most 24 options.
pub proof fn law_response_message(
    r: ResponseView,
    ty: Type,
    mid: u16,
    token: Seq<u8>,
    payload: Seq<u8>,
)
    requires
        r.location_paths.len() + r.location_queries.len() <= 16,
    ensures
        ({
            let m = super::reply::reply_message(r, ty, mid, token, payload, None, None);
            m.code == r.code && m.ty == ty && m.id == mid && m.token == token && m.payload
                == payload && m.options == super::reply::reply_options(r, None, None)
        }),
{
}

/// A catalog that fits is written whole.
pub proof fn law_catalog_written(entries: Seq<super::site::Entry>, room: int)
    requires
        super::site::catalog_of(entries).len() <= room,
    ensures
        super::site::catalog_written(entries, room) == super::site::catalog_of(entries),
    decreases entries.len(),
{
    if entries.len() > 0 {
        let front = entries.drop_last();
        let link = super::site::link_of(super::path::texts_of(entries.last().path@));
        if entries.len() == 1 {
            assert(front.len() == 0);
            law_catalog_written(front, room);
            assert(super::site::catalog_of(front) =~= Seq::<u8>::empty());
            assert(super::site::catalog_written(front, room) + link =~= link);
        } else {
            law_catalog_written(front, room);
            let p = super::site::catalog_of(front);
            assert(p.push(0x2cu8) + link =~= p + (seq![0x2cu8] + link));
        }
    }
}

/// A reply that is fetched is gone: it waits no more, its body is let go, and so is its call,
/// unless that observes.
pub proof fn law_reply_gone<T>(
    a: super::reactor::Core<T>,
    b: super::reactor::Core<T>,
    call: super::calls::Call,
    i: int,
)
    requires
        super::api::reply_gone(a, b, call),
        a.inbox.wf(),
        a.lives.wf(),
        0 <= i < 4,
    ensures
        !(b.inbox.rows.rows@[i] matches Some(row) && row.call.key() == call.key()),
        !super::ending::observing(a.engine, call) ==> !(b.lives.rows.rows@[i] matches Some(l)
            && l.call.key() == call.key()),
        super::ending::observing(a.engine, call) ==> b.lives.rows.rows@ == a.lives.rows.rows@,
        (a.inbox.rows.rows@[i] matches Some(row) && row.call.key() != call.key())
            ==> b.inbox.rows.rows@[i] == a.inbox.rows.rows@[i],
        b.port == a.port,
{
    lemma_removed(a.inbox.rows.rows@, call.key(), i);
    lemma_removed(a.lives.rows.rows@, call.key(), i);
}

proof fn lemma_removed<R: Keyed>(rows: Seq<Option<R>>, key: KeyView, i: int)
    requires
        crate::storage::table::unique_keys(rows),
        0 <= i < rows.len(),
    ensures
        !(crate::storage::table::without(rows, key)[i] matches Some(r) && r.row_key() == key),
        (rows[i] matches Some(r) && r.row_key() != key) ==> crate::storage::table::without(
            rows,
            key,
        )[i] == rows[i],
{
    lemma_find_row(rows, key);
    match crate::storage::table::find_row(rows, key) {
        Some(j) => {
            if rows[i].is_some() {
                if i < j {
                    assert(rows[i]->0.row_key() != rows[j]->0.row_key());
                } else if j < i {
                    assert(rows[j]->0.row_key() != rows[i]->0.row_key());
                }
            }
        },
        None => {},
    }
}

/// The bounds of an app: paths of 8 segments; payloads of 128 bytes that are copied, bodies
/// of 4096; 8 locations of each kind; 4 calls; 24 options and 512 octets of a response, 512
/// octets of a request that observes; 26 options of a request; answers of 128 bytes that are
/// kept apart from a slot.
pub proof fn law_bounds()
    ensures
        super::path::MAX_PATH_SEGMENTS == 8,
        super::response::INLINE_PAYLOAD == 128,
        super::response::RESPONSE_BODY == 4096,
        super::response::LOCATION_MAX == 8,
        super::calls::RESPONSE_INBOX == 4,
        super::calls::RESPONSE_OPTION_COUNT == 24,
        super::calls::RESPONSE_OPTION_BYTES == 512,
        super::calls::OBSERVE_REQUEST_BYTES == 512,
        super::outbound::CLIENT_OPTION_SLOTS == 26,
        super::reply::REPLY_OPTIONS == 24,
        super::site::DEFAULT_ROUTES == 8,
        super::site::LINK_FORMAT_PER_ROUTE == 24,
        super::notify::DEFAULT_MAX_AGE_SECS == 60,
        DedupEntry::REPLAY_MAX == 128,
{
}

} // verus!
