//! Calls and their outcomes.
use coaptic::app::{fetch, get, ipatch, patch, put, App, Error, Method, Request, Response, INLINE_PAYLOAD, RESPONSE_BODY};
use coaptic::message::{decode, encode, BlockValue, Code, ContentFormat, Message, MessageId, Opt, OptionsBuilder, Token, Transmission, Type};
use coaptic::storage::{DatagramIo, Endpoint, ExchangeKey, MemoryProfile, ObserveKey};
use coaptic::profiles;

const LARGE: [u8; 2000] = [b'A'; 2000];

const WIRE: usize = 1472;

fn get_temp(_req: Request<'_>) -> Response<'static> {
    Response::content(b"21.5").content_format(ContentFormat::TEXT_PLAIN)
}

fn get_led(_: Request<'_>) -> Response<'static> {
    // Demo payload. Real LED state is firmware-owned, not an App bag.
    Response::content(b"off")
}

fn put_body(req: Request<'_>) -> Response<'static> {
    if req.has_body() {
        Response::changed().payload_copy(req.body().unwrap_or(&[]))
    } else {
        Response::changed().payload_copy(req.payload())
    }
}

fn fetch_query(req: Request<'_>) -> Response<'static> {
    assert_eq!(req.method(), Some(Method::Fetch));
    Response::content_copy(req.payload()).content_format(ContentFormat::TEXT_PLAIN)
}

fn patch_doc(req: Request<'_>) -> Response<'static> {
    assert_eq!(req.method(), Some(Method::Patch));
    Response::changed().payload_copy(req.payload())
}

fn ipatch_doc(req: Request<'_>) -> Response<'static> {
    assert_eq!(req.method(), Some(Method::IPatch));
    // Distinct from PATCH so a shared handler cannot green both methods.
    Response::changed().payload_copy(b"idempotent")
}

fn put_large(req: Request<'_>) -> Response<'static> {
    if req.body() == Some(&LARGE[..]) {
        Response::changed()
    } else {
        Response::new(Code::BAD_REQUEST)
    }
}

fn get_large(_: Request<'_>) -> Response<'static> {
    Response::content(&LARGE)
        .content_format(ContentFormat::OCTET_STREAM)
        .etag(b"large-v1")
}

fn get_obs(_req: Request<'_>) -> Response<'static> {
    Response::content(b"obs-0")
        .content_format(ContentFormat::TEXT_PLAIN)
        .max_age(5)
        .observe(0)
}

/// Captures more than one TX datagram so a separate ACK + CON, or a CON
/// retransmit, can be checked. Send is not delivered to `recv` (the caller
/// injects inbox, or leaves it empty to model loss).
#[derive(Default)]
struct RecordIo {
    inbox: Option<(Endpoint, [u8; 256], usize)>,
    sent: [Option<(Endpoint, [u8; 256], usize)>; 8],
    sent_n: usize,
}

impl DatagramIo for RecordIo {
    type Error = &'static str;

    fn recv(&mut self, buf: &mut [u8]) -> Result<Option<(usize, Endpoint)>, Self::Error> {
        let Some((ep, bytes, n)) = self.inbox.take() else {
            return Ok(None);
        };
        if n > buf.len() {
            return Err("short buf");
        }
        buf[..n].copy_from_slice(&bytes[..n]);
        Ok(Some((n, ep)))
    }

    fn send(&mut self, dest: Endpoint, bytes: &[u8]) -> Result<usize, Self::Error> {
        if bytes.len() > 256 {
            return Err("too long");
        }
        if self.sent_n >= self.sent.len() {
            return Err("full");
        }
        let mut slot = [0u8; 256];
        slot[..bytes.len()].copy_from_slice(bytes);
        self.sent[self.sent_n] = Some((dest, slot, bytes.len()));
        self.sent_n += 1;
        Ok(bytes.len())
    }
}

struct BlockReq<'a> {
    code: Code,
    path: &'a [&'a str],
    payload: &'a [u8],
    num: u32,
    more: bool,
    size: u16,
    mid: u16,
    size1: Option<u32>,
    q_block: bool,
}

const LED_PATH: &[&str] = &["leds", "0"];

fn q_block1(payload: &[u8], num: u32, more: bool, mid: u16, size1: u32) -> BlockReq<'_> {
    BlockReq {
        code: Code::PUT,
        path: LED_PATH,
        payload,
        num,
        more,
        size: 16,
        mid,
        size1: Some(size1),
        q_block: true,
    }
}

/// Send writes into recv so one App is both client and server.
#[derive(Default)]
struct Echo {
    pending: Option<(Endpoint, [u8; 256], usize)>,
}

impl DatagramIo for Echo {
    type Error = &'static str;

    fn recv(&mut self, buf: &mut [u8]) -> Result<Option<(usize, Endpoint)>, Self::Error> {
        let Some((ep, bytes, n)) = self.pending.take() else {
            return Ok(None);
        };
        if n > buf.len() {
            return Err("short buf");
        }
        buf[..n].copy_from_slice(&bytes[..n]);
        Ok(Some((n, ep)))
    }

    fn send(&mut self, dest: Endpoint, bytes: &[u8]) -> Result<usize, Self::Error> {
        if bytes.len() > 256 {
            return Err("too long");
        }
        let mut slot = [0u8; 256];
        slot[..bytes.len()].copy_from_slice(bytes);
        self.pending = Some((dest, slot, bytes.len()));
        Ok(bytes.len())
    }
}

fn echo_app() -> App<profiles::Default, Echo, 8, false> {
    App::profile::<profiles::Default>()
        .deterministic_for_tests()
        .block_wise::<false>()
        .route(&["sensors", "temp"], get(get_temp))
        .route(&["leds", "0"], get(get_led).put(put_body))
        .bind(Echo::default())
        .expect("bind")
}

fn echo_rfc8132_app() -> App<profiles::Default, Echo, 8, false> {
    App::profile::<profiles::Default>()
        .deterministic_for_tests()
        .block_wise::<false>()
        .route(&["query"], fetch(fetch_query))
        .route(&["delta"], patch(patch_doc))
        .route(&["idem"], ipatch(ipatch_doc))
        .bind(Echo::default())
        .expect("bind")
}

fn client_rfc8132_round_trip(
    send: impl FnOnce(&mut App<profiles::Default, Echo, 8, false>, Endpoint) -> coaptic::Call,
    expect_code: Code,
    expect_payload: &[u8],
) {
    let peer = Endpoint::v4([192, 0, 2, 2], 5683);
    let mut app = echo_rfc8132_app();
    let call = send(&mut app, peer);
    app.poll(0).expect("server handle");
    app.poll(0).expect("client match");
    let response = app
        .take_response(call)
        .expect("matched")
        .expect("remote response");
    assert_eq!(response.code(), expect_code);
    assert_eq!(response.payload(), expect_payload);
    assert_eq!(response.token(), Some(call.token()));
    assert_eq!(response.peer(), Some(peer));
    assert!(app.take_response(call).is_none());
    assert_eq!(app.engine_mut().rx_occupied(), 0);
    assert_eq!(app.engine_mut().tx_occupied(), 0);
}

fn get_tagged(_: Request<'_>) -> Response<'static> {
    Response::valid().etag(b"etag1")
}

/// Send queues into recv so one App is both client and server (Block2 / Q-Block2).
#[derive(Default)]
struct Pipe {
    slots: [Option<(Endpoint, [u8; WIRE], usize)>; 8],
    head: usize,
    len: usize,
}

impl DatagramIo for Pipe {
    type Error = &'static str;

    fn recv(&mut self, buf: &mut [u8]) -> Result<Option<(usize, Endpoint)>, Self::Error> {
        if self.len == 0 {
            return Ok(None);
        }
        let i = self.head;
        let Some((ep, bytes, n)) = self.slots[i].take() else {
            return Ok(None);
        };
        self.head = (self.head + 1) % self.slots.len();
        self.len -= 1;
        if n > buf.len() {
            return Err("short buf");
        }
        buf[..n].copy_from_slice(&bytes[..n]);
        Ok(Some((n, ep)))
    }

    fn send(&mut self, dest: Endpoint, bytes: &[u8]) -> Result<usize, Self::Error> {
        if bytes.len() > WIRE {
            return Err("too long");
        }
        if self.len >= self.slots.len() {
            return Err("pipe full");
        }
        let i = (self.head + self.len) % self.slots.len();
        let mut slot = [0u8; WIRE];
        slot[..bytes.len()].copy_from_slice(bytes);
        self.slots[i] = Some((dest, slot, bytes.len()));
        self.len += 1;
        Ok(bytes.len())
    }
}

fn pipe_app() -> App<profiles::Default, Pipe, 8, true> {
    App::profile::<profiles::Default>()
        .deterministic_for_tests()
        .block_wise::<true>()
        .route(&["large"], get(get_large))
        .route(&["upload"], put(put_large))
        .bind(Pipe::default())
        .expect("bind")
}

struct Taken {
    code: Code,
    format: Option<ContentFormat>,
    token: Option<Token>,
    peer: Option<Endpoint>,
    has_body: bool,
    body: [u8; RESPONSE_BODY],
    body_len: usize,
}

fn poll_until_response(
    app: &mut App<profiles::Default, Pipe, 8, true>,
    call: coaptic::Call,
) -> Taken {
    for t in 0u64..16 {
        app.poll(t).expect("poll");
        if let Some(response) = app.take_response(call) {
            let response = response.expect("remote response");
            let mut body = [0u8; RESPONSE_BODY];
            let (has_body, body_len) = match response.body() {
                Some(src) => {
                    body[..src.len()].copy_from_slice(src);
                    (true, src.len())
                }
                None => (false, 0),
            };
            return Taken {
                code: response.code(),
                format: response.format(),
                token: response.token(),
                peer: response.peer(),
                has_body,
                body,
                body_len,
            };
        }
    }
    panic!("client block-wise exchange did not complete");
}

fn echo_obs_app() -> App<profiles::Default, Echo, 8, false> {
    App::profile::<profiles::Default>()
        .deterministic_for_tests()
        .block_wise::<false>()
        .route(&["sensors", "temp"], get(get_obs))
        .bind(Echo::default())
        .expect("bind")
}

fn client_observe_live(app: &App<profiles::Default, Echo, 8, false>, call: coaptic::Call) -> bool {
    let key = ObserveKey::new_client(call.token(), call.peer());
    app.engine().lookup_observe(key).is_some()
}

fn record_client() -> App<profiles::Default, RecordIo, 8, false> {
    App::profile::<profiles::Default>()
        .deterministic_for_tests()
        .block_wise::<false>()
        .bind(RecordIo::default())
        .expect("bind")
}

fn inject_piggyback_ack(
    app: &mut App<profiles::Default, RecordIo, 8, false>,
    peer: Endpoint,
    mid: MessageId,
    token: Token,
    payload: &[u8],
) {
    let cf = ContentFormat::TEXT_PLAIN.encode();
    let mut opts = OptionsBuilder::<4>::new();
    opts.push(Opt::content_format(&cf)).expect("cf");
    let ack = Message::new(Type::Acknowledgement, Code::CONTENT, mid)
        .with_token(token)
        .with_options(opts.as_slice())
        .with_payload(payload);
    let mut buf = [0u8; 256];
    let n = encode(&ack, &mut buf).expect("ack");
    app.transport_mut().inbox = Some((peer, buf, n));
}

fn inject_separate_con(
    app: &mut App<profiles::Default, RecordIo, 8, false>,
    peer: Endpoint,
    mid: MessageId,
    token: Token,
    payload: &[u8],
) {
    let cf = ContentFormat::TEXT_PLAIN.encode();
    let mut opts = OptionsBuilder::<4>::new();
    opts.push(Opt::content_format(&cf)).expect("cf");
    let con = Message::new(Type::Confirmable, Code::CONTENT, mid)
        .with_token(token)
        .with_options(opts.as_slice())
        .with_payload(payload);
    let mut buf = [0u8; 256];
    let n = encode(&con, &mut buf).expect("separate");
    app.transport_mut().inbox = Some((peer, buf, n));
}

fn client_exchange_live(app: &App<profiles::Default, RecordIo, 8, false>, call: coaptic::Call) -> bool {
    let key = ExchangeKey::new(call.token(), call.peer());
    app.engine().lookup_exchange(key).is_some()
}

fn inject_empty(app: &mut App<profiles::Default, RecordIo, 8, false>, peer: Endpoint, msg: Message<'_>) {
    let mut buf = [0u8; 256];
    let n = encode(&msg, &mut buf).expect("empty");
    app.transport_mut().inbox = Some((peer, buf, n));
}

#[test]
fn client_get_round_trip_without_slot_id() {
    let peer = Endpoint::v4([192, 0, 2, 2], 5683);
    let mut app = echo_app();
    let call = app
        .get(&["sensors", "temp"])
        .to(peer)
        .send(0)
        .expect("send");
    assert!(app.take_response(call).is_none());
    app.poll(0).expect("server handle");
    assert!(app.take_response(call).is_none());
    app.poll(0).expect("client match");
    let response = app
        .take_response(call)
        .expect("matched")
        .expect("remote response");
    assert_eq!(response.code(), Code::CONTENT);
    assert_eq!(response.payload(), b"21.5");
    assert!(!response.payload_truncated());
    assert_eq!(response.payload_src_len(), 4);
    assert!(response.body().is_none());
    assert_eq!(response.format(), Some(ContentFormat::TEXT_PLAIN));
    assert_eq!(response.token(), Some(call.token()));
    assert_eq!(response.peer(), Some(peer));
    assert_eq!(response.ty(), Some(Type::Acknowledgement));
    assert!(app.take_response(call).is_none());
    assert_eq!(app.engine_mut().rx_occupied(), 0);
    assert_eq!(app.engine_mut().tx_occupied(), 0);
}

#[test]
fn client_take_response_truncates_non_block_payload_at_inline() {
    let peer = Endpoint::v4([192, 0, 2, 2], 5683);
    let mut app = record_client();
    let call = app
        .get(&["sensors", "temp"])
        .to(peer)
        .send(0)
        .expect("send");
    let (mid, token) = {
        let (_, bytes, n) = app.transport().sent[0].expect("first");
        let first = decode(&bytes[..n]).expect("decode first");
        (first.message_id(), first.token())
    };
    let payload = [b'x'; 200];
    inject_piggyback_ack(&mut app, peer, mid, token, &payload);
    app.poll(0).expect("match");
    let response = app
        .take_response(call)
        .expect("matched")
        .expect("remote response");
    assert_eq!(response.code(), Code::CONTENT);
    assert_eq!(response.payload().len(), INLINE_PAYLOAD);
    assert_eq!(response.payload(), &payload[..INLINE_PAYLOAD]);
    assert!(response.payload_truncated());
    assert_eq!(response.payload_src_len(), 200);
    assert!(
        response.body().is_none(),
        "datagram App has no Block2 assembled hold"
    );
}

#[test]
fn client_take_response_inline_payload_exact_is_not_truncated() {
    let peer = Endpoint::v4([192, 0, 2, 2], 5683);
    let mut app = record_client();
    let call = app
        .get(&["sensors", "temp"])
        .to(peer)
        .send(0)
        .expect("send");
    let (mid, token) = {
        let (_, bytes, n) = app.transport().sent[0].expect("first");
        let first = decode(&bytes[..n]).expect("decode first");
        (first.message_id(), first.token())
    };
    let payload = [b'y'; INLINE_PAYLOAD];
    inject_piggyback_ack(&mut app, peer, mid, token, &payload);
    app.poll(0).expect("match");
    let response = app
        .take_response(call)
        .expect("matched")
        .expect("remote response");
    assert_eq!(response.payload(), &payload);
    assert!(!response.payload_truncated());
    assert_eq!(response.payload_src_len(), INLINE_PAYLOAD);
}

#[test]
fn client_put_round_trip_without_slot_id() {
    let peer = Endpoint::v4([192, 0, 2, 2], 5683);
    let mut app = echo_app();
    let call = app
        .put(&["leds", "0"])
        .to(peer)
        .payload(b"on")
        .content_format(ContentFormat::TEXT_PLAIN)
        .send(0)
        .expect("send");
    app.poll(0).expect("server handle");
    app.poll(0).expect("client match");
    let response = app
        .take_response(call)
        .expect("matched")
        .expect("remote response");
    assert_eq!(response.code(), Code::CHANGED);
    assert_eq!(response.payload(), b"on");
    assert_eq!(app.engine_mut().rx_occupied(), 0);
    assert_eq!(app.engine_mut().tx_occupied(), 0);
}

#[test]
fn client_fetch_round_trip_without_slot_id() {
    client_rfc8132_round_trip(
        |app, peer| {
            app.fetch(&["query"])
                .to(peer)
                .payload(b"sel")
                .content_format(ContentFormat::TEXT_PLAIN)
                .send(0)
                .expect("send")
        },
        Code::CONTENT,
        b"sel",
    );
}

#[test]
fn client_patch_round_trip_without_slot_id() {
    client_rfc8132_round_trip(
        |app, peer| {
            app.patch(&["delta"])
                .to(peer)
                .payload(b"delta")
                .send(0)
                .expect("send")
        },
        Code::CHANGED,
        b"delta",
    );
}

#[test]
fn client_ipatch_round_trip_without_slot_id() {
    client_rfc8132_round_trip(
        |app, peer| {
            app.ipatch(&["idem"])
                .to(peer)
                .payload(b"delta")
                .send(0)
                .expect("send")
        },
        Code::CHANGED,
        b"idempotent",
    );
}

#[test]
fn client_non_get_matches() {
    let peer = Endpoint::v4([192, 0, 2, 2], 5683);
    let mut app = echo_app();
    let call = app
        .get(&["sensors", "temp"])
        .to(peer)
        .non()
        .send(0)
        .expect("send");
    app.poll(0).expect("server handle");
    app.poll(0).expect("client match");
    let response = app
        .take_response(call)
        .expect("matched")
        .expect("remote response");
    assert_eq!(response.code(), Code::CONTENT);
    assert_eq!(response.payload(), b"21.5");
    assert_eq!(response.ty(), Some(Type::NonConfirmable));
}

#[test]
fn client_get_sends_query_accept_etag_if_match_and_block2() {
    let peer = Endpoint::v4([192, 0, 2, 2], 5683);
    let mut app = App::profile::<profiles::Default>()
        .deterministic_for_tests()
        .block_wise::<false>()
        .bind(RecordIo::default())
        .expect("bind");
    let block = BlockValue::from_size(0, false, 64).expect("szx");
    let _call = app
        .get("query")
        .to(peer)
        .query("first=1")
        .query("second=2")
        .accept(ContentFormat::TEXT_PLAIN)
        .etag(b"etag1")
        .if_match(b"etag1")
        .if_none_match()
        .block2(block)
        .send(0)
        .expect("send");
    assert_eq!(app.transport().sent_n, 1);
    let (_, bytes, n) = app.transport().sent[0].expect("tx");
    let parsed = decode(&bytes[..n]).expect("decode");
    assert_eq!(parsed.code(), Code::GET);
    let mut queries = parsed.uri_query().into_iter();
    assert_eq!(queries.next().and_then(Result::ok), Some("first=1"));
    assert_eq!(queries.next().and_then(Result::ok), Some("second=2"));
    assert!(queries.next().is_none());
    assert_eq!(
        parsed.accept().and_then(Result::ok),
        Some(ContentFormat::TEXT_PLAIN)
    );
    assert_eq!(parsed.etag().into_iter().next(), Some(&b"etag1"[..]));
    assert_eq!(parsed.if_match().into_iter().next(), Some(&b"etag1"[..]));
    assert!(parsed.if_none_match());
    let b2 = parsed.block2().and_then(Result::ok).expect("block2");
    assert_eq!(b2.num(), 0);
    assert!(!b2.more());
    assert_eq!(b2.size(), 64);
}

#[test]
fn client_full_path_query_and_extras_all_on_wire() {
    let peer = Endpoint::v4([192, 0, 2, 2], 5683);
    let mut app = App::profile::<profiles::Default>()
        .deterministic_for_tests()
        .block_wise::<false>()
        .bind(RecordIo::default())
        .expect("bind");
    let block = BlockValue::from_size(0, false, 64).expect("szx");
    let path = ["s0", "s1", "s2", "s3", "s4", "s5", "s6", "s7"];
    let _call = app
        .get(&path)
        .to(peer)
        .query("a=0")
        .query("a=1")
        .query("a=2")
        .query("a=3")
        .query("a=4")
        .query("a=5")
        .query("a=6")
        .query("a=7")
        .accept(ContentFormat::TEXT_PLAIN)
        .etag(b"etag1")
        .if_match(b"etag1")
        .if_none_match()
        .block2(block)
        .send(0)
        .expect("send");
    assert_eq!(app.transport().sent_n, 1);
    let (_, bytes, n) = app.transport().sent[0].expect("tx");
    let parsed = decode(&bytes[..n]).expect("decode");
    assert_eq!(parsed.code(), Code::GET);
    let mut segs = parsed.uri_path().into_iter();
    for want in path {
        assert_eq!(segs.next().and_then(Result::ok), Some(want));
    }
    assert!(segs.next().is_none());
    let mut queries = parsed.uri_query().into_iter();
    for i in 0..8 {
        let want = match i {
            0 => "a=0",
            1 => "a=1",
            2 => "a=2",
            3 => "a=3",
            4 => "a=4",
            5 => "a=5",
            6 => "a=6",
            _ => "a=7",
        };
        assert_eq!(queries.next().and_then(Result::ok), Some(want));
    }
    assert!(queries.next().is_none());
    assert_eq!(
        parsed.accept().and_then(Result::ok),
        Some(ContentFormat::TEXT_PLAIN)
    );
    assert_eq!(parsed.etag().into_iter().next(), Some(&b"etag1"[..]));
    assert_eq!(parsed.if_match().into_iter().next(), Some(&b"etag1"[..]));
    assert!(parsed.if_none_match());
    assert!(parsed.block2().and_then(Result::ok).is_some());
}

#[test]
fn client_take_response_copies_etag() {
    let peer = Endpoint::v4([192, 0, 2, 2], 5683);
    let mut app = App::profile::<profiles::Default>()
        .deterministic_for_tests()
        .block_wise::<false>()
        .route(&["validate"], get(get_tagged))
        .bind(Echo::default())
        .expect("bind");
    let call = app.get("validate").to(peer).send(0).expect("send");
    app.poll(0).expect("server");
    app.poll(0).expect("client");
    let response = app
        .take_response(call)
        .expect("matched")
        .expect("remote response");
    assert_eq!(response.code(), Code::VALID);
    assert_eq!(response.etag_bytes(), Some(&b"etag1"[..]));
}

#[test]
fn client_get_unknown_path_is_problem_details() {
    let peer = Endpoint::v4([192, 0, 2, 2], 5683);
    let mut app = echo_app();
    let call = app.get(&["nope"]).to(peer).send(0).expect("send");
    app.poll(0).expect("server handle");
    app.poll(0).expect("client match");
    let response = app
        .take_response(call)
        .expect("matched")
        .expect("remote response");
    assert_eq!(response.code(), Code::NOT_FOUND);
    let details = response.problem_details().expect("cbor");
    assert_eq!(details.response_code(), Some(Code::NOT_FOUND));
    assert_eq!(details.title_text(), Some("Not Found"));
}

#[test]
fn client_path_too_long_is_error() {
    let peer = Endpoint::v4([192, 0, 2, 2], 5683);
    let mut app = echo_app();
    let err = app
        .get(&["a", "b", "c", "d", "e", "f", "g", "h", "too-many"])
        .to(peer)
        .send(0)
        .expect_err("path");
    assert_eq!(err, Error::Path);
}

#[test]
fn client_get_block2_assembles_body_without_slot_id() {
    let peer = Endpoint::v4([192, 0, 2, 2], 5683);
    let mut app = pipe_app();
    let call = app.get(&["large"]).to(peer).send(0).expect("send");
    let response = poll_until_response(&mut app, call);
    assert_eq!(response.code, Code::CONTENT);
    assert_eq!(response.format, Some(ContentFormat::OCTET_STREAM));
    assert!(response.has_body);
    assert_eq!(&response.body[..response.body_len], &LARGE[..]);
    assert_eq!(response.token, Some(call.token()));
    assert_eq!(response.peer, Some(peer));
    assert!(app.take_response(call).is_none());
    assert_eq!(app.engine_mut().rx_occupied(), 0);
    assert_eq!(app.engine_mut().tx_occupied(), 0);
}

#[test]
fn client_put_block1_assembles_body_without_slot_id() {
    let peer = Endpoint::v4([192, 0, 2, 2], 5683);
    let mut app = pipe_app();
    let call = app
        .put(&["upload"])
        .to(peer)
        .payload(&LARGE)
        .content_format(ContentFormat::OCTET_STREAM)
        .send(0)
        .expect("send");
    let response = poll_until_response(&mut app, call);
    assert_eq!(response.code, Code::CHANGED);
    assert_eq!(response.token, Some(call.token()));
    assert_eq!(response.peer, Some(peer));
    assert!(app.take_response(call).is_none());
    assert_eq!(app.engine_mut().rx_occupied(), 0);
    assert_eq!(app.engine_mut().tx_occupied(), 0);
}

#[test]
fn client_put_q_block1_assembles_body_without_slot_id() {
    let peer = Endpoint::v4([192, 0, 2, 2], 5683);
    let mut app = pipe_app();
    let call = app
        .put(&["upload"])
        .to(peer)
        .payload(&LARGE)
        .request_tag(coaptic::storage::BodyTag::new(b"upload-1").unwrap())
        .q_block1()
        .send(0)
        .expect("send");
    let response = poll_until_response(&mut app, call);
    assert_eq!(response.code, Code::CHANGED);
    assert_eq!(app.engine_mut().rx_occupied(), 0);
    assert_eq!(app.engine_mut().tx_occupied(), 0);
}

#[test]
fn client_get_q_block2_assembles_body_without_slot_id() {
    let peer = Endpoint::v4([192, 0, 2, 2], 5683);
    let mut app = pipe_app();
    let call = app
        .get(&["large"])
        .to(peer)
        .q_block2()
        .send(0)
        .expect("send");
    let response = poll_until_response(&mut app, call);
    assert_eq!(response.code, Code::CONTENT);
    assert!(response.has_body);
    assert_eq!(&response.body[..response.body_len], &LARGE[..]);
    assert_eq!(app.engine_mut().rx_occupied(), 0);
    assert_eq!(app.engine_mut().tx_occupied(), 0);
}

#[test]
fn client_get_slash_path_round_trip() {
    let peer = Endpoint::v4([192, 0, 2, 2], 5683);
    let mut app = echo_app();
    let call = app.get("sensors/temp").to(peer).send(0).expect("send");
    app.poll(0).expect("server handle");
    app.poll(0).expect("client match");
    let response = app
        .take_response(call)
        .expect("matched")
        .expect("remote response");
    assert_eq!(response.code(), Code::CONTENT);
    assert_eq!(response.payload(), b"21.5");
}

#[test]
fn client_empty_path_segment_is_error() {
    let peer = Endpoint::v4([192, 0, 2, 2], 5683);
    let mut app = echo_app();
    let err = app
        .get("sensors//temp")
        .to(peer)
        .send(0)
        .expect_err("empty");
    assert_eq!(err, Error::Path);
    let err = app
        .get(&["sensors", "", "temp"])
        .to(peer)
        .send(0)
        .expect_err("empty slice");
    assert_eq!(err, Error::Path);
}

#[test]
fn client_observe_register_notify_deregister() {
    let peer = Endpoint::v4([192, 0, 2, 2], 5683);
    let mut app = echo_obs_app();
    let call = app
        .get("sensors/temp")
        .observe()
        .to(peer)
        .send(0)
        .expect("send");
    app.poll(0).expect("server handle");
    app.poll(0).expect("client match");
    let initial = app
        .take_response(call)
        .expect("initial")
        .expect("remote response");
    assert_eq!(initial.code(), Code::CONTENT);
    assert_eq!(initial.payload(), b"obs-0");
    assert_eq!(initial.observe_seq(), Some(0));
    assert_eq!(initial.token(), Some(call.token()));
    assert!(client_observe_live(&app, call));

    let sent = app
        .notify(
            10,
            &["sensors", "temp"],
            Response::content(b"obs-1").content_format(ContentFormat::TEXT_PLAIN),
        )
        .expect("notify");
    assert_eq!(sent, 1);
    app.poll(10).expect("client notify");
    let note = app
        .take_response(call)
        .expect("notification")
        .expect("remote response");
    assert_eq!(note.payload(), b"obs-1");
    assert_eq!(note.observe_seq(), Some(1));
    assert_eq!(note.token(), Some(call.token()));
    assert_eq!(note.peer(), Some(peer));

    let stop = app
        .get("sensors/temp")
        .deregister()
        .to(peer)
        .send(20)
        .expect("deregister");
    assert_eq!(stop, call);
    assert!(!client_observe_live(&app, call));
    app.poll(20).expect("server deregister");
    app.poll(20).expect("client deregister reply");
    let _ = app.take_response(call);

    let sent = app
        .notify(30, &["sensors", "temp"], Response::content(b"obs-2"))
        .expect("notify after stop");
    assert_eq!(sent, 0);
    app.poll(30).expect("no notify");
    assert!(app.take_response(call).is_none());
    assert!(!client_observe_live(&app, call));
}

#[test]
fn client_separate_response_stops_con_retransmit() {
    let peer = Endpoint::v4([192, 0, 2, 2], 5683);
    let mut app = record_client();
    let call = app
        .get(&["sensors", "temp"])
        .to(peer)
        .send(0)
        .expect("send");
    let (req_mid, token) = {
        let (_, bytes, n) = app.transport().sent[0].expect("first");
        let first = decode(&bytes[..n]).expect("decode first");
        (first.message_id(), first.token())
    };
    assert_eq!(token, call.token());
    assert_eq!(app.engine_mut().tx_occupied(), 1);

    let sep_mid = MessageId::new(req_mid.get().wrapping_add(1));
    assert_ne!(sep_mid, req_mid);
    inject_separate_con(&mut app, peer, sep_mid, token, b"later");
    app.poll(0).expect("match separate");
    let response = app
        .take_response(call)
        .expect("matched")
        .expect("remote response");
    assert_eq!(response.code(), Code::CONTENT);
    assert_eq!(response.payload(), b"later");
    assert_eq!(
        app.engine_mut().tx_occupied(),
        0,
        "request pending CON must be released"
    );

    let after_match = app.transport().sent_n;
    let timeout = u64::from(Transmission::ACK_TIMEOUT_MS);
    app.poll(timeout).expect("past request RTO");
    assert_eq!(
        app.transport().sent_n,
        after_match,
        "separate CON must stop request retransmit"
    );
}

#[test]
fn client_con_retransmit_after_dropped_first_send() {
    let peer = Endpoint::v4([192, 0, 2, 2], 5683);
    let mut app = record_client();
    let call = app
        .get(&["sensors", "temp"])
        .to(peer)
        .send(0)
        .expect("send");
    assert_eq!(app.transport().sent_n, 1);
    let mut first_wire = [0u8; 256];
    let (first_ty, first_code, first_token, mid, first_n) = {
        let (_, bytes, n) = app.transport().sent[0].expect("first");
        first_wire[..n].copy_from_slice(&bytes[..n]);
        let first = decode(&bytes[..n]).expect("decode first");
        (
            first.ty(),
            first.code(),
            first.token(),
            first.message_id(),
            n,
        )
    };
    assert_eq!(first_ty, Type::Confirmable);
    assert_eq!(first_code, Code::GET);
    assert_eq!(first_token, call.token());
    assert_eq!(app.engine_mut().tx_occupied(), 1);
    assert!(app.take_response(call).is_none());

    let timeout = u64::from(Transmission::ACK_TIMEOUT_MS);
    app.poll(timeout - 1).expect("before RTO");
    assert_eq!(app.transport().sent_n, 1);

    app.poll(timeout).expect("retransmit");
    assert_eq!(app.transport().sent_n, 2);
    let mut retry_wire = [0u8; 256];
    let (retry_ty, retry_code, retry_mid, retry_token, retry_n) = {
        let (_, bytes, n) = app.transport().sent[1].expect("retry");
        retry_wire[..n].copy_from_slice(&bytes[..n]);
        let retry = decode(&bytes[..n]).expect("decode retry");
        (
            retry.ty(),
            retry.code(),
            retry.message_id(),
            retry.token(),
            n,
        )
    };
    assert_eq!(
        &first_wire[..first_n],
        &retry_wire[..retry_n],
        "Due resends the same CON bytes"
    );
    assert_eq!(retry_ty, Type::Confirmable);
    assert_eq!(retry_code, Code::GET);
    assert_eq!(retry_mid, mid);
    assert_eq!(retry_token, call.token());
    assert_eq!(retry_n, first_n);

    inject_piggyback_ack(&mut app, peer, mid, call.token(), b"21.5");
    app.poll(timeout).expect("client match");
    let response = app
        .take_response(call)
        .expect("matched after loss")
        .expect("remote response");
    assert_eq!(response.code(), Code::CONTENT);
    assert_eq!(response.payload(), b"21.5");
    assert_eq!(response.token(), Some(call.token()));
    assert_eq!(app.engine_mut().rx_occupied(), 0);
    assert_eq!(app.engine_mut().tx_occupied(), 0);
}

#[test]
fn client_con_give_up_releases_after_max_retransmit() {
    let peer = Endpoint::v4([192, 0, 2, 2], 5683);
    let mut app = record_client();
    let call = app
        .get(&["sensors", "temp"])
        .to(peer)
        .send(0)
        .expect("send");
    assert_eq!(app.transport().sent_n, 1);

    let mut now = u64::from(Transmission::ACK_TIMEOUT_MS);
    let mut timeout = Transmission::ACK_TIMEOUT_MS;
    for _ in 0..Transmission::MAX_RETRANSMIT {
        app.poll(now).expect("due");
        timeout = timeout.saturating_mul(2);
        now = now.saturating_add(u64::from(timeout));
    }
    assert_eq!(
        app.transport().sent_n,
        1 + usize::from(Transmission::MAX_RETRANSMIT)
    );
    assert_eq!(app.engine_mut().tx_occupied(), 1);
    assert!(app.take_response(call).is_none());

    app.poll(now).expect("give up");
    assert_eq!(
        app.transport().sent_n,
        1 + usize::from(Transmission::MAX_RETRANSMIT),
        "GiveUp does not send"
    );
    assert_eq!(
        app.take_response(call).unwrap().unwrap_err(),
        coaptic::CallFailure::TimedOut
    );
    assert_eq!(app.engine_mut().rx_occupied(), 0);
    assert_eq!(app.engine_mut().tx_occupied(), 0);
}

#[test]
fn poll_progresses_when_rx_saturated() {
    let peer = Endpoint::v4([192, 0, 2, 2], 5683);
    let mut app = App::profile::<profiles::Constrained>()
        .deterministic_for_tests()
        .block_wise::<false>()
        .bind(RecordIo::default())
        .expect("bind");
    {
        let engine = app.engine_mut();
        for _ in 0..profiles::Constrained::RX_DATAGRAM_SLOTS {
            let id = engine.acquire_rx().expect("rx");
            engine
                .storage_mut()
                .rx_datagram_mut()
                .pin(id)
                .expect("pin stuck RX");
        }
        assert_eq!(
            engine.rx_occupied(),
            profiles::Constrained::RX_DATAGRAM_SLOTS
        );
    }

    let call = app
        .get(&["sensors", "temp"])
        .to(peer)
        .send(0)
        .expect("send");
    assert_eq!(app.transport().sent_n, 1);

    let timeout = u64::from(Transmission::ACK_TIMEOUT_MS);
    let err = app.poll(timeout).expect_err("RX pool full");
    assert_eq!(err, Error::Saturated);
    assert_eq!(
        app.transport().sent_n,
        2,
        "RTO Due must still send when recv_from is Saturated"
    );
    assert!(app.take_response(call).is_none());
}

#[test]
fn client_second_con_nstart_does_not_leak_tx() {
    let peer = Endpoint::v4([192, 0, 2, 2], 5683);
    let mut app = record_client();
    let first = app
        .get(&["sensors", "temp"])
        .to(peer)
        .send(0)
        .expect("first CON");
    assert_eq!(app.transport().sent_n, 1);
    assert_eq!(app.engine_mut().tx_occupied(), 1);
    let first_mid = {
        let (_, bytes, n) = app.transport().sent[0].expect("first wire");
        decode(&bytes[..n]).expect("decode first").message_id()
    };
    assert!(app.engine().lookup_pending_con(first_mid, peer).is_some());

    let err = app
        .get(&["sensors", "temp"])
        .to(peer)
        .send(0)
        .expect_err("NSTART");
    assert_eq!(err, Error::Saturated);
    assert_eq!(
        app.transport().sent_n,
        1,
        "second CON must not go on the wire without RTO"
    );
    assert_eq!(app.engine_mut().tx_occupied(), 1, "no orphan TX");
    assert!(app.engine().lookup_pending_con(first_mid, peer).is_some());
    assert!(app.take_response(first).is_none());
}

#[test]
fn client_empty_rst_forgets_outstanding_call() {
    let peer = Endpoint::v4([192, 0, 2, 2], 5683);
    let mut app = record_client();
    let call = app
        .get(&["sensors", "temp"])
        .to(peer)
        .send(0)
        .expect("send");
    assert!(client_exchange_live(&app, call));
    assert_eq!(app.engine_mut().tx_occupied(), 1);
    let mid = {
        let (_, bytes, n) = app.transport().sent[0].expect("wire");
        decode(&bytes[..n]).expect("decode").message_id()
    };

    inject_empty(&mut app, peer, Message::empty_rst(mid));
    app.poll(0).expect("rst");
    let response = app.take_response(call).expect("rst completes Call");
    assert_eq!(response.unwrap_err(), coaptic::CallFailure::Reset);
    assert!(!client_exchange_live(&app, call));
    assert_eq!(app.engine_mut().tx_occupied(), 0);
    assert_eq!(app.engine_mut().rx_occupied(), 0);
}

#[test]
fn client_empty_ack_then_silence_expires_exchange() {
    let peer = Endpoint::v4([192, 0, 2, 2], 5683);
    let mut app = record_client();
    let call = app
        .get(&["sensors", "temp"])
        .to(peer)
        .send(0)
        .expect("send");
    let mid = {
        let (_, bytes, n) = app.transport().sent[0].expect("wire");
        decode(&bytes[..n]).expect("decode").message_id()
    };

    inject_empty(&mut app, peer, Message::empty_ack(mid));
    app.poll(0).expect("ack");
    assert!(
        app.take_response(call).is_none(),
        "empty ACK is not a response"
    );
    assert!(
        client_exchange_live(&app, call),
        "exchange waits for the separate body"
    );
    assert_eq!(app.engine_mut().tx_occupied(), 0);

    let life = u64::from(Transmission::EXCHANGE_LIFETIME_MS);
    app.poll(life - 1).expect("before lifetime");
    assert!(client_exchange_live(&app, call));
    assert!(app.take_response(call).is_none());

    app.poll(life).expect("expire");
    let response = app.take_response(call).expect("lifetime snapshot");
    assert_eq!(response.unwrap_err(), coaptic::CallFailure::TimedOut);
    assert!(!client_exchange_live(&app, call));
    assert_eq!(app.engine_mut().tx_occupied(), 0);
}

#[test]
fn client_non_loss_expires_exchange() {
    let peer = Endpoint::v4([192, 0, 2, 2], 5683);
    let mut app = record_client();
    let call = app
        .get(&["sensors", "temp"])
        .non()
        .to(peer)
        .send(0)
        .expect("send");
    assert!(client_exchange_live(&app, call));
    assert_eq!(app.engine_mut().tx_occupied(), 0, "NON releases TX");

    let life = u64::from(Transmission::NON_LIFETIME_MS);
    app.poll(life - 1).expect("before NON lifetime");
    assert!(client_exchange_live(&app, call));
    assert!(app.take_response(call).is_none());

    app.poll(life).expect("expire NON");
    let response = app.take_response(call).expect("NON lifetime snapshot");
    assert_eq!(response.unwrap_err(), coaptic::CallFailure::TimedOut);
    assert!(!client_exchange_live(&app, call));
    assert_eq!(app.engine_mut().tx_occupied(), 0);
}

#[test]
fn client_fifth_untaken_send_is_saturated() {
    let peer = Endpoint::v4([192, 0, 2, 2], 5683);
    let mut app = record_client();
    let mut calls = [None; 4];
    for (i, slot) in calls.iter_mut().enumerate() {
        let call = app
            .get(&["sensors", "temp"])
            .to(peer)
            .send(0)
            .expect("send");
        let (mid, token) = {
            let (_, bytes, n) = app.transport().sent[i].expect("wire");
            let parsed = decode(&bytes[..n]).expect("decode");
            (parsed.message_id(), parsed.token())
        };
        assert_eq!(token, call.token());
        inject_piggyback_ack(&mut app, peer, mid, token, b"21.5");
        app.poll(0).expect("complete");
        *slot = Some(call);
    }
    let err = app
        .get(&["sensors", "temp"])
        .to(peer)
        .send(0)
        .expect_err("inbox full");
    assert_eq!(err, Error::Saturated);
    assert_eq!(
        app.transport().sent_n,
        4,
        "fifth send must not go on the wire"
    );
    for call in calls {
        let response = app
            .take_response(call.expect("call"))
            .expect("untaken reply kept")
            .expect("remote response");
        assert_eq!(response.code(), Code::CONTENT);
        assert_eq!(response.payload(), b"21.5");
    }
    app.get(&["sensors", "temp"])
        .to(peer)
        .send(0)
        .expect("send after take");
}
