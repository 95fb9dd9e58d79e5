//! Serving requests over a loopback transport.
use core::sync::atomic::{AtomicUsize, Ordering};
use coaptic::app::{fetch, get, ipatch, patch, post, App, Error, Method, Request, Response};
use coaptic::error::{EncodeError};
use coaptic::message::{decode, encode, BlockValue, Code, ContentFormat, EncodedUint, Message, MessageId, Opt, OptionNumber, OptionsBuilder, ProblemDetails, Token, Transmission, Type};
use coaptic::storage::{DatagramIo, DedupEntry, DedupKey, Endpoint, MemoryProfile};
use coaptic::message::Echo as EchoOpt;
use coaptic::profiles;

fn get_temp(_req: Request<'_>) -> Response<'static> {
    Response::content(b"21.5").content_format(ContentFormat::TEXT_PLAIN)
}

fn get_led(_: Request<'_>) -> Response<'static> {
    // Demo payload. Real LED state is firmware-owned, not an App bag.
    Response::content(b"off")
}

fn put_led(_req: Request<'_>) -> Response<'static> {
    Response::changed()
}

fn post_create(_: Request<'_>) -> Response<'static> {
    Response::created()
        .location_path("location1")
        .location_path("location2")
        .location_query("first=1")
        .location_query("second=2")
}

fn post_max_opts(_: Request<'_>) -> Response<'static> {
    let echo = EchoOpt::mint(0, &[]).expect("echo");
    Response::created()
        .location_path("l0")
        .location_path("l1")
        .location_path("l2")
        .location_path("l3")
        .location_path("l4")
        .location_path("l5")
        .location_path("l6")
        .location_path("l7")
        .location_query("q0=0")
        .location_query("q1=1")
        .location_query("q2=2")
        .location_query("q3=3")
        .location_query("q4=4")
        .location_query("q5=5")
        .location_query("q6=6")
        .location_query("q7=7")
        .etag(b"etag1")
        .observe(0)
        .max_age(5)
        .content_format(ContentFormat::TEXT_PLAIN)
        .echo(echo)
}

fn get_separate(_: Request<'_>) -> Response<'static> {
    Response::content(b"separate-payload")
        .content_format(ContentFormat::TEXT_PLAIN)
        .separate()
}

fn fetch_query(req: Request<'_>) -> Response<'static> {
    assert_eq!(req.method(), Some(Method::Fetch));
    Response::content_copy(req.payload()).content_format(ContentFormat::TEXT_PLAIN)
}

fn patch_doc(req: Request<'_>) -> Response<'static> {
    assert_eq!(req.method(), Some(Method::Patch));
    Response::changed().payload_copy(req.payload())
}

fn ipatch_doc(req: Request<'_>) -> Response<'static> {
    assert_eq!(req.method(), Some(Method::IPatch));
    // Distinct from PATCH so a shared handler cannot green both methods.
    Response::changed().payload_copy(b"idempotent")
}

#[derive(Default)]
struct Loopback {
    inbox: Option<(Endpoint, [u8; 256], usize)>,
    last_send: Option<(Endpoint, [u8; 256], usize)>,
}

impl DatagramIo for Loopback {
    type Error = &'static str;

    fn recv(&mut self, buf: &mut [u8]) -> Result<Option<(usize, Endpoint)>, Self::Error> {
        let Some((ep, bytes, n)) = self.inbox.take() else {
            return Ok(None);
        };
        if n > buf.len() {
            return Err("short buf");
        }
        buf[..n].copy_from_slice(&bytes[..n]);
        Ok(Some((n, ep)))
    }

    fn send(&mut self, dest: Endpoint, bytes: &[u8]) -> Result<usize, Self::Error> {
        if bytes.len() > 256 {
            return Err("too long");
        }
        let mut slot = [0u8; 256];
        slot[..bytes.len()].copy_from_slice(bytes);
        self.last_send = Some((dest, slot, bytes.len()));
        Ok(bytes.len())
    }
}

/// Captures more than one TX datagram so a separate ACK + CON, or a CON
/// retransmit, can be checked. Send is not delivered to `recv` (the caller
/// injects inbox, or leaves it empty to model loss).
#[derive(Default)]
struct RecordIo {
    inbox: Option<(Endpoint, [u8; 256], usize)>,
    sent: [Option<(Endpoint, [u8; 256], usize)>; 8],
    sent_n: usize,
}

impl DatagramIo for RecordIo {
    type Error = &'static str;

    fn recv(&mut self, buf: &mut [u8]) -> Result<Option<(usize, Endpoint)>, Self::Error> {
        let Some((ep, bytes, n)) = self.inbox.take() else {
            return Ok(None);
        };
        if n > buf.len() {
            return Err("short buf");
        }
        buf[..n].copy_from_slice(&bytes[..n]);
        Ok(Some((n, ep)))
    }

    fn send(&mut self, dest: Endpoint, bytes: &[u8]) -> Result<usize, Self::Error> {
        if bytes.len() > 256 {
            return Err("too long");
        }
        if self.sent_n >= self.sent.len() {
            return Err("full");
        }
        let mut slot = [0u8; 256];
        slot[..bytes.len()].copy_from_slice(bytes);
        self.sent[self.sent_n] = Some((dest, slot, bytes.len()));
        self.sent_n += 1;
        Ok(bytes.len())
    }
}

fn encode_req(code: Code, path: &[&str], payload: &[u8]) -> ([u8; 256], usize) {
    encode_req_mid(code, path, payload, 0x1001)
}

fn encode_req_mid(code: Code, path: &[&str], payload: &[u8], mid: u16) -> ([u8; 256], usize) {
    encode_req_echo(Type::Confirmable, code, path, payload, None, None, mid)
}

fn encode_req_with_echo(
    code: Code,
    path: &[&str],
    payload: &[u8],
    echo: &EchoOpt,
) -> ([u8; 256], usize) {
    encode_req_echo(
        Type::Confirmable,
        code,
        path,
        payload,
        None,
        Some(echo.as_slice()),
        0x1001,
    )
}

fn encode_req_with_echo_mid(
    code: Code,
    path: &[&str],
    payload: &[u8],
    echo: &EchoOpt,
    mid: u16,
) -> ([u8; 256], usize) {
    encode_req_echo(
        Type::Confirmable,
        code,
        path,
        payload,
        None,
        Some(echo.as_slice()),
        mid,
    )
}

fn encode_req_ty(
    ty: Type,
    code: Code,
    path: &[&str],
    payload: &[u8],
    no_response: Option<u32>,
) -> ([u8; 256], usize) {
    encode_req_echo(ty, code, path, payload, no_response, None, 0x1001)
}

fn encode_req_echo(
    ty: Type,
    code: Code,
    path: &[&str],
    payload: &[u8],
    no_response: Option<u32>,
    echo: Option<&[u8]>,
    mid: u16,
) -> ([u8; 256], usize) {
    let token = Token::new(&[0xA1]).expect("token");
    let mut opts = OptionsBuilder::<8>::new();
    for segment in path {
        opts.push(Opt::uri_path(segment)).expect("path");
    }
    let nr = no_response.map(EncodedUint::new);
    if let Some(ref encoded) = nr {
        opts.push(Opt::no_response(encoded)).expect("nr");
    }
    if let Some(echo) = echo {
        opts.push(Opt::echo(echo)).expect("echo");
    }
    let msg = Message::new(ty, code, MessageId::new(mid))
        .with_token(token)
        .with_options(opts.as_slice())
        .with_payload(payload);
    let mut buf = [0u8; 256];
    let n = encode(&msg, &mut buf).expect("encode");
    (buf, n)
}

fn encode_req_extra(
    code: Code,
    path: &[&str],
    extra: &[Opt<'_>],
    payload: &[u8],
) -> ([u8; 256], usize) {
    let token = Token::new(&[0xA1]).expect("token");
    let mut opts = OptionsBuilder::<8>::new();
    for segment in path {
        opts.push(Opt::uri_path(segment)).expect("path");
    }
    for opt in extra {
        opts.push(*opt).expect("extra");
    }
    let msg = Message::new(Type::Confirmable, code, MessageId::new(0x1001))
        .with_token(token)
        .with_options(opts.as_slice())
        .with_payload(payload);
    let mut buf = [0u8; 256];
    let n = encode(&msg, &mut buf).expect("encode");
    (buf, n)
}

fn app_with_site(io: Loopback) -> App<profiles::Default, Loopback, 8, false> {
    App::profile::<profiles::Default>()
        .deterministic_for_tests()
        .block_wise::<false>()
        .route(&["sensors", "temp"], get(get_temp))
        .route(&["leds", "0"], get(get_led).put(put_led))
        .bind(io)
        .expect("bind")
}

struct LastReply {
    ty: Type,
    code: Code,
    payload: [u8; 64],
    payload_len: usize,
    content_format: Option<ContentFormat>,
    block2: Option<BlockValue>,
    block1: Option<BlockValue>,
    echo: Option<EchoOpt>,
}

fn last_reply<const BLOCK_WISE: bool>(
    app: &App<profiles::Default, Loopback, 8, BLOCK_WISE>,
) -> LastReply
{
    let (_, bytes, n) = app.transport().last_send.expect("sent");
    let parsed = decode(&bytes[..n]).expect("decode reply");
    let mut payload = [0u8; 64];
    let payload_len = parsed.payload().len().min(64);
    payload[..payload_len].copy_from_slice(&parsed.payload()[..payload_len]);
    LastReply {
        ty: parsed.ty(),
        code: parsed.code(),
        payload,
        payload_len,
        content_format: parsed.content_format().and_then(Result::ok),
        block2: parsed.block2().and_then(Result::ok),
        block1: parsed.block1().and_then(Result::ok),
        echo: EchoOpt::from_option(parsed.echo()),
    }
}

fn rfc8132_loopback(io: Loopback) -> App<profiles::Default, Loopback, 8, false> {
    App::profile::<profiles::Default>()
        .deterministic_for_tests()
        .block_wise::<false>()
        .route(&["query"], fetch(fetch_query))
        .route(&["delta"], patch(patch_doc))
        .route(&["idem"], ipatch(ipatch_doc))
        .bind(io)
        .expect("bind")
}

fn poll_rfc8132(
    code: Code,
    path: &[&str],
    payload: &[u8],
) -> (LastReply, App<profiles::Default, Loopback, 8, false>) {
    let peer = Endpoint::v4([192, 0, 2, 1], 5683);
    let (wire, n) = encode_req(code, path, payload);
    let mut app = rfc8132_loopback(Loopback {
        inbox: Some((peer, wire, n)),
        last_send: None,
    });
    app.poll(0).expect("poll");
    let reply = last_reply(&app);
    (reply, app)
}

// Deterministic routing fixture only; the policy security contract is tested
// separately with authenticated tokens. This fixture is not a MAC example.
fn test_echo_policy(check: coaptic::app::EchoCheck) -> coaptic::app::EchoDecision {
    if check
        .echo
        .ok()
        .flatten()
        .is_some_and(|echo| echo.is_time_fresh(check.now_ms, ECHO_FRESH_MS))
    {
        coaptic::app::EchoDecision::Accept
    } else {
        coaptic::app::EchoDecision::Challenge(EchoOpt::mint(check.now_ms, &[]).unwrap())
    }
}

const ECHO_FRESH_MS: u64 = 5;

fn assert_echo_401(app: &App<profiles::Default, Loopback, 8, false>, now_ms: u64) -> EchoOpt {
    let parsed = last_reply(app);
    assert_eq!(parsed.ty, Type::Acknowledgement);
    assert_eq!(parsed.code, Code::UNAUTHORIZED);
    assert_eq!(parsed.content_format, Some(ContentFormat::PROBLEM_DETAILS));
    let details = ProblemDetails::decode(&parsed.payload[..parsed.payload_len]).expect("cbor");
    assert_eq!(details.response_code(), Some(Code::UNAUTHORIZED));
    assert_eq!(details.title_text(), Some("Unauthorized"));
    let echo = parsed.echo.expect("RFC 9175 Echo on 4.01");
    assert!(echo.is_time_fresh(now_ms, ECHO_FRESH_MS));
    assert_eq!(echo.issued_at(), Some(now_ms));
    echo
}

/// Send writes into recv so one App is both client and server.
#[derive(Default)]
struct Echo {
    pending: Option<(Endpoint, [u8; 256], usize)>,
}

impl DatagramIo for Echo {
    type Error = &'static str;

    fn recv(&mut self, buf: &mut [u8]) -> Result<Option<(usize, Endpoint)>, Self::Error> {
        let Some((ep, bytes, n)) = self.pending.take() else {
            return Ok(None);
        };
        if n > buf.len() {
            return Err("short buf");
        }
        buf[..n].copy_from_slice(&bytes[..n]);
        Ok(Some((n, ep)))
    }

    fn send(&mut self, dest: Endpoint, bytes: &[u8]) -> Result<usize, Self::Error> {
        if bytes.len() > 256 {
            return Err("too long");
        }
        let mut slot = [0u8; 256];
        slot[..bytes.len()].copy_from_slice(bytes);
        self.pending = Some((dest, slot, bytes.len()));
        Ok(bytes.len())
    }
}

#[test]
fn get_sensors_temp_is_content() {
    let peer = Endpoint::v4([192, 0, 2, 1], 5683);
    let (wire, n) = encode_req(Code::GET, &["sensors", "temp"], &[]);
    let mut app = app_with_site(Loopback {
        inbox: Some((peer, wire, n)),
        last_send: None,
    });
    app.poll(0).expect("poll");
    let parsed = last_reply(&app);
    assert_eq!(parsed.ty, Type::Acknowledgement);
    assert_eq!(parsed.code, Code::CONTENT);
    assert_eq!(&parsed.payload[..parsed.payload_len], b"21.5");
    assert_eq!(parsed.content_format, Some(ContentFormat::TEXT_PLAIN));
    assert!(parsed.block2.is_none());
    assert_eq!(app.engine_mut().rx_occupied(), 0);
    assert_eq!(app.engine_mut().tx_occupied(), 0);
}

#[test]
fn constrained_plain_get_is_content() {
    let peer = Endpoint::v4([192, 0, 2, 1], 5683);
    let (wire, n) = encode_req(Code::GET, &["sensors", "temp"], &[]);
    let mut app = App::profile::<profiles::Constrained>()
        .deterministic_for_tests()
        .block_wise::<false>()
        .route(&["sensors", "temp"], get(get_temp))
        .bind(Loopback {
            inbox: Some((peer, wire, n)),
            last_send: None,
        })
        .expect("bind");
    app.poll(0).expect("poll");
    let (_, bytes, n) = app.transport().last_send.expect("sent");
    let parsed = decode(&bytes[..n]).expect("decode");
    assert_eq!(parsed.code(), Code::CONTENT);
    assert_eq!(parsed.payload(), b"21.5");
    assert!(parsed.block1().is_none());
    assert!(parsed.block2().is_none());
}

#[test]
fn malformed_block2_is_bad_option() {
    let peer = Endpoint::v4([192, 0, 2, 1], 5683);
    let extra = [Opt::new(OptionNumber::BLOCK2, &[1, 0, 0, 0])];
    let (wire, n) = encode_req_extra(Code::GET, &["sensors", "temp"], &extra, &[]);
    let mut app = app_with_site(Loopback {
        inbox: Some((peer, wire, n)),
        last_send: None,
    });
    app.poll(0).expect("poll");
    let parsed = last_reply(&app);
    assert_eq!(parsed.ty, Type::Acknowledgement, "CON still ACK'd");
    assert_eq!(parsed.code, Code::BAD_OPTION);
    assert_ne!(parsed.code, Code::CONTENT, "must not ignore bad Block2");
    assert_eq!(parsed.content_format, Some(ContentFormat::PROBLEM_DETAILS));
    assert_eq!(app.engine_mut().rx_occupied(), 0);
    assert_eq!(app.engine_mut().tx_occupied(), 0);
}

#[test]
fn unrecognized_critical_option_is_bad_option() {
    let peer = Endpoint::v4([192, 0, 2, 1], 5683);
    let extra = [Opt::new(65001, &[])];
    let (wire, n) = encode_req_extra(Code::GET, &["sensors", "temp"], &extra, &[]);
    let mut app = app_with_site(Loopback {
        inbox: Some((peer, wire, n)),
        last_send: None,
    });
    app.poll(0).expect("poll");
    let parsed = last_reply(&app);
    assert_eq!(parsed.ty, Type::Acknowledgement, "CON still ACK'd");
    assert_eq!(parsed.code, Code::BAD_OPTION);
    assert_ne!(
        parsed.code,
        Code::CONTENT,
        "must not dispatch unknown critical"
    );
    assert_eq!(parsed.content_format, Some(ContentFormat::PROBLEM_DETAILS));
    assert_eq!(app.engine_mut().rx_occupied(), 0);
    assert_eq!(app.engine_mut().tx_occupied(), 0);
}

#[test]
fn oscore_option_without_context_is_bad_option_not_outer_post() {
    let peer = Endpoint::v4([192, 0, 2, 1], 5683);
    let extra = [Opt::new(OptionNumber::OSCORE, &[0x09])];
    let (wire, n) = encode_req_extra(Code::POST, &["items"], &extra, b"ciphertext");
    let mut app = App::profile::<profiles::Default>()
        .deterministic_for_tests()
        .block_wise::<false>()
        .route(&["items"], post(post_create))
        .bind(Loopback {
            inbox: Some((peer, wire, n)),
            last_send: None,
        })
        .expect("bind");
    app.poll(0).expect("poll");
    let parsed = last_reply(&app);
    assert_eq!(parsed.ty, Type::Acknowledgement, "CON still ACK'd");
    assert_eq!(parsed.code, Code::BAD_OPTION);
    assert_ne!(
        parsed.code,
        Code::CREATED,
        "OSCORE without context must not run the outer POST handler"
    );
    assert_eq!(parsed.content_format, Some(ContentFormat::PROBLEM_DETAILS));
    assert_eq!(app.engine_mut().rx_occupied(), 0);
    assert_eq!(app.engine_mut().tx_occupied(), 0);
}

#[test]
fn oscore_option_without_context_is_bad_option_not_outer_fetch() {
    let peer = Endpoint::v4([192, 0, 2, 1], 5683);
    let extra = [Opt::new(OptionNumber::OSCORE, &[0x09])];
    let (wire, n) = encode_req_extra(Code::FETCH, &["probe"], &extra, b"ciphertext");
    let mut app = App::profile::<profiles::Default>()
        .deterministic_for_tests()
        .block_wise::<false>()
        .route(&["probe"], fetch(fetch_query))
        .bind(Loopback {
            inbox: Some((peer, wire, n)),
            last_send: None,
        })
        .expect("bind");
    app.poll(0).expect("poll");
    let parsed = last_reply(&app);
    assert_eq!(parsed.ty, Type::Acknowledgement, "CON still ACK'd");
    assert_eq!(parsed.code, Code::BAD_OPTION);
    assert_ne!(
        parsed.code,
        Code::CONTENT,
        "OSCORE without context must not run the outer FETCH handler"
    );
    assert_eq!(parsed.content_format, Some(ContentFormat::PROBLEM_DETAILS));
    assert_eq!(app.engine_mut().rx_occupied(), 0);
    assert_eq!(app.engine_mut().tx_occupied(), 0);
}

#[test]
fn proxy_uri_is_505_not_404() {
    static HITS: AtomicUsize = AtomicUsize::new(0);
    fn counting_get(_: Request<'_>) -> Response<'static> {
        HITS.fetch_add(1, Ordering::SeqCst);
        Response::content(b"21.5")
    }
    HITS.store(0, Ordering::SeqCst);

    let peer = Endpoint::v4([192, 0, 2, 1], 5683);
    let extra = [Opt::proxy_uri("coap://example.com/x")];
    let (wire, n) = encode_req_extra(Code::GET, &[], &extra, &[]);
    let mut app = App::profile::<profiles::Default>()
        .deterministic_for_tests()
        .block_wise::<false>()
        .route(&["sensors", "temp"], get(counting_get))
        .bind(Loopback {
            inbox: Some((peer, wire, n)),
            last_send: None,
        })
        .expect("bind");
    app.poll(0).expect("poll");
    let parsed = last_reply(&app);
    assert_eq!(parsed.ty, Type::Acknowledgement, "CON still ACK'd");
    assert_eq!(parsed.code, Code::PROXYING_NOT_SUPPORTED);
    assert_ne!(parsed.code, Code::NOT_FOUND, "must not 4.04 a Proxy-Uri");
    assert_eq!(parsed.content_format, Some(ContentFormat::PROBLEM_DETAILS));
    assert_eq!(HITS.load(Ordering::SeqCst), 0, "handler must not run");
    assert_eq!(app.engine_mut().rx_occupied(), 0);
    assert_eq!(app.engine_mut().tx_occupied(), 0);
}

#[test]
fn proxy_scheme_is_505_before_handler() {
    static HITS: AtomicUsize = AtomicUsize::new(0);
    fn counting_get(_: Request<'_>) -> Response<'static> {
        HITS.fetch_add(1, Ordering::SeqCst);
        Response::content(b"21.5").content_format(ContentFormat::TEXT_PLAIN)
    }
    HITS.store(0, Ordering::SeqCst);

    let peer = Endpoint::v4([192, 0, 2, 1], 5683);
    let extra = [Opt::proxy_scheme("coap")];
    let (wire, n) = encode_req_extra(Code::GET, &["sensors", "temp"], &extra, &[]);
    let mut app = App::profile::<profiles::Default>()
        .deterministic_for_tests()
        .block_wise::<false>()
        .route(&["sensors", "temp"], get(counting_get))
        .bind(Loopback {
            inbox: Some((peer, wire, n)),
            last_send: None,
        })
        .expect("bind");
    app.poll(0).expect("poll");
    let parsed = last_reply(&app);
    assert_eq!(parsed.ty, Type::Acknowledgement);
    assert_eq!(parsed.code, Code::PROXYING_NOT_SUPPORTED);
    assert_ne!(
        parsed.code,
        Code::CONTENT,
        "must not dispatch a Proxy-Scheme request"
    );
    assert_eq!(HITS.load(Ordering::SeqCst), 0, "handler must not run");
}

#[test]
fn created_response_carries_location_path_and_query() {
    let peer = Endpoint::v4([192, 0, 2, 1], 5683);
    let (wire, n) = encode_req(Code::POST, &["items"], &[]);
    let mut app = App::profile::<profiles::Default>()
        .deterministic_for_tests()
        .block_wise::<false>()
        .route(&["items"], post(post_create))
        .bind(Loopback {
            inbox: Some((peer, wire, n)),
            last_send: None,
        })
        .expect("bind");
    app.poll(0).expect("poll");
    let (_, bytes, n) = app.transport().last_send.expect("sent");
    let parsed = decode(&bytes[..n]).expect("decode created");
    assert_eq!(parsed.ty(), Type::Acknowledgement);
    assert_eq!(parsed.code(), Code::CREATED);
    let mut segs = parsed.location_path().into_iter();
    assert_eq!(segs.next().map(|s| s.expect("utf8")), Some("location1"));
    assert_eq!(segs.next().map(|s| s.expect("utf8")), Some("location2"));
    assert!(segs.next().is_none());
    let mut qs = parsed.location_query().into_iter();
    assert_eq!(qs.next().map(|s| s.expect("utf8")), Some("first=1"));
    assert_eq!(qs.next().map(|s| s.expect("utf8")), Some("second=2"));
    assert!(qs.next().is_none());
    assert_eq!(app.engine_mut().rx_occupied(), 0);
    assert_eq!(app.engine_mut().tx_occupied(), 0);
}

#[test]
fn duplicate_con_get_replays_without_second_handler() {
    static HITS: AtomicUsize = AtomicUsize::new(0);
    fn counting_get(_: Request<'_>) -> Response<'static> {
        HITS.fetch_add(1, Ordering::SeqCst);
        Response::content(b"21.5").content_format(ContentFormat::TEXT_PLAIN)
    }
    HITS.store(0, Ordering::SeqCst);

    let peer = Endpoint::v4([192, 0, 2, 1], 5683);
    let (wire, n) = encode_req(Code::GET, &["sensors", "temp"], &[]);
    let mut app = App::profile::<profiles::Default>()
        .deterministic_for_tests()
        .block_wise::<false>()
        .route(&["sensors", "temp"], get(counting_get))
        .bind(RecordIo {
            inbox: Some((peer, wire, n)),
            ..RecordIo::default()
        })
        .expect("bind");
    app.poll(0).expect("first");
    assert_eq!(HITS.load(Ordering::SeqCst), 1);
    assert_eq!(app.transport().sent_n, 1);
    let (_, first, first_n) = app.transport().sent[0].expect("ack");
    let parsed = decode(&first[..first_n]).expect("decode");
    assert_eq!(parsed.ty(), Type::Acknowledgement);
    assert_eq!(parsed.code(), Code::CONTENT);
    assert_eq!(parsed.payload(), b"21.5");
    assert_eq!(app.engine_mut().tx_occupied(), 0);

    app.transport_mut().inbox = Some((peer, wire, n));
    app.poll(1).expect("retransmit");
    assert_eq!(HITS.load(Ordering::SeqCst), 1, "handler must not re-run");
    assert_eq!(app.transport().sent_n, 2);
    let (_, replay, replay_n) = app.transport().sent[1].expect("replay");
    assert_eq!(&first[..first_n], &replay[..replay_n]);
    assert_eq!(app.engine_mut().rx_occupied(), 0);
    assert_eq!(app.engine_mut().tx_occupied(), 0);
}

#[test]
fn duplicate_con_post_does_not_reinvoke_handler() {
    static HITS: AtomicUsize = AtomicUsize::new(0);
    fn counting_post(_: Request<'_>) -> Response<'static> {
        HITS.fetch_add(1, Ordering::SeqCst);
        Response::changed()
    }
    HITS.store(0, Ordering::SeqCst);

    let peer = Endpoint::v4([192, 0, 2, 1], 5683);
    let (wire, n) = encode_req(Code::POST, &["leds", "0"], &[]);
    let mut app = App::profile::<profiles::Default>()
        .deterministic_for_tests()
        .block_wise::<false>()
        .route(&["leds", "0"], post(counting_post))
        .bind(RecordIo {
            inbox: Some((peer, wire, n)),
            ..RecordIo::default()
        })
        .expect("bind");
    app.poll(0).expect("first");
    assert_eq!(HITS.load(Ordering::SeqCst), 1);
    assert_eq!(app.transport().sent_n, 1);

    app.transport_mut().inbox = Some((peer, wire, n));
    app.poll(1).expect("retransmit");
    assert_eq!(HITS.load(Ordering::SeqCst), 1, "POST must not re-run");
    assert_eq!(app.transport().sent_n, 2);
    let (_, first, first_n) = app.transport().sent[0].expect("first ack");
    let (_, replay, replay_n) = app.transport().sent[1].expect("replay");
    assert_eq!(&first[..first_n], &replay[..replay_n]);
    let parsed = decode(&replay[..replay_n]).expect("decode");
    assert_eq!(parsed.ty(), Type::Acknowledgement);
    assert_eq!(parsed.code(), Code::CHANGED);
}

#[test]
fn duplicate_con_patch_does_not_reinvoke_handler() {
    static HITS: AtomicUsize = AtomicUsize::new(0);
    fn counting_patch(_: Request<'_>) -> Response<'static> {
        HITS.fetch_add(1, Ordering::SeqCst);
        Response::changed().payload_copy(b"patched")
    }
    HITS.store(0, Ordering::SeqCst);

    let peer = Endpoint::v4([192, 0, 2, 1], 5683);
    let (wire, n) = encode_req(Code::PATCH, &["delta"], b"p");
    let mut app = App::profile::<profiles::Default>()
        .deterministic_for_tests()
        .block_wise::<false>()
        .route(&["delta"], patch(counting_patch))
        .bind(RecordIo {
            inbox: Some((peer, wire, n)),
            ..RecordIo::default()
        })
        .expect("bind");
    app.poll(0).expect("first");
    app.transport_mut().inbox = Some((peer, wire, n));
    app.poll(1).expect("retransmit");
    assert_eq!(HITS.load(Ordering::SeqCst), 1, "PATCH must not re-run");
    let (_, first, first_n) = app.transport().sent[0].expect("first");
    let (_, replay, replay_n) = app.transport().sent[1].expect("replay");
    assert_eq!(&first[..first_n], &replay[..replay_n]);
}

#[test]
fn duplicate_con_fetch_does_not_reinvoke_handler() {
    static HITS: AtomicUsize = AtomicUsize::new(0);
    fn counting_fetch(_: Request<'_>) -> Response<'static> {
        HITS.fetch_add(1, Ordering::SeqCst);
        Response::content_copy(b"sel").content_format(ContentFormat::TEXT_PLAIN)
    }
    HITS.store(0, Ordering::SeqCst);

    let peer = Endpoint::v4([192, 0, 2, 1], 5683);
    let (wire, n) = encode_req(Code::FETCH, &["query"], b"sel");
    let mut app = App::profile::<profiles::Default>()
        .deterministic_for_tests()
        .block_wise::<false>()
        .route(&["query"], fetch(counting_fetch))
        .bind(RecordIo {
            inbox: Some((peer, wire, n)),
            ..RecordIo::default()
        })
        .expect("bind");
    app.poll(0).expect("first");
    app.transport_mut().inbox = Some((peer, wire, n));
    app.poll(1).expect("retransmit");
    assert_eq!(
        HITS.load(Ordering::SeqCst),
        1,
        "FETCH must not re-run (App policy; RFC 8132 calls FETCH idempotent)"
    );
    let (_, first, first_n) = app.transport().sent[0].expect("first");
    let (_, replay, replay_n) = app.transport().sent[1].expect("replay");
    assert_eq!(&first[..first_n], &replay[..replay_n]);
}

#[test]
fn duplicate_con_separate_replays_empty_ack() {
    static HITS: AtomicUsize = AtomicUsize::new(0);
    fn counting_separate(_: Request<'_>) -> Response<'static> {
        HITS.fetch_add(1, Ordering::SeqCst);
        Response::content(b"separate-payload")
            .content_format(ContentFormat::TEXT_PLAIN)
            .separate()
    }
    HITS.store(0, Ordering::SeqCst);

    let peer = Endpoint::v4([192, 0, 2, 1], 5683);
    let req_mid = MessageId::new(0x1001);
    let (wire, n) = encode_req(Code::GET, &["separate"], &[]);
    let mut app = App::profile::<profiles::Default>()
        .deterministic_for_tests()
        .block_wise::<false>()
        .route(&["separate"], get(counting_separate))
        .bind(RecordIo {
            inbox: Some((peer, wire, n)),
            ..RecordIo::default()
        })
        .expect("bind");
    app.poll(0).expect("first");
    assert_eq!(HITS.load(Ordering::SeqCst), 1);
    assert_eq!(app.transport().sent_n, 2, "empty ACK then CON");
    assert_eq!(app.engine_mut().tx_occupied(), 1, "pending CON");

    app.transport_mut().inbox = Some((peer, wire, n));
    app.poll(1).expect("retransmit");
    assert_eq!(HITS.load(Ordering::SeqCst), 1, "handler must not re-run");
    assert_eq!(app.transport().sent_n, 3, "replay empty ACK only");
    let (_, replay, replay_n) = app.transport().sent[2].expect("replay ACK");
    let ack = decode(&replay[..replay_n]).expect("decode");
    assert!(ack.is_empty_ack());
    assert_eq!(ack.message_id(), req_mid);
    assert_eq!(app.engine_mut().tx_occupied(), 1, "body CON still pending");
}

#[test]
fn duplicate_con_get_after_exchange_lifetime_reruns_handler() {
    static HITS: AtomicUsize = AtomicUsize::new(0);
    fn counting_get(_: Request<'_>) -> Response<'static> {
        HITS.fetch_add(1, Ordering::SeqCst);
        Response::content(b"21.5").content_format(ContentFormat::TEXT_PLAIN)
    }
    HITS.store(0, Ordering::SeqCst);

    let peer = Endpoint::v4([192, 0, 2, 1], 5683);
    let (wire, n) = encode_req(Code::GET, &["sensors", "temp"], &[]);
    let mut app = App::profile::<profiles::Default>()
        .deterministic_for_tests()
        .block_wise::<false>()
        .route(&["sensors", "temp"], get(counting_get))
        .bind(RecordIo {
            inbox: Some((peer, wire, n)),
            ..RecordIo::default()
        })
        .expect("bind");
    app.poll(0).expect("first");
    assert_eq!(HITS.load(Ordering::SeqCst), 1);

    let live = u64::from(Transmission::EXCHANGE_LIFETIME_MS) - 1;
    app.transport_mut().inbox = Some((peer, wire, n));
    app.poll(live).expect("still live");
    assert_eq!(HITS.load(Ordering::SeqCst), 1);

    app.transport_mut().inbox = Some((peer, wire, n));
    app.poll(u64::from(Transmission::EXCHANGE_LIFETIME_MS))
        .expect("expired");
    assert_eq!(HITS.load(Ordering::SeqCst), 2);
}

#[test]
fn duplicate_con_post_empty_dedup_row_acks_without_rerun() {
    static HITS: AtomicUsize = AtomicUsize::new(0);
    fn counting_post(_: Request<'_>) -> Response<'static> {
        HITS.fetch_add(1, Ordering::SeqCst);
        Response::changed()
    }
    HITS.store(0, Ordering::SeqCst);

    let peer = Endpoint::v4([192, 0, 2, 1], 5683);
    let mid = MessageId::new(0x1001);
    let (wire, n) = encode_req(Code::POST, &["leds", "0"], &[]);
    let mut app = App::profile::<profiles::Default>()
        .deterministic_for_tests()
        .block_wise::<false>()
        .route(&["leds", "0"], post(counting_post))
        .bind(RecordIo {
            inbox: Some((peer, wire, n)),
            ..RecordIo::default()
        })
        .expect("bind");
    app.poll(0).expect("first");
    assert_eq!(HITS.load(Ordering::SeqCst), 1);
    assert_eq!(app.transport().sent_n, 1);

    // access_tx-fail / pin-evict leftover: live row, nothing to send.
    let key = DedupKey::new(mid, peer);
    assert!(app.engine_mut().remove_dedup(key));
    let empty =
        DedupEntry::new(mid, peer).with_due_ms(u64::from(Transmission::EXCHANGE_LIFETIME_MS));
    assert!(!empty.has_usable_replay());
    app.engine_mut().insert_dedup(empty).expect("empty row");

    app.transport_mut().inbox = Some((peer, wire, n));
    app.poll(1).expect("retransmit on empty row");
    assert_eq!(HITS.load(Ordering::SeqCst), 1, "POST must not re-run");
    assert_eq!(app.transport().sent_n, 2, "must ACK, not silence");
    let (_, ack_bytes, ack_n) = app.transport().sent[1].expect("empty ACK");
    let ack = decode(&ack_bytes[..ack_n]).expect("decode");
    assert!(ack.is_empty_ack());
    assert_eq!(ack.message_id(), mid);

    let id = app.engine().lookup_dedup(key).expect("row stays live");
    let stored = app.engine().dedup_entry(id).expect("entry");
    assert!(
        stored.has_usable_replay(),
        "empty Hit must persist a usable ACK, not stay metadata-only"
    );

    app.transport_mut().inbox = Some((peer, wire, n));
    app.poll(2).expect("second retransmit");
    assert_eq!(HITS.load(Ordering::SeqCst), 1);
    assert_eq!(app.transport().sent_n, 3);
    let (_, again, again_n) = app.transport().sent[2].expect("replay");
    let again_ack = decode(&again[..again_n]).expect("decode");
    assert!(again_ack.is_empty_ack());

    let live = u64::from(Transmission::EXCHANGE_LIFETIME_MS) - 1;
    app.transport_mut().inbox = Some((peer, wire, n));
    app.poll(live).expect("still live");
    assert_eq!(
        HITS.load(Ordering::SeqCst),
        1,
        "must not silence-then-rerun before EXCHANGE_LIFETIME"
    );
}

#[test]
fn duplicate_con_post_insert_failure_does_not_rerun() {
    static HITS: AtomicUsize = AtomicUsize::new(0);
    fn counting_post(_: Request<'_>) -> Response<'static> {
        HITS.fetch_add(1, Ordering::SeqCst);
        Response::changed()
    }
    HITS.store(0, Ordering::SeqCst);

    let peer = Endpoint::v4([192, 0, 2, 1], 5683);
    let filler = Endpoint::v4([192, 0, 2, 99], 5683);
    let mid = MessageId::new(0x1001);
    let (wire, n) = encode_req(Code::POST, &["leds", "0"], &[]);
    let mut app = App::profile::<profiles::Default>()
        .deterministic_for_tests()
        .block_wise::<false>()
        .route(&["leds", "0"], post(counting_post))
        .bind(RecordIo {
            inbox: Some((peer, wire, n)),
            ..RecordIo::default()
        })
        .expect("bind");

    // Never-expire Engine-pair rows fill the table. App will not evict
    // `due_ms == 0`, so store_request_dedup fails after the first POST.
    for i in 0..profiles::Default::DEDUP_ENTRIES {
        let row = DedupEntry::new(MessageId::new(i as u16), filler);
        assert_eq!(row.due_ms(), 0);
        app.engine_mut().insert_dedup(row).expect("fill");
    }

    app.poll(0).expect("first");
    assert_eq!(HITS.load(Ordering::SeqCst), 1);
    assert_eq!(app.transport().sent_n, 1);
    let key = DedupKey::new(mid, peer);
    assert!(
        app.engine().lookup_dedup(key).is_none(),
        "insert must fail while the table is full of never-expire rows"
    );

    app.transport_mut().inbox = Some((peer, wire, n));
    app.poll(1).expect("retransmit after insert failure");
    assert_eq!(
        HITS.load(Ordering::SeqCst),
        1,
        "POST must not re-run when Dedup insert failed"
    );
    assert_eq!(app.transport().sent_n, 2, "must ACK, not silence");
    let (_, ack_bytes, ack_n) = app.transport().sent[1].expect("fail-closed ACK");
    let ack = decode(&ack_bytes[..ack_n]).expect("decode");
    assert!(ack.is_empty_ack(), "no cached replay: empty ACK");
    assert_eq!(ack.message_id(), mid);

    app.transport_mut().inbox = Some((peer, wire, n));
    app.poll(2).expect("second retransmit");
    assert_eq!(HITS.load(Ordering::SeqCst), 1);
    assert_eq!(app.transport().sent_n, 3);

    let live = u64::from(Transmission::EXCHANGE_LIFETIME_MS) - 1;
    app.transport_mut().inbox = Some((peer, wire, n));
    app.poll(live).expect("still live");
    assert_eq!(HITS.load(Ordering::SeqCst), 1);

    app.transport_mut().inbox = Some((peer, wire, n));
    app.poll(u64::from(Transmission::EXCHANGE_LIFETIME_MS))
        .expect("expired");
    assert_eq!(
        HITS.load(Ordering::SeqCst),
        2,
        "after EXCHANGE_LIFETIME a new exchange may run"
    );
}

#[test]
fn push_opt_fails_loud_when_builder_is_full() {
    let mut opts = OptionsBuilder::<1>::new();
    coaptic::app::reply::push_opt(&mut opts, Opt::uri_path("a")).expect("first");
    assert_eq!(
        coaptic::app::reply::push_opt(&mut opts, Opt::uri_path("b")),
        Err(EncodeError::OptionsFull)
    );
}

#[test]
fn created_metadata_on_wire_excludes_unsolicited_observe() {
    let peer = Endpoint::v4([192, 0, 2, 1], 5683);
    let (wire, n) = encode_req(Code::POST, &["items"], &[]);
    let mut app = App::profile::<profiles::Default>()
        .deterministic_for_tests()
        .block_wise::<false>()
        .route(&["items"], post(post_max_opts))
        .bind(Loopback {
            inbox: Some((peer, wire, n)),
            last_send: None,
        })
        .expect("bind");
    app.poll(0).expect("poll");
    let (_, bytes, n) = app.transport().last_send.expect("sent");
    let parsed = decode(&bytes[..n]).expect("decode created");
    assert_eq!(parsed.code(), Code::CREATED);
    assert_ne!(parsed.code(), Code::INTERNAL_SERVER_ERROR);
    let mut segs = parsed.location_path().into_iter();
    for want in ["l0", "l1", "l2", "l3", "l4", "l5", "l6", "l7"] {
        assert_eq!(segs.next().map(|s| s.expect("utf8")), Some(want));
    }
    assert!(segs.next().is_none());
    let mut qs = parsed.location_query().into_iter();
    for want in [
        "q0=0", "q1=1", "q2=2", "q3=3", "q4=4", "q5=5", "q6=6", "q7=7",
    ] {
        assert_eq!(qs.next().map(|s| s.expect("utf8")), Some(want));
    }
    assert!(qs.next().is_none());
    assert_eq!(parsed.etag().into_iter().next(), Some(&b"etag1"[..]));
    assert!(parsed.observe().is_none());
    assert_eq!(
        parsed.content_format().and_then(Result::ok),
        Some(ContentFormat::TEXT_PLAIN)
    );
    assert!(parsed.echo().is_some());
    assert_eq!(parsed.max_age().and_then(Result::ok), Some(5));
}

#[test]
fn separate_response_is_empty_ack_then_con() {
    let peer = Endpoint::v4([192, 0, 2, 1], 5683);
    let token = Token::new(&[0xA1]).expect("token");
    let req_mid = MessageId::new(0x1001);
    let (wire, n) = encode_req(Code::GET, &["separate"], &[]);
    let mut app = App::profile::<profiles::Default>()
        .deterministic_for_tests()
        .block_wise::<false>()
        .route(&["separate"], get(get_separate))
        .bind(RecordIo {
            inbox: Some((peer, wire, n)),
            ..RecordIo::default()
        })
        .expect("bind");
    app.poll(0).expect("poll");
    assert_eq!(app.transport().sent_n, 2, "empty ACK then CON");

    let (_, ack_bytes, ack_n) = app.transport().sent[0].expect("empty ACK");
    let ack = decode(&ack_bytes[..ack_n]).expect("decode ACK");
    assert!(ack.is_empty_ack());
    assert_eq!(ack.message_id(), req_mid);

    let (_, con_bytes, con_n) = app.transport().sent[1].expect("CON");
    let con = decode(&con_bytes[..con_n]).expect("decode CON");
    assert_eq!(con.ty(), Type::Confirmable);
    assert_eq!(con.code(), Code::CONTENT);
    assert_eq!(con.token(), token);
    assert_eq!(con.payload(), b"separate-payload");
    assert_eq!(
        con.content_format().and_then(Result::ok),
        Some(ContentFormat::TEXT_PLAIN)
    );
    assert_ne!(con.message_id(), req_mid);
    assert_eq!(app.engine_mut().rx_occupied(), 0);
    assert_eq!(app.engine_mut().tx_occupied(), 1, "pending CON");

    let mut ack_wire = [0u8; 256];
    let ack_n = encode(&Message::empty_ack(con.message_id()), &mut ack_wire).expect("encode ACK");
    app.transport_mut().inbox = Some((peer, ack_wire, ack_n));
    app.poll(0).expect("ack poll");
    assert_eq!(app.engine_mut().tx_occupied(), 0);
}

#[test]
fn empty_con_is_rst() {
    let peer = Endpoint::v4([192, 0, 2, 1], 5683);
    let mid = MessageId::new(0x5049);
    let ping = Message::new(Type::Confirmable, Code::EMPTY, mid);
    let mut wire = [0u8; 256];
    let n = encode(&ping, &mut wire).expect("encode ping");
    let mut app = app_with_site(Loopback {
        inbox: Some((peer, wire, n)),
        last_send: None,
    });
    app.poll(0).expect("poll");
    let (_, bytes, n) = app.transport().last_send.expect("sent");
    let parsed = decode(&bytes[..n]).expect("decode RST");
    assert!(parsed.is_empty_rst());
    assert_eq!(parsed.message_id(), mid);
    assert_eq!(app.engine_mut().rx_occupied(), 0);
    assert_eq!(app.engine_mut().tx_occupied(), 0);
}

#[test]
fn unknown_path_is_not_found() {
    let peer = Endpoint::v4([192, 0, 2, 1], 5683);
    let (wire, n) = encode_req(Code::GET, &["nope"], &[]);
    let mut app = app_with_site(Loopback {
        inbox: Some((peer, wire, n)),
        last_send: None,
    });
    app.poll(0).expect("poll");
    let parsed = last_reply(&app);
    assert_eq!(parsed.code, Code::NOT_FOUND);
    assert_eq!(parsed.content_format, Some(ContentFormat::PROBLEM_DETAILS));
    let details = ProblemDetails::decode(&parsed.payload[..parsed.payload_len]).expect("cbor");
    assert_eq!(details.response_code(), Some(Code::NOT_FOUND));
    assert_eq!(details.title_text(), Some("Not Found"));
}

#[test]
fn wrong_method_is_not_allowed() {
    let peer = Endpoint::v4([192, 0, 2, 1], 5683);
    let (wire, n) = encode_req(Code::POST, &["sensors", "temp"], &[]);
    let mut app = app_with_site(Loopback {
        inbox: Some((peer, wire, n)),
        last_send: None,
    });
    app.poll(0).expect("poll");
    let parsed = last_reply(&app);
    assert_eq!(parsed.code, Code::METHOD_NOT_ALLOWED);
    assert_eq!(parsed.content_format, Some(ContentFormat::PROBLEM_DETAILS));
    let details = ProblemDetails::decode(&parsed.payload[..parsed.payload_len]).expect("cbor");
    assert_eq!(details.response_code(), Some(Code::METHOD_NOT_ALLOWED));
    assert_eq!(details.title_text(), Some("Method Not Allowed"));
}

#[test]
fn fetch_query_is_content() {
    let (parsed, mut app) = poll_rfc8132(Code::FETCH, &["query"], b"sel");
    assert_eq!(parsed.ty, Type::Acknowledgement);
    assert_eq!(parsed.code, Code::CONTENT);
    assert_eq!(&parsed.payload[..parsed.payload_len], b"sel");
    assert_eq!(parsed.content_format, Some(ContentFormat::TEXT_PLAIN));
    assert_eq!(app.engine_mut().rx_occupied(), 0);
    assert_eq!(app.engine_mut().tx_occupied(), 0);
}

#[test]
fn patch_delta_is_changed() {
    let (parsed, mut app) = poll_rfc8132(Code::PATCH, &["delta"], b"delta");
    assert_eq!(parsed.ty, Type::Acknowledgement);
    assert_eq!(parsed.code, Code::CHANGED);
    assert_eq!(&parsed.payload[..parsed.payload_len], b"delta");
    assert_eq!(app.engine_mut().rx_occupied(), 0);
    assert_eq!(app.engine_mut().tx_occupied(), 0);
}

#[test]
fn ipatch_delta_is_changed() {
    let (parsed, mut app) = poll_rfc8132(Code::IPATCH, &["idem"], b"delta");
    assert_eq!(parsed.ty, Type::Acknowledgement);
    assert_eq!(parsed.code, Code::CHANGED);
    assert_eq!(&parsed.payload[..parsed.payload_len], b"idempotent");
    assert_eq!(app.engine_mut().rx_occupied(), 0);
    assert_eq!(app.engine_mut().tx_occupied(), 0);
}

#[test]
fn fetch_on_get_route_is_not_allowed() {
    let peer = Endpoint::v4([192, 0, 2, 1], 5683);
    let (wire, n) = encode_req(Code::FETCH, &["sensors", "temp"], b"sel");
    let mut app = app_with_site(Loopback {
        inbox: Some((peer, wire, n)),
        last_send: None,
    });
    app.poll(0).expect("poll");
    let parsed = last_reply(&app);
    assert_eq!(parsed.code, Code::METHOD_NOT_ALLOWED);
    assert_eq!(parsed.content_format, Some(ContentFormat::PROBLEM_DETAILS));
    let details = ProblemDetails::decode(&parsed.payload[..parsed.payload_len]).expect("cbor");
    assert_eq!(details.response_code(), Some(Code::METHOD_NOT_ALLOWED));
    assert_eq!(details.title_text(), Some("Method Not Allowed"));
}

#[test]
fn put_led_is_changed() {
    let peer = Endpoint::v4([192, 0, 2, 1], 5683);
    let (wire, n) = encode_req(Code::PUT, &["leds", "0"], b"1");
    let mut app = app_with_site(Loopback {
        inbox: Some((peer, wire, n)),
        last_send: None,
    });
    app.poll(0).expect("poll");
    assert_eq!(last_reply(&app).code, Code::CHANGED);

    let (wire, n) = encode_req_mid(Code::GET, &["leds", "0"], &[], 0x1002);
    app.transport_mut().inbox = Some((peer, wire, n));
    app.transport_mut().last_send = None;
    app.poll(1).expect("poll");
    let parsed = last_reply(&app);
    assert_eq!(parsed.code, Code::CONTENT);
    assert_eq!(&parsed.payload[..parsed.payload_len], b"off");
}

#[test]
fn echo_freshness_missing_is_401_problem() {
    let peer = Endpoint::v4([192, 0, 2, 1], 5683);
    let (wire, n) = encode_req(Code::PUT, &["leds", "0"], b"1");
    let mut app = app_with_site(Loopback {
        inbox: Some((peer, wire, n)),
        last_send: None,
    });
    app.echo_policy(test_echo_policy);
    app.poll(10).expect("poll");
    let challenge = assert_echo_401(&app, 10);

    let (wire, n) = encode_req_with_echo_mid(Code::PUT, &["leds", "0"], b"1", &challenge, 0x1002);
    app.transport_mut().inbox = Some((peer, wire, n));
    app.transport_mut().last_send = None;
    app.poll(11).expect("retry");
    assert_eq!(last_reply(&app).code, Code::CHANGED);
}

#[test]
fn echo_freshness_stale_is_401_problem() {
    let peer = Endpoint::v4([192, 0, 2, 1], 5683);
    let stale = EchoOpt::mint(9, &[]).expect("mint");
    let (wire, n) = encode_req_with_echo(Code::PUT, &["leds", "0"], b"1", &stale);
    let mut app = app_with_site(Loopback {
        inbox: Some((peer, wire, n)),
        last_send: None,
    });
    app.echo_policy(test_echo_policy);
    app.poll(15).expect("poll");
    assert_echo_401(&app, 15);
}

#[test]
fn echo_freshness_fresh_runs_handler() {
    let peer = Endpoint::v4([192, 0, 2, 1], 5683);
    let fresh = EchoOpt::mint(9, &[]).expect("mint");
    let (wire, n) = encode_req_with_echo(Code::PUT, &["leds", "0"], b"1", &fresh);
    let mut app = app_with_site(Loopback {
        inbox: Some((peer, wire, n)),
        last_send: None,
    });
    app.echo_policy(test_echo_policy);
    app.poll(10).expect("poll");
    let parsed = last_reply(&app);
    assert_eq!(parsed.code, Code::CHANGED);
    assert!(parsed.echo.is_none());
}

#[test]
fn echo_freshness_builder_missing_is_401_problem() {
    let peer = Endpoint::v4([192, 0, 2, 1], 5683);
    let (wire, n) = encode_req(Code::PUT, &["leds", "0"], b"1");
    let mut app = App::profile::<profiles::Default>()
        .deterministic_for_tests()
        .echo_policy(test_echo_policy)
        .block_wise::<false>()
        .route(&["leds", "0"], get(get_led).put(put_led))
        .bind(Loopback {
            inbox: Some((peer, wire, n)),
            last_send: None,
        })
        .expect("bind");
    app.poll(10).expect("poll");
    assert_echo_401(&app, 10);
}

#[test]
fn get_led_is_demo_payload() {
    let peer = Endpoint::v4([192, 0, 2, 1], 5683);
    let (wire, n) = encode_req(Code::GET, &["leds", "0"], &[]);
    let mut app = app_with_site(Loopback {
        inbox: Some((peer, wire, n)),
        last_send: None,
    });
    app.poll(0).expect("poll");
    let parsed = last_reply(&app);
    assert_eq!(parsed.code, Code::CONTENT);
    assert_eq!(&parsed.payload[..parsed.payload_len], b"off");
}

#[test]
fn non_request_gets_non_response() {
    let peer = Endpoint::v4([192, 0, 2, 1], 5683);
    let (wire, n) = encode_req_ty(
        Type::NonConfirmable,
        Code::GET,
        &["sensors", "temp"],
        &[],
        None,
    );
    let mut app = app_with_site(Loopback {
        inbox: Some((peer, wire, n)),
        last_send: None,
    });
    app.poll(0).expect("poll");
    let parsed = last_reply(&app);
    assert_eq!(parsed.ty, Type::NonConfirmable);
    assert_eq!(parsed.code, Code::CONTENT);
}

#[test]
fn no_response_suppresses_success() {
    let peer = Endpoint::v4([192, 0, 2, 1], 5683);
    let (wire, n) = encode_req_ty(
        Type::NonConfirmable,
        Code::GET,
        &["sensors", "temp"],
        &[],
        Some(u32::from(coaptic::message::NoResponse::SUPPRESS_2)),
    );
    let mut app = app_with_site(Loopback {
        inbox: Some((peer, wire, n)),
        last_send: None,
    });
    app.poll(0).expect("poll");
    assert!(app.transport().last_send.is_none());
}

#[test]
fn no_response_con_sends_empty_ack() {
    let peer = Endpoint::v4([192, 0, 2, 1], 5683);
    let req_mid = MessageId::new(0x1001);
    let (wire, n) = encode_req_ty(
        Type::Confirmable,
        Code::GET,
        &["sensors", "temp"],
        &[],
        Some(u32::from(coaptic::message::NoResponse::SUPPRESS_2)),
    );
    let mut app = App::profile::<profiles::Default>()
        .deterministic_for_tests()
        .block_wise::<false>()
        .route(&["sensors", "temp"], get(get_temp))
        .bind(RecordIo {
            inbox: Some((peer, wire, n)),
            ..RecordIo::default()
        })
        .expect("bind");
    app.poll(0).expect("poll");
    assert_eq!(app.transport().sent_n, 1, "empty ACK only");
    let (_, bytes, n) = app.transport().sent[0].expect("ack");
    let ack = decode(&bytes[..n]).expect("decode");
    assert!(ack.is_empty_ack());
    assert_eq!(ack.message_id(), req_mid);
    assert_eq!(app.engine_mut().tx_occupied(), 0);
}
