//! How calls end, and what they leave behind.
use core::sync::atomic::{AtomicBool, AtomicUsize, Ordering};
use coaptic::app::{get, put, App, Error, Request, Response};
use coaptic::error::{BlockTransferError};
use coaptic::message::{decode, encode, encode_uint, BlockValue, Code, ContentFormat, Message, MessageId, Opt, OptionsBuilder, Token, Type};
use coaptic::storage::{BlockKey, BodyTag, DatagramIo, Endpoint, ExchangeKey, ObserveKey, SlotId};
use coaptic::message::Echo as EchoOpt;
use coaptic::profiles;
use coaptic::ResponseError;

const LARGE: [u8; 2000] = [b'A'; 2000];

const WIRE: usize = 1472;

fn put_body(req: Request<'_>) -> Response<'static> {
    if req.has_body() {
        Response::changed().payload_copy(req.body().unwrap_or(&[]))
    } else {
        Response::changed().payload_copy(req.payload())
    }
}

fn get_obs(_req: Request<'_>) -> Response<'static> {
    Response::content(b"obs-0")
        .content_format(ContentFormat::TEXT_PLAIN)
        .max_age(5)
        .observe(0)
}

#[derive(Default)]
struct Loopback {
    inbox: Option<(Endpoint, [u8; 256], usize)>,
    last_send: Option<(Endpoint, [u8; 256], usize)>,
}

impl DatagramIo for Loopback {
    type Error = &'static str;

    fn recv(&mut self, buf: &mut [u8]) -> Result<Option<(usize, Endpoint)>, Self::Error> {
        let Some((ep, bytes, n)) = self.inbox.take() else {
            return Ok(None);
        };
        if n > buf.len() {
            return Err("short buf");
        }
        buf[..n].copy_from_slice(&bytes[..n]);
        Ok(Some((n, ep)))
    }

    fn send(&mut self, dest: Endpoint, bytes: &[u8]) -> Result<usize, Self::Error> {
        if bytes.len() > 256 {
            return Err("too long");
        }
        let mut slot = [0u8; 256];
        slot[..bytes.len()].copy_from_slice(bytes);
        self.last_send = Some((dest, slot, bytes.len()));
        Ok(bytes.len())
    }
}

/// Captures more than one TX datagram so a separate ACK + CON, or a CON
/// retransmit, can be checked. Send is not delivered to `recv` (the caller
/// injects inbox, or leaves it empty to model loss).
#[derive(Default)]
struct RecordIo {
    inbox: Option<(Endpoint, [u8; 256], usize)>,
    sent: [Option<(Endpoint, [u8; 256], usize)>; 8],
    sent_n: usize,
}

impl DatagramIo for RecordIo {
    type Error = &'static str;

    fn recv(&mut self, buf: &mut [u8]) -> Result<Option<(usize, Endpoint)>, Self::Error> {
        let Some((ep, bytes, n)) = self.inbox.take() else {
            return Ok(None);
        };
        if n > buf.len() {
            return Err("short buf");
        }
        buf[..n].copy_from_slice(&bytes[..n]);
        Ok(Some((n, ep)))
    }

    fn send(&mut self, dest: Endpoint, bytes: &[u8]) -> Result<usize, Self::Error> {
        if bytes.len() > 256 {
            return Err("too long");
        }
        if self.sent_n >= self.sent.len() {
            return Err("full");
        }
        let mut slot = [0u8; 256];
        slot[..bytes.len()].copy_from_slice(bytes);
        self.sent[self.sent_n] = Some((dest, slot, bytes.len()));
        self.sent_n += 1;
        Ok(bytes.len())
    }
}

struct LastReply {
    ty: Type,
    code: Code,
    payload: [u8; 64],
    payload_len: usize,
    content_format: Option<ContentFormat>,
    block2: Option<BlockValue>,
    block1: Option<BlockValue>,
    echo: Option<EchoOpt>,
}

fn last_reply<const BLOCK_WISE: bool>(
    app: &App<profiles::Default, Loopback, 8, BLOCK_WISE>,
) -> LastReply
{
    let (_, bytes, n) = app.transport().last_send.expect("sent");
    let parsed = decode(&bytes[..n]).expect("decode reply");
    let mut payload = [0u8; 64];
    let payload_len = parsed.payload().len().min(64);
    payload[..payload_len].copy_from_slice(&parsed.payload()[..payload_len]);
    LastReply {
        ty: parsed.ty(),
        code: parsed.code(),
        payload,
        payload_len,
        content_format: parsed.content_format().and_then(Result::ok),
        block2: parsed.block2().and_then(Result::ok),
        block1: parsed.block1().and_then(Result::ok),
        echo: EchoOpt::from_option(parsed.echo()),
    }
}

struct BlockReq<'a> {
    code: Code,
    path: &'a [&'a str],
    payload: &'a [u8],
    num: u32,
    more: bool,
    size: u16,
    mid: u16,
    size1: Option<u32>,
    q_block: bool,
}

fn encode_req_block1(
    code: Code,
    path: &[&str],
    payload: &[u8],
    num: u32,
    more: bool,
    size: u16,
    mid: u16,
) -> ([u8; 256], usize) {
    encode_block_req(BlockReq {
        code,
        path,
        payload,
        num,
        more,
        size,
        mid,
        size1: None,
        q_block: false,
    })
}

fn encode_block_req(req: BlockReq<'_>) -> ([u8; 256], usize) {
    let token = Token::new(&[0xA1]).expect("token");
    let mut opts = OptionsBuilder::<8>::new();
    for segment in req.path {
        opts.push(Opt::uri_path(segment)).expect("path");
    }
    let size1_enc = req.size1.map(encode_uint);
    if let Some(ref encoded) = size1_enc {
        opts.push(Opt::size1(encoded)).expect("size1");
    }
    let block = BlockValue::from_size(req.num, req.more, req.size).expect("block");
    let encoded = block.encode();
    if req.q_block {
        opts.push(Opt::q_block1(&encoded)).expect("q-block1");
        opts.push(Opt::request_tag(b"upload-1"))
            .expect("request-tag");
    } else {
        opts.push(Opt::block1(&encoded)).expect("block1");
    }
    let msg = Message::new(Type::Confirmable, req.code, MessageId::new(req.mid))
        .with_token(token)
        .with_options(opts.as_slice())
        .with_payload(req.payload);
    let mut buf = [0u8; 256];
    let n = encode(&msg, &mut buf).expect("encode");
    (buf, n)
}

const LED_PATH: &[&str] = &["leds", "0"];

fn q_block1(payload: &[u8], num: u32, more: bool, mid: u16, size1: u32) -> BlockReq<'_> {
    BlockReq {
        code: Code::PUT,
        path: LED_PATH,
        payload,
        num,
        more,
        size: 16,
        mid,
        size1: Some(size1),
        q_block: true,
    }
}

struct WideLoopback {
    inbox: Option<(Endpoint, [u8; WIRE], usize)>,
    sends: [[u8; WIRE]; 4],
    send_lens: [usize; 4],
    send_n: usize,
}

impl Default for WideLoopback {
    fn default() -> Self {
        Self {
            inbox: None,
            sends: [[0; WIRE]; 4],
            send_lens: [0; 4],
            send_n: 0,
        }
    }
}

impl DatagramIo for WideLoopback {
    type Error = &'static str;

    fn recv(&mut self, buf: &mut [u8]) -> Result<Option<(usize, Endpoint)>, Self::Error> {
        let Some((ep, bytes, n)) = self.inbox.take() else {
            return Ok(None);
        };
        if n > buf.len() {
            return Err("short buf");
        }
        buf[..n].copy_from_slice(&bytes[..n]);
        Ok(Some((n, ep)))
    }

    fn send(&mut self, _dest: Endpoint, bytes: &[u8]) -> Result<usize, Self::Error> {
        if bytes.len() > WIRE {
            return Err("too long");
        }
        if self.send_n >= self.sends.len() {
            return Err("send log full");
        }
        let i = self.send_n;
        self.sends[i][..bytes.len()].copy_from_slice(bytes);
        self.send_lens[i] = bytes.len();
        self.send_n += 1;
        Ok(bytes.len())
    }
}

fn encode_wide(code: Code, path: &[&str], extra: &[Opt<'_>], mid: u16) -> ([u8; WIRE], usize) {
    encode_wide_token(code, path, extra, mid, Token::new(&[0xA1]).expect("token"))
}

fn encode_wide_token(
    code: Code,
    path: &[&str],
    extra: &[Opt<'_>],
    mid: u16,
    token: Token,
) -> ([u8; WIRE], usize) {
    let mut opts = OptionsBuilder::<8>::new();
    for segment in path {
        opts.push(Opt::uri_path(segment)).expect("path");
    }
    for opt in extra {
        opts.push(*opt).expect("extra");
    }
    let msg = Message::new(Type::Confirmable, code, MessageId::new(mid))
        .with_token(token)
        .with_options(opts.as_slice());
    let mut buf = [0u8; WIRE];
    let n = encode(&msg, &mut buf).expect("encode");
    (buf, n)
}

fn last_wide<const BLOCK_WISE: bool>(
    app: &App<profiles::Default, WideLoopback, 8, BLOCK_WISE>,
) -> coaptic::message::ParsedMessage<'_>
{
    let n = app.transport().send_n;
    assert!(n > 0, "expected a send");
    decode(&app.transport().sends[n - 1][..app.transport().send_lens[n - 1]]).expect("decode")
}

fn observe_live<const BLOCK_WISE: bool>(
    app: &App<profiles::Default, WideLoopback, 8, BLOCK_WISE>,
    peer: Endpoint,
    token: Token,
) -> bool
{
    app.engine()
        .lookup_observe(ObserveKey::new(token, peer))
        .is_some()
}

/// Send writes into recv so one App is both client and server.
#[derive(Default)]
struct Echo {
    pending: Option<(Endpoint, [u8; 256], usize)>,
}

impl DatagramIo for Echo {
    type Error = &'static str;

    fn recv(&mut self, buf: &mut [u8]) -> Result<Option<(usize, Endpoint)>, Self::Error> {
        let Some((ep, bytes, n)) = self.pending.take() else {
            return Ok(None);
        };
        if n > buf.len() {
            return Err("short buf");
        }
        buf[..n].copy_from_slice(&bytes[..n]);
        Ok(Some((n, ep)))
    }

    fn send(&mut self, dest: Endpoint, bytes: &[u8]) -> Result<usize, Self::Error> {
        if bytes.len() > 256 {
            return Err("too long");
        }
        let mut slot = [0u8; 256];
        slot[..bytes.len()].copy_from_slice(bytes);
        self.pending = Some((dest, slot, bytes.len()));
        Ok(bytes.len())
    }
}

fn echo_obs_app() -> App<profiles::Default, Echo, 8, false> {
    App::profile::<profiles::Default>()
        .deterministic_for_tests()
        .block_wise::<false>()
        .route(&["sensors", "temp"], get(get_obs))
        .bind(Echo::default())
        .expect("bind")
}

fn client_observe_live(app: &App<profiles::Default, Echo, 8, false>, call: coaptic::Call) -> bool {
    let key = ObserveKey::new_client(call.token(), call.peer());
    app.engine().lookup_observe(key).is_some()
}

fn record_client() -> App<profiles::Default, RecordIo, 8, false> {
    App::profile::<profiles::Default>()
        .deterministic_for_tests()
        .block_wise::<false>()
        .bind(RecordIo::default())
        .expect("bind")
}

fn client_exchange_live(app: &App<profiles::Default, RecordIo, 8, false>, call: coaptic::Call) -> bool {
    let key = ExchangeKey::new(call.token(), call.peer());
    app.engine().lookup_exchange(key).is_some()
}

#[test]
fn local_failures_are_not_remote_gateway_timeout_responses() {
    let peer = Endpoint::v4([192, 0, 2, 2], 5683);
    let mut app = record_client();
    let call = app.get("value").to(peer).send(0).unwrap();
    let (_, request, len) = app.transport().sent[0].unwrap();
    let mid = decode(&request[..len]).unwrap().message_id();
    let message =
        Message::new(Type::Acknowledgement, Code::GATEWAY_TIMEOUT, mid).with_token(call.token());
    let mut wire = [0; 256];
    let n = encode(&message, &mut wire).unwrap();
    app.transport_mut().inbox = Some((peer, wire, n));
    app.poll(1).unwrap();
    assert!(
        !app.cancel(call),
        "completed response must not be replaced by cancellation"
    );
    assert_eq!(
        app.take_response(call).unwrap().unwrap().code(),
        Code::GATEWAY_TIMEOUT
    );
    assert!(!app.cancel(call));
}

#[test]
fn untaken_cancelled_calls_remain_bounded_and_release_after_take() {
    let peer = Endpoint::v4([192, 0, 2, 2], 5683);
    let mut app = record_client();
    let mut calls = [None; 4];
    for saved in &mut calls {
        let call = app.get("value").to(peer).send(0).unwrap();
        assert!(app.cancel(call));
        assert!(!app.cancel(call));
        assert_eq!(app.engine_mut().tx_occupied(), 0);
        *saved = Some(call);
    }
    assert_eq!(app.get("value").to(peer).send(1), Err(Error::Saturated));
    assert_eq!(app.transport().sent_n, 4);
    for call in calls.into_iter().flatten() {
        assert_eq!(
            app.take_response(call).unwrap().unwrap_err(),
            coaptic::CallFailure::Cancelled
        );
        assert!(app.take_response(call).is_none());
    }
    assert!(app.get("value").to(peer).send(2).is_ok());
}

#[test]
fn deadline_refusal_boundary_and_reused_tx_ownership() {
    let peer = Endpoint::v4([192, 0, 2, 2], 5683);
    let mut app = record_client();
    for deadline in [0, 10] {
        assert_eq!(
            app.get("value").to(peer).deadline(deadline).send(10),
            Err(Error::DeadlineElapsed)
        );
    }
    assert_eq!(app.transport().sent_n, 0);
    let first = app
        .get("value")
        .non()
        .to(peer)
        .deadline(20)
        .send(10)
        .unwrap();
    let second = app.get("other").to(peer).send(11).unwrap();
    app.poll(19).unwrap();
    assert!(app.take_response(first).is_none());
    app.poll(20).unwrap();
    assert_eq!(
        app.take_response(first).unwrap().unwrap_err(),
        coaptic::CallFailure::DeadlineExceeded
    );
    assert_eq!(
        app.engine_mut().tx_occupied(),
        1,
        "expired NON must not free another call's reused TX"
    );
    assert!(client_exchange_live(&app, second));
    assert!(app.cancel(second));
    assert_eq!(app.engine_mut().tx_occupied(), 0);
    assert_eq!(
        app.transport().sent_n,
        2,
        "cancellation emits no extra message"
    );
}

#[test]
fn cancellation_reclaims_tagged_upload_and_download_bodies() {
    let peer = Endpoint::v4([192, 0, 2, 2], 5683);
    let mut app = App::profile::<profiles::Default>()
        .deterministic_for_tests()
        .block_wise::<true>()
        .bind(WideLoopback::default())
        .unwrap();
    let tag = BodyTag::new(b"upload").unwrap();
    let call = app
        .put("upload")
        .to(peer)
        .request_tag(tag)
        .payload(&LARGE)
        .send(0)
        .unwrap();
    let tx_key = BlockKey::new(call.token(), peer).with_identity(tag);
    assert!(app.engine_mut().lookup_tx_body(tx_key).is_some());
    let rx_key = BlockKey::new(call.token(), peer).with_identity(BodyTag::new(b"etag").unwrap());
    let block = BlockValue::from_size(0, true, 16).unwrap();
    app.engine_mut()
        .apply_block2(rx_key, block, &[1; 16], Some(32))
        .unwrap();
    assert!(app.cancel(call));
    assert!(app.engine_mut().lookup_rx_body(rx_key).is_none());
    assert!(app.engine_mut().lookup_tx_body(tx_key).is_none());
    assert_eq!(app.engine_mut().tx_occupied(), 0);
    assert_eq!(
        app.take_response(call).unwrap().unwrap_err(),
        coaptic::CallFailure::Cancelled
    );
    assert!(
        app.put("upload")
            .to(peer)
            .request_tag(tag)
            .payload(&LARGE)
            .send(1)
            .is_ok()
    );
}

#[test]
fn deadline_terminates_observe_after_the_initial_response() {
    let peer = Endpoint::v4([192, 0, 2, 2], 5683);
    let mut app = echo_obs_app();
    let call = app
        .get("sensors/temp")
        .observe()
        .to(peer)
        .deadline(20)
        .send(0)
        .unwrap();
    app.poll(0).unwrap();
    app.poll(0).unwrap();
    assert!(app.take_response(call).unwrap().is_ok());
    assert!(client_observe_live(&app, call));
    app.poll(19).unwrap();
    assert!(app.take_response(call).is_none());
    app.poll(20).unwrap();
    assert_eq!(
        app.take_response(call).unwrap().unwrap_err(),
        coaptic::CallFailure::DeadlineExceeded
    );
    assert!(!client_observe_live(&app, call));
}

#[test]
fn deadline_progresses_when_receive_fails() {
    struct BadReceive;
    impl DatagramIo for BadReceive {
        type Error = &'static str;
        fn recv(&mut self, _: &mut [u8]) -> Result<Option<(usize, Endpoint)>, Self::Error> {
            Err("receive failure")
        }
        fn send(&mut self, _: Endpoint, bytes: &[u8]) -> Result<usize, Self::Error> {
            Ok(bytes.len())
        }
    }
    let peer = Endpoint::v4([192, 0, 2, 2], 5683);
    let mut app = App::profile::<profiles::Default>()
        .deterministic_for_tests()
        .block_wise::<false>()
        .bind(BadReceive)
        .unwrap();
    let call = app.get("value").to(peer).deadline(1).send(0).unwrap();
    assert!(app.poll(1).is_err());
    assert_eq!(
        app.take_response(call).unwrap().unwrap_err(),
        coaptic::CallFailure::DeadlineExceeded
    );
    assert_eq!(app.engine_mut().tx_occupied(), 0);
    assert_eq!(app.engine_mut().rx_occupied(), 0);
}

#[test]
fn deadline_wins_at_exact_boundary_but_preserves_an_earlier_response() {
    let peer = Endpoint::v4([192, 0, 2, 2], 5683);
    for received_at in [9, 10] {
        let mut app = record_client();
        let call = app.get("value").to(peer).deadline(10).send(0).unwrap();
        let (_, request, len) = app.transport().sent[0].unwrap();
        let mid = decode(&request[..len]).unwrap().message_id();
        let message = Message::new(Type::Acknowledgement, Code::CONTENT, mid)
            .with_token(call.token())
            .with_payload(b"value");
        let mut wire = [0; 256];
        let n = encode(&message, &mut wire).unwrap();
        app.transport_mut().inbox = Some((peer, wire, n));
        app.poll(received_at).unwrap();
        app.poll(11).unwrap();
        let result = app.take_response(call).unwrap();
        if received_at == 9 {
            assert_eq!(result.unwrap().payload(), b"value");
        } else {
            assert_eq!(result.unwrap_err(), coaptic::CallFailure::DeadlineExceeded);
        }
        assert_eq!(app.engine_mut().rx_occupied(), 0);
        assert_eq!(app.engine_mut().tx_occupied(), 0);
    }
}

#[test]
fn missing_initial_block_completes_with_typed_failure_and_reclaims_state() {
    let peer = Endpoint::v4([192, 0, 2, 2], 5683);
    let mut app = App::profile::<profiles::Default>()
        .deterministic_for_tests()
        .block_wise::<true>()
        .bind(WideLoopback::default())
        .unwrap();
    let call = app.get("large").to(peer).send(0).unwrap();
    let request = decode(&app.transport().sends[0][..app.transport().send_lens[0]]).unwrap();
    let block = BlockValue::from_size(1, true, 16).unwrap().encode();
    let options = [Opt::block2(&block)];
    let message = Message::new(Type::Acknowledgement, Code::CONTENT, request.message_id())
        .with_token(call.token())
        .with_options(&options)
        .with_payload(&[1; 16]);
    let mut wire = [0; WIRE];
    let n = encode(&message, &mut wire).unwrap();
    app.transport_mut().inbox = Some((peer, wire, n));
    app.poll(1).unwrap();
    assert_eq!(
        app.take_response(call).unwrap().unwrap_err(),
        coaptic::CallFailure::BlockTransfer(coaptic::error::BlockTransferError::Gap)
    );
    assert_eq!(app.engine_mut().rx_occupied(), 0);
    assert_eq!(app.engine_mut().tx_occupied(), 0);
    assert!(app.get("value").to(peer).send(2).is_ok());
}

#[test]
fn qblock1_bad_size_never_dispatches_and_valid_retry_completes_once() {
    static CALLS: AtomicUsize = AtomicUsize::new(0);
    fn handler(req: Request<'_>) -> Response<'static> {
        CALLS.fetch_add(1, Ordering::SeqCst);
        put_body(req)
    }
    let peer = Endpoint::v4([192, 0, 2, 1], 5683);
    for bad_hint in [None, Some(0), Some(19), Some(21), Some(u32::MAX)] {
        CALLS.store(0, Ordering::SeqCst);
        let mut app = App::profile::<profiles::Default>()
            .deterministic_for_tests()
            .block_wise::<true>()
            .route(LED_PATH, put(handler))
            .bind(Loopback {
                inbox: None,
                last_send: None,
            })
            .unwrap();
        for phase in 0..4 {
            let payload: &[u8] = if phase < 2 {
                b"AAAAAAAAAAAAAAAA"
            } else {
                b"REST"
            };
            let mut req = q_block1(
                payload,
                if phase < 2 { 0 } else { 1 },
                phase < 2,
                0x1100 + phase,
                20,
            );
            req.size1 = match phase {
                0 => None,
                2 => bad_hint,
                _ => Some(20),
            };
            let (wire, n) = encode_block_req(req);
            app.transport_mut().inbox = Some((peer, wire, n));
            app.transport_mut().last_send = None;
            app.poll(u64::from(phase)).unwrap();
            let reply = last_reply(&app);
            match phase {
                0 | 2 => assert_eq!(reply.code, Code::REQUEST_ENTITY_INCOMPLETE),
                1 => assert_eq!(reply.code, Code::CONTINUE),
                _ => {
                    assert_eq!(reply.code, Code::CHANGED);
                    assert_eq!(&reply.payload[..reply.payload_len], b"AAAAAAAAAAAAAAAAREST");
                }
            }
            assert_eq!(CALLS.load(Ordering::SeqCst), usize::from(phase == 3));
        }
    }
}

#[test]
fn qblock2_without_etag_is_refused_before_sending_or_retaining_body() {
    fn no_tag(_: Request<'_>) -> Response<'static> {
        Response::content(&LARGE)
    }
    fn small_no_tag(_: Request<'_>) -> Response<'static> {
        Response::content(b"small")
    }
    for handler in [no_tag as fn(Request<'_>) -> Response<'static>, small_no_tag] {
        let peer = Endpoint::v4([192, 0, 2, 1], 5683);
        let q = BlockValue::from_size(0, false, 1024).unwrap().encode();
        let (wire, n) = encode_wide(Code::GET, &["large"], &[Opt::q_block2(&q)], 0x1200);
        let mut app = App::profile::<profiles::Default>()
            .deterministic_for_tests()
            .block_wise::<true>()
            .route(&["large"], get(handler))
            .bind(WideLoopback {
                inbox: Some((peer, wire, n)),
                ..WideLoopback::default()
            })
            .unwrap();
        assert_eq!(
            app.poll(0),
            Err(Error::Block(BlockTransferError::MissingIdentity))
        );
        assert_eq!(app.transport().send_n, 0);
        assert_eq!(app.engine().tx_occupied(), 0);
        for index in 0..app.engine().capacities().tx_body_slots.unwrap() {
            assert!(
                app.engine()
                    .tx_body_transfer(SlotId::from_index(index))
                    .is_none()
            );
        }
    }
}

#[test]
fn qblock2_continuation_refuses_changed_identity_or_body_then_recovers() {
    static MODE: AtomicUsize = AtomicUsize::new(0);
    static BODY: [u8; 168] = [b'A'; 168];
    static OTHER: [u8; 168] = [b'B'; 168];
    fn handler(_: Request<'_>) -> Response<'static> {
        match MODE.load(Ordering::SeqCst) {
            0 => Response::content(&BODY).etag(b"changed"),
            1 => Response::content(&OTHER).etag(b"body"),
            _ => Response::content(&BODY).etag(b"body"),
        }
    }
    let peer = Endpoint::v4([192, 0, 2, 1], 5683);
    let mut app = App::profile::<profiles::Default>()
        .deterministic_for_tests()
        .block_wise::<true>()
        .route(&["large"], get(handler))
        .bind(WideLoopback::default())
        .unwrap();
    let key = BlockKey::new(Token::new(&[0xA1]).unwrap(), peer)
        .with_identity(coaptic::storage::BodyTag::new(b"body").unwrap());
    let id = app.engine_mut().start_q_block2(key, &BODY, 0).unwrap();
    for _ in 0..coaptic::storage::BlockTransfer::MAX_PAYLOADS {
        app.engine_mut().next_block(id).unwrap();
    }
    let before = app.engine().tx_body_transfer(id).unwrap();
    for mode in 0..3 {
        MODE.store(mode, Ordering::SeqCst);
        let q = BlockValue::from_size(10, true, 16).unwrap().encode();
        let (wire, n) = encode_wide(
            Code::GET,
            &["large"],
            &[Opt::q_block2(&q)],
            0x1300 + mode as u16,
        );
        app.transport_mut().inbox = Some((peer, wire, n));
        if mode < 2 {
            assert_eq!(
                app.poll(mode as u64),
                Err(Error::Block(BlockTransferError::IdentityMismatch))
            );
            assert_eq!(app.engine().tx_body_transfer(id), Some(before));
            assert_eq!(app.engine().tx_body_payload(id), Some(BODY.as_slice()));
            assert_eq!(app.transport().send_n, 0);
        } else {
            app.poll(2).unwrap();
            assert_eq!(app.transport().send_n, 1);
            let reply = decode(&app.transport().sends[0][..app.transport().send_lens[0]]).unwrap();
            assert_eq!(reply.etag().into_iter().next(), Some(&b"body"[..]));
            assert_eq!(reply.payload(), &BODY[160..]);
            assert_eq!(reply.size2(), Some(Ok(168)));
            assert!(app.engine().tx_body_transfer(id).is_none());
        }
    }
}

#[test]
fn response_option_bounds_are_typed_sticky_and_preserve_exact_values() {
    static LONG: [u8; 256] = [b'x'; 256];
    let long = core::str::from_utf8(&LONG).unwrap();
    for n in [0, 9] {
        assert_eq!(
            Response::content(b"ok").etag(&[1; 9][..n]).validate(),
            Err(ResponseError::EtagLength)
        );
    }
    for n in [1, 8] {
        let response = Response::content(b"ok").etag(&[1; 8][..n]);
        assert_eq!(response.validate(), Ok(()));
        assert_eq!(response.etag_bytes(), Some(&[1; 8][..n]));
    }
    let invalid = Response::content(b"ok")
        .etag(&[1; 9])
        .etag(b"good")
        .location_path(".");
    assert_eq!(invalid.validate(), Err(ResponseError::EtagLength));
    for segment in [".", ".."] {
        assert_eq!(
            Response::created().location_path(segment).validate(),
            Err(ResponseError::LocationDotSegment)
        );
    }
    assert_eq!(
        Response::created().location_path(long).validate(),
        Err(ResponseError::LocationPathBounds)
    );
    assert_eq!(
        Response::created().location_query(long).validate(),
        Err(ResponseError::LocationQueryBounds)
    );
    let mut response = Response::created()
        .location_path(&long[..255])
        .location_query(&long[..255]);
    for _ in 1..coaptic::app::LOCATION_MAX {
        response = response.location_path("").location_query("");
    }
    assert_eq!(response.validate(), Ok(()));
    assert_eq!(response.location_paths().len(), 8);
    assert_eq!(response.location_queries().len(), 8);
    assert_eq!(response.location_paths()[1..], [""; 7]);
    assert_eq!(response.location_queries()[1..], [""; 7]);
    assert_eq!(
        response.clone().location_path("").validate(),
        Err(ResponseError::LocationPathBounds)
    );
    assert_eq!(
        response.location_query("").validate(),
        Err(ResponseError::LocationQueryBounds)
    );
}

#[test]
fn location_wire_preserves_empty_segments_and_maximum_counts_and_lengths() {
    static LONG: [u8; 255] = [b'x'; 255];
    fn handler(_: Request<'_>) -> Response<'static> {
        let long = core::str::from_utf8(&LONG).unwrap();
        let mut response = Response::created()
            .etag(b"12345678")
            .location_path(long)
            .location_query(long);
        for _ in 1..coaptic::app::LOCATION_MAX {
            response = response.location_path("").location_query("");
        }
        response
    }
    let peer = Endpoint::v4([192, 0, 2, 1], 5683);
    let (wire, n) = encode_wide(Code::GET, &["test"], &[], 0x1400);
    let mut app = App::profile::<profiles::Default>()
        .deterministic_for_tests()
        .block_wise::<false>()
        .route(&["test"], get(handler))
        .bind(WideLoopback {
            inbox: Some((peer, wire, n)),
            ..WideLoopback::default()
        })
        .unwrap();
    app.poll(0).unwrap();
    let reply = last_wide(&app);
    assert_eq!(reply.etag().into_iter().next(), Some(&b"12345678"[..]));
    for (i, value) in reply.location_path().into_iter().enumerate() {
        assert_eq!(
            value.unwrap().as_bytes(),
            if i == 0 { &LONG[..] } else { &[] }
        );
    }
    for (i, value) in reply.location_query().into_iter().enumerate() {
        assert_eq!(
            value.unwrap().as_bytes(),
            if i == 0 { &LONG[..] } else { &[] }
        );
    }
    assert_eq!(reply.location_path().into_iter().count(), 8);
    assert_eq!(reply.location_query().into_iter().count(), 8);
}

#[test]
fn invalid_response_refuses_separate_ack_and_observe_then_recovers() {
    static VALID: AtomicBool = AtomicBool::new(false);
    fn handler(_: Request<'_>) -> Response<'static> {
        if VALID.load(Ordering::SeqCst) {
            Response::content(b"ok").etag(b"good").observe(0)
        } else {
            Response::content(b"bad").etag(b"too-long-tag").separate()
        }
    }
    VALID.store(false, Ordering::SeqCst);
    let peer = Endpoint::v4([192, 0, 2, 1], 5683);
    let token = Token::new(&[0xA1]).unwrap();
    let mut app = App::profile::<profiles::Default>()
        .deterministic_for_tests()
        .block_wise::<false>()
        .route(&["test"], get(handler))
        .bind(WideLoopback::default())
        .unwrap();
    // Repeat beyond RX/TX capacity: refusal must release every request.
    for mid in 0..12 {
        let (wire, n) = encode_wide(
            Code::GET,
            &["test"],
            &[Opt::observe_register()],
            0x1500 + mid,
        );
        app.transport_mut().inbox = Some((peer, wire, n));
        assert_eq!(
            app.poll(u64::from(mid)),
            Err(Error::Response(ResponseError::EtagLength))
        );
        assert_eq!(app.transport().send_n, 0);
        assert_eq!(app.engine().tx_occupied(), 0);
        assert!(!observe_live(&app, peer, token));
    }
    VALID.store(true, Ordering::SeqCst);
    let (wire, n) = encode_wide(Code::GET, &["test"], &[Opt::observe_register()], 0x1600);
    app.transport_mut().inbox = Some((peer, wire, n));
    app.poll(12).unwrap();
    assert!(observe_live(&app, peer, token));
    let id = app
        .engine()
        .lookup_observe(ObserveKey::new(token, peer))
        .unwrap();
    let before = app.engine().observe_interest(id).unwrap();
    assert_eq!(
        app.notify(13, &["test"], Response::content(b"bad").location_path("..")),
        Err(Error::Response(ResponseError::LocationDotSegment))
    );
    assert_eq!(app.engine().observe_interest(id), Some(before));
    assert_eq!(app.transport().send_n, 1);
    assert_eq!(
        app.notify(14, &["test"], Response::content(b"good").etag(b"new")),
        Ok(1)
    );
}

#[test]
fn invalid_handler_response_releases_assembled_upload_body() {
    fn handler(req: Request<'_>) -> Response<'static> {
        assert_eq!(req.body(), Some(&b"body"[..]));
        Response::changed().location_query(core::str::from_utf8(&LONG).unwrap())
    }
    static LONG: [u8; 256] = [b'x'; 256];
    let peer = Endpoint::v4([192, 0, 2, 1], 5683);
    let mut app = App::profile::<profiles::Default>()
        .deterministic_for_tests()
        .block_wise::<true>()
        .route(LED_PATH, put(handler))
        .bind(Loopback {
            inbox: None,
            last_send: None,
        })
        .unwrap();
    for mid in 0..12 {
        let (wire, n) = encode_req_block1(Code::PUT, LED_PATH, b"body", 0, false, 16, 0x1700 + mid);
        app.transport_mut().inbox = Some((peer, wire, n));
        assert_eq!(
            app.poll(u64::from(mid)),
            Err(Error::Response(ResponseError::LocationQueryBounds))
        );
        assert!(app.transport().last_send.is_none());
        for index in 0..app.engine().capacities().rx_body_slots.unwrap() {
            assert!(
                app.engine()
                    .rx_body_transfer(SlotId::from_index(index))
                    .is_none()
            );
        }
    }
}
