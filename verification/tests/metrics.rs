//! What the counters count.
use coaptic::app::{get, put, App, Error, Request, Response};
use coaptic::message::{decode, encode, encode_uint, BlockValue, Code, ContentFormat, EncodedUint, Message, MessageId, Opt, OptionsBuilder, Token, Transmission, Type};
use coaptic::storage::{DatagramIo, Endpoint, MemoryProfile};
use coaptic::message::Echo as EchoOpt;
use coaptic::profiles;

const WIRE: usize = 1472;

fn get_temp(_req: Request<'_>) -> Response<'static> {
    Response::content(b"21.5").content_format(ContentFormat::TEXT_PLAIN)
}

fn get_led(_: Request<'_>) -> Response<'static> {
    // Demo payload. Real LED state is firmware-owned, not an App bag.
    Response::content(b"off")
}

fn put_led(_req: Request<'_>) -> Response<'static> {
    Response::changed()
}

fn put_body(req: Request<'_>) -> Response<'static> {
    if req.has_body() {
        Response::changed().payload_copy(req.body().unwrap_or(&[]))
    } else {
        Response::changed().payload_copy(req.payload())
    }
}

fn get_obs(_req: Request<'_>) -> Response<'static> {
    Response::content(b"obs-0")
        .content_format(ContentFormat::TEXT_PLAIN)
        .max_age(5)
        .observe(0)
}

#[derive(Default)]
struct Loopback {
    inbox: Option<(Endpoint, [u8; 256], usize)>,
    last_send: Option<(Endpoint, [u8; 256], usize)>,
}

impl DatagramIo for Loopback {
    type Error = &'static str;

    fn recv(&mut self, buf: &mut [u8]) -> Result<Option<(usize, Endpoint)>, Self::Error> {
        let Some((ep, bytes, n)) = self.inbox.take() else {
            return Ok(None);
        };
        if n > buf.len() {
            return Err("short buf");
        }
        buf[..n].copy_from_slice(&bytes[..n]);
        Ok(Some((n, ep)))
    }

    fn send(&mut self, dest: Endpoint, bytes: &[u8]) -> Result<usize, Self::Error> {
        if bytes.len() > 256 {
            return Err("too long");
        }
        let mut slot = [0u8; 256];
        slot[..bytes.len()].copy_from_slice(bytes);
        self.last_send = Some((dest, slot, bytes.len()));
        Ok(bytes.len())
    }
}

/// Captures more than one TX datagram so a separate ACK + CON, or a CON
/// retransmit, can be checked. Send is not delivered to `recv` (the caller
/// injects inbox, or leaves it empty to model loss).
#[derive(Default)]
struct RecordIo {
    inbox: Option<(Endpoint, [u8; 256], usize)>,
    sent: [Option<(Endpoint, [u8; 256], usize)>; 8],
    sent_n: usize,
}

impl DatagramIo for RecordIo {
    type Error = &'static str;

    fn recv(&mut self, buf: &mut [u8]) -> Result<Option<(usize, Endpoint)>, Self::Error> {
        let Some((ep, bytes, n)) = self.inbox.take() else {
            return Ok(None);
        };
        if n > buf.len() {
            return Err("short buf");
        }
        buf[..n].copy_from_slice(&bytes[..n]);
        Ok(Some((n, ep)))
    }

    fn send(&mut self, dest: Endpoint, bytes: &[u8]) -> Result<usize, Self::Error> {
        if bytes.len() > 256 {
            return Err("too long");
        }
        if self.sent_n >= self.sent.len() {
            return Err("full");
        }
        let mut slot = [0u8; 256];
        slot[..bytes.len()].copy_from_slice(bytes);
        self.sent[self.sent_n] = Some((dest, slot, bytes.len()));
        self.sent_n += 1;
        Ok(bytes.len())
    }
}

fn encode_req(code: Code, path: &[&str], payload: &[u8]) -> ([u8; 256], usize) {
    encode_req_mid(code, path, payload, 0x1001)
}

fn encode_req_mid(code: Code, path: &[&str], payload: &[u8], mid: u16) -> ([u8; 256], usize) {
    encode_req_echo(Type::Confirmable, code, path, payload, None, None, mid)
}

fn encode_req_echo(
    ty: Type,
    code: Code,
    path: &[&str],
    payload: &[u8],
    no_response: Option<u32>,
    echo: Option<&[u8]>,
    mid: u16,
) -> ([u8; 256], usize) {
    let token = Token::new(&[0xA1]).expect("token");
    let mut opts = OptionsBuilder::<8>::new();
    for segment in path {
        opts.push(Opt::uri_path(segment)).expect("path");
    }
    let nr = no_response.map(EncodedUint::new);
    if let Some(ref encoded) = nr {
        opts.push(Opt::no_response(encoded)).expect("nr");
    }
    if let Some(echo) = echo {
        opts.push(Opt::echo(echo)).expect("echo");
    }
    let msg = Message::new(ty, code, MessageId::new(mid))
        .with_token(token)
        .with_options(opts.as_slice())
        .with_payload(payload);
    let mut buf = [0u8; 256];
    let n = encode(&msg, &mut buf).expect("encode");
    (buf, n)
}

fn app_with_site(io: Loopback) -> App<profiles::Default, Loopback, 8, false> {
    App::profile::<profiles::Default>()
        .deterministic_for_tests()
        .block_wise::<false>()
        .route(&["sensors", "temp"], get(get_temp))
        .route(&["leds", "0"], get(get_led).put(put_led))
        .bind(io)
        .expect("bind")
}

struct LastReply {
    ty: Type,
    code: Code,
    payload: [u8; 64],
    payload_len: usize,
    content_format: Option<ContentFormat>,
    block2: Option<BlockValue>,
    block1: Option<BlockValue>,
    echo: Option<EchoOpt>,
}

fn last_reply<const BLOCK_WISE: bool>(
    app: &App<profiles::Default, Loopback, 8, BLOCK_WISE>,
) -> LastReply
{
    let (_, bytes, n) = app.transport().last_send.expect("sent");
    let parsed = decode(&bytes[..n]).expect("decode reply");
    let mut payload = [0u8; 64];
    let payload_len = parsed.payload().len().min(64);
    payload[..payload_len].copy_from_slice(&parsed.payload()[..payload_len]);
    LastReply {
        ty: parsed.ty(),
        code: parsed.code(),
        payload,
        payload_len,
        content_format: parsed.content_format().and_then(Result::ok),
        block2: parsed.block2().and_then(Result::ok),
        block1: parsed.block1().and_then(Result::ok),
        echo: EchoOpt::from_option(parsed.echo()),
    }
}

struct BlockReq<'a> {
    code: Code,
    path: &'a [&'a str],
    payload: &'a [u8],
    num: u32,
    more: bool,
    size: u16,
    mid: u16,
    size1: Option<u32>,
    q_block: bool,
}

fn encode_req_block1(
    code: Code,
    path: &[&str],
    payload: &[u8],
    num: u32,
    more: bool,
    size: u16,
    mid: u16,
) -> ([u8; 256], usize) {
    encode_block_req(BlockReq {
        code,
        path,
        payload,
        num,
        more,
        size,
        mid,
        size1: None,
        q_block: false,
    })
}

fn encode_block_req(req: BlockReq<'_>) -> ([u8; 256], usize) {
    let token = Token::new(&[0xA1]).expect("token");
    let mut opts = OptionsBuilder::<8>::new();
    for segment in req.path {
        opts.push(Opt::uri_path(segment)).expect("path");
    }
    let size1_enc = req.size1.map(encode_uint);
    if let Some(ref encoded) = size1_enc {
        opts.push(Opt::size1(encoded)).expect("size1");
    }
    let block = BlockValue::from_size(req.num, req.more, req.size).expect("block");
    let encoded = block.encode();
    if req.q_block {
        opts.push(Opt::q_block1(&encoded)).expect("q-block1");
        opts.push(Opt::request_tag(b"upload-1"))
            .expect("request-tag");
    } else {
        opts.push(Opt::block1(&encoded)).expect("block1");
    }
    let msg = Message::new(Type::Confirmable, req.code, MessageId::new(req.mid))
        .with_token(token)
        .with_options(opts.as_slice())
        .with_payload(req.payload);
    let mut buf = [0u8; 256];
    let n = encode(&msg, &mut buf).expect("encode");
    (buf, n)
}

const LED_PATH: &[&str] = &["leds", "0"];

fn q_block1(payload: &[u8], num: u32, more: bool, mid: u16, size1: u32) -> BlockReq<'_> {
    BlockReq {
        code: Code::PUT,
        path: LED_PATH,
        payload,
        num,
        more,
        size: 16,
        mid,
        size1: Some(size1),
        q_block: true,
    }
}

struct WideLoopback {
    inbox: Option<(Endpoint, [u8; WIRE], usize)>,
    sends: [[u8; WIRE]; 4],
    send_lens: [usize; 4],
    send_n: usize,
}

impl Default for WideLoopback {
    fn default() -> Self {
        Self {
            inbox: None,
            sends: [[0; WIRE]; 4],
            send_lens: [0; 4],
            send_n: 0,
        }
    }
}

impl DatagramIo for WideLoopback {
    type Error = &'static str;

    fn recv(&mut self, buf: &mut [u8]) -> Result<Option<(usize, Endpoint)>, Self::Error> {
        let Some((ep, bytes, n)) = self.inbox.take() else {
            return Ok(None);
        };
        if n > buf.len() {
            return Err("short buf");
        }
        buf[..n].copy_from_slice(&bytes[..n]);
        Ok(Some((n, ep)))
    }

    fn send(&mut self, _dest: Endpoint, bytes: &[u8]) -> Result<usize, Self::Error> {
        if bytes.len() > WIRE {
            return Err("too long");
        }
        if self.send_n >= self.sends.len() {
            return Err("send log full");
        }
        let i = self.send_n;
        self.sends[i][..bytes.len()].copy_from_slice(bytes);
        self.send_lens[i] = bytes.len();
        self.send_n += 1;
        Ok(bytes.len())
    }
}

fn encode_wide(code: Code, path: &[&str], extra: &[Opt<'_>], mid: u16) -> ([u8; WIRE], usize) {
    encode_wide_token(code, path, extra, mid, Token::new(&[0xA1]).expect("token"))
}

fn encode_wide_token(
    code: Code,
    path: &[&str],
    extra: &[Opt<'_>],
    mid: u16,
    token: Token,
) -> ([u8; WIRE], usize) {
    let mut opts = OptionsBuilder::<8>::new();
    for segment in path {
        opts.push(Opt::uri_path(segment)).expect("path");
    }
    for opt in extra {
        opts.push(*opt).expect("extra");
    }
    let msg = Message::new(Type::Confirmable, code, MessageId::new(mid))
        .with_token(token)
        .with_options(opts.as_slice());
    let mut buf = [0u8; WIRE];
    let n = encode(&msg, &mut buf).expect("encode");
    (buf, n)
}

fn record_client() -> App<profiles::Default, RecordIo, 8, false> {
    App::profile::<profiles::Default>()
        .deterministic_for_tests()
        .block_wise::<false>()
        .bind(RecordIo::default())
        .expect("bind")
}

fn inject_empty(app: &mut App<profiles::Default, RecordIo, 8, false>, peer: Endpoint, msg: Message<'_>) {
    let mut buf = [0u8; 256];
    let n = encode(&msg, &mut buf).expect("empty");
    app.transport_mut().inbox = Some((peer, buf, n));
}

#[test]
fn metrics_server_get_moves_rx_tx_progress() {
    let peer = Endpoint::v4([192, 0, 2, 1], 5683);
    let (wire, n) = encode_req(Code::GET, &["sensors", "temp"], &[]);
    let mut app = app_with_site(Loopback {
        inbox: Some((peer, wire, n)),
        last_send: None,
    });
    assert_eq!(app.metrics(), coaptic::Metrics::zero());
    app.poll(0).expect("poll");
    let snap = app.metrics();
    assert_eq!(snap.rx_accepted, 1);
    assert_eq!(snap.rx_error, 0);
    assert_eq!(snap.tx_ok, 1);
    assert_eq!(snap.tx_fail, 0);
    assert_eq!(snap.progress, 1);
    last_reply(&app);
}

#[test]
fn metrics_malformed_datagram_is_rx_error() {
    let peer = Endpoint::v4([192, 0, 2, 1], 5683);
    let mut wire = [0u8; 256];
    wire[0] = 0x40;
    let mut app = app_with_site(Loopback {
        inbox: Some((peer, wire, 1)),
        last_send: None,
    });
    app.poll(0).expect("drop");
    let snap = app.metrics();
    assert_eq!(snap.rx_accepted, 1);
    assert_eq!(snap.rx_error, 1);
    assert_eq!(snap.tx_ok, 0);
}

#[test]
fn metrics_observe_register_notify_deregister() {
    let peer = Endpoint::v4([192, 0, 2, 1], 5683);
    let extra = [Opt::observe_register()];
    let (wire, n) = encode_wide(Code::GET, &["sensors", "temp"], &extra, 0x1001);
    let mut app = App::profile::<profiles::Default>()
        .deterministic_for_tests()
        .block_wise::<false>()
        .route(&["sensors", "temp"], get(get_obs))
        .bind(WideLoopback {
            inbox: Some((peer, wire, n)),
            ..WideLoopback::default()
        })
        .expect("bind");
    app.poll(0).expect("register");
    assert_eq!(app.metrics().observe_register, 1);
    assert_eq!(app.metrics().rx_accepted, 1);
    assert_eq!(app.metrics().tx_ok, 1);

    app.reset_metrics();
    let sent = app
        .notify(
            10,
            &["sensors", "temp"],
            Response::content(b"obs-1").content_format(ContentFormat::TEXT_PLAIN),
        )
        .expect("notify");
    assert_eq!(sent, 1);
    assert_eq!(app.metrics().observe_notify, 1);
    assert_eq!(app.metrics().tx_ok, 1);

    let extra = [Opt::observe_deregister()];
    let (wire, n) = encode_wide(Code::GET, &["sensors", "temp"], &extra, 0x1002);
    app.transport_mut().inbox = Some((peer, wire, n));
    app.poll(20).expect("deregister");
    assert_eq!(app.metrics().observe_cancel, 1);
}

#[test]
fn metrics_client_retransmit_and_give_up() {
    let peer = Endpoint::v4([192, 0, 2, 2], 5683);
    let mut app = record_client();
    let call = app
        .get(&["sensors", "temp"])
        .to(peer)
        .send(0)
        .expect("send");
    assert_eq!(app.metrics().tx_ok, 1);

    let timeout = u64::from(Transmission::ACK_TIMEOUT_MS);
    app.poll(timeout - 1).expect("before RTO");
    assert_eq!(app.metrics().con_retransmit, 0);

    app.poll(timeout).expect("retransmit");
    assert_eq!(app.metrics().con_retransmit, 1);
    assert_eq!(app.metrics().tx_ok, 2);
    assert_eq!(app.metrics().give_up, 0);

    let mut now = timeout;
    let mut wait = Transmission::ACK_TIMEOUT_MS.saturating_mul(2);
    for _ in 1..Transmission::MAX_RETRANSMIT {
        now = now.saturating_add(u64::from(wait));
        app.poll(now).expect("due");
        wait = wait.saturating_mul(2);
    }
    assert_eq!(
        app.metrics().con_retransmit,
        u32::from(Transmission::MAX_RETRANSMIT)
    );
    now = now.saturating_add(u64::from(wait));
    app.poll(now).expect("give up");
    assert_eq!(app.metrics().give_up, 1);
    assert_eq!(
        app.take_response(call).unwrap().unwrap_err(),
        coaptic::CallFailure::TimedOut
    );
}

#[test]
fn metrics_nstart_reject() {
    let peer = Endpoint::v4([192, 0, 2, 2], 5683);
    let mut app = record_client();
    let _first = app
        .get(&["sensors", "temp"])
        .to(peer)
        .send(0)
        .expect("first CON");
    let err = app
        .get(&["sensors", "temp"])
        .to(peer)
        .send(0)
        .expect_err("NSTART");
    assert_eq!(err, Error::Saturated);
    assert_eq!(app.metrics().nstart_reject, 1);
    assert_eq!(app.metrics().tx_ok, 1);
}

#[test]
fn metrics_empty_rst_path() {
    let peer = Endpoint::v4([192, 0, 2, 2], 5683);
    let mut app = record_client();
    let call = app
        .get(&["sensors", "temp"])
        .to(peer)
        .send(0)
        .expect("send");
    let mid = {
        let (_, bytes, n) = app.transport().sent[0].expect("wire");
        decode(&bytes[..n]).expect("decode").message_id()
    };
    inject_empty(&mut app, peer, Message::empty_rst(mid));
    app.poll(0).expect("rst");
    assert_eq!(app.metrics().empty_rst, 1);
    assert_eq!(app.metrics().rx_accepted, 1);
    assert!(app.take_response(call).is_some());
}

#[test]
fn metrics_block1_assemble() {
    let peer = Endpoint::v4([192, 0, 2, 1], 5683);
    let payload = [0xABu8; 16];
    let (wire, n) = encode_req_block1(Code::PUT, &["leds", "0"], &payload, 0, true, 16, 0x1001);
    let mut app = App::profile::<profiles::Default>()
        .deterministic_for_tests()
        .block_wise::<true>()
        .route(&["leds", "0"], put(put_body))
        .bind(Loopback {
            inbox: Some((peer, wire, n)),
            last_send: None,
        })
        .expect("bind");
    app.poll(0).expect("poll");
    assert_eq!(app.metrics().block1_assemble, 1);
    assert_eq!(last_reply(&app).code, Code::CONTINUE);
}

#[test]
fn metrics_rx_saturated_and_reset() {
    let peer = Endpoint::v4([192, 0, 2, 2], 5683);
    let mut app = App::profile::<profiles::Constrained>()
        .deterministic_for_tests()
        .block_wise::<false>()
        .bind(RecordIo::default())
        .expect("bind");
    {
        let engine = app.engine_mut();
        for _ in 0..profiles::Constrained::RX_DATAGRAM_SLOTS {
            let id = engine.acquire_rx().expect("rx");
            engine
                .storage_mut()
                .rx_datagram_mut()
                .pin(id)
                .expect("pin stuck RX");
        }
    }
    app.reset_metrics();
    let _call = app
        .get(&["sensors", "temp"])
        .to(peer)
        .send(0)
        .expect("send");
    let timeout = u64::from(Transmission::ACK_TIMEOUT_MS);
    let err = app.poll(timeout).expect_err("RX pool full");
    assert_eq!(err, Error::Saturated);
    assert_eq!(app.metrics().saturated, 1);
    assert_eq!(app.metrics().con_retransmit, 1);
    app.reset_metrics();
    assert_eq!(app.metrics(), coaptic::Metrics::zero());
}

#[test]
fn response_unknown_option_policy_precedes_completion_and_ack() {
    for ty in [
        Type::Confirmable,
        Type::NonConfirmable,
        Type::Acknowledgement,
    ] {
        for critical in [true, false] {
            let peer = Endpoint::v4([192, 0, 2, 2], 5683);
            let mut app = App::profile::<profiles::Default>()
                .deterministic_for_tests()
                .block_wise::<false>()
                .bind(RecordIo::default())
                .unwrap();
            let call = app.get("value").to(peer).send(0).unwrap();
            let (_, req, rn) = app.transport().sent[0].unwrap();
            let request_mid = decode(&req[..rn]).unwrap().message_id();
            let mid = if ty == Type::Acknowledgement {
                request_mid
            } else {
                MessageId::new(400)
            };
            let extras = [Opt::new(
                if critical { 65001 } else { 65000 },
                &[],
            )];
            let msg = Message::new(ty, Code::CONTENT, mid)
                .with_token(call.token())
                .with_options(&extras)
                .with_payload(b"answer");
            let mut wire = [0u8; 256];
            let n = encode(&msg, &mut wire).unwrap();
            app.transport_mut().inbox = Some((peer, wire, n));
            app.poll(1).unwrap();
            assert_eq!(app.take_response(call).is_some(), !critical);
            assert_eq!(app.engine_mut().rx_occupied(), 0);
            if ty == Type::Confirmable {
                let (_, reply, rn) = app.transport().sent[1].unwrap();
                let response = decode(&reply[..rn]).unwrap();
                assert_eq!(
                    response.ty(),
                    if critical {
                        Type::Reset
                    } else {
                        Type::Acknowledgement
                    }
                );
                assert_eq!(response.message_id(), mid);
                assert!(response.is_empty());
            } else {
                assert_eq!(app.transport().sent_n, 1, "no ACK or RST to ACK/NON");
            }
            if critical && ty == Type::Acknowledgement {
                assert_eq!(app.engine_mut().tx_occupied(), 0, "matching ACK stops RTO");
                app.poll(u64::from(Transmission::ACK_TIMEOUT_MS) * 2)
                    .unwrap();
                assert_eq!(
                    app.transport().sent_n,
                    1,
                    "rejected ACK body is not a lost ACK"
                );
                assert!(app.take_response(call).is_none());
            }
        }
    }
}
