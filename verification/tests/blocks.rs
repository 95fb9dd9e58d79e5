//! Bodies that come in or go out in blocks.
use core::sync::atomic::{AtomicUsize, Ordering};
use coaptic::app::{get, post, put, App, Error, Request, Response};
use coaptic::error::{BlockTransferError, EncodeError, SlotMessageError};
use coaptic::message::{decode, encode, encode_uint, BlockValue, Code, ContentFormat, Message, MessageId, MissingBlocks, Opt, OptionNumber, OptionsBuilder, ProblemDetails, QBlockTransmission, Token, Transmission, Type};
use coaptic::storage::{BlockKey, DatagramIo, DedupEntry, Endpoint, SlotId};
use coaptic::message::Echo as EchoOpt;
use coaptic::profiles;

const LARGE: [u8; 2000] = [b'A'; 2000];

const WIRE: usize = 1472;

fn get_large_with_opts(_: Request<'_>) -> Response<'static> {
    let echo = EchoOpt::mint(0, &[]).expect("echo");
    Response::content(&LARGE)
        .content_format(ContentFormat::OCTET_STREAM)
        .location_path("l0")
        .location_path("l1")
        .etag(b"etag1")
        .echo(echo)
}

fn put_body(req: Request<'_>) -> Response<'static> {
    if req.has_body() {
        Response::changed().payload_copy(req.body().unwrap_or(&[]))
    } else {
        Response::changed().payload_copy(req.payload())
    }
}

fn get_large(_: Request<'_>) -> Response<'static> {
    Response::content(&LARGE)
        .content_format(ContentFormat::OCTET_STREAM)
        .etag(b"large-v1")
}

#[derive(Default)]
struct Loopback {
    inbox: Option<(Endpoint, [u8; 256], usize)>,
    last_send: Option<(Endpoint, [u8; 256], usize)>,
}

impl DatagramIo for Loopback {
    type Error = &'static str;

    fn recv(&mut self, buf: &mut [u8]) -> Result<Option<(usize, Endpoint)>, Self::Error> {
        let Some((ep, bytes, n)) = self.inbox.take() else {
            return Ok(None);
        };
        if n > buf.len() {
            return Err("short buf");
        }
        buf[..n].copy_from_slice(&bytes[..n]);
        Ok(Some((n, ep)))
    }

    fn send(&mut self, dest: Endpoint, bytes: &[u8]) -> Result<usize, Self::Error> {
        if bytes.len() > 256 {
            return Err("too long");
        }
        let mut slot = [0u8; 256];
        slot[..bytes.len()].copy_from_slice(bytes);
        self.last_send = Some((dest, slot, bytes.len()));
        Ok(bytes.len())
    }
}

struct LastReply {
    ty: Type,
    code: Code,
    payload: [u8; 64],
    payload_len: usize,
    content_format: Option<ContentFormat>,
    block2: Option<BlockValue>,
    block1: Option<BlockValue>,
    echo: Option<EchoOpt>,
}

fn last_reply<const BLOCK_WISE: bool>(
    app: &App<profiles::Default, Loopback, 8, BLOCK_WISE>,
) -> LastReply
{
    let (_, bytes, n) = app.transport().last_send.expect("sent");
    let parsed = decode(&bytes[..n]).expect("decode reply");
    let mut payload = [0u8; 64];
    let payload_len = parsed.payload().len().min(64);
    payload[..payload_len].copy_from_slice(&parsed.payload()[..payload_len]);
    LastReply {
        ty: parsed.ty(),
        code: parsed.code(),
        payload,
        payload_len,
        content_format: parsed.content_format().and_then(Result::ok),
        block2: parsed.block2().and_then(Result::ok),
        block1: parsed.block1().and_then(Result::ok),
        echo: EchoOpt::from_option(parsed.echo()),
    }
}

struct BlockReq<'a> {
    code: Code,
    path: &'a [&'a str],
    payload: &'a [u8],
    num: u32,
    more: bool,
    size: u16,
    mid: u16,
    size1: Option<u32>,
    q_block: bool,
}

fn encode_req_block1(
    code: Code,
    path: &[&str],
    payload: &[u8],
    num: u32,
    more: bool,
    size: u16,
    mid: u16,
) -> ([u8; 256], usize) {
    encode_block_req(BlockReq {
        code,
        path,
        payload,
        num,
        more,
        size,
        mid,
        size1: None,
        q_block: false,
    })
}

fn encode_block_req(req: BlockReq<'_>) -> ([u8; 256], usize) {
    let token = Token::new(&[0xA1]).expect("token");
    let mut opts = OptionsBuilder::<8>::new();
    for segment in req.path {
        opts.push(Opt::uri_path(segment)).expect("path");
    }
    let size1_enc = req.size1.map(encode_uint);
    if let Some(ref encoded) = size1_enc {
        opts.push(Opt::size1(encoded)).expect("size1");
    }
    let block = BlockValue::from_size(req.num, req.more, req.size).expect("block");
    let encoded = block.encode();
    if req.q_block {
        opts.push(Opt::q_block1(&encoded)).expect("q-block1");
        opts.push(Opt::request_tag(b"upload-1"))
            .expect("request-tag");
    } else {
        opts.push(Opt::block1(&encoded)).expect("block1");
    }
    let msg = Message::new(Type::Confirmable, req.code, MessageId::new(req.mid))
        .with_token(token)
        .with_options(opts.as_slice())
        .with_payload(req.payload);
    let mut buf = [0u8; 256];
    let n = encode(&msg, &mut buf).expect("encode");
    (buf, n)
}

const LED_PATH: &[&str] = &["leds", "0"];

fn q_block1(payload: &[u8], num: u32, more: bool, mid: u16, size1: u32) -> BlockReq<'_> {
    BlockReq {
        code: Code::PUT,
        path: LED_PATH,
        payload,
        num,
        more,
        size: 16,
        mid,
        size1: Some(size1),
        q_block: true,
    }
}

struct WideLoopback {
    inbox: Option<(Endpoint, [u8; WIRE], usize)>,
    sends: [[u8; WIRE]; 4],
    send_lens: [usize; 4],
    send_n: usize,
}

impl Default for WideLoopback {
    fn default() -> Self {
        Self {
            inbox: None,
            sends: [[0; WIRE]; 4],
            send_lens: [0; 4],
            send_n: 0,
        }
    }
}

impl DatagramIo for WideLoopback {
    type Error = &'static str;

    fn recv(&mut self, buf: &mut [u8]) -> Result<Option<(usize, Endpoint)>, Self::Error> {
        let Some((ep, bytes, n)) = self.inbox.take() else {
            return Ok(None);
        };
        if n > buf.len() {
            return Err("short buf");
        }
        buf[..n].copy_from_slice(&bytes[..n]);
        Ok(Some((n, ep)))
    }

    fn send(&mut self, _dest: Endpoint, bytes: &[u8]) -> Result<usize, Self::Error> {
        if bytes.len() > WIRE {
            return Err("too long");
        }
        if self.send_n >= self.sends.len() {
            return Err("send log full");
        }
        let i = self.send_n;
        self.sends[i][..bytes.len()].copy_from_slice(bytes);
        self.send_lens[i] = bytes.len();
        self.send_n += 1;
        Ok(bytes.len())
    }
}

fn encode_wide(code: Code, path: &[&str], extra: &[Opt<'_>], mid: u16) -> ([u8; WIRE], usize) {
    encode_wide_token(code, path, extra, mid, Token::new(&[0xA1]).expect("token"))
}

fn encode_wide_token(
    code: Code,
    path: &[&str],
    extra: &[Opt<'_>],
    mid: u16,
    token: Token,
) -> ([u8; WIRE], usize) {
    let mut opts = OptionsBuilder::<8>::new();
    for segment in path {
        opts.push(Opt::uri_path(segment)).expect("path");
    }
    for opt in extra {
        opts.push(*opt).expect("extra");
    }
    let msg = Message::new(Type::Confirmable, code, MessageId::new(mid))
        .with_token(token)
        .with_options(opts.as_slice());
    let mut buf = [0u8; WIRE];
    let n = encode(&msg, &mut buf).expect("encode");
    (buf, n)
}

fn last_wide<const BLOCK_WISE: bool>(
    app: &App<profiles::Default, WideLoopback, 8, BLOCK_WISE>,
) -> coaptic::message::ParsedMessage<'_>
{
    let n = app.transport().send_n;
    assert!(n > 0, "expected a send");
    decode(&app.transport().sends[n - 1][..app.transport().send_lens[n - 1]]).expect("decode")
}

#[test]
fn block1_incomplete_is_continue() {
    let peer = Endpoint::v4([192, 0, 2, 1], 5683);
    let payload = [0xABu8; 16];
    let (wire, n) = encode_req_block1(Code::PUT, &["leds", "0"], &payload, 0, true, 16, 0x1001);
    let mut app = App::profile::<profiles::Default>()
        .deterministic_for_tests()
        .block_wise::<true>()
        .route(&["leds", "0"], put(put_body))
        .bind(Loopback {
            inbox: Some((peer, wire, n)),
            last_send: None,
        })
        .expect("bind");
    app.poll(0).expect("poll");
    let reply = last_reply(&app);
    assert_eq!(reply.code, Code::CONTINUE);
    let block1 = reply.block1.expect("RFC 7959 echoes Block1 on 2.31");
    assert_eq!(block1.num(), 0);
    assert!(block1.more());
}

#[test]
fn block1_acked_num_retransmit_is_continue() {
    let peer = Endpoint::v4([192, 0, 2, 1], 5683);
    let payload = [0xABu8; 16];
    let (wire, n) = encode_req_block1(Code::PUT, &["leds", "0"], &payload, 0, true, 16, 0x1001);
    let mut app = App::profile::<profiles::Default>()
        .deterministic_for_tests()
        .block_wise::<true>()
        .route(&["leds", "0"], put(put_body))
        .bind(Loopback {
            inbox: Some((peer, wire, n)),
            last_send: None,
        })
        .expect("bind");
    app.poll(0).expect("first NUM0");
    assert_eq!(last_reply(&app).code, Code::CONTINUE);

    // Lossy retransmit of the already-acked NUM (same CON MID + payload).
    let (wire, n) = encode_req_block1(Code::PUT, &["leds", "0"], &payload, 0, true, 16, 0x1001);
    app.transport_mut().inbox = Some((peer, wire, n));
    app.transport_mut().last_send = None;
    app.poll(1).expect("retransmit NUM0");
    let reply = last_reply(&app);
    assert_eq!(
        reply.code,
        Code::CONTINUE,
        "retransmit of acked NUM must replay 2.31, not 4.08"
    );
    let block1 = reply.block1.expect("RFC 7959 echoes Block1 on 2.31");
    assert_eq!(block1.num(), 0);
    assert!(block1.more());

    let (wire, n) = encode_req_block1(Code::PUT, &["leds", "0"], &payload, 2, true, 16, 0x1003);
    app.transport_mut().inbox = Some((peer, wire, n));
    app.transport_mut().last_send = None;
    app.poll(2).expect("gap NUM2");
    assert_eq!(
        last_reply(&app).code,
        Code::REQUEST_ENTITY_INCOMPLETE,
        "true Gap stays 4.08"
    );
}

#[test]
fn block1_complete_exposes_body() {
    let peer = Endpoint::v4([192, 0, 2, 1], 5683);
    let first = [b'A'; 16];
    let second = *b"REST";
    let (wire, n) = encode_req_block1(Code::PUT, &["leds", "0"], &first, 0, true, 16, 0x1001);
    let mut app = App::profile::<profiles::Default>()
        .deterministic_for_tests()
        .block_wise::<true>()
        .route(&["leds", "0"], put(put_body))
        .bind(Loopback {
            inbox: Some((peer, wire, n)),
            last_send: None,
        })
        .expect("bind");
    app.poll(0).expect("poll");
    assert_eq!(last_reply(&app).code, Code::CONTINUE);

    let (wire, n) = encode_req_block1(Code::PUT, &["leds", "0"], &second, 1, false, 16, 0x1002);
    app.transport_mut().inbox = Some((peer, wire, n));
    app.transport_mut().last_send = None;
    app.poll(1).expect("poll");
    let parsed = last_reply(&app);
    assert_eq!(parsed.code, Code::CHANGED);
    assert_eq!(
        &parsed.payload[..parsed.payload_len],
        b"AAAAAAAAAAAAAAAAREST"
    );
}

#[test]
fn qblock1_incomplete_is_continue() {
    let peer = Endpoint::v4([192, 0, 2, 1], 5683);
    let payload = [0xABu8; 16];
    let (wire, n) = encode_block_req(q_block1(&payload, 0, true, 0x1001, 32));
    let mut app = App::profile::<profiles::Default>()
        .deterministic_for_tests()
        .block_wise::<true>()
        .route(&["leds", "0"], put(put_body))
        .bind(Loopback {
            inbox: Some((peer, wire, n)),
            last_send: None,
        })
        .expect("bind");
    app.poll(0).expect("poll");
    assert_eq!(last_reply(&app).code, Code::CONTINUE);
}

#[test]
fn qblock1_complete_exposes_body() {
    let peer = Endpoint::v4([192, 0, 2, 1], 5683);
    let first = [b'A'; 16];
    let second = *b"REST";
    let (wire, n) = encode_block_req(q_block1(&first, 0, true, 0x1001, 20));
    let mut app = App::profile::<profiles::Default>()
        .deterministic_for_tests()
        .block_wise::<true>()
        .route(&["leds", "0"], put(put_body))
        .bind(Loopback {
            inbox: Some((peer, wire, n)),
            last_send: None,
        })
        .expect("bind");
    app.poll(0).expect("poll");
    assert_eq!(last_reply(&app).code, Code::CONTINUE);

    let (wire, n) = encode_block_req(q_block1(&second, 1, false, 0x1002, 20));
    app.transport_mut().inbox = Some((peer, wire, n));
    app.transport_mut().last_send = None;
    app.poll(1).expect("poll");
    let parsed = last_reply(&app);
    assert_eq!(parsed.code, Code::CHANGED);
    assert_eq!(
        &parsed.payload[..parsed.payload_len],
        b"AAAAAAAAAAAAAAAAREST"
    );
}

#[test]
fn qblock1_holes_are_request_entity_incomplete() {
    let peer = Endpoint::v4([192, 0, 2, 1], 5683);
    let first = [0x11u8; 16];
    let last = [0x33u8; 8];
    let (wire, n) = encode_block_req(q_block1(&first, 0, true, 0x1001, 40));
    let mut app = App::profile::<profiles::Default>()
        .deterministic_for_tests()
        .block_wise::<true>()
        .route(&["leds", "0"], put(put_body))
        .bind(Loopback {
            inbox: Some((peer, wire, n)),
            last_send: None,
        })
        .expect("bind");
    app.poll(0).expect("poll");
    assert_eq!(last_reply(&app).code, Code::CONTINUE);

    let (wire, n) = encode_block_req(q_block1(&last, 2, false, 0x1002, 40));
    app.transport_mut().inbox = Some((peer, wire, n));
    app.transport_mut().last_send = None;
    app.poll(1).expect("poll");
    assert_eq!(last_reply(&app).code, Code::CONTINUE);

    app.transport_mut().inbox = None;
    app.transport_mut().last_send = None;
    app.poll(2).expect("armed");
    assert!(app.transport().last_send.is_none());
    app.poll(1 + u64::from(QBlockTransmission::NON_RECEIVE_TIMEOUT_MS))
        .expect("recover");
    let parsed = last_reply(&app);
    assert_eq!(parsed.ty, Type::NonConfirmable);
    assert_eq!(parsed.code, Code::REQUEST_ENTITY_INCOMPLETE);
    assert_eq!(parsed.content_format, Some(ContentFormat::MISSING_BLOCKS));
    let mut nums = [0u32; 4];
    let n =
        MissingBlocks::decode(&parsed.payload[..parsed.payload_len], &mut nums).expect("cbor-seq");
    assert_eq!(&nums[..n], &[1]);
    assert!(ProblemDetails::decode(&parsed.payload[..parsed.payload_len]).is_err());
}

#[test]
fn qblock1_apply_error_is_request_entity_incomplete() {
    let peer = Endpoint::v4([192, 0, 2, 1], 5683);
    let payload = [0xABu8; 16];
    let (wire, n) = encode_block_req(q_block1(&payload, 0, true, 0x1001, 32));
    let mut app = App::profile::<profiles::Default>()
        .deterministic_for_tests()
        .block_wise::<true>()
        .route(&["leds", "0"], put(put_body))
        .bind(Loopback {
            inbox: Some((peer, wire, n)),
            last_send: None,
        })
        .expect("bind");
    app.poll(0).expect("poll");
    assert_eq!(last_reply(&app).code, Code::CONTINUE);

    let (wire, n) = encode_block_req(q_block1(&payload, 0, true, 0x1002, 32));
    app.transport_mut().inbox = Some((peer, wire, n));
    app.transport_mut().last_send = None;
    app.poll(1).expect("duplicate");
    let parsed = last_reply(&app);
    assert_eq!(parsed.code, Code::REQUEST_ENTITY_INCOMPLETE);
    assert_eq!(parsed.content_format, Some(ContentFormat::PROBLEM_DETAILS));
    let details = ProblemDetails::decode(&parsed.payload[..parsed.payload_len]).expect("cbor");
    assert_eq!(
        details.response_code(),
        Some(Code::REQUEST_ENTITY_INCOMPLETE)
    );
    assert_eq!(details.title_text(), Some("Request Entity Incomplete"));
}

#[test]
fn qblock2_recover_sent_from_poll() {
    let peer = Endpoint::v4([192, 0, 2, 1], 5683);
    let token = Token::new(&[0xA1]).expect("token");
    let key = BlockKey::new(token, peer);
    let body: [u8; 40] = core::array::from_fn(|i| (i + 7) as u8);
    let mut app = App::profile::<profiles::Default>()
        .deterministic_for_tests()
        .block_wise::<true>()
        .bind(Loopback::default())
        .expect("bind");
    let engine = app.engine_mut();
    engine
        .apply_q_block2(
            key,
            BlockValue::from_size(0, true, 16).expect("0"),
            &body[..16],
            Some(40),
        )
        .expect("0");
    engine
        .apply_q_block2(
            key,
            BlockValue::from_size(2, false, 16).expect("2"),
            &body[32..],
            Some(40),
        )
        .expect("2");
    app.poll(0).expect("arm");
    assert!(app.transport().last_send.is_none());
    app.poll(u64::from(QBlockTransmission::NON_RECEIVE_TIMEOUT_MS))
        .expect("poll recover");
    let (_, bytes, n) = app.transport().last_send.expect("sent recover");
    let parsed = decode(&bytes[..n]).expect("decode recover");
    assert_eq!(parsed.ty(), Type::NonConfirmable);
    assert_eq!(parsed.code(), Code::GET);
    assert_eq!(parsed.token(), token);
    let mut nums = [0u32; 2];
    let mut count = 0usize;
    for item in parsed.q_block2() {
        let v = item.expect("val");
        assert!(!v.more());
        nums[count] = v.num();
        count += 1;
    }
    assert_eq!(&nums[..count], &[1]);
    assert!(parsed.observe().is_none());
}

#[test]
fn block_wise_bind_uses_body_pools() {
    let app = App::profile::<profiles::Default>()
        .deterministic_for_tests()
        .block_wise::<true>()
        .bind(Loopback::default())
        .expect("bind");
    assert!(app.engine().has_body_pools());
}

#[test]
fn duplicate_con_post_oversize_ack_replays_from_tx_pin() {
    static HITS: AtomicUsize = AtomicUsize::new(0);
    static BODY: [u8; DedupEntry::REPLAY_MAX + 16] = [b'P'; DedupEntry::REPLAY_MAX + 16];
    fn counting_post(_: Request<'_>) -> Response<'static> {
        HITS.fetch_add(1, Ordering::SeqCst);
        Response::changed().payload_copy_full(&BODY)
    }
    HITS.store(0, Ordering::SeqCst);

    let peer = Endpoint::v4([192, 0, 2, 1], 5683);
    let (wire, n) = encode_wide(Code::POST, &["bulk"], &[], 0x1001);
    let mut app = App::profile::<profiles::Default>()
        .deterministic_for_tests()
        .block_wise::<false>()
        .route(&["bulk"], post(counting_post))
        .bind(WideLoopback {
            inbox: Some((peer, wire, n)),
            ..WideLoopback::default()
        })
        .expect("bind");
    app.poll(0).expect("first");
    assert_eq!(HITS.load(Ordering::SeqCst), 1);
    assert_eq!(app.transport().send_n, 1);
    assert_eq!(app.engine_mut().tx_occupied(), 1, "oversize ACK pins TX");
    let first_n = app.transport().send_lens[0];
    let mut first = [0u8; WIRE];
    first[..first_n].copy_from_slice(&app.transport().sends[0][..first_n]);
    let parsed = decode(&first[..first_n]).expect("decode");
    assert_eq!(parsed.ty(), Type::Acknowledgement);
    assert_eq!(parsed.code(), Code::CHANGED);
    assert!(first_n > DedupEntry::REPLAY_MAX);

    app.transport_mut().inbox = Some((peer, wire, n));
    app.poll(1).expect("retransmit");
    assert_eq!(HITS.load(Ordering::SeqCst), 1, "POST must not re-run");
    assert_eq!(app.transport().send_n, 2);
    assert_eq!(app.transport().send_lens[1], first_n);
    assert_eq!(
        &app.transport().sends[1][..first_n],
        &first[..first_n],
        "replay must match pinned ACK bytes"
    );
    assert_eq!(app.engine_mut().tx_occupied(), 1);
}

#[test]
fn large_get_ships_block2_without_slot_id() {
    let peer = Endpoint::v4([192, 0, 2, 1], 5683);
    let (wire, n) = encode_wide(Code::GET, &["large"], &[], 0x1001);
    let mut app = App::profile::<profiles::Default>()
        .deterministic_for_tests()
        .block_wise::<true>()
        .route(&["large"], get(get_large))
        .bind(WideLoopback {
            inbox: Some((peer, wire, n)),
            ..WideLoopback::default()
        })
        .expect("bind");
    app.poll(0).expect("poll");
    {
        let first = last_wide(&app);
        assert_eq!(first.code(), Code::CONTENT);
        assert_eq!(
            first.content_format().and_then(Result::ok),
            Some(ContentFormat::OCTET_STREAM)
        );
        let block = first.block2().expect("Block2").expect("val");
        assert_eq!(block.num(), 0);
        assert!(block.more());
        assert_eq!(block.szx(), BlockValue::SZX_MAX);
        assert_eq!(first.payload(), &LARGE[..1024]);
    }

    let next = BlockValue::from_size(1, false, 1024)
        .expect("num 1")
        .encode();
    let extra = [Opt::block2(&next)];
    let (wire, n) = encode_wide(Code::GET, &["large"], &extra, 0x1002);
    app.transport_mut().inbox = Some((peer, wire, n));
    app.poll(1).expect("poll");
    let second = last_wide(&app);
    let block = second.block2().expect("Block2").expect("val");
    assert_eq!(block.num(), 1);
    assert!(!block.more());
    assert_eq!(second.payload(), &LARGE[1024..]);
    assert_eq!(second.etag().into_iter().next(), Some(&b"large-v1"[..]));
}

#[test]
fn large_get_location_etag_echo_and_block2_all_on_wire() {
    let peer = Endpoint::v4([192, 0, 2, 1], 5683);
    let (wire, n) = encode_wide(Code::GET, &["loud"], &[], 0x1001);
    let mut app = App::profile::<profiles::Default>()
        .deterministic_for_tests()
        .block_wise::<true>()
        .route(&["loud"], get(get_large_with_opts))
        .bind(WideLoopback {
            inbox: Some((peer, wire, n)),
            ..WideLoopback::default()
        })
        .expect("bind");
    app.poll(0).expect("poll");
    let first = last_wide(&app);
    assert_eq!(first.code(), Code::CONTENT);
    assert_ne!(first.code(), Code::INTERNAL_SERVER_ERROR);
    let block = first.block2().expect("Block2").expect("val");
    assert_eq!(block.num(), 0);
    assert!(block.more());
    let mut segs = first.location_path().into_iter();
    assert_eq!(segs.next().map(|s| s.expect("utf8")), Some("l0"));
    assert_eq!(segs.next().map(|s| s.expect("utf8")), Some("l1"));
    assert!(segs.next().is_none());
    assert_eq!(first.etag().into_iter().next(), Some(&b"etag1"[..]));
    assert!(first.echo().is_some());
}

#[test]
fn large_get_without_body_pools_fails_clearly() {
    let peer = Endpoint::v4([192, 0, 2, 1], 5683);
    let (wire, n) = encode_wide(Code::GET, &["large"], &[], 0x1001);
    let mut app = App::profile::<profiles::Default>()
        .deterministic_for_tests()
        .block_wise::<false>()
        .route(&["large"], get(get_large))
        .bind(WideLoopback {
            inbox: Some((peer, wire, n)),
            ..WideLoopback::default()
        })
        .expect("bind");
    assert_eq!(
        app.poll(0),
        Err(Error::Message(SlotMessageError::Encode(
            EncodeError::BufferTooSmall
        )))
    );
}

#[test]
fn large_get_q_block2_issues_a_window() {
    let peer = Endpoint::v4([192, 0, 2, 1], 5683);
    let q = BlockValue::from_size(0, false, 1024).expect("q").encode();
    let extra = [Opt::q_block2(&q)];
    let (wire, n) = encode_wide(Code::GET, &["large"], &extra, 0x1001);
    let mut app = App::profile::<profiles::Default>()
        .deterministic_for_tests()
        .block_wise::<true>()
        .route(&["large"], get(get_large))
        .bind(WideLoopback {
            inbox: Some((peer, wire, n)),
            ..WideLoopback::default()
        })
        .expect("bind");
    app.poll(0).expect("poll");
    assert_eq!(app.transport().send_n, 2);

    let first = decode(&app.transport().sends[0][..app.transport().send_lens[0]]).expect("first");
    assert_eq!(first.ty(), Type::Acknowledgement);
    let q0 = first.q_block2().into_iter().next().expect("Q-Block2").expect("val");
    assert_eq!(q0.num(), 0);
    assert!(q0.more());
    assert_eq!(first.payload(), &LARGE[..1024]);
    assert_eq!(first.size2().and_then(Result::ok), Some(2000));
    assert_eq!(first.etag().into_iter().next(), Some(&b"large-v1"[..]));

    let second = decode(&app.transport().sends[1][..app.transport().send_lens[1]]).expect("second");
    assert_eq!(second.ty(), Type::NonConfirmable);
    let q1 = second.q_block2().into_iter().next().expect("Q-Block2").expect("val");
    assert_eq!(q1.num(), 1);
    assert!(!q1.more());
    assert_eq!(second.payload(), &LARGE[1024..]);
    assert_eq!(second.etag().into_iter().next(), Some(&b"large-v1"[..]));
}

fn encode_upload_block(
    token: &[u8],
    num: u32,
    mid: u16,
    size1: &[u8],
    payload: &[u8],
) -> ([u8; 256], usize) {
    let mut opts = OptionsBuilder::<8>::new();
    for segment in LED_PATH {
        opts.push(Opt::uri_path(segment)).expect("path");
    }
    let encoded = BlockValue::from_size(num, true, 16).expect("block").encode();
    opts.push(Opt::q_block1(&encoded)).expect("q-block1");
    opts.push(Opt::new(OptionNumber::SIZE1, size1)).expect("size1");
    opts.push(Opt::request_tag(b"upload-1")).expect("request-tag");
    let msg = Message::new(Type::NonConfirmable, Code::PUT, MessageId::new(mid))
        .with_token(Token::new(token).expect("token"))
        .with_options(opts.as_slice())
        .with_payload(payload);
    let mut buf = [0u8; 256];
    let n = encode(&msg, &mut buf).expect("encode");
    (buf, n)
}

fn upload_app() -> App<profiles::Default, Loopback, 8, true> {
    let mut app = App::profile::<profiles::Default>()
        .deterministic_for_tests()
        .block_wise::<true>()
        .bind(Loopback::default())
        .unwrap();
    app.route_path("leds/0", put(put_body));
    app
}

#[test]
fn qblock1_with_unreadable_size1_is_bad_request() {
    let peer = Endpoint::v4([192, 0, 2, 9], 5683);
    let mut app = upload_app();
    let (wire, n) = encode_upload_block(&[0xA1], 0, 1, &[1, 2, 3, 4, 5], &[7; 16]);
    app.transport_mut().inbox = Some((peer, wire, n));
    app.poll(0).unwrap();
    let reply = last_reply(&app);
    assert_eq!(reply.code, Code::BAD_REQUEST);
    assert_eq!(reply.payload_len, 0);
    for index in 0..app.engine().capacities().rx_body_slots.unwrap() {
        assert!(app.engine().rx_body_transfer(SlotId::from_index(index)).is_none());
    }
}

#[test]
fn qblock1_full_window_is_found_by_peer_and_tag() {
    let peer = Endpoint::v4([192, 0, 2, 9], 5683);
    let mut app = upload_app();
    let size1 = [1, 64];
    for num in 0..9u32 {
        let (wire, n) = encode_upload_block(&[0xA1], num, num as u16 + 1, &size1, &[7; 16]);
        app.transport_mut().inbox = Some((peer, wire, n));
        app.poll(0).unwrap();
        assert!(app.transport().last_send.is_none());
    }
    let acknowledged = |app: &App<profiles::Default, Loopback, 8, true>, token: u8| {
        let (_, bytes, n) = app.transport().last_send.expect("sent");
        let parsed = decode(&bytes[..n]).expect("decode reply");
        assert_eq!(parsed.code(), Code::CONTINUE);
        assert_eq!(parsed.token().as_bytes(), &[token]);
        assert_eq!(parsed.q_block1().expect("q-block1").expect("block").num(), 9);
    };
    let (wire, n) = encode_upload_block(&[0xA1], 9, 10, &size1, &[7; 16]);
    app.transport_mut().inbox = Some((peer, wire, n));
    app.poll(0).unwrap();
    acknowledged(&app, 0xA1);
    app.transport_mut().last_send = None;
    let (wire, n) = encode_upload_block(&[0xA2], 0, 11, &size1, &[7; 16]);
    app.transport_mut().inbox = Some((peer, wire, n));
    app.poll(0).unwrap();
    acknowledged(&app, 0xA2);
}

#[test]
fn short_kept_answer_takes_no_outgoing_slot() {
    let peer = Endpoint::v4([192, 0, 2, 9], 5683);
    let mut app = upload_app();
    let mut opts = OptionsBuilder::<8>::new();
    opts.push(Opt::new(OptionNumber::PROXY_URI, b"coap://far")).expect("proxy-uri");
    let msg = Message::new(Type::Confirmable, Code::GET, MessageId::new(77))
        .with_options(opts.as_slice());
    let mut wire = [0u8; 256];
    let n = encode(&msg, &mut wire).expect("encode");
    app.transport_mut().inbox = Some((peer, wire, n));
    app.poll(0).unwrap();
    assert_eq!(last_reply(&app).code, Code::PROXYING_NOT_SUPPORTED);
    let first = app.transport().last_send;
    assert!(first.unwrap().2 <= DedupEntry::REPLAY_MAX);
    assert_eq!(app.engine().tx_occupied(), 0);
    assert_eq!(app.metrics().tx_ok, 1);
    app.transport_mut().last_send = None;
    app.transport_mut().inbox = Some((peer, wire, n));
    app.poll(1).unwrap();
    assert_eq!(app.transport().last_send, first);
    assert_eq!(app.engine().tx_occupied(), 0);
}

#[test]
fn unfinished_qblock1_with_q_block2_is_a_plain_continue() {
    let peer = Endpoint::v4([192, 0, 2, 9], 5683);
    let mut app = upload_app();
    let wanted = BlockValue::from_size(0, false, 16).expect("block").encode();
    let first = BlockValue::from_size(0, true, 16).expect("block").encode();
    let size1 = encode_uint(32);
    let mut opts = OptionsBuilder::<8>::new();
    for segment in LED_PATH {
        opts.push(Opt::uri_path(segment)).expect("path");
    }
    opts.push(Opt::q_block1(&first)).expect("q-block1");
    opts.push(Opt::q_block2(&wanted)).expect("q-block2");
    opts.push(Opt::size1(&size1)).expect("size1");
    opts.push(Opt::request_tag(b"upload-1")).expect("request-tag");
    let msg = Message::new(Type::Confirmable, Code::PUT, MessageId::new(0x1001))
        .with_token(Token::new(&[0xA1]).expect("token"))
        .with_options(opts.as_slice())
        .with_payload(&[7; 16]);
    let mut wire = [0u8; 256];
    let n = encode(&msg, &mut wire).expect("encode");
    app.transport_mut().inbox = Some((peer, wire, n));
    app.poll(0).unwrap();
    let (_, bytes, n) = app.transport().last_send.expect("sent");
    let reply = decode(&bytes[..n]).expect("decode");
    assert_eq!(reply.ty(), Type::Acknowledgement);
    assert_eq!(reply.code(), Code::CONTINUE);
    assert_eq!(reply.message_id(), MessageId::new(0x1001));
    assert_eq!(reply.token().as_bytes(), &[0xA1]);
    assert!(reply.q_block1().is_none());
    assert!(reply.q_block2().is_empty());
    assert!(reply.block2().is_none());
    assert!(reply.payload().is_empty());
    assert!(app.engine().rx_body_transfer(SlotId::from_index(0)).is_some());
    assert!(app.engine().tx_body_transfer(SlotId::from_index(0)).is_none());
}

#[test]
fn dispatch_frees_the_slot_and_the_whole_body() {
    let peer = Endpoint::v4([192, 0, 2, 9], 5683);
    let mut app = upload_app();
    let waiting = |app: &App<profiles::Default, Loopback, 8, true>| {
        let slots = app.engine().capacities().rx_body_slots.unwrap();
        (0..slots)
            .filter(|&i| app.engine().rx_body_transfer(SlotId::from_index(i)).is_some())
            .count()
    };
    for (num, more, mid, left) in [(0, true, 0x1001, 1), (1, false, 0x1002, 0)] {
        let (wire, n) = encode_req_block1(Code::PUT, LED_PATH, &[7; 16], num, more, 16, mid);
        app.transport_mut().inbox = Some((peer, wire, n));
        app.poll(0).unwrap();
        assert_eq!(app.engine().rx_occupied(), 0);
        assert_eq!(waiting(&app), left);
    }
    assert_eq!(last_reply(&app).code, Code::CHANGED);
    for (num, more, mid, left) in [(0, true, 0x1003, 1), (1, false, 0x1004, 0)] {
        let (wire, n) = encode_block_req(q_block1(&[7; 16], num, more, mid, 32));
        app.transport_mut().inbox = Some((peer, wire, n));
        app.poll(0).unwrap();
        assert_eq!(app.engine().rx_occupied(), 0);
        assert_eq!(waiting(&app), left);
    }
    assert_eq!(last_reply(&app).code, Code::CHANGED);
}

#[test]
fn expired_answer_is_let_go_with_its_slot() {
    static HITS: AtomicUsize = AtomicUsize::new(0);
    static BODY: [u8; DedupEntry::REPLAY_MAX + 16] = [b'P'; DedupEntry::REPLAY_MAX + 16];
    fn counting_post(_: Request<'_>) -> Response<'static> {
        HITS.fetch_add(1, Ordering::SeqCst);
        Response::changed().payload_copy_full(&BODY)
    }
    HITS.store(0, Ordering::SeqCst);

    let peer = Endpoint::v4([192, 0, 2, 1], 5683);
    let (wire, n) = encode_wide(Code::POST, &["bulk"], &[], 0x1001);
    let mut app = App::profile::<profiles::Default>()
        .deterministic_for_tests()
        .block_wise::<false>()
        .route(&["bulk"], post(counting_post))
        .bind(WideLoopback {
            inbox: Some((peer, wire, n)),
            ..WideLoopback::default()
        })
        .expect("bind");
    app.poll(0).expect("first");
    assert_eq!(app.engine().tx_occupied(), 1);
    app.transport_mut().inbox = Some((peer, wire, n));
    app.poll(u64::from(Transmission::EXCHANGE_LIFETIME_MS)).expect("expired");
    assert_eq!(HITS.load(Ordering::SeqCst), 2);
    assert_eq!(app.engine().tx_occupied(), 1);
    assert_eq!(app.transport().send_n, 2);
}

#[test]
fn every_block_of_an_upload_carries_the_queries() {
    let peer = Endpoint::v4([192, 0, 2, 1], 5683);
    let mut app = App::profile::<profiles::Default>()
        .deterministic_for_tests()
        .block_wise::<true>()
        .bind(WideLoopback::default())
        .expect("bind");
    app.put(&["upload"])
        .to(peer)
        .query("a=1")
        .query("b")
        .payload(&LARGE)
        .request_tag(coaptic::storage::BodyTag::new(b"upload-1").unwrap())
        .q_block1()
        .send(0)
        .expect("send");
    let io = app.transport();
    assert_eq!(io.send_n, 2);
    for i in 0..2 {
        let sent = decode(&io.sends[i][..io.send_lens[i]]).expect("decode");
        assert_eq!(sent.uri_query(), vec![Ok("a=1"), Ok("b")]);
        assert_eq!(sent.q_block1().expect("q-block1").expect("block").num(), i as u32);
    }
    app.put(&["upload"])
        .to(Endpoint::v4([192, 0, 2, 2], 5683))
        .query("c")
        .payload(&LARGE)
        .send(0)
        .expect("send");
    let sent = last_wide(&app);
    assert_eq!(sent.uri_query(), vec![Ok("c")]);
    assert_eq!(sent.block1().expect("block1").expect("block").num(), 0);

    let acknowledged = BlockValue::from_size(0, true, 1024).expect("block").encode();
    let mut opts = OptionsBuilder::<8>::new();
    opts.push(Opt::block1(&acknowledged)).expect("block1");
    let msg = Message::new(Type::Acknowledgement, Code::CONTINUE, sent.message_id())
        .with_token(sent.token())
        .with_options(opts.as_slice());
    let mut wire = [0u8; WIRE];
    let n = encode(&msg, &mut wire).expect("encode");
    app.transport_mut().inbox = Some((Endpoint::v4([192, 0, 2, 2], 5683), wire, n));
    app.poll(1).expect("poll");
    assert_eq!(app.transport().send_n, 4);
    let sent = last_wide(&app);
    assert_eq!(sent.uri_query(), vec![Ok("c")]);
    assert_eq!(sent.block1().expect("block1").expect("block").num(), 1);
}

#[test]
fn recovery_that_cannot_be_encoded_fails_the_transfer() {
    const SEGMENT: [u8; 255] = [b'a'; 255];
    let peer = Endpoint::v4([192, 0, 2, 1], 5683);
    let segment = |n: usize| core::str::from_utf8(&SEGMENT[..n]).expect("ascii");
    let mut sent = None;
    for len in (1..=7 * 255).rev() {
        let mut path = [segment(1); 8];
        let mut left = len;
        for part in path.iter_mut().take(7) {
            let n = left.min(255).max(1);
            *part = segment(n);
            left = left.saturating_sub(n);
        }
        let mut app = App::profile::<profiles::Default>()
            .deterministic_for_tests()
            .block_wise::<true>()
            .bind(WideLoopback::default())
            .expect("bind");
        if let Ok(call) = app.get(&path).to(peer).non().send(0) {
            sent = Some((app, call));
            break;
        }
    }
    let (mut app, call) = sent.expect("a path that fits");
    let key = BlockKey::new(call.token(), peer);
    app.engine_mut()
        .apply_q_block2(key, BlockValue::from_size(0, true, 16).expect("0"), &[1; 16], Some(40))
        .expect("0");
    app.engine_mut()
        .apply_q_block2(key, BlockValue::from_size(2, false, 16).expect("2"), &[3; 8], Some(40))
        .expect("2");
    app.poll(0).expect("arm");
    let r = app.poll(u64::from(QBlockTransmission::NON_RECEIVE_TIMEOUT_MS));
    assert!(matches!(
        r,
        Err(Error::Block(BlockTransferError::Encode(EncodeError::BufferTooSmall)))
    ));
    assert_eq!(app.transport().send_n, 1);
}

#[derive(Default)]
struct FailingIo {
    inbox: Option<(Endpoint, [u8; WIRE], usize)>,
    sends: Vec<Vec<u8>>,
    room: usize,
}

impl DatagramIo for FailingIo {
    type Error = &'static str;

    fn recv(&mut self, buf: &mut [u8]) -> Result<Option<(usize, Endpoint)>, Self::Error> {
        let Some((ep, bytes, n)) = self.inbox.take() else {
            return Ok(None);
        };
        buf[..n].copy_from_slice(&bytes[..n]);
        Ok(Some((n, ep)))
    }

    fn send(&mut self, _dest: Endpoint, bytes: &[u8]) -> Result<usize, Self::Error> {
        if self.sends.len() >= self.room {
            return Err("no room");
        }
        self.sends.push(bytes.to_vec());
        Ok(bytes.len())
    }
}

#[test]
fn failed_window_keeps_its_place_and_its_identifiers() {
    static BODY: [u8; 200] = [b'w'; 200];
    fn get_windowed(_: Request<'_>) -> Response<'static> {
        Response::content(&BODY).etag(b"w")
    }
    let peer = Endpoint::v4([192, 0, 2, 1], 5683);
    let mut app = App::profile::<profiles::Default>()
        .deterministic_for_tests()
        .block_wise::<true>()
        .route(&["w"], get(get_windowed))
        .bind(FailingIo { room: 11, ..FailingIo::default() })
        .expect("bind");
    let q = BlockValue::from_size(0, false, 16).expect("q").encode();
    let (wire, n) = encode_wide(Code::GET, &["w"], &[Opt::q_block2(&q)], 0x1001);
    app.transport_mut().inbox = Some((peer, wire, n));
    app.poll(0).expect("window");
    let heads = |app: &App<profiles::Default, FailingIo, 8, true>| -> Vec<(Type, u16)> {
        app.transport()
            .sends
            .iter()
            .map(|bytes| {
                let sent = decode(bytes).expect("decode");
                (sent.ty(), sent.message_id().get())
            })
            .collect()
    };
    let mut expected = vec![(Type::Acknowledgement, 0x1001)];
    expected.extend((1..10).map(|mid| (Type::NonConfirmable, mid)));
    assert_eq!(heads(&app), expected);
    let id = SlotId::from_index(0);
    assert_eq!(app.engine().tx_body_transfer(id).expect("body").next_num, 10);

    let q = BlockValue::from_size(10, true, 16).expect("q").encode();
    let (wire, n) = encode_wide(Code::GET, &["w"], &[Opt::q_block2(&q)], 0x1002);
    app.transport_mut().inbox = Some((peer, wire, n));
    assert!(matches!(app.poll(1), Err(Error::Io(_))));
    expected.push((Type::Acknowledgement, 0x1002));
    assert_eq!(heads(&app), expected);
    let kept = app.engine().tx_body_transfer(id).expect("body");
    assert_eq!(kept.next_num, 12);
    assert!(!kept.complete);
    assert_eq!(app.next_message_id(1), Ok(MessageId::new(11)));
}
