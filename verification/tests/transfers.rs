//! What block-wise requests carry, and when they are refused.
use coaptic::app::{get, put, App, Error, Request, Response, RESPONSE_BODY};
use coaptic::error::{EncodeError, SlotMessageError};
use coaptic::message::{decode, encode, encode_uint, BlockValue, Code, ContentFormat, Message, MessageId, Opt, OptionNumber, OptionsBuilder, Token, Type};
use coaptic::storage::{BlockKey, DatagramIo, Endpoint};
use coaptic::message::Echo as EchoOpt;
use coaptic::profiles;

const LARGE: [u8; 2000] = [b'A'; 2000];

const WIRE: usize = 1472;

fn put_large(req: Request<'_>) -> Response<'static> {
    if req.body() == Some(&LARGE[..]) {
        Response::changed()
    } else {
        Response::new(Code::BAD_REQUEST)
    }
}

fn get_large(_: Request<'_>) -> Response<'static> {
    Response::content(&LARGE)
        .content_format(ContentFormat::OCTET_STREAM)
        .etag(b"large-v1")
}

#[derive(Default)]
struct Loopback {
    inbox: Option<(Endpoint, [u8; 256], usize)>,
    last_send: Option<(Endpoint, [u8; 256], usize)>,
}

impl DatagramIo for Loopback {
    type Error = &'static str;

    fn recv(&mut self, buf: &mut [u8]) -> Result<Option<(usize, Endpoint)>, Self::Error> {
        let Some((ep, bytes, n)) = self.inbox.take() else {
            return Ok(None);
        };
        if n > buf.len() {
            return Err("short buf");
        }
        buf[..n].copy_from_slice(&bytes[..n]);
        Ok(Some((n, ep)))
    }

    fn send(&mut self, dest: Endpoint, bytes: &[u8]) -> Result<usize, Self::Error> {
        if bytes.len() > 256 {
            return Err("too long");
        }
        let mut slot = [0u8; 256];
        slot[..bytes.len()].copy_from_slice(bytes);
        self.last_send = Some((dest, slot, bytes.len()));
        Ok(bytes.len())
    }
}

struct LastReply {
    ty: Type,
    code: Code,
    payload: [u8; 64],
    payload_len: usize,
    content_format: Option<ContentFormat>,
    block2: Option<BlockValue>,
    block1: Option<BlockValue>,
    echo: Option<EchoOpt>,
}

fn last_reply<const BLOCK_WISE: bool>(
    app: &App<profiles::Default, Loopback, 8, BLOCK_WISE>,
) -> LastReply
{
    let (_, bytes, n) = app.transport().last_send.expect("sent");
    let parsed = decode(&bytes[..n]).expect("decode reply");
    let mut payload = [0u8; 64];
    let payload_len = parsed.payload().len().min(64);
    payload[..payload_len].copy_from_slice(&parsed.payload()[..payload_len]);
    LastReply {
        ty: parsed.ty(),
        code: parsed.code(),
        payload,
        payload_len,
        content_format: parsed.content_format().and_then(Result::ok),
        block2: parsed.block2().and_then(Result::ok),
        block1: parsed.block1().and_then(Result::ok),
        echo: EchoOpt::from_option(parsed.echo()),
    }
}

struct BlockReq<'a> {
    code: Code,
    path: &'a [&'a str],
    payload: &'a [u8],
    num: u32,
    more: bool,
    size: u16,
    mid: u16,
    size1: Option<u32>,
    q_block: bool,
}

fn encode_req_block1(
    code: Code,
    path: &[&str],
    payload: &[u8],
    num: u32,
    more: bool,
    size: u16,
    mid: u16,
) -> ([u8; 256], usize) {
    encode_block_req(BlockReq {
        code,
        path,
        payload,
        num,
        more,
        size,
        mid,
        size1: None,
        q_block: false,
    })
}

fn encode_block_req(req: BlockReq<'_>) -> ([u8; 256], usize) {
    let token = Token::new(&[0xA1]).expect("token");
    let mut opts = OptionsBuilder::<8>::new();
    for segment in req.path {
        opts.push(Opt::uri_path(segment)).expect("path");
    }
    let size1_enc = req.size1.map(encode_uint);
    if let Some(ref encoded) = size1_enc {
        opts.push(Opt::size1(encoded)).expect("size1");
    }
    let block = BlockValue::from_size(req.num, req.more, req.size).expect("block");
    let encoded = block.encode();
    if req.q_block {
        opts.push(Opt::q_block1(&encoded)).expect("q-block1");
        opts.push(Opt::request_tag(b"upload-1"))
            .expect("request-tag");
    } else {
        opts.push(Opt::block1(&encoded)).expect("block1");
    }
    let msg = Message::new(Type::Confirmable, req.code, MessageId::new(req.mid))
        .with_token(token)
        .with_options(opts.as_slice())
        .with_payload(req.payload);
    let mut buf = [0u8; 256];
    let n = encode(&msg, &mut buf).expect("encode");
    (buf, n)
}

const LED_PATH: &[&str] = &["leds", "0"];

fn q_block1(payload: &[u8], num: u32, more: bool, mid: u16, size1: u32) -> BlockReq<'_> {
    BlockReq {
        code: Code::PUT,
        path: LED_PATH,
        payload,
        num,
        more,
        size: 16,
        mid,
        size1: Some(size1),
        q_block: true,
    }
}

struct WideLoopback {
    inbox: Option<(Endpoint, [u8; WIRE], usize)>,
    sends: [[u8; WIRE]; 4],
    send_lens: [usize; 4],
    send_n: usize,
}

impl Default for WideLoopback {
    fn default() -> Self {
        Self {
            inbox: None,
            sends: [[0; WIRE]; 4],
            send_lens: [0; 4],
            send_n: 0,
        }
    }
}

impl DatagramIo for WideLoopback {
    type Error = &'static str;

    fn recv(&mut self, buf: &mut [u8]) -> Result<Option<(usize, Endpoint)>, Self::Error> {
        let Some((ep, bytes, n)) = self.inbox.take() else {
            return Ok(None);
        };
        if n > buf.len() {
            return Err("short buf");
        }
        buf[..n].copy_from_slice(&bytes[..n]);
        Ok(Some((n, ep)))
    }

    fn send(&mut self, _dest: Endpoint, bytes: &[u8]) -> Result<usize, Self::Error> {
        if bytes.len() > WIRE {
            return Err("too long");
        }
        if self.send_n >= self.sends.len() {
            return Err("send log full");
        }
        let i = self.send_n;
        self.sends[i][..bytes.len()].copy_from_slice(bytes);
        self.send_lens[i] = bytes.len();
        self.send_n += 1;
        Ok(bytes.len())
    }
}

fn encode_wide(code: Code, path: &[&str], extra: &[Opt<'_>], mid: u16) -> ([u8; WIRE], usize) {
    encode_wide_token(code, path, extra, mid, Token::new(&[0xA1]).expect("token"))
}

fn encode_wide_token(
    code: Code,
    path: &[&str],
    extra: &[Opt<'_>],
    mid: u16,
    token: Token,
) -> ([u8; WIRE], usize) {
    let mut opts = OptionsBuilder::<8>::new();
    for segment in path {
        opts.push(Opt::uri_path(segment)).expect("path");
    }
    for opt in extra {
        opts.push(*opt).expect("extra");
    }
    let msg = Message::new(Type::Confirmable, code, MessageId::new(mid))
        .with_token(token)
        .with_options(opts.as_slice());
    let mut buf = [0u8; WIRE];
    let n = encode(&msg, &mut buf).expect("encode");
    (buf, n)
}

fn last_wide<const BLOCK_WISE: bool>(
    app: &App<profiles::Default, WideLoopback, 8, BLOCK_WISE>,
) -> coaptic::message::ParsedMessage<'_>
{
    let n = app.transport().send_n;
    assert!(n > 0, "expected a send");
    decode(&app.transport().sends[n - 1][..app.transport().send_lens[n - 1]]).expect("decode")
}

/// Send queues into recv so one App is both client and server (Block2 / Q-Block2).
#[derive(Default)]
struct Pipe {
    slots: [Option<(Endpoint, [u8; WIRE], usize)>; 8],
    head: usize,
    len: usize,
}

impl DatagramIo for Pipe {
    type Error = &'static str;

    fn recv(&mut self, buf: &mut [u8]) -> Result<Option<(usize, Endpoint)>, Self::Error> {
        if self.len == 0 {
            return Ok(None);
        }
        let i = self.head;
        let Some((ep, bytes, n)) = self.slots[i].take() else {
            return Ok(None);
        };
        self.head = (self.head + 1) % self.slots.len();
        self.len -= 1;
        if n > buf.len() {
            return Err("short buf");
        }
        buf[..n].copy_from_slice(&bytes[..n]);
        Ok(Some((n, ep)))
    }

    fn send(&mut self, dest: Endpoint, bytes: &[u8]) -> Result<usize, Self::Error> {
        if bytes.len() > WIRE {
            return Err("too long");
        }
        if self.len >= self.slots.len() {
            return Err("pipe full");
        }
        let i = (self.head + self.len) % self.slots.len();
        let mut slot = [0u8; WIRE];
        slot[..bytes.len()].copy_from_slice(bytes);
        self.slots[i] = Some((dest, slot, bytes.len()));
        self.len += 1;
        Ok(bytes.len())
    }
}

fn pipe_app() -> App<profiles::Default, Pipe, 8, true> {
    App::profile::<profiles::Default>()
        .deterministic_for_tests()
        .block_wise::<true>()
        .route(&["large"], get(get_large))
        .route(&["upload"], put(put_large))
        .bind(Pipe::default())
        .expect("bind")
}

struct Taken {
    code: Code,
    format: Option<ContentFormat>,
    token: Option<Token>,
    peer: Option<Endpoint>,
    has_body: bool,
    body: [u8; RESPONSE_BODY],
    body_len: usize,
}

fn poll_until_response(
    app: &mut App<profiles::Default, Pipe, 8, true>,
    call: coaptic::Call,
) -> Taken {
    for t in 0u64..16 {
        app.poll(t).expect("poll");
        if let Some(response) = app.take_response(call) {
            let response = response.expect("remote response");
            let mut body = [0u8; RESPONSE_BODY];
            let (has_body, body_len) = match response.body() {
                Some(src) => {
                    body[..src.len()].copy_from_slice(src);
                    (true, src.len())
                }
                None => (false, 0),
            };
            return Taken {
                code: response.code(),
                format: response.format(),
                token: response.token(),
                peer: response.peer(),
                has_body,
                body,
                body_len,
            };
        }
    }
    panic!("client block-wise exchange did not complete");
}

#[test]
fn block2_requests_with_new_tokens_select_requested_ranges_and_release_slots() {
    let peer = Endpoint::v4([192, 0, 2, 1], 5683);
    let mut app = App::profile::<profiles::Default>()
        .deterministic_for_tests()
        .block_wise::<true>()
        .route(&["large"], get(get_large))
        .bind(WideLoopback::default())
        .expect("bind");
    // More independent requests than the TX body pool capacity, including
    // backwards seeks and a smaller negotiated size. Tokens need not match.
    for (i, num) in [2, 0, 1, 2, 3, 0].into_iter().enumerate() {
        let block = BlockValue::from_size(num, false, 512)
            .expect("block")
            .encode();
        let token = Token::from_checked(&[i as u8]);
        let (wire, n) = encode_wide_token(
            Code::GET,
            &["large"],
            &[Opt::block2(&block)],
            0x7000 + i as u16,
            token,
        );
        app.transport_mut().inbox = Some((peer, wire, n));
        app.transport_mut().send_n = 0;
        app.poll(i as u64).expect("requested block");
        let response = last_wide(&app);
        let got = response.block2().unwrap().unwrap();
        assert_eq!(got.num(), num);
        assert_eq!(got.size(), 512);
        assert_eq!(response.token(), token);
        let offset = num as usize * 512;
        let end = (offset + 512).min(LARGE.len());
        assert_eq!(response.payload(), &LARGE[offset..end]);
        assert_eq!(got.more(), end < LARGE.len());
        assert!(
            app.engine_mut()
                .lookup_tx_body(BlockKey::new(token, peer))
                .is_none()
        );
    }
}

#[test]
fn block2_outside_representation_refuses_without_retaining_body() {
    let peer = Endpoint::v4([192, 0, 2, 1], 5683);
    let block = BlockValue::from_size(100, false, 512).unwrap().encode();
    let (wire, n) = encode_wide(Code::GET, &["large"], &[Opt::block2(&block)], 0x7100);
    let mut app = App::profile::<profiles::Default>()
        .deterministic_for_tests()
        .block_wise::<true>()
        .route(&["large"], get(get_large))
        .bind(WideLoopback {
            inbox: Some((peer, wire, n)),
            ..WideLoopback::default()
        })
        .unwrap();
    app.poll(0).expect("bad range is a protocol rejection");
    assert_eq!(last_wide(&app).code(), Code::BAD_REQUEST);
    assert!(
        app.engine_mut()
            .lookup_tx_body(BlockKey::new(Token::from_checked(&[0xA1]), peer))
            .is_none()
    );
}

#[test]
fn block2_continuations_preserve_ordered_queries_and_accept() {
    #[derive(Default)]
    struct CheckedPipe {
        pipe: Pipe,
        requests: usize,
    }
    impl DatagramIo for CheckedPipe {
        type Error = &'static str;
        fn recv(&mut self, buf: &mut [u8]) -> Result<Option<(usize, Endpoint)>, Self::Error> {
            self.pipe.recv(buf)
        }
        fn send(&mut self, dest: Endpoint, bytes: &[u8]) -> Result<usize, Self::Error> {
            let parsed = decode(bytes).unwrap();
            if parsed.code() == Code::GET {
                let mut queries = parsed.uri_query().into_iter();
                assert_eq!(queries.next(), Some(Ok("rt=Type1")));
                assert_eq!(queries.next(), Some(Ok("")));
                assert_eq!(queries.next(), Some(Ok("if=If1")));
                assert_eq!(queries.next(), None);
                assert_eq!(parsed.accept(), Some(Ok(ContentFormat::OCTET_STREAM)));
                assert_eq!(parsed.echo(), Some(&b"challenge"[..]));
                assert_eq!(
                    parsed.no_response(),
                    Some(Ok(coaptic::message::NoResponse::interested()))
                );
                assert_eq!(parsed.request_tag().into_iter().next(), Some(&b"response"[..]));
                self.requests += 1;
            }
            self.pipe.send(dest, bytes)
        }
    }
    let mut app = App::profile::<profiles::Default>()
        .deterministic_for_tests()
        .block_wise::<true>()
        .route("large", get(get_large))
        .bind(CheckedPipe::default())
        .unwrap();
    let call = app
        .get("large")
        .to(Endpoint::v4([192, 0, 2, 2], 5683))
        .query("rt=Type1")
        .query("")
        .query("if=If1")
        .accept(ContentFormat::OCTET_STREAM)
        .echo(EchoOpt::new(b"challenge").unwrap())
        .no_response(coaptic::message::NoResponse::interested())
        .request_tag(coaptic::storage::BodyTag::new(b"response").unwrap())
        .block2(BlockValue::from_size(0, false, 64).unwrap())
        .send(0)
        .unwrap();
    let mut complete = false;
    for now in 0..200 {
        app.poll(now).unwrap();
        if let Some(response) = app.take_response(call) {
            let response = response.expect("remote response");
            assert_eq!(response.body(), Some(&LARGE[..]));
            complete = true;
            break;
        }
    }
    assert!(complete);
    assert!(app.transport().requests > 1);
    assert_eq!(app.engine_mut().rx_occupied(), 0);
    assert_eq!(app.engine_mut().tx_occupied(), 0);
}

#[test]
fn query_retention_bounds_refuse_before_sending_or_occupying_slots() {
    let bytes = [b'a'; 257];
    let text = core::str::from_utf8(&bytes).unwrap();
    let peer = Endpoint::v4([192, 0, 2, 2], 5683);
    for (first, second, accepted) in [(255, 1, true), (255, 2, false), (256, 0, false)] {
        let mut app = pipe_app();
        let result = app
            .get("large")
            .to(peer)
            .query(&text[..first])
            .query(&text[..second])
            .send(0);
        if accepted {
            assert!(result.is_ok());
            assert_eq!(app.transport().len, 1);
        } else {
            assert_eq!(
                result,
                Err(Error::Message(SlotMessageError::Encode(
                    EncodeError::OptionValueTooLong
                )))
            );
            assert_eq!(app.transport().len, 0);
            assert_eq!(app.engine_mut().tx_occupied(), 0);
            assert!(
                app.get("large").to(peer).send(1).is_ok(),
                "refusal must not consume a live call"
            );
        }
    }
}

#[test]
fn excess_query_count_is_refused_instead_of_silently_dropped() {
    let mut app = pipe_app();
    let mut outgoing = app.get("large").to(Endpoint::v4([192, 0, 2, 2], 5683));
    for _ in 0..9 {
        outgoing = outgoing.query("rt=x");
    }
    assert_eq!(
        outgoing.send(0),
        Err(Error::Message(SlotMessageError::Encode(
            EncodeError::OptionValueTooLong
        )))
    );
    assert_eq!(app.transport().len, 0);
    assert_eq!(app.engine_mut().tx_occupied(), 0);
}

#[test]
fn block1_and_qblock1_preserve_query_and_accept_on_every_upload_block() {
    struct CheckedUpload {
        pipe: Pipe,
        requests: usize,
        assembled: [u8; 2000],
        filled: usize,
    }
    impl Default for CheckedUpload {
        fn default() -> Self {
            Self {
                pipe: Pipe::default(),
                requests: 0,
                assembled: [0; 2000],
                filled: 0,
            }
        }
    }
    impl DatagramIo for CheckedUpload {
        type Error = &'static str;
        fn recv(&mut self, buf: &mut [u8]) -> Result<Option<(usize, Endpoint)>, Self::Error> {
            self.pipe.recv(buf)
        }
        fn send(&mut self, dest: Endpoint, bytes: &[u8]) -> Result<usize, Self::Error> {
            let parsed = decode(bytes).unwrap();
            if parsed.code() == Code::PUT {
                let mut queries = parsed.uri_query().into_iter();
                assert_eq!(queries.next(), Some(Ok("target=one")));
                assert_eq!(queries.next(), Some(Ok("")));
                assert_eq!(queries.next(), Some(Ok("version=2")));
                assert_eq!(queries.next(), None);
                assert_eq!(parsed.accept(), Some(Ok(ContentFormat::OCTET_STREAM)));
                assert_eq!(parsed.echo(), Some(&b"challenge"[..]));
                assert_eq!(
                    parsed.content_format(),
                    Some(Ok(ContentFormat::OCTET_STREAM))
                );
                if parsed.q_block1().is_some() {
                    assert_eq!(parsed.request_tag().into_iter().next(), Some(&b"upload-1"[..]));
                }
                let block = parsed
                    .block1()
                    .or_else(|| parsed.q_block1())
                    .unwrap()
                    .unwrap();
                let offset = block.num() as usize * usize::from(block.size());
                assert_eq!(offset, self.filled);
                self.assembled[offset..offset + parsed.payload().len()]
                    .copy_from_slice(parsed.payload());
                self.filled += parsed.payload().len();
                self.requests += 1;
            }
            self.pipe.send(dest, bytes)
        }
    }
    for qblock in [false, true] {
        let mut app = App::profile::<profiles::Default>()
            .deterministic_for_tests()
            .block_wise::<true>()
            .route(
                "upload",
                put(|req: Request<'_>| {
                    assert_eq!(req.body().unwrap(), &LARGE[..]);
                    Response::changed()
                }),
            )
            .bind(CheckedUpload::default())
            .unwrap();
        let mut request = app
            .put("upload")
            .to(Endpoint::v4([192, 0, 2, 2], 5683))
            .query("target=one")
            .query("")
            .query("version=2")
            .accept(ContentFormat::OCTET_STREAM)
            .echo(EchoOpt::new(b"challenge").unwrap())
            .content_format(ContentFormat::OCTET_STREAM)
            .payload(&LARGE);
        if qblock {
            request = request
                .request_tag(coaptic::storage::BodyTag::new(b"upload-1").unwrap())
                .q_block1();
        }
        let call = request.send(0).unwrap();
        let mut complete = false;
        for now in 0..100 {
            app.poll(now).unwrap();
            if let Some(response) = app.take_response(call) {
                let response = response.expect("remote response");
                assert_eq!(response.code(), Code::CHANGED);
                complete = true;
                break;
            }
        }
        assert!(complete);
        assert!(app.transport().requests > 1);
        assert_eq!(
            &app.transport().assembled[..app.transport().filled],
            &LARGE[..]
        );
        assert_eq!(app.engine_mut().rx_occupied(), 0);
        assert_eq!(app.engine_mut().tx_occupied(), 0);
    }
}

#[test]
fn upload_query_overflow_refuses_without_io_or_body_allocation() {
    let peer = Endpoint::v4([192, 0, 2, 2], 5683);
    let long = [b'x'; 257];
    let text = core::str::from_utf8(&long).unwrap();
    for qblock in [false, true] {
        for count_overflow in [false, true] {
            let mut app = pipe_app();
            let mut outgoing = app.put("upload").to(peer).payload(&LARGE);
            if qblock {
                outgoing = outgoing
                    .request_tag(coaptic::storage::BodyTag::new(b"upload-1").unwrap())
                    .q_block1();
            }
            if count_overflow {
                for _ in 0..9 {
                    outgoing = outgoing.query("x=1");
                }
            } else {
                outgoing = outgoing.query(&text[..255]).query(&text[..2]);
            }
            assert_eq!(
                outgoing.send(0),
                Err(Error::Message(SlotMessageError::Encode(
                    EncodeError::OptionValueTooLong
                )))
            );
            assert_eq!(app.transport().len, 0);
            assert_eq!(app.engine_mut().tx_occupied(), 0);
            // A rejected upload must not consume the bounded outgoing body pool
            // or live-call admission: all normal block-wise work still completes.
            let call = app.put("upload").to(peer).payload(&LARGE).send(1).unwrap();
            assert_eq!(poll_until_response(&mut app, call).code, Code::CHANGED);
            assert_eq!(app.engine_mut().rx_occupied(), 0);
            assert_eq!(app.engine_mut().tx_occupied(), 0);
        }
    }
}

#[test]
fn fragmented_conditional_upload_is_refused_instead_of_becoming_unconditional() {
    let peer = Endpoint::v4([192, 0, 2, 2], 5683);
    for qblock in [false, true] {
        for condition in 0..3 {
            let mut app = pipe_app();
            let mut request = app.put("upload").to(peer).payload(&LARGE);
            if qblock {
                request = request
                    .request_tag(coaptic::storage::BodyTag::new(b"upload-1").unwrap())
                    .q_block1();
            }
            request = match condition {
                0 => request.if_match(b"version"),
                1 => request.if_none_match(),
                _ => request.etag(b"version"),
            };
            assert_eq!(request.send(0), Err(Error::ConditionalUploadUnsupported));
            assert_eq!(
                app.transport().len,
                0,
                "no unconditional fragment may escape"
            );
            assert_eq!(app.engine_mut().tx_occupied(), 0);
            let call = app.put("upload").to(peer).payload(&LARGE).send(1).unwrap();
            assert_eq!(poll_until_response(&mut app, call).code, Code::CHANGED);
        }
    }
}

#[test]
fn single_datagram_conditional_upload_preserves_conditions() {
    let peer = Endpoint::v4([192, 0, 2, 2], 5683);
    for condition in 0..3 {
        let mut app = pipe_app();
        let request = app.put("upload").to(peer).payload(b"small");
        let request = match condition {
            0 => request.if_match(b"version"),
            1 => request.if_none_match(),
            _ => request.etag(b"version"),
        };
        request.send(0).unwrap();
        let (_, bytes, n) = app.transport().slots[0].as_ref().unwrap();
        let message = decode(&bytes[..*n]).unwrap();
        assert_eq!(message.payload(), b"small");
        assert!(message.block1().is_none());
        let option = match condition {
            0 => OptionNumber::IF_MATCH,
            1 => OptionNumber::IF_NONE_MATCH,
            _ => OptionNumber::ETAG,
        };
        assert_eq!(
            message.get_option(option).map(|o| o.value()),
            Some(if condition == 1 {
                &b""[..]
            } else {
                &b"version"[..]
            })
        );
    }
}

#[test]
fn qblock_upload_requires_tag_and_refusal_preserves_capacity() {
    let peer = Endpoint::v4([192, 0, 2, 2], 5683);
    let mut app = pipe_app();
    assert_eq!(
        app.put("upload")
            .to(peer)
            .payload(&LARGE)
            .q_block1()
            .send(0),
        Err(Error::RequestTagRequired)
    );
    assert_eq!(app.transport().len, 0);
    assert_eq!(app.engine_mut().tx_occupied(), 0);
    let call = app
        .put("upload")
        .to(peer)
        .payload(&LARGE)
        .request_tag(coaptic::storage::BodyTag::empty())
        .q_block1()
        .send(1)
        .unwrap();
    assert_eq!(poll_until_response(&mut app, call).code, Code::CHANGED);
    assert_eq!(app.engine_mut().tx_occupied(), 0);
}

#[test]
fn active_request_tag_cannot_be_recycled_at_the_same_peer() {
    let peer = Endpoint::v4([192, 0, 2, 2], 5683);
    let other = Endpoint::v4([192, 0, 2, 3], 5683);
    let tag = coaptic::storage::BodyTag::new(b"unique").unwrap();
    let mut app = pipe_app();
    let first = app.get("large").to(peer).request_tag(tag).send(0).unwrap();
    assert_eq!(
        app.get("large").to(peer).request_tag(tag).send(0),
        Err(Error::RequestTagInUse)
    );
    assert_eq!(app.transport().len, 1);
    assert_eq!(poll_until_response(&mut app, first).code, Code::CONTENT);
    app.get("large").to(peer).request_tag(tag).send(1).unwrap();
    app.get("large").to(other).request_tag(tag).send(1).unwrap();
}

#[test]
fn malformed_or_missing_qblock_request_tag_is_refused_before_dispatch() {
    let block = BlockValue::from_size(0, false, 16).unwrap().encode();
    for tags in [
        &[][..],
        &[&b"123456789"[..]][..],
        &[&b"a"[..], &b"b"[..]][..],
    ] {
        let mut opts = OptionsBuilder::<8>::new();
        opts.push(Opt::q_block1(&block)).unwrap();
        for tag in tags {
            opts.push(Opt::request_tag(tag)).unwrap();
        }
        let (wire, n) = encode_wide(Code::PUT, &["upload"], opts.as_slice(), 0x7711);
        let peer = Endpoint::v4([192, 0, 2, 2], 5683);
        let mut app = App::profile::<profiles::Default>()
            .deterministic_for_tests()
            .block_wise::<true>()
            .route(
                "upload",
                put(|_: Request<'_>| -> Response<'static> {
                    panic!("invalid tag reached handler")
                }),
            )
            .bind(WideLoopback {
                inbox: Some((peer, wire, n)),
                ..WideLoopback::default()
            })
            .unwrap();
        app.poll(0).unwrap();
        assert_eq!(last_wide(&app).code(), Code::BAD_OPTION);
        assert_eq!(app.engine_mut().rx_occupied(), 0);
    }
}

#[test]
fn disabled_block_assembly_refuses_before_handler_dispatch() {
    let (wire, n) = encode_req_block1(Code::PUT, &["upload"], &[0x11; 16], 0, true, 16, 0x7111);
    let peer = Endpoint::v4([192, 0, 2, 2], 5683);
    let mut app = App::profile::<profiles::Default>()
        .deterministic_for_tests()
        .block_wise::<false>()
        .route(
            "upload",
            put(|_: Request<'_>| -> Response<'static> {
                panic!("fragment reached non-block handler")
            }),
        )
        .bind(Loopback {
            inbox: Some((peer, wire, n)),
            ..Loopback::default()
        })
        .unwrap();
    app.poll(0).unwrap();
    assert_eq!(last_reply(&app).code, Code::BAD_OPTION);
    assert_eq!(app.engine_mut().rx_occupied(), 0);
}

#[test]
fn empty_query_values_count_toward_the_option_bound() {
    let peer = Endpoint::v4([192, 0, 2, 2], 5683);
    let mut app = pipe_app();
    let mut outgoing = app.get("value").to(peer);
    for _ in 0..9 {
        outgoing = outgoing.query("");
    }
    assert_eq!(
        outgoing.send(0),
        Err(Error::Message(SlotMessageError::Encode(
            EncodeError::OptionValueTooLong
        )))
    );
    assert_eq!(app.transport().len, 0);
    assert_eq!(app.engine_mut().tx_occupied(), 0);
    assert!(app.get("value").to(peer).query("").send(1).is_ok());
}
