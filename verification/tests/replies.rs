//! What is kept of a response.
use coaptic::app::{get, put, App, Error, Request, Response};
use coaptic::message::{decode, encode, encode_uint, BlockValue, Code, ContentFormat, Message, MessageId, NoResponse, ObserveTransmission, Opt, OptionNumber, OptionsBuilder, Token, Type};
use coaptic::storage::{BodyTag, DatagramIo, Endpoint, ObserveKey, SlotId};
use coaptic::message::Echo as EchoOpt;
use coaptic::profiles;

const LARGE: [u8; 2000] = [b'A'; 2000];

const WIRE: usize = 1472;

fn put_large(req: Request<'_>) -> Response<'static> {
    if req.body() == Some(&LARGE[..]) {
        Response::changed()
    } else {
        Response::new(Code::BAD_REQUEST)
    }
}

fn get_large(_: Request<'_>) -> Response<'static> {
    Response::content(&LARGE)
        .content_format(ContentFormat::OCTET_STREAM)
        .etag(b"large-v1")
}

fn get_obs(_req: Request<'_>) -> Response<'static> {
    Response::content(b"obs-0")
        .content_format(ContentFormat::TEXT_PLAIN)
        .max_age(5)
        .observe(0)
}

fn obs_snapshot() -> Response<'static> {
    Response::content(b"obs-snap").content_format(ContentFormat::TEXT_PLAIN)
}

/// Captures more than one TX datagram so a separate ACK + CON, or a CON
/// retransmit, can be checked. Send is not delivered to `recv` (the caller
/// injects inbox, or leaves it empty to model loss).
#[derive(Default)]
struct RecordIo {
    inbox: Option<(Endpoint, [u8; 256], usize)>,
    sent: [Option<(Endpoint, [u8; 256], usize)>; 8],
    sent_n: usize,
}

impl DatagramIo for RecordIo {
    type Error = &'static str;

    fn recv(&mut self, buf: &mut [u8]) -> Result<Option<(usize, Endpoint)>, Self::Error> {
        let Some((ep, bytes, n)) = self.inbox.take() else {
            return Ok(None);
        };
        if n > buf.len() {
            return Err("short buf");
        }
        buf[..n].copy_from_slice(&bytes[..n]);
        Ok(Some((n, ep)))
    }

    fn send(&mut self, dest: Endpoint, bytes: &[u8]) -> Result<usize, Self::Error> {
        if bytes.len() > 256 {
            return Err("too long");
        }
        if self.sent_n >= self.sent.len() {
            return Err("full");
        }
        let mut slot = [0u8; 256];
        slot[..bytes.len()].copy_from_slice(bytes);
        self.sent[self.sent_n] = Some((dest, slot, bytes.len()));
        self.sent_n += 1;
        Ok(bytes.len())
    }
}

struct BlockReq<'a> {
    code: Code,
    path: &'a [&'a str],
    payload: &'a [u8],
    num: u32,
    more: bool,
    size: u16,
    mid: u16,
    size1: Option<u32>,
    q_block: bool,
}

const LED_PATH: &[&str] = &["leds", "0"];

fn q_block1(payload: &[u8], num: u32, more: bool, mid: u16, size1: u32) -> BlockReq<'_> {
    BlockReq {
        code: Code::PUT,
        path: LED_PATH,
        payload,
        num,
        more,
        size: 16,
        mid,
        size1: Some(size1),
        q_block: true,
    }
}

struct WideLoopback {
    inbox: Option<(Endpoint, [u8; WIRE], usize)>,
    sends: [[u8; WIRE]; 4],
    send_lens: [usize; 4],
    send_n: usize,
}

impl Default for WideLoopback {
    fn default() -> Self {
        Self {
            inbox: None,
            sends: [[0; WIRE]; 4],
            send_lens: [0; 4],
            send_n: 0,
        }
    }
}

impl DatagramIo for WideLoopback {
    type Error = &'static str;

    fn recv(&mut self, buf: &mut [u8]) -> Result<Option<(usize, Endpoint)>, Self::Error> {
        let Some((ep, bytes, n)) = self.inbox.take() else {
            return Ok(None);
        };
        if n > buf.len() {
            return Err("short buf");
        }
        buf[..n].copy_from_slice(&bytes[..n]);
        Ok(Some((n, ep)))
    }

    fn send(&mut self, _dest: Endpoint, bytes: &[u8]) -> Result<usize, Self::Error> {
        if bytes.len() > WIRE {
            return Err("too long");
        }
        if self.send_n >= self.sends.len() {
            return Err("send log full");
        }
        let i = self.send_n;
        self.sends[i][..bytes.len()].copy_from_slice(bytes);
        self.send_lens[i] = bytes.len();
        self.send_n += 1;
        Ok(bytes.len())
    }
}

fn encode_wide(code: Code, path: &[&str], extra: &[Opt<'_>], mid: u16) -> ([u8; WIRE], usize) {
    encode_wide_token(code, path, extra, mid, Token::new(&[0xA1]).expect("token"))
}

fn encode_wide_token(
    code: Code,
    path: &[&str],
    extra: &[Opt<'_>],
    mid: u16,
    token: Token,
) -> ([u8; WIRE], usize) {
    let mut opts = OptionsBuilder::<8>::new();
    for segment in path {
        opts.push(Opt::uri_path(segment)).expect("path");
    }
    for opt in extra {
        opts.push(*opt).expect("extra");
    }
    let msg = Message::new(Type::Confirmable, code, MessageId::new(mid))
        .with_token(token)
        .with_options(opts.as_slice());
    let mut buf = [0u8; WIRE];
    let n = encode(&msg, &mut buf).expect("encode");
    (buf, n)
}

fn last_wide<const BLOCK_WISE: bool>(
    app: &App<profiles::Default, WideLoopback, 8, BLOCK_WISE>,
) -> coaptic::message::ParsedMessage<'_>
{
    let n = app.transport().send_n;
    assert!(n > 0, "expected a send");
    decode(&app.transport().sends[n - 1][..app.transport().send_lens[n - 1]]).expect("decode")
}

fn observe_registered<const BLOCK_WISE: bool>(
    app: &App<profiles::Default, WideLoopback, 8, BLOCK_WISE>,
    peer: Endpoint,
) -> bool
{
    observe_live(app, peer, Token::new(&[0xA1]).expect("token"))
}

fn observe_live<const BLOCK_WISE: bool>(
    app: &App<profiles::Default, WideLoopback, 8, BLOCK_WISE>,
    peer: Endpoint,
    token: Token,
) -> bool
{
    app.engine()
        .lookup_observe(ObserveKey::new(token, peer))
        .is_some()
}

/// Send queues into recv so one App is both client and server (Block2 / Q-Block2).
#[derive(Default)]
struct Pipe {
    slots: [Option<(Endpoint, [u8; WIRE], usize)>; 8],
    head: usize,
    len: usize,
}

impl DatagramIo for Pipe {
    type Error = &'static str;

    fn recv(&mut self, buf: &mut [u8]) -> Result<Option<(usize, Endpoint)>, Self::Error> {
        if self.len == 0 {
            return Ok(None);
        }
        let i = self.head;
        let Some((ep, bytes, n)) = self.slots[i].take() else {
            return Ok(None);
        };
        self.head = (self.head + 1) % self.slots.len();
        self.len -= 1;
        if n > buf.len() {
            return Err("short buf");
        }
        buf[..n].copy_from_slice(&bytes[..n]);
        Ok(Some((n, ep)))
    }

    fn send(&mut self, dest: Endpoint, bytes: &[u8]) -> Result<usize, Self::Error> {
        if bytes.len() > WIRE {
            return Err("too long");
        }
        if self.len >= self.slots.len() {
            return Err("pipe full");
        }
        let i = (self.head + self.len) % self.slots.len();
        let mut slot = [0u8; WIRE];
        slot[..bytes.len()].copy_from_slice(bytes);
        self.slots[i] = Some((dest, slot, bytes.len()));
        self.len += 1;
        Ok(bytes.len())
    }
}

fn pipe_app() -> App<profiles::Default, Pipe, 8, true> {
    App::profile::<profiles::Default>()
        .deterministic_for_tests()
        .block_wise::<true>()
        .route(&["large"], get(get_large))
        .route(&["upload"], put(put_large))
        .bind(Pipe::default())
        .expect("bind")
}

fn record_client() -> App<profiles::Default, RecordIo, 8, false> {
    App::profile::<profiles::Default>()
        .deterministic_for_tests()
        .block_wise::<false>()
        .bind(RecordIo::default())
        .expect("bind")
}

fn inject_empty(app: &mut App<profiles::Default, RecordIo, 8, false>, peer: Endpoint, msg: Message<'_>) {
    let mut buf = [0u8; 256];
    let n = encode(&msg, &mut buf).expect("empty");
    app.transport_mut().inbox = Some((peer, buf, n));
}

#[test]
fn client_snapshot_retains_location_max_age_echo_and_unknown_options() {
    let peer = Endpoint::v4([192, 0, 2, 2], 5683);
    let mut app = App::profile::<profiles::Default>()
        .deterministic_for_tests()
        .block_wise::<false>()
        .bind(WideLoopback::default())
        .unwrap();
    let call = app.post("create").to(peer).send(0).unwrap();
    let mid = decode(&app.transport().sends[0][..app.transport().send_lens[0]])
        .unwrap()
        .message_id();
    let max_age = encode_uint(0);
    let options = [
        Opt::etag(b"version"),
        Opt::location_path(""),
        Opt::location_path("a/b"),
        Opt::location_path(""),
        Opt::max_age(&max_age),
        Opt::location_query(""),
        Opt::location_query("x=é&y"),
        Opt::echo(b"challenge"),
        Opt::new(2048, b"opaque"),
    ];
    let msg = Message::new(Type::Acknowledgement, Code::CREATED, mid)
        .with_token(call.token())
        .with_options(&options)
        .with_payload(b"created");
    let mut wire = [0; WIRE];
    let n = encode(&msg, &mut wire).unwrap();
    app.transport_mut().inbox = Some((peer, wire, n));
    app.poll(1).unwrap();
    let response = app.take_response(call).unwrap().unwrap();
    assert_eq!(response.location_paths(), &["", "a/b", ""]);
    assert_eq!(response.location_queries(), &["", "x=é&y"]);
    assert_eq!(response.max_age_secs(), Some(0));
    assert_eq!(
        response.echo_option().cloned(),
        Some(EchoOpt::new(b"challenge").unwrap())
    );
    assert_eq!(response.etag_bytes(), Some(&b"version"[..]));
    assert_eq!(response.payload(), b"created");
    assert!(response.received_options().iter().copied().eq(options));
    assert_eq!(response.validate(), Ok(()));
}

#[test]
fn client_metadata_byte_count_and_location_bounds_refuse_without_partial_reply() {
    for mode in 0..8 {
        let peer = Endpoint::v4([192, 0, 2, 2], 5683);
        let mut app = App::profile::<profiles::Default>()
            .deterministic_for_tests()
            .block_wise::<false>()
            .bind(WideLoopback::default())
            .unwrap();
        let call = app.get("value").to(peer).send(0).unwrap();
        let request = decode(&app.transport().sends[0][..app.transport().send_lens[0]]).unwrap();
        let mut options = OptionsBuilder::<25>::new();
        let bytes = [0x5a; 512];
        match mode {
            0 | 1 => {
                // Exact retained header bound, followed by one byte over it.
                // Header + actual Token + option delta/length extension bytes.
                let overhead = 4 + call.token().len() + 5;
                let len = coaptic::app::RESPONSE_OPTION_BYTES - overhead + mode;
                options
                    .push(Opt::new(2048, &bytes[..len]))
                    .unwrap();
            }
            2 | 3 => {
                for index in 0..(coaptic::app::RESPONSE_OPTION_COUNT + mode - 2) {
                    options
                        .push(Opt::new(2048 + 2 * index as u16, &[]))
                        .unwrap();
                }
            }
            _ => {
                for _ in 0..(coaptic::app::LOCATION_MAX + mode % 2) {
                    options
                        .push(if mode < 6 {
                            Opt::location_path("")
                        } else {
                            Opt::location_query("")
                        })
                        .unwrap();
                }
            }
        }
        let msg = Message::new(Type::Acknowledgement, Code::CONTENT, request.message_id())
            .with_token(call.token())
            .with_options(options.as_slice());
        let mut wire = [0; WIRE];
        let n = encode(&msg, &mut wire).unwrap();
        if mode <= 1 {
            assert_eq!(n, coaptic::app::RESPONSE_OPTION_BYTES + mode);
        }
        app.transport_mut().inbox = Some((peer, wire, n));
        app.poll(1).unwrap();
        let result = app.take_response(call).unwrap();
        if mode % 2 == 0 {
            let response = result.unwrap();
            assert!(
                response
                    .received_options()
                    .iter()
                    .copied()
                    .eq(options.as_slice().iter().copied())
            );
        } else {
            assert_eq!(
                result.unwrap_err(),
                coaptic::CallFailure::ResponseMetadataBounds
            );
        }
        assert_eq!(app.engine_mut().rx_occupied(), 0);
        assert_eq!(app.engine_mut().tx_occupied(), 0);
        assert!(app.get("next").to(peer).send(2).is_ok());
    }
}

#[test]
fn block2_retains_first_fragment_metadata_and_never_exposes_partial_reply() {
    let peer = Endpoint::v4([192, 0, 2, 2], 5683);
    let mut app = App::profile::<profiles::Default>()
        .deterministic_for_tests()
        .block_wise::<true>()
        .bind(WideLoopback::default())
        .unwrap();
    let call = app.get("value").to(peer).observe().send(0).unwrap();
    for num in 0..2 {
        let index = app.transport().send_n - 1;
        let mid = decode(&app.transport().sends[index][..app.transport().send_lens[index]])
            .unwrap()
            .message_id();
        let block = BlockValue::from_size(num, num == 0, 16).unwrap().encode();
        let mut options = OptionsBuilder::<8>::new();
        options.push(Opt::etag(b"body")).unwrap();
        if num == 0 {
            options.push(Opt::observe_register()).unwrap();
            options.push(Opt::location_path("first")).unwrap();
            options
                .push(Opt::new(OptionNumber::CONTENT_FORMAT, &[0]))
                .unwrap();
            options.push(Opt::new(OptionNumber::MAX_AGE, &[5])).unwrap();
        }
        options.push(Opt::block2(&block)).unwrap();
        let msg = Message::new(Type::Acknowledgement, Code::CONTENT, mid)
            .with_token(call.token())
            .with_options(options.as_slice())
            .with_payload(if num == 0 {
                b"abcdefghijklmnop"
            } else {
                b"qrstuvwx"
            });
        let mut wire = [0; WIRE];
        let n = encode(&msg, &mut wire).unwrap();
        app.transport_mut().inbox = Some((peer, wire, n));
        app.poll(u64::from(num) + 1).unwrap();
        if num == 0 {
            assert!(app.take_response(call).is_none());
        }
    }
    let response = app.take_response(call).unwrap().unwrap();
    assert_eq!(response.body(), Some(&b"abcdefghijklmnopqrstuvwx"[..]));
    assert_eq!(response.location_paths(), &["first"]);
    assert_eq!(response.max_age_secs(), Some(5));
    assert_eq!(response.received_at_ms(), Some(1));
    assert_eq!(response.observe_seq(), Some(0));
    assert_eq!(response.format(), Some(ContentFormat::TEXT_PLAIN));
    assert!(
        app.engine()
            .lookup_observe(ObserveKey::new_client(call.token(), peer))
            .is_some()
    );
    assert!(app.cancel(call));
    assert_eq!(
        app.take_response(call).unwrap().unwrap_err(),
        coaptic::CallFailure::Cancelled
    );
}

#[test]
fn four_untaken_response_metadata_snapshots_remain_distinct_and_bounded() {
    let peer = Endpoint::v4([192, 0, 2, 2], 5683);
    let names = ["one", "two", "three", "four"];
    let mut app = App::profile::<profiles::Default>()
        .deterministic_for_tests()
        .block_wise::<false>()
        .bind(WideLoopback::default())
        .unwrap();
    let mut calls = [None; 4];
    for (index, name) in names.iter().enumerate() {
        let call = app.get("value").to(peer).non().send(0).unwrap();
        calls[index] = Some(call);
        let options = [Opt::location_path(name)];
        let msg = Message::new(
            Type::NonConfirmable,
            Code::CONTENT,
            MessageId::new(100 + index as u16),
        )
        .with_token(call.token())
        .with_options(&options);
        let mut wire = [0; WIRE];
        let n = encode(&msg, &mut wire).unwrap();
        app.transport_mut().inbox = Some((peer, wire, n));
        app.poll(1).unwrap();
    }
    assert_eq!(app.get("overflow").to(peer).send(2), Err(Error::Saturated));
    for index in [2, 0, 3, 1] {
        let response = app.take_response(calls[index].unwrap()).unwrap().unwrap();
        assert_eq!(response.location_paths(), &[names[index]]);
        assert_eq!(response.received_options().into_iter().count(), 1);
    }
    app.transport_mut().send_n = 0;
    assert!(app.get("next").to(peer).send(3).is_ok());
}

#[test]
fn block2_metadata_overflow_reclaims_partial_body_and_call() {
    let peer = Endpoint::v4([192, 0, 2, 2], 5683);
    let mut app = App::profile::<profiles::Default>()
        .deterministic_for_tests()
        .block_wise::<true>()
        .bind(WideLoopback::default())
        .unwrap();
    let call = app.get("value").to(peer).send(0).unwrap();
    for num in 0..2 {
        let index = app.transport().send_n - 1;
        let mid = decode(&app.transport().sends[index][..app.transport().send_lens[index]])
            .unwrap()
            .message_id();
        let block = BlockValue::from_size(num, num == 0, 16).unwrap().encode();
        let mut options = OptionsBuilder::<3>::new();
        options.push(Opt::etag(b"body")).unwrap();
        options.push(Opt::block2(&block)).unwrap();
        let huge = [1; 600];
        if num == 1 {
            options
                .push(Opt::new(2048, &huge))
                .unwrap();
        }
        let msg = Message::new(Type::Acknowledgement, Code::CONTENT, mid)
            .with_token(call.token())
            .with_options(options.as_slice())
            .with_payload(if num == 0 {
                b"abcdefghijklmnop"
            } else {
                b"qrstuvwx"
            });
        let mut wire = [0; WIRE];
        let n = encode(&msg, &mut wire).unwrap();
        app.transport_mut().inbox = Some((peer, wire, n));
        app.poll(u64::from(num) + 1).unwrap();
        if num == 0 {
            assert!(app.take_response(call).is_none());
        }
    }
    assert_eq!(
        app.take_response(call).unwrap().unwrap_err(),
        coaptic::CallFailure::ResponseMetadataBounds
    );
    for index in 0..app.engine().capacities().rx_body_slots.unwrap() {
        assert!(
            app.engine()
                .rx_body_transfer(SlotId::from_index(index))
                .is_none()
        );
    }
    assert_eq!(app.engine().tx_occupied(), 0);
    assert!(app.get("next").to(peer).send(3).is_ok());
}

#[test]
fn malformed_elective_response_values_remain_raw_without_creating_observe() {
    let peer = Endpoint::v4([192, 0, 2, 2], 5683);
    let mut app = App::profile::<profiles::Default>()
        .deterministic_for_tests()
        .block_wise::<false>()
        .bind(WideLoopback::default())
        .unwrap();
    let call = app.get("value").to(peer).observe().send(0).unwrap();
    let mid = decode(&app.transport().sends[0][..app.transport().send_lens[0]])
        .unwrap()
        .message_id();
    let options = [
        Opt::etag(&[]),
        Opt::new(OptionNumber::OBSERVE, &[1; 4]),
        Opt::new(OptionNumber::LOCATION_PATH, &[0xff]),
        Opt::location_path(".."),
        Opt::new(OptionNumber::CONTENT_FORMAT, &[1; 3]),
        Opt::new(OptionNumber::MAX_AGE, &[1; 5]),
        Opt::echo(&[]),
    ];
    let msg = Message::new(Type::Acknowledgement, Code::CONTENT, mid)
        .with_token(call.token())
        .with_options(&options)
        .with_payload(b"ok");
    let mut wire = [0; WIRE];
    let n = encode(&msg, &mut wire).unwrap();
    app.transport_mut().inbox = Some((peer, wire, n));
    app.poll(1).unwrap();
    let response = app.take_response(call).unwrap().unwrap();
    assert_eq!(response.etag_bytes(), None);
    assert_eq!(response.format(), None);
    assert_eq!(response.observe_seq(), None);
    assert_eq!(response.max_age_secs(), None);
    assert_eq!(response.echo_option(), None);
    assert!(response.location_paths().is_empty());
    assert!(response.received_options().iter().copied().eq(options));
    assert!(!observe_live(&app, peer, call.token()));
}

#[test]
fn explicit_echo_retry_uses_received_challenge_and_preserves_request() {
    fn handler(req: Request<'_>) -> Response<'static> {
        assert_eq!(req.payload(), b"set-value");
        assert_eq!(req.uri_query().into_iter().next(), Some(Ok("version=1")));
        if req.echo() == Some(&b"opaque-challenge"[..]) {
            Response::changed()
        } else {
            Response::new(Code::UNAUTHORIZED).echo(EchoOpt::new(b"opaque-challenge").unwrap())
        }
    }
    let peer = Endpoint::v4([192, 0, 2, 2], 5683);
    let mut app = App::profile::<profiles::Default>()
        .deterministic_for_tests()
        .block_wise::<true>()
        .route("value", put(handler))
        .bind(Pipe::default())
        .unwrap();
    let first = app
        .put("value")
        .to(peer)
        .query("version=1")
        .payload(b"set-value")
        .send(0)
        .unwrap();
    app.poll(0).unwrap();
    app.poll(1).unwrap();
    let challenge = {
        let response = app.take_response(first).unwrap().unwrap();
        assert_eq!(response.code(), Code::UNAUTHORIZED);
        assert_eq!(response.peer(), Some(peer));
        response.echo_option().unwrap().clone()
    };
    assert_eq!(app.transport().len, 0, "retry is explicit");
    let retry = app
        .put("value")
        .to(peer)
        .query("version=1")
        .payload(b"set-value")
        .echo(challenge)
        .send(2)
        .unwrap();
    assert_ne!(retry.token(), first.token());
    app.poll(2).unwrap();
    app.poll(3).unwrap();
    assert_eq!(
        app.take_response(retry).unwrap().unwrap().code(),
        Code::CHANGED
    );
}

#[test]
fn client_no_response_preserves_bitmap_and_never_reports_silence_as_success() {
    let peer = Endpoint::v4([192, 0, 2, 2], 5683);
    for non in [false, true] {
        for (mask, found, expected) in [
            (0, true, Some(Code::CHANGED)),
            (2, true, None),
            (2, false, Some(Code::NOT_FOUND)),
            (26, false, None),
        ] {
            let mut app = App::profile::<profiles::Default>()
                .deterministic_for_tests()
                .block_wise::<true>()
                .route("value", put(|_: Request<'_>| Response::changed()))
                .bind(Pipe::default())
                .unwrap();
            let mut request = app
                .put(if found { "value" } else { "missing" })
                .to(peer)
                .payload(b"update")
                .no_response(NoResponse::new(mask))
                .deadline(20);
            if non {
                request = request.non();
            }
            let call = request.send(0).unwrap();
            let (_, wire, n) = app.transport().slots[app.transport().head].unwrap();
            let parsed = decode(&wire[..n]).unwrap();
            assert_eq!(parsed.no_response(), Some(Ok(NoResponse::new(mask))));
            if mask == 0 {
                assert_eq!(
                    parsed
                        .get_option(OptionNumber::NO_RESPONSE)
                        .unwrap()
                        .value(),
                    &[]
                );
            }
            app.poll(0).unwrap();
            app.poll(1).unwrap();
            if let Some(code) = expected {
                assert_eq!(app.take_response(call).unwrap().unwrap().code(), code);
            } else {
                assert!(app.take_response(call).is_none());
                app.poll(20).unwrap();
                assert_eq!(
                    app.take_response(call).unwrap().unwrap_err(),
                    coaptic::CallFailure::DeadlineExceeded
                );
            }
            assert_eq!(app.engine().tx_occupied(), 0);
        }
    }
}

#[test]
fn no_response_unsupported_upload_and_observe_refuse_before_io() {
    let peer = Endpoint::v4([192, 0, 2, 2], 5683);
    let mut app = pipe_app();
    assert_eq!(
        app.put("upload")
            .to(peer)
            .payload(&LARGE)
            .no_response(NoResponse::interested())
            .send(0),
        Err(Error::NoResponseUploadUnsupported)
    );
    assert_eq!(
        app.put("upload")
            .to(peer)
            .payload(b"small")
            .q_block1()
            .no_response(NoResponse::new(2))
            .send(0),
        Err(Error::NoResponseUploadUnsupported)
    );
    assert_eq!(
        app.get("value")
            .to(peer)
            .observe()
            .no_response(NoResponse::new(2))
            .send(0),
        Err(Error::NoResponseObserveUnsupported)
    );
    assert_eq!(app.transport().len, 0);
    assert_eq!(app.engine().tx_occupied(), 0);
    assert_eq!(
        app.get("value")
            .to(peer)
            .deregister()
            .no_response(NoResponse::new(NoResponse::SUPPRESS_ALL))
            .send(1),
        Err(Error::ObserveCancellationMismatch)
    );
    assert_eq!(app.transport().len, 0);
}

#[test]
fn failed_upload_send_retires_partial_window_and_preserves_other_call() {
    struct FaultIo {
        sends: usize,
        fail_at: usize,
        short: bool,
    }
    impl DatagramIo for FaultIo {
        type Error = &'static str;
        fn recv(&mut self, _: &mut [u8]) -> Result<Option<(usize, Endpoint)>, Self::Error> {
            Ok(None)
        }
        fn send(&mut self, _: Endpoint, bytes: &[u8]) -> Result<usize, Self::Error> {
            self.sends += 1;
            if self.sends == self.fail_at {
                if self.short {
                    Ok(bytes.len() - 1)
                } else {
                    Err("injected upload failure")
                }
            } else {
                Ok(bytes.len())
            }
        }
    }
    let peer = Endpoint::v4([192, 0, 2, 2], 5683);
    let other = Endpoint::v4([192, 0, 2, 3], 5683);
    for qblock in [false, true] {
        for confirmable in [false, true] {
            for short in [false, true] {
                for fail_at in 1..=if qblock { 3 } else { 1 } {
                    let mut app = App::profile::<profiles::Default>()
                        .deterministic_for_tests()
                        .block_wise::<true>()
                        .bind(FaultIo {
                            sends: 0,
                            fail_at: usize::MAX,
                            short,
                        })
                        .unwrap();
                    let other_call = app.get("other").to(other).send(0).unwrap();
                    for iteration in 0..12 {
                        app.transport_mut().sends = 0;
                        app.transport_mut().fail_at = fail_at;
                        let request = app.put("value").to(peer).payload(&[7; 3000]);
                        let request = if qblock {
                            request
                                .q_block1()
                                .request_tag(BodyTag::new(b"upload").unwrap())
                        } else {
                            request
                        };
                        let request = if confirmable { request } else { request.non() };
                        assert!(request.send(iteration).is_err());
                        assert_eq!(app.transport().sends, fail_at);
                        assert_eq!(
                            app.engine().tx_occupied(),
                            1,
                            "only the unrelated CON may remain"
                        );
                        for index in 0..app.engine().capacities().tx_body_slots.unwrap() {
                            assert!(
                                app.engine()
                                    .tx_body_transfer(SlotId::from_index(index))
                                    .is_none()
                            );
                        }
                        assert!(app.take_response(other_call).is_none());
                    }
                    app.transport_mut().fail_at = usize::MAX;
                    let call = app.get("value").to(peer).send(12).unwrap();
                    assert!(app.cancel(call));
                    assert!(app.cancel(other_call));
                    assert_eq!(app.engine().tx_occupied(), 0);
                }
            }
        }
    }
}

#[test]
fn client_observe_serial_order_wrap_and_time_boundary() {
    let peer = Endpoint::v4([192, 0, 2, 2], 5683);
    let cases = [
        (10, 9, 1, false),
        (10, 10, 1, false),
        (10, 11, 1, true),
        (0xfffffe, 1, 1, true),
        (1, 0xfffffe, 1, false),
        (10, 0x80000a, 1, false),
        (0x80000a, 10, 1, false),
        (10, 9, 128_000, false),
        (10, 9, 128_001, true),
        (10, 10, 128_001, true),
    ];
    for (previous, next, time, accepted) in cases {
        for ty in [Type::Confirmable, Type::NonConfirmable] {
            for take_initial in [false, true] {
                let mut app = record_client();
                let call = app.get("value").observe().to(peer).non().send(0).unwrap();
                for (index, sequence, now, payload) in
                    [(0, previous, 0, b"old"), (1, next, time, b"new")]
                {
                    let seq = encode_uint(sequence);
                    let age = encode_uint(1000);
                    let opts = [Opt::observe(&seq), Opt::max_age(&age)];
                    let message = Message::new(ty, Code::CONTENT, MessageId::new(100 + index))
                        .with_token(call.token())
                        .with_options(&opts)
                        .with_payload(payload);
                    let mut wire = [0; 256];
                    let n = encode(&message, &mut wire).unwrap();
                    app.transport_mut().inbox = Some((peer, wire, n));
                    app.transport_mut().sent_n = 0;
                    app.poll(now).unwrap();
                    assert_eq!(app.transport().sent_n, usize::from(ty == Type::Confirmable));
                    if ty == Type::Confirmable {
                        let (_, bytes, n) = app.transport().sent[0].unwrap();
                        let ack = decode(&bytes[..n]).unwrap();
                        assert!(ack.is_empty());
                        assert_eq!(ack.ty(), Type::Acknowledgement);
                        assert_eq!(ack.message_id(), message.message_id());
                    }
                    if index == 0 && take_initial {
                        assert_eq!(app.take_response(call).unwrap().unwrap().payload(), b"old");
                    }
                }
                let response = app.take_response(call);
                if accepted {
                    let response = response.unwrap().unwrap();
                    assert_eq!(response.payload(), b"new");
                    assert_eq!(response.observe_seq(), Some(next));
                    assert_eq!(response.received_at_ms(), Some(time));
                } else if take_initial {
                    assert!(response.is_none());
                } else {
                    assert_eq!(response.unwrap().unwrap().payload(), b"old");
                }
                let interest = app
                    .engine()
                    .lookup_observe(ObserveKey::new_client(call.token(), peer))
                    .unwrap();
                let lifetime = app
                    .engine()
                    .observe_interest(interest)
                    .unwrap()
                    .lifetime()
                    .unwrap();
                assert_eq!(
                    lifetime.due_ms(),
                    1_000_000 + if accepted { time } else { 0 }
                );
                assert_eq!(app.engine().tx_occupied(), 0);
            }
        }
    }
}

#[test]
fn stale_observe_block_zero_cannot_replace_incomplete_representation() {
    let peer = Endpoint::v4([192, 0, 2, 2], 5683);
    let mut app = App::profile::<profiles::Default>()
        .deterministic_for_tests()
        .block_wise::<true>()
        .bind(RecordIo::default())
        .unwrap();
    let call = app.get("value").observe().to(peer).non().send(0).unwrap();
    for (step, sequence, number, tag, payload) in [
        (0, Some(10), 0, b"a", &b"abcdefghijklmnop"[..]),
        (1, Some(9), 0, b"b", &b"XXXXXXXXXXXXXXXX"[..]),
        (2, None, 1, b"a", &b"qrstuvwx"[..]),
    ] {
        let seq = sequence.map(encode_uint);
        let age = encode_uint(1000);
        let block = BlockValue::from_size(number, number == 0, 16)
            .unwrap()
            .encode();
        let mut opts = OptionsBuilder::<4>::new();
        opts.push(Opt::etag(tag)).unwrap();
        if let Some(seq) = &seq {
            opts.push(Opt::observe(seq)).unwrap();
        }
        opts.push(Opt::max_age(&age)).unwrap();
        opts.push(Opt::block2(&block)).unwrap();
        let message = Message::new(
            Type::NonConfirmable,
            Code::CONTENT,
            MessageId::new(100 + step),
        )
        .with_token(call.token())
        .with_options(opts.as_slice())
        .with_payload(payload);
        let mut wire = [0; 256];
        let n = encode(&message, &mut wire).unwrap();
        app.transport_mut().inbox = Some((peer, wire, n));
        let sends = app.transport().sent_n;
        app.poll(u64::from(step)).unwrap();
        if step < 2 {
            assert!(app.take_response(call).is_none());
        }
        if step == 1 {
            assert_eq!(
                app.transport().sent_n,
                sends,
                "stale notification must not launch a replacement download"
            );
        }
    }
    let response = app.take_response(call).unwrap().unwrap();
    assert_eq!(response.body(), Some(&b"abcdefghijklmnopqrstuvwx"[..]));
    assert_eq!(response.observe_seq(), Some(10));
    assert_eq!(response.received_at_ms(), Some(0));
    assert_eq!(app.engine().tx_occupied(), 0);
}

#[test]
fn client_observe_survives_stale_data_then_ends_on_final_response() {
    let peer = Endpoint::v4([192, 0, 2, 2], 5683);
    let mut app = record_client();
    for iteration in 0..12 {
        app.transport_mut().sent_n = 0;
        let call = app.get("value").observe().to(peer).non().send(0).unwrap();
        for (sequence, now) in [(0, 0), (1, 2)] {
            let seq = encode_uint(sequence);
            let zero = encode_uint(0);
            let opts = [Opt::observe(&seq), Opt::max_age(&zero)];
            let message = Message::new(
                Type::NonConfirmable,
                Code::CONTENT,
                MessageId::new(100 + sequence as u16),
            )
            .with_token(call.token())
            .with_options(&opts)
            .with_payload(b"value");
            let mut wire = [0; 256];
            let n = encode(&message, &mut wire).unwrap();
            app.transport_mut().inbox = Some((peer, wire, n));
            app.poll(now).unwrap();
            assert_eq!(
                app.take_response(call).unwrap().unwrap().observe_seq(),
                Some(sequence)
            );
            app.poll(now + 1).unwrap();
            assert!(
                app.engine()
                    .lookup_observe(ObserveKey::new_client(call.token(), peer))
                    .is_some()
            );
            assert!(app.take_response(call).is_none());
        }
        let code = if iteration % 2 == 0 {
            Code::NOT_FOUND
        } else {
            Code::CONTENT
        };
        let final_message = Message::new(Type::Confirmable, code, MessageId::new(200))
            .with_token(call.token())
            .with_payload(b"final");
        inject_empty(&mut app, peer, final_message);
        app.poll(4).unwrap();
        assert_eq!(app.take_response(call).unwrap().unwrap().code(), code);
        assert!(
            app.engine()
                .lookup_observe(ObserveKey::new_client(call.token(), peer))
                .is_none()
        );
        app.transport_mut().sent_n = 0;
        inject_empty(&mut app, peer, final_message);
        app.poll(5).unwrap();
        let (_, wire, n) = app.transport().sent[0].unwrap();
        let reset = decode(&wire[..n]).unwrap();
        assert!(reset.is_empty_rst());
        assert_eq!(reset.message_id(), final_message.message_id());
        assert!(app.take_response(call).is_none());
        assert_eq!(app.engine().tx_occupied(), 0);
    }
}

#[test]
fn unsolicited_observe_option_does_not_create_subscription() {
    let peer = Endpoint::v4([192, 0, 2, 2], 5683);
    let mut app = record_client();
    for _ in 0..12 {
        app.transport_mut().sent_n = 0;
        let call = app.get("value").to(peer).non().send(0).unwrap();
        let opts = [Opt::observe_register()];
        let response = Message::new(Type::NonConfirmable, Code::CONTENT, MessageId::new(100))
            .with_token(call.token())
            .with_options(&opts);
        inject_empty(&mut app, peer, response);
        app.poll(0).unwrap();
        assert_eq!(
            app.take_response(call).unwrap().unwrap().code(),
            Code::CONTENT
        );
        assert!(
            app.engine()
                .lookup_observe(ObserveKey::new_client(call.token(), peer))
                .is_none()
        );
    }
}

#[test]
fn observe_max_age_zero_keeps_congestion_hold_and_con_retries() {
    let peer = Endpoint::v4([192, 0, 2, 1], 5683);
    for acknowledge in [false, true] {
        let (wire, n) = encode_wide(
            Code::GET,
            &["sensors", "temp"],
            &[Opt::observe_register()],
            0x1001,
        );
        let mut app = App::profile::<profiles::Default>()
            .deterministic_for_tests()
            .block_wise::<false>()
            .route(&["sensors", "temp"], get(get_obs))
            .bind(WideLoopback {
                inbox: Some((peer, wire, n)),
                ..WideLoopback::default()
            })
            .unwrap();
        app.poll(0).unwrap();
        assert_eq!(
            app.notify(
                0,
                &["sensors", "temp"],
                Response::content(b"non")
                    .content_format(ContentFormat::TEXT_PLAIN)
                    .max_age(0)
            )
            .unwrap(),
            1
        );
        app.poll(1).unwrap();
        assert!(observe_registered(&app, peer));
        assert_eq!(
            app.notify(
                1,
                &["sensors", "temp"],
                Response::content(b"held").content_format(ContentFormat::TEXT_PLAIN)
            )
            .unwrap(),
            0
        );
        let now = ObserveTransmission::CONFIRM_INTERVAL_MS;
        app.transport_mut().send_n = 0;
        assert_eq!(
            app.notify(
                now,
                &["sensors", "temp"],
                Response::content(b"con")
                    .content_format(ContentFormat::TEXT_PLAIN)
                    .max_age(0)
            )
            .unwrap(),
            1
        );
        let mid = last_wide(&app).message_id();
        assert_eq!(last_wide(&app).ty(), Type::Confirmable);
        app.poll(now).unwrap();
        assert!(observe_registered(&app, peer));
        assert_eq!(app.engine().tx_occupied(), 1);
        if acknowledge {
            let mut wire = [0; WIRE];
            let n = encode(&Message::empty_ack(mid), &mut wire).unwrap();
            app.transport_mut().inbox = Some((peer, wire, n));
            app.poll(now + 1).unwrap();
            assert_eq!(app.engine().tx_occupied(), 0);
            app.transport_mut().send_n = 0;
            app.poll(now + 62_000).unwrap();
            assert!(observe_registered(&app, peer));
            assert_eq!(app.transport().send_n, 0);
        } else {
            for delta in [2_000, 6_000, 14_000, 30_000, 62_000] {
                app.transport_mut().send_n = 0;
                app.poll(now + delta).unwrap();
                assert_eq!(observe_registered(&app, peer), delta < 62_000);
                assert_eq!(app.transport().send_n, usize::from(delta < 62_000));
            }
            assert_eq!(app.engine().tx_occupied(), 0);
        }
    }
}

#[test]
fn observe_signal_at_max_age_boundary_is_not_discarded() {
    let peer = Endpoint::v4([192, 0, 2, 1], 5683);
    let (wire, n) = encode_wide(
        Code::GET,
        &["sensors", "temp"],
        &[Opt::observe_register()],
        0x1001,
    );
    let mut app = App::profile::<profiles::Default>()
        .deterministic_for_tests()
        .block_wise::<false>()
        .route(&["sensors", "temp"], get(get_obs).observe(obs_snapshot))
        .bind(WideLoopback {
            inbox: Some((peer, wire, n)),
            ..WideLoopback::default()
        })
        .unwrap();
    app.poll(0).unwrap();
    app.transport_mut().send_n = 0;
    assert_eq!(app.signal(&["sensors", "temp"]), 1);
    app.poll(5_000).unwrap();
    assert_eq!(app.transport().send_n, 1);
    assert!(observe_registered(&app, peer));
    assert_eq!(last_wide(&app).observe().and_then(Result::ok), Some(1));
}

#[test]
fn observe_notification_format_and_terminal_response_contract() {
    fn plain(_: Request<'_>) -> Response<'static> {
        Response::content(b"initial")
            .content_format(ContentFormat::TEXT_PLAIN)
            .observe(0)
    }
    fn absent(_: Request<'_>) -> Response<'static> {
        Response::content(b"initial").observe(0)
    }
    let peer = Endpoint::v4([192, 0, 2, 1], 5683);
    for initial_format in [None, Some(ContentFormat::TEXT_PLAIN)] {
        for next_format in [
            None,
            Some(ContentFormat::TEXT_PLAIN),
            Some(ContentFormat::OCTET_STREAM),
        ] {
            for code in [Code::CONTENT, Code::NOT_FOUND, Code::SERVICE_UNAVAILABLE] {
                let handler = if initial_format.is_some() {
                    plain
                } else {
                    absent
                };
                let (wire, n) =
                    encode_wide(Code::GET, &["obs"], &[Opt::observe_register()], 0x1001);
                let mut app = App::profile::<profiles::Default>()
                    .deterministic_for_tests()
                    .block_wise::<false>()
                    .route("obs", get(handler))
                    .bind(WideLoopback {
                        inbox: Some((peer, wire, n)),
                        ..WideLoopback::default()
                    })
                    .unwrap();
                app.poll(0).unwrap();
                let token = last_wide(&app).token();
                assert_eq!(last_wide(&app).observe().and_then(Result::ok), Some(0));
                let mut response = Response::new(code).observe(99).payload_copy(b"next");
                if let Some(format) = next_format {
                    response = response.content_format(format);
                }
                assert_eq!(app.notify(1, &["obs"], response.clone()).unwrap(), 1);
                let note = last_wide(&app);
                let mismatch = code.is_success() && initial_format != next_format;
                assert_eq!(
                    note.code(),
                    if mismatch { Code::NOT_ACCEPTABLE } else { code }
                );
                assert_eq!(note.token(), token);
                if code.is_success() && !mismatch {
                    assert!(note.observe().is_some());
                    assert_eq!(note.content_format().and_then(Result::ok), initial_format);
                    assert_eq!(note.payload(), b"next");
                    assert!(
                        app.engine()
                            .lookup_observe(ObserveKey::new(token, peer))
                            .is_some()
                    );
                } else {
                    assert!(note.observe().is_none());
                    assert!(
                        app.engine()
                            .lookup_observe(ObserveKey::new(token, peer))
                            .is_none()
                    );
                    assert_eq!(app.notify(3_001, &["obs"], response.clone()).unwrap(), 0);
                }
            }
        }
    }
}

#[test]
fn observe_deregistration_strips_handler_observe_and_releases_relation() {
    let peer = Endpoint::v4([192, 0, 2, 1], 5683);
    let mut app = App::profile::<profiles::Default>()
        .deterministic_for_tests()
        .block_wise::<false>()
        .route(&["sensors", "temp"], get(get_obs))
        .bind(WideLoopback::default())
        .unwrap();
    for (index, option) in [Opt::observe_register(), Opt::observe_deregister()]
        .into_iter()
        .enumerate()
    {
        let (wire, n) = encode_wide(
            Code::GET,
            &["sensors", "temp"],
            &[option],
            0x1001 + index as u16,
        );
        app.transport_mut().inbox = Some((peer, wire, n));
        app.poll(index as u64).unwrap();
        assert_eq!(last_wide(&app).observe().is_some(), index == 0);
        assert_eq!(observe_registered(&app, peer), index == 0);
    }
}
