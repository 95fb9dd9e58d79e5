//! The Echo policy, and where identities come from.
use core::sync::atomic::{AtomicUsize, Ordering};
use coaptic::app::{get, put, App, Error, Request, Response};
use coaptic::message::{decode, encode, BlockValue, Code, ContentFormat, EncodedUint, Message, MessageId, Opt, OptionNumber, OptionsBuilder, Token, Type};
use coaptic::storage::{DatagramIo, Endpoint};
use coaptic::message::Echo as EchoOpt;
use coaptic::profiles;

struct Fill(fn(&mut [u8]) -> bool);

impl coaptic::app::RandomSource for Fill {
    fn fill(&self, bytes: &mut [u8]) -> bool {
        (self.0)(bytes)
    }
}

const LARGE: [u8; 2000] = [b'A'; 2000];

const WIRE: usize = 1472;

fn get_large(_: Request<'_>) -> Response<'static> {
    Response::content(&LARGE)
        .content_format(ContentFormat::OCTET_STREAM)
        .etag(b"large-v1")
}

#[derive(Default)]
struct Loopback {
    inbox: Option<(Endpoint, [u8; 256], usize)>,
    last_send: Option<(Endpoint, [u8; 256], usize)>,
}

impl DatagramIo for Loopback {
    type Error = &'static str;

    fn recv(&mut self, buf: &mut [u8]) -> Result<Option<(usize, Endpoint)>, Self::Error> {
        let Some((ep, bytes, n)) = self.inbox.take() else {
            return Ok(None);
        };
        if n > buf.len() {
            return Err("short buf");
        }
        buf[..n].copy_from_slice(&bytes[..n]);
        Ok(Some((n, ep)))
    }

    fn send(&mut self, dest: Endpoint, bytes: &[u8]) -> Result<usize, Self::Error> {
        if bytes.len() > 256 {
            return Err("too long");
        }
        let mut slot = [0u8; 256];
        slot[..bytes.len()].copy_from_slice(bytes);
        self.last_send = Some((dest, slot, bytes.len()));
        Ok(bytes.len())
    }
}

/// Captures more than one TX datagram so a separate ACK + CON, or a CON
/// retransmit, can be checked. Send is not delivered to `recv` (the caller
/// injects inbox, or leaves it empty to model loss).
#[derive(Default)]
struct RecordIo {
    inbox: Option<(Endpoint, [u8; 256], usize)>,
    sent: [Option<(Endpoint, [u8; 256], usize)>; 8],
    sent_n: usize,
}

impl DatagramIo for RecordIo {
    type Error = &'static str;

    fn recv(&mut self, buf: &mut [u8]) -> Result<Option<(usize, Endpoint)>, Self::Error> {
        let Some((ep, bytes, n)) = self.inbox.take() else {
            return Ok(None);
        };
        if n > buf.len() {
            return Err("short buf");
        }
        buf[..n].copy_from_slice(&bytes[..n]);
        Ok(Some((n, ep)))
    }

    fn send(&mut self, dest: Endpoint, bytes: &[u8]) -> Result<usize, Self::Error> {
        if bytes.len() > 256 {
            return Err("too long");
        }
        if self.sent_n >= self.sent.len() {
            return Err("full");
        }
        let mut slot = [0u8; 256];
        slot[..bytes.len()].copy_from_slice(bytes);
        self.sent[self.sent_n] = Some((dest, slot, bytes.len()));
        self.sent_n += 1;
        Ok(bytes.len())
    }
}

fn encode_req_mid(code: Code, path: &[&str], payload: &[u8], mid: u16) -> ([u8; 256], usize) {
    encode_req_echo(Type::Confirmable, code, path, payload, None, None, mid)
}

fn encode_req_with_echo(
    code: Code,
    path: &[&str],
    payload: &[u8],
    echo: &EchoOpt,
) -> ([u8; 256], usize) {
    encode_req_echo(
        Type::Confirmable,
        code,
        path,
        payload,
        None,
        Some(echo.as_slice()),
        0x1001,
    )
}

fn encode_req_echo(
    ty: Type,
    code: Code,
    path: &[&str],
    payload: &[u8],
    no_response: Option<u32>,
    echo: Option<&[u8]>,
    mid: u16,
) -> ([u8; 256], usize) {
    let token = Token::new(&[0xA1]).expect("token");
    let mut opts = OptionsBuilder::<8>::new();
    for segment in path {
        opts.push(Opt::uri_path(segment)).expect("path");
    }
    let nr = no_response.map(EncodedUint::new);
    if let Some(ref encoded) = nr {
        opts.push(Opt::no_response(encoded)).expect("nr");
    }
    if let Some(echo) = echo {
        opts.push(Opt::echo(echo)).expect("echo");
    }
    let msg = Message::new(ty, code, MessageId::new(mid))
        .with_token(token)
        .with_options(opts.as_slice())
        .with_payload(payload);
    let mut buf = [0u8; 256];
    let n = encode(&msg, &mut buf).expect("encode");
    (buf, n)
}

struct LastReply {
    ty: Type,
    code: Code,
    payload: [u8; 64],
    payload_len: usize,
    content_format: Option<ContentFormat>,
    block2: Option<BlockValue>,
    block1: Option<BlockValue>,
    echo: Option<EchoOpt>,
}

fn last_reply<const BLOCK_WISE: bool>(
    app: &App<profiles::Default, Loopback, 8, BLOCK_WISE>,
) -> LastReply
{
    let (_, bytes, n) = app.transport().last_send.expect("sent");
    let parsed = decode(&bytes[..n]).expect("decode reply");
    let mut payload = [0u8; 64];
    let payload_len = parsed.payload().len().min(64);
    payload[..payload_len].copy_from_slice(&parsed.payload()[..payload_len]);
    LastReply {
        ty: parsed.ty(),
        code: parsed.code(),
        payload,
        payload_len,
        content_format: parsed.content_format().and_then(Result::ok),
        block2: parsed.block2().and_then(Result::ok),
        block1: parsed.block1().and_then(Result::ok),
        echo: EchoOpt::from_option(parsed.echo()),
    }
}

const ECHO_FRESH_MS: u64 = 5;

struct WideLoopback {
    inbox: Option<(Endpoint, [u8; WIRE], usize)>,
    sends: [[u8; WIRE]; 4],
    send_lens: [usize; 4],
    send_n: usize,
}

impl Default for WideLoopback {
    fn default() -> Self {
        Self {
            inbox: None,
            sends: [[0; WIRE]; 4],
            send_lens: [0; 4],
            send_n: 0,
        }
    }
}

impl DatagramIo for WideLoopback {
    type Error = &'static str;

    fn recv(&mut self, buf: &mut [u8]) -> Result<Option<(usize, Endpoint)>, Self::Error> {
        let Some((ep, bytes, n)) = self.inbox.take() else {
            return Ok(None);
        };
        if n > buf.len() {
            return Err("short buf");
        }
        buf[..n].copy_from_slice(&bytes[..n]);
        Ok(Some((n, ep)))
    }

    fn send(&mut self, _dest: Endpoint, bytes: &[u8]) -> Result<usize, Self::Error> {
        if bytes.len() > WIRE {
            return Err("too long");
        }
        if self.send_n >= self.sends.len() {
            return Err("send log full");
        }
        let i = self.send_n;
        self.sends[i][..bytes.len()].copy_from_slice(bytes);
        self.send_lens[i] = bytes.len();
        self.send_n += 1;
        Ok(bytes.len())
    }
}

fn last_wide<const BLOCK_WISE: bool>(
    app: &App<profiles::Default, WideLoopback, 8, BLOCK_WISE>,
) -> coaptic::message::ParsedMessage<'_>
{
    let n = app.transport().send_n;
    assert!(n > 0, "expected a send");
    decode(&app.transport().sends[n - 1][..app.transport().send_lens[n - 1]]).expect("decode")
}

/// Send writes into recv so one App is both client and server.
#[derive(Default)]
struct Echo {
    pending: Option<(Endpoint, [u8; 256], usize)>,
}

impl DatagramIo for Echo {
    type Error = &'static str;

    fn recv(&mut self, buf: &mut [u8]) -> Result<Option<(usize, Endpoint)>, Self::Error> {
        let Some((ep, bytes, n)) = self.pending.take() else {
            return Ok(None);
        };
        if n > buf.len() {
            return Err("short buf");
        }
        buf[..n].copy_from_slice(&bytes[..n]);
        Ok(Some((n, ep)))
    }

    fn send(&mut self, dest: Endpoint, bytes: &[u8]) -> Result<usize, Self::Error> {
        if bytes.len() > 256 {
            return Err("too long");
        }
        let mut slot = [0u8; 256];
        slot[..bytes.len()].copy_from_slice(bytes);
        self.pending = Some((dest, slot, bytes.len()));
        Ok(bytes.len())
    }
}

fn record_client() -> App<profiles::Default, RecordIo, 8, false> {
    App::profile::<profiles::Default>()
        .deterministic_for_tests()
        .block_wise::<false>()
        .bind(RecordIo::default())
        .expect("bind")
}

fn fixture_echo_tag(peer: Endpoint, protected: bool, issued: u64) -> [u8; 32] {
    let mut input = b"coaptic-echo-fixture-v1".to_vec();
    input.extend_from_slice(&issued.to_be_bytes());
    input.extend_from_slice(format!("{peer:?}").as_bytes());
    input.push(u8::from(protected));
    input.extend_from_slice(&[0x5c; 16]);
    let mut tag = [0u8; 32];
    for (i, slot) in tag.iter_mut().enumerate() {
        let mut state = 0xcbf2_9ce4_8422_2325u64 ^ i as u64;
        for byte in &input {
            state = (state ^ u64::from(*byte)).wrapping_mul(0x0100_0000_01b3);
        }
        *slot = (state >> 32) as u8;
    }
    tag
}

fn fixture_issued_echo(peer: Endpoint, protected: bool, now: u64) -> EchoOpt {
    EchoOpt::mint(now, &fixture_echo_tag(peer, protected, now)).unwrap()
}

fn fixture_authenticated_echo_policy(
    check: coaptic::app::EchoCheck,
) -> coaptic::app::EchoDecision {
    let verified = check.echo.ok().flatten().is_some_and(|echo| {
        echo.as_slice().len() == 40
            && echo.is_time_fresh(check.now_ms, ECHO_FRESH_MS)
            && fixture_echo_tag(
                check.peer,
                check.oscore_protected,
                echo.issued_at().unwrap(),
            ) == echo.as_slice()[8..]
    });
    if verified {
        coaptic::app::EchoDecision::Accept
    } else {
        coaptic::app::EchoDecision::Challenge(fixture_issued_echo(
            check.peer,
            check.oscore_protected,
            check.now_ms,
        ))
    }
}

#[test]
fn echo_policy_issuance_failure_is_closed_and_reclaims_rx() {
    fn deny(check: coaptic::app::EchoCheck) -> coaptic::app::EchoDecision {
        assert_eq!(check.echo, Ok(None));
        assert!(!check.oscore_protected);
        coaptic::app::EchoDecision::Reject
    }
    fn unreachable(_: Request<'_>) -> Response<'static> {
        panic!("rejected request reached handler")
    }
    let peer = Endpoint::v4([192, 0, 2, 1], 5683);
    let mut app = App::profile::<profiles::Default>()
        .deterministic_for_tests()
        .echo_policy(deny)
        .block_wise::<false>()
        .route("effect", put(unreachable))
        .bind(Loopback::default())
        .unwrap();
    for mid in 1..=12 {
        let (wire, n) = encode_req_mid(Code::PUT, &["effect"], b"one", mid);
        app.transport_mut().inbox = Some((peer, wire, n));
        app.poll(u64::from(mid)).unwrap();
        let response = last_reply(&app);
        assert_eq!(response.code, Code::UNAUTHORIZED);
        assert!(response.echo.is_none());
        assert_eq!(app.engine().tx_occupied(), 0);
    }
}

#[test]
fn explicit_echo_policy_checks_issuance_peer_scope_class_and_expiry_before_handler() {
    static EFFECTS: AtomicUsize = AtomicUsize::new(0);
    fn effect(_: Request<'_>) -> Response<'static> {
        EFFECTS.fetch_add(1, Ordering::SeqCst);
        Response::changed()
    }
    let peer = Endpoint::v6_scoped([1; 16], 5683, 4);
    let issued = fixture_issued_echo(peer, false, 9);
    let mut altered = [0; 40];
    altered.copy_from_slice(issued.as_slice());
    altered[39] ^= 1;
    for (echo, sender, now, accepted) in [
        (issued.clone(), peer, 9, true),
        (issued.clone(), peer, 13, true),
        (issued.clone(), peer, 14, false),
        (fixture_issued_echo(peer, false, 11), peer, 10, false),
        (EchoOpt::mint(9, &[]).unwrap(), peer, 10, false),
        (EchoOpt::new(&altered).unwrap(), peer, 10, false),
        (issued.clone(), Endpoint::v6_scoped([1; 16], 5683, 5), 10, false),
        (issued.clone(), Endpoint::v6_scoped([1; 16], 5684, 4), 10, false),
        (issued.clone(), Endpoint::v6_scoped([2; 16], 5683, 4), 10, false),
        (fixture_issued_echo(peer, true, 9), peer, 10, false),
    ] {
        let before = EFFECTS.load(Ordering::SeqCst);
        let (wire, n) = encode_req_with_echo(Code::PUT, &["effect"], b"one", &echo);
        let mut app = App::profile::<profiles::Default>()
            .deterministic_for_tests()
            .block_wise::<false>()
            .echo_policy(fixture_authenticated_echo_policy)
            .route("effect", put(effect))
            .bind(Loopback {
                inbox: Some((sender, wire, n)),
                last_send: None,
            })
            .unwrap();
        app.poll(now).unwrap();
        assert_eq!(
            last_reply(&app).code,
            if accepted {
                Code::CHANGED
            } else {
                Code::UNAUTHORIZED
            }
        );
        assert_eq!(
            EFFECTS.load(Ordering::SeqCst) - before,
            usize::from(accepted)
        );
        assert_eq!(app.engine().tx_occupied(), 0);
    }
}

#[test]
fn echo_policy_receives_malformed_values_without_body_or_handler_effects() {
    fn policy(check: coaptic::app::EchoCheck) -> coaptic::app::EchoDecision {
        assert_eq!(check.echo, Err(coaptic::error::ValueError::EchoLength));
        coaptic::app::EchoDecision::Reject
    }
    fn unreachable(_: Request<'_>) -> Response<'static> {
        panic!("invalid Echo reached handler")
    }
    let peer = Endpoint::v4([192, 0, 2, 1], 5683);
    let mut app = App::profile::<profiles::Default>()
        .deterministic_for_tests()
        .block_wise::<true>()
        .echo_policy(policy)
        .route("effect", put(unreachable))
        .bind(RecordIo::default())
        .unwrap();
    for value in [&[][..], &[0; 41][..]] {
        let block = BlockValue::from_size(0, true, 16).unwrap().encode();
        let opts = [
            Opt::uri_path("effect"),
            Opt::block1(&block),
            Opt::new(OptionNumber::ECHO, value),
        ];
        let message = Message::new(Type::NonConfirmable, Code::PUT, MessageId::new(100))
            .with_token(Token::from_checked(&[1]))
            .with_options(&opts)
            .with_payload(b"abcdefghijklmnop");
        let mut wire = [0; 256];
        let n = encode(&message, &mut wire).unwrap();
        app.transport_mut().inbox = Some((peer, wire, n));
        app.poll(0).unwrap();
        let (_, bytes, n) = app.transport().sent[app.transport().sent_n - 1].unwrap();
        assert_eq!(decode(&bytes[..n]).unwrap().code(), Code::UNAUTHORIZED);
        for index in 0..app.engine().capacities().rx_body_slots.unwrap() {
            assert!(
                app.engine()
                    .rx_body_transfer(coaptic::storage::SlotId::from_index(index))
                    .is_none()
            );
        }
    }
}

#[test]
fn app_randomness_is_explicit_and_failure_never_substitutes_counters() {
    assert!(matches!(
        App::profile::<profiles::Default>()
            .block_wise::<false>()
            .bind(RecordIo::default()),
        Err(coaptic::BuildError::RandomnessRequired)
    ));
    assert!(matches!(
        App::profile::<profiles::Default>()
            .randomness(Fill(|_| false))
            .block_wise::<false>()
            .bind(RecordIo::default()),
        Err(coaptic::BuildError::RandomnessUnavailable)
    ));
    let peer = Endpoint::v4([192, 0, 2, 2], 5683);
    for source in [
        (|bytes: &mut [u8]| {
            bytes.fill(0);
            bytes.len() != 8
        }) as fn(&mut [u8]) -> bool,
        (|bytes: &mut [u8]| {
            bytes.fill(0);
            bytes.len() != 4
        }) as fn(&mut [u8]) -> bool,
    ] {
        let mut app = App::profile::<profiles::Default>()
            .randomness(Fill(source))
            .block_wise::<false>()
            .bind(RecordIo::default())
            .unwrap();
        for _ in 0..12 {
            assert_eq!(
                app.get("value").to(peer).send(0),
                Err(Error::Identity(coaptic::app::IdentityError::RandomnessUnavailable))
            );
            assert_eq!(app.transport().sent_n, 0);
            assert_eq!(app.engine().tx_occupied(), 0);
        }
    }
}

#[test]
fn injected_entropy_drives_wire_identity_and_exact_retransmission_boundary() {
    fn fill(bytes: &mut [u8]) -> bool {
        match bytes.len() {
            2 => bytes.copy_from_slice(&0x1234u16.to_be_bytes()),
            4 => bytes.copy_from_slice(&1000u32.to_be_bytes()),
            8 => bytes.copy_from_slice(&[1, 2, 3, 4, 5, 6, 7, 8]),
            _ => return false,
        }
        true
    }
    let peer = Endpoint::v4([192, 0, 2, 2], 5683);
    let mut app = App::profile::<profiles::Default>()
        .randomness(Fill(fill))
        .block_wise::<false>()
        .bind(RecordIo::default())
        .unwrap();
    let call = app.get("value").to(peer).send(100).unwrap();
    let (_, first, n) = app.transport().sent[0].unwrap();
    assert_eq!(call.token().as_bytes(), &[1, 2, 3, 4, 5, 6, 7, 8]);
    assert_eq!(decode(&first[..n]).unwrap().message_id().get(), 0x1234);
    // Repeated active Tokens are rejected after bounded retries, before I/O.
    assert_eq!(
        app.get("other").to(peer).send(100),
        Err(Error::Identity(coaptic::app::IdentityError::TokenExhausted))
    );
    assert_eq!(app.transport().sent_n, 1);
    app.poll(3099).unwrap();
    assert_eq!(app.transport().sent_n, 1);
    app.poll(3100).unwrap();
    assert_eq!(app.transport().sent_n, 2);
    let (_, retransmitted, rn) = app.transport().sent[1].unwrap();
    assert_eq!(&retransmitted[..rn], &first[..n]);
    app.poll(9099).unwrap();
    assert_eq!(app.transport().sent_n, 2);
    app.poll(9100).unwrap();
    assert_eq!(app.transport().sent_n, 3);
    assert!(app.cancel(call));
    assert_eq!(app.engine().tx_occupied(), 0);
}

#[test]
fn entropy_failure_during_fragment_start_reclaims_preallocated_tx_and_body() {
    static DRAWS: AtomicUsize = AtomicUsize::new(0);
    fn fill(bytes: &mut [u8]) -> bool {
        bytes.fill(0);
        bytes.len() != 4 || DRAWS.fetch_add(1, Ordering::SeqCst) == 0
    }
    let peer = Endpoint::v4([192, 0, 2, 2], 5683);
    let mut app = App::profile::<profiles::Default>()
        .randomness(Fill(fill))
        .block_wise::<true>()
        .bind(RecordIo::default())
        .unwrap();
    for _ in 0..12 {
        DRAWS.store(0, Ordering::SeqCst);
        assert_eq!(
            app.put("value").to(peer).payload(&[7; 3000]).send(0),
            Err(Error::Identity(coaptic::app::IdentityError::RandomnessUnavailable))
        );
        assert_eq!(app.transport().sent_n, 0);
        assert_eq!(app.engine().tx_occupied(), 0);
        for i in 0..app.engine().capacities().tx_body_slots.unwrap() {
            assert!(
                app.engine()
                    .tx_body_transfer(coaptic::storage::SlotId::from_index(i))
                    .is_none()
            );
        }
    }
}

#[test]
fn response_non_and_qblock_window_use_shared_local_mid_space() {
    let peer = Endpoint::v4([192, 0, 2, 2], 5683);
    for ty in [Type::Confirmable, Type::NonConfirmable] {
        let mut app = App::profile::<profiles::Default>()
            .deterministic_for_tests()
            .block_wise::<true>()
            .route("large", get(get_large))
            .bind(WideLoopback::default())
            .unwrap();
        let q = BlockValue::from_size(0, false, 1024).unwrap().encode();
        let opts = [Opt::uri_path("large"), Opt::q_block2(&q)];
        let request = Message::new(ty, Code::GET, MessageId::new(500))
            .with_token(Token::from_checked(&[44]))
            .with_options(&opts);
        let mut wire = [0; WIRE];
        let n = encode(&request, &mut wire).unwrap();
        app.transport_mut().inbox = Some((peer, wire, n));
        app.poll(0).unwrap();
        assert_eq!(app.transport().send_n, 2);
        let first = decode(&app.transport().sends[0][..app.transport().send_lens[0]]).unwrap();
        let second = decode(&app.transport().sends[1][..app.transport().send_lens[1]]).unwrap();
        assert_eq!(
            first.message_id().get(),
            if ty == Type::Confirmable { 500 } else { 1 }
        );
        assert_eq!(
            second.message_id().get(),
            if ty == Type::Confirmable { 1 } else { 2 }
        );
        app.get("other").to(peer).non().send(1).unwrap();
        assert_eq!(
            last_wide(&app).message_id().get(),
            if ty == Type::Confirmable { 2 } else { 3 }
        );
    }
}

#[test]
fn mid_reuse_wait_also_requires_pending_transmissions_to_finish() {
    let peer = Endpoint::v4([192, 0, 2, 2], 5683);
    let mut app = record_client();
    let call = app.get("first").to(peer).send(0).unwrap();
    for _ in 1..65536 {
        app.next_message_id(0).unwrap();
    }
    assert_eq!(
        app.get("next").to(peer).non().send(247_000),
        Err(Error::Identity(coaptic::app::IdentityError::MessageIdExhausted))
    );
    assert_eq!(app.transport().sent_n, 1);
    assert!(app.cancel(call));
    app.take_response(call).unwrap().unwrap_err();
    let next = app.get("next").to(peer).non().send(247_000).unwrap();
    let (_, bytes, n) = app.transport().sent[1].unwrap();
    assert_eq!(decode(&bytes[..n]).unwrap().message_id().get(), 1);
    assert!(app.cancel(next));
}
