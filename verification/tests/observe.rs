//! Observers and their notifications.
use coaptic::app::{get, App, Error, Request, Response};
use coaptic::message::{decode, encode, Code, ContentFormat, Message, MessageId, ObserveTransmission, Opt, OptionsBuilder, Token, Type};
use coaptic::storage::{DatagramIo, Endpoint, MemoryProfile, ObserveKey};
use coaptic::profiles;

const WIRE: usize = 1472;

fn get_obs(_req: Request<'_>) -> Response<'static> {
    Response::content(b"obs-0")
        .content_format(ContentFormat::TEXT_PLAIN)
        .max_age(5)
        .observe(0)
}

fn obs_snapshot() -> Response<'static> {
    Response::content(b"obs-snap").content_format(ContentFormat::TEXT_PLAIN)
}

struct WideLoopback {
    inbox: Option<(Endpoint, [u8; WIRE], usize)>,
    sends: [[u8; WIRE]; 4],
    send_lens: [usize; 4],
    send_n: usize,
}

impl Default for WideLoopback {
    fn default() -> Self {
        Self {
            inbox: None,
            sends: [[0; WIRE]; 4],
            send_lens: [0; 4],
            send_n: 0,
        }
    }
}

impl DatagramIo for WideLoopback {
    type Error = &'static str;

    fn recv(&mut self, buf: &mut [u8]) -> Result<Option<(usize, Endpoint)>, Self::Error> {
        let Some((ep, bytes, n)) = self.inbox.take() else {
            return Ok(None);
        };
        if n > buf.len() {
            return Err("short buf");
        }
        buf[..n].copy_from_slice(&bytes[..n]);
        Ok(Some((n, ep)))
    }

    fn send(&mut self, _dest: Endpoint, bytes: &[u8]) -> Result<usize, Self::Error> {
        if bytes.len() > WIRE {
            return Err("too long");
        }
        if self.send_n >= self.sends.len() {
            return Err("send log full");
        }
        let i = self.send_n;
        self.sends[i][..bytes.len()].copy_from_slice(bytes);
        self.send_lens[i] = bytes.len();
        self.send_n += 1;
        Ok(bytes.len())
    }
}

fn encode_wide(code: Code, path: &[&str], extra: &[Opt<'_>], mid: u16) -> ([u8; WIRE], usize) {
    encode_wide_token(code, path, extra, mid, Token::new(&[0xA1]).expect("token"))
}

/// Observe register wire with a one-byte Token (NSTART fan-out tests).
fn encode_nstart_wire(
    code: Code,
    path: &[&str],
    extra: &[Opt<'_>],
    mid: u16,
    token: u8,
) -> ([u8; WIRE], usize) {
    encode_wide_token(code, path, extra, mid, Token::new(&[token]).expect("token"))
}

fn encode_wide_token(
    code: Code,
    path: &[&str],
    extra: &[Opt<'_>],
    mid: u16,
    token: Token,
) -> ([u8; WIRE], usize) {
    let mut opts = OptionsBuilder::<8>::new();
    for segment in path {
        opts.push(Opt::uri_path(segment)).expect("path");
    }
    for opt in extra {
        opts.push(*opt).expect("extra");
    }
    let msg = Message::new(Type::Confirmable, code, MessageId::new(mid))
        .with_token(token)
        .with_options(opts.as_slice());
    let mut buf = [0u8; WIRE];
    let n = encode(&msg, &mut buf).expect("encode");
    (buf, n)
}

fn last_wide<const BLOCK_WISE: bool>(
    app: &App<profiles::Default, WideLoopback, 8, BLOCK_WISE>,
) -> coaptic::message::ParsedMessage<'_>
{
    let n = app.transport().send_n;
    assert!(n > 0, "expected a send");
    decode(&app.transport().sends[n - 1][..app.transport().send_lens[n - 1]]).expect("decode")
}

fn observe_registered<const BLOCK_WISE: bool>(
    app: &App<profiles::Default, WideLoopback, 8, BLOCK_WISE>,
    peer: Endpoint,
) -> bool
{
    observe_live(app, peer, Token::new(&[0xA1]).expect("token"))
}

fn observe_live<const BLOCK_WISE: bool>(
    app: &App<profiles::Default, WideLoopback, 8, BLOCK_WISE>,
    peer: Endpoint,
    token: Token,
) -> bool
{
    app.engine()
        .lookup_observe(ObserveKey::new(token, peer))
        .is_some()
}

fn inject_empty_rst(
    app: &mut App<profiles::Default, WideLoopback, 8, false>,
    peer: Endpoint,
    mid: MessageId,
) {
    let mut wire = [0u8; WIRE];
    let n = encode(&Message::empty_rst(mid), &mut wire).expect("rst");
    app.transport_mut().inbox = Some((peer, wire, n));
}

#[test]
fn observe_insert_miss_strips_observe_option() {
    let peer = Endpoint::v4([192, 0, 2, 1], 5683);
    let extra = [Opt::observe_register()];
    let mut app = App::profile::<profiles::Default>()
        .deterministic_for_tests()
        .block_wise::<false>()
        .route(&["sensors", "temp"], get(get_obs))
        .bind(WideLoopback::default())
        .expect("bind");

    let n = profiles::Default::OBSERVE_ENTRIES;
    for i in 0..n {
        let token = Token::new(&[i as u8 + 1]).expect("token");
        let (wire, len) = encode_wide_token(
            Code::GET,
            &["sensors", "temp"],
            &extra,
            0x1001 + i as u16,
            token,
        );
        app.transport_mut().inbox = Some((peer, wire, len));
        app.transport_mut().send_n = 0;
        app.poll(0).expect("register");
        let reply = last_wide(&app);
        assert_eq!(reply.code(), Code::CONTENT);
        assert_eq!(reply.observe().and_then(Result::ok), Some(0));
        assert!(observe_live(&app, peer, token));
    }

    let overflow = Token::new(&[0xFF]).expect("token");
    let (wire, len) = encode_wide_token(Code::GET, &["sensors", "temp"], &extra, 0x10FF, overflow);
    app.transport_mut().inbox = Some((peer, wire, len));
    app.transport_mut().send_n = 0;
    app.poll(0).expect("overflow register");
    let reply = last_wide(&app);
    assert_eq!(reply.code(), Code::CONTENT, "still a representation");
    assert!(
        reply.observe().is_none(),
        "insert miss must not claim registration"
    );
    assert!(!observe_live(&app, peer, overflow));
    assert_eq!(app.engine_mut().tx_occupied(), 0);
    assert_eq!(app.engine_mut().rx_occupied(), 0);
}

#[test]
fn observe_register_notify_deregister() {
    let peer = Endpoint::v4([192, 0, 2, 1], 5683);
    let extra = [Opt::observe_register()];
    let (wire, n) = encode_wide(Code::GET, &["sensors", "temp"], &extra, 0x1001);
    let mut app = App::profile::<profiles::Default>()
        .deterministic_for_tests()
        .block_wise::<false>()
        .route(&["sensors", "temp"], get(get_obs))
        .bind(WideLoopback {
            inbox: Some((peer, wire, n)),
            ..WideLoopback::default()
        })
        .expect("bind");
    app.poll(0).expect("poll");
    {
        let first = last_wide(&app);
        assert_eq!(first.code(), Code::CONTENT);
        assert_eq!(first.token(), Token::new(&[0xA1]).expect("token"));
        assert_eq!(first.observe().and_then(Result::ok), Some(0));
        assert_eq!(first.payload(), b"obs-0");
    }
    assert!(observe_registered(&app, peer));

    app.transport_mut().send_n = 0;
    let sent = app
        .notify(
            10,
            &["sensors", "temp"],
            Response::content(b"obs-1").content_format(ContentFormat::TEXT_PLAIN),
        )
        .expect("notify");
    assert_eq!(sent, 1);
    {
        let note = last_wide(&app);
        assert_eq!(note.ty(), Type::NonConfirmable);
        assert_eq!(note.code(), Code::CONTENT);
        assert_eq!(note.token(), Token::new(&[0xA1]).expect("token"));
        assert_eq!(note.observe().and_then(Result::ok), Some(1));
        assert_eq!(note.payload(), b"obs-1");
    }

    let extra = [Opt::observe_deregister()];
    let (wire, n) = encode_wide(Code::GET, &["sensors", "temp"], &extra, 0x1002);
    app.transport_mut().inbox = Some((peer, wire, n));
    app.poll(20).expect("poll");
    assert!(!observe_registered(&app, peer));

    app.transport_mut().send_n = 0;
    let sent = app
        .notify(30, &["sensors", "temp"], Response::content(b"obs-2"))
        .expect("notify after deregister");
    assert_eq!(sent, 0);
}

#[test]
fn notify_nstart_one_per_endpoint() {
    let peer = Endpoint::v4([192, 0, 2, 1], 5683);
    let extra = [Opt::observe_register()];
    let (wire, n) = encode_nstart_wire(Code::GET, &["sensors", "temp"], &extra, 0x1001, 0xA1);
    let mut app = App::profile::<profiles::Default>()
        .deterministic_for_tests()
        .block_wise::<false>()
        .route(&["sensors", "temp"], get(get_obs))
        .bind(WideLoopback {
            inbox: Some((peer, wire, n)),
            ..WideLoopback::default()
        })
        .expect("bind");
    app.poll(0).expect("first register");
    let (wire, n) = encode_nstart_wire(Code::GET, &["sensors", "temp"], &extra, 0x1002, 0xA2);
    app.transport_mut().inbox = Some((peer, wire, n));
    app.poll(1).expect("second register");

    app.transport_mut().send_n = 0;
    let sent = app
        .notify(
            10,
            &["sensors", "temp"],
            Response::content(b"obs-n").content_format(ContentFormat::TEXT_PLAIN),
        )
        .expect("notify");
    assert_eq!(
        sent, 1,
        "NSTART=1: one notify per endpoint even with two rows"
    );
    assert_eq!(app.transport().send_n, 1);
    assert_eq!(app.metrics().observe_notify, 1);
    assert_eq!(app.metrics().nstart_reject, 1);
}

#[test]
fn notify_fans_out_to_distinct_endpoints() {
    let peer_a = Endpoint::v4([192, 0, 2, 1], 5683);
    let peer_b = Endpoint::v4([192, 0, 2, 3], 5683);
    let extra = [Opt::observe_register()];
    let (wire, n) = encode_nstart_wire(Code::GET, &["sensors", "temp"], &extra, 0x1001, 0xA1);
    let mut app = App::profile::<profiles::Default>()
        .deterministic_for_tests()
        .block_wise::<false>()
        .route(&["sensors", "temp"], get(get_obs))
        .bind(WideLoopback {
            inbox: Some((peer_a, wire, n)),
            ..WideLoopback::default()
        })
        .expect("bind");
    app.poll(0).expect("register a");
    let (wire, n) = encode_nstart_wire(Code::GET, &["sensors", "temp"], &extra, 0x1002, 0xB1);
    app.transport_mut().inbox = Some((peer_b, wire, n));
    app.poll(1).expect("register b");

    app.transport_mut().send_n = 0;
    let sent = app
        .notify(
            10,
            &["sensors", "temp"],
            Response::content(b"obs-n").content_format(ContentFormat::TEXT_PLAIN),
        )
        .expect("notify");
    assert_eq!(sent, 2);
    assert_eq!(app.transport().send_n, 2);
}

#[test]
fn observe_non_notify_rst_drops_interest() {
    let peer = Endpoint::v4([192, 0, 2, 1], 5683);
    let extra = [Opt::observe_register()];
    let (wire, n) = encode_wide(Code::GET, &["sensors", "temp"], &extra, 0x1001);
    let mut app = App::profile::<profiles::Default>()
        .deterministic_for_tests()
        .block_wise::<false>()
        .route(&["sensors", "temp"], get(get_obs))
        .bind(WideLoopback {
            inbox: Some((peer, wire, n)),
            ..WideLoopback::default()
        })
        .expect("bind");
    app.poll(0).expect("poll");
    assert!(observe_registered(&app, peer));

    app.transport_mut().send_n = 0;
    let sent = app
        .notify(
            10,
            &["sensors", "temp"],
            Response::content(b"obs-1").content_format(ContentFormat::TEXT_PLAIN),
        )
        .expect("notify");
    assert_eq!(sent, 1);
    let note = last_wide(&app);
    assert_eq!(note.ty(), Type::NonConfirmable);
    let mid = note.message_id();
    assert!(!note.token().is_empty(), "notify Token is not empty");

    inject_empty_rst(&mut app, peer, mid);
    app.poll(11).expect("rst");
    assert!(
        !observe_registered(&app, peer),
        "RFC 7641 RST of NON notify must drop the observer"
    );

    app.transport_mut().send_n = 0;
    let sent = app
        .notify(12, &["sensors", "temp"], Response::content(b"obs-2"))
        .expect("notify after rst");
    assert_eq!(sent, 0);
}

#[test]
fn observe_con_notify_rst_drops_interest() {
    let peer = Endpoint::v4([192, 0, 2, 1], 5683);
    let extra = [Opt::observe_register()];
    let (wire, n) = encode_wide(Code::GET, &["sensors", "temp"], &extra, 0x1001);
    let mut app = App::profile::<profiles::Default>()
        .deterministic_for_tests()
        .block_wise::<false>()
        .route(&["sensors", "temp"], get(get_obs))
        .bind(WideLoopback {
            inbox: Some((peer, wire, n)),
            ..WideLoopback::default()
        })
        .expect("bind");
    app.poll(0).expect("poll");
    assert!(observe_registered(&app, peer));

    app.transport_mut().send_n = 0;
    let sent = app
        .notify(
            10,
            &["sensors", "temp"],
            Response::content(b"obs-non").content_format(ContentFormat::TEXT_PLAIN),
        )
        .expect("first non");
    assert_eq!(sent, 1);
    assert_eq!(last_wide(&app).ty(), Type::NonConfirmable);

    let now = 10 + ObserveTransmission::CONFIRM_INTERVAL_MS;
    app.transport_mut().send_n = 0;
    let sent = app
        .notify(
            now,
            &["sensors", "temp"],
            Response::content(b"obs-con").content_format(ContentFormat::TEXT_PLAIN),
        )
        .expect("con notify");
    assert_eq!(sent, 1);
    let note = last_wide(&app);
    assert_eq!(note.ty(), Type::Confirmable);
    let mid = note.message_id();

    inject_empty_rst(&mut app, peer, mid);
    app.poll(now).expect("rst");
    assert!(
        !observe_registered(&app, peer),
        "RFC 7641 RST of CON notify must drop the observer"
    );
}

#[test]
fn empty_con_ping_rst_does_not_drop_observe() {
    let peer = Endpoint::v4([192, 0, 2, 1], 5683);
    let extra = [Opt::observe_register()];
    let (wire, n) = encode_wide(Code::GET, &["sensors", "temp"], &extra, 0x1001);
    let mut app = App::profile::<profiles::Default>()
        .deterministic_for_tests()
        .block_wise::<false>()
        .route(&["sensors", "temp"], get(get_obs))
        .bind(WideLoopback {
            inbox: Some((peer, wire, n)),
            ..WideLoopback::default()
        })
        .expect("bind");
    app.poll(0).expect("poll");
    assert!(observe_registered(&app, peer));

    inject_empty_rst(&mut app, peer, MessageId::new(0x5049));
    app.poll(1).expect("unrelated rst");
    assert!(
        observe_registered(&app, peer),
        "empty RST with a foreign MID must not cancel Observe"
    );
}

#[test]
fn observe_max_age_expiry_preserves_interest() {
    let peer = Endpoint::v4([192, 0, 2, 1], 5683);
    let extra = [Opt::observe_register()];
    let (wire, n) = encode_wide(Code::GET, &["sensors", "temp"], &extra, 0x1001);
    let mut app = App::profile::<profiles::Default>()
        .deterministic_for_tests()
        .block_wise::<false>()
        .route(&["sensors", "temp"], get(get_obs))
        .bind(WideLoopback {
            inbox: Some((peer, wire, n)),
            ..WideLoopback::default()
        })
        .expect("bind");
    app.poll(0).expect("poll");
    assert!(observe_registered(&app, peer));

    app.poll(5_000).expect("stale representation");
    assert!(observe_registered(&app, peer));
    assert_eq!(
        app.notify(
            5_001,
            &["sensors", "temp"],
            Response::content(b"updated").content_format(ContentFormat::TEXT_PLAIN)
        )
        .unwrap(),
        1
    );
}

#[test]
fn observe_source_sends_on_signal_poll() {
    let peer = Endpoint::v4([192, 0, 2, 1], 5683);
    let extra = [Opt::observe_register()];
    let (wire, n) = encode_wide(Code::GET, &["sensors", "temp"], &extra, 0x1001);
    let mut app = App::profile::<profiles::Default>()
        .deterministic_for_tests()
        .block_wise::<false>()
        .route(&["sensors", "temp"], get(get_obs).observe(obs_snapshot))
        .bind(WideLoopback {
            inbox: Some((peer, wire, n)),
            ..WideLoopback::default()
        })
        .expect("bind");
    app.poll(0).expect("poll");
    assert!(observe_registered(&app, peer));

    assert_eq!(app.signal(&["sensors", "temp"]), 1);
    app.transport_mut().send_n = 0;
    app.poll(10).expect("poll notify");
    let note = last_wide(&app);
    assert_eq!(note.token(), Token::new(&[0xA1]).expect("token"));
    assert_eq!(note.observe().and_then(Result::ok), Some(1));
    assert_eq!(note.payload(), b"obs-snap");
}

#[test]
fn observe_signal_survives_tx_saturated_poll() {
    let peer = Endpoint::v4([192, 0, 2, 1], 5683);
    let extra = [Opt::observe_register()];
    let (wire, n) = encode_wide(Code::GET, &["sensors", "temp"], &extra, 0x1001);
    let mut app = App::profile::<profiles::Default>()
        .deterministic_for_tests()
        .block_wise::<false>()
        .route(&["sensors", "temp"], get(get_obs).observe(obs_snapshot))
        .bind(WideLoopback {
            inbox: Some((peer, wire, n)),
            ..WideLoopback::default()
        })
        .expect("bind");
    app.poll(0).expect("register");
    assert!(observe_registered(&app, peer));

    let key = ObserveKey::new(Token::new(&[0xA1]).expect("token"), peer);
    let id = app.engine().lookup_observe(key).expect("row");
    assert_eq!(app.engine().observe_interest(id).expect("row").seq(), 0);

    let mut held = [None; profiles::Default::TX_DATAGRAM_SLOTS];
    {
        let engine = app.engine_mut();
        for slot in &mut held {
            *slot = engine.acquire_tx();
        }
        assert!(engine.acquire_tx().is_none(), "TX full");
    }

    assert_eq!(app.signal(&["sensors", "temp"]), 1);
    app.transport_mut().send_n = 0;
    let err = app.poll(10).expect_err("TX full");
    assert_eq!(err, Error::Saturated);
    let row = app.engine().observe_interest(id).expect("still registered");
    assert!(row.is_pending(), "due must survive send miss");
    assert_eq!(row.seq(), 0, "seq must not gap");
    assert_eq!(app.transport().send_n, 0);

    for tx in held.into_iter().flatten() {
        app.engine_mut().release_tx(tx).expect("free TX");
    }
    app.poll(10).expect("retry notify");
    let note = last_wide(&app);
    assert_eq!(note.observe().and_then(Result::ok), Some(1));
    assert_eq!(note.payload(), b"obs-snap");
    let row = app.engine().observe_interest(id).expect("row");
    assert!(!row.is_pending());
    assert_eq!(row.seq(), 1);
}

#[test]
fn only_get_and_fetch_observe() {
    let peer = Endpoint::v4([192, 0, 2, 1], 5683);
    let register = coaptic::message::encode_uint(0);
    let deregister = coaptic::message::encode_uint(1);
    let mut app = App::profile::<profiles::Default>()
        .deterministic_for_tests()
        .block_wise::<false>()
        .route(&["obs"], get(get_obs).put(get_obs).fetch(get_obs))
        .bind(WideLoopback::default())
        .expect("bind");
    let mut ask = |code: Code, option: &[u8], mid: u16| {
        let extra = [Opt::new(coaptic::message::OptionNumber::OBSERVE, option)];
        let (wire, n) = encode_wide(code, &["obs"], &extra, mid);
        let parsed = decode(&wire[..n]).expect("decode");
        let req = Request::from_decoded(parsed, peer, None).expect("req");
        let asks = (req.is_observe_register(), req.is_observe_deregister());
        app.transport_mut().inbox = Some((peer, wire, n));
        app.transport_mut().send_n = 0;
        app.poll(0).expect("poll");
        assert_eq!(last_wide(&app).observe().is_some(), asks.0);
        (asks, observe_registered(&app, peer))
    };
    let zero = register.as_slice();
    let one = deregister.as_slice();
    assert_eq!(ask(Code::PUT, zero, 1), ((false, false), false));
    assert_eq!(ask(Code::GET, zero, 2), ((true, false), true));
    assert_eq!(ask(Code::PUT, one, 3), ((false, false), true));
    assert_eq!(ask(Code::GET, one, 4), ((false, true), false));
    assert_eq!(ask(Code::FETCH, zero, 5), ((true, false), true));
    assert_eq!(ask(Code::FETCH, one, 6), ((false, true), false));
}

#[test]
fn notifications_and_requests_share_the_identifiers() {
    let peer = Endpoint::v4([192, 0, 2, 1], 5683);
    let register = coaptic::message::encode_uint(0);
    let extra = [Opt::observe(&register)];
    let (wire, n) = encode_wide(Code::GET, &["obs"], &extra, 0x2001);
    let mut app = App::profile::<profiles::Default>()
        .deterministic_for_tests()
        .block_wise::<false>()
        .route(&["obs"], get(get_obs))
        .bind(WideLoopback {
            inbox: Some((peer, wire, n)),
            ..WideLoopback::default()
        })
        .expect("bind");
    app.poll(0).expect("register");
    assert_eq!(last_wide(&app).message_id(), MessageId::new(0x2001));
    assert_eq!(app.notify(1, &["obs"], get_obs_next()).expect("notify"), 1);
    assert_eq!(last_wide(&app).message_id(), MessageId::new(1));
    app.get(&["other"]).to(Endpoint::v4([192, 0, 2, 9], 5683)).send(2).expect("send");
    assert_eq!(last_wide(&app).message_id(), MessageId::new(2));
    assert_eq!(app.next_message_id(2), Ok(MessageId::new(3)));
}

fn get_obs_next() -> Response<'static> {
    Response::content(b"obs-1").content_format(ContentFormat::TEXT_PLAIN)
}
