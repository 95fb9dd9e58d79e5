//! Ending subscriptions.
use coaptic::app::{get, App, Error, Request, Response};
use coaptic::message::{decode, encode, BlockValue, Code, ContentFormat, Message, MessageId, Opt, OptionsBuilder, Token, Type};
use coaptic::storage::{DatagramIo, Endpoint, ObserveKey};
use coaptic::profiles;

const WIRE: usize = 1472;

fn get_obs(_req: Request<'_>) -> Response<'static> {
    Response::content(b"obs-0")
        .content_format(ContentFormat::TEXT_PLAIN)
        .max_age(5)
        .observe(0)
}

/// Captures more than one TX datagram so a separate ACK + CON, or a CON
/// retransmit, can be checked. Send is not delivered to `recv` (the caller
/// injects inbox, or leaves it empty to model loss).
#[derive(Default)]
struct RecordIo {
    inbox: Option<(Endpoint, [u8; 256], usize)>,
    sent: [Option<(Endpoint, [u8; 256], usize)>; 8],
    sent_n: usize,
}

impl DatagramIo for RecordIo {
    type Error = &'static str;

    fn recv(&mut self, buf: &mut [u8]) -> Result<Option<(usize, Endpoint)>, Self::Error> {
        let Some((ep, bytes, n)) = self.inbox.take() else {
            return Ok(None);
        };
        if n > buf.len() {
            return Err("short buf");
        }
        buf[..n].copy_from_slice(&bytes[..n]);
        Ok(Some((n, ep)))
    }

    fn send(&mut self, dest: Endpoint, bytes: &[u8]) -> Result<usize, Self::Error> {
        if bytes.len() > 256 {
            return Err("too long");
        }
        if self.sent_n >= self.sent.len() {
            return Err("full");
        }
        let mut slot = [0u8; 256];
        slot[..bytes.len()].copy_from_slice(bytes);
        self.sent[self.sent_n] = Some((dest, slot, bytes.len()));
        self.sent_n += 1;
        Ok(bytes.len())
    }
}

struct WideLoopback {
    inbox: Option<(Endpoint, [u8; WIRE], usize)>,
    sends: [[u8; WIRE]; 4],
    send_lens: [usize; 4],
    send_n: usize,
}

impl Default for WideLoopback {
    fn default() -> Self {
        Self {
            inbox: None,
            sends: [[0; WIRE]; 4],
            send_lens: [0; 4],
            send_n: 0,
        }
    }
}

impl DatagramIo for WideLoopback {
    type Error = &'static str;

    fn recv(&mut self, buf: &mut [u8]) -> Result<Option<(usize, Endpoint)>, Self::Error> {
        let Some((ep, bytes, n)) = self.inbox.take() else {
            return Ok(None);
        };
        if n > buf.len() {
            return Err("short buf");
        }
        buf[..n].copy_from_slice(&bytes[..n]);
        Ok(Some((n, ep)))
    }

    fn send(&mut self, _dest: Endpoint, bytes: &[u8]) -> Result<usize, Self::Error> {
        if bytes.len() > WIRE {
            return Err("too long");
        }
        if self.send_n >= self.sends.len() {
            return Err("send log full");
        }
        let i = self.send_n;
        self.sends[i][..bytes.len()].copy_from_slice(bytes);
        self.send_lens[i] = bytes.len();
        self.send_n += 1;
        Ok(bytes.len())
    }
}

fn encode_wide_token(
    code: Code,
    path: &[&str],
    extra: &[Opt<'_>],
    mid: u16,
    token: Token,
) -> ([u8; WIRE], usize) {
    let mut opts = OptionsBuilder::<8>::new();
    for segment in path {
        opts.push(Opt::uri_path(segment)).expect("path");
    }
    for opt in extra {
        opts.push(*opt).expect("extra");
    }
    let msg = Message::new(Type::Confirmable, code, MessageId::new(mid))
        .with_token(token)
        .with_options(opts.as_slice());
    let mut buf = [0u8; WIRE];
    let n = encode(&msg, &mut buf).expect("encode");
    (buf, n)
}

fn last_wide<const BLOCK_WISE: bool>(
    app: &App<profiles::Default, WideLoopback, 8, BLOCK_WISE>,
) -> coaptic::message::ParsedMessage<'_>
{
    let n = app.transport().send_n;
    assert!(n > 0, "expected a send");
    decode(&app.transport().sends[n - 1][..app.transport().send_lens[n - 1]]).expect("decode")
}

/// Send writes into recv so one App is both client and server.
#[derive(Default)]
struct Echo {
    pending: Option<(Endpoint, [u8; 256], usize)>,
}

impl DatagramIo for Echo {
    type Error = &'static str;

    fn recv(&mut self, buf: &mut [u8]) -> Result<Option<(usize, Endpoint)>, Self::Error> {
        let Some((ep, bytes, n)) = self.pending.take() else {
            return Ok(None);
        };
        if n > buf.len() {
            return Err("short buf");
        }
        buf[..n].copy_from_slice(&bytes[..n]);
        Ok(Some((n, ep)))
    }

    fn send(&mut self, dest: Endpoint, bytes: &[u8]) -> Result<usize, Self::Error> {
        if bytes.len() > 256 {
            return Err("too long");
        }
        let mut slot = [0u8; 256];
        slot[..bytes.len()].copy_from_slice(bytes);
        self.pending = Some((dest, slot, bytes.len()));
        Ok(bytes.len())
    }
}

fn echo_obs_app() -> App<profiles::Default, Echo, 8, false> {
    App::profile::<profiles::Default>()
        .deterministic_for_tests()
        .block_wise::<false>()
        .route(&["sensors", "temp"], get(get_obs))
        .bind(Echo::default())
        .expect("bind")
}

fn record_client() -> App<profiles::Default, RecordIo, 8, false> {
    App::profile::<profiles::Default>()
        .deterministic_for_tests()
        .block_wise::<false>()
        .bind(RecordIo::default())
        .expect("bind")
}

#[test]
fn observe_cancellation_matches_every_retained_option_and_fetch_payload() {
    let peer = Endpoint::v4([192, 0, 2, 2], 5683);
    for change in 0..12 {
        let mut app = record_client();
        let original = app
            .get("sensors/temp")
            .non()
            .observe()
            .to(peer)
            .send(0)
            .unwrap();
        let mut stop = app.get("sensors/temp").non().deregister().to(peer);
        stop = match change {
            0 => stop.query("x=1"),
            1 => stop.query(""),
            2 => stop.accept(ContentFormat::TEXT_PLAIN),
            3 => stop.content_format(ContentFormat::TEXT_PLAIN),
            4 => stop.if_match(b"m"),
            5 => stop.if_none_match(),
            6 => stop.echo(coaptic::message::Echo::new(b"issued").unwrap()),
            7 => stop.no_response(coaptic::message::NoResponse::new(0)),
            8 => stop.request_tag(coaptic::storage::BodyTag::empty()),
            9 => stop.block2(BlockValue::new(0, false, 0).unwrap()),
            10 => stop.q_block2(),
            _ => stop.payload(b"different"),
        };
        assert_eq!(
            stop.send(1),
            Err(Error::ObserveCancellationMismatch),
            "change {change}"
        );
        assert_eq!(app.transport().sent_n, 1);
        // Refusal must leave the original selectable. A different ETag is legal.
        let stop = app
            .get("sensors/temp")
            .deregister_call(original)
            .etag(b"new")
            .to(peer)
            .send(2)
            .unwrap();
        assert_eq!(stop, original);
        let (_, bytes, n) = app.transport().sent[1].unwrap();
        let wire = decode(&bytes[..n]).unwrap();
        assert_eq!(wire.token(), original.token());
        assert_eq!(wire.observe(), Some(Ok(1)));
        assert_eq!(wire.etag().into_iter().next(), Some(b"new".as_slice()));
    }
    let mut app = record_client();
    let first = app
        .fetch("sensors/temp")
        .non()
        .observe()
        .payload(b"a")
        .to(peer)
        .send(0)
        .unwrap();
    assert_eq!(
        app.get("sensors/temp")
            .non()
            .deregister()
            .payload(b"a")
            .to(peer)
            .send(1),
        Err(Error::ObserveCancellationMismatch)
    );
    assert_eq!(
        app.fetch("sensors/temp")
            .non()
            .deregister()
            .payload(b"b")
            .to(peer)
            .send(1),
        Err(Error::ObserveCancellationMismatch)
    );
    assert_eq!(
        app.fetch("sensors/temp")
            .non()
            .deregister()
            .payload(b"a")
            .to(peer)
            .send(1)
            .unwrap(),
        first
    );
}

#[test]
fn observe_cancellation_selects_exact_queries_and_requires_call_for_ambiguity() {
    let peer = Endpoint::v4([192, 0, 2, 2], 5683);
    let mut app = record_client();
    let a = app
        .get("sensors/temp")
        .non()
        .observe()
        .query("a")
        .query("")
        .to(peer)
        .send(0)
        .unwrap();
    let b = app
        .get("sensors/temp")
        .non()
        .observe()
        .query("")
        .query("a")
        .to(peer)
        .send(0)
        .unwrap();
    let duplicate = app
        .get("sensors/temp")
        .non()
        .observe()
        .query("a")
        .query("")
        .to(peer)
        .send(0)
        .unwrap();
    assert_eq!(
        app.get("sensors/temp")
            .non()
            .deregister()
            .query("a")
            .query("")
            .to(peer)
            .send(1),
        Err(Error::ObserveCancellationAmbiguous)
    );
    assert_eq!(
        app.get("sensors/temp")
            .non()
            .deregister_call(b)
            .query("a")
            .query("")
            .to(peer)
            .send(1),
        Err(Error::ObserveCancellationMismatch)
    );
    assert_eq!(app.transport().sent_n, 3);
    assert_eq!(
        app.get("sensors/temp")
            .non()
            .deregister_call(duplicate)
            .query("a")
            .query("")
            .to(peer)
            .send(1)
            .unwrap(),
        duplicate
    );
    assert_eq!(
        app.get("sensors/temp")
            .non()
            .deregister()
            .query("")
            .query("a")
            .to(peer)
            .send(1)
            .unwrap(),
        b
    );
    assert_eq!(
        app.get("sensors/temp")
            .non()
            .deregister()
            .query("a")
            .query("")
            .to(peer)
            .send(1)
            .unwrap(),
        a
    );
    assert_eq!(
        app.get("missing").non().deregister().to(peer).send(1),
        Err(Error::ObserveCancellationMismatch)
    );
}

#[test]
fn observe_cancellation_identity_bound_refuses_before_io_without_consuming_capacity() {
    let peer = Endpoint::v4([192, 0, 2, 2], 5683);
    let mut app = App::profile::<profiles::Default>()
        .deterministic_for_tests()
        .block_wise::<true>()
        .bind(WideLoopback::default())
        .unwrap();
    // Four header bytes plus Uri-Path encoding plus payload marker = seven.
    let at_bound = [b'x'; 505];
    let over_bound = [b'x'; 506];
    for _ in 0..12 {
        assert_eq!(
            app.fetch("x")
                .observe()
                .payload(&over_bound)
                .to(peer)
                .send(0),
            Err(Error::ObserveRequestTooLarge)
        );
    }
    assert_eq!(app.transport().send_n, 0);
    assert_eq!(app.engine_mut().tx_occupied(), 0);
    let call = app
        .fetch("x")
        .observe()
        .payload(&at_bound)
        .to(peer)
        .send(0)
        .unwrap();
    assert_eq!(app.transport().send_n, 1);
    assert!(app.cancel(call));
}

#[test]
fn observe_cancellation_replaces_unread_notification_and_old_pending_request() {
    let peer = Endpoint::v4([192, 0, 2, 2], 5683);
    let mut app = echo_obs_app();
    let call = app.get("sensors/temp").observe().to(peer).send(0).unwrap();
    app.poll(0).unwrap();
    app.poll(0).unwrap();
    // Leave the initial notification unread. It must not masquerade as the
    // result of the new cancellation request sharing the same Token.
    assert_eq!(
        app.get("sensors/temp")
            .deregister_call(call)
            .to(peer)
            .send(1)
            .unwrap(),
        call
    );
    assert!(app.take_response(call).is_none());
    app.poll(1).unwrap();
    app.poll(1).unwrap();
    assert!(
        app.take_response(call)
            .unwrap()
            .unwrap()
            .observe_seq()
            .is_none()
    );
    assert_eq!(app.engine_mut().tx_occupied(), 0);

    let mut app = record_client();
    let call = app.get("x").observe().to(peer).send(0).unwrap();
    assert_eq!(app.engine_mut().tx_occupied(), 1);
    assert_eq!(
        app.get("x").deregister_call(call).to(peer).send(1).unwrap(),
        call
    );
    assert_eq!(
        app.engine_mut().tx_occupied(),
        1,
        "old registration CON retired"
    );
    app.poll(2000).unwrap();
    assert_eq!(
        app.transport().sent_n,
        2,
        "old registration must not retransmit"
    );
    app.poll(2001).unwrap();
    let (_, bytes, n) = app.transport().sent[2].unwrap();
    assert_eq!(decode(&bytes[..n]).unwrap().observe(), Some(Ok(1)));
}

#[test]
fn failed_observe_cancellation_retires_local_state_and_reports_uncertainty() {
    struct CancelIo {
        inner: RecordIo,
        fail: bool,
    }
    impl DatagramIo for CancelIo {
        type Error = &'static str;
        fn recv(&mut self, bytes: &mut [u8]) -> Result<Option<(usize, Endpoint)>, Self::Error> {
            self.inner.recv(bytes)
        }
        fn send(&mut self, peer: Endpoint, bytes: &[u8]) -> Result<usize, Self::Error> {
            if self.fail {
                Err("injected cancellation failure")
            } else {
                self.inner.send(peer, bytes)
            }
        }
    }
    let peer = Endpoint::v4([192, 0, 2, 2], 5683);
    let mut app = App::profile::<profiles::Default>()
        .deterministic_for_tests()
        .block_wise::<false>()
        .bind(CancelIo {
            inner: RecordIo::default(),
            fail: false,
        })
        .unwrap();
    for _ in 0..12 {
        app.transport_mut().inner.sent_n = 0;
        let call = app.get("x").observe().to(peer).send(0).unwrap();
        app.transport_mut().fail = true;
        assert!(matches!(
            app.get("x").deregister_call(call).to(peer).send(1),
            Err(Error::Io(_))
        ));
        assert_eq!(app.engine_mut().tx_occupied(), 0);
        assert_eq!(
            app.get("x").deregister_call(call).to(peer).send(2),
            Err(Error::ObserveCancellationMismatch)
        );
        assert_eq!(
            app.take_response(call).unwrap().unwrap_err(),
            coaptic::CallFailure::CancellationFailed
        );
        assert!(app.take_response(call).is_none());
        app.transport_mut().fail = false;
    }
}

#[test]
fn observe_cancellation_cannot_select_an_unread_terminal_response() {
    fn decline(_: Request<'_>) -> Response<'static> {
        Response::not_found()
    }
    let peer = Endpoint::v4([192, 0, 2, 2], 5683);
    let mut app = App::profile::<profiles::Default>()
        .deterministic_for_tests()
        .block_wise::<false>()
        .route("x", get(decline))
        .bind(Echo::default())
        .unwrap();
    let call = app.get("x").observe().to(peer).send(0).unwrap();
    app.poll(0).unwrap();
    app.poll(0).unwrap();
    assert_eq!(
        app.get("x").deregister_call(call).to(peer).send(1),
        Err(Error::ObserveCancellationMismatch)
    );
    assert_eq!(
        app.take_response(call).unwrap().unwrap().code(),
        Code::NOT_FOUND
    );
}

#[test]
fn observe_client_and_server_roles_do_not_overwrite_or_cancel_each_other() {
    let peer = Endpoint::v4([192, 0, 2, 2], 5683);
    let mut app = echo_obs_app();
    let call = app.get("sensors/temp").observe().to(peer).send(0).unwrap();
    app.poll(0).unwrap();
    app.poll(0).unwrap();
    let server_key = ObserveKey::new(call.token(), peer);
    let client_key = ObserveKey::new_client(call.token(), peer);
    let server = app.engine().lookup_observe(server_key).unwrap();
    let client = app.engine().lookup_observe(client_key).unwrap();
    assert_ne!(server, client);
    assert!(
        app.engine()
            .observe_interest(client)
            .unwrap()
            .resource()
            .is_none()
    );
    assert_eq!(
        app.notify(
            1,
            &["sensors", "temp"],
            Response::content(b"one notification").content_format(ContentFormat::TEXT_PLAIN)
        )
        .unwrap(),
        1
    );
    app.poll(1).unwrap();
    assert_eq!(
        app.take_response(call).unwrap().unwrap().payload(),
        b"one notification"
    );
    assert!(app.cancel(call));
    assert!(app.engine().lookup_observe(client_key).is_none());
    assert!(
        app.engine().lookup_observe(server_key).is_some(),
        "local cancellation must not remove the independent observer"
    );
    assert_eq!(
        app.take_response(call).unwrap().unwrap_err(),
        coaptic::CallFailure::Cancelled
    );
    // The peer's existing server relation terminates when its CON is reset.
    app.notify(
        86_400_002,
        &["sensors", "temp"],
        Response::content(b"late").content_format(ContentFormat::TEXT_PLAIN),
    )
    .unwrap();
    app.poll(86_400_002).unwrap();
    app.poll(86_400_002).unwrap();
    assert!(app.engine().lookup_observe(server_key).is_none());
}

#[test]
fn observe_route_identity_keeps_literal_slashes_and_segments_distinct() {
    fn slash() -> Response<'static> {
        Response::content(b"literal").content_format(ContentFormat::TEXT_PLAIN)
    }
    fn segments() -> Response<'static> {
        Response::content(b"segments").content_format(ContentFormat::TEXT_PLAIN)
    }
    let peer = Endpoint::v4([192, 0, 2, 1], 5683);
    let mut app = App::profile::<profiles::Default>()
        .deterministic_for_tests()
        .block_wise::<false>()
        .route(&["a/b"], get(get_obs).observe(slash))
        .route(&["a", "b"], get(get_obs).observe(segments))
        .bind(WideLoopback::default())
        .unwrap();
    let paths: [&[&str]; 2] = [&["a/b"], &["a", "b"]];
    let tokens = [Token::new(&[1]).unwrap(), Token::new(&[2]).unwrap()];
    for (i, path) in paths.iter().enumerate() {
        let (wire, n) = encode_wide_token(
            Code::GET,
            path,
            &[Opt::observe_register()],
            100 + i as u16,
            tokens[i],
        );
        app.transport_mut().inbox = Some((peer, wire, n));
        app.poll(i as u64).unwrap();
    }
    assert_ne!(
        app.site().observe_resource(paths[0]),
        app.site().observe_resource(paths[1])
    );
    assert!(app.site().observe_resource(&["missing"]).is_none());
    for (i, path) in paths.iter().enumerate() {
        app.transport_mut().send_n = 0;
        assert_eq!(app.signal(path), 1);
        app.poll(10_000 * (i as u64 + 1)).unwrap();
        let note = last_wide(&app);
        assert_eq!(note.token(), tokens[i]);
        assert_eq!(
            note.payload(),
            if i == 0 {
                b"literal".as_slice()
            } else {
                b"segments".as_slice()
            }
        );
        assert_eq!(app.transport().send_n, 1);
    }
    assert_eq!(app.signal(&["missing"]), 0);
    assert_eq!(
        app.notify(30_000, &["missing"], Response::content(b"no"))
            .unwrap(),
        0
    );
}
