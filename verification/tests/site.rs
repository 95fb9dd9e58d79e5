//! Routes, the catalog, and what requests and responses say.
use coaptic::app::{get, link_format_capacity, post, put, App, Error, LinkFormatScratch, Request, Response, Site, INLINE_PAYLOAD, LINK_FORMAT_PER_ROUTE};
use coaptic::message::{decode, encode, BlockValue, Code, ContentFormat, EncodedUint, Message, MessageId, Opt, OptionNumber, OptionsBuilder, Token, Type};
use coaptic::storage::{DatagramIo, Endpoint};
use coaptic::message::Echo as EchoOpt;
use coaptic::profiles;

fn get_temp(_req: Request<'_>) -> Response<'static> {
    Response::content(b"21.5").content_format(ContentFormat::TEXT_PLAIN)
}

fn get_led(_: Request<'_>) -> Response<'static> {
    // Demo payload. Real LED state is firmware-owned, not an App bag.
    Response::content(b"off")
}

fn put_led(_req: Request<'_>) -> Response<'static> {
    Response::changed()
}

fn post_led(_: Request<'_>) -> Response<'static> {
    Response::changed()
}

#[derive(Default)]
struct Loopback {
    inbox: Option<(Endpoint, [u8; 256], usize)>,
    last_send: Option<(Endpoint, [u8; 256], usize)>,
}

impl DatagramIo for Loopback {
    type Error = &'static str;

    fn recv(&mut self, buf: &mut [u8]) -> Result<Option<(usize, Endpoint)>, Self::Error> {
        let Some((ep, bytes, n)) = self.inbox.take() else {
            return Ok(None);
        };
        if n > buf.len() {
            return Err("short buf");
        }
        buf[..n].copy_from_slice(&bytes[..n]);
        Ok(Some((n, ep)))
    }

    fn send(&mut self, dest: Endpoint, bytes: &[u8]) -> Result<usize, Self::Error> {
        if bytes.len() > 256 {
            return Err("too long");
        }
        let mut slot = [0u8; 256];
        slot[..bytes.len()].copy_from_slice(bytes);
        self.last_send = Some((dest, slot, bytes.len()));
        Ok(bytes.len())
    }
}

fn encode_req(code: Code, path: &[&str], payload: &[u8]) -> ([u8; 256], usize) {
    encode_req_mid(code, path, payload, 0x1001)
}

fn encode_req_mid(code: Code, path: &[&str], payload: &[u8], mid: u16) -> ([u8; 256], usize) {
    encode_req_echo(Type::Confirmable, code, path, payload, None, None, mid)
}

fn encode_req_echo(
    ty: Type,
    code: Code,
    path: &[&str],
    payload: &[u8],
    no_response: Option<u32>,
    echo: Option<&[u8]>,
    mid: u16,
) -> ([u8; 256], usize) {
    let token = Token::new(&[0xA1]).expect("token");
    let mut opts = OptionsBuilder::<8>::new();
    for segment in path {
        opts.push(Opt::uri_path(segment)).expect("path");
    }
    let nr = no_response.map(EncodedUint::new);
    if let Some(ref encoded) = nr {
        opts.push(Opt::no_response(encoded)).expect("nr");
    }
    if let Some(echo) = echo {
        opts.push(Opt::echo(echo)).expect("echo");
    }
    let msg = Message::new(ty, code, MessageId::new(mid))
        .with_token(token)
        .with_options(opts.as_slice())
        .with_payload(payload);
    let mut buf = [0u8; 256];
    let n = encode(&msg, &mut buf).expect("encode");
    (buf, n)
}

fn encode_req_extra(
    code: Code,
    path: &[&str],
    extra: &[Opt<'_>],
    payload: &[u8],
) -> ([u8; 256], usize) {
    let token = Token::new(&[0xA1]).expect("token");
    let mut opts = OptionsBuilder::<8>::new();
    for segment in path {
        opts.push(Opt::uri_path(segment)).expect("path");
    }
    for opt in extra {
        opts.push(*opt).expect("extra");
    }
    let msg = Message::new(Type::Confirmable, code, MessageId::new(0x1001))
        .with_token(token)
        .with_options(opts.as_slice())
        .with_payload(payload);
    let mut buf = [0u8; 256];
    let n = encode(&msg, &mut buf).expect("encode");
    (buf, n)
}

struct LastReply {
    ty: Type,
    code: Code,
    payload: [u8; 64],
    payload_len: usize,
    content_format: Option<ContentFormat>,
    block2: Option<BlockValue>,
    block1: Option<BlockValue>,
    echo: Option<EchoOpt>,
}

fn last_reply<const BLOCK_WISE: bool>(
    app: &App<profiles::Default, Loopback, 8, BLOCK_WISE>,
) -> LastReply
{
    let (_, bytes, n) = app.transport().last_send.expect("sent");
    let parsed = decode(&bytes[..n]).expect("decode reply");
    let mut payload = [0u8; 64];
    let payload_len = parsed.payload().len().min(64);
    payload[..payload_len].copy_from_slice(&parsed.payload()[..payload_len]);
    LastReply {
        ty: parsed.ty(),
        code: parsed.code(),
        payload,
        payload_len,
        content_format: parsed.content_format().and_then(Result::ok),
        block2: parsed.block2().and_then(Result::ok),
        block1: parsed.block1().and_then(Result::ok),
        echo: EchoOpt::from_option(parsed.echo()),
    }
}

/// Sixteen short registered paths. Catalog is 143 bytes — past
/// [`INLINE_PAYLOAD`] (128), so a 128-byte write would silently drop links.
const TEN_PLUS_ROUTES: [&str; 16] = [
    "ep/00", "ep/01", "ep/02", "ep/03", "ep/04", "ep/05", "ep/06", "ep/07", "ep/08", "ep/09",
    "ep/10", "ep/11", "ep/12", "ep/13", "ep/14", "ep/15",
];

const TEN_PLUS_CATALOG: &str = "</ep/00>,</ep/01>,</ep/02>,</ep/03>,</ep/04>,</ep/05>,</ep/06>,</ep/07>,</ep/08>,</ep/09>,</ep/10>,</ep/11>,</ep/12>,</ep/13>,</ep/14>,</ep/15>";

fn well_known_request() -> ([u8; 256], usize) {
    encode_req(Code::GET, &[".well-known", "core"], &[])
}

fn dispatch_well_known<'a, const N: usize>(site: &Site<N>, scratch: &'a mut [u8]) -> Response<'a> {
    let (wire, n) = well_known_request();
    let parsed = decode(&wire[..n]).expect("decode");
    let req = Request::from_decoded(parsed, Endpoint::v4([192, 0, 2, 1], 5683), None).expect("req");
    site.dispatch(req, scratch)
}

fn assert_full_catalog(body: &str) {
    assert!(
        TEN_PLUS_CATALOG.len() > INLINE_PAYLOAD,
        "catalog must exceed INLINE_PAYLOAD so a 128-byte write would truncate"
    );
    assert_eq!(body, TEN_PLUS_CATALOG);
    assert_eq!(
        body.bytes().filter(|&b| b == b',').count(),
        TEN_PLUS_ROUTES.len() - 1
    );
    for path in TEN_PLUS_ROUTES {
        assert_eq!(body.matches(path).count(), 1, "{path} in {body}");
    }
}

/// IANA experimental 65000–65535. Even ⇒ elective (LSB clear); unrecognized
/// critical options (e.g. 65001) are 4.02 before the handler, so this
/// number is safe to carry through decode and App dispatch.
#[derive(Clone, Copy)]
struct Experimental(u16);

impl Experimental {
    const fn new() -> Self {
        Self(65000)
    }

    const fn number(self) -> u16 {
        self.0
    }
}

fn put_std_and_custom(req: Request<'_>) -> Response<'static> {
    let experimental = Experimental::new();
    match (req.content_format(), req.get_option(experimental.number())) {
        (Some(Ok(ContentFormat::JSON)), Some(opt)) => Response::changed().payload_copy(opt.value()),
        _ => Response::new(Code::BAD_REQUEST),
    }
}

#[test]
fn well_known_core_lists_registered_paths() {
    let peer = Endpoint::v4([192, 0, 2, 1], 5683);
    let (wire, n) = encode_req(Code::GET, &[".well-known", "core"], &[]);
    // Catalog must be generated from these `.route` registrations (not a stored string).
    let mut app = App::profile::<profiles::Default>()
        .deterministic_for_tests()
        .block_wise::<false>()
        .route(&["a"], get(get_temp))
        .route(&["b"], get(get_led))
        .well_known_core()
        .bind(Loopback {
            inbox: Some((peer, wire, n)),
            last_send: None,
        })
        .expect("bind");
    app.poll(0).expect("poll");
    let parsed = last_reply(&app);
    assert_eq!(parsed.code, Code::CONTENT);
    assert_eq!(parsed.content_format, Some(ContentFormat::LINK_FORMAT));
    let body = core::str::from_utf8(&parsed.payload[..parsed.payload_len]).expect("utf8");
    assert!(body.contains("</a>"), "{body}");
    assert!(body.contains("</b>"), "{body}");
    assert!(!body.contains(".well-known"), "{body}");
    assert_eq!(body, "</a>,</b>");
}

#[test]
fn well_known_core_lists_all_registered_routes_past_inline() {
    assert!(link_format_capacity::<16>() == 16 * LINK_FORMAT_PER_ROUTE);
    assert!(link_format_capacity::<16>() > INLINE_PAYLOAD);

    let mut site = Site::<16>::new();
    for path in TEN_PLUS_ROUTES {
        site.route(path, get(get_temp));
    }
    site.well_known_core();
    assert_eq!(site.len(), 16);
    assert_eq!(site.capacity(), 16);

    let mut scratch = LinkFormatScratch::<16>::new();
    let response = dispatch_well_known(&site, scratch.as_mut());
    assert_eq!(response.code(), Code::CONTENT);
    assert_eq!(response.format(), Some(ContentFormat::LINK_FORMAT));
    let body = core::str::from_utf8(response.payload()).expect("utf8");
    assert_full_catalog(body);
}

#[test]
fn well_known_core_poll_lists_every_upfront_route() {
    let peer = Endpoint::v4([192, 0, 2, 1], 5683);
    let (wire, n) = well_known_request();
    let mut builder = App::profile::<profiles::Default>()
        .deterministic_for_tests()
        .block_wise::<false>()
        .routes::<16>();
    for path in TEN_PLUS_ROUTES {
        builder = builder.route(path, get(get_temp));
    }
    let mut app = builder
        .well_known_core()
        .bind(Loopback {
            inbox: Some((peer, wire, n)),
            last_send: None,
        })
        .expect("bind");
    assert_eq!(app.site().len(), 16);
    assert_eq!(app.site().capacity(), 16);
    app.poll(0).expect("poll");

    let (_, bytes, sent) = app.transport().last_send.expect("sent");
    let parsed = decode(&bytes[..sent]).expect("decode reply");
    assert_eq!(parsed.code(), Code::CONTENT);
    assert_eq!(
        parsed.content_format().and_then(Result::ok),
        Some(ContentFormat::LINK_FORMAT)
    );
    let body = core::str::from_utf8(parsed.payload()).expect("utf8");
    assert_full_catalog(body);
}

#[test]
fn well_known_core_overflow_is_internal_error() {
    const TOO_LONG: &str = "xxxxxxxxxxxxxxxxxxxxxxxxxxxxxxxxxxxxxxxxxxxxxxxxxxxxxxxxxxxxxxxxxxxxxxxxxxxxxxxxxxxxxxxxxxxxxxxxxxxxxxxxxxxxxxxxxxxxxxxxxxxxxxxx";
    assert!(TOO_LONG.len() + 3 > INLINE_PAYLOAD);

    let mut site = Site::<1>::new();
    site.route(TOO_LONG, get(get_temp)).well_known_core();
    let mut scratch = LinkFormatScratch::<1>::new();
    let response = dispatch_well_known(&site, scratch.as_mut());
    assert_eq!(response.code(), Code::INTERNAL_SERVER_ERROR);
    assert!(response.payload().is_empty());
    assert_ne!(response.format(), Some(ContentFormat::LINK_FORMAT));
}

/// A path longer than [`LINK_FORMAT_PER_ROUTE`] still fits on N=1 because
/// capacity floors at [`INLINE_PAYLOAD`].
#[test]
fn well_known_core_small_n_keeps_inline_floor() {
    const PATH: &str = "sensors/temperature/celsius";
    assert!(PATH.len() + 3 > LINK_FORMAT_PER_ROUTE);
    assert!(PATH.len() + 3 <= INLINE_PAYLOAD);
    assert!(link_format_capacity::<1>() == INLINE_PAYLOAD);

    let mut site = Site::<1>::new();
    site.route(PATH, get(get_temp)).well_known_core();
    let mut scratch = LinkFormatScratch::<1>::new();
    let response = dispatch_well_known(&site, scratch.as_mut());
    assert_eq!(response.code(), Code::CONTENT);
    assert_eq!(response.format(), Some(ContentFormat::LINK_FORMAT));
    let body = core::str::from_utf8(response.payload()).expect("utf8");
    assert_eq!(body, "</sensors/temperature/celsius>");
}

#[test]
fn request_carries_standard_and_custom_option() {
    let experimental = Experimental::new();
    assert!(!OptionNumber::is_critical(experimental.number()));

    let cf = ContentFormat::JSON.encode();
    let extra = [
        Opt::content_format(&cf),
        Opt::new(experimental.number(), b"vendor-x"),
    ];
    let (wire, n) = encode_req_extra(Code::PUT, &["probe"], &extra, &[]);

    let parsed = decode(&wire[..n]).expect("decode");
    assert_eq!(
        parsed.content_format().and_then(Result::ok),
        Some(ContentFormat::JSON)
    );
    assert_eq!(
        parsed.get_option(experimental.number()).map(|o| o.value()),
        Some(&b"vendor-x"[..])
    );
    parsed.check_rfc7252_options().expect("elective custom");

    let peer = Endpoint::v4([192, 0, 2, 1], 5683);
    let mut app = App::profile::<profiles::Default>()
        .deterministic_for_tests()
        .block_wise::<false>()
        .route(&["probe"], put(put_std_and_custom))
        .bind(Loopback {
            inbox: Some((peer, wire, n)),
            last_send: None,
        })
        .expect("bind");
    app.poll(0).expect("poll");
    let reply = last_reply(&app);
    assert_eq!(reply.code, Code::CHANGED);
    assert_eq!(&reply.payload[..reply.payload_len], b"vendor-x");
}

#[test]
fn site_dispatch_table() {
    let mut site = Site::<4>::new();
    site.route(&["sensors", "temp"], get(get_temp))
        .route(&["leds", "0"], get(get_led).put(put_led));

    let (wire, n) = encode_req(Code::GET, &["sensors", "temp"], &[]);
    let parsed = decode(&wire[..n]).expect("decode");
    let req = Request::from_decoded(parsed, Endpoint::v4([192, 0, 2, 1], 5683), None).expect("req");
    assert_eq!(site.dispatch(req, &mut [0u8; 1]).code(), Code::CONTENT);

    let (wire, n) = encode_req(Code::GET, &["leds", "0"], &[]);
    let parsed = decode(&wire[..n]).expect("decode");
    let req = Request::from_decoded(parsed, Endpoint::v4([192, 0, 2, 1], 5683), None).expect("req");
    assert_eq!(site.dispatch(req.clone(), &mut [0u8; 1]).code(), Code::CONTENT);
    assert_eq!(site.dispatch(req, &mut [0u8; 1]).payload(), b"off");
}

#[test]
fn route_path_splits_static_uri() {
    let mut site = Site::<4>::new();
    site.route("sensors/temp", get(get_temp));
    let (wire, n) = encode_req(Code::GET, &["sensors", "temp"], &[]);
    let parsed = decode(&wire[..n]).expect("decode");
    let req = Request::from_decoded(parsed, Endpoint::v4([192, 0, 2, 1], 5683), None).expect("req");
    assert_eq!(site.dispatch(req, &mut [0u8; 1]).code(), Code::CONTENT);
}

#[test]
fn route_slash_path_ignores_leading_slash() {
    let mut site = Site::<4>::new();
    site.route("/leds/0", get(get_led));
    let (wire, n) = encode_req(Code::GET, &["leds", "0"], &[]);
    let parsed = decode(&wire[..n]).expect("decode");
    let req = Request::from_decoded(parsed, Endpoint::v4([192, 0, 2, 1], 5683), None).expect("req");
    assert_eq!(site.dispatch(req, &mut [0u8; 1]).code(), Code::CONTENT);
}

#[test]
fn replacing_route_changes_handler() {
    let mut site = Site::<2>::new();
    site.route(&["leds", "0"], get(get_led));
    site.route(&["leds", "0"], post(post_led));

    let (wire, n) = encode_req(Code::GET, &["leds", "0"], &[]);
    let parsed = decode(&wire[..n]).expect("decode");
    let req = Request::from_decoded(parsed, Endpoint::v4([192, 0, 2, 1], 5683), None).expect("req");
    assert_eq!(
        site.dispatch(req, &mut [0u8; 1]).code(),
        Code::METHOD_NOT_ALLOWED
    );

    let (wire, n) = encode_req(Code::POST, &["leds", "0"], &[]);
    let parsed = decode(&wire[..n]).expect("decode");
    let req = Request::from_decoded(parsed, Endpoint::v4([192, 0, 2, 1], 5683), None).expect("req");
    assert_eq!(site.dispatch(req, &mut [0u8; 1]).code(), Code::CHANGED);
}

#[test]
fn response_builders() {
    assert_eq!(Response::changed().code(), Code::CHANGED);
    assert_eq!(Response::not_found().code(), Code::NOT_FOUND);
    assert_eq!(
        Response::method_not_allowed().code(),
        Code::METHOD_NOT_ALLOWED
    );
    assert_eq!(Response::content(b"x").payload(), b"x");
    let cf = Response::content(b"x")
        .content_format(ContentFormat::LINK_FORMAT)
        .max_age(60)
        .observe(3)
        .etag(b"ab");
    assert_eq!(cf.format(), Some(ContentFormat::LINK_FORMAT));
    assert_eq!(cf.max_age_secs(), Some(60));
    assert_eq!(cf.observe_seq(), Some(3));
    assert_eq!(cf.etag_bytes(), Some(&b"ab"[..]));
    let created = Response::created()
        .location_path("location1")
        .location_path("location2")
        .location_query("first=1")
        .location_query("second=2");
    assert_eq!(created.code(), Code::CREATED);
    assert_eq!(created.location_paths(), &["location1", "location2"]);
    assert_eq!(created.location_queries(), &["first=1", "second=2"]);
    assert!(Response::content(b"later").separate().is_separate());
    assert!(!Response::content(b"now").is_separate());
    let echo = EchoOpt::mint(9, &[]).expect("mint");
    assert_eq!(
        Response::unauthorized().echo(echo.clone()).echo_option().cloned(),
        Some(echo)
    );

    let problem = Response::problem(Code::BAD_REQUEST)
        .title("Bad Request")
        .detail("Uri-Path is not UTF-8");
    assert_eq!(problem.code(), Code::BAD_REQUEST);
    assert_eq!(problem.format(), Some(ContentFormat::PROBLEM_DETAILS));
    let details = problem.problem_details().expect("problem");
    assert_eq!(details.response_code(), Some(Code::BAD_REQUEST));
    assert_eq!(details.title_text(), Some("Bad Request"));
    assert_eq!(details.detail_text(), Some("Uri-Path is not UTF-8"));
    assert!(Response::not_found().problem_details().is_none());
}

#[test]
fn request_view_has_path_token_and_no_body() {
    let (wire, n) = encode_req(Code::GET, &["sensors", "temp"], &[]);
    let parsed = decode(&wire[..n]).expect("decode");
    let req = Request::from_decoded(parsed, Endpoint::v4([192, 0, 2, 1], 5683), None).expect("req");
    assert_eq!(req.path(), &["sensors", "temp"][..]);
    assert_eq!(req.token(), Token::new(&[0xA1]).expect("token"));
    assert!(!req.has_body());
    assert!(req.body().is_none());
    assert!(req.payload().is_empty());
    assert!(req.content_format().is_none());
    assert!(req.uri_query().into_iter().next().is_none());
}

#[test]
fn catalog_is_written_into_the_callers_buffer() {
    let mut site = Site::<8>::new();
    site.route(&["a"], get(get_temp)).route(&["bc"], get(get_led)).well_known_core();
    let mut room = [0xEE; 16];
    let answer = dispatch_well_known(&site, &mut room);
    assert_eq!(answer.code(), Code::CONTENT);
    assert_eq!(answer.payload(), b"</a>,</bc>");
    assert_eq!(&room[..10], b"</a>,</bc>");
    assert_eq!(room[10..], [0xEE; 6]);

    let mut short = [0xEE; 8];
    let answer = dispatch_well_known(&site, &mut short);
    assert_eq!(answer.code(), Code::INTERNAL_SERVER_ERROR);
    assert_eq!(&short[..5], b"</a>,");
    assert_eq!(short[5..], [0xEE; 3]);

    let (wire, n) = encode_req(Code::GET, &["a"], &[]);
    let parsed = decode(&wire[..n]).expect("decode");
    let req = Request::from_decoded(parsed, Endpoint::v4([192, 0, 2, 1], 5683), None).expect("req");
    let mut other = [0xEE; 16];
    assert_eq!(site.dispatch(req, &mut other).payload(), b"21.5");
    assert_eq!(other, [0xEE; 16]);
}
