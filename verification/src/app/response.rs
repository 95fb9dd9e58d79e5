//! Responses: what a handler wants sent, and what a client call received.
use vstd::prelude::*;
use vstd::string::StringSliceAdditionalSpecFns;

use super::path::texts_of;
use crate::bytes::{bytes_eq, copy_prefix, prefix, Short};
use crate::message::missing::{missing_wire, read_missing};
use crate::message::option::{opts_of, OptView};
use crate::message::problem::{problem_wire, read_problem, text_octets, ProblemView};
use crate::message::{
    Code, ContentFormat, Echo, MessageId, MissingBlocks, Opt, ProblemDetails, Token, Type,
};
use crate::storage::Endpoint;

verus! {

/// Bytes that a copied payload keeps.
pub const INLINE_PAYLOAD: usize = 128;

/// Bytes that a fully copied payload, or an assembled client body, keeps.
pub const RESPONSE_BODY: usize = 4096;

/// The most Location-Path segments, and the most Location-Query values.
pub const LOCATION_MAX: usize = 8;

/// What is wrong with the options of a response.
#[derive(Clone, Copy, Debug, PartialEq, Eq, Structural)]
pub enum ResponseError {
    /// An ETag is not 1 to 8 bytes long.
    EtagLength,
    /// A Location-Path segment is "." or "..".
    LocationDotSegment,
    /// A Location-Path segment is too long, or there are too many.
    LocationPathBounds,
    /// A Location-Query value is too long, or there are too many.
    LocationQueryBounds,
}

impl ResponseError {
    /// What the error says.
    pub open spec fn message(self) -> Seq<char> {
        match self {
            ResponseError::EtagLength => "ETag is not 1..=8 bytes"@,
            ResponseError::LocationDotSegment => "Location-Path segment is a dot segment"@,
            ResponseError::LocationPathBounds => "Location-Path exceeds its bounds"@,
            ResponseError::LocationQueryBounds => "Location-Query exceeds its bounds"@,
        }
    }

    /// What the error says.
    pub fn text(self) -> (s: &'static str)
        ensures
            s@ == self.message(),
    {
        match self {
            ResponseError::EtagLength => "ETag is not 1..=8 bytes",
            ResponseError::LocationDotSegment => "Location-Path segment is a dot segment",
            ResponseError::LocationPathBounds => "Location-Path exceeds its bounds",
            ResponseError::LocationQueryBounds => "Location-Query exceeds its bounds",
        }
    }
}

/// What a response says.
pub struct ResponseView {
    /// Response code.
    pub code: Code,
    /// Payload.
    pub payload: Seq<u8>,
    /// Content-Format.
    pub format: Option<ContentFormat>,
    /// ETag.
    pub etag: Option<Seq<u8>>,
    /// Max-Age in seconds.
    pub max_age: Option<u32>,
    /// Observe sequence number, or the wish to be observable.
    pub observe: Option<u32>,
    /// Echo.
    pub echo: Option<Seq<u8>>,
    /// Is it to be sent apart from the acknowledgement?
    pub separate: bool,
    /// Location-Path segments.
    pub location_paths: Seq<Seq<u8>>,
    /// Location-Query values.
    pub location_queries: Seq<Seq<u8>>,
    /// The first thing that went wrong while it was built.
    pub fault: Option<ResponseError>,
    /// Message type, when received.
    pub ty: Option<Type>,
    /// Token, when received.
    pub token: Option<Seq<u8>>,
    /// Message identifier, when received.
    pub mid: Option<u16>,
    /// Sender, when received.
    pub peer: Option<Endpoint>,
    /// Assembled body, when received.
    pub body: Option<Seq<u8>>,
    /// Payload length before it was cut, when received.
    pub src_len: Option<u16>,
    /// All options, when received.
    pub received: Seq<OptView>,
    /// Time of receipt.
    pub received_at: Option<u64>,
}

#[derive(Clone, Debug)]
enum Payload<'a> {
    Borrowed(&'a [u8]),
    Owned(Vec<u8>),
}

impl<'a> Payload<'a> {
    spec fn octets(self) -> Seq<u8> {
        match self {
            Payload::Borrowed(b) => b@,
            Payload::Owned(v) => v@,
        }
    }
}

/// What a handler wants sent, or what a client call received.
#[derive(Clone, Debug)]
pub struct Response<'a> {
    code: Code,
    payload: Payload<'a>,
    format: Option<ContentFormat>,
    etag: Option<Short>,
    max_age: Option<u32>,
    observe: Option<u32>,
    echo: Option<Echo>,
    separate: bool,
    location_paths: Vec<&'a str>,
    location_queries: Vec<&'a str>,
    fault: Option<ResponseError>,
    ty: Option<Type>,
    token: Option<Token>,
    mid: Option<MessageId>,
    peer: Option<Endpoint>,
    body: Option<&'a [u8]>,
    src_len: Option<u16>,
    received: Vec<Opt<'a>>,
    received_at: Option<u64>,
}

impl<'a> View for Response<'a> {
    type V = ResponseView;

    closed spec fn view(&self) -> ResponseView {
        ResponseView {
            code: self.code,
            payload: self.payload.octets(),
            format: self.format,
            etag: match self.etag {
                Some(e) => Some(e@),
                None => None,
            },
            max_age: self.max_age,
            observe: self.observe,
            echo: match self.echo {
                Some(e) => Some(e@),
                None => None,
            },
            separate: self.separate,
            location_paths: texts_of(self.location_paths@),
            location_queries: texts_of(self.location_queries@),
            fault: self.fault,
            ty: self.ty,
            token: match self.token {
                Some(t) => Some(t@),
                None => None,
            },
            mid: match self.mid {
                Some(m) => Some(m.raw),
                None => None,
            },
            peer: self.peer,
            body: match self.body {
                Some(b) => Some(b@),
                None => None,
            },
            src_len: self.src_len,
            received: opts_of(self.received@),
            received_at: self.received_at,
        }
    }
}

/// A response with a code and nothing else.
pub open spec fn bare_response(code: Code) -> ResponseView {
    ResponseView {
        code,
        payload: Seq::empty(),
        format: None,
        etag: None,
        max_age: None,
        observe: None,
        echo: None,
        separate: false,
        location_paths: Seq::empty(),
        location_queries: Seq::empty(),
        fault: None,
        ty: None,
        token: None,
        mid: None,
        peer: None,
        body: None,
        src_len: None,
        received: Seq::empty(),
        received_at: None,
    }
}

/// The first fault, or this one.
pub open spec fn faulted(r: ResponseView, e: ResponseError) -> ResponseView {
    ResponseView {
        fault: if r.fault.is_some() {
            r.fault
        } else {
            Some(e)
        },
        ..r
    }
}

/// Do these details fit a copied payload?
pub open spec fn problem_fits(p: ProblemView) -> bool {
    problem_wire(p).len() <= INLINE_PAYLOAD
}

/// The payload of problem details: all of them, or without the detail, or
/// the code alone, whichever fits first.
pub open spec fn problem_payload(
    code: Code,
    title: Option<Seq<u8>>,
    detail: Option<Seq<u8>>,
) -> Seq<u8> {
    let full = ProblemView { code: Some(code), title, detail };
    let short = ProblemView { code: Some(code), title, detail: None };
    let least = ProblemView { code: Some(code), title: None, detail: None };
    if problem_fits(full) {
        problem_wire(full)
    } else if problem_fits(short) {
        problem_wire(short)
    } else if problem_fits(least) {
        problem_wire(least)
    } else {
        Seq::empty()
    }
}

/// The response with problem details as its payload.
pub open spec fn with_problem_view(
    r: ResponseView,
    title: Option<Seq<u8>>,
    detail: Option<Seq<u8>>,
) -> ResponseView {
    ResponseView {
        format: if r.format.is_some() {
            r.format
        } else {
            Some(ContentFormat::PROBLEM_DETAILS)
        },
        payload: problem_payload(r.code, title, detail),
        ..r
    }
}

/// A response with problem details that name the code and a title.
pub open spec fn titled_problem(code: Code, title: Seq<u8>) -> ResponseView {
    with_problem_view(
        with_problem_view(bare_response(code), None, None),
        Some(title),
        problem_detail(problem_payload(code, None, None)),
    )
}

/// The title in a payload of problem details.
pub open spec fn problem_title(payload: Seq<u8>) -> Option<Seq<u8>> {
    match read_problem(payload) {
        Some(p) => p.title,
        None => None,
    }
}

/// The explanation in a payload of problem details.
pub open spec fn problem_detail(payload: Seq<u8>) -> Option<Seq<u8>> {
    match read_problem(payload) {
        Some(p) => p.detail,
        None => None,
    }
}

/// Is the segment "." or ".."?
pub open spec fn dot_segment(octets: Seq<u8>) -> bool {
    octets == seq![0x2eu8] || octets == seq![0x2eu8, 0x2eu8]
}

/// The response with one more Location-Path segment, or a fault.
pub open spec fn with_location_path(r: ResponseView, segment: Seq<u8>) -> ResponseView {
    if dot_segment(segment) {
        faulted(r, ResponseError::LocationDotSegment)
    } else if segment.len() > 255 || r.location_paths.len() >= LOCATION_MAX {
        faulted(r, ResponseError::LocationPathBounds)
    } else {
        ResponseView { location_paths: r.location_paths.push(segment), ..r }
    }
}

/// The response with one more Location-Query value, or a fault.
pub open spec fn with_location_query(r: ResponseView, query: Seq<u8>) -> ResponseView {
    if query.len() > 255 || r.location_queries.len() >= LOCATION_MAX {
        faulted(r, ResponseError::LocationQueryBounds)
    } else {
        ResponseView { location_queries: r.location_queries.push(query), ..r }
    }
}

/// The response with an ETag, or a fault.
pub open spec fn with_etag(r: ResponseView, etag: Seq<u8>) -> ResponseView {
    if 1 <= etag.len() <= 8 {
        ResponseView { etag: Some(etag), ..r }
    } else {
        faulted(r, ResponseError::EtagLength)
    }
}

/// The payload of problem details.
fn encode_problem_payload(code: Code, title: Option<&str>, detail: Option<&str>) -> (v: Vec<u8>)
    ensures
        v@ == problem_payload(code, text_octets(title), text_octets(detail)),
{
    let title_short: bool = match title {
        Some(t) => t.as_bytes().len() <= INLINE_PAYLOAD,
        None => true,
    };
    let detail_short: bool = match detail {
        Some(t) => t.as_bytes().len() <= INLINE_PAYLOAD,
        None => true,
    };
    let ghost full = ProblemView {
        code: Some(code),
        title: text_octets(title),
        detail: text_octets(detail),
    };
    let ghost short = ProblemView { code: Some(code), title: text_octets(title), detail: None };
    proof {
        lemma_long_text_never_fits(full);
        lemma_long_text_never_fits(short);
    }
    if title_short && detail_short {
        let mut p = ProblemDetails::new(code);
        if let Some(t) = title {
            p = p.title(t);
        }
        if let Some(t) = detail {
            p = p.detail(t);
        }
        assert(p@ == full);
        let v = p.encode();
        if v.len() <= INLINE_PAYLOAD {
            return v;
        }
    }
    if title_short {
        let mut p = ProblemDetails::new(code);
        if let Some(t) = title {
            p = p.title(t);
        }
        assert(p@ == short);
        let v = p.encode();
        if v.len() <= INLINE_PAYLOAD {
            return v;
        }
    }
    let v = ProblemDetails::new(code).encode();
    if v.len() <= INLINE_PAYLOAD {
        return v;
    }
    let none: Vec<u8> = Vec::new();
    assert(none@ =~= Seq::empty());
    none
}

proof fn lemma_long_text_never_fits(p: ProblemView)
    ensures
        p.title matches Some(t) ==> (t.len() > INLINE_PAYLOAD ==> !problem_fits(p)),
        p.detail matches Some(t) ==> (t.len() > INLINE_PAYLOAD ==> !problem_fits(p)),
{
}

fn is_dot_segment(segment: &str) -> (b: bool)
    ensures
        b == dot_segment(segment.spec_bytes()),
{
    let one: [u8; 1] = [0x2e];
    let two: [u8; 2] = [0x2e, 0x2e];
    assert(one@ =~= seq![0x2eu8]);
    assert(two@ =~= seq![0x2eu8, 0x2eu8]);
    bytes_eq(segment.as_bytes(), one.as_slice()) || bytes_eq(segment.as_bytes(), two.as_slice())
}

/// What can be made into a response.
pub trait IntoResponse {
    /// Make the response.
    fn into_response(self) -> Response<'static>;
}

impl IntoResponse for Response<'static> {
    fn into_response(self) -> (r: Response<'static>)
        ensures
            r == self,
    {
        self
    }
}

impl<'a> Response<'a> {
    /// A response with a code and nothing else.
    pub fn new(code: Code) -> (r: Response<'a>)
        ensures
            r@ == bare_response(code),
    {
        let none: &'a [u8] = &[];
        let r = Response {
            code,
            payload: Payload::Borrowed(none),
            format: None,
            etag: None,
            max_age: None,
            observe: None,
            echo: None,
            separate: false,
            location_paths: Vec::new(),
            location_queries: Vec::new(),
            fault: None,
            ty: None,
            token: None,
            mid: None,
            peer: None,
            body: None,
            src_len: None,
            received: Vec::new(),
            received_at: None,
        };
        assert(r@.payload =~= Seq::empty());
        assert(r@.location_paths =~= Seq::empty());
        assert(r@.location_queries =~= Seq::empty());
        assert(r@.received =~= Seq::empty());
        r
    }

    /// 2.05 with a borrowed payload.
    pub fn content(payload: &'a [u8]) -> (r: Response<'a>)
        ensures
            r@ == (ResponseView { payload: payload@, ..bare_response(Code::CONTENT) }),
    {
        Response::new(Code::CONTENT).with_static(payload)
    }

    /// 2.05 with a copied payload, cut at [`INLINE_PAYLOAD`].
    pub fn content_copy(payload: &[u8]) -> (r: Response<'a>)
        ensures
            r@ == (ResponseView {
                payload: prefix(payload@, INLINE_PAYLOAD as nat),
                ..bare_response(Code::CONTENT)
            }),
    {
        Response::new(Code::CONTENT).payload_copy(payload)
    }

    /// 2.01
    pub fn created() -> (r: Response<'a>)
        ensures
            r@ == bare_response(Code::CREATED),
    {
        Response::new(Code::CREATED)
    }

    /// 2.02
    pub fn deleted() -> (r: Response<'a>)
        ensures
            r@ == bare_response(Code::DELETED),
    {
        Response::new(Code::DELETED)
    }

    /// 2.03
    pub fn valid() -> (r: Response<'a>)
        ensures
            r@ == bare_response(Code::VALID),
    {
        Response::new(Code::VALID)
    }

    /// 2.04
    pub fn changed() -> (r: Response<'a>)
        ensures
            r@ == bare_response(Code::CHANGED),
    {
        Response::new(Code::CHANGED)
    }

    /// 4.00
    pub fn bad_request() -> (r: Response<'a>)
        ensures
            r@ == bare_response(Code::BAD_REQUEST),
    {
        Response::new(Code::BAD_REQUEST)
    }

    /// 4.01
    pub fn unauthorized() -> (r: Response<'a>)
        ensures
            r@ == bare_response(Code::UNAUTHORIZED),
    {
        Response::new(Code::UNAUTHORIZED)
    }

    /// 4.03
    pub fn forbidden() -> (r: Response<'a>)
        ensures
            r@ == bare_response(Code::FORBIDDEN),
    {
        Response::new(Code::FORBIDDEN)
    }

    /// 4.04
    pub fn not_found() -> (r: Response<'a>)
        ensures
            r@ == bare_response(Code::NOT_FOUND),
    {
        Response::new(Code::NOT_FOUND)
    }

    /// 4.05
    pub fn method_not_allowed() -> (r: Response<'a>)
        ensures
            r@ == bare_response(Code::METHOD_NOT_ALLOWED),
    {
        Response::new(Code::METHOD_NOT_ALLOWED)
    }

    /// 4.12
    pub fn precondition_failed() -> (r: Response<'a>)
        ensures
            r@ == bare_response(Code::PRECONDITION_FAILED),
    {
        Response::new(Code::PRECONDITION_FAILED)
    }

    /// 4.15
    pub fn unsupported_content_format() -> (r: Response<'a>)
        ensures
            r@ == bare_response(Code::UNSUPPORTED_CONTENT_FORMAT),
    {
        Response::new(Code::UNSUPPORTED_CONTENT_FORMAT)
    }

    /// 5.00
    pub fn internal_error() -> (r: Response<'a>)
        ensures
            r@ == bare_response(Code::INTERNAL_SERVER_ERROR),
    {
        Response::new(Code::INTERNAL_SERVER_ERROR)
    }

    /// 5.01
    pub fn not_implemented() -> (r: Response<'a>)
        ensures
            r@ == bare_response(Code::NOT_IMPLEMENTED),
    {
        Response::new(Code::NOT_IMPLEMENTED)
    }

    /// 5.03
    pub fn service_unavailable() -> (r: Response<'a>)
        ensures
            r@ == bare_response(Code::SERVICE_UNAVAILABLE),
    {
        Response::new(Code::SERVICE_UNAVAILABLE)
    }

    /// A response with problem details that name its code.
    pub fn problem(code: Code) -> (r: Response<'a>)
        ensures
            r@ == with_problem_view(bare_response(code), None, None),
    {
        Response::new(code).with_problem(encode_problem_payload(code, None, None))
    }

    fn with_problem(self, payload: Vec<u8>) -> (r: Response<'a>)
        ensures
            r@ == (ResponseView {
                format: if self@.format.is_some() {
                    self@.format
                } else {
                    Some(ContentFormat::PROBLEM_DETAILS)
                },
                payload: payload@,
                ..self@
            }),
    {
        let mut r = self;
        if r.format.is_none() {
            r.format = Some(ContentFormat::PROBLEM_DETAILS);
        }
        r.payload = Payload::Owned(payload);
        r
    }

    /// Set the title of problem details, and keep their explanation.
    pub fn title(self, title: &str) -> (r: Response<'a>)
        ensures
            r@ == with_problem_view(
                self@,
                Some(title.spec_bytes()),
                problem_detail(self@.payload),
            ),
    {
        let payload = match ProblemDetails::decode(self.payload()) {
            Ok(p) => encode_problem_payload(self.code, Some(title), p.detail_text()),
            Err(_) => encode_problem_payload(self.code, Some(title), None),
        };
        self.with_problem(payload)
    }

    /// Set the explanation of problem details, and keep their title.
    pub fn detail(self, detail: &str) -> (r: Response<'a>)
        ensures
            r@ == with_problem_view(
                self@,
                problem_title(self@.payload),
                Some(detail.spec_bytes()),
            ),
    {
        let payload = match ProblemDetails::decode(self.payload()) {
            Ok(p) => encode_problem_payload(self.code, p.title_text(), Some(detail)),
            Err(_) => encode_problem_payload(self.code, None, Some(detail)),
        };
        self.with_problem(payload)
    }

    /// 4.08 with a list of missing blocks, which is left out when it is too long.
    pub fn missing_blocks(nums: &[u32]) -> (r: Response<'a>)
        ensures
            r@ == (ResponseView {
                format: Some(ContentFormat::MISSING_BLOCKS),
                payload: if missing_wire(nums@).len() <= INLINE_PAYLOAD {
                    missing_wire(nums@)
                } else {
                    Seq::empty()
                },
                ..bare_response(Code::REQUEST_ENTITY_INCOMPLETE)
            }),
    {
        let list = MissingBlocks::encode(nums);
        let r = Response::new(Code::REQUEST_ENTITY_INCOMPLETE).content_format(
            ContentFormat::MISSING_BLOCKS,
        );
        if list.len() <= INLINE_PAYLOAD {
            r.payload_copy(list.as_slice())
        } else {
            r
        }
    }

    /// The missing blocks that the payload lists, read into `out`.
    pub fn missing_block_nums<'b>(&self, out: &'b mut [u32]) -> (r: Option<&'b [u32]>)
        ensures
            r.is_some() == (self@.format == Some(ContentFormat::MISSING_BLOCKS) && read_missing(
                self@.payload,
            ).is_some() && read_missing(self@.payload)->0.len() <= old(out)@.len()),
            r matches Some(nums) ==> read_missing(self@.payload) == Some(nums@),
            self@.format != Some(ContentFormat::MISSING_BLOCKS) ==> final(out)@ == old(out)@,
    {
        match self.format {
            Some(ContentFormat::MISSING_BLOCKS) => {},
            _ => return None,
        }
        let ghost before = out@;
        match MissingBlocks::decode(self.payload(), out) {
            Ok(n) => {
                proof {
                    let list = read_missing(self@.payload)->0;
                    assert(out@.subrange(0, n as int) =~= list);
                }
                Some(&out[0..n])
            },
            Err(_) => None,
        }
    }

    /// The payload as problem details.
    pub fn problem_details(&self) -> (r: Option<ProblemDetails<'_>>)
        ensures
            r.is_some() == (self@.format == Some(ContentFormat::PROBLEM_DETAILS) && read_problem(
                self@.payload,
            ).is_some()),
            r matches Some(p) ==> read_problem(self@.payload) == Some(p@),
    {
        match self.format {
            Some(ContentFormat::PROBLEM_DETAILS) => {},
            _ => return None,
        }
        match ProblemDetails::decode(self.payload()) {
            Ok(p) => Some(p),
            Err(_) => None,
        }
    }

    /// Set Content-Format.
    pub fn content_format(self, format: ContentFormat) -> (r: Response<'a>)
        ensures
            r@ == (ResponseView { format: Some(format), ..self@ }),
    {
        let mut r = self;
        r.format = Some(format);
        r
    }

    /// Set ETag, 1 to 8 bytes.
    pub fn etag(self, etag: &[u8]) -> (r: Response<'a>)
        ensures
            r@ == with_etag(self@, etag@),
    {
        let mut r = self;
        if etag.len() == 0 {
            return r.fail(ResponseError::EtagLength);
        }
        match Short::new(etag) {
            Some(e) => {
                r.etag = Some(e);
                r
            },
            None => r.fail(ResponseError::EtagLength),
        }
    }

    fn fail(self, e: ResponseError) -> (r: Response<'a>)
        ensures
            r@ == faulted(self@, e),
    {
        let mut r = self;
        if r.fault.is_none() {
            r.fault = Some(e);
        }
        r
    }

    /// Add a Location-Path segment.
    pub fn location_path(self, segment: &'a str) -> (r: Response<'a>)
        ensures
            r@ == with_location_path(self@, segment.spec_bytes()),
    {
        if is_dot_segment(segment) {
            return self.fail(ResponseError::LocationDotSegment);
        }
        if segment.as_bytes().len() > 255 || self.location_paths.len() >= LOCATION_MAX {
            return self.fail(ResponseError::LocationPathBounds);
        }
        let mut r = self;
        r.location_paths.push(segment);
        assert(r@.location_paths =~= self@.location_paths.push(segment.spec_bytes()));
        r
    }

    /// Add a Location-Query value.
    pub fn location_query(self, query: &'a str) -> (r: Response<'a>)
        ensures
            r@ == with_location_query(self@, query.spec_bytes()),
    {
        if query.as_bytes().len() > 255 || self.location_queries.len() >= LOCATION_MAX {
            return self.fail(ResponseError::LocationQueryBounds);
        }
        let mut r = self;
        r.location_queries.push(query);
        assert(r@.location_queries =~= self@.location_queries.push(query.spec_bytes()));
        r
    }

    /// Set Echo.
    pub fn echo(self, echo: Echo) -> (r: Response<'a>)
        ensures
            r@ == (ResponseView { echo: Some(echo@), ..self@ }),
    {
        let mut r = self;
        r.echo = Some(echo);
        r
    }

    /// The Echo value.
    pub fn echo_option(&self) -> (r: Option<&Echo>)
        ensures
            r.is_some() == self@.echo.is_some(),
            r matches Some(e) ==> self@.echo == Some(e@),
    {
        match &self.echo {
            Some(e) => Some(e),
            None => None,
        }
    }

    /// Set Max-Age.
    pub fn max_age(self, seconds: u32) -> (r: Response<'a>)
        ensures
            r@ == (ResponseView { max_age: Some(seconds), ..self@ }),
    {
        let mut r = self;
        r.max_age = Some(seconds);
        r
    }

    /// Set the Observe sequence number; from a handler, the wish to be observable.
    pub fn observe(self, sequence: u32) -> (r: Response<'a>)
        ensures
            r@ == (ResponseView { observe: Some(sequence), ..self@ }),
    {
        let mut r = self;
        r.observe = Some(sequence);
        r
    }

    /// Leave Observe out.
    pub fn without_observe(self) -> (r: Response<'a>)
        ensures
            r@ == (ResponseView { observe: None, ..self@ }),
    {
        let mut r = self;
        r.observe = None;
        r
    }

    /// Send the response apart from the acknowledgement.
    pub fn separate(self) -> (r: Response<'a>)
        ensures
            r@ == (ResponseView { separate: true, ..self@ }),
    {
        let mut r = self;
        r.separate = true;
        r
    }

    /// Is the response to be sent apart from the acknowledgement?
    pub fn is_separate(&self) -> (b: bool)
        ensures
            b == self@.separate,
    {
        self.separate
    }

    /// Set a borrowed payload.
    pub fn with_static(self, payload: &'a [u8]) -> (r: Response<'a>)
        ensures
            r@ == (ResponseView { payload: payload@, ..self@ }),
    {
        let mut r = self;
        r.payload = Payload::Borrowed(payload);
        r
    }

    /// Set a copied payload, cut at [`INLINE_PAYLOAD`].
    pub fn payload_copy(self, payload: &[u8]) -> (r: Response<'a>)
        ensures
            r@ == (ResponseView { payload: prefix(payload@, INLINE_PAYLOAD as nat), ..self@ }),
    {
        let mut r = self;
        r.payload = Payload::Owned(copy_prefix(payload, INLINE_PAYLOAD));
        r
    }

    /// Set a copied payload, cut at [`RESPONSE_BODY`].
    pub fn payload_copy_full(self, payload: &[u8]) -> (r: Response<'a>)
        ensures
            r@ == (ResponseView { payload: prefix(payload@, RESPONSE_BODY as nat), ..self@ }),
    {
        let mut r = self;
        r.payload = Payload::Owned(copy_prefix(payload, RESPONSE_BODY));
        r
    }

    /// Did nothing go wrong while the response was built?
    pub fn validate(&self) -> (r: Result<(), ResponseError>)
        ensures
            r == match self@.fault {
                Some(e) => Err::<(), ResponseError>(e),
                None => Ok(()),
            },
    {
        match self.fault {
            Some(e) => Err(e),
            None => Ok(()),
        }
    }

    /// Response code.
    pub fn code(&self) -> (c: Code)
        ensures
            c == self@.code,
    {
        self.code
    }

    /// Payload.
    pub fn payload(&self) -> (p: &[u8])
        ensures
            p@ == self@.payload,
    {
        match &self.payload {
            Payload::Borrowed(b) => b,
            Payload::Owned(v) => v.as_slice(),
        }
    }

    /// Content-Format.
    pub fn format(&self) -> (f: Option<ContentFormat>)
        ensures
            f == self@.format,
    {
        self.format
    }

    /// ETag.
    pub fn etag_bytes(&self) -> (r: Option<&[u8]>)
        ensures
            r.is_some() == self@.etag.is_some(),
            r matches Some(e) ==> self@.etag == Some(e@) && e@.len() <= 8,
    {
        match &self.etag {
            Some(e) => Some(e.as_slice()),
            None => None,
        }
    }

    /// Max-Age in seconds.
    pub fn max_age_secs(&self) -> (r: Option<u32>)
        ensures
            r == self@.max_age,
    {
        self.max_age
    }

    /// Observe sequence number.
    pub fn observe_seq(&self) -> (r: Option<u32>)
        ensures
            r == self@.observe,
    {
        self.observe
    }

    /// Location-Path segments.
    pub fn location_paths(&self) -> (s: &[&'a str])
        ensures
            texts_of(s@) == self@.location_paths,
    {
        self.location_paths.as_slice()
    }

    /// Location-Query values.
    pub fn location_queries(&self) -> (s: &[&'a str])
        ensures
            texts_of(s@) == self@.location_queries,
    {
        self.location_queries.as_slice()
    }

    /// Message type, when received.
    pub fn ty(&self) -> (r: Option<Type>)
        ensures
            r == self@.ty,
    {
        self.ty
    }

    /// Token, when received.
    pub fn token(&self) -> (r: Option<Token>)
        ensures
            r.is_some() == self@.token.is_some(),
            r matches Some(t) ==> self@.token == Some(t@),
    {
        self.token
    }

    /// Message identifier, when received.
    pub fn message_id(&self) -> (r: Option<MessageId>)
        ensures
            r.is_some() == self@.mid.is_some(),
            r matches Some(m) ==> self@.mid == Some(m.raw),
    {
        self.mid
    }

    /// Sender, when received.
    pub fn peer(&self) -> (r: Option<Endpoint>)
        ensures
            r == self@.peer,
    {
        self.peer
    }

    /// Assembled body, when received in blocks.
    pub fn body(&self) -> (r: Option<&'a [u8]>)
        ensures
            r.is_some() == self@.body.is_some(),
            r matches Some(b) ==> self@.body == Some(b@),
    {
        self.body
    }

    /// Was the body received in blocks?
    pub fn has_body(&self) -> (b: bool)
        ensures
            b == self@.body.is_some(),
    {
        self.body.is_some()
    }

    /// Payload length before it was cut, at most 65535.
    pub fn payload_src_len(&self) -> (n: usize)
        ensures
            n == match self@.src_len {
                Some(n) => n as int,
                None => self@.payload.len() as int,
            },
    {
        match self.src_len {
            Some(n) => n as usize,
            None => self.payload().len(),
        }
    }

    /// Was the payload cut?
    pub fn payload_truncated(&self) -> (b: bool)
        ensures
            b == (self@.src_len matches Some(n) && n > self@.payload.len()),
    {
        match self.src_len {
            Some(n) => n as usize > self.payload().len(),
            None => false,
        }
    }

    /// All options, when received.
    pub fn received_options(&self) -> (s: &[Opt<'a>])
        ensures
            opts_of(s@) == self@.received,
    {
        self.received.as_slice()
    }

    /// Time of receipt.
    pub fn received_at_ms(&self) -> (r: Option<u64>)
        ensures
            r == self@.received_at,
    {
        self.received_at
    }

    /// A received response.
    pub fn from_client(
        code: Code,
        ty: Type,
        token: Token,
        mid: MessageId,
        peer: Endpoint,
        payload: &'a [u8],
        src_len: u16,
        received: Vec<Opt<'a>>,
        received_at: u64,
    ) -> (r: Response<'a>)
        ensures
            r@ == (ResponseView {
                payload: payload@,
                ty: Some(ty),
                token: Some(token@),
                mid: Some(mid.raw),
                peer: Some(peer),
                src_len: Some(src_len),
                received: opts_of(received@),
                received_at: Some(received_at),
                ..bare_response(code)
            }),
    {
        let mut r = Response::new(code);
        r.payload = Payload::Borrowed(payload);
        r.ty = Some(ty);
        r.token = Some(token);
        r.mid = Some(mid);
        r.peer = Some(peer);
        r.src_len = Some(src_len);
        r.received = received;
        r.received_at = Some(received_at);
        r
    }

    /// Attach an assembled body.
    pub fn with_assembled(self, body: &'a [u8]) -> (r: Response<'a>)
        ensures
            r@ == (ResponseView { body: Some(body@), ..self@ }),
    {
        let mut r = self;
        r.body = Some(body);
        r
    }

    /// A copy of the parts that are sent, with another payload lifetime.
    pub fn copy_sent<'b>(&'b self) -> (r: Response<'b>)
        ensures
            r@ == sent_parts(self@),
    {
        let mut r = Response::new(self.code);
        r.payload = Payload::Borrowed(self.payload());
        r.format = self.format;
        r.etag = self.etag;
        r.max_age = self.max_age;
        r.observe = self.observe;
        r.echo =
        match &self.echo {
            Some(e) => Some(e.copy()),
            None => None,
        };
        r.separate = self.separate;
        r.fault = self.fault;
        assert(texts_of(r.location_paths@).len() == 0);
        assert(texts_of(r.location_queries@).len() == 0);
        assert(r.location_paths@ =~= self.location_paths@.subrange(0, 0));
        assert(r.location_queries@ =~= self.location_queries@.subrange(0, 0));
        assert(texts_of(self.location_paths@.subrange(0, 0)) =~= Seq::empty());
        let mut i: usize = 0;
        while i < self.location_paths.len()
            invariant
                i <= self.location_paths@.len(),
                r.location_paths@ == self.location_paths@.subrange(0, i as int),
                r@ == (ResponseView {
                    location_paths: texts_of(self.location_paths@.subrange(0, i as int)),
                    location_queries: Seq::empty(),
                    ..sent_parts(self@)
                }),
            decreases self.location_paths@.len() - i,
        {
            r.location_paths.push(self.location_paths[i]);
            i = i + 1;
            assert(r.location_paths@ =~= self.location_paths@.subrange(0, i as int));
        }
        assert(self.location_paths@.subrange(0, i as int) =~= self.location_paths@);
        assert(r.location_queries@ =~= self.location_queries@.subrange(0, 0));
        let mut j: usize = 0;
        while j < self.location_queries.len()
            invariant
                j <= self.location_queries@.len(),
                r.location_queries@ == self.location_queries@.subrange(0, j as int),
                r@ == (ResponseView {
                    location_queries: texts_of(self.location_queries@.subrange(0, j as int)),
                    ..sent_parts(self@)
                }),
            decreases self.location_queries@.len() - j,
        {
            r.location_queries.push(self.location_queries[j]);
            j = j + 1;
            assert(r.location_queries@ =~= self.location_queries@.subrange(0, j as int));
        }
        assert(self.location_queries@.subrange(0, j as int) =~= self.location_queries@);
        r
    }
}

/// The parts of a response that are sent.
pub open spec fn sent_parts(r: ResponseView) -> ResponseView {
    ResponseView {
        ty: None,
        token: None,
        mid: None,
        peer: None,
        body: None,
        src_len: None,
        received: Seq::empty(),
        received_at: None,
        ..r
    }
}

/// A response without a fault keeps its options within their bounds,
/// whatever is added to it.
pub open spec fn options_bounded(r: ResponseView) -> bool {
    &&& r.etag matches Some(e) ==> 1 <= e.len() <= 8
    &&& r.location_paths.len() <= LOCATION_MAX
    &&& r.location_queries.len() <= LOCATION_MAX
    &&& forall|i: int|
        0 <= i < r.location_paths.len() ==> (#[trigger] r.location_paths[i]).len() <= 255
            && !dot_segment(r.location_paths[i])
    &&& forall|i: int|
        0 <= i < r.location_queries.len() ==> (#[trigger] r.location_queries[i]).len() <= 255
}

/// Building keeps the option bounds, and the first fault sticks.
pub proof fn law_builders_keep_bounds(r: ResponseView, value: Seq<u8>)
    requires
        options_bounded(r),
    ensures
        options_bounded(with_etag(r, value)),
        options_bounded(with_location_path(r, value)),
        options_bounded(with_location_query(r, value)),
        r.fault.is_some() ==> with_etag(r, value).fault == r.fault && with_location_path(
            r,
            value,
        ).fault == r.fault && with_location_query(r, value).fault == r.fault,
{
}

} // verus!
