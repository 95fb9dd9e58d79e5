//! Client calls: what is outstanding, and what has come back.
use vstd::prelude::*;
use vstd::string::StringSliceAdditionalSpecFns;
use vstd::utf8::valid_utf8;

use super::path::{texts_of, MAX_PATH_SEGMENTS};
use super::response::{
    bare_response, dot_segment, Response, ResponseView, INLINE_PAYLOAD, LOCATION_MAX,
};
use crate::bytes::{copy_prefix, prefix, to_vec};
use crate::error::{BlockTransferError, EncodeError, ValueError};
use crate::message::echo::echo_option_of;
use crate::message::fields::{
    first_value, format_option, select, select_first, select_texts, text_value, uint_option,
    values_of,
};
use crate::message::option::{opts_of, OptView};
use crate::message::value::decode_uint;
use crate::message::wire::{encode_fault, encode_to_vec, wire, MessageView};
use crate::message::{
    Code, ContentFormat, Echo, Message, MessageId, Opt, OptionNumber, ParsedMessage, Token, Type,
};
use crate::storage::endpoint::{Endpoint, Key, KeyView};
use crate::storage::table::Keyed;

verus! {

/// Calls that an app holds at once, answered and not yet taken ones included.
pub const RESPONSE_INBOX: usize = 4;

/// Options kept of a response.
pub const RESPONSE_OPTION_COUNT: usize = 24;

/// Header, token and option bytes kept of a response.
pub const RESPONSE_OPTION_BYTES: usize = 512;

/// Bytes that identify an Observe request.
pub const OBSERVE_REQUEST_BYTES: usize = 512;

/// An outstanding client request: its token and destination.
#[derive(Clone, Copy, Debug, PartialEq, Eq, Hash)]
pub struct Call {
    /// The token sent.
    pub token: Token,
    /// The destination.
    pub peer: Endpoint,
}

impl Call {
    /// What the call is found by.
    pub open spec fn key(self) -> KeyView {
        KeyView::Token { token: self.token@, peer: self.peer, client: true }
    }

    /// The call with a token to a peer.
    pub fn new(token: Token, peer: Endpoint) -> (c: Call)
        ensures
            c == (Call { token, peer }),
    {
        Call { token, peer }
    }

    /// The token sent.
    pub fn token(self) -> (t: Token)
        ensures
            t == self.token,
    {
        self.token
    }

    /// The destination.
    pub fn peer(self) -> (e: Endpoint)
        ensures
            e == self.peer,
    {
        self.peer
    }

    /// As a table key.
    pub fn to_key(self) -> (k: Key)
        ensures
            k@ == self.key(),
    {
        Key::Token { token: self.token, peer: self.peer, client: true }
    }
}

/// Why a call ended without a response.
#[derive(Clone, Copy, Debug, PartialEq, Eq, Structural)]
pub enum CallFailure {
    /// The caller cancelled it.
    Cancelled,
    /// The caller's deadline was reached.
    DeadlineExceeded,
    /// Retransmissions or the exchange lifetime ran out.
    TimedOut,
    /// The peer rejected the message.
    Reset,
    /// The response's blocks could not be put together.
    BlockTransfer(BlockTransferError),
    /// The response's options exceed what is kept.
    ResponseMetadataBounds,
    /// An Observe cancellation could not be sent; the peer may not know of it.
    CancellationFailed,
}

impl CallFailure {
    /// What the failure says.
    pub open spec fn message(self) -> Seq<char> {
        match self {
            CallFailure::Cancelled => "call cancelled"@,
            CallFailure::DeadlineExceeded => "call deadline exceeded"@,
            CallFailure::TimedOut => "request timed out"@,
            CallFailure::Reset => "peer reset the request"@,
            CallFailure::ResponseMetadataBounds => "response metadata exceeds App bounds"@,
            CallFailure::BlockTransfer(e) => "response block transfer failed: "@ + e.message(),
            CallFailure::CancellationFailed => "Observe cancellation could not be sent"@,
        }
    }

    /// What the failure says.
    pub fn text(self) -> (s: String)
        ensures
            s@ == self.message(),
    {
        match self {
            CallFailure::Cancelled => str_text("call cancelled"),
            CallFailure::DeadlineExceeded => str_text("call deadline exceeded"),
            CallFailure::TimedOut => str_text("request timed out"),
            CallFailure::Reset => str_text("peer reset the request"),
            CallFailure::ResponseMetadataBounds => str_text("response metadata exceeds App bounds"),
            CallFailure::BlockTransfer(e) => {
                let mut s = str_text("response block transfer failed: ");
                vstd::string::StringExecFns::append(&mut s, e.text().as_str());
                s
            },
            CallFailure::CancellationFailed => str_text("Observe cancellation could not be sent"),
        }
    }
}

fn str_text(s: &str) -> (out: String)
    ensures
        out@ == s@,
{
    s.to_owned()
}

/// Total length of some values.
pub open spec fn total_len(values: Seq<Seq<u8>>) -> nat
    decreases values.len(),
{
    if values.len() == 0 {
        0
    } else {
        total_len(values.drop_last()) + values.last().len()
    }
}

/// Can the query values be kept: at most eight, of at most 255 bytes each and
/// 256 bytes in all?
pub open spec fn queries_fit(values: Seq<Seq<u8>>) -> bool {
    &&& values.len() <= MAX_PATH_SEGMENTS
    &&& total_len(values) <= 256
    &&& forall|i: int| 0 <= i < values.len() ==> (#[trigger] values[i]).len() <= 255
}

/// Query values kept for later blocks, in order.
#[derive(Debug)]
pub struct RetainedQueries {
    /// The values.
    pub values: Vec<Vec<u8>>,
}

impl View for RetainedQueries {
    type V = Seq<Seq<u8>>;

    open spec fn view(&self) -> Seq<Seq<u8>> {
        Seq::new(self.values@.len(), |i: int| self.values@[i]@)
    }
}

proof fn lemma_total_prefix(values: Seq<Seq<u8>>, n: int)
    requires
        0 <= n <= values.len(),
    ensures
        total_len(values.subrange(0, n)) <= total_len(values),
    decreases values.len(),
{
    if n == values.len() {
        assert(values.subrange(0, n) =~= values);
    } else {
        assert(values.drop_last().subrange(0, n) =~= values.subrange(0, n));
        lemma_total_prefix(values.drop_last(), n);
    }
}

impl RetainedQueries {
    /// Keep query values.
    pub fn new(queries: &[&str]) -> (r: Result<RetainedQueries, EncodeError>)
        ensures
            r.is_ok() == queries_fit(texts_of(queries@)),
            r matches Ok(q) ==> q@ == texts_of(queries@),
            r matches Err(e) ==> e == EncodeError::OptionValueTooLong,
    {
        let ghost all = texts_of(queries@);
        if queries.len() > MAX_PATH_SEGMENTS {
            return Err(EncodeError::OptionValueTooLong);
        }
        let mut values: Vec<Vec<u8>> = Vec::new();
        let mut total: usize = 0;
        let mut i: usize = 0;
        while i < queries.len()
            invariant
                all == texts_of(queries@),
                i <= queries@.len() <= MAX_PATH_SEGMENTS,
                values@.len() == i,
                total <= 256,
                total == total_len(all.subrange(0, i as int)),
                forall|k: int| 0 <= k < i ==> (#[trigger] values@[k])@ == all[k],
                forall|k: int| 0 <= k < i ==> (#[trigger] all[k]).len() <= 255,
            decreases queries@.len() - i,
        {
            let bytes = queries[i].as_bytes();
            proof {
                let next = all.subrange(0, i + 1);
                assert(next.drop_last() =~= all.subrange(0, i as int));
                assert(next.last() == bytes@);
                assert(all[i as int] == bytes@);
                lemma_total_prefix(all, i + 1);
            }
            if bytes.len() > 255 || bytes.len() > 256 - total {
                return Err(EncodeError::OptionValueTooLong);
            }
            total = total + bytes.len();
            values.push(to_vec(bytes));
            i = i + 1;
        }
        assert(all.subrange(0, i as int) =~= all);
        let q = RetainedQueries { values };
        assert(q@ =~= all);
        Ok(q)
    }
}

/// An option with its own value.
#[derive(Debug)]
pub struct OwnedOpt {
    /// Option number.
    pub number: u16,
    /// Option value.
    pub value: Vec<u8>,
}

/// What a list of owned options says.
pub open spec fn owned_opts(opts: Seq<OwnedOpt>) -> Seq<OptView> {
    Seq::new(opts.len(), |i: int| OptView { number: opts[i].number, value: opts[i].value@ })
}

/// What is kept of a response.
#[derive(Debug)]
pub struct ReplyMeta {
    /// Message type.
    pub ty: Type,
    /// Response code.
    pub code: Code,
    /// Message identifier.
    pub mid: MessageId,
    /// Token.
    pub token: Token,
    /// All options.
    pub options: Vec<OwnedOpt>,
    /// Sender.
    pub peer: Endpoint,
    /// The payload, cut at [`INLINE_PAYLOAD`].
    pub payload: Vec<u8>,
    /// Its length before, at most 65535.
    pub src_len: u16,
    /// Time of receipt.
    pub received_at: u64,
}

/// The message without its payload.
pub open spec fn header_of(m: MessageView) -> MessageView {
    MessageView { payload: Seq::empty(), ..m }
}

/// Can all options of the response be kept?
pub open spec fn meta_fits(m: MessageView) -> bool {
    &&& m.options.len() <= RESPONSE_OPTION_COUNT
    &&& values_of(m.options, 8).len() <= LOCATION_MAX
    &&& values_of(m.options, 20).len() <= LOCATION_MAX
    &&& encode_fault(header_of(m)).is_none()
    &&& wire(header_of(m)).len() <= RESPONSE_OPTION_BYTES
}

/// A length, at most 65535.
pub open spec fn capped_len(n: nat) -> u16 {
    if n <= u16::MAX {
        n as u16
    } else {
        u16::MAX
    }
}

/// Does this hold what is kept of a response?
pub open spec fn keeps(meta: ReplyMeta, m: MessageView, peer: Endpoint, now_ms: u64) -> bool {
    &&& meta.ty == m.ty
    &&& meta.code == m.code
    &&& meta.mid.raw == m.id
    &&& meta.token@ == m.token
    &&& owned_opts(meta.options@) == m.options
    &&& meta.peer == peer
    &&& meta.payload@ == prefix(m.payload, INLINE_PAYLOAD as nat)
    &&& meta.src_len == capped_len(m.payload.len())
    &&& meta.received_at == now_ms
}

/// Location-Path segments that are texts, short enough, and no dot segments.
pub open spec fn kept_paths(values: Seq<Seq<u8>>) -> Seq<Seq<u8>>
    decreases values.len(),
{
    if values.len() == 0 {
        Seq::empty()
    } else {
        let front = kept_paths(values.drop_last());
        let v = values.last();
        if valid_utf8(v) && v.len() <= 255 && !dot_segment(v) {
            front.push(v)
        } else {
            front
        }
    }
}

/// Location-Query values that are texts and short enough.
pub open spec fn kept_queries(values: Seq<Seq<u8>>) -> Seq<Seq<u8>>
    decreases values.len(),
{
    if values.len() == 0 {
        Seq::empty()
    } else {
        let front = kept_queries(values.drop_last());
        let v = values.last();
        if valid_utf8(v) && v.len() <= 255 {
            front.push(v)
        } else {
            front
        }
    }
}

/// A value that could be read.
pub open spec fn readable<A>(r: Option<Result<A, ValueError>>) -> Option<A> {
    match r {
        Some(Ok(v)) => Some(v),
        _ => None,
    }
}

/// The response that was kept; malformed options are left out of it, except
/// from the list of all options.
pub open spec fn kept_response(meta: ReplyMeta) -> ResponseView {
    let opts = owned_opts(meta.options@);
    ResponseView {
        payload: meta.payload@,
        format: readable(format_option(opts, 12)),
        etag: match first_value(opts, 4) {
            Some(v) => if 1 <= v.len() <= 8 {
                Some(v)
            } else {
                None
            },
            None => None,
        },
        max_age: readable(uint_option(opts, 14, 4)),
        observe: readable(uint_option(opts, 6, 3)),
        echo: match echo_option_of(opts) {
            Ok(e) => e,
            Err(_) => None,
        },
        location_paths: kept_paths(values_of(opts, 8)),
        location_queries: kept_queries(values_of(opts, 20)),
        ty: Some(meta.ty),
        token: Some(meta.token@),
        mid: Some(meta.mid.raw),
        peer: Some(meta.peer),
        src_len: Some(meta.src_len),
        received: opts,
        received_at: Some(meta.received_at),
        ..bare_response(meta.code)
    }
}

proof fn lemma_kept_len(values: Seq<Seq<u8>>)
    ensures
        kept_paths(values).len() <= values.len(),
        kept_queries(values).len() <= values.len(),
    decreases values.len(),
{
    if values.len() > 0 {
        lemma_kept_len(values.drop_last());
    }
}

impl ReplyMeta {
    /// Are no more locations kept than a response may have?
    pub open spec fn wf(&self) -> bool {
        &&& values_of(owned_opts(self.options@), 8).len() <= LOCATION_MAX
        &&& values_of(owned_opts(self.options@), 20).len() <= LOCATION_MAX
    }

    /// Keep a response, unless its options exceed what is kept.
    pub fn from_parsed(parsed: &ParsedMessage<'_>, peer: Endpoint, now_ms: u64) -> (r: Result<
        ReplyMeta,
        CallFailure,
    >)
        ensures
            r.is_ok() == meta_fits(parsed@),
            r matches Ok(meta) ==> keeps(meta, parsed@, peer, now_ms) && meta.wf(),
            r matches Err(e) ==> e == CallFailure::ResponseMetadataBounds,
    {
        let opts = parsed.options();
        let ghost all = opts_of(opts@);
        if opts.len() > RESPONSE_OPTION_COUNT {
            return Err(CallFailure::ResponseMetadataBounds);
        }
        let paths = select(opts, OptionNumber::LOCATION_PATH);
        let queries = select(opts, OptionNumber::LOCATION_QUERY);
        assert(values_of(all, 8).len() == paths@.len());
        assert(values_of(all, 20).len() == queries@.len());
        if paths.len() > LOCATION_MAX || queries.len() > LOCATION_MAX {
            return Err(CallFailure::ResponseMetadataBounds);
        }
        let header = Message::new(
            parsed.ty(),
            parsed.code(),
            parsed.message_id(),
        ).with_token(parsed.token()).with_options(opts);
        assert(header@ == header_of(parsed@));
        match encode_to_vec(&header) {
            Ok(bytes) => {
                if bytes.len() > RESPONSE_OPTION_BYTES {
                    return Err(CallFailure::ResponseMetadataBounds);
                }
            },
            Err(_) => return Err(CallFailure::ResponseMetadataBounds),
        }
        let mut options: Vec<OwnedOpt> = Vec::new();
        let mut i: usize = 0;
        assert(owned_opts(options@) =~= all.subrange(0, 0));
        while i < opts.len()
            invariant
                all == opts_of(opts@),
                i <= opts@.len(),
                owned_opts(options@) == all.subrange(0, i as int),
            decreases opts@.len() - i,
        {
            let ghost before = owned_opts(options@);
            options.push(OwnedOpt { number: opts[i].number(), value: to_vec(opts[i].value()) });
            assert(owned_opts(options@) =~= before.push(all[i as int]));
            i = i + 1;
            assert(owned_opts(options@) =~= all.subrange(0, i as int));
        }
        assert(all.subrange(0, i as int) =~= all);
        let src = parsed.payload();
        Ok(
            ReplyMeta {
                ty: parsed.ty(),
                code: parsed.code(),
                mid: parsed.message_id(),
                token: parsed.token(),
                options,
                peer,
                payload: copy_prefix(src, INLINE_PAYLOAD),
                src_len: if src.len() <= 65535 {
                    src.len() as u16
                } else {
                    65535
                },
                received_at: now_ms,
            },
        )
    }

    /// The options.
    pub fn opts(&self) -> (out: Vec<Opt<'_>>)
        ensures
            opts_of(out@) == owned_opts(self.options@),
    {
        let ghost all = owned_opts(self.options@);
        let mut out: Vec<Opt<'_>> = Vec::new();
        let mut i: usize = 0;
        assert(opts_of(out@) =~= all.subrange(0, 0));
        while i < self.options.len()
            invariant
                all == owned_opts(self.options@),
                i <= self.options@.len(),
                opts_of(out@) == all.subrange(0, i as int),
            decreases self.options@.len() - i,
        {
            let ghost before = opts_of(out@);
            let o: &OwnedOpt = &self.options[i];
            out.push(Opt::new(o.number, o.value.as_slice()));
            assert(opts_of(out@) =~= before.push(all[i as int]));
            i = i + 1;
            assert(opts_of(out@) =~= all.subrange(0, i as int));
        }
        assert(all.subrange(0, i as int) =~= all);
        out
    }

    /// The response that was kept.
    pub fn response(&self) -> (r: Response<'_>)
        requires
            self.wf(),
        ensures
            r@ == kept_response(*self),
    {
        let opts = self.opts();
        let ghost all = owned_opts(self.options@);
        let list = self.opts();
        let s: &[Opt<'_>] = opts.as_slice();
        let mut r = Response::from_client(
            self.code,
            self.ty,
            self.token,
            self.mid,
            self.peer,
            self.payload.as_slice(),
            self.src_len,
            list,
            self.received_at,
        );
        if let Some(v) = select_first(s, OptionNumber::CONTENT_FORMAT) {
            if let Ok(f) = ContentFormat::decode(v) {
                r = r.content_format(f);
            }
        }
        if let Some(v) = select_first(s, OptionNumber::ETAG) {
            if v.len() >= 1 && v.len() <= 8 {
                r = r.etag(v);
            }
        }
        if let Some(v) = select_first(s, OptionNumber::OBSERVE) {
            if let Ok(n) = decode_uint(v, 3) {
                r = r.observe(n);
            }
        }
        if let Some(v) = select_first(s, OptionNumber::MAX_AGE) {
            if let Ok(n) = decode_uint(v, 4) {
                r = r.max_age(n);
            }
        }
        if let Some(v) = select_first(s, OptionNumber::ECHO) {
            if let Ok(e) = Echo::new(v) {
                r = r.echo(e);
            }
        }
        let ghost mid = ResponseView {
            location_paths: Seq::empty(),
            location_queries: Seq::empty(),
            ..kept_response(*self)
        };
        assert(r@ == mid);
        let r = add_paths(r, s);
        add_queries(r, s)
    }
}

fn add_paths<'a>(r: Response<'a>, s: &[Opt<'a>]) -> (out: Response<'a>)
    requires
        r@.location_paths.len() == 0,
        values_of(opts_of(s@), 8).len() <= LOCATION_MAX,
    ensures
        out@ == (ResponseView { location_paths: kept_paths(values_of(opts_of(s@), 8)), ..r@ }),
{
    let ghost first = r@;
    let ghost values = values_of(opts_of(s@), 8);
    let texts = select_texts(s, OptionNumber::LOCATION_PATH);
    let mut out = r;
    let mut i: usize = 0;
    assert(out@.location_paths =~= kept_paths(values.subrange(0, 0)));
    while i < texts.len()
        invariant
            i <= texts@.len(),
            texts@.len() == values.len(),
            values.len() <= LOCATION_MAX,
            forall|k: int| 0 <= k < texts@.len() ==> #[trigger] text_value(texts@[k], values[k]),
            out@ == (ResponseView {
                location_paths: kept_paths(values.subrange(0, i as int)),
                ..first
            }),
        decreases texts@.len() - i,
    {
        proof {
            let next = values.subrange(0, i + 1);
            assert(next.drop_last() =~= values.subrange(0, i as int));
            assert(next.last() == values[i as int]);
            lemma_kept_len(values.subrange(0, i as int));
            assert(text_value(texts@[i as int], values[i as int]));
        }
        if let Ok(text) = texts[i] {
            if text.as_bytes().len() <= 255 && !is_dots(text) {
                out = out.location_path(text);
            }
        }
        i = i + 1;
    }
    assert(values.subrange(0, i as int) =~= values);
    out
}

fn add_queries<'a>(r: Response<'a>, s: &[Opt<'a>]) -> (out: Response<'a>)
    requires
        r@.location_queries.len() == 0,
        values_of(opts_of(s@), 20).len() <= LOCATION_MAX,
    ensures
        out@ == (ResponseView { location_queries: kept_queries(values_of(opts_of(s@), 20)), ..r@ }),
{
    let ghost first = r@;
    let ghost values = values_of(opts_of(s@), 20);
    let texts = select_texts(s, OptionNumber::LOCATION_QUERY);
    let mut out = r;
    let mut i: usize = 0;
    assert(out@.location_queries =~= kept_queries(values.subrange(0, 0)));
    while i < texts.len()
        invariant
            i <= texts@.len(),
            texts@.len() == values.len(),
            values.len() <= LOCATION_MAX,
            forall|k: int| 0 <= k < texts@.len() ==> #[trigger] text_value(texts@[k], values[k]),
            out@ == (ResponseView {
                location_queries: kept_queries(values.subrange(0, i as int)),
                ..first
            }),
        decreases texts@.len() - i,
    {
        proof {
            let next = values.subrange(0, i + 1);
            assert(next.drop_last() =~= values.subrange(0, i as int));
            assert(next.last() == values[i as int]);
            lemma_kept_len(values.subrange(0, i as int));
            assert(text_value(texts@[i as int], values[i as int]));
        }
        if let Ok(text) = texts[i] {
            if text.as_bytes().len() <= 255 {
                out = out.location_query(text);
            }
        }
        i = i + 1;
    }
    assert(values.subrange(0, i as int) =~= values);
    out
}

fn is_dots(text: &str) -> (b: bool)
    ensures
        b == dot_segment(text.spec_bytes()),
{
    let bytes = text.as_bytes();
    if bytes.len() == 1 {
        assert(bytes@ =~= seq![bytes@[0]]);
        bytes[0] == 0x2e
    } else if bytes.len() == 2 {
        assert(bytes@ =~= seq![bytes@[0], bytes@[1]]);
        proof {
            if dot_segment(bytes@) {
                assert(bytes@[0] == 0x2e && bytes@[1] == 0x2e);
            }
        }
        bytes[0] == 0x2e && bytes[1] == 0x2e
    } else {
        false
    }
}

} // verus!
