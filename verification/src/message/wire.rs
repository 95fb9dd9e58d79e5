//! The datagram codec.
use vstd::prelude::*;

use super::code::{Code, MessageId, Token, Type};
use super::option::{ascending, opts_of, Opt, OptView};
use crate::error::{EncodeError, ParseError};

verus! {

/// What a message says.
pub struct MessageView {
    /// Message type.
    pub ty: Type,
    /// Request method or response code.
    pub code: Code,
    /// Message identifier.
    pub id: u16,
    /// Token.
    pub token: Seq<u8>,
    /// Options in order.
    pub options: Seq<OptView>,
    /// Payload; empty when there is none.
    pub payload: Seq<u8>,
}

/// The longest option value that can be written.
pub const MAX_OPTION_LEN: usize = 65804;

/// The nibble for a delta or a length.
pub open spec fn nibble(n: int) -> int {
    if n < 13 {
        n
    } else if n < 269 {
        13
    } else {
        14
    }
}

/// The extension octets for a delta or a length.
pub open spec fn extension(n: int) -> Seq<u8> {
    if n < 13 {
        Seq::empty()
    } else if n < 269 {
        seq![(n - 13) as u8]
    } else {
        seq![((n - 269) / 256) as u8, ((n - 269) % 256) as u8]
    }
}

/// An option on the wire, behind one with number `prev`.
pub open spec fn opt_wire(prev: int, opt: OptView) -> Seq<u8> {
    seq![(nibble(opt.number - prev) * 16 + nibble(opt.value.len() as int)) as u8] + extension(
        opt.number - prev,
    ) + extension(opt.value.len() as int) + opt.value
}

/// Options on the wire, behind one with number `prev`.
pub open spec fn opts_wire(opts: Seq<OptView>, prev: int) -> Seq<u8>
    decreases opts.len(),
{
    if opts.len() == 0 {
        Seq::empty()
    } else {
        opt_wire(prev, opts[0]) + opts_wire(opts.skip(1), opts[0].number as int)
    }
}

/// The payload on the wire: a marker in front, unless there is none.
pub open spec fn payload_wire(payload: Seq<u8>) -> Seq<u8> {
    if payload.len() == 0 {
        Seq::empty()
    } else {
        seq![0xffu8] + payload
    }
}

/// The four header octets.
pub open spec fn header_wire(m: MessageView) -> Seq<u8> {
    seq![
        (64 + m.ty.bits() * 16 + m.token.len()) as u8,
        m.code.raw(),
        (m.id / 256) as u8,
        (m.id % 256) as u8,
    ]
}

/// A message on the wire.
pub open spec fn wire(m: MessageView) -> Seq<u8> {
    header_wire(m) + m.token + opts_wire(m.options, 0) + payload_wire(m.payload)
}

/// The first thing wrong with an option list, going through it in order.
pub open spec fn options_fault(opts: Seq<OptView>, prev: int) -> Option<EncodeError>
    decreases opts.len(),
{
    if opts.len() == 0 {
        None
    } else if opts[0].number < prev {
        Some(EncodeError::OptionsNotAscending)
    } else if opts[0].value.len() > MAX_OPTION_LEN {
        Some(EncodeError::OptionValueTooLong)
    } else {
        options_fault(opts.skip(1), opts[0].number as int)
    }
}

/// Why a message cannot be put on the wire, if it cannot.
pub open spec fn encode_fault(m: MessageView) -> Option<EncodeError> {
    if m.code.raw() == 0 && (m.token.len() > 0 || m.options.len() > 0 || m.payload.len() > 0) {
        Some(EncodeError::EmptyMessageNotEmpty)
    } else {
        options_fault(m.options, 0)
    }
}

/// The value behind a nibble at position `at`, if its extension is there.
pub open spec fn extended(bytes: Seq<u8>, at: int, nib: int) -> Option<int> {
    if nib < 13 {
        Some(nib)
    } else if nib == 13 {
        if at + 1 <= bytes.len() {
            Some(13 + bytes[at] as int)
        } else {
            None
        }
    } else {
        if at + 2 <= bytes.len() {
            Some(269 + bytes[at] as int * 256 + bytes[at + 1] as int)
        } else {
            None
        }
    }
}

/// Octets that the extension of a nibble takes.
pub open spec fn extension_len(nib: int) -> int {
    if nib < 13 {
        0
    } else if nib == 13 {
        1
    } else {
        2
    }
}

/// One option read from the wire.
pub struct OptRead {
    /// What it says.
    pub opt: OptView,
    /// Octets that it takes.
    pub used: int,
}

/// Read one option, behind one with number `prev`.
#[verifier::opaque]
pub open spec fn read_opt(bytes: Seq<u8>, prev: int) -> Result<OptRead, ParseError> {
    let dn = bytes[0] as int / 16;
    let ln = bytes[0] as int % 16;
    if dn == 15 {
        Err(ParseError::ReservedOptionDelta)
    } else if ln == 15 {
        Err(ParseError::ReservedOptionLength)
    } else {
        let l_at = 1 + extension_len(dn);
        let v_at = l_at + extension_len(ln);
        match (extended(bytes, 1, dn), extended(bytes, l_at, ln)) {
            (Some(delta), Some(len)) => if prev + delta > 65535 {
                Err(ParseError::OptionNumberOverflow)
            } else if v_at + len > bytes.len() {
                Err(ParseError::TruncatedOption)
            } else {
                Ok(
                    OptRead {
                        opt: OptView {
                            number: (prev + delta) as u16,
                            value: bytes.subrange(v_at, v_at + len),
                        },
                        used: v_at + len,
                    },
                )
            },
            _ => Err(ParseError::TruncatedOption),
        }
    }
}

/// What follows the token.
pub struct TailRead {
    /// Options in order.
    pub options: Seq<OptView>,
    /// Payload.
    pub payload: Seq<u8>,
}

/// Read options and payload.
pub open spec fn read_tail(bytes: Seq<u8>, prev: int) -> Result<TailRead, ParseError>
    decreases bytes.len(),
{
    if bytes.len() == 0 {
        Ok(TailRead { options: Seq::empty(), payload: Seq::empty() })
    } else if bytes[0] == 0xff {
        if bytes.len() == 1 {
            Err(ParseError::PayloadMarkerWithoutPayload)
        } else {
            Ok(TailRead { options: Seq::empty(), payload: bytes.skip(1) })
        }
    } else {
        match read_opt(bytes, prev) {
            Err(e) => Err(e),
            Ok(one) => if 0 < one.used <= bytes.len() {
                match read_tail(bytes.skip(one.used), one.opt.number as int) {
                    Err(e) => Err(e),
                    Ok(rest) => Ok(
                        TailRead {
                            options: seq![one.opt] + rest.options,
                            payload: rest.payload,
                        },
                    ),
                }
            } else {
                Err(ParseError::TruncatedOption)
            },
        }
    }
}

/// Read a datagram.
pub open spec fn read_message(bytes: Seq<u8>) -> Result<MessageView, ParseError> {
    if bytes.len() < 4 {
        Err(ParseError::TruncatedHeader)
    } else if bytes[0] as int / 64 != 1 {
        Err(ParseError::UnsupportedVersion)
    } else {
        let tkl = bytes[0] as int % 16;
        if tkl > 8 {
            Err(ParseError::BadTokenLength)
        } else if bytes[1] == 0 && bytes.len() > 4 {
            Err(ParseError::EmptyMessageNotEmpty)
        } else if 4 + tkl > bytes.len() {
            Err(ParseError::TruncatedToken)
        } else {
            match read_tail(bytes.skip(4 + tkl), 0) {
                Err(e) => Err(e),
                Ok(tail) => Ok(
                    MessageView {
                        ty: Type::of_bits((bytes[0] as int / 16) % 4),
                        code: Code::of_raw(bytes[1]),
                        id: (bytes[2] * 256 + bytes[3]) as u16,
                        token: bytes.subrange(4, 4 + tkl),
                        options: tail.options,
                        payload: tail.payload,
                    },
                ),
            }
        }
    }
}

proof fn lemma_extension(n: int)
    requires
        0 <= n <= MAX_OPTION_LEN,
    ensures
        0 <= nibble(n) <= 14,
        extension(n).len() == extension_len(nibble(n)),
{
}

proof fn lemma_read_opt(prev: int, opt: OptView, rest: Seq<u8>)
    requires
        0 <= prev <= opt.number,
        opt.value.len() <= MAX_OPTION_LEN,
    ensures
        (opt_wire(prev, opt) + rest)[0] != 0xff,
        read_opt(opt_wire(prev, opt) + rest, prev) == Ok::<OptRead, ParseError>(
            OptRead { opt, used: opt_wire(prev, opt).len() as int },
        ),
        opt_wire(prev, opt).len() > 0,
{
    reveal(read_opt);
    let delta = opt.number - prev;
    let len = opt.value.len() as int;
    lemma_extension(delta);
    lemma_extension(len);
    let w = opt_wire(prev, opt);
    let bytes = w + rest;
    let b0 = nibble(delta) * 16 + nibble(len);
    assert(0 <= b0 <= 14 * 16 + 14);
    assert(bytes[0] == b0 as u8);
    assert(bytes[0] as int / 16 == nibble(delta));
    assert(bytes[0] as int % 16 == nibble(len));
    let l_at = 1 + extension_len(nibble(delta));
    let v_at = l_at + extension_len(nibble(len));
    let e1 = extension(delta);
    let e2 = extension(len);
    assert(forall|i: int| 0 <= i < e1.len() ==> bytes[1 + i] == e1[i]);
    assert(forall|i: int| 0 <= i < e2.len() ==> bytes[l_at + i] == e2[i]);
    assert(w.len() == v_at + len);
    assert(bytes.subrange(v_at, v_at + len) =~= opt.value);
    if delta >= 269 {
        assert(bytes[1] == e1[0]);
        assert(bytes[2] == e1[1]);
        assert((delta - 269) / 256 * 256 + (delta - 269) % 256 == delta - 269);
    } else if delta >= 13 {
        assert(bytes[1] == e1[0]);
    }
    if len >= 269 {
        assert(bytes[l_at] == e2[0]);
        assert(bytes[l_at + 1] == e2[1]);
        assert((len - 269) / 256 * 256 + (len - 269) % 256 == len - 269);
    } else if len >= 13 {
        assert(bytes[l_at] == e2[0]);
    }
    assert(extended(bytes, 1, nibble(delta)) == Some(delta));
    assert(extended(bytes, l_at, nibble(len)) == Some(len));
}

proof fn lemma_read_tail(opts: Seq<OptView>, payload: Seq<u8>, prev: int)
    requires
        0 <= prev,
        options_fault(opts, prev).is_none(),
    ensures
        read_tail(opts_wire(opts, prev) + payload_wire(payload), prev) == Ok::<
            TailRead,
            ParseError,
        >(TailRead { options: opts, payload }),
    decreases opts.len(),
{
    let bytes = opts_wire(opts, prev) + payload_wire(payload);
    if opts.len() == 0 {
        assert(bytes =~= payload_wire(payload));
        if payload.len() > 0 {
            assert(bytes.skip(1) =~= payload);
        } else {
            assert(payload =~= Seq::empty());
        }
        assert(opts =~= Seq::empty());
    } else {
        let head = opt_wire(prev, opts[0]);
        let rest = opts_wire(opts.skip(1), opts[0].number as int) + payload_wire(payload);
        assert(bytes =~= head + rest);
        lemma_read_opt(prev, opts[0], rest);
        lemma_read_tail(opts.skip(1), payload, opts[0].number as int);
        assert(bytes.skip(head.len() as int) =~= rest);
        assert(seq![opts[0]] + opts.skip(1) =~= opts);
    }
}

proof fn lemma_first_octet(bits: int, tkl: int)
    requires
        0 <= bits <= 3,
        0 <= tkl <= 8,
    ensures
        0 <= 64 + bits * 16 + tkl <= 255,
        (64 + bits * 16 + tkl) / 64 == 1,
        (64 + bits * 16 + tkl) % 16 == tkl,
        ((64 + bits * 16 + tkl) / 16) % 4 == bits,
{
}

proof fn lemma_header_octets(m: MessageView)
    requires
        m.token.len() <= 8,
    ensures
        ({
            let h = header_wire(m);
            &&& h.len() == 4
            &&& h[0] as int / 64 == 1
            &&& h[0] as int % 16 == m.token.len()
            &&& Type::of_bits((h[0] as int / 16) % 4) == m.ty
            &&& h[1] == m.code.raw()
            &&& (h[2] * 256 + h[3]) as u16 == m.id
        }),
{
    lemma_first_octet(m.ty.bits(), m.token.len() as int);
}

/// What was encoded is decoded: every message that can be put on the wire is
/// read back unchanged.
pub proof fn law_decode_encoded(m: MessageView)
    requires
        encode_fault(m).is_none(),
        m.token.len() <= 8,
        m.code.canonical(),
    ensures
        read_message(wire(m)) == Ok::<MessageView, ParseError>(m),
{
    let bytes = wire(m);
    let tkl = m.token.len() as int;
    let h = header_wire(m);
    let tail = opts_wire(m.options, 0) + payload_wire(m.payload);
    lemma_header_octets(m);
    assert(bytes =~= h + (m.token + tail));
    assert(bytes[0] == h[0] && bytes[1] == h[1] && bytes[2] == h[2] && bytes[3] == h[3]);
    lemma_read_tail(m.options, m.payload, 0);
    assert(bytes.skip(4 + tkl) =~= tail);
    assert(bytes.subrange(4, 4 + tkl) =~= m.token);
    if m.code.raw() == 0 {
        assert(bytes.len() == 4);
    }
    assert(Code::of_raw(bytes[1]) == m.code);
}

proof fn lemma_write_opt(bytes: Seq<u8>, prev: int)
    requires
        0 <= prev <= 65535,
        bytes.len() > 0,
        read_opt(bytes, prev).is_ok(),
    ensures
        ({
            let one = read_opt(bytes, prev)->Ok_0;
            &&& 0 < one.used <= bytes.len()
            &&& prev <= one.opt.number
            &&& one.opt.value.len() <= MAX_OPTION_LEN
            &&& opt_wire(prev, one.opt) == bytes.subrange(0, one.used)
        }),
{
    reveal(read_opt);
    let one = read_opt(bytes, prev)->Ok_0;
    let dn = bytes[0] as int / 16;
    let ln = bytes[0] as int % 16;
    let l_at = 1 + extension_len(dn);
    let v_at = l_at + extension_len(ln);
    let delta = extended(bytes, 1, dn)->0;
    let len = extended(bytes, l_at, ln)->0;
    assert(one.opt.number - prev == delta);
    assert(one.opt.value.len() == len);
    assert(nibble(delta) == dn);
    assert(nibble(len) == ln);
    assert(dn * 16 + ln == bytes[0] as int);
    assert(extension(delta) =~= bytes.subrange(1, l_at));
    assert(extension(len) =~= bytes.subrange(l_at, v_at));
    assert(opt_wire(prev, one.opt) =~= bytes.subrange(0, one.used));
}

proof fn lemma_write_tail(bytes: Seq<u8>, prev: int)
    requires
        0 <= prev <= 65535,
        read_tail(bytes, prev).is_ok(),
    ensures
        ({
            let tail = read_tail(bytes, prev)->Ok_0;
            &&& options_fault(tail.options, prev).is_none()
            &&& bytes == opts_wire(tail.options, prev) + payload_wire(tail.payload)
        }),
    decreases bytes.len(),
{
    let tail = read_tail(bytes, prev)->Ok_0;
    if bytes.len() == 0 {
        assert(bytes =~= opts_wire(tail.options, prev) + payload_wire(tail.payload));
    } else if bytes[0] == 0xff {
        assert(bytes =~= seq![0xffu8] + bytes.skip(1));
        assert(bytes =~= opts_wire(tail.options, prev) + payload_wire(tail.payload));
    } else {
        let one = read_opt(bytes, prev)->Ok_0;
        lemma_write_opt(bytes, prev);
        let rest = bytes.skip(one.used);
        let n = one.opt.number as int;
        let behind = read_tail(rest, n)->Ok_0;
        lemma_write_tail(rest, n);
        lemma_write_step(tail, one.opt, behind, prev, bytes.subrange(0, one.used), rest);
        assert(bytes =~= bytes.subrange(0, one.used) + rest);
    }
}

proof fn lemma_write_step(
    tail: TailRead,
    opt: OptView,
    behind: TailRead,
    prev: int,
    head: Seq<u8>,
    rest: Seq<u8>,
)
    requires
        tail.options == seq![opt] + behind.options,
        tail.payload == behind.payload,
        head == opt_wire(prev, opt),
        rest == opts_wire(behind.options, opt.number as int) + payload_wire(behind.payload),
        prev <= opt.number,
        opt.value.len() <= MAX_OPTION_LEN,
        options_fault(behind.options, opt.number as int).is_none(),
    ensures
        options_fault(tail.options, prev).is_none(),
        head + rest == opts_wire(tail.options, prev) + payload_wire(tail.payload),
{
    assert(tail.options[0] == opt);
    assert(tail.options.skip(1) =~= behind.options);
    let more = opts_wire(behind.options, opt.number as int);
    let last = payload_wire(tail.payload);
    assert(opts_wire(tail.options, prev) == head + more);
    assert(head + (more + last) =~= head + more + last);
}

/// What was decoded encodes to the same octets: no two datagrams stand for
/// the same message, and every message that is read can be written.
pub proof fn law_encode_decoded(bytes: Seq<u8>)
    requires
        read_message(bytes).is_ok(),
    ensures
        ({
            let m = read_message(bytes)->Ok_0;
            &&& encode_fault(m).is_none()
            &&& m.token.len() <= 8
            &&& m.code.canonical()
            &&& wire(m) == bytes
        }),
{
    let m = read_message(bytes)->Ok_0;
    let tkl = bytes[0] as int % 16;
    lemma_write_tail(bytes.skip(4 + tkl), 0);
    Code::law_raw_round_trip(bytes[1]);
    assert(m.ty.bits() == (bytes[0] as int / 16) % 4);
    assert(64 + m.ty.bits() * 16 + tkl == bytes[0] as int);
    assert(m.id / 256 == bytes[2]);
    assert(m.id % 256 == bytes[3]);
    assert(header_wire(m) =~= bytes.subrange(0, 4));
    assert(bytes =~= bytes.subrange(0, 4) + bytes.subrange(4, 4 + tkl) + bytes.skip(4 + tkl));
    assert(wire(m) =~= bytes);
    if bytes[1] == 0 {
        assert(bytes.len() == 4);
        assert(m.options =~= Seq::empty());
    }
}

/// A list without a fault is in order.
pub proof fn lemma_no_fault_ascending(opts: Seq<OptView>, prev: int)
    requires
        options_fault(opts, prev).is_none(),
    ensures
        ascending(opts),
        opts.len() > 0 ==> prev <= opts[0].number,
        forall|i: int| 0 <= i < opts.len() ==> opts[i].value.len() <= MAX_OPTION_LEN,
    decreases opts.len(),
{
    if opts.len() > 0 {
        let rest = opts.skip(1);
        lemma_no_fault_ascending(rest, opts[0].number as int);
        assert forall|i: int, j: int| 0 <= i < j < opts.len() implies opts[i].number
            <= opts[j].number by {
            assert(opts[j] == rest[j - 1]);
            if i > 0 {
                assert(opts[i] == rest[i - 1]);
            }
            assert(rest[0].number <= rest[j - 1].number);
        }
        assert forall|i: int| 0 <= i < opts.len() implies opts[i].value.len()
            <= MAX_OPTION_LEN by {
            if i > 0 {
                assert(opts[i] == rest[i - 1]);
            }
        }
    }
}

/// A list in order with short enough values has no fault.
pub proof fn lemma_ascending_no_fault(opts: Seq<OptView>, prev: int)
    requires
        ascending(opts),
        opts.len() > 0 ==> prev <= opts[0].number,
        forall|i: int| 0 <= i < opts.len() ==> opts[i].value.len() <= MAX_OPTION_LEN,
    ensures
        options_fault(opts, prev).is_none(),
    decreases opts.len(),
{
    if opts.len() > 0 {
        let rest = opts.skip(1);
        assert(forall|i: int| 0 <= i < rest.len() ==> rest[i] == opts[i + 1]);
        lemma_ascending_no_fault(rest, opts[0].number as int);
    }
}

/// A message to be encoded.
#[derive(Clone, Copy, Debug)]
pub struct Message<'a> {
    ty: Type,
    code: Code,
    id: MessageId,
    token: Token,
    options: &'a [Opt<'a>],
    payload: &'a [u8],
}

impl<'a> View for Message<'a> {
    type V = MessageView;

    closed spec fn view(&self) -> MessageView {
        MessageView {
            ty: self.ty,
            code: self.code,
            id: self.id.raw,
            token: self.token@,
            options: opts_of(self.options@),
            payload: self.payload@,
        }
    }
}

/// A message without token, options and payload.
pub open spec fn bare(ty: Type, code: Code, id: u16) -> MessageView {
    MessageView {
        ty,
        code,
        id,
        token: Seq::empty(),
        options: Seq::empty(),
        payload: Seq::empty(),
    }
}

impl<'a> Message<'a> {
    /// A message without token, options and payload.
    pub fn new(ty: Type, code: Code, id: MessageId) -> (m: Message<'a>)
        ensures
            m@ == bare(ty, code, id.raw),
    {
        let options: &'a [Opt<'a>] = &[];
        let payload: &'a [u8] = &[];
        let m = Message { ty, code, id, token: Token::empty(), options, payload };
        assert(m@.options =~= Seq::empty());
        assert(m@.payload =~= Seq::empty());
        m
    }

    /// An empty acknowledgement.
    pub fn empty_ack(id: MessageId) -> (m: Message<'a>)
        ensures
            m@ == bare(Type::Acknowledgement, Code::EMPTY, id.raw),
    {
        Message::new(Type::Acknowledgement, Code::EMPTY, id)
    }

    /// An empty reset.
    pub fn empty_rst(id: MessageId) -> (m: Message<'a>)
        ensures
            m@ == bare(Type::Reset, Code::EMPTY, id.raw),
    {
        Message::new(Type::Reset, Code::EMPTY, id)
    }

    /// Set the token.
    pub fn with_token(self, token: Token) -> (m: Message<'a>)
        ensures
            m@ == (MessageView { token: token@, ..self@ }),
    {
        let mut m = self;
        m.token = token;
        m
    }

    /// Set the options, which must be in order.
    pub fn with_options(self, options: &'a [Opt<'a>]) -> (m: Message<'a>)
        ensures
            m@ == (MessageView { options: opts_of(options@), ..self@ }),
    {
        let mut m = self;
        m.options = options;
        m
    }

    /// Set the payload.
    pub fn with_payload(self, payload: &'a [u8]) -> (m: Message<'a>)
        ensures
            m@ == (MessageView { payload: payload@, ..self@ }),
    {
        let mut m = self;
        m.payload = payload;
        m
    }

    /// The message identifier.
    pub fn message_id(&self) -> (id: MessageId)
        ensures
            id.raw == self@.id,
    {
        self.id
    }

    /// The message type.
    pub fn ty(&self) -> (t: Type)
        ensures
            t == self@.ty,
    {
        self.ty
    }

    /// The token.
    pub fn token(&self) -> (t: Token)
        ensures
            t@ == self@.token,
    {
        self.token
    }
}

fn push_extension(out: &mut Vec<u8>, n: usize)
    requires
        n <= MAX_OPTION_LEN,
    ensures
        final(out)@ == old(out)@ + extension(n as int),
{
    let ghost before = out@;
    if n >= 269 {
        let hi: u8 = ((n - 269) / 256) as u8;
        let lo: u8 = ((n - 269) % 256) as u8;
        out.push(hi);
        out.push(lo);
    } else if n >= 13 {
        out.push((n - 13) as u8);
    }
    assert(out@ =~= before + extension(n as int));
}

fn nibble_of(n: usize) -> (b: u8)
    requires
        n <= MAX_OPTION_LEN,
    ensures
        b as int == nibble(n as int),
        b <= 14,
{
    if n < 13 {
        n as u8
    } else if n < 269 {
        13
    } else {
        14
    }
}

fn push_opt_wire(out: &mut Vec<u8>, prev: u16, opt: &Opt<'_>)
    requires
        prev <= opt@.number,
        opt@.value.len() <= MAX_OPTION_LEN,
    ensures
        final(out)@ == old(out)@ + opt_wire(prev as int, opt@),
{
    let ghost before = out@;
    let delta: usize = (opt.number() - prev) as usize;
    let len: usize = opt.value().len();
    out.push(nibble_of(delta) * 16 + nibble_of(len));
    push_extension(out, delta);
    push_extension(out, len);
    crate::bytes::append(out, opt.value());
    assert(out@ =~= before + opt_wire(prev as int, opt@));
}

fn find_fault(m: &Message<'_>) -> (r: Option<EncodeError>)
    ensures
        r == encode_fault(m@),
{
    if m.code.to_raw() == 0 && (!m.token.is_empty() || m.options.len() > 0 || m.payload.len() > 0) {
        return Some(EncodeError::EmptyMessageNotEmpty);
    }
    let ghost all = opts_of(m.options@);
    let mut prev: u16 = 0;
    let mut i: usize = 0;
    assert(all.skip(0) =~= all);
    while i < m.options.len()
        invariant
            all == opts_of(m.options@),
            i <= m.options@.len(),
            encode_fault(m@) == options_fault(all.skip(i as int), prev as int),
        decreases m.options@.len() - i,
    {
        let opt = m.options[i];
        assert(all.skip(i as int)[0] == opt@);
        assert(all.skip(i as int).skip(1) =~= all.skip(i as int + 1));
        if opt.number() < prev {
            return Some(EncodeError::OptionsNotAscending);
        }
        if opt.value().len() > MAX_OPTION_LEN {
            return Some(EncodeError::OptionValueTooLong);
        }
        prev = opt.number();
        i = i + 1;
    }
    None
}

/// Encode a message into a fresh buffer.
pub fn encode_to_vec(m: &Message<'_>) -> (r: Result<Vec<u8>, EncodeError>)
    ensures
        r matches Ok(v) ==> encode_fault(m@).is_none() && v@ == wire(m@),
        r matches Err(e) ==> encode_fault(m@) == Some(e),
{
    if let Some(e) = find_fault(m) {
        return Err(e);
    }
    proof {
        broadcast use Token::at_most_eight;

        lemma_no_fault_ascending(opts_of(m.options@), 0);
    }
    let tkl: usize = m.token.len();
    let ty: u8 = m.ty.to_bits();
    let id: u16 = m.id.get();
    let mut out: Vec<u8> = Vec::new();
    out.push(64 + ty * 16 + tkl as u8);
    out.push(m.code.to_raw());
    out.push((id / 256) as u8);
    out.push((id % 256) as u8);
    assert(out@ =~= header_wire(m@));
    crate::bytes::append(&mut out, m.token.as_bytes());
    let ghost all = opts_of(m.options@);
    let ghost lead = header_wire(m@) + m@.token;
    let mut prev: u16 = 0;
    let mut i: usize = 0;
    assert(all.skip(0) =~= all);
    assert(out@ + opts_wire(all.skip(0), 0) =~= lead + opts_wire(all, 0));
    while i < m.options.len()
        invariant
            all == opts_of(m.options@),
            i <= m.options@.len(),
            ascending(all),
            forall|k: int| 0 <= k < all.len() ==> all[k].value.len() <= MAX_OPTION_LEN,
            i < all.len() ==> prev <= all[i as int].number,
            out@ + opts_wire(all.skip(i as int), prev as int) == lead + opts_wire(all, 0),
        decreases m.options@.len() - i,
    {
        let opt = m.options[i];
        let ghost before = out@;
        let ghost old_prev = prev;
        assert(all.skip(i as int)[0] == opt@);
        assert(all[i as int] == opt@);
        assert(all.skip(i as int).skip(1) =~= all.skip(i as int + 1));
        push_opt_wire(&mut out, prev, &opt);
        prev = opt.number();
        i = i + 1;
        assert(out@ + opts_wire(all.skip(i as int), prev as int) =~= before + opts_wire(
            all.skip(i - 1),
            old_prev as int,
        ));
    }
    assert(out@ =~= lead + opts_wire(all, 0));
    if m.payload.len() > 0 {
        out.push(0xff);
        crate::bytes::append(&mut out, m.payload);
    }
    assert(out@ =~= wire(m@));
    Ok(out)
}

/// Encode a message into `buf`; gives the number of octets written.
pub fn encode(m: &Message<'_>, buf: &mut [u8]) -> (r: Result<usize, EncodeError>)
    ensures
        encode_fault(m@) matches Some(e) ==> r == Err::<usize, EncodeError>(e),
        encode_fault(m@).is_none() && wire(m@).len() > old(buf)@.len() ==> r == Err::<
            usize,
            EncodeError,
        >(EncodeError::BufferTooSmall),
        encode_fault(m@).is_none() && wire(m@).len() <= old(buf)@.len() ==> r == Ok::<
            usize,
            EncodeError,
        >(wire(m@).len() as usize) && final(buf)@ == wire(m@) + old(buf)@.skip(
            wire(m@).len() as int,
        ),
        r.is_err() ==> final(buf)@ == old(buf)@,
{
    let out = match encode_to_vec(m) {
        Ok(out) => out,
        Err(e) => return Err(e),
    };
    if out.len() > buf.len() {
        return Err(EncodeError::BufferTooSmall);
    }
    let ghost before = buf@;
    let mut i: usize = 0;
    while i < out.len()
        invariant
            i <= out@.len() <= before.len(),
            buf@ == out@.subrange(0, i as int) + before.skip(i as int),
        decreases out@.len() - i,
    {
        buf[i] = out[i];
        i = i + 1;
        assert(buf@ =~= out@.subrange(0, i as int) + before.skip(i as int));
    }
    assert(buf@ =~= wire(m@) + before.skip(wire(m@).len() as int));
    Ok(out.len())
}

/// A decoded message; options and payload borrow the datagram.
#[derive(Clone, Debug)]
pub struct ParsedMessage<'a> {
    ty: Type,
    code: Code,
    id: MessageId,
    token: Token,
    options: Vec<Opt<'a>>,
    payload: &'a [u8],
}

impl<'a> View for ParsedMessage<'a> {
    type V = MessageView;

    closed spec fn view(&self) -> MessageView {
        MessageView {
            ty: self.ty,
            code: self.code,
            id: self.id.raw,
            token: self.token@,
            options: opts_of(self.options@),
            payload: self.payload@,
        }
    }
}

fn read_extended(bytes: &[u8], at: usize, nib: u8) -> (r: Option<usize>)
    requires
        nib < 15,
    ensures
        r.is_some() == extended(bytes@, at as int, nib as int).is_some(),
        r matches Some(n) ==> extended(bytes@, at as int, nib as int) == Some(n as int) && n
            <= MAX_OPTION_LEN,
{
    if nib < 13 {
        Some(nib as usize)
    } else if nib == 13 {
        if at < bytes.len() {
            Some(13 + bytes[at] as usize)
        } else {
            None
        }
    } else {
        if bytes.len() >= 2 && at <= bytes.len() - 2 {
            Some(269 + bytes[at] as usize * 256 + bytes[at + 1] as usize)
        } else {
            None
        }
    }
}

/// An option's number and where its value lies.
struct Found {
    number: u16,
    from: usize,
    to: usize,
}

fn decode_opt(bytes: &[u8], prev: u16) -> (r: Result<Found, ParseError>)
    requires
        0 < bytes@.len(),
    ensures
        r matches Ok(f) ==> 0 < f.from <= f.to <= bytes@.len() && prev <= f.number && read_opt(
            bytes@,
            prev as int,
        ) == Ok::<OptRead, ParseError>(
            OptRead {
                opt: OptView {
                    number: f.number,
                    value: bytes@.subrange(f.from as int, f.to as int),
                },
                used: f.to as int,
            },
        ),
        r matches Err(e) ==> read_opt(bytes@, prev as int) == Err::<OptRead, ParseError>(e),
{
    proof {
        reveal(read_opt);
    }
    let dn: u8 = bytes[0] / 16;
    let ln: u8 = bytes[0] % 16;
    if dn == 15 {
        return Err(ParseError::ReservedOptionDelta);
    }
    if ln == 15 {
        return Err(ParseError::ReservedOptionLength);
    }
    let d_len: usize = if dn < 13 {
        0
    } else if dn == 13 {
        1
    } else {
        2
    };
    let l_len: usize = if ln < 13 {
        0
    } else if ln == 13 {
        1
    } else {
        2
    };
    let delta: usize = match read_extended(bytes, 1, dn) {
        Some(d) => d,
        None => return Err(ParseError::TruncatedOption),
    };
    let len: usize = match read_extended(bytes, 1 + d_len, ln) {
        Some(l) => l,
        None => return Err(ParseError::TruncatedOption),
    };
    if prev as usize + delta > 65535 {
        return Err(ParseError::OptionNumberOverflow);
    }
    let from: usize = 1 + d_len + l_len;
    if from > bytes.len() || len > bytes.len() - from {
        return Err(ParseError::TruncatedOption);
    }
    Ok(Found { number: (prev as usize + delta) as u16, from, to: from + len })
}

/// Decode a datagram.
pub fn decode<'a>(bytes: &'a [u8]) -> (r: Result<ParsedMessage<'a>, ParseError>)
    ensures
        r matches Ok(m) ==> read_message(bytes@) == Ok::<MessageView, ParseError>(m@),
        r matches Err(e) ==> read_message(bytes@) == Err::<MessageView, ParseError>(e),
{
    if bytes.len() < 4 {
        return Err(ParseError::TruncatedHeader);
    }
    if bytes[0] / 64 != 1 {
        return Err(ParseError::UnsupportedVersion);
    }
    let tkl: usize = (bytes[0] % 16) as usize;
    if tkl > 8 {
        return Err(ParseError::BadTokenLength);
    }
    if bytes[1] == 0 && bytes.len() > 4 {
        return Err(ParseError::EmptyMessageNotEmpty);
    }
    if 4 + tkl > bytes.len() {
        return Err(ParseError::TruncatedToken);
    }
    let token = Token::from_checked(&bytes[4..4 + tkl]);
    let id: u16 = bytes[2] as u16 * 256 + bytes[3] as u16;
    let ty = Type::from_bits((bytes[0] / 16) % 4);
    let code = Code::from_raw(bytes[1]);
    let ghost whole = read_tail(bytes@.skip(4 + tkl as int), 0);
    let mut options: Vec<Opt<'a>> = Vec::new();
    let mut rest: &'a [u8] = &bytes[4 + tkl..bytes.len()];
    let mut prev: u16 = 0;
    assert(rest@ =~= bytes@.skip(4 + tkl as int));
    assert(opts_of(options@) =~= Seq::empty());
    proof {
        match read_tail(rest@, 0) {
            Ok(t) => {
                assert(Seq::<OptView>::empty() + t.options =~= t.options);
            },
            Err(_) => {},
        }
    }
    while rest.len() > 0 && rest[0] != 0xff
        invariant
            match read_tail(rest@, prev as int) {
                Ok(t) => whole == Ok::<TailRead, ParseError>(
                    TailRead { options: opts_of(options@) + t.options, payload: t.payload },
                ),
                Err(e) => whole == Err::<TailRead, ParseError>(e),
            },
            whole == read_tail(bytes@.skip(4 + tkl as int), 0),
            bytes@.len() >= 4 + tkl,
            tkl == bytes@[0] % 16,
            tkl <= 8,
            bytes@[0] / 64 == 1,
            !(bytes@[1] == 0 && bytes@.len() > 4),
        decreases rest@.len(),
    {
        let found = match decode_opt(rest, prev) {
            Ok(found) => found,
            Err(e) => return Err(e),
        };
        let value: &'a [u8] = &rest[found.from..found.to];
        let opt = Opt::new(found.number, value);
        let ghost before = opts_of(options@);
        let next: &'a [u8] = &rest[found.to..rest.len()];
        assert(next@ =~= rest@.skip(found.to as int));
        options.push(opt);
        assert(opts_of(options@) =~= before.push(opt@));
        proof {
            match read_tail(next@, found.number as int) {
                Ok(t) => {
                    assert(before + (seq![opt@] + t.options) =~= opts_of(options@) + t.options);
                },
                Err(_) => {},
            }
        }
        prev = found.number;
        rest = next;
    }
    let payload: &'a [u8] = if rest.len() == 0 {
        rest
    } else {
        if rest.len() == 1 {
            return Err(ParseError::PayloadMarkerWithoutPayload);
        }
        &rest[1..rest.len()]
    };
    assert(payload@ =~= if rest@.len() == 0 {
        Seq::<u8>::empty()
    } else {
        rest@.skip(1)
    });
    assert(opts_of(options@) + Seq::<OptView>::empty() =~= opts_of(options@));
    let m = ParsedMessage { ty, code, id: MessageId::new(id), token, options, payload };
    Ok(m)
}

impl<'a> ParsedMessage<'a> {
    /// Message type.
    pub fn ty(&self) -> (t: Type)
        ensures
            t == self@.ty,
    {
        self.ty
    }

    /// Request method or response code.
    pub fn code(&self) -> (c: Code)
        ensures
            c == self@.code,
    {
        self.code
    }

    /// Message identifier.
    pub fn message_id(&self) -> (id: MessageId)
        ensures
            id.raw == self@.id,
    {
        self.id
    }

    /// Token.
    pub fn token(&self) -> (t: Token)
        ensures
            t@ == self@.token,
    {
        self.token
    }

    /// Payload; empty when there is none.
    pub fn payload(&self) -> (p: &'a [u8])
        ensures
            p@ == self@.payload,
    {
        self.payload
    }

    /// The options in order.
    pub fn options(&self) -> (o: &[Opt<'a>])
        ensures
            opts_of(o@) == self@.options,
    {
        self.options.as_slice()
    }

    /// Encode the message again.
    pub fn encode(&self, buf: &mut [u8]) -> (r: Result<usize, EncodeError>)
        ensures
            encode_fault(self@) matches Some(e) ==> r == Err::<usize, EncodeError>(e),
            encode_fault(self@).is_none() && wire(self@).len() > old(buf)@.len() ==> r == Err::<
                usize,
                EncodeError,
            >(EncodeError::BufferTooSmall),
            encode_fault(self@).is_none() && wire(self@).len() <= old(buf)@.len() ==> r == Ok::<
                usize,
                EncodeError,
            >(wire(self@).len() as usize) && final(buf)@ == wire(self@) + old(buf)@.skip(
                wire(self@).len() as int,
            ),
            r.is_err() ==> final(buf)@ == old(buf)@,
    {
        let m = Message {
            ty: self.ty,
            code: self.code,
            id: self.id,
            token: self.token,
            options: self.options.as_slice(),
            payload: self.payload,
        };
        encode(&m, buf)
    }
}

} // verus!
