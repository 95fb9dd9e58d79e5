//! Typed access to the options of a decoded message.
use vstd::prelude::*;
use vstd::string::StringSliceAdditionalSpecFns;
use vstd::utf8::valid_utf8;

use super::code::{Code, Type};
use super::option::{opts_of, Opt, OptView};
use super::params::OptionNumber;
use super::problem::text_of;
use super::value::{
    decode_uint, encode_uint, law_uint_round_trip, lemma_uint_octets_len, uint_octets, uint_of,
    BlockValue, ContentFormat, EncodedUint,
};
use super::wire::{MessageView, ParsedMessage};
use crate::bytes::bytes_eq;
use crate::error::{ParseError, ValueError};

verus! {

/// The values of all options with a number, in order.
pub open spec fn values_of(opts: Seq<OptView>, number: u16) -> Seq<Seq<u8>>
    decreases opts.len(),
{
    if opts.len() == 0 {
        Seq::empty()
    } else {
        let front = values_of(opts.drop_last(), number);
        if opts.last().number == number {
            front.push(opts.last().value)
        } else {
            front
        }
    }
}

/// The value of the first option with a number.
pub open spec fn first_value(opts: Seq<OptView>, number: u16) -> Option<Seq<u8>> {
    let all = values_of(opts, number);
    if all.len() == 0 {
        None
    } else {
        Some(all[0])
    }
}

/// The number in the first option with a number.
pub open spec fn uint_option(opts: Seq<OptView>, number: u16, max_len: nat) -> Option<
    Result<u32, ValueError>,
> {
    match first_value(opts, number) {
        Some(v) => Some(uint_of(v, max_len)),
        None => None,
    }
}

/// Is this GET or FETCH with this Observe value? On other methods the option says
/// nothing.
pub open spec fn observes_with(m: MessageView, value: u32) -> bool {
    &&& m.code == Code::GET || m.code == Code::FETCH
    &&& uint_option(m.options, 6, 3) == Some(Ok::<u32, ValueError>(value))
}

/// The content format in the first option with a number.
pub open spec fn format_option(opts: Seq<OptView>, number: u16) -> Option<
    Result<ContentFormat, ValueError>,
> {
    match first_value(opts, number) {
        Some(v) => Some(ContentFormat::of_octets(v)),
        None => None,
    }
}

/// The block descriptor in the first option with a number.
pub open spec fn block_option(opts: Seq<OptView>, number: u16) -> Option<
    Result<BlockValue, ValueError>,
> {
    match first_value(opts, number) {
        Some(v) => Some(BlockValue::of_octets(v)),
        None => None,
    }
}

/// The first critical option that this library does not know.
pub open spec fn unknown_critical_of(opts: Seq<OptView>) -> Option<u16>
    decreases opts.len(),
{
    if opts.len() == 0 {
        None
    } else {
        match unknown_critical_of(opts.drop_last()) {
            Some(n) => Some(n),
            None => if OptionNumber::critical(opts.last().number) && !OptionNumber::known(
                opts.last().number,
            ) {
                Some(opts.last().number)
            } else {
                None
            },
        }
    }
}

/// The first critical option outside the base protocol.
pub open spec fn non_base_critical_of(opts: Seq<OptView>) -> Option<u16>
    decreases opts.len(),
{
    if opts.len() == 0 {
        None
    } else {
        match non_base_critical_of(opts.drop_last()) {
            Some(n) => Some(n),
            None => if OptionNumber::critical(opts.last().number) && !OptionNumber::base(
                opts.last().number,
            ) {
                Some(opts.last().number)
            } else {
                None
            },
        }
    }
}

/// Does a text stand for the octets of an option value?
pub open spec fn text_value(r: Result<&str, ValueError>, octets: Seq<u8>) -> bool {
    match r {
        Ok(s) => valid_utf8(octets) && s.spec_bytes() == octets,
        Err(e) => !valid_utf8(octets) && e == ValueError::InvalidUtf8,
    }
}

/// Views of a list of slices.
pub open spec fn slices_of(s: Seq<&[u8]>) -> Seq<Seq<u8>> {
    Seq::new(s.len(), |i: int| s[i]@)
}

/// The values of all options with a number.
pub fn select<'a>(opts: &[Opt<'a>], number: u16) -> (out: Vec<&'a [u8]>)
    ensures
        slices_of(out@) == values_of(opts_of(opts@), number),
{
    let ghost all = opts_of(opts@);
    let mut out: Vec<&'a [u8]> = Vec::new();
    let mut i: usize = 0;
    assert(slices_of(out@) =~= values_of(all.subrange(0, 0), number));
    while i < opts.len()
        invariant
            all == opts_of(opts@),
            i <= opts@.len(),
            slices_of(out@) == values_of(all.subrange(0, i as int), number),
        decreases opts@.len() - i,
    {
        let opt = opts[i];
        let ghost next = all.subrange(0, i + 1);
        assert(next.drop_last() =~= all.subrange(0, i as int));
        assert(next.last() == opt@);
        let ghost before = slices_of(out@);
        if opt.number() == number {
            out.push(opt.value());
            assert(slices_of(out@) =~= before.push(opt@.value));
        }
        i = i + 1;
    }
    assert(all.subrange(0, i as int) =~= all);
    out
}

/// The value of the first option with a number.
pub fn select_first<'a>(opts: &[Opt<'a>], number: u16) -> (r: Option<&'a [u8]>)
    ensures
        r.is_some() == first_value(opts_of(opts@), number).is_some(),
        r matches Some(v) ==> first_value(opts_of(opts@), number) == Some(v@),
{
    let all = select(opts, number);
    if all.len() == 0 {
        assert(slices_of(all@).len() == 0);
        None
    } else {
        assert(slices_of(all@)[0] == all@[0]@);
        assert(slices_of(all@).len() > 0);
        Some(all[0])
    }
}

/// Texts of all options with a number.
pub fn select_texts<'a>(opts: &[Opt<'a>], number: u16) -> (out: Vec<Result<&'a str, ValueError>>)
    ensures
        out@.len() == values_of(opts_of(opts@), number).len(),
        forall|i: int|
            0 <= i < out@.len() ==> #[trigger] text_value(
                out@[i],
                values_of(opts_of(opts@), number)[i],
            ),
{
    let all = select(opts, number);
    let ghost want = values_of(opts_of(opts@), number);
    let mut out: Vec<Result<&'a str, ValueError>> = Vec::new();
    let mut i: usize = 0;
    while i < all.len()
        invariant
            slices_of(all@) == want,
            i <= all@.len(),
            out@.len() == i,
            forall|k: int| 0 <= k < i ==> #[trigger] text_value(out@[k], want[k]),
        decreases all@.len() - i,
    {
        assert(want[i as int] == all@[i as int]@);
        let text = text_of(all[i]);
        assert(text_value(text, want[i as int]));
        out.push(text);
        i = i + 1;
    }
    assert(want.len() == all@.len());
    out
}

/// Classes of responses that a client does not want.
#[derive(Clone, Copy, Debug, PartialEq, Eq, Structural)]
pub struct NoResponse {
    /// The option's bitmap.
    pub mask: u8,
}

impl NoResponse {
    /// Not interested in 2.xx.
    pub const SUPPRESS_2: u8 = 2;

    /// Not interested in 4.xx.
    pub const SUPPRESS_4: u8 = 8;

    /// Not interested in 5.xx.
    pub const SUPPRESS_5: u8 = 16;

    /// Not interested in any response.
    pub const SUPPRESS_ALL: u8 = 26;

    /// The value with this bitmap.
    pub fn new(mask: u8) -> (v: NoResponse)
        ensures
            v == (NoResponse { mask }),
    {
        NoResponse { mask }
    }

    /// Interested in every response.
    pub fn interested() -> (v: NoResponse)
        ensures
            v == (NoResponse { mask: 0 }),
    {
        NoResponse { mask: 0 }
    }

    /// The bitmap.
    pub fn get(self) -> (mask: u8)
        ensures
            mask == self.mask,
    {
        self.mask
    }

    /// Does the bitmap ask not to send a response with this code?
    pub open spec fn suppressed(self, code: Code) -> bool {
        let class = code.raw() / 32;
        (class == 2 && (self.mask / 2) % 2 == 1) || (class == 4 && (self.mask / 8) % 2 == 1) || (
        class == 5 && (self.mask / 16) % 2 == 1)
    }

    /// Does the bitmap ask not to send a response with this code?
    pub fn suppresses(self, code: Code) -> (b: bool)
        ensures
            b == self.suppressed(code),
    {
        let class: u8 = code.to_raw() / 32;
        (class == 2 && (self.mask / 2) % 2 == 1) || (class == 4 && (self.mask / 8) % 2 == 1) || (
        class == 5 && (self.mask / 16) % 2 == 1)
    }

    /// The option value; an empty bitmap is an empty value.
    pub fn encode(self) -> (e: EncodedUint)
        ensures
            e@ == uint_octets(self.mask as nat),
    {
        encode_uint(self.mask as u32)
    }

    /// The bitmap in an option value.
    pub open spec fn of_octets(octets: Seq<u8>) -> Result<NoResponse, ValueError> {
        match uint_of(octets, 1) {
            Ok(n) => Ok(NoResponse { mask: n as u8 }),
            Err(e) => Err(e),
        }
    }

    /// Decode an option value.
    pub fn decode(octets: &[u8]) -> (r: Result<NoResponse, ValueError>)
        ensures
            r == NoResponse::of_octets(octets@),
    {
        match decode_uint(octets, 1) {
            Ok(n) => Ok(NoResponse { mask: n as u8 }),
            Err(e) => Err(e),
        }
    }

    /// Decoding an encoded bitmap gives the bitmap again.
    pub proof fn law_round_trip(self)
        ensures
            NoResponse::of_octets(uint_octets(self.mask as nat)) == Ok::<NoResponse, ValueError>(
                self,
            ),
    {
        lemma_uint_octets_len(self.mask as nat);
        law_uint_round_trip(self.mask as nat);
    }
}

/// Do the conditional options of a request hold?
#[derive(Clone, Copy, Debug, PartialEq, Eq, Structural)]
pub enum Precondition {
    /// The request may go on.
    Met,
    /// The request must be answered 4.12.
    Failed,
}

/// Does one of the If-Match values match: an empty one any representation, a
/// tag the representation with that ETag?
pub open spec fn any_match(values: Seq<Seq<u8>>, etag: Option<Seq<u8>>) -> bool {
    exists|i: int|
        0 <= i < values.len() && ((#[trigger] values[i]).len() == 0 || etag == Some(values[i]))
}

/// Do the conditional options hold for a resource that exists or not, with
/// the given ETag?
pub open spec fn precondition_of(opts: Seq<OptView>, exists_now: bool, etag: Option<Seq<u8>>) -> Precondition {
    let wanted = values_of(opts, 1);
    if (wanted.len() > 0 && !(exists_now && any_match(wanted, etag))) || (values_of(opts, 5).len()
        > 0 && exists_now) {
        Precondition::Failed
    } else {
        Precondition::Met
    }
}

/// The octets of an optional slice.
pub open spec fn octets_of(s: Option<&[u8]>) -> Option<Seq<u8>> {
    match s {
        Some(b) => Some(b@),
        None => None,
    }
}

impl<'a> ParsedMessage<'a> {
    /// The first option with a number.
    pub fn get_option(&self, number: u16) -> (r: Option<Opt<'a>>)
        ensures
            r.is_some() == first_value(self@.options, number).is_some(),
            r matches Some(o) ==> o@.number == number && first_value(self@.options, number) == Some(
                o@.value,
            ),
    {
        match select_first(self.options(), number) {
            Some(v) => Some(Opt::new(number, v)),
            None => None,
        }
    }

    /// The values of all options with a number.
    pub fn get_options(&self, number: u16) -> (out: Vec<&'a [u8]>)
        ensures
            slices_of(out@) == values_of(self@.options, number),
    {
        select(self.options(), number)
    }

    fn uint(&self, number: u16, max_len: usize) -> (r: Option<Result<u32, ValueError>>)
        requires
            max_len <= 4,
        ensures
            r == uint_option(self@.options, number, max_len as nat),
    {
        match select_first(self.options(), number) {
            Some(v) => Some(decode_uint(v, max_len)),
            None => None,
        }
    }

    fn block(&self, number: u16) -> (r: Option<Result<BlockValue, ValueError>>)
        ensures
            r == block_option(self@.options, number),
            r matches Some(Ok(b)) ==> b.valid(),
    {
        match select_first(self.options(), number) {
            Some(v) => Some(BlockValue::decode(v)),
            None => None,
        }
    }

    fn format(&self, number: u16) -> (r: Option<Result<ContentFormat, ValueError>>)
        ensures
            r == format_option(self@.options, number),
    {
        match select_first(self.options(), number) {
            Some(v) => Some(ContentFormat::decode(v)),
            None => None,
        }
    }

    fn text(&self, number: u16) -> (r: Option<Result<&'a str, ValueError>>)
        ensures
            r.is_some() == first_value(self@.options, number).is_some(),
            r matches Some(t) ==> text_value(t, first_value(self@.options, number)->0),
    {
        match select_first(self.options(), number) {
            Some(v) => Some(text_of(v)),
            None => None,
        }
    }

    /// Content-Format.
    pub fn content_format(&self) -> (r: Option<Result<ContentFormat, ValueError>>)
        ensures
            r == format_option(self@.options, 12),
    {
        self.format(OptionNumber::CONTENT_FORMAT)
    }

    /// Accept.
    pub fn accept(&self) -> (r: Option<Result<ContentFormat, ValueError>>)
        ensures
            r == format_option(self@.options, 17),
    {
        self.format(OptionNumber::ACCEPT)
    }

    /// Observe: zero registers, one deregisters, in a response a sequence number.
    pub fn observe(&self) -> (r: Option<Result<u32, ValueError>>)
        ensures
            r == uint_option(self@.options, 6, 3),
    {
        self.uint(OptionNumber::OBSERVE, 3)
    }

    /// Max-Age in seconds.
    pub fn max_age(&self) -> (r: Option<Result<u32, ValueError>>)
        ensures
            r == uint_option(self@.options, 14, 4),
    {
        self.uint(OptionNumber::MAX_AGE, 4)
    }

    /// Size1 in bytes.
    pub fn size1(&self) -> (r: Option<Result<u32, ValueError>>)
        ensures
            r == uint_option(self@.options, 60, 4),
    {
        self.uint(OptionNumber::SIZE1, 4)
    }

    /// Size2 in bytes.
    pub fn size2(&self) -> (r: Option<Result<u32, ValueError>>)
        ensures
            r == uint_option(self@.options, 28, 4),
    {
        self.uint(OptionNumber::SIZE2, 4)
    }

    /// Uri-Port.
    pub fn uri_port(&self) -> (r: Option<Result<u16, ValueError>>)
        ensures
            r == match uint_option(self@.options, 7, 2) {
                Some(Ok(n)) => Some(Ok(n as u16)),
                Some(Err(e)) => Some(Err(e)),
                None => None,
            },
    {
        match self.uint(OptionNumber::URI_PORT, 2) {
            Some(Ok(n)) => Some(Ok(n as u16)),
            Some(Err(e)) => Some(Err(e)),
            None => None,
        }
    }

    /// Hop-Limit.
    pub fn hop_limit(&self) -> (r: Option<Result<u8, ValueError>>)
        ensures
            r == match uint_option(self@.options, 16, 1) {
                Some(Ok(n)) => Some(Ok(n as u8)),
                Some(Err(e)) => Some(Err(e)),
                None => None,
            },
    {
        match self.uint(OptionNumber::HOP_LIMIT, 1) {
            Some(Ok(n)) => Some(Ok(n as u8)),
            Some(Err(e)) => Some(Err(e)),
            None => None,
        }
    }

    /// Block1.
    pub fn block1(&self) -> (r: Option<Result<BlockValue, ValueError>>)
        ensures
            r == block_option(self@.options, 27),
            r matches Some(Ok(b)) ==> b.valid(),
    {
        self.block(OptionNumber::BLOCK1)
    }

    /// Block2.
    pub fn block2(&self) -> (r: Option<Result<BlockValue, ValueError>>)
        ensures
            r == block_option(self@.options, 23),
            r matches Some(Ok(b)) ==> b.valid(),
    {
        self.block(OptionNumber::BLOCK2)
    }

    /// Q-Block1.
    pub fn q_block1(&self) -> (r: Option<Result<BlockValue, ValueError>>)
        ensures
            r == block_option(self@.options, 19),
            r matches Some(Ok(b)) ==> b.valid(),
    {
        self.block(OptionNumber::Q_BLOCK1)
    }

    /// All Q-Block2 descriptors, in order.
    pub fn q_block2(&self) -> (out: Vec<Result<BlockValue, ValueError>>)
        ensures
            out@.len() == values_of(self@.options, 31).len(),
            forall|i: int|
                0 <= i < out@.len() ==> #[trigger] out@[i] == BlockValue::of_octets(
                    values_of(self@.options, 31)[i],
                ),
            forall|i: int|
                0 <= i < out@.len() ==> (#[trigger] out@[i] matches Ok(b) ==> b.valid()),
    {
        let all = select(self.options(), OptionNumber::Q_BLOCK2);
        let ghost want = values_of(self@.options, 31);
        let mut out: Vec<Result<BlockValue, ValueError>> = Vec::new();
        let mut i: usize = 0;
        while i < all.len()
            invariant
                slices_of(all@) == want,
                i <= all@.len(),
                out@.len() == i,
                forall|k: int| 0 <= k < i ==> #[trigger] out@[k] == BlockValue::of_octets(want[k]),
                forall|k: int| 0 <= k < i ==> (#[trigger] out@[k] matches Ok(b) ==> b.valid()),
            decreases all@.len() - i,
        {
            assert(want[i as int] == all@[i as int]@);
            out.push(BlockValue::decode(all[i]));
            i = i + 1;
        }
        assert(want.len() == all@.len());
        out
    }

    /// All ETags, in order.
    pub fn etag(&self) -> (out: Vec<&'a [u8]>)
        ensures
            slices_of(out@) == values_of(self@.options, 4),
    {
        select(self.options(), OptionNumber::ETAG)
    }

    /// All If-Match values, in order.
    pub fn if_match(&self) -> (out: Vec<&'a [u8]>)
        ensures
            slices_of(out@) == values_of(self@.options, 1),
    {
        select(self.options(), OptionNumber::IF_MATCH)
    }

    /// Is If-None-Match present?
    pub fn if_none_match(&self) -> (b: bool)
        ensures
            b == (values_of(self@.options, 5).len() > 0),
    {
        select_first(self.options(), OptionNumber::IF_NONE_MATCH).is_some()
    }

    /// Do the conditional options hold for a resource that exists or not, with
    /// the given ETag?
    pub fn precondition(&self, exists_now: bool, etag: Option<&[u8]>) -> (p: Precondition)
        ensures
            p == precondition_of(self@.options, exists_now, octets_of(etag)),
    {
        if self.if_none_match() && exists_now {
            return Precondition::Failed;
        }
        let wanted = self.if_match();
        let ghost values = values_of(self@.options, 1);
        assert(values.len() == wanted@.len());
        if wanted.len() == 0 {
            return Precondition::Met;
        }
        if !exists_now {
            return Precondition::Failed;
        }
        let mut i: usize = 0;
        while i < wanted.len()
            invariant
                slices_of(wanted@) == values,
                values == values_of(self@.options, 1),
                values_of(self@.options, 5).len() == 0,
                i <= wanted@.len(),
                exists_now,
                forall|k: int|
                    0 <= k < i ==> !((#[trigger] values[k]).len() == 0 || octets_of(etag) == Some(
                        values[k],
                    )),
            decreases wanted@.len() - i,
        {
            assert(values[i as int] == wanted@[i as int]@);
            let value: &[u8] = wanted[i];
            let same: bool = match etag {
                Some(tag) => bytes_eq(tag, value),
                None => false,
            };
            if value.len() == 0 || same {
                assert(any_match(values, octets_of(etag)));
                return Precondition::Met;
            }
            i = i + 1;
        }
        assert(values.len() == wanted@.len());
        Precondition::Failed
    }

    /// All Request-Tags, in order.
    pub fn request_tag(&self) -> (out: Vec<&'a [u8]>)
        ensures
            slices_of(out@) == values_of(self@.options, 292),
    {
        select(self.options(), OptionNumber::REQUEST_TAG)
    }

    /// The first Echo value.
    pub fn echo(&self) -> (r: Option<&'a [u8]>)
        ensures
            r.is_some() == first_value(self@.options, 252).is_some(),
            r matches Some(v) ==> first_value(self@.options, 252) == Some(v@),
    {
        select_first(self.options(), OptionNumber::ECHO)
    }

    /// The OSCORE value.
    pub fn oscore(&self) -> (r: Option<&'a [u8]>)
        ensures
            r.is_some() == first_value(self@.options, 9).is_some(),
            r matches Some(v) ==> first_value(self@.options, 9) == Some(v@),
    {
        select_first(self.options(), OptionNumber::OSCORE)
    }

    /// No-Response.
    pub fn no_response(&self) -> (r: Option<Result<NoResponse, ValueError>>)
        ensures
            r == match first_value(self@.options, 258) {
                Some(v) => Some(NoResponse::of_octets(v)),
                None => None,
            },
    {
        match select_first(self.options(), OptionNumber::NO_RESPONSE) {
            Some(v) => Some(NoResponse::decode(v)),
            None => None,
        }
    }

    /// Uri-Host.
    pub fn uri_host(&self) -> (r: Option<Result<&'a str, ValueError>>)
        ensures
            r.is_some() == first_value(self@.options, 3).is_some(),
            r matches Some(t) ==> text_value(t, first_value(self@.options, 3)->0),
    {
        self.text(OptionNumber::URI_HOST)
    }

    /// Proxy-Uri.
    pub fn proxy_uri(&self) -> (r: Option<Result<&'a str, ValueError>>)
        ensures
            r.is_some() == first_value(self@.options, 35).is_some(),
            r matches Some(t) ==> text_value(t, first_value(self@.options, 35)->0),
    {
        self.text(OptionNumber::PROXY_URI)
    }

    /// Proxy-Scheme.
    pub fn proxy_scheme(&self) -> (r: Option<Result<&'a str, ValueError>>)
        ensures
            r.is_some() == first_value(self@.options, 39).is_some(),
            r matches Some(t) ==> text_value(t, first_value(self@.options, 39)->0),
    {
        self.text(OptionNumber::PROXY_SCHEME)
    }

    /// Uri-Path segments, in order.
    pub fn uri_path(&self) -> (out: Vec<Result<&'a str, ValueError>>)
        ensures
            out@.len() == values_of(self@.options, 11).len(),
            forall|i: int|
                0 <= i < out@.len() ==> #[trigger] text_value(
                    out@[i],
                    values_of(self@.options, 11)[i],
                ),
    {
        select_texts(self.options(), OptionNumber::URI_PATH)
    }

    /// Uri-Query values, in order.
    pub fn uri_query(&self) -> (out: Vec<Result<&'a str, ValueError>>)
        ensures
            out@.len() == values_of(self@.options, 15).len(),
            forall|i: int|
                0 <= i < out@.len() ==> #[trigger] text_value(
                    out@[i],
                    values_of(self@.options, 15)[i],
                ),
    {
        select_texts(self.options(), OptionNumber::URI_QUERY)
    }

    /// Location-Path segments, in order.
    pub fn location_path(&self) -> (out: Vec<Result<&'a str, ValueError>>)
        ensures
            out@.len() == values_of(self@.options, 8).len(),
            forall|i: int|
                0 <= i < out@.len() ==> #[trigger] text_value(
                    out@[i],
                    values_of(self@.options, 8)[i],
                ),
    {
        select_texts(self.options(), OptionNumber::LOCATION_PATH)
    }

    /// Location-Query values, in order.
    pub fn location_query(&self) -> (out: Vec<Result<&'a str, ValueError>>)
        ensures
            out@.len() == values_of(self@.options, 20).len(),
            forall|i: int|
                0 <= i < out@.len() ==> #[trigger] text_value(
                    out@[i],
                    values_of(self@.options, 20)[i],
                ),
    {
        select_texts(self.options(), OptionNumber::LOCATION_QUERY)
    }

    /// The first critical option that this library does not know.
    pub fn unknown_critical(&self) -> (r: Option<u16>)
        ensures
            r == unknown_critical_of(self@.options),
    {
        let opts = self.options();
        let ghost all = opts_of(opts@);
        let mut i: usize = 0;
        while i < opts.len()
            invariant
                all == opts_of(opts@),
                all == self@.options,
                i <= opts@.len(),
                unknown_critical_of(all.subrange(0, i as int)).is_none(),
            decreases opts@.len() - i,
        {
            let number: u16 = opts[i].number();
            let ghost next = all.subrange(0, i + 1);
            assert(next.drop_last() =~= all.subrange(0, i as int));
            assert(next.last() == opts@[i as int]@);
            if OptionNumber::is_critical(number) && !OptionNumber::is_known(number) {
                proof {
                    lemma_unknown_prefix(all, i + 1);
                }
                return Some(number);
            }
            i = i + 1;
        }
        assert(all.subrange(0, i as int) =~= all);
        None
    }

    /// Are all critical options among those of the base protocol?
    pub fn check_rfc7252_options(&self) -> (r: Result<(), ParseError>)
        ensures
            r == match non_base_critical_of(self@.options) {
                Some(n) => Err::<(), ParseError>(ParseError::UnrecognizedCritical(n)),
                None => Ok(()),
            },
    {
        let opts = self.options();
        let ghost all = opts_of(opts@);
        let mut i: usize = 0;
        while i < opts.len()
            invariant
                all == opts_of(opts@),
                all == self@.options,
                i <= opts@.len(),
                non_base_critical_of(all.subrange(0, i as int)).is_none(),
            decreases opts@.len() - i,
        {
            let number: u16 = opts[i].number();
            let ghost next = all.subrange(0, i + 1);
            assert(next.drop_last() =~= all.subrange(0, i as int));
            assert(next.last() == opts@[i as int]@);
            if OptionNumber::is_critical(number) && !OptionNumber::is_base(number) {
                proof {
                    lemma_non_base_prefix(all, i + 1);
                }
                return Err(ParseError::UnrecognizedCritical(number));
            }
            i = i + 1;
        }
        assert(all.subrange(0, i as int) =~= all);
        Ok(())
    }

    /// Is the code 0.00?
    pub fn is_empty(&self) -> (b: bool)
        ensures
            b == (self@.code.raw() == 0),
    {
        self.code().to_raw() == 0
    }

    /// Is this an empty acknowledgement?
    pub fn is_empty_ack(&self) -> (b: bool)
        ensures
            b == (self@.code.raw() == 0 && self@.ty == Type::Acknowledgement),
    {
        self.is_empty() && self.ty() == Type::Acknowledgement
    }

    /// Is this an empty reset?
    pub fn is_empty_rst(&self) -> (b: bool)
        ensures
            b == (self@.code.raw() == 0 && self@.ty == Type::Reset),
    {
        self.is_empty() && self.ty() == Type::Reset
    }

    /// Is this an empty acknowledgement or reset?
    pub fn is_empty_ack_or_rst(&self) -> (b: bool)
        ensures
            b == (self@.code.raw() == 0 && (self@.ty == Type::Acknowledgement || self@.ty
                == Type::Reset)),
    {
        self.is_empty_ack() || self.is_empty_rst()
    }

    /// Is this GET or FETCH?
    fn may_observe(&self) -> (b: bool)
        ensures
            b == (self@.code == Code::GET || self@.code == Code::FETCH),
    {
        let code = self.code();
        code == Code::GET || code == Code::FETCH
    }

    /// Does the request, GET or FETCH, ask to be registered as an observer?
    pub fn is_observe_register(&self) -> (b: bool)
        ensures
            b == observes_with(self@, 0),
    {
        self.may_observe() && matches!(self.observe(), Some(Ok(0)))
    }

    /// Does the request, GET or FETCH, ask to be removed as an observer?
    pub fn is_observe_deregister(&self) -> (b: bool)
        ensures
            b == observes_with(self@, 1),
    {
        self.may_observe() && matches!(self.observe(), Some(Ok(1)))
    }
}

proof fn lemma_unknown_prefix(opts: Seq<OptView>, n: int)
    requires
        0 <= n <= opts.len(),
        unknown_critical_of(opts.subrange(0, n)).is_some(),
    ensures
        unknown_critical_of(opts) == unknown_critical_of(opts.subrange(0, n)),
    decreases opts.len(),
{
    if n == opts.len() {
        assert(opts.subrange(0, n) =~= opts);
    } else {
        assert(opts.drop_last().subrange(0, n) =~= opts.subrange(0, n));
        lemma_unknown_prefix(opts.drop_last(), n);
    }
}

proof fn lemma_non_base_prefix(opts: Seq<OptView>, n: int)
    requires
        0 <= n <= opts.len(),
        non_base_critical_of(opts.subrange(0, n)).is_some(),
    ensures
        non_base_critical_of(opts) == non_base_critical_of(opts.subrange(0, n)),
    decreases opts.len(),
{
    if n == opts.len() {
        assert(opts.subrange(0, n) =~= opts);
    } else {
        assert(opts.drop_last().subrange(0, n) =~= opts.subrange(0, n));
        lemma_non_base_prefix(opts.drop_last(), n);
    }
}

} // verus!
