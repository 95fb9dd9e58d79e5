//! Options: number and value pairs, and an ordered bounded list of them.
use vstd::prelude::*;
use vstd::string::StringSliceAdditionalSpecFns;

use super::params::OptionNumber;
use super::value::{uint_octets, EncodedUint};
use crate::error::OptionsFull;

verus! {

/// What an option says.
pub struct OptView {
    /// Option number.
    pub number: u16,
    /// Option value.
    pub value: Seq<u8>,
}

/// One option: a number and a borrowed value.
#[derive(Clone, Copy, Debug, PartialEq, Eq)]
pub struct Opt<'a> {
    number: u16,
    value: &'a [u8],
}

impl<'a> View for Opt<'a> {
    type V = OptView;

    closed spec fn view(&self) -> OptView {
        OptView { number: self.number, value: self.value@ }
    }
}

/// What a list of options says.
pub open spec fn opts_of(opts: Seq<Opt<'_>>) -> Seq<OptView> {
    Seq::new(opts.len(), |i: int| opts[i]@)
}

impl<'a> Opt<'a> {
    /// An option with any number.
    pub fn new(number: u16, value: &'a [u8]) -> (o: Opt<'a>)
        ensures
            o@ == (OptView { number, value: value@ }),
    {
        Opt { number, value }
    }

    /// The option number.
    pub fn number(&self) -> (n: u16)
        ensures
            n == self@.number,
    {
        self.number
    }

    /// The option value.
    pub fn value(&self) -> (v: &'a [u8])
        ensures
            v@ == self@.value,
    {
        self.value
    }

    /// Uri-Path segment.
    pub fn uri_path(segment: &'a str) -> (o: Opt<'a>)
        ensures
            o@ == (OptView { number: 11, value: segment.spec_bytes() }),
    {
        Opt::new(OptionNumber::URI_PATH, segment.as_bytes())
    }

    /// Uri-Query value.
    pub fn uri_query(query: &'a str) -> (o: Opt<'a>)
        ensures
            o@ == (OptView { number: 15, value: query.spec_bytes() }),
    {
        Opt::new(OptionNumber::URI_QUERY, query.as_bytes())
    }

    /// Proxy-Uri.
    pub fn proxy_uri(uri: &'a str) -> (o: Opt<'a>)
        ensures
            o@ == (OptView { number: 35, value: uri.spec_bytes() }),
    {
        Opt::new(OptionNumber::PROXY_URI, uri.as_bytes())
    }

    /// Proxy-Scheme.
    pub fn proxy_scheme(scheme: &'a str) -> (o: Opt<'a>)
        ensures
            o@ == (OptView { number: 39, value: scheme.spec_bytes() }),
    {
        Opt::new(OptionNumber::PROXY_SCHEME, scheme.as_bytes())
    }

    /// Location-Path segment.
    pub fn location_path(segment: &'a str) -> (o: Opt<'a>)
        ensures
            o@ == (OptView { number: 8, value: segment.spec_bytes() }),
    {
        Opt::new(OptionNumber::LOCATION_PATH, segment.as_bytes())
    }

    /// Location-Query value.
    pub fn location_query(query: &'a str) -> (o: Opt<'a>)
        ensures
            o@ == (OptView { number: 20, value: query.spec_bytes() }),
    {
        Opt::new(OptionNumber::LOCATION_QUERY, query.as_bytes())
    }

    /// ETag.
    pub fn etag(tag: &'a [u8]) -> (o: Opt<'a>)
        ensures
            o@ == (OptView { number: 4, value: tag@ }),
    {
        Opt::new(OptionNumber::ETAG, tag)
    }

    /// If-Match.
    pub fn if_match(tag: &'a [u8]) -> (o: Opt<'a>)
        ensures
            o@ == (OptView { number: 1, value: tag@ }),
    {
        Opt::new(OptionNumber::IF_MATCH, tag)
    }

    /// If-None-Match.
    pub fn if_none_match() -> (o: Opt<'static>)
        ensures
            o@ == (OptView { number: 5, value: Seq::empty() }),
    {
        let none: &'static [u8] = &[];
        assert(none@ =~= Seq::empty());
        Opt::new(OptionNumber::IF_NONE_MATCH, none)
    }

    /// Observe with an encoded sequence number.
    pub fn observe(seq: &'a EncodedUint) -> (o: Opt<'a>)
        ensures
            o@ == (OptView { number: 6, value: seq@ }),
    {
        Opt::new(OptionNumber::OBSERVE, seq.as_slice())
    }

    /// Observe in a registering request.
    pub fn observe_register() -> (o: Opt<'static>)
        ensures
            o@ == (OptView { number: 6, value: uint_octets(0) }),
    {
        let none: &'static [u8] = &[];
        assert(none@ =~= uint_octets(0));
        Opt::new(OptionNumber::OBSERVE, none)
    }

    /// Observe in a deregistering request.
    pub fn observe_deregister() -> (o: Opt<'static>)
        ensures
            o@ == (OptView { number: 6, value: uint_octets(1) }),
    {
        let one: &'static [u8] = &[1];
        proof {
            reveal_with_fuel(uint_octets, 2);
        }
        assert(one@ =~= uint_octets(1));
        Opt::new(OptionNumber::OBSERVE, one)
    }

    /// Content-Format.
    pub fn content_format(format: &'a EncodedUint) -> (o: Opt<'a>)
        ensures
            o@ == (OptView { number: 12, value: format@ }),
    {
        Opt::new(OptionNumber::CONTENT_FORMAT, format.as_slice())
    }

    /// Accept.
    pub fn accept(format: &'a EncodedUint) -> (o: Opt<'a>)
        ensures
            o@ == (OptView { number: 17, value: format@ }),
    {
        Opt::new(OptionNumber::ACCEPT, format.as_slice())
    }

    /// Max-Age in seconds.
    pub fn max_age(secs: &'a EncodedUint) -> (o: Opt<'a>)
        ensures
            o@ == (OptView { number: 14, value: secs@ }),
    {
        Opt::new(OptionNumber::MAX_AGE, secs.as_slice())
    }

    /// Block1.
    pub fn block1(block: &'a EncodedUint) -> (o: Opt<'a>)
        ensures
            o@ == (OptView { number: 27, value: block@ }),
    {
        Opt::new(OptionNumber::BLOCK1, block.as_slice())
    }

    /// Block2.
    pub fn block2(block: &'a EncodedUint) -> (o: Opt<'a>)
        ensures
            o@ == (OptView { number: 23, value: block@ }),
    {
        Opt::new(OptionNumber::BLOCK2, block.as_slice())
    }

    /// Q-Block1.
    pub fn q_block1(block: &'a EncodedUint) -> (o: Opt<'a>)
        ensures
            o@ == (OptView { number: 19, value: block@ }),
    {
        Opt::new(OptionNumber::Q_BLOCK1, block.as_slice())
    }

    /// Q-Block2.
    pub fn q_block2(block: &'a EncodedUint) -> (o: Opt<'a>)
        ensures
            o@ == (OptView { number: 31, value: block@ }),
    {
        Opt::new(OptionNumber::Q_BLOCK2, block.as_slice())
    }

    /// Size1.
    pub fn size1(size: &'a EncodedUint) -> (o: Opt<'a>)
        ensures
            o@ == (OptView { number: 60, value: size@ }),
    {
        Opt::new(OptionNumber::SIZE1, size.as_slice())
    }

    /// Size2.
    pub fn size2(size: &'a EncodedUint) -> (o: Opt<'a>)
        ensures
            o@ == (OptView { number: 28, value: size@ }),
    {
        Opt::new(OptionNumber::SIZE2, size.as_slice())
    }

    /// Echo.
    pub fn echo(value: &'a [u8]) -> (o: Opt<'a>)
        ensures
            o@ == (OptView { number: 252, value: value@ }),
    {
        Opt::new(OptionNumber::ECHO, value)
    }

    /// No-Response.
    pub fn no_response(bitmap: &'a EncodedUint) -> (o: Opt<'a>)
        ensures
            o@ == (OptView { number: 258, value: bitmap@ }),
    {
        Opt::new(OptionNumber::NO_RESPONSE, bitmap.as_slice())
    }

    /// Request-Tag.
    pub fn request_tag(tag: &'a [u8]) -> (o: Opt<'a>)
        ensures
            o@ == (OptView { number: 292, value: tag@ }),
    {
        Opt::new(OptionNumber::REQUEST_TAG, tag)
    }
}

/// Are the option numbers in non-decreasing order?
pub open spec fn ascending(opts: Seq<OptView>) -> bool {
    forall|i: int, j: int| 0 <= i < j < opts.len() ==> opts[i].number <= opts[j].number
}

/// Where a new option goes: behind all that have a number not above its own.
pub open spec fn insert_point(opts: Seq<OptView>, number: u16) -> int
    decreases opts.len(),
{
    if opts.len() == 0 || opts.last().number <= number {
        opts.len() as int
    } else {
        insert_point(opts.drop_last(), number)
    }
}

/// The list with one more option, in order, equal numbers as they came.
pub open spec fn inserted(opts: Seq<OptView>, opt: OptView) -> Seq<OptView> {
    opts.insert(insert_point(opts, opt.number), opt)
}

/// The insertion point is inside the list and splits it by number.
pub proof fn lemma_insert_point(opts: Seq<OptView>, number: u16)
    requires
        ascending(opts),
    ensures
        0 <= insert_point(opts, number) <= opts.len(),
        forall|i: int| 0 <= i < insert_point(opts, number) ==> opts[i].number <= number,
        forall|i: int|
            insert_point(opts, number) <= i < opts.len() ==> opts[i].number > number,
    decreases opts.len(),
{
    if opts.len() != 0 && opts.last().number > number {
        let front = opts.drop_last();
        assert(forall|i: int| 0 <= i < front.len() ==> front[i] == opts[i]);
        lemma_insert_point(front, number);
    } else if opts.len() != 0 {
        assert(opts[opts.len() - 1] == opts.last());
    }
}

/// Inserting keeps the list in order.
pub proof fn law_inserted_ascending(opts: Seq<OptView>, opt: OptView)
    requires
        ascending(opts),
    ensures
        ascending(inserted(opts, opt)),
        inserted(opts, opt).len() == opts.len() + 1,
{
    lemma_insert_point(opts, opt.number);
}

/// At most `N` options, kept in order of their numbers.
pub struct OptionsBuilder<'a, const N: usize> {
    opts: Vec<Opt<'a>>,
}

impl<'a, const N: usize> View for OptionsBuilder<'a, N> {
    type V = Seq<OptView>;

    closed spec fn view(&self) -> Seq<OptView> {
        opts_of(self.opts@)
    }
}

impl<'a, const N: usize> OptionsBuilder<'a, N> {
    /// An empty list.
    pub fn new() -> (b: Self)
        ensures
            b@ == Seq::<OptView>::empty(),
    {
        let b = OptionsBuilder { opts: Vec::new() };
        assert(b@ =~= Seq::empty());
        b
    }

    /// Add an option in its place. Refused when `N` are held.
    pub fn push(&mut self, opt: Opt<'a>) -> (r: Result<(), OptionsFull>)
        requires
            ascending(old(self)@),
        ensures
            r.is_ok() == (old(self)@.len() < N),
            r.is_ok() ==> final(self)@ == inserted(old(self)@, opt@),
            r.is_err() ==> final(self)@ == old(self)@,
            ascending(final(self)@),
    {
        if self.opts.len() >= N {
            return Err(OptionsFull);
        }
        let mut at: usize = self.opts.len();
        proof {
            lemma_insert_point(self@, opt@.number);
            law_inserted_ascending(self@, opt@);
        }
        while at > 0 && self.opts[at - 1].number() > opt.number()
            invariant
                at <= self.opts@.len(),
                *self == *old(self),
                ascending(self@),
                insert_point(self@, opt@.number) <= at,
                0 <= insert_point(self@, opt@.number),
                forall|i: int|
                    0 <= i < insert_point(self@, opt@.number) ==> self@[i].number <= opt@.number,
            decreases at,
        {
            assert(self@[at - 1] == self.opts@[at - 1]@);
            at = at - 1;
        }
        proof {
            if at > insert_point(self@, opt@.number) {
                lemma_insert_point(self@, opt@.number);
                assert(self@[at - 1] == self.opts@[at - 1]@);
            }
        }
        let ghost before = self.opts@;
        self.opts.insert(at, opt);
        assert(self@ =~= opts_of(before).insert(at as int, opt@));
        Ok(())
    }

    /// The options in order.
    pub fn as_slice(&self) -> (s: &[Opt<'a>])
        ensures
            opts_of(s@) == self@,
    {
        self.opts.as_slice()
    }
}

} // verus!
