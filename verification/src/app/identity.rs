//! Tokens, message identifiers, and retransmission jitter.
use vstd::prelude::*;

use crate::error::BuildError;
use crate::message::echo::be_octets;
use crate::message::value::uint_value;
use crate::message::{MessageId, Token, Transmission};
use crate::storage::engine::Engine;

verus! {

/// A source of cryptographically secure bytes, supplied by the caller.
pub trait RandomSource {
    /// May the source, asked for so many bytes, leave these and tell this?
    ///
    /// Nothing is ruled out, unless a source says more of itself.
    open spec fn may_give(&self, bytes: Seq<u8>, ok: bool) -> bool {
        true
    }

    /// Fill every byte, or tell that this failed.
    fn fill(&self, bytes: &mut [u8]) -> (ok: bool)
        ensures
            final(bytes)@.len() == old(bytes)@.len(),
            self.may_give(final(bytes)@, ok),
    ;
}

/// Why no fresh identity or retransmission schedule could be had.
#[derive(Clone, Copy, Debug, PartialEq, Eq, Structural)]
pub enum IdentityError {
    /// The source failed, or gave no usable sample in the allowed draws.
    RandomnessUnavailable,
    /// The source kept giving tokens in use, or the counter ran out.
    TokenExhausted,
    /// Message identifiers cannot be reused yet.
    MessageIdExhausted,
}

impl IdentityError {
    /// What the error says.
    pub open spec fn message(self) -> Seq<char> {
        match self {
            IdentityError::RandomnessUnavailable => "randomness unavailable"@,
            IdentityError::TokenExhausted => "fresh Token unavailable"@,
            IdentityError::MessageIdExhausted => "Message ID reuse interval has not elapsed"@,
        }
    }

    /// What the error says.
    pub fn text(self) -> (s: &'static str)
        ensures
            s@ == self.message(),
    {
        match self {
            IdentityError::RandomnessUnavailable => "randomness unavailable",
            IdentityError::TokenExhausted => "fresh Token unavailable",
            IdentityError::MessageIdExhausted => "Message ID reuse interval has not elapsed",
        }
    }
}

/// Draws random bytes. Any function from a length to so many bytes, or to none,
/// is one.
pub trait ByteDraw {
    /// May so many bytes be asked for?
    spec fn ready(&self, n: usize) -> bool;

    /// May these bytes, or none, be drawn?
    spec fn gives(&self, n: usize, r: Option<Vec<u8>>) -> bool;

    /// Draw so many bytes.
    fn draw(&self, n: usize) -> (r: Option<Vec<u8>>)
        requires
            self.ready(n),
        ensures
            self.gives(n, r),
    ;
}

impl<F: Fn(usize) -> Option<Vec<u8>>> ByteDraw for F {
    open spec fn ready(&self, n: usize) -> bool {
        call_requires(*self, (n,))
    }

    open spec fn gives(&self, n: usize, r: Option<Vec<u8>>) -> bool {
        call_ensures(*self, (n,), r)
    }

    fn draw(&self, n: usize) -> (r: Option<Vec<u8>>) {
        self(n)
    }
}

/// Where identities come from.
pub enum Source {
    /// The caller's random bytes.
    Random(Box<dyn ByteDraw>),
    /// Counters, for reproducible tests.
    Test,
}

/// The source that draws by a function.
fn source_of<F: 'static + Fn(usize) -> Option<Vec<u8>>>(f: F) -> (s: Source)
    requires
        forall|n: usize| #[trigger] call_requires(f, (n,)),
    ensures
        s matches Source::Random(b) && (forall|n: usize| #[trigger] b.ready(n)) && (forall|
            n: usize,
            v: Option<Vec<u8>>,
        | #[trigger]
            b.gives(n, v) ==> call_ensures(f, (n,), v)),
{
    let ghost kept = f;
    let b: Box<dyn ByteDraw> = Box::new(f);
    assert(forall|n: usize| #[trigger] b.ready(n) == kept.ready(n));
    assert(forall|n: usize, v: Option<Vec<u8>>| #[trigger] b.gives(n, v) == kept.gives(n, v));
    Source::Random(b)
}

/// The bytes of a draw.
pub open spec fn draw_view(r: Option<Vec<u8>>) -> Option<Seq<u8>> {
    match r {
        Some(v) => Some(v@),
        None => None,
    }
}

/// May so many bytes asked from the caller's source be these, or none?
///
/// It is asked once, and what it filled is passed on whole; there is nothing
/// only if it failed.
pub open spec fn drawn_from<S: RandomSource>(source: &S, n: usize, r: Option<Seq<u8>>) -> bool {
    exists|bytes: Seq<u8>, ok: bool|
        bytes.len() == n && #[trigger] source.may_give(bytes, ok) && r == if ok {
            Some(bytes)
        } else {
            None
        }
}

/// Ask the caller's source for so many bytes.
fn ask<S: RandomSource>(source: &S, n: usize) -> (r: Option<Vec<u8>>)
    ensures
        drawn_from(source, n, draw_view(r)),
{
    let mut bytes: Vec<u8> = Vec::new();
    bytes.resize(n, 0);
    let ok: bool = source.fill(bytes.as_mut_slice());
    assert(source.may_give(bytes@, ok));
    if ok {
        Some(bytes)
    } else {
        None
    }
}

/// Identities that were given out, and those to come.
pub struct AppIds {
    /// Where identities come from.
    pub source: Source,
    /// The next message identifier.
    pub next_mid: u16,
    /// How many were given out in this round of the identifier space.
    pub issued: u32,
    /// The latest time at which one was given out.
    pub last_mid_ms: u64,
    /// The jitter drawn with the latest one.
    pub jitter: u32,
    /// The latest test token.
    pub test_token: u32,
    /// Every draw from a random source, in order.
    pub draws: Ghost<Seq<Draw>>,
}

/// The identifier after this one.
pub open spec fn following(mid: u16) -> u16 {
    if mid == u16::MAX {
        0
    } else {
        (mid + 1) as u16
    }
}

/// The jitter in a random number: none for the few numbers at the top that
/// would make small values likelier.
pub open spec fn jitter_in(value: u32) -> Option<u32> {
    if value < 4294967295u32 - 4294967295u32 % 1001u32 {
        Some((value % 1001) as u32)
    } else {
        None
    }
}

/// The jitter in a random number.
pub fn jitter_of(value: u32) -> (r: Option<u32>)
    ensures
        r == jitter_in(value),
        r matches Some(j) ==> j <= Transmission::ACK_RANDOM_SPAN_MS,
{
    let width: u32 = Transmission::ACK_RANDOM_SPAN_MS + 1;
    let limit: u32 = u32::MAX - (u32::MAX % width);
    if value < limit {
        Some(value % width)
    } else {
        None
    }
}

/// The number in four random bytes.
pub fn number_in(bytes: &[u8]) -> (n: u32)
    requires
        bytes@.len() == 4,
    ensures
        n as nat == uint_value(bytes@),
{
    proof {
        reveal_with_fuel(uint_value, 5);
    }
    match crate::message::value::decode_uint(bytes, 4) {
        Ok(n) => n,
        Err(_) => 0,
    }
}

/// Every jitter from zero to the span is drawn from equally many numbers.
pub proof fn law_jitter_unbiased(j: u32, k: u32)
    requires
        j <= 1000,
        k < 4290676,
    ensures
        jitter_in((k * 1001 + j) as u32) == Some(j),
        k * 1001 + j <= u32::MAX,
        4294967295u32 - 4294967295u32 % 1001u32 == 4290676 * 1001,
{
    assert((k * 1001 + j) % 1001 == j) by (nonlinear_arith)
        requires
            j <= 1000,
    ;
}

/// May so many bytes drawn from a source be these, or none? There are none
/// without a random source.
pub open spec fn drawn(source: Source, n: usize, r: Option<Seq<u8>>) -> bool {
    match source {
        Source::Test => r.is_none(),
        Source::Random(s) => exists|v: Option<Vec<u8>>| #[trigger]
            s.gives(n, v) && r == draw_view(v),
    }
}

/// One draw of random bytes: how many were asked for, and what was given.
pub struct Draw {
    /// How many bytes were asked for.
    pub n: usize,
    /// The bytes; none if the source failed.
    pub r: Option<Seq<u8>>,
}

/// How often a source is asked before its answers are held to be unusable.
pub const MAX_DRAWS: u8 = 8;

/// The record of draws grew by a search: so many bytes were drawn until a draw
/// failed or gave usable ones, and at most [`MAX_DRAWS`] times.
pub open spec fn searched(
    source: Source,
    n: usize,
    before: Seq<Draw>,
    after: Seq<Draw>,
    usable: spec_fn(Seq<u8>) -> bool,
) -> bool {
    &&& before.len() < after.len() <= before.len() + MAX_DRAWS
    &&& after.subrange(0, before.len() as int) == before
    &&& forall|i: int|
        before.len() <= i < after.len() ==> (#[trigger] after[i]).n == n && drawn(
            source,
            n,
            after[i].r,
        )
    &&& forall|i: int|
        before.len() <= i < after.len() - 1 ==> ((#[trigger] after[i]).r matches Some(b)
            && !usable(b))
    &&& (after.last().r matches Some(b) && !usable(b)) ==> after.len() == before.len() + MAX_DRAWS
}

/// Do four random bytes hold a jitter?
pub open spec fn holds_jitter(b: Seq<u8>) -> bool {
    jitter_in(uint_value(b) as u32).is_some()
}

/// What a search for a jitter gives: that in the last draw. Test sources are not
/// asked.
pub open spec fn jitter_sampled(
    source: Source,
    before: Seq<Draw>,
    after: Seq<Draw>,
    r: Result<u32, IdentityError>,
) -> bool {
    match source {
        Source::Test => after == before && r == Ok::<u32, IdentityError>(0),
        Source::Random(_) => {
            &&& searched(source, 4, before, after, |b: Seq<u8>| holds_jitter(b))
            &&& r == match after.last().r {
                Some(b) => match jitter_in(uint_value(b) as u32) {
                    Some(j) => Ok::<u32, IdentityError>(j),
                    None => Err(IdentityError::RandomnessUnavailable),
                },
                None => Err(IdentityError::RandomnessUnavailable),
            }
        },
    }
}

impl Source {
    /// Can any number of bytes be asked for, and are they given in full?
    pub open spec fn wf(&self) -> bool {
        match self {
            Source::Test => true,
            Source::Random(s) => {
                &&& forall|n: usize| #[trigger] s.ready(n)
                &&& forall|n: usize, v: Vec<u8>| #[trigger]
                    s.gives(n, Some(v)) ==> v@.len() == n
            },
        }
    }

    /// The caller's random bytes.
    pub fn random<S: RandomSource + 'static>(source: S) -> (r: Source)
        ensures
            r.wf(),
            r is Random,
            forall|n: usize, out: Option<Seq<u8>>| #[trigger]
                drawn(r, n, out) ==> drawn_from(&source, n, out),
    {
        let ghost given = source;
        let f = move |n: usize| -> (r: Option<Vec<u8>>)
            ensures
                drawn_from(&source, n, draw_view(r)),
            { ask(&source, n) };
        let s = source_of(f);
        proof {
            let b = s->Random_0;
            assert forall|n: usize, v: Option<Vec<u8>>| #[trigger] b.gives(n, v) implies drawn_from(
                &given,
                n,
                draw_view(v),
            ) by {
                assert(call_ensures(f, (n,), v));
            }
            assert forall|n: usize, v: Vec<u8>| #[trigger] b.gives(n, Some(v)) implies v@.len()
                == n by {
                assert(drawn_from(&given, n, draw_view(Some(v))));
            }
            assert forall|n: usize, out: Option<Seq<u8>>| #[trigger] drawn(s, n, out) implies drawn_from(
                &given,
                n,
                out,
            ) by {
                match s {
                    Source::Random(kept) => {
                        let v = choose|v: Option<Vec<u8>>| #[trigger]
                            kept.gives(n, v) && out == draw_view(v);
                        assert(kept.gives(n, v));
                        assert(b.gives(n, v));
                    },
                    Source::Test => {},
                }
            }
        }
        s
    }

    /// Draw so many bytes.
    fn draw(&self, n: usize) -> (r: Option<Vec<u8>>)
        requires
            self.wf(),
        ensures
            drawn(*self, n, draw_view(r)),
            r matches Some(v) ==> v@.len() == n,
    {
        match self {
            Source::Test => {
                let r: Option<Vec<u8>> = None;
                assert(draw_view(r).is_none());
                r
            },
            Source::Random(source) => {
                let r = source.draw(n);
                assert(source.gives(n, r));
                r
            },
        }
    }
}

impl AppIds {
    /// At most the whole identifier space is given out in a round.
    pub open spec fn wf(&self) -> bool {
        self.issued <= 65536 && self.jitter <= Transmission::ACK_RANDOM_SPAN_MS && self.source.wf()
    }

    /// Is the identifier space used up, and not old enough to be reused?
    pub open spec fn resting(&self, now_ms: u64) -> bool {
        self.issued == 65536 && now_ms - self.last_mid_ms < Transmission::EXCHANGE_LIFETIME_MS
    }

    /// Identities from a source; without one there are none.
    pub fn new(source: Option<Source>) -> (r: Result<AppIds, BuildError>)
        requires
            source matches Some(s) ==> s.wf(),
        ensures
            source.is_none() ==> (r matches Err(e) && e == BuildError::RandomnessRequired),
            source matches Some(Source::Test) ==> (r matches Ok(ids) && ids.next_mid == 1),
            source matches Some(Source::Test) ==> (r matches Ok(ids) && ids.draws@.len() == 0),
            source matches Some(s) ==> (s is Random ==> match r {
                Ok(ids) => exists|b: Seq<u8>| #[trigger]
                    drawn(s, 2, Some(b)) && ids.next_mid == uint_value(b) && ids.draws@ == seq![
                        Draw { n: 2, r: Some(b) },
                    ],
                Err(e) => e == BuildError::RandomnessUnavailable && drawn(s, 2, None),
            }),
            r matches Ok(ids) ==> ids.wf() && ids.issued == 0 && ids.last_mid_ms == 0 && ids.jitter
                == 0 && ids.test_token == 0 && source == Some(ids.source),
    {
        let source = match source {
            Some(source) => source,
            None => return Err(BuildError::RandomnessRequired),
        };
        let ghost mut draws = Seq::<Draw>::empty();
        let next_mid: u16 = match &source {
            Source::Test => 1,
            Source::Random(_) => match source.draw(2) {
                Some(bytes) => {
                    proof {
                        reveal_with_fuel(uint_value, 3);
                        assert(drawn(source, 2, Some(bytes@)));
                        draws = seq![Draw { n: 2, r: Some(bytes@) }];
                    }
                    bytes[0] as u16 * 256 + bytes[1] as u16
                },
                None => return Err(BuildError::RandomnessUnavailable),
            },
        };
        Ok(
            AppIds {
                source,
                next_mid,
                issued: 0,
                last_mid_ms: 0,
                jitter: 0,
                test_token: 0,
                draws: Ghost(draws),
            },
        )
    }

    /// Only more was drawn.
    pub open spec fn drew(&self, then: AppIds) -> bool {
        then == (AppIds { draws: then.draws, ..*self })
    }

    /// Draw so many bytes, and record it.
    fn draw(&mut self, n: usize) -> (r: Option<Vec<u8>>)
        requires
            old(self).wf(),
        ensures
            final(self).wf(),
            old(self).drew(*final(self)),
            final(self).draws@ == old(self).draws@.push(Draw { n, r: draw_view(r) }),
            drawn(old(self).source, n, draw_view(r)),
            r matches Some(v) ==> v@.len() == n,
    {
        let r = self.source.draw(n);
        self.draws = Ghost(self.draws@.push(Draw { n, r: draw_view(r) }));
        r
    }

    /// A token: eight random bytes, or the next count as four.
    pub fn token(&mut self) -> (r: Result<Token, IdentityError>)
        requires
            old(self).wf(),
        ensures
            final(self).wf(),
            match old(self).source {
                Source::Test => if old(self).test_token == u32::MAX {
                    r == Err::<Token, IdentityError>(IdentityError::TokenExhausted)
                        && *final(self) == *old(self)
                } else {
                    r matches Ok(t) && t@ == be_octets((old(self).test_token + 1) as nat, 4)
                        && *final(self) == (AppIds {
                        test_token: (old(self).test_token + 1) as u32,
                        ..*old(self)
                    })
                },
                Source::Random(_) => {
                    let given = match r {
                        Ok(t) => Some(t@),
                        Err(_) => None,
                    };
                    &&& old(self).drew(*final(self))
                    &&& final(self).draws@ == old(self).draws@.push(Draw { n: 8, r: given })
                    &&& drawn(old(self).source, 8, given)
                    &&& r matches Err(e) ==> e == IdentityError::RandomnessUnavailable
                },
            },
    {
        match &self.source {
            Source::Test => {
                if self.test_token == u32::MAX {
                    return Err(IdentityError::TokenExhausted);
                }
                let n: u32 = self.test_token + 1;
                self.test_token = n;
                let bytes: [u8; 4] = [
                    (n / 0x1000000) as u8,
                    ((n / 0x10000) % 256) as u8,
                    ((n / 0x100) % 256) as u8,
                    (n % 256) as u8,
                ];
                proof {
                    reveal_with_fuel(be_octets, 5);
                    assert(n / 256 / 256 == n / 0x10000);
                    assert(n / 256 / 256 / 256 == n / 0x1000000);
                    assert(bytes@ =~= be_octets(n as nat, 4));
                }
                Ok(Token::from_checked(bytes.as_slice()))
            },
            Source::Random(_) => match self.draw(8) {
                Some(bytes) => Ok(Token::from_checked(bytes.as_slice())),
                None => Err(IdentityError::RandomnessUnavailable),
            },
        }
    }

    /// Draw a jitter.
    fn sample_jitter(&mut self) -> (r: Result<u32, IdentityError>)
        requires
            old(self).wf(),
        ensures
            final(self).wf(),
            old(self).drew(*final(self)),
            jitter_sampled(old(self).source, old(self).draws@, final(self).draws@, r),
            r matches Ok(j) ==> j <= Transmission::ACK_RANDOM_SPAN_MS,
    {
        let ghost first = *self;
        match &self.source {
            Source::Test => return Ok(0),
            Source::Random(_) => {},
        }
        let mut tries: u8 = 0;
        assert(first.draws@.subrange(0, first.draws@.len() as int) =~= first.draws@);
        while tries < MAX_DRAWS
            invariant
                tries <= MAX_DRAWS,
                self.wf(),
                first == *old(self),
                first.source is Random,
                first.drew(*self),
                self.draws@.len() == first.draws@.len() + tries,
                self.draws@.subrange(0, first.draws@.len() as int) == first.draws@,
                forall|i: int|
                    first.draws@.len() <= i < self.draws@.len() ==> (#[trigger] self.draws@[i]).n
                        == 4 && drawn(first.source, 4, self.draws@[i].r) && (
                    self.draws@[i].r matches Some(b) && !holds_jitter(b)),
            decreases MAX_DRAWS - tries,
        {
            let ghost before = self.draws@;
            let drawn_bytes = self.draw(4);
            proof {
                let after = self.draws@;
                assert(after.subrange(0, first.draws@.len() as int) =~= before.subrange(
                    0,
                    first.draws@.len() as int,
                ));
                assert forall|i: int| first.draws@.len() <= i < after.len() - 1 implies (
                #[trigger] after[i]).n == 4 && drawn(first.source, 4, after[i].r) && (
                after[i].r matches Some(b) && !holds_jitter(b)) by {
                    assert(after[i] == before[i]);
                }
            }
            let bytes = match drawn_bytes {
                Some(bytes) => bytes,
                None => return Err(IdentityError::RandomnessUnavailable),
            };
            if let Some(j) = jitter_of(number_in(bytes.as_slice())) {
                return Ok(j);
            }
            tries = tries + 1;
        }
        Err(IdentityError::RandomnessUnavailable)
    }

    /// The identities after one more message identifier was given out.
    pub open spec fn stepped(&self, now_ms: u64, jitter: u32) -> AppIds {
        AppIds {
            next_mid: following(self.next_mid),
            issued: if self.issued == 65536 {
                1
            } else {
                (self.issued + 1) as u32
            },
            last_mid_ms: if now_ms > self.last_mid_ms {
                now_ms
            } else {
                self.last_mid_ms
            },
            jitter,
            ..*self
        }
    }

    /// One more message identifier was given out, with a jitter that was drawn
    /// for it.
    pub open spec fn gave(&self, then: AppIds, now_ms: u64) -> bool {
        &&& then == (AppIds { draws: then.draws, ..self.stepped(now_ms, then.jitter) })
        &&& jitter_sampled(self.source, self.draws@, then.draws@, Ok(then.jitter))
    }

    /// The next message identifier, with a jitter for its first timeout.
    ///
    /// After 65536 of them, the next waits until the exchange lifetime has
    /// passed since the latest one; a clock that goes back does not shorten
    /// the wait.
    pub fn next(&mut self, now_ms: u64) -> (r: Result<MessageId, IdentityError>)
        requires
            old(self).wf(),
        ensures
            final(self).wf(),
            if old(self).resting(now_ms) {
                r == Err::<MessageId, IdentityError>(IdentityError::MessageIdExhausted)
                    && *final(self) == *old(self)
            } else {
                match r {
                    Ok(mid) => mid.raw == old(self).next_mid && old(self).gave(
                        *final(self),
                        now_ms,
                    ),
                    Err(e) => e == IdentityError::RandomnessUnavailable && old(self).drew(
                        *final(self),
                    ) && jitter_sampled(
                        old(self).source,
                        old(self).draws@,
                        final(self).draws@,
                        Err(e),
                    ),
                }
            },
    {
        let since: u64 = if now_ms > self.last_mid_ms {
            now_ms - self.last_mid_ms
        } else {
            0
        };
        if self.issued == 65536 && since < Transmission::EXCHANGE_LIFETIME_MS as u64 {
            return Err(IdentityError::MessageIdExhausted);
        }
        let jitter: u32 = match self.sample_jitter() {
            Ok(jitter) => jitter,
            Err(e) => return Err(e),
        };
        if self.issued == 65536 {
            self.issued = 0;
        }
        let mid = MessageId::new(self.next_mid);
        self.next_mid =
        if self.next_mid == u16::MAX {
            0
        } else {
            self.next_mid + 1
        };
        self.issued = self.issued + 1;
        if now_ms > self.last_mid_ms {
            self.last_mid_ms = now_ms;
        }
        self.jitter = jitter;
        Ok(mid)
    }

    /// Does any confirmable message wait for its acknowledgement?
    pub open spec fn busy(engine: Engine) -> bool {
        exists|i: int| 0 <= i < engine.pending@.len() && (#[trigger] engine.pending@[i]).is_some()
    }

    /// Is there no message identifier for now?
    pub open spec fn exhausted(&self, engine: Engine, now_ms: u64) -> bool {
        self.resting(now_ms) || (self.issued == 65536 && AppIds::busy(engine))
    }

    /// Is this why there is no message identifier? Nothing changes but what was
    /// drawn for its jitter.
    pub open spec fn refuses(
        &self,
        then: AppIds,
        engine: Engine,
        now_ms: u64,
        e: IdentityError,
    ) -> bool {
        if self.exhausted(engine, now_ms) {
            e == IdentityError::MessageIdExhausted && then == *self
        } else {
            &&& e == IdentityError::RandomnessUnavailable
            &&& self.drew(then)
            &&& jitter_sampled(self.source, self.draws@, then.draws@, Err(e))
        }
    }

    /// The next message identifier; a new round of the identifier space also
    /// waits until no message waits for its acknowledgement.
    pub fn next_for(&mut self, engine: &Engine, now_ms: u64) -> (r: Result<MessageId, IdentityError>)
        requires
            old(self).wf(),
        ensures
            final(self).wf(),
            match r {
                Ok(mid) => mid.raw == old(self).next_mid && !old(self).exhausted(*engine, now_ms)
                    && old(self).gave(*final(self), now_ms),
                Err(e) => old(self).refuses(*final(self), *engine, now_ms, e),
            },
    {
        if self.issued == 65536 {
            let mut i: usize = 0;
            while i < engine.pending.len()
                invariant
                    *self == *old(self),
                    self.wf(),
                    self.issued == 65536,
                    i <= engine.pending@.len(),
                    forall|k: int| 0 <= k < i ==> (#[trigger] engine.pending@[k]).is_none(),
                decreases engine.pending@.len() - i,
            {
                if engine.pending[i].is_some() {
                    assert(AppIds::busy(*engine));
                    return Err(IdentityError::MessageIdExhausted);
                }
                i = i + 1;
            }
        }
        self.next(now_ms)
    }

    /// The jitter drawn with the latest message identifier.
    pub fn jitter(&self) -> (j: u32)
        ensures
            j == self.jitter,
    {
        self.jitter
    }

    /// How many identifiers were given out in this round.
    pub fn issued(&self) -> (n: u32)
        ensures
            n == self.issued,
    {
        self.issued
    }
}

/// The identifier that comes this many after another.
pub open spec fn mid_after(mid: u16, k: int) -> u16 {
    ((mid + k) % 65536) as u16
}

/// The identifier one further on.
pub proof fn lemma_mid_after(mid: u16, k: int)
    requires
        0 <= k,
    ensures
        following(mid_after(mid, k)) == mid_after(mid, k + 1),
        mid_after(mid, 0) == mid,
{
    let at = mid + k;
    assert(0 <= at % 65536 < 65536);
    assert((at + 1) % 65536 == if at % 65536 == 65535 {
        0
    } else {
        at % 65536 + 1
    }) by (nonlinear_arith)
        requires
            0 <= at,
    ;
}

/// So many message identifiers were given out one after the other, each while
/// there was one.
pub open spec fn ids_run(a: AppIds, b: AppIds, e: Engine, now_ms: u64, n: nat) -> bool
    decreases n,
{
    if n == 0 {
        b == a
    } else {
        exists|c: AppIds|
            ids_run(a, c, e, now_ms, (n - 1) as nat) && !c.exhausted(e, now_ms)
                && #[trigger] c.gave(b, now_ms)
    }
}

/// One more message identifier makes a run longer.
pub proof fn lemma_run_longer(
    a: AppIds,
    b: AppIds,
    c: AppIds,
    e: Engine,
    f: Engine,
    now_ms: u64,
    n: nat,
)
    requires
        ids_run(a, b, e, now_ms, n),
        f.pending@ == e.pending@,
        !b.exhausted(f, now_ms),
        b.gave(c, now_ms),
    ensures
        ids_run(a, c, e, now_ms, n + 1),
{
    assert(AppIds::busy(f) == AppIds::busy(e));
}

/// The 65536 identifiers of a round are all different.
pub proof fn law_round_distinct(start: u16, j: nat, k: nat)
    requires
        j < k < 65536,
    ensures
        mid_after(start, j as int) != mid_after(start, k as int),
{
}

/// Giving out identifiers walks through the identifier space in order.
pub proof fn law_walk(start: u16, k: nat, ids: AppIds, now_ms: u64, jitter: u32)
    requires
        ids.next_mid == mid_after(start, k as int),
    ensures
        ids.stepped(now_ms, jitter).next_mid == mid_after(start, k as int + 1),
{
    lemma_mid_after(start, k as int);
}

} // verus!
