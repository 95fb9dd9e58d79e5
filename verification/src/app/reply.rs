//! Responses as messages.
use vstd::prelude::*;
use vstd::string::StringSliceAdditionalSpecFns;

use super::path::texts_of;
use super::response::{titled_problem, Response, ResponseView};
use crate::error::EncodeError;
use crate::message::option::{ascending, inserted, law_inserted_ascending, OptView};
use crate::message::value::uint_octets;
use crate::message::wire::MessageView;
use crate::message::{
    encode_uint, BlockValue, Code, ContentFormat, EncodedUint, Message, MessageId, Opt,
    OptionNumber, OptionsBuilder, Token, Type,
};
use crate::storage::endpoint::{Endpoint, SlotId};
use crate::storage::engine::{holds, stage_verdict, EncodeFailure, Engine, Store};

verus! {

/// Options that a response has at most.
pub const REPLY_OPTIONS: usize = 24;

/// A block option that goes with a response.
#[derive(Clone, Copy, Debug, PartialEq, Eq)]
pub struct BlockOpt {
    /// The descriptor.
    pub value: BlockValue,
    /// Is it one of the windowed kind?
    pub q_block: bool,
    /// The length of the whole body.
    pub size2: Option<u32>,
}

/// The list with one more option, if there is a value.
pub open spec fn with_opt(opts: Seq<OptView>, number: u16, value: Option<Seq<u8>>) -> Seq<OptView> {
    match value {
        Some(v) => inserted(opts, OptView { number, value: v }),
        None => opts,
    }
}

/// The list with one more option for each value.
pub open spec fn with_opts(opts: Seq<OptView>, number: u16, values: Seq<Seq<u8>>) -> Seq<OptView>
    decreases values.len(),
{
    if values.len() == 0 {
        opts
    } else {
        inserted(
            with_opts(opts, number, values.drop_last()),
            OptView { number, value: values.last() },
        )
    }
}

/// The value of an optional number.
pub open spec fn opt_uint(n: Option<u32>) -> Option<Seq<u8>> {
    match n {
        Some(n) => Some(uint_octets(n as nat)),
        None => None,
    }
}

/// The value of an optional content format.
pub open spec fn opt_format(f: Option<ContentFormat>) -> Option<Seq<u8>> {
    match f {
        Some(f) => Some(uint_octets(f.number() as nat)),
        None => None,
    }
}

/// The value of an optional block descriptor.
pub open spec fn opt_block(b: Option<BlockValue>) -> Option<Seq<u8>> {
    match b {
        Some(b) => Some(uint_octets(b.packed())),
        None => None,
    }
}

/// The number of an Observe option, 24 bits.
pub open spec fn opt_observe(n: Option<u32>) -> Option<Seq<u8>> {
    match n {
        Some(n) => Some(uint_octets((n % 0x1000000) as nat)),
        None => None,
    }
}

/// The list with the block options of a response body.
pub open spec fn with_block(opts: Seq<OptView>, block: Option<BlockOpt>) -> Seq<OptView> {
    match block {
        None => opts,
        Some(b) => if b.q_block {
            with_opt(
                with_opt(opts, 28, opt_uint(b.size2)),
                31,
                Some(uint_octets(b.value.packed())),
            )
        } else {
            with_opt(opts, 23, Some(uint_octets(b.value.packed())))
        },
    }
}

/// The list with the acknowledged block of a request body.
pub open spec fn with_block1(opts: Seq<OptView>, block1: Option<BlockOpt>) -> Seq<OptView> {
    match block1 {
        None => opts,
        Some(b) => with_opt(
            opts,
            if b.q_block {
                19
            } else {
                27
            },
            Some(uint_octets(b.value.packed())),
        ),
    }
}

/// The options of a response, up to its locations.
pub open spec fn lead_options(r: ResponseView) -> Seq<OptView> {
    with_opts(
        with_opt(
            with_opt(
                with_opts(
                    with_opt(with_opt(Seq::empty(), 4, r.etag), 6, opt_observe(r.observe)),
                    8,
                    r.location_paths,
                ),
                12,
                opt_format(r.format),
            ),
            14,
            opt_uint(r.max_age),
        ),
        20,
        r.location_queries,
    )
}

/// The options of a response.
pub open spec fn reply_options(
    r: ResponseView,
    block: Option<BlockOpt>,
    block1: Option<BlockOpt>,
) -> Seq<OptView> {
    with_opt(with_block1(with_block(lead_options(r), block), block1), 252, r.echo)
}

/// One if there is a value.
pub open spec fn one<A>(o: Option<A>) -> nat {
    if o.is_some() {
        1
    } else {
        0
    }
}

/// How many options a response has.
pub open spec fn reply_option_count(
    r: ResponseView,
    block: Option<BlockOpt>,
    block1: Option<BlockOpt>,
) -> nat {
    one(r.etag) + one(r.observe) + r.location_paths.len() + one(r.format) + one(r.max_age)
        + r.location_queries.len() + (match block {
        Some(b) => if b.q_block {
            1 + one(b.size2)
        } else {
            1
        },
        None => 0,
    }) + one(block1) + one(r.echo)
}

/// The message of a response whose options do not fit.
pub open spec fn options_full_message(ty: Type, mid: u16, token: Seq<u8>) -> MessageView {
    let r = titled_problem(Code::INTERNAL_SERVER_ERROR, "Options full".spec_bytes());
    MessageView {
        ty,
        code: Code::INTERNAL_SERVER_ERROR,
        id: mid,
        token,
        options: with_opt(Seq::empty(), 12, opt_format(r.format)),
        payload: r.payload,
    }
}

/// The message of a response: its options, and the given piece of its payload.
pub open spec fn reply_message(
    r: ResponseView,
    ty: Type,
    mid: u16,
    token: Seq<u8>,
    payload: Seq<u8>,
    block: Option<BlockOpt>,
    block1: Option<BlockOpt>,
) -> MessageView {
    if reply_option_count(r, block, block1) <= REPLY_OPTIONS {
        MessageView {
            ty,
            code: r.code,
            id: mid,
            token,
            options: reply_options(r, block, block1),
            payload,
        }
    } else {
        options_full_message(ty, mid, token)
    }
}

/// The message of a notification: its own few options.
pub open spec fn notification_message(
    r: ResponseView,
    ty: Type,
    mid: u16,
    token: Seq<u8>,
) -> MessageView {
    MessageView {
        ty,
        code: r.code,
        id: mid,
        token,
        options: with_opt(
            with_opt(
                with_opt(with_opt(Seq::empty(), 4, r.etag), 6, opt_observe(r.observe)),
                12,
                opt_format(r.format),
            ),
            14,
            opt_uint(r.max_age),
        ),
        payload: r.payload,
    }
}

/// Add an option to a list that has room.
pub fn push_opt<'a, const N: usize>(b: &mut OptionsBuilder<'a, N>, opt: Opt<'a>) -> (r: Result<
    (),
    EncodeError,
>)
    requires
        ascending(old(b)@),
    ensures
        ascending(final(b)@),
        r.is_ok() == (old(b)@.len() < N),
        r.is_ok() ==> final(b)@ == inserted(old(b)@, opt@) && final(b)@.len() == old(b)@.len() + 1,
        r.is_err() ==> r == Err::<(), EncodeError>(EncodeError::OptionsFull) && final(b)@ == old(
            b)@,
{
    proof {
        law_inserted_ascending(b@, opt@);
    }
    match b.push(opt) {
        Ok(()) => Ok(()),
        Err(_) => Err(EncodeError::OptionsFull),
    }
}

/// Add an option, if there is a value, to a list that has room.
pub fn add_opt<'a, const N: usize>(
    b: &mut OptionsBuilder<'a, N>,
    number: u16,
    value: Option<&'a [u8]>,
)
    requires
        ascending(old(b)@),
        value.is_some() ==> old(b)@.len() < N,
    ensures
        ascending(final(b)@),
        final(b)@ == with_opt(
            old(b)@,
            number,
            match value {
                Some(v) => Some(v@),
                None => None,
            },
        ),
        final(b)@.len() == old(b)@.len() + one(value),
{
    if let Some(v) = value {
        let _ = push_opt(b, Opt::new(number, v));
    }
}

/// Add an option for each text to a list that has room.
pub fn add_texts<'a, const N: usize>(
    b: &mut OptionsBuilder<'a, N>,
    number: u16,
    texts: &[&'a str],
)
    requires
        ascending(old(b)@),
        old(b)@.len() + texts@.len() <= N,
    ensures
        ascending(final(b)@),
        final(b)@ == with_opts(old(b)@, number, texts_of(texts@)),
        final(b)@.len() == old(b)@.len() + texts@.len(),
{
    let ghost first = b@;
    let ghost all = texts_of(texts@);
    let mut i: usize = 0;
    assert(b@ == with_opts(first, number, all.subrange(0, 0)));
    while i < texts.len()
        invariant
            all == texts_of(texts@),
            i <= texts@.len(),
            first.len() + texts@.len() <= N,
            ascending(b@),
            b@.len() == first.len() + i,
            b@ == with_opts(first, number, all.subrange(0, i as int)),
        decreases texts@.len() - i,
    {
        let ghost next = all.subrange(0, i + 1);
        assert(next.drop_last() =~= all.subrange(0, i as int));
        assert(next.last() == texts@[i as int].spec_bytes());
        let _ = push_opt(b, Opt::new(number, texts[i].as_bytes()));
        i = i + 1;
    }
    assert(all.subrange(0, i as int) =~= all);
}

/// Borrow an encoded number.
pub fn octets(e: &Option<EncodedUint>) -> (r: Option<&[u8]>)
    ensures
        r.is_some() == e.is_some(),
        r matches Some(v) ==> v@ == e->0@,
{
    match e {
        Some(e) => Some(e.as_slice()),
        None => None,
    }
}

/// Encode an optional number.
pub fn encode_opt_uint(n: Option<u32>) -> (r: Option<EncodedUint>)
    ensures
        r.is_some() == n.is_some(),
        r matches Some(e) ==> opt_uint(n) == Some(e@),
{
    match n {
        Some(n) => Some(encode_uint(n)),
        None => None,
    }
}

/// Encode an optional content format.
pub fn encode_opt_format(f: Option<ContentFormat>) -> (r: Option<EncodedUint>)
    ensures
        r.is_some() == f.is_some(),
        r matches Some(e) ==> opt_format(f) == Some(e@),
{
    match f {
        Some(f) => Some(f.encode()),
        None => None,
    }
}

fn encode_opt_observe(n: Option<u32>) -> (r: Option<EncodedUint>)
    ensures
        r.is_some() == n.is_some(),
        r matches Some(e) ==> opt_observe(n) == Some(e@),
{
    match n {
        Some(n) => Some(encode_uint(n % 0x1000000)),
        None => None,
    }
}

/// The part of a message that does not come from the response.
#[derive(Clone, Copy, Debug)]
pub struct Head {
    /// Message type.
    pub ty: Type,
    /// Message identifier.
    pub mid: MessageId,
    /// Token.
    pub token: Token,
}

/// What encoding a message into a free outgoing slot does.
pub open spec fn staged(
    before: Engine,
    after: Engine,
    m: MessageView,
    dest: Endpoint,
    r: Result<SlotId, EncodeFailure>,
) -> bool {
    &&& r.is_err() ==> after == before
    &&& match stage_verdict(before, m) {
        Err(e) => r == Err::<SlotId, EncodeFailure>(e),
        Ok(at) => {
            &&& r == Ok::<SlotId, EncodeFailure>(SlotId { at: at as usize })
            &&& 0 <= at < before.store.tx.slots@.len()
            &&& at <= usize::MAX
            &&& before.store.tx.slots@[at].is_none()
            &&& before.pending@[at].is_none()
            &&& after == (Engine { store: Store { tx: after.store.tx, ..before.store }, ..before })
            &&& after.store.tx.slot_bytes == before.store.tx.slot_bytes
            &&& after.store.tx.slots@ == before.store.tx.slots@.update(
                at,
                after.store.tx.slots@[at],
            )
            &&& holds(after.store.tx.slots@[at], dest, crate::message::wire::wire(m))
        },
    }
}

fn tally(present: bool) -> (n: usize)
    ensures
        n == if present {
            1usize
        } else {
            0usize
        },
{
    if present {
        1
    } else {
        0
    }
}

fn options_fit(r: &Response<'_>, block: Option<BlockOpt>, block1: Option<BlockOpt>) -> (fits: bool)
    ensures
        fits == (reply_option_count(r@, block, block1) <= REPLY_OPTIONS),
{
    let paths: usize = r.location_paths().len();
    let queries: usize = r.location_queries().len();
    assert(r@.location_paths.len() == paths);
    assert(r@.location_queries.len() == queries);
    if paths > REPLY_OPTIONS || queries > REPLY_OPTIONS {
        return false;
    }
    let of_block: usize = match block {
        Some(b) => 1 + tally(b.q_block && b.size2.is_some()),
        None => 0,
    };
    let n: usize = tally(r.etag_bytes().is_some()) + tally(r.observe_seq().is_some()) + paths
        + tally(r.format().is_some()) + tally(r.max_age_secs().is_some()) + queries + of_block
        + tally(block1.is_some()) + tally(r.echo_option().is_some());
    n <= REPLY_OPTIONS
}

/// Encode a response into a free outgoing slot, with the given piece of its
/// payload and block options.
pub fn encode_response(
    engine: &mut Engine,
    head: Head,
    r: &Response<'_>,
    payload: &[u8],
    block: Option<BlockOpt>,
    block1: Option<BlockOpt>,
    dest: Endpoint,
) -> (res: Result<SlotId, EncodeFailure>)
    requires
        old(engine).wf(),
        block matches Some(b) ==> b.value.valid(),
        block1 matches Some(b) ==> b.value.valid(),
    ensures
        final(engine).wf(),
        staged(
            *old(engine),
            *final(engine),
            reply_message(r@, head.ty, head.mid.raw, head.token@, payload@, block, block1),
            dest,
            res,
        ),
{
    if !options_fit(r, block, block1) {
        return encode_options_full_500(engine, head, dest);
    }
    let observe = encode_opt_observe(r.observe_seq());
    let format = encode_opt_format(r.format());
    let max_age = encode_opt_uint(r.max_age_secs());
    let mut opts: OptionsBuilder<'_, 24> = OptionsBuilder::new();
    add_opt(&mut opts, OptionNumber::ETAG, r.etag_bytes());
    add_opt(&mut opts, OptionNumber::OBSERVE, octets(&observe));
    assert(r@.location_paths.len() <= 24);
    add_texts(&mut opts, OptionNumber::LOCATION_PATH, r.location_paths());
    add_opt(&mut opts, OptionNumber::CONTENT_FORMAT, octets(&format));
    add_opt(&mut opts, OptionNumber::MAX_AGE, octets(&max_age));
    add_texts(&mut opts, OptionNumber::LOCATION_QUERY, r.location_queries());
    assert(opts@ == lead_options(r@));
    let (size2, block_octets) = match block {
        Some(b) => (
            if b.q_block {
                encode_opt_uint(b.size2)
            } else {
                None
            },
            Some(b.value.encode()),
        ),
        None => (None, None),
    };
    if let Some(b) = block {
        if b.q_block {
            add_opt(&mut opts, OptionNumber::SIZE2, octets(&size2));
            add_opt(&mut opts, OptionNumber::Q_BLOCK2, octets(&block_octets));
        } else {
            add_opt(&mut opts, OptionNumber::BLOCK2, octets(&block_octets));
        }
    }
    assert(opts@ == with_block(lead_options(r@), block));
    let block1_octets = match block1 {
        Some(b) => Some(b.value.encode()),
        None => None,
    };
    if let Some(b) = block1 {
        add_opt(
            &mut opts,
            if b.q_block {
                OptionNumber::Q_BLOCK1
            } else {
                OptionNumber::BLOCK1
            },
            octets(&block1_octets),
        );
    }
    assert(opts@ == with_block1(with_block(lead_options(r@), block), block1));
    let echo: Option<&[u8]> = match r.echo_option() {
        Some(e) => Some(e.as_slice()),
        None => None,
    };
    add_opt(&mut opts, OptionNumber::ECHO, echo);
    assert(opts@ == reply_options(r@, block, block1));
    let msg = Message::new(head.ty, r.code(), head.mid).with_token(head.token).with_options(
        opts.as_slice(),
    ).with_payload(payload);
    engine.stage(&msg, dest)
}

/// Encode a 5.00 into a free outgoing slot, for a response whose options do
/// not fit.
fn encode_options_full_500(engine: &mut Engine, head: Head, dest: Endpoint) -> (res: Result<
    SlotId,
    EncodeFailure,
>)
    requires
        old(engine).wf(),
    ensures
        final(engine).wf(),
        staged(
            *old(engine),
            *final(engine),
            options_full_message(head.ty, head.mid.raw, head.token@),
            dest,
            res,
        ),
{
    let r = Response::problem(Code::INTERNAL_SERVER_ERROR).title("Options full");
    let format = encode_opt_format(r.format());
    let mut opts: OptionsBuilder<'_, 4> = OptionsBuilder::new();
    add_opt(&mut opts, OptionNumber::CONTENT_FORMAT, octets(&format));
    let msg = Message::new(head.ty, r.code(), head.mid).with_token(head.token).with_options(
        opts.as_slice(),
    ).with_payload(r.payload());
    engine.stage(&msg, dest)
}

/// Encode a notification into a free outgoing slot.
pub fn encode_notification(
    engine: &mut Engine,
    head: Head,
    r: &Response<'_>,
    dest: Endpoint,
) -> (res: Result<SlotId, EncodeFailure>)
    requires
        old(engine).wf(),
    ensures
        final(engine).wf(),
        staged(
            *old(engine),
            *final(engine),
            notification_message(r@, head.ty, head.mid.raw, head.token@),
            dest,
            res,
        ),
{
    let observe = encode_opt_observe(r.observe_seq());
    let format = encode_opt_format(r.format());
    let max_age = encode_opt_uint(r.max_age_secs());
    let mut opts: OptionsBuilder<'_, 4> = OptionsBuilder::new();
    add_opt(&mut opts, OptionNumber::ETAG, r.etag_bytes());
    add_opt(&mut opts, OptionNumber::OBSERVE, octets(&observe));
    add_opt(&mut opts, OptionNumber::CONTENT_FORMAT, octets(&format));
    add_opt(&mut opts, OptionNumber::MAX_AGE, octets(&max_age));
    let msg = Message::new(head.ty, r.code(), head.mid).with_token(head.token).with_options(
        opts.as_slice(),
    ).with_payload(r.payload());
    engine.stage(&msg, dest)
}

} // verus!
