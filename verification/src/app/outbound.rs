//! Messages of this side's own requests.
use vstd::prelude::*;

use super::calls::{owned_opts, OwnedOpt};
use super::error::Error;
use super::identity::{AppIds, IdentityError};
use super::reactor::{
    calm, delivered, failure_of, lemma_calm_same, lemma_calm_trans, lemma_pins_stay, lemma_sends_one,
    send_staged, sends_to, Core,
};
use super::reply::{opt_block, opt_format, opt_uint, staged, with_opt, with_opts};
use crate::bytes::to_vec;
use crate::message::fields::slices_of;
use crate::message::option::{
    ascending, inserted, law_inserted_ascending, lemma_insert_point, opts_of, OptView,
};
use crate::message::value::uint_octets;
use crate::message::wire::MessageView;
use crate::message::{
    encode_uint, BlockValue, ContentFormat, Message, MessageId, NoResponse, Opt, OptionNumber, Token,
    Type,
};
use crate::storage::endpoint::{Endpoint, ExchangeKey, KeyView};
use crate::storage::engine::{stage_verdict, Confirm, Engine, Store};
use crate::storage::io::DatagramIo;
use crate::storage::rows::ExchangeEntry;
use crate::storage::table::{lemma_find_row, lemma_find_unique, lemma_free_row, place_row, Keyed};

verus! {

/// Options that a request has at most.
pub const CLIENT_OPTION_SLOTS: usize = 26;

/// A list of options, in order of their numbers.
pub struct OptList {
    opts: Vec<OwnedOpt>,
}

impl View for OptList {
    type V = Seq<OptView>;

    closed spec fn view(&self) -> Seq<OptView> {
        owned_opts(self.opts@)
    }
}

impl OptList {
    /// An empty list.
    pub fn new() -> (l: OptList)
        ensures
            l@ == Seq::<OptView>::empty(),
    {
        let l = OptList { opts: Vec::new() };
        assert(l@ =~= Seq::<OptView>::empty());
        l
    }

    /// How many options there are.
    pub fn len(&self) -> (n: usize)
        ensures
            n == self@.len(),
    {
        self.opts.len()
    }

    /// Add an option behind those with the same number.
    pub fn push(&mut self, number: u16, value: &[u8])
        requires
            ascending(old(self)@),
        ensures
            final(self)@ == inserted(old(self)@, OptView { number, value: value@ }),
            ascending(final(self)@),
    {
        let mut at: usize = self.opts.len();
        let ghost opt = OptView { number, value: value@ };
        proof {
            lemma_insert_point(self@, number);
            law_inserted_ascending(self@, opt);
        }
        while at > 0 && self.opts[at - 1].number > number
            invariant
                at <= self.opts@.len(),
                *self == *old(self),
                ascending(self@),
                insert_point_ok(self@, number, at as int),
            decreases at,
        {
            assert(self@[at - 1].number == self.opts@[at - 1].number);
            at = at - 1;
        }
        proof {
            if at > 0 {
                assert(self@[at - 1].number == self.opts@[at - 1].number);
            }
        }
        let ghost before = self.opts@;
        self.opts.insert(at, OwnedOpt { number, value: to_vec(value) });
        assert(self@ =~= inserted(old(self)@, opt));
    }

    /// Add an option, if there is a value.
    pub fn push_opt(&mut self, number: u16, value: Option<&[u8]>)
        requires
            ascending(old(self)@),
        ensures
            final(self)@ == with_opt(
                old(self)@,
                number,
                match value {
                    Some(v) => Some(v@),
                    None => None,
                },
            ),
            ascending(final(self)@),
    {
        if let Some(v) = value {
            self.push(number, v);
        }
    }

    /// Add an option for each value.
    pub fn push_all(&mut self, number: u16, values: &Vec<&[u8]>)
        requires
            ascending(old(self)@),
        ensures
            final(self)@ == with_opts(old(self)@, number, slices_of(values@)),
            ascending(final(self)@),
    {
        let ghost all = slices_of(values@);
        let mut i: usize = 0;
        assert(all.subrange(0, 0) =~= Seq::<Seq<u8>>::empty());
        while i < values.len()
            invariant
                all == slices_of(values@),
                i <= values@.len(),
                ascending(self@),
                self@ == with_opts(old(self)@, number, all.subrange(0, i as int)),
            decreases values@.len() - i,
        {
            let ghost next = all.subrange(0, i + 1);
            assert(next.drop_last() =~= all.subrange(0, i as int));
            assert(next.last() == values@[i as int]@);
            self.push(number, values[i]);
            i = i + 1;
        }
        assert(all.subrange(0, i as int) =~= all);
    }

    /// Borrow the options.
    pub fn as_opts(&self) -> (out: Vec<Opt<'_>>)
        ensures
            opts_of(out@) == self@,
    {
        let mut out: Vec<Opt<'_>> = Vec::new();
        let mut i: usize = 0;
        assert(opts_of(out@) =~= self@.subrange(0, 0));
        while i < self.opts.len()
            invariant
                i <= self.opts@.len(),
                opts_of(out@) == self@.subrange(0, i as int),
            decreases self.opts@.len() - i,
        {
            let ghost before = opts_of(out@);
            let o: &OwnedOpt = &self.opts[i];
            out.push(Opt::new(o.number, o.value.as_slice()));
            assert(opts_of(out@) =~= before.push(self@[i as int]));
            i = i + 1;
            assert(opts_of(out@) =~= self@.subrange(0, i as int));
        }
        assert(self@.subrange(0, i as int) =~= self@);
        out
    }
}

/// Is a position not in front of where an option is inserted?
pub open spec fn insert_point_ok(opts: Seq<OptView>, number: u16, at: int) -> bool {
    let point = crate::message::option::insert_point(opts, number);
    &&& 0 <= point <= at
    &&& forall|i: int| 0 <= i < point ==> opts[i].number <= number
    &&& forall|i: int| point <= i < opts.len() ==> opts[i].number > number
}

/// The options of a request.
pub struct RequestOpts<'a> {
    /// If-Match.
    pub if_match: Option<&'a [u8]>,
    /// ETag.
    pub etag: Option<&'a [u8]>,
    /// If-None-Match.
    pub if_none_match: bool,
    /// Observe.
    pub observe: Option<u32>,
    /// Uri-Path.
    pub path: Vec<&'a [u8]>,
    /// Content-Format.
    pub format: Option<ContentFormat>,
    /// Uri-Query.
    pub queries: Vec<&'a [u8]>,
    /// Accept.
    pub accept: Option<ContentFormat>,
    /// Block1.
    pub block1: Option<BlockValue>,
    /// Q-Block1.
    pub q_block1: Option<BlockValue>,
    /// Size1.
    pub size1: Option<u32>,
    /// Block2.
    pub block2: Option<BlockValue>,
    /// Q-Block2.
    pub q_block2: Option<BlockValue>,
    /// No-Response.
    pub no_response: Option<NoResponse>,
    /// Echo.
    pub echo: Option<&'a [u8]>,
    /// Request-Tag.
    pub tag: Option<&'a [u8]>,
}

/// What the options of a request say.
pub struct RequestOptsView {
    /// If-Match.
    pub if_match: Option<Seq<u8>>,
    /// ETag.
    pub etag: Option<Seq<u8>>,
    /// If-None-Match.
    pub if_none_match: bool,
    /// Observe.
    pub observe: Option<u32>,
    /// Uri-Path.
    pub path: Seq<Seq<u8>>,
    /// Content-Format.
    pub format: Option<ContentFormat>,
    /// Uri-Query.
    pub queries: Seq<Seq<u8>>,
    /// Accept.
    pub accept: Option<ContentFormat>,
    /// Block1.
    pub block1: Option<BlockValue>,
    /// Q-Block1.
    pub q_block1: Option<BlockValue>,
    /// Size1.
    pub size1: Option<u32>,
    /// Block2.
    pub block2: Option<BlockValue>,
    /// Q-Block2.
    pub q_block2: Option<BlockValue>,
    /// No-Response.
    pub no_response: Option<NoResponse>,
    /// Echo.
    pub echo: Option<Seq<u8>>,
    /// Request-Tag.
    pub tag: Option<Seq<u8>>,
}

/// The octets of an optional value.
pub open spec fn opt_octets(v: Option<&[u8]>) -> Option<Seq<u8>> {
    match v {
        Some(b) => Some(b@),
        None => None,
    }
}

impl<'a> View for RequestOpts<'a> {
    type V = RequestOptsView;

    open spec fn view(&self) -> RequestOptsView {
        RequestOptsView {
            if_match: opt_octets(self.if_match),
            etag: opt_octets(self.etag),
            if_none_match: self.if_none_match,
            observe: self.observe,
            path: slices_of(self.path@),
            format: self.format,
            queries: slices_of(self.queries@),
            accept: self.accept,
            block1: self.block1,
            q_block1: self.q_block1,
            size1: self.size1,
            block2: self.block2,
            q_block2: self.q_block2,
            no_response: self.no_response,
            echo: opt_octets(self.echo),
            tag: opt_octets(self.tag),
        }
    }
}

/// The value of a flag.
pub open spec fn opt_flag(on: bool) -> Option<Seq<u8>> {
    if on {
        Some(Seq::empty())
    } else {
        None
    }
}

/// The value of an optional No-Response bitmap.
pub open spec fn opt_mask(n: Option<NoResponse>) -> Option<Seq<u8>> {
    match n {
        Some(n) => Some(uint_octets(n.mask as nat)),
        None => None,
    }
}

/// The option list of a request, up to Accept.
pub open spec fn front_options(o: RequestOptsView) -> Seq<OptView> {
    with_opt(
        with_opts(
            with_opt(
                with_opts(
                    with_opt(
                        with_opt(
                            with_opt(with_opt(Seq::empty(), 1, o.if_match), 4, o.etag),
                            5,
                            opt_flag(o.if_none_match),
                        ),
                        6,
                        opt_uint(o.observe),
                    ),
                    11,
                    o.path,
                ),
                12,
                opt_format(o.format),
            ),
            15,
            o.queries,
        ),
        17,
        opt_format(o.accept),
    )
}

/// The option list of a request.
pub open spec fn request_options(o: RequestOptsView) -> Seq<OptView> {
    with_opt(
        with_opt(
            with_opt(
                with_opt(
                    with_opt(
                        with_opt(
                            with_opt(
                                with_opt(front_options(o), 27, opt_block(o.block1)),
                                19,
                                opt_block(o.q_block1),
                            ),
                            60,
                            opt_uint(o.size1),
                        ),
                        23,
                        opt_block(o.block2),
                    ),
                    31,
                    opt_block(o.q_block2),
                ),
                258,
                opt_mask(o.no_response),
            ),
            252,
            o.echo,
        ),
        292,
        o.tag,
    )
}

impl<'a> RequestOpts<'a> {
    /// No options.
    pub fn none() -> (o: RequestOpts<'a>)
        ensures
            o@ == no_options(),
    {
        let o = RequestOpts {
            if_match: None,
            etag: None,
            if_none_match: false,
            observe: None,
            path: Vec::new(),
            format: None,
            queries: Vec::new(),
            accept: None,
            block1: None,
            q_block1: None,
            size1: None,
            block2: None,
            q_block2: None,
            no_response: None,
            echo: None,
            tag: None,
        };
        assert(o@.path =~= no_options().path);
        assert(o@.queries =~= no_options().queries);
        o
    }

    /// Are the block descriptors in range?
    pub open spec fn wf(&self) -> bool {
        &&& self.block1 matches Some(b) ==> b.valid()
        &&& self.q_block1 matches Some(b) ==> b.valid()
        &&& self.block2 matches Some(b) ==> b.valid()
        &&& self.q_block2 matches Some(b) ==> b.valid()
    }

    fn push_front(&self, l: &mut OptList)
        requires
            old(l)@ == Seq::<OptView>::empty(),
        ensures
            final(l)@ == front_options(self@),
            ascending(final(l)@),
    {
        l.push_opt(OptionNumber::IF_MATCH, self.if_match);
        l.push_opt(OptionNumber::ETAG, self.etag);
        if self.if_none_match {
            let nothing: [u8; 0] = [];
            let flag: &[u8] = nothing.as_slice();
            assert(flag@ =~= Seq::<u8>::empty());
            l.push(OptionNumber::IF_NONE_MATCH, flag);
        }
        if let Some(n) = self.observe {
            l.push(OptionNumber::OBSERVE, encode_uint(n).as_slice());
        }
        l.push_all(OptionNumber::URI_PATH, &self.path);
        if let Some(f) = self.format {
            l.push(OptionNumber::CONTENT_FORMAT, f.encode().as_slice());
        }
        l.push_all(OptionNumber::URI_QUERY, &self.queries);
        if let Some(f) = self.accept {
            l.push(OptionNumber::ACCEPT, f.encode().as_slice());
        }
    }

    /// The option list.
    pub fn list(&self) -> (l: OptList)
        requires
            self.wf(),
        ensures
            l@ == request_options(self@),
            ascending(l@),
    {
        let mut l = OptList::new();
        self.push_front(&mut l);
        if let Some(b) = self.block1 {
            l.push(OptionNumber::BLOCK1, b.encode().as_slice());
        }
        if let Some(b) = self.q_block1 {
            l.push(OptionNumber::Q_BLOCK1, b.encode().as_slice());
        }
        if let Some(n) = self.size1 {
            l.push(OptionNumber::SIZE1, encode_uint(n).as_slice());
        }
        if let Some(b) = self.block2 {
            l.push(OptionNumber::BLOCK2, b.encode().as_slice());
        }
        if let Some(b) = self.q_block2 {
            l.push(OptionNumber::Q_BLOCK2, b.encode().as_slice());
        }
        if let Some(n) = self.no_response {
            l.push(OptionNumber::NO_RESPONSE, n.encode().as_slice());
        }
        l.push_opt(OptionNumber::ECHO, self.echo);
        l.push_opt(OptionNumber::REQUEST_TAG, self.tag);
        l
    }
}

/// No options.
pub open spec fn no_options() -> RequestOptsView {
    RequestOptsView {
        if_match: None,
        etag: None,
        if_none_match: false,
        observe: None,
        path: Seq::empty(),
        format: None,
        queries: Seq::empty(),
        accept: None,
        block1: None,
        q_block1: None,
        size1: None,
        block2: None,
        q_block2: None,
        no_response: None,
        echo: None,
        tag: None,
    }
}

/// What a step of this side's own calls with a peer leaves alone: incoming
/// datagrams. Whatever is sent goes to that peer.
pub open spec fn contacted<T>(a: Core<T>, b: Core<T>, peer: Endpoint) -> bool {
    &&& calm(a.engine, b.engine)
    &&& b.engine.store.rx == a.engine.store.rx
    &&& b.closed == a.closed
    &&& sends_to(a.port.log@, b.port.log@, peer)
}

/// Two steps with a peer are one.
pub proof fn lemma_contacted_trans<T>(a: Core<T>, b: Core<T>, c: Core<T>, peer: Endpoint)
    requires
        contacted(a, b, peer),
        contacted(b, c, peer),
    ensures
        contacted(a, c, peer),
{
    lemma_calm_trans(a.engine, b.engine, c.engine);
    super::reactor::lemma_sends_trans(a.port.log@, b.port.log@, c.port.log@, peer);
}

/// A step that leaves slots, waiting messages and kept answers alone.
pub proof fn lemma_contacted_same<T>(a: Core<T>, b: Core<T>, peer: Endpoint)
    requires
        super::reactor::same_shape(a.engine, b.engine),
        b.engine.store.tx.slots@ == a.engine.store.tx.slots@,
        b.engine.pending@ == a.engine.pending@,
        b.engine.store.dedup.rows@ == a.engine.store.dedup.rows@,
        b.engine.store.rx == a.engine.store.rx,
        b.closed == a.closed,
        b.port.log@ == a.port.log@,
    ensures
        contacted(a, b, peer),
{
    lemma_calm_same(a.engine, b.engine);
    lemma_sends_one(a.port.log@, b.port.log@, peer);
}

/// The table key of a request.
pub open spec fn call_key(token: Seq<u8>, peer: Endpoint) -> KeyView {
    KeyView::Token { token, peer, client: true }
}

/// Is this the row of a request that waits for its response, sent from this
/// slot?
pub open spec fn awaits(
    row: Option<ExchangeEntry>,
    m: MessageView,
    peer: Endpoint,
    at: int,
) -> bool {
    row matches Some(e) && e.token@ == m.token && e.peer == peer && e.mid.raw == m.id && e.tx.at
        == at
}

/// One more message identifier was given out; nothing else changed.
pub open spec fn identified<T>(a: Core<T>, b: Core<T>, now_ms: u64) -> bool {
    &&& b == (Core { ids: b.ids, ..a })
    &&& a.ids.gave(b.ids, now_ms)
}

/// There is no fresh message identifier; nothing changed but what was drawn for
/// its jitter.
pub open spec fn unnamed<T>(a: Core<T>, b: Core<T>, now_ms: u64, e: IdentityError) -> bool {
    &&& b == (Core { ids: b.ids, ..a })
    &&& a.ids.refuses(b.ids, a.engine, now_ms, e)
}

/// How a request waits for its acknowledgement, if it does.
pub open spec fn request_confirm(ids: AppIds, m: MessageView, now_ms: u64) -> Option<Confirm> {
    if m.ty == Type::Confirmable {
        Some(Confirm { now_ms, mid: MessageId { raw: m.id }, jitter: ids.jitter })
    } else {
        None
    }
}

/// A request waits for its response; nothing else changed.
pub open spec fn request_recorded(
    a: Engine,
    b: Engine,
    m: MessageView,
    dest: Endpoint,
    row: int,
    at: int,
) -> bool {
    &&& b == (Engine { exchanges: b.exchanges, ..a })
    &&& b.exchanges.rows@ == a.exchanges.rows@.update(row, b.exchanges.rows@[row])
    &&& awaits(b.exchanges.rows@[row], m, dest, at)
}

/// A request that failed and is to be forgotten waits no more; nothing else
/// changed.
pub open spec fn request_kept<E>(
    a: Engine,
    b: Engine,
    row: int,
    forget: bool,
    r: Result<(), Error<E>>,
) -> bool {
    if forget && r.is_err() {
        &&& b == (Engine { exchanges: b.exchanges, ..a })
        &&& b.exchanges.rows@ == a.exchanges.rows@.update(row, None)
    } else {
        b == a
    }
}

/// What sending a request does.
///
/// It waits for its response from before it is sent; without room for that,
/// it is not sent. When sending fails it waits no more, unless it is to.
pub open spec fn requested<T: DatagramIo>(
    a: Core<T>,
    b: Core<T>,
    m: MessageView,
    dest: Endpoint,
    forget: bool,
    now_ms: u64,
    r: Result<(), Error<T::Error>>,
) -> bool {
    &&& b == (Core { engine: b.engine, port: b.port, ..a })
    &&& match stage_verdict(a.engine, m) {
        Err(f) => r == Err::<(), Error<T::Error>>(failure_of(f)) && b == a,
        Ok(at) => match place_row(a.engine.exchanges.rows@, call_key(m.token, dest)) {
            None => {
                &&& r == Err::<(), Error<T::Error>>(Error::Saturated)
                &&& b.port == a.port
                &&& b.engine == (Engine {
                    store: Store { tx: b.engine.store.tx, ..a.engine.store },
                    pending: b.engine.pending,
                    ..a.engine
                })
                &&& b.engine.store.tx.slots@ == a.engine.store.tx.slots@
                &&& b.engine.store.tx.slot_bytes == a.engine.store.tx.slot_bytes
                &&& b.engine.pending@ == a.engine.pending@
            },
            Some(i) => exists|c: Engine, d: Engine|
                {
                    &&& #[trigger] request_recorded(a.engine, c, m, dest, i, at)
                    &&& delivered(
                        c,
                        d,
                        a.port,
                        b.port,
                        m,
                        dest,
                        request_confirm(a.ids, m, now_ms),
                        r,
                    )
                    &&& #[trigger] request_kept(d, b.engine, i, forget, r)
                },
        },
    }
}

impl<T: DatagramIo> Core<T> {
    /// Send a request and wait for its response; a confirmable one also waits
    /// for its acknowledgement.
    pub fn finish_client_send(&mut self, msg: &Message<'_>, dest: Endpoint, now_ms: u64, forget: bool) -> (r:
        Result<(), Error<T::Error>>)
        requires
            old(self).wf(),
        ensures
            final(self).wf(),
            contacted(*old(self), *final(self), dest),
            requested(*old(self), *final(self), msg@, dest, forget, now_ms, r),
    {
        let ghost first = *self;
        let token = msg.token();
        let mid = msg.message_id();
        let id = match self.engine.stage(msg, dest) {
            Ok(id) => id,
            Err(f) => {
                proof {
                    lemma_contacted_same(first, *self, dest);
                }
                return Err(super::reactor::failure(f));
            },
        };
        let ghost second = *self;
        let entry = ExchangeEntry { token, peer: dest, mid, tx: id };
        let key = ExchangeKey::new(token, dest);
        proof {
            lemma_find_row(first.engine.exchanges.rows@, entry.row_key());
            lemma_free_row(first.engine.exchanges.rows@);
        }
        if !self.engine.record_request(entry) {
            let _ = self.engine.release_tx(id);
            proof {
                assert(self.engine.store.tx.slots@ =~= first.engine.store.tx.slots@);
                assert(self.engine.pending@ =~= first.engine.pending@);
                lemma_contacted_same(first, *self, dest);
                lemma_pins_stay(first.engine, self.engine);
            }
            return Err(Error::Saturated);
        }
        let ghost recorded = Engine { exchanges: self.engine.exchanges, ..first.engine };
        let ghost rows = self.engine.exchanges.rows@;
        let confirm = match msg.ty() {
            Type::Confirmable => Some(Confirm { now_ms, mid, jitter: self.ids.jitter() }),
            _ => None,
        };
        proof {
            lemma_calm_same(first.engine, recorded);
            assert(staged(recorded, self.engine, msg@, dest, Ok(id)));
        }
        let r = send_staged(
            &mut self.engine,
            &mut self.port,
            Ok(id),
            dest,
            confirm,
            Ghost(recorded),
            Ghost(msg@),
        );
        let ghost third = *self;
        proof {
            lemma_calm_trans(first.engine, recorded, third.engine);
            lemma_pins_stay(first.engine, third.engine);
            crate::storage::engine::lemma_outstanding(third.engine.pending@, dest);
        }
        if r.is_err() && forget {
            proof {
                let i = place_row(first.engine.exchanges.rows@, entry.row_key())->0;
                lemma_find_unique(rows, i);
            }
            let _ = self.engine.take_exchange(key);
            proof {
                lemma_contacted_same(third, *self, dest);
                lemma_contacted_trans(first, third, *self, dest);
                lemma_pins_stay(third.engine, self.engine);
            }
        }
        proof {
            let i = place_row(first.engine.exchanges.rows@, entry.row_key())->0;
            assert(entry.row_key() == call_key(msg@.token, dest));
            assert(request_recorded(
                first.engine,
                recorded,
                msg@,
                dest,
                i,
                stage_verdict(first.engine, msg@)->Ok_0,
            ));
            assert(confirm == request_confirm(first.ids, msg@, now_ms));
            assert(request_kept(third.engine, self.engine, i, forget, r));
        }
        r
    }
}

} // verus!
