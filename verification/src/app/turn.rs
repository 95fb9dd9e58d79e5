//! One turn of the reactor.
use vstd::prelude::*;

use super::answer::Answer;
use super::calls::{Call, CallFailure};
use super::complete::completed;
use super::echo::{policy_total, EchoPolicy};
use super::ending::{awaited_request, call_failed, reset_about, sent_as};
use super::error::Error;
use super::inbox::LiveCall;
use super::outbound::{
    call_key, identified, no_options, request_options, unnamed, OptList, RequestOpts,
    RequestOptsView,
};
use super::owned::{
    carried, lemma_observers_owned, lemma_same_owned, lemma_tended_owned, subscribed_still,
};
use super::path::texts_of;
use super::reactor::{
    calm, delivered, grown, lemma_calm_same, lemma_calm_trans, lemma_grown_same, lemma_pins_stay,
    lemma_sends_grown, lemma_sends_one, lemma_sends_trans, same_shape, send_message, sends_to,
    Core,
};
use super::reply::with_opts;
use super::respond::answered;
use super::response::{Response, ResponseView};
use super::routing::ObserveSource;
use super::send::{replayed, rst_message, sent_plain};
use super::serve::{bare_answer, request_served};
use super::site::Site;
use super::upload::{borrow_all, borrow_echo, copy_texts, echo_octets};
use crate::error::{BlockTransferError, SlotMessageError};
use crate::message::option::ascending;
use crate::message::value::uint_octets;
use crate::message::wire::{decode, read_message, MessageView};
use crate::message::{
    BlockValue, Code, Message, MessageId, NoResponse, OptionNumber, ParsedMessage, Type,
};
use crate::storage::body::QBlockRecover;
use crate::storage::endpoint::{Endpoint, SlotId};
use crate::storage::engine::{con_settled, Engine, Store};
use crate::storage::io::DatagramIo;
use crate::storage::metrics::{inc, Metrics};
use crate::storage::observe::{acknowledged, observer_rejected, with_rows};
use crate::storage::rows::ExchangeEntry;
use crate::storage::transfer::BlockRole;

verus! {

/// What a step with one peer leaves alone: incoming datagrams. Whatever is
/// sent goes to that peer.
pub open spec fn dealt<T>(a: Core<T>, b: Core<T>, peer: Endpoint) -> bool {
    &&& calm(a.engine, b.engine)
    &&& b.engine.store.rx == a.engine.store.rx
    &&& sends_to(a.port.log@, b.port.log@, peer)
}

/// Two steps with a peer are one.
pub proof fn lemma_dealt_trans<T>(a: Core<T>, b: Core<T>, c: Core<T>, peer: Endpoint)
    requires
        dealt(a, b, peer),
        dealt(b, c, peer),
    ensures
        dealt(a, c, peer),
{
    lemma_calm_trans(a.engine, b.engine, c.engine);
    lemma_sends_trans(a.port.log@, b.port.log@, c.port.log@, peer);
}

/// A step that leaves slots, waiting messages and kept answers alone.
pub proof fn lemma_dealt_same<T>(a: Core<T>, b: Core<T>, peer: Endpoint)
    requires
        same_shape(a.engine, b.engine),
        b.engine.store.tx.slots@ == a.engine.store.tx.slots@,
        b.engine.pending@ == a.engine.pending@,
        b.engine.store.dedup.rows@ == a.engine.store.dedup.rows@,
        b.engine.store.rx == a.engine.store.rx,
        b.port.log@ == a.port.log@,
    ensures
        dealt(a, b, peer),
{
    lemma_calm_same(a.engine, b.engine);
    lemma_sends_one(a.port.log@, b.port.log@, peer);
}

/// The option values that ask for single blocks.
pub open spec fn wanted_blocks(missing: Seq<u32>, szx: u8) -> Seq<Seq<u8>> {
    Seq::new(
        missing.len(),
        |i: int| uint_octets(BlockValue { num: missing[i], more: false, szx }.packed()),
    )
}

/// The request for missing blocks of a response. It repeats the path, queries
/// and tag of the call, and asks for no observation.
pub open spec fn recover_message(
    live: Option<LiveCall>,
    token: Seq<u8>,
    mid: u16,
    missing: Seq<u32>,
    szx: u8,
) -> MessageView {
    let base = match live {
        Some(l) => RequestOptsView {
            path: texts_of(l.path@),
            queries: l.queries@,
            accept: l.accept,
            echo: echo_octets(l.echo),
            tag: l.request_tag@,
            ..no_options()
        },
        None => no_options(),
    };
    MessageView {
        ty: Type::NonConfirmable,
        code: Code::GET,
        id: mid,
        token,
        options: with_opts(request_options(base), 31, wanted_blocks(missing, szx)),
        payload: Seq::empty(),
    }
}

fn recover_list(live: Option<&LiveCall>, missing: &Vec<u32>, szx: u8) -> (l: OptList)
    requires
        szx <= 6,
        forall|i: int| 0 <= i < missing@.len() ==> (#[trigger] missing@[i]) < 0x100000,
    ensures
        l@ == recover_message(
            match live {
                Some(l) => Some(*l),
                None => None,
            },
            Seq::empty(),
            0,
            missing@,
            szx,
        ).options,
{
    let mut l = match live {
        Some(live) => {
            let path = copy_texts(live.path.as_slice());
            let opts = RequestOpts {
                path: borrow_all(&path),
                queries: borrow_all(&live.queries.values),
                accept: live.accept,
                echo: borrow_echo(&live.echo),
                tag: live.request_tag.as_slice(),
                ..RequestOpts::none()
            };
            opts.list()
        },
        None => RequestOpts::none().list(),
    };
    let ghost base = l@;
    let ghost all = wanted_blocks(missing@, szx);
    let mut i: usize = 0;
    assert(all.subrange(0, 0) =~= Seq::<Seq<u8>>::empty());
    while i < missing.len()
        invariant
            szx <= 6,
            forall|i: int| 0 <= i < missing@.len() ==> (#[trigger] missing@[i]) < 0x100000,
            all == wanted_blocks(missing@, szx),
            i <= missing@.len(),
            ascending(l@),
            l@ == with_opts(base, 31, all.subrange(0, i as int)),
        decreases missing@.len() - i,
    {
        let ghost next = all.subrange(0, i + 1);
        assert(next.drop_last() =~= all.subrange(0, i as int));
        let num: u32 = missing[i];
        assert(missing@[i as int] < 0x100000);
        let block = BlockValue { num, more: false, szx };
        l.push(OptionNumber::Q_BLOCK2, block.encode().as_slice());
        i = i + 1;
    }
    assert(all.subrange(0, i as int) =~= all);
    l
}

/// The error for a request for missing blocks: that it cannot be encoded is a
/// failure of the transfer.
pub open spec fn recover_failed<E>(r: Result<(), Error<E>>) -> Result<(), Error<E>> {
    match r {
        Err(Error::Message(SlotMessageError::Encode(e))) => Err(
            Error::Block(BlockTransferError::Encode(e)),
        ),
        r => r,
    }
}

/// What asking again for the missing blocks of a body does.
///
/// For a response, a request goes out; for a request body, 4.08 with the list
/// of missing blocks.
pub open spec fn recovered<T: DatagramIo>(
    a: Core<T>,
    b: Core<T>,
    q: QBlockRecover,
    now_ms: u64,
    r: Result<(), Error<T::Error>>,
) -> bool {
    let unidentified = (r matches Err(Error::Identity(e)) && unnamed(a, b, now_ms, e));
    match q.role {
        BlockRole::IncomingQBlock2 => unidentified || (!a.ids.exhausted(a.engine, now_ms) && exists|
            c: Core<T>,
            sent: Result<(), Error<T::Error>>,
        |
            {
                &&& #[trigger] identified(a, c, now_ms)
                &&& b == (Core { engine: b.engine, port: b.port, ..c })
                &&& r == #[trigger] recover_failed(sent)
                &&& delivered(
                    a.engine,
                    b.engine,
                    a.port,
                    b.port,
                    recover_message(
                        a.lives.rows.row(call_key(q.key.token@, q.key.peer)),
                        q.key.token@,
                        a.ids.next_mid,
                        q.missing@,
                        q.szx,
                    ),
                    q.key.peer,
                    None,
                    sent,
                )
            }),
        BlockRole::IncomingQBlock1 => unidentified || (!a.ids.exhausted(a.engine, now_ms) && exists|
            c: Core<T>,
            answer: Answer,
        |
            {
                &&& identified(a, c, now_ms)
                &&& answer.dest == q.key.peer && answer.token == q.key.token && answer.ty
                    == Type::NonConfirmable && answer.no_response == (NoResponse { mask: 0 })
                &&& bare_answer(answer, None)
                &&& #[trigger] answered(c, b, answer, missing_response(q.missing@), now_ms, r)
            }),
        _ => r.is_ok() && b == a,
    }
}

/// The answer that lists missing blocks.
pub open spec fn missing_response(nums: Seq<u32>) -> ResponseView {
    ResponseView {
        format: Some(crate::message::ContentFormat::MISSING_BLOCKS),
        payload: if crate::message::missing::missing_wire(nums).len()
            <= super::response::INLINE_PAYLOAD {
            crate::message::missing::missing_wire(nums)
        } else {
            Seq::empty()
        },
        ..super::response::bare_response(Code::REQUEST_ENTITY_INCOMPLETE)
    }
}

impl<T: DatagramIo> Core<T> {
    /// Ask again for the missing blocks of a body.
    pub fn send_qblock_recover(&mut self, q: &QBlockRecover, now_ms: u64) -> (r: Result<
        (),
        Error<T::Error>,
    >)
        requires
            old(self).wf(),
            q.szx <= 6,
            forall|i: int| 0 <= i < q.missing@.len() ==> (#[trigger] q.missing@[i]) < 0x100000,
        ensures
            final(self).wf(),
            carried(*old(self), *final(self)),
            dealt(*old(self), *final(self), q.key.peer),
            recovered(*old(self), *final(self), *q, now_ms, r),
    {
        let ghost first = *self;
        proof {
            lemma_dealt_same(first, first, q.key.peer);
        }
        match q.role {
            BlockRole::IncomingQBlock2 => {
                let mid = match self.ids.next_for(&self.engine, now_ms) {
                    Ok(mid) => mid,
                    Err(e) => {
                        proof {
                            lemma_dealt_same(first, *self, q.key.peer);
                            lemma_same_owned(first, *self);
                        }
                        return Err(Error::Identity(e));
                    },
                };
                let ghost second = *self;
                let call = Call::new(q.key.token, q.key.peer);
                let list = recover_list(self.lives.get(call), &q.missing, q.szx);
                let opts = list.as_opts();
                let msg = Message::new(Type::NonConfirmable, Code::GET, mid).with_token(
                    q.key.token,
                ).with_options(opts.as_slice());
                assert(msg@ == recover_message(
                    first.lives.rows.row(call_key(q.key.token@, q.key.peer)),
                    q.key.token@,
                    mid.raw,
                    q.missing@,
                    q.szx,
                ));
                let sent = send_message(&mut self.engine, &mut self.port, &msg, q.key.peer, None);
                let ghost given = sent;
                proof {
                    lemma_pins_stay(second.engine, self.engine);
                    assert(identified(first, second, now_ms));
                    lemma_same_owned(first, *self);
                }
                let r = match sent {
                    Err(Error::Message(SlotMessageError::Encode(e))) => Err(
                        Error::Block(BlockTransferError::Encode(e)),
                    ),
                    sent => sent,
                };
                assert(r == recover_failed(given));
                r
            },
            BlockRole::IncomingQBlock1 => {
                let mid = match self.ids.next_for(&self.engine, now_ms) {
                    Ok(mid) => mid,
                    Err(e) => {
                        proof {
                            lemma_dealt_same(first, *self, q.key.peer);
                            lemma_same_owned(first, *self);
                        }
                        return Err(Error::Identity(e));
                    },
                };
                let ghost second = *self;
                proof {
                    lemma_dealt_same(first, second, q.key.peer);
                }
                let answer = Answer {
                    dest: q.key.peer,
                    ty: Type::NonConfirmable,
                    mid,
                    token: q.key.token,
                    no_response: NoResponse::interested(),
                    block2: None,
                    selections: Vec::new(),
                    block1: None,
                    request: Code::GET,
                };
                let response = Response::missing_blocks(q.missing.as_slice());
                let r = self.send_response(&answer, &response, now_ms);
                proof {
                    lemma_dealt_trans(first, second, *self, q.key.peer);
                    lemma_same_owned(first, *self);
                    assert(answered(
                        second,
                        *self,
                        answer,
                        missing_response(q.missing@),
                        now_ms,
                        r,
                    ));
                }
                r
            },
            _ => Ok(()),
        }
    }
}

/// The counters after an empty message came in.
pub open spec fn empty_counted(m: Metrics, ty: Type) -> Metrics {
    if ty == Type::Reset {
        Metrics { empty_rst: inc(m.empty_rst), ..m }
    } else {
        Metrics { empty_ack: inc(m.empty_ack), ..m }
    }
}

/// The call that a reset rejects ends, if there is one.
pub open spec fn call_reset<T>(a: Core<T>, b: Core<T>, mid: MessageId, peer: Endpoint) -> bool {
    ||| b == a && !awaited_request(a.engine, mid, peer) && forall|k: int|
        0 <= k < a.engine.exchanges.rows@.len() ==> !sent_as(
            #[trigger] a.engine.exchanges.rows@[k],
            mid,
            peer,
        )
    ||| exists|x: ExchangeEntry|
        #[trigger] reset_about(a.engine, mid, peer, x) && call_failed(
            a,
            b,
            Call { token: x.token, peer: x.peer },
            CallFailure::Reset,
            false,
        )
}

/// What an empty acknowledgement or reset does: the message that it is about
/// waits no more. A reset also ends the call, and the observation, that it
/// rejects; an acknowledgement lets the observer be notified again.
pub open spec fn emptied<T>(a: Core<T>, b: Core<T>, m: MessageView, peer: Endpoint) -> bool {
    let mid = MessageId { raw: m.id };
    exists|c: Core<T>|
        {
            &&& if m.ty == Type::Reset {
                call_reset(a, c, mid, peer)
            } else {
                c == a
            }
            &&& #[trigger] about_settled(c, b, mid, peer, m.ty)
        }
}

/// The message that an empty one is about waits no more, and its observer is
/// seen to.
pub open spec fn about_settled<T>(
    a: Core<T>,
    b: Core<T>,
    mid: MessageId,
    peer: Endpoint,
    ty: Type,
) -> bool {
    &&& b == (Core { engine: b.engine, ..a })
    &&& exists|c: Engine|
        {
            let d = Engine { metrics: empty_counted(c.metrics, ty), ..c };
            &&& #[trigger] con_settled(a.engine, c, mid, peer)
            &&& if ty == Type::Reset {
                observer_rejected(d, b.engine, mid, peer)
            } else {
                &&& with_rows(d, b.engine)
                &&& forall|i: int|
                    0 <= i < d.store.observe.rows@.len() ==> #[trigger] b.engine.store.observe.rows@[
                        i
                    ] == acknowledged(d.store.observe.rows@[i], mid, peer)
            }
        }
}

impl<T: DatagramIo> Core<T> {
    /// Take in an empty acknowledgement or reset.
    fn handle_empty(&mut self, parsed: &ParsedMessage<'_>, peer: Endpoint)
        requires
            old(self).wf(),
            parsed@.ty == Type::Acknowledgement || parsed@.ty == Type::Reset,
        ensures
            final(self).wf(),
            carried(*old(self), *final(self)),
            dealt(*old(self), *final(self), peer),
            emptied(*old(self), *final(self), parsed@, peer),
    {
        let ghost first = *self;
        let mid = parsed.message_id();
        let reset: bool = parsed.ty() == Type::Reset;
        proof {
            lemma_dealt_same(first, first, peer);
        }
        if reset {
            self.complete_client_rst(mid, peer);
        }
        let ghost second = *self;
        proof {
            lemma_sends_one(first.port.log@, second.port.log@, peer);
            assert(reset ==> call_reset(first, second, mid, peer));
        }
        let _ = self.settle(mid, peer);
        let ghost third = *self;
        proof {
            lemma_dealt_trans(first, second, third, peer);
        }
        if reset {
            self.engine.metrics.empty_rst = Metrics::inc(self.engine.metrics.empty_rst);
            let _ = self.engine.reject_observe_notify(mid, peer);
        } else {
            self.engine.metrics.empty_ack = Metrics::inc(self.engine.metrics.empty_ack);
            self.engine.ack_observe_con(mid, peer);
        }
        proof {
            lemma_dealt_same(third, *self, peer);
            lemma_same_owned(second, third);
            assert(subscribed_still(
                third.engine.store.observe.rows@,
                self.engine.store.observe.rows@,
            )) by {
                reveal(subscribed_still);
            }
            lemma_observers_owned(third, *self);
            lemma_dealt_trans(first, third, *self, peer);
            lemma_pins_stay(third.engine, self.engine);
            assert(con_settled(second.engine, third.engine, mid, peer));
            assert(mid == MessageId { raw: parsed@.id });
            assert(about_settled(
                second,
                *self,
                MessageId { raw: parsed@.id },
                peer,
                parsed@.ty,
            ));
        }
    }
}

/// What a datagram of a peer does.
///
/// One that is no message is counted. A ping is rejected, and so answered. A
/// confirmable request that came before gets the answer that it got.
pub open spec fn datagram_handled<T: DatagramIo, const N: usize>(
    a: Core<T>,
    b: Core<T>,
    site: Site<N>,
    policy: Option<Box<dyn EchoPolicy>>,
    bytes: Seq<u8>,
    peer: Endpoint,
    now_ms: u64,
    r: Result<(), Error<T::Error>>,
) -> bool {
    match read_message(bytes) {
        Err(_) => {
            &&& r.is_ok()
            &&& b == (Core {
                engine: Engine {
                    metrics: Metrics {
                        rx_error: inc(a.engine.metrics.rx_error),
                        ..a.engine.metrics
                    },
                    ..a.engine
                },
                ..a
            })
        },
        Ok(m) => if m.code.raw() == 0 {
            if m.ty == Type::Acknowledgement || m.ty == Type::Reset {
                r.is_ok() && emptied(a, b, m, peer)
            } else if m.ty == Type::Confirmable {
                sent_plain(a, b, rst_message(MessageId { raw: m.id }), peer, r)
            } else {
                r.is_ok() && b == a
            }
        } else if m.code.spec_is_request() {
            request_handled(a, b, site, policy, m, peer, now_ms, r)
        } else {
            exists|call: Call|
                call.peer == peer && call.token@ == m.token && #[trigger] completed(
                    a,
                    b,
                    call,
                    m,
                    now_ms,
                    r,
                )
        },
    }
}

/// What a request does: it is answered from what is kept, or served.
pub open spec fn request_handled<T: DatagramIo, const N: usize>(
    a: Core<T>,
    b: Core<T>,
    site: Site<N>,
    policy: Option<Box<dyn EchoPolicy>>,
    m: MessageView,
    peer: Endpoint,
    now_ms: u64,
    r: Result<(), Error<T::Error>>,
) -> bool {
    if m.ty == Type::Confirmable {
        exists|c: Core<T>, again: Option<Result<(), Error<T::Error>>>|
            {
                &&& #[trigger] replayed(
                    a,
                    c,
                    peer,
                    MessageId { raw: m.id },
                    m.code,
                    now_ms,
                    again,
                )
                &&& match again {
                    Some(x) => r == x && b == c,
                    None => request_served(c, b, site, policy, m, peer, now_ms, r),
                }
            }
    } else {
        request_served(a, b, site, policy, m, peer, now_ms, r)
    }
}

impl<T: DatagramIo> Core<T> {
    /// Take in a request.
    fn handle_request<const N: usize>(
        &mut self,
        site: &Site<N>,
        policy: &Option<Box<dyn EchoPolicy>>,
        parsed: ParsedMessage<'_>,
        peer: Endpoint,
        now_ms: u64,
    ) -> (r: Result<(), Error<T::Error>>)
        requires
            old(self).wf(),
            site.wf(),
            policy matches Some(p) ==> policy_total(&**p),
        ensures
            final(self).wf(),
            carried(*old(self), *final(self)),
            dealt(*old(self), *final(self), peer),
            request_handled(
                *old(self),
                *final(self),
                *site,
                *policy,
                parsed@,
                peer,
                now_ms,
                r,
            ),
    {
        let ghost first = *self;
        let ghost m = parsed@;
        proof {
            lemma_dealt_same(first, first, peer);
        }
        if parsed.ty() == Type::Confirmable {
            let again = self.replay_con_request(
                peer,
                parsed.message_id(),
                parsed.code(),
                now_ms,
            );
            assert(replayed(
                first,
                *self,
                peer,
                MessageId { raw: m.id },
                m.code,
                now_ms,
                again,
            ));
            proof {
                lemma_same_owned(first, *self);
            }
            if let Some(r) = again {
                return r;
            }
        }
        let ghost second = *self;
        let r = self.serve_request(site, policy, parsed, peer, now_ms);
        proof {
            lemma_dealt_trans(first, second, *self, peer);
            lemma_tended_owned(second, *self);
        }
        r
    }

    /// Take in a datagram of a peer.
    pub fn handle_datagram<const N: usize>(
        &mut self,
        site: &Site<N>,
        policy: &Option<Box<dyn EchoPolicy>>,
        bytes: &[u8],
        peer: Endpoint,
        now_ms: u64,
    ) -> (r: Result<(), Error<T::Error>>)
        requires
            old(self).wf(),
            site.wf(),
            policy matches Some(p) ==> policy_total(&**p),
        ensures
            final(self).wf(),
            carried(*old(self), *final(self)),
            dealt(*old(self), *final(self), peer),
            datagram_handled(
                *old(self),
                *final(self),
                *site,
                *policy,
                bytes@,
                peer,
                now_ms,
                r,
            ),
    {
        let ghost first = *self;
        proof {
            lemma_dealt_same(first, first, peer);
        }
        let parsed = match decode(bytes) {
            Ok(parsed) => parsed,
            Err(_) => {
                self.engine.metrics.rx_error = Metrics::inc(self.engine.metrics.rx_error);
                proof {
                    lemma_dealt_same(first, *self, peer);
                    lemma_same_owned(first, *self);
                    lemma_pins_stay(first.engine, self.engine);
                }
                return Ok(());
            },
        };
        if parsed.is_empty_ack_or_rst() {
            self.handle_empty(&parsed, peer);
            return Ok(());
        }
        if parsed.is_empty() {
            if parsed.ty() == Type::Confirmable {
                let r = self.send_empty_rst(peer, parsed.message_id());
                proof {
                    lemma_same_owned(first, *self);
                }
                return r;
            }
            return Ok(());
        }
        if parsed.code().is_request() {
            return self.handle_request(site, policy, parsed, peer, now_ms);
        }
        self.complete_client(&parsed, peer, now_ms)
    }

    /// Take in the datagram of an incoming slot, and free the slot.
    pub fn dispatch_rx<const N: usize>(
        &mut self,
        site: &Site<N>,
        policy: &Option<Box<dyn EchoPolicy>>,
        rx: SlotId,
        now_ms: u64,
    ) -> (r: Result<(), Error<T::Error>>)
        requires
            old(self).wf(),
            site.wf(),
            policy matches Some(p) ==> policy_total(&**p),
            old(self).engine.store.rx.occupied(rx),
        ensures
            final(self).wf(),
            carried(*old(self), *final(self)),
            calm(old(self).engine, final(self).engine),
            grown(old(self).port.log@, final(self).port.log@),
            final(self).engine.store.rx.slots@ == old(self).engine.store.rx.slots@.update(
                rx.at as int,
                None,
            ),
            rx_dispatched(*old(self), *final(self), *site, *policy, rx, now_ms, r),
    {
        let ghost first = *self;
        let from: Option<Endpoint> = self.engine.store.rx.peer(rx);
        let bytes: Vec<u8> = match self.engine.store.rx.bytes(rx) {
            Ok(b) => crate::bytes::to_vec(b),
            Err(_) => Vec::new(),
        };
        proof {
            lemma_calm_same(first.engine, first.engine);
            lemma_grown_same(first.port.log@);
        }
        let r = match from {
            Some(peer) => {
                let r = self.handle_datagram(site, policy, bytes.as_slice(), peer, now_ms);
                proof {
                    lemma_sends_grown(first.port.log@, self.port.log@, peer);
                }
                r
            },
            None => Ok(()),
        };
        let ghost second = *self;
        let _ = self.engine.release_rx(rx);
        proof {
            lemma_calm_same(second.engine, self.engine);
            lemma_same_owned(second, *self);
            lemma_calm_trans(first.engine, second.engine, self.engine);
            lemma_pins_stay(second.engine, self.engine);
            assert(rx_freed(second, *self, rx));
        }
        r
    }
}

/// An incoming slot is freed; everything else stays.
pub open spec fn rx_freed<T>(a: Core<T>, b: Core<T>, rx: SlotId) -> bool {
    &&& b == (Core { engine: b.engine, ..a })
    &&& b.engine == (Engine {
        store: Store { rx: b.engine.store.rx, ..a.engine.store },
        ..a.engine
    })
    &&& b.engine.store.rx.slots@ == a.engine.store.rx.slots@.update(rx.at as int, None)
    &&& b.engine.store.rx.slot_bytes == a.engine.store.rx.slot_bytes
}

/// What taking in the datagram of an incoming slot does.
pub open spec fn rx_dispatched<T: DatagramIo, const N: usize>(
    a: Core<T>,
    b: Core<T>,
    site: Site<N>,
    policy: Option<Box<dyn EchoPolicy>>,
    rx: SlotId,
    now_ms: u64,
    r: Result<(), Error<T::Error>>,
) -> bool {
    exists|c: Core<T>|
        {
            &&& #[trigger] rx_freed(c, b, rx)
            &&& c.engine.store.rx == a.engine.store.rx
            &&& match a.engine.store.rx.slots@[rx.at as int]->0.peer {
                Some(peer) => datagram_handled(
                    a,
                    c,
                    site,
                    policy,
                    a.engine.store.rx.datagram(rx),
                    peer,
                    now_ms,
                    r,
                ),
                None => r.is_ok() && c == a,
            }
        }
}

} // verus!
