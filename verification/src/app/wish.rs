//! What a caller wants to send, and the sending of it.
use vstd::prelude::*;

use super::bodies::{body_begun, body_ended};
use super::calls::{queries_fit, Call, CallFailure, RetainedQueries, OBSERVE_REQUEST_BYTES};
use super::error::Error;
use super::ending::{call_failed, observing, replaced_body, request_settled};
use super::identity::{drawn, searched, AppIds, IdentityError};
use super::inbox::{tag_conflict, token_taken, LiveCall, OutgoingObserve};
use super::outbound::{
    contacted, identified, lemma_contacted_same, lemma_contacted_trans, no_options, opt_octets,
    request_options, requested, unnamed, CLIENT_OPTION_SLOTS, OptList, RequestOpts, RequestOptsView,
};
use super::owned::{carried, lemma_called_owned, lemma_same_owned};
use super::path::{texts_of, PathError};
use super::reactor::{lemma_pins_stay, Core};
use super::upload::{
    block1_issued, borrow_all, borrow_echo, copy_echo, copy_texts, echo_octets, upload_window,
    Upload, UploadView,
};
use crate::bytes::bytes_eq;
use crate::error::{BlockTransferError, EncodeError, SlotMessageError};
use crate::message::echo::be_octets;
use crate::message::wire::{decode, encode_fault, encode_to_vec, read_message, wire, MessageView};
use crate::message::{
    BlockValue, Code, ContentFormat, Echo, Message, MessageId, NoResponse, Token, Transmission,
    Type,
};
use crate::storage::endpoint::{
    BlockKey, BlockKeyView, BodyTag, Endpoint, ExchangeKey, ObserveKey, SlotId,
};
use crate::storage::blocks::{belongs, rx_body_dropped};
use crate::storage::engine::{
    later, lemma_outstanding, outstanding, slots_unwaited, unwaited, Engine, Store,
};
use crate::storage::io::DatagramIo;
use crate::storage::metrics::{inc, Metrics};
use crate::storage::pool::DatagramSlot;
use crate::storage::table::{find_row, lemma_find_row, place_row, without};
use crate::storage::transfer::{BlockRole, BodySlot};

verus! {

/// A request as its caller puts it.
pub struct Wish<'a> {
    /// Method.
    pub code: Code,
    /// Message type.
    pub ty: Type,
    /// Uri-Path.
    pub path: Result<Vec<&'static str>, PathError>,
    /// Payload.
    pub payload: &'a [u8],
    /// Content-Format.
    pub content_format: Option<ContentFormat>,
    /// Echo.
    pub echo: Option<Echo>,
    /// No-Response.
    pub no_response: Option<NoResponse>,
    /// Accept.
    pub accept: Option<ContentFormat>,
    /// Request-Tag.
    pub request_tag: BodyTag,
    /// ETag.
    pub etag: Option<&'a [u8]>,
    /// If-Match.
    pub if_match: Option<&'a [u8]>,
    /// If-None-Match.
    pub if_none_match: bool,
    /// Uri-Query.
    pub queries: Vec<&'a str>,
    /// Is a large body to go out in windows?
    pub q_block1: bool,
    /// May the response come in windows?
    pub q_block2: bool,
    /// The wanted block of the response.
    pub block2: Option<BlockValue>,
    /// What is wanted of observation.
    pub observe: OutgoingObserve,
    /// The subscription to end.
    pub selected: Option<Call>,
    /// When the call ends at the latest.
    pub deadline_ms: Option<u64>,
}

/// The Observe option of a request.
pub open spec fn observe_value(o: OutgoingObserve) -> Option<u32> {
    match o {
        OutgoingObserve::Off => None,
        OutgoingObserve::Register => Some(0),
        OutgoingObserve::Deregister => Some(1),
    }
}

impl<'a> Wish<'a> {
    /// Is the wanted block in range?
    pub open spec fn wf(&self) -> bool {
        self.block2 matches Some(b) ==> b.valid()
    }

    /// A confirmable request without anything but its path.
    pub fn new(code: Code, path: Result<Vec<&'static str>, PathError>) -> (w: Wish<'a>)
        ensures
            w.wf(),
            w.code == code,
            w.path == path,
            w.ty == Type::Confirmable,
            w.payload@.len() == 0,
            w.content_format.is_none(),
            w.echo.is_none(),
            w.no_response.is_none(),
            w.accept.is_none(),
            w.request_tag@.is_none(),
            w.etag.is_none(),
            w.if_match.is_none(),
            !w.if_none_match,
            w.queries@.len() == 0,
            !w.q_block1,
            !w.q_block2,
            w.block2.is_none(),
            w.observe == OutgoingObserve::Off,
            w.selected.is_none(),
            w.deadline_ms.is_none(),
    {
        let payload: &'a [u8] = &[];
        Wish {
            code,
            ty: Type::Confirmable,
            path,
            payload,
            content_format: None,
            echo: None,
            no_response: None,
            accept: None,
            request_tag: BodyTag::absent(),
            etag: None,
            if_match: None,
            if_none_match: false,
            queries: Vec::new(),
            q_block1: false,
            q_block2: false,
            block2: None,
            observe: OutgoingObserve::Off,
            selected: None,
            deadline_ms: None,
        }
    }

    /// The options of the request.
    pub open spec fn options(&self) -> RequestOptsView {
        RequestOptsView {
            if_match: opt_octets(self.if_match),
            etag: opt_octets(self.etag),
            if_none_match: self.if_none_match,
            observe: observe_value(self.observe),
            path: texts_of(self.path->Ok_0@),
            format: self.content_format,
            queries: texts_of(self.queries@),
            accept: self.accept,
            block2: self.block2,
            q_block2: if self.q_block2 {
                Some(BlockValue { num: 0, more: false, szx: 6 })
            } else {
                None
            },
            no_response: self.no_response,
            echo: echo_octets(self.echo),
            tag: self.request_tag@,
            ..no_options()
        }
    }

    /// The request in one message.
    pub open spec fn message(&self, token: Seq<u8>, mid: u16) -> MessageView {
        MessageView {
            ty: self.ty,
            code: self.code,
            id: mid,
            token,
            options: request_options(self.options()),
            payload: self.payload@,
        }
    }

    /// What a subscription and its cancellation must agree in: everything but
    /// Observe and ETag.
    pub open spec fn identity(&self) -> MessageView {
        MessageView {
            ty: Type::Confirmable,
            code: self.code,
            id: 0,
            token: Seq::empty(),
            options: request_options(
                RequestOptsView { etag: None, observe: None, ..self.options() },
            ),
            payload: self.payload@,
        }
    }

    fn list(&self, whole: bool) -> (l: OptList)
        requires
            self.wf(),
            self.path.is_ok(),
        ensures
            l@ == if whole {
                request_options(self.options())
            } else {
                self.identity().options
            },
            crate::message::option::ascending(l@),
    {
        let path = match &self.path {
            Ok(path) => copy_texts(path.as_slice()),
            Err(_) => Vec::new(),
        };
        let queries = copy_texts(self.queries.as_slice());
        let opts = RequestOpts {
            if_match: self.if_match,
            etag: if whole {
                self.etag
            } else {
                None
            },
            if_none_match: self.if_none_match,
            observe: if whole {
                match self.observe {
                    OutgoingObserve::Off => None,
                    OutgoingObserve::Register => Some(0),
                    OutgoingObserve::Deregister => Some(1),
                }
            } else {
                None
            },
            path: borrow_all(&path),
            format: self.content_format,
            queries: borrow_all(&queries),
            accept: self.accept,
            block2: self.block2,
            q_block2: if self.q_block2 {
                Some(BlockValue { num: 0, more: false, szx: 6 })
            } else {
                None
            },
            no_response: self.no_response,
            echo: borrow_echo(&self.echo),
            tag: self.request_tag.as_slice(),
            ..RequestOpts::none()
        };
        opts.list()
    }

    /// The bytes of what a subscription and its cancellation must agree in.
    pub fn identity_bytes(&self) -> (r: Result<Vec<u8>, EncodeError>)
        requires
            self.wf(),
            self.path.is_ok(),
        ensures
            match encode_fault(self.identity()) {
                Some(e) => r == Err::<Vec<u8>, EncodeError>(e),
                None => r matches Ok(v) && v@ == wire(self.identity()),
            },
    {
        let list = self.list(false);
        let opts = list.as_opts();
        let msg = Message::new(Type::Confirmable, self.code, MessageId::new(0)).with_options(
            opts.as_slice(),
        ).with_payload(self.payload);
        assert(msg@ == self.identity());
        encode_to_vec(&msg)
    }

    /// Is the request refused before anything is looked up?
    pub open spec fn refusal<E>(&self, now_ms: u64) -> Option<Error<E>> {
        if self.deadline_ms.is_some() && self.deadline_ms->0 <= now_ms {
            Some(Error::DeadlineElapsed)
        } else if self.path.is_err() {
            Some(Error::Path)
        } else if self.no_response.is_some() && self.q_block1 {
            Some(Error::NoResponseUploadUnsupported)
        } else if self.no_response.is_some() && self.no_response->0.mask != 0 && self.observe
            == OutgoingObserve::Register {
            Some(Error::NoResponseObserveUnsupported)
        } else if self.observe == OutgoingObserve::Off {
            None
        } else {
            match encode_fault(self.identity()) {
                Some(e) => Some(Error::Message(SlotMessageError::Encode(e))),
                None => if self.observe == OutgoingObserve::Register && wire(self.identity()).len()
                    > OBSERVE_REQUEST_BYTES {
                    Some(Error::ObserveRequestTooLarge)
                } else {
                    None
                },
            }
        }
    }

    /// Is the request refused before anything is looked up? If not, what its
    /// cancellation will have to repeat.
    pub fn check<E>(&self, now_ms: u64) -> (r: Result<Vec<u8>, Error<E>>)
        requires
            self.wf(),
        ensures
            match self.refusal::<E>(now_ms) {
                Some(e) => r == Err::<Vec<u8>, Error<E>>(e),
                None => r matches Ok(v) && v@ == if self.observe == OutgoingObserve::Off {
                    Seq::<u8>::empty()
                } else {
                    wire(self.identity())
                },
            },
    {
        let late: bool = match self.deadline_ms {
            Some(deadline) => deadline <= now_ms,
            None => false,
        };
        if late {
            return Err(Error::DeadlineElapsed);
        }
        if self.path.is_err() {
            return Err(Error::Path);
        }
        if let Some(n) = self.no_response {
            if self.q_block1 {
                return Err(Error::NoResponseUploadUnsupported);
            }
            if n.mask != 0 && self.observe == OutgoingObserve::Register {
                return Err(Error::NoResponseObserveUnsupported);
            }
        }
        if self.observe == OutgoingObserve::Off {
            return Ok(Vec::new());
        }
        match self.identity_bytes() {
            Ok(v) => if self.observe == OutgoingObserve::Register && v.len()
                > OBSERVE_REQUEST_BYTES {
                Err(Error::ObserveRequestTooLarge)
            } else {
                Ok(v)
            },
            Err(e) => Err(Error::Message(SlotMessageError::Encode(e))),
        }
    }
}

/// What the blocks of a request body have in common.
pub open spec fn wished_upload(w: Wish<'_>, token: Seq<u8>, dest: Endpoint) -> UploadView {
    UploadView {
        dest,
        ty: w.ty,
        code: w.code,
        token,
        path: texts_of(w.path->Ok_0@),
        queries: texts_of(w.queries@),
        accept: w.accept,
        format: w.content_format,
        echo: echo_octets(w.echo),
    }
}

/// The role of a request body.
pub open spec fn upload_role(q_block: bool) -> BlockRole {
    if q_block {
        BlockRole::OutgoingQBlock1
    } else {
        BlockRole::OutgoingBlock1
    }
}

/// What sending the first blocks of a request body does.
pub open spec fn upload_begun<T: DatagramIo>(
    a: Core<T>,
    b: Core<T>,
    u: UploadView,
    q_block: bool,
    id: SlotId,
    now_ms: u64,
    r: Result<(), Error<T::Error>>,
) -> bool {
    if q_block {
        upload_window(a, b, u, id, false, now_ms, r)
    } else {
        block1_issued(a, b, u, id, now_ms, r)
    }
}

/// What sending a request in blocks does.
pub open spec fn sent_in_blocks<T: DatagramIo>(
    a: Core<T>,
    b: Core<T>,
    w: Wish<'_>,
    token: Seq<u8>,
    dest: Endpoint,
    now_ms: u64,
    r: Result<(), Error<T::Error>>,
) -> bool {
    match a.engine.store.bodies {
        None => r == Err::<(), Error<T::Error>>(
            Error::Message(SlotMessageError::Encode(EncodeError::BufferTooSmall)),
        ) && b == a,
        Some(p) => if w.payload@.len() > p.tx.slot_bytes || w.payload@.len() > 0xfffff0 {
            r == Err::<(), Error<T::Error>>(Error::Block(BlockTransferError::Overflow)) && b == a
        } else if crate::storage::table::free_row(p.tx.slots@).is_none() {
            r == Err::<(), Error<T::Error>>(Error::Block(BlockTransferError::Saturated)) && b == a
        } else {
            exists|c: Core<T>, d: Core<T>, id: SlotId|
                {
                    &&& #[trigger] body_begun(
                        a,
                        c,
                        id,
                        upload_role(w.q_block1),
                        BlockKeyView { token, peer: dest, identity: w.request_tag@ },
                        w.payload@,
                        6,
                    )
                    &&& #[trigger] upload_begun(
                        c,
                        d,
                        wished_upload(w, token, dest),
                        w.q_block1,
                        id,
                        now_ms,
                        r,
                    )
                    &&& if r.is_err() {
                        body_ended(d, b, id)
                    } else {
                        b == d
                    }
                }
        },
    }
}

/// What sending a request does: in one message, or, if it does not fit, in
/// blocks. A body in blocks cannot carry conditions or No-Response.
pub open spec fn wish_sent<T: DatagramIo>(
    a: Core<T>,
    b: Core<T>,
    w: Wish<'_>,
    token: Seq<u8>,
    dest: Endpoint,
    now_ms: u64,
    r: Result<(), Error<T::Error>>,
) -> bool {
    let m = w.message(token, a.ids.next_mid);
    &&& b == (Core { engine: b.engine, port: b.port, ids: b.ids, ..a })
    &&& {
        ||| (r matches Err(Error::Identity(e)) && unnamed(a, b, now_ms, e))
        ||| {
            &&& !a.ids.exhausted(a.engine, now_ms)
            &&& if m.options.len() > CLIENT_OPTION_SLOTS {
                r == Err::<(), Error<T::Error>>(
                    Error::Message(SlotMessageError::Encode(EncodeError::OptionsFull)),
                ) && identified(a, b, now_ms)
            } else {
                exists|c: Core<T>, d: Core<T>, one: Result<(), Error<T::Error>>|
                    {
                        &&& identified(a, c, now_ms)
                        &&& #[trigger] requested(c, d, m, dest, true, now_ms, one)
                        &&& if one != Err::<(), Error<T::Error>>(
                            Error::Message(SlotMessageError::Encode(EncodeError::BufferTooSmall)),
                        ) {
                            r == one && b == d
                        } else if w.no_response.is_some() {
                            r == Err::<(), Error<T::Error>>(Error::NoResponseUploadUnsupported) && b == d
                        } else if w.if_match.is_some() || w.if_none_match || w.etag.is_some() {
                            r == Err::<(), Error<T::Error>>(Error::ConditionalUploadUnsupported) && b == d
                        } else {
                            sent_in_blocks(d, b, w, token, dest, now_ms, r)
                        }
                    }
            }
        }
    }
}

/// Is this the error of a message that does not fit into a slot?
fn is_too_small<E>(r: &Result<(), Error<E>>) -> (b: bool)
    ensures
        b == (*r == Err::<(), Error<E>>(
            Error::Message(SlotMessageError::Encode(EncodeError::BufferTooSmall)),
        )),
{
    match r {
        Err(Error::Message(SlotMessageError::Encode(EncodeError::BufferTooSmall))) => true,
        _ => false,
    }
}

impl<T: DatagramIo> Core<T> {
    /// Start to send a request in blocks.
    fn send_client_block1(&mut self, w: &Wish<'_>, token: Token, dest: Endpoint, now_ms: u64) -> (r:
        Result<(), Error<T::Error>>)
        requires
            old(self).wf(),
            w.wf(),
            w.path.is_ok(),
        ensures
            final(self).wf(),
            contacted(*old(self), *final(self), dest),
            final(self).inbox == old(self).inbox,
            final(self).lives == old(self).lives,
            final(self).engine.store.observe == old(self).engine.store.observe,
            sent_in_blocks(*old(self), *final(self), *w, token@, dest, now_ms, r),
    {
        let ghost first = *self;
        proof {
            lemma_contacted_same(first, first, dest);
        }
        let key = BlockKey::new(token, dest).with_identity(w.request_tag);
        let role = if w.q_block1 {
            BlockRole::OutgoingQBlock1
        } else {
            BlockRole::OutgoingBlock1
        };
        let started = self.engine.start_body(role, key, w.payload, 6);
        let id = match started {
            Ok(id) => id,
            Err(BlockTransferError::NoBodyPools) => {
                return Err(Error::Message(SlotMessageError::Encode(EncodeError::BufferTooSmall)));
            },
            Err(e) => return Err(Error::Block(e)),
        };
        let ghost second = *self;
        proof {
            lemma_contacted_same(first, second, dest);
            lemma_pins_stay(first.engine, second.engine);
            assert(body_begun(
                first,
                second,
                id,
                upload_role(w.q_block1),
                BlockKeyView { token: token@, peer: dest, identity: w.request_tag@ },
                w.payload@,
                6,
            ));
        }
        let path = match &w.path {
            Ok(path) => copy_texts(path.as_slice()),
            Err(_) => Vec::new(),
        };
        let u = Upload {
            dest,
            ty: w.ty,
            code: w.code,
            token,
            path,
            queries: copy_texts(w.queries.as_slice()),
            accept: w.accept,
            format: w.content_format,
            echo: copy_echo(&w.echo),
        };
        assert(u@ == wished_upload(*w, token@, dest));
        let r = if w.q_block1 {
            self.issue_q_block1_window(&u, id, false, now_ms)
        } else {
            self.issue_block1(&u, id, now_ms)
        };
        let ghost third = *self;
        proof {
            lemma_contacted_trans(first, second, third, dest);
        }
        if r.is_err() {
            self.engine.release_tx_body(id);
            proof {
                lemma_contacted_same(third, *self, dest);
                lemma_contacted_trans(first, third, *self, dest);
                lemma_pins_stay(third.engine, self.engine);
                let slots = third.engine.store.bodies->0.tx.slots@;
                if third.engine.tx_transfer(id).is_none() {
                    assert(slots.update(id.at as int, None) =~= slots);
                }
                assert(body_ended(third, *self, id));
            }
        }
        proof {
            assert(upload_begun(
                second,
                third,
                wished_upload(*w, token@, dest),
                w.q_block1,
                id,
                now_ms,
                r,
            ));
        }
        r
    }

    /// Send a request.
    pub fn send_client(&mut self, w: &Wish<'_>, token: Token, dest: Endpoint, now_ms: u64) -> (r:
        Result<(), Error<T::Error>>)
        requires
            old(self).wf(),
            w.wf(),
            w.path.is_ok(),
        ensures
            final(self).wf(),
            contacted(*old(self), *final(self), dest),
            final(self).inbox == old(self).inbox,
            final(self).lives == old(self).lives,
            final(self).engine.store.observe == old(self).engine.store.observe,
            wish_sent(*old(self), *final(self), *w, token@, dest, now_ms, r),
    {
        let ghost first = *self;
        let mid = match self.ids.next_for(&self.engine, now_ms) {
            Ok(mid) => mid,
            Err(e) => {
                proof {
                    lemma_contacted_same(first, *self, dest);
                }
                return Err(Error::Identity(e));
            },
        };
        let ghost second = *self;
        proof {
            lemma_contacted_same(first, second, dest);
        }
        let list = w.list(true);
        if list.len() > CLIENT_OPTION_SLOTS {
            return Err(Error::Message(SlotMessageError::Encode(EncodeError::OptionsFull)));
        }
        let opts = list.as_opts();
        let msg = Message::new(w.ty, w.code, mid).with_token(token).with_options(
            opts.as_slice(),
        ).with_payload(w.payload);
        assert(msg@ == w.message(token@, mid.raw));
        let one = self.finish_client_send(&msg, dest, now_ms, true);
        let ghost third = *self;
        proof {
            lemma_contacted_trans(first, second, third, dest);
            assert(requested(second, third, msg@, dest, true, now_ms, one));
        }
        if !is_too_small(&one) {
            return one;
        }
        if w.no_response.is_some() {
            return Err(Error::NoResponseUploadUnsupported);
        }
        if w.if_match.is_some() || w.if_none_match || w.etag.is_some() {
            return Err(Error::ConditionalUploadUnsupported);
        }
        let r = self.send_client_block1(w, token, dest, now_ms);
        proof {
            lemma_contacted_trans(first, third, *self, dest);
        }
        r
    }
}

/// Is a row a subscription that a cancellation may mean?
///
/// It is one at that peer, still alive, and was asked for in the same way; if
/// a call is named, it is that one.
pub open spec fn cancels<T>(
    c: Core<T>,
    row: Option<LiveCall>,
    identity: Seq<u8>,
    dest: Endpoint,
    selected: Option<Call>,
) -> bool {
    match row {
        Some(l) => {
            &&& l.observe == OutgoingObserve::Register
            &&& l.call.peer == dest
            &&& l.identity@ == identity
            &&& find_row(c.engine.exchanges.rows@, l.call.key()).is_some() || observing(
                c.engine,
                l.call,
            )
            &&& selected matches Some(s) ==> s.key() == l.call.key()
        },
        None => false,
    }
}

/// The subscriptions that a cancellation may mean.
pub open spec fn cancellable<T>(
    c: Core<T>,
    rows: Seq<Option<LiveCall>>,
    identity: Seq<u8>,
    dest: Endpoint,
    selected: Option<Call>,
) -> Seq<Call>
    decreases rows.len(),
{
    if rows.len() == 0 {
        Seq::empty()
    } else {
        let front = cancellable(c, rows.drop_last(), identity, dest, selected);
        if cancels(c, rows.last(), identity, dest, selected) {
            front.push(rows.last()->0.call)
        } else {
            front
        }
    }
}

/// Which subscription a cancellation means: the only one that it may mean.
pub open spec fn chosen<E>(calls: Seq<Call>) -> Result<Call, Error<E>> {
    if calls.len() == 0 {
        Err(Error::ObserveCancellationMismatch)
    } else if calls.len() == 1 {
        Ok(calls[0])
    } else {
        Err(Error::ObserveCancellationAmbiguous)
    }
}

/// Does an outgoing slot hold a message with this token?
pub open spec fn carries(slot: Option<DatagramSlot>, token: Seq<u8>) -> bool {
    slot matches Some(s) && (read_message(s.bytes@) matches Ok(m) && m.token == token)
}

/// Nothing of a request that could not be sent is left: it waits neither for a
/// response nor for an acknowledgement, and its body is gone.
pub open spec fn abandoned<T>(a: Core<T>, b: Core<T>, call: Call) -> bool {
    &&& contacted(a, b, call.peer)
    &&& b == (Core { engine: b.engine, ..a })
    &&& b.engine == (Engine {
        store: Store {
            tx: b.engine.store.tx,
            bodies: b.engine.store.bodies,
            ..a.engine.store
        },
        exchanges: b.engine.exchanges,
        pending: b.engine.pending,
        ..a.engine
    })
    &&& b.engine.exchanges.rows@ == without(a.engine.exchanges.rows@, call.key())
    &&& message_settled(a.engine, b.engine, call)
    &&& match a.engine.store.bodies {
        None => b.engine.store.bodies == a.engine.store.bodies,
        Some(p) => b.engine.store.bodies matches Some(q) && {
            &&& q.rx == p.rx
            &&& q.tx.slot_bytes == p.tx.slot_bytes
            &&& q.tx.slots@.len() == p.tx.slots@.len()
            &&& forall|i: int|
                0 <= i < p.tx.slots@.len() ==> #[trigger] q.tx.slots@[i] == if uploads(
                    p.tx.slots@[i],
                    call,
                ) {
                    None
                } else {
                    p.tx.slots@[i]
                }
        },
    }
}

/// The message that waits for its acknowledgement at a peer waits no more, if
/// it has the token of the call.
pub open spec fn message_settled(a: Engine, b: Engine, call: Call) -> bool {
    let at = outstanding(a.pending@, call.peer);
    if at.is_some() && carries(a.store.tx.slots@[at->0], call.token@) {
        let mid = a.pending@[at->0]->0.mid;
        &&& b.pending@ == unwaited(a.pending@, mid, call.peer)
        &&& b.store.tx.slots@ == slots_unwaited(a.store.tx.slots@, a.pending@, mid, call.peer)
        &&& b.store.tx.slot_bytes == a.store.tx.slot_bytes
    } else {
        b.pending == a.pending && b.store.tx == a.store.tx
    }
}

/// Does an outgoing request body belong to a call?
pub open spec fn uploads(slot: Option<BodySlot>, call: Call) -> bool {
    match slot {
        Some(s) => s.transfer.key.token@ == call.token@ && s.transfer.key.peer == call.peer && (
        s.transfer.role == BlockRole::OutgoingBlock1 || s.transfer.role
            == BlockRole::OutgoingQBlock1),
        None => false,
    }
}

/// A subscription that is about to be cancelled gives way: its request waits
/// no more, no notification is awaited, and what it left unread is gone.
pub open spec fn retired<T>(a: Core<T>, b: Core<T>, call: Call) -> bool {
    let settled = Engine {
        store: Store {
            tx: b.engine.store.tx,
            observe: b.engine.store.observe,
            ..a.engine.store
        },
        exchanges: b.engine.exchanges,
        pending: b.engine.pending,
        metrics: b.engine.metrics,
        ..a.engine
    };
    &&& contacted(a, b, call.peer)
    &&& b == (Core { engine: b.engine, inbox: b.inbox, ..a })
    &&& rx_body_dropped(settled, b.engine, replaced_body(a.inbox.rows.rows@, call))
    &&& request_settled(a.engine, b.engine, call, true)
    &&& b.engine.metrics == if observing(a.engine, call) {
        Metrics { observe_cancel: inc(a.engine.metrics.observe_cancel), ..a.engine.metrics }
    } else {
        a.engine.metrics
    }
    &&& b.engine.exchanges.rows@ == without(a.engine.exchanges.rows@, call.key())
    &&& b.engine.store.observe.rows@ == without(a.engine.store.observe.rows@, call.key())
    &&& b.inbox.rows.rows@ == without(a.inbox.rows.rows@, call.key())
}

/// How many tokens are tried before there is none.
pub const TOKEN_TRIES: u8 = 8;

/// Is there a test token that no call has among the next so many?
pub open spec fn test_token_found(rows: Seq<Option<LiveCall>>, count: u32, tries: nat) -> bool
    decreases tries,
{
    if tries == 0 || count == u32::MAX {
        false
    } else {
        !token_taken(rows, be_octets((count + 1) as nat, 4)) || test_token_found(
            rows,
            (count + 1) as u32,
            (tries - 1) as nat,
        )
    }
}

/// The count of test tokens after that search.
pub open spec fn test_token_count(rows: Seq<Option<LiveCall>>, count: u32, tries: nat) -> u32
    decreases tries,
{
    if tries == 0 || count == u32::MAX {
        count
    } else if !token_taken(rows, be_octets((count + 1) as nat, 4)) {
        (count + 1) as u32
    } else {
        test_token_count(rows, (count + 1) as u32, (tries - 1) as nat)
    }
}

/// What the search for a token that no call has gives, and what it leaves.
///
/// Test tokens are counted. Random ones are drawn, eight bytes each, until a draw
/// fails or gives a token that no call has, and at most so many times.
pub open spec fn token_sought<T>(
    a: Core<T>,
    b: Core<T>,
    r: Result<Seq<u8>, IdentityError>,
) -> bool {
    let rows = a.lives.rows.rows@;
    &&& r matches Ok(t) ==> !token_taken(rows, t)
    &&& if a.ids.source is Test {
        let count = test_token_count(rows, a.ids.test_token, TOKEN_TRIES as nat);
        &&& b == token_drawn(a, count)
        &&& r == if test_token_found(rows, a.ids.test_token, TOKEN_TRIES as nat) {
            Ok::<Seq<u8>, IdentityError>(be_octets(count as nat, 4))
        } else {
            Err(IdentityError::TokenExhausted)
        }
    } else {
        &&& b == (Core { ids: b.ids, ..a })
        &&& a.ids.drew(b.ids)
        &&& searched(
            a.ids.source,
            8,
            a.ids.draws@,
            b.ids.draws@,
            |t: Seq<u8>| !token_taken(rows, t),
        )
        &&& r == match b.ids.draws@.last().r {
            Some(t) => if token_taken(rows, t) {
                Err::<Seq<u8>, IdentityError>(IdentityError::TokenExhausted)
            } else {
                Ok(t)
            },
            None => Err(IdentityError::RandomnessUnavailable),
        }
    }
}

/// The octets of a token that was sought.
pub open spec fn token_octets(r: Result<Token, IdentityError>) -> Result<Seq<u8>, IdentityError> {
    match r {
        Ok(t) => Ok(t@),
        Err(e) => Err(e),
    }
}

impl<T: DatagramIo> Core<T> {
    /// A token that no call under way has.
    fn next_token(&mut self) -> (r: Result<Token, IdentityError>)
        requires
            old(self).wf(),
        ensures
            final(self).wf(),
            token_sought(*old(self), *final(self), token_octets(r)),
    {
        let ghost first = *self;
        let ghost rows = self.lives.rows.rows@;
        let ghost start = self.ids.draws@;
        let mut tries: u8 = 0;
        while tries < TOKEN_TRIES
            invariant
                tries <= TOKEN_TRIES,
                self.wf(),
                first == *old(self),
                rows == first.lives.rows.rows@,
                start == first.ids.draws@,
                first.ids.source is Test ==> *self == token_drawn(first, self.ids.test_token),
                first.ids.source is Test ==> test_token_count(
                    rows,
                    first.ids.test_token,
                    TOKEN_TRIES as nat,
                ) == test_token_count(rows, self.ids.test_token, (TOKEN_TRIES - tries) as nat),
                first.ids.source is Test ==> test_token_found(
                    rows,
                    first.ids.test_token,
                    TOKEN_TRIES as nat,
                ) == test_token_found(rows, self.ids.test_token, (TOKEN_TRIES - tries) as nat),
                first.ids.source is Random ==> {
                    &&& *self == (Core { ids: self.ids, ..first })
                    &&& first.ids.drew(self.ids)
                    &&& self.ids.draws@.len() == start.len() + tries
                    &&& self.ids.draws@.subrange(0, start.len() as int) == start
                    &&& forall|i: int|
                        start.len() <= i < self.ids.draws@.len() ==> (
                        #[trigger] self.ids.draws@[i]).n == 8 && drawn(
                            first.ids.source,
                            8,
                            self.ids.draws@[i].r,
                        ) && (self.ids.draws@[i].r matches Some(t) && token_taken(rows, t))
                },
            decreases TOKEN_TRIES - tries,
        {
            let ghost before = self.ids.draws@;
            let token = self.ids.token();
            proof {
                if first.ids.source is Random {
                    let after = self.ids.draws@;
                    assert(after.subrange(0, start.len() as int) =~= before.subrange(
                        0,
                        start.len() as int,
                    ));
                    assert forall|i: int| start.len() <= i < after.len() - 1 implies (
                    #[trigger] after[i]).n == 8 && drawn(first.ids.source, 8, after[i].r) && (
                    after[i].r matches Some(t) && token_taken(rows, t)) by {
                        assert(after[i] == before[i]);
                    }
                }
            }
            match token {
                Ok(t) => {
                    if !self.lives.token_in_use(&t) {
                        return Ok(t);
                    }
                },
                Err(e) => return Err(e),
            }
            tries = tries + 1;
        }
        Err(IdentityError::TokenExhausted)
    }

    /// Which subscription a cancellation means.
    fn select_subscription(&self, identity: &[u8], dest: Endpoint, selected: Option<Call>) -> (r:
        Result<Call, Error<T::Error>>)
        ensures
            r == chosen::<T::Error>(
                cancellable(*self, self.lives.rows.rows@, identity@, dest, selected),
            ),
            r matches Ok(call) ==> call.peer == dest,
    {
        let ghost rows = self.lives.rows.rows@;
        let mut found: Vec<Call> = Vec::new();
        let mut i: usize = 0;
        assert(rows.subrange(0, 0).len() == 0);
        while i < self.lives.rows.rows.len()
            invariant
                rows == self.lives.rows.rows@,
                i <= rows.len(),
                found@ == cancellable(
                    *self,
                    rows.subrange(0, i as int),
                    identity@,
                    dest,
                    selected,
                ),
                forall|k: int| 0 <= k < found@.len() ==> (#[trigger] found@[k]).peer == dest,
            decreases rows.len() - i,
        {
            let ghost next = rows.subrange(0, i + 1);
            assert(next.drop_last() =~= rows.subrange(0, i as int));
            assert(next.last() == rows[i as int]);
            if let Some(l) = &self.lives.rows.rows[i] {
                let named: bool = match selected {
                    Some(s) => s.to_key().same(&l.call.to_key()),
                    None => true,
                };
                if named && l.observe == OutgoingObserve::Register && l.call.peer == dest
                    && bytes_eq(l.identity.as_slice(), identity) && (self.engine.lookup_exchange(
                    ExchangeKey::new(l.call.token, l.call.peer),
                ).is_some() || self.client_observe_live(l.call)) {
                    found.push(l.call);
                }
            }
            i = i + 1;
        }
        assert(rows.subrange(0, i as int) =~= rows);
        if found.len() == 0 {
            Err(Error::ObserveCancellationMismatch)
        } else if found.len() == 1 {
            Ok(found[0])
        } else {
            Err(Error::ObserveCancellationAmbiguous)
        }
    }

    /// Clear away a request that could not be sent.
    fn abandon_send(&mut self, call: Call)
        requires
            old(self).wf(),
        ensures
            final(self).wf(),
            abandoned(*old(self), *final(self), call),
    {
        let ghost first = *self;
        let _ = self.engine.take_exchange(ExchangeKey::new(call.token, call.peer));
        let key = BlockKey::new(call.token, call.peer);
        self.engine.release_uploads(&key);
        let ghost second = *self;
        proof {
            lemma_contacted_same(first, second, call.peer);
            lemma_pins_stay(first.engine, second.engine);
            lemma_outstanding(second.engine.pending@, call.peer);
            if let Some(b) = first.engine.store.bodies {
                let slots = second.engine.store.bodies->0.tx.slots@;
                assert forall|i: int| 0 <= i < slots.len() implies #[trigger] slots[i]
                    == if uploads(b.tx.slots@[i], call) {
                    None
                } else {
                    b.tx.slots@[i]
                } by {
                    assert(slots[i] == if belongs(
                        b.tx.slots@[i],
                        key,
                        BlockRole::OutgoingBlock1,
                        BlockRole::OutgoingQBlock1,
                    ) {
                        None
                    } else {
                        b.tx.slots@[i]
                    });
                }
            }
        }
        if let Some(at) = self.engine.find_outstanding(call.peer) {
            let mine: bool = match self.engine.store.tx.bytes(SlotId { at }) {
                Ok(bytes) => match decode(bytes) {
                    Ok(m) => m.token().same(&call.token),
                    Err(_) => false,
                },
                Err(_) => false,
            };
            if mine {
                if let Some(p) = self.engine.pending_con(SlotId { at }) {
                    let _ = self.settle(p.mid, call.peer);
                    proof {
                        lemma_contacted_trans(first, second, *self, call.peer);
                    }
                }
            }
        }
    }

    /// Let a subscription give way to its cancellation.
    fn retire_subscription(&mut self, call: Call)
        requires
            old(self).wf(),
        ensures
            final(self).wf(),
            retired(*old(self), *final(self), call),
    {
        let ghost first = *self;
        let entry = self.engine.take_exchange(ExchangeKey::new(call.token, call.peer));
        let ghost second = *self;
        proof {
            lemma_contacted_same(first, second, call.peer);
            lemma_pins_stay(first.engine, second.engine);
            lemma_find_row(first.engine.exchanges.rows@, call.key());
        }
        if let Some(e) = entry {
            let _ = self.settle(e.mid, call.peer);
            proof {
                lemma_contacted_trans(first, second, *self, call.peer);
            }
        }
        let ghost third = *self;
        let _ = self.engine.take_observe(ObserveKey::new_client(call.token, call.peer));
        let ghost fourth = *self;
        if let Some(body) = self.inbox.forget(call) {
            self.engine.release_rx_body(body);
        }
        proof {
            lemma_find_row(first.inbox.rows.rows@, call.key());
            assert(rx_body_dropped(
                fourth.engine,
                self.engine,
                replaced_body(first.inbox.rows.rows@, call),
            ));
            lemma_find_row(third.engine.store.observe.rows@, call.key());
            lemma_contacted_same(third, *self, call.peer);
            lemma_contacted_trans(first, third, *self, call.peer);
            lemma_pins_stay(third.engine, self.engine);
        }
    }
}

/// How long a request may wait for its response.
pub open spec fn response_lifetime(ty: Type) -> int {
    if ty == Type::NonConfirmable {
        Transmission::NON_LIFETIME_MS as int
    } else {
        Transmission::EXCHANGE_LIFETIME_MS as int
    }
}

/// What is recorded of a request that was sent.
pub open spec fn records(l: LiveCall, w: Wish<'_>, call: Call, now_ms: u64) -> bool {
    &&& l.call == call
    &&& l.queries@ == texts_of(w.queries@)
    &&& l.accept == w.accept
    &&& l.request_tag == w.request_tag
    &&& w.path == Ok::<Vec<&'static str>, PathError>(l.path)
    &&& l.code == w.code
    &&& l.ty == w.ty
    &&& l.content_format == w.content_format
    &&& l.echo == w.echo
    &&& l.no_response == w.no_response
    &&& l.observe == w.observe
    &&& l.observed.is_none()
    &&& l.identity@ == if w.observe == OutgoingObserve::Off {
        Seq::<u8>::empty()
    } else {
        wire(w.identity())
    }
    &&& l.due_ms == later(now_ms, response_lifetime(w.ty))
    &&& l.deadline_ms == w.deadline_ms
}

/// Is a request refused for the calls that are under way, or for its tag or
/// queries?
pub open spec fn place_refusal<T: DatagramIo>(c: Core<T>, w: Wish<'_>, call: Call) -> Option<Error<T::Error>> {
    if !c.lives.admits(call) {
        Some(Error::Saturated)
    } else if w.q_block1 && w.request_tag@.is_none() {
        Some(Error::RequestTagRequired)
    } else if w.observe != OutgoingObserve::Deregister && w.request_tag@.is_some() && tag_taken(
        c.lives.rows.rows@,
        call.peer,
        w.request_tag,
    ) {
        Some(Error::RequestTagInUse)
    } else if !queries_fit(texts_of(w.queries@)) {
        Some(Error::Message(SlotMessageError::Encode(EncodeError::OptionValueTooLong)))
    } else {
        None
    }
}

/// Does a call under way at this peer have this tag?
pub open spec fn tag_taken(rows: Seq<Option<LiveCall>>, peer: Endpoint, tag: BodyTag) -> bool {
    exists|i: int| 0 <= i < rows.len() && tag_conflict(#[trigger] rows[i], peer, tag)
}

/// What becomes of a request once it was sent, or could not be.
pub open spec fn concluded<T: DatagramIo>(
    a: Core<T>,
    b: Core<T>,
    w: Wish<'_>,
    call: Call,
    now_ms: u64,
    sent: Result<(), Error<T::Error>>,
    r: Result<Call, Error<T::Error>>,
) -> bool {
    match sent {
        Ok(_) => {
            let i = place_row(a.lives.rows.rows@, call.key());
            &&& r == Ok::<Call, Error<T::Error>>(call)
            &&& b == (Core { lives: b.lives, ..a })
            &&& match i {
                Some(i) => b.lives.rows.rows@ == a.lives.rows.rows@.update(
                    i,
                    b.lives.rows.rows@[i],
                ) && b.lives.rows.rows@[i].is_some() && records(
                    b.lives.rows.rows@[i]->0,
                    w,
                    call,
                    now_ms,
                ),
                None => b.lives == a.lives,
            }
        },
        Err(e) => {
            &&& r == Err::<Call, Error<T::Error>>(e)
            &&& if w.observe == OutgoingObserve::Deregister {
                exists|c: Core<T>|
                    #[trigger] abandoned(a, c, call) && call_failed(
                        c,
                        b,
                        call,
                        CallFailure::CancellationFailed,
                        true,
                    )
            } else {
                abandoned(a, b, call)
            }
        },
    }
}

/// What sending a request under a token does.
pub open spec fn placed<T: DatagramIo>(
    a: Core<T>,
    b: Core<T>,
    w: Wish<'_>,
    call: Call,
    now_ms: u64,
    r: Result<Call, Error<T::Error>>,
) -> bool {
    match place_refusal::<T>(a, w, call) {
        Some(e) => r == Err::<Call, Error<T::Error>>(e) && b == a,
        None => exists|c: Core<T>, d: Core<T>, sent: Result<(), Error<T::Error>>|
            {
                &&& if w.observe == OutgoingObserve::Deregister {
                    retired(a, c, call)
                } else {
                    c == a
                }
                &&& #[trigger] wish_sent(c, d, w, call.token@, call.peer, now_ms, sent)
                &&& #[trigger] concluded(d, b, w, call, now_ms, sent, r)
            },
    }
}

/// The state after test tokens were drawn up to a count.
pub open spec fn token_drawn<T>(a: Core<T>, count: u32) -> Core<T> {
    Core { ids: AppIds { test_token: count, ..a.ids }, ..a }
}

/// What a caller's request does.
///
/// It may be refused at once. A cancellation takes the token of the
/// subscription that it means; any other request takes one that no call has.
pub open spec fn called<T: DatagramIo>(
    a: Core<T>,
    b: Core<T>,
    w: Wish<'_>,
    dest: Endpoint,
    now_ms: u64,
    r: Result<Call, Error<T::Error>>,
) -> bool {
    match w.refusal::<T::Error>(now_ms) {
        Some(e) => r == Err::<Call, Error<T::Error>>(e) && b == a,
        None => if w.observe == OutgoingObserve::Deregister {
            match chosen::<T::Error>(
                cancellable(a, a.lives.rows.rows@, wire(w.identity()), dest, w.selected),
            ) {
                Ok(call) => call.peer == dest && placed(a, b, w, call, now_ms, r),
                Err(e) => r == Err::<Call, Error<T::Error>>(e) && b == a,
            }
        } else {
            token_called(a, b, w, dest, now_ms, r)
        },
    }
}

/// What a caller's request does that takes a token of its own: one that no
/// call under way has.
///
/// Test tokens are counted; whether there is a random one is up to the source.
pub open spec fn token_called<T: DatagramIo>(
    a: Core<T>,
    b: Core<T>,
    w: Wish<'_>,
    dest: Endpoint,
    now_ms: u64,
    r: Result<Call, Error<T::Error>>,
) -> bool {
    exists|c: Core<T>, t: Result<Seq<u8>, IdentityError>|
        {
            &&& #[trigger] token_sought(a, c, t)
            &&& match t {
                Err(e) => r == Err::<Call, Error<T::Error>>(Error::Identity(e)) && b == c,
                Ok(token) => exists|call: Call|
                    call.peer == dest && call.token@ == token && #[trigger] placed(
                        c,
                        b,
                        w,
                        call,
                        now_ms,
                        r,
                    ),
            }
        }
}

impl<T: DatagramIo> Core<T> {
    /// Is a request refused for the calls that are under way, or for its tag
    /// or queries? If not, the queries to record.
    fn check_place(&self, w: &Wish<'_>, call: Call) -> (r: Result<RetainedQueries, Error<T::Error>>)
        ensures
            match place_refusal::<T>(*self, *w, call) {
                Some(e) => r == Err::<RetainedQueries, Error<T::Error>>(e),
                None => r matches Ok(q) && q@ == texts_of(w.queries@),
            },
    {
        if !self.lives.can_admit(call) {
            return Err(Error::Saturated);
        }
        if w.q_block1 && w.request_tag.is_absent() {
            return Err(Error::RequestTagRequired);
        }
        if w.observe != OutgoingObserve::Deregister && !w.request_tag.is_absent()
            && self.lives.tag_in_use(call.peer, &w.request_tag) {
            return Err(Error::RequestTagInUse);
        }
        match RetainedQueries::new(w.queries.as_slice()) {
            Ok(q) => Ok(q),
            Err(e) => Err(Error::Message(SlotMessageError::Encode(e))),
        }
    }

    /// Send a request under a token, and record it.
    fn place_call(&mut self, w: Wish<'_>, call: Call, identity: Vec<u8>, now_ms: u64) -> (r: Result<
        Call,
        Error<T::Error>,
    >)
        requires
            old(self).wf(),
            w.wf(),
            w.path.is_ok(),
            identity@ == if w.observe == OutgoingObserve::Off {
                Seq::<u8>::empty()
            } else {
                wire(w.identity())
            },
        ensures
            final(self).wf(),
            contacted(*old(self), *final(self), call.peer),
            placed(*old(self), *final(self), w, call, now_ms, r),
    {
        let ghost first = *self;
        let ghost wish = w;
        proof {
            lemma_contacted_same(first, first, call.peer);
        }
        let queries = match self.check_place(&w, call) {
            Ok(q) => q,
            Err(e) => return Err(e),
        };
        let cancelling: bool = w.observe == OutgoingObserve::Deregister;
        if cancelling {
            self.retire_subscription(call);
        }
        let ghost second = *self;
        let sent = self.send_client(&w, call.token, call.peer, now_ms);
        let ghost third = *self;
        proof {
            lemma_contacted_trans(first, second, third, call.peer);
            assert(wish_sent(second, third, wish, call.token@, call.peer, now_ms, sent));
        }
        match sent {
            Err(e) => {
                self.abandon_send(call);
                let ghost fourth = *self;
                proof {
                    lemma_contacted_trans(first, third, fourth, call.peer);
                    assert(abandoned(third, fourth, call));
                }
                if cancelling {
                    self.fail_call(call, CallFailure::CancellationFailed, true);
                    proof {
                        lemma_contacted_trans(first, fourth, *self, call.peer);
                    }
                }
                let r: Result<Call, Error<T::Error>> = Err(e);
                assert(concluded(third, *self, wish, call, now_ms, sent, r));
                r
            },
            Ok(()) => {
                let lifetime: u64 = if w.ty == Type::NonConfirmable {
                    Transmission::NON_LIFETIME_MS as u64
                } else {
                    Transmission::EXCHANGE_LIFETIME_MS as u64
                };
                let path = match w.path {
                    Ok(path) => path,
                    Err(_) => Vec::new(),
                };
                self.lives.insert(
                    LiveCall {
                        call,
                        queries,
                        accept: w.accept,
                        request_tag: w.request_tag,
                        path,
                        code: w.code,
                        ty: w.ty,
                        content_format: w.content_format,
                        echo: w.echo,
                        no_response: w.no_response,
                        observe: w.observe,
                        observed: None,
                        identity,
                        due_ms: now_ms.saturating_add(lifetime),
                        deadline_ms: w.deadline_ms,
                    },
                );
                proof {
                    lemma_contacted_same(third, *self, call.peer);
                    lemma_contacted_trans(first, third, *self, call.peer);
                    match place_row(third.lives.rows.rows@, call.key()) {
                        Some(i) => {
                            assert(self.lives.rows.rows@ =~= third.lives.rows.rows@.update(
                                i,
                                self.lives.rows.rows@[i],
                            ));
                            assert(records(
                                self.lives.rows.rows@[i]->0,
                                wish,
                                call,
                                now_ms,
                            ));
                        },
                        None => {},
                    }
                }
                let r: Result<Call, Error<T::Error>> = Ok(call);
                assert(concluded(third, *self, wish, call, now_ms, sent, r));
                r
            },
        }
    }

    /// Send a caller's request.
    pub fn send_call(&mut self, w: Wish<'_>, dest: Endpoint, now_ms: u64) -> (r: Result<
        Call,
        Error<T::Error>,
    >)
        requires
            old(self).wf(),
            w.wf(),
        ensures
            final(self).wf(),
            carried(*old(self), *final(self)),
            contacted(*old(self), *final(self), dest),
            called(*old(self), *final(self), w, dest, now_ms, r),
    {
        let ghost first = *self;
        let ghost wish = w;
        proof {
            lemma_contacted_same(first, first, dest);
        }
        let identity = match w.check::<T::Error>(now_ms) {
            Ok(v) => v,
            Err(e) => return Err(e),
        };
        if w.observe == OutgoingObserve::Deregister {
            let r = match self.select_subscription(identity.as_slice(), dest, w.selected) {
                Ok(call) => self.place_call(w, call, identity, now_ms),
                Err(e) => Err(e),
            };
            proof {
                lemma_called_owned(first, *self, wish, dest, now_ms, r);
            }
            return r;
        }
        let token = self.next_token();
        let ghost second = *self;
        proof {
            lemma_contacted_same(first, second, dest);
            assert(token_sought(first, second, token_octets(token)));
        }
        match token {
            Err(e) => {
                proof {
                    lemma_same_owned(first, *self);
                }
                Err(Error::Identity(e))
            },
            Ok(t) => {
                let call = Call::new(t, dest);
                let r = self.place_call(w, call, identity, now_ms);
                proof {
                    lemma_contacted_trans(first, second, *self, dest);
                    assert(placed(second, *self, wish, call, now_ms, r));
                    lemma_called_owned(first, *self, wish, dest, now_ms, r);
                }
                r
            },
        }
    }
}

} // verus!
