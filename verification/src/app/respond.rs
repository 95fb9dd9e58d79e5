//! The way an answer takes: at once, apart, in blocks, or not at all.
use vstd::prelude::*;

use super::answer::{encode_verdict, replied, Answer};
use super::bodies::{
    body_set, classic_issued, only_body, selection_issued, selects_within, started, window_issued,
};
use super::error::Error;
use super::outbound::{identified, unnamed};
use super::reactor::{
    delivered, lemma_bodies_served, lemma_pins_stay, lemma_served_same, lemma_served_trans,
    send_staged, served, Core,
};
use super::reply::{reply_message, encode_response, Head};
use super::response::{Response, ResponseView};
use super::send::{acknowledged, room_for_reply, room_made};
use crate::bytes::bytes_eq;
use crate::error::{BlockTransferError, EncodeError, SlotMessageError};
use crate::message::{BlockValue, MessageId, Type};
use crate::storage::blocks::response_body;
use crate::storage::endpoint::SlotId;
use crate::storage::engine::{stage_verdict, Confirm, EncodeFailure, Engine};
use crate::storage::io::DatagramIo;
use crate::storage::transfer::{BlockRole, BlockTransfer, BodySlot};

verus! {

/// The type of the message that answers a request.
pub open spec fn answer_type(ty: Type) -> Option<Type> {
    match ty {
        Type::Confirmable => Some(Type::Acknowledgement),
        Type::NonConfirmable => Some(Type::NonConfirmable),
        _ => None,
    }
}

/// The type of the message that answers a request.
pub fn answering_type(ty: Type) -> (r: Option<Type>)
    ensures
        r == answer_type(ty),
{
    match ty {
        Type::Confirmable => Some(Type::Acknowledgement),
        Type::NonConfirmable => Some(Type::NonConfirmable),
        _ => None,
    }
}

/// The outgoing body that already answers this exchange.
pub open spec fn retained(e: Engine, answer: Answer) -> Option<int> {
    match e.store.bodies {
        Some(b) => response_body(b.tx.slots@, answer.token@, answer.dest),
        None => None,
    }
}

/// Does a request continue a windowed transfer by naming single blocks?
pub open spec fn picks(selections: Seq<BlockValue>) -> bool {
    selections.len() > 0 && (selections.len() > 1 || !selections[0].more || selections[0].num % 10
        != 0)
}

/// Why a windowed transfer cannot go on.
pub open spec fn continue_fault(
    e: Engine,
    answer: Answer,
    r: ResponseView,
    id: SlotId,
) -> Option<BlockTransferError> {
    let t = e.tx_transfer(id)->0;
    let sel = answer.selections@;
    if t.key.identity@ != r.etag || e.tx_body(id) != r.payload {
        Some(BlockTransferError::IdentityMismatch)
    } else if sel.len() > 0 && sel[0].szx != t.szx {
        Some(BlockTransferError::SzxMismatch)
    } else if picks(sel) {
        if selects_within(sel, r.payload.len() as int, t.szx) {
            None
        } else {
            Some(BlockTransferError::Gap)
        }
    } else if sel.len() > 0 && sel[0].num > t.next_num {
        Some(BlockTransferError::OutsideWindow)
    } else {
        None
    }
}

/// What answering with more of a body does.
pub open spec fn continued<T: DatagramIo>(
    a: Core<T>,
    b: Core<T>,
    answer: Answer,
    r: ResponseView,
    ty: Type,
    mid: u16,
    id: SlotId,
    now_ms: u64,
    res: Result<(), Error<T::Error>>,
) -> bool {
    let slot = a.engine.store.bodies->0.tx.slots@[id.at as int]->0;
    let t = slot.transfer;
    let sel = answer.selections@;
    if t.role == BlockRole::OutgoingBlock2 {
        classic_issued(a, b, answer, r, ty, mid, id, None, res)
    } else {
        match continue_fault(a.engine, answer, r, id) {
            Some(e) => res == Err::<(), Error<T::Error>>(Error::Block(e)) && b == a,
            None => if picks(sel) {
                selection_issued(a, b, answer, r, ty, mid, id, now_ms, res)
            } else {
                exists|c: Core<T>|
                    {
                        &&& c == (Core { engine: c.engine, ..a })
                        &&& body_set(a.engine, c.engine, id, Some(window_moved_to(slot, sel)))
                        &&& #[trigger] window_issued(c, b, answer, r, ty, mid, id, now_ms, res)
                    }
            },
        }
    }
}

/// The state of an outgoing body once its window moved to where a request
/// wants it.
pub open spec fn window_moved_to(slot: BodySlot, selections: Seq<BlockValue>) -> BodySlot {
    BodySlot {
        transfer: BlockTransfer {
            window_base: if selections.len() > 0 && selections[0].num > slot.transfer.window_base {
                selections[0].num
            } else {
                slot.transfer.window_base
            },
            ..slot.transfer
        },
        bytes: slot.bytes,
    }
}

fn same_tag(a: Option<&[u8]>, b: Option<&[u8]>) -> (r: bool)
    ensures
        r == (a.is_some() == b.is_some() && (a.is_some() ==> a->0@ == b->0@)),
{
    match (a, b) {
        (Some(a), Some(b)) => bytes_eq(a, b),
        (None, None) => true,
        _ => false,
    }
}

impl<T: DatagramIo> Core<T> {
    /// Answer with more of a body that already goes out.
    ///
    /// A windowed transfer goes on only while the representation is the same.
    pub fn continue_outgoing(
        &mut self,
        answer: &Answer,
        response: &Response<'_>,
        head: Head,
        id: SlotId,
        now_ms: u64,
    ) -> (r: Result<(), Error<T::Error>>)
        requires
            old(self).wf(),
            answer.wf(),
            head.token == answer.token,
            old(self).engine.tx_transfer(id).is_some(),
            old(self).engine.tx_transfer(id)->0.role == BlockRole::OutgoingBlock2 || old(
                self).engine.tx_transfer(id)->0.role == BlockRole::OutgoingQBlock2,
        ensures
            final(self).wf(),
            served(*old(self), *final(self), answer.dest),
            only_body(old(self).engine, final(self).engine, id),
            continued(
                *old(self),
                *final(self),
                *answer,
                response@,
                head.ty,
                head.mid.raw,
                id,
                now_ms,
                r,
            ),
    {
        let ghost first = *self;
        proof {
            lemma_served_same(first, first, answer.dest);
        }
        let transfer = match self.engine.tx_body_transfer(id) {
            Some(t) => t,
            None => return Err(Error::Block(BlockTransferError::NoTransfer)),
        };
        if transfer.role == BlockRole::OutgoingBlock2 {
            return self.issue_classic(answer, response, head, id, None);
        }
        let same_body: bool = match self.engine.tx_body_payload(id) {
            Some(body) => bytes_eq(body, response.payload()),
            None => false,
        };
        if !same_body || !same_tag(transfer.key.identity.as_slice(), response.etag_bytes()) {
            return Err(Error::Block(BlockTransferError::IdentityMismatch));
        }
        let ghost slot = first.engine.store.bodies->0.tx.slots@[id.at as int]->0;
        if answer.selections.len() == 0 {
            proof {
                let slots = first.engine.store.bodies->0.tx.slots@;
                assert(slots.update(id.at as int, Some(slot)) =~= slots);
                assert(window_moved_to(slot, answer.selections@) == slot);
                assert(body_set(first.engine, first.engine, id, Some(slot)));
            }
            let r = self.issue_q_window(answer, response, head, id, now_ms);
            assert(window_issued(
                first,
                *self,
                *answer,
                response@,
                head.ty,
                head.mid.raw,
                id,
                now_ms,
                r,
            ));
            return r;
        }
        let q = answer.selections[0];
        if q.szx != transfer.szx {
            return Err(Error::Block(BlockTransferError::SzxMismatch));
        }
        if answer.selections.len() > 1 || !q.more || q.num % 10 != 0 {
            return self.issue_q_selection(answer, response, head, id, now_ms);
        }
        match self.engine.advance_window(id, q.num) {
            Ok(()) => {},
            Err(e) => return Err(Error::Block(e)),
        }
        let ghost second = *self;
        proof {
            lemma_bodies_served(first, second, answer.dest);
            lemma_pins_stay(first.engine, second.engine);
            assert(body_set(
                first.engine,
                second.engine,
                id,
                Some(window_moved_to(slot, answer.selections@)),
            ));
        }
        let r = self.issue_q_window(answer, response, head, id, now_ms);
        proof {
            lemma_served_trans(first, second, *self, answer.dest);
            assert(window_issued(
                second,
                *self,
                *answer,
                response@,
                head.ty,
                head.mid.raw,
                id,
                now_ms,
                r,
            ));
        }
        r
    }
}

/// There is no fresh message identifier, and nothing happens.
pub open spec fn unidentified<T: DatagramIo>(
    a: Core<T>,
    b: Core<T>,
    now_ms: u64,
    res: Result<(), Error<T::Error>>,
) -> bool {
    res matches Err(Error::Identity(e)) && unnamed(a, b, now_ms, e)
}

/// What answering with a message of this type and identifier does: more of a
/// body, the start of one, or one message.
///
/// An answer that does not fit into one message goes out in blocks.
pub open spec fn answered_with<T: DatagramIo>(
    a: Core<T>,
    b: Core<T>,
    answer: Answer,
    r: ResponseView,
    ty: Type,
    mid: u16,
    now_ms: u64,
    res: Result<(), Error<T::Error>>,
) -> bool {
    let body = retained(a.engine, answer);
    let m = reply_message(r, ty, mid, answer.token@, r.payload, None, answer.block1);
    if r.code.spec_is_success() && body.is_some() {
        continued(a, b, answer, r, ty, mid, SlotId { at: body->0 as usize }, now_ms, res)
    } else if r.code.spec_is_success() && (answer.block2.is_some() || answer.selections@.len() > 0) {
        started(a, b, answer, r, ty, mid, now_ms, res)
    } else if room_for_reply(a.engine) && encode_verdict(a.engine, m) == Some(
        EncodeError::BufferTooSmall,
    ) {
        exists|c: Core<T>|
            c == (Core { engine: c.engine, ..a }) && room_made(a.engine, c.engine)
                && #[trigger] started(
                c,
                b,
                answer,
                r,
                ty,
                mid,
                now_ms,
                res,
            )
    } else {
        replied(a, b, answer, m, now_ms, res)
    }
}

/// What answering a request does.
///
/// An invalid answer is refused. One that the peer does not want is replaced
/// by an empty acknowledgement, or by nothing. A confirmable request is
/// answered in its acknowledgement; the answer to a non-confirmable one gets
/// an identifier of its own.
#[verifier::opaque]
pub open spec fn answered<T: DatagramIo>(
    a: Core<T>,
    b: Core<T>,
    answer: Answer,
    r: ResponseView,
    now_ms: u64,
    res: Result<(), Error<T::Error>>,
) -> bool {
    match r.fault {
        Some(e) => res == Err::<(), Error<T::Error>>(Error::Response(e)) && b == a,
        None => if answer.no_response.suppressed(r.code) {
            if answer.ty == Type::Confirmable {
                acknowledged(a, b, answer.dest, answer.mid, now_ms, answer.request, res)
            } else {
                res.is_ok() && b == a
            }
        } else {
            match answer_type(answer.ty) {
                None => res.is_ok() && b == a,
                Some(ty) => if ty == Type::NonConfirmable {
                    ||| unidentified(a, b, now_ms, res)
                    ||| !a.ids.exhausted(a.engine, now_ms) && exists|c: Core<T>|
                        identified(a, c, now_ms) && #[trigger] answered_with(
                            c,
                            b,
                            answer,
                            r,
                            ty,
                            a.ids.next_mid,
                            now_ms,
                            res,
                        )
                } else {
                    answered_with(a, b, answer, r, ty, answer.mid.raw, now_ms, res)
                },
            }
        },
    }
}

impl<T: DatagramIo> Core<T> {
    /// Answer a request.
    pub fn send_response(&mut self, answer: &Answer, response: &Response<'_>, now_ms: u64) -> (r:
        Result<(), Error<T::Error>>)
        requires
            old(self).wf(),
            answer.wf(),
        ensures
            final(self).wf(),
            served(*old(self), *final(self), answer.dest),
            answered(*old(self), *final(self), *answer, response@, now_ms, r),
    {
        let ghost first = *self;
        proof {
            reveal(answered);
            lemma_served_same(first, first, answer.dest);
        }
        match response.validate() {
            Ok(()) => {},
            Err(e) => return Err(Error::Response(e)),
        }
        if answer.no_response.suppresses(response.code()) {
            return if answer.ty == Type::Confirmable {
                self.acknowledge(answer.dest, answer.mid, now_ms, answer.request)
            } else {
                Ok(())
            };
        }
        let ty = match answering_type(answer.ty) {
            Some(ty) => ty,
            None => return Ok(()),
        };
        let mid = if ty == Type::NonConfirmable {
            match self.ids.next_for(&self.engine, now_ms) {
                Ok(mid) => mid,
                Err(e) => {
                    proof {
                        lemma_served_same(first, *self, answer.dest);
                    }
                    return Err(Error::Identity(e));
                },
            }
        } else {
            answer.mid
        };
        let ghost second = *self;
        proof {
            lemma_served_same(first, second, answer.dest);
        }
        let r = self.answer_with(answer, response, ty, mid, now_ms);
        proof {
            lemma_served_trans(first, second, *self, answer.dest);
            assert(answered_with(
                second,
                *self,
                *answer,
                response@,
                ty,
                mid.raw,
                now_ms,
                r,
            ));
        }
        r
    }

    /// Answer with a message of this type and identifier.
    fn answer_with(
        &mut self,
        answer: &Answer,
        response: &Response<'_>,
        ty: Type,
        mid: MessageId,
        now_ms: u64,
    ) -> (r: Result<(), Error<T::Error>>)
        requires
            old(self).wf(),
            answer.wf(),
        ensures
            final(self).wf(),
            served(*old(self), *final(self), answer.dest),
            answered_with(
                *old(self),
                *final(self),
                *answer,
                response@,
                ty,
                mid.raw,
                now_ms,
                r,
            ),
    {
        let ghost first = *self;
        let head = Head { ty, mid, token: answer.token };
        if response.code().is_success() {
            if let Some(id) = self.engine.response_body_for(answer.token, answer.dest) {
                return self.continue_outgoing(answer, response, head, id, now_ms);
            }
            if answer.block2.is_some() || answer.selections.len() > 0 {
                return self.start_outgoing(answer, response, head, now_ms);
            }
        }
        match self.send_plain(answer, response, ty, mid, now_ms) {
            Err(Error::Message(SlotMessageError::Encode(EncodeError::BufferTooSmall))) => {
                let ghost second = *self;
                let r = self.start_outgoing(answer, response, head, now_ms);
                proof {
                    lemma_served_trans(first, second, *self, answer.dest);
                    assert(started(second, *self, *answer, response@, ty, mid.raw, now_ms, r));
                }
                r
            },
            other => other,
        }
    }
}

/// What sending an answer apart does, once the request is acknowledged.
pub open spec fn sent_apart<T: DatagramIo>(
    a: Core<T>,
    b: Core<T>,
    answer: Answer,
    r: ResponseView,
    now_ms: u64,
    res: Result<(), Error<T::Error>>,
) -> bool {
    let mid = a.ids.next_mid;
    let m = reply_message(r, answer.ty, mid, answer.token@, r.payload, None, answer.block1);
    ||| unidentified(a, b, now_ms, res)
    ||| !a.ids.exhausted(a.engine, now_ms) && exists|c: Core<T>| #[trigger]
        identified(a, c, now_ms) && if stage_verdict(a.engine, m) == Err::<int, EncodeFailure>(
            EncodeFailure::Encode(EncodeError::BufferTooSmall),
        ) {
            started(c, b, answer, r, answer.ty, mid, now_ms, res)
        } else {
            &&& b == (Core { engine: b.engine, port: b.port, ..c })
            &&& delivered(
                a.engine,
                b.engine,
                a.port,
                b.port,
                m,
                answer.dest,
                if answer.ty == Type::Confirmable {
                    Some(Confirm { now_ms, mid: MessageId { raw: mid }, jitter: c.ids.jitter })
                } else {
                    None
                },
                res,
            )
        }
}

/// What answering a request apart from its acknowledgement does.
///
/// The acknowledgement goes first and is kept as the answer; the answer then
/// goes out like a message of this side's own.
pub open spec fn separated<T: DatagramIo>(
    a: Core<T>,
    b: Core<T>,
    answer: Answer,
    r: ResponseView,
    now_ms: u64,
    res: Result<(), Error<T::Error>>,
) -> bool {
    let body = retained(a.engine, answer);
    match r.fault {
        Some(e) => res == Err::<(), Error<T::Error>>(Error::Response(e)) && b == a,
        None => match answer_type(answer.ty) {
            None => res.is_ok() && b == a,
            Some(ty) => if body.is_some() {
                let id = SlotId { at: body->0 as usize };
                if ty == Type::NonConfirmable {
                    ||| unidentified(a, b, now_ms, res)
                    ||| !a.ids.exhausted(a.engine, now_ms) && exists|c: Core<T>|
                        identified(a, c, now_ms) && #[trigger] continued(
                            c,
                            b,
                            answer,
                            r,
                            ty,
                            a.ids.next_mid,
                            id,
                            now_ms,
                            res,
                        )
                } else {
                    continued(a, b, answer, r, ty, answer.mid.raw, id, now_ms, res)
                }
            } else if answer.ty == Type::Confirmable {
                exists|c: Core<T>, ack: Result<(), Error<T::Error>>|
                    {
                        &&& #[trigger] acknowledged(
                            a,
                            c,
                            answer.dest,
                            answer.mid,
                            now_ms,
                            answer.request,
                            ack,
                        )
                        &&& if ack.is_err() {
                            res == ack && b == c
                        } else if answer.no_response.suppressed(r.code) {
                            res.is_ok() && b == c
                        } else {
                            sent_apart(c, b, answer, r, now_ms, res)
                        }
                    }
            } else if answer.no_response.suppressed(r.code) {
                res.is_ok() && b == a
            } else {
                sent_apart(a, b, answer, r, now_ms, res)
            },
        },
    }
}

impl<T: DatagramIo> Core<T> {
    /// Answer a request apart from its acknowledgement.
    pub fn send_separate(&mut self, answer: &Answer, response: &Response<'_>, now_ms: u64) -> (r:
        Result<(), Error<T::Error>>)
        requires
            old(self).wf(),
            answer.wf(),
        ensures
            final(self).wf(),
            served(*old(self), *final(self), answer.dest),
            separated(*old(self), *final(self), *answer, response@, now_ms, r),
    {
        let ghost first = *self;
        proof {
            lemma_served_same(first, first, answer.dest);
        }
        match response.validate() {
            Ok(()) => {},
            Err(e) => return Err(Error::Response(e)),
        }
        let ty = match answering_type(answer.ty) {
            Some(ty) => ty,
            None => return Ok(()),
        };
        if let Some(id) = self.engine.response_body_for(answer.token, answer.dest) {
            let mid = if ty == Type::NonConfirmable {
                match self.ids.next_for(&self.engine, now_ms) {
                    Ok(mid) => mid,
                    Err(e) => {
                        proof {
                            lemma_served_same(first, *self, answer.dest);
                        }
                        return Err(Error::Identity(e));
                    },
                }
            } else {
                answer.mid
            };
            let ghost second = *self;
            proof {
                lemma_served_same(first, second, answer.dest);
            }
            let head = Head { ty, mid, token: answer.token };
            let r = self.continue_outgoing(answer, response, head, id, now_ms);
            proof {
                lemma_served_trans(first, second, *self, answer.dest);
                assert(id == SlotId { at: retained(first.engine, *answer)->0 as usize });
                assert(ty == Type::NonConfirmable ==> identified(first, second, now_ms));
                assert(ty != Type::NonConfirmable ==> second == first);
                assert(continued(
                    second,
                    *self,
                    *answer,
                    response@,
                    ty,
                    mid.raw,
                    id,
                    now_ms,
                    r,
                ));
            }
            return r;
        }
        if answer.ty == Type::Confirmable {
            let ack = self.acknowledge(answer.dest, answer.mid, now_ms, answer.request);
            let ghost second = *self;
            assert(acknowledged(
                first,
                second,
                answer.dest,
                answer.mid,
                now_ms,
                answer.request,
                ack,
            ));
            if ack.is_err() || answer.no_response.suppresses(response.code()) {
                return ack;
            }
            let r = self.send_apart(answer, response, now_ms);
            proof {
                lemma_served_trans(first, second, *self, answer.dest);
            }
            return r;
        }
        if answer.no_response.suppresses(response.code()) {
            return Ok(());
        }
        self.send_apart(answer, response, now_ms)
    }

    /// Send an answer as a message of this side's own.
    fn send_apart(&mut self, answer: &Answer, response: &Response<'_>, now_ms: u64) -> (r: Result<
        (),
        Error<T::Error>,
    >)
        requires
            old(self).wf(),
            answer.wf(),
        ensures
            final(self).wf(),
            served(*old(self), *final(self), answer.dest),
            sent_apart(*old(self), *final(self), *answer, response@, now_ms, r),
    {
        let ghost first = *self;
        let mid = match self.ids.next_for(&self.engine, now_ms) {
            Ok(mid) => mid,
            Err(e) => {
                proof {
                    lemma_served_same(first, *self, answer.dest);
                }
                return Err(Error::Identity(e));
            },
        };
        let ghost second = *self;
        proof {
            lemma_served_same(first, second, answer.dest);
        }
        let confirm = if answer.ty == Type::Confirmable {
            Some(Confirm { now_ms, mid, jitter: self.ids.jitter() })
        } else {
            None
        };
        let head = Head { ty: answer.ty, mid, token: answer.token };
        let ghost m = reply_message(
            response@,
            answer.ty,
            mid.raw,
            answer.token@,
            response@.payload,
            None,
            answer.block1,
        );
        let slot = encode_response(
            &mut self.engine,
            head,
            response,
            response.payload(),
            None,
            answer.block1,
            answer.dest,
        );
        let r = match slot {
            Err(EncodeFailure::Encode(EncodeError::BufferTooSmall)) => self.start_outgoing(
                answer,
                response,
                head,
                now_ms,
            ),
            slot => {
                let r = send_staged(
                    &mut self.engine,
                    &mut self.port,
                    slot,
                    answer.dest,
                    confirm,
                    Ghost(second.engine),
                    Ghost(m),
                );
                proof {
                    lemma_pins_stay(second.engine, self.engine);
                }
                r
            },
        };
        proof {
            lemma_served_trans(first, second, *self, answer.dest);
            assert(identified(first, second, now_ms));
        }
        r
    }
}

} // verus!
