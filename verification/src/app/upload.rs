//! Requests whose body goes out in blocks, and requests for further blocks.
use vstd::prelude::*;
use vstd::string::StringSliceAdditionalSpecFns;

use super::bodies::{
    body_set, classic_cut, last_block, lemma_count_bound, lemma_in_body_count, lemma_tx_body,
    only_body, window_slot, window_stop,
};
use super::calls::Call;
use super::error::Error;
use super::inbox::{LiveCall, OutgoingObserve};
use super::outbound::{
    call_key, contacted, identified, lemma_contacted_same, lemma_contacted_trans, no_options,
    opt_octets, request_options, requested, unnamed, OptList, RequestOpts, RequestOptsView,
};
use super::path::texts_of;
use super::reactor::{lemma_pins_stay, Core};
use crate::bytes::to_vec;
use crate::error::BlockTransferError;
use crate::message::fields::{block_option, slices_of};
use crate::message::value::block_size;
use crate::message::wire::MessageView;
use crate::message::{BlockValue, Code, ContentFormat, Echo, Message, ParsedMessage, Token, Type};
use crate::storage::endpoint::{BodyTag, Endpoint, ExchangeKey, SlotId};
use crate::storage::engine::Engine;
use crate::storage::io::DatagramIo;
use crate::storage::table::{free_row, without};
use crate::storage::transfer::{
    block_count, block_of, cuts, in_body, law_cut_is_block, lemma_cuts, BlockRole, BlockTransfer,
    BodySlot, OutgoingBlock,
};

verus! {

/// What every block of a request body has in common.
pub struct Upload {
    /// The destination.
    pub dest: Endpoint,
    /// Message type of the first block.
    pub ty: Type,
    /// Method.
    pub code: Code,
    /// Token.
    pub token: Token,
    /// Uri-Path.
    pub path: Vec<Vec<u8>>,
    /// Uri-Query.
    pub queries: Vec<Vec<u8>>,
    /// Accept.
    pub accept: Option<ContentFormat>,
    /// Content-Format.
    pub format: Option<ContentFormat>,
    /// Echo.
    pub echo: Option<Echo>,
}

/// What every block of a request body has in common.
pub struct UploadView {
    /// The destination.
    pub dest: Endpoint,
    /// Message type of the first block.
    pub ty: Type,
    /// Method.
    pub code: Code,
    /// Token.
    pub token: Seq<u8>,
    /// Uri-Path.
    pub path: Seq<Seq<u8>>,
    /// Uri-Query.
    pub queries: Seq<Seq<u8>>,
    /// Accept.
    pub accept: Option<ContentFormat>,
    /// Content-Format.
    pub format: Option<ContentFormat>,
    /// Echo.
    pub echo: Option<Seq<u8>>,
}

/// The octets of owned values.
pub open spec fn octets_list(v: Seq<Vec<u8>>) -> Seq<Seq<u8>> {
    Seq::new(v.len(), |i: int| v[i]@)
}

/// The octets of an optional Echo value.
pub open spec fn echo_octets(e: Option<Echo>) -> Option<Seq<u8>> {
    match e {
        Some(e) => Some(e@),
        None => None,
    }
}

impl View for Upload {
    type V = UploadView;

    open spec fn view(&self) -> UploadView {
        UploadView {
            dest: self.dest,
            ty: self.ty,
            code: self.code,
            token: self.token@,
            path: octets_list(self.path@),
            queries: octets_list(self.queries@),
            accept: self.accept,
            format: self.format,
            echo: echo_octets(self.echo),
        }
    }
}

/// The message that carries one block of a request body.
pub open spec fn upload_message(
    u: UploadView,
    ty: Type,
    mid: u16,
    tag: Option<Seq<u8>>,
    body: Seq<u8>,
    num: u32,
    szx: u8,
    q_block: bool,
) -> MessageView {
    let size = block_size(szx as int);
    let block = BlockValue { num, more: (num + 1) * size < body.len(), szx };
    MessageView {
        ty,
        code: u.code,
        id: mid,
        token: u.token,
        options: request_options(
            RequestOptsView {
                path: u.path,
                format: u.format,
                queries: u.queries,
                accept: u.accept,
                block1: if q_block {
                    None
                } else {
                    Some(block)
                },
                q_block1: if q_block {
                    Some(block)
                } else {
                    None
                },
                size1: Some(body.len() as u32),
                echo: u.echo,
                tag,
                ..no_options()
            },
        ),
        payload: block_of(body, num as int, size),
    }
}

/// Borrow owned values.
pub fn borrow_all(v: &Vec<Vec<u8>>) -> (out: Vec<&[u8]>)
    ensures
        slices_of(out@) == octets_list(v@),
{
    let mut out: Vec<&[u8]> = Vec::new();
    let mut i: usize = 0;
    while i < v.len()
        invariant
            i <= v@.len(),
            out@.len() == i,
            forall|k: int| 0 <= k < i ==> (#[trigger] out@[k])@ == v@[k]@,
        decreases v@.len() - i,
    {
        out.push(v[i].as_slice());
        i = i + 1;
    }
    assert(slices_of(out@) =~= octets_list(v@));
    out
}

/// Copy values.
pub fn copy_all(v: &Vec<Vec<u8>>) -> (out: Vec<Vec<u8>>)
    ensures
        octets_list(out@) == octets_list(v@),
{
    let mut out: Vec<Vec<u8>> = Vec::new();
    let mut i: usize = 0;
    while i < v.len()
        invariant
            i <= v@.len(),
            out@.len() == i,
            forall|k: int| 0 <= k < i ==> (#[trigger] out@[k])@ == v@[k]@,
        decreases v@.len() - i,
    {
        out.push(to_vec(v[i].as_slice()));
        i = i + 1;
    }
    assert(octets_list(out@) =~= octets_list(v@));
    out
}

/// Copy texts as octets.
pub fn copy_texts(v: &[&str]) -> (out: Vec<Vec<u8>>)
    ensures
        octets_list(out@) == texts_of(v@),
{
    let mut out: Vec<Vec<u8>> = Vec::new();
    let mut i: usize = 0;
    while i < v.len()
        invariant
            i <= v@.len(),
            out@.len() == i,
            forall|k: int| 0 <= k < i ==> (#[trigger] out@[k])@ == v@[k].spec_bytes(),
        decreases v@.len() - i,
    {
        out.push(to_vec(v[i].as_bytes()));
        i = i + 1;
    }
    assert(octets_list(out@) =~= texts_of(v@));
    out
}

/// Borrow an optional Echo value.
pub fn borrow_echo(e: &Option<Echo>) -> (out: Option<&[u8]>)
    ensures
        opt_octets(out) == echo_octets(*e),
{
    match e {
        Some(e) => Some(e.as_slice()),
        None => None,
    }
}

/// Copy an optional Echo value.
pub fn copy_echo(e: &Option<Echo>) -> (out: Option<Echo>)
    ensures
        echo_octets(out) == echo_octets(*e),
{
    match e {
        Some(e) => Some(e.copy()),
        None => None,
    }
}

/// What sending one block of a request body does.
pub open spec fn block_uploaded<T: DatagramIo>(
    a: Core<T>,
    b: Core<T>,
    u: UploadView,
    ty: Type,
    tag: Option<Seq<u8>>,
    body: Seq<u8>,
    num: u32,
    szx: u8,
    q_block: bool,
    now_ms: u64,
    r: Result<(), Error<T::Error>>,
) -> bool {
    let m = upload_message(u, ty, a.ids.next_mid, tag, body, num, szx, q_block);
    if free_row(a.engine.store.tx.slots@).is_none() {
        r == Err::<(), Error<T::Error>>(Error::Saturated) && b == a
    } else {
        ||| (r matches Err(Error::Identity(e)) && unnamed(a, b, now_ms, e))
        ||| {
            &&& !a.ids.exhausted(a.engine, now_ms)
            &&& exists|c: Core<T>|
                identified(a, c, now_ms) && #[trigger] requested(c, b, m, u.dest, true, now_ms, r)
        }
    }
}

impl<T: DatagramIo> Core<T> {
    /// Send one block of a request body.
    fn send_block1_issued(
        &mut self,
        u: &Upload,
        ty: Type,
        issued: OutgoingBlock,
        q_block: bool,
        now_ms: u64,
        szx: Ghost<u8>,
    ) -> (r: Result<(), Error<T::Error>>)
        requires
            old(self).wf(),
            szx@ <= 6,
            old(self).engine.tx_transfer(issued.id).is_some(),
            old(self).engine.tx_body(issued.id).len() <= 0xfffff0,
            cuts(
                issued,
                issued.id,
                old(self).engine.tx_body(issued.id).len() as int,
                issued.block.num,
                szx@,
            ),
        ensures
            final(self).wf(),
            contacted(*old(self), *final(self), u.dest),
            final(self).inbox == old(self).inbox,
            final(self).lives == old(self).lives,
            final(self).engine.store.bodies == old(self).engine.store.bodies,
            final(self).engine.store.observe == old(self).engine.store.observe,
            block_uploaded(
                *old(self),
                *final(self),
                u@,
                ty,
                old(self).engine.tx_transfer(issued.id)->0.key.identity@,
                old(self).engine.tx_body(issued.id),
                issued.block.num,
                szx@,
                q_block,
                now_ms,
                r,
            ),
    {
        let ghost first = *self;
        let ghost body = self.engine.tx_body(issued.id);
        let ghost tag = self.engine.tx_transfer(issued.id)->0.key.identity@;
        proof {
            lemma_contacted_same(first, first, u.dest);
            lemma_cuts(issued, issued.id, body.len() as int, issued.block.num, szx@);
            law_cut_is_block(issued, issued.id, body, issued.block.num, szx@);
        }
        if crate::storage::table::first_free(&self.engine.store.tx.slots).is_none() {
            return Err(Error::Saturated);
        }
        let mid = match self.ids.next_for(&self.engine, now_ms) {
            Ok(mid) => mid,
            Err(e) => {
                proof {
                    lemma_contacted_same(first, *self, u.dest);
                }
                return Err(Error::Identity(e));
            },
        };
        let ghost second = *self;
        proof {
            lemma_contacted_same(first, second, u.dest);
        }
        let (chunk, whole): (Vec<u8>, usize) = match self.engine.tx_body_payload(issued.id) {
            Some(payload) => (
                to_vec(
                    vstd::slice::slice_subrange(
                        payload,
                        issued.offset,
                        issued.offset + issued.len,
                    ),
                ),
                payload.len(),
            ),
            None => return Err(Error::Block(BlockTransferError::NoTransfer)),
        };
        let identity = match self.engine.tx_body_transfer(issued.id) {
            Some(t) => t.key.identity,
            None => BodyTag::absent(),
        };
        let opts = RequestOpts {
            path: borrow_all(&u.path),
            format: u.format,
            queries: borrow_all(&u.queries),
            accept: u.accept,
            block1: if q_block {
                None
            } else {
                Some(issued.block)
            },
            q_block1: if q_block {
                Some(issued.block)
            } else {
                None
            },
            size1: Some(whole as u32),
            echo: borrow_echo(&u.echo),
            tag: identity.as_slice(),
            ..RequestOpts::none()
        };
        let list = opts.list();
        let borrowed = list.as_opts();
        let msg = Message::new(ty, u.code, mid).with_token(u.token).with_options(
            borrowed.as_slice(),
        ).with_payload(chunk.as_slice());
        assert(msg@ == upload_message(
            u@,
            ty,
            mid.raw,
            tag,
            body,
            issued.block.num,
            szx@,
            q_block,
        ));
        let r = self.finish_client_send(&msg, u.dest, now_ms, true);
        proof {
            lemma_contacted_trans(first, second, *self, u.dest);
            assert(requested(second, *self, msg@, u.dest, true, now_ms, r));
        }
        r
    }

    /// Send the next block of an ordered request body.
    pub fn issue_block1(&mut self, u: &Upload, id: SlotId, now_ms: u64) -> (r: Result<
        (),
        Error<T::Error>,
    >)
        requires
            old(self).wf(),
            old(self).engine.tx_transfer(id).is_some(),
            old(self).engine.tx_transfer(id)->0.role == BlockRole::OutgoingBlock1,
        ensures
            final(self).wf(),
            contacted(*old(self), *final(self), u.dest),
            final(self).inbox == old(self).inbox,
            final(self).lives == old(self).lives,
            final(self).engine.store.observe == old(self).engine.store.observe,
            only_body(old(self).engine, final(self).engine, id),
            block1_issued(*old(self), *final(self), u@, id, now_ms, r),
    {
        let ghost first = *self;
        let ghost t = self.engine.tx_transfer(id)->0;
        let ghost body = self.engine.tx_body(id);
        proof {
            lemma_tx_body(self.engine, id);
            lemma_contacted_same(first, first, u.dest);
        }
        let issued = match self.engine.next_block(id) {
            Ok(issued) => issued,
            Err(e) => return Err(Error::Block(e)),
        };
        let ghost second = *self;
        proof {
            lemma_contacted_same(first, second, u.dest);
            lemma_pins_stay(first.engine, second.engine);
            lemma_cuts(issued, id, body.len() as int, t.next_num, t.szx);
            let slot = first.engine.store.bodies->0.tx.slots@[id.at as int]->0;
            assert(issued.block.more == !last_block(body, t.next_num, t.szx)) by {
                reveal(cuts);
                let size = block_size(t.szx as int);
                assert((t.next_num + 1) * size == t.next_num * size + size) by (nonlinear_arith);
            }
            assert(body_set(first.engine, second.engine, id, classic_cut(slot, None)));
            assert(upload_cut(first, second, u@, id, false, 0));
        }
        let r = self.send_block1_issued(u, u.ty, issued, false, now_ms, Ghost(t.szx));
        proof {
            lemma_contacted_trans(first, second, *self, u.dest);
            assert(block_uploaded(
                second,
                *self,
                u@,
                u.ty,
                t.key.identity@,
                body,
                t.next_num,
                t.szx,
                false,
                now_ms,
                r,
            ));
        }
        r
    }
}

/// What sending the next block of an ordered request body does.
pub open spec fn block1_issued<T: DatagramIo>(
    a: Core<T>,
    b: Core<T>,
    u: UploadView,
    id: SlotId,
    now_ms: u64,
    r: Result<(), Error<T::Error>>,
) -> bool {
    let t = a.engine.tx_transfer(id)->0;
    let body = a.engine.tx_body(id);
    if t.complete {
        r == Err::<(), Error<T::Error>>(Error::Block(BlockTransferError::AlreadyComplete)) && b == a
    } else if t.next_num >= 0x100000 || !in_body(
        body.len() as int,
        t.next_num as int,
        block_size(t.szx as int),
    ) {
        r == Err::<(), Error<T::Error>>(Error::Block(BlockTransferError::Gap)) && b == a
    } else {
        exists|c: Core<T>|
            #[trigger] upload_cut(a, c, u, id, false, 0) && block_uploaded(
                c,
                b,
                u,
                u.ty,
                t.key.identity@,
                body,
                t.next_num,
                t.szx,
                false,
                now_ms,
                r,
            )
    }
}

/// The next block of a request body counts as sent; if told to, before the
/// first of a list, the request waits no more for its response.
pub open spec fn upload_cut<T>(
    a: Core<T>,
    b: Core<T>,
    u: UploadView,
    id: SlotId,
    take_first: bool,
    place: int,
) -> bool {
    let slot = a.engine.store.bodies->0.tx.slots@[id.at as int]->0;
    &&& b == (Core { engine: b.engine, ..a })
    &&& exists|c: Engine|
        {
            &&& #[trigger] body_set(a.engine, c, id, classic_cut(slot, None))
            &&& b.engine == (Engine { exchanges: b.engine.exchanges, ..c })
        }
    &&& if take_first && place == 0 {
        b.engine.exchanges.rows@ == without(
            a.engine.exchanges.rows@,
            call_key(u.token, u.dest),
        )
    } else {
        b.engine.exchanges == a.engine.exchanges
    }
}

/// Type of the message at a place of a list: the first goes out as told, the
/// others non-confirmable.
pub open spec fn upload_type(u: UploadView, place: int) -> Type {
    if place == 0 {
        u.ty
    } else {
        Type::NonConfirmable
    }
}

/// The block at a place of the list that follows what a slot has sent, and
/// sending it.
pub open spec fn upload_step<T: DatagramIo>(
    a: Core<T>,
    b: Core<T>,
    u: UploadView,
    slot: BodySlot,
    place: int,
    now_ms: u64,
    r: Result<(), Error<T::Error>>,
) -> bool {
    block_uploaded(
        a,
        b,
        u,
        upload_type(u, place),
        slot.transfer.key.identity@,
        slot.bytes@,
        (slot.transfer.next_num + place) as u32,
        slot.transfer.szx,
        true,
        now_ms,
        r,
    )
}

/// The first blocks of a list go out, one after the other.
pub open spec fn upload_run<T: DatagramIo>(
    a: Core<T>,
    b: Core<T>,
    u: UploadView,
    id: SlotId,
    take_first: bool,
    now_ms: u64,
    upto: nat,
) -> bool
    decreases upto,
{
    let slot = a.engine.store.bodies->0.tx.slots@[id.at as int]->0;
    if upto == 0 {
        b == a
    } else {
        exists|c: Core<T>, d: Core<T>, ok: Result<(), Error<T::Error>>|
            {
                &&& #[trigger] upload_cut(c, d, u, id, take_first, upto - 1)
                &&& #[trigger] upload_step(d, b, u, slot, upto - 1, now_ms, ok)
                &&& ok.is_ok()
                &&& upload_run::<T>(a, c, u, id, take_first, now_ms, (upto - 1) as nat)
            }
    }
}

/// What sending the blocks of a request body that its window allows does: they
/// go out in order, up to the end of the window or of the body; or up to the
/// first that could not.
pub open spec fn upload_window<T: DatagramIo>(
    a: Core<T>,
    b: Core<T>,
    u: UploadView,
    id: SlotId,
    take_first: bool,
    now_ms: u64,
    r: Result<(), Error<T::Error>>,
) -> bool {
    let slot = a.engine.store.bodies->0.tx.slots@[id.at as int]->0;
    let t = slot.transfer;
    let count = block_count(slot.bytes@.len() as int, block_size(t.szx as int));
    let left = window_stop(t, count) - t.next_num;
    if t.complete {
        r == Err::<(), Error<T::Error>>(Error::Block(BlockTransferError::AlreadyComplete)) && b == a
    } else if t.next_num >= t.window_base + 10 {
        r.is_ok() && b == a
    } else if t.next_num >= count {
        r == Err::<(), Error<T::Error>>(Error::Block(BlockTransferError::Gap)) && b == a
    } else if r.is_ok() {
        upload_run::<T>(a, b, u, id, take_first, now_ms, left as nat)
    } else {
        exists|c: Core<T>, d: Core<T>, n: nat|
            {
                &&& n < left
                &&& #[trigger] upload_run::<T>(a, c, u, id, take_first, now_ms, n)
                &&& #[trigger] upload_cut(c, d, u, id, take_first, n as int)
                &&& upload_step(d, b, u, slot, n as int, now_ms, r)
            }
    }
}

impl<T: DatagramIo> Core<T> {
    /// Send the blocks of a windowed request body that its window allows.
    ///
    /// The first goes out as told; the others are non-confirmable. If told to,
    /// the request waits no more for the response to earlier blocks.
    pub fn issue_q_block1_window(
        &mut self,
        u: &Upload,
        id: SlotId,
        take_first: bool,
        now_ms: u64,
    ) -> (r: Result<(), Error<T::Error>>)
        requires
            old(self).wf(),
            old(self).engine.tx_transfer(id).is_some(),
            old(self).engine.tx_transfer(id)->0.role == BlockRole::OutgoingQBlock1,
        ensures
            final(self).wf(),
            contacted(*old(self), *final(self), u.dest),
            final(self).inbox == old(self).inbox,
            final(self).lives == old(self).lives,
            final(self).engine.store.observe == old(self).engine.store.observe,
            only_body(old(self).engine, final(self).engine, id),
            upload_window(*old(self), *final(self), u@, id, take_first, now_ms, r),
    {
        let ghost first = *self;
        let ghost slot = first.engine.store.bodies->0.tx.slots@[id.at as int]->0;
        let ghost t = slot.transfer;
        let ghost body = slot.bytes@;
        let ghost size = block_size(t.szx as int);
        let ghost count = block_count(body.len() as int, size);
        let ghost left = window_stop(t, count) - t.next_num;
        proof {
            lemma_tx_body(self.engine, id);
            lemma_contacted_same(first, first, u.dest);
            lemma_in_body_count(body.len() as int, t.next_num as int, size);
            lemma_count_bound(body.len() as int, t.szx);
        }
        let mut sent: u32 = 0;
        loop
            invariant
                self.wf(),
                first == *old(self),
                first.engine.tx_transfer(id).is_some(),
                slot == first.engine.store.bodies->0.tx.slots@[id.at as int]->0,
                body == slot.bytes@,
                t == slot.transfer,
                size == block_size(t.szx as int),
                count == block_count(body.len() as int, size),
                left == window_stop(t, count) - t.next_num,
                in_body(body.len() as int, t.next_num as int, size) == (t.next_num < count),
                count <= 0x100000,
                t.szx <= 6,
                body.len() <= 0xfffff0,
                t.role == BlockRole::OutgoingQBlock1,
                t.next_num + sent <= 0x100000,
                t.window_base <= 0x10000a,
                self.inbox == first.inbox,
                self.lives == first.lives,
                self.engine.store.observe == first.engine.store.observe,
                self.engine.store.bodies.is_some(),
                id.at < self.engine.store.bodies->0.tx.slots@.len(),
                self.engine.store.bodies->0.tx.slots@[id.at as int] == window_slot(
                    slot,
                    sent as int,
                ),
                only_body(first.engine, self.engine, id),
                contacted(first, *self, u.dest),
                upload_run::<T>(
                    first,
                    *self,
                    u@,
                    id,
                    take_first,
                    now_ms,
                    sent as nat,
                ),
                sent > 0 ==> !t.complete && t.next_num + sent <= t.window_base + 10 && t.next_num
                    + sent < count,
            decreases 0x100000 - (t.next_num + sent),
        {
            let ghost before = *self;
            let ghost num = (t.next_num + sent) as u32;
            let ghost now = before.engine.store.bodies->0.tx.slots@[id.at as int]->0;
            proof {
                lemma_in_body_count(body.len() as int, num as int, size);
            }
            let issued = match self.engine.next_block(id) {
                Ok(issued) => issued,
                Err(BlockTransferError::OutsideWindow) => {
                    assert(sent > 0 ==> sent == left);
                    return Ok(());
                },
                Err(e) => return Err(Error::Block(e)),
            };
            let ghost cut = self.engine;
            if sent == 0 && take_first {
                let _ = self.engine.take_exchange(ExchangeKey::new(u.token, u.dest));
            }
            let ghost second = *self;
            proof {
                lemma_contacted_same(before, second, u.dest);
                lemma_pins_stay(before.engine, second.engine);
                lemma_contacted_trans(first, before, second, u.dest);
                lemma_cuts(issued, id, body.len() as int, num, t.szx);
                assert(issued.block.more == !last_block(body, num, t.szx)) by {
                    reveal(cuts);
                    assert((num + 1) * size == num * size + size) by (nonlinear_arith);
                }
                assert(body_set(before.engine, cut, id, classic_cut(now, None)));
                assert(upload_cut(before, second, u@, id, take_first, sent as int));
                lemma_in_body_count(body.len() as int, num + 1, size);
            }
            let ty = if sent == 0 {
                u.ty
            } else {
                Type::NonConfirmable
            };
            let r = self.send_block1_issued(u, ty, issued, true, now_ms, Ghost(t.szx));
            proof {
                lemma_contacted_trans(first, second, *self, u.dest);
                assert(upload_step(second, *self, u@, slot, sent as int, now_ms, r));
            }
            if r.is_err() {
                return r;
            }
            proof {
                assert(((sent + 1) as nat - 1) as nat == sent as nat);
                assert(upload_cut(before, second, u@, id, take_first, (sent + 1) as nat - 1));
                assert(upload_step(second, *self, u@, slot, (sent + 1) as nat - 1, now_ms, r));
            }
            sent = sent + 1;
            if issued.complete() {
                return Ok(());
            }
        }
    }
}

/// What the further blocks of a request body have in common, as the call that
/// is under way recorded it.
pub open spec fn upload_of(live: Option<LiveCall>, token: Seq<u8>, peer: Endpoint, u: UploadView) -> bool {
    &&& u.dest == peer
    &&& u.token == token
    &&& match live {
        Some(l) => u.ty == l.ty && u.code == l.code && u.path == texts_of(l.path@) && u.queries
            == l.queries@ && u.accept == l.accept && u.format == l.content_format && u.echo
            == echo_octets(l.echo),
        None => u.ty == Type::Confirmable && u.code == Code::PUT && u.path.len() == 0
            && u.queries.len() == 0 && u.accept.is_none() && u.format.is_none()
            && u.echo.is_none(),
    }
}

fn upload_from(live: Option<&LiveCall>, token: Token, peer: Endpoint) -> (u: Upload)
    ensures
        upload_of(
            match live {
                Some(l) => Some(*l),
                None => None,
            },
            token@,
            peer,
            u@,
        ),
{
    match live {
        Some(l) => Upload {
            dest: peer,
            ty: l.ty,
            code: l.code,
            token,
            path: copy_texts(l.path.as_slice()),
            queries: copy_all(&l.queries.values),
            accept: l.accept,
            format: l.content_format,
            echo: copy_echo(&l.echo),
        },
        None => Upload {
            dest: peer,
            ty: Type::Confirmable,
            code: Code::PUT,
            token,
            path: Vec::new(),
            queries: Vec::new(),
            accept: None,
            format: None,
            echo: None,
        },
    }
}

/// The state in which the window of an outgoing body has moved.
pub open spec fn window_moved<T>(a: Core<T>, c: Core<T>, id: SlotId, base: int) -> bool {
    let slot = a.engine.store.bodies->0.tx.slots@[id.at as int]->0;
    let t = slot.transfer;
    &&& c == (Core { engine: c.engine, ..a })
    &&& body_set(
        a.engine,
        c.engine,
        id,
        Some(
            BodySlot {
                transfer: BlockTransfer {
                    window_base: if base > t.window_base {
                        base as u32
                    } else {
                        t.window_base
                    },
                    ..t
                },
                bytes: slot.bytes,
            },
        ),
    )
}

/// A request waits no more for its response; nothing else changed.
pub open spec fn request_taken<T>(a: Core<T>, b: Core<T>, token: Seq<u8>, peer: Endpoint) -> bool {
    &&& b == (Core { engine: b.engine, ..a })
    &&& b.engine == (Engine { exchanges: b.engine.exchanges, ..a.engine })
    &&& b.engine.exchanges.rows@ == without(a.engine.exchanges.rows@, call_key(token, peer))
}

/// What the acknowledgement of a block of a request body leads to.
///
/// The next block of an ordered body; or, once the window has moved, the next
/// ones of a windowed body. After the last block, nothing.
pub open spec fn upload_continued<T: DatagramIo>(
    a: Core<T>,
    b: Core<T>,
    m: MessageView,
    peer: Endpoint,
    id: SlotId,
    now_ms: u64,
    r: Result<(), Error<T::Error>>,
) -> bool {
    let t = a.engine.tx_transfer(id)->0;
    let acked = match block_option(m.options, 19) {
        Some(Ok(q)) => q.num + 1,
        _ => 0,
    };
    if t.complete {
        r.is_ok() && b == a
    } else {
        exists|u: UploadView|
            {
                &&& #[trigger] upload_of(
                    a.lives.rows.row(call_key(m.token, peer)),
                    m.token,
                    peer,
                    u,
                )
                &&& if t.role == BlockRole::OutgoingBlock1 {
                    exists|c: Core<T>|
                        request_taken(a, c, m.token, peer) && #[trigger] block1_issued(
                            c,
                            b,
                            u,
                            id,
                            now_ms,
                            r,
                        )
                } else if acked > t.next_num {
                    r == Err::<(), Error<T::Error>>(Error::Block(BlockTransferError::OutsideWindow)) && b
                        == a
                } else {
                    exists|c: Core<T>|
                        window_moved(a, c, id, acked) && #[trigger] upload_window(
                            c,
                            b,
                            u,
                            id,
                            true,
                            now_ms,
                            r,
                        )
                }
            }
    }
}

impl<T: DatagramIo> Core<T> {
    /// Go on with a request body, a block of which was acknowledged.
    pub fn continue_block1_tx(
        &mut self,
        parsed: &ParsedMessage<'_>,
        peer: Endpoint,
        id: SlotId,
        now_ms: u64,
    ) -> (r: Result<(), Error<T::Error>>)
        requires
            old(self).wf(),
            old(self).engine.tx_transfer(id).is_some(),
            old(self).engine.tx_transfer(id)->0.role == BlockRole::OutgoingBlock1 || old(
                self).engine.tx_transfer(id)->0.role == BlockRole::OutgoingQBlock1,
        ensures
            final(self).wf(),
            contacted(*old(self), *final(self), peer),
            final(self).inbox == old(self).inbox,
            final(self).lives == old(self).lives,
            upload_continued(*old(self), *final(self), parsed@, peer, id, now_ms, r),
    {
        let ghost first = *self;
        let ghost m = parsed@;
        proof {
            lemma_contacted_same(first, first, peer);
            lemma_tx_body(first.engine, id);
        }
        let transfer = match self.engine.tx_body_transfer(id) {
            Some(t) => t,
            None => return Ok(()),
        };
        if transfer.complete {
            return Ok(());
        }
        let token = parsed.token();
        let u = upload_from(self.lives.get(Call::new(token, peer)), token, peer);
        assert(upload_of(first.lives.rows.row(call_key(m.token, peer)), m.token, peer, u@));
        if transfer.role == BlockRole::OutgoingBlock1 {
            let _ = self.engine.take_exchange(ExchangeKey::new(token, peer));
            let ghost second = *self;
            proof {
                lemma_contacted_same(first, second, peer);
                lemma_pins_stay(first.engine, second.engine);
            }
            let r = self.issue_block1(&u, id, now_ms);
            proof {
                lemma_contacted_trans(first, second, *self, peer);
                assert(block1_issued(second, *self, u@, id, now_ms, r));
            }
            return r;
        }
        if let Some(Ok(q)) = parsed.q_block1() {
            match self.engine.advance_window(id, q.num + 1) {
                Ok(()) => {},
                Err(e) => return Err(Error::Block(e)),
            }
        }
        let ghost second = *self;
        proof {
            lemma_contacted_same(first, second, peer);
            lemma_pins_stay(first.engine, second.engine);
        }
        let r = self.issue_q_block1_window(&u, id, true, now_ms);
        proof {
            lemma_contacted_trans(first, second, *self, peer);
            assert(upload_window(second, *self, u@, id, true, now_ms, r));
            let slots = first.engine.store.bodies->0.tx.slots@;
            assert(slots.update(id.at as int, slots[id.at as int]) =~= slots);
            let acked = match block_option(m.options, 19) {
                Some(Ok(q)) => q.num + 1,
                _ => 0,
            };
            assert(window_moved(first, second, id, acked));
        }
        r
    }
}

/// The request for further blocks of a response.
pub open spec fn followup_message(
    live: Option<LiveCall>,
    token: Seq<u8>,
    mid: u16,
    block2: Option<BlockValue>,
    q_block2: Option<BlockValue>,
) -> MessageView {
    match live {
        Some(l) => MessageView {
            ty: l.ty,
            code: l.code,
            id: mid,
            token,
            options: request_options(
                RequestOptsView {
                    observe: if l.observe == OutgoingObserve::Register {
                        Some(0)
                    } else {
                        None
                    },
                    path: texts_of(l.path@),
                    queries: l.queries@,
                    accept: l.accept,
                    block2,
                    q_block2,
                    no_response: l.no_response,
                    echo: echo_octets(l.echo),
                    tag: l.request_tag@,
                    ..no_options()
                },
            ),
            payload: Seq::empty(),
        },
        None => MessageView {
            ty: Type::Confirmable,
            code: Code::GET,
            id: mid,
            token,
            options: request_options(RequestOptsView { block2, q_block2, ..no_options() }),
            payload: Seq::empty(),
        },
    }
}

/// What asking for further blocks of a response does.
pub open spec fn followed_up<T: DatagramIo>(
    a: Core<T>,
    b: Core<T>,
    call: Call,
    block2: Option<BlockValue>,
    q_block2: Option<BlockValue>,
    now_ms: u64,
    r: Result<(), Error<T::Error>>,
) -> bool {
    let m = followup_message(a.lives.row(call), call.token@, a.ids.next_mid, block2, q_block2);
    ||| (r matches Err(Error::Identity(e)) && unnamed(a, b, now_ms, e))
    ||| {
        &&& !a.ids.exhausted(a.engine, now_ms)
        &&& exists|c: Core<T>|
            identified(a, c, now_ms) && #[trigger] requested(
                c,
                b,
                m,
                call.peer,
                false,
                now_ms,
                r,
            )
    }
}

fn followup_list(
    live: Option<&LiveCall>,
    block2: Option<BlockValue>,
    q_block2: Option<BlockValue>,
) -> (out: (Type, Code, OptList))
    requires
        block2 matches Some(b) ==> b.valid(),
        q_block2 matches Some(b) ==> b.valid(),
    ensures
        ({
            let m = followup_message(
                match live {
                    Some(l) => Some(*l),
                    None => None,
                },
                Seq::empty(),
                0,
                block2,
                q_block2,
            );
            out.0 == m.ty && out.1 == m.code && out.2@ == m.options
        }),
{
    match live {
        Some(l) => {
            let path = copy_texts(l.path.as_slice());
            let opts = RequestOpts {
                observe: match l.observe {
                    OutgoingObserve::Register => Some(0),
                    _ => None,
                },
                path: borrow_all(&path),
                queries: borrow_all(&l.queries.values),
                accept: l.accept,
                block2,
                q_block2,
                no_response: l.no_response,
                echo: borrow_echo(&l.echo),
                tag: l.request_tag.as_slice(),
                ..RequestOpts::none()
            };
            (l.ty, l.code, opts.list())
        },
        None => {
            let opts = RequestOpts { block2, q_block2, ..RequestOpts::none() };
            (Type::Confirmable, Code::GET, opts.list())
        },
    }
}

impl<T: DatagramIo> Core<T> {
    /// Ask for further blocks of a response.
    pub fn send_followup(
        &mut self,
        call: Call,
        block2: Option<BlockValue>,
        q_block2: Option<BlockValue>,
        now_ms: u64,
    ) -> (r: Result<(), Error<T::Error>>)
        requires
            old(self).wf(),
            block2 matches Some(b) ==> b.valid(),
            q_block2 matches Some(b) ==> b.valid(),
        ensures
            final(self).wf(),
            contacted(*old(self), *final(self), call.peer),
            final(self).inbox == old(self).inbox,
            final(self).lives == old(self).lives,
            final(self).engine.store.bodies == old(self).engine.store.bodies,
            final(self).engine.store.observe == old(self).engine.store.observe,
            followed_up(*old(self), *final(self), call, block2, q_block2, now_ms, r),
    {
        let ghost first = *self;
        let (ty, code, list) = followup_list(self.lives.get(call), block2, q_block2);
        let mid = match self.ids.next_for(&self.engine, now_ms) {
            Ok(mid) => mid,
            Err(e) => {
                proof {
                    lemma_contacted_same(first, *self, call.peer);
                }
                return Err(Error::Identity(e));
            },
        };
        let ghost second = *self;
        proof {
            lemma_contacted_same(first, second, call.peer);
        }
        let borrowed = list.as_opts();
        let msg = Message::new(ty, code, mid).with_token(call.token).with_options(
            borrowed.as_slice(),
        );
        assert(msg@ == followup_message(
            first.lives.row(call),
            call.token@,
            mid.raw,
            block2,
            q_block2,
        ));
        let r = self.finish_client_send(&msg, call.peer, now_ms, false);
        proof {
            lemma_contacted_trans(first, second, *self, call.peer);
            assert(requested(second, *self, msg@, call.peer, false, now_ms, r));
        }
        r
    }
}

} // verus!
