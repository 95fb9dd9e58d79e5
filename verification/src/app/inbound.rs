//! What a request says of itself: its options and its body.
use vstd::prelude::*;

use crate::error::{BlockTransferError, ValueError};
use crate::message::fields::{
    block_option, first_value, slices_of, uint_option, unknown_critical_of, values_of,
};
use crate::message::wire::MessageView;
use crate::message::{BlockValue, Code, ParsedMessage, Type};
use crate::storage::blocks::{recovery_armed, rx_bodies_changed};
use crate::storage::body::{accepts_ordered, accepts_windowed, BlockProgress};
use crate::storage::endpoint::{BlockKey, BlockKeyView, BodyTag, Endpoint, SlotId};
use crate::storage::engine::Engine;
use crate::storage::metrics::{inc, Metrics};
use crate::storage::transfer::{BlockRole, BlockTransfer, BodySlot};

verus! {

/// The selected blocks of a message, as they were read.
pub open spec fn selected(m: MessageView, i: int) -> Result<BlockValue, ValueError> {
    BlockValue::of_octets(values_of(m.options, 31)[i])
}

/// Is a selected block unreadable, or of the reserved size?
pub open spec fn bad_selection(b: Result<BlockValue, ValueError>) -> bool {
    match b {
        Ok(b) => b.szx == 7,
        Err(_) => true,
    }
}

/// Does a selected block ask for a window from its start?
pub open spec fn whole_window(b: Result<BlockValue, ValueError>) -> bool {
    match b {
        Ok(b) => b.more && b.num % 10 == 0,
        Err(_) => false,
    }
}

/// Is an option present but unreadable?
pub open spec fn unreadable<A>(v: Option<Result<A, ValueError>>) -> bool {
    v matches Some(Err(_))
}

/// Must a request be answered 4.02 before it is looked at any further?
///
/// Because of a critical option that is not known; because it is protected
/// and there is no security context; because of a Request-Tag that is too
/// long, given twice, or missing from a windowed upload; or because of block
/// options that are unreadable or do not go together.
#[verifier::opaque]
pub open spec fn bad_options(m: MessageView) -> bool {
    let tags = values_of(m.options, 292);
    let count = values_of(m.options, 31).len();
    ||| tags.len() > 1
    ||| tags.len() == 1 && tags[0].len() > 8
    ||| unknown_critical_of(m.options).is_some()
    ||| first_value(m.options, 9).is_some()
    ||| unreadable(block_option(m.options, 23))
    ||| unreadable(block_option(m.options, 27))
    ||| exists|i: int| 0 <= i < count && bad_selection(#[trigger] selected(m, i))
    ||| (first_value(m.options, 27).is_some() || first_value(m.options, 23).is_some()) && (
    first_value(m.options, 19).is_some() || count > 0)
    ||| values_of(m.options, 19).len() > 1
    ||| count > 1 && (first_value(m.options, 6).is_some() || exists|i: int|
        0 <= i < count && whole_window(#[trigger] selected(m, i)))
    ||| first_value(m.options, 19).is_some() && tags.len() == 0
}

/// Must a request be answered 4.02 before it is looked at any further?
pub fn bad_option_request(parsed: &ParsedMessage<'_>) -> (b: bool)
    ensures
        b == bad_options(parsed@),
{
    let ghost m = parsed@;
    proof {
        reveal(bad_options);
    }
    let tags = parsed.request_tag();
    let picks = parsed.q_block2();
    assert(tags@.len() == values_of(m.options, 292).len());
    if tags.len() > 1 {
        return true;
    }
    if tags.len() == 1 {
        assert(slices_of(tags@)[0] == tags@[0]@);
        if tags[0].len() > 8 {
            return true;
        }
    }
    if parsed.unknown_critical().is_some() || parsed.oscore().is_some() {
        return true;
    }
    let block1 = parsed.block1();
    let block2 = parsed.block2();
    let q_block1 = parsed.q_block1();
    if let Some(Err(_)) = block1 {
        return true;
    }
    if let Some(Err(_)) = block2 {
        return true;
    }
    let mut whole: bool = false;
    let mut i: usize = 0;
    while i < picks.len()
        invariant
            m == parsed@,
            picks@.len() == values_of(m.options, 31).len(),
            forall|k: int| 0 <= k < picks@.len() ==> #[trigger] picks@[k] == selected(m, k),
            i <= picks@.len(),
            forall|k: int| 0 <= k < i ==> !bad_selection(#[trigger] selected(m, k)),
            whole == exists|k: int| 0 <= k < i && whole_window(#[trigger] selected(m, k)),
        decreases picks@.len() - i,
    {
        assert(picks@[i as int] == selected(m, i as int));
        match &picks[i] {
            Err(_) => {
                proof {
                    reveal(bad_options);
                    assert(bad_selection(selected(m, i as int)));
                }
                return true;
            },
            Ok(b) => {
                if b.is_bert() {
                    proof {
                        reveal(bad_options);
                        assert(bad_selection(selected(m, i as int)));
                    }
                    return true;
                }
                if b.more && b.num % 10 == 0 {
                    assert(whole_window(selected(m, i as int)));
                    whole = true;
                }
            },
        }
        i = i + 1;
    }
    if (block1.is_some() || block2.is_some()) && (q_block1.is_some() || picks.len() > 0) {
        return true;
    }
    if parsed.get_options(crate::message::OptionNumber::Q_BLOCK1).len() > 1 {
        return true;
    }
    if picks.len() > 1 && (parsed.observe().is_some() || whole) {
        return true;
    }
    q_block1.is_some() && tags.len() == 0
}

/// Are the selected blocks readable, ascending and of one size?
pub open spec fn selections_valid(m: MessageView) -> bool {
    let count = values_of(m.options, 31).len();
    &&& forall|i: int| 0 <= i < count ==> (#[trigger] selected(m, i)).is_ok()
    &&& forall|i: int, j: int|
        0 <= i && j == i + 1 && j < count ==> (#[trigger] selected(m, i))->Ok_0.num < (
        #[trigger] selected(m, j))->Ok_0.num && selected(m, i)->Ok_0.szx == selected(
            m,
            j,
        )->Ok_0.szx
}

/// The selected blocks, if they are readable, ascending and of one size.
pub fn valid_q_selections(parsed: &ParsedMessage<'_>) -> (r: Option<Vec<BlockValue>>)
    ensures
        r.is_some() == selections_valid(parsed@),
        r matches Some(v) ==> v@.len() == values_of(parsed@.options, 31).len() && forall|i: int|
            0 <= i < v@.len() ==> (#[trigger] v@[i]).valid() && selected(parsed@, i) == Ok::<
                BlockValue,
                ValueError,
            >(v@[i]),
{
    let ghost m = parsed@;
    let picks = parsed.q_block2();
    let mut out: Vec<BlockValue> = Vec::new();
    let mut i: usize = 0;
    while i < picks.len()
        invariant
            m == parsed@,
            picks@.len() == values_of(m.options, 31).len(),
            forall|k: int| 0 <= k < picks@.len() ==> #[trigger] picks@[k] == selected(m, k),
            forall|k: int|
                0 <= k < picks@.len() ==> (#[trigger] picks@[k] matches Ok(b) ==> b.valid()),
            i <= picks@.len(),
            out@.len() == i,
            forall|k: int|
                0 <= k < i ==> (#[trigger] out@[k]).valid() && selected(m, k) == Ok::<
                    BlockValue,
                    ValueError,
                >(out@[k]),
            forall|k: int| 0 <= k < i ==> (#[trigger] selected(m, k)).is_ok(),
            forall|k: int, j: int|
                0 <= k && j == k + 1 && j < i ==> (#[trigger] selected(m, k))->Ok_0.num < (
                #[trigger] selected(m, j))->Ok_0.num && selected(m, k)->Ok_0.szx == selected(
                    m,
                    j,
                )->Ok_0.szx,
        decreases picks@.len() - i,
    {
        assert(picks@[i as int] == selected(m, i as int));
        match &picks[i] {
            Err(_) => {
                assert(!selected(m, i as int).is_ok());
                return None;
            },
            Ok(b) => {
                if i > 0 {
                    let last = out[i - 1];
                    if b.num <= last.num || b.szx != last.szx {
                        assert(selected(m, i - 1) == Ok::<BlockValue, ValueError>(out@[i - 1]));
                        assert(!(selected(m, i - 1)->Ok_0.num < selected(m, i as int)->Ok_0.num
                            && selected(m, i - 1)->Ok_0.szx == selected(m, i as int)->Ok_0.szx));
                        return None;
                    }
                }
                out.push(*b);
            },
        }
        i = i + 1;
    }
    Some(out)
}

/// Does a windowed upload announce a length that cannot be read?
pub open spec fn bad_length(m: MessageView) -> bool {
    first_value(m.options, 19).is_some() && unreadable(uint_option(m.options, 60, 4))
}

/// Does a windowed upload announce a length that cannot be read?
pub fn unreadable_length(parsed: &ParsedMessage<'_>) -> (b: bool)
    ensures
        b == bad_length(parsed@),
{
    if parsed.q_block1().is_none() {
        return false;
    }
    match parsed.size1() {
        Some(Err(_)) => true,
        _ => false,
    }
}

/// What became of the body of a request.
#[derive(Clone, Copy, Debug, PartialEq, Eq)]
pub enum InboundBody {
    /// It came in no blocks.
    Plain,
    /// More blocks are to come; this one is acknowledged with 2.31.
    Continue,
    /// More blocks are to come; if a window is full, its last block is
    /// acknowledged.
    Wait(Option<BlockValue>),
    /// The block is refused.
    Refused(Code),
    /// The body is whole.
    Complete(SlotId),
}

/// How the body of a request is found: by peer, token and Request-Tag.
pub open spec fn request_body(m: MessageView, peer: Endpoint) -> BlockKeyView {
    BlockKeyView { token: m.token, peer, identity: first_value(m.options, 292) }
}

/// The announced length of a request body.
pub open spec fn announced(m: MessageView, number: u16) -> Option<u32> {
    match uint_option(m.options, number, 4) {
        Some(Ok(n)) => Some(n),
        _ => None,
    }
}

/// What taking in a block of an ordered request body does.
pub open spec fn ordered_taken(
    before: Engine,
    after: Engine,
    key: BlockKey,
    block: BlockValue,
    m: MessageView,
    r: Result<BlockProgress, BlockTransferError>,
) -> bool {
    &&& rx_bodies_changed(before, after)
    &&& after.metrics == if r.is_ok() {
        Metrics { block1_assemble: inc(before.metrics.block1_assemble), ..before.metrics }
    } else {
        before.metrics
    }
    &&& match before.store.bodies {
        None => r == Err::<BlockProgress, BlockTransferError>(BlockTransferError::NoBodyPools),
        Some(b) => accepts_ordered(
            b.rx,
            after.store.bodies->0.rx,
            BlockRole::IncomingBlock1,
            key,
            block,
            m.payload,
            announced(m, 60),
            r,
        ),
    }
}

/// What taking in a block of a windowed request body does.
pub open spec fn windowed_taken(
    before: Engine,
    after: Engine,
    key: BlockKey,
    block: BlockValue,
    m: MessageView,
    r: Result<BlockProgress, BlockTransferError>,
) -> bool {
    &&& rx_bodies_changed(before, after)
    &&& after.metrics == before.metrics
    &&& match before.store.bodies {
        None => r == Err::<BlockProgress, BlockTransferError>(BlockTransferError::NoBodyPools),
        Some(b) => accepts_windowed(
            b.rx,
            after.store.bodies->0.rx,
            BlockRole::IncomingQBlock1,
            key,
            block,
            m.payload,
            announced(m, 60),
            r,
        ),
    }
}

/// The code that refuses a block.
pub open spec fn refusal_code(e: BlockTransferError) -> Code {
    match e {
        BlockTransferError::NoBodyPools => Code::BAD_OPTION,
        BlockTransferError::Overflow => Code::REQUEST_ENTITY_TOO_LARGE,
        _ => Code::REQUEST_ENTITY_INCOMPLETE,
    }
}

/// The code that refuses a block.
pub fn refusal(e: BlockTransferError) -> (c: Code)
    ensures
        c == refusal_code(e),
{
    match e {
        BlockTransferError::NoBodyPools => Code::BAD_OPTION,
        BlockTransferError::Overflow => Code::REQUEST_ENTITY_TOO_LARGE,
        _ => Code::REQUEST_ENTITY_INCOMPLETE,
    }
}

/// What a block of an ordered request body leads to. One that came before is
/// acknowledged again.
pub open spec fn ordered_outcome(r: Result<BlockProgress, BlockTransferError>) -> InboundBody {
    match r {
        Ok(p) => if p.done {
            InboundBody::Complete(p.id)
        } else {
            InboundBody::Continue
        },
        Err(BlockTransferError::Overlap) => InboundBody::Continue,
        Err(BlockTransferError::AlreadyComplete) => InboundBody::Continue,
        Err(e) => InboundBody::Refused(refusal_code(e)),
    }
}

/// The last block of the windows that are full, if nothing of the next one is
/// in yet.
pub open spec fn window_end(t: BlockTransfer) -> Option<BlockValue> {
    if t.window_base > 0 && t.window_base <= 0x100000 && t.window
        == crate::storage::transfer::Window::none() && t.szx <= 6 {
        Some(BlockValue { num: (t.window_base - 1) as u32, more: true, szx: t.szx })
    } else {
        None
    }
}

/// What a block of a windowed request body leads to. A confirmable one is
/// always answered; a non-confirmable one only when a window is full.
pub open spec fn windowed_outcome(
    ty: Type,
    r: Result<BlockProgress, BlockTransferError>,
    end: Option<BlockValue>,
) -> InboundBody {
    match r {
        Ok(p) => if p.done {
            InboundBody::Complete(p.id)
        } else if ty == Type::NonConfirmable {
            InboundBody::Wait(end)
        } else {
            InboundBody::Continue
        },
        Err(BlockTransferError::Duplicate) => if ty == Type::NonConfirmable {
            InboundBody::Wait(end)
        } else {
            InboundBody::Refused(Code::REQUEST_ENTITY_INCOMPLETE)
        },
        Err(e) => InboundBody::Refused(refusal_code(e)),
    }
}

/// The incoming bodies.
pub open spec fn rx_slots(e: Engine) -> Seq<Option<BodySlot>> {
    match e.store.bodies {
        Some(b) => b.rx.slots@,
        None => Seq::empty(),
    }
}

/// The end of the full windows of a windowed request body that a peer sends
/// under a Request-Tag, whatever its token.
pub open spec fn tagged_window(
    slot: Option<BodySlot>,
    peer: Endpoint,
    tag: Option<Seq<u8>>,
) -> Option<BlockValue> {
    match slot {
        Some(s) => if s.transfer.role == BlockRole::IncomingQBlock1 && s.transfer.key.peer == peer
            && s.transfer.key.identity@ == tag {
            window_end(s.transfer)
        } else {
            None
        },
        None => None,
    }
}

/// The first such end; see [`tagged_window`].
pub open spec fn full_window(
    slots: Seq<Option<BodySlot>>,
    peer: Endpoint,
    tag: Option<Seq<u8>>,
) -> Option<BlockValue>
    decreases slots.len(),
{
    if slots.len() == 0 {
        None
    } else {
        match full_window(slots.drop_last(), peer, tag) {
            Some(b) => Some(b),
            None => tagged_window(slots.last(), peer, tag),
        }
    }
}

proof fn lemma_full_window(
    slots: Seq<Option<BodySlot>>,
    upto: int,
    peer: Endpoint,
    tag: Option<Seq<u8>>,
)
    requires
        0 <= upto <= slots.len(),
        full_window(slots.subrange(0, upto), peer, tag).is_some(),
    ensures
        full_window(slots, peer, tag) == full_window(slots.subrange(0, upto), peer, tag),
    decreases slots.len(),
{
    if upto == slots.len() {
        assert(slots.subrange(0, upto) =~= slots);
    } else {
        assert(slots.drop_last().subrange(0, upto) =~= slots.subrange(0, upto));
        lemma_full_window(slots.drop_last(), upto, peer, tag);
    }
}

/// What taking in the body of a request does, and what it leads to.
pub open spec fn assembled(
    before: Engine,
    after: Engine,
    m: MessageView,
    peer: Endpoint,
    now_ms: u64,
    out: InboundBody,
) -> bool {
    match block_option(m.options, 27) {
        Some(Ok(block)) => exists|key: BlockKey, r: Result<BlockProgress, BlockTransferError>|
            key@ == request_body(m, peer) && #[trigger] ordered_taken(
                before,
                after,
                key,
                block,
                m,
                r,
            ) && out == ordered_outcome(r),
        _ => match block_option(m.options, 19) {
            Some(Ok(block)) => exists|
                key: BlockKey,
                mid: Engine,
                r: Result<BlockProgress, BlockTransferError>,
            |
                {
                    &&& key@ == request_body(m, peer)
                    &&& #[trigger] windowed_taken(before, mid, key, block, m, r)
                    &&& match r {
                        Ok(p) => recovery_armed(mid, after, p.id, now_ms),
                        Err(_) => after == mid,
                    }
                    &&& out == windowed_outcome(
                        m.ty,
                        r,
                        full_window(rx_slots(mid), peer, first_value(m.options, 292)),
                    )
                },
            Some(Err(_)) => after == before && out == InboundBody::Refused(
                Code::REQUEST_ENTITY_INCOMPLETE,
            ),
            None => after == before && out == InboundBody::Plain,
        },
    }
}

fn body_key(parsed: &ParsedMessage<'_>, peer: Endpoint) -> (k: BlockKey)
    requires
        values_of(parsed@.options, 292).len() > 0 ==> values_of(parsed@.options, 292)[0].len() <= 8,
    ensures
        k@ == request_body(parsed@, peer),
{
    let plain = BlockKey::new(parsed.token(), peer);
    let tags = parsed.request_tag();
    assert(tags@.len() == values_of(parsed@.options, 292).len());
    if tags.len() > 0 {
        assert(slices_of(tags@)[0] == tags@[0]@);
        match BodyTag::new(tags[0]) {
            Ok(tag) => plain.with_identity(tag),
            Err(_) => plain,
        }
    } else {
        plain
    }
}

fn announced_size(v: Option<Result<u32, ValueError>>) -> (n: Option<u32>)
    ensures
        n == match v {
            Some(Ok(n)) => Some(n),
            _ => None,
        },
{
    match v {
        Some(Ok(n)) => Some(n),
        _ => None,
    }
}

impl Engine {
    /// The last acknowledged block of a windowed request body; see
    /// [`full_window`].
    fn qblock1_wait(&self, peer: Endpoint, tag: BodyTag) -> (r: Option<BlockValue>)
        requires
            self.wf(),
        ensures
            r == full_window(rx_slots(*self), peer, tag@),
            r matches Some(b) ==> b.valid(),
    {
        let b = match &self.store.bodies {
            Some(b) => b,
            None => return None,
        };
        let ghost slots = rx_slots(*self);
        let mut i: usize = 0;
        assert(slots.subrange(0, 0).len() == 0);
        while i < b.rx.slots.len()
            invariant
                slots == rx_slots(*self),
                b.rx.slots@ == slots,
                i <= slots.len(),
                full_window(slots.subrange(0, i as int), peer, tag@).is_none(),
            decreases slots.len() - i,
        {
            let ghost next = slots.subrange(0, i + 1);
            proof {
                assert(next.drop_last() =~= slots.subrange(0, i as int));
                assert(next.last() == slots[i as int]);
            }
            if let Some(slot) = &b.rx.slots[i] {
                let t = slot.transfer;
                if t.role == BlockRole::IncomingQBlock1 && t.key.peer == peer
                    && t.key.identity.same(&tag) && t.window_base > 0 && t.window_base <= 0x100000
                    && t.window.is_empty() && t.szx <= 6 {
                    proof {
                        lemma_full_window(slots, i + 1, peer, tag@);
                    }
                    return Some(BlockValue { num: t.window_base - 1, more: true, szx: t.szx });
                }
            }
            i = i + 1;
        }
        assert(slots.subrange(0, i as int) =~= slots);
        None
    }

    /// Take in the body of a request, if it comes in blocks.
    pub fn assemble_inbound_body(
        &mut self,
        parsed: &ParsedMessage<'_>,
        peer: Endpoint,
        now_ms: u64,
    ) -> (out: InboundBody)
        requires
            old(self).wf(),
            !bad_options(parsed@),
        ensures
            final(self).wf(),
            rx_bodies_changed(*old(self), *final(self)),
            assembled(*old(self), *final(self), parsed@, peer, now_ms, out),
            out matches InboundBody::Wait(Some(b)) ==> b.valid(),
            out matches InboundBody::Complete(id) ==> final(self).rx_transfer(id).is_some(),
    {
        let ghost first = *self;
        let ghost m = parsed@;
        proof {
            reveal(bad_options);
        }
        let size1 = announced_size(parsed.size1());
        match parsed.block1() {
            Some(Ok(block)) => {
                let key = body_key(parsed, peer);
                let r = self.apply_block1(key, block, parsed.payload(), size1);
                assert(ordered_taken(first, *self, key, block, m, r));
                return match r {
                    Ok(p) => if p.done {
                        InboundBody::Complete(p.id)
                    } else {
                        InboundBody::Continue
                    },
                    Err(BlockTransferError::Overlap) => InboundBody::Continue,
                    Err(BlockTransferError::AlreadyComplete) => InboundBody::Continue,
                    Err(e) => InboundBody::Refused(refusal(e)),
                };
            },
            _ => {},
        }
        match parsed.q_block1() {
            Some(Ok(block)) => {
                let key = body_key(parsed, peer);
                let r = self.apply_q_block1(key, block, parsed.payload(), size1);
                let ghost second = *self;
                assert(windowed_taken(first, second, key, block, m, r));
                let end = self.qblock1_wait(peer, key.identity);
                if let Ok(p) = r {
                    self.note_q_receive(p.id, now_ms);
                }
                let non: bool = parsed.ty() == Type::NonConfirmable;
                match r {
                    Ok(p) => if p.done {
                        InboundBody::Complete(p.id)
                    } else if non {
                        InboundBody::Wait(end)
                    } else {
                        InboundBody::Continue
                    },
                    Err(BlockTransferError::Duplicate) => if non {
                        InboundBody::Wait(end)
                    } else {
                        InboundBody::Refused(Code::REQUEST_ENTITY_INCOMPLETE)
                    },
                    Err(e) => InboundBody::Refused(refusal(e)),
                }
            },
            Some(Err(_)) => InboundBody::Refused(Code::REQUEST_ENTITY_INCOMPLETE),
            None => InboundBody::Plain,
        }
    }
}

} // verus!
