//! The tables of client calls: replies that wait to be taken, and requests
//! that are live.
use vstd::prelude::*;

use super::calls::{Call, CallFailure, ReplyMeta, RetainedQueries, RESPONSE_INBOX};
use crate::message::fields::{block_option, uint_option, values_of};
use crate::message::wire::MessageView;
use crate::message::{BlockValue, Code, ContentFormat, Echo, NoResponse, ParsedMessage, Token, Type};
use crate::storage::endpoint::{BlockKey, BodyTag, Endpoint, Key, KeyView, SlotId};
use crate::storage::table::{
    find_row, lemma_find_row, lemma_unique_same_key, place_row, Keyed, Table,
};

verus! {

/// A reply that waits to be taken, or that is still coming in.
pub struct InboxRow {
    /// Is it whole?
    pub complete: bool,
    /// The call that it belongs to.
    pub call: Call,
    /// The reply, or why there is none.
    pub meta: Result<ReplyMeta, CallFailure>,
    /// The slot of its body, when it came in blocks.
    pub body: Option<SlotId>,
}

impl Keyed for InboxRow {
    open spec fn row_key(&self) -> KeyView {
        self.call.key()
    }

    fn has_key(&self, key: &Key) -> (b: bool) {
        self.call.to_key().same(key)
    }

    fn key_of(&self) -> (k: Key) {
        self.call.to_key()
    }
}

/// Replies, at most [`RESPONSE_INBOX`].
pub struct ClientInbox {
    /// The rows.
    pub rows: Table<InboxRow>,
}

/// Are the replies of all rows in order?
pub open spec fn replies_ok(rows: Seq<Option<InboxRow>>) -> bool {
    forall|i: int| 0 <= i < rows.len() ==> row_ok(#[trigger] rows[i])
}

/// Is the reply of a row in order?
pub open spec fn row_ok(row: Option<InboxRow>) -> bool {
    match row {
        Some(r) => match r.meta {
            Ok(m) => m.wf(),
            Err(_) => true,
        },
        None => true,
    }
}

impl ClientInbox {
    /// Is the table in order?
    pub open spec fn wf(&self) -> bool {
        &&& self.rows.wf()
        &&& self.rows.rows@.len() == RESPONSE_INBOX
        &&& replies_ok(self.rows.rows@)
    }

    /// The row of a call.
    pub open spec fn row(&self, call: Call) -> Option<InboxRow> {
        self.rows.row(call.key())
    }

    /// Does a whole reply to a call wait?
    pub open spec fn has(&self, call: Call) -> bool {
        self.row(call) matches Some(r) && r.complete
    }

    /// No replies.
    pub fn new() -> (i: ClientInbox)
        ensures
            i.wf(),
            forall|k: int| 0 <= k < i.rows.rows@.len() ==> (#[trigger] i.rows.rows@[k]).is_none(),
    {
        ClientInbox { rows: Table::with_rows(RESPONSE_INBOX) }
    }

    /// Put a row in, over the one of the same call.
    ///
    /// Gives the body of the row that was there, or `None` inside an error
    /// when all rows belong to other calls.
    pub fn put(&mut self, row: InboxRow) -> (r: Result<Option<SlotId>, ()>)
        requires
            old(self).wf(),
            row_ok(Some(row)),
        ensures
            final(self).wf(),
            match place_row(old(self).rows.rows@, row.row_key()) {
                Some(i) => {
                    &&& r == Ok::<Option<SlotId>, ()>(
                        match old(self).rows.row(row.row_key()) {
                            Some(prev) => prev.body,
                            None => None,
                        },
                    )
                    &&& 0 <= i < RESPONSE_INBOX
                    &&& final(self).rows.rows@ == old(self).rows.rows@.update(i, Some(row))
                },
                None => r.is_err() && *final(self) == *old(self),
            },
    {
        let prev: Option<SlotId> = match self.rows.find(&row.key_of()) {
            Some(at) => match &self.rows.rows[at] {
                Some(row) => row.body,
                None => None,
            },
            None => None,
        };
        match self.rows.put(row) {
            Some(_) => Ok(prev),
            None => Err(()),
        }
    }

    /// Does a whole reply to a call wait?
    pub fn contains(&self, call: Call) -> (b: bool)
        ensures
            b == self.has(call),
    {
        match self.rows.find(&call.to_key()) {
            Some(at) => match &self.rows.rows[at] {
                Some(row) => row.complete,
                None => false,
            },
            None => false,
        }
    }

    /// Is the first part of this body's reply kept?
    pub open spec fn partial(&self, call: Call, body: SlotId) -> bool {
        self.row(call) matches Some(r) && !r.complete && r.body == Some(body) && r.meta.is_ok()
    }

    /// Is the first part of this body's reply kept?
    pub fn has_partial(&self, call: Call, body: SlotId) -> (b: bool)
        ensures
            b == self.partial(call, body),
    {
        match self.rows.find(&call.to_key()) {
            Some(at) => match &self.rows.rows[at] {
                Some(row) => !row.complete && row.meta.is_ok() && match row.body {
                    Some(id) => id == body,
                    None => false,
                },
                None => false,
            },
            None => false,
        }
    }

    /// Take the first part of this body's reply out.
    pub fn take_partial(&mut self, call: Call, body: SlotId) -> (r: Option<ReplyMeta>)
        requires
            old(self).wf(),
        ensures
            final(self).wf(),
            r.is_some() == old(self).partial(call, body),
            r matches Some(m) ==> m.wf() && old(self).row(call)->0.meta == Ok::<
                ReplyMeta,
                CallFailure,
            >(m) && final(self).rows.rows@ == old(self).rows.rows@.update(
                find_row(old(self).rows.rows@, call.key())->0,
                None,
            ),
            r.is_none() ==> *final(self) == *old(self),
    {
        if !self.has_partial(call, body) {
            return None;
        }
        proof {
            lemma_find_row(self.rows.rows@, call.key());
            assert(row_ok(self.rows.row(call.key())));
        }
        match self.rows.take(&call.to_key()) {
            Some(row) => match row.meta {
                Ok(m) => Some(m),
                Err(_) => None,
            },
            None => None,
        }
    }

    /// Take the whole reply to a call out.
    pub fn take(&mut self, call: Call) -> (r: Option<(
        Result<ReplyMeta, CallFailure>,
        Option<SlotId>,
    )>)
        requires
            old(self).wf(),
        ensures
            final(self).wf(),
            r.is_some() == old(self).has(call),
            r matches Some(x) ==> {
                &&& old(self).row(call) matches Some(row) && row.meta == x.0 && row.body == x.1
                &&& x.0 matches Ok(m) ==> m.wf()
                &&& final(self).rows.rows@ == old(self).rows.rows@.update(
                    find_row(old(self).rows.rows@, call.key())->0,
                    None,
                )
                &&& final(self).row(call).is_none()
            },
            r.is_none() ==> *final(self) == *old(self),
    {
        if !self.contains(call) {
            return None;
        }
        proof {
            lemma_find_row(self.rows.rows@, call.key());
            assert(row_ok(self.rows.row(call.key())));
        }
        match self.rows.take(&call.to_key()) {
            Some(row) => Some((row.meta, row.body)),
            None => None,
        }
    }

    /// Drop the row of a call; gives its body.
    pub fn forget(&mut self, call: Call) -> (body: Option<SlotId>)
        requires
            old(self).wf(),
        ensures
            final(self).wf(),
            final(self).row(call).is_none(),
            body == match old(self).row(call) {
                Some(r) => r.body,
                None => None,
            },
            final(self).rows.rows@ == (match find_row(old(self).rows.rows@, call.key()) {
                Some(i) => old(self).rows.rows@.update(i, None),
                None => old(self).rows.rows@,
            }),
    {
        proof {
            lemma_find_row(self.rows.rows@, call.key());
        }
        match self.rows.take(&call.to_key()) {
            Some(row) => row.body,
            None => None,
        }
    }
}

/// What a request wants of observation.
#[derive(Clone, Copy, Debug, PartialEq, Eq, Structural)]
pub enum OutgoingObserve {
    /// Nothing.
    Off,
    /// To be notified.
    Register,
    /// To be notified no more.
    Deregister,
}

/// A request that is live: what its later blocks repeat, and when it ends.
pub struct LiveCall {
    /// The call.
    pub call: Call,
    /// Uri-Query values.
    pub queries: RetainedQueries,
    /// Accept.
    pub accept: Option<ContentFormat>,
    /// Request-Tag.
    pub request_tag: BodyTag,
    /// Uri-Path segments.
    pub path: Vec<&'static str>,
    /// Method.
    pub code: Code,
    /// Message type.
    pub ty: Type,
    /// Content-Format.
    pub content_format: Option<ContentFormat>,
    /// Echo.
    pub echo: Option<Echo>,
    /// No-Response.
    pub no_response: Option<NoResponse>,
    /// What it wants of observation.
    pub observe: OutgoingObserve,
    /// Sequence number and time of the latest notification.
    pub observed: Option<(u32, u64)>,
    /// What an Observe cancellation must repeat.
    pub identity: Vec<u8>,
    /// When it may be given up; zero means never.
    pub due_ms: u64,
    /// The caller's deadline.
    pub deadline_ms: Option<u64>,
}

impl Keyed for LiveCall {
    open spec fn row_key(&self) -> KeyView {
        self.call.key()
    }

    fn has_key(&self, key: &Key) -> (b: bool) {
        self.call.to_key().same(key)
    }

    fn key_of(&self) -> (k: Key) {
        self.call.to_key()
    }
}

/// Where a response starts a notification: its sequence number, in a success
/// that is whole or the first block.
pub open spec fn observation_start_of(m: MessageView) -> Option<u32> {
    if !m.code.spec_is_success() || later_block(block_option(m.options, 23)) || (exists|i: int|
        0 <= i < values_of(m.options, 31).len() && later_block(
            Some(BlockValue::of_octets(#[trigger] values_of(m.options, 31)[i])),
        )) {
        None
    } else {
        match uint_option(m.options, 6, 3) {
            Some(Ok(n)) => Some(n),
            _ => None,
        }
    }
}

/// Is this a block other than the first?
pub open spec fn later_block(b: Option<Result<BlockValue, crate::error::ValueError>>) -> bool {
    match b {
        Some(Ok(b)) => b.num != 0,
        _ => false,
    }
}

/// Where a response starts a notification.
pub fn observation_start(parsed: &ParsedMessage<'_>) -> (r: Option<u32>)
    ensures
        r == observation_start_of(parsed@),
{
    if !parsed.code().is_success() {
        return None;
    }
    if let Some(Ok(b)) = parsed.block2() {
        if b.num != 0 {
            return None;
        }
    }
    let all = parsed.q_block2();
    let ghost values = values_of(parsed@.options, 31);
    let mut i: usize = 0;
    while i < all.len()
        invariant
            i <= all@.len(),
            values == values_of(parsed@.options, 31),
            all@.len() == values.len(),
            parsed@.code.spec_is_success(),
            !later_block(block_option(parsed@.options, 23)),
            forall|k: int|
                0 <= k < all@.len() ==> #[trigger] all@[k] == BlockValue::of_octets(values[k]),
            forall|k: int|
                0 <= k < i ==> !later_block(
                    Some(BlockValue::of_octets(#[trigger] values_of(parsed@.options, 31)[k])),
                ),
        decreases all@.len() - i,
    {
        assert(all@[i as int] == BlockValue::of_octets(values[i as int]));
        if let Ok(b) = all[i] {
            if b.num != 0 {
                assert(later_block(
                    Some(BlockValue::of_octets(values_of(parsed@.options, 31)[i as int])),
                ));
                return None;
            }
        }
        i = i + 1;
    }
    match parsed.observe() {
        Some(Ok(n)) => Some(n),
        _ => None,
    }
}

/// How far a sequence number is ahead of another, modulo 2^24.
pub open spec fn seq_ahead(next: u32, previous: u32) -> int {
    (next as int - previous as int) % 0x1000000
}

/// Is a notification newer than the latest one: its number ahead by less than
/// half the space, or more than 128 seconds later?
pub open spec fn newer(previous: (u32, u64), next: u32, now_ms: u64) -> bool {
    let ahead = seq_ahead(next, previous.0);
    (0 < ahead < 0x800000) || now_ms - previous.1 > 128000
}

/// Is a notification newer than the latest one?
pub fn is_newer(previous: (u32, u64), next: u32, now_ms: u64) -> (b: bool)
    ensures
        b == newer(previous, next, now_ms),
{
    let a: u64 = (next % 0x1000000) as u64;
    let b: u64 = (previous.0 % 0x1000000) as u64;
    let ahead: u64 = (a + 0x1000000 - b) % 0x1000000;
    let since: u64 = if now_ms > previous.1 {
        now_ms - previous.1
    } else {
        0
    };
    (0 < ahead && ahead < 0x800000) || since > 128000
}

/// Of two notifications within 128 seconds, at most one is newer.
pub proof fn law_newer_antisymmetric(a: u32, b: u32, s: u64, t: u64)
    requires
        t - s <= 128000,
        s - t <= 128000,
        newer((a, s), b, t),
    ensures
        !newer((b, t), a, s),
{
}

/// The latest notification is not newer than itself, until 128 seconds passed.
pub proof fn law_newer_irreflexive(a: u32, s: u64, t: u64)
    requires
        t - s <= 128000,
    ensures
        !newer((a, s), a, t),
{
}

/// The live requests, at most [`RESPONSE_INBOX`].
pub struct ClientLives {
    /// The rows.
    pub rows: Table<LiveCall>,
}

/// The row after a notification was accepted.
pub open spec fn with_observed(row: Option<LiveCall>, observed: Option<(u32, u64)>) -> Option<
    LiveCall,
> {
    match row {
        Some(r) => Some(LiveCall { observed, ..r }),
        None => None,
    }
}

/// The row of a request that ended.
pub open spec fn ended(row: LiveCall) -> LiveCall {
    LiveCall { due_ms: 0, deadline_ms: None, ..row }
}

/// Do two live requests want to use the same Request-Tag?
pub open spec fn tag_conflict(row: Option<LiveCall>, peer: Endpoint, tag: BodyTag) -> bool {
    match row {
        Some(r) => r.call.peer == peer && r.request_tag@ == tag@,
        None => false,
    }
}

/// Does a row's call have this token?
pub open spec fn has_token(row: Option<LiveCall>, token: Seq<u8>) -> bool {
    match row {
        Some(r) => r.call.token@ == token,
        None => false,
    }
}

/// Does a call under way have this token?
pub open spec fn token_taken(rows: Seq<Option<LiveCall>>, token: Seq<u8>) -> bool {
    exists|i: int| 0 <= i < rows.len() && has_token(#[trigger] rows[i], token)
}

impl ClientLives {
    /// Is the table in order?
    pub open spec fn wf(&self) -> bool {
        &&& self.rows.wf()
        &&& self.rows.rows@.len() == RESPONSE_INBOX
    }

    /// The row of a call.
    pub open spec fn row(&self, call: Call) -> Option<LiveCall> {
        self.rows.row(call.key())
    }

    /// No live requests.
    pub fn new() -> (l: ClientLives)
        ensures
            l.wf(),
            forall|k: int| 0 <= k < l.rows.rows@.len() ==> (#[trigger] l.rows.rows@[k]).is_none(),
    {
        ClientLives { rows: Table::with_rows(RESPONSE_INBOX) }
    }

    /// Is there room for a call, or is it live already?
    pub open spec fn admits(&self, call: Call) -> bool {
        place_row(self.rows.rows@, call.key()).is_some()
    }

    /// Is there room for a call, or is it live already?
    pub fn can_admit(&self, call: Call) -> (b: bool)
        ensures
            b == self.admits(call),
    {
        if self.rows.find(&call.to_key()).is_some() {
            return true;
        }
        crate::storage::table::first_free(&self.rows.rows).is_some()
    }

    /// Put a request in, over the one of the same call.
    pub fn insert(&mut self, live: LiveCall)
        requires
            old(self).wf(),
        ensures
            final(self).wf(),
            match place_row(old(self).rows.rows@, live.row_key()) {
                Some(i) => 0 <= i < RESPONSE_INBOX && final(self).rows.rows@ == old(
                    self).rows.rows@.update(i, Some(live)),
                None => *final(self) == *old(self),
            },
    {
        let _ = self.rows.put(live);
    }

    /// The live request of a call.
    pub fn get(&self, call: Call) -> (r: Option<&LiveCall>)
        ensures
            r.is_some() == self.row(call).is_some(),
            r matches Some(l) ==> self.row(call) == Some(*l) && l.call.key() == call.key(),
    {
        proof {
            lemma_find_row(self.rows.rows@, call.key());
        }
        match self.rows.find(&call.to_key()) {
            Some(at) => match &self.rows.rows[at] {
                Some(l) => Some(l),
                None => None,
            },
            None => None,
        }
    }

    /// Forget a live request.
    pub fn remove(&mut self, call: Call)
        requires
            old(self).wf(),
        ensures
            final(self).wf(),
            final(self).row(call).is_none(),
            final(self).rows.rows@ == (match find_row(old(self).rows.rows@, call.key()) {
                Some(i) => old(self).rows.rows@.update(i, None),
                None => old(self).rows.rows@,
            }),
    {
        let _ = self.rows.take(&call.to_key());
    }

    /// Is a response not an outdated notification?
    pub open spec fn fresh(&self, call: Call, m: MessageView, now_ms: u64) -> bool {
        match observation_start_of(m) {
            None => true,
            Some(seq) => match self.row(call) {
                Some(l) => match l.observed {
                    Some(previous) => newer(previous, seq, now_ms),
                    None => true,
                },
                None => true,
            },
        }
    }

    /// Is a response not an outdated notification?
    pub fn observe_fresh(&self, call: Call, parsed: &ParsedMessage<'_>, now_ms: u64) -> (b: bool)
        ensures
            b == self.fresh(call, parsed@, now_ms),
    {
        match observation_start(parsed) {
            None => true,
            Some(seq) => match self.get(call) {
                Some(l) => match l.observed {
                    Some(previous) => is_newer(previous, seq, now_ms),
                    None => true,
                },
                None => true,
            },
        }
    }

    /// Remember a notification as the latest one.
    pub fn record_observation(&mut self, call: Call, parsed: &ParsedMessage<'_>, now_ms: u64)
        requires
            old(self).wf(),
        ensures
            final(self).wf(),
            final(self).rows.rows@ == (match observation_start_of(parsed@) {
                Some(seq) => match find_row(old(self).rows.rows@, call.key()) {
                    Some(i) => old(self).rows.rows@.update(
                        i,
                        with_observed(old(self).rows.rows@[i], Some((seq, now_ms))),
                    ),
                    None => old(self).rows.rows@,
                },
                None => old(self).rows.rows@,
            }),
    {
        if let Some(seq) = observation_start(parsed) {
            if let Some(at) = self.rows.find(&call.to_key()) {
                let ghost before = self.rows.rows@;
                if let Some(row) = self.rows.rows[at].take() {
                    let mut next = row;
                    next.observed = Some((seq, now_ms));
                    self.rows.rows.set(at, Some(next));
                    proof {
                        assert(self.rows.rows@ =~= before.update(at as int, Some(next)));
                        lemma_unique_same_key(before, at as int, next);
                    }
                }
            }
        }
    }

    /// A request ended: it is given up no more, and has no deadline.
    pub fn finish(&mut self, call: Call)
        requires
            old(self).wf(),
        ensures
            final(self).wf(),
            final(self).rows.rows@ == (match find_row(old(self).rows.rows@, call.key()) {
                Some(i) => old(self).rows.rows@.update(
                    i,
                    Some(ended(old(self).rows.rows@[i]->0)),
                ),
                None => old(self).rows.rows@,
            }),
    {
        if let Some(at) = self.rows.find(&call.to_key()) {
            let ghost before = self.rows.rows@;
            if let Some(row) = self.rows.rows[at].take() {
                let mut next = row;
                next.due_ms = 0;
                next.deadline_ms = None;
                self.rows.rows.set(at, Some(next));
                proof {
                    assert(self.rows.rows@ =~= before.update(at as int, Some(next)));
                    lemma_unique_same_key(before, at as int, next);
                }
            }
        }
    }

    /// The key of a call's upload.
    pub open spec fn upload_tag(&self, call: Call) -> Option<Seq<u8>> {
        match self.row(call) {
            Some(l) => l.request_tag@,
            None => None,
        }
    }

    /// The key of a call's upload.
    pub fn upload_key(&self, call: Call) -> (k: BlockKey)
        ensures
            k.token == call.token,
            k.peer == call.peer,
            k.identity@ == self.upload_tag(call),
    {
        match self.get(call) {
            Some(l) => BlockKey::new(call.token, call.peer).with_identity(l.request_tag),
            None => BlockKey::new(call.token, call.peer),
        }
    }

    /// Is a Request-Tag in use at a peer?
    pub fn tag_in_use(&self, peer: Endpoint, tag: &BodyTag) -> (b: bool)
        ensures
            b == exists|i: int|
                0 <= i < self.rows.rows@.len() && tag_conflict(
                    #[trigger] self.rows.rows@[i],
                    peer,
                    *tag,
                ),
    {
        let mut i: usize = 0;
        while i < self.rows.rows.len()
            invariant
                i <= self.rows.rows@.len(),
                forall|k: int|
                    0 <= k < i ==> !tag_conflict(#[trigger] self.rows.rows@[k], peer, *tag),
            decreases self.rows.rows@.len() - i,
        {
            if let Some(l) = &self.rows.rows[i] {
                if l.call.peer == peer && l.request_tag.same(tag) {
                    assert(tag_conflict(self.rows.rows@[i as int], peer, *tag));
                    return true;
                }
            }
            i = i + 1;
        }
        false
    }

    /// Is a token in use?
    pub fn token_in_use(&self, token: &Token) -> (b: bool)
        ensures
            b == token_taken(self.rows.rows@, token@),
    {
        let mut i: usize = 0;
        while i < self.rows.rows.len()
            invariant
                i <= self.rows.rows@.len(),
                forall|k: int| 0 <= k < i ==> !has_token(#[trigger] self.rows.rows@[k], token@),
            decreases self.rows.rows@.len() - i,
        {
            if let Some(l) = &self.rows.rows[i] {
                if l.call.token.same(token) {
                    assert(has_token(self.rows.rows@[i as int], token@));
                    return true;
                }
            }
            i = i + 1;
        }
        false
    }
}

} // verus!
