//! Remote endpoints, slot identifiers and table keys.
use vstd::prelude::*;

use crate::bytes::Short;
use crate::error::ValueError;
use crate::message::value::uint_value;
use crate::message::{MessageId, Token};

verus! {

/// Address and port of a peer.
#[derive(Clone, Copy, Debug, PartialEq, Eq, Hash, Structural)]
pub enum Endpoint {
    /// An IPv4 peer.
    V4 {
        /// The four address octets as one number.
        addr: u32,
        /// UDP port.
        port: u16,
    },
    /// An IPv6 peer.
    V6 {
        /// The first eight address octets as one number.
        hi: u64,
        /// The last eight address octets as one number.
        lo: u64,
        /// UDP port.
        port: u16,
        /// Scope identifier; zero when there is none.
        scope: u32,
    },
}

proof fn lemma_uint_bounds(octets: Seq<u8>)
    ensures
        octets.len() <= 4 ==> uint_value(octets) <= u32::MAX,
        octets.len() <= 8 ==> uint_value(octets) <= u64::MAX,
{
    reveal_with_fuel(uint_value, 9);
}

/// The number in at most eight octets.
fn number_of(octets: &[u8], from: usize, to: usize) -> (n: u64)
    requires
        from <= to <= octets@.len(),
        to - from <= 8,
    ensures
        n as nat == uint_value(octets@.subrange(from as int, to as int)),
{
    let mut acc: u64 = 0;
    let mut i: usize = from;
    assert(octets@.subrange(from as int, from as int).len() == 0);
    while i < to
        invariant
            from <= i <= to <= octets@.len(),
            to - from <= 8,
            acc as nat == uint_value(octets@.subrange(from as int, i as int)),
        decreases to - i,
    {
        proof {
            let next = octets@.subrange(from as int, i as int + 1);
            assert(next.drop_last() =~= octets@.subrange(from as int, i as int));
            assert(next.last() == octets@[i as int]);
            lemma_uint_bounds(next);
        }
        acc = acc * 256 + octets[i] as u64;
        i = i + 1;
    }
    acc
}

impl Endpoint {
    /// An IPv4 peer.
    pub fn v4(addr: [u8; 4], port: u16) -> (e: Endpoint)
        ensures
            e == (Endpoint::V4 { addr: uint_value(addr@) as u32, port }),
    {
        let n: u64 = number_of(addr.as_slice(), 0, 4);
        assert(addr@.subrange(0, 4) =~= addr@);
        proof {
            lemma_uint_bounds(addr@);
        }
        Endpoint::V4 { addr: n as u32, port }
    }

    /// An IPv6 peer.
    pub fn v6(addr: [u8; 16], port: u16) -> (e: Endpoint)
        ensures
            e == (Endpoint::V6 {
                hi: uint_value(addr@.subrange(0, 8)) as u64,
                lo: uint_value(addr@.subrange(8, 16)) as u64,
                port,
                scope: 0,
            }),
    {
        Endpoint::v6_scoped(addr, port, 0)
    }

    /// An IPv6 peer on a link.
    pub fn v6_scoped(addr: [u8; 16], port: u16, scope: u32) -> (e: Endpoint)
        ensures
            e == (Endpoint::V6 {
                hi: uint_value(addr@.subrange(0, 8)) as u64,
                lo: uint_value(addr@.subrange(8, 16)) as u64,
                port,
                scope,
            }),
    {
        let hi: u64 = number_of(addr.as_slice(), 0, 8);
        let lo: u64 = number_of(addr.as_slice(), 8, 16);
        Endpoint::V6 { hi, lo, port, scope }
    }
}

/// Octet strings of one length that stand for the same number are the same.
pub proof fn lemma_uint_injective(a: Seq<u8>, b: Seq<u8>)
    requires
        a.len() == b.len(),
        uint_value(a) == uint_value(b),
    ensures
        a == b,
    decreases a.len(),
{
    if a.len() > 0 {
        assert(uint_value(a) / 256 == uint_value(a.drop_last()));
        assert(uint_value(b) / 256 == uint_value(b.drop_last()));
        lemma_uint_injective(a.drop_last(), b.drop_last());
        assert(a =~= a.drop_last().push(a.last()));
        assert(b =~= b.drop_last().push(b.last()));
    } else {
        assert(a =~= b);
    }
}

/// Different IPv4 addresses or ports are different endpoints.
pub proof fn law_v4_distinct(a: Seq<u8>, b: Seq<u8>, p: u16, q: u16)
    requires
        a.len() == 4,
        b.len() == 4,
        (Endpoint::V4 { addr: uint_value(a) as u32, port: p }) == (Endpoint::V4 {
            addr: uint_value(b) as u32,
            port: q,
        }),
    ensures
        a == b,
        p == q,
{
    lemma_uint_bounds(a);
    lemma_uint_bounds(b);
    lemma_uint_injective(a, b);
}

/// The number of a slot in a pool or table.
#[derive(Clone, Copy, Debug, PartialEq, Eq, Structural)]
pub struct SlotId {
    /// Position in the pool or table.
    pub at: usize,
}

impl SlotId {
    /// The slot at a position.
    pub fn from_index(at: usize) -> (id: SlotId)
        ensures
            id == (SlotId { at }),
    {
        SlotId { at }
    }

    /// The position of the slot.
    pub fn index(self) -> (at: usize)
        ensures
            at == self.at,
    {
        self.at
    }
}

/// What a table row is found by.
pub enum KeyView {
    /// Token, peer, and whether this side is the client.
    Token {
        /// Token octets.
        token: Seq<u8>,
        /// The peer.
        peer: Endpoint,
        /// Is this side the client?
        client: bool,
    },
    /// Message identifier and peer.
    Mid {
        /// The identifier.
        mid: u16,
        /// The peer.
        peer: Endpoint,
    },
}

/// What a table row is found by.
#[derive(Clone, Copy, Debug, PartialEq, Eq)]
pub enum Key {
    /// Token, peer, and whether this side is the client.
    Token {
        /// The token.
        token: Token,
        /// The peer.
        peer: Endpoint,
        /// Is this side the client?
        client: bool,
    },
    /// Message identifier and peer.
    Mid {
        /// The identifier.
        mid: MessageId,
        /// The peer.
        peer: Endpoint,
    },
}

impl View for Key {
    type V = KeyView;

    open spec fn view(&self) -> KeyView {
        match self {
            Key::Token { token, peer, client } => KeyView::Token {
                token: token@,
                peer: *peer,
                client: *client,
            },
            Key::Mid { mid, peer } => KeyView::Mid { mid: mid.raw, peer: *peer },
        }
    }
}

impl Key {
    /// Are two keys the same?
    pub fn same(&self, other: &Key) -> (b: bool)
        ensures
            b == (self@ == other@),
    {
        match (self, other) {
            (
                Key::Token { token, peer, client },
                Key::Token { token: t2, peer: p2, client: c2 },
            ) => token.same(t2) && *peer == *p2 && *client == *c2,
            (Key::Mid { mid, peer }, Key::Mid { mid: m2, peer: p2 }) => mid.raw == m2.raw && *peer
                == *p2,
            _ => false,
        }
    }
}

/// Finds an outstanding client request.
#[derive(Clone, Copy, Debug, PartialEq, Eq)]
pub struct ExchangeKey {
    /// The token sent.
    pub token: Token,
    /// The destination.
    pub peer: Endpoint,
}

impl ExchangeKey {
    /// The request with this token to this peer.
    pub fn new(token: Token, peer: Endpoint) -> (k: ExchangeKey)
        ensures
            k == (ExchangeKey { token, peer }),
    {
        ExchangeKey { token, peer }
    }

    /// As a table key.
    pub fn key(self) -> (k: Key)
        ensures
            k@ == (KeyView::Token { token: self.token@, peer: self.peer, client: true }),
    {
        Key::Token { token: self.token, peer: self.peer, client: true }
    }
}

/// Finds an observation, by the side that this endpoint is on.
#[derive(Clone, Copy, Debug, PartialEq, Eq)]
pub struct ObserveKey {
    /// The token of the registration.
    pub token: Token,
    /// The other side.
    pub peer: Endpoint,
    /// Is this side the client?
    pub client: bool,
}

impl ObserveKey {
    /// An observer of one of this endpoint's resources.
    pub fn new(token: Token, peer: Endpoint) -> (k: ObserveKey)
        ensures
            k == (ObserveKey { token, peer, client: false }),
    {
        ObserveKey { token, peer, client: false }
    }

    /// A subscription of this endpoint.
    pub fn new_client(token: Token, peer: Endpoint) -> (k: ObserveKey)
        ensures
            k == (ObserveKey { token, peer, client: true }),
    {
        ObserveKey { token, peer, client: true }
    }

    /// As a table key.
    pub fn key(self) -> (k: Key)
        ensures
            k@ == (KeyView::Token { token: self.token@, peer: self.peer, client: self.client }),
    {
        Key::Token { token: self.token, peer: self.peer, client: self.client }
    }

    /// Is this side the client?
    pub fn is_client(self) -> (b: bool)
        ensures
            b == self.client,
    {
        self.client
    }
}

/// Finds a request that was answered before.
#[derive(Clone, Copy, Debug, PartialEq, Eq, Structural)]
pub struct DedupKey {
    /// The request's message identifier.
    pub mid: MessageId,
    /// The requesting peer.
    pub peer: Endpoint,
}

impl DedupKey {
    /// The request with this identifier from this peer.
    pub fn new(mid: MessageId, peer: Endpoint) -> (k: DedupKey)
        ensures
            k == (DedupKey { mid, peer }),
    {
        DedupKey { mid, peer }
    }

    /// As a table key.
    pub fn key(self) -> (k: Key)
        ensures
            k@ == (KeyView::Mid { mid: self.mid.raw, peer: self.peer }),
    {
        Key::Mid { mid: self.mid, peer: self.peer }
    }
}

/// What a body tag says: `None` when there is no tag.
#[derive(Clone, Copy, Debug, PartialEq, Eq)]
pub struct BodyTag {
    present: bool,
    octets: Short,
}

impl View for BodyTag {
    type V = Option<Seq<u8>>;

    closed spec fn view(&self) -> Option<Seq<u8>> {
        if self.present {
            Some(self.octets@)
        } else {
            None
        }
    }
}

impl BodyTag {
    /// A present tag of at most eight octets.
    pub fn new(octets: &[u8]) -> (r: Result<BodyTag, ValueError>)
        ensures
            r.is_ok() == (octets@.len() <= 8),
            r matches Ok(t) ==> t@ == Some(octets@),
            r matches Err(e) ==> e == ValueError::OpaqueLength,
    {
        match Short::new(octets) {
            Some(octets) => Ok(BodyTag { present: true, octets }),
            None => Err(ValueError::OpaqueLength),
        }
    }

    /// A present tag without octets.
    pub fn empty() -> (t: BodyTag)
        ensures
            t@ == Some(Seq::<u8>::empty()),
    {
        BodyTag { present: true, octets: Short::empty() }
    }

    /// No tag.
    pub fn absent() -> (t: BodyTag)
        ensures
            t@ == None::<Seq<u8>>,
    {
        BodyTag { present: false, octets: Short::empty() }
    }

    /// Is there no tag?
    pub fn is_absent(&self) -> (b: bool)
        ensures
            b == self@.is_none(),
    {
        !self.present
    }

    /// Borrow the octets.
    pub fn as_slice(&self) -> (r: Option<&[u8]>)
        ensures
            r.is_some() == self@.is_some(),
            r matches Some(s) ==> self@ == Some(s@),
    {
        if self.present {
            Some(self.octets.as_slice())
        } else {
            None
        }
    }

    /// Are two tags the same?
    pub fn same(&self, other: &BodyTag) -> (b: bool)
        ensures
            b == (self@ == other@),
    {
        if self.present && other.present {
            self.octets.same(&other.octets)
        } else {
            self.present == other.present
        }
    }
}

/// Finds a block-wise transfer.
#[derive(Clone, Copy, Debug, PartialEq, Eq)]
pub struct BlockKey {
    /// The token of the exchange.
    pub token: Token,
    /// The peer.
    pub peer: Endpoint,
    /// Request-Tag or ETag of the body.
    pub identity: BodyTag,
}

/// What a block key says.
pub struct BlockKeyView {
    /// Token octets.
    pub token: Seq<u8>,
    /// The peer.
    pub peer: Endpoint,
    /// Request-Tag or ETag of the body.
    pub identity: Option<Seq<u8>>,
}

impl View for BlockKey {
    type V = BlockKeyView;

    open spec fn view(&self) -> BlockKeyView {
        BlockKeyView { token: self.token@, peer: self.peer, identity: self.identity@ }
    }
}

impl BlockKey {
    /// A transfer without a tag.
    pub fn new(token: Token, peer: Endpoint) -> (k: BlockKey)
        ensures
            k.token == token,
            k.peer == peer,
            k.identity@ == None::<Seq<u8>>,
    {
        BlockKey { token, peer, identity: BodyTag::absent() }
    }

    /// Set the tag.
    pub fn with_identity(self, identity: BodyTag) -> (k: BlockKey)
        ensures
            k == (BlockKey { identity, ..self }),
    {
        BlockKey { token: self.token, peer: self.peer, identity }
    }

    /// The token.
    pub fn token(&self) -> (t: Token)
        ensures
            t == self.token,
    {
        self.token
    }

    /// The peer.
    pub fn endpoint(&self) -> (e: Endpoint)
        ensures
            e == self.peer,
    {
        self.peer
    }

    /// Are two keys the same?
    pub fn same(&self, other: &BlockKey) -> (b: bool)
        ensures
            b == (self@ == other@),
    {
        self.token.same(&other.token) && self.peer == other.peer && self.identity.same(
            &other.identity,
        )
    }
}

} // verus!
