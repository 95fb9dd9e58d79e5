//! Message types, codes, identifiers and tokens.
use vstd::prelude::*;

use crate::bytes::Short;

verus! {

/// The four message types.
#[derive(Clone, Copy, Debug, PartialEq, Eq, Structural)]
pub enum Type {
    /// Needs an acknowledgement.
    Confirmable,
    /// Needs none.
    NonConfirmable,
    /// Acknowledges a confirmable message.
    Acknowledgement,
    /// The message could not be processed.
    Reset,
}

impl Type {
    /// The two-bit field of the header.
    pub open spec fn bits(self) -> int {
        match self {
            Type::Confirmable => 0,
            Type::NonConfirmable => 1,
            Type::Acknowledgement => 2,
            Type::Reset => 3,
        }
    }

    /// The type with the given header field.
    pub open spec fn of_bits(bits: int) -> Type {
        if bits == 0 {
            Type::Confirmable
        } else if bits == 1 {
            Type::NonConfirmable
        } else if bits == 2 {
            Type::Acknowledgement
        } else {
            Type::Reset
        }
    }

    /// The two-bit field of the header.
    pub fn to_bits(self) -> (b: u8)
        ensures
            b as int == self.bits(),
            b < 4,
    {
        match self {
            Type::Confirmable => 0,
            Type::NonConfirmable => 1,
            Type::Acknowledgement => 2,
            Type::Reset => 3,
        }
    }

    /// The type with the given header field.
    pub fn from_bits(bits: u8) -> (t: Type)
        ensures
            t == Type::of_bits(bits as int),
    {
        if bits == 0 {
            Type::Confirmable
        } else if bits == 1 {
            Type::NonConfirmable
        } else if bits == 2 {
            Type::Acknowledgement
        } else {
            Type::Reset
        }
    }
}

/// Request methods and response codes.
///
/// `Other` holds a code without a name here; [`Code::from_raw`] never puts a
/// named one into it.
#[allow(non_camel_case_types)]
#[derive(Clone, Copy, Debug, PartialEq, Eq, Structural)]
pub enum Code {
    /// 0.00
    EMPTY,
    /// 0.01
    GET,
    /// 0.02
    POST,
    /// 0.03
    PUT,
    /// 0.04
    DELETE,
    /// 0.05
    FETCH,
    /// 0.06
    PATCH,
    /// 0.07
    IPATCH,
    /// 2.01
    CREATED,
    /// 2.02
    DELETED,
    /// 2.03
    VALID,
    /// 2.04
    CHANGED,
    /// 2.05
    CONTENT,
    /// 2.31
    CONTINUE,
    /// 4.00
    BAD_REQUEST,
    /// 4.01
    UNAUTHORIZED,
    /// 4.02
    BAD_OPTION,
    /// 4.03
    FORBIDDEN,
    /// 4.04
    NOT_FOUND,
    /// 4.05
    METHOD_NOT_ALLOWED,
    /// 4.06
    NOT_ACCEPTABLE,
    /// 4.08
    REQUEST_ENTITY_INCOMPLETE,
    /// 4.12
    PRECONDITION_FAILED,
    /// 4.13
    REQUEST_ENTITY_TOO_LARGE,
    /// 4.15
    UNSUPPORTED_CONTENT_FORMAT,
    /// 5.00
    INTERNAL_SERVER_ERROR,
    /// 5.01
    NOT_IMPLEMENTED,
    /// 5.02
    BAD_GATEWAY,
    /// 5.03
    SERVICE_UNAVAILABLE,
    /// 5.04
    GATEWAY_TIMEOUT,
    /// 5.05
    PROXYING_NOT_SUPPORTED,
    /// Any other code octet.
    Other(u8),
}

impl Code {
    /// The code octet: class in the upper three bits, detail in the lower five.
    pub open spec fn raw(self) -> u8 {
        match self {
            Code::EMPTY => 0,
            Code::GET => 1,
            Code::POST => 2,
            Code::PUT => 3,
            Code::DELETE => 4,
            Code::FETCH => 5,
            Code::PATCH => 6,
            Code::IPATCH => 7,
            Code::CREATED => 65,
            Code::DELETED => 66,
            Code::VALID => 67,
            Code::CHANGED => 68,
            Code::CONTENT => 69,
            Code::CONTINUE => 95,
            Code::BAD_REQUEST => 128,
            Code::UNAUTHORIZED => 129,
            Code::BAD_OPTION => 130,
            Code::FORBIDDEN => 131,
            Code::NOT_FOUND => 132,
            Code::METHOD_NOT_ALLOWED => 133,
            Code::NOT_ACCEPTABLE => 134,
            Code::REQUEST_ENTITY_INCOMPLETE => 136,
            Code::PRECONDITION_FAILED => 140,
            Code::REQUEST_ENTITY_TOO_LARGE => 141,
            Code::UNSUPPORTED_CONTENT_FORMAT => 143,
            Code::INTERNAL_SERVER_ERROR => 160,
            Code::NOT_IMPLEMENTED => 161,
            Code::BAD_GATEWAY => 162,
            Code::SERVICE_UNAVAILABLE => 163,
            Code::GATEWAY_TIMEOUT => 164,
            Code::PROXYING_NOT_SUPPORTED => 165,
            Code::Other(b) => b,
        }
    }

    /// The code that a code octet stands for.
    pub open spec fn of_raw(b: u8) -> Code {
        match b {
            0 => Code::EMPTY,
            1 => Code::GET,
            2 => Code::POST,
            3 => Code::PUT,
            4 => Code::DELETE,
            5 => Code::FETCH,
            6 => Code::PATCH,
            7 => Code::IPATCH,
            65 => Code::CREATED,
            66 => Code::DELETED,
            67 => Code::VALID,
            68 => Code::CHANGED,
            69 => Code::CONTENT,
            95 => Code::CONTINUE,
            128 => Code::BAD_REQUEST,
            129 => Code::UNAUTHORIZED,
            130 => Code::BAD_OPTION,
            131 => Code::FORBIDDEN,
            132 => Code::NOT_FOUND,
            133 => Code::METHOD_NOT_ALLOWED,
            134 => Code::NOT_ACCEPTABLE,
            136 => Code::REQUEST_ENTITY_INCOMPLETE,
            140 => Code::PRECONDITION_FAILED,
            141 => Code::REQUEST_ENTITY_TOO_LARGE,
            143 => Code::UNSUPPORTED_CONTENT_FORMAT,
            160 => Code::INTERNAL_SERVER_ERROR,
            161 => Code::NOT_IMPLEMENTED,
            162 => Code::BAD_GATEWAY,
            163 => Code::SERVICE_UNAVAILABLE,
            164 => Code::GATEWAY_TIMEOUT,
            165 => Code::PROXYING_NOT_SUPPORTED,
            _ => Code::Other(b),
        }
    }

    /// Does the value name its octet the way [`Code::from_raw`] would?
    pub open spec fn canonical(self) -> bool {
        Code::of_raw(self.raw()) == self
    }

    /// The code octet.
    pub fn to_raw(self) -> (b: u8)
        ensures
            b == self.raw(),
    {
        match self {
            Code::EMPTY => 0,
            Code::GET => 1,
            Code::POST => 2,
            Code::PUT => 3,
            Code::DELETE => 4,
            Code::FETCH => 5,
            Code::PATCH => 6,
            Code::IPATCH => 7,
            Code::CREATED => 65,
            Code::DELETED => 66,
            Code::VALID => 67,
            Code::CHANGED => 68,
            Code::CONTENT => 69,
            Code::CONTINUE => 95,
            Code::BAD_REQUEST => 128,
            Code::UNAUTHORIZED => 129,
            Code::BAD_OPTION => 130,
            Code::FORBIDDEN => 131,
            Code::NOT_FOUND => 132,
            Code::METHOD_NOT_ALLOWED => 133,
            Code::NOT_ACCEPTABLE => 134,
            Code::REQUEST_ENTITY_INCOMPLETE => 136,
            Code::PRECONDITION_FAILED => 140,
            Code::REQUEST_ENTITY_TOO_LARGE => 141,
            Code::UNSUPPORTED_CONTENT_FORMAT => 143,
            Code::INTERNAL_SERVER_ERROR => 160,
            Code::NOT_IMPLEMENTED => 161,
            Code::BAD_GATEWAY => 162,
            Code::SERVICE_UNAVAILABLE => 163,
            Code::GATEWAY_TIMEOUT => 164,
            Code::PROXYING_NOT_SUPPORTED => 165,
            Code::Other(b) => b,
        }
    }

    /// The code that a code octet stands for.
    pub fn from_raw(b: u8) -> (c: Code)
        ensures
            c == Code::of_raw(b),
    {
        match b {
            0 => Code::EMPTY,
            1 => Code::GET,
            2 => Code::POST,
            3 => Code::PUT,
            4 => Code::DELETE,
            5 => Code::FETCH,
            6 => Code::PATCH,
            7 => Code::IPATCH,
            65 => Code::CREATED,
            66 => Code::DELETED,
            67 => Code::VALID,
            68 => Code::CHANGED,
            69 => Code::CONTENT,
            95 => Code::CONTINUE,
            128 => Code::BAD_REQUEST,
            129 => Code::UNAUTHORIZED,
            130 => Code::BAD_OPTION,
            131 => Code::FORBIDDEN,
            132 => Code::NOT_FOUND,
            133 => Code::METHOD_NOT_ALLOWED,
            134 => Code::NOT_ACCEPTABLE,
            136 => Code::REQUEST_ENTITY_INCOMPLETE,
            140 => Code::PRECONDITION_FAILED,
            141 => Code::REQUEST_ENTITY_TOO_LARGE,
            143 => Code::UNSUPPORTED_CONTENT_FORMAT,
            160 => Code::INTERNAL_SERVER_ERROR,
            161 => Code::NOT_IMPLEMENTED,
            162 => Code::BAD_GATEWAY,
            163 => Code::SERVICE_UNAVAILABLE,
            164 => Code::GATEWAY_TIMEOUT,
            165 => Code::PROXYING_NOT_SUPPORTED,
            _ => Code::Other(b),
        }
    }

    /// Is this a request method (class 0, detail not zero)?
    pub open spec fn spec_is_request(self) -> bool {
        1 <= self.raw() <= 31
    }

    /// Is this a success response (class 2)?
    pub open spec fn spec_is_success(self) -> bool {
        64 <= self.raw() <= 95
    }

    /// Is this a request method (class 0, detail not zero)?
    #[verifier::when_used_as_spec(spec_is_request)]
    pub fn is_request(self) -> (b: bool)
        ensures
            b == self.spec_is_request(),
    {
        let raw: u8 = self.to_raw();
        1 <= raw && raw <= 31
    }

    /// Is this a success response (class 2)?
    #[verifier::when_used_as_spec(spec_is_success)]
    pub fn is_success(self) -> (b: bool)
        ensures
            b == self.spec_is_success(),
    {
        let raw: u8 = self.to_raw();
        64 <= raw && raw <= 95
    }

    /// Every octet is the octet of exactly one canonical code.
    pub proof fn law_raw_round_trip(b: u8)
        ensures
            Code::of_raw(b).raw() == b,
            Code::of_raw(b).canonical(),
    {
    }
}

/// A message identifier.
#[derive(Clone, Copy, Debug, PartialEq, Eq, Hash, Structural)]
pub struct MessageId {
    /// The identifier as a number.
    pub raw: u16,
}

impl MessageId {
    /// The identifier with this number.
    pub fn new(raw: u16) -> (m: MessageId)
        ensures
            m.raw == raw,
    {
        MessageId { raw }
    }

    /// The identifier as a number.
    pub fn get(self) -> (raw: u16)
        ensures
            raw == self.raw,
    {
        self.raw
    }
}

/// A token: at most eight octets, chosen by the client, echoed by the server.
#[derive(Clone, Copy, Debug, PartialEq, Eq, Hash)]
pub struct Token {
    octets: Short,
}

impl View for Token {
    type V = Seq<u8>;

    closed spec fn view(&self) -> Seq<u8> {
        self.octets@
    }
}

impl Token {
    /// The token with these octets; `None` above eight of them.
    pub fn new(octets: &[u8]) -> (t: Option<Token>)
        ensures
            t.is_some() == (octets@.len() <= 8),
            t matches Some(v) ==> v@ == octets@,
    {
        match Short::new(octets) {
            Some(octets) => Some(Token { octets }),
            None => None,
        }
    }

    /// The token with these octets, which are at most eight.
    pub fn from_checked(octets: &[u8]) -> (t: Token)
        requires
            octets@.len() <= 8,
        ensures
            t@ == octets@,
    {
        match Short::new(octets) {
            Some(octets) => Token { octets },
            None => Token { octets: Short::empty() },
        }
    }

    /// The token of length zero.
    pub fn empty() -> (t: Token)
        ensures
            t@ == Seq::<u8>::empty(),
    {
        Token { octets: Short::empty() }
    }

    /// Borrow the octets.
    pub fn as_bytes(&self) -> (out: &[u8])
        ensures
            out@ == self@,
    {
        self.octets.as_slice()
    }

    /// How many octets there are.
    pub fn len(&self) -> (n: usize)
        ensures
            n == self@.len(),
            n <= 8,
    {
        broadcast use Short::at_most_eight;

        self.octets.len()
    }

    /// Is the token empty?
    pub fn is_empty(&self) -> (b: bool)
        ensures
            b == (self@.len() == 0),
    {
        self.octets.is_empty()
    }

    /// Do two tokens hold the same octets?
    pub fn same(&self, other: &Token) -> (b: bool)
        ensures
            b == (self@ == other@),
    {
        self.octets.same(&other.octets)
    }

    /// No token is longer than eight octets.
    pub broadcast proof fn at_most_eight(self)
        ensures
            #[trigger] self@.len() <= 8,
    {
        broadcast use Short::at_most_eight;

    }
}

} // verus!
