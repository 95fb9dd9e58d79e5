//! Errors of construction, decoding, encoding, and block-wise transfer.
use vstd::prelude::*;
use vstd::string::StringExecFns;

verus! {

/// Failure to construct an engine or an app.
#[derive(Clone, Copy, Debug, PartialEq, Eq, Structural)]
pub enum BuildError {
    /// Builder sizes do not match the storage being moved in.
    SizeMismatch,
    /// Enabled body slot bytes are not a multiple of 1024.
    BodyBytesNotMultipleOf1024,
    /// Block-wise is off, but storage or the builder includes body pools.
    UnexpectedBodyPools,
    /// Block-wise is on, but storage has no body pools.
    MissingBodyPools,
    /// Enabled body slot count or bytes is zero. Zero is not "disabled".
    ZeroBodyCapacity,
    /// Some body capacity fields are set and others are not.
    IncompleteBodyCapacities,
    /// No source of tokens, message identifiers and jitter was configured.
    RandomnessRequired,
    /// The configured source of randomness failed.
    RandomnessUnavailable,
}

impl BuildError {
    /// What the error says.
    pub open spec fn message(self) -> Seq<char> {
        match self {
            BuildError::SizeMismatch => "storage sizes do not match the builder"@,
            BuildError::BodyBytesNotMultipleOf1024 => "body slot bytes must be a multiple of 1024"@,
            BuildError::UnexpectedBodyPools => "body pools are present but block-wise is disabled"@,
            BuildError::MissingBodyPools => "block-wise is enabled but storage has no body pools"@,
            BuildError::ZeroBodyCapacity =>
                "enabled body capacity must not be zero slots or zero bytes"@,
            BuildError::IncompleteBodyCapacities =>
                "body capacity fields must be all set or all absent"@,
            BuildError::RandomnessRequired => "a source of randomness is required"@,
            BuildError::RandomnessUnavailable => "the source of randomness failed"@,
        }
    }

    /// What the error says.
    pub fn text(self) -> (s: &'static str)
        ensures
            s@ == self.message(),
    {
        match self {
            BuildError::SizeMismatch => "storage sizes do not match the builder",
            BuildError::BodyBytesNotMultipleOf1024 => "body slot bytes must be a multiple of 1024",
            BuildError::UnexpectedBodyPools => "body pools are present but block-wise is disabled",
            BuildError::MissingBodyPools => "block-wise is enabled but storage has no body pools",
            BuildError::ZeroBodyCapacity =>
                "enabled body capacity must not be zero slots or zero bytes",
            BuildError::IncompleteBodyCapacities =>
                "body capacity fields must be all set or all absent",
            BuildError::RandomnessRequired => "a source of randomness is required",
            BuildError::RandomnessUnavailable => "the source of randomness failed",
        }
    }
}

/// Failure to decode a datagram.
///
/// The last two variants are reports of the optional option checks;
/// decoding itself never gives them.
#[derive(Clone, Copy, Debug, PartialEq, Eq, Structural)]
pub enum ParseError {
    /// Buffer shorter than the 4-byte header.
    TruncatedHeader,
    /// Version field is not 1.
    UnsupportedVersion,
    /// Token length nibble is 9 to 15.
    BadTokenLength,
    /// Buffer ends before the token does.
    TruncatedToken,
    /// Option header, extended field, or value overruns the buffer.
    TruncatedOption,
    /// Option delta nibble is 15 but the byte is not the payload marker.
    ReservedOptionDelta,
    /// Option length nibble is 15.
    ReservedOptionLength,
    /// Running option number exceeded 65535.
    OptionNumberOverflow,
    /// Empty message (code 0.00) has a token, options, or payload.
    EmptyMessageNotEmpty,
    /// Payload marker with no following payload bytes.
    PayloadMarkerWithoutPayload,
    /// A critical option is not among the base protocol's options.
    UnrecognizedCritical(u16),
    /// A base option has a value that does not match its format.
    BadOptionFormat(u16),
}

/// The decimal digits of a number, most significant first.
pub open spec fn decimal(n: nat) -> Seq<char>
    decreases n,
{
    if n < 10 {
        seq![digit(n)]
    } else {
        decimal(n / 10).push(digit(n % 10))
    }
}

/// One decimal digit.
pub open spec fn digit(d: nat) -> char {
    if d == 0 {
        '0'
    } else if d == 1 {
        '1'
    } else if d == 2 {
        '2'
    } else if d == 3 {
        '3'
    } else if d == 4 {
        '4'
    } else if d == 5 {
        '5'
    } else if d == 6 {
        '6'
    } else if d == 7 {
        '7'
    } else if d == 8 {
        '8'
    } else {
        '9'
    }
}

fn digit_text(d: u16) -> (s: &'static str)
    requires
        d < 10,
    ensures
        s@ == seq![digit(d as nat)],
{
    proof {
        reveal_strlit("0");
        reveal_strlit("1");
        reveal_strlit("2");
        reveal_strlit("3");
        reveal_strlit("4");
        reveal_strlit("5");
        reveal_strlit("6");
        reveal_strlit("7");
        reveal_strlit("8");
        reveal_strlit("9");
    }
    let s: &'static str = match d {
        0 => "0",
        1 => "1",
        2 => "2",
        3 => "3",
        4 => "4",
        5 => "5",
        6 => "6",
        7 => "7",
        8 => "8",
        _ => "9",
    };
    assert(s@ =~= seq![digit(d as nat)]);
    s
}

fn push_decimal(out: &mut String, n: u16)
    ensures
        final(out)@ == old(out)@ + decimal(n as nat),
    decreases n,
{
    let ghost before = out@;
    if n >= 10 {
        push_decimal(out, n / 10);
        assert(out@ == before + decimal((n / 10) as nat));
    }
    out.append(digit_text(n % 10));
    proof {
        if n >= 10 {
            assert(decimal(n as nat) == decimal((n / 10) as nat).push(digit((n % 10) as nat)));
        }
        assert(out@ =~= before + decimal(n as nat));
    }
}

impl ParseError {
    /// What the error says.
    pub open spec fn message(self) -> Seq<char> {
        match self {
            ParseError::TruncatedHeader => "truncated CoAP header"@,
            ParseError::UnsupportedVersion => "unsupported CoAP version"@,
            ParseError::BadTokenLength => "token length is 9-15"@,
            ParseError::TruncatedToken => "truncated token"@,
            ParseError::TruncatedOption => "truncated option"@,
            ParseError::ReservedOptionDelta => "reserved option delta 15"@,
            ParseError::ReservedOptionLength => "reserved option length 15"@,
            ParseError::OptionNumberOverflow => "option number overflow"@,
            ParseError::EmptyMessageNotEmpty => "empty message is not empty"@,
            ParseError::PayloadMarkerWithoutPayload => "payload marker without payload"@,
            ParseError::UnrecognizedCritical(n) => "unrecognized critical option "@ + decimal(
                n as nat,
            ),
            ParseError::BadOptionFormat(n) => "RFC 7252 option "@ + decimal(n as nat)
                + " has the wrong format"@,
        }
    }

    /// What the error says.
    pub fn text(self) -> (s: String)
        ensures
            s@ == self.message(),
    {
        match self {
            ParseError::TruncatedHeader => String::from_str("truncated CoAP header"),
            ParseError::UnsupportedVersion => String::from_str("unsupported CoAP version"),
            ParseError::BadTokenLength => String::from_str("token length is 9-15"),
            ParseError::TruncatedToken => String::from_str("truncated token"),
            ParseError::TruncatedOption => String::from_str("truncated option"),
            ParseError::ReservedOptionDelta => String::from_str("reserved option delta 15"),
            ParseError::ReservedOptionLength => String::from_str("reserved option length 15"),
            ParseError::OptionNumberOverflow => String::from_str("option number overflow"),
            ParseError::EmptyMessageNotEmpty => String::from_str("empty message is not empty"),
            ParseError::PayloadMarkerWithoutPayload => String::from_str(
                "payload marker without payload",
            ),
            ParseError::UnrecognizedCritical(n) => {
                let mut s = String::from_str("unrecognized critical option ");
                push_decimal(&mut s, n);
                s
            },
            ParseError::BadOptionFormat(n) => {
                let mut s = String::from_str("RFC 7252 option ");
                push_decimal(&mut s, n);
                s.append(" has the wrong format");
                s
            },
        }
    }
}

/// Failure to encode a datagram.
#[derive(Clone, Copy, Debug, PartialEq, Eq, Structural)]
pub enum EncodeError {
    /// Output buffer is shorter than the encoded message.
    BufferTooSmall,
    /// Empty message (code 0.00) has a token, options, or payload.
    EmptyMessageNotEmpty,
    /// Option numbers are not in non-decreasing order.
    OptionsNotAscending,
    /// Option value cannot be encoded or retained.
    OptionValueTooLong,
    /// The option list has no free slot.
    OptionsFull,
}

impl EncodeError {
    /// What the error says.
    pub open spec fn message(self) -> Seq<char> {
        match self {
            EncodeError::BufferTooSmall => "encode buffer is too small"@,
            EncodeError::EmptyMessageNotEmpty => "empty message is not empty"@,
            EncodeError::OptionsNotAscending => "option numbers are not ascending"@,
            EncodeError::OptionValueTooLong => "option value is too long"@,
            EncodeError::OptionsFull => "options builder is full"@,
        }
    }

    /// What the error says.
    pub fn text(self) -> (s: &'static str)
        ensures
            s@ == self.message(),
    {
        match self {
            EncodeError::BufferTooSmall => "encode buffer is too small",
            EncodeError::EmptyMessageNotEmpty => "empty message is not empty",
            EncodeError::OptionsNotAscending => "option numbers are not ascending",
            EncodeError::OptionValueTooLong => "option value is too long",
            EncodeError::OptionsFull => "options builder is full",
        }
    }
}

/// Failure to decode an option value.
#[derive(Clone, Copy, Debug, PartialEq, Eq, Structural)]
pub enum ValueError {
    /// Bytes are not a UTF-8 string option value.
    InvalidUtf8,
    /// Integer does not fit the target width.
    UintOverflow,
    /// SZX is not 0 to 7, or the size is not a legal block size.
    IllegalSzx,
    /// NUM does not fit in 20 bits.
    BlockNumOverflow,
    /// Opaque option value is longer than 8 bytes.
    OpaqueLength,
    /// Echo value is not 1 to 40 bytes long.
    EchoLength,
}

impl ValueError {
    /// What the error says.
    pub open spec fn message(self) -> Seq<char> {
        match self {
            ValueError::InvalidUtf8 => "option value is not UTF-8"@,
            ValueError::UintOverflow => "uint option value does not fit the target"@,
            ValueError::IllegalSzx => "block SZX is not 0..=6 or BERT 7"@,
            ValueError::BlockNumOverflow => "block NUM does not fit in 20 bits"@,
            ValueError::OpaqueLength => "opaque option value is longer than 8 bytes"@,
            ValueError::EchoLength => "Echo option value is not 1..=40 bytes"@,
        }
    }

    /// What the error says.
    pub fn text(self) -> (s: &'static str)
        ensures
            s@ == self.message(),
    {
        match self {
            ValueError::InvalidUtf8 => "option value is not UTF-8",
            ValueError::UintOverflow => "uint option value does not fit the target",
            ValueError::IllegalSzx => "block SZX is not 0..=6 or BERT 7",
            ValueError::BlockNumOverflow => "block NUM does not fit in 20 bits",
            ValueError::OpaqueLength => "opaque option value is longer than 8 bytes",
            ValueError::EchoLength => "Echo option value is not 1..=40 bytes",
        }
    }
}

/// The options builder has no free slot.
#[derive(Clone, Copy, Debug, PartialEq, Eq, Structural)]
pub struct OptionsFull;

impl OptionsFull {
    /// What the error says.
    pub fn text(self) -> (s: &'static str)
        ensures
            s@ == "options builder is full"@,
    {
        "options builder is full"
    }
}

/// Failure to address a slot.
#[derive(Clone, Copy, Debug, PartialEq, Eq, Structural)]
pub enum SlotError {
    /// The identifier is out of range.
    OutOfRange,
    /// The slot is free.
    NotOccupied,
    /// The bytes do not fit the slot.
    LengthExceedsSlot,
}

impl SlotError {
    /// What the error says.
    pub open spec fn message(self) -> Seq<char> {
        match self {
            SlotError::OutOfRange => "slot identifier is out of range"@,
            SlotError::NotOccupied => "slot is not occupied"@,
            SlotError::LengthExceedsSlot => "length exceeds the slot"@,
        }
    }

    /// What the error says.
    pub fn text(self) -> (s: &'static str)
        ensures
            s@ == self.message(),
    {
        match self {
            SlotError::OutOfRange => "slot identifier is out of range",
            SlotError::NotOccupied => "slot is not occupied",
            SlotError::LengthExceedsSlot => "length exceeds the slot",
        }
    }
}

/// Failure to decode or encode a datagram in an occupied slot.
#[derive(Clone, Copy, Debug, PartialEq, Eq, Structural)]
pub enum SlotMessageError {
    /// The slot is free or the identifier is out of range.
    Slot(SlotError),
    /// Occupied bytes are not a well-formed datagram.
    Parse(ParseError),
    /// Encoding failed.
    Encode(EncodeError),
}

impl SlotMessageError {
    /// What the error says.
    pub open spec fn message(self) -> Seq<char> {
        match self {
            SlotMessageError::Slot(e) => e.message(),
            SlotMessageError::Parse(e) => e.message(),
            SlotMessageError::Encode(e) => e.message(),
        }
    }

    /// What the error says.
    pub fn text(self) -> (s: String)
        ensures
            s@ == self.message(),
    {
        match self {
            SlotMessageError::Slot(e) => String::from_str(e.text()),
            SlotMessageError::Parse(e) => e.text(),
            SlotMessageError::Encode(e) => String::from_str(e.text()),
        }
    }
}

/// Failure of a block-wise transfer.
#[derive(Clone, Copy, Debug, PartialEq, Eq, Structural)]
pub enum BlockTransferError {
    /// Storage has no body pools.
    NoBodyPools,
    /// Body pool is full; no slot can be admitted.
    Saturated,
    /// Slot addressing or occupancy failure.
    Slot(SlotError),
    /// Occupied body slot has no transfer.
    NoTransfer,
    /// Token, peer, tag or body does not match the slot's transfer.
    IdentityMismatch,
    /// A windowed transfer needs an identity and has none.
    MissingIdentity,
    /// The block option is missing from the datagram.
    MissingBlock,
    /// NUM is below the next expected block.
    Overlap,
    /// NUM is above the next expected block.
    Gap,
    /// NUM is outside the current window.
    OutsideWindow,
    /// NUM is already received in this transfer.
    Duplicate,
    /// SZX differs from the SZX locked on the first block.
    SzxMismatch,
    /// Block range would exceed the body-slot capacity.
    Overflow,
    /// The last block does not end where the announced size says.
    LengthInconsistent,
    /// Transfer already completed.
    AlreadyComplete,
    /// Payload length is not valid for this NUM, M and SZX.
    PayloadLength,
    /// Option-value decode failed.
    Value(ValueError),
    /// Occupied datagram is not a well-formed message.
    Parse(ParseError),
    /// Encoding a block datagram failed.
    Encode(EncodeError),
}

impl BlockTransferError {
    /// What the error says.
    pub open spec fn message(self) -> Seq<char> {
        match self {
            BlockTransferError::NoBodyPools => "body pools are absent"@,
            BlockTransferError::Saturated => "body pool is saturated"@,
            BlockTransferError::Slot(e) => e.message(),
            BlockTransferError::NoTransfer => "body slot has no block transfer"@,
            BlockTransferError::IdentityMismatch => "block transfer identity does not match"@,
            BlockTransferError::MissingIdentity => "windowed block transfer has no identity"@,
            BlockTransferError::MissingBlock =>
                "Block1, Block2, Q-Block1, or Q-Block2 option is missing"@,
            BlockTransferError::Overlap => "block NUM overlaps an already filled range"@,
            BlockTransferError::Gap => "block NUM skips the next expected block"@,
            BlockTransferError::OutsideWindow => "block NUM is outside the current Q-Block window"@,
            BlockTransferError::Duplicate => "block NUM is already received"@,
            BlockTransferError::SzxMismatch => "block SZX does not match the transfer"@,
            BlockTransferError::Overflow => "block exceeds body slot capacity"@,
            BlockTransferError::LengthInconsistent => "completed length does not match Size1/Size2"@,
            BlockTransferError::AlreadyComplete => "block transfer is already complete"@,
            BlockTransferError::PayloadLength =>
                "block payload length is not valid for NUM/M/SZX"@,
            BlockTransferError::Value(e) => e.message(),
            BlockTransferError::Parse(e) => e.message(),
            BlockTransferError::Encode(e) => e.message(),
        }
    }

    /// What the error says.
    pub fn text(self) -> (s: String)
        ensures
            s@ == self.message(),
    {
        match self {
            BlockTransferError::NoBodyPools => String::from_str("body pools are absent"),
            BlockTransferError::Saturated => String::from_str("body pool is saturated"),
            BlockTransferError::Slot(e) => String::from_str(e.text()),
            BlockTransferError::NoTransfer => String::from_str("body slot has no block transfer"),
            BlockTransferError::IdentityMismatch => String::from_str(
                "block transfer identity does not match",
            ),
            BlockTransferError::MissingIdentity => String::from_str(
                "windowed block transfer has no identity",
            ),
            BlockTransferError::MissingBlock => String::from_str(
                "Block1, Block2, Q-Block1, or Q-Block2 option is missing",
            ),
            BlockTransferError::Overlap => String::from_str(
                "block NUM overlaps an already filled range",
            ),
            BlockTransferError::Gap => String::from_str("block NUM skips the next expected block"),
            BlockTransferError::OutsideWindow => String::from_str(
                "block NUM is outside the current Q-Block window",
            ),
            BlockTransferError::Duplicate => String::from_str("block NUM is already received"),
            BlockTransferError::SzxMismatch => String::from_str(
                "block SZX does not match the transfer",
            ),
            BlockTransferError::Overflow => String::from_str("block exceeds body slot capacity"),
            BlockTransferError::LengthInconsistent => String::from_str(
                "completed length does not match Size1/Size2",
            ),
            BlockTransferError::AlreadyComplete => String::from_str(
                "block transfer is already complete",
            ),
            BlockTransferError::PayloadLength => String::from_str(
                "block payload length is not valid for NUM/M/SZX",
            ),
            BlockTransferError::Value(e) => String::from_str(e.text()),
            BlockTransferError::Parse(e) => e.text(),
            BlockTransferError::Encode(e) => String::from_str(e.text()),
        }
    }
}

} // verus!
