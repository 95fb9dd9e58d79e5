//! What errors say.
use vstd::prelude::*;

use super::calls::CallFailure;
use super::error::Error;
use super::identity::IdentityError;
use super::response::ResponseError;
use crate::error::{
    decimal, BlockTransferError, BuildError, EncodeError, ParseError, SlotError, SlotMessageError,
    ValueError,
};
use crate::storage::io::DatagramIoError;

verus! {

/// What an engine or an app that could not be built says.
pub proof fn law_build_texts()
    ensures
        BuildError::SizeMismatch.message() == "storage sizes do not match the builder"@,
        BuildError::BodyBytesNotMultipleOf1024.message()
            == "body slot bytes must be a multiple of 1024"@,
        BuildError::UnexpectedBodyPools.message()
            == "body pools are present but block-wise is disabled"@,
        BuildError::MissingBodyPools.message()
            == "block-wise is enabled but storage has no body pools"@,
        BuildError::ZeroBodyCapacity.message()
            == "enabled body capacity must not be zero slots or zero bytes"@,
        BuildError::IncompleteBodyCapacities.message()
            == "body capacity fields must be all set or all absent"@,
        BuildError::RandomnessRequired.message() == "a source of randomness is required"@,
        BuildError::RandomnessUnavailable.message() == "the source of randomness failed"@,
{
}

/// What a datagram that could not be read says; an option is named by its number.
pub proof fn law_parse_texts(n: u16)
    ensures
        ParseError::TruncatedHeader.message() == "truncated CoAP header"@,
        ParseError::UnsupportedVersion.message() == "unsupported CoAP version"@,
        ParseError::BadTokenLength.message() == "token length is 9-15"@,
        ParseError::TruncatedToken.message() == "truncated token"@,
        ParseError::TruncatedOption.message() == "truncated option"@,
        ParseError::ReservedOptionDelta.message() == "reserved option delta 15"@,
        ParseError::ReservedOptionLength.message() == "reserved option length 15"@,
        ParseError::OptionNumberOverflow.message() == "option number overflow"@,
        ParseError::EmptyMessageNotEmpty.message() == "empty message is not empty"@,
        ParseError::PayloadMarkerWithoutPayload.message() == "payload marker without payload"@,
        ParseError::UnrecognizedCritical(n).message() == "unrecognized critical option "@ + decimal(
            n as nat,
        ),
        ParseError::BadOptionFormat(n).message() == "RFC 7252 option "@ + decimal(n as nat)
            + " has the wrong format"@,
{
}

/// What a message that could not be written says.
pub proof fn law_encode_texts()
    ensures
        EncodeError::BufferTooSmall.message() == "encode buffer is too small"@,
        EncodeError::EmptyMessageNotEmpty.message() == "empty message is not empty"@,
        EncodeError::OptionsNotAscending.message() == "option numbers are not ascending"@,
        EncodeError::OptionValueTooLong.message() == "option value is too long"@,
        EncodeError::OptionsFull.message() == "options builder is full"@,
{
}

/// What an option value that could not be read says.
pub proof fn law_value_texts()
    ensures
        ValueError::InvalidUtf8.message() == "option value is not UTF-8"@,
        ValueError::UintOverflow.message() == "uint option value does not fit the target"@,
        ValueError::IllegalSzx.message() == "block SZX is not 0..=6 or BERT 7"@,
        ValueError::BlockNumOverflow.message() == "block NUM does not fit in 20 bits"@,
        ValueError::OpaqueLength.message() == "opaque option value is longer than 8 bytes"@,
        ValueError::EchoLength.message() == "Echo option value is not 1..=40 bytes"@,
{
}

/// What a slot that could not be used says.
pub proof fn law_slot_texts()
    ensures
        SlotError::OutOfRange.message() == "slot identifier is out of range"@,
        SlotError::NotOccupied.message() == "slot is not occupied"@,
        SlotError::LengthExceedsSlot.message() == "length exceeds the slot"@,
{
}

/// What a block-wise transfer that failed says.
pub proof fn law_transfer_texts()
    ensures
        BlockTransferError::NoBodyPools.message() == "body pools are absent"@,
        BlockTransferError::Saturated.message() == "body pool is saturated"@,
        BlockTransferError::NoTransfer.message() == "body slot has no block transfer"@,
        BlockTransferError::IdentityMismatch.message() == "block transfer identity does not match"@,
        BlockTransferError::MissingIdentity.message() == "windowed block transfer has no identity"@,
        BlockTransferError::MissingBlock.message()
            == "Block1, Block2, Q-Block1, or Q-Block2 option is missing"@,
        BlockTransferError::Overlap.message() == "block NUM overlaps an already filled range"@,
        BlockTransferError::Gap.message() == "block NUM skips the next expected block"@,
        BlockTransferError::OutsideWindow.message()
            == "block NUM is outside the current Q-Block window"@,
        BlockTransferError::Duplicate.message() == "block NUM is already received"@,
        BlockTransferError::SzxMismatch.message() == "block SZX does not match the transfer"@,
        BlockTransferError::Overflow.message() == "block exceeds body slot capacity"@,
        BlockTransferError::LengthInconsistent.message()
            == "completed length does not match Size1/Size2"@,
        BlockTransferError::AlreadyComplete.message() == "block transfer is already complete"@,
        BlockTransferError::PayloadLength.message()
            == "block payload length is not valid for NUM/M/SZX"@,
{
}

/// What an invalid response says.
pub proof fn law_response_texts()
    ensures
        ResponseError::EtagLength.message() == "ETag is not 1..=8 bytes"@,
        ResponseError::LocationDotSegment.message() == "Location-Path segment is a dot segment"@,
        ResponseError::LocationPathBounds.message() == "Location-Path exceeds its bounds"@,
        ResponseError::LocationQueryBounds.message() == "Location-Query exceeds its bounds"@,
{
}

/// What a missing identity says.
pub proof fn law_identity_texts()
    ensures
        IdentityError::RandomnessUnavailable.message() == "randomness unavailable"@,
        IdentityError::TokenExhausted.message() == "fresh Token unavailable"@,
        IdentityError::MessageIdExhausted.message() == "Message ID reuse interval has not elapsed"@,
{
}

/// What a call that failed says.
pub proof fn law_call_texts(e: BlockTransferError)
    ensures
        CallFailure::Cancelled.message() == "call cancelled"@,
        CallFailure::DeadlineExceeded.message() == "call deadline exceeded"@,
        CallFailure::TimedOut.message() == "request timed out"@,
        CallFailure::Reset.message() == "peer reset the request"@,
        CallFailure::ResponseMetadataBounds.message() == "response metadata exceeds App bounds"@,
        CallFailure::CancellationFailed.message() == "Observe cancellation could not be sent"@,
        CallFailure::BlockTransfer(e).message()
            == "response block transfer failed: "@ + e.message(),
{
}

/// What a failed operation of an app says.
pub proof fn law_app_texts<E>()
    ensures
        Error::<E>::DeadlineElapsed.message() == "call deadline already elapsed"@,
        Error::<E>::Saturated.message() == "a bounded table is saturated"@,
        Error::<E>::Path.message() == "uri-path has too many segments"@,
        Error::<E>::ConditionalUploadUnsupported.message()
            == "conditional fragmented uploads are unsupported"@,
        Error::<E>::NoResponseUploadUnsupported.message()
            == "No-Response fragmented uploads are unsupported"@,
        Error::<E>::NoResponseObserveUnsupported.message()
            == "No-Response Observe registration is unsupported"@,
        Error::<E>::ObserveCancellationMismatch.message()
            == "Observe cancellation does not match a live request"@,
        Error::<E>::ObserveCancellationAmbiguous.message()
            == "Observe cancellation requires an explicit Call"@,
        Error::<E>::ObserveRequestTooLarge.message()
            == "Observe request identity exceeds 512 bytes"@,
        Error::<E>::RequestTagRequired.message() == "Q-Block1 requires a Request-Tag"@,
        Error::<E>::RequestTagInUse.message() == "Request-Tag already in use at this peer"@,
{
}

/// An error that holds another one says what that one says.
pub proof fn law_wrapped_texts<E>(
    slot: SlotError,
    parse: ParseError,
    encode: EncodeError,
    value: ValueError,
    block: BlockTransferError,
    response: ResponseError,
    identity: IdentityError,
    message: SlotMessageError,
)
    ensures
        SlotMessageError::Slot(slot).message() == slot.message(),
        SlotMessageError::Parse(parse).message() == parse.message(),
        SlotMessageError::Encode(encode).message() == encode.message(),
        BlockTransferError::Slot(slot).message() == slot.message(),
        BlockTransferError::Value(value).message() == value.message(),
        BlockTransferError::Parse(parse).message() == parse.message(),
        BlockTransferError::Encode(encode).message() == encode.message(),
        Error::<E>::Identity(identity).message() == identity.message(),
        Error::<E>::Response(response).message() == response.message(),
        Error::<E>::Slot(slot).message() == slot.message(),
        Error::<E>::Message(message).message() == message.message(),
        Error::<E>::Block(block).message() == block.message(),
        Error::<E>::Io(DatagramIoError::Slot(slot)).message() == slot.message(),
        Error::<E>::Io(DatagramIoError::Saturated).message() == "no free datagram slot"@,
        Error::<E>::Io(DatagramIoError::NoEndpoint).message() == "outgoing slot has no endpoint"@,
        Error::<E>::Io(DatagramIoError::ShortSend).message() == "datagram was sent only in part"@,
{
}

/// The decimal digits of a number, the least significant one last.
pub proof fn law_decimal(n: nat, d: nat)
    requires
        d < 10,
    ensures
        decimal(d).len() == 1,
        decimal(d)[0] as int == '0' as int + d,
        n > 0 ==> decimal(10 * n + d) == decimal(n) + decimal(d),
{
    if n > 0 {
        assert((10 * n + d) / 10 == n && (10 * n + d) % 10 == d);
        assert(decimal(n).push(crate::error::digit(d)) =~= decimal(n) + decimal(d));
    }
}

} // verus!
