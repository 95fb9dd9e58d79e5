//! Errors of the app.
use vstd::prelude::*;
use vstd::string::StringExecFns;

use super::identity::IdentityError;
use super::response::ResponseError;
use crate::error::{BlockTransferError, SlotError, SlotMessageError};
use crate::storage::engine::TxError;
use crate::storage::DatagramIoError;

verus! {

/// Why a poll, a notification or a request failed.
#[derive(Clone, Copy, Debug, PartialEq, Eq)]
pub enum Error<E> {
    /// No fresh identity or retransmission schedule.
    Identity(IdentityError),
    /// The response of a handler or a notification is not valid.
    Response(ResponseError),
    /// The deadline has passed already; nothing was sent.
    DeadlineElapsed,
    /// The transport failed.
    Io(DatagramIoError<E>),
    /// Slot addressing or fill.
    Slot(SlotError),
    /// Decoding or encoding in a slot.
    Message(SlotMessageError),
    /// A bounded table is full.
    Saturated,
    /// A block-wise transfer failed.
    Block(BlockTransferError),
    /// The path is refused.
    Path,
    /// A fragmented upload cannot keep its conditions; nothing was sent.
    ConditionalUploadUnsupported,
    /// A fragmented upload cannot keep No-Response; nothing was sent.
    NoResponseUploadUnsupported,
    /// An Observe registration needs its response.
    NoResponseObserveUnsupported,
    /// No subscription matches the cancellation.
    ObserveCancellationMismatch,
    /// Several subscriptions match the cancellation.
    ObserveCancellationAmbiguous,
    /// The Observe request is too large to be cancelled later.
    ObserveRequestTooLarge,
    /// A windowed upload needs a Request-Tag.
    RequestTagRequired,
    /// Another live request at this peer has this Request-Tag.
    RequestTagInUse,
}

/// What a transport error says.
pub open spec fn io_message<E>(e: DatagramIoError<E>) -> Seq<char> {
    match e {
        DatagramIoError::Saturated => "no free datagram slot"@,
        DatagramIoError::Slot(s) => s.message(),
        DatagramIoError::NoEndpoint => "outgoing slot has no endpoint"@,
        DatagramIoError::ShortSend => "datagram was sent only in part"@,
        DatagramIoError::Transport(_) => "datagram transport failed"@,
    }
}

/// What a transport error says.
pub fn io_text<E>(e: &DatagramIoError<E>) -> (s: &'static str)
    ensures
        s@ == io_message(*e),
{
    match e {
        DatagramIoError::Saturated => "no free datagram slot",
        DatagramIoError::Slot(s) => s.text(),
        DatagramIoError::NoEndpoint => "outgoing slot has no endpoint",
        DatagramIoError::ShortSend => "datagram was sent only in part",
        DatagramIoError::Transport(_) => "datagram transport failed",
    }
}

impl<E> Error<E> {
    /// What the error says.
    pub open spec fn message(self) -> Seq<char> {
        match self {
            Error::Identity(e) => e.message(),
            Error::Response(e) => e.message(),
            Error::DeadlineElapsed => "call deadline already elapsed"@,
            Error::Io(e) => io_message(e),
            Error::Slot(e) => e.message(),
            Error::Message(e) => e.message(),
            Error::Saturated => "a bounded table is saturated"@,
            Error::Block(e) => e.message(),
            Error::Path => "uri-path has too many segments"@,
            Error::ConditionalUploadUnsupported =>
                "conditional fragmented uploads are unsupported"@,
            Error::NoResponseUploadUnsupported => "No-Response fragmented uploads are unsupported"@,
            Error::NoResponseObserveUnsupported =>
                "No-Response Observe registration is unsupported"@,
            Error::ObserveCancellationMismatch =>
                "Observe cancellation does not match a live request"@,
            Error::ObserveCancellationAmbiguous => "Observe cancellation requires an explicit Call"@,
            Error::ObserveRequestTooLarge => "Observe request identity exceeds 512 bytes"@,
            Error::RequestTagRequired => "Q-Block1 requires a Request-Tag"@,
            Error::RequestTagInUse => "Request-Tag already in use at this peer"@,
        }
    }

    /// What the error says.
    pub fn text(&self) -> (s: String)
        ensures
            s@ == self.message(),
    {
        match self {
            Error::Identity(e) => String::from_str(e.text()),
            Error::Response(e) => String::from_str(e.text()),
            Error::DeadlineElapsed => String::from_str("call deadline already elapsed"),
            Error::Io(e) => String::from_str(io_text(e)),
            Error::Slot(e) => String::from_str(e.text()),
            Error::Message(e) => e.text(),
            Error::Saturated => String::from_str("a bounded table is saturated"),
            Error::Block(e) => e.text(),
            Error::Path => String::from_str("uri-path has too many segments"),
            Error::ConditionalUploadUnsupported => String::from_str(
                "conditional fragmented uploads are unsupported",
            ),
            Error::NoResponseUploadUnsupported => String::from_str(
                "No-Response fragmented uploads are unsupported",
            ),
            Error::NoResponseObserveUnsupported => String::from_str(
                "No-Response Observe registration is unsupported",
            ),
            Error::ObserveCancellationMismatch => String::from_str(
                "Observe cancellation does not match a live request",
            ),
            Error::ObserveCancellationAmbiguous => String::from_str(
                "Observe cancellation requires an explicit Call",
            ),
            Error::ObserveRequestTooLarge => String::from_str(
                "Observe request identity exceeds 512 bytes",
            ),
            Error::RequestTagRequired => String::from_str("Q-Block1 requires a Request-Tag"),
            Error::RequestTagInUse => String::from_str("Request-Tag already in use at this peer"),
        }
    }

    /// The error for a failed send.
    pub open spec fn of_io(e: DatagramIoError<E>) -> Error<E> {
        match e {
            DatagramIoError::Saturated => Error::Saturated,
            other => Error::Io(other),
        }
    }

    /// The error for a failed send.
    pub fn from_io(e: DatagramIoError<E>) -> (r: Error<E>)
        ensures
            r == Error::of_io(e),
    {
        match e {
            DatagramIoError::Saturated => Error::Saturated,
            other => Error::Io(other),
        }
    }

    /// The error for a message that did not go out.
    pub open spec fn of_tx(e: TxError<E>) -> Error<E> {
        match e {
            TxError::Saturated => Error::Saturated,
            TxError::Io(e) => Error::of_io(e),
        }
    }

    /// The error for a message that did not go out.
    pub fn from_tx(e: TxError<E>) -> (r: Error<E>)
        ensures
            r == Error::of_tx(e),
    {
        match e {
            TxError::Saturated => Error::Saturated,
            TxError::Io(e) => Error::from_io(e),
        }
    }
}

impl<E> From<DatagramIoError<E>> for Error<E> {
    fn from(e: DatagramIoError<E>) -> (r: Error<E>) {
        Error::from_io(e)
    }
}

impl<E> vstd::std_specs::convert::FromSpecImpl<DatagramIoError<E>> for Error<E> {
    open spec fn obeys_from_spec() -> bool {
        true
    }

    open spec fn from_spec(e: DatagramIoError<E>) -> Error<E> {
        Error::of_io(e)
    }
}

impl<E> From<SlotError> for Error<E> {
    fn from(e: SlotError) -> (r: Error<E>) {
        Error::Slot(e)
    }
}

impl<E> vstd::std_specs::convert::FromSpecImpl<SlotError> for Error<E> {
    open spec fn obeys_from_spec() -> bool {
        true
    }

    open spec fn from_spec(e: SlotError) -> Error<E> {
        Error::Slot(e)
    }
}

impl<E> From<SlotMessageError> for Error<E> {
    fn from(e: SlotMessageError) -> (r: Error<E>) {
        match e {
            SlotMessageError::Slot(slot) => Error::Slot(slot),
            other => Error::Message(other),
        }
    }
}

impl<E> vstd::std_specs::convert::FromSpecImpl<SlotMessageError> for Error<E> {
    open spec fn obeys_from_spec() -> bool {
        true
    }

    open spec fn from_spec(e: SlotMessageError) -> Error<E> {
        match e {
            SlotMessageError::Slot(slot) => Error::Slot(slot),
            other => Error::Message(other),
        }
    }
}

} // verus!
