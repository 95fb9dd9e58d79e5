//! What errors say, and inputs that give them.
use coaptic::app::{split_path, IdentityError, IntoPath, PathError, Resource, MAX_PATH_SEGMENTS};
use coaptic::error::{
    BlockTransferError, EncodeError, OptionsFull, ParseError, SlotError, SlotMessageError,
    ValueError,
};
use coaptic::message::{
    decode, encode, BlockValue, ContentFormat, Echo, Message, MessageId, MissingBlocks,
    NoResponse, Opt, Token, Type,
};
use coaptic::storage::{BodyTag, DatagramIoError, Endpoint};
use coaptic::{BuildError, CallFailure, Code, Error, Method, Request, Response, ResponseError};

#[test]
fn build_errors_say_what_is_wrong() {
    let texts = [
        (BuildError::SizeMismatch, "storage sizes do not match the builder"),
        (BuildError::BodyBytesNotMultipleOf1024, "body slot bytes must be a multiple of 1024"),
        (BuildError::UnexpectedBodyPools, "body pools are present but block-wise is disabled"),
        (BuildError::MissingBodyPools, "block-wise is enabled but storage has no body pools"),
        (BuildError::ZeroBodyCapacity, "enabled body capacity must not be zero slots or zero bytes"),
        (BuildError::IncompleteBodyCapacities, "body capacity fields must be all set or all absent"),
    ];
    for (e, text) in texts {
        assert_eq!(e.text(), text);
    }
}

#[test]
fn message_errors_say_what_is_wrong() {
    assert_eq!(ParseError::TruncatedHeader.text(), "truncated CoAP header");
    assert_eq!(ParseError::UnrecognizedCritical(65001).text(), "unrecognized critical option 65001");
    assert_eq!(EncodeError::BufferTooSmall.text(), "encode buffer is too small");
    assert_eq!(OptionsFull.text(), "options builder is full");
    assert_eq!(ValueError::IllegalSzx.text(), "block SZX is not 0..=6 or BERT 7");
    assert_eq!(SlotError::NotOccupied.text(), "slot is not occupied");
    assert_eq!(
        SlotMessageError::Slot(SlotError::OutOfRange).text(),
        "slot identifier is out of range"
    );
    assert_eq!(SlotMessageError::Parse(ParseError::TruncatedToken).text(), "truncated token");
    assert_eq!(
        SlotMessageError::Encode(EncodeError::OptionsFull).text(),
        "options builder is full"
    );
    assert_eq!(
        BlockTransferError::Slot(SlotError::LengthExceedsSlot).text(),
        "length exceeds the slot"
    );
    assert_eq!(BlockTransferError::NoTransfer.text(), "body slot has no block transfer");
    assert_eq!(
        BlockTransferError::MissingBlock.text(),
        "Block1, Block2, Q-Block1, or Q-Block2 option is missing"
    );
    assert_eq!(
        BlockTransferError::Parse(ParseError::TruncatedOption).text(),
        "truncated option"
    );
    assert_eq!(
        BlockTransferError::Encode(EncodeError::OptionValueTooLong).text(),
        "option value is too long"
    );
}

#[test]
fn app_errors_say_what_is_wrong() {
    let text = |e: Error<()>| e.text();
    assert_eq!(text(Error::Saturated), "a bounded table is saturated");
    assert_eq!(text(Error::Slot(SlotError::NotOccupied)), "slot is not occupied");
    assert_eq!(text(Error::Io(DatagramIoError::ShortSend)), "datagram was sent only in part");
    assert_eq!(text(Error::Io(DatagramIoError::NoEndpoint)), "outgoing slot has no endpoint");
    assert_eq!(text(Error::Io(DatagramIoError::Transport(()))), "datagram transport failed");
    assert_eq!(text(Error::Path), "uri-path has too many segments");
    assert_eq!(text(Error::Identity(IdentityError::TokenExhausted)), "fresh Token unavailable");
    assert_eq!(
        text(Error::Response(ResponseError::EtagLength)),
        ResponseError::EtagLength.text()
    );
    assert_eq!(CallFailure::TimedOut.text(), "request timed out");
    assert_eq!(
        CallFailure::BlockTransfer(BlockTransferError::Gap).text(),
        "response block transfer failed: block NUM skips the next expected block"
    );
}

#[test]
fn errors_of_a_layer_below_are_kept() {
    let full: Error<()> = Error::from(DatagramIoError::Saturated);
    assert!(matches!(full, Error::Saturated));
    let io: Error<()> = Error::from(DatagramIoError::ShortSend);
    assert!(matches!(io, Error::Io(DatagramIoError::ShortSend)));
    let slot: Error<()> = Error::from(SlotError::OutOfRange);
    assert!(matches!(slot, Error::Slot(SlotError::OutOfRange)));
    let message: Error<()> = Error::from(SlotMessageError::Encode(EncodeError::OptionsFull));
    assert!(matches!(
        message,
        Error::Message(SlotMessageError::Encode(EncodeError::OptionsFull))
    ));
}

#[test]
fn every_value_error_has_an_input() {
    assert_eq!(ContentFormat::decode(&[1, 0, 0]).err(), Some(ValueError::UintOverflow));
    assert_eq!(BlockValue::new(0, false, 8).err(), Some(ValueError::IllegalSzx));
    assert_eq!(BlockValue::new(1 << 20, false, 0).err(), Some(ValueError::BlockNumOverflow));
    assert_eq!(BodyTag::new(&[0; 9]).err(), Some(ValueError::OpaqueLength));
    assert_eq!(Echo::new(&[]).err(), Some(ValueError::EchoLength));
    assert_eq!(Echo::new(&[0; 41]).err(), Some(ValueError::EchoLength));
}

#[test]
fn critical_options_are_checked_on_demand() {
    let options = [Opt::new(11, b"a"), Opt::new(2048, b"x"), Opt::new(2049, b"y")];
    let m = Message::new(Type::Confirmable, Code::GET, MessageId::new(1)).with_options(&options);
    let mut buf = [0u8; 32];
    let n = encode(&m, &mut buf).unwrap();
    let parsed = decode(&buf[..n]).unwrap();
    assert_eq!(parsed.check_rfc7252_options(), Err(ParseError::UnrecognizedCritical(2049)));
    assert_eq!(
        ParseError::BadOptionFormat(12).text(),
        "RFC 7252 option 12 has the wrong format"
    );
}

#[test]
fn every_path_error_has_an_input() {
    let mut out = [""; 2];
    assert_eq!(split_path("/a/b", &mut out), Ok(2));
    assert_eq!(out, ["a", "b"]);
    assert_eq!(split_path("a//b", &mut out), Err(PathError::EmptySegment));
    assert_eq!(split_path("a/b/c", &mut out), Err(PathError::TooLong));
    assert_eq!(out, ["a", "b"]);
    let mut out = [""; 2];
    assert_eq!((&["c", ""]).fill_path(&mut out), Err(PathError::EmptySegment));
    assert_eq!(out, ["c", ""]);
    assert_eq!((&["d", "e", "f"]).fill_path(&mut out), Err(PathError::TooLong));
    assert_eq!(out, ["c", ""]);
    assert_eq!("g/h".fill_path(&mut out), Ok(2));
    assert_eq!(out, ["g", "h"]);
    let mut out = [""; MAX_PATH_SEGMENTS];
    assert_eq!(
        (&["a"; MAX_PATH_SEGMENTS + 1]).fill_path(&mut out),
        Err(PathError::TooLong)
    );
    let options = [Opt::new(11, &[0xff])];
    let m = Message::new(Type::Confirmable, Code::GET, MessageId::new(1)).with_options(&options);
    let mut buf = [0u8; 32];
    let n = encode(&m, &mut buf).unwrap();
    let parsed = decode(&buf[..n]).unwrap();
    let r = Request::from_decoded(parsed, Endpoint::v4([0, 0, 0, 0], 1), None);
    assert_eq!(r.err(), Some(PathError::BadUtf8));
}

struct Led {
    on: bool,
}

impl Resource for Led {
    fn get(&mut self, _: &Request<'_>) -> Response<'static> {
        Response::content(if self.on { b"on" } else { b"off" })
    }

    fn put(&mut self, req: &Request<'_>) -> Response<'static> {
        self.on = req.payload() == b"1";
        Response::changed()
    }
}

#[test]
fn a_resource_allows_only_the_methods_it_has() {
    let m = Message::new(Type::Confirmable, Code::PUT, MessageId::new(1)).with_payload(b"1");
    let mut buf = [0u8; 32];
    let n = encode(&m, &mut buf).unwrap();
    let parsed = decode(&buf[..n]).unwrap();
    let req = Request::from_decoded(parsed, Endpoint::v4([0, 0, 0, 0], 1), None).unwrap();
    let mut led = Led { on: false };
    assert_eq!(led.put(&req).code(), Code::CHANGED);
    assert!(led.on);
    assert_eq!(led.get(&req).code(), Code::CONTENT);
    for code in [
        led.post(&req).code(),
        led.delete(&req).code(),
        led.fetch(&req).code(),
        led.patch(&req).code(),
        led.ipatch(&req).code(),
    ] {
        assert_eq!(code, Code::METHOD_NOT_ALLOWED);
    }
}

#[test]
fn methods_and_codes_name_each_other() {
    for m in [
        Method::Get,
        Method::Post,
        Method::Put,
        Method::Delete,
        Method::Fetch,
        Method::Patch,
        Method::IPatch,
    ] {
        assert_eq!(Method::from_code(m.code()), Some(m));
    }
    assert_eq!(Method::from_code(Code::CONTENT), None);
    for raw in 0..=255u8 {
        assert_eq!(Code::from_raw(raw).to_raw(), raw);
    }
}

#[test]
fn values_are_read_back() {
    for n in [0u16, 40, 50, 60, 110, 65535] {
        let f = ContentFormat::new(n);
        assert_eq!(ContentFormat::decode(f.encode().as_slice()).unwrap().get(), n);
    }
    for mask in [0u8, 2, 8, 16, 26] {
        let v = NoResponse::new(mask);
        assert_eq!(NoResponse::decode(v.encode().as_slice()).unwrap().get(), mask);
    }
    let bytes = MissingBlocks::encode(&[1, 24, 300]);
    let mut nums = [0u32; 4];
    assert_eq!(MissingBlocks::decode(&bytes, &mut nums).ok(), Some(3));
    assert_eq!(&nums[..3], [1, 24, 300]);
    let stamped = Echo::mint(123_456, b"tag").unwrap();
    assert_eq!(stamped.issued_at(), Some(123_456));
    assert_eq!(Token::new(&[0; 9]).is_none(), true);
    assert!(Endpoint::v4([10, 0, 0, 1], 1) != Endpoint::v4([10, 0, 0, 2], 1));
}
