//! Messages, options and values on the wire.
use coaptic::error::{EncodeError, OptionsFull, ParseError, ValueError};
use coaptic::message::{
    decode, encode, encode_uint, BlockValue, Code, ContentFormat, Echo, Message, MessageId,
    MissingBlocks, NoResponse, Opt, OptionNumber, OptionsBuilder, Precondition, ProblemDetails,
    Token, Type,
};

fn get_temp() -> Vec<u8> {
    vec![
        0x42, 0x01, 0x12, 0x34, 0xA1, 0xB2, 0xB7, b's', b'e', b'n', b's', b'o', b'r', b's', 0x04,
        b't', b'e', b'm', b'p', 0xFF, b'x',
    ]
}

#[test]
fn a_message_has_exactly_these_bytes() {
    let opts = [Opt::uri_path("sensors"), Opt::uri_path("temp")];
    let msg = Message::new(Type::Confirmable, Code::GET, MessageId::new(0x1234))
        .with_token(Token::new(&[0xA1, 0xB2]).unwrap())
        .with_options(&opts)
        .with_payload(b"x");
    let mut buf = [0u8; 64];
    let n = encode(&msg, &mut buf).unwrap();
    assert_eq!(&buf[..n], get_temp().as_slice());
}

#[test]
fn what_was_encoded_is_decoded() {
    let bytes = get_temp();
    let parsed = decode(&bytes).unwrap();
    assert_eq!(parsed.ty(), Type::Confirmable);
    assert_eq!(parsed.code(), Code::GET);
    assert_eq!(parsed.message_id().get(), 0x1234);
    assert_eq!(parsed.token().as_bytes(), &[0xA1, 0xB2]);
    assert_eq!(parsed.uri_path(), vec![Ok("sensors"), Ok("temp")]);
    assert_eq!(parsed.payload(), b"x");
    let mut buf = [0u8; 64];
    let n = parsed.encode(&mut buf).unwrap();
    assert_eq!(&buf[..n], bytes.as_slice());
}

#[test]
fn long_values_and_numbers_take_extensions() {
    let value = [7u8; 300];
    let opts = [Opt::new(2000, &value)];
    let msg = Message::new(Type::NonConfirmable, Code::POST, MessageId::new(1)).with_options(&opts);
    let mut buf = [0u8; 400];
    let n = encode(&msg, &mut buf).unwrap();
    assert_eq!(&buf[..9], &[0x50, 0x02, 0, 1, 0xEE, 0x06, 0xC3, 0x00, 0x1F]);
    assert_eq!(n, 309);
    let parsed = decode(&buf[..n]).unwrap();
    assert_eq!(parsed.get_option(2000).map(|o| o.value()), Some(&value[..]));
}

#[test]
fn every_parse_error_has_an_input() {
    assert_eq!(decode(&[0x40, 1, 0]).err(), Some(ParseError::TruncatedHeader));
    assert_eq!(decode(&[0x80, 1, 0, 0]).err(), Some(ParseError::UnsupportedVersion));
    assert_eq!(decode(&[0x49, 1, 0, 0]).err(), Some(ParseError::BadTokenLength));
    assert_eq!(decode(&[0x42, 1, 0, 0, 9]).err(), Some(ParseError::TruncatedToken));
    assert_eq!(decode(&[0x40, 1, 0, 0, 0xB4, b'a']).err(), Some(ParseError::TruncatedOption));
    assert_eq!(decode(&[0x40, 1, 0, 0, 0xF0]).err(), Some(ParseError::ReservedOptionDelta));
    assert_eq!(decode(&[0x40, 1, 0, 0, 0x0F]).err(), Some(ParseError::ReservedOptionLength));
    let overflow = [0x40, 1, 0, 0, 0xE0, 0xFE, 0xF2, 0xE0, 0x00, 0x00];
    assert_eq!(decode(&overflow).err(), Some(ParseError::OptionNumberOverflow));
    assert_eq!(decode(&[0x40, 0, 0, 0, 1]).err(), Some(ParseError::EmptyMessageNotEmpty));
    assert_eq!(
        decode(&[0x40, 1, 0, 0, 0xFF]).err(),
        Some(ParseError::PayloadMarkerWithoutPayload)
    );
    let bytes = [0x40, 1, 0, 0, 0x90];
    let parsed = decode(&bytes).unwrap();
    assert_eq!(parsed.check_rfc7252_options(), Err(ParseError::UnrecognizedCritical(9)));
}

#[test]
fn every_encode_error_has_an_input() {
    let mut buf = [0u8; 64];
    let msg = Message::new(Type::Confirmable, Code::GET, MessageId::new(1));
    assert_eq!(encode(&msg, &mut buf[..3]), Err(EncodeError::BufferTooSmall));
    let msg = Message::new(Type::Confirmable, Code::EMPTY, MessageId::new(1)).with_payload(b"x");
    assert_eq!(encode(&msg, &mut buf), Err(EncodeError::EmptyMessageNotEmpty));
    let opts = [Opt::uri_path("b"), Opt::etag(b"a")];
    let msg = Message::new(Type::Confirmable, Code::GET, MessageId::new(1)).with_options(&opts);
    assert_eq!(encode(&msg, &mut buf), Err(EncodeError::OptionsNotAscending));
    let long = vec![0u8; 66000];
    let opts = [Opt::new(OptionNumber::ETAG, &long)];
    let msg = Message::new(Type::Confirmable, Code::GET, MessageId::new(1)).with_options(&opts);
    assert_eq!(encode(&msg, &mut buf), Err(EncodeError::OptionValueTooLong));
    let mut opts = OptionsBuilder::<1>::new();
    assert_eq!(opts.push(Opt::uri_path("a")), Ok(()));
    assert_eq!(opts.push(Opt::uri_path("b")), Err(OptionsFull));
}

#[test]
fn options_are_kept_in_order() {
    let mut opts = OptionsBuilder::<4>::new();
    opts.push(Opt::uri_query("q")).unwrap();
    opts.push(Opt::uri_path("b")).unwrap();
    opts.push(Opt::uri_path("a")).unwrap();
    let numbers: Vec<u16> = opts.as_slice().iter().map(|o| o.number()).collect();
    assert_eq!(numbers, vec![11, 11, 15]);
    assert_eq!(opts.as_slice()[0].value(), b"b");
    assert_eq!(opts.as_slice()[1].value(), b"a");
}

#[test]
fn text_options_must_be_text() {
    let opts = [Opt::new(OptionNumber::URI_PATH, &[0xC3, 0x28]), Opt::uri_path("\u{e9}")];
    let msg = Message::new(Type::Confirmable, Code::GET, MessageId::new(1)).with_options(&opts);
    let mut buf = [0u8; 64];
    let n = encode(&msg, &mut buf).unwrap();
    let parsed = decode(&buf[..n]).unwrap();
    assert_eq!(parsed.uri_path(), vec![Err(ValueError::InvalidUtf8), Ok("\u{e9}")]);
}

#[test]
fn numbers_take_as_few_octets_as_possible() {
    assert_eq!(encode_uint(0).as_slice(), &[] as &[u8]);
    assert_eq!(encode_uint(255).as_slice(), &[255]);
    assert_eq!(encode_uint(256).as_slice(), &[1, 0]);
    assert_eq!(encode_uint(0x01020304).as_slice(), &[1, 2, 3, 4]);
    assert_eq!(ContentFormat::JSON.encode().as_slice(), &[50]);
    assert_eq!(NoResponse::new(26).encode().as_slice(), &[26]);
}

#[test]
fn block_descriptors_pack_number_flag_and_size() {
    let block = BlockValue::new(5, true, 2).unwrap();
    assert_eq!(block.encode().as_slice(), &[0x5A]);
    assert_eq!(block.size(), 64);
    assert_eq!(BlockValue::new(0x100000, false, 0), Err(ValueError::BlockNumOverflow));
    assert_eq!(BlockValue::new(0, false, 8), Err(ValueError::IllegalSzx));
    assert_eq!(BlockValue::from_size(1, false, 1024).unwrap().szx(), 6);
    let opts = [Opt::new(OptionNumber::BLOCK2, &[1, 0, 0, 0])];
    let msg = Message::new(Type::Confirmable, Code::GET, MessageId::new(1)).with_options(&opts);
    let mut buf = [0u8; 64];
    let n = encode(&msg, &mut buf).unwrap();
    assert_eq!(decode(&buf[..n]).unwrap().block2(), Some(Err(ValueError::BlockNumOverflow)));
}

#[test]
fn echo_values_carry_their_time() {
    let echo = Echo::mint(1000, &[9; 4]).unwrap();
    assert_eq!(echo.as_slice(), &[0, 0, 0, 0, 0, 0, 3, 0xE8, 9, 9, 9, 9]);
    assert_eq!(echo.issued_at(), Some(1000));
    assert!(echo.is_time_fresh(1004, 5));
    assert!(!echo.is_time_fresh(1005, 5));
    assert!(!echo.is_time_fresh(999, 5));
    assert_eq!(Echo::new(&[]), Err(ValueError::EchoLength));
    assert_eq!(Echo::new(&[0; 41]), Err(ValueError::EchoLength));
}

#[test]
fn missing_blocks_and_problems_are_read_back() {
    let wire = MissingBlocks::encode(&[1, 24, 1000]);
    assert_eq!(wire, vec![0x01, 0x18, 0x18, 0x19, 0x03, 0xE8]);
    let mut out = [0u32; 4];
    assert_eq!(MissingBlocks::decode(&wire, &mut out).unwrap(), 3);
    assert_eq!(&out[..3], &[1, 24, 1000]);
    let wire = ProblemDetails::new(Code::NOT_FOUND).title("Not Found").encode();
    let back = ProblemDetails::decode(&wire).unwrap();
    assert_eq!(back.response_code(), Some(Code::NOT_FOUND));
    assert_eq!(back.title_text(), Some("Not Found"));
    assert_eq!(back.detail_text(), None);
}

#[test]
fn conditions_are_judged_against_the_current_state() {
    let opts = [Opt::if_match(b"v1"), Opt::uri_path("a")];
    let msg = Message::new(Type::Confirmable, Code::PUT, MessageId::new(1)).with_options(&opts);
    let mut buf = [0u8; 64];
    let n = encode(&msg, &mut buf).unwrap();
    let parsed = decode(&buf[..n]).unwrap();
    assert_eq!(parsed.precondition(true, Some(b"v1")), Precondition::Met);
    assert_eq!(parsed.precondition(true, Some(b"v2")), Precondition::Failed);
    assert_eq!(parsed.precondition(false, None), Precondition::Failed);
    let opts = [Opt::if_none_match()];
    let msg = Message::new(Type::Confirmable, Code::PUT, MessageId::new(1)).with_options(&opts);
    let n = encode(&msg, &mut buf).unwrap();
    let parsed = decode(&buf[..n]).unwrap();
    assert_eq!(parsed.precondition(false, None), Precondition::Met);
    assert_eq!(parsed.precondition(true, None), Precondition::Failed);
}
