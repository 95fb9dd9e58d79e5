//! What the numbers, octets and options of a message stand for.
use super::cbor::{head_wire, read_head};
use super::code::{Code, Type};
use super::echo::{be_octets, echo_option_of, time_fresh};
use super::fields::{
    first_value, non_base_critical_of, observes_with, precondition_of, unknown_critical_of,
    values_of, NoResponse, Precondition,
};
use super::option::OptView;
use super::params::{ObserveTransmission, OptionNumber, QBlockTransmission, Transmission};
use super::value::{block_size, uint_octets, uint_of, uint_value, BlockValue, ContentFormat};
use super::wire::{encode_fault, opts_wire, read_message, read_opt, read_tail, wire, MessageView};
use crate::error::{EncodeError, ParseError, ValueError};
use vstd::prelude::*;

verus! {

/// Does a code stand for this class and detail, on the wire and back?
pub open spec fn stands_for(code: Code, class: int, detail: int) -> bool {
    &&& code.raw() == class * 32 + detail
    &&& forall|b: u8| b == class * 32 + detail ==> #[trigger] Code::of_raw(b) == code
}

/// The octet of every named method and of the empty code is class 0 with its
/// registered detail: GET 0.01, POST 0.02, PUT 0.03, DELETE 0.04, FETCH 0.05,
/// PATCH 0.06, iPATCH 0.07.
pub proof fn law_method_octets()
    ensures
        stands_for(Code::EMPTY, 0, 0),
        stands_for(Code::GET, 0, 1),
        stands_for(Code::POST, 0, 2),
        stands_for(Code::PUT, 0, 3),
        stands_for(Code::DELETE, 0, 4),
        stands_for(Code::FETCH, 0, 5),
        stands_for(Code::PATCH, 0, 6),
        stands_for(Code::IPATCH, 0, 7),
{
}

/// The octet of every named response code is its registered class, times 32,
/// plus its registered detail.
pub proof fn law_response_octets()
    ensures
        stands_for(Code::CREATED, 2, 1),
        stands_for(Code::DELETED, 2, 2),
        stands_for(Code::VALID, 2, 3),
        stands_for(Code::CHANGED, 2, 4),
        stands_for(Code::CONTENT, 2, 5),
        stands_for(Code::CONTINUE, 2, 31),
        stands_for(Code::BAD_REQUEST, 4, 0),
        stands_for(Code::UNAUTHORIZED, 4, 1),
        stands_for(Code::BAD_OPTION, 4, 2),
        stands_for(Code::FORBIDDEN, 4, 3),
        stands_for(Code::NOT_FOUND, 4, 4),
        stands_for(Code::METHOD_NOT_ALLOWED, 4, 5),
        stands_for(Code::NOT_ACCEPTABLE, 4, 6),
        stands_for(Code::REQUEST_ENTITY_INCOMPLETE, 4, 8),
        stands_for(Code::PRECONDITION_FAILED, 4, 12),
        stands_for(Code::REQUEST_ENTITY_TOO_LARGE, 4, 13),
        stands_for(Code::UNSUPPORTED_CONTENT_FORMAT, 4, 15),
        stands_for(Code::INTERNAL_SERVER_ERROR, 5, 0),
        stands_for(Code::NOT_IMPLEMENTED, 5, 1),
        stands_for(Code::BAD_GATEWAY, 5, 2),
        stands_for(Code::SERVICE_UNAVAILABLE, 5, 3),
        stands_for(Code::GATEWAY_TIMEOUT, 5, 4),
        stands_for(Code::PROXYING_NOT_SUPPORTED, 5, 5),
{
}

/// A code is a request method exactly if its class is 0 and its detail is not,
/// and a success exactly if its class is 2. An octet without a name stays what
/// it is.
pub proof fn law_code_classes(code: Code, b: u8)
    ensures
        code.spec_is_request() <==> code.raw() / 32 == 0 && code.raw() % 32 != 0,
        code.spec_is_success() <==> code.raw() / 32 == 2,
        Code::of_raw(b).raw() == b,
        Code::Other(b).raw() == b,
{
}

/// The type field: 0 confirmable, 1 non-confirmable, 2 acknowledgement, 3 reset.
pub proof fn law_type_bits()
    ensures
        Type::Confirmable.bits() == 0 && Type::of_bits(0) == Type::Confirmable,
        Type::NonConfirmable.bits() == 1 && Type::of_bits(1) == Type::NonConfirmable,
        Type::Acknowledgement.bits() == 2 && Type::of_bits(2) == Type::Acknowledgement,
        Type::Reset.bits() == 3 && Type::of_bits(3) == Type::Reset,
{
}

/// The option numbers that this library names.
pub open spec fn named_numbers() -> Seq<u16> {
    seq![
        OptionNumber::IF_MATCH,
        OptionNumber::URI_HOST,
        OptionNumber::ETAG,
        OptionNumber::IF_NONE_MATCH,
        OptionNumber::OBSERVE,
        OptionNumber::URI_PORT,
        OptionNumber::LOCATION_PATH,
        OptionNumber::OSCORE,
        OptionNumber::URI_PATH,
        OptionNumber::CONTENT_FORMAT,
        OptionNumber::MAX_AGE,
        OptionNumber::URI_QUERY,
        OptionNumber::HOP_LIMIT,
        OptionNumber::ACCEPT,
        OptionNumber::Q_BLOCK1,
        OptionNumber::LOCATION_QUERY,
        OptionNumber::BLOCK2,
        OptionNumber::BLOCK1,
        OptionNumber::SIZE2,
        OptionNumber::Q_BLOCK2,
        OptionNumber::PROXY_URI,
        OptionNumber::PROXY_SCHEME,
        OptionNumber::SIZE1,
        OptionNumber::ECHO,
        OptionNumber::NO_RESPONSE,
        OptionNumber::REQUEST_TAG,
    ]
}

/// The option numbers that this library names, as registered.
pub open spec fn registered_numbers() -> Seq<int> {
    seq![
        1,
        3,
        4,
        5,
        6,
        7,
        8,
        9,
        11,
        12,
        14,
        15,
        16,
        17,
        19,
        20,
        23,
        27,
        28,
        31,
        35,
        39,
        60,
        252,
        258,
        292,
    ]
}

/// Every named option number is the registered one.
pub proof fn law_option_numbers(i: int)
    requires
        0 <= i < 26,
    ensures
        named_numbers().len() == 26,
        registered_numbers().len() == 26,
        named_numbers()[i] == registered_numbers()[i],
{
}

/// An option number is known exactly if it is one of the named ones, and critical
/// exactly if it is odd.
pub proof fn law_known_numbers(n: u16)
    ensures
        OptionNumber::known(n) <==> named_numbers().contains(n),
        OptionNumber::critical(n) <==> n % 2 == 1,
{
    let s = named_numbers();
    assert(s[0] == 1 && s[1] == 3 && s[2] == 4 && s[3] == 5 && s[4] == 6 && s[5] == 7 && s[6] == 8
        && s[7] == 9 && s[8] == 11 && s[9] == 12 && s[10] == 14 && s[11] == 15 && s[12] == 16
        && s[13] == 17 && s[14] == 19 && s[15] == 20 && s[16] == 23 && s[17] == 27 && s[18] == 28
        && s[19] == 31 && s[20] == 35 && s[21] == 39 && s[22] == 60 && s[23] == 252 && s[24] == 258
        && s[25] == 292);
    if s.contains(n) {
        let i = choose|i: int| 0 <= i < s.len() && s[i] == n;
        assert(0 <= i < 26 && s[i] == n);
    }
}

/// A request none of whose options has an odd number outside the named ones has no
/// unknown critical option; one that has such an option is reported with the
/// first of them.
pub proof fn law_unknown_critical(opts: Seq<OptView>)
    ensures
        (forall|i: int|
            0 <= i < opts.len() ==> named_numbers().contains((#[trigger] opts[i]).number)
                || opts[i].number % 2 == 0) ==> unknown_critical_of(opts).is_none(),
        forall|i: int|
            0 <= i < opts.len() && (#[trigger] opts[i]).number % 2 == 1
                && !named_numbers().contains(opts[i].number) && (forall|j: int|
                0 <= j < i ==> named_numbers().contains((#[trigger] opts[j]).number)
                    || opts[j].number % 2 == 0) ==> unknown_critical_of(opts) == Some(
                opts[i].number,
            ),
    decreases opts.len(),
{
    if opts.len() > 0 {
        let front = opts.drop_last();
        law_unknown_critical(front);
        law_known_numbers(opts.last().number);
        assert forall|i: int| 0 <= i < front.len() implies #[trigger] front[i] == opts[i] by {}
        assert forall|i: int|
            0 <= i < opts.len() && (#[trigger] opts[i]).number % 2 == 1
                && !named_numbers().contains(opts[i].number) && (forall|j: int|
                0 <= j < i ==> named_numbers().contains((#[trigger] opts[j]).number)
                    || opts[j].number % 2 == 0) implies unknown_critical_of(opts) == Some(
            opts[i].number,
        ) by {
            if i < front.len() {
                assert(front[i] == opts[i]);
                assert forall|j: int| 0 <= j < i implies named_numbers().contains(
                    (#[trigger] front[j]).number,
                ) || front[j].number % 2 == 0 by {
                    assert(front[j] == opts[j]);
                }
            } else {
                assert forall|j: int| 0 <= j < front.len() implies named_numbers().contains(
                    (#[trigger] front[j]).number,
                ) || front[j].number % 2 == 0 by {
                    assert(front[j] == opts[j]);
                }
            }
        }
    }
}

/// The critical options of the base protocol are If-Match, Uri-Host, If-None-Match,
/// Uri-Port, Uri-Path, Uri-Query, Accept, Proxy-Uri and Proxy-Scheme: a list whose
/// odd numbers are among these has no critical option outside it, and one with
/// another odd number has.
pub proof fn law_base_critical(opts: Seq<OptView>)
    ensures
        non_base_critical_of(opts).is_none() <==> forall|i: int|
            0 <= i < opts.len() && (#[trigger] opts[i]).number % 2 == 1 ==> {
                ||| opts[i].number == OptionNumber::IF_MATCH
                ||| opts[i].number == OptionNumber::URI_HOST
                ||| opts[i].number == OptionNumber::IF_NONE_MATCH
                ||| opts[i].number == OptionNumber::URI_PORT
                ||| opts[i].number == OptionNumber::URI_PATH
                ||| opts[i].number == OptionNumber::URI_QUERY
                ||| opts[i].number == OptionNumber::ACCEPT
                ||| opts[i].number == OptionNumber::PROXY_URI
                ||| opts[i].number == OptionNumber::PROXY_SCHEME
            },
    decreases opts.len(),
{
    if opts.len() > 0 {
        let front = opts.drop_last();
        law_base_critical(front);
        assert forall|i: int| 0 <= i < front.len() implies #[trigger] front[i] == opts[i] by {}
        assert forall|i: int| 0 <= i < opts.len() implies #[trigger] opts[i] == if i < front.len() {
            front[i]
        } else {
            opts.last()
        } by {}
        let last = opts[opts.len() - 1];
    }
}

/// The values of an option are those of the options with its number, each one and
/// no other, in the order of the list.
pub proof fn law_option_values(opts: Seq<OptView>, number: u16)
    ensures
        values_of(opts, number) == opts.filter(|o: OptView| o.number == number).map_values(
            |o: OptView| o.value,
        ),
    decreases opts.len(),
{
    reveal(Seq::filter);
    let same = |o: OptView| o.number == number;
    let value = |o: OptView| o.value;
    if opts.len() > 0 {
        law_option_values(opts.drop_last(), number);
    }
    assert(opts.filter(same).map_values(value) =~= values_of(opts, number));
}

/// The first value of an option is that of the first option with its number, if
/// there is one.
pub proof fn law_first_value(opts: Seq<OptView>, number: u16)
    ensures
        first_value(opts, number).is_some() <==> present(opts, number),
        forall|i: int|
            0 <= i < opts.len() && (#[trigger] opts[i]).number == number && !present(
                opts.take(i),
                number,
            ) ==> first_value(opts, number) == Some(opts[i].value),
    decreases opts.len(),
{
    lemma_values_present(opts, number);
    assert forall|i: int|
        0 <= i < opts.len() && (#[trigger] opts[i]).number == number && !present(
            opts.take(i),
            number,
        ) implies first_value(opts, number) == Some(opts[i].value) by {
        lemma_first_at(opts, number, i);
    }
}

proof fn lemma_first_at(opts: Seq<OptView>, number: u16, i: int)
    requires
        0 <= i < opts.len(),
        opts[i].number == number,
        !present(opts.take(i), number),
    ensures
        first_value(opts, number) == Some(opts[i].value),
    decreases opts.len(),
{
    let front = opts.drop_last();
    if i < front.len() {
        assert(front.take(i) =~= opts.take(i));
        lemma_first_at(front, number, i);
        assert(values_of(opts, number)[0] == values_of(front, number)[0]);
    } else {
        assert(front =~= opts.take(i));
        lemma_values_present(front, number);
        assert(values_of(front, number).len() == 0);
    }
}

/// Is there an option with this number?
pub open spec fn present(opts: Seq<OptView>, number: u16) -> bool {
    exists|i: int| 0 <= i < opts.len() && (#[trigger] opts[i]).number == number
}

proof fn lemma_values_present(opts: Seq<OptView>, number: u16)
    ensures
        values_of(opts, number).len() > 0 <==> present(opts, number),
        forall|i: int|
            0 <= i < opts.len() && (#[trigger] opts[i]).number == number ==> values_of(
                opts,
                number,
            ).contains(opts[i].value),
        forall|k: int|
            0 <= k < values_of(opts, number).len() ==> exists|i: int|
                0 <= i < opts.len() && (#[trigger] opts[i]).number == number && opts[i].value == (
                #[trigger] values_of(opts, number)[k]),
    decreases opts.len(),
{
    if opts.len() > 0 {
        let front = opts.drop_last();
        lemma_values_present(front, number);
        let all = values_of(opts, number);
        let before = values_of(front, number);
        assert forall|i: int| 0 <= i < front.len() implies #[trigger] front[i] == opts[i] by {}
        assert(opts[opts.len() - 1] == opts.last());
        assert forall|i: int|
            0 <= i < opts.len() && (#[trigger] opts[i]).number == number implies all.contains(
            opts[i].value,
        ) by {
            if i < front.len() {
                assert(before.contains(front[i].value));
                let k = choose|k: int| 0 <= k < before.len() && before[k] == front[i].value;
                assert(all[k] == opts[i].value);
            } else {
                assert(all[all.len() - 1] == opts[i].value);
            }
        }
        assert forall|k: int| 0 <= k < all.len() implies exists|i: int|
            0 <= i < opts.len() && (#[trigger] opts[i]).number == number && opts[i].value == (
            #[trigger] all[k]) by {
            if k < before.len() {
                assert(all[k] == before[k]);
                let i = choose|i: int|
                    0 <= i < front.len() && (#[trigger] front[i]).number == number
                        && front[i].value == before[k];
                assert(opts[i].number == number && opts[i].value == all[k]);
            } else {
                assert(opts[opts.len() - 1].value == all[k]);
            }
        }
        if all.len() > 0 {
            let i = choose|i: int|
                0 <= i < opts.len() && (#[trigger] opts[i]).number == number && opts[i].value
                    == all[0];
            assert(present(opts, number));
        }
        if present(opts, number) {
            let i = choose|i: int| 0 <= i < opts.len() && (#[trigger] opts[i]).number == number;
            assert(all.contains(opts[i].value));
        }
    }
}

/// Are two octet strings equal octet for octet?
pub open spec fn same_octets(a: Seq<u8>, b: Seq<u8>) -> bool {
    a.len() == b.len() && forall|i: int| 0 <= i < a.len() ==> #[trigger] a[i] == b[i]
}

/// The conditional options. If-None-Match fails on a resource that exists. If-Match
/// fails on one that does not exist, and on one that exists unless one of its
/// values is empty or equals the ETag octet for octet. In particular, with If-Match
/// values that are all non-empty the condition is met only if one of them equals
/// the ETag. Without either option the condition is met.
pub proof fn law_precondition(opts: Seq<OptView>, exists_now: bool, etag: Option<Seq<u8>>)
    ensures
        !present(opts, 1) && !present(opts, 5) ==> precondition_of(opts, exists_now, etag)
            == Precondition::Met,
        exists_now && present(opts, 5) ==> precondition_of(opts, exists_now, etag)
            == Precondition::Failed,
        !exists_now && present(opts, 1) ==> precondition_of(opts, exists_now, etag)
            == Precondition::Failed,
        !exists_now && !present(opts, 1) ==> precondition_of(opts, exists_now, etag)
            == Precondition::Met,
        exists_now && present(opts, 1) && precondition_of(opts, exists_now, etag)
            == Precondition::Met ==> exists|i: int|
            0 <= i < opts.len() && (#[trigger] opts[i]).number == 1 && (opts[i].value.len() == 0
                || (etag matches Some(e) && same_octets(e, opts[i].value))),
        exists_now && !present(opts, 5) && (exists|i: int|
            0 <= i < opts.len() && (#[trigger] opts[i]).number == 1 && (opts[i].value.len() == 0
                || (etag matches Some(e) && same_octets(e, opts[i].value)))) ==> precondition_of(
            opts,
            exists_now,
            etag,
        ) == Precondition::Met,
        exists_now && present(opts, 1) && (forall|i: int|
            0 <= i < opts.len() && (#[trigger] opts[i]).number == 1 ==> opts[i].value.len() > 0)
            && precondition_of(opts, exists_now, etag) == Precondition::Met ==> etag.is_some()
            && exists|i: int|
            0 <= i < opts.len() && (#[trigger] opts[i]).number == 1 && same_octets(
                etag->0,
                opts[i].value,
            ),
{
    lemma_values_present(opts, 1);
    lemma_values_present(opts, 5);
    let wanted = values_of(opts, 1);
    if exists|i: int|
        0 <= i < opts.len() && (#[trigger] opts[i]).number == 1 && (opts[i].value.len() == 0 || (
        etag matches Some(e) && same_octets(e, opts[i].value))) {
        let i = choose|i: int|
            0 <= i < opts.len() && (#[trigger] opts[i]).number == 1 && (opts[i].value.len() == 0
                || (etag matches Some(e) && same_octets(e, opts[i].value)));
        assert(wanted.contains(opts[i].value));
        let k = choose|k: int| 0 <= k < wanted.len() && wanted[k] == opts[i].value;
        if opts[i].value.len() > 0 {
            assert(etag->0 =~= wanted[k]);
        }
        assert(super::fields::any_match(wanted, etag)) by {
            assert(wanted[k].len() == 0 || etag == Some(wanted[k]));
        }
    }
    if super::fields::any_match(wanted, etag) {
        let k = choose|k: int|
            0 <= k < wanted.len() && ((#[trigger] wanted[k]).len() == 0 || etag == Some(wanted[k]));
        let i = choose|i: int|
            0 <= i < opts.len() && (#[trigger] opts[i]).number == 1 && opts[i].value == wanted[k];
        assert(opts[i].number == 1);
        if opts[i].value.len() > 0 {
            assert(same_octets(etag->0, opts[i].value));
        }
    }
}

/// A number is written most significant octet first, in as few octets as hold it,
/// zero in none; octets are read the same way.
pub proof fn law_uint_octets(n: u32, octets: Seq<u8>)
    ensures
        uint_octets(0) == Seq::<u8>::empty(),
        0 < n < 0x100 ==> uint_octets(n as nat) == seq![n as u8],
        0x100 <= n < 0x10000 ==> uint_octets(n as nat) == seq![(n / 0x100) as u8, (n % 0x100) as u8],
        0x10000 <= n < 0x1000000 ==> uint_octets(n as nat) == seq![
            (n / 0x10000) as u8,
            (n / 0x100 % 0x100) as u8,
            (n % 0x100) as u8,
        ],
        0x1000000 <= n ==> uint_octets(n as nat) == seq![
            (n / 0x1000000) as u8,
            (n / 0x10000 % 0x100) as u8,
            (n / 0x100 % 0x100) as u8,
            (n % 0x100) as u8,
        ],
        octets.len() == 0 ==> uint_value(octets) == 0,
        octets.len() == 1 ==> uint_value(octets) == octets[0],
        octets.len() == 2 ==> uint_value(octets) == octets[0] * 0x100 + octets[1],
        octets.len() == 3 ==> uint_value(octets) == octets[0] * 0x10000 + octets[1] * 0x100
            + octets[2],
        octets.len() == 4 ==> uint_value(octets) == octets[0] * 0x1000000 + octets[1] * 0x10000
            + octets[2] * 0x100 + octets[3],
{
    reveal_with_fuel(uint_octets, 6);
    reveal_with_fuel(uint_value, 6);
    let n = n as nat;
    if 0 < n {
        let a = n / 256;
        let b = a / 256;
        let c = b / 256;
        assert(b == n / 0x10000);
        assert(c == n / 0x1000000);
        assert(c / 256 == 0);
        if n < 0x100 {
            assert(uint_octets(n) =~= seq![n as u8]);
        } else if n < 0x10000 {
            assert(uint_octets(n) =~= seq![(n / 0x100) as u8, (n % 0x100) as u8]);
        } else if n < 0x1000000 {
            assert(uint_octets(n) =~= seq![
                (n / 0x10000) as u8,
                (n / 0x100 % 0x100) as u8,
                (n % 0x100) as u8,
            ]);
        } else {
            assert(uint_octets(n) =~= seq![
                (n / 0x1000000) as u8,
                (n / 0x10000 % 0x100) as u8,
                (n / 0x100 % 0x100) as u8,
                (n % 0x100) as u8,
            ]);
        }
    }
}

/// A number in an option is refused exactly if it has more octets than allowed.
pub proof fn law_uint_bound(octets: Seq<u8>, max_len: nat)
    requires
        max_len <= 4,
    ensures
        octets.len() > max_len ==> uint_of(octets, max_len) == Err::<u32, ValueError>(
            ValueError::UintOverflow,
        ),
        octets.len() <= max_len ==> (uint_of(octets, max_len) matches Ok(n) && n == uint_value(
            octets,
        )),
{
    law_uint_octets(0, octets);
}

/// A block has 16 bytes, doubled once for each step of the exponent, up to 1024 at
/// exponent 6; exponent 7 stands for blocks of 1024 bytes too.
pub proof fn law_block_sizes(szx: int)
    ensures
        block_size(0) == 16,
        0 <= szx < 6 ==> block_size(szx + 1) == 2 * block_size(szx),
        block_size(6) == 1024,
        block_size(7) == 1024,
{
}

/// A block option of up to three octets holds the number in all but the low four
/// bits, then one bit for whether more blocks follow, then three for the exponent;
/// one with more octets is refused.
pub proof fn law_block_layout(octets: Seq<u8>, b: BlockValue)
    ensures
        octets.len() > 3 ==> BlockValue::of_octets(octets) == Err::<BlockValue, ValueError>(
            ValueError::BlockNumOverflow,
        ),
        octets.len() <= 3 ==> {
            &&& BlockValue::of_octets(octets).is_ok()
            &&& BlockValue::of_octets(octets)->Ok_0.num * 16 + (if BlockValue::of_octets(
                octets,
            )->Ok_0.more {
                8int
            } else {
                0
            }) + BlockValue::of_octets(octets)->Ok_0.szx == uint_value(octets)
            &&& BlockValue::of_octets(octets)->Ok_0.szx <= 7
        },
        b.packed() == b.num * 16 + (if b.more {
            8int
        } else {
            0
        }) + b.szx,
{
    law_uint_octets(0, octets);
}

/// The registered numbers of the named content formats, both ways.
pub proof fn law_format_numbers(n: u16)
    ensures
        ContentFormat::TEXT_PLAIN.number() == 0,
        ContentFormat::LINK_FORMAT.number() == 40,
        ContentFormat::XML.number() == 41,
        ContentFormat::OCTET_STREAM.number() == 42,
        ContentFormat::JSON.number() == 50,
        ContentFormat::CBOR.number() == 60,
        ContentFormat::PROBLEM_DETAILS.number() == 257,
        ContentFormat::MISSING_BLOCKS.number() == 272,
        ContentFormat::of_number(0) == ContentFormat::TEXT_PLAIN,
        ContentFormat::of_number(40) == ContentFormat::LINK_FORMAT,
        ContentFormat::of_number(41) == ContentFormat::XML,
        ContentFormat::of_number(42) == ContentFormat::OCTET_STREAM,
        ContentFormat::of_number(50) == ContentFormat::JSON,
        ContentFormat::of_number(60) == ContentFormat::CBOR,
        ContentFormat::of_number(257) == ContentFormat::PROBLEM_DETAILS,
        ContentFormat::of_number(272) == ContentFormat::MISSING_BLOCKS,
        ContentFormat::of_number(n).number() == n,
{
}

/// No-Response: the bit of value 2 suppresses class 2, that of value 8 class 4, that
/// of value 16 class 5, and no bit anything else. An option of more than one octet
/// is refused.
pub proof fn law_no_response(wish: NoResponse, code: Code, octets: Seq<u8>)
    ensures
        wish.suppressed(code) <==> (code.raw() / 32 == 2 && wish.mask & 2 != 0) || (code.raw() / 32
            == 4 && wish.mask & 8 != 0) || (code.raw() / 32 == 5 && wish.mask & 16 != 0),
        octets.len() == 0 ==> (NoResponse::of_octets(octets) matches Ok(n) && n.mask == 0),
        octets.len() == 1 ==> (NoResponse::of_octets(octets) matches Ok(n) && n.mask == octets[0]),
        octets.len() > 1 ==> NoResponse::of_octets(octets).is_err(),
{
    let mask: u8 = wish.mask;
    assert((mask & 2 != 0) == ((mask / 2) % 2 == 1)) by (bit_vector);
    assert((mask & 8 != 0) == ((mask / 8) % 2 == 1)) by (bit_vector);
    assert((mask & 16 != 0) == ((mask / 16) % 2 == 1)) by (bit_vector);
    law_uint_octets(0, octets);
}

/// A value minted at one time is fresh from then on for less than the window, and
/// not before; a value of fewer than eight octets never is. An Echo option is taken
/// if it has 1 to 40 octets.
pub proof fn law_echo(
    at: u64,
    tag: Seq<u8>,
    short: Seq<u8>,
    now_ms: u64,
    window_ms: u64,
    opts: Seq<OptView>,
    value: Seq<u8>,
)
    ensures
        time_fresh(be_octets(at as nat, 8) + tag, now_ms, window_ms) <==> at <= now_ms < at
            + window_ms,
        short.len() < 8 ==> !time_fresh(short, now_ms, window_ms),
        !present(opts, 252) ==> echo_option_of(opts) == Ok::<Option<Seq<u8>>, ValueError>(None),
        first_value(opts, 252) == Some(value) ==> echo_option_of(opts) == (if 0 < value.len()
            <= 40 {
            Ok::<Option<Seq<u8>>, ValueError>(Some(value))
        } else {
            Err::<Option<Seq<u8>>, ValueError>(ValueError::EchoLength)
        }),
{
    super::echo::law_mint_issued(at, tag);
    law_first_value(opts, 252);
}

/// A request asks to observe or to stop only by GET or FETCH, with an Observe option
/// of at most three octets that holds 0 or 1.
pub proof fn law_observe_request(m: MessageView, v: u32)
    ensures
        observes_with(m, v) ==> m.code.raw() == 1 || m.code.raw() == 5,
        observes_with(m, v) ==> present(m.options, 6),
        (m.code == Code::GET || m.code == Code::FETCH) && (first_value(m.options, 6) matches Some(
            o,
        ) && o.len() <= 3 && uint_value(o) == v) ==> observes_with(m, v),
        (first_value(m.options, 6) matches Some(o) && o.len() <= 3 && uint_value(o) != v)
            ==> !observes_with(m, v),
        (first_value(m.options, 6) matches Some(o) && o.len() > 3) ==> !observes_with(m, v),
{
    law_first_value(m.options, 6);
    match first_value(m.options, 6) {
        Some(o) => {
            law_uint_bound(o, 3);
        },
        None => {},
    }
}

/// The times and counts of the protocol: a first timeout of 2 seconds plus the jitter,
/// which counts up to 1 second; at most 4 retransmissions; an exchange of 247
/// seconds and 145 for a message without acknowledgement; a confirmable
/// notification at least every 24 hours; notifications held 3 seconds; missing
/// blocks asked for after 4 seconds, at most 4 times.
pub proof fn law_times(jitter: u32)
    ensures
        jitter <= 1000 ==> Transmission::initial_timeout(jitter) == 2000 + jitter,
        jitter > 1000 ==> Transmission::initial_timeout(jitter) == 3000,
        Transmission::ACK_TIMEOUT_MS == 2000,
        Transmission::ACK_RANDOM_SPAN_MS == 1000,
        Transmission::MAX_RETRANSMIT == 4,
        Transmission::NSTART == 1,
        Transmission::EXCHANGE_LIFETIME_MS == 247000,
        Transmission::NON_LIFETIME_MS == 145000,
        ObserveTransmission::CONFIRM_INTERVAL_MS == 24 * 60 * 60 * 1000,
        ObserveTransmission::NOTIFY_HOLD_MS == 3000,
        QBlockTransmission::NON_RECEIVE_TIMEOUT_MS == 4000,
        QBlockTransmission::NON_MAX_RETRANSMIT == 4,
{
}

/// A head of a data item holds the major type in the upper three bits of the first
/// octet; an argument below 24 fills the lower five, a larger one follows in one,
/// two or four octets, which the lower five bits 24, 25 or 26 announce.
pub proof fn law_head_layout(major: int, arg: int)
    requires
        0 <= major <= 7,
        0 <= arg < 0x100000000,
    ensures
        head_wire(major, arg)[0] as int / 32 == major,
        arg < 24 ==> head_wire(major, arg).len() == 1 && head_wire(major, arg)[0] % 32 == arg,
        24 <= arg < 0x100 ==> head_wire(major, arg).len() == 2 && head_wire(major, arg)[0] % 32
            == 24 && head_wire(major, arg)[1] == arg,
        0x100 <= arg < 0x10000 ==> head_wire(major, arg).len() == 3 && head_wire(major, arg)[0] % 32
            == 25 && head_wire(major, arg)[1] * 0x100 + head_wire(major, arg)[2] == arg,
        0x10000 <= arg ==> head_wire(major, arg).len() == 5 && head_wire(major, arg)[0] % 32 == 26
            && head_wire(major, arg)[1] * 0x1000000 + head_wire(major, arg)[2] * 0x10000
            + head_wire(major, arg)[3] * 0x100 + head_wire(major, arg)[4] == arg,
{
    reveal(head_wire);
    if arg >= 65536 {
        assert(arg / 0x1000000 * 0x1000000 + (arg / 0x10000) % 256 * 0x10000 + (arg / 0x100) % 256
            * 0x100 + arg % 256 == arg);
    }
}

/// What is not a whole head with an argument below 2^32 is not read: nothing at all,
/// an argument that is cut off, and the lower five bits 27 to 31.
pub proof fn law_head_refused(bytes: Seq<u8>)
    ensures
        bytes.len() == 0 ==> read_head(bytes).is_none(),
        bytes.len() > 0 && bytes[0] % 32 >= 27 ==> read_head(bytes).is_none(),
        bytes.len() == 1 && bytes[0] % 32 >= 24 ==> read_head(bytes).is_none(),
        bytes.len() == 2 && bytes[0] % 32 >= 25 ==> read_head(bytes).is_none(),
        0 < bytes.len() < 5 && bytes[0] % 32 >= 26 ==> read_head(bytes).is_none(),
{
    reveal(read_head);
}

/// The list of missing blocks is one unsigned integer behind the other, and nothing
/// else.
pub proof fn law_missing_layout(a: Seq<u32>, b: Seq<u32>, n: u32)
    ensures
        super::missing::missing_wire(Seq::empty()) == Seq::<u8>::empty(),
        super::missing::missing_wire(seq![n]) == head_wire(0, n as int),
        super::missing::missing_wire(a + b) == super::missing::missing_wire(a)
            + super::missing::missing_wire(b),
    decreases b.len(),
{
    reveal_with_fuel(super::missing::missing_wire, 2);
    assert(seq![n].drop_last() =~= Seq::<u32>::empty());
    assert(Seq::<u8>::empty() + head_wire(0, n as int) =~= head_wire(0, n as int));
    if b.len() == 0 {
        assert(a + b =~= a);
        assert(super::missing::missing_wire(a) + Seq::<u8>::empty()
            =~= super::missing::missing_wire(a));
    } else {
        law_missing_layout(a, b.drop_last(), n);
        assert((a + b).drop_last() =~= a + b.drop_last());
        let w = super::missing::missing_wire(a);
        let v = super::missing::missing_wire(b.drop_last());
        let h = head_wire(0, b.last() as int);
        assert(w + v + h =~= w + (v + h));
    }
}

/// Problem details are a map: the title under key -1, the detail under -2, the
/// response code under -4.
pub proof fn law_problem_layout(title: Seq<u8>, detail: Seq<u8>, code: Code)
    ensures
        super::problem::problem_wire(
            (super::problem::ProblemView { code: None, title: None, detail: None }),
        ) == seq![0xa0u8],
        super::problem::problem_wire(
            (super::problem::ProblemView { code: None, title: Some(title), detail: None }),
        ) == seq![0xa1u8, 0x20u8] + head_wire(3, title.len() as int) + title,
        super::problem::problem_wire(
            (super::problem::ProblemView { code: None, title: None, detail: Some(detail) }),
        ) == seq![0xa1u8, 0x21u8] + head_wire(3, detail.len() as int) + detail,
        super::problem::problem_wire(
            (super::problem::ProblemView { code: Some(code), title: None, detail: None }),
        ) == seq![0xa1u8, 0x23u8] + head_wire(0, code.raw() as int),
        super::problem::problem_wire(
            (super::problem::ProblemView {
                code: Some(code),
                title: Some(title),
                detail: Some(detail),
            }),
        ) == seq![0xa3u8, 0x20u8] + head_wire(3, title.len() as int) + title + seq![0x21u8]
            + head_wire(3, detail.len() as int) + detail + seq![0x23u8] + head_wire(
            0,
            code.raw() as int,
        ),
{
    reveal(head_wire);
    let t = head_wire(3, title.len() as int);
    let d = head_wire(3, detail.len() as int);
    let c = head_wire(0, code.raw() as int);
    assert(head_wire(5, 0) =~= seq![0xa0u8]);
    assert(head_wire(5, 1) =~= seq![0xa1u8]);
    assert(head_wire(5, 3) =~= seq![0xa3u8]);
    assert(head_wire(1, 0) =~= seq![0x20u8]);
    assert(head_wire(1, 1) =~= seq![0x21u8]);
    assert(head_wire(1, 3) =~= seq![0x23u8]);
    let none = Seq::<u8>::empty();
    assert(seq![0xa0u8] + (none + (none + none)) =~= seq![0xa0u8]);
    assert(seq![0xa1u8] + ((seq![0x20u8] + (t + title)) + (none + none)) =~= seq![0xa1u8, 0x20u8]
        + t + title);
    assert(seq![0xa1u8] + (none + ((seq![0x21u8] + (d + detail)) + none)) =~= seq![0xa1u8, 0x21u8]
        + d + detail);
    assert(seq![0xa1u8] + (none + (none + (seq![0x23u8] + c))) =~= seq![0xa1u8, 0x23u8] + c);
    assert(seq![0xa3u8] + ((seq![0x20u8] + (t + title)) + ((seq![0x21u8] + (d + detail)) + (
    seq![0x23u8] + c))) =~= seq![0xa3u8, 0x20u8] + t + title + seq![0x21u8] + d + detail
        + seq![0x23u8] + c);
}

/// A datagram starts with one octet of version 1, type and token length, one of the
/// code and two of the message identifier, most significant first; the token
/// follows, then the options, then, behind the octet 0xff, the payload, if there is
/// any.
pub proof fn law_datagram_layout(m: MessageView)
    requires
        m.token.len() <= 8,
    ensures
        wire(m).len() >= 4 + m.token.len(),
        wire(m)[0] as int / 64 == 1,
        wire(m)[0] as int / 16 % 4 == (match m.ty {
            Type::Confirmable => 0int,
            Type::NonConfirmable => 1,
            Type::Acknowledgement => 2,
            Type::Reset => 3,
        }),
        wire(m)[0] as int % 16 == m.token.len(),
        wire(m)[1] == m.code.raw(),
        wire(m)[2] * 256 + wire(m)[3] == m.id,
        wire(m).subrange(4, 4 + m.token.len() as int) == m.token,
        m.payload.len() == 0 ==> wire(m).skip(4 + m.token.len() as int) == opts_wire(m.options, 0),
        m.payload.len() > 0 ==> wire(m).skip(4 + m.token.len() as int) == opts_wire(m.options, 0)
            + seq![0xffu8] + m.payload,
{
    let w = wire(m);
    let k = m.token.len() as int;
    let o = opts_wire(m.options, 0);
    let h = super::wire::header_wire(m);
    let p = super::wire::payload_wire(m.payload);
    assert(h.len() == 4);
    assert(w[0] == h[0] && w[1] == h[1] && w[2] == h[2] && w[3] == h[3]);
    assert(w.subrange(4, 4 + k) =~= m.token);
    assert(w.skip(4 + k) =~= o + p);
    assert(o + Seq::<u8>::empty() =~= o);
    if m.payload.len() > 0 {
        assert(o + (seq![0xffu8] + m.payload) =~= o + seq![0xffu8] + m.payload);
    }
}

/// Octets that follow the first one of an option for a delta or a length: none below
/// 13, one below 269, else two.
pub open spec fn follow(n: int) -> int {
    if n < 13 {
        0
    } else if n < 269 {
        1
    } else {
        2
    }
}

/// An option on the wire: four bits of the distance from the number before and four of
/// the length of the value; 13 there stands for 13 plus the octet that follows, 14
/// for 269 plus the two octets that follow; then the value, then the other options.
pub proof fn law_option_layout(opts: Seq<OptView>, prev: int)
    requires
        opts.len() > 0,
        0 <= prev <= opts[0].number,
        opts[0].value.len() <= 65804,
    ensures
        ({
            let w = opts_wire(opts, prev);
            let delta = opts[0].number - prev;
            let len = opts[0].value.len() as int;
            let l_at = 1 + follow(delta);
            let v_at = l_at + follow(len);
            &&& w.len() >= v_at + len
            &&& delta < 13 ==> w[0] as int / 16 == delta
            &&& 13 <= delta < 269 ==> w[0] as int / 16 == 13 && w[1] == delta - 13
            &&& 269 <= delta ==> w[0] as int / 16 == 14 && w[1] * 256 + w[2] == delta - 269
            &&& len < 13 ==> w[0] as int % 16 == len
            &&& 13 <= len < 269 ==> w[0] as int % 16 == 13 && w[l_at] == len - 13
            &&& 269 <= len ==> w[0] as int % 16 == 14 && w[l_at] * 256 + w[l_at + 1] == len - 269
            &&& w.subrange(v_at, v_at + len) == opts[0].value
            &&& w.skip(v_at + len) == opts_wire(opts.skip(1), opts[0].number as int)
        }),
{
    let w = opts_wire(opts, prev);
    let delta = opts[0].number - prev;
    let len = opts[0].value.len() as int;
    let one = super::wire::opt_wire(prev, opts[0]);
    let rest = opts_wire(opts.skip(1), opts[0].number as int);
    let d = super::wire::extension(delta);
    let l = super::wire::extension(len);
    let v = opts[0].value;
    let l_at = 1 + follow(delta);
    let v_at = l_at + follow(len);
    assert(d.len() == follow(delta) && l.len() == follow(len));
    assert(w == one + rest);
    assert(forall|i: int| 0 <= i < d.len() ==> w[1 + i] == #[trigger] d[i]);
    assert(forall|i: int| 0 <= i < l.len() ==> w[l_at + i] == #[trigger] l[i]);
    if delta >= 13 {
        assert(w[1] == d[0]);
    }
    if delta >= 269 {
        assert(w[1int + 1] == d[1]);
    }
    if len >= 13 {
        assert(w[l_at] == l[0]);
    }
    if len >= 269 {
        assert(w[l_at + 1] == l[1]);
    }
    assert(w.subrange(v_at, v_at + len) =~= v);
    assert(w.skip(v_at + len) =~= rest);
}

/// Why a datagram is refused before its options are read: too short for the header,
/// another version than 1, a token length above 8, an empty message that is not
/// empty, a token that is cut off, in this order. Only 4 octets with the code 0 are
/// an empty message.
pub proof fn law_header_refused(bytes: Seq<u8>)
    ensures
        read_message(bytes) == Err::<MessageView, ParseError>(ParseError::TruncatedHeader)
            <==> bytes.len() < 4,
        read_message(bytes) == Err::<MessageView, ParseError>(ParseError::UnsupportedVersion)
            <==> bytes.len() >= 4 && !(64 <= bytes[0] < 128),
        read_message(bytes) == Err::<MessageView, ParseError>(ParseError::BadTokenLength)
            <==> bytes.len() >= 4 && 64 <= bytes[0] < 128 && bytes[0] % 16 >= 9,
        read_message(bytes) == Err::<MessageView, ParseError>(ParseError::EmptyMessageNotEmpty)
            <==> bytes.len() > 4 && 64 <= bytes[0] < 128 && bytes[0] % 16 <= 8 && bytes[1] == 0,
        read_message(bytes) == Err::<MessageView, ParseError>(ParseError::TruncatedToken)
            <==> bytes.len() >= 4 && 64 <= bytes[0] < 128 && bytes[0] % 16 <= 8 && (bytes.len() == 4
            || bytes[1] != 0) && bytes.len() < 4 + bytes[0] as int % 16,
{
    if bytes.len() >= 4 && 4 + bytes[0] as int % 16 <= bytes.len() {
        lemma_tail_faults(bytes.skip(4 + bytes[0] as int % 16), 0);
    }
}

proof fn lemma_tail_faults(bytes: Seq<u8>, prev: int)
    ensures
        read_tail(bytes, prev) matches Err(e) ==> e == ParseError::PayloadMarkerWithoutPayload || e
            == ParseError::ReservedOptionDelta || e == ParseError::ReservedOptionLength || e
            == ParseError::OptionNumberOverflow || e == ParseError::TruncatedOption,
    decreases bytes.len(),
{
    reveal(read_opt);
    if bytes.len() > 0 && bytes[0] != 0xff {
        match read_opt(bytes, prev) {
            Ok(one) => {
                if 0 < one.used <= bytes.len() {
                    lemma_tail_faults(bytes.skip(one.used), one.opt.number as int);
                }
            },
            Err(_) => {},
        }
    }
}

/// Behind the token: nothing is no options and no payload; a marker needs a payload
/// behind it; 15 is no distance and, behind another distance, no length.
pub proof fn law_tail_refused(bytes: Seq<u8>, prev: int)
    requires
        0 <= prev <= 65535,
    ensures
        bytes.len() == 0 ==> (read_tail(bytes, prev) matches Ok(t) && t.options.len() == 0
            && t.payload.len() == 0),
        bytes.len() == 1 && bytes[0] == 0xff ==> (read_tail(bytes, prev) matches Err(e) && e
            == ParseError::PayloadMarkerWithoutPayload),
        bytes.len() > 1 && bytes[0] == 0xff ==> (read_tail(bytes, prev) matches Ok(t)
            && t.options.len() == 0 && t.payload == bytes.skip(1)),
        bytes.len() > 0 && 0xf0 <= bytes[0] < 0xff ==> (read_tail(bytes, prev) matches Err(e) && e
            == ParseError::ReservedOptionDelta),
        bytes.len() > 0 && bytes[0] < 0xf0 && bytes[0] % 16 == 15 ==> (read_tail(bytes, prev)
            matches Err(e) && e == ParseError::ReservedOptionLength),
        bytes.len() > 0 && bytes[0] < 0xd0 && bytes[0] % 16 < 13 && prev + bytes[0] as int / 16
            > 65535 ==> (read_tail(bytes, prev) matches Err(e) && e
            == ParseError::OptionNumberOverflow),
        bytes.len() > 0 && bytes[0] < 0xd0 && bytes[0] % 16 < 13 && prev + bytes[0] as int / 16
            <= 65535 && bytes.len() < 1 + bytes[0] as int % 16 ==> (read_tail(bytes, prev)
            matches Err(e) && e == ParseError::TruncatedOption),
{
    reveal(read_opt);
}

/// A message can be put on the wire exactly if its options are in ascending order,
/// none of their values is longer than 65804 octets, and the code 0 stands alone;
/// the fault that is named is one that the message has.
pub proof fn law_encode_fault(m: MessageView)
    ensures
        encode_fault(m).is_none() <==> (forall|i: int, j: int|
            0 <= i < j < m.options.len() ==> (#[trigger] m.options[i]).number <= (
            #[trigger] m.options[j]).number) && (forall|i: int|
            0 <= i < m.options.len() ==> (#[trigger] m.options[i]).value.len() <= 65804) && (
        m.code.raw() == 0 ==> m.token.len() == 0 && m.options.len() == 0 && m.payload.len() == 0),
        encode_fault(m) == Some(EncodeError::EmptyMessageNotEmpty) <==> m.code.raw() == 0 && (
        m.token.len() > 0 || m.options.len() > 0 || m.payload.len() > 0),
        encode_fault(m) == Some(EncodeError::OptionsNotAscending) ==> exists|i: int, j: int|
            0 <= i < j < m.options.len() && (#[trigger] m.options[i]).number > (
            #[trigger] m.options[j]).number,
        encode_fault(m) == Some(EncodeError::OptionValueTooLong) ==> exists|i: int|
            0 <= i < m.options.len() && (#[trigger] m.options[i]).value.len() > 65804,
{
    if super::wire::options_fault(m.options, 0).is_none() {
        super::wire::lemma_no_fault_ascending(m.options, 0);
    }
    if (forall|i: int, j: int|
        0 <= i < j < m.options.len() ==> (#[trigger] m.options[i]).number <= (
        #[trigger] m.options[j]).number) && (forall|i: int|
        0 <= i < m.options.len() ==> (#[trigger] m.options[i]).value.len() <= 65804) {
        super::wire::lemma_ascending_no_fault(m.options, 0);
    }
    lemma_fault_present(m.options, 0);
}

proof fn lemma_fault_present(opts: Seq<OptView>, prev: int)
    ensures
        super::wire::options_fault(opts, prev) == Some(EncodeError::OptionsNotAscending) ==> (
        opts.len() > 0 && opts[0].number < prev) || exists|i: int, j: int|
            0 <= i < j < opts.len() && (#[trigger] opts[i]).number > (#[trigger] opts[j]).number,
        super::wire::options_fault(opts, prev) == Some(EncodeError::OptionValueTooLong)
            ==> exists|i: int| 0 <= i < opts.len() && (#[trigger] opts[i]).value.len() > 65804,
        super::wire::options_fault(opts, prev) != Some(EncodeError::EmptyMessageNotEmpty),
    decreases opts.len(),
{
    if opts.len() > 0 && opts[0].number >= prev && opts[0].value.len() <= 65804 {
        let rest = opts.skip(1);
        lemma_fault_present(rest, opts[0].number as int);
        if super::wire::options_fault(opts, prev) == Some(EncodeError::OptionsNotAscending) {
            if rest.len() > 0 && rest[0].number < opts[0].number {
                assert(opts[1] == rest[0]);
                assert(opts[0].number > opts[1].number);
            } else {
                let (i, j) = choose|i: int, j: int|
                    0 <= i < j < rest.len() && (#[trigger] rest[i]).number > (
                    #[trigger] rest[j]).number;
                assert(opts[i + 1].number > opts[j + 1].number);
            }
        } else if super::wire::options_fault(opts, prev) == Some(
            EncodeError::OptionValueTooLong,
        ) {
            let i = choose|i: int|
                0 <= i < rest.len() && (#[trigger] rest[i]).value.len() > 65804;
            assert(opts[i + 1].value.len() > 65804);
        }
    }
}

} // verus!
