//! Option values: unsigned integers, content formats, block descriptors.
use vstd::prelude::*;

use crate::bytes::Short;
use crate::error::ValueError;

verus! {

/// The number that big-endian octets stand for.
pub open spec fn uint_value(octets: Seq<u8>) -> nat
    decreases octets.len(),
{
    if octets.len() == 0 {
        0
    } else {
        uint_value(octets.drop_last()) * 256 + octets.last() as nat
    }
}

/// The shortest big-endian octets of a number; zero has none.
pub open spec fn uint_octets(n: nat) -> Seq<u8>
    decreases n,
{
    if n == 0 {
        Seq::empty()
    } else {
        uint_octets(n / 256).push((n % 256) as u8)
    }
}

/// Reading back what was written gives the number again.
pub proof fn law_uint_round_trip(n: nat)
    ensures
        uint_value(uint_octets(n)) == n,
    decreases n,
{
    if n != 0 {
        law_uint_round_trip(n / 256);
        let all = uint_octets(n);
        assert(all.drop_last() =~= uint_octets(n / 256));
        assert(all.last() as nat == n % 256);
    }
}

/// The octets of a number below 2^32 are at most four.
pub proof fn lemma_uint_octets_len(n: nat)
    ensures
        n < 0x100 ==> uint_octets(n).len() <= 1,
        n < 0x10000 ==> uint_octets(n).len() <= 2,
        n < 0x1000000 ==> uint_octets(n).len() <= 3,
        n < 0x100000000 ==> uint_octets(n).len() <= 4,
{
    reveal_with_fuel(uint_octets, 5);
}

/// An encoded unsigned integer option value.
#[derive(Clone, Copy, Debug, PartialEq, Eq)]
pub struct EncodedUint {
    octets: Short,
}

impl View for EncodedUint {
    type V = Seq<u8>;

    closed spec fn view(&self) -> Seq<u8> {
        self.octets@
    }
}

impl EncodedUint {
    /// Encode `n` in as few octets as possible.
    pub fn new(n: u32) -> (e: EncodedUint)
        ensures
            e@ == uint_octets(n as nat),
    {
        encode_uint(n)
    }

    /// Borrow the octets.
    pub fn as_slice(&self) -> (out: &[u8])
        ensures
            out@ == self@,
    {
        self.octets.as_slice()
    }
}

/// Encode `n` in as few octets as possible.
pub fn encode_uint(n: u32) -> (e: EncodedUint)
    ensures
        e@ == uint_octets(n as nat),
{
    let mut v: Vec<u8> = Vec::new();
    if n >= 0x1000000 {
        v.push((n / 0x1000000) as u8);
    }
    if n >= 0x10000 {
        v.push(((n / 0x10000) % 256) as u8);
    }
    if n >= 0x100 {
        v.push(((n / 0x100) % 256) as u8);
    }
    if n >= 1 {
        v.push((n % 256) as u8);
    }
    proof {
        reveal_with_fuel(uint_octets, 5);
        assert(n / 256 / 256 == n / 0x10000);
        assert(n / 256 / 256 / 256 == n / 0x1000000);
        assert(n / 256 / 256 / 256 / 256 == 0);
        assert(v@ =~= uint_octets(n as nat));
    }
    match Short::new(v.as_slice()) {
        Some(octets) => EncodedUint { octets },
        None => EncodedUint { octets: Short::empty() },
    }
}

/// Decode an unsigned integer of at most `max_len` octets, `max_len` being at
/// most four.
pub fn decode_uint(octets: &[u8], max_len: usize) -> (r: Result<u32, ValueError>)
    requires
        max_len <= 4,
    ensures
        r == uint_of(octets@, max_len as nat),
{
    if octets.len() > max_len {
        return Err(ValueError::UintOverflow);
    }
    let mut acc: u32 = 0;
    let mut i: usize = 0;
    while i < octets.len()
        invariant
            i <= octets@.len() <= 4,
            acc as nat == uint_value(octets@.subrange(0, i as int)),
            i == 0 ==> acc == 0,
            i == 1 ==> acc < 0x100,
            i == 2 ==> acc < 0x10000,
            i == 3 ==> acc < 0x1000000,
        decreases octets@.len() - i,
    {
        let ghost next = octets@.subrange(0, i as int + 1);
        assert(next.drop_last() =~= octets@.subrange(0, i as int));
        assert(next.last() == octets@[i as int]);
        acc = acc * 256 + octets[i] as u32;
        i = i + 1;
    }
    assert(octets@.subrange(0, i as int) =~= octets@);
    Ok(acc)
}

/// The number in an option value, if it is at most `max_len` octets long.
pub open spec fn uint_of(octets: Seq<u8>, max_len: nat) -> Result<u32, ValueError> {
    if octets.len() > max_len {
        Err(ValueError::UintOverflow)
    } else {
        Ok(uint_value(octets) as u32)
    }
}

/// Registered content formats.
#[allow(non_camel_case_types)]
#[derive(Clone, Copy, Debug, PartialEq, Eq, Structural)]
pub enum ContentFormat {
    /// text/plain; charset=utf-8
    TEXT_PLAIN,
    /// application/link-format
    LINK_FORMAT,
    /// application/xml
    XML,
    /// application/octet-stream
    OCTET_STREAM,
    /// application/json
    JSON,
    /// application/cbor
    CBOR,
    /// application/concise-problem-details+cbor
    PROBLEM_DETAILS,
    /// application/missing-blocks+cbor-seq
    MISSING_BLOCKS,
    /// Any other number.
    Other(u16),
}

impl ContentFormat {
    /// The registered number.
    pub open spec fn number(self) -> u16 {
        match self {
            ContentFormat::TEXT_PLAIN => 0,
            ContentFormat::LINK_FORMAT => 40,
            ContentFormat::XML => 41,
            ContentFormat::OCTET_STREAM => 42,
            ContentFormat::JSON => 50,
            ContentFormat::CBOR => 60,
            ContentFormat::PROBLEM_DETAILS => 257,
            ContentFormat::MISSING_BLOCKS => 272,
            ContentFormat::Other(n) => n,
        }
    }

    /// The format with a registered number.
    pub open spec fn of_number(n: u16) -> ContentFormat {
        match n {
            0 => ContentFormat::TEXT_PLAIN,
            40 => ContentFormat::LINK_FORMAT,
            41 => ContentFormat::XML,
            42 => ContentFormat::OCTET_STREAM,
            50 => ContentFormat::JSON,
            60 => ContentFormat::CBOR,
            257 => ContentFormat::PROBLEM_DETAILS,
            272 => ContentFormat::MISSING_BLOCKS,
            _ => ContentFormat::Other(n),
        }
    }

    /// The registered number.
    pub fn get(self) -> (n: u16)
        ensures
            n == self.number(),
    {
        match self {
            ContentFormat::TEXT_PLAIN => 0,
            ContentFormat::LINK_FORMAT => 40,
            ContentFormat::XML => 41,
            ContentFormat::OCTET_STREAM => 42,
            ContentFormat::JSON => 50,
            ContentFormat::CBOR => 60,
            ContentFormat::PROBLEM_DETAILS => 257,
            ContentFormat::MISSING_BLOCKS => 272,
            ContentFormat::Other(n) => n,
        }
    }

    /// The format with a registered number.
    pub fn new(n: u16) -> (f: ContentFormat)
        ensures
            f == ContentFormat::of_number(n),
    {
        match n {
            0 => ContentFormat::TEXT_PLAIN,
            40 => ContentFormat::LINK_FORMAT,
            41 => ContentFormat::XML,
            42 => ContentFormat::OCTET_STREAM,
            50 => ContentFormat::JSON,
            60 => ContentFormat::CBOR,
            257 => ContentFormat::PROBLEM_DETAILS,
            272 => ContentFormat::MISSING_BLOCKS,
            _ => ContentFormat::Other(n),
        }
    }

    /// The option value.
    pub fn encode(self) -> (e: EncodedUint)
        ensures
            e@ == uint_octets(self.number() as nat),
    {
        encode_uint(self.get() as u32)
    }

    /// The format that an option value names.
    pub open spec fn of_octets(octets: Seq<u8>) -> Result<ContentFormat, ValueError> {
        match uint_of(octets, 2) {
            Ok(n) => Ok(ContentFormat::of_number(n as u16)),
            Err(e) => Err(e),
        }
    }

    /// Decode an option value.
    pub fn decode(octets: &[u8]) -> (r: Result<ContentFormat, ValueError>)
        ensures
            r == ContentFormat::of_octets(octets@),
    {
        match decode_uint(octets, 2) {
            Ok(n) => Ok(ContentFormat::new(n as u16)),
            Err(e) => Err(e),
        }
    }

    /// Decoding an encoded format gives the format of the same number.
    pub proof fn law_round_trip(self)
        ensures
            ContentFormat::of_octets(uint_octets(self.number() as nat)) == Ok::<_, ValueError>(
                ContentFormat::of_number(self.number()),
            ),
    {
        lemma_uint_octets_len(self.number() as nat);
        law_uint_round_trip(self.number() as nat);
    }
}

/// A block descriptor: number, more flag, size exponent.
#[derive(Clone, Copy, Debug, PartialEq, Eq, Structural)]
pub struct BlockValue {
    /// Block number.
    pub num: u32,
    /// Do more blocks follow?
    pub more: bool,
    /// Size exponent; 7 stands for a run of 1024-byte blocks.
    pub szx: u8,
}

/// Bytes in a block with this exponent; 7 stands for a run of 1024-byte blocks.
pub open spec fn block_size(szx: int) -> int {
    if szx == 0 {
        16
    } else if szx == 1 {
        32
    } else if szx == 2 {
        64
    } else if szx == 3 {
        128
    } else if szx == 4 {
        256
    } else if szx == 5 {
        512
    } else {
        1024
    }
}

impl BlockValue {
    /// Largest size exponent of a single block.
    pub const SZX_MAX: u8 = 6;

    /// Bytes in the largest single block.
    pub const SIZE_MAX: usize = 1024;

    /// Is the descriptor within its field widths?
    pub open spec fn valid(self) -> bool {
        self.num < 0x100000 && self.szx <= 7
    }

    /// The descriptor as one number.
    pub open spec fn packed(self) -> nat {
        (self.num * 16 + (if self.more {
            8int
        } else {
            0int
        }) + self.szx) as nat
    }

    /// The descriptor in a packed number.
    pub open spec fn unpacked(n: nat) -> BlockValue {
        BlockValue { num: (n / 16) as u32, more: (n / 8) % 2 == 1, szx: (n % 8) as u8 }
    }

    /// A descriptor, if the fields fit their widths.
    pub fn new(num: u32, more: bool, szx: u8) -> (r: Result<BlockValue, ValueError>)
        ensures
            r == if szx > 7 {
                Err(ValueError::IllegalSzx)
            } else if num >= 0x100000 {
                Err(ValueError::BlockNumOverflow)
            } else {
                Ok(BlockValue { num, more, szx })
            },
    {
        if szx > 7 {
            return Err(ValueError::IllegalSzx);
        }
        if num >= 0x100000 {
            return Err(ValueError::BlockNumOverflow);
        }
        Ok(BlockValue { num, more, szx })
    }

    /// A descriptor for a block size in bytes.
    pub fn from_size(num: u32, more: bool, size: u16) -> (r: Result<BlockValue, ValueError>)
        ensures
            r matches Ok(b) ==> b.valid() && b.num == num && b.more == more && b.szx <= 6
                && block_size(b.szx as int) == size,
            r.is_ok() == (num < 0x100000 && (size == 16 || size == 32 || size == 64 || size == 128
                || size == 256 || size == 512 || size == 1024)),
            r matches Err(e) ==> e == if (size == 16 || size == 32 || size == 64 || size == 128
                || size == 256 || size == 512 || size == 1024) {
                ValueError::BlockNumOverflow
            } else {
                ValueError::IllegalSzx
            },
    {
        let szx: u8 = if size == 16 {
            0
        } else if size == 32 {
            1
        } else if size == 64 {
            2
        } else if size == 128 {
            3
        } else if size == 256 {
            4
        } else if size == 512 {
            5
        } else if size == 1024 {
            6
        } else {
            return Err(ValueError::IllegalSzx);
        };
        BlockValue::new(num, more, szx)
    }

    /// Block number.
    pub fn num(self) -> (n: u32)
        ensures
            n == self.num,
    {
        self.num
    }

    /// Do more blocks follow?
    pub fn more(self) -> (b: bool)
        ensures
            b == self.more,
    {
        self.more
    }

    /// Size exponent.
    pub fn szx(self) -> (s: u8)
        ensures
            s == self.szx,
    {
        self.szx
    }

    /// Does the descriptor stand for a run of blocks?
    pub fn is_bert(self) -> (b: bool)
        ensures
            b == (self.szx == 7),
    {
        self.szx == 7
    }

    /// Bytes in the block.
    pub fn size(self) -> (n: u16)
        ensures
            n as int == block_size(self.szx as int),
    {
        match self.szx {
            0 => 16,
            1 => 32,
            2 => 64,
            3 => 128,
            4 => 256,
            5 => 512,
            _ => 1024,
        }
    }

    /// The option value.
    pub fn encode(self) -> (e: EncodedUint)
        requires
            self.valid(),
        ensures
            e@ == uint_octets(self.packed()),
    {
        let flag: u32 = if self.more {
            8
        } else {
            0
        };
        encode_uint(self.num * 16 + flag + self.szx as u32)
    }

    /// The descriptor in an option value.
    pub open spec fn of_octets(octets: Seq<u8>) -> Result<BlockValue, ValueError> {
        match uint_of(octets, 3) {
            Ok(n) => Ok(BlockValue::unpacked(n as nat)),
            Err(_) => Err(ValueError::BlockNumOverflow),
        }
    }

    /// Decode an option value.
    pub fn decode(octets: &[u8]) -> (r: Result<BlockValue, ValueError>)
        ensures
            r == BlockValue::of_octets(octets@),
            r matches Ok(b) ==> b.valid(),
    {
        match decode_uint(octets, 3) {
            Ok(n) => {
                proof {
                    lemma_three_octets(octets@);
                }
                Ok(BlockValue { num: n / 16, more: (n / 8) % 2 == 1, szx: (n % 8) as u8 })
            },
            Err(_) => Err(ValueError::BlockNumOverflow),
        }
    }
}

proof fn lemma_three_octets(octets: Seq<u8>)
    requires
        octets.len() <= 3,
    ensures
        uint_value(octets) < 0x1000000,
{
    reveal_with_fuel(uint_value, 4);
}

/// Decoding an encoded descriptor gives the descriptor again.
pub proof fn law_block_round_trip(b: BlockValue)
    requires
        b.valid(),
    ensures
        BlockValue::of_octets(uint_octets(b.packed())) == Ok::<BlockValue, ValueError>(b),
{
    let n = b.packed();
    lemma_uint_octets_len(n);
    law_uint_round_trip(n);
    assert(n < 0x1000000);
    let flag: int = if b.more {
        8
    } else {
        0
    };
    assert(n as int / 16 == b.num);
    assert(n / 8 == b.num * 2 + flag / 8);
}

} // verus!
