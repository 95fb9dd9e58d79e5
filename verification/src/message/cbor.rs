//! The part of CBOR that problem details and missing-block lists need.
use vstd::prelude::*;

verus! {

/// A payload is not the CBOR that was expected.
#[derive(Clone, Copy, Debug, PartialEq, Eq, Structural)]
pub struct CborError;

/// The head of a data item.
pub struct HeadView {
    /// Major type.
    pub major: int,
    /// Argument.
    pub arg: int,
    /// Octets that the head takes.
    pub used: int,
}

/// The shortest head of a data item with an argument below 2^32.
#[verifier::opaque]
pub open spec fn head_wire(major: int, arg: int) -> Seq<u8> {
    if arg < 24 {
        seq![(major * 32 + arg) as u8]
    } else if arg < 256 {
        seq![(major * 32 + 24) as u8, arg as u8]
    } else if arg < 65536 {
        seq![(major * 32 + 25) as u8, (arg / 256) as u8, (arg % 256) as u8]
    } else {
        seq![
            (major * 32 + 26) as u8,
            (arg / 0x1000000) as u8,
            ((arg / 0x10000) % 256) as u8,
            ((arg / 0x100) % 256) as u8,
            (arg % 256) as u8,
        ]
    }
}

/// Read the head at the front, if it is whole and its argument is below 2^32.
#[verifier::opaque]
pub open spec fn read_head(bytes: Seq<u8>) -> Option<HeadView> {
    if bytes.len() == 0 {
        None
    } else {
        let major = bytes[0] as int / 32;
        let info = bytes[0] as int % 32;
        if info < 24 {
            Some(HeadView { major, arg: info, used: 1 })
        } else if info == 24 && bytes.len() >= 2 {
            Some(HeadView { major, arg: bytes[1] as int, used: 2 })
        } else if info == 25 && bytes.len() >= 3 {
            Some(HeadView { major, arg: bytes[1] * 256 + bytes[2], used: 3 })
        } else if info == 26 && bytes.len() >= 5 {
            Some(
                HeadView {
                    major,
                    arg: bytes[1] * 0x1000000 + bytes[2] * 0x10000 + bytes[3] * 0x100 + bytes[4],
                    used: 5,
                },
            )
        } else {
            None
        }
    }
}

/// A head that was written is read back, whatever follows.
pub proof fn lemma_head_round_trip(major: int, arg: int, rest: Seq<u8>)
    requires
        0 <= major <= 7,
        0 <= arg < 0x100000000,
    ensures
        read_head(head_wire(major, arg) + rest) == Some(
            HeadView { major, arg, used: head_wire(major, arg).len() as int },
        ),
        head_wire(major, arg).len() > 0,
{
    reveal(head_wire);
    reveal(read_head);
    let w = head_wire(major, arg);
    let b = w + rest;
    assert(forall|i: int| 0 <= i < w.len() ==> b[i] == w[i]);
    if arg >= 65536 {
        assert(arg / 0x1000000 * 0x1000000 + (arg / 0x10000) % 256 * 0x10000 + (arg / 0x100) % 256
            * 0x100 + arg % 256 == arg);
    }
}

/// Append the shortest head.
pub fn push_head(out: &mut Vec<u8>, major: u8, arg: u32)
    requires
        major <= 7,
    ensures
        final(out)@ == old(out)@ + head_wire(major as int, arg as int),
{
    let ghost before = out@;
    proof {
        reveal(head_wire);
    }
    if arg < 24 {
        out.push(major * 32 + arg as u8);
    } else if arg < 256 {
        out.push(major * 32 + 24);
        out.push(arg as u8);
    } else if arg < 65536 {
        out.push(major * 32 + 25);
        out.push((arg / 256) as u8);
        out.push((arg % 256) as u8);
    } else {
        out.push(major * 32 + 26);
        out.push((arg / 0x1000000) as u8);
        out.push(((arg / 0x10000) % 256) as u8);
        out.push(((arg / 0x100) % 256) as u8);
        out.push((arg % 256) as u8);
    }
    assert(out@ =~= before + head_wire(major as int, arg as int));
}

/// The head of a data item.
#[derive(Clone, Copy, Debug)]
pub struct Head {
    /// Major type.
    pub major: u8,
    /// Argument.
    pub arg: u32,
    /// Octets that the head takes.
    pub used: usize,
}

/// Read the head at the front.
pub fn decode_head(bytes: &[u8]) -> (r: Option<Head>)
    ensures
        r.is_some() == read_head(bytes@).is_some(),
        r matches Some(h) ==> read_head(bytes@) == Some(
            HeadView { major: h.major as int, arg: h.arg as int, used: h.used as int },
        ) && 0 < h.used <= bytes@.len(),
{
    proof {
        reveal(read_head);
    }
    if bytes.len() == 0 {
        return None;
    }
    let major: u8 = bytes[0] / 32;
    let info: u8 = bytes[0] % 32;
    if info < 24 {
        Some(Head { major, arg: info as u32, used: 1 })
    } else if info == 24 && bytes.len() >= 2 {
        Some(Head { major, arg: bytes[1] as u32, used: 2 })
    } else if info == 25 && bytes.len() >= 3 {
        Some(Head { major, arg: bytes[1] as u32 * 256 + bytes[2] as u32, used: 3 })
    } else if info == 26 && bytes.len() >= 5 {
        Some(
            Head {
                major,
                arg: bytes[1] as u32 * 0x1000000 + bytes[2] as u32 * 0x10000 + bytes[3] as u32
                    * 0x100 + bytes[4] as u32,
                used: 5,
            },
        )
    } else {
        None
    }
}

} // verus!
