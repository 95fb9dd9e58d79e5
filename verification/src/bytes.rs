//! Byte strings: comparison, copying, and octet strings of at most eight bytes.
use vstd::prelude::*;

verus! {

/// Do two slices hold the same octets?
pub fn bytes_eq(a: &[u8], b: &[u8]) -> (same: bool)
    ensures
        same == (a@ == b@),
{
    if a.len() != b.len() {
        return false;
    }
    let mut i: usize = 0;
    while i < a.len()
        invariant
            a@.len() == b@.len(),
            i <= a@.len(),
            forall|k: int| 0 <= k < i ==> a@[k] == b@[k],
        decreases a@.len() - i,
    {
        if a[i] != b[i] {
            return false;
        }
        i = i + 1;
    }
    assert(a@ =~= b@);
    true
}

/// An owned copy of a slice.
pub fn to_vec(src: &[u8]) -> (out: Vec<u8>)
    ensures
        out@ == src@,
{
    let mut out: Vec<u8> = Vec::new();
    let mut i: usize = 0;
    while i < src.len()
        invariant
            i <= src@.len(),
            out@ == src@.subrange(0, i as int),
        decreases src@.len() - i,
    {
        out.push(src[i]);
        i = i + 1;
        assert(out@ =~= src@.subrange(0, i as int));
    }
    assert(out@ =~= src@);
    out
}

/// Append `src` to `out`.
pub fn append(out: &mut Vec<u8>, src: &[u8])
    ensures
        final(out)@ == old(out)@ + src@,
{
    let ghost before = out@;
    let mut i: usize = 0;
    while i < src.len()
        invariant
            i <= src@.len(),
            out@ == before + src@.subrange(0, i as int),
        decreases src@.len() - i,
    {
        out.push(src[i]);
        i = i + 1;
        assert(out@ =~= before + src@.subrange(0, i as int));
    }
    assert(out@ =~= before + src@);
}

/// The first `n` octets of `src`, or all of it when it is shorter.
pub open spec fn prefix(src: Seq<u8>, n: nat) -> Seq<u8> {
    if src.len() <= n {
        src
    } else {
        src.subrange(0, n as int)
    }
}

/// Copy at most `n` leading octets of `src`.
pub fn copy_prefix(src: &[u8], n: usize) -> (out: Vec<u8>)
    ensures
        out@ == prefix(src@, n as nat),
{
    if src.len() <= n {
        to_vec(src)
    } else {
        to_vec(&src[0..n])
    }
}

/// An octet string of at most eight bytes, held by value.
///
/// Tokens, ETags and Request-Tags are all of this shape.
#[derive(Clone, Copy, Debug, PartialEq, Eq, Hash)]
pub struct Short {
    len: u8,
    octets: [u8; 8],
}

impl View for Short {
    type V = Seq<u8>;

    closed spec fn view(&self) -> Seq<u8> {
        if self.len <= 8 {
            self.octets@.subrange(0, self.len as int)
        } else {
            Seq::empty()
        }
    }
}

impl Short {
    /// The empty string.
    pub fn empty() -> (s: Short)
        ensures
            s@ == Seq::<u8>::empty(),
    {
        let s = Short { len: 0, octets: [0u8; 8] };
        assert(s@ =~= Seq::<u8>::empty());
        s
    }

    /// Copy `src`, if it is at most eight octets long.
    pub fn new(src: &[u8]) -> (s: Option<Short>)
        ensures
            s.is_some() == (src@.len() <= 8),
            s matches Some(v) ==> v@ == src@,
    {
        if src.len() > 8 {
            return None;
        }
        let mut octets: [u8; 8] = [0u8; 8];
        let mut i: usize = 0;
        while i < src.len()
            invariant
                i <= src@.len() <= 8,
                octets@.len() == 8,
                forall|k: int| 0 <= k < i ==> octets@[k] == src@[k],
            decreases src@.len() - i,
        {
            octets[i] = src[i];
            i = i + 1;
        }
        let s = Short { len: src.len() as u8, octets };
        assert(s@ =~= src@);
        Some(s)
    }

    /// Borrow the octets.
    pub fn as_slice(&self) -> (out: &[u8])
        ensures
            out@ == self@,
            out@.len() <= 8,
    {
        if self.len <= 8 {
            let n: usize = self.len as usize;
            let all: &[u8] = self.octets.as_slice();
            &all[0..n]
        } else {
            let all: &[u8] = self.octets.as_slice();
            let none: &[u8] = &all[0..0];
            assert(none@ =~= self@);
            none
        }
    }

    /// How many octets there are.
    pub fn len(&self) -> (n: usize)
        ensures
            n == self@.len(),
    {
        if self.len <= 8 {
            self.len as usize
        } else {
            0
        }
    }

    /// Is the string empty?
    pub fn is_empty(&self) -> (b: bool)
        ensures
            b == (self@.len() == 0),
    {
        self.len() == 0
    }

    /// Do two strings hold the same octets?
    pub fn same(&self, other: &Short) -> (b: bool)
        ensures
            b == (self@ == other@),
    {
        bytes_eq(self.as_slice(), other.as_slice())
    }

    /// No such string is longer than eight octets.
    pub broadcast proof fn at_most_eight(self)
        ensures
            #[trigger] self@.len() <= 8,
    {
    }
}

} // verus!
