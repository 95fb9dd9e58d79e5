//! Missing-block lists: a CBOR sequence of block numbers.
use vstd::prelude::*;

use super::cbor::{decode_head, head_wire, lemma_head_round_trip, push_head, read_head, CborError};

verus! {

/// A list of block numbers that did not arrive.
pub struct MissingBlocks;

/// The list on the wire.
pub open spec fn missing_wire(nums: Seq<u32>) -> Seq<u8>
    decreases nums.len(),
{
    if nums.len() == 0 {
        Seq::empty()
    } else {
        missing_wire(nums.drop_last()) + head_wire(0, nums.last() as int)
    }
}

/// The list in a payload, if every item is an unsigned integer below 2^32.
pub open spec fn read_missing(bytes: Seq<u8>) -> Option<Seq<u32>>
    decreases bytes.len(),
{
    if bytes.len() == 0 {
        Some(Seq::empty())
    } else {
        match read_head(bytes) {
            Some(h) => if h.major == 0 && 0 < h.used <= bytes.len() {
                match read_missing(bytes.skip(h.used)) {
                    Some(rest) => Some(seq![h.arg as u32] + rest),
                    None => None,
                }
            } else {
                None
            },
            None => None,
        }
    }
}

proof fn lemma_missing_round_trip(nums: Seq<u32>, rest: Seq<u8>)
    requires
        read_missing(rest).is_some(),
    ensures
        read_missing(missing_wire(nums) + rest) == Some(nums + read_missing(rest)->0),
    decreases nums.len(),
{
    if nums.len() == 0 {
        assert(missing_wire(nums) + rest =~= rest);
        assert(nums + read_missing(rest)->0 =~= read_missing(rest)->0);
    } else {
        let last = nums.last();
        let w = head_wire(0, last as int);
        let more = w + rest;
        lemma_head_round_trip(0, last as int, rest);
        assert(more.skip(w.len() as int) =~= rest);
        assert(read_missing(more) == Some(seq![last] + read_missing(rest)->0));
        lemma_missing_round_trip(nums.drop_last(), more);
        assert(missing_wire(nums) + rest =~= missing_wire(nums.drop_last()) + more);
        assert(nums + read_missing(rest)->0 =~= nums.drop_last() + (seq![last] + read_missing(
            rest,
        )->0));
    }
}

/// A list that was written is read back.
pub proof fn law_missing_round_trip(nums: Seq<u32>)
    ensures
        read_missing(missing_wire(nums)) == Some(nums),
{
    lemma_missing_round_trip(nums, Seq::empty());
    assert(missing_wire(nums) + Seq::<u8>::empty() =~= missing_wire(nums));
    assert(nums + Seq::<u32>::empty() =~= nums);
}

impl MissingBlocks {
    /// The list as a payload.
    pub fn encode(nums: &[u32]) -> (out: Vec<u8>)
        ensures
            out@ == missing_wire(nums@),
    {
        let mut out: Vec<u8> = Vec::new();
        let mut i: usize = 0;
        assert(nums@.subrange(0, 0) =~= Seq::empty());
        while i < nums.len()
            invariant
                i <= nums@.len(),
                out@ == missing_wire(nums@.subrange(0, i as int)),
            decreases nums@.len() - i,
        {
            push_head(&mut out, 0, nums[i]);
            i = i + 1;
            assert(nums@.subrange(0, i as int).drop_last() =~= nums@.subrange(0, i - 1));
        }
        assert(nums@.subrange(0, i as int) =~= nums@);
        out
    }

    /// Read the list in a payload into `nums`; gives how many there are.
    ///
    /// Fails where an item is not an unsigned integer below 2^32, or where
    /// `nums` is too short.
    pub fn decode(payload: &[u8], nums: &mut [u32]) -> (r: Result<usize, CborError>)
        ensures
            match read_missing(payload@) {
                Some(list) => if list.len() <= old(nums)@.len() {
                    (r matches Ok(n) && n == list.len()) && final(nums)@ == list + old(nums)@.skip(list.len() as int)
                } else {
                    r == Err::<usize, CborError>(CborError)
                },
                None => r == Err::<usize, CborError>(CborError),
            },
    {
        let ghost before = nums@;
        let ghost whole = read_missing(payload@);
        let mut rest: &[u8] = payload;
        let mut n: usize = 0;
        let ghost mut seen: Seq<u32> = Seq::empty();
        proof {
            if whole.is_some() {
                assert(seen + whole->0 =~= whole->0);
            }
            assert(seen + before.skip(0) =~= before);
        }
        while rest.len() > 0
            invariant
                before == old(nums)@,
                n == seen.len(),
                n <= before.len(),
                nums@.len() == before.len(),
                nums@ == seen + before.skip(n as int),
                whole == read_missing(payload@),
                match read_missing(rest@) {
                    Some(list) => whole == Some(seen + list),
                    None => whole.is_none(),
                },
            decreases rest@.len(),
        {
            let head = match decode_head(rest) {
                Some(head) => head,
                None => return Err(CborError),
            };
            if head.major != 0 || n >= nums.len() {
                return Err(CborError);
            }
            let next: &[u8] = &rest[head.used..rest.len()];
            assert(next@ =~= rest@.skip(head.used as int));
            nums[n] = head.arg;
            proof {
                match read_missing(next@) {
                    Some(list) => {
                        assert(seen + (seq![head.arg] + list) =~= seen.push(head.arg) + list);
                    },
                    None => {},
                }
                seen = seen.push(head.arg);
                assert(nums@ =~= seen + before.skip(n as int + 1));
            }
            n = n + 1;
            rest = next;
        }
        assert(seen + Seq::<u32>::empty() =~= seen);
        Ok(n)
    }
}

} // verus!
