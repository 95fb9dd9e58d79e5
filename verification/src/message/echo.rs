//! Echo values.
use vstd::prelude::*;

use super::fields::first_value;
use super::option::OptView;
use super::value::uint_value;
use super::wire::ParsedMessage;
use crate::bytes::{append, to_vec};
use crate::error::ValueError;

verus! {

/// A challenge of 1 to 40 octets that a client sends back.
#[derive(Clone, Debug, PartialEq, Eq)]
pub struct Echo {
    octets: Vec<u8>,
}

impl View for Echo {
    type V = Seq<u8>;

    closed spec fn view(&self) -> Seq<u8> {
        self.octets@
    }
}

/// 256 to the power of `k`.
pub open spec fn pow256(k: nat) -> nat
    decreases k,
{
    if k == 0 {
        1
    } else {
        256 * pow256((k - 1) as nat)
    }
}

/// The low `k` octets of a number, most significant first.
pub open spec fn be_octets(n: nat, k: nat) -> Seq<u8>
    decreases k,
{
    if k == 0 {
        Seq::empty()
    } else {
        be_octets(n / 256, (k - 1) as nat).push((n % 256) as u8)
    }
}

proof fn lemma_be_octets(n: nat, k: nat)
    requires
        n < pow256(k),
    ensures
        be_octets(n, k).len() == k,
        uint_value(be_octets(n, k)) == n,
    decreases k,
{
    if k != 0 {
        assert(n / 256 < pow256((k - 1) as nat));
        lemma_be_octets(n / 256, (k - 1) as nat);
        let all = be_octets(n, k);
        assert(all.drop_last() =~= be_octets(n / 256, (k - 1) as nat));
        assert(all.last() as nat == n % 256);
    }
}

proof fn lemma_uint_bound(octets: Seq<u8>)
    ensures
        uint_value(octets) < pow256(octets.len()),
    decreases octets.len(),
{
    if octets.len() != 0 {
        lemma_uint_bound(octets.drop_last());
    }
}

proof fn lemma_pow256_monotone(j: nat, k: nat)
    requires
        j <= k,
    ensures
        pow256(j) <= pow256(k),
        0 < pow256(j),
    decreases k,
{
    if j < k {
        lemma_pow256_monotone(j, (k - 1) as nat);
    } else if j > 0 {
        lemma_pow256_monotone((j - 1) as nat, (k - 1) as nat);
    }
}

/// When a minted value was issued: its first eight octets.
pub open spec fn issued(octets: Seq<u8>) -> Option<u64> {
    if octets.len() >= 8 {
        Some(uint_value(octets.subrange(0, 8)) as u64)
    } else {
        None
    }
}

/// Was the value issued at most `window` ago, and not in the future?
pub open spec fn time_fresh(octets: Seq<u8>, now_ms: u64, window_ms: u64) -> bool {
    match issued(octets) {
        Some(at) => at <= now_ms && now_ms - at < window_ms,
        None => false,
    }
}

/// The first Echo option of a list, checked for its length.
pub open spec fn echo_option_of(opts: Seq<OptView>) -> Result<Option<Seq<u8>>, ValueError> {
    match first_value(opts, 252) {
        None => Ok(None),
        Some(v) => if 1 <= v.len() <= 40 {
            Ok(Some(v))
        } else {
            Err(ValueError::EchoLength)
        },
    }
}

/// What a checked Echo option says.
pub open spec fn echo_result(r: Result<Option<Echo>, ValueError>) -> Result<
    Option<Seq<u8>>,
    ValueError,
> {
    match r {
        Ok(Some(e)) => Ok(Some(e@)),
        Ok(None) => Ok(None),
        Err(e) => Err(e),
    }
}

fn push_be(out: &mut Vec<u8>, n: u64, k: u8)
    ensures
        final(out)@ == old(out)@ + be_octets(n as nat, k as nat),
    decreases k,
{
    let ghost before = out@;
    if k > 0 {
        push_be(out, n / 256, k - 1);
        out.push((n % 256) as u8);
    }
    assert(out@ =~= before + be_octets(n as nat, k as nat));
}

impl Echo {
    /// The value with these octets.
    pub fn new(octets: &[u8]) -> (r: Result<Echo, ValueError>)
        ensures
            r.is_ok() == (1 <= octets@.len() <= 40),
            r matches Ok(e) ==> e@ == octets@,
            r matches Err(e) ==> e == ValueError::EchoLength,
    {
        if octets.len() == 0 || octets.len() > 40 {
            return Err(ValueError::EchoLength);
        }
        Ok(Echo { octets: to_vec(octets) })
    }

    /// A value that starts with the time of issue; `tag` follows it.
    pub fn mint(now_ms: u64, tag: &[u8]) -> (r: Result<Echo, ValueError>)
        ensures
            r.is_ok() == (tag@.len() <= 32),
            r matches Ok(e) ==> e@ == be_octets(now_ms as nat, 8) + tag@,
            r matches Err(e) ==> e == ValueError::EchoLength,
    {
        if tag.len() > 32 {
            return Err(ValueError::EchoLength);
        }
        let mut octets: Vec<u8> = Vec::new();
        push_be(&mut octets, now_ms, 8);
        append(&mut octets, tag);
        assert(octets@ =~= be_octets(now_ms as nat, 8) + tag@);
        Ok(Echo { octets })
    }

    /// Borrow the octets.
    pub fn as_slice(&self) -> (out: &[u8])
        ensures
            out@ == self@,
    {
        self.octets.as_slice()
    }

    /// An equal value.
    pub fn copy(&self) -> (e: Echo)
        ensures
            e@ == self@,
    {
        Echo { octets: to_vec(self.octets.as_slice()) }
    }

    /// When a minted value was issued; `None` below eight octets.
    pub fn issued_at(&self) -> (r: Option<u64>)
        ensures
            r == issued(self@),
    {
        if self.octets.len() < 8 {
            return None;
        }
        let mut acc: u64 = 0;
        let mut i: usize = 0;
        proof {
            assert(pow256(8) == 0x1_0000_0000_0000_0000) by {
                reveal_with_fuel(pow256, 9);
            }
        }
        while i < 8
            invariant
                i <= 8 <= self.octets@.len(),
                pow256(8) == 0x1_0000_0000_0000_0000,
                acc as nat == uint_value(self.octets@.subrange(0, i as int)),
            decreases 8 - i,
        {
            proof {
                let next = self.octets@.subrange(0, i as int + 1);
                assert(next.drop_last() =~= self.octets@.subrange(0, i as int));
                assert(next.last() == self.octets@[i as int]);
                lemma_uint_bound(next);
                lemma_pow256_monotone(next.len(), 8);
            }
            acc = acc * 256 + self.octets[i] as u64;
            i = i + 1;
        }
        Some(acc)
    }

    /// Was the value issued less than `window_ms` ago, and not in the future?
    pub fn is_time_fresh(&self, now_ms: u64, window_ms: u64) -> (b: bool)
        ensures
            b == time_fresh(self@, now_ms, window_ms),
    {
        match self.issued_at() {
            Some(at) => at <= now_ms && now_ms - at < window_ms,
            None => false,
        }
    }

    /// The value of an option, if there is one and it is well-formed.
    pub fn from_option(value: Option<&[u8]>) -> (r: Option<Echo>)
        ensures
            match value {
                Some(v) => if 1 <= v@.len() <= 40 {
                    r matches Some(e) && e@ == v@
                } else {
                    r.is_none()
                },
                None => r.is_none(),
            },
    {
        match value {
            Some(v) => match Echo::new(v) {
                Ok(e) => Some(e),
                Err(_) => None,
            },
            None => None,
        }
    }

    /// The first Echo option of a message.
    pub fn from_message(m: &ParsedMessage<'_>) -> (r: Result<Option<Echo>, ValueError>)
        ensures
            echo_result(r) == echo_option_of(m@.options),
    {
        match m.echo() {
            None => Ok(None),
            Some(v) => match Echo::new(v) {
                Ok(e) => Ok(Some(e)),
                Err(e) => Err(e),
            },
        }
    }
}

/// A minted value tells when it was minted, whatever tag follows.
pub proof fn law_mint_issued(now_ms: u64, tag: Seq<u8>)
    ensures
        issued(be_octets(now_ms as nat, 8) + tag) == Some(now_ms),
{
    assert(pow256(8) == 0x1_0000_0000_0000_0000) by {
        reveal_with_fuel(pow256, 9);
    }
    lemma_be_octets(now_ms as nat, 8);
    let all = be_octets(now_ms as nat, 8) + tag;
    assert(all.subrange(0, 8) =~= be_octets(now_ms as nat, 8));
}

} // verus!
