//! Uri-Path segments.
use vstd::prelude::*;
use vstd::string::StringSliceAdditionalSpecFns;
use vstd::utf8::{
    is_char_boundary, is_char_boundary_iff_not_is_continuation_byte, length_of_first_scalar,
    pop_first_scalar, valid_utf8,
};

use crate::bytes::bytes_eq;
use crate::message::fields::{text_value, values_of};
use crate::message::ParsedMessage;

verus! {

/// The most segments that a path has.
pub const MAX_PATH_SEGMENTS: usize = 8;

/// Why a path is refused.
#[derive(Clone, Copy, Debug, PartialEq, Eq, Structural)]
pub enum PathError {
    /// A segment is not UTF-8.
    BadUtf8,
    /// More than [`MAX_PATH_SEGMENTS`] segments.
    TooLong,
    /// A segment is empty.
    EmptySegment,
}

/// The octets of a list of texts.
pub open spec fn texts_of(s: Seq<&str>) -> Seq<Seq<u8>> {
    Seq::new(s.len(), |i: int| s[i].spec_bytes())
}

/// The octets without leading slashes.
pub open spec fn strip_slashes(octets: Seq<u8>) -> Seq<u8>
    decreases octets.len(),
{
    if octets.len() > 0 && octets[0] == 0x2f {
        strip_slashes(octets.skip(1))
    } else {
        octets
    }
}

/// Position of the first slash, or the length.
pub open spec fn slash_at(octets: Seq<u8>) -> int
    decreases octets.len(),
{
    if octets.len() == 0 || octets[0] == 0x2f {
        0
    } else {
        1 + slash_at(octets.skip(1))
    }
}

/// What [`slash_at`] finds.
pub proof fn lemma_slash_at(octets: Seq<u8>)
    ensures
        0 <= slash_at(octets) <= octets.len(),
        slash_at(octets) < octets.len() ==> octets[slash_at(octets)] == 0x2f,
        forall|k: int| 0 <= k < slash_at(octets) ==> octets[k] != 0x2f,
    decreases octets.len(),
{
    if octets.len() > 0 && octets[0] != 0x2f {
        let rest = octets.skip(1);
        lemma_slash_at(rest);
        assert forall|k: int| 0 <= k < slash_at(octets) implies octets[k] != 0x2f by {
            if k > 0 {
                assert(octets[k] == rest[k - 1]);
            }
        }
        if slash_at(octets) < octets.len() {
            assert(octets[slash_at(octets)] == rest[slash_at(rest)]);
        }
    }
}

proof fn lemma_slash_at_is(octets: Seq<u8>, n: int)
    requires
        0 <= n <= octets.len(),
        n < octets.len() ==> octets[n] == 0x2f,
        forall|k: int| 0 <= k < n ==> octets[k] != 0x2f,
    ensures
        slash_at(octets) == n,
{
    lemma_slash_at(octets);
    let m = slash_at(octets);
    if m < n {
        assert(octets[m] != 0x2f);
    } else if n < m {
        assert(octets[n] != 0x2f);
    }
}

/// The pieces between slashes; there is always one.
pub open spec fn split_slashes(octets: Seq<u8>) -> Seq<Seq<u8>>
    decreases octets.len(),
    via split_slashes_decreases
{
    let n = slash_at(octets);
    if n >= octets.len() {
        seq![octets]
    } else {
        seq![octets.subrange(0, n)] + split_slashes(octets.skip(n + 1))
    }
}

#[via_fn]
proof fn split_slashes_decreases(octets: Seq<u8>) {
    lemma_slash_at(octets);
}

/// The segments of a slash-separated path; leading slashes are ignored.
pub open spec fn path_pieces(octets: Seq<u8>) -> Seq<Seq<u8>> {
    let rest = strip_slashes(octets);
    if rest.len() == 0 {
        Seq::empty()
    } else {
        split_slashes(rest)
    }
}

/// What is wrong with segments, going through them in order: an empty one,
/// or more than `cap` of them.
pub open spec fn segments_fault(segs: Seq<Seq<u8>>, cap: int) -> Option<PathError>
    decreases segs.len(),
{
    if segs.len() == 0 {
        None
    } else {
        match segments_fault(segs.drop_last(), cap) {
            Some(e) => Some(e),
            None => if segs.last().len() == 0 {
                Some(PathError::EmptySegment)
            } else if segs.len() > cap {
                Some(PathError::TooLong)
            } else {
                None
            },
        }
    }
}

/// What is wrong with a list of segments: more than `cap`, else an empty one.
pub open spec fn list_fault(segs: Seq<Seq<u8>>, cap: int) -> Option<PathError> {
    if segs.len() > cap {
        Some(PathError::TooLong)
    } else if exists|i: int| 0 <= i < segs.len() && (#[trigger] segs[i]).len() == 0 {
        Some(PathError::EmptySegment)
    } else {
        None
    }
}

proof fn lemma_fault_prefix(segs: Seq<Seq<u8>>, cap: int, n: int)
    requires
        0 <= n <= segs.len(),
        segments_fault(segs.subrange(0, n), cap).is_some(),
    ensures
        segments_fault(segs, cap) == segments_fault(segs.subrange(0, n), cap),
    decreases segs.len(),
{
    if n == segs.len() {
        assert(segs.subrange(0, n) =~= segs);
    } else {
        assert(segs.drop_last().subrange(0, n) =~= segs.subrange(0, n));
        lemma_fault_prefix(segs.drop_last(), cap, n);
    }
}

proof fn lemma_no_fault_fits(segs: Seq<Seq<u8>>, cap: int)
    requires
        segments_fault(segs, cap).is_none(),
    ensures
        segs.len() <= cap || segs.len() == 0,
        forall|i: int| 0 <= i < segs.len() ==> (#[trigger] segs[i]).len() > 0,
    decreases segs.len(),
{
    if segs.len() > 0 {
        lemma_no_fault_fits(segs.drop_last(), cap);
        assert forall|i: int| 0 <= i < segs.len() implies (#[trigger] segs[i]).len() > 0 by {
            if i < segs.len() - 1 {
                assert(segs.drop_last()[i] == segs[i]);
            }
        }
    }
}

/// Cut a text at a slash: what is in front, and what is behind.
fn cut_at_slash<'a>(text: &'a str, at: usize) -> (r: (&'a str, &'a str))
    requires
        at < text.spec_bytes().len(),
        text.spec_bytes()[at as int] == 0x2f,
    ensures
        r.0.spec_bytes() == text.spec_bytes().subrange(0, at as int),
        r.1.spec_bytes() == text.spec_bytes().skip(at as int + 1),
{
    let ghost all = text.spec_bytes();
    proof {
        vstd::utf8::encode_utf8_valid_utf8(text@);
        is_char_boundary_iff_not_is_continuation_byte(all, at as int);
        assert(is_char_boundary(all, at as int));
    }
    let (front, rest) = text.split_at(at);
    proof {
        let tail = rest.spec_bytes();
        assert(tail[0] == all[at as int]);
        vstd::utf8::encode_utf8_valid_utf8(rest@);
        assert(valid_utf8(tail));
        assert(length_of_first_scalar(tail) == 1);
        assert(is_char_boundary(pop_first_scalar(tail), 0));
        reveal_with_fuel(is_char_boundary, 3);
        assert(is_char_boundary(tail, 1));
    }
    let (_, behind) = rest.split_at(1);
    assert(behind.spec_bytes() =~= all.skip(at as int + 1));
    (front, behind)
}

/// Position of the first slash, or the length.
fn find_slash(octets: &[u8]) -> (n: usize)
    ensures
        n as int == slash_at(octets@),
        n <= octets@.len(),
{
    let mut n: usize = 0;
    while n < octets.len() && octets[n] != 0x2f
        invariant
            n <= octets@.len(),
            forall|k: int| 0 <= k < n ==> octets@[k] != 0x2f,
        decreases octets@.len() - n,
    {
        n = n + 1;
    }
    proof {
        lemma_slash_at_is(octets@, n as int);
    }
    n
}

fn without_leading_slashes(path: &'static str) -> (rest: &'static str)
    ensures
        rest.spec_bytes() == strip_slashes(path.spec_bytes()),
{
    let mut rest: &'static str = path;
    while rest.as_bytes().len() > 0 && rest.as_bytes()[0] == 0x2f
        invariant
            strip_slashes(rest.spec_bytes()) == strip_slashes(path.spec_bytes()),
        decreases rest.spec_bytes().len(),
    {
        let (_, behind) = cut_at_slash(rest, 0);
        rest = behind;
    }
    rest
}

/// The segments in front of the first that is empty or goes over `cap`; all of
/// them where there is none.
pub open spec fn sound_segments(segs: Seq<Seq<u8>>, cap: int) -> Seq<Seq<u8>>
    decreases segs.len(),
{
    if segs.len() == 0 {
        segs
    } else if segments_fault(segs.drop_last(), cap).is_some() {
        sound_segments(segs.drop_last(), cap)
    } else if segments_fault(segs, cap).is_some() {
        segs.drop_last()
    } else {
        segs
    }
}

proof fn lemma_sound_prefix(segs: Seq<Seq<u8>>, cap: int, n: int)
    requires
        0 <= n <= segs.len(),
        segments_fault(segs.subrange(0, n), cap).is_some(),
    ensures
        sound_segments(segs, cap) == sound_segments(segs.subrange(0, n), cap),
    decreases segs.len(),
{
    if n == segs.len() {
        assert(segs.subrange(0, n) =~= segs);
    } else {
        assert(segs.drop_last().subrange(0, n) =~= segs.subrange(0, n));
        lemma_fault_prefix(segs.drop_last(), cap, n);
        lemma_sound_prefix(segs.drop_last(), cap, n);
    }
}

/// The segments of a list in front of the first that is empty; none of them
/// where there are more than `cap`.
pub open spec fn sound_list(segs: Seq<Seq<u8>>, cap: int) -> Seq<Seq<u8>> {
    if segs.len() > cap {
        Seq::empty()
    } else {
        before_empty(segs)
    }
}

/// The segments in front of the first that is empty.
pub open spec fn before_empty(segs: Seq<Seq<u8>>) -> Seq<Seq<u8>>
    decreases segs.len(),
{
    if segs.len() == 0 {
        segs
    } else if before_empty(segs.drop_last()).len() < segs.len() - 1 || segs.last().len() == 0 {
        before_empty(segs.drop_last())
    } else {
        segs
    }
}

proof fn lemma_before_empty(segs: Seq<Seq<u8>>, n: int)
    requires
        0 <= n <= segs.len(),
        forall|k: int| 0 <= k < n ==> (#[trigger] segs[k]).len() > 0,
        n < segs.len() ==> segs[n].len() == 0,
    ensures
        before_empty(segs) == segs.subrange(0, n),
    decreases segs.len(),
{
    if segs.len() > 0 {
        let front = segs.drop_last();
        if n < segs.len() {
            lemma_before_empty(front, n);
            assert(front.subrange(0, n) =~= segs.subrange(0, n));
        } else {
            lemma_before_empty(front, n - 1);
            assert(front.subrange(0, n - 1) =~= front);
            assert(segs.subrange(0, n) =~= segs);
        }
    } else {
        assert(segs.subrange(0, n) =~= segs);
    }
}

/// These segments were written at the front of a buffer; the rest of it stays.
pub open spec fn segments_written(
    before: Seq<&'static str>,
    after: Seq<&'static str>,
    segs: Seq<Seq<u8>>,
) -> bool {
    &&& segs.len() <= before.len()
    &&& after.len() == before.len()
    &&& texts_of(after.subrange(0, segs.len() as int)) == segs
    &&& after.skip(segs.len() as int) == before.skip(segs.len() as int)
}

proof fn lemma_segment_written(
    before: Seq<&'static str>,
    after: Seq<&'static str>,
    segs: Seq<Seq<u8>>,
    seg: &'static str,
)
    requires
        segments_written(before, after, segs),
        segs.len() < before.len(),
    ensures
        segments_written(before, after.update(segs.len() as int, seg), segs.push(seg.spec_bytes())),
{
    let n = segs.len() as int;
    let then = after.update(n, seg);
    let front = after.subrange(0, n);
    assert(then.subrange(0, n + 1) =~= front.push(seg));
    assert(texts_of(front.push(seg)) =~= texts_of(front).push(seg.spec_bytes()));
    assert(then.skip(n + 1) =~= before.skip(n + 1)) by {
        assert forall|k: int| 0 <= k < before.len() - n - 1 implies #[trigger] then.skip(n + 1)[k]
            == before.skip(n + 1)[k] by {
            assert(after.skip(n)[k + 1] == before.skip(n)[k + 1]);
        }
    }
}

/// Split a slash-separated path into `out`; gives the number of segments.
///
/// What is in front of a segment that is refused is written all the same.
pub fn split_path(path: &'static str, out: &mut [&'static str]) -> (r: Result<usize, PathError>)
    ensures
        segments_written(
            old(out)@,
            final(out)@,
            sound_segments(path_pieces(path.spec_bytes()), old(out)@.len() as int),
        ),
        match segments_fault(path_pieces(path.spec_bytes()), old(out)@.len() as int) {
            Some(e) => r == Err::<usize, PathError>(e),
            None => r matches Ok(n) && n == path_pieces(path.spec_bytes()).len(),
        },
{
    let mut n: usize = 0;
    let mut rest: &'static str = without_leading_slashes(path);
    let ghost pieces = path_pieces(path.spec_bytes());
    let ghost before = out@;
    let ghost cap = out@.len() as int;
    let ghost mut done = Seq::<Seq<u8>>::empty();
    assert(texts_of(before.subrange(0, 0)) =~= done);
    if rest.as_bytes().len() == 0 {
        return Ok(0);
    }
    assert(done + split_slashes(rest.spec_bytes()) =~= pieces);
    assert(pieces.subrange(0, 0).len() == 0);
    loop
        invariant
            pieces == done + split_slashes(rest.spec_bytes()),
            pieces == path_pieces(path.spec_bytes()),
            done.len() == n,
            before == old(out)@,
            cap == before.len(),
            segments_written(before, out@, done),
            segments_fault(pieces.subrange(0, n as int), cap).is_none(),
        decreases rest.spec_bytes().len(),
    {
        let octets = rest.as_bytes();
        let at: usize = find_slash(octets);
        let ghost tail = split_slashes(rest.spec_bytes());
        let ghost next = pieces.subrange(0, n as int + 1);
        assert(pieces.subrange(0, n as int) =~= done);
        if at >= octets.len() {
            proof {
                assert(tail =~= seq![rest.spec_bytes()]);
                assert(next =~= pieces);
                assert(next.drop_last() =~= done);
                assert(pieces.last() == rest.spec_bytes());
            }
            if octets.len() == 0 {
                return Err(PathError::EmptySegment);
            }
            if n >= out.len() {
                return Err(PathError::TooLong);
            }
            proof {
                lemma_segment_written(before, out@, done, rest);
                assert(done.push(rest.spec_bytes()) =~= pieces);
            }
            out[n] = rest;
            return Ok(n + 1);
        }
        proof {
            lemma_slash_at(rest.spec_bytes());
        }
        let (front, behind) = cut_at_slash(rest, at);
        proof {
            let more = split_slashes(behind.spec_bytes());
            assert(tail == seq![front.spec_bytes()] + more);
            assert(next.drop_last() =~= done);
            assert(next.last() == front.spec_bytes());
        }
        if at == 0 {
            proof {
                lemma_fault_prefix(pieces, cap, n as int + 1);
                lemma_sound_prefix(pieces, cap, n as int + 1);
            }
            return Err(PathError::EmptySegment);
        }
        if n >= out.len() {
            proof {
                lemma_fault_prefix(pieces, cap, n as int + 1);
                lemma_sound_prefix(pieces, cap, n as int + 1);
            }
            return Err(PathError::TooLong);
        }
        proof {
            lemma_segment_written(before, out@, done, front);
            done = done.push(front.spec_bytes());
            assert(done + split_slashes(behind.spec_bytes()) =~= pieces);
        }
        out[n] = front;
        n = n + 1;
        rest = behind;
    }
}

/// Copy a list of segments into `out`; gives their number.
///
/// What is in front of an empty segment is written all the same.
fn path_from_segments(segs: &[&'static str], out: &mut [&'static str]) -> (r: Result<
    usize,
    PathError,
>)
    ensures
        segments_written(
            old(out)@,
            final(out)@,
            sound_list(texts_of(segs@), old(out)@.len() as int),
        ),
        match list_fault(texts_of(segs@), old(out)@.len() as int) {
            Some(e) => r == Err::<usize, PathError>(e),
            None => r matches Ok(n) && n == segs@.len(),
        },
{
    let ghost before = out@;
    let ghost all = texts_of(segs@);
    assert(texts_of(before.subrange(0, 0)) =~= all.subrange(0, 0));
    if segs.len() > out.len() {
        assert(texts_of(before.subrange(0, 0)) =~= Seq::<Seq<u8>>::empty());
        return Err(PathError::TooLong);
    }
    let mut i: usize = 0;
    while i < segs.len()
        invariant
            before == old(out)@,
            all == texts_of(segs@),
            i <= segs@.len() <= before.len(),
            segments_written(before, out@, all.subrange(0, i as int)),
            forall|k: int| 0 <= k < i ==> (#[trigger] all[k]).len() > 0,
        decreases segs@.len() - i,
    {
        let seg: &'static str = segs[i];
        assert(all[i as int] == seg.spec_bytes());
        if seg.as_bytes().len() == 0 {
            proof {
                lemma_before_empty(all, i as int);
            }
            return Err(PathError::EmptySegment);
        }
        proof {
            lemma_segment_written(before, out@, all.subrange(0, i as int), seg);
            assert(all.subrange(0, i as int).push(seg.spec_bytes()) =~= all.subrange(0, i + 1));
        }
        out[i] = seg;
        i = i + 1;
    }
    proof {
        lemma_before_empty(all, i as int);
    }
    Ok(segs.len())
}

/// What can be given as a path: a slash-separated text, or a list of segments.
pub trait IntoPath: Sized {
    /// Why the path is refused, if there is room for so many segments.
    spec fn fault(&self, room: int) -> Option<PathError>;

    /// The segments that are written where there is room for so many.
    spec fn written(&self, room: int) -> Seq<Seq<u8>>;

    /// Write the segments into `out`; gives their number.
    fn fill_path(self, out: &mut [&'static str]) -> (r: Result<usize, PathError>)
        ensures
            segments_written(old(out)@, final(out)@, self.written(old(out)@.len() as int)),
            match self.fault(old(out)@.len() as int) {
                Some(e) => r == Err::<usize, PathError>(e),
                None => r matches Ok(n) && n == self.written(old(out)@.len() as int).len(),
            },
    ;
}

/// The segments of a path, or why they are refused.
pub open spec fn segments_of<Q: IntoPath>(path: Q) -> Result<Seq<Seq<u8>>, PathError> {
    match path.fault(MAX_PATH_SEGMENTS as int) {
        Some(e) => Err(e),
        None => Ok(path.written(MAX_PATH_SEGMENTS as int)),
    }
}

/// The segments of a path, or why they are refused.
pub fn path_from_into<Q: IntoPath>(path: Q) -> (r: Result<Vec<&'static str>, PathError>)
    ensures
        match segments_of(path) {
            Ok(segs) => r matches Ok(out) && texts_of(out@) == segs,
            Err(e) => r == Err::<Vec<&'static str>, PathError>(e),
        },
{
    let mut segs: Vec<&'static str> = Vec::new();
    segs.resize(MAX_PATH_SEGMENTS, "");
    match path.fill_path(segs.as_mut_slice()) {
        Ok(n) => {
            segs.truncate(n);
            Ok(segs)
        },
        Err(e) => Err(e),
    }
}

impl IntoPath for &'static str {
    open spec fn fault(&self, room: int) -> Option<PathError> {
        segments_fault(path_pieces(self.spec_bytes()), room)
    }

    open spec fn written(&self, room: int) -> Seq<Seq<u8>> {
        sound_segments(path_pieces(self.spec_bytes()), room)
    }

    fn fill_path(self, out: &mut [&'static str]) -> (r: Result<usize, PathError>) {
        split_path(self, out)
    }
}

impl<'b> IntoPath for &'b [&'static str] {
    open spec fn fault(&self, room: int) -> Option<PathError> {
        list_fault(texts_of(self@), room)
    }

    open spec fn written(&self, room: int) -> Seq<Seq<u8>> {
        sound_list(texts_of(self@), room)
    }

    fn fill_path(self, out: &mut [&'static str]) -> (r: Result<usize, PathError>) {
        let r = path_from_segments(self, out);
        proof {
            lemma_whole_list(texts_of(self@));
        }
        r
    }
}

impl<'b, const N: usize> IntoPath for &'b [&'static str; N] {
    open spec fn fault(&self, room: int) -> Option<PathError> {
        list_fault(texts_of(self@), room)
    }

    open spec fn written(&self, room: int) -> Seq<Seq<u8>> {
        sound_list(texts_of(self@), room)
    }

    fn fill_path(self, out: &mut [&'static str]) -> (r: Result<usize, PathError>) {
        let r = path_from_segments(self.as_slice(), out);
        proof {
            lemma_whole_list(texts_of(self@));
        }
        r
    }
}

proof fn lemma_whole_list(segs: Seq<Seq<u8>>)
    ensures
        (forall|i: int| 0 <= i < segs.len() ==> (#[trigger] segs[i]).len() > 0) ==> before_empty(
            segs,
        ) == segs,
{
    if forall|i: int| 0 <= i < segs.len() ==> (#[trigger] segs[i]).len() > 0 {
        lemma_before_empty(segs, segs.len() as int);
        assert(segs.subrange(0, segs.len() as int) =~= segs);
    }
}

/// Why the Uri-Path of a message is refused, going through it in order.
pub open spec fn uri_path_fault(values: Seq<Seq<u8>>) -> Option<PathError>
    decreases values.len(),
{
    if values.len() == 0 {
        None
    } else {
        match uri_path_fault(values.drop_last()) {
            Some(e) => Some(e),
            None => if !valid_utf8(values.last()) {
                Some(PathError::BadUtf8)
            } else if values.len() > MAX_PATH_SEGMENTS {
                Some(PathError::TooLong)
            } else {
                None
            },
        }
    }
}

proof fn lemma_uri_fault_prefix(values: Seq<Seq<u8>>, n: int)
    requires
        0 <= n <= values.len(),
        uri_path_fault(values.subrange(0, n)).is_some(),
    ensures
        uri_path_fault(values) == uri_path_fault(values.subrange(0, n)),
    decreases values.len(),
{
    if n == values.len() {
        assert(values.subrange(0, n) =~= values);
    } else {
        assert(values.drop_last().subrange(0, n) =~= values.subrange(0, n));
        lemma_uri_fault_prefix(values.drop_last(), n);
    }
}

/// The Uri-Path of a message.
pub fn path_of_message<'a>(m: &ParsedMessage<'a>) -> (r: Result<Vec<&'a str>, PathError>)
    ensures
        match uri_path_fault(values_of(m@.options, 11)) {
            Some(e) => r == Err::<Vec<&'a str>, PathError>(e),
            None => r matches Ok(segs) && texts_of(segs@) == values_of(m@.options, 11),
        },
{
    let all = m.uri_path();
    let ghost values = values_of(m@.options, 11);
    let mut segs: Vec<&'a str> = Vec::new();
    let mut i: usize = 0;
    assert(texts_of(segs@) =~= values.subrange(0, 0));
    while i < all.len()
        invariant
            i <= all@.len(),
            all@.len() == values.len(),
            values == values_of(m@.options, 11),
            segs@.len() == i,
            forall|k: int| 0 <= k < all@.len() ==> #[trigger] text_value(all@[k], values[k]),
            texts_of(segs@) == values.subrange(0, i as int),
            uri_path_fault(values.subrange(0, i as int)).is_none(),
        decreases all@.len() - i,
    {
        let ghost next = values.subrange(0, i + 1);
        assert(next.drop_last() =~= values.subrange(0, i as int));
        assert(next.last() == values[i as int]);
        assert(text_value(all@[i as int], values[i as int]));
        match all[i] {
            Ok(seg) => {
                if i >= MAX_PATH_SEGMENTS {
                    proof {
                        lemma_uri_fault_prefix(values, i + 1);
                    }
                    return Err(PathError::TooLong);
                }
                let ghost before = segs@;
                segs.push(seg);
                assert(texts_of(segs@) =~= texts_of(before).push(seg.spec_bytes()));
                assert(texts_of(segs@) =~= next);
            },
            Err(_) => {
                proof {
                    lemma_uri_fault_prefix(values, i + 1);
                }
                return Err(PathError::BadUtf8);
            },
        }
        i = i + 1;
    }
    assert(values.subrange(0, i as int) =~= values);
    Ok(segs)
}

/// Are two lists of segments the same?
pub fn same_path(a: &[&str], b: &[&str]) -> (same: bool)
    ensures
        same == (texts_of(a@) == texts_of(b@)),
{
    if a.len() != b.len() {
        assert(texts_of(a@).len() != texts_of(b@).len());
        return false;
    }
    let mut i: usize = 0;
    while i < a.len()
        invariant
            a@.len() == b@.len(),
            i <= a@.len(),
            forall|k: int| 0 <= k < i ==> texts_of(a@)[k] == texts_of(b@)[k],
        decreases a@.len() - i,
    {
        if !bytes_eq(a[i].as_bytes(), b[i].as_bytes()) {
            assert(texts_of(a@)[i as int] != texts_of(b@)[i as int]);
            return false;
        }
        i = i + 1;
    }
    assert(texts_of(a@) =~= texts_of(b@));
    true
}

} // verus!
