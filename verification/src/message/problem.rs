//! Concise problem details: a small CBOR map.
use vstd::prelude::*;
use vstd::string::StringSliceAdditionalSpecFns;
use vstd::utf8::valid_utf8;

use super::cbor::{decode_head, head_wire, lemma_head_round_trip, push_head, read_head, CborError};
use super::code::Code;
use crate::error::ValueError;

verus! {

/// The declared type of [`core::str::from_utf8`]'s error.
#[verifier::external_type_specification]
#[verifier::external_body]
pub struct ExUtf8Error(core::str::Utf8Error);

/// [`core::str::from_utf8`] accepts exactly the valid UTF-8 octet strings,
/// and the string it gives back has those octets.
pub assume_specification[ core::str::from_utf8 ](v: &[u8]) -> (r: Result<
    &str,
    core::str::Utf8Error,
>)
    ensures
        r.is_ok() == valid_utf8(v@),
        r matches Ok(s) ==> s.spec_bytes() == v@,
;

/// Read octets as text.
pub fn text_of<'a>(octets: &'a [u8]) -> (r: Result<&'a str, ValueError>)
    ensures
        r.is_ok() == valid_utf8(octets@),
        r matches Ok(s) ==> s.spec_bytes() == octets@,
        r matches Err(e) ==> e == ValueError::InvalidUtf8,
{
    match core::str::from_utf8(octets) {
        Ok(s) => Ok(s),
        Err(_) => Err(ValueError::InvalidUtf8),
    }
}

/// What problem details say; texts are their UTF-8 octets.
pub struct ProblemView {
    /// Response code.
    pub code: Option<Code>,
    /// Short summary.
    pub title: Option<Seq<u8>>,
    /// Longer explanation.
    pub detail: Option<Seq<u8>>,
}

/// Problem details; texts are borrowed.
#[derive(Clone, Copy, Debug)]
pub struct ProblemDetails<'a> {
    code: Option<Code>,
    title: Option<&'a str>,
    detail: Option<&'a str>,
}

/// The octets of an optional text.
pub open spec fn text_octets(text: Option<&str>) -> Option<Seq<u8>> {
    match text {
        Some(s) => Some(s.spec_bytes()),
        None => None,
    }
}

impl<'a> View for ProblemDetails<'a> {
    type V = ProblemView;

    closed spec fn view(&self) -> ProblemView {
        ProblemView {
            code: self.code,
            title: text_octets(self.title),
            detail: text_octets(self.detail),
        }
    }
}

/// A text entry of the map: a negative key, then the text.
pub open spec fn text_entry(key: int, text: Option<Seq<u8>>) -> Seq<u8> {
    match text {
        Some(octets) => head_wire(1, key) + (head_wire(3, octets.len() as int) + octets),
        None => Seq::empty(),
    }
}

/// The response code entry of the map.
pub open spec fn code_entry(code: Option<Code>) -> Seq<u8> {
    match code {
        Some(c) => head_wire(1, 3) + head_wire(0, c.raw() as int),
        None => Seq::empty(),
    }
}

/// Entries of the map.
pub open spec fn entry_count(p: ProblemView) -> int {
    (if p.title.is_some() {
        1int
    } else {
        0
    }) + (if p.detail.is_some() {
        1int
    } else {
        0
    }) + (if p.code.is_some() {
        1int
    } else {
        0
    })
}

/// The details on the wire: title, detail, response code.
pub open spec fn problem_wire(p: ProblemView) -> Seq<u8> {
    head_wire(5, entry_count(p)) + (text_entry(0, p.title) + (text_entry(1, p.detail) + code_entry(
        p.code,
    )))
}

/// One entry read from the map.
pub struct EntryRead {
    /// The details with the entry added.
    pub next: ProblemView,
    /// What follows the entry.
    pub rest: Seq<u8>,
}

/// Read one entry of the map, on top of what was read so far.
#[verifier::opaque]
pub open spec fn read_entry(bytes: Seq<u8>, so_far: ProblemView) -> Option<EntryRead> {
    match read_head(bytes) {
        None => None,
        Some(key) => {
            let at_value = bytes.skip(key.used);
            match read_head(at_value) {
                None => None,
                Some(value) => {
                    let behind = at_value.skip(value.used);
                    let text = behind.subrange(0, value.arg);
                    if key.major != 1 {
                        None
                    } else if value.major == 3 && key.arg != 3 && value.arg <= behind.len()
                        && valid_utf8(text) {
                        Some(
                            EntryRead {
                                next: if key.arg == 0 {
                                    ProblemView { title: Some(text), ..so_far }
                                } else if key.arg == 1 {
                                    ProblemView { detail: Some(text), ..so_far }
                                } else {
                                    so_far
                                },
                                rest: behind.skip(value.arg),
                            },
                        )
                    } else if value.major == 0 && key.arg != 0 && key.arg != 1 && !(key.arg == 3
                        && value.arg > 255) {
                        Some(
                            EntryRead {
                                next: if key.arg == 3 {
                                    ProblemView {
                                        code: Some(Code::of_raw(value.arg as u8)),
                                        ..so_far
                                    }
                                } else {
                                    so_far
                                },
                                rest: behind,
                            },
                        )
                    } else {
                        None
                    }
                },
            }
        },
    }
}

/// Read `left` entries of the map, on top of what was read so far.
pub open spec fn read_entries(bytes: Seq<u8>, left: nat, so_far: ProblemView) -> Option<ProblemView>
    decreases left,
{
    if left == 0 {
        if bytes.len() == 0 {
            Some(so_far)
        } else {
            None
        }
    } else {
        match read_entry(bytes, so_far) {
            None => None,
            Some(e) => read_entries(e.rest, (left - 1) as nat, e.next),
        }
    }
}

/// No details at all.
pub open spec fn no_problem() -> ProblemView {
    ProblemView { code: None, title: None, detail: None }
}

/// Read a payload as problem details: one map of titles, details, response
/// codes, and entries under other negative keys, which are passed over.
pub open spec fn read_problem(bytes: Seq<u8>) -> Option<ProblemView> {
    match read_head(bytes) {
        None => None,
        Some(h) => if h.major != 5 {
            None
        } else {
            read_entries(bytes.skip(h.used), h.arg as nat, no_problem())
        },
    }
}

/// Can the details be written and read back: texts valid and below 2^32
/// octets, the code named as decoding names it?
pub open spec fn problem_ok(p: ProblemView) -> bool {
    &&& p.title matches Some(t) ==> valid_utf8(t) && t.len() < 0x100000000
    &&& p.detail matches Some(t) ==> valid_utf8(t) && t.len() < 0x100000000
    &&& p.code matches Some(c) ==> c.canonical()
}

proof fn lemma_read_text_entry(key: int, text: Seq<u8>, rest: Seq<u8>, so_far: ProblemView)
    requires
        key == 0 || key == 1,
        valid_utf8(text),
        text.len() < 0x100000000,
    ensures
        read_entry(text_entry(key, Some(text)) + rest, so_far) == Some(
            EntryRead {
                next: if key == 0 {
                    ProblemView { title: Some(text), ..so_far }
                } else {
                    ProblemView { detail: Some(text), ..so_far }
                },
                rest,
            },
        ),
{
    reveal(read_entry);
    let k = head_wire(1, key);
    let v = head_wire(3, text.len() as int);
    let bytes = text_entry(key, Some(text)) + rest;
    lemma_head_round_trip(1, key, v + (text + rest));
    lemma_head_round_trip(3, text.len() as int, text + rest);
    assert(bytes =~= k + (v + (text + rest)));
    assert(bytes.skip(k.len() as int) =~= v + (text + rest));
    assert((v + (text + rest)).skip(v.len() as int) =~= text + rest);
    assert((text + rest).subrange(0, text.len() as int) =~= text);
    assert((text + rest).skip(text.len() as int) =~= rest);
}

proof fn lemma_read_code_entry(c: Code, so_far: ProblemView)
    requires
        c.canonical(),
    ensures
        read_entry(code_entry(Some(c)), so_far) == Some(
            EntryRead { next: ProblemView { code: Some(c), ..so_far }, rest: Seq::empty() },
        ),
{
    reveal(read_entry);
    let raw = c.raw();
    let k = head_wire(1, 3);
    let v = head_wire(0, raw as int);
    let none = Seq::<u8>::empty();
    let bytes = code_entry(Some(c));
    lemma_head_round_trip(1, 3, v);
    lemma_head_round_trip(0, raw as int, none);
    assert(v + none =~= v);
    assert(bytes.skip(k.len() as int) =~= v);
    assert(v.skip(v.len() as int) =~= none);
    assert(Code::of_raw(raw) == c);
}

/// Details that were written are read back.
pub proof fn law_problem_round_trip(p: ProblemView)
    requires
        problem_ok(p),
    ensures
        read_problem(problem_wire(p)) == Some(p),
{
    let n = entry_count(p);
    let w3 = code_entry(p.code);
    let w2 = text_entry(1, p.detail) + w3;
    let w1 = text_entry(0, p.title) + w2;
    let head = head_wire(5, n);
    lemma_head_round_trip(5, n, w1);
    assert((head + w1).skip(head.len() as int) =~= w1);
    let n2: nat = (n - if p.title.is_some() {
        1int
    } else {
        0
    }) as nat;
    let after_title = ProblemView { code: None, title: p.title, detail: None };
    if p.title.is_some() {
        lemma_read_text_entry(0, p.title->0, w2, no_problem());
    } else {
        assert(w1 =~= w2);
    }
    assert(read_entries(w1, n as nat, no_problem()) == read_entries(w2, n2, after_title));
    let n3: nat = (n2 - if p.detail.is_some() {
        1int
    } else {
        0
    }) as nat;
    let after_detail = ProblemView { code: None, title: p.title, detail: p.detail };
    if p.detail.is_some() {
        lemma_read_text_entry(1, p.detail->0, w3, after_title);
    } else {
        assert(w2 =~= w3);
    }
    assert(read_entries(w2, n2, after_title) == read_entries(w3, n3, after_detail));
    if p.code.is_some() {
        lemma_read_code_entry(p.code->0, after_detail);
        assert(n3 == 1);
        let e = read_entry(w3, after_detail)->0;
        assert(read_entries(w3, n3, after_detail) == read_entries(e.rest, 0, e.next));
    }
}

fn push_text(out: &mut Vec<u8>, key: u32, text: Option<&str>)
    requires
        text matches Some(s) ==> s.spec_bytes().len() <= u32::MAX,
    ensures
        final(out)@ == old(out)@ + text_entry(key as int, text_octets(text)),
{
    let ghost before = out@;
    if let Some(s) = text {
        let octets = s.as_bytes();
        push_head(out, 1, key);
        push_head(out, 3, octets.len() as u32);
        crate::bytes::append(out, octets);
    }
    assert(out@ =~= before + text_entry(key as int, text_octets(text)));
}

impl<'a> ProblemDetails<'a> {
    /// Details that name a response code only.
    pub fn new(code: Code) -> (p: ProblemDetails<'a>)
        ensures
            p@ == (ProblemView { code: Some(code), title: None, detail: None }),
    {
        ProblemDetails { code: Some(code), title: None, detail: None }
    }

    /// Set the summary.
    pub fn title(self, title: &'a str) -> (p: ProblemDetails<'a>)
        ensures
            p@ == (ProblemView { title: Some(title.spec_bytes()), ..self@ }),
    {
        let mut p = self;
        p.title = Some(title);
        p
    }

    /// Set the explanation.
    pub fn detail(self, detail: &'a str) -> (p: ProblemDetails<'a>)
        ensures
            p@ == (ProblemView { detail: Some(detail.spec_bytes()), ..self@ }),
    {
        let mut p = self;
        p.detail = Some(detail);
        p
    }

    /// The response code.
    pub fn response_code(&self) -> (c: Option<Code>)
        ensures
            c == self@.code,
    {
        self.code
    }

    /// The summary.
    pub fn title_text(&self) -> (t: Option<&'a str>)
        ensures
            text_octets(t) == self@.title,
    {
        self.title
    }

    /// The explanation.
    pub fn detail_text(&self) -> (t: Option<&'a str>)
        ensures
            text_octets(t) == self@.detail,
    {
        self.detail
    }

    /// The details as a payload; texts are below 2^32 octets.
    pub fn encode(&self) -> (out: Vec<u8>)
        requires
            self@.title matches Some(t) ==> t.len() <= u32::MAX,
            self@.detail matches Some(t) ==> t.len() <= u32::MAX,
        ensures
            out@ == problem_wire(self@),
    {
        let mut n: u32 = 0;
        if self.title.is_some() {
            n = n + 1;
        }
        if self.detail.is_some() {
            n = n + 1;
        }
        if self.code.is_some() {
            n = n + 1;
        }
        let mut out: Vec<u8> = Vec::new();
        push_head(&mut out, 5, n);
        push_text(&mut out, 0, self.title);
        push_text(&mut out, 1, self.detail);
        if let Some(c) = self.code {
            push_head(&mut out, 1, 3);
            push_head(&mut out, 0, c.to_raw() as u32);
        }
        assert(out@ =~= problem_wire(self@));
        out
    }

    /// Read a payload as problem details.
    pub fn decode(payload: &'a [u8]) -> (r: Result<ProblemDetails<'a>, CborError>)
        ensures
            r.is_ok() == read_problem(payload@).is_some(),
            r matches Ok(p) ==> read_problem(payload@) == Some(p@),
    {
        let head = match decode_head(payload) {
            Some(head) => head,
            None => return Err(CborError),
        };
        if head.major != 5 {
            return Err(CborError);
        }
        let mut rest: &'a [u8] = &payload[head.used..payload.len()];
        assert(rest@ =~= payload@.skip(head.used as int));
        let mut p: ProblemDetails<'a> = ProblemDetails { code: None, title: None, detail: None };
        let mut left: u32 = head.arg;
        while left > 0
            invariant
                read_problem(payload@) == read_entries(rest@, left as nat, p@),
            decreases left,
        {
            match p.decode_entry(rest) {
                Some((next, behind)) => {
                    p = next;
                    rest = behind;
                },
                None => return Err(CborError),
            }
            left = left - 1;
        }
        if rest.len() != 0 {
            return Err(CborError);
        }
        Ok(p)
    }

    fn decode_entry(self, bytes: &'a [u8]) -> (r: Option<(ProblemDetails<'a>, &'a [u8])>)
        ensures
            r.is_some() == read_entry(bytes@, self@).is_some(),
            r matches Some(e) ==> read_entry(bytes@, self@) == Some(
                EntryRead { next: e.0@, rest: e.1@ },
            ),
    {
        proof {
            reveal(read_entry);
        }
        let mut p = self;
        let key = decode_head(bytes)?;
        let at_value: &'a [u8] = &bytes[key.used..bytes.len()];
        assert(at_value@ =~= bytes@.skip(key.used as int));
        let value = decode_head(at_value)?;
        let behind: &'a [u8] = &at_value[value.used..at_value.len()];
        assert(behind@ =~= at_value@.skip(value.used as int));
        if key.major != 1 {
            return None;
        }
        if value.major == 3 && key.arg != 3 && value.arg as usize <= behind.len() {
            let n: usize = value.arg as usize;
            let text: &'a str = match text_of(&behind[0..n]) {
                Ok(text) => text,
                Err(_) => return None,
            };
            let next: &'a [u8] = &behind[n..behind.len()];
            assert(next@ =~= behind@.skip(n as int));
            if key.arg == 0 {
                p.title = Some(text);
            } else if key.arg == 1 {
                p.detail = Some(text);
            }
            Some((p, next))
        } else if value.major == 0 && key.arg != 0 && key.arg != 1 && !(key.arg == 3 && value.arg
            > 255) {
            if key.arg == 3 {
                p.code = Some(Code::from_raw(value.arg as u8));
            }
            Some((p, behind))
        } else {
            None
        }
    }
}

} // verus!
