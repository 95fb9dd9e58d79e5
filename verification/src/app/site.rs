//! The table of routes.
use vstd::prelude::*;
use vstd::string::StringSliceAdditionalSpecFns;

use super::path::{path_from_into, same_path, segments_of, texts_of, IntoPath};
use super::request::{Request, RequestView};
use super::response::{
    bare_response, titled_problem, Response, ResponseView, INLINE_PAYLOAD, RESPONSE_BODY,
};
use super::routing::{
    method_not_allowed_problem, not_allowed, Handler, Method, MethodRouter, ObserveSource,
};
use crate::bytes::append;
use crate::message::{Code, ContentFormat};

verus! {

/// Routes that an app has room for unless told otherwise.
pub const DEFAULT_ROUTES: usize = 8;

/// Catalog bytes budgeted for one route.
pub const LINK_FORMAT_PER_ROUTE: usize = 24;

/// Catalog bytes for a site of `n` routes.
pub open spec fn catalog_capacity(n: int) -> int {
    if n * LINK_FORMAT_PER_ROUTE < INLINE_PAYLOAD {
        INLINE_PAYLOAD as int
    } else if n * LINK_FORMAT_PER_ROUTE > RESPONSE_BODY {
        RESPONSE_BODY as int
    } else {
        n * LINK_FORMAT_PER_ROUTE
    }
}

/// Catalog bytes for a site of `N` routes.
pub fn link_format_capacity<const N: usize>() -> (n: usize)
    ensures
        n as int == catalog_capacity(N as int),
{
    if N > RESPONSE_BODY / LINK_FORMAT_PER_ROUTE {
        RESPONSE_BODY
    } else if N * LINK_FORMAT_PER_ROUTE < INLINE_PAYLOAD {
        INLINE_PAYLOAD
    } else {
        N * LINK_FORMAT_PER_ROUTE
    }
}

/// A buffer as large as the catalog of a site of `N` routes may be.
pub struct LinkFormatScratch<const N: usize> {
    bytes: Vec<u8>,
}

impl<const N: usize> LinkFormatScratch<N> {
    /// How large the buffer is.
    pub closed spec fn size(&self) -> nat {
        self.bytes@.len()
    }

    /// A zeroed buffer.
    pub fn new() -> (s: LinkFormatScratch<N>)
        ensures
            s.size() == catalog_capacity(N as int),
    {
        let mut bytes: Vec<u8> = Vec::new();
        bytes.resize(link_format_capacity::<N>(), 0);
        LinkFormatScratch { bytes }
    }

    /// Borrow the buffer.
    pub fn as_mut(&mut self) -> (s: &mut [u8])
        ensures
            s@.len() == old(self).size(),
            final(self).size() == final(s)@.len(),
    {
        self.bytes.as_mut_slice()
    }
}

/// One route.
pub struct Entry {
    /// Uri-Path segments.
    pub path: Vec<&'static str>,
    /// What answers there.
    pub methods: MethodRouter,
}

/// At most `N` routes.
pub struct Site<const N: usize> {
    /// The routes, in the order in which they were added.
    pub entries: Vec<Entry>,
    /// Is the catalog served?
    pub well_known: bool,
}

/// Position of the first route with this path.
pub open spec fn route_at(entries: Seq<Entry>, path: Seq<Seq<u8>>) -> Option<int>
    decreases entries.len(),
{
    if entries.len() == 0 {
        None
    } else {
        match route_at(entries.drop_last(), path) {
            Some(i) => Some(i),
            None => if texts_of(entries.last().path@) == path {
                Some(entries.len() - 1)
            } else {
                None
            },
        }
    }
}

/// What [`route_at`] finds.
pub proof fn lemma_route_at(entries: Seq<Entry>, path: Seq<Seq<u8>>)
    ensures
        route_at(entries, path) matches Some(i) ==> 0 <= i < entries.len() && texts_of(
            entries[i].path@,
        ) == path,
        route_at(entries, path).is_none() ==> forall|k: int|
            0 <= k < entries.len() ==> texts_of((#[trigger] entries[k]).path@) != path,
    decreases entries.len(),
{
    if entries.len() > 0 {
        let front = entries.drop_last();
        lemma_route_at(front, path);
        assert(forall|k: int| 0 <= k < front.len() ==> front[k] == entries[k]);
    }
}

proof fn lemma_route_prefix(entries: Seq<Entry>, path: Seq<Seq<u8>>, n: int)
    requires
        0 <= n <= entries.len(),
        route_at(entries.subrange(0, n), path).is_some(),
    ensures
        route_at(entries, path) == route_at(entries.subrange(0, n), path),
    decreases entries.len(),
{
    if n == entries.len() {
        assert(entries.subrange(0, n) =~= entries);
    } else {
        assert(entries.drop_last().subrange(0, n) =~= entries.subrange(0, n));
        lemma_route_prefix(entries.drop_last(), path, n);
    }
}

/// Segments with a slash in front of each.
pub open spec fn slashed(segs: Seq<Seq<u8>>) -> Seq<u8>
    decreases segs.len(),
{
    if segs.len() == 0 {
        Seq::empty()
    } else {
        slashed(segs.drop_last()) + (seq![0x2fu8] + segs.last())
    }
}

/// The link to a path: its slash-separated form in angle brackets.
pub open spec fn link_of(segs: Seq<Seq<u8>>) -> Seq<u8> {
    seq![0x3cu8] + (if segs.len() == 0 {
        seq![0x2fu8]
    } else {
        slashed(segs)
    }) + seq![0x3eu8]
}

/// The links to all routes, separated by commas.
pub open spec fn catalog_of(entries: Seq<Entry>) -> Seq<u8>
    decreases entries.len(),
{
    if entries.len() == 0 {
        Seq::empty()
    } else {
        let front = catalog_of(entries.drop_last());
        let link = link_of(texts_of(entries.last().path@));
        if entries.len() == 1 {
            link
        } else {
            front + (seq![0x2cu8] + link)
        }
    }
}

/// What is written of the catalog where there is room for `room` bytes: whole
/// links, in order, until one does not fit, and the comma in front of that one
/// if it does.
pub open spec fn catalog_written(entries: Seq<Entry>, room: int) -> Seq<u8>
    decreases entries.len(),
{
    if entries.len() == 0 {
        Seq::empty()
    } else {
        let front = catalog_written(entries.drop_last(), room);
        let link = link_of(texts_of(entries.last().path@));
        let lead = if entries.len() == 1 {
            front
        } else {
            front.push(0x2cu8)
        };
        if catalog_of(entries.drop_last()).len() > room || lead.len() > room {
            front
        } else if lead.len() + link.len() > room {
            lead
        } else {
            lead + link
        }
    }
}

/// What fits is written whole.
proof fn lemma_catalog_written(entries: Seq<Entry>, room: int)
    requires
        0 <= room,
    ensures
        catalog_written(entries, room).len() <= room,
        catalog_of(entries).len() <= room ==> catalog_written(entries, room) == catalog_of(entries),
    decreases entries.len(),
{
    if entries.len() > 0 {
        lemma_catalog_written(entries.drop_last(), room);
        let front = catalog_of(entries.drop_last());
        let link = link_of(texts_of(entries.last().path@));
        if entries.len() == 1 {
            assert(front + link =~= link);
        } else {
            assert(front.push(0x2cu8) + link =~= front + (seq![0x2cu8] + link));
        }
    }
}

/// Once something did not fit, nothing more is written.
proof fn lemma_catalog_stops(entries: Seq<Entry>, room: int, n: int)
    requires
        0 <= n <= entries.len(),
        catalog_of(entries.subrange(0, n)).len() > room,
    ensures
        catalog_of(entries).len() > room,
        catalog_written(entries, room) == catalog_written(entries.subrange(0, n), room),
    decreases entries.len(),
{
    if n == entries.len() {
        assert(entries.subrange(0, n) =~= entries);
    } else {
        assert(entries.drop_last().subrange(0, n) =~= entries.subrange(0, n));
        lemma_catalog_stops(entries.drop_last(), room, n);
    }
}

/// A buffer with bytes written at its front.
pub open spec fn overwritten(buf: Seq<u8>, front: Seq<u8>) -> Seq<u8> {
    front + buf.skip(front.len() as int)
}

/// The answer to a request for the catalog, with room for `room` bytes.
pub open spec fn catalog_answer(entries: Seq<Entry>, room: int) -> ResponseView {
    if room == 0 || catalog_of(entries).len() > room {
        bare_response(Code::INTERNAL_SERVER_ERROR)
    } else {
        ResponseView {
            payload: catalog_of(entries),
            format: Some(ContentFormat::LINK_FORMAT),
            ..bare_response(Code::CONTENT)
        }
    }
}

/// The path of the catalog.
pub open spec fn well_known_path() -> Seq<Seq<u8>> {
    seq![".well-known".spec_bytes(), "core".spec_bytes()]
}

/// The answer to a request for a path that no route has.
pub open spec fn unrouted() -> ResponseView {
    titled_problem(Code::NOT_FOUND, "Not Found".spec_bytes())
}

/// The answer to a request that no route has, with room for `room` catalog bytes.
pub open spec fn unrouted_answer(
    entries: Seq<Entry>,
    well_known: bool,
    room: int,
    req: RequestView,
) -> ResponseView {
    if well_known && req.path == well_known_path() {
        if Method::of_code(req.message.code) == Some(Method::Get) {
            catalog_answer(entries, room)
        } else {
            not_allowed()
        }
    } else {
        unrouted()
    }
}

/// What adding a route does: it replaces the one with the same path, or comes
/// last.
pub open spec fn routed<const N: usize>(
    a: Site<N>,
    b: Site<N>,
    path: Seq<Seq<u8>>,
    methods: MethodRouter,
) -> bool {
    &&& b.well_known == a.well_known
    &&& match route_at(a.entries@, path) {
        Some(i) => {
            &&& b.entries@ == a.entries@.update(i, b.entries@[i])
            &&& b.entries@[i].path == a.entries@[i].path
            &&& b.entries@[i].methods == methods
        },
        None => {
            &&& b.entries@ == a.entries@.push(b.entries@.last())
            &&& texts_of(b.entries@.last().path@) == path
            &&& b.entries@.last().methods == methods
        },
    }
}

fn push_link(out: &mut Vec<u8>, segs: &Vec<&'static str>)
    ensures
        final(out)@ == old(out)@ + link_of(texts_of(segs@)),
{
    let ghost before = out@;
    let ghost all = texts_of(segs@);
    out.push(0x3c);
    if segs.len() == 0 {
        out.push(0x2f);
    } else {
        let mut i: usize = 0;
        assert(out@ =~= before.push(0x3c) + slashed(all.subrange(0, 0)));
        while i < segs.len()
            invariant
                i <= segs@.len(),
                all == texts_of(segs@),
                out@ == before.push(0x3c) + slashed(all.subrange(0, i as int)),
            decreases segs@.len() - i,
        {
            let ghost next = all.subrange(0, i + 1);
            assert(next.drop_last() =~= all.subrange(0, i as int));
            assert(next.last() == segs@[i as int].spec_bytes());
            out.push(0x2f);
            append(out, segs[i].as_bytes());
            i = i + 1;
            assert(out@ =~= before.push(0x3c) + slashed(next));
        }
        assert(all.subrange(0, i as int) =~= all);
    }
    out.push(0x3e);
    assert(out@ =~= before + link_of(all));
}

impl<const N: usize> Site<N> {
    /// Are there at most `N` routes, and can all their handlers be called?
    pub open spec fn wf(&self) -> bool {
        &&& self.entries@.len() <= N
        &&& forall|i: int| 0 <= i < self.entries@.len() ==> (#[trigger] self.entries@[i]).methods.wf()
    }

    /// An empty site.
    pub fn new() -> (s: Site<N>)
        ensures
            s.wf(),
            s.entries@.len() == 0,
            !s.well_known,
    {
        Site { entries: Vec::new(), well_known: false }
    }

    /// How many routes there are.
    pub fn len(&self) -> (n: usize)
        ensures
            n == self.entries@.len(),
    {
        self.entries.len()
    }

    /// Are there no routes?
    pub fn is_empty(&self) -> (b: bool)
        ensures
            b == (self.entries@.len() == 0),
    {
        self.entries.len() == 0
    }

    /// Is there no room for another path?
    pub fn is_full(&self) -> (b: bool)
        ensures
            b == (self.entries@.len() >= N),
    {
        self.entries.len() >= N
    }

    /// How many routes there may be.
    pub fn capacity(&self) -> (n: usize)
        ensures
            n == N,
    {
        N
    }

    /// Is the catalog served?
    pub fn has_well_known_core(&self) -> (b: bool)
        ensures
            b == self.well_known,
    {
        self.well_known
    }

    /// Serve the catalog.
    pub fn well_known_core(&mut self) -> (s: &mut Self)
        ensures
            *s == (Site::<N> { well_known: true, ..*old(self) }),
            *final(self) == *final(s),
    {
        self.well_known = true;
        self
    }

    fn find(&self, segs: &[&str]) -> (r: Option<usize>)
        ensures
            match r {
                Some(i) => route_at(self.entries@, texts_of(segs@)) == Some(i as int) && i
                    < self.entries@.len(),
                None => route_at(self.entries@, texts_of(segs@)).is_none(),
            },
    {
        let mut i: usize = 0;
        while i < self.entries.len()
            invariant
                i <= self.entries@.len(),
                route_at(self.entries@.subrange(0, i as int), texts_of(segs@)).is_none(),
            decreases self.entries@.len() - i,
        {
            let ghost next = self.entries@.subrange(0, i + 1);
            assert(next.drop_last() =~= self.entries@.subrange(0, i as int));
            assert(next.last() == self.entries@[i as int]);
            if same_path(self.entries[i].path.as_slice(), segs) {
                proof {
                    lemma_route_prefix(self.entries@, texts_of(segs@), i + 1);
                }
                return Some(i);
            }
            i = i + 1;
        }
        assert(self.entries@.subrange(0, i as int) =~= self.entries@);
        None
    }

    /// Can a path be routed: is it acceptable, and is there room or a route to
    /// replace?
    pub open spec fn routable<Q: IntoPath>(&self, path: Q) -> bool {
        segments_of(path) matches Ok(segs) && (self.entries@.len() < N || route_at(
            self.entries@,
            segs,
        ).is_some())
    }

    /// Bind `methods` on a path; a route with the same path is replaced.
    pub fn route<Q: IntoPath>(&mut self, path: Q, methods: MethodRouter) -> (s: &mut Self)
        requires
            old(self).wf(),
            methods.wf(),
            old(self).routable(path),
        ensures
            *final(self) == *final(s),
            s.wf(),
            routed(*old(self), *s, segments_of(path)->Ok_0, methods),
    {
        let ghost before = self.entries@;
        if let Ok(segs) = path_from_into(path) {
            match self.find(segs.as_slice()) {
                Some(i) => {
                    let ghost kept = self.entries@[i as int].path;
                    self.entries[i].methods = methods;
                    proof {
                        lemma_route_at(before, texts_of(segs@));
                        assert(self.entries@ =~= before.update(
                            i as int,
                            Entry { path: kept, methods },
                        ));
                    }
                },
                None => {
                    self.entries.push(Entry { path: segs, methods });
                    assert(self.entries@ =~= before.push(self.entries@.last()));
                },
            }
        }
        self
    }

    /// Bind `methods` on a slash-separated path.
    pub fn route_path(&mut self, path: &'static str, methods: MethodRouter) -> (s: &mut Self)
        requires
            old(self).wf(),
            methods.wf(),
            old(self).routable(path),
        ensures
            *final(self) == *final(s),
            s.wf(),
            routed(*old(self), *s, segments_of(path)->Ok_0, methods),
    {
        self.route(path, methods)
    }

    /// Write the catalog into at most `room` bytes; tells whether it fits.
    fn write_catalog(&self, room: usize) -> (r: (Vec<u8>, bool))
        ensures
            r.0@ == catalog_written(self.entries@, room as int),
            r.1 == (catalog_of(self.entries@).len() <= room),
    {
        let ghost entries = self.entries@;
        let mut out: Vec<u8> = Vec::new();
        let mut i: usize = 0;
        assert(entries.subrange(0, 0).len() == 0);
        while i < self.entries.len()
            invariant
                entries == self.entries@,
                i <= entries.len(),
                out@ == catalog_written(entries.subrange(0, i as int), room as int),
                out@ == catalog_of(entries.subrange(0, i as int)),
                out@.len() <= room,
            decreases entries.len() - i,
        {
            let ghost next = entries.subrange(0, i + 1);
            let ghost front = out@;
            let ghost link_bytes = link_of(texts_of(entries[i as int].path@));
            assert(next.drop_last() =~= entries.subrange(0, i as int));
            assert(next.last() == entries[i as int]);
            assert(link_bytes.len() >= 2);
            if i > 0 {
                if out.len() >= room {
                    proof {
                        lemma_catalog_stops(entries, room as int, i + 1);
                    }
                    return (out, false);
                }
                out.push(0x2c);
            }
            let mut link: Vec<u8> = Vec::new();
            push_link(&mut link, &self.entries[i].path);
            assert(link@ =~= link_bytes);
            assert(out@.len() <= room);
            if link.len() > room - out.len() {
                proof {
                    if i > 0 {
                        assert((front + (seq![0x2cu8] + link_bytes)).len() > room);
                    }
                    lemma_catalog_stops(entries, room as int, i + 1);
                }
                return (out, false);
            }
            append(&mut out, link.as_slice());
            i = i + 1;
            proof {
                lemma_catalog_written(next, room as int);
                if i == 1 {
                    assert(out@ =~= link_bytes);
                } else {
                    assert(out@ =~= front + (seq![0x2cu8] + link_bytes));
                }
                assert(catalog_of(next) == out@);
            }
        }
        assert(entries.subrange(0, i as int) =~= entries);
        (out, true)
    }

    /// Write the catalog into a buffer, and give it as a response, unless it
    /// does not fit.
    fn link_format(&self, buf: &mut [u8]) -> (r: Response<'static>)
        ensures
            r@ == catalog_answer(self.entries@, self.catalog_room(old(buf)@.len() as int)),
            final(buf)@ == overwritten(
                old(buf)@,
                catalog_written(self.entries@, self.catalog_room(old(buf)@.len() as int)),
            ),
    {
        let cap: usize = link_format_capacity::<N>();
        let cap: usize = if buf.len() < cap {
            buf.len()
        } else {
            cap
        };
        proof {
            lemma_catalog_written(self.entries@, cap as int);
        }
        let ghost before = buf@;
        let (catalog, whole) = self.write_catalog(cap);
        let mut i: usize = 0;
        assert(before =~= overwritten(before, catalog@.subrange(0, 0)));
        while i < catalog.len()
            invariant
                i <= catalog@.len() <= before.len(),
                buf@ == overwritten(before, catalog@.subrange(0, i as int)),
            decreases catalog@.len() - i,
        {
            buf[i] = catalog[i];
            i = i + 1;
            assert(buf@ =~= overwritten(before, catalog@.subrange(0, i as int)));
        }
        assert(catalog@.subrange(0, i as int) =~= catalog@);
        if cap == 0 || !whole {
            return Response::internal_error();
        }
        Response::new(Code::CONTENT).payload_copy_full(catalog.as_slice()).content_format(
            ContentFormat::LINK_FORMAT,
        )
    }

    /// How much of a buffer of this length the catalog may use.
    pub open spec fn catalog_room(&self, len: int) -> int {
        if len < catalog_capacity(N as int) {
            len
        } else {
            catalog_capacity(N as int)
        }
    }

    /// Does a request get the catalog?
    pub open spec fn lists(&self, req: RequestView) -> bool {
        &&& route_at(self.entries@, req.path).is_none()
        &&& self.well_known
        &&& req.path == well_known_path()
        &&& Method::of_code(req.message.code) == Some(Method::Get)
    }

    /// May a request be answered like this, with this much room for a catalog?
    pub open spec fn answers(&self, request: Request<'_>, room: int, r: Response<'static>) -> bool {
        match route_at(self.entries@, request@.path) {
            Some(i) => match Method::of_code(request@.message.code) {
                Some(m) => match self.entries@[i].methods.slot(m) {
                    Some(h) => h.gives(request, r),
                    None => r@ == not_allowed(),
                },
                None => r@ == not_allowed(),
            },
            None => r@ == unrouted_answer(
                self.entries@,
                self.well_known,
                self.catalog_room(room),
                request@,
            ),
        }
    }

    /// Answer a request: by the route of its path, else 4.05 where the path
    /// has no such method, else 4.04. The catalog, when it is served and no
    /// route has its path, is written into `catalog`, and must fit.
    pub fn dispatch(&self, request: Request<'_>, catalog: &mut [u8]) -> (r: Response<'static>)
        requires
            self.wf(),
        ensures
            final(catalog)@ == if self.lists(request@) {
                overwritten(
                    old(catalog)@,
                    catalog_written(self.entries@, self.catalog_room(old(catalog)@.len() as int)),
                )
            } else {
                old(catalog)@
            },
            self.answers(request, old(catalog)@.len() as int, r),
    {
        match self.find(request.path()) {
            Some(i) => {
                let entry: &Entry = &self.entries[i];
                assert(self.entries@[i as int].methods.wf());
                match request.method() {
                    Some(method) => entry.methods.call(method, request),
                    None => method_not_allowed_problem(),
                }
            },
            None => {
                if self.well_known && path_is_well_known(request.path()) {
                    match request.method() {
                        Some(Method::Get) => self.link_format(catalog),
                        _ => method_not_allowed_problem(),
                    }
                } else {
                    Response::problem(Code::NOT_FOUND).title("Not Found")
                }
            },
        }
    }

    /// The route of a path, as an observer is registered for it.
    pub fn observe_resource(&self, segs: &[&str]) -> (r: Option<usize>)
        ensures
            match r {
                Some(i) => route_at(self.entries@, texts_of(segs@)) == Some(i as int) && i
                    < self.entries@.len(),
                None => route_at(self.entries@, texts_of(segs@)).is_none(),
            },
    {
        self.find(segs)
    }

    /// The source of notifications of a route.
    pub open spec fn source_of(&self, resource: Option<usize>) -> Option<Box<dyn ObserveSource>> {
        match resource {
            Some(i) => if i < self.entries@.len() {
                self.entries@[i as int].methods.source()
            } else {
                None
            },
            None => None,
        }
    }

    /// The source of notifications of a route.
    pub fn observe_source(&self, resource: Option<usize>) -> (r: Option<&Box<dyn ObserveSource>>)
        ensures
            r.is_some() == self.source_of(resource).is_some(),
            r matches Some(s) ==> self.source_of(resource) == Some(*s),
    {
        match resource {
            Some(i) => if i < self.entries.len() {
                self.entries[i].methods.observe_source()
            } else {
                None
            },
            None => None,
        }
    }

    /// Does the route of a path have a source of notifications?
    pub fn has_observe_source(&self, segs: &[&str]) -> (b: bool)
        ensures
            b == match route_at(self.entries@, texts_of(segs@)) {
                Some(i) => self.entries@[i].methods.source().is_some(),
                None => false,
            },
    {
        match self.find(segs) {
            Some(i) => self.observe_source(Some(i)).is_some(),
            None => false,
        }
    }
}

fn path_is_well_known(segs: &[&str]) -> (b: bool)
    ensures
        b == (texts_of(segs@) == well_known_path()),
{
    let want: [&str; 2] = [".well-known", "core"];
    assert(texts_of(want@) =~= well_known_path());
    same_path(segs, want.as_slice())
}

/// Which route a path has depends on the paths of the routes alone.
proof fn lemma_route_paths(a: Seq<Entry>, b: Seq<Entry>, path: Seq<Seq<u8>>)
    requires
        a.len() == b.len(),
        forall|k: int| 0 <= k < a.len() ==> (#[trigger] a[k]).path == b[k].path,
    ensures
        route_at(a, path) == route_at(b, path),
    decreases a.len(),
{
    if a.len() > 0 {
        assert(a[a.len() - 1].path == b[a.len() - 1].path);
        assert forall|k: int| 0 <= k < a.len() - 1 implies (#[trigger] a.drop_last()[k]).path
            == b.drop_last()[k].path by {
            assert(a[k].path == b[k].path);
        }
        lemma_route_paths(a.drop_last(), b.drop_last(), path);
    }
}

/// A route that was added is the one of its path, over an earlier one; every
/// other path keeps its route.
pub proof fn law_added_route_is_found<const N: usize>(
    a: Site<N>,
    b: Site<N>,
    path: Seq<Seq<u8>>,
    methods: MethodRouter,
    other: Seq<Seq<u8>>,
)
    requires
        routed(a, b, path, methods),
    ensures
        route_at(b.entries@, path) matches Some(i) && b.entries@[i].methods == methods,
        other != path ==> route_at(b.entries@, other) == route_at(a.entries@, other),
        other != path ==> (route_at(a.entries@, other) matches Some(k) ==> b.entries@[k]
            == a.entries@[k]),
{
    lemma_route_at(a.entries@, path);
    lemma_route_at(a.entries@, other);
    match route_at(a.entries@, path) {
        Some(_) => {
            lemma_route_paths(a.entries@, b.entries@, path);
            lemma_route_paths(a.entries@, b.entries@, other);
        },
        None => {
            assert(b.entries@.drop_last() =~= a.entries@);
        },
    }
}

/// A request for a path that no route has is answered 4.04, unless the catalog
/// is there.
pub proof fn law_unknown_path_is_not_found<const N: usize>(
    site: Site<N>,
    request: Request<'_>,
    room: int,
    r: Response<'static>,
)
    requires
        site.answers(request, room, r),
        route_at(site.entries@, request@.path).is_none(),
        !site.well_known || request@.path != well_known_path(),
    ensures
        r@ == unrouted(),
        r@.code == Code::NOT_FOUND,
{
}

/// A request with a method that the route of its path does not have is answered
/// 4.05.
pub proof fn law_missing_method_is_not_allowed<const N: usize>(
    site: Site<N>,
    request: Request<'_>,
    room: int,
    r: Response<'static>,
)
    requires
        site.answers(request, room, r),
        route_at(site.entries@, request@.path) matches Some(i) && (Method::of_code(
            request@.message.code,
        ) matches Some(m) ==> !site.entries@[i].methods.has(m)),
    ensures
        r@ == not_allowed(),
        r@.code == Code::METHOD_NOT_ALLOWED,
{
}

/// The catalog is never cut short: it is answered whole, or with 5.00 and
/// no payload.
pub proof fn law_catalog_whole(entries: Seq<Entry>, room: int)
    ensures
        catalog_answer(entries, room).code == Code::CONTENT ==> catalog_answer(entries, room).payload
            == catalog_of(entries),
        catalog_answer(entries, room).code != Code::CONTENT ==> catalog_answer(entries, room)
            == bare_response(Code::INTERNAL_SERVER_ERROR),
{
}

} // verus!
