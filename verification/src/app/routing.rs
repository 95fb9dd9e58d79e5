//! Methods, handlers, and the methods of one route.
use vstd::prelude::*;
use vstd::string::StringSliceAdditionalSpecFns;

use super::request::Request;
use super::response::{titled_problem, Response, ResponseView};
use crate::message::Code;

verus! {

/// Request methods.
#[derive(Clone, Copy, Debug, PartialEq, Eq, Hash, Structural)]
pub enum Method {
    /// 0.01
    Get,
    /// 0.02
    Post,
    /// 0.03
    Put,
    /// 0.04
    Delete,
    /// 0.05
    Fetch,
    /// 0.06
    Patch,
    /// 0.07
    IPatch,
}

impl Method {
    /// The method that a code names.
    pub open spec fn of_code(code: Code) -> Option<Method> {
        match code {
            Code::GET => Some(Method::Get),
            Code::POST => Some(Method::Post),
            Code::PUT => Some(Method::Put),
            Code::DELETE => Some(Method::Delete),
            Code::FETCH => Some(Method::Fetch),
            Code::PATCH => Some(Method::Patch),
            Code::IPATCH => Some(Method::IPatch),
            _ => None,
        }
    }

    /// The code of the method.
    pub open spec fn to_code(self) -> Code {
        match self {
            Method::Get => Code::GET,
            Method::Post => Code::POST,
            Method::Put => Code::PUT,
            Method::Delete => Code::DELETE,
            Method::Fetch => Code::FETCH,
            Method::Patch => Code::PATCH,
            Method::IPatch => Code::IPATCH,
        }
    }

    /// The method that a code names.
    pub fn from_code(code: Code) -> (m: Option<Method>)
        ensures
            m == Method::of_code(code),
    {
        match code {
            Code::GET => Some(Method::Get),
            Code::POST => Some(Method::Post),
            Code::PUT => Some(Method::Put),
            Code::DELETE => Some(Method::Delete),
            Code::FETCH => Some(Method::Fetch),
            Code::PATCH => Some(Method::Patch),
            Code::IPATCH => Some(Method::IPatch),
            _ => None,
        }
    }

    /// The code of the method.
    pub fn code(self) -> (c: Code)
        ensures
            c == self.to_code(),
            c.is_request(),
    {
        match self {
            Method::Get => Code::GET,
            Method::Post => Code::POST,
            Method::Put => Code::PUT,
            Method::Delete => Code::DELETE,
            Method::Fetch => Code::FETCH,
            Method::Patch => Code::PATCH,
            Method::IPatch => Code::IPATCH,
        }
    }

    /// A method and its code name each other.
    pub proof fn law_code_round_trip(self)
        ensures
            Method::of_code(self.to_code()) == Some(self),
    {
    }
}

/// Answers requests. Any function from a request to a response is one.
pub trait Handler {
    /// May the handler be given this request?
    spec fn accepts(&self, req: Request<'_>) -> bool;

    /// May the handler answer this request with this response?
    spec fn gives(&self, req: Request<'_>, r: Response<'static>) -> bool;

    /// Answer a request.
    fn call(&self, req: Request<'_>) -> (r: Response<'static>)
        requires
            self.accepts(req),
        ensures
            self.gives(req, r),
    ;
}

impl<F: for<'r> Fn(Request<'r>) -> Response<'static>> Handler for F {
    open spec fn accepts(&self, req: Request<'_>) -> bool {
        call_requires(*self, (req,))
    }

    open spec fn gives(&self, req: Request<'_>, r: Response<'static>) -> bool {
        call_ensures(*self, (req,), r)
    }

    fn call(&self, req: Request<'_>) -> (r: Response<'static>) {
        self(req)
    }
}

/// Can the handler be given any request?
pub open spec fn handler_total<H: Handler + ?Sized>(h: &H) -> bool {
    forall|req: Request<'_>| #[trigger] h.accepts(req)
}

/// Gives the current representation for a notification.
pub trait ObserveSource {
    /// May the source be asked?
    spec fn ready(&self) -> bool;

    /// May the source give this representation?
    spec fn gives(&self, r: Response<'static>) -> bool;

    /// The current representation.
    fn snapshot(&self) -> (r: Response<'static>)
        requires
            self.ready(),
        ensures
            self.gives(r),
    ;
}

impl<F: Fn() -> Response<'static>> ObserveSource for F {
    open spec fn ready(&self) -> bool {
        call_requires(*self, ())
    }

    open spec fn gives(&self, r: Response<'static>) -> bool {
        call_ensures(*self, (), r)
    }

    fn snapshot(&self) -> (r: Response<'static>) {
        self()
    }
}

/// The handlers of one route, by method.
pub struct MethodRouter {
    get: Option<Box<dyn Handler>>,
    post: Option<Box<dyn Handler>>,
    put: Option<Box<dyn Handler>>,
    delete: Option<Box<dyn Handler>>,
    fetch: Option<Box<dyn Handler>>,
    patch: Option<Box<dyn Handler>>,
    ipatch: Option<Box<dyn Handler>>,
    observe: Option<Box<dyn ObserveSource>>,
}

/// Can the handler, if any, be given any request?
pub open spec fn slot_total(h: Option<Box<dyn Handler>>) -> bool {
    h matches Some(b) ==> handler_total(&*b)
}

/// Does the slot hold a handler that answers like this one?
pub open spec fn answers_like<H: Handler + ?Sized>(slot: Option<Box<dyn Handler>>, h: &H) -> bool {
    slot.is_some() && forall|req: Request<'_>, r: Response<'static>| #[trigger]
        slot->0.gives(req, r) == h.gives(req, r)
}

/// The answer to a method that a route does not have.
pub open spec fn not_allowed() -> ResponseView {
    titled_problem(Code::METHOD_NOT_ALLOWED, "Method Not Allowed".spec_bytes())
}

/// The answer to a method that a route does not have.
pub fn method_not_allowed_problem() -> (r: Response<'static>)
    ensures
        r@ == not_allowed(),
{
    Response::problem(Code::METHOD_NOT_ALLOWED).title("Method Not Allowed")
}

impl MethodRouter {
    /// The handler of a method.
    pub closed spec fn slot(&self, method: Method) -> Option<Box<dyn Handler>> {
        match method {
            Method::Get => self.get,
            Method::Post => self.post,
            Method::Put => self.put,
            Method::Delete => self.delete,
            Method::Fetch => self.fetch,
            Method::Patch => self.patch,
            Method::IPatch => self.ipatch,
        }
    }

    /// The source of notifications.
    pub closed spec fn source(&self) -> Option<Box<dyn ObserveSource>> {
        self.observe
    }

    /// Does the route answer a method?
    pub open spec fn has(&self, method: Method) -> bool {
        self.slot(method).is_some()
    }

    /// Can every handler be given any request, and the source be asked?
    pub open spec fn wf(&self) -> bool {
        &&& forall|m: Method| slot_total(#[trigger] self.slot(m))
        &&& self.source() matches Some(s) ==> s.ready()
    }

    /// A route without methods.
    pub fn new() -> (r: MethodRouter)
        ensures
            r.wf(),
            forall|m: Method| !#[trigger] r.has(m),
            r.source().is_none(),
    {
        MethodRouter {
            get: None,
            post: None,
            put: None,
            delete: None,
            fetch: None,
            patch: None,
            ipatch: None,
            observe: None,
        }
    }

    /// Set the source of notifications.
    pub fn observe<S: ObserveSource + 'static>(self, source: S) -> (r: MethodRouter)
        requires
            self.wf(),
            source.ready(),
        ensures
            r.wf(),
            r.source().is_some(),
            forall|x: Response<'static>| #[trigger] r.source()->0.gives(x) == source.gives(x),
            forall|m: Method| #[trigger] r.slot(m) == self.slot(m),
    {
        let mut r = self;
        r.observe = Some(Box::new(source));
        assert forall|m: Method| slot_total(#[trigger] r.slot(m)) by {
            assert(slot_total(self.slot(m)));
        }
        r
    }

    /// The source of notifications.
    pub fn observe_source(&self) -> (s: Option<&Box<dyn ObserveSource>>)
        ensures
            s.is_some() == self.source().is_some(),
            s matches Some(b) ==> self.source() == Some(*b),
    {
        match &self.observe {
            Some(b) => Some(b),
            None => None,
        }
    }

    fn on(self, method: Method, handler: Box<dyn Handler>) -> (r: MethodRouter)
        requires
            self.wf(),
            handler_total(&*handler),
        ensures
            r.wf(),
            r.source() == self.source(),
            answers_like(r.slot(method), &*handler),
            forall|m: Method| m != method ==> #[trigger] r.slot(m) == self.slot(m),
    {
        let mut r = self;
        match method {
            Method::Get => {
                r.get = Some(handler);
            },
            Method::Post => {
                r.post = Some(handler);
            },
            Method::Put => {
                r.put = Some(handler);
            },
            Method::Delete => {
                r.delete = Some(handler);
            },
            Method::Fetch => {
                r.fetch = Some(handler);
            },
            Method::Patch => {
                r.patch = Some(handler);
            },
            Method::IPatch => {
                r.ipatch = Some(handler);
            },
        }
        assert forall|m: Method| slot_total(#[trigger] r.slot(m)) by {
            assert(slot_total(self.slot(m)));
        }
        r
    }

    /// Bind GET.
    pub fn get<H: Handler + 'static>(self, handler: H) -> (r: MethodRouter)
        requires
            self.wf(),
            handler_total(&handler),
        ensures
            r.wf(),
            r.source() == self.source(),
            answers_like(r.slot(Method::Get), &handler),
            forall|m: Method| m != Method::Get ==> #[trigger] r.slot(m) == self.slot(m),
    {
        self.on(Method::Get, Box::new(handler))
    }

    /// Bind POST.
    pub fn post<H: Handler + 'static>(self, handler: H) -> (r: MethodRouter)
        requires
            self.wf(),
            handler_total(&handler),
        ensures
            r.wf(),
            r.source() == self.source(),
            answers_like(r.slot(Method::Post), &handler),
            forall|m: Method| m != Method::Post ==> #[trigger] r.slot(m) == self.slot(m),
    {
        self.on(Method::Post, Box::new(handler))
    }

    /// Bind PUT.
    pub fn put<H: Handler + 'static>(self, handler: H) -> (r: MethodRouter)
        requires
            self.wf(),
            handler_total(&handler),
        ensures
            r.wf(),
            r.source() == self.source(),
            answers_like(r.slot(Method::Put), &handler),
            forall|m: Method| m != Method::Put ==> #[trigger] r.slot(m) == self.slot(m),
    {
        self.on(Method::Put, Box::new(handler))
    }

    /// Bind DELETE.
    pub fn delete<H: Handler + 'static>(self, handler: H) -> (r: MethodRouter)
        requires
            self.wf(),
            handler_total(&handler),
        ensures
            r.wf(),
            r.source() == self.source(),
            answers_like(r.slot(Method::Delete), &handler),
            forall|m: Method| m != Method::Delete ==> #[trigger] r.slot(m) == self.slot(m),
    {
        self.on(Method::Delete, Box::new(handler))
    }

    /// Bind FETCH.
    pub fn fetch<H: Handler + 'static>(self, handler: H) -> (r: MethodRouter)
        requires
            self.wf(),
            handler_total(&handler),
        ensures
            r.wf(),
            r.source() == self.source(),
            answers_like(r.slot(Method::Fetch), &handler),
            forall|m: Method| m != Method::Fetch ==> #[trigger] r.slot(m) == self.slot(m),
    {
        self.on(Method::Fetch, Box::new(handler))
    }

    /// Bind PATCH.
    pub fn patch<H: Handler + 'static>(self, handler: H) -> (r: MethodRouter)
        requires
            self.wf(),
            handler_total(&handler),
        ensures
            r.wf(),
            r.source() == self.source(),
            answers_like(r.slot(Method::Patch), &handler),
            forall|m: Method| m != Method::Patch ==> #[trigger] r.slot(m) == self.slot(m),
    {
        self.on(Method::Patch, Box::new(handler))
    }

    /// Bind iPATCH.
    pub fn ipatch<H: Handler + 'static>(self, handler: H) -> (r: MethodRouter)
        requires
            self.wf(),
            handler_total(&handler),
        ensures
            r.wf(),
            r.source() == self.source(),
            answers_like(r.slot(Method::IPatch), &handler),
            forall|m: Method| m != Method::IPatch ==> #[trigger] r.slot(m) == self.slot(m),
    {
        self.on(Method::IPatch, Box::new(handler))
    }

    /// Answer a request: by the handler of its method, else with 4.05.
    pub fn call(&self, method: Method, req: Request<'_>) -> (r: Response<'static>)
        requires
            self.wf(),
        ensures
            !self.has(method) ==> r@ == not_allowed(),
            self.slot(method) matches Some(h) ==> h.gives(req, r),
    {
        let slot: &Option<Box<dyn Handler>> = match method {
            Method::Get => &self.get,
            Method::Post => &self.post,
            Method::Put => &self.put,
            Method::Delete => &self.delete,
            Method::Fetch => &self.fetch,
            Method::Patch => &self.patch,
            Method::IPatch => &self.ipatch,
        };
        assert(*slot == self.slot(method));
        assert(slot_total(self.slot(method)));
        match slot {
            Some(handler) => {
                assert(handler_total(&**handler));
                handler.call(req)
            },
            None => method_not_allowed_problem(),
        }
    }
}

/// A route that answers GET.
pub fn get<H: Handler + 'static>(handler: H) -> (r: MethodRouter)
    requires
        handler_total(&handler),
    ensures
        r.wf(),
        forall|m: Method| #[trigger] r.has(m) == (m == Method::Get),
        answers_like(r.slot(Method::Get), &handler),
        r.source().is_none(),
{
    let none = MethodRouter::new();
    let ghost before = none;
    let r = none.get(handler);
    assert forall|m: Method| #[trigger] r.has(m) == (m == Method::Get) by {
        assert(!before.has(m));
        assert(m != Method::Get ==> r.slot(m) == before.slot(m));
    }
    r
}

/// A route that answers POST.
pub fn post<H: Handler + 'static>(handler: H) -> (r: MethodRouter)
    requires
        handler_total(&handler),
    ensures
        r.wf(),
        forall|m: Method| #[trigger] r.has(m) == (m == Method::Post),
        answers_like(r.slot(Method::Post), &handler),
        r.source().is_none(),
{
    let none = MethodRouter::new();
    let ghost before = none;
    let r = none.post(handler);
    assert forall|m: Method| #[trigger] r.has(m) == (m == Method::Post) by {
        assert(!before.has(m));
        assert(m != Method::Post ==> r.slot(m) == before.slot(m));
    }
    r
}

/// A route that answers PUT.
pub fn put<H: Handler + 'static>(handler: H) -> (r: MethodRouter)
    requires
        handler_total(&handler),
    ensures
        r.wf(),
        forall|m: Method| #[trigger] r.has(m) == (m == Method::Put),
        answers_like(r.slot(Method::Put), &handler),
        r.source().is_none(),
{
    let none = MethodRouter::new();
    let ghost before = none;
    let r = none.put(handler);
    assert forall|m: Method| #[trigger] r.has(m) == (m == Method::Put) by {
        assert(!before.has(m));
        assert(m != Method::Put ==> r.slot(m) == before.slot(m));
    }
    r
}

/// A route that answers DELETE.
pub fn delete<H: Handler + 'static>(handler: H) -> (r: MethodRouter)
    requires
        handler_total(&handler),
    ensures
        r.wf(),
        forall|m: Method| #[trigger] r.has(m) == (m == Method::Delete),
        answers_like(r.slot(Method::Delete), &handler),
        r.source().is_none(),
{
    let none = MethodRouter::new();
    let ghost before = none;
    let r = none.delete(handler);
    assert forall|m: Method| #[trigger] r.has(m) == (m == Method::Delete) by {
        assert(!before.has(m));
        assert(m != Method::Delete ==> r.slot(m) == before.slot(m));
    }
    r
}

/// A route that answers FETCH.
pub fn fetch<H: Handler + 'static>(handler: H) -> (r: MethodRouter)
    requires
        handler_total(&handler),
    ensures
        r.wf(),
        forall|m: Method| #[trigger] r.has(m) == (m == Method::Fetch),
        answers_like(r.slot(Method::Fetch), &handler),
        r.source().is_none(),
{
    let none = MethodRouter::new();
    let ghost before = none;
    let r = none.fetch(handler);
    assert forall|m: Method| #[trigger] r.has(m) == (m == Method::Fetch) by {
        assert(!before.has(m));
        assert(m != Method::Fetch ==> r.slot(m) == before.slot(m));
    }
    r
}

/// A route that answers PATCH.
pub fn patch<H: Handler + 'static>(handler: H) -> (r: MethodRouter)
    requires
        handler_total(&handler),
    ensures
        r.wf(),
        forall|m: Method| #[trigger] r.has(m) == (m == Method::Patch),
        answers_like(r.slot(Method::Patch), &handler),
        r.source().is_none(),
{
    let none = MethodRouter::new();
    let ghost before = none;
    let r = none.patch(handler);
    assert forall|m: Method| #[trigger] r.has(m) == (m == Method::Patch) by {
        assert(!before.has(m));
        assert(m != Method::Patch ==> r.slot(m) == before.slot(m));
    }
    r
}

/// A route that answers iPATCH.
pub fn ipatch<H: Handler + 'static>(handler: H) -> (r: MethodRouter)
    requires
        handler_total(&handler),
    ensures
        r.wf(),
        forall|m: Method| #[trigger] r.has(m) == (m == Method::IPatch),
        answers_like(r.slot(Method::IPatch), &handler),
        r.source().is_none(),
{
    let none = MethodRouter::new();
    let ghost before = none;
    let r = none.ipatch(handler);
    assert forall|m: Method| #[trigger] r.has(m) == (m == Method::IPatch) by {
        assert(!before.has(m));
        assert(m != Method::IPatch ==> r.slot(m) == before.slot(m));
    }
    r
}

} // verus!
