//! Building and sending requests.
use std::marker::PhantomData;
use vstd::prelude::*;

use super::api::App;
use super::calls::Call;
use super::error::Error;
use super::inbox::OutgoingObserve;
use super::outbound::contacted;
use super::owned::lives_kept;
use super::path::{path_from_into, segments_of, texts_of, IntoPath};
use super::routing::Method;
use super::wish::{called, Wish};
use crate::message::{BlockValue, ContentFormat, Echo, NoResponse, Type};
use crate::storage::builder::{Missing, Present};
use crate::storage::endpoint::{BodyTag, Endpoint};
use crate::storage::io::DatagramIo;
use crate::storage::memory::MemoryProfile;

verus! {

/// A request that is being built, on an app that will send it.
pub struct Outgoing<'a, P: MemoryProfile, T, const N: usize, Dest, const BLOCK_WISE: bool> {
    /// The app.
    pub app: &'a mut App<P, T, N, BLOCK_WISE>,
    /// The request.
    pub wish: Wish<'a>,
    /// The destination.
    pub dest: Option<Endpoint>,
    /// Is the destination set?
    pub state: PhantomData<Dest>,
}

/// A request as it is before anything but its method and path is set.
pub open spec fn plain_wish<Q: IntoPath>(w: Wish<'_>, method: Method, path: Q) -> bool {
    &&& w.wf()
    &&& w.code == method.to_code()
    &&& match segments_of(path) {
        Ok(segs) => w.path matches Ok(p) && texts_of(p@) == segs,
        Err(e) => w.path matches Err(f) && f == e,
    }
    &&& w.ty == Type::Confirmable
    &&& w.payload@.len() == 0
    &&& w.content_format.is_none()
    &&& w.echo.is_none()
    &&& w.no_response.is_none()
    &&& w.accept.is_none()
    &&& w.request_tag@.is_none()
    &&& w.etag.is_none()
    &&& w.if_match.is_none()
    &&& !w.if_none_match
    &&& w.queries@.len() == 0
    &&& !w.q_block1
    &&& !w.q_block2
    &&& w.block2.is_none()
    &&& w.observe == OutgoingObserve::Off
    &&& w.selected.is_none()
    &&& w.deadline_ms.is_none()
}

impl<P: MemoryProfile, T, const N: usize, const BLOCK_WISE: bool> App<P, T, N, BLOCK_WISE> {
    /// A confirmable request.
    pub fn request<Q: IntoPath>(&mut self, method: Method, path: Q) -> (o: Outgoing<
        '_,
        P,
        T,
        N,
        Missing,
        BLOCK_WISE,
    >)
        ensures
            *o.app == *old(self),
            *final(self) == *final(o.app),
            plain_wish(o.wish, method, path),
            o.dest.is_none(),
    {
        let segs = path_from_into(path);
        Outgoing { app: self, wish: Wish::new(method.code(), segs), dest: None, state: PhantomData }
    }

    /// A confirmable GET request.
    pub fn get<Q: IntoPath>(&mut self, path: Q) -> (o: Outgoing<'_, P, T, N, Missing, BLOCK_WISE>)
        ensures
            *o.app == *old(self),
            *final(self) == *final(o.app),
            plain_wish(o.wish, Method::Get, path),
            o.dest.is_none(),
    {
        self.request(Method::Get, path)
    }

    /// A confirmable PUT request.
    pub fn put<Q: IntoPath>(&mut self, path: Q) -> (o: Outgoing<'_, P, T, N, Missing, BLOCK_WISE>)
        ensures
            *o.app == *old(self),
            *final(self) == *final(o.app),
            plain_wish(o.wish, Method::Put, path),
            o.dest.is_none(),
    {
        self.request(Method::Put, path)
    }

    /// A confirmable POST request.
    pub fn post<Q: IntoPath>(&mut self, path: Q) -> (o: Outgoing<'_, P, T, N, Missing, BLOCK_WISE>)
        ensures
            *o.app == *old(self),
            *final(self) == *final(o.app),
            plain_wish(o.wish, Method::Post, path),
            o.dest.is_none(),
    {
        self.request(Method::Post, path)
    }

    /// A confirmable DELETE request.
    pub fn delete<Q: IntoPath>(&mut self, path: Q) -> (o: Outgoing<'_, P, T, N, Missing, BLOCK_WISE>)
        ensures
            *o.app == *old(self),
            *final(self) == *final(o.app),
            plain_wish(o.wish, Method::Delete, path),
            o.dest.is_none(),
    {
        self.request(Method::Delete, path)
    }

    /// A confirmable FETCH request.
    pub fn fetch<Q: IntoPath>(&mut self, path: Q) -> (o: Outgoing<'_, P, T, N, Missing, BLOCK_WISE>)
        ensures
            *o.app == *old(self),
            *final(self) == *final(o.app),
            plain_wish(o.wish, Method::Fetch, path),
            o.dest.is_none(),
    {
        self.request(Method::Fetch, path)
    }

    /// A confirmable PATCH request.
    pub fn patch<Q: IntoPath>(&mut self, path: Q) -> (o: Outgoing<'_, P, T, N, Missing, BLOCK_WISE>)
        ensures
            *o.app == *old(self),
            *final(self) == *final(o.app),
            plain_wish(o.wish, Method::Patch, path),
            o.dest.is_none(),
    {
        self.request(Method::Patch, path)
    }

    /// A confirmable iPATCH request.
    pub fn ipatch<Q: IntoPath>(&mut self, path: Q) -> (o: Outgoing<'_, P, T, N, Missing, BLOCK_WISE>)
        ensures
            *o.app == *old(self),
            *final(self) == *final(o.app),
            plain_wish(o.wish, Method::IPatch, path),
            o.dest.is_none(),
    {
        self.request(Method::IPatch, path)
    }
}

impl<'a, P: MemoryProfile, T, const N: usize, Dest, const BLOCK_WISE: bool> Outgoing<
    'a,
    P,
    T,
    N,
    Dest,
    BLOCK_WISE,
> {
    /// Set the destination.
    pub fn to(self, peer: Endpoint) -> (o: Outgoing<'a, P, T, N, Present, BLOCK_WISE>)
        ensures
            *o.app == *old(self.app),
            *final(self.app) == *final(o.app),
            o.wish == self.wish,
            o.dest == Some(peer),
    {
        Outgoing { app: self.app, wish: self.wish, dest: Some(peer), state: PhantomData }
    }

    /// Set when the call ends at the latest.
    pub fn deadline(self, deadline_ms: u64) -> (o: Self)
        ensures
            o.app == self.app,
            o.dest == self.dest,
            o.wish == (Wish { deadline_ms: Some(deadline_ms), ..self.wish }),
    {
        let mut o = self;
        o.wish.deadline_ms = Some(deadline_ms);
        o
    }

    /// Set the payload; one that does not fit goes out in blocks.
    pub fn payload(self, payload: &'a [u8]) -> (o: Self)
        ensures
            o.app == self.app,
            o.dest == self.dest,
            o.wish == (Wish { payload: payload, ..self.wish }),
    {
        let mut o = self;
        o.wish.payload = payload;
        o
    }

    /// Set Content-Format.
    pub fn content_format(self, format: ContentFormat) -> (o: Self)
        ensures
            o.app == self.app,
            o.dest == self.dest,
            o.wish == (Wish { content_format: Some(format), ..self.wish }),
    {
        let mut o = self;
        o.wish.content_format = Some(format);
        o
    }

    /// Say which responses are not wanted.
    pub fn no_response(self, value: NoResponse) -> (o: Self)
        ensures
            o.app == self.app,
            o.dest == self.dest,
            o.wish == (Wish { no_response: Some(value), ..self.wish }),
    {
        let mut o = self;
        o.wish.no_response = Some(value);
        o
    }

    /// Repeat a server's Echo value.
    pub fn echo(self, echo: Echo) -> (o: Self)
        ensures
            o.app == self.app,
            o.dest == self.dest,
            o.wish == (Wish { echo: Some(echo), ..self.wish }),
    {
        let mut o = self;
        o.wish.echo = Some(echo);
        o
    }

    /// Set Accept.
    pub fn accept(self, format: ContentFormat) -> (o: Self)
        ensures
            o.app == self.app,
            o.dest == self.dest,
            o.wish == (Wish { accept: Some(format), ..self.wish }),
    {
        let mut o = self;
        o.wish.accept = Some(format);
        o
    }

    /// Set the Request-Tag.
    pub fn request_tag(self, tag: BodyTag) -> (o: Self)
        ensures
            o.app == self.app,
            o.dest == self.dest,
            o.wish == (Wish { request_tag: tag, ..self.wish }),
    {
        let mut o = self;
        o.wish.request_tag = tag;
        o
    }

    /// Set ETag.
    pub fn etag(self, tag: &'a [u8]) -> (o: Self)
        ensures
            o.app == self.app,
            o.dest == self.dest,
            o.wish == (Wish { etag: Some(tag), ..self.wish }),
    {
        let mut o = self;
        o.wish.etag = Some(tag);
        o
    }

    /// Set If-Match.
    pub fn if_match(self, tag: &'a [u8]) -> (o: Self)
        ensures
            o.app == self.app,
            o.dest == self.dest,
            o.wish == (Wish { if_match: Some(tag), ..self.wish }),
    {
        let mut o = self;
        o.wish.if_match = Some(tag);
        o
    }

    /// Set If-None-Match.
    pub fn if_none_match(self) -> (o: Self)
        ensures
            o.app == self.app,
            o.dest == self.dest,
            o.wish == (Wish { if_none_match: true, ..self.wish }),
    {
        let mut o = self;
        o.wish.if_none_match = true;
        o
    }

    /// Send the request non-confirmable.
    pub fn non(self) -> (o: Self)
        ensures
            o.app == self.app,
            o.dest == self.dest,
            o.wish == (Wish { ty: Type::NonConfirmable, ..self.wish }),
    {
        let mut o = self;
        o.wish.ty = Type::NonConfirmable;
        o
    }

    /// Send a large body in windows; this needs a Request-Tag.
    pub fn q_block1(self) -> (o: Self)
        ensures
            o.app == self.app,
            o.dest == self.dest,
            o.wish == (Wish { q_block1: true, ..self.wish }),
    {
        let mut o = self;
        o.wish.q_block1 = true;
        o
    }

    /// Allow the response to come in windows.
    pub fn q_block2(self) -> (o: Self)
        ensures
            o.app == self.app,
            o.dest == self.dest,
            o.wish == (Wish { q_block2: true, ..self.wish }),
    {
        let mut o = self;
        o.wish.q_block2 = true;
        o
    }

    /// Ask to be notified.
    pub fn observe(self) -> (o: Self)
        ensures
            o.app == self.app,
            o.dest == self.dest,
            o.wish == (Wish { observe: OutgoingObserve::Register, ..self.wish }),
    {
        let mut o = self;
        o.wish.observe = OutgoingObserve::Register;
        o
    }

    /// Ask to be notified no more; the subscription is the one that was asked for in
    /// the same way.
    pub fn deregister(self) -> (o: Self)
        ensures
            o.app == self.app,
            o.dest == self.dest,
            o.wish == (Wish { observe: OutgoingObserve::Deregister, ..self.wish }),
    {
        let mut o = self;
        o.wish.observe = OutgoingObserve::Deregister;
        o
    }

    /// Ask to be notified no more by the subscription of a call.
    pub fn deregister_call(self, call: Call) -> (o: Self)
        ensures
            o.app == self.app,
            o.dest == self.dest,
            o.wish == (Wish {
                observe: OutgoingObserve::Deregister,
                selected: Some(call),
                ..self.wish
            }),
    {
        let mut o = self;
        o.wish.observe = OutgoingObserve::Deregister;
        o.wish.selected = Some(call);
        o
    }

    /// Ask for a block of the response.
    pub fn block2(self, block: BlockValue) -> (o: Self)
        ensures
            o.app == self.app,
            o.dest == self.dest,
            o.wish == (Wish { block2: Some(block), ..self.wish }),
    {
        let mut o = self;
        o.wish.block2 = Some(block);
        o
    }

    /// Add a Uri-Query value.
    pub fn query(self, value: &'a str) -> (o: Self)
        ensures
            o.app == self.app,
            o.dest == self.dest,
            o.wish.queries@ == self.wish.queries@.push(value),
            o.wish == (Wish { queries: o.wish.queries, ..self.wish }),
    {
        let mut o = self;
        o.wish.queries.push(value);
        o
    }
}

impl<'a, P: MemoryProfile, T: DatagramIo, const N: usize, const BLOCK_WISE: bool> Outgoing<
    'a,
    P,
    T,
    N,
    Present,
    BLOCK_WISE,
> {
    /// Send the request. The call it gives is what its outcome is fetched by.
    pub fn send(self, now_ms: u64) -> (r: Result<Call, Error<T::Error>>)
        requires
            self.app.wf(),
            self.wish.wf(),
            self.dest.is_some(),
        ensures
            final(self.app).wf(),
            final(self.app).same_setup(&*old(self.app)),
            lives_kept(old(self.app).core, final(self.app).core),
            contacted(old(self.app).core, final(self.app).core, self.dest->0),
            called(
                old(self.app).core,
                final(self.app).core,
                self.wish,
                self.dest->0,
                now_ms,
                r,
            ),
    {
        let Outgoing { app, wish, dest, state: _ } = self;
        match dest {
            Some(peer) => app.core.send_call(wish, peer, now_ms),
            None => Err(Error::Path),
        }
    }
}

} // verus!
