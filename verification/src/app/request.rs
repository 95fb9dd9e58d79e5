//! Requests as a handler sees them.
use vstd::prelude::*;

use super::path::{path_of_message, texts_of, uri_path_fault, PathError};
use super::routing::Method;
use crate::error::ValueError;
use crate::message::fields::{
    block_option, first_value, format_option, observes_with, octets_of, precondition_of, slices_of,
    text_value, uint_option, values_of,
};
use crate::message::option::opts_of;
use crate::message::wire::MessageView;
use crate::message::{
    BlockValue, Code, ContentFormat, MessageId, NoResponse, Opt, ParsedMessage, Precondition, Token,
    Type,
};
use crate::storage::Endpoint;

verus! {

/// What a request says.
pub struct RequestView {
    /// The message.
    pub message: MessageView,
    /// Uri-Path segments.
    pub path: Seq<Seq<u8>>,
    /// The sender.
    pub peer: Endpoint,
    /// The assembled body, when it came in blocks.
    pub body: Option<Seq<u8>>,
}

/// A borrowed view of an inbound request.
#[derive(Clone, Debug)]
pub struct Request<'a> {
    message: ParsedMessage<'a>,
    path: Vec<&'a str>,
    peer: Endpoint,
    body: Option<&'a [u8]>,
}

impl<'a> View for Request<'a> {
    type V = RequestView;

    closed spec fn view(&self) -> RequestView {
        RequestView {
            message: self.message@,
            path: texts_of(self.path@),
            peer: self.peer,
            body: octets_of(self.body),
        }
    }
}

impl<'a> Request<'a> {
    /// A request from a decoded message, unless its Uri-Path is refused.
    pub fn from_decoded(
        message: ParsedMessage<'a>,
        peer: Endpoint,
        body: Option<&'a [u8]>,
    ) -> (r: Result<Request<'a>, PathError>)
        ensures
            match uri_path_fault(values_of(message@.options, 11)) {
                Some(e) => r == Err::<Request<'a>, PathError>(e),
                None => r matches Ok(req) && req@ == (RequestView {
                    message: message@,
                    path: values_of(message@.options, 11),
                    peer,
                    body: octets_of(body),
                }),
            },
    {
        match path_of_message(&message) {
            Ok(path) => Ok(Request { message, path, peer, body }),
            Err(e) => Err(e),
        }
    }

    /// The method, if the code names one.
    pub fn method(&self) -> (m: Option<Method>)
        ensures
            m == Method::of_code(self@.message.code),
    {
        Method::from_code(self.message.code())
    }

    /// The code.
    pub fn code(&self) -> (c: Code)
        ensures
            c == self@.message.code,
    {
        self.message.code()
    }

    /// Uri-Path segments.
    pub fn path(&self) -> (p: &[&'a str])
        ensures
            texts_of(p@) == self@.path,
    {
        self.path.as_slice()
    }

    /// The sender.
    pub fn peer(&self) -> (e: Endpoint)
        ensures
            e == self@.peer,
    {
        self.peer
    }

    /// The payload of this datagram.
    pub fn payload(&self) -> (p: &'a [u8])
        ensures
            p@ == self@.message.payload,
    {
        self.message.payload()
    }

    /// The assembled body, when it came in blocks.
    pub fn body(&self) -> (b: Option<&'a [u8]>)
        ensures
            octets_of(b) == self@.body,
    {
        self.body
    }

    /// Did the body come in blocks?
    pub fn has_body(&self) -> (b: bool)
        ensures
            b == self@.body.is_some(),
    {
        self.body.is_some()
    }

    /// The token.
    pub fn token(&self) -> (t: Token)
        ensures
            t@ == self@.message.token,
    {
        self.message.token()
    }

    /// The message identifier.
    pub fn message_id(&self) -> (m: MessageId)
        ensures
            m.raw == self@.message.id,
    {
        self.message.message_id()
    }

    /// The message type.
    pub fn ty(&self) -> (t: Type)
        ensures
            t == self@.message.ty,
    {
        self.message.ty()
    }

    /// All options in order.
    pub fn options(&self) -> (o: &[Opt<'a>])
        ensures
            opts_of(o@) == self@.message.options,
    {
        self.message.options()
    }

    /// The first option with a number.
    pub fn get_option(&self, number: u16) -> (r: Option<Opt<'a>>)
        ensures
            r.is_some() == first_value(self@.message.options, number).is_some(),
            r matches Some(o) ==> o@.number == number && first_value(self@.message.options, number)
                == Some(o@.value),
    {
        self.message.get_option(number)
    }

    /// Uri-Host.
    pub fn uri_host(&self) -> (r: Option<Result<&'a str, ValueError>>)
        ensures
            r.is_some() == first_value(self@.message.options, 3).is_some(),
            r matches Some(t) ==> text_value(t, first_value(self@.message.options, 3)->0),
    {
        self.message.uri_host()
    }

    /// Uri-Port.
    pub fn uri_port(&self) -> (r: Option<Result<u16, ValueError>>)
        ensures
            r == match uint_option(self@.message.options, 7, 2) {
                Some(Ok(n)) => Some(Ok(n as u16)),
                Some(Err(e)) => Some(Err(e)),
                None => None,
            },
    {
        self.message.uri_port()
    }

    /// Uri-Query values, in order.
    pub fn uri_query(&self) -> (out: Vec<Result<&'a str, ValueError>>)
        ensures
            out@.len() == values_of(self@.message.options, 15).len(),
            forall|i: int|
                0 <= i < out@.len() ==> #[trigger] text_value(
                    out@[i],
                    values_of(self@.message.options, 15)[i],
                ),
    {
        self.message.uri_query()
    }

    /// Content-Format.
    pub fn content_format(&self) -> (r: Option<Result<ContentFormat, ValueError>>)
        ensures
            r == format_option(self@.message.options, 12),
    {
        self.message.content_format()
    }

    /// Accept.
    pub fn accept(&self) -> (r: Option<Result<ContentFormat, ValueError>>)
        ensures
            r == format_option(self@.message.options, 17),
    {
        self.message.accept()
    }

    /// Observe.
    pub fn observe(&self) -> (r: Option<Result<u32, ValueError>>)
        ensures
            r == uint_option(self@.message.options, 6, 3),
    {
        self.message.observe()
    }

    /// Does the request, GET or FETCH, ask to be registered as an observer?
    pub fn is_observe_register(&self) -> (b: bool)
        ensures
            b == observes_with(self@.message, 0),
    {
        self.message.is_observe_register()
    }

    /// Does the request, GET or FETCH, ask to be removed as an observer?
    pub fn is_observe_deregister(&self) -> (b: bool)
        ensures
            b == observes_with(self@.message, 1),
    {
        self.message.is_observe_deregister()
    }

    /// All ETags, in order.
    pub fn etag(&self) -> (out: Vec<&'a [u8]>)
        ensures
            slices_of(out@) == values_of(self@.message.options, 4),
    {
        self.message.etag()
    }

    /// All If-Match values, in order.
    pub fn if_match(&self) -> (out: Vec<&'a [u8]>)
        ensures
            slices_of(out@) == values_of(self@.message.options, 1),
    {
        self.message.if_match()
    }

    /// Is If-None-Match present?
    pub fn if_none_match(&self) -> (b: bool)
        ensures
            b == (values_of(self@.message.options, 5).len() > 0),
    {
        self.message.if_none_match()
    }

    /// Do the conditional options hold for a resource that exists or not, with
    /// the given ETag?
    pub fn precondition(&self, exists_now: bool, etag: Option<&[u8]>) -> (p: Precondition)
        ensures
            p == precondition_of(self@.message.options, exists_now, octets_of(etag)),
    {
        self.message.precondition(exists_now, etag)
    }

    /// Block1.
    pub fn block1(&self) -> (r: Option<Result<BlockValue, ValueError>>)
        ensures
            r == block_option(self@.message.options, 27),
    {
        self.message.block1()
    }

    /// Q-Block1.
    pub fn q_block1(&self) -> (r: Option<Result<BlockValue, ValueError>>)
        ensures
            r == block_option(self@.message.options, 19),
    {
        self.message.q_block1()
    }

    /// Size1.
    pub fn size1(&self) -> (r: Option<Result<u32, ValueError>>)
        ensures
            r == uint_option(self@.message.options, 60, 4),
    {
        self.message.size1()
    }

    /// All Request-Tags, in order.
    pub fn request_tag(&self) -> (out: Vec<&'a [u8]>)
        ensures
            slices_of(out@) == values_of(self@.message.options, 292),
    {
        self.message.request_tag()
    }

    /// The first Echo value.
    pub fn echo(&self) -> (r: Option<&'a [u8]>)
        ensures
            octets_of(r) == first_value(self@.message.options, 252),
    {
        self.message.echo()
    }

    /// Hop-Limit.
    pub fn hop_limit(&self) -> (r: Option<Result<u8, ValueError>>)
        ensures
            r == match uint_option(self@.message.options, 16, 1) {
                Some(Ok(n)) => Some(Ok(n as u8)),
                Some(Err(e)) => Some(Err(e)),
                None => None,
            },
    {
        self.message.hop_limit()
    }

    /// No-Response.
    pub fn no_response(&self) -> (r: Option<Result<NoResponse, ValueError>>)
        ensures
            r == match first_value(self@.message.options, 258) {
                Some(v) => Some(NoResponse::of_octets(v)),
                None => None,
            },
    {
        self.message.no_response()
    }

    /// The decoded message.
    pub fn message(&self) -> (m: &ParsedMessage<'a>)
        ensures
            m@ == self@.message,
    {
        &self.message
    }
}

} // verus!
