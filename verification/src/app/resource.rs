//! Resources as objects.
use vstd::prelude::*;

use super::request::Request;
use super::response::{bare_response, Response};
use crate::message::Code;

verus! {

/// A resource with state of its own. Methods that it does not have are
/// answered 4.05.
pub trait Resource: Sized {
    /// Answer a GET.
    fn get(&mut self, _req: &Request<'_>) -> (r: Response<'static>)
        default_ensures
            r@ == bare_response(Code::METHOD_NOT_ALLOWED),
            *final(self) == *old(self),
    {
        Response::method_not_allowed()
    }

    /// Answer a POST.
    fn post(&mut self, _req: &Request<'_>) -> (r: Response<'static>)
        default_ensures
            r@ == bare_response(Code::METHOD_NOT_ALLOWED),
            *final(self) == *old(self),
    {
        Response::method_not_allowed()
    }

    /// Answer a PUT.
    fn put(&mut self, _req: &Request<'_>) -> (r: Response<'static>)
        default_ensures
            r@ == bare_response(Code::METHOD_NOT_ALLOWED),
            *final(self) == *old(self),
    {
        Response::method_not_allowed()
    }

    /// Answer a DELETE.
    fn delete(&mut self, _req: &Request<'_>) -> (r: Response<'static>)
        default_ensures
            r@ == bare_response(Code::METHOD_NOT_ALLOWED),
            *final(self) == *old(self),
    {
        Response::method_not_allowed()
    }

    /// Answer a FETCH.
    fn fetch(&mut self, _req: &Request<'_>) -> (r: Response<'static>)
        default_ensures
            r@ == bare_response(Code::METHOD_NOT_ALLOWED),
            *final(self) == *old(self),
    {
        Response::method_not_allowed()
    }

    /// Answer a PATCH.
    fn patch(&mut self, _req: &Request<'_>) -> (r: Response<'static>)
        default_ensures
            r@ == bare_response(Code::METHOD_NOT_ALLOWED),
            *final(self) == *old(self),
    {
        Response::method_not_allowed()
    }

    /// Answer an iPATCH.
    fn ipatch(&mut self, _req: &Request<'_>) -> (r: Response<'static>)
        default_ensures
            r@ == bare_response(Code::METHOD_NOT_ALLOWED),
            *final(self) == *old(self),
    {
        Response::method_not_allowed()
    }
}

} // verus!
