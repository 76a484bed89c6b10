use vstd::prelude::*;

use crate::route_http::request::{ascii_lower, first_header, Request};
use crate::text::{pairs_view, str_eq};

verus! {

/// Why a request body could not be read.
#[derive(Debug, Clone, Copy, PartialEq, Eq, Structural)]
pub enum BodyParseError {
    /// The `content-type` header is missing or names another type.
    ContentTypeInvalid,
    /// The body is empty.
    NoBody,
}

/// Takes a value of type `T` out of a request, or fails with `R`.
pub trait RequestExtractor<T, R> {
    fn extract(&self) -> Result<T, R>;
}

/// The body of a request, as bytes.
#[derive(Debug)]
pub struct Bytes<T>(pub T);

impl Request {
    /// A copy of the request.
    pub fn duplicate(&self) -> (r: Request)
        ensures
            r.method@ == self.method@,
            r.uri@ == self.uri@,
            pairs_view(r.headers@) == pairs_view(self.headers@),
            r.body@ == self.body@,
            self.wf() ==> r.wf(),
    {
        let mut headers: Vec<(String, String)> = Vec::new();
        let mut i: usize = 0;
        while i < self.headers.len()
            invariant
                i <= self.headers@.len(),
                pairs_view(headers@) =~= pairs_view(self.headers@.take(i as int)),
            decreases self.headers@.len() - i,
        {
            let ghost before = pairs_view(headers@);
            let k = self.headers[i].0.clone();
            let v = self.headers[i].1.clone();
            let ghost kv = (k@, v@);
            headers.push((k, v));
            assert(pairs_view(headers@) =~= before.push(kv));
            assert(self.headers@.take(i + 1) =~= self.headers@.take(i as int).push(self.headers@[i as int]));
            i = i + 1;
        }
        assert(self.headers@.take(self.headers@.len() as int) =~= self.headers@);
        assert(self.wf() ==> forall|i: int| 0 <= i < headers@.len() ==> ascii_lower(#[trigger] headers@[i].0@)
            == headers@[i].0@) by {
            if self.wf() {
                assert forall|i: int| 0 <= i < headers@.len() implies ascii_lower(#[trigger] headers@[i].0@)
                    == headers@[i].0@ by {
                    assert(pairs_view(headers@)[i] == pairs_view(self.headers@)[i]);
                    assert(ascii_lower(self.headers@[i].0@) == self.headers@[i].0@);
                }
            }
        }
        Request { method: self.method.clone(), uri: self.uri.clone(), headers, body: self.body.clone() }
    }
}

impl RequestExtractor<Request, core::convert::Infallible> for Request {
    /// The request itself (a copy); never fails.
    fn extract(&self) -> (r: Result<Request, core::convert::Infallible>)
        ensures
            r matches Ok(q) && q.method@ == self.method@ && q.uri@ == self.uri@ && pairs_view(q.headers@)
                == pairs_view(self.headers@) && q.body@ == self.body@,
    {
        Ok(self.duplicate())
    }
}

impl Bytes<Vec<u8>> {
    /// The body of the request.
    pub fn from_request(req: &Request) -> (r: Bytes<Vec<u8>>)
        ensures
            r.0@ == req.body@,
    {
        Bytes(req.body.clone())
    }
}

/// What reading a body of media type `media` owes: `ContentTypeInvalid`
/// unless the first `content-type` header is exactly `media`, then
/// `NoBody` when the body is empty.
pub open spec fn body_check(req: Request, media: Seq<char>) -> Result<(), BodyParseError> {
    match first_header(pairs_view(req.headers@), "Content-Type"@) {
        None => Err(BodyParseError::ContentTypeInvalid),
        Some(i) => if req.headers@[i].1@ != media {
            Err(BodyParseError::ContentTypeInvalid)
        } else if req.body@.len() == 0 {
            Err(BodyParseError::NoBody)
        } else {
            Ok(())
        },
    }
}

/// Checks that the request carries a body of media type `media`, and gives
/// the body.
pub fn typed_body<'a>(req: &'a Request, media: &str) -> (r: Result<&'a Vec<u8>, BodyParseError>)
    ensures
        match r {
            Ok(b) => body_check(*req, media@) is Ok && *b == req.body,
            Err(e) => body_check(*req, media@) == Err::<(), BodyParseError>(e),
        },
{
    match req.header("Content-Type") {
        None => Err(BodyParseError::ContentTypeInvalid),
        Some(v) => {
            if !str_eq(v.as_str(), media) {
                Err(BodyParseError::ContentTypeInvalid)
            } else if req.body.len() == 0 {
                Err(BodyParseError::NoBody)
            } else {
                Ok(&req.body)
            }
        },
    }
}

/// The body of a request that carries json, for a json reader.
pub fn json_body(req: &Request) -> (r: Result<&Vec<u8>, BodyParseError>)
    ensures
        match r {
            Ok(b) => body_check(*req, "application/json"@) is Ok && *b == req.body,
            Err(e) => body_check(*req, "application/json"@) == Err::<(), BodyParseError>(e),
        },
{
    typed_body(req, "application/json")
}

/// The body of a request that carries a url-encoded form, for a form
/// reader.
pub fn urlencoded_body(req: &Request) -> (r: Result<&Vec<u8>, BodyParseError>)
    ensures
        match r {
            Ok(b) => body_check(*req, "application/x-www-form-urlencoded"@) is Ok && *b == req.body,
            Err(e) => body_check(*req, "application/x-www-form-urlencoded"@) == Err::<(), BodyParseError>(e),
        },
{
    typed_body(req, "application/x-www-form-urlencoded")
}

} // verus!
