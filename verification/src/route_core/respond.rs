use vstd::prelude::*;

use crate::route_http::response::{Response, ResponseView};
use crate::route_http::status::{status_number, StatusCode};
use crate::text::{decimal_i128, decimal_u128, pairs_view, signed_decimal, decimal};

verus! {

/// What a handler may return: it becomes a response.
pub trait Respondable: Sized {
    /// The response that the value becomes; a type that does not say
    /// leaves it unknown.
    open spec fn response_view(self) -> ResponseView {
        vstd::pervasive::arbitrary()
    }

    fn respond(self) -> (r: Response)
        ensures
            r@ == self.response_view(),
    ;
}

/// A `200` response with this body and a `content-type` header naming
/// `media`.
pub open spec fn typed_view(body: Seq<char>, media: Seq<char>) -> ResponseView {
    ResponseView { status: StatusCode::OK, headers: seq![("content-type"@, media)], body }
}

/// A `200` plain-text response with this body.
pub open spec fn text_view(body: Seq<char>) -> ResponseView {
    typed_view(body, "text/plain"@)
}

/// A `200` plain-text response with this body.
pub fn text_response(body: String) -> (r: Response)
    ensures
        r@ == text_view(body@),
{
    typed_response(body, "text/plain")
}

/// A `200` response with this body and a `content-type` header naming
/// `media`.
pub fn typed_response(body: String, media: &str) -> (r: Response)
    ensures
        r@ == typed_view(body@, media@),
{
    let mut headers = Vec::new();
    headers.push((String::from_str("content-type"), String::from_str(media)));
    assert(pairs_view(headers@) =~= seq![("content-type"@, media@)]);
    Response { status: StatusCode::OK, headers, body }
}

impl<T: Respondable> Respondable for Option<T> {
    /// The response of the value, or an empty `204` for nothing.
    open spec fn response_view(self) -> ResponseView {
        match self {
            Some(t) => t.response_view(),
            None => ResponseView { status: StatusCode::NoContent, headers: seq![], body: seq![] },
        }
    }

    fn respond(self) -> (r: Response) {
        match self {
            Some(t) => t.respond(),
            None => {
                let r = Response::with_status(StatusCode::NoContent);
                assert(r@.headers =~= seq![]);
                assert(r@.body =~= seq![]);
                r
            },
        }
    }
}

/// Nothing to answer with is an empty `204 No Content`; something is
/// answered as that thing would be on its own.
pub proof fn lemma_option_responses<T: Respondable>(t: T)
    ensures
        (None::<T>).response_view().status == StatusCode::NoContent,
        status_number((None::<T>).response_view().status) == 204,
        (None::<T>).response_view().headers.len() == 0,
        (None::<T>).response_view().body.len() == 0,
        Some(t).response_view() == t.response_view(),
{
}

/// A text answer is a `200 OK` whose body is the text and whose one
/// header says it is `text/plain`; an empty answer is an empty `200 OK`;
/// a status given with an answer replaces the answer's own status and
/// keeps the rest.
pub proof fn lemma_plain_responses<T: Respondable>(
    s: String,
    t: &str,
    status: StatusCode,
    x: T,
)
    ensures
        s.response_view().status == StatusCode::OK,
        s.response_view().body == s@,
        s.response_view().headers.len() == 1,
        s.response_view().headers[0].0 == seq!['c', 'o', 'n', 't', 'e', 'n', 't', '-', 't', 'y', 'p', 'e'],
        s.response_view().headers[0].1 == seq!['t', 'e', 'x', 't', '/', 'p', 'l', 'a', 'i', 'n'],
        t.response_view().status == StatusCode::OK,
        t.response_view().body == t@,
        t.response_view().headers == s.response_view().headers,
        ().response_view().status == StatusCode::OK,
        ().response_view().headers.len() == 0,
        ().response_view().body.len() == 0,
        (status, x).response_view().status == status,
        (status, x).response_view().headers == x.response_view().headers,
        (status, x).response_view().body == x.response_view().body,
{
    reveal_strlit("content-type");
    reveal_strlit("text/plain");
    assert("content-type"@ =~= seq!['c', 'o', 'n', 't', 'e', 'n', 't', '-', 't', 'y', 'p', 'e']);
    assert("text/plain"@ =~= seq!['t', 'e', 'x', 't', '/', 'p', 'l', 'a', 'i', 'n']);
}

impl Respondable for Response {
    /// The response itself.
    open spec fn response_view(self) -> ResponseView {
        self@
    }

    fn respond(self) -> (r: Response) {
        self
    }
}

impl Respondable for () {
    /// An empty `200` response.
    open spec fn response_view(self) -> ResponseView {
        ResponseView { status: StatusCode::OK, headers: seq![], body: seq![] }
    }

    fn respond(self) -> (r: Response) {
        let r = Response::with_status(StatusCode::OK);
        assert(r@.headers =~= seq![]);
        assert(r@.body =~= seq![]);
        r
    }
}

impl<T: Respondable, E: Respondable> Respondable for Result<T, E> {
    /// The response of the value or of the error.
    open spec fn response_view(self) -> ResponseView {
        match self {
            Ok(t) => t.response_view(),
            Err(e) => e.response_view(),
        }
    }

    fn respond(self) -> (r: Response) {
        match self {
            Ok(t) => t.respond(),
            Err(e) => e.respond(),
        }
    }
}

impl<T: Respondable> Respondable for (StatusCode, T) {
    /// The response of the value, with this status.
    open spec fn response_view(self) -> ResponseView {
        ResponseView { status: self.0, ..self.1.response_view() }
    }

    fn respond(self) -> (r: Response) {
        let (status, body) = self;
        let mut res = body.respond();
        res.status = status;
        res
    }
}

impl Respondable for String {
    /// A plain-text response with the string.
    open spec fn response_view(self) -> ResponseView {
        text_view(self@)
    }

    fn respond(self) -> (r: Response) {
        text_response(self)
    }
}

impl Respondable for &str {
    /// A plain-text response with the text.
    open spec fn response_view(self) -> ResponseView {
        text_view(self@)
    }

    fn respond(self) -> (r: Response) {
        text_response(String::from_str(self))
    }
}

impl Respondable for i8 {
    /// A plain-text response with the number in decimal.
    open spec fn response_view(self) -> ResponseView {
        text_view(signed_decimal(self as int))
    }

    fn respond(self) -> (r: Response) {
        text_response(decimal_i128(self as i128))
    }
}

impl Respondable for i16 {
    /// A plain-text response with the number in decimal.
    open spec fn response_view(self) -> ResponseView {
        text_view(signed_decimal(self as int))
    }

    fn respond(self) -> (r: Response) {
        text_response(decimal_i128(self as i128))
    }
}

impl Respondable for i32 {
    /// A plain-text response with the number in decimal.
    open spec fn response_view(self) -> ResponseView {
        text_view(signed_decimal(self as int))
    }

    fn respond(self) -> (r: Response) {
        text_response(decimal_i128(self as i128))
    }
}

impl Respondable for i64 {
    /// A plain-text response with the number in decimal.
    open spec fn response_view(self) -> ResponseView {
        text_view(signed_decimal(self as int))
    }

    fn respond(self) -> (r: Response) {
        text_response(decimal_i128(self as i128))
    }
}

impl Respondable for i128 {
    /// A plain-text response with the number in decimal.
    open spec fn response_view(self) -> ResponseView {
        text_view(signed_decimal(self as int))
    }

    fn respond(self) -> (r: Response) {
        text_response(decimal_i128(self))
    }
}

impl Respondable for isize {
    /// A plain-text response with the number in decimal.
    open spec fn response_view(self) -> ResponseView {
        text_view(signed_decimal(self as int))
    }

    fn respond(self) -> (r: Response) {
        text_response(decimal_i128(self as i128))
    }
}

impl Respondable for u8 {
    /// A plain-text response with the number in decimal.
    open spec fn response_view(self) -> ResponseView {
        text_view(decimal(self as nat))
    }

    fn respond(self) -> (r: Response) {
        text_response(decimal_u128(self as u128))
    }
}

impl Respondable for u16 {
    /// A plain-text response with the number in decimal.
    open spec fn response_view(self) -> ResponseView {
        text_view(decimal(self as nat))
    }

    fn respond(self) -> (r: Response) {
        text_response(decimal_u128(self as u128))
    }
}

impl Respondable for u32 {
    /// A plain-text response with the number in decimal.
    open spec fn response_view(self) -> ResponseView {
        text_view(decimal(self as nat))
    }

    fn respond(self) -> (r: Response) {
        text_response(decimal_u128(self as u128))
    }
}

impl Respondable for u64 {
    /// A plain-text response with the number in decimal.
    open spec fn response_view(self) -> ResponseView {
        text_view(decimal(self as nat))
    }

    fn respond(self) -> (r: Response) {
        text_response(decimal_u128(self as u128))
    }
}

impl Respondable for u128 {
    /// A plain-text response with the number in decimal.
    open spec fn response_view(self) -> ResponseView {
        text_view(decimal(self as nat))
    }

    fn respond(self) -> (r: Response) {
        text_response(decimal_u128(self))
    }
}

impl Respondable for usize {
    /// A plain-text response with the number in decimal.
    open spec fn response_view(self) -> ResponseView {
        text_view(decimal(self as nat))
    }

    fn respond(self) -> (r: Response) {
        text_response(decimal_u128(self as u128))
    }
}

} // verus!
