use vstd::prelude::*;

verus! {

/// A response status: the common ones by name, any other by number.
#[derive(Debug, Clone, Copy, PartialEq, Eq, Structural)]
pub enum StatusCode {
    OK,
    Created,
    Accepted,
    NoContent,
    BadRequest,
    Unauthorized,
    Forbidden,
    NotFound,
    MethodNotAllowed,
    Conflict,
    InternalServerError,
    NotImplemented,
    ServiceUnavailable,
    GatewayTimeout,
    ImATeapot,
    Other(u16),
}

/// The number of a status.
pub open spec fn status_number(s: StatusCode) -> u16 {
    match s {
        StatusCode::OK => 200,
        StatusCode::Created => 201,
        StatusCode::Accepted => 202,
        StatusCode::NoContent => 204,
        StatusCode::BadRequest => 400,
        StatusCode::Unauthorized => 401,
        StatusCode::Forbidden => 403,
        StatusCode::NotFound => 404,
        StatusCode::MethodNotAllowed => 405,
        StatusCode::Conflict => 409,
        StatusCode::InternalServerError => 500,
        StatusCode::NotImplemented => 501,
        StatusCode::ServiceUnavailable => 503,
        StatusCode::GatewayTimeout => 504,
        StatusCode::ImATeapot => 418,
        StatusCode::Other(n) => n,
    }
}

/// The status for a number: the named one where there is one, `Other`
/// otherwise.
pub open spec fn status_of_number(n: u16) -> StatusCode {
    if n == 200 {
        StatusCode::OK
    } else if n == 201 {
        StatusCode::Created
    } else if n == 202 {
        StatusCode::Accepted
    } else if n == 204 {
        StatusCode::NoContent
    } else if n == 400 {
        StatusCode::BadRequest
    } else if n == 401 {
        StatusCode::Unauthorized
    } else if n == 403 {
        StatusCode::Forbidden
    } else if n == 404 {
        StatusCode::NotFound
    } else if n == 405 {
        StatusCode::MethodNotAllowed
    } else if n == 409 {
        StatusCode::Conflict
    } else if n == 500 {
        StatusCode::InternalServerError
    } else if n == 501 {
        StatusCode::NotImplemented
    } else if n == 503 {
        StatusCode::ServiceUnavailable
    } else if n == 504 {
        StatusCode::GatewayTimeout
    } else if n == 418 {
        StatusCode::ImATeapot
    } else {
        StatusCode::Other(n)
    }
}

/// A status in its one canonical form: `Other` only for a number that has
/// no name.
pub open spec fn is_canonical(s: StatusCode) -> bool {
    s matches StatusCode::Other(n) ==> status_of_number(n) is Other
}

impl StatusCode {
    pub fn as_u16(&self) -> (r: u16)
        ensures
            r == status_number(*self),
    {
        match self {
            StatusCode::OK => 200,
            StatusCode::Created => 201,
            StatusCode::Accepted => 202,
            StatusCode::NoContent => 204,
            StatusCode::BadRequest => 400,
            StatusCode::Unauthorized => 401,
            StatusCode::Forbidden => 403,
            StatusCode::NotFound => 404,
            StatusCode::MethodNotAllowed => 405,
            StatusCode::Conflict => 409,
            StatusCode::InternalServerError => 500,
            StatusCode::NotImplemented => 501,
            StatusCode::ServiceUnavailable => 503,
            StatusCode::GatewayTimeout => 504,
            StatusCode::ImATeapot => 418,
            StatusCode::Other(n) => *n,
        }
    }

    pub fn from_u16(n: u16) -> (r: StatusCode)
        ensures
            r == status_of_number(n),
    {
        match n {
            200 => StatusCode::OK,
            201 => StatusCode::Created,
            202 => StatusCode::Accepted,
            204 => StatusCode::NoContent,
            400 => StatusCode::BadRequest,
            401 => StatusCode::Unauthorized,
            403 => StatusCode::Forbidden,
            404 => StatusCode::NotFound,
            405 => StatusCode::MethodNotAllowed,
            409 => StatusCode::Conflict,
            500 => StatusCode::InternalServerError,
            501 => StatusCode::NotImplemented,
            503 => StatusCode::ServiceUnavailable,
            504 => StatusCode::GatewayTimeout,
            418 => StatusCode::ImATeapot,
            _ => StatusCode::Other(n),
        }
    }
}

/// A number read back from its status is the number itself.
pub proof fn lemma_number_round_trip(n: u16)
    ensures
        status_number(status_of_number(n)) == n,
        is_canonical(status_of_number(n)),
{
}

/// A canonical status read back from its number is the status itself.
pub proof fn lemma_status_round_trip(s: StatusCode)
    requires
        is_canonical(s),
    ensures
        status_of_number(status_number(s)) == s,
{
}

/// Each named status has its standard number (RFC 9110, and 418 of
/// RFC 2324), and each of those numbers names that status.
pub proof fn lemma_standard_status_numbers()
    ensures
        status_number(StatusCode::OK) == 200,
        status_number(StatusCode::Created) == 201,
        status_number(StatusCode::Accepted) == 202,
        status_number(StatusCode::NoContent) == 204,
        status_number(StatusCode::BadRequest) == 400,
        status_number(StatusCode::Unauthorized) == 401,
        status_number(StatusCode::Forbidden) == 403,
        status_number(StatusCode::NotFound) == 404,
        status_number(StatusCode::MethodNotAllowed) == 405,
        status_number(StatusCode::Conflict) == 409,
        status_number(StatusCode::ImATeapot) == 418,
        status_number(StatusCode::InternalServerError) == 500,
        status_number(StatusCode::NotImplemented) == 501,
        status_number(StatusCode::ServiceUnavailable) == 503,
        status_number(StatusCode::GatewayTimeout) == 504,
        status_of_number(200) == StatusCode::OK,
        status_of_number(201) == StatusCode::Created,
        status_of_number(202) == StatusCode::Accepted,
        status_of_number(204) == StatusCode::NoContent,
        status_of_number(400) == StatusCode::BadRequest,
        status_of_number(401) == StatusCode::Unauthorized,
        status_of_number(403) == StatusCode::Forbidden,
        status_of_number(404) == StatusCode::NotFound,
        status_of_number(405) == StatusCode::MethodNotAllowed,
        status_of_number(409) == StatusCode::Conflict,
        status_of_number(418) == StatusCode::ImATeapot,
        status_of_number(500) == StatusCode::InternalServerError,
        status_of_number(501) == StatusCode::NotImplemented,
        status_of_number(503) == StatusCode::ServiceUnavailable,
        status_of_number(504) == StatusCode::GatewayTimeout,
{
}

/// The class of a status follows its number: the named success statuses
/// are in the 2xx range, the client errors in 4xx, the server errors in
/// 5xx.
pub proof fn lemma_status_classes(s: StatusCode)
    ensures
        (s == StatusCode::OK || s == StatusCode::Created || s == StatusCode::Accepted || s
            == StatusCode::NoContent) ==> 200 <= status_number(s) < 300,
        (s == StatusCode::BadRequest || s == StatusCode::Unauthorized || s == StatusCode::Forbidden
            || s == StatusCode::NotFound || s == StatusCode::MethodNotAllowed || s
            == StatusCode::Conflict || s == StatusCode::ImATeapot) ==> 400 <= status_number(s) < 500,
        (s == StatusCode::InternalServerError || s == StatusCode::NotImplemented || s
            == StatusCode::ServiceUnavailable || s == StatusCode::GatewayTimeout) ==> 500
            <= status_number(s) < 600,
{
}

} // verus!
