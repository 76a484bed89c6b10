use vstd::prelude::*;

use crate::route_core::respond::Respondable;
use crate::route_http::response::{check_header_value, is_header_value, Response, ResponseView};
use crate::route_http::status::StatusCode;
use crate::text::pairs_view;

verus! {

/// A response that sends the client elsewhere.
#[derive(Debug)]
pub struct Redirect {
    pub to: &'static str,
    pub status_code: StatusCode,
}

impl Redirect {
    /// A temporary redirect (`307`) to `to`.
    pub fn new(to: &'static str) -> (r: Redirect)
        ensures
            r.to@ == to@,
            r.status_code == StatusCode::Other(307),
    {
        Redirect { to, status_code: StatusCode::Other(307) }
    }
}

impl Respondable for Redirect {
    /// An empty response with the redirect's status and a `location`
    /// header with the target, which is left out when the target cannot be
    /// a header value.
    open spec fn response_view(self) -> ResponseView {
        ResponseView {
            status: self.status_code,
            headers: if is_header_value(self.to@) {
                seq![("location"@, self.to@)]
            } else {
                seq![]
            },
            body: seq![],
        }
    }

    fn respond(self) -> (r: Response) {
        let mut res = Response::new(String::new());
        res.status = self.status_code;
        assert(res.body@ =~= seq![]);
        if check_header_value(self.to) {
            res.headers.push((String::from_str("location"), String::from_str(self.to)));
            assert(pairs_view(res.headers@) =~= seq![("location"@, self.to@)]);
        } else {
            assert(pairs_view(res.headers@) =~= Seq::<(Seq<char>, Seq<char>)>::empty());
        }
        res
    }
}

} // verus!
