use vstd::prelude::*;

use crate::text::str_eq;

verus! {

/// The request methods that the framework routes on.
#[derive(Debug, Clone, Copy, PartialEq, Eq, Hash, Structural)]
pub enum HttpMethod {
    Get,
    Post,
    Patch,
    Put,
    Delete,
    Options,
    Head,
    Trace,
}

/// Returned when a method name is not one of the eight known methods.
#[derive(Debug, Clone, Copy, PartialEq, Eq, Structural)]
pub struct InvalidHttpMethod;

/// The method that the exact, case-sensitive method name `name` denotes.
pub open spec fn spec_method_from_name(name: Seq<char>) -> Option<HttpMethod> {
    if name == "GET"@ {
        Some(HttpMethod::Get)
    } else if name == "POST"@ {
        Some(HttpMethod::Post)
    } else if name == "PATCH"@ {
        Some(HttpMethod::Patch)
    } else if name == "PUT"@ {
        Some(HttpMethod::Put)
    } else if name == "DELETE"@ {
        Some(HttpMethod::Delete)
    } else if name == "OPTIONS"@ {
        Some(HttpMethod::Options)
    } else if name == "HEAD"@ {
        Some(HttpMethod::Head)
    } else if name == "TRACE"@ {
        Some(HttpMethod::Trace)
    } else {
        None
    }
}

/// The canonical (upper case) name of a method.
pub open spec fn spec_method_name(m: HttpMethod) -> Seq<char> {
    match m {
        HttpMethod::Get => "GET"@,
        HttpMethod::Post => "POST"@,
        HttpMethod::Patch => "PATCH"@,
        HttpMethod::Put => "PUT"@,
        HttpMethod::Delete => "DELETE"@,
        HttpMethod::Options => "OPTIONS"@,
        HttpMethod::Head => "HEAD"@,
        HttpMethod::Trace => "TRACE"@,
    }
}

impl HttpMethod {
    /// Parses an exact, case-sensitive method name.
    pub fn try_from_str(value: &str) -> (r: Result<HttpMethod, InvalidHttpMethod>)
        ensures
            r == (match spec_method_from_name(value@) {
                Some(m) => Ok(m),
                None => Err(InvalidHttpMethod),
            }),
    {
        proof {
            reveal_strlit("GET");
            reveal_strlit("POST");
            reveal_strlit("PATCH");
            reveal_strlit("PUT");
            reveal_strlit("DELETE");
            reveal_strlit("OPTIONS");
            reveal_strlit("HEAD");
            reveal_strlit("TRACE");
        }
        if str_eq(value, "GET") {
            Ok(HttpMethod::Get)
        } else if str_eq(value, "POST") {
            Ok(HttpMethod::Post)
        } else if str_eq(value, "PATCH") {
            Ok(HttpMethod::Patch)
        } else if str_eq(value, "PUT") {
            Ok(HttpMethod::Put)
        } else if str_eq(value, "DELETE") {
            Ok(HttpMethod::Delete)
        } else if str_eq(value, "OPTIONS") {
            Ok(HttpMethod::Options)
        } else if str_eq(value, "HEAD") {
            Ok(HttpMethod::Head)
        } else if str_eq(value, "TRACE") {
            Ok(HttpMethod::Trace)
        } else {
            Err(InvalidHttpMethod)
        }
    }

    /// Every method but POST is idempotent.
    pub fn is_idempotent(&self) -> (r: bool)
        ensures
            r == (*self != HttpMethod::Post),
    {
        match self {
            HttpMethod::Get
            | HttpMethod::Head
            | HttpMethod::Options
            | HttpMethod::Trace
            | HttpMethod::Delete
            | HttpMethod::Patch
            | HttpMethod::Put => true,
            HttpMethod::Post => false,
        }
    }

    /// GET, HEAD, OPTIONS and TRACE are safe (read-only).
    pub fn is_safe(&self) -> (r: bool)
        ensures
            r == (*self == HttpMethod::Get || *self == HttpMethod::Head || *self
                == HttpMethod::Options || *self == HttpMethod::Trace),
    {
        match self {
            HttpMethod::Get | HttpMethod::Head | HttpMethod::Options | HttpMethod::Trace => true,
            HttpMethod::Post | HttpMethod::Delete | HttpMethod::Patch | HttpMethod::Put => false,
        }
    }

    /// Only GET and HEAD responses are cacheable.
    pub fn is_cacheable(&self) -> (r: bool)
        ensures
            r == (*self == HttpMethod::Get || *self == HttpMethod::Head),
    {
        match self {
            HttpMethod::Get | HttpMethod::Head => true,
            HttpMethod::Options
            | HttpMethod::Trace
            | HttpMethod::Post
            | HttpMethod::Delete
            | HttpMethod::Patch
            | HttpMethod::Put => false,
        }
    }
}

/// Each method's canonical name reads back as that method.
pub proof fn lemma_method_name_round_trip(m: HttpMethod)
    ensures
        spec_method_from_name(spec_method_name(m)) == Some(m),
{
    reveal_strlit("GET");
    reveal_strlit("POST");
    reveal_strlit("PATCH");
    reveal_strlit("PUT");
    reveal_strlit("DELETE");
    reveal_strlit("OPTIONS");
    reveal_strlit("HEAD");
    reveal_strlit("TRACE");
    assert("GET"@.len() == 3 && "POST"@.len() == 4 && "PATCH"@.len() == 5 && "PUT"@.len() == 3);
    assert("DELETE"@.len() == 6 && "OPTIONS"@.len() == 7 && "HEAD"@.len() == 4 && "TRACE"@.len() == 5);
    assert("PUT"@[0] != "GET"@[0]);
    assert("HEAD"@[0] != "POST"@[0]);
    assert("TRACE"@[0] != "PATCH"@[0]);
}

/// A cacheable method is safe, and a safe method is idempotent.
pub proof fn lemma_method_classes(m: HttpMethod)
    ensures
        (m == HttpMethod::Get || m == HttpMethod::Head) ==> (m == HttpMethod::Get || m == HttpMethod::Head || m
            == HttpMethod::Options || m == HttpMethod::Trace),
        (m == HttpMethod::Get || m == HttpMethod::Head || m == HttpMethod::Options || m == HttpMethod::Trace) ==> m
            != HttpMethod::Post,
{
}

/// Each method's name is its standard upper-case name.
pub proof fn lemma_method_names()
    ensures
        spec_method_name(HttpMethod::Get) == seq!['G', 'E', 'T'],
        spec_method_name(HttpMethod::Post) == seq!['P', 'O', 'S', 'T'],
        spec_method_name(HttpMethod::Patch) == seq!['P', 'A', 'T', 'C', 'H'],
        spec_method_name(HttpMethod::Put) == seq!['P', 'U', 'T'],
        spec_method_name(HttpMethod::Delete) == seq!['D', 'E', 'L', 'E', 'T', 'E'],
        spec_method_name(HttpMethod::Options) == seq!['O', 'P', 'T', 'I', 'O', 'N', 'S'],
        spec_method_name(HttpMethod::Head) == seq!['H', 'E', 'A', 'D'],
        spec_method_name(HttpMethod::Trace) == seq!['T', 'R', 'A', 'C', 'E'],
{
    reveal_strlit("GET");
    reveal_strlit("POST");
    reveal_strlit("PATCH");
    reveal_strlit("PUT");
    reveal_strlit("DELETE");
    reveal_strlit("OPTIONS");
    reveal_strlit("HEAD");
    reveal_strlit("TRACE");
    assert(spec_method_name(HttpMethod::Get) =~= seq!['G', 'E', 'T']);
    assert(spec_method_name(HttpMethod::Post) =~= seq!['P', 'O', 'S', 'T']);
    assert(spec_method_name(HttpMethod::Patch) =~= seq!['P', 'A', 'T', 'C', 'H']);
    assert(spec_method_name(HttpMethod::Put) =~= seq!['P', 'U', 'T']);
    assert(spec_method_name(HttpMethod::Delete) =~= seq!['D', 'E', 'L', 'E', 'T', 'E']);
    assert(spec_method_name(HttpMethod::Options) =~= seq!['O', 'P', 'T', 'I', 'O', 'N', 'S']);
    assert(spec_method_name(HttpMethod::Head) =~= seq!['H', 'E', 'A', 'D']);
    assert(spec_method_name(HttpMethod::Trace) =~= seq!['T', 'R', 'A', 'C', 'E']);
}

} // verus!
