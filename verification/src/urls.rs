//! Addresses: the base of an address, and the methods that a request may use.

use crate::http::HttpMethod;
use crate::patterns::{to_upper, upper};
use crate::text::{find_any, find_from, first_in, first_match, from_chars, substring, to_chars};
use vstd::prelude::*;
use vstd::string::StringExecFns;

verus! {

/// The characters that end the host of an address.
pub open spec fn host_ends() -> Seq<char> {
    seq!['/', '?', '#']
}

/// The base of an address: scheme and host, up to the first `/`, `?` or `#`
/// after the `://`. An address without `://`, or without anything after its
/// host, is its own base.
pub open spec fn base_url_of(url: Seq<char>) -> Seq<char> {
    match first_match(url, seq![':', '/', '/'], 0) {
        Some(i) => match first_in(url, host_ends(), i + 3) {
            Some(j) => url.subrange(0, j),
            None => url,
        },
        None => url,
    }
}

/// The base of an address.
pub fn obtain_base_url(url: &str) -> (r: String)
    ensures
        r@ == base_url_of(url@),
{
    let all = to_chars(url);
    let mut mark: Vec<char> = Vec::new();
    mark.push(':');
    mark.push('/');
    mark.push('/');
    assert(mark@ =~= seq![':', '/', '/']);
    let mut ends: Vec<char> = Vec::new();
    ends.push('/');
    ends.push('?');
    ends.push('#');
    assert(ends@ =~= host_ends());
    match find_from(&all, &mark, 0) {
        Some(i) => match find_any(&all, &ends, i + 3) {
            Some(j) => substring(&all, 0, j),
            None => from_chars(&all),
        },
        None => from_chars(&all),
    }
}

/// The method that a text names, whatever its case.
pub open spec fn method_named(text: Seq<char>) -> Option<HttpMethod> {
    let name = upper(text);
    if name == "POST"@ {
        Some(HttpMethod::POST)
    } else if name == "GET"@ {
        Some(HttpMethod::GET)
    } else if name == "PUT"@ {
        Some(HttpMethod::PUT)
    } else if name == "PATCH"@ {
        Some(HttpMethod::PATCH)
    } else if name == "DELETE"@ {
        Some(HttpMethod::DELETE)
    } else {
        None
    }
}

/// The name of a method.
pub open spec fn method_name(method: HttpMethod) -> Seq<char> {
    match method {
        HttpMethod::POST => "POST"@,
        HttpMethod::GET => "GET"@,
        HttpMethod::PUT => "PUT"@,
        HttpMethod::PATCH => "PATCH"@,
        HttpMethod::DELETE => "DELETE"@,
    }
}

impl HttpMethod {
    /// The method that a text names, or the message that it names none.
    pub fn from_str(s: &str) -> (r: Result<HttpMethod, String>)
        ensures
            match r {
                Ok(m) => method_named(s@) == Some(m),
                Err(e) => method_named(s@) is None && e@ == "Invalid HTTP method: "@ + s@,
            },
    {
        let name = to_upper(s);
        if name == String::from_str("POST") {
            Ok(HttpMethod::POST)
        } else if name == String::from_str("GET") {
            Ok(HttpMethod::GET)
        } else if name == String::from_str("PUT") {
            Ok(HttpMethod::PUT)
        } else if name == String::from_str("PATCH") {
            Ok(HttpMethod::PATCH)
        } else if name == String::from_str("DELETE") {
            Ok(HttpMethod::DELETE)
        } else {
            let message = String::from_str("Invalid HTTP method: ").concat(s);
            Err(message)
        }
    }

    /// The name of the method.
    pub fn to_string(&self) -> (r: String)
        ensures
            r@ == method_name(*self),
    {
        match self {
            HttpMethod::POST => String::from_str("POST"),
            HttpMethod::GET => String::from_str("GET"),
            HttpMethod::PUT => String::from_str("PUT"),
            HttpMethod::PATCH => String::from_str("PATCH"),
            HttpMethod::DELETE => String::from_str("DELETE"),
        }
    }
}

} // verus!
