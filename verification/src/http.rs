//! The request that the replay hands to the transport, and what comes back.

use crate::json::JsonValue;
use crate::text::{extend_chars, from_chars, join, replace, replace_all, to_chars};
use vstd::prelude::*;

verus! {

/// One named value: a query parameter, a header or a path placeholder.
#[derive(Debug, PartialEq, Eq)]
pub struct ReqParam {
    pub key: String,
    pub value: String,
}

impl Clone for ReqParam {
    fn clone(&self) -> (r: Self)
        ensures
            r@ == self@,
    {
        ReqParam { key: self.key.clone(), value: self.value.clone() }
    }
}

impl View for ReqParam {
    type V = (Seq<char>, Seq<char>);

    open spec fn view(&self) -> (Seq<char>, Seq<char>) {
        (self.key@, self.value@)
    }
}

impl ReqParam {
    pub fn new(key: String, value: String) -> (r: Self)
        ensures
            r.key == key,
            r.value == value,
    {
        ReqParam { key, value }
    }
}

/// The key and value of each parameter.
pub open spec fn params_view(params: Seq<ReqParam>) -> Seq<(Seq<char>, Seq<char>)> {
    Seq::new(params.len(), |i: int| params[i]@)
}

/// The body of a request, if it has one.
#[derive(Debug)]
pub struct ReqBody {
    pub value: Option<JsonValue>,
}

impl ReqBody {
    pub fn empty() -> (r: Self)
        ensures
            r.value is None,
    {
        ReqBody { value: None }
    }

    pub fn new(value: JsonValue) -> (r: Self)
        ensures
            r.value == Some(value),
    {
        ReqBody { value: Some(value) }
    }
}

/// The methods that an action may use.
#[derive(Clone, Copy, Debug, PartialEq, Eq, Structural)]
pub enum HttpMethod {
    POST,
    GET,
    PUT,
    PATCH,
    DELETE,
}

/// Where a request goes: method, path, query parameters and headers.
#[derive(Debug)]
pub struct Endpoint {
    pub method: HttpMethod,
    pub path: String,
    pub query_params: Vec<ReqParam>,
    pub headers: Vec<ReqParam>,
}

/// `path` after each placeholder, in turn, has been replaced by its value
/// wherever it occurs.
pub open spec fn fill_path(path: Seq<char>, params: Seq<(Seq<char>, Seq<char>)>) -> Seq<char>
    decreases params.len(),
{
    if params.len() == 0 {
        path
    } else {
        replace_all(fill_path(path, params.drop_last()), params.last().0, params.last().1)
    }
}

/// Each parameter written as `key=value`.
pub open spec fn query_pairs(params: Seq<(Seq<char>, Seq<char>)>) -> Seq<Seq<char>> {
    Seq::new(params.len(), |i: int| params[i].0 + seq!['='] + params[i].1)
}

/// The address of an endpoint: its path, and after a `?` its query parameters
/// joined by `&`, where it has any.
pub open spec fn url_of(path: Seq<char>, params: Seq<(Seq<char>, Seq<char>)>) -> Seq<char> {
    if params.len() == 0 {
        path
    } else {
        path + seq!['?'] + join(query_pairs(params), seq!['&'])
    }
}

impl Endpoint {
    /// An endpoint whose path has its placeholders filled in.
    pub fn new(
        method: HttpMethod,
        path: String,
        path_params: Vec<ReqParam>,
        query_params: Vec<ReqParam>,
        headers: Vec<ReqParam>,
    ) -> (r: Endpoint)
        ensures
            r.method == method,
            r.path@ == fill_path(path@, params_view(path_params@)),
            r.query_params == query_params,
            r.headers == headers,
    {
        let mut raw: Vec<char> = to_chars(path.as_str());
        let mut k: usize = 0;
        while k < path_params.len()
            invariant
                k <= path_params.len(),
                raw@ == fill_path(path@, params_view(path_params@).take(k as int)),
            decreases path_params.len() - k,
        {
            let key = to_chars(path_params[k].key.as_str());
            let value = to_chars(path_params[k].value.as_str());
            proof {
                let now = params_view(path_params@).take(k + 1);
                assert(now.drop_last() =~= params_view(path_params@).take(k as int));
                assert(now.last() == path_params@[k as int]@);
            }
            raw = replace(&raw, &key, &value);
            k += 1;
        }
        assert(params_view(path_params@).take(path_params.len() as int) =~= params_view(
            path_params@,
        ));
        Endpoint { method, path: from_chars(&raw), query_params, headers }
    }

    /// The address to call.
    pub fn to_url(&self) -> (r: String)
        ensures
            r@ == url_of(self.path@, params_view(self.query_params@)),
    {
        if self.query_params.len() == 0 {
            return self.path.clone();
        }
        let mut out: Vec<char> = to_chars(self.path.as_str());
        out.push('?');
        let ghost head = self.path@ + seq!['?'];
        let ghost pairs = query_pairs(params_view(self.query_params@));
        let mut k: usize = 0;
        while k < self.query_params.len()
            invariant
                k <= self.query_params.len(),
                pairs == query_pairs(params_view(self.query_params@)),
                head == self.path@ + seq!['?'],
                out@ == head + join(pairs.take(k as int), seq!['&']),
            decreases self.query_params.len() - k,
        {
            let key = to_chars(self.query_params[k].key.as_str());
            let value = to_chars(self.query_params[k].value.as_str());
            proof {
                let now = pairs.take(k + 1);
                assert(now.drop_last() =~= pairs.take(k as int));
                assert(now.last() == key@ + seq!['='] + value@);
                assert(pairs.take(0).len() == 0);
            }
            let ghost before = out@;
            if k > 0 {
                out.push('&');
            }
            extend_chars(&mut out, &key);
            out.push('=');
            extend_chars(&mut out, &value);
            proof {
                if k > 0 {
                    assert(out@ =~= before + seq!['&'] + (key@ + seq!['='] + value@));
                    assert(out@ =~= head + (join(pairs.take(k as int), seq!['&']) + seq!['&'] + (
                    key@ + seq!['='] + value@)));
                } else {
                    assert(out@ =~= before + (key@ + seq!['='] + value@));
                    assert(join(pairs.take(0), seq!['&']) =~= Seq::<char>::empty());
                    assert(out@ =~= head + (key@ + seq!['='] + value@));
                }
            }
            k += 1;
        }
        assert(pairs.take(self.query_params.len() as int) =~= pairs);
        from_chars(&out)
    }
}

/// A request ready for the transport.
#[derive(Debug)]
pub struct HttpRequest {
    pub endpoint: Endpoint,
    pub req_body: ReqBody,
    pub content_type: String,
}

impl HttpRequest {
    pub fn new(endpoint: Endpoint, req_body: ReqBody, content_type: String) -> (r: HttpRequest)
        ensures
            r.endpoint == endpoint,
            r.req_body == req_body,
            r.content_type == content_type,
    {
        HttpRequest { endpoint, req_body, content_type }
    }

    /// A copy of the body, if there is one.
    pub fn get_body(&self) -> (r: Option<JsonValue>)
        ensures
            match r {
                Some(v) => self.req_body.value is Some && v@ == self.req_body.value->0@,
                None => self.req_body.value is None,
            },
    {
        match &self.req_body.value {
            Some(v) => Some(v.clone()),
            None => None,
        }
    }
}

/// The body of a response.
#[derive(Debug)]
pub struct ResBody<T> {
    pub value: T,
}

impl<T> ResBody<T> {
    pub fn new(value: T) -> (r: Self)
        ensures
            r.value == value,
    {
        ResBody { value }
    }
}

/// A response that the transport counts as a success.
#[derive(Debug)]
pub struct HttpResult<T> {
    pub res_body: ResBody<T>,
    pub status_code: u16,
}

impl<T> HttpResult<T> {
    pub fn new(res_body: ResBody<T>, status_code: u16) -> (r: Self)
        ensures
            r.res_body == res_body,
            r.status_code == status_code,
    {
        HttpResult { res_body, status_code }
    }
}

/// The side that a failing status blames, with the text of the response.
#[derive(Debug, PartialEq, Eq, Hash)]
pub enum StatusError {
    ClientError(String),
    ServerError(String),
}

/// A call that did not succeed: the service answered with a failing status, or
/// the transport itself failed.
#[derive(Debug)]
pub enum HttpError {
    Status(u16, StatusError),
    Io(String),
}

impl HttpError {
    /// The text that the failure came with.
    pub open spec fn message(&self) -> Seq<char> {
        match self {
            HttpError::Status(_, StatusError::ClientError(m)) => m@,
            HttpError::Status(_, StatusError::ServerError(m)) => m@,
            HttpError::Io(m) => m@,
        }
    }

    pub fn get_message(&self) -> (r: String)
        ensures
            r@ == self.message(),
    {
        match self {
            HttpError::Status(_, status) => match status {
                StatusError::ClientError(m) => m.clone(),
                StatusError::ServerError(m) => m.clone(),
            },
            HttpError::Io(m) => m.clone(),
        }
    }
}

} // verus!
