//! Recorded traffic: the exchanges of a capture, as the inference reads them.

use crate::text::{contains_sub, str_contains, to_chars, trim, trim_space};
use vstd::prelude::*;

verus! {

/// A header, a query parameter or a cookie of a recorded request.
#[derive(Debug)]
pub struct NameValue {
    pub name: String,
    pub value: String,
}

/// One field of a recorded form.
#[derive(Debug)]
pub struct PostParam {
    pub name: String,
    pub value: Option<String>,
}

/// The body of a recorded request.
#[derive(Debug)]
pub struct PostData {
    pub mime_type: String,
    pub text: Option<String>,
    pub params: Option<Vec<PostParam>>,
}

/// A recorded request.
#[derive(Debug)]
pub struct ExchangeRequest {
    pub method: String,
    pub url: String,
    pub headers: Vec<NameValue>,
    pub query_string: Vec<NameValue>,
    pub cookies: Vec<NameValue>,
    pub post_data: Option<PostData>,
}

/// A recorded response.
#[derive(Debug)]
pub struct ExchangeResponse {
    pub mime_type: Option<String>,
    pub text: Option<String>,
}

/// One recorded request with its response.
#[derive(Debug)]
pub struct Exchange {
    pub request: ExchangeRequest,
    pub response: ExchangeResponse,
}

/// The exclusions as they are applied: each without white space at its ends.
pub open spec fn trimmed(parts: Seq<String>) -> Seq<Seq<char>> {
    Seq::new(parts.len(), |i: int| trim_space(parts[i]@))
}

/// One of the exclusions occurs in the address.
pub open spec fn excluded(url: Seq<char>, exclusions: Seq<Seq<char>>) -> bool {
    exists|i: int| 0 <= i < exclusions.len() && contains_sub(url, #[trigger] exclusions[i])
}

/// An exchange is kept where no exclusion occurs in its address, the body of
/// its request, if any, is JSON or a form, and its response, if it names a
/// type, is JSON.
pub open spec fn is_kept(exchange: Exchange, exclusions: Seq<Seq<char>>) -> bool {
    &&& !excluded(exchange.request.url@, exclusions)
    &&& match exchange.request.post_data {
        Some(body) => contains_sub(body.mime_type@, "json"@) || contains_sub(
            body.mime_type@,
            "form-urlencoded"@,
        ),
        None => true,
    }
    &&& match exchange.response.mime_type {
        Some(m) => contains_sub(m@, "json"@),
        None => true,
    }
}

/// The exchanges that are kept, in order.
pub open spec fn kept(exchanges: Seq<Exchange>, exclusions: Seq<Seq<char>>) -> Seq<Exchange>
    decreases exchanges.len(),
{
    if exchanges.len() == 0 {
        Seq::empty()
    } else if is_kept(exchanges.last(), exclusions) {
        kept(exchanges.drop_last(), exclusions).push(exchanges.last())
    } else {
        kept(exchanges.drop_last(), exclusions)
    }
}

/// The exchanges that a vector of references points to.
pub open spec fn pointed(refs: Seq<&Exchange>) -> Seq<Exchange> {
    Seq::new(refs.len(), |i: int| *refs[i])
}

fn is_excluded(url: &String, exclusions: &Vec<Vec<char>>) -> (r: bool)
    ensures
        r == excluded(url@, crate::text::lines(exclusions@)),
{
    let all = to_chars(url.as_str());
    let mut k: usize = 0;
    while k < exclusions.len()
        invariant
            k <= exclusions.len(),
            all@ == url@,
            forall|i: int|
                0 <= i < k ==> !contains_sub(url@, #[trigger] crate::text::lines(exclusions@)[i]),
        decreases exclusions.len() - k,
    {
        assert(crate::text::lines(exclusions@)[k as int] == exclusions@[k as int]@);
        if crate::text::contains(&all, &exclusions[k]) {
            return true;
        }
        k += 1;
    }
    false
}

fn keeps(exchange: &Exchange, exclusions: &Vec<Vec<char>>) -> (r: bool)
    ensures
        r == is_kept(*exchange, crate::text::lines(exclusions@)),
{
    if is_excluded(&exchange.request.url, exclusions) {
        return false;
    }
    let body_ok = match &exchange.request.post_data {
        Some(body) => str_contains(body.mime_type.as_str(), "json") || str_contains(
            body.mime_type.as_str(),
            "form-urlencoded",
        ),
        None => true,
    };
    let response_ok = match &exchange.response.mime_type {
        Some(m) => str_contains(m.as_str(), "json"),
        None => true,
    };
    body_ok && response_ok
}

/// The exchanges of a capture that the inference reads: those that are kept, in
/// the order of the capture.
pub fn filter_entries<'a>(excluded_path_parts: Vec<String>, exchanges: &'a Vec<Exchange>) -> (r:
    Vec<&'a Exchange>)
    ensures
        pointed(r@) == kept(exchanges@, trimmed(excluded_path_parts@)),
{
    let mut exclusions: Vec<Vec<char>> = Vec::new();
    let mut e: usize = 0;
    while e < excluded_path_parts.len()
        invariant
            e <= excluded_path_parts.len(),
            crate::text::lines(exclusions@) == trimmed(excluded_path_parts@).take(e as int),
        decreases excluded_path_parts.len() - e,
    {
        let part = trim(&to_chars(excluded_path_parts[e].as_str()));
        proof {
            assert(part@ == trimmed(excluded_path_parts@)[e as int]);
            assert(crate::text::lines(exclusions@.push(part)) =~= crate::text::lines(
                exclusions@,
            ).push(part@));
            assert(crate::text::lines(exclusions@).push(part@) =~= trimmed(
                excluded_path_parts@,
            ).take(e + 1));
        }
        exclusions.push(part);
        e += 1;
    }
    assert(trimmed(excluded_path_parts@).take(excluded_path_parts.len() as int) =~= trimmed(
        excluded_path_parts@,
    ));
    let ghost rules = trimmed(excluded_path_parts@);
    let mut out: Vec<&'a Exchange> = Vec::new();
    let mut k: usize = 0;
    assert(pointed(out@) =~= kept(exchanges@.take(0), rules));
    while k < exchanges.len()
        invariant
            k <= exchanges.len(),
            rules == crate::text::lines(exclusions@),
            pointed(out@) == kept(exchanges@.take(k as int), rules),
        decreases exchanges.len() - k,
    {
        proof {
            let now = exchanges@.take(k + 1);
            assert(now.drop_last() =~= exchanges@.take(k as int));
            assert(now.last() == exchanges@[k as int]);
        }
        if keeps(&exchanges[k], &exclusions) {
            proof {
                assert(pointed(out@.push(&exchanges@[k as int])) =~= pointed(out@).push(
                    exchanges@[k as int],
                ));
            }
            out.push(&exchanges[k]);
        }
        k += 1;
    }
    assert(exchanges@.take(exchanges.len() as int) =~= exchanges@);
    out
}

} // verus!
