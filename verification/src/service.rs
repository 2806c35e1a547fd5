//! What the service decides around its storage and transport: how answers of
//! the transport are read, how records are paired and listed, and what requests
//! of callers become.

use crate::api::{CreateAuthProviderPayload, PutAssertionPayload};
use crate::assertion::Assertion;
use crate::codec::{json_parse, parse_json};
use crate::http::{params_view, HttpError, HttpResult, ReqParam, ResBody, StatusError};
use crate::json::{Json, JsonValue};
use crate::model::{
    same_action, Action, ActionExecution, ActionExecutionPair, AuthHeaderValue,
    AuthenticationProvider,
    ParameterIn, ParameterType,
};
use crate::patterns::new_id;
use crate::storage::{part_word, type_word};
use crate::text::{
    contains_sub, extend_chars, from_chars, join, join_parts, lines, split, split_on, to_chars,
    trim, trim_space,
};
use vstd::prelude::*;
use vstd::string::StringExecFns;

verus! {

/// How the body of a request travels.
#[derive(Clone, Copy, Debug, PartialEq, Eq, Structural)]
pub enum BodyEncoding {
    Form,
    Json,
}

/// The encoding that a content type asks for: a form where it says so, else
/// JSON.
pub fn body_encoding(content_type: &String) -> (r: BodyEncoding)
    ensures
        r == if contains_sub(content_type@, "application/x-www-form-urlencoded"@) {
            BodyEncoding::Form
        } else {
            BodyEncoding::Json
        },
{
    if crate::text::str_contains(content_type.as_str(), "application/x-www-form-urlencoded") {
        BodyEncoding::Form
    } else {
        BodyEncoding::Json
    }
}

/// The message for a successful answer whose body is not JSON.
pub open spec fn unreadable() -> Seq<char> {
    "response body is not JSON"@
}

/// What an answer of the service means: a status from 200 to 299 is a success
/// with the document that its text writes; a status from 400 to 499 blames the
/// client, any other the server, each with the text of the answer.
pub open spec fn answer_is(
    result: Result<HttpResult<JsonValue>, HttpError>,
    status: u16,
    text: Seq<char>,
) -> bool {
    if 200 <= status <= 299 {
        match json_parse(text) {
            Some(doc) => result is Ok && result->Ok_0.status_code == status
                && result->Ok_0.res_body.value@ == doc,
            None => result is Err && result->Err_0 is Io && result->Err_0->Io_0@ == unreadable(),
        }
    } else {
        &&& result is Err
        &&& result->Err_0 is Status
        &&& result->Err_0->Status_0 == status
        &&& if 400 <= status <= 499 {
            result->Err_0->Status_1 is ClientError && result->Err_0->Status_1->ClientError_0@
                == text
        } else {
            result->Err_0->Status_1 is ServerError && result->Err_0->Status_1->ServerError_0@
                == text
        }
    }
}

/// Reads an answer of the service. The body of a success is well formed.
pub fn read_response(status: u16, text: String) -> (r: Result<HttpResult<JsonValue>, HttpError>)
    ensures
        answer_is(r, status, text@),
        match r {
            Ok(answer) => crate::json::well_formed(answer.res_body.value@),
            Err(_) => true,
        },
{
    if 200 <= status && status <= 299 {
        match parse_json(text.as_str()) {
            Some(value) => Ok(HttpResult::new(ResBody::new(value), status)),
            None => Err(HttpError::Io(String::from_str("response body is not JSON"))),
        }
    } else if 400 <= status && status <= 499 {
        Err(HttpError::Status(status, StatusError::ClientError(text)))
    } else {
        Err(HttpError::Status(status, StatusError::ServerError(text)))
    }
}

/// The header that carries cookies: each as `name=value`, joined by `;`.
pub open spec fn cookie_text(cookies: Seq<(Seq<char>, Seq<char>)>) -> Seq<char> {
    join(Seq::new(cookies.len(), |i: int| cookies[i].0 + "="@ + cookies[i].1), ";"@)
}

/// The header that carries cookies.
pub fn build_cookie_header(cookies: &Vec<ReqParam>) -> (r: String)
    ensures
        r@ == cookie_text(params_view(cookies@)),
{
    let ghost want = Seq::new(
        cookies.len() as nat,
        |i: int| params_view(cookies@)[i].0 + "="@ + params_view(cookies@)[i].1,
    );
    let mut parts: Vec<Vec<char>> = Vec::new();
    let mut k: usize = 0;
    assert(lines(parts@) =~= want.take(0));
    while k < cookies.len()
        invariant
            k <= cookies.len(),
            want == Seq::new(
                cookies.len() as nat,
                |i: int| params_view(cookies@)[i].0 + "="@ + params_view(cookies@)[i].1,
            ),
            lines(parts@) == want.take(k as int),
        decreases cookies.len() - k,
    {
        let mut part = to_chars(cookies[k].key.as_str());
        extend_chars(&mut part, &to_chars("="));
        extend_chars(&mut part, &to_chars(cookies[k].value.as_str()));
        assert(part@ == want[k as int]);
        assert(lines(parts@.push(part)) =~= lines(parts@).push(part@));
        assert(lines(parts@).push(part@) =~= want.take(k + 1));
        parts.push(part);
        k += 1;
    }
    assert(want.take(cookies.len() as int) =~= want);
    from_chars(&join_parts(&parts, &to_chars(";")))
}

/// The position of the first action with this id.
pub open spec fn action_position(actions: Seq<Action>, id: Seq<char>, from: int) -> Option<int>
    decreases actions.len() - from,
{
    if from < 0 || from >= actions.len() {
        None
    } else if actions[from].id@ == id {
        Some(from)
    } else {
        action_position(actions, id, from + 1)
    }
}

/// Each execution with the first action of its id, where there is one.
pub fn pair_executions(executions: Vec<ActionExecution>, actions: &Vec<Action>) -> (r: Vec<
    ActionExecutionPair,
>)
    ensures
        r.len() == executions.len(),
        forall|i: int|
            0 <= i < r.len() ==> (#[trigger] r@[i]).execution == executions@[i] && match action_position(
                actions@,
                executions@[i].action_id@,
                0,
            ) {
                Some(p) => r@[i].action is Some && same_action(r@[i].action->0, actions@[p]),
                None => r@[i].action is None,
            },
{
    let mut rest = executions;
    let mut out: Vec<ActionExecutionPair> = Vec::new();
    while rest.len() > 0
        invariant
            out.len() + rest.len() == executions.len(),
            forall|i: int| 0 <= i < rest.len() ==> #[trigger] rest@[i] == executions@[out.len() + i],
            forall|i: int|
                0 <= i < out.len() ==> (#[trigger] out@[i]).execution == executions@[i] && match action_position(
                    actions@,
                    executions@[i].action_id@,
                    0,
                ) {
                    Some(p) => out@[i].action is Some && same_action(
                        out@[i].action->0,
                        actions@[p],
                    ),
                    None => out@[i].action is None,
                },
        decreases rest.len(),
    {
        let execution = rest.remove(0);
        let mut found: Option<Action> = None;
        let mut k: usize = 0;
        while k < actions.len() && found.is_none()
            invariant
                k <= actions.len(),
                found is None ==> action_position(actions@, execution.action_id@, 0)
                    == action_position(actions@, execution.action_id@, k as int),
                found is Some ==> action_position(actions@, execution.action_id@, 0) is Some && {
                    let p = action_position(actions@, execution.action_id@, 0)->0;
                    0 <= p < actions.len() && same_action(found->0, actions@[p])
                },
            decreases actions.len() - k + if found is None { 1int } else { 0int },
        {
            if actions[k].id == execution.action_id {
                found = Some(actions[k].clone());
            } else {
                k += 1;
            }
        }
        out.push(ActionExecutionPair { action: found, execution });
    }
    out
}

/// The start of the keys of the parameters of an action, of one kind, in one
/// part of the request or in any.
pub open spec fn location_prefix(
    action_id: Seq<char>,
    parameter_type: ParameterType,
    part: Option<ParameterIn>,
) -> Seq<char> {
    action_id + "#"@ + type_word(parameter_type) + "#"@ + match part {
        Some(p) => part_word(p),
        None => Seq::empty(),
    }
}

/// The start of the keys of the parameters of an action by where they lie.
pub fn parameter_location_prefix(
    action_id: &String,
    parameter_type: &ParameterType,
    parameter_in: Option<ParameterIn>,
) -> (r: String)
    ensures
        r@ == location_prefix(action_id@, *parameter_type, parameter_in),
{
    let mut out = to_chars(action_id.as_str());
    extend_chars(&mut out, &to_chars("#"));
    extend_chars(&mut out, &to_chars(crate::storage::parameter_type_to_str(parameter_type)));
    extend_chars(&mut out, &to_chars("#"));
    match parameter_in {
        Some(p) => {
            let word = crate::storage::parameter_in_to_str(&p);
            extend_chars(&mut out, &to_chars(word.as_str()));
        },
        None => {
            assert(out@ + Seq::<char>::empty() =~= out@);
        },
    }
    from_chars(&out)
}

/// The start of the keys of the parameters of an action by their paths.
pub fn parameter_path_prefix(action_id: &String, parameter_type: &ParameterType, path: &String) -> (r:
    String)
    ensures
        r@ == action_id@ + "#"@ + type_word(*parameter_type) + "#"@ + path@,
{
    let mut out = to_chars(action_id.as_str());
    extend_chars(&mut out, &to_chars("#"));
    extend_chars(&mut out, &to_chars(crate::storage::parameter_type_to_str(parameter_type)));
    extend_chars(&mut out, &to_chars("#"));
    extend_chars(&mut out, &to_chars(path.as_str()));
    from_chars(&out)
}

/// Whether an address names the left side of an assertion.
pub fn is_left(location: &String) -> (r: bool)
    ensures
        r == (location@ == "left"@),
{
    *location == String::from_str("left")
}

/// The name of a side of an assertion.
pub fn side_name(left: bool) -> (r: &'static str)
    ensures
        r@ == if left {
            "left"@
        } else {
            "right"@
        },
{
    if left {
        "left"
    } else {
        "right"
    }
}

/// The assertion that a caller asks to store: under the id that the caller
/// gives, or under a fresh one.
pub fn assertion_from_payload(customer_id: String, test_case_id: String, payload: PutAssertionPayload) -> (r:
    Assertion)
    ensures
        r.customer_id == customer_id,
        r.test_case_id == test_case_id,
        payload.id is Some ==> r.id == payload.id->0,
        r.left == payload.left,
        r.right == payload.right,
        r.comparison_type == payload.comparison_type,
        r.negate == payload.negate,
        r.created_at is None,
        r.updated_at is None,
{
    let id = match payload.id {
        Some(id) => id,
        None => new_id(),
    };
    Assertion {
        customer_id,
        test_case_id,
        id,
        left: payload.left,
        right: payload.right,
        comparison_type: payload.comparison_type,
        negate: payload.negate,
        created_at: None,
        updated_at: None,
    }
}

/// The provider that a caller asks to create: its headers enabled, a later
/// header of a name in place of an earlier one, and no test case linked.
pub fn provider_from_payload(customer_id: String, payload: CreateAuthProviderPayload) -> (r:
    AuthenticationProvider)
    ensures
        r.customer_id == customer_id,
        r.name == payload.name,
        r.base_url == payload.url,
        r.linked_test_case_ids@.len() == 0,
        crate::inference::headers_view(r.headers_by_name@) == payload_headers(payload.headers@),
        r.created_at is None,
        r.updated_at is None,
        r.wf(),
{
    let mut headers: Vec<(String, AuthHeaderValue)> = Vec::new();
    assert(crate::inference::headers_view(headers@) =~= Seq::<
        (Seq<char>, (Seq<char>, bool)),
    >::empty());
    let ghost all = payload.headers@;
    let mut k: usize = 0;
    while k < payload.headers.len()
        invariant
            k <= payload.headers.len(),
            all == payload.headers@,
            crate::inference::headers_view(headers@) == payload_headers(all.take(k as int)),
            crate::inference::distinct_headers(crate::inference::headers_view(headers@)),
        decreases payload.headers.len() - k,
    {
        proof {
            let now = all.take(k + 1);
            assert(now.drop_last() =~= all.take(k as int));
            assert(now.last() == all[k as int]);
        }
        crate::inference::set_header(
            &mut headers,
            payload.headers[k].name.clone(),
            AuthHeaderValue { value: payload.headers[k].value.clone(), disabled: false },
        );
        k += 1;
    }
    assert(all.take(payload.headers.len() as int) =~= all);
    proof {
        let held = crate::inference::headers_view(headers@);
        assert forall|i: int, j: int| 0 <= i < j < headers@.len() implies (#[trigger] headers@[i]).0@
            != (#[trigger] headers@[j]).0@ by {
            assert(held[i].0 == headers@[i].0@);
            assert(held[j].0 == headers@[j].0@);
        }
    }
    AuthenticationProvider {
        customer_id,
        id: new_id(),
        name: payload.name,
        base_url: payload.url,
        headers_by_name: headers,
        linked_test_case_ids: Vec::new(),
        created_at: None,
        updated_at: None,
    }
}

/// The headers that a payload asks for.
pub open spec fn payload_headers(headers: Seq<crate::api::SetHeaderPayload>) -> Seq<
    (Seq<char>, (Seq<char>, bool)),
>
    decreases headers.len(),
{
    if headers.len() == 0 {
        Seq::empty()
    } else {
        crate::inference::with_header(
            payload_headers(headers.drop_last()),
            headers.last().name@,
            (headers.last().value@, false),
        )
    }
}

/// The parts of a list that is written with commas, each without white space
/// at its ends where `trimmed` says so, and without the empty ones where
/// `keep_empty` does not keep them.
pub open spec fn listed_parts(parts: Seq<Seq<char>>, trimmed: bool, keep_empty: bool) -> Seq<
    Seq<char>,
>
    decreases parts.len(),
{
    if parts.len() == 0 {
        Seq::empty()
    } else {
        let head = listed_parts(parts.drop_last(), trimmed, keep_empty);
        let part = if trimmed {
            trim_space(parts.last())
        } else {
            parts.last()
        };
        if keep_empty || part.len() > 0 {
            head.push(part)
        } else {
            head
        }
    }
}

/// The texts that a vector of strings holds.
pub open spec fn texts(all: Seq<String>) -> Seq<Seq<char>> {
    Seq::new(all.len(), |i: int| all[i]@)
}

/// Reads a list that is written with commas.
pub fn comma_list(text: &String, trimmed: bool, keep_empty: bool) -> (r: Vec<String>)
    ensures
        texts(r@) == listed_parts(split_on(text@, ","@), trimmed, keep_empty),
{
    let parts = split(&to_chars(text.as_str()), &to_chars(","));
    let ghost all = split_on(text@, ","@);
    let mut out: Vec<String> = Vec::new();
    let mut k: usize = 0;
    assert(texts(out@) =~= listed_parts(all.take(0), trimmed, keep_empty));
    while k < parts.len()
        invariant
            k <= parts.len(),
            lines(parts@) == all,
            texts(out@) == listed_parts(all.take(k as int), trimmed, keep_empty),
        decreases parts.len() - k,
    {
        proof {
            let now = all.take(k + 1);
            assert(now.drop_last() =~= all.take(k as int));
            assert(now.last() == parts@[k as int]@);
        }
        let part = if trimmed {
            trim(&parts[k])
        } else {
            crate::text::slice_chars(&parts[k], 0, parts[k].len())
        };
        assert(!trimmed ==> part@ =~= parts@[k as int]@);
        if keep_empty || part.len() > 0 {
            let s = from_chars(&part);
            assert(texts(out@.push(s)) =~= texts(out@).push(s@));
            out.push(s);
        }
        k += 1;
    }
    assert(all.take(parts.len() as int) =~= all);
    out
}

} // verus!
