//! Replay: the request that an action sends in the context that the earlier
//! actions have left, and the context that it leaves in turn.

use crate::assertion::{
    assertion_outcome, check_assertion, reports, Assertion, AssertionResult,
};
use crate::codec::{json_path_query, json_text, write_json};
use crate::expression::{evaluate_expression, Expression};
use crate::http::{
    Endpoint, HttpError, HttpMethod, HttpRequest, HttpResult, ReqBody, ReqParam,
};
use crate::json::{
    distinct_names, lemma_items_view, lemma_members_view, lemma_put_well_formed, members_view,
    put, set_member, well_formed, well_formed_if_any, well_formed_members, Json, JsonValue,
};
use crate::model::{
    parameters_view, Action, ActionExecution, AuthenticationProvider, Parameter, ParameterIn,
    ParameterModel, Run,
};
use crate::reconstruct::{rebuilt, reverse_flatten_all};
use crate::text::{
    extend_chars, from_chars, join, join_parts, lines, split, split_on, starts_with,
    str_starts_with, to_chars, trim_char, trim_matches,
};
use crate::urls::{base_url_of, method_named, obtain_base_url};
use vstd::prelude::*;
use vstd::string::StringExecFns;

verus! {

/// The value that a parameter takes in a context. Without an expression it is
/// the literal. With one it is what the expression selects: all of it as an
/// array where the literal is an array, else the first value. An expression
/// that selects nothing, or cannot be read, gives a message, whatever the
/// literal is.
pub open spec fn evaluated(p: ParameterModel, context: Json) -> Result<Json, Seq<char>> {
    match p.expression {
        None => Ok(p.value),
        Some(e) => match json_path_query(e, context) {
            Ok(found) => if found.len() == 0 {
                Err("expression \""@ + e + "\" produces empty result"@)
            } else if p.value is Array {
                Ok(Json::Array(found))
            } else {
                Ok(found[0])
            },
            Err(message) => Err(message),
        },
    }
}

/// An expression that selects nothing fails its parameter, whatever the
/// literal is; one that selects something never does.
pub proof fn lemma_empty_result_fails(p: ParameterModel, context: Json)
    requires
        p.expression is Some,
        json_path_query(p.expression->0, context) is Ok,
    ensures
        evaluated(p, context) is Err <==> json_path_query(p.expression->0, context)->Ok_0.len()
            == 0,
{
}

/// A result of evaluation says what the model says.
pub open spec fn gives(got: Result<JsonValue, String>, want: Result<Json, Seq<char>>) -> bool {
    match got {
        Ok(v) => want == Ok::<Json, Seq<char>>(v@),
        Err(m) => want == Err::<Json, Seq<char>>(m@),
    }
}

/// The value that a parameter takes in a context.
pub fn evaluate_value(parameter: &Parameter, context: &JsonValue) -> (r: Result<JsonValue, String>)
    ensures
        gives(r, evaluated(parameter@, context@)),
{
    match &parameter.value_expression {
        None => Ok(parameter.value.clone()),
        Some(exp) => match evaluate_expression(context, exp) {
            Ok(mut values) => {
                let is_array = match &parameter.value {
                    JsonValue::Array(_) => true,
                    _ => false,
                };
                proof {
                    lemma_items_view(values@);
                }
                if values.len() == 0 {
                    let mut m = to_chars("expression \"");
                    extend_chars(&mut m, &to_chars(exp.value.as_str()));
                    extend_chars(&mut m, &to_chars("\" produces empty result"));
                    Err(from_chars(&m))
                } else if is_array {
                    Ok(JsonValue::Array(values))
                } else {
                    Ok(values.swap_remove(0))
                }
            },
            Err(message) => Err(message),
        },
    }
}

/// A value as it is written into an address or a header: its JSON text without
/// double quotes at its ends.
pub open spec fn plain_text(v: Json) -> Seq<char> {
    trim_char(json_text(v), '"')
}

/// A value as it is written into an address or a header.
pub fn to_plain_text(v: &JsonValue) -> (r: Vec<char>)
    ensures
        r@ == plain_text(v@),
{
    trim_matches(&to_chars(write_json(v).as_str()), '"')
}

/// The parameters of one part of the request, each with its value in the
/// context as plain text. A parameter that cannot be evaluated is left out.
pub open spec fn http_params(ps: Seq<ParameterModel>, context: Json, part: ParameterIn) -> Seq<
    (Seq<char>, Seq<char>),
>
    decreases ps.len(),
{
    if ps.len() == 0 {
        Seq::empty()
    } else {
        let head = http_params(ps.drop_last(), context, part);
        let p = ps.last();
        if p.part == part {
            match evaluated(p, context) {
                Ok(v) => head.push((p.path, plain_text(v))),
                Err(_) => head,
            }
        } else {
            head
        }
    }
}

/// The parameters of one part of the request.
pub fn build_http_params(
    parameters: &Vec<Parameter>,
    context: &JsonValue,
    parameter_in: ParameterIn,
) -> (r: Vec<ReqParam>)
    ensures
        crate::http::params_view(r@) == http_params(
            parameters_view(parameters@),
            context@,
            parameter_in,
        ),
{
    let ghost all = parameters_view(parameters@);
    let mut out: Vec<ReqParam> = Vec::new();
    let mut k: usize = 0;
    while k < parameters.len()
        invariant
            k <= parameters.len(),
            all == parameters_view(parameters@),
            crate::http::params_view(out@) == http_params(all.take(k as int), context@, parameter_in),
        decreases parameters.len() - k,
    {
        proof {
            let now = all.take(k + 1);
            assert(now.drop_last() =~= all.take(k as int));
            assert(now.last() == parameters@[k as int]@);
        }
        if parameters[k].get_parameter_in() == parameter_in {
            match evaluate_value(&parameters[k], context) {
                Ok(v) => {
                    let param = ReqParam::new(
                        parameters[k].get_path(),
                        from_chars(&to_plain_text(&v)),
                    );
                    proof {
                        assert(crate::http::params_view(out@.push(param))
                            =~= crate::http::params_view(out@).push(param@));
                    }
                    out.push(param);
                },
                Err(_) => {},
            }
        }
        k += 1;
    }
    assert(all.take(parameters.len() as int) =~= all);
    out
}

/// One part of an address at replay: a part that begins `$.` is the plain text
/// of the first value that it selects in the context, or empty where it selects
/// nothing or cannot be read; any other part stays.
pub open spec fn url_part(part: Seq<char>, context: Json) -> Seq<char> {
    if starts_with(part, "$."@) {
        match json_path_query(part, context) {
            Ok(found) => if found.len() > 0 {
                plain_text(found[0])
            } else {
                Seq::empty()
            },
            Err(_) => Seq::empty(),
        }
    } else {
        part
    }
}

/// The address of an action at replay: each part between slashes as `url_part`
/// says.
pub open spec fn replay_url(raw: Seq<char>, context: Json) -> Seq<char> {
    let parts = split_on(raw, "/"@);
    join(Seq::new(parts.len(), |i: int| url_part(parts[i], context)), "/"@)
}

/// The address of an action at replay.
pub fn build_http_url(raw_url: &String, context: &JsonValue) -> (r: String)
    ensures
        r@ == replay_url(raw_url@, context@),
{
    let slash = to_chars("/");
    let parts = split(&to_chars(raw_url.as_str()), &slash);
    let ghost want = split_on(raw_url@, "/"@);
    let ghost mapped = Seq::new(want.len(), |i: int| url_part(want[i], context@));
    let mut out: Vec<Vec<char>> = Vec::new();
    let mut k: usize = 0;
    while k < parts.len()
        invariant
            k <= parts.len(),
            lines(parts@) == want,
            mapped == Seq::new(want.len(), |i: int| url_part(want[i], context@)),
            lines(out@) == mapped.take(k as int),
        decreases parts.len() - k,
    {
        let text = from_chars(&parts[k]);
        assert(want[k as int] == parts@[k as int]@);
        let piece = if str_starts_with(text.as_str(), "$.") {
            match evaluate_expression(context, &Expression { value: text }) {
                Ok(found) => {
                    proof {
                        lemma_items_view(found@);
                    }
                    if found.len() > 0 {
                        to_plain_text(&found[0])
                    } else {
                        Vec::new()
                    }
                },
                Err(_) => Vec::new(),
            }
        } else {
            to_chars(text.as_str())
        };
        proof {
            assert(piece@ =~= mapped[k as int]);
            assert(lines(out@.push(piece)) =~= lines(out@).push(piece@));
            assert(lines(out@).push(piece@) =~= mapped.take(k + 1));
        }
        out.push(piece);
        k += 1;
    }
    assert(mapped.take(parts.len() as int) =~= mapped);
    from_chars(&join_parts(&out, &slash))
}

/// The paths and values of the body parameters that can be evaluated, in order.
pub open spec fn body_pairs(ps: Seq<ParameterModel>, context: Json) -> Seq<(Seq<char>, Json)>
    decreases ps.len(),
{
    if ps.len() == 0 {
        Seq::empty()
    } else {
        let head = body_pairs(ps.drop_last(), context);
        let p = ps.last();
        if p.part == ParameterIn::Body {
            match evaluated(p, context) {
                Ok(v) => head.push((p.path, v)),
                Err(_) => head,
            }
        } else {
            head
        }
    }
}

/// The body of a request: none without body parameters that can be evaluated,
/// else the document that their paths and values build.
pub open spec fn request_body(ps: Seq<ParameterModel>, context: Json) -> Option<Json> {
    if body_pairs(ps, context).len() == 0 {
        None
    } else {
        Some(Json::Object(rebuilt(body_pairs(ps, context))))
    }
}

/// The model of a document that may be missing.
pub open spec fn option_json(v: Option<JsonValue>) -> Option<Json> {
    match v {
        Some(x) => Some(x@),
        None => None,
    }
}

/// The body of a request.
pub fn build_http_request_body(parameters: &Vec<Parameter>, context: &JsonValue) -> (r: ReqBody)
    ensures
        option_json(r.value) == request_body(parameters_view(parameters@), context@),
{
    let ghost all = parameters_view(parameters@);
    let mut tuples: Vec<(String, JsonValue)> = Vec::new();
    proof {
        lemma_members_view(tuples@);
        assert(members_view(tuples@) =~= Seq::<(Seq<char>, Json)>::empty());
    }
    let mut k: usize = 0;
    while k < parameters.len()
        invariant
            k <= parameters.len(),
            all == parameters_view(parameters@),
            members_view(tuples@) == body_pairs(all.take(k as int), context@),
        decreases parameters.len() - k,
    {
        proof {
            let now = all.take(k + 1);
            assert(now.drop_last() =~= all.take(k as int));
            assert(now.last() == parameters@[k as int]@);
        }
        if parameters[k].get_parameter_in() == ParameterIn::Body {
            match evaluate_value(&parameters[k], context) {
                Ok(v) => {
                    let ghost before = tuples@;
                    let path = parameters[k].get_path();
                    proof {
                        lemma_members_view(before);
                        lemma_members_view(before.push((path, v)));
                        assert(members_view(before.push((path, v))) =~= members_view(before).push(
                            (path@, v@),
                        ));
                    }
                    tuples.push((path, v));
                },
                Err(_) => {},
            }
        }
        k += 1;
    }
    assert(all.take(parameters.len() as int) =~= all);
    proof {
        lemma_members_view(tuples@);
    }
    if tuples.len() == 0 {
        ReqBody::empty()
    } else {
        ReqBody::new(reverse_flatten_all(tuples))
    }
}


/// The test case is among those that the provider is linked to.
pub open spec fn linked(provider: AuthenticationProvider, test_case: Seq<char>) -> bool {
    exists|i: int|
        0 <= i < provider.linked_test_case_ids@.len() && (
        #[trigger] provider.linked_test_case_ids@[i])@ == test_case
}

/// The provider serves this test case at this base address.
pub open spec fn applies(provider: AuthenticationProvider, test_case: Seq<char>, base: Seq<char>) -> bool {
    provider.base_url@ == base && linked(provider, test_case)
}

/// The headers that are not disabled, in order.
pub open spec fn enabled_headers(headers: Seq<(String, crate::model::AuthHeaderValue)>) -> Seq<
    (Seq<char>, Seq<char>),
>
    decreases headers.len(),
{
    if headers.len() == 0 {
        Seq::empty()
    } else if headers.last().1.disabled {
        enabled_headers(headers.drop_last())
    } else {
        enabled_headers(headers.drop_last()).push((headers.last().0@, headers.last().1.value@))
    }
}

/// The enabled headers of the providers that serve the test case at the base
/// address, provider by provider.
pub open spec fn auth_headers(
    providers: Seq<AuthenticationProvider>,
    test_case: Seq<char>,
    base: Seq<char>,
) -> Seq<(Seq<char>, Seq<char>)>
    decreases providers.len(),
{
    if providers.len() == 0 {
        Seq::empty()
    } else if applies(providers.last(), test_case, base) {
        auth_headers(providers.drop_last(), test_case, base) + enabled_headers(
            providers.last().headers_by_name@,
        )
    } else {
        auth_headers(providers.drop_last(), test_case, base)
    }
}

fn is_linked(provider: &AuthenticationProvider, test_case: &String) -> (r: bool)
    ensures
        r == linked(*provider, test_case@),
{
    let mut k: usize = 0;
    while k < provider.linked_test_case_ids.len()
        invariant
            k <= provider.linked_test_case_ids.len(),
            forall|i: int| 0 <= i < k ==> (#[trigger] provider.linked_test_case_ids@[i])@ != test_case@,
        decreases provider.linked_test_case_ids.len() - k,
    {
        if provider.linked_test_case_ids[k] == *test_case {
            return true;
        }
        k += 1;
    }
    false
}

fn append_enabled(out: &mut Vec<ReqParam>, provider: &AuthenticationProvider)
    ensures
        crate::http::params_view(final(out)@) == crate::http::params_view(old(out)@)
            + enabled_headers(provider.headers_by_name@),
{
    let ghost all = provider.headers_by_name@;
    let ghost start = crate::http::params_view(out@);
    let mut k: usize = 0;
    assert(start + enabled_headers(all.take(0)) =~= start);
    while k < provider.headers_by_name.len()
        invariant
            k <= provider.headers_by_name.len(),
            all == provider.headers_by_name@,
            crate::http::params_view(out@) == start + enabled_headers(all.take(k as int)),
        decreases provider.headers_by_name.len() - k,
    {
        proof {
            let now = all.take(k + 1);
            assert(now.drop_last() =~= all.take(k as int));
            assert(now.last() == all[k as int]);
        }
        if !provider.headers_by_name[k].1.disabled {
            let param = ReqParam::new(
                provider.headers_by_name[k].0.clone(),
                provider.headers_by_name[k].1.value.clone(),
            );
            proof {
                assert(crate::http::params_view(out@.push(param)) =~= crate::http::params_view(
                    out@,
                ).push(param@));
                assert(start + enabled_headers(all.take(k as int)).push(param@) =~= (start
                    + enabled_headers(all.take(k as int))).push(param@));
            }
            out.push(param);
        }
        k += 1;
    }
    assert(all.take(provider.headers_by_name.len() as int) =~= all);
}

/// The content type of a request without one.
pub open spec fn default_content_type() -> Seq<char> {
    "application/json"@
}

/// The request that an action sends in a context, given its input parameters
/// and the providers of its customer: query parameters and headers evaluated in
/// the context, then the enabled headers of the providers that serve the test
/// case at the base of the action's address; the address with its expressions
/// filled in; the body built from the body parameters.
pub open spec fn is_request_of(
    request: HttpRequest,
    action: Action,
    ps: Seq<ParameterModel>,
    providers: Seq<AuthenticationProvider>,
    context: Json,
) -> bool {
    &&& method_named(action.method@) == Some(request.endpoint.method)
    &&& request.endpoint.path@ == replay_url(action.url@, context)
    &&& crate::http::params_view(request.endpoint.query_params@) == http_params(
        ps,
        context,
        ParameterIn::Query,
    )
    &&& crate::http::params_view(request.endpoint.headers@) == http_params(
        ps,
        context,
        ParameterIn::Header,
    ) + auth_headers(providers, action.test_case_id@, base_url_of(action.url@))
    &&& option_json(request.req_body.value) == request_body(ps, context)
    &&& request.content_type@ == match action.mime_type {
        Some(m) => m@,
        None => default_content_type(),
    }
}

/// The request that an action sends in a context; the message where the
/// action names no method.
pub fn build_http_request(
    action: &Action,
    parameters: &Vec<Parameter>,
    providers: &Vec<AuthenticationProvider>,
    context: &JsonValue,
) -> (r: Result<HttpRequest, String>)
    ensures
        match r {
            Ok(request) => is_request_of(
                request,
                *action,
                parameters_view(parameters@),
                providers@,
                context@,
            ),
            Err(message) => method_named(action.method@) is None && message@
                == "Invalid HTTP method: "@ + action.method@,
        },
{
    let method = match HttpMethod::from_str(action.method.as_str()) {
        Ok(m) => m,
        Err(message) => {
            return Err(message);
        },
    };
    let req_params = build_http_params(parameters, context, ParameterIn::Query);
    let mut headers = build_http_params(parameters, context, ParameterIn::Header);
    let base = obtain_base_url(action.url.as_str());
    let ghost own = crate::http::params_view(headers@);
    let ghost all = providers@;
    let mut k: usize = 0;
    assert(own + auth_headers(all.take(0), action.test_case_id@, base@) =~= own);
    while k < providers.len()
        invariant
            k <= providers.len(),
            all == providers@,
            crate::http::params_view(headers@) == own + auth_headers(
                all.take(k as int),
                action.test_case_id@,
                base@,
            ),
        decreases providers.len() - k,
    {
        proof {
            let now = all.take(k + 1);
            assert(now.drop_last() =~= all.take(k as int));
            assert(now.last() == all[k as int]);
        }
        if providers[k].base_url == base && is_linked(&providers[k], &action.test_case_id) {
            let ghost before = crate::http::params_view(headers@);
            append_enabled(&mut headers, &providers[k]);
            proof {
                let head = auth_headers(all.take(k as int), action.test_case_id@, base@);
                let more = enabled_headers(providers@[k as int].headers_by_name@);
                assert(own + head + more =~= own + (head + more));
            }
        }
        k += 1;
    }
    assert(all.take(providers.len() as int) =~= all);
    let req_body = build_http_request_body(parameters, context);
    let url = build_http_url(&action.url, context);
    let endpoint = Endpoint::new(method, url, Vec::new(), req_params, headers);
    proof {
        let none: Seq<(Seq<char>, Seq<char>)> = crate::http::params_view(Seq::empty());
        assert(none.len() == 0);
    }
    let content_type = match &action.mime_type {
        Some(m) => m.clone(),
        None => String::from_str("application/json"),
    };
    Ok(HttpRequest::new(endpoint, req_body, content_type))
}

/// The body that a request sends, if any.
pub fn resolve_request_body_from_request(http_request: &HttpRequest) -> (r: Option<JsonValue>)
    ensures
        option_json(r) == option_json(http_request.req_body.value),
{
    match &http_request.req_body.value {
        None => None,
        Some(val) => Some(val.clone()),
    }
}

/// The query parameters that a request sends, as pairs.
pub fn resolve_request_params_from_request(http_request: &HttpRequest) -> (r: Vec<(String, String)>)
    ensures
        r.len() == http_request.endpoint.query_params.len(),
        forall|i: int|
            0 <= i < r.len() ==> (#[trigger] r@[i]).0@
                == http_request.endpoint.query_params@[i].key@ && r@[i].1@
                == http_request.endpoint.query_params@[i].value@,
{
    let params = &http_request.endpoint.query_params;
    let mut out: Vec<(String, String)> = Vec::new();
    let mut k: usize = 0;
    while k < params.len()
        invariant
            k <= params.len(),
            out.len() == k,
            forall|i: int|
                0 <= i < k ==> (#[trigger] out@[i]).0@ == params@[i].key@ && out@[i].1@
                    == params@[i].value@,
        decreases params.len() - k,
    {
        out.push((params[k].key.clone(), params[k].value.clone()));
        k += 1;
    }
    out
}

/// The status that a call ended with: that of the response, or zero where the
/// transport failed.
pub open spec fn status_of(result: Result<HttpResult<JsonValue>, HttpError>) -> u16 {
    match result {
        Ok(ok) => ok.status_code,
        Err(HttpError::Status(code, _)) => code,
        Err(HttpError::Io(_)) => 0,
    }
}

pub fn resolve_status_code(result: &Result<HttpResult<JsonValue>, HttpError>) -> (r: u16)
    ensures
        r == status_of(*result),
{
    match result {
        Ok(http_result) => http_result.status_code,
        Err(err) => match err {
            HttpError::Status(code, _) => *code,
            HttpError::Io(_) => 0,
        },
    }
}

/// The body that a call answered with, if it succeeded.
pub open spec fn response_of(result: Result<HttpResult<JsonValue>, HttpError>) -> Option<Json> {
    match result {
        Ok(ok) => Some(ok.res_body.value@),
        Err(_) => None,
    }
}

pub fn resolve_response_from_result(result: &Result<HttpResult<JsonValue>, HttpError>) -> (r:
    Option<JsonValue>)
    ensures
        option_json(r) == response_of(*result),
{
    match result {
        Ok(http_res) => Some(http_res.res_body.value.clone()),
        Err(_) => None,
    }
}

/// The message of a call that failed.
pub open spec fn error_of(result: Result<HttpResult<JsonValue>, HttpError>) -> Option<Seq<char>> {
    match result {
        Ok(_) => None,
        Err(e) => Some(e.message()),
    }
}

pub fn resolve_error_from_result(result: &Result<HttpResult<JsonValue>, HttpError>) -> (r: Option<
    String,
>)
    ensures
        crate::model::text_of(r) == error_of(*result),
{
    match result {
        Ok(_) => None,
        Err(err) => Some(err.get_message()),
    }
}


/// What an action leaves in the context: what it was sent, or null, under
/// `input`, and what it answered, or null where the call failed, under `output`.
pub open spec fn outcome_entry(sent: Option<Json>, answered: Option<Json>) -> Json {
    Json::Object(
        seq![
            (
                "input"@,
                match sent {
                    Some(v) => v,
                    None => Json::Null,
                },
            ),
            (
                "output"@,
                match answered {
                    Some(v) => v,
                    None => Json::Null,
                },
            ),
        ],
    )
}

/// The context after an action has run: its entry stands under its name, in
/// place of an earlier entry of that name, and every other entry is as it was.
pub open spec fn context_after(
    context: Seq<(Seq<char>, Json)>,
    action_name: Seq<char>,
    sent: Option<Json>,
    answered: Option<Json>,
) -> Seq<(Seq<char>, Json)> {
    put(context, action_name, outcome_entry(sent, answered))
}

/// A well-formed context stays well formed when an action leaves well-formed
/// documents in it.
pub proof fn lemma_context_stays_well_formed(
    context: Seq<(Seq<char>, Json)>,
    action_name: Seq<char>,
    sent: Option<Json>,
    answered: Option<Json>,
)
    requires
        well_formed_members(context),
        well_formed_if_any(sent),
        well_formed_if_any(answered),
    ensures
        well_formed(outcome_entry(sent, answered)),
        well_formed_members(context_after(context, action_name, sent, answered)),
{
    let entry = outcome_entry(sent, answered);
    let pair = entry->Object_0;
    assert(pair.len() == 2);
    assert(pair[0].0 == "input"@ && pair[1].0 == "output"@);
    assert("input"@ != "output"@) by {
        reveal_strlit("input");
        reveal_strlit("output");
        assert("input"@.len() == 5 && "output"@.len() == 6);
    }
    assert(distinct_names(pair));
    assert(well_formed(Json::Null));
    assert forall|i: int| 0 <= i < pair.len() implies well_formed((#[trigger] pair[i]).1) by {
        if i == 0 {
            assert(pair[0].1 == match sent {
                Some(v) => v,
                None => Json::Null,
            });
        } else {
            assert(pair[1].1 == match answered {
                Some(v) => v,
                None => Json::Null,
            });
        }
    }
    assert(well_formed(Json::Object(pair)));
    lemma_put_well_formed(context, action_name, entry);
}

/// An action changes no entry of the context but its own: what earlier actions
/// of other names left stays as it was, and where it was.
pub proof fn lemma_context_keeps_others(
    context: Seq<(Seq<char>, Json)>,
    action_name: Seq<char>,
    sent: Option<Json>,
    answered: Option<Json>,
    other: Seq<char>,
)
    requires
        other != action_name,
    ensures
        crate::json::member(context_after(context, action_name, sent, answered), other)
            == crate::json::member(context, other),
        crate::json::position(context_after(context, action_name, sent, answered), other)
            == crate::json::position(context, other),
        crate::json::member(context_after(context, action_name, sent, answered), action_name)
            == Some(outcome_entry(sent, answered)),
{
    let after = context_after(context, action_name, sent, answered);
    crate::json::lemma_position_from(context, action_name, 0);
    crate::json::lemma_position_from(context, other, 0);
    crate::json::lemma_position_from(after, other, 0);
    crate::json::lemma_position_from(after, action_name, 0);
    match crate::json::position(context, other) {
        Some(p) => {
            assert(after[p].0 == other);
            assert forall|j: int| 0 <= j < p implies (#[trigger] after[j]).0 != other by {
                assert(context[j].0 != other);
            }
        },
        None => {
            assert forall|j: int| 0 <= j < after.len() implies (#[trigger] after[j]).0 != other by {
                if j < context.len() {
                    assert(context[j].0 != other);
                }
            }
        },
    }
    match crate::json::position(context, action_name) {
        Some(p) => {
            assert(after[p].0 == action_name);
            assert forall|j: int| 0 <= j < p implies (#[trigger] after[j]).0 != action_name by {
                assert(context[j].0 != action_name);
            }
        },
        None => {
            assert(after[context.len() as int].0 == action_name);
            assert forall|j: int| 0 <= j < context.len() implies (#[trigger] after[j]).0
                != action_name by {
                assert(context[j].0 != action_name);
            }
        },
    }
}

/// Adds to the context what an action was sent and what it answered. A
/// well-formed context stays well formed where both documents are.
pub fn merge_outcome(
    context: &mut Vec<(String, JsonValue)>,
    action_name: &String,
    request_body: Option<JsonValue>,
    result: &Result<HttpResult<JsonValue>, HttpError>,
)
    ensures
        members_view(final(context)@) == context_after(
            members_view(old(context)@),
            action_name@,
            option_json(request_body),
            response_of(*result),
        ),
        well_formed_members(members_view(old(context)@)) && well_formed_if_any(
            option_json(request_body),
        ) && well_formed_if_any(response_of(*result)) ==> well_formed_members(
            members_view(final(context)@),
        ),
{
    proof {
        if well_formed_members(members_view(context@)) && well_formed_if_any(
            option_json(request_body),
        ) && well_formed_if_any(response_of(*result)) {
            lemma_context_stays_well_formed(
                members_view(context@),
                action_name@,
                option_json(request_body),
                response_of(*result),
            );
        }
    }
    let output = match result {
        Ok(http_result) => http_result.res_body.value.clone(),
        Err(_) => JsonValue::Null,
    };
    let input = match request_body {
        Some(v) => v,
        None => JsonValue::Null,
    };
    let mut entry: Vec<(String, JsonValue)> = Vec::new();
    entry.push((String::from_str("input"), input));
    entry.push((String::from_str("output"), output));
    proof {
        lemma_members_view(entry@);
        assert(members_view(entry@) =~= seq![("input"@, input@), ("output"@, output@)]);
    }
    let made = JsonValue::Object(entry);
    assert(made@ == Json::Object(members_view(entry@)));
    assert(input@ == match option_json(request_body) { Some(v) => v, None => Json::Null });
    assert(output@ == match response_of(*result) { Some(v) => v, None => Json::Null });
    assert(made@->Object_0 =~= outcome_entry(
        option_json(request_body),
        response_of(*result),
    )->Object_0);
    set_member(context, action_name.clone(), made);
}

/// The record of what one action did in a run.
pub fn build_action_execution(
    run: &Run,
    action: &Action,
    id: String,
    http_request: &HttpRequest,
    result: &Result<HttpResult<JsonValue>, HttpError>,
    started_at: u64,
    finished_at: u64,
) -> (r: ActionExecution)
    ensures
        r.run_id@ == run.id@,
        r.customer_id@ == run.customer_id@,
        r.test_case_id@ == run.test_case_id@,
        r.action_id@ == action.id@,
        r.id == id,
        r.status_code == status_of(*result),
        crate::model::text_of(r.error) == error_of(*result),
        option_json(r.response_body) == response_of(*result),
        option_json(r.request_body) == option_json(http_request.req_body.value),
        r.query_params.len() == http_request.endpoint.query_params.len(),
        forall|i: int|
            0 <= i < r.query_params.len() ==> (#[trigger] r.query_params@[i]).0@
                == http_request.endpoint.query_params@[i].key@ && r.query_params@[i].1@
                == http_request.endpoint.query_params@[i].value@,
        r.started_at == Some(started_at),
        r.finished_at == Some(finished_at),
        r.created_at is None,
        r.updated_at is None,
{
    ActionExecution {
        run_id: run.id.clone(),
        customer_id: run.customer_id.clone(),
        test_case_id: run.test_case_id.clone(),
        action_id: action.id.clone(),
        id,
        status_code: resolve_status_code(result),
        error: resolve_error_from_result(result),
        response_body: resolve_response_from_result(result),
        request_body: resolve_request_body_from_request(http_request),
        query_params: resolve_request_params_from_request(http_request),
        started_at: Some(started_at),
        finished_at: Some(finished_at),
        created_at: None,
        updated_at: None,
    }
}

/// The results of all assertions of a test case in the final context, in order.
pub fn evaluate_assertions(assertions: &Vec<Assertion>, context: &JsonValue) -> (r: Vec<
    AssertionResult,
>)
    ensures
        r.len() == assertions.len(),
        forall|i: int|
            0 <= i < r.len() ==> reports(
                #[trigger] r@[i],
                assertions@[i].id@,
                assertion_outcome(
                    assertions@[i].left@,
                    assertions@[i].right@,
                    assertions@[i].comparison_type,
                    assertions@[i].negate,
                    context@,
                ),
            ),
{
    let mut out: Vec<AssertionResult> = Vec::new();
    let mut k: usize = 0;
    while k < assertions.len()
        invariant
            k <= assertions.len(),
            out.len() == k,
            forall|i: int|
                0 <= i < k ==> reports(
                    #[trigger] out@[i],
                    assertions@[i].id@,
                    assertion_outcome(
                        assertions@[i].left@,
                        assertions@[i].right@,
                        assertions@[i].comparison_type,
                        assertions@[i].negate,
                        context@,
                    ),
                ),
        decreases assertions.len() - k,
    {
        out.push(check_assertion(&assertions[k], context));
        k += 1;
    }
    out
}

/// The orders of these actions never fall from one to the next.
pub open spec fn in_replay_order(actions: Seq<Action>) -> bool {
    forall|i: int, j: int| 0 <= i <= j < actions.len() ==> actions[i].order <= actions[j].order
}

/// The actions in the order of replay: the same actions, by ascending `order`.
pub fn sort_actions(actions: Vec<Action>) -> (r: Vec<Action>)
    ensures
        in_replay_order(r@),
        r@.to_multiset() == actions@.to_multiset(),
{
    broadcast use vstd::seq_lib::group_to_multiset_ensures;

    let mut rest = actions;
    let mut out: Vec<Action> = Vec::new();
    assert(out@.to_multiset().add(rest@.to_multiset()) =~= actions@.to_multiset());
    while rest.len() > 0
        invariant
            in_replay_order(out@),
            out@.to_multiset().add(rest@.to_multiset()) == actions@.to_multiset(),
        decreases rest.len(),
    {
        let ghost before_rest = rest@;
        let ghost before_out = out@;
        let next = rest.remove(0);
        proof {
            assert(before_rest =~= seq![next] + rest@);
            vstd::seq_lib::lemma_multiset_commutative(seq![next], rest@);
        }
        let mut at: usize = out.len();
        while at > 0 && next.order < out[at - 1].order
            invariant
                at <= out.len(),
                forall|i: int| at <= i < out.len() ==> next.order < out@[i].order,
            decreases at,
        {
            at -= 1;
        }
        out.insert(at, next);
        proof {
            assert(out@ =~= before_out.subrange(0, at as int) + seq![next] + before_out.subrange(
                at as int,
                before_out.len() as int,
            ));
            assert(before_out =~= before_out.subrange(0, at as int) + before_out.subrange(
                at as int,
                before_out.len() as int,
            ));
            vstd::seq_lib::lemma_multiset_commutative(
                before_out.subrange(0, at as int),
                before_out.subrange(at as int, before_out.len() as int),
            );
            vstd::seq_lib::lemma_multiset_commutative(
                before_out.subrange(0, at as int) + seq![next],
                before_out.subrange(at as int, before_out.len() as int),
            );
            vstd::seq_lib::lemma_multiset_commutative(
                before_out.subrange(0, at as int),
                seq![next],
            );
            assert(out@.to_multiset() =~= before_out.to_multiset().add(seq![next].to_multiset()));
            assert(out@.to_multiset().add(rest@.to_multiset()) =~= before_out.to_multiset().add(
                before_rest.to_multiset(),
            ));
            assert forall|i: int, j: int| 0 <= i <= j < out@.len() implies out@[i].order
                <= out@[j].order by {
                if j < at {
                    assert(out@[i] == before_out[i] && out@[j] == before_out[j]);
                } else if i > at {
                    assert(out@[i] == before_out[i - 1] && out@[j] == before_out[j - 1]);
                } else if i < at && j > at {
                    assert(out@[i] == before_out[i] && out@[j] == before_out[j - 1]);
                } else if i < at && j == at {
                    assert(out@[i] == before_out[i]);
                    assert(before_out[i].order <= before_out[at - 1].order);
                } else if i == at && j > at {
                    assert(out@[j] == before_out[j - 1]);
                }
            }
        }
    }
    assert(rest@.to_multiset() =~= vstd::multiset::Multiset::<Action>::empty());
    out
}

} // verus!
