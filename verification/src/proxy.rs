//! Recording through a proxy: the actions and executions of requests that pass
//! through, and the parameters and assertions that a recording yields.

use crate::assertion::{assertions_view, Assertion, AssertionModel};
use crate::flatten::{
    build_request_index_from_value, build_response_index_from_value, flattened,
    FlattenKeyPrefixType, FlattenedIndex,
};
use crate::http::{HttpRequest, HttpResult};
use crate::inference::{
    action_assertions, action_name, append_parameters, build_action_name_from_url, build_assertions,
    build_body_parameters_from_value, build_output_parameters_from_value, build_query_param,
    input_parameter, leaf_outputs, leaf_parameters, owner_of, Owner,
};
use crate::json::{Json, JsonValue};
use crate::model::{
    parameters_view, Action, ActionExecution, Parameter, ParameterIn, ParameterModel, Run, TestCase,
};
use crate::patterns::new_id;
use crate::replay::{
    option_json, resolve_request_body_from_request, resolve_request_params_from_request,
};
use crate::resolver::indexes_view;
use crate::urls::method_name;
use vstd::prelude::*;

verus! {

/// The action that a request which passes through becomes, at position `order`
/// of the test case that is recorded.
pub fn build_action(test_case: &TestCase, http_req: &HttpRequest, order: usize) -> (r: Action)
    ensures
        r.customer_id@ == test_case.customer_id@,
        r.test_case_id@ == test_case.id@,
        r.order == order,
        r.url@ == crate::http::url_of(
            http_req.endpoint.path@,
            crate::http::params_view(http_req.endpoint.query_params@),
        ),
        r.name@ == action_name(order as nat, r.url@),
        crate::model::text_of(r.mime_type) == Some(http_req.content_type@),
        r.method@ == method_name(http_req.endpoint.method),
        r.created_at is None,
        r.updated_at is None,
{
    let url = http_req.endpoint.to_url();
    Action {
        customer_id: test_case.customer_id.clone(),
        test_case_id: test_case.id.clone(),
        id: new_id(),
        order,
        name: build_action_name_from_url(order, &url),
        url,
        mime_type: Some(http_req.content_type.clone()),
        method: http_req.endpoint.method.to_string(),
        created_at: None,
        updated_at: None,
    }
}

/// The execution of a request which passes through, before or after its
/// answer: without an answer the status is zero and there is no response.
pub fn build_action_execution(
    run: &Run,
    action_id: &String,
    http_req: &HttpRequest,
    http_result: Option<HttpResult<JsonValue>>,
) -> (r: ActionExecution)
    ensures
        r.run_id@ == run.id@,
        r.customer_id@ == run.customer_id@,
        r.test_case_id@ == run.test_case_id@,
        r.action_id@ == action_id@,
        r.error is None,
        match http_result {
            Some(answer) => r.status_code == answer.status_code && r.response_body == Some(
                answer.res_body.value,
            ),
            None => r.status_code == 0 && r.response_body is None,
        },
        option_json(r.request_body) == option_json(http_req.req_body.value),
        r.query_params.len() == http_req.endpoint.query_params.len(),
        forall|i: int|
            0 <= i < r.query_params.len() ==> (#[trigger] r.query_params@[i]).0@
                == http_req.endpoint.query_params@[i].key@ && r.query_params@[i].1@
                == http_req.endpoint.query_params@[i].value@,
        r.started_at is None,
        r.finished_at is None,
{
    let (status_code, response_body) = match http_result {
        Some(answer) => (answer.status_code, Some(answer.res_body.value)),
        None => (0, None),
    };
    ActionExecution {
        run_id: run.id.clone(),
        customer_id: run.customer_id.clone(),
        test_case_id: run.test_case_id.clone(),
        action_id: action_id.clone(),
        id: new_id(),
        status_code,
        error: None,
        response_body,
        request_body: resolve_request_body_from_request(http_req),
        query_params: resolve_request_params_from_request(http_req),
        started_at: None,
        finished_at: None,
        created_at: None,
        updated_at: None,
    }
}

/// The execution with its answer filled in.
pub fn update_execution(exec: ActionExecution, http_result: HttpResult<JsonValue>) -> (r:
    ActionExecution)
    ensures
        r.status_code == http_result.status_code,
        r.response_body == Some(http_result.res_body.value),
        r.run_id == exec.run_id,
        r.customer_id == exec.customer_id,
        r.test_case_id == exec.test_case_id,
        r.action_id == exec.action_id,
        r.id == exec.id,
        r.error == exec.error,
        r.request_body == exec.request_body,
        r.query_params == exec.query_params,
        r.started_at == exec.started_at,
        r.finished_at == exec.finished_at,
{
    let mut exec = exec;
    exec.status_code = http_result.status_code;
    exec.response_body = Some(http_result.res_body.value);
    exec
}

/// What a recording yields for an action.
#[derive(Debug)]
pub struct BuildActionParamResult {
    pub parameters: Vec<Parameter>,
    pub assertions: Vec<Assertion>,
}

/// The document of a body that may be missing: null where it is.
pub open spec fn body_or_null(body: Option<JsonValue>) -> Json {
    match body {
        Some(v) => v@,
        None => Json::Null,
    }
}

/// The request indexes of the executions, each under the name of the action.
pub open spec fn recorded_requests(name: Seq<char>, executions: Seq<ActionExecution>) -> Seq<
    Seq<(Seq<char>, Json)>,
> {
    Seq::new(
        executions.len(),
        |i: int|
            flattened(
                FlattenKeyPrefixType::AssertionExpression,
                name,
                body_or_null(executions[i].request_body),
            ),
    )
}

/// The response indexes of the executions, each under the name of the action.
pub open spec fn recorded_responses(name: Seq<char>, executions: Seq<ActionExecution>) -> Seq<
    Seq<(Seq<char>, Json)>,
> {
    Seq::new(
        executions.len(),
        |i: int|
            flattened(FlattenKeyPrefixType::Output, name, body_or_null(executions[i].response_body)),
    )
}

/// The inputs that the query parameters of an execution become.
pub open spec fn recorded_query(
    owner: Owner,
    query: Seq<(String, String)>,
    responses: Seq<Seq<(Seq<char>, Json)>>,
) -> Seq<ParameterModel> {
    Seq::new(
        query.len(),
        |i: int|
            input_parameter(
                owner,
                ParameterIn::Query,
                query[i].0@,
                Json::String(query[i].1@),
                responses,
            ),
    )
}

/// The parameters that one execution yields: its query parameters, the leaves
/// of the body that it sent, and the leaves of the body that it received.
pub open spec fn recorded_parameters(
    action: Action,
    execution: ActionExecution,
    responses: Seq<Seq<(Seq<char>, Json)>>,
) -> Seq<ParameterModel> {
    recorded_query(owner_of(action), execution.query_params@, responses) + (match execution.request_body {
        Some(body) => leaf_parameters(
            owner_of(action),
            flattened(FlattenKeyPrefixType::Input, action.name@, body@),
            responses,
        ),
        None => Seq::empty(),
    }) + (match execution.response_body {
        Some(body) => leaf_outputs(
            owner_of(action),
            flattened(FlattenKeyPrefixType::Input, action.name@, body@),
        ),
        None => Seq::empty(),
    })
}

/// The parameters that the executions yield, execution by execution.
pub open spec fn all_recorded_parameters(
    action: Action,
    executions: Seq<ActionExecution>,
    responses: Seq<Seq<(Seq<char>, Json)>>,
) -> Seq<ParameterModel>
    decreases executions.len(),
{
    if executions.len() == 0 {
        Seq::empty()
    } else {
        all_recorded_parameters(action, executions.drop_last(), responses) + recorded_parameters(
            action,
            executions.last(),
            responses,
        )
    }
}

/// The assertions that the executions yield: those of the action, once for
/// each execution that sent a body.
pub open spec fn all_recorded_assertions(
    action: Action,
    executions: Seq<ActionExecution>,
    requests: Seq<Seq<(Seq<char>, Json)>>,
    responses: Seq<Seq<(Seq<char>, Json)>>,
) -> Seq<AssertionModel>
    decreases executions.len(),
{
    if executions.len() == 0 {
        Seq::empty()
    } else {
        all_recorded_assertions(action, executions.drop_last(), requests, responses) + (
        if executions.last().request_body is Some {
            action_assertions(owner_of(action), requests, responses)
        } else {
            Seq::empty()
        })
    }
}

fn append_assertions(out: &mut Vec<Assertion>, more: Vec<Assertion>)
    ensures
        assertions_view(final(out)@) == assertions_view(old(out)@) + assertions_view(more@),
{
    let mut more = more;
    let ghost all = assertions_view(more@);
    let ghost start = assertions_view(out@);
    let ghost mut done: Seq<AssertionModel> = Seq::empty();
    assert(start + done =~= start);
    assert(done + all =~= all);
    while more.len() > 0
        invariant
            assertions_view(out@) == start + done,
            done + assertions_view(more@) == all,
        decreases more.len(),
    {
        let ghost rest = assertions_view(more@);
        let a = more.remove(0);
        proof {
            assert(rest =~= seq![a@] + assertions_view(more@));
            assert(done.push(a@) + assertions_view(more@) =~= done + rest);
            assert((start + done).push(a@) =~= start + done.push(a@));
            assert(assertions_view(out@.push(a)) =~= assertions_view(out@).push(a@));
            done = done.push(a@);
        }
        out.push(a);
    }
    assert(assertions_view(more@) =~= Seq::<AssertionModel>::empty());
    assert(done + Seq::<AssertionModel>::empty() =~= done);
}

fn query_inputs(
    action: &Action,
    execution: &ActionExecution,
    responses: &Vec<FlattenedIndex>,
) -> (r: Vec<Parameter>)
    ensures
        parameters_view(r@) == recorded_query(
            owner_of(*action),
            execution.query_params@,
            indexes_view(responses@),
        ),
{
    let ghost want = recorded_query(
        owner_of(*action),
        execution.query_params@,
        indexes_view(responses@),
    );
    let mut out: Vec<Parameter> = Vec::new();
    let mut k: usize = 0;
    assert(parameters_view(out@) =~= want.take(0));
    while k < execution.query_params.len()
        invariant
            k <= execution.query_params.len(),
            want == recorded_query(
                owner_of(*action),
                execution.query_params@,
                indexes_view(responses@),
            ),
            parameters_view(out@) == want.take(k as int),
        decreases execution.query_params.len() - k,
    {
        let p = build_query_param(
            action,
            responses,
            &execution.query_params[k].1,
            &execution.query_params[k].0,
        );
        assert(parameters_view(out@.push(p)) =~= parameters_view(out@).push(p@));
        assert(want.take(k as int).push(p@) =~= want.take(k + 1));
        out.push(p);
        k += 1;
    }
    assert(want.take(execution.query_params.len() as int) =~= want);
    out
}

/// The parameters and assertions that a recording yields for an action, from
/// the executions of the recording.
pub fn build_action_parameters(action: &Action, executions: Vec<ActionExecution>) -> (r:
    BuildActionParamResult)
    ensures
        parameters_view(r.parameters@) == all_recorded_parameters(
            *action,
            executions@,
            recorded_responses(action.name@, executions@),
        ),
        assertions_view(r.assertions@) == all_recorded_assertions(
            *action,
            executions@,
            recorded_requests(action.name@, executions@),
            recorded_responses(action.name@, executions@),
        ),
{
    let ghost requests = recorded_requests(action.name@, executions@);
    let ghost responses = recorded_responses(action.name@, executions@);
    let mut request_indexes: Vec<FlattenedIndex> = Vec::new();
    let mut response_indexes: Vec<FlattenedIndex> = Vec::new();
    let null = JsonValue::Null;
    let mut j: usize = 0;
    assert(indexes_view(request_indexes@) =~= requests.take(0));
    assert(indexes_view(response_indexes@) =~= responses.take(0));
    while j < executions.len()
        invariant
            j <= executions.len(),
            null@ == Json::Null,
            requests == recorded_requests(action.name@, executions@),
            responses == recorded_responses(action.name@, executions@),
            indexes_view(request_indexes@) == requests.take(j as int),
            indexes_view(response_indexes@) == responses.take(j as int),
        decreases executions.len() - j,
    {
        let request = match &executions[j].request_body {
            Some(body) => build_request_index_from_value(&action.name, body),
            None => build_request_index_from_value(&action.name, &null),
        };
        let response = match &executions[j].response_body {
            Some(body) => build_response_index_from_value(&action.name, body),
            None => build_response_index_from_value(&action.name, &null),
        };
        proof {
            assert(request@ == requests[j as int]);
            assert(response@ == responses[j as int]);
            assert(indexes_view(request_indexes@.push(request)) =~= indexes_view(
                request_indexes@,
            ).push(request@));
            assert(indexes_view(response_indexes@.push(response)) =~= indexes_view(
                response_indexes@,
            ).push(response@));
            assert(requests.take(j as int).push(requests[j as int]) =~= requests.take(j + 1));
            assert(responses.take(j as int).push(responses[j as int]) =~= responses.take(j + 1));
        }
        request_indexes.push(request);
        response_indexes.push(response);
        j += 1;
    }
    assert(requests.take(executions.len() as int) =~= requests);
    assert(responses.take(executions.len() as int) =~= responses);
    let mut parameters: Vec<Parameter> = Vec::new();
    let mut assertions: Vec<Assertion> = Vec::new();
    let ghost all = executions@;
    let mut k: usize = 0;
    assert(parameters_view(parameters@) =~= all_recorded_parameters(
        *action,
        all.take(0),
        responses,
    ));
    assert(assertions_view(assertions@) =~= all_recorded_assertions(
        *action,
        all.take(0),
        requests,
        responses,
    ));
    while k < executions.len()
        invariant
            k <= executions.len(),
            all == executions@,
            indexes_view(request_indexes@) == requests,
            indexes_view(response_indexes@) == responses,
            parameters_view(parameters@) == all_recorded_parameters(
                *action,
                all.take(k as int),
                responses,
            ),
            assertions_view(assertions@) == all_recorded_assertions(
                *action,
                all.take(k as int),
                requests,
                responses,
            ),
        decreases executions.len() - k,
    {
        proof {
            let now = all.take(k + 1);
            assert(now.drop_last() =~= all.take(k as int));
            assert(now.last() == all[k as int]);
        }
        let execution = &executions[k];
        let ghost before = parameters_view(parameters@);
        let mut mine = query_inputs(action, execution, &response_indexes);
        match &execution.request_body {
            Some(body) => {
                append_parameters(
                    &mut mine,
                    build_body_parameters_from_value(action, &response_indexes, body),
                );
                append_assertions(
                    &mut assertions,
                    build_assertions(action, &request_indexes, &response_indexes),
                );
            },
            None => {
                assert(parameters_view(mine@) + Seq::<ParameterModel>::empty() =~= parameters_view(
                    mine@,
                ));
                assert(assertions_view(assertions@) + Seq::<AssertionModel>::empty()
                    =~= assertions_view(assertions@));
            },
        }
        match &execution.response_body {
            Some(body) => {
                append_parameters(&mut mine, build_output_parameters_from_value(action, body));
            },
            None => {
                assert(parameters_view(mine@) + Seq::<ParameterModel>::empty() =~= parameters_view(
                    mine@,
                ));
            },
        }
        append_parameters(&mut parameters, mine);
        k += 1;
    }
    assert(all.take(executions.len() as int) =~= all);
    BuildActionParamResult { parameters, assertions }
}

} // verus!
