use har_replay::expression::Expression;
use har_replay::http::{
    Endpoint, HttpError, HttpMethod, HttpResult, ReqParam, ResBody, StatusError,
};
use har_replay::json::{JsonNumber, JsonValue};
use har_replay::model::{
    Action, AuthHeaderValue, AuthenticationProvider, Parameter, ParameterIn, ParameterLocation,
    ParameterType, Run, RunStatus,
};
use har_replay::replay::{
    build_action_execution, build_http_params, build_http_request, build_http_request_body,
    build_http_url, evaluate_value, merge_outcome, resolve_error_from_result,
    resolve_status_code, sort_actions,
};

fn text(s: &str) -> JsonValue {
    JsonValue::String(s.to_string())
}

fn object(members: Vec<(&str, JsonValue)>) -> JsonValue {
    JsonValue::Object(members.into_iter().map(|(k, v)| (k.to_string(), v)).collect())
}

fn parameter(location: ParameterLocation, value: JsonValue, expression: Option<&str>) -> Parameter {
    Parameter {
        customer_id: "".to_string(),
        test_case_id: "".to_string(),
        action_id: "".to_string(),
        id: "p".to_string(),
        parameter_type: ParameterType::Input,
        location,
        value,
        value_expression: expression.map(|e| Expression { value: e.to_string() }),
        created_at: None,
        updated_at: None,
    }
}

fn action(order: usize, url: &str, method: &str) -> Action {
    Action {
        customer_id: "c".to_string(),
        test_case_id: "t".to_string(),
        id: format!("a{}", order),
        order,
        url: url.to_string(),
        name: format!("step_{}", order),
        mime_type: None,
        method: method.to_string(),
        created_at: None,
        updated_at: None,
    }
}

#[test]
fn test_build_request_body() {
    let param_with_expression = parameter(
        ParameterLocation::Body(String::from("$.x.y.z")),
        JsonValue::Null,
        Some("$.action1.output.aMap.inner.aField"),
    );
    let param_with_no_expression =
        parameter(ParameterLocation::Body(String::from("$.aList[0]")), text("anItem"), None);
    let parameters = vec![param_with_expression, param_with_no_expression];
    let context = object(vec![(
        "action1",
        object(vec![(
            "output",
            object(vec![("aMap", object(vec![("inner", object(vec![("aField", text("val1"))]))]))]),
        )]),
    )]);
    let actual = build_http_request_body(&parameters, &context);
    println!("actual: {:?}", actual.value);
    assert_eq!(actual.value.is_some(), true);
    assert_eq!(
        actual.value.unwrap(),
        object(vec![
            ("x", object(vec![("y", object(vec![("z", text("val1"))]))])),
            ("aList", JsonValue::Array(vec![text("anItem")])),
        ])
    )
}

#[test]
fn test_build_http_param() {
    let param_with_expression = parameter(
        ParameterLocation::Query(String::from("nextPage")),
        JsonValue::Null,
        Some("$.action1.output.pageKey"),
    );
    let param_with_no_expression =
        parameter(ParameterLocation::Header(String::from("x-header1")), text("header-val1"), None);
    let parameters = vec![param_with_expression, param_with_no_expression];
    let context =
        object(vec![("action1", object(vec![("output", object(vec![("pageKey", text("p123"))]))]))]);
    let actual_query_params = build_http_params(&parameters, &context, ParameterIn::Query);
    let actual_header_params = build_http_params(&parameters, &context, ParameterIn::Header);
    assert_eq!(
        actual_query_params,
        vec![ReqParam { key: "nextPage".to_string(), value: "p123".to_string() }]
    );
    assert_eq!(
        actual_header_params,
        vec![ReqParam { key: "x-header1".to_string(), value: "header-val1".to_string() }]
    );
}

#[test]
fn expression_goes_before_the_literal() {
    let p = parameter(ParameterLocation::Query("q".to_string()), text("recorded"), Some("$.a.id"));
    let context = object(vec![("a", object(vec![("id", text("live"))]))]);
    assert_eq!(evaluate_value(&p, &context), Ok(text("live")));
}

#[test]
fn expression_without_result_is_an_error() {
    let p = parameter(ParameterLocation::Query("q".to_string()), text("recorded"), Some("$.a.id"));
    assert_eq!(
        evaluate_value(&p, &JsonValue::Null),
        Err("expression \"$.a.id\" produces empty result".to_string())
    );
}

#[test]
fn array_literal_collects_every_result() {
    let p = parameter(
        ParameterLocation::Body("$.ids".to_string()),
        JsonValue::Array(vec![]),
        Some("$.a[*].id"),
    );
    let one = JsonValue::Number(JsonNumber::PosInt(1));
    let two = JsonValue::Number(JsonNumber::PosInt(2));
    let context = object(vec![(
        "a",
        JsonValue::Array(vec![object(vec![("id", one.clone())]), object(vec![("id", two.clone())])]),
    )]);
    assert_eq!(evaluate_value(&p, &context), Ok(JsonValue::Array(vec![one, two])));
}

#[test]
fn empty_result_fails_an_array_literal_too() {
    let p = parameter(
        ParameterLocation::Body("$.ids".to_string()),
        JsonValue::Array(vec![]),
        Some("$.a[*].id"),
    );
    assert_eq!(
        evaluate_value(&p, &JsonValue::Null),
        Err("expression \"$.a[*].id\" produces empty result".to_string())
    );
    let parameters = vec![
        p,
        parameter(ParameterLocation::Body("$.n".to_string()), JsonValue::Number(JsonNumber::PosInt(7)), None),
    ];
    let body = build_http_request_body(&parameters, &JsonValue::Null);
    assert_eq!(body.value, Some(object(vec![("n", JsonValue::Number(JsonNumber::PosInt(7)))])));
}

#[test]
fn unresolved_parameter_is_dropped_alone() {
    let parameters = vec![
        parameter(ParameterLocation::Query("a".to_string()), JsonValue::Null, Some("$.missing")),
        parameter(ParameterLocation::Query("b".to_string()), JsonValue::Number(JsonNumber::PosInt(7)), None),
    ];
    let got = build_http_params(&parameters, &JsonValue::Null, ParameterIn::Query);
    assert_eq!(got, vec![ReqParam::new("b".to_string(), "7".to_string())]);
}

#[test]
fn url_parts_are_filled_from_the_context() {
    let context = object(vec![("action0", object(vec![("output", object(vec![("id", text("X-9"))]))]))]);
    let got = build_http_url(&"https://abc.xyz/$.action0.output.id/comment".to_string(), &context);
    assert_eq!(got, "https://abc.xyz/X-9/comment");
    let missing = build_http_url(&"https://abc.xyz/$.nothing.here/comment".to_string(), &context);
    assert_eq!(missing, "https://abc.xyz//comment");
}

#[test]
fn body_is_absent_without_body_parameters() {
    let parameters =
        vec![parameter(ParameterLocation::Query("a".to_string()), text("x"), None)];
    assert!(build_http_request_body(&parameters, &JsonValue::Null).value.is_none());
}

fn provider(base_url: &str, linked: &str, headers: Vec<(&str, &str, bool)>) -> AuthenticationProvider {
    AuthenticationProvider {
        customer_id: "c".to_string(),
        id: "p".to_string(),
        name: "n".to_string(),
        base_url: base_url.to_string(),
        headers_by_name: headers
            .into_iter()
            .map(|(k, v, d)| (k.to_string(), AuthHeaderValue { value: v.to_string(), disabled: d }))
            .collect(),
        linked_test_case_ids: vec![linked.to_string()],
        created_at: None,
        updated_at: None,
    }
}

#[test]
fn request_takes_enabled_headers_of_matching_providers() {
    let a = action(1, "https://abc.xyz/items", "get");
    let parameters = vec![
        parameter(ParameterLocation::Header("accept".to_string()), text("json"), None),
        parameter(ParameterLocation::Query("page".to_string()), text("2"), None),
    ];
    let providers = vec![
        provider("https://abc.xyz", "t", vec![("authorization", "Bearer 1", false), ("x-off", "no", true)]),
        provider("https://other.xyz", "t", vec![("authorization", "Bearer 2", false)]),
        provider("https://abc.xyz", "another", vec![("authorization", "Bearer 3", false)]),
    ];
    let request = build_http_request(&a, &parameters, &providers, &JsonValue::Null).unwrap();
    assert_eq!(request.endpoint.method, HttpMethod::GET);
    assert_eq!(request.endpoint.to_url(), "https://abc.xyz/items?page=2");
    assert_eq!(
        request.endpoint.headers,
        vec![
            ReqParam::new("accept".to_string(), "json".to_string()),
            ReqParam::new("authorization".to_string(), "Bearer 1".to_string()),
        ]
    );
    assert_eq!(request.content_type, "application/json");
    assert!(request.get_body().is_none());
}

#[test]
fn request_of_unknown_method_is_refused() {
    let a = action(0, "https://abc.xyz", "FETCH");
    let got = build_http_request(&a, &vec![], &vec![], &JsonValue::Null);
    assert_eq!(got.err(), Some("Invalid HTTP method: FETCH".to_string()));
}

#[test]
fn method_names_are_read_in_any_case() {
    assert_eq!(HttpMethod::from_str("pOsT"), Ok(HttpMethod::POST));
    assert_eq!(HttpMethod::from_str("delete"), Ok(HttpMethod::DELETE));
    assert_eq!(HttpMethod::from_str("PATCH"), Ok(HttpMethod::PATCH));
    assert_eq!(HttpMethod::from_str("put"), Ok(HttpMethod::PUT));
    assert_eq!(HttpMethod::from_str(""), Err("Invalid HTTP method: ".to_string()));
    assert_eq!(HttpMethod::GET.to_string(), "GET");
}

#[test]
fn context_threads_outputs_forward() {
    let mut context: Vec<(String, JsonValue)> = Vec::new();
    let answered: Result<HttpResult<JsonValue>, HttpError> =
        Ok(HttpResult::new(ResBody::new(object(vec![("id", text("live-1"))])), 200));
    merge_outcome(&mut context, &"action0".to_string(), None, &answered);
    let failed: Result<HttpResult<JsonValue>, HttpError> = Err(HttpError::Io("down".to_string()));
    merge_outcome(&mut context, &"action1".to_string(), Some(text("sent")), &failed);
    let whole = JsonValue::Object(context);
    assert_eq!(
        whole,
        object(vec![
            ("action0", object(vec![("input", JsonValue::Null), ("output", object(vec![("id", text("live-1"))]))])),
            ("action1", object(vec![("input", text("sent")), ("output", JsonValue::Null)])),
        ])
    );
    let p = parameter(ParameterLocation::Query("id".to_string()), text("recorded-1"), Some("$.action0.output.id"));
    let got = build_http_params(&vec![p], &whole, ParameterIn::Query);
    assert_eq!(got, vec![ReqParam::new("id".to_string(), "live-1".to_string())]);
}

#[test]
fn a_later_outcome_replaces_an_earlier_one_of_the_same_name() {
    let mut context: Vec<(String, JsonValue)> = Vec::new();
    let first: Result<HttpResult<JsonValue>, HttpError> =
        Ok(HttpResult::new(ResBody::new(text("one")), 200));
    let second: Result<HttpResult<JsonValue>, HttpError> =
        Ok(HttpResult::new(ResBody::new(text("two")), 200));
    merge_outcome(&mut context, &"a".to_string(), None, &first);
    merge_outcome(&mut context, &"a".to_string(), None, &second);
    assert_eq!(context.len(), 1);
    assert_eq!(context[0].1, object(vec![("input", JsonValue::Null), ("output", text("two"))]));
}

#[test]
fn status_and_error_of_each_outcome() {
    let ok: Result<HttpResult<JsonValue>, HttpError> =
        Ok(HttpResult::new(ResBody::new(JsonValue::Null), 201));
    let client: Result<HttpResult<JsonValue>, HttpError> =
        Err(HttpError::Status(404, StatusError::ClientError("gone".to_string())));
    let server: Result<HttpResult<JsonValue>, HttpError> =
        Err(HttpError::Status(503, StatusError::ServerError("busy".to_string())));
    let io: Result<HttpResult<JsonValue>, HttpError> = Err(HttpError::Io("refused".to_string()));
    assert_eq!(resolve_status_code(&ok), 201);
    assert_eq!(resolve_status_code(&client), 404);
    assert_eq!(resolve_status_code(&server), 503);
    assert_eq!(resolve_status_code(&io), 0);
    assert_eq!(resolve_error_from_result(&ok), None);
    assert_eq!(resolve_error_from_result(&client), Some("gone".to_string()));
    assert_eq!(resolve_error_from_result(&server), Some("busy".to_string()));
    assert_eq!(resolve_error_from_result(&io), Some("refused".to_string()));
}

#[test]
fn execution_records_the_call() {
    let run = Run::start("c".to_string(), "t".to_string(), "r".to_string(), 10);
    let a = action(0, "https://abc.xyz", "GET");
    let request = build_http_request(
        &a,
        &vec![parameter(ParameterLocation::Query("q".to_string()), text("v"), None)],
        &vec![],
        &JsonValue::Null,
    )
    .unwrap();
    let failed: Result<HttpResult<JsonValue>, HttpError> =
        Err(HttpError::Status(500, StatusError::ServerError("boom".to_string())));
    let e = build_action_execution(&run, &a, "e".to_string(), &request, &failed, 11, 12);
    assert_eq!(e.run_id, "r");
    assert_eq!(e.action_id, "a0");
    assert_eq!(e.status_code, 500);
    assert_eq!(e.error, Some("boom".to_string()));
    assert_eq!(e.response_body, None);
    assert_eq!(e.query_params, vec![("q".to_string(), "v".to_string())]);
    assert_eq!(e.started_at, Some(11));
    assert_eq!(e.finished_at, Some(12));
}

#[test]
fn actions_replay_in_ascending_order() {
    let sorted = sort_actions(vec![
        action(2, "u", "GET"),
        action(0, "u", "GET"),
        action(1, "u", "GET"),
    ]);
    let orders: Vec<usize> = sorted.iter().map(|a| a.order).collect();
    assert_eq!(orders, vec![0, 1, 2]);
}

#[test]
fn a_run_finishes_once() {
    let mut run = Run::start("c".to_string(), "t".to_string(), "r".to_string(), 1);
    assert_eq!(run.status, RunStatus::InProgress);
    assert!(!run.status.is_terminal());
    assert!(run.finish(vec![], 5));
    assert_eq!(run.status, RunStatus::Finished);
    assert_eq!(run.finished_at, Some(5));
    assert!(!run.finish(vec![], 9));
    assert_eq!(run.status, RunStatus::Finished);
    assert_eq!(run.finished_at, Some(5));
    assert!(run.status.is_terminal());
}

#[test]
fn a_run_begun_now_is_in_progress_and_finishes_once() {
    let mut run = Run::begin("c".to_string(), "t".to_string());
    let other = Run::begin("c".to_string(), "t".to_string());
    assert_eq!(run.customer_id, "c");
    assert_eq!(run.test_case_id, "t");
    assert_eq!(run.status, RunStatus::InProgress);
    assert_eq!(run.finished_at, None);
    assert_eq!(run.id.len(), 36);
    assert_ne!(run.id, other.id);
    assert!(run.started_at > 0);
    assert!(run.finish_now(vec![]));
    assert_eq!(run.status, RunStatus::Finished);
    let ended = run.finished_at;
    assert!(ended.is_some());
    assert!(!run.finish_now(vec![]));
    assert_eq!(run.finished_at, ended);
}

#[test]
fn endpoint_fills_placeholders_and_writes_its_query() {
    let e = Endpoint::new(
        HttpMethod::GET,
        "/users/{id}/posts/{id}".to_string(),
        vec![ReqParam::new("{id}".to_string(), "7".to_string())],
        vec![
            ReqParam::new("a".to_string(), "1".to_string()),
            ReqParam::new("b".to_string(), "2".to_string()),
        ],
        vec![],
    );
    assert_eq!(e.path, "/users/7/posts/7");
    assert_eq!(e.to_url(), "/users/7/posts/7?a=1&b=2");
    let bare = Endpoint::new(HttpMethod::GET, "/x".to_string(), vec![], vec![], vec![]);
    assert_eq!(bare.to_url(), "/x");
}
