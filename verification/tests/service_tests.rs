use har_replay::api::{CreateAuthProviderPayload, PutAssertionPayload, SetHeaderPayload};
use har_replay::assertion::{AssertionItem, ComparisonType};
use har_replay::http::{
    Endpoint, HttpError, HttpMethod, HttpRequest, HttpResult, ReqBody, ReqParam, ResBody,
    StatusError,
};
use har_replay::json::{JsonNumber, JsonValue};
use har_replay::model::{
    Action, ActionExecution, AuthHeaderValue, ParameterIn, ParameterType, Run, TestCase,
};
use har_replay::patterns::current_timestamp;
use har_replay::proxy::{
    build_action, build_action_execution, build_action_parameters, update_execution,
};
use har_replay::service::{
    assertion_from_payload, body_encoding, build_cookie_header, comma_list, is_left,
    pair_executions, parameter_location_prefix, parameter_path_prefix, provider_from_payload,
    read_response, side_name, BodyEncoding,
};

fn text(s: &str) -> JsonValue {
    JsonValue::String(s.to_string())
}

fn object(members: Vec<(&str, JsonValue)>) -> JsonValue {
    JsonValue::Object(members.into_iter().map(|(k, v)| (k.to_string(), v)).collect())
}

fn action(id: &str, order: usize) -> Action {
    Action {
        customer_id: "c".to_string(),
        test_case_id: "t".to_string(),
        id: id.to_string(),
        order,
        url: "https://a.b/x".to_string(),
        name: format!("x_{}", order),
        mime_type: None,
        method: "GET".to_string(),
        created_at: None,
        updated_at: None,
    }
}

fn execution(action_id: &str, request: Option<JsonValue>, response: Option<JsonValue>) -> ActionExecution {
    ActionExecution {
        run_id: "r".to_string(),
        customer_id: "c".to_string(),
        test_case_id: "t".to_string(),
        action_id: action_id.to_string(),
        id: format!("e-{}", action_id),
        status_code: 200,
        error: None,
        response_body: response,
        request_body: request,
        query_params: vec![],
        started_at: None,
        finished_at: None,
        created_at: None,
        updated_at: None,
    }
}

#[test]
fn answers_are_read_by_their_status() {
    match read_response(200, r#"{"a":[1,2.5,-3]}"#.to_string()) {
        Ok(answer) => {
            assert_eq!(answer.status_code, 200);
            assert_eq!(
                answer.res_body.value,
                object(vec![(
                    "a",
                    JsonValue::Array(vec![
                        JsonValue::Number(JsonNumber::PosInt(1)),
                        JsonValue::Number(JsonNumber::Float("2.5".to_string())),
                        JsonValue::Number(JsonNumber::NegInt(-3)),
                    ])
                )])
            );
        }
        Err(e) => panic!("{:?}", e),
    }
    assert!(matches!(
        read_response(404, "gone".to_string()),
        Err(HttpError::Status(404, StatusError::ClientError(m))) if m == "gone"
    ));
    assert!(matches!(
        read_response(500, "boom".to_string()),
        Err(HttpError::Status(500, StatusError::ServerError(m))) if m == "boom"
    ));
    assert!(matches!(
        read_response(302, "moved".to_string()),
        Err(HttpError::Status(302, StatusError::ServerError(m))) if m == "moved"
    ));
    assert!(matches!(
        read_response(204, "".to_string()),
        Err(HttpError::Io(m)) if m == "response body is not JSON"
    ));
}

#[test]
fn bodies_travel_as_forms_or_json() {
    assert_eq!(body_encoding(&"application/x-www-form-urlencoded; charset=utf-8".to_string()), BodyEncoding::Form);
    assert_eq!(body_encoding(&"application/json".to_string()), BodyEncoding::Json);
    assert_eq!(body_encoding(&"".to_string()), BodyEncoding::Json);
}

#[test]
fn cookies_share_one_header() {
    let cookies = vec![
        ReqParam::new("a".to_string(), "1".to_string()),
        ReqParam::new("b".to_string(), "2".to_string()),
    ];
    assert_eq!(build_cookie_header(&cookies), "a=1;b=2");
    assert_eq!(build_cookie_header(&vec![]), "");
}

#[test]
fn executions_find_their_actions() {
    let actions = vec![action("a1", 0), action("a2", 1), action("a1", 2)];
    let pairs = pair_executions(
        vec![execution("a2", None, None), execution("zz", None, None), execution("a1", None, None)],
        &actions,
    );
    assert_eq!(pairs.len(), 3);
    assert_eq!(pairs[0].action.as_ref().map(|a| a.order), Some(1));
    assert_eq!(pairs[0].execution.id, "e-a2");
    assert!(pairs[1].action.is_none());
    assert_eq!(pairs[2].action.as_ref().map(|a| a.order), Some(0));
}

#[test]
fn key_prefixes_of_parameters() {
    assert_eq!(
        parameter_location_prefix(&"a".to_string(), &ParameterType::Input, Some(ParameterIn::Query)),
        "a#input#query"
    );
    assert_eq!(parameter_location_prefix(&"a".to_string(), &ParameterType::Output, None), "a#output#");
    assert_eq!(
        parameter_path_prefix(&"a".to_string(), &ParameterType::Output, &"$.x".to_string()),
        "a#output#$.x"
    );
}

#[test]
fn sides_of_an_assertion() {
    assert!(is_left(&"left".to_string()));
    assert!(!is_left(&"right".to_string()));
    assert!(!is_left(&"Left".to_string()));
    assert_eq!(side_name(true), "left");
    assert_eq!(side_name(false), "right");
}

#[test]
fn assertions_keep_or_get_an_id() {
    let payload = |id: Option<&str>| PutAssertionPayload {
        id: id.map(|s| s.to_string()),
        left: AssertionItem::from_value(text("l")),
        right: AssertionItem::from_value(text("r")),
        comparison_type: ComparisonType::Contains,
        negate: true,
    };
    let kept = assertion_from_payload("c".to_string(), "t".to_string(), payload(Some("given")));
    assert_eq!(kept.id, "given");
    assert_eq!(kept.customer_id, "c");
    assert_eq!(kept.test_case_id, "t");
    assert_eq!(kept.comparison_type, ComparisonType::Contains);
    assert!(kept.negate);
    let fresh = assertion_from_payload("c".to_string(), "t".to_string(), payload(None));
    assert_eq!(fresh.id.len(), 36);
}

#[test]
fn providers_from_payloads() {
    let p = provider_from_payload(
        "c".to_string(),
        CreateAuthProviderPayload {
            name: "n".to_string(),
            url: "https://a.b".to_string(),
            headers: vec![
                SetHeaderPayload { name: "x".to_string(), value: "1".to_string() },
                SetHeaderPayload { name: "y".to_string(), value: "2".to_string() },
                SetHeaderPayload { name: "x".to_string(), value: "3".to_string() },
            ],
        },
    );
    assert_eq!(p.base_url, "https://a.b");
    assert_eq!(
        p.headers_by_name,
        vec![
            ("x".to_string(), AuthHeaderValue { value: "3".to_string(), disabled: false }),
            ("y".to_string(), AuthHeaderValue { value: "2".to_string(), disabled: false }),
        ]
    );
    assert!(p.linked_test_case_ids.is_empty());
}

#[test]
fn lists_with_commas() {
    assert_eq!(comma_list(&" a , ,b".to_string(), true, true), vec!["a", "", "b"]);
    assert_eq!(comma_list(&" a , ,b".to_string(), true, false), vec!["a", "b"]);
    assert_eq!(comma_list(&" a , ,b".to_string(), false, true), vec![" a ", " ", "b"]);
    assert_eq!(comma_list(&"".to_string(), false, true), vec![""]);
    assert_eq!(comma_list(&"".to_string(), true, false), Vec::<String>::new());
}

#[test]
fn the_clock_moves_on() {
    let first = current_timestamp();
    assert!(first > 1_600_000_000_000);
    assert!(current_timestamp() >= first);
}

fn request(query: Vec<(&str, &str)>, body: Option<JsonValue>) -> HttpRequest {
    HttpRequest::new(
        Endpoint::new(
            HttpMethod::POST,
            "https://a.b/user-notes".to_string(),
            vec![],
            query.into_iter().map(|(k, v)| ReqParam::new(k.to_string(), v.to_string())).collect(),
            vec![],
        ),
        match body {
            Some(b) => ReqBody::new(b),
            None => ReqBody::empty(),
        },
        "application/json".to_string(),
    )
}

#[test]
fn a_request_that_passes_through_is_recorded() {
    let test_case = TestCase {
        customer_id: "c".to_string(),
        id: "t".to_string(),
        name: "n".to_string(),
        description: "d".to_string(),
        created_at: None,
        updated_at: None,
    };
    let req = request(vec![("kind", "Draft")], Some(text("b")));
    let a = build_action(&test_case, &req, 4);
    assert_eq!(a.url, "https://a.b/user-notes?kind=Draft");
    assert_eq!(a.name, "user_notes_draft_4");
    assert_eq!(a.method, "POST");
    assert_eq!(a.mime_type, Some("application/json".to_string()));
    assert_eq!(a.order, 4);
    let run = Run::start("c".to_string(), "t".to_string(), "r".to_string(), 1);
    let pending = build_action_execution(&run, &a.id, &req, None);
    assert_eq!(pending.status_code, 0);
    assert_eq!(pending.response_body, None);
    assert_eq!(pending.request_body, Some(text("b")));
    assert_eq!(pending.query_params, vec![("kind".to_string(), "Draft".to_string())]);
    let done = update_execution(pending, HttpResult::new(ResBody::new(text("ok")), 201));
    assert_eq!(done.status_code, 201);
    assert_eq!(done.response_body, Some(text("ok")));
    assert_eq!(done.request_body, Some(text("b")));
    let answered =
        build_action_execution(&run, &a.id, &req, Some(HttpResult::new(ResBody::new(text("x")), 200)));
    assert_eq!(answered.status_code, 200);
    assert_eq!(answered.response_body, Some(text("x")));
}

#[test]
fn a_recording_yields_parameters_and_assertions() {
    let a = action("a1", 1);
    let mut first = execution("a1", Some(object(vec![("note", text("hello"))])), Some(object(vec![("id", text("n-1"))])));
    first.query_params = vec![("ref".to_string(), "n-1".to_string())];
    let second = execution("a1", None, Some(object(vec![("echo", text("hello"))])));
    let got = build_action_parameters(&a, vec![first, second]);
    let shown: Vec<(ParameterType, ParameterIn, String, Option<String>)> = got
        .parameters
        .iter()
        .map(|p| {
            (
                p.parameter_type,
                p.get_parameter_in(),
                p.get_path(),
                p.value_expression.as_ref().map(|e| e.value.clone()),
            )
        })
        .collect();
    assert_eq!(
        shown,
        vec![
            (ParameterType::Input, ParameterIn::Query, "ref".to_string(), Some("$.x_1.output.id".to_string())),
            (ParameterType::Input, ParameterIn::Body, "$.note".to_string(), None),
            (ParameterType::Output, ParameterIn::Body, "$.id".to_string(), None),
            (ParameterType::Output, ParameterIn::Body, "$.echo".to_string(), None),
        ]
    );
    assert_eq!(got.assertions.len(), 1);
    let only = &got.assertions[0];
    assert_eq!(
        only.left.value_provider.as_ref().unwrap().expression.as_ref().unwrap().value,
        "$.x_1.input.note"
    );
    assert_eq!(
        only.right.value_provider.as_ref().unwrap().expression.as_ref().unwrap().value,
        "$.x_1.output.echo"
    );
}
