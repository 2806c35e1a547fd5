use har_replay::assertion::ComparisonType;
use har_replay::exchange::{
    filter_entries, Exchange, ExchangeRequest, ExchangeResponse, NameValue, PostData, PostParam,
};
use har_replay::flatten::FlattenedIndex;
use har_replay::inference::{
    build_action_name_from_url, build_auth_headers, build_auth_name_from_url, build_request_index,
    build_response_index, build_test_case, build_url_without_query_params,
    is_auth_related_header, must_exclude_header, should_build_assertion_for_response_value,
};
use har_replay::json::{JsonNumber, JsonValue};
use har_replay::model::{
    AuthHeaderValue, AuthenticationProvider, ParameterIn, ParameterType, TestCase,
};
use har_replay::urls::obtain_base_url;

fn text(s: &str) -> JsonValue {
    JsonValue::String(s.to_string())
}

fn index(entries: Vec<(&str, JsonValue)>) -> FlattenedIndex {
    FlattenedIndex { entries: entries.into_iter().map(|(k, v)| (k.to_string(), v)).collect() }
}

fn pair(name: &str, value: &str) -> NameValue {
    NameValue { name: name.to_string(), value: value.to_string() }
}

fn exchange(method: &str, url: &str, body: Option<&str>, response: Option<&str>) -> Exchange {
    Exchange {
        request: ExchangeRequest {
            method: method.to_string(),
            url: url.to_string(),
            headers: vec![],
            query_string: vec![],
            cookies: vec![],
            post_data: body.map(|b| PostData {
                mime_type: "application/json".to_string(),
                text: Some(b.to_string()),
                params: None,
            }),
        },
        response: ExchangeResponse {
            mime_type: Some("application/json".to_string()),
            text: response.map(|r| r.to_string()),
        },
    }
}

fn test_case() -> TestCase {
    TestCase {
        customer_id: "cust".to_string(),
        id: "tc".to_string(),
        name: "n".to_string(),
        description: "d".to_string(),
        created_at: None,
        updated_at: None,
    }
}

#[test]
fn build_header_name() {
    let provider_name = build_auth_name_from_url(&String::from("https://layima.app.opsgenie.com"));
    assert_eq!("layima app opsgenie", provider_name.as_str());
}

#[test]
fn build_action_url() {
    let action0_index = index(vec![("$.action0.output.issueKey", text("TEST-1"))]);
    let response_indexes = vec![action0_index];
    let actual = build_url_without_query_params(
        1,
        &"https://abc.xyz/TEST-1/comment".to_string(),
        &response_indexes,
    );
    assert_eq!("https://abc.xyz/$.action0.output.issueKey/comment", actual.as_str());
}

#[test]
fn test_build_action_url_with_params() {
    let action0_index = index(vec![("$.action0.output.issueKey", text(""))]);
    let response_indexes = vec![action0_index];
    let actual = build_url_without_query_params(
        1,
        &"https://layima.atlassian.net/rest/dev-status/1.0/issue/create-branch-targets?issueId=10000"
            .to_string(),
        &response_indexes,
    );
    assert_eq!(
        "https://layima.atlassian.net/rest/dev-status/1.0/issue/create-branch-targets",
        actual.as_str()
    );
}

#[test]
fn test_build_action_name() {
    let actual = build_action_name_from_url(
        1,
        &"https://layima.atlassian.net/jsw2/graphql?operation=BoardCardCreate".to_string(),
    );
    assert_eq!("graphql_board_card_create_1", actual.as_str());
}

#[test]
fn action_names_without_telling_queries() {
    assert_eq!(build_action_name_from_url(0, &"https://a.b/user-items".to_string()), "user_items_0");
    assert_eq!(build_action_name_from_url(12, &"https://a.b/items?page=3".to_string()), "items_12");
    assert_eq!(build_action_name_from_url(2, &"https://a.b/items?status=open".to_string()), "itemsopen_2");
    assert_eq!(build_action_name_from_url(2, &"https://a.b/items?status=".to_string()), "items_2");
}

#[test]
fn base_of_an_address() {
    assert_eq!(obtain_base_url("https://abc.xyz/a/b?c=d"), "https://abc.xyz");
    assert_eq!(obtain_base_url("https://abc.xyz?c=d"), "https://abc.xyz");
    assert_eq!(obtain_base_url("https://abc.xyz#frag"), "https://abc.xyz");
    assert_eq!(obtain_base_url("https://abc.xyz"), "https://abc.xyz");
    assert_eq!(obtain_base_url("abc.xyz/path"), "abc.xyz/path");
    assert_eq!(obtain_base_url(""), "");
}

#[test]
fn credentials_are_found_in_any_case() {
    assert!(is_auth_related_header(&"Authorization".to_string()));
    assert!(is_auth_related_header(&"x-csrf-token".to_string()));
    assert!(is_auth_related_header(&"X-AUTH".to_string()));
    assert!(is_auth_related_header(&"origin".to_string()));
    assert!(!is_auth_related_header(&"accept".to_string()));
    assert!(must_exclude_header(&"Content-Length".to_string()));
    assert!(!must_exclude_header(&"content-type".to_string()));
}

#[test]
fn credentials_of_a_request() {
    let mut e = exchange("GET", "https://a.b/x", None, None);
    e.request.headers = vec![
        pair(":authority", "a.b"),
        pair("authorization", "Bearer 1"),
        pair("accept", "json"),
        pair("authorization", "Bearer 2"),
    ];
    e.request.cookies = vec![pair("session_id", "s1"), pair("theme", "dark")];
    let got = build_auth_headers(&e.request);
    assert_eq!(
        got,
        vec![
            ("authority".to_string(), AuthHeaderValue { value: "a.b".to_string(), disabled: false }),
            ("authorization".to_string(), AuthHeaderValue { value: "Bearer 2".to_string(), disabled: false }),
            ("session_id".to_string(), AuthHeaderValue { value: "s1".to_string(), disabled: false }),
        ]
    );
}

#[test]
fn values_worth_an_assertion() {
    assert!(!should_build_assertion_for_response_value(&JsonValue::Bool(true)));
    assert!(!should_build_assertion_for_response_value(&JsonValue::Null));
    assert!(!should_build_assertion_for_response_value(&text("")));
    assert!(!should_build_assertion_for_response_value(&JsonValue::Array(vec![])));
    assert!(should_build_assertion_for_response_value(&text("x")));
    assert!(should_build_assertion_for_response_value(&JsonValue::Number(JsonNumber::PosInt(0))));
}

#[test]
fn a_body_that_is_not_json_gives_an_empty_index() {
    let e = exchange("POST", "https://a.b/x", Some("{not json"), Some("<html>"));
    assert_eq!(build_response_index(0, &e).entries, vec![]);
    assert_eq!(build_request_index(0, &e).entries, vec![]);
    let none = exchange("GET", "https://a.b/x", None, None);
    assert_eq!(build_response_index(0, &none).entries, vec![]);
    assert_eq!(build_request_index(0, &none).entries, vec![]);
}

#[test]
fn indexes_name_their_action() {
    let e = exchange("POST", "https://a.b/login", Some(r#"{"user":"u"}"#), Some(r#"{"token":"t","n":[1,{"k":true}]}"#));
    assert_eq!(
        build_response_index(3, &e).entries,
        vec![
            ("$.login_3.output.n[0]".to_string(), JsonValue::Number(JsonNumber::PosInt(1))),
            ("$.login_3.output.n[1].k".to_string(), JsonValue::Bool(true)),
            ("$.login_3.output.token".to_string(), text("t")),
        ]
    );
    assert_eq!(
        build_request_index(3, &e).entries,
        vec![("$.login_3.input.user".to_string(), text("u"))]
    );
}

#[test]
fn entries_are_filtered_by_address_and_type() {
    let mut html = exchange("GET", "https://a.b/page", None, None);
    html.response.mime_type = Some("text/html".to_string());
    let mut upload = exchange("POST", "https://a.b/upload", Some("x"), None);
    upload.request.post_data.as_mut().unwrap().mime_type = "multipart/form-data".to_string();
    let mut form = exchange("POST", "https://a.b/form", Some("a=b"), None);
    form.request.post_data.as_mut().unwrap().mime_type = "application/x-www-form-urlencoded".to_string();
    let all = vec![
        exchange("GET", "https://a.b/api/items", None, None),
        exchange("GET", "https://a.b/static/app.js", None, None),
        html,
        upload,
        form,
    ];
    let kept = filter_entries(vec![" static ".to_string()], &all);
    let urls: Vec<&str> = kept.iter().map(|e| e.request.url.as_str()).collect();
    assert_eq!(urls, vec!["https://a.b/api/items", "https://a.b/form"]);
    let everything = filter_entries(vec![], &all);
    assert_eq!(everything.len(), 3);
    let nothing = filter_entries(vec!["".to_string()], &all);
    assert_eq!(nothing.len(), 0);
}

#[test]
fn three_actions_thread_their_context() {
    let mut second = exchange("GET", "https://a.b/orders", None, Some(r#"{"orders":[]}"#));
    second.request.query_string = vec![pair("user", "u-42"), pair("page", "1")];
    let third = exchange(
        "POST",
        "https://a.b/orders/u-42/notes",
        Some(r#"{"note":"hello","owner":"u-42"}"#),
        Some(r#"{"saved":"hello"}"#),
    );
    let all = vec![
        exchange("POST", "https://a.b/login", Some(r#"{"name":"ann"}"#), Some(r#"{"id":"u-42"}"#)),
        second,
        third,
    ];
    let refs: Vec<&Exchange> = all.iter().collect();
    let plan = build_test_case(&test_case(), &refs, &vec![]);
    assert_eq!(plan.actions.len(), 3);
    let names: Vec<&str> = plan.actions.iter().map(|a| a.name.as_str()).collect();
    assert_eq!(names, vec!["login_0", "orders_1", "notes_2"]);
    let orders: Vec<usize> = plan.actions.iter().map(|a| a.order).collect();
    assert_eq!(orders, vec![0, 1, 2]);

    let user = &plan.input_parameters[1][0];
    assert_eq!(user.get_path(), "user");
    assert_eq!(user.get_parameter_in(), ParameterIn::Query);
    assert_eq!(user.parameter_type, ParameterType::Input);
    assert_eq!(user.value, text("u-42"));
    assert_eq!(user.value_expression.as_ref().unwrap().value, "$.login_0.output.id");
    assert_eq!(user.action_id, plan.actions[1].id);
    let page = &plan.input_parameters[1][1];
    assert_eq!(page.value_expression, None);

    assert_eq!(plan.actions[2].url, "https://a.b/orders/$.login_0.output.id/notes");
    let owner = plan.input_parameters[2].iter().find(|p| p.get_path() == "$.owner").unwrap();
    assert_eq!(owner.value_expression.as_ref().unwrap().value, "$.login_0.output.id");
    assert_eq!(owner.get_parameter_in(), ParameterIn::Body);

    let outputs = &plan.output_parameters[0];
    assert_eq!(outputs.len(), 1);
    assert_eq!(outputs[0].get_path(), "$.id");
    assert_eq!(outputs[0].parameter_type, ParameterType::Output);
    assert_eq!(outputs[0].value_expression, None);

    assert!(plan.assertions[0].is_empty());
    assert!(plan.assertions[1].is_empty());
    assert_eq!(plan.assertions[2].len(), 0);
}

#[test]
fn a_value_sent_earlier_is_asserted_when_it_comes_back() {
    let all = vec![
        exchange("POST", "https://a.b/notes", Some(r#"{"text":"hello"}"#), Some(r#"{"ok":true}"#)),
        exchange("GET", "https://a.b/notes", None, Some(r#"{"items":[{"text":"hello"}],"done":false}"#)),
    ];
    let refs: Vec<&Exchange> = all.iter().collect();
    let plan = build_test_case(&test_case(), &refs, &vec![]);
    assert_eq!(plan.assertions[1].len(), 1);
    let a = &plan.assertions[1][0];
    assert_eq!(a.comparison_type, ComparisonType::EqualTo);
    assert!(!a.negate);
    assert_eq!(a.customer_id, "cust");
    assert_eq!(a.test_case_id, "tc");
    let left = a.left.value_provider.as_ref().unwrap().expression.as_ref().unwrap();
    let right = a.right.value_provider.as_ref().unwrap().expression.as_ref().unwrap();
    assert_eq!(left.value, "$.notes_0.input.text");
    assert_eq!(right.value, "$.notes_1.output.items[0].text");
}

#[test]
fn credentials_go_to_existing_or_new_providers() {
    let mut first = exchange("GET", "https://known.io/a", None, None);
    first.request.headers = vec![pair("authorization", "k")];
    let mut second = exchange("GET", "https://new.io/a", None, None);
    second.request.headers = vec![pair("authorization", "one"), pair("accept", "x")];
    let mut third = exchange("GET", "https://new.io/b", None, None);
    third.request.headers = vec![pair("authorization", "two")];
    third.request.cookies = vec![pair("token", "c")];
    let all = vec![first, second, third];
    let refs: Vec<&Exchange> = all.iter().collect();
    let existing = vec![AuthenticationProvider {
        customer_id: "cust".to_string(),
        id: "prov-1".to_string(),
        name: "known".to_string(),
        base_url: "https://known.io".to_string(),
        headers_by_name: vec![],
        linked_test_case_ids: vec![],
        created_at: None,
        updated_at: None,
    }];
    let plan = build_test_case(&test_case(), &refs, &existing);
    assert_eq!(plan.links, vec!["prov-1"]);
    assert_eq!(plan.providers.len(), 1);
    let p = &plan.providers[0];
    assert_eq!(p.base_url, "https://new.io");
    assert_eq!(p.name, "new");
    assert_eq!(p.customer_id, "cust");
    assert_eq!(p.linked_test_case_ids, vec!["tc"]);
    assert_eq!(
        p.headers_by_name,
        vec![
            ("authorization".to_string(), AuthHeaderValue { value: "two".to_string(), disabled: false }),
            ("token".to_string(), AuthHeaderValue { value: "c".to_string(), disabled: false }),
        ]
    );
    assert!(plan.input_parameters[1].iter().all(|p| p.get_path() != "authorization"));
    assert_eq!(plan.input_parameters[1].len(), 1);
}

#[test]
fn form_fields_become_body_inputs() {
    let mut e = exchange("POST", "https://a.b/form", None, None);
    e.request.post_data = Some(PostData {
        mime_type: "application/x-www-form-urlencoded".to_string(),
        text: Some("a=1&b=".to_string()),
        params: Some(vec![
            PostParam { name: "a".to_string(), value: Some("1".to_string()) },
            PostParam { name: "b".to_string(), value: None },
        ]),
    });
    e.request.headers = vec![pair("content-length", "7"), pair("x-trace", "1")];
    let all = vec![e];
    let refs: Vec<&Exchange> = all.iter().collect();
    let plan = build_test_case(&test_case(), &refs, &vec![]);
    let inputs = &plan.input_parameters[0];
    let shown: Vec<(ParameterIn, String)> =
        inputs.iter().map(|p| (p.get_parameter_in(), p.get_path())).collect();
    assert_eq!(
        shown,
        vec![(ParameterIn::Body, "a".to_string()), (ParameterIn::Header, "x-trace".to_string())]
    );
    assert_eq!(plan.actions[0].mime_type, Some("application/x-www-form-urlencoded".to_string()));
    assert_eq!(plan.actions[0].method, "POST");
}

#[test]
fn ids_are_fresh() {
    let all = vec![exchange("GET", "https://a.b/x", None, None), exchange("GET", "https://a.b/y", None, None)];
    let refs: Vec<&Exchange> = all.iter().collect();
    let plan = build_test_case(&test_case(), &refs, &vec![]);
    assert_eq!(plan.actions[0].id.len(), 36);
    assert_ne!(plan.actions[0].id, plan.actions[1].id);
}
