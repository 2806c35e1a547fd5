use har_replay::api::{ApiResponse, AppError};
use har_replay::assertion::AssertionResult;
use har_replay::expression::Expression;
use har_replay::json::JsonValue;
use har_replay::model::{
    Action, Parameter, ParameterIn, ParameterLocation, ParameterType, Run, TestCase,
};
use har_replay::storage::{
    action_key, after_action_deleted, after_run_deleted, after_test_case_deleted, batch_bounds,
    build_composite_key, continues, extract_location_tuple, parameter_in_to_str, parameter_key,
    parameter_location_key, parameter_path_key, parameter_type_to_str, with_update_time,
    CascadeStep, EntityKind,
};

fn test_case() -> TestCase {
    TestCase {
        customer_id: "c".to_string(),
        id: "t".to_string(),
        name: "n".to_string(),
        description: "d".to_string(),
        created_at: None,
        updated_at: None,
    }
}

fn parameter() -> Parameter {
    Parameter {
        customer_id: "c".to_string(),
        test_case_id: "t".to_string(),
        action_id: "a".to_string(),
        id: "p".to_string(),
        parameter_type: ParameterType::Output,
        location: ParameterLocation::Body("$.x".to_string()),
        value: JsonValue::Null,
        value_expression: Some(Expression { value: "$.y".to_string() }),
        created_at: None,
        updated_at: None,
    }
}

#[test]
fn composite_keys_join_with_hash() {
    assert_eq!(build_composite_key(vec!["a".to_string(), "b".to_string(), "c".to_string()]), "a#b#c");
    assert_eq!(build_composite_key(vec!["a".to_string()]), "a");
    assert_eq!(build_composite_key(vec![]), "");
}

#[test]
fn words_for_kinds_and_parts() {
    assert_eq!(parameter_type_to_str(&ParameterType::Input), "input");
    assert_eq!(parameter_type_to_str(&ParameterType::Output), "output");
    assert_eq!(parameter_in_to_str(&ParameterIn::Header), "header");
    assert_eq!(parameter_in_to_str(&ParameterIn::Cookie), "cookie");
    assert_eq!(parameter_in_to_str(&ParameterIn::Body), "body");
    assert_eq!(parameter_in_to_str(&ParameterIn::Query), "query");
    assert_eq!(extract_location_tuple(&parameter()), ("body".to_string(), "$.x".to_string()));
}

#[test]
fn keys_of_a_parameter() {
    let p = parameter();
    let key = parameter_key(&p);
    assert_eq!(key.partition_key, "c#t");
    assert_eq!(key.sort_key, "a#p");
    assert_eq!(parameter_location_key(&p), "a#output#body");
    assert_eq!(parameter_path_key(&p), "a#output#$.x");
    assert_eq!(EntityKind::Parameter.table_name(), "parameters");
    assert_eq!(EntityKind::Parameter.sort_key_name(), "action_id#id");
    assert_eq!(EntityKind::ActionExecution.partition_key_name(), "customer_id#test_case_id#run_id");
    assert_eq!(EntityKind::TestCase.partition_key_name(), "customer_id");
}

#[test]
fn deleting_a_test_case_reaches_everything_it_owns() {
    let steps = after_test_case_deleted(&test_case());
    let mut kinds = vec![];
    let mut unlinked = false;
    for step in &steps {
        match step {
            CascadeStep::DeleteAll { kind, partition_key } => {
                assert_eq!(partition_key, "c#t");
                kinds.push(*kind);
            }
            CascadeStep::Unlink { customer_id, test_case_id } => {
                assert_eq!(customer_id, "c");
                assert_eq!(test_case_id, "t");
                unlinked = true;
            }
        }
    }
    assert_eq!(kinds, vec![EntityKind::Action, EntityKind::Run, EntityKind::Assertion]);
    assert!(unlinked);
    let action = Action {
        customer_id: "c".to_string(),
        test_case_id: "t".to_string(),
        id: "a".to_string(),
        order: 0,
        url: "u".to_string(),
        name: "n".to_string(),
        mime_type: None,
        method: "GET".to_string(),
        created_at: None,
        updated_at: None,
    };
    assert_eq!(action_key(&action).partition_key, "c#t");
    match &after_action_deleted(&action)[0] {
        CascadeStep::DeleteAll { kind, partition_key } => {
            assert_eq!(*kind, EntityKind::Parameter);
            assert_eq!(partition_key, "c#t");
        }
        other => panic!("{:?}", other),
    }
    let run = Run::start("c".to_string(), "t".to_string(), "r".to_string(), 0);
    match &after_run_deleted(&run)[0] {
        CascadeStep::DeleteAll { kind, partition_key } => {
            assert_eq!(*kind, EntityKind::ActionExecution);
            assert_eq!(partition_key, "c#t#r");
        }
        other => panic!("{:?}", other),
    }
}

#[test]
fn writes_are_cut_into_batches_of_twenty_five() {
    assert_eq!(batch_bounds(0), vec![]);
    assert_eq!(batch_bounds(1), vec![(0, 1)]);
    assert_eq!(batch_bounds(25), vec![(0, 25)]);
    assert_eq!(batch_bounds(26), vec![(0, 25), (25, 26)]);
    assert_eq!(batch_bounds(60), vec![(0, 25), (25, 50), (50, 60)]);
}

#[test]
fn paging_goes_on_while_there_is_more() {
    assert!(continues(&Some("k".to_string()), false));
    assert!(!continues(&Some("k".to_string()), true));
    assert!(!continues(&None, false));
}

#[test]
fn updates_record_their_time() {
    assert_eq!(
        with_update_time(&"SET #a = :a".to_string()),
        "SET #a = :a, #updated_at = :updated_at"
    );
    assert_eq!(
        with_update_time(&"REMOVE #a".to_string()),
        "REMOVE #a SET #updated_at = :updated_at"
    );
}

#[test]
fn answers_to_results() {
    let ok: Result<u8, AppError> = Ok(3);
    assert_eq!(ApiResponse::from(ok).unwrap().0, 3);
    let failed: Result<u8, AppError> = Err(AppError::Validation("bad".to_string()));
    assert!(matches!(ApiResponse::from(failed), Err(AppError::Validation(m)) if m == "bad"));
    let found: Result<Option<u8>, AppError> = Ok(Some(4));
    assert_eq!(ApiResponse::from_option(found).unwrap().0, 4);
    let missing: Result<Option<u8>, AppError> = Ok(None);
    assert!(matches!(ApiResponse::from_option(missing), Err(AppError::NotFound(m)) if m == "Not found"));
    let broken: Result<Option<u8>, AppError> = Err(AppError::Internal("db".to_string()));
    assert!(matches!(ApiResponse::from_option(broken), Err(AppError::Internal(m)) if m == "db"));
}

#[test]
fn failures_and_their_statuses() {
    assert_eq!(AppError::NotFound("x".to_string()).status_code(), 404);
    assert_eq!(AppError::Validation("x".to_string()).status_code(), 400);
    assert_eq!(AppError::Processing("x".to_string()).status_code(), 422);
    assert_eq!(AppError::Internal("x".to_string()).status_code(), 500);
    assert_eq!(AppError::Processing("bad capture".to_string()).body().message, "bad capture");
    assert_eq!(AppError::Internal("secret".to_string()).body().message, "Internal server error");
}

#[test]
fn results_of_assertions() {
    let ok = AssertionResult::of_success("a".to_string());
    assert_eq!(ok, AssertionResult { assertion_id: "a".to_string(), success: true, message: None });
    let bad = AssertionResult::from_error("a".to_string(), "why".to_string());
    assert_eq!(
        bad,
        AssertionResult { assertion_id: "a".to_string(), success: false, message: Some("why".to_string()) }
    );
}
