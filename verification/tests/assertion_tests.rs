use har_replay::assertion::{
    check, check_assertion, Assertion, AssertionItem, ComparisonType, Function, Operation,
    ValueProvider,
};
use har_replay::expression::Expression;
use har_replay::json::{JsonNumber, JsonValue};

fn text(s: &str) -> JsonValue {
    JsonValue::String(s.to_string())
}

fn whole(n: u64) -> JsonValue {
    JsonValue::Number(JsonNumber::PosInt(n))
}

fn object(members: Vec<(&str, JsonValue)>) -> JsonValue {
    JsonValue::Object(members.into_iter().map(|(k, v)| (k.to_string(), v)).collect())
}

fn context_with(output: JsonValue) -> JsonValue {
    object(vec![
        ("action1", object(vec![("output", output)])),
        ("location", text("Menlo Park, CA")),
    ])
}

fn assertion(
    left: AssertionItem,
    right: AssertionItem,
    comparison_type: ComparisonType,
    negate: bool,
) -> Assertion {
    Assertion {
        customer_id: "".to_string(),
        test_case_id: "".to_string(),
        id: "".to_string(),
        left,
        right,
        comparison_type,
        negate,
        created_at: None,
        updated_at: None,
    }
}

fn path(p: &str) -> AssertionItem {
    AssertionItem::from_expression(Expression { value: p.to_string() })
}

fn equality(negate: bool) -> bool {
    let a = assertion(
        path("$.action1.output.message"),
        AssertionItem::from_value(text("a message")),
        ComparisonType::EqualTo,
        negate,
    );
    let context = context_with(object(vec![("message", text("a message"))]));
    let result = check_assertion(&a, &context);
    println!("{:?}", result.message);
    result.success
}

fn contains_text() -> bool {
    let a = assertion(
        path("$.action1.output.message"),
        AssertionItem::from_value(text("message")),
        ComparisonType::Contains,
        false,
    );
    let context = context_with(object(vec![("message", text("a message"))]));
    let result = check_assertion(&a, &context);
    println!("{:?}", result.message);
    result.success
}

fn contains_in_list() -> bool {
    let a = assertion(
        path("$.action1.output.messages"),
        AssertionItem::from_value(text("a message")),
        ComparisonType::Contains,
        false,
    );
    let context = context_with(object(vec![(
        "messages",
        JsonValue::Array(vec![text("a message"), text("another message")]),
    )]));
    let result = check_assertion(&a, &context);
    println!("{:?}", result.message);
    result.success
}

fn count_against_five(comparison_type: ComparisonType) -> bool {
    let a = assertion(
        path("$.action1.output.count"),
        AssertionItem::from_value(whole(5)),
        comparison_type,
        false,
    );
    let context = context_with(object(vec![("count", whole(17))]));
    let result = check_assertion(&a, &context);
    println!("{:?}", result.message);
    result.success
}

#[test]
fn check_equality_check() {
    assert_eq!(equality(false), true);
}

#[test]
fn check_negate_equality_check() {
    assert_eq!(equality(true), false);
}

#[test]
fn check_string_contains() {
    assert_eq!(contains_text(), true);
}

#[test]
fn check_list_contains() {
    // the path selects the array itself, so the left side is one array
    assert_eq!(contains_in_list(), true);
}

#[test]
fn check_greater_than() {
    assert_eq!(count_against_five(ComparisonType::GreaterThan), true);
}

#[test]
fn check_less_than_fail_case() {
    assert_eq!(count_against_five(ComparisonType::LessThanOrEqualTo), false);
}

#[test]
fn assertions_equality_check() {
    assert_eq!(equality(false), true);
}

#[test]
fn assertions_negate_equality_check() {
    assert_eq!(equality(true), false);
}

#[test]
fn assertions_string_contains() {
    assert_eq!(contains_text(), true);
}

#[test]
fn assertions_list_contains() {
    assert_eq!(contains_in_list(), true);
}

#[test]
fn assertions_greater_than() {
    assert_eq!(count_against_five(ComparisonType::GreaterThan), true);
}

#[test]
fn assertions_less_than_fail_case() {
    assert_eq!(count_against_five(ComparisonType::LessThanOrEqualTo), false);
}

fn plain(comparison_type: ComparisonType, negate: bool) -> Assertion {
    assertion(
        AssertionItem::from_value(JsonValue::Null),
        AssertionItem::from_value(JsonValue::Null),
        comparison_type,
        negate,
    )
}

#[test]
fn contains_falls_back_to_text() {
    let r = check(
        &plain(ComparisonType::Contains, false),
        vec![text("a message")],
        vec![text("message")],
    );
    assert!(r.success);
    assert_eq!(r.message, None);
}

#[test]
fn contains_of_unrelated_lists_fails() {
    let r = check(
        &plain(ComparisonType::Contains, false),
        vec![text("a"), text("b")],
        vec![text("c")],
    );
    assert!(!r.success);
    assert_eq!(r.message, Some("a,b and c cannot be compared with contains".to_string()));
}

#[test]
fn contains_fallback_negated_reports() {
    let r = check(
        &plain(ComparisonType::Contains, true),
        vec![text("a message")],
        vec![text("message")],
    );
    assert!(!r.success);
    assert_eq!(r.message, Some("a message does contain message".to_string()));
}

#[test]
fn contains_of_members_ignores_negate() {
    for negate in [false, true] {
        let r = check(
            &plain(ComparisonType::Contains, negate),
            vec![text("a"), text("b")],
            vec![text("b")],
        );
        assert!(r.success);
    }
}

#[test]
fn negate_turns_every_comparable_outcome() {
    let cases = vec![
        (ComparisonType::EqualTo, vec![whole(1)], vec![whole(1)]),
        (ComparisonType::EqualTo, vec![whole(1)], vec![whole(2), whole(3)]),
        (ComparisonType::Contains, vec![text("abc")], vec![text("b")]),
        (ComparisonType::Contains, vec![text("abc")], vec![text("x")]),
        (ComparisonType::GreaterThan, vec![whole(3)], vec![whole(2)]),
        (ComparisonType::GreaterThanOrEqualTo, vec![whole(2)], vec![whole(2)]),
        (ComparisonType::LessThan, vec![whole(3)], vec![whole(2)]),
        (ComparisonType::LessThanOrEqualTo, vec![whole(3)], vec![whole(2)]),
    ];
    for (comparison, left, right) in cases {
        let plain_result = check(&plain(comparison, false), left.clone(), right.clone());
        let negated = check(&plain(comparison, true), left, right);
        assert_eq!(plain_result.success, !negated.success);
    }
}

#[test]
fn equality_failure_message_quotes_both_sides() {
    let r = check(&plain(ComparisonType::EqualTo, false), vec![text("x")], vec![whole(2)]);
    assert_eq!(r.message, Some("expected: \"x\", but got: \"2\"".to_string()));
    let n = check(&plain(ComparisonType::EqualTo, true), vec![whole(2)], vec![whole(2)]);
    assert_eq!(n.message, Some("not expected: \"2\", but got: \"2\"".to_string()));
}

#[test]
fn numeric_comparison_messages() {
    let r = check(&plain(ComparisonType::GreaterThan, false), vec![whole(1)], vec![whole(2)]);
    assert_eq!(r.message, Some("1 is not greater than  2".to_string()));
    let r = check(&plain(ComparisonType::LessThanOrEqualTo, true), vec![whole(1)], vec![whole(2)]);
    assert_eq!(r.message, Some("1 is less than or equal to 2".to_string()));
    let r = check(&plain(ComparisonType::LessThan, false), vec![text("a")], vec![whole(2)]);
    assert_eq!(r.message, Some("a and 2 cannot be compared as numbers".to_string()));
    let r = check(&plain(ComparisonType::LessThan, false), vec![], vec![whole(2)]);
    assert_eq!(r.message, Some("Lists cannot be compared as numbers!".to_string()));
}

#[test]
fn numbers_compare_as_doubles() {
    let half = JsonValue::Number(JsonNumber::Float("2.5".to_string()));
    let r = check(&plain(ComparisonType::GreaterThan, false), vec![whole(3)], vec![half.clone()]);
    assert!(r.success);
    let minus = JsonValue::Number(JsonNumber::NegInt(-4));
    let r = check(&plain(ComparisonType::LessThan, false), vec![minus], vec![half]);
    assert!(r.success);
}

#[test]
fn zeros_of_either_sign_are_the_same() {
    let a = JsonValue::Number(JsonNumber::Float("0.0".to_string()));
    let b = JsonValue::Number(JsonNumber::Float("-0.0".to_string()));
    assert!(a == b);
    assert!(whole(0) != a);
}

#[test]
fn sum_adds_numbers_and_counts_the_rest_as_zero() {
    let f = Function {
        operation: Operation::Sum,
        parameters: vec![
            ValueProvider { expression: None, value: Some(whole(2)) },
            ValueProvider { expression: Some(Expression { value: "$.items[*]".to_string() }), value: None },
        ],
    };
    let context = object(vec![(
        "items",
        JsonValue::Array(vec![
            JsonValue::Number(JsonNumber::Float("1.5".to_string())),
            text("x"),
            whole(4),
        ]),
    )]);
    let got = f.supply(&context).unwrap();
    assert_eq!(got, vec![JsonValue::Number(JsonNumber::Float("7.5".to_string()))]);
}

#[test]
fn sum_without_parameters_is_zero() {
    let f = Function { operation: Operation::Sum, parameters: vec![] };
    let got = f.supply(&JsonValue::Null).unwrap();
    assert_eq!(got, vec![JsonValue::Number(JsonNumber::Float("0.0".to_string()))]);
}

#[test]
fn avg_and_count_are_placeholders() {
    let avg = Function { operation: Operation::Avg, parameters: vec![] };
    assert_eq!(avg.supply(&JsonValue::Null).unwrap(), vec![JsonValue::Null]);
    let count = Function { operation: Operation::Count, parameters: vec![] };
    assert_eq!(count.supply(&JsonValue::Null).unwrap(), Vec::<JsonValue>::new());
}

#[test]
fn function_joins_the_errors_of_its_parameters() {
    let bad = |p: &str| ValueProvider {
        expression: Some(Expression { value: p.to_string() }),
        value: None,
    };
    let f = Function { operation: Operation::Sum, parameters: vec![bad("$["), bad("$.ok"), bad("$..[")] };
    let err = f.supply(&JsonValue::Null).unwrap_err();
    let parts: Vec<&str> = err.split(',').collect();
    assert!(parts.len() >= 2);
    assert!(!err.is_empty());
}

#[test]
fn item_without_function_or_provider_is_an_error() {
    let item = AssertionItem { function: None, value_provider: None };
    assert_eq!(
        item.supply(&JsonValue::Null),
        Err("either function, expression or value must be provided!".to_string())
    );
    let a = assertion(item, path("$.x"), ComparisonType::EqualTo, false);
    let r = check_assertion(&a, &JsonValue::Null);
    assert!(!r.success);
    assert_eq!(
        r.message,
        Some("either function, expression or value must be provided!".to_string())
    );
}

#[test]
fn provider_without_value_or_expression_supplies_nothing() {
    let p = ValueProvider { expression: None, value: None };
    assert_eq!(p.supply(&JsonValue::Null), Ok(vec![]));
}

#[test]
fn result_carries_the_id_of_its_assertion() {
    let mut a = plain(ComparisonType::EqualTo, false);
    a.id = "a-1".to_string();
    let r = check_assertion(&a, &JsonValue::Null);
    assert_eq!(r.assertion_id, "a-1");
    assert!(r.success);
    assert_eq!(r.message, None);
}
