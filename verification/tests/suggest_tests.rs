use har_replay::api::AutoCompleteRequest;
use har_replay::model::ParameterType;
use har_replay::suggest::{
    find_matching_suggestion_strategy, plan_completion, remove_prefix, substring_between,
    CompletionPlan, SuggestionStrategy,
};

fn strategies() {
    let input1 = String::from("$.");
    let input2 = String::from("$.action");
    let input3 = String::from("$.action.");
    let input4 = String::from("$.action.out");
    let input5 = String::from("$.action.output.");
    let input6 = String::from("$.action.output.param");

    let actual1 = find_matching_suggestion_strategy(&input1);
    assert_eq!(actual1, Some(SuggestionStrategy::ActionNames));

    let actual2 = find_matching_suggestion_strategy(&input2);
    assert_eq!(actual2, Some(SuggestionStrategy::ActionNames));

    let actual3 = find_matching_suggestion_strategy(&input3);
    assert_eq!(actual3, Some(SuggestionStrategy::InputOrOutput));

    let actual4 = find_matching_suggestion_strategy(&input4);
    assert_eq!(actual4, Some(SuggestionStrategy::InputOrOutput));

    let actual5 = find_matching_suggestion_strategy(&input5);
    assert_eq!(actual5, Some(SuggestionStrategy::JsonPath));

    let actual6 = find_matching_suggestion_strategy(&input6);
    assert_eq!(actual6, Some(SuggestionStrategy::JsonPath));
}

#[test]
fn auto_complete_matching_strategy() {
    strategies();
}

#[test]
fn matching() {
    strategies();
}

#[test]
fn test() {
    let string = "$.apiIntegrations_0.output.asdasd".to_string();
    let x = remove_prefix(&string);
    println!("result: {:?}", x);
    assert_eq!(x, "$.asdasd");
}

#[test]
fn no_dot_means_no_suggestion() {
    assert_eq!(find_matching_suggestion_strategy(&"$".to_string()), None);
    assert_eq!(find_matching_suggestion_strategy(&"".to_string()), None);
}

#[test]
fn text_between_marks() {
    assert_eq!(
        substring_between("$.action_1.output.x".to_string(), "$.".to_string(), ".".to_string()),
        Some("action_1".to_string())
    );
    assert_eq!(substring_between("abc".to_string(), "$.".to_string(), ".".to_string()), None);
    assert_eq!(substring_between("$.abc".to_string(), "$.".to_string(), ".".to_string()), None);
}

#[test]
fn prefix_without_context_is_the_root() {
    assert_eq!(remove_prefix(&"$.action".to_string()), "$.");
    assert_eq!(remove_prefix(&"$.a.input.b.c".to_string()), "$.b.c");
}

fn request(input: &str, order: Option<usize>) -> AutoCompleteRequest {
    AutoCompleteRequest {
        customer_id: "c".to_string(),
        test_case_id: "t".to_string(),
        source_action_order: order,
        latest_input: input.to_string(),
    }
}

#[test]
fn plans_for_each_stage_of_typing() {
    assert!(matches!(plan_completion(&request("abc", None)), CompletionPlan::Nothing));
    assert!(matches!(
        plan_completion(&request("$.ac", Some(3))),
        CompletionPlan::ActionNames { before_order: 3 }
    ));
    assert!(matches!(
        plan_completion(&request("$.ac", None)),
        CompletionPlan::ActionNames { before_order: 1000 }
    ));
    match plan_completion(&request("$.login_0.in", None)) {
        CompletionPlan::Ready(items) => {
            assert_eq!(items, vec!["$.login_0.input", "$.login_0.output"])
        }
        other => panic!("{:?}", other),
    }
    match plan_completion(&request("$.login_0.output.user.na", None)) {
        CompletionPlan::Parameters { action_name, parameter_type, path, result_prefix } => {
            assert_eq!(action_name, "login_0");
            assert_eq!(parameter_type, ParameterType::Output);
            assert_eq!(path, "$.user.na");
            assert_eq!(result_prefix, "$.login_0.output");
        }
        other => panic!("{:?}", other),
    }
    match plan_completion(&request("$.login_0.input.a.b", None)) {
        CompletionPlan::Parameters { parameter_type, .. } => {
            assert_eq!(parameter_type, ParameterType::Input)
        }
        other => panic!("{:?}", other),
    }
}

#[test]
fn the_context_is_the_longest_start_that_ends_in_a_side() {
    assert_eq!(remove_prefix(&"$.a.input.b.output.c".to_string()), "$.c");
    assert_eq!(remove_prefix(&"$.a.output.input.".to_string()), "$.");
    assert_eq!(remove_prefix(&"output.x".to_string()), "$.");
    assert_eq!(remove_prefix(&"_output.x".to_string()), "$.x");
    assert_eq!(remove_prefix(&"$.a\n.output.x".to_string()), "$.");
}
