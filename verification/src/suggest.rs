//! Completion of path expressions while they are typed.

use crate::api::AutoCompleteRequest;
use crate::model::{Action, Parameter, ParameterType};
use crate::patterns::{context_prefix, find_context_prefix};
use crate::text::{
    check_at, contains_sub, extend_chars, find_from, first_match, from_chars, join, join_parts,
    lines, replace, replace_all, slice_chars, split, split_on, starts_with, substring,
    to_chars, trim_char, trim_matches,
};
use vstd::prelude::*;

verus! {

/// What to suggest for a text.
#[derive(Clone, Copy, Debug, PartialEq, Eq, Structural)]
pub enum SuggestionStrategy {
    /// The names of the actions before the one that is edited.
    ActionNames,
    /// The input and the output of the action that the text names.
    InputOrOutput,
    /// The paths of the parameters of that action.
    JsonPath,
}

/// The number of dots in a text.
pub open spec fn dots(s: Seq<char>) -> nat
    decreases s.len(),
{
    if s.len() == 0 {
        0
    } else {
        dots(s.drop_last()) + if s.last() == '.' {
            1nat
        } else {
            0nat
        }
    }
}

/// What to suggest for a text with so many dots: nothing without a dot, action
/// names with one, input or output with two, parameter paths with more.
pub open spec fn strategy_for(input: Seq<char>) -> Option<SuggestionStrategy> {
    if dots(input) == 0 {
        None
    } else if dots(input) == 1 {
        Some(SuggestionStrategy::ActionNames)
    } else if dots(input) == 2 {
        Some(SuggestionStrategy::InputOrOutput)
    } else {
        Some(SuggestionStrategy::JsonPath)
    }
}

/// What to suggest for a text.
pub fn find_matching_suggestion_strategy(input: &String) -> (r: Option<SuggestionStrategy>)
    ensures
        r == strategy_for(input@),
{
    let chars = to_chars(input.as_str());
    let mut count: usize = 0;
    let mut k: usize = 0;
    assert(chars@.take(0) =~= Seq::<char>::empty());
    while k < chars.len()
        invariant
            k <= chars.len(),
            count == dots(chars@.take(k as int)),
            count <= k,
        decreases chars.len() - k,
    {
        proof {
            let now = chars@.take(k + 1);
            assert(now.drop_last() =~= chars@.take(k as int));
            assert(now.last() == chars@[k as int]);
        }
        if chars[k] == '.' {
            count += 1;
        }
        k += 1;
    }
    assert(chars@.take(chars.len() as int) =~= chars@);
    if count == 0 {
        None
    } else if count == 1 {
        Some(SuggestionStrategy::ActionNames)
    } else if count == 2 {
        Some(SuggestionStrategy::InputOrOutput)
    } else {
        Some(SuggestionStrategy::JsonPath)
    }
}

/// The text between the first `start` and the first `end` after it; none where
/// either is missing.
pub open spec fn between(input: Seq<char>, start: Seq<char>, end: Seq<char>) -> Option<Seq<char>> {
    match first_match(input, start, 0) {
        Some(i) => match first_match(input, end, i + start.len()) {
            Some(j) => Some(input.subrange(i + start.len(), j)),
            None => None,
        },
        None => None,
    }
}

/// The text between the first `start` and the first `end` after it.
pub fn substring_between(input: String, start: String, end: String) -> (r: Option<String>)
    ensures
        crate::model::text_of(r) == between(input@, start@, end@),
{
    let all = to_chars(input.as_str());
    let s = to_chars(start.as_str());
    let e = to_chars(end.as_str());
    match find_from(&all, &s, 0) {
        Some(i) => match find_from(&all, &e, i + s.len()) {
            Some(j) => Some(substring(&all, i + s.len(), j)),
            None => None,
        },
        None => None,
    }
}

/// The path that a typed text asks parameters for: `$.` and what follows the
/// context of the text, its action and side; `$.` alone where the text has no
/// such context.
pub open spec fn typed_path(s: Seq<char>) -> Seq<char> {
    "$."@ + match context_prefix(s) {
        Some(prefix) => {
            let bare = trim_char(prefix, '"');
            if starts_with(s, bare) {
                s.subrange(bare.len() as int, s.len() as int)
            } else {
                s
            }
        },
        None => Seq::empty(),
    }
}

/// The path that a typed text asks parameters for.
pub fn remove_prefix(s: &String) -> (r: String)
    ensures
        r@ == typed_path(s@),
{
    let all = to_chars(s.as_str());
    let mut out = to_chars("$.");
    match find_context_prefix(s.as_str()) {
        Some(prefix) => {
            let bare = trim_matches(&to_chars(prefix.as_str()), '"');
            if check_at(&all, &bare, 0) {
                extend_chars(&mut out, &slice_chars(&all, bare.len(), all.len()));
            } else {
                extend_chars(&mut out, &all);
            }
        },
        None => {
            assert(out@ + Seq::<char>::empty() =~= out@);
        },
    }
    from_chars(&out)
}

/// The first `count` parts of a text between dots, joined by dots again.
pub open spec fn leading_parts(input: Seq<char>, count: int) -> Seq<char> {
    join(split_on(input, "."@).take(count), "."@)
}

/// What to look up before suggestions can be made.
#[derive(Debug)]
pub enum CompletionPlan {
    /// Nothing to suggest.
    Nothing,
    /// Suggest the names of the actions before this position.
    ActionNames { before_order: usize },
    /// Suggest these.
    Ready(Vec<String>),
    /// Suggest the parameters of this kind of the action of this name whose
    /// paths begin with `path`, each under `result_prefix`.
    Parameters { action_name: String, parameter_type: ParameterType, path: String, result_prefix: String },
}

/// The plan for a typed text. Without a position, every action comes before.
pub open spec fn is_plan_for(plan: CompletionPlan, request: AutoCompleteRequest) -> bool {
    let input = request.latest_input@;
    match strategy_for(input) {
        None => plan is Nothing,
        Some(SuggestionStrategy::ActionNames) => plan == (CompletionPlan::ActionNames {
            before_order: match request.source_action_order {
                Some(order) => order,
                None => 1000,
            },
        }),
        Some(SuggestionStrategy::InputOrOutput) => plan is Ready && plan->Ready_0@.len() == 2
            && plan->Ready_0@[0]@ == leading_parts(input, 2) + ".input"@ && plan->Ready_0@[1]@
            == leading_parts(input, 2) + ".output"@,
        Some(SuggestionStrategy::JsonPath) => match between(input, "$."@, "."@) {
            Some(name) => plan is Parameters && plan->action_name@ == name
                && plan->parameter_type == (if contains_sub(input, "output."@) {
                ParameterType::Output
            } else {
                ParameterType::Input
            }) && plan->path@ == typed_path(input) && plan->result_prefix@ == leading_parts(
                input,
                3,
            ),
            None => plan is Nothing,
        },
    }
}

fn first_parts(parts: &Vec<Vec<char>>, count: usize) -> (r: Vec<char>)
    requires
        count <= parts.len(),
    ensures
        r@ == join(lines(parts@).take(count as int), "."@),
{
    let mut head: Vec<Vec<char>> = Vec::new();
    let mut k: usize = 0;
    assert(lines(head@) =~= lines(parts@).take(0));
    while k < count
        invariant
            k <= count <= parts.len(),
            lines(head@) == lines(parts@).take(k as int),
        decreases count - k,
    {
        let piece = slice_chars(&parts[k], 0, parts[k].len());
        assert(piece@ =~= parts@[k as int]@);
        assert(lines(head@.push(piece)) =~= lines(head@).push(piece@));
        assert(lines(head@).push(piece@) =~= lines(parts@).take(k + 1));
        head.push(piece);
        k += 1;
    }
    join_parts(&head, &to_chars("."))
}

/// A text between dots has one part more than it has dots.
pub proof fn lemma_parts_count(s: Seq<char>, from: int)
    requires
        0 <= from <= s.len(),
    ensures
        crate::text::split_from(s, "."@, from).len() == dots(s.subrange(from, s.len() as int)) + 1,
    decreases s.len() - from,
{
    reveal_strlit(".");
    let dot = "."@;
    assert(dot =~= seq!['.']);
    crate::text::lemma_first_match(s, dot, from);
    match first_match(s, dot, from) {
        Some(i) => {
            assert(s.subrange(i, i + 1) == dot);
            assert(s[i] == s.subrange(i, i + 1)[0]);
            lemma_parts_count(s, i + 1);
            lemma_dots_split(s.subrange(from, s.len() as int), i - from);
            assert(s.subrange(from, s.len() as int).subrange(i - from + 1, s.len() - from)
                =~= s.subrange(i + 1, s.len() as int));
            assert forall|k: int| 0 <= k < i - from implies s.subrange(from, s.len() as int)[k]
                != '.' by {
                assert(!crate::text::matches_at(s, dot, from + k));
                assert(s.subrange(from + k, from + k + 1) =~= seq![s[from + k]]);
            }
            lemma_no_dots(s.subrange(from, s.len() as int).subrange(0, i - from));
        },
        None => {
            assert forall|k: int| 0 <= k < s.len() - from implies s.subrange(from, s.len() as int)[k]
                != '.' by {
                assert(!crate::text::matches_at(s, dot, from + k));
                assert(s.subrange(from + k, from + k + 1) =~= seq![s[from + k]]);
            }
            lemma_no_dots(s.subrange(from, s.len() as int));
        },
    }
}

/// A text without a dot has no dots.
pub proof fn lemma_no_dots(s: Seq<char>)
    requires
        forall|k: int| 0 <= k < s.len() ==> s[k] != '.',
    ensures
        dots(s) == 0,
    decreases s.len(),
{
    if s.len() > 0 {
        lemma_no_dots(s.drop_last());
    }
}

/// The dots of a text are those before a dot, that dot, and those after it.
pub proof fn lemma_dots_split(s: Seq<char>, at: int)
    requires
        0 <= at < s.len(),
        s[at] == '.',
    ensures
        dots(s) == dots(s.subrange(0, at)) + 1 + dots(s.subrange(at + 1, s.len() as int)),
    decreases s.len(),
{
    if at == s.len() - 1 {
        assert(s.drop_last() =~= s.subrange(0, at));
        assert(s.subrange(at + 1, s.len() as int) =~= Seq::<char>::empty());
    } else {
        lemma_dots_split(s.drop_last(), at);
        assert(s.drop_last().subrange(0, at) =~= s.subrange(0, at));
        assert(s.drop_last().subrange(at + 1, s.len() - 1) =~= s.subrange(
            at + 1,
            s.len() as int,
        ).drop_last());
    }
}

/// What to look up for a typed text.
pub fn plan_completion(request: &AutoCompleteRequest) -> (r: CompletionPlan)
    ensures
        is_plan_for(r, *request),
{
    let input = &request.latest_input;
    match find_matching_suggestion_strategy(input) {
        None => CompletionPlan::Nothing,
        Some(SuggestionStrategy::ActionNames) => CompletionPlan::ActionNames {
            before_order: match request.source_action_order {
                Some(order) => order,
                None => 1000,
            },
        },
        Some(SuggestionStrategy::InputOrOutput) => {
            let parts = split(&to_chars(input.as_str()), &to_chars("."));
            proof {
                lemma_parts_count(input@, 0);
                assert(input@.subrange(0, input@.len() as int) =~= input@);
            }
            let head = first_parts(&parts, 2);
            let mut first = head.clone();
            extend_chars(&mut first, &to_chars(".input"));
            let mut second = head;
            extend_chars(&mut second, &to_chars(".output"));
            let mut out: Vec<String> = Vec::new();
            out.push(from_chars(&first));
            out.push(from_chars(&second));
            CompletionPlan::Ready(out)
        },
        Some(SuggestionStrategy::JsonPath) => {
            let parameter_type = if crate::text::str_contains(input.as_str(), "output.") {
                ParameterType::Output
            } else {
                ParameterType::Input
            };
            let parts = split(&to_chars(input.as_str()), &to_chars("."));
            proof {
                lemma_parts_count(input@, 0);
                assert(input@.subrange(0, input@.len() as int) =~= input@);
            }
            match substring_between(
                input.clone(),
                from_chars(&to_chars("$.")),
                from_chars(&to_chars(".")),
            ) {
                Some(action_name) => CompletionPlan::Parameters {
                    action_name,
                    parameter_type,
                    path: remove_prefix(input),
                    result_prefix: from_chars(&first_parts(&parts, 3)),
                },
                None => CompletionPlan::Nothing,
            }
        },
    }
}

/// The suggestions for action names: each as `$.` and the name.
pub fn suggest_action_names(actions: &Vec<Action>) -> (r: Vec<String>)
    ensures
        r.len() == actions.len(),
        forall|i: int| 0 <= i < r.len() ==> (#[trigger] r@[i])@ == "$."@ + actions@[i].name@,
{
    let mut out: Vec<String> = Vec::new();
    let mut k: usize = 0;
    while k < actions.len()
        invariant
            k <= actions.len(),
            out.len() == k,
            forall|i: int| 0 <= i < k ==> (#[trigger] out@[i])@ == "$."@ + actions@[i].name@,
        decreases actions.len() - k,
    {
        let mut text = to_chars("$.");
        extend_chars(&mut text, &to_chars(actions[k].name.as_str()));
        out.push(from_chars(&text));
        k += 1;
    }
    out
}

/// The suggestion for a parameter: the prefix, a dot, and the path of the
/// parameter without any `$.`.
pub open spec fn parameter_suggestion(prefix: Seq<char>, path: Seq<char>) -> Seq<char> {
    prefix + "."@ + replace_all(path, "$."@, Seq::empty())
}

/// The suggestions for parameter paths.
pub fn suggest_parameters(result_prefix: &String, parameters: &Vec<Parameter>) -> (r: Vec<String>)
    ensures
        r.len() == parameters.len(),
        forall|i: int|
            0 <= i < r.len() ==> (#[trigger] r@[i])@ == parameter_suggestion(
                result_prefix@,
                parameters@[i].location.path(),
            ),
{
    let mut out: Vec<String> = Vec::new();
    let mut k: usize = 0;
    while k < parameters.len()
        invariant
            k <= parameters.len(),
            out.len() == k,
            forall|i: int|
                0 <= i < k ==> (#[trigger] out@[i])@ == parameter_suggestion(
                    result_prefix@,
                    parameters@[i].location.path(),
                ),
        decreases parameters.len() - k,
    {
        let mut text = to_chars(result_prefix.as_str());
        extend_chars(&mut text, &to_chars("."));
        let path = parameters[k].get_path();
        extend_chars(
            &mut text,
            &replace(&to_chars(path.as_str()), &to_chars("$."), &Vec::new()),
        );
        out.push(from_chars(&text));
        k += 1;
    }
    out
}

} // verus!
