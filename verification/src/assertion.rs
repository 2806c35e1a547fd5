//! Assertions: typed comparisons between two operands, each computed from the
//! context that a replay leaves behind.

use crate::codec::{
    as_double, double_less, double_sum, json_path_query, json_text, number_add, number_as_double,
    number_less, write_json,
};
use crate::expression::{evaluate_expression, Expression};
use crate::json::{items_view, lemma_items_view, same_json, Json, JsonNumber, JsonValue, Num};
use crate::text::{
    contains, contains_sub, extend_chars, from_chars, join, join_parts, lines, quote, quoted,
    to_chars, trim_char, trim_matches,
};
use vstd::prelude::*;
use vstd::string::StringExecFns;

verus! {

/// How the two operands of an assertion are compared.
#[derive(Clone, Copy, Debug, PartialEq, Eq, Structural)]
pub enum ComparisonType {
    EqualTo,
    Contains,
    GreaterThan,
    GreaterThanOrEqualTo,
    LessThan,
    LessThanOrEqualTo,
}

/// What a function computes from the values of its parameters.
#[derive(Clone, Copy, Debug, PartialEq, Eq, Structural)]
pub enum Operation {
    Sum,
    Avg,
    Count,
}

/// A literal value or a path that selects values; the literal goes first.
#[derive(Debug, PartialEq, Eq)]
pub struct ValueProvider {
    pub expression: Option<Expression>,
    pub value: Option<JsonValue>,
}

/// The model of a value provider.
pub struct ProviderModel {
    pub expression: Option<Seq<char>>,
    pub value: Option<Json>,
}

impl View for ValueProvider {
    type V = ProviderModel;

    open spec fn view(&self) -> ProviderModel {
        ProviderModel {
            expression: match self.expression {
                Some(e) => Some(e.value@),
                None => None,
            },
            value: match self.value {
                Some(v) => Some(v@),
                None => None,
            },
        }
    }
}

impl Clone for ValueProvider {
    fn clone(&self) -> (r: Self)
        ensures
            r@ == self@,
    {
        ValueProvider {
            expression: match &self.expression {
                Some(e) => Some(e.clone()),
                None => None,
            },
            value: match &self.value {
                Some(v) => Some(v.clone()),
                None => None,
            },
        }
    }
}

/// An operation over the values of some providers.
#[derive(Debug)]
pub struct Function {
    pub operation: Operation,
    pub parameters: Vec<ValueProvider>,
}

/// The model of a function.
pub struct FunctionModel {
    pub operation: Operation,
    pub parameters: Seq<ProviderModel>,
}

impl View for Function {
    type V = FunctionModel;

    open spec fn view(&self) -> FunctionModel {
        FunctionModel {
            operation: self.operation,
            parameters: Seq::new(self.parameters.len() as nat, |i: int| self.parameters[i]@),
        }
    }
}

/// One operand of an assertion: a function, or else a value provider.
#[derive(Debug)]
pub struct AssertionItem {
    pub function: Option<Function>,
    pub value_provider: Option<ValueProvider>,
}

/// The model of an operand.
pub struct ItemModel {
    pub function: Option<FunctionModel>,
    pub value_provider: Option<ProviderModel>,
}

impl View for AssertionItem {
    type V = ItemModel;

    open spec fn view(&self) -> ItemModel {
        ItemModel {
            function: match self.function {
                Some(f) => Some(f@),
                None => None,
            },
            value_provider: match self.value_provider {
                Some(p) => Some(p@),
                None => None,
            },
        }
    }
}

impl AssertionItem {
    pub fn from_function(function: Function) -> (r: Self)
        ensures
            r.function == Some(function),
            r.value_provider is None,
    {
        AssertionItem { function: Some(function), value_provider: None }
    }

    pub fn from_expression(expression: Expression) -> (r: Self)
        ensures
            r.function is None,
            r.value_provider == Some(ValueProvider { expression: Some(expression), value: None }),
    {
        AssertionItem {
            function: None,
            value_provider: Some(ValueProvider { expression: Some(expression), value: None }),
        }
    }

    pub fn from_value(value: JsonValue) -> (r: Self)
        ensures
            r.function is None,
            r.value_provider == Some(ValueProvider { expression: None, value: Some(value) }),
    {
        AssertionItem {
            function: None,
            value_provider: Some(ValueProvider { expression: None, value: Some(value) }),
        }
    }
}

/// A check that belongs to a test case: two operands, a comparison, and whether
/// its outcome is turned round.
#[derive(Debug)]
pub struct Assertion {
    pub customer_id: String,
    pub test_case_id: String,
    pub id: String,
    pub left: AssertionItem,
    pub right: AssertionItem,
    pub comparison_type: ComparisonType,
    pub negate: bool,
    pub created_at: Option<u64>,
    pub updated_at: Option<u64>,
}

/// What an assertion says, apart from its own id and the times of its record.
pub struct AssertionModel {
    pub customer_id: Seq<char>,
    pub test_case_id: Seq<char>,
    pub left: ItemModel,
    pub right: ItemModel,
    pub comparison_type: ComparisonType,
    pub negate: bool,
}

impl View for Assertion {
    type V = AssertionModel;

    open spec fn view(&self) -> AssertionModel {
        AssertionModel {
            customer_id: self.customer_id@,
            test_case_id: self.test_case_id@,
            left: self.left@,
            right: self.right@,
            comparison_type: self.comparison_type,
            negate: self.negate,
        }
    }
}

/// The models of the assertions that a vector holds.
pub open spec fn assertions_view(all: Seq<Assertion>) -> Seq<AssertionModel> {
    Seq::new(all.len(), |i: int| all[i]@)
}

/// The operand that is the path `path`.
pub open spec fn path_item(path: Seq<char>) -> ItemModel {
    ItemModel {
        function: None,
        value_provider: Some(ProviderModel { expression: Some(path), value: None }),
    }
}

/// The outcome of one assertion. A success carries no message.
#[derive(Debug, PartialEq, Eq)]
pub struct AssertionResult {
    pub assertion_id: String,
    pub success: bool,
    pub message: Option<String>,
}

impl Clone for AssertionResult {
    fn clone(&self) -> (r: Self)
        ensures
            r.assertion_id@ == self.assertion_id@,
            r.success == self.success,
            r.message is Some == self.message is Some,
            self.message is Some ==> r.message->0@ == self.message->0@,
    {
        AssertionResult {
            assertion_id: self.assertion_id.clone(),
            success: self.success,
            message: match &self.message {
                Some(m) => Some(m.clone()),
                None => None,
            },
        }
    }
}

impl AssertionResult {
    pub fn from_error(id: String, message: String) -> (r: Self)
        ensures
            r.assertion_id == id,
            !r.success,
            r.message == Some(message),
    {
        AssertionResult { assertion_id: id, success: false, message: Some(message) }
    }

    pub fn of_success(id: String) -> (r: Self)
        ensures
            r.assertion_id == id,
            r.success,
            r.message is None,
    {
        AssertionResult { assertion_id: id, success: true, message: None }
    }
}


/// What a check decides: whether it holds, and the message where it does not.
pub struct Outcome {
    pub success: bool,
    pub message: Option<Seq<char>>,
}

/// The outcome of a check that holds.
pub open spec fn held() -> Outcome {
    Outcome { success: true, message: None }
}

/// The outcome of a check that does not hold, or cannot be made.
pub open spec fn failed(message: Seq<char>) -> Outcome {
    Outcome { success: false, message: Some(message) }
}

/// The text of each value, without double quotes at its ends.
pub open spec fn shown_each(values: Seq<Json>) -> Seq<Seq<char>> {
    Seq::new(values.len(), |i: int| trim_char(json_text(values[i]), '"'))
}

/// A list of values as messages show it: the text of each, without double quotes
/// at its ends, joined by commas.
pub open spec fn shown(values: Seq<Json>) -> Seq<char> {
    join(shown_each(values), seq![','])
}

/// Two lists hold the same values in the same order.
pub open spec fn equal_lists(left: Seq<Json>, right: Seq<Json>) -> bool {
    left.len() == right.len() && forall|i: int|
        0 <= i < left.len() ==> same_json(#[trigger] left[i], right[i])
}

/// `v` is a member of `list`.
pub open spec fn listed(list: Seq<Json>, v: Json) -> bool {
    exists|i: int| 0 <= i < list.len() && same_json(#[trigger] list[i], v)
}

/// Every value of `right` is a member of `left`.
pub open spec fn all_listed(left: Seq<Json>, right: Seq<Json>) -> bool {
    forall|j: int| 0 <= j < right.len() ==> listed(left, #[trigger] right[j])
}

/// The outcome of `EqualTo`.
pub open spec fn check_equal(negate: bool, left: Seq<Json>, right: Seq<Json>) -> Outcome {
    if equal_lists(left, right) != negate {
        held()
    } else {
        failed(
            (if negate {
                "not "@
            } else {
                ""@
            }) + "expected: "@ + quoted(shown(left)) + ", but got: "@ + quoted(shown(right)),
        )
    }
}

/// The outcome of `Contains`. Two lists of one value each that are not the same
/// are compared as texts: the left text must hold the right one.
pub open spec fn check_contains(negate: bool, left: Seq<Json>, right: Seq<Json>) -> Outcome {
    if all_listed(left, right) {
        held()
    } else if left.len() == 1 && right.len() == 1 {
        if contains_sub(json_text(left[0]), trim_char(json_text(right[0]), '"')) != negate {
            held()
        } else {
            failed(
                shown(left) + " does"@ + (if negate {
                    ""@
                } else {
                    " not"@
                }) + " contain "@ + shown(right),
            )
        }
    } else {
        failed(shown(left) + " and "@ + shown(right) + " cannot be compared with contains"@)
    }
}

/// The order that one of the four numeric comparisons asks for, on doubles.
pub open spec fn in_order(greater: bool, or_equal: bool, a: Num, b: Num) -> bool {
    if greater {
        if or_equal {
            !double_less(a, b)
        } else {
            double_less(b, a)
        }
    } else {
        if or_equal {
            !double_less(b, a)
        } else {
            double_less(a, b)
        }
    }
}

/// The outcome of a numeric comparison: both sides must be one number each.
pub open spec fn check_ordered(
    negate: bool,
    greater: bool,
    or_equal: bool,
    left: Seq<Json>,
    right: Seq<Json>,
) -> Outcome {
    if left.len() == 1 && right.len() == 1 {
        match (left[0], right[0]) {
            (Json::Number(a), Json::Number(b)) => if in_order(greater, or_equal, a, b) != negate {
                held()
            } else {
                failed(
                    shown(left) + " is"@ + (if negate {
                        ""@
                    } else {
                        " not"@
                    }) + " "@ + (if greater {
                        "greater"@
                    } else {
                        "less"@
                    }) + " than "@ + (if or_equal {
                        "or equal to"@
                    } else {
                        ""@
                    }) + " "@ + shown(right),
                )
            },
            _ => failed(shown(left) + " and "@ + shown(right) + " cannot be compared as numbers"@),
        }
    } else {
        failed("Lists cannot be compared as numbers!"@)
    }
}

/// The outcome of comparing two lists of values.
pub open spec fn check_outcome(
    comparison: ComparisonType,
    negate: bool,
    left: Seq<Json>,
    right: Seq<Json>,
) -> Outcome {
    match comparison {
        ComparisonType::EqualTo => check_equal(negate, left, right),
        ComparisonType::Contains => check_contains(negate, left, right),
        ComparisonType::GreaterThan => check_ordered(negate, true, false, left, right),
        ComparisonType::GreaterThanOrEqualTo => check_ordered(negate, true, true, left, right),
        ComparisonType::LessThan => check_ordered(negate, false, false, left, right),
        ComparisonType::LessThanOrEqualTo => check_ordered(negate, false, true, left, right),
    }
}

/// A result says what an outcome says, for the assertion with this id.
pub open spec fn reports(result: AssertionResult, id: Seq<char>, outcome: Outcome) -> bool {
    &&& result.assertion_id@ == id
    &&& result.success == outcome.success
    &&& match outcome.message {
        Some(m) => result.message is Some && result.message->0@ == m,
        None => result.message is None,
    }
}

/// A list of values as messages show it.
pub fn as_string(values: &Vec<JsonValue>) -> (r: Vec<char>)
    ensures
        r@ == shown(items_view(values@)),
{
    let mut parts: Vec<Vec<char>> = Vec::new();
    let mut k: usize = 0;
    proof {
        lemma_items_view(values@);
    }
    while k < values.len()
        invariant
            k <= values.len(),
            items_view(values@).len() == values.len(),
            forall|i: int| 0 <= i < values.len() ==> #[trigger] items_view(values@)[i] == values@[i]@,
            lines(parts@) == shown_each(items_view(values@)).take(k as int),
        decreases values.len() - k,
    {
        let written = write_json(&values[k]);
        let part = trim_matches(&to_chars(written.as_str()), '"');
        proof {
            assert(items_view(values@)[k as int] == values@[k as int]@);
            assert(part@ == shown_each(items_view(values@))[k as int]);
            assert(lines(parts@.push(part)) =~= lines(parts@).push(part@));
            assert(lines(parts@).push(part@) =~= shown_each(items_view(values@)).take(k + 1));
        }
        parts.push(part);
        k += 1;
    }
    assert(shown_each(items_view(values@)).take(values.len() as int) =~= shown_each(
        items_view(values@),
    ));
    let comma = to_chars(",");
    proof {
        reveal_strlit(",");
        assert(comma@ =~= seq![',']);
    }
    join_parts(&parts, &comma)
}

/// Whether two lists hold the same values in the same order.
pub fn same_list(left: &Vec<JsonValue>, right: &Vec<JsonValue>) -> (r: bool)
    ensures
        r == equal_lists(items_view(left@), items_view(right@)),
{
    proof {
        lemma_items_view(left@);
        lemma_items_view(right@);
    }
    if left.len() != right.len() {
        return false;
    }
    let mut k: usize = 0;
    while k < left.len()
        invariant
            k <= left.len(),
            left.len() == right.len(),
            items_view(left@).len() == left.len(),
            items_view(right@).len() == right.len(),
            forall|i: int| 0 <= i < left.len() ==> #[trigger] items_view(left@)[i] == left@[i]@,
            forall|i: int| 0 <= i < right.len() ==> #[trigger] items_view(right@)[i] == right@[i]@,
            forall|i: int|
                0 <= i < k ==> same_json(#[trigger] items_view(left@)[i], items_view(right@)[i]),
        decreases left.len() - k,
    {
        if !left[k].equals(&right[k]) {
            assert(!same_json(items_view(left@)[k as int], items_view(right@)[k as int]));
            return false;
        }
        k += 1;
    }
    true
}

/// Whether `v` is a member of `list`.
pub fn is_listed(list: &Vec<JsonValue>, v: &JsonValue) -> (r: bool)
    ensures
        r == listed(items_view(list@), v@),
{
    proof {
        lemma_items_view(list@);
    }
    let mut k: usize = 0;
    while k < list.len()
        invariant
            k <= list.len(),
            items_view(list@).len() == list.len(),
            forall|i: int| 0 <= i < list.len() ==> #[trigger] items_view(list@)[i] == list@[i]@,
            forall|i: int| 0 <= i < k ==> !same_json(#[trigger] items_view(list@)[i], v@),
        decreases list.len() - k,
    {
        if list[k].equals(v) {
            assert(same_json(items_view(list@)[k as int], v@));
            return true;
        }
        k += 1;
    }
    false
}

/// Whether every value of `right` is a member of `left`.
pub fn all_are_listed(left: &Vec<JsonValue>, right: &Vec<JsonValue>) -> (r: bool)
    ensures
        r == all_listed(items_view(left@), items_view(right@)),
{
    proof {
        lemma_items_view(right@);
    }
    let mut k: usize = 0;
    while k < right.len()
        invariant
            k <= right.len(),
            items_view(right@).len() == right.len(),
            forall|i: int| 0 <= i < right.len() ==> #[trigger] items_view(right@)[i] == right@[i]@,
            forall|j: int|
                0 <= j < k ==> listed(items_view(left@), #[trigger] items_view(right@)[j]),
        decreases right.len() - k,
    {
        if !is_listed(left, &right[k]) {
            assert(!listed(items_view(left@), items_view(right@)[k as int]));
            return false;
        }
        k += 1;
    }
    true
}

fn result_of_error(id: &String, message: &Vec<char>) -> (r: AssertionResult)
    ensures
        reports(r, id@, failed(message@)),
{
    AssertionResult::from_error(id.clone(), from_chars(message))
}

fn check_greater_than(
    assertion: &Assertion,
    greater: bool,
    or_equal: bool,
    left: &Vec<JsonValue>,
    right: &Vec<JsonValue>,
) -> (r: AssertionResult)
    ensures
        reports(
            r,
            assertion.id@,
            check_ordered(assertion.negate, greater, or_equal, items_view(left@), items_view(right@)),
        ),
{
    proof {
        lemma_items_view(left@);
        lemma_items_view(right@);
    }
    if left.len() == right.len() && left.len() == 1 {
        match (&left[0], &right[0]) {
            (JsonValue::Number(a), JsonValue::Number(b)) => {
                let success = if greater {
                    if or_equal {
                        !number_less(a, b)
                    } else {
                        number_less(b, a)
                    }
                } else {
                    if or_equal {
                        !number_less(b, a)
                    } else {
                        number_less(a, b)
                    }
                };
                if success != assertion.negate {
                    AssertionResult::of_success(assertion.id.clone())
                } else {
                    let mut m = as_string(left);
                    extend_chars(&mut m, &to_chars(" is"));
                    extend_chars(&mut m, &to_chars(if assertion.negate { "" } else { " not" }));
                    extend_chars(&mut m, &to_chars(" "));
                    extend_chars(&mut m, &to_chars(if greater { "greater" } else { "less" }));
                    extend_chars(&mut m, &to_chars(" than "));
                    extend_chars(&mut m, &to_chars(if or_equal { "or equal to" } else { "" }));
                    extend_chars(&mut m, &to_chars(" "));
                    extend_chars(&mut m, &as_string(right));
                    result_of_error(&assertion.id, &m)
                }
            },
            _ => {
                let mut m = as_string(left);
                extend_chars(&mut m, &to_chars(" and "));
                extend_chars(&mut m, &as_string(right));
                extend_chars(&mut m, &to_chars(" cannot be compared as numbers"));
                result_of_error(&assertion.id, &m)
            },
        }
    } else {
        result_of_error(&assertion.id, &to_chars("Lists cannot be compared as numbers!"))
    }
}

/// Compares the values of the two operands as the assertion asks.
pub fn check(assertion: &Assertion, left: Vec<JsonValue>, right: Vec<JsonValue>) -> (r:
    AssertionResult)
    ensures
        reports(
            r,
            assertion.id@,
            check_outcome(
                assertion.comparison_type,
                assertion.negate,
                items_view(left@),
                items_view(right@),
            ),
        ),
{
    proof {
        lemma_items_view(left@);
        lemma_items_view(right@);
    }
    match assertion.comparison_type {
        ComparisonType::EqualTo => {
            if same_list(&left, &right) != assertion.negate {
                AssertionResult::of_success(assertion.id.clone())
            } else {
                let mut m = to_chars(if assertion.negate { "not " } else { "" });
                extend_chars(&mut m, &to_chars("expected: "));
                let l = quote(&from_chars(&as_string(&left)));
                extend_chars(&mut m, &to_chars(l.as_str()));
                extend_chars(&mut m, &to_chars(", but got: "));
                let r = quote(&from_chars(&as_string(&right)));
                extend_chars(&mut m, &to_chars(r.as_str()));
                result_of_error(&assertion.id, &m)
            }
        },
        ComparisonType::Contains => {
            if all_are_listed(&left, &right) {
                AssertionResult::of_success(assertion.id.clone())
            } else if left.len() == right.len() && left.len() == 1 {
                let l = to_chars(write_json(&left[0]).as_str());
                let r = trim_matches(&to_chars(write_json(&right[0]).as_str()), '"');
                if contains(&l, &r) != assertion.negate {
                    AssertionResult::of_success(assertion.id.clone())
                } else {
                    let mut m = as_string(&left);
                    extend_chars(&mut m, &to_chars(" does"));
                    extend_chars(&mut m, &to_chars(if assertion.negate { "" } else { " not" }));
                    extend_chars(&mut m, &to_chars(" contain "));
                    extend_chars(&mut m, &as_string(&right));
                    result_of_error(&assertion.id, &m)
                }
            } else {
                let mut m = as_string(&left);
                extend_chars(&mut m, &to_chars(" and "));
                extend_chars(&mut m, &as_string(&right));
                extend_chars(&mut m, &to_chars(" cannot be compared with contains"));
                result_of_error(&assertion.id, &m)
            }
        },
        ComparisonType::GreaterThan => check_greater_than(assertion, true, false, &left, &right),
        ComparisonType::GreaterThanOrEqualTo => check_greater_than(
            assertion,
            true,
            true,
            &left,
            &right,
        ),
        ComparisonType::LessThan => check_greater_than(assertion, false, false, &left, &right),
        ComparisonType::LessThanOrEqualTo => check_greater_than(
            assertion,
            false,
            true,
            &left,
            &right,
        ),
    }
}


/// The values of a provider: its literal alone; without a literal, what its
/// path selects in the context; without either, nothing.
pub open spec fn provider_values(p: ProviderModel, context: Json) -> Result<Seq<Json>, Seq<char>> {
    match p.value {
        Some(v) => Ok(seq![v]),
        None => match p.expression {
            Some(e) => json_path_query(e, context),
            None => Ok(Seq::empty()),
        },
    }
}

/// The double zero.
pub open spec fn zero() -> Num {
    Num::Float(seq!['0', '.', '0'])
}

/// What a value contributes to a sum: a number as a double, anything else zero.
pub open spec fn term(v: Json) -> Num {
    match v {
        Json::Number(n) => match as_double(n) {
            Some(d) => d,
            None => zero(),
        },
        _ => zero(),
    }
}

/// One step of a sum of doubles. A sum that has left the finite doubles stays out.
pub open spec fn sum_step(acc: Option<Num>, x: Option<Num>) -> Option<Num> {
    match (acc, x) {
        (Some(a), Some(b)) => double_sum(a, b),
        _ => None,
    }
}

/// The terms of a list added from left to right; zero for an empty list.
pub open spec fn list_sum(values: Seq<Json>) -> Option<Num>
    decreases values.len(),
{
    if values.len() == 0 {
        Some(zero())
    } else if values.len() == 1 {
        Some(term(values[0]))
    } else {
        sum_step(list_sum(values.drop_last()), Some(term(values.last())))
    }
}

/// The sums of the lists added from left to right; zero without lists.
pub open spec fn total_sum(lists: Seq<Seq<Json>>) -> Option<Num>
    decreases lists.len(),
{
    if lists.len() == 0 {
        Some(zero())
    } else if lists.len() == 1 {
        list_sum(lists[0])
    } else {
        sum_step(total_sum(lists.drop_last()), list_sum(lists.last()))
    }
}

/// The messages of the providers that cannot be evaluated, in order.
pub open spec fn error_messages(ps: Seq<ProviderModel>, context: Json) -> Seq<Seq<char>>
    decreases ps.len(),
{
    if ps.len() == 0 {
        Seq::empty()
    } else {
        match provider_values(ps.last(), context) {
            Err(e) => error_messages(ps.drop_last(), context).push(e),
            Ok(_) => error_messages(ps.drop_last(), context),
        }
    }
}

/// The values of the providers that can be evaluated, in order.
pub open spec fn value_lists(ps: Seq<ProviderModel>, context: Json) -> Seq<Seq<Json>>
    decreases ps.len(),
{
    if ps.len() == 0 {
        Seq::empty()
    } else {
        match provider_values(ps.last(), context) {
            Ok(v) => value_lists(ps.drop_last(), context).push(v),
            Err(_) => value_lists(ps.drop_last(), context),
        }
    }
}

/// The value of a sum: the number, or null where the sum is not finite.
pub open spec fn sum_value(total: Option<Num>) -> Json {
    match total {
        Some(n) => Json::Number(n),
        None => Json::Null,
    }
}

/// The values of a function. One provider that cannot be evaluated fails the
/// function, with all such messages joined by commas. `Sum` gives one number,
/// `Avg` one null, `Count` nothing.
pub open spec fn function_values(f: FunctionModel, context: Json) -> Result<Seq<Json>, Seq<char>> {
    if error_messages(f.parameters, context).len() > 0 {
        Err(join(error_messages(f.parameters, context), seq![',']))
    } else {
        match f.operation {
            Operation::Sum => Ok(seq![sum_value(total_sum(value_lists(f.parameters, context)))]),
            Operation::Avg => Ok(seq![Json::Null]),
            Operation::Count => Ok(Seq::empty()),
        }
    }
}

/// The values of an operand: those of its function, else those of its provider.
pub open spec fn item_values(item: ItemModel, context: Json) -> Result<Seq<Json>, Seq<char>> {
    match item.function {
        Some(f) => function_values(f, context),
        None => match item.value_provider {
            Some(p) => provider_values(p, context),
            None => Err("either function, expression or value must be provided!"@),
        },
    }
}

/// The outcome of an assertion in a context: the left operand is evaluated
/// first, and the first operand that cannot be evaluated gives the message.
pub open spec fn assertion_outcome(
    left: ItemModel,
    right: ItemModel,
    comparison: ComparisonType,
    negate: bool,
    context: Json,
) -> Outcome {
    match item_values(left, context) {
        Err(e) => failed(e),
        Ok(l) => match item_values(right, context) {
            Err(e) => failed(e),
            Ok(r) => check_outcome(comparison, negate, l, r),
        },
    }
}

/// A result of evaluation says what the model says.
pub open spec fn supplies(
    got: Result<Vec<JsonValue>, String>,
    want: Result<Seq<Json>, Seq<char>>,
) -> bool {
    match got {
        Ok(values) => want == Ok::<Seq<Json>, Seq<char>>(items_view(values@)),
        Err(message) => want == Err::<Seq<Json>, Seq<char>>(message@),
    }
}

fn double_zero() -> (r: JsonNumber)
    ensures
        r@ == zero(),
{
    let text = String::from_str("0.0");
    proof {
        reveal_strlit("0.0");
        assert(text@ =~= seq!['0', '.', '0']);
    }
    JsonNumber::Float(text)
}

fn term_of(v: &JsonValue) -> (r: JsonNumber)
    ensures
        r@ == term(v@),
{
    match v {
        JsonValue::Number(n) => match number_as_double(n) {
            Some(d) => d,
            None => double_zero(),
        },
        _ => double_zero(),
    }
}

fn add_step(acc: Option<JsonNumber>, x: Option<JsonNumber>) -> (r: Option<JsonNumber>)
    ensures
        match r {
            Some(n) => sum_step(option_num(acc), option_num(x)) == Some(n@),
            None => sum_step(option_num(acc), option_num(x)) is None,
        },
{
    match (acc, x) {
        (Some(a), Some(b)) => number_add(&a, &b),
        _ => None,
    }
}

/// The model of a number that may be missing.
pub open spec fn option_num(n: Option<JsonNumber>) -> Option<Num> {
    match n {
        Some(x) => Some(x@),
        None => None,
    }
}

/// The terms of a list added from left to right.
pub fn calculate_sum(values: &Vec<JsonValue>) -> (r: Option<JsonNumber>)
    ensures
        option_num(r) == list_sum(items_view(values@)),
{
    proof {
        lemma_items_view(values@);
    }
    if values.len() == 0 {
        return Some(double_zero());
    }
    let mut acc: Option<JsonNumber> = Some(term_of(&values[0]));
    let mut k: usize = 1;
    assert(items_view(values@).take(1) =~= seq![values@[0]@]);
    while k < values.len()
        invariant
            1 <= k <= values.len(),
            items_view(values@).len() == values.len(),
            forall|i: int| 0 <= i < values.len() ==> #[trigger] items_view(values@)[i] == values@[i]@,
            option_num(acc) == list_sum(items_view(values@).take(k as int)),
        decreases values.len() - k,
    {
        proof {
            let now = items_view(values@).take(k + 1);
            assert(now.drop_last() =~= items_view(values@).take(k as int));
            assert(now.last() == values@[k as int]@);
        }
        acc = add_step(acc, Some(term_of(&values[k])));
        k += 1;
    }
    assert(items_view(values@).take(values.len() as int) =~= items_view(values@));
    acc
}

impl ValueProvider {
    /// The values of this provider in a context.
    pub fn supply(&self, context: &JsonValue) -> (r: Result<Vec<JsonValue>, String>)
        ensures
            supplies(r, provider_values(self@, context@)),
    {
        match &self.value {
            Some(v) => {
                let mut out: Vec<JsonValue> = Vec::new();
                out.push(v.clone());
                proof {
                    lemma_items_view(out@);
                    assert(items_view(out@) =~= seq![v@]);
                }
                Ok(out)
            },
            None => match &self.expression {
                Some(e) => evaluate_expression(context, e),
                None => {
                    let out: Vec<JsonValue> = Vec::new();
                    proof {
                        lemma_items_view(out@);
                        assert(items_view(out@) =~= Seq::<Json>::empty());
                    }
                    Ok(out)
                },
            },
        }
    }
}

impl Function {
    /// The values of this function in a context.
    pub fn supply(&self, context: &JsonValue) -> (r: Result<Vec<JsonValue>, String>)
        ensures
            supplies(r, function_values(self@, context@)),
    {
        let ghost ps = self@.parameters;
        let mut errors: Vec<Vec<char>> = Vec::new();
        let mut total: Option<JsonNumber> = Some(double_zero());
        let mut lists: usize = 0;
        let mut k: usize = 0;
        while k < self.parameters.len()
            invariant
                k <= self.parameters.len(),
                ps == self@.parameters,
                ps.len() == self.parameters.len(),
                lines(errors@) == error_messages(ps.take(k as int), context@),
                lists == value_lists(ps.take(k as int), context@).len(),
                lists <= k,
                option_num(total) == total_sum(value_lists(ps.take(k as int), context@)),
            decreases self.parameters.len() - k,
        {
            let got = self.parameters[k].supply(context);
            proof {
                let now = ps.take(k + 1);
                assert(now.drop_last() =~= ps.take(k as int));
                assert(now.last() == self.parameters@[k as int]@);
            }
            match got {
                Ok(values) => {
                    let ghost before = value_lists(ps.take(k as int), context@);
                    let ghost after = value_lists(ps.take(k + 1), context@);
                    proof {
                        assert(after == before.push(items_view(values@)));
                        assert(after.drop_last() =~= before);
                    }
                    let sum = calculate_sum(&values);
                    if lists == 0 {
                        total = sum;
                    } else {
                        total = add_step(total, sum);
                    }
                    lists += 1;
                },
                Err(message) => {
                    let m = to_chars(message.as_str());
                    proof {
                        assert(lines(errors@.push(m)) =~= lines(errors@).push(m@));
                    }
                    errors.push(m);
                },
            }
            k += 1;
        }
        assert(ps.take(self.parameters.len() as int) =~= ps);
        if errors.len() > 0 {
            let comma = to_chars(",");
            proof {
                reveal_strlit(",");
                assert(comma@ =~= seq![',']);
            }
            return Err(from_chars(&join_parts(&errors, &comma)));
        }
        let mut out: Vec<JsonValue> = Vec::new();
        match self.operation {
            Operation::Sum => {
                let value = match total {
                    Some(n) => JsonValue::Number(n),
                    None => JsonValue::Null,
                };
                out.push(value);
                proof {
                    lemma_items_view(out@);
                    assert(items_view(out@) =~= seq![
                        sum_value(total_sum(value_lists(ps, context@))),
                    ]);
                }
            },
            Operation::Avg => {
                out.push(JsonValue::Null);
                proof {
                    lemma_items_view(out@);
                    assert(items_view(out@) =~= seq![Json::Null]);
                }
            },
            Operation::Count => {
                proof {
                    lemma_items_view(out@);
                    assert(items_view(out@) =~= Seq::<Json>::empty());
                }
            },
        }
        Ok(out)
    }
}

impl AssertionItem {
    /// The values of this operand in a context.
    pub fn supply(&self, context: &JsonValue) -> (r: Result<Vec<JsonValue>, String>)
        ensures
            supplies(r, item_values(self@, context@)),
    {
        match &self.function {
            Some(f) => f.supply(context),
            None => match &self.value_provider {
                Some(p) => p.supply(context),
                None => Err(
                    String::from_str("either function, expression or value must be provided!"),
                ),
            },
        }
    }
}

/// Evaluates both operands of an assertion in a context and compares them.
pub fn check_assertion(assertion: &Assertion, context: &JsonValue) -> (r: AssertionResult)
    ensures
        reports(
            r,
            assertion.id@,
            assertion_outcome(
                assertion.left@,
                assertion.right@,
                assertion.comparison_type,
                assertion.negate,
                context@,
            ),
        ),
{
    match assertion.left.supply(context) {
        Ok(left) => match assertion.right.supply(context) {
            Ok(right) => check(assertion, left, right),
            Err(message) => AssertionResult::from_error(assertion.id.clone(), message),
        },
        Err(message) => AssertionResult::from_error(assertion.id.clone(), message),
    }
}


/// The comparisons whose outcome depends on `negate`: `EqualTo` always;
/// `Contains` where it falls back to comparing two texts; a numeric comparison
/// of one number with one number.
pub open spec fn negatable(comparison: ComparisonType, left: Seq<Json>, right: Seq<Json>) -> bool {
    match comparison {
        ComparisonType::EqualTo => true,
        ComparisonType::Contains => !all_listed(left, right) && left.len() == 1 && right.len()
            == 1,
        _ => left.len() == 1 && right.len() == 1 && left[0] is Number && right[0] is Number,
    }
}

/// Turning `negate` round turns the outcome round, for every comparison whose
/// outcome depends on it.
pub proof fn lemma_negate_flips(comparison: ComparisonType, left: Seq<Json>, right: Seq<Json>)
    requires
        negatable(comparison, left, right),
    ensures
        check_outcome(comparison, true, left, right).success == !check_outcome(
            comparison,
            false,
            left,
            right,
        ).success,
{
}

/// Every other comparison has one outcome whatever `negate` says: a `Contains`
/// whose right values are all members of the left list holds, and what cannot
/// be compared fails.
pub proof fn lemma_negate_ignored(comparison: ComparisonType, left: Seq<Json>, right: Seq<Json>)
    requires
        !negatable(comparison, left, right),
    ensures
        check_outcome(comparison, true, left, right) == check_outcome(
            comparison,
            false,
            left,
            right,
        ),
{
}

/// `Contains` holds where every right value is a member of the left list.
/// Failing that, two single values are compared as texts, and `negate` turns
/// that comparison round. Everything else fails.
pub proof fn lemma_contains_falls_back(negate: bool, left: Seq<Json>, right: Seq<Json>)
    ensures
        check_outcome(ComparisonType::Contains, negate, left, right).success == (all_listed(
            left,
            right,
        ) || (left.len() == 1 && right.len() == 1 && contains_sub(
            json_text(left[0]),
            trim_char(json_text(right[0]), '"'),
        ) != negate)),
{
}

/// An outcome carries a message exactly when it is no success.
pub proof fn lemma_message_on_failure(
    left: ItemModel,
    right: ItemModel,
    comparison: ComparisonType,
    negate: bool,
    context: Json,
)
    ensures
        assertion_outcome(left, right, comparison, negate, context).success <==> assertion_outcome(
            left,
            right,
            comparison,
            negate,
            context,
        ).message is None,
{
}

} // verus!
