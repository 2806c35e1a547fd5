//! The entities of a test case: its actions and their parameters, the runs that
//! replay it and what each action did in a run.

use crate::assertion::AssertionResult;
use crate::expression::Expression;
use crate::json::{Json, JsonValue};
use vstd::prelude::*;

verus! {

/// A replayable test case of one customer.
#[derive(Debug)]
pub struct TestCase {
    pub customer_id: String,
    pub id: String,
    pub name: String,
    pub description: String,
    pub created_at: Option<u64>,
    pub updated_at: Option<u64>,
}

/// One step of a test case. `order` counts from zero and fixes the place of the
/// action in a replay.
#[derive(Debug, PartialEq, Eq)]
pub struct Action {
    pub customer_id: String,
    pub test_case_id: String,
    pub id: String,
    pub order: usize,
    pub url: String,
    pub name: String,
    pub mime_type: Option<String>,
    pub method: String,
    pub created_at: Option<u64>,
    pub updated_at: Option<u64>,
}

impl Clone for Action {
    fn clone(&self) -> (r: Self)
        ensures
            same_action(r, *self),
    {
        Action {
            customer_id: self.customer_id.clone(),
            test_case_id: self.test_case_id.clone(),
            id: self.id.clone(),
            order: self.order,
            url: self.url.clone(),
            name: self.name.clone(),
            mime_type: match &self.mime_type {
                Some(m) => Some(m.clone()),
                None => None,
            },
            method: self.method.clone(),
            created_at: self.created_at,
            updated_at: self.updated_at,
        }
    }
}

/// The characters of a text that may be missing.
pub open spec fn text_of(s: Option<String>) -> Option<Seq<char>> {
    match s {
        Some(t) => Some(t@),
        None => None,
    }
}

/// Two actions say the same.
pub open spec fn same_action(a: Action, b: Action) -> bool {
    &&& a.customer_id@ == b.customer_id@
    &&& a.test_case_id@ == b.test_case_id@
    &&& a.id@ == b.id@
    &&& a.order == b.order
    &&& a.url@ == b.url@
    &&& a.name@ == b.name@
    &&& text_of(a.mime_type) == text_of(b.mime_type)
    &&& a.method@ == b.method@
    &&& a.created_at == b.created_at
    &&& a.updated_at == b.updated_at
}

impl Action {
    /// Whether this action comes before `other` in a replay.
    pub fn precedes(&self, other: &Action) -> (r: bool)
        ensures
            r == (self.order < other.order),
    {
        self.order < other.order
    }
}

/// Whether a parameter is sent by an action or produced by it.
#[derive(Clone, Copy, Debug, PartialEq, Eq, Structural)]
pub enum ParameterType {
    Input,
    Output,
}

/// The part of a request or response in which a parameter lies.
#[derive(Clone, Copy, Debug, PartialEq, Eq, Structural)]
pub enum ParameterIn {
    Header,
    Cookie,
    Query,
    Body,
}

/// Where a parameter lies: the part, with the name or, for a body, the path.
#[derive(Debug, PartialEq, Eq)]
pub enum ParameterLocation {
    Header(String),
    Cookie(String),
    Query(String),
    Body(String),
}

impl ParameterLocation {
    /// The part of the request.
    pub open spec fn part(&self) -> ParameterIn {
        match self {
            ParameterLocation::Header(_) => ParameterIn::Header,
            ParameterLocation::Cookie(_) => ParameterIn::Cookie,
            ParameterLocation::Query(_) => ParameterIn::Query,
            ParameterLocation::Body(_) => ParameterIn::Body,
        }
    }

    /// The name or path.
    pub open spec fn path(&self) -> Seq<char> {
        match self {
            ParameterLocation::Header(n) => n@,
            ParameterLocation::Cookie(n) => n@,
            ParameterLocation::Query(n) => n@,
            ParameterLocation::Body(n) => n@,
        }
    }
}

impl Clone for ParameterLocation {
    fn clone(&self) -> (r: Self)
        ensures
            r.part() == self.part(),
            r.path() == self.path(),
    {
        match self {
            ParameterLocation::Header(n) => ParameterLocation::Header(n.clone()),
            ParameterLocation::Cookie(n) => ParameterLocation::Cookie(n.clone()),
            ParameterLocation::Query(n) => ParameterLocation::Query(n.clone()),
            ParameterLocation::Body(n) => ParameterLocation::Body(n.clone()),
        }
    }
}

/// One value that an action sends or produces. Where an expression is present
/// it goes before the literal value at replay.
#[derive(Debug)]
pub struct Parameter {
    pub customer_id: String,
    pub test_case_id: String,
    pub action_id: String,
    pub id: String,
    pub parameter_type: ParameterType,
    pub location: ParameterLocation,
    pub value: JsonValue,
    pub value_expression: Option<Expression>,
    pub created_at: Option<u64>,
    pub updated_at: Option<u64>,
}

/// What a parameter says, apart from its own id and the times of its record.
pub struct ParameterModel {
    pub customer_id: Seq<char>,
    pub test_case_id: Seq<char>,
    pub action_id: Seq<char>,
    pub parameter_type: ParameterType,
    pub part: ParameterIn,
    pub path: Seq<char>,
    pub value: Json,
    pub expression: Option<Seq<char>>,
}

impl View for Parameter {
    type V = ParameterModel;

    open spec fn view(&self) -> ParameterModel {
        ParameterModel {
            customer_id: self.customer_id@,
            test_case_id: self.test_case_id@,
            action_id: self.action_id@,
            parameter_type: self.parameter_type,
            part: self.location.part(),
            path: self.location.path(),
            value: self.value@,
            expression: match self.value_expression {
                Some(e) => Some(e.value@),
                None => None,
            },
        }
    }
}

impl Parameter {
    /// The name or path of the parameter.
    pub fn get_path(&self) -> (r: String)
        ensures
            r@ == self.location.path(),
    {
        match &self.location {
            ParameterLocation::Header(name) => name.clone(),
            ParameterLocation::Cookie(name) => name.clone(),
            ParameterLocation::Query(name) => name.clone(),
            ParameterLocation::Body(name) => name.clone(),
        }
    }

    /// The part of the request in which the parameter lies.
    pub fn get_parameter_in(&self) -> (r: ParameterIn)
        ensures
            r == self.location.part(),
    {
        match &self.location {
            ParameterLocation::Header(_) => ParameterIn::Header,
            ParameterLocation::Cookie(_) => ParameterIn::Cookie,
            ParameterLocation::Query(_) => ParameterIn::Query,
            ParameterLocation::Body(_) => ParameterIn::Body,
        }
    }
}

/// The models of the parameters that a vector holds.
pub open spec fn parameters_view(ps: Seq<Parameter>) -> Seq<ParameterModel> {
    Seq::new(ps.len(), |i: int| ps[i]@)
}

/// The state of a run.
#[derive(Clone, Copy, Debug, PartialEq, Eq, Structural)]
pub enum RunStatus {
    InProgress,
    Finished,
}

/// One replay of a test case.
#[derive(Debug)]
pub struct Run {
    pub customer_id: String,
    pub test_case_id: String,
    pub id: String,
    pub status: RunStatus,
    pub started_at: u64,
    pub finished_at: Option<u64>,
    pub assertion_results: Option<Vec<AssertionResult>>,
    pub created_at: Option<u64>,
    pub updated_at: Option<u64>,
}

/// What one action did in one run.
#[derive(Debug)]
pub struct ActionExecution {
    pub run_id: String,
    pub customer_id: String,
    pub test_case_id: String,
    pub action_id: String,
    pub id: String,
    pub status_code: u16,
    pub error: Option<String>,
    pub response_body: Option<JsonValue>,
    pub request_body: Option<JsonValue>,
    pub query_params: Vec<(String, String)>,
    pub started_at: Option<u64>,
    pub finished_at: Option<u64>,
    pub created_at: Option<u64>,
    pub updated_at: Option<u64>,
}

/// An execution with the action that it belongs to, where that is still known.
#[derive(Debug)]
pub struct ActionExecutionPair {
    pub action: Option<Action>,
    pub execution: ActionExecution,
}

/// A header that a provider adds to requests, unless it is disabled.
#[derive(Debug, PartialEq, Eq)]
pub struct AuthHeaderValue {
    pub value: String,
    pub disabled: bool,
}

impl Clone for AuthHeaderValue {
    fn clone(&self) -> (r: Self)
        ensures
            r.value@ == self.value@,
            r.disabled == self.disabled,
    {
        AuthHeaderValue { value: self.value.clone(), disabled: self.disabled }
    }
}

/// The credentials of one customer for one base address, with the test cases
/// that use them.
#[derive(Debug)]
pub struct AuthenticationProvider {
    pub customer_id: String,
    pub id: String,
    pub name: String,
    pub base_url: String,
    pub headers_by_name: Vec<(String, AuthHeaderValue)>,
    pub linked_test_case_ids: Vec<String>,
    pub created_at: Option<u64>,
    pub updated_at: Option<u64>,
}

impl AuthenticationProvider {
    /// No header name stands twice, and no test case is linked twice.
    pub open spec fn wf(&self) -> bool {
        &&& forall|i: int, j: int|
            0 <= i < j < self.headers_by_name@.len() ==> (#[trigger] self.headers_by_name@[i]).0@
                != (#[trigger] self.headers_by_name@[j]).0@
        &&& forall|i: int, j: int|
            0 <= i < j < self.linked_test_case_ids@.len() ==> (
            #[trigger] self.linked_test_case_ids@[i])@ != (#[trigger] self.linked_test_case_ids@[j])@
    }
}

/// What to list providers by.
#[derive(Debug)]
pub struct ListAuthProvidersRequest {
    pub customer_id: String,
    pub test_case_id: Option<String>,
    pub base_url: Option<String>,
    pub next_page_key: Option<String>,
    pub keyword: Option<String>,
}

/// A recording in progress.
#[derive(Debug)]
pub struct ProxyRecord {
    pub customer_id: String,
    pub test_case_id: String,
    pub run_id: String,
    pub id: String,
}

/// What starts a recording.
#[derive(Debug)]
pub struct CreateProxyRecordRequest {
    pub customer_id: String,
    pub id: String,
    pub name: String,
    pub description: String,
}

/// What starts a run.
#[derive(Debug)]
pub struct RunTestCaseCommand {
    pub customer_id: String,
    pub test_case_id: String,
}

} // verus!
