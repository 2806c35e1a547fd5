//! What the service answers and what it is asked: the shapes of responses,
//! errors and requests, without how they travel.

use crate::assertion::{AssertionItem, ComparisonType, ValueProvider};
use crate::model::{ParameterIn, ParameterType};
use vstd::prelude::*;
use vstd::string::StringExecFns;

verus! {

/// Why a request failed.
#[derive(Debug)]
pub enum AppError {
    /// What was asked for does not exist.
    NotFound(String),
    /// The caller's input is malformed.
    Validation(String),
    /// The capture cannot be read.
    Processing(String),
    /// Storage or transport failed.
    Internal(String),
}

/// The body of an answer that reports a failure.
#[derive(Debug)]
pub struct ErrorBody {
    pub message: String,
}

impl AppError {
    /// The status that answers this failure.
    pub open spec fn status(&self) -> u16 {
        match self {
            AppError::NotFound(_) => 404,
            AppError::Validation(_) => 400,
            AppError::Processing(_) => 422,
            AppError::Internal(_) => 500,
        }
    }

    /// The message that the caller is shown: the failure's own, except for an
    /// internal failure, whose message stays inside.
    pub open spec fn shown(&self) -> Seq<char> {
        match self {
            AppError::NotFound(m) => m@,
            AppError::Validation(m) => m@,
            AppError::Processing(m) => m@,
            AppError::Internal(_) => "Internal server error"@,
        }
    }

    /// The status that answers this failure.
    pub fn status_code(&self) -> (r: u16)
        ensures
            r == self.status(),
    {
        match self {
            AppError::NotFound(_) => 404,
            AppError::Validation(_) => 400,
            AppError::Processing(_) => 422,
            AppError::Internal(_) => 500,
        }
    }

    /// The body that answers this failure.
    pub fn body(&self) -> (r: ErrorBody)
        ensures
            r.message@ == self.shown(),
    {
        match self {
            AppError::NotFound(m) => ErrorBody { message: m.clone() },
            AppError::Validation(m) => ErrorBody { message: m.clone() },
            AppError::Processing(m) => ErrorBody { message: m.clone() },
            AppError::Internal(_) => ErrorBody {
                message: String::from_str("Internal server error"),
            },
        }
    }
}

/// A successful answer.
#[derive(Debug)]
pub struct ApiResponse<T>(pub T);

impl<T> ApiResponse<T> {
    /// The answer to a result: the value, or the failure as it is.
    pub fn from(result: Result<T, AppError>) -> (r: Result<ApiResponse<T>, AppError>)
        ensures
            match result {
                Ok(t) => r is Ok && r->Ok_0.0 == t,
                Err(e) => r is Err && r->Err_0 == e,
            },
    {
        match result {
            Ok(t) => Ok(ApiResponse(t)),
            Err(e) => Err(e),
        }
    }

    /// The answer to a lookup: the value, `Not found` where there is none, or
    /// the failure as it is.
    pub fn from_option(result: Result<Option<T>, AppError>) -> (r: Result<ApiResponse<T>, AppError>)
        ensures
            match result {
                Ok(Some(t)) => r is Ok && r->Ok_0.0 == t,
                Ok(None) => r is Err && r->Err_0 is NotFound && r->Err_0->NotFound_0@
                    == "Not found"@,
                Err(e) => r is Err && r->Err_0 == e,
            },
    {
        match result {
            Ok(t) => match t {
                None => Err(AppError::NotFound(String::from_str("Not found"))),
                Some(val) => Ok(ApiResponse(val)),
            },
            Err(e) => Err(e),
        }
    }
}

/// Which actions to list.
#[derive(Debug)]
pub struct ActionQueryParams {
    pub before_order: Option<usize>,
}

/// An assertion to store.
#[derive(Debug)]
pub struct PutAssertionPayload {
    pub id: Option<String>,
    pub left: AssertionItem,
    pub right: AssertionItem,
    pub comparison_type: ComparisonType,
    pub negate: bool,
}

/// A new comparison for an assertion.
#[derive(Debug)]
pub struct PatchAssertionComparisonType {
    pub value: ComparisonType,
}

/// A new negation for an assertion.
#[derive(Debug)]
pub struct PatchAssertionNegation {
    pub value: bool,
}

/// A new expression for one side of an assertion, or none.
#[derive(Debug)]
pub struct PatchAssertionExpression {
    pub value: Option<String>,
}

/// The assertion that an address names.
#[derive(Debug)]
pub struct AssertionsPathParam {
    pub test_case_id: String,
    pub id: String,
}

/// A parameter of a function to replace.
#[derive(Debug)]
pub struct UpdateFunctionParameterRequest {
    pub customer_id: String,
    pub test_case_id: String,
    pub assertion_id: String,
    pub value_provider: ValueProvider,
    pub parameter_index: u8,
    pub left: bool,
}

/// A parameter of a function to remove.
#[derive(Debug)]
pub struct DeleteFunctionParameterRequest {
    pub customer_id: String,
    pub test_case_id: String,
    pub assertion_id: String,
    pub parameter_index: u8,
    pub left: bool,
}

/// Which providers to list.
#[derive(Debug)]
pub struct AuthProvidersQueryParams {
    pub test_case_id: Option<String>,
    pub base_url: Option<String>,
    pub next_page_key: Option<String>,
    pub keyword: Option<String>,
}

/// A header of a provider with its new value.
#[derive(Debug)]
pub struct SetHeaderPayload {
    pub name: String,
    pub value: String,
}

/// A header of a provider to enable or disable.
#[derive(Debug)]
pub struct SetHeaderEnablementPayload {
    pub name: String,
    pub disabled: bool,
}

/// A provider to create.
#[derive(Debug)]
pub struct CreateAuthProviderPayload {
    pub name: String,
    pub url: String,
    pub headers: Vec<SetHeaderPayload>,
}

/// The base addresses to find providers for.
#[derive(Debug)]
pub struct SearchByMultiBaseUrlPayload {
    pub urls: Vec<String>,
}

/// A header of a provider of one customer with its new value.
#[derive(Debug)]
pub struct SetHeaderRequest {
    pub customer_id: String,
    pub id: String,
    pub name: String,
    pub value: String,
}

/// A new name or description.
#[derive(Debug)]
pub struct UpdateNamePayload {
    pub value: String,
}

/// A new name and description for a test case.
#[derive(Debug)]
pub struct UpdateTestCasePayload {
    pub name: String,
    pub description: String,
}

/// Which test cases to list.
#[derive(Debug)]
pub struct ListTestCaseParams {
    pub next_page_key: Option<String>,
    pub keyword: Option<String>,
}

/// Which parameters to list.
#[derive(Debug)]
pub struct ParameterQueryParams {
    pub path: Option<String>,
    pub parameter_type: ParameterType,
    pub parameter_in: Option<ParameterIn>,
}

/// The parameter that an address names.
#[derive(Debug)]
pub struct ParametersPathParam {
    pub test_case_id: String,
    pub action_id: String,
    pub id: String,
}

/// What a completion is asked for: the text so far, and where it is typed.
#[derive(Debug)]
pub struct AutoCompleteRequest {
    pub customer_id: String,
    pub test_case_id: String,
    pub source_action_order: Option<usize>,
    pub latest_input: String,
}

} // verus!
