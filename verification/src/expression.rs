//! Path expressions and what they select in a document.

use crate::codec::{json_path_query, query_path};
use crate::json::{items_view, well_formed, Json, JsonValue};
use vstd::prelude::*;

verus! {

/// A path into the context of a replay or into a flattened document.
#[derive(Debug, PartialEq, Eq)]
pub struct Expression {
    pub value: String,
}

impl Clone for Expression {
    fn clone(&self) -> (r: Self)
        ensures
            r.value@ == self.value@,
    {
        Expression { value: self.value.clone() }
    }
}

/// The values that a path selects in a context, in the order of the query, or
/// the message that says why the path cannot be read. The values are well
/// formed.
pub fn evaluate_expression(context: &JsonValue, exp: &Expression) -> (r: Result<
    Vec<JsonValue>,
    String,
>)
    ensures
        match r {
            Ok(found) => json_path_query(exp.value@, context@) == Ok::<Seq<Json>, Seq<char>>(
                items_view(found@),
            ) && well_formed(Json::Array(items_view(found@))),
            Err(message) => json_path_query(exp.value@, context@) == Err::<Seq<Json>, Seq<char>>(
                message@,
            ),
        },
{
    query_path(exp.value.as_str(), context)
}

} // verus!
