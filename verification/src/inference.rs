//! Inference: a recorded sequence of exchanges read as a test case. Values that
//! an earlier response produced are replaced by the paths that lead to them.

use crate::exchange::{pointed, Exchange, ExchangeRequest, NameValue, PostParam};
use crate::expression::Expression;
use crate::assertion::{
    assertions_view, path_item, Assertion, AssertionItem, AssertionModel, ComparisonType,
};
use crate::codec::{json_parse, parse_json};
use crate::flatten::{
    build_index_from_value, build_request_index_from_value, build_response_index_from_value,
    flattened, FlattenKeyPrefixType, FlattenedIndex,
};
use crate::json::{lemma_members_view, Json, JsonValue};
use crate::model::{
    parameters_view, Action, AuthHeaderValue, AuthenticationProvider, Parameter, ParameterIn, ParameterLocation,
    ParameterModel, ParameterType, TestCase,
};
use crate::patterns::{
    char_is_numeric, char_is_upper, char_to_lower, find_query, is_numeric, is_upper, lower_of,
    new_id, query_of, strip_query, without_query,
};
use crate::resolver::{
    before, indexes_view, resolve_earliest, resolve_value_expression_from_prev, resolved,
    resolved_earliest,
};
use crate::text::{
    contains, contains_sub, decimal, decimal_chars, extend_chars, from_chars, join, join_parts,
    lines, lowered, replace, replace_all, split, split_any, split_any_from, split_on,
    to_ascii_lower, to_chars, trim, trim_space,
};
use crate::urls::{base_url_of, obtain_base_url};
use vstd::prelude::*;

verus! {

/// A text in which every upper case letter is written as `_` and its lower
/// case.
pub open spec fn snake(s: Seq<char>) -> Seq<char>
    decreases s.len(),
{
    if s.len() == 0 {
        Seq::empty()
    } else if is_upper(s.last()) {
        snake(s.drop_last()) + seq!['_'] + lower_of(s.last())
    } else {
        snake(s.drop_last()).push(s.last())
    }
}

/// Every character is numeric.
pub open spec fn all_numeric(s: Seq<char>) -> bool {
    forall|i: int| 0 <= i < s.len() ==> is_numeric(#[trigger] s[i])
}

/// What the query of the last part of an address adds to the name of an
/// action: the text after its last `=`, in snake case, unless that text is
/// empty or all numeric.
pub open spec fn name_suffix(base: Seq<char>) -> Seq<char> {
    match query_of(base) {
        Some(q) => {
            let v = split_on(q, "="@).last();
            if v.len() > 0 && !all_numeric(v) {
                snake(v)
            } else {
                Seq::empty()
            }
        },
        None => Seq::empty(),
    }
}

/// The last part of an address in which `-` is written `_`.
pub open spec fn last_part(url: Seq<char>) -> Seq<char> {
    split_on(replace_all(url, "-"@, "_"@), "/"@).last()
}

/// The name of the action at position `order` that calls `url`: the last part
/// of the address without its query, then what the query adds, then `_` and
/// the position.
pub open spec fn action_name(order: nat, url: Seq<char>) -> Seq<char> {
    without_query(last_part(url)) + name_suffix(last_part(url)) + "_"@ + decimal(order)
}

fn to_snake(s: &Vec<char>) -> (r: Vec<char>)
    ensures
        r@ == snake(s@),
{
    let mut out: Vec<char> = Vec::new();
    let mut k: usize = 0;
    assert(s@.take(0) =~= Seq::<char>::empty());
    while k < s.len()
        invariant
            k <= s.len(),
            out@ == snake(s@.take(k as int)),
        decreases s.len() - k,
    {
        proof {
            let now = s@.take(k + 1);
            assert(now.drop_last() =~= s@.take(k as int));
            assert(now.last() == s@[k as int]);
        }
        if char_is_upper(s[k]) {
            out.push('_');
            let low = char_to_lower(s[k]);
            extend_chars(&mut out, &low);
            assert(out@ =~= snake(s@.take(k as int)) + seq!['_'] + lower_of(s@[k as int]));
        } else {
            out.push(s[k]);
        }
        k += 1;
    }
    assert(s@.take(s.len() as int) =~= s@);
    out
}

fn is_all_numeric(s: &Vec<char>) -> (r: bool)
    ensures
        r == all_numeric(s@),
{
    let mut k: usize = 0;
    while k < s.len()
        invariant
            k <= s.len(),
            forall|i: int| 0 <= i < k ==> is_numeric(#[trigger] s@[i]),
        decreases s.len() - k,
    {
        if !char_is_numeric(s[k]) {
            return false;
        }
        k += 1;
    }
    true
}

/// The name of the action at position `order` that calls `url`.
pub fn build_action_name_from_url(order: usize, url: &String) -> (r: String)
    ensures
        r@ == action_name(order as nat, url@),
{
    let formatted = replace(&to_chars(url.as_str()), &to_chars("-"), &to_chars("_"));
    let mut pieces = split(&formatted, &to_chars("/"));
    proof {
        assert(lines(pieces@).last() == pieces@[pieces.len() - 1]@);
    }
    let base = from_chars(&pieces[pieces.len() - 1]);
    let suffix: Vec<char> = match find_query(base.as_str()) {
        Some(q) => {
            let values = split(&to_chars(q.as_str()), &to_chars("="));
            proof {
                assert(lines(values@).last() == values@[values.len() - 1]@);
            }
            let v = &values[values.len() - 1];
            if v.len() > 0 && !is_all_numeric(v) {
                to_snake(v)
            } else {
                Vec::new()
            }
        },
        None => Vec::new(),
    };
    let mut out = to_chars(strip_query(base.as_str()).as_str());
    extend_chars(&mut out, &suffix);
    extend_chars(&mut out, &to_chars("_"));
    extend_chars(&mut out, &decimal_chars(order));
    from_chars(&out)
}

/// One part of the path of an address as the action holds it: a part that an
/// earlier response produced, as text, is the path that leads to it.
pub open spec fn templated_part(part: Seq<char>, earlier: Seq<Seq<(Seq<char>, Json)>>) -> Seq<
    char,
> {
    if part.len() == 0 {
        part
    } else {
        match resolved(earlier, Json::String(part)) {
            Some(path) => path,
            None => part,
        }
    }
}

/// The address that the action at position `order` holds: the recorded address
/// without its query, its base as it is, and each part of its path as
/// `templated_part` says, by the responses of the actions before it.
pub open spec fn templated_url(
    order: nat,
    url: Seq<char>,
    indexes: Seq<Seq<(Seq<char>, Json)>>,
) -> Seq<char> {
    let plain = without_query(url);
    let base = base_url_of(plain);
    let parts = split_on(replace_all(plain, base, Seq::empty()), "/"@);
    base + join(
        Seq::new(parts.len(), |i: int| templated_part(parts[i], before(indexes, order))),
        "/"@,
    )
}

/// The address that the action at position `order` holds.
pub fn build_url_without_query_params(
    order: usize,
    url: &String,
    response_indexes: &Vec<FlattenedIndex>,
) -> (r: String)
    ensures
        r@ == templated_url(order as nat, url@, indexes_view(response_indexes@)),
{
    let plain = strip_query(url.as_str());
    let base = obtain_base_url(plain.as_str());
    let base_chars = to_chars(base.as_str());
    let path = replace(&to_chars(plain.as_str()), &base_chars, &Vec::new());
    let slash = to_chars("/");
    let parts = split(&path, &slash);
    let ghost want = split_on(replace_all(plain@, base@, Seq::empty()), "/"@);
    let ghost earlier = before(indexes_view(response_indexes@), order as nat);
    let ghost mapped = Seq::new(want.len(), |i: int| templated_part(want[i], earlier));
    let mut out: Vec<Vec<char>> = Vec::new();
    let mut k: usize = 0;
    while k < parts.len()
        invariant
            k <= parts.len(),
            lines(parts@) == want,
            earlier == before(indexes_view(response_indexes@), order as nat),
            mapped == Seq::new(want.len(), |i: int| templated_part(want[i], earlier)),
            lines(out@) == mapped.take(k as int),
        decreases parts.len() - k,
    {
        assert(want[k as int] == parts@[k as int]@);
        let piece = if parts[k].len() == 0 {
            Vec::new()
        } else {
            let value = JsonValue::String(from_chars(&parts[k]));
            match resolve_value_expression_from_prev(order, &value, response_indexes) {
                Some(e) => to_chars(e.value.as_str()),
                None => parts[k].clone(),
            }
        };
        proof {
            assert(piece@ =~= mapped[k as int]);
            assert(lines(out@.push(piece)) =~= lines(out@).push(piece@));
            assert(lines(out@).push(piece@) =~= mapped.take(k + 1));
        }
        out.push(piece);
        k += 1;
    }
    assert(mapped.take(parts.len() as int) =~= mapped);
    let mut whole = base_chars;
    extend_chars(&mut whole, &join_parts(&out, &slash));
    from_chars(&whole)
}

/// The words that mark a header or cookie as carrying credentials.
pub open spec fn auth_words() -> Seq<Seq<char>> {
    seq![
        "authorization"@,
        "token"@,
        "session"@,
        "csrf"@,
        "user"@,
        "origin"@,
        "cookie"@,
        "auth"@,
    ]
}

/// A name carries credentials where it holds one of the words, whatever the
/// case of its letters.
pub open spec fn auth_related(key: Seq<char>) -> bool {
    exists|i: int| 0 <= i < auth_words().len() && contains_sub(lowered(key), #[trigger] auth_words()[i])
}

/// Whether a header or cookie of this name carries credentials.
pub fn is_auth_related_header(key: &String) -> (r: bool)
    ensures
        r == auth_related(key@),
{
    let low = to_ascii_lower(&to_chars(key.as_str()));
    let mut words: Vec<Vec<char>> = Vec::new();
    words.push(to_chars("authorization"));
    words.push(to_chars("token"));
    words.push(to_chars("session"));
    words.push(to_chars("csrf"));
    words.push(to_chars("user"));
    words.push(to_chars("origin"));
    words.push(to_chars("cookie"));
    words.push(to_chars("auth"));
    assert(lines(words@) =~= auth_words());
    let mut k: usize = 0;
    while k < words.len()
        invariant
            k <= words.len(),
            low@ == lowered(key@),
            lines(words@) == auth_words(),
            forall|i: int| 0 <= i < k ==> !contains_sub(lowered(key@), #[trigger] auth_words()[i]),
        decreases words.len() - k,
    {
        assert(auth_words()[k as int] == words@[k as int]@);
        if contains(&low, &words[k]) {
            return true;
        }
        k += 1;
    }
    false
}

/// A header that is never a parameter: the length of the content, whatever the
/// case of its letters.
pub open spec fn excluded_header(key: Seq<char>) -> bool {
    contains_sub(lowered(key), "content-length"@)
}

/// Whether a header of this name is never a parameter.
pub fn must_exclude_header(key: &String) -> (r: bool)
    ensures
        r == excluded_header(key@),
{
    let low = to_ascii_lower(&to_chars(key.as_str()));
    contains(&low, &to_chars("content-length"))
}

/// The name of a header without its colons.
pub open spec fn header_name(name: Seq<char>) -> Seq<char> {
    replace_all(name, ":"@, Seq::empty())
}

/// The name of a header without its colons.
pub fn resolve_header_name(name: &String) -> (r: String)
    ensures
        r@ == header_name(name@),
{
    from_chars(&replace(&to_chars(name.as_str()), &to_chars(":"), &Vec::new()))
}

/// The inner parts of a base address, each after a blank.
pub open spec fn spaced(parts: Seq<Seq<char>>, upto: int) -> Seq<char>
    decreases upto,
{
    if upto <= 1 || upto > parts.len() {
        Seq::empty()
    } else {
        spaced(parts, upto - 1) + " "@ + parts[upto - 1]
    }
}

/// The name of the provider for a base address: the parts of the address
/// between dots and slashes, without the first and the last, joined by blanks.
pub open spec fn auth_name(base_url: Seq<char>) -> Seq<char> {
    let parts = split_any_from(base_url, seq!['.', '/'], 0);
    trim_space(spaced(parts, parts.len() - 1))
}

/// The name of the provider for a base address.
pub fn build_auth_name_from_url(base_url: &String) -> (r: String)
    ensures
        r@ == auth_name(base_url@),
{
    let mut marks: Vec<char> = Vec::new();
    marks.push('.');
    marks.push('/');
    assert(marks@ =~= seq!['.', '/']);
    let parts = split_any(&to_chars(base_url.as_str()), &marks);
    let blank = to_chars(" ");
    let mut name: Vec<char> = Vec::new();
    let mut i: usize = 1;
    while i < parts.len() - 1
        invariant
            1 <= i,
            parts.len() >= 1,
            i <= parts.len() - 1 || parts.len() == 1,
            name@ == spaced(lines(parts@), i as int),
            blank@ == " "@,
        decreases parts.len() - i,
    {
        proof {
            assert(lines(parts@)[i as int] == parts@[i as int]@);
        }
        let ghost head = name@;
        extend_chars(&mut name, &blank);
        extend_chars(&mut name, &parts[i]);
        assert(name@ =~= head + " "@ + parts@[i as int]@);
        assert(spaced(lines(parts@), i + 1) == spaced(lines(parts@), i as int) + " "@ + lines(
            parts@,
        )[i as int]);
        i += 1;
    }
    proof {
        if parts.len() == 1 {
            assert(spaced(lines(parts@), 0) =~= spaced(lines(parts@), 1));
        }
    }
    from_chars(&trim(&name))
}

/// Whether a value of a response is worth an assertion: not a boolean, not
/// null, not an empty text and not an empty array.
pub open spec fn assertable(v: Json) -> bool {
    match v {
        Json::Bool(_) => false,
        Json::Null => false,
        Json::String(s) => s.len() > 0,
        Json::Array(items) => items.len() > 0,
        _ => true,
    }
}

/// Whether a value of a response is worth an assertion.
pub fn should_build_assertion_for_response_value(res_value: &JsonValue) -> (r: bool)
    ensures
        r == assertable(res_value@),
{
    match res_value {
        JsonValue::Bool(_) => false,
        JsonValue::Null => false,
        JsonValue::String(s) => {
            let c = to_chars(s.as_str());
            c.len() > 0
        },
        JsonValue::Array(items) => {
            proof {
                crate::json::lemma_items_view(items@);
            }
            items.len() > 0
        },
        _ => true,
    }
}


/// The action that a parameter or an assertion belongs to.
pub struct Owner {
    pub customer_id: Seq<char>,
    pub test_case_id: Seq<char>,
    pub action_id: Seq<char>,
    pub order: nat,
}

/// The owner that an action is.
pub open spec fn owner_of(action: Action) -> Owner {
    Owner {
        customer_id: action.customer_id@,
        test_case_id: action.test_case_id@,
        action_id: action.id@,
        order: action.order as nat,
    }
}

/// An input of an action: the recorded value, with the path that leads to it
/// where a response of an earlier action produced it.
pub open spec fn input_parameter(
    owner: Owner,
    part: ParameterIn,
    path: Seq<char>,
    value: Json,
    indexes: Seq<Seq<(Seq<char>, Json)>>,
) -> ParameterModel {
    ParameterModel {
        customer_id: owner.customer_id,
        test_case_id: owner.test_case_id,
        action_id: owner.action_id,
        parameter_type: ParameterType::Input,
        part,
        path,
        value,
        expression: resolved(before(indexes, owner.order), value),
    }
}

/// An output of an action: a leaf of its response, without an expression.
pub open spec fn output_parameter(owner: Owner, path: Seq<char>, value: Json) -> ParameterModel {
    ParameterModel {
        customer_id: owner.customer_id,
        test_case_id: owner.test_case_id,
        action_id: owner.action_id,
        parameter_type: ParameterType::Output,
        part: ParameterIn::Body,
        path,
        value,
        expression: None,
    }
}

fn build_parameter(
    action: &Action,
    expression: Option<Expression>,
    value: JsonValue,
    location: ParameterLocation,
    parameter_type: ParameterType,
) -> (r: Parameter)
    ensures
        r@ == (ParameterModel {
            customer_id: action.customer_id@,
            test_case_id: action.test_case_id@,
            action_id: action.id@,
            parameter_type,
            part: location.part(),
            path: location.path(),
            value: value@,
            expression: match expression {
                Some(e) => Some(e.value@),
                None => None,
            },
        }),
        r.created_at is None,
        r.updated_at is None,
{
    Parameter {
        customer_id: action.customer_id.clone(),
        test_case_id: action.test_case_id.clone(),
        action_id: action.id.clone(),
        id: new_id(),
        parameter_type,
        location,
        value,
        value_expression: expression,
        created_at: None,
        updated_at: None,
    }
}

fn build_input(
    action: &Action,
    response_indexes: &Vec<FlattenedIndex>,
    value: JsonValue,
    location: ParameterLocation,
) -> (r: Parameter)
    ensures
        r@ == input_parameter(
            owner_of(*action),
            location.part(),
            location.path(),
            value@,
            indexes_view(response_indexes@),
        ),
{
    let expression = resolve_value_expression_from_prev(action.order, &value, response_indexes);
    build_parameter(action, expression, value, location, ParameterType::Input)
}

/// The input that a query parameter of the recorded request becomes.
pub fn build_query_param(
    action: &Action,
    response_indexes: &Vec<FlattenedIndex>,
    query_string_value: &String,
    query_key: &String,
) -> (r: Parameter)
    ensures
        r@ == input_parameter(
            owner_of(*action),
            ParameterIn::Query,
            query_key@,
            Json::String(query_string_value@),
            indexes_view(response_indexes@),
        ),
{
    build_input(
        action,
        response_indexes,
        JsonValue::String(query_string_value.clone()),
        ParameterLocation::Query(query_key.clone()),
    )
}

/// The inputs that the query parameters of a request become, in order.
pub open spec fn query_parameters(
    owner: Owner,
    query: Seq<NameValue>,
    indexes: Seq<Seq<(Seq<char>, Json)>>,
) -> Seq<ParameterModel> {
    Seq::new(
        query.len(),
        |i: int|
            input_parameter(
                owner,
                ParameterIn::Query,
                query[i].name@,
                Json::String(query[i].value@),
                indexes,
            ),
    )
}

fn push_parameter(out: &mut Vec<Parameter>, p: Parameter)
    ensures
        parameters_view(final(out)@) == parameters_view(old(out)@).push(p@),
{
    out.push(p);
    assert(parameters_view(out@) =~= parameters_view(old(out)@).push(p@));
}

pub(crate) fn append_parameters(out: &mut Vec<Parameter>, more: Vec<Parameter>)
    ensures
        parameters_view(final(out)@) == parameters_view(old(out)@) + parameters_view(more@),
{
    let mut more = more;
    let ghost all = parameters_view(more@);
    let ghost start = parameters_view(out@);
    let ghost mut done: Seq<ParameterModel> = Seq::empty();
    assert(start + done =~= start);
    assert(done + all =~= all);
    while more.len() > 0
        invariant
            parameters_view(out@) == start + done,
            done + parameters_view(more@) == all,
        decreases more.len(),
    {
        let ghost rest = parameters_view(more@);
        let p = more.remove(0);
        proof {
            assert(rest =~= seq![p@] + parameters_view(more@));
            assert(done.push(p@) + parameters_view(more@) =~= done + rest);
            assert((start + done).push(p@) =~= start + done.push(p@));
            done = done.push(p@);
        }
        push_parameter(out, p);
    }
    assert(parameters_view(more@) =~= Seq::<ParameterModel>::empty());
    assert(done + Seq::<ParameterModel>::empty() =~= done);
}

fn build_query_parameters(
    action: &Action,
    request: &ExchangeRequest,
    response_indexes: &Vec<FlattenedIndex>,
) -> (r: Vec<Parameter>)
    ensures
        parameters_view(r@) == query_parameters(
            owner_of(*action),
            request.query_string@,
            indexes_view(response_indexes@),
        ),
{
    let ghost want = query_parameters(
        owner_of(*action),
        request.query_string@,
        indexes_view(response_indexes@),
    );
    let mut out: Vec<Parameter> = Vec::new();
    let mut k: usize = 0;
    assert(parameters_view(out@) =~= want.take(0));
    while k < request.query_string.len()
        invariant
            k <= request.query_string.len(),
            want == query_parameters(
                owner_of(*action),
                request.query_string@,
                indexes_view(response_indexes@),
            ),
            parameters_view(out@) == want.take(k as int),
        decreases request.query_string.len() - k,
    {
        let p = build_query_param(
            action,
            response_indexes,
            &request.query_string[k].value,
            &request.query_string[k].name,
        );
        assert(want.take(k as int).push(p@) =~= want.take(k + 1));
        push_parameter(&mut out, p);
        k += 1;
    }
    assert(want.take(request.query_string.len() as int) =~= want);
    out
}

/// The inputs that the headers of a request become, in order: every header but
/// those that carry credentials and those that are never parameters, under its
/// name without colons.
pub open spec fn header_parameters(
    owner: Owner,
    headers: Seq<NameValue>,
    indexes: Seq<Seq<(Seq<char>, Json)>>,
) -> Seq<ParameterModel>
    decreases headers.len(),
{
    if headers.len() == 0 {
        Seq::empty()
    } else {
        let head = header_parameters(owner, headers.drop_last(), indexes);
        let name = header_name(headers.last().name@);
        if auth_related(name) || excluded_header(name) {
            head
        } else {
            head.push(
                input_parameter(
                    owner,
                    ParameterIn::Header,
                    name,
                    Json::String(headers.last().value@),
                    indexes,
                ),
            )
        }
    }
}

fn build_header_parameter(
    action: &Action,
    response_indexes: &Vec<FlattenedIndex>,
    header_name: &String,
    header_val: &String,
) -> (r: Option<Parameter>)
    ensures
        match r {
            Some(p) => !(auth_related(header_name@) || excluded_header(header_name@)) && p@
                == input_parameter(
                owner_of(*action),
                ParameterIn::Header,
                header_name@,
                Json::String(header_val@),
                indexes_view(response_indexes@),
            ),
            None => auth_related(header_name@) || excluded_header(header_name@),
        },
{
    if is_auth_related_header(header_name) || must_exclude_header(header_name) {
        None
    } else {
        Some(
            build_input(
                action,
                response_indexes,
                JsonValue::String(header_val.clone()),
                ParameterLocation::Header(header_name.clone()),
            ),
        )
    }
}

fn build_header_parameters(
    action: &Action,
    request: &ExchangeRequest,
    response_indexes: &Vec<FlattenedIndex>,
) -> (r: Vec<Parameter>)
    ensures
        parameters_view(r@) == header_parameters(
            owner_of(*action),
            request.headers@,
            indexes_view(response_indexes@),
        ),
{
    let ghost all = request.headers@;
    let mut out: Vec<Parameter> = Vec::new();
    let mut k: usize = 0;
    assert(parameters_view(out@) =~= Seq::<ParameterModel>::empty());
    while k < request.headers.len()
        invariant
            k <= request.headers.len(),
            all == request.headers@,
            parameters_view(out@) == header_parameters(
                owner_of(*action),
                all.take(k as int),
                indexes_view(response_indexes@),
            ),
        decreases request.headers.len() - k,
    {
        proof {
            let now = all.take(k + 1);
            assert(now.drop_last() =~= all.take(k as int));
            assert(now.last() == all[k as int]);
        }
        match build_header_parameter(
            action,
            response_indexes,
            &resolve_header_name(&request.headers[k].name),
            &request.headers[k].value,
        ) {
            Some(p) => {
                push_parameter(&mut out, p);
            },
            None => {},
        }
        k += 1;
    }
    assert(all.take(request.headers.len() as int) =~= all);
    out
}


/// The inputs that the leaves of a request body become, in document order.
pub open spec fn leaf_parameters(
    owner: Owner,
    leaves: Seq<(Seq<char>, Json)>,
    indexes: Seq<Seq<(Seq<char>, Json)>>,
) -> Seq<ParameterModel> {
    Seq::new(
        leaves.len(),
        |i: int| input_parameter(owner, ParameterIn::Body, leaves[i].0, leaves[i].1, indexes),
    )
}

/// The inputs that the leaves of a request body become.
pub fn build_body_parameters_from_value(
    action: &Action,
    response_indexes: &Vec<FlattenedIndex>,
    value: &JsonValue,
) -> (r: Vec<Parameter>)
    ensures
        parameters_view(r@) == leaf_parameters(
            owner_of(*action),
            flattened(FlattenKeyPrefixType::Input, action.name@, value@),
            indexes_view(response_indexes@),
        ),
{
    let index = build_index_from_value(&action.name, value, FlattenKeyPrefixType::Input);
    let ghost want = leaf_parameters(
        owner_of(*action),
        index@,
        indexes_view(response_indexes@),
    );
    proof {
        lemma_members_view(index.entries@);
    }
    let mut out: Vec<Parameter> = Vec::new();
    let mut k: usize = 0;
    assert(parameters_view(out@) =~= want.take(0));
    while k < index.entries.len()
        invariant
            k <= index.entries.len(),
            index@.len() == index.entries.len(),
            forall|i: int|
                0 <= i < index.entries.len() ==> #[trigger] index@[i] == (
                    index.entries@[i].0@,
                    index.entries@[i].1@,
                ),
            want == leaf_parameters(owner_of(*action), index@, indexes_view(response_indexes@)),
            parameters_view(out@) == want.take(k as int),
        decreases index.entries.len() - k,
    {
        assert(index@[k as int] == (index.entries@[k as int].0@, index.entries@[k as int].1@));
        let p = build_input(
            action,
            response_indexes,
            index.entries[k].1.clone(),
            ParameterLocation::Body(index.entries[k].0.clone()),
        );
        assert(want.take(k as int).push(p@) =~= want.take(k + 1));
        push_parameter(&mut out, p);
        k += 1;
    }
    assert(want.take(index.entries.len() as int) =~= want);
    out
}

/// The inputs that the fields of a recorded form become: each field that has a
/// value, under its name.
pub open spec fn form_parameters(
    owner: Owner,
    fields: Seq<PostParam>,
    indexes: Seq<Seq<(Seq<char>, Json)>>,
) -> Seq<ParameterModel>
    decreases fields.len(),
{
    if fields.len() == 0 {
        Seq::empty()
    } else {
        let head = form_parameters(owner, fields.drop_last(), indexes);
        match fields.last().value {
            Some(v) => head.push(
                input_parameter(
                    owner,
                    ParameterIn::Body,
                    fields.last().name@,
                    Json::String(v@),
                    indexes,
                ),
            ),
            None => head,
        }
    }
}

/// The inputs that the body of a recorded request becomes: the leaves of its
/// text, where that is JSON, then the fields of its form.
pub open spec fn body_parameters(
    owner: Owner,
    action_name: Seq<char>,
    request: ExchangeRequest,
    indexes: Seq<Seq<(Seq<char>, Json)>>,
) -> Seq<ParameterModel> {
    match request.post_data {
        None => Seq::empty(),
        Some(body) => (match body.text {
            Some(text) => match json_parse(text@) {
                Some(doc) => leaf_parameters(
                    owner,
                    flattened(FlattenKeyPrefixType::Input, action_name, doc),
                    indexes,
                ),
                None => Seq::empty(),
            },
            None => Seq::empty(),
        }) + (match body.params {
            Some(fields) => form_parameters(owner, fields@, indexes),
            None => Seq::empty(),
        }),
    }
}

fn build_body_parameters(
    action: &Action,
    request: &ExchangeRequest,
    response_indexes: &Vec<FlattenedIndex>,
) -> (r: Vec<Parameter>)
    ensures
        parameters_view(r@) == body_parameters(
            owner_of(*action),
            action.name@,
            *request,
            indexes_view(response_indexes@),
        ),
{
    let mut out: Vec<Parameter> = Vec::new();
    assert(parameters_view(out@) =~= Seq::<ParameterModel>::empty());
    match &request.post_data {
        None => {},
        Some(body) => {
            match &body.text {
                Some(text) => match parse_json(text.as_str()) {
                    Some(value) => {
                        let more = build_body_parameters_from_value(
                            action,
                            response_indexes,
                            &value,
                        );
                        append_parameters(&mut out, more);
                        assert(Seq::<ParameterModel>::empty() + parameters_view(more@)
                            =~= parameters_view(more@));
                    },
                    None => {},
                },
                None => {},
            }
            let ghost first = parameters_view(out@);
            match &body.params {
                Some(fields) => {
                    let ghost all = fields@;
                    let mut k: usize = 0;
                    assert(first + form_parameters(
                        owner_of(*action),
                        all.take(0),
                        indexes_view(response_indexes@),
                    ) =~= first);
                    while k < fields.len()
                        invariant
                            k <= fields.len(),
                            all == fields@,
                            parameters_view(out@) == first + form_parameters(
                                owner_of(*action),
                                all.take(k as int),
                                indexes_view(response_indexes@),
                            ),
                        decreases fields.len() - k,
                    {
                        proof {
                            let now = all.take(k + 1);
                            assert(now.drop_last() =~= all.take(k as int));
                            assert(now.last() == all[k as int]);
                        }
                        match &fields[k].value {
                            Some(v) => {
                                let p = build_input(
                                    action,
                                    response_indexes,
                                    JsonValue::String(v.clone()),
                                    ParameterLocation::Body(fields[k].name.clone()),
                                );
                                let ghost head = form_parameters(
                                    owner_of(*action),
                                    all.take(k as int),
                                    indexes_view(response_indexes@),
                                );
                                assert((first + head).push(p@) =~= first + head.push(p@));
                                push_parameter(&mut out, p);
                            },
                            None => {},
                        }
                        k += 1;
                    }
                    assert(all.take(fields.len() as int) =~= all);
                },
                None => {
                    assert(first + Seq::<ParameterModel>::empty() =~= first);
                },
            }
        },
    }
    out
}

/// The inputs of an action: from the query, then the body, then the headers of
/// its recorded request.
pub open spec fn action_input(
    owner: Owner,
    action_name: Seq<char>,
    request: ExchangeRequest,
    indexes: Seq<Seq<(Seq<char>, Json)>>,
) -> Seq<ParameterModel> {
    query_parameters(owner, request.query_string@, indexes) + body_parameters(
        owner,
        action_name,
        request,
        indexes,
    ) + header_parameters(owner, request.headers@, indexes)
}

/// The inputs of an action.
pub fn build_action_input(
    action: &Action,
    request: &ExchangeRequest,
    response_indexes: &Vec<FlattenedIndex>,
) -> (r: Vec<Parameter>)
    ensures
        parameters_view(r@) == action_input(
            owner_of(*action),
            action.name@,
            *request,
            indexes_view(response_indexes@),
        ),
{
    let mut out = build_query_parameters(action, request, response_indexes);
    append_parameters(&mut out, build_body_parameters(action, request, response_indexes));
    append_parameters(&mut out, build_header_parameters(action, request, response_indexes));
    out
}

/// The outputs that the leaves of a response become, in document order.
pub open spec fn leaf_outputs(owner: Owner, leaves: Seq<(Seq<char>, Json)>) -> Seq<ParameterModel> {
    Seq::new(leaves.len(), |i: int| output_parameter(owner, leaves[i].0, leaves[i].1))
}

/// The outputs that the leaves of a response become.
pub fn build_output_parameters_from_value(action: &Action, response_value: &JsonValue) -> (r: Vec<
    Parameter,
>)
    ensures
        parameters_view(r@) == leaf_outputs(
            owner_of(*action),
            flattened(FlattenKeyPrefixType::Input, action.name@, response_value@),
        ),
{
    let index = build_index_from_value(&action.name, response_value, FlattenKeyPrefixType::Input);
    let ghost want = leaf_outputs(owner_of(*action), index@);
    proof {
        lemma_members_view(index.entries@);
    }
    let mut out: Vec<Parameter> = Vec::new();
    let mut k: usize = 0;
    assert(parameters_view(out@) =~= want.take(0));
    while k < index.entries.len()
        invariant
            k <= index.entries.len(),
            index@.len() == index.entries.len(),
            forall|i: int|
                0 <= i < index.entries.len() ==> #[trigger] index@[i] == (
                    index.entries@[i].0@,
                    index.entries@[i].1@,
                ),
            want == leaf_outputs(owner_of(*action), index@),
            parameters_view(out@) == want.take(k as int),
        decreases index.entries.len() - k,
    {
        assert(index@[k as int] == (index.entries@[k as int].0@, index.entries@[k as int].1@));
        let p = build_parameter(
            action,
            None,
            index.entries[k].1.clone(),
            ParameterLocation::Body(index.entries[k].0.clone()),
            ParameterType::Output,
        );
        assert(want.take(k as int).push(p@) =~= want.take(k + 1));
        push_parameter(&mut out, p);
        k += 1;
    }
    assert(want.take(index.entries.len() as int) =~= want);
    out
}

/// The document that a text writes, or none for a missing text and for a text
/// that is not JSON.
pub open spec fn parsed(text: Option<String>) -> Option<Json> {
    match text {
        Some(t) => json_parse(t@),
        None => None,
    }
}

/// The outputs of an action: the leaves of its recorded response, where that is
/// JSON.
pub open spec fn action_output(owner: Owner, action_name: Seq<char>, exchange: Exchange) -> Seq<
    ParameterModel,
> {
    match parsed(exchange.response.text) {
        Some(doc) => leaf_outputs(
            owner,
            flattened(FlattenKeyPrefixType::Input, action_name, doc),
        ),
        None => Seq::empty(),
    }
}

/// The outputs of an action.
pub fn build_output_parameters(action: &Action, exchange: &Exchange) -> (r: Vec<Parameter>)
    ensures
        parameters_view(r@) == action_output(owner_of(*action), action.name@, *exchange),
{
    match &exchange.response.text {
        Some(text) => match parse_json(text.as_str()) {
            Some(value) => build_output_parameters_from_value(action, &value),
            None => {
                let out: Vec<Parameter> = Vec::new();
                assert(parameters_view(out@) =~= Seq::<ParameterModel>::empty());
                out
            },
        },
        None => {
            let out: Vec<Parameter> = Vec::new();
            assert(parameters_view(out@) =~= Seq::<ParameterModel>::empty());
            out
        },
    }
}

/// The index of the response of the exchange at position `order`: empty where
/// the response has no text or its text is not JSON.
pub open spec fn response_index(order: nat, exchange: Exchange) -> Seq<(Seq<char>, Json)> {
    match parsed(exchange.response.text) {
        Some(doc) => flattened(
            FlattenKeyPrefixType::Output,
            action_name(order, exchange.request.url@),
            doc,
        ),
        None => Seq::empty(),
    }
}

/// The index of the response of the exchange at position `order`.
pub fn build_response_index(order: usize, exchange: &Exchange) -> (r: FlattenedIndex)
    ensures
        r@ == response_index(order as nat, *exchange),
{
    match &exchange.response.text {
        Some(text) => match parse_json(text.as_str()) {
            Some(value) => {
                let name = build_action_name_from_url(order, &exchange.request.url);
                build_response_index_from_value(&name, &value)
            },
            None => FlattenedIndex::new(),
        },
        None => FlattenedIndex::new(),
    }
}

/// The index of the request of the exchange at position `order`: the leaves of
/// its body, where the body says that it is `application/json` and is JSON;
/// else empty.
pub open spec fn request_index(order: nat, exchange: Exchange) -> Seq<(Seq<char>, Json)> {
    match exchange.request.post_data {
        Some(body) => if contains_sub(body.mime_type@, "application/json"@) {
            match parsed(body.text) {
                Some(doc) => flattened(
                    FlattenKeyPrefixType::AssertionExpression,
                    action_name(order, exchange.request.url@),
                    doc,
                ),
                None => Seq::empty(),
            }
        } else {
            Seq::empty()
        },
        None => Seq::empty(),
    }
}

/// The index of the request of the exchange at position `order`.
pub fn build_request_index(order: usize, exchange: &Exchange) -> (r: FlattenedIndex)
    ensures
        r@ == request_index(order as nat, *exchange),
{
    match &exchange.request.post_data {
        Some(body) => {
            if !crate::text::str_contains(body.mime_type.as_str(), "application/json") {
                return FlattenedIndex::new();
            }
            match &body.text {
                Some(text) => match parse_json(text.as_str()) {
                    Some(value) => {
                        let name = build_action_name_from_url(order, &exchange.request.url);
                        build_request_index_from_value(&name, &value)
                    },
                    None => FlattenedIndex::new(),
                },
                None => FlattenedIndex::new(),
            }
        },
        None => FlattenedIndex::new(),
    }
}


/// The assertion that a value of a response which an earlier request had sent
/// gives rise to: what was sent equals what came back.
pub open spec fn echo_assertion(owner: Owner, sent: Seq<char>, back: Seq<char>) -> AssertionModel {
    AssertionModel {
        customer_id: owner.customer_id,
        test_case_id: owner.test_case_id,
        left: path_item(sent),
        right: path_item(back),
        comparison_type: ComparisonType::EqualTo,
        negate: false,
    }
}

/// The assertions for the entries of a response index: one for each entry whose
/// value is worth it and was sent by a request of an earlier action; the
/// earliest such request names the left side.
pub open spec fn echo_assertions(
    owner: Owner,
    entries: Seq<(Seq<char>, Json)>,
    requests: Seq<Seq<(Seq<char>, Json)>>,
) -> Seq<AssertionModel>
    decreases entries.len(),
{
    if entries.len() == 0 {
        Seq::empty()
    } else {
        let head = echo_assertions(owner, entries.drop_last(), requests);
        let (path, value) = entries.last();
        if assertable(value) {
            match resolved_earliest(before(requests, owner.order), value, 0) {
                Some(sent) => head.push(echo_assertion(owner, sent, path)),
                None => head,
            }
        } else {
            head
        }
    }
}

/// The assertions of the action at its position: those for the entries of its
/// own response index, if there is one.
pub open spec fn action_assertions(
    owner: Owner,
    requests: Seq<Seq<(Seq<char>, Json)>>,
    responses: Seq<Seq<(Seq<char>, Json)>>,
) -> Seq<AssertionModel> {
    if owner.order < responses.len() {
        echo_assertions(owner, responses[owner.order as int], requests)
    } else {
        Seq::empty()
    }
}

/// The assertions of an action.
pub fn build_assertions(
    action: &Action,
    request_indexes: &Vec<FlattenedIndex>,
    response_indexes: &Vec<FlattenedIndex>,
) -> (r: Vec<Assertion>)
    ensures
        assertions_view(r@) == action_assertions(
            owner_of(*action),
            indexes_view(request_indexes@),
            indexes_view(response_indexes@),
        ),
        forall|i: int| 0 <= i < r.len() ==> (#[trigger] r@[i]).created_at is None && r@[i].updated_at is None,
{
    let mut out: Vec<Assertion> = Vec::new();
    assert(assertions_view(out@) =~= Seq::<AssertionModel>::empty());
    if action.order >= response_indexes.len() {
        return out;
    }
    let index = &response_indexes[action.order];
    let ghost entries = index@;
    assert(indexes_view(response_indexes@)[action.order as int] == entries);
    proof {
        lemma_members_view(index.entries@);
    }
    let mut k: usize = 0;
    while k < index.entries.len()
        invariant
            k <= index.entries.len(),
            entries == index@,
            entries.len() == index.entries.len(),
            forall|i: int|
                0 <= i < index.entries.len() ==> #[trigger] entries[i] == (
                    index.entries@[i].0@,
                    index.entries@[i].1@,
                ),
            assertions_view(out@) == echo_assertions(
                owner_of(*action),
                entries.take(k as int),
                indexes_view(request_indexes@),
            ),
            forall|i: int| 0 <= i < out.len() ==> (#[trigger] out@[i]).created_at is None && out@[i].updated_at is None,
        decreases index.entries.len() - k,
    {
        proof {
            let now = entries.take(k + 1);
            assert(now.drop_last() =~= entries.take(k as int));
            assert(now.last() == entries[k as int]);
        }
        if should_build_assertion_for_response_value(&index.entries[k].1) {
            match resolve_earliest(action.order, &index.entries[k].1, request_indexes) {
                Some(expression) => {
                    let assertion = Assertion {
                        customer_id: action.customer_id.clone(),
                        test_case_id: action.test_case_id.clone(),
                        id: new_id(),
                        left: AssertionItem::from_expression(expression),
                        right: AssertionItem::from_expression(
                            Expression { value: index.entries[k].0.clone() },
                        ),
                        comparison_type: ComparisonType::EqualTo,
                        negate: false,
                        created_at: None,
                        updated_at: None,
                    };
                    assert(assertions_view(out@.push(assertion)) =~= assertions_view(out@).push(
                        assertion@,
                    ));
                    out.push(assertion);
                },
                None => {},
            }
        }
        k += 1;
    }
    assert(entries.take(index.entries.len() as int) =~= entries);
    out
}

/// The value for a header of a provider: enabled.
pub open spec fn header_value(value: Seq<char>) -> (Seq<char>, bool) {
    (value, false)
}

/// The headers as names with what they hold.
pub open spec fn headers_view(headers: Seq<(String, AuthHeaderValue)>) -> Seq<
    (Seq<char>, (Seq<char>, bool)),
> {
    Seq::new(headers.len(), |i: int| (headers[i].0@, (headers[i].1.value@, headers[i].1.disabled)))
}

/// The position of the first header named `name`.
pub open spec fn header_position(
    headers: Seq<(Seq<char>, (Seq<char>, bool))>,
    name: Seq<char>,
    from: int,
) -> Option<int>
    decreases headers.len() - from,
{
    if from < 0 || from >= headers.len() {
        None
    } else if headers[from].0 == name {
        Some(from)
    } else {
        header_position(headers, name, from + 1)
    }
}

/// The headers after `name` has been given a value: in place of what the name
/// held, or last.
pub open spec fn with_header(
    headers: Seq<(Seq<char>, (Seq<char>, bool))>,
    name: Seq<char>,
    held: (Seq<char>, bool),
) -> Seq<(Seq<char>, (Seq<char>, bool))> {
    match header_position(headers, name, 0) {
        Some(i) => headers.update(i, (name, held)),
        None => headers.push((name, held)),
    }
}

/// No header name stands twice.
pub open spec fn distinct_headers(headers: Seq<(Seq<char>, (Seq<char>, bool))>) -> bool {
    forall|i: int, j: int|
        0 <= i < j < headers.len() ==> (#[trigger] headers[i]).0 != (#[trigger] headers[j]).0
}

/// What `header_position` finds is the first header of that name at or after
/// `from`.
pub proof fn lemma_header_position(
    headers: Seq<(Seq<char>, (Seq<char>, bool))>,
    name: Seq<char>,
    from: int,
)
    requires
        0 <= from,
    ensures
        match header_position(headers, name, from) {
            Some(i) => from <= i < headers.len() && headers[i].0 == name,
            None => forall|j: int| from <= j < headers.len() ==> (#[trigger] headers[j]).0 != name,
        },
    decreases headers.len() - from,
{
    if from < headers.len() && headers[from].0 != name {
        lemma_header_position(headers, name, from + 1);
    }
}

/// `with_header` keeps names apart.
pub proof fn lemma_with_header_distinct(
    headers: Seq<(Seq<char>, (Seq<char>, bool))>,
    name: Seq<char>,
    held: (Seq<char>, bool),
)
    requires
        distinct_headers(headers),
    ensures
        distinct_headers(with_header(headers, name, held)),
{
    lemma_header_position(headers, name, 0);
    let after = with_header(headers, name, held);
    assert forall|i: int, j: int| 0 <= i < j < after.len() implies (#[trigger] after[i]).0 != (
    #[trigger] after[j]).0 by {
        match header_position(headers, name, 0) {
            Some(p) => {
                assert(after[i].0 == headers[i].0 && after[j].0 == headers[j].0);
            },
            None => {
                if j < headers.len() {
                    assert(after[i] == headers[i] && after[j] == headers[j]);
                } else {
                    assert(after[i] == headers[i]);
                }
            },
        }
    }
}

/// Gives a header a value, as `with_header` says. Names that stood apart stay
/// apart.
pub fn set_header(headers: &mut Vec<(String, AuthHeaderValue)>, name: String, held: AuthHeaderValue)
    ensures
        headers_view(final(headers)@) == with_header(
            headers_view(old(headers)@),
            name@,
            (held.value@, held.disabled),
        ),
        distinct_headers(headers_view(old(headers)@)) ==> distinct_headers(
            headers_view(final(headers)@),
        ),
{
    proof {
        if distinct_headers(headers_view(headers@)) {
            lemma_with_header_distinct(headers_view(headers@), name@, (held.value@, held.disabled));
        }
    }
    let ghost all = headers_view(headers@);
    let mut k: usize = 0;
    while k < headers.len()
        invariant
            k <= headers.len(),
            headers@ == old(headers)@,
            all == headers_view(headers@),
            header_position(all, name@, 0) == header_position(all, name@, k as int),
        decreases headers.len() - k,
    {
        assert(all[k as int].0 == headers@[k as int].0@);
        if headers[k].0 == name {
            headers.set(k, (name, held));
            assert(headers_view(headers@) =~= all.update(k as int, (name@, (held.value@, held.disabled))));
            return ;
        }
        k += 1;
    }
    headers.push((name, held));
    assert(headers_view(headers@) =~= all.push((name@, (held.value@, held.disabled))));
}

/// The headers that the named values which carry credentials add, each
/// enabled; `colons` says whether names lose their colons.
pub open spec fn with_credentials(
    headers: Seq<(Seq<char>, (Seq<char>, bool))>,
    values: Seq<NameValue>,
    colons: bool,
) -> Seq<(Seq<char>, (Seq<char>, bool))>
    decreases values.len(),
{
    if values.len() == 0 {
        headers
    } else {
        let head = with_credentials(headers, values.drop_last(), colons);
        let v = values.last();
        if auth_related(v.name@) {
            with_header(
                head,
                if colons {
                    header_name(v.name@)
                } else {
                    v.name@
                },
                header_value(v.value@),
            )
        } else {
            head
        }
    }
}

/// Credentials added to headers whose names stand apart leave them apart.
pub proof fn lemma_with_credentials_distinct(
    headers: Seq<(Seq<char>, (Seq<char>, bool))>,
    values: Seq<NameValue>,
    colons: bool,
)
    requires
        distinct_headers(headers),
    ensures
        distinct_headers(with_credentials(headers, values, colons)),
    decreases values.len(),
{
    if values.len() > 0 {
        lemma_with_credentials_distinct(headers, values.drop_last(), colons);
        let head = with_credentials(headers, values.drop_last(), colons);
        let v = values.last();
        if auth_related(v.name@) {
            lemma_with_header_distinct(
                head,
                if colons {
                    header_name(v.name@)
                } else {
                    v.name@
                },
                header_value(v.value@),
            );
        }
    }
}

/// The credentials of a recorded request: its headers that carry credentials,
/// under their names without colons, then its cookies that do, under their
/// names; a later value of a name replaces an earlier one.
pub open spec fn credentials(request: ExchangeRequest) -> Seq<(Seq<char>, (Seq<char>, bool))> {
    with_credentials(
        with_credentials(Seq::empty(), request.headers@, true),
        request.cookies@,
        false,
    )
}

fn add_credentials(out: &mut Vec<(String, AuthHeaderValue)>, values: &Vec<NameValue>, colons: bool)
    ensures
        headers_view(final(out)@) == with_credentials(headers_view(old(out)@), values@, colons),
{
    let ghost start = headers_view(out@);
    let ghost all = values@;
    let mut k: usize = 0;
    while k < values.len()
        invariant
            k <= values.len(),
            all == values@,
            headers_view(out@) == with_credentials(start, all.take(k as int), colons),
        decreases values.len() - k,
    {
        proof {
            let now = all.take(k + 1);
            assert(now.drop_last() =~= all.take(k as int));
            assert(now.last() == all[k as int]);
        }
        if is_auth_related_header(&values[k].name) {
            let name = if colons {
                resolve_header_name(&values[k].name)
            } else {
                values[k].name.clone()
            };
            set_header(out, name, AuthHeaderValue { value: values[k].value.clone(), disabled: false });
        }
        k += 1;
    }
    assert(all.take(values.len() as int) =~= all);
}

/// The credentials of a recorded request hold each name once.
pub proof fn lemma_credentials_distinct(request: ExchangeRequest)
    ensures
        distinct_headers(credentials(request)),
{
    lemma_with_credentials_distinct(Seq::empty(), request.headers@, true);
    lemma_with_credentials_distinct(
        with_credentials(Seq::empty(), request.headers@, true),
        request.cookies@,
        false,
    );
}

/// The credentials of a recorded request, each name once.
pub fn build_auth_headers(request: &ExchangeRequest) -> (r: Vec<(String, AuthHeaderValue)>)
    ensures
        headers_view(r@) == credentials(*request),
        distinct_headers(headers_view(r@)),
{
    proof {
        lemma_credentials_distinct(*request);
    }
    let mut out: Vec<(String, AuthHeaderValue)> = Vec::new();
    assert(headers_view(out@) =~= Seq::<(Seq<char>, (Seq<char>, bool))>::empty());
    add_credentials(&mut out, &request.headers, true);
    add_credentials(&mut out, &request.cookies, false);
    out
}

/// The content type of a recorded request: that of its body.
pub fn resolve_mime_type(exchange: &Exchange) -> (r: Option<String>)
    ensures
        crate::model::text_of(r) == match exchange.request.post_data {
            Some(body) => Some(body.mime_type@),
            None => None,
        },
{
    match &exchange.request.post_data {
        Some(body) => Some(body.mime_type.clone()),
        None => None,
    }
}

/// The action that the exchange at position `order` becomes.
pub fn build_action(
    order: usize,
    test_case: &TestCase,
    exchange: &Exchange,
    response_indexes: &Vec<FlattenedIndex>,
) -> (r: Action)
    ensures
        r.customer_id@ == test_case.customer_id@,
        r.test_case_id@ == test_case.id@,
        r.order == order,
        r.name@ == action_name(order as nat, exchange.request.url@),
        r.url@ == templated_url(order as nat, exchange.request.url@, indexes_view(response_indexes@)),
        r.method@ == exchange.request.method@,
        crate::model::text_of(r.mime_type) == match exchange.request.post_data {
            Some(body) => Some(body.mime_type@),
            None => None,
        },
        r.created_at is None,
        r.updated_at is None,
{
    Action {
        customer_id: test_case.customer_id.clone(),
        test_case_id: test_case.id.clone(),
        id: new_id(),
        order,
        url: build_url_without_query_params(order, &exchange.request.url, response_indexes),
        name: build_action_name_from_url(order, &exchange.request.url),
        mime_type: resolve_mime_type(exchange),
        method: exchange.request.method.clone(),
        created_at: None,
        updated_at: None,
    }
}


/// Headers as names with what they hold.
pub type Headers = Seq<(Seq<char>, (Seq<char>, bool))>;

/// The headers after each of `more` has been given its value, in order.
pub open spec fn with_all(headers: Headers, more: Headers) -> Headers
    decreases more.len(),
{
    if more.len() == 0 {
        headers
    } else {
        with_header(with_all(headers, more.drop_last()), more.last().0, more.last().1)
    }
}

/// The position of the first existing provider for a base address.
pub open spec fn provider_for(existing: Seq<AuthenticationProvider>, base: Seq<char>, from: int) -> Option<
    int,
>
    decreases existing.len() - from,
{
    if from < 0 || from >= existing.len() {
        None
    } else if existing[from].base_url@ == base {
        Some(from)
    } else {
        provider_for(existing, base, from + 1)
    }
}

/// The position of the group of a base address.
pub open spec fn group_position(groups: Seq<(Seq<char>, Headers)>, base: Seq<char>, from: int) -> Option<
    int,
>
    decreases groups.len() - from,
{
    if from < 0 || from >= groups.len() {
        None
    } else if groups[from].0 == base {
        Some(from)
    } else {
        group_position(groups, base, from + 1)
    }
}

/// The groups after the credentials of one request have been added to the
/// group of its base address; a base address without a group gets one, last.
pub open spec fn with_group(groups: Seq<(Seq<char>, Headers)>, base: Seq<char>, more: Headers) -> Seq<
    (Seq<char>, Headers),
> {
    match group_position(groups, base, 0) {
        Some(i) => groups.update(i, (base, with_all(groups[i].1, more))),
        None => groups.push((base, with_all(Seq::empty(), more))),
    }
}

/// Headers added to headers whose names stand apart leave them apart.
pub proof fn lemma_with_all_distinct(headers: Headers, more: Headers)
    requires
        distinct_headers(headers),
    ensures
        distinct_headers(with_all(headers, more)),
    decreases more.len(),
{
    if more.len() > 0 {
        lemma_with_all_distinct(headers, more.drop_last());
        lemma_with_header_distinct(
            with_all(headers, more.drop_last()),
            more.last().0,
            more.last().1,
        );
    }
}

/// Each group holds each header name once.
pub open spec fn distinct_in_groups(groups: Seq<(Seq<char>, Headers)>) -> bool {
    forall|i: int| 0 <= i < groups.len() ==> distinct_headers((#[trigger] groups[i]).1)
}

/// The groups of credentials hold each header name once.
pub proof fn lemma_credential_groups_distinct(
    exchanges: Seq<Exchange>,
    existing: Seq<AuthenticationProvider>,
)
    ensures
        distinct_in_groups(credential_groups(exchanges, existing)),
    decreases exchanges.len(),
{
    if exchanges.len() > 0 {
        lemma_credential_groups_distinct(exchanges.drop_last(), existing);
        let head = credential_groups(exchanges.drop_last(), existing);
        let base = base_url_of(exchanges.last().request.url@);
        let more = credentials(exchanges.last().request);
        if provider_for(existing, base, 0) is None {
            let after = with_group(head, base, more);
            assert forall|i: int| 0 <= i < after.len() implies distinct_headers(
                (#[trigger] after[i]).1,
            ) by {
                match group_position(head, base, 0) {
                    Some(p) => {
                        lemma_group_position(head, base, 0);
                        if i == p {
                            lemma_with_all_distinct(head[p].1, more);
                        } else {
                            assert(after[i] == head[i]);
                        }
                    },
                    None => {
                        if i < head.len() {
                            assert(after[i] == head[i]);
                        } else {
                            lemma_with_all_distinct(Seq::empty(), more);
                        }
                    },
                }
            }
        }
    }
}

/// What `group_position` finds lies among the groups.
pub proof fn lemma_group_position(groups: Seq<(Seq<char>, Headers)>, base: Seq<char>, from: int)
    requires
        0 <= from,
    ensures
        match group_position(groups, base, from) {
            Some(i) => from <= i < groups.len() && groups[i].0 == base,
            None => true,
        },
    decreases groups.len() - from,
{
    if from < groups.len() && groups[from].0 != base {
        lemma_group_position(groups, base, from + 1);
    }
}

/// A provider made for a group that holds each header name once is well
/// formed.
pub proof fn lemma_provides_well_formed(
    provider: AuthenticationProvider,
    test_case: TestCase,
    group: (Seq<char>, Headers),
)
    requires
        provides(provider, test_case, group),
        distinct_headers(group.1),
    ensures
        provider.wf(),
{
    let held = headers_view(provider.headers_by_name@);
    assert forall|i: int, j: int|
        0 <= i < j < provider.headers_by_name@.len() implies (
    #[trigger] provider.headers_by_name@[i]).0@ != (#[trigger] provider.headers_by_name@[j]).0@ by {
        assert(held[i].0 == provider.headers_by_name@[i].0@);
        assert(held[j].0 == provider.headers_by_name@[j].0@);
    }
}

/// The credentials of the exchanges by base address, for the base addresses
/// that no existing provider serves.
pub open spec fn credential_groups(
    exchanges: Seq<Exchange>,
    existing: Seq<AuthenticationProvider>,
) -> Seq<(Seq<char>, Headers)>
    decreases exchanges.len(),
{
    if exchanges.len() == 0 {
        Seq::empty()
    } else {
        let head = credential_groups(exchanges.drop_last(), existing);
        let base = base_url_of(exchanges.last().request.url@);
        if provider_for(existing, base, 0) is Some {
            head
        } else {
            with_group(head, base, credentials(exchanges.last().request))
        }
    }
}

/// The ids of the existing providers that the test case is linked to: for each
/// exchange whose base address an existing provider serves, the first such
/// provider.
pub open spec fn provider_links(exchanges: Seq<Exchange>, existing: Seq<AuthenticationProvider>) -> Seq<
    Seq<char>,
>
    decreases exchanges.len(),
{
    if exchanges.len() == 0 {
        Seq::empty()
    } else {
        let head = provider_links(exchanges.drop_last(), existing);
        match provider_for(existing, base_url_of(exchanges.last().request.url@), 0) {
            Some(i) => head.push(existing[i].id@),
            None => head,
        }
    }
}

fn find_provider(existing: &Vec<AuthenticationProvider>, base: &String) -> (r: Option<usize>)
    ensures
        match r {
            Some(i) => provider_for(existing@, base@, 0) == Some(i as int) && i < existing.len(),
            None => provider_for(existing@, base@, 0) is None,
        },
{
    let mut k: usize = 0;
    while k < existing.len()
        invariant
            k <= existing.len(),
            provider_for(existing@, base@, 0) == provider_for(existing@, base@, k as int),
        decreases existing.len() - k,
    {
        if existing[k].base_url == *base {
            return Some(k);
        }
        k += 1;
    }
    None
}

/// The groups that a vector holds.
pub open spec fn groups_view(groups: Seq<(String, Vec<(String, AuthHeaderValue)>)>) -> Seq<
    (Seq<char>, Headers),
> {
    Seq::new(groups.len(), |i: int| (groups[i].0@, headers_view(groups[i].1@)))
}

fn add_all(out: &mut Vec<(String, AuthHeaderValue)>, more: &Vec<(String, AuthHeaderValue)>)
    ensures
        headers_view(final(out)@) == with_all(headers_view(old(out)@), headers_view(more@)),
{
    let ghost start = headers_view(out@);
    let ghost all = headers_view(more@);
    let mut k: usize = 0;
    while k < more.len()
        invariant
            k <= more.len(),
            all == headers_view(more@),
            headers_view(out@) == with_all(start, all.take(k as int)),
        decreases more.len() - k,
    {
        proof {
            let now = all.take(k + 1);
            assert(now.drop_last() =~= all.take(k as int));
            assert(now.last() == all[k as int]);
        }
        set_header(out, more[k].0.clone(), more[k].1.clone());
        k += 1;
    }
    assert(all.take(more.len() as int) =~= all);
}

fn add_to_group(
    groups: &mut Vec<(String, Vec<(String, AuthHeaderValue)>)>,
    base: String,
    more: &Vec<(String, AuthHeaderValue)>,
)
    ensures
        groups_view(final(groups)@) == with_group(
            groups_view(old(groups)@),
            base@,
            headers_view(more@),
        ),
{
    let ghost all = groups_view(groups@);
    let mut k: usize = 0;
    while k < groups.len()
        invariant
            k <= groups.len(),
            groups@ == old(groups)@,
            all == groups_view(groups@),
            group_position(all, base@, 0) == group_position(all, base@, k as int),
        decreases groups.len() - k,
    {
        assert(all[k as int].0 == groups@[k as int].0@);
        if groups[k].0 == base {
            let (name, mut held) = groups.remove(k);
            add_all(&mut held, more);
            groups.insert(k, (name, held));
            assert(groups_view(groups@) =~= all.update(
                k as int,
                (base@, with_all(all[k as int].1, headers_view(more@))),
            ));
            return ;
        }
        k += 1;
    }
    let mut held: Vec<(String, AuthHeaderValue)> = Vec::new();
    assert(headers_view(held@) =~= Seq::<(Seq<char>, (Seq<char>, bool))>::empty());
    add_all(&mut held, more);
    groups.push((base, held));
    assert(groups_view(groups@) =~= all.push(
        (base@, with_all(Seq::empty(), headers_view(more@))),
    ));
}

/// A provider made for a group of credentials says what the group says, for
/// this test case.
pub open spec fn provides(
    provider: AuthenticationProvider,
    test_case: TestCase,
    group: (Seq<char>, Headers),
) -> bool {
    &&& provider.customer_id@ == test_case.customer_id@
    &&& provider.name@ == auth_name(group.0)
    &&& provider.base_url@ == group.0
    &&& headers_view(provider.headers_by_name@) == group.1
    &&& provider.linked_test_case_ids@.len() == 1
    &&& provider.linked_test_case_ids@[0]@ == test_case.id@
    &&& provider.created_at is None
    &&& provider.updated_at is None
}

/// The providers to create for a new test case: one for each group of
/// credentials, linked to the test case.
pub fn create_auth_providers(
    created_test_case: &TestCase,
    auth_headers_by_base_url: Vec<(String, Vec<(String, AuthHeaderValue)>)>,
) -> (r: Vec<AuthenticationProvider>)
    ensures
        r.len() == auth_headers_by_base_url.len(),
        forall|i: int|
            0 <= i < r.len() ==> provides(
                #[trigger] r@[i],
                *created_test_case,
                groups_view(auth_headers_by_base_url@)[i],
            ),
        distinct_in_groups(groups_view(auth_headers_by_base_url@)) ==> forall|i: int|
            0 <= i < r.len() ==> (#[trigger] r@[i]).wf(),
{
    proof {
        if distinct_in_groups(groups_view(auth_headers_by_base_url@)) {
            assert forall|i: int, p: AuthenticationProvider|
                0 <= i < auth_headers_by_base_url.len() && provides(
                    p,
                    *created_test_case,
                    #[trigger] groups_view(auth_headers_by_base_url@)[i],
                ) implies #[trigger] p.wf() by {
                lemma_provides_well_formed(
                    p,
                    *created_test_case,
                    groups_view(auth_headers_by_base_url@)[i],
                );
            }
        }
    }
    let mut groups = auth_headers_by_base_url;
    let ghost all = groups_view(groups@);
    let mut out: Vec<AuthenticationProvider> = Vec::new();
    while groups.len() > 0
        invariant
            out.len() + groups.len() == all.len(),
            forall|i: int|
                0 <= i < groups.len() ==> #[trigger] groups_view(groups@)[i] == all[out.len() + i],
            forall|i: int|
                0 <= i < out.len() ==> provides(#[trigger] out@[i], *created_test_case, all[i]),
        decreases groups.len(),
    {
        let ghost before_groups = groups_view(groups@);
        let (base, headers) = groups.remove(0);
        assert(before_groups[0] == (base@, headers_view(headers@)));
        assert forall|i: int| 0 <= i < groups.len() implies #[trigger] groups_view(groups@)[i]
            == all[out.len() + 1 + i] by {
            assert(groups_view(groups@)[i] == before_groups[i + 1]);
        }
        let mut linked: Vec<String> = Vec::new();
        linked.push(created_test_case.id.clone());
        out.push(
            AuthenticationProvider {
                customer_id: created_test_case.customer_id.clone(),
                id: new_id(),
                name: build_auth_name_from_url(&base),
                base_url: base,
                headers_by_name: headers,
                linked_test_case_ids: linked,
                created_at: None,
                updated_at: None,
            },
        );
    }
    out
}


/// What the inference makes of a capture: the actions with their parameters
/// and assertions, position by position, the existing providers to link the
/// test case to, and the providers to create.
#[derive(Debug)]
pub struct InferencePlan {
    pub actions: Vec<Action>,
    pub input_parameters: Vec<Vec<Parameter>>,
    pub output_parameters: Vec<Vec<Parameter>>,
    pub assertions: Vec<Vec<Assertion>>,
    pub links: Vec<String>,
    pub providers: Vec<AuthenticationProvider>,
}

/// The response indexes of all exchanges, by position.
pub open spec fn response_indexes_of(exchanges: Seq<Exchange>) -> Seq<Seq<(Seq<char>, Json)>> {
    Seq::new(exchanges.len(), |j: int| response_index(j as nat, exchanges[j]))
}

/// The request indexes of all exchanges, by position.
pub open spec fn request_indexes_of(exchanges: Seq<Exchange>) -> Seq<Seq<(Seq<char>, Json)>> {
    Seq::new(exchanges.len(), |j: int| request_index(j as nat, exchanges[j]))
}

/// An action is what the exchange at position `order` becomes.
pub open spec fn is_action_of(
    action: Action,
    order: nat,
    test_case: TestCase,
    exchange: Exchange,
    responses: Seq<Seq<(Seq<char>, Json)>>,
) -> bool {
    &&& action.customer_id@ == test_case.customer_id@
    &&& action.test_case_id@ == test_case.id@
    &&& action.order == order
    &&& action.name@ == action_name(order, exchange.request.url@)
    &&& action.url@ == templated_url(order, exchange.request.url@, responses)
    &&& action.method@ == exchange.request.method@
    &&& crate::model::text_of(action.mime_type) == match exchange.request.post_data {
        Some(body) => Some(body.mime_type@),
        None => None,
    }
    &&& action.created_at is None
    &&& action.updated_at is None
}

/// The texts that a vector of strings holds.
pub open spec fn texts(all: Seq<String>) -> Seq<Seq<char>> {
    Seq::new(all.len(), |i: int| all[i]@)
}

/// A plan is what the inference makes of these exchanges.
pub open spec fn is_plan_of(
    plan: InferencePlan,
    test_case: TestCase,
    exchanges: Seq<Exchange>,
    existing: Seq<AuthenticationProvider>,
) -> bool {
    let responses = response_indexes_of(exchanges);
    let requests = request_indexes_of(exchanges);
    &&& plan.actions.len() == exchanges.len()
    &&& plan.input_parameters.len() == exchanges.len()
    &&& plan.output_parameters.len() == exchanges.len()
    &&& plan.assertions.len() == exchanges.len()
    &&& forall|i: int|
        0 <= i < exchanges.len() ==> {
            let action = #[trigger] plan.actions@[i];
            &&& is_action_of(action, i as nat, test_case, exchanges[i], responses)
            &&& parameters_view(plan.input_parameters@[i]@) == action_input(
                owner_of(action),
                action.name@,
                exchanges[i].request,
                responses,
            )
            &&& parameters_view(plan.output_parameters@[i]@) == action_output(
                owner_of(action),
                action.name@,
                exchanges[i],
            )
            &&& assertions_view(plan.assertions@[i]@) == action_assertions(
                owner_of(action),
                requests,
                responses,
            )
        }
    &&& texts(plan.links@) == provider_links(exchanges, existing)
    &&& plan.providers.len() == credential_groups(exchanges, existing).len()
    &&& forall|i: int|
        0 <= i < plan.providers.len() ==> provides(
            #[trigger] plan.providers@[i],
            test_case,
            credential_groups(exchanges, existing)[i],
        )
}

/// Reads the exchanges of a capture as a test case. Each exchange becomes the
/// action at its position; its inputs and its address are resolved against
/// the responses of the exchanges before it, and its assertions against the
/// requests before it. Credentials go to the existing provider of their base
/// address, or into a new provider for it.
pub fn build_test_case(
    created_test_case: &TestCase,
    entries: &Vec<&Exchange>,
    existing_auth_providers: &Vec<AuthenticationProvider>,
) -> (r: InferencePlan)
    ensures
        is_plan_of(r, *created_test_case, pointed(entries@), existing_auth_providers@),
        forall|i: int| 0 <= i < r.providers.len() ==> (#[trigger] r.providers@[i]).wf(),
{
    let ghost exchanges = pointed(entries@);
    let ghost existing = existing_auth_providers@;
    let ghost responses = response_indexes_of(exchanges);
    let ghost requests = request_indexes_of(exchanges);
    let mut response_indexes: Vec<FlattenedIndex> = Vec::new();
    let mut request_indexes: Vec<FlattenedIndex> = Vec::new();
    let mut j: usize = 0;
    assert(indexes_view(response_indexes@) =~= responses.take(0));
    assert(indexes_view(request_indexes@) =~= requests.take(0));
    while j < entries.len()
        invariant
            j <= entries.len(),
            exchanges == pointed(entries@),
            responses == response_indexes_of(exchanges),
            requests == request_indexes_of(exchanges),
            exchanges.len() == entries.len(),
            indexes_view(response_indexes@) == responses.take(j as int),
            indexes_view(request_indexes@) == requests.take(j as int),
        decreases entries.len() - j,
    {
        assert(exchanges[j as int] == *entries@[j as int]);
        let response = build_response_index(j, entries[j]);
        let request = build_request_index(j, entries[j]);
        proof {
            assert(response@ == responses[j as int]);
            assert(request@ == requests[j as int]);
            assert(indexes_view(response_indexes@.push(response)) =~= indexes_view(
                response_indexes@,
            ).push(response@));
            assert(indexes_view(request_indexes@.push(request)) =~= indexes_view(
                request_indexes@,
            ).push(request@));
            assert(responses.take(j as int).push(responses[j as int]) =~= responses.take(j + 1));
            assert(requests.take(j as int).push(requests[j as int]) =~= requests.take(j + 1));
        }
        response_indexes.push(response);
        request_indexes.push(request);
        j += 1;
    }
    assert(responses.take(entries.len() as int) =~= responses);
    assert(requests.take(entries.len() as int) =~= requests);
    let mut plan = InferencePlan {
        actions: Vec::new(),
        input_parameters: Vec::new(),
        output_parameters: Vec::new(),
        assertions: Vec::new(),
        links: Vec::new(),
        providers: Vec::new(),
    };
    let mut groups: Vec<(String, Vec<(String, AuthHeaderValue)>)> = Vec::new();
    let ghost existing = existing_auth_providers@;
    assert(texts(plan.links@) =~= provider_links(exchanges.take(0), existing));
    assert(groups_view(groups@) =~= credential_groups(exchanges.take(0), existing));
    let mut i: usize = 0;
    while i < entries.len()
        invariant
            i <= entries.len(),
            exchanges == pointed(entries@),
            exchanges.len() == entries.len(),
            responses == response_indexes_of(exchanges),
            requests == request_indexes_of(exchanges),
            indexes_view(response_indexes@) == responses,
            indexes_view(request_indexes@) == requests,
            existing == existing_auth_providers@,
            plan.actions.len() == i,
            plan.input_parameters.len() == i,
            plan.output_parameters.len() == i,
            plan.assertions.len() == i,
            plan.providers.len() == 0,
            forall|k: int|
                0 <= k < i ==> {
                    let action = #[trigger] plan.actions@[k];
                    &&& is_action_of(action, k as nat, *created_test_case, exchanges[k], responses)
                    &&& parameters_view(plan.input_parameters@[k]@) == action_input(
                        owner_of(action),
                        action.name@,
                        exchanges[k].request,
                        responses,
                    )
                    &&& parameters_view(plan.output_parameters@[k]@) == action_output(
                        owner_of(action),
                        action.name@,
                        exchanges[k],
                    )
                    &&& assertions_view(plan.assertions@[k]@) == action_assertions(
                        owner_of(action),
                        requests,
                        responses,
                    )
                },
            texts(plan.links@) == provider_links(exchanges.take(i as int), existing),
            groups_view(groups@) == credential_groups(exchanges.take(i as int), existing),
        decreases entries.len() - i,
    {
        let current = entries[i];
        proof {
            assert(exchanges[i as int] == *current);
            let now = exchanges.take(i + 1);
            assert(now.drop_last() =~= exchanges.take(i as int));
            assert(now.last() == exchanges[i as int]);
        }
        let action = build_action(i, created_test_case, current, &response_indexes);
        let inputs = build_action_input(&action, &current.request, &response_indexes);
        let outputs = build_output_parameters(&action, current);
        let assertions = build_assertions(&action, &request_indexes, &response_indexes);
        let base_url = obtain_base_url(current.request.url.as_str());
        match find_provider(existing_auth_providers, &base_url) {
            Some(p) => {
                let id = existing_auth_providers[p].id.clone();
                assert(texts(plan.links@.push(id)) =~= texts(plan.links@).push(id@));
                plan.links.push(id);
            },
            None => {
                let headers = build_auth_headers(&current.request);
                add_to_group(&mut groups, base_url, &headers);
            },
        }
        plan.actions.push(action);
        plan.input_parameters.push(inputs);
        plan.output_parameters.push(outputs);
        plan.assertions.push(assertions);
        i += 1;
    }
    assert(exchanges.take(entries.len() as int) =~= exchanges);
    plan.providers = create_auth_providers(created_test_case, groups);
    proof {
        lemma_plan_providers_well_formed(plan, *created_test_case, exchanges, existing);
    }
    plan
}

/// The providers that a plan creates are well formed.
pub proof fn lemma_plan_providers_well_formed(
    plan: InferencePlan,
    test_case: TestCase,
    exchanges: Seq<Exchange>,
    existing: Seq<AuthenticationProvider>,
)
    requires
        is_plan_of(plan, test_case, exchanges, existing),
    ensures
        forall|i: int| 0 <= i < plan.providers.len() ==> (#[trigger] plan.providers@[i]).wf(),
{
    lemma_credential_groups_distinct(exchanges, existing);
    let groups = credential_groups(exchanges, existing);
    assert forall|i: int| 0 <= i < plan.providers.len() implies (#[trigger] plan.providers@[i]).wf() by {
        assert(distinct_headers(groups[i].1));
        lemma_provides_well_formed(plan.providers@[i], test_case, groups[i]);
    }
}

} // verus!
