//! What the store is asked: the keys of each kind of entity, the deletions that
//! follow from a deletion, and how large writes are cut into batches.

use crate::model::{
    Action, ActionExecution, AuthenticationProvider, Parameter, ParameterIn, ParameterLocation,
    ParameterType, Run, TestCase,
};
use crate::assertion::Assertion;
use crate::text::{extend_chars, from_chars, join, join_parts, lines, to_chars};
use vstd::prelude::*;
use vstd::string::StringExecFns;

verus! {

/// The texts that a vector of strings holds.
pub open spec fn key_parts(keys: Seq<String>) -> Seq<Seq<char>> {
    Seq::new(keys.len(), |i: int| keys[i]@)
}

/// A key of several parts: the parts joined by `#`.
pub open spec fn composite(parts: Seq<Seq<char>>) -> Seq<char> {
    join(parts, "#"@)
}

/// A key of several parts.
pub fn build_composite_key(keys: Vec<String>) -> (r: String)
    ensures
        r@ == composite(key_parts(keys@)),
{
    let mut parts: Vec<Vec<char>> = Vec::new();
    let mut k: usize = 0;
    assert(lines(parts@) =~= key_parts(keys@).take(0));
    while k < keys.len()
        invariant
            k <= keys.len(),
            lines(parts@) == key_parts(keys@).take(k as int),
        decreases keys.len() - k,
    {
        let part = to_chars(keys[k].as_str());
        assert(lines(parts@.push(part)) =~= lines(parts@).push(part@));
        assert(lines(parts@).push(part@) =~= key_parts(keys@).take(k + 1));
        parts.push(part);
        k += 1;
    }
    assert(key_parts(keys@).take(keys.len() as int) =~= key_parts(keys@));
    from_chars(&join_parts(&parts, &to_chars("#")))
}

/// The word for a kind of parameter.
pub open spec fn type_word(t: ParameterType) -> Seq<char> {
    match t {
        ParameterType::Input => "input"@,
        ParameterType::Output => "output"@,
    }
}

/// The word for a kind of parameter.
pub fn parameter_type_to_str(parameter_type: &ParameterType) -> (r: &'static str)
    ensures
        r@ == type_word(*parameter_type),
{
    match parameter_type {
        ParameterType::Input => "input",
        ParameterType::Output => "output",
    }
}

/// The word for a part of a request.
pub open spec fn part_word(p: ParameterIn) -> Seq<char> {
    match p {
        ParameterIn::Header => "header"@,
        ParameterIn::Cookie => "cookie"@,
        ParameterIn::Body => "body"@,
        ParameterIn::Query => "query"@,
    }
}

/// The word for a part of a request.
pub fn parameter_in_to_str(parameter_in: &ParameterIn) -> (r: String)
    ensures
        r@ == part_word(*parameter_in),
{
    match parameter_in {
        ParameterIn::Header => String::from_str("header"),
        ParameterIn::Cookie => String::from_str("cookie"),
        ParameterIn::Body => String::from_str("body"),
        ParameterIn::Query => String::from_str("query"),
    }
}

/// The word for the part in which a parameter lies, and its name or path.
pub fn extract_location_tuple(entity: &Parameter) -> (r: (String, String))
    ensures
        r.0@ == part_word(entity.location.part()),
        r.1@ == entity.location.path(),
{
    match &entity.location {
        ParameterLocation::Header(name) => (String::from_str("header"), name.clone()),
        ParameterLocation::Cookie(name) => (String::from_str("cookie"), name.clone()),
        ParameterLocation::Query(name) => (String::from_str("query"), name.clone()),
        ParameterLocation::Body(name) => (String::from_str("body"), name.clone()),
    }
}

/// The kinds of entity that the store holds.
#[derive(Clone, Copy, Debug, PartialEq, Eq, Structural)]
pub enum EntityKind {
    TestCase,
    Action,
    Parameter,
    Assertion,
    Run,
    ActionExecution,
    AuthenticationProvider,
}

/// The key of one record: its partition and its place in the partition.
#[derive(Debug)]
pub struct RecordKey {
    pub partition_key: String,
    pub sort_key: String,
}

/// The name of the table of a kind.
pub open spec fn table_of(kind: EntityKind) -> Seq<char> {
    match kind {
        EntityKind::TestCase => "test_cases"@,
        EntityKind::Action => "actions"@,
        EntityKind::Parameter => "parameters"@,
        EntityKind::Assertion => "assertions"@,
        EntityKind::Run => "runs"@,
        EntityKind::ActionExecution => "action_executions"@,
        EntityKind::AuthenticationProvider => "authentication_providers"@,
    }
}

/// The name of the partition key of a kind.
pub open spec fn partition_name_of(kind: EntityKind) -> Seq<char> {
    match kind {
        EntityKind::TestCase => "customer_id"@,
        EntityKind::AuthenticationProvider => "customer_id"@,
        EntityKind::ActionExecution => "customer_id#test_case_id#run_id"@,
        _ => "customer_id#test_case_id"@,
    }
}

/// The name of the sort key of a kind.
pub open spec fn sort_name_of(kind: EntityKind) -> Seq<char> {
    match kind {
        EntityKind::Parameter => "action_id#id"@,
        _ => "id"@,
    }
}

impl EntityKind {
    /// The name of the table of this kind.
    pub fn table_name(&self) -> (r: String)
        ensures
            r@ == table_of(*self),
    {
        match self {
            EntityKind::TestCase => String::from_str("test_cases"),
            EntityKind::Action => String::from_str("actions"),
            EntityKind::Parameter => String::from_str("parameters"),
            EntityKind::Assertion => String::from_str("assertions"),
            EntityKind::Run => String::from_str("runs"),
            EntityKind::ActionExecution => String::from_str("action_executions"),
            EntityKind::AuthenticationProvider => String::from_str("authentication_providers"),
        }
    }

    /// The name of the partition key of this kind.
    pub fn partition_key_name(&self) -> (r: String)
        ensures
            r@ == partition_name_of(*self),
    {
        match self {
            EntityKind::TestCase => String::from_str("customer_id"),
            EntityKind::AuthenticationProvider => String::from_str("customer_id"),
            EntityKind::ActionExecution => String::from_str("customer_id#test_case_id#run_id"),
            _ => String::from_str("customer_id#test_case_id"),
        }
    }

    /// The name of the sort key of this kind.
    pub fn sort_key_name(&self) -> (r: String)
        ensures
            r@ == sort_name_of(*self),
    {
        match self {
            EntityKind::Parameter => String::from_str("action_id#id"),
            _ => String::from_str("id"),
        }
    }
}

fn pair_key(a: &String, b: &String) -> (r: String)
    ensures
        r@ == composite(seq![a@, b@]),
{
    let mut keys: Vec<String> = Vec::new();
    keys.push(a.clone());
    keys.push(b.clone());
    assert(key_parts(keys@) =~= seq![a@, b@]);
    build_composite_key(keys)
}

fn triple_key(a: &String, b: &String, c: &String) -> (r: String)
    ensures
        r@ == composite(seq![a@, b@, c@]),
{
    let mut keys: Vec<String> = Vec::new();
    keys.push(a.clone());
    keys.push(b.clone());
    keys.push(c.clone());
    assert(key_parts(keys@) =~= seq![a@, b@, c@]);
    build_composite_key(keys)
}

/// The key of a test case: its customer, then its id.
pub fn test_case_key(entity: &TestCase) -> (r: RecordKey)
    ensures
        r.partition_key@ == entity.customer_id@,
        r.sort_key@ == entity.id@,
{
    RecordKey { partition_key: entity.customer_id.clone(), sort_key: entity.id.clone() }
}

/// The key of an action: its customer and test case, then its id.
pub fn action_key(entity: &Action) -> (r: RecordKey)
    ensures
        r.partition_key@ == composite(seq![entity.customer_id@, entity.test_case_id@]),
        r.sort_key@ == entity.id@,
{
    RecordKey {
        partition_key: pair_key(&entity.customer_id, &entity.test_case_id),
        sort_key: entity.id.clone(),
    }
}

/// The key of a parameter: its customer and test case, then its action and id.
pub fn parameter_key(entity: &Parameter) -> (r: RecordKey)
    ensures
        r.partition_key@ == composite(seq![entity.customer_id@, entity.test_case_id@]),
        r.sort_key@ == composite(seq![entity.action_id@, entity.id@]),
{
    RecordKey {
        partition_key: pair_key(&entity.customer_id, &entity.test_case_id),
        sort_key: pair_key(&entity.action_id, &entity.id),
    }
}

/// The key under which parameters are found by where they lie: action, kind
/// and part.
pub fn parameter_location_key(entity: &Parameter) -> (r: String)
    ensures
        r@ == composite(
            seq![
                entity.action_id@,
                type_word(entity.parameter_type),
                part_word(entity.location.part()),
            ],
        ),
{
    let (location, _) = extract_location_tuple(entity);
    triple_key(
        &entity.action_id,
        &String::from_str(parameter_type_to_str(&entity.parameter_type)),
        &location,
    )
}

/// The key under which parameters are found by their path: action, kind and
/// path.
pub fn parameter_path_key(entity: &Parameter) -> (r: String)
    ensures
        r@ == composite(
            seq![entity.action_id@, type_word(entity.parameter_type), entity.location.path()],
        ),
{
    let (_, path) = extract_location_tuple(entity);
    triple_key(
        &entity.action_id,
        &String::from_str(parameter_type_to_str(&entity.parameter_type)),
        &path,
    )
}

/// The key of an assertion: its customer and test case, then its id.
pub fn assertion_key(entity: &Assertion) -> (r: RecordKey)
    ensures
        r.partition_key@ == composite(seq![entity.customer_id@, entity.test_case_id@]),
        r.sort_key@ == entity.id@,
{
    RecordKey {
        partition_key: pair_key(&entity.customer_id, &entity.test_case_id),
        sort_key: entity.id.clone(),
    }
}

/// The key of a run: its customer and test case, then its id.
pub fn run_key(entity: &Run) -> (r: RecordKey)
    ensures
        r.partition_key@ == composite(seq![entity.customer_id@, entity.test_case_id@]),
        r.sort_key@ == entity.id@,
{
    RecordKey {
        partition_key: pair_key(&entity.customer_id, &entity.test_case_id),
        sort_key: entity.id.clone(),
    }
}

/// The key of an execution: its customer, test case and run, then its id.
pub fn action_execution_key(entity: &ActionExecution) -> (r: RecordKey)
    ensures
        r.partition_key@ == composite(
            seq![entity.customer_id@, entity.test_case_id@, entity.run_id@],
        ),
        r.sort_key@ == entity.id@,
{
    RecordKey {
        partition_key: triple_key(&entity.customer_id, &entity.test_case_id, &entity.run_id),
        sort_key: entity.id.clone(),
    }
}

/// The key of a provider: its customer, then its id.
pub fn auth_provider_key(entity: &AuthenticationProvider) -> (r: RecordKey)
    ensures
        r.partition_key@ == entity.customer_id@,
        r.sort_key@ == entity.id@,
{
    RecordKey { partition_key: entity.customer_id.clone(), sort_key: entity.id.clone() }
}

/// What follows from the deletion of one entity.
#[derive(Debug)]
pub enum CascadeStep {
    /// Delete every entity of this kind in this partition.
    DeleteAll { kind: EntityKind, partition_key: String },
    /// Take this test case out of the links of every provider of the customer.
    Unlink { customer_id: String, test_case_id: String },
}

/// The kinds whose entities go when an entity of a kind goes.
pub open spec fn children(kind: EntityKind) -> Seq<EntityKind> {
    match kind {
        EntityKind::TestCase => seq![EntityKind::Action, EntityKind::Run, EntityKind::Assertion],
        EntityKind::Action => seq![EntityKind::Parameter],
        EntityKind::Run => seq![EntityKind::ActionExecution],
        _ => Seq::empty(),
    }
}

/// Whether the deletion of a test case reaches a kind within so many rounds.
pub open spec fn reached(kind: EntityKind, rounds: nat) -> bool
    decreases rounds,
{
    if rounds == 0 {
        kind == EntityKind::TestCase
    } else {
        reached(kind, (rounds - 1) as nat) || exists|parent: EntityKind|
            reached(parent, (rounds - 1) as nat) && children(parent).contains(kind)
    }
}

/// What follows from the deletion of a test case: its actions, runs and
/// assertions go, and the providers let go of it.
pub fn after_test_case_deleted(test_case: &TestCase) -> (r: Vec<CascadeStep>)
    ensures
        r.len() == 4,
        forall|i: int|
            0 <= i < 3 ==> (#[trigger] r@[i]) is DeleteAll && r@[i]->kind == children(
                EntityKind::TestCase,
            )[i] && r@[i]->partition_key@ == composite(seq![test_case.customer_id@, test_case.id@]),
        r@[3] is Unlink && r@[3]->customer_id@ == test_case.customer_id@ && r@[3]->test_case_id@
            == test_case.id@,
{
    let mut out: Vec<CascadeStep> = Vec::new();
    out.push(
        CascadeStep::DeleteAll {
            kind: EntityKind::Action,
            partition_key: pair_key(&test_case.customer_id, &test_case.id),
        },
    );
    out.push(
        CascadeStep::DeleteAll {
            kind: EntityKind::Run,
            partition_key: pair_key(&test_case.customer_id, &test_case.id),
        },
    );
    out.push(
        CascadeStep::DeleteAll {
            kind: EntityKind::Assertion,
            partition_key: pair_key(&test_case.customer_id, &test_case.id),
        },
    );
    out.push(
        CascadeStep::Unlink {
            customer_id: test_case.customer_id.clone(),
            test_case_id: test_case.id.clone(),
        },
    );
    out
}

/// What follows from the deletion of an action: the parameters of its test
/// case go.
pub fn after_action_deleted(action: &Action) -> (r: Vec<CascadeStep>)
    ensures
        r.len() == 1,
        r@[0] is DeleteAll && r@[0]->kind == EntityKind::Parameter && r@[0]->partition_key@
            == composite(seq![action.customer_id@, action.test_case_id@]),
{
    let mut out: Vec<CascadeStep> = Vec::new();
    out.push(
        CascadeStep::DeleteAll {
            kind: EntityKind::Parameter,
            partition_key: pair_key(&action.customer_id, &action.test_case_id),
        },
    );
    out
}

/// What follows from the deletion of a run: its executions go.
pub fn after_run_deleted(run: &Run) -> (r: Vec<CascadeStep>)
    ensures
        r.len() == 1,
        r@[0] is DeleteAll && r@[0]->kind == EntityKind::ActionExecution && r@[0]->partition_key@
            == composite(seq![run.customer_id@, run.test_case_id@, run.id@]),
{
    let mut out: Vec<CascadeStep> = Vec::new();
    out.push(
        CascadeStep::DeleteAll {
            kind: EntityKind::ActionExecution,
            partition_key: triple_key(&run.customer_id, &run.test_case_id, &run.id),
        },
    );
    out
}

/// The deletion of a test case reaches its actions, parameters, assertions,
/// runs and executions within two rounds, and nothing else.
pub proof fn lemma_cascade_covers(kind: EntityKind)
    ensures
        reached(kind, 2) <==> kind != EntityKind::AuthenticationProvider,
        reached(kind, 3) == reached(kind, 2),
{
    reveal_with_fuel(reached, 4);
    let tc = EntityKind::TestCase;
    assert(reached(tc, 0));
    assert(children(tc)[0] == EntityKind::Action);
    assert(children(tc)[1] == EntityKind::Run);
    assert(children(tc)[2] == EntityKind::Assertion);
    assert(children(EntityKind::Action)[0] == EntityKind::Parameter);
    assert(children(EntityKind::Run)[0] == EntityKind::ActionExecution);
    assert(reached(EntityKind::Action, 1));
    assert(reached(EntityKind::Run, 1));
    assert(reached(EntityKind::Assertion, 1));
    assert(reached(EntityKind::Parameter, 2));
    assert(reached(EntityKind::ActionExecution, 2));
    assert forall|p: EntityKind| !children(p).contains(EntityKind::AuthenticationProvider) by {
        let k = EntityKind::AuthenticationProvider;
        if children(p).contains(k) {
            let i = choose|i: int| 0 <= i < children(p).len() && children(p)[i] == k;
        }
    }
}

/// The largest number of writes that go to the store at once.
pub const BATCH_SIZE: usize = 25;

/// The sizes of the batches into which `count` writes are cut: full batches,
/// then what is left.
pub open spec fn batch_sizes(count: nat) -> Seq<nat>
    decreases count,
{
    if count == 0 {
        Seq::empty()
    } else if count <= 25 {
        seq![count]
    } else {
        seq![25nat] + batch_sizes((count - 25) as nat)
    }
}

/// The bounds of the batches into which `count` writes are cut.
pub fn batch_bounds(count: usize) -> (r: Vec<(usize, usize)>)
    ensures
        r.len() == batch_sizes(count as nat).len(),
        forall|i: int|
            0 <= i < r.len() ==> (#[trigger] r@[i]).0 == 25 * i && r@[i].1 - r@[i].0
                == batch_sizes(count as nat)[i] && r@[i].1 <= count,
{
    let mut out: Vec<(usize, usize)> = Vec::new();
    let mut start: usize = 0;
    while start < count
        invariant
            start <= count,
            start == 25 * out.len() || start == count,
            batch_sizes(count as nat) =~= Seq::new(
                out.len() as nat,
                |i: int| (out@[i].1 - out@[i].0) as nat,
            ) + batch_sizes((count - start) as nat),
            forall|i: int|
                0 <= i < out.len() ==> (#[trigger] out@[i]).0 == 25 * i && out@[i].0 <= out@[i].1
                    <= count,
        decreases count - start,
    {
        assert(start == 25 * out.len());
        let end = if count - start <= 25 {
            count
        } else {
            start + 25
        };
        proof {
            let done = Seq::new(out.len() as nat, |i: int| (out@[i].1 - out@[i].0) as nat);
            let next = out@.push((start, end));
            let more = Seq::new(next.len() as nat, |i: int| (next[i].1 - next[i].0) as nat);
            assert(more =~= done.push((end - start) as nat));
            assert(done.push((end - start) as nat) + batch_sizes((count - end) as nat) =~= done
                + (seq![(end - start) as nat] + batch_sizes((count - end) as nat)));
            if count - start <= 25 {
                assert(batch_sizes(0) =~= Seq::<nat>::empty());
                assert(seq![(count - start) as nat] + Seq::<nat>::empty() =~= seq![
                    (count - start) as nat,
                ]);
            }
        }
        out.push((start, end));
        start = end;
    }
    out
}

/// Whether another page is to be fetched: while a page names a next one and
/// nothing has failed.
pub fn continues(next_page_key: &Option<String>, failed: bool) -> (r: bool)
    ensures
        r == (next_page_key is Some && !failed),
{
    next_page_key.is_some() && !failed
}

/// The update that also records its time: after a `SET` the time is one term
/// more, else it gets a `SET` of its own.
pub open spec fn timed_update(expression: Seq<char>) -> Seq<char> {
    expression + (if crate::text::contains_sub(expression, "SET"@) {
        ","@
    } else {
        " SET"@
    }) + " #updated_at = :updated_at"@
}

/// The update that also records its time.
pub fn with_update_time(update_expression: &String) -> (r: String)
    ensures
        r@ == timed_update(update_expression@),
{
    let mut out = to_chars(update_expression.as_str());
    let has_set = crate::text::contains(&out, &to_chars("SET"));
    extend_chars(&mut out, &to_chars(if has_set { "," } else { " SET" }));
    extend_chars(&mut out, &to_chars(" #updated_at = :updated_at"));
    from_chars(&out)
}

} // verus!
