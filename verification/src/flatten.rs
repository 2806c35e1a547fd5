//! Flattening: a nested document as a list of paths, each with the leaf that it
//! leads to.

use crate::json::{
    distinct_names, lemma_items_view, lemma_members_view, lemma_put_distinct, members_view, put,
    set_member, Json, JsonValue,
};
use crate::text::{decimal, decimal_chars, extend_chars, from_chars, to_chars};
use vstd::prelude::*;

verus! {

/// How the paths of a flattened document begin.
#[derive(Clone, Copy, Debug, PartialEq, Eq, Structural)]
pub enum FlattenKeyPrefixType {
    /// `$.<action>.output.<key>`: what an action produced.
    Output,
    /// `$.<key>`: a request body on its own.
    Input,
    /// `$.<action>.input.<key>`: what an action was sent.
    AssertionExpression,
}

/// The leaves of one document by their paths. `insert` keeps one entry for a
/// path; the entries stand in the order in which their paths first came.
#[derive(Debug)]
pub struct FlattenedIndex {
    pub entries: Vec<(String, JsonValue)>,
}

impl View for FlattenedIndex {
    type V = Seq<(Seq<char>, Json)>;

    open spec fn view(&self) -> Seq<(Seq<char>, Json)> {
        members_view(self.entries@)
    }
}

impl FlattenedIndex {
    /// No path has two entries.
    pub open spec fn wf(&self) -> bool {
        distinct_names(self@)
    }

    /// An index without entries.
    pub fn new() -> (r: Self)
        ensures
            r@ == Seq::<(Seq<char>, Json)>::empty(),
            r.wf(),
    {
        let entries: Vec<(String, JsonValue)> = Vec::new();
        proof {
            lemma_members_view(entries@);
            assert(members_view(entries@) =~= Seq::<(Seq<char>, Json)>::empty());
        }
        FlattenedIndex { entries }
    }

    /// Records `value` under `path`, in place of what stood there.
    pub fn insert(&mut self, path: String, value: JsonValue)
        ensures
            final(self)@ == put(old(self)@, path@, value@),
            old(self).wf() ==> final(self).wf(),
    {
        proof {
            if self.wf() {
                lemma_put_distinct(self@, path@, value@);
            }
        }
        set_member(&mut self.entries, path, value);
    }

    /// The number of entries.
    pub fn len(&self) -> (r: usize)
        ensures
            r == self@.len(),
    {
        proof {
            lemma_members_view(self.entries@);
        }
        self.entries.len()
    }
}

/// The path of a member of the root.
pub open spec fn root_path(style: FlattenKeyPrefixType, action: Seq<char>, key: Seq<char>) -> Seq<
    char,
> {
    match style {
        FlattenKeyPrefixType::Output => "$."@ + action + ".output."@ + key,
        FlattenKeyPrefixType::Input => "$."@ + key,
        FlattenKeyPrefixType::AssertionExpression => "$."@ + action + ".input."@ + key,
    }
}

/// The path of the member `key` of what stands at `prefix`.
pub open spec fn member_path(
    style: FlattenKeyPrefixType,
    action: Seq<char>,
    prefix: Seq<char>,
    key: Seq<char>,
) -> Seq<char> {
    if prefix.len() == 0 {
        root_path(style, action, key)
    } else {
        prefix + "."@ + key
    }
}

/// The path of the item at position `i` of the array at `prefix`.
pub open spec fn item_path(prefix: Seq<char>, i: nat) -> Seq<char> {
    prefix + "["@ + decimal(i) + "]"@
}

/// The index after the leaves of `value`, which stands at `prefix`, have been
/// recorded in document order. Containers are walked, never recorded.
pub open spec fn flatten_into(
    style: FlattenKeyPrefixType,
    action: Seq<char>,
    value: Json,
    prefix: Seq<char>,
    index: Seq<(Seq<char>, Json)>,
) -> Seq<(Seq<char>, Json)>
    decreases value,
{
    match value {
        Json::Object(members) => flatten_members(style, action, members, prefix, index),
        Json::Array(items) => flatten_items(style, action, items, prefix, index),
        _ => put(index, prefix, value),
    }
}

/// The index after the leaves of these members have been recorded, member by
/// member.
pub open spec fn flatten_members(
    style: FlattenKeyPrefixType,
    action: Seq<char>,
    members: Seq<(Seq<char>, Json)>,
    prefix: Seq<char>,
    index: Seq<(Seq<char>, Json)>,
) -> Seq<(Seq<char>, Json)>
    decreases members,
{
    if members.len() == 0 {
        index
    } else {
        flatten_into(
            style,
            action,
            members.last().1,
            member_path(style, action, prefix, members.last().0),
            flatten_members(style, action, members.drop_last(), prefix, index),
        )
    }
}

/// The index after the leaves of these items have been recorded, item by item.
pub open spec fn flatten_items(
    style: FlattenKeyPrefixType,
    action: Seq<char>,
    items: Seq<Json>,
    prefix: Seq<char>,
    index: Seq<(Seq<char>, Json)>,
) -> Seq<(Seq<char>, Json)>
    decreases items,
{
    if items.len() == 0 {
        index
    } else {
        flatten_into(
            style,
            action,
            items.last(),
            item_path(prefix, (items.len() - 1) as nat),
            flatten_items(style, action, items.drop_last(), prefix, index),
        )
    }
}

/// Flattening keeps the paths of an index apart.
pub proof fn lemma_flatten_distinct(
    style: FlattenKeyPrefixType,
    action: Seq<char>,
    value: Json,
    prefix: Seq<char>,
    index: Seq<(Seq<char>, Json)>,
)
    requires
        distinct_names(index),
    ensures
        distinct_names(flatten_into(style, action, value, prefix, index)),
    decreases value, 0int,
{
    match value {
        Json::Object(members) => {
            lemma_flatten_members_distinct(style, action, members, prefix, index);
        },
        Json::Array(items) => {
            lemma_flatten_items_distinct(style, action, items, prefix, index);
        },
        _ => {
            lemma_put_distinct(index, prefix, value);
        },
    }
}

/// Flattening members keeps the paths of an index apart.
pub proof fn lemma_flatten_members_distinct(
    style: FlattenKeyPrefixType,
    action: Seq<char>,
    members: Seq<(Seq<char>, Json)>,
    prefix: Seq<char>,
    index: Seq<(Seq<char>, Json)>,
)
    requires
        distinct_names(index),
    ensures
        distinct_names(flatten_members(style, action, members, prefix, index)),
    decreases members, 1int,
{
    if members.len() > 0 {
        lemma_flatten_members_distinct(style, action, members.drop_last(), prefix, index);
        lemma_flatten_distinct(
            style,
            action,
            members.last().1,
            member_path(style, action, prefix, members.last().0),
            flatten_members(style, action, members.drop_last(), prefix, index),
        );
    }
}

/// Flattening items keeps the paths of an index apart.
pub proof fn lemma_flatten_items_distinct(
    style: FlattenKeyPrefixType,
    action: Seq<char>,
    items: Seq<Json>,
    prefix: Seq<char>,
    index: Seq<(Seq<char>, Json)>,
)
    requires
        distinct_names(index),
    ensures
        distinct_names(flatten_items(style, action, items, prefix, index)),
    decreases items, 1int,
{
    if items.len() > 0 {
        lemma_flatten_items_distinct(style, action, items.drop_last(), prefix, index);
        lemma_flatten_distinct(
            style,
            action,
            items.last(),
            item_path(prefix, (items.len() - 1) as nat),
            flatten_items(style, action, items.drop_last(), prefix, index),
        );
    }
}

/// The flattened index of a whole document.
pub open spec fn flattened(style: FlattenKeyPrefixType, action: Seq<char>, value: Json) -> Seq<
    (Seq<char>, Json),
> {
    flatten_into(style, action, value, Seq::empty(), Seq::empty())
}

fn path_of_member(
    style: FlattenKeyPrefixType,
    action: &Vec<char>,
    prefix: &Vec<char>,
    key: &String,
) -> (r: Vec<char>)
    ensures
        r@ == member_path(style, action@, prefix@, key@),
{
    let name = to_chars(key.as_str());
    if prefix.len() == 0 {
        let mut out = to_chars("$.");
        match style {
            FlattenKeyPrefixType::Output => {
                extend_chars(&mut out, action);
                extend_chars(&mut out, &to_chars(".output."));
            },
            FlattenKeyPrefixType::Input => {},
            FlattenKeyPrefixType::AssertionExpression => {
                extend_chars(&mut out, action);
                extend_chars(&mut out, &to_chars(".input."));
            },
        }
        extend_chars(&mut out, &name);
        out
    } else {
        let mut out = prefix.clone();
        extend_chars(&mut out, &to_chars("."));
        extend_chars(&mut out, &name);
        out
    }
}

fn path_of_item(prefix: &Vec<char>, i: usize) -> (r: Vec<char>)
    ensures
        r@ == item_path(prefix@, i as nat),
{
    let mut out = prefix.clone();
    extend_chars(&mut out, &to_chars("["));
    extend_chars(&mut out, &decimal_chars(i));
    extend_chars(&mut out, &to_chars("]"));
    out
}

fn flatten_at(
    style: FlattenKeyPrefixType,
    action: &Vec<char>,
    value: &JsonValue,
    prefix: Vec<char>,
    result: &mut FlattenedIndex,
)
    ensures
        final(result)@ == flatten_into(style, action@, value@, prefix@, old(result)@),
    decreases value,
{
    match value {
        JsonValue::Object(members) => {
            proof {
                lemma_members_view(members@);
            }
            let ghost all = members_view(members@);
            let mut k: usize = 0;
            while k < members.len()
                invariant
                    k <= members.len(),
                    *value == JsonValue::Object(*members),
                    all == members_view(members@),
                    all.len() == members.len(),
                    forall|i: int|
                        0 <= i < members.len() ==> #[trigger] all[i] == (
                            members@[i].0@,
                            members@[i].1@,
                        ),
                    result@ == flatten_members(
                        style,
                        action@,
                        all.take(k as int),
                        prefix@,
                        old(result)@,
                    ),
                decreases members.len() - k,
            {
                proof {
                    let now = all.take(k + 1);
                    assert(now.drop_last() =~= all.take(k as int));
                    assert(now.last() == all[k as int]);
                    assert(*value is Object && value->Object_0 == *members);
                    assert(decreases_to!(*value => value->Object_0));
                    assert(decreases_to!(*members => members[k as int]));
                }
                let path = path_of_member(style, action, &prefix, &members[k].0);
                flatten_at(style, action, &members[k].1, path, result);
                k += 1;
            }
            assert(all.take(members.len() as int) =~= all);
        },
        JsonValue::Array(items) => {
            proof {
                lemma_items_view(items@);
            }
            let ghost all = crate::json::items_view(items@);
            let mut k: usize = 0;
            while k < items.len()
                invariant
                    k <= items.len(),
                    *value == JsonValue::Array(*items),
                    all == crate::json::items_view(items@),
                    all.len() == items.len(),
                    forall|i: int| 0 <= i < items.len() ==> #[trigger] all[i] == items@[i]@,
                    result@ == flatten_items(
                        style,
                        action@,
                        all.take(k as int),
                        prefix@,
                        old(result)@,
                    ),
                decreases items.len() - k,
            {
                proof {
                    let now = all.take(k + 1);
                    assert(now.drop_last() =~= all.take(k as int));
                    assert(now.last() == all[k as int]);
                    assert(*value is Array && value->Array_0 == *items);
                    assert(decreases_to!(*value => value->Array_0));
                    assert(decreases_to!(*items => items[k as int]));
                }
                let path = path_of_item(&prefix, k);
                flatten_at(style, action, &items[k], path, result);
                k += 1;
            }
            assert(all.take(items.len() as int) =~= all);
        },
        _ => {
            result.insert(from_chars(&prefix), value.clone());
        },
    }
}

/// Records the leaves of `value`, which stands at `prefix_so_far`, in `result`.
pub fn flatten_json_value(
    action_name: &String,
    prefix_type: &FlattenKeyPrefixType,
    value: &JsonValue,
    prefix_so_far: String,
    result: &mut FlattenedIndex,
)
    ensures
        final(result)@ == flatten_into(
            *prefix_type,
            action_name@,
            value@,
            prefix_so_far@,
            old(result)@,
        ),
        old(result).wf() ==> final(result).wf(),
{
    proof {
        if result.wf() {
            lemma_flatten_distinct(*prefix_type, action_name@, value@, prefix_so_far@, result@);
        }
    }
    let action = to_chars(action_name.as_str());
    let prefix = to_chars(prefix_so_far.as_str());
    flatten_at(*prefix_type, &action, value, prefix, result);
}

/// The flattened index of a document.
pub fn build_index_from_value(
    action_name: &String,
    value: &JsonValue,
    flatten_key_prefix_type: FlattenKeyPrefixType,
) -> (r: FlattenedIndex)
    ensures
        r@ == flattened(flatten_key_prefix_type, action_name@, value@),
        r.wf(),
{
    let mut result = FlattenedIndex::new();
    flatten_json_value(action_name, &flatten_key_prefix_type, value, String::new(), &mut result);
    result
}

/// The index of what an action produced: paths begin `$.<action>.output.`.
pub fn build_response_index_from_value(action_name: &String, response_value: &JsonValue) -> (r:
    FlattenedIndex)
    ensures
        r@ == flattened(FlattenKeyPrefixType::Output, action_name@, response_value@),
        r.wf(),
{
    build_index_from_value(action_name, response_value, FlattenKeyPrefixType::Output)
}

/// The index of what an action was sent: paths begin `$.<action>.input.`.
pub fn build_request_index_from_value(action_name: &String, input_map: &JsonValue) -> (r:
    FlattenedIndex)
    ensures
        r@ == flattened(FlattenKeyPrefixType::AssertionExpression, action_name@, input_map@),
        r.wf(),
{
    build_index_from_value(action_name, input_map, FlattenKeyPrefixType::AssertionExpression)
}

} // verus!
