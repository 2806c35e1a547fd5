//! Resolution: where a value came from. A value that an earlier action produced
//! is found again by the path under which that action's index holds it.

use crate::expression::Expression;
use crate::flatten::FlattenedIndex;
use crate::json::{lemma_members_view, same_json, Json, JsonValue};
use vstd::prelude::*;

verus! {

/// The entries of each index.
pub open spec fn indexes_view(indexes: Seq<FlattenedIndex>) -> Seq<Seq<(Seq<char>, Json)>> {
    Seq::new(indexes.len(), |i: int| indexes[i]@)
}

/// The path of the first entry at or after `from` whose value is `value`.
pub open spec fn path_of(index: Seq<(Seq<char>, Json)>, value: Json, from: int) -> Option<
    Seq<char>,
>
    decreases index.len() - from,
{
    if from < 0 || from >= index.len() {
        None
    } else if same_json(index[from].1, value) {
        Some(index[from].0)
    } else {
        path_of(index, value, from + 1)
    }
}

/// The path under which the latest of these indexes that holds `value` holds it
/// first.
pub open spec fn resolved(indexes: Seq<Seq<(Seq<char>, Json)>>, value: Json) -> Option<Seq<char>>
    decreases indexes.len(),
{
    if indexes.len() == 0 {
        None
    } else {
        match path_of(indexes.last(), value, 0) {
            Some(p) => Some(p),
            None => resolved(indexes.drop_last(), value),
        }
    }
}

/// The path under which the earliest of the indexes from position `from` on
/// that holds `value` holds it first.
pub open spec fn resolved_earliest(
    indexes: Seq<Seq<(Seq<char>, Json)>>,
    value: Json,
    from: int,
) -> Option<Seq<char>>
    decreases indexes.len() - from,
{
    if from < 0 || from >= indexes.len() {
        None
    } else {
        match path_of(indexes[from], value, 0) {
            Some(p) => Some(p),
            None => resolved_earliest(indexes, value, from + 1),
        }
    }
}

/// The first `count` indexes, or all of them where there are fewer.
pub open spec fn before(indexes: Seq<Seq<(Seq<char>, Json)>>, count: nat) -> Seq<
    Seq<(Seq<char>, Json)>,
> {
    if count <= indexes.len() {
        indexes.take(count as int)
    } else {
        indexes
    }
}

/// An expression says what a path says.
pub open spec fn names(found: Option<Expression>, path: Option<Seq<char>>) -> bool {
    match found {
        Some(e) => path == Some(e.value@),
        None => path is None,
    }
}

/// The path of the first entry of `index` whose value is `value`.
pub fn find_path(index: &FlattenedIndex, value: &JsonValue) -> (r: Option<Expression>)
    ensures
        names(r, path_of(index@, value@, 0)),
{
    proof {
        lemma_members_view(index.entries@);
    }
    let mut k: usize = 0;
    while k < index.entries.len()
        invariant
            k <= index.entries.len(),
            index@.len() == index.entries.len(),
            forall|i: int|
                0 <= i < index.entries.len() ==> #[trigger] index@[i] == (
                    index.entries@[i].0@,
                    index.entries@[i].1@,
                ),
            path_of(index@, value@, 0) == path_of(index@, value@, k as int),
        decreases index.entries.len() - k,
    {
        assert(index@[k as int].1 == index.entries@[k as int].1@);
        if index.entries[k].1.equals(value) {
            return Some(Expression { value: index.entries[k].0.clone() });
        }
        k += 1;
    }
    None
}

/// Where `value` came from: the indexes are searched from the last to the
/// first, each from its first entry on.
pub fn resolve_value_expression_from_slice_index(
    value: &JsonValue,
    indexes: &Vec<FlattenedIndex>,
) -> (r: Option<Expression>)
    ensures
        names(r, resolved(indexes_view(indexes@), value@)),
{
    assert(indexes_view(indexes@).take(indexes.len() as int) =~= indexes_view(indexes@));
    resolve_in_first(value, indexes, indexes.len())
}

fn resolve_in_first(value: &JsonValue, indexes: &Vec<FlattenedIndex>, count: usize) -> (r: Option<
    Expression,
>)
    requires
        count <= indexes.len(),
    ensures
        names(r, resolved(indexes_view(indexes@).take(count as int), value@)),
{
    let ghost all = indexes_view(indexes@);
    let mut k: usize = count;
    while k > 0
        invariant
            k <= count <= indexes.len(),
            all == indexes_view(indexes@),
            resolved(all.take(count as int), value@) == resolved(all.take(k as int), value@),
        decreases k,
    {
        proof {
            let now = all.take(k as int);
            assert(now.drop_last() =~= all.take(k - 1));
            assert(now.last() == indexes@[k - 1]@);
        }
        match find_path(&indexes[k - 1], value) {
            Some(e) => {
                return Some(e);
            },
            None => {},
        }
        k -= 1;
    }
    None
}

/// Where `value` came from, among the indexes of the actions before position
/// `order`: the latest producer wins.
pub fn resolve_value_expression_from_prev(
    order: usize,
    value: &JsonValue,
    response_indexes: &Vec<FlattenedIndex>,
) -> (r: Option<Expression>)
    ensures
        names(r, resolved(before(indexes_view(response_indexes@), order as nat), value@)),
{
    if order <= response_indexes.len() {
        resolve_in_first(value, response_indexes, order)
    } else {
        assert(indexes_view(response_indexes@).take(response_indexes.len() as int)
            =~= indexes_view(response_indexes@));
        resolve_in_first(value, response_indexes, response_indexes.len())
    }
}

/// Where `value` was sent first, among the indexes of the actions before
/// position `order`: the earliest sender wins.
pub fn resolve_earliest(order: usize, value: &JsonValue, request_indexes: &Vec<FlattenedIndex>) -> (r:
    Option<Expression>)
    ensures
        names(
            r,
            resolved_earliest(before(indexes_view(request_indexes@), order as nat), value@, 0),
        ),
{
    let count = if order <= request_indexes.len() {
        order
    } else {
        request_indexes.len()
    };
    let ghost all = before(indexes_view(request_indexes@), order as nat);
    assert(all =~= indexes_view(request_indexes@).take(count as int));
    let mut k: usize = 0;
    while k < count
        invariant
            k <= count <= request_indexes.len(),
            all == indexes_view(request_indexes@).take(count as int),
            all == before(indexes_view(request_indexes@), order as nat),
            resolved_earliest(all, value@, 0) == resolved_earliest(all, value@, k as int),
        decreases count - k,
    {
        assert(all[k as int] == request_indexes@[k as int]@);
        match find_path(&request_indexes[k], value) {
            Some(e) => {
                assert(resolved_earliest(all, value@, k as int) == Some(e.value@));
                return Some(e);
            },
            None => {},
        }
        k += 1;
    }
    None
}

/// The earliest index that holds the value is the latest of the indexes in
/// reverse.
pub proof fn lemma_earliest_is_latest_reversed(
    indexes: Seq<Seq<(Seq<char>, Json)>>,
    value: Json,
    from: int,
)
    requires
        0 <= from <= indexes.len(),
    ensures
        resolved_earliest(indexes, value, from) == resolved(
            indexes.subrange(from, indexes.len() as int).reverse(),
            value,
        ),
    decreases indexes.len() - from,
{
    let tail = indexes.subrange(from, indexes.len() as int);
    let back = tail.reverse();
    if from < indexes.len() {
        lemma_earliest_is_latest_reversed(indexes, value, from + 1);
        assert(back.last() == indexes[from]);
        assert(back.drop_last() =~= indexes.subrange(from + 1, indexes.len() as int).reverse());
    }
}

/// Of two indexes that hold the value, the later one names the path.
pub proof fn lemma_latest_wins(indexes: Seq<Seq<(Seq<char>, Json)>>, value: Json, late: int)
    requires
        0 <= late < indexes.len(),
        path_of(indexes[late], value, 0) is Some,
        forall|j: int| late < j < indexes.len() ==> path_of(#[trigger] indexes[j], value, 0) is None,
    ensures
        resolved(indexes, value) == path_of(indexes[late], value, 0),
    decreases indexes.len(),
{
    if late < indexes.len() - 1 {
        assert(path_of(indexes.last(), value, 0) is None);
        let rest = indexes.drop_last();
        assert(rest[late] == indexes[late]);
        assert forall|j: int| late < j < rest.len() implies path_of(
            #[trigger] rest[j],
            value,
            0,
        ) is None by {
            assert(rest[j] == indexes[j]);
        }
        lemma_latest_wins(rest, value, late);
    }
}

/// What `resolved` names is a path under which one of the indexes holds the
/// value, and it names one whenever some index holds the value.
pub proof fn lemma_resolved_sound(indexes: Seq<Seq<(Seq<char>, Json)>>, value: Json)
    ensures
        match resolved(indexes, value) {
            Some(p) => exists|i: int, k: int|
                0 <= i < indexes.len() && 0 <= k < indexes[i].len() && (#[trigger] indexes[i][k]).0
                    == p && same_json(indexes[i][k].1, value),
            None => forall|i: int|
                0 <= i < indexes.len() ==> path_of(#[trigger] indexes[i], value, 0) is None,
        },
    decreases indexes.len(),
{
    if indexes.len() > 0 {
        let last = indexes.last();
        match path_of(last, value, 0) {
            Some(p) => {
                lemma_path_of(last, value, 0);
                let k = choose|k: int|
                    0 <= k < last.len() && (#[trigger] last[k]).0 == p && same_json(
                        last[k].1,
                        value,
                    );
                assert(indexes[indexes.len() - 1][k].0 == p);
            },
            None => {
                let rest = indexes.drop_last();
                lemma_resolved_sound(rest, value);
                match resolved(rest, value) {
                    Some(p) => {
                        let (i, k) = choose|i: int, k: int|
                            0 <= i < rest.len() && 0 <= k < rest[i].len() && (
                            #[trigger] rest[i][k]).0 == p && same_json(rest[i][k].1, value);
                        assert(indexes[i][k].0 == p);
                    },
                    None => {
                        assert forall|i: int| 0 <= i < indexes.len() implies path_of(
                            #[trigger] indexes[i],
                            value,
                            0,
                        ) is None by {
                            if i < rest.len() {
                                assert(rest[i] == indexes[i]);
                            }
                        }
                    },
                }
            },
        }
    }
}

/// What `path_of` names is the path of an entry that holds the value.
pub proof fn lemma_path_of(index: Seq<(Seq<char>, Json)>, value: Json, from: int)
    requires
        0 <= from,
    ensures
        match path_of(index, value, from) {
            Some(p) => exists|k: int|
                from <= k < index.len() && (#[trigger] index[k]).0 == p && same_json(
                    index[k].1,
                    value,
                ),
            None => forall|k: int| from <= k < index.len() ==> !same_json(
                (#[trigger] index[k]).1,
                value,
            ),
        },
    decreases index.len() - from,
{
    if from < index.len() {
        if same_json(index[from].1, value) {
            assert(index[from].0 == path_of(index, value, from)->0);
        } else {
            lemma_path_of(index, value, from + 1);
        }
    }
}

} // verus!
