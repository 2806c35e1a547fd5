//! Flattening and reconstruction undo each other: the proof.

use crate::json::{lemma_position_from, member, position, put, Json};
use crate::reconstruct::{
    empty_object, grown, lemma_place_fresh, place_from, place_last, Segment,
};
use vstd::prelude::*;

verus! {

/// The members after each leaf has been written at its path, read from depth
/// `d`, one after the other. A leaf that cannot be written changes nothing.
pub open spec fn fold_place(
    members: Seq<(Seq<char>, Json)>,
    leaves: Seq<(Seq<Segment>, Json)>,
    d: int,
) -> Seq<(Seq<char>, Json)>
    decreases leaves.len(),
{
    if leaves.len() == 0 {
        members
    } else {
        let before = fold_place(members, leaves.drop_last(), d);
        match place_from(before, leaves.last().0, d, leaves.last().1) {
            Some(after) => after,
            None => before,
        }
    }
}

/// Every leaf lies deeper than depth `d` and takes `step` at that depth.
pub open spec fn under(leaves: Seq<(Seq<Segment>, Json)>, d: int, step: Segment) -> bool {
    forall|i: int|
        0 <= i < leaves.len() ==> (#[trigger] leaves[i]).0.len() > d + 1 && leaves[i].0[d] == step
}

/// The first member of a name stands where no earlier member has that name.
pub proof fn lemma_position_is(members: Seq<(Seq<char>, Json)>, key: Seq<char>, p: int)
    requires
        0 <= p < members.len(),
        members[p].0 == key,
        forall|j: int| 0 <= j < p ==> (#[trigger] members[j]).0 != key,
    ensures
        position(members, key) == Some(p),
{
    lemma_position_from(members, key, 0);
}

/// No member has the name where its position is none.
pub proof fn lemma_position_none(members: Seq<(Seq<char>, Json)>, key: Seq<char>)
    requires
        forall|j: int| 0 <= j < members.len() ==> (#[trigger] members[j]).0 != key,
    ensures
        position(members, key) is None,
{
    lemma_position_from(members, key, 0);
}

/// Writing leaves after leaves is writing them all.
pub proof fn lemma_fold_concat(
    members: Seq<(Seq<char>, Json)>,
    a: Seq<(Seq<Segment>, Json)>,
    b: Seq<(Seq<Segment>, Json)>,
    d: int,
)
    ensures
        fold_place(members, a + b, d) == fold_place(fold_place(members, a, d), b, d),
    decreases b.len(),
{
    if b.len() == 0 {
        assert(a + b =~= a);
    } else {
        lemma_fold_concat(members, a, b.drop_last(), d);
        assert((a + b).drop_last() =~= a + b.drop_last());
        assert((a + b).last() == b.last());
    }
}

/// Leaves that go through the object that the member `k` holds change that
/// object alone.
pub proof fn lemma_lift_key(
    members: Seq<(Seq<char>, Json)>,
    leaves: Seq<(Seq<Segment>, Json)>,
    d: int,
    k: Seq<char>,
    p: int,
    child: Seq<(Seq<char>, Json)>,
)
    requires
        0 <= d,
        position(members, k) == Some(p),
        0 <= p < members.len(),
        members[p].1 == Json::Object(child),
        under(leaves, d, Segment::Key(k)),
    ensures
        fold_place(members, leaves, d) == members.update(
            p,
            (k, Json::Object(fold_place(child, leaves, d + 1))),
        ),
    decreases leaves.len(),
{
    lemma_position_from(members, k, 0);
    if leaves.len() == 0 {
        assert(members.update(p, (k, Json::Object(child))) =~= members);
    } else {
        let rest = leaves.drop_last();
        assert forall|i: int| 0 <= i < rest.len() implies (#[trigger] rest[i]).0.len() > d + 1
            && rest[i].0[d] == Segment::Key(k) by {
            assert(rest[i] == leaves[i]);
        }
        lemma_lift_key(members, rest, d, k, p, child);
        let inner = fold_place(child, rest, d + 1);
        let before = members.update(p, (k, Json::Object(inner)));
        assert(fold_place(members, rest, d) == before);
        let (steps, value) = leaves.last();
        assert(leaves[leaves.len() - 1].0.len() > d + 1);
        assert(steps[d] == Segment::Key(k));
        assert forall|j: int| 0 <= j < p implies (#[trigger] before[j]).0 != k by {
            assert(before[j] == members[j]);
        }
        lemma_position_is(before, k, p);
        assert(member(before, k) == Some(Json::Object(inner)));
        match place_from(inner, steps, d + 1, value) {
            Some(filled) => {
                assert(put(before, k, Json::Object(filled)) =~= members.update(
                    p,
                    (k, Json::Object(filled)),
                ));
            },
            None => {},
        }
    }
}

/// Leaves that go through a member `k` which is not there yet make it: an
/// object that holds what they write.
pub proof fn lemma_create_key(
    members: Seq<(Seq<char>, Json)>,
    leaves: Seq<(Seq<Segment>, Json)>,
    d: int,
    k: Seq<char>,
)
    requires
        0 <= d,
        position(members, k) is None,
        leaves.len() > 0,
        under(leaves, d, Segment::Key(k)),
    ensures
        fold_place(members, leaves, d) == members.push(
            (k, Json::Object(fold_place(Seq::empty(), leaves, d + 1))),
        ),
    decreases leaves.len(),
{
    lemma_position_from(members, k, 0);
    let none: Seq<(Seq<char>, Json)> = Seq::empty();
    let (steps, value) = leaves.last();
    assert(leaves[leaves.len() - 1].0.len() > d + 1);
    assert(steps[d] == Segment::Key(k));
    let rest = leaves.drop_last();
    if rest.len() == 0 {
        assert(fold_place(members, rest, d) == members);
        assert(fold_place(none, rest, d + 1) == none);
        lemma_place_fresh(steps, d + 1, value);
        assert(member(members, k) is None);
    } else {
        assert forall|i: int| 0 <= i < rest.len() implies (#[trigger] rest[i]).0.len() > d + 1
            && rest[i].0[d] == Segment::Key(k) by {
            assert(rest[i] == leaves[i]);
        }
        lemma_create_key(members, rest, d, k);
        let inner = fold_place(none, rest, d + 1);
        let before = members.push((k, Json::Object(inner)));
        let p = members.len() as int;
        assert forall|j: int| 0 <= j < p implies (#[trigger] before[j]).0 != k by {
            assert(before[j] == members[j]);
        }
        lemma_position_is(before, k, p);
        assert(member(before, k) == Some(Json::Object(inner)));
        match place_from(inner, steps, d + 1, value) {
            Some(filled) => {
                assert(put(before, k, Json::Object(filled)) =~= members.push(
                    (k, Json::Object(filled)),
                ));
            },
            None => {},
        }
    }
}


/// The array that the member `k` holds, or the empty one where there is no such
/// member.
pub open spec fn held_items(members: Seq<(Seq<char>, Json)>, k: Seq<char>) -> Seq<Json> {
    match member(members, k) {
        Some(Json::Array(items)) => items,
        _ => Seq::empty(),
    }
}

/// The member `k` is missing or holds an array.
pub open spec fn array_or_missing(members: Seq<(Seq<char>, Json)>, k: Seq<char>) -> bool {
    match member(members, k) {
        Some(Json::Array(_)) => true,
        Some(_) => false,
        None => true,
    }
}

/// `put` keeps the place of a member that is there, and puts a new one last;
/// either way the member is then found where it stands.
pub proof fn lemma_put_found(members: Seq<(Seq<char>, Json)>, k: Seq<char>, v: Json)
    ensures
        member(put(members, k, v), k) == Some(v),
        put(put(members, k, v), k, v) == put(members, k, v),
        forall|w: Json| #[trigger] put(put(members, k, v), k, w) == put(members, k, w),
        position(put(members, k, v), k) == match position(members, k) {
            Some(p) => Some(p),
            None => Some(members.len() as int),
        },
{
    lemma_position_from(members, k, 0);
    let after = put(members, k, v);
    let p = match position(members, k) {
        Some(p) => p,
        None => members.len() as int,
    };
    assert forall|j: int| 0 <= j < p implies (#[trigger] after[j]).0 != k by {
        assert(after[j] == members[j]);
    }
    lemma_position_is(after, k, p);
    assert(after.update(p, (k, v)) =~= after);
    assert forall|w: Json| #[trigger] put(after, k, w) == put(members, k, w) by {
        assert(after.update(p, (k, w)) =~= put(members, k, w));
    }
}

/// Leaves that go through slot `i` of the array that the member `k` holds, and
/// the slot holds an object, change that object alone.
pub proof fn lemma_lift_slot(
    members: Seq<(Seq<char>, Json)>,
    leaves: Seq<(Seq<Segment>, Json)>,
    d: int,
    k: Seq<char>,
    i: nat,
    items: Seq<Json>,
    child: Seq<(Seq<char>, Json)>,
)
    requires
        0 <= d,
        member(members, k) == Some(Json::Array(items)),
        i < items.len(),
        items[i as int] == Json::Object(child),
        under(leaves, d, Segment::Slot(k, i)),
    ensures
        fold_place(members, leaves, d) == put(
            members,
            k,
            Json::Array(items.update(i as int, Json::Object(fold_place(child, leaves, d + 1)))),
        ),
    decreases leaves.len(),
{
    lemma_position_from(members, k, 0);
    let p = position(members, k)->0;
    if leaves.len() == 0 {
        assert(items.update(i as int, Json::Object(child)) =~= items);
        assert(members.update(p, (k, Json::Array(items))) =~= members);
    } else {
        let rest = leaves.drop_last();
        assert forall|j: int| 0 <= j < rest.len() implies (#[trigger] rest[j]).0.len() > d + 1
            && rest[j].0[d] == Segment::Slot(k, i) by {
            assert(rest[j] == leaves[j]);
        }
        lemma_lift_slot(members, rest, d, k, i, items, child);
        let inner = fold_place(child, rest, d + 1);
        let held = items.update(i as int, Json::Object(inner));
        let before = put(members, k, Json::Array(held));
        assert(fold_place(members, rest, d) == before);
        let (steps, value) = leaves.last();
        assert(leaves[leaves.len() - 1].0.len() > d + 1);
        assert(steps[d] == Segment::Slot(k, i));
        lemma_put_found(members, k, Json::Array(held));
        assert(member(before, k) == Some(Json::Array(held)));
        assert(grown(held, i + 1) == held);
        match place_from(inner, steps, d + 1, value) {
            Some(filled) => {
                assert(held.update(i as int, Json::Object(filled)) =~= items.update(
                    i as int,
                    Json::Object(filled),
                ));
            },
            None => {},
        }
    }
}

/// Leaves that go through the slot just past the end of the array that the
/// member `k` holds, or through slot 0 of a member that is not there yet, add
/// one object to the array: the object that holds what they write.
pub proof fn lemma_create_slot(
    members: Seq<(Seq<char>, Json)>,
    leaves: Seq<(Seq<Segment>, Json)>,
    d: int,
    k: Seq<char>,
    i: nat,
)
    requires
        0 <= d,
        array_or_missing(members, k),
        held_items(members, k).len() == i,
        leaves.len() > 0,
        under(leaves, d, Segment::Slot(k, i)),
    ensures
        fold_place(members, leaves, d) == put(
            members,
            k,
            Json::Array(
                held_items(members, k).push(
                    Json::Object(fold_place(Seq::empty(), leaves, d + 1)),
                ),
            ),
        ),
    decreases leaves.len(),
{
    let none: Seq<(Seq<char>, Json)> = Seq::empty();
    let items = held_items(members, k);
    let (steps, value) = leaves.last();
    assert(leaves[leaves.len() - 1].0.len() > d + 1);
    assert(steps[d] == Segment::Slot(k, i));
    let rest = leaves.drop_last();
    if rest.len() == 0 {
        assert(fold_place(members, rest, d) == members);
        assert(fold_place(none, rest, d + 1) == none);
        lemma_place_fresh(steps, d + 1, value);
        let wide = grown(items, i + 1);
        assert(wide =~= items.push(empty_object()));
        assert(wide[i as int] == Json::Object(none));
        let filled = place_from(none, steps, d + 1, value)->0;
        assert(wide.update(i as int, Json::Object(filled)) =~= items.push(Json::Object(filled)));
    } else {
        assert forall|j: int| 0 <= j < rest.len() implies (#[trigger] rest[j]).0.len() > d + 1
            && rest[j].0[d] == Segment::Slot(k, i) by {
            assert(rest[j] == leaves[j]);
        }
        lemma_create_slot(members, rest, d, k, i);
        let inner = fold_place(none, rest, d + 1);
        let held = items.push(Json::Object(inner));
        let before = put(members, k, Json::Array(held));
        assert(fold_place(members, rest, d) == before);
        lemma_put_found(members, k, Json::Array(held));
        assert(member(before, k) == Some(Json::Array(held)));
        assert(grown(held, i + 1) == held);
        assert(held[i as int] == Json::Object(inner));
        match place_from(inner, steps, d + 1, value) {
            Some(filled) => {
                assert(held.update(i as int, Json::Object(filled)) =~= items.push(
                    Json::Object(filled),
                ));
            },
            None => {},
        }
    }
}


/// A name that a path can spell: without `.` and `[`. The empty name is one.
pub open spec fn plain_key(k: Seq<char>) -> bool {
    !k.contains('.') && !k.contains('[')
}

/// A member that flattening does not lose: a name that a path can spell, with a
/// plain value. An array needs a name that is not empty: a slot without a name
/// reads as a member.
pub open spec fn plain_member(k: Seq<char>, v: Json) -> bool {
    plain_key(k) && plain_value(v) && (v is Array ==> k.len() > 0)
}

/// An item that a path can lead to: a leaf, or an object that is not empty and
/// whose members are plain. An array inside an array has no path.
pub open spec fn plain_item(v: Json) -> bool
    decreases v,
{
    match v {
        Json::Object(c) => c.len() > 0 && plain_members(c),
        Json::Array(_) => false,
        _ => true,
    }
}

/// A value that flattening does not lose: a leaf; an object that is not empty
/// and whose members are plain; an array that is not empty, is no longer than a
/// vector can be, and whose items are plain.
pub open spec fn plain_value(v: Json) -> bool
    decreases v,
{
    match v {
        Json::Object(c) => c.len() > 0 && plain_members(c),
        Json::Array(items) => items.len() > 0 && items.len() <= usize::MAX && forall|i: int|
            0 <= i < items.len() ==> plain_item(#[trigger] items[i]),
        _ => true,
    }
}

/// Members that flattening does not lose: plain members, each name once.
pub open spec fn plain_members(ms: Seq<(Seq<char>, Json)>) -> bool
    decreases ms,
{
    &&& forall|i: int|
        0 <= i < ms.len() ==> plain_key((#[trigger] ms[i]).0) && plain_value(ms[i].1) && (ms[i].1 is Array
            ==> ms[i].0.len() > 0)
    &&& forall|i: int, j: int| 0 <= i < j < ms.len() ==> (#[trigger] ms[i]).0 != (#[trigger] ms[j]).0
}

/// The leaves of the member `k` with value `v` of what stands at `pre`, each
/// with the steps that lead to it.
pub open spec fn member_leaves(pre: Seq<Segment>, k: Seq<char>, v: Json) -> Seq<
    (Seq<Segment>, Json),
>
    decreases v,
{
    match v {
        Json::Object(c) => members_leaves(pre.push(Segment::Key(k)), c),
        Json::Array(items) => items_leaves(pre, k, items),
        _ => seq![(pre.push(Segment::Key(k)), v)],
    }
}

/// The leaves of these members of what stands at `pre`, in order.
pub open spec fn members_leaves(pre: Seq<Segment>, ms: Seq<(Seq<char>, Json)>) -> Seq<
    (Seq<Segment>, Json),
>
    decreases ms,
{
    if ms.len() == 0 {
        Seq::empty()
    } else {
        members_leaves(pre, ms.drop_last()) + member_leaves(pre, ms.last().0, ms.last().1)
    }
}

/// The leaves of these items of the array that is the member `k` of what
/// stands at `pre`, in order.
pub open spec fn items_leaves(pre: Seq<Segment>, k: Seq<char>, items: Seq<Json>) -> Seq<
    (Seq<Segment>, Json),
>
    decreases items,
{
    if items.len() == 0 {
        Seq::empty()
    } else {
        items_leaves(pre, k, items.drop_last()) + item_leaves(
            pre,
            k,
            (items.len() - 1) as nat,
            items.last(),
        )
    }
}

/// The leaves of the item in slot `i`.
pub open spec fn item_leaves(pre: Seq<Segment>, k: Seq<char>, i: nat, v: Json) -> Seq<
    (Seq<Segment>, Json),
>
    decreases v,
{
    match v {
        Json::Object(c) => members_leaves(pre.push(Segment::Slot(k, i)), c),
        _ => seq![(pre.push(Segment::Slot(k, i)), v)],
    }
}

/// The steps of every leaf begin with `pre` and go on.
pub open spec fn below(leaves: Seq<(Seq<Segment>, Json)>, pre: Seq<Segment>) -> bool {
    forall|i: int|
        0 <= i < leaves.len() ==> (#[trigger] leaves[i]).0.len() > pre.len() && leaves[i].0.subrange(
            0,
            pre.len() as int,
        ) == pre
}

/// Leaves below a longer start are under its last step.
pub proof fn lemma_below_under(leaves: Seq<(Seq<Segment>, Json)>, pre: Seq<Segment>, step: Segment)
    requires
        below(leaves, pre.push(step)),
    ensures
        under(leaves, pre.len() as int, step),
        below(leaves, pre),
{
    let long = pre.push(step);
    assert forall|i: int| 0 <= i < leaves.len() implies (#[trigger] leaves[i]).0.len() > pre.len()
        + 1 && leaves[i].0[pre.len() as int] == step && leaves[i].0.subrange(0, pre.len() as int)
        == pre by {
        let s = leaves[i].0;
        assert(s.subrange(0, long.len() as int) == long);
        assert(s[pre.len() as int] == s.subrange(0, long.len() as int)[pre.len() as int]);
        assert(s.subrange(0, pre.len() as int) =~= long.subrange(0, pre.len() as int));
        assert(long.subrange(0, pre.len() as int) =~= pre);
    }
}

/// Two lists of leaves below a start, one after the other, are below it.
pub proof fn lemma_below_concat(
    a: Seq<(Seq<Segment>, Json)>,
    b: Seq<(Seq<Segment>, Json)>,
    pre: Seq<Segment>,
)
    requires
        below(a, pre),
        below(b, pre),
    ensures
        below(a + b, pre),
{
    assert forall|i: int| 0 <= i < (a + b).len() implies (#[trigger] (a + b)[i]).0.len()
        > pre.len() && (a + b)[i].0.subrange(0, pre.len() as int) == pre by {
        if i < a.len() {
            assert((a + b)[i] == a[i]);
        } else {
            assert((a + b)[i] == b[i - a.len()]);
        }
    }
}

/// The leaves of members lie below where the members stand; plain members that
/// are not empty have leaves.
pub proof fn lemma_members_leaves_below(pre: Seq<Segment>, ms: Seq<(Seq<char>, Json)>)
    requires
        plain_members(ms),
    ensures
        below(members_leaves(pre, ms), pre),
        ms.len() > 0 ==> members_leaves(pre, ms).len() > 0,
    decreases ms, 1int,
{
    if ms.len() > 0 {
        let rest = ms.drop_last();
        assert(plain_members(rest)) by {
            assert forall|i: int| 0 <= i < rest.len() implies plain_member(
                (#[trigger] rest[i]).0,
                rest[i].1,
            ) by {
                assert(rest[i] == ms[i]);
            }
            assert forall|i: int, j: int| 0 <= i < j < rest.len() implies (#[trigger] rest[i]).0
                != (#[trigger] rest[j]).0 by {
                assert(rest[i] == ms[i] && rest[j] == ms[j]);
            }
        }
        lemma_members_leaves_below(pre, rest);
        assert(plain_member(ms[ms.len() - 1].0, ms[ms.len() - 1].1));
        lemma_member_leaves_below(pre, ms.last().0, ms.last().1);
        lemma_below_concat(
            members_leaves(pre, rest),
            member_leaves(pre, ms.last().0, ms.last().1),
            pre,
        );
    }
}

/// The leaves of a member lie below where its object stands, and there are
/// some.
pub proof fn lemma_member_leaves_below(pre: Seq<Segment>, k: Seq<char>, v: Json)
    requires
        plain_value(v),
    ensures
        below(member_leaves(pre, k, v), pre),
        member_leaves(pre, k, v).len() > 0,
        !(v is Array) ==> below(member_leaves(pre, k, v), pre.push(Segment::Key(k))) || (!(v is Object)
            && member_leaves(pre, k, v) == seq![(pre.push(Segment::Key(k)), v)]),
    decreases v, 0int,
{
    match v {
        Json::Object(c) => {
            lemma_members_leaves_below(pre.push(Segment::Key(k)), c);
            lemma_below_under(members_leaves(pre.push(Segment::Key(k)), c), pre, Segment::Key(k));
        },
        Json::Array(items) => {
            lemma_items_leaves_below(pre, k, items, items.len() as int);
            assert(items.take(items.len() as int) =~= items);
        },
        _ => {
            let s = pre.push(Segment::Key(k));
            assert(s.subrange(0, pre.len() as int) =~= pre);
        },
    }
}

/// The leaves of an item lie below where the array's object stands, and there
/// are some.
pub proof fn lemma_item_leaves_below(pre: Seq<Segment>, k: Seq<char>, i: nat, v: Json)
    requires
        plain_item(v),
    ensures
        below(item_leaves(pre, k, i, v), pre),
        item_leaves(pre, k, i, v).len() > 0,
        v is Object ==> below(item_leaves(pre, k, i, v), pre.push(Segment::Slot(k, i))),
    decreases v, 0int,
{
    match v {
        Json::Object(c) => {
            lemma_members_leaves_below(pre.push(Segment::Slot(k, i)), c);
            lemma_below_under(
                members_leaves(pre.push(Segment::Slot(k, i)), c),
                pre,
                Segment::Slot(k, i),
            );
        },
        _ => {
            let s = pre.push(Segment::Slot(k, i));
            assert(s.subrange(0, pre.len() as int) =~= pre);
        },
    }
}

/// The leaves of the first `j` items lie below where the array's object stands.
pub proof fn lemma_items_leaves_below(pre: Seq<Segment>, k: Seq<char>, items: Seq<Json>, j: int)
    requires
        0 <= j <= items.len(),
        forall|i: int| 0 <= i < items.len() ==> plain_item(#[trigger] items[i]),
    ensures
        below(items_leaves(pre, k, items.take(j)), pre),
        j > 0 ==> items_leaves(pre, k, items.take(j)).len() > 0,
    decreases items, j,
{
    if j > 0 {
        lemma_items_leaves_below(pre, k, items, j - 1);
        let now = items.take(j);
        assert(now.drop_last() =~= items.take(j - 1));
        assert(now.last() == items[j - 1]);
        lemma_item_leaves_below(pre, k, (j - 1) as nat, items[j - 1]);
        lemma_below_concat(
            items_leaves(pre, k, items.take(j - 1)),
            item_leaves(pre, k, (j - 1) as nat, items[j - 1]),
            pre,
        );
    }
}


/// Plain members without the last are plain, and the last has a name of its own.
pub proof fn lemma_plain_rest(ms: Seq<(Seq<char>, Json)>)
    requires
        plain_members(ms),
        ms.len() > 0,
    ensures
        plain_members(ms.drop_last()),
        position(ms.drop_last(), ms.last().0) is None,
        plain_member(ms.last().0, ms.last().1),
        plain_key(ms.last().0),
        plain_value(ms.last().1),
{
    let rest = ms.drop_last();
    assert forall|i: int| 0 <= i < rest.len() implies plain_member(
        (#[trigger] rest[i]).0,
        rest[i].1,
    ) by {
        assert(rest[i] == ms[i]);
    }
    assert forall|i: int, j: int| 0 <= i < j < rest.len() implies (#[trigger] rest[i]).0 != (
    #[trigger] rest[j]).0 by {
        assert(rest[i] == ms[i] && rest[j] == ms[j]);
    }
    assert forall|j: int| 0 <= j < rest.len() implies (#[trigger] rest[j]).0 != ms.last().0 by {
        assert(rest[j] == ms[j]);
        assert(ms[j].0 != ms[ms.len() - 1].0);
    }
    lemma_position_none(rest, ms.last().0);
    assert(plain_member(ms[ms.len() - 1].0, ms[ms.len() - 1].1));
}

/// Writing the leaves of plain members, which stand at depth `d`, into an
/// object without members builds those members.
pub proof fn lemma_rebuild_members(pre: Seq<Segment>, ms: Seq<(Seq<char>, Json)>)
    requires
        plain_members(ms),
    ensures
        fold_place(Seq::empty(), members_leaves(pre, ms), pre.len() as int) == ms,
    decreases ms, 1int,
{
    let none: Seq<(Seq<char>, Json)> = Seq::empty();
    let d = pre.len() as int;
    if ms.len() == 0 {
        assert(ms =~= none);
    } else {
        let rest = ms.drop_last();
        let (k, v) = ms.last();
        lemma_plain_rest(ms);
        lemma_rebuild_members(pre, rest);
        lemma_fold_concat(none, members_leaves(pre, rest), member_leaves(pre, k, v), d);
        lemma_rebuild_member(rest, pre, k, v);
        assert(rest.push((k, v)) =~= ms);
    }
}

/// Writing the leaves of one plain member into members that lack its name adds
/// the member.
pub proof fn lemma_rebuild_member(
    before: Seq<(Seq<char>, Json)>,
    pre: Seq<Segment>,
    k: Seq<char>,
    v: Json,
)
    requires
        position(before, k) is None,
        plain_value(v),
    ensures
        fold_place(before, member_leaves(pre, k, v), pre.len() as int) == before.push((k, v)),
    decreases v, 0int,
{
    let d = pre.len() as int;
    let none: Seq<(Seq<char>, Json)> = Seq::empty();
    match v {
        Json::Object(c) => {
            let long = pre.push(Segment::Key(k));
            let leaves = members_leaves(long, c);
            lemma_members_leaves_below(long, c);
            lemma_below_under(leaves, pre, Segment::Key(k));
            lemma_create_key(before, leaves, d, k);
            lemma_rebuild_members(long, c);
        },
        Json::Array(items) => {
            lemma_rebuild_items(before, pre, k, items, items.len() as int);
            assert(items.take(items.len() as int) =~= items);
        },
        _ => {
            let steps = pre.push(Segment::Key(k));
            let leaves = seq![(steps, v)];
            assert(leaves.drop_last() =~= Seq::<(Seq<Segment>, Json)>::empty());
            assert(fold_place(before, leaves.drop_last(), d) == before);
            assert(leaves.last() == (steps, v));
            assert(place_from(before, steps, d, v) == Some(place_last(before, steps[d], v)));
        },
    }
}

/// Writing the leaves of the first `j` plain items of an array into members
/// that lack its name adds the array of those items, once there is an item.
pub proof fn lemma_rebuild_items(
    before: Seq<(Seq<char>, Json)>,
    pre: Seq<Segment>,
    k: Seq<char>,
    items: Seq<Json>,
    j: int,
)
    requires
        position(before, k) is None,
        0 <= j <= items.len(),
        items.len() <= usize::MAX,
        forall|i: int| 0 <= i < items.len() ==> plain_item(#[trigger] items[i]),
    ensures
        fold_place(before, items_leaves(pre, k, items.take(j)), pre.len() as int) == if j == 0 {
            before
        } else {
            before.push((k, Json::Array(items.take(j))))
        },
    decreases items, j,
{
    let d = pre.len() as int;
    let none: Seq<(Seq<char>, Json)> = Seq::empty();
    if j == 0 {
        assert(items.take(0) =~= Seq::<Json>::empty());
    } else {
        let i = (j - 1) as nat;
        lemma_rebuild_items(before, pre, k, items, j - 1);
        let now = items.take(j);
        assert(now.drop_last() =~= items.take(j - 1));
        assert(now.last() == items[j - 1]);
        let earlier = items_leaves(pre, k, items.take(j - 1));
        let mine = item_leaves(pre, k, i, items[j - 1]);
        lemma_fold_concat(before, earlier, mine, d);
        let so_far = fold_place(before, earlier, d);
        let held = items.take(j - 1);
        lemma_position_from(before, k, 0);
        if j - 1 > 0 {
            assert forall|t: int| 0 <= t < before.len() implies (#[trigger] so_far[t]).0 != k by {
                assert(so_far[t] == before[t]);
            }
            lemma_position_is(so_far, k, before.len() as int);
        }
        assert(array_or_missing(so_far, k));
        assert(held_items(so_far, k) == held);
        let step = Segment::Slot(k, i);
        let target = before.push((k, Json::Array(items.take(j))));
        match items[j - 1] {
            Json::Object(c) => {
                let long = pre.push(step);
                lemma_members_leaves_below(long, c);
                lemma_below_under(mine, pre, step);
                lemma_create_slot(so_far, mine, d, k, i);
                lemma_rebuild_members(long, c);
                assert(held.push(Json::Object(c)) =~= items.take(j));
                assert(put(so_far, k, Json::Array(items.take(j))) =~= target);
            },
            _ => {
                let steps = pre.push(step);
                let x = items[j - 1];
                assert(mine == seq![(steps, x)]);
                assert(mine.drop_last() =~= Seq::<(Seq<Segment>, Json)>::empty());
                assert(fold_place(so_far, mine.drop_last(), d) == so_far);
                assert(mine.last() == (steps, x));
                assert(place_from(so_far, steps, d, x) == Some(place_last(so_far, steps[d], x)));
                let wide = grown(held, i + 1);
                assert(wide =~= held.push(empty_object()));
                assert(wide[i as int] is Object);
                assert(wide.update(i as int, x) =~= items.take(j));
                assert(put(so_far, k, Json::Array(items.take(j))) =~= target);
            },
        }
    }
}

} // verus!
