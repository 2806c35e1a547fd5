//! Paths as text: what flattening writes for a list of steps is what
//! reconstruction reads as that list.

use crate::flatten::{
    flatten_into, flatten_items, flatten_members, flattened, item_path, member_path,
    FlattenKeyPrefixType,
};
use crate::json::{distinct_names, lemma_same_json_reflexive, put, same_json, Json};
use crate::reconstruct::{parse_part, rebuilt, segments, without_root, Segment};
use crate::roundtrip::{
    fold_place, item_leaves, items_leaves, lemma_below_under, lemma_members_leaves_below,
    lemma_plain_rest, lemma_rebuild_members, member_leaves, members_leaves, plain_item, plain_key,
    plain_members, plain_value,
};
use crate::text::{
    all_digits, decimal, decimal_value, digit_char, digit_value, first_match, is_digit, join,
    matches_at, split_from, split_on,
};
use vstd::prelude::*;

verus! {

/// A single character occurs at a position exactly where the position holds it.
pub proof fn lemma_char_at(s: Seq<char>, c: char, i: int)
    ensures
        matches_at(s, seq![c], i) <==> (0 <= i < s.len() && s[i] == c),
{
    if 0 <= i < s.len() {
        assert(s.subrange(i, i + 1) =~= seq![s[i]]);
        if s[i] == c {
            assert(s.subrange(i, i + 1) =~= seq![c]);
        } else {
            assert(s.subrange(i, i + 1)[0] != seq![c][0]);
        }
    }
}

/// The first place of a character is the place that holds it and has none
/// before it.
pub proof fn lemma_first_char_is(s: Seq<char>, c: char, from: int, i: int)
    requires
        0 <= from <= i < s.len(),
        s[i] == c,
        forall|j: int| from <= j < i ==> s[j] != c,
    ensures
        first_match(s, seq![c], from) == Some(i),
    decreases i - from,
{
    lemma_char_at(s, c, from);
    if from < i {
        lemma_first_char_is(s, c, from + 1, i);
    }
}

/// A character that stands nowhere from a place on has no first place from
/// there.
pub proof fn lemma_first_char_none(s: Seq<char>, c: char, from: int)
    requires
        0 <= from,
        forall|j: int| from <= j < s.len() ==> s[j] != c,
    ensures
        first_match(s, seq![c], from) is None,
    decreases s.len() - from,
{
    lemma_char_at(s, c, from);
    if from < s.len() {
        lemma_first_char_none(s, c, from + 1);
    }
}

/// Joined parts are the first part, the separator, and the other parts joined.
pub proof fn lemma_join_front(parts: Seq<Seq<char>>, sep: Seq<char>)
    requires
        parts.len() >= 2,
    ensures
        join(parts, sep) == parts[0] + sep + join(parts.drop_first(), sep),
    decreases parts.len(),
{
    if parts.len() == 2 {
        assert(parts.drop_last() =~= seq![parts[0]]);
        assert(parts.drop_first() =~= seq![parts[1]]);
        assert(join(parts.drop_last(), sep) == parts[0]);
        assert(join(parts.drop_first(), sep) == parts[1]);
    } else {
        let head = parts.drop_last();
        lemma_join_front(head, sep);
        assert(head.drop_first() =~= parts.drop_first().drop_last());
        assert(head[0] == parts[0]);
        assert(parts.drop_first().last() == parts.last());
        assert(parts[0] + sep + join(head.drop_first(), sep) + sep + parts.last() =~= parts[0] + sep
            + (join(head.drop_first(), sep) + sep + parts.last()));
    }
}

/// No part holds a dot.
pub open spec fn dotless(parts: Seq<Seq<char>>) -> bool {
    forall|i: int| 0 <= i < parts.len() ==> !(#[trigger] parts[i]).contains('.')
}

/// Splitting what was joined by dots gives the parts back, where no part holds
/// a dot.
pub proof fn lemma_split_join(parts: Seq<Seq<char>>, s: Seq<char>, from: int)
    requires
        parts.len() >= 1,
        dotless(parts),
        0 <= from <= s.len(),
        s.subrange(from, s.len() as int) == join(parts, seq!['.']),
    ensures
        split_from(s, seq!['.'], from) == parts,
    decreases parts.len(),
{
    let dot = seq!['.'];
    let tail = s.subrange(from, s.len() as int);
    if parts.len() == 1 {
        assert(tail == parts[0]);
        assert forall|j: int| from <= j < s.len() implies s[j] != '.' by {
            assert(s[j] == tail[j - from]);
            if tail[j - from] == '.' {
                assert(parts[0].contains('.'));
            }
        }
        lemma_first_char_none(s, '.', from);
        assert(seq![tail] =~= parts);
    } else {
        lemma_join_front(parts, dot);
        let first = parts[0];
        let rest = parts.drop_first();
        let i = from + first.len();
        assert(tail == first + dot + join(rest, dot));
        assert(tail[first.len() as int] == '.');
        assert(s[i] == tail[i - from]);
        assert forall|j: int| from <= j < i implies s[j] != '.' by {
            assert(s[j] == tail[j - from]);
            assert(tail[j - from] == first[j - from]);
            if first[j - from] == '.' {
                assert(first.contains('.'));
            }
        }
        lemma_first_char_is(s, '.', from, i);
        assert(s.subrange(from, i) =~= first);
        assert(tail.len() == first.len() + 1 + join(rest, dot).len());
        assert(tail.len() == s.len() - from);
        assert(tail.subrange(first.len() as int + 1, tail.len() as int) =~= join(rest, dot));
        assert(s.subrange(i + 1, s.len() as int) =~= tail.subrange(
            first.len() as int + 1,
            tail.len() as int,
        ));
        assert forall|t: int| 0 <= t < rest.len() implies !(#[trigger] rest[t]).contains('.') by {
            assert(rest[t] == parts[t + 1]);
        }
        lemma_split_join(rest, s, i + 1);
        assert(seq![first] + rest =~= parts);
    }
}

/// A number written in decimal is digits alone, at least one, and reads as
/// itself.
pub proof fn lemma_decimal(n: nat)
    ensures
        decimal(n).len() >= 1,
        all_digits(decimal(n)),
        decimal_value(decimal(n)) == n,
    decreases n,
{
    if n < 10 {
        let s = decimal(n);
        assert(s =~= seq![digit_char(n)]);
        assert(s.drop_last() =~= Seq::<char>::empty());
        assert(digit_char(n) as u32 == 48 + n);
        assert(decimal_value(s) == decimal_value(s.drop_last()) * 10 + digit_value(s.last()));
    } else {
        lemma_decimal(n / 10);
        let s = decimal(n);
        let head = decimal(n / 10);
        assert(s == head.push(digit_char(n % 10)));
        assert(s.drop_last() =~= head);
        assert(digit_char(n % 10) as u32 == 48 + n % 10);
        assert forall|i: int| 0 <= i < s.len() implies is_digit(#[trigger] s[i]) by {
            if i < head.len() {
                assert(s[i] == head[i]);
            }
        }
    }
}

/// The text of a step: a name, or a name and a slot in brackets.
pub open spec fn step_text(step: Segment) -> Seq<char> {
    match step {
        Segment::Key(k) => k,
        Segment::Slot(k, i) => k + seq!['['] + decimal(i) + seq![']'],
    }
}

/// The texts of steps.
pub open spec fn steps_text(steps: Seq<Segment>) -> Seq<Seq<char>> {
    Seq::new(steps.len(), |i: int| step_text(steps[i]))
}

/// The path that spells steps: `$.` and the texts of the steps joined by dots.
pub open spec fn render(steps: Seq<Segment>) -> Seq<char> {
    seq!['$', '.'] + join(steps_text(steps), seq!['.'])
}

/// A step that a path can spell: a plain name, and a slot that an array can
/// have.
pub open spec fn plain_step(step: Segment) -> bool {
    match step {
        Segment::Key(k) => plain_key(k),
        Segment::Slot(k, i) => plain_key(k) && k.len() > 0 && i < usize::MAX,
    }
}

/// Steps that a path can spell, at least one.
pub open spec fn plain_steps(steps: Seq<Segment>) -> bool {
    steps.len() >= 1 && forall|i: int| 0 <= i < steps.len() ==> plain_step(#[trigger] steps[i])
}

/// The text of a plain step holds no dot and reads as the step.
pub proof fn lemma_step_text(step: Segment)
    requires
        plain_step(step),
    ensures
        !step_text(step).contains('.'),
        parse_part(step_text(step)) == step,
{
    match step {
        Segment::Key(k) => {
            assert forall|j: int| 0 <= j < k.len() implies k[j] != '[' by {
                if k[j] == '[' {
                    assert(k.contains('['));
                }
            }
            lemma_first_char_none(k, '[', 0);
        },
        Segment::Slot(k, i) => {
            lemma_decimal(i);
            let digits = decimal(i);
            let t = step_text(step);
            assert(t.len() == k.len() + digits.len() + 2);
            assert forall|j: int| 0 <= j < t.len() implies t[j] != '.' by {
                if j < k.len() {
                    assert(t[j] == k[j]);
                    if k[j] == '.' {
                        assert(k.contains('.'));
                    }
                } else if j == k.len() {
                    assert(t[j] == '[');
                } else if j < k.len() + 1 + digits.len() {
                    assert(t[j] == digits[j - k.len() - 1]);
                    assert(is_digit(digits[j - k.len() - 1]));
                } else {
                    assert(t[j] == ']');
                }
            }
            if t.contains('.') {
                let j = choose|j: int| 0 <= j < t.len() && t[j] == '.';
                assert(false);
            }
            let at = k.len() as int;
            assert(t[at] == '[');
            assert forall|j: int| 0 <= j < at implies t[j] != '[' by {
                assert(t[j] == k[j]);
                if k[j] == '[' {
                    assert(k.contains('['));
                }
            }
            lemma_first_char_is(t, '[', 0, at);
            assert(t.last() == ']');
            assert(t.subrange(at + 1, t.len() - 1) =~= digits);
            assert(t.subrange(0, at) =~= k);
        },
    }
}

/// Reconstruction reads the path that spells plain steps as those steps.
pub proof fn lemma_segments_of_render(steps: Seq<Segment>)
    requires
        plain_steps(steps),
    ensures
        segments(render(steps)) == steps,
{
    let texts = steps_text(steps);
    let path = render(steps);
    let joined = join(texts, seq!['.']);
    assert(path.subrange(0, 2) =~= seq!['$', '.']);
    assert(matches_at(path, seq!['$', '.'], 0));
    assert(without_root(path) =~= joined);
    assert forall|i: int| 0 <= i < texts.len() implies !(#[trigger] texts[i]).contains('.') by {
        lemma_step_text(steps[i]);
    }
    assert(joined.subrange(0, joined.len() as int) =~= joined);
    lemma_split_join(texts, joined, 0);
    assert(split_on(joined, seq!['.']) == texts);
    let read = texts.map_values(|part: Seq<char>| parse_part(part));
    assert forall|i: int| 0 <= i < steps.len() implies read[i] == steps[i] by {
        lemma_step_text(steps[i]);
    }
    assert(read =~= steps);
}


/// The path of what stands at these steps: empty at the root.
pub open spec fn prefix_of(pre: Seq<Segment>) -> Seq<char> {
    if pre.len() == 0 {
        Seq::empty()
    } else {
        render(pre)
    }
}

/// Leaves with their paths written out.
pub open spec fn rendered(leaves: Seq<(Seq<Segment>, Json)>) -> Seq<(Seq<char>, Json)> {
    Seq::new(leaves.len(), |i: int| (render(leaves[i].0), leaves[i].1))
}

/// The index after each pair has been recorded, in order.
pub open spec fn put_all(index: Seq<(Seq<char>, Json)>, pairs: Seq<(Seq<char>, Json)>) -> Seq<
    (Seq<char>, Json),
>
    decreases pairs.len(),
{
    if pairs.len() == 0 {
        index
    } else {
        put(put_all(index, pairs.drop_last()), pairs.last().0, pairs.last().1)
    }
}

/// Recording pairs after pairs is recording them all.
pub proof fn lemma_put_all_concat(
    index: Seq<(Seq<char>, Json)>,
    a: Seq<(Seq<char>, Json)>,
    b: Seq<(Seq<char>, Json)>,
)
    ensures
        put_all(index, a + b) == put_all(put_all(index, a), b),
    decreases b.len(),
{
    if b.len() == 0 {
        assert(a + b =~= a);
    } else {
        lemma_put_all_concat(index, a, b.drop_last());
        assert((a + b).drop_last() =~= a + b.drop_last());
        assert((a + b).last() == b.last());
    }
}

/// Writing out the paths of leaves after leaves.
pub proof fn lemma_rendered_concat(a: Seq<(Seq<Segment>, Json)>, b: Seq<(Seq<Segment>, Json)>)
    ensures
        rendered(a + b) == rendered(a) + rendered(b),
{
    assert(rendered(a + b) =~= rendered(a) + rendered(b));
}

/// The path of a member is the path that spells the steps to it.
pub proof fn lemma_member_path(action: Seq<char>, pre: Seq<Segment>, k: Seq<char>)
    ensures
        member_path(FlattenKeyPrefixType::Input, action, prefix_of(pre), k) == render(
            pre.push(Segment::Key(k)),
        ),
        render(pre.push(Segment::Key(k))).len() >= 2,
{
    reveal_strlit("$.");
    reveal_strlit(".");
    assert("$."@ =~= seq!['$', '.']);
    assert("."@ =~= seq!['.']);
    let long = pre.push(Segment::Key(k));
    let texts = steps_text(long);
    assert(texts.last() == k);
    assert(texts.drop_last() =~= steps_text(pre));
    if pre.len() == 0 {
        assert(join(texts, seq!['.']) == k);
    } else {
        assert(render(pre) + seq!['.'] + k =~= seq!['$', '.'] + (join(steps_text(pre), seq!['.'])
            + seq!['.'] + k));
    }
}

/// The path of an item is the path that spells the steps to it.
pub proof fn lemma_item_path(pre: Seq<Segment>, k: Seq<char>, i: nat)
    ensures
        item_path(render(pre.push(Segment::Key(k))), i) == render(pre.push(Segment::Slot(k, i))),
{
    reveal_strlit("[");
    reveal_strlit("]");
    assert("["@ =~= seq!['[']);
    assert("]"@ =~= seq![']']);
    let dot = seq!['.'];
    let by_key = steps_text(pre.push(Segment::Key(k)));
    let by_slot = steps_text(pre.push(Segment::Slot(k, i)));
    let more = seq!['['] + decimal(i) + seq![']'];
    assert(by_key.drop_last() =~= steps_text(pre));
    assert(by_slot.drop_last() =~= steps_text(pre));
    assert(by_key.last() == k);
    assert(by_slot.last() =~= k + more);
    if pre.len() == 0 {
        assert(join(by_key, dot) == k);
        assert(join(by_slot, dot) == k + seq!['['] + decimal(i) + seq![']']);
        assert(seq!['$', '.'] + k + seq!['['] + decimal(i) + seq![']'] =~= seq!['$', '.'] + (k
            + seq!['['] + decimal(i) + seq![']']));
    } else {
        let head = join(steps_text(pre), dot);
        assert(seq!['$', '.'] + (head + dot + k) + seq!['['] + decimal(i) + seq![']'] =~= seq![
            '$',
            '.',
        ] + (head + dot + (k + seq!['['] + decimal(i) + seq![']'])));
    }
}

/// Flattening plain members records their leaves, each under the path that
/// spells its steps.
pub proof fn lemma_flatten_members(
    action: Seq<char>,
    pre: Seq<Segment>,
    ms: Seq<(Seq<char>, Json)>,
    index: Seq<(Seq<char>, Json)>,
)
    requires
        plain_members(ms),
    ensures
        flatten_members(FlattenKeyPrefixType::Input, action, ms, prefix_of(pre), index) == put_all(
            index,
            rendered(members_leaves(pre, ms)),
        ),
    decreases ms, 1int,
{
    if ms.len() == 0 {
        assert(rendered(members_leaves(pre, ms)) =~= Seq::<(Seq<char>, Json)>::empty());
    } else {
        let rest = ms.drop_last();
        let (k, v) = ms.last();
        lemma_plain_rest(ms);
        lemma_flatten_members(action, pre, rest, index);
        let so_far = put_all(index, rendered(members_leaves(pre, rest)));
        lemma_member_path(action, pre, k);
        lemma_flatten_member(action, pre, k, v, so_far);
        lemma_rendered_concat(members_leaves(pre, rest), member_leaves(pre, k, v));
        lemma_put_all_concat(
            index,
            rendered(members_leaves(pre, rest)),
            rendered(member_leaves(pre, k, v)),
        );
    }
}

/// Flattening a plain member records its leaves.
pub proof fn lemma_flatten_member(
    action: Seq<char>,
    pre: Seq<Segment>,
    k: Seq<char>,
    v: Json,
    index: Seq<(Seq<char>, Json)>,
)
    requires
        plain_value(v),
    ensures
        flatten_into(
            FlattenKeyPrefixType::Input,
            action,
            v,
            render(pre.push(Segment::Key(k))),
            index,
        ) == put_all(index, rendered(member_leaves(pre, k, v))),
    decreases v, 0int,
{
    let long = pre.push(Segment::Key(k));
    match v {
        Json::Object(c) => {
            lemma_flatten_members(action, long, c, index);
        },
        Json::Array(items) => {
            lemma_flatten_items(action, pre, k, items, items.len() as int, index);
            assert(items.take(items.len() as int) =~= items);
        },
        _ => {
            let one = rendered(seq![(long, v)]);
            assert(one =~= seq![(render(long), v)]);
            assert(one.drop_last() =~= Seq::<(Seq<char>, Json)>::empty());
            assert(put_all(index, one.drop_last()) == index);
            assert(one.last() == (render(long), v));
        },
    }
}

/// Flattening the first `j` plain items of an array records their leaves.
pub proof fn lemma_flatten_items(
    action: Seq<char>,
    pre: Seq<Segment>,
    k: Seq<char>,
    items: Seq<Json>,
    j: int,
    index: Seq<(Seq<char>, Json)>,
)
    requires
        0 <= j <= items.len(),
        forall|i: int| 0 <= i < items.len() ==> plain_item(#[trigger] items[i]),
    ensures
        flatten_items(
            FlattenKeyPrefixType::Input,
            action,
            items.take(j),
            render(pre.push(Segment::Key(k))),
            index,
        ) == put_all(index, rendered(items_leaves(pre, k, items.take(j)))),
    decreases items, j,
{
    if j == 0 {
        assert(rendered(items_leaves(pre, k, items.take(0))) =~= Seq::<(Seq<char>, Json)>::empty());
    } else {
        let i = (j - 1) as nat;
        lemma_flatten_items(action, pre, k, items, j - 1, index);
        let now = items.take(j);
        assert(now.drop_last() =~= items.take(j - 1));
        assert(now.last() == items[j - 1]);
        let earlier = items_leaves(pre, k, items.take(j - 1));
        let mine = item_leaves(pre, k, i, items[j - 1]);
        let so_far = put_all(index, rendered(earlier));
        lemma_item_path(pre, k, i);
        let long = pre.push(Segment::Slot(k, i));
        assert(plain_item(items[j - 1]));
        assert(now.len() - 1 == i);
        match items[j - 1] {
            Json::Object(c) => {
                lemma_flatten_members(action, long, c, so_far);
                assert(long.len() > 0);
                assert(prefix_of(long) == render(long));
            },
            Json::Array(_) => {
                assert(false);
            },
            _ => {
                let one = rendered(seq![(long, items[j - 1])]);
                assert(one =~= seq![(render(long), items[j - 1])]);
                assert(one.drop_last() =~= Seq::<(Seq<char>, Json)>::empty());
                assert(put_all(so_far, one.drop_last()) == so_far);
                assert(one.last() == (render(long), items[j - 1]));
            },
        }
        let path = render(pre.push(Segment::Key(k)));
        let style = FlattenKeyPrefixType::Input;
        assert(flatten_items(style, action, now, path, index) == flatten_into(
            style,
            action,
            now.last(),
            item_path(path, (now.len() - 1) as nat),
            flatten_items(style, action, now.drop_last(), path, index),
        ));
        assert(items_leaves(pre, k, now) == items_leaves(pre, k, now.drop_last()) + item_leaves(
            pre,
            k,
            (now.len() - 1) as nat,
            now.last(),
        ));
        assert(flatten_into(style, action, items[j - 1], render(long), so_far) == put_all(
            so_far,
            rendered(mine),
        ));
        lemma_rendered_concat(earlier, mine);
        lemma_put_all_concat(index, rendered(earlier), rendered(mine));
    }
}

/// Reconstruction from the written-out paths of leaves writes each leaf at its
/// steps.
pub proof fn lemma_rebuilt_is_fold(leaves: Seq<(Seq<Segment>, Json)>)
    requires
        forall|i: int| 0 <= i < leaves.len() ==> plain_steps((#[trigger] leaves[i]).0),
    ensures
        rebuilt(rendered(leaves)) == fold_place(Seq::empty(), leaves, 0),
    decreases leaves.len(),
{
    if leaves.len() > 0 {
        let rest = leaves.drop_last();
        assert forall|i: int| 0 <= i < rest.len() implies plain_steps((#[trigger] rest[i]).0) by {
            assert(rest[i] == leaves[i]);
        }
        lemma_rebuilt_is_fold(rest);
        assert(rendered(leaves).drop_last() =~= rendered(rest));
        assert(rendered(leaves).last() == (render(leaves.last().0), leaves.last().1));
        assert(plain_steps(leaves[leaves.len() - 1].0));
        lemma_segments_of_render(leaves.last().0);
    } else {
        assert(rendered(leaves) =~= Seq::<(Seq<char>, Json)>::empty());
    }
}

/// Recording pairs of different paths into an empty index keeps them all, in
/// order.
pub proof fn lemma_put_all_distinct(pairs: Seq<(Seq<char>, Json)>)
    requires
        distinct_names(pairs),
    ensures
        put_all(Seq::empty(), pairs) == pairs,
    decreases pairs.len(),
{
    if pairs.len() == 0 {
        assert(pairs =~= Seq::<(Seq<char>, Json)>::empty());
    } else {
        let rest = pairs.drop_last();
        assert forall|i: int, j: int| 0 <= i < j < rest.len() implies (#[trigger] rest[i]).0 != (
        #[trigger] rest[j]).0 by {
            assert(rest[i] == pairs[i] && rest[j] == pairs[j]);
        }
        lemma_put_all_distinct(rest);
        assert forall|j: int| 0 <= j < rest.len() implies (#[trigger] rest[j]).0
            != pairs.last().0 by {
            assert(rest[j] == pairs[j]);
            assert(pairs[j].0 != pairs[pairs.len() - 1].0);
        }
        crate::roundtrip::lemma_position_none(rest, pairs.last().0);
        assert(rest.push(pairs.last()) =~= pairs);
    }
}


/// The name in a step.
pub open spec fn step_key(step: Segment) -> Seq<char> {
    match step {
        Segment::Key(k) => k,
        Segment::Slot(k, _) => k,
    }
}

/// Every step can be spelled.
pub open spec fn plain_prefix(pre: Seq<Segment>) -> bool {
    forall|i: int| 0 <= i < pre.len() ==> plain_step(#[trigger] pre[i])
}

/// Leaves whose steps can be spelled and are all different.
pub open spec fn tidy(leaves: Seq<(Seq<Segment>, Json)>) -> bool {
    &&& forall|i: int| 0 <= i < leaves.len() ==> plain_steps((#[trigger] leaves[i]).0)
    &&& forall|i: int, j: int|
        0 <= i < j < leaves.len() ==> (#[trigger] leaves[i]).0 != (#[trigger] leaves[j]).0
}

/// One of the members has this name.
pub open spec fn has_key(ms: Seq<(Seq<char>, Json)>, key: Seq<char>) -> bool {
    exists|t: int| 0 <= t < ms.len() && (#[trigger] ms[t]).0 == key
}

/// Every leaf takes, at depth `d`, a step with a name of these members.
pub open spec fn keyed(leaves: Seq<(Seq<Segment>, Json)>, d: int, ms: Seq<(Seq<char>, Json)>) -> bool {
    forall|i: int|
        0 <= i < leaves.len() ==> (#[trigger] leaves[i]).0.len() > d && has_key(
            ms,
            step_key(leaves[i].0[d]),
        )
}

/// Every leaf takes, at depth `d`, a slot below `j` of the array `k`.
pub open spec fn slotted(leaves: Seq<(Seq<Segment>, Json)>, d: int, k: Seq<char>, j: int) -> bool {
    forall|i: int|
        0 <= i < leaves.len() ==> (#[trigger] leaves[i]).0.len() > d && (leaves[i].0[d] matches Segment::Slot(
            name,
            at,
        ) && name == k && at < j)
}

/// Tidy leaves after tidy leaves are tidy, where no leaf of the one list
/// shares its steps with a leaf of the other.
pub proof fn lemma_tidy_concat(a: Seq<(Seq<Segment>, Json)>, b: Seq<(Seq<Segment>, Json)>)
    requires
        tidy(a),
        tidy(b),
        forall|i: int, j: int|
            0 <= i < a.len() && 0 <= j < b.len() ==> (#[trigger] a[i]).0 != (#[trigger] b[j]).0,
    ensures
        tidy(a + b),
{
    let all = a + b;
    assert forall|i: int| 0 <= i < all.len() implies plain_steps((#[trigger] all[i]).0) by {
        if i < a.len() {
            assert(all[i] == a[i]);
        } else {
            assert(all[i] == b[i - a.len()]);
        }
    }
    assert forall|i: int, j: int| 0 <= i < j < all.len() implies (#[trigger] all[i]).0 != (
    #[trigger] all[j]).0 by {
        if j < a.len() {
            assert(all[i] == a[i] && all[j] == a[j]);
        } else if i >= a.len() {
            assert(all[i] == b[i - a.len()] && all[j] == b[j - a.len()]);
        } else {
            assert(all[i] == a[i] && all[j] == b[j - a.len()]);
        }
    }
}

/// The leaves of plain members are tidy, and each begins with one of the
/// members.
pub proof fn lemma_tidy_members(pre: Seq<Segment>, ms: Seq<(Seq<char>, Json)>)
    requires
        plain_members(ms),
        plain_prefix(pre),
    ensures
        tidy(members_leaves(pre, ms)),
        keyed(members_leaves(pre, ms), pre.len() as int, ms),
    decreases ms, 1int,
{
    let d = pre.len() as int;
    if ms.len() > 0 {
        let rest = ms.drop_last();
        let (k, v) = ms.last();
        lemma_plain_rest(ms);
        lemma_tidy_members(pre, rest);
        lemma_tidy_member(pre, k, v);
        let a = members_leaves(pre, rest);
        let b = member_leaves(pre, k, v);
        assert forall|i: int, j: int| 0 <= i < a.len() && 0 <= j < b.len() implies (
        #[trigger] a[i]).0 != (#[trigger] b[j]).0 by {
            let key = step_key(a[i].0[d]);
            assert(has_key(rest, key));
            let t = choose|t: int| 0 <= t < rest.len() && (#[trigger] rest[t]).0 == key;
            assert(rest[t] == ms[t]);
            assert(ms[t].0 != ms[ms.len() - 1].0);
            assert(step_key(b[j].0[d]) == k);
        }
        lemma_tidy_concat(a, b);
        let all = a + b;
        assert forall|i: int| 0 <= i < all.len() implies (#[trigger] all[i]).0.len() > d
            && has_key(ms, step_key(all[i].0[d])) by {
            if i < a.len() {
                assert(all[i] == a[i]);
                let key = step_key(a[i].0[d]);
                assert(has_key(rest, key));
                let t = choose|t: int| 0 <= t < rest.len() && (#[trigger] rest[t]).0 == key;
                assert(ms[t] == rest[t]);
            } else {
                assert(all[i] == b[i - a.len()]);
                assert(ms[ms.len() - 1].0 == k);
            }
        }
    }
}

/// The leaves of a plain member are tidy, and each begins with the member.
pub proof fn lemma_tidy_member(pre: Seq<Segment>, k: Seq<char>, v: Json)
    requires
        plain_key(k),
        plain_value(v),
        v is Array ==> k.len() > 0,
        plain_prefix(pre),
    ensures
        tidy(member_leaves(pre, k, v)),
        forall|i: int|
            0 <= i < member_leaves(pre, k, v).len() ==> (#[trigger] member_leaves(
                pre,
                k,
                v,
            )[i]).0.len() > pre.len() && step_key(member_leaves(pre, k, v)[i].0[pre.len() as int])
                == k,
    decreases v, 0int,
{
    let d = pre.len() as int;
    let leaves = member_leaves(pre, k, v);
    match v {
        Json::Object(c) => {
            let step = Segment::Key(k);
            let long = pre.push(step);
            assert forall|i: int| 0 <= i < long.len() implies plain_step(#[trigger] long[i]) by {
                if i < pre.len() {
                    assert(long[i] == pre[i]);
                }
            }
            lemma_tidy_members(long, c);
            lemma_members_leaves_below(long, c);
            lemma_below_under(leaves, pre, step);
        },
        Json::Array(items) => {
            lemma_tidy_items(pre, k, items, items.len() as int);
            assert(items.take(items.len() as int) =~= items);
        },
        _ => {
            let steps = pre.push(Segment::Key(k));
            assert(leaves == seq![(steps, v)]);
            assert forall|i: int| 0 <= i < steps.len() implies plain_step(#[trigger] steps[i]) by {
                if i < pre.len() {
                    assert(steps[i] == pre[i]);
                }
            }
        },
    }
}

/// The leaves of a plain item are tidy, and each begins with the item's slot.
pub proof fn lemma_tidy_item(pre: Seq<Segment>, k: Seq<char>, at: nat, v: Json)
    requires
        plain_key(k),
        k.len() > 0,
        plain_item(v),
        at < usize::MAX,
        plain_prefix(pre),
    ensures
        tidy(item_leaves(pre, k, at, v)),
        slotted(item_leaves(pre, k, at, v), pre.len() as int, k, at as int + 1),
        forall|i: int|
            0 <= i < item_leaves(pre, k, at, v).len() ==> (#[trigger] item_leaves(
                pre,
                k,
                at,
                v,
            )[i]).0[pre.len() as int] == Segment::Slot(k, at),
    decreases v, 0int,
{
    let d = pre.len() as int;
    let leaves = item_leaves(pre, k, at, v);
    let step = Segment::Slot(k, at);
    let long = pre.push(step);
    assert forall|i: int| 0 <= i < long.len() implies plain_step(#[trigger] long[i]) by {
        if i < pre.len() {
            assert(long[i] == pre[i]);
        }
    }
    match v {
        Json::Object(c) => {
            lemma_tidy_members(long, c);
            lemma_members_leaves_below(long, c);
            lemma_below_under(leaves, pre, step);
        },
        _ => {
            assert(leaves == seq![(long, v)]);
        },
    }
}

/// The leaves of the first `j` plain items are tidy, and each begins with one
/// of their slots.
pub proof fn lemma_tidy_items(pre: Seq<Segment>, k: Seq<char>, items: Seq<Json>, j: int)
    requires
        plain_key(k),
        k.len() > 0,
        0 <= j <= items.len(),
        items.len() <= usize::MAX,
        forall|i: int| 0 <= i < items.len() ==> plain_item(#[trigger] items[i]),
        plain_prefix(pre),
    ensures
        tidy(items_leaves(pre, k, items.take(j))),
        slotted(items_leaves(pre, k, items.take(j)), pre.len() as int, k, j),
    decreases items, j,
{
    let d = pre.len() as int;
    if j > 0 {
        let at = (j - 1) as nat;
        lemma_tidy_items(pre, k, items, j - 1);
        let now = items.take(j);
        assert(now.drop_last() =~= items.take(j - 1));
        assert(now.last() == items[j - 1]);
        lemma_tidy_item(pre, k, at, items[j - 1]);
        let a = items_leaves(pre, k, items.take(j - 1));
        let b = item_leaves(pre, k, at, items[j - 1]);
        assert(items_leaves(pre, k, now) == a + b);
        assert forall|x: int, y: int| 0 <= x < a.len() && 0 <= y < b.len() implies (
        #[trigger] a[x]).0 != (#[trigger] b[y]).0 by {
            assert(b[y].0[d] == Segment::Slot(k, at));
            assert(a[x].0[d] != Segment::Slot(k, at));
        }
        lemma_tidy_concat(a, b);
        let all = a + b;
        assert forall|i: int| 0 <= i < all.len() implies (#[trigger] all[i]).0.len() > d && (
        all[i].0[d] matches Segment::Slot(name, idx) && name == k && idx < j) by {
            if i < a.len() {
                assert(all[i] == a[i]);
            } else {
                assert(all[i] == b[i - a.len()]);
            }
        }
    }
}

/// Tidy leaves have different paths.
pub proof fn lemma_tidy_paths(leaves: Seq<(Seq<Segment>, Json)>)
    requires
        tidy(leaves),
    ensures
        distinct_names(rendered(leaves)),
{
    let pairs = rendered(leaves);
    assert forall|i: int, j: int| 0 <= i < j < pairs.len() implies (#[trigger] pairs[i]).0 != (
    #[trigger] pairs[j]).0 by {
        lemma_segments_of_render(leaves[i].0);
        lemma_segments_of_render(leaves[j].0);
        assert(leaves[i].0 != leaves[j].0);
    }
}

/// Reconstructing what flattening made of a document gives the document back,
/// member for member and in the same order: for an object whose members are
/// plain, flattened with bare paths.
pub proof fn lemma_round_trip(action: Seq<char>, ms: Seq<(Seq<char>, Json)>)
    requires
        plain_members(ms),
    ensures
        rebuilt(flattened(FlattenKeyPrefixType::Input, action, Json::Object(ms))) == ms,
        Json::Object(rebuilt(flattened(FlattenKeyPrefixType::Input, action, Json::Object(ms))))
            == Json::Object(ms),
        same_json(
            Json::Object(rebuilt(flattened(FlattenKeyPrefixType::Input, action, Json::Object(ms)))),
            Json::Object(ms),
        ),
{
    lemma_same_json_reflexive(Json::Object(ms));
    let root: Seq<Segment> = Seq::empty();
    let leaves = members_leaves(root, ms);
    lemma_flatten_members(action, root, ms, Seq::empty());
    lemma_tidy_members(root, ms);
    lemma_tidy_paths(leaves);
    lemma_put_all_distinct(rendered(leaves));
    assert(flattened(FlattenKeyPrefixType::Input, action, Json::Object(ms)) == rendered(leaves));
    lemma_rebuilt_is_fold(leaves);
    lemma_rebuild_members(root, ms);
}

} // verus!
