//! Reconstruction: a document built from paths and the values that belong at
//! them. The inverse of flattening, for paths that name members and array slots.

use crate::json::{
    find_member, items_view, lemma_items_view, lemma_member_well_formed, lemma_members_view,
    lemma_put_well_formed, lemma_well_formed_items, member, members_view, position, put,
    set_member, well_formed, well_formed_members, Json, JsonValue,
};
use crate::text::{
    all_digits, check_at, decimal_value, find_from, first_match, from_chars, lines,
    parse_decimal, slice_chars, split, split_on, starts_with, to_chars,
};
use vstd::prelude::*;

verus! {

/// One step of a path: into the member `name`, or into slot `index` of the
/// array that is the member `name`.
pub enum Segment {
    Key(Seq<char>),
    Slot(Seq<char>, nat),
}

/// One step of a path, as the library holds it.
#[derive(Debug)]
pub enum PathPart {
    Key(String),
    Slot(String, usize),
}

impl View for PathPart {
    type V = Segment;

    open spec fn view(&self) -> Segment {
        match self {
            PathPart::Key(name) => Segment::Key(name@),
            PathPart::Slot(name, index) => Segment::Slot(name@, *index as nat),
        }
    }
}

impl PathPart {
    /// A slot lies at a position that an array can have.
    pub open spec fn in_reach(&self) -> bool {
        match self {
            PathPart::Key(_) => true,
            PathPart::Slot(_, index) => *index < usize::MAX,
        }
    }
}

/// The steps that a vector of parts holds.
pub open spec fn parts_view(parts: Seq<PathPart>) -> Seq<Segment> {
    Seq::new(parts.len(), |i: int| parts[i]@)
}

/// The step that one part of a path writes. `name[digits]` with a non-empty name
/// without `[` is a slot, as long as the digits write a position that an array
/// can have; any other text is the name of a member.
pub open spec fn parse_part(part: Seq<char>) -> Segment {
    match first_match(part, seq!['['], 0) {
        Some(i) if 0 < i && i + 3 <= part.len() && part.last() == ']' && all_digits(
            part.subrange(i + 1, part.len() - 1),
        ) && decimal_value(part.subrange(i + 1, part.len() - 1)) < usize::MAX => Segment::Slot(
            part.subrange(0, i),
            decimal_value(part.subrange(i + 1, part.len() - 1)),
        ),
        _ => Segment::Key(part),
    }
}

/// A path without its leading `$.`, where it has one.
pub open spec fn without_root(path: Seq<char>) -> Seq<char> {
    if starts_with(path, seq!['$', '.']) {
        path.subrange(2, path.len() as int)
    } else {
        path
    }
}

/// The steps of a path: its parts between the dots, after a leading `$.`.
pub open spec fn segments(path: Seq<char>) -> Seq<Segment> {
    split_on(without_root(path), seq!['.']).map_values(|part: Seq<char>| parse_part(part))
}

/// The empty object.
pub open spec fn empty_object() -> Json {
    Json::Object(Seq::empty())
}

/// `items`, with empty objects added at the end until there are `len` of them.
pub open spec fn grown(items: Seq<Json>, len: nat) -> Seq<Json> {
    if items.len() >= len {
        items
    } else {
        items + Seq::new((len - items.len()) as nat, |i: int| empty_object())
    }
}

/// The members after `value` has been written at the last step of a path. A
/// member takes the value whatever it held. A slot takes it where the slot holds
/// an object, after the array has grown to reach the slot; a slot that holds
/// anything else keeps it, and a member that is no array is left alone.
pub open spec fn place_last(members: Seq<(Seq<char>, Json)>, step: Segment, value: Json) -> Seq<
    (Seq<char>, Json),
> {
    match step {
        Segment::Key(name) => put(members, name, value),
        Segment::Slot(name, index) => {
            let held = match member(members, name) {
                Some(v) => v,
                None => Json::Array(Seq::empty()),
            };
            match held {
                Json::Array(items) => {
                    let wide = grown(items, index + 1);
                    put(
                        members,
                        name,
                        Json::Array(
                            if wide[index as int] is Object {
                                wide.update(index as int, value)
                            } else {
                                wide
                            },
                        ),
                    )
                },
                _ => members,
            }
        },
    }
}

/// The members after `value` has been written at the path `steps[from..]`; none
/// where a step before the last meets a value of the wrong kind: a member that
/// is no object, a member that is no array, or a slot that holds no object.
/// Missing members are made on the way, and arrays grow to reach their slots.
pub open spec fn place_from(
    members: Seq<(Seq<char>, Json)>,
    steps: Seq<Segment>,
    from: int,
    value: Json,
) -> Option<Seq<(Seq<char>, Json)>>
    decreases steps.len() - from,
{
    if from < 0 || from >= steps.len() {
        None
    } else if from == steps.len() - 1 {
        Some(place_last(members, steps[from], value))
    } else {
        match steps[from] {
            Segment::Key(name) => {
                let held = match member(members, name) {
                    Some(v) => v,
                    None => empty_object(),
                };
                match held {
                    Json::Object(child) => match place_from(child, steps, from + 1, value) {
                        Some(filled) => Some(put(members, name, Json::Object(filled))),
                        None => None,
                    },
                    _ => None,
                }
            },
            Segment::Slot(name, index) => {
                let held = match member(members, name) {
                    Some(v) => v,
                    None => Json::Array(Seq::empty()),
                };
                match held {
                    Json::Array(items) => {
                        let wide = grown(items, index + 1);
                        match wide[index as int] {
                            Json::Object(child) => match place_from(child, steps, from + 1, value) {
                                Some(filled) => Some(
                                    put(
                                        members,
                                        name,
                                        Json::Array(wide.update(index as int, Json::Object(filled))),
                                    ),
                                ),
                                None => None,
                            },
                            _ => None,
                        }
                    },
                    _ => None,
                }
            },
        }
    }
}

/// The members of the document that the pairs build, one pair after the other.
/// A pair whose path cannot be followed leaves the document as it was.
pub open spec fn rebuilt(pairs: Seq<(Seq<char>, Json)>) -> Seq<(Seq<char>, Json)>
    decreases pairs.len(),
{
    if pairs.len() == 0 {
        Seq::empty()
    } else {
        let before = rebuilt(pairs.drop_last());
        match place_from(before, segments(pairs.last().0), 0, pairs.last().1) {
            Some(after) => after,
            None => before,
        }
    }
}

/// Growing an array of well-formed items keeps them well formed.
pub proof fn lemma_grown_well_formed(items: Seq<Json>, len: nat)
    requires
        well_formed(Json::Array(items)),
    ensures
        well_formed(Json::Array(grown(items, len))),
{
    let wide = grown(items, len);
    assert(well_formed(empty_object()));
    lemma_well_formed_items(items);
    assert forall|i: int| 0 <= i < wide.len() implies well_formed(#[trigger] wide[i]) by {
        if i < items.len() {
            assert(wide[i] == items[i]);
            assert(well_formed(items[i]));
        } else {
            assert(wide[i] == empty_object());
        }
    }
}

/// Writing a well-formed value at a path keeps an object well formed.
pub proof fn lemma_place_well_formed(
    members: Seq<(Seq<char>, Json)>,
    steps: Seq<Segment>,
    from: int,
    value: Json,
)
    requires
        well_formed_members(members),
        well_formed(value),
    ensures
        match place_from(members, steps, from, value) {
            Some(after) => well_formed_members(after),
            None => true,
        },
    decreases steps.len() - from,
{
    if 0 <= from < steps.len() {
        let last = from == steps.len() - 1;
        match steps[from] {
            Segment::Key(name) => {
                lemma_member_well_formed(members, name);
                if last {
                    lemma_put_well_formed(members, name, value);
                } else {
                    let held = match member(members, name) {
                        Some(v) => v,
                        None => empty_object(),
                    };
                    match held {
                        Json::Object(child) => {
                            lemma_place_well_formed(child, steps, from + 1, value);
                            match place_from(child, steps, from + 1, value) {
                                Some(filled) => {
                                    lemma_put_well_formed(members, name, Json::Object(filled));
                                },
                                None => {},
                            }
                        },
                        _ => {},
                    }
                }
            },
            Segment::Slot(name, index) => {
                lemma_member_well_formed(members, name);
                let held = match member(members, name) {
                    Some(v) => v,
                    None => Json::Array(Seq::empty()),
                };
                match held {
                    Json::Array(items) => {
                        lemma_grown_well_formed(items, index + 1);
                        let wide = grown(items, index + 1);
                        lemma_well_formed_items(wide);
                        assert(well_formed(wide[index as int]));
                        if last {
                            let next = if wide[index as int] is Object {
                                wide.update(index as int, value)
                            } else {
                                wide
                            };
                            assert forall|i: int| 0 <= i < next.len() implies well_formed(
                                #[trigger] next[i],
                            ) by {
                                if i != index {
                                    assert(next[i] == wide[i]);
                                }
                            }
                            lemma_put_well_formed(members, name, Json::Array(next));
                        } else {
                            match wide[index as int] {
                                Json::Object(child) => {
                                    lemma_place_well_formed(child, steps, from + 1, value);
                                    match place_from(child, steps, from + 1, value) {
                                        Some(filled) => {
                                            let next = wide.update(
                                                index as int,
                                                Json::Object(filled),
                                            );
                                            assert forall|i: int|
                                                0 <= i < next.len() implies well_formed(
                                                #[trigger] next[i],
                                            ) by {
                                                if i != index {
                                                    assert(next[i] == wide[i]);
                                                }
                                            }
                                            lemma_put_well_formed(members, name, Json::Array(next));
                                        },
                                        None => {},
                                    }
                                },
                                _ => {},
                            }
                        }
                    },
                    _ => {},
                }
            },
        }
    }
}

/// Pairs with well-formed values build a well-formed document.
pub proof fn lemma_rebuilt_well_formed(pairs: Seq<(Seq<char>, Json)>)
    requires
        forall|i: int| 0 <= i < pairs.len() ==> well_formed((#[trigger] pairs[i]).1),
    ensures
        well_formed_members(rebuilt(pairs)),
    decreases pairs.len(),
{
    if pairs.len() > 0 {
        let rest = pairs.drop_last();
        assert forall|i: int| 0 <= i < rest.len() implies well_formed((#[trigger] rest[i]).1) by {
            assert(rest[i] == pairs[i]);
        }
        lemma_rebuilt_well_formed(rest);
        assert(well_formed(pairs[pairs.len() - 1].1));
        lemma_place_well_formed(rebuilt(rest), segments(pairs.last().0), 0, pairs.last().1);
    }
}

/// Writing into an object without members always succeeds.
pub proof fn lemma_place_fresh(steps: Seq<Segment>, from: int, value: Json)
    requires
        0 <= from < steps.len(),
    ensures
        place_from(Seq::empty(), steps, from, value) is Some,
    decreases steps.len() - from,
{
    let none: Seq<(Seq<char>, Json)> = Seq::empty();
    if from < steps.len() - 1 {
        lemma_place_fresh(steps, from + 1, value);
        match steps[from] {
            Segment::Key(name) => {
                assert(member(none, name) is None);
            },
            Segment::Slot(name, index) => {
                assert(member(none, name) is None);
                let wide = grown(Seq::empty(), index + 1);
                assert(wide[index as int] == empty_object());
            },
        }
    }
}

/// Reads one part of a path.
pub fn read_part(part: &Vec<char>) -> (r: PathPart)
    ensures
        r@ == parse_part(part@),
        r.in_reach(),
{
    let mut bracket: Vec<char> = Vec::new();
    bracket.push('[');
    assert(bracket@ =~= seq!['[']);
    let n = part.len();
    match find_from(part, &bracket, 0) {
        Some(i) => {
            if 0 < i && n >= 3 && i <= n - 3 && part[n - 1] == ']' {
                let digits = slice_chars(part, i + 1, n - 1);
                match parse_decimal(&digits) {
                    Some(index) => {
                        if index < usize::MAX {
                            return PathPart::Slot(from_chars(&slice_chars(part, 0, i)), index);
                        }
                    },
                    None => {},
                }
            }
            PathPart::Key(from_chars(part))
        },
        None => PathPart::Key(from_chars(part)),
    }
}

/// Reads a path into its steps.
pub fn read_path(path: &String) -> (r: Vec<PathPart>)
    ensures
        parts_view(r@) == segments(path@),
        r.len() >= 1,
        forall|i: int| 0 <= i < r.len() ==> (#[trigger] r@[i]).in_reach(),
{
    let all = to_chars(path.as_str());
    let mut root: Vec<char> = Vec::new();
    root.push('$');
    root.push('.');
    assert(root@ =~= seq!['$', '.']);
    let rest = if check_at(&all, &root, 0) {
        slice_chars(&all, 2, all.len())
    } else {
        all
    };
    let mut dot: Vec<char> = Vec::new();
    dot.push('.');
    assert(dot@ =~= seq!['.']);
    let pieces = split(&rest, &dot);
    let ghost want = segments(path@);
    let mut out: Vec<PathPart> = Vec::new();
    let mut k: usize = 0;
    while k < pieces.len()
        invariant
            k <= pieces.len(),
            lines(pieces@) == split_on(without_root(path@), seq!['.']),
            want == segments(path@),
            out.len() == k,
            forall|i: int| 0 <= i < k ==> (#[trigger] out@[i])@ == want[i],
            forall|i: int| 0 <= i < k ==> (#[trigger] out@[i]).in_reach(),
        decreases pieces.len() - k,
    {
        let part = read_part(&pieces[k]);
        proof {
            assert(lines(pieces@)[k as int] == pieces@[k as int]@);
        }
        out.push(part);
        k += 1;
    }
    assert(parts_view(out@) =~= want);
    out
}

fn grow(items: &mut Vec<JsonValue>, len: usize)
    ensures
        items_view(final(items)@) == grown(items_view(old(items)@), len as nat),
{
    let ghost first = items@;
    while items.len() < len
        invariant
            first == old(items)@,
            first.len() <= items.len(),
            items.len() == first.len() || items.len() <= len,
            forall|i: int| 0 <= i < first.len() ==> #[trigger] items@[i] == first[i],
            forall|i: int| first.len() <= i < items.len() ==> (#[trigger] items@[i])@
                == empty_object(),
        decreases len - items.len(),
    {
        let fresh: Vec<(String, JsonValue)> = Vec::new();
        proof {
            lemma_members_view(fresh@);
            assert(members_view(fresh@) =~= Seq::<(Seq<char>, Json)>::empty());
        }
        items.push(JsonValue::Object(fresh));
    }
    proof {
        lemma_items_view(items@);
        lemma_items_view(first);
        assert(items_view(items@) =~= grown(items_view(first), len as nat));
    }
}


fn fresh_members() -> (r: Vec<(String, JsonValue)>)
    ensures
        members_view(r@) == Seq::<(Seq<char>, Json)>::empty(),
{
    let r: Vec<(String, JsonValue)> = Vec::new();
    proof {
        lemma_members_view(r@);
        assert(members_view(r@) =~= Seq::<(Seq<char>, Json)>::empty());
    }
    r
}

fn fresh_items() -> (r: Vec<JsonValue>)
    ensures
        items_view(r@) == Seq::<Json>::empty(),
{
    let r: Vec<JsonValue> = Vec::new();
    proof {
        lemma_items_view(r@);
        assert(items_view(r@) =~= Seq::<Json>::empty());
    }
    r
}

/// Takes the member at position `i` out of `members`.
fn take_member(members: &mut Vec<(String, JsonValue)>, i: usize) -> (r: (String, JsonValue))
    requires
        i < old(members).len(),
    ensures
        (r.0@, r.1@) == members_view(old(members)@)[i as int],
        members_view(final(members)@) == members_view(old(members)@).remove(i as int),
        final(members).len() + 1 == old(members).len(),
{
    proof {
        lemma_members_view(members@);
    }
    let r = members.remove(i);
    proof {
        lemma_members_view(members@);
        assert(members_view(members@) =~= members_view(old(members)@).remove(i as int));
    }
    r
}

/// Puts a member back at position `i`.
fn give_member(members: &mut Vec<(String, JsonValue)>, i: usize, key: String, value: JsonValue)
    requires
        i <= old(members).len(),
    ensures
        members_view(final(members)@) == members_view(old(members)@).insert(
            i as int,
            (key@, value@),
        ),
{
    proof {
        lemma_members_view(members@);
    }
    members.insert(i, (key, value));
    proof {
        lemma_members_view(members@);
        assert(members_view(members@) =~= members_view(old(members)@).insert(
            i as int,
            (key@, value@),
        ));
    }
}

/// Takes the item at position `i` out of `items`.
fn take_item(items: &mut Vec<JsonValue>, i: usize) -> (r: JsonValue)
    requires
        i < old(items).len(),
    ensures
        r@ == items_view(old(items)@)[i as int],
        items_view(final(items)@) == items_view(old(items)@).remove(i as int),
        final(items).len() + 1 == old(items).len(),
{
    proof {
        lemma_items_view(items@);
    }
    let r = items.remove(i);
    proof {
        lemma_items_view(items@);
        assert(items_view(items@) =~= items_view(old(items)@).remove(i as int));
    }
    r
}

/// Puts an item at position `i`.
fn give_item(items: &mut Vec<JsonValue>, i: usize, value: JsonValue)
    requires
        i <= old(items).len(),
    ensures
        items_view(final(items)@) == items_view(old(items)@).insert(i as int, value@),
{
    proof {
        lemma_items_view(items@);
    }
    items.insert(i, value);
    proof {
        lemma_items_view(items@);
        assert(items_view(items@) =~= items_view(old(items)@).insert(i as int, value@));
    }
}

/// Taking a member out and putting one of the same name back where it stood
/// gives what `put` gives.
proof fn lemma_back_in_place(
    members: Seq<(Seq<char>, Json)>,
    i: int,
    key: Seq<char>,
    value: Json,
)
    requires
        position(members, key) == Some(i),
    ensures
        members.remove(i).insert(i, (key, value)) == put(members, key, value),
        members.remove(i).insert(i, members[i]) == members,
        0 <= i < members.len(),
        members[i].0 == key,
{
    crate::json::lemma_position_from(members, key, 0);
    assert(members.remove(i).insert(i, (key, value)) =~= members.update(i, (key, value)));
    assert(members.remove(i).insert(i, members[i]) =~= members);
}

fn write_last(members: &mut Vec<(String, JsonValue)>, part: &PathPart, value: JsonValue)
    requires
        part.in_reach(),
    ensures
        members_view(final(members)@) == place_last(members_view(old(members)@), part@, value@),
{
    let ghost before = members_view(members@);
    match part {
        PathPart::Key(name) => {
            set_member(members, name.clone(), value);
        },
        PathPart::Slot(name, index) => {
            match find_member(members, name) {
                Some(i) => {
                    proof {
                        lemma_back_in_place(before, i as int, name@, value@);
                    }
                    let (key, held) = take_member(members, i);
                    match held {
                        JsonValue::Array(mut items) => {
                            grow(&mut items, *index + 1);
                            proof {
                                lemma_items_view(items@);
                            }
                            let old_slot = take_item(&mut items, *index);
                            match old_slot {
                                JsonValue::Object(_) => {
                                    give_item(&mut items, *index, value);
                                },
                                other => {
                                    give_item(&mut items, *index, other);
                                },
                            }
                            proof {
                                let wide = grown(before[i as int].1->Array_0, (*index + 1) as nat);
                                if wide[*index as int] is Object {
                                    assert(items_view(items@) =~= wide.update(
                                        *index as int,
                                        value@,
                                    ));
                                } else {
                                    assert(items_view(items@) =~= wide);
                                }
                                lemma_back_in_place(
                                    before,
                                    i as int,
                                    name@,
                                    Json::Array(items_view(items@)),
                                );
                            }
                            give_member(members, i, key, JsonValue::Array(items));
                        },
                        other => {
                            give_member(members, i, key, other);
                        },
                    }
                },
                None => {
                    let mut items = fresh_items();
                    grow(&mut items, *index + 1);
                    proof {
                        lemma_items_view(items@);
                    }
                    let old_slot = take_item(&mut items, *index);
                    give_item(&mut items, *index, value);
                    proof {
                        let wide = grown(Seq::<Json>::empty(), (*index + 1) as nat);
                        assert(wide[*index as int] == empty_object());
                        assert(items_view(items@) =~= wide.update(*index as int, value@));
                    }
                    set_member(members, name.clone(), JsonValue::Array(items));
                },
            }
        },
    }
}


/// Writes `value` at the path `parts[from..]` under `members`. The flag says
/// whether the path could be followed; where it could not, the members come back
/// as they were.
fn write_at(
    members: Vec<(String, JsonValue)>,
    parts: &Vec<PathPart>,
    from: usize,
    value: JsonValue,
) -> (r: (Vec<(String, JsonValue)>, bool))
    requires
        from < parts.len(),
        forall|i: int| 0 <= i < parts.len() ==> (#[trigger] parts@[i]).in_reach(),
    ensures
        match place_from(members_view(members@), parts_view(parts@), from as int, value@) {
            Some(after) => r.1 && members_view(r.0@) == after,
            None => !r.1 && members_view(r.0@) == members_view(members@),
        },
    decreases parts.len() - from,
{
    let mut members = members;
    let ghost before = members_view(members@);
    let ghost steps = parts_view(parts@);
    assert(steps[from as int] == parts@[from as int]@);
    if from == parts.len() - 1 {
        write_last(&mut members, &parts[from], value);
        return (members, true);
    }
    match &parts[from] {
        PathPart::Key(name) => {
            match find_member(&members, name) {
                Some(i) => {
                    proof {
                        lemma_back_in_place(before, i as int, name@, value@);
                    }
                    let (key, held) = take_member(&mut members, i);
                    match held {
                        JsonValue::Object(child) => {
                            let (filled, ok) = write_at(child, parts, from + 1, value);
                            proof {
                                lemma_back_in_place(
                                    before,
                                    i as int,
                                    name@,
                                    Json::Object(members_view(filled@)),
                                );
                            }
                            give_member(&mut members, i, key, JsonValue::Object(filled));
                            (members, ok)
                        },
                        other => {
                            give_member(&mut members, i, key, other);
                            (members, false)
                        },
                    }
                },
                None => {
                    let (filled, ok) = write_at(fresh_members(), parts, from + 1, value);
                    proof {
                        lemma_place_fresh(steps, from + 1, value@);
                    }
                    set_member(&mut members, name.clone(), JsonValue::Object(filled));
                    (members, ok)
                },
            }
        },
        PathPart::Slot(name, index) => {
            match find_member(&members, name) {
                Some(i) => {
                    proof {
                        lemma_back_in_place(before, i as int, name@, value@);
                    }
                    let (key, held) = take_member(&mut members, i);
                    match held {
                        JsonValue::Array(mut items) => {
                            let ghost narrow = items_view(items@);
                            proof {
                                lemma_items_view(items@);
                            }
                            if *index < items.len() {
                                let slot = take_item(&mut items, *index);
                                match slot {
                                    JsonValue::Object(child) => {
                                        let (filled, ok) = write_at(child, parts, from + 1, value);
                                        give_item(&mut items, *index, JsonValue::Object(filled));
                                        proof {
                                            assert(grown(narrow, (*index + 1) as nat) == narrow);
                                            if ok {
                                                assert(items_view(items@) =~= narrow.update(
                                                    *index as int,
                                                    Json::Object(members_view(filled@)),
                                                ));
                                            } else {
                                                assert(items_view(items@) =~= narrow);
                                            }
                                            lemma_back_in_place(
                                                before,
                                                i as int,
                                                name@,
                                                Json::Array(items_view(items@)),
                                            );
                                        }
                                        give_member(&mut members, i, key, JsonValue::Array(items));
                                        (members, ok)
                                    },
                                    other => {
                                        give_item(&mut items, *index, other);
                                        proof {
                                            assert(grown(narrow, (*index + 1) as nat) == narrow);
                                            assert(items_view(items@) =~= narrow);
                                        }
                                        give_member(&mut members, i, key, JsonValue::Array(items));
                                        (members, false)
                                    },
                                }
                            } else {
                                grow(&mut items, *index + 1);
                                proof {
                                    lemma_items_view(items@);
                                }
                                let ghost wide = items_view(items@);
                                let slot = take_item(&mut items, *index);
                                let (filled, ok) = write_at(fresh_members(), parts, from + 1, value);
                                give_item(&mut items, *index, JsonValue::Object(filled));
                                proof {
                                    lemma_place_fresh(steps, from + 1, value@);
                                    assert(wide[*index as int] == empty_object());
                                    assert(items_view(items@) =~= wide.update(
                                        *index as int,
                                        Json::Object(members_view(filled@)),
                                    ));
                                    lemma_back_in_place(
                                        before,
                                        i as int,
                                        name@,
                                        Json::Array(items_view(items@)),
                                    );
                                }
                                give_member(&mut members, i, key, JsonValue::Array(items));
                                (members, ok)
                            }
                        },
                        other => {
                            give_member(&mut members, i, key, other);
                            (members, false)
                        },
                    }
                },
                None => {
                    let mut items = fresh_items();
                    grow(&mut items, *index + 1);
                    proof {
                        lemma_items_view(items@);
                    }
                    let ghost wide = items_view(items@);
                    let slot = take_item(&mut items, *index);
                    let (filled, ok) = write_at(fresh_members(), parts, from + 1, value);
                    give_item(&mut items, *index, JsonValue::Object(filled));
                    proof {
                        lemma_place_fresh(steps, from + 1, value@);
                        assert(wide[*index as int] == empty_object());
                        assert(items_view(items@) =~= wide.update(
                            *index as int,
                            Json::Object(members_view(filled@)),
                        ));
                    }
                    set_member(&mut members, name.clone(), JsonValue::Array(items));
                    (members, ok)
                },
            }
        },
    }
}

/// The document that the pairs build: each value written at its path, one pair
/// after the other, into an object that starts empty. Well-formed values build
/// a well-formed document.
pub fn reverse_flatten_all(path_value_pairs: Vec<(String, JsonValue)>) -> (r: JsonValue)
    ensures
        r@ == Json::Object(rebuilt(members_view(path_value_pairs@))),
        (forall|i: int|
            0 <= i < path_value_pairs.len() ==> well_formed((#[trigger] path_value_pairs@[i]).1@))
            ==> well_formed(r@),
{
    let mut root = fresh_members();
    let ghost all = members_view(path_value_pairs@);
    proof {
        lemma_members_view(path_value_pairs@);
        if forall|i: int|
            0 <= i < path_value_pairs.len() ==> well_formed((#[trigger] path_value_pairs@[i]).1@) {
            assert forall|i: int| 0 <= i < all.len() implies well_formed((#[trigger] all[i]).1) by {
                assert(all[i] == (path_value_pairs@[i].0@, path_value_pairs@[i].1@));
                assert(well_formed(path_value_pairs@[i].1@));
            }
            lemma_rebuilt_well_formed(all);
        }
    }
    let mut k: usize = 0;
    while k < path_value_pairs.len()
        invariant
            k <= path_value_pairs.len(),
            all == members_view(path_value_pairs@),
            all.len() == path_value_pairs.len(),
            forall|i: int|
                0 <= i < all.len() ==> #[trigger] all[i] == (
                    path_value_pairs@[i].0@,
                    path_value_pairs@[i].1@,
                ),
            members_view(root@) == rebuilt(all.take(k as int)),
        decreases path_value_pairs.len() - k,
    {
        let parts = read_path(&path_value_pairs[k].0);
        let value = path_value_pairs[k].1.clone();
        proof {
            let now = all.take(k + 1);
            assert(now.drop_last() =~= all.take(k as int));
            assert(now.last() == all[k as int]);
        }
        let (next, _) = write_at(root, &parts, 0, value);
        root = next;
        k += 1;
    }
    assert(all.take(path_value_pairs.len() as int) =~= all);
    JsonValue::Object(root)
}

} // verus!
