//! JSON documents as the library holds them, and their mathematical model.

use vstd::prelude::*;

verus! {

/// A JSON number. Whole numbers are held exactly, one below zero as `NegInt`
/// and any other as `PosInt`; any other number is held as its decimal text.
#[derive(Debug)]
pub enum JsonNumber {
    PosInt(u64),
    NegInt(i64),
    Float(String),
}

/// A JSON document. An object lists its members in order, and a name is looked
/// up from the front; in a well-formed document no object holds a name twice.
/// Whether two objects are the same does not depend on the order of their
/// members.
#[derive(Debug)]
pub enum JsonValue {
    Null,
    Bool(bool),
    Number(JsonNumber),
    String(String),
    Array(Vec<JsonValue>),
    Object(Vec<(String, JsonValue)>),
}

/// The model of a JSON number.
pub enum Num {
    PosInt(u64),
    NegInt(i64),
    Float(Seq<char>),
}

/// The model of a JSON document.
#[verifier::ext_equal]
pub enum Json {
    Null,
    Bool(bool),
    Number(Num),
    String(Seq<char>),
    Array(Seq<Json>),
    Object(Seq<(Seq<char>, Json)>),
}

impl View for JsonNumber {
    type V = Num;

    open spec fn view(&self) -> Num {
        match self {
            JsonNumber::PosInt(n) => Num::PosInt(*n),
            JsonNumber::NegInt(n) => Num::NegInt(*n),
            JsonNumber::Float(t) => Num::Float(t@),
        }
    }
}

impl View for JsonValue {
    type V = Json;

    open spec fn view(&self) -> Json
        decreases self,
    {
        match self {
            JsonValue::Null => Json::Null,
            JsonValue::Bool(b) => Json::Bool(*b),
            JsonValue::Number(n) => Json::Number(n@),
            JsonValue::String(s) => Json::String(s@),
            JsonValue::Array(items) => Json::Array(items_view(items@)),
            JsonValue::Object(members) => Json::Object(members_view(members@)),
        }
    }
}

/// The models of the values that a vector holds.
pub open spec fn items_view(items: Seq<JsonValue>) -> Seq<Json>
    decreases items,
{
    if items.len() == 0 {
        Seq::empty()
    } else {
        items_view(items.drop_last()).push(items.last()@)
    }
}

/// The models of the members that a vector holds.
pub open spec fn members_view(members: Seq<(String, JsonValue)>) -> Seq<(Seq<char>, Json)>
    decreases members,
{
    if members.len() == 0 {
        Seq::empty()
    } else {
        members_view(members.drop_last()).push((members.last().0@, members.last().1@))
    }
}

/// `items_view` goes item by item.
pub proof fn lemma_items_view(items: Seq<JsonValue>)
    ensures
        items_view(items).len() == items.len(),
        forall|i: int| 0 <= i < items.len() ==> #[trigger] items_view(items)[i] == items[i]@,
    decreases items.len(),
{
    if items.len() > 0 {
        lemma_items_view(items.drop_last());
        assert(items_view(items) == items_view(items.drop_last()).push(items.last()@));
    }
}

/// `members_view` goes member by member.
pub proof fn lemma_members_view(members: Seq<(String, JsonValue)>)
    ensures
        members_view(members).len() == members.len(),
        forall|i: int|
            0 <= i < members.len() ==> #[trigger] members_view(members)[i] == (
                members[i].0@,
                members[i].1@,
            ),
    decreases members.len(),
{
    if members.len() > 0 {
        lemma_members_view(members.drop_last());
        assert(members_view(members) == members_view(members.drop_last()).push(
            (members.last().0@, members.last().1@),
        ));
    }
}

/// The text of a zero that is no whole number, with either sign.
pub open spec fn is_zero_text(t: Seq<char>) -> bool {
    t == seq!['0', '.', '0'] || t == seq!['-', '0', '.', '0']
}

/// Two numbers are the same when they are of one kind and hold the same value;
/// the two zeros that are no whole numbers are the same.
pub open spec fn same_num(a: Num, b: Num) -> bool {
    match (a, b) {
        (Num::PosInt(x), Num::PosInt(y)) => x == y,
        (Num::NegInt(x), Num::NegInt(y)) => x == y,
        (Num::Float(x), Num::Float(y)) => x == y || (is_zero_text(x) && is_zero_text(y)),
        _ => false,
    }
}

/// Structural equality of documents, without coercion between kinds. Arrays
/// are the same item by item. Objects are the same whatever the order of their
/// members: they have as many, and each member of either has a member of the
/// same name and the same value in the other.
pub open spec fn same_json(a: Json, b: Json) -> bool
    decreases a, 0int,
{
    match (a, b) {
        (Json::Null, Json::Null) => true,
        (Json::Bool(x), Json::Bool(y)) => x == y,
        (Json::Number(x), Json::Number(y)) => same_num(x, y),
        (Json::String(x), Json::String(y)) => x == y,
        (Json::Array(x), Json::Array(y)) => x.len() == y.len() && forall|i: int|
            0 <= i < x.len() ==> same_json(#[trigger] x[i], y[i]),
        (Json::Object(x), Json::Object(y)) => {
            &&& x.len() == y.len()
            &&& forall|i: int| 0 <= i < x.len() ==> met_in((#[trigger] x[i]).1, x[i].0, y)
            &&& forall|j: int| 0 <= j < y.len() ==> meets(x, (#[trigger] y[j]).0, y[j].1)
        },
        _ => false,
    }
}

/// `others` has a member named `name` whose value is the same as `value`.
pub open spec fn met_in(value: Json, name: Seq<char>, others: Seq<(Seq<char>, Json)>) -> bool
    decreases value, 1int,
{
    exists|j: int|
        0 <= j < others.len() && (#[trigger] others[j]).0 == name && same_json(value, others[j].1)
}

/// `members` has a member named `name` whose value is the same as `value`.
pub open spec fn meets(members: Seq<(Seq<char>, Json)>, name: Seq<char>, value: Json) -> bool
    decreases members, 1int,
{
    exists|i: int|
        0 <= i < members.len() && (#[trigger] members[i]).0 == name && same_json(
            members[i].1,
            value,
        )
}

/// Every document is the same as itself.
pub proof fn lemma_same_json_reflexive(a: Json)
    ensures
        same_json(a, a),
    decreases a,
{
    match a {
        Json::Array(x) => {
            assert forall|i: int| 0 <= i < x.len() implies same_json(#[trigger] x[i], x[i]) by {
                lemma_same_json_reflexive(x[i]);
            }
        },
        Json::Object(x) => {
            assert forall|i: int| 0 <= i < x.len() implies met_in((#[trigger] x[i]).1, x[i].0, x) by {
                lemma_same_json_reflexive(x[i].1);
                assert(x[i].0 == x[i].0 && same_json(x[i].1, x[i].1));
            }
            assert forall|j: int| 0 <= j < x.len() implies meets(x, (#[trigger] x[j]).0, x[j].1) by {
                lemma_same_json_reflexive(x[j].1);
                assert(x[j].0 == x[j].0 && same_json(x[j].1, x[j].1));
            }
        },
        _ => {},
    }
}

/// Two objects that hold the same members are the same, in whatever order each
/// holds them.
pub proof fn lemma_same_json_ignores_order(x: Seq<(Seq<char>, Json)>, y: Seq<(Seq<char>, Json)>)
    requires
        x.len() == y.len(),
        forall|i: int| 0 <= i < x.len() ==> y.contains(#[trigger] x[i]),
        forall|j: int| 0 <= j < y.len() ==> x.contains(#[trigger] y[j]),
    ensures
        same_json(Json::Object(x), Json::Object(y)),
{
    assert forall|i: int| 0 <= i < x.len() implies met_in((#[trigger] x[i]).1, x[i].0, y) by {
        assert(y.contains(x[i]));
        let j = choose|j: int| 0 <= j < y.len() && y[j] == x[i];
        lemma_same_json_reflexive(x[i].1);
        assert(y[j].0 == x[i].0 && same_json(x[i].1, y[j].1));
    }
    assert forall|j: int| 0 <= j < y.len() implies meets(x, (#[trigger] y[j]).0, y[j].1) by {
        assert(x.contains(y[j]));
        let i = choose|i: int| 0 <= i < x.len() && x[i] == y[j];
        lemma_same_json_reflexive(y[j].1);
        assert(x[i].0 == y[j].0 && same_json(x[i].1, y[j].1));
    }
}

fn zero_text(t: &String) -> (r: bool)
    ensures
        r == is_zero_text(t@),
{
    let c = crate::text::to_chars(t.as_str());
    let plain = c.len() == 3 && c[0] == '0' && c[1] == '.' && c[2] == '0';
    let minus = c.len() == 4 && c[0] == '-' && c[1] == '0' && c[2] == '.' && c[3] == '0';
    proof {
        if plain {
            assert(c@ =~= seq!['0', '.', '0']);
        }
        if minus {
            assert(c@ =~= seq!['-', '0', '.', '0']);
        }
    }
    plain || minus
}

impl JsonNumber {
    /// Whether two numbers are the same.
    pub fn equals(&self, other: &JsonNumber) -> (r: bool)
        ensures
            r == same_num(self@, other@),
    {
        match (self, other) {
            (JsonNumber::PosInt(x), JsonNumber::PosInt(y)) => *x == *y,
            (JsonNumber::NegInt(x), JsonNumber::NegInt(y)) => *x == *y,
            (JsonNumber::Float(x), JsonNumber::Float(y)) => *x == *y || (zero_text(x) && zero_text(
                y,
            )),
            _ => false,
        }
    }
}

impl Clone for JsonNumber {
    fn clone(&self) -> (r: Self)
        ensures
            r@ == self@,
    {
        match self {
            JsonNumber::PosInt(n) => JsonNumber::PosInt(*n),
            JsonNumber::NegInt(n) => JsonNumber::NegInt(*n),
            JsonNumber::Float(t) => JsonNumber::Float(t.clone()),
        }
    }
}

impl JsonValue {
    /// Whether two documents are the same.
    pub fn equals(&self, other: &JsonValue) -> (r: bool)
        ensures
            r == same_json(self@, other@),
        decreases self,
    {
        match (self, other) {
            (JsonValue::Null, JsonValue::Null) => true,
            (JsonValue::Bool(x), JsonValue::Bool(y)) => *x == *y,
            (JsonValue::Number(x), JsonValue::Number(y)) => x.equals(y),
            (JsonValue::String(x), JsonValue::String(y)) => *x == *y,
            (JsonValue::Array(x), JsonValue::Array(y)) => {
                proof {
                    lemma_items_view(x@);
                    lemma_items_view(y@);
                }
                if x.len() != y.len() {
                    return false;
                }
                let mut k: usize = 0;
                while k < x.len()
                    invariant
                        k <= x.len(),
                        x.len() == y.len(),
                        self == JsonValue::Array(*x),
                        other == JsonValue::Array(*y),
                        forall|i: int| 0 <= i < k ==> same_json(#[trigger] x@[i]@, y@[i]@),
                    decreases x.len() - k,
                {
                    assert(*self is Array && self->Array_0 == *x);
                    assert(decreases_to!(*self => self->Array_0));
                    assert(decreases_to!(*x => x[k as int]));
                    if !x[k].equals(&y[k]) {
                        proof {
                            lemma_items_view(x@);
                            lemma_items_view(y@);
                        }
                        assert(items_view(x@)[k as int] == x@[k as int]@);
                        assert(items_view(y@)[k as int] == y@[k as int]@);
                        return false;
                    }
                    k += 1;
                }
                assert forall|i: int| 0 <= i < x.len() implies same_json(
                    #[trigger] items_view(x@)[i],
                    items_view(y@)[i],
                ) by {
                    lemma_items_view(x@);
                    lemma_items_view(y@);
                    assert(same_json(x@[i]@, y@[i]@));
                }
                true
            },
            (JsonValue::Object(x), JsonValue::Object(y)) => {
                let ghost mx = members_view(x@);
                let ghost my = members_view(y@);
                proof {
                    lemma_members_view(x@);
                    lemma_members_view(y@);
                }
                assert(self@ == Json::Object(mx) && other@ == Json::Object(my));
                if x.len() != y.len() {
                    return false;
                }
                let mut i: usize = 0;
                while i < x.len()
                    invariant
                        i <= x.len(),
                        self == JsonValue::Object(*x),
                        other == JsonValue::Object(*y),
                        mx == members_view(x@),
                        my == members_view(y@),
                        mx.len() == x.len(),
                        my.len() == y.len(),
                        forall|a: int| 0 <= a < i ==> met_in((#[trigger] mx[a]).1, mx[a].0, my),
                    decreases x.len() - i,
                {
                    let mut j: usize = 0;
                    let mut found = false;
                    while j < y.len() && !found
                        invariant
                            j <= y.len(),
                            i < x.len(),
                            self == JsonValue::Object(*x),
                            other == JsonValue::Object(*y),
                            mx == members_view(x@),
                            my == members_view(y@),
                            mx.len() == x.len(),
                            my.len() == y.len(),
                            forall|a: int| 0 <= a < i ==> met_in((#[trigger] mx[a]).1, mx[a].0, my),
                            found ==> met_in(mx[i as int].1, mx[i as int].0, my),
                            !found ==> forall|b: int|
                                0 <= b < j ==> !((#[trigger] my[b]).0 == mx[i as int].0
                                    && same_json(mx[i as int].1, my[b].1)),
                        decreases y.len() - j + (if found { 0int } else { 1int }),
                    {
                        assert(*self is Object && self->Object_0 == *x);
                        assert(decreases_to!(*self => self->Object_0));
                        assert(decreases_to!(*x => x[i as int]));
                        proof {
                            lemma_members_view(x@);
                            lemma_members_view(y@);
                        }
                        assert(mx[i as int] == (x@[i as int].0@, x@[i as int].1@));
                        assert(my[j as int] == (y@[j as int].0@, y@[j as int].1@));
                        if x[i].0 == y[j].0 && x[i].1.equals(&y[j].1) {
                            assert(my[j as int].0 == mx[i as int].0 && same_json(
                                mx[i as int].1,
                                my[j as int].1,
                            ));
                            assert(met_in(mx[i as int].1, mx[i as int].0, my));
                            found = true;
                        } else {
                            j += 1;
                        }
                    }
                    if !found {
                        assert(!met_in(mx[i as int].1, mx[i as int].0, my));
                        assert(!same_json(Json::Object(mx), Json::Object(my)));
                        return false;
                    }
                    i += 1;
                }
                let mut j: usize = 0;
                while j < y.len()
                    invariant
                        j <= y.len(),
                        self == JsonValue::Object(*x),
                        other == JsonValue::Object(*y),
                        mx == members_view(x@),
                        my == members_view(y@),
                        mx.len() == x.len(),
                        my.len() == y.len(),
                        forall|a: int|
                            0 <= a < mx.len() ==> met_in((#[trigger] mx[a]).1, mx[a].0, my),
                        forall|b: int| 0 <= b < j ==> meets(mx, (#[trigger] my[b]).0, my[b].1),
                    decreases y.len() - j,
                {
                    let mut i: usize = 0;
                    let mut found = false;
                    while i < x.len() && !found
                        invariant
                            i <= x.len(),
                            j < y.len(),
                            self == JsonValue::Object(*x),
                            other == JsonValue::Object(*y),
                            mx == members_view(x@),
                            my == members_view(y@),
                            mx.len() == x.len(),
                            my.len() == y.len(),
                            forall|a: int|
                                0 <= a < mx.len() ==> met_in((#[trigger] mx[a]).1, mx[a].0, my),
                            forall|b: int| 0 <= b < j ==> meets(mx, (#[trigger] my[b]).0, my[b].1),
                            found ==> meets(mx, my[j as int].0, my[j as int].1),
                            !found ==> forall|a: int|
                                0 <= a < i ==> !((#[trigger] mx[a]).0 == my[j as int].0
                                    && same_json(mx[a].1, my[j as int].1)),
                        decreases x.len() - i + (if found { 0int } else { 1int }),
                    {
                        assert(*self is Object && self->Object_0 == *x);
                        assert(decreases_to!(*self => self->Object_0));
                        assert(decreases_to!(*x => x[i as int]));
                        proof {
                            lemma_members_view(x@);
                            lemma_members_view(y@);
                        }
                        assert(mx[i as int] == (x@[i as int].0@, x@[i as int].1@));
                        assert(my[j as int] == (y@[j as int].0@, y@[j as int].1@));
                        if x[i].0 == y[j].0 && x[i].1.equals(&y[j].1) {
                            assert(mx[i as int].0 == my[j as int].0 && same_json(
                                mx[i as int].1,
                                my[j as int].1,
                            ));
                            assert(meets(mx, my[j as int].0, my[j as int].1));
                            found = true;
                        } else {
                            i += 1;
                        }
                    }
                    if !found {
                        assert(!meets(mx, my[j as int].0, my[j as int].1));
                        assert(!same_json(Json::Object(mx), Json::Object(my)));
                        return false;
                    }
                    j += 1;
                }
                assert(same_json(Json::Object(mx), Json::Object(my)));
                true
            },
            _ => false,
        }
    }
}

impl Clone for JsonValue {
    fn clone(&self) -> (r: Self)
        ensures
            r@ == self@,
        decreases self,
    {
        match self {
            JsonValue::Null => JsonValue::Null,
            JsonValue::Bool(b) => JsonValue::Bool(*b),
            JsonValue::Number(n) => JsonValue::Number(n.clone()),
            JsonValue::String(s) => JsonValue::String(s.clone()),
            JsonValue::Array(items) => {
                let mut out: Vec<JsonValue> = Vec::new();
                let mut k: usize = 0;
                while k < items.len()
                    invariant
                        k <= items.len(),
                        self == JsonValue::Array(*items),
                        out.len() == k,
                        forall|i: int| 0 <= i < k ==> (#[trigger] out@[i])@ == items@[i]@,
                    decreases items.len() - k,
                {
                    assert(*self is Array && self->Array_0 == *items);
                    assert(decreases_to!(*self => self->Array_0));
                    assert(decreases_to!(*items => items[k as int]));
                    out.push(items[k].clone());
                    k += 1;
                }
                proof {
                    lemma_items_view(items@);
                    lemma_items_view(out@);
                    assert(items_view(out@) =~= items_view(items@));
                }
                JsonValue::Array(out)
            },
            JsonValue::Object(members) => {
                let mut out: Vec<(String, JsonValue)> = Vec::new();
                let mut k: usize = 0;
                while k < members.len()
                    invariant
                        k <= members.len(),
                        self == JsonValue::Object(*members),
                        out.len() == k,
                        forall|i: int|
                            0 <= i < k ==> (#[trigger] out@[i]).0@ == members@[i].0@ && out@[i].1@
                                == members@[i].1@,
                    decreases members.len() - k,
                {
                    assert(*self is Object && self->Object_0 == *members);
                    assert(decreases_to!(*self => self->Object_0));
                    assert(decreases_to!(*members => members[k as int]));
                    out.push((members[k].0.clone(), members[k].1.clone()));
                    k += 1;
                }
                proof {
                    lemma_members_view(members@);
                    lemma_members_view(out@);
                    assert(members_view(out@) =~= members_view(members@));
                }
                JsonValue::Object(out)
            },
        }
    }
}


/// The least position at or after `from` of a member named `key`.
pub open spec fn position_from(
    members: Seq<(Seq<char>, Json)>,
    key: Seq<char>,
    from: int,
) -> Option<int>
    decreases members.len() - from,
{
    if from < 0 || from >= members.len() {
        None
    } else if members[from].0 == key {
        Some(from)
    } else {
        position_from(members, key, from + 1)
    }
}

/// The position of the first member named `key`.
pub open spec fn position(members: Seq<(Seq<char>, Json)>, key: Seq<char>) -> Option<int> {
    position_from(members, key, 0)
}

/// The value of the first member named `key`.
pub open spec fn member(members: Seq<(Seq<char>, Json)>, key: Seq<char>) -> Option<Json> {
    match position(members, key) {
        Some(i) => Some(members[i].1),
        None => None,
    }
}

/// The members after `key` has been given `value`: the first member of that name
/// takes the value where it stands; without one, a new member comes last.
pub open spec fn put(members: Seq<(Seq<char>, Json)>, key: Seq<char>, value: Json) -> Seq<
    (Seq<char>, Json),
> {
    match position(members, key) {
        Some(i) => members.update(i, (key, value)),
        None => members.push((key, value)),
    }
}

/// No two members have the same name.
pub open spec fn distinct_names(members: Seq<(Seq<char>, Json)>) -> bool {
    forall|i: int, j: int|
        0 <= i < j < members.len() ==> (#[trigger] members[i]).0 != (#[trigger] members[j]).0
}

/// `put` keeps names apart.
pub proof fn lemma_put_distinct(members: Seq<(Seq<char>, Json)>, key: Seq<char>, value: Json)
    requires
        distinct_names(members),
    ensures
        distinct_names(put(members, key, value)),
{
    lemma_position_from(members, key, 0);
    let after = put(members, key, value);
    assert forall|i: int, j: int| 0 <= i < j < after.len() implies (#[trigger] after[i]).0 != (
    #[trigger] after[j]).0 by {
        match position(members, key) {
            Some(p) => {
                assert(after[i].0 == members[i].0 && after[j].0 == members[j].0);
            },
            None => {
                if j < members.len() {
                    assert(after[i] == members[i] && after[j] == members[j]);
                } else {
                    assert(after[i] == members[i]);
                }
            },
        }
    }
}

/// A document as JSON text gives it: in no object does a name occur twice, and
/// a number held as negative is below zero.
pub open spec fn well_formed(v: Json) -> bool
    decreases v,
{
    match v {
        Json::Number(n) => n is NegInt ==> n->NegInt_0 < 0,
        Json::Array(items) => forall|i: int|
            0 <= i < items.len() ==> well_formed(#[trigger] items[i]),
        Json::Object(members) => distinct_names(members) && forall|i: int|
            0 <= i < members.len() ==> well_formed((#[trigger] members[i]).1),
        _ => true,
    }
}

/// The members of a well-formed object.
pub open spec fn well_formed_members(members: Seq<(Seq<char>, Json)>) -> bool {
    well_formed(Json::Object(members))
}

/// A document that may be missing is well formed where it is there.
pub open spec fn well_formed_if_any(v: Option<Json>) -> bool {
    match v {
        Some(x) => well_formed(x),
        None => true,
    }
}

/// What `well_formed` says of an array: each item is well formed.
pub proof fn lemma_well_formed_items(items: Seq<Json>)
    requires
        well_formed(Json::Array(items)),
    ensures
        forall|i: int| 0 <= i < items.len() ==> well_formed(#[trigger] items[i]),
{
    let v = Json::Array(items);
    assert(v->Array_0 == items);
    assert(forall|j: int| 0 <= j < v->Array_0.len() ==> well_formed(#[trigger] v->Array_0[j]));
}

/// What `well_formed` says of an object: no name occurs twice, and each value is
/// well formed.
pub proof fn lemma_well_formed_members(members: Seq<(Seq<char>, Json)>)
    requires
        well_formed_members(members),
    ensures
        distinct_names(members),
        forall|i: int| 0 <= i < members.len() ==> well_formed((#[trigger] members[i]).1),
{
    let v = Json::Object(members);
    assert(v->Object_0 == members);
    assert(distinct_names(v->Object_0));
    assert(forall|j: int|
        0 <= j < v->Object_0.len() ==> well_formed((#[trigger] v->Object_0[j]).1));
}

/// The value of a member of a well-formed object is well formed.
pub proof fn lemma_member_well_formed(members: Seq<(Seq<char>, Json)>, key: Seq<char>)
    requires
        well_formed_members(members),
    ensures
        match member(members, key) {
            Some(v) => well_formed(v),
            None => true,
        },
{
    lemma_well_formed_members(members);
    lemma_position_from(members, key, 0);
}

/// `put` of a well-formed value keeps an object well formed.
pub proof fn lemma_put_well_formed(members: Seq<(Seq<char>, Json)>, key: Seq<char>, value: Json)
    requires
        well_formed_members(members),
        well_formed(value),
    ensures
        well_formed_members(put(members, key, value)),
{
    lemma_well_formed_members(members);
    lemma_position_from(members, key, 0);
    lemma_put_distinct(members, key, value);
    let after = put(members, key, value);
    assert forall|i: int| 0 <= i < after.len() implies well_formed((#[trigger] after[i]).1) by {
        match position(members, key) {
            Some(p) => {
                if i != p {
                    assert(after[i] == members[i]);
                }
            },
            None => {
                if i < members.len() {
                    assert(after[i] == members[i]);
                }
            },
        }
    }
}

/// Whether no two members have the same name.
pub fn names_distinct(members: &Vec<(String, JsonValue)>) -> (r: bool)
    ensures
        r == distinct_names(members_view(members@)),
{
    let ghost ms = members_view(members@);
    proof {
        lemma_members_view(members@);
    }
    let mut j: usize = 0;
    while j < members.len()
        invariant
            j <= members.len(),
            ms == members_view(members@),
            ms.len() == members.len(),
            forall|a: int, b: int| 0 <= a < b < j ==> (#[trigger] ms[a]).0 != (#[trigger] ms[b]).0,
        decreases members.len() - j,
    {
        let mut i: usize = 0;
        while i < j
            invariant
                i <= j,
                j < members.len(),
                ms == members_view(members@),
                ms.len() == members.len(),
                forall|a: int, b: int|
                    0 <= a < b < j ==> (#[trigger] ms[a]).0 != (#[trigger] ms[b]).0,
                forall|a: int| 0 <= a < i ==> (#[trigger] ms[a]).0 != ms[j as int].0,
            decreases j - i,
        {
            proof {
                lemma_members_view(members@);
            }
            assert(ms[i as int] == (members@[i as int].0@, members@[i as int].1@));
            assert(ms[j as int] == (members@[j as int].0@, members@[j as int].1@));
            if members[i].0 == members[j].0 {
                assert(ms[i as int].0 == ms[j as int].0);
                return false;
            }
            i += 1;
        }
        j += 1;
    }
    true
}

impl JsonValue {
    /// Whether the document is well formed.
    pub fn is_well_formed(&self) -> (r: bool)
        ensures
            r == well_formed(self@),
        decreases self,
    {
        match self {
            JsonValue::Number(n) => match n {
                JsonNumber::NegInt(i) => *i < 0,
                _ => true,
            },
            JsonValue::Array(items) => {
                let ghost mi = items_view(items@);
                proof {
                    lemma_items_view(items@);
                }
                let mut k: usize = 0;
                while k < items.len()
                    invariant
                        k <= items.len(),
                        self == JsonValue::Array(*items),
                        mi == items_view(items@),
                        mi.len() == items.len(),
                        forall|i: int| 0 <= i < k ==> well_formed(#[trigger] mi[i]),
                    decreases items.len() - k,
                {
                    assert(*self is Array && self->Array_0 == *items);
                    assert(decreases_to!(*self => self->Array_0));
                    assert(decreases_to!(*items => items[k as int]));
                    proof {
                        lemma_items_view(items@);
                    }
                    assert(mi[k as int] == items@[k as int]@);
                    if !items[k].is_well_formed() {
                        proof {
                            if well_formed(Json::Array(mi)) {
                                lemma_well_formed_items(mi);
                            }
                        }
                        return false;
                    }
                    k += 1;
                }
                assert(well_formed(Json::Array(mi)));
                true
            },
            JsonValue::Object(members) => {
                let ghost ms = members_view(members@);
                proof {
                    lemma_members_view(members@);
                }
                if !names_distinct(members) {
                    proof {
                        if well_formed(Json::Object(ms)) {
                            lemma_well_formed_members(ms);
                        }
                    }
                    return false;
                }
                let mut k: usize = 0;
                while k < members.len()
                    invariant
                        k <= members.len(),
                        self == JsonValue::Object(*members),
                        ms == members_view(members@),
                        ms.len() == members.len(),
                        distinct_names(ms),
                        forall|i: int| 0 <= i < k ==> well_formed((#[trigger] ms[i]).1),
                    decreases members.len() - k,
                {
                    assert(*self is Object && self->Object_0 == *members);
                    assert(decreases_to!(*self => self->Object_0));
                    assert(decreases_to!(*members => members[k as int]));
                    proof {
                        lemma_members_view(members@);
                    }
                    assert(ms[k as int] == (members@[k as int].0@, members@[k as int].1@));
                    if !members[k].1.is_well_formed() {
                        proof {
                            if well_formed(Json::Object(ms)) {
                                lemma_well_formed_members(ms);
                            }
                        }
                        return false;
                    }
                    k += 1;
                }
                assert(well_formed(Json::Object(ms)));
                true
            },
            _ => true,
        }
    }
}

/// What `position_from` finds is the first member of that name at or after `from`.
pub proof fn lemma_position_from(members: Seq<(Seq<char>, Json)>, key: Seq<char>, from: int)
    requires
        0 <= from,
    ensures
        match position_from(members, key, from) {
            Some(i) => from <= i < members.len() && members[i].0 == key && forall|j: int|
                from <= j < i ==> (#[trigger] members[j]).0 != key,
            None => forall|j: int| from <= j < members.len() ==> (#[trigger] members[j]).0 != key,
        },
    decreases members.len() - from,
{
    if from < members.len() && members[from].0 != key {
        lemma_position_from(members, key, from + 1);
    }
}

/// The position of the first member named `key`.
pub fn find_member(members: &Vec<(String, JsonValue)>, key: &String) -> (r: Option<usize>)
    ensures
        match r {
            Some(i) => position(members_view(members@), key@) == Some(i as int) && i
                < members.len(),
            None => position(members_view(members@), key@) is None,
        },
{
    proof {
        lemma_members_view(members@);
    }
    let mut k: usize = 0;
    while k < members.len()
        invariant
            k <= members.len(),
            members_view(members@).len() == members.len(),
            forall|i: int|
                0 <= i < members.len() ==> #[trigger] members_view(members@)[i] == (
                    members@[i].0@,
                    members@[i].1@,
                ),
            position(members_view(members@), key@) == position_from(
                members_view(members@),
                key@,
                k as int,
            ),
        decreases members.len() - k,
    {
        assert(members_view(members@)[k as int].0 == members@[k as int].0@);
        if members[k].0 == *key {
            return Some(k);
        }
        k += 1;
    }
    None
}

/// Gives `key` the value `value`, as `put` says.
pub fn set_member(members: &mut Vec<(String, JsonValue)>, key: String, value: JsonValue)
    ensures
        members_view(final(members)@) == put(members_view(old(members)@), key@, value@),
{
    proof {
        lemma_members_view(members@);
    }
    match find_member(members, &key) {
        Some(i) => {
            members.set(i, (key, value));
            proof {
                lemma_members_view(members@);
                assert(members_view(members@) =~= members_view(old(members)@).update(
                    i as int,
                    (key@, value@),
                ));
            }
        },
        None => {
            members.push((key, value));
            proof {
                lemma_members_view(members@);
                assert(members_view(members@) =~= members_view(old(members)@).push(
                    (key@, value@),
                ));
            }
        },
    }
}

} // verus!
