use har_replay::expression::{evaluate_expression, Expression};
use har_replay::flatten::{
    build_index_from_value, build_request_index_from_value, build_response_index_from_value,
    FlattenKeyPrefixType, FlattenedIndex,
};
use har_replay::json::{JsonNumber, JsonValue};
use har_replay::reconstruct::{read_path, reverse_flatten_all, PathPart};
use har_replay::service::read_response;
use har_replay::resolver::{
    resolve_earliest, resolve_value_expression_from_prev,
    resolve_value_expression_from_slice_index,
};

fn text(s: &str) -> JsonValue {
    JsonValue::String(s.to_string())
}

fn whole(n: u64) -> JsonValue {
    JsonValue::Number(JsonNumber::PosInt(n))
}

fn object(members: Vec<(&str, JsonValue)>) -> JsonValue {
    JsonValue::Object(members.into_iter().map(|(k, v)| (k.to_string(), v)).collect())
}

fn pairs(entries: Vec<(&str, JsonValue)>) -> Vec<(String, JsonValue)> {
    entries.into_iter().map(|(k, v)| (k.to_string(), v)).collect()
}

fn index(entries: Vec<(&str, JsonValue)>) -> FlattenedIndex {
    FlattenedIndex { entries: pairs(entries) }
}

fn sample() -> JsonValue {
    object(vec![
        ("user", object(vec![("id", whole(7)), ("name", text("ann"))])),
        ("tags", JsonValue::Array(vec![text("a"), text("b")])),
        ("rows", JsonValue::Array(vec![object(vec![("k", JsonValue::Bool(true))]), object(vec![("k", JsonValue::Null)])])),
    ])
}

#[test]
fn flatten_writes_each_prefix_style() {
    let doc = object(vec![("a", object(vec![("b", whole(1))])), ("c", JsonValue::Array(vec![text("x")]))]);
    let name = "act".to_string();
    assert_eq!(
        build_index_from_value(&name, &doc, FlattenKeyPrefixType::Input).entries,
        pairs(vec![("$.a.b", whole(1)), ("$.c[0]", text("x"))])
    );
    assert_eq!(
        build_response_index_from_value(&name, &doc).entries,
        pairs(vec![("$.act.output.a.b", whole(1)), ("$.act.output.c[0]", text("x"))])
    );
    assert_eq!(
        build_request_index_from_value(&name, &doc).entries,
        pairs(vec![("$.act.input.a.b", whole(1)), ("$.act.input.c[0]", text("x"))])
    );
}

#[test]
fn flatten_records_leaves_only() {
    let doc = object(vec![("empty", object(vec![])), ("none", JsonValue::Array(vec![])), ("n", JsonValue::Null)]);
    assert_eq!(
        build_index_from_value(&"a".to_string(), &doc, FlattenKeyPrefixType::Input).entries,
        pairs(vec![("$.n", JsonValue::Null)])
    );
    assert_eq!(
        build_index_from_value(&"a".to_string(), &text("alone"), FlattenKeyPrefixType::Input).entries,
        pairs(vec![("", text("alone"))])
    );
}

#[test]
fn a_path_is_recorded_once() {
    let doc = object(vec![("a.b", whole(1)), ("a", object(vec![("b", whole(2))]))]);
    assert_eq!(
        build_index_from_value(&"x".to_string(), &doc, FlattenKeyPrefixType::Input).entries,
        pairs(vec![("$.a.b", whole(2))])
    );
}

#[test]
fn reconstruct_gives_back_what_flatten_took() {
    let doc = sample();
    let flat = build_index_from_value(&"any".to_string(), &doc, FlattenKeyPrefixType::Input);
    assert_eq!(reverse_flatten_all(flat.entries), doc);
}

#[test]
fn reconstruct_fills_gaps_with_empty_objects() {
    let got = reverse_flatten_all(pairs(vec![("$.list[2]", text("c")), ("$.list[0].x", whole(1))]));
    assert_eq!(
        got,
        object(vec![(
            "list",
            JsonValue::Array(vec![object(vec![("x", whole(1))]), object(vec![]), text("c")])
        )])
    );
}

#[test]
fn reconstruct_never_shrinks_and_keeps_what_a_slot_holds() {
    let got = reverse_flatten_all(pairs(vec![
        ("$.a[1]", text("one")),
        ("$.a[0]", text("zero")),
        ("$.a[1]", text("again")),
    ]));
    assert_eq!(got, object(vec![("a", JsonValue::Array(vec![text("zero"), text("one")]))]));
}

#[test]
fn reconstruct_overwrites_members_and_skips_paths_that_cannot_be_followed() {
    let got = reverse_flatten_all(pairs(vec![
        ("$.a", text("first")),
        ("$.a.b", text("cannot")),
        ("$.a[0].b", text("cannot")),
        ("$.a[0]", text("ignored")),
        ("$.a", text("second")),
        ("plain", whole(3)),
    ]));
    assert_eq!(got, object(vec![("a", text("second")), ("plain", whole(3))]));
}

#[test]
fn paths_are_read_into_steps() {
    let describe = |p: &str| -> Vec<String> {
        read_path(&p.to_string())
            .into_iter()
            .map(|part| match part {
                PathPart::Key(k) => format!("key:{}", k),
                PathPart::Slot(k, i) => format!("slot:{}:{}", k, i),
            })
            .collect()
    };
    assert_eq!(describe("$.a.b[12].c"), vec!["key:a", "slot:b:12", "key:c"]);
    assert_eq!(describe("a[0][1]"), vec!["key:a[0][1]"]);
    assert_eq!(describe("$.[3]"), vec!["key:[3]"]);
    assert_eq!(describe("$.a[x]"), vec!["key:a[x]"]);
    assert_eq!(describe("$.a[]"), vec!["key:a[]"]);
    assert_eq!(describe("$.a[007]"), vec!["slot:a:7"]);
    assert_eq!(describe("$.a[99999999999999999999999999]"), vec!["key:a[99999999999999999999999999]"]);
    assert_eq!(describe(""), vec!["key:"]);
}

#[test]
fn resolve_prefers_the_latest_producer() {
    let indexes = vec![
        index(vec![("$.a0.output.id", text("X")), ("$.a0.output.other", text("Y"))]),
        index(vec![("$.a1.output.first", text("X")), ("$.a1.output.second", text("X"))]),
        index(vec![("$.a2.output.id", text("X"))]),
    ];
    let all = resolve_value_expression_from_slice_index(&text("X"), &indexes).unwrap();
    assert_eq!(all.value, "$.a2.output.id");
    let prev = resolve_value_expression_from_prev(2, &text("X"), &indexes).unwrap();
    assert_eq!(prev.value, "$.a1.output.first");
    let y = resolve_value_expression_from_prev(2, &text("Y"), &indexes).unwrap();
    assert_eq!(y.value, "$.a0.output.other");
    assert_eq!(resolve_value_expression_from_prev(0, &text("X"), &indexes), None);
    assert_eq!(resolve_value_expression_from_prev(9, &text("Z"), &indexes), None);
    let far = resolve_value_expression_from_prev(9, &text("X"), &indexes).unwrap();
    assert_eq!(far.value, "$.a2.output.id");
    let early = resolve_earliest(3, &text("X"), &indexes).unwrap();
    assert_eq!(early.value, "$.a0.output.id");
}

#[test]
fn resolve_does_not_coerce() {
    let indexes = vec![index(vec![("$.a.n", whole(1)), ("$.a.s", text("1"))])];
    let n = resolve_value_expression_from_slice_index(&whole(1), &indexes).unwrap();
    assert_eq!(n.value, "$.a.n");
    let s = resolve_value_expression_from_slice_index(&text("1"), &indexes).unwrap();
    assert_eq!(s.value, "$.a.s");
    let one = JsonValue::Number(JsonNumber::Float("1.0".to_string()));
    assert_eq!(resolve_value_expression_from_slice_index(&one, &indexes), None);
}

#[test]
fn expressions_select_in_document_order() {
    let doc = sample();
    let tags = evaluate_expression(&doc, &Expression { value: "$.tags[*]".to_string() }).unwrap();
    assert_eq!(tags, vec![text("a"), text("b")]);
    let user = evaluate_expression(&doc, &Expression { value: "$.user".to_string() }).unwrap();
    assert_eq!(user, vec![object(vec![("id", whole(7)), ("name", text("ann"))])]);
    let none = evaluate_expression(&doc, &Expression { value: "$.missing".to_string() }).unwrap();
    assert!(none.is_empty());
    assert!(evaluate_expression(&doc, &Expression { value: "$.[".to_string() }).is_err());
}

#[test]
fn numbers_keep_their_kind_through_a_query() {
    let doc = object(vec![
        ("n", JsonValue::Number(JsonNumber::NegInt(-3))),
        ("f", JsonValue::Number(JsonNumber::Float("2.5".to_string()))),
        ("u", whole(18446744073709551615)),
    ]);
    let got = evaluate_expression(&doc, &Expression { value: "$.*".to_string() }).unwrap();
    assert_eq!(
        got,
        vec![
            JsonValue::Number(JsonNumber::Float("2.5".to_string())),
            JsonValue::Number(JsonNumber::NegInt(-3)),
            whole(18446744073709551615),
        ]
    );
}

#[test]
fn the_empty_name_goes_round_with_a_leaf_or_an_object() {
    let name = "act".to_string();
    for doc in [
        object(vec![("", whole(5))]),
        object(vec![("a", object(vec![("", whole(5))]))]),
        object(vec![("", object(vec![("b", whole(1)), ("", text("x"))])), ("c", text("y"))]),
    ] {
        let flat = build_index_from_value(&name, &doc, FlattenKeyPrefixType::Input);
        let back = reverse_flatten_all(flat.entries);
        assert_eq!(back, doc);
        match (&back, &doc) {
            (JsonValue::Object(got), JsonValue::Object(want)) => {
                let got_names: Vec<&String> = got.iter().map(|m| &m.0).collect();
                let want_names: Vec<&String> = want.iter().map(|m| &m.0).collect();
                assert_eq!(got_names, want_names);
            },
            _ => panic!("an object is expected"),
        }
    }
    assert_eq!(
        build_index_from_value(&name, &object(vec![("", whole(5))]), FlattenKeyPrefixType::Input).entries,
        pairs(vec![("$.", whole(5))])
    );
}

#[test]
fn an_array_without_a_name_does_not_go_round() {
    let name = "act".to_string();
    let doc = object(vec![("", JsonValue::Array(vec![whole(1)]))]);
    let flat = build_index_from_value(&name, &doc, FlattenKeyPrefixType::Input);
    assert_eq!(flat.entries, pairs(vec![("$.[0]", whole(1))]));
    assert_eq!(reverse_flatten_all(flat.entries), object(vec![("[0]", whole(1))]));
}

#[test]
fn objects_are_equal_whatever_the_order_of_their_members() {
    let a = object(vec![("x", whole(1)), ("y", object(vec![("p", text("t")), ("q", JsonValue::Null)]))]);
    let b = object(vec![("y", object(vec![("q", JsonValue::Null), ("p", text("t"))])), ("x", whole(1))]);
    assert_eq!(a, b);
    assert_eq!(b, a);
    assert!(a.equals(&b));
    assert_ne!(a, object(vec![("x", whole(1))]));
    assert_ne!(a, object(vec![("x", whole(1)), ("y", object(vec![("p", text("t")), ("q", whole(0))]))]));
    assert_ne!(a, object(vec![("x", whole(1)), ("z", object(vec![("p", text("t")), ("q", JsonValue::Null)]))]));
    assert_ne!(
        JsonValue::Array(vec![whole(1), whole(2)]),
        JsonValue::Array(vec![whole(2), whole(1)])
    );
}

#[test]
fn a_rebuilt_document_equals_the_same_document_read_from_text() {
    let rebuilt = reverse_flatten_all(pairs(vec![
        ("$.b.d", whole(2)),
        ("$.a[0].k", JsonValue::Bool(true)),
        ("$.b.c", whole(1)),
    ]));
    let read = read_response(200, "{\"a\":[{\"k\":true}],\"b\":{\"c\":1,\"d\":2}}".to_string())
        .expect("the text is JSON")
        .res_body
        .value;
    assert_eq!(rebuilt, read);
    assert_eq!(read, rebuilt);
    match &rebuilt {
        JsonValue::Object(members) => assert_eq!(members[0].0, "b"),
        _ => panic!("an object is expected"),
    }
    match &read {
        JsonValue::Object(members) => assert_eq!(members[0].0, "a"),
        _ => panic!("an object is expected"),
    }
}

#[test]
fn well_formed_documents_hold_each_name_once_and_negatives_below_zero() {
    assert!(sample().is_well_formed());
    assert!(JsonValue::Number(JsonNumber::NegInt(-1)).is_well_formed());
    assert!(!JsonValue::Number(JsonNumber::NegInt(0)).is_well_formed());
    assert!(!JsonValue::Number(JsonNumber::NegInt(5)).is_well_formed());
    assert!(!object(vec![("a", whole(1)), ("a", whole(2))]).is_well_formed());
    assert!(!object(vec![("a", JsonValue::Array(vec![object(vec![("b", whole(1)), ("c", whole(2)), ("b", whole(3))])]))])
        .is_well_formed());
    assert!(object(vec![("a", whole(1)), ("b", object(vec![("a", whole(2))]))]).is_well_formed());
    let read = read_response(200, "{\"b\":-3,\"a\":{\"b\":0,\"a\":[1.5,-0.0]}}".to_string())
        .expect("the text is JSON")
        .res_body
        .value;
    assert!(read.is_well_formed());
    let found = evaluate_expression(&read, &Expression { value: "$..*".to_string() }).expect("the path is sound");
    assert!(found.iter().all(|v| v.is_well_formed()));
    let rebuilt = reverse_flatten_all(pairs(vec![("$.a[1].b", read.clone()), ("$.a[0]", whole(1)), ("$.c", whole(2))]));
    assert!(rebuilt.is_well_formed());
}

#[test]
fn reconstruct_gives_the_document_back_from_entries_in_any_order() {
    let doc = sample();
    let flat = build_index_from_value(&"any".to_string(), &doc, FlattenKeyPrefixType::Input).entries;
    let mut turned = flat.clone();
    turned.reverse();
    assert_eq!(reverse_flatten_all(turned), doc);
    let mut mixed = flat.clone();
    mixed.rotate_left(2);
    mixed.swap(0, 3);
    assert_eq!(reverse_flatten_all(mixed), doc);
    assert_eq!(reverse_flatten_all(flat), doc);
}
