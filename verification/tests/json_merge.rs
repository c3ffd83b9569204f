use kanidm_provision::json::{deep_merge, find_member, Json};

fn text(s: &str) -> Json {
    Json::String(s.to_string())
}

fn num(n: u64) -> Json {
    Json::Number(serde_json::Number::from(n))
}

fn obj(members: Vec<(&str, Json)>) -> Json {
    Json::Object(members.into_iter().map(|(k, v)| (k.to_string(), v)).collect())
}

#[test]
fn merge_objects_member_by_member() {
    let mut base = obj(vec![("a", num(1)), ("b", obj(vec![("x", num(1)), ("y", num(2))]))]);
    let over = obj(vec![("b", obj(vec![("y", num(3)), ("z", num(4))])), ("c", text("new"))]);
    deep_merge(&mut base, over);
    let expected = obj(vec![
        ("a", num(1)),
        ("b", obj(vec![("x", num(1)), ("y", num(3)), ("z", num(4))])),
        ("c", text("new")),
    ]);
    assert_eq!(base, expected);
}

#[test]
fn merge_scalar_replaces_object() {
    let mut base = obj(vec![("a", num(1))]);
    deep_merge(&mut base, text("flat"));
    assert_eq!(base, text("flat"));
}

#[test]
fn merge_object_replaces_scalar_member() {
    let mut base = obj(vec![("a", num(1))]);
    deep_merge(&mut base, obj(vec![("a", obj(vec![("b", Json::Bool(true))]))]));
    assert_eq!(base, obj(vec![("a", obj(vec![("b", Json::Bool(true))]))]));
}

#[test]
fn merge_arrays_are_replaced_not_concatenated() {
    let mut base = obj(vec![("m", Json::Array(vec![num(1), num(2)]))]);
    deep_merge(&mut base, obj(vec![("m", Json::Array(vec![num(3)]))]));
    assert_eq!(base, obj(vec![("m", Json::Array(vec![num(3)]))]));
}

#[test]
fn merge_into_null_gives_override() {
    let mut base = Json::Null;
    let over = obj(vec![("k", Json::Null)]);
    deep_merge(&mut base, obj(vec![("k", Json::Null)]));
    assert_eq!(base, over);
}

#[test]
fn merge_null_override_sets_null() {
    let mut base = obj(vec![("k", num(7))]);
    deep_merge(&mut base, obj(vec![("k", Json::Null)]));
    assert_eq!(base, obj(vec![("k", Json::Null)]));
}

#[test]
fn merge_with_itself_changes_nothing() {
    let make = || obj(vec![("a", obj(vec![("b", num(1))])), ("c", Json::Array(vec![text("x")]))]);
    let mut base = make();
    deep_merge(&mut base, make());
    assert_eq!(base, make());
}

#[test]
fn merge_twice_same_as_once() {
    let a = || obj(vec![("a", num(1)), ("b", obj(vec![("x", num(1))]))]);
    let b = || obj(vec![("b", obj(vec![("y", num(2))])), ("c", num(3))]);
    let mut once = a();
    deep_merge(&mut once, b());
    let mut twice = a();
    deep_merge(&mut twice, b());
    deep_merge(&mut twice, b());
    assert_eq!(once, twice);
}

#[test]
fn find_member_first_match() {
    let entries = vec![
        ("a".to_string(), num(1)),
        ("b".to_string(), num(2)),
    ];
    assert_eq!(find_member(&entries, &"b".to_string()), Some(1));
    assert_eq!(find_member(&entries, &"c".to_string()), None);
}
