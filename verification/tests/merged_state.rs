use kanidm_provision::documents::{inject_target_namespace, tag_client_entry};
use kanidm_provision::json::Json;
use kanidm_provision::order::{name_less, text_less};
use kanidm_provision::merged::{empty_state_document, merge_config_maps, merge_parsed_config_maps};
use kanidm_provision::sources::{
    extract_json_from_cm, has_json_suffix, json_document_texts, sort_sources, target_namespace,
    ConfigMapSource,
};

fn text(s: &str) -> Json {
    Json::String(s.to_string())
}

fn obj(members: Vec<(&str, Json)>) -> Json {
    Json::Object(members.into_iter().map(|(k, v)| (k.to_string(), v)).collect())
}

fn data(entries: Vec<(&str, &str)>) -> Option<Vec<(String, String)>> {
    Some(entries.into_iter().map(|(k, v)| (k.to_string(), v.to_string())).collect())
}

fn source(name: Option<&str>, d: Option<Vec<(String, String)>>) -> ConfigMapSource {
    ConfigMapSource::new(name.map(|s| s.to_string()), d).unwrap()
}

fn state(groups: Json, persons: Json, oauth2: Json) -> Json {
    obj(vec![("groups", groups), ("persons", persons), ("systems", obj(vec![("oauth2", oauth2)]))])
}

#[test]
fn empty_state_has_three_sections() {
    assert_eq!(empty_state_document(), state(obj(vec![]), obj(vec![]), obj(vec![])));
}

#[test]
fn no_sources_give_empty_state() {
    let merged = merge_config_maps(vec![], &"ns".to_string());
    assert_eq!(merged, state(obj(vec![]), obj(vec![]), obj(vec![])));
}

#[test]
fn later_names_override_earlier_ones() {
    let b = source(Some("b"), data(vec![("groups.json", r#"{"groups": {"g": {"present": false}}}"#)]));
    let a = source(Some("a"), data(vec![("groups.json", r#"{"groups": {"g": {"present": true}}}"#)]));
    let merged = merge_config_maps(vec![b, a], &"ns".to_string());
    assert_eq!(
        merged,
        state(obj(vec![("g", obj(vec![("present", Json::Bool(false))]))]), obj(vec![]), obj(vec![]))
    );
}

#[test]
fn clients_get_target_namespace() {
    let doc = r#"{"systems": {"oauth2": {"grafana": {"k8s": {"clientIdKey": "id"}}, "plain": {"displayName": "Plain"}}}}"#;
    let src = source(Some("cm"), data(vec![("state.json", doc), ("targetNamespace", "apps")]));
    let merged = merge_config_maps(vec![src], &"kanidm".to_string());
    let expected = state(
        obj(vec![]),
        obj(vec![]),
        obj(vec![
            (
                "grafana",
                obj(vec![("k8s", obj(vec![("clientIdKey", text("id")), ("targetNamespace", text("apps"))]))]),
            ),
            ("plain", obj(vec![("displayName", text("Plain"))])),
        ]),
    );
    assert_eq!(merged, expected);
}

#[test]
fn clients_default_to_watched_namespace() {
    let src = source(None, data(vec![("a.json", r#"{"systems": {"oauth2": {"c": {"k8s": {}}}}}"#)]));
    let merged = merge_config_maps(vec![src], &"kanidm".to_string());
    let expected = state(
        obj(vec![]),
        obj(vec![]),
        obj(vec![("c", obj(vec![("k8s", obj(vec![("targetNamespace", text("kanidm"))]))]))]),
    );
    assert_eq!(merged, expected);
}

#[test]
fn unparsable_and_other_entries_are_ignored() {
    let plain = source(Some("cm"), data(vec![("p.json", r#"{"persons": {"alice": {"displayName": "Alice"}}}"#)]));
    let noisy = source(
        Some("cm"),
        data(vec![
            ("broken.json", "{ not json"),
            ("notes.txt", r#"{"persons": {"bob": {}}}"#),
            ("p.json", r#"{"persons": {"alice": {"displayName": "Alice"}}}"#),
        ]),
    );
    let ns = "kanidm".to_string();
    assert_eq!(merge_config_maps(vec![plain], &ns), merge_config_maps(vec![noisy], &ns));
}

#[test]
fn listing_order_does_not_matter() {
    let mk = |n: &str, doc: &str| source(Some(n), data(vec![("x.json", doc)]));
    let ns = "kanidm".to_string();
    let first = merge_config_maps(
        vec![mk("a", r#"{"groups": {"g": {"members": ["x"]}}}"#), mk("b", r#"{"groups": {"g": {"members": ["y"]}}}"#)],
        &ns,
    );
    let second = merge_config_maps(
        vec![mk("b", r#"{"groups": {"g": {"members": ["y"]}}}"#), mk("a", r#"{"groups": {"g": {"members": ["x"]}}}"#)],
        &ns,
    );
    assert_eq!(first, second);
}

#[test]
fn extract_parses_json_entries_in_key_order() {
    let d = data(vec![("a.json", "1"), ("b.json", "oops"), ("c.json", r#"{"k": null}"#), ("d.txt", "2")]);
    let docs = extract_json_from_cm(&d);
    assert_eq!(docs, vec![Json::Number(serde_json::Number::from(1u64)), obj(vec![("k", Json::Null)])]);
    assert!(extract_json_from_cm(&None).is_empty());
}

#[test]
fn merge_parsed_uses_given_documents() {
    let sources = vec![source(Some("a"), data(vec![("targetNamespace", "apps")]))];
    let docs = vec![vec![obj(vec![("systems", obj(vec![("oauth2", obj(vec![("c", obj(vec![("k8s", obj(vec![]))]))]))]))])]];
    let merged = merge_parsed_config_maps(&sources, docs, &"kanidm".to_string());
    let expected = state(
        obj(vec![]),
        obj(vec![]),
        obj(vec![("c", obj(vec![("k8s", obj(vec![("targetNamespace", text("apps"))]))]))]),
    );
    assert_eq!(merged, expected);
}

#[test]
fn target_namespace_overrides_existing_value() {
    let client = obj(vec![("k8s", obj(vec![("targetNamespace", text("old"))]))]);
    let tagged = tag_client_entry(client, &"new".to_string());
    assert_eq!(tagged, obj(vec![("k8s", obj(vec![("targetNamespace", text("new"))]))]));
}

#[test]
fn non_object_k8s_is_left_alone() {
    let client = obj(vec![("k8s", text("nope"))]);
    let tagged = tag_client_entry(client, &"ns".to_string());
    assert_eq!(tagged, obj(vec![("k8s", text("nope"))]));
}

#[test]
fn documents_without_oauth2_are_unchanged() {
    let doc = obj(vec![("persons", obj(vec![]))]);
    let same = obj(vec![("persons", obj(vec![]))]);
    assert_eq!(inject_target_namespace(doc, &"ns".to_string()), same);
    assert_eq!(inject_target_namespace(text("x"), &"ns".to_string()), text("x"));
}

#[test]
fn only_json_keys_are_documents() {
    let d = data(vec![("a.json", "1"), ("b.yaml", "2"), ("json", "3"), (".json", "4"), ("targetNamespace", "x")]);
    let texts = json_document_texts(&d);
    assert_eq!(texts, vec!["1".to_string(), "4".to_string()]);
    assert!(json_document_texts(&None).is_empty());
    assert!(has_json_suffix(&"groups.json".to_string()));
    assert!(!has_json_suffix(&"groups.jso".to_string()));
}

#[test]
fn target_namespace_lookup() {
    let ns = "default".to_string();
    assert_eq!(target_namespace(&data(vec![("targetNamespace", "apps")]), &ns), "apps");
    assert_eq!(target_namespace(&data(vec![("other", "apps")]), &ns), "default");
    assert_eq!(target_namespace(&None, &ns), "default");
}

#[test]
fn sorting_is_by_name_and_stable() {
    let mk = |n: Option<&str>, tag: &str| source(n, data(vec![("tag", tag)]));
    let sorted = sort_sources(vec![
        mk(Some("b"), "1"),
        mk(Some("a"), "2"),
        mk(None, "3"),
        mk(Some("b"), "4"),
        mk(Some("ab"), "5"),
    ]);
    let tags: Vec<String> = sorted.iter().map(|s| s.data().as_ref().unwrap()[0].1.clone()).collect();
    assert_eq!(tags, vec!["3", "2", "5", "1", "4"]);
}

#[test]
fn name_order_matches_str_order() {
    let pairs = [("a", "b"), ("a", "ab"), ("", "a"), ("Z", "a"), ("é", "z"), ("abc", "abd")];
    for (x, y) in pairs {
        assert_eq!(text_less(&x.to_string(), &y.to_string()), x < y);
        assert_eq!(text_less(&y.to_string(), &x.to_string()), y < x);
    }
    assert!(name_less(&None, &Some("a".to_string())));
    assert!(!name_less(&Some("a".to_string()), &None));
    assert!(!name_less(&None, &None));
}

#[test]
fn config_map_data_must_be_in_key_order() {
    assert!(ConfigMapSource::new(Some("cm".to_string()), data(vec![("b", "1"), ("a", "2")])).is_none());
    assert!(ConfigMapSource::new(Some("cm".to_string()), data(vec![("a", "1"), ("a", "2")])).is_none());
    assert!(ConfigMapSource::new(None, data(vec![("a", "1"), ("b", "2")])).is_some());
    let src = ConfigMapSource::new(Some("cm".to_string()), None).unwrap();
    assert_eq!(src.name(), &Some("cm".to_string()));
    assert_eq!(src.data(), &None);
}
