use kanidm_provision::endpoints::{
    basic_secret_url, bearer_authorization, client_image_url, icon_file_name, needs_image,
    secret_name, status_url,
};
use kanidm_provision::icons::{icon_requests, record_icon};
use kanidm_provision::secrets::{secret_string_data, secret_targets, SecretTarget};
use kanidm_provision::state::{
    default_client_id_key, default_client_secret_key, default_false, default_true, Oauth2K8sConfig,
    Oauth2System, State, StringOrStrings, Systems,
};

fn k8s(ns: Option<&str>, image: Option<&str>) -> Oauth2K8sConfig {
    Oauth2K8sConfig {
        image_url: image.map(|s| s.to_string()),
        client_id_key: default_client_id_key(),
        client_secret_key: default_client_secret_key(),
        target_namespace: ns.map(|s| s.to_string()),
    }
}

fn system(public: bool, k8s: Option<Oauth2K8sConfig>) -> Oauth2System {
    Oauth2System {
        present: true,
        public,
        display_name: "App".to_string(),
        basic_secret_file: None,
        image_file: None,
        origin_url: StringOrStrings::String("https://app.example.com/".to_string()),
        origin_landing: "https://app.example.com/".to_string(),
        enable_localhost_redirects: false,
        enable_legacy_crypto: false,
        allow_insecure_client_disable_pkce: false,
        prefer_short_username: false,
        scope_maps: vec![],
        supplementary_scope_maps: vec![],
        remove_orphaned_claim_maps: true,
        claim_maps: vec![],
        k8s,
    }
}

fn state_with(clients: Vec<(&str, Oauth2System)>) -> State {
    State {
        groups: vec![],
        persons: vec![],
        systems: Systems { oauth2: clients.into_iter().map(|(n, s)| (n.to_string(), s)).collect() },
    }
}

#[test]
fn endpoint_urls() {
    assert_eq!(
        basic_secret_url("https://idm.example.com", "grafana"),
        "https://idm.example.com/v1/oauth2/grafana/_basic_secret"
    );
    assert_eq!(
        client_image_url("https://idm.example.com", "grafana"),
        "https://idm.example.com/ui/images/oauth2/grafana"
    );
    assert_eq!(status_url("https://idm.example.com"), "https://idm.example.com/status");
    assert_eq!(bearer_authorization("tok"), "Bearer tok");
    assert_eq!(secret_name("grafana"), "kanidm-grafana-oidc");
    assert_eq!(icon_file_name("grafana"), "grafana.svg");
}

#[test]
fn image_needed_only_on_not_found() {
    assert!(needs_image(Some(404)));
    assert!(!needs_image(Some(200)));
    assert!(!needs_image(Some(500)));
    assert!(!needs_image(None));
}

#[test]
fn secrets_for_confidential_clients_with_k8s() {
    let st = state_with(vec![
        ("grafana", system(false, Some(k8s(Some("monitoring"), None)))),
        ("public-app", system(true, Some(k8s(None, None)))),
        ("no-k8s", system(false, None)),
        ("wiki", system(false, Some(k8s(None, None)))),
    ]);
    let targets = secret_targets(&st, &"kanidm".to_string());
    let expected = vec![
        SecretTarget {
            client_name: "grafana".to_string(),
            namespace: "monitoring".to_string(),
            secret_name: "kanidm-grafana-oidc".to_string(),
            client_id_key: "client-id".to_string(),
            client_secret_key: "client-secret".to_string(),
        },
        SecretTarget {
            client_name: "wiki".to_string(),
            namespace: "kanidm".to_string(),
            secret_name: "kanidm-wiki-oidc".to_string(),
            client_id_key: "client-id".to_string(),
            client_secret_key: "client-secret".to_string(),
        },
    ];
    assert_eq!(targets, expected);
}

#[test]
fn secret_data_holds_id_and_secret() {
    let t = SecretTarget {
        client_name: "grafana".to_string(),
        namespace: "monitoring".to_string(),
        secret_name: "kanidm-grafana-oidc".to_string(),
        client_id_key: "client-id".to_string(),
        client_secret_key: "client-secret".to_string(),
    };
    assert_eq!(
        secret_string_data(&t, "s3cr3t".to_string()),
        vec![
            ("client-id".to_string(), "grafana".to_string()),
            ("client-secret".to_string(), "s3cr3t".to_string())
        ]
    );
}

#[test]
fn secret_wins_when_keys_coincide() {
    let t = SecretTarget {
        client_name: "grafana".to_string(),
        namespace: "monitoring".to_string(),
        secret_name: "kanidm-grafana-oidc".to_string(),
        client_id_key: "key".to_string(),
        client_secret_key: "key".to_string(),
    };
    assert_eq!(secret_string_data(&t, "s".to_string()), vec![("key".to_string(), "s".to_string())]);
}

#[test]
fn icons_requested_for_clients_with_image() {
    let st = state_with(vec![
        ("a", system(false, Some(k8s(None, Some("https://img/a.svg"))))),
        ("b", system(false, Some(k8s(None, None)))),
        ("c", system(true, Some(k8s(None, Some("https://img/c.svg"))))),
        ("d", system(false, None)),
    ]);
    let reqs: Vec<(String, String)> =
        icon_requests(&st).into_iter().map(|q| (q.client_name, q.image_url)).collect();
    assert_eq!(
        reqs,
        vec![
            ("a".to_string(), "https://img/a.svg".to_string()),
            ("c".to_string(), "https://img/c.svg".to_string())
        ]
    );
}

#[test]
fn recording_an_icon_touches_only_that_client() {
    let mut st = state_with(vec![("a", system(false, None)), ("b", system(false, None))]);
    record_icon(&mut st, &"b".to_string(), "/data/icons/b.svg".to_string());
    assert_eq!(st.systems.oauth2[0].1.image_file, None);
    assert_eq!(st.systems.oauth2[1].1.image_file, Some("/data/icons/b.svg".to_string()));
    let mut expected_b = system(false, None);
    expected_b.image_file = Some("/data/icons/b.svg".to_string());
    assert_eq!(st.systems.oauth2[1].1, expected_b);
}

#[test]
fn state_defaults() {
    assert_eq!(default_client_id_key(), "client-id");
    assert_eq!(default_client_secret_key(), "client-secret");
    assert!(!default_false());
    assert!(default_true());
    let d = Oauth2K8sConfig::default();
    assert_eq!(d.image_url, None);
    assert_eq!(d.client_id_key, "");
    assert_eq!(d.client_secret_key, "");
    assert_eq!(d.target_namespace, None);
}

#[test]
fn string_or_strings() {
    assert_eq!(StringOrStrings::String("a".to_string()).strings(), vec!["a".to_string()]);
    assert_eq!(
        StringOrStrings::Strings(vec!["a".to_string(), "b".to_string()]).strings(),
        vec!["a".to_string(), "b".to_string()]
    );
    assert!(StringOrStrings::Strings(vec![]).strings().is_empty());
}
