use vstd::prelude::*;
use crate::endpoints::secret_name;
use crate::state::{Oauth2K8sConfig, Oauth2System, State, names_unique};

verus! {

/// Where and how one OAuth2 client's credentials are published.
#[derive(Debug, Clone, PartialEq)]
pub struct SecretTarget {
    pub client_name: String,
    pub namespace: String,
    pub secret_name: String,
    pub client_id_key: String,
    pub client_secret_key: String,
}

pub struct SecretTargetView {
    pub client_name: Seq<char>,
    pub namespace: Seq<char>,
    pub secret_name: Seq<char>,
    pub client_id_key: Seq<char>,
    pub client_secret_key: Seq<char>,
}

impl View for SecretTarget {
    type V = SecretTargetView;

    open spec fn view(&self) -> SecretTargetView {
        SecretTargetView {
            client_name: self.client_name@,
            namespace: self.namespace@,
            secret_name: self.secret_name@,
            client_id_key: self.client_id_key@,
            client_secret_key: self.client_secret_key@,
        }
    }
}

/// The secret of client `name` with Kubernetes settings `k8s`: it lives in
/// the configured namespace (else the default one) under the name
/// `kanidm-<name>-oidc`.
pub open spec fn secret_target(name: Seq<char>, k8s: Oauth2K8sConfig, default_ns: Seq<char>) -> SecretTargetView {
    SecretTargetView {
        client_name: name,
        namespace: match k8s.target_namespace {
            Some(t) => t@,
            None => default_ns,
        },
        secret_name: "kanidm-"@ + name + "-oidc"@,
        client_id_key: k8s.client_id_key@,
        client_secret_key: k8s.client_secret_key@,
    }
}

/// A client gets a secret when it has Kubernetes settings and is not a
/// public client.
pub open spec fn wants_secret(sys: Oauth2System) -> bool {
    sys.k8s is Some && !sys.public
}

/// The secrets to publish, one per client that wants one, in the order of
/// the clients.
pub open spec fn secret_targets_of(clients: Seq<(String, Oauth2System)>, default_ns: Seq<char>) -> Seq<SecretTargetView>
    decreases clients.len(),
{
    if clients.len() == 0 {
        Seq::empty()
    } else {
        let r = secret_targets_of(clients.drop_last(), default_ns);
        let (name, sys) = clients.last();
        if wants_secret(sys) {
            r.push(secret_target(name@, sys.k8s->0, default_ns))
        } else {
            r
        }
    }
}

fn target_for(name: &String, k8s: &Oauth2K8sConfig, default_namespace: &String) -> (r: SecretTarget)
    ensures
        r@ == secret_target(name@, *k8s, default_namespace@),
{
    let namespace = match &k8s.target_namespace {
        Some(t) => t.clone(),
        None => default_namespace.clone(),
    };
    SecretTarget {
        client_name: name.clone(),
        namespace,
        secret_name: secret_name(name.as_str()),
        client_id_key: k8s.client_id_key.clone(),
        client_secret_key: k8s.client_secret_key.clone(),
    }
}

/// The Kubernetes secrets that the OAuth2 clients of the state ask for.
pub fn secret_targets(state: &State, default_namespace: &String) -> (r: Vec<SecretTarget>)
    ensures
        r@.map_values(|t: SecretTarget| t@) == secret_targets_of(
            state.systems.oauth2@,
            default_namespace@,
        ),
        state.well_formed() ==> forall|i: int, j: int|
            0 <= i < j < r@.len() ==> #[trigger] r@[i].client_name@ != #[trigger] r@[j].client_name@
                && r@[i].secret_name@ != r@[j].secret_name@,
{
    let clients = &state.systems.oauth2;
    let mut out: Vec<SecretTarget> = Vec::new();
    let mut i: usize = 0;
    proof {
        assert(clients@.take(0).len() == 0);
        assert(out@.map_values(|t: SecretTarget| t@) =~= Seq::<SecretTargetView>::empty());
    }
    while i < clients.len()
        invariant
            i <= clients.len(),
            out@.map_values(|t: SecretTarget| t@) == secret_targets_of(
                clients@.take(i as int),
                default_namespace@,
            ),
        decreases clients.len() - i,
    {
        proof {
            assert(clients@.take(i + 1).drop_last() =~= clients@.take(i as int));
            assert(clients@.take(i + 1).last() == clients@[i as int]);
        }
        let (name, sys) = &clients[i];
        if !sys.public {
            match &sys.k8s {
                Some(k8s) => {
                    let ghost before = out@;
                    let t = target_for(name, k8s, default_namespace);
                    out.push(t);
                    proof {
                        assert(out@.map_values(|t: SecretTarget| t@) =~= before.map_values(
                            |t: SecretTarget| t@,
                        ).push(t@));
                    }
                },
                None => {},
            }
        }
        i += 1;
    }
    proof {
        assert(clients@.take(i as int) =~= clients@);
        let v = out@.map_values(|t: SecretTarget| t@);
        if state.well_formed() {
            lemma_secret_targets_distinct(clients@, default_namespace@);
            assert forall|a: int, b: int| 0 <= a < b < out@.len() implies #[trigger] out@[a].client_name@
                != #[trigger] out@[b].client_name@ && out@[a].secret_name@ != out@[b].secret_name@ by {
                assert(v[a] == out@[a]@ && v[b] == out@[b]@);
                let st = secret_targets_of(clients@, default_namespace@);
                assert(v == st);
                assert(names_unique(clients@));
                assert(st[a].client_name != st[b].client_name);
                assert(v[a].client_name != v[b].client_name && v[a].secret_name != v[b].secret_name);
            }
        }
        assert(state.well_formed() ==> forall|a: int, b: int|
            0 <= a < b < out@.len() ==> #[trigger] out@[a].client_name@ != #[trigger] out@[b].client_name@
                && out@[a].secret_name@ != out@[b].secret_name@);
    }
    out
}

proof fn lemma_targets_from_clients(clients: Seq<(String, Oauth2System)>, ns: Seq<char>)
    ensures
        forall|i: int|
            0 <= i < secret_targets_of(clients, ns).len() ==> exists|j: int|
                0 <= j < clients.len() && #[trigger] secret_targets_of(clients, ns)[i].client_name
                    == #[trigger] clients[j].0@,
        forall|i: int|
            0 <= i < secret_targets_of(clients, ns).len() ==> #[trigger] secret_targets_of(clients, ns)[i].secret_name
                == "kanidm-"@ + secret_targets_of(clients, ns)[i].client_name + "-oidc"@,
    decreases clients.len(),
{
    if clients.len() > 0 {
        let c = clients.drop_last();
        let n = clients.len() - 1;
        lemma_targets_from_clients(c, ns);
        let r0 = secret_targets_of(c, ns);
        let r = secret_targets_of(clients, ns);
        let last = clients.last();
        if wants_secret(last.1) {
            assert(r == r0.push(secret_target(last.0@, last.1.k8s->0, ns)));
        } else {
            assert(r == r0);
        }
        assert forall|i: int| 0 <= i < r.len() implies exists|j: int|
            0 <= j < clients.len() && #[trigger] r[i].client_name == #[trigger] clients[j].0@ by {
            if i < r0.len() {
                assert(r[i] == r0[i]);
                let j = choose|j: int| 0 <= j < c.len() && #[trigger] r0[i].client_name == #[trigger] c[j].0@;
                assert(clients[j] == c[j]);
                assert(r[i].client_name == clients[j].0@);
            } else {
                assert(r[i].client_name == clients[n].0@);
            }
        }
        assert forall|i: int| 0 <= i < r.len() implies #[trigger] r[i].secret_name == "kanidm-"@ + r[i].client_name
            + "-oidc"@ by {
            if i < r0.len() {
                assert(r[i] == r0[i]);
            }
        }
    }
}

/// A secret name tells the client apart.
proof fn lemma_secret_name_injective(a: Seq<char>, b: Seq<char>)
    requires
        "kanidm-"@ + a + "-oidc"@ == "kanidm-"@ + b + "-oidc"@,
    ensures
        a == b,
{
    let p = "kanidm-"@;
    let q = "-oidc"@;
    let x = p + a + q;
    let y = p + b + q;
    assert(x.len() == p.len() + a.len() + q.len());
    assert(y.len() == p.len() + b.len() + q.len());
    assert forall|i: int| 0 <= i < a.len() implies a[i] == b[i] by {
        assert(x[p.len() + i] == a[i]);
        assert(y[p.len() + i] == b[i]);
    }
    assert(a =~= b);
}

/// Clients with distinct names get secrets with distinct client names and
/// distinct secret names.
pub proof fn lemma_secret_targets_distinct(clients: Seq<(String, Oauth2System)>, ns: Seq<char>)
    requires
        names_unique(clients),
    ensures
        forall|i: int, j: int|
            0 <= i < j < secret_targets_of(clients, ns).len() ==> #[trigger] secret_targets_of(clients, ns)[i].client_name
                != #[trigger] secret_targets_of(clients, ns)[j].client_name
                && secret_targets_of(clients, ns)[i].secret_name != secret_targets_of(clients, ns)[j].secret_name,
    decreases clients.len(),
{
    if clients.len() > 0 {
        let c = clients.drop_last();
        let n = clients.len() - 1;
        assert forall|i: int, j: int| 0 <= i < j < c.len() implies #[trigger] c[i].0@ != #[trigger] c[j].0@ by {
            assert(clients[i].0@ != clients[j].0@);
        }
        lemma_secret_targets_distinct(c, ns);
        lemma_targets_from_clients(c, ns);
        lemma_targets_from_clients(clients, ns);
        let last = clients.last();
        if wants_secret(last.1) {
            assert(secret_targets_of(clients, ns) == secret_targets_of(c, ns).push(
                secret_target(last.0@, last.1.k8s->0, ns),
            ));
        } else {
            assert(secret_targets_of(clients, ns) == secret_targets_of(c, ns));
        }
        let r0 = secret_targets_of(c, ns);
        let r = secret_targets_of(clients, ns);
        assert forall|i: int, j: int| 0 <= i < j < r.len() implies #[trigger] r[i].client_name
            != #[trigger] r[j].client_name && r[i].secret_name != r[j].secret_name by {
            if j < r0.len() {
                assert(r[i] == r0[i] && r[j] == r0[j]);
            } else {
                assert(r[i] == r0[i]);
                let k = choose|k: int| 0 <= k < c.len() && #[trigger] r0[i].client_name == #[trigger] c[k].0@;
                assert(clients[k].0@ != clients[n].0@);
                assert(r[j].client_name == clients[n].0@);
            }
            if r[i].secret_name == r[j].secret_name {
                lemma_secret_name_injective(r[i].client_name, r[j].client_name);
            }
        }
    }
}

/// The entries of a client's secret: the client name under the id key and
/// the secret under the secret key; when both keys are the same, the
/// secret wins.
pub open spec fn secret_entries(t: SecretTargetView, secret: Seq<char>) -> Seq<(Seq<char>, Seq<char>)> {
    if t.client_id_key == t.client_secret_key {
        seq![(t.client_secret_key, secret)]
    } else {
        seq![(t.client_id_key, t.client_name), (t.client_secret_key, secret)]
    }
}

/// The string data of a client's secret, given the client secret fetched
/// from Kanidm.
pub fn secret_string_data(target: &SecretTarget, secret_value: String) -> (r: Vec<(String, String)>)
    ensures
        r@.map_values(|e: (String, String)| (e.0@, e.1@)) == secret_entries(target@, secret_value@),
{
    let mut r: Vec<(String, String)> = Vec::new();
    if target.client_id_key != target.client_secret_key {
        r.push((target.client_id_key.clone(), target.client_name.clone()));
    }
    r.push((target.client_secret_key.clone(), secret_value));
    proof {
        assert(r@.map_values(|e: (String, String)| (e.0@, e.1@)) =~= secret_entries(target@, secret_value@));
    }
    r
}


/// The secrets of the clients `a + b` are those of `a` followed by those
/// of `b`: each client is planned on its own.
pub proof fn lemma_secret_targets_append(
    a: Seq<(String, Oauth2System)>,
    b: Seq<(String, Oauth2System)>,
    ns: Seq<char>,
)
    ensures
        secret_targets_of(a + b, ns) == secret_targets_of(a, ns) + secret_targets_of(b, ns),
    decreases b.len(),
{
    if b.len() == 0 {
        assert(a + b =~= a);
        assert(secret_targets_of(a, ns) + secret_targets_of(b, ns) =~= secret_targets_of(a, ns));
    } else {
        lemma_secret_targets_append(a, b.drop_last(), ns);
        assert((a + b).drop_last() =~= a + b.drop_last());
        assert((a + b).last() == b.last());
        let r = secret_targets_of(a, ns) + secret_targets_of(b.drop_last(), ns);
        let (name, sys) = b.last();
        if wants_secret(sys) {
            let t = secret_target(name@, sys.k8s->0, ns);
            assert(r.push(t) =~= secret_targets_of(a, ns) + secret_targets_of(b.drop_last(), ns).push(t));
        }
    }
}

/// One client gets a secret exactly when it has Kubernetes settings and is
/// not public; the secret is `kanidm-<name>-oidc`, in the configured
/// namespace (else the default one), under the configured id and secret
/// keys.
pub proof fn lemma_secret_targets_one(name: String, sys: Oauth2System, ns: Seq<char>)
    ensures
        (sys.k8s is None || sys.public) ==> secret_targets_of(seq![(name, sys)], ns).len() == 0,
        (sys.k8s is Some && !sys.public) ==> ({
            let r = secret_targets_of(seq![(name, sys)], ns);
            let k = sys.k8s->0;
            &&& r.len() == 1
            &&& r[0].client_name == name@
            &&& r[0].secret_name == "kanidm-"@ + name@ + "-oidc"@
            &&& r[0].client_id_key == k.client_id_key@
            &&& r[0].client_secret_key == k.client_secret_key@
            &&& k.target_namespace is Some ==> r[0].namespace == k.target_namespace->0@
            &&& k.target_namespace is None ==> r[0].namespace == ns
        }),
{
    let one = seq![(name, sys)];
    assert(one.drop_last() =~= Seq::<(String, Oauth2System)>::empty());
    assert(one.last() == (name, sys));
    assert(secret_targets_of(one.drop_last(), ns) == Seq::<SecretTargetView>::empty());
}

} // verus!
