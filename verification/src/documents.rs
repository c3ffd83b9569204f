use vstd::prelude::*;
use crate::json::{
    Entries, Json, JsonView, entries_view, find_member, json_view, key_index, keys_distinct, member,
    members_well_formed, well_formed, lemma_entries_view, lemma_members_well_formed,
};
use crate::json_laws::{
    lemma_key_index, lemma_key_index_push, lemma_key_index_same_keys, lemma_key_index_update,
};

verus! {

/// Replaces the value of the member named `key`, or appends the member
/// when there is none, as inserting into a JSON object does.
pub open spec fn set_member(es: Entries, key: Seq<char>, v: JsonView) -> Entries {
    let i = key_index(es, key);
    if i >= 0 {
        es.update(i, (es[i].0, v))
    } else {
        es.push((key, v))
    }
}

/// An OAuth2 client entry with its Kubernetes settings told the namespace
/// they apply to: when the client is an object whose `k8s` member is an
/// object, that member gets `targetNamespace` set to `ns`.
pub open spec fn tag_client(client: JsonView, ns: Seq<char>) -> JsonView {
    match client {
        JsonView::Object(c) => match member(c, "k8s"@) {
            Some(JsonView::Object(k)) => JsonView::Object(
                set_member(
                    c,
                    "k8s"@,
                    JsonView::Object(set_member(k, "targetNamespace"@, JsonView::Text(ns))),
                ),
            ),
            _ => client,
        },
        _ => client,
    }
}

pub open spec fn tag_clients(clients: Entries, ns: Seq<char>) -> Entries {
    clients.map_values(|c: (Seq<char>, JsonView)| (c.0, tag_client(c.1, ns)))
}

/// A provisioning document with every client under `/systems/oauth2`
/// tagged with the namespace `ns`; a document without such an object is
/// left as it is.
pub open spec fn with_target_namespace(doc: JsonView, ns: Seq<char>) -> JsonView {
    match doc {
        JsonView::Object(top) => match member(top, "systems"@) {
            Some(JsonView::Object(sys)) => match member(sys, "oauth2"@) {
                Some(JsonView::Object(clients)) => JsonView::Object(
                    set_member(
                        top,
                        "systems"@,
                        JsonView::Object(
                            set_member(sys, "oauth2"@, JsonView::Object(tag_clients(clients, ns))),
                        ),
                    ),
                ),
                _ => doc,
            },
            _ => doc,
        },
        _ => doc,
    }
}

/// Sets the member `key` to `v` in place.
fn set_member_value(entries: &mut Vec<(String, Json)>, key: String, v: Json)
    ensures
        entries_view(final(entries)@) == set_member(entries_view(old(entries)@), key@, v@),
{
    let ghost before = entries_view(entries@);
    proof {
        lemma_entries_view(entries@);
    }
    match find_member(entries, &key) {
        Some(i) => {
            let (k, _old) = entries.remove(i);
            entries.insert(i, (k, v));
            proof {
                lemma_entries_view(entries@);
                assert(entries_view(entries@) =~= before.update(i as int, (before[i as int].0, v@)));
            }
        },
        None => {
            entries.push((key, v));
            proof {
                lemma_entries_view(entries@);
                assert(entries_view(entries@) =~= before.push((key@, v@)));
            }
        },
    }
}

/// Tags one client entry with the target namespace.
pub fn tag_client_entry(client: Json, ns: &String) -> (r: Json)
    ensures
        r@ == tag_client(client@, ns@),
{
    match client {
        Json::Object(mut c) => {
            let ghost cv = entries_view(c@);
            let k8s = String::from_str("k8s");
            proof {
                lemma_entries_view(c@);
            }
            match find_member(&c, &k8s) {
                Some(i) => {
                    let (key, val) = c.remove(i);
                    proof {
                        assert(cv[i as int] == (key@, val@));
                    }
                    match val {
                        Json::Object(mut k) => {
                            set_member_value(
                                &mut k,
                                String::from_str("targetNamespace"),
                                Json::String(ns.clone()),
                            );
                            let ghost kv = entries_view(k@);
                            c.insert(i, (key, Json::Object(k)));
                            proof {
                                lemma_entries_view(c@);
                                assert(entries_view(c@) =~= cv.update(
                                    i as int,
                                    (cv[i as int].0, JsonView::Object(kv)),
                                ));
                            }
                            Json::Object(c)
                        },
                        other => {
                            c.insert(i, (key, other));
                            proof {
                                lemma_entries_view(c@);
                                assert(entries_view(c@) =~= cv);
                            }
                            Json::Object(c)
                        },
                    }
                },
                None => Json::Object(c),
            }
        },
        other => other,
    }
}

/// Tags every client entry with the target namespace.
fn tag_client_entries(clients: Vec<(String, Json)>, ns: &String) -> (r: Vec<(String, Json)>)
    ensures
        entries_view(r@) == tag_clients(entries_view(clients@), ns@),
{
    let ghost orig = entries_view(clients@);
    proof {
        lemma_entries_view(clients@);
    }
    let mut rest = clients;
    let mut out: Vec<(String, Json)> = Vec::new();
    let ghost mut n: int = 0;
    while rest.len() > 0
        invariant
            0 <= n <= orig.len(),
            rest.len() == orig.len() - n,
            forall|j: int|
                0 <= j < rest.len() ==> (#[trigger] rest@[j].0@, json_view(rest@[j].1)) == orig[n + j],
            entries_view(out@) == tag_clients(orig.take(n), ns@),
        decreases rest.len(),
    {
        assert((rest@[0].0@, json_view(rest@[0].1)) == orig[n]);
        let ghost old_rest = rest@;
        let ghost before = entries_view(out@);
        let ghost old_out = out@;
        let (k, v) = rest.remove(0);
        let t = tag_client_entry(v, ns);
        out.push((k, t));
        proof {
            assert forall|j: int| 0 <= j < rest.len() implies (#[trigger] rest@[j].0@, json_view(rest@[j].1))
                == orig[n + 1 + j] by {
                assert(rest@[j] == old_rest[j + 1]);
                assert((old_rest[j + 1].0@, json_view(old_rest[j + 1].1)) == orig[n + (j + 1)]);
            }
            assert(out@.drop_last() =~= old_out);
            assert(entries_view(out@) =~= before.push((k@, t@)));
            assert(tag_clients(orig.take(n + 1), ns@) =~= tag_clients(orig.take(n), ns@).push(
                (orig[n].0, tag_client(orig[n].1, ns@)),
            ));
            n = n + 1;
        }
    }
    proof {
        assert(orig.take(n) =~= orig);
        assert(entries_view(Seq::<(String, Json)>::empty()) =~= Seq::<(Seq<char>, JsonView)>::empty());
    }
    out
}


/// Tags every client under `/systems/oauth2` of a provisioning document
/// with the namespace its Kubernetes secret belongs in.
pub fn inject_target_namespace(doc: Json, ns: &String) -> (r: Json)
    ensures
        r@ == with_target_namespace(doc@, ns@),
{
    match doc {
        Json::Object(mut top) => {
            let ghost tv = entries_view(top@);
            proof {
                lemma_entries_view(top@);
            }
            let systems = String::from_str("systems");
            match find_member(&top, &systems) {
                Some(i) => {
                    let (skey, sval) = top.remove(i);
                    proof {
                        assert(tv[i as int] == (skey@, sval@));
                    }
                    match sval {
                        Json::Object(mut sys) => {
                            let ghost sv = entries_view(sys@);
                            proof {
                                lemma_entries_view(sys@);
                            }
                            let oauth2 = String::from_str("oauth2");
                            match find_member(&sys, &oauth2) {
                                Some(j) => {
                                    let (okey, oval) = sys.remove(j);
                                    proof {
                                        assert(sv[j as int] == (okey@, oval@));
                                    }
                                    match oval {
                                        Json::Object(clients) => {
                                            let tagged = tag_client_entries(clients, ns);
                                            let ghost cv = entries_view(tagged@);
                                            sys.insert(j, (okey, Json::Object(tagged)));
                                            proof {
                                                lemma_entries_view(sys@);
                                                assert(entries_view(sys@) =~= sv.update(
                                                    j as int,
                                                    (sv[j as int].0, JsonView::Object(cv)),
                                                ));
                                            }
                                        },
                                        other => {
                                            sys.insert(j, (okey, other));
                                            proof {
                                                lemma_entries_view(sys@);
                                                assert(entries_view(sys@) =~= sv);
                                            }
                                        },
                                    }
                                },
                                None => {},
                            }
                            let ghost sv2 = entries_view(sys@);
                            top.insert(i, (skey, Json::Object(sys)));
                            proof {
                                lemma_entries_view(top@);
                                assert(entries_view(top@) =~= tv.update(
                                    i as int,
                                    (tv[i as int].0, JsonView::Object(sv2)),
                                ));
                                if sv2 == sv {
                                    assert(tv.update(i as int, (tv[i as int].0, JsonView::Object(sv)))
                                        =~= tv);
                                }
                            }
                            Json::Object(top)
                        },
                        other => {
                            top.insert(i, (skey, other));
                            proof {
                                lemma_entries_view(top@);
                                assert(entries_view(top@) =~= tv);
                            }
                            Json::Object(top)
                        },
                    }
                },
                None => Json::Object(top),
            }
        },
        other => other,
    }
}


proof fn lemma_set_member_well_formed(es: Entries, key: Seq<char>, v: JsonView)
    requires
        keys_distinct(es),
        members_well_formed(es),
        well_formed(v),
    ensures
        keys_distinct(set_member(es, key, v)),
        members_well_formed(set_member(es, key, v)),
{
    lemma_key_index(es, key);
    lemma_members_well_formed(es);
    let r = set_member(es, key, v);
    assert forall|p: int, q: int| 0 <= p < q < r.len() implies #[trigger] r[p].0 != #[trigger] r[q].0 by {
        if q < es.len() {
            assert(es[p].0 != es[q].0);
        } else {
            assert(es[p].0 != key);
        }
    }
    assert forall|i: int| 0 <= i < r.len() implies #[trigger] well_formed(r[i].1) by {
        if i < es.len() && r[i] == es[i] {
            assert(well_formed(es[i].1));
        }
    }
    lemma_members_well_formed(r);
}

proof fn lemma_member_well_formed(es: Entries, key: Seq<char>)
    requires
        members_well_formed(es),
        member(es, key) is Some,
    ensures
        well_formed(member(es, key)->0),
{
    lemma_key_index(es, key);
    lemma_members_well_formed(es);
    assert(well_formed(es[key_index(es, key)].1));
}

proof fn lemma_tag_client_well_formed(c: JsonView, ns: Seq<char>)
    requires
        well_formed(c),
    ensures
        well_formed(tag_client(c, ns)),
{
    if let JsonView::Object(cs) = c {
        if let Some(JsonView::Object(k)) = member(cs, "k8s"@) {
            lemma_member_well_formed(cs, "k8s"@);
            lemma_set_member_well_formed(k, "targetNamespace"@, JsonView::Text(ns));
            lemma_set_member_well_formed(
                cs,
                "k8s"@,
                JsonView::Object(set_member(k, "targetNamespace"@, JsonView::Text(ns))),
            );
        }
    }
}

proof fn lemma_tag_clients_well_formed(clients: Entries, ns: Seq<char>)
    requires
        keys_distinct(clients),
        members_well_formed(clients),
    ensures
        keys_distinct(tag_clients(clients, ns)),
        members_well_formed(tag_clients(clients, ns)),
{
    let r = tag_clients(clients, ns);
    lemma_members_well_formed(clients);
    assert forall|p: int, q: int| 0 <= p < q < r.len() implies #[trigger] r[p].0 != #[trigger] r[q].0 by {
        assert(clients[p].0 != clients[q].0);
    }
    assert forall|i: int| 0 <= i < r.len() implies #[trigger] well_formed(r[i].1) by {
        assert(well_formed(clients[i].1));
        lemma_tag_client_well_formed(clients[i].1, ns);
    }
    lemma_members_well_formed(r);
}

/// Tagging a well-formed document with a namespace keeps it well formed.
pub proof fn lemma_with_target_namespace_well_formed(doc: JsonView, ns: Seq<char>)
    requires
        well_formed(doc),
    ensures
        well_formed(with_target_namespace(doc, ns)),
{
    if let JsonView::Object(top) = doc {
        if let Some(JsonView::Object(sys)) = member(top, "systems"@) {
            lemma_member_well_formed(top, "systems"@);
            if let Some(JsonView::Object(clients)) = member(sys, "oauth2"@) {
                lemma_member_well_formed(sys, "oauth2"@);
                lemma_tag_clients_well_formed(clients, ns);
                lemma_set_member_well_formed(sys, "oauth2"@, JsonView::Object(tag_clients(clients, ns)));
                lemma_set_member_well_formed(
                    top,
                    "systems"@,
                    JsonView::Object(
                        set_member(sys, "oauth2"@, JsonView::Object(tag_clients(clients, ns))),
                    ),
                );
            }
        }
    }
}


/// After setting a member, its name holds the new value.
pub proof fn lemma_set_member_same(es: Entries, key: Seq<char>, v: JsonView)
    ensures
        member(set_member(es, key, v), key) == Some(v),
{
    lemma_key_index(es, key);
    let i = key_index(es, key);
    if i >= 0 {
        lemma_key_index_update(es, i, v, key);
    } else {
        lemma_key_index_push(es, (key, v), key);
    }
}

/// Setting a member leaves the members of other names as they were.
pub proof fn lemma_set_member_other(es: Entries, key: Seq<char>, v: JsonView, k: Seq<char>)
    requires
        k != key,
    ensures
        member(set_member(es, key, v), k) == member(es, k),
{
    lemma_key_index(es, key);
    lemma_key_index(es, k);
    let i = key_index(es, key);
    if i >= 0 {
        lemma_key_index_update(es, i, v, k);
    } else {
        lemma_key_index_push(es, (key, v), k);
    }
}

/// The members of a document's `/systems/oauth2` object, if it has one.
pub open spec fn oauth2_clients(doc: JsonView) -> Option<Entries> {
    match doc {
        JsonView::Object(top) => match member(top, "systems"@) {
            Some(JsonView::Object(sys)) => match member(sys, "oauth2"@) {
                Some(JsonView::Object(clients)) => Some(clients),
                _ => None,
            },
            _ => None,
        },
        _ => None,
    }
}

/// The members of a client's `k8s` object, if it has one.
pub open spec fn k8s_settings(client: JsonView) -> Option<Entries> {
    match client {
        JsonView::Object(c) => match member(c, "k8s"@) {
            Some(JsonView::Object(k)) => Some(k),
            _ => None,
        },
        _ => None,
    }
}

proof fn lemma_member_tag_clients(clients: Entries, ns: Seq<char>, c: Seq<char>)
    ensures
        member(tag_clients(clients, ns), c) == (match member(clients, c) {
            Some(v) => Some(tag_client(v, ns)),
            None => None,
        }),
{
    let t = tag_clients(clients, ns);
    assert forall|j: int| 0 <= j < clients.len() implies #[trigger] clients[j].0 == t[j].0 by {}
    lemma_key_index_same_keys(clients, t, c);
    lemma_key_index(clients, c);
}

/// Tagging a client: one whose `k8s` member is an object gets
/// `targetNamespace` set to `ns` there, with every other setting kept; any
/// other client is left as it is.
pub proof fn lemma_tag_client(v: JsonView, ns: Seq<char>)
    ensures
        k8s_settings(v) is None ==> tag_client(v, ns) == v,
        k8s_settings(v) is Some ==> ({
            let k = k8s_settings(v)->0;
            &&& k8s_settings(tag_client(v, ns)) is Some
            &&& member(k8s_settings(tag_client(v, ns))->0, "targetNamespace"@) == Some(JsonView::Text(ns))
            &&& forall|x: Seq<char>|
                x != "targetNamespace"@ ==> #[trigger] member(k8s_settings(tag_client(v, ns))->0, x) == member(k, x)
        }),
{
    if let Some(k) = k8s_settings(v) {
        let cs = v->Object_0;
        let k2 = set_member(k, "targetNamespace"@, JsonView::Text(ns));
        lemma_set_member_same(cs, "k8s"@, JsonView::Object(k2));
        lemma_set_member_same(k, "targetNamespace"@, JsonView::Text(ns));
        assert forall|x: Seq<char>| x != "targetNamespace"@ implies #[trigger] member(
            k8s_settings(tag_client(v, ns))->0,
            x,
        ) == member(k, x) by {
            lemma_set_member_other(k, "targetNamespace"@, JsonView::Text(ns), x);
        }
    }
}

/// Tagging reaches every client: in a document with a `/systems/oauth2`
/// object, every client there whose `k8s` member is an object gets
/// `targetNamespace` set to `ns`, keeping its other settings; every other
/// client stays as it was, and no client appears or disappears. A document
/// without such an object is left as it is.
pub proof fn lemma_tagging_reaches_every_client(doc: JsonView, ns: Seq<char>, c: Seq<char>)
    ensures
        oauth2_clients(doc) is None ==> with_target_namespace(doc, ns) == doc,
        oauth2_clients(doc) is Some ==> ({
            let before = oauth2_clients(doc)->0;
            let after = oauth2_clients(with_target_namespace(doc, ns));
            &&& after is Some
            &&& member(after->0, c) is Some == member(before, c) is Some
            &&& member(before, c) is Some && k8s_settings(member(before, c)->0) is None ==> member(after->0, c)
                == member(before, c)
            &&& member(before, c) is Some && k8s_settings(member(before, c)->0) is Some ==> ({
                let k = k8s_settings(member(before, c)->0)->0;
                let k2 = k8s_settings(member(after->0, c)->0);
                &&& k2 is Some
                &&& member(k2->0, "targetNamespace"@) == Some(JsonView::Text(ns))
                &&& forall|x: Seq<char>| x != "targetNamespace"@ ==> #[trigger] member(k2->0, x) == member(k, x)
            })
        }),
{
    if let Some(clients) = oauth2_clients(doc) {
        let top = doc->Object_0;
        let sys = member(top, "systems"@)->0->Object_0;
        let tagged = tag_clients(clients, ns);
        let sys2 = set_member(sys, "oauth2"@, JsonView::Object(tagged));
        lemma_set_member_same(sys, "oauth2"@, JsonView::Object(tagged));
        lemma_set_member_same(top, "systems"@, JsonView::Object(sys2));
        assert(oauth2_clients(with_target_namespace(doc, ns)) == Some(tagged));
        lemma_member_tag_clients(clients, ns, c);
        if let Some(v) = member(clients, c) {
            lemma_tag_client(v, ns);
        }
    }
}

} // verus!
