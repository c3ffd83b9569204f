use vstd::prelude::*;
use crate::documents::{
    inject_target_namespace, with_target_namespace, lemma_with_target_namespace_well_formed,
};
use crate::json::{
    Json, JsonView, deep_merge, entries_view, items_view, json_view, merge, well_formed,
    lemma_entries_view, lemma_items_view,
};
use crate::json_laws::lemma_merge_well_formed;
use crate::sources::{
    ConfigMapSource, data_json_texts, extract_json_from_cm, parsed_documents, sort_by_name,
    sort_sources, target_namespace, target_namespace_of,
};

verus! {

/// The document that merging starts from: empty groups, persons and
/// OAuth2 systems.
pub open spec fn empty_state() -> JsonView {
    JsonView::Object(
        seq![
            ("groups"@, JsonView::Object(Seq::empty())),
            ("persons"@, JsonView::Object(Seq::empty())),
            ("systems"@, JsonView::Object(seq![("oauth2"@, JsonView::Object(Seq::empty()))])),
        ],
    )
}

/// Merges a ConfigMap's documents, in order, each tagged with the
/// ConfigMap's target namespace.
pub open spec fn merge_documents(acc: JsonView, docs: Seq<JsonView>, ns: Seq<char>) -> JsonView
    decreases docs.len(),
{
    if docs.len() == 0 {
        acc
    } else {
        merge(merge_documents(acc, docs.drop_last(), ns), with_target_namespace(docs.last(), ns))
    }
}

/// What one ConfigMap brings: its documents and their target namespace.
pub open spec fn source_contribution(src: ConfigMapSource, ns: Seq<char>) -> (Seq<JsonView>, Seq<char>) {
    (parsed_documents(data_json_texts(src.data_view())), target_namespace_of(src.data_view(), ns))
}

/// Merges the contributions of ConfigMaps, one after the other.
pub open spec fn merge_contributions(acc: JsonView, cs: Seq<(Seq<JsonView>, Seq<char>)>) -> JsonView
    decreases cs.len(),
{
    if cs.len() == 0 {
        acc
    } else {
        merge_documents(merge_contributions(acc, cs.drop_last()), cs.last().0, cs.last().1)
    }
}

/// The merged provisioning state: the contributions of the ConfigMaps,
/// taken in order of their names, merged over the empty state.
pub open spec fn merged_state(srcs: Seq<ConfigMapSource>, ns: Seq<char>) -> JsonView {
    merge_contributions(
        empty_state(),
        sort_by_name(srcs).map_values(|c: ConfigMapSource| source_contribution(c, ns)),
    )
}

/// The contributions of ConfigMaps whose documents were parsed already.
pub open spec fn parsed_contributions(
    srcs: Seq<ConfigMapSource>,
    docs: Seq<Vec<Json>>,
    ns: Seq<char>,
) -> Seq<(Seq<JsonView>, Seq<char>)> {
    Seq::new(srcs.len(), |i: int| (items_view(docs[i]@), target_namespace_of(srcs[i].data_view(), ns)))
}

/// Builds the document that merging starts from.
pub fn empty_state_document() -> (r: Json)
    ensures
        r@ == empty_state(),
{
    let mut oauth2: Vec<(String, Json)> = Vec::new();
    oauth2.push((String::from_str("oauth2"), Json::Object(Vec::new())));
    let mut top: Vec<(String, Json)> = Vec::new();
    top.push((String::from_str("groups"), Json::Object(Vec::new())));
    top.push((String::from_str("persons"), Json::Object(Vec::new())));
    let ghost ov = oauth2@;
    top.push((String::from_str("systems"), Json::Object(oauth2)));
    proof {
        lemma_entries_view(top@);
        lemma_entries_view(ov);
        lemma_entries_view(Seq::<(String, Json)>::empty());
        assert(entries_view(ov) =~= seq![("oauth2"@, JsonView::Object(Seq::empty()))]);
        assert(entries_view(top@) =~= seq![
            ("groups"@, JsonView::Object(Seq::empty())),
            ("persons"@, JsonView::Object(Seq::empty())),
            ("systems"@, JsonView::Object(seq![("oauth2"@, JsonView::Object(Seq::empty()))])),
        ]);
    }
    Json::Object(top)
}

/// Merges the documents of one ConfigMap into `merged`.
fn merge_source_documents(merged: &mut Json, docs: Vec<Json>, ns: &String)
    ensures
        final(merged)@ == merge_documents(old(merged)@, items_view(docs@), ns@),
{
    let ghost start = merged@;
    let ghost orig = items_view(docs@);
    proof {
        lemma_items_view(docs@);
    }
    let mut rest = docs;
    let ghost mut n: int = 0;
    while rest.len() > 0
        invariant
            0 <= n <= orig.len(),
            rest.len() == orig.len() - n,
            forall|j: int| 0 <= j < rest.len() ==> json_view(#[trigger] rest@[j]) == orig[n + j],
            merged@ == merge_documents(start, orig.take(n), ns@),
        decreases rest.len(),
    {
        assert(json_view(rest@[0]) == orig[n]);
        let ghost old_rest = rest@;
        let doc = rest.remove(0);
        let tagged = inject_target_namespace(doc, ns);
        deep_merge(merged, tagged);
        proof {
            assert forall|j: int| 0 <= j < rest.len() implies json_view(#[trigger] rest@[j]) == orig[n + 1 + j] by {
                assert(rest@[j] == old_rest[j + 1]);
            }
            assert(orig.take(n + 1).drop_last() =~= orig.take(n));
            assert(orig.take(n + 1).last() == orig[n]);
            n = n + 1;
        }
    }
    proof {
        assert(orig.take(n) =~= orig);
    }
}

/// Every parsed document is well formed.
pub open spec fn documents_well_formed(docs: Seq<Vec<Json>>) -> bool {
    forall|i: int, j: int|
        0 <= i < docs.len() && 0 <= j < docs[i]@.len() ==> #[trigger] well_formed(json_view(docs[i]@[j]))
}

/// Merges already parsed documents: `documents[i]` are the documents of
/// `sources[i]`, merged in the order given, each tagged with its source's
/// target namespace, over the empty state.
pub fn merge_parsed_config_maps(
    sources: &Vec<ConfigMapSource>,
    documents: Vec<Vec<Json>>,
    namespace: &String,
) -> (r: Json)
    requires
        documents.len() == sources.len(),
    ensures
        r@ == merge_contributions(empty_state(), parsed_contributions(sources@, documents@, namespace@)),
        documents_well_formed(documents@) ==> well_formed(r@),
{
    let ghost cs = parsed_contributions(sources@, documents@, namespace@);
    let ghost all_docs = documents@;
    let mut merged = empty_state_document();
    let mut rest = documents;
    let mut i: usize = 0;
    proof {
        assert(cs.take(0).len() == 0);
        lemma_empty_state_well_formed();
    }
    while i < sources.len()
        invariant
            i <= sources.len(),
            sources.len() == all_docs.len(),
            rest.len() == all_docs.len() - i,
            forall|j: int| 0 <= j < rest.len() ==> #[trigger] rest@[j] == all_docs[i + j],
            cs == parsed_contributions(sources@, all_docs, namespace@),
            merged@ == merge_contributions(empty_state(), cs.take(i as int)),
            documents_well_formed(all_docs) ==> well_formed(merged@),
        decreases sources.len() - i,
    {
        assert(rest@[0] == all_docs[i as int]);
        let ghost old_rest = rest@;
        let ghost before = merged@;
        let docs = rest.remove(0);
        let ns = target_namespace(sources[i].data(), namespace);
        proof {
            lemma_items_view(docs@);
            if documents_well_formed(all_docs) {
                assert forall|j: int| 0 <= j < items_view(docs@).len() implies #[trigger] well_formed(
                    items_view(docs@)[j],
                ) by {
                    assert(well_formed(json_view(all_docs[i as int]@[j])));
                }
                lemma_merge_documents_well_formed(before, items_view(docs@), ns@);
            }
        }
        merge_source_documents(&mut merged, docs, &ns);
        proof {
            assert forall|j: int| 0 <= j < rest.len() implies #[trigger] rest@[j] == all_docs[i + 1 + j] by {
                assert(rest@[j] == old_rest[j + 1]);
            }
            assert(cs.take(i + 1).drop_last() =~= cs.take(i as int));
            assert(cs.take(i + 1).last() == cs[i as int]);
        }
        i += 1;
    }
    proof {
        assert(cs.take(i as int) =~= cs);
    }
    merged
}

/// Merges the provisioning documents of the ConfigMaps: the ConfigMaps in
/// order of their names, each one's JSON entries that parse, in key order,
/// each tagged with the ConfigMap's target namespace and deep-merged over
/// what came before, starting from the empty state. The result names each
/// member of an object once.
pub fn merge_config_maps(sources: Vec<ConfigMapSource>, namespace: &String) -> (r: Json)
    ensures
        r@ == merged_state(sources@, namespace@),
        well_formed(r@),
{
    let sorted = sort_sources(sources);
    let mut documents: Vec<Vec<Json>> = Vec::new();
    let mut i: usize = 0;
    while i < sorted.len()
        invariant
            i <= sorted.len(),
            documents.len() == i,
            forall|j: int|
                0 <= j < i ==> #[trigger] items_view(documents@[j]@) == parsed_documents(
                    data_json_texts(sorted@[j].data_view()),
                ),
            documents_well_formed(documents@),
        decreases sorted.len() - i,
    {
        let docs = extract_json_from_cm(sorted[i].data());
        let ghost before = documents@;
        documents.push(docs);
        proof {
            assert forall|a: int, b: int|
                0 <= a < documents@.len() && 0 <= b < documents@[a]@.len() implies #[trigger] well_formed(
                json_view(documents@[a]@[b]),
            ) by {
                if a < i {
                    assert(documents@[a] == before[a]);
                }
            }
            assert forall|j: int| 0 <= j < i + 1 implies #[trigger] items_view(documents@[j]@)
                == parsed_documents(data_json_texts(sorted@[j].data_view())) by {
                if j < i {
                    assert(documents@[j] == before[j]);
                }
            }
        }
        i += 1;
    }
    let ghost docs_v = documents@;
    let r = merge_parsed_config_maps(&sorted, documents, namespace);
    proof {
        assert(parsed_contributions(sorted@, docs_v, namespace@) =~= sorted@.map_values(
            |c: ConfigMapSource| source_contribution(c, namespace@),
        ));
    }
    r
}

proof fn lemma_merge_documents_well_formed(acc: JsonView, docs: Seq<JsonView>, ns: Seq<char>)
    requires
        well_formed(acc),
        forall|i: int| 0 <= i < docs.len() ==> #[trigger] well_formed(docs[i]),
    ensures
        well_formed(merge_documents(acc, docs, ns)),
    decreases docs.len(),
{
    if docs.len() > 0 {
        lemma_merge_documents_well_formed(acc, docs.drop_last(), ns);
        assert(well_formed(docs[docs.len() - 1]));
        lemma_with_target_namespace_well_formed(docs.last(), ns);
        lemma_merge_well_formed(
            merge_documents(acc, docs.drop_last(), ns),
            with_target_namespace(docs.last(), ns),
        );
    }
}

proof fn lemma_empty_state_well_formed()
    ensures
        well_formed(empty_state()),
{
    let e = Seq::<(Seq<char>, JsonView)>::empty();
    let sys = seq![("oauth2"@, JsonView::Object(e))];
    let top = seq![
        ("groups"@, JsonView::Object(e)),
        ("persons"@, JsonView::Object(e)),
        ("systems"@, JsonView::Object(sys)),
    ];
    reveal_strlit("groups");
    reveal_strlit("persons");
    reveal_strlit("systems");
    assert("groups"@.len() != "persons"@.len());
    assert("groups"@.len() != "systems"@.len());
    assert("persons"@[0] != "systems"@[0]);
    crate::json::lemma_members_well_formed(sys);
    crate::json::lemma_members_well_formed(top);
    assert(well_formed(JsonView::Object(e)));
}


/// Merging no documents leaves the state as it is.
pub proof fn lemma_merge_documents_none(acc: JsonView, ns: Seq<char>)
    ensures
        merge_documents(acc, Seq::empty(), ns) == acc,
{
}

/// Merging one document deep-merges it, tagged with the namespace, over the
/// state.
pub proof fn lemma_merge_documents_one(acc: JsonView, d: JsonView, ns: Seq<char>)
    ensures
        merge_documents(acc, seq![d], ns) == merge(acc, with_target_namespace(d, ns)),
{
    assert(seq![d].drop_last() =~= Seq::<JsonView>::empty());
    assert(merge_documents(acc, seq![d].drop_last(), ns) == acc);
    assert(seq![d].last() == d);
}

/// Merging the documents `a + b` is merging `a`, then merging `b` over the
/// result: every document is merged, in order.
pub proof fn lemma_merge_documents_append(acc: JsonView, a: Seq<JsonView>, b: Seq<JsonView>, ns: Seq<char>)
    ensures
        merge_documents(acc, a + b, ns) == merge_documents(merge_documents(acc, a, ns), b, ns),
    decreases b.len(),
{
    if b.len() == 0 {
        assert(a + b =~= a);
    } else {
        lemma_merge_documents_append(acc, a, b.drop_last(), ns);
        assert((a + b).drop_last() =~= a + b.drop_last());
        assert((a + b).last() == b.last());
    }
}

/// Merging the contributions `a + b` is merging `a`, then `b` over the
/// result: every ConfigMap is merged, in order.
pub proof fn lemma_merge_contributions_append(
    acc: JsonView,
    a: Seq<(Seq<JsonView>, Seq<char>)>,
    b: Seq<(Seq<JsonView>, Seq<char>)>,
)
    ensures
        merge_contributions(acc, a + b) == merge_contributions(merge_contributions(acc, a), b),
    decreases b.len(),
{
    if b.len() == 0 {
        assert(a + b =~= a);
    } else {
        lemma_merge_contributions_append(acc, a, b.drop_last());
        assert((a + b).drop_last() =~= a + b.drop_last());
        assert((a + b).last() == b.last());
    }
}

/// One ConfigMap's contribution merges its documents, in order, each tagged
/// with its target namespace.
pub proof fn lemma_merge_contributions_one(acc: JsonView, docs: Seq<JsonView>, ns: Seq<char>)
    ensures
        merge_contributions(acc, seq![(docs, ns)]) == merge_documents(acc, docs, ns),
{
    let one = seq![(docs, ns)];
    assert(one.drop_last() =~= Seq::<(Seq<JsonView>, Seq<char>)>::empty());
    assert(merge_contributions(acc, one.drop_last()) == acc);
    assert(one.last() == (docs, ns));
}

} // verus!
