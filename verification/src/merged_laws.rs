use vstd::prelude::*;
use crate::json::{JsonView, parsed_json};
use crate::merged::{merged_state, source_contribution};
use crate::order::name_lt;
use crate::sources::{
    ConfigMapSource, insert_pos, is_json_key, json_texts, lookup_text, parsed_documents, sort_by_name,
    source_key, lemma_name_lt_total, lemma_sort_by_name_permutes, lemma_sort_by_name_sorted,
};

verus! {

/// No two ConfigMaps share a name.
pub open spec fn names_distinct(s: Seq<ConfigMapSource>) -> bool {
    forall|i: int, j: int| 0 <= i < j < s.len() ==> #[trigger] source_key(s[i]) != #[trigger] source_key(s[j])
}

pub open spec fn sorted_by_name(s: Seq<ConfigMapSource>) -> bool {
    forall|i: int, j: int|
        0 <= i < j < s.len() ==> !name_lt(#[trigger] source_key(s[j]), #[trigger] source_key(s[i]))
}

proof fn lemma_names_distinct_permutation(s: Seq<ConfigMapSource>, r: Seq<ConfigMapSource>)
    requires
        s.to_multiset() == r.to_multiset(),
        names_distinct(s),
    ensures
        names_distinct(r),
{
    broadcast use vstd::seq_lib::group_to_multiset_ensures;

    assert forall|i: int, j: int| 0 <= i < s.len() && 0 <= j < s.len() && i != j implies s[i] != s[j] by {
        if i < j {
            assert(source_key(s[i]) != source_key(s[j]));
        } else {
            assert(source_key(s[j]) != source_key(s[i]));
        }
    }
    s.lemma_multiset_has_no_duplicates();
    r.lemma_multiset_has_no_duplicates_conv();
    assert forall|i: int, j: int| 0 <= i < j < r.len() implies #[trigger] source_key(r[i]) != #[trigger] source_key(
        r[j],
    ) by {
        assert(r.contains(r[i]));
        assert(r.contains(r[j]));
        assert(r.to_multiset().count(r[i]) > 0);
        assert(r.to_multiset().count(r[j]) > 0);
        assert(s.to_multiset().count(r[i]) > 0);
        assert(s.to_multiset().count(r[j]) > 0);
        assert(s.contains(r[i]));
        assert(s.contains(r[j]));
        let p = choose|p: int| 0 <= p < s.len() && s[p] == r[i];
        let q = choose|q: int| 0 <= q < s.len() && s[q] == r[j];
        assert(r[i] != r[j]);
        if p < q {
            assert(source_key(s[p]) != source_key(s[q]));
        } else {
            assert(source_key(s[q]) != source_key(s[p]));
        }
    }
}

proof fn lemma_sorted_unique(s: Seq<ConfigMapSource>, t: Seq<ConfigMapSource>)
    requires
        sorted_by_name(s),
        sorted_by_name(t),
        s.to_multiset() == t.to_multiset(),
        names_distinct(s),
    ensures
        s == t,
    decreases s.len(),
{
    broadcast use vstd::seq_lib::group_to_multiset_ensures;

    assert(s.len() == s.to_multiset().len());
    assert(t.len() == t.to_multiset().len());
    if s.len() == 0 {
        assert(s =~= t);
    } else {
        let n = s.len() - 1;
        let x = s.last();
        let y = t.last();
        assert(t.contains(y));
        assert(t.to_multiset().count(y) > 0);
        assert(s.to_multiset().count(y) > 0);
        assert(s.contains(y));
        assert(s.contains(x));
        assert(s.to_multiset().count(x) > 0);
        assert(t.to_multiset().count(x) > 0);
        assert(t.contains(x));
        let i = choose|i: int| 0 <= i < s.len() && s[i] == y;
        let j = choose|j: int| 0 <= j < t.len() && t[j] == x;
        if i < n && j < n {
            assert(!name_lt(source_key(s[n]), source_key(s[i])));
            assert(!name_lt(source_key(t[n]), source_key(t[j])));
            lemma_name_lt_total(source_key(x), source_key(y));
            assert(source_key(s[i]) != source_key(s[n]));
        }
        assert(x == y);
        assert(s.remove(n) =~= s.drop_last());
        assert(t.remove(n) =~= t.drop_last());
        assert(s.drop_last().to_multiset() == s.to_multiset().remove(x));
        assert(t.drop_last().to_multiset() == t.to_multiset().remove(y));
        lemma_sorted_unique(s.drop_last(), t.drop_last());
        assert(s =~= t.drop_last().push(x));
        assert(t =~= t.drop_last().push(y));
    }
}

/// The merged state does not depend on the order in which the ConfigMaps
/// are listed, as long as no two of them share a name.
pub proof fn lemma_listing_order_irrelevant(s1: Seq<ConfigMapSource>, s2: Seq<ConfigMapSource>, ns: Seq<char>)
    requires
        s1.to_multiset() == s2.to_multiset(),
        names_distinct(s1),
    ensures
        merged_state(s1, ns) == merged_state(s2, ns),
{
    let r1 = sort_by_name(s1);
    let r2 = sort_by_name(s2);
    lemma_sort_by_name_permutes(s1);
    lemma_sort_by_name_permutes(s2);
    lemma_sort_by_name_sorted(s1);
    lemma_sort_by_name_sorted(s2);
    lemma_names_distinct_permutation(s1, r1);
    lemma_sorted_unique(r1, r2);
}

/// A data entry that contributes nothing: a key that neither names a JSON
/// document nor is `targetNamespace`, or a JSON document that does not
/// parse.
pub open spec fn ignored_entry(e: (String, String)) -> bool {
    ||| !is_json_key(e.0@) && e.0@ != "targetNamespace"@
    ||| is_json_key(e.0@) && parsed_json(e.1@) is None
}

proof fn lemma_json_texts_concat(a: Seq<(String, String)>, b: Seq<(String, String)>)
    ensures
        json_texts(a + b) == json_texts(a) + json_texts(b),
    decreases b.len(),
{
    if b.len() == 0 {
        assert(a + b =~= a);
        assert(json_texts(a) + json_texts(b) =~= json_texts(a));
    } else {
        lemma_json_texts_concat(a, b.drop_last());
        assert((a + b).drop_last() =~= a + b.drop_last());
        assert((a + b).last() == b.last());
        let r = json_texts(a) + json_texts(b.drop_last());
        assert(r.push(b.last().1@) =~= json_texts(a) + json_texts(b.drop_last()).push(b.last().1@));
    }
}

proof fn lemma_parsed_documents_concat(x: Seq<Seq<char>>, y: Seq<Seq<char>>)
    ensures
        parsed_documents(x + y) == parsed_documents(x) + parsed_documents(y),
    decreases y.len(),
{
    if y.len() == 0 {
        assert(x + y =~= x);
        assert(parsed_documents(x) + parsed_documents(y) =~= parsed_documents(x));
    } else {
        lemma_parsed_documents_concat(x, y.drop_last());
        assert((x + y).drop_last() =~= x + y.drop_last());
        assert((x + y).last() == y.last());
        if let Some(d) = parsed_json(y.last()) {
            assert((parsed_documents(x) + parsed_documents(y.drop_last())).push(d) =~= parsed_documents(x)
                + parsed_documents(y.drop_last()).push(d));
        }
    }
}

proof fn lemma_lookup_text_concat(a: Seq<(String, String)>, b: Seq<(String, String)>, k: Seq<char>)
    ensures
        lookup_text(a + b, k) == (match lookup_text(a, k) {
            Some(v) => Some(v),
            None => lookup_text(b, k),
        }),
    decreases b.len(),
{
    if b.len() == 0 {
        assert(a + b =~= a);
    } else {
        lemma_lookup_text_concat(a, b.drop_last(), k);
        assert((a + b).drop_last() =~= a + b.drop_last());
        assert((a + b).last() == b.last());
    }
}

/// An ignored entry on its own yields no document and no target namespace.
proof fn lemma_ignored_single(e: (String, String))
    requires
        ignored_entry(e),
    ensures
        parsed_documents(json_texts(seq![e])) == Seq::<JsonView>::empty(),
        lookup_text(seq![e], "targetNamespace"@) is None,
{
    let tn = "targetNamespace"@;
    let one = seq![e];
    assert(one.drop_last() =~= Seq::<(String, String)>::empty());
    assert(one.last() == e);
    assert(json_texts(one.drop_last()) == Seq::<Seq<char>>::empty());
    if is_json_key(e.0@) {
        let t = seq![e.1@];
        assert(json_texts(one) =~= t);
        assert(t.drop_last() =~= Seq::<Seq<char>>::empty());
        assert(t.last() == e.1@);
        assert(parsed_documents(t.drop_last()) == Seq::<JsonView>::empty());
        assert(parsed_documents(t) =~= Seq::<JsonView>::empty());
        reveal_strlit("targetNamespace");
        if e.0@ == tn {
            assert(e.0@.skip(e.0@.len() - 5)[0] == 's');
        }
    } else {
        assert(json_texts(one) =~= Seq::<Seq<char>>::empty());
    }
    assert(e.0@ != tn);
    assert(lookup_text(one.drop_last(), tn) is None);
}

/// `d2` is `d1` with ignored entries added anywhere: `d1` stays in order
/// inside `d2`, and every other entry of `d2` is ignored.
pub open spec fn extended_by_ignored(d1: Seq<(String, String)>, d2: Seq<(String, String)>) -> bool
    decreases d2.len(),
{
    if d2.len() == 0 {
        d1.len() == 0
    } else {
        ||| (d1.len() > 0 && d1.last() == d2.last() && extended_by_ignored(d1.drop_last(), d2.drop_last()))
        ||| (ignored_entry(d2.last()) && extended_by_ignored(d1, d2.drop_last()))
    }
}

/// The entries of optional data: none when there is no data.
pub open spec fn data_entries(data: Option<Vec<(String, String)>>) -> Seq<(String, String)> {
    match data {
        Some(d) => d@,
        None => Seq::empty(),
    }
}

/// Every list of entries is extended by itself.
pub proof fn lemma_extended_by_ignored_refl(d: Seq<(String, String)>)
    ensures
        extended_by_ignored(d, d),
    decreases d.len(),
{
    if d.len() > 0 {
        lemma_extended_by_ignored_refl(d.drop_last());
    }
}

/// Adding ignored entries to a ConfigMap's data changes neither its
/// documents nor its target namespace.
pub proof fn lemma_extended_data(d1: Seq<(String, String)>, d2: Seq<(String, String)>)
    requires
        extended_by_ignored(d1, d2),
    ensures
        parsed_documents(json_texts(d2)) == parsed_documents(json_texts(d1)),
        lookup_text(d2, "targetNamespace"@) == lookup_text(d1, "targetNamespace"@),
    decreases d2.len(),
{
    let tn = "targetNamespace"@;
    if d2.len() > 0 {
        let e = d2.last();
        let p2 = d2.drop_last();
        assert(d2 =~= p2 + seq![e]);
        lemma_json_texts_concat(p2, seq![e]);
        lemma_parsed_documents_concat(json_texts(p2), json_texts(seq![e]));
        lemma_lookup_text_concat(p2, seq![e], tn);
        if d1.len() > 0 && d1.last() == e && extended_by_ignored(d1.drop_last(), p2) {
            let p1 = d1.drop_last();
            lemma_extended_data(p1, p2);
            assert(d1 =~= p1 + seq![e]);
            lemma_json_texts_concat(p1, seq![e]);
            lemma_parsed_documents_concat(json_texts(p1), json_texts(seq![e]));
            lemma_lookup_text_concat(p1, seq![e], tn);
        } else {
            lemma_extended_data(d1, p2);
            lemma_ignored_single(e);
            assert(parsed_documents(json_texts(p2)) + Seq::<JsonView>::empty() =~= parsed_documents(
                json_texts(p2),
            ));
        }
    }
}

proof fn lemma_insert_pos_same_keys(
    t1: Seq<ConfigMapSource>,
    t2: Seq<ConfigMapSource>,
    x1: ConfigMapSource,
    x2: ConfigMapSource,
)
    requires
        t1.len() == t2.len(),
        forall|j: int| 0 <= j < t1.len() ==> #[trigger] source_key(t1[j]) == source_key(t2[j]),
        source_key(x1) == source_key(x2),
    ensures
        insert_pos(t1, x1) == insert_pos(t2, x2),
    decreases t1.len(),
{
    if t1.len() > 0 {
        assert(source_key(t1[t1.len() - 1]) == source_key(t2[t2.len() - 1]));
        assert forall|j: int| 0 <= j < t1.drop_last().len() implies #[trigger] source_key(t1.drop_last()[j])
            == source_key(t2.drop_last()[j]) by {
            assert(source_key(t1[j]) == source_key(t2[j]));
        }
        lemma_insert_pos_same_keys(t1.drop_last(), t2.drop_last(), x1, x2);
    }
}

/// Sorting two lists of ConfigMaps that agree, place by place, on names and
/// contributions gives lists that agree in the same way.
proof fn lemma_sort_same_contributions(s1: Seq<ConfigMapSource>, s2: Seq<ConfigMapSource>, ns: Seq<char>)
    requires
        s1.len() == s2.len(),
        forall|j: int|
            0 <= j < s1.len() ==> #[trigger] source_key(s1[j]) == source_key(s2[j]) && source_contribution(
                s1[j],
                ns,
            ) == source_contribution(s2[j], ns),
    ensures
        sort_by_name(s1).len() == sort_by_name(s2).len(),
        forall|j: int|
            0 <= j < sort_by_name(s1).len() ==> #[trigger] source_key(sort_by_name(s1)[j]) == source_key(
                sort_by_name(s2)[j],
            ) && source_contribution(sort_by_name(s1)[j], ns) == source_contribution(
                sort_by_name(s2)[j],
                ns,
            ),
    decreases s1.len(),
{
    if s1.len() > 0 {
        let n = s1.len() - 1;
        assert forall|j: int| 0 <= j < s1.drop_last().len() implies #[trigger] source_key(s1.drop_last()[j])
            == source_key(s2.drop_last()[j]) && source_contribution(s1.drop_last()[j], ns)
            == source_contribution(s2.drop_last()[j], ns) by {
            assert(source_key(s1[j]) == source_key(s2[j]));
        }
        lemma_sort_same_contributions(s1.drop_last(), s2.drop_last(), ns);
        let t1 = sort_by_name(s1.drop_last());
        let t2 = sort_by_name(s2.drop_last());
        let x1 = s1.last();
        let x2 = s2.last();
        assert(source_key(s1[n]) == source_key(s2[n]));
        assert forall|j: int| 0 <= j < t1.len() implies #[trigger] source_key(t1[j]) == source_key(t2[j]) by {}
        lemma_insert_pos_same_keys(t1, t2, x1, x2);
        let p = insert_pos(t1, x1);
        crate::sources::lemma_insert_pos_bounds(t1, x1);
        t1.insert_ensures(p, x1);
        t2.insert_ensures(p, x2);
        let r1 = t1.insert(p, x1);
        let r2 = t2.insert(p, x2);
        assert forall|j: int| 0 <= j < r1.len() implies #[trigger] source_key(r1[j]) == source_key(r2[j])
            && source_contribution(r1[j], ns) == source_contribution(r2[j], ns) by {
            if j < p {
                assert(source_key(t1[j]) == source_key(t2[j]));
            } else if j > p {
                assert(source_key(t1[j - 1]) == source_key(t2[j - 1]));
            }
        }
    }
}

/// Adding to the ConfigMaps' data any number of entries that contribute
/// nothing (keys that are neither `.json` documents nor `targetNamespace`,
/// or `.json` documents that do not parse), also to a ConfigMap that had
/// no data, leaves the merged state unchanged.
pub proof fn lemma_ignored_entries_irrelevant(s1: Seq<ConfigMapSource>, s2: Seq<ConfigMapSource>, ns: Seq<char>)
    requires
        s2.len() == s1.len(),
        forall|j: int|
            0 <= j < s1.len() ==> #[trigger] s2[j].name_view() == s1[j].name_view() && extended_by_ignored(
                data_entries(s1[j].data_view()),
                data_entries(s2[j].data_view()),
            ),
    ensures
        merged_state(s1, ns) == merged_state(s2, ns),
{
    assert forall|j: int| 0 <= j < s1.len() implies #[trigger] source_key(s1[j]) == source_key(s2[j])
        && source_contribution(s1[j], ns) == source_contribution(s2[j], ns) by {
        assert(s2[j].name_view() == s1[j].name_view());
        lemma_extended_data(data_entries(s1[j].data_view()), data_entries(s2[j].data_view()));
        assert(json_texts(Seq::<(String, String)>::empty()) == Seq::<Seq<char>>::empty());
        assert(lookup_text(Seq::<(String, String)>::empty(), "targetNamespace"@) is None);
    }
    lemma_sort_same_contributions(s1, s2, ns);
    let f = |c: ConfigMapSource| source_contribution(c, ns);
    let r1 = sort_by_name(s1);
    let r2 = sort_by_name(s2);
    assert forall|j: int| 0 <= j < r1.len() implies #[trigger] r1.map_values(f)[j] == r2.map_values(f)[j] by {
        assert(source_key(r1[j]) == source_key(r2[j]));
    }
    assert(r1.map_values(f) =~= r2.map_values(f));
}

} // verus!
