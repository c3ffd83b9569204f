use vstd::prelude::*;
use crate::json::{Json, JsonView, items_view, json_view, parse_json, parsed_json, well_formed};
use crate::order::{
    name_less, name_lt, opt_text, text_less, text_lt, lemma_text_lt_irreflexive, lemma_text_lt_total,
    lemma_text_lt_transitive,
};

verus! {

/// One ConfigMap that carries provisioning documents: its name and its
/// data entries, in strictly increasing key order as in a map.
#[derive(Debug, PartialEq)]
pub struct ConfigMapSource {
    pub(crate) name: Option<String>,
    pub(crate) data: Option<Vec<(String, String)>>,
}

/// The keys increase strictly, in the order of `str`: the entries of a
/// map, in key order, each key once.
pub open spec fn keys_in_order(d: Seq<(String, String)>) -> bool {
    forall|i: int, j: int| 0 <= i < j < d.len() ==> text_lt(#[trigger] d[i].0@, #[trigger] d[j].0@)
}

pub open spec fn data_in_order(data: Option<Vec<(String, String)>>) -> bool {
    match data {
        Some(d) => keys_in_order(d@),
        None => true,
    }
}

impl ConfigMapSource {
    /// The data of every ConfigMap is in key order.
    #[verifier::type_invariant]
    spec fn data_sorted(self) -> bool {
        data_in_order(self.data)
    }

    /// The name of the ConfigMap.
    pub closed spec fn name_view(self) -> Option<String> {
        self.name
    }

    /// The data entries of the ConfigMap.
    pub closed spec fn data_view(self) -> Option<Vec<(String, String)>> {
        self.data
    }

    /// A ConfigMap with the given name and data; `None` when the data keys
    /// are not in strictly increasing order.
    pub fn new(name: Option<String>, data: Option<Vec<(String, String)>>) -> (r: Option<ConfigMapSource>)
        ensures
            r is Some <==> data_in_order(data),
            r matches Some(c) ==> c.name_view() == name && c.data_view() == data,
    {
        let ordered = match &data {
            Some(d) => entries_in_order(d),
            None => true,
        };
        if ordered {
            Some(ConfigMapSource { name, data })
        } else {
            None
        }
    }

    pub fn name(&self) -> (r: &Option<String>)
        ensures
            *r == self.name_view(),
    {
        &self.name
    }

    pub fn data(&self) -> (r: &Option<Vec<(String, String)>>)
        ensures
            *r == self.data_view(),
    {
        &self.data
    }
}

/// Whether the keys of the entries increase strictly.
fn entries_in_order(d: &Vec<(String, String)>) -> (r: bool)
    ensures
        r == keys_in_order(d@),
{
    if d.len() < 2 {
        return true;
    }
    let mut i: usize = 1;
    while i < d.len()
        invariant
            1 <= i <= d.len(),
            keys_in_order(d@.take(i as int)),
        decreases d.len() - i,
    {
        if !text_less(&d[i - 1].0, &d[i].0) {
            proof {
                assert(!text_lt(d@[i - 1].0@, d@[i as int].0@));
            }
            return false;
        }
        proof {
            assert forall|a: int, b: int| 0 <= a < b < i + 1 implies text_lt(
                #[trigger] d@.take(i + 1)[a].0@,
                #[trigger] d@.take(i + 1)[b].0@,
            ) by {
                if b < i {
                    assert(d@.take(i as int)[a] == d@[a] && d@.take(i as int)[b] == d@[b]);
                } else if a < i - 1 {
                    assert(d@.take(i as int)[a] == d@[a] && d@.take(i as int)[i - 1] == d@[i - 1]);
                    lemma_text_lt_transitive(d@[a].0@, d@[i - 1].0@, d@[i as int].0@);
                }
            }
        }
        i += 1;
    }
    proof {
        assert(d@.take(i as int) =~= d@);
    }
    true
}

pub open spec fn source_key(s: ConfigMapSource) -> Option<Seq<char>> {
    opt_text(s.name_view())
}

/// Where a source goes among sources already sorted: after every source
/// whose name is not greater than its own.
pub open spec fn insert_pos(s: Seq<ConfigMapSource>, x: ConfigMapSource) -> int
    decreases s.len(),
{
    if s.len() == 0 {
        0
    } else if name_lt(source_key(x), source_key(s.last())) {
        insert_pos(s.drop_last(), x)
    } else {
        s.len() as int
    }
}

/// The sources in order of their names; sources of the same name keep
/// their relative order.
pub open spec fn sort_by_name(s: Seq<ConfigMapSource>) -> Seq<ConfigMapSource>
    decreases s.len(),
{
    if s.len() == 0 {
        s
    } else {
        let t = sort_by_name(s.drop_last());
        t.insert(insert_pos(t, s.last()), s.last())
    }
}

pub proof fn lemma_name_lt_irreflexive(a: Option<Seq<char>>)
    ensures
        !name_lt(a, a),
{
    if let Some(x) = a {
        lemma_text_lt_irreflexive(x);
    }
}

pub proof fn lemma_name_lt_transitive(a: Option<Seq<char>>, b: Option<Seq<char>>, c: Option<Seq<char>>)
    requires
        name_lt(a, b),
        name_lt(b, c),
    ensures
        name_lt(a, c),
{
    if a is Some {
        lemma_text_lt_transitive(a->0, b->0, c->0);
    }
}

pub proof fn lemma_name_lt_total(a: Option<Seq<char>>, b: Option<Seq<char>>)
    ensures
        a == b || name_lt(a, b) || name_lt(b, a),
{
    if a is Some && b is Some {
        lemma_text_lt_total(a->0, b->0);
    }
}

/// Not greater-than is transitive.
proof fn lemma_name_le_transitive(a: Option<Seq<char>>, b: Option<Seq<char>>, c: Option<Seq<char>>)
    requires
        !name_lt(b, a),
        !name_lt(c, b),
    ensures
        !name_lt(c, a),
{
    lemma_name_lt_total(a, b);
    if name_lt(c, a) {
        if a != b {
            lemma_name_lt_transitive(c, a, b);
        }
    }
}

proof fn lemma_insert_pos(s: Seq<ConfigMapSource>, x: ConfigMapSource)
    ensures
        0 <= insert_pos(s, x) <= s.len(),
        forall|m: int|
            insert_pos(s, x) <= m < s.len() ==> name_lt(source_key(x), #[trigger] source_key(s[m])),
        insert_pos(s, x) == 0 || !name_lt(source_key(x), source_key(s[insert_pos(s, x) - 1])),
    decreases s.len(),
{
    if s.len() > 0 {
        lemma_insert_pos(s.drop_last(), x);
        assert forall|m: int|
            insert_pos(s, x) <= m < s.len() implies name_lt(source_key(x), #[trigger] source_key(s[m])) by {
            if m < s.len() - 1 {
                assert(s.drop_last()[m] == s[m]);
            }
        }
    }
}

proof fn lemma_insert_pos_prefix(s: Seq<ConfigMapSource>, x: ConfigMapSource, j: int)
    requires
        0 <= j <= s.len(),
        forall|m: int| j <= m < s.len() ==> name_lt(source_key(x), #[trigger] source_key(s[m])),
    ensures
        insert_pos(s, x) == insert_pos(s.take(j), x),
    decreases s.len(),
{
    if j == s.len() {
        assert(s.take(j) =~= s);
    } else {
        assert(source_key(s[s.len() - 1]) == source_key(s.last()));
        assert(s.drop_last().take(j) =~= s.take(j));
        assert forall|m: int| j <= m < s.drop_last().len() implies name_lt(
            source_key(x),
            #[trigger] source_key(s.drop_last()[m]),
        ) by {
            assert(s.drop_last()[m] == s[m]);
        }
        lemma_insert_pos_prefix(s.drop_last(), x, j);
    }
}

/// Where a source goes lies within the list.
pub proof fn lemma_insert_pos_bounds(s: Seq<ConfigMapSource>, x: ConfigMapSource)
    ensures
        0 <= insert_pos(s, x) <= s.len(),
{
    lemma_insert_pos(s, x);
}

/// Sorts the sources by name, keeping sources of the same name in order.
pub fn sort_sources(sources: Vec<ConfigMapSource>) -> (r: Vec<ConfigMapSource>)
    ensures
        r@ == sort_by_name(sources@),
{
    let ghost orig = sources@;
    let mut rest = sources;
    let mut out: Vec<ConfigMapSource> = Vec::new();
    let ghost mut n: int = 0;
    proof {
        assert(orig.skip(0) =~= orig);
        assert(orig.take(0).len() == 0);
    }
    while rest.len() > 0
        invariant
            0 <= n <= orig.len(),
            rest@ == orig.skip(n),
            out@ == sort_by_name(orig.take(n)),
        decreases rest.len(),
    {
        let x = rest.remove(0);
        let mut j = out.len();
        while j > 0 && name_less(&x.name, &out[j - 1].name)
            invariant
                j <= out.len(),
                forall|m: int| j <= m < out.len() ==> name_lt(source_key(x), #[trigger] source_key(out@[m])),
            decreases j,
        {
            j -= 1;
        }
        proof {
            lemma_insert_pos_prefix(out@, x, j as int);
            if j > 0 {
                assert(out@.take(j as int).drop_last() =~= out@.take(j - 1));
                assert(out@.take(j as int).last() == out@[j - 1]);
            } else {
                assert(out@.take(0).len() == 0);
            }
            assert(orig.take(n + 1).drop_last() =~= orig.take(n));
            assert(orig.take(n + 1).last() == x);
            assert(rest@ =~= orig.skip(n + 1));
        }
        out.insert(j, x);
        proof {
            n = n + 1;
        }
    }
    proof {
        assert(orig.take(n) =~= orig);
    }
    out
}

/// The sorted sources are in order of their names.
pub proof fn lemma_sort_by_name_sorted(s: Seq<ConfigMapSource>)
    ensures
        forall|i: int, j: int|
            0 <= i < j < sort_by_name(s).len() ==> !name_lt(
                #[trigger] source_key(sort_by_name(s)[j]),
                #[trigger] source_key(sort_by_name(s)[i]),
            ),
    decreases s.len(),
{
    if s.len() > 0 {
        lemma_sort_by_name_sorted(s.drop_last());
        let t = sort_by_name(s.drop_last());
        let x = s.last();
        let p = insert_pos(t, x);
        lemma_insert_pos(t, x);
        t.insert_ensures(p, x);
        let r = t.insert(p, x);
        assert forall|i: int, j: int| 0 <= i < j < r.len() implies !name_lt(
            #[trigger] source_key(r[j]),
            #[trigger] source_key(r[i]),
        ) by {
            let ki = source_key(r[i]);
            let kj = source_key(r[j]);
            let kx = source_key(x);
            if i < p && j < p {
                assert(r[i] == t[i] && r[j] == t[j]);
            } else if i < p && j == p {
                assert(r[i] == t[i]);
                assert(!name_lt(kx, source_key(t[p - 1])));
                if i < p - 1 {
                    assert(!name_lt(source_key(t[p - 1]), source_key(t[i])));
                    lemma_name_le_transitive(source_key(t[i]), source_key(t[p - 1]), kx);
                }
            } else if i < p {
                assert(r[i] == t[i] && r[j] == t[j - 1]);
            } else if i == p {
                assert(r[j] == t[j - 1]);
                assert(name_lt(kx, source_key(t[j - 1])));
                if name_lt(kj, kx) {
                    lemma_name_lt_transitive(kx, kj, kx);
                    lemma_name_lt_irreflexive(kx);
                }
            } else {
                assert(r[i] == t[i - 1] && r[j] == t[j - 1]);
            }
        }
    }
}

/// Sorting keeps every source: the result is a permutation of the input.
pub proof fn lemma_sort_by_name_permutes(s: Seq<ConfigMapSource>)
    ensures
        sort_by_name(s).to_multiset() == s.to_multiset(),
    decreases s.len(),
{
    broadcast use vstd::seq_lib::to_multiset_insert, vstd::seq_lib::to_multiset_build;

    if s.len() > 0 {
        lemma_sort_by_name_permutes(s.drop_last());
        let t = sort_by_name(s.drop_last());
        lemma_insert_pos(t, s.last());
        assert(s.drop_last().push(s.last()) =~= s);
    }
}


/// Sorting is stable: the sources of any one name come out in the order
/// in which they came in.
pub proof fn lemma_sort_by_name_stable(s: Seq<ConfigMapSource>, k: Option<Seq<char>>)
    ensures
        sort_by_name(s).filter(|e: ConfigMapSource| source_key(e) == k) == s.filter(
            |e: ConfigMapSource| source_key(e) == k,
        ),
    decreases s.len(),
{
    let f = |e: ConfigMapSource| source_key(e) == k;
    if s.len() > 0 {
        lemma_sort_by_name_stable(s.drop_last(), k);
        let t = sort_by_name(s.drop_last());
        let x = s.last();
        let p = insert_pos(t, x);
        lemma_insert_pos(t, x);
        let front = t.take(p);
        let back = t.skip(p);
        assert(t.insert(p, x) =~= front.push(x) + back);
        assert(t =~= front + back);
        Seq::filter_distributes_over_add(front.push(x), back, f);
        Seq::filter_distributes_over_add(front, back, f);
        front.lemma_filter_push(x, f);
        s.drop_last().lemma_filter_push(x, f);
        assert(s.drop_last().push(x) =~= s);
        if source_key(x) == k {
            assert forall|m: int| 0 <= m < back.len() implies !f(#[trigger] back[m]) by {
                assert(back[m] == t[p + m]);
                assert(name_lt(source_key(x), source_key(t[p + m])));
                lemma_name_lt_irreflexive(source_key(x));
            }
            back.lemma_all_neg_filter_empty(f);
            assert(back.filter(f) =~= Seq::<ConfigMapSource>::empty());
            assert(front.filter(f).push(x) + back.filter(f) =~= front.filter(f).push(x));
            assert(front.filter(f) + back.filter(f) =~= front.filter(f));
        }
    }
}


/// A data key that names a JSON document: it ends in `.json`.
pub open spec fn is_json_key(k: Seq<char>) -> bool {
    k.len() >= 5 && k.skip(k.len() - 5) == seq!['.', 'j', 's', 'o', 'n']
}

/// The values of the entries whose key names a JSON document, in order.
pub open spec fn json_texts(data: Seq<(String, String)>) -> Seq<Seq<char>>
    decreases data.len(),
{
    if data.len() == 0 {
        Seq::empty()
    } else {
        let r = json_texts(data.drop_last());
        if is_json_key(data.last().0@) {
            r.push(data.last().1@)
        } else {
            r
        }
    }
}

pub open spec fn data_json_texts(data: Option<Vec<(String, String)>>) -> Seq<Seq<char>> {
    match data {
        Some(d) => json_texts(d@),
        None => Seq::empty(),
    }
}

/// The value stored under `key`: the first entry with that key.
pub open spec fn lookup_text(data: Seq<(String, String)>, key: Seq<char>) -> Option<Seq<char>>
    decreases data.len(),
{
    if data.len() == 0 {
        None
    } else {
        match lookup_text(data.drop_last(), key) {
            Some(v) => Some(v),
            None => if data.last().0@ == key {
                Some(data.last().1@)
            } else {
                None
            },
        }
    }
}

/// The namespace that a ConfigMap's clients publish their secrets to: its
/// `targetNamespace` entry, else the namespace being watched.
pub open spec fn target_namespace_of(data: Option<Vec<(String, String)>>, ns: Seq<char>) -> Seq<char> {
    match data {
        Some(d) => match lookup_text(d@, "targetNamespace"@) {
            Some(t) => t,
            None => ns,
        },
        None => ns,
    }
}

/// Whether a data key ends in `.json`.
pub fn has_json_suffix(k: &String) -> (r: bool)
    ensures
        r == is_json_key(k@),
{
    let s = k.as_str();
    let n = s.unicode_len();
    if n < 5 {
        return false;
    }
    let r = s.get_char(n - 5) == '.' && s.get_char(n - 4) == 'j' && s.get_char(n - 3) == 's'
        && s.get_char(n - 2) == 'o' && s.get_char(n - 1) == 'n';
    proof {
        let tail = k@.skip(n - 5);
        if r {
            assert(tail =~= seq!['.', 'j', 's', 'o', 'n']);
        } else {
            if tail == seq!['.', 'j', 's', 'o', 'n'] {
                assert(tail[0] == k@[n - 5]);
                assert(tail[1] == k@[n - 4]);
                assert(tail[2] == k@[n - 3]);
                assert(tail[3] == k@[n - 2]);
                assert(tail[4] == k@[n - 1]);
            }
        }
    }
    r
}

/// The texts of a ConfigMap's JSON documents: the values of the entries
/// whose key ends in `.json`, in key order.
pub fn json_document_texts(data: &Option<Vec<(String, String)>>) -> (r: Vec<String>)
    ensures
        r@.map_values(|t: String| t@) == data_json_texts(*data),
{
    let mut out: Vec<String> = Vec::new();
    match data {
        Some(d) => {
            let mut i: usize = 0;
            proof {
                assert(d@.take(0).len() == 0);
                assert(out@.map_values(|t: String| t@) =~= json_texts(d@.take(0)));
            }
            while i < d.len()
                invariant
                    i <= d.len(),
                    out@.map_values(|t: String| t@) == json_texts(d@.take(i as int)),
                decreases d.len() - i,
            {
                proof {
                    assert(d@.take(i + 1).drop_last() =~= d@.take(i as int));
                    assert(d@.take(i + 1).last() == d@[i as int]);
                }
                if has_json_suffix(&d[i].0) {
                    let ghost before = out@;
                    out.push(d[i].1.clone());
                    proof {
                        assert(out@.map_values(|t: String| t@) =~= before.map_values(|t: String| t@).push(
                            d@[i as int].1@,
                        ));
                    }
                }
                i += 1;
            }
            proof {
                assert(d@.take(i as int) =~= d@);
            }
        },
        None => {
            proof {
                assert(out@.map_values(|t: String| t@) =~= Seq::<Seq<char>>::empty());
            }
        },
    }
    out
}

/// The namespace that a ConfigMap's clients publish their secrets to.
pub fn target_namespace(data: &Option<Vec<(String, String)>>, namespace: &String) -> (r: String)
    ensures
        r@ == target_namespace_of(*data, namespace@),
{
    match data {
        Some(d) => {
            let key = String::from_str("targetNamespace");
            let mut i: usize = 0;
            proof {
                assert(d@.take(0).len() == 0);
            }
            while i < d.len()
                invariant
                    i <= d.len(),
                    key@ == "targetNamespace"@,
                    *data == Some(*d),
                    lookup_text(d@.take(i as int), key@) is None,
                decreases d.len() - i,
            {
                proof {
                    assert(d@.take(i + 1).drop_last() =~= d@.take(i as int));
                    assert(d@.take(i + 1).last() == d@[i as int]);
                }
                if d[i].0 == key {
                    proof {
                        assert(lookup_text(d@.take(i + 1), key@) == Some(d@[i as int].1@));
                        lemma_lookup_text_extend(d@, i + 1, key@);
                    }
                    return d[i].1.clone();
                }
                i += 1;
            }
            proof {
                assert(d@.take(i as int) =~= d@);
            }
            namespace.clone()
        },
        None => namespace.clone(),
    }
}

proof fn lemma_lookup_text_extend(s: Seq<(String, String)>, n: int, key: Seq<char>)
    requires
        0 <= n <= s.len(),
        lookup_text(s.take(n), key) is Some,
    ensures
        lookup_text(s, key) == lookup_text(s.take(n), key),
    decreases s.len(),
{
    if n == s.len() {
        assert(s.take(n) =~= s);
    } else {
        assert(s.drop_last().take(n) =~= s.take(n));
        lemma_lookup_text_extend(s.drop_last(), n, key);
    }
}



/// The documents that a list of texts yields: those texts that parse as
/// JSON, parsed, in order; the others are skipped.
pub open spec fn parsed_documents(texts: Seq<Seq<char>>) -> Seq<JsonView>
    decreases texts.len(),
{
    if texts.len() == 0 {
        Seq::empty()
    } else {
        let r = parsed_documents(texts.drop_last());
        match parsed_json(texts.last()) {
            Some(d) => r.push(d),
            None => r,
        }
    }
}

/// The provisioning documents of a ConfigMap: each entry whose key ends in
/// `.json` and whose value parses as JSON, parsed, in key order.
pub fn extract_json_from_cm(data: &Option<Vec<(String, String)>>) -> (r: Vec<Json>)
    ensures
        items_view(r@) == parsed_documents(data_json_texts(*data)),
        forall|i: int| 0 <= i < r@.len() ==> #[trigger] well_formed(json_view(r@[i])),
{
    let texts = json_document_texts(data);
    let ghost tv = texts@.map_values(|t: String| t@);
    let mut out: Vec<Json> = Vec::new();
    let mut i: usize = 0;
    proof {
        assert(tv.take(0).len() == 0);
        assert(items_view(out@) =~= Seq::<JsonView>::empty());
    }
    while i < texts.len()
        invariant
            i <= texts.len(),
            tv == texts@.map_values(|t: String| t@),
            tv == data_json_texts(*data),
            items_view(out@) == parsed_documents(tv.take(i as int)),
            forall|j: int| 0 <= j < out@.len() ==> #[trigger] well_formed(json_view(out@[j])),
        decreases texts.len() - i,
    {
        proof {
            assert(tv.take(i + 1).drop_last() =~= tv.take(i as int));
            assert(tv.take(i + 1).last() == texts@[i as int]@);
        }
        let ghost old_out = out@;
        match parse_json(texts[i].as_str()) {
            Some(doc) => {
                out.push(doc);
                proof {
                    assert(out@.drop_last() =~= old_out);
                }
            },
            None => {},
        }
        i += 1;
    }
    proof {
        assert(tv.take(i as int) =~= tv);
    }
    out
}

} // verus!
