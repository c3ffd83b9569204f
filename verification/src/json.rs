use vstd::prelude::*;

verus! {

/// Declares `serde_json::Number` so that a [`Json`] document can carry a
/// number; nothing is claimed about it and nothing here looks inside it.
#[verifier::external_type_specification]
#[verifier::external_body]
pub struct ExNumber(serde_json::Number);

/// Declares `serde_json::Value`, the type that `serde_json::from_str`
/// parses into; it is only converted into a [`Json`] and never read here.
#[verifier::external_type_specification]
#[verifier::external_body]
pub struct ExValue(serde_json::Value);

/// A JSON document. An object keeps its members as a list of pairs; a
/// parsed document names each member of an object once (see `well_formed`).
#[derive(Debug, PartialEq)]
pub enum Json {
    Null,
    Bool(bool),
    Number(serde_json::Number),
    String(String),
    Array(Vec<Json>),
    Object(Vec<(String, Json)>),
}

/// The mathematical value of a [`Json`] document.
pub enum JsonView {
    Null,
    Bool(bool),
    Number(serde_json::Number),
    Text(Seq<char>),
    Array(Seq<JsonView>),
    Object(Seq<(Seq<char>, JsonView)>),
}

pub type Entries = Seq<(Seq<char>, JsonView)>;

pub open spec fn json_view(j: Json) -> JsonView
    decreases j,
{
    match j {
        Json::Null => JsonView::Null,
        Json::Bool(b) => JsonView::Bool(b),
        Json::Number(n) => JsonView::Number(n),
        Json::String(s) => JsonView::Text(s@),
        Json::Array(items) => JsonView::Array(items_view(items@)),
        Json::Object(entries) => JsonView::Object(entries_view(entries@)),
    }
}

pub open spec fn items_view(s: Seq<Json>) -> Seq<JsonView>
    decreases s,
{
    if s.len() == 0 {
        Seq::empty()
    } else {
        items_view(s.drop_last()).push(json_view(s.last()))
    }
}

pub open spec fn entries_view(s: Seq<(String, Json)>) -> Entries
    decreases s,
{
    if s.len() == 0 {
        Seq::empty()
    } else {
        entries_view(s.drop_last()).push((s.last().0@, json_view(s.last().1)))
    }
}

impl View for Json {
    type V = JsonView;

    open spec fn view(&self) -> JsonView {
        json_view(*self)
    }
}


/// Position of the first member named `key`, or -1 when there is none.
pub open spec fn key_index(entries: Entries, key: Seq<char>) -> int
    decreases entries.len(),
{
    if entries.len() == 0 {
        -1
    } else {
        let i = key_index(entries.drop_last(), key);
        if i >= 0 {
            i
        } else if entries.last().0 == key {
            entries.len() - 1
        } else {
            -1
        }
    }
}

/// Merges one member into the members of an object: an existing member of
/// that name is merged with the new value, a new name is appended.
pub open spec fn merge_member(acc: Entries, key: Seq<char>, value: JsonView) -> Entries
    decreases value, 1int,
{
    let i = key_index(acc, key);
    if i >= 0 {
        acc.update(i, (acc[i].0, merge(acc[i].1, value)))
    } else {
        acc.push((key, value))
    }
}

/// Merges the members of `over`, in order, into the members `base`.
pub open spec fn merge_members(base: Entries, over: Entries) -> Entries
    decreases over, 2int,
{
    if over.len() == 0 {
        base
    } else {
        merge_member(merge_members(base, over.drop_last()), over.last().0, over.last().1)
    }
}

/// Deep merge of two JSON values: two objects merge member by member,
/// in every other case the overriding value replaces the base.
pub open spec fn merge(base: JsonView, over: JsonView) -> JsonView
    decreases over, 0int,
{
    match (base, over) {
        (JsonView::Object(b), JsonView::Object(o)) => JsonView::Object(merge_members(b, o)),
        _ => over,
    }
}


/// No two members of an object share a name.
pub open spec fn keys_distinct(es: Entries) -> bool {
    forall|i: int, j: int| 0 <= i < j < es.len() ==> #[trigger] es[i].0 != #[trigger] es[j].0
}

/// Every object inside the value has pairwise distinct member names, as
/// every JSON value parsed from text does.
pub open spec fn well_formed(j: JsonView) -> bool
    decreases j,
{
    match j {
        JsonView::Array(items) => items_well_formed(items),
        JsonView::Object(es) => keys_distinct(es) && members_well_formed(es),
        _ => true,
    }
}

pub open spec fn items_well_formed(s: Seq<JsonView>) -> bool
    decreases s,
{
    s.len() == 0 || (items_well_formed(s.drop_last()) && well_formed(s.last()))
}

pub open spec fn members_well_formed(s: Entries) -> bool
    decreases s,
{
    s.len() == 0 || (members_well_formed(s.drop_last()) && well_formed(s.last().1))
}

/// Members are well formed when each member value is.
pub proof fn lemma_members_well_formed(s: Entries)
    ensures
        members_well_formed(s) <==> forall|i: int| 0 <= i < s.len() ==> #[trigger] well_formed(s[i].1),
    decreases s.len(),
{
    if s.len() > 0 {
        lemma_members_well_formed(s.drop_last());
        if forall|i: int| 0 <= i < s.len() ==> #[trigger] well_formed(s[i].1) {
            assert forall|i: int| 0 <= i < s.len() - 1 implies #[trigger] well_formed(s.drop_last()[i].1) by {
                assert(well_formed(s[i].1));
            }
            assert(well_formed(s[s.len() - 1].1));
        }
        if members_well_formed(s) {
            assert forall|i: int| 0 <= i < s.len() implies #[trigger] well_formed(s[i].1) by {
                if i < s.len() - 1 {
                    assert(well_formed(s.drop_last()[i].1));
                }
            }
        }
    }
}

/// The value of the member named `key`, if there is one.
pub open spec fn member(es: Entries, key: Seq<char>) -> Option<JsonView> {
    let i = key_index(es, key);
    if i >= 0 {
        Some(es[i].1)
    } else {
        None
    }
}

/// The value stored under `key` in an object, `null` when it has none.
pub open spec fn member_or_null(es: Entries, key: Seq<char>) -> JsonView {
    match member(es, key) {
        Some(v) => v,
        None => JsonView::Null,
    }
}

/// Number of nodes of a JSON value.
pub open spec fn size(j: JsonView) -> nat
    decreases j,
{
    match j {
        JsonView::Array(items) => 1 + items_size(items),
        JsonView::Object(members) => 1 + entries_size(members),
        _ => 1,
    }
}

pub open spec fn items_size(s: Seq<JsonView>) -> nat
    decreases s,
{
    if s.len() == 0 {
        0
    } else {
        items_size(s.drop_last()) + size(s.last())
    }
}

pub open spec fn entries_size(s: Entries) -> nat
    decreases s,
{
    if s.len() == 0 {
        0
    } else {
        entries_size(s.drop_last()) + size(s.last().1)
    }
}

pub proof fn lemma_member_size(s: Entries, i: int)
    requires
        0 <= i < s.len(),
    ensures
        size(s[i].1) <= entries_size(s),
    decreases s.len(),
{
    if i < s.len() - 1 {
        lemma_member_size(s.drop_last(), i);
    }
}

/// The view of a list of members is taken member by member.
pub proof fn lemma_entries_view(s: Seq<(String, Json)>)
    ensures
        entries_view(s).len() == s.len(),
        forall|i: int|
            0 <= i < s.len() ==> #[trigger] entries_view(s)[i] == (s[i].0@, json_view(s[i].1)),
    decreases s.len(),
{
    if s.len() > 0 {
        lemma_entries_view(s.drop_last());
    }
}

/// The view of a list of items is taken item by item.
pub proof fn lemma_items_view(s: Seq<Json>)
    ensures
        items_view(s).len() == s.len(),
        forall|i: int| 0 <= i < s.len() ==> #[trigger] items_view(s)[i] == json_view(s[i]),
    decreases s.len(),
{
    if s.len() > 0 {
        lemma_items_view(s.drop_last());
    }
}

/// A member found in a prefix is found at the same place in the whole list.
proof fn lemma_key_index_extend(s: Entries, n: int, key: Seq<char>)
    requires
        0 <= n <= s.len(),
        key_index(s.take(n), key) >= 0,
    ensures
        key_index(s, key) == key_index(s.take(n), key),
    decreases s.len(),
{
    if n == s.len() {
        assert(s.take(n) =~= s);
    } else {
        assert(s.drop_last().take(n) =~= s.take(n));
        lemma_key_index_extend(s.drop_last(), n, key);
    }
}

/// Looks up the first member named `key`.
pub fn find_member(entries: &Vec<(String, Json)>, key: &String) -> (r: Option<usize>)
    ensures
        match r {
            Some(i) => i < entries.len() && key_index(entries_view(entries@), key@) == i,
            None => key_index(entries_view(entries@), key@) == -1,
        },
{
    let ghost ev = entries_view(entries@);
    proof {
        lemma_entries_view(entries@);
    }
    let mut i: usize = 0;
    while i < entries.len()
        invariant
            i <= entries.len(),
            ev == entries_view(entries@),
            ev.len() == entries.len(),
            forall|j: int| 0 <= j < entries.len() ==> #[trigger] ev[j] == (entries@[j].0@, json_view(entries@[j].1)),
            key_index(ev.take(i as int), key@) == -1,
        decreases entries.len() - i,
    {
        proof {
            assert(ev.take(i + 1).drop_last() =~= ev.take(i as int));
            assert(ev.take(i + 1).last() == ev[i as int]);
        }
        if entries[i].0 == *key {
            proof {
                lemma_key_index_extend(ev, i + 1, key@);
            }
            return Some(i);
        }
        i += 1;
    }
    proof {
        assert(ev.take(i as int) =~= ev);
    }
    None
}


/// Deep merge by value: the result is `merge(base@, over@)`.
fn merged(base: Json, over: Json) -> (r: Json)
    ensures
        r@ == merge(base@, over@),
    decreases size(over@),
{
    let ghost over_v = over@;
    match over {
        Json::Object(over_entries) => {
            match base {
                Json::Object(base_entries) => {
                    let ghost o = entries_view(over_entries@);
                    let ghost b = entries_view(base_entries@);
                    proof {
                        lemma_entries_view(over_entries@);
                        assert(merge_members(b, o.take(0)) == b) by {
                            assert(o.take(0).len() == 0);
                        }
                    }
                    let mut acc = base_entries;
                    let mut rest = over_entries;
                    let ghost mut n: int = 0;
                    while rest.len() > 0
                        invariant
                            0 <= n <= o.len(),
                            over_v == JsonView::Object(o),
                            over_v == over@,
                            rest.len() == o.len() - n,
                            forall|j: int|
                                0 <= j < rest.len() ==> (#[trigger] rest@[j].0@, json_view(rest@[j].1))
                                    == o[n + j],
                            entries_view(acc@) == merge_members(b, o.take(n)),
                        decreases rest.len(),
                    {
                        assert((rest@[0].0@, json_view(rest@[0].1)) == o[n]);
                        let ghost old_rest = rest@;
                        let (k, v) = rest.remove(0);
                        proof {
                            lemma_member_size(o, n);
                            assert(o.take(n + 1).drop_last() =~= o.take(n));
                            assert(o.take(n + 1).last() == o[n]);
                            assert forall|j: int| 0 <= j < rest.len() implies (#[trigger] rest@[j].0@, json_view(rest@[j].1))
                                    == o[n + 1 + j] by {
                                assert(rest@[j] == old_rest[j + 1]);
                                assert((old_rest[j + 1].0@, json_view(old_rest[j + 1].1)) == o[n + (j + 1)]);
                            }
                        }
                        let ghost acc_v = entries_view(acc@);
                        proof {
                            lemma_entries_view(acc@);
                            assert(k@ == o[n].0 && v@ == o[n].1);
                            assert(size(v@) < size(over_v));
                            assert(merge_members(b, o.take(n + 1)) == merge_member(acc_v, k@, v@));
                        }
                        match find_member(&acc, &k) {
                            Some(i) => {
                                let (k0, old) = acc.remove(i);
                                let m = merged(old, v);
                                acc.insert(i, (k0, m));
                                proof {
                                    lemma_entries_view(acc@);
                                    assert(entries_view(acc@) =~= acc_v.update(i as int, (acc_v[i as int].0, merge(acc_v[i as int].1, v@))));
                                }
                            },
                            None => {
                                acc.push((k, v));
                                proof {
                                    lemma_entries_view(acc@);
                                    assert(entries_view(acc@) =~= acc_v.push((k@, v@)));
                                }
                            },
                        }
                        proof {
                            n = n + 1;
                        }
                    }
                    proof {
                        assert(o.take(n) =~= o);
                    }
                    Json::Object(acc)
                },
                _ => Json::Object(over_entries),
            }
        },
        _ => over,
    }
}

/// Merges `override_val` into `base`: where both are objects, each member
/// of the override is merged into the member of the same name (a missing
/// member counts as `null`); otherwise the override replaces the base.
pub fn deep_merge(base: &mut Json, override_val: Json)
    ensures
        final(base)@ == merge(old(base)@, override_val@),
{
    let mut taken = Json::Null;
    std::mem::swap(&mut taken, base);
    *base = merged(taken, override_val);
}


/// The document that `serde_json::from_str` parses from a text, or `None`
/// when the text is not JSON.
pub uninterp spec fn parsed_json(text: Seq<char>) -> Option<JsonView>;

/// Converts a parsed `serde_json::Value` into a [`Json`], variant for
/// variant; the members of an object come in the order of its map.
#[verifier::external_body]
fn json_from_value(v: serde_json::Value) -> Json {
    match v {
        serde_json::Value::Null => Json::Null,
        serde_json::Value::Bool(b) => Json::Bool(b),
        serde_json::Value::Number(n) => Json::Number(n),
        serde_json::Value::String(s) => Json::String(s),
        serde_json::Value::Array(items) => Json::Array(items.into_iter().map(json_from_value).collect()),
        serde_json::Value::Object(members) => Json::Object(
            members.into_iter().map(|(k, x)| (k, json_from_value(x))).collect(),
        ),
    }
}

/// Parses a JSON text with `serde_json::from_str` into a `serde_json::Value`
/// and converts it. The contract names the result `parsed_json(text)` and
/// claims that it is well formed: a `serde_json::Map` holds one value per
/// key, so no converted object repeats a member name.
#[verifier::external_body]
pub(crate) fn parse_json(text: &str) -> (r: Option<Json>)
    ensures
        match r {
            Some(j) => parsed_json(text@) == Some(j@),
            None => parsed_json(text@) is None,
        },
        r matches Some(j) ==> well_formed(j@),
{
    match serde_json::from_str::<serde_json::Value>(text) {
        Ok(v) => Some(json_from_value(v)),
        Err(_) => None,
    }
}

} // verus!
