use vstd::prelude::*;
use crate::json::{
    Entries, JsonView, entries_size, key_index, keys_distinct, member, member_or_null, merge,
    merge_member, merge_members, size, well_formed, lemma_member_size, lemma_members_well_formed,
};

verus! {

/// `key_index` finds the first member with the given name, and -1 exactly
/// when no member has it.
pub proof fn lemma_key_index(s: Entries, k: Seq<char>)
    ensures
        -1 <= key_index(s, k) < s.len(),
        key_index(s, k) >= 0 ==> s[key_index(s, k)].0 == k,
        forall|j: int|
            0 <= j < s.len() && (key_index(s, k) < 0 || j < key_index(s, k)) ==> #[trigger] s[j].0
                != k,
    decreases s.len(),
{
    if s.len() > 0 {
        lemma_key_index(s.drop_last(), k);
        assert forall|j: int|
            0 <= j < s.len() && (key_index(s, k) < 0 || j < key_index(s, k)) implies #[trigger] s[j].0
                != k by {
            if j < s.len() - 1 {
                assert(s.drop_last()[j] == s[j]);
            }
        }
    }
}

/// Two member lists with the same names in the same places find a name at
/// the same place.
pub proof fn lemma_key_index_same_keys(s: Entries, t: Entries, k: Seq<char>)
    requires
        s.len() == t.len(),
        forall|j: int| 0 <= j < s.len() ==> #[trigger] s[j].0 == t[j].0,
    ensures
        key_index(s, k) == key_index(t, k),
    decreases s.len(),
{
    if s.len() > 0 {
        assert forall|j: int| 0 <= j < s.len() - 1 implies #[trigger] s.drop_last()[j].0
            == t.drop_last()[j].0 by {
            assert(s[j].0 == t[j].0);
        }
        lemma_key_index_same_keys(s.drop_last(), t.drop_last(), k);
        assert(s[s.len() - 1].0 == t[t.len() - 1].0);
    }
}

pub proof fn lemma_key_index_push(s: Entries, x: (Seq<char>, JsonView), k: Seq<char>)
    ensures
        key_index(s.push(x), k) == (if key_index(s, k) >= 0 {
            key_index(s, k)
        } else if x.0 == k {
            s.len() as int
        } else {
            -1
        }),
{
    assert(s.push(x).drop_last() =~= s);
}

/// In a list with distinct names, each member is found at its own place.
pub proof fn lemma_key_index_distinct(s: Entries, j: int)
    requires
        keys_distinct(s),
        0 <= j < s.len(),
    ensures
        key_index(s, s[j].0) == j,
{
    lemma_key_index(s, s[j].0);
    let i = key_index(s, s[j].0);
    if i < 0 || j < i {
        assert(s[j].0 != s[j].0);
    }
    if i < j {
        assert(s[i].0 != s[j].0);
    }
}

pub proof fn lemma_key_index_update(s: Entries, i: int, v: JsonView, k: Seq<char>)
    requires
        0 <= i < s.len(),
    ensures
        key_index(s.update(i, (s[i].0, v)), k) == key_index(s, k),
{
    let t = s.update(i, (s[i].0, v));
    assert forall|j: int| 0 <= j < s.len() implies #[trigger] s[j].0 == t[j].0 by {}
    lemma_key_index_same_keys(s, t, k);
}

/// Merging a member leaves the members of other names as they were.
pub proof fn lemma_merge_member_other(acc: Entries, k2: Seq<char>, v: JsonView, k: Seq<char>)
    requires
        k != k2,
    ensures
        member(merge_member(acc, k2, v), k) == member(acc, k),
{
    let i = key_index(acc, k2);
    lemma_key_index(acc, k2);
    lemma_key_index(acc, k);
    if i >= 0 {
        lemma_key_index_update(acc, i, merge(acc[i].1, v), k);
    } else {
        lemma_key_index_push(acc, (k2, v), k);
    }
}

/// After merging a member, its name holds the merge of the old value (or
/// `null`) with the new one.
pub proof fn lemma_merge_member_same(acc: Entries, k: Seq<char>, v: JsonView)
    ensures
        member(merge_member(acc, k, v), k) == Some(merge(member_or_null(acc, k), v)),
{
    let i = key_index(acc, k);
    lemma_key_index(acc, k);
    if i >= 0 {
        lemma_key_index_update(acc, i, merge(acc[i].1, v), k);
    } else {
        lemma_key_index_push(acc, (k, v), k);
    }
}

proof fn lemma_member_last(b: Entries, k: Seq<char>)
    requires
        keys_distinct(b),
        b.len() > 0,
    ensures
        keys_distinct(b.drop_last()),
        b.last().0 == k ==> member(b.drop_last(), k) is None && member(b, k) == Some(b.last().1),
        b.last().0 != k ==> member(b, k) == member(b.drop_last(), k),
{
    let bl = b.drop_last();
    assert forall|i: int, j: int| 0 <= i < j < bl.len() implies #[trigger] bl[i].0 != #[trigger] bl[j].0 by {
        assert(b[i].0 != b[j].0);
    }
    lemma_key_index(bl, k);
    if b.last().0 == k && key_index(bl, k) >= 0 {
        let i = key_index(bl, k);
        assert(b[i].0 != b[b.len() - 1].0);
    }
}

/// Looking up a name in merged members: the override's value merged into
/// the base's value (or `null`), or the base's value where the override
/// has none.
pub proof fn lemma_merge_members_lookup(a: Entries, b: Entries, k: Seq<char>)
    requires
        keys_distinct(b),
    ensures
        member(merge_members(a, b), k) == (match member(b, k) {
            Some(v) => Some(merge(member_or_null(a, k), v)),
            None => member(a, k),
        }),
    decreases b.len(),
{
    if b.len() > 0 {
        let bl = b.drop_last();
        lemma_member_last(b, k);
        lemma_merge_members_lookup(a, bl, k);
        if b.last().0 == k {
            lemma_merge_member_same(merge_members(a, bl), k, b.last().1);
        } else {
            lemma_merge_member_other(merge_members(a, bl), b.last().0, b.last().1, k);
        }
    }
}


proof fn lemma_merge_member_keeps(acc: Entries, k: Seq<char>, v: JsonView)
    requires
        keys_distinct(acc),
        forall|i: int| 0 <= i < acc.len() ==> #[trigger] well_formed(acc[i].1),
        well_formed(v),
        key_index(acc, k) >= 0 ==> well_formed(merge(acc[key_index(acc, k)].1, v)),
    ensures
        keys_distinct(merge_member(acc, k, v)),
        forall|i: int|
            0 <= i < merge_member(acc, k, v).len() ==> #[trigger] well_formed(
                merge_member(acc, k, v)[i].1,
            ),
{
    lemma_key_index(acc, k);
    let r = merge_member(acc, k, v);
    let i = key_index(acc, k);
    if i >= 0 {
        assert forall|p: int, q: int| 0 <= p < q < r.len() implies #[trigger] r[p].0 != #[trigger] r[q].0 by {
            assert(acc[p].0 != acc[q].0);
        }
    } else {
        assert forall|p: int, q: int| 0 <= p < q < r.len() implies #[trigger] r[p].0 != #[trigger] r[q].0 by {
            if q < acc.len() {
                assert(acc[p].0 != acc[q].0);
            } else {
                assert(acc[p].0 != k);
            }
        }
    }
}

proof fn lemma_prefix_well_formed(a: Entries, b: Entries, n: int)
    requires
        keys_distinct(a),
        forall|i: int| 0 <= i < a.len() ==> #[trigger] well_formed(a[i].1),
        forall|i: int| 0 <= i < b.len() ==> #[trigger] well_formed(b[i].1),
        0 <= n <= b.len(),
    ensures
        keys_distinct(merge_members(a, b.take(n))),
        forall|i: int|
            0 <= i < merge_members(a, b.take(n)).len() ==> #[trigger] well_formed(
                merge_members(a, b.take(n))[i].1,
            ),
    decreases entries_size(b), n,
{
    if n > 0 {
        lemma_prefix_well_formed(a, b, n - 1);
        assert(b.take(n).drop_last() =~= b.take(n - 1));
        let acc = merge_members(a, b.take(n - 1));
        let k = b[n - 1].0;
        let v = b[n - 1].1;
        assert(well_formed(v));
        lemma_key_index(acc, k);
        if key_index(acc, k) >= 0 {
            lemma_member_size(b, n - 1);
            lemma_merge_well_formed(acc[key_index(acc, k)].1, v);
        }
        lemma_merge_member_keeps(acc, k, v);
    } else {
        assert(b.take(0).len() == 0);
    }
}

/// Merging two well-formed values gives a well-formed value.
pub proof fn lemma_merge_well_formed(a: JsonView, b: JsonView)
    requires
        well_formed(a),
        well_formed(b),
    ensures
        well_formed(merge(a, b)),
    decreases size(b), 0int,
{
    match (a, b) {
        (JsonView::Object(x), JsonView::Object(y)) => {
            lemma_members_well_formed(x);
            lemma_members_well_formed(y);
            lemma_prefix_well_formed(x, y, y.len() as int);
            assert(y.take(y.len() as int) =~= y);
            lemma_members_well_formed(merge_members(x, y));
        },
        _ => {},
    }
}

proof fn lemma_idempotent_prefix(es: Entries, n: int)
    requires
        keys_distinct(es),
        forall|i: int| 0 <= i < es.len() ==> #[trigger] well_formed(es[i].1),
        0 <= n <= es.len(),
    ensures
        merge_members(es, es.take(n)) == es,
    decreases entries_size(es), n,
{
    if n > 0 {
        lemma_idempotent_prefix(es, n - 1);
        assert(es.take(n).drop_last() =~= es.take(n - 1));
        lemma_key_index_distinct(es, n - 1);
        lemma_member_size(es, n - 1);
        lemma_merge_idempotent(es[n - 1].1);
        assert(es.update(n - 1, (es[n - 1].0, es[n - 1].1)) =~= es);
        assert(es.take(n).last() == es[n - 1]);
        assert(merge_member(es, es[n - 1].0, es[n - 1].1) == es);
        assert(merge_members(es, es.take(n)) == merge_member(
            merge_members(es, es.take(n).drop_last()),
            es.take(n).last().0,
            es.take(n).last().1,
        ));
    } else {
        assert(es.take(0).len() == 0);
    }
}

/// Merging a well-formed value into itself leaves it unchanged.
pub proof fn lemma_merge_idempotent(a: JsonView)
    requires
        well_formed(a),
    ensures
        merge(a, a) == a,
    decreases size(a), 0int,
{
    if let JsonView::Object(es) = a {
        lemma_members_well_formed(es);
        lemma_idempotent_prefix(es, es.len() as int);
        assert(es.take(es.len() as int) =~= es);
    }
}

proof fn lemma_absorbs_prefix(x: Entries, y: Entries, n: int)
    requires
        keys_distinct(x),
        forall|i: int| 0 <= i < x.len() ==> #[trigger] well_formed(x[i].1),
        keys_distinct(y),
        forall|i: int| 0 <= i < y.len() ==> #[trigger] well_formed(y[i].1),
        0 <= n <= y.len(),
    ensures
        merge_members(merge_members(x, y), y.take(n)) == merge_members(x, y),
    decreases entries_size(y), n,
{
    let m = merge_members(x, y);
    if n > 0 {
        lemma_absorbs_prefix(x, y, n - 1);
        assert(y.take(n).drop_last() =~= y.take(n - 1));
        let k = y[n - 1].0;
        let v = y[n - 1].1;
        lemma_merge_members_lookup(x, y, k);
        lemma_key_index_distinct(y, n - 1);
        lemma_key_index(x, k);
        lemma_key_index(m, k);
        let w = member_or_null(x, k);
        assert(well_formed(w));
        assert(well_formed(v));
        lemma_member_size(y, n - 1);
        lemma_merge_absorbs(w, v);
        let p = key_index(m, k);
        assert(m.update(p, (m[p].0, m[p].1)) =~= m);
        assert(y.take(n).last() == y[n - 1]);
        assert(merge_member(m, k, v) == m);
        assert(merge_members(m, y.take(n)) == merge_member(
            merge_members(m, y.take(n).drop_last()),
            y.take(n).last().0,
            y.take(n).last().1,
        ));
    } else {
        assert(y.take(0).len() == 0);
    }
}

/// Merging the same override a second time changes nothing.
pub proof fn lemma_merge_absorbs(a: JsonView, b: JsonView)
    requires
        well_formed(a),
        well_formed(b),
    ensures
        merge(merge(a, b), b) == merge(a, b),
    decreases size(b), 0int,
{
    match (a, b) {
        (JsonView::Object(x), JsonView::Object(y)) => {
            lemma_members_well_formed(x);
            lemma_members_well_formed(y);
            lemma_absorbs_prefix(x, y, y.len() as int);
            assert(y.take(y.len() as int) =~= y);
        },
        (_, JsonView::Object(y)) => {
            lemma_merge_idempotent(b);
        },
        _ => {},
    }
}

/// Deep merge of two objects, member by member: a name the override gives
/// holds the override's value merged into the base's value (or into
/// `null`); every name the override does not give keeps the base's value.
/// In particular an empty override leaves the base as it is.
pub proof fn lemma_merge_objects(b: Entries, o: Entries, k: Seq<char>)
    requires
        keys_distinct(o),
    ensures
        merge(JsonView::Object(b), JsonView::Object(o)) is Object,
        member(merge(JsonView::Object(b), JsonView::Object(o))->Object_0, k) == (match member(o, k) {
            Some(v) => Some(merge(member_or_null(b, k), v)),
            None => member(b, k),
        }),
        o.len() == 0 ==> merge(JsonView::Object(b), JsonView::Object(o)) == JsonView::Object(b),
{
    lemma_merge_members_lookup(b, o, k);
}

} // verus!
