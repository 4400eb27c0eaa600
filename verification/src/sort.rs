//! Stable sorting by integer keys (the behaviour of `slice::sort_by_key`).

use vstd::prelude::*;

verus! {

/// A sort key: three integers compared lexicographically.
pub type SortKey = (i128, i128, i128);

pub open spec fn key_le(a: SortKey, b: SortKey) -> bool {
    a.0 < b.0 || (a.0 == b.0 && (a.1 < b.1 || (a.1 == b.1 && a.2 <= b.2)))
}

pub fn key_le_exec(a: SortKey, b: SortKey) -> (r: bool)
    ensures
        r == key_le(a, b),
{
    a.0 < b.0 || (a.0 == b.0 && (a.1 < b.1 || (a.1 == b.1 && a.2 <= b.2)))
}

/// Inserts `e` after every element whose key is not greater than its own.
pub open spec fn insert_stable<T>(s: Seq<(SortKey, T)>, e: (SortKey, T)) -> Seq<(SortKey, T)>
    decreases s.len(),
{
    if s.len() == 0 || key_le(s.last().0, e.0) {
        s.push(e)
    } else {
        insert_stable(s.drop_last(), e).push(s.last())
    }
}

/// The stable sort of `s` by key: equal keys keep their relative order.
pub open spec fn stable_sort<T>(s: Seq<(SortKey, T)>) -> Seq<(SortKey, T)>
    decreases s.len(),
{
    if s.len() == 0 {
        s
    } else {
        insert_stable(stable_sort(s.drop_last()), s.last())
    }
}

pub open spec fn zip_keys<T>(keys: Seq<SortKey>, items: Seq<T>) -> Seq<(SortKey, T)>
    recommends
        keys.len() == items.len(),
{
    Seq::new(items.len(), |i: int| (keys[i], items[i]))
}

pub open spec fn items_of<T>(s: Seq<(SortKey, T)>) -> Seq<T> {
    s.map_values(|p: (SortKey, T)| p.1)
}

pub open spec fn keys_of<T>(s: Seq<(SortKey, T)>) -> Seq<SortKey> {
    s.map_values(|p: (SortKey, T)| p.0)
}

/// `items` stably sorted by `keys` (one key per item).
pub open spec fn sort_by_keys<T>(keys: Seq<SortKey>, items: Seq<T>) -> Seq<T> {
    items_of(stable_sort(zip_keys(keys, items)))
}

pub open spec fn keys_sorted(k: Seq<SortKey>) -> bool {
    forall|i: int, j: int| 0 <= i < j < k.len() ==> key_le(#[trigger] k[i], #[trigger] k[j])
}

proof fn lemma_insert_at<T>(s: Seq<(SortKey, T)>, e: (SortKey, T), p: int)
    requires
        0 <= p <= s.len(),
        p == 0 || key_le(s[p - 1].0, e.0),
        forall|k: int| p <= k < s.len() ==> !key_le(#[trigger] s[k].0, e.0),
    ensures
        insert_stable(s, e) == s.take(p).push(e) + s.skip(p),
    decreases s.len() - p,
{
    if p == s.len() {
        assert(s.take(p) =~= s);
        assert(s.skip(p) =~= Seq::<(SortKey, T)>::empty());
        assert(s.take(p).push(e) + s.skip(p) =~= s.push(e));
    } else {
        let l = s.last();
        assert(!key_le(l.0, e.0));
        lemma_insert_at(s.drop_last(), e, p);
        assert(s.drop_last().take(p) =~= s.take(p));
        assert(s.take(p).push(e) + s.skip(p) =~= (s.drop_last().take(p).push(e)
            + s.drop_last().skip(p)).push(l));
    }
}

proof fn lemma_key_le_total(a: SortKey, b: SortKey)
    ensures
        key_le(a, b) || key_le(b, a),
        key_le(a, b) && key_le(b, a) ==> a == b,
{
}

proof fn lemma_key_le_trans(a: SortKey, b: SortKey, c: SortKey)
    requires
        key_le(a, b),
        key_le(b, c),
    ensures
        key_le(a, c),
{
}

proof fn lemma_insert_sorted<T>(s: Seq<(SortKey, T)>, e: (SortKey, T))
    requires
        keys_sorted(keys_of(s)),
    ensures
        keys_sorted(keys_of(insert_stable(s, e))),
        insert_stable(s, e).len() == s.len() + 1,
        insert_stable(s, e).to_multiset() == s.to_multiset().insert(e),
    decreases s.len(),
{
    broadcast use vstd::seq_lib::group_seq_properties;
    if s.len() == 0 || key_le(s.last().0, e.0) {
        let r = s.push(e);
        assert forall|i: int, j: int| 0 <= i < j < r.len() implies key_le(
            #[trigger] keys_of(r)[i],
            #[trigger] keys_of(r)[j],
        ) by {
            if j == r.len() - 1 && i < j {
                if i < s.len() - 1 {
                    assert(key_le(keys_of(s)[i], keys_of(s)[s.len() - 1]));
                    lemma_key_le_trans(s[i].0, s.last().0, e.0);
                }
            } else {
                assert(keys_of(r)[i] == keys_of(s)[i]);
                assert(keys_of(r)[j] == keys_of(s)[j]);
            }
        }
        assert(r.to_multiset() =~= s.to_multiset().insert(e));
    } else {
        let d = s.drop_last();
        assert(keys_sorted(keys_of(d))) by {
            assert forall|i: int, j: int| 0 <= i < j < d.len() implies key_le(
                #[trigger] keys_of(d)[i],
                #[trigger] keys_of(d)[j],
            ) by {
                assert(keys_of(d)[i] == keys_of(s)[i]);
                assert(keys_of(d)[j] == keys_of(s)[j]);
            }
        }
        lemma_insert_sorted(d, e);
        let m = insert_stable(d, e);
        let r = m.push(s.last());
        lemma_key_le_total(s.last().0, e.0);
        assert forall|i: int, j: int| 0 <= i < j < r.len() implies key_le(
            #[trigger] keys_of(r)[i],
            #[trigger] keys_of(r)[j],
        ) by {
            if j == r.len() - 1 {
                // every element of m is either e or an element of d
                let x = m[i];
                assert(m.to_multiset().count(x) > 0);
                assert(m.to_multiset() == d.to_multiset().insert(e));
                if x != e {
                    assert(d.to_multiset().count(x) > 0);
                    assert(d.contains(x));
                    let k = choose|k: int| 0 <= k < d.len() && d[k] == x;
                    assert(key_le(keys_of(s)[k], keys_of(s)[s.len() - 1]));
                }
                assert(keys_of(r)[i] == m[i].0);
            } else {
                assert(keys_of(r)[i] == keys_of(m)[i]);
                assert(keys_of(r)[j] == keys_of(m)[j]);
            }
        }
        assert(s =~= d.push(s.last()));
        assert(r.to_multiset() =~= s.to_multiset().insert(e));
    }
}

/// The stable sort is ordered by key and rearranges its input.
pub proof fn lemma_stable_sort_sorted<T>(s: Seq<(SortKey, T)>)
    ensures
        keys_sorted(keys_of(stable_sort(s))),
        stable_sort(s).len() == s.len(),
        stable_sort(s).to_multiset() == s.to_multiset(),
    decreases s.len(),
{
    broadcast use vstd::seq_lib::group_seq_properties;
    if s.len() > 0 {
        lemma_stable_sort_sorted(s.drop_last());
        lemma_insert_sorted(stable_sort(s.drop_last()), s.last());
        assert(s =~= s.drop_last().push(s.last()));
    }
}

/// Every item of a sort by keys is one of the items it was given.
pub proof fn lemma_sort_items_from<T>(keys: Seq<SortKey>, items: Seq<T>)
    requires
        keys.len() == items.len(),
    ensures
        sort_by_keys(keys, items).len() == items.len(),
        forall|i: int|
            0 <= i < items.len() ==> exists|j: int|
                0 <= j < items.len() && items[j] == #[trigger] sort_by_keys(keys, items)[i],
{
    broadcast use vstd::seq_lib::group_seq_properties;
    let z = zip_keys(keys, items);
    lemma_stable_sort_sorted(z);
    let st = stable_sort(z);
    assert forall|i: int| 0 <= i < items.len() implies exists|j: int|
        0 <= j < items.len() && items[j] == #[trigger] sort_by_keys(keys, items)[i] by {
        let pair = st[i];
        assert(st.contains(pair));
        assert(st.to_multiset().count(pair) > 0);
        assert(z.to_multiset().count(pair) > 0);
        assert(z.contains(pair));
        let j = choose|j: int| 0 <= j < z.len() && z[j] == pair;
        assert(items[j] == sort_by_keys(keys, items)[i]);
    }
}

/// Items sorted by a key computed from each item come out in key order.
pub proof fn lemma_sort_by_own_keys<T>(items: Seq<T>, f: spec_fn(T) -> SortKey)
    ensures
        sort_by_keys(items.map_values(f), items).len() == items.len(),
        forall|i: int, j: int|
            0 <= i < j < items.len() ==> key_le(
                f(#[trigger] sort_by_keys(items.map_values(f), items)[i]),
                f(#[trigger] sort_by_keys(items.map_values(f), items)[j]),
            ),
{
    broadcast use vstd::seq_lib::group_seq_properties;
    let z = zip_keys(items.map_values(f), items);
    lemma_stable_sort_sorted(z);
    let st = stable_sort(z);
    assert forall|i: int| 0 <= i < st.len() implies (#[trigger] st[i]).0 == f(st[i].1) by {
        let pair = st[i];
        assert(st.contains(pair));
        assert(st.to_multiset().count(pair) > 0);
        assert(z.to_multiset().count(pair) > 0);
        assert(z.contains(pair));
        let j = choose|j: int| 0 <= j < z.len() && z[j] == pair;
        assert(z[j].0 == f(z[j].1));
    }
    assert forall|i: int, j: int| 0 <= i < j < items.len() implies key_le(
        f(#[trigger] sort_by_keys(items.map_values(f), items)[i]),
        f(#[trigger] sort_by_keys(items.map_values(f), items)[j]),
    ) by {
        assert(keys_of(st)[i] == st[i].0);
        assert(keys_of(st)[j] == st[j].0);
    }
}

/// `items` stably sorted by `keys`: the order of `slice::sort_by_key`.
pub fn sort_by_keys_exec<T>(keys: Vec<SortKey>, items: Vec<T>) -> (r: Vec<T>)
    requires
        keys.len() == items.len(),
    ensures
        r@ == sort_by_keys(keys@, items@),
{
    let ghost input = zip_keys(keys@, items@);
    let mut sk: Vec<SortKey> = Vec::new();
    let mut si: Vec<T> = Vec::new();
    let mut keys = keys;
    let mut items = items;
    let ghost n = items.len() as int;
    let mut i: usize = 0;
    while items.len() > 0
        invariant
            keys.len() == items.len(),
            i as int + items.len() == n,
            n == input.len(),
            n <= usize::MAX,
            forall|k: int| 0 <= k < items.len() ==> (#[trigger] keys@[k], items@[k]) == input[i + k],
            sk.len() == si.len(),
            zip_keys(sk@, si@) == stable_sort(input.take(i as int)),
        decreases items.len(),
    {
        let k = keys.remove(0);
        let it = items.remove(0);
        let ghost e = (k, it);
        assert(e == input[i as int]);
        let ghost before = zip_keys(sk@, si@);
        let mut p: usize = sk.len();
        while p > 0 && !key_le_exec(sk[p - 1], k)
            invariant
                p <= sk.len(),
                sk.len() == si.len(),
                before == zip_keys(sk@, si@),
                forall|q: int| p <= q < sk.len() ==> !key_le(#[trigger] sk@[q], k),
            decreases p,
        {
            p -= 1;
        }
        proof {
            lemma_insert_at(before, e, p as int);
            assert(input.take(i + 1).drop_last() =~= input.take(i as int));
            assert(input.take(i + 1).last() == e);
        }
        sk.insert(p, k);
        si.insert(p, it);
        proof {
            assert(zip_keys(sk@, si@) =~= before.take(p as int).push(e) + before.skip(p as int));
        }
        i += 1;
    }
    proof {
        assert(input.take(n) =~= input);
        let z = zip_keys(sk@, si@);
        assert(items_of(z) =~= si@);
    }
    si
}


pub open spec fn map_pairs<T, U>(s: Seq<(SortKey, T)>, f: spec_fn(T) -> U) -> Seq<(SortKey, U)> {
    s.map_values(|p: (SortKey, T)| (p.0, f(p.1)))
}

proof fn lemma_insert_map<T, U>(s: Seq<(SortKey, T)>, e: (SortKey, T), f: spec_fn(T) -> U)
    ensures
        insert_stable(map_pairs(s, f), (e.0, f(e.1))) == map_pairs(insert_stable(s, e), f),
    decreases s.len(),
{
    if s.len() == 0 || key_le(s.last().0, e.0) {
        assert(map_pairs(s.push(e), f) =~= map_pairs(s, f).push((e.0, f(e.1))));
    } else {
        assert(map_pairs(s, f).drop_last() =~= map_pairs(s.drop_last(), f));
        lemma_insert_map(s.drop_last(), e, f);
        assert(map_pairs(insert_stable(s.drop_last(), e).push(s.last()), f) =~= map_pairs(
            insert_stable(s.drop_last(), e),
            f,
        ).push((s.last().0, f(s.last().1))));
    }
}

proof fn lemma_sort_map_pairs<T, U>(s: Seq<(SortKey, T)>, f: spec_fn(T) -> U)
    ensures
        stable_sort(map_pairs(s, f)) == map_pairs(stable_sort(s), f),
    decreases s.len(),
{
    if s.len() > 0 {
        assert(map_pairs(s, f).drop_last() =~= map_pairs(s.drop_last(), f));
        lemma_sort_map_pairs(s.drop_last(), f);
        lemma_insert_map(stable_sort(s.drop_last()), s.last(), f);
    } else {
        assert(map_pairs(s, f) =~= map_pairs(stable_sort(s), f));
    }
}

/// Sorting by keys commutes with transforming the items.
pub proof fn lemma_sort_map<T, U>(keys: Seq<SortKey>, items: Seq<T>, f: spec_fn(T) -> U)
    requires
        keys.len() == items.len(),
    ensures
        sort_by_keys(keys, items.map_values(f)) == sort_by_keys(keys, items).map_values(f),
{
    assert(zip_keys(keys, items.map_values(f)) =~= map_pairs(zip_keys(keys, items), f));
    lemma_sort_map_pairs(zip_keys(keys, items), f);
    let st = stable_sort(zip_keys(keys, items));
    assert(items_of(map_pairs(st, f)) =~= items_of(st).map_values(f));
}

} // verus!
