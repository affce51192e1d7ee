//! The grouping engine: partitions rows by a two-dimensional string key
//! into per-key value lists, in order of first appearance.

use vstd::prelude::*;
use crate::text::str_eq;

verus! {

/// View of a grouping key: the views of its two dimension strings.
pub open spec fn key_view(k: (String, String)) -> (Seq<char>, Seq<char>) {
    (k.0@, k.1@)
}

/// View of one row's key/value pair.
pub open spec fn pair_view(p: ((String, String), (i64, i64, i64))) -> (
    (Seq<char>, Seq<char>),
    (i64, i64, i64),
) {
    (key_view(p.0), p.1)
}

/// Views of a whole pair list.
pub open spec fn pairs_view(s: Seq<((String, String), (i64, i64, i64))>) -> Seq<
    ((Seq<char>, Seq<char>), (i64, i64, i64)),
> {
    s.map_values(|p: ((String, String), (i64, i64, i64))| pair_view(p))
}

/// The distinct keys of `ps`, in order of first appearance.
pub open spec fn keys_of(ps: Seq<((Seq<char>, Seq<char>), (i64, i64, i64))>) -> Seq<
    (Seq<char>, Seq<char>),
>
    decreases ps.len(),
{
    if ps.len() == 0 {
        Seq::empty()
    } else {
        let prev = keys_of(ps.drop_last());
        if prev.contains(ps.last().0) {
            prev
        } else {
            prev.push(ps.last().0)
        }
    }
}

/// The values of the rows of `ps` whose key is `k`, in row order.
pub open spec fn items_of(
    ps: Seq<((Seq<char>, Seq<char>), (i64, i64, i64))>,
    k: (Seq<char>, Seq<char>),
) -> Seq<(i64, i64, i64)> {
    ps.filter(|p: ((Seq<char>, Seq<char>), (i64, i64, i64))| p.0 == k).map_values(
        |p: ((Seq<char>, Seq<char>), (i64, i64, i64))| p.1,
    )
}

proof fn lemma_keys_push(
    ps: Seq<((Seq<char>, Seq<char>), (i64, i64, i64))>,
    q: ((Seq<char>, Seq<char>), (i64, i64, i64)),
)
    ensures
        keys_of(ps.push(q)) == (if keys_of(ps).contains(q.0) {
            keys_of(ps)
        } else {
            keys_of(ps).push(q.0)
        }),
{
    assert(ps.push(q).drop_last() =~= ps);
    assert(ps.push(q).last() == q);
}

proof fn lemma_items_push(
    ps: Seq<((Seq<char>, Seq<char>), (i64, i64, i64))>,
    q: ((Seq<char>, Seq<char>), (i64, i64, i64)),
    k: (Seq<char>, Seq<char>),
)
    ensures
        items_of(ps.push(q), k) == (if q.0 == k {
            items_of(ps, k).push(q.1)
        } else {
            items_of(ps, k)
        }),
{
    reveal(Seq::filter);
    let pred = |p: ((Seq<char>, Seq<char>), (i64, i64, i64))| p.0 == k;
    let proj = |p: ((Seq<char>, Seq<char>), (i64, i64, i64))| p.1;
    assert(ps.push(q).drop_last() =~= ps);
    assert(ps.push(q).last() == q);
    if pred(q) {
        assert(ps.push(q).filter(pred) == ps.filter(pred).push(q));
        assert(ps.filter(pred).push(q).map_values(proj) =~= ps.filter(pred).map_values(
            proj,
        ).push(q.1));
    } else {
        assert(ps.push(q).filter(pred) == ps.filter(pred));
    }
}

proof fn lemma_filter_none(
    ps: Seq<((Seq<char>, Seq<char>), (i64, i64, i64))>,
    k: (Seq<char>, Seq<char>),
)
    requires
        forall|j: int| 0 <= j < ps.len() ==> (#[trigger] ps[j]).0 != k,
    ensures
        items_of(ps, k).len() == 0,
    decreases ps.len(),
{
    reveal(Seq::filter);
    if ps.len() > 0 {
        assert(forall|j: int|
            0 <= j < ps.drop_last().len() ==> (#[trigger] ps.drop_last()[j]).0 != k);
        lemma_filter_none(ps.drop_last(), k);
        assert(ps[ps.len() - 1].0 != k);
        assert(!(|p: ((Seq<char>, Seq<char>), (i64, i64, i64))| p.0 == k)(ps.last()));
    }
}

/// Grouping is a partition of the rows: the distinct keys carry no
/// duplicates, every row's key is among them, and for every key and value
/// the group of that key holds the value exactly as often as the rows do —
/// so the union of the groups is the row set and every row lands in
/// exactly one group.
pub proof fn lemma_grouping_partition(ps: Seq<((Seq<char>, Seq<char>), (i64, i64, i64))>)
    ensures
        keys_of(ps).no_duplicates(),
        forall|j: int| 0 <= j < ps.len() ==> keys_of(ps).contains((#[trigger] ps[j]).0),
        forall|k: (Seq<char>, Seq<char>)| keys_of(ps).contains(k) ==> exists|j: int|
            0 <= j < ps.len() && (#[trigger] ps[j]).0 == k,
        forall|k: (Seq<char>, Seq<char>), v: (i64, i64, i64)| #[trigger] items_of(
            ps,
            k,
        ).to_multiset().count(v) == ps.to_multiset().count(((k, v))),
    decreases ps.len(),
{
    broadcast use vstd::seq_lib::group_to_multiset_ensures;
    broadcast use vstd::multiset::group_multiset_axioms;

    reveal(Seq::filter);
    if ps.len() == 0 {
        assert forall|k: (Seq<char>, Seq<char>), v: (i64, i64, i64)| #[trigger] items_of(
            ps,
            k,
        ).to_multiset().count(v) == ps.to_multiset().count(((k, v))) by {
            assert(items_of(ps, k) =~= Seq::<(i64, i64, i64)>::empty());
            assert(!items_of(ps, k).contains(v));
            assert(!ps.contains((k, v)));
        }
    } else {
        let butlast = ps.drop_last();
        let q = ps.last();
        lemma_grouping_partition(butlast);
        assert(ps =~= butlast.push(q));
        lemma_keys_push(butlast, q);
        vstd::seq_lib::to_multiset_build(butlast, q);

        // Key list stays duplicate-free, and covers exactly the row keys.
        if !keys_of(butlast).contains(q.0) {
            assert(keys_of(ps) == keys_of(butlast).push(q.0));
        }
        assert forall|j: int| 0 <= j < ps.len() implies keys_of(ps).contains(
            (#[trigger] ps[j]).0,
        ) by {
            if j < ps.len() - 1 {
                assert(ps[j] == butlast[j]);
                assert(keys_of(butlast).contains(butlast[j].0));
                let w = choose|w: int|
                    0 <= w < keys_of(butlast).len() && keys_of(butlast)[w] == butlast[j].0;
                assert(keys_of(ps)[w] == butlast[j].0);
            } else {
                if keys_of(butlast).contains(q.0) {
                    let w = choose|w: int|
                        0 <= w < keys_of(butlast).len() && keys_of(butlast)[w] == q.0;
                    assert(keys_of(ps)[w] == q.0);
                } else {
                    assert(keys_of(ps).last() == q.0);
                }
            }
        }
        assert forall|k: (Seq<char>, Seq<char>)| keys_of(ps).contains(k) implies exists|j: int|
            0 <= j < ps.len() && (#[trigger] ps[j]).0 == k by {
            if keys_of(butlast).contains(k) {
                let j = choose|j: int| 0 <= j < butlast.len() && (#[trigger] butlast[j]).0 == k;
                assert(ps[j].0 == k);
            } else {
                assert(k == q.0);
                assert(ps[ps.len() - 1].0 == k);
            }
        }

        // Occurrence counts: the last row adds one occurrence to exactly
        // the group of its own key.
        assert forall|k: (Seq<char>, Seq<char>), v: (i64, i64, i64)| #[trigger] items_of(
            ps,
            k,
        ).to_multiset().count(v) == ps.to_multiset().count(((k, v))) by {
            lemma_items_push(butlast, q, k);
            if q.0 == k {
                vstd::seq_lib::to_multiset_build(items_of(butlast, k), q.1);
            }
        }
    }
}

/// Every value in the group of key `k` comes from a row of `ps` with key
/// `k`.
pub proof fn lemma_items_values(ps: Seq<((Seq<char>, Seq<char>), (i64, i64, i64))>, k: (Seq<char>, Seq<char>))
    ensures
        forall|m: int| 0 <= m < items_of(ps, k).len() ==> ps.contains(
            ((k, #[trigger] items_of(ps, k)[m])),
        ),
{
    broadcast use vstd::seq_lib::group_to_multiset_ensures;

    lemma_grouping_partition(ps);
    assert forall|m: int| 0 <= m < items_of(ps, k).len() implies ps.contains(
        ((k, #[trigger] items_of(ps, k)[m])),
    ) by {
        let v = items_of(ps, k)[m];
        assert(items_of(ps, k).contains(v));
        assert(items_of(ps, k).to_multiset().count(v) > 0);
        assert(ps.to_multiset().count(((k, v))) > 0);
        assert(ps.contains((k, v)));
        let j = choose|j: int| 0 <= j < ps.len() && ps[j] == ((k, v));
        assert(ps[j] == ((k, v)));
    }
}

/// There are groups exactly when there are rows: an empty group set
/// signals an empty row set.
pub proof fn lemma_keys_empty(ps: Seq<((Seq<char>, Seq<char>), (i64, i64, i64))>)
    ensures
        (keys_of(ps).len() == 0) <==> (ps.len() == 0),
    decreases ps.len(),
{
    if ps.len() > 0 {
        let prev = keys_of(ps.drop_last());
        if prev.contains(ps.last().0) {
            assert(prev.len() > 0);
        }
    }
}

/// There are never more groups than rows.
pub proof fn lemma_keys_len(ps: Seq<((Seq<char>, Seq<char>), (i64, i64, i64))>)
    ensures
        keys_of(ps).len() <= ps.len(),
    decreases ps.len(),
{
    if ps.len() > 0 {
        lemma_keys_len(ps.drop_last());
    }
}

/// A group never holds more values than there are rows.
pub proof fn lemma_items_len(
    ps: Seq<((Seq<char>, Seq<char>), (i64, i64, i64))>,
    k: (Seq<char>, Seq<char>),
)
    ensures
        items_of(ps, k).len() <= ps.len(),
{
    ps.lemma_filter_len(|p: ((Seq<char>, Seq<char>), (i64, i64, i64))| p.0 == k);
}

/// Partitions the key/value pairs into groups, keys in order of first
/// appearance, each group holding the values of its rows in row order.
pub fn group_pairs(pairs: &Vec<((String, String), (i64, i64, i64))>) -> (groups: Vec<
    ((String, String), Vec<(i64, i64, i64)>),
>)
    ensures
        groups@.len() == keys_of(pairs_view(pairs@)).len(),
        forall|g: int| 0 <= g < groups@.len() ==> key_view((#[trigger] groups@[g]).0) == keys_of(
            pairs_view(pairs@),
        )[g],
        forall|g: int| 0 <= g < groups@.len() ==> (#[trigger] groups@[g]).1@ == items_of(
            pairs_view(pairs@),
            key_view(groups@[g].0),
        ),
{
    let ghost pv = pairs_view(pairs@);
    let n = pairs.len();
    let mut groups: Vec<((String, String), Vec<(i64, i64, i64)>)> = Vec::new();
    let mut i: usize = 0;
    while i < n
        invariant
            0 <= i <= n == pairs@.len(),
            pv == pairs_view(pairs@),
            groups@.len() == keys_of(pairs_view(pairs@.take(i as int))).len(),
            forall|g: int| 0 <= g < groups@.len() ==> key_view((#[trigger] groups@[g]).0)
                == keys_of(pairs_view(pairs@.take(i as int)))[g],
            forall|g: int| 0 <= g < groups@.len() ==> (#[trigger] groups@[g]).1@ == items_of(
                pairs_view(pairs@.take(i as int)),
                key_view(groups@[g].0),
            ),
        decreases n - i,
    {
        let ghost pre = pairs_view(pairs@.take(i as int));
        let ghost q = pair_view(pairs@[i as int]);
        proof {
            assert(pairs@.take(i + 1) =~= pairs@.take(i as int).push(pairs@[i as int]));
            assert(pairs_view(pairs@.take(i + 1)) =~= pre.push(q));
            lemma_keys_push(pre, q);
            lemma_grouping_partition(pre);
        }
        let gn = groups.len();
        let mut g: usize = 0;
        loop
            invariant
                0 <= g <= gn == groups@.len(),
                pv == pairs_view(pairs@),
                forall|m: int| 0 <= m < g ==> key_view((#[trigger] groups@[m]).0) != q.0,
                forall|m: int| 0 <= m < gn ==> key_view((#[trigger] groups@[m]).0) == keys_of(
                    pre,
                )[m],
                gn == keys_of(pre).len(),
                0 <= i < n == pairs@.len(),
                q == pair_view(pairs@[i as int]),
            ensures
                0 <= g <= gn,
                forall|m: int| 0 <= m < g ==> key_view((#[trigger] groups@[m]).0) != q.0,
                g < gn ==> key_view(groups@[g as int].0) == q.0,
            decreases gn - g,
        {
            if g >= gn {
                break;
            }
            let same = {
                let k = &groups[g].0;
                str_eq(k.0.as_str(), pairs[i].0.0.as_str()) && str_eq(
                    k.1.as_str(),
                    pairs[i].0.1.as_str(),
                )
            };
            if same {
                break;
            }
            g = g + 1;
        }
        if g < gn {
            // An existing group: append this row's values.
            proof {
                assert(keys_of(pre)[g as int] == q.0);
                assert(keys_of(pre).contains(q.0));
                assert(keys_of(pre.push(q)) == keys_of(pre));
            }
            let ghost g0 = groups@;
            let mut entry = groups.remove(g);
            entry.1.push(pairs[i].1);
            groups.insert(g, entry);
            proof {
                assert(groups@ =~= g0.update(g as int, groups@[g as int]));
                assert(groups@[g as int].0 == g0[g as int].0);
                assert(groups@[g as int].1@ == g0[g as int].1@.push(q.1));
                assert forall|m: int| 0 <= m < groups@.len() implies (#[trigger] groups@[m]).1@
                    == items_of(pre.push(q), key_view(groups@[m].0)) by {
                    lemma_items_push(pre, q, key_view(groups@[m].0));
                    if m != g {
                        // Keys are distinct, so other groups keep their lists.
                        assert(groups@[m] == g0[m]);
                        assert(keys_of(pre)[m] == key_view(groups@[m].0));
                        assert(keys_of(pre)[g as int] == q.0);
                        assert(keys_of(pre).no_duplicates());
                        assert(key_view(groups@[m].0) != q.0);
                    }
                }
            }
        } else {
            // A new key: open a new group holding this row's values.
            proof {
                assert forall|m: int| 0 <= m < keys_of(pre).len() implies keys_of(pre)[m]
                    != q.0 by {
                    assert(key_view(groups@[m].0) == keys_of(pre)[m]);
                    assert(key_view(groups@[m].0) != q.0);
                }
                assert(!keys_of(pre).contains(q.0));
                assert(keys_of(pre.push(q)) == keys_of(pre).push(q.0));
            }
            let key = (pairs[i].0.0.clone(), pairs[i].0.1.clone());
            let val = pairs[i].1;
            let mut members: Vec<(i64, i64, i64)> = Vec::new();
            members.push(val);
            groups.push((key, members));
            proof {
                assert forall|m: int| 0 <= m < groups@.len() implies (#[trigger] groups@[m]).1@
                    == items_of(pre.push(q), key_view(groups@[m].0)) by {
                    lemma_items_push(pre, q, key_view(groups@[m].0));
                    if m < groups@.len() - 1 {
                        assert(keys_of(pre)[m] == key_view(groups@[m].0));
                        assert(key_view(groups@[m].0) != q.0);
                    } else {
                        assert(key_view(groups@[m].0) == q.0);
                        lemma_grouping_partition(pre);
                        assert forall|j: int| 0 <= j < pre.len() implies (#[trigger] pre[j]).0
                            != q.0 by {
                            assert(keys_of(pre).contains(pre[j].0));
                        }
                        lemma_filter_none(pre, q.0);
                        assert(items_of(pre, q.0).len() == 0);
                        assert(items_of(pre, q.0) =~= Seq::<(i64, i64, i64)>::empty());
                        assert(groups@[m].1@ =~= seq![q.1]);
                        assert(items_of(pre.push(q), q.0) =~= items_of(pre, q.0).push(q.1));
                    }
                }
            }
        }
        i = i + 1;
    }
    proof {
        assert(pairs@.take(n as int) =~= pairs@);
    }
    groups
}

} // verus!
