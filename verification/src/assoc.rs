//! Association lists: sequences of (key, value) pairs with distinct keys,
//! read as maps.
use vstd::prelude::*;

verus! {

/// No key occurs twice.
pub open spec fn pairs_distinct<K, V>(v: Seq<(K, V)>) -> bool {
    forall|i: int, j: int| 0 <= i < j < v.len() ==> #[trigger] v[i].0 != #[trigger] v[j].0
}

/// The map the pairs stand for (a later pair wins, though with distinct
/// keys there is none).
pub open spec fn pairs_map<K, V>(v: Seq<(K, V)>) -> Map<K, V>
    decreases v.len(),
{
    if v.len() == 0 {
        Map::empty()
    } else {
        pairs_map(v.drop_last()).insert(v.last().0, v.last().1)
    }
}

/// The pairs that satisfy `f`, in order.
pub open spec fn keep_pairs<K, V>(v: Seq<(K, V)>, f: spec_fn((K, V)) -> bool) -> Seq<(K, V)>
    decreases v.len(),
{
    if v.len() == 0 {
        Seq::empty()
    } else if f(v.last()) {
        keep_pairs(v.drop_last(), f).push(v.last())
    } else {
        keep_pairs(v.drop_last(), f)
    }
}

/// A key is in the map exactly when some pair has it.
pub proof fn lemma_pairs_map_dom<K, V>(v: Seq<(K, V)>, k: K)
    ensures
        pairs_map(v).contains_key(k) <==> exists|i: int| 0 <= i < v.len() && v[i].0 == k,
    decreases v.len(),
{
    if v.len() > 0 {
        lemma_pairs_map_dom(v.drop_last(), k);
        if pairs_map(v).contains_key(k) && k != v.last().0 {
            let i = choose|i: int| 0 <= i < v.drop_last().len() && v.drop_last()[i].0 == k;
            assert(v[i].0 == k);
        }
        if exists|i: int| 0 <= i < v.len() && v[i].0 == k {
            let i = choose|i: int| 0 <= i < v.len() && v[i].0 == k;
            if i < v.len() - 1 {
                assert(v.drop_last()[i].0 == k);
            }
        }
    }
}

/// With distinct keys, the value of a pair's key is that pair's value.
pub proof fn lemma_pairs_map_index<K, V>(v: Seq<(K, V)>, i: int)
    requires
        pairs_distinct(v),
        0 <= i < v.len(),
    ensures
        pairs_map(v).contains_key(v[i].0),
        pairs_map(v)[v[i].0] == v[i].1,
    decreases v.len(),
{
    if i < v.len() - 1 {
        let init = v.drop_last();
        assert(pairs_distinct(init)) by {
            assert forall|a: int, b: int| 0 <= a < b < init.len() implies #[trigger] init[a].0 != #[trigger] init[b].0 by {
                assert(v[a].0 != v[b].0);
            }
        }
        assert(init[i] == v[i]);
        lemma_pairs_map_index(init, i);
        assert(v[i].0 != v.last().0);
    }
}

/// Each kept pair is a pair of `v`.
pub proof fn lemma_keep_from<K, V>(v: Seq<(K, V)>, f: spec_fn((K, V)) -> bool, j: int)
    requires
        0 <= j < keep_pairs(v, f).len(),
    ensures
        exists|i: int| 0 <= i < v.len() && v[i] == keep_pairs(v, f)[j],
    decreases v.len(),
{
    let init = v.drop_last();
    if f(v.last()) && j == keep_pairs(init, f).len() {
        assert(v[v.len() - 1] == keep_pairs(v, f)[j]);
    } else {
        lemma_keep_from(init, f, j);
        let i = choose|i: int| 0 <= i < init.len() && init[i] == keep_pairs(init, f)[j];
        assert(v[i] == keep_pairs(v, f)[j]);
    }
}

/// Keeping some pairs keeps keys distinct.
pub proof fn lemma_keep_distinct<K, V>(v: Seq<(K, V)>, f: spec_fn((K, V)) -> bool)
    requires
        pairs_distinct(v),
    ensures
        pairs_distinct(keep_pairs(v, f)),
    decreases v.len(),
{
    if v.len() > 0 {
        let init = v.drop_last();
        assert(pairs_distinct(init)) by {
            assert forall|a: int, b: int| 0 <= a < b < init.len() implies #[trigger] init[a].0 != #[trigger] init[b].0 by {
                assert(v[a].0 != v[b].0);
            }
        }
        lemma_keep_distinct(init, f);
        if f(v.last()) {
            let k = keep_pairs(init, f);
            let r = keep_pairs(v, f);
            assert forall|a: int, b: int| 0 <= a < b < r.len() implies #[trigger] r[a].0 != #[trigger] r[b].0 by {
                if b == k.len() {
                    lemma_keep_from(init, f, a);
                    let i = choose|i: int| 0 <= i < init.len() && init[i] == k[a];
                    assert(v[i].0 != v[v.len() - 1].0);
                } else {
                    assert(k[a].0 != k[b].0);
                }
            }
        }
    }
}

/// The map of the kept pairs: the entries of the map that satisfy `f`.
pub proof fn lemma_keep_map<K, V>(v: Seq<(K, V)>, f: spec_fn((K, V)) -> bool)
    requires
        pairs_distinct(v),
    ensures
        forall|k: K|
            #[trigger] pairs_map(keep_pairs(v, f)).contains_key(k) <==> (pairs_map(v).contains_key(k) && f(
                (k, pairs_map(v)[k]),
            )),
        forall|k: K|
            #[trigger] pairs_map(keep_pairs(v, f)).contains_key(k) ==> pairs_map(keep_pairs(v, f))[k]
                == pairs_map(v)[k],
    decreases v.len(),
{
    if v.len() > 0 {
        let init = v.drop_last();
        let l = v.last();
        assert(pairs_distinct(init)) by {
            assert forall|a: int, b: int| 0 <= a < b < init.len() implies #[trigger] init[a].0 != #[trigger] init[b].0 by {
                assert(v[a].0 != v[b].0);
            }
        }
        lemma_keep_map(init, f);
        lemma_pairs_map_dom(init, l.0);
        assert(!pairs_map(init).contains_key(l.0)) by {
            if pairs_map(init).contains_key(l.0) {
                let i = choose|i: int| 0 <= i < init.len() && init[i].0 == l.0;
                assert(v[i].0 != v[v.len() - 1].0);
            }
        }
        let kv = keep_pairs(v, f);
        let ki = keep_pairs(init, f);
        assert(pairs_map(v) == pairs_map(init).insert(l.0, l.1));
        if f(l) {
            assert(kv == ki.push(l));
            assert(kv.drop_last() =~= ki);
            assert(pairs_map(kv) == pairs_map(ki).insert(l.0, l.1));
        } else {
            assert(kv == ki);
        }
        assert forall|k: K| #[trigger] pairs_map(kv).contains_key(k) <==> (pairs_map(v).contains_key(k) && f(
            (k, pairs_map(v)[k]),
        )) by {
            if k != l.0 {
                assert(pairs_map(ki).contains_key(k) <==> (pairs_map(init).contains_key(k) && f((k, pairs_map(init)[k]))));
            }
        }
        assert forall|k: K| #[trigger] pairs_map(kv).contains_key(k) implies pairs_map(kv)[k] == pairs_map(v)[k] by {
            if k != l.0 {
                assert(pairs_map(ki).contains_key(k) ==> pairs_map(ki)[k] == pairs_map(init)[k]);
            }
        }
    }
}

/// Pushing a pair with a new key keeps keys distinct.
pub proof fn lemma_push_distinct<K, V>(v: Seq<(K, V)>, p: (K, V))
    requires
        pairs_distinct(v),
        !pairs_map(v).contains_key(p.0),
    ensures
        pairs_distinct(v.push(p)),
{
    lemma_pairs_map_dom(v, p.0);
    let w = v.push(p);
    assert forall|a: int, b: int| 0 <= a < b < w.len() implies #[trigger] w[a].0 != #[trigger] w[b].0 by {
        if b == v.len() {
            assert(w[a] == v[a]);
        } else {
            assert(v[a].0 != v[b].0);
        }
    }
}

} // verus!
