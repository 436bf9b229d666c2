//! Association sequences: key-value rows with distinct string keys, and
//! the finite map they denote. The store's tables are reasoned about
//! through this map view.

use vstd::prelude::*;

verus! {

/// Whether the rows carry distinct keys.
pub open spec fn assoc_wf<T>(s: Seq<(Seq<char>, T)>) -> bool {
    forall|i: int, j: int| 0 <= i < j < s.len() ==> (#[trigger] s[i]).0 != (#[trigger] s[j]).0
}

/// Whether some row carries the key.
pub open spec fn assoc_has<T>(s: Seq<(Seq<char>, T)>, k: Seq<char>) -> bool {
    exists|i: int| 0 <= i < s.len() && (#[trigger] s[i]).0 == k
}

/// The position of the row carrying the key.
pub open spec fn assoc_idx<T>(s: Seq<(Seq<char>, T)>, k: Seq<char>) -> int {
    choose|i: int| 0 <= i < s.len() && (#[trigger] s[i]).0 == k
}

/// The finite map the rows denote.
pub open spec fn assoc_map<T>(s: Seq<(Seq<char>, T)>) -> Map<Seq<char>, T> {
    Map::new(|k: Seq<char>| assoc_has(s, k), |k: Seq<char>| s[assoc_idx(s, k)].1)
}

/// Under distinct keys, any row carrying a key is the row of that key.
pub proof fn lemma_assoc_at<T>(s: Seq<(Seq<char>, T)>, i: int)
    requires
        assoc_wf(s),
        0 <= i < s.len(),
    ensures
        assoc_has(s, s[i].0),
        assoc_idx(s, s[i].0) == i,
        assoc_map(s).contains_key(s[i].0),
        assoc_map(s)[s[i].0] == s[i].1,
{
    assert(assoc_has(s, s[i].0));
    let j = assoc_idx(s, s[i].0);
    if i < j {
        assert(s[i].0 != s[j].0);
    } else if j < i {
        assert(s[j].0 != s[i].0);
    }
}

/// The map's domain is exactly the keys of the rows.
pub proof fn lemma_assoc_contains<T>(s: Seq<(Seq<char>, T)>, k: Seq<char>)
    ensures
        assoc_map(s).contains_key(k) <==> assoc_has(s, k),
{
}

/// Appending a row with a fresh key inserts it into the map.
pub proof fn lemma_assoc_push<T>(s: Seq<(Seq<char>, T)>, k: Seq<char>, v: T)
    requires
        assoc_wf(s),
        !assoc_has(s, k),
    ensures
        assoc_wf(s.push((k, v))),
        assoc_map(s.push((k, v))) == assoc_map(s).insert(k, v),
{
    let t = s.push((k, v));
    assert forall|i: int, j: int| 0 <= i < j < t.len() implies (#[trigger] t[i]).0 != (
    #[trigger] t[j]).0 by {
        if j < s.len() {
            assert(t[i] == s[i] && t[j] == s[j]);
        } else {
            assert(t[j] == (k, v));
            assert(t[i] == s[i]);
            assert(!(s[i].0 == k));
        }
    };
    assert forall|q: Seq<char>| true implies #[trigger] assoc_map(t).contains_key(q)
        == assoc_map(s).insert(k, v).contains_key(q) by {
        if assoc_has(t, q) {
            let i = choose|i: int| 0 <= i < t.len() && (#[trigger] t[i]).0 == q;
            if i < s.len() {
                assert(s[i].0 == q);
                assert(assoc_has(s, q));
            }
        }
        if assoc_has(s, q) {
            let i = choose|i: int| 0 <= i < s.len() && (#[trigger] s[i]).0 == q;
            assert(t[i].0 == q);
            assert(assoc_has(t, q));
        }
        if q == k {
            assert(t[s.len() as int].0 == q);
            assert(assoc_has(t, q));
        }
    };
    assert forall|q: Seq<char>| assoc_map(t).contains_key(q) implies assoc_map(t)[q]
        == assoc_map(s).insert(k, v)[q] by {
        let i = assoc_idx(t, q);
        assert(0 <= i < t.len() && t[i].0 == q);
        if q == k {
            lemma_assoc_at(t, s.len() as int);
            assert(assoc_map(t)[q] == v);
        } else {
            assert(i < s.len());
            assert(s[i].0 == q);
            lemma_assoc_at(s, i);
            lemma_assoc_at(t, i);
        }
    };
    assert(assoc_map(t) =~= assoc_map(s).insert(k, v));
}

/// Updating the row of a key updates the map at that key.
pub proof fn lemma_assoc_update<T>(s: Seq<(Seq<char>, T)>, i: int, v: T)
    requires
        assoc_wf(s),
        0 <= i < s.len(),
    ensures
        assoc_wf(s.update(i, (s[i].0, v))),
        assoc_map(s.update(i, (s[i].0, v))) == assoc_map(s).insert(s[i].0, v),
{
    let k = s[i].0;
    let t = s.update(i, (k, v));
    assert forall|p: int, q: int| 0 <= p < q < t.len() implies (#[trigger] t[p]).0 != (
    #[trigger] t[q]).0 by {
        assert(t[p].0 == s[p].0 && t[q].0 == s[q].0);
    };
    assert forall|q: Seq<char>| true implies #[trigger] assoc_map(t).contains_key(q)
        == assoc_map(s).insert(k, v).contains_key(q) by {
        if assoc_has(t, q) {
            let p = choose|p: int| 0 <= p < t.len() && (#[trigger] t[p]).0 == q;
            assert(s[p].0 == q);
            assert(assoc_has(s, q));
        }
        if assoc_has(s, q) {
            let p = choose|p: int| 0 <= p < s.len() && (#[trigger] s[p]).0 == q;
            assert(t[p].0 == q);
            assert(assoc_has(t, q));
        }
    };
    assert forall|q: Seq<char>| assoc_map(t).contains_key(q) implies assoc_map(t)[q]
        == assoc_map(s).insert(k, v)[q] by {
        let p = assoc_idx(t, q);
        assert(0 <= p < t.len() && t[p].0 == q);
        lemma_assoc_at(t, p);
        if q == k {
            lemma_assoc_at(t, i);
        } else {
            assert(p != i);
            assert(t[p] == s[p]);
            lemma_assoc_at(s, p);
        }
    };
    assert(assoc_map(t) =~= assoc_map(s).insert(k, v));
}

/// Removing the row of a key removes the key from the map.
pub proof fn lemma_assoc_remove<T>(s: Seq<(Seq<char>, T)>, i: int)
    requires
        assoc_wf(s),
        0 <= i < s.len(),
    ensures
        assoc_wf(s.remove(i)),
        assoc_map(s.remove(i)) == assoc_map(s).remove(s[i].0),
{
    let k = s[i].0;
    let t = s.remove(i);
    assert forall|p: int, q: int| 0 <= p < q < t.len() implies (#[trigger] t[p]).0 != (
    #[trigger] t[q]).0 by {
        let sp: int = if p < i {
            p
        } else {
            p + 1
        };
        let sq: int = if q < i {
            q
        } else {
            q + 1
        };
        assert(t[p].0 == s[sp].0 && t[q].0 == s[sq].0);
    };
    assert forall|q: Seq<char>| true implies #[trigger] assoc_map(t).contains_key(q)
        == assoc_map(s).remove(k).contains_key(q) by {
        if assoc_has(t, q) {
            let p = choose|p: int| 0 <= p < t.len() && (#[trigger] t[p]).0 == q;
            let sp: int = if p < i {
                p
            } else {
                p + 1
            };
            assert(s[sp].0 == q);
            assert(assoc_has(s, q));
            if q == k {
                lemma_assoc_at(s, i);
                lemma_assoc_at(s, sp);
                assert(false);
            }
        }
        if assoc_has(s, q) && q != k {
            let p = choose|p: int| 0 <= p < s.len() && (#[trigger] s[p]).0 == q;
            assert(p != i);
            let tp: int = if p < i {
                p
            } else {
                p - 1
            };
            assert(t[tp].0 == q);
            assert(assoc_has(t, q));
        }
    };
    assert forall|q: Seq<char>| assoc_map(t).contains_key(q) implies assoc_map(t)[q]
        == assoc_map(s).remove(k)[q] by {
        let p = assoc_idx(t, q);
        assert(0 <= p < t.len() && t[p].0 == q);
        lemma_assoc_at(t, p);
        let sp: int = if p < i {
            p
        } else {
            p + 1
        };
        assert(s[sp].0 == q);
        lemma_assoc_at(s, sp);
    };
    assert(assoc_map(t) =~= assoc_map(s).remove(k));
}

/// Filtering rows restricts the map to the keys whose rows pass.
pub proof fn lemma_assoc_filter<T>(s: Seq<(Seq<char>, T)>, pred: spec_fn((Seq<char>, T)) -> bool)
    requires
        assoc_wf(s),
    ensures
        assoc_wf(s.filter(pred)),
        forall|k: Seq<char>|
            #[trigger] assoc_map(s.filter(pred)).contains_key(k) <==> (assoc_map(
                s,
            ).contains_key(k) && pred((k, assoc_map(s)[k]))),
        forall|k: Seq<char>|
            #[trigger] assoc_map(s.filter(pred)).contains_key(k) ==> assoc_map(s.filter(pred))[k]
                == assoc_map(s)[k],
    decreases s.len(),
{
    reveal(Seq::filter);
    if s.len() == 0 {
        assert forall|k: Seq<char>| true implies !assoc_has(s, k) by {}
    } else {
        let prefix = s.drop_last();
        let last = s.last();
        assert forall|i: int, j: int| 0 <= i < j < prefix.len() implies (#[trigger] prefix[i]).0
            != (#[trigger] prefix[j]).0 by {
            assert(prefix[i] == s[i] && prefix[j] == s[j]);
        };
        lemma_assoc_filter(prefix, pred);
        assert(!assoc_has(prefix, last.0)) by {
            if assoc_has(prefix, last.0) {
                let i = choose|i: int| 0 <= i < prefix.len() && (#[trigger] prefix[i]).0 == last.0;
                assert(s[i].0 == s[s.len() - 1].0);
            }
        };
        assert(!assoc_has(prefix.filter(pred), last.0)) by {
            if assoc_has(prefix.filter(pred), last.0) {
                assert(assoc_map(prefix.filter(pred)).contains_key(last.0));
                assert(assoc_map(prefix).contains_key(last.0));
            }
        };
        lemma_assoc_at(s, s.len() - 1);
        assert(assoc_map(s) =~= assoc_map(prefix).insert(last.0, last.1)) by {
            lemma_assoc_push(prefix, last.0, last.1);
            assert(prefix.push(last) =~= s);
        };
        if pred(last) {
            lemma_assoc_push(prefix.filter(pred), last.0, last.1);
            assert(s.filter(pred) == prefix.filter(pred).push(last));
            assert(assoc_map(s.filter(pred)) =~= assoc_map(prefix.filter(pred)).insert(
                last.0,
                last.1,
            ));
        } else {
            assert(s.filter(pred) == prefix.filter(pred));
        }
    }
}

/// A sequence without the key denotes a map without it.
pub proof fn lemma_assoc_absent<T>(s: Seq<(Seq<char>, T)>, k: Seq<char>)
    requires
        !assoc_has(s, k),
    ensures
        !assoc_map(s).contains_key(k),
{
}

} // verus!
