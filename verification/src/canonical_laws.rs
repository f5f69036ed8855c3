//! The canonical form of a JSON object depends only on its entries, not on
//! their order: objects with the same entries have the same digest.

use vstd::prelude::*;
use crate::json::{Json, sorted_insert, canonical, canonical_entries, digest_of};
use crate::state_memento::lemma_strictly_sorted_unique;
use crate::text::{seq_lt, strictly_sorted, lemma_seq_lt_irreflexive, lemma_seq_lt_asymmetric, lemma_seq_lt_transitive};

verus! {

/// The keys of an entry sequence.
pub open spec fn entry_keys(s: Seq<(Seq<char>, Json)>) -> Seq<Seq<char>> {
    Seq::new(s.len(), |i: int| s[i].0)
}

/// No key occurs twice.
pub open spec fn keys_distinct(s: Seq<(Seq<char>, Json)>) -> bool {
    forall|i: int, j: int| 0 <= i < s.len() && 0 <= j < s.len() && i != j ==> #[trigger] s[i].0 != #[trigger] s[j].0
}

/// Some entry has key `k`.
pub open spec fn has_key(s: Seq<(Seq<char>, Json)>, k: Seq<char>) -> bool {
    exists|i: int| 0 <= i < s.len() && #[trigger] s[i].0 == k
}

proof fn lemma_sorted_insert_new(s: Seq<(Seq<char>, Json)>, k: Seq<char>, v: Json)
    requires
        strictly_sorted(entry_keys(s)),
        !has_key(s, k),
    ensures
        strictly_sorted(entry_keys(sorted_insert(s, k, v))),
        forall|x: (Seq<char>, Json)| #[trigger] sorted_insert(s, k, v).contains(x) <==> (s.contains(x) || x == (k, v)),
        forall|x: Seq<char>| #[trigger] has_key(sorted_insert(s, k, v), x) <==> (has_key(s, x) || x == k),
    decreases s.len(),
{
    let r = sorted_insert(s, k, v);
    if s.len() == 0 {
        assert(r =~= seq![(k, v)]);
        assert forall|x: Seq<char>| #[trigger] has_key(r, x) <==> (has_key(s, x) || x == k) by {
            if x == k {
                assert(r[0].0 == k);
            }
        }
    } else {
        assert(s[0].0 != k) by {
            assert(entry_keys(s)[0] == s[0].0);
        }
        if seq_lt(k, s[0].0) {
            assert(r =~= seq![(k, v)] + s);
            assert forall|a: int, b: int| 0 <= a < b < entry_keys(r).len() implies seq_lt(#[trigger] entry_keys(r)[a], #[trigger] entry_keys(r)[b]) by {
                if a == 0 {
                    if b > 1 {
                        assert(seq_lt(entry_keys(s)[0], entry_keys(s)[b - 1]));
                        lemma_seq_lt_transitive(k, s[0].0, s[b - 1].0);
                    }
                } else {
                    assert(seq_lt(entry_keys(s)[a - 1], entry_keys(s)[b - 1]));
                }
            }
            assert forall|x: (Seq<char>, Json)| #[trigger] r.contains(x) <==> (s.contains(x) || x == (k, v)) by {
                if r.contains(x) {
                    let i = choose|i: int| 0 <= i < r.len() && r[i] == x;
                    if i > 0 {
                        assert(s[i - 1] == x);
                    }
                }
                if s.contains(x) {
                    let i = choose|i: int| 0 <= i < s.len() && s[i] == x;
                    assert(r[i + 1] == x);
                }
                if x == (k, v) {
                    assert(r[0] == x);
                }
            }
            assert forall|x: Seq<char>| #[trigger] has_key(r, x) <==> (has_key(s, x) || x == k) by {
                if has_key(r, x) {
                    let i = choose|i: int| 0 <= i < r.len() && #[trigger] r[i].0 == x;
                    if i > 0 {
                        assert(s[i - 1].0 == x);
                    }
                }
                if has_key(s, x) {
                    let i = choose|i: int| 0 <= i < s.len() && #[trigger] s[i].0 == x;
                    assert(r[i + 1].0 == x);
                }
                if x == k {
                    assert(r[0].0 == x);
                }
            }
        } else {
            let t = s.drop_first();
            assert(strictly_sorted(entry_keys(t))) by {
                assert forall|a: int, b: int| 0 <= a < b < entry_keys(t).len() implies seq_lt(#[trigger] entry_keys(t)[a], #[trigger] entry_keys(t)[b]) by {
                    assert(seq_lt(entry_keys(s)[a + 1], entry_keys(s)[b + 1]));
                }
            }
            assert(!has_key(t, k)) by {
                if has_key(t, k) {
                    let i = choose|i: int| 0 <= i < t.len() && #[trigger] t[i].0 == k;
                    assert(s[i + 1].0 == k);
                }
            }
            lemma_sorted_insert_new(t, k, v);
            let rt = sorted_insert(t, k, v);
            assert(r =~= seq![s[0]] + rt);
            lemma_seq_lt_irreflexive(k);
            crate::text::lemma_seq_lt_total(k, s[0].0);
            assert(seq_lt(s[0].0, k));
            assert forall|a: int, b: int| 0 <= a < b < entry_keys(r).len() implies seq_lt(#[trigger] entry_keys(r)[a], #[trigger] entry_keys(r)[b]) by {
                if a == 0 {
                    let y = rt[b - 1];
                    assert(rt.contains(y));
                    if y == (k, v) {
                    } else {
                        assert(t.contains(y));
                        let m = choose|m: int| 0 <= m < t.len() && t[m] == y;
                        assert(seq_lt(entry_keys(s)[0], entry_keys(s)[m + 1]));
                    }
                } else {
                    assert(seq_lt(entry_keys(rt)[a - 1], entry_keys(rt)[b - 1]));
                }
            }
            assert forall|x: (Seq<char>, Json)| #[trigger] r.contains(x) <==> (s.contains(x) || x == (k, v)) by {
                if r.contains(x) {
                    let i = choose|i: int| 0 <= i < r.len() && r[i] == x;
                    if i > 0 {
                        assert(rt.contains(rt[i - 1]));
                        if rt[i - 1] != (k, v) {
                            assert(t.contains(x));
                            let m = choose|m: int| 0 <= m < t.len() && t[m] == x;
                            assert(s[m + 1] == x);
                        }
                    } else {
                        assert(s[0] == x);
                    }
                }
                if s.contains(x) {
                    let i = choose|i: int| 0 <= i < s.len() && s[i] == x;
                    if i > 0 {
                        assert(t[i - 1] == x);
                        assert(rt.contains(x));
                        let m = choose|m: int| 0 <= m < rt.len() && rt[m] == x;
                        assert(r[m + 1] == x);
                    } else {
                        assert(r[0] == x);
                    }
                }
                if x == (k, v) {
                    assert(rt.contains(x));
                    let m = choose|m: int| 0 <= m < rt.len() && rt[m] == x;
                    assert(r[m + 1] == x);
                }
            }
            assert forall|x: Seq<char>| #[trigger] has_key(r, x) <==> (has_key(s, x) || x == k) by {
                if has_key(r, x) {
                    let i = choose|i: int| 0 <= i < r.len() && #[trigger] r[i].0 == x;
                    if i > 0 {
                        assert(rt[i - 1].0 == x);
                        assert(has_key(rt, x));
                        if x != k {
                            let m = choose|m: int| 0 <= m < t.len() && #[trigger] t[m].0 == x;
                            assert(s[m + 1].0 == x);
                        }
                    } else {
                        assert(s[0].0 == x);
                    }
                }
                if has_key(s, x) {
                    let i = choose|i: int| 0 <= i < s.len() && #[trigger] s[i].0 == x;
                    if i > 0 {
                        assert(t[i - 1].0 == x);
                        assert(has_key(t, x));
                        assert(has_key(rt, x));
                        let m = choose|m: int| 0 <= m < rt.len() && #[trigger] rt[m].0 == x;
                        assert(r[m + 1].0 == x);
                    } else {
                        assert(r[0].0 == x);
                    }
                }
                if x == k {
                    assert(has_key(rt, x));
                    let m = choose|m: int| 0 <= m < rt.len() && #[trigger] rt[m].0 == x;
                    assert(r[m + 1].0 == x);
                }
            }
        }
    }
}

/// The canonical entries of an object with distinct keys are sorted by key
/// and are the entries with their values in canonical form.
pub proof fn lemma_canonical_entries(e: Seq<(Seq<char>, Json)>)
    requires
        keys_distinct(e),
    ensures
        strictly_sorted(entry_keys(canonical_entries(e))),
        forall|x: (Seq<char>, Json)| #[trigger] canonical_entries(e).contains(x) <==> exists|i: int|
            0 <= i < e.len() && x == (#[trigger] e[i].0, canonical(e[i].1)),
        forall|x: Seq<char>| #[trigger] has_key(canonical_entries(e), x) <==> has_key(e, x),
    decreases e.len(),
{
    let c = canonical_entries(e);
    if e.len() == 0 {
        assert(c =~= Seq::<(Seq<char>, Json)>::empty());
        assert(entry_keys(c) =~= Seq::<Seq<char>>::empty());
    } else {
        let t = e.drop_last();
        assert(keys_distinct(t)) by {
            assert forall|i: int, j: int| 0 <= i < t.len() && 0 <= j < t.len() && i != j implies #[trigger] t[i].0 != #[trigger] t[j].0 by {
                assert(t[i] == e[i]);
                assert(t[j] == e[j]);
            }
        }
        lemma_canonical_entries(t);
        let ct = canonical_entries(t);
        let k = e.last().0;
        assert(!has_key(ct, k)) by {
            if has_key(t, k) {
                let i = choose|i: int| 0 <= i < t.len() && #[trigger] t[i].0 == k;
                assert(e[i].0 == e[e.len() - 1].0);
            }
        }
        lemma_sorted_insert_new(ct, k, canonical(e.last().1));
        assert forall|x: (Seq<char>, Json)| #[trigger] c.contains(x) <==> exists|i: int|
            0 <= i < e.len() && x == (#[trigger] e[i].0, canonical(e[i].1)) by {
            if c.contains(x) && x != (k, canonical(e.last().1)) {
                assert(ct.contains(x));
                let i = choose|i: int| 0 <= i < t.len() && x == (#[trigger] t[i].0, canonical(t[i].1));
                assert(e[i] == t[i]);
            }
            if x == (k, canonical(e.last().1)) {
                assert(x == (e[e.len() - 1].0, canonical(e[e.len() - 1].1)));
            }
            if exists|i: int| 0 <= i < e.len() && x == (#[trigger] e[i].0, canonical(e[i].1)) {
                let i = choose|i: int| 0 <= i < e.len() && x == (#[trigger] e[i].0, canonical(e[i].1));
                if i < e.len() - 1 {
                    assert(t[i] == e[i]);
                    assert(x == (t[i].0, canonical(t[i].1)));
                    assert(ct.contains(x));
                }
            }
        }
        assert forall|x: Seq<char>| #[trigger] has_key(c, x) <==> has_key(e, x) by {
            if has_key(t, x) {
                let i = choose|i: int| 0 <= i < t.len() && #[trigger] t[i].0 == x;
                assert(e[i].0 == x);
            }
            if has_key(e, x) {
                let i = choose|i: int| 0 <= i < e.len() && #[trigger] e[i].0 == x;
                if i < e.len() - 1 {
                    assert(t[i].0 == x);
                }
            }
        }
    }
}

proof fn lemma_sorted_entries_unique(a: Seq<(Seq<char>, Json)>, b: Seq<(Seq<char>, Json)>)
    requires
        strictly_sorted(entry_keys(a)),
        strictly_sorted(entry_keys(b)),
        forall|x: (Seq<char>, Json)| #[trigger] a.contains(x) <==> b.contains(x),
    ensures
        a == b,
{
    assert forall|t: Seq<char>| entry_keys(a).contains(t) <==> entry_keys(b).contains(t) by {
        if entry_keys(a).contains(t) {
            let i = choose|i: int| 0 <= i < entry_keys(a).len() && #[trigger] entry_keys(a)[i] == t;
            assert(a.contains(a[i]));
            assert(b.contains(a[i]));
            let m = choose|m: int| 0 <= m < b.len() && b[m] == a[i];
            assert(entry_keys(b)[m] == t);
        }
        if entry_keys(b).contains(t) {
            let i = choose|i: int| 0 <= i < entry_keys(b).len() && #[trigger] entry_keys(b)[i] == t;
            assert(b.contains(b[i]));
            assert(a.contains(b[i]));
            let m = choose|m: int| 0 <= m < a.len() && a[m] == b[i];
            assert(entry_keys(a)[m] == t);
        }
    }
    lemma_strictly_sorted_unique(entry_keys(a), entry_keys(b));
    assert(a.len() == entry_keys(a).len());
    assert forall|i: int| 0 <= i < a.len() implies a[i] == b[i] by {
        assert(a.contains(a[i]));
        assert(b.contains(a[i]));
        let m = choose|m: int| 0 <= m < b.len() && b[m] == a[i];
        assert(entry_keys(b)[m] == entry_keys(a)[i]);
        assert(entry_keys(b)[i] == entry_keys(a)[i]);
        if m != i {
            if m < i {
                assert(seq_lt(entry_keys(b)[m], entry_keys(b)[i]));
            } else {
                assert(seq_lt(entry_keys(b)[i], entry_keys(b)[m]));
            }
            lemma_seq_lt_irreflexive(entry_keys(b)[i]);
        }
    }
    assert(a =~= b);
}

/// Two JSON objects with the same entries, each key once, in whatever
/// order, have the same canonical form and so the same content digest.
pub proof fn lemma_digest_order_independent(e1: Seq<(Seq<char>, Json)>, e2: Seq<(Seq<char>, Json)>)
    requires
        keys_distinct(e1),
        keys_distinct(e2),
        forall|x: (Seq<char>, Json)| #[trigger] e1.contains(x) <==> e2.contains(x),
    ensures
        canonical(Json::Obj(e1)) == canonical(Json::Obj(e2)),
        digest_of(Json::Obj(e1)) == digest_of(Json::Obj(e2)),
{
    lemma_canonical_entries(e1);
    lemma_canonical_entries(e2);
    let c1 = canonical_entries(e1);
    let c2 = canonical_entries(e2);
    assert forall|x: (Seq<char>, Json)| #[trigger] c1.contains(x) <==> c2.contains(x) by {
        if c1.contains(x) {
            let i = choose|i: int| 0 <= i < e1.len() && x == (#[trigger] e1[i].0, canonical(e1[i].1));
            assert(e1.contains(e1[i]));
            assert(e2.contains(e1[i]));
            let m = choose|m: int| 0 <= m < e2.len() && e2[m] == e1[i];
            assert(x == (e2[m].0, canonical(e2[m].1)));
        }
        if c2.contains(x) {
            let i = choose|i: int| 0 <= i < e2.len() && x == (#[trigger] e2[i].0, canonical(e2[i].1));
            assert(e2.contains(e2[i]));
            assert(e1.contains(e2[i]));
            let m = choose|m: int| 0 <= m < e1.len() && e1[m] == e2[i];
            assert(x == (e1[m].0, canonical(e1[m].1)));
        }
    }
    lemma_sorted_entries_unique(c1, c2);
}

} // verus!
