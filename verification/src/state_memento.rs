//! Pipeline snapshots passed from one application object to the next while
//! one message is processed.

use vstd::prelude::*;
use crate::json::{JsonValue, Json, entry_models_of, lemma_entry_models_of, clone_json};
use crate::text::{
    copy_str, compare_str, has_view, insert_sorted_unique, seq_lt, strictly_sorted, views_of,
    TextOrder, lemma_seq_lt_asymmetric, lemma_seq_lt_irreflexive, lemma_seq_lt_total,
    lemma_seq_lt_transitive,
};

verus! {

/// Snapshot propagated between application objects in one pipeline pass.
#[derive(Debug, PartialEq)]
pub struct StateMemento {
    pub canonical_digest: String,
    pub frontier_digests: Vec<String>,
    pub revision: u64,
    /// Reorg and catch-up hints, as the entries of a JSON object.
    pub metadata: Vec<(String, JsonValue)>,
}

/// Mathematical model of a `StateMemento`.
pub struct MementoModel {
    pub canonical: Seq<char>,
    pub frontier: Seq<Seq<char>>,
    pub revision: u64,
    pub metadata: Seq<(Seq<char>, Json)>,
}

impl View for StateMemento {
    type V = MementoModel;

    open spec fn view(&self) -> MementoModel {
        MementoModel {
            canonical: self.canonical_digest@,
            frontier: views_of(self.frontier_digests@),
            revision: self.revision,
            metadata: entry_models_of(self.metadata@),
        }
    }
}

/// Whether the frontier `f` of a normalized memento for `canonical` is right:
/// strictly ordered, and holding exactly the non-empty digests among
/// `canonical` and `given`.
pub open spec fn is_normal_frontier(canonical: Seq<char>, given: Seq<Seq<char>>, f: Seq<Seq<char>>) -> bool {
    &&& strictly_sorted(f)
    &&& forall|t: Seq<char>| #[trigger] f.contains(t) <==> (t.len() > 0 && (t == canonical || given.contains(t)))
}

/// Whether a snapshot with canonical digest `cur` and frontier `frontier`
/// replaces the canonical digest `prev` of an earlier snapshot.
pub open spec fn reorg_spec(cur: Seq<char>, frontier: Seq<Seq<char>>, prev: Seq<char>) -> bool {
    &&& prev.len() > 0
    &&& cur.len() > 0
    &&& cur != prev
    &&& !frontier.contains(prev)
}

pub proof fn lemma_has_view_contains(v: Seq<String>, t: Seq<char>)
    ensures
        has_view(v, t) <==> views_of(v).contains(t),
{
    if has_view(v, t) {
        let k = choose|k: int| 0 <= k < v.len() && #[trigger] v[k]@ == t;
        assert(views_of(v)[k] == t);
    }
    if views_of(v).contains(t) {
        let k = choose|k: int| 0 <= k < views_of(v).len() && #[trigger] views_of(v)[k] == t;
        assert(v[k]@ == t);
    }
}

/// Two strictly ordered sequences with the same elements are equal.
pub proof fn lemma_strictly_sorted_unique(a: Seq<Seq<char>>, b: Seq<Seq<char>>)
    requires
        strictly_sorted(a),
        strictly_sorted(b),
        forall|t: Seq<char>| a.contains(t) <==> b.contains(t),
    ensures
        a == b,
    decreases a.len(),
{
    if a.len() == 0 {
        if b.len() > 0 {
            assert(b.contains(b[0]));
        }
        assert(a =~= b);
    } else if b.len() == 0 {
        assert(a.contains(a[0]));
    } else {
        // The first elements are both the least element.
        assert(a.contains(a[0]));
        assert(b.contains(b[0]));
        let i = choose|i: int| 0 <= i < b.len() && #[trigger] b[i] == a[0];
        let j = choose|j: int| 0 <= j < a.len() && #[trigger] a[j] == b[0];
        if i > 0 {
            assert(seq_lt(b[0], b[i]));
            if j > 0 {
                assert(seq_lt(a[0], a[j]));
                lemma_seq_lt_asymmetric(a[0], b[0]);
            } else {
                lemma_seq_lt_irreflexive(b[0]);
            }
        }
        assert(a[0] == b[0]);
        let a1 = a.drop_first();
        let b1 = b.drop_first();
        assert forall|t: Seq<char>| a1.contains(t) <==> b1.contains(t) by {
            if a1.contains(t) {
                let k = choose|k: int| 0 <= k < a1.len() && #[trigger] a1[k] == t;
                assert(a[k + 1] == t);
                assert(seq_lt(a[0], a[k + 1]));
                lemma_seq_lt_irreflexive(t);
                assert(b.contains(t));
                let m = choose|m: int| 0 <= m < b.len() && #[trigger] b[m] == t;
                assert(m != 0);
                assert(b1[m - 1] == t);
            }
            if b1.contains(t) {
                let k = choose|k: int| 0 <= k < b1.len() && #[trigger] b1[k] == t;
                assert(b[k + 1] == t);
                assert(seq_lt(b[0], b[k + 1]));
                lemma_seq_lt_irreflexive(t);
                assert(a.contains(t));
                let m = choose|m: int| 0 <= m < a.len() && #[trigger] a[m] == t;
                assert(m != 0);
                assert(a1[m - 1] == t);
            }
        }
        lemma_strictly_sorted_unique(a1, b1);
        assert(a =~= seq![a[0]] + a1);
        assert(b =~= seq![b[0]] + b1);
    }
}

impl StateMemento {
    /// Whether this snapshot's canonical digest replaces that of `previous`
    /// without `previous`'s canonical digest remaining on this frontier.
    #[verifier::loop_isolation(false)]
    pub fn indicates_reorg_against(&self, previous: Option<&StateMemento>) -> (r: bool)
        ensures
            r == match previous {
                None => false,
                Some(p) => reorg_spec(self@.canonical, self@.frontier, p@.canonical),
            },
    {
        let previous = match previous {
            None => {
                return false;
            },
            Some(p) => p,
        };
        if previous.canonical_digest.as_str().is_empty() || self.canonical_digest.as_str().is_empty() {
            return false;
        }
        if compare_str(self.canonical_digest.as_str(), previous.canonical_digest.as_str())
            == TextOrder::Equal {
            return false;
        }
        let mut i: usize = 0;
        while i < self.frontier_digests.len()
            invariant
                i <= self.frontier_digests@.len(),
                forall|k: int| 0 <= k < i ==> #[trigger] self.frontier_digests@[k]@ != previous.canonical_digest@,
            decreases self.frontier_digests@.len() - i,
        {
            if compare_str(self.frontier_digests[i].as_str(), previous.canonical_digest.as_str())
                == TextOrder::Equal {
                proof {
                    assert(views_of(self.frontier_digests@)[i as int] == previous.canonical_digest@);
                    assert(views_of(self.frontier_digests@).contains(previous.canonical_digest@));
                }
                return false;
            }
            i += 1;
        }
        proof {
            lemma_has_view_contains(self.frontier_digests@, previous.canonical_digest@);
        }
        true
    }

    /// A copy of this snapshot.
    pub fn copy(&self) -> (r: StateMemento)
        ensures
            r@ == self@,
    {
        let mut frontier: Vec<String> = Vec::new();
        let mut i: usize = 0;
        while i < self.frontier_digests.len()
            invariant
                i <= self.frontier_digests@.len(),
                frontier@.len() == i,
                forall|k: int| 0 <= k < i ==> #[trigger] frontier@[k]@ == self.frontier_digests@[k]@,
            decreases self.frontier_digests@.len() - i,
        {
            frontier.push(copy_str(self.frontier_digests[i].as_str()));
            i += 1;
        }
        let mut metadata: Vec<(String, JsonValue)> = Vec::new();
        let mut j: usize = 0;
        while j < self.metadata.len()
            invariant
                j <= self.metadata@.len(),
                metadata@.len() == j,
                forall|k: int| 0 <= k < j ==> #[trigger] metadata@[k].0@ == self.metadata@[k].0@
                    && metadata@[k].1.model() == self.metadata@[k].1.model(),
            decreases self.metadata@.len() - j,
        {
            metadata.push((copy_str(self.metadata[j].0.as_str()), clone_json(&self.metadata[j].1)));
            j += 1;
        }
        let r = StateMemento {
            canonical_digest: copy_str(self.canonical_digest.as_str()),
            frontier_digests: frontier,
            revision: self.revision,
            metadata,
        };
        proof {
            assert(views_of(r.frontier_digests@) =~= views_of(self.frontier_digests@));
            lemma_entry_models_of(r.metadata@);
            lemma_entry_models_of(self.metadata@);
            assert(entry_models_of(r.metadata@) =~= entry_models_of(self.metadata@));
        }
        r
    }
}

/// A snapshot for `canonical_digest` whose frontier holds the non-empty
/// digests among `canonical_digest` and `frontier_digests`, each once, in
/// order; revision 0 and no metadata.
pub fn normalize_state_memento(canonical_digest: &str, frontier_digests: Option<Vec<String>>) -> (m: StateMemento)
    ensures
        m@.canonical == canonical_digest@,
        is_normal_frontier(
            canonical_digest@,
            match frontier_digests {
                Some(v) => views_of(v@),
                None => Seq::empty(),
            },
            m@.frontier,
        ),
        m@.revision == 0,
        m@.metadata.len() == 0,
{
    let given: Vec<String> = match frontier_digests {
        Some(v) => v,
        None => Vec::new(),
    };
    let ghost gv = views_of(given@);
    let mut out: Vec<String> = Vec::new();
    let mut i: usize = 0;
    while i < given.len()
        invariant
            i <= given@.len(),
            gv == views_of(given@),
            strictly_sorted(views_of(out@)),
            forall|t: Seq<char>| has_view(out@, t) <==> (t.len() > 0 && gv.take(i as int).contains(t)),
        decreases given@.len() - i,
    {
        let d = copy_str(given[i].as_str());
        let ghost before = out@;
        if !d.as_str().is_empty() {
            insert_sorted_unique(&mut out, d);
        }
        proof {
            assert(gv.take(i as int + 1) =~= gv.take(i as int).push(given@[i as int]@));
            assert forall|t: Seq<char>| has_view(out@, t) <==> (t.len() > 0 && gv.take(i as int + 1).contains(t)) by {
                if gv.take(i as int + 1).contains(t) && t != given@[i as int]@ {
                    let k = choose|k: int| 0 <= k < i + 1 && #[trigger] gv.take(i as int + 1)[k] == t;
                    assert(gv.take(i as int)[k] == t);
                }
                if gv.take(i as int).contains(t) {
                    let k = choose|k: int| 0 <= k < i && #[trigger] gv.take(i as int)[k] == t;
                    assert(gv.take(i as int + 1)[k] == t);
                }
                if t == given@[i as int]@ {
                    assert(gv.take(i as int + 1)[i as int] == t);
                }
            }
        }
        i += 1;
    }
    let c = copy_str(canonical_digest);
    if !c.as_str().is_empty() {
        insert_sorted_unique(&mut out, c);
    }
    let m = StateMemento {
        canonical_digest: copy_str(canonical_digest),
        frontier_digests: out,
        revision: 0,
        metadata: Vec::new(),
    };
    proof {
        assert(gv.take(given@.len() as int) =~= gv);
        assert forall|t: Seq<char>| #[trigger] m@.frontier.contains(t) <==> (t.len() > 0 && (t == canonical_digest@ || gv.contains(t))) by {
            lemma_has_view_contains(m.frontier_digests@, t);
        }
        lemma_entry_models_of(m.metadata@);
    }
    m
}

/// Normalizing the frontier of a normalized snapshot changes nothing: the
/// normal frontier is determined by the set of digests it holds.
pub proof fn lemma_normal_frontier_unique(canonical: Seq<char>, given: Seq<Seq<char>>, f1: Seq<Seq<char>>, f2: Seq<Seq<char>>)
    requires
        is_normal_frontier(canonical, given, f1),
        is_normal_frontier(canonical, given, f2),
    ensures
        f1 == f2,
{
    assert forall|t: Seq<char>| f1.contains(t) <==> f2.contains(t) by {
        assert(f1.contains(t) <==> (t.len() > 0 && (t == canonical || given.contains(t))));
        assert(f2.contains(t) <==> (t.len() > 0 && (t == canonical || given.contains(t))));
    }
    lemma_strictly_sorted_unique(f1, f2);
}

/// Normalizing again with a normal frontier as input gives the same frontier.
pub proof fn lemma_normalize_idempotent(canonical: Seq<char>, given: Seq<Seq<char>>, f: Seq<Seq<char>>, g: Seq<Seq<char>>)
    requires
        is_normal_frontier(canonical, given, f),
        is_normal_frontier(canonical, f, g),
    ensures
        g == f,
{
    assert forall|t: Seq<char>| g.contains(t) <==> f.contains(t) by {
        assert(g.contains(t) <==> (t.len() > 0 && (t == canonical || f.contains(t))));
        assert(f.contains(t) <==> (t.len() > 0 && (t == canonical || given.contains(t))));
    }
    lemma_strictly_sorted_unique(g, f);
}

/// A snapshot never indicates a reorg against a snapshot with the same
/// canonical digest, nor against one whose canonical digest is on its frontier.
pub proof fn lemma_no_reorg_against_kept_canonical(cur: Seq<char>, frontier: Seq<Seq<char>>, prev: Seq<char>)
    requires
        prev == cur || frontier.contains(prev),
    ensures
        !reorg_spec(cur, frontier, prev),
{
}

} // verus!
