//! A map from text keys to JSON values, the keyed state of the core objects.

use vstd::prelude::*;
use crate::json::{JsonValue, Json, clone_json};
use crate::text::{copy_str, str_equal};

verus! {

broadcast use vstd::string::group_string_axioms;

/// The map that a list of entries denotes (later entries win).
pub open spec fn entries_map(s: Seq<(String, JsonValue)>) -> Map<Seq<char>, Json>
    decreases s.len(),
{
    if s.len() == 0 {
        Map::empty()
    } else {
        entries_map(s.drop_last()).insert(s.last().0@, s.last().1.model())
    }
}

/// No two entries share a key.
pub open spec fn keys_unique(s: Seq<(String, JsonValue)>) -> bool {
    forall|i: int, j: int| 0 <= i < s.len() && 0 <= j < s.len() && i != j ==> #[trigger] s[i].0@ != #[trigger] s[j].0@
}

pub proof fn lemma_entries_map_dom(s: Seq<(String, JsonValue)>, k: Seq<char>)
    ensures
        entries_map(s).dom().contains(k) <==> exists|i: int| 0 <= i < s.len() && #[trigger] s[i].0@ == k,
    decreases s.len(),
{
    if s.len() > 0 {
        lemma_entries_map_dom(s.drop_last(), k);
        if entries_map(s.drop_last()).dom().contains(k) {
            let i = choose|i: int| 0 <= i < s.drop_last().len() && #[trigger] s.drop_last()[i].0@ == k;
            assert(s[i].0@ == k);
        }
        if exists|i: int| 0 <= i < s.len() && #[trigger] s[i].0@ == k {
            let i = choose|i: int| 0 <= i < s.len() && #[trigger] s[i].0@ == k;
            if i < s.len() - 1 {
                assert(s.drop_last()[i].0@ == k);
            }
        }
    }
}

pub proof fn lemma_entries_map_value(s: Seq<(String, JsonValue)>, i: int)
    requires
        keys_unique(s),
        0 <= i < s.len(),
    ensures
        entries_map(s).dom().contains(s[i].0@),
        entries_map(s)[s[i].0@] == s[i].1.model(),
    decreases s.len(),
{
    if i < s.len() - 1 {
        let t = s.drop_last();
        assert(t[i] == s[i]);
        assert(keys_unique(t)) by {
            assert forall|a: int, b: int| 0 <= a < t.len() && 0 <= b < t.len() && a != b implies #[trigger] t[a].0@ != #[trigger] t[b].0@ by {
                assert(t[a] == s[a]);
                assert(t[b] == s[b]);
            }
        }
        lemma_entries_map_value(t, i);
        assert(s[i].0@ != s.last().0@);
    }
}

pub proof fn lemma_entries_map_remove(s: Seq<(String, JsonValue)>, i: int)
    requires
        keys_unique(s),
        0 <= i < s.len(),
    ensures
        entries_map(s.remove(i)) =~= entries_map(s).remove(s[i].0@),
        keys_unique(s.remove(i)),
    decreases s.len(),
{
    let k = s[i].0@;
    let r = s.remove(i);
    assert(keys_unique(r)) by {
        assert forall|a: int, b: int| 0 <= a < r.len() && 0 <= b < r.len() && a != b implies #[trigger] r[a].0@ != #[trigger] r[b].0@ by {
            let a2 = if a < i { a } else { a + 1 };
            let b2 = if b < i { b } else { b + 1 };
            assert(r[a] == s[a2]);
            assert(r[b] == s[b2]);
        }
    }
    let t = s.drop_last();
    assert(keys_unique(t)) by {
        assert forall|a: int, b: int| 0 <= a < t.len() && 0 <= b < t.len() && a != b implies #[trigger] t[a].0@ != #[trigger] t[b].0@ by {
            assert(t[a] == s[a]);
            assert(t[b] == s[b]);
        }
    }
    if i == s.len() - 1 {
        assert(r =~= t);
        lemma_entries_map_dom(t, k);
        assert(!entries_map(t).dom().contains(k)) by {
            if entries_map(t).dom().contains(k) {
                let j = choose|j: int| 0 <= j < t.len() && #[trigger] t[j].0@ == k;
                assert(s[j].0@ == k);
            }
        }
    } else {
        lemma_entries_map_remove(t, i);
        assert(r =~= t.remove(i).push(s.last()));
        assert(r.drop_last() =~= t.remove(i));
        assert(s.last().0@ != k);
    }
}

/// A map from text keys to JSON values.
pub struct JsonMap {
    entries: Vec<(String, JsonValue)>,
}

impl View for JsonMap {
    type V = Map<Seq<char>, Json>;

    closed spec fn view(&self) -> Map<Seq<char>, Json> {
        entries_map(self.entries@)
    }
}

impl JsonMap {
    pub closed spec fn wf(&self) -> bool {
        keys_unique(self.entries@)
    }

    /// The number of entries.
    pub closed spec fn spec_len(&self) -> nat {
        self.entries@.len()
    }

    pub proof fn lemma_len(&self)
        requires
            self.wf(),
        ensures
            self@.dom().finite(),
            self@.dom().len() == self.spec_len(),
    {
        self.lemma_len_rec(self.entries@);
    }

    proof fn lemma_len_rec(&self, s: Seq<(String, JsonValue)>)
        requires
            keys_unique(s),
        ensures
            entries_map(s).dom().finite(),
            entries_map(s).dom().len() == s.len(),
        decreases s.len(),
    {
        if s.len() > 0 {
            let t = s.drop_last();
            assert(keys_unique(t)) by {
                assert forall|a: int, b: int| 0 <= a < t.len() && 0 <= b < t.len() && a != b implies #[trigger] t[a].0@ != #[trigger] t[b].0@ by {
                    assert(t[a] == s[a]);
                    assert(t[b] == s[b]);
                }
            }
            self.lemma_len_rec(t);
            lemma_entries_map_dom(t, s.last().0@);
            if entries_map(t).dom().contains(s.last().0@) {
                let j = choose|j: int| 0 <= j < t.len() && #[trigger] t[j].0@ == s.last().0@;
                assert(s[j].0@ == s.last().0@);
            }
        }
    }

    /// An empty map.
    pub fn new() -> (m: JsonMap)
        ensures
            m.wf(),
            m@ == Map::<Seq<char>, Json>::empty(),
            m.spec_len() == 0,
    {
        JsonMap { entries: Vec::new() }
    }

    fn position(&self, key: &str) -> (r: Option<usize>)
        requires
            self.wf(),
        ensures
            match r {
                Some(i) => i < self.entries@.len() && self.entries@[i as int].0@ == key@,
                None => !self@.dom().contains(key@),
            },
    {
        let mut i: usize = 0;
        while i < self.entries.len()
            invariant
                i <= self.entries@.len(),
                forall|k: int| 0 <= k < i ==> #[trigger] self.entries@[k].0@ != key@,
            decreases self.entries@.len() - i,
        {
            if str_equal(self.entries[i].0.as_str(), key) {
                return Some(i);
            }
            i += 1;
        }
        proof {
            lemma_entries_map_dom(self.entries@, key@);
        }
        None
    }

    /// The value under `key`.
    pub fn get(&self, key: &str) -> (r: Option<&JsonValue>)
        requires
            self.wf(),
        ensures
            match r {
                Some(v) => self@.dom().contains(key@) && self@[key@] == v.model(),
                None => !self@.dom().contains(key@),
            },
    {
        match self.position(key) {
            Some(i) => {
                proof {
                    lemma_entries_map_value(self.entries@, i as int);
                }
                Some(&self.entries[i].1)
            },
            None => None,
        }
    }

    pub fn contains_key(&self, key: &str) -> (r: bool)
        requires
            self.wf(),
        ensures
            r == self@.dom().contains(key@),
    {
        self.get(key).is_some()
    }

    pub fn len(&self) -> (n: usize)
        requires
            self.wf(),
        ensures
            n == self@.dom().len(),
    {
        proof {
            self.lemma_len();
        }
        self.entries.len()
    }

    pub fn is_empty(&self) -> (b: bool)
        requires
            self.wf(),
        ensures
            b == (self@.dom().len() == 0),
    {
        proof {
            self.lemma_len();
        }
        self.entries.len() == 0
    }

    /// The keys, each once.
    pub fn keys(&self) -> (r: Vec<String>)
        requires
            self.wf(),
        ensures
            r@.len() == self@.dom().len(),
            forall|k: Seq<char>| self@.dom().contains(k) <==> exists|i: int| 0 <= i < r@.len() && #[trigger] r@[i]@ == k,
    {
        proof {
            self.lemma_len();
        }
        let mut out: Vec<String> = Vec::new();
        let mut i: usize = 0;
        while i < self.entries.len()
            invariant
                i <= self.entries@.len(),
                out@.len() == i,
                forall|j: int| 0 <= j < i ==> #[trigger] out@[j]@ == self.entries@[j].0@,
            decreases self.entries@.len() - i,
        {
            out.push(copy_str(self.entries[i].0.as_str()));
            i += 1;
        }
        proof {
            assert forall|k: Seq<char>| self@.dom().contains(k) <==> exists|i: int| 0 <= i < out@.len() && #[trigger] out@[i]@ == k by {
                lemma_entries_map_dom(self.entries@, k);
                if self@.dom().contains(k) {
                    let j = choose|j: int| 0 <= j < self.entries@.len() && #[trigger] self.entries@[j].0@ == k;
                    assert(out@[j]@ == k);
                }
                if exists|i: int| 0 <= i < out@.len() && #[trigger] out@[i]@ == k {
                    let j = choose|i: int| 0 <= i < out@.len() && #[trigger] out@[i]@ == k;
                    assert(self.entries@[j].0@ == k);
                }
            }
        }
        out
    }

    /// Sets `key` to `value`.
    pub fn insert(&mut self, key: String, value: JsonValue)
        requires
            old(self).wf(),
        ensures
            final(self).wf(),
            final(self)@ == old(self)@.insert(key@, value.model()),
    {
        let ghost k = key@;
        let ghost v = value.model();
        match self.position(key.as_str()) {
            Some(i) => {
                proof {
                    lemma_entries_map_remove(self.entries@, i as int);
                }
                self.entries.remove(i);
            },
            None => {},
        }
        let ghost mid = self.entries@;
        proof {
            lemma_entries_map_dom(mid, k);
        }
        self.entries.push((key, value));
        proof {
            assert(self.entries@.drop_last() =~= mid);
            assert(keys_unique(self.entries@)) by {
                assert forall|a: int, b: int| 0 <= a < self.entries@.len() && 0 <= b < self.entries@.len() && a != b implies #[trigger] self.entries@[a].0@ != #[trigger] self.entries@[b].0@ by {
                    if a < mid.len() && b < mid.len() {
                        assert(self.entries@[a] == mid[a]);
                        assert(self.entries@[b] == mid[b]);
                    } else if a < mid.len() {
                        assert(self.entries@[a] == mid[a]);
                    } else {
                        assert(self.entries@[b] == mid[b]);
                    }
                }
            }
            assert(self@ =~= old(self)@.insert(k, v));
        }
    }

    /// Removes `key`, returning its value.
    pub fn remove(&mut self, key: &str) -> (r: Option<JsonValue>)
        requires
            old(self).wf(),
        ensures
            final(self).wf(),
            final(self)@ == old(self)@.remove(key@),
            match r {
                Some(v) => old(self)@.dom().contains(key@) && old(self)@[key@] == v.model(),
                None => !old(self)@.dom().contains(key@),
            },
    {
        match self.position(key) {
            Some(i) => {
                proof {
                    lemma_entries_map_remove(self.entries@, i as int);
                    lemma_entries_map_value(self.entries@, i as int);
                }
                let (_, v) = self.entries.remove(i);
                Some(v)
            },
            None => {
                proof {
                    assert(old(self)@.remove(key@) =~= old(self)@);
                }
                None
            },
        }
    }

    pub fn clear(&mut self)
        ensures
            final(self).wf(),
            final(self)@ == Map::<Seq<char>, Json>::empty(),
    {
        self.entries.clear();
    }

    /// A copy of this map.
    pub fn copy(&self) -> (m: JsonMap)
        requires
            self.wf(),
        ensures
            m.wf(),
            m@ == self@,
    {
        let mut out: Vec<(String, JsonValue)> = Vec::new();
        let mut i: usize = 0;
        while i < self.entries.len()
            invariant
                i <= self.entries@.len(),
                out@.len() == i,
                forall|j: int| 0 <= j < i ==> #[trigger] out@[j].0@ == self.entries@[j].0@ && out@[j].1.model() == self.entries@[j].1.model(),
            decreases self.entries@.len() - i,
        {
            out.push((copy_str(self.entries[i].0.as_str()), clone_json(&self.entries[i].1)));
            i += 1;
        }
        proof {
            lemma_same_entries(out@, self.entries@);
        }
        JsonMap { entries: out }
    }
}

proof fn lemma_same_entries(a: Seq<(String, JsonValue)>, b: Seq<(String, JsonValue)>)
    requires
        a.len() == b.len(),
        forall|j: int| 0 <= j < a.len() ==> #[trigger] a[j].0@ == b[j].0@ && a[j].1.model() == b[j].1.model(),
    ensures
        entries_map(a) == entries_map(b),
        keys_unique(b) ==> keys_unique(a),
    decreases a.len(),
{
    if a.len() > 0 {
        assert forall|j: int| 0 <= j < a.drop_last().len() implies #[trigger] a.drop_last()[j].0@ == b.drop_last()[j].0@ && a.drop_last()[j].1.model() == b.drop_last()[j].1.model() by {
            assert(a.drop_last()[j] == a[j]);
            assert(b.drop_last()[j] == b[j]);
        }
        lemma_same_entries(a.drop_last(), b.drop_last());
    }
    if keys_unique(b) {
        assert forall|x: int, y: int| 0 <= x < a.len() && 0 <= y < a.len() && x != y implies #[trigger] a[x].0@ != #[trigger] a[y].0@ by {
            assert(a[x].0@ == b[x].0@);
            assert(a[y].0@ == b[y].0@);
        }
    }
}

} // verus!
