//! A map from text keys to byte strings: the key/value store of a node.

use vstd::prelude::*;
use crate::text::{copy_str, str_equal};

verus! {

broadcast use vstd::string::group_string_axioms;

/// The map that a list of entries denotes (later entries win).
pub open spec fn bytes_map(s: Seq<(String, Vec<u8>)>) -> Map<Seq<char>, Seq<u8>>
    decreases s.len(),
{
    if s.len() == 0 {
        Map::empty()
    } else {
        bytes_map(s.drop_last()).insert(s.last().0@, s.last().1@)
    }
}

/// No two entries share a key.
pub open spec fn byte_keys_unique(s: Seq<(String, Vec<u8>)>) -> bool {
    forall|i: int, j: int| 0 <= i < s.len() && 0 <= j < s.len() && i != j ==> #[trigger] s[i].0@ != #[trigger] s[j].0@
}

pub proof fn lemma_bytes_map_dom(s: Seq<(String, Vec<u8>)>, k: Seq<char>)
    ensures
        bytes_map(s).dom().contains(k) <==> exists|i: int| 0 <= i < s.len() && #[trigger] s[i].0@ == k,
    decreases s.len(),
{
    if s.len() > 0 {
        lemma_bytes_map_dom(s.drop_last(), k);
        if bytes_map(s.drop_last()).dom().contains(k) {
            let i = choose|i: int| 0 <= i < s.drop_last().len() && #[trigger] s.drop_last()[i].0@ == k;
            assert(s[i].0@ == k);
        }
        if exists|i: int| 0 <= i < s.len() && #[trigger] s[i].0@ == k {
            let i = choose|i: int| 0 <= i < s.len() && #[trigger] s[i].0@ == k;
            if i < s.len() - 1 {
                assert(s.drop_last()[i].0@ == k);
            }
        }
    }
}

pub proof fn lemma_bytes_map_value(s: Seq<(String, Vec<u8>)>, i: int)
    requires
        byte_keys_unique(s),
        0 <= i < s.len(),
    ensures
        bytes_map(s).dom().contains(s[i].0@),
        bytes_map(s)[s[i].0@] == s[i].1@,
    decreases s.len(),
{
    if i < s.len() - 1 {
        let t = s.drop_last();
        assert(t[i] == s[i]);
        assert(byte_keys_unique(t)) by {
            assert forall|a: int, b: int| 0 <= a < t.len() && 0 <= b < t.len() && a != b implies #[trigger] t[a].0@ != #[trigger] t[b].0@ by {
                assert(t[a] == s[a]);
                assert(t[b] == s[b]);
            }
        }
        lemma_bytes_map_value(t, i);
        assert(s[i].0@ != s.last().0@);
    }
}

pub proof fn lemma_bytes_map_remove(s: Seq<(String, Vec<u8>)>, i: int)
    requires
        byte_keys_unique(s),
        0 <= i < s.len(),
    ensures
        bytes_map(s.remove(i)) =~= bytes_map(s).remove(s[i].0@),
        byte_keys_unique(s.remove(i)),
    decreases s.len(),
{
    let k = s[i].0@;
    let r = s.remove(i);
    assert(byte_keys_unique(r)) by {
        assert forall|a: int, b: int| 0 <= a < r.len() && 0 <= b < r.len() && a != b implies #[trigger] r[a].0@ != #[trigger] r[b].0@ by {
            let a2 = if a < i { a } else { a + 1 };
            let b2 = if b < i { b } else { b + 1 };
            assert(r[a] == s[a2]);
            assert(r[b] == s[b2]);
        }
    }
    let t = s.drop_last();
    assert(byte_keys_unique(t)) by {
        assert forall|a: int, b: int| 0 <= a < t.len() && 0 <= b < t.len() && a != b implies #[trigger] t[a].0@ != #[trigger] t[b].0@ by {
            assert(t[a] == s[a]);
            assert(t[b] == s[b]);
        }
    }
    if i == s.len() - 1 {
        assert(r =~= t);
        lemma_bytes_map_dom(t, k);
        assert(!bytes_map(t).dom().contains(k)) by {
            if bytes_map(t).dom().contains(k) {
                let j = choose|j: int| 0 <= j < t.len() && #[trigger] t[j].0@ == k;
                assert(s[j].0@ == k);
            }
        }
    } else {
        lemma_bytes_map_remove(t, i);
        assert(r =~= t.remove(i).push(s.last()));
        assert(r.drop_last() =~= t.remove(i));
        assert(s.last().0@ != k);
    }
}

/// A map from text keys to byte strings.
pub struct ByteMap {
    entries: Vec<(String, Vec<u8>)>,
}

impl View for ByteMap {
    type V = Map<Seq<char>, Seq<u8>>;

    closed spec fn view(&self) -> Map<Seq<char>, Seq<u8>> {
        bytes_map(self.entries@)
    }
}

impl ByteMap {
    pub closed spec fn wf(&self) -> bool {
        byte_keys_unique(self.entries@)
    }

    /// The number of entries.
    pub closed spec fn spec_len(&self) -> nat {
        self.entries@.len()
    }

    pub proof fn lemma_len(&self)
        requires
            self.wf(),
        ensures
            self@.dom().finite(),
            self@.dom().len() == self.spec_len(),
    {
        self.lemma_len_rec(self.entries@);
    }

    proof fn lemma_len_rec(&self, s: Seq<(String, Vec<u8>)>)
        requires
            byte_keys_unique(s),
        ensures
            bytes_map(s).dom().finite(),
            bytes_map(s).dom().len() == s.len(),
        decreases s.len(),
    {
        if s.len() > 0 {
            let t = s.drop_last();
            assert(byte_keys_unique(t)) by {
                assert forall|a: int, b: int| 0 <= a < t.len() && 0 <= b < t.len() && a != b implies #[trigger] t[a].0@ != #[trigger] t[b].0@ by {
                    assert(t[a] == s[a]);
                    assert(t[b] == s[b]);
                }
            }
            self.lemma_len_rec(t);
            lemma_bytes_map_dom(t, s.last().0@);
            if bytes_map(t).dom().contains(s.last().0@) {
                let j = choose|j: int| 0 <= j < t.len() && #[trigger] t[j].0@ == s.last().0@;
                assert(s[j].0@ == s.last().0@);
            }
        }
    }

    /// An empty map.
    pub fn new() -> (m: ByteMap)
        ensures
            m.wf(),
            m@ == Map::<Seq<char>, Seq<u8>>::empty(),
            m.spec_len() == 0,
    {
        ByteMap { entries: Vec::new() }
    }

    fn position(&self, key: &str) -> (r: Option<usize>)
        requires
            self.wf(),
        ensures
            match r {
                Some(i) => i < self.entries@.len() && self.entries@[i as int].0@ == key@,
                None => !self@.dom().contains(key@),
            },
    {
        let mut i: usize = 0;
        while i < self.entries.len()
            invariant
                i <= self.entries@.len(),
                forall|k: int| 0 <= k < i ==> #[trigger] self.entries@[k].0@ != key@,
            decreases self.entries@.len() - i,
        {
            if str_equal(self.entries[i].0.as_str(), key) {
                return Some(i);
            }
            i += 1;
        }
        proof {
            lemma_bytes_map_dom(self.entries@, key@);
        }
        None
    }

    /// The value under `key`.
    pub fn get(&self, key: &str) -> (r: Option<&Vec<u8>>)
        requires
            self.wf(),
        ensures
            match r {
                Some(v) => self@.dom().contains(key@) && self@[key@] == v@,
                None => !self@.dom().contains(key@),
            },
    {
        match self.position(key) {
            Some(i) => {
                proof {
                    lemma_bytes_map_value(self.entries@, i as int);
                }
                Some(&self.entries[i].1)
            },
            None => None,
        }
    }

    pub fn contains_key(&self, key: &str) -> (r: bool)
        requires
            self.wf(),
        ensures
            r == self@.dom().contains(key@),
    {
        self.get(key).is_some()
    }

    pub fn len(&self) -> (n: usize)
        requires
            self.wf(),
        ensures
            n == self@.dom().len(),
    {
        proof {
            self.lemma_len();
        }
        self.entries.len()
    }

    pub fn is_empty(&self) -> (b: bool)
        requires
            self.wf(),
        ensures
            b == (self@.dom().len() == 0),
    {
        proof {
            self.lemma_len();
        }
        self.entries.len() == 0
    }

    /// The keys, each once.
    pub fn keys(&self) -> (r: Vec<String>)
        requires
            self.wf(),
        ensures
            r@.len() == self@.dom().len(),
            forall|k: Seq<char>| self@.dom().contains(k) <==> exists|i: int| 0 <= i < r@.len() && #[trigger] r@[i]@ == k,
    {
        proof {
            self.lemma_len();
        }
        let mut out: Vec<String> = Vec::new();
        let mut i: usize = 0;
        while i < self.entries.len()
            invariant
                i <= self.entries@.len(),
                out@.len() == i,
                forall|j: int| 0 <= j < i ==> #[trigger] out@[j]@ == self.entries@[j].0@,
            decreases self.entries@.len() - i,
        {
            out.push(copy_str(self.entries[i].0.as_str()));
            i += 1;
        }
        proof {
            assert forall|k: Seq<char>| self@.dom().contains(k) <==> exists|i: int| 0 <= i < out@.len() && #[trigger] out@[i]@ == k by {
                lemma_bytes_map_dom(self.entries@, k);
                if self@.dom().contains(k) {
                    let j = choose|j: int| 0 <= j < self.entries@.len() && #[trigger] self.entries@[j].0@ == k;
                    assert(out@[j]@ == k);
                }
                if exists|i: int| 0 <= i < out@.len() && #[trigger] out@[i]@ == k {
                    let j = choose|i: int| 0 <= i < out@.len() && #[trigger] out@[i]@ == k;
                    assert(self.entries@[j].0@ == k);
                }
            }
        }
        out
    }

    /// Sets `key` to `value`.
    pub fn insert(&mut self, key: String, value: Vec<u8>)
        requires
            old(self).wf(),
        ensures
            final(self).wf(),
            final(self)@ == old(self)@.insert(key@, value@),
    {
        let ghost k = key@;
        let ghost v = value@;
        match self.position(key.as_str()) {
            Some(i) => {
                proof {
                    lemma_bytes_map_remove(self.entries@, i as int);
                }
                self.entries.remove(i);
            },
            None => {},
        }
        let ghost mid = self.entries@;
        proof {
            lemma_bytes_map_dom(mid, k);
        }
        self.entries.push((key, value));
        proof {
            assert(self.entries@.drop_last() =~= mid);
            assert(byte_keys_unique(self.entries@)) by {
                assert forall|a: int, b: int| 0 <= a < self.entries@.len() && 0 <= b < self.entries@.len() && a != b implies #[trigger] self.entries@[a].0@ != #[trigger] self.entries@[b].0@ by {
                    if a < mid.len() && b < mid.len() {
                        assert(self.entries@[a] == mid[a]);
                        assert(self.entries@[b] == mid[b]);
                    } else if a < mid.len() {
                        assert(self.entries@[a] == mid[a]);
                    } else {
                        assert(self.entries@[b] == mid[b]);
                    }
                }
            }
            assert(self@ =~= old(self)@.insert(k, v));
        }
    }

    /// Removes `key`, returning its value.
    pub fn remove(&mut self, key: &str) -> (r: Option<Vec<u8>>)
        requires
            old(self).wf(),
        ensures
            final(self).wf(),
            final(self)@ == old(self)@.remove(key@),
            match r {
                Some(v) => old(self)@.dom().contains(key@) && old(self)@[key@] == v@,
                None => !old(self)@.dom().contains(key@),
            },
    {
        match self.position(key) {
            Some(i) => {
                proof {
                    lemma_bytes_map_remove(self.entries@, i as int);
                    lemma_bytes_map_value(self.entries@, i as int);
                }
                let (_, v) = self.entries.remove(i);
                Some(v)
            },
            None => {
                proof {
                    assert(old(self)@.remove(key@) =~= old(self)@);
                }
                None
            },
        }
    }

    pub fn clear(&mut self)
        ensures
            final(self).wf(),
            final(self)@ == Map::<Seq<char>, Seq<u8>>::empty(),
    {
        self.entries.clear();
    }

    /// A copy of this map.
    pub fn copy(&self) -> (m: ByteMap)
        requires
            self.wf(),
        ensures
            m.wf(),
            m@ == self@,
    {
        let mut out: Vec<(String, Vec<u8>)> = Vec::new();
        let mut i: usize = 0;
        while i < self.entries.len()
            invariant
                i <= self.entries@.len(),
                out@.len() == i,
                forall|j: int| 0 <= j < i ==> #[trigger] out@[j].0@ == self.entries@[j].0@ && out@[j].1@ == self.entries@[j].1@,
            decreases self.entries@.len() - i,
        {
            out.push((copy_str(self.entries[i].0.as_str()), crate::shared::copy_bytes(self.entries[i].1.as_slice())));
            i += 1;
        }
        proof {
            lemma_same_byte_entries(out@, self.entries@);
        }
        ByteMap { entries: out }
    }
}

proof fn lemma_same_byte_entries(a: Seq<(String, Vec<u8>)>, b: Seq<(String, Vec<u8>)>)
    requires
        a.len() == b.len(),
        forall|j: int| 0 <= j < a.len() ==> #[trigger] a[j].0@ == b[j].0@ && a[j].1@ == b[j].1@,
    ensures
        bytes_map(a) == bytes_map(b),
        byte_keys_unique(b) ==> byte_keys_unique(a),
    decreases a.len(),
{
    if a.len() > 0 {
        assert forall|j: int| 0 <= j < a.drop_last().len() implies #[trigger] a.drop_last()[j].0@ == b.drop_last()[j].0@ && a.drop_last()[j].1@ == b.drop_last()[j].1@ by {
            assert(a.drop_last()[j] == a[j]);
            assert(b.drop_last()[j] == b[j]);
        }
        lemma_same_byte_entries(a.drop_last(), b.drop_last());
    }
    if byte_keys_unique(b) {
        assert forall|x: int, y: int| 0 <= x < a.len() && 0 <= y < a.len() && x != y implies #[trigger] a[x].0@ != #[trigger] a[y].0@ by {
            assert(a[x].0@ == b[x].0@);
            assert(a[y].0@ == b[y].0@);
        }
    }
}

} // verus!
